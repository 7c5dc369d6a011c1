use archidekt::dedup::group_quantities_fit;
use archidekt::entry::MIXED_PRICE;
use archidekt::{dedup_cards, CardDeduper, ColorIdent, Entry, User};

fn printing(owner: User, name: &str, quantity: u8, set: &str, price: i64) -> Entry {
    Entry {
        owner,
        quantity,
        color_identity: ColorIdent::new(),
        name: name.to_string(),
        ty: "Instant".to_string(),
        set: set.to_string(),
        scryfall: format!("{name}-{set}"),
        price,
    }
}

#[test]
fn merge_same_set() {
    let input = vec![
        printing(User::Strosel, "Bolt", 2, "M10", 100),
        printing(User::Strosel, "Bolt", 3, "M10", 100),
    ];
    let out = dedup_cards(&input, true);
    assert_eq!(out.len(), 1);
    assert_eq!(out[0].quantity, 5);
    assert_eq!(out[0].set, "M10");
    assert_eq!(out[0].price, 100);
    assert_eq!(out[0].name, "Bolt");
}

#[test]
fn merge_divergent_set() {
    let input = vec![
        printing(User::Strosel, "Bolt", 2, "M10", 100),
        printing(User::Strosel, "Bolt", 3, "M11", 100),
    ];
    let out = dedup_cards(&input, true);
    assert_eq!(out.len(), 1);
    assert_eq!(out[0].quantity, 5);
    assert_eq!(out[0].set, "");
    assert_eq!(out[0].price, -100);
    assert_eq!(out[0].price, MIXED_PRICE);
}

#[test]
fn divergence_sticks() {
    let input = vec![
        printing(User::Strosel, "Bolt", 1, "M10", 100),
        printing(User::Strosel, "Bolt", 1, "M11", 250),
        printing(User::Strosel, "Bolt", 1, "M10", 100),
        printing(User::Strosel, "Bolt", 1, "", 100),
    ];
    let out = dedup_cards(&input, true);
    assert_eq!(out.len(), 1);
    assert_eq!(out[0].quantity, 4);
    assert_eq!(out[0].set, "");
    assert_eq!(out[0].price, MIXED_PRICE);
}

#[test]
fn disabled_is_identity() {
    let input = vec![
        printing(User::Strosel, "Bolt", 2, "M10", 100),
        printing(User::Strosel, "Bolt", 3, "M11", 100),
        printing(User::Amon8808, "Shock", 1, "M19", 25),
    ];
    let out = dedup_cards(&input, false);
    assert_eq!(out, input);
}

#[test]
fn owners_are_not_merged() {
    let input = vec![
        printing(User::Strosel, "Bolt", 2, "M10", 100),
        printing(User::Amon8808, "Bolt", 3, "M10", 100),
        printing(User::Strosel, "Bolt", 1, "M10", 100),
    ];
    let out = dedup_cards(&input, true);
    assert_eq!(out.len(), 3);
    assert_eq!(out, input);
}

#[test]
fn only_adjacent_printings_merge() {
    let input = vec![
        printing(User::Strosel, "Bolt", 2, "M10", 100),
        printing(User::Strosel, "Shock", 1, "M19", 25),
        printing(User::Strosel, "Bolt", 1, "M10", 100),
        printing(User::Strosel, "Bolt", 4, "M10", 100),
    ];
    let out = dedup_cards(&input, true);
    let summary: Vec<(&str, u8)> = out.iter().map(|e| (e.name.as_str(), e.quantity)).collect();
    assert_eq!(summary, vec![("Bolt", 2), ("Shock", 1), ("Bolt", 5)]);
}

#[test]
fn empty_input_gives_empty_output() {
    assert!(dedup_cards(&[], true).is_empty());
    assert!(dedup_cards(&[], false).is_empty());
}

#[test]
fn streaming_matches_eager() {
    let input = vec![
        printing(User::Strosel, "Bolt", 2, "M10", 100),
        printing(User::Strosel, "Bolt", 3, "M11", 100),
        printing(User::Amon8808, "Shock", 1, "M19", 25),
    ];
    let mut stream = CardDeduper::new(&input, true);
    let first = stream.next().unwrap();
    assert_eq!((first.quantity, first.set.as_str(), first.price), (5, "", MIXED_PRICE));
    let second = stream.next().unwrap();
    assert_eq!(second, input[2]);
    assert!(stream.next().is_none());
    assert!(stream.next().is_none());
}

#[test]
fn quantity_bound_is_checked() {
    let small = vec![printing(User::Strosel, "Island", 200, "M10", 5), printing(User::Strosel, "Island", 55, "M11", 5)];
    assert!(group_quantities_fit(&small));
    let large = vec![printing(User::Strosel, "Island", 200, "M10", 5), printing(User::Strosel, "Island", 56, "M11", 5)];
    assert!(!group_quantities_fit(&large));
    let split = vec![
        printing(User::Strosel, "Island", 200, "M10", 5),
        printing(User::Amon8808, "Island", 200, "M11", 5),
    ];
    assert!(group_quantities_fit(&split));
}
