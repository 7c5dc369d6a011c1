use archidekt::entry::{decimal_string, price_string, type_line};
use archidekt::{Card, ColorIdent, ColorParseError, Entry, RawRow, User};

fn row(identities: &str, supertypes: &str) -> RawRow {
    RawRow {
        quantity: 3,
        identities: identities.to_string(),
        name: "Atraxa".to_string(),
        supertypes: supertypes.to_string(),
        types: "Creature".to_string(),
        set: "C16".to_string(),
        scryfall: "d0d2".to_string(),
        price: 1205,
    }
}

#[test]
fn user_ids_and_names() {
    assert_eq!(User::Strosel.id(), 331139);
    assert_eq!(User::OliverDizz.id(), 603907);
    assert_eq!(User::TheColdPanda.name(), "TheColdPanda");
    let all = User::variants();
    assert_eq!(all.len(), 7);
    assert_eq!(all[0], User::Strosel);
    assert_eq!(all[6], User::OliverDizz);
}

#[test]
fn numbers_as_text() {
    assert_eq!(decimal_string(0), "0");
    assert_eq!(decimal_string(255), "255");
    assert_eq!(price_string(100), "1.00€");
    assert_eq!(price_string(-100), "-1.00€");
    assert_eq!(price_string(1205), "12.05€");
    assert_eq!(price_string(7), "0.07€");
    assert_eq!(price_string(-50), "-0.50€");
}

#[test]
fn type_lines_join_with_comma() {
    assert_eq!(type_line("Legendary", "Creature"), "Legendary,Creature");
    assert_eq!(type_line("", "Instant"), "Instant");
}

#[test]
fn rows_become_records() {
    let e = Entry::from_row(User::VikinGG, row("W,U,B,G", "Legendary")).unwrap();
    assert_eq!(e.owner, User::VikinGG);
    assert_eq!(e.quantity, 3);
    assert_eq!(e.color_identity, ColorIdent::from_flags([true, true, true, false, true]));
    assert_eq!(e.ty, "Legendary,Creature");
    assert_eq!(e.price, 1205);
    let plain = Entry::from_row(User::VikinGG, row("", "")).unwrap();
    assert_eq!(plain.ty, "Creature");
    assert!(plain.color_identity.is_empty());
}

#[test]
fn rows_with_bad_identity_fail() {
    assert_eq!(
        Entry::from_row(User::VikinGG, row("W,Purple", "")).err(),
        Some(ColorParseError { position: 2, found: 'P' })
    );
}

#[test]
fn headers_and_values() {
    assert_eq!(Entry::headers(), vec!["Owner", "X", "Color Id", "Name", "Type", "Set", "Scryfall", "Price"]);
    let e = Entry::from_row(User::VikinGG, row("GW", "Legendary")).unwrap();
    let values = e.values();
    let expected = vec![
        ("Owner", "VikinGG".to_string()),
        ("X", "3".to_string()),
        ("Color Id", "WG".to_string()),
        ("Name", "Atraxa".to_string()),
        ("Type", "Legendary,Creature".to_string()),
        ("Set", "C16".to_string()),
        ("Scryfall", "d0d2".to_string()),
        ("Price", "12.05€".to_string()),
    ];
    assert_eq!(values, expected);
}

#[test]
fn oracle_type_stops_at_dash() {
    let id = ColorIdent::parse("U").unwrap();
    let card = Card::from_oracle("Legendary Creature — Human Wizard", id);
    assert_eq!(card.ty, "Legendary Creature ");
    assert_eq!(card.color_identity, id);
    assert_eq!(Card::from_oracle("Instant", id).ty, "Instant");
}
