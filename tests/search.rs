use archidekt::search::{select, text_matches, type_terms, type_terms_match, wantlist_matches};
use archidekt::{ColorIdent, Entry, Search, User};

fn card(owner: User, name: &str, ty: &str, set: &str, color: [bool; 5]) -> Entry {
    Entry {
        owner,
        quantity: 1,
        color_identity: ColorIdent::from_flags(color),
        name: name.to_string(),
        ty: ty.to_string(),
        set: set.to_string(),
        scryfall: "0000".to_string(),
        price: 100,
    }
}

fn faceted(
    owner: Option<User>,
    color: [bool; 5],
    colorless: bool,
    name: &str,
    ty: &str,
    set: &str,
) -> Search {
    Search::Single {
        owner,
        color: ColorIdent::from_flags(color),
        colorless,
        name: name.to_string(),
        ty: ty.to_string(),
        set: set.to_string(),
    }
}

fn sample() -> Vec<Entry> {
    vec![
        card(User::Strosel, "Lightning Bolt", "Instant", "M10", [false, false, false, true, false]),
        card(User::Amon8808, "Sol Ring", "Artifact", "C21", [false; 5]),
        card(User::VikinGG, "Atraxa, Praetors' Voice", "Legendary,Creature", "C16", [true, true, true, false, true]),
        card(User::OliverDizz, "Counterspell", "Instant", "MH2", [false, true, false, false, false]),
    ]
}

#[test]
fn blank_single_matches_every_record() {
    let search = Search::single();
    for e in sample() {
        assert!(search.apply(&e));
    }
}

#[test]
fn colorless_matches_only_empty_identity() {
    let search = faceted(None, [false; 5], true, "", "", "");
    let picked: Vec<bool> = sample().iter().map(|e| search.apply(e)).collect();
    assert_eq!(picked, vec![false, true, false, false]);
}

#[test]
fn color_facet_requires_containment() {
    let search = faceted(None, [false, true, false, true, false], false, "", "", "");
    let picked: Vec<bool> = sample().iter().map(|e| search.apply(e)).collect();
    assert_eq!(picked, vec![true, true, false, true]);
}

#[test]
fn type_terms_tokenize() {
    assert_eq!(type_terms("Legendary  Creature!!"), vec!["legendary".to_string(), "creature".to_string()]);
    assert_eq!(type_terms(""), Vec::<String>::new());
    assert_eq!(type_terms("--"), Vec::<String>::new());
    assert_eq!(type_terms("ArTi3fact"), vec!["arti".to_string(), "fact".to_string()]);
}

#[test]
fn type_facet_matches_segments() {
    let wizard = card(User::Strosel, "Jace", "Legendary,Creature — Human Wizard", "ORI", [false; 5]);
    let search = faceted(None, [false; 5], false, "", "Legendary  Creature!!", "");
    assert!(search.apply(&wizard));
    assert!(type_terms_match("Legendary  Creature!!", "legendary,creature — human wizard"));
    assert!(type_terms_match("Legendary Creature", "legendary creature"));
    assert!(!type_terms_match("Legendary Instant", "legendary,creature"));
    assert!(type_terms_match("gend", "legendary,creature"));
    assert!(!type_terms_match("instant", "legendary,creature"));
    assert!(type_terms_match("", "anything"));
    let instant = faceted(None, [false; 5], false, "", "instant", "");
    assert!(!instant.apply(&wizard));
}

#[test]
fn name_and_set_facets_ignore_case() {
    let bolt = card(User::Strosel, "Lightning Bolt", "Instant", "M10", [false; 5]);
    assert!(faceted(None, [false; 5], false, "BOLT", "", "").apply(&bolt));
    assert!(faceted(None, [false; 5], false, "", "", "m1").apply(&bolt));
    assert!(!faceted(None, [false; 5], false, "shock", "", "").apply(&bolt));
    assert!(!faceted(None, [false; 5], false, "", "", "m11").apply(&bolt));
    assert!(text_matches("BOLT", "Lightning Bolt"));
    assert!(text_matches("", "x"));
    assert!(!text_matches("Bolts", "Lightning Bolt"));
}

#[test]
fn owner_facet_is_exact() {
    let bolt = card(User::Strosel, "Lightning Bolt", "Instant", "M10", [false; 5]);
    assert!(faceted(Some(User::Strosel), [false; 5], false, "", "", "").apply(&bolt));
    assert!(!faceted(Some(User::VikinGG), [false; 5], false, "", "", "").apply(&bolt));
}

#[test]
fn wantlist_matches_lines() {
    let list = Search::Wantlist("Lightning Bolt\nCounterspell".to_string(), None);
    let foil = card(User::Strosel, "Lightning Bolt (Foil)", "Instant", "M10", [false; 5]);
    let shock = card(User::Strosel, "Shock", "Instant", "M19", [false; 5]);
    assert!(list.apply(&foil));
    assert!(!list.apply(&shock));
    let owned = Search::Wantlist("Lightning Bolt\nCounterspell".to_string(), Some(User::Amon8808));
    assert!(!owned.apply(&foil));
}

#[test]
fn wantlist_ignores_empty_lines() {
    assert!(!wantlist_matches("", "shock"));
    assert!(!wantlist_matches("\n\n", "shock"));
    assert!(!wantlist_matches("bolt\n\r\n", "shock"));
    assert!(wantlist_matches("bolt\r\nshock\r\n", "shock"));
    assert!(!Search::wantlist().apply(&card(User::Strosel, "Shock", "Instant", "M19", [false; 5])));
}

#[test]
fn searches_equal_by_shape() {
    assert!(Search::single() == faceted(Some(User::Strosel), [true; 5], true, "a", "b", "c"));
    assert!(Search::wantlist() == Search::Wantlist("x".to_string(), Some(User::VikinGG)));
    assert!(Search::single() != Search::wantlist());
}

#[test]
fn select_keeps_order() {
    let data = sample();
    let search = faceted(None, [false; 5], false, "", "instant", "");
    let picked = select(&data, &search);
    let names: Vec<&str> = picked.iter().map(|e| e.name.as_str()).collect();
    assert_eq!(names, vec!["Lightning Bolt", "Counterspell"]);
}
