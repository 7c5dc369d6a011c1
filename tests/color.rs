use archidekt::{ColorIdent, ColorParseError};

fn ident(flags: [bool; 5]) -> ColorIdent {
    ColorIdent::from_flags(flags)
}

#[test]
fn contains_is_reflexive() {
    for bits in 0u32..32 {
        let flags = [bits & 1 != 0, bits & 2 != 0, bits & 4 != 0, bits & 8 != 0, bits & 16 != 0];
        let id = ident(flags);
        assert!(id.contains(&id));
    }
}

#[test]
fn contains_empty_candidate() {
    for bits in 0u32..32 {
        let flags = [bits & 1 != 0, bits & 2 != 0, bits & 4 != 0, bits & 8 != 0, bits & 16 != 0];
        assert!(ident(flags).contains(&ColorIdent::new()));
    }
}

#[test]
fn contains_rejects_missing_pigment() {
    let rg = ident([false, false, false, true, true]);
    let r = ident([false, false, false, true, false]);
    let ur = ident([false, true, false, true, false]);
    assert!(rg.contains(&r));
    assert!(!r.contains(&rg));
    assert!(!rg.contains(&ur));
    assert!(!ColorIdent::new().contains(&r));
    assert!(ident([true; 5]).contains(&ur));
}

#[test]
fn render_is_canonical() {
    assert_eq!(ident([false, false, false, true, true]).render(), "RG");
    assert_eq!(ident([true, true, true, true, true]).render(), "WUBRG");
    assert_eq!(ident([false, true, true, false, false]).render(), "UB");
    assert_eq!(ColorIdent::new().render(), "");
}

#[test]
fn parse_render_round_trip() {
    for bits in 0u32..32 {
        let flags = [bits & 1 != 0, bits & 2 != 0, bits & 4 != 0, bits & 8 != 0, bits & 16 != 0];
        let id = ident(flags);
        assert_eq!(ColorIdent::parse(&id.render()), Ok(id));
    }
}

#[test]
fn parse_ignores_order_and_notation() {
    let rg = ident([false, false, false, true, true]);
    assert_eq!(ColorIdent::parse("RG"), Ok(rg));
    assert_eq!(ColorIdent::parse("GR"), Ok(rg));
    assert_eq!(ColorIdent::parse("Green,Red"), Ok(rg));
    assert_eq!(ColorIdent::parse("RG"), ColorIdent::parse("GR"));
    assert_eq!(ColorIdent::parse("GR"), ColorIdent::parse("Green,Red"));
}

#[test]
fn parse_rejects_unknown_token() {
    assert_eq!(ColorIdent::parse("X"), Err(ColorParseError { position: 0, found: 'X' }));
    assert_eq!(ColorIdent::parse("RX"), Err(ColorParseError { position: 1, found: 'X' }));
    assert_eq!(ColorIdent::parse("R,,G"), Err(ColorParseError { position: 2, found: ',' }));
    assert_eq!(ColorIdent::parse(",R"), Err(ColorParseError { position: 0, found: ',' }));
    assert_eq!(ColorIdent::parse("Green, Red"), Err(ColorParseError { position: 6, found: ' ' }));
}

#[test]
fn parse_rejects_sixth_token() {
    assert_eq!(ColorIdent::parse("WUBRG"), Ok(ident([true; 5])));
    assert_eq!(ColorIdent::parse("WUBRGW"), Err(ColorParseError { position: 5, found: 'W' }));
    assert_eq!(ColorIdent::parse("R,R,R,R,R,R"), Err(ColorParseError { position: 10, found: 'R' }));
}

#[test]
fn parse_accepts_names_letters_and_case() {
    assert_eq!(ColorIdent::parse(""), Ok(ColorIdent::new()));
    assert_eq!(ColorIdent::parse("black"), Ok(ident([false, false, true, false, false])));
    assert_eq!(ColorIdent::parse("BLUE"), Ok(ident([false, true, false, false, false])));
    assert_eq!(ColorIdent::parse("Bu"), Ok(ident([false, true, true, false, false])));
    assert_eq!(ColorIdent::parse("white,Blue,b"), Ok(ident([true, true, true, false, false])));
    assert_eq!(ColorIdent::parse("RR"), Ok(ident([false, false, false, true, false])));
    assert_eq!(ColorIdent::parse("g,"), Ok(ident([false, false, false, false, true])));
    assert_eq!(ColorIdent::parse("redGREEN"), Ok(ident([false, false, false, true, true])));
}

#[test]
fn flags_can_be_read_and_set() {
    let mut id = ColorIdent::new();
    assert!(id.is_empty());
    id.set(2, true);
    assert!(id.get(2));
    assert!(!id.get(0));
    assert!(!id.is_empty());
    assert_eq!(id.render(), "B");
    assert_eq!(ColorIdent::default(), ColorIdent::new());
}
