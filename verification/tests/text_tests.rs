use pos2d::Pos;

#[test]
fn test_pos_from_str() {
    let test_pos = Pos::new(1, 2);
    let ser = test_pos.to_display_string();

    assert_eq!(ser, "(1, 2)", "Unexpected display value");

    let de = Pos::from_str(&ser).expect("Failed to parse `ser`");

    assert_eq!(de, test_pos, "parsing `ser` returned a bad value");
}

#[test]
fn display_renders_negative_components() {
    assert_eq!(Pos::new(-1, -2).to_display_string(), "(-1, -2)");
    assert_eq!(Pos::new(0, 0).to_display_string(), "(0, 0)");
    assert_eq!(
        Pos::new(i64::MAX, i64::MIN).to_display_string(),
        "(9223372036854775807, -9223372036854775808)"
    );
}

#[test]
fn parse_round_trips_varied_values() {
    for &p in &[
        Pos::new(0, 0),
        Pos::new(-3, 40),
        Pos::new(i64::MAX, i64::MIN),
        Pos::new(-1000000, 999999),
    ] {
        let ser = p.to_display_string();
        assert_eq!(Pos::from_str(&ser).expect("round trip failed"), p);
    }
}

#[test]
fn parse_tolerates_whitespace() {
    assert_eq!(Pos::from_str("  (1, 2)  ").unwrap(), Pos::new(1, 2));
    assert_eq!(Pos::from_str("(1,2)").unwrap(), Pos::new(1, 2));
    assert_eq!(Pos::from_str("(1,     2 )").unwrap(), Pos::new(1, 2));
    assert_eq!(Pos::from_str("(+7, -8)").unwrap(), Pos::new(7, -8));
}

#[test]
fn parse_rejects_malformed_input() {
    assert!(Pos::from_str("1, 2").is_err());
    assert!(Pos::from_str("(1 2)").is_err());
    assert!(Pos::from_str("(a, 2)").is_err());
    assert!(Pos::from_str("(1, b)").is_err());
    assert!(Pos::from_str("(1, 2, 3)").is_err());
    assert!(Pos::from_str("( 1, 2)").is_err());
    assert!(Pos::from_str("()").is_err());
    assert!(Pos::from_str("").is_err());
    assert!(Pos::from_str("(, )").is_err());
}

#[test]
fn parse_respects_component_range() {
    assert_eq!(
        Pos::from_str("(9223372036854775807, -9223372036854775808)").unwrap(),
        Pos::new(i64::MAX, i64::MIN)
    );
    assert!(Pos::from_str("(9223372036854775808, 0)").is_err());
    assert!(Pos::from_str("(0, -9223372036854775809)").is_err());
}

#[test]
fn parse_error_carries_fixed_message() {
    let err = Pos::from_str("nonsense").unwrap_err();
    assert_eq!(err.message(), "Error parsing `s`; expected str of form `(T, T)`");
}
