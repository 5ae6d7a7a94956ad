use ledger_engine::amount::Amount;

// One unit in the fixed-point scale: 10^4 raw units per whole currency unit.
const ONE: i64 = 10000;

#[test]
fn parse_whole_number() {
    let a = Amount::parse("10.0").unwrap();
    assert_eq!(a.raw, 10 * ONE);
    let b = Amount::parse("10").unwrap();
    assert_eq!(b.raw, 10 * ONE);
}

#[test]
fn parse_fractions_exactly() {
    assert_eq!(Amount::parse("1.5").unwrap().raw, 15000);
    assert_eq!(Amount::parse("2.25").unwrap().raw, 22500);
    assert_eq!(Amount::parse("-1.75").unwrap().raw, -17500);
    // Four decimal digits are exact, never rounded.
    assert_eq!(Amount::parse("0.0001").unwrap().raw, 1);
    assert_eq!(Amount::parse("10.1").unwrap().raw, 101000);
    assert_eq!(Amount::parse("0.1234").unwrap().raw, 1234);
}

#[test]
fn parse_rejects_malformed_strings() {
    assert!(Amount::parse("").is_none());
    assert!(Amount::parse("-").is_none());
    assert!(Amount::parse("abc").is_none());
    assert!(Amount::parse("1.2.3").is_none());
    assert!(Amount::parse("5.").is_none());
    assert!(Amount::parse(".5").is_none());
    assert!(Amount::parse("1e2").is_none());
    // Excess precision is an error, not rounded away.
    assert!(Amount::parse("1.00001").is_none());
}

#[test]
fn parse_rejects_out_of_range_values() {
    // i64::MAX raw units is 922337203685477.5807; one more is out of range.
    assert_eq!(Amount::parse("922337203685477.5807").unwrap().raw, i64::MAX);
    assert!(Amount::parse("922337203685477.5808").is_none());
    assert_eq!(Amount::parse("-922337203685477.5808").unwrap().raw, i64::MIN);
    assert!(Amount::parse("-922337203685477.5809").is_none());
    assert!(Amount::parse("99999999999999999999999999").is_none());
}

#[test]
fn render_whole_number() {
    assert_eq!(Amount::from_raw(10 * ONE).render(), "10");
    assert_eq!(Amount::from_raw(0).render(), "0");
}

#[test]
fn render_fractions_exactly() {
    assert_eq!(Amount::from_raw(15000).render(), "1.5");
    assert_eq!(Amount::from_raw(-22500).render(), "-2.25");
    assert_eq!(Amount::from_raw(1).render(), "0.0001");
    assert_eq!(Amount::from_raw(101000).render(), "10.1");
}

#[test]
fn parse_then_render_round_trip() {
    for text in ["3.125", "10.1", "0.0001", "-55.5", "7"] {
        let a = Amount::parse(text).unwrap();
        let rendered = a.render();
        let back = Amount::parse(&rendered).unwrap();
        assert_eq!(back, a);
    }
}

#[test]
fn zero_amount() {
    assert_eq!(Amount::zero().raw, 0);
    assert_eq!(Amount::zero(), Amount::from_raw(0));
}
