use gxr::latency::Latency;

#[test]
fn latency_is_a_decimal_numeral_not_below_zero() {
    for s in ["0", "15", "1.23", ".5", "5.", "007", "0.0", "-0", "-0.0", "-.0", "-0."] {
        let got = Latency::parse(s);
        assert!(got.is_some());
        assert_eq!(got.unwrap().as_str(), s);
    }
    for s in ["", "-", ".", "-.", "-1", "-0.001", "1.2.3", "1-2", "--1", "1-", "1e5", "+1", " 1", "abc", "-1.", "1..", "..1"] {
        assert!(Latency::parse(s).is_none());
    }
}

#[test]
fn latency_agrees_with_the_floating_point_parser() {
    for s in ["0", "15", "1.23", ".5", "5.", "-0", "-0.0", "", "-", ".", "-.", "-1", "-0.5", "1.2.3", "1-2", "--1", "1-", "9999999999999999999999999", "0.000000000000000000000001", "-.", "3.-", "-3."] {
        let expected = s.parse::<f64>().ok().filter(|t| *t >= 0.0).is_some();
        assert_eq!(Latency::parse(s).is_some(), expected);
    }
}

#[test]
fn latency_clone_keeps_the_numeral() {
    let l = Latency::parse("10.5").unwrap();
    assert_eq!(l.clone().as_str(), "10.5");
}
