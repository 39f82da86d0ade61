use std::cmp::Ordering;
use unity_libil2cpp::unity_version::{ParseError, UnityVersion};

fn v(text: &str) -> UnityVersion {
    UnityVersion::parse(text).unwrap()
}

#[test]
fn parse_final_release() {
    let r = v("2021.3.10f1");
    assert_eq!(r.major, 2021);
    assert_eq!(r.minor, 3);
    assert_eq!(r.build, 10);
    assert_eq!(r.kind, 'f');
    assert_eq!(r.type_number, 1);
    assert_eq!(r.version(), "2021.3.10f1");
}

#[test]
fn canonical_text_round_trips() {
    for text in ["2021.3.10f1", "5.6.7p3", "6000.0.23b2", "2019.1.0a14", "2020.3.48c1", "2022.2.0x0"] {
        assert_eq!(v(text).version(), text);
    }
}

#[test]
fn parse_accepts_dot_before_kind_and_several_letters() {
    let r = v("2018.4.36.f1");
    assert_eq!(r, UnityVersion::new(2018, Some(4), Some(36), Some('f'), Some(1)));
    let r = v("2019.4.0ff12");
    assert_eq!(r.kind, 'f');
    assert_eq!(r.type_number, 12);
    assert_eq!(r.version(), "2019.4.0f12");
}

#[test]
fn parse_rejects_malformed_text() {
    for text in ["", "2021", "2021.3", "2021.3.10.", "2021.3.10.1", "2021.3.f1", ".3.10f1", "2021.3.10z1", "2021.3.10f1 ", "x2021.3.10f1", "2021..10f1"] {
        assert_eq!(UnityVersion::parse(text), Err(ParseError::Malformed), "{}", text);
    }
}

#[test]
fn parse_rejects_numbers_too_large() {
    assert_eq!(UnityVersion::parse("65536.1.1f1"), Err(ParseError::OutOfRange));
    assert_eq!(UnityVersion::parse("2021.256.1f1"), Err(ParseError::OutOfRange));
    assert_eq!(UnityVersion::parse("2021.1.256f1"), Err(ParseError::OutOfRange));
    assert_eq!(UnityVersion::parse("2021.1.1f256"), Err(ParseError::OutOfRange));
    assert_eq!(v("65535.255.255f255").version(), "65535.255.255f255");
    assert_eq!(v("0002021.03.010f01").version(), "2021.3.10f1");
}

#[test]
fn new_fills_defaults() {
    let r = UnityVersion::new(2022, None, None, None, None);
    assert_eq!(r.version(), "2022.0.0a0");
    let r = UnityVersion::new(2022, Some(1), Some(2), Some('b'), Some(3));
    assert_eq!(r.version(), "2022.1.2b3");
}

#[test]
fn major_decides_over_kind_and_sequence() {
    assert_eq!(v("2020.3.48f1").compare(&v("2021.1.0a1")), Some(Ordering::Less));
    assert_eq!(v("2021.1.0a1").compare(&v("2020.3.48f9")), Some(Ordering::Greater));
    assert_eq!(v("5.6.7f1").compare(&v("6000.0.0a1")), Some(Ordering::Less));
}

#[test]
fn minor_and_build_decide_before_kind() {
    assert_eq!(v("2021.2.0f1").compare(&v("2021.3.0a1")), Some(Ordering::Less));
    assert_eq!(v("2021.3.11a1").compare(&v("2021.3.10f9")), Some(Ordering::Greater));
}

#[test]
fn kind_precedence_ignores_sequence() {
    assert_eq!(v("2021.3.10b9").compare(&v("2021.3.10p1")), Some(Ordering::Less));
    assert_eq!(v("2021.3.10b9").compare(&v("2021.3.10f1")), Some(Ordering::Less));
    assert_eq!(v("2021.3.10a9").compare(&v("2021.3.10b1")), Some(Ordering::Less));
    assert_eq!(v("2021.3.10a9").compare(&v("2021.3.10p1")), Some(Ordering::Less));
    assert_eq!(v("2021.3.10p9").compare(&v("2021.3.10f1")), Some(Ordering::Less));
    assert_eq!(v("2021.3.10f1").compare(&v("2021.3.10b9")), Some(Ordering::Greater));
}

#[test]
fn sequence_decides_within_a_kind() {
    assert_eq!(v("2021.3.10f1").compare(&v("2021.3.10f2")), Some(Ordering::Less));
    assert_eq!(v("2021.3.10f2").compare(&v("2021.3.10f1")), Some(Ordering::Greater));
    assert_eq!(v("2021.3.10f2").compare(&v("2021.3.10f2")), Some(Ordering::Equal));
}

#[test]
fn unranked_kinds_are_not_ordered() {
    assert_eq!(v("2021.3.10c1").compare(&v("2021.3.10f1")), None);
    assert_eq!(v("2021.3.10f1").compare(&v("2021.3.10x1")), None);
    assert_eq!(v("2021.3.10c1").compare(&v("2021.3.10c1")), Some(Ordering::Equal));
    assert_eq!(v("2021.3.10c1").compare(&v("2022.3.10f1")), Some(Ordering::Less));
}

#[test]
fn operators_follow_release_order() {
    assert!(v("2021.3.10b9") < v("2021.3.10f1"));
    assert!(v("2021.3.10f2") > v("2021.3.10f1"));
    assert!(v("2022.1.0a1") > v("2021.3.48f1"));
    assert!(v("2021.3.10f1") <= v("2021.3.10f1"));
    assert!(!(v("2021.3.10c1") < v("2021.3.10f1")));
    assert!(!(v("2021.3.10c1") > v("2021.3.10f1")));
    assert_eq!(v("2021.3.10c1").partial_cmp(&v("2021.3.10f1")), None);
}

#[test]
fn parse_defaults_missing_kind_and_sequence() {
    assert_eq!(v("2021.3.10"), UnityVersion::new(2021, Some(3), Some(10), Some('a'), Some(0)));
    assert_eq!(v("2021.3.10").version(), "2021.3.10a0");
    assert_eq!(v("2021.3.10f"), UnityVersion::new(2021, Some(3), Some(10), Some('f'), Some(0)));
    assert_eq!(v("2021.3.10f").version(), "2021.3.10f0");
    assert_eq!(v("2021.3.10.b").version(), "2021.3.10b0");
    assert_eq!(UnityVersion::parse("2021.3.256"), Err(ParseError::OutOfRange));
}
