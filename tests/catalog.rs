use unity_libil2cpp::unity_version::ParseError;
use unity_libil2cpp::version_parser::{parse_unity_versions, CatalogError, DownloadableUnity};
use unity_libil2cpp::table::{group_by_major, metadata_version};

fn pairs(items: &[(&str, &str)]) -> Vec<(String, String)> {
    items.iter().map(|(a, b)| (a.to_string(), b.to_string())).collect()
}

fn names(c: &[DownloadableUnity]) -> Vec<(String, String)> {
    c.iter().map(|d| (d.inner.version(), d.changeset.clone())).collect()
}

#[test]
fn catalog_dedups_and_orders() {
    let c = parse_unity_versions(pairs(&[("2021.3.10f1", "aaa"), ("2021.3.10b1", "bbb"), ("2021.3.10f1", "ccc")])).unwrap();
    assert_eq!(c.len(), 2);
    assert_eq!(names(&c), pairs(&[("2021.3.10b1", "bbb"), ("2021.3.10f1", "aaa")]));
    assert!(c.iter().all(|d| !d.is_downloaded));
}

#[test]
fn catalog_keeps_first_changeset_of_a_version() {
    let c = parse_unity_versions(pairs(&[("2020.1.0f1", "one"), ("2020.1.0f1", "two"), ("2020.1.0f1", "three")])).unwrap();
    assert_eq!(names(&c), pairs(&[("2020.1.0f1", "one")]));
}

#[test]
fn catalog_sorts_many() {
    let c = parse_unity_versions(pairs(&[
        ("6000.0.1f1", "a"),
        ("2019.4.40f1", "b"),
        ("2019.4.40p2", "c"),
        ("2019.4.40a5", "d"),
        ("5.6.7f1", "e"),
        ("2019.4.40f2", "f"),
    ]))
    .unwrap();
    let got: Vec<String> = c.iter().map(|d| d.inner.version()).collect();
    assert_eq!(got, vec!["5.6.7f1", "2019.4.40a5", "2019.4.40p2", "2019.4.40f1", "2019.4.40f2", "6000.0.1f1"]);
}

#[test]
fn catalog_of_nothing_is_empty() {
    assert!(parse_unity_versions(Vec::new()).unwrap().is_empty());
}

#[test]
fn catalog_fails_on_first_bad_pair() {
    let r = parse_unity_versions(pairs(&[("2021.3.10f1", "a"), ("junk", "b"), ("2021.3.10c1", "c")]));
    assert_eq!(r.unwrap_err(), CatalogError::Parse(1, ParseError::Malformed));
    let r = parse_unity_versions(pairs(&[("2021.3.10f1", "a"), ("2021.3.10c1", "c"), ("junk", "b")]));
    assert_eq!(r.unwrap_err(), CatalogError::UnrankedKind(1));
    let r = parse_unity_versions(pairs(&[("2021.999.10f1", "a")]));
    assert_eq!(r.unwrap_err(), CatalogError::Parse(0, ParseError::OutOfRange));
}

#[test]
fn record_from_pair_and_marks() {
    let mut d = DownloadableUnity::from_pair("2021.3.10f1", "abc".to_string()).unwrap();
    assert!(!d.is_downloaded);
    assert_eq!(d.local_directory(), "2021/2021.3.10f1");
    d.set_downloaded(true);
    assert!(d.is_downloaded);
    assert_eq!(d.changeset, "abc");
    assert_eq!(DownloadableUnity::from_pair("2021", "x".to_string()).unwrap_err(), ParseError::Malformed);
}

#[test]
fn groups_by_major_in_order() {
    let g = group_by_major(&vec![2021, 2019, 2021, 6000, 2019]);
    assert_eq!(g, vec![(2019, vec![1, 4]), (2021, vec![0, 2]), (6000, vec![3])]);
    assert!(group_by_major(&Vec::new()).is_empty());
}

#[test]
fn metadata_version_after_marker() {
    assert_eq!(metadata_version("IL2CPP_ASSERT(version == 29);", "version == "), Some(29));
    assert_eq!(metadata_version("x version ==24 && version == 31", "version =="), None);
    assert_eq!(metadata_version("a version == 2", "version == "), None);
    assert_eq!(metadata_version("nothing here", "version == "), None);
}

#[test]
fn display_texts() {
    let d = DownloadableUnity::from_pair("2021.3.10f1", "c7638f4b3b5a".to_string()).unwrap();
    assert_eq!(d.inner.display_text(), "Unity 2021.3.10f1");
    assert_eq!(d.display_text(), "Unity 2021.3.10f1 (c7638f4b3b5a)");
}
