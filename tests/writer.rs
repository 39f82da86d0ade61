use unity_libil2cpp::unity_version::UnityVersion;
use unity_libil2cpp::writer::{EntryAction, LibIl2CppWriter};

fn target(a: &EntryAction) -> Option<(bool, String)> {
    match a {
        EntryAction::Skip => None,
        EntryAction::CreateDirectory(p) => Some((true, p.clone())),
        EntryAction::WriteFile(p) => Some((false, p.clone())),
    }
}

#[test]
fn output_directory_is_major_then_version() {
    let v = UnityVersion::parse("2021.3.10f1").unwrap();
    let w = LibIl2CppWriter::new(&v, vec![1, 2, 3]);
    assert_eq!(w.output_directory(), "2021/2021.3.10f1");
    assert_eq!(w.archive(), &vec![1, 2, 3]);
    assert_eq!(*w.unity_version(), v);
}

#[test]
fn output_path_strips_library_prefix() {
    let v = UnityVersion::parse("5.6.7p2").unwrap();
    let w = LibIl2CppWriter::new(&v, Vec::new());
    assert_eq!(w.format_output_directory("Editor/Data/il2cpp/libil2cpp/vm/Class.h"), "5/5.6.7p2/vm/Class.h");
    assert_eq!(w.format_output_directory("./Editor/Data/il2cpp/libil2cpp/il2cpp-api.h"), "5/5.6.7p2/./il2cpp-api.h");
    assert_eq!(w.format_output_directory("other/libil2cpp/x.h"), "5/5.6.7p2/other/libil2cpp/x.h");
}

#[test]
fn entry_outside_library_is_skipped() {
    let v = UnityVersion::parse("2021.3.10f1").unwrap();
    let w = LibIl2CppWriter::new(&v, Vec::new());
    assert!(matches!(w.plan_entry("Editor/Data/Mono/lib.h", false), EntryAction::Skip));
    assert!(matches!(w.plan_entry("Editor/Data/il2cpp/libil2cp/x.h", false), EntryAction::Skip));
    assert!(matches!(w.plan_entry("", true), EntryAction::Skip));
}

#[test]
fn entry_in_library_is_written_or_created() {
    let v = UnityVersion::parse("2021.3.10f1").unwrap();
    let w = LibIl2CppWriter::new(&v, Vec::new());
    assert_eq!(
        target(&w.plan_entry("Editor/Data/il2cpp/libil2cpp/vm/", true)),
        Some((true, "2021/2021.3.10f1/vm/".to_string()))
    );
    assert_eq!(
        target(&w.plan_entry("Editor/Data/il2cpp/libil2cpp/vm/Class.cpp", false)),
        Some((false, "2021/2021.3.10f1/vm/Class.cpp".to_string()))
    );
}

#[test]
fn planning_twice_gives_same_actions() {
    let v = UnityVersion::parse("2021.3.10f1").unwrap();
    let w = LibIl2CppWriter::new(&v, Vec::new());
    let entries = [
        ("Editor/Data/il2cpp/libil2cpp/", true),
        ("Editor/Data/il2cpp/libil2cpp/a.h", false),
        ("Editor/Data/Resources/b.txt", false),
    ];
    let first: Vec<_> = entries.iter().map(|(p, d)| target(&w.plan_entry(p, *d))).collect();
    let second: Vec<_> = entries.iter().map(|(p, d)| target(&w.plan_entry(p, *d))).collect();
    assert_eq!(first, second);
    assert_eq!(first[2], None);
}
