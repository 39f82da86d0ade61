use unity_libil2cpp::diff::{plan_single_header, post_process, PostProcessError};

fn strings(a: &[&str]) -> Vec<String> {
    a.iter().map(|s| s.to_string()).collect()
}

#[test]
fn post_process_starts_at_earliest_marker() {
    let h = "# 1 x\nint a;\ntypedef uint32_t Il2CppMethodSlot;\ntypedef struct Il2CppClass Il2CppClass;\nrest\n".to_string();
    assert_eq!(post_process(h).unwrap(), "typedef uint32_t Il2CppMethodSlot;\ntypedef struct Il2CppClass Il2CppClass;\nrest\n");
    let h = "int a;\ntypedef struct Il2CppClass Il2CppClass;\ntypedef uint32_t Il2CppMethodSlot;\n".to_string();
    assert_eq!(post_process(h).unwrap(), "typedef struct Il2CppClass Il2CppClass;\ntypedef uint32_t Il2CppMethodSlot;\n");
}

#[test]
fn post_process_with_method_slot_marker_only() {
    let h = "héllo\ntypedef uint32_t Il2CppMethodSlot;\nstruct X;\n".to_string();
    assert_eq!(post_process(h).unwrap(), "typedef uint32_t Il2CppMethodSlot;\nstruct X;\n");
}

#[test]
fn post_process_without_marker_fails() {
    assert!(matches!(post_process("int a;\n".to_string()), Err(PostProcessError::MarkerNotFound)));
    assert!(matches!(post_process(String::new()), Err(PostProcessError::MarkerNotFound)));
}

#[test]
fn already_preprocessed_when_both_headers_exist() {
    assert!(matches!(plan_single_header("/r/2021/2021.3.10f1", true, true, true, true), Err(PostProcessError::AlreadyPreprocessed)));
}

#[test]
fn not_downloaded_without_tree() {
    assert!(matches!(plan_single_header("/r/x", false, false, false, false), Err(PostProcessError::NotDownloaded)));
    assert!(matches!(plan_single_header("/r/x", false, true, true, false), Err(PostProcessError::NotDownloaded)));
}

#[test]
fn plan_builds_both_runs() {
    let p = plan_single_header("/r", true, false, false, true).unwrap();
    assert_eq!(
        p.struct_args.unwrap(),
        strings(&["-P", "-D", "NET_4_0", "-I", "/r", "-include", "/r/vm/GlobalMetadataFileInternals.h", "-include", "/r/vm/MemoryInformation.h", "-include", "/r/il2cpp-object-internals.h"])
    );
    assert_eq!(p.api_args.unwrap(), strings(&["-P", "-D", "NET_4_0", "-I", "/r", "-include", "/r/il2cpp-api.h"]));
}

#[test]
fn plan_skips_existing_header() {
    let p = plan_single_header("/r", true, false, true, false).unwrap();
    assert_eq!(
        p.struct_args.unwrap(),
        strings(&["-P", "-D", "NET_4_0", "-I", "/r", "-include", "/r/vm/MemoryInformation.h", "-include", "/r/il2cpp-object-internals.h"])
    );
    assert!(p.api_args.is_none());
    let p = plan_single_header("/r", true, true, false, false).unwrap();
    assert!(p.struct_args.is_none());
    assert!(p.api_args.is_some());
}
