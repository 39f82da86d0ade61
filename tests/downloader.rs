use unity_libil2cpp::downloader::{availability_url, changeset_from_link, download_url, is_listed_for_linux};
use unity_libil2cpp::unity_version::UnityVersion;
use unity_libil2cpp::version_parser::DownloadableUnity;

#[test]
fn download_url_names_changeset_and_version() {
    let d = DownloadableUnity::from_pair("2021.3.10f1", "c7638f4b3b5a".to_string()).unwrap();
    assert_eq!(
        download_url(&d),
        "https://download.unity3d.com/download_unity/c7638f4b3b5a/LinuxEditorInstaller/Unity-2021.3.10f1.tar.xz"
    );
}

#[test]
fn availability_url_by_kind() {
    let u = |t: &str| availability_url(&UnityVersion::parse(t).unwrap());
    assert_eq!(u("2023.1.0a5").unwrap(), "https://unity.com/en/releases/editor/alpha/2023.1.0a5");
    assert_eq!(u("2023.1.0b5").unwrap(), "https://unity.com/en/releases/editor/beta/2023.1.0b5");
    assert_eq!(u("2021.3.10f1").unwrap(), "https://unity.com/en/releases/editor/whats-new/2021.3.10");
    assert_eq!(u("2021.3.10p2").unwrap(), "https://unity.com/en/releases/editor/whats-new/2021.3.10");
    assert_eq!(u("2021.3.10c1"), None);
}

#[test]
fn linux_listing_is_found_in_body() {
    assert!(is_listed_for_linux("<div><span class=\"truncate\">Linux</span></div>"));
    assert!(!is_listed_for_linux("<div><span class=\"truncate\">Windows</span></div>"));
    assert!(!is_listed_for_linux(""));
}

#[test]
fn changeset_is_read_from_deep_link() {
    assert_eq!(changeset_from_link("2021.3.10f1", "unityhub://2021.3.10f1/c7638f4b3b5a").unwrap(), "c7638f4b3b5a");
    assert_eq!(changeset_from_link("1.2.3f1", "unityhub://1.2.3f1/abc://1.2.3f1/def").unwrap(), "abc");
    assert_eq!(changeset_from_link("1.2.3f1", "unityhub://1.2.3f1/").unwrap(), "");
    assert_eq!(changeset_from_link("1.2.3f1", "unityhub://1.2.4f1/abc"), None);
}
