//! The addresses that releases are looked up and downloaded at, and what is
//! read out of the replies.

use vstd::prelude::*;
use vstd::utf8::encode_utf8;
use vstd::string::StringSliceAdditionalSpecFns;
use crate::diff::{bytes_contain, find_bytes};
use crate::text::{occurs_at, occurs_at_exec};
use crate::unity_version::{version_text, UnityVersion};
use crate::text::{decimal_text, push_decimal};
use crate::version_parser::DownloadableUnity;

verus! {

broadcast use vstd::string::group_string_axioms;

/// A release page lists a Linux download where its body holds this text.
pub const LINUX_DOWNLOAD_PATTERN: &'static str = "<span class=\"truncate\">Linux</span>";

/// The address of the Linux editor archive of a release.
pub open spec fn download_url_text(changeset: Seq<char>, v: UnityVersion) -> Seq<char> {
    "https://download.unity3d.com/download_unity/"@ + changeset + "/LinuxEditorInstaller/Unity-"@
        + version_text(v) + ".tar.xz"@
}

/// The address of the release page that tells whether a Linux build exists,
/// for the ranked kinds.
pub open spec fn availability_url_text(v: UnityVersion) -> Option<Seq<char>> {
    if v.kind == 'a' {
        Some("https://unity.com/en/releases/editor/alpha/"@ + version_text(v))
    } else if v.kind == 'b' {
        Some("https://unity.com/en/releases/editor/beta/"@ + version_text(v))
    } else if v.kind == 'f' || v.kind == 'p' {
        Some(
            "https://unity.com/en/releases/editor/whats-new/"@ + decimal_text(v.major as nat)
                + "."@ + decimal_text(v.minor as nat) + "."@ + decimal_text(v.build as nat),
        )
    } else {
        None
    }
}

/// The address of the Linux editor archive of `record`.
pub fn download_url(record: &DownloadableUnity) -> (r: String)
    ensures
        r@ == download_url_text(record.changeset@, record.inner),
{
    let mut s = "https://download.unity3d.com/download_unity/".to_owned();
    s.append(record.changeset.as_str());
    s.append("/LinuxEditorInstaller/Unity-");
    let t = record.inner.version();
    s.append(t.as_str());
    s.append(".tar.xz");
    s
}

/// The address of the release page of `v`; `None` for a kind other than
/// alpha, beta, patch and final.
pub fn availability_url(v: &UnityVersion) -> (r: Option<String>)
    ensures
        r matches Some(u) ==> availability_url_text(*v) == Some(u@),
        r is None ==> availability_url_text(*v) is None,
{
    if v.kind == 'a' {
        let mut s = "https://unity.com/en/releases/editor/alpha/".to_owned();
        let t = v.version();
        s.append(t.as_str());
        Some(s)
    } else if v.kind == 'b' {
        let mut s = "https://unity.com/en/releases/editor/beta/".to_owned();
        let t = v.version();
        s.append(t.as_str());
        Some(s)
    } else if v.kind == 'f' || v.kind == 'p' {
        let mut s = "https://unity.com/en/releases/editor/whats-new/".to_owned();
        push_decimal(&mut s, v.major as u32);
        s.append(".");
        push_decimal(&mut s, v.minor as u32);
        s.append(".");
        push_decimal(&mut s, v.build as u32);
        Some(s)
    } else {
        None
    }
}

/// Whether a release page lists a Linux download.
pub fn is_listed_for_linux(body: &str) -> (r: bool)
    ensures
        r == bytes_contain(encode_utf8(body@), LINUX_DOWNLOAD_PATTERN.spec_bytes()),
{
    find_bytes(body, LINUX_DOWNLOAD_PATTERN).is_some()
}

/// `i` is the first index where `m` occurs in `s`.
pub open spec fn is_first_at(s: Seq<char>, m: Seq<char>, i: int) -> bool {
    occurs_at(s, m, i) && forall|j: int| 0 <= j < i ==> !occurs_at(s, m, j)
}

/// The first index where `m` occurs in `s` at or after `from`.
fn find_from(s: &str, m: &str, from: usize) -> (r: Option<usize>)
    requires
        from <= s@.len(),
    ensures
        r matches Some(i) ==> from <= i && occurs_at(s@, m@, i as int) && forall|j: int|
            from <= j < i ==> !occurs_at(s@, m@, j),
        r is None ==> forall|j: int| from <= j ==> !occurs_at(s@, m@, j),
{
    let n = s.unicode_len();
    let mut i = from;
    while i < n
        invariant
            n == s@.len(),
            from <= i <= n,
            forall|j: int| from <= j < i ==> !occurs_at(s@, m@, j),
        decreases n - i,
    {
        if occurs_at_exec(s, m, i) {
            return Some(i);
        }
        i = i + 1;
    }
    if occurs_at_exec(s, m, n) {
        return Some(n);
    }
    None
}

/// The separator that stands before a changeset in a deep link:
/// `://VERSION/`.
pub open spec fn link_separator(version: Seq<char>) -> Seq<char> {
    "://"@ + version + "/"@
}

/// What `link.split(separator).nth(1)` gives: the text after the first
/// occurrence of the separator, up to the next occurrence or the end.
pub open spec fn second_piece(link: Seq<char>, sep: Seq<char>, r: Option<Seq<char>>) -> bool {
    match r {
        None => forall|i: int| !occurs_at(link, sep, i),
        Some(t) => exists|i: int|
            #![trigger occurs_at(link, sep, i)]
            0 <= i && occurs_at(link, sep, i) && (forall|j: int| 0 <= j < i ==> !occurs_at(link, sep, j))
                && {
                let start = i + sep.len();
                ||| (exists|e: int|
                    #![trigger occurs_at(link, sep, e)]
                    start <= e && occurs_at(link, sep, e) && (forall|j: int|
                        start <= j < e ==> !occurs_at(link, sep, j)) && t == link.subrange(start, e))
                ||| ((forall|j: int| start <= j ==> !occurs_at(link, sep, j)) && t == link.subrange(
                    start,
                    link.len() as int,
                ))
            },
    }
}

/// The changeset in a Unity Hub deep link such as
/// `unityhub://2021.3.10f1/c7638f4b3b5a`: the text after `://VERSION/`, up
/// to the next such separator.
pub fn changeset_from_link(version: &str, link: &str) -> (r: Option<String>)
    ensures
        second_piece(link@, link_separator(version@), match r {
            Some(t) => Some(t@),
            None => None,
        }),
{
    let mut sep = "://".to_owned();
    sep.append(version);
    sep.append("/");
    let sep = sep.as_str();
    let n = link.unicode_len();
    match find_from(link, sep, 0) {
        None => None,
        Some(i) => {
            let start = i + sep.unicode_len();
            assert(occurs_at(link@, sep@, i as int));
            match find_from(link, sep, start) {
                Some(e) => {
                    let t = link.substring_char(start, e);
                    assert(occurs_at(link@, sep@, e as int));
                    Some(t.to_owned())
                },
                None => {
                    let t = link.substring_char(start, n);
                    Some(t.to_owned())
                },
            }
        },
    }
}

} // verus!
