//! Single-header synthesis: which preprocessor runs a release tree needs, with
//! which arguments, and how their output is trimmed to the header proper.

use vstd::prelude::*;
use vstd::utf8::{encode_utf8, is_char_boundary};
use vstd::string::StringSliceAdditionalSpecFns;

verus! {

broadcast use vstd::string::group_string_axioms;

/// Why single headers could not be produced for a release.
#[derive(Debug, PartialEq, Eq, Structural, Clone, Copy)]
pub enum PostProcessError {
    /// The release tree is not there.
    NotDownloaded,
    /// Both `struct.h` and `api.h` exist already; nothing is redone.
    AlreadyPreprocessed,
    /// The preprocessor could not be started or failed.
    InvocationFailed,
    /// The preprocessor's output is not UTF-8 text.
    NonUtf8Output,
    /// The output holds neither start marker.
    MarkerNotFound,
}

/// The line that a struct or API header starts at, where present.
pub const CLASS_MARKER: &'static str = "typedef struct Il2CppClass Il2CppClass;";

/// The line that a header starts at where the first marker is absent.
pub const METHOD_SLOT_MARKER: &'static str = "typedef uint32_t Il2CppMethodSlot;";

/// `m` occurs in the bytes `b` at index `i`, which is a character boundary.
pub open spec fn bytes_occur_at(b: Seq<u8>, m: Seq<u8>, i: int) -> bool {
    0 <= i && i + m.len() <= b.len() && b.subrange(i, i + m.len()) == m && is_char_boundary(b, i)
}

/// `i` is the first index where `m` occurs in `b`.
pub open spec fn is_first_occurrence(b: Seq<u8>, m: Seq<u8>, i: int) -> bool {
    bytes_occur_at(b, m, i) && forall|j: int| 0 <= j < i ==> !bytes_occur_at(b, m, j)
}

/// `m` occurs somewhere in `b`.
pub open spec fn bytes_contain(b: Seq<u8>, m: Seq<u8>) -> bool {
    exists|i: int| bytes_occur_at(b, m, i)
}

fn bytes_occur_at_exec(s: &str, b: &[u8], m: &[u8], i: usize) -> (r: bool)
    requires
        b@ == s.spec_bytes(),
        i <= b@.len(),
    ensures
        r == bytes_occur_at(b@, m@, i as int),
{
    let n = b.len();
    let k = m.len();
    if k > n - i {
        return false;
    }
    let mut j: usize = 0;
    while j < k
        invariant
            n == b@.len(),
            k == m@.len(),
            i + k <= n,
            j <= k,
            forall|t: int| 0 <= t < j ==> b@[i + t] == m@[t],
        decreases k - j,
    {
        if b[i + j] != m[j] {
            assert(b@.subrange(i as int, i + k)[j as int] != m@[j as int]);
            return false;
        }
        j = j + 1;
    }
    assert(b@.subrange(i as int, i + k) =~= m@);
    s.is_char_boundary(i)
}

/// The first index where `m` occurs in the bytes of `s`, if any.
pub(crate) fn find_bytes(s: &str, m: &str) -> (r: Option<usize>)
    ensures
        r matches Some(i) ==> is_first_occurrence(s.spec_bytes(), m.spec_bytes(), i as int),
        r is None ==> !bytes_contain(s.spec_bytes(), m.spec_bytes()),
{
    let b = s.as_bytes();
    let mb = m.as_bytes();
    let n = b.len();
    let mut i: usize = 0;
    while i < n
        invariant
            n == b@.len(),
            b@ == s.spec_bytes(),
            mb@ == m.spec_bytes(),
            i <= n,
            forall|t: int| 0 <= t < i ==> !bytes_occur_at(b@, mb@, t),
        decreases n - i,
    {
        if bytes_occur_at_exec(s, b, mb, i) {
            return Some(i);
        }
        i = i + 1;
    }
    if bytes_occur_at_exec(s, b, mb, n) {
        return Some(n);
    }
    assert forall|t: int| !bytes_occur_at(b@, mb@, t) by {
        if 0 <= t && t < i {
        }
    }
    None
}

/// Either marker occurs in `h` at index `i`.
pub open spec fn marker_at(h: Seq<u8>, i: int) -> bool {
    bytes_occur_at(h, CLASS_MARKER.spec_bytes(), i) || bytes_occur_at(
        h,
        METHOD_SLOT_MARKER.spec_bytes(),
        i,
    )
}

/// `i` is the least index at which either marker occurs in `h`.
pub open spec fn is_first_marker(h: Seq<u8>, i: int) -> bool {
    marker_at(h, i) && forall|j: int| 0 <= j < i ==> !marker_at(h, j)
}

/// Where trimming preprocessor output `h` (as bytes) starts: the least index
/// at which either marker occurs.
pub open spec fn trimmed_start(h: Seq<u8>) -> Option<int> {
    if exists|i: int| marker_at(h, i) {
        Some(choose|i: int| is_first_marker(h, i))
    } else {
        None
    }
}

proof fn lemma_first_marker_unique(h: Seq<u8>, i: int, j: int)
    requires
        is_first_marker(h, i),
        is_first_marker(h, j),
    ensures
        i == j,
{
}

/// Trims preprocessor output to the header proper: everything before the
/// first occurrence of either marker line goes.
pub fn post_process(header: String) -> (r: Result<String, PostProcessError>)
    ensures
        trimmed_start(encode_utf8(header@)) matches Some(i) ==> r matches Ok(t) && encode_utf8(t@)
            == encode_utf8(header@).subrange(i, encode_utf8(header@).len() as int),
        trimmed_start(encode_utf8(header@)) is None ==> r == Err::<String, PostProcessError>(
            PostProcessError::MarkerNotFound,
        ),
{
    let h = header.as_str();
    let ghost b = h.spec_bytes();
    let class_at = find_bytes(h, CLASS_MARKER);
    let slot_at = find_bytes(h, METHOD_SLOT_MARKER);
    let start = match (class_at, slot_at) {
        (Some(c), Some(m)) => if c <= m {
            c
        } else {
            m
        },
        (Some(c), None) => c,
        (None, Some(m)) => m,
        (None, None) => {
            assert forall|i: int| !marker_at(b, i) by {
                if bytes_occur_at(b, CLASS_MARKER.spec_bytes(), i) {
                    assert(bytes_contain(b, CLASS_MARKER.spec_bytes()));
                }
                if bytes_occur_at(b, METHOD_SLOT_MARKER.spec_bytes(), i) {
                    assert(bytes_contain(b, METHOD_SLOT_MARKER.spec_bytes()));
                }
            }
            return Err(PostProcessError::MarkerNotFound);
        },
    };
    proof {
        assert forall|j: int| 0 <= j < start implies !marker_at(b, j) by {
            if bytes_occur_at(b, CLASS_MARKER.spec_bytes(), j) {
                assert(bytes_contain(b, CLASS_MARKER.spec_bytes()));
            }
            if bytes_occur_at(b, METHOD_SLOT_MARKER.spec_bytes(), j) {
                assert(bytes_contain(b, METHOD_SLOT_MARKER.spec_bytes()));
            }
        }
        assert(is_first_marker(b, start as int));
        let j = choose|j: int| is_first_marker(b, j);
        lemma_first_marker_unique(b, start as int, j);
    }
    let (_, rest) = h.split_at(start);
    Ok(rest.to_owned())
}

/// The preprocessor runs that a release tree still needs: the arguments for
/// the struct header and for the API header, each absent where that header
/// exists already.
#[derive(Debug, Clone)]
pub struct HeaderPlan {
    pub struct_args: Option<Vec<String>>,
    pub api_args: Option<Vec<String>>,
}

/// The views of a list of arguments.
pub open spec fn arg_texts(a: Seq<String>) -> Seq<Seq<char>> {
    a.map_values(|x: String| x@)
}

/// The flags that every preprocessor run starts with, the include root last.
pub open spec fn base_args(root: Seq<char>) -> Seq<Seq<char>> {
    seq!["-P"@, "-D"@, "NET_4_0"@, "-I"@, root]
}

/// Arguments of the struct header run: the metadata file internals where the
/// tree has them, then the memory information and the object internals.
pub open spec fn struct_args(root: Seq<char>, has_global_metadata: bool) -> Seq<Seq<char>> {
    base_args(root) + (if has_global_metadata {
        seq!["-include"@, root + "/vm/GlobalMetadataFileInternals.h"@]
    } else {
        Seq::empty()
    }) + seq![
        "-include"@,
        root + "/vm/MemoryInformation.h"@,
        "-include"@,
        root + "/il2cpp-object-internals.h"@,
    ]
}

/// Arguments of the API header run.
pub open spec fn api_args(root: Seq<char>) -> Seq<Seq<char>> {
    base_args(root) + seq!["-include"@, root + "/il2cpp-api.h"@]
}

fn text(s: &str) -> (r: String)
    ensures
        r@ == s@,
{
    s.to_owned()
}

fn joined(root: &str, rest: &str) -> (r: String)
    ensures
        r@ == root@ + rest@,
{
    let mut s = text(root);
    s.append(rest);
    s
}

fn base_args_exec(root: &str) -> (r: Vec<String>)
    ensures
        arg_texts(r@) == base_args(root@),
{
    let mut v: Vec<String> = Vec::new();
    v.push(text("-P"));
    v.push(text("-D"));
    v.push(text("NET_4_0"));
    v.push(text("-I"));
    v.push(text(root));
    assert(arg_texts(v@) =~= base_args(root@));
    v
}

/// Decides which single headers of the release tree at `root` must be made,
/// and with which preprocessor arguments, from what exists on disk: the tree
/// itself, `struct.h`, `api.h`, and `vm/GlobalMetadataFileInternals.h`.
pub fn plan_single_header(
    root: &str,
    root_exists: bool,
    struct_exists: bool,
    api_exists: bool,
    has_global_metadata: bool,
) -> (r: Result<HeaderPlan, PostProcessError>)
    ensures
        !root_exists ==> r == Err::<HeaderPlan, PostProcessError>(PostProcessError::NotDownloaded),
        root_exists && struct_exists && api_exists ==> r == Err::<HeaderPlan, PostProcessError>(
            PostProcessError::AlreadyPreprocessed,
        ),
        root_exists && !(struct_exists && api_exists) ==> r is Ok,
        r matches Ok(p) ==> {
            &&& (p.struct_args is Some <==> !struct_exists)
            &&& (p.api_args is Some <==> !api_exists)
            &&& (p.struct_args matches Some(a) ==> arg_texts(a@) == struct_args(
                root@,
                has_global_metadata,
            ))
            &&& (p.api_args matches Some(a) ==> arg_texts(a@) == api_args(root@))
        },
{
    if !root_exists {
        return Err(PostProcessError::NotDownloaded);
    }
    if struct_exists && api_exists {
        return Err(PostProcessError::AlreadyPreprocessed);
    }
    let struct_run = if !struct_exists {
        let mut v = base_args_exec(root);
        if has_global_metadata {
            v.push(text("-include"));
            v.push(joined(root, "/vm/GlobalMetadataFileInternals.h"));
        }
        v.push(text("-include"));
        v.push(joined(root, "/vm/MemoryInformation.h"));
        v.push(text("-include"));
        v.push(joined(root, "/il2cpp-object-internals.h"));
        assert(arg_texts(v@) =~= struct_args(root@, has_global_metadata));
        Some(v)
    } else {
        None
    };
    let api_run = if !api_exists {
        let mut v = base_args_exec(root);
        v.push(text("-include"));
        v.push(joined(root, "/il2cpp-api.h"));
        assert(arg_texts(v@) =~= api_args(root@));
        Some(v)
    } else {
        None
    };
    Ok(HeaderPlan { struct_args: struct_run, api_args: api_run })
}

} // verus!
