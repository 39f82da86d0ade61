//! Where the entries of a release archive go: only the `libil2cpp` subtree is
//! kept, with its archive prefix taken off, under `MAJOR/VERSION/`.

use vstd::prelude::*;
use crate::text::{contains, contains_exec, decimal_text, push_decimal, remove_all, remove_all_exec};
use crate::unity_version::{version_text, UnityVersion};

verus! {

broadcast use vstd::string::group_string_axioms;

/// Entries whose archive path holds this text are extracted; all others are skipped.
pub const LIBRARY_MARKER: &'static str = "libil2cpp";

/// The prefix that extraction takes off every archive path.
pub const LIBRARY_PREFIX: &'static str = "Editor/Data/il2cpp/libil2cpp/";

/// The local directory of a release: `MAJOR/VERSION`.
pub open spec fn version_directory(v: UnityVersion) -> Seq<char> {
    decimal_text(v.major as nat) + seq!['/'] + version_text(v)
}

/// Where an archive entry at `path` is written for release `v`.
pub open spec fn entry_output_path(v: UnityVersion, path: Seq<char>) -> Seq<char> {
    version_directory(v) + seq!['/'] + remove_all(path, LIBRARY_PREFIX@)
}

/// The entry at `path` is extracted.
pub open spec fn is_extracted(path: Seq<char>) -> bool {
    contains(path, LIBRARY_MARKER@)
}

/// The tree that extracting `entries` (path, is a directory, contents) of the
/// archive of release `v` leaves, starting from `tree`. A tree maps an output
/// path to `None` for a directory and to the contents for a file; a later
/// entry for the same path replaces an earlier one.
pub open spec fn extract_entries(
    v: UnityVersion,
    tree: Map<Seq<char>, Option<Seq<u8>>>,
    entries: Seq<(Seq<char>, bool, Seq<u8>)>,
) -> Map<Seq<char>, Option<Seq<u8>>>
    decreases entries.len(),
{
    if entries.len() == 0 {
        tree
    } else {
        let e = entries.last();
        let t = extract_entries(v, tree, entries.drop_last());
        if !is_extracted(e.0) {
            t
        } else if e.1 {
            t.insert(entry_output_path(v, e.0), None)
        } else {
            t.insert(entry_output_path(v, e.0), Some(e.2))
        }
    }
}

/// Extracting onto a tree lays the entries' own tree over it.
pub proof fn lemma_extract_overlays(
    v: UnityVersion,
    tree: Map<Seq<char>, Option<Seq<u8>>>,
    entries: Seq<(Seq<char>, bool, Seq<u8>)>,
)
    ensures
        extract_entries(v, tree, entries) == tree.union_prefer_right(
            extract_entries(v, Map::empty(), entries),
        ),
    decreases entries.len(),
{
    if entries.len() == 0 {
        assert(tree.union_prefer_right(Map::empty()) =~= tree);
    } else {
        lemma_extract_overlays(v, tree, entries.drop_last());
        let w = extract_entries(v, Map::empty(), entries.drop_last());
        let e = entries.last();
        if is_extracted(e.0) {
            let x: Option<Seq<u8>> = if e.1 {
                None
            } else {
                Some(e.2)
            };
            assert(tree.union_prefer_right(w).insert(entry_output_path(v, e.0), x) =~= tree.union_prefer_right(
                w.insert(entry_output_path(v, e.0), x),
            ));
        }
    }
}

/// Extraction is idempotent: extracting the same archive again onto the tree
/// that the first extraction left changes nothing. In particular two runs onto
/// a cleaned destination leave identical trees.
pub proof fn lemma_extract_idempotent(
    v: UnityVersion,
    tree: Map<Seq<char>, Option<Seq<u8>>>,
    entries: Seq<(Seq<char>, bool, Seq<u8>)>,
)
    ensures
        extract_entries(v, extract_entries(v, tree, entries), entries) == extract_entries(
            v,
            tree,
            entries,
        ),
{
    let w = extract_entries(v, Map::empty(), entries);
    lemma_extract_overlays(v, tree, entries);
    lemma_extract_overlays(v, extract_entries(v, tree, entries), entries);
    assert(tree.union_prefer_right(w).union_prefer_right(w) =~= tree.union_prefer_right(w));
}

/// An entry whose path lacks the library marker leaves the tree as it is.
pub proof fn lemma_unmarked_entry_writes_nothing(
    v: UnityVersion,
    tree: Map<Seq<char>, Option<Seq<u8>>>,
    entry: (Seq<char>, bool, Seq<u8>),
)
    requires
        !is_extracted(entry.0),
    ensures
        extract_entries(v, tree, seq![entry]) == tree,
{
    let es = seq![entry];
    assert(es.drop_last() =~= Seq::<(Seq<char>, bool, Seq<u8>)>::empty());
    assert(es.last() == entry);
    assert(extract_entries(v, tree, es.drop_last()) == tree);
}

/// What to do with one archive entry.
#[derive(Debug, Clone)]
pub enum EntryAction {
    /// The entry lies outside the library subtree.
    Skip,
    /// The entry is a directory: create it, with its ancestors.
    CreateDirectory(String),
    /// The entry is a file: write its contents here.
    WriteFile(String),
}

/// The local directory of release `v`.
pub fn version_directory_text(v: &UnityVersion) -> (r: String)
    ensures
        r@ == version_directory(*v),
{
    let mut s = String::new();
    push_decimal(&mut s, v.major as u32);
    s.append("/");
    let t = v.version();
    s.append(t.as_str());
    proof {
        reveal_strlit("/");
    }
    assert(s@ =~= version_directory(*v));
    s
}

/// Extracts the `libil2cpp` subtree of a release archive held in memory.
pub struct LibIl2CppWriter<'a> {
    unity_version: &'a UnityVersion,
    buffer: Vec<u8>,
}

impl<'a> LibIl2CppWriter<'a> {
    /// The release whose archive this is.
    pub closed spec fn release(&self) -> UnityVersion {
        *self.unity_version
    }

    /// The bytes of the compressed archive.
    pub closed spec fn archive_bytes(&self) -> Seq<u8> {
        self.buffer@
    }

    pub fn new(unity_version: &'a UnityVersion, buffer: Vec<u8>) -> (r: Self)
        ensures
            r.release() == *unity_version,
            r.archive_bytes() == buffer@,
    {
        Self { unity_version, buffer }
    }

    /// The bytes of the compressed archive.
    pub fn archive(&self) -> (r: &Vec<u8>)
        ensures
            r@ == self.archive_bytes(),
    {
        &self.buffer
    }

    /// The release whose archive this is.
    pub fn unity_version(&self) -> (r: &UnityVersion)
        ensures
            *r == self.release(),
    {
        self.unity_version
    }

    /// The directory that the release is extracted into: `MAJOR/VERSION`.
    pub fn output_directory(&self) -> (r: String)
        ensures
            r@ == version_directory(self.release()),
    {
        version_directory_text(self.unity_version)
    }

    /// Where the entry at `raw_path` is written: the archive prefix of the
    /// library is taken out of the path, which is put under the output directory.
    pub fn format_output_directory(&self, raw_path: &str) -> (r: String)
        ensures
            r@ == entry_output_path(self.release(), raw_path@),
    {
        let mut s = self.output_directory();
        s.append("/");
        proof {
            reveal_strlit("/");
            reveal_strlit("Editor/Data/il2cpp/libil2cpp/");
        }
        let rest = remove_all_exec(raw_path, LIBRARY_PREFIX);
        s.append(rest.as_str());
        assert(s@ =~= entry_output_path(self.release(), raw_path@));
        s
    }

    /// What to do with the archive entry at `raw_path`: skip it unless its
    /// path holds the library marker; otherwise create the directory or write
    /// the file at its output path, as the entry's type says.
    pub fn plan_entry(&self, raw_path: &str, is_directory: bool) -> (r: EntryAction)
        ensures
            !is_extracted(raw_path@) <==> r is Skip,
            r matches EntryAction::CreateDirectory(p) ==> is_directory && p@ == entry_output_path(
                self.release(),
                raw_path@,
            ),
            r matches EntryAction::WriteFile(p) ==> !is_directory && p@ == entry_output_path(
                self.release(),
                raw_path@,
            ),
            is_extracted(raw_path@) && is_directory ==> r is CreateDirectory,
            is_extracted(raw_path@) && !is_directory ==> r is WriteFile,
    {
        if !contains_exec(raw_path, LIBRARY_MARKER) {
            return EntryAction::Skip;
        }
        let out = self.format_output_directory(raw_path);
        if is_directory {
            EntryAction::CreateDirectory(out)
        } else {
            EntryAction::WriteFile(out)
        }
    }
}

} // verus!
