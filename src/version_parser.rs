//! The catalog of downloadable releases: records built from raw
//! (identifier, changeset) pairs, sorted by version with one record per version.

use vstd::prelude::*;
use crate::writer::{version_directory, version_directory_text};
use crate::unity_version::{
    is_ranked, lemma_ranked_total, lemma_ranked_transitive, parse_spec, version_lt, version_text,
    ParseError, UnityVersion,
};
use core::cmp::Ordering;

verus! {

broadcast use vstd::string::group_string_axioms;

/// A release that can be downloaded: its version, the changeset that locates
/// its archive, and whether it is present locally.
#[derive(Debug, Clone)]
pub struct DownloadableUnity {
    pub inner: UnityVersion,
    pub changeset: String,
    pub is_downloaded: bool,
}

/// Why a catalog could not be built; the index is that of the first pair that
/// failed.
#[derive(Debug, PartialEq, Eq, Structural, Clone, Copy)]
pub enum CatalogError {
    /// The identifier of the pair at this index does not parse.
    Parse(usize, ParseError),
    /// The identifier of the pair at this index has a kind outside alpha,
    /// beta, patch and final, which are the only ones that are ordered.
    UnrankedKind(usize),
}

/// The pair parses to a version of a ranked kind.
#[verifier::opaque]
pub open spec fn pair_ok(p: (String, String)) -> bool {
    match parse_spec(p.0@) {
        Ok(v) => is_ranked(v),
        Err(_) => false,
    }
}

/// The version that a pair's identifier parses to.
#[verifier::opaque]
pub open spec fn pair_version(p: (String, String)) -> UnityVersion {
    parse_spec(p.0@)->Ok_0
}

/// The error for a failing pair at index `i`.
#[verifier::opaque]
pub open spec fn pair_error(p: (String, String), i: usize) -> CatalogError {
    match parse_spec(p.0@) {
        Err(e) => CatalogError::Parse(i, e),
        Ok(_) => CatalogError::UnrankedKind(i),
    }
}

/// Strictly ascending by version, every version ranked.
pub open spec fn is_sorted_catalog(s: Seq<DownloadableUnity>) -> bool {
    &&& forall|i: int| 0 <= i < s.len() ==> is_ranked(#[trigger] s[i].inner)
    &&& forall|i: int, j: int|
        0 <= i < j < s.len() ==> #[trigger] version_lt(s[i].inner, s[j].inner)
}

/// The pair at index `j` is the first of `pairs` with its version.
pub open spec fn is_first_of_version(pairs: Seq<(String, String)>, j: int) -> bool {
    forall|k: int| 0 <= k < j ==> pair_version(#[trigger] pairs[k]) != pair_version(pairs[j])
}

/// Some record of `out` has version `v`.
pub open spec fn has_version(out: Seq<DownloadableUnity>, v: UnityVersion) -> bool {
    exists|i: int| 0 <= i < out.len() && out[i].inner == v
}

/// The record comes from the first of `pairs[0..n]` that names its version.
pub open spec fn from_first_pair(pairs: Seq<(String, String)>, n: int, r: DownloadableUnity) -> bool {
    exists|j: int|
        0 <= j < n && r.inner == pair_version(pairs[j]) && r.changeset@ == pairs[j].1@
            && is_first_of_version(pairs, j)
}

/// `out` is the catalog of the pairs `pairs[0..n]`: sorted, one record for
/// each version among them, the changeset that of the first pair with that
/// version, and nothing marked present.
pub open spec fn is_catalog_of(
    out: Seq<DownloadableUnity>,
    pairs: Seq<(String, String)>,
    n: int,
) -> bool {
    &&& is_sorted_catalog(out)
    &&& forall|k: int| 0 <= k < n ==> has_version(out, pair_version(#[trigger] pairs[k]))
    &&& forall|i: int| 0 <= i < out.len() ==> from_first_pair(pairs, n, #[trigger] out[i])
    &&& forall|i: int| 0 <= i < out.len() ==> !(#[trigger] out[i]).is_downloaded
}

/// A pair whose version the catalog already holds leaves it as it is.
proof fn lemma_catalog_skip(out: Seq<DownloadableUnity>, pairs: Seq<(String, String)>, j: int, p: int)
    requires
        0 <= j < pairs.len(),
        is_catalog_of(out, pairs, j),
        0 <= p < out.len(),
        out[p].inner == pair_version(pairs[j]),
    ensures
        is_catalog_of(out, pairs, j + 1),
{
    assert forall|k: int| 0 <= k < j + 1 implies has_version(out, pair_version(#[trigger] pairs[k])) by {
        if k == j {
            assert(out[p].inner == pair_version(pairs[k]));
        }
    }
    assert forall|i: int| 0 <= i < out.len() implies from_first_pair(pairs, j + 1, #[trigger] out[i]) by {
        assert(from_first_pair(pairs, j, out[i]));
        let jj = choose|jj: int|
            0 <= jj < j && out[i].inner == pair_version(pairs[jj]) && out[i].changeset@ == pairs[jj].1@
                && is_first_of_version(pairs, jj);
    }
}

/// Inserting a new version where the search stopped keeps the catalog.
proof fn lemma_catalog_insert(
    out: Seq<DownloadableUnity>,
    pairs: Seq<(String, String)>,
    j: int,
    p: int,
    rec: DownloadableUnity,
)
    requires
        0 <= j < pairs.len(),
        is_catalog_of(out, pairs, j),
        is_ranked(rec.inner),
        rec.inner == pair_version(pairs[j]),
        rec.changeset@ == pairs[j].1@,
        !rec.is_downloaded,
        0 <= p <= out.len(),
        forall|i: int| 0 <= i < p ==> version_lt(#[trigger] out[i].inner, rec.inner),
        p < out.len() ==> !version_lt(out[p].inner, rec.inner) && out[p].inner != rec.inner,
    ensures
        is_catalog_of(out.insert(p, rec), pairs, j + 1),
{
    let v = rec.inner;
    let s = out.insert(p, rec);
    if p < out.len() {
        lemma_ranked_total(out[p].inner, v);
    }
    assert forall|i: int| 0 <= i < s.len() implies is_ranked(#[trigger] s[i].inner) by {
        if i < p {
            assert(s[i] == out[i]);
        } else if i > p {
            assert(s[i] == out[i - 1]);
        }
    }
    assert forall|b: int| p < b < s.len() implies version_lt(v, #[trigger] s[b].inner) by {
        assert(s[b] == out[b - 1]);
        if b > p + 1 {
            assert(version_lt(out[p].inner, out[b - 1].inner));
            lemma_ranked_transitive(v, out[p].inner, out[b - 1].inner);
        }
    }
    assert forall|a: int, b: int| 0 <= a < b < s.len() implies #[trigger] version_lt(s[a].inner, s[b].inner) by {
        if a < p {
            assert(s[a] == out[a]);
        }
        if b == p {
        } else if a == p {
            assert(version_lt(v, s[b].inner));
        } else if a < p && b > p {
            assert(version_lt(v, s[b].inner));
            lemma_ranked_transitive(s[a].inner, v, s[b].inner);
        } else if b < p {
            assert(s[b] == out[b]);
        } else {
            assert(s[a] == out[a - 1]);
            assert(s[b] == out[b - 1]);
        }
    }
    assert(is_sorted_catalog(s));
    assert forall|k: int| 0 <= k < j + 1 implies has_version(s, pair_version(#[trigger] pairs[k])) by {
        if k == j {
            assert(s[p].inner == pair_version(pairs[k]));
        } else {
            assert(has_version(out, pair_version(pairs[k])));
            let i = choose|i: int| 0 <= i < out.len() && out[i].inner == pair_version(pairs[k]);
            if i < p {
                assert(s[i] == out[i]);
            } else {
                assert(s[i + 1] == out[i]);
            }
        }
    }
    assert(is_first_of_version(pairs, j)) by {
        assert forall|k: int| 0 <= k < j implies pair_version(#[trigger] pairs[k]) != pair_version(pairs[j]) by {
            if pair_version(pairs[k]) == v {
                assert(has_version(out, pair_version(pairs[k])));
                let i = choose|i: int| 0 <= i < out.len() && out[i].inner == pair_version(pairs[k]);
                if i > p {
                    assert(version_lt(out[p].inner, out[i].inner));
                    lemma_ranked_transitive(v, out[p].inner, out[i].inner);
                } else if i < p {
                    assert(version_lt(out[i].inner, v));
                    lemma_ranked_total(out[i].inner, v);
                }
            }
        }
    }
    assert forall|i: int| 0 <= i < s.len() implies from_first_pair(pairs, j + 1, #[trigger] s[i]) by {
        if i == p {
            assert(s[i].inner == pair_version(pairs[j]));
        } else {
            let oi = if i < p { i } else { i - 1 };
            assert(s[i] == out[oi]);
            assert(from_first_pair(pairs, j, out[oi]));
            let jj = choose|jj: int|
                0 <= jj < j && out[oi].inner == pair_version(pairs[jj]) && out[oi].changeset@ == pairs[jj].1@
                    && is_first_of_version(pairs, jj);
        }
    }
    assert forall|i: int| 0 <= i < s.len() implies !(#[trigger] s[i]).is_downloaded by {
        if i < p {
            assert(s[i] == out[i]);
        } else if i > p {
            assert(s[i] == out[i - 1]);
        }
    }
}

/// Where `v` goes in a sorted catalog: after every older version, before
/// every version that is not older.
fn insertion_point(out: &Vec<DownloadableUnity>, v: &UnityVersion) -> (p: usize)
    requires
        is_sorted_catalog(out@),
        is_ranked(*v),
    ensures
        p <= out@.len(),
        forall|i: int| 0 <= i < p ==> version_lt(#[trigger] out@[i].inner, *v),
        p < out@.len() ==> !version_lt(out@[p as int].inner, *v),
{
    reveal(version_lt);
    let mut p: usize = 0;
    while p < out.len()
        invariant
            p <= out@.len(),
            forall|i: int| 0 <= i < p ==> version_lt(#[trigger] out@[i].inner, *v),
        decreases out@.len() - p,
    {
        let older = match out[p].inner.compare(v) {
            Some(Ordering::Less) => true,
            _ => false,
        };
        proof {
            reveal(version_lt);
        }
        if !older {
            return p;
        }
        assert(version_lt(out@[p as int].inner, *v));
        p = p + 1;
    }
    p
}

/// Builds the catalog from (identifier, changeset) pairs: sorted ascending by
/// version, with one record per version, which keeps the changeset of the
/// first pair that names it. A pair that does not parse, or whose kind is not
/// ranked, fails the whole build.
pub fn parse_unity_versions(pairs: Vec<(String, String)>) -> (r: Result<
    Vec<DownloadableUnity>,
    CatalogError,
>)
    ensures
        (forall|i: int| 0 <= i < pairs@.len() ==> pair_ok(#[trigger] pairs@[i])) <==> r is Ok,
        r matches Ok(out) ==> is_catalog_of(out@, pairs@, pairs@.len() as int),
        r matches Err(e) ==> exists|i: int|
            0 <= i < pairs@.len() && !pair_ok(#[trigger] pairs@[i]) && (forall|k: int|
                0 <= k < i ==> pair_ok(#[trigger] pairs@[k])) && e == pair_error(pairs@[i], i as usize),
{
    let mut out: Vec<DownloadableUnity> = Vec::new();
    let n = pairs.len();
    let mut j: usize = 0;
    while j < n
        invariant
            n == pairs@.len(),
            j <= n,
            forall|k: int| 0 <= k < j ==> pair_ok(#[trigger] pairs@[k]),
            is_catalog_of(out@, pairs@, j as int),
        decreases n - j,
    {
        let pair = &pairs[j];
        let v = match UnityVersion::parse(pair.0.as_str()) {
            Ok(v) => v,
            Err(e) => {
                proof {
                    reveal(pair_ok);
                    reveal(pair_error);
                }
                return Err(CatalogError::Parse(j, e));
            },
        };
        if !(v.kind == 'a' || v.kind == 'b' || v.kind == 'p' || v.kind == 'f') {
            proof {
                reveal(pair_ok);
                reveal(pair_error);
            }
            return Err(CatalogError::UnrankedKind(j));
        }
        proof {
            reveal(pair_ok);
            reveal(pair_version);
        }
        assert(pair_ok(pairs@[j as int]));
        let ghost old_out = out@;
        let p = insertion_point(&out, &v);
        if p < out.len() && out[p].inner == v {
            proof {
                lemma_catalog_skip(old_out, pairs@, j as int, p as int);
            }
        } else {
            let rec = DownloadableUnity { inner: v, changeset: pair.1.clone(), is_downloaded: false };
            proof {
                lemma_catalog_insert(old_out, pairs@, j as int, p as int, rec);
            }
            out.insert(p, rec);
        }
        j = j + 1;
    }
    Ok(out)
}

impl DownloadableUnity {
    /// A record from an identifier and its changeset, not marked present.
    pub fn from_pair(identifier: &str, changeset: String) -> (r: Result<DownloadableUnity, ParseError>)
        ensures
            r matches Ok(d) ==> parse_spec(identifier@) == Ok::<UnityVersion, ParseError>(d.inner)
                && d.changeset@ == changeset@ && !d.is_downloaded,
            r matches Err(e) ==> parse_spec(identifier@) == Err::<UnityVersion, ParseError>(e),
    {
        match UnityVersion::parse(identifier) {
            Ok(v) => Ok(DownloadableUnity { inner: v, changeset, is_downloaded: false }),
            Err(e) => Err(e),
        }
    }

    /// The human-readable name of the record, such as
    /// `Unity 2021.3.10f1 (c7638f4b3b5a)`.
    pub fn display_text(&self) -> (r: String)
        ensures
            r@ == "Unity "@ + version_text(self.inner) + " ("@ + self.changeset@ + ")"@,
    {
        let mut s = self.inner.display_text();
        s.append(" (");
        s.append(self.changeset.as_str());
        s.append(")");
        s
    }

    /// Records whether the release's local directory exists.
    pub fn set_downloaded(&mut self, present: bool)
        ensures
            final(self).is_downloaded == present,
            final(self).inner == old(self).inner,
            final(self).changeset@ == old(self).changeset@,
    {
        self.is_downloaded = present;
    }

    /// The local directory of the release: `MAJOR/VERSION`.
    pub fn local_directory(&self) -> (r: String)
        ensures
            r@ == version_directory(self.inner),
    {
        version_directory_text(&self.inner)
    }
}

/// Two pairs with the same version leave exactly one record in the catalog,
/// whatever their changesets, and it keeps the changeset of the first of them.
pub proof fn lemma_catalog_one_record_per_version(
    out: Seq<DownloadableUnity>,
    pairs: Seq<(String, String)>,
    first: int,
    second: int,
)
    requires
        is_catalog_of(out, pairs, pairs.len() as int),
        0 <= first < second < pairs.len(),
        pair_version(pairs[first]) == pair_version(pairs[second]),
        is_first_of_version(pairs, first),
    ensures
        exists|i: int|
            0 <= i < out.len() && out[i].inner == pair_version(pairs[first]) && out[i].changeset@
                == pairs[first].1@ && forall|k: int|
                0 <= k < out.len() && out[k].inner == pair_version(pairs[first]) ==> k == i,
{
    let v = pair_version(pairs[first]);
    assert(has_version(out, pair_version(pairs[first])));
    let i = choose|i: int| 0 <= i < out.len() && out[i].inner == v;
    assert(from_first_pair(pairs, pairs.len() as int, out[i]));
    let j = choose|j: int|
        0 <= j < pairs.len() && out[i].inner == pair_version(pairs[j]) && out[i].changeset@
            == pairs[j].1@ && is_first_of_version(pairs, j);
    if j < first {
        assert(pair_version(pairs[j]) != pair_version(pairs[first]));
    } else if j > first {
        assert(pair_version(pairs[first]) != pair_version(pairs[j]));
    }
    assert forall|k: int| 0 <= k < out.len() && out[k].inner == v implies k == i by {
        if k < i {
            assert(version_lt(out[k].inner, out[i].inner));
            lemma_ranked_total(out[k].inner, out[i].inner);
        } else if k > i {
            assert(version_lt(out[i].inner, out[k].inner));
            lemma_ranked_total(out[i].inner, out[k].inner);
        }
    }
}

} // verus!
