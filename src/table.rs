//! The data behind the VERSIONS.md report: the releases grouped by major line,
//! and the metadata version that a release's sources assert.

use vstd::prelude::*;
use itertools::Itertools;
use vstd::utf8::encode_utf8;
use vstd::string::StringSliceAdditionalSpecFns;
use crate::diff::{bytes_contain, find_bytes, is_first_occurrence};

verus! {

/// The indices below `n` whose major number is `m`, in ascending order.
pub open spec fn indices_with(majors: Seq<u16>, m: u16, n: int) -> Seq<usize>
    decreases n,
{
    if n <= 0 {
        Seq::empty()
    } else {
        let s = indices_with(majors, m, n - 1);
        if majors[n - 1] == m {
            s.push((n - 1) as usize)
        } else {
            s
        }
    }
}

/// `m` is among the first `n` majors.
pub open spec fn occurs_before(majors: Seq<u16>, n: int, m: u16) -> bool {
    exists|i: int| 0 <= i < n && majors[i] == m
}

/// `m` is among `keys`.
pub open spec fn is_key(keys: Seq<u16>, m: u16) -> bool {
    exists|a: int| 0 <= a < keys.len() && keys[a] == m
}

/// Some group is that of major `m`.
pub open spec fn has_group(groups: Seq<(u16, Vec<usize>)>, m: u16) -> bool {
    exists|a: int| 0 <= a < groups.len() && groups[a].0 == m
}

/// `keys` is strictly ascending and holds exactly the majors among the first `n`.
pub open spec fn is_key_set(keys: Seq<u16>, majors: Seq<u16>, n: int) -> bool {
    &&& forall|a: int, b: int| 0 <= a < b < keys.len() ==> keys[a] < keys[b]
    &&& forall|a: int| 0 <= a < keys.len() ==> occurs_before(majors, n, #[trigger] keys[a])
    &&& forall|i: int| 0 <= i < n ==> is_key(keys, #[trigger] majors[i])
}

/// `s` with each run of equal consecutive elements kept once.
pub open spec fn dedup_runs(s: Seq<u16>) -> Seq<u16>
    decreases s.len(),
{
    if s.len() == 0 {
        s
    } else {
        let d = dedup_runs(s.drop_last());
        if d.len() > 0 && d.last() == s.last() {
            d
        } else {
            d.push(s.last())
        }
    }
}

/// Relies on itertools' `Itertools::sorted`: the same elements, in ascending
/// order.
#[verifier::external_body]
fn sorted_majors(v: &Vec<u16>) -> (r: Vec<u16>)
    ensures
        r@.to_multiset() == v@.to_multiset(),
        forall|a: int, b: int| 0 <= a < b < r@.len() ==> r@[a] <= r@[b],
{
    v.iter().copied().sorted().collect()
}

/// Relies on itertools' `Itertools::dedup`: each run of equal consecutive
/// elements kept once.
#[verifier::external_body]
fn dedup_majors(v: &Vec<u16>) -> (r: Vec<u16>)
    ensures
        r@ == dedup_runs(v@),
{
    v.iter().copied().dedup().collect()
}

/// Deduplicating runs keeps the same elements, and of an ascending sequence
/// it gives a strictly ascending one that ends with the same element.
proof fn lemma_dedup_runs(s: Seq<u16>)
    ensures
        forall|x: u16| dedup_runs(s).contains(x) <==> s.contains(x),
        (forall|a: int, b: int| 0 <= a < b < s.len() ==> s[a] <= s[b]) ==> (forall|a: int, b: int|
            0 <= a < b < dedup_runs(s).len() ==> dedup_runs(s)[a] < dedup_runs(s)[b]),
        s.len() > 0 ==> dedup_runs(s).len() > 0 && dedup_runs(s).last() == s.last(),
    decreases s.len(),
{
    if s.len() > 0 {
        let p = s.drop_last();
        lemma_dedup_runs(p);
        let d = dedup_runs(p);
        assert(s =~= p.push(s.last()));
        let r = dedup_runs(s);
        let same = d.len() > 0 && d.last() == s.last();
        assert(same ==> r == d);
        assert(!same ==> r == d.push(s.last()));
        assert forall|j: int| 0 <= j < d.len() implies r[j] == d[j] by {}
        assert forall|x: u16| r.contains(x) <==> s.contains(x) by {
            if s.contains(x) {
                let i = choose|i: int| 0 <= i < s.len() && s[i] == x;
                if i < p.len() {
                    assert(p[i] == x);
                    assert(p.contains(x));
                    assert(d.contains(x));
                    let j = choose|j: int| 0 <= j < d.len() && d[j] == x;
                    assert(r[j] == x);
                } else if same {
                    assert(d[d.len() - 1] == x);
                    assert(r[d.len() - 1] == x);
                } else {
                    assert(r[d.len() as int] == x);
                }
            }
            if r.contains(x) {
                let j = choose|j: int| 0 <= j < r.len() && r[j] == x;
                if j < d.len() {
                    assert(d[j] == x);
                    assert(d.contains(x));
                    assert(dedup_runs(p).contains(x));
                    assert(p.contains(x));
                    let i = choose|i: int| 0 <= i < p.len() && p[i] == x;
                    assert(s[i] == p[i]);
                    assert(s.contains(x));
                } else {
                    assert(s[s.len() - 1] == x);
                }
            }
        }
        if forall|a: int, b: int| 0 <= a < b < s.len() ==> s[a] <= s[b] {
            assert forall|a: int, b: int| 0 <= a < b < p.len() implies p[a] <= p[b] by {
                assert(s[a] <= s[b]);
            }
            if d.len() > 0 {
                assert(d.last() == p.last());
                assert(p.last() <= s.last());
            }
        }
    }
}

fn distinct_majors(majors: &Vec<u16>) -> (keys: Vec<u16>)
    ensures
        is_key_set(keys@, majors@, majors@.len() as int),
{
    let sorted = sorted_majors(majors);
    let keys = dedup_majors(&sorted);
    proof {
        broadcast use vstd::seq_lib::group_to_multiset_ensures;
        lemma_dedup_runs(sorted@);
        let n = majors@.len() as int;
        assert forall|a: int| 0 <= a < keys@.len() implies occurs_before(majors@, n, #[trigger] keys@[a]) by {
            assert(keys@.contains(keys@[a]));
            assert(sorted@.contains(keys@[a]));
            assert(sorted@.to_multiset().count(keys@[a]) > 0);
            assert(majors@.contains(keys@[a]));
        }
        assert forall|i: int| 0 <= i < n implies is_key(keys@, #[trigger] majors@[i]) by {
            assert(majors@.contains(majors@[i]));
            assert(majors@.to_multiset().count(majors@[i]) > 0);
            assert(sorted@.contains(majors@[i]));
            assert(keys@.contains(majors@[i]));
        }
    }
    keys
}

/// Groups release indices by major number: one group per major that occurs,
/// in ascending order of major, each holding the indices of that major in
/// ascending order.
pub fn group_by_major(majors: &Vec<u16>) -> (groups: Vec<(u16, Vec<usize>)>)
    ensures
        forall|a: int, b: int| 0 <= a < b < groups@.len() ==> groups@[a].0 < groups@[b].0,
        forall|i: int| 0 <= i < majors@.len() ==> has_group(groups@, #[trigger] majors@[i]),
        forall|a: int|
            0 <= a < groups@.len() ==> (#[trigger] groups@[a]).1@ == indices_with(
                majors@,
                groups@[a].0,
                majors@.len() as int,
            ) && groups@[a].1@.len() > 0,
{
    let keys = distinct_majors(majors);
    let n = majors.len();
    let mut groups: Vec<(u16, Vec<usize>)> = Vec::new();
    let mut k: usize = 0;
    while k < keys.len()
        invariant
            n == majors@.len(),
            is_key_set(keys@, majors@, n as int),
            k <= keys@.len(),
            groups@.len() == k,
            forall|a: int| 0 <= a < k ==> (#[trigger] groups@[a]).0 == keys@[a],
            forall|a: int|
                0 <= a < k ==> (#[trigger] groups@[a]).1@ == indices_with(majors@, groups@[a].0, n as int)
                    && groups@[a].1@.len() > 0,
        decreases keys@.len() - k,
    {
        let m = keys[k];
        let mut members: Vec<usize> = Vec::new();
        let mut j: usize = 0;
        while j < n
            invariant
                n == majors@.len(),
                j <= n,
                members@ == indices_with(majors@, m, j as int),
                forall|t: int| 0 <= t < j ==> majors@[t] == m ==> indices_with(majors@, m, j as int).len() > 0,
            decreases n - j,
        {
            if majors[j] == m {
                members.push(j);
            }
            j = j + 1;
        }
        proof {
            let t = choose|t: int| 0 <= t < n && majors@[t] == keys@[k as int];
        }
        groups.push((m, members));
        k = k + 1;
    }
    proof {
        assert forall|i: int| 0 <= i < n implies has_group(groups@, #[trigger] majors@[i]) by {
            assert(is_key(keys@, majors@[i]));
            let a = choose|a: int| 0 <= a < keys@.len() && keys@[a] == majors@[i];
            assert(groups@[a].0 == keys@[a]);
        }
    }
    groups
}

/// Offset of the version number after the start of its assertion.
pub const VERSION_OFFSET: usize = 11;

/// The metadata version asserted in a source file: the two decimal digits
/// that stand eleven bytes after the first occurrence of `marker` in `content`.
pub open spec fn asserted_version(content: Seq<u8>, marker: Seq<u8>) -> Option<u8> {
    if bytes_contain(content, marker) {
        let i = choose|i: int| is_first_occurrence(content, marker, i);
        if i + 13 <= content.len() && '0' as u8 <= content[i + 11] <= '9' as u8 && '0' as u8
            <= content[i + 12] <= '9' as u8 {
            Some(((content[i + 11] - '0' as u8) * 10 + (content[i + 12] - '0' as u8)) as u8)
        } else {
            None
        }
    } else {
        None
    }
}

/// The metadata version that `content` asserts after `marker`, if any.
pub fn metadata_version(content: &str, marker: &str) -> (r: Option<u8>)
    ensures
        r == asserted_version(encode_utf8(content@), encode_utf8(marker@)),
{
    match find_bytes(content, marker) {
        None => None,
        Some(i) => {
            proof {
                let j = choose|j: int| is_first_occurrence(content.spec_bytes(), marker.spec_bytes(), j);
                assert(is_first_occurrence(content.spec_bytes(), marker.spec_bytes(), i as int));
                assert(i == j) by {
                    if (i as int) < j {
                    } else if j < i {
                    }
                }
            }
            let b = content.as_bytes();
            if i > b.len() || b.len() - i < 13 {
                return None;
            }
            let hi = b[i + VERSION_OFFSET];
            let lo = b[i + VERSION_OFFSET + 1];
            if '0' as u8 <= hi && hi <= '9' as u8 && '0' as u8 <= lo && lo <= '9' as u8 {
                Some((hi - '0' as u8) * 10 + (lo - '0' as u8))
            } else {
                None
            }
        },
    }
}

} // verus!
