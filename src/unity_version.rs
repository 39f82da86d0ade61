//! The version identity of a Unity editor release: parsing, canonical text and
//! ordering.

use vstd::prelude::*;
use crate::text::{
    decimal_text, decimal_value, digits_end, is_digit, lemma_decimal_text, lemma_digits_end,
    lemma_digits_end_at, push_decimal, read_number, scan_digits,
};
use core::cmp::Ordering;

verus! {

broadcast use vstd::string::group_string_axioms;

/// A release identifier `MAJOR.MINOR.BUILD` followed by a release kind letter
/// and the sequence number within that kind.
#[derive(Debug, PartialEq, Eq, Structural, Clone, Copy)]
pub struct UnityVersion {
    /// Major release number
    pub major: u16,
    /// Minor release number
    pub minor: u8,
    /// Build release number
    pub build: u8,
    /// Release kind: `a` alpha, `b` beta, `p` patch, `f` final, `c` China,
    /// `x` experimental
    pub kind: char,
    /// Sequence number within the release kind
    pub type_number: u8,
}

/// Why a text is not a release identifier.
#[derive(Debug, PartialEq, Eq, Structural, Clone, Copy)]
pub enum ParseError {
    /// The text does not have the shape `digits.digits.digits[.]letters digits`.
    Malformed,
    /// A number is larger than its field can hold.
    OutOfRange,
}

/// A letter that may stand for a release kind in an identifier.
pub open spec fn is_kind_letter(c: char) -> bool {
    c == 'a' || c == 'b' || c == 'c' || c == 'f' || c == 'p' || c == 'x'
}

/// The index where the run of kind letters of `s` that starts at `i` ends.
pub open spec fn letters_end(s: Seq<char>, i: int) -> int
    decreases s.len() - i,
{
    if 0 <= i < s.len() && is_kind_letter(s[i]) {
        letters_end(s, i + 1)
    } else {
        i
    }
}

proof fn lemma_letters_end(s: Seq<char>, i: int)
    requires
        0 <= i <= s.len(),
    ensures
        i <= letters_end(s, i) <= s.len(),
        forall|k: int| i <= k < letters_end(s, i) ==> is_kind_letter(#[trigger] s[k]),
        letters_end(s, i) == s.len() || !is_kind_letter(s[letters_end(s, i)]),
    decreases s.len() - i,
{
    if i < s.len() && is_kind_letter(s[i]) {
        lemma_letters_end(s, i + 1);
    }
}

proof fn lemma_letters_end_at(s: Seq<char>, i: int, j: int)
    requires
        0 <= i <= j <= s.len(),
        forall|k: int| i <= k < j ==> is_kind_letter(#[trigger] s[k]),
        j == s.len() || !is_kind_letter(s[j]),
    ensures
        letters_end(s, i) == j,
    decreases j - i,
{
    if i < j {
        lemma_letters_end_at(s, i + 1, j);
    }
}

/// Where the kind letters start: after the build number and an optional dot.
pub open spec fn kind_start(s: Seq<char>) -> int {
    let e3 = digits_end(s, digits_end(s, digits_end(s, 0) + 1) + 1);
    if e3 < s.len() && s[e3] == '.' {
        e3 + 1
    } else {
        e3
    }
}

/// `s` has the shape `digits.digits.digits`, optionally followed by an
/// optional dot, one or more kind letters taken from `a b c f p x`, and
/// optionally the digits of a sequence number.
pub open spec fn is_version_shape(s: Seq<char>) -> bool {
    let e1 = digits_end(s, 0);
    let e2 = digits_end(s, e1 + 1);
    let e3 = digits_end(s, e2 + 1);
    let k = kind_start(s);
    let e4 = letters_end(s, k);
    &&& 0 < e1 < s.len() && s[e1] == '.'
    &&& e1 + 1 < e2 < s.len() && s[e2] == '.'
    &&& e2 + 1 < e3
    &&& (e3 == s.len() || (k < e4 && digits_end(s, e4) == s.len()))
}

/// The five numbers and the kind that a text of version shape spells out.
pub open spec fn major_of(s: Seq<char>) -> nat {
    decimal_value(s.subrange(0, digits_end(s, 0)))
}

pub open spec fn minor_of(s: Seq<char>) -> nat {
    let e1 = digits_end(s, 0);
    decimal_value(s.subrange(e1 + 1, digits_end(s, e1 + 1)))
}

pub open spec fn build_of(s: Seq<char>) -> nat {
    let e2 = digits_end(s, digits_end(s, 0) + 1);
    decimal_value(s.subrange(e2 + 1, digits_end(s, e2 + 1)))
}

pub open spec fn type_number_of(s: Seq<char>) -> nat {
    let e4 = letters_end(s, kind_start(s));
    decimal_value(s.subrange(e4, s.len() as int))
}

/// The numbers of a text of version shape fit their fields.
pub open spec fn fits(s: Seq<char>) -> bool {
    major_of(s) <= 0xffff && minor_of(s) <= 0xff && build_of(s) <= 0xff && type_number_of(s)
        <= 0xff
}

/// What parsing `s` yields. The release kind is the first of the kind letters,
/// alpha where there are none; the sequence number is 0 where it is absent.
pub open spec fn parse_spec(s: Seq<char>) -> Result<UnityVersion, ParseError> {
    if !is_version_shape(s) {
        Err(ParseError::Malformed)
    } else if !fits(s) {
        Err(ParseError::OutOfRange)
    } else {
        Ok(
            UnityVersion {
                major: major_of(s) as u16,
                minor: minor_of(s) as u8,
                build: build_of(s) as u8,
                kind: if kind_start(s) < s.len() {
                    s[kind_start(s)]
                } else {
                    'a'
                },
                type_number: type_number_of(s) as u8,
            },
        )
    }
}

/// The canonical text `MAJOR.MINOR.BUILD` + kind + sequence number.
pub open spec fn version_text(v: UnityVersion) -> Seq<char> {
    decimal_text(v.major as nat) + seq!['.'] + decimal_text(v.minor as nat) + seq!['.']
        + decimal_text(v.build as nat) + seq![v.kind] + decimal_text(v.type_number as nat)
}

/// The release kinds that are ordered among each other: alpha, beta, patch, final.
pub open spec fn is_ranked_kind(c: char) -> bool {
    c == 'a' || c == 'b' || c == 'p' || c == 'f'
}

/// Precedence of a ranked kind: alpha < beta < patch < final.
pub open spec fn kind_rank(c: char) -> int {
    if c == 'a' {
        0
    } else if c == 'b' {
        1
    } else if c == 'p' {
        2
    } else {
        3
    }
}

/// A version whose kind takes part in the ordering.
pub open spec fn is_ranked(v: UnityVersion) -> bool {
    is_ranked_kind(v.kind)
}

pub open spec fn cmp_int(x: int, y: int) -> Ordering {
    if x < y {
        Ordering::Less
    } else if x > y {
        Ordering::Greater
    } else {
        Ordering::Equal
    }
}

/// How two versions compare: by major, minor and build number, then by kind
/// precedence, then by sequence number within one kind. Where the numbers tie
/// and a kind is not ranked, only a version equal to it is comparable.
pub open spec fn version_cmp(a: UnityVersion, b: UnityVersion) -> Option<Ordering> {
    if a.major != b.major {
        Some(cmp_int(a.major as int, b.major as int))
    } else if a.minor != b.minor {
        Some(cmp_int(a.minor as int, b.minor as int))
    } else if a.build != b.build {
        Some(cmp_int(a.build as int, b.build as int))
    } else if is_ranked(a) && is_ranked(b) {
        if kind_rank(a.kind) != kind_rank(b.kind) {
            Some(cmp_int(kind_rank(a.kind), kind_rank(b.kind)))
        } else {
            Some(cmp_int(a.type_number as int, b.type_number as int))
        }
    } else if a == b {
        Some(Ordering::Equal)
    } else {
        None
    }
}

/// `a` is older than `b`.
#[verifier::opaque]
pub open spec fn version_lt(a: UnityVersion, b: UnityVersion) -> bool {
    version_cmp(a, b) == Some(Ordering::Less)
}

/// Parsing the canonical text of a version whose kind is a kind letter gives
/// that version back, so writing out what a canonical text parses to gives
/// that text again.
pub proof fn lemma_parse_version_text(v: UnityVersion)
    requires
        is_kind_letter(v.kind),
    ensures
        parse_spec(version_text(v)) == Ok::<UnityVersion, ParseError>(v),
{
    let a = decimal_text(v.major as nat);
    let b = decimal_text(v.minor as nat);
    let c = decimal_text(v.build as nat);
    let d = decimal_text(v.type_number as nat);
    lemma_decimal_text(v.major as nat);
    lemma_decimal_text(v.minor as nat);
    lemma_decimal_text(v.build as nat);
    lemma_decimal_text(v.type_number as nat);
    let s = version_text(v);
    let e1 = a.len() as int;
    let e2 = e1 + 1 + b.len();
    let e3 = e2 + 1 + c.len();
    let e4 = e3 + 1;
    assert(s.len() == e4 + d.len());
    assert forall|i: int| 0 <= i < e1 implies s[i] == a[i] by {}
    assert forall|i: int| e1 + 1 <= i < e2 implies s[i] == b[i - e1 - 1] by {}
    assert forall|i: int| e2 + 1 <= i < e3 implies s[i] == c[i - e2 - 1] by {}
    assert forall|i: int| e4 <= i < s.len() implies s[i] == d[i - e4] by {}
    assert(s[e1] == '.');
    assert(s[e2] == '.');
    assert(s[e3] == v.kind);
    assert forall|i: int| 0 <= i < e1 implies is_digit(#[trigger] s[i]) by {
        assert(is_digit(a[i]));
    }
    lemma_digits_end_at(s, 0, e1);
    assert forall|i: int| e1 + 1 <= i < e2 implies is_digit(#[trigger] s[i]) by {
        assert(is_digit(b[i - e1 - 1]));
    }
    lemma_digits_end_at(s, e1 + 1, e2);
    assert forall|i: int| e2 + 1 <= i < e3 implies is_digit(#[trigger] s[i]) by {
        assert(is_digit(c[i - e2 - 1]));
    }
    lemma_digits_end_at(s, e2 + 1, e3);
    assert(kind_start(s) == e3);
    assert(is_digit(d[0]));
    assert(s[e4] == d[0]);
    lemma_letters_end_at(s, e3, e4);
    assert forall|i: int| e4 <= i < s.len() implies is_digit(#[trigger] s[i]) by {
        assert(is_digit(d[i - e4]));
    }
    lemma_digits_end_at(s, e4, s.len() as int);
    assert(s.subrange(0, e1) =~= a);
    assert(s.subrange(e1 + 1, e2) =~= b);
    assert(s.subrange(e2 + 1, e3) =~= c);
    assert(s.subrange(e4, s.len() as int) =~= d);
    assert(is_version_shape(s));
}

/// The text `MAJOR.MINOR.BUILD` of a version, without kind and sequence number.
pub open spec fn numbers_text(v: UnityVersion) -> Seq<char> {
    decimal_text(v.major as nat) + seq!['.'] + decimal_text(v.minor as nat) + seq!['.']
        + decimal_text(v.build as nat)
}

proof fn lemma_numbers_prefix(v: UnityVersion, s: Seq<char>)
    requires
        s.len() >= numbers_text(v).len(),
        s.subrange(0, numbers_text(v).len() as int) == numbers_text(v),
        s.len() == numbers_text(v).len() || !is_digit(s[numbers_text(v).len() as int]),
    ensures
        digits_end(s, 0) == decimal_text(v.major as nat).len(),
        digits_end(s, digits_end(s, 0) + 1) == decimal_text(v.major as nat).len() + 1
            + decimal_text(v.minor as nat).len(),
        digits_end(s, digits_end(s, digits_end(s, 0) + 1) + 1) == numbers_text(v).len(),
        s[digits_end(s, 0)] == '.',
        s[digits_end(s, digits_end(s, 0) + 1)] == '.',
        major_of(s) == v.major,
        minor_of(s) == v.minor,
        build_of(s) == v.build,
{
    let a = decimal_text(v.major as nat);
    let b = decimal_text(v.minor as nat);
    let c = decimal_text(v.build as nat);
    lemma_decimal_text(v.major as nat);
    lemma_decimal_text(v.minor as nat);
    lemma_decimal_text(v.build as nat);
    let t = numbers_text(v);
    let e1 = a.len() as int;
    let e2 = e1 + 1 + b.len();
    let e3 = e2 + 1 + c.len();
    assert(t.len() == e3);
    assert forall|i: int| 0 <= i < e3 implies s[i] == t[i] by {
        assert(s.subrange(0, e3)[i] == s[i]);
    }
    assert forall|i: int| 0 <= i < e1 implies is_digit(#[trigger] s[i]) by {
        assert(t[i] == a[i]);
        assert(is_digit(a[i]));
    }
    assert(s[e1] == t[e1]);
    lemma_digits_end_at(s, 0, e1);
    assert forall|i: int| e1 + 1 <= i < e2 implies is_digit(#[trigger] s[i]) by {
        assert(t[i] == b[i - e1 - 1]);
        assert(is_digit(b[i - e1 - 1]));
    }
    assert(s[e2] == t[e2]);
    lemma_digits_end_at(s, e1 + 1, e2);
    assert forall|i: int| e2 + 1 <= i < e3 implies is_digit(#[trigger] s[i]) by {
        assert(t[i] == c[i - e2 - 1]);
        assert(is_digit(c[i - e2 - 1]));
    }
    lemma_digits_end_at(s, e2 + 1, e3);
    assert(s.subrange(0, e1) =~= a);
    assert(s.subrange(e1 + 1, e2) =~= b);
    assert(s.subrange(e2 + 1, e3) =~= c);
}

/// A missing kind is alpha and a missing sequence number is 0:
/// `MAJOR.MINOR.BUILD` parses to the alpha version with sequence number 0,
/// and `MAJOR.MINOR.BUILD` followed by a kind letter to that kind with
/// sequence number 0.
pub proof fn lemma_parse_defaults(v: UnityVersion, kind: char)
    requires
        is_kind_letter(kind),
    ensures
        parse_spec(numbers_text(v)) == Ok::<UnityVersion, ParseError>(
            UnityVersion { kind: 'a', type_number: 0, ..v },
        ),
        parse_spec(numbers_text(v).push(kind)) == Ok::<UnityVersion, ParseError>(
            UnityVersion { kind, type_number: 0, ..v },
        ),
{
    let t = numbers_text(v);
    let n = t.len() as int;
    assert(t.subrange(0, n) =~= t);
    lemma_numbers_prefix(v, t);
    assert(kind_start(t) == n);
    assert(letters_end(t, n) == n);
    assert(t.subrange(n, n) =~= Seq::<char>::empty());
    assert(is_version_shape(t));
    let u = t.push(kind);
    assert(u.subrange(0, n) =~= t);
    lemma_numbers_prefix(v, u);
    assert(kind_start(u) == n);
    lemma_letters_end_at(u, n, n + 1);
    assert(digits_end(u, n + 1) == n + 1);
    assert(u.subrange(n + 1, n + 1) =~= Seq::<char>::empty());
    assert(is_version_shape(u));
}

/// Where the major numbers differ, they alone decide the order, whatever the
/// kinds and sequence numbers.
pub proof fn lemma_major_decides(a: UnityVersion, b: UnityVersion)
    requires
        a.major != b.major,
    ensures
        a.major < b.major ==> version_lt(a, b) && version_cmp(b, a) == Some(Ordering::Greater),
        a.major > b.major ==> version_lt(b, a) && version_cmp(a, b) == Some(Ordering::Greater),
{
    reveal(version_lt);
}

/// For one major, minor and build number, alpha is older than beta, patch and
/// final, and beta is older than patch and final, whatever the sequence numbers.
pub proof fn lemma_kind_precedence(a: UnityVersion, b: UnityVersion)
    requires
        a.major == b.major,
        a.minor == b.minor,
        a.build == b.build,
        (a.kind == 'a' && (b.kind == 'b' || b.kind == 'p' || b.kind == 'f')) || (a.kind == 'b'
            && (b.kind == 'p' || b.kind == 'f')),
    ensures
        version_lt(a, b),
        version_cmp(b, a) == Some(Ordering::Greater),
{
    reveal(version_lt);
}

/// Among ranked versions the order is total: two of them are equal or one is
/// older than the other.
pub proof fn lemma_ranked_total(a: UnityVersion, b: UnityVersion)
    requires
        is_ranked(a),
        is_ranked(b),
    ensures
        a == b || version_lt(a, b) || version_lt(b, a),
        version_lt(a, b) ==> !version_lt(b, a) && a != b,
{
    reveal(version_lt);
}

/// Among ranked versions, older-than is transitive.
pub proof fn lemma_ranked_transitive(a: UnityVersion, b: UnityVersion, c: UnityVersion)
    requires
        is_ranked(a),
        is_ranked(b),
        is_ranked(c),
        version_lt(a, b),
        version_lt(b, c),
    ensures
        version_lt(a, c),
{
    reveal(version_lt);
}

/// The order agrees with equality and is antisymmetric: two versions compare
/// equal exactly when they are equal, `a` is older than `b` exactly when `b`
/// is newer than `a`, and comparability does not depend on the side.
pub proof fn lemma_cmp_consistent(a: UnityVersion, b: UnityVersion)
    ensures
        version_cmp(a, b) == Some(Ordering::Equal) <==> a == b,
        version_cmp(a, b) == Some(Ordering::Less) <==> version_cmp(b, a) == Some(Ordering::Greater),
        version_cmp(a, b) is None <==> version_cmp(b, a) is None,
{
}

/// Relies on `char`'s `ToString`: the text of one character.
#[verifier::external_body]
fn char_text(c: char) -> (r: String)
    ensures
        r@ == seq![c],
{
    c.to_string()
}

fn int_cmp(x: u32, y: u32) -> (r: Ordering)
    ensures
        r == cmp_int(x as int, y as int),
{
    if x < y {
        Ordering::Less
    } else if x > y {
        Ordering::Greater
    } else {
        Ordering::Equal
    }
}

fn is_ranked_kind_exec(c: char) -> (r: bool)
    ensures
        r == is_ranked_kind(c),
{
    c == 'a' || c == 'b' || c == 'p' || c == 'f'
}

fn kind_rank_exec(c: char) -> (r: u32)
    ensures
        r as int == kind_rank(c),
{
    if c == 'a' {
        0
    } else if c == 'b' {
        1
    } else if c == 'p' {
        2
    } else {
        3
    }
}

fn scan_letters(s: &str, start: usize) -> (e: usize)
    requires
        start <= s@.len(),
    ensures
        e as int == letters_end(s@, start as int),
{
    let n = s.unicode_len();
    let mut i = start;
    while i < n
        invariant
            n == s@.len(),
            start <= i <= n,
            letters_end(s@, i as int) == letters_end(s@, start as int),
        decreases n - i,
    {
        let c = s.get_char(i);
        if !(c == 'a' || c == 'b' || c == 'c' || c == 'f' || c == 'p' || c == 'x') {
            return i;
        }
        i = i + 1;
    }
    i
}

impl UnityVersion {
    /// Parses a release identifier such as `2021.3.10f1`: three numbers
    /// separated by dots, then optionally an optional dot, one or more kind
    /// letters of which the first is the kind, and the sequence number. A
    /// missing kind is alpha and a missing sequence number is 0, so
    /// `2021.3.10` is `2021.3.10a0` and `2021.3.10f` is `2021.3.10f0`.
    pub fn parse(text: &str) -> (r: Result<UnityVersion, ParseError>)
        ensures
            r == parse_spec(text@),
    {
        let ghost s = text@;
        let n = text.unicode_len();
        proof {
            lemma_digits_end(s, 0);
        }
        let e1 = scan_digits(text, 0);
        if !(0 < e1 && e1 < n && text.get_char(e1) == '.') {
            return Err(ParseError::Malformed);
        }
        proof {
            lemma_digits_end(s, e1 + 1);
        }
        let e2 = scan_digits(text, e1 + 1);
        if !(e1 + 1 < e2 && e2 < n && text.get_char(e2) == '.') {
            return Err(ParseError::Malformed);
        }
        proof {
            lemma_digits_end(s, e2 + 1);
        }
        let e3 = scan_digits(text, e2 + 1);
        if !(e2 + 1 < e3) {
            return Err(ParseError::Malformed);
        }
        if e3 == n {
            assert(kind_start(s) == e3);
            assert(letters_end(s, n as int) == n);
            assert(s.subrange(n as int, n as int) =~= Seq::<char>::empty());
            assert(is_version_shape(s));
            let major = read_number(text, 0, e1, 0xffff);
            let minor = read_number(text, e1 + 1, e2, 0xff);
            let build = read_number(text, e2 + 1, e3, 0xff);
            return match (major, minor, build) {
                (Some(major), Some(minor), Some(build)) => Ok(
                    UnityVersion {
                        major: major as u16,
                        minor: minor as u8,
                        build: build as u8,
                        kind: 'a',
                        type_number: 0,
                    },
                ),
                _ => Err(ParseError::OutOfRange),
            };
        }
        let k = if text.get_char(e3) == '.' {
            e3 + 1
        } else {
            e3
        };
        assert(k == kind_start(s));
        proof {
            lemma_letters_end(s, k as int);
        }
        let e4 = scan_letters(text, k);
        if !(k < e4) {
            return Err(ParseError::Malformed);
        }
        proof {
            lemma_digits_end(s, e4 as int);
        }
        let e5 = scan_digits(text, e4);
        if e5 != n {
            return Err(ParseError::Malformed);
        }
        assert(is_version_shape(s));
        let major = read_number(text, 0, e1, 0xffff);
        let minor = read_number(text, e1 + 1, e2, 0xff);
        let build = read_number(text, e2 + 1, e3, 0xff);
        let type_number = read_number(text, e4, n, 0xff);
        match (major, minor, build, type_number) {
            (Some(major), Some(minor), Some(build), Some(type_number)) => Ok(
                UnityVersion {
                    major: major as u16,
                    minor: minor as u8,
                    build: build as u8,
                    kind: text.get_char(k),
                    type_number: type_number as u8,
                },
            ),
            _ => Err(ParseError::OutOfRange),
        }
    }

    /// A version from its numbers; missing parts default to `0`, the kind to alpha.
    pub fn new(
        major: u16,
        minor: Option<u8>,
        build: Option<u8>,
        kind: Option<char>,
        type_number: Option<u8>,
    ) -> (r: UnityVersion)
        ensures
            r.major == major,
            r.minor == (match minor {
                Some(m) => m,
                None => 0,
            }),
            r.build == (match build {
                Some(b) => b,
                None => 0,
            }),
            r.kind == (match kind {
                Some(k) => k,
                None => 'a',
            }),
            r.type_number == (match type_number {
                Some(t) => t,
                None => 0,
            }),
    {
        UnityVersion {
            major,
            minor: match minor {
                Some(m) => m,
                None => 0,
            },
            build: match build {
                Some(b) => b,
                None => 0,
            },
            kind: match kind {
                Some(k) => k,
                None => 'a',
            },
            type_number: match type_number {
                Some(t) => t,
                None => 0,
            },
        }
    }

    /// The canonical text of the version, such as `2021.3.10f1`.
    pub fn version(&self) -> (r: String)
        ensures
            r@ == version_text(*self),
    {
        let mut s = String::new();
        push_decimal(&mut s, self.major as u32);
        s.append(".");
        push_decimal(&mut s, self.minor as u32);
        s.append(".");
        push_decimal(&mut s, self.build as u32);
        let k = char_text(self.kind);
        s.append(k.as_str());
        push_decimal(&mut s, self.type_number as u32);
        proof {
            reveal_strlit(".");
        }
        assert(s@ =~= version_text(*self));
        s
    }

    /// The human-readable name of the release, such as `Unity 2021.3.10f1`.
    pub fn display_text(&self) -> (r: String)
        ensures
            r@ == "Unity "@ + version_text(*self),
    {
        let mut s = "Unity ".to_owned();
        let t = self.version();
        s.append(t.as_str());
        s
    }

    /// How `self` compares with `other`; `None` where they are not comparable.
    pub fn compare(&self, other: &UnityVersion) -> (r: Option<Ordering>)
        ensures
            r == version_cmp(*self, *other),
    {
        if self.major != other.major {
            Some(int_cmp(self.major as u32, other.major as u32))
        } else if self.minor != other.minor {
            Some(int_cmp(self.minor as u32, other.minor as u32))
        } else if self.build != other.build {
            Some(int_cmp(self.build as u32, other.build as u32))
        } else if is_ranked_kind_exec(self.kind) && is_ranked_kind_exec(other.kind) {
            let ra = kind_rank_exec(self.kind);
            let rb = kind_rank_exec(other.kind);
            if ra != rb {
                Some(int_cmp(ra, rb))
            } else {
                Some(int_cmp(self.type_number as u32, other.type_number as u32))
            }
        } else if *self == *other {
            Some(Ordering::Equal)
        } else {
            None
        }
    }
}

impl PartialOrd for UnityVersion {
    /// The release order; `None` for versions that are not comparable.
    fn partial_cmp(&self, other: &UnityVersion) -> (r: Option<Ordering>) {
        self.compare(other)
    }
}

impl vstd::std_specs::cmp::PartialOrdSpecImpl for UnityVersion {
    open spec fn obeys_partial_cmp_spec() -> bool {
        true
    }

    open spec fn partial_cmp_spec(&self, other: &UnityVersion) -> Option<Ordering> {
        version_cmp(*self, *other)
    }
}

} // verus!
