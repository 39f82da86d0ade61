//! Decimal text and substring search over character and byte sequences.

use vstd::prelude::*;

verus! {

broadcast use vstd::string::group_string_axioms;

/// A decimal digit character.
pub open spec fn is_digit(c: char) -> bool {
    '0' <= c && c <= '9'
}

/// The value of a decimal digit character.
pub open spec fn digit_value(c: char) -> nat {
    (c as int - '0' as int) as nat
}

/// The character of a digit value below ten.
pub open spec fn digit_char(d: nat) -> char {
    (d + '0' as nat) as char
}

/// The value of a sequence of decimal digits (leading zeros allowed).
pub open spec fn decimal_value(s: Seq<char>) -> nat
    decreases s.len(),
{
    if s.len() == 0 {
        0
    } else {
        decimal_value(s.drop_last()) * 10 + digit_value(s.last())
    }
}

/// The shortest decimal text of `n`, as `to_string` writes it.
pub open spec fn decimal_text(n: nat) -> Seq<char>
    decreases n,
{
    if n < 10 {
        seq![digit_char(n)]
    } else {
        decimal_text(n / 10).push(digit_char(n % 10))
    }
}

/// The decimal text of `n` is a non-empty run of digits whose value is `n`.
pub proof fn lemma_decimal_text(n: nat)
    ensures
        decimal_text(n).len() > 0,
        forall|i: int| 0 <= i < decimal_text(n).len() ==> is_digit(#[trigger] decimal_text(n)[i]),
        decimal_value(decimal_text(n)) == n,
    decreases n,
{
    if n < 10 {
        assert(decimal_text(n).drop_last() =~= Seq::<char>::empty());
        assert(digit_value(digit_char(n)) == n);
        assert(decimal_text(n).last() == digit_char(n));
        assert(decimal_value(decimal_text(n)) == decimal_value(Seq::<char>::empty()) * 10 + n);
    } else {
        lemma_decimal_text(n / 10);
        let t = decimal_text(n / 10);
        assert(decimal_text(n).drop_last() =~= t);
        assert(digit_value(digit_char(n % 10)) == n % 10);
        assert(n == (n / 10) * 10 + n % 10);
        assert(decimal_text(n).last() == digit_char(n % 10));
        assert(decimal_value(decimal_text(n)) == decimal_value(t) * 10 + n % 10);
    }
}

/// The value of a prefix of a digit sequence never exceeds the value of the whole.
pub proof fn lemma_decimal_prefix(s: Seq<char>, k: int)
    requires
        0 <= k <= s.len(),
    ensures
        decimal_value(s.subrange(0, k)) <= decimal_value(s),
    decreases s.len(),
{
    if k < s.len() {
        lemma_decimal_prefix(s.drop_last(), k);
        assert(s.drop_last().subrange(0, k) =~= s.subrange(0, k));
    } else {
        assert(s.subrange(0, k) =~= s);
    }
}

/// The index where the run of digits of `s` that starts at `i` ends.
pub open spec fn digits_end(s: Seq<char>, i: int) -> int
    decreases s.len() - i,
{
    if 0 <= i < s.len() && is_digit(s[i]) {
        digits_end(s, i + 1)
    } else {
        i
    }
}

/// Every index from `i` up to its run's end holds a digit, and the run stops there.
pub proof fn lemma_digits_end(s: Seq<char>, i: int)
    requires
        0 <= i <= s.len(),
    ensures
        i <= digits_end(s, i) <= s.len(),
        forall|k: int| i <= k < digits_end(s, i) ==> is_digit(#[trigger] s[k]),
        digits_end(s, i) == s.len() || !is_digit(s[digits_end(s, i)]),
    decreases s.len() - i,
{
    if i < s.len() && is_digit(s[i]) {
        lemma_digits_end(s, i + 1);
    }
}

/// A run of digits from `i` that stops at `j` ends at `j`.
pub proof fn lemma_digits_end_at(s: Seq<char>, i: int, j: int)
    requires
        0 <= i <= j <= s.len(),
        forall|k: int| i <= k < j ==> is_digit(#[trigger] s[k]),
        j == s.len() || !is_digit(s[j]),
    ensures
        digits_end(s, i) == j,
    decreases j - i,
{
    if i < j {
        lemma_digits_end_at(s, i + 1, j);
    }
}

/// The index where the run of digits of `s` that starts at `start` ends.
pub fn scan_digits(s: &str, start: usize) -> (e: usize)
    requires
        start <= s@.len(),
    ensures
        e as int == digits_end(s@, start as int),
{
    let n = s.unicode_len();
    let mut i = start;
    proof {
        lemma_digits_end(s@, start as int);
    }
    while i < n
        invariant
            n == s@.len(),
            start <= i <= n,
            digits_end(s@, i as int) == digits_end(s@, start as int),
        decreases n - i,
    {
        let c = s.get_char(i);
        if !('0' <= c && c <= '9') {
            return i;
        }
        i = i + 1;
    }
    i
}

/// The value of the digits `s[start..end]`, or `None` where it exceeds `limit`.
pub fn read_number(s: &str, start: usize, end: usize, limit: u32) -> (r: Option<u32>)
    requires
        start <= end <= s@.len(),
        forall|k: int| start <= k < end ==> is_digit(#[trigger] s@[k]),
    ensures
        r == (if decimal_value(s@.subrange(start as int, end as int)) <= limit as nat {
            Some(decimal_value(s@.subrange(start as int, end as int)) as u32)
        } else {
            None::<u32>
        }),
{
    let ghost whole = s@.subrange(start as int, end as int);
    let mut acc: u64 = 0;
    let mut i = start;
    assert(s@.subrange(start as int, start as int) =~= Seq::<char>::empty());
    while i < end
        invariant
            start <= i <= end <= s@.len(),
            whole == s@.subrange(start as int, end as int),
            forall|k: int| start <= k < end ==> is_digit(#[trigger] s@[k]),
            acc as nat == decimal_value(s@.subrange(start as int, i as int)),
            acc <= limit,
        decreases end - i,
    {
        let c = s.get_char(i);
        let d = (c as u32 - '0' as u32) as u64;
        let next = acc * 10 + d;
        proof {
            let pre = s@.subrange(start as int, i as int + 1);
            assert(pre.drop_last() =~= s@.subrange(start as int, i as int));
            assert(whole.subrange(0, i - start + 1) =~= pre);
            lemma_decimal_prefix(whole, i - start + 1);
        }
        if next > limit as u64 {
            return None;
        }
        acc = next;
        i = i + 1;
    }
    assert(s@.subrange(start as int, i as int) =~= whole);
    Some(acc as u32)
}

/// Text of a single digit.
fn digit_str(d: u32) -> (r: &'static str)
    requires
        d < 10,
    ensures
        r@ == seq![digit_char(d as nat)],
{
    let r = match d {
        0 => "0",
        1 => "1",
        2 => "2",
        3 => "3",
        4 => "4",
        5 => "5",
        6 => "6",
        7 => "7",
        8 => "8",
        _ => "9",
    };
    proof {
        reveal_strlit("0");
        reveal_strlit("1");
        reveal_strlit("2");
        reveal_strlit("3");
        reveal_strlit("4");
        reveal_strlit("5");
        reveal_strlit("6");
        reveal_strlit("7");
        reveal_strlit("8");
        reveal_strlit("9");
    }
    assert(r@ =~= seq![digit_char(d as nat)]);
    r
}

/// Appends the decimal text of `n` to `out`.
pub fn push_decimal(out: &mut String, n: u32)
    ensures
        final(out)@ == old(out)@ + decimal_text(n as nat),
    decreases n,
{
    if n >= 10 {
        push_decimal(out, n / 10);
    }
    out.append(digit_str(n % 10));
    assert(out@ =~= old(out)@ + decimal_text(n as nat));
}

/// `m` occurs in `s` at index `i`.
pub open spec fn occurs_at(s: Seq<char>, m: Seq<char>, i: int) -> bool {
    0 <= i && i + m.len() <= s.len() && s.subrange(i, i + m.len()) == m
}

/// `m` occurs somewhere in `s`.
pub open spec fn contains(s: Seq<char>, m: Seq<char>) -> bool {
    exists|i: int| occurs_at(s, m, i)
}

/// `s` with every occurrence of `m` taken out, scanning left to right, as
/// `str::replace(m, "")` does.
pub open spec fn remove_all(s: Seq<char>, m: Seq<char>) -> Seq<char>
    decreases s.len(),
{
    if m.len() == 0 || s.len() == 0 {
        s
    } else if occurs_at(s, m, 0) {
        remove_all(s.subrange(m.len() as int, s.len() as int), m)
    } else {
        seq![s[0]] + remove_all(s.subrange(1, s.len() as int), m)
    }
}

/// Whether `m` occurs in `s` at index `i`.
pub fn occurs_at_exec(s: &str, m: &str, i: usize) -> (r: bool)
    requires
        i <= s@.len(),
    ensures
        r == occurs_at(s@, m@, i as int),
{
    let n = s.unicode_len();
    let k = m.unicode_len();
    if k > n - i {
        return false;
    }
    let mut j: usize = 0;
    while j < k
        invariant
            n == s@.len(),
            k == m@.len(),
            i + k <= n,
            j <= k,
            forall|t: int| 0 <= t < j ==> s@[i + t] == m@[t],
        decreases k - j,
    {
        if s.get_char(i + j) != m.get_char(j) {
            assert(s@.subrange(i as int, i + k)[j as int] != m@[j as int]);
            return false;
        }
        j = j + 1;
    }
    assert(s@.subrange(i as int, i + k) =~= m@);
    true
}

/// Whether `m` occurs somewhere in `s`.
pub fn contains_exec(s: &str, m: &str) -> (r: bool)
    ensures
        r == contains(s@, m@),
{
    let n = s.unicode_len();
    let mut i: usize = 0;
    while i < n
        invariant
            n == s@.len(),
            i <= n,
            forall|t: int| 0 <= t < i ==> !occurs_at(s@, m@, t),
        decreases n - i,
    {
        if occurs_at_exec(s, m, i) {
            return true;
        }
        i = i + 1;
    }
    if occurs_at_exec(s, m, n) {
        return true;
    }
    assert forall|t: int| !occurs_at(s@, m@, t) by {
        if 0 <= t && t < i {
        }
    }
    false
}

/// `s` with every occurrence of the non-empty `m` taken out.
pub fn remove_all_exec(s: &str, m: &str) -> (r: String)
    requires
        m@.len() > 0,
    ensures
        r@ == remove_all(s@, m@),
{
    let n = s.unicode_len();
    let k = m.unicode_len();
    let mut out = String::new();
    let mut i: usize = 0;
    assert(s@.subrange(0, n as int) =~= s@);
    while i < n
        invariant
            n == s@.len(),
            k == m@.len(),
            k > 0,
            i <= n,
            out@ + remove_all(s@.subrange(i as int, n as int), m@) == remove_all(s@, m@),
        decreases n - i,
    {
        let ghost rest = s@.subrange(i as int, n as int);
        if occurs_at_exec(s, m, i) {
            assert(rest.subrange(0, k as int) =~= s@.subrange(i as int, i + k));
            assert(occurs_at(rest, m@, 0));
            assert(rest.subrange(k as int, rest.len() as int) =~= s@.subrange(i + k, n as int));
            i = i + k;
        } else {
            assert(!occurs_at(rest, m@, 0)) by {
                if k <= rest.len() {
                    assert(rest.subrange(0, k as int) =~= s@.subrange(i as int, i + k));
                }
            }
            assert(rest.subrange(1, rest.len() as int) =~= s@.subrange(i + 1, n as int));
            let c = s.substring_char(i, i + 1);
            assert(c@ =~= seq![rest[0]]);
            out.append(c);
            i = i + 1;
        }
    }
    assert(s@.subrange(n as int, n as int) =~= Seq::<char>::empty());
    assert(out@ =~= remove_all(s@, m@));
    out
}

} // verus!
