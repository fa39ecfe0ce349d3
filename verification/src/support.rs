//! Small building blocks shared by the models: decimal rendering of integers and the
//! two values that come from the running process (a fresh identifier and the clock).

use std::collections::hash_map::RandomState;
use std::hash::BuildHasher;
use std::time::{SystemTime, UNIX_EPOCH};
use vstd::prelude::*;
use vstd::string::*;

verus! {

/// The character of a decimal digit `d` (0..=9).
pub open spec fn digit_char(d: nat) -> char {
    if d == 0 { '0' }
    else if d == 1 { '1' }
    else if d == 2 { '2' }
    else if d == 3 { '3' }
    else if d == 4 { '4' }
    else if d == 5 { '5' }
    else if d == 6 { '6' }
    else if d == 7 { '7' }
    else if d == 8 { '8' }
    else { '9' }
}

/// Decimal digits of a natural number, most significant first, without leading zeros.
pub open spec fn nat_digits(n: nat) -> Seq<char>
    decreases n,
{
    if n < 10 {
        seq![digit_char(n)]
    } else {
        nat_digits(n / 10) + seq![digit_char(n % 10)]
    }
}

/// Decimal rendering of an integer, as `to_string` prints it (a leading `-` for negatives).
pub open spec fn int_decimal(i: int) -> Seq<char> {
    if i < 0 {
        seq!['-'] + nat_digits((-i) as nat)
    } else {
        nat_digits(i as nat)
    }
}

/// Rendering of a boolean, as `to_string` prints it.
pub open spec fn bool_text(b: bool) -> Seq<char> {
    if b { seq!['t', 'r', 'u', 'e'] } else { seq!['f', 'a', 'l', 's', 'e'] }
}

fn digit_str(d: u64) -> (s: &'static str)
    requires
        d < 10,
    ensures
        s@ == seq![digit_char(d as nat)],
{
    match d {
        0 => { proof { reveal_strlit("0"); } "0" },
        1 => { proof { reveal_strlit("1"); } "1" },
        2 => { proof { reveal_strlit("2"); } "2" },
        3 => { proof { reveal_strlit("3"); } "3" },
        4 => { proof { reveal_strlit("4"); } "4" },
        5 => { proof { reveal_strlit("5"); } "5" },
        6 => { proof { reveal_strlit("6"); } "6" },
        7 => { proof { reveal_strlit("7"); } "7" },
        8 => { proof { reveal_strlit("8"); } "8" },
        _ => { proof { reveal_strlit("9"); } "9" },
    }
}

/// Appends the decimal digits of `n` to `s`.
pub fn push_nat_digits(s: &mut String, n: u64)
    ensures
        final(s)@ == old(s)@ + nat_digits(n as nat),
    decreases n,
{
    if n >= 10 {
        push_nat_digits(s, n / 10);
    }
    let d = digit_str(n % 10);
    s.append(d);
    proof {
        if n >= 10 {
            assert(nat_digits(n as nat) == nat_digits((n / 10) as nat) + seq![digit_char((n % 10) as nat)]);
        }
    }
}

/// Appends the decimal rendering of `x` to `s`.
pub fn push_i64_decimal(s: &mut String, x: i64)
    ensures
        final(s)@ == old(s)@ + int_decimal(x as int),
{
    if x < 0 {
        proof { reveal_strlit("-"); }
        s.append("-");
        let m: u64 = if x == i64::MIN { 0x8000_0000_0000_0000u64 } else { (-x) as u64 };
        push_nat_digits(s, m);
        proof {
            assert(old(s)@ + seq!['-'] + nat_digits(m as nat) == old(s)@ + (seq!['-'] + nat_digits(m as nat)));
        }
    } else {
        push_nat_digits(s, x as u64);
    }
}

/// The decimal rendering of `x`.
pub fn i64_to_string(x: i64) -> (s: String)
    ensures
        s@ == int_decimal(x as int),
{
    let mut s = String::new();
    push_i64_decimal(&mut s, x);
    proof { assert(Seq::<char>::empty() + int_decimal(x as int) == int_decimal(x as int)); }
    s
}

/// Appends `true` or `false` to `s`.
pub fn push_bool_text(s: &mut String, b: bool)
    ensures
        final(s)@ == old(s)@ + bool_text(b),
{
    if b {
        proof { reveal_strlit("true"); }
        s.append("true");
    } else {
        proof { reveal_strlit("false"); }
        s.append("false");
    }
}

/// A number drawn from a freshly seeded `std::collections::hash_map::RandomState`
/// (`RandomState::new` followed by `BuildHasher::hash_one`). Nothing is promised of the
/// value: it depends on the seed that the process draws.
#[verifier::external_body]
pub fn random_u64() -> (r: u64)
{
    RandomState::new().hash_one(0u64)
}

/// Milliseconds since the Unix epoch, read from `std::time::SystemTime::now`
/// (0 where the clock reads before the epoch). Nothing is promised of the value: it is
/// whatever the system clock reads.
#[verifier::external_body]
pub fn current_time_millis() -> (r: u64)
{
    SystemTime::now().duration_since(UNIX_EPOCH).unwrap_or_default().as_millis() as u64
}

/// A fresh identifier for a node or a solution. Identifiers are drawn at random in
/// `0..=i32::MAX`; they tell objects apart in practice but nothing is proved of their
/// distinctness.
pub fn next_id() -> (id: i32)
    ensures
        id >= 0,
{
    let r = random_u64();
    (r % 0x8000_0000) as i32
}

/// A fresh identifier for an object made from the one whose identifier is `taken`: drawn
/// as by `next_id`, and moved on by one (wrapping to 0 past `i32::MAX`) where it would
/// equal `taken`, so that the new object never carries the identifier it was made from.
pub fn next_id_other_than(taken: i32) -> (id: i32)
    ensures
        id >= 0,
        id != taken,
{
    let id = next_id();
    if id != taken {
        id
    } else if id < i32::MAX {
        id + 1
    } else {
        0
    }
}


/// An index as a mathematical integer.
pub open spec fn to_int(i: usize) -> int {
    i as int
}

/// Sum of a sequence of integers.
pub open spec fn seq_sum(s: Seq<int>) -> int
    decreases s.len(),
{
    if s.len() == 0 { 0 } else { seq_sum(s.drop_last()) + s.last() }
}

/// Largest element of a sequence of integers, and 0 when it is empty or all are smaller.
pub open spec fn seq_max0(s: Seq<int>) -> int
    decreases s.len(),
{
    if s.len() == 0 {
        0
    } else {
        let m = seq_max0(s.drop_last());
        if s.last() > m { s.last() } else { m }
    }
}

/// Sum and maximum of a prefix extended by one element.
pub proof fn lemma_seq_take_step(s: Seq<int>, i: int)
    requires
        0 <= i < s.len(),
    ensures
        seq_sum(s.take(i + 1)) == seq_sum(s.take(i)) + s[i],
        seq_max0(s.take(i + 1)) == if s[i] > seq_max0(s.take(i)) { s[i] } else { seq_max0(s.take(i)) },
{
    assert(s.take(i + 1).drop_last() =~= s.take(i));
}

/// The sum of a prefix of non-negative integers is at most the whole sum.
pub proof fn lemma_seq_sum_prefix_le(s: Seq<int>, i: int)
    requires
        0 <= i <= s.len(),
        forall|k: int| 0 <= k < s.len() ==> s[k] >= 0,
    ensures
        0 <= seq_sum(s.take(i)) <= seq_sum(s),
    decreases s.len() - i,
{
    if i < s.len() {
        lemma_seq_take_step(s, i);
        lemma_seq_sum_prefix_le(s, i + 1);
        lemma_seq_sum_nonneg(s.take(i));
    } else {
        assert(s.take(i) =~= s);
        lemma_seq_sum_nonneg(s);
    }
}

/// The sum of non-negative integers is non-negative.
pub proof fn lemma_seq_sum_nonneg(s: Seq<int>)
    requires
        forall|k: int| 0 <= k < s.len() ==> s[k] >= 0,
    ensures
        seq_sum(s) >= 0,
    decreases s.len(),
{
    if s.len() > 0 {
        lemma_seq_sum_nonneg(s.drop_last());
    }
}

/// The maximum of a prefix is at most the maximum of the whole sequence.
pub proof fn lemma_seq_max0_prefix_le(s: Seq<int>, i: int)
    requires
        0 <= i <= s.len(),
    ensures
        0 <= seq_max0(s.take(i)) <= seq_max0(s),
    decreases s.len() - i,
{
    if i < s.len() {
        lemma_seq_take_step(s, i);
        lemma_seq_max0_prefix_le(s, i + 1);
        lemma_seq_max0_nonneg(s.take(i));
    } else {
        assert(s.take(i) =~= s);
        lemma_seq_max0_nonneg(s);
    }
}

/// The maximum from 0 is not negative.
pub proof fn lemma_seq_max0_nonneg(s: Seq<int>)
    ensures
        seq_max0(s) >= 0,
    decreases s.len(),
{
    if s.len() > 0 {
        lemma_seq_max0_nonneg(s.drop_last());
    }
}


/// The characters that have the Unicode `White_Space` property (those that `str::trim`
/// removes).
pub open spec fn is_white_space(c: char) -> bool {
    ||| c == ' '
    ||| ('\t' <= c && c <= '\r')
    ||| c == '\u{85}'
    ||| c == '\u{a0}'
    ||| c == '\u{1680}'
    ||| ('\u{2000}' <= c && c <= '\u{200a}')
    ||| c == '\u{2028}'
    ||| c == '\u{2029}'
    ||| c == '\u{202f}'
    ||| c == '\u{205f}'
    ||| c == '\u{3000}'
}

/// Number of white-space characters at the start of `s`.
pub open spec fn leading_space(s: Seq<char>) -> nat
    decreases s.len(),
{
    if s.len() > 0 && is_white_space(s[0]) { 1 + leading_space(s.drop_first()) } else { 0 }
}

/// Number of white-space characters at the end of `s`.
pub open spec fn trailing_space(s: Seq<char>) -> nat
    decreases s.len(),
{
    if s.len() > 0 && is_white_space(s.last()) { 1 + trailing_space(s.drop_last()) } else { 0 }
}

/// `s` without white space at either end.
pub open spec fn trimmed(s: Seq<char>) -> Seq<char> {
    let t = s.skip(leading_space(s) as int);
    t.take(t.len() - trailing_space(t))
}

/// Whether `c` has the Unicode `White_Space` property.
pub fn white_space(c: char) -> (b: bool)
    ensures
        b == is_white_space(c),
{
    c == ' ' || ('\t' <= c && c <= '\r') || c == '\u{85}' || c == '\u{a0}' || c == '\u{1680}'
        || ('\u{2000}' <= c && c <= '\u{200a}') || c == '\u{2028}' || c == '\u{2029}'
        || c == '\u{202f}' || c == '\u{205f}' || c == '\u{3000}'
}

/// Leading white space spans the first `i` characters exactly when they are white space
/// and the next one is not.
proof fn lemma_leading_space(s: Seq<char>, i: int)
    requires
        0 <= i <= s.len(),
        forall|k: int| 0 <= k < i ==> is_white_space(#[trigger] s[k]),
        i == s.len() || !is_white_space(s[i]),
    ensures
        leading_space(s) == i,
    decreases i,
{
    if i > 0 {
        assert forall|k: int| 0 <= k < i - 1 implies is_white_space(#[trigger] s.drop_first()[k]) by {
            assert(s.drop_first()[k] == s[k + 1]);
        }
        if i - 1 < s.drop_first().len() {
            assert(s.drop_first()[i - 1] == s[i]);
        }
        lemma_leading_space(s.drop_first(), i - 1);
    }
}

/// Trailing white space spans the last `i` characters exactly when they are white space
/// and the one before is not.
proof fn lemma_trailing_space(s: Seq<char>, i: int)
    requires
        0 <= i <= s.len(),
        forall|k: int| s.len() - i <= k < s.len() ==> is_white_space(#[trigger] s[k]),
        i == s.len() || !is_white_space(s[s.len() - i - 1]),
    ensures
        trailing_space(s) == i,
    decreases i,
{
    if i > 0 {
        assert forall|k: int| s.drop_last().len() - (i - 1) <= k < s.drop_last().len()
            implies is_white_space(#[trigger] s.drop_last()[k]) by {
            assert(s.drop_last()[k] == s[k]);
        }
        lemma_trailing_space(s.drop_last(), i - 1);
    }
}

/// `s` without white space at either end, as `str::trim` gives it.
pub fn trim_text(s: &str) -> (r: String)
    ensures
        r@ == trimmed(s@),
{
    let n = s.unicode_len();
    let mut i: usize = 0;
    while i < n && white_space(s.get_char(i))
        invariant
            0 <= i <= n,
            n == s@.len(),
            forall|k: int| 0 <= k < i ==> is_white_space(#[trigger] s@[k]),
        decreases n - i,
    {
        i = i + 1;
    }
    proof { lemma_leading_space(s@, i as int); }
    let mut j: usize = n;
    while j > i && white_space(s.get_char(j - 1))
        invariant
            i <= j <= n,
            n == s@.len(),
            forall|k: int| j <= k < n ==> is_white_space(#[trigger] s@[k]),
        decreases j - i,
    {
        j = j - 1;
    }
    proof {
        let t = s@.skip(i as int);
        assert forall|k: int| t.len() - (n - j) <= k < t.len() implies is_white_space(#[trigger] t[k]) by {
            assert(t[k] == s@[k + i]);
        }
        if j > i {
            assert(t[t.len() - (n - j) - 1] == s@[j - 1]);
        }
        lemma_trailing_space(t, (n - j) as int);
        assert(t.take(t.len() - (n - j)) =~= s@.subrange(i as int, j as int));
    }
    let sub = s.substring_char(i, j);
    sub.to_string()
}

/// ASCII letters in upper case, other characters unchanged.
pub open spec fn ascii_upper(c: char) -> char {
    if 'a' <= c && c <= 'z' { ((c as u32) - 32) as char } else { c }
}

/// ASCII letters in lower case, other characters unchanged.
pub open spec fn ascii_lower(c: char) -> char {
    if 'A' <= c && c <= 'Z' { ((c as u32) + 32) as char } else { c }
}

/// The text that `str::to_uppercase` gives for `s` (full Unicode case mapping).
pub uninterp spec fn uppercase_of(s: Seq<char>) -> Seq<char>;

/// The text that `str::to_lowercase` gives for `s` (full Unicode case mapping).
pub uninterp spec fn lowercase_of(s: Seq<char>) -> Seq<char>;

/// `str::to_uppercase`: the text with every character mapped to upper case by the
/// Unicode rules. The result is named: it depends on the text alone. Of ASCII text, the
/// standard library's documentation shows that each letter maps to its ASCII upper case
/// and nothing else changes; that is stated too.
#[verifier::external_body]
pub fn to_uppercase(s: &str) -> (r: String)
    ensures
        r@ == uppercase_of(s@),
        (forall|k: int| 0 <= k < s@.len() ==> (#[trigger] s@[k]) < '\u{80}') ==> r@ == s@.map_values(|c: char| ascii_upper(c)),
{
    s.to_uppercase()
}

/// `str::to_lowercase`: the text with every character mapped to lower case by the
/// Unicode rules. The result is named: it depends on the text alone. Of ASCII text, each
/// letter maps to its ASCII lower case and nothing else changes; that is stated too.
#[verifier::external_body]
pub fn to_lowercase(s: &str) -> (r: String)
    ensures
        r@ == lowercase_of(s@),
        (forall|k: int| 0 <= k < s@.len() ==> (#[trigger] s@[k]) < '\u{80}') ==> r@ == s@.map_values(|c: char| ascii_lower(c)),
{
    s.to_lowercase()
}

/// Whether two texts are equal.
pub fn same_text(a: &str, b: &str) -> (r: bool)
    ensures
        r == (a@ == b@),
{
    let n = a.unicode_len();
    if n != b.unicode_len() {
        return false;
    }
    let mut i: usize = 0;
    while i < n
        invariant
            0 <= i <= n,
            n == a@.len(),
            n == b@.len(),
            forall|k: int| 0 <= k < i ==> a@[k] == b@[k],
        decreases n - i,
    {
        if a.get_char(i) != b.get_char(i) {
            return false;
        }
        i = i + 1;
    }
    proof { assert(a@ =~= b@); }
    true
}

} // verus!
