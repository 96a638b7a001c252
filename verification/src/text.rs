//! Byte-level text helpers shared by the version parser and the feed
//! scanners: digit runs and their decimal value, searching for a delimiter
//! byte, prefix/suffix tests, whitespace trimming, and rendering a number
//! back to decimal text.

use vstd::prelude::*;
use vstd::string::StringExecFns;

verus! {

/// An ASCII decimal digit byte, `'0'` through `'9'`.
pub open spec fn is_digit_byte(b: u8) -> bool {
    48 <= b <= 57
}

/// Numeric value of a run of ASCII digit bytes, most significant first.
pub open spec fn dec_value(s: Seq<u8>) -> nat
    decreases s.len(),
{
    if s.len() == 0 {
        0
    } else {
        (dec_value(s.drop_last()) * 10 + (s.last() - 48)) as nat
    }
}

/// Length of the longest prefix of `s` made of ASCII digit bytes.
pub open spec fn digits_prefix_len(s: Seq<u8>) -> int
    decreases s.len(),
{
    if s.len() == 0 || !is_digit_byte(s[0]) {
        0
    } else {
        1 + digits_prefix_len(s.drop_first())
    }
}

/// The longest digit prefix of `s`.
pub open spec fn digits_prefix(s: Seq<u8>) -> Seq<u8> {
    s.take(digits_prefix_len(s))
}

pub proof fn lemma_digits_prefix_len_facts(s: Seq<u8>)
    ensures
        0 <= digits_prefix_len(s) <= s.len(),
        forall|j: int| 0 <= j < digits_prefix_len(s) ==> is_digit_byte(#[trigger] s[j]),
        digits_prefix_len(s) < s.len() ==> !is_digit_byte(s[digits_prefix_len(s)]),
    decreases s.len(),
{
    if s.len() == 0 || !is_digit_byte(s[0]) {
    } else {
        lemma_digits_prefix_len_facts(s.drop_first());
        assert forall|j: int| 0 <= j < digits_prefix_len(s) implies is_digit_byte(
            #[trigger] s[j],
        ) by {
            if j > 0 {
                assert(s[j] == s.drop_first()[j - 1]);
            }
        }
        if digits_prefix_len(s) < s.len() {
            assert(s[digits_prefix_len(s)] == s.drop_first()[digits_prefix_len(s) - 1]);
        }
    }
}

pub proof fn lemma_digits_prefix_len_is(s: Seq<u8>, n: int)
    requires
        0 <= n <= s.len(),
        forall|j: int| 0 <= j < n ==> is_digit_byte(#[trigger] s[j]),
        n < s.len() ==> !is_digit_byte(s[n]),
    ensures
        digits_prefix_len(s) == n,
    decreases s.len(),
{
    if s.len() == 0 {
    } else if n == 0 {
    } else {
        assert(is_digit_byte(s[0]));
        assert forall|j: int| 0 <= j < n - 1 implies is_digit_byte(
            #[trigger] s.drop_first()[j],
        ) by {
            assert(s.drop_first()[j] == s[j + 1]);
        }
        if n - 1 < s.drop_first().len() {
            assert(s.drop_first()[n - 1] == s[n]);
        }
        lemma_digits_prefix_len_is(s.drop_first(), n - 1);
    }
}

/// Index of the first occurrence of `b` in `s`, if any.
pub open spec fn first_byte_index(s: Seq<u8>, b: u8) -> Option<int>
    decreases s.len(),
{
    if s.len() == 0 {
        None
    } else if s[0] == b {
        Some(0)
    } else {
        match first_byte_index(s.drop_first(), b) {
            None => None,
            Some(i) => Some(1 + i),
        }
    }
}

pub proof fn lemma_first_byte_index_is(s: Seq<u8>, b: u8, i: int)
    requires
        0 <= i < s.len(),
        s[i] == b,
        forall|j: int| 0 <= j < i ==> #[trigger] s[j] != b,
    ensures
        first_byte_index(s, b) == Some(i),
    decreases s.len(),
{
    if i == 0 {
    } else {
        assert forall|j: int| 0 <= j < i - 1 implies #[trigger] s.drop_first()[j] != b by {
            assert(s.drop_first()[j] == s[j + 1]);
        }
        assert(s.drop_first()[i - 1] == s[i]);
        lemma_first_byte_index_is(s.drop_first(), b, i - 1);
    }
}

pub proof fn lemma_first_byte_index_none(s: Seq<u8>, b: u8)
    requires
        forall|j: int| 0 <= j < s.len() ==> #[trigger] s[j] != b,
    ensures
        first_byte_index(s, b) is None,
    decreases s.len(),
{
    if s.len() > 0 {
        assert forall|j: int| 0 <= j < s.drop_first().len() implies #[trigger] s.drop_first()[j]
            != b by {
            assert(s.drop_first()[j] == s[j + 1]);
        }
        lemma_first_byte_index_none(s.drop_first(), b);
    }
}

pub proof fn lemma_first_byte_index_bounds(s: Seq<u8>, b: u8)
    ensures
        match first_byte_index(s, b) {
            Some(i) => 0 <= i < s.len() && s[i] == b,
            None => true,
        },
    decreases s.len(),
{
    if s.len() > 0 && s[0] != b {
        lemma_first_byte_index_bounds(s.drop_first(), b);
    }
}

/// The part of `t` before the first occurrence of `b` (all of `t` when `b`
/// does not occur).
pub open spec fn head_until(t: Seq<u8>, b: u8) -> Seq<u8> {
    match first_byte_index(t, b) {
        Some(i) => t.take(i),
        None => t,
    }
}

/// The part of `t` after the first occurrence of `b`, if `b` occurs.
pub open spec fn tail_after(t: Seq<u8>, b: u8) -> Option<Seq<u8>> {
    match first_byte_index(t, b) {
        Some(i) => Some(t.skip(i + 1)),
        None => None,
    }
}

/// Splits `t` at the first occurrence of `b`: the head before it, and the
/// tail after it when `b` occurs at all.
pub fn split_at_byte<'a>(t: &'a [u8], b: u8) -> (r: (&'a [u8], Option<&'a [u8]>))
    ensures
        r.0@ == head_until(t@, b),
        r.1 is Some <==> tail_after(t@, b) is Some,
        r.1 is Some ==> tail_after(t@, b) == Some(r.1.unwrap()@),
{
    let n: usize = t.len();
    let mut i: usize = 0;
    while i < n && t[i] != b
        invariant
            0 <= i <= n,
            n == t@.len(),
            forall|j: int| 0 <= j < i ==> #[trigger] t@[j] != b,
        decreases n - i,
    {
        i = i + 1;
    }
    if i < n {
        proof {
            lemma_first_byte_index_is(t@, b, i as int);
        }
        (&t[0..i], Some(&t[i + 1..n]))
    } else {
        proof {
            lemma_first_byte_index_none(t@, b);
            assert(t@.take(n as int) =~= t@);
        }
        (&t[0..n], None)
    }
}

/// True when `p` is a prefix of `l`.
pub open spec fn has_prefix(l: Seq<u8>, p: Seq<u8>) -> bool {
    l.len() >= p.len() && l.take(p.len() as int) == p
}

/// True when `p` is a suffix of `l`.
pub open spec fn has_suffix(l: Seq<u8>, p: Seq<u8>) -> bool {
    l.len() >= p.len() && l.skip(l.len() - p.len()) == p
}

pub fn slice_has_prefix(l: &[u8], p: &[u8]) -> (r: bool)
    ensures
        r == has_prefix(l@, p@),
{
    let pn: usize = p.len();
    if l.len() < pn {
        return false;
    }
    let mut i: usize = 0;
    while i < pn
        invariant
            0 <= i <= pn,
            pn == p@.len(),
            pn <= l@.len(),
            forall|j: int| 0 <= j < i ==> #[trigger] l@[j] == p@[j],
        decreases pn - i,
    {
        if l[i] != p[i] {
            proof {
                assert(l@.take(pn as int)[i as int] != p@[i as int]);
            }
            return false;
        }
        i = i + 1;
    }
    proof {
        assert(l@.take(pn as int) =~= p@);
    }
    true
}

pub fn slice_has_suffix(l: &[u8], p: &[u8]) -> (r: bool)
    ensures
        r == has_suffix(l@, p@),
{
    let pn: usize = p.len();
    let ln: usize = l.len();
    if ln < pn {
        return false;
    }
    let off: usize = ln - pn;
    let mut i: usize = 0;
    while i < pn
        invariant
            0 <= i <= pn,
            pn == p@.len(),
            ln == l@.len(),
            pn <= ln,
            off == ln - pn,
            forall|j: int| 0 <= j < i ==> #[trigger] l@[off + j] == p@[j],
        decreases pn - i,
    {
        if l[off + i] != p[i] {
            proof {
                assert(l@.skip(off as int)[i as int] == l@[off + i]);
            }
            return false;
        }
        i = i + 1;
    }
    proof {
        assert forall|j: int| 0 <= j < pn implies l@.skip(off as int)[j] == p@[j] by {
            assert(l@[off + j] == p@[j]);
        }
        assert(l@.skip(off as int) =~= p@);
    }
    true
}

/// Parses the longest digit prefix of `s` as a `u32`: `None` when there is
/// no leading digit, or when the digit run's value exceeds `u32::MAX`.
pub open spec fn spec_parse_u32_prefix(s: Seq<u8>) -> Option<u32> {
    if digits_prefix_len(s) == 0 {
        None
    } else if dec_value(digits_prefix(s)) > u32::MAX {
        None
    } else {
        Some(dec_value(digits_prefix(s)) as u32)
    }
}

/// Parses `s` as a `u32` when it is wholly a digit run: `None` when `s` is
/// empty, holds a non-digit, or its value exceeds `u32::MAX`.
pub open spec fn spec_parse_u32_strict(s: Seq<u8>) -> Option<u32> {
    if s.len() == 0 || digits_prefix_len(s) < s.len() || dec_value(s) > u32::MAX {
        None
    } else {
        Some(dec_value(s) as u32)
    }
}

/// Scans the digit prefix of `s`, returning its length, its value when that
/// value fits a `u32`, and whether it overflowed.
fn scan_digit_prefix(s: &[u8]) -> (r: (usize, u32, bool))
    ensures
        r.0 == digits_prefix_len(s@),
        !r.2 ==> r.1 == dec_value(digits_prefix(s@)),
        r.2 == (dec_value(digits_prefix(s@)) > u32::MAX),
{
    let n: usize = s.len();
    let mut i: usize = 0;
    let mut val: u32 = 0;
    let mut over: bool = false;
    while i < n && 48 <= s[i] && s[i] <= 57
        invariant
            0 <= i <= n,
            n == s@.len(),
            forall|j: int| 0 <= j < i ==> is_digit_byte(#[trigger] s@[j]),
            !over ==> val == dec_value(s@.take(i as int)),
            over ==> dec_value(s@.take(i as int)) > u32::MAX,
        decreases n - i,
    {
        let d: u32 = (s[i] - 48) as u32;
        proof {
            assert(s@.take(i as int + 1).drop_last() =~= s@.take(i as int));
            assert(s@.take(i as int + 1).last() == s@[i as int]);
        }
        if over || val > u32::MAX / 10 || (val == u32::MAX / 10 && d > u32::MAX % 10) {
            over = true;
        } else {
            val = val * 10 + d;
        }
        i = i + 1;
    }
    proof {
        lemma_digits_prefix_len_is(s@, i as int);
    }
    (i, val, over)
}

/// Parses the longest digit prefix of `s` as a `u32`.
pub fn parse_u32_prefix(s: &[u8]) -> (r: Option<u32>)
    ensures
        r == spec_parse_u32_prefix(s@),
{
    let (n, val, over) = scan_digit_prefix(s);
    if n == 0 || over {
        None
    } else {
        Some(val)
    }
}

/// Parses `s` as a `u32` when it is wholly a digit run.
pub fn parse_u32_strict(s: &[u8]) -> (r: Option<u32>)
    ensures
        r == spec_parse_u32_strict(s@),
{
    let (n, val, over) = scan_digit_prefix(s);
    proof {
        lemma_digits_prefix_len_facts(s@);
        if digits_prefix_len(s@) == s@.len() {
            assert(digits_prefix(s@) =~= s@);
        }
    }
    if n < s.len() || n == 0 || over {
        None
    } else {
        Some(val)
    }
}

/// An ASCII whitespace byte, as trimming removes at a value's ends.
pub open spec fn is_ws_byte(b: u8) -> bool {
    b == 32 || b == 9 || b == 10 || b == 11 || b == 12 || b == 13
}

/// `s` with its leading ASCII whitespace removed.
pub open spec fn trim_front(s: Seq<u8>) -> Seq<u8>
    decreases s.len(),
{
    if s.len() > 0 && is_ws_byte(s[0]) {
        trim_front(s.drop_first())
    } else {
        s
    }
}

/// `s` with its trailing ASCII whitespace removed.
pub open spec fn trim_back(s: Seq<u8>) -> Seq<u8>
    decreases s.len(),
{
    if s.len() > 0 && is_ws_byte(s.last()) {
        trim_back(s.drop_last())
    } else {
        s
    }
}

/// `s` with ASCII whitespace removed at both ends.
pub open spec fn trim_ws(s: Seq<u8>) -> Seq<u8> {
    trim_back(trim_front(s))
}

proof fn lemma_trim_front_is(s: Seq<u8>, i: int)
    requires
        0 <= i <= s.len(),
        forall|j: int| 0 <= j < i ==> is_ws_byte(#[trigger] s[j]),
        i < s.len() ==> !is_ws_byte(s[i]),
    ensures
        trim_front(s) == s.skip(i),
    decreases s.len(),
{
    if i == 0 {
        assert(s.skip(0) =~= s);
    } else {
        assert(is_ws_byte(s[0]));
        assert forall|j: int| 0 <= j < i - 1 implies is_ws_byte(#[trigger] s.drop_first()[j]) by {
            assert(s.drop_first()[j] == s[j + 1]);
        }
        if i - 1 < s.drop_first().len() {
            assert(s.drop_first()[i - 1] == s[i]);
        }
        lemma_trim_front_is(s.drop_first(), i - 1);
        assert(s.drop_first().skip(i - 1) =~= s.skip(i));
    }
}

proof fn lemma_trim_back_is(s: Seq<u8>, i: int)
    requires
        0 <= i <= s.len(),
        forall|j: int| i <= j < s.len() ==> is_ws_byte(#[trigger] s[j]),
        i > 0 ==> !is_ws_byte(s[i - 1]),
    ensures
        trim_back(s) == s.take(i),
    decreases s.len(),
{
    if i == s.len() {
        assert(s.take(i) =~= s);
    } else {
        assert(is_ws_byte(s.last()));
        assert forall|j: int| i <= j < s.drop_last().len() implies is_ws_byte(
            #[trigger] s.drop_last()[j],
        ) by {
            assert(s.drop_last()[j] == s[j]);
        }
        lemma_trim_back_is(s.drop_last(), i);
        assert(s.drop_last().take(i) =~= s.take(i));
    }
}

/// Removes ASCII whitespace at both ends of `s`.
pub fn trim_ws_slice<'a>(s: &'a [u8]) -> (r: &'a [u8])
    ensures
        r@ == trim_ws(s@),
{
    let n: usize = s.len();
    let mut a: usize = 0;
    while a < n && (s[a] == 32 || s[a] == 9 || s[a] == 10 || s[a] == 11 || s[a] == 12 || s[a]
        == 13)
        invariant
            0 <= a <= n,
            n == s@.len(),
            forall|j: int| 0 <= j < a ==> is_ws_byte(#[trigger] s@[j]),
        decreases n - a,
    {
        a = a + 1;
    }
    proof {
        lemma_trim_front_is(s@, a as int);
    }
    let mut b: usize = n;
    while b > a && (s[b - 1] == 32 || s[b - 1] == 9 || s[b - 1] == 10 || s[b - 1] == 11 || s[b
        - 1] == 12 || s[b - 1] == 13)
        invariant
            a <= b <= n,
            n == s@.len(),
            forall|j: int| b <= j < n ==> is_ws_byte(#[trigger] s@[j]),
        decreases b,
    {
        b = b - 1;
    }
    proof {
        let front = s@.skip(a as int);
        assert forall|j: int| b - a <= j < front.len() implies is_ws_byte(
            #[trigger] front[j],
        ) by {
            assert(front[j] == s@[j + a]);
        }
        if b - a > 0 {
            assert(front[b - a - 1] == s@[b - 1]);
        }
        lemma_trim_back_is(front, b - a as int);
        assert(front.take(b - a as int) =~= s@.subrange(a as int, b as int));
    }
    &s[a..b]
}

/// The decimal digit character for `d`.
pub open spec fn digit_char(d: int) -> char
    recommends
        0 <= d < 10,
{
    ((48 + d) as u8) as char
}

/// Decimal rendering of `n`, most significant digit first, no leading zeros.
pub open spec fn dec_rep(n: nat) -> Seq<char>
    decreases n,
{
    if n < 10 {
        seq![digit_char(n as int)]
    } else {
        dec_rep(n / 10).push(digit_char((n % 10) as int))
    }
}

/// The one-character string for the decimal digit `d`.
fn digit_str(d: u32) -> (r: &'static str)
    requires
        d < 10,
    ensures
        r@ == seq![digit_char(d as int)],
{
    if d == 0 {
        proof {
            reveal_strlit("0");
            assert("0"@ =~= seq![digit_char(0)]);
        }
        "0"
    } else if d == 1 {
        proof {
            reveal_strlit("1");
            assert("1"@ =~= seq![digit_char(1)]);
        }
        "1"
    } else if d == 2 {
        proof {
            reveal_strlit("2");
            assert("2"@ =~= seq![digit_char(2)]);
        }
        "2"
    } else if d == 3 {
        proof {
            reveal_strlit("3");
            assert("3"@ =~= seq![digit_char(3)]);
        }
        "3"
    } else if d == 4 {
        proof {
            reveal_strlit("4");
            assert("4"@ =~= seq![digit_char(4)]);
        }
        "4"
    } else if d == 5 {
        proof {
            reveal_strlit("5");
            assert("5"@ =~= seq![digit_char(5)]);
        }
        "5"
    } else if d == 6 {
        proof {
            reveal_strlit("6");
            assert("6"@ =~= seq![digit_char(6)]);
        }
        "6"
    } else if d == 7 {
        proof {
            reveal_strlit("7");
            assert("7"@ =~= seq![digit_char(7)]);
        }
        "7"
    } else if d == 8 {
        proof {
            reveal_strlit("8");
            assert("8"@ =~= seq![digit_char(8)]);
        }
        "8"
    } else {
        proof {
            reveal_strlit("9");
            assert("9"@ =~= seq![digit_char(9)]);
        }
        "9"
    }
}

/// Renders `n` as decimal text.
pub fn u32_to_dec_string(n: u32) -> (r: String)
    ensures
        r@ == dec_rep(n as nat),
    decreases n,
{
    if n < 10 {
        let mut s = String::new();
        s.append(digit_str(n));
        proof {
            assert(s@ =~= dec_rep(n as nat));
        }
        s
    } else {
        let mut s = u32_to_dec_string(n / 10);
        s.append(digit_str(n % 10));
        proof {
            assert(s@ =~= dec_rep(n as nat));
        }
        s
    }
}

} // verus!
