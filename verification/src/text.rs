//! Text as sequences of characters: conversion, trimming, byte budgets and
//! decimal numbers.

use vstd::prelude::*;
use vstd::utf8::*;

verus! {

broadcast use vstd::string::group_string_axioms;

/// `String::push` of std appends one character at the end.
pub assume_specification[ String::push ](s: &mut String, c: char)
    ensures
        final(s)@ == old(s)@.push(c),
;

/// The characters of `s`, in order.
pub fn chars_of(s: &str) -> (r: Vec<char>)
    ensures
        r@ == s@,
{
    let mut out: Vec<char> = Vec::new();
    for c in it: s.chars()
        invariant
            out@ == it.seq().take(it.index() as int),
            it.seq() == s@,
    {
        out.push(c);
    }
    out
}

/// The string made of `chars`, in order.
pub fn string_of(chars: &[char]) -> (r: String)
    ensures
        r@ == chars@,
{
    let mut out: String = String::new();
    let mut i: usize = 0;
    while i < chars.len()
        invariant
            i <= chars@.len(),
            out@ == chars@.take(i as int),
        decreases chars@.len() - i,
    {
        out.push(chars[i]);
        i = i + 1;
        assert(chars@.take(i as int) =~= chars@.take(i - 1).push(chars@[i - 1]));
    }
    assert(chars@.take(i as int) =~= chars@);
    out
}

/// Whether two strings hold the same characters.
pub fn same_text(a: &str, b: &str) -> (r: bool)
    ensures
        r == (a@ == b@),
{
    let x = chars_of(a);
    let y = chars_of(b);
    same_chars(x.as_slice(), y.as_slice())
}

/// Whether two slices hold the same characters.
pub fn same_chars(a: &[char], b: &[char]) -> (r: bool)
    ensures
        r == (a@ == b@),
{
    if a.len() != b.len() {
        return false;
    }
    let mut i: usize = 0;
    while i < a.len()
        invariant
            a@.len() == b@.len(),
            i <= a@.len(),
            forall|k: int| 0 <= k < i ==> a@[k] == b@[k],
        decreases a@.len() - i,
    {
        if a[i] != b[i] {
            return false;
        }
        i = i + 1;
    }
    assert(a@ =~= b@);
    true
}

/// The characters of `chars` from `from` up to, not counting, `to`.
pub fn slice_chars(chars: &[char], from: usize, to: usize) -> (r: Vec<char>)
    requires
        from <= to <= chars@.len(),
    ensures
        r@ == chars@.subrange(from as int, to as int),
{
    let mut out: Vec<char> = Vec::new();
    let mut i: usize = from;
    while i < to
        invariant
            from <= i <= to <= chars@.len(),
            out@ == chars@.subrange(from as int, i as int),
        decreases to - i,
    {
        out.push(chars[i]);
        i = i + 1;
        assert(chars@.subrange(from as int, i as int) =~= chars@.subrange(
            from as int,
            i - 1,
        ).push(chars@[i - 1]));
    }
    out
}

/// The string `a` followed by the string `b`.
pub fn joined(a: &str, b: &str) -> (r: String)
    ensures
        r@ == a@ + b@,
{
    let mut out: String = a.to_owned();
    out.append(b);
    out
}

// --- ASCII case ---

/// `c` with an ASCII capital made small, any other character unchanged.
pub open spec fn ascii_lower(c: char) -> char {
    if 'A' <= c && c <= 'Z' {
        ((c as u32 + 32) as u32) as char
    } else {
        c
    }
}

/// Every character of `s` through [`ascii_lower`].
pub open spec fn lowered(s: Seq<char>) -> Seq<char> {
    s.map_values(|c: char| ascii_lower(c))
}

/// `c` with an ASCII capital made small.
pub fn lower_char(c: char) -> (r: char)
    ensures
        r == ascii_lower(c),
{
    if c < 'A' || c > 'Z' {
        return c;
    }
    let byte: u8 = c as u8;
    (byte + 32) as char
}

/// `chars` with every ASCII capital made small.
pub fn lower_chars(chars: &[char]) -> (r: Vec<char>)
    ensures
        r@ == lowered(chars@),
{
    let mut out: Vec<char> = Vec::new();
    let mut i: usize = 0;
    while i < chars.len()
        invariant
            i <= chars@.len(),
            out@ == lowered(chars@.take(i as int)),
        decreases chars@.len() - i,
    {
        out.push(lower_char(chars[i]));
        i = i + 1;
        assert(lowered(chars@.take(i as int)) =~= lowered(chars@.take(i - 1)).push(
            ascii_lower(chars@[i - 1]),
        ));
    }
    assert(chars@.take(i as int) =~= chars@);
    out
}

// --- Prefixes, suffixes, parts ---

/// Whether `s` begins with `p`.
pub open spec fn begins(s: Seq<char>, p: Seq<char>) -> bool {
    p.len() <= s.len() && s.take(p.len() as int) == p
}

/// Whether `s` ends with `p`.
pub open spec fn ends(s: Seq<char>, p: Seq<char>) -> bool {
    p.len() <= s.len() && s.skip(s.len() - p.len()) == p
}

/// Whether `p` occurs in `s` as consecutive characters.
pub open spec fn holds(s: Seq<char>, p: Seq<char>) -> bool {
    exists|i: int| 0 <= i <= s.len() - p.len() && #[trigger] s.subrange(i, i + p.len()) == p
}

/// Whether `p` stands in `s` from position `at` on.
pub fn stands_at(s: &[char], p: &[char], at: usize) -> (r: bool)
    ensures
        r == (at + p@.len() <= s@.len() && s@.subrange(at as int, at + p@.len()) == p@),
{
    if at > s.len() || s.len() - at < p.len() {
        return false;
    }
    let end: usize = s.len();
    let mut i: usize = 0;
    while i < p.len()
        invariant
            end == s@.len(),
            at + p@.len() <= end,
            i <= p@.len(),
            forall|k: int| 0 <= k < i ==> s@[at + k] == p@[k],
        decreases p@.len() - i,
    {
        if s[at + i] != p[i] {
            assert(s@.subrange(at as int, at + p@.len())[i as int] != p@[i as int]);
            return false;
        }
        i = i + 1;
    }
    assert(s@.subrange(at as int, at + p@.len()) =~= p@);
    true
}

/// Whether `s` begins with `p`.
pub fn begins_with(s: &[char], p: &[char]) -> (r: bool)
    ensures
        r == begins(s@, p@),
{
    assert(p@.len() <= s@.len() ==> s@.subrange(0, p@.len() as int) =~= s@.take(p@.len() as int));
    stands_at(s, p, 0)
}

/// Whether `s` ends with `p`.
pub fn ends_with(s: &[char], p: &[char]) -> (r: bool)
    ensures
        r == ends(s@, p@),
{
    if p.len() > s.len() {
        return false;
    }
    let at: usize = s.len() - p.len();
    assert(s@.subrange(at as int, at + p@.len()) =~= s@.skip(at as int));
    stands_at(s, p, at)
}

/// Whether `p` occurs in `s`.
pub fn contains_part(s: &[char], p: &[char]) -> (r: bool)
    ensures
        r == holds(s@, p@),
{
    if p.len() > s.len() {
        return false;
    }
    let last: usize = s.len() - p.len();
    let mut i: usize = 0;
    while i < last
        invariant
            i <= last,
            last == s@.len() - p@.len(),
            forall|k: int| 0 <= k < i ==> #[trigger] s@.subrange(k, k + p@.len()) != p@,
        decreases last - i,
    {
        if stands_at(s, p, i) {
            return true;
        }
        i = i + 1;
    }
    stands_at(s, p, last)
}

/// Whether `c` occurs in `s`.
pub fn contains_char(s: &[char], c: char) -> (r: bool)
    ensures
        r == s@.contains(c),
{
    let mut i: usize = 0;
    while i < s.len()
        invariant
            i <= s@.len(),
            forall|k: int| 0 <= k < i ==> s@[k] != c,
        decreases s@.len() - i,
    {
        if s[i] == c {
            return true;
        }
        i = i + 1;
    }
    false
}

// --- White space ---

/// The characters with the Unicode property `White_Space`.
pub open spec fn white(c: char) -> bool {
    ||| '\u{9}' <= c && c <= '\u{d}'
    ||| c == ' '
    ||| c == '\u{85}'
    ||| c == '\u{a0}'
    ||| c == '\u{1680}'
    ||| '\u{2000}' <= c && c <= '\u{200a}'
    ||| c == '\u{2028}'
    ||| c == '\u{2029}'
    ||| c == '\u{202f}'
    ||| c == '\u{205f}'
    ||| c == '\u{3000}'
}

/// `s` without its leading white space.
pub open spec fn trimmed_start(s: Seq<char>) -> Seq<char>
    decreases s.len(),
{
    if s.len() > 0 && white(s[0]) {
        trimmed_start(s.drop_first())
    } else {
        s
    }
}

/// `s` without its trailing white space.
pub open spec fn trimmed_end(s: Seq<char>) -> Seq<char>
    decreases s.len(),
{
    if s.len() > 0 && white(s.last()) {
        trimmed_end(s.drop_last())
    } else {
        s
    }
}

/// `s` without leading and trailing white space.
pub open spec fn trimmed(s: Seq<char>) -> Seq<char> {
    trimmed_end(trimmed_start(s))
}

/// Whether `c` is white space.
pub fn is_white(c: char) -> (r: bool)
    ensures
        r == white(c),
{
    ('\u{9}' <= c && c <= '\u{d}') || c == ' ' || c == '\u{85}' || c == '\u{a0}' || c
        == '\u{1680}' || ('\u{2000}' <= c && c <= '\u{200a}') || c == '\u{2028}' || c
        == '\u{2029}' || c == '\u{202f}' || c == '\u{205f}' || c == '\u{3000}'
}

/// `chars` without leading and trailing white space.
pub fn trim_chars(chars: &[char]) -> (r: Vec<char>)
    ensures
        r@ == trimmed(chars@),
{
    let n: usize = chars.len();
    let mut from: usize = 0;
    assert(chars@.skip(0) =~= chars@);
    while from < n && is_white(chars[from])
        invariant
            from <= n == chars@.len(),
            trimmed_start(chars@) == trimmed_start(chars@.skip(from as int)),
        decreases n - from,
    {
        assert(chars@.skip(from as int).drop_first() =~= chars@.skip(from + 1));
        from = from + 1;
    }
    let mut to: usize = n;
    assert(chars@.skip(from as int) =~= chars@.subrange(from as int, to as int));
    while to > from && is_white(chars[to - 1])
        invariant
            from <= to <= n == chars@.len(),
            trimmed(chars@) == trimmed_end(chars@.subrange(from as int, to as int)),
        decreases to,
    {
        assert(chars@.subrange(from as int, to as int).drop_last() =~= chars@.subrange(
            from as int,
            to - 1,
        ));
        to = to - 1;
    }
    slice_chars(chars, from, to)
}

/// Whether nothing is left of `s` once white space is trimmed.
pub fn is_blank(s: &str) -> (r: bool)
    ensures
        r == (trimmed(s@).len() == 0),
{
    let t = trim_chars(chars_of(s).as_slice());
    t.len() == 0
}

// --- Byte budgets ---

/// The number of bytes of `s` in UTF-8.
pub open spec fn byte_len(s: Seq<char>) -> nat {
    encode_utf8(s).len()
}

/// The longest suffix of `s` that takes at most `budget` bytes.
pub open spec fn tail_within(s: Seq<char>, budget: nat) -> Seq<char>
    decreases s.len(),
{
    if byte_len(s) <= budget || s.len() == 0 {
        s
    } else {
        tail_within(s.drop_first(), budget)
    }
}

/// The longest prefix of `s` that takes at most `budget` bytes.
pub open spec fn head_within(s: Seq<char>, budget: nat) -> Seq<char>
    decreases s.len(),
{
    if byte_len(s) <= budget || s.len() == 0 {
        s
    } else {
        head_within(s.drop_last(), budget)
    }
}

/// The number of bytes of `c` in UTF-8.
pub fn char_width(c: char) -> (r: usize)
    ensures
        r == encode_scalar(c as u32).len(),
        1 <= r <= 4,
{
    let v: u32 = c as u32;
    if v < 0x80 {
        1
    } else if v < 0x800 {
        2
    } else if v < 0x10000 {
        3
    } else {
        4
    }
}

/// The number of bytes of `s` in UTF-8.
pub fn byte_length(s: &str) -> (r: usize)
    ensures
        r == byte_len(s@),
{
    s.as_bytes().len()
}

/// The longest suffix of `s` that takes at most `budget` bytes of UTF-8.
pub fn tail_text(s: &str, budget: usize) -> (r: String)
    ensures
        r@ == tail_within(s@, budget as nat),
{
    string_of(keep_tail(chars_of(s).as_slice(), budget).as_slice())
}

/// The longest prefix of `s` that takes at most `budget` bytes of UTF-8.
pub fn head_text(s: &str, budget: usize) -> (r: String)
    ensures
        r@ == head_within(s@, budget as nat),
{
    string_of(keep_head(chars_of(s).as_slice(), budget).as_slice())
}

/// The encoding of a concatenation is the concatenation of the encodings.
pub proof fn lemma_encode_concat(a: Seq<char>, b: Seq<char>)
    ensures
        encode_utf8(a + b) == encode_utf8(a) + encode_utf8(b),
    decreases a.len(),
{
    if a.len() == 0 {
        assert(a + b =~= b);
        assert(encode_utf8(a) + encode_utf8(b) =~= encode_utf8(b));
    } else {
        lemma_encode_concat(a.drop_first(), b);
        assert((a + b).drop_first() =~= a.drop_first() + b);
        assert(encode_utf8(a + b) =~= encode_utf8(a) + encode_utf8(b));
    }
}

/// The byte length of a concatenation is the sum of the byte lengths.
pub proof fn lemma_byte_len_concat(a: Seq<char>, b: Seq<char>)
    ensures
        byte_len(a + b) == byte_len(a) + byte_len(b),
{
    lemma_encode_concat(a, b);
}

/// The byte length of one character.
pub proof fn lemma_byte_len_one(c: char)
    ensures
        byte_len(seq![c]) == encode_scalar(c as u32).len(),
{
    assert(seq![c].drop_first() =~= Seq::<char>::empty());
    assert(encode_utf8(Seq::<char>::empty()) =~= Seq::<u8>::empty());
    reveal_with_fuel(encode_utf8, 2);
}

proof fn lemma_tail_within_at(s: Seq<char>, budget: nat, k: int)
    requires
        0 <= k <= s.len(),
        byte_len(s.skip(k)) <= budget,
        k > 0 ==> byte_len(s.skip(k - 1)) > budget,
    ensures
        tail_within(s, budget) == s.skip(k),
    decreases k,
{
    if k == 0 {
        assert(s.skip(0) =~= s);
    } else {
        assert(s.take(k - 1) + s.skip(k - 1) =~= s);
        lemma_byte_len_concat(s.take(k - 1), s.skip(k - 1));
        assert(s.drop_first().skip(k - 1) =~= s.skip(k));
        if k > 1 {
            assert(s.drop_first().skip(k - 2) =~= s.skip(k - 1));
        }
        lemma_tail_within_at(s.drop_first(), budget, k - 1);
    }
}

proof fn lemma_head_within_at(s: Seq<char>, budget: nat, k: int)
    requires
        0 <= k <= s.len(),
        byte_len(s.take(k)) <= budget,
        k < s.len() ==> byte_len(s.take(k + 1)) > budget,
    ensures
        head_within(s, budget) == s.take(k),
    decreases s.len() - k,
{
    if k == s.len() {
        assert(s.take(k) =~= s);
    } else {
        assert(s.take(k + 1) + s.skip(k + 1) =~= s);
        lemma_byte_len_concat(s.take(k + 1), s.skip(k + 1));
        assert(s.drop_last().take(k) =~= s.take(k));
        if k + 1 < s.len() {
            assert(s.drop_last().take(k + 1) =~= s.take(k + 1));
        }
        lemma_head_within_at(s.drop_last(), budget, k);
    }
}

/// A suffix cut to a byte budget keeps within it, and is the text itself where the
/// text already fits.
pub proof fn lemma_tail_within(s: Seq<char>, budget: nat)
    ensures
        byte_len(tail_within(s, budget)) <= budget,
        byte_len(s) <= budget ==> tail_within(s, budget) == s,
    decreases s.len(),
{
    if byte_len(s) > budget && s.len() > 0 {
        lemma_tail_within(s.drop_first(), budget);
    }
}

/// A prefix cut to a byte budget keeps within it, and is the text itself where the
/// text already fits.
pub proof fn lemma_head_within(s: Seq<char>, budget: nat)
    ensures
        byte_len(head_within(s, budget)) <= budget,
        byte_len(s) <= budget ==> head_within(s, budget) == s,
    decreases s.len(),
{
    if byte_len(s) > budget && s.len() > 0 {
        lemma_head_within(s.drop_last(), budget);
    }
}

/// What is cut to its last bytes is a suffix that fits, and no longer suffix fits.
pub proof fn law_tail_is_longest_suffix(s: Seq<char>, budget: nat)
    ensures
        ({
            let t = tail_within(s, budget);
            &&& t.len() <= s.len()
            &&& t == s.skip(s.len() - t.len())
            &&& encode_utf8(t).len() <= budget
            &&& forall|k: int|
                0 <= k < s.len() - t.len() ==> encode_utf8(#[trigger] s.skip(k)).len() > budget
        }),
    decreases s.len(),
{
    lemma_tail_within(s, budget);
    let t = tail_within(s, budget);
    if byte_len(s) <= budget || s.len() == 0 {
        assert(s.skip(0) =~= s);
    } else {
        let rest = s.drop_first();
        law_tail_is_longest_suffix(rest, budget);
        assert(rest.skip(rest.len() - t.len()) =~= s.skip(s.len() - t.len()));
        assert forall|k: int| 0 <= k < s.len() - t.len() implies encode_utf8(
            #[trigger] s.skip(k),
        ).len() > budget by {
            if k == 0 {
                assert(s.skip(0) =~= s);
            } else {
                assert(s.skip(k) =~= rest.skip(k - 1));
            }
        }
    }
}

/// What is cut to its first bytes is a prefix that fits, and no longer prefix fits.
pub proof fn law_head_is_longest_prefix(s: Seq<char>, budget: nat)
    ensures
        ({
            let t = head_within(s, budget);
            &&& t.len() <= s.len()
            &&& t == s.take(t.len() as int)
            &&& encode_utf8(t).len() <= budget
            &&& forall|k: int|
                t.len() < k <= s.len() ==> encode_utf8(#[trigger] s.take(k)).len() > budget
        }),
    decreases s.len(),
{
    lemma_head_within(s, budget);
    let t = head_within(s, budget);
    if byte_len(s) <= budget || s.len() == 0 {
        assert(s.take(s.len() as int) =~= s);
    } else {
        let rest = s.drop_last();
        law_head_is_longest_prefix(rest, budget);
        assert(rest.take(t.len() as int) =~= s.take(t.len() as int));
        assert forall|k: int| t.len() < k <= s.len() implies encode_utf8(
            #[trigger] s.take(k),
        ).len() > budget by {
            if k == s.len() {
                assert(s.take(k) =~= s);
            } else {
                assert(s.take(k) =~= rest.take(k));
            }
        }
    }
}

/// The longest suffix of `chars` that takes at most `budget` bytes of UTF-8.
pub fn keep_tail(chars: &[char], budget: usize) -> (r: Vec<char>)
    ensures
        r@ == tail_within(chars@, budget as nat),
{
    let n: usize = chars.len();
    let mut k: usize = n;
    let mut bytes: usize = 0;
    assert(chars@.skip(n as int) =~= Seq::<char>::empty());
    while k > 0
        invariant
            k <= n == chars@.len(),
            bytes <= budget,
            byte_len(chars@.skip(k as int)) == bytes,
        ensures
            k > 0 ==> byte_len(chars@.skip(k - 1)) > budget,
        decreases k,
    {
        let w: usize = char_width(chars[k - 1]);
        assert(chars@.skip(k - 1).drop_first() =~= chars@.skip(k as int));
        if w > budget - bytes {
            break;
        }
        bytes = bytes + w;
        k = k - 1;
    }
    proof {
        lemma_tail_within_at(chars@, budget as nat, k as int);
        assert(chars@.subrange(k as int, n as int) =~= chars@.skip(k as int));
    }
    slice_chars(chars, k, n)
}

/// The longest prefix of `chars` that takes at most `budget` bytes of UTF-8.
pub fn keep_head(chars: &[char], budget: usize) -> (r: Vec<char>)
    ensures
        r@ == head_within(chars@, budget as nat),
{
    let n: usize = chars.len();
    let mut k: usize = 0;
    let mut bytes: usize = 0;
    assert(chars@.take(0) =~= Seq::<char>::empty());
    while k < n
        invariant
            k <= n == chars@.len(),
            bytes <= budget,
            byte_len(chars@.take(k as int)) == bytes,
        ensures
            k < n ==> byte_len(chars@.take(k + 1)) > budget,
        decreases n - k,
    {
        let w: usize = char_width(chars[k]);
        proof {
            assert(chars@.take(k + 1) =~= chars@.take(k as int) + seq![chars@[k as int]]);
            lemma_byte_len_concat(chars@.take(k as int), seq![chars@[k as int]]);
            lemma_byte_len_one(chars@[k as int]);
        }
        if w > budget - bytes {
            break;
        }
        bytes = bytes + w;
        k = k + 1;
    }
    proof {
        lemma_head_within_at(chars@, budget as nat, k as int);
        assert(chars@.subrange(0, k as int) =~= chars@.take(k as int));
    }
    slice_chars(chars, 0, k)
}

// --- Lists of texts ---

/// The first `n` texts with `sep` between them.
pub open spec fn listed(parts: Seq<String>, sep: Seq<char>, n: nat) -> Seq<char>
    decreases n,
{
    if n == 0 {
        Seq::empty()
    } else if n == 1 {
        parts[0]@
    } else {
        listed(parts, sep, (n - 1) as nat) + sep + parts[n - 1]@
    }
}

/// The texts with `sep` between them.
pub fn list(parts: &Vec<String>, sep: &str) -> (r: String)
    ensures
        r@ == listed(parts@, sep@, parts@.len()),
{
    let mut out: String = String::new();
    let mut i: usize = 0;
    while i < parts.len()
        invariant
            i <= parts@.len(),
            out@ == listed(parts@, sep@, i as nat),
        decreases parts@.len() - i,
    {
        if i == 0 {
            out = parts[0].clone();
        } else {
            out.append(sep);
            out.append(parts[i].as_str());
        }
        i = i + 1;
    }
    out
}

// --- Bytes as text ---

/// The text that `String::from_utf8_lossy` makes of bytes.
pub uninterp spec fn utf8_lossy(bytes: Seq<u8>) -> Seq<char>;

/// `String::from_utf8_lossy` of std, as an owned string. It is a function of the bytes
/// alone; bytes that are valid UTF-8 give the text that they encode. What is put in the
/// place of invalid bytes is left to std.
#[verifier::external_body]
pub(crate) fn lossy_text(bytes: &[u8]) -> (r: String)
    ensures
        r@ == utf8_lossy(bytes@),
        valid_utf8(bytes@) ==> r@ == decode_utf8(bytes@),
{
    String::from_utf8_lossy(bytes).into_owned()
}

// --- Decimal numbers ---

/// The character of one decimal digit.
pub open spec fn digit_char(d: nat) -> char {
    (48 + d) as char
}

/// The decimal digits of `n`, without leading zeros.
pub open spec fn decimal(n: nat) -> Seq<char>
    decreases n,
{
    if n < 10 {
        seq![digit_char(n)]
    } else {
        decimal(n / 10).push(digit_char(n % 10))
    }
}

/// Whether `c` is an ASCII decimal digit.
pub open spec fn digit(c: char) -> bool {
    '0' <= c && c <= '9'
}

/// Whether every character of `s` is an ASCII decimal digit.
pub open spec fn all_digits(s: Seq<char>) -> bool {
    forall|i: int| 0 <= i < s.len() ==> digit(#[trigger] s[i])
}

/// The number that the digits of `s` write in base ten.
pub open spec fn digits_value(s: Seq<char>) -> nat
    decreases s.len(),
{
    if s.len() == 0 {
        0
    } else {
        (digits_value(s.drop_last()) * 10 + (s.last() as int - 48)) as nat
    }
}

/// `s` without one leading plus sign.
pub open spec fn without_plus(s: Seq<char>) -> Seq<char> {
    if s.len() > 0 && s[0] == '+' {
        s.drop_first()
    } else {
        s
    }
}

/// The unsigned number that `s` writes, where it writes one of at most `max`: an
/// optional plus sign and one or more digits.
pub open spec fn unsigned_value(s: Seq<char>, max: nat) -> Option<nat> {
    let d = without_plus(s);
    if d.len() > 0 && all_digits(d) && digits_value(d) <= max {
        Some(digits_value(d))
    } else {
        None
    }
}

/// The digits of `n` write `n`.
pub proof fn lemma_decimal_value(n: nat)
    ensures
        decimal(n).len() > 0,
        all_digits(decimal(n)),
        digits_value(decimal(n)) == n,
    decreases n,
{
    if n < 10 {
        assert(decimal(n).drop_last() =~= Seq::<char>::empty());
        assert(digits_value(Seq::<char>::empty()) == 0);
    } else {
        lemma_decimal_value(n / 10);
        assert(decimal(n).drop_last() =~= decimal(n / 10));
        assert(decimal(n).last() == digit_char(n % 10));
    }
}

/// Reading what was written gives the number back.
pub proof fn lemma_unsigned_of_decimal(n: nat, max: nat)
    requires
        n <= max,
    ensures
        unsigned_value(decimal(n), max) == Some(n),
{
    lemma_decimal_value(n);
    assert(digit(decimal(n)[0]));
}

proof fn lemma_digits_value_prefix(s: Seq<char>, k: int)
    requires
        all_digits(s),
        0 <= k <= s.len(),
    ensures
        digits_value(s.take(k)) <= digits_value(s),
    decreases s.len() - k,
{
    if k == s.len() {
        assert(s.take(k) =~= s);
    } else {
        lemma_digits_value_prefix(s, k + 1);
        assert(s.take(k + 1).drop_last() =~= s.take(k));
        assert(s.take(k + 1).last() == s[k]);
        assert(digit(s[k]));
    }
}

/// Whether `c` is an ASCII decimal digit.
pub fn is_digit(c: char) -> (r: bool)
    ensures
        r == digit(c),
{
    '0' <= c && c <= '9'
}

/// The decimal digits of `n`.
pub fn decimal_chars(n: u64) -> (r: Vec<char>)
    ensures
        r@ == decimal(n as nat),
    decreases n,
{
    if n < 10 {
        let b: u8 = n as u8;
        let mut out: Vec<char> = Vec::new();
        out.push((48 + b) as char);
        assert(out@ =~= decimal(n as nat));
        out
    } else {
        let mut out = decimal_chars(n / 10);
        let b: u8 = (n % 10) as u8;
        out.push((48 + b) as char);
        out
    }
}

/// The decimal digits of `n`.
pub fn decimal_text(n: u64) -> (r: String)
    ensures
        r@ == decimal(n as nat),
{
    string_of(decimal_chars(n).as_slice())
}

/// The unsigned number that `s` writes, where it writes one of at most `max`.
pub fn parse_unsigned(s: &[char], max: u64) -> (r: Option<u64>)
    ensures
        match r {
            Some(v) => unsigned_value(s@, max as nat) == Some(v as nat),
            None => unsigned_value(s@, max as nat) is None,
        },
{
    let n: usize = s.len();
    let from: usize = if n > 0 && s[0] == '+' {
        1
    } else {
        0
    };
    let ghost d = without_plus(s@);
    assert(d =~= s@.skip(from as int));
    if from == n {
        return None;
    }
    let mut acc: u64 = 0;
    let mut i: usize = from;
    assert(d.take(0) =~= Seq::<char>::empty());
    while i < n
        invariant
            from <= i <= n == s@.len(),
            from < n,
            d == s@.skip(from as int),
            d == without_plus(s@),
            forall|k: int| 0 <= k < i - from ==> digit(#[trigger] d[k]),
            acc == digits_value(d.take(i - from)),
            acc <= max,
        decreases n - i,
    {
        let c: char = s[i];
        assert(d[i - from] == c);
        if !is_digit(c) {
            return None;
        }
        let v: u64 = (c as u32 - 48) as u64;
        assert(d.take(i - from + 1).drop_last() =~= d.take(i - from));
        assert(d.take(i - from + 1).last() == c);
        let wide: u128 = acc as u128 * 10 + v as u128;
        if wide > max as u128 {
            proof {
                if all_digits(d) {
                    lemma_digits_value_prefix(d, i - from + 1);
                }
            }
            return None;
        }
        acc = wide as u64;
        i = i + 1;
    }
    assert(d.take(n - from) =~= d);
    Some(acc)
}

/// What is trimmed is what lies between the first and the last character that is no white
/// space, and nothing where there is none.
pub proof fn law_trimmed_is_between_white_space(s: Seq<char>) -> (r: (int, int))
    ensures
        ({
            let (from, to) = r;
            let t = trimmed(s);
            &&& 0 <= from <= to <= s.len()
            &&& t == s.subrange(from, to)
            &&& forall|i: int| 0 <= i < from ==> white(#[trigger] s[i])
            &&& forall|i: int| to <= i < s.len() ==> white(#[trigger] s[i])
            &&& t.len() > 0 ==> !white(t[0]) && !white(t.last())
        }),
{
    let from = lemma_trimmed_start(s);
    let rest = s.skip(from);
    let len = lemma_trimmed_end(rest);
    let to = from + len;
    assert(rest.take(len) =~= s.subrange(from, to));
    assert forall|i: int| to <= i < s.len() implies white(#[trigger] s[i]) by {
        assert(rest[i - from] == s[i]);
    }
    if len > 0 {
        assert(rest.take(len)[0] == rest[0]);
    }
    (from, to)
}

proof fn lemma_trimmed_start(s: Seq<char>) -> (from: int)
    ensures
        0 <= from <= s.len(),
        trimmed_start(s) == s.skip(from),
        forall|i: int| 0 <= i < from ==> white(#[trigger] s[i]),
        from < s.len() ==> !white(s[from]),
    decreases s.len(),
{
    if s.len() > 0 && white(s[0]) {
        let rest = s.drop_first();
        let n = lemma_trimmed_start(rest);
        assert(rest.skip(n) =~= s.skip(n + 1));
        assert forall|i: int| 0 <= i < n + 1 implies white(#[trigger] s[i]) by {
            if i > 0 {
                assert(rest[i - 1] == s[i]);
            }
        }
        n + 1
    } else {
        assert(s.skip(0) =~= s);
        0
    }
}

proof fn lemma_trimmed_end(s: Seq<char>) -> (to: int)
    ensures
        0 <= to <= s.len(),
        trimmed_end(s) == s.take(to),
        forall|i: int| to <= i < s.len() ==> white(#[trigger] s[i]),
        to > 0 ==> !white(s[to - 1]),
    decreases s.len(),
{
    if s.len() > 0 && white(s.last()) {
        let init = s.drop_last();
        let n = lemma_trimmed_end(init);
        assert(init.take(n) =~= s.take(n));
        assert forall|i: int| n <= i < s.len() implies white(#[trigger] s[i]) by {
            if i < init.len() {
                assert(init[i] == s[i]);
            }
        }
        n
    } else {
        assert(s.take(s.len() as int) =~= s);
        s.len() as int
    }
}

/// A number is written in tens: a digit by itself, any other with its last digit behind the
/// rest.
pub proof fn law_decimal_is_in_tens(n: nat, d: nat)
    requires
        d < 10,
    ensures
        decimal(d) == seq![(48 + d) as char],
        n > 0 ==> decimal(10 * n + d) == decimal(n).push((48 + d) as char),
{
    if n > 0 {
        assert((10 * n + d) / 10 == n && (10 * n + d) % 10 == d);
    }
}

/// Only capital letters of ASCII are made small.
pub proof fn law_lowered_changes_capitals_only(s: Seq<char>, i: int)
    requires
        0 <= i < s.len(),
    ensures
        lowered(s).len() == s.len(),
        'A' <= s[i] && s[i] <= 'Z' ==> lowered(s)[i] as int == s[i] as int + 32,
        !('A' <= s[i] && s[i] <= 'Z') ==> lowered(s)[i] == s[i],
{
}

/// A list holds its texts in their order, with the separator between any two that follow
/// each other and nowhere else.
pub proof fn law_list_is_in_order(parts: Seq<String>, sep: Seq<char>, n: nat, k: nat)
    requires
        0 < k < n <= parts.len(),
    ensures
        listed(parts, sep, 0) == Seq::<char>::empty(),
        listed(parts, sep, 1) == parts[0]@,
        listed(parts, sep, n) == listed(parts, sep, k) + sep + listed(
            parts.skip(k as int),
            sep,
            (n - k) as nat,
        ),
    decreases n,
{
    let rest = parts.skip(k as int);
    assert(rest[n - k - 1] == parts[n - 1]);
    if k == n - 1 {
        assert(listed(rest, sep, 1) == rest[0]@);
    } else {
        law_list_is_in_order(parts, sep, (n - 1) as nat, k);
        let a = listed(parts, sep, k);
        let b = listed(rest, sep, (n - 1 - k) as nat);
        let last = parts[n - 1]@;
        assert((a + sep + b) + sep + last =~= a + sep + (b + sep + last));
    }
}

/// A number is read as it is written, with a plus sign in front or without, and with zeros
/// in front or without; one beyond the most is not read, nor is anything with another
/// character in it.
pub proof fn law_number_is_read_as_written(n: nat, max: nat, zeros: nat, s: Seq<char>, at: int)
    requires
        0 <= at < s.len(),
        !('0' <= s[at] && s[at] <= '9'),
        at > 0 || s[0] != '+' || s.len() == 1,
    ensures
        ({
            let read = if n <= max {
                Some(n)
            } else {
                None
            };
            let padded = Seq::new(zeros, |i: int| '0') + decimal(n);
            &&& unsigned_value(decimal(n), max) == read
            &&& unsigned_value(padded, max) == read
            &&& unsigned_value(seq!['+'] + padded, max) == read
        }),
        unsigned_value(s, max) is None,
        unsigned_value(Seq::empty(), max) is None,
{
    let pad = Seq::new(zeros, |i: int| '0');
    let padded = pad + decimal(n);
    lemma_decimal_value(n);
    assert(digit(decimal(n)[0]));
    lemma_zeros_in_front(zeros, decimal(n));
    assert forall|i: int| 0 <= i < padded.len() implies digit(#[trigger] padded[i]) by {
        if i >= zeros {
            assert(padded[i] == decimal(n)[i - zeros]);
        }
    }
    assert(digit(padded[0]));
    assert((seq!['+'] + padded).drop_first() =~= padded);
    let d = without_plus(s);
    if s[0] == '+' {
        if s.len() > 1 {
            assert(d[at - 1] == s[at]);
            assert(!digit(d[at - 1]));
        }
    } else {
        assert(!digit(d[at]));
    }
}

proof fn lemma_zeros_in_front(zeros: nat, s: Seq<char>)
    requires
        all_digits(s),
    ensures
        digits_value(Seq::new(zeros, |i: int| '0') + s) == digits_value(s),
    decreases zeros + s.len(),
{
    let pad = Seq::new(zeros, |i: int| '0');
    let all = pad + s;
    if s.len() > 0 {
        assert(all.drop_last() =~= pad + s.drop_last());
        assert(all.last() == s.last());
        assert(all_digits(s.drop_last())) by {
            assert forall|i: int| 0 <= i < s.len() - 1 implies digit(#[trigger] s.drop_last()[i]) by {
                assert(digit(s[i]));
            }
        }
        lemma_zeros_in_front(zeros, s.drop_last());
    } else if zeros > 0 {
        let fewer = Seq::new((zeros - 1) as nat, |i: int| '0');
        assert(all.drop_last() =~= fewer + s);
        lemma_zeros_in_front((zeros - 1) as nat, s);
        assert(digits_value(s) == 0);
        assert(all.last() == '0');
    }
}

} // verus!
