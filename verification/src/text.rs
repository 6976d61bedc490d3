//! Character-level helpers shared by the rest of the library: decimal
//! rendering, digit parsing, UTF-8 widths, truncation and trimming.
use vstd::prelude::*;
use vstd::utf8::*;

verus! {

/// `String::push` appends one character.
pub assume_specification[ String::push ](string: &mut String, ch: char)
    ensures
        final(string)@ == old(string)@.push(ch),
;

/// The character view of an optional string.
pub open spec fn opt_view(o: Option<String>) -> Option<Seq<char>> {
    match o {
        Some(s) => Some(s@),
        None => None,
    }
}

/// An ASCII letter or digit.
pub open spec fn is_ascii_alnum(c: char) -> bool {
    ||| '0' <= c <= '9'
    ||| 'a' <= c <= 'z'
    ||| 'A' <= c <= 'Z'
}

/// `c` with ASCII upper-case letters mapped to lower case.
pub open spec fn ascii_lower(c: char) -> char {
    if 'A' <= c <= 'Z' {
        ((c as u32) + 32) as char
    } else {
        c
    }
}

/// An ASCII decimal digit.
pub open spec fn is_digit(c: char) -> bool {
    '0' <= c <= '9'
}

/// The ASCII digit for a value below ten.
pub open spec fn digit_char(d: nat) -> char {
    ((48 + d) as u8) as char
}

/// The value of an ASCII digit.
pub open spec fn digit_value(c: char) -> nat {
    ((c as u32) - 48) as nat
}

/// Decimal representation of a natural number, as `Display` prints it.
pub open spec fn dec(n: nat) -> Seq<char>
    decreases n,
{
    if n < 10 {
        seq![digit_char(n)]
    } else {
        dec(n / 10).push(digit_char(n % 10))
    }
}

/// The number that a string of decimal digits denotes (leading zeros allowed).
pub open spec fn digits_value(s: Seq<char>) -> nat
    decreases s.len(),
{
    if s.len() == 0 {
        0
    } else {
        digits_value(s.drop_last()) * 10 + digit_value(s.last())
    }
}

/// Every character of `s` is an ASCII digit.
pub open spec fn all_digits(s: Seq<char>) -> bool {
    forall|i: int| 0 <= i < s.len() ==> is_digit(#[trigger] s[i])
}

proof fn lemma_digit_char(d: nat)
    requires
        d < 10,
    ensures
        is_digit(digit_char(d)),
        digit_value(digit_char(d)) == d,
{
    let b: u8 = (48 + d) as u8;
    assert(b as u32 == 48 + d);
}

/// `dec` yields a non-empty string of digits whose value is the number itself.
pub proof fn lemma_dec_value(n: nat)
    ensures
        dec(n).len() >= 1,
        all_digits(dec(n)),
        digits_value(dec(n)) == n,
    decreases n,
{
    if n < 10 {
        lemma_digit_char(n);
        assert(dec(n).drop_last() =~= Seq::<char>::empty());
        assert(dec(n).last() == digit_char(n));
        assert(digits_value(dec(n)) == digits_value(Seq::<char>::empty()) * 10 + digit_value(
            digit_char(n),
        ));
    } else {
        lemma_dec_value(n / 10);
        lemma_digit_char(n % 10);
        assert(dec(n).drop_last() =~= dec(n / 10));
        assert(dec(n).last() == digit_char(n % 10));
        assert(digits_value(dec(n)) == digits_value(dec(n / 10)) * 10 + digit_value(
            digit_char(n % 10),
        ));
        assert(n == (n / 10) * 10 + n % 10);
    }
}

/// Distinct numbers have distinct decimal renderings.
pub proof fn lemma_dec_injective(a: nat, b: nat)
    ensures
        dec(a) == dec(b) ==> a == b,
{
    lemma_dec_value(a);
    lemma_dec_value(b);
}

/// Renders `n` in decimal.
pub fn dec_string(n: u64) -> (s: String)
    ensures
        s@ == dec(n as nat),
    decreases n,
{
    if n < 10 {
        let mut s = String::new();
        s.push(((48 + n) as u8) as char);
        s
    } else {
        let mut s = dec_string(n / 10);
        s.push(((48 + n % 10) as u8) as char);
        s
    }
}

/// The characters of `s`, in order.
pub fn chars_of(s: &str) -> (v: Vec<char>)
    ensures
        v@ == s@,
{
    let mut v: Vec<char> = Vec::new();
    for c in iter: s.chars()
        invariant
            v@ == iter.seq().take(iter.index() as int),
    {
        v.push(c);
    }
    v
}

/// Appends the characters `v[from..to]` to `s`.
pub fn push_chars(s: &mut String, v: &Vec<char>, from: usize, to: usize)
    requires
        from <= to <= v@.len(),
    ensures
        final(s)@ == old(s)@ + v@.subrange(from as int, to as int),
{
    let mut i = from;
    while i < to
        invariant
            from <= i <= to <= v@.len(),
            s@ == old(s)@ + v@.subrange(from as int, i as int),
        decreases to - i,
    {
        s.push(v[i]);
        i = i + 1;
        assert(v@.subrange(from as int, i as int) =~= v@.subrange(from as int, (i - 1) as int).push(
            v@[i - 1],
        ));
    }
}

/// Whether two strings hold the same characters.
pub fn str_eq(a: &str, b: &str) -> (r: bool)
    ensures
        r == (a@ == b@),
{
    let va = chars_of(a);
    let vb = chars_of(b);
    if va.len() != vb.len() {
        return false;
    }
    let mut i: usize = 0;
    while i < va.len()
        invariant
            va@ == a@,
            vb@ == b@,
            va@.len() == vb@.len(),
            i <= va@.len(),
            forall|k: int| 0 <= k < i ==> va@[k] == vb@[k],
        decreases va.len() - i,
    {
        if va[i] != vb[i] {
            return false;
        }
        i = i + 1;
    }
    assert(a@ =~= b@);
    true
}

// ---------------------------------------------------------------------------
// UTF-8 byte lengths
// ---------------------------------------------------------------------------

/// Number of bytes in the UTF-8 encoding of `s` (what `str::len` reports).
pub open spec fn utf8_len(s: Seq<char>) -> nat {
    encode_utf8(s).len()
}

/// Number of bytes in the UTF-8 encoding of one character.
pub open spec fn char_width(c: char) -> nat {
    encode_scalar(c as u32).len()
}

/// The encoding of a concatenation is the concatenation of the encodings.
pub proof fn lemma_encode_utf8_add(a: Seq<char>, b: Seq<char>)
    ensures
        encode_utf8(a + b) == encode_utf8(a) + encode_utf8(b),
    decreases a.len(),
{
    if a.len() == 0 {
        assert(a + b =~= b);
        assert(encode_utf8(a) =~= Seq::<u8>::empty());
        assert(encode_utf8(a) + encode_utf8(b) =~= encode_utf8(b));
    } else {
        lemma_encode_utf8_add(a.drop_first(), b);
        assert((a + b).drop_first() =~= a.drop_first() + b);
        assert((a + b)[0] == a[0]);
        assert(encode_utf8(a + b) =~= encode_scalar(a[0] as u32) + encode_utf8(a.drop_first() + b));
        assert(encode_utf8(a) =~= encode_scalar(a[0] as u32) + encode_utf8(a.drop_first()));
    }
}

/// Appending one character adds its width to the byte length.
pub proof fn lemma_utf8_len_push(a: Seq<char>, c: char)
    ensures
        utf8_len(a.push(c)) == utf8_len(a) + char_width(c),
{
    lemma_encode_utf8_add(a, seq![c]);
    assert(a.push(c) =~= a + seq![c]);
    assert(seq![c].drop_first() =~= Seq::<char>::empty());
    assert(encode_utf8(seq![c]) =~= encode_scalar(c as u32) + encode_utf8(Seq::<char>::empty()));
}

/// Width of a character in bytes; between one and four.
pub fn width_of(c: char) -> (w: usize)
    ensures
        w == char_width(c),
        1 <= w <= 4,
{
    let u = c as u32;
    proof {
        char_is_scalar(c);
    }
    if u < 0x80 {
        1
    } else if u < 0x800 {
        2
    } else if u < 0x10000 {
        3
    } else {
        4
    }
}

/// How many leading characters of `s` fit within `max` bytes.
pub open spec fn fit_count(s: Seq<char>, max: nat) -> nat
    decreases s.len(),
{
    if s.len() == 0 {
        0
    } else if char_width(s[0]) > max {
        0
    } else {
        1 + fit_count(s.drop_first(), (max - char_width(s[0])) as nat)
    }
}

/// The ellipsis appended to truncated text.
pub open spec fn ellipsis() -> char {
    '\u{2026}'
}

/// `s` cut to at most `max` bytes on a character boundary, marked with an
/// ellipsis when anything was cut.
pub open spec fn truncated(s: Seq<char>, max: nat) -> Seq<char> {
    if utf8_len(s) <= max {
        s
    } else {
        s.take(fit_count(s, max) as int).push(ellipsis())
    }
}

/// The kept prefix is the longest one within `max` bytes.
pub proof fn lemma_fit_count(s: Seq<char>, max: nat)
    ensures
        fit_count(s, max) <= s.len(),
        utf8_len(s.take(fit_count(s, max) as int)) <= max,
        fit_count(s, max) < s.len() ==> utf8_len(s.take(fit_count(s, max) + 1 as int)) > max,
    decreases s.len(),
{
    let k = fit_count(s, max);
    if s.len() == 0 {
        assert(s.take(0) =~= Seq::<char>::empty());
    } else if char_width(s[0]) > max {
        assert(s.take(0) =~= Seq::<char>::empty());
        assert(s.take(1) =~= seq![s[0]]);
        lemma_utf8_len_push(Seq::<char>::empty(), s[0]);
        assert(Seq::<char>::empty().push(s[0]) =~= seq![s[0]]);
    } else {
        let w = char_width(s[0]);
        let rest = s.drop_first();
        let m = (max - w) as nat;
        lemma_fit_count(rest, m);
        let j = fit_count(rest, m);
        lemma_encode_utf8_add(seq![s[0]], rest.take(j as int));
        assert(s.take(k as int) =~= seq![s[0]] + rest.take(j as int));
        lemma_utf8_len_push(Seq::<char>::empty(), s[0]);
        assert(Seq::<char>::empty().push(s[0]) =~= seq![s[0]]);
        if k < s.len() {
            lemma_encode_utf8_add(seq![s[0]], rest.take(j + 1 as int));
            assert(s.take(k + 1 as int) =~= seq![s[0]] + rest.take(j + 1 as int));
        }
    }
}

/// Cuts `s` to at most `max` bytes on a character boundary, appending an
/// ellipsis when anything was cut.
pub fn truncate(s: &str, max: usize) -> (r: String)
    ensures
        r@ == truncated(s@, max as nat),
{
    let v = chars_of(s);
    let mut used: usize = 0;
    let mut k: usize = 0;
    proof {
        assert(v@.take(0) =~= Seq::<char>::empty());
        assert(v@.skip(0) =~= v@);
    }
    while k < v.len()
        invariant
            v@ == s@,
            k <= v@.len(),
            used <= max,
            used == utf8_len(v@.take(k as int)),
            fit_count(v@, max as nat) == k + fit_count(v@.skip(k as int), (max - used) as nat),
        ensures
            k < v@.len() ==> char_width(v@[k as int]) > max - used,
        decreases v.len() - k,
    {
        let w = width_of(v[k]);
        if w > max - used {
            break;
        }
        proof {
            let rest = v@.skip(k as int);
            assert(rest[0] == v@[k as int]);
            assert(rest.drop_first() =~= v@.skip(k + 1));
            lemma_utf8_len_push(v@.take(k as int), v@[k as int]);
            assert(v@.take(k as int).push(v@[k as int]) =~= v@.take(k + 1));
        }
        used = used + w;
        k = k + 1;
    }
    if k == v.len() {
        proof {
            assert(v@.take(k as int) =~= v@);
        }
        return s.to_owned();
    }
    proof {
        let rest = v@.skip(k as int);
        assert(rest.len() > 0);
        assert(rest[0] == v@[k as int]);
        assert(char_width(rest[0]) > (max - used) as nat);
        assert(fit_count(rest, (max - used) as nat) == 0);
        assert(fit_count(v@, max as nat) == k);
        lemma_fit_count(v@, max as nat);
        lemma_encode_utf8_add(v@.take(k + 1 as int), v@.skip(k + 1 as int));
        assert(v@.take(k + 1 as int) + v@.skip(k + 1 as int) =~= v@);
    }
    let mut r = String::new();
    push_chars(&mut r, &v, 0, k);
    r.push('\u{2026}');
    proof {
        assert(v@.subrange(0, k as int) =~= v@.take(k as int));
        assert(Seq::<char>::empty() + v@.take(k as int) =~= v@.take(k as int));
    }
    r
}

// ---------------------------------------------------------------------------
// Whitespace
// ---------------------------------------------------------------------------

/// Unicode `White_Space`, the property that `char::is_whitespace` tests.
pub open spec fn is_whitespace(c: char) -> bool {
    let u = c as u32;
    ||| 0x09 <= u <= 0x0D
    ||| u == 0x20
    ||| u == 0x85
    ||| u == 0xA0
    ||| u == 0x1680
    ||| 0x2000 <= u <= 0x200A
    ||| u == 0x2028
    ||| u == 0x2029
    ||| u == 0x202F
    ||| u == 0x205F
    ||| u == 0x3000
}

/// Index of the first character that is not whitespace, at or after `i`.
pub open spec fn first_non_ws(s: Seq<char>, i: int) -> int
    decreases s.len() - i,
{
    if i >= s.len() {
        s.len() as int
    } else if is_whitespace(s[i]) {
        first_non_ws(s, i + 1)
    } else {
        i
    }
}

/// One past the last character that is not whitespace, at or before `j`.
pub open spec fn end_non_ws(s: Seq<char>, j: int) -> int
    decreases j,
{
    if j <= 0 {
        0
    } else if is_whitespace(s[j - 1]) {
        end_non_ws(s, j - 1)
    } else {
        j
    }
}

/// `s` without leading and trailing whitespace, as `str::trim` gives it.
pub open spec fn trimmed(s: Seq<char>) -> Seq<char> {
    let a = first_non_ws(s, 0);
    let b = end_non_ws(s, s.len() as int);
    if a >= b {
        Seq::empty()
    } else {
        s.subrange(a, b)
    }
}

proof fn lemma_first_non_ws(s: Seq<char>, i: int)
    requires
        0 <= i <= s.len(),
    ensures
        i <= first_non_ws(s, i) <= s.len(),
        first_non_ws(s, i) < s.len() ==> !is_whitespace(s[first_non_ws(s, i)]),
        forall|k: int| i <= k < first_non_ws(s, i) ==> is_whitespace(s[k]),
    decreases s.len() - i,
{
    if i < s.len() && is_whitespace(s[i]) {
        lemma_first_non_ws(s, i + 1);
    }
}

proof fn lemma_end_non_ws(s: Seq<char>, j: int)
    requires
        0 <= j <= s.len(),
    ensures
        0 <= end_non_ws(s, j) <= j,
        end_non_ws(s, j) > 0 ==> !is_whitespace(s[end_non_ws(s, j) - 1]),
        forall|k: int| end_non_ws(s, j) <= k < j ==> is_whitespace(s[k]),
    decreases j,
{
    if j > 0 && is_whitespace(s[j - 1]) {
        lemma_end_non_ws(s, j - 1);
    }
}

/// A trimmed string has no whitespace at either end, so trimming it again
/// changes nothing.
pub proof fn lemma_trimmed_idempotent(s: Seq<char>)
    ensures
        trimmed(trimmed(s)) == trimmed(s),
        trimmed(s).len() > 0 ==> !is_whitespace(trimmed(s)[0]) && !is_whitespace(
            trimmed(s).last(),
        ),
{
    lemma_first_non_ws(s, 0);
    lemma_end_non_ws(s, s.len() as int);
    let t = trimmed(s);
    if t.len() > 0 {
        let a = first_non_ws(s, 0);
        let b = end_non_ws(s, s.len() as int);
        assert(t[0] == s[a]);
        assert(t.last() == s[b - 1]);
        assert(first_non_ws(t, 0) == 0);
        assert(end_non_ws(t, t.len() as int) == t.len());
        assert(t.subrange(0, t.len() as int) =~= t);
    } else {
        assert(trimmed(t) =~= t);
    }
}

/// Trimming takes off only whitespace, and only at the ends: the text is
/// some whitespace, then the trimmed text, then some whitespace; in
/// particular text without whitespace at its ends is kept whole.
pub proof fn lemma_trimmed_takes_only_end_whitespace(s: Seq<char>)
    ensures
        exists|a: int, b: int|
            0 <= a <= b <= s.len() && #[trigger] s.subrange(a, b) == trimmed(s) && (forall|k: int|
                0 <= k < a ==> is_whitespace(s[k])) && (forall|k: int|
                b <= k < s.len() ==> is_whitespace(s[k])),
        s.len() > 0 && !is_whitespace(s[0]) && !is_whitespace(s.last()) ==> trimmed(s) == s,
{
    lemma_first_non_ws(s, 0);
    lemma_end_non_ws(s, s.len() as int);
    let a = first_non_ws(s, 0);
    let b = end_non_ws(s, s.len() as int);
    if a >= b {
        assert(s.subrange(a, a) =~= trimmed(s));
        assert forall|k: int| a <= k < s.len() implies is_whitespace(s[k]) by {
            if k >= b {
            } else {
                assert(k < a);
            }
        }
        assert(s.subrange(a, a) == trimmed(s));
    } else {
        assert(s.subrange(a, b) == trimmed(s));
    }
    if s.len() > 0 && !is_whitespace(s[0]) && !is_whitespace(s.last()) {
        assert(a == 0);
        assert(b == s.len());
        assert(s.subrange(0, s.len() as int) =~= s);
    }
}

/// Whether `c` is Unicode whitespace.
pub fn char_is_whitespace(c: char) -> (r: bool)
    ensures
        r == is_whitespace(c),
{
    let u = c as u32;
    (0x09 <= u && u <= 0x0D) || u == 0x20 || u == 0x85 || u == 0xA0 || u == 0x1680 || (0x2000
        <= u && u <= 0x200A) || u == 0x2028 || u == 0x2029 || u == 0x202F || u == 0x205F || u
        == 0x3000
}

/// `s` without leading and trailing whitespace.
pub fn trim(s: &str) -> (r: String)
    ensures
        r@ == trimmed(s@),
{
    let v = chars_of(s);
    let mut a: usize = 0;
    while a < v.len() && char_is_whitespace(v[a])
        invariant
            v@ == s@,
            a <= v@.len(),
            first_non_ws(v@, 0) == first_non_ws(v@, a as int),
        decreases v.len() - a,
    {
        a = a + 1;
    }
    let mut b: usize = v.len();
    while b > 0 && char_is_whitespace(v[b - 1])
        invariant
            v@ == s@,
            b <= v@.len(),
            end_non_ws(v@, v@.len() as int) == end_non_ws(v@, b as int),
        decreases b,
    {
        b = b - 1;
    }
    let mut r = String::new();
    if a < b {
        push_chars(&mut r, &v, a, b);
        assert(Seq::<char>::empty() + v@.subrange(a as int, b as int) =~= v@.subrange(
            a as int,
            b as int,
        ));
    }
    r
}

} // verus!
