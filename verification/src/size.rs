//! Checks on the requested image size: `auto` or `WIDTHxHEIGHT`.
use vstd::prelude::*;
use crate::text::{all_digits, chars_of, dec, dec_string, digits_value, is_digit, str_eq};

verus! {

/// Index of the first `c` in `s` at or after `i`, or the length of `s`.
pub open spec fn index_of(s: Seq<char>, c: char, i: int) -> int
    decreases s.len() - i,
{
    if i >= s.len() {
        s.len() as int
    } else if s[i] == c {
        i
    } else {
        index_of(s, c, i + 1)
    }
}

proof fn lemma_index_of(s: Seq<char>, c: char, i: int)
    requires
        0 <= i <= s.len(),
    ensures
        i <= index_of(s, c, i) <= s.len(),
        index_of(s, c, i) < s.len() ==> s[index_of(s, c, i)] == c,
        forall|k: int| i <= k < index_of(s, c, i) ==> s[k] != c,
    decreases s.len() - i,
{
    if i < s.len() && s[i] != c {
        lemma_index_of(s, c, i + 1);
    }
}

/// Position of the first `c` in `v` at or after `from`, or the length.
fn find_char(v: &Vec<char>, c: char, from: usize) -> (k: usize)
    requires
        from <= v@.len(),
    ensures
        k == index_of(v@, c, from as int),
{
    let mut k = from;
    while k < v.len() && v[k] != c
        invariant
            from <= k <= v@.len(),
            index_of(v@, c, from as int) == index_of(v@, c, k as int),
        decreases v.len() - k,
    {
        k = k + 1;
    }
    k
}

/// The two fields of `s` when it holds exactly one `x`.
pub open spec fn size_fields(s: Seq<char>) -> Option<(Seq<char>, Seq<char>)> {
    let k = index_of(s, 'x', 0);
    if k < s.len() && index_of(s, 'x', k + 1) == s.len() {
        Some((s.take(k), s.skip(k + 1)))
    } else {
        None
    }
}

/// `WIDTHxHEIGHT` with both fields non-empty runs of ASCII digits.
pub open spec fn is_dimensions(s: Seq<char>) -> bool {
    match size_fields(s) {
        Some((w, h)) => w.len() > 0 && h.len() > 0 && all_digits(w) && all_digits(h),
        None => false,
    }
}

/// Both dimensions fit in a `u32`.
pub open spec fn dimensions_fit(s: Seq<char>) -> bool {
    match size_fields(s) {
        Some((w, h)) => digits_value(w) <= u32::MAX && digits_value(h) <= u32::MAX,
        None => false,
    }
}

/// Both dimensions are non-zero.
pub open spec fn dimensions_positive(s: Seq<char>) -> bool {
    match size_fields(s) {
        Some((w, h)) => digits_value(w) > 0 && digits_value(h) > 0,
        None => false,
    }
}

/// A size that `validate_size` accepts.
pub open spec fn valid_size(s: Seq<char>) -> bool {
    s == "auto"@ || (is_dimensions(s) && dimensions_fit(s) && dimensions_positive(s))
}

/// Why a size was refused.
#[derive(Debug)]
pub enum SizeError {
    /// Neither `auto` nor two digit fields joined by one `x` (holds the size).
    Malformed(String),
    /// A dimension does not fit in 32 bits.
    TooLarge,
    /// A dimension is zero (holds the size).
    NotPositive(String),
}

/// The text shown for a refused size.
pub open spec fn size_error_message(e: SizeError) -> Seq<char> {
    match e {
        SizeError::Malformed(s) => "invalid size '"@ + s@
            + "': expected WIDTHxHEIGHT (e.g. 1024x1024) or 'auto'"@,
        SizeError::TooLarge => "number too large to fit in target type"@,
        SizeError::NotPositive(s) => "invalid size '"@ + s@ + "': dimensions must be positive"@,
    }
}

/// The message for a refused size, by the first check it fails.
pub open spec fn size_refusal(s: Seq<char>) -> Seq<char> {
    if !is_dimensions(s) {
        "invalid size '"@ + s + "': expected WIDTHxHEIGHT (e.g. 1024x1024) or 'auto'"@
    } else if !dimensions_fit(s) {
        "number too large to fit in target type"@
    } else {
        "invalid size '"@ + s + "': dimensions must be positive"@
    }
}

impl SizeError {
    /// The text shown for this error.
    pub fn message(&self) -> (m: String)
        ensures
            m@ == size_error_message(*self),
    {
        match self {
            SizeError::Malformed(s) => {
                let mut m = String::new();
                m.append("invalid size '");
                m.append(s.as_str());
                m.append("': expected WIDTHxHEIGHT (e.g. 1024x1024) or 'auto'");
                m
            },
            SizeError::TooLarge => "number too large to fit in target type".to_owned(),
            SizeError::NotPositive(s) => {
                let mut m = String::new();
                m.append("invalid size '");
                m.append(s.as_str());
                m.append("': dimensions must be positive");
                m
            },
        }
    }
}

proof fn lemma_digits_value_prefix(s: Seq<char>, i: int)
    requires
        0 <= i <= s.len(),
    ensures
        digits_value(s.take(i)) <= digits_value(s),
    decreases s.len() - i,
{
    if i < s.len() {
        lemma_digits_value_prefix(s, i + 1);
        assert(s.take(i + 1).drop_last() =~= s.take(i));
    } else {
        assert(s.take(i) =~= s);
    }
}

/// The value of the digits `v[from..to]` if it is at most `bound`.
fn digits_at_most(v: &Vec<char>, from: usize, to: usize, bound: u64) -> (r: Option<u64>)
    requires
        from <= to <= v@.len(),
        all_digits(v@.subrange(from as int, to as int)),
    ensures
        r matches Some(x) ==> x == digits_value(v@.subrange(from as int, to as int)),
        r is Some <==> digits_value(v@.subrange(from as int, to as int)) <= bound,
{
    let ghost s = v@.subrange(from as int, to as int);
    let mut acc: u128 = 0;
    let mut i = from;
    proof {
        assert(s.take(0) =~= Seq::<char>::empty());
    }
    while i < to
        invariant
            from <= i <= to <= v@.len(),
            s == v@.subrange(from as int, to as int),
            all_digits(s),
            acc == digits_value(s.take(i - from)),
            acc <= bound,
        decreases to - i,
    {
        let c = v[i];
        proof {
            assert(s[i - from] == c);
            assert(is_digit(c));
            assert(s.take(i - from + 1).drop_last() =~= s.take(i - from));
            assert(s.take(i - from + 1).last() == c);
        }
        let d = ((c as u32) - 48) as u128;
        acc = acc * 10 + d;
        if acc > bound as u128 {
            proof {
                lemma_digits_value_prefix(s, i - from + 1);
            }
            return None;
        }
        i = i + 1;
    }
    proof {
        assert(s.take(to - from) =~= s);
    }
    Some(acc as u64)
}

/// Whether every character of `v` other than the one at `skip` is a digit.
fn digits_except(v: &Vec<char>, skip: usize) -> (r: bool)
    ensures
        r == forall|j: int| 0 <= j < v@.len() && j != skip ==> is_digit(#[trigger] v@[j]),
{
    let mut i: usize = 0;
    while i < v.len()
        invariant
            i <= v@.len(),
            forall|j: int| 0 <= j < i && j != skip ==> is_digit(#[trigger] v@[j]),
        decreases v.len() - i,
    {
        if i != skip && !('0' <= v[i] && v[i] <= '9') {
            return false;
        }
        i = i + 1;
    }
    true
}

/// Checks a `--size` value: `auto`, or `WIDTHxHEIGHT` where both are
/// non-empty runs of ASCII digits whose values fit in 32 bits and are not zero.
pub fn validate_size(size: &str) -> (r: Result<(), SizeError>)
    ensures
        r is Ok <==> valid_size(size@),
        (r matches Err(SizeError::Malformed(_))) <==> (size@ != "auto"@ && !is_dimensions(size@)),
        (r matches Err(SizeError::TooLarge)) <==> (size@ != "auto"@ && is_dimensions(size@)
            && !dimensions_fit(size@)),
        (r matches Err(SizeError::NotPositive(_))) <==> (size@ != "auto"@ && is_dimensions(
            size@,
        ) && dimensions_fit(size@) && !dimensions_positive(size@)),
        r matches Err(SizeError::Malformed(s)) ==> s@ == size@,
        r matches Err(SizeError::NotPositive(s)) ==> s@ == size@,
        r matches Err(e) ==> size_error_message(e) == size_refusal(size@),
{
    if str_eq(size, "auto") {
        return Ok(());
    }
    let v = chars_of(size);
    let k = find_char(&v, 'x', 0);
    proof {
        lemma_index_of(v@, 'x', 0);
    }
    let mut single_x = false;
    if k < v.len() {
        let k2 = find_char(&v, 'x', k + 1);
        single_x = k2 == v.len();
    }
    let ok = single_x && k > 0 && k + 1 < v.len() && digits_except(&v, k);
    let ghost w = v@.take(k as int);
    let ghost h = v@.skip(k + 1 as int);
    proof {
        assert(single_x == (size_fields(size@) is Some));
        if single_x {
            assert(size_fields(size@) == Some((w, h)));
            if all_digits(w) && all_digits(h) {
                assert forall|j: int| 0 <= j < v@.len() && j != k implies is_digit(
                    #[trigger] v@[j],
                ) by {
                    if j < k {
                        assert(v@[j] == w[j]);
                    } else {
                        assert(v@[j] == h[j - k - 1]);
                    }
                }
            }
            if k > 0 && k + 1 < v@.len() && (forall|j: int|
                0 <= j < v@.len() && j != k ==> is_digit(#[trigger] v@[j])) {
                assert forall|j: int| 0 <= j < w.len() implies is_digit(#[trigger] w[j]) by {
                    assert(w[j] == v@[j]);
                }
                assert forall|j: int| 0 <= j < h.len() implies is_digit(#[trigger] h[j]) by {
                    assert(h[j] == v@[k + 1 + j]);
                }
            }
        }
        assert(ok == is_dimensions(size@));
    }
    if !ok {
        return Err(SizeError::Malformed(size.to_owned()));
    }
    proof {
        assert(v@.subrange(0, k as int) =~= w);
        assert(v@.subrange(k + 1 as int, v@.len() as int) =~= h);
    }
    let wv = digits_at_most(&v, 0, k, 0xffff_ffff);
    let wv = match wv {
        Some(x) => x,
        None => {
            return Err(SizeError::TooLarge);
        },
    };
    let hv = digits_at_most(&v, k + 1, v.len(), 0xffff_ffff);
    let hv = match hv {
        Some(x) => x,
        None => {
            return Err(SizeError::TooLarge);
        },
    };
    if wv == 0 || hv == 0 {
        return Err(SizeError::NotPositive(size.to_owned()));
    }
    Ok(())
}

// ---------------------------------------------------------------------------
// gpt-image-2 size constraints
// ---------------------------------------------------------------------------

/// What `u64::from_str` gives for `s`: an optional `+`, then one or more
/// ASCII digits whose value fits in 64 bits.
pub open spec fn parse_u64(s: Seq<char>) -> Option<nat> {
    let d = if s.len() > 0 && s[0] == '+' {
        s.drop_first()
    } else {
        s
    };
    if d.len() > 0 && all_digits(d) && digits_value(d) <= u64::MAX {
        Some(digits_value(d))
    } else {
        None
    }
}

/// The first two `x`-separated fields of `s` read as numbers, when there are
/// two fields and both read (further fields are ignored).
pub open spec fn hint_dims(s: Seq<char>) -> Option<(nat, nat)> {
    let k = index_of(s, 'x', 0);
    if k >= s.len() {
        None
    } else {
        let k2 = index_of(s, 'x', k + 1);
        match (parse_u64(s.take(k)), parse_u64(s.subrange(k + 1, k2))) {
            (Some(w), Some(h)) => Some((w, h)),
            _ => None,
        }
    }
}

/// The product of the two dimensions fits in 64 bits (or there are none).
pub open spec fn hint_pixels_fit(s: Seq<char>) -> bool {
    match hint_dims(s) {
        Some((w, h)) => w * h <= u64::MAX,
        None => true,
    }
}

/// The gpt-image-2 constraints that `w` x `h` breaks, in the order checked:
/// both edges multiples of 16, longest edge at most 3840, aspect ratio at most
/// 3:1, between 655,360 and 8,294,400 pixels.
pub open spec fn size_problems(w: nat, h: nat) -> Seq<Seq<char>> {
    let long = if w >= h {
        w
    } else {
        h
    };
    let short = if w >= h {
        h
    } else {
        w
    };
    let pixels = w * h;
    let p1: Seq<Seq<char>> = if w % 16 != 0 || h % 16 != 0 {
        seq!["both dimensions must be multiples of 16"@]
    } else {
        seq![]
    };
    let p2: Seq<Seq<char>> = if long > 3840 {
        seq!["max edge is 3840px"@]
    } else {
        seq![]
    };
    let p3: Seq<Seq<char>> = if short * 3 < long {
        seq!["aspect ratio must be at most 3:1"@]
    } else {
        seq![]
    };
    let p4: Seq<Seq<char>> = if !(655360 <= pixels <= 8294400) {
        seq![
            "total pixels must be between 655,360 and 8,294,400 (got "@ + dec(pixels) + ")"@,
        ]
    } else {
        seq![]
    };
    p1 + p2 + p3 + p4
}

/// `items` joined with `sep` between neighbours.
pub open spec fn join_with(items: Seq<Seq<char>>, sep: Seq<char>) -> Seq<char>
    decreases items.len(),
{
    if items.len() == 0 {
        Seq::empty()
    } else if items.len() == 1 {
        items[0]
    } else {
        join_with(items.drop_last(), sep) + sep + items.last()
    }
}

/// The warning for a size that gpt-image-2 will likely refuse, if any.
pub open spec fn size_hint(s: Seq<char>) -> Option<Seq<char>> {
    if s == "auto"@ {
        None
    } else {
        match hint_dims(s) {
            None => None,
            Some((w, h)) => {
                let ps = size_problems(w, h);
                if ps.len() == 0 {
                    None
                } else {
                    Some(
                        "size "@ + s + " may be rejected by gpt-image-2: "@ + join_with(ps, "; "@),
                    )
                }
            },
        }
    }
}

/// What `u64::from_str` gives for the characters `v[from..to]`.
#[verifier::loop_isolation(false)]
fn parse_u64_at(v: &Vec<char>, from: usize, to: usize) -> (r: Option<u64>)
    requires
        from <= to <= v@.len(),
    ensures
        r matches Some(x) ==> parse_u64(v@.subrange(from as int, to as int)) == Some(x as nat),
        r is None ==> parse_u64(v@.subrange(from as int, to as int)) is None,
{
    let ghost s = v@.subrange(from as int, to as int);
    let mut start = from;
    if from < to && v[from] == '+' {
        start = from + 1;
    }
    proof {
        if from < to {
            assert(s[0] == v@[from as int]);
        }
        if from < to && v@[from as int] == '+' {
            assert(s.drop_first() =~= v@.subrange(start as int, to as int));
        } else {
            assert(s =~= v@.subrange(start as int, to as int));
        }
    }
    if start == to {
        assert(v@.subrange(start as int, to as int).len() == 0);
        return None;
    }
    let mut i = start;
    while i < to
        invariant
            start <= i <= to <= v@.len(),
            forall|j: int| start <= j < i ==> is_digit(#[trigger] v@[j]),
        decreases to - i,
    {
        if !('0' <= v[i] && v[i] <= '9') {
            proof {
                let d = v@.subrange(start as int, to as int);
                assert(d[i - start] == v@[i as int]);
            }
            return None;
        }
        i = i + 1;
    }
    proof {
        let d = v@.subrange(start as int, to as int);
        assert forall|j: int| 0 <= j < d.len() implies is_digit(#[trigger] d[j]) by {
            assert(d[j] == v@[start + j]);
        }
    }
    digits_at_most(v, start, to, 0xffff_ffff_ffff_ffff)
}

/// Whether the two dimensions that [`gpt_image_2_size_hint`] reads from
/// `size` multiply without overflowing 64 bits.
pub fn size_hint_pixels_fit(size: &str) -> (r: bool)
    ensures
        r == hint_pixels_fit(size@),
{
    let v = chars_of(size);
    let k = find_char(&v, 'x', 0);
    proof {
        lemma_index_of(v@, 'x', 0);
    }
    if k >= v.len() {
        return true;
    }
    let k2 = find_char(&v, 'x', k + 1);
    proof {
        lemma_index_of(v@, 'x', k + 1);
        assert(v@.subrange(0, k as int) =~= v@.take(k as int));
    }
    let w = parse_u64_at(&v, 0, k);
    let h = parse_u64_at(&v, k + 1, k2);
    match (w, h) {
        (Some(w), Some(h)) => {
            let a = w as u128;
            let b = h as u128;
            assert(a * b <= 0xffff_ffff_ffff_ffff * 0xffff_ffff_ffff_ffff) by (nonlinear_arith)
                requires
                    a <= 0xffff_ffff_ffff_ffff,
                    b <= 0xffff_ffff_ffff_ffff,
            ;
            a * b <= 0xffff_ffff_ffff_ffff
        },
        _ => true,
    }
}

/// Appends `items` joined with `sep`.
fn push_joined(out: &mut String, items: &Vec<String>, sep: &str)
    ensures
        final(out)@ == old(out)@ + join_with(items@.map_values(|t: String| t@), sep@),
{
    let ghost vs = items@.map_values(|t: String| t@);
    let mut i: usize = 0;
    while i < items.len()
        invariant
            i <= items@.len(),
            vs == items@.map_values(|t: String| t@),
            out@ == old(out)@ + join_with(vs.take(i as int), sep@),
        decreases items.len() - i,
    {
        proof {
            assert(vs.take(i + 1 as int).drop_last() =~= vs.take(i as int));
            assert(vs.take(i + 1 as int).last() == items@[i as int]@);
            if i == 0 {
                assert(vs.take(0) =~= Seq::<Seq<char>>::empty());
                assert(vs.take(1) =~= seq![items@[0]@]);
            }
        }
        if i > 0 {
            out.append(sep);
        }
        out.append(items[i].as_str());
        proof {
            if i == 0 {
                assert(old(out)@ + join_with(vs.take(0), sep@) =~= old(out)@);
            }
        }
        i = i + 1;
    }
    proof {
        assert(vs.take(items@.len() as int) =~= vs);
    }
}

/// For gpt-image-2, which takes flexible resolutions within limits: a
/// readable warning when `size` will likely be refused, naming every limit
/// that it breaks. `auto`, and sizes whose first two `x`-separated fields do
/// not both read as numbers, get no warning.
pub fn gpt_image_2_size_hint(size: &str) -> (r: Option<String>)
    requires
        hint_pixels_fit(size@),
    ensures
        r matches Some(m) ==> size_hint(size@) == Some(m@),
        r is None ==> size_hint(size@) is None,
{
    if str_eq(size, "auto") {
        return None;
    }
    let v = chars_of(size);
    let k = find_char(&v, 'x', 0);
    proof {
        lemma_index_of(v@, 'x', 0);
    }
    if k >= v.len() {
        return None;
    }
    let k2 = find_char(&v, 'x', k + 1);
    proof {
        lemma_index_of(v@, 'x', k + 1);
        assert(v@.subrange(0, k as int) =~= v@.take(k as int));
    }
    let w = match parse_u64_at(&v, 0, k) {
        Some(x) => x,
        None => {
            return None;
        },
    };
    let h = match parse_u64_at(&v, k + 1, k2) {
        Some(x) => x,
        None => {
            return None;
        },
    };
    let long = if w >= h {
        w
    } else {
        h
    };
    let short = if w >= h {
        h
    } else {
        w
    };
    let pixels = w * h;
    let mut problems: Vec<String> = Vec::new();
    if w % 16 != 0 || h % 16 != 0 {
        problems.push("both dimensions must be multiples of 16".to_owned());
    }
    if long > 3840 {
        problems.push("max edge is 3840px".to_owned());
    }
    if (short as u128) * 3 < long as u128 {
        problems.push("aspect ratio must be at most 3:1".to_owned());
    }
    if !(655360 <= pixels && pixels <= 8294400) {
        let mut m = String::new();
        m.append("total pixels must be between 655,360 and 8,294,400 (got ");
        let d = dec_string(pixels);
        m.append(d.as_str());
        m.append(")");
        problems.push(m);
    }
    proof {
        assert(problems@.map_values(|t: String| t@) =~= size_problems(w as nat, h as nat));
    }
    if problems.len() == 0 {
        return None;
    }
    let mut msg = String::new();
    msg.append("size ");
    msg.append(size);
    msg.append(" may be rejected by gpt-image-2: ");
    push_joined(&mut msg, &problems, "; ");
    Some(msg)
}

/// Every size that [`validate_size`] accepts can be given to
/// [`gpt_image_2_size_hint`]: its two dimensions fit in 32 bits, so their
/// product fits in 64.
pub proof fn lemma_valid_size_hint_fits(s: Seq<char>)
    requires
        valid_size(s),
    ensures
        hint_pixels_fit(s),
{
    reveal_strlit("auto");
    if s == "auto"@ {
        lemma_index_of(s, 'x', 0);
        assert(index_of(s, 'x', 0) == s.len()) by {
            if index_of(s, 'x', 0) < s.len() {
                assert(s[index_of(s, 'x', 0)] == 'x');
            }
        }
    } else {
        let k = index_of(s, 'x', 0);
        lemma_index_of(s, 'x', 0);
        let (w, h) = size_fields(s)->0;
        assert(index_of(s, 'x', k + 1) == s.len());
        assert(s.subrange(k + 1, s.len() as int) =~= h);
        assert(w.len() > 0 && w[0] != '+') by {
            assert(is_digit(w[0]));
        }
        assert(h.len() > 0 && h[0] != '+') by {
            assert(is_digit(h[0]));
        }
        assert(parse_u64(w) == Some(digits_value(w)));
        assert(parse_u64(h) == Some(digits_value(h)));
        let a = digits_value(w);
        let b = digits_value(h);
        assert(a * b <= u64::MAX) by (nonlinear_arith)
            requires
                a <= u32::MAX,
                b <= u32::MAX,
        ;
    }
}

} // verus!
verus! {

/// The limits within which gpt-image-2 takes a `w` x `h` size: both edges
/// multiples of 16 and at most 3840, neither edge more than three times the
/// other, and between 655,360 and 8,294,400 pixels.
pub open spec fn within_gpt_image_2_limits(w: nat, h: nat) -> bool {
    &&& w % 16 == 0
    &&& h % 16 == 0
    &&& w <= 3840
    &&& h <= 3840
    &&& h <= 3 * w
    &&& w <= 3 * h
    &&& 655360 <= w * h <= 8294400
}

/// Each limit is reported exactly when it is broken: the multiples-of-16
/// problem when an edge is not a multiple of 16, the edge problem when an
/// edge exceeds 3840, the aspect-ratio problem when one edge is more than
/// three times the other, and nothing at all for a size within the limits.
pub proof fn lemma_size_problems(w: nat, h: nat)
    ensures
        size_problems(w, h).contains("both dimensions must be multiples of 16"@) <==> (w % 16
            != 0 || h % 16 != 0),
        size_problems(w, h).contains("max edge is 3840px"@) <==> (w > 3840 || h > 3840),
        size_problems(w, h).contains("aspect ratio must be at most 3:1"@) <==> (3 * w < h || 3
            * h < w),
        size_problems(w, h).len() == 0 <==> within_gpt_image_2_limits(w, h),
{
    reveal_strlit("both dimensions must be multiples of 16");
    reveal_strlit("max edge is 3840px");
    reveal_strlit("aspect ratio must be at most 3:1");
    reveal_strlit("total pixels must be between 655,360 and 8,294,400 (got ");
    let m16 = "both dimensions must be multiples of 16"@;
    let edge = "max edge is 3840px"@;
    let ratio = "aspect ratio must be at most 3:1"@;
    let ps = size_problems(w, h);
    let pixels = w * h;
    let pm = "total pixels must be between 655,360 and 8,294,400 (got "@ + dec(pixels) + ")"@;
    assert(pm[0] == 't');
    let long = if w >= h { w } else { h };
    let short = if w >= h { h } else { w };
    let p1: Seq<Seq<char>> = if w % 16 != 0 || h % 16 != 0 { seq![m16] } else { seq![] };
    let p2: Seq<Seq<char>> = if long > 3840 { seq![edge] } else { seq![] };
    let p3: Seq<Seq<char>> = if short * 3 < long { seq![ratio] } else { seq![] };
    let p4: Seq<Seq<char>> = if !(655360 <= pixels <= 8294400) { seq![pm] } else { seq![] };
    assert(ps == p1 + p2 + p3 + p4);
    assert(m16 != edge && m16 != ratio && edge != ratio) by {
        assert(m16[0] != edge[0] && m16[0] != ratio[0] && edge[0] != ratio[0]);
    }
    assert(m16 != pm && edge != pm && ratio != pm) by {
        assert(m16[0] != pm[0] && edge[0] != pm[0] && ratio[0] != pm[0]);
    }
    lemma_contains_in_four(p1, p2, p3, p4, m16);
    lemma_contains_in_four(p1, p2, p3, p4, edge);
    lemma_contains_in_four(p1, p2, p3, p4, ratio);
    lemma_contains_one(p1, m16, m16);
    lemma_contains_one(p2, edge, m16);
    lemma_contains_one(p3, ratio, m16);
    lemma_contains_one(p4, pm, m16);
    lemma_contains_one(p1, m16, edge);
    lemma_contains_one(p2, edge, edge);
    lemma_contains_one(p3, ratio, edge);
    lemma_contains_one(p4, pm, edge);
    lemma_contains_one(p1, m16, ratio);
    lemma_contains_one(p2, edge, ratio);
    lemma_contains_one(p3, ratio, ratio);
    lemma_contains_one(p4, pm, ratio);
}

proof fn lemma_contains_one(p: Seq<Seq<char>>, a: Seq<char>, x: Seq<char>)
    requires
        p == seq![a] || p == Seq::<Seq<char>>::empty(),
    ensures
        p.contains(x) <==> (p.len() == 1 && a == x),
{
    if p.len() == 1 && a == x {
        assert(p[0] == x);
    }
}

proof fn lemma_contains_in_four(
    p1: Seq<Seq<char>>,
    p2: Seq<Seq<char>>,
    p3: Seq<Seq<char>>,
    p4: Seq<Seq<char>>,
    x: Seq<char>,
)
    ensures
        (p1 + p2 + p3 + p4).contains(x) <==> (p1.contains(x) || p2.contains(x) || p3.contains(x)
            || p4.contains(x)),
{
    let ps = p1 + p2 + p3 + p4;
    if ps.contains(x) {
        let i = choose|i: int| 0 <= i < ps.len() && ps[i] == x;
        if i < p1.len() {
            assert(p1[i] == x);
        } else if i < p1.len() + p2.len() {
            assert(p2[i - p1.len()] == x);
        } else if i < p1.len() + p2.len() + p3.len() {
            assert(p3[i - p1.len() - p2.len()] == x);
        } else {
            assert(p4[i - p1.len() - p2.len() - p3.len()] == x);
        }
    }
    if p1.contains(x) {
        let i = choose|i: int| 0 <= i < p1.len() && p1[i] == x;
        assert(ps[i] == x);
    }
    if p2.contains(x) {
        let i = choose|i: int| 0 <= i < p2.len() && p2[i] == x;
        assert(ps[p1.len() + i] == x);
    }
    if p3.contains(x) {
        let i = choose|i: int| 0 <= i < p3.len() && p3[i] == x;
        assert(ps[p1.len() + p2.len() + i] == x);
    }
    if p4.contains(x) {
        let i = choose|i: int| 0 <= i < p4.len() && p4[i] == x;
        assert(ps[p1.len() + p2.len() + p3.len() + i] == x);
    }
}

/// gpt-image-2 gets a warning for a `WIDTHxHEIGHT` size exactly when the size
/// breaks one of its limits; `auto`, and text that does not read as two
/// numbers, gets none.
pub proof fn lemma_size_hint_limits(s: Seq<char>)
    ensures
        s == "auto"@ ==> size_hint(s) is None,
        hint_dims(s) is None ==> size_hint(s) is None,
        s != "auto"@ ==> (hint_dims(s) matches Some((w, h)) ==> (size_hint(s) is None
            <==> within_gpt_image_2_limits(w, h))),
{
    if s != "auto"@ && hint_dims(s) is Some {
        let (w, h) = hint_dims(s)->0;
        lemma_size_problems(w, h);
    }
}

} // verus!
verus! {

/// A run of ASCII digits that reads as a positive number fitting in 32 bits.
pub open spec fn positive_u32_digits(d: Seq<char>) -> bool {
    &&& d.len() > 0
    &&& all_digits(d)
    &&& 0 < digits_value(d) <= u32::MAX
}

proof fn lemma_index_of_at(s: Seq<char>, c: char, i: int, k: int)
    requires
        0 <= i <= k <= s.len(),
        k < s.len() ==> s[k] == c,
        forall|j: int| i <= j < k ==> s[j] != c,
    ensures
        index_of(s, c, i) == k,
    decreases k - i,
{
    if i < k {
        lemma_index_of_at(s, c, i + 1, k);
    }
}

/// A size is accepted exactly when it is `auto` or two runs of ASCII digits
/// joined by a single `x`, each reading as a positive number that fits in 32
/// bits.
pub proof fn lemma_valid_size_shape(s: Seq<char>)
    ensures
        valid_size(s) <==> (s == "auto"@ || exists|w: Seq<char>, h: Seq<char>|
            #[trigger] (w + seq!['x'] + h) == s && positive_u32_digits(w) && positive_u32_digits(
                h,
            )),
{
    if s != "auto"@ {
        if valid_size(s) {
            let (w, h) = size_fields(s)->0;
            lemma_index_of(s, 'x', 0);
            assert(s =~= w + seq!['x'] + h);
        }
        if exists|w: Seq<char>, h: Seq<char>|
            #[trigger] (w + seq!['x'] + h) == s && positive_u32_digits(w) && positive_u32_digits(
                h,
            ) {
            let (w, h) = choose|w: Seq<char>, h: Seq<char>|
                #[trigger] (w + seq!['x'] + h) == s && positive_u32_digits(w)
                    && positive_u32_digits(h);
            let k = w.len() as int;
            assert forall|j: int| 0 <= j < k implies s[j] != 'x' by {
                assert(s[j] == w[j]);
                assert(is_digit(w[j]));
            }
            assert(s[k] == 'x');
            lemma_index_of_at(s, 'x', 0, k);
            assert forall|j: int| k + 1 <= j < s.len() implies s[j] != 'x' by {
                assert(s[j] == h[j - k - 1]);
                assert(is_digit(h[j - k - 1]));
            }
            lemma_index_of_at(s, 'x', k + 1, s.len() as int);
            assert(s.take(k) =~= w);
            assert(s.skip(k + 1) =~= h);
        }
    }
}

/// Every size warning begins by naming the size: `size {s} may be rejected
/// by gpt-image-2: `.
pub proof fn lemma_size_hint_prefix(s: Seq<char>)
    ensures
        size_hint(s) matches Some(m) ==> m.len() >= 5 && m.take(5) == "size "@,
{
    reveal_strlit("size ");
    if size_hint(s) is Some {
        let m = size_hint(s)->0;
        let (w, h) = hint_dims(s)->0;
        let rest = s + " may be rejected by gpt-image-2: "@ + join_with(size_problems(w, h), "; "@);
        assert(m =~= "size "@ + rest);
        assert(m.take(5) =~= "size "@);
    }
}

} // verus!
