//! Human-readable byte counts, such as `2.0 KB`.
//!
//! The count is shown in the largest unit (B, KB, MB or GB, powers of 1024)
//! in which it is at least one, with one decimal for units above bytes. The
//! number shown is the count as a 64-bit float (so rounded to 53 significant
//! bits, ties to even) divided by the unit, rounded to tenths with ties to
//! even, which is what `{:.1}` prints for that float.
use vstd::prelude::*;
use crate::text::{dec, dec_string};

verus! {

/// `2^k`.
pub open spec fn pow2(k: nat) -> nat
    decreases k,
{
    if k == 0 {
        1
    } else {
        2 * pow2((k - 1) as nat)
    }
}

/// The largest count that a 64-bit float holds to the unit: 2^53.
pub open spec fn exact_limit() -> nat {
    9007199254740992
}

/// How many low bits a 64-bit float drops from `b`: halvings until below 2^53.
pub open spec fn dropped_bits(b: nat) -> nat
    decreases b,
{
    if b < exact_limit() {
        0
    } else {
        1 + dropped_bits(b / 2)
    }
}

/// `b` as a 64-bit float: the nearest multiple of `2^dropped_bits(b)`, ties
/// going to the even multiple.
pub open spec fn float_value(b: nat) -> nat {
    let d = pow2(dropped_bits(b));
    let m = b / d;
    let r = b % d;
    let up = 2 * r > d || (2 * r == d && m % 2 == 1);
    (if up {
        m + 1
    } else {
        m
    }) * d
}

/// The unit a value is shown in: 0 for B up to 3 for GB.
pub open spec fn unit_index(v: nat) -> nat {
    if v >= 1073741824 {
        3
    } else if v >= 1048576 {
        2
    } else if v >= 1024 {
        1
    } else {
        0
    }
}

/// The size of unit `u` in bytes.
pub open spec fn unit_size(u: nat) -> nat {
    if u == 3 {
        1073741824
    } else if u == 2 {
        1048576
    } else if u == 1 {
        1024
    } else {
        1
    }
}

/// The name of unit `u`.
pub open spec fn unit_name(u: nat) -> Seq<char> {
    if u == 3 {
        "GB"@
    } else if u == 2 {
        "MB"@
    } else if u == 1 {
        "KB"@
    } else {
        "B"@
    }
}

/// `v / d` in tenths, rounded to the nearest tenth with ties to even.
pub open spec fn tenths(v: nat, d: nat) -> nat {
    let q = 10 * v / d;
    let r = 10 * v % d;
    if 2 * r > d || (2 * r == d && q % 2 == 1) {
        q + 1
    } else {
        q
    }
}

/// The text for a byte count.
pub open spec fn human_bytes_text(bytes: nat) -> Seq<char> {
    let v = float_value(bytes);
    let u = unit_index(v);
    if u == 0 {
        dec(bytes) + " B"@
    } else {
        let t = tenths(v, unit_size(u));
        dec(t / 10) + seq!['.'] + dec(t % 10) + seq![' '] + unit_name(u)
    }
}

proof fn lemma_pow2_pos(k: nat)
    ensures
        pow2(k) >= 1,
    decreases k,
{
    if k > 0 {
        lemma_pow2_pos((k - 1) as nat);
    }
}

proof fn lemma_dropped_bits_bound(b: nat, k: nat)
    requires
        b < exact_limit() * pow2(k),
    ensures
        dropped_bits(b) <= k,
    decreases k,
{
    if b >= exact_limit() {
        if k == 0 {
            assert(pow2(0) == 1);
        } else {
            assert(b / 2 < exact_limit() * pow2((k - 1) as nat));
            lemma_dropped_bits_bound(b / 2, (k - 1) as nat);
        }
    }
}

/// Renders a byte count for people (see the module documentation).
pub fn human_bytes(bytes: usize) -> (s: String)
    ensures
        s@ == human_bytes_text(bytes as nat),
{
    let b = bytes as u128;
    let mut x = b;
    let mut shift: u128 = 0;
    proof {
        reveal_with_fuel(pow2, 12);
        lemma_dropped_bits_bound(b as nat, 11);
    }
    while x >= 9007199254740992
        invariant
            dropped_bits(b as nat) == shift + dropped_bits(x as nat),
            dropped_bits(b as nat) <= 11,
        decreases x,
    {
        x = x / 2;
        shift = shift + 1;
    }
    let mut d: u128 = 1;
    let mut i: u128 = 0;
    while i < shift
        invariant
            i <= shift <= 11,
            d == pow2(i as nat),
            d <= 2048,
        decreases shift - i,
    {
        proof {
            assert(pow2((i + 1) as nat) == 2 * pow2(i as nat));
            lemma_pow2_le_2048((i + 1) as nat);
        }
        d = d * 2;
        i = i + 1;
    }
    proof {
        lemma_pow2_pos(shift as nat);
    }
    let m = b / d;
    let r = b % d;
    proof {
        assert(m <= b) by (nonlinear_arith)
            requires
                m == b / d,
                d >= 1,
        ;
    }
    let up = 2 * r > d || (2 * r == d && m % 2 == 1);
    let k = if up {
        m + 1
    } else {
        m
    };
    proof {
        assert(k * d <= (b + 1) * 2048) by (nonlinear_arith)
            requires
                k <= b + 1,
                d <= 2048,
        ;
    }
    let v = k * d;
    let unit: u128 = if v >= 1073741824 {
        3
    } else if v >= 1048576 {
        2
    } else if v >= 1024 {
        1
    } else {
        0
    };
    if unit == 0 {
        let mut s = dec_string(bytes as u64);
        s.append(" B");
        return s;
    }
    let size: u128 = if unit == 3 {
        1073741824
    } else if unit == 2 {
        1048576
    } else {
        1024
    };
    let q = 10 * v / size;
    let rem = 10 * v % size;
    let t = if 2 * rem > size || (2 * rem == size && q % 2 == 1) {
        q + 1
    } else {
        q
    };
    proof {
        let tv: int = 10 * v;
        assert(q <= tv) by (nonlinear_arith)
            requires
                q == tv / (size as int),
                size >= 1,
                tv >= 0,
        ;
    }
    let mut s = dec_string((t / 10) as u64);
    s.push('.');
    let frac = dec_string((t % 10) as u64);
    s.append(frac.as_str());
    s.push(' ');
    if unit == 3 {
        s.append("GB");
    } else if unit == 2 {
        s.append("MB");
    } else {
        s.append("KB");
    }
    s
}

proof fn lemma_pow2_le_2048(k: nat)
    requires
        k <= 11,
    ensures
        pow2(k) <= 2048,
    decreases k,
{
    reveal_with_fuel(pow2, 12);
    if k > 0 {
        lemma_pow2_le_2048((k - 1) as nat);
    }
}

/// `t` tenths is the value of `b / d` rounded to the nearest tenth, ties
/// going to an even number of tenths.
pub open spec fn nearest_tenths(b: nat, d: nat, t: nat) -> bool {
    let diff = 10 * b - t * d;
    &&& 2 * diff <= d
    &&& -d <= 2 * diff
    &&& (2 * diff == d || 2 * diff == -d) ==> t % 2 == 0
}

/// How a count is shown in a unit of `d` bytes named `name`: a number of
/// tenths `t` nearest to the count in that unit, as `{t / 10}.{t % 10} {name}`.
pub open spec fn shown_in(text: Seq<char>, b: nat, d: nat, name: Seq<char>) -> bool {
    exists|t: nat|
        #[trigger] nearest_tenths(b, d, t) && text == dec(t / 10) + "."@ + dec(t % 10) + " "@
            + name
}

proof fn lemma_tenths_nearest(v: nat, d: nat)
    requires
        d > 0,
    ensures
        nearest_tenths(v, d, tenths(v, d)),
{
    let q = 10 * v / d;
    let r = 10 * v % d;
    assert(10 * v == q * d + r && 0 <= r < d) by (nonlinear_arith)
        requires
            d > 0,
            q == 10 * v / d,
            r == 10 * v % d,
    ;
    let t = tenths(v, d);
    if 2 * r > d || (2 * r == d && q % 2 == 1) {
        assert(t * d == q * d + d) by (nonlinear_arith)
            requires
                t == q + 1,
        ;
    } else {
        assert(t * d == q * d);
    }
}

/// Counts below 1024 are shown in bytes as they are; larger ones in the
/// largest of KB, MB and GB (powers of 1024) that they reach, as the count in
/// that unit rounded to the nearest tenth, ties to even (for every count a
/// 64-bit float holds exactly).
pub proof fn lemma_human_bytes_readable(b: nat)
    requires
        b <= exact_limit(),
    ensures
        b < 1024 ==> human_bytes_text(b) == dec(b) + " B"@,
        1024 <= b < 1048576 ==> shown_in(human_bytes_text(b), b, 1024, "KB"@),
        1048576 <= b < 1073741824 ==> shown_in(human_bytes_text(b), b, 1048576, "MB"@),
        1073741824 <= b ==> shown_in(human_bytes_text(b), b, 1073741824, "GB"@),
{
    reveal_strlit(".");
    reveal_strlit(" ");
    reveal_with_fuel(pow2, 2);
    if b < exact_limit() {
        assert(dropped_bits(b) == 0);
        assert(pow2(0) == 1);
        assert(b / 1 == b && b % 1 == 0);
    } else {
        reveal_with_fuel(dropped_bits, 2);
        assert(b / 2 < exact_limit());
        assert(dropped_bits(b) == 1);
        assert(pow2(1) == 2);
        assert(b / 2 == 4503599627370496 && b % 2 == 0);
        assert((b / 2) % 2 == 0);
    }
    assert(float_value(b) == b);
    let u = unit_index(b);
    if u > 0 {
        let d = unit_size(u);
        let t = tenths(b, d);
        lemma_tenths_nearest(b, d);
        assert(human_bytes_text(b) =~= dec(t / 10) + "."@ + dec(t % 10) + " "@ + unit_name(u));
    }
}

} // verus!
