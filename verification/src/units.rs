//! Memory amounts as GPU tools print them (`"24576 MB"`, `"24 GB"`,
//! `"16384 MiB"`), read into MiB with exact decimal arithmetic.

use vstd::prelude::*;
use crate::text::{
    all_digits, ascii_lower, ascii_lower_exec, chars_of, contains, contains_exec, digits_value,
    find, find_exec, first_word, first_word_exec, is_digit, is_digit_exec, slice_of, trim, trimmed,
};

verus! {

broadcast use vstd::seq_lib::group_seq_properties;

/// A character that a number keeps at its ends: an ASCII digit or `.`.
pub open spec fn num_char(c: char) -> bool {
    is_digit(c) || c == '.'
}

pub open spec fn trim_num_start(s: Seq<char>) -> Seq<char>
    decreases s.len(),
{
    if s.len() > 0 && !num_char(s[0]) {
        trim_num_start(s.drop_first())
    } else {
        s
    }
}

pub open spec fn trim_num_end(s: Seq<char>) -> Seq<char>
    decreases s.len(),
{
    if s.len() > 0 && !num_char(s.last()) {
        trim_num_end(s.drop_last())
    } else {
        s
    }
}

/// The word with everything but digits and `.` cut from both ends.
pub open spec fn trim_num(s: Seq<char>) -> Seq<char> {
    trim_num_end(trim_num_start(s))
}

/// A decimal number `whole[.fraction]` with at least one digit, as its
/// whole and fraction digits.
pub open spec fn number_parts(n: Seq<char>) -> Option<(Seq<char>, Seq<char>)> {
    match find(n, "."@) {
        Some(p) => if n.len() > 1 && all_digits(n.take(p)) && all_digits(n.skip(p + 1)) {
            Some((n.take(p), n.skip(p + 1)))
        } else {
            None
        },
        None => if n.len() > 0 && all_digits(n) {
            Some((n, Seq::empty()))
        } else {
            None
        },
    }
}

/// An exponent mark.
pub open spec fn exp_mark(c: char) -> bool {
    c == 'e' || c == 'E'
}

/// The first exponent mark of `n`.
pub open spec fn first_mark(n: Seq<char>) -> Option<int> {
    if exists|i: int| 0 <= i < n.len() && exp_mark(#[trigger] n[i]) {
        Some(
            choose|i: int|
                0 <= i < n.len() && exp_mark(n[i]) && forall|j: int| 0 <= j < i ==> !exp_mark(#[trigger] n[j]),
        )
    } else {
        None
    }
}

/// An exponent: an optional sign, then at least one digit.
pub open spec fn exponent(ex: Seq<char>) -> Option<int> {
    let signed = ex.len() > 0 && (ex[0] == '+' || ex[0] == '-');
    let ds = if signed {
        ex.drop_first()
    } else {
        ex
    };
    if ds.len() > 0 && all_digits(ds) {
        if signed && ex[0] == '-' {
            Some(-(digits_value(ds) as int))
        } else {
            Some(digits_value(ds) as int)
        }
    } else {
        None
    }
}

/// A decimal number as `f64`'s `FromStr` reads one that starts and ends with
/// a digit or `.`: `whole[.fraction]` with at least one digit, then maybe an
/// exponent (`e` or `E`, a sign, digits). Given as its digits and the
/// position of the decimal point among them (which may lie outside them).
pub open spec fn decimal_number(n: Seq<char>) -> Option<(Seq<char>, int)> {
    match first_mark(n) {
        None => match number_parts(n) {
            Some(ab) => Some((ab.0 + ab.1, ab.0.len() as int)),
            None => None,
        },
        Some(i) => match number_parts(n.take(i)) {
            Some(ab) => match exponent(n.skip(i + 1)) {
                Some(e) => Some((ab.0 + ab.1, ab.0.len() + e)),
                None => None,
            },
            None => None,
        },
    }
}

/// The digits before the decimal point at position `p` of `d`.
pub open spec fn shift_whole(d: Seq<char>, p: int) -> Seq<char> {
    if p <= 0 {
        Seq::empty()
    } else if p <= d.len() {
        d.take(p)
    } else {
        d + zeros((p - d.len()) as nat)
    }
}

/// The digits after the decimal point at position `p` of `d`.
pub open spec fn shift_frac(d: Seq<char>, p: int) -> Seq<char> {
    if p <= 0 {
        zeros((-p) as nat) + d
    } else if p <= d.len() {
        d.skip(p)
    } else {
        Seq::empty()
    }
}

pub open spec fn pow10(k: nat) -> nat
    decreases k,
{
    if k == 0 {
        1
    } else {
        10 * pow10((k - 1) as nat)
    }
}

/// The factor `num / den` from the amount's unit to MiB, given the amount in
/// lower case: GB and GiB count 1024, MB 10^6 / 2^20, KiB 1 / 1024, and a
/// bare number or any other unit counts as MiB.
pub open spec fn unit_factor(lower: Seq<char>) -> (nat, nat) {
    if contains(lower, "gb"@) || contains(lower, "gib"@) {
        (1024, 1)
    } else if contains(lower, "mb"@) {
        (15625, 16384)
    } else if contains(lower, "kib"@) {
        (1, 1024)
    } else {
        (1, 1)
    }
}

/// `(whole + frac / 10^k) * num / den`, rounded half away from zero.
pub open spec fn scaled_round(whole: nat, frac: nat, k: nat, num: nat, den: nat) -> nat {
    let p = pow10(k);
    ((2 * num * (whole * p + frac) + den * p) / (2 * den * p)) as nat
}

/// The amount in MiB, before it is limited to `u64`: 0 for an empty value or
/// one whose first word is not a decimal number.
pub open spec fn amount_mib(value: Seq<char>) -> nat {
    let t = trim(value);
    match first_word(t) {
        Some(word) => match decimal_number(trim_num(word)) {
            Some(num) => {
                let whole = shift_whole(num.0, num.1);
                let frac = shift_frac(num.0, num.1);
                let f = unit_factor(ascii_lower(t));
                scaled_round(digits_value(whole), digits_value(frac), frac.len(), f.0, f.1)
            },
            None => 0,
        },
        None => 0,
    }
}

/// The amount in MiB as `parse_mib` gives it: limited to `u64::MAX`.
pub open spec fn mib_value(value: Seq<char>) -> nat {
    if amount_mib(value) > u64::MAX {
        u64::MAX as nat
    } else {
        amount_mib(value)
    }
}

// ── lemmas on decimal values ─────────────────────────────────────────────────

proof fn lemma_pow10_pos(k: nat)
    ensures
        pow10(k) >= 1,
    decreases k,
{
    if k > 0 {
        lemma_pow10_pos((k - 1) as nat);
    }
}

proof fn lemma_digits_bound(d: Seq<char>)
    requires
        all_digits(d),
    ensures
        digits_value(d) < pow10(d.len()),
    decreases d.len(),
{
    if d.len() > 0 {
        let t = d.drop_last();
        assert(all_digits(t)) by {
            assert forall|i: int| 0 <= i < t.len() implies is_digit(#[trigger] t[i]) by {
                assert(t[i] == d[i]);
            }
        }
        lemma_digits_bound(t);
        assert(is_digit(d[d.len() - 1]));
    }
}

/// The value of digits read from the front: the first digit weighs
/// `10^(len - 1)`.
proof fn lemma_digits_front(d: Seq<char>)
    requires
        d.len() > 0,
        all_digits(d),
    ensures
        digits_value(d) == ((d[0] as int) - 48) * pow10((d.len() - 1) as nat) + digits_value(d.skip(1)),
    decreases d.len(),
{
    if d.len() == 1 {
        assert(d.drop_last() =~= Seq::<char>::empty());
        assert(d.skip(1) =~= Seq::<char>::empty());
        assert(digits_value(Seq::<char>::empty()) == 0);
        assert(pow10(0) == 1);
        assert(d.last() == d[0]);
        assert(is_digit(d[0]));
        assert(digits_value(d) == 10 * digits_value(d.drop_last()) + ((d.last() as int) - 48) as nat);
        assert(((d[0] as int) - 48) * 1 == (d[0] as int) - 48);
    } else {
        let t = d.drop_last();
        assert(all_digits(t)) by {
            assert forall|i: int| 0 <= i < t.len() implies is_digit(#[trigger] t[i]) by {
                assert(t[i] == d[i]);
            }
        }
        assert(is_digit(d[d.len() - 1]));
        lemma_digits_front(t);
        let u = d.skip(1);
        assert(t.skip(1) =~= u.drop_last());
        assert(u.last() == d.last());
        assert(t[0] == d[0]);
        let a = (d[0] as int) - 48;
        let p = pow10((t.len() - 1) as nat);
        let l = (d.last() as int) - 48;
        let vt = digits_value(t.skip(1)) as int;
        assert(pow10((d.len() - 1) as nat) == 10 * p);
        assert(digits_value(d) == 10 * digits_value(t) + l);
        assert(digits_value(u) == 10 * vt + l);
        assert(digits_value(t) == a * p + vt);
        assert(10 * (a * p + vt) + l == a * (10 * p) + (10 * vt + l)) by (nonlinear_arith);
        assert(digits_value(d) == a * pow10((d.len() - 1) as nat) + digits_value(u));
    }
}

/// `n` zero digits.
pub open spec fn zeros(n: nat) -> Seq<char> {
    Seq::new(n, |i: int| '0')
}

proof fn lemma_all_digits_concat(a: Seq<char>, b: Seq<char>)
    requires
        all_digits(a),
        all_digits(b),
    ensures
        all_digits(a + b),
{
    assert forall|i: int| 0 <= i < (a + b).len() implies is_digit(#[trigger] (a + b)[i]) by {
        if i < a.len() {
            assert((a + b)[i] == a[i]);
        } else {
            assert((a + b)[i] == b[i - a.len()]);
        }
    }
}

proof fn lemma_zeros_digits(n: nat)
    ensures
        all_digits(zeros(n)),
        digits_value(zeros(n)) == 0,
    decreases n,
{
    if n > 0 {
        lemma_zeros_digits((n - 1) as nat);
        assert(zeros(n).drop_last() =~= zeros((n - 1) as nat));
        assert(zeros(n).last() == '0');
    }
}

proof fn lemma_pow10_add(a: nat, b: nat)
    ensures
        pow10(a + b) == pow10(a) * pow10(b),
    decreases b,
{
    if b == 0 {
        assert(pow10(0) == 1);
        assert(pow10(a) * 1 == pow10(a));
    } else {
        lemma_pow10_add(a, (b - 1) as nat);
        assert(pow10(a + b) == 10 * pow10((a + b - 1) as nat));
        assert(pow10(b) == 10 * pow10((b - 1) as nat));
        assert(10 * (pow10(a) * pow10((b - 1) as nat)) == pow10(a) * (10 * pow10((b - 1) as nat)))
            by (nonlinear_arith);
    }
}

proof fn lemma_pow10_mono(a: nat, b: nat)
    requires
        a <= b,
    ensures
        pow10(a) <= pow10(b),
    decreases b,
{
    if a < b {
        lemma_pow10_mono(a, (b - 1) as nat);
        lemma_pow10_pos((b - 1) as nat);
    }
}

/// The value of digits `a` then `b`: `a` shifted by the length of `b`.
proof fn lemma_digits_concat(a: Seq<char>, b: Seq<char>)
    requires
        all_digits(a),
        all_digits(b),
    ensures
        digits_value(a + b) == digits_value(a) * pow10(b.len()) + digits_value(b),
    decreases b.len(),
{
    if b.len() == 0 {
        assert(a + b =~= a);
        assert(pow10(0) == 1);
        assert(digits_value(a) * 1 == digits_value(a));
    } else {
        let bl = b.drop_last();
        assert(all_digits(bl)) by {
            assert forall|i: int| 0 <= i < bl.len() implies is_digit(#[trigger] bl[i]) by {
                assert(bl[i] == b[i]);
            }
        }
        lemma_digits_concat(a, bl);
        assert((a + b).drop_last() =~= a + bl);
        assert((a + b).last() == b.last());
        assert(is_digit(b[b.len() - 1]));
        let x = digits_value(a);
        let p = pow10(bl.len());
        let y = digits_value(bl);
        let l = (b.last() as int) - 48;
        assert(pow10(b.len()) == 10 * p);
        assert(digits_value(b) == 10 * y + l);
        assert(digits_value(a + b) == 10 * (x * p + y) + l);
        assert(10 * (x * p + y) + l == x * (10 * p) + (10 * y + l)) by (nonlinear_arith);
    }
}

// ── reading a number ─────────────────────────────────────────────────────────

fn is_num_char(c: char) -> (b: bool)
    ensures
        b == num_char(c),
{
    is_digit_exec(c) || c == '.'
}

fn skip_num_start(s: &Vec<char>) -> (i: usize)
    ensures
        i <= s.len(),
        trim_num_start(s@) == s@.subrange(i as int, s.len() as int),
{
    let mut i: usize = 0;
    assert(s@.subrange(0, s.len() as int) =~= s@);
    while i < s.len() && !is_num_char(s[i])
        invariant
            i <= s.len(),
            trim_num_start(s@) == trim_num_start(s@.subrange(i as int, s.len() as int)),
        decreases s.len() - i,
    {
        assert(s@.subrange(i as int, s.len() as int).drop_first() =~= s@.subrange(i + 1, s.len() as int));
        i += 1;
    }
    i
}

fn skip_num_end(s: &Vec<char>, i: usize) -> (j: usize)
    requires
        i <= s.len(),
    ensures
        i <= j <= s.len(),
        trim_num_end(s@.subrange(i as int, s.len() as int)) == s@.subrange(i as int, j as int),
{
    let mut j = s.len();
    while j > i && !is_num_char(s[j - 1])
        invariant
            i <= j <= s.len(),
            trim_num_end(s@.subrange(i as int, s.len() as int)) == trim_num_end(s@.subrange(i as int, j as int)),
        decreases j - i,
    {
        assert(s@.subrange(i as int, j as int).drop_last() =~= s@.subrange(i as int, j - 1));
        j -= 1;
    }
    j
}

/// `trim_num` on a character vector.
pub fn trim_num_exec(s: &Vec<char>) -> (r: Vec<char>)
    ensures
        r@ == trim_num(s@),
{
    let i = skip_num_start(s);
    let j = skip_num_end(s, i);
    slice_of(s, i, j)
}

fn all_digits_exec(d: &Vec<char>) -> (b: bool)
    ensures
        b == all_digits(d@),
{
    let mut i: usize = 0;
    while i < d.len()
        invariant
            i <= d.len(),
            forall|k: int| 0 <= k < i ==> is_digit(#[trigger] d@[k]),
        decreases d.len() - i,
    {
        if !is_digit_exec(d[i]) {
            return false;
        }
        i += 1;
    }
    true
}

/// The whole and fraction digits of a decimal number.
pub fn number_parts_exec(n: &Vec<char>) -> (r: Option<(Vec<char>, Vec<char>)>)
    ensures
        match r {
            Some(p) => number_parts(n@) == Some((p.0@, p.1@)),
            None => number_parts(n@) is None,
        },
{
    let dot = chars_of(".");
    proof {
        reveal_strlit(".");
    }
    match find_exec(n, &dot) {
        Some(p) => {
            proof {
                crate::text::lemma_find_some(n@, dot@);
            }
            let a = slice_of(n, 0, p);
            let b = slice_of(n, p + 1, n.len());
            assert(a@ =~= n@.take(p as int));
            assert(b@ =~= n@.skip(p + 1));
            if n.len() > 1 && all_digits_exec(&a) && all_digits_exec(&b) {
                Some((a, b))
            } else {
                None
            }
        },
        None => {
            if n.len() > 0 && all_digits_exec(n) {
                Some((slice_of(n, 0, n.len()), Vec::new()))
            } else {
                None
            }
        },
    }
}

/// Largest whole part read exactly; from there every unit gives more MiB
/// than a `u64` holds.
pub const WHOLE_CAP: u128 = 0x1000_0000_0000_0000_0000;

/// Largest exponent read exactly; beyond it a non-zero number has more
/// digits before (or after) its decimal point than any string.
pub const EXP_CAP: u128 = 0x40_0000_0000_0000_0000;

/// The value of a digit string, or `cap` when it is larger.
fn capped_value(d: &Vec<char>, cap: u128) -> (r: u128)
    requires
        all_digits(d@),
        cap <= WHOLE_CAP,
    ensures
        r == (if digits_value(d@) < cap {
            digits_value(d@)
        } else {
            cap as nat
        }),
{
    let mut v: u128 = 0;
    let mut i: usize = 0;
    while i < d.len()
        invariant
            i <= d.len(),
            all_digits(d@),
            cap <= WHOLE_CAP,
            v == (if digits_value(d@.take(i as int)) < cap {
                digits_value(d@.take(i as int))
            } else {
                cap as nat
            }),
        decreases d.len() - i,
    {
        let t = Ghost(d@.take(i + 1));
        assert(t@.drop_last() =~= d@.take(i as int));
        assert(t@.last() == d@[i as int]);
        assert(is_digit(d@[i as int]));
        let dv = (d[i] as u32 - 48) as u128;
        if v < cap {
            let nv = v * 10 + dv;
            v = if nv < cap {
                nv
            } else {
                cap
            };
        }
        i += 1;
    }
    assert(d@.take(i as int) =~= d@);
    v
}

/// `floor(c * frac / 10^k)` for the fraction digits `d` (of length `k`),
/// carried digit by digit from the last.
fn frac_carry(c: u128, d: &Vec<char>) -> (r: u128)
    requires
        all_digits(d@),
        1 <= c <= 100_000,
    ensures
        r == (c * digits_value(d@)) / (pow10(d.len() as nat) as int),
        r < c,
{
    let mut carry: u128 = 0;
    let mut i = d.len();
    assert(d@.skip(i as int) =~= Seq::<char>::empty());
    while i > 0
        invariant
            i <= d.len(),
            all_digits(d@),
            1 <= c <= 100_000,
            carry == (c * digits_value(d@.skip(i as int))) / (pow10((d.len() - i) as nat) as int),
            carry < c,
        decreases i,
    {
        let ghost rest = d@.skip(i as int);
        let ghost s = d@.skip(i - 1);
        let ghost m = (d.len() - i) as nat;
        assert(is_digit(d@[i - 1]));
        let dv = (d[i - 1] as u32 - 48) as u128;
        proof {
            assert(s[0] == d@[i - 1]);
            assert(s.skip(1) =~= rest);
            assert(all_digits(s)) by {
                assert forall|k: int| 0 <= k < s.len() implies is_digit(#[trigger] s[k]) by {
                    assert(s[k] == d@[i - 1 + k]);
                }
            }
            lemma_digits_front(s);
            assert(all_digits(rest)) by {
                assert forall|k: int| 0 <= k < rest.len() implies is_digit(#[trigger] rest[k]) by {
                    assert(rest[k] == d@[i + k]);
                }
            }
            lemma_digits_bound(rest);
            lemma_carry_step(c as int, dv as int, digits_value(rest) as int, m, carry as int);
        }
        carry = (c * dv + carry) / 10;
        i -= 1;
    }
    carry
}

proof fn lemma_carry_step(c: int, dv: int, v: int, m: nat, carry: int)
    requires
        1 <= c,
        0 <= dv <= 9,
        0 <= v < pow10(m),
        carry == (c * v) / (pow10(m) as int),
    ensures
        (c * dv + carry) / 10 == (c * (dv * pow10(m) + v)) / (pow10(m + 1) as int),
        (c * dv + carry) / 10 < c,
        carry < c,
{
    let p = pow10(m) as int;
    lemma_pow10_pos(m);
    assert(pow10(m + 1) == 10 * pow10(m));
    assert(c * (dv * p + v) == c * v + (c * dv) * p) by (nonlinear_arith);
    vstd::arithmetic::div_mod::lemma_hoist_over_denominator(c * v, c * dv, p as nat);
    assert(c * v >= 0) by (nonlinear_arith)
        requires
            c >= 1,
            v >= 0,
    ;
    vstd::arithmetic::div_mod::lemma_div_denominator(c * (dv * p + v), p, 10);
    assert(p * 10 == 10 * p);
    assert(carry < c) by (nonlinear_arith)
        requires
            carry == (c * v) / p,
            0 <= v < p,
            c >= 1,
            p >= 1,
    ;
    assert((c * dv + carry) / 10 < c) by (nonlinear_arith)
        requires
            carry < c,
            0 <= carry,
            0 <= dv <= 9,
            c >= 1,
    ;
}

/// `scaled_round` taken apart: the whole part exactly, the fraction by its
/// carry.
proof fn lemma_scaled_round(whole: nat, frac: nat, k: nat, num: nat, den: nat)
    requires
        den >= 1,
    ensures
        scaled_round(whole, frac, k, num, den) == ((2 * num * whole + den) as int + (2 * num * frac) as int
            / (pow10(k) as int)) / ((2 * den) as int),
{
    let p = pow10(k) as int;
    lemma_pow10_pos(k);
    let x = (2 * num * frac) as int;
    let j = (2 * num * whole + den) as int;
    assert(2 * num * (whole * p + frac) + den * p == x + j * p) by (nonlinear_arith)
        requires
            x == 2 * num * frac,
            j == 2 * num * whole + den,
    ;
    vstd::arithmetic::div_mod::lemma_hoist_over_denominator(x, j, p as nat);
    assert(x + j * p >= 0) by (nonlinear_arith)
        requires
            x >= 0,
            j >= 0,
            p >= 1,
    ;
    vstd::arithmetic::div_mod::lemma_div_denominator(x + j * p, p, (2 * den) as int);
    assert(2 * den * p == p * (2 * den)) by (nonlinear_arith);
}

fn first_mark_exec(n: &Vec<char>) -> (r: Option<usize>)
    ensures
        match r {
            Some(i) => i < n.len() && first_mark(n@) == Some(i as int),
            None => first_mark(n@) is None,
        },
{
    let mut i: usize = 0;
    while i < n.len()
        invariant
            i <= n.len(),
            forall|j: int| 0 <= j < i ==> !exp_mark(#[trigger] n@[j]),
        decreases n.len() - i,
    {
        if n[i] == 'e' || n[i] == 'E' {
            proof {
                let c = choose|c: int|
                    0 <= c < n@.len() && exp_mark(n@[c]) && forall|j: int| 0 <= j < c ==> !exp_mark(#[trigger] n@[j]);
                assert(0 <= i < n@.len() && exp_mark(n@[i as int]));
                if c < i {
                    assert(!exp_mark(n@[c]));
                } else if i < c {
                    assert(!exp_mark(n@[i as int]));
                }
            }
            return Some(i);
        }
        i += 1;
    }
    None
}

/// The sign and the (capped) size of an exponent.
fn exponent_exec(ex: &Vec<char>) -> (r: Option<(bool, u128)>)
    ensures
        match r {
            Some((neg, m)) => exponent(ex@) is Some && (if neg {
                exponent(ex@)->0 <= 0 && m == (if -exponent(ex@)->0 < EXP_CAP {
                    -exponent(ex@)->0
                } else {
                    EXP_CAP as int
                })
            } else {
                exponent(ex@)->0 >= 0 && m == (if exponent(ex@)->0 < EXP_CAP {
                    exponent(ex@)->0
                } else {
                    EXP_CAP as int
                })
            }),
            None => exponent(ex@) is None,
        },
{
    let signed = ex.len() > 0 && (ex[0] == '+' || ex[0] == '-');
    let neg = signed && ex[0] == '-';
    let ds = if signed {
        slice_of(ex, 1, ex.len())
    } else {
        slice_of(ex, 0, ex.len())
    };
    assert(signed ==> ds@ =~= ex@.drop_first());
    assert(!signed ==> ds@ =~= ex@);
    if ds.len() == 0 || !all_digits_exec(&ds) {
        return None;
    }
    let m = capped_value(&ds, EXP_CAP);
    Some((neg, m))
}

/// The digits of a decimal number, the length of its whole part, and the
/// sign and (capped) size of its exponent: the decimal point lies at the
/// whole part's length plus the exponent.
fn decimal_number_exec(n: &Vec<char>) -> (r: Option<(Vec<char>, usize, bool, u128)>)
    ensures
        match r {
            Some((d, a, neg, m)) => decimal_number(n@) is Some && num_digits(n@) == d@ && all_digits(d@)
                && a <= d.len() && m <= EXP_CAP && (if neg {
                (m < EXP_CAP ==> num_point(n@) == a - m) && (m == EXP_CAP
                    ==> num_point(n@) <= a - EXP_CAP)
            } else {
                (m < EXP_CAP ==> num_point(n@) == a + m) && (m == EXP_CAP
                    ==> num_point(n@) >= a + EXP_CAP)
            }),
            None => decimal_number(n@) is None,
        },
{
    let mark = first_mark_exec(n);
    let (mant, ex) = match mark {
        Some(i) => {
            let mant = slice_of(n, 0, i);
            let ex = slice_of(n, i + 1, n.len());
            assert(mant@ =~= n@.take(i as int));
            assert(ex@ =~= n@.skip(i + 1));
            (mant, Some(ex))
        },
        None => (slice_of(n, 0, n.len()), None),
    };
    assert(mark is None ==> mant@ =~= n@);
    let (mut a, mut b) = match number_parts_exec(&mant) {
        Some(p) => p,
        None => return None,
    };
    let (neg, m) = match ex {
        Some(e) => match exponent_exec(&e) {
            Some(x) => x,
            None => return None,
        },
        None => (false, 0),
    };
    let whole_len = a.len();
    proof {
        lemma_all_digits_concat(a@, b@);
    }
    let ghost av = a@;
    let ghost bv = b@;
    a.append(&mut b);
    assert(a@ =~= av + bv);
    Some((a, whole_len, neg, m))
}

/// The digits of a decimal number (empty when there is none).
pub open spec fn num_digits(n: Seq<char>) -> Seq<char> {
    match decimal_number(n) {
        Some(x) => x.0,
        None => Seq::empty(),
    }
}

/// The position of a decimal number's point (0 when there is none).
pub open spec fn num_point(n: Seq<char>) -> int {
    match decimal_number(n) {
        Some(x) => x.1,
        None => 0,
    }
}

/// `agrees(am, amount)`: the computed `am` is the amount, or both are
/// beyond `u64::MAX`.
pub open spec fn agrees(am: u128, amount: nat) -> bool {
    if am > u64::MAX {
        amount > u64::MAX
    } else {
        am == amount
    }
}

/// The amount of a number whose digits and point are known exactly, with
/// unit factor `f`.
pub open spec fn amount_of(d: Seq<char>, p: int, f: (nat, nat)) -> nat {
    let whole = shift_whole(d, p);
    let frac = shift_frac(d, p);
    scaled_round(digits_value(whole), digits_value(frac), frac.len(), f.0, f.1)
}

pub open spec fn factor_view(f: (u128, u128)) -> (nat, nat) {
    (f.0 as nat, f.1 as nat)
}

/// One of the factors of `unit_factor`.
pub open spec fn valid_factor(f: (nat, nat)) -> bool {
    f == (1024nat, 1nat) || f == (15625nat, 16384nat) || f == (1nat, 1024nat) || f == (1nat, 1nat)
}

proof fn lemma_zero_number(d: Seq<char>, p: int, f: (nat, nat))
    requires
        all_digits(d),
        digits_value(d) == 0,
        f.1 >= 1,
    ensures
        amount_of(d, p, f) == 0,
{
    let whole = shift_whole(d, p);
    let frac = shift_frac(d, p);
    if p <= 0 {
        lemma_zeros_digits((-p) as nat);
        lemma_digits_concat(zeros((-p) as nat), d);
        assert(digits_value(whole) == 0) by {
            assert(whole =~= Seq::<char>::empty());
        }
        assert(digits_value(frac) == 0);
    } else if p <= d.len() {
        assert(d.take(p) + d.skip(p) =~= d);
        assert(all_digits(d.take(p)) && all_digits(d.skip(p))) by {
            assert forall|i: int| 0 <= i < d.take(p).len() implies is_digit(#[trigger] d.take(p)[i]) by {
                assert(d.take(p)[i] == d[i]);
            }
            assert forall|i: int| 0 <= i < d.skip(p).len() implies is_digit(#[trigger] d.skip(p)[i]) by {
                assert(d.skip(p)[i] == d[p + i]);
            }
        }
        lemma_digits_concat(d.take(p), d.skip(p));
        lemma_pow10_pos(d.skip(p).len());
        assert(digits_value(d.take(p)) * pow10(d.skip(p).len()) >= 0) by (nonlinear_arith);
        assert(digits_value(whole) == 0) by (nonlinear_arith)
            requires
                digits_value(whole) * pow10(frac.len()) + digits_value(frac) == 0,
                pow10(frac.len()) >= 1,
        ;
    } else {
        lemma_zeros_digits((p - d.len()) as nat);
        lemma_digits_concat(d, zeros((p - d.len()) as nat));
        assert(digits_value(whole) == 0);
        assert(digits_value(frac) == 0) by {
            assert(frac =~= Seq::<char>::empty());
        }
    }
    lemma_scaled_round(0, 0, frac.len(), f.0, f.1);
    lemma_pow10_pos(frac.len());
    assert(((2 * f.0 * 0 + f.1) as int + (2 * f.0 * 0) as int / (pow10(frac.len()) as int)) / ((2 * f.1) as int)
        == 0) by (nonlinear_arith)
        requires
            f.1 >= 1,
            pow10(frac.len()) >= 1,
    ;
}

proof fn lemma_huge_number(d: Seq<char>, p: int, f: (nat, nat))
    requires
        all_digits(d),
        digits_value(d) >= 1,
        p >= d.len() + 24,
        valid_factor(f),
    ensures
        amount_of(d, p, f) > u64::MAX,
{
    let z = (p - d.len()) as nat;
    lemma_zeros_digits(z);
    lemma_digits_concat(d, zeros(z));
    lemma_pow10_mono(24, z);
    assert(pow10(24) == 1000000000000000000000000) by {
        reveal_with_fuel(pow10, 25);
    }
    let whole = shift_whole(d, p);
    assert(digits_value(whole) == digits_value(d) * pow10(z));
    assert(digits_value(d) * pow10(z) >= pow10(z)) by (nonlinear_arith)
        requires
            digits_value(d) >= 1,
    ;
    lemma_saturates(digits_value(whole), 0, 0);
    assert(shift_frac(d, p) =~= Seq::<char>::empty());
}

proof fn lemma_tiny_number(d: Seq<char>, p: int, f: (nat, nat))
    requires
        all_digits(d),
        p <= -5,
        valid_factor(f),
    ensures
        amount_of(d, p, f) == 0,
{
    let z = (-p) as nat;
    let frac = shift_frac(d, p);
    lemma_zeros_digits(z);
    lemma_digits_concat(zeros(z), d);
    lemma_digits_bound(d);
    lemma_pow10_add(z, d.len());
    lemma_pow10_mono(5, z);
    assert(pow10(5) == 100000) by {
        reveal_with_fuel(pow10, 6);
    }
    assert(digits_value(frac) == digits_value(d));
    assert(frac.len() == z + d.len());
    assert(digits_value(shift_whole(d, p)) == 0) by {
        assert(shift_whole(d, p) =~= Seq::<char>::empty());
    }
    let pk = pow10(frac.len()) as int;
    let pd = pow10(d.len()) as int;
    lemma_pow10_pos(d.len());
    lemma_scaled_round(0, digits_value(frac), frac.len(), f.0, f.1);
    assert((2 * f.0 * digits_value(frac)) as int / pk == 0) by (nonlinear_arith)
        requires
            f.0 <= 15625,
            digits_value(frac) < pd,
            pk == pow10(z) * pd,
            pow10(z) >= 100000,
            pd >= 1,
    ;
    assert(((2 * f.0 * 0 + f.1) as int + 0) / ((2 * f.1) as int) == 0) by (nonlinear_arith)
        requires
            f.1 >= 1,
    ;
}

/// The amount of a number known by its digits `d`, the length `a` of its
/// whole part and its (capped) exponent.
fn amount_exec(d: &Vec<char>, a: usize, neg: bool, m: u128, factor: (u128, u128)) -> (am: u128)
    requires
        all_digits(d@),
        a <= d.len(),
        m <= EXP_CAP,
        valid_factor(factor_view(factor)),
    ensures
        forall|p: int|
            (if neg {
                (m < EXP_CAP ==> p == a - m) && (m == EXP_CAP ==> p <= a - EXP_CAP)
            } else {
                (m < EXP_CAP ==> p == a + m) && (m == EXP_CAP ==> p >= a + EXP_CAP)
            }) ==> agrees(am, #[trigger] amount_of(d@, p, factor_view(factor))),
{
    let ghost fv = factor_view(factor);
    if capped_value(d, 1) == 0 {
        proof {
            assert forall|p: int| #![trigger amount_of(d@, p, fv)] true implies amount_of(d@, p, fv) == 0 by {
                lemma_zero_number(d@, p, fv);
            }
        }
        return 0;
    }
    let len = d.len() as i128;
    if !neg && m == EXP_CAP {
        proof {
            assert forall|p: int| p >= a + EXP_CAP implies #[trigger] amount_of(d@, p, fv) > u64::MAX by {
                lemma_huge_number(d@, p, fv);
            }
        }
        return WHOLE_CAP;
    }
    if neg && m == EXP_CAP {
        proof {
            assert forall|p: int| p <= a - EXP_CAP implies #[trigger] amount_of(d@, p, fv) == 0 by {
                lemma_tiny_number(d@, p, fv);
            }
        }
        return 0;
    }
    let p: i128 = if neg {
        a as i128 - m as i128
    } else {
        a as i128 + m as i128
    };
    if p >= len + 24 {
        proof {
            lemma_huge_number(d@, p as int, fv);
        }
        return WHOLE_CAP;
    }
    if p <= -5 {
        proof {
            lemma_tiny_number(d@, p as int, fv);
        }
        return 0;
    }
    let ghost pi = p as int;
    let (whole, frac) = if p <= 0 {
        let mut f: Vec<char> = Vec::new();
        let mut k: i128 = 0;
        while k < -p
            invariant
                -5 < p <= 0,
                0 <= k <= -p,
                f@ == zeros(k as nat),
            decreases -p - k,
        {
            f.push('0');
            assert(f@ =~= zeros((k + 1) as nat));
            k += 1;
        }
        let mut rest = slice_of(d, 0, d.len());
        assert(rest@ =~= d@);
        f.append(&mut rest);
        (Vec::new(), f)
    } else if p <= len {
        let pu = p as usize;
        let w = slice_of(d, 0, pu);
        let f = slice_of(d, pu, d.len());
        assert(w@ =~= d@.take(pi));
        assert(f@ =~= d@.skip(pi));
        (w, f)
    } else {
        let mut w = slice_of(d, 0, d.len());
        assert(w@ =~= d@);
        let ghost dv = d@;
        let mut k: i128 = len;
        while k < p
            invariant
                len < p < len + 24,
                len <= k <= p,
                len == d.len(),
                w@ == dv + zeros((k - len) as nat),
            decreases p - k,
        {
            w.push('0');
            assert(w@ =~= dv + zeros((k + 1 - len) as nat));
            k += 1;
        }
        (w, Vec::new())
    };
    assert(whole@ =~= shift_whole(d@, pi));
    assert(frac@ =~= shift_frac(d@, pi));
    proof {
        lemma_zeros_digits(if pi <= 0 {
            (-pi) as nat
        } else if pi > d.len() {
            (pi - d.len()) as nat
        } else {
            0
        });
        lemma_all_digits_concat(zeros(if pi <= 0 {
            (-pi) as nat
        } else {
            0
        }), d@);
        lemma_all_digits_concat(d@, zeros(if pi > d.len() {
            (pi - d.len()) as nat
        } else {
            0
        }));
        assert(all_digits(whole@)) by {
            assert forall|i: int| 0 <= i < whole@.len() implies is_digit(#[trigger] whole@[i]) by {
                if 0 < pi <= d.len() {
                    assert(whole@[i] == d@[i]);
                }
            }
        }
        assert(all_digits(frac@)) by {
            assert forall|i: int| 0 <= i < frac@.len() implies is_digit(#[trigger] frac@[i]) by {
                if 0 < pi <= d.len() {
                    assert(frac@[i] == d@[pi + i]);
                }
            }
        }
    }
    let w = capped_value(&whole, WHOLE_CAP);
    let (num, den) = factor;
    if w == WHOLE_CAP {
        proof {
            lemma_saturates(digits_value(whole@), digits_value(frac@), frac@.len());
        }
        WHOLE_CAP
    } else {
        round_amount(w, &frac, num, den)
    }
}

/// Read a memory amount such as `"24576 MB"`, `"24 GB"` or `"16384 MiB"` into
/// MiB: the first word, cut to its digits and `.`, is a decimal number (with
/// an exponent, maybe); a value mentioning GB or GiB counts 1024 MiB per unit,
/// MB 10^6 / 2^20, KiB 1 / 1024, and any other is MiB.
/// Rounds half away from zero, gives 0 when the value or its number cannot be
/// read, and `u64::MAX` for amounts beyond it.
pub fn parse_mib(value: &str) -> (r: u64)
    ensures
        r == mib_value(value@),
{
    let t = trimmed(&chars_of(value));
    let word = match first_word_exec(&t) {
        Some(w) => w,
        None => return 0,
    };
    let n = trim_num_exec(&word);
    let (d, a, neg, m) = match decimal_number_exec(&n) {
        Some(x) => x,
        None => return 0,
    };
    let lower = ascii_lower_exec(&t);
    let factor: (u128, u128) = if contains_exec(&lower, &chars_of("gb")) || contains_exec(
        &lower,
        &chars_of("gib"),
    ) {
        (1024, 1)
    } else if contains_exec(&lower, &chars_of("mb")) {
        (15625, 16384)
    } else if contains_exec(&lower, &chars_of("kib")) {
        (1, 1024)
    } else {
        (1, 1)
    };
    let amount = amount_exec(&d, a, neg, m, factor);
    proof {
        assert(amount_mib(value@) == amount_of(num_digits(n@), num_point(n@), factor_view(factor)));
        assert(agrees(amount, amount_of(d@, num_point(n@), factor_view(factor))));
    }
    if amount > u64::MAX as u128 {
        u64::MAX
    } else {
        amount as u64
    }
}

/// `scaled_round` of a whole part read exactly and fraction digits `b`.
fn round_amount(w: u128, b: &Vec<char>, num: u128, den: u128) -> (r: u128)
    requires
        w < WHOLE_CAP,
        all_digits(b@),
        1 <= num <= 15625,
        1 <= den <= 16384,
    ensures
        r == scaled_round(w as nat, digits_value(b@), b@.len(), num as nat, den as nat),
{
    let carry = frac_carry(2 * num, b);
    proof {
        lemma_scaled_round(w as nat, digits_value(b@), b@.len(), num as nat, den as nat);
        assert(2 * num * w <= 2 * 15625 * WHOLE_CAP) by (nonlinear_arith)
            requires
                num <= 15625,
                w < WHOLE_CAP,
        ;
    }
    (2 * num * w + den + carry) / (2 * den)
}

proof fn lemma_saturates(whole: nat, frac: nat, k: nat)
    requires
        whole >= WHOLE_CAP,
    ensures
        whole > u64::MAX,
        scaled_round(whole, frac, k, 1024, 1) > u64::MAX,
        scaled_round(whole, frac, k, 15625, 16384) > u64::MAX,
        scaled_round(whole, frac, k, 1, 1) > u64::MAX,
        scaled_round(whole, frac, k, 1, 1024) > u64::MAX,
{
    lemma_pow10_pos(k);
    let p = pow10(k) as int;
    lemma_scaled_round(whole, frac, k, 1024, 1);
    lemma_scaled_round(whole, frac, k, 15625, 16384);
    lemma_scaled_round(whole, frac, k, 1, 1);
    lemma_scaled_round(whole, frac, k, 1, 1024);
    let c1 = (2 * 1024 * frac) as int / p;
    let c2 = (2 * 15625 * frac) as int / p;
    let c3 = (2 * frac) as int / p;
    assert(c1 >= 0 && c2 >= 0 && c3 >= 0) by (nonlinear_arith)
        requires
            p >= 1,
            c1 == (2 * 1024 * frac) as int / p,
            c2 == (2 * 15625 * frac) as int / p,
            c3 == (2 * frac) as int / p,
    ;
    assert(((2 * 1024 * whole + 1) as int + c1) / 2 > u64::MAX) by (nonlinear_arith)
        requires
            whole >= WHOLE_CAP,
            c1 >= 0,
    ;
    assert(((2 * 15625 * whole + 16384) as int + c2) / 32768 > u64::MAX) by (nonlinear_arith)
        requires
            whole >= WHOLE_CAP,
            c2 >= 0,
    ;
    assert(((2 * 1 * whole + 1) as int + c3) / 2 > u64::MAX) by (nonlinear_arith)
        requires
            whole >= WHOLE_CAP,
            c3 >= 0,
    ;
    assert(((2 * 1 * whole + 1024) as int + c3) / 2048 > u64::MAX) by (nonlinear_arith)
        requires
            whole >= WHOLE_CAP,
            c3 >= 0,
    ;
}

} // verus!
