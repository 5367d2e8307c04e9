//! Whether the decimal text of a single-precision number stands for a positive one.
//!
//! A text is rounded to the nearest number that single precision holds. The smallest positive one
//! is 2^-149, and a tie goes to zero, so a value is positive exactly when it is above 2^-150.

use vstd::arithmetic::power::{lemma_pow_adds, lemma_pow_increases, lemma_pow_positive, pow};
use vstd::prelude::*;

use crate::text::{equal_ignoring_case, find, part};

verus! {

/// `s` without a sign at its start.
pub open spec fn unsigned(s: Seq<char>) -> Seq<char> {
    if s.len() > 0 && (s[0] == '+' || s[0] == '-') {
        s.drop_first()
    } else {
        s
    }
}

/// Whether `s` starts with a minus sign.
pub open spec fn negative(s: Seq<char>) -> bool {
    s.len() > 0 && s[0] == '-'
}

/// How many characters stand before the exponent: all of them if there is none.
pub open spec fn mantissa_len(s: Seq<char>) -> int {
    let small = crate::text::upto(s, 'e');
    let large = crate::text::upto(s, 'E');
    if small <= large {
        small
    } else {
        large
    }
}

/// The digits before the point.
pub open spec fn whole(s: Seq<char>) -> Seq<char> {
    let m = s.take(mantissa_len(s));
    m.take(crate::text::upto(m, '.'))
}

/// The digits behind the point.
pub open spec fn fraction(s: Seq<char>) -> Seq<char> {
    let m = s.take(mantissa_len(s));
    let point = crate::text::upto(m, '.');
    if point < m.len() {
        m.skip(point + 1)
    } else {
        Seq::empty()
    }
}

/// What stands behind the letter of the exponent, if there is one.
pub open spec fn exponent_text(s: Seq<char>) -> Option<Seq<char>> {
    if mantissa_len(s) < s.len() {
        Some(s.skip(mantissa_len(s) + 1))
    } else {
        None
    }
}

/// Whether `s` is a decimal number without a sign: digits with at most one point and at least one
/// digit, and after a letter `e` an exponent with an optional sign.
pub open spec fn is_number(s: Seq<char>) -> bool {
    &&& crate::text::all_digits(whole(s))
    &&& crate::text::all_digits(fraction(s))
    &&& whole(s).len() + fraction(s).len() > 0
    &&& exponent_text(s) matches Some(x) ==> unsigned(x).len() > 0 && crate::text::all_digits(
        unsigned(x),
    )
}

/// The power of ten in a number.
pub open spec fn exponent(s: Seq<char>) -> int {
    match exponent_text(s) {
        None => 0,
        Some(x) => if negative(x) {
            -(crate::text::digits_value(unsigned(x)) as int)
        } else {
            crate::text::digits_value(unsigned(x)) as int
        },
    }
}

/// Whether `n * 10^scale` is above 2^-150.
pub open spec fn above_smallest(n: nat, scale: int) -> bool {
    n > 0 && (scale >= 0 || n * pow(2, 150) > pow(10, (-scale) as nat))
}

/// Whether the number that `s` stands for, in single precision, is positive; nothing if `s` does
/// not stand for a number.
pub open spec fn positive(s: Seq<char>) -> Option<bool> {
    let r = unsigned(s);
    if crate::text::same_letters(r, "inf"@) || crate::text::same_letters(r, "infinity"@) {
        Some(!negative(s))
    } else if crate::text::same_letters(r, "nan"@) {
        Some(false)
    } else if is_number(r) {
        Some(
            !negative(s) && above_smallest(
                crate::text::digits_value(whole(r) + fraction(r)),
                exponent(r) - fraction(r).len(),
            ),
        )
    } else {
        None
    }
}

// ----- Digits, the lowest first -----

/// The number that a run of digits stands for, the lowest digit first.
pub open spec fn low_first(v: Seq<u8>) -> nat
    decreases v.len(),
{
    if v.len() == 0 {
        0
    } else {
        (low_first(v.drop_last()) + v.last() * pow(10, (v.len() - 1) as nat)) as nat
    }
}

/// Whether every place of `v` holds a digit, and the highest is not zero.
pub open spec fn proper(v: Seq<u8>) -> bool {
    &&& v.len() > 0
    &&& v.last() > 0
    &&& forall|i: int| 0 <= i < v.len() ==> #[trigger] v[i] <= 9
}

proof fn lemma_low_first_push(v: Seq<u8>, d: u8)
    ensures
        low_first(v.push(d)) == low_first(v) + d * pow(10, v.len()),
{
    lemma_pow_positive(10, v.len());
    assert(v.push(d).drop_last() =~= v);
    assert(d * pow(10, v.len()) >= 0) by (nonlinear_arith)
        requires
            pow(10, v.len()) > 0,
            d >= 0,
    ;
}

proof fn lemma_pow_next(e: nat)
    ensures
        pow(10, e + 1) == 10 * pow(10, e),
        pow(10, e) > 0,
{
    lemma_pow_positive(10, e);
    reveal(pow);
}

/// A run of `n` digits is below 10^n.
proof fn lemma_low_first_below(v: Seq<u8>)
    requires
        forall|i: int| 0 <= i < v.len() ==> #[trigger] v[i] <= 9,
    ensures
        low_first(v) < pow(10, v.len()),
    decreases v.len(),
{
    if v.len() == 0 {
        reveal(pow);
    } else {
        let front = v.drop_last();
        assert forall|i: int| 0 <= i < front.len() implies #[trigger] front[i] <= 9 by {
            assert(front[i] == v[i]);
        }
        lemma_low_first_below(front);
        lemma_pow_next(front.len());
        let p = pow(10, front.len());
        let d = v.last();
        assert(d * p <= 9 * p) by (nonlinear_arith)
            requires
                d <= 9,
                p > 0,
        ;
        assert(d * p >= 0) by (nonlinear_arith)
            requires
                d >= 0,
                p > 0,
        ;
        assert(v[v.len() - 1] <= 9);
    }
}

/// A proper run of `n` digits is at least 10^(n-1), and is that only as a one with zeros.
proof fn lemma_proper(v: Seq<u8>)
    requires
        proper(v),
    ensures
        pow(10, (v.len() - 1) as nat) <= low_first(v) < pow(10, v.len()),
        low_first(v) == pow(10, (v.len() - 1) as nat) <==> v.last() == 1 && low_first(
            v.drop_last(),
        ) == 0,
{
    lemma_low_first_below(v);
    let p = pow(10, (v.len() - 1) as nat);
    lemma_pow_positive(10, (v.len() - 1) as nat);
    let d = v.last();
    assert(d * p >= p && (d >= 2 ==> d * p >= 2 * p) && (d == 1 ==> d * p == p)) by (nonlinear_arith)
        requires
            d >= 1,
            p > 0,
    ;
}

proof fn lemma_low_first_zero(v: Seq<u8>)
    ensures
        low_first(v) == 0 <==> forall|i: int| 0 <= i < v.len() ==> #[trigger] v[i] == 0,
    decreases v.len(),
{
    if v.len() > 0 {
        let front = v.drop_last();
        lemma_low_first_zero(front);
        let p = pow(10, front.len());
        lemma_pow_positive(10, front.len());
        let d = v.last();
        assert(d * p >= 0 && (d > 0 ==> d * p > 0)) by (nonlinear_arith)
            requires
                d >= 0,
                p > 0,
        ;
        if low_first(v) == 0 {
            assert forall|i: int| 0 <= i < v.len() implies #[trigger] v[i] == 0 by {
                if i < front.len() {
                    assert(front[i] == v[i]);
                }
            }
        }
        if forall|i: int| 0 <= i < v.len() ==> #[trigger] v[i] == 0 {
            assert forall|i: int| 0 <= i < front.len() implies #[trigger] front[i] == 0 by {
                assert(front[i] == v[i]);
            }
            assert(v[v.len() - 1] == 0);
            assert(d * p == 0) by (nonlinear_arith)
                requires
                    d == 0,
            ;
        }
    }
}

/// Doubles a number.
fn double(v: &mut Vec<u8>)
    requires
        proper(old(v)@),
    ensures
        proper(final(v)@),
        low_first(final(v)@) == 2 * low_first(old(v)@),
        final(v)@.len() <= old(v)@.len() + 1,
{
    let ghost before = v@;
    let mut carry: u8 = 0;
    let mut i: usize = 0;
    while i < v.len()
        invariant
            i <= v@.len(),
            v@.len() == before.len(),
            before == old(v)@,
            proper(before),
            carry <= 1,
            forall|j: int| 0 <= j < i ==> #[trigger] v@[j] <= 9,
            forall|j: int| i <= j < v@.len() ==> #[trigger] v@[j] == before[j],
            2 * low_first(before.take(i as int)) == low_first(v@.take(i as int)) + carry * pow(
                10,
                i as nat,
            ),
            i == v@.len() && carry == 0 ==> v@.last() > 0,
        decreases v@.len() - i,
    {
        let ghost now = v@;
        assert(v@[i as int] == before[i as int]);
        assert(before[i as int] <= 9);
        let sum: u8 = v[i] * 2 + carry;
        let kept: u8 = if sum >= 10 {
            sum - 10
        } else {
            sum
        };
        let next: u8 = if sum >= 10 {
            1
        } else {
            0
        };
        proof {
            let p = pow(10, i as nat);
            let d = before[i as int];
            lemma_pow_next(i as nat);
            lemma_low_first_push(before.take(i as int), d);
            lemma_low_first_push(now.take(i as int), kept);
            assert(before.take(i + 1) =~= before.take(i as int).push(d));
            assert(2 * (d * p) + carry * p == kept * p + next * (10 * p)) by (nonlinear_arith)
                requires
                    2 * d + carry == kept + 10 * next,
            ;
        }
        v.set(i, kept);
        assert(v@.take(i + 1) =~= now.take(i as int).push(kept));
        carry = next;
        i = i + 1;
    }
    assert(before.take(i as int) =~= before);
    assert(v@.take(i as int) =~= v@);
    if carry > 0 {
        proof {
            lemma_low_first_push(v@, carry);
        }
        v.push(carry);
    }
}

/// A decimal digit as a number.
fn digit_value(c: char) -> (r: u8)
    requires
        crate::text::is_digit(c),
    ensures
        r == c as u32 - '0' as u32,
        r <= 9,
{
    (c as u32 - '0' as u32) as u8
}

proof fn lemma_digits_value_first(c: char, s: Seq<char>)
    requires
        crate::text::is_digit(c),
        crate::text::all_digits(s),
    ensures
        crate::text::digits_value(seq![c] + s) == (c as u32 - '0' as u32) * pow(10, s.len())
            + crate::text::digits_value(s),
    decreases s.len(),
{
    let d = c as u32 - '0' as u32;
    if s.len() == 0 {
        reveal(pow);
        assert((seq![c] + s) =~= seq![c]);
        assert(seq![c].drop_last() =~= Seq::empty());
        assert(crate::text::digits_value(seq![c].drop_last()) == 0);
        assert(pow(10, 0) == 1);
    } else {
        let front = s.drop_last();
        assert forall|i: int| 0 <= i < front.len() implies crate::text::is_digit(
            #[trigger] front[i],
        ) by {
            assert(front[i] == s[i]);
        }
        lemma_digits_value_first(c, front);
        lemma_pow_next(front.len());
        assert((seq![c] + s).drop_last() =~= seq![c] + front);
        assert((seq![c] + s).last() == s.last());
        assert(d * (10 * pow(10, front.len())) == (d * pow(10, front.len())) * 10)
            by (nonlinear_arith);
        assert(crate::text::is_digit(s[s.len() - 1]));
    }
}

/// A run of `n` digits is below 10^n.
proof fn lemma_digits_value_below(s: Seq<char>)
    requires
        crate::text::all_digits(s),
    ensures
        crate::text::digits_value(s) < pow(10, s.len()),
    decreases s.len(),
{
    if s.len() == 0 {
        reveal(pow);
    } else {
        let front = s.drop_last();
        assert forall|i: int| 0 <= i < front.len() implies crate::text::is_digit(
            #[trigger] front[i],
        ) by {
            assert(front[i] == s[i]);
        }
        lemma_digits_value_below(front);
        lemma_pow_next(front.len());
        assert(crate::text::is_digit(s[s.len() - 1]));
    }
}

/// The digits of a number, the lowest first, without zeros in front; empty for zero.
fn significant(digits: &Vec<char>) -> (r: Vec<u8>)
    requires
        crate::text::all_digits(digits@),
    ensures
        low_first(r@) == crate::text::digits_value(digits@),
        r@.len() <= digits@.len(),
        r@.len() == 0 || proper(r@),
{
    let n: usize = digits.len();
    let mut first: usize = 0;
    assert(digits@.skip(0) =~= digits@);
    while first < n && digits[first] == '0'
        invariant
            first <= n == digits@.len(),
            crate::text::all_digits(digits@),
            crate::text::digits_value(digits@) == crate::text::digits_value(
                digits@.skip(first as int),
            ),
        decreases n - first,
    {
        proof {
            let rest = digits@.skip(first + 1);
            assert(digits@.skip(first as int) =~= seq!['0'] + rest);
            lemma_digits_value_first('0', rest);
            assert(0 * pow(10, rest.len()) == 0);
        }
        first = first + 1;
    }
    let mut out: Vec<u8> = Vec::new();
    let mut i: usize = n;
    assert(digits@.skip(n as int) =~= Seq::empty());
    while i > first
        invariant
            first <= i <= n == digits@.len(),
            out@.len() == n - i,
            crate::text::all_digits(digits@),
            forall|j: int| 0 <= j < out@.len() ==> #[trigger] out@[j] <= 9,
            low_first(out@) == crate::text::digits_value(digits@.skip(i as int)),
            i < n ==> out@.last() == digits@[i as int] as u32 - '0' as u32,
        decreases i,
    {
        i = i - 1;
        let c = digits[i];
        assert(crate::text::is_digit(digits@[i as int]));
        let d: u8 = digit_value(c);
        proof {
            let rest = digits@.skip(i + 1);
            assert(digits@.skip(i as int) =~= seq![c] + rest);
            lemma_digits_value_first(c, rest);
            lemma_low_first_push(out@, d);
        }
        out.push(d);
    }
    out
}

/// A number above which every exponent decides alone.
pub const EXPONENT_CAP: u128 = 0x1_0000_0000_0000_0000_0000;

/// The magnitude of an exponent, or something at least as large as the cap where it is.
fn read_magnitude(digits: &Vec<char>) -> (r: u128)
    requires
        crate::text::all_digits(digits@),
    ensures
        r < EXPONENT_CAP ==> r == crate::text::digits_value(digits@),
        r >= EXPONENT_CAP ==> crate::text::digits_value(digits@) >= EXPONENT_CAP,
        r < 10 * EXPONENT_CAP + 10,
{
    let mut acc: u128 = 0;
    let mut i: usize = 0;
    assert(digits@.take(0) =~= Seq::empty());
    while i < digits.len()
        invariant
            i <= digits@.len(),
            crate::text::all_digits(digits@),
            acc < EXPONENT_CAP ==> acc == crate::text::digits_value(digits@.take(i as int)),
            acc >= EXPONENT_CAP ==> crate::text::digits_value(digits@.take(i as int))
                >= EXPONENT_CAP,
            acc < 10 * EXPONENT_CAP + 10,
        decreases digits@.len() - i,
    {
        assert(crate::text::is_digit(digits@[i as int]));
        assert(digits@.take(i + 1).drop_last() =~= digits@.take(i as int));
        if acc < EXPONENT_CAP {
            acc = acc * 10 + digit_value(digits[i]) as u128;
        }
        i = i + 1;
    }
    assert(digits@.take(i as int) =~= digits@);
    acc
}

proof fn lemma_scaled(v: Seq<u8>, n: nat, k: int)
    requires
        proper(v),
        n > 0,
        low_first(v) == n * pow(2, 150),
    ensures
        above_smallest(n, -k) <==> v.len() - 1 > k || (v.len() - 1 == k && low_first(v) != pow(
            10,
            (v.len() - 1) as nat,
        )),
{
    lemma_proper(v);
    let l = v.len();
    if k <= 0 {
        lemma_pow_increases(2, 4, 150);
        reveal(pow);
        reveal_with_fuel(pow, 5);
        assert(pow(2, 4) == 16);
        assert(n * pow(2, 150) >= 16) by (nonlinear_arith)
            requires
                n >= 1,
                pow(2, 150) >= 16,
        ;
        if l == 1 {
            lemma_pow_next(0);
            assert(pow(10, 0) == 1);
            assert(pow(10, 1) == 10);
        }
    } else if l - 1 > k {
        lemma_pow_increases(10, k as nat, (l - 1) as nat);
        lemma_pow_next(k as nat);
        lemma_pow_increases(10, (k + 1) as nat, (l - 1) as nat);
    } else if l - 1 < k {
        lemma_pow_increases(10, l, k as nat);
    }
}

/// Whether a number is a one with zeros.
fn is_power_of_ten(v: &Vec<u8>) -> (r: bool)
    requires
        proper(v@),
    ensures
        r == (low_first(v@) == pow(10, (v@.len() - 1) as nat)),
{
    let n: usize = v.len() - 1;
    proof {
        lemma_proper(v@);
        lemma_low_first_zero(v@.drop_last());
    }
    if v[n] != 1 {
        return false;
    }
    let mut j: usize = 0;
    while j < n
        invariant
            j <= n,
            n == v@.len() - 1,
            low_first(v@) == pow(10, n as nat) <==> low_first(v@.drop_last()) == 0,
            low_first(v@.drop_last()) == 0 <==> forall|i: int|
                0 <= i < v@.drop_last().len() ==> #[trigger] v@.drop_last()[i] == 0,
            forall|m: int| 0 <= m < j ==> #[trigger] v@[m] == 0,
        decreases n - j,
    {
        if v[j] != 0 {
            assert(v@.drop_last()[j as int] != 0);
            return false;
        }
        j = j + 1;
    }
    true
}

/// Whether `digits * 10^(-k)` is above 2^-150.
fn scaled_above_smallest(digits: &Vec<char>, k: i128) -> (r: bool)
    requires
        crate::text::all_digits(digits@),
    ensures
        r == above_smallest(crate::text::digits_value(digits@), -k),
        k > digits@.len() + 200 ==> !r,
{
    let mut v = significant(digits);
    let ghost n = crate::text::digits_value(digits@);
    if v.len() == 0 {
        return false;
    }
    proof {
        lemma_proper(v@);
        lemma_pow_positive(10, (v@.len() - 1) as nat);
        reveal(pow);
        assert(pow(2, 0) == 1);
        assert(n * 1 == n);
    }
    let mut i: usize = 0;
    while i < 150
        invariant
            i <= 150,
            proper(v@),
            low_first(v@) == n * pow(2, i as nat),
            v@.len() <= digits@.len() + i,
        decreases 150 - i,
    {
        proof {
            assert(pow(2, (i + 1) as nat) == 2 * pow(2, i as nat)) by {
                reveal(pow);
            }
            assert(2 * (n * pow(2, i as nat)) == n * (2 * pow(2, i as nat))) by (nonlinear_arith);
        }
        double(&mut v);
        i = i + 1;
    }
    proof {
        lemma_scaled(v@, n, k as int);
    }
    let top: i128 = (v.len() - 1) as i128;
    top > k || top == k && !is_power_of_ten(&v)
}

fn digits_only(s: &Vec<char>) -> (r: bool)
    ensures
        r == crate::text::all_digits(s@),
{
    let mut i: usize = 0;
    while i < s.len()
        invariant
            i <= s@.len(),
            forall|j: int| 0 <= j < i ==> crate::text::is_digit(#[trigger] s@[j]),
        decreases s@.len() - i,
    {
        let c = s[i];
        if !('0' <= c && c <= '9') {
            assert(!crate::text::is_digit(s@[i as int]));
            return false;
        }
        i = i + 1;
    }
    true
}

/// `s` without a sign at its start.
fn without_sign(s: &Vec<char>) -> (r: Vec<char>)
    ensures
        r@ == unsigned(s@),
{
    let n: usize = s.len();
    if n > 0 && (s[0] == '+' || s[0] == '-') {
        let r = part(s, 1, n);
        assert(r@ =~= s@.drop_first());
        r
    } else {
        let r = part(s, 0, n);
        assert(r@ =~= s@);
        r
    }
}

/// Whether a decimal number without a sign is above 2^-150; nothing if it is no such number.
fn number_positive(s: &Vec<char>) -> (r: Option<bool>)
    ensures
        r == if is_number(s@) {
            Some(
                above_smallest(
                    crate::text::digits_value(whole(s@) + fraction(s@)),
                    exponent(s@) - fraction(s@).len(),
                ),
            )
        } else {
            None
        },
{
    let n: usize = s.len();
    let small: usize = find(s, 'e');
    let large: usize = find(s, 'E');
    let m: usize = if small <= large {
        small
    } else {
        large
    };
    let mantissa = part(s, 0, m);
    assert(mantissa@ =~= s@.take(mantissa_len(s@)));
    let point: usize = find(&mantissa, '.');
    let head = part(&mantissa, 0, point);
    assert(head@ =~= whole(s@));
    let tail = if point < mantissa.len() {
        part(&mantissa, point + 1, mantissa.len())
    } else {
        Vec::new()
    };
    assert(tail@ =~= fraction(s@));
    if !digits_only(&head) || !digits_only(&tail) || head.len() == 0 && tail.len() == 0 {
        return None;
    }
    let mut minus = false;
    let mut magnitude: u128 = 0;
    if m < n {
        let x = part(s, m + 1, n);
        assert(x@ =~= s@.skip(mantissa_len(s@) + 1));
        let digits = without_sign(&x);
        if digits.len() == 0 || !digits_only(&digits) {
            return None;
        }
        minus = x.len() > 0 && x[0] == '-';
        magnitude = read_magnitude(&digits);
    }
    let mut all = head;
    let mut i: usize = 0;
    let ghost before = all@;
    while i < tail.len()
        invariant
            i <= tail@.len(),
            all@ =~= before + tail@.take(i as int),
            all.len() <= before.len() + i,
        decreases tail@.len() - i,
    {
        all.push(tail[i]);
        assert(tail@.take(i + 1) =~= tail@.take(i as int).push(tail@[i as int]));
        i = i + 1;
    }
    assert(tail@.take(i as int) =~= tail@);
    assert(all@ =~= whole(s@) + fraction(s@));
    assert(crate::text::all_digits(all@));
    let frac_len: i128 = tail.len() as i128;
    let k: i128 = if minus {
        frac_len + magnitude as i128
    } else {
        frac_len - magnitude as i128
    };
    let ghost value = crate::text::digits_value(all@);
    let ghost scale = exponent(s@) - fraction(s@).len();
    proof {
        if magnitude >= EXPONENT_CAP {
            if minus {
                lemma_digits_value_below(all@);
                lemma_beyond(value, all@.len(), -scale);
                assert(all.len() as int == all@.len());
            } else {
                assert(scale >= 0);
            }
        }
    }
    let r = scaled_above_smallest(&all, k);
    proof {
        if magnitude >= EXPONENT_CAP && !minus {
            assert(-k >= 0);
        }
    }
    Some(r)
}

/// A number whose exponent is far below its count of digits is not above 2^-150.
proof fn lemma_beyond(n: nat, len: nat, k: int)
    requires
        n < pow(10, len),
        k > len + 200,
    ensures
        !above_smallest(n, -k),
{
    lemma_pow_adds(10, len, 200);
    lemma_pow_increases(10, len + 200, k as nat);
    lemma_smallest_bound();
    assert(n * pow(2, 150) <= pow(10, len) * pow(10, 200)) by (nonlinear_arith)
        requires
            0 <= n < pow(10, len),
            0 < pow(2, 150) <= pow(10, 200),
    ;
}

proof fn lemma_smallest_bound()
    ensures
        0 < pow(2, 150) <= pow(10, 200),
{
    lemma_pow_positive(2, 150);
    lemma_two_below_ten(150);
    lemma_pow_increases(10, 150, 200);
}

proof fn lemma_two_below_ten(e: nat)
    ensures
        0 < pow(2, e) <= pow(10, e),
    decreases e,
{
    reveal(pow);
    if e > 0 {
        lemma_two_below_ten((e - 1) as nat);
    }
}

/// Whether the number that `s` stands for, in single precision, is positive; nothing if `s` does
/// not stand for a number.
pub fn parse_positive(s: &Vec<char>) -> (r: Option<bool>)
    ensures
        r == positive(s@),
{
    let minus = s.len() > 0 && s[0] == '-';
    let rest = without_sign(s);
    if equal_ignoring_case(&rest, "inf") || equal_ignoring_case(&rest, "infinity") {
        return Some(!minus);
    }
    if equal_ignoring_case(&rest, "nan") {
        return Some(false);
    }
    match number_positive(&rest) {
        Some(above) => Some(!minus && above),
        None => None,
    }
}

// ----- What holds of it -----

/// Whether a run of digits holds one that is not zero.
pub open spec fn some_digit_counts(s: Seq<char>) -> bool {
    exists|i: int| 0 <= i < s.len() && '1' <= #[trigger] s[i] <= '9'
}

proof fn lemma_value_counts(s: Seq<char>)
    requires
        crate::text::all_digits(s),
    ensures
        crate::text::digits_value(s) > 0 <==> some_digit_counts(s),
    decreases s.len(),
{
    if s.len() > 0 {
        let front = s.drop_last();
        assert forall|i: int| 0 <= i < front.len() implies crate::text::is_digit(
            #[trigger] front[i],
        ) by {
            assert(front[i] == s[i]);
        }
        lemma_value_counts(front);
        let last = s[s.len() - 1];
        assert(crate::text::is_digit(last));
        if some_digit_counts(front) {
            let i = choose|i: int| 0 <= i < front.len() && '1' <= #[trigger] front[i] <= '9';
            assert(s[i] == front[i]);
        }
        if some_digit_counts(s) && !('1' <= last <= '9') {
            let i = choose|i: int| 0 <= i < s.len() && '1' <= #[trigger] s[i] <= '9';
            assert(front[i] == s[i]);
        }
    }
}

proof fn lemma_no_letter(s: Seq<char>)
    requires
        s.len() > 0,
        '0' <= s[0] <= '9' || s[0] == '.',
    ensures
        !crate::text::same_letters(s, "inf"@),
        !crate::text::same_letters(s, "infinity"@),
        !crate::text::same_letters(s, "nan"@),
{
    reveal_strlit("inf");
    reveal_strlit("infinity");
    reveal_strlit("nan");
    assert(crate::text::lower(s[0]) == s[0]);
    assert(crate::text::lower("inf"@[0]) == 'i');
    assert(crate::text::lower("infinity"@[0]) == 'i');
    assert(crate::text::lower("nan"@[0]) == 'n');
}

proof fn lemma_first_place(s: Seq<char>, c: char, n: int)
    requires
        0 <= n <= s.len(),
        n < s.len() ==> s[n] == c,
        forall|i: int| 0 <= i < n ==> #[trigger] s[i] != c,
    ensures
        crate::text::upto(s, c) == n,
{
    crate::text::lemma_upto(s, c);
    let m = crate::text::upto(s, c);
    if m < n {
        assert(s[m] != c);
    }
    if n < m {
        assert(s[n] != c);
    }
}

proof fn lemma_decimal_parts(w: Seq<char>, f: Seq<char>)
    requires
        crate::text::all_digits(w),
        crate::text::all_digits(f),
    ensures
        ({
            let s = w + seq!['.'] + f;
            &&& whole(s) == w
            &&& fraction(s) == f
            &&& exponent_text(s) is None
        }),
        whole(w) == w,
        fraction(w) == Seq::<char>::empty(),
        exponent_text(w) is None,
{
    let s = w + seq!['.'] + f;
    let n = s.len() as int;
    assert forall|i: int| 0 <= i < n implies #[trigger] s[i] != 'e' && s[i] != 'E' by {
        if i < w.len() {
            assert(s[i] == w[i] && crate::text::is_digit(w[i]));
        } else if i > w.len() {
            assert(s[i] == f[i - w.len() - 1] && crate::text::is_digit(f[i - w.len() - 1]));
        }
    }
    lemma_first_place(s, 'e', n);
    lemma_first_place(s, 'E', n);
    assert(s.take(n) =~= s);
    assert forall|i: int| 0 <= i < w.len() implies #[trigger] s[i] != '.' by {
        assert(s[i] == w[i] && crate::text::is_digit(w[i]));
    }
    assert(s[w.len() as int] == '.');
    lemma_first_place(s, '.', w.len() as int);
    assert(s.take(w.len() as int) =~= w);
    assert(s.skip(w.len() as int + 1) =~= f);
    let k = w.len() as int;
    assert forall|i: int| 0 <= i < k implies #[trigger] w[i] != 'e' && w[i] != 'E' && w[i]
        != '.' by {
        assert(crate::text::is_digit(w[i]));
    }
    lemma_first_place(w, 'e', k);
    lemma_first_place(w, 'E', k);
    assert(w.take(k) =~= w);
    lemma_first_place(w, '.', k);
}

/// Ten to the 45th is below two to the 150th.
proof fn lemma_smallest_tenth()
    ensures
        pow(10, 45) < pow(2, 150),
{
    lemma_pow_adds(2, 75, 75);
    lemma_pow_adds(2, 50, 25);
    lemma_pow_adds(2, 25, 25);
    lemma_pow_adds(10, 30, 15);
    lemma_pow_adds(10, 15, 15);
    reveal(pow);
    assert(pow(2, 25) == 33_554_432) by {
        reveal_with_fuel(pow, 26);
    }
    assert(pow(10, 15) == 1_000_000_000_000_000) by {
        reveal_with_fuel(pow, 16);
    }
    let a = pow(2, 25);
    let b = pow(10, 15);
    assert(a * a * a > 37_000_000 * b) by (nonlinear_arith)
        requires
            a == 33_554_432,
            b == 1_000_000_000_000_000,
    ;
    let c = pow(2, 75);
    assert(c == a * a * a);
    assert(c * c > b * b * b) by (nonlinear_arith)
        requires
            c > 37_000_000 * b,
            b == 1_000_000_000_000_000,
    ;
}

/// A plain decimal number, with up to 45 places behind the point, is positive exactly if one of its
/// digits is not zero. A plus sign in front changes nothing, and with a minus sign it is not.
pub proof fn lemma_plain_numbers(w: Seq<char>, f: Seq<char>)
    requires
        crate::text::all_digits(w),
        crate::text::all_digits(f),
        w.len() + f.len() > 0,
        f.len() <= 45,
    ensures
        ({
            let s = w + seq!['.'] + f;
            &&& positive(s) == Some(some_digit_counts(w) || some_digit_counts(f))
            &&& positive(seq!['+'] + s) == positive(s)
            &&& positive(seq!['-'] + s) == Some(false)
        }),
        w.len() > 0 ==> {
            &&& positive(w) == Some(some_digit_counts(w))
            &&& positive(seq!['+'] + w) == positive(w)
            &&& positive(seq!['-'] + w) == Some(false)
        },
{
    let s = w + seq!['.'] + f;
    let none = Seq::<char>::empty();
    lemma_decimal_parts(w, f);
    if w.len() > 0 {
        assert(s[0] == w[0] && crate::text::is_digit(w[0]));
        lemma_no_letter(w);
        assert((seq!['+'] + w).drop_first() =~= w);
        assert((seq!['-'] + w).drop_first() =~= w);
        assert(w + none =~= w);
        lemma_value_counts(w);
    } else {
        assert(s[0] == '.');
    }
    lemma_no_letter(s);
    assert((seq!['+'] + s).drop_first() =~= s);
    assert((seq!['-'] + s).drop_first() =~= s);
    let all = w + f;
    assert forall|i: int| 0 <= i < all.len() implies crate::text::is_digit(#[trigger] all[i]) by {
        if i < w.len() {
            assert(all[i] == w[i]);
        } else {
            assert(all[i] == f[i - w.len()]);
        }
    }
    lemma_value_counts(all);
    assert(some_digit_counts(all) == (some_digit_counts(w) || some_digit_counts(f))) by {
        if some_digit_counts(w) {
            let i = choose|i: int| 0 <= i < w.len() && '1' <= #[trigger] w[i] <= '9';
            assert(all[i] == w[i]);
        }
        if some_digit_counts(f) {
            let i = choose|i: int| 0 <= i < f.len() && '1' <= #[trigger] f[i] <= '9';
            assert(all[w.len() + i] == f[i]);
        }
        if some_digit_counts(all) {
            let i = choose|i: int| 0 <= i < all.len() && '1' <= #[trigger] all[i] <= '9';
            if i < w.len() {
                assert(w[i] == all[i]);
            } else {
                assert(f[i - w.len()] == all[i]);
            }
        }
    }
    let n = crate::text::digits_value(all);
    if n > 0 && f.len() > 0 {
        lemma_smallest_tenth();
        lemma_pow_increases(10, f.len(), 45);
        lemma_pow_positive(2, 150);
        assert(n * pow(2, 150) >= pow(2, 150)) by (nonlinear_arith)
            requires
                n >= 1,
                pow(2, 150) > 0,
        ;
    }
    assert(exponent(s) - fraction(s).len() == -(f.len() as int));
}

/// A number with an exponent is its digits times that power of ten: with a positive exponent it is
/// positive exactly if a digit is not zero, and with a negative one exactly if it is above half of
/// the smallest number that single precision holds.
pub proof fn lemma_numbers_with_exponents(w: Seq<char>, x: Seq<char>, letter: char)
    requires
        crate::text::all_digits(w),
        crate::text::all_digits(x),
        w.len() > 0,
        x.len() > 0,
        letter == 'e' || letter == 'E',
    ensures
        ({
            let n = crate::text::digits_value(w);
            let scale = crate::text::digits_value(x);
            &&& positive(w + seq![letter] + x) == Some(some_digit_counts(w))
            &&& positive(w + seq![letter, '-'] + x) == Some(
                n > 0 && (scale == 0 || n * pow(2, 150) > pow(10, scale)),
            )
        }),
{
    let none = Seq::<char>::empty();
    let k = w.len() as int;
    lemma_value_counts(w);
    assert forall|i: int| 0 <= i < k implies #[trigger] w[i] != 'e' && w[i] != 'E' && w[i]
        != '.' by {
        assert(crate::text::is_digit(w[i]));
    }
    assert(crate::text::is_digit(x[0]));
    assert(w + none =~= w);
    let s = w + seq![letter] + x;
    let t = w + seq![letter, '-'] + x;
    assert(s[0] == w[0] && t[0] == w[0] && crate::text::is_digit(w[0]));
    lemma_no_letter(s);
    lemma_no_letter(t);
    lemma_mantissa(w, seq![letter] + x, letter);
    lemma_mantissa(w, seq![letter, '-'] + x, letter);
    assert(w + (seq![letter] + x) =~= s);
    assert(w + (seq![letter, '-'] + x) =~= t);
    assert(s.take(k) =~= w);
    assert(t.take(k) =~= w);
    lemma_first_place(w, '.', k);
    assert(s.skip(k + 1) =~= x);
    assert(t.skip(k + 1) =~= seq!['-'] + x);
    assert((seq!['-'] + x).drop_first() =~= x);
    assert(whole(s) =~= w && whole(t) =~= w);
}

proof fn lemma_mantissa(w: Seq<char>, rest: Seq<char>, letter: char)
    requires
        forall|i: int| 0 <= i < w.len() ==> #[trigger] w[i] != 'e' && w[i] != 'E',
        letter == 'e' || letter == 'E',
        rest.len() > 0,
        rest[0] == letter,
    ensures
        mantissa_len(w + rest) == w.len(),
{
    let s = w + rest;
    let k = w.len() as int;
    let other = if letter == 'e' {
        'E'
    } else {
        'e'
    };
    assert forall|i: int| 0 <= i < k implies #[trigger] s[i] != letter && s[i] != other by {
        assert(s[i] == w[i]);
    }
    assert(s[k] == letter);
    lemma_first_place(s, letter, k);
    crate::text::lemma_upto(s, other);
    let m = crate::text::upto(s, other);
    if m < k {
        assert(s[m] != other);
    }
}

/// Infinity is positive unless it has a minus sign, and what is no number in single precision is
/// not positive. Nothing at all, or a point alone, stands for no number.
pub proof fn lemma_other_numbers(s: Seq<char>)
    ensures
        crate::text::same_letters(s, "inf"@) || crate::text::same_letters(s, "infinity"@)
            ==> positive(s) == Some(true) && positive(seq!['-'] + s) == Some(false),
        crate::text::same_letters(s, "nan"@) ==> positive(s) == Some(false),
        positive(Seq::empty()) is None,
        positive(seq!['.']) is None,
{
    reveal_strlit("inf");
    reveal_strlit("infinity");
    reveal_strlit("nan");
    let none = Seq::<char>::empty();
    assert(unsigned(none) =~= none);
    assert(!crate::text::same_letters(none, "inf"@));
    assert(!crate::text::same_letters(none, "infinity"@));
    assert(!crate::text::same_letters(none, "nan"@));
    lemma_decimal_parts(none, none);
    assert(none + seq!['.'] + none =~= seq!['.']);
    lemma_no_letter(seq!['.']);
    assert(unsigned(seq!['.']) =~= seq!['.']);
    if crate::text::same_letters(s, "inf"@) || crate::text::same_letters(s, "infinity"@)
        || crate::text::same_letters(s, "nan"@) {
        assert(crate::text::lower(s[0]) != '+' && crate::text::lower(s[0]) != '-');
        assert(s[0] != '+' && s[0] != '-');
        assert((seq!['-'] + s).drop_first() =~= s);
        assert(crate::text::lower("inf"@[0]) == 'i');
        assert(crate::text::lower("infinity"@[0]) == 'i');
        assert(crate::text::lower("nan"@[0]) == 'n');
    }
}

} // verus!
