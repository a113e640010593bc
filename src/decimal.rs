use bigdecimal::num_bigint::BigInt;
use bigdecimal::BigDecimal;
use vstd::prelude::*;

verus! {

/// Number of units in one: a `Decimal` holds nine fractional digits.
pub const UNITS_PER_ONE: u128 = 1_000_000_000;

/// A non-negative fixed-point decimal number worth `units / 10^9`.
#[derive(Clone, Copy, Debug, PartialEq, Eq)]
pub struct Decimal {
    pub units: u128,
}

/// `n / d` rounded to the nearest integer, halves rounded up.
pub open spec fn round_half_up(n: int, d: int) -> int {
    n / d + if 2 * (n % d) >= d { 1int } else { 0int }
}

/// The multiple of `step` nearest to `value`, halves rounded up.
pub open spec fn nearest_multiple(value: int, step: int) -> int {
    step * round_half_up(value, step)
}

proof fn lemma_round_half_up_bound(n: int, d: int)
    requires
        n >= 0,
        d > 0,
    ensures
        0 <= round_half_up(n, d),
        d * round_half_up(n, d) <= n + d,
{
    vstd::arithmetic::div_mod::lemma_fundamental_div_mod(n, d);
    vstd::arithmetic::div_mod::lemma_mod_bound(n, d);
    vstd::arithmetic::div_mod::lemma_div_pos_is_pos(n, d);
    assert(d * (n / d) + n % d == n);
    assert(d * (n / d + 1) == d * (n / d) + d) by (nonlinear_arith);
}

/// Rounds `source` to the nearest multiple of `fraction` (e.g. 0.73 to a
/// quarter gives 0.75), halves rounded up.
pub fn round_to_nearest(source: Decimal, fraction: Decimal) -> (r: Decimal)
    requires
        fraction.units > 0,
        source.units + fraction.units <= u128::MAX,
    ensures
        r.units == nearest_multiple(source.units as int, fraction.units as int),
{
    let s = source.units;
    let f = fraction.units;
    let whole = s / f;
    let rest = s % f;
    let times = if rest >= f - rest { whole + 1 } else { whole };
    proof {
        lemma_round_half_up_bound(s as int, f as int);
    }
    Decimal { units: f * times }
}


/// Ticks in one beat. At `bpm` beats per minute a beat lasts `60 / bpm`
/// seconds, so `nanoseconds * bpm` ticks measure a duration in beats exactly.
pub const TICKS_PER_BEAT: u128 = 60_000_000_000;

/// Largest tick count that `duration_to_beats` can produce.
pub const MAX_TICKS: u128 = 170141183460469231704017187605319778305;

/// A span of musical time worth `ticks / TICKS_PER_BEAT` beats.
#[derive(Clone, Copy, Debug, PartialEq, Eq)]
pub struct BeatSpan {
    pub ticks: u128,
}

/// Converts a duration in nanoseconds to beats at the given tempo, without
/// rounding.
pub fn duration_to_beats(duration_nanos: u64, bpm: i64) -> (r: BeatSpan)
    requires
        bpm > 0,
    ensures
        r.ticks == duration_nanos as int * bpm as int,
        r.ticks <= MAX_TICKS,
{
    let d = duration_nanos as u128;
    let b = bpm as u128;
    assert(d * b <= 18446744073709551615u128 * 9223372036854775807u128) by (nonlinear_arith)
        requires
            d <= 18446744073709551615u128,
            b <= 9223372036854775807u128,
    ;
    BeatSpan { ticks: d * b }
}

/// The multiple of `step` units nearest to a span of `ticks` (worth
/// `ticks / 60` units), halves rounded up.
pub open spec fn quantized_units(ticks: int, step: int) -> int {
    step * round_half_up(ticks, 60 * step)
}

/// Rounds a span of beats to the nearest multiple of `fraction`, halves
/// rounded up, with no intermediate rounding.
pub fn round_beats_to_nearest(beats: BeatSpan, fraction: Decimal) -> (r: Decimal)
    requires
        0 < fraction.units <= UNITS_PER_ONE,
        beats.ticks <= MAX_TICKS,
    ensures
        r.units == quantized_units(beats.ticks as int, fraction.units as int),
{
    let t = beats.ticks;
    let f = fraction.units;
    let step = 60 * f;
    let whole = t / step;
    let rest = t % step;
    let times = if rest >= step - rest { whole + 1 } else { whole };
    proof {
        lemma_round_half_up_bound(t as int, step as int);
        assert(times == round_half_up(t as int, step as int));
        assert(60 * (f * times) == step * times) by (nonlinear_arith)
            requires step == 60 * f;
        assert(f * times <= t / 60 + f);
    }
    Decimal { units: f * times }
}

/// The whole number of ones in `units`, rounded up.
pub open spec fn ceil_whole(units: int) -> int {
    units / (UNITS_PER_ONE as int) + if units % (UNITS_PER_ONE as int) > 0 { 1int } else { 0int }
}

pub open spec fn is_power_of_two(n: int) -> bool
    decreases n,
{
    if n <= 0 {
        false
    } else if n == 1 {
        true
    } else {
        n % 2 == 0 && is_power_of_two(n / 2)
    }
}

/// `p` is the smallest power of two that is at least `n`.
pub open spec fn is_next_power_of_two(p: int, n: int) -> bool {
    is_power_of_two(p) && n <= p && (p == 1 || p < 2 * n)
}

/// Doubles `p` until it reaches `n`.
pub open spec fn doubling_from(p: int, n: int) -> int
    decreases 2 * n - p,
{
    if p <= 0 || p >= n {
        p
    } else {
        doubling_from(2 * p, n)
    }
}

/// The smallest power of two that is at least `n` (one for `n <= 1`).
pub open spec fn next_pow2(n: int) -> int {
    doubling_from(1, n)
}

/// The whole number of beats a rendered loop lasts for `total` units: the
/// next power of two, and never under four.
pub open spec fn desired_beats(total: int) -> int {
    let p = next_pow2(ceil_whole(total));
    if p < 4 { 4 } else { p }
}

proof fn lemma_doubling(p: int, n: int)
    requires
        is_power_of_two(p),
    ensures
        is_power_of_two(doubling_from(p, n)),
        doubling_from(p, n) >= n,
        doubling_from(p, n) >= p,
    decreases 2 * n - p,
{
    if p < n {
        assert((2 * p) / 2 == p);
        lemma_doubling(2 * p, n);
    }
}

/// For every total of beats, the loop length is a power of two, at least four
/// beats, and no shorter than the total.
pub proof fn desired_length_bounds(total: int)
    requires
        0 <= total,
    ensures
        is_power_of_two(desired_beats(total)),
        desired_beats(total) >= 4,
        UNITS_PER_ONE * desired_beats(total) >= total,
{
    let c = ceil_whole(total);
    lemma_doubling(1, c);
    assert(is_power_of_two(4)) by {
        reveal_with_fuel(is_power_of_two, 3);
    }
    vstd::arithmetic::div_mod::lemma_fundamental_div_mod(total, UNITS_PER_ONE as int);
    let w = desired_beats(total);
    assert(w * UNITS_PER_ONE >= c * UNITS_PER_ONE) by (nonlinear_arith)
        requires w >= c;
}

/// Rounds `source` up to a whole number, then up to a power of two.
pub fn next_power_of_two(source: Decimal) -> (r: Decimal)
    requires
        ceil_whole(source.units as int) <= 9223372036854775808,
    ensures
        r.units == UNITS_PER_ONE * next_pow2(ceil_whole(source.units as int)),
        is_next_power_of_two(next_pow2(ceil_whole(source.units as int)), ceil_whole(source.units as int)),
{
    let whole = source.units / UNITS_PER_ONE;
    let ceil: u64 = if source.units % UNITS_PER_ONE > 0 { (whole + 1) as u64 } else { whole as u64 };
    let mut p: u64 = 1;
    while p < ceil
        invariant
            is_power_of_two(p as int),
            p >= 1,
            p == 1 || p < 2 * ceil,
            ceil <= 9223372036854775808,
            doubling_from(p as int, ceil as int) == next_pow2(ceil as int),
        decreases 2 * ceil - p,
    {
        assert((2 * p) / 2 == p);
        p = p * 2;
    }
    Decimal { units: p as u128 * UNITS_PER_ONE }
}

/// The length of a rendered loop for `total` beats: a power of two, at
/// least four, and no shorter than `total`.
pub fn desired_total(total: Decimal) -> (r: Decimal)
    requires
        ceil_whole(total.units as int) <= 9223372036854775808,
    ensures
        r.units == UNITS_PER_ONE * desired_beats(total.units as int),
        is_power_of_two(desired_beats(total.units as int)),
        desired_beats(total.units as int) >= 4,
        desired_beats(total.units as int) >= ceil_whole(total.units as int),
        r.units >= total.units,
{
    let p = next_power_of_two(total);
    let r = if p.units < 4 * UNITS_PER_ONE {
        assert(is_power_of_two(4)) by {
            reveal_with_fuel(is_power_of_two, 3);
        }
        Decimal { units: 4 * UNITS_PER_ONE }
    } else {
        p
    };
    proof {
        let w = desired_beats(total.units as int);
        let c = ceil_whole(total.units as int);
        vstd::arithmetic::div_mod::lemma_fundamental_div_mod(total.units as int, UNITS_PER_ONE as int);
        assert(w * UNITS_PER_ONE >= c * UNITS_PER_ONE) by (nonlinear_arith)
            requires w >= c;
    }
    r
}

/// `n / d` rounded to the nearest integer, halves rounded to even.
pub open spec fn round_half_even(n: int, d: int) -> int {
    let q = n / d;
    let twice = 2 * (n % d);
    if twice > d || (twice == d && q % 2 == 1) { q + 1 } else { q }
}

/// The number of hundredths nearest to `d`, halves rounded to even.
pub fn round_to_hundredths(d: Decimal) -> (r: u128)
    ensures
        r == round_half_even(d.units as int, 10_000_000),
{
    let q = d.units / 10_000_000;
    let twice = 2 * (d.units % 10_000_000);
    if twice > 10_000_000 || (twice == 10_000_000 && q % 2 == 1) {
        q + 1
    } else {
        q
    }
}

/// The decimal digit for `n` (`'0'` outside `0..=9`).
pub open spec fn digit_char(n: int) -> char {
    if n == 1 {
        '1'
    } else if n == 2 {
        '2'
    } else if n == 3 {
        '3'
    } else if n == 4 {
        '4'
    } else if n == 5 {
        '5'
    } else if n == 6 {
        '6'
    } else if n == 7 {
        '7'
    } else if n == 8 {
        '8'
    } else if n == 9 {
        '9'
    } else {
        '0'
    }
}

/// The decimal digits of `n`, most significant first.
pub open spec fn nat_text(n: nat) -> Seq<char>
    decreases n,
{
    if n < 10 {
        seq![digit_char(n as int)]
    } else {
        nat_text(n / 10).push(digit_char((n % 10) as int))
    }
}

/// `hundredths / 100` written with four digits after the point.
pub open spec fn fixed4_text(hundredths: nat) -> Seq<char> {
    nat_text(hundredths / 100) + seq![
        '.',
        digit_char((hundredths / 10 % 10) as int),
        digit_char((hundredths % 10) as int),
        '0',
        '0',
    ]
}

/// What `BigDecimal` displays for the value `digits * 10^-scale` held with
/// that scale.
pub uninterp spec fn decimal_text(digits: int, scale: int) -> Seq<char>;

/// Relies on `BigDecimal`'s `Display`: the text depends on the digits and the
/// scale alone, and a value of scale zero is written as its plain digits.
#[verifier::external_body]
fn format_decimal(digits: u128, scale: i64) -> (r: String)
    ensures
        r@ == decimal_text(digits as int, scale as int),
        scale == 0 ==> r@ == nat_text(digits as nat),
{
    BigDecimal::new(BigInt::from(digits), scale).to_string()
}

/// Relies on `BigDecimal`'s `Display` with a precision of four: a
/// non-negative value of scale two is written as its integer part, a point
/// and its two digits padded with two zeros.
#[verifier::external_body]
fn format_fixed4(hundredths: u128) -> (r: String)
    ensures
        r@ == fixed4_text(hundredths as nat),
{
    format!("{:.4}", BigDecimal::new(BigInt::from(hundredths), 2))
}

/// Relies on the `Display` of `u64`: the decimal digits, with no sign or
/// padding.
#[verifier::external_body]
pub(crate) fn number_text(n: u64) -> (r: String)
    ensures
        r@ == nat_text(n as nat),
{
    format!("{}", n)
}

pub proof fn lemma_nat_text_nonempty(n: nat)
    ensures
        nat_text(n).len() >= 1,
    decreases n,
{
    if n >= 10 {
        lemma_nat_text_nonempty(n / 10);
    }
}

/// Different numbers are written differently.
pub proof fn lemma_nat_text_injective(a: nat, b: nat)
    requires
        nat_text(a) == nat_text(b),
    ensures
        a == b,
    decreases a + b,
{
    if a < 10 && b < 10 {
        assert(nat_text(a) == seq![digit_char(a as int)]);
        assert(nat_text(b) == seq![digit_char(b as int)]);
        assert(seq![digit_char(a as int)][0] == digit_char(a as int));
        assert(seq![digit_char(b as int)][0] == digit_char(b as int));
        assert(digit_char(a as int) == digit_char(b as int));
        assert(a == b);
    } else if a < 10 {
        lemma_nat_text_nonempty(b / 10);
        assert(nat_text(b).len() >= 2);
    } else if b < 10 {
        lemma_nat_text_nonempty(a / 10);
        assert(nat_text(a).len() >= 2);
    } else {
        let ta = nat_text(a / 10).push(digit_char((a % 10) as int));
        let tb = nat_text(b / 10).push(digit_char((b % 10) as int));
        assert(nat_text(a) == ta);
        assert(nat_text(b) == tb);
        assert(ta.last() == tb.last());
        assert(nat_text(a).drop_last() =~= nat_text(a / 10));
        assert(nat_text(b).drop_last() =~= nat_text(b / 10));
        lemma_nat_text_injective(a / 10, b / 10);
        assert(digit_char((a % 10) as int) == digit_char((b % 10) as int));
        assert(a % 10 == b % 10);
        assert(a == 10 * (a / 10) + a % 10);
        assert(b == 10 * (b / 10) + b % 10);
    }
}

/// The number of trailing decimal zeros of a positive number.
pub open spec fn trailing_zeros(n: nat) -> nat
    decreases n,
{
    if n == 0 || n % 10 != 0 {
        0
    } else {
        1 + trailing_zeros(n / 10)
    }
}

/// The scale of `units / 10^9` once trailing zeros are stripped (zero for
/// zero).
pub open spec fn normalized_scale(units: nat) -> int {
    if units == 0 { 0 } else { 9 - trailing_zeros(units) }
}

pub open spec fn pow10(e: nat) -> nat
    decreases e,
{
    if e == 0 { 1 } else { 10 * pow10((e - 1) as nat) }
}

/// Scale of the sum of the normalized forms of `a` and `b`.
pub open spec fn sum_scale(a: nat, b: nat) -> int {
    if normalized_scale(a) >= normalized_scale(b) { normalized_scale(a) } else { normalized_scale(b) }
}

/// The text of the sum of the normalized forms of `a` and `b` (in units).
pub open spec fn sum_text(a: nat, b: nat) -> Seq<char> {
    let s = sum_scale(a, b);
    let digits = ((a + b) as int) / (pow10((9 - s) as nat) as int);
    if s == 0 {
        nat_text(digits as nat)
    } else {
        decimal_text(digits, s)
    }
}

proof fn lemma_pow10_large()
    ensures
        pow10(38) <= u128::MAX,
        pow10(39) > u128::MAX,
{
    reveal_with_fuel(pow10, 40);
}

proof fn lemma_trailing_zeros_bound(n: nat)
    requires
        n > 0,
    ensures
        pow10(trailing_zeros(n)) <= n,
    decreases n,
{
    if n % 10 == 0 {
        lemma_trailing_zeros_bound(n / 10);
    }
}

proof fn lemma_pow10_grows(a: nat, b: nat)
    requires
        a <= b,
    ensures
        pow10(a) <= pow10(b),
        pow10(a) >= 1,
    decreases b,
{
    if a < b {
        lemma_pow10_grows(a, (b - 1) as nat);
    } else if a > 0 {
        lemma_pow10_grows((a - 1) as nat, (a - 1) as nat);
    }
}

fn normalized_scale_of(units: u128) -> (r: i64)
    ensures
        r == normalized_scale(units as nat),
        -29 <= r <= 9,
{
    if units == 0 {
        return 0;
    }
    let mut n = units;
    let mut count: i64 = 0;
    assert(pow10(0) == 1);
    assert(pow10(count as nat) == 1);
    assert(pow10(count as nat) * n == units);
    while n % 10 == 0
        invariant
            n > 0,
            trailing_zeros(units as nat) == count + trailing_zeros(n as nat),
            pow10(count as nat) * n == units,
            0 <= count <= 38,
        decreases n,
    {
        proof {
            assert(pow10((count + 1) as nat) == 10 * pow10(count as nat));
            assert(pow10((count + 1) as nat) * (n / 10) == pow10(count as nat) * n) by (nonlinear_arith)
                requires
                    pow10((count + 1) as nat) == 10 * pow10(count as nat),
                    n % 10 == 0,
            ;
            assert(pow10((count + 1) as nat) <= units) by (nonlinear_arith)
                requires
                    pow10((count + 1) as nat) * (n / 10) == units,
                    n / 10 >= 1,
            ;
            lemma_pow10_large();
            if count + 1 >= 39 {
                lemma_pow10_grows(39, (count + 1) as nat);
            }
        }
        n = n / 10;
        count = count + 1;
    }
    9 - count
}

fn pow10_of(e: u32) -> (r: u128)
    requires
        e <= 38,
    ensures
        r == pow10(e as nat),
{
    let mut r: u128 = 1;
    let mut i: u32 = 0;
    while i < e
        invariant
            i <= e <= 38,
            r == pow10(i as nat),
        decreases e - i,
    {
        proof {
            lemma_pow10_grows((i + 1) as nat, 38);
            lemma_pow10_large();
        }
        r = r * 10;
        i = i + 1;
    }
    r
}

/// Renders the sum of the normalized forms of two amounts, as `BigDecimal`
/// writes it.
pub fn sum_to_text(a: Decimal, b: Decimal) -> (r: String)
    requires
        a.units + b.units <= u128::MAX,
    ensures
        r@ == sum_text(a.units as nat, b.units as nat),
{
    let sa = normalized_scale_of(a.units);
    let sb = normalized_scale_of(b.units);
    let s = if sa >= sb { sa } else { sb };
    proof {
        lemma_pow10_grows((9 - s) as nat, (9 - s) as nat);
    }
    let divisor = pow10_of((9 - s) as u32);
    format_decimal((a.units + b.units) / divisor, s)
}

/// Renders `d` rounded to hundredths with four digits after the point.
pub fn hundredths_text(d: Decimal) -> (r: String)
    ensures
        r@ == fixed4_text(round_half_even(d.units as int, 10_000_000) as nat),
{
    format_fixed4(round_to_hundredths(d))
}

pub open spec fn is_digit(c: char) -> bool {
    '0' <= c && c <= '9'
}

pub open spec fn all_digits(s: Seq<char>) -> bool {
    forall|i: int| 0 <= i < s.len() ==> is_digit(#[trigger] s[i])
}

/// The number written by the decimal digits `s`.
pub open spec fn digits_value(s: Seq<char>) -> nat
    decreases s.len(),
{
    if s.len() == 0 {
        0
    } else {
        digits_value(s.drop_last()) * 10 + ((s.last() as int) - ('0' as int)) as nat
    }
}

/// `s` is `<digits>.<digits>` with the point at `k`, at most twenty digits
/// before it and one to nine after it.
pub open spec fn point_at(s: Seq<char>, k: int) -> bool {
    0 < k <= 20 && k < s.len() - 1 && s[k] == '.' && all_digits(s.subrange(0, k)) && all_digits(
        s.subrange(k + 1, s.len() as int),
    ) && s.len() - k - 1 <= 9
}

/// The units written by a decimal literal: one to twenty digits, optionally
/// followed by a point and one to nine digits.
pub open spec fn literal_units(s: Seq<char>) -> Option<int> {
    if 0 < s.len() <= 20 && all_digits(s) {
        Some(digits_value(s) * UNITS_PER_ONE)
    } else if exists|k: int| point_at(s, k) {
        let k = choose|k: int| point_at(s, k);
        let fraction = s.subrange(k + 1, s.len() as int);
        Some(
            digits_value(s.subrange(0, k)) * UNITS_PER_ONE + digits_value(fraction) * pow10(
                (9 - fraction.len()) as nat,
            ),
        )
    } else {
        None
    }
}

proof fn lemma_digits_step(s: Seq<char>, a: int, j: int)
    requires
        0 <= a <= j < s.len(),
    ensures
        digits_value(s.subrange(a, j + 1)) == digits_value(s.subrange(a, j)) * 10 + ((s[j] as int)
            - ('0' as int)) as nat,
{
    assert(s.subrange(a, j + 1).drop_last() =~= s.subrange(a, j));
}

proof fn lemma_point_unique(s: Seq<char>, k: int, j: int)
    requires
        point_at(s, k),
        point_at(s, j),
    ensures
        k == j,
{
    if k < j {
        assert(s.subrange(k + 1, s.len() as int)[j - k - 1] == s[j]);
    } else if j < k {
        assert(s.subrange(j + 1, s.len() as int)[k - j - 1] == s[k]);
    }
}

/// No point of a literal can stand where `s[p]` is neither a digit nor the
/// point at `k`.
proof fn lemma_no_point(s: Seq<char>, p: int, k: int)
    requires
        0 <= p < s.len(),
        !is_digit(s[p]),
        p != k ==> s[p] != '.',
        0 <= k < s.len() && s[k] == '.' || k == p,
    ensures
        forall|j: int| j != k ==> !point_at(s, j),
{
    assert forall|j: int| j != k implies !point_at(s, j) by {
        if point_at(s, j) {
            if p < j {
                assert(s.subrange(0, j)[p] == s[p]);
            } else if p > j {
                assert(s.subrange(j + 1, s.len() as int)[p - j - 1] == s[p]);
            } else {
                assert(s[p] == '.');
            }
        }
    }
}

proof fn lemma_pow10_small()
    ensures
        pow10(9) == 1_000_000_000,
        pow10(20) == 100_000_000_000_000_000_000,
{
    reveal_with_fuel(pow10, 21);
}

/// Reads a decimal literal such as `0.125`; `None` where the text is no such
/// literal.
pub fn parse_decimal(text: &str) -> (r: Option<Decimal>)
    ensures
        r matches Some(d) ==> literal_units(text@) == Some(d.units as int),
        r is None ==> literal_units(text@) is None,
{
    let ghost s = text@;
    let n = text.unicode_len();
    if n == 0 {
        return None;
    }
    proof {
        lemma_pow10_small();
    }
    let mut whole: u128 = 0;
    let mut i: usize = 0;
    while i < n && text.get_char(i) != '.'
        invariant
            s == text@,
            n == s.len(),
            0 < n,
            i <= n,
            i <= 20,
            all_digits(s.subrange(0, i as int)),
            whole == digits_value(s.subrange(0, i as int)),
            whole < pow10(i as nat),
            pow10(20) == 100_000_000_000_000_000_000,
        decreases n - i,
    {
        let c = text.get_char(i);
        if !('0' <= c && c <= '9') || i == 20 {
            proof {
                if !is_digit(c) {
                    lemma_no_point(s, i as int, i as int);
                } else {
                    assert forall|j: int| !point_at(s, j) by {
                        if point_at(s, j) && j < 20 {
                            assert(s.subrange(0, 20)[j] == s[j]);
                        }
                    }
                }
                assert(!all_digits(s) || s.len() > 20);
            }
            return None;
        }
        proof {
            lemma_pow10_grows(i as nat, 20);
            lemma_digits_step(s, 0, i as int);
            assert(all_digits(s.subrange(0, i + 1)));
            assert(pow10((i + 1) as nat) == 10 * pow10(i as nat));
        }
        let digit = (c as u32 - '0' as u32) as u128;
        whole = whole * 10 + digit;
        i = i + 1;
    }
    proof {
        lemma_pow10_grows(i as nat, 20);
    }
    if i == n {
        proof {
            assert(s.subrange(0, n as int) =~= s);
        }
        return Some(Decimal { units: whole * UNITS_PER_ONE });
    }
    let k = i;
    if k == 0 || n - k - 1 == 0 || n - k - 1 > 9 {
        proof {
            assert(!all_digits(s));
            assert forall|j: int| !point_at(s, j) by {
                if point_at(s, j) {
                    if j != k {
                        if j < k {
                            assert(s.subrange(j + 1, s.len() as int)[k - j - 1] == s[k as int]);
                        } else {
                            assert(s.subrange(0, j)[k as int] == s[k as int]);
                        }
                    }
                }
            }
        }
        return None;
    }
    let mut fraction: u128 = 0;
    let mut j: usize = k + 1;
    while j < n
        invariant
            s == text@,
            n == s.len(),
            k < j <= n,
            n - k - 1 <= 9,
            s[k as int] == '.',
            all_digits(s.subrange(k + 1, j as int)),
            fraction == digits_value(s.subrange(k + 1, j as int)),
            fraction < pow10((j - k - 1) as nat),
            pow10(9) == 1_000_000_000,
        decreases n - j,
    {
        let c = text.get_char(j);
        if !('0' <= c && c <= '9') {
            proof {
                assert forall|x: int| !point_at(s, x) by {
                    if point_at(s, x) {
                        if x == k {
                            assert(s.subrange(k + 1, s.len() as int)[j - k - 1] == c);
                        } else if x < k {
                            assert(s.subrange(x + 1, s.len() as int)[k - x - 1] == s[k as int]);
                        } else {
                            assert(s.subrange(0, x)[k as int] == s[k as int]);
                        }
                    }
                }
                assert(!is_digit(s[k as int]));
            }
            return None;
        }
        proof {
            lemma_pow10_grows((j - k - 1) as nat, 9);
            lemma_digits_step(s, k + 1, j as int);
            assert(all_digits(s.subrange(k + 1, j + 1)));
            assert(pow10((j - k) as nat) == 10 * pow10((j - k - 1) as nat));
        }
        let digit = (c as u32 - '0' as u32) as u128;
        fraction = fraction * 10 + digit;
        j = j + 1;
    }
    let length = (n - k - 1) as u32;
    let scale = pow10_of(9 - length);
    proof {
        assert(s.subrange(0, k as int) == s.subrange(0, i as int));
        assert(point_at(s, k as int));
        let chosen = choose|x: int| point_at(s, x);
        lemma_point_unique(s, chosen, k as int);
        assert(!all_digits(s)) by {
            assert(!is_digit(s[k as int]));
        }
        lemma_pow10_grows((n - k - 1) as nat, 9);
        lemma_pow10_grows((9 - length) as nat, 9);
        assert(fraction * scale <= 1_000_000_000 * 1_000_000_000) by (nonlinear_arith)
            requires
                fraction <= 1_000_000_000,
                scale <= 1_000_000_000,
        ;
    }
    Some(Decimal { units: whole * UNITS_PER_ONE + fraction * scale })
}

} // verus!
