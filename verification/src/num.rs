//! Exact fixed-point decimal numbers.
//!
//! Every time and value field of the storyboard model is a [`Num`]: a signed
//! decimal with nine fractional digits, held as an integer count of
//! billionths. All model arithmetic (clamping, aggregation, loop spans) is
//! exact, and a finite value written by the encoder is read back to the very
//! same value by the decoder.

use vstd::prelude::*;

verus! {

/// One whole unit, in billionths.
pub const SCALE: i128 = 1_000_000_000;

/// The largest magnitude a [`Num`] may hold, in billionths.
///
/// Arithmetic saturates here; the extreme values stand in for the unbounded
/// sentinels of the wire format (a trigger open at either end, the aggregate
/// of an empty timeline).
pub const UNITS_CAP: i128 = 1_000_000_000_000_000_000_000_000_000_000;

/// A signed decimal number with nine fractional digits.
///
/// The held value is `units / 10^9`.
#[derive(Clone, Copy, Debug, PartialEq, Eq, Structural)]
pub struct Num {
    pub units: i128,
}

/// Clamp a mathematical integer into the saturation range of [`Num`].
pub open spec fn clamp_units(x: int) -> int {
    if x > UNITS_CAP as int {
        UNITS_CAP as int
    } else if x < -(UNITS_CAP as int) {
        -(UNITS_CAP as int)
    } else {
        x
    }
}

impl Num {
    /// Whether the held units lie in the saturation range.
    pub open spec fn bounded(self) -> bool {
        -(UNITS_CAP as int) <= self.units as int <= UNITS_CAP as int
    }

    /// The value as a count of billionths.
    pub open spec fn value(self) -> int {
        self.units as int
    }

    /// Whether the held units lie strictly inside the saturation range.
    pub open spec fn strict(self) -> bool {
        -(UNITS_CAP as int) < self.units as int && (self.units as int) < UNITS_CAP as int
    }

    /// The number zero.
    pub fn zero() -> (r: Self)
        ensures
            r.units == 0,
            r.bounded(),
    {
        Num { units: 0 }
    }

    /// The saturation ceiling: stands in for an unbounded upper sentinel.
    pub fn max_value() -> (r: Self)
        ensures
            r.units == UNITS_CAP,
            r.bounded(),
    {
        Num { units: UNITS_CAP }
    }

    /// The saturation floor: stands in for an unbounded lower sentinel.
    pub fn min_value() -> (r: Self)
        ensures
            r.units == -UNITS_CAP,
            r.bounded(),
    {
        Num { units: -UNITS_CAP }
    }

    /// Build a number from a whole count of units.
    pub fn from_whole(n: i32) -> (r: Self)
        ensures
            r.units == n * SCALE,
            r.bounded(),
    {
        Num { units: (n as i128) * SCALE }
    }

    pub fn is_zero(self) -> (r: bool)
        ensures
            r <==> self.units == 0,
    {
        self.units == 0
    }

    pub fn lt(self, other: Self) -> (r: bool)
        ensures
            r <==> self.units < other.units,
    {
        self.units < other.units
    }

    pub fn le(self, other: Self) -> (r: bool)
        ensures
            r <==> self.units <= other.units,
    {
        self.units <= other.units
    }

    /// The smaller of two numbers.
    pub fn min(self, other: Self) -> (r: Self)
        ensures
            r.units == if self.units <= other.units { self.units } else { other.units },
    {
        if self.units <= other.units {
            self
        } else {
            other
        }
    }

    /// The larger of two numbers.
    pub fn max(self, other: Self) -> (r: Self)
        ensures
            r.units == if self.units >= other.units { self.units } else { other.units },
    {
        if self.units >= other.units {
            self
        } else {
            other
        }
    }

    /// Saturating addition.
    pub fn add_sat(self, other: Self) -> (r: Self)
        requires
            self.bounded(),
            other.bounded(),
        ensures
            r.units as int == clamp_units(self.units + other.units),
            r.bounded(),
    {
        let sum: i128 = self.units + other.units;
        if sum > UNITS_CAP {
            Num { units: UNITS_CAP }
        } else if sum < -UNITS_CAP {
            Num { units: -UNITS_CAP }
        } else {
            Num { units: sum }
        }
    }

    /// Saturating subtraction.
    pub fn sub_sat(self, other: Self) -> (r: Self)
        requires
            self.bounded(),
            other.bounded(),
        ensures
            r.units as int == clamp_units(self.units - other.units),
            r.bounded(),
    {
        let diff: i128 = self.units - other.units;
        if diff > UNITS_CAP {
            Num { units: UNITS_CAP }
        } else if diff < -UNITS_CAP {
            Num { units: -UNITS_CAP }
        } else {
            Num { units: diff }
        }
    }

    /// Saturating multiplication by an iteration count.
    pub fn mul_u32_sat(self, k: u32) -> (r: Self)
        requires
            self.bounded(),
        ensures
            r.units as int == clamp_units(self.units * k),
            r.bounded(),
    {
        if k == 0 {
            let r = Num { units: 0 };
            assert(r.units as int == clamp_units(self.units * k)) by {
                assert(self.units * k == 0) by (nonlinear_arith)
                    requires
                        k == 0,
                ;
            }
            r
        } else if self.units >= 0 {
            let bound: i128 = UNITS_CAP / (k as i128);
            if self.units > bound {
                proof {
                    lemma_div_bound_pos(self.units as int, k as int, UNITS_CAP as int);
                }
                Num { units: UNITS_CAP }
            } else {
                proof {
                    lemma_mul_within_pos(self.units as int, k as int, UNITS_CAP as int);
                }
                Num { units: self.units * (k as i128) }
            }
        } else {
            let mag: i128 = -self.units;
            let bound: i128 = UNITS_CAP / (k as i128);
            if mag > bound {
                proof {
                    lemma_div_bound_pos(mag as int, k as int, UNITS_CAP as int);
                    assert(self.units * k == -(mag * k)) by (nonlinear_arith)
                        requires
                            mag == -self.units,
                    ;
                }
                Num { units: -UNITS_CAP }
            } else {
                proof {
                    lemma_mul_within_pos(mag as int, k as int, UNITS_CAP as int);
                    assert(self.units * k == -(mag * k)) by (nonlinear_arith)
                        requires
                            mag == -self.units,
                    ;
                }
                Num { units: -(mag * (k as i128)) }
            }
        }
    }
}

/// ASCII whitespace, as trimmed from the ends of numeric fields.
pub open spec fn is_ws(b: u8) -> bool {
    b == 32 || b == 9 || b == 10 || b == 13 || b == 11 || b == 12
}

/// ASCII decimal digit.
pub open spec fn is_digit(b: u8) -> bool {
    48 <= b <= 57
}

pub open spec fn digit_val(b: u8) -> int {
    b as int - 48
}

/// The integer written by a sequence of digits (empty means zero).
pub open spec fn digits_val(ds: Seq<u8>) -> int
    decreases ds.len(),
{
    if ds.len() == 0 {
        0
    } else {
        digits_val(ds.drop_last()) * 10 + digit_val(ds.last())
    }
}

/// `10^n`.
pub open spec fn pow10(n: nat) -> int
    decreases n,
{
    if n == 0 {
        1
    } else {
        10 * pow10((n - 1) as nat)
    }
}

/// The billionths written by a fraction's digit sequence: digits beyond the
/// ninth are below the resolution of [`Num`] and are dropped.
pub open spec fn frac_units(ds: Seq<u8>) -> int {
    if ds.len() >= 9 {
        digits_val(ds.take(9))
    } else {
        digits_val(ds) * pow10((9 - ds.len()) as nat)
    }
}

/// The longest prefix of `s` made of whitespace.
pub open spec fn ws_prefix_len(s: Seq<u8>) -> int
    decreases s.len(),
{
    if s.len() > 0 && is_ws(s[0]) {
        1 + ws_prefix_len(s.drop_first())
    } else {
        0
    }
}

/// `s` with leading and trailing ASCII whitespace removed.
pub open spec fn trim_spec(s: Seq<u8>) -> Seq<u8>
    decreases s.len(),
{
    if s.len() > 0 && is_ws(s[0]) {
        trim_spec(s.drop_first())
    } else if s.len() > 0 && is_ws(s.last()) {
        trim_spec(s.drop_last())
    } else {
        s
    }
}

/// A well-formed mantissa: an optional sign, then digits with at most one
/// point and at least one digit on one of its sides.
pub open spec fn mant_syntax_ok(s: Seq<u8>) -> bool {
    let body = float_body(s);
    exists|dot: int|
        0 <= dot <= body.len() && #[trigger] float_split_ok(body, dot)
}

/// The index of the first exponent marker, or the length when there is
/// none.
pub open spec fn exp_pos(s: Seq<u8>) -> int
    decreases s.len(),
{
    if s.len() == 0 {
        0
    } else if s[0] == 101 || s[0] == 69 {
        0
    } else {
        1 + exp_pos(s.drop_first())
    }
}

/// The mantissa text: everything before the first exponent marker.
pub open spec fn mant_part(s: Seq<u8>) -> Seq<u8> {
    s.take(exp_pos(s))
}

/// The exponent's value; a number without an exponent part has zero.
pub open spec fn exp_val(s: Seq<u8>) -> int {
    if exp_pos(s) == s.len() {
        0
    } else {
        int_value(s.skip(exp_pos(s) + 1))
    }
}

/// The exponent part, when present, must be a well-formed integer.
pub open spec fn exp_ok(s: Seq<u8>) -> bool {
    exp_pos(s) == s.len() || int_syntax_ok(s.skip(exp_pos(s) + 1))
}

/// A decimal number: a mantissa, optionally followed by an exponent marker
/// and an integer exponent.
pub open spec fn float_syntax_ok(s: Seq<u8>) -> bool {
    mant_syntax_ok(mant_part(s)) && exp_ok(s)
}

/// A non-negative count of billionths shifted by a power of ten, rounding
/// toward zero on a downward shift.
pub open spec fn shift_mag(m: int, e: int) -> int {
    if e >= 0 {
        m * pow10(e as nat)
    } else {
        m / pow10((-e) as nat)
    }
}

/// Whether cutting `body` just before index `dot` yields a well-formed
/// integer-part/fraction-part split.
pub open spec fn float_split_ok(body: Seq<u8>, dot: int) -> bool {
    &&& 0 <= dot <= body.len()
    &&& (forall|i: int| 0 <= i < dot ==> is_digit(#[trigger] body[i]))
    &&& (dot == body.len() || body[dot] == 46)
    &&& (forall|i: int| dot < i < body.len() ==> is_digit(#[trigger] body[i]))
    &&& body.len() > (if dot == body.len() { 0int } else { 1int })
}

/// Whether the (already trimmed) number begins with a minus sign.
pub open spec fn float_neg(s: Seq<u8>) -> bool {
    s.len() > 0 && s[0] == 45
}

/// The digits of the number, sign stripped.
pub open spec fn float_body(s: Seq<u8>) -> Seq<u8> {
    if s.len() > 0 && (s[0] == 45 || s[0] == 43) {
        s.drop_first()
    } else {
        s
    }
}

/// The integer-part digits of a well-formed body.
pub open spec fn float_int_digits(body: Seq<u8>) -> Seq<u8> {
    body.take(float_dot_pos(body))
}

/// The fraction digits of a well-formed body (empty when there is no point).
pub open spec fn float_frac_digits(body: Seq<u8>) -> Seq<u8> {
    if float_dot_pos(body) == body.len() {
        seq![]
    } else {
        body.skip(float_dot_pos(body) + 1)
    }
}

/// The index of the decimal point, or the body's length when there is none.
pub open spec fn float_dot_pos(body: Seq<u8>) -> int {
    choose|dot: int| 0 <= dot <= body.len() && #[trigger] float_split_ok(body, dot)
}

/// The value of a well-formed mantissa, in billionths, rounded toward zero
/// at the ninth fractional digit.
pub open spec fn mant_units(s: Seq<u8>) -> int {
    let body = float_body(s);
    let mag = digits_val(float_int_digits(body)) * (SCALE as int) + frac_units(
        float_frac_digits(body),
    );
    if float_neg(s) {
        -mag
    } else {
        mag
    }
}

/// The value of a well-formed trimmed number, in billionths: the mantissa
/// is read at nine fractional digits and then shifted by the exponent.
pub open spec fn float_units(s: Seq<u8>) -> int {
    let m = mant_units(mant_part(s));
    if m >= 0 {
        shift_mag(m, exp_val(s))
    } else {
        -shift_mag(-m, exp_val(s))
    }
}

/// How parsing a numeric field can fail.
#[derive(Clone, Copy, Debug, PartialEq, Eq, Structural)]
pub enum NumberError {
    /// The field is not a well-formed number.
    Invalid,
    /// The value lies above the accepted range.
    Overflow,
    /// The value lies below the accepted range.
    Underflow,
}

/// Digit sequences denote non-negative values.
pub proof fn lemma_digits_val_nonneg(ds: Seq<u8>)
    requires
        forall|i: int| 0 <= i < ds.len() ==> is_digit(#[trigger] ds[i]),
    ensures
        0 <= digits_val(ds),
    decreases ds.len(),
{
    if ds.len() > 0 {
        lemma_digits_val_nonneg(ds.drop_last());
    }
}

/// A digit sequence denotes less than `10^len`.
pub proof fn lemma_digits_val_upper(ds: Seq<u8>)
    requires
        forall|i: int| 0 <= i < ds.len() ==> is_digit(#[trigger] ds[i]),
    ensures
        digits_val(ds) < pow10(ds.len()),
    decreases ds.len(),
{
    if ds.len() > 0 {
        lemma_digits_val_upper(ds.drop_last());
        lemma_digits_val_nonneg(ds.drop_last());
    }
}

/// A digit sequence with a nonzero first digit denotes at least `10^(len-1)`.
pub proof fn lemma_digits_val_lower(ds: Seq<u8>)
    requires
        forall|i: int| 0 <= i < ds.len() ==> is_digit(#[trigger] ds[i]),
        ds.len() > 0,
        ds[0] != 48,
    ensures
        digits_val(ds) >= pow10((ds.len() - 1) as nat),
    decreases ds.len(),
{
    if ds.len() == 1 {
        assert(ds.drop_last() =~= Seq::<u8>::empty());
        assert(digits_val(ds) == digit_val(ds[0]));
    } else {
        lemma_digits_val_lower(ds.drop_last());
        lemma_digits_val_nonneg(ds.drop_last());
        assert(pow10((ds.len() - 1) as nat) == 10 * pow10((ds.len() - 2) as nat));
        assert(digits_val(ds.drop_last()) * 10 >= pow10((ds.len() - 2) as nat) * 10)
            by (nonlinear_arith)
            requires
                digits_val(ds.drop_last()) >= pow10((ds.len() - 2) as nat),
        ;
    }
}

/// Leading zeros do not change a digit sequence's value.
pub proof fn lemma_digits_val_drop_zero(ds: Seq<u8>)
    requires
        ds.len() > 0,
        ds[0] == 48,
    ensures
        digits_val(ds) == digits_val(ds.drop_first()),
    decreases ds.len(),
{
    if ds.len() == 1 {
        assert(ds.drop_first() =~= Seq::<u8>::empty());
        assert(ds.drop_last() =~= Seq::<u8>::empty());
    } else {
        lemma_digits_val_drop_zero(ds.drop_last());
        assert(ds.drop_last().drop_first() =~= ds.drop_first().drop_last());
    }
}

/// Reading one more digit multiplies the prefix value by ten and adds it.
pub proof fn lemma_digits_val_take_step(ds: Seq<u8>, k: int)
    requires
        0 <= k < ds.len(),
    ensures
        digits_val(ds.take(k + 1)) == digits_val(ds.take(k)) * 10 + digit_val(ds[k]),
{
    assert(ds.take(k + 1).drop_last() =~= ds.take(k));
}

/// A well-formed body has exactly one admissible point position.
pub proof fn lemma_dot_unique(body: Seq<u8>, d1: int, d2: int)
    requires
        float_split_ok(body, d1),
        float_split_ok(body, d2),
    ensures
        d1 == d2,
{
    if d1 < d2 {
        assert(is_digit(body[d1]));
    } else if d2 < d1 {
        assert(is_digit(body[d2]));
    }
}

/// A subrange whose outside is whitespace and whose ends are not is the trim.
pub proof fn lemma_trim_characterize(s: Seq<u8>, lo: int, hi: int)
    requires
        0 <= lo <= hi <= s.len(),
        forall|i: int| 0 <= i < lo ==> is_ws(#[trigger] s[i]),
        forall|i: int| hi <= i < s.len() ==> is_ws(#[trigger] s[i]),
        lo == hi || (!is_ws(s[lo]) && !is_ws(s[hi - 1])),
    ensures
        trim_spec(s) == s.subrange(lo, hi),
    decreases s.len(),
{
    if s.len() > 0 && is_ws(s[0]) {
        if lo == 0 {
            lemma_trim_characterize(s.drop_first(), 0, 0);
            assert(s.drop_first().subrange(0, 0) =~= s.subrange(0, 0));
        } else {
            lemma_trim_characterize(s.drop_first(), lo - 1, hi - 1);
            assert(s.drop_first().subrange(lo - 1, hi - 1) =~= s.subrange(lo, hi));
        }
    } else if s.len() > 0 && is_ws(s.last()) {
        lemma_trim_characterize(s.drop_last(), lo, hi);
        assert(s.drop_last().subrange(lo, hi) =~= s.subrange(lo, hi));
    } else {
        assert(s.subrange(lo, hi) =~= s);
    }
}

/// Spell out small powers of ten.
pub proof fn lemma_pow10_concrete()
    ensures
        pow10(0) == 1,
        pow10(1) == 10,
        pow10(2) == 100,
        pow10(3) == 1000,
        pow10(4) == 10000,
        pow10(5) == 100000,
        pow10(6) == 1000000,
        pow10(7) == 10000000,
        pow10(8) == 100000000,
        pow10(9) == 1000000000,
        pow10(10) == 10000000000,
{
    reveal_with_fuel(pow10, 11);
}

fn ws_exec(b: u8) -> (r: bool)
    ensures
        r <==> is_ws(b),
{
    b == 32 || b == 9 || b == 10 || b == 13 || b == 11 || b == 12
}

fn digit_exec(b: u8) -> (r: bool)
    ensures
        r <==> is_digit(b),
{
    48 <= b && b <= 57
}

/// `10^k` for `k <= 9`.
fn pow10_small(k: usize) -> (r: i128)
    requires
        k <= 9,
    ensures
        r == pow10(k as nat),
{
    proof {
        lemma_pow10_concrete();
    }
    if k == 0 {
        1
    } else if k == 1 {
        10
    } else if k == 2 {
        100
    } else if k == 3 {
        1000
    } else if k == 4 {
        10000
    } else if k == 5 {
        100000
    } else if k == 6 {
        1000000
    } else if k == 7 {
        10000000
    } else if k == 8 {
        100000000
    } else {
        1000000000
    }
}

/// Find where the whitespace-trimmed middle of `s` begins and ends.
fn trim_bounds(s: &[u8]) -> (r: (usize, usize))
    ensures
        0 <= r.0 <= r.1 <= s@.len(),
        trim_spec(s@) == s@.subrange(r.0 as int, r.1 as int),
{
    let len = s.len();
    let mut lo: usize = 0;
    while lo < len && ws_exec(s[lo])
        invariant
            0 <= lo <= len,
            len == s@.len(),
            forall|i: int| 0 <= i < lo ==> is_ws(#[trigger] s@[i]),
        decreases len - lo,
    {
        lo = lo + 1;
    }
    let mut hi: usize = len;
    while hi > lo && ws_exec(s[hi - 1])
        invariant
            lo <= hi <= len,
            len == s@.len(),
            forall|i: int| hi <= i < len ==> is_ws(#[trigger] s@[i]),
        decreases hi,
    {
        hi = hi - 1;
    }
    proof {
        lemma_trim_characterize(s@, lo as int, hi as int);
    }
    (lo, hi)
}

/// Copy the whitespace-trimmed middle of `s`.
pub fn trim_ascii(s: &[u8]) -> (r: Vec<u8>)
    ensures
        r@ == trim_spec(s@),
{
    let (lo, hi) = trim_bounds(s);
    crate::text::subrange_vec(s, lo, hi)
}

/// Indexes before `p` hold no exponent marker, and `p` does, so `p` is the
/// first one.
proof fn lemma_exp_pos_characterize(s: Seq<u8>, p: int)
    requires
        0 <= p <= s.len(),
        forall|k: int| 0 <= k < p ==> #[trigger] s[k] != 101 && s[k] != 69,
        p == s.len() || s[p] == 101 || s[p] == 69,
    ensures
        exp_pos(s) == p,
    decreases s.len(),
{
    if s.len() > 0 && !(s[0] == 101 || s[0] == 69) {
        assert(forall|k: int|
            0 <= k < p - 1 ==> #[trigger] s.drop_first()[k] == s[k + 1]);
        if p < s.len() {
            assert(s.drop_first()[p - 1] == s[p]);
        }
        lemma_exp_pos_characterize(s.drop_first(), p - 1);
    }
}

/// Spell out the larger powers of ten.
proof fn lemma_pow10_concrete_20()
    ensures
        pow10(19) == 10_000_000_000_000_000_000,
        pow10(20) == 100_000_000_000_000_000_000,
    decreases 0int,
{
    reveal_with_fuel(pow10, 21);
}

/// `10^k` for `k <= 19`.
fn pow10_exec19(k: u64) -> (r: i128)
    requires
        k <= 19,
    ensures
        r == pow10(k as nat),
        r >= 1,
{
    proof {
        lemma_pow10_concrete();
        lemma_pow10_concrete_20();
        reveal_with_fuel(pow10, 21);
    }
    if k == 0 {
        1
    } else if k == 1 {
        10
    } else if k == 2 {
        100
    } else if k == 3 {
        1000
    } else if k == 4 {
        10000
    } else if k == 5 {
        100000
    } else if k == 6 {
        1000000
    } else if k == 7 {
        10000000
    } else if k == 8 {
        100000000
    } else if k == 9 {
        1000000000
    } else if k == 10 {
        10000000000
    } else if k == 11 {
        100000000000
    } else if k == 12 {
        1000000000000
    } else if k == 13 {
        10000000000000
    } else if k == 14 {
        100000000000000
    } else if k == 15 {
        1000000000000000
    } else if k == 16 {
        10000000000000000
    } else if k == 17 {
        100000000000000000
    } else if k == 18 {
        1000000000000000000
    } else {
        10000000000000000000
    }
}

/// Parse an exponent: an optional sign, then only digits. The magnitude is
/// reported exactly up to ten million and saturates there.
fn parse_int_raw(s: &[u8]) -> (r: Option<(bool, u64)>)
    ensures
        match r {
            Some(p) => {
                &&& int_syntax_ok(s@)
                &&& p.0 == float_neg(s@)
                &&& p.1 as int == if digits_val(float_body(s@)) < 10000000 {
                    digits_val(float_body(s@))
                } else {
                    10000000int
                }
            },
            None => !int_syntax_ok(s@),
        },
{
    let len = s.len();
    let mut i: usize = 0;
    let mut neg: bool = false;
    if i < len && (s[i] == 43 || s[i] == 45) {
        neg = s[i] == 45;
        i = i + 1;
    }
    let ghost body = float_body(s@);
    proof {
        assert(body =~= s@.subrange(i as int, len as int));
        assert(neg == float_neg(s@));
    }
    let mut j: usize = i;
    while j < len && digit_exec(s[j])
        invariant
            i <= j <= len,
            len == s@.len(),
            forall|k: int| i <= k < j ==> is_digit(#[trigger] s@[k]),
        decreases len - j,
    {
        j = j + 1;
    }
    if j != len || j == i {
        proof {
            if int_syntax_ok(s@) {
                if j != len {
                    assert(is_digit(body[(j - i) as int]));
                } else {
                    assert(body.len() == 0);
                }
            }
        }
        return None;
    }
    let mut z: usize = i;
    while z < j && s[z] == 48
        invariant
            i <= z <= j,
            j <= s@.len(),
            forall|k: int| i <= k < z ==> s@[k] == 48,
        decreases j - z,
    {
        z = z + 1;
    }
    proof {
        lemma_strip_zeros(s@, i as int, z as int, j as int);
    }
    if j - z > 7 {
        proof {
            let sig = s@.subrange(z as int, j as int);
            lemma_digits_val_lower(sig);
            lemma_pow10_concrete();
            lemma_pow10_increases(7, (j - z - 1) as nat);
        }
        return Some((neg, 10000000));
    }
    let mut acc: u64 = 0;
    let mut p: usize = z;
    while p < j
        invariant
            z <= p <= j,
            j <= s@.len(),
            j - z <= 7,
            forall|k: int| z <= k < j ==> is_digit(#[trigger] s@[k]),
            acc == digits_val(s@.subrange(z as int, j as int).take(p - z)),
            0 <= acc < pow10((p - z) as nat),
        decreases j - p,
    {
        let d: u8 = s[p];
        proof {
            let sig = s@.subrange(z as int, j as int);
            lemma_digits_val_take_step(sig, p - z);
            lemma_pow10_concrete();
            lemma_pow10_increases(((p - z) + 1) as nat, 7);
            assert(acc * 10 + digit_val(d) < pow10(((p - z) + 1) as nat)) by (nonlinear_arith)
                requires
                    acc < pow10((p - z) as nat),
                    0 <= acc,
                    digit_val(d) < 10,
                    pow10(((p - z) + 1) as nat) == 10 * pow10((p - z) as nat),
            ;
        }
        acc = acc * 10 + ((d - 48) as u64);
        p = p + 1;
    }
    proof {
        assert(s@.subrange(z as int, j as int).take(j - z) =~= s@.subrange(z as int, j as int));
        lemma_pow10_concrete();
        lemma_pow10_increases((j - z) as nat, 7);
    }
    Some((neg, acc))
}

/// Shift a checked mantissa magnitude by the exponent and hold it to the
/// limit. The saturated exponent magnitude stands for any larger value.
fn shift_and_check(
    mag: i128,
    lim_units: i128,
    e_neg: bool,
    e_mag: u64,
    Ghost(ev): Ghost<int>,
) -> (r: Option<i128>)
    requires
        0 <= mag <= lim_units,
        0 < lim_units <= 2147483647 * (SCALE as int),
        e_mag <= 10000000,
        e_mag == 0 ==> ev == 0,
        e_mag > 0 && !e_neg ==> ev >= e_mag as int && (e_mag < 10000000 ==> ev == e_mag as int),
        e_mag > 0 && e_neg ==> -ev >= e_mag as int && (e_mag < 10000000 ==> ev == -(
        e_mag as int)),
    ensures
        match r {
            Some(sh) => 0 <= sh <= lim_units && sh as int == shift_mag(mag as int, ev),
            None => shift_mag(mag as int, ev) > lim_units,
        },
{
    if e_mag == 0 {
        proof {
            assert(mag * pow10(0) == mag) by (nonlinear_arith)
                requires
                    pow10(0) == 1,
            ;
        }
        Some(mag)
    } else if mag == 0 {
        proof {
            if ev >= 0 {
                assert(0int * pow10(ev as nat) == 0) by (nonlinear_arith);
            } else {
                lemma_pow10_increases(0, (-ev) as nat);
                assert(0int / pow10((-ev) as nat) == 0) by (nonlinear_arith)
                    requires
                        pow10((-ev) as nat) >= 1,
                ;
            }
        }
        Some(0)
    } else if !e_neg {
        if e_mag > 19 {
            // a positive exponent of twenty or more lifts any non-zero
            // mantissa past the limit
            proof {
                lemma_pow10_concrete();
                lemma_pow10_concrete_20();
                lemma_pow10_increases(20, ev as nat);
                assert(mag * pow10(ev as nat) >= pow10(ev as nat)) by (nonlinear_arith)
                    requires
                        mag >= 1,
                        pow10(ev as nat) >= 1,
                ;
                assert(lim_units < pow10(20));
            }
            None
        } else {
            let pw = pow10_exec19(e_mag);
            proof {
                assert(ev == e_mag as int);
            }
            if mag > lim_units / pw {
                proof {
                    lemma_div_bound_pos(mag as int, pw as int, lim_units as int);
                }
                None
            } else {
                proof {
                    lemma_mul_within_pos(mag as int, pw as int, lim_units as int);
                    assert(mag * pw >= 0) by (nonlinear_arith)
                        requires
                            mag >= 0,
                            pw >= 1,
                    ;
                }
                Some(mag * pw)
            }
        }
    } else {
        if e_mag > 18 {
            // shifting down by nineteen or more empties any accepted
            // mantissa
            proof {
                lemma_pow10_concrete();
                lemma_pow10_concrete_20();
                lemma_pow10_increases(19, (-ev) as nat);
                assert(lim_units < pow10(19));
                assert((mag as int) / pow10((-ev) as nat) == 0) by (nonlinear_arith)
                    requires
                        0 <= mag as int,
                        (mag as int) < pow10((-ev) as nat),
                ;
            }
            Some(0)
        } else {
            let pw = pow10_exec19(e_mag);
            proof {
                assert((-ev) as int == e_mag as int);
                assert(0 <= mag / pw <= mag) by (nonlinear_arith)
                    requires
                        0 <= mag,
                        pw >= 1,
                ;
            }
            Some(mag / pw)
        }
    }
}

/// Parse the mantissa text between `lo` and `mhi`: its sign and its
/// magnitude in billionths, held to the limit.
#[verifier::rlimit(100)]
#[verifier::spinoff_prover]
fn parse_mant(s: &[u8], lo: usize, mhi: usize, limit: i32) -> (r: Result<(bool, i128), NumberError>)
    requires
        0 < limit,
        lo <= mhi <= s@.len(),
    ensures
        ({
            let tm = s@.subrange(lo as int, mhi as int);
            let lim = limit * (SCALE as int);
            match r {
                Ok(p) => mant_syntax_ok(tm) && p.0 == float_neg(tm) && 0 <= p.1 <= lim
                    && mant_units(tm) == if p.0 {
                    -(p.1 as int)
                } else {
                    p.1 as int
                },
                Err(NumberError::Invalid) => !mant_syntax_ok(tm),
                Err(NumberError::Overflow) => mant_syntax_ok(tm) && mant_units(tm) > lim,
                Err(NumberError::Underflow) => mant_syntax_ok(tm) && mant_units(tm) < -lim,
            }
        }),
{
    let ghost tm = s@.subrange(lo as int, mhi as int);
    let mut i: usize = lo;
    let mut neg: bool = false;
    if i < mhi && (s[i] == 43 || s[i] == 45) {
        neg = s[i] == 45;
        i = i + 1;
    }
    let ghost body = float_body(tm);
    proof {
        assert(body =~= s@.subrange(i as int, mhi as int));
        assert(neg == float_neg(tm));
    }
    // integer-part digits
    let int_start: usize = i;
    let mut j: usize = i;
    while j < mhi && digit_exec(s[j])
        invariant
            int_start <= j <= mhi,
            mhi <= s@.len(),
            forall|k: int| int_start <= k < j ==> is_digit(#[trigger] s@[k]),
        decreases mhi - j,
    {
        j = j + 1;
    }
    // optional point and fraction digits
    let mut frac_start: usize = j;
    let mut frac_end: usize = j;
    let mut has_dot: bool = false;
    if j < mhi && s[j] == 46 {
        has_dot = true;
        frac_start = j + 1;
        let mut k: usize = j + 1;
        while k < mhi && digit_exec(s[k])
            invariant
                frac_start <= k <= mhi,
                mhi <= s@.len(),
                frac_start == j + 1,
                forall|m: int| frac_start <= m < k ==> is_digit(#[trigger] s@[m]),
            decreases mhi - k,
        {
            k = k + 1;
        }
        frac_end = k;
    }
    let end: usize = frac_end;
    let n_int: usize = j - int_start;
    let n_frac: usize = frac_end - frac_start;
    if end != mhi || n_int + n_frac == 0 {
        // trailing bytes that are no digits, a second point, or no digit at all
        proof {
            if mant_syntax_ok(tm) {
                let dot = float_dot_pos(body);
                assert(float_split_ok(body, dot));
                let jr = j - i;
                if end != mhi {
                    if !has_dot {
                        // the byte at jr is neither a digit nor a point
                        if dot > jr {
                            assert(is_digit(body[jr as int]));
                        } else if dot < jr {
                            assert(is_digit(body[jr as int]));
                        } else {
                            assert(body[dot] == 46);
                        }
                    } else {
                        // a byte after the fraction scan is no digit
                        let fr = frac_end - i;
                        if dot == jr {
                            assert(is_digit(body[fr as int]));
                        } else if dot < jr {
                            assert(is_digit(body[dot]) || body[dot] == 46);
                            assert(is_digit(body[jr as int]));
                        } else {
                            assert(is_digit(body[jr as int]));
                        }
                    }
                } else {
                    // no digit at all: the body is empty or a lone point
                    if has_dot {
                        assert(body.len() == 1 && body[0] == 46);
                        if dot == 0 {
                            assert(body.len() > 1);
                        } else {
                            assert(is_digit(body[0]));
                        }
                    } else {
                        assert(body.len() == 0);
                    }
                }
            }
        }
        return Err(NumberError::Invalid);
    }
    proof {
        let jr = j - i;
        assert(float_split_ok(body, jr as int));
        lemma_dot_unique(body, jr as int, float_dot_pos(body));
        assert(float_int_digits(body) =~= s@.subrange(int_start as int, j as int));
        assert(float_frac_digits(body) =~= s@.subrange(frac_start as int, frac_end as int));
    }
    let ghost int_ds = s@.subrange(int_start as int, j as int);
    let ghost frac_ds = s@.subrange(frac_start as int, frac_end as int);
    // skip leading zeros of the integer part
    let mut z: usize = int_start;
    while z < j && s[z] == 48
        invariant
            int_start <= z <= j,
            j <= s@.len(),
            forall|k: int| int_start <= k < z ==> s@[k] == 48,
        decreases j - z,
    {
        z = z + 1;
    }
    proof {
        lemma_strip_zeros(s@, int_start as int, z as int, j as int);
    }
    let lim_units: i128 = (limit as i128) * (SCALE as i128);
    if j - z > 10 {
        // at least eleven significant whole digits: the mantissa alone is
        // past any accepted limit
        proof {
            let sig = s@.subrange(z as int, j as int);
            lemma_digits_val_lower(sig);
            lemma_pow10_concrete();
            lemma_pow10_increases((10 + 1) as nat, (j - z) as nat);
            lemma_frac_nonneg(frac_ds);
            assert(digits_val(int_ds) * (SCALE as int) >= pow10(10) * (SCALE as int))
                by (nonlinear_arith)
                requires
                    digits_val(int_ds) >= pow10(10),
                    SCALE as int > 0,
            ;
        }
        if neg {
            return Err(NumberError::Underflow);
        } else {
            return Err(NumberError::Overflow);
        }
    }
    // accumulate the whole part
    let mut acc: i128 = 0;
    let mut p: usize = z;
    while p < j
        invariant
            z <= p <= j,
            j <= s@.len(),
            j - z <= 10,
            forall|k: int| z <= k < j ==> is_digit(#[trigger] s@[k]),
            acc == digits_val(s@.subrange(z as int, j as int).take(p - z)),
            0 <= acc < pow10((p - z) as nat),
        decreases j - p,
    {
        let d: u8 = s[p];
        proof {
            let sig = s@.subrange(z as int, j as int);
            lemma_digits_val_take_step(sig, p - z);
            lemma_pow10_concrete();
            lemma_pow10_increases(((p - z) + 1) as nat, 10);
            assert(acc * 10 + digit_val(d) < pow10(((p - z) + 1) as nat)) by (nonlinear_arith)
                requires
                    acc < pow10((p - z) as nat),
                    0 <= acc,
                    digit_val(d) < 10,
                    pow10(((p - z) + 1) as nat) == 10 * pow10((p - z) as nat),
            ;
        }
        acc = acc * 10 + ((d - 48) as i128);
        p = p + 1;
    }
    proof {
        assert(s@.subrange(z as int, j as int).take(j - z) =~= s@.subrange(z as int, j as int));
        lemma_pow10_concrete();
    }
    // accumulate the fraction, nine digits deep
    let take_n: usize = if n_frac >= 9 {
        9
    } else {
        n_frac
    };
    let mut facc: i128 = 0;
    let mut q: usize = 0;
    while q < take_n
        invariant
            0 <= q <= take_n,
            take_n <= 9,
            take_n <= n_frac,
            n_frac == frac_end - frac_start,
            frac_start <= frac_end <= s@.len(),
            frac_ds == s@.subrange(frac_start as int, frac_end as int),
            forall|m: int| frac_start <= m < frac_end ==> is_digit(#[trigger] s@[m]),
            facc == digits_val(frac_ds.take(q as int)),
            0 <= facc < pow10(q as nat),
        decreases take_n - q,
    {
        let d: u8 = s[frac_start + q];
        proof {
            lemma_digits_val_take_step(frac_ds, q as int);
            lemma_pow10_concrete();
            assert(facc * 10 + digit_val(d) < pow10((q + 1) as nat)) by (nonlinear_arith)
                requires
                    facc < pow10(q as nat),
                    0 <= facc,
                    digit_val(d) < 10,
                    pow10((q + 1) as nat) == 10 * pow10(q as nat),
            ;
        }
        facc = facc * 10 + ((d - 48) as i128);
        q = q + 1;
    }
    let funits: i128 = if n_frac >= 9 {
        proof {
            lemma_pow10_concrete();
            assert(frac_ds.take(9) =~= frac_ds.take(take_n as int));
        }
        facc
    } else {
        let pad: i128 = pow10_small(9 - n_frac);
        proof {
            lemma_pow10_concrete();
            assert(frac_ds.take(take_n as int) =~= frac_ds);
            lemma_pow10_increases((9 - n_frac) as nat, 9);
            assert(facc * pow10((9 - n_frac) as nat) < pow10(n_frac as nat) * pow10(
                (9 - n_frac) as nat,
            )) by (nonlinear_arith)
                requires
                    facc < pow10(n_frac as nat),
                    0 <= facc,
                    pow10((9 - n_frac) as nat) > 0,
            ;
            lemma_pow10_add(n_frac as nat, (9 - n_frac) as nat);
            assert(facc * pow10((9 - n_frac) as nat) >= 0) by (nonlinear_arith)
                requires
                    0 <= facc,
                    pow10((9 - n_frac) as nat) > 0,
            ;
        }
        facc * pad
    };
    proof {
        lemma_pow10_concrete();
        assert(0 <= funits < pow10(9));
        assert(funits == frac_units(frac_ds));
    }
    // the mantissa magnitude in billionths
    let mag: i128 = acc * (SCALE as i128) + funits;
    proof {
        lemma_pow10_concrete();
        assert(acc * (SCALE as int) <= (pow10(10) - 1) * (SCALE as int)) by (nonlinear_arith)
            requires
                acc <= pow10(10) - 1,
                SCALE as int > 0,
        ;
        assert(acc * (SCALE as int) >= 0) by (nonlinear_arith)
            requires
                0 <= acc,
                SCALE as int > 0,
        ;
        assert(mag == digits_val(int_ds) * (SCALE as int) + frac_units(frac_ds));
        if neg {
            assert(mant_units(tm) == -mag);
        } else {
            assert(mant_units(tm) == mag);
        }
        assert((limit as int) * (SCALE as int) <= (2147483647int) * (SCALE as int))
            by (nonlinear_arith)
            requires
                limit as int <= 2147483647,
                SCALE as int > 0,
        ;
    }
    if mag > lim_units {
        if neg {
            return Err(NumberError::Underflow);
        } else {
            return Err(NumberError::Overflow);
        }
    }
    Ok((neg, mag))
}

/// Parse a numeric field, mirroring the wire format's grammar: surrounding
/// whitespace is ignored, the value is a signed decimal with an optional
/// integer exponent, and both the mantissa and the shifted value may not
/// exceed `limit` whole units in magnitude.
#[verifier::rlimit(100)]
#[verifier::spinoff_prover]
pub fn parse_num(s: &[u8], limit: i32) -> (r: Result<Num, NumberError>)
    requires
        0 < limit,
    ensures
        ({
            let t = trim_spec(s@);
            let lim = limit * (SCALE as int);
            match r {
                Ok(n) => float_syntax_ok(t) && -lim <= mant_units(mant_part(t)) <= lim && -lim
                    <= float_units(t) <= lim && n.units as int == float_units(t) && n.bounded(),
                Err(NumberError::Invalid) => !float_syntax_ok(t),
                Err(NumberError::Overflow) => float_syntax_ok(t) && (mant_units(mant_part(t))
                    > lim || (-lim <= mant_units(mant_part(t)) <= lim && float_units(t) > lim)),
                Err(NumberError::Underflow) => float_syntax_ok(t) && (mant_units(mant_part(t))
                    < -lim || (-lim <= mant_units(mant_part(t)) <= lim && float_units(t)
                    < -lim)),
            }
        }),
{
    let (lo, hi) = trim_bounds(s);
    let ghost t = trim_spec(s@);
    // the mantissa ends at the first exponent marker
    let mut mhi: usize = lo;
    while mhi < hi && !(s[mhi] == 101 || s[mhi] == 69)
        invariant
            lo <= mhi <= hi,
            hi <= s@.len(),
            forall|k: int| lo <= k < mhi ==> #[trigger] s@[k] != 101 && s@[k] != 69,
        decreases hi - mhi,
    {
        mhi = mhi + 1;
    }
    let ghost er = (mhi - lo) as int;
    proof {
        lemma_exp_pos_characterize(t, er);
        assert(mant_part(t) =~= s@.subrange(lo as int, mhi as int));
    }
    let mant_res = parse_mant(s, lo, mhi, limit);
    match mant_res {
        Err(NumberError::Invalid) => {
            return Err(NumberError::Invalid);
        },
        _ => {},
    }
    // the exponent part, when present, must be a well-formed integer
    let mut e_neg: bool = false;
    let mut e_mag: u64 = 0;
    if mhi < hi {
        let exp_field = crate::text::subrange_vec(s, mhi + 1, hi);
        proof {
            assert(exp_field@ =~= t.skip(er + 1));
        }
        match parse_int_raw(exp_field.as_slice()) {
            Some(p) => {
                e_neg = p.0;
                e_mag = p.1;
            },
            None => {
                return Err(NumberError::Invalid);
            },
        }
    }
    let (neg, mag): (bool, i128) = match mant_res {
        Ok(p) => p,
        Err(e) => {
            return Err(e);
        },
    };
    let lim_units: i128 = (limit as i128) * (SCALE as i128);
    proof {
        assert((limit as int) * (SCALE as int) <= (2147483647int) * (SCALE as int))
            by (nonlinear_arith)
            requires
                limit as int <= 2147483647,
                SCALE as int > 0,
        ;
        assert(lim_units * 1 == lim_units) by (nonlinear_arith);
    }
    // relate the parsed exponent to its value
    let ghost ev = exp_val(t);
    proof {
        if mhi < hi {
            let eds = t.skip(er + 1);
            assert(ev == int_value(eds));
            assert(forall|k: int|
                0 <= k < float_body(eds).len() ==> is_digit(#[trigger] float_body(eds)[k]));
            lemma_digits_val_nonneg(float_body(eds));
            let dv = digits_val(float_body(eds));
            if e_mag == 0 {
                assert(dv == 0);
            } else if !e_neg {
                assert(ev == dv);
                assert(dv >= e_mag as int);
            } else {
                assert(-ev == dv);
                assert(dv >= e_mag as int);
            }
        } else {
            assert(ev == 0);
        }
    }
    // shift the magnitude by the exponent
    let shifted: i128 = match shift_and_check(mag, lim_units, e_neg, e_mag, Ghost(ev)) {
        Some(sh) => sh,
        None => {
            proof {
                if mag == 0 {
                    if ev >= 0 {
                        assert(0int * pow10(ev as nat) == 0) by (nonlinear_arith);
                    } else {
                        lemma_pow10_increases(0, (-ev) as nat);
                        assert(0int / pow10((-ev) as nat) == 0) by (nonlinear_arith)
                            requires
                                pow10((-ev) as nat) >= 1,
                        ;
                    }
                    assert(shift_mag(0, ev) == 0);
                }
                if neg {
                    assert(float_units(t) == -shift_mag(mag as int, ev));
                } else {
                    assert(float_units(t) == shift_mag(mag as int, ev));
                }
            }
            if neg {
                return Err(NumberError::Underflow);
            } else {
                return Err(NumberError::Overflow);
            }
        },
    };
    proof {
        assert(0 <= shifted <= lim_units);
        if mag == 0 {
            if ev >= 0 {
                assert(0int * pow10(ev as nat) == 0) by (nonlinear_arith);
            } else {
                lemma_pow10_increases(0, (-ev) as nat);
                assert(0int / pow10((-ev) as nat) == 0) by (nonlinear_arith)
                    requires
                        pow10((-ev) as nat) >= 1,
                ;
            }
            assert(shift_mag(0, ev) == 0);
        }
        if neg {
            assert(float_units(t) == -shifted);
        } else {
            assert(float_units(t) == shifted);
        }
    }
    let units: i128 = if neg {
        -shifted
    } else {
        shifted
    };
    Ok(Num { units })
}

/// Zeros stripped from the front leave the value unchanged.
proof fn lemma_strip_zeros(s: Seq<u8>, a: int, z: int, b: int)
    requires
        0 <= a <= z <= b <= s.len(),
        forall|k: int| a <= k < z ==> s[k] == 48,
    ensures
        digits_val(s.subrange(a, b)) == digits_val(s.subrange(z, b)),
    decreases z - a,
{
    if a < z {
        lemma_digits_val_drop_zero(s.subrange(a, b));
        assert(s.subrange(a, b).drop_first() =~= s.subrange(a + 1, b));
        lemma_strip_zeros(s, a + 1, z, b);
    } else {
        assert(s.subrange(a, b) =~= s.subrange(z, b));
    }
}

/// Powers of ten grow with the exponent.
proof fn lemma_pow10_increases(a: nat, b: nat)
    requires
        a <= b,
    ensures
        pow10(a) <= pow10(b),
        pow10(a) >= 1,
    decreases b,
{
    if a < b {
        lemma_pow10_increases(a, (b - 1) as nat);
    } else if a == b && a > 0 {
        lemma_pow10_increases((a - 1) as nat, (b - 1) as nat);
    }
}

/// `10^a * 10^b == 10^(a+b)`.
proof fn lemma_pow10_add(a: nat, b: nat)
    ensures
        pow10(a) * pow10(b) == pow10(a + b),
    decreases b,
{
    if b == 0 {
        assert(pow10(a) * 1 == pow10(a)) by (nonlinear_arith);
    } else {
        lemma_pow10_add(a, (b - 1) as nat);
        assert(pow10(a) * (10 * pow10((b - 1) as nat)) == 10 * (pow10(a) * pow10(
            (b - 1) as nat,
        ))) by (nonlinear_arith);
    }
}

/// Fraction digits denote a non-negative count of billionths.
proof fn lemma_frac_nonneg(ds: Seq<u8>)
    requires
        forall|i: int| 0 <= i < ds.len() ==> is_digit(#[trigger] ds[i]),
    ensures
        0 <= frac_units(ds),
{
    if ds.len() >= 9 {
        assert(forall|i: int| 0 <= i < ds.take(9).len() ==> is_digit(#[trigger] ds.take(9)[i]));
        lemma_digits_val_nonneg(ds.take(9));
    } else {
        lemma_digits_val_nonneg(ds);
        lemma_pow10_increases(0, (9 - ds.len()) as nat);
        assert(digits_val(ds) * pow10((9 - ds.len()) as nat) >= 0) by (nonlinear_arith)
            requires
                digits_val(ds) >= 0,
                pow10((9 - ds.len()) as nat) >= 1,
        ;
    }
}

/// The shortest decimal digit sequence for a non-negative integer.
pub open spec fn digits_seq(n: int) -> Seq<u8>
    decreases n,
{
    if n < 10 {
        seq![(48 + n) as u8]
    } else {
        digits_seq(n / 10).push((48 + n % 10) as u8)
    }
}

/// The decimal digit sequence for `n`, zero-padded to width `w`.
pub open spec fn padded_digits(n: int, w: nat) -> Seq<u8>
    decreases w,
{
    if w == 0 {
        seq![]
    } else {
        padded_digits(n / 10, (w - 1) as nat).push((48 + n % 10) as u8)
    }
}

/// A fraction of `w` digits written without its trailing zeros.
pub open spec fn fmt_frac(f: int, w: nat) -> Seq<u8>
    decreases w,
{
    if w > 0 && f % 10 == 0 {
        fmt_frac(f / 10, (w - 1) as nat)
    } else {
        padded_digits(f, w)
    }
}

/// The text of a non-negative count of billionths: the whole part, then a
/// point and the fraction when the fraction is not zero.
pub open spec fn fmt_mag(m: int) -> Seq<u8> {
    if m % (SCALE as int) == 0 {
        digits_seq(m / (SCALE as int))
    } else {
        digits_seq(m / (SCALE as int)) + seq![46u8] + fmt_frac(m % (SCALE as int), 9)
    }
}

/// The text of a count of billionths, sign included.
pub open spec fn fmt_num(u: int) -> Seq<u8> {
    if u < 0 {
        seq![45u8] + fmt_mag(-u)
    } else {
        fmt_mag(u)
    }
}

/// Append the shortest decimal form of `n`.
fn push_digits(out: &mut Vec<u8>, n: i128)
    requires
        n >= 0,
    ensures
        final(out)@ == old(out)@ + digits_seq(n as int),
    decreases n,
{
    if n < 10 {
        out.push(48 + (n as u8));
    } else {
        push_digits(out, n / 10);
        out.push(48 + ((n % 10) as u8));
        proof {
            assert(out@ =~= old(out)@ + digits_seq(n as int));
        }
    }
}

/// Append the `w`-digit zero-padded decimal form of `n`.
fn push_padded(out: &mut Vec<u8>, n: i128, w: usize)
    requires
        n >= 0,
        w <= 9,
    ensures
        final(out)@ == old(out)@ + padded_digits(n as int, w as nat),
    decreases w,
{
    if w > 0 {
        push_padded(out, n / 10, w - 1);
        out.push(48 + ((n % 10) as u8));
        proof {
            assert(out@ =~= old(out)@ + padded_digits(n as int, w as nat));
        }
    } else {
        proof {
            assert(out@ =~= old(out)@ + padded_digits(n as int, 0));
        }
    }
}

impl Num {
    /// Append the decimal text of this number, as the encoder writes it.
    pub fn push_text(self, out: &mut Vec<u8>)
        requires
            self.bounded(),
        ensures
            final(out)@ == old(out)@ + fmt_num(self.units as int),
    {
        let mut mag: i128 = self.units;
        if self.units < 0 {
            out.push(45);
            mag = -mag;
        }
        let whole: i128 = mag / (SCALE as i128);
        let mut frac: i128 = mag % (SCALE as i128);
        let ghost frac0 = frac as int;
        push_digits(out, whole);
        if frac != 0 {
            out.push(46);
            proof {
                lemma_pow10_concrete();
            }
            let mut w: usize = 9;
            while frac % 10 == 0
                invariant
                    w <= 9,
                    0 < frac,
                    frac < pow10(w as nat),
                    fmt_frac(frac0, 9) == fmt_frac(frac as int, w as nat),
                decreases w,
            {
                proof {
                    lemma_pow10_concrete();
                    if w == 0 {
                        assert(frac < 1);
                    }
                    assert(frac / 10 < pow10((w - 1) as nat)) by (nonlinear_arith)
                        requires
                            frac < pow10(w as nat),
                            pow10(w as nat) == 10 * pow10((w - 1) as nat),
                            0 < frac,
                            frac % 10 == 0,
                    ;
                }
                frac = frac / 10;
                w = w - 1;
            }
            push_padded(out, frac, w);
            proof {
                assert(out@ =~= old(out)@ + fmt_num(self.units as int));
            }
        } else {
            proof {
                assert(out@ =~= old(out)@ + fmt_num(self.units as int));
            }
        }
    }
}

/// The digits written for `n` are digits, start without a zero unless `n`
/// is zero, and read back as `n`.
pub proof fn lemma_digits_seq_val(n: int)
    requires
        0 <= n,
    ensures
        digits_seq(n).len() >= 1,
        forall|i: int| 0 <= i < digits_seq(n).len() ==> is_digit(#[trigger] digits_seq(n)[i]),
        digits_val(digits_seq(n)) == n,
    decreases n,
{
    if n < 10 {
        assert(digits_seq(n).drop_last() =~= Seq::<u8>::empty());
        assert(((48 + n) as u8) as int == 48 + n);
        assert(digits_val(Seq::<u8>::empty()) == 0);
        assert(digits_seq(n).last() == (48 + n) as u8);
        assert(digits_val(digits_seq(n)) == digits_val(digits_seq(n).drop_last()) * 10
            + digit_val(digits_seq(n).last()));
    } else {
        lemma_digits_seq_val(n / 10);
        assert(digits_seq(n).drop_last() =~= digits_seq(n / 10));
        assert(((48 + n % 10) as u8) as int == 48 + n % 10);
        assert(digits_val(digits_seq(n)) == (n / 10) * 10 + n % 10);
        assert(n == (n / 10) * 10 + n % 10);
    }
}

/// The padded digits of `n < 10^w` are digits and read back as `n`.
pub proof fn lemma_padded_digits_val(n: int, w: nat)
    requires
        0 <= n < pow10(w),
    ensures
        padded_digits(n, w).len() == w,
        forall|i: int|
            0 <= i < padded_digits(n, w).len() ==> is_digit(#[trigger] padded_digits(n, w)[i]),
        digits_val(padded_digits(n, w)) == n,
    decreases w,
{
    if w > 0 {
        assert(pow10(w) == 10 * pow10((w - 1) as nat));
        assert(n / 10 < pow10((w - 1) as nat)) by (nonlinear_arith)
            requires
                n < pow10(w),
                pow10(w) == 10 * pow10((w - 1) as nat),
                0 <= n,
        ;
        lemma_padded_digits_val(n / 10, (w - 1) as nat);
        assert(padded_digits(n, w).drop_last() =~= padded_digits(n / 10, (w - 1) as nat));
        assert(digits_val(padded_digits(n, w)) == (n / 10) * 10 + n % 10);
    }
}

/// The trimmed fraction text of `f < 10^w` is all digits, at most `w` long,
/// and denotes `f` when weighted back to `w` places.
pub proof fn lemma_fmt_frac_val(f: int, w: nat)
    requires
        0 <= f < pow10(w),
    ensures
        fmt_frac(f, w).len() <= w,
        forall|i: int| 0 <= i < fmt_frac(f, w).len() ==> is_digit(#[trigger] fmt_frac(f, w)[i]),
        digits_val(fmt_frac(f, w)) * pow10((w - fmt_frac(f, w).len()) as nat) == f,
        f != 0 ==> fmt_frac(f, w).len() >= 1,
    decreases w,
{
    if w > 0 && f % 10 == 0 {
        assert(pow10(w) == 10 * pow10((w - 1) as nat));
        assert(f / 10 < pow10((w - 1) as nat)) by (nonlinear_arith)
            requires
                f < pow10(w),
                pow10(w) == 10 * pow10((w - 1) as nat),
                0 <= f,
        ;
        lemma_fmt_frac_val(f / 10, (w - 1) as nat);
        let ds = fmt_frac(f, w);
        let k = (w - 1 - ds.len()) as nat;
        assert(digits_val(ds) * pow10(k) == f / 10);
        assert(f == (f / 10) * 10);
        assert(pow10((w - ds.len()) as nat) == pow10(k) * 10) by {
            lemma_pow10_add(k, 1);
            assert(pow10(1) == 10) by {
                lemma_pow10_concrete();
            }
        }
        assert(digits_val(ds) * (pow10(k) * 10) == (digits_val(ds) * pow10(k)) * 10)
            by (nonlinear_arith);
    } else {
        lemma_padded_digits_val(f, w);
        if f != 0 && w == 0 {
            assert(pow10(0) == 1);
        }
    }
}

/// The encoder's number text parses back to the very value it was written
/// from: the decoder and encoder agree on every in-range number.
pub proof fn lemma_num_text_round_trip(u: int)
    requires
        -(UNITS_CAP as int) <= u <= UNITS_CAP as int,
    ensures
        trim_spec(fmt_num(u)) == fmt_num(u),
        float_syntax_ok(fmt_num(u)),
        float_units(fmt_num(u)) == u,
{
    let neg = u < 0;
    let m = if neg {
        -u
    } else {
        u
    };
    let whole = m / (SCALE as int);
    let frac = m % (SCALE as int);
    lemma_pow10_concrete();
    lemma_digits_seq_val(whole);
    let ids = digits_seq(whole);
    let s = fmt_num(u);
    let body = float_body(s);
    if frac == 0 {
        assert(body =~= ids);
        assert(float_split_ok(body, ids.len() as int));
        lemma_dot_unique(body, ids.len() as int, float_dot_pos(body));
        assert(float_int_digits(body) =~= ids);
        assert(float_frac_digits(body) =~= Seq::<u8>::empty());
        assert(digits_val(ids) * (SCALE as int) + 0 == m) by (nonlinear_arith)
            requires
                digits_val(ids) == m / (SCALE as int),
                m % (SCALE as int) == 0,
                SCALE == 1_000_000_000,
                0 <= m,
        ;
    } else {
        lemma_fmt_frac_val(frac, 9);
        let fds = fmt_frac(frac, 9);
        assert(body =~= ids + seq![46u8] + fds);
        assert(forall|i: int| 0 <= i < ids.len() ==> is_digit(#[trigger] body[i]));
        assert(body[ids.len() as int] == 46);
        assert(forall|i: int|
            ids.len() < i < body.len() ==> is_digit(#[trigger] body[i]));
        assert(float_split_ok(body, ids.len() as int));
        lemma_dot_unique(body, ids.len() as int, float_dot_pos(body));
        assert(float_int_digits(body) =~= ids);
        assert(float_frac_digits(body) =~= fds);
        // the written fraction reads back as `frac`
        if fds.len() >= 9 {
            assert(fds.len() == 9);
            assert(fds.take(9) =~= fds);
            assert(pow10(0) == 1);
            assert(digits_val(fds) * 1 == digits_val(fds)) by (nonlinear_arith);
            assert(frac_units(fds) == frac);
        } else {
            assert(frac_units(fds) == digits_val(fds) * pow10((9 - fds.len()) as nat));
            assert(frac_units(fds) == frac);
        }
        assert(digits_val(ids) * (SCALE as int) + frac == m) by (nonlinear_arith)
            requires
                digits_val(ids) == m / (SCALE as int),
                frac == m % (SCALE as int),
                SCALE == 1_000_000_000,
                0 <= m,
        ;
    }
    // the text holds no exponent marker, so it is all mantissa
    assert(forall|i: int| 0 <= i < s.len() ==> #[trigger] s[i] != 101 && s[i] != 69) by {
        if neg {
            assert(s[0] == 45);
            assert(forall|i: int| 1 <= i < s.len() ==> s[i] == body[i - 1]);
        }
        assert(forall|i: int|
            0 <= i < body.len() ==> (is_digit(#[trigger] body[i]) || body[i] == 46));
    }
    lemma_exp_pos_characterize(s, s.len() as int);
    assert(mant_part(s) =~= s);
    assert(exp_val(s) == 0);
    assert(mant_units(mant_part(s)) == mant_units(s));
    assert(mant_units(s) == u);
    if u >= 0 {
        assert(u * pow10(0) == u) by (nonlinear_arith)
            requires
                pow10(0) == 1,
        ;
        assert(shift_mag(u, 0) == u);
    } else {
        assert((-u) * pow10(0) == -u) by (nonlinear_arith)
            requires
                pow10(0) == 1,
        ;
        assert(shift_mag(-u, 0) == -u);
    }
    // no byte of the text is whitespace, so trimming does nothing
    assert(forall|i: int| 0 <= i < s.len() ==> !is_ws(#[trigger] s[i])) by {
        if neg {
            assert(s[0] == 45);
            assert(forall|i: int| 1 <= i < s.len() ==> s[i] == body[i - 1]);
        }
        assert(forall|i: int|
            0 <= i < body.len() ==> (is_digit(#[trigger] body[i]) || body[i] == 46));
    }
    if s.len() > 0 {
        lemma_trim_characterize(s, 0, s.len() as int);
        assert(s.subrange(0, s.len() as int) =~= s);
    }
}

/// An integer: an optional sign, then only digits, at least one.
pub open spec fn int_syntax_ok(s: Seq<u8>) -> bool {
    let body = float_body(s);
    body.len() >= 1 && forall|i: int| 0 <= i < body.len() ==> is_digit(#[trigger] body[i])
}

/// The value of a well-formed trimmed integer.
pub open spec fn int_value(s: Seq<u8>) -> int {
    if float_neg(s) {
        -digits_val(float_body(s))
    } else {
        digits_val(float_body(s))
    }
}

/// Parse an integer field as the wire format reads one: surrounding
/// whitespace ignored, only sign and digits, the value held to the range
/// the format accepts.
#[verifier::rlimit(30)]
pub fn parse_i32(s: &[u8]) -> (r: Result<i32, NumberError>)
    ensures
        ({
            let t = trim_spec(s@);
            match r {
                Ok(n) => int_syntax_ok(t) && -2147483647 <= int_value(t) <= 2147483647 && n as int
                    == int_value(t),
                Err(NumberError::Invalid) => !int_syntax_ok(t) || int_value(t) < -2147483648
                    || int_value(t) > 2147483647,
                Err(NumberError::Overflow) => false,
                Err(NumberError::Underflow) => int_syntax_ok(t) && int_value(t) == -2147483648,
            }
        }),
{
    let (lo, hi) = trim_bounds(s);
    let ghost t = trim_spec(s@);
    let mut i: usize = lo;
    let mut neg: bool = false;
    if i < hi && (s[i] == 43 || s[i] == 45) {
        neg = s[i] == 45;
        i = i + 1;
    }
    let ghost body = float_body(t);
    proof {
        assert(body =~= s@.subrange(i as int, hi as int));
        assert(neg == float_neg(t));
    }
    let mut j: usize = i;
    while j < hi && digit_exec(s[j])
        invariant
            i <= j <= hi,
            hi <= s@.len(),
            forall|k: int| i <= k < j ==> is_digit(#[trigger] s@[k]),
        decreases hi - j,
    {
        j = j + 1;
    }
    if j != hi || j == i {
        proof {
            if int_syntax_ok(t) {
                if j != hi {
                    assert(is_digit(body[(j - i) as int]));
                }
            }
        }
        return Err(NumberError::Invalid);
    }
    let mut z: usize = i;
    while z < j && s[z] == 48
        invariant
            i <= z <= j,
            j <= s@.len(),
            forall|k: int| i <= k < z ==> s@[k] == 48,
        decreases j - z,
    {
        z = z + 1;
    }
    proof {
        lemma_strip_zeros(s@, i as int, z as int, j as int);
    }
    if j - z > 10 {
        proof {
            let sig = s@.subrange(z as int, j as int);
            lemma_digits_val_lower(sig);
            lemma_pow10_concrete();
            lemma_pow10_increases(11, (j - z) as nat);
        }
        return Err(NumberError::Invalid);
    }
    let mut acc: i128 = 0;
    let mut p: usize = z;
    while p < j
        invariant
            z <= p <= j,
            j <= s@.len(),
            j - z <= 10,
            forall|k: int| z <= k < j ==> is_digit(#[trigger] s@[k]),
            acc == digits_val(s@.subrange(z as int, j as int).take(p - z)),
            0 <= acc < pow10((p - z) as nat),
        decreases j - p,
    {
        let d: u8 = s[p];
        proof {
            let sig = s@.subrange(z as int, j as int);
            lemma_digits_val_take_step(sig, p - z);
            lemma_pow10_concrete();
            lemma_pow10_increases(((p - z) + 1) as nat, 10);
            assert(acc * 10 + digit_val(d) < pow10(((p - z) + 1) as nat)) by (nonlinear_arith)
                requires
                    acc < pow10((p - z) as nat),
                    0 <= acc,
                    digit_val(d) < 10,
                    pow10(((p - z) + 1) as nat) == 10 * pow10((p - z) as nat),
            ;
        }
        acc = acc * 10 + ((d - 48) as i128);
        p = p + 1;
    }
    proof {
        assert(s@.subrange(z as int, j as int).take(j - z) =~= s@.subrange(z as int, j as int));
        lemma_pow10_concrete();
    }
    if neg {
        if acc > 2147483648 {
            Err(NumberError::Invalid)
        } else if acc == 2147483648 {
            Err(NumberError::Underflow)
        } else {
            Ok(-(acc as i32))
        }
    } else {
        if acc > 2147483647 {
            Err(NumberError::Invalid)
        } else {
            Ok(acc as i32)
        }
    }
}

/// Whether `s` is a plain unsigned byte: no surrounding whitespace, an
/// optional plus sign, then digits for a value up to 255.
pub open spec fn u8_plain_ok(s: Seq<u8>) -> bool {
    let body = float_body(s);
    s.len() > 0 && !float_neg(s) && body.len() >= 1 && (forall|i: int|
        0 <= i < body.len() ==> is_digit(#[trigger] body[i])) && digits_val(body) <= 255
}

/// The value of a plain unsigned byte.
pub open spec fn u8_plain_val(s: Seq<u8>) -> int {
    digits_val(float_body(s))
}

/// Parse an unsigned byte exactly as the wire format's enum codes are read:
/// no surrounding whitespace, an optional plus sign, then digits.
pub fn parse_u8_plain(s: &[u8]) -> (r: Option<u8>)
    ensures
        match r {
            Some(n) => u8_plain_ok(s@) && n as int == u8_plain_val(s@),
            None => !u8_plain_ok(s@),
        },
{
    let len = s.len();
    let mut i: usize = 0;
    if i < len && s[i] == 43 {
        i = i + 1;
    }
    let ghost body = float_body(s@);
    proof {
        if s@.len() > 0 && !float_neg(s@) {
            assert(body =~= s@.subrange(i as int, len as int));
        }
    }
    if i < len && s[i] == 45 {
        // a sign here is either a second one or a minus: both are refused
        proof {
            if s@.len() > 0 && !float_neg(s@) && body.len() >= 1 {
                assert(body[0] == 45);
            }
        }
        return None;
    }
    let mut j: usize = i;
    while j < len && digit_exec(s[j])
        invariant
            i <= j <= len,
            len == s@.len(),
            forall|k: int| i <= k < j ==> is_digit(#[trigger] s@[k]),
        decreases len - j,
    {
        j = j + 1;
    }
    if j != len || j == i {
        proof {
            if s@.len() > 0 && !float_neg(s@) && body.len() >= 1 && (forall|k: int|
                0 <= k < body.len() ==> is_digit(#[trigger] body[k]))  {
                if j != len {
                    assert(!is_digit(s@[j as int]));
                    assert(body[(j - i) as int] == s@[j as int]);
                } else {
                    assert(body.len() == 0);
                }
            }
        }
        return None;
    }
    let mut z: usize = i;
    while z < j && s[z] == 48
        invariant
            i <= z <= j,
            j <= s@.len(),
            forall|k: int| i <= k < z ==> s@[k] == 48,
        decreases j - z,
    {
        z = z + 1;
    }
    proof {
        lemma_strip_zeros(s@, i as int, z as int, j as int);
    }
    if j - z > 3 {
        proof {
            let sig = s@.subrange(z as int, j as int);
            lemma_digits_val_lower(sig);
            lemma_pow10_concrete();
            lemma_pow10_increases(4, (j - z) as nat);
        }
        return None;
    }
    let mut acc: u32 = 0;
    let mut p: usize = z;
    while p < j
        invariant
            z <= p <= j,
            j <= s@.len(),
            j - z <= 3,
            forall|k: int| z <= k < j ==> is_digit(#[trigger] s@[k]),
            acc == digits_val(s@.subrange(z as int, j as int).take(p - z)),
            0 <= acc < pow10((p - z) as nat),
        decreases j - p,
    {
        let d: u8 = s[p];
        proof {
            let sig = s@.subrange(z as int, j as int);
            lemma_digits_val_take_step(sig, p - z);
            lemma_pow10_concrete();
            lemma_pow10_increases(((p - z) + 1) as nat, 3);
            assert(acc * 10 + digit_val(d) < pow10(((p - z) + 1) as nat)) by (nonlinear_arith)
                requires
                    acc < pow10((p - z) as nat),
                    0 <= acc,
                    digit_val(d) < 10,
                    pow10(((p - z) + 1) as nat) == 10 * pow10((p - z) as nat),
            ;
        }
        acc = acc * 10 + ((d - 48) as u32);
        p = p + 1;
    }
    proof {
        assert(s@.subrange(z as int, j as int).take(j - z) =~= s@.subrange(z as int, j as int));
        lemma_pow10_concrete();
    }
    if acc > 255 {
        None
    } else {
        Some(acc as u8)
    }
}

/// The default magnitude limit on parsed numbers.
pub const MAX_PARSE_VALUE: i32 = 2147483647;

/// Whether a numeric field holds a well-formed number whose mantissa and
/// shifted value both lie within `limit` whole units.
pub open spec fn field_ok(s: Seq<u8>, limit: int) -> bool {
    &&& float_syntax_ok(trim_spec(s))
    &&& -limit * (SCALE as int) <= mant_units(mant_part(trim_spec(s))) <= limit * (SCALE as int)
    &&& -limit * (SCALE as int) <= field_units(s) <= limit * (SCALE as int)
}

/// The billionths a numeric field holds.
pub open spec fn field_units(s: Seq<u8>) -> int {
    float_units(trim_spec(s))
}

/// Why a numeric field is refused.
pub open spec fn field_err(s: Seq<u8>, limit: int) -> NumberError {
    if !float_syntax_ok(trim_spec(s)) {
        NumberError::Invalid
    } else if mant_units(mant_part(trim_spec(s))) > limit * (SCALE as int) || (-limit * (
    SCALE as int) <= mant_units(mant_part(trim_spec(s))) && field_units(s) > limit * (
    SCALE as int)) {
        NumberError::Overflow
    } else {
        NumberError::Underflow
    }
}

/// Whether an integer field holds a well-formed accepted integer.
pub open spec fn int_field_ok(s: Seq<u8>) -> bool {
    int_syntax_ok(trim_spec(s)) && -2147483647 <= int_value(trim_spec(s)) <= 2147483647
}

/// The value an integer field holds.
pub open spec fn int_field_val(s: Seq<u8>) -> int {
    int_value(trim_spec(s))
}

/// Why an integer field is refused.
pub open spec fn int_field_err(s: Seq<u8>) -> NumberError {
    if int_syntax_ok(trim_spec(s)) && int_value(trim_spec(s)) == -2147483648 {
        NumberError::Underflow
    } else {
        NumberError::Invalid
    }
}

/// A count of billionths truncated toward zero to whole units and clamped
/// into a byte, as a colour channel is stored.
pub open spec fn units_to_u8(u: int) -> int {
    if u <= 0 {
        0
    } else if u / (SCALE as int) >= 255 {
        255
    } else {
        u / (SCALE as int)
    }
}

/// A count of billionths truncated toward zero to whole units, as a volume
/// is stored.
pub open spec fn units_to_i32(u: int) -> int {
    if u >= 0 {
        u / (SCALE as int)
    } else {
        -((-u) / (SCALE as int))
    }
}

impl Num {
    /// The value truncated toward zero and clamped into a byte.
    pub fn to_u8_sat(self) -> (r: u8)
        requires
            self.bounded(),
        ensures
            r as int == units_to_u8(self.units as int),
    {
        if self.units <= 0 {
            0
        } else {
            let w: i128 = self.units / SCALE;
            if w >= 255 {
                255
            } else {
                w as u8
            }
        }
    }

    /// The value truncated toward zero to whole units.
    pub fn to_i32_trunc(self) -> (r: i32)
        requires
            self.bounded(),
            -2147483648 * (SCALE as int) <= self.units as int <= 2147483647 * (SCALE as int),
        ensures
            r as int == units_to_i32(self.units as int),
    {
        if self.units >= 0 {
            proof {
                assert(0 <= self.units as int / (SCALE as int) <= 2147483647int)
                    by (nonlinear_arith)
                    requires
                        0 <= self.units as int <= 2147483647 * (SCALE as int),
                        SCALE == 1_000_000_000,
                ;
            }
            (self.units / SCALE) as i32
        } else {
            let m: i128 = -self.units;
            proof {
                assert(0 <= m / (SCALE as i128) <= 2147483648int) by (nonlinear_arith)
                    requires
                        0 <= m <= 2147483648 * (SCALE as int),
                        SCALE == 1_000_000_000,
                ;
            }
            (-(m / SCALE)) as i32
        }
    }
}

/// The text of a signed integer.
pub open spec fn fmt_int(v: int) -> Seq<u8> {
    if v < 0 {
        seq![45u8] + digits_seq(-v)
    } else {
        digits_seq(v)
    }
}

/// Append the decimal text of a signed machine integer.
pub fn push_i32_text(out: &mut Vec<u8>, n: i32)
    ensures
        final(out)@ == old(out)@ + fmt_int(n as int),
{
    if n < 0 {
        out.push(45);
        let m: i128 = -(n as i128);
        push_digits(out, m);
        proof {
            assert(out@ =~= old(out)@ + fmt_int(n as int));
        }
    } else {
        push_digits(out, n as i128);
    }
}

/// Append the decimal text of an unsigned machine integer.
pub fn push_u32_text(out: &mut Vec<u8>, n: u32)
    ensures
        final(out)@ == old(out)@ + digits_seq(n as int),
{
    push_digits(out, n as i128);
}

/// The integer text the encoder writes parses back to the value it was
/// written from.
pub proof fn lemma_int_text_round_trip(v: int)
    ensures
        trim_spec(fmt_int(v)) == fmt_int(v),
        int_syntax_ok(fmt_int(v)),
        int_value(fmt_int(v)) == v,
{
    let m = if v < 0 {
        -v
    } else {
        v
    };
    lemma_digits_seq_val(m);
    let s = fmt_int(v);
    let body = float_body(s);
    if v < 0 {
        assert(body =~= digits_seq(m));
    } else {
        if s[0] == 45 || s[0] == 43 {
            assert(is_digit(s[0]));
        }
        assert(body =~= digits_seq(m));
    }
    assert(forall|i: int| 0 <= i < s.len() ==> !is_ws(#[trigger] s[i])) by {
        if v < 0 {
            assert(s[0] == 45);
            assert(forall|i: int| 1 <= i < s.len() ==> s[i] == body[i - 1]);
        }
        assert(forall|i: int| 0 <= i < body.len() ==> is_digit(#[trigger] body[i]));
    }
    lemma_trim_characterize(s, 0, s.len() as int);
    assert(s.subrange(0, s.len() as int) =~= s);
}

/// If `0 <= a` and `a <= cap / b` (integer division) with `b > 0`, then `a * b <= cap`.
proof fn lemma_mul_within_pos(a: int, b: int, cap: int)
    requires
        0 <= a,
        0 < b,
        0 <= cap,
        a <= cap / b,
    ensures
        a * b <= cap,
{
    assert(a * b <= (cap / b) * b) by (nonlinear_arith)
        requires
            0 <= a,
            0 < b,
            a <= cap / b,
    ;
    assert((cap / b) * b <= cap) by (nonlinear_arith)
        requires
            0 < b,
            0 <= cap,
    ;
}

/// If `a > cap / b` (integer division) with `b > 0`, then `a * b > cap`.
proof fn lemma_div_bound_pos(a: int, b: int, cap: int)
    requires
        0 < b,
        0 <= cap,
        a > cap / b,
    ensures
        a * b > cap,
{
    assert((cap / b + 1) * b > cap) by (nonlinear_arith)
        requires
            0 < b,
            0 <= cap,
    ;
    assert(a * b >= (cap / b + 1) * b) by (nonlinear_arith)
        requires
            0 < b,
            a >= cap / b + 1,
    ;
}

} // verus!
