use vstd::prelude::*;
use crate::point::WORLD_LIMIT;

verus! {

/// Largest magnitude of an exponent that is read exactly; a larger one
/// moves the point past every digit that a text can hold.
pub const EXPONENT_LIMIT: i128 = 1_267_650_600_228_229_401_496_703_205_376;

/// The byte is an ASCII digit.
pub open spec fn is_digit(b: u8) -> bool {
    48 <= b <= 57
}

/// The byte marks an exponent: `e` or `E`.
pub open spec fn is_mark(b: u8) -> bool {
    b == 101 || b == 69
}

/// Every byte is an ASCII digit.
pub open spec fn all_digits(s: Seq<u8>) -> bool {
    forall|i: int| 0 <= i < s.len() ==> is_digit(#[trigger] s[i])
}

/// The number that a string of digits writes in base ten; the empty
/// string writes zero.
pub open spec fn digits_value(s: Seq<u8>) -> int
    decreases s.len(),
{
    if s.len() == 0 {
        0
    } else {
        10 * digits_value(s.drop_last()) + (s.last() - 48)
    }
}

/// Ten to the power `k`.
pub open spec fn pow10(k: nat) -> int
    decreases k,
{
    if k == 0 {
        1
    } else {
        10 * pow10((k - 1) as nat)
    }
}

/// The text begins with a minus sign.
pub open spec fn is_negative(s: Seq<u8>) -> bool {
    s.len() > 0 && s[0] == 45
}

/// The text without its leading sign, if it has one.
pub open spec fn unsigned_part(s: Seq<u8>) -> Seq<u8> {
    if s.len() > 0 && (s[0] == 45 || s[0] == 43) {
        s.drop_first()
    } else {
        s
    }
}

/// Where the first point stands, or the length where there is none.
pub open spec fn point_position(u: Seq<u8>) -> int
    decreases u.len(),
{
    if u.len() == 0 || u[0] == 46 {
        0
    } else {
        1 + point_position(u.drop_first())
    }
}

/// Where the first exponent mark stands, or the length where there is
/// none.
pub open spec fn mark_position(u: Seq<u8>) -> int
    decreases u.len(),
{
    if u.len() == 0 || is_mark(u[0]) {
        0
    } else {
        1 + mark_position(u.drop_first())
    }
}

/// The text has an exponent mark.
pub open spec fn has_exponent(s: Seq<u8>) -> bool {
    mark_position(unsigned_part(s)) < unsigned_part(s).len()
}

/// What stands between the sign and the exponent mark.
pub open spec fn mantissa(s: Seq<u8>) -> Seq<u8> {
    unsigned_part(s).take(mark_position(unsigned_part(s)))
}

/// What stands after the exponent mark.
pub open spec fn exponent_text(s: Seq<u8>) -> Seq<u8> {
    if has_exponent(s) {
        unsigned_part(s).skip(mark_position(unsigned_part(s)) + 1)
    } else {
        Seq::empty()
    }
}

/// What stands before the first point.
pub open spec fn whole_digits(s: Seq<u8>) -> Seq<u8> {
    mantissa(s).take(point_position(mantissa(s)))
}

/// What stands after the first point.
pub open spec fn fraction_digits(s: Seq<u8>) -> Seq<u8> {
    if point_position(mantissa(s)) < mantissa(s).len() {
        mantissa(s).skip(point_position(mantissa(s)) + 1)
    } else {
        Seq::empty()
    }
}

/// The text is a decimal number: an optional sign, digits, optionally a
/// point and more digits, with at least one digit in all, and optionally
/// an exponent: `e` or `E`, an optional sign, and at least one digit.
/// There is no blank.
pub open spec fn is_decimal(s: Seq<u8>) -> bool {
    &&& all_digits(whole_digits(s))
    &&& all_digits(fraction_digits(s))
    &&& whole_digits(s).len() + fraction_digits(s).len() > 0
    &&& has_exponent(s) ==> unsigned_part(exponent_text(s)).len() > 0 && all_digits(
        unsigned_part(exponent_text(s)),
    )
}

/// The exponent that the text writes; zero where it writes none.
pub open spec fn exponent_value(s: Seq<u8>) -> int {
    let e = digits_value(unsigned_part(exponent_text(s)));
    if is_negative(exponent_text(s)) {
        -e
    } else {
        e
    }
}

/// How many of the digits of the text, whole and fraction together, count
/// for the thousandths: those before the point, which the exponent moves,
/// and three after it.
pub open spec fn counted_digits(s: Seq<u8>) -> int {
    whole_digits(s).len() + exponent_value(s) + 3
}

/// The magnitude that a decimal text writes, in thousandths: the number
/// that its counted digits write. Digits beyond the third decimal place
/// are dropped, and places that the text does not fill are zeros.
pub open spec fn decimal_magnitude(s: Seq<u8>) -> int {
    let digits = whole_digits(s) + fraction_digits(s);
    let counted = counted_digits(s);
    if counted <= 0 {
        0
    } else if counted <= digits.len() {
        digits_value(digits.take(counted))
    } else {
        digits_value(digits) * pow10((counted - digits.len()) as nat)
    }
}

/// The number that a decimal text writes, in thousandths.
pub open spec fn decimal_value(s: Seq<u8>) -> int {
    if is_negative(s) {
        -decimal_magnitude(s)
    } else {
        decimal_magnitude(s)
    }
}

/// The number that the text writes, in thousandths, where the text is a
/// decimal number of magnitude at most `limit`.
pub open spec fn parsed_decimal(s: Seq<u8>, limit: int) -> Option<int> {
    if is_decimal(s) && -limit <= decimal_value(s) <= limit {
        Some(decimal_value(s))
    } else {
        None
    }
}

/// What is read lies within the limit.
pub proof fn lemma_parsed_within(s: Seq<u8>, limit: int)
    ensures
        parsed_decimal(s, limit) matches Some(v) ==> -limit <= v <= limit,
{
}

/// The first point stands where no point stands before.
pub proof fn lemma_point_position(u: Seq<u8>)
    ensures
        0 <= point_position(u) <= u.len(),
        forall|j: int| 0 <= j < point_position(u) ==> (#[trigger] u[j]) != 46,
        point_position(u) < u.len() ==> u[point_position(u)] == 46,
    decreases u.len(),
{
    if u.len() == 0 || u[0] == 46 {
    } else {
        let rest = u.drop_first();
        lemma_point_position(rest);
        assert forall|j: int| 0 <= j < point_position(u) implies (#[trigger] u[j]) != 46 by {
            if j > 0 {
                assert(rest[j - 1] == u[j]);
            }
        }
        assert(point_position(rest) < rest.len() ==> rest[point_position(rest)] == u[point_position(
            u,
        )]);
    }
}

/// The first exponent mark stands where no mark stands before.
pub proof fn lemma_mark_position(u: Seq<u8>)
    ensures
        0 <= mark_position(u) <= u.len(),
        forall|j: int| 0 <= j < mark_position(u) ==> !is_mark(#[trigger] u[j]),
        mark_position(u) < u.len() ==> is_mark(u[mark_position(u)]),
    decreases u.len(),
{
    if u.len() == 0 || is_mark(u[0]) {
    } else {
        let rest = u.drop_first();
        lemma_mark_position(rest);
        assert forall|j: int| 0 <= j < mark_position(u) implies !is_mark(#[trigger] u[j]) by {
            if j > 0 {
                assert(rest[j - 1] == u[j]);
            }
        }
        assert(mark_position(rest) < rest.len() ==> rest[mark_position(rest)] == u[mark_position(
            u,
        )]);
    }
}

/// One more digit makes the value ten times as large and adds the digit.
pub proof fn lemma_digits_push(s: Seq<u8>, d: u8)
    ensures
        digits_value(s.push(d)) == 10 * digits_value(s) + (d - 48),
{
    assert(s.push(d).drop_last() =~= s);
}

/// A string of digits writes no negative number.
pub proof fn lemma_digits_nonnegative(s: Seq<u8>)
    requires
        all_digits(s),
    ensures
        0 <= digits_value(s),
    decreases s.len(),
{
    if s.len() > 0 {
        assert forall|i: int| 0 <= i < s.drop_last().len() implies is_digit(
            #[trigger] s.drop_last()[i],
        ) by {
            assert(s.drop_last()[i] == s[i]);
        }
        lemma_digits_nonnegative(s.drop_last());
        assert(is_digit(s[s.len() - 1]));
    }
}

/// A power of ten is greater than its exponent, and a greater exponent
/// gives no smaller power.
pub proof fn lemma_pow10_grows(j: nat, k: nat)
    requires
        j <= k,
    ensures
        pow10(k) > k,
        1 <= pow10(j) <= pow10(k),
    decreases k,
{
    if k > 0 {
        if j < k {
            lemma_pow10_grows(j, (k - 1) as nat);
        } else {
            lemma_pow10_grows((j - 1) as nat, (k - 1) as nat);
        }
    }
}

/// Whether the byte is an ASCII digit.
fn digit(b: u8) -> (r: bool)
    ensures
        r == is_digit(b),
{
    48 <= b && b <= 57
}

/// Where the digits that begin at `start` end: at the first byte that is
/// no digit, or at the end of the text.
fn scan_digits(text: &Vec<u8>, start: usize) -> (stop: usize)
    requires
        start <= text.len(),
    ensures
        start <= stop <= text.len(),
        all_digits(text@.subrange(start as int, stop as int)),
        stop < text.len() ==> !is_digit(text[stop as int]),
{
    let mut i: usize = start;
    while i < text.len() && digit(text[i])
        invariant
            start <= i <= text.len(),
            forall|j: int| start <= j < i ==> is_digit(#[trigger] text[j]),
        decreases text.len() - i,
    {
        i += 1;
    }
    assert forall|j: int| 0 <= j < i - start implies is_digit(
        #[trigger] text@.subrange(start as int, i as int)[j],
    ) by {
        assert(is_digit(text[start + j]));
    }
    i
}

/// Reads the digits of `text` from `a` to `b` after the digits read so
/// far. `before` is the value of those, or `None` once it exceeds
/// `limit`; the result is the same of all the digits together.
fn append_digits(
    text: &Vec<u8>,
    a: usize,
    b: usize,
    before: Option<i128>,
    limit: i128,
    Ghost(prefix): Ghost<Seq<u8>>,
) -> (r: Option<i128>)
    requires
        a <= b <= text.len(),
        0 <= limit <= EXPONENT_LIMIT,
        all_digits(prefix),
        all_digits(text@.subrange(a as int, b as int)),
        before matches Some(v) ==> v == digits_value(prefix) && 0 <= v <= limit,
        before is None ==> digits_value(prefix) > limit,
    ensures
        r matches Some(v) ==> v == digits_value(prefix + text@.subrange(a as int, b as int))
            && 0 <= v <= limit,
        r is None ==> digits_value(prefix + text@.subrange(a as int, b as int)) > limit,
{
    let mut i: usize = a;
    let mut value = before;
    assert(prefix + text@.subrange(a as int, a as int) =~= prefix);
    while i < b
        invariant
            a <= i <= b <= text.len(),
            0 <= limit <= EXPONENT_LIMIT,
            all_digits(prefix),
            all_digits(text@.subrange(a as int, b as int)),
            all_digits(prefix + text@.subrange(a as int, i as int)),
            value matches Some(v) ==> v == digits_value(
                prefix + text@.subrange(a as int, i as int),
            ) && 0 <= v <= limit,
            value is None ==> digits_value(prefix + text@.subrange(a as int, i as int)) > limit,
        decreases b - i,
    {
        let ghost read = prefix + text@.subrange(a as int, i as int);
        assert(is_digit(text@.subrange(a as int, b as int)[i - a]));
        let d: i128 = (text[i] - 48) as i128;
        proof {
            assert(prefix + text@.subrange(a as int, i + 1) =~= read.push(text[i as int]));
            lemma_digits_push(read, text[i as int]);
            lemma_digits_nonnegative(read);
            assert forall|j: int| 0 <= j < read.len() + 1 implies is_digit(
                #[trigger] read.push(text[i as int])[j],
            ) by {
                if j < read.len() {
                    assert(is_digit(read[j]));
                }
            }
        }
        value = match value {
            None => None,
            Some(v) => {
                let next: i128 = v * 10 + d;
                if next > limit {
                    None
                } else {
                    Some(next)
                }
            },
        };
        i += 1;
    }
    value
}

/// `value` times ten to the power `k`, or `None` where that exceeds
/// `limit`.
fn times_pow10(value: i128, k: i128, limit: i128) -> (r: Option<i128>)
    requires
        0 <= value <= limit <= EXPONENT_LIMIT,
        0 <= k,
    ensures
        r matches Some(v) ==> v == value * pow10(k as nat) && 0 <= v <= limit,
        r is None ==> value * pow10(k as nat) > limit,
{
    if value == 0 {
        assert(0 * pow10(k as nat) == 0) by (nonlinear_arith);
        return Some(0);
    }
    let mut v: i128 = value;
    let mut j: i128 = 0;
    assert(value * pow10(0) == value) by (nonlinear_arith)
        requires
            pow10(0) == 1,
    ;
    while j < k
        invariant
            0 <= j <= k,
            1 <= value,
            v == value * pow10(j as nat),
            1 <= v <= limit <= EXPONENT_LIMIT,
        decreases k - j,
    {
        let next: i128 = v * 10;
        assert(next == value * pow10((j + 1) as nat)) by (nonlinear_arith)
            requires
                next == v * 10,
                v == value * pow10(j as nat),
                pow10((j + 1) as nat) == 10 * pow10(j as nat),
        ;
        if next > limit {
            proof {
                lemma_pow10_grows((j + 1) as nat, k as nat);
                assert(value * pow10(k as nat) >= value * pow10((j + 1) as nat))
                    by (nonlinear_arith)
                    requires
                        value >= 1,
                        pow10((j + 1) as nat) <= pow10(k as nat),
                ;
            }
            return None;
        }
        v = next;
        j += 1;
    }
    Some(v)
}

/// Where the parts of a decimal text stand: the whole digits from `start`
/// to `whole_end`, the fraction digits from `fraction_start` to
/// `fraction_end`, and, where the text is `marked` with an exponent, the
/// digits of the exponent from `exponent_start` to the end.
struct Shape {
    start: usize,
    whole_end: usize,
    fraction_start: usize,
    fraction_end: usize,
    marked: bool,
    exponent_negative: bool,
    exponent_start: usize,
}

impl Shape {
    /// The shape is that of the mantissa of the text `s`.
    spec fn fits_mantissa(&self, s: Seq<u8>) -> bool {
        &&& self.start <= self.whole_end <= self.fraction_start <= self.fraction_end <= s.len()
        &&& whole_digits(s) == s.subrange(self.start as int, self.whole_end as int)
        &&& fraction_digits(s) == s.subrange(
            self.fraction_start as int,
            self.fraction_end as int,
        )
        &&& all_digits(whole_digits(s))
        &&& all_digits(fraction_digits(s))
        &&& has_exponent(s) == self.marked
        &&& self.marked ==> self.fraction_end < s.len() && exponent_text(s) == s.skip(
            self.fraction_end + 1,
        )
    }

    /// The shape is that of the decimal text `s`.
    spec fn fits(&self, s: Seq<u8>) -> bool {
        &&& self.fits_mantissa(s)
        &&& is_decimal(s)
        &&& is_negative(exponent_text(s)) == self.exponent_negative
        &&& self.marked ==> self.exponent_start <= s.len() && unsigned_part(exponent_text(s))
            == s.subrange(self.exponent_start as int, s.len() as int)
        &&& !self.marked ==> unsigned_part(exponent_text(s)) == Seq::<u8>::empty()
    }
}

/// Finds the whole digits and the fraction digits of a text whose sign,
/// if any, ends at `start`. There is none where a byte that is no digit
/// stands before the exponent mark, other than the one point.
fn read_mantissa(text: &Vec<u8>, start: usize) -> (r: Option<Shape>)
    requires
        start <= text.len(),
        unsigned_part(text@) == text@.skip(start as int),
    ensures
        r matches Some(shape) ==> shape.fits_mantissa(text@) && shape.start == start
            && !shape.exponent_negative,
        r is None ==> !is_decimal(text@),
{
    let n = text.len();
    let w_end = scan_digits(text, start);
    let pointed = w_end < n && text[w_end] == 46;
    let f_start: usize = if pointed { w_end + 1 } else { w_end };
    let f_end: usize = if pointed { scan_digits(text, f_start) } else { w_end };
    let ghost u = unsigned_part(text@);
    let ghost wl = w_end - start;
    let ghost me = f_end - start;
    let ghost m = mark_position(u);
    let ghost man = mantissa(text@);
    let ghost p = point_position(man);
    proof {
        lemma_mark_position(u);
        lemma_point_position(man);
        // up to `f_end` there are digits and at most the one point
        assert forall|j: int| 0 <= j < me implies !is_mark(#[trigger] u[j]) && (j != wl
            ==> is_digit(u[j])) by {
            if j < wl {
                assert(is_digit(text@.subrange(start as int, w_end as int)[j]));
            } else if j > wl {
                assert(is_digit(text@.subrange(f_start as int, f_end as int)[j - wl - 1]));
            }
        }
        if m < me {
            assert(is_mark(u[m]));
        }
        assert(m >= me);
    }
    if f_end < n && !(text[f_end] == 101 || text[f_end] == 69) {
        proof {
            // a byte that is no digit, no mark, and no first point
            let c = u[me];
            assert(c == text[f_end as int]);
            assert(m > me);
            assert(man[me] == c);
            if pointed {
                assert(man[wl] == 46);
                if p < wl {
                    assert(man[p] == u[p]);
                }
                assert(p == wl);
                assert(fraction_digits(text@)[me - wl - 1] == c);
            } else {
                if p <= me {
                    assert(man[p] == u[p]);
                }
                assert(p > me);
                assert(whole_digits(text@)[me] == c);
            }
        }
        return None;
    }
    let marked = f_end < n;
    proof {
        if marked {
            assert(is_mark(u[me]));
        }
        assert(m == me);
        assert(man =~= u.take(me));
        if pointed {
            assert(man[wl] == 46);
            if p < wl {
                assert(man[p] == u[p]);
            }
            assert(p == wl);
        } else {
            if p < me {
                assert(man[p] == u[p]);
                assert(is_digit(u[p]));
            }
            assert(p == me);
        }
        assert(whole_digits(text@) =~= text@.subrange(start as int, w_end as int));
        assert(fraction_digits(text@) =~= text@.subrange(f_start as int, f_end as int));
        assert(has_exponent(text@) == marked);
        if marked {
            assert(exponent_text(text@) =~= text@.skip(f_end + 1));
        }
    }
    Some(
        Shape {
            start,
            whole_end: w_end,
            fraction_start: f_start,
            fraction_end: f_end,
            marked,
            exponent_negative: false,
            exponent_start: n,
        },
    )
}

/// Finds the parts of a decimal text, or finds that the text is none.
fn read_shape(text: &Vec<u8>) -> (r: Option<Shape>)
    ensures
        r matches Some(shape) ==> shape.fits(text@) && (shape.start == 0 || shape.start == 1),
        r is None ==> !is_decimal(text@),
{
    let n = text.len();
    let start: usize = if n > 0 && (text[0] == 45 || text[0] == 43) { 1 } else { 0 };
    assert(unsigned_part(text@) =~= text@.skip(start as int));
    let mut shape = match read_mantissa(text, start) {
        Some(shape) => shape,
        None => {
            return None;
        },
    };
    if shape.whole_end - shape.start == 0 && shape.fraction_end - shape.fraction_start == 0 {
        return None;
    }
    assert(whole_digits(text@).len() == shape.whole_end - shape.start);
    assert(fraction_digits(text@).len() == shape.fraction_end - shape.fraction_start);
    if !shape.marked {
        assert(exponent_text(text@) =~= Seq::<u8>::empty());
        assert(unsigned_part(exponent_text(text@)) =~= Seq::<u8>::empty());
        assert(!is_negative(exponent_text(text@)));
        assert(is_decimal(text@));
        return Some(shape);
    }
    let x_start = shape.fraction_end + 1;
    let ghost x = exponent_text(text@);
    let negative = x_start < n && text[x_start] == 45;
    let d_start: usize = if x_start < n && (text[x_start] == 45 || text[x_start] == 43) {
        x_start + 1
    } else {
        x_start
    };
    assert(unsigned_part(x) =~= text@.skip(d_start as int));
    let d_end = scan_digits(text, d_start);
    if d_end < n {
        assert(unsigned_part(x)[d_end - d_start] == text[d_end as int]);
        return None;
    }
    if d_end == d_start {
        return None;
    }
    assert(text@.subrange(d_start as int, n as int) =~= text@.skip(d_start as int));
    shape.exponent_negative = negative;
    shape.exponent_start = d_start;
    Some(shape)
}

/// How many digits of a decimal text count for the thousandths: `Some` of
/// the number, or `None` where the exponent is beyond `EXPONENT_LIMIT`.
fn count_digits(text: &Vec<u8>, shape: &Shape) -> (count: Option<i128>)
    requires
        shape.fits(text@),
    ensures
        count matches Some(c) ==> c == counted_digits(text@),
        count is None && shape.exponent_negative ==> counted_digits(text@) <= 0,
        count is None && !shape.exponent_negative ==> counted_digits(text@) > (
        whole_digits(text@) + fraction_digits(text@)).len() + WORLD_LIMIT,
{
    let n = text.len();
    let whole_len = (shape.whole_end - shape.start) as i128;
    if !shape.marked {
        assert(digits_value(Seq::<u8>::empty()) == 0);
        return Some(whole_len + 3);
    }
    assert(Seq::<u8>::empty() + text@.subrange(shape.exponent_start as int, n as int)
        =~= text@.subrange(shape.exponent_start as int, n as int));
    let exponent = append_digits(
        text,
        shape.exponent_start,
        n,
        Some(0),
        EXPONENT_LIMIT,
        Ghost(Seq::<u8>::empty()),
    );
    match exponent {
        Some(x) => Some(
            if shape.exponent_negative {
                whole_len + 3 - x
            } else {
                whole_len + 3 + x
            },
        ),
        None => None,
    }
}

/// The number that the first `take` digits of a decimal text write, whole
/// and fraction digits together, or `None` where it exceeds `limit`.
fn read_counted(text: &Vec<u8>, shape: &Shape, take: usize, limit: i128) -> (r: Option<i128>)
    requires
        shape.fits_mantissa(text@),
        take <= (shape.whole_end - shape.start) + (shape.fraction_end - shape.fraction_start),
        0 <= limit <= EXPONENT_LIMIT,
    ensures
        digits_value((whole_digits(text@) + fraction_digits(text@)).take(take as int)) >= 0,
        r matches Some(v) ==> v == digits_value(
            (whole_digits(text@) + fraction_digits(text@)).take(take as int),
        ) && 0 <= v <= limit,
        r is None ==> digits_value(
            (whole_digits(text@) + fraction_digits(text@)).take(take as int),
        ) > limit,
{
    let whole_len = shape.whole_end - shape.start;
    let from_whole: usize = if take < whole_len { take } else { whole_len };
    let from_fraction: usize = take - from_whole;
    let ghost whole = whole_digits(text@);
    let ghost fraction = fraction_digits(text@);
    let ghost digits = whole + fraction;
    proof {
        assert(text@.subrange(shape.start as int, shape.start + from_whole) =~= whole.take(
            from_whole as int,
        ));
        assert(text@.subrange(shape.fraction_start as int, shape.fraction_start + from_fraction)
            =~= fraction.take(from_fraction as int));
        assert(Seq::<u8>::empty() + whole.take(from_whole as int) =~= whole.take(
            from_whole as int,
        ));
        assert(whole.take(from_whole as int) + fraction.take(from_fraction as int)
            =~= digits.take(take as int));
        assert forall|j: int| 0 <= j < from_whole implies is_digit(
            #[trigger] whole.take(from_whole as int)[j],
        ) by {
            assert(is_digit(whole[j]));
        }
        assert forall|j: int| 0 <= j < from_fraction implies is_digit(
            #[trigger] fraction.take(from_fraction as int)[j],
        ) by {
            assert(is_digit(fraction[j]));
        }
        assert forall|j: int| 0 <= j < take implies is_digit(
            #[trigger] digits.take(take as int)[j],
        ) by {
            if j < whole.len() {
                assert(is_digit(whole[j]));
            } else {
                assert(is_digit(fraction[j - whole.len()]));
            }
        }
        lemma_digits_nonnegative(digits.take(take as int));
    }
    let first = append_digits(
        text,
        shape.start,
        shape.start + from_whole,
        Some(0),
        limit,
        Ghost(Seq::<u8>::empty()),
    );
    append_digits(
        text,
        shape.fraction_start,
        shape.fraction_start + from_fraction,
        first,
        limit,
        Ghost(whole.take(from_whole as int)),
    )
}

/// The magnitude that a decimal text writes, in thousandths, or `None`
/// where it exceeds `limit`.
fn read_magnitude(text: &Vec<u8>, shape: &Shape, limit: i128) -> (r: Option<i128>)
    requires
        shape.fits(text@),
        0 <= limit <= WORLD_LIMIT,
    ensures
        r matches Some(v) ==> v == decimal_magnitude(text@) && 0 <= v <= limit,
        r is None ==> decimal_magnitude(text@) > limit,
{
    let count = count_digits(text, shape);
    let whole_len = shape.whole_end - shape.start;
    let fraction_len = shape.fraction_end - shape.fraction_start;
    let digits_len: i128 = whole_len as i128 + fraction_len as i128;
    let ghost digits = whole_digits(text@) + fraction_digits(text@);
    let ghost counted = counted_digits(text@);
    assert(digits.len() == digits_len);
    match count {
        Some(c) => {
            if c <= 0 {
                return Some(0);
            }
            if c <= digits_len {
                return read_counted(text, shape, c as usize, limit);
            }
        },
        None => {
            if shape.exponent_negative {
                return Some(0);
            }
        },
    }
    // more places count than the text has digits
    let ghost k = (counted - digits.len()) as nat;
    assert(digits.take(digits.len() as int) =~= digits);
    let value = match read_counted(text, shape, whole_len + fraction_len, limit) {
        Some(v) => v,
        None => {
            proof {
                lemma_pow10_grows(0, k);
                assert(digits_value(digits) * pow10(k) >= digits_value(digits))
                    by (nonlinear_arith)
                    requires
                        digits_value(digits) >= 0,
                        pow10(k) >= 1,
                ;
            }
            return None;
        },
    };
    assert(value == digits_value(digits));
    assert(counted > digits.len());
    assert(decimal_magnitude(text@) == digits_value(digits) * pow10(k));
    match count {
        Some(c) => {
            assert((c - digits_len) as nat == k);
            times_pow10(value, c - digits_len, limit)
        },
        None => {
            // the exponent moves the point further than any number within
            // the limit has places
            if value == 0 {
                assert(0 * pow10(k) == 0) by (nonlinear_arith);
                Some(0)
            } else {
                proof {
                    lemma_pow10_grows(0, k);
                    assert(value * pow10(k) >= pow10(k)) by (nonlinear_arith)
                        requires
                            value >= 1,
                            pow10(k) >= 1,
                    ;
                }
                None
            }
        },
    }
}

/// Reads a decimal number as thousandths: an optional sign, digits,
/// optionally a point and more digits, and optionally an exponent, as in
/// `-12.5`, `.25` or `1.2E-03`. The digits after the third decimal place
/// are dropped. Anything else, and any number of magnitude above `limit`,
/// gives `None`.
pub fn parse_decimal(text: &Vec<u8>, limit: i64) -> (r: Option<i64>)
    requires
        0 <= limit <= WORLD_LIMIT,
    ensures
        r matches Some(v) ==> parsed_decimal(text@, limit as int) == Some(v as int),
        r is None ==> parsed_decimal(text@, limit as int) is None,
{
    let shape = match read_shape(text) {
        Some(shape) => shape,
        None => {
            return None;
        },
    };
    let negative = text.len() > 0 && text[0] == 45;
    match read_magnitude(text, &shape, limit as i128) {
        Some(magnitude) => Some(
            if negative {
                -(magnitude as i64)
            } else {
                magnitude as i64
            },
        ),
        None => None,
    }
}

} // verus!
