use vstd::prelude::*;
use vstd::relations::{sorted_by, total_ordering};
use vstd::seq_lib::{lemma_sorted_unique, to_multiset_build, to_multiset_insert};
use crate::batch::Rgba;
use crate::error::EngineError;

verus! {

/// Largest magnitude of a grade, in thousandths.
pub const GRADE_LIMIT: i64 = 1_000_000_000_000;

/// The lower and the upper quartile of one grade attribute, each held as
/// four times its value, so that the linear interpolation between two
/// neighbouring grades is exact.
#[derive(Clone, Copy, Debug, PartialEq, Eq, Structural)]
pub struct GradeColorScale {
    pub p25: i64,
    pub p75: i64,
}

/// Where a grade lies between the quartiles, as the fraction
/// `numerator / denominator`: zero at the lower quartile, one at the upper.
/// It is not clamped.
#[derive(Clone, Copy, Debug, PartialEq, Eq, Structural)]
pub struct Score {
    pub numerator: i64,
    pub denominator: i64,
}

impl Score {
    /// The fraction is exactly zero.
    pub open spec fn is_zero(self) -> bool {
        self.numerator == 0
    }

    /// The fraction is exactly one.
    pub open spec fn is_one(self) -> bool {
        self.numerator == self.denominator
    }
}

/// The order by which grades are sorted.
pub open spec fn ascending() -> spec_fn(i64, i64) -> bool {
    |a: i64, b: i64| a <= b
}

/// The grades in ascending order.
pub open spec fn sorted_grades(grades: Seq<i64>) -> Seq<i64> {
    grades.sort_by(ascending())
}

/// Every grade has magnitude at most `GRADE_LIMIT`.
pub open spec fn grades_bounded(grades: Seq<i64>) -> bool {
    forall|i: int| 0 <= i < grades.len() ==> -GRADE_LIMIT <= (#[trigger] grades[i]) <= GRADE_LIMIT
}

/// Four times the value at a position among grades in ascending order,
/// the position counted in quarters of a step from the first grade. On a
/// whole step it is that grade; between two neighbours it takes of each as
/// much as the position is near to it.
pub open spec fn interpolated_times_four(sorted: Seq<i64>, position: int) -> int {
    let below = position / 4;
    let part = position % 4;
    if part == 0 {
        4 * sorted[below]
    } else if part == 1 {
        3 * sorted[below] + sorted[below + 1]
    } else if part == 2 {
        2 * sorted[below] + 2 * sorted[below + 1]
    } else {
        sorted[below] + 3 * sorted[below + 1]
    }
}

/// Four times the quantile at `quarters / 4` of grades in ascending order,
/// by linear interpolation at the position `quarters / 4 * (len - 1)`.
pub open spec fn quantile_times_four(sorted: Seq<i64>, quarters: int) -> int {
    interpolated_times_four(sorted, quarters * (sorted.len() - 1))
}

/// The score of `grade` on the scale: `(grade - p25) / (p75 - p25)`.
pub open spec fn score_of(scale: GradeColorScale, grade: i64) -> Score {
    Score {
        numerator: (4 * grade - scale.p25) as i64,
        denominator: (scale.p75 - scale.p25) as i64,
    }
}

/// A colour channel for the fraction `part / whole` of full intensity.
pub open spec fn channel(part: int, whole: int) -> int {
    (255 * part) / whole
}

/// The colour of a score `t`. Below one half, red and green both rise
/// with `2 t` from nothing, and stay at nothing for a negative score.
/// From one half on green is full and red falls with `2 (1 - t)`, until at
/// one and beyond red is full again.
pub open spec fn color_of(score: Score) -> Rgba {
    let n = score.numerator as int;
    let d = score.denominator as int;
    if 2 * n < d {
        let v = if n > 0 {
            channel(2 * n, d)
        } else {
            0
        };
        Rgba { r: v as u8, g: v as u8, b: 0, a: 255 }
    } else {
        let v = if d - n > 0 {
            channel(2 * (d - n), d)
        } else {
            255
        };
        Rgba { r: v as u8, g: 255, b: 0, a: 255 }
    }
}

impl GradeColorScale {
    /// The quartiles differ and lie within four times the grade limit.
    pub open spec fn wf(&self) -> bool {
        &&& self.p25 < self.p75
        &&& -4 * GRADE_LIMIT <= self.p25
        &&& self.p75 <= 4 * GRADE_LIMIT
    }

    /// The scale of a set of grades: its quartiles by linear
    /// interpolation. No grade at all gives no scale, and neither do
    /// grades whose quartiles coincide, as with one constant grade.
    pub fn from_grades(grades: &Vec<i64>) -> (r: Result<GradeColorScale, EngineError>)
        requires
            grades_bounded(grades@),
        ensures
            grades.len() == 0 ==> r == Err::<GradeColorScale, EngineError>(
                EngineError::EmptyInput,
            ),
            grades.len() > 0 ==> ({
                let sorted = sorted_grades(grades@);
                let p25 = quantile_times_four(sorted, 1);
                let p75 = quantile_times_four(sorted, 3);
                &&& p25 <= p75
                &&& p25 == p75 ==> r == Err::<GradeColorScale, EngineError>(
                    EngineError::DegenerateScale,
                )
                &&& p25 < p75 ==> r == Ok::<GradeColorScale, EngineError>(
                    GradeColorScale { p25: p25 as i64, p75: p75 as i64 },
                )
                &&& r matches Ok(scale) ==> scale.wf()
            }),
    {
        if grades.len() == 0 {
            return Err(EngineError::EmptyInput);
        }
        let sorted = sort_grades(grades);
        proof {
            lemma_sorted_keeps_bounds(grades@);
        }
        let p25 = quantile(&sorted, 1);
        let p75 = quantile(&sorted, 3);
        proof {
            lemma_quantiles_ordered(sorted@);
        }
        if p25 == p75 {
            Err(EngineError::DegenerateScale)
        } else {
            Ok(GradeColorScale { p25, p75 })
        }
    }

    /// Where `grade` lies between the quartiles.
    pub fn score(&self, grade: i64) -> (r: Score)
        requires
            self.wf(),
            -GRADE_LIMIT <= grade <= GRADE_LIMIT,
        ensures
            r == score_of(*self, grade),
            r.numerator == 4 * grade - self.p25,
            r.denominator == self.p75 - self.p25,
            r.denominator > 0,
            4 * grade == self.p25 ==> r.is_zero(),
            4 * grade == self.p75 ==> r.is_one(),
    {
        Score { numerator: 4 * grade - self.p25, denominator: self.p75 - self.p25 }
    }
}

/// A grade at the lower quartile scores exactly zero, and one at the upper
/// quartile exactly one.
pub proof fn lemma_score_at_quartiles(scale: GradeColorScale, grade: i64)
    requires
        scale.wf(),
        -GRADE_LIMIT <= grade <= GRADE_LIMIT,
    ensures
        4 * grade == scale.p25 ==> score_of(scale, grade).is_zero(),
        4 * grade == scale.p75 ==> score_of(scale, grade).is_one(),
{
}

/// The order of grades is a total order.
pub proof fn lemma_ascending_is_total()
    ensures
        total_ordering(ascending()),
{
    let leq = ascending();
    assert forall|x: i64| #[trigger] leq(x, x) by {}
    assert forall|x: i64, y: i64| #[trigger] leq(x, y) && #[trigger] leq(y, x) implies x == y by {}
    assert forall|x: i64, y: i64, z: i64| #[trigger] leq(x, y) && #[trigger] leq(y, z) implies leq(
        x,
        z,
    ) by {}
    assert forall|x: i64, y: i64| #[trigger] leq(x, y) || #[trigger] leq(y, x) by {}
}

/// A sequence in ascending order with the same grades is the sorted one.
pub proof fn lemma_sorted_grades_is(grades: Seq<i64>, sorted: Seq<i64>)
    requires
        sorted_by(sorted, ascending()),
        sorted.to_multiset() == grades.to_multiset(),
    ensures
        sorted == sorted_grades(grades),
{
    lemma_ascending_is_total();
    grades.lemma_sort_by_ensures(ascending());
    lemma_sorted_unique(sorted, sorted_grades(grades), ascending());
}

/// Sorting neither adds nor loses a grade, so bounds carry over.
pub proof fn lemma_sorted_keeps_bounds(grades: Seq<i64>)
    requires
        grades_bounded(grades),
    ensures
        grades_bounded(sorted_grades(grades)),
        sorted_grades(grades).len() == grades.len(),
        sorted_by(sorted_grades(grades), ascending()),
{
    broadcast use vstd::seq_lib::group_to_multiset_ensures;

    let sorted = sorted_grades(grades);
    grades.lemma_sort_by_ensures(ascending());
    assert(sorted.len() == grades.len()) by {
        assert(sorted.to_multiset().len() == grades.to_multiset().len());
    }
    assert forall|i: int| 0 <= i < sorted.len() implies -GRADE_LIMIT <= (#[trigger] sorted[i])
        <= GRADE_LIMIT by {
        let x = sorted[i];
        assert(sorted.contains(x));
        assert(grades.contains(x));
        let j = choose|j: int| 0 <= j < grades.len() && grades[j] == x;
        assert(-GRADE_LIMIT <= grades[j] <= GRADE_LIMIT);
    }
}

/// Along grades in ascending order the interpolated value does not fall
/// as the position advances.
pub proof fn lemma_interpolation_monotonic(sorted: Seq<i64>, from: int, to: int)
    requires
        sorted_by(sorted, ascending()),
        0 <= from <= to <= 4 * (sorted.len() - 1),
    ensures
        interpolated_times_four(sorted, from) <= interpolated_times_four(sorted, to),
    decreases to - from,
{
    if from < to {
        lemma_interpolation_monotonic(sorted, from, to - 1);
        let leq = ascending();
        let below = (to - 1) / 4;
        assert(leq(sorted[below], sorted[below + 1]));
    }
}

/// The lower quartile does not exceed the upper.
pub proof fn lemma_quantiles_ordered(sorted: Seq<i64>)
    requires
        sorted.len() > 0,
        sorted_by(sorted, ascending()),
    ensures
        quantile_times_four(sorted, 1) <= quantile_times_four(sorted, 3),
{
    lemma_interpolation_monotonic(sorted, sorted.len() - 1, 3 * (sorted.len() - 1));
}

/// The grades in ascending order.
pub fn sort_grades(grades: &Vec<i64>) -> (sorted: Vec<i64>)
    ensures
        sorted@ == sorted_grades(grades@),
        sorted.len() == grades.len(),
{
    let mut sorted: Vec<i64> = Vec::new();
    let mut k: usize = 0;
    assert(grades@.take(0) =~= Seq::<i64>::empty());
    while k < grades.len()
        invariant
            k <= grades.len(),
            sorted.len() == k,
            sorted_by(sorted@, ascending()),
            sorted@.to_multiset() == grades@.take(k as int).to_multiset(),
        decreases grades.len() - k,
    {
        let g = grades[k];
        let mut at: usize = 0;
        while at < sorted.len() && sorted[at] <= g
            invariant
                at <= sorted.len(),
                forall|j: int| 0 <= j < at ==> (#[trigger] sorted[j]) <= g,
            decreases sorted.len() - at,
        {
            at += 1;
        }
        let ghost before = sorted@;
        sorted.insert(at, g);
        proof {
            to_multiset_insert(before, at as int, g);
            to_multiset_build(grades@.take(k as int), g);
            assert(grades@.take(k + 1) =~= grades@.take(k as int).push(g));
            let leq = ascending();
            assert forall|i: int, j: int| 0 <= i < j < sorted.len() implies #[trigger] leq(
                sorted[i],
                sorted[j],
            ) by {
                let bi = if i < at { i } else { i - 1 };
                let bj = if j < at { j } else { j - 1 };
                if i != at && j != at {
                    assert(leq(before[bi], before[bj]));
                } else if i == at {
                    assert(leq(before[at as int], before[bj]));
                }
            }
        }
        k += 1;
    }
    proof {
        assert(grades@.take(grades.len() as int) =~= grades@);
        lemma_sorted_grades_is(grades@, sorted@);
    }
    sorted
}

/// Four times the quantile at `quarters / 4` of grades in ascending order.
fn quantile(sorted: &Vec<i64>, quarters: u8) -> (r: i64)
    requires
        sorted.len() > 0,
        grades_bounded(sorted@),
        quarters == 1 || quarters == 3,
    ensures
        r == quantile_times_four(sorted@, quarters as int),
        -4 * GRADE_LIMIT <= r <= 4 * GRADE_LIMIT,
{
    let position: u128 = (quarters as u128) * ((sorted.len() - 1) as u128);
    let below: usize = (position / 4) as usize;
    let part: i64 = (position % 4) as i64;
    if part == 0 {
        4 * sorted[below]
    } else {
        let low = sorted[below];
        let high = sorted[below + 1];
        if part == 1 {
            3 * low + high
        } else if part == 2 {
            2 * low + 2 * high
        } else {
            low + 3 * high
        }
    }
}

/// The colour of a score.
pub fn material_color_scale(score: Score) -> (color: Rgba)
    requires
        score.denominator > 0,
    ensures
        color == color_of(score),
{
    let n: i128 = score.numerator as i128;
    let d: i128 = score.denominator as i128;
    if 2 * n < d {
        if n > 0 {
            let v = intensity((2 * n) as u128, d as u128);
            Rgba { r: v, g: v, b: 0, a: 255 }
        } else {
            Rgba { r: 0, g: 0, b: 0, a: 255 }
        }
    } else {
        if d - n > 0 {
            let v = intensity((2 * (d - n)) as u128, d as u128);
            Rgba { r: v, g: 255, b: 0, a: 255 }
        } else {
            Rgba { r: 255, g: 255, b: 0, a: 255 }
        }
    }
}

/// The channel value for `part / whole` of full intensity.
fn intensity(part: u128, whole: u128) -> (v: u8)
    requires
        0 < whole <= 0x8000_0000_0000_0000,
        part <= whole,
    ensures
        v == channel(part as int, whole as int),
{
    let q: u128 = (255 * part) / whole;
    assert(q <= 255) by (nonlinear_arith)
        requires
            q == (255 * part) / (whole as int),
            part <= whole,
            0 < whole,
    ;
    q as u8
}

} // verus!
