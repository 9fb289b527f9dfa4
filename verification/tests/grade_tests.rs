use geomesh::batch::Rgba;
use geomesh::error::EngineError;
use geomesh::grade::{material_color_scale, sort_grades, GradeColorScale, Score};

fn score(numerator: i64, denominator: i64) -> Score {
    Score { numerator, denominator }
}

fn rgb(r: u8, g: u8, b: u8) -> Rgba {
    Rgba { r, g, b, a: 255 }
}

#[test]
fn sort_grades_sorts_ascending() {
    assert_eq!(sort_grades(&vec![3, 1, 2]), vec![1, 2, 3]);
    assert_eq!(sort_grades(&vec![5, -5, 5, 0, -5]), vec![-5, -5, 0, 5, 5]);
    assert_eq!(sort_grades(&vec![]), Vec::<i64>::new());
    assert_eq!(sort_grades(&vec![7]), vec![7]);
}

#[test]
fn scale_of_five_grades_falls_on_grades() {
    // positions 1 and 3 of 0..4
    let scale = GradeColorScale::from_grades(&vec![5000, 1000, 4000, 2000, 3000]).unwrap();
    assert_eq!(scale, GradeColorScale { p25: 4 * 2000, p75: 4 * 4000 });
}

#[test]
fn scale_of_four_grades_interpolates() {
    // positions 0.75 and 2.25: 1.75 and 3.25
    let scale = GradeColorScale::from_grades(&vec![1000, 2000, 3000, 4000]).unwrap();
    assert_eq!(scale, GradeColorScale { p25: 7000, p75: 13000 });
}

#[test]
fn scale_of_two_grades_interpolates() {
    // positions 0.25 and 0.75 between 0 and 1000
    let scale = GradeColorScale::from_grades(&vec![1000, 0]).unwrap();
    assert_eq!(scale, GradeColorScale { p25: 1000, p75: 3000 });
}

#[test]
fn scale_of_three_grades() {
    // positions 0.5 and 1.5
    let scale = GradeColorScale::from_grades(&vec![10, 20, 40]).unwrap();
    assert_eq!(scale, GradeColorScale { p25: 60, p75: 120 });
}

#[test]
fn scale_keeps_quarter_units_exact() {
    let scale = GradeColorScale::from_grades(&vec![0, 1]).unwrap();
    assert_eq!(scale, GradeColorScale { p25: 1, p75: 3 });
}

#[test]
fn scale_of_nothing_is_empty_input() {
    assert_eq!(GradeColorScale::from_grades(&vec![]), Err(EngineError::EmptyInput));
}

#[test]
fn scale_of_constant_grades_is_degenerate() {
    assert_eq!(
        GradeColorScale::from_grades(&vec![1200, 1200, 1200]),
        Err(EngineError::DegenerateScale)
    );
    assert_eq!(GradeColorScale::from_grades(&vec![500]), Err(EngineError::DegenerateScale));
}

#[test]
fn scale_with_equal_quartiles_is_degenerate() {
    // nine grades of which the middle seven agree
    let grades = vec![0, 5, 5, 5, 5, 5, 5, 5, 9];
    assert_eq!(GradeColorScale::from_grades(&grades), Err(EngineError::DegenerateScale));
}

#[test]
fn score_is_zero_at_lower_and_one_at_upper_quartile() {
    let scale = GradeColorScale { p25: 8000, p75: 16000 };
    assert_eq!(scale.score(2000), score(0, 8000));
    assert_eq!(scale.score(4000), score(8000, 8000));
}

#[test]
fn score_is_not_clamped() {
    let scale = GradeColorScale { p25: 8000, p75: 16000 };
    assert_eq!(scale.score(0), score(-8000, 8000));
    assert_eq!(scale.score(10_000), score(32_000, 8000));
    assert_eq!(scale.score(3000), score(4000, 8000));
}

#[test]
fn color_below_half_rises_in_red_and_green() {
    assert_eq!(material_color_scale(score(0, 8)), rgb(0, 0, 0));
    assert_eq!(material_color_scale(score(1, 8)), rgb(63, 63, 0));
    assert_eq!(material_color_scale(score(2, 8)), rgb(127, 127, 0));
    assert_eq!(material_color_scale(score(3, 8)), rgb(191, 191, 0));
}

#[test]
fn color_from_half_on_has_full_green() {
    assert_eq!(material_color_scale(score(4, 8)), rgb(255, 255, 0));
    assert_eq!(material_color_scale(score(5, 8)), rgb(191, 255, 0));
    assert_eq!(material_color_scale(score(6, 8)), rgb(127, 255, 0));
    assert_eq!(material_color_scale(score(7, 8)), rgb(63, 255, 0));
}

#[test]
fn color_at_one_and_beyond_has_full_red_again() {
    assert_eq!(material_color_scale(score(8, 8)), rgb(255, 255, 0));
    assert_eq!(material_color_scale(score(9, 8)), rgb(255, 255, 0));
    assert_eq!(material_color_scale(score(800, 8)), rgb(255, 255, 0));
}

#[test]
fn color_of_negative_score_is_black() {
    assert_eq!(material_color_scale(score(-1, 8)), rgb(0, 0, 0));
    assert_eq!(material_color_scale(score(-8000, 8)), rgb(0, 0, 0));
}

#[test]
fn color_handles_widest_scores() {
    assert_eq!(material_color_scale(score(i64::MAX, 1)), rgb(255, 255, 0));
    assert_eq!(material_color_scale(score(i64::MIN, i64::MAX)), rgb(0, 0, 0));
    assert_eq!(material_color_scale(score(i64::MAX, i64::MAX)), rgb(255, 255, 0));
}
