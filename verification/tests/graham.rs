use stonkscollect::graham::{score, Criterion};

fn c(name: &str, passed: bool) -> Criterion {
    Criterion { name: name.to_string(), passed, detail: String::new() }
}

#[test]
fn score_counts_passed_criteria_and_defensive_needs_all() {
    let mixed = vec![c("Adequate size", true), c("Current ratio >= 2", false), c("Dividend record", true)];
    assert_eq!(score(&mixed), (2, false));
    let all = vec![c("Adequate size", true), c("Dividend record", true)];
    assert_eq!(score(&all), (2, true));
    let none = vec![c("Adequate size", false)];
    assert_eq!(score(&none), (0, false));
}

#[test]
fn an_empty_assessment_scores_zero_and_passes_vacuously() {
    assert_eq!(score(&Vec::new()), (0, true));
}
