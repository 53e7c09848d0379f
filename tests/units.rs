use indentdetect::gcd::maybe_gcd;
use indentdetect::reduce::{has_tabs, max_space, reduce, space_counts, IndentUnits};
use indentdetect::sample::Sample;
use indentdetect::validate::{detect_indent, infer_units, validate, Config, IndentError};

fn sample(tab_count: u32, space_count: u32) -> Sample {
    Sample { tab_count, space_count }
}

fn units(tab_unit: u32, space_unit: u32) -> IndentUnits {
    IndentUnits { tab_unit, space_unit }
}

#[test]
fn maybe_gcd_zero_is_identity() {
    assert_eq!(maybe_gcd(0, 7), 7);
    assert_eq!(maybe_gcd(9, 0), 9);
    assert_eq!(maybe_gcd(0, 0), 0);
}

#[test]
fn maybe_gcd_of_positives() {
    assert_eq!(maybe_gcd(12, 18), 6);
    assert_eq!(maybe_gcd(18, 12), 6);
    assert_eq!(maybe_gcd(4, 8), 4);
    assert_eq!(maybe_gcd(7, 5), 1);
    assert_eq!(maybe_gcd(u32::MAX, u32::MAX), u32::MAX);
}

#[test]
fn reduce_scenario_a() {
    let s = [sample(0, 4), sample(2, 0), sample(0, 8)];
    assert_eq!(reduce(&s), units(2, 4));
    assert!(has_tabs(&s));
    assert_eq!(max_space(&s), 8);
    assert_eq!(space_counts(&s), vec![4, 8]);
}

#[test]
fn reduce_scenario_b() {
    let s = [sample(1, 0), sample(2, 0)];
    assert_eq!(reduce(&s), units(1, 0));
    assert!(has_tabs(&s));
    assert_eq!(space_counts(&s), Vec::<u32>::new());
}

#[test]
fn reduce_scenario_c() {
    let s = [sample(0, 2), sample(0, 2), sample(0, 4)];
    assert_eq!(reduce(&s), units(0, 2));
    assert!(!has_tabs(&s));
}

#[test]
fn reduce_without_tabs_has_zero_tab_unit() {
    let s = [sample(0, 3), sample(0, 6), sample(0, 9)];
    assert!(!has_tabs(&s));
    assert_eq!(reduce(&s).tab_unit, 0);
}

#[test]
fn reduce_twice_and_shuffled() {
    let s = [sample(2, 6), sample(4, 0), sample(0, 9)];
    let shuffled = [sample(0, 9), sample(2, 6), sample(4, 0)];
    assert_eq!(reduce(&s), reduce(&s));
    assert_eq!(reduce(&s), reduce(&shuffled));
    assert_eq!(reduce(&s), units(2, 3));
    let doubled: Vec<Sample> = s.iter().chain(s.iter()).copied().collect();
    assert_eq!(reduce(&doubled), reduce(&s));
}

#[test]
fn reduce_empty() {
    assert_eq!(reduce(&[]), units(0, 0));
    assert_eq!(max_space(&[]), 0);
}

#[test]
fn empty_sample_set_is_indeterminate() {
    assert_eq!(infer_units(&[], Config::Inferred), Err(IndentError::Indeterminate));
    assert_eq!(infer_units(&[], Config::DefaultTabWidth(8)), Err(IndentError::Indeterminate));
    assert_eq!(infer_units(&[], Config::IndentUnit(4)), Err(IndentError::Indeterminate));
}

#[test]
fn explicit_unit_narrower_is_rejected() {
    assert_eq!(validate(units(0, 2), Config::IndentUnit(4)), Err(IndentError::NarrowerThanUnit));
}

#[test]
fn explicit_unit_non_multiple_is_rejected() {
    assert_eq!(validate(units(0, 6), Config::IndentUnit(4)), Err(IndentError::NotMultipleOfUnit));
    assert_eq!(validate(units(0, 8), Config::IndentUnit(4)), Ok(units(0, 8)));
    assert_eq!(validate(units(3, 0), Config::IndentUnit(4)), Ok(units(3, 0)));
}

#[test]
fn mixed_indent_against_tab_width() {
    assert_eq!(validate(units(1, 4), Config::Inferred), Err(IndentError::TooWideForTab));
    assert_eq!(validate(units(1, 4), Config::DefaultTabWidth(8)), Err(IndentError::TooWideForTab));
    assert_eq!(validate(units(1, 2), Config::DefaultTabWidth(8)), Ok(units(1, 2)));
    assert_eq!(validate(units(1, 4), Config::IndentUnit(4)), Err(IndentError::TooWideForTab));
}

#[test]
fn pure_styles_are_accepted() {
    assert_eq!(validate(units(0, 2), Config::Inferred), Ok(units(0, 2)));
    assert_eq!(validate(units(1, 0), Config::Inferred), Ok(units(1, 0)));
    assert_eq!(validate(units(0, 0), Config::Inferred), Err(IndentError::Indeterminate));
}

#[test]
fn infer_units_on_scenarios() {
    let a = [sample(0, 4), sample(2, 0), sample(0, 8)];
    assert_eq!(infer_units(&a, Config::DefaultTabWidth(8)), Err(IndentError::TooWideForTab));
    assert_eq!(infer_units(&a, Config::DefaultTabWidth(9)), Ok(units(2, 4)));
    let c = [sample(0, 2), sample(0, 2), sample(0, 4)];
    assert_eq!(infer_units(&c, Config::IndentUnit(4)), Err(IndentError::NarrowerThanUnit));
    assert_eq!(infer_units(&c, Config::IndentUnit(2)), Ok(units(0, 2)));
}

#[test]
fn detect_tabs_only_uses_default() {
    assert_eq!(detect_indent(true, &[], 8), Ok((8, 0)));
}

#[test]
fn detect_spaces_only() {
    assert_eq!(detect_indent(false, &[2, 2, 4], 8), Ok((0, 2)));
    assert_eq!(detect_indent(false, &[4, 8], 3), Ok((0, 4)));
}

#[test]
fn detect_mixed() {
    assert_eq!(detect_indent(true, &[2, 4], 8), Ok((6, 2)));
    assert_eq!(detect_indent(true, &[4, 8], 8), Err(IndentError::TooWideForTab));
}

#[test]
fn detect_mixed_saturates() {
    assert_eq!(detect_indent(true, &[u32::MAX - 1, 1], u32::MAX), Ok((u32::MAX, 1)));
}

#[test]
fn detect_without_evidence() {
    assert_eq!(detect_indent(false, &[], 8), Err(IndentError::Indeterminate));
}

#[test]
fn error_messages() {
    assert_eq!(IndentError::Indeterminate.message(), "indeterminate indentation");
    assert!(!IndentError::Indeterminate.is_inconsistent());
    assert!(IndentError::TooWideForTab.is_inconsistent());
    assert_eq!(
        IndentError::NarrowerThanUnit.message(),
        "space indent narrower than configured unit"
    );
}
