use convert_case::{Case, Casing};
use std::collections::HashSet;
use std::iter::FromIterator;

fn possible_cases(s: &str) -> Vec<Case> {
    Case::deterministic_cases()
        .into_iter()
        .filter(|case| s.from_case(case.clone()).to_case(case.clone()) == s)
        .collect()
}

#[test]
fn snake() {
    assert!("im_snake_case".is_case(Case::Snake));
    assert!(!"im_NOTsnake_case".is_case(Case::Snake));
}

#[test]
fn kebab() {
    assert!("im-kebab-case".is_case(Case::Kebab));
    assert!(!"im_not_kebab".is_case(Case::Kebab));
}

#[test]
fn lowercase_word() {
    for lower_case in [
        Case::Snake,
        Case::Kebab,
        Case::Flat,
        Case::Lower,
        Case::Camel,
    ] {
        assert!("lowercase".is_case(lower_case));
    }
}

#[test]
fn uppercase_word() {
    for upper_case in [Case::Constant, Case::Cobol, Case::UpperFlat, Case::Upper] {
        assert!("UPPERCASE".is_case(upper_case));
    }
}

#[test]
fn capital_word() {
    for capital_case in [
        Case::Ada,
        Case::Train,
        Case::Pascal,
        Case::Title,
        Case::Sentence,
    ] {
        assert!("Capitalcase".is_case(capital_case));
    }
}

#[test]
fn underscores_not_kebab() {
    assert!(!"kebab-case".is_case(Case::Snake));
}

#[test]
fn multiple_delimiters() {
    assert!(!"kebab-snake_case".is_case(Case::Snake));
    assert!(!"kebab-snake_case".is_case(Case::Kebab));
    assert!(!"kebab-snake_case".is_case(Case::Lower));
}

#[test]
fn digits_ignored() {
    assert!("UPPER_CASE_WITH_DIGIT1".is_case(Case::Constant));

    assert!("transformation_2d".is_case(Case::Snake));

    assert!("Transformation2d".is_case(Case::Pascal));
    assert!("Transformation2D".is_case(Case::Pascal));

    assert!("transformation2D".is_case(Case::Camel));

    assert!(!"5isntPascal".is_case(Case::Pascal))
}

#[test]
fn not_a_case() {
    for c in Case::all_cases() {
        assert!(!"hyphen-and_underscore".is_case(c.clone()));
        assert!(!"Sentence-with-hyphens".is_case(c.clone()));
        assert!(!"Sentence_with_underscores".is_case(c));
    }
}

#[test]
fn detect_single_word() {
    assert_eq!(
        "lowercase".detect_cases(),
        vec![
            Case::Snake,
            Case::Kebab,
            Case::Flat,
            Case::Camel,
            Case::Lower,
        ],
    );
    assert_eq!(
        "UPPERCASE".detect_cases(),
        vec![Case::Constant, Case::Cobol, Case::UpperFlat, Case::Upper],
    );
    assert_eq!(
        "Capitalcase".detect_cases(),
        vec![
            Case::Ada,
            Case::Train,
            Case::Pascal,
            Case::Title,
            Case::Sentence,
        ],
    )
}

#[test]
fn detect_many_cases() {
    let lower_cases_vec = possible_cases("asef");
    let lower_cases_set = HashSet::from_iter(lower_cases_vec.into_iter());
    let mut actual = HashSet::new();
    actual.insert(Case::Lower);
    actual.insert(Case::Camel);
    actual.insert(Case::Snake);
    actual.insert(Case::Kebab);
    actual.insert(Case::Flat);
    assert_eq!(lower_cases_set, actual);

    let lower_cases_vec = possible_cases("asefCase");
    let lower_cases_set = HashSet::from_iter(lower_cases_vec.into_iter());
    let mut actual = HashSet::new();
    actual.insert(Case::Camel);
    assert_eq!(lower_cases_set, actual);
}

#[test]
fn detect_each_case() {
    let s = "My String Identifier".to_string();
    for case in Case::deterministic_cases() {
        let new_s = s.from_case(case.clone()).to_case(case.clone());
        let possible = possible_cases(&new_s);
        assert!(possible.iter().any(|c| c == &case));
    }
}

#[test]
fn detect_plain_word() {
    assert_eq!(
        "asef".detect_cases(),
        vec![
            Case::Snake,
            Case::Kebab,
            Case::Flat,
            Case::Camel,
            Case::Lower,
        ],
    );
}
