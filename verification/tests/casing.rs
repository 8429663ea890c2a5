use convert_case::{Boundary, Case, Casing};

#[test]
fn lossless_against_lossless() {
    let examples = vec![
        (Case::Snake, "my_variable_22_name"),
        (Case::Constant, "MY_VARIABLE_22_NAME"),
        (Case::Ada, "My_Variable_22_Name"),
        (Case::Kebab, "my-variable-22-name"),
        (Case::Cobol, "MY-VARIABLE-22-NAME"),
        (Case::Train, "My-Variable-22-Name"),
        (Case::Pascal, "MyVariable22Name"),
        (Case::Camel, "myVariable22Name"),
        (Case::Lower, "my variable 22 name"),
        (Case::Upper, "MY VARIABLE 22 NAME"),
        (Case::Title, "My Variable 22 Name"),
        (Case::Sentence, "My variable 22 name"),
        (Case::Toggle, "mY vARIABLE 22 nAME"),
        (Case::Alternating, "mY vArIaBlE 22 nAmE"),
    ];

    for (case_a, str_a) in &examples {
        for (case_b, str_b) in &examples {
            assert_eq!(
                *str_a,
                str_b.from_case(case_b.clone()).to_case(case_a.clone())
            )
        }
    }
}

#[test]
fn obvious_default_parsing() {
    let examples = vec![
        "SuperMario64Game",
        "super-mario64-game",
        "superMario64 game",
        "Super Mario 64_game",
        "SUPERMario 64-game",
        "super_mario-64 game",
    ];

    for example in examples {
        assert_eq!("super_mario_64_game", example.to_case(Case::Snake));
    }
}

#[test]
fn multiline_strings() {
    assert_eq!("One\ntwo\nthree", "one\ntwo\nthree".to_case(Case::Title));
}

#[test]
fn camel_case_acroynms() {
    assert_eq!(
        "xml_http_request",
        "XMLHttpRequest".from_case(Case::Camel).to_case(Case::Snake)
    );
    assert_eq!(
        "xml_http_request",
        "XMLHttpRequest"
            .from_case(Case::UpperCamel)
            .to_case(Case::Snake)
    );
    assert_eq!(
        "xml_http_request",
        "XMLHttpRequest"
            .from_case(Case::Pascal)
            .to_case(Case::Snake)
    );
}

#[test]
fn leading_tailing_delimeters() {
    assert_eq!(
        "leading_underscore",
        "_leading_underscore"
            .from_case(Case::Snake)
            .to_case(Case::Snake)
    );
    assert_eq!(
        "tailing_underscore",
        "tailing_underscore_"
            .from_case(Case::Snake)
            .to_case(Case::Snake)
    );
    assert_eq!(
        "leading_hyphen",
        "-leading-hyphen"
            .from_case(Case::Kebab)
            .to_case(Case::Snake)
    );
    assert_eq!(
        "tailing_hyphen",
        "tailing-hyphen-"
            .from_case(Case::Kebab)
            .to_case(Case::Snake)
    );
    assert_eq!(
        "tailing_hyphens",
        "tailing-hyphens-----"
            .from_case(Case::Kebab)
            .to_case(Case::Snake)
    );
}

#[test]
fn double_delimeters() {
    assert_eq!(
        "many_underscores",
        "many___underscores"
            .from_case(Case::Snake)
            .to_case(Case::Snake)
    );
    assert_eq!(
        "many-underscores",
        "many---underscores"
            .from_case(Case::Kebab)
            .to_case(Case::Kebab)
    );
}

#[test]
fn early_word_boundaries() {
    assert_eq!(
        "a_bagel",
        "aBagel".from_case(Case::Camel).to_case(Case::Snake)
    );
}

#[test]
fn late_word_boundaries() {
    assert_eq!(
        "team_a",
        "teamA".from_case(Case::Camel).to_case(Case::Snake)
    );
}

#[test]
fn empty_string() {
    let cases_a = Case::all_cases();
    let cases_b = Case::all_cases();
    for (case_a, case_b) in cases_a.iter().zip(cases_b.iter()) {
        assert_eq!("", "".from_case(case_a.clone()).to_case(case_b.clone()));
    }
}

#[test]
fn default_all_boundaries() {
    assert_eq!(
        "abc_abc_abc_abc_abc_abc",
        "ABC-abc_abcAbc ABCAbc".to_case(Case::Snake)
    );
    assert_eq!("8_a_8_a_8", "8a8A8".to_case(Case::Snake));
}

#[test]
fn alternating_ignore_symbols() {
    assert_eq!("tHaT's", "that's".to_case(Case::Alternating));
}

#[test]
fn remove_boundaries() {
    assert_eq!(
        "m02_s05_binary_trees.pdf",
        "M02S05BinaryTrees.pdf"
            .from_case(Case::Pascal)
            .without_boundaries(&[Boundary::UpperDigit])
            .to_case(Case::Snake)
    );
}

#[test]
fn with_boundaries() {
    assert_eq!(
        "my-dumb-file-name",
        "my_dumbFileName"
            .with_boundaries(&[Boundary::Underscore, Boundary::LowerUpper])
            .to_case(Case::Kebab)
    );
}

#[test]
fn multiple_from_case() {
    assert_eq!(
        "longtime_nosee",
        "LongTime NoSee"
            .from_case(Case::Camel)
            .from_case(Case::Title)
            .to_case(Case::Snake),
    )
}

// From a report on accented characters staying intact.
#[test]
fn accent_mark() {
    let s = "música moderna".to_string();
    assert_eq!("MúsicaModerna", s.to_case(Case::Pascal));
}

// From a report on non-Latin scripts: conversion must not panic.
#[test]
fn russian() {
    let s = "ПЕРСПЕКТИВА24".to_string();
    let _n = s.to_case(Case::Title);
}

#[test]
fn digit_transitions() {
    assert_eq!("vector_4_d", "vector4d".to_case(Case::Snake));
    assert_eq!(
        "scale_2d",
        "scale2D"
            .from_case(Case::Camel)
            .without_boundaries(&[Boundary::DigitUpper, Boundary::DigitLower])
            .to_case(Case::Snake)
    );
    assert_eq!(
        "scale_2d",
        "scale2D"
            .with_boundaries(&[Boundary::LowerDigit])
            .to_case(Case::Snake)
    );
    assert_eq!(
        "2d_transformation",
        "2dTransformation"
            .without_boundaries(&Boundary::digits())
            .to_case(Case::Snake)
    );
}

#[test]
fn reconversion_is_fixed_point() {
    let cases = Case::deterministic_cases();
    for case in cases.iter() {
        let once = "Mixed_CASE input-string"
            .from_case(case.clone())
            .to_case(case.clone());
        let twice = once.from_case(case.clone()).to_case(case.clone());
        assert_eq!(once, twice);
    }
}

#[test]
fn split_words_public() {
    let words = convert_case::split("my_var-name", &[Boundary::Underscore, Boundary::Hyphen]);
    assert_eq!(words, vec!["my".to_string(), "var".to_string(), "name".to_string()]);
}
