use convert_case::{Boundary, Case, Casing, Converter, Pattern};

#[test]
fn ccase_snake() {
    let conv = Converter::new().to_case(Case::Snake);
    assert_eq!("my_var_name", conv.convert("my_Var_Name"));
}

#[test]
fn ccase_constant() {
    let conv = Converter::new().to_case(Case::Constant);
    assert_eq!("MY_VAR_NAME", conv.convert("my_Var_Name"));
}

#[test]
fn ccase_kebab() {
    let conv = Converter::new().to_case(Case::Kebab);
    assert_eq!("my-var-name", conv.convert("my_Var_Name"));
}

#[test]
fn ccase_kebab_string() {
    let conv = Converter::new().to_case(Case::Kebab);
    assert_eq!("my-var-name", conv.convert(String::from("my_Var_Name").as_str()));
}

#[test]
fn ccase_from_kebab_to_camel() {
    let conv = Converter::new()
        .from_case(Case::Kebab)
        .to_case(Case::Camel);
    assert_eq!("myvarName_var", conv.convert("myVar-name_var"));
}

#[test]
fn ccase_from_snake_to_pascal() {
    let conv = Converter::new()
        .from_case(Case::Snake)
        .to_case(Case::Pascal);
    assert_eq!("My-varName-var", conv.convert("my-var_name-var"));
}

#[test]
fn converter_pattern_and_delim() {
    let conv = Converter::new().set_pattern(Pattern::Camel).set_delim("_");
    assert_eq!("my_Special_Case", conv.convert("My Special Case"));
}

#[test]
fn converter_delim_boundary() {
    let modules_to_path = Converter::new()
        .set_boundaries(&[Boundary::from_delim("::")])
        .set_delim("/");
    assert_eq!("std/os/path", modules_to_path.convert("std::os::path"));
}

#[test]
fn converter_add_remove_boundaries() {
    let conv = Converter::new()
        .remove_boundaries(&[Boundary::DigitUpper, Boundary::DigitLower])
        .to_case(Case::Snake);
    assert_eq!("scale_2d", conv.convert("scale2D"));

    let conv = Converter::new()
        .set_boundaries(&[Boundary::Underscore])
        .add_boundaries(&[Boundary::LowerUpper])
        .to_case(Case::Kebab);
    assert_eq!("my-dumb-file-name", conv.convert("my_dumbFileName"));
}

#[test]
fn custom_case() {
    let dot_case = Case::custom(
        vec![Boundary::from_delim(".")],
        Pattern::Lowercase,
        String::from("."),
    );
    assert_eq!("animal.factory.factory", "AnimalFactoryFactory".to_case(dot_case.clone()));
    assert_eq!(
        "dotCaseVar",
        "dot.case.var".from_case(dot_case).to_case(Case::Camel)
    );
}

#[test]
fn pattern_toggle_and_alternating() {
    let conv = Converter::new().set_pattern(Pattern::Toggle).set_delim(" ");
    assert_eq!("mY vARIABLE", conv.convert("my variable"));

    let conv = Converter::new()
        .set_pattern(Pattern::Alternating)
        .set_delim(" ");
    assert_eq!("mY vArIaBlE", conv.convert("my variable"));
}

#[test]
fn sentence_case() {
    assert_eq!("My variable name", "my_variable_name".to_case(Case::Sentence));
}

#[test]
fn boundary_from_delim_multichar() {
    assert_eq!(
        "Coolers Revenge",
        "coolers.revenge"
            .with_boundaries(&[Boundary::from_delim(".")])
            .to_case(Case::Title)
    );
}
