use calcli::parser::Parser;

#[test]
fn plain_evaluation() {
    let mut p = Parser::new();
    assert_eq!(p.parse("1+2"), Ok("= 3".to_string()));
}

#[test]
fn operator_continuation_adds_to_previous_answer() {
    let mut p = Parser::new();
    assert_eq!(p.parse("1+2"), Ok("= 3".to_string()));
    assert_eq!(p.parse("+4"), Ok("= 7".to_string()));
    assert_eq!(p.parse("*2"), Ok("= 14".to_string()));
}

#[test]
fn assignment_stores_and_substitutes() {
    let mut p = Parser::new();
    assert_eq!(p.parse("x=5+1"), Ok("x = 6".to_string()));
    assert_eq!(p.parse("x"), Ok("= 6".to_string()));
    assert_eq!(p.parse("x*2"), Ok("= 12".to_string()));
}

#[test]
fn assignment_updates_previous_answer() {
    let mut p = Parser::new();
    assert_eq!(p.parse("y=2*3"), Ok("y = 6".to_string()));
    assert_eq!(p.parse("+1"), Ok("= 7".to_string()));
}

#[test]
fn word_boundary_substitution() {
    let mut p = Parser::new();
    assert_eq!(p.parse("x=5"), Ok("x = 5".to_string()));
    // The standalone `x` is substituted; the `x` inside `max` is not.
    assert_eq!(p.parse("max(x;1)"), Ok("= 5".to_string()));
}

#[test]
fn locale_comma_is_decimal_point() {
    let mut p = Parser::new();
    assert_eq!(p.parse("1,5+1"), Ok("= 2.5".to_string()));
}

#[test]
fn locale_semicolon_separates_arguments() {
    let mut p = Parser::new();
    // A single rewrite pass: `;` becomes `,` and is not turned into `.`.
    assert_eq!(p.parse("max(1;2)"), Ok("= 2".to_string()));
}

#[test]
fn ans_reference_substitutes_previous_answer() {
    let mut p = Parser::new();
    assert_eq!(p.parse("2*3"), Ok("= 6".to_string()));
    assert_eq!(p.parse("ans+1"), Ok("= 7".to_string()));
}

#[test]
fn ans_in_assignment_expression() {
    let mut p = Parser::new();
    assert_eq!(p.parse("2*3"), Ok("= 6".to_string()));
    assert_eq!(p.parse("y=ans+1"), Ok("y = 7".to_string()));
    assert_eq!(p.parse("y"), Ok("= 7".to_string()));
}

#[test]
fn ans_without_previous_answer_fails() {
    let mut p = Parser::new();
    assert_eq!(
        p.parse("ans+1"),
        Err("No previous answer available for 'ans'".to_string())
    );
    // The failure reported the missing context; the evaluator never saw
    // the line, and the session still has no previous answer.
    assert_eq!(
        p.parse("ans"),
        Err("No previous answer available for 'ans'".to_string())
    );
}

#[test]
fn save_shortcut_without_previous_answer_fails() {
    let mut p = Parser::new();
    assert_eq!(
        p.parse("=varname"),
        Err("No previous answer available to save".to_string())
    );
}

#[test]
fn save_shortcut_stores_previous_answer() {
    let mut p = Parser::new();
    assert_eq!(p.parse("4.5"), Ok("= 4.5".to_string()));
    assert_eq!(
        p.parse("=varname"),
        Ok("Saved answer to variable 'varname'".to_string())
    );
    assert_eq!(p.parse("varname*2"), Ok("= 9".to_string()));
}

#[test]
fn save_shortcut_overwrites_in_place() {
    let mut p = Parser::new();
    assert_eq!(p.parse("5"), Ok("= 5".to_string()));
    assert_eq!(p.parse("=v"), Ok("Saved answer to variable 'v'".to_string()));
    assert_eq!(p.parse("7"), Ok("= 7".to_string()));
    assert_eq!(p.parse("=v"), Ok("Saved answer to variable 'v'".to_string()));
    assert_eq!(p.parse("v"), Ok("= 7".to_string()));
}

#[test]
fn invalid_variable_name_fails() {
    let mut p = Parser::new();
    assert_eq!(
        p.parse("a b=5"),
        Err("Invalid variable name: 'a b'".to_string())
    );
    // The failed assignment defined nothing.
    assert!(p.parse("b").is_err());
}

#[test]
fn whitespace_only_input_is_rejected() {
    let mut p = Parser::new();
    assert_eq!(
        p.parse(" "),
        Err("Cannot evaluate an empty expression".to_string())
    );
    assert_eq!(
        p.parse("\t \r\n"),
        Err("Cannot evaluate an empty expression".to_string())
    );
    // The session is untouched and keeps working.
    assert_eq!(p.parse("1+1"), Ok("= 2".to_string()));
    assert_eq!(
        p.parse("  "),
        Err("Cannot evaluate an empty expression".to_string())
    );
    assert_eq!(p.parse("+1"), Ok("= 3".to_string()));
}

#[test]
fn empty_input_reports_evaluator_error() {
    let mut p = Parser::new();
    assert!(p.parse("").is_err());
}

#[test]
fn assignment_with_blank_expression_fails() {
    let mut p = Parser::new();
    assert!(p.parse("x=").is_err());
    assert!(p.parse("x= ").is_err());
    // Nothing was defined by the failed assignments.
    assert!(p.parse("x").is_err());
}

#[test]
fn evaluator_error_is_propagated() {
    let mut p = Parser::new();
    assert!(p.parse("1+*2").is_err());
}

#[test]
fn failed_evaluation_keeps_state() {
    let mut p = Parser::new();
    assert_eq!(p.parse("2+2"), Ok("= 4".to_string()));
    assert!(p.parse("(((").is_err());
    // The previous answer is still the last successful result.
    assert_eq!(p.parse("+1"), Ok("= 5".to_string()));
}
