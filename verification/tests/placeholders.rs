use prompt_assembler::placeholder::append_fragment;
use prompt_assembler::placeholder::render_sequence;
use prompt_assembler::placeholder::substitute_placeholders;
use prompt_assembler::PlaceholderError;

fn texts(values: &[&str]) -> Vec<String> {
    values.iter().map(|value| value.to_string()).collect()
}

#[test]
fn substitutes_a_single_argument() {
    let args = texts(&["World"]);
    assert_eq!(substitute_placeholders("Hello {0}!", &args), Ok("Hello World!".to_string()));
}

#[test]
fn rendering_a_fragment_ends_it_with_a_line_break() {
    let args = texts(&["World"]);
    let mut rendered = String::new();
    assert_eq!(append_fragment(&mut rendered, "Hello {0}!", &args), Ok(()));
    assert_eq!(rendered, "Hello World!\n");
}

#[test]
fn reports_the_missing_argument_with_its_index() {
    let args = texts(&["one"]);
    let outcome = substitute_placeholders("Value {0} and {1}", &args);
    assert_eq!(outcome, Err(PlaceholderError::MissingArgument { index: 1 }));
    assert_eq!(outcome.unwrap_err().message(), "missing argument for placeholder {1}");
}

#[test]
fn text_without_braces_is_left_alone() {
    let args = texts(&["unused"]);
    let text = "plain text, no braces: 100% [ok]\n";
    let once = substitute_placeholders(text, &args).unwrap();
    assert_eq!(once, text);
    let twice = substitute_placeholders(&once, &args).unwrap();
    assert_eq!(twice, once);
}

#[test]
fn doubled_braces_become_single_braces() {
    let args = texts(&["unused"]);
    assert_eq!(substitute_placeholders("{{", &args), Ok("{".to_string()));
    assert_eq!(substitute_placeholders("}}", &args), Ok("}".to_string()));
    assert_eq!(substitute_placeholders("{{0}}", &args), Ok("{0}".to_string()));
    assert_eq!(substitute_placeholders("a {{ b }} c", &args), Ok("a { b } c".to_string()));
}

#[test]
fn an_argument_is_not_expanded_again() {
    let args = texts(&["{1}", "second"]);
    assert_eq!(substitute_placeholders("{0} {1}", &args), Ok("{1} second".to_string()));
}

#[test]
fn leading_zeros_name_the_same_argument() {
    let args = texts(&["zero", "one"]);
    assert_eq!(substitute_placeholders("{001}", &args), Ok("one".to_string()));
}

#[test]
fn empty_braces_are_rejected() {
    let args = texts(&["a"]);
    let outcome = substitute_placeholders("{}", &args);
    assert_eq!(outcome, Err(PlaceholderError::EmptyBraces));
    assert_eq!(outcome.unwrap_err().message(), "empty placeholder braces are not allowed");
    assert_eq!(substitute_placeholders("{name}", &args), Err(PlaceholderError::EmptyBraces));
}

#[test]
fn an_opening_brace_at_the_end_is_rejected() {
    let args = texts(&["a"]);
    let outcome = substitute_placeholders("text {", &args);
    assert_eq!(outcome, Err(PlaceholderError::UnterminatedAtEnd));
    assert_eq!(outcome.unwrap_err().message(), "unterminated placeholder at end of template");
}

#[test]
fn digits_without_closing_brace_are_rejected() {
    let args = texts(&["a"]);
    let outcome = substitute_placeholders("{0 and more", &args);
    assert_eq!(outcome, Err(PlaceholderError::Unterminated { digits: "0".to_string() }));
    assert_eq!(outcome.unwrap_err().message(), "unterminated placeholder '{0'");
    assert_eq!(
        substitute_placeholders("{12", &args),
        Err(PlaceholderError::Unterminated { digits: "12".to_string() })
    );
}

#[test]
fn a_lone_closing_brace_is_rejected() {
    let args = texts(&["a"]);
    let outcome = substitute_placeholders("a } b", &args);
    assert_eq!(outcome, Err(PlaceholderError::UnmatchedClosingBrace));
    assert_eq!(outcome.unwrap_err().message(), "unmatched closing brace '}'");
    assert_eq!(substitute_placeholders("}", &args), Err(PlaceholderError::UnmatchedClosingBrace));
}

#[test]
fn an_index_above_nine_is_rejected() {
    let args: Vec<String> = (0..12).map(|n| n.to_string()).collect();
    let outcome = substitute_placeholders("Value {10}", &args);
    assert_eq!(outcome, Err(PlaceholderError::IndexAboveNine));
    assert_eq!(
        outcome.unwrap_err().message(),
        "positional placeholders support up to 9 arguments"
    );
    assert_eq!(substitute_placeholders("{9}", &args), Ok("9".to_string()));
}

#[test]
fn every_index_above_nine_gets_the_same_error() {
    let args: Vec<String> = (0..200).map(|n| n.to_string()).collect();
    for digits in ["10", "11", "99", "100", "0010", "18446744073709551616", "99999999999999999999999999999999999999"] {
        let outcome = substitute_placeholders(&format!("{{{digits}}}"), &args);
        assert_eq!(outcome, Err(PlaceholderError::IndexAboveNine));
        assert!(outcome.unwrap_err().message().contains("up to 9"));
    }
    let unclosed = "99999999999999999999999999999999999999";
    assert_eq!(
        substitute_placeholders(&format!("{{{unclosed}"), &args),
        Err(PlaceholderError::Unterminated { digits: unclosed.to_string() })
    );
    assert_eq!(substitute_placeholders("{0000000000000000000000009}", &args), Ok("9".to_string()));
}

#[test]
fn the_first_fault_from_the_left_is_reported() {
    let args = texts(&["a"]);
    assert_eq!(
        substitute_placeholders("{0} } {5}", &args),
        Err(PlaceholderError::UnmatchedClosingBrace)
    );
    assert_eq!(
        substitute_placeholders("{5} }", &args),
        Err(PlaceholderError::MissingArgument { index: 5 })
    );
}

#[test]
fn a_fault_leaves_the_rendered_text_untouched() {
    let args = texts(&["a"]);
    let mut rendered = "before\n".to_string();
    assert_eq!(
        append_fragment(&mut rendered, "{1}", &args),
        Err(PlaceholderError::MissingArgument { index: 1 })
    );
    assert_eq!(rendered, "before\n");
}

#[test]
fn every_fragment_ends_with_exactly_one_line_break() {
    let args = texts(&["x"]);
    let contents = texts(&["no break {0}", "one break\n", "two breaks\n\n", ""]);
    assert_eq!(
        render_sequence(&contents, &args),
        Ok("no break x\none break\ntwo breaks\n\n".to_string())
    );
}

#[test]
fn a_sequence_stops_at_its_first_faulty_fragment() {
    let args = texts(&["x"]);
    let contents = texts(&["fine {0}\n", "broken {1}\n", "never } reached\n"]);
    assert_eq!(
        render_sequence(&contents, &args),
        Err(PlaceholderError::MissingArgument { index: 1 })
    );
}

#[test]
fn a_sequence_without_fragments_is_empty() {
    let args = texts(&[]);
    let contents = texts(&[]);
    assert_eq!(render_sequence(&contents, &args), Ok(String::new()));
}

#[test]
fn characters_outside_ascii_pass_through() {
    let args = texts(&["wörld ✓"]);
    assert_eq!(
        substitute_placeholders("héllo {0} — ok", &args),
        Ok("héllo wörld ✓ — ok".to_string())
    );
}
