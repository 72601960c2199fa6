use gpu_waiter::template::{process_command_template, TemplateError, TemplateResult};

fn expand_ok(command: &str, template: &str) -> TemplateResult {
    match process_command_template(command, template) {
        Ok(r) => r,
        Err(TemplateError::InvalidTemplateSyntax(span)) => {
            panic!("unexpected syntax error on span {}", span)
        }
    }
}

fn expand_err(command: &str, template: &str) -> String {
    match process_command_template(command, template) {
        Ok(_) => panic!("expected a syntax error"),
        Err(TemplateError::InvalidTemplateSyntax(span)) => span,
    }
}

#[test]
fn no_markers_is_identity() {
    let r = expand_ok("run", "X");
    assert_eq!(r.command, "run");
    assert_eq!(r.template_count, 0);
    assert_eq!(r.total_count, 0);
}

#[test]
fn empty_token_is_identity() {
    let r = expand_ok("", "X");
    assert_eq!(r.command, "");
    assert_eq!(r.template_count, 0);
    assert_eq!(r.total_count, 0);
}

#[test]
fn single_substitution() {
    let r = expand_ok("{}", "X");
    assert_eq!(r.command, "X");
    assert_eq!(r.template_count, 1);
    assert_eq!(r.total_count, 1);
}

#[test]
fn double_escape_pair() {
    let r = expand_ok("{{}}", "X");
    assert_eq!(r.command, "{}");
    assert_eq!(r.template_count, 2);
    assert_eq!(r.total_count, 0);
}

#[test]
fn substitution_and_open_escape() {
    // `{}` is one substitution and `{{` one escape, each a complete chunk in
    // its own marker span, so the token expands instead of failing.
    let r = expand_ok("a{}b{{c", "X");
    assert_eq!(r.command, "aXb{c");
    assert_eq!(r.template_count, 2);
    assert_eq!(r.total_count, 1);
}

#[test]
fn trailing_open_after_substitution_is_error() {
    // `{}{` is a single three-character marker span: the chunking leaves a
    // lone `{`, which is a syntax error naming the whole span.
    let span = expand_err("{}{", "X");
    assert_eq!(span, "{}{");
}

#[test]
fn lone_braces_pass_through() {
    let r = expand_ok("{", "X");
    assert_eq!(r.command, "{");
    assert_eq!(r.template_count, 0);
    assert_eq!(r.total_count, 0);
    let r = expand_ok("}", "X");
    assert_eq!(r.command, "}");
    assert_eq!(r.total_count, 0);
    let r = expand_ok("a}b", "X");
    assert_eq!(r.command, "a}b");
    assert_eq!(r.template_count, 0);
}

#[test]
fn reversed_pair_passes_through() {
    let r = expand_ok("}{", "X");
    assert_eq!(r.command, "}{");
    assert_eq!(r.template_count, 0);
    assert_eq!(r.total_count, 0);
}

#[test]
fn odd_marker_span_is_error() {
    let span = expand_err("{{{", "X");
    assert_eq!(span, "{{{");
}

#[test]
fn mismatched_chunk_is_error() {
    let span = expand_err("a}{}{b", "X");
    assert_eq!(span, "}{}{");
}

#[test]
fn error_names_first_bad_span() {
    let span = expand_err("{}x{{{y{z", "X");
    assert_eq!(span, "{{{");
}

#[test]
fn empty_substitution() {
    let r = expand_ok("a{}b", "");
    assert_eq!(r.command, "ab");
    assert_eq!(r.template_count, 1);
    assert_eq!(r.total_count, 1);
}

#[test]
fn substitution_into_argument() {
    let r = expand_ok("--include=localhost:{}", "1,3");
    assert_eq!(r.command, "--include=localhost:1,3");
    assert_eq!(r.template_count, 1);
    assert_eq!(r.total_count, 1);
}

#[test]
fn escape_only_token_round_trips() {
    // A token of escape pairs only: never substitutes, and doubling every
    // output character restores the original token.
    let original = "{{}}{{{{}}}}";
    let r = expand_ok(original, "X");
    assert_eq!(r.command, "{}{{}}");
    assert_eq!(r.total_count, 0);
    assert_eq!(r.template_count, original.len() / 2);
    let redoubled: String = r.command.chars().flat_map(|c| [c, c]).collect();
    assert_eq!(redoubled, original);
}

#[test]
fn multiple_substitutions() {
    let r = expand_ok("{} and {}", "0,1");
    assert_eq!(r.command, "0,1 and 0,1");
    assert_eq!(r.template_count, 2);
    assert_eq!(r.total_count, 2);
}
