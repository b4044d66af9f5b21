use olav::{expand, Delimiter, ErrorKind, ParseError, TokenTree};

fn id(name: &str) -> TokenTree {
    TokenTree::Ident { name: name.to_string(), span: 0 }
}

fn p(ch: char) -> TokenTree {
    TokenTree::Punct { ch, joint: false, span: 0 }
}

fn lit(text: &str) -> TokenTree {
    TokenTree::Literal { text: text.to_string(), span: 0 }
}

fn group(delimiter: Delimiter, stream: Vec<TokenTree>, stream_text: &str) -> TokenTree {
    let (open, close) = match delimiter {
        Delimiter::Parenthesis => ("(", ")"),
        Delimiter::Brace => ("{ ", " }"),
        Delimiter::Bracket => ("[", "]"),
        Delimiter::Invisible => ("", ""),
    };
    TokenTree::Group {
        delimiter,
        stream,
        text: format!("{}{}{}", open, stream_text, close),
        stream_text: stream_text.to_string(),
        span: 0,
    }
}

fn brace(stream: Vec<TokenTree>) -> TokenTree {
    group(Delimiter::Brace, stream, "")
}

fn paren(stream: Vec<TokenTree>) -> TokenTree {
    group(Delimiter::Parenthesis, stream, "")
}

fn bracket(stream: Vec<TokenTree>, printed: &str) -> TokenTree {
    group(Delimiter::Bracket, stream, printed)
}

fn pj(ch: char) -> TokenTree {
    TokenTree::Punct { ch, joint: true, span: 0 }
}

fn at_span(ch: char, span: usize) -> TokenTree {
    TokenTree::Punct { ch, joint: false, span }
}

fn fail(tokens: Vec<TokenTree>) -> ParseError {
    expand(tokens).unwrap_err()
}

fn kind(tokens: Vec<TokenTree>) -> ErrorKind {
    fail(tokens).kind
}

#[test]
fn invalid_name_start_is_reported_with_the_name() {
    // xml! { [1abc] { } }
    let e = fail(vec![bracket(vec![], "1abc"), brace(vec![])]);
    assert_eq!(e.kind, ErrorKind::InvalidNameStart);
    assert_eq!(e.name, "1abc");
}

#[test]
fn invalid_name_char_is_reported_with_the_char() {
    // xml! { [a$b] { } }
    let e = fail(vec![bracket(vec![], "a$b"), brace(vec![])]);
    assert_eq!(e.kind, ErrorKind::InvalidNameChar('$'));
    assert_eq!(e.name, "a$b");
}

#[test]
fn duplicate_attribute_is_rejected() {
    // xml! { book(id="1", id="2") { } }
    let attrs = vec![id("id"), p('='), lit("\"1\""), p(','), id("id"), p('='), lit("\"2\"")];
    let e = fail(vec![id("book"), paren(attrs), brace(vec![])]);
    assert_eq!(e.kind, ErrorKind::DuplicateAttr);
    assert_eq!(e.name, "id");
}

#[test]
fn duplicate_pi_attribute_is_rejected() {
    // xml! { ?pi a="1" a="2" }
    let e = fail(vec![p('?'), id("pi"), id("a"), p('='), lit("\"1\""), id("a"), p('='), lit("\"2\"")]);
    assert_eq!(e.kind, ErrorKind::DuplicateAttr);
    assert_eq!(e.name, "a");
}

#[test]
fn unexpected_punct() {
    assert_eq!(kind(vec![p('#')]), ErrorKind::UnexpectedPunct('#'));
}

#[test]
fn unexpected_token() {
    assert_eq!(kind(vec![paren(vec![])]), ErrorKind::UnexpectedToken);
}

#[test]
fn empty_element_name() {
    assert_eq!(kind(vec![bracket(vec![], ""), brace(vec![])]), ErrorKind::EmptyElementName);
}

#[test]
fn token_left_in_attribute_list() {
    // xml! { book(id="1" x) { } }
    let attrs = vec![id("id"), p('='), lit("\"1\""), id("x")];
    assert_eq!(kind(vec![id("book"), paren(attrs), brace(vec![])]), ErrorKind::TokenInAttrList);
}

#[test]
fn empty_attribute_name() {
    let attrs = vec![bracket(vec![], ""), p('='), lit("\"1\"")];
    assert_eq!(kind(vec![id("book"), paren(attrs), brace(vec![])]), ErrorKind::EmptyAttrName);
}

#[test]
fn attribute_without_name() {
    let attrs = vec![lit("\"1\"")];
    assert_eq!(kind(vec![id("book"), paren(attrs), brace(vec![])]), ErrorKind::ExpectedAttrName);
}

#[test]
fn attribute_without_value() {
    // xml! { book(id) { } }
    assert_eq!(kind(vec![id("book"), paren(vec![id("id")]), brace(vec![])]), ErrorKind::ExpectedAttrValue);
}

#[test]
fn attribute_with_equals_and_nothing_after() {
    let attrs = vec![id("id"), p('=')];
    assert_eq!(kind(vec![id("book"), paren(attrs), brace(vec![])]), ErrorKind::ExpectedValueAfterEq);
}

#[test]
fn attribute_with_char_literal_value() {
    let attrs = vec![id("id"), p('='), lit("'c'")];
    assert_eq!(kind(vec![id("book"), paren(attrs), brace(vec![])]), ErrorKind::ExpectedStringLiteral);
}

#[test]
fn attribute_without_equals() {
    // xml! { book(id: "1") { } }
    let attrs = vec![id("id"), p(':'), lit("\"1\"")];
    assert_eq!(kind(vec![id("book"), paren(attrs), brace(vec![])]), ErrorKind::ExpectedEqOrQuestion);
}

#[test]
fn cdata_terminator_in_text() {
    // xml! { @cdata { "a]]>b" } }
    let t = vec![p('@'), id("cdata"), brace(vec![lit("\"a]]>b\"")])];
    assert_eq!(kind(t), ErrorKind::CdataTerminatorInText);
}

#[test]
fn pi_terminator_in_text() {
    // xml! { ?pi { "a?>b" } }
    let t = vec![p('?'), id("pi"), brace(vec![lit("\"a?>b\"")])];
    assert_eq!(kind(t), ErrorKind::PiTerminatorInText);
}

#[test]
fn pi_terminator_in_attr() {
    // xml! { ?pi a="x?>" }
    let t = vec![p('?'), id("pi"), id("a"), p('='), lit("\"x?>\"")];
    assert_eq!(kind(t), ErrorKind::PiTerminatorInAttr);
}

#[test]
fn number_as_text() {
    assert_eq!(kind(vec![lit("42")]), ErrorKind::NotTextLiteral);
}

#[test]
fn at_at_the_end() {
    let e = fail(vec![at_span('@', 7)]);
    assert_eq!(e.kind, ErrorKind::ExpectedExprAfterAt);
    assert_eq!(e.span, Some(7));
}

#[test]
fn if_without_block() {
    // xml! { @if cond }
    assert_eq!(kind(vec![p('@'), id("if"), id("cond")]), ErrorKind::ExpectedBrace);
}

#[test]
fn for_without_in() {
    // xml! { @for x { } }
    assert_eq!(kind(vec![p('@'), id("for"), id("x"), brace(vec![])]), ErrorKind::ExpectedIn);
}

#[test]
fn for_without_block() {
    // xml! { @for x in xs }
    assert_eq!(kind(vec![p('@'), id("for"), id("x"), id("in"), id("xs")]), ErrorKind::ExpectedBrace);
}

#[test]
fn match_arm_without_arrow() {
    // xml! { @match x { a } }
    let t = vec![p('@'), id("match"), id("x"), brace(vec![id("a")])];
    assert_eq!(kind(t), ErrorKind::ExpectedMoreTokens);
}

#[test]
fn match_arm_with_lone_equals() {
    // xml! { @match x { a = b } }
    let t = vec![p('@'), id("match"), id("x"), brace(vec![id("a"), p('='), id("b")])];
    assert_eq!(kind(t), ErrorKind::ExpectedFatArrow);
}

#[test]
fn question_mark_without_name() {
    assert_eq!(kind(vec![p('?'), brace(vec![])]), ErrorKind::ExpectedPiName);
}

#[test]
fn bang_at_the_end() {
    assert_eq!(kind(vec![p('!')]), ErrorKind::ExpectedDoctypeAfterBang);
}

#[test]
fn bang_without_doctype() {
    assert_eq!(kind(vec![p('!'), id("html")]), ErrorKind::ExpectedDoctype);
}

#[test]
fn comment_without_literal() {
    assert_eq!(kind(vec![p('@'), id("comment")]), ErrorKind::ExpectedCommentLiteral);
    assert_eq!(kind(vec![p('@'), id("comment"), id("x")]), ErrorKind::ExpectedCommentLiteral);
}

#[test]
fn comment_with_char_literal() {
    assert_eq!(kind(vec![p('@'), id("comment"), lit("'c'")]), ErrorKind::ExpectedStringLiteral);
}

#[test]
fn comment_with_double_dash() {
    // xml! { @comment "a--b" }
    assert_eq!(kind(vec![p('@'), id("comment"), lit("\"a--b\"")]), ErrorKind::CommentDoubleDash);
}

#[test]
fn errors_inside_nested_bodies_are_reported() {
    // xml! { a { b { @comment "--" } } }
    let t = vec![id("a"), brace(vec![id("b"), brace(vec![p('@'), id("comment"), lit("\"--\"")])])];
    assert_eq!(kind(t), ErrorKind::CommentDoubleDash);
}

#[test]
fn fat_arrow_of_joint_puncts_is_accepted() {
    // xml! { @match x { a => { "y" } } }
    let t = vec![p('@'), id("match"), id("x"), brace(vec![id("a"), pj('='), p('>'), brace(vec![lit("\"y\"")])])];
    assert!(expand(t).is_ok());
}

#[test]
fn messages_name_the_problem() {
    let e = fail(vec![bracket(vec![], "a$b"), brace(vec![])]);
    assert_eq!(e.message(), "`a$b` is not a valid XML name: unexpected `$`");
    let e = fail(vec![bracket(vec![], "1abc"), brace(vec![])]);
    assert_eq!(e.message(), "`1abc` is not a valid XML name: bad first character");
    let attrs = vec![id("id"), p('='), lit("\"1\""), p(','), id("id"), p('='), lit("\"2\"")];
    let e = fail(vec![id("book"), paren(attrs), brace(vec![])]);
    assert_eq!(e.message(), "duplicate attribute `id`");
    assert_eq!(fail(vec![p('#')]).message(), "unexpected punctuation `#`");
    assert_eq!(
        fail(vec![p('@'), id("comment"), lit("\"a--b\"")]).message(),
        "comment text must not contain `--` (forbidden by XML 1.0)"
    );
    assert_eq!(fail(vec![p('@'), id("if"), id("cond")]).message(), "expected `{`");
    assert_eq!(
        fail(vec![lit("42")]).message(),
        "only string (or char) literals are valid text; use `@expr` to interpolate values"
    );
}

#[test]
fn comment_ending_in_dash() {
    // xml! { @comment "a-" } would write `<!--a--->`
    assert_eq!(kind(vec![p('@'), id("comment"), lit("\"a-\"")]), ErrorKind::CommentEndsWithDash);
    assert_eq!(
        fail(vec![p('@'), id("comment"), lit("\"a-\"")]).message(),
        "comment text must not end with `-` (forbidden by XML 1.0)"
    );
}

#[test]
fn cdata_terminator_across_literals() {
    // xml! { @cdata { "]]" ">" } }
    let t = vec![p('@'), id("cdata"), brace(vec![lit("\"]]\""), lit("\">\"")])];
    assert_eq!(kind(t), ErrorKind::CdataTerminatorInText);
}

#[test]
fn pi_terminator_across_literals() {
    // xml! { ?pi { "a?" ">b" } }
    let t = vec![p('?'), id("pi"), brace(vec![lit("\"a?\""), lit("\">b\"")])];
    assert_eq!(kind(t), ErrorKind::PiTerminatorInText);
}

#[test]
fn cdata_terminator_in_a_match_arm() {
    // xml! { @cdata { @match x { _ => { "a ]]> b" } } } }
    let arms = vec![id("_"), pj('='), p('>'), brace(vec![lit("\"a ]]> b\"")])];
    let t = vec![p('@'), id("cdata"), brace(vec![p('@'), id("match"), id("x"), brace(arms)])];
    assert_eq!(kind(t), ErrorKind::CdataTerminatorInText);
}

#[test]
fn pi_terminator_in_a_match_arm() {
    // xml! { ?pi { @match x { _ => { "a ?> b" } } } }
    let arms = vec![id("_"), pj('='), p('>'), brace(vec![lit("\"a ?> b\"")])];
    let t = vec![p('?'), id("pi"), brace(vec![p('@'), id("match"), id("x"), brace(arms)])];
    assert_eq!(kind(t), ErrorKind::PiTerminatorInText);
}

#[test]
fn non_string_literal_values_get_syn_message() {
    let attrs = vec![id("id"), p('='), lit("'c'")];
    assert_eq!(fail(vec![id("book"), paren(attrs), brace(vec![])]).message(), "expected string literal");
}
