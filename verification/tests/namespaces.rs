use olav::{expand, Delimiter, Eval, Render, TokenTree};

fn id(name: &str) -> TokenTree {
    TokenTree::Ident { name: name.to_string(), span: 0 }
}

fn p(ch: char) -> TokenTree {
    TokenTree::Punct { ch, joint: false, span: 0 }
}

fn lit(text: &str) -> TokenTree {
    TokenTree::Literal { text: text.to_string(), span: 0 }
}

fn group(delimiter: Delimiter, stream: Vec<TokenTree>, stream_text: &str) -> TokenTree {
    let (open, close) = match delimiter {
        Delimiter::Parenthesis => ("(", ")"),
        Delimiter::Brace => ("{ ", " }"),
        Delimiter::Bracket => ("[", "]"),
        Delimiter::Invisible => ("", ""),
    };
    TokenTree::Group {
        delimiter,
        stream,
        text: format!("{}{}{}", open, stream_text, close),
        stream_text: stream_text.to_string(),
        span: 0,
    }
}

fn brace(stream: Vec<TokenTree>) -> TokenTree {
    group(Delimiter::Brace, stream, "")
}

fn paren(stream: Vec<TokenTree>) -> TokenTree {
    group(Delimiter::Parenthesis, stream, "")
}

fn bracket(stream: Vec<TokenTree>, printed: &str) -> TokenTree {
    group(Delimiter::Bracket, stream, printed)
}

/// Expands the template and runs the generated code with the given splice
/// values.
fn render(tokens: Vec<TokenTree>, values: Vec<String>) -> String {
    let program = expand(tokens).unwrap();
    let evals: Vec<Eval> = values.into_iter().map(Eval::Text).collect();
    program.render(&evals).unwrap().into_string()
}

#[test]
fn bracketed_element_name() {
    // xml! { [ns:book] { "hi" } }
    let m = render(
        vec![bracket(vec![id("ns"), p(':'), id("book")], "ns:book"), brace(vec![lit("\"hi\"")])],
        vec![],
    );
    assert_eq!(m.as_str(), "<ns:book>hi</ns:book>");
}

#[test]
fn bracketed_self_closing() {
    // xml! { [svg:rect] { } }
    let m = render(vec![bracket(vec![id("svg"), p(':'), id("rect")], "svg:rect"), brace(vec![])], vec![]);
    assert_eq!(m.as_str(), "<svg:rect/>");
}

#[test]
fn bracketed_nested() {
    // xml! { [svg:svg] { [svg:rect] { } } }
    let m = render(
        vec![
            bracket(vec![id("svg"), p(':'), id("svg")], "svg:svg"),
            brace(vec![bracket(vec![id("svg"), p(':'), id("rect")], "svg:rect"), brace(vec![])]),
        ],
        vec![],
    );
    assert_eq!(m.as_str(), "<svg:svg><svg:rect/></svg:svg>");
}

#[test]
fn bracketed_with_attrs() {
    // xml! { [svg:rect](x="10", y="20") { } }
    let m = render(
        vec![
            bracket(vec![id("svg"), p(':'), id("rect")], "svg:rect"),
            paren(vec![id("x"), p('='), lit("\"10\""), p(','), id("y"), p('='), lit("\"20\"")]),
            brace(vec![]),
        ],
        vec![],
    );
    assert_eq!(m.as_str(), "<svg:rect x=\"10\" y=\"20\"/>");
}

#[test]
fn xml_namespace_declaration() {
    // xml! { root(xmlns="http://example.com/ns") { child { "x" } } }
    let m = render(
        vec![
            id("root"),
            paren(vec![id("xmlns"), p('='), lit("\"http://example.com/ns\"")]),
            brace(vec![id("child"), brace(vec![lit("\"x\"")])]),
        ],
        vec![],
    );
    assert_eq!(m.as_str(), "<root xmlns=\"http://example.com/ns\"><child>x</child></root>");
}

#[test]
fn multiple_attrs() {
    // xml! { book(id="1", lang="en", edition="2") { "x" } }
    let m = render(
        vec![
            id("book"),
            paren(vec![
                id("id"),
                p('='),
                lit("\"1\""),
                p(','),
                id("lang"),
                p('='),
                lit("\"en\""),
                p(','),
                id("edition"),
                p('='),
                lit("\"2\""),
            ]),
            brace(vec![lit("\"x\"")]),
        ],
        vec![],
    );
    assert_eq!(m.as_str(), "<book id=\"1\" lang=\"en\" edition=\"2\">x</book>");
}

#[test]
fn attr_with_string_value() {
    // let v: String = "hello".into(); xml! { div(class=v) { } }
    let v: String = "hello".into();
    let m = render(
        vec![id("div"), paren(vec![id("class"), p('='), id("v")]), brace(vec![])],
        vec![Render::render(&v).into_string()],
    );
    assert_eq!(m.as_str(), "<div class=\"hello\"/>");
}

#[test]
fn attr_with_format() {
    // let x = 5; let y = 10; xml! { point(x=x, y=y) { } }
    let x = 5;
    let y = 10;
    let m = render(
        vec![
            id("point"),
            paren(vec![id("x"), p('='), id("x"), p(','), id("y"), p('='), id("y")]),
            brace(vec![]),
        ],
        vec![Render::render(&x).into_string(), Render::render(&y).into_string()],
    );
    assert_eq!(m.as_str(), "<point x=\"5\" y=\"10\"/>");
}

#[test]
fn deeply_nested() {
    // xml! { a { b { c { d { "deep" } } } } }
    let m = render(
        vec![
            id("a"),
            brace(vec![id("b"), brace(vec![id("c"), brace(vec![id("d"), brace(vec![lit("\"deep\"")])])])]),
        ],
        vec![],
    );
    assert_eq!(m.as_str(), "<a><b><c><d>deep</d></c></b></a>");
}
