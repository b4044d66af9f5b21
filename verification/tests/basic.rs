use olav::{expand, Delimiter, Eval, Render, TokenTree};

fn id(name: &str) -> TokenTree {
    TokenTree::Ident { name: name.to_string(), span: 0 }
}

fn p(ch: char) -> TokenTree {
    TokenTree::Punct { ch, joint: false, span: 0 }
}

fn lit(text: &str) -> TokenTree {
    TokenTree::Literal { text: text.to_string(), span: 0 }
}

fn group(delimiter: Delimiter, stream: Vec<TokenTree>, stream_text: &str) -> TokenTree {
    let (open, close) = match delimiter {
        Delimiter::Parenthesis => ("(", ")"),
        Delimiter::Brace => ("{ ", " }"),
        Delimiter::Bracket => ("[", "]"),
        Delimiter::Invisible => ("", ""),
    };
    TokenTree::Group {
        delimiter,
        stream,
        text: format!("{}{}{}", open, stream_text, close),
        stream_text: stream_text.to_string(),
        span: 0,
    }
}

fn brace(stream: Vec<TokenTree>) -> TokenTree {
    group(Delimiter::Brace, stream, "")
}

fn paren(stream: Vec<TokenTree>) -> TokenTree {
    group(Delimiter::Parenthesis, stream, "")
}

fn bracket(stream: Vec<TokenTree>, printed: &str) -> TokenTree {
    group(Delimiter::Bracket, stream, printed)
}

/// Expands the template and runs the generated code with the given splice
/// values.
fn render(tokens: Vec<TokenTree>, values: Vec<String>) -> String {
    let program = expand(tokens).unwrap();
    let evals: Vec<Eval> = values.into_iter().map(Eval::Text).collect();
    program.render(&evals).unwrap().into_string()
}

#[test]
fn simple_element_with_text() {
    // xml! { book { "hello" } }
    let m = render(vec![id("book"), brace(vec![lit("\"hello\"")])], vec![]);
    assert_eq!(m.as_str(), "<book>hello</book>");
}

#[test]
fn self_closing_element() {
    // xml! { br { } }
    let m = render(vec![id("br"), brace(vec![])], vec![]);
    assert_eq!(m.as_str(), "<br/>");
}

#[test]
fn nested_elements() {
    // xml! { catalog { book { "hi" } } }
    let m = render(vec![id("catalog"), brace(vec![id("book"), brace(vec![lit("\"hi\"")])])], vec![]);
    assert_eq!(m.as_str(), "<catalog><book>hi</book></catalog>");
}

#[test]
fn literal_attribute() {
    // xml! { book(id="42") { "x" } }
    let m = render(
        vec![id("book"), paren(vec![id("id"), p('='), lit("\"42\"")]), brace(vec![lit("\"x\"")])],
        vec![],
    );
    assert_eq!(m.as_str(), "<book id=\"42\">x</book>");
}

#[test]
fn expression_attribute() {
    // let id: i32 = 7; xml! { book(id=id) { "x" } }
    let value: i32 = 7;
    let m = render(
        vec![id("book"), paren(vec![id("id"), p('='), id("id")]), brace(vec![lit("\"x\"")])],
        vec![Render::render(&value).into_string()],
    );
    assert_eq!(m.as_str(), "<book id=\"7\">x</book>");
}

#[test]
fn splice_text() {
    // let name = "world"; xml! { p { "hello " @name } }
    let name = "world";
    let m = render(
        vec![id("p"), brace(vec![lit("\"hello \""), p('@'), id("name")])],
        vec![Render::render(&name).into_string()],
    );
    assert_eq!(m.as_str(), "<p>hello world</p>");
}

#[test]
fn splice_escapes() {
    // let s = "a & b"; xml! { p { @s } }
    let s = "a & b";
    let m = render(vec![id("p"), brace(vec![p('@'), id("s")])], vec![Render::render(&s).into_string()]);
    assert_eq!(m.as_str(), "<p>a &amp; b</p>");
}

#[test]
fn text_literal_decodes_escapes() {
    // xml! { p { "line1\nline2" } }
    let m = render(vec![id("p"), brace(vec![lit(r#""line1\nline2""#)])], vec![]);
    assert_eq!(m.as_str(), "<p>line1\nline2</p>");
}

#[test]
fn text_literal_decodes_escaped_quote() {
    // xml! { p { "say \"hi\"" } }
    let m = render(vec![id("p"), brace(vec![lit(r#""say \"hi\"""#)])], vec![]);
    assert_eq!(m.as_str(), "<p>say \"hi\"</p>");
}

#[test]
fn text_literal_raw_string() {
    // xml! { p { r#"a "quoted" & <b>"# } }
    let m = render(vec![id("p"), brace(vec![lit(r##"r#"a "quoted" & <b>"#"##)])], vec![]);
    assert_eq!(m.as_str(), "<p>a \"quoted\" &amp; &lt;b&gt;</p>");
}

/// Expands the template and runs the generated code, given the values that
/// Rust computes for its expressions, in order.
fn run(tokens: Vec<TokenTree>, evals: Vec<Eval>) -> String {
    expand(tokens).unwrap().render(&evals).unwrap().into_string()
}

fn if_template(with_else: bool) -> Vec<TokenTree> {
    // xml! { div { @if cond { "yes" } } }, with ` else { "no" }` when asked
    let mut inner = vec![p('@'), id("if"), id("cond"), brace(vec![lit("\"yes\"")])];
    if with_else {
        inner.push(id("else"));
        inner.push(brace(vec![lit("\"no\"")]));
    }
    vec![id("div"), brace(inner)]
}

#[test]
fn if_true() {
    let cond = true;
    let m = run(if_template(false), vec![Eval::Cond(cond)]);
    assert_eq!(m.as_str(), "<div>yes</div>");
}

#[test]
fn if_false() {
    let cond = false;
    let m = run(if_template(false), vec![Eval::Cond(cond)]);
    assert_eq!(m.as_str(), "<div></div>");
}

#[test]
fn if_else() {
    let cond = false;
    let m = run(if_template(true), vec![Eval::Cond(cond)]);
    assert_eq!(m.as_str(), "<div>no</div>");
}

#[test]
fn for_loop() {
    // xml! { ul { @for x in &xs { li { @x } } } }
    let xs = vec!["a", "b", "c"];
    let t = vec![
        id("ul"),
        brace(vec![
            p('@'),
            id("for"),
            id("x"),
            id("in"),
            p('&'),
            id("xs"),
            brace(vec![id("li"), brace(vec![p('@'), id("x")])]),
        ]),
    ];
    let mut evals = vec![Eval::Times(xs.len())];
    for x in &xs {
        evals.push(Eval::Text(Render::render(x).into_string()));
    }
    let m = run(t, evals);
    assert_eq!(m.as_str(), "<ul><li>a</li><li>b</li><li>c</li></ul>");
}
