use olav::{expand, Delimiter, Eval, Render, TokenTree};

fn id(name: &str) -> TokenTree {
    TokenTree::Ident { name: name.to_string(), span: 0 }
}

fn p(ch: char) -> TokenTree {
    TokenTree::Punct { ch, joint: false, span: 0 }
}

fn lit(text: &str) -> TokenTree {
    TokenTree::Literal { text: text.to_string(), span: 0 }
}

fn group(delimiter: Delimiter, stream: Vec<TokenTree>, stream_text: &str) -> TokenTree {
    let (open, close) = match delimiter {
        Delimiter::Parenthesis => ("(", ")"),
        Delimiter::Brace => ("{ ", " }"),
        Delimiter::Bracket => ("[", "]"),
        Delimiter::Invisible => ("", ""),
    };
    TokenTree::Group {
        delimiter,
        stream,
        text: format!("{}{}{}", open, stream_text, close),
        stream_text: stream_text.to_string(),
        span: 0,
    }
}

fn brace(stream: Vec<TokenTree>) -> TokenTree {
    group(Delimiter::Brace, stream, "")
}

fn paren(stream: Vec<TokenTree>) -> TokenTree {
    group(Delimiter::Parenthesis, stream, "")
}

fn bracket(stream: Vec<TokenTree>, printed: &str) -> TokenTree {
    group(Delimiter::Bracket, stream, printed)
}

/// Expands the template and runs the generated code with the given splice
/// values.
fn render(tokens: Vec<TokenTree>, values: Vec<String>) -> String {
    let program = expand(tokens).unwrap();
    let evals: Vec<Eval> = values.into_iter().map(Eval::Text).collect();
    program.render(&evals).unwrap().into_string()
}

#[test]
fn splice_format_args() {
    // xml! { p { @format!("hello {}, n={}", name, n) } }
    let name = "world";
    let n = 3;
    let value = format!("hello {}, n={}", name, n);
    let m = render(
        vec![
            id("p"),
            brace(vec![
                p('@'),
                id("format"),
                p('!'),
                paren(vec![lit("\"hello {}, n={}\""), p(','), id("name"), p(','), id("n")]),
            ]),
        ],
        vec![Render::render(&value).into_string()],
    );
    assert_eq!(m.as_str(), "<p>hello world, n=3</p>");
}

#[test]
fn splice_chars() {
    // let ch = '<'; xml! { p { @ch } }
    let ch = '<';
    let m = render(vec![id("p"), brace(vec![p('@'), id("ch")])], vec![Render::render(&ch).into_string()]);
    assert_eq!(m.as_str(), "<p>&lt;</p>");
}

#[test]
fn splice_option_some() {
    let template = || vec![id("p"), brace(vec![p('@'), id("opt")])];
    let opt: Option<i32> = Some(7);
    let m = render(template(), vec![Render::render(&opt).into_string()]);
    assert_eq!(m.as_str(), "<p>7</p>");

    let none: Option<i32> = None;
    let m = render(template(), vec![Render::render(&none).into_string()]);
    assert_eq!(m.as_str(), "<p></p>");

    let s: Option<&str> = Some("a & b");
    let m = render(template(), vec![Render::render(&s).into_string()]);
    assert_eq!(m.as_str(), "<p>a &amp; b</p>");
}

#[test]
fn splice_vec() {
    let v: Vec<&str> = vec!["a", "b", "c"];
    let m = render(vec![id("p"), brace(vec![p('@'), id("v")])], vec![Render::render(&v).into_string()]);
    assert_eq!(m.as_str(), "<p>abc</p>");
}

#[test]
fn splice_array() {
    let arr = [1, 2, 3];
    let m = render(vec![id("p"), brace(vec![p('@'), id("arr")])], vec![Render::render(&arr).into_string()]);
    assert_eq!(m.as_str(), "<p>123</p>");
}

#[test]
fn raw_splice_str() {
    // let safe = "<b>bold</b>"; xml! { div { @safe.raw } }
    let safe = "<b>bold</b>";
    let m = render(
        vec![id("div"), brace(vec![p('@'), id("safe"), p('.'), id("raw")])],
        vec![safe.to_string()],
    );
    assert_eq!(m.as_str(), "<div><b>bold</b></div>");
}

#[test]
fn raw_splice_does_not_escape() {
    let safe = "a & b";
    let m = render(
        vec![id("div"), brace(vec![p('@'), id("safe"), p('.'), id("raw")])],
        vec![safe.to_string()],
    );
    assert_eq!(m.as_str(), "<div>a & b</div>");
}

fn pj(ch: char) -> TokenTree {
    TokenTree::Punct { ch, joint: true, span: 0 }
}

/// Expands the template and runs the generated code, given the values that
/// Rust computes for its expressions, in order.
fn run(tokens: Vec<TokenTree>, evals: Vec<Eval>) -> String {
    expand(tokens).unwrap().render(&evals).unwrap().into_string()
}

fn if_let_template() -> Vec<TokenTree> {
    // xml! { root { @if let Some(v) = opt { value { @v } } else { none { } } } }
    vec![
        id("root"),
        brace(vec![
            p('@'),
            id("if"),
            id("let"),
            id("Some"),
            paren(vec![id("v")]),
            p('='),
            id("opt"),
            brace(vec![id("value"), brace(vec![p('@'), id("v")])]),
            id("else"),
            brace(vec![id("none"), brace(vec![])]),
        ]),
    ]
}

#[test]
fn if_let_pattern() {
    let opt: Option<i32> = Some(42);
    let mut evals = vec![Eval::Cond(opt.is_some())];
    if let Some(v) = opt {
        evals.push(Eval::Text(Render::render(&v).into_string()));
    }
    let m = run(if_let_template(), evals);
    assert_eq!(m.as_str(), "<root><value>42</value></root>");
}

#[test]
fn if_let_none() {
    let opt: Option<i32> = None;
    let m = run(if_let_template(), vec![Eval::Cond(opt.is_some())]);
    assert_eq!(m.as_str(), "<root><none/></root>");
}

#[test]
fn nested_for() {
    // xml! { matrix { @for row in &matrix { row { @for val in row { cell { @val } } } } } }
    let matrix = vec![vec![1, 2], vec![3, 4]];
    let inner = vec![p('@'), id("for"), id("val"), id("in"), id("row"), brace(vec![id("cell"), brace(vec![p('@'), id("val")])])];
    let t = vec![
        id("matrix"),
        brace(vec![
            p('@'),
            id("for"),
            id("row"),
            id("in"),
            p('&'),
            id("matrix"),
            brace(vec![id("row"), brace(inner)]),
        ]),
    ];
    let mut evals = vec![Eval::Times(matrix.len())];
    for row in &matrix {
        evals.push(Eval::Times(row.len()));
        for val in row {
            evals.push(Eval::Text(Render::render(val).into_string()));
        }
    }
    let m = run(t, evals);
    assert_eq!(
        m.as_str(),
        "<matrix><row><cell>1</cell><cell>2</cell></row><row><cell>3</cell><cell>4</cell></row></matrix>"
    );
}

#[test]
fn while_loop() {
    // xml! { log { @while let Some(counter) = iter.next() { tick { @counter } } } }
    let items: Vec<i32> = vec![1, 2, 3];
    let t = vec![
        id("log"),
        brace(vec![
            p('@'),
            id("while"),
            id("let"),
            id("Some"),
            paren(vec![id("counter")]),
            p('='),
            id("iter"),
            p('.'),
            id("next"),
            paren(vec![]),
            brace(vec![id("tick"), brace(vec![p('@'), id("counter")])]),
        ]),
    ];
    let mut evals = vec![Eval::Times(items.len())];
    for counter in items {
        evals.push(Eval::Text(Render::render(&counter).into_string()));
    }
    let m = run(t, evals);
    assert_eq!(m.as_str(), "<log><tick>1</tick><tick>2</tick><tick>3</tick></log>");
}

#[test]
fn match_expr() {
    // xml! { result { @match n { 1 => { one { } } 2 => { two { } } _ => { other { } } } } }
    let n = 2;
    let arms = vec![
        lit("1"),
        pj('='),
        p('>'),
        brace(vec![id("one"), brace(vec![])]),
        lit("2"),
        pj('='),
        p('>'),
        brace(vec![id("two"), brace(vec![])]),
        id("_"),
        pj('='),
        p('>'),
        brace(vec![id("other"), brace(vec![])]),
    ];
    let t = vec![id("result"), brace(vec![p('@'), id("match"), id("n"), brace(arms)])];
    let arm = match n {
        1 => 0,
        2 => 1,
        _ => 2,
    };
    let m = run(t, vec![Eval::Arm(arm)]);
    assert_eq!(m.as_str(), "<result><two/></result>");
}

#[test]
fn match_with_binding() {
    // xml! { r { @match opt { Some(v) => { y { @v } } None => { n { } } } } }
    let opt: Option<&str> = Some("yes");
    let arms = vec![
        id("Some"),
        paren(vec![id("v")]),
        pj('='),
        p('>'),
        brace(vec![id("y"), brace(vec![p('@'), id("v")])]),
        id("None"),
        pj('='),
        p('>'),
        brace(vec![id("n"), brace(vec![])]),
    ];
    let t = vec![id("r"), brace(vec![p('@'), id("match"), id("opt"), brace(arms)])];
    let evals = match opt {
        Some(v) => vec![Eval::Arm(0), Eval::Text(Render::render(&v).into_string())],
        None => vec![Eval::Arm(1)],
    };
    let m = run(t, evals);
    assert_eq!(m.as_str(), "<r><y>yes</y></r>");
}
