use olav::{expand, Delimiter, Eval, Render, TokenTree};

fn id(name: &str) -> TokenTree {
    TokenTree::Ident { name: name.to_string(), span: 0 }
}

fn p(ch: char) -> TokenTree {
    TokenTree::Punct { ch, joint: false, span: 0 }
}

fn lit(text: &str) -> TokenTree {
    TokenTree::Literal { text: text.to_string(), span: 0 }
}

fn group(delimiter: Delimiter, stream: Vec<TokenTree>, stream_text: &str) -> TokenTree {
    let (open, close) = match delimiter {
        Delimiter::Parenthesis => ("(", ")"),
        Delimiter::Brace => ("{ ", " }"),
        Delimiter::Bracket => ("[", "]"),
        Delimiter::Invisible => ("", ""),
    };
    TokenTree::Group {
        delimiter,
        stream,
        text: format!("{}{}{}", open, stream_text, close),
        stream_text: stream_text.to_string(),
        span: 0,
    }
}

fn brace(stream: Vec<TokenTree>) -> TokenTree {
    group(Delimiter::Brace, stream, "")
}

fn paren(stream: Vec<TokenTree>) -> TokenTree {
    group(Delimiter::Parenthesis, stream, "")
}

fn bracket(stream: Vec<TokenTree>, printed: &str) -> TokenTree {
    group(Delimiter::Bracket, stream, printed)
}

/// Expands the template and runs the generated code with the given splice
/// values.
fn render(tokens: Vec<TokenTree>, values: Vec<String>) -> String {
    let program = expand(tokens).unwrap();
    let evals: Vec<Eval> = values.into_iter().map(Eval::Text).collect();
    program.render(&evals).unwrap().into_string()
}

fn xml_decl() -> Vec<TokenTree> {
    vec![p('?'), id("xml"), id("version"), p('='), lit("\"1.0\""), id("encoding"), p('='), lit("\"UTF-8\"")]
}

#[test]
fn xml_declaration() {
    // xml! { ?xml version="1.0" encoding="UTF-8" root { "hello" } }
    let mut t = xml_decl();
    t.push(id("root"));
    t.push(brace(vec![lit("\"hello\"")]));
    let m = render(t, vec![]);
    assert_eq!(m.as_str(), "<?xml version=\"1.0\" encoding=\"UTF-8\"?><root>hello</root>");
}

#[test]
fn xml_declaration_minimal() {
    // xml! { ?xml version="1.0" root { } }
    let m = render(vec![p('?'), id("xml"), id("version"), p('='), lit("\"1.0\""), id("root"), brace(vec![])], vec![]);
    assert_eq!(m.as_str(), "<?xml version=\"1.0\"?><root/>");
}

#[test]
fn processing_instruction() {
    // xml! { ?xml-stylesheet type="text/xsl" href="style.xsl" root { "x" } }
    let m = render(
        vec![
            p('?'),
            id("xml"),
            p('-'),
            id("stylesheet"),
            id("type"),
            p('='),
            lit("\"text/xsl\""),
            id("href"),
            p('='),
            lit("\"style.xsl\""),
            id("root"),
            brace(vec![lit("\"x\"")]),
        ],
        vec![],
    );
    assert_eq!(m.as_str(), "<?xml-stylesheet type=\"text/xsl\" href=\"style.xsl\"?><root>x</root>");
}

#[test]
fn doctype_simple() {
    // xml! { !DOCTYPE html root { } }
    let m = render(vec![p('!'), id("DOCTYPE"), id("html"), id("root"), brace(vec![])], vec![]);
    assert_eq!(m.as_str(), "<!DOCTYPE html><root/>");
}

#[test]
fn doctype_with_system() {
    // xml! { !DOCTYPE html SYSTEM "about:legacy-compat" root { } }
    let m = render(
        vec![p('!'), id("DOCTYPE"), id("html"), id("SYSTEM"), lit("\"about:legacy-compat\""), id("root"), brace(vec![])],
        vec![],
    );
    assert_eq!(m.as_str(), "<!DOCTYPE html SYSTEM \"about:legacy-compat\"><root/>");
}

#[test]
fn comment_simple() {
    // xml! { @comment "a comment" root { "x" } }
    let m = render(vec![p('@'), id("comment"), lit("\"a comment\""), id("root"), brace(vec![lit("\"x\"")])], vec![]);
    assert_eq!(m.as_str(), "<!--a comment--><root>x</root>");
}

#[test]
fn comment_inside_element() {
    // xml! { root { @comment "note" "x" } }
    let m = render(vec![id("root"), brace(vec![p('@'), id("comment"), lit("\"note\""), lit("\"x\"")])], vec![]);
    assert_eq!(m.as_str(), "<root><!--note-->x</root>");
}

#[test]
fn cdata_section() {
    // xml! { code { @cdata { "<tag> & stuff" } } }
    let m = render(
        vec![id("code"), brace(vec![p('@'), id("cdata"), brace(vec![lit("\"<tag> & stuff\"")])])],
        vec![],
    );
    assert_eq!(m.as_str(), "<code><![CDATA[<tag> & stuff]]></code>");
}

#[test]
fn cdata_with_text() {
    // xml! { data { @cdata { "raw " "stuff" } } }
    let m = render(
        vec![id("data"), brace(vec![p('@'), id("cdata"), brace(vec![lit("\"raw \""), lit("\"stuff\"")])])],
        vec![],
    );
    assert_eq!(m.as_str(), "<data><![CDATA[raw stuff]]></data>");
}

#[test]
fn cdata_text_is_verbatim_not_escaped() {
    // xml! { data { @cdata { "1 < 2 && 3 > 2" } } }
    let m = render(
        vec![id("data"), brace(vec![p('@'), id("cdata"), brace(vec![lit("\"1 < 2 && 3 > 2\"")])])],
        vec![],
    );
    assert_eq!(m.as_str(), "<data><![CDATA[1 < 2 && 3 > 2]]></data>");
}

#[test]
fn cdata_with_control_flow_and_raw_splice() {
    // let s = "a & b"; xml! { data { @cdata { @if true { "x < y" } @s.raw } } }
    let s = "a & b";
    let m = render(
        vec![
            id("data"),
            brace(vec![
                p('@'),
                id("cdata"),
                brace(vec![
                    p('@'),
                    id("if"),
                    id("true"),
                    brace(vec![lit("\"x < y\"")]),
                    p('@'),
                    id("s"),
                    p('.'),
                    id("raw"),
                ]),
            ]),
        ],
        vec![s.to_string()],
    );
    assert_eq!(m.as_str(), "<data><![CDATA[x < ya & b]]></data>");
}

#[test]
fn full_document() {
    // xml! {
    //     ?xml version="1.0" encoding="UTF-8"
    //     !DOCTYPE html
    //     html {
    //         head { title { @title } }
    //         body {
    //             @comment "main content"
    //             p { "hello world" }
    //             @if true { div { "shown" } }
    //         }
    //     }
    // }
    let title = "Olav";
    let mut t = xml_decl();
    t.extend(vec![
        p('!'),
        id("DOCTYPE"),
        id("html"),
        id("html"),
        brace(vec![
            id("head"),
            brace(vec![id("title"), brace(vec![p('@'), id("title")])]),
            id("body"),
            brace(vec![
                p('@'),
                id("comment"),
                lit("\"main content\""),
                id("p"),
                brace(vec![lit("\"hello world\"")]),
                p('@'),
                id("if"),
                id("true"),
                brace(vec![id("div"), brace(vec![lit("\"shown\"")])]),
            ]),
        ]),
    ]);
    let m = render(t, vec![Render::render(&title).into_string()]);
    let expected = "<?xml version=\"1.0\" encoding=\"UTF-8\"?><!DOCTYPE html>\
        <html><head><title>Olav</title></head>\
        <body><!--main content--><p>hello world</p><div>shown</div></body></html>";
    assert_eq!(m.as_str(), expected);
}
