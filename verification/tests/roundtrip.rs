use olav::{expand, Delimiter, Eval, Render, TokenTree};
use quick_xml::events::{BytesText, Event};
use quick_xml::Reader;

fn id(name: &str) -> TokenTree {
    TokenTree::Ident { name: name.to_string(), span: 0 }
}

fn p(ch: char) -> TokenTree {
    TokenTree::Punct { ch, joint: false, span: 0 }
}

fn lit(text: &str) -> TokenTree {
    TokenTree::Literal { text: text.to_string(), span: 0 }
}

fn group(delimiter: Delimiter, stream: Vec<TokenTree>, stream_text: &str) -> TokenTree {
    let (open, close) = match delimiter {
        Delimiter::Parenthesis => ("(", ")"),
        Delimiter::Brace => ("{ ", " }"),
        Delimiter::Bracket => ("[", "]"),
        Delimiter::Invisible => ("", ""),
    };
    TokenTree::Group {
        delimiter,
        stream,
        text: format!("{}{}{}", open, stream_text, close),
        stream_text: stream_text.to_string(),
        span: 0,
    }
}

fn brace(stream: Vec<TokenTree>) -> TokenTree {
    group(Delimiter::Brace, stream, "")
}

fn paren(stream: Vec<TokenTree>) -> TokenTree {
    group(Delimiter::Parenthesis, stream, "")
}

fn bracket(stream: Vec<TokenTree>, printed: &str) -> TokenTree {
    group(Delimiter::Bracket, stream, printed)
}

/// Expands the template and runs the generated code, given the values that
/// Rust computes for its expressions, in order.
fn run(tokens: Vec<TokenTree>, evals: Vec<Eval>) -> String {
    expand(tokens).unwrap().render(&evals).unwrap().into_string()
}

fn parse_events(s: &str) -> Vec<Event<'_>> {
    let mut reader = Reader::from_str(s);
    reader.config_mut().trim_text(false);
    let mut events = Vec::new();
    let mut text_buf = String::new();
    let flush = |buf: &mut String, events: &mut Vec<Event<'_>>| {
        if !buf.is_empty() {
            events.push(Event::Text(BytesText::from_escaped(std::mem::take(buf))));
        }
    };
    loop {
        match reader.read_event() {
            Ok(Event::Eof) => {
                flush(&mut text_buf, &mut events);
                break;
            }
            Ok(Event::Text(t)) => {
                text_buf.push_str(t.as_ref());
            }
            Ok(Event::GeneralRef(r)) => match r.as_ref() {
                "amp" => text_buf.push('&'),
                "lt" => text_buf.push('<'),
                "gt" => text_buf.push('>'),
                "quot" => text_buf.push('"'),
                "apos" => text_buf.push('\''),
                _ => {}
            },
            Ok(e) => {
                flush(&mut text_buf, &mut events);
                events.push(e);
            }
            Err(e) => panic!("parse error: {:?}", e),
        }
    }
    events
}

#[test]
fn roundtrip_simple_element() {
    // xml! { root { "hello" } }
    let m = run(vec![id("root"), brace(vec![lit("\"hello\"")])], vec![]);
    let events = parse_events(&m);
    assert!(matches!(events[0], Event::Start(ref e) if e.name().as_ref() == "root"));
    assert!(matches!(events[1], Event::Text(ref e) if e.as_ref() == "hello"));
    assert!(matches!(events[2], Event::End(ref e) if e.name().as_ref() == "root"));
}

#[test]
fn roundtrip_self_closing() {
    // xml! { br { } }
    let m = run(vec![id("br"), brace(vec![])], vec![]);
    let events = parse_events(&m);
    assert!(matches!(events[0], Event::Empty(ref e) if e.name().as_ref() == "br"));
}

#[test]
fn roundtrip_with_attribute() {
    // xml! { book(id="42") { "x" } }
    let m = run(vec![id("book"), paren(vec![id("id"), p('='), lit("\"42\"")]), brace(vec![lit("\"x\"")])], vec![]);
    let events = parse_events(&m);
    if let Event::Start(ref e) = events[0] {
        assert_eq!(e.name().as_ref(), "book");
        let mut attrs: Vec<_> = e.attributes().collect();
        assert_eq!(attrs.len(), 1);
        let attr = attrs.remove(0).unwrap();
        assert_eq!(attr.key.as_ref(), "id");
        assert_eq!(attr.value.as_ref(), "42");
    } else {
        panic!("expected Start event");
    }
}

#[test]
fn roundtrip_escapes_text() {
    // xml! { p { @s } }
    let s = "a & b < c > d";
    let m = run(vec![id("p"), brace(vec![p('@'), id("s")])], vec![Eval::Text(Render::render(&s).into_string())]);
    let events = parse_events(&m);
    if let Event::Text(ref e) = events[1] {
        assert_eq!(e.as_ref(), "a & b < c > d");
    } else {
        panic!("expected Text event");
    }
}

#[test]
fn roundtrip_namespaced() {
    // xml! { [svg:svg] { [svg:rect](x="10") { } } }
    let inner = vec![bracket(vec![], "svg:rect"), paren(vec![id("x"), p('='), lit("\"10\"")]), brace(vec![])];
    let m = run(vec![bracket(vec![], "svg:svg"), brace(inner)], vec![]);
    let events = parse_events(&m);
    assert!(matches!(events[0], Event::Start(ref e) if e.name().as_ref() == "svg:svg"));
    assert!(matches!(events[1], Event::Empty(ref e) if e.name().as_ref() == "svg:rect"));
}

#[test]
fn roundtrip_pi() {
    // xml! { ?xml version="1.0" root { } }
    let t = vec![p('?'), id("xml"), id("version"), p('='), lit("\"1.0\""), id("root"), brace(vec![])];
    let m = run(t, vec![]);
    let events = parse_events(&m);
    if let Event::Decl(ref e) = events[0] {
        let v = e.version().unwrap();
        assert_eq!(v.as_ref(), "1.0");
    } else {
        panic!("expected Decl event");
    }
}

#[test]
fn roundtrip_pi_stylesheet() {
    // xml! { ?xml-stylesheet type="text/xsl" href="style.xsl" root { } }
    let t = vec![
        p('?'),
        id("xml"),
        p('-'),
        id("stylesheet"),
        id("type"),
        p('='),
        lit("\"text/xsl\""),
        id("href"),
        p('='),
        lit("\"style.xsl\""),
        id("root"),
        brace(vec![]),
    ];
    let m = run(t, vec![]);
    let events = parse_events(&m);
    if let Event::PI(ref e) = events[0] {
        assert_eq!(e.target(), "xml-stylesheet");
    } else {
        panic!("expected PI event");
    }
}

#[test]
fn roundtrip_doctype() {
    // xml! { !DOCTYPE html root { } }
    let m = run(vec![p('!'), id("DOCTYPE"), id("html"), id("root"), brace(vec![])], vec![]);
    let events = parse_events(&m);
    assert!(matches!(events[0], Event::DocType(ref e) if e.as_ref().contains("html")));
}

#[test]
fn roundtrip_comment() {
    // xml! { @comment "a note" root { } }
    let m = run(vec![p('@'), id("comment"), lit("\"a note\""), id("root"), brace(vec![])], vec![]);
    let events = parse_events(&m);
    if let Event::Comment(ref e) = events[0] {
        assert_eq!(e.as_ref(), "a note");
    } else {
        panic!("expected Comment event");
    }
}

#[test]
fn roundtrip_cdata() {
    // xml! { code { @cdata { "<tag> & stuff" } } }
    let t = vec![id("code"), brace(vec![p('@'), id("cdata"), brace(vec![lit("\"<tag> & stuff\"")])])];
    let m = run(t, vec![]);
    let events = parse_events(&m);
    if let Event::CData(ref e) = events[1] {
        assert_eq!(e.as_ref(), "<tag> & stuff");
    } else {
        panic!("expected CData event");
    }
}

#[test]
fn roundtrip_control_flow() {
    // xml! { list { @for x in &items { item { @x } } } }
    let items = vec!["a", "b", "c"];
    let t = vec![
        id("list"),
        brace(vec![
            p('@'),
            id("for"),
            id("x"),
            id("in"),
            p('&'),
            id("items"),
            brace(vec![id("item"), brace(vec![p('@'), id("x")])]),
        ]),
    ];
    let mut evals = vec![Eval::Times(items.len())];
    for x in &items {
        evals.push(Eval::Text(Render::render(x).into_string()));
    }
    let m = run(t, evals);
    let events = parse_events(&m);
    // start list, (start item, text, end item) x 3, end list
    assert_eq!(events.len(), 11);
}

#[test]
fn roundtrip_complex_doc() {
    // xml! {
    //     ?xml version="1.0" encoding="UTF-8"
    //     !DOCTYPE html
    //     html(xmlns="urn:x") {
    //         head { title { @title } }
    //         body {
    //             @comment "main"
    //             p(class="intro") { "hello" }
    //             @if true { div { "shown" } }
    //         }
    //     }
    // }
    let title = "Olav";
    let head = vec![id("title"), brace(vec![p('@'), id("title")])];
    let body = vec![
        p('@'),
        id("comment"),
        lit("\"main\""),
        id("p"),
        paren(vec![id("class"), p('='), lit("\"intro\"")]),
        brace(vec![lit("\"hello\"")]),
        p('@'),
        id("if"),
        id("true"),
        brace(vec![id("div"), brace(vec![lit("\"shown\"")])]),
    ];
    let t = vec![
        p('?'),
        id("xml"),
        id("version"),
        p('='),
        lit("\"1.0\""),
        id("encoding"),
        p('='),
        lit("\"UTF-8\""),
        p('!'),
        id("DOCTYPE"),
        id("html"),
        id("html"),
        paren(vec![id("xmlns"), p('='), lit("\"urn:x\"")]),
        brace(vec![id("head"), brace(head), id("body"), brace(body)]),
    ];
    let m = run(t, vec![Eval::Text(Render::render(&title).into_string())]);
    // Just verify it parses without error
    let events = parse_events(&m);
    assert!(!events.is_empty());
}

#[test]
fn roundtrip_pi_with_text_and_splice() {
    // xml! { ?app mode="x" { "run " @x } root { } } with x = "a<b"
    let x = "a<b";
    let t = vec![
        p('?'),
        id("app"),
        id("mode"),
        p('='),
        lit("\"x\""),
        brace(vec![lit("\"run \""), p('@'), id("x")]),
        id("root"),
        brace(vec![]),
    ];
    let m = run(t, vec![Eval::Text(Render::render(&x).into_string())]);
    assert_eq!(m, "<?app mode=\"x\" run a&lt;b?><root/>");
    let events = parse_events(&m);
    if let Event::PI(ref e) = events[0] {
        assert_eq!(e.target(), "app");
        assert_eq!(e.content(), " mode=\"x\" run a&lt;b");
    } else {
        panic!("expected PI event");
    }
    assert!(matches!(events[1], Event::Empty(_)));
}

#[test]
fn roundtrip_cdata_adjacent_literals() {
    // xml! { code { @cdata { "]" "]" "x>" } } }
    let t = vec![id("code"), brace(vec![p('@'), id("cdata"), brace(vec![lit("\"]\""), lit("\"]\""), lit("\"x>\"")])])];
    let m = run(t, vec![]);
    assert_eq!(m, "<code><![CDATA[]]x>]]></code>");
    let events = parse_events(&m);
    if let Event::CData(ref e) = events[1] {
        assert_eq!(e.as_ref(), "]]x>");
    } else {
        panic!("expected CData event");
    }
}
