use olav::ast::{Attr, Node};
use olav::escape::{escape_attr, escape_text};
use olav::parse::{check_duplicate_attrs, validate_xml_name};
use olav::{expand, generate, Delimiter, ErrorKind, Eval, Parser, TokenTree};

fn id(name: &str) -> TokenTree {
    TokenTree::Ident { name: name.to_string(), span: 0 }
}

fn p(ch: char) -> TokenTree {
    TokenTree::Punct { ch, joint: false, span: 0 }
}

fn lit(text: &str) -> TokenTree {
    TokenTree::Literal { text: text.to_string(), span: 0 }
}

fn group(delimiter: Delimiter, stream: Vec<TokenTree>, stream_text: &str) -> TokenTree {
    let (open, close) = match delimiter {
        Delimiter::Parenthesis => ("(", ")"),
        Delimiter::Brace => ("{ ", " }"),
        Delimiter::Bracket => ("[", "]"),
        Delimiter::Invisible => ("", ""),
    };
    TokenTree::Group {
        delimiter,
        stream,
        text: format!("{}{}{}", open, stream_text, close),
        stream_text: stream_text.to_string(),
        span: 0,
    }
}

fn brace(stream: Vec<TokenTree>) -> TokenTree {
    group(Delimiter::Brace, stream, "")
}

fn paren(stream: Vec<TokenTree>) -> TokenTree {
    group(Delimiter::Parenthesis, stream, "")
}

fn bracket(stream: Vec<TokenTree>, printed: &str) -> TokenTree {
    group(Delimiter::Bracket, stream, printed)
}

/// What an XML reader makes of escaped text: the five entity references
/// and numeric references stand for one character each.
fn read_back(t: &str) -> String {
    let chars: Vec<char> = t.chars().collect();
    let mut out = String::new();
    let mut i = 0;
    while i < chars.len() {
        if chars[i] == '&' {
            let end = chars[i..].iter().position(|&c| c == ';').unwrap() + i;
            let name: String = chars[i + 1..end].iter().collect();
            let c = match name.as_str() {
                "amp" => '&',
                "lt" => '<',
                "gt" => '>',
                "quot" => '"',
                "apos" => '\'',
                _ => {
                    assert!(name.starts_with("#x"));
                    char::from_u32(u32::from_str_radix(&name[2..], 16).unwrap()).unwrap()
                }
            };
            out.push(c);
            i = end + 1;
        } else {
            out.push(chars[i]);
            i += 1;
        }
    }
    out
}

const SAMPLE: &str = "a & b < c > d \"q\" 'r' \u{1}\u{1F}\t\n\r é;";

#[test]
fn escaped_text_reads_back_as_the_text() {
    let mut out = String::new();
    escape_text(SAMPLE, &mut out);
    assert_eq!(read_back(&out), SAMPLE);
}

#[test]
fn escaped_attr_reads_back_as_the_value() {
    let mut out = String::new();
    escape_attr(SAMPLE, &mut out);
    assert_eq!(read_back(&out), SAMPLE);
}

#[test]
fn escaped_text_holds_no_markup_characters() {
    let mut out = String::new();
    escape_text(SAMPLE, &mut out);
    assert!(!out.contains('<') && !out.contains('>'));
    assert!(!out.chars().any(|c| (c as u32) < 0x20 && c != '\t' && c != '\n' && c != '\r'));
    assert_eq!(out, "a &amp; b &lt; c &gt; d \"q\" 'r' &#x1;&#x1F;\t\n\r é;");
}

#[test]
fn escaped_attr_holds_no_quotes() {
    let mut out = String::new();
    escape_attr(SAMPLE, &mut out);
    assert!(!out.contains('<') && !out.contains('"') && !out.contains('\''));
    assert_eq!(out, "a &amp; b &lt; c > d &quot;q&quot; &apos;r&apos; &#x1;&#x1F;\t\n\r é;");
}

#[test]
fn static_template_renders_its_markup() {
    // xml! { ?pi a="1" { "x" } !DOCTYPE doc doc(k="v&") { "t<" @comment "c" @cdata { "<raw>" } e { } } }
    let t = vec![
        p('?'),
        id("pi"),
        id("a"),
        p('='),
        lit("\"1\""),
        brace(vec![lit("\"x\"")]),
        p('!'),
        id("DOCTYPE"),
        id("doc"),
        id("doc"),
        paren(vec![id("k"), p('='), lit("\"v&\"")]),
        brace(vec![
            lit("\"t<\""),
            p('@'),
            id("comment"),
            lit("\"c\""),
            p('@'),
            id("cdata"),
            brace(vec![lit("\"<raw>\"")]),
            id("e"),
            brace(vec![]),
        ]),
    ];
    let m = expand(t).unwrap().render(&vec![]).unwrap();
    assert_eq!(
        m.as_str(),
        "<?pi a=\"1\" x?><!DOCTYPE doc><doc k=\"v&amp;\">t&lt;<!--c--><![CDATA[<raw>]]><e/></doc>"
    );
}

#[test]
fn static_template_refuses_unused_values() {
    let t = vec![id("a"), brace(vec![])];
    assert!(expand(t).unwrap().render(&vec![Eval::Text("x".to_string())]).is_none());
}

#[test]
fn parser_reads_every_token() {
    // xml! { a { "x" } b { } }
    let mut parser = Parser::new(vec![id("a"), brace(vec![lit("\"x\"")]), id("b"), brace(vec![])]);
    let nodes = parser.parse_body().unwrap();
    assert_eq!(nodes.len(), 2);
    match &nodes[0] {
        Node::Element { name, attrs, body } => {
            assert_eq!(name, "a");
            assert!(attrs.is_empty());
            assert!(matches!(&body[0], Node::Text(s) if s == "x"));
        }
        other => panic!("unexpected node {:?}", other),
    }
    assert!(matches!(&nodes[1], Node::Element { name, body, .. } if name == "b" && body.is_empty()));
}

#[test]
fn parser_reports_the_first_error() {
    let mut parser = Parser::new(vec![id("a"), brace(vec![]), p('#'), p('%')]);
    let e = parser.parse_body().unwrap_err();
    assert_eq!(e.kind, ErrorKind::UnexpectedPunct('#'));
}

#[test]
fn generate_matches_expand() {
    let tokens = || vec![id("book"), paren(vec![id("id"), p('='), lit("\"7\"")]), brace(vec![lit("\"hi\"")])];
    let nodes = Parser::new(tokens()).parse_body().unwrap();
    let p1 = generate(&nodes);
    let p2 = expand(tokens()).unwrap();
    assert_eq!(p1.capacity, p2.capacity);
    assert_eq!(p1.body.len(), p2.body.len());
    assert_eq!(
        p1.render(&vec![]).unwrap().into_string(),
        p2.render(&vec![]).unwrap().into_string()
    );
}

#[test]
fn capacity_counts_the_literal_bytes() {
    // <book>hello</book>: 5 + 2 * 4 for the tags, 5 for the text.
    let program = expand(vec![id("book"), brace(vec![lit("\"hello\"")])]).unwrap();
    assert_eq!(program.capacity, 18);
    let out = program.render(&vec![]).unwrap().into_string();
    assert_eq!(out.len(), 18);
    // <br/>: 3 + 2; a splice counts nothing.
    let program = expand(vec![id("br"), brace(vec![]), p('@'), id("x")]).unwrap();
    assert_eq!(program.capacity, 5);
}

#[test]
fn validate_xml_name_accepts_and_rejects() {
    assert!(validate_xml_name(&"xs:element".to_string(), None).is_none());
    assert!(validate_xml_name(&"_a-b.c1".to_string(), None).is_none());
    let e = validate_xml_name(&"-x".to_string(), Some(3)).unwrap();
    assert_eq!(e.kind, ErrorKind::InvalidNameStart);
    assert_eq!(e.span, Some(3));
    let e = validate_xml_name(&"a b".to_string(), None).unwrap();
    assert_eq!(e.kind, ErrorKind::InvalidNameChar(' '));
    assert_eq!(e.name, "a b");
}

#[test]
fn check_duplicate_attrs_points_at_the_repetition() {
    let lit_attr = |name: &str, span: usize| Attr::Lit {
        name: name.to_string(),
        name_span: span,
        value: String::new(),
        value_span: 0,
    };
    assert!(check_duplicate_attrs(&vec![lit_attr("a", 1), lit_attr("b", 2)]).is_none());
    let e = check_duplicate_attrs(&vec![lit_attr("a", 1), lit_attr("b", 2), lit_attr("a", 3)]).unwrap();
    assert_eq!(e.kind, ErrorKind::DuplicateAttr);
    assert_eq!(e.name, "a");
    assert_eq!(e.span, Some(3));
}

#[test]
fn bracketed_names_are_trimmed() {
    // The printed text of `[ a:b ]` may carry spaces around the name.
    let program = expand(vec![bracket(vec![], " a:b "), brace(vec![])]).unwrap();
    assert_eq!(program.render(&vec![]).unwrap().into_string(), "<a:b/>");
}

#[test]
fn char_literal_text_is_decoded_and_escaped() {
    // xml! { p { '<' '\u{e9}' } }
    let program = expand(vec![id("p"), brace(vec![lit("'<'"), lit("'\\u{e9}'")])]).unwrap();
    assert_eq!(program.render(&vec![]).unwrap().into_string(), "<p>&lt;\u{e9}</p>");
}

#[test]
fn capacity_is_at_most_the_escaped_output() {
    // xml! { p { "a&b" } }: 5 + 2 for the tags, 3 for the text; escaping
    // makes the output longer.
    let program = expand(vec![id("p"), brace(vec![lit("\"a&b\"")])]).unwrap();
    assert_eq!(program.capacity, 10);
    let out = program.render(&vec![]).unwrap().into_string();
    assert_eq!(out, "<p>a&amp;b</p>");
    assert!(program.capacity <= out.len());
}

#[test]
fn accepted_templates_keep_attribute_names_distinct() {
    // xml! { a(x="1", y="2") { } } is accepted; the names differ.
    let attrs = vec![id("x"), p('='), lit("\"1\""), p(','), id("y"), p('='), lit("\"2\"")];
    let mut parser = Parser::new(vec![id("a"), paren(attrs), brace(vec![])]);
    let nodes = parser.parse_body().unwrap();
    match &nodes[0] {
        Node::Element { attrs, .. } => {
            assert_eq!(attrs.len(), 2);
            assert!(check_duplicate_attrs(attrs).is_none());
        }
        other => panic!("unexpected node {:?}", other),
    }
}

fn run_evals(t: Vec<TokenTree>, evals: Vec<Eval>) -> String {
    expand(t).unwrap().render(&evals).unwrap().into_string()
}

#[test]
fn conditional_attribute_reads_its_condition() {
    // xml! { input(checked? flag) { } }
    let t = || vec![id("input"), paren(vec![id("checked"), p('?'), id("flag")]), brace(vec![])];
    assert_eq!(run_evals(t(), vec![Eval::Cond(true)]), "<input checked=\"true\"/>");
    assert_eq!(run_evals(t(), vec![Eval::Cond(false)]), "<input/>");
    let nodes = Parser::new(t()).parse_body().unwrap();
    match &nodes[0] {
        Node::Element { attrs, .. } => {
            assert_eq!(attrs.len(), 1);
            assert!(matches!(&attrs[0], Attr::CondExpr { name, value, .. } if name == "checked" && value.is_empty()));
        }
        other => panic!("unexpected node {:?}", other),
    }
}

#[test]
fn bare_question_mark_means_always() {
    // xml! { x(a?, b="1") { } }
    let t = vec![id("x"), paren(vec![id("a"), p('?'), p(','), id("b"), p('='), lit("\"1\"")]), brace(vec![])];
    assert_eq!(run_evals(t, vec![]), "<x a=\"true\" b=\"1\"/>");
}

#[test]
fn splice_ends_before_text() {
    // xml! { p { @name "suffix" } }
    let t = vec![id("p"), brace(vec![p('@'), id("name"), lit("\"suffix\"")])];
    assert_eq!(run_evals(t, vec![Eval::Text("N".to_string())]), "<p>Nsuffix</p>");
}

#[test]
fn expression_attribute_is_escaped_once() {
    // xml! { p(title=t) { } }, t == "a & b"
    let t = || vec![id("p"), paren(vec![id("title"), p('='), id("t")]), brace(vec![])];
    let rendered = olav::Render::render("a & b").into_string();
    assert_eq!(run_evals(t(), vec![Eval::Text(rendered)]), "<p title=\"a &amp; b\"/>");
    let rendered = olav::Render::render("\"q\" 'r'").into_string();
    assert_eq!(run_evals(t(), vec![Eval::Text(rendered)]), "<p title=\"&quot;q&quot; &apos;r&apos;\"/>");
}

#[test]
fn capacity_is_a_lower_bound_under_control_flow() {
    // xml! { @if c { "abc" } else { "de" } }: only one branch runs.
    let t = vec![p('@'), id("if"), id("c"), brace(vec![lit("\"abc\"")]), id("else"), brace(vec![lit("\"de\"")])];
    let program = expand(t).unwrap();
    assert_eq!(program.capacity, 2);
    assert_eq!(program.render(&vec![Eval::Cond(false)]).unwrap().into_string(), "de");
    // A loop may run no time at all.
    let t = vec![p('@'), id("for"), id("x"), id("in"), id("xs"), brace(vec![lit("\"abc\"")])];
    let program = expand(t).unwrap();
    assert_eq!(program.capacity, 0);
    assert_eq!(program.render(&vec![Eval::Times(0)]).unwrap().into_string(), "");
}

#[test]
fn bracketed_names_lose_unicode_white_space() {
    let program = expand(vec![bracket(vec![], "\u{3000}\t a:b\u{A0}\n"), brace(vec![])]).unwrap();
    assert_eq!(program.render(&vec![]).unwrap().into_string(), "<a:b/>");
}

#[test]
fn rendered_output_parses_as_xml() {
    // xml! { r(a?, t=v) { "x & y" @v @comment "c" @if c { e { } } } }
    let t = vec![
        id("r"),
        paren(vec![id("a"), p('?'), p(','), id("t"), p('='), id("v")]),
        brace(vec![
            lit("\"x & y\""),
            p('@'),
            id("v"),
            p('@'),
            id("comment"),
            lit("\"c\""),
            p('@'),
            id("if"),
            id("c"),
            brace(vec![id("e"), brace(vec![])]),
        ]),
    ];
    let v = olav::Render::render("<\"q\">").into_string();
    let out = run_evals(t, vec![Eval::Text(v.clone()), Eval::Text(v), Eval::Cond(true)]);
    assert_eq!(
        out,
        "<r a=\"true\" t=\"&lt;&quot;q&quot;&gt;\">x &amp; y&lt;\"q\"&gt;<!--c--><e/></r>"
    );
}
