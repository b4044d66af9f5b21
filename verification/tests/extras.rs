use olav::{expand, Delimiter, Eval, Render, TokenTree};

fn id(name: &str) -> TokenTree {
    TokenTree::Ident { name: name.to_string(), span: 0 }
}

fn p(ch: char) -> TokenTree {
    TokenTree::Punct { ch, joint: false, span: 0 }
}

fn lit(text: &str) -> TokenTree {
    TokenTree::Literal { text: text.to_string(), span: 0 }
}

fn group(delimiter: Delimiter, stream: Vec<TokenTree>, stream_text: &str) -> TokenTree {
    let (open, close) = match delimiter {
        Delimiter::Parenthesis => ("(", ")"),
        Delimiter::Brace => ("{ ", " }"),
        Delimiter::Bracket => ("[", "]"),
        Delimiter::Invisible => ("", ""),
    };
    TokenTree::Group {
        delimiter,
        stream,
        text: format!("{}{}{}", open, stream_text, close),
        stream_text: stream_text.to_string(),
        span: 0,
    }
}

fn brace(stream: Vec<TokenTree>) -> TokenTree {
    group(Delimiter::Brace, stream, "")
}

fn paren(stream: Vec<TokenTree>) -> TokenTree {
    group(Delimiter::Parenthesis, stream, "")
}

fn bracket(stream: Vec<TokenTree>, printed: &str) -> TokenTree {
    group(Delimiter::Bracket, stream, printed)
}

/// Expands the template and runs the generated code with the given splice
/// values.
fn render(tokens: Vec<TokenTree>, values: Vec<String>) -> String {
    let program = expand(tokens).unwrap();
    let evals: Vec<Eval> = values.into_iter().map(Eval::Text).collect();
    program.render(&evals).unwrap().into_string()
}

#[test]
fn cyrillic_bare_ident_element() {
    // xml! { книга { "текст" } }
    let m = render(vec![id("книга"), brace(vec![lit("\"текст\"")])], vec![]);
    assert_eq!(m.as_str(), "<книга>текст</книга>");
}

#[test]
fn cyrillic_nested() {
    // xml! { библиотека { книга(id="1") { "Война и мир" } книга(id="2") { "Анна Каренина" } } }
    let m = render(
        vec![
            id("библиотека"),
            brace(vec![
                id("книга"),
                paren(vec![id("id"), p('='), lit("\"1\"")]),
                brace(vec![lit("\"Война и мир\"")]),
                id("книга"),
                paren(vec![id("id"), p('='), lit("\"2\"")]),
                brace(vec![lit("\"Анна Каренина\"")]),
            ]),
        ],
        vec![],
    );
    assert_eq!(
        m.as_str(),
        "<библиотека><книга id=\"1\">Война и мир</книга><книга id=\"2\">Анна Каренина</книга></библиотека>"
    );
}

#[test]
fn cyrillic_self_closing() {
    // xml! { страница { } }
    let m = render(vec![id("страница"), brace(vec![])], vec![]);
    assert_eq!(m.as_str(), "<страница/>");
}

#[test]
fn cyrillic_with_attrs_and_text() {
    // let автор = "Толстой"; xml! { книга(язык="ru", автор=автор) { "Содержание" } }
    let author = "Толстой";
    let m = render(
        vec![
            id("книга"),
            paren(vec![id("язык"), p('='), lit("\"ru\""), p(','), id("автор"), p('='), id("автор")]),
            brace(vec![lit("\"Содержание\"")]),
        ],
        vec![Render::render(&author).into_string()],
    );
    assert_eq!(m.as_str(), "<книга язык=\"ru\" автор=\"Толстой\">Содержание</книга>");
}

#[test]
fn cyrillic_with_brackets() {
    // xml! { [документ:книга] { "x" } }
    let m = render(
        vec![bracket(vec![id("документ"), p(':'), id("книга")], "документ:книга"), brace(vec![lit("\"x\"")])],
        vec![],
    );
    assert_eq!(m.as_str(), "<документ:книга>x</документ:книга>");
}

#[test]
fn xml_standalone_attr() {
    // xml! { ?xml version="1.0" encoding="UTF-8" standalone="yes" root { } }
    let m = render(
        vec![
            p('?'),
            id("xml"),
            id("version"),
            p('='),
            lit("\"1.0\""),
            id("encoding"),
            p('='),
            lit("\"UTF-8\""),
            id("standalone"),
            p('='),
            lit("\"yes\""),
            id("root"),
            brace(vec![]),
        ],
        vec![],
    );
    let s = m.as_str();
    assert!(s.starts_with("<?xml version=\"1.0\" encoding=\"UTF-8\" standalone=\"yes\"?>"));
    assert!(s.ends_with("<root/>"));
}

#[test]
fn doctype_with_internal_subset_entity() {
    // xml! { !DOCTYPE root [ <!ENTITY author "John Doe"> <!ENTITY year "2024"> ] root { } }
    let subset = bracket(
        vec![
            p('<'),
            p('!'),
            id("ENTITY"),
            id("author"),
            lit("\"John Doe\""),
            p('>'),
            p('<'),
            p('!'),
            id("ENTITY"),
            id("year"),
            lit("\"2024\""),
            p('>'),
        ],
        "<!ENTITY author \"John Doe\"> <!ENTITY year \"2024\">",
    );
    let m = render(vec![p('!'), id("DOCTYPE"), id("root"), subset, id("root"), brace(vec![])], vec![]);
    let s = m.as_str();
    assert!(s.starts_with("<!DOCTYPE root [<!ENTITY author \"John Doe\">"));
    assert!(s.contains("<!ENTITY year \"2024\">"));
    assert!(s.ends_with("]><root/>"));
}

#[test]
fn doctype_with_internal_subset_element() {
    // xml! { !DOCTYPE root [ <!ELEMENT root (#PCDATA)> <!ELEMENT child EMPTY> ] root { "x" } }
    let subset = bracket(
        vec![
            p('<'),
            p('!'),
            id("ELEMENT"),
            id("root"),
            paren(vec![p('#'), id("PCDATA")]),
            p('>'),
            p('<'),
            p('!'),
            id("ELEMENT"),
            id("child"),
            id("EMPTY"),
            p('>'),
        ],
        "<!ELEMENT root (#PCDATA)> <!ELEMENT child EMPTY>",
    );
    let m = render(vec![p('!'), id("DOCTYPE"), id("root"), subset, id("root"), brace(vec![lit("\"x\"")])], vec![]);
    let s = m.as_str();
    assert!(s.contains("<!ELEMENT root"));
    assert!(s.contains("(#PCDATA)>"));
    assert!(s.contains("<!ELEMENT child EMPTY>"));
    assert!(s.ends_with("]><root>x</root>"));
}

#[test]
fn doctype_with_internal_subset_and_external() {
    // xml! { !DOCTYPE html PUBLIC "-//W3C//DTD XHTML 1.0 Strict//EN" "xhtml1.dtd" [ <!ENTITY copy "©"> ] html { } }
    let subset = bracket(
        vec![p('<'), p('!'), id("ENTITY"), id("copy"), lit("\"©\""), p('>')],
        "<!ENTITY copy \"©\">",
    );
    let m = render(
        vec![
            p('!'),
            id("DOCTYPE"),
            id("html"),
            id("PUBLIC"),
            lit("\"-//W3C//DTD XHTML 1.0 Strict//EN\""),
            lit("\"xhtml1.dtd\""),
            subset,
            id("html"),
            brace(vec![]),
        ],
        vec![],
    );
    let s = m.as_str();
    assert!(s.starts_with("<!DOCTYPE html PUBLIC \"-//W3C//DTD XHTML 1.0 Strict//EN\" \"xhtml1.dtd\""));
    assert!(s.contains("<!ENTITY copy \"©\">"));
    assert!(s.contains("]><html/>"));
}

#[test]
fn element_name_with_dashes() {
    // xml! { [my-element] { "x" } }
    let m = render(
        vec![bracket(vec![id("my"), p('-'), id("element")], "my-element"), brace(vec![lit("\"x\"")])],
        vec![],
    );
    assert_eq!(m.as_str(), "<my-element>x</my-element>");
}

#[test]
fn attributes_with_special_chars() {
    // xml! { root([xlink:href]="https://example.com", [data-x]="42", [xml:lang]="en") { "x" } }
    let m = render(
        vec![
            id("root"),
            paren(vec![
                bracket(vec![id("xlink"), p(':'), id("href")], "xlink:href"),
                p('='),
                lit("\"https://example.com\""),
                p(','),
                bracket(vec![id("data"), p('-'), id("x")], "data-x"),
                p('='),
                lit("\"42\""),
                p(','),
                bracket(vec![id("xml"), p(':'), id("lang")], "xml:lang"),
                p('='),
                lit("\"en\""),
            ]),
            brace(vec![lit("\"x\"")]),
        ],
        vec![],
    );
    let s = m.as_str();
    assert!(s.contains("xlink:href=\"https://example.com\""));
    assert!(s.contains("data-x=\"42\""));
    assert!(s.contains("xml:lang=\"en\""));
}

/// Expands the template and runs the generated code, given the values that
/// Rust computes for its expressions, in order.
fn run(tokens: Vec<TokenTree>, evals: Vec<Eval>) -> String {
    expand(tokens).unwrap().render(&evals).unwrap().into_string()
}

#[test]
fn cyrillic_full_document_example_from_readme() {
    // Example from the README, a Cyrillic-named XML document:
    // xml! {
    //     ?xml version="1.0" encoding="UTF-8"
    //     каталог {
    //         книга(id="1", автор=автор, год=год) { название { "Война и мир" } жанр { "роман" } }
    //         книга(id="2", автор=автор, год=год) { название { "Анна Каренина" } жанр { "роман" } }
    //         @for жанр in &["роман", "повесть", "рассказ"] { метка { @жанр } }
    //     }
    // }
    let author = "Лев Толстой";
    let year: i32 = 2026;
    let book = |n: &str, title: &str| {
        vec![
            id("книга"),
            paren(vec![
                id("id"),
                p('='),
                lit(&format!("\"{}\"", n)),
                p(','),
                id("автор"),
                p('='),
                id("автор"),
                p(','),
                id("год"),
                p('='),
                id("год"),
            ]),
            brace(vec![
                id("название"),
                brace(vec![lit(&format!("\"{}\"", title))]),
                id("жанр"),
                brace(vec![lit("\"роман\"")]),
            ]),
        ]
    };
    let genres = ["роман", "повесть", "рассказ"];
    let mut body = book("1", "Война и мир");
    body.extend(book("2", "Анна Каренина"));
    body.extend(vec![
        p('@'),
        id("for"),
        id("жанр"),
        id("in"),
        p('&'),
        bracket(vec![lit("\"роман\""), p(','), lit("\"повесть\""), p(','), lit("\"рассказ\"")], "\"роман\", \"повесть\", \"рассказ\""),
        brace(vec![id("метка"), brace(vec![p('@'), id("жанр")])]),
    ]);
    let t = vec![
        p('?'),
        id("xml"),
        id("version"),
        p('='),
        lit("\"1.0\""),
        id("encoding"),
        p('='),
        lit("\"UTF-8\""),
        id("каталог"),
        brace(body),
    ];
    let mut evals = Vec::new();
    for _ in 0..2 {
        evals.push(Eval::Text(Render::render(&author).into_string()));
        evals.push(Eval::Text(Render::render(&year).into_string()));
    }
    evals.push(Eval::Times(genres.len()));
    for g in &genres {
        evals.push(Eval::Text(Render::render(g).into_string()));
    }
    let s = run(t, evals);
    assert!(s.contains("<каталог>"));
    assert!(s.contains("Война и мир"));
    assert!(s.contains("Анна Каренина"));
    assert!(s.contains("Лев Толстой"));
    assert!(s.contains("метка"));
}
