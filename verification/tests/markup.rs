use olav::Markup;

#[test]
fn new_and_into_string() {
    let m = Markup::new();
    assert_eq!(m.into_string(), "");
}

#[test]
fn push_str_is_raw() {
    let mut m = Markup::new();
    m.push_str("<raw>");
    assert_eq!(m.as_str(), "<raw>");
}

#[test]
fn push_text_escapes() {
    let mut m = Markup::new();
    m.push_text("a & b < c > d");
    assert_eq!(m.as_str(), "a &amp; b &lt; c &gt; d");
}

#[test]
fn push_attr_escapes_value() {
    let mut m = Markup::new();
    m.push_attr("href", "a & b");
    assert_eq!(m.as_str(), " href=\"a &amp; b\"");
}

#[test]
fn push_self_closing_works() {
    let mut m = Markup::new();
    m.push_self_closing("br");
    assert_eq!(m.as_str(), "<br/>");
}

#[test]
fn display_yields_underlying_string() {
    let m = Markup::from("<root/>".to_string());
    assert_eq!(m.as_str().to_string(), "<root/>");
}

#[test]
fn deref_to_str() {
    let m = Markup::from("hello".to_string());
    assert_eq!(&*m, "hello");
    assert!(m.starts_with("he"));
}

#[test]
fn render_to_fmt_works() {
    let m = Markup::from("<a/>".to_string());
    let mut out = String::new();
    m.render_to_fmt(&mut out).unwrap();
    assert_eq!(out, "<a/>");
}

#[test]
fn with_capacity_is_empty() {
    let m = Markup::with_capacity(1024);
    assert_eq!(m.as_str(), "");
}

#[test]
fn push_attr_escapes_quotes_and_keeps_name() {
    let mut m = Markup::new();
    m.push_attr("href", "https://example.com/?a=1&b=2");
    m.push_attr("title", "say \"hi\"");
    assert_eq!(
        m.as_str(),
        " href=\"https://example.com/?a=1&amp;b=2\" title=\"say &quot;hi&quot;\""
    );
}

#[test]
fn from_str_slice_and_default() {
    let m = Markup::from("<x/>");
    assert_eq!(m.as_str(), "<x/>");
    let d = Markup::default();
    assert_eq!(d.as_str(), "");
}
