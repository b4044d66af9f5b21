use olav::escape::{escape_attr, escape_text};

#[test]
fn text_escapes_amp_lt_gt() {
    let mut s = String::new();
    escape_text("a & b < c > d", &mut s);
    assert_eq!(s, "a &amp; b &lt; c &gt; d");
}

#[test]
fn text_keeps_quotes() {
    let mut s = String::new();
    escape_text("\"hello\" 'world'", &mut s);
    assert_eq!(s, "\"hello\" 'world'");
}

#[test]
fn attr_escapes_amp_lt_quot_apos() {
    let mut s = String::new();
    escape_attr("a & b < c \" d ' e", &mut s);
    assert_eq!(s, "a &amp; b &lt; c &quot; d &apos; e");
}

#[test]
fn attr_escapes_control_chars() {
    let mut s = String::new();
    escape_attr("a\x01b", &mut s);
    assert_eq!(s, "a&#x1;b");

    let mut s = String::new();
    escape_attr("\x00", &mut s);
    assert_eq!(s, "&#x0;");
}

#[test]
fn attr_keeps_normal_chars() {
    let mut s = String::new();
    escape_attr("hello world 123 _-+=", &mut s);
    assert_eq!(s, "hello world 123 _-+=");
}

#[test]
fn attr_keeps_tab_lf_cr() {
    let mut s = String::new();
    escape_attr("a\tb\nc\rd", &mut s);
    assert_eq!(s, "a\tb\nc\rd");
}

#[test]
fn text_handles_unicode() {
    let mut s = String::new();
    escape_text("héllo & wörld", &mut s);
    assert_eq!(s, "héllo &amp; wörld");
}

#[test]
fn text_escapes_control_chars() {
    let mut s = String::new();
    escape_text("a\x01b", &mut s);
    assert_eq!(s, "a&#x1;b");

    let mut s = String::new();
    escape_text("\x00", &mut s);
    assert_eq!(s, "&#x0;");
}

#[test]
fn text_keeps_tab_lf_cr() {
    let mut s = String::new();
    escape_text("a\tb\nc\rd", &mut s);
    assert_eq!(s, "a\tb\nc\rd");
}

#[test]
fn attr_handles_unicode() {
    let mut s = String::new();
    escape_attr("\"héllo\"", &mut s);
    assert_eq!(s, "&quot;héllo&quot;");
}

#[test]
fn text_escapes_two_digit_control_chars() {
    let mut s = String::new();
    escape_text("\x1F\x0B\x10", &mut s);
    assert_eq!(s, "&#x1F;&#xB;&#x10;");
}

#[test]
fn escaping_appends_to_existing_content() {
    let mut s = String::from("<p>");
    escape_text("x<y", &mut s);
    escape_attr("'", &mut s);
    assert_eq!(s, "<p>x&lt;y&apos;");
}
