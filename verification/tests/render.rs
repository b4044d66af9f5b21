use olav::{Markup, PreEscaped, Render};
use std::borrow::Cow;
use std::sync::Arc;

#[test]
fn markup_renders_raw() {
    let m = Markup::from("<a/>".to_string());
    let mut buf = Markup::new();
    m.render_to(&mut buf);
    assert_eq!(buf.as_str(), "<a/>");
}

#[test]
fn str_escapes() {
    let mut buf = Markup::new();
    "a & b".render_to(&mut buf);
    assert_eq!(buf.as_str(), "a &amp; b");
}

#[test]
fn string_escapes() {
    let mut buf = Markup::new();
    String::from("a < b").render_to(&mut buf);
    assert_eq!(buf.as_str(), "a &lt; b");
}

#[test]
fn cow_escapes() {
    let mut buf = Markup::new();
    Cow::Borrowed("a & b").render_to(&mut buf);
    assert_eq!(buf.as_str(), "a &amp; b");
}

#[test]
fn char_escapes() {
    let mut buf = Markup::new();
    '<'.render_to(&mut buf);
    assert_eq!(buf.as_str(), "&lt;");
}

#[test]
fn bool_renders_true_false() {
    let mut buf = Markup::new();
    true.render_to(&mut buf);
    assert_eq!(buf.as_str(), "true");

    let mut buf = Markup::new();
    false.render_to(&mut buf);
    assert_eq!(buf.as_str(), "false");
}

#[test]
fn ref_delegates() {
    let s = String::from("a & b");
    let mut buf = Markup::new();
    s.render_to(&mut buf);
    assert_eq!(buf.as_str(), "a &amp; b");
}

#[test]
fn box_delegates() {
    let s = String::from("a & b");
    let b: Box<String> = Box::new(s);
    let mut buf = Markup::new();
    b.render_to(&mut buf);
    assert_eq!(buf.as_str(), "a &amp; b");
}

#[test]
fn arc_delegates() {
    let s = String::from("a & b");
    let a: Arc<String> = Arc::new(s);
    let mut buf = Markup::new();
    a.render_to(&mut buf);
    assert_eq!(buf.as_str(), "a &amp; b");
}

#[test]
fn pre_escaped_inserts_raw() {
    let pe = PreEscaped("<b>raw</b>");
    let mut buf = Markup::new();
    pe.render_to(&mut buf);
    assert_eq!(buf.as_str(), "<b>raw</b>");
}

#[test]
fn render_returns_markup() {
    let m = "a & b".render();
    assert_eq!(m.as_str(), "a &amp; b");
}

#[test]
fn integers_render_in_decimal() {
    assert_eq!(42i32.render().as_str(), "42");
    assert_eq!((-7i64).render().as_str(), "-7");
    assert_eq!(0u8.render().as_str(), "0");
    assert_eq!(i128::MIN.render().as_str(), "-170141183460469231731687303715884105728");
    assert_eq!(u128::MAX.render().as_str(), "340282366920938463463374607431768211455");
    assert_eq!(usize::MAX.render().as_str(), usize::MAX.to_string());
    assert_eq!((-1isize).render().as_str(), "-1");
}

#[test]
fn option_renders_inner_or_nothing() {
    assert_eq!(Some(7i32).render().as_str(), "7");
    let none: Option<i32> = None;
    assert_eq!(none.render().as_str(), "");
    assert_eq!(Some("a & b").render().as_str(), "a &amp; b");
}

#[test]
fn sequences_render_in_order() {
    let v = vec!["a", "<", "c"];
    assert_eq!(v.render().as_str(), "a&lt;c");
    let arr = [1, 2, 3];
    assert_eq!(arr.render().as_str(), "123");
    let slice: &[i32] = &[4, 5];
    assert_eq!(slice.render().as_str(), "45");
    let empty: Vec<i32> = Vec::new();
    assert_eq!(empty.render().as_str(), "");
}

#[test]
fn pre_escaped_new_and_as_str() {
    let pe = PreEscaped::new("<raw>");
    assert_eq!(pe.as_str(), "<raw>");
    let owned = PreEscaped::new(String::from("a & b"));
    assert_eq!(owned.as_str(), "a & b");
    assert_eq!(owned.render().as_str(), "a & b");
}

#[test]
fn render_to_appends() {
    let mut buf = Markup::from("x=");
    (-12i16).render_to(&mut buf);
    ' '.render_to(&mut buf);
    "&".render_to(&mut buf);
    assert_eq!(buf.as_str(), "x=-12 &amp;");
}

#[test]
fn mut_ref_delegates() {
    let mut s = String::from("x < y");
    let r: &mut String = &mut s;
    let mut buf = Markup::new();
    Render::render_to(&r, &mut buf);
    assert_eq!(buf.as_str(), "x &lt; y");
}

#[test]
fn shared_ref_delegates() {
    let s: &str = "a > b";
    let mut buf = Markup::new();
    Render::render_to(&s, &mut buf);
    assert_eq!(buf.as_str(), "a &gt; b");
}

#[test]
fn pre_escaped_as_ref_is_the_wrapped_string() {
    let pe = PreEscaped::new("<raw>");
    let r: &str = pe.as_ref();
    assert_eq!(r, "<raw>");
    let owned = PreEscaped::new(String::from("<b>x</b>"));
    let r: &str = owned.as_ref();
    assert_eq!(r, "<b>x</b>");
}

#[test]
fn pre_escaped_other_string_types_render_verbatim() {
    let s = String::from("<i>a & b</i>");
    let by_ref = PreEscaped::new(&s);
    assert_eq!(by_ref.as_str(), "<i>a & b</i>");
    assert_eq!(by_ref.render().as_str(), "<i>a & b</i>");

    let borrowed: PreEscaped<Cow<str>> = PreEscaped::new(Cow::Borrowed("<x/>"));
    assert_eq!(borrowed.as_str(), "<x/>");
    assert_eq!(borrowed.render().as_str(), "<x/>");
    let owned: PreEscaped<Cow<str>> = PreEscaped::new(Cow::Owned(String::from("&amp;")));
    assert_eq!(owned.render().as_str(), "&amp;");

    let boxed: PreEscaped<Box<str>> = PreEscaped::new(Box::from("<b/>"));
    assert_eq!(boxed.as_str(), "<b/>");
    assert_eq!(boxed.render().as_str(), "<b/>");

    let shared: PreEscaped<Arc<str>> = PreEscaped::new(Arc::from("<c>"));
    let r: &str = shared.as_ref();
    assert_eq!(r, "<c>");
    assert_eq!(shared.render().as_str(), "<c>");
}
