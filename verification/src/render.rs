//! The `Render` trait: anything that can be spliced into a template.
use vstd::prelude::*;

use std::borrow::Cow;
use std::sync::Arc;

use crate::escape::escaped_text;
use crate::markup::Markup;
use crate::pre_escaped::PreEscaped;
use crate::unescape::{is_text_safe, law_escaped_text_is_safe, law_unescape_text, refs_ok, unescape};

verus! {

/// A type that can be rendered as XML markup.
///
/// Templates call `render_to` for every `@expr` splice. Implementors must
/// make sure that what they append is properly escaped for its context: the
/// impls below escape text (`Markup::push_text`) or insert pre-escaped
/// values verbatim (`Markup::push_str`).
pub trait Render {
    /// What `render_to` appends. Every impl of this library says what it
    /// is; an impl written outside it (one that Verus does not check) may
    /// leave it out, and then nothing is known of it.
    closed spec fn rendered(&self) -> Seq<char> {
        vstd::pervasive::arbitrary()
    }

    /// Append the rendered representation of `self` to `buf`.
    fn render_to(&self, buf: &mut Markup)
        ensures
            final(buf)@ == old(buf)@ + self.rendered(),
    ;

    /// Render `self` to a fresh `Markup`.
    #[must_use]
    fn render(&self) -> (m: Markup)
        ensures
            m@ == self.rendered(),
    {
        let mut buf = Markup::new();
        self.render_to(&mut buf);
        assert(buf@ =~= self.rendered());
        buf
    }
}

/// The decimal digit of `d` (`d < 10`).
pub open spec fn decimal_digit(d: nat) -> char {
    (('0' as u32) + d) as char
}

/// Decimal notation of `n`, without leading zeros.
pub open spec fn decimal(n: nat) -> Seq<char>
    decreases n,
{
    if n < 10 {
        seq![decimal_digit(n)]
    } else {
        decimal(n / 10).push(decimal_digit(n % 10))
    }
}

/// Decimal notation of `i`, with a leading `-` when it is negative.
pub open spec fn signed_decimal(i: int) -> Seq<char> {
    if i < 0 {
        seq!['-'] + decimal((-i) as nat)
    } else {
        decimal(i as nat)
    }
}

fn push_decimal(buf: &mut Markup, n: u128)
    ensures
        final(buf)@ == old(buf)@ + decimal(n as nat),
    decreases n,
{
    if n >= 10 {
        push_decimal(buf, n / 10);
    }
    let d: u128 = n % 10;
    let c: char = ((48 + d) as u8) as char;
    buf.push_char(c);
    proof {
        assert(c == decimal_digit(d as nat));
    }
    assert(buf@ =~= old(buf)@ + decimal(n as nat));
}

fn push_signed(buf: &mut Markup, v: i128)
    ensures
        final(buf)@ == old(buf)@ + signed_decimal(v as int),
{
    if v < 0 {
        buf.push_char('-');
        let mag: u128 = ((-(v + 1)) as u128) + 1;
        push_decimal(buf, mag);
        assert(buf@ =~= old(buf)@ + signed_decimal(v as int));
    } else {
        push_decimal(buf, v as u128);
    }
}

impl Render for Markup {
    open spec fn rendered(&self) -> Seq<char> {
        self@
    }

    fn render_to(&self, buf: &mut Markup) {
        buf.push_str(self.as_str());
    }
}

impl Render for str {
    open spec fn rendered(&self) -> Seq<char> {
        escaped_text(self@)
    }

    fn render_to(&self, buf: &mut Markup) {
        buf.push_text(self);
    }
}

impl Render for String {
    open spec fn rendered(&self) -> Seq<char> {
        escaped_text(self@)
    }

    fn render_to(&self, buf: &mut Markup) {
        buf.push_text(self.as_str());
    }
}

impl<'a> Render for Cow<'a, str> {
    open spec fn rendered(&self) -> Seq<char> {
        escaped_text(self@)
    }

    fn render_to(&self, buf: &mut Markup) {
        match self {
            Cow::Borrowed(s) => buf.push_text(s),
            Cow::Owned(s) => buf.push_text(s.as_str()),
        }
    }
}

impl Render for char {
    open spec fn rendered(&self) -> Seq<char> {
        escaped_text(seq![*self])
    }

    fn render_to(&self, buf: &mut Markup) {
        buf.push_text_char(*self);
    }
}

impl Render for bool {
    open spec fn rendered(&self) -> Seq<char> {
        if *self {
            seq!['t', 'r', 'u', 'e']
        } else {
            seq!['f', 'a', 'l', 's', 'e']
        }
    }

    fn render_to(&self, buf: &mut Markup) {
        if *self {
            buf.push_str("true");
            proof { reveal_strlit("true"); }
        } else {
            buf.push_str("false");
            proof { reveal_strlit("false"); }
        }
    }
}

impl Render for u8 {
    open spec fn rendered(&self) -> Seq<char> {
        decimal(*self as nat)
    }

    fn render_to(&self, buf: &mut Markup) {
        push_decimal(buf, *self as u128);
    }
}

impl Render for u16 {
    open spec fn rendered(&self) -> Seq<char> {
        decimal(*self as nat)
    }

    fn render_to(&self, buf: &mut Markup) {
        push_decimal(buf, *self as u128);
    }
}

impl Render for u32 {
    open spec fn rendered(&self) -> Seq<char> {
        decimal(*self as nat)
    }

    fn render_to(&self, buf: &mut Markup) {
        push_decimal(buf, *self as u128);
    }
}

impl Render for u64 {
    open spec fn rendered(&self) -> Seq<char> {
        decimal(*self as nat)
    }

    fn render_to(&self, buf: &mut Markup) {
        push_decimal(buf, *self as u128);
    }
}

impl Render for u128 {
    open spec fn rendered(&self) -> Seq<char> {
        decimal(*self as nat)
    }

    fn render_to(&self, buf: &mut Markup) {
        push_decimal(buf, *self);
    }
}

impl Render for usize {
    open spec fn rendered(&self) -> Seq<char> {
        decimal(*self as nat)
    }

    fn render_to(&self, buf: &mut Markup) {
        push_decimal(buf, *self as u128);
    }
}

impl Render for i8 {
    open spec fn rendered(&self) -> Seq<char> {
        signed_decimal(*self as int)
    }

    fn render_to(&self, buf: &mut Markup) {
        push_signed(buf, *self as i128);
    }
}

impl Render for i16 {
    open spec fn rendered(&self) -> Seq<char> {
        signed_decimal(*self as int)
    }

    fn render_to(&self, buf: &mut Markup) {
        push_signed(buf, *self as i128);
    }
}

impl Render for i32 {
    open spec fn rendered(&self) -> Seq<char> {
        signed_decimal(*self as int)
    }

    fn render_to(&self, buf: &mut Markup) {
        push_signed(buf, *self as i128);
    }
}

impl Render for i64 {
    open spec fn rendered(&self) -> Seq<char> {
        signed_decimal(*self as int)
    }

    fn render_to(&self, buf: &mut Markup) {
        push_signed(buf, *self as i128);
    }
}

impl Render for i128 {
    open spec fn rendered(&self) -> Seq<char> {
        signed_decimal(*self as int)
    }

    fn render_to(&self, buf: &mut Markup) {
        push_signed(buf, *self);
    }
}

impl Render for isize {
    open spec fn rendered(&self) -> Seq<char> {
        signed_decimal(*self as int)
    }

    fn render_to(&self, buf: &mut Markup) {
        push_signed(buf, *self as i128);
    }
}

impl<'a, T: Render + ?Sized> Render for &'a T {
    open spec fn rendered(&self) -> Seq<char> {
        (**self).rendered()
    }

    fn render_to(&self, buf: &mut Markup) {
        (**self).render_to(buf);
    }
}

impl<'a, T: Render + ?Sized> Render for &'a mut T {
    open spec fn rendered(&self) -> Seq<char> {
        (**self).rendered()
    }

    fn render_to(&self, buf: &mut Markup) {
        (**self).render_to(buf);
    }
}

impl<T: Render + ?Sized> Render for Box<T> {
    open spec fn rendered(&self) -> Seq<char> {
        (**self).rendered()
    }

    fn render_to(&self, buf: &mut Markup) {
        (**self).render_to(buf);
    }
}

impl<T: Render + ?Sized> Render for Arc<T> {
    open spec fn rendered(&self) -> Seq<char> {
        (**self).rendered()
    }

    fn render_to(&self, buf: &mut Markup) {
        (**self).render_to(buf);
    }
}

impl<'a> Render for PreEscaped<&'a str> {
    open spec fn rendered(&self) -> Seq<char> {
        self.0@
    }

    fn render_to(&self, buf: &mut Markup) {
        buf.push_str(self.0);
    }
}

impl Render for PreEscaped<String> {
    open spec fn rendered(&self) -> Seq<char> {
        self.0@
    }

    fn render_to(&self, buf: &mut Markup) {
        buf.push_str(self.0.as_str());
    }
}

impl<'a> Render for PreEscaped<&'a String> {
    open spec fn rendered(&self) -> Seq<char> {
        self.0@
    }

    fn render_to(&self, buf: &mut Markup) {
        buf.push_str(self.0.as_str());
    }
}

impl<'a> Render for PreEscaped<Cow<'a, str>> {
    open spec fn rendered(&self) -> Seq<char> {
        self.0@
    }

    fn render_to(&self, buf: &mut Markup) {
        buf.push_str(self.as_str());
    }
}

impl Render for PreEscaped<Box<str>> {
    open spec fn rendered(&self) -> Seq<char> {
        self.0@
    }

    fn render_to(&self, buf: &mut Markup) {
        buf.push_str(self.as_str());
    }
}

impl Render for PreEscaped<Arc<str>> {
    open spec fn rendered(&self) -> Seq<char> {
        self.0@
    }

    fn render_to(&self, buf: &mut Markup) {
        buf.push_str(self.as_str());
    }
}

/// `Some(v)` renders as `v`, `None` as nothing.
impl<T: Render> Render for Option<T> {
    open spec fn rendered(&self) -> Seq<char> {
        match self {
            Some(v) => v.rendered(),
            None => Seq::empty(),
        }
    }

    fn render_to(&self, buf: &mut Markup) {
        match self {
            Some(v) => v.render_to(buf),
            None => {
                assert(buf@ =~= old(buf)@ + self.rendered());
            },
        }
    }
}

/// The renderings of the items of `s`, concatenated in order.
pub open spec fn rendered_all<T: Render>(s: Seq<T>) -> Seq<char>
    decreases s.len(),
{
    if s.len() == 0 {
        Seq::empty()
    } else {
        rendered_all(s.drop_last()) + s.last().rendered()
    }
}

fn render_slice<T: Render>(items: &[T], buf: &mut Markup)
    ensures
        final(buf)@ == old(buf)@ + rendered_all(items@),
{
    let ghost start = buf@;
    let mut i: usize = 0;
    while i < items.len()
        invariant
            i <= items@.len(),
            buf@ == start + rendered_all(items@.take(i as int)),
        decreases items@.len() - i,
    {
        items[i].render_to(buf);
        proof {
            assert(items@.take(i + 1).drop_last() =~= items@.take(i as int));
        }
        i = i + 1;
        assert(buf@ =~= start + rendered_all(items@.take(i as int)));
    }
    assert(items@.take(items@.len() as int) =~= items@);
}

/// A vector renders each element in order, concatenated.
impl<T: Render> Render for Vec<T> {
    open spec fn rendered(&self) -> Seq<char> {
        rendered_all(self@)
    }

    fn render_to(&self, buf: &mut Markup) {
        render_slice(self.as_slice(), buf);
    }
}

/// A slice renders each element in order, concatenated.
impl<T: Render> Render for [T] {
    open spec fn rendered(&self) -> Seq<char> {
        rendered_all(self@)
    }

    fn render_to(&self, buf: &mut Markup) {
        render_slice(self, buf);
    }
}

/// An array renders each element in order, concatenated.
impl<T: Render, const N: usize> Render for [T; N] {
    open spec fn rendered(&self) -> Seq<char> {
        rendered_all(self@)
    }

    fn render_to(&self, buf: &mut Markup) {
        render_slice(self.as_slice(), buf);
    }
}

// ==================== What values render as ====================

/// Whether `t` is safe as text content: no `<` or `>` (nor a control
/// character that XML forbids), and every `&` starts a reference.
pub open spec fn is_safe_text(t: Seq<char>) -> bool {
    &&& forall|i: int| 0 <= i < t.len() ==> is_text_safe(#[trigger] t[i])
    &&& refs_ok(t)
}

/// Text renders escaped: its rendering is safe text content, and reading
/// that back gives the text itself, for string slices, strings,
/// copy-on-write strings and characters.
pub proof fn law_text_renders_escaped(a: &str, b: String, c: char, d: Cow<str>)
    ensures
        is_safe_text(a.rendered()),
        unescape(a.rendered()) == a@,
        is_safe_text(b.rendered()),
        unescape(b.rendered()) == b@,
        is_safe_text(c.rendered()),
        unescape(c.rendered()) == seq![c],
        is_safe_text(d.rendered()),
        unescape(d.rendered()) == d@,
{
    law_escaped_text_is_safe(a@);
    law_unescape_text(a@);
    law_escaped_text_is_safe(b@);
    law_unescape_text(b@);
    law_escaped_text_is_safe(seq![c]);
    law_unescape_text(seq![c]);
    law_escaped_text_is_safe(d@);
    law_unescape_text(d@);
}

/// Pre-escaped strings and markup render verbatim.
pub proof fn law_pre_escaped_renders_verbatim(
    a: PreEscaped<&str>,
    b: PreEscaped<String>,
    c: PreEscaped<Cow<str>>,
    d: PreEscaped<Box<str>>,
    e: PreEscaped<Arc<str>>,
    m: Markup,
)
    ensures
        a.rendered() == a.0@,
        b.rendered() == b.0@,
        c.rendered() == c.0@,
        d.rendered() == d.0@,
        e.rendered() == e.0@,
        m.rendered() == m@,
{
}

/// `true` and `false` render as those words.
pub proof fn law_bools_render_as_words(b: bool)
    ensures
        b.rendered() == (if b {
            seq!['t', 'r', 'u', 'e']
        } else {
            seq!['f', 'a', 'l', 's', 'e']
        }),
{
}

/// `Some(v)` renders as `v` does, `None` as nothing.
pub proof fn law_options_render_their_value<T: Render>(v: T)
    ensures
        Some(v).rendered() == v.rendered(),
        Option::<T>::None.rendered() == Seq::<char>::empty(),
{
}

/// A sequence renders its items in order: an empty one as nothing, and one
/// more item at the end adds that item's rendering at the end.
pub proof fn law_sequences_render_items_in_order<T: Render>(v: Vec<T>, w: Vec<T>, x: T)
    ensures
        v@.len() == 0 ==> v.rendered() == Seq::<char>::empty(),
        v@ == w@.push(x) ==> v.rendered() == w.rendered() + x.rendered(),
{
    if v@ == w@.push(x) {
        assert(v@.drop_last() =~= w@);
    }
}

// ==================== Decimal notation ====================

/// Whether `c` is one of the digits `0` to `9`.
pub open spec fn is_decimal_digit(c: char) -> bool {
    0x30 <= (c as u32) && (c as u32) <= 0x39
}

/// The number that a string of decimal digits stands for.
pub open spec fn digits_value(s: Seq<char>) -> int
    decreases s.len(),
{
    if s.len() == 0 {
        0
    } else {
        digits_value(s.drop_last()) * 10 + ((s.last() as u32) - 0x30)
    }
}

/// `s` is the decimal notation of `v`: a `-` exactly when `v` is negative,
/// then one digit or more, with no leading zero unless the digits are just
/// `0`, standing for the magnitude of `v`.
pub open spec fn is_decimal_notation(s: Seq<char>, v: int) -> bool {
    let neg = s.len() > 0 && s[0] == '-';
    let d = if neg {
        s.drop_first()
    } else {
        s
    };
    &&& neg <==> v < 0
    &&& d.len() > 0
    &&& forall|i: int| 0 <= i < d.len() ==> is_decimal_digit(#[trigger] d[i])
    &&& (d[0] == '0' ==> d.len() == 1)
    &&& digits_value(d) == if v < 0 {
        -v
    } else {
        v
    }
}

proof fn lemma_decimal_digits(n: nat)
    ensures
        decimal(n).len() > 0,
        forall|i: int| 0 <= i < decimal(n).len() ==> is_decimal_digit(#[trigger] decimal(n)[i]),
        n > 0 ==> decimal(n)[0] != '0',
        n == 0 ==> decimal(n).len() == 1,
        digits_value(decimal(n)) == n,
    decreases n,
{
    if n < 10 {
        let c = decimal_digit(n);
        assert(c as u32 == 0x30 + n);
        assert(seq![c].drop_last() =~= Seq::<char>::empty());
        assert(decimal(n) == seq![c]);
        assert(digits_value(seq![c]) == digits_value(Seq::<char>::empty()) * 10 + ((c as u32) - 0x30));
    } else {
        lemma_decimal_digits(n / 10);
        let c = decimal_digit(n % 10);
        assert(c as u32 == 0x30 + n % 10);
        let s = decimal(n / 10).push(c);
        assert(s.drop_last() =~= decimal(n / 10));
        assert forall|i: int| 0 <= i < s.len() implies is_decimal_digit(#[trigger] s[i]) by {
            if i < s.len() - 1 {
                assert(s[i] == decimal(n / 10)[i]);
            }
        }
        assert(s[0] == decimal(n / 10)[0]);
        assert(s.last() == c);
        assert(digits_value(s) == digits_value(decimal(n / 10)) * 10 + ((c as u32) - 0x30));
        assert((n / 10) * 10 + n % 10 == n);
    }
}

proof fn lemma_signed_decimal_notation(v: int)
    ensures
        is_decimal_notation(signed_decimal(v), v),
{
    if v < 0 {
        let m = (-v) as nat;
        lemma_decimal_digits(m);
        let s = signed_decimal(v);
        assert(s.drop_first() =~= decimal(m));
    } else {
        lemma_decimal_digits(v as nat);
        let d = decimal(v as nat);
        assert(is_decimal_digit(d[0]));
        assert(d[0] != '-');
    }
}

/// Every integer renders as its decimal notation: a `-` exactly when it is
/// negative, then its magnitude in decimal digits without leading zeros.
pub proof fn law_integers_render_in_decimal(
    a: i8,
    b: i16,
    c: i32,
    d: i64,
    e: i128,
    f: isize,
    g: u8,
    h: u16,
    i: u32,
    j: u64,
    k: u128,
    l: usize,
)
    ensures
        is_decimal_notation(a.rendered(), a as int),
        is_decimal_notation(b.rendered(), b as int),
        is_decimal_notation(c.rendered(), c as int),
        is_decimal_notation(d.rendered(), d as int),
        is_decimal_notation(e.rendered(), e as int),
        is_decimal_notation(f.rendered(), f as int),
        is_decimal_notation(g.rendered(), g as int),
        is_decimal_notation(h.rendered(), h as int),
        is_decimal_notation(i.rendered(), i as int),
        is_decimal_notation(j.rendered(), j as int),
        is_decimal_notation(k.rendered(), k as int),
        is_decimal_notation(l.rendered(), l as int),
{
    lemma_signed_decimal_notation(a as int);
    lemma_signed_decimal_notation(b as int);
    lemma_signed_decimal_notation(c as int);
    lemma_signed_decimal_notation(d as int);
    lemma_signed_decimal_notation(e as int);
    lemma_signed_decimal_notation(f as int);
    lemma_signed_decimal_notation(g as int);
    lemma_signed_decimal_notation(h as int);
    lemma_signed_decimal_notation(i as int);
    lemma_signed_decimal_notation(j as int);
    lemma_signed_decimal_notation(k as int);
    lemma_signed_decimal_notation(l as int);
}

} // verus!
