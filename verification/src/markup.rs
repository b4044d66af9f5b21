//! `Markup`: a string of XML that needs no further escaping.
use vstd::prelude::*;

use crate::escape::{escape_attr, escape_quotes, escape_text, escaped_attr, escaped_quotes, escaped_text};

verus! {

/// A block of XML markup that does not need to be escaped.
///
/// `Markup` is a `String` whose content was produced by the escaping
/// operations below, by a template, or by an explicit raw insertion.
#[derive(Debug, Clone, Eq, PartialEq, Hash)]
pub struct Markup(pub(crate) String);

impl View for Markup {
    type V = Seq<char>;

    closed spec fn view(&self) -> Seq<char> {
        self.0@
    }
}

/// ` name="value"`, the value escaped for attribute context.
pub open spec fn attr_text(name: Seq<char>, value: Seq<char>) -> Seq<char> {
    seq![' '] + name + seq!['=', '"'] + escaped_attr(value) + seq!['"']
}

/// ` name="value"` for a value that is already markup (what a `Render`
/// impl wrote): only its quotes are escaped, so that it is escaped once.
pub open spec fn attr_rendered_text(name: Seq<char>, value: Seq<char>) -> Seq<char> {
    seq![' '] + name + seq!['=', '"'] + escaped_quotes(value) + seq!['"']
}

/// `<name/>`.
pub open spec fn self_closing_text(name: Seq<char>) -> Seq<char> {
    seq!['<'] + name + seq!['/', '>']
}

impl Markup {
    /// Create an empty `Markup`.
    pub fn new() -> (m: Self)
        ensures
            m@ == Seq::<char>::empty(),
    {
        Markup(String::new())
    }

    /// Create an empty `Markup` with the given capacity hint.
    pub fn with_capacity(n: usize) -> (m: Self)
        ensures
            m@ == Seq::<char>::empty(),
    {
        Markup(String::with_capacity(n))
    }

    /// Consume and return the underlying `String`.
    pub fn into_string(self) -> (s: String)
        ensures
            s@ == self@,
    {
        self.0
    }

    /// Borrow the markup as a string slice.
    pub fn as_str(&self) -> (s: &str)
        ensures
            s@ == self@,
    {
        self.0.as_str()
    }

    /// Append a raw, pre-escaped string. The caller is responsible for the
    /// string not breaking the XML.
    pub fn push_str(&mut self, s: &str)
        ensures
            final(self)@ == old(self)@ + s@,
    {
        self.0.push_str(s);
    }

    /// Append text content, escaping `& < >` and forbidden control characters.
    pub fn push_text(&mut self, s: &str)
        ensures
            final(self)@ == old(self)@ + escaped_text(s@),
    {
        escape_text(s, &mut self.0);
    }

    /// Append one character, unescaped.
    pub(crate) fn push_char(&mut self, c: char)
        ensures
            final(self)@ == old(self)@.push(c),
    {
        self.0.push(c);
    }

    /// Append one character of text content, escaped as `push_text` does.
    pub(crate) fn push_text_char(&mut self, c: char)
        ensures
            final(self)@ == old(self)@ + escaped_text(seq![c]),
    {
        let ghost start = self@;
        crate::escape::escape_text_char_to(c, &mut self.0);
        proof {
            crate::escape::lemma_escaped_text_single(c);
        }
        assert(self@ =~= start + escaped_text(seq![c]));
    }

    /// Append an attribute, in the form ` name="value"`, escaping the value
    /// for attribute context. The name is copied as it is.
    pub fn push_attr(&mut self, name: &str, value: &str)
        ensures
            final(self)@ == old(self)@ + attr_text(name@, value@),
    {
        let ghost start = self@;
        self.0.push(' ');
        self.0.push_str(name);
        self.0.push('=');
        self.0.push('"');
        escape_attr(value, &mut self.0);
        self.0.push('"');
        assert(self@ =~= start + attr_text(name@, value@));
    }

    /// Append an attribute whose value is already markup, as a `Render` impl
    /// writes it, in the form ` name="value"`: only the quotes of the value
    /// are escaped, so that a rendered value is escaped once, for attribute
    /// context. The name is copied as it is.
    pub fn push_attr_rendered(&mut self, name: &str, value: &str)
        ensures
            final(self)@ == old(self)@ + attr_rendered_text(name@, value@),
    {
        let ghost start = self@;
        self.0.push(' ');
        self.0.push_str(name);
        self.0.push('=');
        self.0.push('"');
        escape_quotes(value, &mut self.0);
        self.0.push('"');
        assert(self@ =~= start + attr_rendered_text(name@, value@));
    }

    /// Append a self-closing tag: `<name/>`.
    pub fn push_self_closing(&mut self, name: &str)
        ensures
            final(self)@ == old(self)@ + self_closing_text(name@),
    {
        let ghost start = self@;
        self.0.push('<');
        self.0.push_str(name);
        self.0.push('/');
        self.0.push('>');
        assert(self@ =~= start + self_closing_text(name@));
    }

    /// Write the markup into a `String` sink. Writing into a `String` never
    /// fails.
    pub fn render_to_fmt(&self, w: &mut String) -> (r: Result<(), std::fmt::Error>)
        ensures
            r is Ok,
            final(w)@ == old(w)@ + self@,
    {
        w.push_str(self.0.as_str());
        Ok(())
    }
}

impl Default for Markup {
    fn default() -> (m: Self)
        ensures
            m@ == Seq::<char>::empty(),
    {
        Markup::new()
    }
}

impl std::ops::Deref for Markup {
    type Target = str;

    fn deref(&self) -> (r: &str)
        ensures
            r@ == self@,
    {
        self.0.as_str()
    }
}

/// Wrap an arbitrary string as pre-escaped markup. The string is inserted
/// verbatim: only use it for strings known to be well-formed XML.
impl From<String> for Markup {
    fn from(s: String) -> (m: Self)
        ensures
            m@ == s@,
    {
        Markup(s)
    }
}

impl vstd::std_specs::convert::FromSpecImpl<String> for Markup {
    open spec fn obeys_from_spec() -> bool {
        true
    }

    closed spec fn from_spec(s: String) -> Self {
        Markup(s)
    }
}

impl From<&str> for Markup {
    fn from(s: &str) -> (m: Self)
        ensures
            m@ == s@,
    {
        Markup(s.to_owned())
    }
}

/// The conversion from `&str` is described by the `ensures` of `from` (the
/// view of the result is the view of the string), not by a spec function.
impl vstd::std_specs::convert::FromSpecImpl<&str> for Markup {
    open spec fn obeys_from_spec() -> bool {
        false
    }

    closed spec fn from_spec(s: &str) -> Self {
        vstd::pervasive::arbitrary()
    }
}

} // verus!
