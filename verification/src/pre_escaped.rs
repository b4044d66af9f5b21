//! `PreEscaped`: a string that is inserted into markup without escaping.
use vstd::prelude::*;

use std::borrow::Cow;
use std::sync::Arc;

verus! {

/// A wrapper that renders its inner value **without** escaping.
///
/// Use it to splice pre-escaped or pre-built markup into a template: `&`,
/// `<` and `>` are not re-escaped.
pub struct PreEscaped<T>(pub T);

impl<T> PreEscaped<T> {
    /// Wrap a value so it renders without escaping.
    pub fn new(value: T) -> (r: Self)
        ensures
            r.0 == value,
    {
        PreEscaped(value)
    }
}

impl<'a> PreEscaped<&'a str> {
    /// Borrow the wrapped string.
    #[must_use]
    pub fn as_str(&self) -> (s: &str)
        ensures
            s@ == self.0@,
    {
        self.0
    }
}

impl PreEscaped<String> {
    /// Borrow the wrapped string.
    #[must_use]
    pub fn as_str(&self) -> (s: &str)
        ensures
            s@ == self.0@,
    {
        self.0.as_str()
    }
}

impl<'a> AsRef<str> for PreEscaped<&'a str> {
    fn as_ref(&self) -> (s: &str)
        ensures
            s@ == self.0@,
    {
        self.0
    }
}

impl AsRef<str> for PreEscaped<String> {
    fn as_ref(&self) -> (s: &str)
        ensures
            s@ == self.0@,
    {
        self.0.as_str()
    }
}

impl<'a> PreEscaped<&'a String> {
    /// Borrow the wrapped string.
    #[must_use]
    pub fn as_str(&self) -> (s: &str)
        ensures
            s@ == self.0@,
    {
        self.0.as_str()
    }
}

impl<'a> PreEscaped<Cow<'a, str>> {
    /// Borrow the wrapped string.
    #[must_use]
    pub fn as_str(&self) -> (s: &str)
        ensures
            s@ == self.0@,
    {
        match &self.0 {
            Cow::Borrowed(b) => b,
            Cow::Owned(o) => o.as_str(),
        }
    }
}

impl PreEscaped<Box<str>> {
    /// Borrow the wrapped string.
    #[must_use]
    pub fn as_str(&self) -> (s: &str)
        ensures
            s@ == self.0@,
    {
        &*self.0
    }
}

impl PreEscaped<Arc<str>> {
    /// Borrow the wrapped string.
    #[must_use]
    pub fn as_str(&self) -> (s: &str)
        ensures
            s@ == self.0@,
    {
        &*self.0
    }
}

impl<'a> AsRef<str> for PreEscaped<&'a String> {
    fn as_ref(&self) -> (s: &str)
        ensures
            s@ == self.0@,
    {
        self.0.as_str()
    }
}

impl<'a> AsRef<str> for PreEscaped<Cow<'a, str>> {
    fn as_ref(&self) -> (s: &str)
        ensures
            s@ == self.0@,
    {
        match &self.0 {
            Cow::Borrowed(b) => b,
            Cow::Owned(o) => o.as_str(),
        }
    }
}

impl AsRef<str> for PreEscaped<Box<str>> {
    fn as_ref(&self) -> (s: &str)
        ensures
            s@ == self.0@,
    {
        &*self.0
    }
}

impl AsRef<str> for PreEscaped<Arc<str>> {
    fn as_ref(&self) -> (s: &str)
        ensures
            s@ == self.0@,
    {
        &*self.0
    }
}

} // verus!
