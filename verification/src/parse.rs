//! The parser: a template's token stream to its syntax tree.
use vstd::prelude::*;

use crate::ast::{Attr, AttrCond, AttrV, MatchArm, Node, NodeV, ArmV, SpliceMod, attrs_view, nodes_view, arms_view};
use crate::chars::{
    char_is_alphabetic, char_is_alphanumeric, contains, parse_char_literal, parse_string_literal, str_contains,
    trim_to_string,
};
use crate::grammar::{
    ErrV, ErrorKind, arrow_at_or_after, attr_expr_end, attr_list, attr_value, attrs, brace_at_or_after,
    continues_pi_name, doctype_end, duplicate_error, element_starts, ends_attr_expr, ends_splice, error,
    first_bad_name_char, first_duplicate, is_name_char, is_name_start, keyword_at_or_after,
    lemma_attr_expr_end, lemma_attr_value_advances, lemma_one_attr_advances, name_error, one_attr,
    pi_name_end, repeats_name, splice_end, text, splice, comment, doctype, join_printed, pi_attr_list,
    pi_attrs, starts_pi_attr, starts_text, text_run, run_contains, cdata_close, pi_close, double_dash, lemma_splice_end, lemma_doctype_end,
    lemma_brace_at_or_after, lemma_keyword_at_or_after, lemma_arrow_at_or_after, lemma_pi_name_end,
    pi_name_text, body, nodes, node, element, at, if_node, for_node, while_node, match_node, arms,
    cdata_node, pi_node, kw_if, kw_else, kw_for, kw_in, kw_while, kw_match, kw_cdata, kw_comment,
};
use crate::token::{Delimiter, Tok, TokenTree, copy_tokens, lemma_group_stream, toks};

verus! {

/// A parse error: what went wrong, the name it concerns (for the name and
/// duplicate-attribute errors; empty otherwise) and the span index of the
/// token it points at (`None`: the macro invocation as a whole).
#[derive(Debug)]
pub struct ParseError {
    pub kind: ErrorKind,
    pub name: String,
    pub span: Option<usize>,
}

impl ParseError {
    pub open spec fn view(&self) -> ErrV {
        ErrV { kind: self.kind, name: self.name@, span: self.span }
    }
}

/// The message of the compile error for a parse error.
pub open spec fn error_message(e: ErrV) -> Seq<char> {
    match e.kind {
        ErrorKind::InvalidNameStart => "`"@ + e.name + "` is not a valid XML name: bad first character"@,
        ErrorKind::InvalidNameChar(c) => "`"@ + e.name + "` is not a valid XML name: unexpected `"@ + seq![c] + "`"@,
        ErrorKind::DuplicateAttr => "duplicate attribute `"@ + e.name + "`"@,
        ErrorKind::UnexpectedPunct(c) => "unexpected punctuation `"@ + seq![c] + "`"@,
        ErrorKind::UnexpectedToken => "unexpected token"@,
        ErrorKind::EmptyElementName => "empty bracketed element name"@,
        ErrorKind::TokenInAttrList => "unexpected token inside attribute list"@,
        ErrorKind::EmptyAttrName => "empty attribute name"@,
        ErrorKind::ExpectedAttrName => "expected attribute name"@,
        ErrorKind::ExpectedAttrValue => "expected attribute value"@,
        ErrorKind::ExpectedValueAfterEq => "expected value after `=`"@,
        ErrorKind::ExpectedStringLiteral => "expected string literal"@,
        ErrorKind::ExpectedEqOrQuestion => "expected `=` or `?` after attribute name"@,
        ErrorKind::CdataTerminatorInText => "literal text inside `@cdata` must not contain the CDATA terminator `]]>`"@,
        ErrorKind::PiTerminatorInText => "literal text inside a processing instruction must not contain `?>`"@,
        ErrorKind::NotTextLiteral => "only string (or char) literals are valid text; use `@expr` to interpolate values"@,
        ErrorKind::ExpectedExprAfterAt => "expected expression after `@`"@,
        ErrorKind::ExpectedBrace => "expected `{`"@,
        ErrorKind::ExpectedIn => "expected `in`"@,
        ErrorKind::ExpectedMoreTokens => "expected more tokens"@,
        ErrorKind::ExpectedFatArrow => "expected `=>` in match arm"@,
        ErrorKind::ExpectedPiName => "expected processing instruction name"@,
        ErrorKind::PiTerminatorInAttr => "processing instruction content must not contain `?>`"@,
        ErrorKind::ExpectedDoctypeAfterBang => "expected `DOCTYPE` after `!`"@,
        ErrorKind::ExpectedDoctype => "expected `DOCTYPE`"@,
        ErrorKind::ExpectedCommentLiteral => "expected string literal after `@comment`"@,
        ErrorKind::CommentDoubleDash => "comment text must not contain `--` (forbidden by XML 1.0)"@,
        ErrorKind::CommentEndsWithDash => "comment text must not end with `-` (forbidden by XML 1.0)"@,
    }
}

impl ParseError {
    /// The message of the compile error for this error.
    pub fn message(&self) -> (r: String)
        ensures
            r@ == error_message(self.view()),
    {
        let mut s = String::new();
        match self.kind {
            ErrorKind::InvalidNameStart => {
                s.push_str("`");
                s.push_str(self.name.as_str());
                s.push_str("` is not a valid XML name: bad first character");
            },
            ErrorKind::InvalidNameChar(c) => {
                s.push_str("`");
                s.push_str(self.name.as_str());
                s.push_str("` is not a valid XML name: unexpected `");
                s.push(c);
                s.push_str("`");
            },
            ErrorKind::DuplicateAttr => {
                s.push_str("duplicate attribute `");
                s.push_str(self.name.as_str());
                s.push_str("`");
            },
            ErrorKind::UnexpectedPunct(c) => {
                s.push_str("unexpected punctuation `");
                s.push(c);
                s.push_str("`");
            },
            ErrorKind::UnexpectedToken => s.push_str("unexpected token"),
            ErrorKind::EmptyElementName => s.push_str("empty bracketed element name"),
            ErrorKind::TokenInAttrList => s.push_str("unexpected token inside attribute list"),
            ErrorKind::EmptyAttrName => s.push_str("empty attribute name"),
            ErrorKind::ExpectedAttrName => s.push_str("expected attribute name"),
            ErrorKind::ExpectedAttrValue => s.push_str("expected attribute value"),
            ErrorKind::ExpectedValueAfterEq => s.push_str("expected value after `=`"),
            ErrorKind::ExpectedStringLiteral => s.push_str("expected string literal"),
            ErrorKind::ExpectedEqOrQuestion => s.push_str("expected `=` or `?` after attribute name"),
            ErrorKind::CdataTerminatorInText => s.push_str("literal text inside `@cdata` must not contain the CDATA terminator `]]>`"),
            ErrorKind::PiTerminatorInText => s.push_str("literal text inside a processing instruction must not contain `?>`"),
            ErrorKind::NotTextLiteral => s.push_str("only string (or char) literals are valid text; use `@expr` to interpolate values"),
            ErrorKind::ExpectedExprAfterAt => s.push_str("expected expression after `@`"),
            ErrorKind::ExpectedBrace => s.push_str("expected `{`"),
            ErrorKind::ExpectedIn => s.push_str("expected `in`"),
            ErrorKind::ExpectedMoreTokens => s.push_str("expected more tokens"),
            ErrorKind::ExpectedFatArrow => s.push_str("expected `=>` in match arm"),
            ErrorKind::ExpectedPiName => s.push_str("expected processing instruction name"),
            ErrorKind::PiTerminatorInAttr => s.push_str("processing instruction content must not contain `?>`"),
            ErrorKind::ExpectedDoctypeAfterBang => s.push_str("expected `DOCTYPE` after `!`"),
            ErrorKind::ExpectedDoctype => s.push_str("expected `DOCTYPE`"),
            ErrorKind::ExpectedCommentLiteral => s.push_str("expected string literal after `@comment`"),
            ErrorKind::CommentDoubleDash => s.push_str("comment text must not contain `--` (forbidden by XML 1.0)"),
            ErrorKind::CommentEndsWithDash => s.push_str("comment text must not end with `-` (forbidden by XML 1.0)"),
        }
        assert(s@ =~= error_message(self.view()));
        s
    }
}

fn new_error(kind: ErrorKind, span: Option<usize>) -> (e: ParseError)
    ensures
        e.view() == error(kind, span),
{
    ParseError { kind, name: String::new(), span }
}

pub open spec fn opt_error_view(r: Option<ParseError>) -> Option<ErrV> {
    match r {
        Some(e) => Some(e.view()),
        None => None,
    }
}

pub open spec fn attr_result(r: Result<(Attr, usize), ParseError>) -> Result<(AttrV, int), ErrV> {
    match r {
        Ok((a, p)) => Ok((a.view(), p as int)),
        Err(e) => Err(e.view()),
    }
}

pub open spec fn attrs_result(r: Result<(Vec<Attr>, usize), ParseError>) -> Result<(Seq<AttrV>, int), ErrV> {
    match r {
        Ok((a, p)) => Ok((attrs_view(a@), p as int)),
        Err(e) => Err(e.view()),
    }
}

pub open spec fn node_result(r: Result<(Node, usize), ParseError>) -> Result<(NodeV, int), ErrV> {
    match r {
        Ok((n, p)) => Ok((n.view(), p as int)),
        Err(e) => Err(e.view()),
    }
}

pub open spec fn nodes_result(r: Result<Vec<Node>, ParseError>) -> Result<Seq<NodeV>, ErrV> {
    match r {
        Ok(n) => Ok(nodes_view(n@)),
        Err(e) => Err(e.view()),
    }
}

pub open spec fn arms_result(r: Result<Vec<MatchArm>, ParseError>) -> Result<Seq<ArmV>, ErrV> {
    match r {
        Ok(a) => Ok(arms_view(a@)),
        Err(e) => Err(e.view()),
    }
}

/// The values of the tokens of `t`.
pub open spec fn tv(t: &Vec<TokenTree>) -> Seq<Tok> {
    toks(t@)
}

// ==================== Tokens ====================

fn is_punct(t: &TokenTree, c: char) -> (r: bool)
    ensures
        r == t.tok().is_punct(c),
{
    match t {
        TokenTree::Punct { ch, .. } => *ch == c,
        _ => false,
    }
}

fn is_group(t: &TokenTree, d: Delimiter) -> (r: bool)
    ensures
        r == t.tok().is_group(d),
{
    match t {
        TokenTree::Group { delimiter, .. } => *delimiter == d,
        _ => false,
    }
}

fn is_ident(t: &TokenTree) -> (r: bool)
    ensures
        r == t.tok().is_ident(),
{
    match t {
        TokenTree::Ident { .. } => true,
        _ => false,
    }
}

fn span_of(t: &TokenTree) -> (r: usize)
    ensures
        r == t.tok().span(),
{
    match t {
        TokenTree::Group { span, .. } => *span,
        TokenTree::Ident { span, .. } => *span,
        TokenTree::Punct { span, .. } => *span,
        TokenTree::Literal { span, .. } => *span,
    }
}

/// Whether two strings are equal.
fn str_eq(a: &str, b: &str) -> (r: bool)
    ensures
        r == (a@ == b@),
{
    let n = a.unicode_len();
    if n != b.unicode_len() {
        return false;
    }
    let mut i: usize = 0;
    while i < n
        invariant
            n == a@.len() == b@.len(),
            i <= n,
            forall|j: int| 0 <= j < i ==> a@[j] == b@[j],
        decreases n - i,
    {
        if a.get_char(i) != b.get_char(i) {
            return false;
        }
        i = i + 1;
    }
    assert(a@ =~= b@);
    true
}

fn is_keyword(t: &TokenTree, kw: &str) -> (r: bool)
    ensures
        r == t.tok().is_keyword(kw@),
{
    match t {
        TokenTree::Ident { name, .. } => str_eq(name.as_str(), kw),
        _ => false,
    }
}

// ==================== Names ====================

fn is_name_char_exec(c: char) -> (r: bool)
    ensures
        r == is_name_char(c),
{
    char_is_alphanumeric(c) || c == '_' || c == ':' || c == '-' || c == '.'
}

/// Checks that `name` is a well-formed XML name (NameStartChar NameChar*).
/// Bracketed names accept arbitrary token text, so without this check a typo
/// would silently produce broken XML.
pub fn validate_xml_name(name: &String, span: Option<usize>) -> (r: Option<ParseError>)
    ensures
        opt_error_view(r) == name_error(name@, span),
{
    let n = name.as_str().unicode_len();
    if n == 0 {
        return Some(ParseError { kind: ErrorKind::InvalidNameStart, name: name.clone(), span });
    }
    let c0 = name.as_str().get_char(0);
    if !(char_is_alphabetic(c0) || c0 == '_' || c0 == ':') {
        return Some(ParseError { kind: ErrorKind::InvalidNameStart, name: name.clone(), span });
    }
    let mut i: usize = 1;
    while i < n
        invariant
            n == name@.len(),
            1 <= i <= n,
            is_name_start(name@[0]),
            first_bad_name_char(name@, 1) == first_bad_name_char(name@, i as int),
        decreases n - i,
    {
        let c = name.as_str().get_char(i);
        if !is_name_char_exec(c) {
            assert(first_bad_name_char(name@, i as int) == i);
            let e = ParseError { kind: ErrorKind::InvalidNameChar(c), name: name.clone(), span };
            assert(c == name@[i as int]);
            assert(is_name_start(name@[0]));
            assert(e.view() == ErrV { kind: ErrorKind::InvalidNameChar(name@[i as int]), name: name@, span });
            return Some(e);
        }
        i = i + 1;
    }
    None
}

fn attr_name<'a>(a: &'a Attr) -> (r: &'a String)
    ensures
        r@ == a.view().name(),
{
    match a {
        Attr::Lit { name, .. } => name,
        Attr::Expr { name, .. } => name,
        Attr::CondExpr { name, .. } => name,
    }
}

fn attr_name_span(a: &Attr) -> (r: usize)
    ensures
        r == a.view().name_span(),
{
    match a {
        Attr::Lit { name_span, .. } => *name_span,
        Attr::Expr { name_span, .. } => *name_span,
        Attr::CondExpr { name_span, .. } => *name_span,
    }
}

/// Attribute names are statically known, so repeated ones are rejected: the
/// error points at the first attribute that repeats an earlier name.
pub fn check_duplicate_attrs(attrs: &Vec<Attr>) -> (r: Option<ParseError>)
    ensures
        opt_error_view(r) == duplicate_error(attrs_view(attrs@)),
{
    let ghost av = attrs_view(attrs@);
    let mut i: usize = 0;
    while i < attrs.len()
        invariant
            av == attrs_view(attrs@),
            i <= attrs@.len(),
            first_duplicate(av, 0) == first_duplicate(av, i as int),
        decreases attrs@.len() - i,
    {
        let name = attr_name(&attrs[i]);
        let mut j: usize = 0;
        while j < i
            invariant
                av == attrs_view(attrs@),
                i < attrs@.len(),
                j <= i,
                name@ == av[i as int].name(),
                first_duplicate(av, 0) == first_duplicate(av, i as int),
                forall|k: int| 0 <= k < j ==> av[k].name() != av[i as int].name(),
            decreases i - j,
        {
            if *attr_name(&attrs[j]) == *name {
                assert(repeats_name(av, i as int)) by {
                    assert(av[j as int].name() == av[i as int].name());
                }
                assert(first_duplicate(av, i as int) == i);
                return Some(ParseError {
                    kind: ErrorKind::DuplicateAttr,
                    name: name.clone(),
                    span: Some(attr_name_span(&attrs[i])),
                });
            }
            j = j + 1;
        }
        assert(!repeats_name(av, i as int));
        i = i + 1;
    }
    None
}


// ==================== Scans ====================

fn ends_attr_expr_exec(t: &TokenTree) -> (r: bool)
    ensures
        r == ends_attr_expr(t.tok()),
{
    is_punct(t, ',') || is_punct(t, ')') || is_punct(t, ']') || is_punct(t, '}')
}

/// Collects an attribute's expression: up to the first `,` `)` `]` `}` or
/// the end.
fn attr_expr_end_exec(t: &Vec<TokenTree>, p: usize) -> (r: usize)
    requires
        p <= t@.len(),
    ensures
        r == attr_expr_end(tv(t), p as int),
{
    let mut i = p;
    while i < t.len() && !ends_attr_expr_exec(&t[i])
        invariant
            p <= i <= t@.len(),
            attr_expr_end(tv(t), p as int) == attr_expr_end(tv(t), i as int),
        decreases t@.len() - i,
    {
        i = i + 1;
    }
    i
}

/// Whether a token is a string or character literal.
fn is_text_literal(tt: &TokenTree) -> (r: bool)
    ensures
        r == (tt.tok() is Literal && starts_text(tt.tok()->Literal_text)),
{
    match tt {
        TokenTree::Literal { text, .. } => {
            let s = text.as_str();
            let n = s.unicode_len();
            if n == 0 {
                return false;
            }
            let c0 = s.get_char(0);
            c0 == '"' || c0 == '\'' || (c0 == 'r' && n > 1 && (s.get_char(1) == '"' || s.get_char(1) == '#'))
        },
        _ => false,
    }
}

fn ends_splice_exec(t: &Vec<TokenTree>, i: usize) -> (r: bool)
    requires
        i < t@.len(),
    ensures
        r == ends_splice(tv(t), i as int),
{
    assert(t.len() == t@.len());
    is_group(&t[i], Delimiter::Brace) || is_punct(&t[i], ';') || is_punct(&t[i], '@') || (is_punct(&t[i], '/')
        && i + 1 < t.len() && is_punct(&t[i + 1], '*')) || (is_ident(&t[i]) && i + 1 < t.len() && is_group(
        &t[i + 1],
        Delimiter::Brace,
    )) || is_text_literal(&t[i])
}

/// Collects a splice's expression: up to the next top-level body block, `;`,
/// `@`, comment start, or element start.
fn splice_end_exec(t: &Vec<TokenTree>, p: usize) -> (r: usize)
    requires
        p <= t@.len(),
    ensures
        r == splice_end(tv(t), p as int),
{
    let mut i = p;
    while i < t.len() && !ends_splice_exec(t, i)
        invariant
            p <= i <= t@.len(),
            splice_end(tv(t), p as int) == splice_end(tv(t), i as int),
        decreases t@.len() - i,
    {
        i = i + 1;
    }
    i
}

/// The first `{ ... }` group at or after `p`.
fn brace_at_or_after_exec(t: &Vec<TokenTree>, p: usize) -> (r: usize)
    requires
        p <= t@.len(),
    ensures
        r == brace_at_or_after(tv(t), p as int),
{
    let mut i = p;
    while i < t.len() && !is_group(&t[i], Delimiter::Brace)
        invariant
            p <= i <= t@.len(),
            brace_at_or_after(tv(t), p as int) == brace_at_or_after(tv(t), i as int),
        decreases t@.len() - i,
    {
        i = i + 1;
    }
    i
}

/// The first identifier `kw` at or after `p`.
fn keyword_at_or_after_exec(t: &Vec<TokenTree>, p: usize, kw: &str) -> (r: usize)
    requires
        p <= t@.len(),
    ensures
        r == keyword_at_or_after(tv(t), p as int, kw@),
{
    let mut i = p;
    while i < t.len() && !is_keyword(&t[i], kw)
        invariant
            p <= i <= t@.len(),
            keyword_at_or_after(tv(t), p as int, kw@) == keyword_at_or_after(tv(t), i as int, kw@),
        decreases t@.len() - i,
    {
        i = i + 1;
    }
    i
}

/// The first `=` or `>` at or after `p`.
fn arrow_at_or_after_exec(t: &Vec<TokenTree>, p: usize) -> (r: usize)
    requires
        p <= t@.len(),
    ensures
        r == arrow_at_or_after(tv(t), p as int),
{
    let mut i = p;
    while i < t.len() && !(is_punct(&t[i], '=') || is_punct(&t[i], '>'))
        invariant
            p <= i <= t@.len(),
            arrow_at_or_after(tv(t), p as int) == arrow_at_or_after(tv(t), i as int),
        decreases t@.len() - i,
    {
        i = i + 1;
    }
    i
}

fn element_starts_exec(t: &Vec<TokenTree>, i: usize) -> (r: bool)
    requires
        i < t@.len(),
    ensures
        r == element_starts(tv(t), i as int),
{
    assert(t.len() == t@.len());
    is_ident(&t[i]) && i + 1 < t.len() && (is_group(&t[i + 1], Delimiter::Parenthesis) || is_group(
        &t[i + 1],
        Delimiter::Brace,
    ))
}

/// Where a DOCTYPE specification ends.
fn doctype_end_exec(t: &Vec<TokenTree>, p: usize) -> (r: usize)
    requires
        p <= t@.len(),
    ensures
        r == doctype_end(tv(t), p as int),
{
    let mut i = p;
    while i < t.len() && !(is_group(&t[i], Delimiter::Brace) || element_starts_exec(t, i))
        invariant
            p <= i <= t@.len(),
            doctype_end(tv(t), p as int) == doctype_end(tv(t), i as int),
        decreases t@.len() - i,
    {
        i = i + 1;
    }
    i
}

fn continues_pi_name_exec(t: &Vec<TokenTree>, i: usize) -> (r: bool)
    requires
        i < t@.len(),
    ensures
        r == continues_pi_name(tv(t), i as int),
{
    assert(t.len() == t@.len());
    (is_ident(&t[i]) && !(i + 1 < t.len() && (is_punct(&t[i + 1], '=') || is_punct(&t[i + 1], '?'))))
        || is_punct(&t[i], '-')
}

/// Where the name of a processing instruction ends.
fn pi_name_end_exec(t: &Vec<TokenTree>, p: usize) -> (r: usize)
    requires
        p <= t@.len(),
    ensures
        r == pi_name_end(tv(t), p as int),
{
    let mut i = p;
    while i < t.len() && continues_pi_name_exec(t, i)
        invariant
            p <= i <= t@.len(),
            pi_name_end(tv(t), p as int) == pi_name_end(tv(t), i as int),
        decreases t@.len() - i,
    {
        i = i + 1;
    }
    i
}

/// Appends the token as printed.
fn push_printed(out: &mut String, t: &TokenTree)
    ensures
        final(out)@ == old(out)@ + t.tok().printed(),
{
    match t {
        TokenTree::Group { text, .. } => out.push_str(text.as_str()),
        TokenTree::Ident { name, .. } => out.push_str(name.as_str()),
        TokenTree::Punct { ch, .. } => {
            out.push(*ch);
            assert(out@ =~= old(out)@ + t.tok().printed());
        },
        TokenTree::Literal { text, .. } => out.push_str(text.as_str()),
    }
}

// ==================== Attributes ====================

/// The value of an attribute named `name`, written from `p` on.
fn parse_attr_value(t: &Vec<TokenTree>, p: usize, name: String, name_span: usize) -> (r: Result<(Attr, usize), ParseError>)
    requires
        p <= t@.len(),
    ensures
        attr_result(r) == attr_value(tv(t), p as int, name@, name_span),
{
    if p >= t.len() {
        return Err(new_error(ErrorKind::ExpectedAttrValue, Some(name_span)));
    }
    if is_punct(&t[p], '=') {
        if p + 1 >= t.len() {
            return Err(new_error(ErrorKind::ExpectedValueAfterEq, Some(span_of(&t[p]))));
        }
        match &t[p + 1] {
            TokenTree::Literal { text, span } => {
                match parse_string_literal(text.as_str()) {
                    Some(v) => Ok((Attr::Lit { name, name_span, value: v, value_span: *span }, p + 2)),
                    None => Err(new_error(ErrorKind::ExpectedStringLiteral, Some(*span))),
                }
            },
            _ => {
                let e = attr_expr_end_exec(t, p + 1);
                proof {
                    lemma_attr_expr_end(tv(t), p + 1);
                }
                let value = copy_tokens(t, p + 1, e);
                Ok((Attr::Expr { name, name_span, value }, e))
            },
        }
    } else if is_punct(&t[p], '?') {
        if p + 1 < t.len() && is_punct(&t[p + 1], '=') {
            let e = attr_expr_end_exec(t, p + 2);
            proof {
                lemma_attr_expr_end(tv(t), p + 2);
            }
            let value = copy_tokens(t, p + 2, e);
            Ok((Attr::CondExpr { name, name_span, cond: AttrCond::Always { span: span_of(&t[p + 1]) }, value }, e))
        } else {
            let e = attr_expr_end_exec(t, p + 1);
            proof {
                lemma_attr_expr_end(tv(t), p + 1);
            }
            let value: Vec<TokenTree> = Vec::new();
            assert(toks(value@) =~= Seq::<Tok>::empty());
            if e <= p + 1 {
                Ok((Attr::CondExpr { name, name_span, cond: AttrCond::Always { span: span_of(&t[p]) }, value }, p + 1))
            } else {
                let cond = copy_tokens(t, p + 1, e);
                Ok((Attr::CondExpr { name, name_span, cond: AttrCond::Expr(cond), value }, e))
            }
        }
    } else {
        Err(new_error(ErrorKind::ExpectedEqOrQuestion, Some(span_of(&t[p]))))
    }
}

/// One attribute of a list: an identifier or a bracketed name, then its
/// value.
fn parse_one_attr(t: &Vec<TokenTree>, p: usize) -> (r: Result<(Attr, usize), ParseError>)
    requires
        p < t@.len(),
    ensures
        attr_result(r) == one_attr(tv(t), p as int),
{
    assert(t.len() == t@.len());
    match &t[p] {
        TokenTree::Ident { name, span } => parse_attr_value(t, p + 1, name.clone(), *span),
        TokenTree::Group { delimiter, stream_text, span, .. } => {
            if *delimiter == Delimiter::Bracket {
                let n = trim_to_string(stream_text.as_str());
                if n.as_str().unicode_len() == 0 {
                    return Err(new_error(ErrorKind::EmptyAttrName, Some(*span)));
                }
                match validate_xml_name(&n, Some(*span)) {
                    Some(e) => Err(e),
                    None => parse_attr_value(t, p + 1, n, *span),
                }
            } else {
                Err(new_error(ErrorKind::ExpectedAttrName, Some(*span)))
            }
        },
        _ => Err(new_error(ErrorKind::ExpectedAttrName, Some(span_of(&t[p])))),
    }
}

pub open spec fn prepend_attrs(a: Seq<AttrV>, r: Result<(Seq<AttrV>, int), ErrV>) -> Result<(Seq<AttrV>, int), ErrV> {
    match r {
        Ok((rest, k)) => Ok((a + rest, k)),
        Err(e) => Err(e),
    }
}

/// The attributes of a list: entries separated by commas, until the end or
/// the first entry not followed by a comma.
fn parse_attrs_in_parens(t: &Vec<TokenTree>) -> (r: Result<(Vec<Attr>, usize), ParseError>)
    ensures
        attrs_result(r) == attr_list(tv(t), 0),
{
    let mut acc: Vec<Attr> = Vec::new();
    let mut i: usize = 0;
    assert(attrs_view(acc@) =~= Seq::<AttrV>::empty());
    loop
        invariant
            i <= t@.len(),
            attr_list(tv(t), 0) == prepend_attrs(attrs_view(acc@), attr_list(tv(t), i as int)),
        decreases t@.len() - i,
    {
        if i >= t.len() {
            assert(attrs_view(acc@) + Seq::<AttrV>::empty() =~= attrs_view(acc@));
            return Ok((acc, i));
        }
        if is_punct(&t[i], ',') {
            i = i + 1;
            continue;
        }
        proof {
            lemma_one_attr_advances(tv(t), i as int);
        }
        match parse_one_attr(t, i) {
            Err(e) => {
                return Err(e);
            },
            Ok((a, q)) => {
                let ghost old_acc = attrs_view(acc@);
                let ghost av = a.view();
                acc.push(a);
                proof {
                    assert(attrs_view(acc@) =~= old_acc.push(av));
                    assert(attrs_view(acc@) =~= old_acc + seq![av]);
                }
                if q < t.len() && is_punct(&t[q], ',') {
                    proof {
                        match attr_list(tv(t), q + 1) {
                            Ok((rest, k)) => {
                                assert(old_acc + (seq![av] + rest) =~= attrs_view(acc@) + rest);
                            },
                            Err(_) => {},
                        }
                    }
                    i = q + 1;
                } else {
                    return Ok((acc, q));
                }
            },
        }
    }
}

/// The attribute list of an element: a `( ... )` group at `p`, if there is
/// one. Repeated names and tokens left over in the group are errors.
fn parse_attrs(t: &Vec<TokenTree>, p: usize) -> (r: Result<(Vec<Attr>, usize), ParseError>)
    requires
        p <= t@.len(),
    ensures
        attrs_result(r) == attrs(tv(t), p as int),
{
    if p < t.len() && is_group(&t[p], Delimiter::Parenthesis) {
        match &t[p] {
            TokenTree::Group { stream, .. } => {
                proof {
                    lemma_group_stream(&t[p as int]);
                }
                match parse_attrs_in_parens(stream) {
                    Err(e) => Err(e),
                    Ok((list, k)) => {
                        match check_duplicate_attrs(&list) {
                            Some(e) => Err(e),
                            None => {
                                if k < stream.len() {
                                    Err(new_error(ErrorKind::TokenInAttrList, Some(span_of(&stream[k]))))
                                } else {
                                    Ok((list, p + 1))
                                }
                            },
                        }
                    },
                }
            },
            _ => Ok((Vec::new(), p)),
        }
    } else {
        let list: Vec<Attr> = Vec::new();
        assert(attrs_view(list@) =~= Seq::<AttrV>::empty());
        Ok((list, p))
    }
}


// ==================== Leaf nodes ====================

/// A text node: the string (or character) literal at `p`. Literal text must
/// not close the CDATA section or processing instruction it stands in.
fn parse_text(t: &Vec<TokenTree>, p: usize, cdata: bool, pi: bool) -> (r: Result<(Node, usize), ParseError>)
    requires
        p < t@.len(),
        tv(t)[p as int] is Literal,
    ensures
        node_result(r) == text(tv(t), p as int, cdata, pi),
{
    assert(t.len() == t@.len());
    match &t[p] {
        TokenTree::Literal { text, span } => {
            match parse_string_literal(text.as_str()) {
                Some(v) => {
                    proof {
                        reveal_strlit("]]>");
                        reveal_strlit("?>");
                        assert("]]>"@ =~= cdata_close());
                        assert("?>"@ =~= pi_close());
                    }
                    if cdata && str_contains(v.as_str(), "]]>") {
                        return Err(new_error(ErrorKind::CdataTerminatorInText, Some(*span)));
                    }
                    if pi && str_contains(v.as_str(), "?>") {
                        return Err(new_error(ErrorKind::PiTerminatorInText, Some(*span)));
                    }
                    Ok((Node::Text(v), p + 1))
                },
                None => {
                    match parse_char_literal(text.as_str()) {
                        Some(c) => {
                            let mut v = String::new();
                            v.push(c);
                            assert(v@ =~= seq![c]);
                            Ok((Node::Text(v), p + 1))
                        },
                        None => Err(new_error(ErrorKind::NotTextLiteral, Some(*span))),
                    }
                },
            }
        },
        _ => Err(new_error(ErrorKind::NotTextLiteral, Some(span_of(&t[p])))),
    }
}

/// A splice whose expression starts at `p`; a trailing `.raw` selects
/// verbatim insertion.
fn parse_splice(t: &Vec<TokenTree>, p: usize) -> (r: (Node, usize))
    requires
        p <= t@.len(),
    ensures
        (r.0.view(), r.1 as int) == splice(tv(t), p as int),
{
    let e = splice_end_exec(t, p);
    proof {
        lemma_splice_end(tv(t), p as int);
        reveal_strlit("raw");
        assert("raw"@ =~= seq!['r', 'a', 'w']);
    }
    let ghost x = tv(t).subrange(p as int, e as int);
    if e - p >= 2 && is_punct(&t[e - 2], '.') && is_keyword(&t[e - 1], "raw") {
        let expr = copy_tokens(t, p, e - 2);
        assert(x.subrange(0, x.len() - 2) =~= tv(t).subrange(p as int, e - 2));
        (Node::Splice { expr, modifier: SpliceMod::Raw }, e)
    } else {
        let expr = copy_tokens(t, p, e);
        (Node::Splice { expr, modifier: SpliceMod::Escaped }, e)
    }
}

/// `@comment "text"`: `p` is at `comment`. XML forbids `--` in comments.
fn parse_comment_kw(t: &Vec<TokenTree>, p: usize, at_span: usize) -> (r: Result<(Node, usize), ParseError>)
    requires
        p < t@.len(),
    ensures
        node_result(r) == comment(tv(t), p as int, at_span),
{
    assert(t.len() == t@.len());
    if p + 1 >= t.len() {
        return Err(new_error(ErrorKind::ExpectedCommentLiteral, Some(at_span)));
    }
    match &t[p + 1] {
        TokenTree::Literal { text, span } => {
            match parse_string_literal(text.as_str()) {
                None => Err(new_error(ErrorKind::ExpectedStringLiteral, Some(*span))),
                Some(v) => {
                    proof {
                        reveal_strlit("--");
                        assert("--"@ =~= double_dash());
                    }
                    let n = v.as_str().unicode_len();
                    if str_contains(v.as_str(), "--") {
                        Err(new_error(ErrorKind::CommentDoubleDash, Some(*span)))
                    } else if n > 0 && v.as_str().get_char(n - 1) == '-' {
                        Err(new_error(ErrorKind::CommentEndsWithDash, Some(*span)))
                    } else {
                        Ok((Node::Comment(v), p + 2))
                    }
                },
            }
        },
        _ => Err(new_error(ErrorKind::ExpectedCommentLiteral, Some(span_of(&t[p + 1])))),
    }
}

/// `!DOCTYPE spec`: `p` is at `!`. The specification's tokens are printed
/// and joined with single spaces, so that the output does not depend on how
/// the token stream would print as a whole.
fn parse_doctype(t: &Vec<TokenTree>, p: usize) -> (r: Result<(Node, usize), ParseError>)
    requires
        p < t@.len(),
    ensures
        node_result(r) == doctype(tv(t), p as int),
{
    assert(t.len() == t@.len());
    if p + 1 >= t.len() {
        return Err(new_error(ErrorKind::ExpectedDoctypeAfterBang, Some(span_of(&t[p]))));
    }
    proof {
        reveal_strlit("DOCTYPE");
        assert("DOCTYPE"@ =~= seq!['D', 'O', 'C', 'T', 'Y', 'P', 'E']);
    }
    if !is_keyword(&t[p + 1], "DOCTYPE") {
        return Err(new_error(ErrorKind::ExpectedDoctype, Some(span_of(&t[p + 1]))));
    }
    let e = doctype_end_exec(t, p + 2);
    proof {
        lemma_doctype_end(tv(t), p + 2);
    }
    let mut spec = String::new();
    let mut i = p + 2;
    while i < e
        invariant
            p + 2 <= i <= e <= t@.len(),
            spec@ == join_printed(tv(t).subrange(p + 2, i as int)),
        decreases e - i,
    {
        let ghost before = spec@;
        if i > p + 2 {
            spec.push(' ');
        }
        push_printed(&mut spec, &t[i]);
        proof {
            let sub = tv(t).subrange(p + 2, i + 1);
            assert(sub.drop_last() =~= tv(t).subrange(p + 2, i as int));
            assert(sub.last() == tv(t)[i as int]);
            if i == p + 2 {
                assert(sub.len() == 1);
                assert(tv(t).subrange(p + 2, i as int) =~= Seq::<Tok>::empty());
                assert(spec@ =~= join_printed(sub));
            } else {
                assert(spec@ =~= join_printed(sub));
            }
        }
        i = i + 1;
    }
    Ok((Node::Doctype(spec), e))
}

pub open spec fn prepend_pi_attrs(a: Seq<AttrV>, r: Result<(Seq<AttrV>, int), ErrV>) -> Result<(Seq<AttrV>, int), ErrV> {
    match r {
        Ok((rest, k)) => Ok((a + rest, k)),
        Err(e) => Err(e),
    }
}

/// The attributes of a processing instruction: identifiers followed by `=`
/// or `?`. A literal value must not close the instruction.
fn parse_pi_attrs(t: &Vec<TokenTree>, p: usize) -> (r: Result<(Vec<Attr>, usize), ParseError>)
    requires
        p <= t@.len(),
    ensures
        attrs_result(r) == pi_attrs(tv(t), p as int),
{
    assert(t.len() == t@.len());
    let mut acc: Vec<Attr> = Vec::new();
    let mut i = p;
    assert(attrs_view(acc@) =~= Seq::<AttrV>::empty());
    proof {
        reveal_strlit("?>");
        assert("?>"@ =~= pi_close());
    }
    loop
        invariant
            p <= i <= t@.len(),
            "?>"@ == pi_close(),
            pi_attr_list(tv(t), p as int) == prepend_pi_attrs(attrs_view(acc@), pi_attr_list(tv(t), i as int)),
        decreases t@.len() - i,
    {
        let starts = i < t.len() && is_ident(&t[i]) && i + 1 < t.len() && (is_punct(&t[i + 1], '=') || is_punct(&t[i + 1], '?'));
        if !starts {
            assert(!starts_pi_attr(tv(t), i as int));
            assert(attrs_view(acc@) + Seq::<AttrV>::empty() =~= attrs_view(acc@));
            return match check_duplicate_attrs(&acc) {
                Some(e) => Err(e),
                None => Ok((acc, i)),
            };
        }
        match &t[i] {
            TokenTree::Ident { name, span } => {
                proof {
                    lemma_attr_value_advances(tv(t), i + 1, name@, *span);
                }
                match parse_attr_value(t, i + 1, name.clone(), *span) {
                    Err(e) => {
                        return Err(e);
                    },
                    Ok((a, q)) => {
                        match &a {
                            Attr::Lit { value, value_span, .. } => {
                                if str_contains(value.as_str(), "?>") {
                                    return Err(new_error(ErrorKind::PiTerminatorInAttr, Some(*value_span)));
                                }
                            },
                            _ => {},
                        }
                        let ghost old_acc = attrs_view(acc@);
                        let ghost av = a.view();
                        acc.push(a);
                        proof {
                            assert(attrs_view(acc@) =~= old_acc + seq![av]);
                            match pi_attr_list(tv(t), q as int) {
                                Ok((rest, k)) => {
                                    assert(old_acc + (seq![av] + rest) =~= attrs_view(acc@) + rest);
                                },
                                Err(_) => {},
                            }
                        }
                        i = q;
                    },
                }
            },
            _ => {
                return Err(new_error(ErrorKind::ExpectedAttrName, Some(span_of(&t[i]))));
            },
        }
    }
}


// ==================== Nested nodes ====================

pub open spec fn prepend_nodes(a: Seq<NodeV>, r: Result<Seq<NodeV>, ErrV>) -> Result<Seq<NodeV>, ErrV> {
    match r {
        Ok(rest) => Ok(a + rest),
        Err(e) => Err(e),
    }
}

/// The nodes of a token stream from `start` on.
fn parse_nodes(t: &Vec<TokenTree>, start: usize, cdata: bool, pi: bool) -> (r: Result<Vec<Node>, ParseError>)
    ensures
        nodes_result(r) == nodes(tv(t), start as int, cdata, pi),
    decreases t, t@.len() - start, 9int,
{
    let mut acc: Vec<Node> = Vec::new();
    let mut i: usize = start;
    assert(nodes_view(acc@) =~= Seq::<NodeV>::empty());
    if i >= t.len() {
        return Ok(acc);
    }
    loop
        invariant
            start <= i <= t@.len(),
            nodes(tv(t), start as int, cdata, pi) == prepend_nodes(nodes_view(acc@), nodes(tv(t), i as int, cdata, pi)),
        decreases t@.len() - i,
    {
        if i >= t.len() {
            assert(nodes_view(acc@) + Seq::<NodeV>::empty() =~= nodes_view(acc@));
            return Ok(acc);
        }
        match parse_node(t, i, cdata, pi) {
            Err(e) => {
                return Err(e);
            },
            Ok((n, q)) => {
                let ghost old_acc = nodes_view(acc@);
                let ghost nv = n.view();
                acc.push(n);
                proof {
                    assert(nodes_view(acc@) =~= old_acc + seq![nv]);
                }
                if q <= i || q > t.len() {
                    return Ok(acc);
                }
                proof {
                    match nodes(tv(t), q as int, cdata, pi) {
                        Ok(rest) => {
                            assert(old_acc + (seq![nv] + rest) =~= nodes_view(acc@) + rest);
                        },
                        Err(_) => {},
                    }
                }
                i = q;
            },
        }
    }
}

/// The nodes of a token stream.
fn parse_body(t: &Vec<TokenTree>, cdata: bool, pi: bool) -> (r: Result<Vec<Node>, ParseError>)
    ensures
        nodes_result(r) == body(tv(t), cdata, pi),
    decreases t, t@.len(), 10int,
{
    match parse_nodes(t, 0, cdata, pi) {
        Err(e) => Err(e),
        Ok(ns) => {
            proof {
                reveal_strlit("]]>");
                reveal_strlit("?>");
                assert("]]>"@ =~= cdata_close());
                assert("?>"@ =~= pi_close());
            }
            if cdata && run_contains_exec(&ns, "]]>") {
                Err(new_error(ErrorKind::CdataTerminatorInText, None))
            } else if pi && run_contains_exec(&ns, "?>") {
                Err(new_error(ErrorKind::PiTerminatorInText, None))
            } else {
                Ok(ns)
            }
        },
    }
}

/// The text of the literals side by side from `i` on.
fn text_run_exec(ns: &Vec<Node>, i: usize) -> (r: String)
    requires
        i <= ns@.len(),
    ensures
        r@ == text_run(nodes_view(ns@), i as int),
{
    let ghost nv = nodes_view(ns@);
    let mut acc = String::new();
    let mut j = i;
    while j < ns.len()
        invariant
            i <= j <= ns@.len(),
            nv == nodes_view(ns@),
            acc@ + text_run(nv, j as int) == text_run(nv, i as int),
        decreases ns@.len() - j,
    {
        match &ns[j] {
            Node::Text(v) => {
                proof {
                    assert(nv[j as int] == NodeV::Text(v@));
                }
                let ghost before = acc@;
                acc.push_str(v.as_str());
                proof {
                    assert(before + text_run(nv, j as int) =~= acc@ + text_run(nv, j + 1));
                }
                j = j + 1;
            },
            _ => {
                proof {
                    assert(!(nv[j as int] is Text));
                    assert(acc@ + text_run(nv, j as int) =~= acc@);
                }
                return acc;
            },
        }
    }
    assert(acc@ + text_run(nv, j as int) =~= acc@);
    acc
}

/// Whether literals side by side in `ns` hold `pat` between them.
fn run_contains_exec(ns: &Vec<Node>, pat: &str) -> (r: bool)
    ensures
        r == run_contains(nodes_view(ns@), pat@),
{
    let ghost nv = nodes_view(ns@);
    let mut i: usize = 0;
    while i < ns.len()
        invariant
            i <= ns@.len(),
            nv == nodes_view(ns@),
            forall|j: int| 0 <= j < i ==> !contains(#[trigger] text_run(nv, j), pat@),
        decreases ns@.len() - i,
    {
        let run = text_run_exec(ns, i);
        if str_contains(run.as_str(), pat) {
            return true;
        }
        i = i + 1;
    }
    false
}

/// The node starting at `p`.
fn parse_node(t: &Vec<TokenTree>, p: usize, cdata: bool, pi: bool) -> (r: Result<(Node, usize), ParseError>)
    requires
        p < t@.len(),
    ensures
        node_result(r) == node(tv(t), p as int, cdata, pi),
    decreases t, t@.len() - p, 7int,
{
    assert(t.len() == t@.len());
    match &t[p] {
        TokenTree::Punct { ch, span, .. } => {
            if *ch == '@' {
                parse_at(t, p, cdata, pi)
            } else if *ch == '?' {
                parse_pi(t, p, cdata, pi)
            } else if *ch == '!' {
                parse_doctype(t, p)
            } else {
                Err(new_error(ErrorKind::UnexpectedPunct(*ch), Some(*span)))
            }
        },
        TokenTree::Ident { name, .. } => parse_element(t, p + 1, name.clone(), cdata, pi),
        TokenTree::Group { delimiter, stream_text, span, .. } => {
            if *delimiter == Delimiter::Bracket {
                // The name is the printed text of all tokens inside the brackets.
                let n = trim_to_string(stream_text.as_str());
                if n.as_str().unicode_len() == 0 {
                    return Err(new_error(ErrorKind::EmptyElementName, Some(*span)));
                }
                match validate_xml_name(&n, Some(*span)) {
                    Some(e) => Err(e),
                    None => parse_element(t, p + 1, n, cdata, pi),
                }
            } else {
                Err(new_error(ErrorKind::UnexpectedToken, Some(*span)))
            }
        },
        TokenTree::Literal { .. } => parse_text(t, p, cdata, pi),
    }
}

/// The rest of an element named `name`: its attributes and its body, if it
/// has one (without one it is self-closing).
fn parse_element(t: &Vec<TokenTree>, p: usize, name: String, cdata: bool, pi: bool) -> (r: Result<(Node, usize), ParseError>)
    requires
        p <= t@.len(),
    ensures
        node_result(r) == element(tv(t), p as int, name@, cdata, pi),
    decreases t, t@.len() - p, 6int,
{
    let (attrs, q) = match parse_attrs(t, p) {
        Err(e) => {
            return Err(e);
        },
        Ok(r) => r,
    };
    if q < t.len() && is_group(&t[q], Delimiter::Brace) {
        match &t[q] {
            TokenTree::Group { stream, .. } => {
                proof {
                    lemma_group_stream(&t[q as int]);
                }
                match parse_body(stream, cdata, pi) {
                    Err(e) => Err(e),
                    Ok(body) => {
                        let n = Node::Element { name, attrs, body };
                        assert(n.view()->Element_body =~= nodes_view(body@));
                        Ok((n, q + 1))
                    },
                }
            },
            _ => Err(new_error(ErrorKind::UnexpectedToken, None)),
        }
    } else {
        let body: Vec<Node> = Vec::new();
        let n = Node::Element { name, attrs, body };
        assert(n.view()->Element_body =~= Seq::<NodeV>::empty());
        Ok((n, q))
    }
}

/// A node introduced by `@` at `p`: control flow, CDATA, a comment or a
/// splice.
fn parse_at(t: &Vec<TokenTree>, p: usize, cdata: bool, pi: bool) -> (r: Result<(Node, usize), ParseError>)
    requires
        p < t@.len(),
    ensures
        node_result(r) == at(tv(t), p as int, cdata, pi),
    decreases t, t@.len() - p, 6int,
{
    assert(t.len() == t@.len());
    let at_span = span_of(&t[p]);
    if p + 1 >= t.len() {
        return Err(new_error(ErrorKind::ExpectedExprAfterAt, Some(at_span)));
    }
    proof {
        reveal_strlit("if");
        reveal_strlit("for");
        reveal_strlit("while");
        reveal_strlit("match");
        reveal_strlit("cdata");
        reveal_strlit("comment");
        assert("if"@ =~= kw_if());
        assert("for"@ =~= kw_for());
        assert("while"@ =~= kw_while());
        assert("match"@ =~= kw_match());
        assert("cdata"@ =~= kw_cdata());
        assert("comment"@ =~= kw_comment());
    }
    let k = &t[p + 1];
    if is_keyword(k, "if") {
        parse_if(t, p + 1, cdata, pi)
    } else if is_keyword(k, "for") {
        parse_for(t, p + 1, cdata, pi)
    } else if is_keyword(k, "while") {
        parse_while(t, p + 1, cdata, pi)
    } else if is_keyword(k, "match") {
        parse_match(t, p + 1, cdata, pi)
    } else if is_keyword(k, "cdata") {
        parse_cdata(t, p + 1, pi)
    } else if is_keyword(k, "comment") {
        parse_comment_kw(t, p + 1, at_span)
    } else {
        let (n, e) = parse_splice(t, p + 1);
        Ok((n, e))
    }
}

/// `@if cond { .. } else { .. }`: `p` is at `if`.
fn parse_if(t: &Vec<TokenTree>, p: usize, cdata: bool, pi: bool) -> (r: Result<(Node, usize), ParseError>)
    requires
        p < t@.len(),
    ensures
        node_result(r) == if_node(tv(t), p as int, cdata, pi),
    decreases t, t@.len() - p, 5int,
{
    assert(t.len() == t@.len());
    let b = brace_at_or_after_exec(t, p + 1);
    proof {
        lemma_brace_at_or_after(tv(t), p + 1);
    }
    if b >= t.len() {
        return Err(new_error(ErrorKind::ExpectedBrace, None));
    }
    let cond = copy_tokens(t, p + 1, b);
    let then = match &t[b] {
        TokenTree::Group { stream, .. } => {
            proof {
                lemma_group_stream(&t[b as int]);
            }
            match parse_body(stream, cdata, pi) {
                Err(e) => {
                    return Err(e);
                },
                Ok(v) => v,
            }
        },
        _ => {
            return Err(new_error(ErrorKind::ExpectedBrace, None));
        },
    };
    let q = b + 1;
    proof {
        reveal_strlit("else");
        assert("else"@ =~= kw_else());
    }
    if q < t.len() && is_keyword(&t[q], "else") {
        if q + 1 < t.len() && is_group(&t[q + 1], Delimiter::Brace) {
            match &t[q + 1] {
                TokenTree::Group { stream, .. } => {
                    proof {
                        lemma_group_stream(&t[q + 1]);
                    }
                    match parse_body(stream, cdata, pi) {
                        Err(e) => Err(e),
                        Ok(els) => {
                            let else_ = if els.len() == 0 {
                                None
                            } else {
                                Some(els)
                            };
                            let n = Node::If { cond, then, else_ };
                            proof {
                                assert(n.view()->If_then =~= nodes_view(then@));
                                if els@.len() > 0 {
                                    assert(n.view()->If_else_->Some_0 =~= nodes_view(els@));
                                }
                            }
                            Ok((n, q + 2))
                        },
                    }
                },
                _ => Err(new_error(ErrorKind::ExpectedBrace, None)),
            }
        } else {
            let n = Node::If { cond, then, else_: None };
            assert(n.view()->If_then =~= nodes_view(then@));
            Ok((n, q + 1))
        }
    } else {
        let n = Node::If { cond, then, else_: None };
        assert(n.view()->If_then =~= nodes_view(then@));
        Ok((n, q))
    }
}

/// `@for pat in expr { .. }`: `p` is at `for`.
fn parse_for(t: &Vec<TokenTree>, p: usize, cdata: bool, pi: bool) -> (r: Result<(Node, usize), ParseError>)
    requires
        p < t@.len(),
    ensures
        node_result(r) == for_node(tv(t), p as int, cdata, pi),
    decreases t, t@.len() - p, 5int,
{
    assert(t.len() == t@.len());
    proof {
        reveal_strlit("in");
        assert("in"@ =~= kw_in());
    }
    let k = keyword_at_or_after_exec(t, p + 1, "in");
    proof {
        lemma_keyword_at_or_after(tv(t), p + 1, kw_in());
    }
    if k >= t.len() {
        return Err(new_error(ErrorKind::ExpectedIn, None));
    }
    let b = brace_at_or_after_exec(t, k + 1);
    proof {
        lemma_brace_at_or_after(tv(t), k + 1);
    }
    if b >= t.len() {
        return Err(new_error(ErrorKind::ExpectedBrace, None));
    }
    let pat = copy_tokens(t, p + 1, k);
    let expr = copy_tokens(t, k + 1, b);
    match &t[b] {
        TokenTree::Group { stream, .. } => {
            proof {
                lemma_group_stream(&t[b as int]);
            }
            match parse_body(stream, cdata, pi) {
                Err(e) => Err(e),
                Ok(body) => {
                    let n = Node::For { pat, expr, body };
                    assert(n.view()->For_body =~= nodes_view(body@));
                    Ok((n, b + 1))
                },
            }
        },
        _ => Err(new_error(ErrorKind::ExpectedBrace, None)),
    }
}

/// `@while cond { .. }`: `p` is at `while`.
fn parse_while(t: &Vec<TokenTree>, p: usize, cdata: bool, pi: bool) -> (r: Result<(Node, usize), ParseError>)
    requires
        p < t@.len(),
    ensures
        node_result(r) == while_node(tv(t), p as int, cdata, pi),
    decreases t, t@.len() - p, 5int,
{
    assert(t.len() == t@.len());
    let b = brace_at_or_after_exec(t, p + 1);
    proof {
        lemma_brace_at_or_after(tv(t), p + 1);
    }
    if b >= t.len() {
        return Err(new_error(ErrorKind::ExpectedBrace, None));
    }
    let cond = copy_tokens(t, p + 1, b);
    match &t[b] {
        TokenTree::Group { stream, .. } => {
            proof {
                lemma_group_stream(&t[b as int]);
            }
            match parse_body(stream, cdata, pi) {
                Err(e) => Err(e),
                Ok(body) => {
                    let n = Node::While { cond, body };
                    assert(n.view()->While_body =~= nodes_view(body@));
                    Ok((n, b + 1))
                },
            }
        },
        _ => Err(new_error(ErrorKind::ExpectedBrace, None)),
    }
}

/// `@match expr { pat => { .. }, .. }`: `p` is at `match`.
fn parse_match(t: &Vec<TokenTree>, p: usize, cdata: bool, pi: bool) -> (r: Result<(Node, usize), ParseError>)
    requires
        p < t@.len(),
    ensures
        node_result(r) == match_node(tv(t), p as int, cdata, pi),
    decreases t, t@.len() - p, 5int,
{
    assert(t.len() == t@.len());
    let b = brace_at_or_after_exec(t, p + 1);
    proof {
        lemma_brace_at_or_after(tv(t), p + 1);
    }
    if b >= t.len() {
        return Err(new_error(ErrorKind::ExpectedBrace, None));
    }
    let expr = copy_tokens(t, p + 1, b);
    match &t[b] {
        TokenTree::Group { stream, .. } => {
            proof {
                lemma_group_stream(&t[b as int]);
            }
            match parse_arms(stream, cdata, pi) {
                Err(e) => Err(e),
                Ok(arms) => {
                    let n = Node::Match { expr, arms };
                    proof {
                        assert forall|i: int| 0 <= i < arms@.len() implies (#[trigger] n.view()->Match_arms[i]).body
                            =~= nodes_view(arms@[i].body@) by {}
                        assert(n.view()->Match_arms =~= arms_view(arms@));
                    }
                    Ok((n, b + 1))
                },
            }
        },
        _ => Err(new_error(ErrorKind::ExpectedBrace, None)),
    }
}

pub open spec fn prepend_arms(a: Seq<ArmV>, r: Result<Seq<ArmV>, ErrV>) -> Result<Seq<ArmV>, ErrV> {
    match r {
        Ok(rest) => Ok(a + rest),
        Err(e) => Err(e),
    }
}

/// The arms of a match block, inside `@cdata` when `cdata` holds and inside
/// a processing instruction when `pi` holds.
fn parse_arms(s: &Vec<TokenTree>, cdata: bool, pi: bool) -> (r: Result<Vec<MatchArm>, ParseError>)
    ensures
        arms_result(r) == arms(tv(s), 0, cdata, pi),
    decreases s, s@.len(), 4int,
{
    assert(s.len() == s@.len());
    let mut acc: Vec<MatchArm> = Vec::new();
    let mut i: usize = 0;
    assert(arms_view(acc@) =~= Seq::<ArmV>::empty());
    loop
        invariant
            i <= s@.len(),
            s.len() == s@.len(),
            arms(tv(s), 0, cdata, pi) == prepend_arms(arms_view(acc@), arms(tv(s), i as int, cdata, pi)),
        decreases s@.len() - i,
    {
        if i >= s.len() {
            assert(arms_view(acc@) + Seq::<ArmV>::empty() =~= arms_view(acc@));
            return Ok(acc);
        }
        let j = arrow_at_or_after_exec(s, i);
        proof {
            lemma_arrow_at_or_after(tv(s), i as int);
        }
        if j >= s.len() {
            return Err(new_error(ErrorKind::ExpectedMoreTokens, None));
        }
        if !(j + 1 < s.len() && is_punct(&s[j], '=') && is_punct(&s[j + 1], '>')) {
            return Err(new_error(ErrorKind::ExpectedFatArrow, Some(span_of(&s[j]))));
        }
        let pat = copy_tokens(s, i, j);
        let k = j + 2;
        let mut k2 = k;
        let mut body: Vec<Node> = Vec::new();
        if k < s.len() && is_group(&s[k], Delimiter::Brace) {
            match &s[k] {
                TokenTree::Group { stream, .. } => {
                    proof {
                        lemma_group_stream(&s[k as int]);
                    }
                    match parse_body(stream, cdata, pi) {
                        Err(e) => {
                            return Err(e);
                        },
                        Ok(b) => {
                            body = b;
                        },
                    }
                },
                _ => {
                    return Err(new_error(ErrorKind::ExpectedBrace, None));
                },
            }
            k2 = k + 1;
        } else {
            assert(nodes_view(body@) =~= Seq::<NodeV>::empty());
        }
        let k3 = if k2 < s.len() && is_punct(&s[k2], ',') {
            k2 + 1
        } else {
            k2
        };
        let ghost old_acc = arms_view(acc@);
        let ghost av = ArmV { pat: toks(pat@), body: nodes_view(body@) };
        acc.push(MatchArm { pat, body });
        proof {
            assert(arms_view(acc@) =~= old_acc + seq![av]);
            match arms(tv(s), k3 as int, cdata, pi) {
                Ok(rest) => {
                    assert(old_acc + (seq![av] + rest) =~= arms_view(acc@) + rest);
                },
                Err(_) => {},
            }
        }
        i = k3;
    }
}

/// `@cdata { .. }`: `p` is at `cdata`.
fn parse_cdata(t: &Vec<TokenTree>, p: usize, pi: bool) -> (r: Result<(Node, usize), ParseError>)
    requires
        p < t@.len(),
    ensures
        node_result(r) == cdata_node(tv(t), p as int, pi),
    decreases t, t@.len() - p, 5int,
{
    assert(t.len() == t@.len());
    if p + 1 < t.len() && is_group(&t[p + 1], Delimiter::Brace) {
        match &t[p + 1] {
            TokenTree::Group { stream, .. } => {
                proof {
                    lemma_group_stream(&t[p + 1]);
                }
                match parse_body(stream, true, pi) {
                    Err(e) => Err(e),
                    Ok(body) => {
                        let n = Node::Cdata(body);
                        assert(n.view()->Cdata_0 =~= nodes_view(body@));
                        Ok((n, p + 2))
                    },
                }
            },
            _ => Err(new_error(ErrorKind::ExpectedBrace, None)),
        }
    } else {
        let body: Vec<Node> = Vec::new();
        let n = Node::Cdata(body);
        assert(n.view()->Cdata_0 =~= Seq::<NodeV>::empty());
        Ok((n, p + 1))
    }
}

/// `?name attrs { .. }`: `p` is at `?`. The name is made of identifiers and
/// `-` (for example `xml-stylesheet`).
fn parse_pi(t: &Vec<TokenTree>, p: usize, cdata: bool, pi: bool) -> (r: Result<(Node, usize), ParseError>)
    requires
        p < t@.len(),
    ensures
        node_result(r) == pi_node(tv(t), p as int, cdata, pi),
    decreases t, t@.len() - p, 6int,
{
    assert(t.len() == t@.len());
    let e = pi_name_end_exec(t, p + 1);
    proof {
        lemma_pi_name_end(tv(t), p + 1);
    }
    if e <= p + 1 {
        return Err(new_error(ErrorKind::ExpectedPiName, Some(span_of(&t[p]))));
    }
    let mut name = String::new();
    let mut i = p + 1;
    while i < e
        invariant
            p + 1 <= i <= e <= t@.len(),
            name@ == pi_name_text(tv(t), p + 1, i as int),
        decreases e - i,
    {
        push_printed(&mut name, &t[i]);
        i = i + 1;
    }
    let (attrs, q) = match parse_pi_attrs(t, e) {
        Err(err) => {
            return Err(err);
        },
        Ok(r) => r,
    };
    if q < t.len() && is_group(&t[q], Delimiter::Brace) {
        match &t[q] {
            TokenTree::Group { stream, .. } => {
                proof {
                    lemma_group_stream(&t[q as int]);
                }
                match parse_body(stream, cdata, true) {
                    Err(err) => Err(err),
                    Ok(body) => {
                        let n = Node::Pi { name, attrs, body };
                        assert(n.view()->Pi_body =~= nodes_view(body@));
                        Ok((n, q + 1))
                    },
                }
            },
            _ => Err(new_error(ErrorKind::ExpectedBrace, None)),
        }
    } else {
        let body: Vec<Node> = Vec::new();
        let n = Node::Pi { name, attrs, body };
        assert(n.view()->Pi_body =~= Seq::<NodeV>::empty());
        Ok((n, q))
    }
}


// ==================== Parser ====================

/// A template's tokens and the position up to which they have been parsed.
pub struct Parser {
    tokens: Vec<TokenTree>,
    pos: usize,
}

impl Parser {
    /// The values of the tokens.
    pub closed spec fn tokens(&self) -> Seq<Tok> {
        toks(self.tokens@)
    }

    /// How many tokens have been parsed.
    pub closed spec fn position(&self) -> int {
        self.pos as int
    }

    /// A parser at the start of `input`.
    pub fn new(input: Vec<TokenTree>) -> (r: Self)
        ensures
            r.tokens() == toks(input@),
            r.position() == 0,
    {
        Parser { tokens: input, pos: 0 }
    }

    /// Parses the nodes of the remaining tokens. On success every token has
    /// been parsed.
    pub fn parse_body(&mut self) -> (r: Result<Vec<Node>, ParseError>)
        ensures
            nodes_result(r) == nodes(old(self).tokens(), old(self).position(), false, false),
            final(self).tokens() == old(self).tokens(),
            r is Ok ==> final(self).position() == final(self).tokens().len(),
            r is Err ==> final(self).position() == old(self).position(),
    {
        let r = parse_nodes(&self.tokens, self.pos, false, false);
        if r.is_ok() {
            self.pos = self.tokens.len();
        }
        r
    }
}

} // verus!
