//! The template grammar: what parsing a token stream gives, stated over token
//! values.
use vstd::prelude::*;

use crate::ast::{ArmV, AttrV, CondV, NodeV, SpliceMod};
use crate::chars::{contains, is_alphabetic, is_alphanumeric, string_literal_value, char_literal_value, trimmed};
use crate::token::{Delimiter, Tok};

verus! {

/// What went wrong while parsing a template.
#[derive(Debug, Clone, Copy, PartialEq, Eq, Structural)]
pub enum ErrorKind {
    /// A bracketed name does not start with a letter, `_` or `:`.
    InvalidNameStart,
    /// A bracketed name holds a character that no XML name may hold.
    InvalidNameChar(char),
    /// Two attributes of one element share a name.
    DuplicateAttr,
    /// A punctuation character that starts no node.
    UnexpectedPunct(char),
    /// A group that starts no node.
    UnexpectedToken,
    /// `[]` as an element name.
    EmptyElementName,
    /// A token left over in an attribute list.
    TokenInAttrList,
    /// `[]` as an attribute name.
    EmptyAttrName,
    /// An attribute list entry that starts with no name.
    ExpectedAttrName,
    /// An attribute name at the end of the list.
    ExpectedAttrValue,
    /// `name=` at the end of the list.
    ExpectedValueAfterEq,
    /// A literal that is not a string literal where one is required.
    ExpectedStringLiteral,
    /// An attribute name followed by neither `=` nor `?`.
    ExpectedEqOrQuestion,
    /// Literal text inside `@cdata` holding `]]>`, alone or with the
    /// literals written right next to it.
    CdataTerminatorInText,
    /// Literal text inside a processing instruction holding `?>`, alone or
    /// with the literals written right next to it.
    PiTerminatorInText,
    /// A literal that is neither a string nor a character literal.
    NotTextLiteral,
    /// `@` at the end of the input.
    ExpectedExprAfterAt,
    /// No `{` after a condition or an expression.
    ExpectedBrace,
    /// No `in` after the pattern of `@for`.
    ExpectedIn,
    /// A match arm's pattern runs to the end of the block.
    ExpectedMoreTokens,
    /// A match arm's pattern followed by no `=>`.
    ExpectedFatArrow,
    /// `?` followed by no name.
    ExpectedPiName,
    /// A processing instruction's literal attribute holding `?>`.
    PiTerminatorInAttr,
    /// `!` at the end of the input.
    ExpectedDoctypeAfterBang,
    /// `!` followed by something other than `DOCTYPE`.
    ExpectedDoctype,
    /// `@comment` followed by no literal.
    ExpectedCommentLiteral,
    /// Comment text holding `--`.
    CommentDoubleDash,
    /// Comment text ending in `-`, which would run into the closing `-->`.
    CommentEndsWithDash,
}

/// The value of a parse error: its kind, the name it concerns (for the name
/// and duplicate-attribute errors; empty otherwise) and the span index of the
/// token it points at (`None`: the macro invocation as a whole).
pub struct ErrV {
    pub kind: ErrorKind,
    pub name: Seq<char>,
    pub span: Option<usize>,
}

pub open spec fn error(kind: ErrorKind, span: Option<usize>) -> ErrV {
    ErrV { kind, name: seq![], span }
}

// ==================== Names ====================

pub open spec fn is_name_start(c: char) -> bool {
    is_alphabetic(c) || c == '_' || c == ':'
}

pub open spec fn is_name_char(c: char) -> bool {
    is_alphanumeric(c) || c == '_' || c == ':' || c == '-' || c == '.'
}

/// The index of the first character at or after `i` that no name may hold,
/// or the length of `name`.
pub open spec fn first_bad_name_char(name: Seq<char>, i: int) -> int
    decreases name.len() - i,
{
    if i >= name.len() {
        name.len() as int
    } else if !is_name_char(name[i]) {
        i
    } else {
        first_bad_name_char(name, i + 1)
    }
}

/// Whether `name` is a well-formed XML name (NameStartChar NameChar*).
pub open spec fn is_xml_name(name: Seq<char>) -> bool {
    name.len() > 0 && is_name_start(name[0]) && forall|i: int|
        1 <= i < name.len() ==> is_name_char(#[trigger] name[i])
}

/// The error of a bracketed name, if it is not a well-formed XML name.
pub open spec fn name_error(name: Seq<char>, span: Option<usize>) -> Option<ErrV> {
    if name.len() == 0 || !is_name_start(name[0]) {
        Some(ErrV { kind: ErrorKind::InvalidNameStart, name, span })
    } else {
        let k = first_bad_name_char(name, 1);
        if k < name.len() {
            Some(ErrV { kind: ErrorKind::InvalidNameChar(name[k]), name, span })
        } else {
            None
        }
    }
}

// ==================== Attributes ====================

/// Whether attribute `i` repeats the name of an earlier one.
pub open spec fn repeats_name(attrs: Seq<AttrV>, i: int) -> bool {
    exists|j: int| 0 <= j < i && attrs[j].name() == attrs[i].name()
}

/// The index of the first attribute at or after `i` that repeats an earlier
/// name, or the length of `attrs`.
pub open spec fn first_duplicate(attrs: Seq<AttrV>, i: int) -> int
    decreases attrs.len() - i,
{
    if i >= attrs.len() {
        attrs.len() as int
    } else if repeats_name(attrs, i) {
        i
    } else {
        first_duplicate(attrs, i + 1)
    }
}

/// The error for the first attribute that repeats a name, if any.
pub open spec fn duplicate_error(attrs: Seq<AttrV>) -> Option<ErrV> {
    let k = first_duplicate(attrs, 0);
    if k < attrs.len() {
        Some(ErrV { kind: ErrorKind::DuplicateAttr, name: attrs[k].name(), span: Some(attrs[k].name_span()) })
    } else {
        None
    }
}

pub open spec fn ends_attr_expr(t: Tok) -> bool {
    t.is_punct(',') || t.is_punct(')') || t.is_punct(']') || t.is_punct('}')
}

/// Where an attribute's expression ends: at the first `,` `)` `]` `}` at or
/// after `p`, or at the end.
pub open spec fn attr_expr_end(t: Seq<Tok>, p: int) -> int
    decreases t.len() - p,
{
    if p >= t.len() {
        t.len() as int
    } else if ends_attr_expr(t[p]) {
        p
    } else {
        attr_expr_end(t, p + 1)
    }
}

/// The value of an attribute named `name`, written from `p` on.
pub open spec fn attr_value(t: Seq<Tok>, p: int, name: Seq<char>, name_span: usize) -> Result<(AttrV, int), ErrV> {
    if p >= t.len() {
        Err(error(ErrorKind::ExpectedAttrValue, Some(name_span)))
    } else if t[p].is_punct('=') {
        if p + 1 >= t.len() {
            Err(error(ErrorKind::ExpectedValueAfterEq, Some(t[p].span())))
        } else if t[p + 1] is Literal {
            match string_literal_value(t[p + 1]->Literal_text) {
                Some(v) => Ok((AttrV::Lit { name, name_span, value: v, value_span: t[p + 1].span() }, p + 2)),
                None => Err(error(ErrorKind::ExpectedStringLiteral, Some(t[p + 1].span()))),
            }
        } else {
            let e = attr_expr_end(t, p + 1);
            Ok((AttrV::Expr { name, name_span, value: t.subrange(p + 1, e) }, e))
        }
    } else if t[p].is_punct('?') {
        if p + 1 < t.len() && t[p + 1].is_punct('=') {
            let e = attr_expr_end(t, p + 2);
            Ok((AttrV::CondExpr {
                name,
                name_span,
                cond: CondV::Always { span: t[p + 1].span() },
                value: t.subrange(p + 2, e),
            }, e))
        } else {
            let e = attr_expr_end(t, p + 1);
            if e <= p + 1 {
                Ok((AttrV::CondExpr { name, name_span, cond: CondV::Always { span: t[p].span() }, value: seq![] }, p + 1))
            } else {
                Ok((AttrV::CondExpr { name, name_span, cond: CondV::Expr(t.subrange(p + 1, e)), value: seq![] }, e))
            }
        }
    } else {
        Err(error(ErrorKind::ExpectedEqOrQuestion, Some(t[p].span())))
    }
}

/// One attribute of a list, starting at `p < t.len()`.
pub open spec fn one_attr(t: Seq<Tok>, p: int) -> Result<(AttrV, int), ErrV> {
    match t[p] {
        Tok::Ident { name, span } => attr_value(t, p + 1, name, span),
        Tok::Group { delimiter, stream_text, span, .. } => {
            if delimiter == Delimiter::Bracket {
                let n = trimmed(stream_text);
                if n.len() == 0 {
                    Err(error(ErrorKind::EmptyAttrName, Some(span)))
                } else {
                    match name_error(n, Some(span)) {
                        Some(e) => Err(e),
                        None => attr_value(t, p + 1, n, span),
                    }
                }
            } else {
                Err(error(ErrorKind::ExpectedAttrName, Some(span)))
            }
        },
        _ => Err(error(ErrorKind::ExpectedAttrName, Some(t[p].span()))),
    }
}

/// The attributes of a list, from `p` on: entries separated by commas, until
/// the end or the first entry not followed by a comma.
pub open spec fn attr_list(t: Seq<Tok>, p: int) -> Result<(Seq<AttrV>, int), ErrV>
    decreases t.len() - p,
{
    if p >= t.len() {
        Ok((seq![], p))
    } else if t[p].is_punct(',') {
        attr_list(t, p + 1)
    } else {
        proof {
            if 0 <= p {
                lemma_one_attr_advances(t, p);
            }
        }
        match one_attr(t, p) {
            Err(e) => Err(e),
            Ok((a, q)) => {
                if p < 0 {
                    Ok((seq![a], q))
                } else if q < t.len() && t[q].is_punct(',') {
                    match attr_list(t, q + 1) {
                        Ok((rest, r)) => Ok((seq![a] + rest, r)),
                        Err(e) => Err(e),
                    }
                } else {
                    Ok((seq![a], q))
                }
            },
        }
    }
}

/// The attribute list of an element: a `( ... )` group at `p`, if there is
/// one.
pub open spec fn attrs(t: Seq<Tok>, p: int) -> Result<(Seq<AttrV>, int), ErrV> {
    if p < t.len() && t[p].is_group(Delimiter::Parenthesis) {
        let inner = t[p]->Group_stream;
        match attr_list(inner, 0) {
            Err(e) => Err(e),
            Ok((list, k)) => match duplicate_error(list) {
                Some(e) => Err(e),
                None => {
                    if k < inner.len() {
                        Err(error(ErrorKind::TokenInAttrList, Some(inner[k].span())))
                    } else {
                        Ok((list, p + 1))
                    }
                },
            },
        }
    } else {
        Ok((seq![], p))
    }
}

// ==================== Scans ====================

/// Whether a literal's source text is that of a string or character
/// literal, which starts a text node.
pub open spec fn starts_text(text: Seq<char>) -> bool {
    text.len() > 0 && (text[0] == '"' || text[0] == '\'' || (text[0] == 'r' && text.len() > 1 && (text[1] == '"'
        || text[1] == '#')))
}

/// Whether the token at `i` ends a splice expression: it starts the next
/// part of the template (a block, `;`, `@`, a comment, an element, or a
/// string or character literal, which is text).
pub open spec fn ends_splice(t: Seq<Tok>, i: int) -> bool {
    ||| t[i].is_group(Delimiter::Brace)
    ||| t[i].is_punct(';')
    ||| t[i].is_punct('@')
    ||| (t[i].is_punct('/') && i + 1 < t.len() && t[i + 1].is_punct('*'))
    ||| (t[i].is_ident() && i + 1 < t.len() && t[i + 1].is_group(Delimiter::Brace))
    ||| (t[i] is Literal && starts_text(t[i]->Literal_text))
}

/// Where a splice expression starting at `p` ends.
pub open spec fn splice_end(t: Seq<Tok>, p: int) -> int
    decreases t.len() - p,
{
    if p >= t.len() {
        t.len() as int
    } else if ends_splice(t, p) {
        p
    } else {
        splice_end(t, p + 1)
    }
}

/// The index of the first `{ ... }` group at or after `p`, or the length.
pub open spec fn brace_at_or_after(t: Seq<Tok>, p: int) -> int
    decreases t.len() - p,
{
    if p >= t.len() {
        t.len() as int
    } else if t[p].is_group(Delimiter::Brace) {
        p
    } else {
        brace_at_or_after(t, p + 1)
    }
}

/// The index of the first identifier `kw` at or after `p`, or the length.
pub open spec fn keyword_at_or_after(t: Seq<Tok>, p: int, kw: Seq<char>) -> int
    decreases t.len() - p,
{
    if p >= t.len() {
        t.len() as int
    } else if t[p].is_keyword(kw) {
        p
    } else {
        keyword_at_or_after(t, p + 1, kw)
    }
}

/// The index of the first `=` or `>` at or after `p`, or the length.
pub open spec fn arrow_at_or_after(t: Seq<Tok>, p: int) -> int
    decreases t.len() - p,
{
    if p >= t.len() {
        t.len() as int
    } else if t[p].is_punct('=') || t[p].is_punct('>') {
        p
    } else {
        arrow_at_or_after(t, p + 1)
    }
}

/// Whether an element starts at `i`: an identifier followed by `( ... )` or
/// `{ ... }`.
pub open spec fn element_starts(t: Seq<Tok>, i: int) -> bool {
    t[i].is_ident() && i + 1 < t.len() && (t[i + 1].is_group(Delimiter::Parenthesis) || t[i + 1].is_group(
        Delimiter::Brace,
    ))
}

/// Where a DOCTYPE specification starting at `p` ends: at a `{ ... }` group,
/// at the start of an element, or at the end.
pub open spec fn doctype_end(t: Seq<Tok>, p: int) -> int
    decreases t.len() - p,
{
    if p >= t.len() {
        t.len() as int
    } else if t[p].is_group(Delimiter::Brace) || element_starts(t, p) {
        p
    } else {
        doctype_end(t, p + 1)
    }
}

/// The printed tokens of `parts`, separated by single spaces.
pub open spec fn join_printed(parts: Seq<Tok>) -> Seq<char>
    decreases parts.len(),
{
    if parts.len() == 0 {
        seq![]
    } else if parts.len() == 1 {
        parts[0].printed()
    } else {
        join_printed(parts.drop_last()) + seq![' '] + parts.last().printed()
    }
}

/// Whether the token at `i` continues the name of a processing instruction:
/// an identifier that does not start an attribute, or `-`.
pub open spec fn continues_pi_name(t: Seq<Tok>, i: int) -> bool {
    ||| (t[i].is_ident() && !(i + 1 < t.len() && (t[i + 1].is_punct('=') || t[i + 1].is_punct('?'))))
    ||| t[i].is_punct('-')
}

/// Where the name of a processing instruction starting at `p` ends.
pub open spec fn pi_name_end(t: Seq<Tok>, p: int) -> int
    decreases t.len() - p,
{
    if p >= t.len() {
        t.len() as int
    } else if continues_pi_name(t, p) {
        pi_name_end(t, p + 1)
    } else {
        p
    }
}

/// The name of a processing instruction held by `t[p..e]`.
pub open spec fn pi_name_text(t: Seq<Tok>, p: int, e: int) -> Seq<char>
    decreases e - p,
{
    if p >= e {
        seq![]
    } else {
        pi_name_text(t, p, e - 1) + t[e - 1].printed()
    }
}

/// Whether `t[i]` starts an attribute of a processing instruction.
pub open spec fn starts_pi_attr(t: Seq<Tok>, i: int) -> bool {
    i < t.len() && t[i].is_ident() && i + 1 < t.len() && (t[i + 1].is_punct('=') || t[i + 1].is_punct('?'))
}

pub open spec fn pi_close() -> Seq<char> {
    seq!['?', '>']
}

pub open spec fn cdata_close() -> Seq<char> {
    seq![']', ']', '>']
}

pub open spec fn double_dash() -> Seq<char> {
    seq!['-', '-']
}

/// The attributes of a processing instruction, from `p` on.
pub open spec fn pi_attr_list(t: Seq<Tok>, p: int) -> Result<(Seq<AttrV>, int), ErrV>
    decreases t.len() - p,
{
    if 0 <= p && starts_pi_attr(t, p) {
        proof {
            lemma_attr_value_advances(t, p + 1, t[p]->Ident_name, t[p].span());
        }
        match attr_value(t, p + 1, t[p]->Ident_name, t[p].span()) {
            Err(e) => Err(e),
            Ok((a, q)) => {
                if a is Lit && contains(a->Lit_value, pi_close()) {
                    Err(error(ErrorKind::PiTerminatorInAttr, Some(a->Lit_value_span)))
                } else {
                    match pi_attr_list(t, q) {
                        Ok((rest, r)) => Ok((seq![a] + rest, r)),
                        Err(e) => Err(e),
                    }
                }
            },
        }
    } else {
        Ok((seq![], p))
    }
}

/// The attributes of a processing instruction, checked for repeated names.
pub open spec fn pi_attrs(t: Seq<Tok>, p: int) -> Result<(Seq<AttrV>, int), ErrV> {
    match pi_attr_list(t, p) {
        Err(e) => Err(e),
        Ok((list, q)) => match duplicate_error(list) {
            Some(e) => Err(e),
            None => Ok((list, q)),
        },
    }
}

// ==================== Bounds of the scans ====================

pub proof fn lemma_attr_expr_end(t: Seq<Tok>, p: int)
    requires
        0 <= p,
    ensures
        p <= attr_expr_end(t, p) <= t.len() || (p > t.len() && attr_expr_end(t, p) == t.len()),
        attr_expr_end(t, p) < t.len() ==> ends_attr_expr(t[attr_expr_end(t, p)]),
        forall|i: int| p <= i < attr_expr_end(t, p) ==> !ends_attr_expr(#[trigger] t[i]),
    decreases t.len() - p,
{
    if p < t.len() && !ends_attr_expr(t[p]) {
        lemma_attr_expr_end(t, p + 1);
    }
}

pub proof fn lemma_brace_at_or_after(t: Seq<Tok>, p: int)
    requires
        0 <= p,
    ensures
        p <= brace_at_or_after(t, p) <= t.len() || (p > t.len() && brace_at_or_after(t, p) == t.len()),
        brace_at_or_after(t, p) < t.len() ==> t[brace_at_or_after(t, p)].is_group(Delimiter::Brace),
        forall|i: int| p <= i < brace_at_or_after(t, p) ==> !(#[trigger] t[i]).is_group(Delimiter::Brace),
    decreases t.len() - p,
{
    if p < t.len() && !t[p].is_group(Delimiter::Brace) {
        lemma_brace_at_or_after(t, p + 1);
    }
}

pub proof fn lemma_keyword_at_or_after(t: Seq<Tok>, p: int, kw: Seq<char>)
    requires
        0 <= p,
    ensures
        p <= keyword_at_or_after(t, p, kw) <= t.len() || (p > t.len() && keyword_at_or_after(t, p, kw) == t.len()),
        keyword_at_or_after(t, p, kw) < t.len() ==> t[keyword_at_or_after(t, p, kw)].is_keyword(kw),
        forall|i: int| p <= i < keyword_at_or_after(t, p, kw) ==> !(#[trigger] t[i]).is_keyword(kw),
    decreases t.len() - p,
{
    if p < t.len() && !t[p].is_keyword(kw) {
        lemma_keyword_at_or_after(t, p + 1, kw);
    }
}

pub proof fn lemma_arrow_at_or_after(t: Seq<Tok>, p: int)
    requires
        0 <= p,
    ensures
        p <= arrow_at_or_after(t, p) <= t.len() || (p > t.len() && arrow_at_or_after(t, p) == t.len()),
        arrow_at_or_after(t, p) < t.len() ==> (t[arrow_at_or_after(t, p)].is_punct('=') || t[arrow_at_or_after(t, p)].is_punct('>')),
        forall|i: int| p <= i < arrow_at_or_after(t, p) ==> !((#[trigger] t[i]).is_punct('=') || t[i].is_punct('>')),
    decreases t.len() - p,
{
    if p < t.len() && !(t[p].is_punct('=') || t[p].is_punct('>')) {
        lemma_arrow_at_or_after(t, p + 1);
    }
}

pub proof fn lemma_splice_end(t: Seq<Tok>, p: int)
    requires
        0 <= p,
    ensures
        p <= splice_end(t, p) <= t.len() || (p > t.len() && splice_end(t, p) == t.len()),
        splice_end(t, p) < t.len() ==> ends_splice(t, splice_end(t, p)),
        forall|i: int| p <= i < splice_end(t, p) ==> !#[trigger] ends_splice(t, i),
    decreases t.len() - p,
{
    if p < t.len() && !ends_splice(t, p) {
        lemma_splice_end(t, p + 1);
    }
}

/// A splice never fails and takes its expression as it stands: the tokens
/// from `p`, in order and unchanged, up to the first token that ends a
/// splice (a block, `;`, `@`, a comment, an element, or a text literal) or
/// the end, without a trailing `.raw`; what follows starts at that token.
pub proof fn law_splice_takes_the_tokens_before_its_end(t: Seq<Tok>, p: int)
    requires
        0 <= p <= t.len(),
    ensures
        p <= splice(t, p).1 <= t.len(),
        forall|i: int| p <= i < splice(t, p).1 ==> !#[trigger] ends_splice(t, i),
        splice(t, p).1 < t.len() ==> ends_splice(t, splice(t, p).1),
        splice(t, p).0 matches NodeV::Splice { expr, modifier } && (expr == t.subrange(p, splice(t, p).1) || (
        modifier is Raw && expr == t.subrange(p, splice(t, p).1 - 2))),
{
    lemma_splice_end(t, p);
    let e = splice_end(t, p);
    let x = t.subrange(p, e);
    if x.len() >= 2 {
        assert(x.subrange(0, x.len() - 2) =~= t.subrange(p, e - 2));
    }
}

pub proof fn lemma_doctype_end(t: Seq<Tok>, p: int)
    requires
        0 <= p,
    ensures
        p <= doctype_end(t, p) <= t.len() || (p > t.len() && doctype_end(t, p) == t.len()),
        forall|i: int| p <= i < doctype_end(t, p) ==> !((#[trigger] t[i]).is_group(Delimiter::Brace) || element_starts(t, i)),
        doctype_end(t, p) < t.len() ==> (t[doctype_end(t, p)].is_group(Delimiter::Brace) || element_starts(t, doctype_end(t, p))),
    decreases t.len() - p,
{
    if p < t.len() && !(t[p].is_group(Delimiter::Brace) || element_starts(t, p)) {
        lemma_doctype_end(t, p + 1);
    }
}

pub proof fn lemma_pi_name_end(t: Seq<Tok>, p: int)
    requires
        0 <= p,
    ensures
        p <= pi_name_end(t, p) <= t.len() || (p > t.len() && pi_name_end(t, p) == t.len()),
        forall|i: int| p <= i < pi_name_end(t, p) ==> #[trigger] continues_pi_name(t, i),
        pi_name_end(t, p) < t.len() ==> !continues_pi_name(t, pi_name_end(t, p)),
    decreases t.len() - p,
{
    if p < t.len() && continues_pi_name(t, p) {
        lemma_pi_name_end(t, p + 1);
    }
}

/// An attribute value read from `p` ends after `p`.
pub proof fn lemma_attr_value_advances(t: Seq<Tok>, p: int, name: Seq<char>, name_span: usize)
    requires
        0 <= p,
    ensures
        attr_value(t, p, name, name_span) matches Ok((_, q)) ==> p < q <= t.len(),
{
    if p < t.len() {
        lemma_attr_expr_end(t, p + 1);
        lemma_attr_expr_end(t, p + 2);
    }
}

/// One attribute read from `p` ends after `p`.
pub proof fn lemma_one_attr_advances(t: Seq<Tok>, p: int)
    requires
        0 <= p < t.len(),
    ensures
        one_attr(t, p) matches Ok((_, q)) ==> p < q <= t.len(),
{
    lemma_attr_value_advances(t, p + 1, seq![], 0);
    match t[p] {
        Tok::Ident { name, span } => lemma_attr_value_advances(t, p + 1, name, span),
        Tok::Group { stream_text, span, .. } => lemma_attr_value_advances(t, p + 1, trimmed(stream_text), span),
        _ => {},
    }
}

// ==================== Leaf nodes ====================

/// A text node: the string or character literal at `p`.
pub open spec fn text(t: Seq<Tok>, p: int, cdata: bool, pi: bool) -> Result<(NodeV, int), ErrV> {
    let src = t[p]->Literal_text;
    let span = t[p].span();
    match string_literal_value(src) {
        Some(v) => {
            if cdata && contains(v, cdata_close()) {
                Err(error(ErrorKind::CdataTerminatorInText, Some(span)))
            } else if pi && contains(v, pi_close()) {
                Err(error(ErrorKind::PiTerminatorInText, Some(span)))
            } else {
                Ok((NodeV::Text(v), p + 1))
            }
        },
        None => match char_literal_value(src) {
            Some(c) => Ok((NodeV::Text(seq![c]), p + 1)),
            None => Err(error(ErrorKind::NotTextLiteral, Some(span))),
        },
    }
}

/// A splice `@expr` whose expression starts at `p`; a trailing `.raw`
/// selects verbatim insertion.
pub open spec fn splice(t: Seq<Tok>, p: int) -> (NodeV, int) {
    let e = splice_end(t, p);
    let x = t.subrange(p, e);
    if x.len() >= 2 && x[x.len() - 2].is_punct('.') && x[x.len() - 1].is_keyword(seq!['r', 'a', 'w']) {
        (NodeV::Splice { expr: x.subrange(0, x.len() - 2), modifier: SpliceMod::Raw }, e)
    } else {
        (NodeV::Splice { expr: x, modifier: SpliceMod::Escaped }, e)
    }
}

/// `@comment "text"`: `p` is at `comment`, `at_span` the span of `@`.
pub open spec fn comment(t: Seq<Tok>, p: int, at_span: usize) -> Result<(NodeV, int), ErrV> {
    if p + 1 >= t.len() {
        Err(error(ErrorKind::ExpectedCommentLiteral, Some(at_span)))
    } else if t[p + 1] is Literal {
        match string_literal_value(t[p + 1]->Literal_text) {
            None => Err(error(ErrorKind::ExpectedStringLiteral, Some(t[p + 1].span()))),
            Some(v) => {
                if contains(v, double_dash()) {
                    Err(error(ErrorKind::CommentDoubleDash, Some(t[p + 1].span())))
                } else if v.len() > 0 && v.last() == '-' {
                    Err(error(ErrorKind::CommentEndsWithDash, Some(t[p + 1].span())))
                } else {
                    Ok((NodeV::Comment(v), p + 2))
                }
            },
        }
    } else {
        Err(error(ErrorKind::ExpectedCommentLiteral, Some(t[p + 1].span())))
    }
}

/// `!DOCTYPE spec`: `p` is at `!`.
pub open spec fn doctype(t: Seq<Tok>, p: int) -> Result<(NodeV, int), ErrV> {
    if p + 1 >= t.len() {
        Err(error(ErrorKind::ExpectedDoctypeAfterBang, Some(t[p].span())))
    } else if !t[p + 1].is_keyword(seq!['D', 'O', 'C', 'T', 'Y', 'P', 'E']) {
        Err(error(ErrorKind::ExpectedDoctype, Some(t[p + 1].span())))
    } else {
        let e = doctype_end(t, p + 2);
        Ok((NodeV::Doctype(join_printed(t.subrange(p + 2, e))), e))
    }
}

// ==================== Nested nodes ====================

/// The nodes of a stream of tokens.
pub open spec fn body(t: Seq<Tok>, cdata: bool, pi: bool) -> Result<Seq<NodeV>, ErrV>
    decreases t, t.len(), 9int,
{
    match nodes(t, 0, cdata, pi) {
        Err(e) => Err(e),
        Ok(ns) => {
            if cdata && run_contains(ns, cdata_close()) {
                Err(error(ErrorKind::CdataTerminatorInText, None))
            } else if pi && run_contains(ns, pi_close()) {
                Err(error(ErrorKind::PiTerminatorInText, None))
            } else {
                Ok(ns)
            }
        },
    }
}

/// The text of the literals that follow one another from `i` on, up to the
/// first node that is not text: what they write, side by side.
pub open spec fn text_run(ns: Seq<NodeV>, i: int) -> Seq<char>
    decreases ns.len() - i,
{
    if 0 <= i < ns.len() && ns[i] is Text {
        ns[i]->Text_0 + text_run(ns, i + 1)
    } else {
        seq![]
    }
}

/// Whether literals written side by side in `ns` hold `pat` between them.
pub open spec fn run_contains(ns: Seq<NodeV>, pat: Seq<char>) -> bool {
    exists|i: int| 0 <= i < ns.len() && contains(#[trigger] text_run(ns, i), pat)
}

/// The nodes of `t` from `p` on.
pub open spec fn nodes(t: Seq<Tok>, p: int, cdata: bool, pi: bool) -> Result<Seq<NodeV>, ErrV>
    decreases t, t.len() - p, 8int,
{
    if p < 0 || p >= t.len() {
        Ok(seq![])
    } else {
        match node(t, p, cdata, pi) {
            Err(e) => Err(e),
            Ok((n, q)) => {
                // Never taken (`lemma_node_advances`); it keeps the
                // recursion visibly finite.
                if q <= p || q > t.len() {
                    Ok(seq![n])
                } else {
                    match nodes(t, q, cdata, pi) {
                        Ok(rest) => Ok(seq![n] + rest),
                        Err(e) => Err(e),
                    }
                }
            },
        }
    }
}

/// The node starting at `p`.
pub open spec fn node(t: Seq<Tok>, p: int, cdata: bool, pi: bool) -> Result<(NodeV, int), ErrV>
    decreases t, t.len() - p, 7int,
{
    if p < 0 || p >= t.len() {
        Err(error(ErrorKind::UnexpectedToken, None))
    } else {
        match t[p] {
            Tok::Punct { ch, span, .. } => {
                if ch == '@' {
                    at(t, p, cdata, pi)
                } else if ch == '?' {
                    pi_node(t, p, cdata, pi)
                } else if ch == '!' {
                    doctype(t, p)
                } else {
                    Err(error(ErrorKind::UnexpectedPunct(ch), Some(span)))
                }
            },
            Tok::Ident { name, .. } => element(t, p + 1, name, cdata, pi),
            Tok::Group { delimiter, stream_text, span, .. } => {
                if delimiter == Delimiter::Bracket {
                    let n = trimmed(stream_text);
                    if n.len() == 0 {
                        Err(error(ErrorKind::EmptyElementName, Some(span)))
                    } else {
                        match name_error(n, Some(span)) {
                            Some(e) => Err(e),
                            None => element(t, p + 1, n, cdata, pi),
                        }
                    }
                } else {
                    Err(error(ErrorKind::UnexpectedToken, Some(span)))
                }
            },
            Tok::Literal { .. } => text(t, p, cdata, pi),
        }
    }
}

/// The rest of an element named `name`: its attributes and body, from `p`
/// on.
pub open spec fn element(t: Seq<Tok>, p: int, name: Seq<char>, cdata: bool, pi: bool) -> Result<(NodeV, int), ErrV>
    decreases t, t.len() - p, 6int,
{
    match attrs(t, p) {
        Err(e) => Err(e),
        Ok((a, q)) => {
            if 0 <= q < t.len() && t[q].is_group(Delimiter::Brace) {
                match body(t[q]->Group_stream, cdata, pi) {
                    Err(e) => Err(e),
                    Ok(b) => Ok((NodeV::Element { name, attrs: a, body: b }, q + 1)),
                }
            } else {
                Ok((NodeV::Element { name, attrs: a, body: seq![] }, q))
            }
        },
    }
}

pub open spec fn kw_if() -> Seq<char> {
    seq!['i', 'f']
}

pub open spec fn kw_else() -> Seq<char> {
    seq!['e', 'l', 's', 'e']
}

pub open spec fn kw_for() -> Seq<char> {
    seq!['f', 'o', 'r']
}

pub open spec fn kw_in() -> Seq<char> {
    seq!['i', 'n']
}

pub open spec fn kw_while() -> Seq<char> {
    seq!['w', 'h', 'i', 'l', 'e']
}

pub open spec fn kw_match() -> Seq<char> {
    seq!['m', 'a', 't', 'c', 'h']
}

pub open spec fn kw_cdata() -> Seq<char> {
    seq!['c', 'd', 'a', 't', 'a']
}

pub open spec fn kw_comment() -> Seq<char> {
    seq!['c', 'o', 'm', 'm', 'e', 'n', 't']
}

/// A node introduced by `@` at `p`.
pub open spec fn at(t: Seq<Tok>, p: int, cdata: bool, pi: bool) -> Result<(NodeV, int), ErrV>
    decreases t, t.len() - p, 6int,
{
    if p < 0 || p + 1 >= t.len() {
        Err(error(ErrorKind::ExpectedExprAfterAt, Some(t[p].span())))
    } else {
        let k = t[p + 1];
        if k.is_keyword(kw_if()) {
            if_node(t, p + 1, cdata, pi)
        } else if k.is_keyword(kw_for()) {
            for_node(t, p + 1, cdata, pi)
        } else if k.is_keyword(kw_while()) {
            while_node(t, p + 1, cdata, pi)
        } else if k.is_keyword(kw_match()) {
            match_node(t, p + 1, cdata, pi)
        } else if k.is_keyword(kw_cdata()) {
            cdata_node(t, p + 1, pi)
        } else if k.is_keyword(kw_comment()) {
            comment(t, p + 1, t[p].span())
        } else {
            Ok(splice(t, p + 1))
        }
    }
}

/// `@if cond { .. } else { .. }`: `p` is at `if`.
pub open spec fn if_node(t: Seq<Tok>, p: int, cdata: bool, pi: bool) -> Result<(NodeV, int), ErrV>
    decreases t, t.len() - p, 5int,
{
    let b = brace_at_or_after(t, p + 1);
    if p < 0 || b >= t.len() {
        Err(error(ErrorKind::ExpectedBrace, None))
    } else {
        proof {
            lemma_brace_at_or_after(t, p + 1);
        }
        let cond = t.subrange(p + 1, b);
        match body(t[b]->Group_stream, cdata, pi) {
            Err(e) => Err(e),
            Ok(then) => {
                let q = b + 1;
                if q < t.len() && t[q].is_keyword(kw_else()) {
                    if 0 <= q + 1 < t.len() && t[q + 1].is_group(Delimiter::Brace) {
                        match body(t[q + 1]->Group_stream, cdata, pi) {
                            Err(e) => Err(e),
                            Ok(els) => Ok((
                                NodeV::If { cond, then, else_: if els.len() == 0 { None } else { Some(els) } },
                                q + 2,
                            )),
                        }
                    } else {
                        Ok((NodeV::If { cond, then, else_: None }, q + 1))
                    }
                } else {
                    Ok((NodeV::If { cond, then, else_: None }, q))
                }
            },
        }
    }
}

/// `@for pat in expr { .. }`: `p` is at `for`.
pub open spec fn for_node(t: Seq<Tok>, p: int, cdata: bool, pi: bool) -> Result<(NodeV, int), ErrV>
    decreases t, t.len() - p, 5int,
{
    let k = keyword_at_or_after(t, p + 1, kw_in());
    if p < 0 || k >= t.len() {
        Err(error(ErrorKind::ExpectedIn, None))
    } else {
        proof {
            lemma_keyword_at_or_after(t, p + 1, kw_in());
            lemma_brace_at_or_after(t, k + 1);
        }
        let b = brace_at_or_after(t, k + 1);
        if b >= t.len() {
            Err(error(ErrorKind::ExpectedBrace, None))
        } else {
            match body(t[b]->Group_stream, cdata, pi) {
                Err(e) => Err(e),
                Ok(bd) => Ok((
                    NodeV::For { pat: t.subrange(p + 1, k), expr: t.subrange(k + 1, b), body: bd },
                    b + 1,
                )),
            }
        }
    }
}

/// `@while cond { .. }`: `p` is at `while`.
pub open spec fn while_node(t: Seq<Tok>, p: int, cdata: bool, pi: bool) -> Result<(NodeV, int), ErrV>
    decreases t, t.len() - p, 5int,
{
    let b = brace_at_or_after(t, p + 1);
    if p < 0 || b >= t.len() {
        Err(error(ErrorKind::ExpectedBrace, None))
    } else {
        proof {
            lemma_brace_at_or_after(t, p + 1);
        }
        match body(t[b]->Group_stream, cdata, pi) {
            Err(e) => Err(e),
            Ok(bd) => Ok((NodeV::While { cond: t.subrange(p + 1, b), body: bd }, b + 1)),
        }
    }
}

/// `@match expr { pat => { .. }, .. }`: `p` is at `match`. The arms'
/// bodies are parsed in the same context as the match: inside `@cdata` or a
/// processing instruction, their text is checked as there.
pub open spec fn match_node(t: Seq<Tok>, p: int, cdata: bool, pi: bool) -> Result<(NodeV, int), ErrV>
    decreases t, t.len() - p, 5int,
{
    let b = brace_at_or_after(t, p + 1);
    if p < 0 || b >= t.len() {
        Err(error(ErrorKind::ExpectedBrace, None))
    } else {
        proof {
            lemma_brace_at_or_after(t, p + 1);
        }
        match arms(t[b]->Group_stream, 0, cdata, pi) {
            Err(e) => Err(e),
            Ok(a) => Ok((NodeV::Match { expr: t.subrange(p + 1, b), arms: a }, b + 1)),
        }
    }
}

/// The match arms of `s` from `i` on.
pub open spec fn arms(s: Seq<Tok>, i: int, cdata: bool, pi: bool) -> Result<Seq<ArmV>, ErrV>
    decreases s, s.len() - i, 4int,
{
    if i < 0 || i >= s.len() {
        Ok(seq![])
    } else {
        proof {
            lemma_arrow_at_or_after(s, i);
        }
        let j = arrow_at_or_after(s, i);
        if j >= s.len() {
            Err(error(ErrorKind::ExpectedMoreTokens, None))
        } else if !(j + 1 < s.len() && s[j].is_punct('=') && s[j + 1].is_punct('>')) {
            Err(error(ErrorKind::ExpectedFatArrow, Some(s[j].span())))
        } else {
            let pat = s.subrange(i, j);
            let k = j + 2;
            let bd = if k < s.len() && s[k].is_group(Delimiter::Brace) {
                body(s[k]->Group_stream, cdata, pi)
            } else {
                Ok(seq![])
            };
            let k2 = if k < s.len() && s[k].is_group(Delimiter::Brace) {
                k + 1
            } else {
                k
            };
            let k3 = if k2 < s.len() && s[k2].is_punct(',') {
                k2 + 1
            } else {
                k2
            };
            match bd {
                Err(e) => Err(e),
                Ok(b) => {
                    match arms(s, k3, cdata, pi) {
                        Ok(rest) => Ok(seq![ArmV { pat, body: b }] + rest),
                        Err(e) => Err(e),
                    }
                },
            }
        }
    }
}

/// `@cdata { .. }`: `p` is at `cdata`; the body is parsed as CDATA text.
pub open spec fn cdata_node(t: Seq<Tok>, p: int, pi: bool) -> Result<(NodeV, int), ErrV>
    decreases t, t.len() - p, 5int,
{
    if 0 <= p && p + 1 < t.len() && t[p + 1].is_group(Delimiter::Brace) {
        match body(t[p + 1]->Group_stream, true, pi) {
            Err(e) => Err(e),
            Ok(b) => Ok((NodeV::Cdata(b), p + 2)),
        }
    } else {
        Ok((NodeV::Cdata(seq![]), p + 1))
    }
}

/// `?name attrs { .. }`: `p` is at `?`; the body is parsed as processing
/// instruction content.
pub open spec fn pi_node(t: Seq<Tok>, p: int, cdata: bool, pi: bool) -> Result<(NodeV, int), ErrV>
    decreases t, t.len() - p, 6int,
{
    let e = pi_name_end(t, p + 1);
    if p < 0 || e <= p + 1 {
        Err(error(ErrorKind::ExpectedPiName, Some(t[p].span())))
    } else {
        let name = pi_name_text(t, p + 1, e);
        match pi_attrs(t, e) {
            Err(err) => Err(err),
            Ok((a, q)) => {
                if 0 <= q < t.len() && t[q].is_group(Delimiter::Brace) {
                    match body(t[q]->Group_stream, cdata, true) {
                        Err(err) => Err(err),
                        Ok(b) => Ok((NodeV::Pi { name, attrs: a, body: b }, q + 1)),
                    }
                } else {
                    Ok((NodeV::Pi { name, attrs: a, body: seq![] }, q))
                }
            },
        }
    }
}

// ==================== Progress ====================

/// The attributes of a processing instruction read from `p` end at or
/// after `p`, within the tokens.
pub proof fn lemma_pi_attr_list_bounds(t: Seq<Tok>, p: int)
    requires
        0 <= p <= t.len(),
    ensures
        pi_attr_list(t, p) matches Ok((_, q)) ==> p <= q <= t.len(),
    decreases t.len() - p,
{
    if starts_pi_attr(t, p) {
        lemma_attr_value_advances(t, p + 1, t[p]->Ident_name, t[p].span());
        match attr_value(t, p + 1, t[p]->Ident_name, t[p].span()) {
            Ok((_, q)) => lemma_pi_attr_list_bounds(t, q),
            Err(_) => {},
        }
    }
}

/// A node read from `p` ends after `p`, within the tokens: reading nodes
/// always moves on.
pub proof fn lemma_node_advances(t: Seq<Tok>, p: int, cdata: bool, pi: bool)
    requires
        0 <= p < t.len(),
    ensures
        node(t, p, cdata, pi) matches Ok((_, q)) ==> p < q <= t.len(),
{
    match t[p] {
        Tok::Punct { ch, .. } => {
            if ch == '@' && p + 1 < t.len() {
                let k = t[p + 1];
                if k.is_keyword(kw_if()) {
                    lemma_brace_at_or_after(t, p + 2);
                } else if k.is_keyword(kw_for()) {
                    lemma_keyword_at_or_after(t, p + 2, kw_in());
                    let i = keyword_at_or_after(t, p + 2, kw_in());
                    if i < t.len() {
                        lemma_brace_at_or_after(t, i + 1);
                    }
                } else if k.is_keyword(kw_while()) || k.is_keyword(kw_match()) {
                    lemma_brace_at_or_after(t, p + 2);
                } else if !k.is_keyword(kw_cdata()) && !k.is_keyword(kw_comment()) {
                    lemma_splice_end(t, p + 1);
                }
            } else if ch == '?' {
                lemma_pi_name_end(t, p + 1);
                let e = pi_name_end(t, p + 1);
                if e > p + 1 {
                    lemma_pi_attr_list_bounds(t, e);
                }
            } else if ch == '!' && p + 1 < t.len() {
                lemma_doctype_end(t, p + 2);
            }
        },
        _ => {},
    }
}

} // verus!
