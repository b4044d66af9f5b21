//! The syntax tree of a template, as the parser produces it and the code
//! generator consumes it.
use vstd::prelude::*;

use crate::token::{Tok, TokenTree, toks};

verus! {

/// How a spliced value is inserted.
#[derive(Debug, Clone, Copy, PartialEq, Eq, Structural)]
pub enum SpliceMod {
    /// Through `Render`, which escapes text.
    Escaped,
    /// Verbatim (`@expr.raw`).
    Raw,
}

/// The condition of a conditional attribute.
#[derive(Debug)]
pub enum AttrCond {
    /// No condition was written: the literal `true`, at the given span.
    Always { span: usize },
    /// The condition's tokens.
    Expr(Vec<TokenTree>),
}

/// An attribute of an element or a processing instruction.
#[allow(inconsistent_fields)]
#[derive(Debug)]
pub enum Attr {
    /// `name="value"`: a string literal, already decoded.
    Lit { name: String, name_span: usize, value: String, value_span: usize },
    /// `name=expr`: rendered at run time.
    Expr { name: String, name_span: usize, value: Vec<TokenTree> },
    /// `name?=expr`, `name?cond` or `name?`: present only when the condition
    /// holds; without a value it reads `name="true"`.
    CondExpr { name: String, name_span: usize, cond: AttrCond, value: Vec<TokenTree> },
}

/// One arm of `@match`.
#[derive(Debug)]
pub struct MatchArm {
    pub pat: Vec<TokenTree>,
    pub body: Vec<Node>,
}

/// A node of the template.
#[derive(Debug)]
pub enum Node {
    Element { name: String, attrs: Vec<Attr>, body: Vec<Node> },
    Text(String),
    Splice { expr: Vec<TokenTree>, modifier: SpliceMod },
    If { cond: Vec<TokenTree>, then: Vec<Node>, else_: Option<Vec<Node>> },
    For { pat: Vec<TokenTree>, expr: Vec<TokenTree>, body: Vec<Node> },
    While { cond: Vec<TokenTree>, body: Vec<Node> },
    Match { expr: Vec<TokenTree>, arms: Vec<MatchArm> },
    Comment(String),
    Cdata(Vec<Node>),
    Pi { name: String, attrs: Vec<Attr>, body: Vec<Node> },
    /// The DOCTYPE specification (root name and any SYSTEM/PUBLIC clauses)
    /// in its final textual form.
    Doctype(String),
}

/// The value of an attribute condition.
pub enum CondV {
    Always { span: usize },
    Expr(Seq<Tok>),
}

/// The value of an attribute.
#[allow(inconsistent_fields)]
pub enum AttrV {
    Lit { name: Seq<char>, name_span: usize, value: Seq<char>, value_span: usize },
    Expr { name: Seq<char>, name_span: usize, value: Seq<Tok> },
    CondExpr { name: Seq<char>, name_span: usize, cond: CondV, value: Seq<Tok> },
}

/// The value of a match arm.
pub struct ArmV {
    pub pat: Seq<Tok>,
    pub body: Seq<NodeV>,
}

/// The value of a node.
pub enum NodeV {
    Element { name: Seq<char>, attrs: Seq<AttrV>, body: Seq<NodeV> },
    Text(Seq<char>),
    Splice { expr: Seq<Tok>, modifier: SpliceMod },
    If { cond: Seq<Tok>, then: Seq<NodeV>, else_: Option<Seq<NodeV>> },
    For { pat: Seq<Tok>, expr: Seq<Tok>, body: Seq<NodeV> },
    While { cond: Seq<Tok>, body: Seq<NodeV> },
    Match { expr: Seq<Tok>, arms: Seq<ArmV> },
    Comment(Seq<char>),
    Cdata(Seq<NodeV>),
    Pi { name: Seq<char>, attrs: Seq<AttrV>, body: Seq<NodeV> },
    Doctype(Seq<char>),
}

impl AttrCond {
    pub open spec fn view(&self) -> CondV {
        match self {
            AttrCond::Always { span } => CondV::Always { span: *span },
            AttrCond::Expr(e) => CondV::Expr(toks(e@)),
        }
    }
}

impl Attr {
    pub open spec fn view(&self) -> AttrV {
        match self {
            Attr::Lit { name, name_span, value, value_span } => AttrV::Lit {
                name: name@,
                name_span: *name_span,
                value: value@,
                value_span: *value_span,
            },
            Attr::Expr { name, name_span, value } => AttrV::Expr {
                name: name@,
                name_span: *name_span,
                value: toks(value@),
            },
            Attr::CondExpr { name, name_span, cond, value } => AttrV::CondExpr {
                name: name@,
                name_span: *name_span,
                cond: cond.view(),
                value: toks(value@),
            },
        }
    }
}

impl AttrV {
    pub open spec fn name(self) -> Seq<char> {
        match self {
            AttrV::Lit { name, .. } => name,
            AttrV::Expr { name, .. } => name,
            AttrV::CondExpr { name, .. } => name,
        }
    }

    pub open spec fn name_span(self) -> usize {
        match self {
            AttrV::Lit { name_span, .. } => name_span,
            AttrV::Expr { name_span, .. } => name_span,
            AttrV::CondExpr { name_span, .. } => name_span,
        }
    }
}

/// The values of a sequence of attributes.
pub open spec fn attrs_view(s: Seq<Attr>) -> Seq<AttrV> {
    Seq::new(s.len(), |i: int| s[i].view())
}

impl Node {
    pub open spec fn view(&self) -> NodeV
        decreases self,
    {
        match self {
            Node::Element { name, attrs, body } => NodeV::Element {
                name: name@,
                attrs: attrs_view(attrs@),
                body: Seq::new(
                    body@.len(),
                    |i: int| if 0 <= i < body@.len() { body@[i].view() } else { NodeV::Text(seq![]) },
                ),
            },
            Node::Text(s) => NodeV::Text(s@),
            Node::Splice { expr, modifier } => NodeV::Splice { expr: toks(expr@), modifier: *modifier },
            Node::If { cond, then, else_ } => NodeV::If {
                cond: toks(cond@),
                then: Seq::new(
                    then@.len(),
                    |i: int| if 0 <= i < then@.len() { then@[i].view() } else { NodeV::Text(seq![]) },
                ),
                else_: match else_ {
                    Some(e) => Some(
                        Seq::new(
                            e@.len(),
                            |i: int| if 0 <= i < e@.len() { e@[i].view() } else { NodeV::Text(seq![]) },
                        ),
                    ),
                    None => None,
                },
            },
            Node::For { pat, expr, body } => NodeV::For {
                pat: toks(pat@),
                expr: toks(expr@),
                body: Seq::new(
                    body@.len(),
                    |i: int| if 0 <= i < body@.len() { body@[i].view() } else { NodeV::Text(seq![]) },
                ),
            },
            Node::While { cond, body } => NodeV::While {
                cond: toks(cond@),
                body: Seq::new(
                    body@.len(),
                    |i: int| if 0 <= i < body@.len() { body@[i].view() } else { NodeV::Text(seq![]) },
                ),
            },
            Node::Match { expr, arms } => NodeV::Match {
                expr: toks(expr@),
                arms: Seq::new(
                    arms@.len(),
                    |i: int|
                        if 0 <= i < arms@.len() {
                            ArmV {
                                pat: toks(arms@[i].pat@),
                                body: Seq::new(
                                    arms@[i].body@.len(),
                                    |j: int|
                                        if 0 <= j < arms@[i].body@.len() {
                                            arms@[i].body@[j].view()
                                        } else {
                                            NodeV::Text(seq![])
                                        },
                                ),
                            }
                        } else {
                            ArmV { pat: seq![], body: seq![] }
                        },
                ),
            },
            Node::Comment(s) => NodeV::Comment(s@),
            Node::Cdata(body) => NodeV::Cdata(
                Seq::new(
                    body@.len(),
                    |i: int| if 0 <= i < body@.len() { body@[i].view() } else { NodeV::Text(seq![]) },
                ),
            ),
            Node::Pi { name, attrs, body } => NodeV::Pi {
                name: name@,
                attrs: attrs_view(attrs@),
                body: Seq::new(
                    body@.len(),
                    |i: int| if 0 <= i < body@.len() { body@[i].view() } else { NodeV::Text(seq![]) },
                ),
            },
            Node::Doctype(s) => NodeV::Doctype(s@),
        }
    }
}

/// The values of a sequence of nodes.
pub open spec fn nodes_view(s: Seq<Node>) -> Seq<NodeV> {
    Seq::new(s.len(), |i: int| s[i].view())
}

/// The values of a sequence of match arms.
pub open spec fn arms_view(s: Seq<MatchArm>) -> Seq<ArmV> {
    Seq::new(s.len(), |i: int| ArmV { pat: toks(s[i].pat@), body: nodes_view(s[i].body@) })
}

} // verus!
