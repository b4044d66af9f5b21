//! Code generation: a template's syntax tree to the statements that build its
//! markup.
//!
//! The statements are those the `xml!` macro emits: every one writes to the
//! current output (`__olav_out`, or the CDATA buffer inside `@cdata`), except
//! that a CDATA section always writes its delimiters and its buffered content
//! to the top-level output.
use vstd::prelude::*;

use crate::ast::{ArmV, Attr, AttrCond, AttrV, CondV, MatchArm, Node, NodeV, SpliceMod, attrs_view, nodes_view};
use crate::token::{Tok, TokenTree, copy_tokens, toks};
use crate::parse::{ParseError, Parser};
use crate::grammar::body;

verus! {

/// One generated statement.
#[derive(Debug)]
pub enum Stmt {
    /// `out.push_str("...")`: literal markup.
    PushStr(String),
    /// `out.push_text("...")`: literal text, escaped.
    PushText(String),
    /// `out.push_attr("name", "value")`: a literal attribute.
    PushAttr { name: String, value: String },
    /// Renders `value` into a temporary buffer, then
    /// `out.push_attr_rendered("name", tmp.as_str())`: the rendered value is
    /// escaped once, for attribute context.
    RenderAttr { name: String, value: Vec<TokenTree> },
    /// `Render::render_to(&(expr), out)`: an escaped splice.
    Render(Vec<TokenTree>),
    /// `out.push_str((expr).as_ref())`: a verbatim splice.
    PushRaw(Vec<TokenTree>),
    /// `if cond { .. } else { .. }`
    If { cond: Vec<TokenTree>, then: Vec<Stmt>, else_: Option<Vec<Stmt>> },
    /// `for pat in expr { .. }`
    For { pat: Vec<TokenTree>, expr: Vec<TokenTree>, body: Vec<Stmt> },
    /// `while cond { .. }`
    While { cond: Vec<TokenTree>, body: Vec<Stmt> },
    /// `match expr { pat => { .. } .. }`
    Match { expr: Vec<TokenTree>, arms: Vec<StmtArm> },
    /// `<![CDATA[`, the body rendered into a fresh buffer, the buffer, and
    /// `]]>`, all written to the top-level output.
    Cdata(Vec<Stmt>),
}

/// One arm of a generated `match`.
#[derive(Debug)]
pub struct StmtArm {
    pub pat: Vec<TokenTree>,
    pub body: Vec<Stmt>,
}

/// The code generated for a template: a buffer of `capacity` bytes, the
/// statements that fill it.
#[derive(Debug)]
pub struct Program {
    pub capacity: usize,
    pub body: Vec<Stmt>,
}

/// The value of a generated statement.
pub enum StmtV {
    PushStr(Seq<char>),
    PushText(Seq<char>),
    PushAttr { name: Seq<char>, value: Seq<char> },
    RenderAttr { name: Seq<char>, value: Seq<Tok> },
    Render(Seq<Tok>),
    PushRaw(Seq<Tok>),
    If { cond: Seq<Tok>, then: Seq<StmtV>, else_: Option<Seq<StmtV>> },
    For { pat: Seq<Tok>, expr: Seq<Tok>, body: Seq<StmtV> },
    While { cond: Seq<Tok>, body: Seq<StmtV> },
    Match { expr: Seq<Tok>, arms: Seq<(Seq<Tok>, Seq<StmtV>)> },
    Cdata(Seq<StmtV>),
}

impl Stmt {
    pub open spec fn view(&self) -> StmtV
        decreases self,
    {
        match self {
            Stmt::PushStr(s) => StmtV::PushStr(s@),
            Stmt::PushText(s) => StmtV::PushText(s@),
            Stmt::PushAttr { name, value } => StmtV::PushAttr { name: name@, value: value@ },
            Stmt::RenderAttr { name, value } => StmtV::RenderAttr { name: name@, value: toks(value@) },
            Stmt::Render(e) => StmtV::Render(toks(e@)),
            Stmt::PushRaw(e) => StmtV::PushRaw(toks(e@)),
            Stmt::If { cond, then, else_ } => StmtV::If {
                cond: toks(cond@),
                then: Seq::new(
                    then@.len(),
                    |i: int| if 0 <= i < then@.len() { then@[i].view() } else { StmtV::PushStr(seq![]) },
                ),
                else_: match else_ {
                    Some(e) => Some(
                        Seq::new(
                            e@.len(),
                            |i: int| if 0 <= i < e@.len() { e@[i].view() } else { StmtV::PushStr(seq![]) },
                        ),
                    ),
                    None => None,
                },
            },
            Stmt::For { pat, expr, body } => StmtV::For {
                pat: toks(pat@),
                expr: toks(expr@),
                body: Seq::new(
                    body@.len(),
                    |i: int| if 0 <= i < body@.len() { body@[i].view() } else { StmtV::PushStr(seq![]) },
                ),
            },
            Stmt::While { cond, body } => StmtV::While {
                cond: toks(cond@),
                body: Seq::new(
                    body@.len(),
                    |i: int| if 0 <= i < body@.len() { body@[i].view() } else { StmtV::PushStr(seq![]) },
                ),
            },
            Stmt::Match { expr, arms } => StmtV::Match {
                expr: toks(expr@),
                arms: Seq::new(
                    arms@.len(),
                    |i: int|
                        if 0 <= i < arms@.len() {
                            (
                                toks(arms@[i].pat@),
                                Seq::new(
                                    arms@[i].body@.len(),
                                    |j: int|
                                        if 0 <= j < arms@[i].body@.len() {
                                            arms@[i].body@[j].view()
                                        } else {
                                            StmtV::PushStr(seq![])
                                        },
                                ),
                            )
                        } else {
                            (seq![], seq![])
                        },
                ),
            },
            Stmt::Cdata(body) => StmtV::Cdata(
                Seq::new(
                    body@.len(),
                    |i: int| if 0 <= i < body@.len() { body@[i].view() } else { StmtV::PushStr(seq![]) },
                ),
            ),
        }
    }
}

/// The values of a sequence of statements.
pub open spec fn stmts_view(s: Seq<Stmt>) -> Seq<StmtV> {
    Seq::new(s.len(), |i: int| s[i].view())
}

// ==================== What is generated ====================

pub open spec fn lit_true() -> Seq<char> {
    seq!['t', 'r', 'u', 'e']
}

/// The tokens of a condition: its expression, or the literal `true`.
pub open spec fn cond_tokens(c: CondV) -> Seq<Tok> {
    match c {
        CondV::Always { span } => seq![Tok::Ident { name: lit_true(), span }],
        CondV::Expr(e) => e,
    }
}

/// The statements for one attribute.
pub open spec fn gen_attr(a: AttrV) -> Seq<StmtV> {
    match a {
        AttrV::Lit { name, value, .. } => seq![StmtV::PushAttr { name, value }],
        AttrV::Expr { name, value, .. } => seq![StmtV::RenderAttr { name, value }],
        AttrV::CondExpr { name, cond, value, .. } => seq![
            StmtV::If {
                cond: cond_tokens(cond),
                then: if value.len() == 0 {
                    seq![StmtV::PushAttr { name, value: lit_true() }]
                } else {
                    seq![StmtV::RenderAttr { name, value }]
                },
                else_: None,
            },
        ],
    }
}

/// The statements for a sequence of attributes.
pub open spec fn gen_attrs(s: Seq<AttrV>) -> Seq<StmtV>
    decreases s.len(),
{
    if s.len() == 0 {
        seq![]
    } else {
        gen_attrs(s.drop_last()) + gen_attr(s.last())
    }
}

pub open spec fn str_open_tag() -> Seq<char> {
    seq!['<']
}

pub open spec fn str_close_self() -> Seq<char> {
    seq!['/', '>']
}

pub open spec fn str_gt() -> Seq<char> {
    seq!['>']
}

pub open spec fn str_open_end() -> Seq<char> {
    seq!['<', '/']
}

pub open spec fn str_comment_open() -> Seq<char> {
    seq!['<', '!', '-', '-']
}

pub open spec fn str_comment_close() -> Seq<char> {
    seq!['-', '-', '>']
}

pub open spec fn str_pi_open() -> Seq<char> {
    seq!['<', '?']
}

pub open spec fn str_pi_close() -> Seq<char> {
    seq!['?', '>']
}

pub open spec fn str_space() -> Seq<char> {
    seq![' ']
}

pub open spec fn str_doctype_open() -> Seq<char> {
    seq!['<', '!', 'D', 'O', 'C', 'T', 'Y', 'P', 'E', ' ']
}

pub open spec fn str_cdata_open() -> Seq<char> {
    seq!['<', '!', '[', 'C', 'D', 'A', 'T', 'A', '[']
}

pub open spec fn str_cdata_close() -> Seq<char> {
    seq![']', ']', '>']
}

/// The statements for a node; `raw` inside `@cdata`, where literal text is
/// written verbatim.
pub open spec fn gen_node(n: NodeV, raw: bool) -> Seq<StmtV>
    decreases n, 0nat,
{
    match n {
        NodeV::Element { name, attrs, body } => {
            if body.len() == 0 {
                seq![StmtV::PushStr(str_open_tag()), StmtV::PushStr(name)] + gen_attrs(attrs) + seq![
                    StmtV::PushStr(str_close_self()),
                ]
            } else {
                seq![StmtV::PushStr(str_open_tag()), StmtV::PushStr(name)] + gen_attrs(attrs) + seq![
                    StmtV::PushStr(str_gt()),
                ] + gen_nodes(body, raw) + seq![
                    StmtV::PushStr(str_open_end()),
                    StmtV::PushStr(name),
                    StmtV::PushStr(str_gt()),
                ]
            }
        },
        NodeV::Text(s) => {
            if raw {
                seq![StmtV::PushStr(s)]
            } else {
                seq![StmtV::PushText(s)]
            }
        },
        NodeV::Splice { expr, modifier } => {
            if modifier == SpliceMod::Raw {
                seq![StmtV::PushRaw(expr)]
            } else {
                seq![StmtV::Render(expr)]
            }
        },
        NodeV::If { cond, then, else_ } => seq![
            StmtV::If {
                cond,
                then: gen_nodes(then, raw),
                else_: match else_ {
                    Some(e) => Some(gen_nodes(e, raw)),
                    None => None,
                },
            },
        ],
        NodeV::For { pat, expr, body } => seq![StmtV::For { pat, expr, body: gen_nodes(body, raw) }],
        NodeV::While { cond, body } => seq![StmtV::While { cond, body: gen_nodes(body, raw) }],
        NodeV::Match { expr, arms } => seq![StmtV::Match { expr, arms: gen_arms(arms, raw) }],
        NodeV::Comment(t) => seq![
            StmtV::PushStr(str_comment_open()),
            StmtV::PushStr(t),
            StmtV::PushStr(str_comment_close()),
        ],
        NodeV::Cdata(body) => seq![StmtV::Cdata(gen_nodes(body, true))],
        NodeV::Pi { name, attrs, body } => {
            if body.len() == 0 {
                seq![StmtV::PushStr(str_pi_open()), StmtV::PushStr(name)] + gen_attrs(attrs) + seq![
                    StmtV::PushStr(str_pi_close()),
                ]
            } else {
                seq![StmtV::PushStr(str_pi_open()), StmtV::PushStr(name)] + gen_attrs(attrs) + seq![
                    StmtV::PushStr(str_space()),
                ] + gen_nodes(body, raw) + seq![StmtV::PushStr(str_pi_close())]
            }
        },
        NodeV::Doctype(spec) => seq![
            StmtV::PushStr(str_doctype_open()),
            StmtV::PushStr(spec),
            StmtV::PushStr(str_gt()),
        ],
    }
}

/// The statements for a sequence of nodes, in order.
pub open spec fn gen_nodes(s: Seq<NodeV>, raw: bool) -> Seq<StmtV>
    decreases s, 1nat,
{
    if s.len() == 0 {
        seq![]
    } else {
        gen_nodes(s.drop_last(), raw) + gen_node(s.last(), raw)
    }
}

/// The generated arms of a match.
pub open spec fn gen_arms(s: Seq<ArmV>, raw: bool) -> Seq<(Seq<Tok>, Seq<StmtV>)>
    decreases s, 1nat,
{
    if s.len() == 0 {
        seq![]
    } else {
        gen_arms(s.drop_last(), raw).push((s.last().pat, gen_nodes(s.last().body, raw)))
    }
}


// ==================== Generation ====================

fn push_lit(out: &mut Vec<Stmt>, s: &str)
    ensures
        stmts_view(final(out)@) == stmts_view(old(out)@).push(StmtV::PushStr(s@)),
{
    let ghost before = stmts_view(out@);
    out.push(Stmt::PushStr(s.to_owned()));
    assert(stmts_view(out@) =~= before.push(StmtV::PushStr(s@)));
}

fn push_stmt(out: &mut Vec<Stmt>, st: Stmt)
    ensures
        stmts_view(final(out)@) == stmts_view(old(out)@).push(st.view()),
{
    let ghost before = stmts_view(out@);
    let ghost sv = st.view();
    out.push(st);
    assert(stmts_view(out@) =~= before.push(sv));
}

fn copy_string(s: &String) -> (r: String)
    ensures
        r@ == s@,
{
    s.clone()
}

fn copy_all(v: &Vec<TokenTree>) -> (r: Vec<TokenTree>)
    ensures
        toks(r@) == toks(v@),
{
    let r = copy_tokens(v, 0, v.len());
    assert(toks(v@).subrange(0, v@.len() as int) =~= toks(v@));
    r
}

/// The condition's tokens.
fn cond_tokens_exec(cond: &AttrCond) -> (r: Vec<TokenTree>)
    ensures
        toks(r@) == cond_tokens(cond.view()),
{
    match cond {
        AttrCond::Always { span } => {
            proof {
                reveal_strlit("true");
                assert("true"@ =~= lit_true());
            }
            let mut c: Vec<TokenTree> = Vec::new();
            c.push(TokenTree::Ident { name: "true".to_owned(), span: *span });
            assert(toks(c@) =~= cond_tokens(cond.view()));
            c
        },
        AttrCond::Expr(e) => copy_all(e),
    }
}

/// `if cond { push the attribute }`.
fn generate_cond_attr(name: &String, cond: &AttrCond, value: &Vec<TokenTree>) -> (r: Stmt)
    ensures
        seq![r.view()] == gen_attr(AttrV::CondExpr { name: name@, name_span: 0, cond: cond.view(), value: toks(value@) }),
{
    let c = cond_tokens_exec(cond);
    let mut then: Vec<Stmt> = Vec::new();
    assert(stmts_view(then@) =~= Seq::<StmtV>::empty());
    if value.len() == 0 {
        proof {
            reveal_strlit("true");
            assert("true"@ =~= lit_true());
        }
        push_stmt(&mut then, Stmt::PushAttr { name: copy_string(name), value: "true".to_owned() });
    } else {
        push_stmt(&mut then, Stmt::RenderAttr { name: copy_string(name), value: copy_all(value) });
    }
    let st = Stmt::If { cond: c, then, else_: None };
    assert(st.view()->If_then =~= stmts_view(then@));
    assert(seq![st.view()] =~~= gen_attr(AttrV::CondExpr { name: name@, name_span: 0, cond: cond.view(), value: toks(value@) }));
    st
}

/// The statements for one attribute.
fn generate_attr(a: &Attr, out: &mut Vec<Stmt>)
    ensures
        stmts_view(final(out)@) == stmts_view(old(out)@) + gen_attr(a.view()),
{
    let ghost before = stmts_view(out@);
    match a {
        Attr::Lit { name, value, .. } => {
            push_stmt(out, Stmt::PushAttr { name: copy_string(name), value: copy_string(value) });
        },
        Attr::Expr { name, value, .. } => {
            push_stmt(out, Stmt::RenderAttr { name: copy_string(name), value: copy_all(value) });
        },
        Attr::CondExpr { name, cond, value, .. } => {
            let st = generate_cond_attr(name, cond, value);
            push_stmt(out, st);
        },
    }
    assert(stmts_view(out@) =~= before + gen_attr(a.view()));
}

/// The statements for a sequence of attributes.
fn generate_attrs(attrs: &Vec<Attr>, out: &mut Vec<Stmt>)
    ensures
        stmts_view(final(out)@) == stmts_view(old(out)@) + gen_attrs(attrs_view(attrs@)),
{
    let ghost before = stmts_view(out@);
    let ghost av = attrs_view(attrs@);
    let mut i: usize = 0;
    assert(gen_attrs(av.take(0)) =~= Seq::<StmtV>::empty());
    assert(before + gen_attrs(av.take(0)) =~= before);
    while i < attrs.len()
        invariant
            i <= attrs@.len(),
            av == attrs_view(attrs@),
            stmts_view(out@) == before + gen_attrs(av.take(i as int)),
        decreases attrs@.len() - i,
    {
        generate_attr(&attrs[i], out);
        proof {
            assert(av.take(i + 1).drop_last() =~= av.take(i as int));
            assert(av.take(i + 1).last() == av[i as int]);
            assert(stmts_view(out@) =~= before + gen_attrs(av.take(i + 1)));
        }
        i = i + 1;
    }
    assert(av.take(attrs@.len() as int) =~= av);
}

/// The statements for a sequence of nodes, appended in order.
fn generate_body_in(nodes: &Vec<Node>, raw: bool, out: &mut Vec<Stmt>)
    ensures
        stmts_view(final(out)@) == stmts_view(old(out)@) + gen_nodes(nodes_view(nodes@), raw),
    decreases nodes, 1nat,
{
    let ghost before = stmts_view(out@);
    let ghost nv = nodes_view(nodes@);
    let mut i: usize = 0;
    assert(gen_nodes(nv.take(0), raw) =~= Seq::<StmtV>::empty());
    assert(before + gen_nodes(nv.take(0), raw) =~= before);
    while i < nodes.len()
        invariant
            i <= nodes@.len(),
            nv == nodes_view(nodes@),
            stmts_view(out@) == before + gen_nodes(nv.take(i as int), raw),
        decreases nodes@.len() - i,
    {
        proof {
            broadcast use vstd::std_specs::vec::axiom_vec_index_decreases;
            assert(decreases_to!(nodes => nodes[i as int]));
        }
        generate_node(&nodes[i], raw, out);
        proof {
            assert(nv.take(i + 1).drop_last() =~= nv.take(i as int));
            assert(nv.take(i + 1).last() == nv[i as int]);
            assert(stmts_view(out@) =~= before + gen_nodes(nv.take(i + 1), raw));
        }
        i = i + 1;
    }
    assert(nv.take(nodes@.len() as int) =~= nv);
}

/// Statements for a nested body, in a fresh vector.
fn generate_block(nodes: &Vec<Node>, raw: bool) -> (r: Vec<Stmt>)
    ensures
        stmts_view(r@) == gen_nodes(nodes_view(nodes@), raw),
    decreases nodes, 2nat,
{
    let mut v: Vec<Stmt> = Vec::new();
    assert(stmts_view(v@) =~= Seq::<StmtV>::empty());
    generate_body_in(nodes, raw, &mut v);
    assert(stmts_view(v@) =~= gen_nodes(nodes_view(nodes@), raw));
    v
}

fn push_open_tag(out: &mut Vec<Stmt>)
    ensures
        stmts_view(final(out)@) == stmts_view(old(out)@).push(StmtV::PushStr(str_open_tag())),
{
    proof {
        reveal_strlit("<");
        assert("<"@ =~= str_open_tag());
    }
    push_lit(out, "<");
}

fn push_close_self(out: &mut Vec<Stmt>)
    ensures
        stmts_view(final(out)@) == stmts_view(old(out)@).push(StmtV::PushStr(str_close_self())),
{
    proof {
        reveal_strlit("/>");
        assert("/>"@ =~= str_close_self());
    }
    push_lit(out, "/>");
}

fn push_gt(out: &mut Vec<Stmt>)
    ensures
        stmts_view(final(out)@) == stmts_view(old(out)@).push(StmtV::PushStr(str_gt())),
{
    proof {
        reveal_strlit(">");
        assert(">"@ =~= str_gt());
    }
    push_lit(out, ">");
}

fn push_open_end(out: &mut Vec<Stmt>)
    ensures
        stmts_view(final(out)@) == stmts_view(old(out)@).push(StmtV::PushStr(str_open_end())),
{
    proof {
        reveal_strlit("</");
        assert("</"@ =~= str_open_end());
    }
    push_lit(out, "</");
}

fn push_pi_open(out: &mut Vec<Stmt>)
    ensures
        stmts_view(final(out)@) == stmts_view(old(out)@).push(StmtV::PushStr(str_pi_open())),
{
    proof {
        reveal_strlit("<?");
        assert("<?"@ =~= str_pi_open());
    }
    push_lit(out, "<?");
}

fn push_pi_close(out: &mut Vec<Stmt>)
    ensures
        stmts_view(final(out)@) == stmts_view(old(out)@).push(StmtV::PushStr(str_pi_close())),
{
    proof {
        reveal_strlit("?>");
        assert("?>"@ =~= str_pi_close());
    }
    push_lit(out, "?>");
}

fn push_space(out: &mut Vec<Stmt>)
    ensures
        stmts_view(final(out)@) == stmts_view(old(out)@).push(StmtV::PushStr(str_space())),
{
    proof {
        reveal_strlit(" ");
        assert(" "@ =~= str_space());
    }
    push_lit(out, " ");
}

/// `<name attrs/>` or `<name attrs>body</name>`.
fn generate_element(name: &String, attrs: &Vec<Attr>, body: &Vec<Node>, raw: bool, out: &mut Vec<Stmt>)
    ensures
        stmts_view(final(out)@) == stmts_view(old(out)@) + gen_node(
            NodeV::Element { name: name@, attrs: attrs_view(attrs@), body: nodes_view(body@) },
            raw,
        ),
    decreases body, 3nat,
{
    let ghost before = stmts_view(out@);
    push_open_tag(out);
    push_stmt(out, Stmt::PushStr(copy_string(name)));
    generate_attrs(attrs, out);
    if body.len() == 0 {
        push_close_self(out);
    } else {
        push_gt(out);
        generate_body_in(body, raw, out);
        push_open_end(out);
        push_stmt(out, Stmt::PushStr(copy_string(name)));
        push_gt(out);
    }
    assert(stmts_view(out@) =~= before + gen_node(
        NodeV::Element { name: name@, attrs: attrs_view(attrs@), body: nodes_view(body@) },
        raw,
    ));
}

/// `<?name attrs?>` or `<?name attrs body?>`.
fn generate_pi(name: &String, attrs: &Vec<Attr>, body: &Vec<Node>, raw: bool, out: &mut Vec<Stmt>)
    ensures
        stmts_view(final(out)@) == stmts_view(old(out)@) + gen_node(
            NodeV::Pi { name: name@, attrs: attrs_view(attrs@), body: nodes_view(body@) },
            raw,
        ),
    decreases body, 3nat,
{
    let ghost before = stmts_view(out@);
    push_pi_open(out);
    push_stmt(out, Stmt::PushStr(copy_string(name)));
    generate_attrs(attrs, out);
    if body.len() == 0 {
        push_pi_close(out);
    } else {
        push_space(out);
        generate_body_in(body, raw, out);
        push_pi_close(out);
    }
    assert(stmts_view(out@) =~= before + gen_node(
        NodeV::Pi { name: name@, attrs: attrs_view(attrs@), body: nodes_view(body@) },
        raw,
    ));
}

/// `<!--text-->`.
fn generate_comment(t: &String, out: &mut Vec<Stmt>)
    ensures
        stmts_view(final(out)@) == stmts_view(old(out)@) + gen_node(NodeV::Comment(t@), false),
{
    let ghost before = stmts_view(out@);
    proof {
        reveal_strlit("<!--");
        reveal_strlit("-->");
        assert("<!--"@ =~= str_comment_open());
        assert("-->"@ =~= str_comment_close());
    }
    push_lit(out, "<!--");
    push_stmt(out, Stmt::PushStr(copy_string(t)));
    push_lit(out, "-->");
    assert(stmts_view(out@) =~= before + gen_node(NodeV::Comment(t@), false));
}

/// `<!DOCTYPE spec>`.
fn generate_doctype(spec: &String, out: &mut Vec<Stmt>)
    ensures
        stmts_view(final(out)@) == stmts_view(old(out)@) + gen_node(NodeV::Doctype(spec@), false),
{
    let ghost before = stmts_view(out@);
    proof {
        reveal_strlit("<!DOCTYPE ");
        assert("<!DOCTYPE "@ =~= str_doctype_open());
    }
    push_lit(out, "<!DOCTYPE ");
    push_stmt(out, Stmt::PushStr(copy_string(spec)));
    push_gt(out);
    assert(stmts_view(out@) =~= before + gen_node(NodeV::Doctype(spec@), false));
}

/// `if cond { .. } else { .. }`.
fn generate_if(n: &Node, raw: bool) -> (r: Stmt)
    requires
        n is If,
    ensures
        seq![r.view()] == gen_node(n.view(), raw),
    decreases n, 1nat,
{
    match n {
        Node::If { cond, then, else_ } => {
            let t = generate_block(then, raw);
            let e = match else_ {
                Some(els) => Some(generate_block(els, raw)),
                None => None,
            };
            let st = Stmt::If { cond: copy_all(cond), then: t, else_: e };
            proof {
                assert(n.view()->If_then =~= nodes_view(then@));
                assert(st.view()->If_then =~= stmts_view(t@));
                if let Some(els) = else_ {
                    assert(n.view()->If_else_->Some_0 =~= nodes_view(els@));
                    assert(st.view()->If_else_->Some_0 =~= stmts_view(e->Some_0@));
                }
            }
            st
        },
        _ => Stmt::PushStr(String::new()),
    }
}

/// The statements for one node.
fn generate_node(n: &Node, raw: bool, out: &mut Vec<Stmt>)
    ensures
        stmts_view(final(out)@) == stmts_view(old(out)@) + gen_node(n.view(), raw),
    decreases n, 2nat,
{
    let ghost before = stmts_view(out@);
    match n {
        Node::Element { name, attrs, body } => {
            assert(n.view()->Element_body =~= nodes_view(body@));
            generate_element(name, attrs, body, raw, out);
        },
        Node::Text(s) => {
            if raw {
                push_stmt(out, Stmt::PushStr(copy_string(s)));
            } else {
                push_stmt(out, Stmt::PushText(copy_string(s)));
            }
        },
        Node::Splice { expr, modifier } => {
            match modifier {
                SpliceMod::Raw => push_stmt(out, Stmt::PushRaw(copy_all(expr))),
                SpliceMod::Escaped => push_stmt(out, Stmt::Render(copy_all(expr))),
            }
        },
        Node::If { .. } => {
            let st = generate_if(n, raw);
            push_stmt(out, st);
        },
        Node::For { pat, expr, body } => {
            let b = generate_block(body, raw);
            let st = Stmt::For { pat: copy_all(pat), expr: copy_all(expr), body: b };
            assert(n.view()->For_body =~= nodes_view(body@));
            assert(st.view()->For_body =~= stmts_view(b@));
            push_stmt(out, st);
        },
        Node::While { cond, body } => {
            let b = generate_block(body, raw);
            let st = Stmt::While { cond: copy_all(cond), body: b };
            assert(n.view()->While_body =~= nodes_view(body@));
            assert(st.view()->While_body =~= stmts_view(b@));
            push_stmt(out, st);
        },
        Node::Match { expr, arms } => {
            let a = generate_arms(arms, raw);
            let st = Stmt::Match { expr: copy_all(expr), arms: a };
            proof {
                assert forall|i: int| 0 <= i < arms@.len() implies (#[trigger] n.view()->Match_arms[i]).body
                    =~= nodes_view(arms@[i].body@) by {}
                assert(n.view()->Match_arms =~= crate::ast::arms_view(arms@));
                assert forall|i: int| 0 <= i < a@.len() implies (#[trigger] st.view()->Match_arms[i]).1
                    =~= stmts_view(a@[i].body@) by {}
                assert(st.view()->Match_arms =~= stmt_arms_view(a@));
            }
            push_stmt(out, st);
        },
        Node::Comment(t) => {
            generate_comment(t, out);
        },
        Node::Cdata(body) => {
            let b = generate_block(body, true);
            let st = Stmt::Cdata(b);
            assert(n.view()->Cdata_0 =~= nodes_view(body@));
            assert(st.view()->Cdata_0 =~= stmts_view(b@));
            push_stmt(out, st);
        },
        Node::Pi { name, attrs, body } => {
            assert(n.view()->Pi_body =~= nodes_view(body@));
            generate_pi(name, attrs, body, raw, out);
        },
        Node::Doctype(spec) => {
            generate_doctype(spec, out);
        },
    }
}

/// The values of generated match arms.
pub open spec fn stmt_arms_view(s: Seq<StmtArm>) -> Seq<(Seq<Tok>, Seq<StmtV>)> {
    Seq::new(s.len(), |i: int| (toks(s[i].pat@), stmts_view(s[i].body@)))
}

/// The generated arms of a match.
fn generate_arms(arms: &Vec<MatchArm>, raw: bool) -> (r: Vec<StmtArm>)
    ensures
        stmt_arms_view(r@) == gen_arms(crate::ast::arms_view(arms@), raw),
    decreases arms, 2nat,
{
    let ghost av = crate::ast::arms_view(arms@);
    let mut r: Vec<StmtArm> = Vec::new();
    let mut i: usize = 0;
    assert(stmt_arms_view(r@) =~= gen_arms(av.take(0), raw));
    while i < arms.len()
        invariant
            i <= arms@.len(),
            av == crate::ast::arms_view(arms@),
            stmt_arms_view(r@) == gen_arms(av.take(i as int), raw),
        decreases arms@.len() - i,
    {
        proof {
            broadcast use vstd::std_specs::vec::axiom_vec_index_decreases;
            assert(decreases_to!(arms => arms[i as int]));
        }
        let body = generate_block(&arms[i].body, raw);
        let pat = copy_all(&arms[i].pat);
        let ghost old_r = stmt_arms_view(r@);
        r.push(StmtArm { pat, body });
        proof {
            assert(av.take(i + 1).drop_last() =~= av.take(i as int));
            assert(av.take(i + 1).last() == av[i as int]);
            assert(stmt_arms_view(r@) =~= old_r.push((toks(pat@), stmts_view(body@))));
        }
        i = i + 1;
    }
    assert(av.take(arms@.len() as int) =~= av);
    r
}


// ==================== Capacity ====================

/// The length in bytes of the UTF-8 encoding of `s`, as `str::len`
/// reports it.
pub open spec fn byte_len(s: Seq<char>) -> nat {
    (vstd::utf8::encode_utf8(s).len() as usize) as nat
}

/// `n`, or `usize::MAX` when it is larger.
pub open spec fn capped(n: nat) -> nat {
    if n > usize::MAX {
        usize::MAX as nat
    } else {
        n
    }
}

/// The bytes that an attribute surely writes: ` name=""` and a literal
/// value; nothing for a conditional attribute whose condition is not known
/// to hold.
pub open spec fn attr_estimate(a: AttrV) -> nat {
    match a {
        AttrV::Lit { name, value, .. } => 3 + byte_len(name) + byte_len(value),
        AttrV::Expr { name, .. } => 3 + byte_len(name),
        AttrV::CondExpr { name, cond, .. } => if cond is Always {
            3 + byte_len(name)
        } else {
            0
        },
    }
}

pub open spec fn attrs_estimate(s: Seq<AttrV>) -> nat
    decreases s.len(),
{
    if s.len() == 0 {
        0
    } else {
        attrs_estimate(s.drop_last()) + attr_estimate(s.last())
    }
}

/// The bytes that a node surely writes, whatever its expressions give: tags,
/// names, literal text and attributes. Splices contribute nothing; an `@if`
/// the smaller of its branches (nothing without `else`); loops and `@match`
/// nothing, as they may write nothing of their bodies.
pub open spec fn node_estimate(n: NodeV) -> nat
    decreases n, 0nat,
{
    match n {
        NodeV::Element { name, attrs, body } => {
            let tag = if body.len() == 0 {
                3 + byte_len(name)
            } else {
                5 + 2 * byte_len(name)
            };
            tag + attrs_estimate(attrs) + nodes_estimate(body)
        },
        NodeV::Text(s) => byte_len(s),
        NodeV::Comment(t) => byte_len(t) + 7,
        NodeV::Cdata(body) => nodes_estimate(body) + 12,
        NodeV::Pi { name, attrs, body } => 4 + byte_len(name) + (if body.len() == 0 {
            0nat
        } else {
            1nat
        }) + attrs_estimate(attrs) + nodes_estimate(body),
        NodeV::Doctype(spec) => byte_len(spec) + 11,
        NodeV::If { then, else_, .. } => match else_ {
            Some(e) => {
                let a = nodes_estimate(then);
                let b = nodes_estimate(e);
                if a <= b {
                    a
                } else {
                    b
                }
            },
            None => 0,
        },
        NodeV::For { .. } => 0,
        NodeV::While { .. } => 0,
        NodeV::Match { .. } => 0,
        NodeV::Splice { .. } => 0,
    }
}

pub open spec fn nodes_estimate(s: Seq<NodeV>) -> nat
    decreases s, 1nat,
{
    if s.len() == 0 {
        0
    } else {
        nodes_estimate(s.drop_last()) + node_estimate(s.last())
    }
}

proof fn lemma_nodes_estimate_step(nv: Seq<NodeV>, i: int)
    requires
        0 <= i < nv.len(),
    ensures
        nodes_estimate(nv.take(i + 1)) == nodes_estimate(nv.take(i)) + node_estimate(nv[i]),
{
    assert(nv.take(i + 1).drop_last() =~= nv.take(i));
}

proof fn lemma_attrs_estimate_step(av: Seq<AttrV>, i: int)
    requires
        0 <= i < av.len(),
    ensures
        attrs_estimate(av.take(i + 1)) == attrs_estimate(av.take(i)) + attr_estimate(av[i]),
{
    assert(av.take(i + 1).drop_last() =~= av.take(i));
}

/// `min(a + b, usize::MAX)` of two capped values.
proof fn lemma_capped_add(a: nat, b: nat)
    ensures
        capped(capped(a) + capped(b)) == capped(a + b),
{
}

fn sat_add(a: usize, b: usize) -> (r: usize)
    ensures
        r == capped((a + b) as nat),
{
    a.saturating_add(b)
}

fn str_bytes(s: &String) -> (r: usize)
    ensures
        r == byte_len(s@),
{
    s.as_str().len()
}

fn estimate_attrs(attrs: &Vec<Attr>) -> (r: usize)
    ensures
        r == capped(attrs_estimate(attrs_view(attrs@))),
{
    let ghost av = attrs_view(attrs@);
    let mut total: usize = 0;
    let mut i: usize = 0;
    while i < attrs.len()
        invariant
            i <= attrs@.len(),
            av == attrs_view(attrs@),
            total == capped(attrs_estimate(av.take(i as int))),
        decreases attrs@.len() - i,
    {
        let e = match &attrs[i] {
            Attr::Lit { name, value, .. } => sat_add(sat_add(3, str_bytes(name)), str_bytes(value)),
            Attr::Expr { name, .. } => sat_add(3, str_bytes(name)),
            Attr::CondExpr { name, cond, .. } => match cond {
                AttrCond::Always { .. } => sat_add(3, str_bytes(name)),
                AttrCond::Expr(_) => 0,
            },
        };
        proof {
            assert(e == capped(attr_estimate(av[i as int])));
            lemma_attrs_estimate_step(av, i as int);
            lemma_capped_add(attrs_estimate(av.take(i as int)), attr_estimate(av[i as int]));
        }
        total = sat_add(total, e);
        i = i + 1;
    }
    assert(av.take(attrs@.len() as int) =~= av);
    total
}

/// A static lower bound of the output size: the bytes of the literal parts
/// that are written whatever the template's expressions give. It only avoids
/// repeated reallocation for the known part.
fn estimate_len(nodes: &Vec<Node>) -> (r: usize)
    ensures
        r == capped(nodes_estimate(nodes_view(nodes@))),
    decreases nodes, 1nat,
{
    let ghost nv = nodes_view(nodes@);
    let mut total: usize = 0;
    let mut i: usize = 0;
    while i < nodes.len()
        invariant
            i <= nodes@.len(),
            nv == nodes_view(nodes@),
            total == capped(nodes_estimate(nv.take(i as int))),
        decreases nodes@.len() - i,
    {
        proof {
            broadcast use vstd::std_specs::vec::axiom_vec_index_decreases;
            assert(decreases_to!(nodes => nodes[i as int]));
        }
        let e = estimate_node(&nodes[i]);
        proof {
            lemma_nodes_estimate_step(nv, i as int);
            lemma_capped_add(nodes_estimate(nv.take(i as int)), node_estimate(nv[i as int]));
        }
        total = sat_add(total, e);
        i = i + 1;
    }
    assert(nv.take(nodes@.len() as int) =~= nv);
    total
}

fn estimate_node(n: &Node) -> (r: usize)
    ensures
        r == capped(node_estimate(n.view())),
    decreases n, 0nat,
{
    match n {
        Node::Element { name, attrs, body } => {
            assert(n.view()->Element_body =~= nodes_view(body@));
            let nb = str_bytes(name);
            let tag = if body.len() == 0 {
                sat_add(3, nb)
            } else {
                sat_add(5, sat_add(nb, nb))
            };
            let a = estimate_attrs(attrs);
            let b = estimate_len(body);
            proof {
                lemma_capped_add(byte_len(name@), byte_len(name@));
                lemma_capped_add(5, 2 * byte_len(name@));
                lemma_capped_add(3, byte_len(name@));
                let t = if body@.len() == 0 { 3 + byte_len(name@) } else { 5 + 2 * byte_len(name@) };
                lemma_capped_add(t, attrs_estimate(attrs_view(attrs@)));
                lemma_capped_add(t + attrs_estimate(attrs_view(attrs@)), nodes_estimate(nodes_view(body@)));
            }
            sat_add(sat_add(tag, a), b)
        },
        Node::Text(s) => str_bytes(s),
        Node::Comment(t) => sat_add(str_bytes(t), 7),
        Node::Cdata(body) => {
            assert(n.view()->Cdata_0 =~= nodes_view(body@));
            sat_add(estimate_len(body), 12)
        },
        Node::Pi { name, attrs, body } => {
            assert(n.view()->Pi_body =~= nodes_view(body@));
            let extra: usize = if body.len() == 0 {
                0
            } else {
                1
            };
            let nb = str_bytes(name);
            let a = estimate_attrs(attrs);
            let b = estimate_len(body);
            proof {
                let x = 4 + byte_len(name@);
                lemma_capped_add(4, byte_len(name@));
                lemma_capped_add(x, extra as nat);
                lemma_capped_add(x + extra as nat, attrs_estimate(attrs_view(attrs@)));
                lemma_capped_add(x + extra as nat + attrs_estimate(attrs_view(attrs@)), nodes_estimate(nodes_view(body@)));
            }
            sat_add(sat_add(sat_add(sat_add(4, nb), extra), a), b)
        },
        Node::Doctype(spec) => sat_add(str_bytes(spec), 11),
        Node::If { then, else_, .. } => {
            match else_ {
                Some(els) => {
                    assert(n.view()->If_then =~= nodes_view(then@));
                    assert(n.view()->If_else_->Some_0 =~= nodes_view(els@));
                    let t = estimate_len(then);
                    let e = estimate_len(els);
                    if t <= e {
                        t
                    } else {
                        e
                    }
                },
                None => 0,
            }
        },
        Node::For { .. } | Node::While { .. } | Node::Match { .. } => 0,
        Node::Splice { .. } => 0,
    }
}

// ==================== Programs ====================

impl Program {
    /// The value of the statements.
    pub open spec fn stmts(&self) -> Seq<StmtV> {
        stmts_view(self.body@)
    }
}

/// The code for a template: a buffer whose capacity is the estimate of the
/// template's literal output, and the statements that fill it.
pub fn generate(nodes: &Vec<Node>) -> (p: Program)
    ensures
        p.stmts() == gen_nodes(nodes_view(nodes@), false),
        p.capacity == capped(nodes_estimate(nodes_view(nodes@))),
{
    let body = generate_block(nodes, false);
    let capacity = estimate_len(nodes);
    Program { capacity, body }
}

/// Parses a template and generates its code.
pub fn expand(input: Vec<TokenTree>) -> (r: Result<Program, ParseError>)
    ensures
        match (r, body(toks(input@), false, false)) {
            (Ok(p), Ok(nodes)) => p.stmts() == gen_nodes(nodes, false) && p.capacity == capped(
                nodes_estimate(nodes),
            ),
            (Err(e), Err(ev)) => e.view() == ev,
            _ => false,
        },
{
    let mut parser = Parser::new(input);
    match parser.parse_body() {
        Ok(nodes) => Ok(generate(&nodes)),
        Err(e) => Err(e),
    }
}

} // verus!
