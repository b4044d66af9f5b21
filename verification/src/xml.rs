//! What a template stands for: the markup of its static parts.
//!
//! A template without splices or control flow stands for a fixed piece of
//! XML: elements written as tags around their bodies, text escaped (verbatim
//! inside CDATA), comments, CDATA sections, processing instructions and the
//! document type declaration. The generated code writes exactly that.
use vstd::prelude::*;

use crate::ast::{AttrV, NodeV};
use crate::codegen::{
    StmtV, gen_attr, gen_attrs, gen_node, gen_nodes, lit_true, str_cdata_close, str_cdata_open, str_close_self,
    str_comment_close, str_comment_open, str_doctype_open, str_gt, str_open_end, str_open_tag, str_pi_close,
    str_pi_open, str_space,
};
use crate::escape::escaped_text;
use crate::markup::attr_text;
use crate::run::{EvalV, Outputs, emit, is_literal_true, run_stmt, run_stmts};
use crate::token::Tok;

verus! {

/// Whether an attribute is written the same way whatever the program's
/// variables hold: a literal value, or a bare `name?` (always `"true"`).
pub open spec fn is_static_attr(a: AttrV) -> bool {
    match a {
        AttrV::Lit { .. } => true,
        AttrV::CondExpr { cond, value, .. } => cond is Always && value.len() == 0,
        AttrV::Expr { .. } => false,
    }
}

/// The markup of a static attribute: ` name="value"`.
pub open spec fn xml_attr(a: AttrV) -> Seq<char> {
    match a {
        AttrV::Lit { name, value, .. } => attr_text(name, value),
        AttrV::CondExpr { name, .. } => attr_text(name, lit_true()),
        AttrV::Expr { .. } => seq![],
    }
}

pub open spec fn is_static_attrs(s: Seq<AttrV>) -> bool {
    forall|i: int| 0 <= i < s.len() ==> is_static_attr(#[trigger] s[i])
}

pub open spec fn xml_attrs(s: Seq<AttrV>) -> Seq<char>
    decreases s.len(),
{
    if s.len() == 0 {
        seq![]
    } else {
        xml_attrs(s.drop_last()) + xml_attr(s.last())
    }
}

/// Whether a node writes the same markup whatever the program's variables
/// hold: no splice, no control flow, static attributes, and no CDATA
/// section inside another one. `in_cdata` holds inside a CDATA section.
pub open spec fn is_static_node(n: NodeV, in_cdata: bool) -> bool
    decreases n, 0nat,
{
    match n {
        NodeV::Element { attrs, body, .. } => is_static_attrs(attrs) && is_static_nodes(body, in_cdata),
        NodeV::Text(_) => true,
        NodeV::Comment(_) => true,
        NodeV::Cdata(body) => !in_cdata && is_static_nodes(body, true),
        NodeV::Pi { attrs, body, .. } => is_static_attrs(attrs) && is_static_nodes(body, in_cdata),
        NodeV::Doctype(_) => true,
        _ => false,
    }
}

pub open spec fn is_static_nodes(s: Seq<NodeV>, in_cdata: bool) -> bool
    decreases s, 1nat,
{
    if s.len() == 0 {
        true
    } else {
        is_static_nodes(s.drop_last(), in_cdata) && is_static_node(s.last(), in_cdata)
    }
}

/// The markup of a static node; `raw` inside a CDATA section, where text is
/// written verbatim.
pub open spec fn xml_node(n: NodeV, raw: bool) -> Seq<char>
    decreases n, 0nat,
{
    match n {
        NodeV::Element { name, attrs, body } => str_open_tag() + name + xml_attrs(attrs) + if body.len() == 0 {
            str_close_self()
        } else {
            str_gt() + xml_nodes(body, raw) + str_open_end() + name + str_gt()
        },
        NodeV::Text(s) => if raw {
            s
        } else {
            escaped_text(s)
        },
        NodeV::Comment(t) => str_comment_open() + t + str_comment_close(),
        NodeV::Cdata(body) => str_cdata_open() + xml_nodes(body, true) + str_cdata_close(),
        NodeV::Pi { name, attrs, body } => str_pi_open() + name + xml_attrs(attrs) + if body.len() == 0 {
            str_pi_close()
        } else {
            str_space() + xml_nodes(body, raw) + str_pi_close()
        },
        NodeV::Doctype(spec) => str_doctype_open() + spec + str_gt(),
        _ => seq![],
    }
}

pub open spec fn xml_nodes(s: Seq<NodeV>, raw: bool) -> Seq<char>
    decreases s, 1nat,
{
    if s.len() == 0 {
        seq![]
    } else {
        xml_nodes(s.drop_last(), raw) + xml_node(s.last(), raw)
    }
}

// ==================== Running generated code ====================

/// Running `a + b` runs `a`, then `b`.
pub proof fn lemma_run_concat(a: Seq<StmtV>, b: Seq<StmtV>, o: Outputs, cd: bool, vals: Seq<EvalV>, k: int)
    ensures
        run_stmts(a + b, o, cd, vals, k) == match run_stmts(a, o, cd, vals, k) {
            None => None,
            Some((o2, k2)) => run_stmts(b, o2, cd, vals, k2),
        },
    decreases b.len(),
{
    if b.len() == 0 {
        assert(a + b =~= a);
    } else {
        lemma_run_concat(a, b.drop_last(), o, cd, vals, k);
        assert((a + b).drop_last() =~= a + b.drop_last());
        assert((a + b).last() == b.last());
    }
}

/// Writing `x` then `y` writes `x + y`.
pub proof fn lemma_write_twice(o: Outputs, cd: bool, x: Seq<char>, y: Seq<char>)
    ensures
        emit(emit(o, cd, x), cd, y) == emit(o, cd, x + y),
{
    if cd {
        assert(o.cdata + x + y =~= o.cdata + (x + y));
    } else {
        assert(o.top + x + y =~= o.top + (x + y));
    }
}

/// Running one statement that writes `x`.
pub(crate) proof fn lemma_run_one(st: StmtV, x: Seq<char>, o: Outputs, cd: bool, vals: Seq<EvalV>, k: int)
    requires
        run_stmt(st, o, cd, vals, k) == Some((emit(o, cd, x), k)),
    ensures
        run_stmts(seq![st], o, cd, vals, k) == Some((emit(o, cd, x), k)),
{
    assert(seq![st].drop_last() =~= Seq::<StmtV>::empty());
    assert(run_stmts(Seq::<StmtV>::empty(), o, cd, vals, k) == Some((o, k)));
    assert(seq![st].last() == st);
}

/// Running literal pushes writes their concatenation.
pub(crate) proof fn lemma_run_push(s: Seq<char>, o: Outputs, cd: bool, vals: Seq<EvalV>, k: int)
    ensures
        run_stmts(seq![StmtV::PushStr(s)], o, cd, vals, k) == Some((emit(o, cd, s), k)),
{
    lemma_run_one(StmtV::PushStr(s), s, o, cd, vals, k);
}

/// The statements of static attributes write their markup.
pub proof fn lemma_run_attrs(s: Seq<AttrV>, o: Outputs, cd: bool, vals: Seq<EvalV>, k: int)
    requires
        is_static_attrs(s),
    ensures
        run_stmts(gen_attrs(s), o, cd, vals, k) == Some((emit(o, cd, xml_attrs(s)), k)),
    decreases s.len(),
{
    if s.len() == 0 {
        assert(emit(o, cd, seq![]) == o) by {
            assert(o.top + seq![] =~= o.top);
            assert(o.cdata + seq![] =~= o.cdata);
        }
    } else {
        let init = s.drop_last();
        let a = s.last();
        assert(is_static_attrs(init));
        assert(is_static_attr(a));
        lemma_run_attrs(init, o, cd, vals, k);
        lemma_run_concat(gen_attrs(init), gen_attr(a), o, cd, vals, k);
        let o2 = emit(o, cd, xml_attrs(init));
        match a {
            AttrV::Lit { name, value, .. } => {
                lemma_run_one(StmtV::PushAttr { name, value }, attr_text(name, value), o2, cd, vals, k);
            },
            AttrV::CondExpr { name, cond, value, .. } => {
                let c = seq![Tok::Ident { name: lit_true(), span: cond->Always_span }];
                assert(is_literal_true(c));
                let then = seq![StmtV::PushAttr { name, value: lit_true() }];
                lemma_run_one(StmtV::PushAttr { name, value: lit_true() }, attr_text(name, lit_true()), o2, cd, vals, k);
                lemma_run_one(StmtV::If { cond: c, then, else_: None }, attr_text(name, lit_true()), o2, cd, vals, k);
            },
            AttrV::Expr { .. } => {},
        }
        lemma_write_twice(o, cd, xml_attrs(init), xml_attr(a));
    }
}


/// Writing nothing leaves the outputs as they are.
proof fn lemma_emit_empty(o: Outputs, cd: bool)
    ensures
        emit(o, cd, seq![]) == o,
{
    assert(o.top + seq![] =~= o.top);
    assert(o.cdata + seq![] =~= o.cdata);
}

/// Running `x` then `y`, each of which writes a fixed text.
proof fn lemma_run_seq(
    x: Seq<StmtV>,
    y: Seq<StmtV>,
    xs: Seq<char>,
    ys: Seq<char>,
    o: Outputs,
    cd: bool,
    vals: Seq<EvalV>,
    k: int,
)
    requires
        run_stmts(x, o, cd, vals, k) == Some((emit(o, cd, xs), k)),
        run_stmts(y, emit(o, cd, xs), cd, vals, k) == Some((emit(emit(o, cd, xs), cd, ys), k)),
    ensures
        run_stmts(x + y, o, cd, vals, k) == Some((emit(o, cd, xs + ys), k)),
{
    lemma_run_concat(x, y, o, cd, vals, k);
    lemma_write_twice(o, cd, xs, ys);
}

/// Running literal pushes of `a`, then `b`.
pub(crate) proof fn lemma_run_push2(a: Seq<char>, b: Seq<char>, o: Outputs, cd: bool, vals: Seq<EvalV>, k: int)
    ensures
        run_stmts(seq![StmtV::PushStr(a), StmtV::PushStr(b)], o, cd, vals, k) == Some(
            (emit(o, cd, a + b), k),
        ),
{
    assert(seq![StmtV::PushStr(a), StmtV::PushStr(b)] =~= seq![StmtV::PushStr(a)] + seq![
        StmtV::PushStr(b),
    ]);
    lemma_run_push(a, o, cd, vals, k);
    lemma_run_push(b, emit(o, cd, a), cd, vals, k);
    lemma_run_seq(seq![StmtV::PushStr(a)], seq![StmtV::PushStr(b)], a, b, o, cd, vals, k);
}

/// Running literal pushes of `a`, `b`, then `c`.
pub(crate) proof fn lemma_run_push3(
    a: Seq<char>,
    b: Seq<char>,
    c: Seq<char>,
    o: Outputs,
    cd: bool,
    vals: Seq<EvalV>,
    k: int,
)
    ensures
        run_stmts(seq![StmtV::PushStr(a), StmtV::PushStr(b), StmtV::PushStr(c)], o, cd, vals, k)
            == Some((emit(o, cd, a + b + c), k)),
{
    assert(seq![StmtV::PushStr(a), StmtV::PushStr(b), StmtV::PushStr(c)] =~= seq![
        StmtV::PushStr(a),
        StmtV::PushStr(b),
    ] + seq![StmtV::PushStr(c)]);
    lemma_run_push2(a, b, o, cd, vals, k);
    lemma_run_push(c, emit(o, cd, a + b), cd, vals, k);
    lemma_run_seq(
        seq![StmtV::PushStr(a), StmtV::PushStr(b)],
        seq![StmtV::PushStr(c)],
        a + b,
        c,
        o,
        cd,
        vals,
        k,
    );
}

/// The opening of a tag or instruction: `open`, the name, the attributes.
proof fn lemma_run_head(
    open: Seq<char>,
    name: Seq<char>,
    attrs: Seq<AttrV>,
    o: Outputs,
    cd: bool,
    vals: Seq<EvalV>,
    k: int,
)
    requires
        is_static_attrs(attrs),
    ensures
        run_stmts(seq![StmtV::PushStr(open), StmtV::PushStr(name)] + gen_attrs(attrs), o, cd, vals, k)
            == Some((emit(o, cd, open + name + xml_attrs(attrs)), k)),
{
    lemma_run_push2(open, name, o, cd, vals, k);
    lemma_run_attrs(attrs, emit(o, cd, open + name), cd, vals, k);
    lemma_run_seq(
        seq![StmtV::PushStr(open), StmtV::PushStr(name)],
        gen_attrs(attrs),
        open + name,
        xml_attrs(attrs),
        o,
        cd,
        vals,
        k,
    );
}

/// The statements of a static node write its markup.
pub proof fn lemma_run_node(n: NodeV, cd: bool, o: Outputs, vals: Seq<EvalV>, k: int)
    requires
        is_static_node(n, cd),
    ensures
        run_stmts(gen_node(n, cd), o, cd, vals, k) == Some((emit(o, cd, xml_node(n, cd)), k)),
    decreases n, 0nat,
{
    match n {
        NodeV::Element { name, attrs, body } => {
            let head = seq![StmtV::PushStr(str_open_tag()), StmtV::PushStr(name)] + gen_attrs(attrs);
            let hs = str_open_tag() + name + xml_attrs(attrs);
            lemma_run_head(str_open_tag(), name, attrs, o, cd, vals, k);
            let o1 = emit(o, cd, hs);
            if body.len() == 0 {
                lemma_run_push(str_close_self(), o1, cd, vals, k);
                lemma_run_seq(head, seq![StmtV::PushStr(str_close_self())], hs, str_close_self(), o, cd, vals, k);
            } else {
                let s1 = head + seq![StmtV::PushStr(str_gt())];
                lemma_run_push(str_gt(), o1, cd, vals, k);
                lemma_run_seq(head, seq![StmtV::PushStr(str_gt())], hs, str_gt(), o, cd, vals, k);
                let o2 = emit(o, cd, hs + str_gt());
                lemma_run_nodes(body, cd, o2, vals, k);
                lemma_run_seq(s1, gen_nodes(body, cd), hs + str_gt(), xml_nodes(body, cd), o, cd, vals, k);
                let s2 = s1 + gen_nodes(body, cd);
                let t2 = hs + str_gt() + xml_nodes(body, cd);
                lemma_run_push3(str_open_end(), name, str_gt(), emit(o, cd, t2), cd, vals, k);
                lemma_run_seq(
                    s2,
                    seq![StmtV::PushStr(str_open_end()), StmtV::PushStr(name), StmtV::PushStr(str_gt())],
                    t2,
                    str_open_end() + name + str_gt(),
                    o,
                    cd,
                    vals,
                    k,
                );
                assert(t2 + (str_open_end() + name + str_gt()) =~= hs + (str_gt() + xml_nodes(body, cd)
                    + str_open_end() + name + str_gt()));
            }
            assert(xml_node(n, cd) =~= hs + if body.len() == 0 {
                str_close_self()
            } else {
                str_gt() + xml_nodes(body, cd) + str_open_end() + name + str_gt()
            });
        },
        NodeV::Text(t) => {
            if cd {
                lemma_run_push(t, o, cd, vals, k);
            } else {
                lemma_run_one(StmtV::PushText(t), escaped_text(t), o, cd, vals, k);
            }
        },
        NodeV::Comment(t) => {
            lemma_run_push3(str_comment_open(), t, str_comment_close(), o, cd, vals, k);
        },
        NodeV::Doctype(t) => {
            lemma_run_push3(str_doctype_open(), t, str_gt(), o, cd, vals, k);
        },
        NodeV::Cdata(body) => {
            let start = Outputs { top: o.top + str_cdata_open(), cdata: seq![] };
            lemma_run_nodes(body, true, start, vals, k);
            let x = xml_nodes(body, true);
            assert(seq![] + x =~= x);
            assert(o.top + str_cdata_open() + x + str_cdata_close() =~= o.top + (str_cdata_open() + x
                + str_cdata_close()));
            lemma_run_one(
                StmtV::Cdata(gen_nodes(body, true)),
                str_cdata_open() + x + str_cdata_close(),
                o,
                cd,
                vals,
                k,
            );
        },
        NodeV::Pi { name, attrs, body } => {
            let head = seq![StmtV::PushStr(str_pi_open()), StmtV::PushStr(name)] + gen_attrs(attrs);
            let hs = str_pi_open() + name + xml_attrs(attrs);
            lemma_run_head(str_pi_open(), name, attrs, o, cd, vals, k);
            let o1 = emit(o, cd, hs);
            if body.len() == 0 {
                lemma_run_push(str_pi_close(), o1, cd, vals, k);
                lemma_run_seq(head, seq![StmtV::PushStr(str_pi_close())], hs, str_pi_close(), o, cd, vals, k);
            } else {
                let s1 = head + seq![StmtV::PushStr(str_space())];
                lemma_run_push(str_space(), o1, cd, vals, k);
                lemma_run_seq(head, seq![StmtV::PushStr(str_space())], hs, str_space(), o, cd, vals, k);
                let o2 = emit(o, cd, hs + str_space());
                lemma_run_nodes(body, cd, o2, vals, k);
                lemma_run_seq(s1, gen_nodes(body, cd), hs + str_space(), xml_nodes(body, cd), o, cd, vals, k);
                let s2 = s1 + gen_nodes(body, cd);
                let t2 = hs + str_space() + xml_nodes(body, cd);
                lemma_run_push(str_pi_close(), emit(o, cd, t2), cd, vals, k);
                lemma_run_seq(s2, seq![StmtV::PushStr(str_pi_close())], t2, str_pi_close(), o, cd, vals, k);
                assert(t2 + str_pi_close() =~= hs + (str_space() + xml_nodes(body, cd) + str_pi_close()));
            }
            assert(xml_node(n, cd) =~= hs + if body.len() == 0 {
                str_pi_close()
            } else {
                str_space() + xml_nodes(body, cd) + str_pi_close()
            });
        },
        _ => {},
    }
}

/// The statements of static nodes write their markup, in order.
pub proof fn lemma_run_nodes(s: Seq<NodeV>, cd: bool, o: Outputs, vals: Seq<EvalV>, k: int)
    requires
        is_static_nodes(s, cd),
    ensures
        run_stmts(gen_nodes(s, cd), o, cd, vals, k) == Some((emit(o, cd, xml_nodes(s, cd)), k)),
    decreases s, 1nat,
{
    if s.len() == 0 {
        lemma_emit_empty(o, cd);
    } else {
        let init = s.drop_last();
        lemma_run_nodes(init, cd, o, vals, k);
        lemma_run_node(s.last(), cd, emit(o, cd, xml_nodes(init, cd)), vals, k);
        lemma_run_seq(
            gen_nodes(init, cd),
            gen_node(s.last(), cd),
            xml_nodes(init, cd),
            xml_node(s.last(), cd),
            o,
            cd,
            vals,
            k,
        );
    }
}

/// A template made of static parts only (no splice, no control flow, no
/// CDATA section inside another) renders, with no splice values, to its
/// markup: each element as its tags around its body, text escaped, CDATA
/// content verbatim.
pub proof fn law_static_template_renders_markup(ns: Seq<NodeV>)
    requires
        is_static_nodes(ns, false),
    ensures
        run_stmts(gen_nodes(ns, false), Outputs { top: seq![], cdata: seq![] }, false, seq![], 0int) == Some(
            (Outputs { top: xml_nodes(ns, false), cdata: seq![] }, 0int),
        ),
{
    let o = Outputs { top: seq![], cdata: seq![] };
    lemma_run_nodes(ns, false, o, seq![], 0);
    assert(seq![] + xml_nodes(ns, false) =~= xml_nodes(ns, false));
}

} // verus!
