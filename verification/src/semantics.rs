//! What a template writes, stated over the template itself, and the proof
//! that the generated statements write exactly that.
//!
//! As for the statements, the values of the template's Rust expressions are
//! given in the order they are reached: a splice's text, a condition, a
//! loop's count, a match's arm.
use vstd::prelude::*;

use crate::ast::{ArmV, AttrV, CondV, NodeV};
use crate::codegen::{
    StmtV, cond_tokens, gen_arms, gen_attr, gen_attrs, gen_node, gen_nodes, lit_true, str_cdata_close,
    str_cdata_open, str_close_self, str_comment_close, str_comment_open, str_doctype_open, str_gt, str_open_end,
    str_open_tag, str_pi_close, str_pi_open, str_space,
};
use crate::escape::escaped_text;
use crate::markup::{attr_rendered_text, attr_text};
use crate::run::{EvalV, Outputs, emit, is_literal_true, run_stmt, run_stmts, run_times};
use crate::token::Tok;
use crate::xml::{lemma_run_concat, lemma_run_push, lemma_run_push2, lemma_run_push3};

verus! {

/// Writes `s` after a result, if there is one.
pub open spec fn then_emit(r: Option<(Outputs, int)>, cd: bool, s: Seq<char>) -> Option<(Outputs, int)> {
    match r {
        None => None,
        Some((o, k)) => Some((emit(o, cd, s), k)),
    }
}

/// Writes the text value at `k`, as the value of attribute `name` when there
/// is one, and moves past it.
pub open spec fn emit_text_at(o: Outputs, cd: bool, ev: Seq<EvalV>, k: int, name: Option<Seq<char>>) -> Option<
    (Outputs, int),
> {
    if 0 <= k < ev.len() && ev[k] is Text {
        match name {
            Some(n) => Some((emit(o, cd, attr_rendered_text(n, ev[k]->Text_0)), k + 1)),
            None => Some((emit(o, cd, ev[k]->Text_0), k + 1)),
        }
    } else {
        None
    }
}

/// Whether a condition is known to hold without a value: the literal
/// `true`, which is also what `name?` stands for.
pub open spec fn known_true(cond: CondV) -> bool {
    match cond {
        CondV::Always { .. } => true,
        CondV::Expr(e) => is_literal_true(e),
    }
}

/// What a conditional attribute writes when its condition holds.
pub open spec fn emits_present(name: Seq<char>, value: Seq<Tok>, o: Outputs, cd: bool, ev: Seq<EvalV>, k: int) -> Option<
    (Outputs, int),
> {
    if value.len() == 0 {
        Some((emit(o, cd, attr_text(name, lit_true())), k))
    } else {
        emit_text_at(o, cd, ev, k, Some(name))
    }
}

/// What an attribute writes: ` name="value"`, the value a literal or the
/// rendered value of its expression; a conditional one only when its
/// condition holds, `"true"` when it has no value.
pub open spec fn emits_attr(a: AttrV, o: Outputs, cd: bool, ev: Seq<EvalV>, k: int) -> Option<(Outputs, int)> {
    match a {
        AttrV::Lit { name, value, .. } => Some((emit(o, cd, attr_text(name, value)), k)),
        AttrV::Expr { name, .. } => emit_text_at(o, cd, ev, k, Some(name)),
        AttrV::CondExpr { name, cond, value, .. } => {
            if known_true(cond) {
                emits_present(name, value, o, cd, ev, k)
            } else if 0 <= k < ev.len() && ev[k] is Cond {
                if ev[k]->Cond_0 {
                    emits_present(name, value, o, cd, ev, k + 1)
                } else {
                    Some((o, k + 1))
                }
            } else {
                None
            }
        },
    }
}

/// What attributes write, in order.
pub open spec fn emits_attrs(s: Seq<AttrV>, o: Outputs, cd: bool, ev: Seq<EvalV>, k: int) -> Option<(Outputs, int)>
    decreases s.len(),
{
    if s.len() == 0 {
        Some((o, k))
    } else {
        match emits_attrs(s.drop_last(), o, cd, ev, k) {
            None => None,
            Some((o2, k2)) => emits_attr(s.last(), o2, cd, ev, k2),
        }
    }
}

/// What a node writes, inside `@cdata` when `cd` holds.
///
/// A CDATA section is opened in the top-level output; its content is
/// gathered apart and written after the opening, followed by `]]>`. (A
/// section inside another is thus written out whole before the content of
/// the outer one.)
pub open spec fn emits_node(n: NodeV, cd: bool, o: Outputs, ev: Seq<EvalV>, k: int) -> Option<(Outputs, int)>
    decreases n, 0nat, 0nat,
{
    match n {
        NodeV::Element { name, attrs, body } => {
            match emits_attrs(attrs, emit(o, cd, str_open_tag() + name), cd, ev, k) {
                None => None,
                Some((o1, k1)) => {
                    if body.len() == 0 {
                        Some((emit(o1, cd, str_close_self()), k1))
                    } else {
                        then_emit(
                            emits_nodes(body, cd, emit(o1, cd, str_gt()), ev, k1),
                            cd,
                            str_open_end() + name + str_gt(),
                        )
                    }
                },
            }
        },
        NodeV::Text(s) => Some((emit(o, cd, if cd { s } else { escaped_text(s) }), k)),
        NodeV::Splice { .. } => emit_text_at(o, cd, ev, k, None),
        NodeV::If { cond, then, else_ } => {
            if is_literal_true(cond) {
                emits_nodes(then, cd, o, ev, k)
            } else if 0 <= k < ev.len() && ev[k] is Cond {
                if ev[k]->Cond_0 {
                    emits_nodes(then, cd, o, ev, k + 1)
                } else {
                    match else_ {
                        Some(e) => emits_nodes(e, cd, o, ev, k + 1),
                        None => Some((o, k + 1)),
                    }
                }
            } else {
                None
            }
        },
        NodeV::For { body, .. } | NodeV::While { body, .. } => {
            if 0 <= k < ev.len() && ev[k] is Times {
                emits_times(body, ev[k]->Times_0, cd, o, ev, k + 1)
            } else {
                None
            }
        },
        NodeV::Match { arms, .. } => {
            if 0 <= k < ev.len() && ev[k] is Arm && ev[k]->Arm_0 < arms.len() {
                let i = ev[k]->Arm_0 as int;
                proof {
                    assert(decreases_to!(arms => arms[i]));
                }
                emits_nodes(arms[i].body, cd, o, ev, k + 1)
            } else {
                None
            }
        },
        NodeV::Comment(t) => Some((emit(o, cd, str_comment_open() + t + str_comment_close()), k)),
        NodeV::Cdata(body) => {
            let start = Outputs { top: o.top + str_cdata_open(), cdata: seq![] };
            match emits_nodes(body, true, start, ev, k) {
                None => None,
                Some((o2, k2)) => Some((Outputs { top: o2.top + o2.cdata + str_cdata_close(), cdata: o.cdata }, k2)),
            }
        },
        NodeV::Pi { name, attrs, body } => {
            match emits_attrs(attrs, emit(o, cd, str_pi_open() + name), cd, ev, k) {
                None => None,
                Some((o1, k1)) => {
                    if body.len() == 0 {
                        Some((emit(o1, cd, str_pi_close()), k1))
                    } else {
                        then_emit(emits_nodes(body, cd, emit(o1, cd, str_space()), ev, k1), cd, str_pi_close())
                    }
                },
            }
        },
        NodeV::Doctype(t) => Some((emit(o, cd, str_doctype_open() + t + str_gt()), k)),
    }
}

/// What nodes write, in order.
pub open spec fn emits_nodes(s: Seq<NodeV>, cd: bool, o: Outputs, ev: Seq<EvalV>, k: int) -> Option<(Outputs, int)>
    decreases s, 1nat, 0nat,
{
    if s.len() == 0 {
        Some((o, k))
    } else {
        match emits_nodes(s.drop_last(), cd, o, ev, k) {
            None => None,
            Some((o2, k2)) => emits_node(s.last(), cd, o2, ev, k2),
        }
    }
}

/// What a loop body writes when it runs `n` times.
pub open spec fn emits_times(body: Seq<NodeV>, n: nat, cd: bool, o: Outputs, ev: Seq<EvalV>, k: int) -> Option<
    (Outputs, int),
>
    decreases body, 2nat, n,
{
    if n == 0 {
        Some((o, k))
    } else {
        match emits_times(body, (n - 1) as nat, cd, o, ev, k) {
            None => None,
            Some((o2, k2)) => emits_nodes(body, cd, o2, ev, k2),
        }
    }
}

// ==================== The generated statements ====================

/// Running one statement alone.
proof fn lemma_run_single(x: StmtV, o: Outputs, cd: bool, ev: Seq<EvalV>, k: int)
    ensures
        run_stmts(seq![x], o, cd, ev, k) == run_stmt(x, o, cd, ev, k),
{
    assert(seq![x].drop_last() =~= Seq::<StmtV>::empty());
    assert(run_stmts(Seq::<StmtV>::empty(), o, cd, ev, k) == Some((o, k)));
    assert(seq![x].last() == x);
}

/// The statements of an attribute write what the attribute does.
proof fn lemma_gen_attr(a: AttrV, o: Outputs, cd: bool, ev: Seq<EvalV>, k: int)
    ensures
        run_stmts(gen_attr(a), o, cd, ev, k) == emits_attr(a, o, cd, ev, k),
{
    match a {
        AttrV::Lit { name, value, .. } => {
            lemma_run_single(StmtV::PushAttr { name, value }, o, cd, ev, k);
        },
        AttrV::Expr { name, value, .. } => {
            lemma_run_single(StmtV::RenderAttr { name, value }, o, cd, ev, k);
        },
        AttrV::CondExpr { name, cond, value, .. } => {
            let then = if value.len() == 0 {
                seq![StmtV::PushAttr { name, value: lit_true() }]
            } else {
                seq![StmtV::RenderAttr { name, value }]
            };
            let x = StmtV::If { cond: cond_tokens(cond), then, else_: None };
            lemma_run_single(x, o, cd, ev, k);
            assert(is_literal_true(cond_tokens(cond)) == known_true(cond));
            if value.len() == 0 {
                lemma_run_single(StmtV::PushAttr { name, value: lit_true() }, o, cd, ev, k);
                lemma_run_single(StmtV::PushAttr { name, value: lit_true() }, o, cd, ev, k + 1);
            } else {
                lemma_run_single(StmtV::RenderAttr { name, value }, o, cd, ev, k);
                lemma_run_single(StmtV::RenderAttr { name, value }, o, cd, ev, k + 1);
            }
        },
    }
}

/// The statements of attributes write what the attributes do, in order.
proof fn lemma_gen_attrs(s: Seq<AttrV>, o: Outputs, cd: bool, ev: Seq<EvalV>, k: int)
    ensures
        run_stmts(gen_attrs(s), o, cd, ev, k) == emits_attrs(s, o, cd, ev, k),
    decreases s.len(),
{
    if s.len() > 0 {
        let init = s.drop_last();
        lemma_gen_attrs(init, o, cd, ev, k);
        lemma_run_concat(gen_attrs(init), gen_attr(s.last()), o, cd, ev, k);
        match emits_attrs(init, o, cd, ev, k) {
            Some((o2, k2)) => lemma_gen_attr(s.last(), o2, cd, ev, k2),
            None => {},
        }
    }
}

/// The head of a tag or instruction: `open`, the name, the attributes.
proof fn lemma_gen_head(open: Seq<char>, name: Seq<char>, attrs: Seq<AttrV>, o: Outputs, cd: bool, ev: Seq<EvalV>, k: int)
    ensures
        run_stmts(seq![StmtV::PushStr(open), StmtV::PushStr(name)] + gen_attrs(attrs), o, cd, ev, k)
            == emits_attrs(attrs, emit(o, cd, open + name), cd, ev, k),
{
    let h = seq![StmtV::PushStr(open), StmtV::PushStr(name)];
    lemma_run_push2(open, name, o, cd, ev, k);
    lemma_run_concat(h, gen_attrs(attrs), o, cd, ev, k);
    lemma_gen_attrs(attrs, emit(o, cd, open + name), cd, ev, k);
}

/// How many arms a generated match has, and what each one holds.
proof fn lemma_gen_arms(s: Seq<ArmV>, cd: bool)
    ensures
        gen_arms(s, cd).len() == s.len(),
        forall|i: int| 0 <= i < s.len() ==> (#[trigger] gen_arms(s, cd)[i]).1 == gen_nodes(s[i].body, cd),
    decreases s.len(),
{
    if s.len() > 0 {
        let init = s.drop_last();
        lemma_gen_arms(init, cd);
        assert forall|i: int| 0 <= i < s.len() implies (#[trigger] gen_arms(s, cd)[i]).1 == gen_nodes(
            s[i].body,
            cd,
        ) by {
            if i < s.len() - 1 {
                assert(gen_arms(s, cd)[i] == gen_arms(init, cd)[i]);
                assert(s[i] == init[i]);
            }
        }
    }
}

/// An element's statements write what the element does.
proof fn lemma_gen_element(n: NodeV, cd: bool, o: Outputs, ev: Seq<EvalV>, k: int)
    requires
        n is Element,
    ensures
        run_stmts(gen_node(n, cd), o, cd, ev, k) == emits_node(n, cd, o, ev, k),
    decreases n, 0nat, 0nat,
{
    if let NodeV::Element { name, attrs, body } = n {
        let h = seq![StmtV::PushStr(str_open_tag()), StmtV::PushStr(name)] + gen_attrs(attrs);
        lemma_gen_head(str_open_tag(), name, attrs, o, cd, ev, k);
        let r1 = emits_attrs(attrs, emit(o, cd, str_open_tag() + name), cd, ev, k);
        if body.len() == 0 {
            let c = seq![StmtV::PushStr(str_close_self())];
            lemma_run_concat(h, c, o, cd, ev, k);
            if let Some((o1, k1)) = r1 {
                lemma_run_push(str_close_self(), o1, cd, ev, k1);
            }
        } else {
            let g = seq![StmtV::PushStr(str_gt())];
            let t = seq![StmtV::PushStr(str_open_end()), StmtV::PushStr(name), StmtV::PushStr(str_gt())];
            lemma_run_concat(h, g, o, cd, ev, k);
            lemma_run_concat(h + g, gen_nodes(body, cd), o, cd, ev, k);
            lemma_run_concat(h + g + gen_nodes(body, cd), t, o, cd, ev, k);
            if let Some((o1, k1)) = r1 {
                lemma_run_push(str_gt(), o1, cd, ev, k1);
                lemma_gen_nodes(body, cd, emit(o1, cd, str_gt()), ev, k1);
                if let Some((o3, k3)) = emits_nodes(body, cd, emit(o1, cd, str_gt()), ev, k1) {
                    lemma_run_push3(str_open_end(), name, str_gt(), o3, cd, ev, k3);
                }
            }
        }
    }
}

/// A processing instruction's statements write what it does.
proof fn lemma_gen_pi(n: NodeV, cd: bool, o: Outputs, ev: Seq<EvalV>, k: int)
    requires
        n is Pi,
    ensures
        run_stmts(gen_node(n, cd), o, cd, ev, k) == emits_node(n, cd, o, ev, k),
    decreases n, 0nat, 0nat,
{
    if let NodeV::Pi { name, attrs, body } = n {
        let h = seq![StmtV::PushStr(str_pi_open()), StmtV::PushStr(name)] + gen_attrs(attrs);
        lemma_gen_head(str_pi_open(), name, attrs, o, cd, ev, k);
        let r1 = emits_attrs(attrs, emit(o, cd, str_pi_open() + name), cd, ev, k);
        if body.len() == 0 {
            let c = seq![StmtV::PushStr(str_pi_close())];
            lemma_run_concat(h, c, o, cd, ev, k);
            if let Some((o1, k1)) = r1 {
                lemma_run_push(str_pi_close(), o1, cd, ev, k1);
            }
        } else {
            let g = seq![StmtV::PushStr(str_space())];
            let t = seq![StmtV::PushStr(str_pi_close())];
            lemma_run_concat(h, g, o, cd, ev, k);
            lemma_run_concat(h + g, gen_nodes(body, cd), o, cd, ev, k);
            lemma_run_concat(h + g + gen_nodes(body, cd), t, o, cd, ev, k);
            if let Some((o1, k1)) = r1 {
                lemma_run_push(str_space(), o1, cd, ev, k1);
                lemma_gen_nodes(body, cd, emit(o1, cd, str_space()), ev, k1);
                if let Some((o3, k3)) = emits_nodes(body, cd, emit(o1, cd, str_space()), ev, k1) {
                    lemma_run_push(str_pi_close(), o3, cd, ev, k3);
                }
            }
        }
    }
}

/// An `@if`'s statement writes what the `@if` does.
proof fn lemma_gen_if(n: NodeV, cd: bool, o: Outputs, ev: Seq<EvalV>, k: int)
    requires
        n is If,
    ensures
        run_stmts(gen_node(n, cd), o, cd, ev, k) == emits_node(n, cd, o, ev, k),
    decreases n, 0nat, 0nat,
{
    if let NodeV::If { cond, then, else_ } = n {
        let x = StmtV::If {
            cond,
            then: gen_nodes(then, cd),
            else_: match else_ {
                Some(e) => Some(gen_nodes(e, cd)),
                None => None,
            },
        };
        lemma_run_single(x, o, cd, ev, k);
        lemma_gen_nodes(then, cd, o, ev, k);
        lemma_gen_nodes(then, cd, o, ev, k + 1);
        if let Some(e) = else_ {
            lemma_gen_nodes(e, cd, o, ev, k + 1);
        }
    }
}

/// An `@for`'s or `@while`'s statement writes what the loop does.
proof fn lemma_gen_loop(n: NodeV, cd: bool, o: Outputs, ev: Seq<EvalV>, k: int)
    requires
        n is For || n is While,
    ensures
        run_stmts(gen_node(n, cd), o, cd, ev, k) == emits_node(n, cd, o, ev, k),
    decreases n, 0nat, 0nat,
{
    match n {
        NodeV::For { pat, expr, body } => {
            lemma_run_single(StmtV::For { pat, expr, body: gen_nodes(body, cd) }, o, cd, ev, k);
            if 0 <= k < ev.len() && ev[k] is Times {
                lemma_gen_times(body, ev[k]->Times_0, cd, o, ev, k + 1);
            }
        },
        NodeV::While { cond, body } => {
            lemma_run_single(StmtV::While { cond, body: gen_nodes(body, cd) }, o, cd, ev, k);
            if 0 <= k < ev.len() && ev[k] is Times {
                lemma_gen_times(body, ev[k]->Times_0, cd, o, ev, k + 1);
            }
        },
        _ => {},
    }
}

/// An `@match`'s statement writes what the `@match` does.
proof fn lemma_gen_match(n: NodeV, cd: bool, o: Outputs, ev: Seq<EvalV>, k: int)
    requires
        n is Match,
    ensures
        run_stmts(gen_node(n, cd), o, cd, ev, k) == emits_node(n, cd, o, ev, k),
    decreases n, 0nat, 0nat,
{
    if let NodeV::Match { expr, arms } = n {
        lemma_run_single(StmtV::Match { expr, arms: gen_arms(arms, cd) }, o, cd, ev, k);
        lemma_gen_arms(arms, cd);
        if 0 <= k < ev.len() && ev[k] is Arm && ev[k]->Arm_0 < arms.len() {
            let i = ev[k]->Arm_0 as int;
            assert(decreases_to!(arms => arms[i]));
            assert(gen_arms(arms, cd)[i].1 == gen_nodes(arms[i].body, cd));
            lemma_gen_nodes(arms[i].body, cd, o, ev, k + 1);
        }
    }
}

/// The statements of a node write what the node does.
pub proof fn lemma_gen_node(n: NodeV, cd: bool, o: Outputs, ev: Seq<EvalV>, k: int)
    ensures
        run_stmts(gen_node(n, cd), o, cd, ev, k) == emits_node(n, cd, o, ev, k),
    decreases n, 1nat, 0nat,
{
    match n {
        NodeV::Element { .. } => lemma_gen_element(n, cd, o, ev, k),
        NodeV::Pi { .. } => lemma_gen_pi(n, cd, o, ev, k),
        NodeV::If { .. } => lemma_gen_if(n, cd, o, ev, k),
        NodeV::For { .. } | NodeV::While { .. } => lemma_gen_loop(n, cd, o, ev, k),
        NodeV::Match { .. } => lemma_gen_match(n, cd, o, ev, k),
        NodeV::Text(t) => {
            if cd {
                lemma_run_single(StmtV::PushStr(t), o, cd, ev, k);
            } else {
                lemma_run_single(StmtV::PushText(t), o, cd, ev, k);
            }
        },
        NodeV::Splice { expr, .. } => {
            lemma_run_single(StmtV::PushRaw(expr), o, cd, ev, k);
            lemma_run_single(StmtV::Render(expr), o, cd, ev, k);
        },
        NodeV::Comment(t) => {
            lemma_run_push3(str_comment_open(), t, str_comment_close(), o, cd, ev, k);
        },
        NodeV::Cdata(body) => {
            lemma_run_single(StmtV::Cdata(gen_nodes(body, true)), o, cd, ev, k);
            let start = Outputs { top: o.top + str_cdata_open(), cdata: seq![] };
            lemma_gen_nodes(body, true, start, ev, k);
        },
        NodeV::Doctype(t) => {
            lemma_run_push3(str_doctype_open(), t, str_gt(), o, cd, ev, k);
        },
    }
}

/// The statements of nodes write what the nodes do, in order.
pub proof fn lemma_gen_nodes(s: Seq<NodeV>, cd: bool, o: Outputs, ev: Seq<EvalV>, k: int)
    ensures
        run_stmts(gen_nodes(s, cd), o, cd, ev, k) == emits_nodes(s, cd, o, ev, k),
    decreases s, 2nat, 0nat,
{
    if s.len() > 0 {
        let init = s.drop_last();
        lemma_gen_nodes(init, cd, o, ev, k);
        lemma_run_concat(gen_nodes(init, cd), gen_node(s.last(), cd), o, cd, ev, k);
        if let Some((o2, k2)) = emits_nodes(init, cd, o, ev, k) {
            lemma_gen_node(s.last(), cd, o2, ev, k2);
        }
    }
}

/// A generated loop body run `n` times writes what the template's body does
/// `n` times.
proof fn lemma_gen_times(body: Seq<NodeV>, n: nat, cd: bool, o: Outputs, ev: Seq<EvalV>, k: int)
    ensures
        run_times(gen_nodes(body, cd), n, o, cd, ev, k) == emits_times(body, n, cd, o, ev, k),
    decreases body, 3nat, n,
{
    if n > 0 {
        lemma_gen_times(body, (n - 1) as nat, cd, o, ev, k);
        if let Some((o2, k2)) = emits_times(body, (n - 1) as nat, cd, o, ev, k) {
            lemma_gen_nodes(body, cd, o2, ev, k2);
        }
    }
}

/// The code generated for a template writes what the template says: for
/// every sequence of values of its Rust expressions, running the generated
/// statements gives the same output, and uses the same values, as the
/// template's own meaning; neither can go on where the other cannot.
pub proof fn law_generated_code_writes_what_the_template_says(ns: Seq<NodeV>, ev: Seq<EvalV>)
    ensures
        run_stmts(gen_nodes(ns, false), Outputs { top: seq![], cdata: seq![] }, false, ev, 0int) == emits_nodes(
            ns,
            false,
            Outputs { top: seq![], cdata: seq![] },
            ev,
            0int,
        ),
{
    lemma_gen_nodes(ns, false, Outputs { top: seq![], cdata: seq![] }, ev, 0);
}

} // verus!
