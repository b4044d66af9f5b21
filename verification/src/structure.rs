//! How a parsed template and its generated code follow the tokens written:
//! which tokens become a control-flow node's expressions, which statement a
//! splice becomes, and what an `attr?=value` attribute writes.
use vstd::prelude::*;

use crate::ast::{ArmV, AttrV, CondV, NodeV};
use crate::codegen::{StmtV, gen_arms, gen_attr, gen_node, gen_nodes, lit_true};
use crate::grammar::{
    arms, at, attr_expr_end, attr_value, body, brace_at_or_after, ends_attr_expr, keyword_at_or_after, lemma_attr_expr_end,
    lemma_brace_at_or_after, lemma_keyword_at_or_after, lemma_splice_end, splice_end,
};
use crate::run::{EvalV, Outputs};
use crate::semantics::{emit_text_at, emits_attr};
use crate::token::{Delimiter, Tok};

verus! {

/// No token of `s` is a `{ ... }` block.
pub open spec fn no_block(s: Seq<Tok>) -> bool {
    forall|i: int| 0 <= i < s.len() ==> !(#[trigger] s[i]).is_group(Delimiter::Brace)
}

/// `@for pat in expr { .. }`: the pattern is every token between `for` and
/// the first `in`, the expression every token after that `in` up to the
/// first block (neither holds that `in`), and the block holds the body.
pub proof fn law_for_takes_pattern_and_expression(t: Seq<Tok>, p: int, cdata: bool, pi: bool)
    requires
        0 <= p,
        p + 1 < t.len(),
        t[p].is_punct('@'),
        t[p + 1].is_keyword(seq!['f', 'o', 'r']),
    ensures
        at(t, p, cdata, pi) matches Ok((n, q)) ==> n matches NodeV::For { pat, expr, body: bd } && {
            let k = p + 2 + pat.len();
            &&& p + 3 <= k + 1 < q <= t.len()
            &&& t.subrange(p + 2, q - 1) == pat + seq![t[k]] + expr
            &&& t[k].is_keyword(seq!['i', 'n'])
            &&& forall|i: int| 0 <= i < pat.len() ==> !(#[trigger] pat[i]).is_keyword(seq!['i', 'n'])
            &&& no_block(expr)
            &&& t[q - 1].is_group(Delimiter::Brace)
            &&& body(t[q - 1]->Group_stream, cdata, pi) == Ok::<Seq<NodeV>, crate::grammar::ErrV>(bd)
        },
{
    let kin = seq!['i', 'n'];
    assert(kin =~= crate::grammar::kw_in());
    if at(t, p, cdata, pi) is Ok {
        assert(t[p + 1].is_keyword(crate::grammar::kw_for()));
        assert(!t[p + 1].is_keyword(crate::grammar::kw_if()));
        let k = keyword_at_or_after(t, p + 2, kin);
        lemma_keyword_at_or_after(t, p + 2, kin);
        lemma_brace_at_or_after(t, k + 1);
        let b = brace_at_or_after(t, k + 1);
        let pat = t.subrange(p + 2, k);
        let expr = t.subrange(k + 1, b);
        assert(t.subrange(p + 2, b) =~= pat + seq![t[k]] + expr);
        assert forall|i: int| 0 <= i < pat.len() implies !(#[trigger] pat[i]).is_keyword(kin) by {
            assert(pat[i] == t[p + 2 + i]);
        }
        assert forall|i: int| 0 <= i < expr.len() implies !(#[trigger] expr[i]).is_group(Delimiter::Brace) by {
            assert(expr[i] == t[k + 1 + i]);
        }
    }
}

/// `@match expr { .. }`: the expression is every token after `match` up to
/// the first block, and the block holds the arms.
pub proof fn law_match_takes_expression(t: Seq<Tok>, p: int, cdata: bool, pi: bool)
    requires
        0 <= p,
        p + 1 < t.len(),
        t[p].is_punct('@'),
        t[p + 1].is_keyword(seq!['m', 'a', 't', 'c', 'h']),
    ensures
        at(t, p, cdata, pi) matches Ok((n, q)) ==> n matches NodeV::Match { expr, arms: a } && {
            &&& p + 2 < q <= t.len()
            &&& t.subrange(p + 2, q - 1) == expr
            &&& no_block(expr)
            &&& t[q - 1].is_group(Delimiter::Brace)
            &&& arms(t[q - 1]->Group_stream, 0, cdata, pi) == Ok::<Seq<crate::ast::ArmV>, crate::grammar::ErrV>(a)
        },
{
    if at(t, p, cdata, pi) is Ok {
        assert(t[p + 1].is_keyword(crate::grammar::kw_match()));
        lemma_brace_at_or_after(t, p + 2);
        let b = brace_at_or_after(t, p + 2);
        let expr = t.subrange(p + 2, b);
        assert forall|i: int| 0 <= i < expr.len() implies !(#[trigger] expr[i]).is_group(Delimiter::Brace) by {
            assert(expr[i] == t[p + 2 + i]);
        }
    }
}

/// `@while cond { .. }`: the condition is every token after `while` up to
/// the first block, and the block holds the body.
pub proof fn law_while_takes_condition(t: Seq<Tok>, p: int, cdata: bool, pi: bool)
    requires
        0 <= p,
        p + 1 < t.len(),
        t[p].is_punct('@'),
        t[p + 1].is_keyword(seq!['w', 'h', 'i', 'l', 'e']),
    ensures
        at(t, p, cdata, pi) matches Ok((n, q)) ==> n matches NodeV::While { cond, body: bd } && {
            &&& p + 2 < q <= t.len()
            &&& t.subrange(p + 2, q - 1) == cond
            &&& no_block(cond)
            &&& t[q - 1].is_group(Delimiter::Brace)
            &&& body(t[q - 1]->Group_stream, cdata, pi) == Ok::<Seq<NodeV>, crate::grammar::ErrV>(bd)
        },
{
    if at(t, p, cdata, pi) is Ok {
        assert(t[p + 1].is_keyword(crate::grammar::kw_while()));
        assert(!t[p + 1].is_keyword(crate::grammar::kw_if()));
        assert(!t[p + 1].is_keyword(crate::grammar::kw_for()));
        lemma_brace_at_or_after(t, p + 2);
        let b = brace_at_or_after(t, p + 2);
        let cond = t.subrange(p + 2, b);
        assert forall|i: int| 0 <= i < cond.len() implies !(#[trigger] cond[i]).is_group(Delimiter::Brace) by {
            assert(cond[i] == t[p + 2 + i]);
        }
    }
}

/// `@if cond { .. }`: the condition is every token after `if` up to the
/// first block, and that block holds the branch taken when it holds.
pub proof fn law_if_takes_condition(t: Seq<Tok>, p: int, cdata: bool, pi: bool)
    requires
        0 <= p,
        p + 1 < t.len(),
        t[p].is_punct('@'),
        t[p + 1].is_keyword(seq!['i', 'f']),
    ensures
        at(t, p, cdata, pi) matches Ok((n, q)) ==> n matches NodeV::If { cond, then, else_ } && {
            let b = p + 2 + cond.len();
            &&& b < q <= t.len()
            &&& t.subrange(p + 2, b) == cond
            &&& no_block(cond)
            &&& t[b].is_group(Delimiter::Brace)
            &&& body(t[b]->Group_stream, cdata, pi) == Ok::<Seq<NodeV>, crate::grammar::ErrV>(then)
            &&& !(b + 1 < t.len() && t[b + 1].is_keyword(seq!['e', 'l', 's', 'e'])) ==> q == b + 1 && else_ is None
            &&& (b + 2 < t.len() && t[b + 1].is_keyword(seq!['e', 'l', 's', 'e']) && t[b + 2].is_group(
                Delimiter::Brace,
            )) ==> (body(t[b + 2]->Group_stream, cdata, pi) matches Ok(els) && q == b + 3 && else_ == (if els.len()
                == 0 {
                None
            } else {
                Some(els)
            }))
        },
{
    assert(seq!['e', 'l', 's', 'e'] =~= crate::grammar::kw_else());
    if at(t, p, cdata, pi) is Ok {
        assert(t[p + 1].is_keyword(crate::grammar::kw_if()));
        lemma_brace_at_or_after(t, p + 2);
        let b = brace_at_or_after(t, p + 2);
        let cond = t.subrange(p + 2, b);
        assert forall|i: int| 0 <= i < cond.len() implies !(#[trigger] cond[i]).is_group(Delimiter::Brace) by {
            assert(cond[i] == t[p + 2 + i]);
        }
    }
}

/// Whether `t[p + 1]` is a keyword that makes `@` start something other
/// than a splice.
pub open spec fn starts_keyword_node(t: Seq<Tok>, p: int) -> bool {
    ||| t[p + 1].is_keyword(seq!['i', 'f'])
    ||| t[p + 1].is_keyword(seq!['f', 'o', 'r'])
    ||| t[p + 1].is_keyword(seq!['w', 'h', 'i', 'l', 'e'])
    ||| t[p + 1].is_keyword(seq!['m', 'a', 't', 'c', 'h'])
    ||| t[p + 1].is_keyword(seq!['c', 'd', 'a', 't', 'a'])
    ||| t[p + 1].is_keyword(seq!['c', 'o', 'm', 'm', 'e', 'n', 't'])
}

/// A splice `@expr` always parses, and the code generated for it is one
/// statement holding the tokens written after `@`: a verbatim push of the
/// tokens before a trailing `.raw` when they end in `.raw`, and otherwise a
/// call of `Render` on all of them.
pub proof fn law_splice_statement_follows_raw(t: Seq<Tok>, p: int, cdata: bool, pi: bool, raw: bool)
    requires
        0 <= p,
        p + 1 < t.len(),
        t[p].is_punct('@'),
        !starts_keyword_node(t, p),
    ensures
        at(t, p, cdata, pi) is Ok,
        at(t, p, cdata, pi) matches Ok((n, q)) && {
            let x = t.subrange(p + 1, q);
            &&& p + 1 <= q <= t.len()
            &&& if x.len() >= 2 && x[x.len() - 2].is_punct('.') && x[x.len() - 1].is_keyword(seq!['r', 'a', 'w']) {
                gen_node(n, raw) == seq![StmtV::PushRaw(x.subrange(0, x.len() - 2))]
            } else {
                gen_node(n, raw) == seq![StmtV::Render(x)]
            }
        },
{
    assert(seq!['i', 'f'] =~= crate::grammar::kw_if());
    assert(seq!['f', 'o', 'r'] =~= crate::grammar::kw_for());
    assert(seq!['w', 'h', 'i', 'l', 'e'] =~= crate::grammar::kw_while());
    assert(seq!['m', 'a', 't', 'c', 'h'] =~= crate::grammar::kw_match());
    assert(seq!['c', 'd', 'a', 't', 'a'] =~= crate::grammar::kw_cdata());
    assert(seq!['c', 'o', 'm', 'm', 'e', 'n', 't'] =~= crate::grammar::kw_comment());
    lemma_splice_end(t, p + 1);
    let e = splice_end(t, p + 1);
    let x = t.subrange(p + 1, e);
    assert(at(t, p, cdata, pi) == Ok::<(NodeV, int), crate::grammar::ErrV>(crate::grammar::splice(t, p + 1)));
}

/// `name?=value`: the attribute is always written, its condition being
/// always true, and its value is every token after `=` up to the next `,`
/// `)` `]` `}`; with a value, it writes ` name="..."` with the value's
/// rendered text, whatever else the values hold.
pub proof fn law_optional_eq_attr_is_always_written(t: Seq<Tok>, p: int, name: Seq<char>, name_span: usize)
    requires
        0 <= p,
        p + 1 < t.len(),
        t[p].is_punct('?'),
        t[p + 1].is_punct('='),
    ensures
        attr_value(t, p, name, name_span) matches Ok((a, e)) && a matches AttrV::CondExpr {
            name: n2,
            cond,
            value,
            ..
        } && {
            &&& n2 == name
            &&& cond is Always
            &&& p + 2 <= e <= t.len()
            &&& value == t.subrange(p + 2, e)
            &&& forall|i: int| 0 <= i < value.len() ==> !ends_attr_expr(#[trigger] value[i])
            &&& e < t.len() ==> ends_attr_expr(t[e])
            &&& forall|o: Outputs, cd: bool, ev: Seq<EvalV>, k: int|
                value.len() > 0 ==> #[trigger] emits_attr(a, o, cd, ev, k) == emit_text_at(o, cd, ev, k, Some(name))
        },
{
    lemma_attr_expr_end(t, p + 2);
    let e = attr_expr_end(t, p + 2);
    let value = t.subrange(p + 2, e);
    assert forall|i: int| 0 <= i < value.len() implies !ends_attr_expr(#[trigger] value[i]) by {
        assert(value[i] == t[p + 2 + i]);
    }
}

/// An element `name (attrs) { body }`: it is named after its identifier, its
/// attributes are those of the list in the parentheses right after the
/// name (none without them), and its body is that of the block right after
/// that (empty without one), which is where the element ends.
pub proof fn law_element_takes_name_attrs_and_body(t: Seq<Tok>, p: int, cdata: bool, pi: bool)
    requires
        0 <= p < t.len(),
        t[p] is Ident,
    ensures
        crate::grammar::node(t, p, cdata, pi) matches Ok((n, q)) ==> n matches NodeV::Element {
            name,
            attrs: a,
            body: bd,
        } && {
            let paren = p + 1 < t.len() && t[p + 1].is_group(Delimiter::Parenthesis);
            let r = if paren {
                p + 2
            } else {
                p + 1
            };
            &&& name == t[p]->Ident_name
            &&& paren ==> (crate::grammar::attr_list(t[p + 1]->Group_stream, 0) matches Ok((l, _)) && l == a)
            &&& !paren ==> a.len() == 0
            &&& (r < t.len() && t[r].is_group(Delimiter::Brace)) ==> q == r + 1 && body(t[r]->Group_stream, cdata, pi)
                == Ok::<Seq<NodeV>, crate::grammar::ErrV>(bd)
            &&& !(r < t.len() && t[r].is_group(Delimiter::Brace)) ==> q == r && bd.len() == 0
        },
{
}

/// The attribute forms other than `name?=value`: `name="text"` holds the
/// string's value, `name=expr` the tokens up to the next `,` `)` `]` `}`,
/// a bare `name?` is always written as `"true"`, and `name? cond` is written
/// as `"true"` when the tokens of `cond` hold.
pub proof fn law_attr_value_forms(t: Seq<Tok>, p: int, name: Seq<char>, name_span: usize)
    requires
        0 <= p < t.len(),
    ensures
        t[p].is_punct('=') && p + 1 < t.len() && t[p + 1] is Literal && crate::chars::string_literal_value(
            t[p + 1]->Literal_text,
        ) is Some ==> (attr_value(t, p, name, name_span) matches Ok((a, e)) && (a matches AttrV::Lit {
            name: n2,
            value,
            ..
        } && e == p + 2 && n2 == name && Some(value) == crate::chars::string_literal_value(t[p + 1]->Literal_text))),
        t[p].is_punct('=') && p + 1 < t.len() && !(t[p + 1] is Literal) ==> (attr_value(t, p, name, name_span) matches Ok(
            (a, e),
        ) && (a matches AttrV::Expr { name: n2, value, .. } && p + 1 <= e <= t.len() && n2 == name && value
            == t.subrange(p + 1, e) && (forall|i: int| 0 <= i < value.len() ==> !ends_attr_expr(#[trigger] value[i])) && (
        e < t.len() ==> ends_attr_expr(t[e])))),
        t[p].is_punct('?') && !(p + 1 < t.len() && t[p + 1].is_punct('=')) ==> (attr_value(t, p, name, name_span) matches Ok(
            (a, e),
        ) && a matches AttrV::CondExpr { name: n2, cond, value, .. } && n2 == name && value.len() == 0 && (
        e < t.len() ==> ends_attr_expr(t[e])) && (if e == p + 1 {
            cond is Always
        } else {
            p + 1 < e && cond == CondV::Expr(t.subrange(p + 1, e)) && forall|i: int|
                p + 1 <= i < e ==> !ends_attr_expr(#[trigger] t[i])
        })),
{
    if t[p].is_punct('=') && p + 1 < t.len() {
        lemma_attr_expr_end(t, p + 1);
    }
    if t[p].is_punct('?') {
        lemma_attr_expr_end(t, p + 1);
    }
    if t[p].is_punct('=') && p + 1 < t.len() && !(t[p + 1] is Literal) {
        let e = attr_expr_end(t, p + 1);
        let value = t.subrange(p + 1, e);
        assert forall|i: int| 0 <= i < value.len() implies !ends_attr_expr(#[trigger] value[i]) by {
            assert(value[i] == t[p + 1 + i]);
        }
    }
}

/// The first match arm `pat => { body }` from `i` on: its pattern is every
/// token up to the first `=` or `>`, which begin `=>`, and its body is that
/// of the block right after `=>` (empty without one).
pub proof fn law_arm_takes_pattern_and_body(s: Seq<Tok>, i: int, cdata: bool, pi: bool)
    requires
        0 <= i < s.len(),
    ensures
        arms(s, i, cdata, pi) matches Ok(l) ==> l.len() > 0 && {
            let j = i + l[0].pat.len();
            &&& j + 1 < s.len()
            &&& s.subrange(i, j) == l[0].pat
            &&& forall|m: int| 0 <= m < l[0].pat.len() ==> !(#[trigger] l[0].pat[m]).is_punct('=') && !l[0].pat[m].is_punct('>')
            &&& s[j].is_punct('=') && s[j + 1].is_punct('>')
            &&& (j + 2 < s.len() && s[j + 2].is_group(Delimiter::Brace)) ==> body(s[j + 2]->Group_stream, cdata, pi)
                == Ok::<Seq<NodeV>, crate::grammar::ErrV>(l[0].body)
            &&& !(j + 2 < s.len() && s[j + 2].is_group(Delimiter::Brace)) ==> l[0].body.len() == 0
        },
{
    crate::grammar::lemma_arrow_at_or_after(s, i);
    let j = crate::grammar::arrow_at_or_after(s, i);
    if arms(s, i, cdata, pi) is Ok {
        let pat = s.subrange(i, j);
        assert forall|m: int| 0 <= m < pat.len() implies !(#[trigger] pat[m]).is_punct('=') && !pat[m].is_punct('>') by {
            assert(pat[m] == s[i + m]);
        }
        let l = arms(s, i, cdata, pi)->Ok_0;
        assert(l[0].pat == pat);
    }
}

proof fn lemma_gen_arms(s: Seq<ArmV>, raw: bool)
    ensures
        gen_arms(s, raw).len() == s.len(),
        forall|i: int| 0 <= i < s.len() ==> (#[trigger] gen_arms(s, raw)[i]).0 == s[i].pat && gen_arms(s, raw)[i].1
            == gen_nodes(s[i].body, raw),
    decreases s.len(),
{
    if s.len() > 0 {
        lemma_gen_arms(s.drop_last(), raw);
        assert forall|i: int| 0 <= i < s.len() implies (#[trigger] gen_arms(s, raw)[i]).0 == s[i].pat && gen_arms(
            s,
            raw,
        )[i].1 == gen_nodes(s[i].body, raw) by {
            if i < s.len() - 1 {
                assert(s.drop_last()[i] == s[i]);
            }
        }
    }
}

/// The code generated for control flow is one statement of the same kind
/// that holds the template's own Rust tokens unchanged, each in its place
/// (condition; loop pattern and iterated expression; matched expression and
/// each arm's pattern, in order), around the code of its bodies.
pub proof fn law_control_flow_code_keeps_rust_tokens(n: NodeV, raw: bool)
    ensures
        n matches NodeV::If { cond, then, else_ } ==> (gen_node(n, raw)[0] matches StmtV::If {
            cond: c2,
            then: t2,
            else_: e2,
        } && gen_node(n, raw).len() == 1 && c2 == cond && t2 == gen_nodes(then, raw) && (else_ is None <==> e2 is None) && (else_ is Some ==> e2->0
            == gen_nodes(else_->0, raw))),
        n matches NodeV::For { pat, expr, body } ==> (gen_node(n, raw)[0] matches StmtV::For {
            pat: p2,
            expr: x2,
            body: b2,
        } && gen_node(n, raw).len() == 1 && p2 == pat && x2 == expr && b2 == gen_nodes(body, raw)),
        n matches NodeV::While { cond, body } ==> (gen_node(n, raw)[0] matches StmtV::While {
            cond: c2,
            body: b2,
        } && gen_node(n, raw).len() == 1 && c2 == cond && b2 == gen_nodes(body, raw)),
        n matches NodeV::Match { expr, arms: a } ==> (gen_node(n, raw)[0] matches StmtV::Match {
            expr: x2,
            arms: a2,
        } && gen_node(n, raw).len() == 1 && x2 == expr && a2.len() == a.len() && forall|i: int|
            0 <= i < a.len() ==> (#[trigger] a2[i]).0 == a[i].pat && a2[i].1 == gen_nodes(a[i].body, raw)),
{
    if let NodeV::Match { arms, .. } = n {
        lemma_gen_arms(arms, raw);
    }
}

/// The code generated for an attribute: a literal one pushes its name and
/// text; one with an expression renders the expression's tokens unchanged;
/// a conditional one is an `if` on its condition's tokens (the literal
/// `true` when it always holds) that pushes `"true"` when it has no value
/// and renders the value's tokens otherwise.
pub proof fn law_attr_code_keeps_rust_tokens(a: AttrV)
    ensures
        a matches AttrV::Lit { name, value, .. } ==> gen_attr(a) == seq![StmtV::PushAttr { name, value }],
        a matches AttrV::Expr { name, value, .. } ==> gen_attr(a) == seq![StmtV::RenderAttr { name, value }],
        a matches AttrV::CondExpr { name, cond, value, .. } ==> (gen_attr(a)[0] matches StmtV::If {
            cond: c2,
            then: t2,
            else_: e2,
        } && gen_attr(a).len() == 1 && e2 is None && (cond matches CondV::Expr(x) ==> c2 == x) && (cond is Always ==> c2.len() == 1
            && c2[0].is_keyword(seq!['t', 'r', 'u', 'e'])) && t2 == if value.len() == 0 {
            seq![StmtV::PushAttr { name, value: seq!['t', 'r', 'u', 'e'] }]
        } else {
            seq![StmtV::RenderAttr { name, value }]
        }),
{
    assert(lit_true() =~= seq!['t', 'r', 'u', 'e']);
}

/// A string literal is text holding the string's value, and a character
/// literal text holding that character; text is escaped when written
/// outside `@cdata` and written as it is inside.
pub proof fn law_text_takes_literal_value(t: Seq<Tok>, p: int, cdata: bool, pi: bool, raw: bool)
    requires
        0 <= p < t.len(),
        t[p] is Literal,
    ensures
        crate::chars::string_literal_value(t[p]->Literal_text) matches Some(v) ==> (crate::grammar::node(
            t,
            p,
            cdata,
            pi,
        ) is Ok ==> crate::grammar::node(t, p, cdata, pi) == Ok::<(NodeV, int), crate::grammar::ErrV>(
            (NodeV::Text(v), p + 1),
        )),
        crate::chars::char_literal_value(t[p]->Literal_text) matches Some(c) ==> (crate::chars::string_literal_value(
            t[p]->Literal_text,
        ) is None ==> crate::grammar::node(t, p, cdata, pi) == Ok::<(NodeV, int), crate::grammar::ErrV>(
            (NodeV::Text(seq![c]), p + 1),
        )),
        forall|v: Seq<char>| #[trigger] gen_node(NodeV::Text(v), raw) == if raw {
            seq![StmtV::PushStr(v)]
        } else {
            seq![StmtV::PushText(v)]
        },
{
}

/// `@comment "text"` is a comment holding the string's value.
pub proof fn law_comment_takes_literal_value(t: Seq<Tok>, p: int, cdata: bool, pi: bool)
    requires
        0 <= p,
        p + 2 < t.len(),
        t[p].is_punct('@'),
        t[p + 1].is_keyword(seq!['c', 'o', 'm', 'm', 'e', 'n', 't']),
        t[p + 2] is Literal,
    ensures
        at(t, p, cdata, pi) is Ok ==> (crate::chars::string_literal_value(t[p + 2]->Literal_text) matches Some(v)
            && at(t, p, cdata, pi) == Ok::<(NodeV, int), crate::grammar::ErrV>((NodeV::Comment(v), p + 3))),
{
    assert(seq!['c', 'o', 'm', 'm', 'e', 'n', 't'] =~= crate::grammar::kw_comment());
    assert(!t[p + 1].is_keyword(crate::grammar::kw_if()));
    assert(!t[p + 1].is_keyword(crate::grammar::kw_for()));
    assert(!t[p + 1].is_keyword(crate::grammar::kw_while()));
    assert(!t[p + 1].is_keyword(crate::grammar::kw_match()));
    assert(!t[p + 1].is_keyword(crate::grammar::kw_cdata()));
}

} // verus!
