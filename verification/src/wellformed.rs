//! What the parser guarantees of every template it accepts, over its syntax
//! tree: no element or processing instruction repeats an attribute name, no
//! comment holds `--` or ends in `-`, no literal text inside `@cdata` (alone
//! or together with the literals written right next to it) holds `]]>`, and
//! no such literal text, nor a literal attribute value, of a processing
//! instruction holds `?>`.
use vstd::prelude::*;

use crate::ast::{ArmV, AttrV, NodeV};
use crate::chars::contains;
use crate::grammar::{
    arms, at, attr_list, attrs, body, cdata_close, cdata_node, comment, double_dash, duplicate_error, element,
    first_duplicate, for_node, if_node, match_node, node, nodes, pi_attr_list, pi_attrs, pi_close, pi_node,
    repeats_name, run_contains, text, while_node, kw_cdata, kw_for, kw_if, kw_match, kw_while,
};
use crate::token::{Delimiter, Tok};

verus! {

/// No two attributes share a name.
pub open spec fn distinct_names(a: Seq<AttrV>) -> bool {
    forall|i: int, j: int| 0 <= j < i < a.len() ==> #[trigger] a[j].name() != #[trigger] a[i].name()
}

/// No literal attribute value holds `?>`.
pub open spec fn pi_safe_attrs(a: Seq<AttrV>) -> bool {
    forall|i: int| 0 <= i < a.len() && (#[trigger] a[i]) is Lit ==> !contains(a[i]->Lit_value, pi_close())
}

/// Whether a node, inside `@cdata` when `cdata` holds and inside a
/// processing instruction when `pi` holds, is well formed in the sense of
/// this module.
pub open spec fn wf_node(n: NodeV, cdata: bool, pi: bool) -> bool
    decreases n, 0nat,
{
    match n {
        NodeV::Element { attrs, body, .. } => distinct_names(attrs) && wf_body(body, cdata, pi),
        NodeV::Text(v) => (cdata ==> !contains(v, cdata_close())) && (pi ==> !contains(v, pi_close())),
        NodeV::Splice { .. } => true,
        NodeV::If { then, else_, .. } => wf_body(then, cdata, pi) && match else_ {
            Some(e) => wf_body(e, cdata, pi),
            None => true,
        },
        NodeV::For { body, .. } => wf_body(body, cdata, pi),
        NodeV::While { body, .. } => wf_body(body, cdata, pi),
        NodeV::Match { arms, .. } => wf_arms(arms, cdata, pi),
        NodeV::Comment(v) => !contains(v, double_dash()) && !(v.len() > 0 && v.last() == '-'),
        NodeV::Cdata(body) => wf_body(body, true, pi),
        NodeV::Pi { attrs, body, .. } => distinct_names(attrs) && pi_safe_attrs(attrs) && wf_body(body, cdata, true),
        NodeV::Doctype(_) => true,
    }
}

/// Whether a body is well formed: its nodes are, and no literals written
/// side by side in it hold `]]>` inside `@cdata` or `?>` inside a processing
/// instruction.
pub open spec fn wf_body(s: Seq<NodeV>, cdata: bool, pi: bool) -> bool
    decreases s, 2nat,
{
    &&& wf_nodes(s, cdata, pi)
    &&& (cdata ==> !run_contains(s, cdata_close()))
    &&& (pi ==> !run_contains(s, pi_close()))
}

pub open spec fn wf_nodes(s: Seq<NodeV>, cdata: bool, pi: bool) -> bool
    decreases s, 1nat,
{
    if s.len() == 0 {
        true
    } else {
        wf_node(s[0], cdata, pi) && wf_nodes(s.drop_first(), cdata, pi)
    }
}

/// Whether the arms of a match are well formed, inside `@cdata` when `cdata`
/// holds and inside a processing instruction when `pi` holds.
pub open spec fn wf_arms(s: Seq<ArmV>, cdata: bool, pi: bool) -> bool
    decreases s, 1nat,
{
    if s.len() == 0 {
        true
    } else {
        wf_body(s[0].body, cdata, pi) && wf_arms(s.drop_first(), cdata, pi)
    }
}

proof fn lemma_wf_nodes_cons(n: NodeV, rest: Seq<NodeV>, cdata: bool, pi: bool)
    requires
        wf_node(n, cdata, pi),
        wf_nodes(rest, cdata, pi),
    ensures
        wf_nodes(seq![n] + rest, cdata, pi),
{
    let s = seq![n] + rest;
    assert(s[0] == n);
    assert(s.drop_first() =~= rest);
}

/// From `i` on, no attribute repeats an earlier name when the first
/// repetition at or after `i` is past the end.
proof fn lemma_first_duplicate(a: Seq<AttrV>, i: int)
    requires
        0 <= i,
        first_duplicate(a, i) >= a.len(),
    ensures
        forall|k: int| i <= k < a.len() ==> !repeats_name(a, k),
    decreases a.len() - i,
{
    if i < a.len() {
        lemma_first_duplicate(a, i + 1);
    }
}

/// Attributes that pass the duplicate check have distinct names.
pub proof fn lemma_no_duplicate(a: Seq<AttrV>)
    requires
        duplicate_error(a) is None,
    ensures
        distinct_names(a),
{
    lemma_first_duplicate(a, 0);
    assert forall|i: int, j: int| 0 <= j < i < a.len() implies #[trigger] a[j].name() != #[trigger] a[i].name() by {
        assert(!repeats_name(a, i));
    }
}

/// The literal attributes of a processing instruction hold no `?>`.
proof fn lemma_pi_attr_list_safe(t: Seq<Tok>, p: int)
    ensures
        pi_attr_list(t, p) matches Ok((a, _)) ==> pi_safe_attrs(a),
    decreases t.len() - p,
{
    if 0 <= p && crate::grammar::starts_pi_attr(t, p) {
        crate::grammar::lemma_attr_value_advances(t, p + 1, t[p]->Ident_name, t[p].span());
        match crate::grammar::attr_value(t, p + 1, t[p]->Ident_name, t[p].span()) {
            Ok((a, q)) => {
                lemma_pi_attr_list_safe(t, q);
                match pi_attr_list(t, q) {
                    Ok((rest, _)) => {
                        if !(a is Lit && contains(a->Lit_value, pi_close())) {
                            let s = seq![a] + rest;
                            assert forall|i: int| 0 <= i < s.len() && (#[trigger] s[i]) is Lit implies !contains(
                                s[i]->Lit_value,
                                pi_close(),
                            ) by {
                                if i > 0 {
                                    assert(s[i] == rest[i - 1]);
                                }
                            }
                        }
                    },
                    Err(_) => {},
                }
            },
            Err(_) => {},
        }
    }
}

proof fn lemma_wf_body(t: Seq<Tok>, cdata: bool, pi: bool)
    ensures
        body(t, cdata, pi) matches Ok(s) ==> wf_body(s, cdata, pi),
    decreases t, t.len(), 9int,
{
    lemma_wf_nodes(t, 0, cdata, pi);
}

proof fn lemma_wf_nodes(t: Seq<Tok>, p: int, cdata: bool, pi: bool)
    ensures
        nodes(t, p, cdata, pi) matches Ok(s) ==> wf_nodes(s, cdata, pi),
    decreases t, t.len() - p, 8int,
{
    if 0 <= p < t.len() {
        lemma_wf_node(t, p, cdata, pi);
        match node(t, p, cdata, pi) {
            Ok((n, q)) => {
                if q <= p || q > t.len() {
                    lemma_wf_nodes_cons(n, seq![], cdata, pi);
                    assert(seq![n] + Seq::<NodeV>::empty() =~= seq![n]);
                } else {
                    lemma_wf_nodes(t, q, cdata, pi);
                    match nodes(t, q, cdata, pi) {
                        Ok(rest) => lemma_wf_nodes_cons(n, rest, cdata, pi),
                        Err(_) => {},
                    }
                }
            },
            Err(_) => {},
        }
    }
}

proof fn lemma_wf_node(t: Seq<Tok>, p: int, cdata: bool, pi: bool)
    ensures
        node(t, p, cdata, pi) matches Ok((n, _)) ==> wf_node(n, cdata, pi),
    decreases t, t.len() - p, 7int,
{
    if 0 <= p < t.len() {
        match t[p] {
            Tok::Punct { ch, .. } => {
                if ch == '@' {
                    lemma_wf_at(t, p, cdata, pi);
                } else if ch == '?' {
                    lemma_wf_pi_node(t, p, cdata, pi);
                }
            },
            Tok::Ident { name, .. } => lemma_wf_element(t, p + 1, name, cdata, pi),
            Tok::Group { stream_text, .. } => {
                lemma_wf_element(t, p + 1, crate::chars::trimmed(stream_text), cdata, pi);
            },
            Tok::Literal { .. } => {
                match text(t, p, cdata, pi) {
                    Ok((NodeV::Text(v), _)) => {
                        if v.len() < 2 {
                            assert(!contains(v, cdata_close()));
                            assert(!contains(v, pi_close()));
                        }
                    },
                    _ => {},
                }
            },
        }
    }
}

proof fn lemma_wf_element(t: Seq<Tok>, p: int, name: Seq<char>, cdata: bool, pi: bool)
    ensures
        element(t, p, name, cdata, pi) matches Ok((n, _)) ==> wf_node(n, cdata, pi),
    decreases t, t.len() - p, 6int,
{
    match attrs(t, p) {
        Ok((a, q)) => {
            if p < t.len() && t[p].is_group(Delimiter::Parenthesis) {
                match attr_list(t[p]->Group_stream, 0) {
                    Ok((list, _)) => {
                        if duplicate_error(list) is None {
                            lemma_no_duplicate(list);
                        }
                    },
                    Err(_) => {},
                }
            }
            if 0 <= q < t.len() && t[q].is_group(Delimiter::Brace) {
                lemma_wf_body(t[q]->Group_stream, cdata, pi);
            }
        },
        Err(_) => {},
    }
}

proof fn lemma_wf_at(t: Seq<Tok>, p: int, cdata: bool, pi: bool)
    ensures
        at(t, p, cdata, pi) matches Ok((n, _)) ==> wf_node(n, cdata, pi),
    decreases t, t.len() - p, 6int,
{
    if 0 <= p && p + 1 < t.len() {
        let k = t[p + 1];
        if k.is_keyword(kw_if()) {
            lemma_wf_if(t, p + 1, cdata, pi);
        } else if k.is_keyword(kw_for()) {
            lemma_wf_for(t, p + 1, cdata, pi);
        } else if k.is_keyword(kw_while()) {
            lemma_wf_while(t, p + 1, cdata, pi);
        } else if k.is_keyword(kw_match()) {
            lemma_wf_match(t, p + 1, cdata, pi);
        } else if k.is_keyword(kw_cdata()) {
            lemma_wf_cdata(t, p + 1, cdata, pi);
        }
    }
}

proof fn lemma_wf_if(t: Seq<Tok>, p: int, cdata: bool, pi: bool)
    ensures
        if_node(t, p, cdata, pi) matches Ok((n, _)) ==> wf_node(n, cdata, pi),
    decreases t, t.len() - p, 5int,
{
    let b = crate::grammar::brace_at_or_after(t, p + 1);
    if 0 <= p && b < t.len() {
        crate::grammar::lemma_brace_at_or_after(t, p + 1);
        lemma_wf_body(t[b]->Group_stream, cdata, pi);
        let q = b + 1;
        if q < t.len() && t[q].is_keyword(crate::grammar::kw_else()) && 0 <= q + 1 < t.len() && t[q
            + 1].is_group(Delimiter::Brace) {
            lemma_wf_body(t[q + 1]->Group_stream, cdata, pi);
        }
    }
}

proof fn lemma_wf_for(t: Seq<Tok>, p: int, cdata: bool, pi: bool)
    ensures
        for_node(t, p, cdata, pi) matches Ok((n, _)) ==> wf_node(n, cdata, pi),
    decreases t, t.len() - p, 5int,
{
    let k = crate::grammar::keyword_at_or_after(t, p + 1, crate::grammar::kw_in());
    if 0 <= p && k < t.len() {
        crate::grammar::lemma_keyword_at_or_after(t, p + 1, crate::grammar::kw_in());
        crate::grammar::lemma_brace_at_or_after(t, k + 1);
        let b = crate::grammar::brace_at_or_after(t, k + 1);
        if b < t.len() {
            lemma_wf_body(t[b]->Group_stream, cdata, pi);
        }
    }
}

proof fn lemma_wf_while(t: Seq<Tok>, p: int, cdata: bool, pi: bool)
    ensures
        while_node(t, p, cdata, pi) matches Ok((n, _)) ==> wf_node(n, cdata, pi),
    decreases t, t.len() - p, 5int,
{
    let b = crate::grammar::brace_at_or_after(t, p + 1);
    if 0 <= p && b < t.len() {
        crate::grammar::lemma_brace_at_or_after(t, p + 1);
        lemma_wf_body(t[b]->Group_stream, cdata, pi);
    }
}

proof fn lemma_wf_match(t: Seq<Tok>, p: int, cdata: bool, pi: bool)
    ensures
        match_node(t, p, cdata, pi) matches Ok((n, _)) ==> wf_node(n, cdata, pi),
    decreases t, t.len() - p, 5int,
{
    let b = crate::grammar::brace_at_or_after(t, p + 1);
    if 0 <= p && b < t.len() {
        crate::grammar::lemma_brace_at_or_after(t, p + 1);
        lemma_wf_arms(t[b]->Group_stream, 0, cdata, pi);
    }
}

proof fn lemma_wf_arms(s: Seq<Tok>, i: int, cdata: bool, pi: bool)
    ensures
        arms(s, i, cdata, pi) matches Ok(a) ==> wf_arms(a, cdata, pi),
    decreases s, s.len() - i, 4int,
{
    if 0 <= i < s.len() {
        crate::grammar::lemma_arrow_at_or_after(s, i);
        let j = crate::grammar::arrow_at_or_after(s, i);
        if j + 1 < s.len() && s[j].is_punct('=') && s[j + 1].is_punct('>') {
            let k = j + 2;
            if k < s.len() && s[k].is_group(Delimiter::Brace) {
                lemma_wf_body(s[k]->Group_stream, cdata, pi);
            }
            let k2 = if k < s.len() && s[k].is_group(Delimiter::Brace) {
                k + 1
            } else {
                k
            };
            let k3 = if k2 < s.len() && s[k2].is_punct(',') {
                k2 + 1
            } else {
                k2
            };
            lemma_wf_arms(s, k3, cdata, pi);
            let bd = if k < s.len() && s[k].is_group(Delimiter::Brace) {
                body(s[k]->Group_stream, cdata, pi)
            } else {
                Ok(seq![])
            };
            match bd {
                Ok(b) => {
                    assert(wf_body(b, cdata, pi));
                    match arms(s, k3, cdata, pi) {
                        Ok(rest) => {
                            let a = seq![ArmV { pat: s.subrange(i, j), body: b }] + rest;
                            assert(arms(s, i, cdata, pi) == Ok::<Seq<ArmV>, crate::grammar::ErrV>(a));
                            assert(a[0].body == b);
                            assert(a.drop_first() =~= rest);
                        },
                        Err(_) => {},
                    }
                },
                Err(_) => {},
            }
        }
    }
}

proof fn lemma_wf_cdata(t: Seq<Tok>, p: int, cdata: bool, pi: bool)
    ensures
        cdata_node(t, p, pi) matches Ok((n, _)) ==> wf_node(n, cdata, pi),
    decreases t, t.len() - p, 5int,
{
    if 0 <= p && p + 1 < t.len() && t[p + 1].is_group(Delimiter::Brace) {
        lemma_wf_body(t[p + 1]->Group_stream, true, pi);
    }
}

proof fn lemma_wf_pi_node(t: Seq<Tok>, p: int, cdata: bool, pi: bool)
    ensures
        pi_node(t, p, cdata, pi) matches Ok((n, _)) ==> wf_node(n, cdata, pi),
    decreases t, t.len() - p, 6int,
{
    let e = crate::grammar::pi_name_end(t, p + 1);
    if 0 <= p && e > p + 1 {
        lemma_pi_attr_list_safe(t, e);
        match pi_attr_list(t, e) {
            Ok((list, _)) => {
                if duplicate_error(list) is None {
                    lemma_no_duplicate(list);
                }
            },
            Err(_) => {},
        }
        match pi_attrs(t, e) {
            Ok((_, q)) => {
                if 0 <= q < t.len() && t[q].is_group(Delimiter::Brace) {
                    lemma_wf_body(t[q]->Group_stream, cdata, true);
                }
            },
            Err(_) => {},
        }
    }
}

/// Every template the parser accepts is well formed in its syntax tree: no
/// repeated attribute name; no `--` in a comment, nor a comment ending in
/// `-`; no `]]>` in the literal text of `@cdata`, even across literals
/// written side by side; no `?>` in the literal text (likewise) or literal
/// attribute values of a processing instruction.
pub proof fn law_accepted_templates_are_well_formed(t: Seq<Tok>)
    ensures
        body(t, false, false) matches Ok(s) ==> wf_body(s, false, false),
{
    lemma_wf_body(t, false, false);
}

} // verus!
