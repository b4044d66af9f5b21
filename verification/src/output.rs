//! What a template writes is well-formed XML content.
//!
//! Well-formed content is stated as a sequence of XML items (elements with
//! their attributes and children, character data, comments, CDATA sections,
//! processing instructions) that serialize to the text: tags nest and close
//! with valid names, attribute names do not repeat, character data and
//! attribute values hold no `<` and every `&` in them starts a reference,
//! character data holds no `]]>`, attribute values no `"`, comments hold no
//! `--` and do not end in `-`, a CDATA section holds no `]]>`, and a
//! processing instruction has a name for its target and holds no `?>`.
//!
//! The law covers templates whose names are XML names (bracketed names are
//! checked by the parser; bare identifiers are Rust identifiers and are not),
//! that hold no DOCTYPE (it belongs to the prolog, not to content), whose
//! `@cdata` sections hold literal text only and whose processing
//! instructions hold literal text and splices only, rendered with spliced
//! values that are escaped text, as every `Render` impl of this library for
//! text, characters, numbers and booleans gives. (A splice inside `@cdata`
//! is written as it is, so the literal `]`, a splice that renders `]` and
//! the literal `>` write `]]>`; such templates are left out.)
use vstd::prelude::*;

use crate::ast::{ArmV, AttrV, NodeV};
use crate::chars::{contains, occurs_at};
use crate::codegen::{
    lit_true, str_cdata_close, str_cdata_open, str_close_self, str_comment_close, str_comment_open, str_gt,
    str_open_end, str_open_tag, str_pi_close, str_pi_open, str_space,
};
use crate::escape::{
    escaped_attr, escaped_quotes, escaped_text, escape_attr_char, escape_quote_char, is_forbidden_control,
};
use crate::grammar::{body, cdata_close, double_dash, is_xml_name, pi_close, run_contains, text_run};
use crate::run::{EvalV, Outputs, emit, is_literal_true};
use crate::semantics::{emits_attrs, emits_node, emits_nodes, emits_times, known_true};
use crate::unescape::{
    is_attr_safe, is_text_safe, law_escaped_attr_is_safe, law_escaped_text_is_safe, lemma_char_ref_chars,
    lemma_quoted_text_refs, refs_ok,
};
use crate::wellformed::{distinct_names, pi_safe_attrs, wf_body, wf_node, wf_nodes};
use crate::token::Tok;

verus! {

/// An item of XML content.
pub enum XmlItem {
    /// An element; `empty` when it is written as one tag `<name/>`.
    Element { name: Seq<char>, attrs: Seq<(Seq<char>, Seq<char>)>, empty: bool, children: Seq<XmlItem> },
    /// Character data, as written (references included).
    Text(Seq<char>),
    /// A comment's text.
    Comment(Seq<char>),
    /// A CDATA section's text.
    CData(Seq<char>),
    /// A processing instruction: its target, and what follows it up to
    /// `?>` (empty, or starting with a space).
    Pi { target: Seq<char>, content: Seq<char> },
}

/// ` name="value"`.
pub open spec fn ser_attr(a: (Seq<char>, Seq<char>)) -> Seq<char> {
    seq![' '] + a.0 + seq!['=', '"'] + a.1 + seq!['"']
}

pub open spec fn ser_attrs(s: Seq<(Seq<char>, Seq<char>)>) -> Seq<char>
    decreases s.len(),
{
    if s.len() == 0 {
        seq![]
    } else {
        ser_attrs(s.drop_last()) + ser_attr(s.last())
    }
}

/// The text of an item.
pub open spec fn ser_item(x: XmlItem) -> Seq<char>
    decreases x, 0nat,
{
    match x {
        XmlItem::Element { name, attrs, empty, children } => str_open_tag() + name + ser_attrs(attrs) + if empty {
            str_close_self()
        } else {
            str_gt() + ser_items(children) + (str_open_end() + name + str_gt())
        },
        XmlItem::Text(t) => t,
        XmlItem::Comment(t) => str_comment_open() + t + str_comment_close(),
        XmlItem::CData(t) => str_cdata_open() + t + str_cdata_close(),
        XmlItem::Pi { target, content } => str_pi_open() + target + content + str_pi_close(),
    }
}

/// The text of items, in order.
pub open spec fn ser_items(s: Seq<XmlItem>) -> Seq<char>
    decreases s, 1nat,
{
    if s.len() == 0 {
        seq![]
    } else {
        ser_items(s.drop_last()) + ser_item(s.last())
    }
}

/// Character data: no `<`, every `&` starts a reference, no `]]>`.
pub open spec fn chardata_ok(t: Seq<char>) -> bool {
    &&& forall|i: int| 0 <= i < t.len() ==> t[i] != '<'
    &&& refs_ok(t)
    &&& !contains(t, cdata_close())
}

/// A quoted attribute value: no `<`, no `"`, every `&` starts a reference.
pub open spec fn attr_value_ok(v: Seq<char>) -> bool {
    &&& forall|i: int| 0 <= i < v.len() ==> v[i] != '<' && v[i] != '"'
    &&& refs_ok(v)
}

/// A comment's text: no `--`, and not ending in `-`.
pub open spec fn comment_ok(t: Seq<char>) -> bool {
    !contains(t, double_dash()) && !(t.len() > 0 && t.last() == '-')
}

/// Attributes with XML names, well-formed values and no repeated name.
pub open spec fn attrs_ok(a: Seq<(Seq<char>, Seq<char>)>) -> bool {
    &&& forall|i: int| 0 <= i < a.len() ==> is_xml_name((#[trigger] a[i]).0) && attr_value_ok(a[i].1)
    &&& forall|i: int, j: int| 0 <= i < j < a.len() ==> (#[trigger] a[i]).0 != (#[trigger] a[j]).0
}

/// Whether an item is well formed.
pub open spec fn wf_item(x: XmlItem) -> bool
    decreases x, 0nat,
{
    match x {
        XmlItem::Element { name, attrs, empty, children } => {
            &&& is_xml_name(name)
            &&& attrs_ok(attrs)
            &&& (empty ==> children.len() == 0)
            &&& wf_items(children)
        },
        XmlItem::Text(t) => chardata_ok(t),
        XmlItem::Comment(t) => comment_ok(t),
        XmlItem::CData(t) => !contains(t, cdata_close()),
        XmlItem::Pi { target, content } => {
            &&& pi_name_ok(target)
            &&& (content.len() == 0 || content[0] == ' ')
            &&& !contains(content, pi_close())
        },
    }
}

/// An XML name, which never holds `?` (the Unicode tables that decide
/// which characters a name holds are not stated here, so this is said
/// outright).
pub open spec fn pi_name_ok(n: Seq<char>) -> bool {
    is_xml_name(n) && no_question(n)
}

pub open spec fn wf_items(s: Seq<XmlItem>) -> bool
    decreases s, 1nat,
{
    if s.len() == 0 {
        true
    } else {
        wf_items(s.drop_last()) && wf_item(s.last())
    }
}

/// Whether `t` is well-formed XML content: the text of well-formed items.
pub open spec fn is_well_formed_content(t: Seq<char>) -> bool {
    exists|items: Seq<XmlItem>| wf_items(items) && ser_items(items) == t
}

// ==================== The templates and values the law covers ====================

/// The names of a node and of its attributes are XML names; it holds no
/// DOCTYPE; a `@cdata` in it holds literal text only, and a processing
/// instruction in it has a target and attribute names without `?` and holds
/// literal text and splices only.
pub open spec fn plain_node(n: NodeV) -> bool
    decreases n, 0nat,
{
    match n {
        NodeV::Element { name, attrs, body } => {
            &&& is_xml_name(name)
            &&& forall|i: int| 0 <= i < attrs.len() ==> is_xml_name((#[trigger] attrs[i]).name())
            &&& plain_nodes(body)
        },
        NodeV::Text(_) => true,
        NodeV::Splice { .. } => true,
        NodeV::If { then, else_, .. } => plain_nodes(then) && match else_ {
            Some(e) => plain_nodes(e),
            None => true,
        },
        NodeV::For { body, .. } => plain_nodes(body),
        NodeV::While { body, .. } => plain_nodes(body),
        NodeV::Match { arms, .. } => plain_arms(arms),
        NodeV::Comment(_) => true,
        NodeV::Cdata(body) => forall|i: int| 0 <= i < body.len() ==> (#[trigger] body[i]) is Text,
        NodeV::Pi { name, attrs, body } => {
            &&& pi_name_ok(name)
            &&& forall|i: int| 0 <= i < attrs.len() ==> pi_name_ok((#[trigger] attrs[i]).name())
            &&& forall|i: int| 0 <= i < body.len() ==> (#[trigger] body[i]) is Text || body[i] is Splice
        },
        NodeV::Doctype(_) => false,
    }
}

pub open spec fn plain_nodes(s: Seq<NodeV>) -> bool
    decreases s, 1nat,
{
    if s.len() == 0 {
        true
    } else {
        plain_nodes(s.drop_last()) && plain_node(s.last())
    }
}

pub open spec fn plain_arms(s: Seq<ArmV>) -> bool
    decreases s, 1nat,
{
    if s.len() == 0 {
        true
    } else {
        plain_arms(s.drop_last()) && plain_nodes(s.last().body)
    }
}

/// Every spliced value is escaped text.
pub open spec fn values_are_escaped_text(ev: Seq<EvalV>) -> bool {
    forall|i: int| 0 <= i < ev.len() && (#[trigger] ev[i]) is Text ==> exists|v: Seq<char>| ev[i]->Text_0 == escaped_text(v)
}

// ==================== Lemmas ====================

proof fn lemma_ser_items_concat(a: Seq<XmlItem>, b: Seq<XmlItem>)
    ensures
        ser_items(a + b) == ser_items(a) + ser_items(b),
        wf_items(a) && wf_items(b) ==> wf_items(a + b),
    decreases b.len(),
{
    if b.len() == 0 {
        assert(a + b =~= a);
        assert(ser_items(a) + ser_items(b) =~= ser_items(a));
    } else {
        lemma_ser_items_concat(a, b.drop_last());
        assert((a + b).drop_last() =~= a + b.drop_last());
        assert((a + b).last() == b.last());
        assert(ser_items(a + b) =~= ser_items(a) + ser_items(b));
    }
}

proof fn lemma_ser_items_one(x: XmlItem)
    ensures
        ser_items(seq![x]) == ser_item(x),
        wf_item(x) ==> wf_items(seq![x]),
{
    assert(seq![x].drop_last() =~= Seq::<XmlItem>::empty());
    assert(seq![x].last() == x);
    assert(wf_items(Seq::<XmlItem>::empty()));
    assert(ser_items(Seq::<XmlItem>::empty()) + ser_item(x) =~= ser_item(x));
}

proof fn lemma_no_gt_no_terminator(t: Seq<char>)
    requires
        forall|i: int| 0 <= i < t.len() ==> t[i] != '>',
    ensures
        !contains(t, cdata_close()),
{
    assert forall|i: int| !occurs_at(t, cdata_close(), i) by {
        if occurs_at(t, cdata_close(), i) {
            assert(t.subrange(i, i + 3)[2] == '>');
            assert(t[i + 2] == '>');
        }
    }
}

/// Escaped text is character data.
proof fn lemma_escaped_text_chardata(s: Seq<char>)
    ensures
        chardata_ok(escaped_text(s)),
{
    let t = escaped_text(s);
    law_escaped_text_is_safe(s);
    assert forall|i: int| 0 <= i < t.len() implies t[i] != '>' && t[i] != '<' by {
        assert(is_text_safe(t[i]));
    }
    lemma_no_gt_no_terminator(t);
}

/// Quote escaping writes no quote, and no `<` where there was none.
proof fn lemma_escaped_quotes_safe(x: Seq<char>)
    requires
        forall|i: int| 0 <= i < x.len() ==> x[i] != '<',
    ensures
        forall|i: int| 0 <= i < escaped_quotes(x).len() ==> escaped_quotes(x)[i] != '<' && escaped_quotes(x)[i] != '"',
    decreases x.len(),
{
    if x.len() > 0 {
        let init = x.drop_last();
        lemma_escaped_quotes_safe(init);
        let e = escape_quote_char(x.last());
        let q = escaped_quotes(x);
        assert(q == escaped_quotes(init) + e);
        assert forall|i: int| 0 <= i < q.len() implies q[i] != '<' && q[i] != '"' by {
            if i >= escaped_quotes(init).len() {
                assert(q[i] == e[i - escaped_quotes(init).len()]);
            } else {
                assert(q[i] == escaped_quotes(init)[i]);
            }
        }
    }
}

/// A rendered text value written as an attribute value is well formed.
proof fn lemma_rendered_value_ok(w: Seq<char>)
    ensures
        attr_value_ok(escaped_quotes(escaped_text(w))),
{
    let t = escaped_text(w);
    law_escaped_text_is_safe(w);
    assert forall|i: int| 0 <= i < t.len() implies t[i] != '<' by {
        assert(is_text_safe(t[i]));
    }
    lemma_escaped_quotes_safe(t);
    lemma_quoted_text_refs(w);
}

/// A literal attribute value, escaped, is well formed.
proof fn lemma_literal_value_ok(v: Seq<char>)
    ensures
        attr_value_ok(escaped_attr(v)),
{
    let t = escaped_attr(v);
    law_escaped_attr_is_safe(v);
    assert forall|i: int| 0 <= i < t.len() implies t[i] != '<' && t[i] != '"' by {
        assert(is_attr_safe(t[i]));
    }
}

/// No `>` in `s`.
pub open spec fn no_gt(s: Seq<char>) -> bool {
    forall|i: int| 0 <= i < s.len() ==> s[i] != '>'
}

/// `?>` begins at `i`.
pub open spec fn pi_at(s: Seq<char>, i: int) -> bool {
    s[i] == '?' && s[i + 1] == '>'
}

/// No `?` in `s` is followed by `>`.
pub open spec fn pi_free(s: Seq<char>) -> bool {
    forall|i: int| 0 <= i && i + 1 < s.len() ==> !#[trigger] pi_at(s, i)
}

proof fn lemma_pi_free_iff(s: Seq<char>)
    ensures
        pi_free(s) <==> !contains(s, pi_close()),
{
    assert forall|i: int| #[trigger] occurs_at(s, pi_close(), i) <==> (0 <= i && i + 1 < s.len() && pi_at(s, i)) by {
        if 0 <= i && i + 2 <= s.len() {
            if pi_at(s, i) {
                assert(s.subrange(i, i + 2) =~= pi_close());
            }
            if occurs_at(s, pi_close(), i) {
                assert(s.subrange(i, i + 2)[0] == s[i]);
                assert(s.subrange(i, i + 2)[1] == s[i + 1]);
            }
        }
    }
    if !pi_free(s) {
        let i = choose|i: int| 0 <= i && i + 1 < s.len() && #[trigger] pi_at(s, i);
        assert(occurs_at(s, pi_close(), i));
    }
    if contains(s, pi_close()) {
        let i = choose|i: int| occurs_at(s, pi_close(), i);
        assert(pi_at(s, i));
    }
}

/// Text without `?`, or without `>`, holds no `?>`.
proof fn lemma_pi_free_chars(s: Seq<char>)
    requires
        (forall|i: int| 0 <= i < s.len() ==> s[i] != '?') || no_gt(s),
    ensures
        pi_free(s),
{
    assert forall|i: int| 0 <= i && i + 1 < s.len() implies !#[trigger] pi_at(s, i) by {
        assert(s[i] != '?' || s[i + 1] != '>');
    }
}

proof fn lemma_pi_free_concat(a: Seq<char>, b: Seq<char>)
    requires
        pi_free(a),
        pi_free(b),
        !(a.len() > 0 && b.len() > 0 && a.last() == '?' && b[0] == '>'),
    ensures
        pi_free(a + b),
{
    let s = a + b;
    assert forall|i: int| 0 <= i && i + 1 < s.len() implies !#[trigger] pi_at(s, i) by {
        if i + 1 < a.len() {
            assert(!pi_at(a, i));
            assert(s[i] == a[i] && s[i + 1] == a[i + 1]);
        } else if i >= a.len() {
            assert(!pi_at(b, i - a.len()));
            assert(s[i] == b[i - a.len()] && s[i + 1] == b[i + 1 - a.len()]);
        } else {
            assert(s[i] == a.last());
            assert(s[i + 1] == b[0]);
        }
    }
}

/// Quote escaping writes no `>` where there was none.
proof fn lemma_escaped_quotes_no_gt(x: Seq<char>)
    requires
        no_gt(x),
    ensures
        no_gt(escaped_quotes(x)),
    decreases x.len(),
{
    if x.len() > 0 {
        let init = x.drop_last();
        lemma_escaped_quotes_no_gt(init);
        let e = escape_quote_char(x.last());
        let q = escaped_quotes(x);
        assert(q == escaped_quotes(init) + e);
        assert forall|i: int| 0 <= i < q.len() implies q[i] != '>' by {
            if i >= escaped_quotes(init).len() {
                assert(q[i] == e[i - escaped_quotes(init).len()]);
            } else {
                assert(q[i] == escaped_quotes(init)[i]);
            }
        }
    }
}

/// Escaping an attribute value writes no `?>` where there was none; it ends
/// in `?` only where the value does.
proof fn lemma_escaped_attr_pi_free(v: Seq<char>)
    requires
        pi_free(v),
    ensures
        pi_free(escaped_attr(v)),
        escaped_attr(v).len() > 0 && escaped_attr(v).last() == '?' ==> v.len() > 0 && v.last() == '?',
    decreases v.len(),
{
    if v.len() > 0 {
        let init = v.drop_last();
        let c = v.last();
        assert forall|i: int| 0 <= i && i + 1 < init.len() implies !#[trigger] pi_at(init, i) by {
            assert(!pi_at(v, i));
        }
        lemma_escaped_attr_pi_free(init);
        let a = escaped_attr(init);
        let e = escape_attr_char(c);
        assert(escaped_attr(v) == a + e);
        if c == '&' || c == '<' || c == '"' || c == '\'' || is_forbidden_control(c) {
            if is_forbidden_control(c) {
                lemma_char_ref_chars(c);
            }
            assert forall|i: int| 0 <= i < e.len() implies e[i] != '?' && e[i] != '>' by {
                if !(c == '&' || c == '<' || c == '"' || c == '\'') {
                    assert(is_text_safe(e[i]));
                }
            }
            lemma_pi_free_chars(e);
            assert(e.last() == e[e.len() - 1]);
        } else {
            assert(e == seq![c]);
            lemma_pi_free_chars(e);
            if a.len() > 0 && a.last() == '?' && c == '>' {
                assert(pi_at(v, v.len() - 2));
            }
        }
        lemma_pi_free_concat(a, e);
        assert((a + e).last() == e.last());
    }
}

/// Text of well-formed attributes whose names hold no `?` holds no `?>`,
/// and starts with a space where there is any.
proof fn lemma_ser_attrs_pi_free(list: Seq<(Seq<char>, Seq<char>)>)
    requires
        forall|j: int| 0 <= j < list.len() ==> no_question(#[trigger] list[j].0) && pi_free(list[j].1),
    ensures
        pi_free(ser_attrs(list)),
        ser_attrs(list).len() > 0 ==> ser_attrs(list)[0] == ' ',
    decreases list.len(),
{
    if list.len() > 0 {
        let init = list.drop_last();
        let p = list.last();
        assert forall|j: int| 0 <= j < init.len() implies no_question(#[trigger] init[j].0) && pi_free(init[j].1) by {
            assert(init[j] == list[j]);
        }
        lemma_ser_attrs_pi_free(init);
        assert(list[list.len() - 1] == p);
        let sp = seq![' '];
        let eq = seq!['=', '"'];
        let qt = seq!['"'];
        lemma_pi_free_chars(sp);
        lemma_pi_free_chars(eq);
        lemma_pi_free_chars(qt);
        lemma_pi_free_chars(p.0);
        lemma_pi_free_concat(sp, p.0);
        lemma_pi_free_concat(sp + p.0, eq);
        assert((sp + p.0 + eq).last() == '"');
        lemma_pi_free_concat(sp + p.0 + eq, p.1);
        lemma_pi_free_concat(sp + p.0 + eq + p.1, qt);
        assert(ser_attr(p) == sp + p.0 + eq + p.1 + qt);
        assert(ser_attr(p)[0] == ' ');
        lemma_pi_free_concat(ser_attrs(init), ser_attr(p));
        if ser_attrs(init).len() > 0 {
            assert((ser_attrs(init) + ser_attr(p))[0] == ser_attrs(init)[0]);
        }
    }
}

/// No `?` in `s`.
pub open spec fn no_question(s: Seq<char>) -> bool {
    forall|i: int| 0 <= i < s.len() ==> s[i] != '?'
}

proof fn lemma_wf_nodes_last(s: Seq<NodeV>, cd: bool, pi: bool)
    requires
        wf_nodes(s, cd, pi),
        s.len() > 0,
    ensures
        wf_nodes(s.drop_last(), cd, pi),
        wf_node(s.last(), cd, pi),
    decreases s.len(),
{
    if s.len() > 1 {
        lemma_wf_nodes_last(s.drop_first(), cd, pi);
        assert(s.drop_first().drop_last() =~= s.drop_last().drop_first());
        assert(s.drop_last()[0] == s[0]);
        assert(s.drop_first().last() == s.last());
    } else {
        assert(s.drop_last() =~= Seq::<NodeV>::empty());
        assert(s.last() == s[0]);
    }
}

proof fn lemma_plain_arm(s: Seq<ArmV>, i: int)
    requires
        plain_arms(s),
        0 <= i < s.len(),
    ensures
        plain_nodes(s[i].body),
    decreases s.len(),
{
    if i < s.len() - 1 {
        lemma_plain_arm(s.drop_last(), i);
    }
}

proof fn lemma_wf_arm(s: Seq<ArmV>, i: int, cd: bool, pi: bool)
    requires
        crate::wellformed::wf_arms(s, cd, pi),
        0 <= i < s.len(),
    ensures
        wf_body(s[i].body, cd, pi),
    decreases s.len(),
{
    if i > 0 {
        lemma_wf_arm(s.drop_first(), i - 1, cd, pi);
    }
}

/// The properties of the attributes written for `attrs`.
pub open spec fn written_attrs_ok(attrs: Seq<AttrV>, list: Seq<(Seq<char>, Seq<char>)>) -> bool {
    &&& attrs_ok(list)
    &&& forall|j: int| 0 <= j < list.len() ==> named_in(attrs, #[trigger] list[j].0)
}

/// Whether some attribute of `attrs` is named `n`.
pub open spec fn named_in(attrs: Seq<AttrV>, n: Seq<char>) -> bool {
    exists|i: int| 0 <= i < attrs.len() && (#[trigger] attrs[i]).name() == n
}

/// What holds of the attributes written for a prefix holds for the whole.
proof fn lemma_written_lift(attrs: Seq<AttrV>, l0: Seq<(Seq<char>, Seq<char>)>)
    requires
        attrs.len() > 0,
        written_attrs_ok(attrs.drop_last(), l0),
    ensures
        written_attrs_ok(attrs, l0),
{
    let init = attrs.drop_last();
    assert forall|j: int| 0 <= j < l0.len() implies named_in(attrs, #[trigger] l0[j].0) by {
        assert(named_in(init, l0[j].0));
        let i = choose|i: int| 0 <= i < init.len() && (#[trigger] init[i]).name() == l0[j].0;
        assert(attrs[i] == init[i]);
    }
}

/// Adding the pair that the last attribute writes.
proof fn lemma_written_push(attrs: Seq<AttrV>, l0: Seq<(Seq<char>, Seq<char>)>, pair: (Seq<char>, Seq<char>))
    requires
        attrs.len() > 0,
        distinct_names(attrs),
        written_attrs_ok(attrs.drop_last(), l0),
        pair.0 == attrs.last().name(),
        is_xml_name(pair.0),
        attr_value_ok(pair.1),
    ensures
        written_attrs_ok(attrs, l0.push(pair)),
{
    let init = attrs.drop_last();
    let list = l0.push(pair);
    assert forall|j: int| 0 <= j < list.len() implies named_in(attrs, #[trigger] list[j].0) by {
        if j < l0.len() {
            assert(list[j] == l0[j]);
            assert(named_in(init, l0[j].0));
            let i = choose|i: int| 0 <= i < init.len() && (#[trigger] init[i]).name() == l0[j].0;
            assert(attrs[i] == init[i]);
        } else {
            assert(list[j] == pair);
            assert(attrs[attrs.len() - 1] == attrs.last());
        }
    }
    assert forall|i: int| 0 <= i < list.len() implies is_xml_name((#[trigger] list[i]).0) && attr_value_ok(list[i].1) by {
        if i < l0.len() {
            assert(list[i] == l0[i]);
        }
    }
    assert forall|i: int, j: int| 0 <= i < j < list.len() implies (#[trigger] list[i]).0 != (#[trigger] list[j]).0 by {
        if j < l0.len() {
            assert(list[i] == l0[i] && list[j] == l0[j]);
        } else {
            assert(list[i] == l0[i]);
            assert(list[j] == pair);
            assert(named_in(init, l0[i].0));
            let m = choose|m: int| 0 <= m < init.len() && (#[trigger] init[m]).name() == l0[i].0;
            assert(attrs[m] == init[m]);
            assert(attrs[attrs.len() - 1] == attrs.last());
        }
    }
}

proof fn lemma_ser_attrs_push(l0: Seq<(Seq<char>, Seq<char>)>, pair: (Seq<char>, Seq<char>), top: Seq<char>)
    ensures
        top + ser_attrs(l0) + ser_attr(pair) == top + ser_attrs(l0.push(pair)),
{
    assert(l0.push(pair).drop_last() =~= l0);
    assert(l0.push(pair).last() == pair);
    assert(top + ser_attrs(l0) + ser_attr(pair) =~= top + ser_attrs(l0.push(pair)));
}

/// A value of `ev` is escaped text, so it is well formed as an attribute
/// value once its quotes are escaped.
proof fn lemma_value_at_ok(ev: Seq<EvalV>, k: int)
    requires
        values_are_escaped_text(ev),
        0 <= k < ev.len(),
        ev[k] is Text,
    ensures
        attr_value_ok(escaped_quotes(ev[k]->Text_0)),
        chardata_ok(ev[k]->Text_0),
        no_gt(ev[k]->Text_0),
        pi_free(escaped_quotes(ev[k]->Text_0)),
{
    let w = choose|w: Seq<char>| ev[k]->Text_0 == escaped_text(w);
    lemma_rendered_value_ok(w);
    lemma_escaped_text_chardata(w);
    let t = escaped_text(w);
    law_escaped_text_is_safe(w);
    assert forall|i: int| 0 <= i < t.len() implies t[i] != '>' by {
        assert(is_text_safe(t[i]));
    }
    lemma_escaped_quotes_no_gt(t);
    lemma_pi_free_chars(escaped_quotes(t));
}

/// Every attribute value holds no `?>`.
pub open spec fn values_pi_free(list: Seq<(Seq<char>, Seq<char>)>) -> bool {
    forall|j: int| 0 <= j < list.len() ==> pi_free(#[trigger] list[j].1)
}

proof fn lemma_values_pi_free_push(l0: Seq<(Seq<char>, Seq<char>)>, pair: (Seq<char>, Seq<char>))
    requires
        values_pi_free(l0),
        pi_free(pair.1),
    ensures
        values_pi_free(l0.push(pair)),
{
    assert forall|j: int| 0 <= j < l0.push(pair).len() implies pi_free(#[trigger] l0.push(pair)[j].1) by {
        if j < l0.len() {
            assert(l0.push(pair)[j] == l0[j]);
        }
    }
}

/// The attributes that an attribute list writes: one pair at most for each
/// attribute, named after it.
proof fn lemma_out_attrs(attrs: Seq<AttrV>, o: Outputs, ev: Seq<EvalV>, k: int) -> (list: Seq<(Seq<char>, Seq<char>)>)
    requires
        forall|i: int| 0 <= i < attrs.len() ==> is_xml_name((#[trigger] attrs[i]).name()),
        distinct_names(attrs),
        values_are_escaped_text(ev),
    ensures
        emits_attrs(attrs, o, false, ev, k) matches Some((o2, _)) ==> o2.top == o.top + ser_attrs(list)
            && o2.cdata == o.cdata && written_attrs_ok(attrs, list),
        emits_attrs(attrs, o, false, ev, k) is Some && pi_safe_attrs(attrs) ==> values_pi_free(list),
    decreases attrs.len(),
{
    if attrs.len() == 0 {
        assert(o.top + ser_attrs(seq![]) =~= o.top);
        seq![]
    } else {
        let init = attrs.drop_last();
        let a = attrs.last();
        assert forall|i: int| 0 <= i < init.len() implies is_xml_name((#[trigger] init[i]).name()) by {
            assert(init[i] == attrs[i]);
        }
        assert(distinct_names(init)) by {
            assert forall|i: int, j: int| 0 <= j < i < init.len() implies #[trigger] init[j].name() != #[trigger] init[i].name() by {
                assert(init[i] == attrs[i] && init[j] == attrs[j]);
            }
        }
        assert(is_xml_name(a.name())) by {
            assert(attrs[attrs.len() - 1] == a);
        }
        if pi_safe_attrs(attrs) {
            assert forall|i: int| 0 <= i < init.len() && (#[trigger] init[i]) is Lit implies !contains(
                init[i]->Lit_value,
                pi_close(),
            ) by {
                assert(init[i] == attrs[i]);
            }
        }
        let l0 = lemma_out_attrs(init, o, ev, k);
        match emits_attrs(init, o, false, ev, k) {
            None => l0,
            Some((o1, k1)) => {
                lemma_written_lift(attrs, l0);
                match a {
                    AttrV::Lit { name, value, .. } => {
                        let pair = (name, escaped_attr(value));
                        lemma_literal_value_ok(value);
                        if pi_safe_attrs(attrs) {
                            assert(attrs[attrs.len() - 1] == a);
                            lemma_pi_free_iff(value);
                            lemma_escaped_attr_pi_free(value);
                            lemma_values_pi_free_push(l0, pair);
                        }
                        lemma_written_push(attrs, l0, pair);
                        lemma_ser_attrs_push(l0, pair, o.top);
                        l0.push(pair)
                    },
                    AttrV::Expr { name, .. } => {
                        if 0 <= k1 < ev.len() && ev[k1] is Text {
                            let pair = (name, escaped_quotes(ev[k1]->Text_0));
                            lemma_value_at_ok(ev, k1);
                            if pi_safe_attrs(attrs) {
                                lemma_values_pi_free_push(l0, pair);
                            }
                            lemma_written_push(attrs, l0, pair);
                            lemma_ser_attrs_push(l0, pair, o.top);
                            l0.push(pair)
                        } else {
                            l0
                        }
                    },
                    AttrV::CondExpr { name, cond, value, .. } => {
                        let holds = known_true(cond) || (0 <= k1 < ev.len() && ev[k1] is Cond && ev[k1]->Cond_0);
                        let kk = if known_true(cond) { k1 } else { k1 + 1 };
                        if !holds {
                            l0
                        } else if value.len() == 0 {
                            let pair = (name, escaped_attr(lit_true()));
                            lemma_literal_value_ok(lit_true());
                            if pi_safe_attrs(attrs) {
                                lemma_pi_free_chars(lit_true());
                                lemma_escaped_attr_pi_free(lit_true());
                                lemma_values_pi_free_push(l0, pair);
                            }
                            lemma_written_push(attrs, l0, pair);
                            lemma_ser_attrs_push(l0, pair, o.top);
                            l0.push(pair)
                        } else if 0 <= kk < ev.len() && ev[kk] is Text {
                            let pair = (name, escaped_quotes(ev[kk]->Text_0));
                            lemma_value_at_ok(ev, kk);
                            if pi_safe_attrs(attrs) {
                                lemma_values_pi_free_push(l0, pair);
                            }
                            lemma_written_push(attrs, l0, pair);
                            lemma_ser_attrs_push(l0, pair, o.top);
                            l0.push(pair)
                        } else {
                            l0
                        }
                    },
                }
            },
        }
    }
}

/// What `top` becomes is `top + ser_items(items)`, the other output
/// unchanged.
pub open spec fn writes_items(o: Outputs, o2: Outputs, items: Seq<XmlItem>) -> bool {
    o2.top == o.top + ser_items(items) && o2.cdata == o.cdata && wf_items(items)
}

proof fn lemma_one_item(o: Outputs, x: XmlItem)
    requires
        wf_item(x),
    ensures
        writes_items(o, emit(o, false, ser_item(x)), seq![x]),
{
    lemma_ser_items_one(x);
}

proof fn lemma_out_element(n: NodeV, o: Outputs, ev: Seq<EvalV>, k: int) -> (items: Seq<XmlItem>)
    requires
        n is Element,
        plain_node(n),
        wf_node(n, false, false),
        values_are_escaped_text(ev),
    ensures
        emits_node(n, false, o, ev, k) matches Some((o2, _)) ==> writes_items(o, o2, items),
    decreases n, 0nat, 0nat,
{
    if let NodeV::Element { name, attrs, body } = n {
        let o0 = emit(o, false, str_open_tag() + name);
        let list = lemma_out_attrs(attrs, o0, ev, k);
        match emits_attrs(attrs, o0, false, ev, k) {
            None => seq![],
            Some((o1, k1)) => {
                if body.len() == 0 {
                    let x = XmlItem::Element { name, attrs: list, empty: true, children: seq![] };
                    assert(wf_items(Seq::<XmlItem>::empty()));
                    lemma_ser_items_one(x);
                    assert(o.top + (str_open_tag() + name) + ser_attrs(list) + str_close_self() =~= o.top + ser_item(x));
                    seq![x]
                } else {
                    let og = emit(o1, false, str_gt());
                    let children = lemma_out_nodes(body, og, ev, k1);
                    match emits_nodes(body, false, og, ev, k1) {
                        None => seq![],
                        Some((o3, _)) => {
                            let x = XmlItem::Element { name, attrs: list, empty: false, children };
                            lemma_ser_items_one(x);
                            assert(o.top + (str_open_tag() + name) + ser_attrs(list) + str_gt() + ser_items(children) + (
                            str_open_end() + name + str_gt()) =~= o.top + ser_item(x));
                            seq![x]
                        },
                    }
                }
            },
        }
    } else {
        seq![]
    }
}

proof fn lemma_out_control(n: NodeV, o: Outputs, ev: Seq<EvalV>, k: int) -> (items: Seq<XmlItem>)
    requires
        n is If || n is For || n is While || n is Match,
        plain_node(n),
        wf_node(n, false, false),
        values_are_escaped_text(ev),
    ensures
        emits_node(n, false, o, ev, k) matches Some((o2, _)) ==> writes_items(o, o2, items),
    decreases n, 0nat, 0nat,
{
    match n {
        NodeV::If { cond, then, else_ } => {
            if is_literal_true(cond) {
                lemma_out_nodes(then, o, ev, k)
            } else if 0 <= k < ev.len() && ev[k] is Cond {
                if ev[k]->Cond_0 {
                    lemma_out_nodes(then, o, ev, k + 1)
                } else {
                    match else_ {
                        Some(e) => lemma_out_nodes(e, o, ev, k + 1),
                        None => {
                            assert(wf_items(Seq::<XmlItem>::empty()));
                            assert(o.top + ser_items(Seq::<XmlItem>::empty()) =~= o.top);
                            seq![]
                        },
                    }
                }
            } else {
                seq![]
            }
        },
        NodeV::For { body, .. } | NodeV::While { body, .. } => {
            if 0 <= k < ev.len() && ev[k] is Times {
                lemma_out_times(body, ev[k]->Times_0, o, ev, k + 1)
            } else {
                seq![]
            }
        },
        NodeV::Match { arms, .. } => {
            if 0 <= k < ev.len() && ev[k] is Arm && ev[k]->Arm_0 < arms.len() {
                let i = ev[k]->Arm_0 as int;
                assert(decreases_to!(arms => arms[i]));
                lemma_plain_arm(arms, i);
                lemma_wf_arm(arms, i, false, false);
                lemma_out_nodes(arms[i].body, o, ev, k + 1)
            } else {
                seq![]
            }
        },
        _ => seq![],
    }
}

proof fn lemma_no_gt_concat(a: Seq<char>, b: Seq<char>)
    requires
        no_gt(a),
        no_gt(b),
    ensures
        no_gt(a + b),
{
    assert forall|i: int| 0 <= i < (a + b).len() implies (a + b)[i] != '>' by {
        if i >= a.len() {
            assert((a + b)[i] == b[i - a.len()]);
        } else {
            assert((a + b)[i] == a[i]);
        }
    }
}

/// Literal text and splices, outside `@cdata`, write text without `>`.
proof fn lemma_text_body(body: Seq<NodeV>, o: Outputs, ev: Seq<EvalV>, k: int) -> (x: Seq<char>)
    requires
        forall|i: int| 0 <= i < body.len() ==> (#[trigger] body[i]) is Text || body[i] is Splice,
        values_are_escaped_text(ev),
    ensures
        emits_nodes(body, false, o, ev, k) matches Some((o2, _)) ==> o2.top == o.top + x && o2.cdata == o.cdata
            && no_gt(x),
    decreases body.len(),
{
    if body.len() == 0 {
        assert(o.top + seq![] =~= o.top);
        seq![]
    } else {
        let init = body.drop_last();
        assert forall|i: int| 0 <= i < init.len() implies (#[trigger] init[i]) is Text || init[i] is Splice by {
            assert(init[i] == body[i]);
        }
        assert(body[body.len() - 1] == body.last());
        let x0 = lemma_text_body(init, o, ev, k);
        match emits_nodes(init, false, o, ev, k) {
            None => x0,
            Some((o1, k1)) => {
                match body.last() {
                    NodeV::Text(t) => {
                        law_escaped_text_is_safe(t);
                        assert forall|i: int| 0 <= i < escaped_text(t).len() implies escaped_text(t)[i] != '>' by {
                            assert(is_text_safe(escaped_text(t)[i]));
                        }
                        lemma_no_gt_concat(x0, escaped_text(t));
                        assert(o.top + x0 + escaped_text(t) =~= o.top + (x0 + escaped_text(t)));
                        assert(emits_node(body.last(), false, o1, ev, k1) == Some((emit(o1, false, escaped_text(t)), k1)));
                        assert(emits_nodes(body, false, o, ev, k) == Some((emit(o1, false, escaped_text(t)), k1)));
                        x0 + escaped_text(t)
                    },
                    _ => {
                        if 0 <= k1 < ev.len() && ev[k1] is Text {
                            let e = ev[k1]->Text_0;
                            lemma_value_at_ok(ev, k1);
                            lemma_no_gt_concat(x0, e);
                            assert(o.top + x0 + e =~= o.top + (x0 + e));
                            assert(emits_nodes(body, false, o, ev, k) == Some((emit(o1, false, e), k1 + 1)));
                            x0 + e
                        } else {
                            x0
                        }
                    },
                }
            },
        }
    }
}

proof fn lemma_text_run_snoc(s: Seq<NodeV>, i: int)
    requires
        forall|j: int| 0 <= j < s.len() ==> (#[trigger] s[j]) is Text,
        0 <= i < s.len(),
    ensures
        text_run(s, i) == text_run(s.drop_last(), i) + s.last()->Text_0,
    decreases s.len() - i,
{
    assert(s[i] is Text);
    if i == s.len() - 1 {
        assert(text_run(s, i + 1) == Seq::<char>::empty());
        assert(text_run(s.drop_last(), i) == Seq::<char>::empty());
        assert(text_run(s, i) =~= text_run(s.drop_last(), i) + s.last()->Text_0);
    } else {
        lemma_text_run_snoc(s, i + 1);
        assert(s.drop_last()[i] == s[i]);
        assert(text_run(s, i) =~= text_run(s.drop_last(), i) + s.last()->Text_0);
    }
}

/// Literal text inside `@cdata` is gathered, as it is, in the CDATA buffer.
proof fn lemma_cdata_texts(body: Seq<NodeV>, o: Outputs, ev: Seq<EvalV>, k: int)
    requires
        forall|i: int| 0 <= i < body.len() ==> (#[trigger] body[i]) is Text,
    ensures
        emits_nodes(body, true, o, ev, k) == Some((Outputs { top: o.top, cdata: o.cdata + text_run(body, 0) }, k)),
    decreases body.len(),
{
    if body.len() == 0 {
        assert(o.cdata + text_run(body, 0) =~= o.cdata);
    } else {
        let init = body.drop_last();
        assert forall|i: int| 0 <= i < init.len() implies (#[trigger] init[i]) is Text by {
            assert(init[i] == body[i]);
        }
        assert(body[body.len() - 1] == body.last());
        lemma_cdata_texts(init, o, ev, k);
        lemma_text_run_snoc(body, 0);
        let o1 = Outputs { top: o.top, cdata: o.cdata + text_run(init, 0) };
        let t = body.last()->Text_0;
        assert(body.last() == NodeV::Text(t));
        assert(emits_node(body.last(), true, o1, ev, k) == Some((emit(o1, true, t), k)));
        assert(o.cdata + text_run(init, 0) + t =~= o.cdata + text_run(body, 0));
        assert(emit(o1, true, t) == Outputs { top: o.top, cdata: o.cdata + text_run(body, 0) });
    }
}

/// What a `@cdata` of literal text writes is a CDATA section.
proof fn lemma_out_cdata(n: NodeV, o: Outputs, ev: Seq<EvalV>, k: int) -> (items: Seq<XmlItem>)
    requires
        n is Cdata,
        plain_node(n),
        wf_node(n, false, false),
    ensures
        emits_node(n, false, o, ev, k) matches Some((o2, _)) ==> writes_items(o, o2, items),
{
    if let NodeV::Cdata(body) = n {
        let start = Outputs { top: o.top + str_cdata_open(), cdata: seq![] };
        lemma_cdata_texts(body, start, ev, k);
        let t = text_run(body, 0);
        if contains(t, cdata_close()) {
            if body.len() > 0 {
                assert(run_contains(body, cdata_close()));
            } else {
                let i = choose|i: int| occurs_at(t, cdata_close(), i);
                assert(t.len() == 0);
            }
        }
        let x = XmlItem::CData(t);
        lemma_ser_items_one(x);
        assert(o.top + str_cdata_open() + (seq![] + t) + str_cdata_close() =~= o.top + ser_item(x));
        seq![x]
    } else {
        seq![]
    }
}

/// What a processing instruction of literal text and splices writes is a
/// processing instruction.
proof fn lemma_out_pi(n: NodeV, o: Outputs, ev: Seq<EvalV>, k: int) -> (items: Seq<XmlItem>)
    requires
        n is Pi,
        plain_node(n),
        wf_node(n, false, false),
        values_are_escaped_text(ev),
    ensures
        emits_node(n, false, o, ev, k) matches Some((o2, _)) ==> writes_items(o, o2, items),
{
    if let NodeV::Pi { name, attrs, body } = n {
        let o0 = emit(o, false, str_pi_open() + name);
        assert forall|i: int| 0 <= i < attrs.len() implies is_xml_name((#[trigger] attrs[i]).name()) by {
            assert(pi_name_ok(attrs[i].name()));
        }
        let list = lemma_out_attrs(attrs, o0, ev, k);
        match emits_attrs(attrs, o0, false, ev, k) {
            None => seq![],
            Some((o1, k1)) => {
                assert forall|j: int| 0 <= j < list.len() implies no_question(#[trigger] list[j].0) && pi_free(
                    list[j].1,
                ) by {
                    assert(named_in(attrs, list[j].0));
                    let i = choose|i: int| 0 <= i < attrs.len() && (#[trigger] attrs[i]).name() == list[j].0;
                    assert(pi_name_ok(attrs[i].name()));
                }
                lemma_ser_attrs_pi_free(list);
                let sa = ser_attrs(list);
                if body.len() == 0 {
                    let x = XmlItem::Pi { target: name, content: sa };
                    lemma_pi_free_iff(sa);
                    lemma_ser_items_one(x);
                    assert(o.top + (str_pi_open() + name) + sa + str_pi_close() =~= o.top + ser_item(x));
                    seq![x]
                } else {
                    let og = emit(o1, false, str_space());
                    let y = lemma_text_body(body, og, ev, k1);
                    match emits_nodes(body, false, og, ev, k1) {
                        None => seq![],
                        Some((o3, _)) => {
                            let content = sa + str_space() + y;
                            lemma_pi_free_chars(str_space());
                            lemma_pi_free_concat(sa, str_space());
                            lemma_pi_free_chars(y);
                            lemma_pi_free_concat(sa + str_space(), y);
                            lemma_pi_free_iff(content);
                            if sa.len() > 0 {
                                assert(content[0] == sa[0]);
                            } else {
                                assert(content[0] == ' ');
                            }
                            let x = XmlItem::Pi { target: name, content };
                            lemma_ser_items_one(x);
                            assert(o.top + (str_pi_open() + name) + sa + str_space() + y + str_pi_close() =~= o.top
                                + ser_item(x));
                            seq![x]
                        },
                    }
                }
            },
        }
    } else {
        seq![]
    }
}

/// What a node writes is well-formed content.
proof fn lemma_out_node(n: NodeV, o: Outputs, ev: Seq<EvalV>, k: int) -> (items: Seq<XmlItem>)
    requires
        plain_node(n),
        wf_node(n, false, false),
        values_are_escaped_text(ev),
    ensures
        emits_node(n, false, o, ev, k) matches Some((o2, _)) ==> writes_items(o, o2, items),
    decreases n, 1nat, 0nat,
{
    match n {
        NodeV::Element { .. } => lemma_out_element(n, o, ev, k),
        NodeV::If { .. } | NodeV::For { .. } | NodeV::While { .. } | NodeV::Match { .. } => lemma_out_control(
            n,
            o,
            ev,
            k,
        ),
        NodeV::Text(t) => {
            lemma_escaped_text_chardata(t);
            let x = XmlItem::Text(escaped_text(t));
            lemma_one_item(o, x);
            seq![x]
        },
        NodeV::Splice { .. } => {
            if 0 <= k < ev.len() && ev[k] is Text {
                lemma_value_at_ok(ev, k);
                let x = XmlItem::Text(ev[k]->Text_0);
                lemma_one_item(o, x);
                seq![x]
            } else {
                seq![]
            }
        },
        NodeV::Comment(t) => {
            let x = XmlItem::Comment(t);
            lemma_one_item(o, x);
            seq![x]
        },
        NodeV::Cdata(_) => lemma_out_cdata(n, o, ev, k),
        NodeV::Pi { .. } => lemma_out_pi(n, o, ev, k),
        NodeV::Doctype(_) => seq![],
    }
}

/// What nodes write is well-formed content.
pub proof fn lemma_out_nodes(s: Seq<NodeV>, o: Outputs, ev: Seq<EvalV>, k: int) -> (items: Seq<XmlItem>)
    requires
        plain_nodes(s),
        wf_nodes(s, false, false),
        values_are_escaped_text(ev),
    ensures
        emits_nodes(s, false, o, ev, k) matches Some((o2, _)) ==> writes_items(o, o2, items),
    decreases s, 2nat, 0nat,
{
    if s.len() == 0 {
        assert(wf_items(Seq::<XmlItem>::empty()));
        assert(o.top + ser_items(Seq::<XmlItem>::empty()) =~= o.top);
        seq![]
    } else {
        lemma_wf_nodes_last(s, false, false);
        let a = lemma_out_nodes(s.drop_last(), o, ev, k);
        match emits_nodes(s.drop_last(), false, o, ev, k) {
            None => seq![],
            Some((o1, k1)) => {
                let b = lemma_out_node(s.last(), o1, ev, k1);
                lemma_ser_items_concat(a, b);
                assert(o.top + ser_items(a) + ser_items(b) =~= o.top + ser_items(a + b));
                a + b
            },
        }
    }
}

proof fn lemma_out_times(body: Seq<NodeV>, n: nat, o: Outputs, ev: Seq<EvalV>, k: int) -> (items: Seq<XmlItem>)
    requires
        plain_nodes(body),
        wf_nodes(body, false, false),
        values_are_escaped_text(ev),
    ensures
        emits_times(body, n, false, o, ev, k) matches Some((o2, _)) ==> writes_items(o, o2, items),
    decreases body, 3nat, n,
{
    if n == 0 {
        assert(wf_items(Seq::<XmlItem>::empty()));
        assert(o.top + ser_items(Seq::<XmlItem>::empty()) =~= o.top);
        seq![]
    } else {
        let a = lemma_out_times(body, (n - 1) as nat, o, ev, k);
        match emits_times(body, (n - 1) as nat, false, o, ev, k) {
            None => seq![],
            Some((o1, k1)) => {
                let b = lemma_out_nodes(body, o1, ev, k1);
                lemma_ser_items_concat(a, b);
                assert(o.top + ser_items(a) + ser_items(b) =~= o.top + ser_items(a + b));
                a + b
            },
        }
    }
}

/// What a template writes is well-formed XML content: for every template
/// that the parser accepts, whose element and attribute names are XML names,
/// that holds no DOCTYPE, whose `@cdata` sections hold literal text only and
/// whose processing instructions hold literal text and splices only (with a
/// target and attribute names without `?`), and for every sequence of values
/// of its expressions whose spliced texts are escaped text (what `Render`
/// gives for strings, characters, numbers and booleans) and for which
/// rendering succeeds, the output is the text of well-formed XML items.
pub proof fn law_output_is_well_formed(t: Seq<Tok>, ev: Seq<EvalV>)
    requires
        body(t, false, false) is Ok,
        plain_nodes(body(t, false, false)->Ok_0),
        values_are_escaped_text(ev),
    ensures
        emits_nodes(body(t, false, false)->Ok_0, false, Outputs { top: seq![], cdata: seq![] }, ev, 0int) matches Some(
            (o, _),
        ) ==> is_well_formed_content(o.top),
{
    let ns = body(t, false, false)->Ok_0;
    crate::wellformed::law_accepted_templates_are_well_formed(t);
    let start = Outputs { top: seq![], cdata: seq![] };
    let items = lemma_out_nodes(ns, start, ev, 0);
    if let Some((o, _)) = emits_nodes(ns, false, start, ev, 0) {
        assert(seq![] + ser_items(items) =~= ser_items(items));
        assert(wf_items(items) && ser_items(items) == o.top);
    }
}

} // verus!
