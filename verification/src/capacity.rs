//! The capacity that generated code asks for is the byte length of the
//! template's literal parts. For a static template that is a lower bound of
//! the output: escaping only ever lengthens text, so the buffer is never
//! allocated larger than the markup it receives.
use vstd::prelude::*;

use crate::ast::{AttrV, NodeV};
use crate::codegen::{
    attrs_estimate, byte_len, capped, lit_true, node_estimate, nodes_estimate, str_cdata_close, str_cdata_open,
    str_close_self, str_comment_close, str_comment_open, str_doctype_open, str_gt, str_open_end, str_open_tag,
    str_pi_close, str_pi_open, str_space,
};
use crate::escape::{
    char_ref, escape_attr_char, escape_text_char, escaped_attr, escaped_text, hex_digit, hex_upper,
    is_forbidden_control,
};
use crate::markup::{attr_rendered_text, attr_text};
use crate::run::{EvalV, Outputs, emit};
use crate::semantics::{emits_attr, emits_attrs, emits_node, emits_nodes, emits_times};
use crate::xml::{is_static_attr, is_static_attrs, is_static_node, is_static_nodes, xml_attr, xml_attrs, xml_node, xml_nodes};
use vstd::utf8::{encode_utf8, is_ascii_chars, is_ascii_chars_encode_utf8};

verus! {

/// The number of bytes of the UTF-8 encoding of `s`.
pub open spec fn utf8_len(s: Seq<char>) -> nat {
    encode_utf8(s).len()
}

/// Encoding distributes over concatenation.
pub proof fn lemma_encode_concat(a: Seq<char>, b: Seq<char>)
    ensures
        encode_utf8(a + b) == encode_utf8(a) + encode_utf8(b),
    decreases a.len(),
{
    if a.len() == 0 {
        assert(a + b =~= b);
        assert(encode_utf8(a) =~= Seq::<u8>::empty());
        assert(encode_utf8(a) + encode_utf8(b) =~= encode_utf8(b));
    } else {
        lemma_encode_concat(a.drop_first(), b);
        assert((a + b)[0] == a[0]);
        assert((a + b).drop_first() =~= a.drop_first() + b);
        assert(encode_utf8(a + b) =~= encode_utf8(a) + encode_utf8(b));
    }
}

proof fn lemma_len_concat(a: Seq<char>, b: Seq<char>)
    ensures
        utf8_len(a + b) == utf8_len(a) + utf8_len(b),
{
    lemma_encode_concat(a, b);
}

proof fn lemma_len_ascii(s: Seq<char>)
    requires
        is_ascii_chars(s),
    ensures
        utf8_len(s) == s.len(),
{
    is_ascii_chars_encode_utf8(s);
}

/// `byte_len` is the encoded length, for any text no longer than a `usize`
/// can count.
proof fn lemma_byte_len(s: Seq<char>)
    requires
        utf8_len(s) <= usize::MAX,
    ensures
        byte_len(s) == utf8_len(s),
{
}

proof fn lemma_len_char(c: char)
    ensures
        1 <= utf8_len(seq![c]),
        (c as u32) < 0x80 ==> utf8_len(seq![c]) == 1,
{
    assert(seq![c].drop_first() =~= Seq::<char>::empty());
    assert(encode_utf8(seq![c]) =~= vstd::utf8::encode_scalar(c as u32) + encode_utf8(Seq::<char>::empty()));
}

proof fn lemma_char_ref_ascii(c: char)
    requires
        is_forbidden_control(c),
    ensures
        is_ascii_chars(char_ref(c)),
        char_ref(c).len() >= 4,
{
    let m = c as u32 as nat;
    if m >= 16 {
        assert(hex_upper(m / 16) == seq!['1']) by {
            reveal_with_fuel(hex_upper, 2);
        }
        assert(hex_upper(m) == seq!['1', hex_digit(m % 16)]);
        assert(char_ref(c) =~= seq!['&', '#', 'x', '1', hex_digit(m % 16), ';']);
    } else {
        assert(hex_upper(m) == seq![hex_digit(m)]);
        assert(char_ref(c) =~= seq!['&', '#', 'x', hex_digit(m), ';']);
    }
}

/// Escaping a character of text never shortens its encoding.
proof fn lemma_escape_text_char_len(c: char)
    ensures
        utf8_len(escape_text_char(c)) >= utf8_len(seq![c]),
{
    lemma_len_char(c);
    let e = escape_text_char(c);
    if c == '&' || c == '<' || c == '>' {
        lemma_len_ascii(e);
    } else if is_forbidden_control(c) {
        lemma_char_ref_ascii(c);
        lemma_len_ascii(e);
    }
}

/// Escaping a character of an attribute value never shortens its encoding.
proof fn lemma_escape_attr_char_len(c: char)
    ensures
        utf8_len(escape_attr_char(c)) >= utf8_len(seq![c]),
{
    lemma_len_char(c);
    let e = escape_attr_char(c);
    if c == '&' || c == '<' || c == '"' || c == '\'' {
        lemma_len_ascii(e);
    } else if is_forbidden_control(c) {
        lemma_char_ref_ascii(c);
        lemma_len_ascii(e);
    }
}

/// Escaped text is at least as long as the text.
pub proof fn lemma_escaped_text_len(s: Seq<char>)
    ensures
        utf8_len(escaped_text(s)) >= utf8_len(s),
    decreases s.len(),
{
    if s.len() > 0 {
        let init = s.drop_last();
        lemma_escaped_text_len(init);
        lemma_escape_text_char_len(s.last());
        assert(s =~= init + seq![s.last()]);
        lemma_len_concat(init, seq![s.last()]);
        lemma_len_concat(escaped_text(init), escape_text_char(s.last()));
    }
}

/// An escaped attribute value is at least as long as the value.
pub proof fn lemma_escaped_attr_len(s: Seq<char>)
    ensures
        utf8_len(escaped_attr(s)) >= utf8_len(s),
    decreases s.len(),
{
    if s.len() > 0 {
        let init = s.drop_last();
        lemma_escaped_attr_len(init);
        lemma_escape_attr_char_len(s.last());
        assert(s =~= init + seq![s.last()]);
        lemma_len_concat(init, seq![s.last()]);
        lemma_len_concat(escaped_attr(init), escape_attr_char(s.last()));
    }
}

/// The encoded length of ` name="value"`.
proof fn lemma_attr_text_len(name: Seq<char>, value: Seq<char>)
    ensures
        utf8_len(attr_text(name, value)) == 4 + utf8_len(name) + utf8_len(escaped_attr(value)),
{
    let a = seq![' '];
    let b = seq!['=', '"'];
    let c = seq!['"'];
    lemma_len_ascii(a);
    lemma_len_ascii(b);
    lemma_len_ascii(c);
    lemma_len_concat(a, name);
    lemma_len_concat(a + name, b);
    lemma_len_concat(a + name + b, escaped_attr(value));
    lemma_len_concat(a + name + b + escaped_attr(value), c);
}

proof fn lemma_attr_estimate(a: AttrV)
    requires
        is_static_attr(a),
        utf8_len(xml_attr(a)) <= usize::MAX,
    ensures
        crate::codegen::attr_estimate(a) <= utf8_len(xml_attr(a)),
{
    match a {
        AttrV::Lit { name, value, .. } => {
            lemma_attr_text_len(name, value);
            lemma_escaped_attr_len(value);
            lemma_byte_len(name);
            lemma_byte_len(value);
        },
        AttrV::CondExpr { name, .. } => {
            lemma_attr_text_len(name, lit_true());
            lemma_byte_len(name);
        },
        AttrV::Expr { .. } => {},
    }
}

proof fn lemma_attrs_estimate(s: Seq<AttrV>)
    requires
        is_static_attrs(s),
        utf8_len(xml_attrs(s)) <= usize::MAX,
    ensures
        attrs_estimate(s) <= utf8_len(xml_attrs(s)),
    decreases s.len(),
{
    if s.len() > 0 {
        let init = s.drop_last();
        assert(is_static_attrs(init));
        lemma_len_concat(xml_attrs(init), xml_attr(s.last()));
        lemma_attrs_estimate(init);
        lemma_attr_estimate(s.last());
    }
}

/// The encoded length of `open + name + attrs`, the head of a tag or
/// instruction.
proof fn lemma_head_len(open: Seq<char>, name: Seq<char>, attrs: Seq<AttrV>)
    requires
        is_ascii_chars(open),
    ensures
        utf8_len(open + name + xml_attrs(attrs)) == open.len() + utf8_len(name) + utf8_len(xml_attrs(attrs)),
{
    lemma_len_ascii(open);
    lemma_len_concat(open, name);
    lemma_len_concat(open + name, xml_attrs(attrs));
}

/// The encoded length of `a + x + b` for ASCII `a` and `b`.
proof fn lemma_wrap_len(a: Seq<char>, x: Seq<char>, b: Seq<char>)
    requires
        is_ascii_chars(a),
        is_ascii_chars(b),
    ensures
        utf8_len(a + x + b) == a.len() + utf8_len(x) + b.len(),
{
    lemma_len_ascii(a);
    lemma_len_ascii(b);
    lemma_len_concat(a, x);
    lemma_len_concat(a + x, b);
}

proof fn lemma_node_estimate(n: NodeV, cd: bool)
    requires
        is_static_node(n, cd),
        utf8_len(xml_node(n, cd)) <= usize::MAX,
    ensures
        node_estimate(n) <= utf8_len(xml_node(n, cd)),
    decreases n, 0nat,
{
    match n {
        NodeV::Element { name, attrs, body } => {
            let head = str_open_tag() + name + xml_attrs(attrs);
            assert(is_ascii_chars(str_open_tag()));
            lemma_head_len(str_open_tag(), name, attrs);
            let tail = if body.len() == 0 {
                str_close_self()
            } else {
                str_gt() + xml_nodes(body, cd) + str_open_end() + name + str_gt()
            };
            assert(xml_node(n, cd) == head + tail);
            lemma_len_concat(head, tail);
            lemma_byte_len(name);
            lemma_attrs_estimate(attrs);
            if body.len() == 0 {
                assert(is_ascii_chars(str_close_self()));
                lemma_len_ascii(str_close_self());
            } else {
                let g = str_gt();
                let x = xml_nodes(body, cd);
                assert(is_ascii_chars(g));
                assert(is_ascii_chars(str_open_end()));
                lemma_len_ascii(g);
                lemma_len_ascii(str_open_end());
                lemma_len_concat(g, x);
                lemma_len_concat(g + x, str_open_end());
                lemma_len_concat(g + x + str_open_end(), name);
                lemma_len_concat(g + x + str_open_end() + name, g);
                lemma_nodes_estimate(body, cd);
            }
        },
        NodeV::Text(s) => {
            if !cd {
                lemma_escaped_text_len(s);
            }
            lemma_byte_len(s);
        },
        NodeV::Comment(t) => {
            assert(is_ascii_chars(str_comment_open()));
            assert(is_ascii_chars(str_comment_close()));
            lemma_wrap_len(str_comment_open(), t, str_comment_close());
            lemma_byte_len(t);
        },
        NodeV::Doctype(t) => {
            assert(is_ascii_chars(str_doctype_open()));
            assert(is_ascii_chars(str_gt()));
            lemma_wrap_len(str_doctype_open(), t, str_gt());
            lemma_byte_len(t);
        },
        NodeV::Cdata(body) => {
            assert(is_ascii_chars(str_cdata_open()));
            assert(is_ascii_chars(str_cdata_close()));
            lemma_wrap_len(str_cdata_open(), xml_nodes(body, true), str_cdata_close());
            lemma_nodes_estimate(body, true);
        },
        NodeV::Pi { name, attrs, body } => {
            let head = str_pi_open() + name + xml_attrs(attrs);
            assert(is_ascii_chars(str_pi_open()));
            lemma_head_len(str_pi_open(), name, attrs);
            let tail = if body.len() == 0 {
                str_pi_close()
            } else {
                str_space() + xml_nodes(body, cd) + str_pi_close()
            };
            assert(xml_node(n, cd) == head + tail);
            lemma_len_concat(head, tail);
            lemma_byte_len(name);
            lemma_attrs_estimate(attrs);
            assert(is_ascii_chars(str_pi_close()));
            if body.len() == 0 {
                lemma_len_ascii(str_pi_close());
            } else {
                assert(is_ascii_chars(str_space()));
                lemma_wrap_len(str_space(), xml_nodes(body, cd), str_pi_close());
                lemma_nodes_estimate(body, cd);
            }
        },
        _ => {},
    }
}

proof fn lemma_nodes_estimate(s: Seq<NodeV>, cd: bool)
    requires
        is_static_nodes(s, cd),
        utf8_len(xml_nodes(s, cd)) <= usize::MAX,
    ensures
        nodes_estimate(s) <= utf8_len(xml_nodes(s, cd)),
    decreases s, 1nat,
{
    if s.len() > 0 {
        let init = s.drop_last();
        lemma_len_concat(xml_nodes(init, cd), xml_node(s.last(), cd));
        lemma_nodes_estimate(init, cd);
        lemma_node_estimate(s.last(), cd);
    }
}

/// For a static template, the capacity that the generated code reserves is
/// at most the number of bytes of the markup it renders (for output whose
/// length a `usize` can count).
pub proof fn law_static_capacity_is_a_lower_bound(ns: Seq<NodeV>)
    requires
        is_static_nodes(ns, false),
        utf8_len(xml_nodes(ns, false)) <= usize::MAX,
    ensures
        nodes_estimate(ns) <= utf8_len(xml_nodes(ns, false)),
{
    lemma_nodes_estimate(ns, false);
}

// ==================== Any template, any values ====================

/// The bytes written so far, to both outputs.
pub open spec fn written(o: Outputs) -> nat {
    utf8_len(o.top) + utf8_len(o.cdata)
}

/// `byte_len` never exceeds the encoded length.
proof fn lemma_byte_len_le(s: Seq<char>)
    ensures
        byte_len(s) <= utf8_len(s),
{
}

proof fn lemma_emit_written(o: Outputs, cd: bool, s: Seq<char>)
    ensures
        written(emit(o, cd, s)) == written(o) + utf8_len(s),
        !cd ==> emit(o, cd, s).cdata == o.cdata,
{
    if cd {
        lemma_len_concat(o.cdata, s);
    } else {
        lemma_len_concat(o.top, s);
    }
}

proof fn lemma_attr_rendered_len(name: Seq<char>, value: Seq<char>)
    ensures
        utf8_len(attr_rendered_text(name, value)) >= 4 + utf8_len(name),
{
    let a = seq![' '];
    let b = seq!['=', '"'];
    let c = seq!['"'];
    let v = crate::escape::escaped_quotes(value);
    lemma_len_ascii(a);
    lemma_len_ascii(b);
    lemma_len_ascii(c);
    lemma_len_concat(a, name);
    lemma_len_concat(a + name, b);
    lemma_len_concat(a + name + b, v);
    lemma_len_concat(a + name + b + v, c);
}

proof fn lemma_gain_attr(a: AttrV, o: Outputs, cd: bool, ev: Seq<EvalV>, k: int)
    ensures
        emits_attr(a, o, cd, ev, k) matches Some((o2, _)) ==> written(o2) >= written(o) + crate::codegen::attr_estimate(a)
            && (!cd ==> o2.cdata == o.cdata),
{
    match a {
        AttrV::Lit { name, value, .. } => {
            lemma_attr_text_len(name, value);
            lemma_escaped_attr_len(value);
            lemma_byte_len_le(name);
            lemma_byte_len_le(value);
            lemma_emit_written(o, cd, attr_text(name, value));
        },
        AttrV::Expr { name, .. } => {
            lemma_byte_len_le(name);
            if 0 <= k < ev.len() && ev[k] is Text {
                lemma_attr_rendered_len(name, ev[k]->Text_0);
                lemma_emit_written(o, cd, attr_rendered_text(name, ev[k]->Text_0));
            }
        },
        AttrV::CondExpr { name, cond, value, .. } => {
            lemma_byte_len_le(name);
            lemma_attr_text_len(name, lit_true());
            lemma_emit_written(o, cd, attr_text(name, lit_true()));
            if 0 <= k < ev.len() && ev[k] is Text {
                lemma_attr_rendered_len(name, ev[k]->Text_0);
                lemma_emit_written(o, cd, attr_rendered_text(name, ev[k]->Text_0));
            }
            if 0 <= k + 1 < ev.len() && ev[k + 1] is Text {
                lemma_attr_rendered_len(name, ev[k + 1]->Text_0);
                lemma_emit_written(o, cd, attr_rendered_text(name, ev[k + 1]->Text_0));
            }
        },
    }
}

proof fn lemma_gain_attrs(s: Seq<AttrV>, o: Outputs, cd: bool, ev: Seq<EvalV>, k: int)
    ensures
        emits_attrs(s, o, cd, ev, k) matches Some((o2, _)) ==> written(o2) >= written(o) + attrs_estimate(s) && (!cd
            ==> o2.cdata == o.cdata),
    decreases s.len(),
{
    if s.len() > 0 {
        let init = s.drop_last();
        lemma_gain_attrs(init, o, cd, ev, k);
        if let Some((o1, k1)) = emits_attrs(init, o, cd, ev, k) {
            lemma_gain_attr(s.last(), o1, cd, ev, k1);
        }
    }
}

/// The bytes of `open + name`, for an ASCII `open`.
proof fn lemma_open_len(open: Seq<char>, name: Seq<char>)
    requires
        is_ascii_chars(open),
    ensures
        utf8_len(open + name) == open.len() + utf8_len(name),
{
    lemma_len_ascii(open);
    lemma_len_concat(open, name);
}

/// What a node writes is at least its estimate.
proof fn lemma_gain_node(n: NodeV, cd: bool, o: Outputs, ev: Seq<EvalV>, k: int)
    ensures
        emits_node(n, cd, o, ev, k) matches Some((o2, _)) ==> written(o2) >= written(o) + node_estimate(n) && (!cd
            ==> o2.cdata == o.cdata),
    decreases n, 1nat, 0nat,
{
    match n {
        NodeV::Element { .. } => lemma_gain_element(n, cd, o, ev, k),
        NodeV::Pi { .. } => lemma_gain_pi(n, cd, o, ev, k),
        NodeV::If { .. } | NodeV::For { .. } | NodeV::While { .. } | NodeV::Match { .. } => lemma_gain_control(
            n,
            cd,
            o,
            ev,
            k,
        ),
        NodeV::Text(t) => {
            lemma_escaped_text_len(t);
            lemma_byte_len_le(t);
            lemma_emit_written(o, cd, if cd { t } else { escaped_text(t) });
        },
        NodeV::Splice { .. } => {
            if 0 <= k < ev.len() && ev[k] is Text {
                lemma_emit_written(o, cd, ev[k]->Text_0);
            }
        },
        NodeV::Comment(t) => {
            assert(is_ascii_chars(str_comment_open()));
            assert(is_ascii_chars(str_comment_close()));
            lemma_wrap_len(str_comment_open(), t, str_comment_close());
            lemma_byte_len_le(t);
            lemma_emit_written(o, cd, str_comment_open() + t + str_comment_close());
        },
        NodeV::Doctype(t) => {
            assert(is_ascii_chars(str_doctype_open()));
            assert(is_ascii_chars(str_gt()));
            lemma_wrap_len(str_doctype_open(), t, str_gt());
            lemma_byte_len_le(t);
            lemma_emit_written(o, cd, str_doctype_open() + t + str_gt());
        },
        NodeV::Cdata(body) => {
            let start = Outputs { top: o.top + str_cdata_open(), cdata: seq![] };
            assert(is_ascii_chars(str_cdata_open()));
            assert(is_ascii_chars(str_cdata_close()));
            lemma_len_ascii(str_cdata_open());
            lemma_len_ascii(str_cdata_close());
            lemma_len_concat(o.top, str_cdata_open());
            assert(utf8_len(seq![]) == 0) by {
                assert(encode_utf8(Seq::<char>::empty()) =~= Seq::<u8>::empty());
            }
            lemma_gain_nodes(body, true, start, ev, k);
            if let Some((o2, _)) = emits_nodes(body, true, start, ev, k) {
                lemma_len_concat(o2.top, o2.cdata);
                lemma_len_concat(o2.top + o2.cdata, str_cdata_close());
            }
        },
    }
}

proof fn lemma_gain_element(n: NodeV, cd: bool, o: Outputs, ev: Seq<EvalV>, k: int)
    requires
        n is Element,
    ensures
        emits_node(n, cd, o, ev, k) matches Some((o2, _)) ==> written(o2) >= written(o) + node_estimate(n) && (!cd
            ==> o2.cdata == o.cdata),
    decreases n, 0nat, 0nat,
{
    if let NodeV::Element { name, attrs, body } = n {
        assert(is_ascii_chars(str_open_tag()));
        lemma_open_len(str_open_tag(), name);
        lemma_byte_len_le(name);
        let o0 = emit(o, cd, str_open_tag() + name);
        lemma_emit_written(o, cd, str_open_tag() + name);
        lemma_gain_attrs(attrs, o0, cd, ev, k);
        if let Some((o1, k1)) = emits_attrs(attrs, o0, cd, ev, k) {
            if body.len() == 0 {
                assert(is_ascii_chars(str_close_self()));
                lemma_len_ascii(str_close_self());
                lemma_emit_written(o1, cd, str_close_self());
            } else {
                assert(is_ascii_chars(str_gt()));
                assert(is_ascii_chars(str_open_end()));
                lemma_len_ascii(str_gt());
                lemma_emit_written(o1, cd, str_gt());
                lemma_gain_nodes(body, cd, emit(o1, cd, str_gt()), ev, k1);
                if let Some((o3, _)) = emits_nodes(body, cd, emit(o1, cd, str_gt()), ev, k1) {
                    lemma_open_len(str_open_end(), name);
                    lemma_len_ascii(str_gt());
                    lemma_len_concat(str_open_end() + name, str_gt());
                    lemma_emit_written(o3, cd, str_open_end() + name + str_gt());
                }
            }
        }
    }
}

proof fn lemma_gain_pi(n: NodeV, cd: bool, o: Outputs, ev: Seq<EvalV>, k: int)
    requires
        n is Pi,
    ensures
        emits_node(n, cd, o, ev, k) matches Some((o2, _)) ==> written(o2) >= written(o) + node_estimate(n) && (!cd
            ==> o2.cdata == o.cdata),
    decreases n, 0nat, 0nat,
{
    if let NodeV::Pi { name, attrs, body } = n {
        assert(is_ascii_chars(str_pi_open()));
        lemma_open_len(str_pi_open(), name);
        lemma_byte_len_le(name);
        let o0 = emit(o, cd, str_pi_open() + name);
        lemma_emit_written(o, cd, str_pi_open() + name);
        lemma_gain_attrs(attrs, o0, cd, ev, k);
        assert(is_ascii_chars(str_pi_close()));
        lemma_len_ascii(str_pi_close());
        if let Some((o1, k1)) = emits_attrs(attrs, o0, cd, ev, k) {
            if body.len() == 0 {
                lemma_emit_written(o1, cd, str_pi_close());
            } else {
                assert(is_ascii_chars(str_space()));
                lemma_len_ascii(str_space());
                lemma_emit_written(o1, cd, str_space());
                lemma_gain_nodes(body, cd, emit(o1, cd, str_space()), ev, k1);
                if let Some((o3, _)) = emits_nodes(body, cd, emit(o1, cd, str_space()), ev, k1) {
                    lemma_emit_written(o3, cd, str_pi_close());
                }
            }
        }
    }
}

proof fn lemma_gain_control(n: NodeV, cd: bool, o: Outputs, ev: Seq<EvalV>, k: int)
    requires
        n is If || n is For || n is While || n is Match,
    ensures
        emits_node(n, cd, o, ev, k) matches Some((o2, _)) ==> written(o2) >= written(o) + node_estimate(n) && (!cd
            ==> o2.cdata == o.cdata),
    decreases n, 0nat, 0nat,
{
    match n {
        NodeV::If { cond, then, else_ } => {
            lemma_gain_nodes(then, cd, o, ev, k);
            lemma_gain_nodes(then, cd, o, ev, k + 1);
            if let Some(e) = else_ {
                lemma_gain_nodes(e, cd, o, ev, k + 1);
            }
        },
        NodeV::For { body, .. } | NodeV::While { body, .. } => {
            if 0 <= k < ev.len() && ev[k] is Times {
                lemma_gain_times(body, ev[k]->Times_0, cd, o, ev, k + 1);
            }
        },
        NodeV::Match { arms, .. } => {
            if 0 <= k < ev.len() && ev[k] is Arm && ev[k]->Arm_0 < arms.len() {
                let i = ev[k]->Arm_0 as int;
                assert(decreases_to!(arms => arms[i]));
                lemma_gain_nodes(arms[i].body, cd, o, ev, k + 1);
            }
        },
        _ => {},
    }
}

/// What nodes write is at least their estimate.
pub proof fn lemma_gain_nodes(s: Seq<NodeV>, cd: bool, o: Outputs, ev: Seq<EvalV>, k: int)
    ensures
        emits_nodes(s, cd, o, ev, k) matches Some((o2, _)) ==> written(o2) >= written(o) + nodes_estimate(s) && (!cd
            ==> o2.cdata == o.cdata),
    decreases s, 2nat, 0nat,
{
    if s.len() > 0 {
        let init = s.drop_last();
        lemma_gain_nodes(init, cd, o, ev, k);
        if let Some((o1, k1)) = emits_nodes(init, cd, o, ev, k) {
            lemma_gain_node(s.last(), cd, o1, ev, k1);
        }
    }
}

proof fn lemma_gain_times(body: Seq<NodeV>, n: nat, cd: bool, o: Outputs, ev: Seq<EvalV>, k: int)
    ensures
        emits_times(body, n, cd, o, ev, k) matches Some((o2, _)) ==> written(o2) >= written(o) && (!cd ==> o2.cdata
            == o.cdata),
    decreases body, 3nat, n,
{
    if n > 0 {
        lemma_gain_times(body, (n - 1) as nat, cd, o, ev, k);
        if let Some((o1, k1)) = emits_times(body, (n - 1) as nat, cd, o, ev, k) {
            lemma_gain_nodes(body, cd, o1, ev, k1);
        }
    }
}

/// Whatever the template and whatever its expressions give, the capacity
/// that its code reserves is at most the number of bytes that it writes.
pub proof fn law_capacity_is_a_lower_bound(ns: Seq<NodeV>, ev: Seq<EvalV>)
    ensures
        emits_nodes(ns, false, Outputs { top: seq![], cdata: seq![] }, ev, 0int) matches Some((o, _)) ==> capped(
            nodes_estimate(ns),
        ) <= utf8_len(o.top),
{
    let start = Outputs { top: seq![], cdata: seq![] };
    assert(utf8_len(seq![]) == 0) by {
        assert(encode_utf8(Seq::<char>::empty()) =~= Seq::<u8>::empty());
    }
    lemma_gain_nodes(ns, false, start, ev, 0);
}

} // verus!
