//! What an XML reader makes of escaped text: entity references `&amp;`,
//! `&lt;`, `&gt;`, `&quot;`, `&apos;` and numeric references `&#xN;` stand
//! for one character each; every other character stands for itself.
//!
//! Escaping loses nothing: reading escaped text back gives the same text,
//! and escaped text holds none of the characters that would end it early.
use vstd::prelude::*;

use crate::escape::{
    amp_ref, apos_ref, char_ref, escape_attr_char, escape_text_char, escaped_attr, escaped_text, gt_ref, hex_digit,
    hex_upper, is_forbidden_control, lemma_escaped_attr_concat, lemma_escaped_text_concat, lt_ref, quot_ref,
    escape_quote_char, escaped_quotes,
};

verus! {

/// The value of a hexadecimal digit, either case.
pub open spec fn hex_value(c: char) -> Option<nat> {
    if '0' <= c && c <= '9' {
        Some((c as u32 - '0' as u32) as nat)
    } else if 'A' <= c && c <= 'F' {
        Some((c as u32 - 'A' as u32 + 10) as nat)
    } else if 'a' <= c && c <= 'f' {
        Some((c as u32 - 'a' as u32 + 10) as nat)
    } else {
        None
    }
}

/// Whether `t` begins with `r`.
pub open spec fn starts_with(t: Seq<char>, r: Seq<char>) -> bool {
    r.len() <= t.len() && t.take(r.len() as int) == r
}

/// The first character that `t` stands for, and how many characters of `t`
/// stand for it (`t` not empty).
pub open spec fn read_first(t: Seq<char>) -> (char, nat) {
    if t[0] != '&' {
        (t[0], 1)
    } else if starts_with(t, amp_ref()) {
        ('&', 5)
    } else if starts_with(t, lt_ref()) {
        ('<', 4)
    } else if starts_with(t, gt_ref()) {
        ('>', 4)
    } else if starts_with(t, quot_ref()) {
        ('"', 6)
    } else if starts_with(t, apos_ref()) {
        ('\'', 6)
    } else if 5 <= t.len() && t[1] == '#' && t[2] == 'x' && hex_value(t[3]) is Some && t[4] == ';' {
        ((hex_value(t[3])->0) as char, 5)
    } else if 6 <= t.len() && t[1] == '#' && t[2] == 'x' && hex_value(t[3]) is Some && hex_value(t[4]) is Some
        && t[5] == ';' {
        ((16 * hex_value(t[3])->0 + hex_value(t[4])->0) as char, 6)
    } else {
        ('&', 1)
    }
}

/// What `read_first` reads is at least one character and at most all of `t`.
pub proof fn lemma_read_first_len(t: Seq<char>)
    requires
        t.len() > 0,
    ensures
        1 <= read_first(t).1 <= t.len(),
{
}

/// The characters that `t` stands for.
pub open spec fn unescape(t: Seq<char>) -> Seq<char>
    decreases t.len(),
{
    if t.len() == 0 {
        seq![]
    } else {
        let n = read_first(t).1;
        proof {
            lemma_read_first_len(t);
        }
        seq![read_first(t).0] + unescape(t.skip(n as int))
    }
}

proof fn lemma_starts_with(r: Seq<char>, rest: Seq<char>)
    ensures
        starts_with(r + rest, r),
{
    assert((r + rest).take(r.len() as int) =~= r);
}

/// A hexadecimal digit reads back as its value.
proof fn lemma_hex_digit_value(d: nat)
    requires
        d < 16,
    ensures
        hex_value(hex_digit(d)) == Some(d),
        hex_digit(d) != ';',
{
}

/// The numeric reference of a forbidden control character reads back as it.
proof fn lemma_read_char_ref(c: char, rest: Seq<char>)
    requires
        is_forbidden_control(c),
    ensures
        read_first(char_ref(c) + rest) == (c, char_ref(c).len()),
{
    let t = char_ref(c) + rest;
    let m = c as u32 as nat;
    if m >= 16 {
        assert(hex_upper(m / 16) == seq!['1']) by {
            reveal_with_fuel(hex_upper, 2);
        }
        assert(hex_upper(m) == seq!['1', hex_digit(m % 16)]);
        lemma_hex_digit_value(1);
        lemma_hex_digit_value(m % 16);
        assert(char_ref(c) =~= seq!['&', '#', 'x', '1', hex_digit(m % 16), ';']);
        assert(t[4] == hex_digit(m % 16));
        assert(t[5] == ';');
        assert(16 * 1 + m % 16 == m);
    } else {
        assert(hex_upper(m) == seq![hex_digit(m)]);
        lemma_hex_digit_value(m);
        assert(char_ref(c) =~= seq!['&', '#', 'x', hex_digit(m), ';']);
        assert(t[4] == ';');
    }
    assert(t[1] == '#');
    assert(!starts_with(t, amp_ref()));
    assert(!starts_with(t, lt_ref()));
    assert(!starts_with(t, gt_ref()));
    assert(!starts_with(t, quot_ref()));
    assert(!starts_with(t, apos_ref()));
}

/// The escape of one character of text reads back as that character,
/// whatever follows it.
proof fn lemma_read_text_char(c: char, rest: Seq<char>)
    ensures
        read_first(escape_text_char(c) + rest) == (c, escape_text_char(c).len()),
{
    let t = escape_text_char(c) + rest;
    if c == '&' {
        lemma_starts_with(amp_ref(), rest);
    } else if c == '<' {
        lemma_starts_with(lt_ref(), rest);
        assert(t[1] == 'l');
        assert(!starts_with(t, amp_ref()));
    } else if c == '>' {
        lemma_starts_with(gt_ref(), rest);
        assert(t[1] == 'g');
        assert(!starts_with(t, amp_ref()));
        assert(!starts_with(t, lt_ref()));
    } else if is_forbidden_control(c) {
        lemma_read_char_ref(c, rest);
    } else {
        assert(t[0] == c);
    }
}

/// The escape of one character of an attribute value reads back as that
/// character, whatever follows it.
proof fn lemma_read_attr_char(c: char, rest: Seq<char>)
    ensures
        read_first(escape_attr_char(c) + rest) == (c, escape_attr_char(c).len()),
{
    let t = escape_attr_char(c) + rest;
    if c == '&' {
        lemma_starts_with(amp_ref(), rest);
    } else if c == '<' {
        lemma_starts_with(lt_ref(), rest);
        assert(t[1] == 'l');
        assert(!starts_with(t, amp_ref()));
    } else if c == '"' {
        lemma_starts_with(quot_ref(), rest);
        assert(t[1] == 'q');
        assert(!starts_with(t, amp_ref()));
        assert(!starts_with(t, lt_ref()));
        assert(!starts_with(t, gt_ref()));
    } else if c == '\'' {
        lemma_starts_with(apos_ref(), rest);
        assert(t[1] == 'a' && t[2] == 'p');
        assert(!starts_with(t, amp_ref()));
        assert(!starts_with(t, lt_ref()));
        assert(!starts_with(t, gt_ref()));
        assert(!starts_with(t, quot_ref()));
    } else if is_forbidden_control(c) {
        lemma_read_char_ref(c, rest);
    } else {
        assert(t[0] == c);
    }
}

/// Reading escaped text content gives back the text.
pub proof fn law_unescape_text(s: Seq<char>)
    ensures
        unescape(escaped_text(s)) == s,
    decreases s.len(),
{
    if s.len() > 0 {
        let rest = s.drop_first();
        assert(s =~= seq![s[0]] + rest);
        lemma_escaped_text_concat(seq![s[0]], rest);
        crate::escape::lemma_escaped_text_single(s[0]);
        let e = escape_text_char(s[0]);
        let t = escaped_text(s);
        assert(t == e + escaped_text(rest));
        lemma_read_text_char(s[0], escaped_text(rest));
        assert(t.skip(e.len() as int) =~= escaped_text(rest));
        law_unescape_text(rest);
    } else {
        assert(escaped_text(s) =~= Seq::<char>::empty());
    }
}

/// Escaping one character of an attribute value gives that character's
/// escape.
proof fn lemma_escaped_attr_single(c: char)
    ensures
        escaped_attr(seq![c]) == escape_attr_char(c),
{
    assert(seq![c].drop_last() =~= Seq::<char>::empty());
    assert(escaped_attr(Seq::<char>::empty()) =~= Seq::<char>::empty());
    assert(escaped_attr(seq![c]) =~= escape_attr_char(c));
}

/// Reading an escaped attribute value gives back the value.
pub proof fn law_unescape_attr(s: Seq<char>)
    ensures
        unescape(escaped_attr(s)) == s,
    decreases s.len(),
{
    if s.len() > 0 {
        let rest = s.drop_first();
        assert(s =~= seq![s[0]] + rest);
        lemma_escaped_attr_concat(seq![s[0]], rest);
        lemma_escaped_attr_single(s[0]);
        let e = escape_attr_char(s[0]);
        let t = escaped_attr(s);
        assert(t == e + escaped_attr(rest));
        lemma_read_attr_char(s[0], escaped_attr(rest));
        assert(t.skip(e.len() as int) =~= escaped_attr(rest));
        law_unescape_attr(rest);
    } else {
        assert(escaped_attr(s) =~= Seq::<char>::empty());
    }
}

/// Whether `c` may stand in text content as it is: neither `<` nor `>`,
/// nor a forbidden control character.
pub open spec fn is_text_safe(c: char) -> bool {
    c != '<' && c != '>' && !is_forbidden_control(c)
}

/// Whether `c` may stand in a quoted attribute value as it is: neither `<`,
/// `"` nor `'`, nor a forbidden control character.
pub open spec fn is_attr_safe(c: char) -> bool {
    c != '<' && c != '"' && c != '\'' && !is_forbidden_control(c)
}

/// The characters of a numeric reference: `&`, `#`, `x`, upper-case
/// hexadecimal digits and `;`.
pub(crate) proof fn lemma_char_ref_chars(c: char)
    requires
        is_forbidden_control(c),
    ensures
        forall|i: int|
            0 <= i < char_ref(c).len() ==> is_text_safe(#[trigger] char_ref(c)[i]) && is_attr_safe(
                char_ref(c)[i],
            ) && char_ref(c)[i] != '?',
{
    let m = c as u32 as nat;
    if m >= 16 {
        assert(hex_upper(m / 16) == seq!['1']) by {
            reveal_with_fuel(hex_upper, 2);
        }
        assert(hex_upper(m) == seq!['1', hex_digit(m % 16)]);
        assert(char_ref(c) =~= seq!['&', '#', 'x', '1', hex_digit(m % 16), ';']);
    } else {
        assert(hex_upper(m) == seq![hex_digit(m)]);
        assert(char_ref(c) =~= seq!['&', '#', 'x', hex_digit(m), ';']);
    }
}

/// Escaped text content holds no `<`, no `>` and no forbidden control
/// character, and every `&` in it begins a reference.
pub proof fn law_escaped_text_is_safe(s: Seq<char>)
    ensures
        forall|i: int| 0 <= i < escaped_text(s).len() ==> is_text_safe(#[trigger] escaped_text(s)[i]),
        refs_ok(escaped_text(s)),
    decreases s.len(),
{
    lemma_escaped_text_refs(s);
    if s.len() > 0 {
        let init = s.drop_last();
        law_escaped_text_is_safe(init);
        let c = s.last();
        let e = escape_text_char(c);
        if is_forbidden_control(c) && c != '&' && c != '<' && c != '>' {
            lemma_char_ref_chars(c);
        }
        assert forall|i: int| 0 <= i < e.len() implies is_text_safe(#[trigger] e[i]) by {
            if c == '&' || c == '<' || c == '>' {
                assert(e[0] == '&');
            }
        }
        let t = escaped_text(s);
        assert(t == escaped_text(init) + e);
        assert forall|i: int| 0 <= i < t.len() implies is_text_safe(#[trigger] t[i]) by {
            if i < escaped_text(init).len() {
                assert(t[i] == escaped_text(init)[i]);
            } else {
                assert(t[i] == e[i - escaped_text(init).len()]);
            }
        }
    }
}

/// An escaped attribute value holds no `<`, no quote of either kind and no
/// forbidden control character, so it cannot end its quoted value early, and
/// every `&` in it begins a reference.
pub proof fn law_escaped_attr_is_safe(s: Seq<char>)
    ensures
        forall|i: int| 0 <= i < escaped_attr(s).len() ==> is_attr_safe(#[trigger] escaped_attr(s)[i]),
        refs_ok(escaped_attr(s)),
    decreases s.len(),
{
    lemma_escaped_attr_refs(s);
    if s.len() > 0 {
        let init = s.drop_last();
        law_escaped_attr_is_safe(init);
        let c = s.last();
        let e = escape_attr_char(c);
        if is_forbidden_control(c) {
            lemma_char_ref_chars(c);
        }
        assert forall|i: int| 0 <= i < e.len() implies is_attr_safe(#[trigger] e[i]) by {
            if c == '&' || c == '<' || c == '"' || c == '\'' {
                assert(e[0] == '&');
            }
        }
        let t = escaped_attr(s);
        assert(t == escaped_attr(init) + e);
        assert forall|i: int| 0 <= i < t.len() implies is_attr_safe(#[trigger] t[i]) by {
            if i < escaped_attr(init).len() {
                assert(t[i] == escaped_attr(init)[i]);
            } else {
                assert(t[i] == e[i - escaped_attr(init).len()]);
            }
        }
    }
}

/// Whether every `&` of `t` starts a reference, reading `t` from its start
/// as an XML reader does.
pub open spec fn refs_ok(t: Seq<char>) -> bool
    decreases t.len(),
{
    if t.len() == 0 {
        true
    } else if t[0] == '&' {
        let n = read_first(t).1;
        proof {
            lemma_read_first_len(t);
        }
        n > 1 && refs_ok(t.skip(n as int))
    } else {
        refs_ok(t.drop_first())
    }
}

/// A piece `e` that reads as one character, at least two long when it
/// starts with `&`, followed by text whose `&`s start references.
proof fn lemma_refs_step(e: Seq<char>, rest: Seq<char>, c: char)
    requires
        e.len() >= 1,
        read_first(e + rest) == (c, e.len()),
        e[0] == '&' ==> e.len() > 1,
        refs_ok(rest),
    ensures
        refs_ok(e + rest),
{
    let t = e + rest;
    assert(t[0] == e[0]);
    if t[0] == '&' {
        assert(t.skip(e.len() as int) =~= rest);
    } else {
        assert(e.len() == 1) by {
            if e.len() > 1 {
                assert(e[0] != '&');
            }
        }
        assert(t.drop_first() =~= rest);
    }
}

/// Every `&` of escaped text content starts a reference.
pub proof fn lemma_escaped_text_refs(s: Seq<char>)
    ensures
        refs_ok(escaped_text(s)),
    decreases s.len(),
{
    if s.len() > 0 {
        let rest = s.drop_first();
        assert(s =~= seq![s[0]] + rest);
        lemma_escaped_text_concat(seq![s[0]], rest);
        crate::escape::lemma_escaped_text_single(s[0]);
        lemma_escaped_text_refs(rest);
        lemma_read_text_char(s[0], escaped_text(rest));
        let e = escape_text_char(s[0]);
        if e[0] == '&' {
            assert(e.len() > 1);
        }
        lemma_refs_step(e, escaped_text(rest), s[0]);
    } else {
        assert(escaped_text(s) =~= Seq::<char>::empty());
    }
}

/// Every `&` of an escaped attribute value starts a reference.
pub proof fn lemma_escaped_attr_refs(s: Seq<char>)
    ensures
        refs_ok(escaped_attr(s)),
    decreases s.len(),
{
    if s.len() > 0 {
        let rest = s.drop_first();
        assert(s =~= seq![s[0]] + rest);
        lemma_escaped_attr_concat(seq![s[0]], rest);
        lemma_escaped_attr_single(s[0]);
        lemma_escaped_attr_refs(rest);
        lemma_read_attr_char(s[0], escaped_attr(rest));
        let e = escape_attr_char(s[0]);
        if e[0] == '&' {
            assert(e.len() > 1);
        }
        lemma_refs_step(e, escaped_attr(rest), s[0]);
    } else {
        assert(escaped_attr(s) =~= Seq::<char>::empty());
    }
}

/// Escaping quotes distributes over concatenation.
pub proof fn lemma_escaped_quotes_concat(a: Seq<char>, b: Seq<char>)
    ensures
        escaped_quotes(a + b) == escaped_quotes(a) + escaped_quotes(b),
    decreases b.len(),
{
    if b.len() == 0 {
        assert(a + b =~= a);
        assert(escaped_quotes(b) =~= Seq::<char>::empty());
        assert(escaped_quotes(a) + escaped_quotes(b) =~= escaped_quotes(a));
    } else {
        lemma_escaped_quotes_concat(a, b.drop_last());
        assert((a + b).drop_last() =~= a + b.drop_last());
        assert((a + b).last() == b.last());
        assert(escaped_quotes(a + b) =~= escaped_quotes(a) + escaped_quotes(b));
    }
}

/// Text without quotes is left as it is by quote escaping.
proof fn lemma_escaped_quotes_id(s: Seq<char>)
    requires
        forall|i: int| 0 <= i < s.len() ==> s[i] != '"' && s[i] != '\'',
    ensures
        escaped_quotes(s) == s,
    decreases s.len(),
{
    if s.len() > 0 {
        lemma_escaped_quotes_id(s.drop_last());
        assert(escaped_quotes(s) =~= s);
    } else {
        assert(escaped_quotes(s) =~= s);
    }
}

/// What a rendered text value, escaped for text, then has its quotes
/// escaped, writes for one character.
proof fn lemma_quoted_text_char(c: char)
    ensures
        escaped_quotes(escape_text_char(c)) == if c == '>' {
            gt_ref()
        } else {
            escape_attr_char(c)
        },
{
    let e = escape_text_char(c);
    if c == '&' || c == '<' || c == '>' {
        lemma_escaped_quotes_id(e);
    } else if is_forbidden_control(c) {
        lemma_char_ref_chars(c);
        assert forall|i: int| 0 <= i < e.len() implies e[i] != '"' && e[i] != '\'' by {
            assert(is_attr_safe(e[i]));
        }
        lemma_escaped_quotes_id(e);
    } else {
        assert(seq![c].drop_last() =~= Seq::<char>::empty());
        assert(escaped_quotes(Seq::<char>::empty()) =~= Seq::<char>::empty());
        assert(seq![c].last() == c);
        assert(escaped_quotes(seq![c]) =~= escape_quote_char(c));
    }
}

/// Every `&` of escaped text whose quotes are then escaped starts a
/// reference: a rendered text value written as an attribute value.
pub proof fn lemma_quoted_text_refs(s: Seq<char>)
    ensures
        refs_ok(escaped_quotes(escaped_text(s))),
    decreases s.len(),
{
    if s.len() > 0 {
        let rest = s.drop_first();
        let c = s[0];
        assert(s =~= seq![c] + rest);
        lemma_escaped_text_concat(seq![c], rest);
        crate::escape::lemma_escaped_text_single(c);
        lemma_escaped_quotes_concat(escape_text_char(c), escaped_text(rest));
        lemma_quoted_text_char(c);
        lemma_quoted_text_refs(rest);
        let tail = escaped_quotes(escaped_text(rest));
        let e = escaped_quotes(escape_text_char(c));
        if c == '>' {
            lemma_read_text_char(c, tail);
        } else {
            lemma_read_attr_char(c, tail);
        }
        if e[0] == '&' {
            assert(e.len() > 1);
        }
        lemma_refs_step(e, tail, c);
    } else {
        assert(escaped_text(s) =~= Seq::<char>::empty());
        assert(escaped_quotes(Seq::<char>::empty()) =~= Seq::<char>::empty());
    }
}

} // verus!
