//! XML escape utilities.
//!
//! Per XML 1.0:
//! - text content: `&` `<` `>` must be escaped;
//! - attribute values: `&` `<` `"` must be escaped, `'` should be;
//! - control characters U+0000..U+001F other than tab, newline and carriage
//!   return are forbidden and are written as numeric references `&#xNN;`.
use vstd::prelude::*;

verus! {

/// The control characters that XML 1.0 forbids in documents.
pub open spec fn is_forbidden_control(c: char) -> bool {
    let n = c as u32;
    n <= 0x08 || n == 0x0B || n == 0x0C || (0x0E <= n && n <= 0x1F)
}

/// The upper-case hexadecimal digit of `d` (`d < 16`).
pub open spec fn hex_digit(d: nat) -> char {
    if d < 10 {
        (('0' as u32) + d) as char
    } else {
        (('A' as u32) + (d - 10)) as char
    }
}

/// Upper-case hexadecimal notation of `n`, without leading zeros.
pub open spec fn hex_upper(n: nat) -> Seq<char>
    decreases n,
{
    if n < 16 {
        seq![hex_digit(n)]
    } else {
        hex_upper(n / 16).push(hex_digit(n % 16))
    }
}

/// The numeric character reference `&#xNN;` of `c`.
pub open spec fn char_ref(c: char) -> Seq<char> {
    seq!['&', '#', 'x'] + hex_upper(c as u32 as nat) + seq![';']
}

pub open spec fn amp_ref() -> Seq<char> {
    seq!['&', 'a', 'm', 'p', ';']
}

pub open spec fn lt_ref() -> Seq<char> {
    seq!['&', 'l', 't', ';']
}

pub open spec fn gt_ref() -> Seq<char> {
    seq!['&', 'g', 't', ';']
}

pub open spec fn quot_ref() -> Seq<char> {
    seq!['&', 'q', 'u', 'o', 't', ';']
}

pub open spec fn apos_ref() -> Seq<char> {
    seq!['&', 'a', 'p', 'o', 's', ';']
}

/// How one character of text content is written.
pub open spec fn escape_text_char(c: char) -> Seq<char> {
    if c == '&' {
        amp_ref()
    } else if c == '<' {
        lt_ref()
    } else if c == '>' {
        gt_ref()
    } else if is_forbidden_control(c) {
        char_ref(c)
    } else {
        seq![c]
    }
}

/// How one character of an attribute value is written.
pub open spec fn escape_attr_char(c: char) -> Seq<char> {
    if c == '&' {
        amp_ref()
    } else if c == '<' {
        lt_ref()
    } else if c == '"' {
        quot_ref()
    } else if c == '\'' {
        apos_ref()
    } else if is_forbidden_control(c) {
        char_ref(c)
    } else {
        seq![c]
    }
}

/// How one character of already-escaped markup is written inside a quoted
/// attribute value: only the quotes still need escaping.
pub open spec fn escape_quote_char(c: char) -> Seq<char> {
    if c == '"' {
        quot_ref()
    } else if c == '\'' {
        apos_ref()
    } else {
        seq![c]
    }
}

/// Already-escaped markup `s`, with its quotes escaped.
pub open spec fn escaped_quotes(s: Seq<char>) -> Seq<char>
    decreases s.len(),
{
    if s.len() == 0 {
        seq![]
    } else {
        escaped_quotes(s.drop_last()) + escape_quote_char(s.last())
    }
}

/// Text content `s`, escaped character by character.
pub open spec fn escaped_text(s: Seq<char>) -> Seq<char>
    decreases s.len(),
{
    if s.len() == 0 {
        seq![]
    } else {
        escaped_text(s.drop_last()) + escape_text_char(s.last())
    }
}

/// Attribute value `s`, escaped character by character.
pub open spec fn escaped_attr(s: Seq<char>) -> Seq<char>
    decreases s.len(),
{
    if s.len() == 0 {
        seq![]
    } else {
        escaped_attr(s.drop_last()) + escape_attr_char(s.last())
    }
}

/// Escaping one character of text gives that character's escape.
pub proof fn lemma_escaped_text_single(c: char)
    ensures
        escaped_text(seq![c]) == escape_text_char(c),
{
    assert(seq![c].drop_last() =~= Seq::<char>::empty());
    assert(escaped_text(Seq::<char>::empty()) =~= Seq::<char>::empty());
    assert(escaped_text(seq![c]) =~= escape_text_char(c));
}

/// Escaping text distributes over concatenation.
pub proof fn lemma_escaped_text_concat(a: Seq<char>, b: Seq<char>)
    ensures
        escaped_text(a + b) == escaped_text(a) + escaped_text(b),
    decreases b.len(),
{
    if b.len() == 0 {
        assert(a + b =~= a);
        assert(escaped_text(b) =~= Seq::<char>::empty());
        assert(escaped_text(a) + escaped_text(b) =~= escaped_text(a));
    } else {
        lemma_escaped_text_concat(a, b.drop_last());
        assert((a + b).drop_last() =~= a + b.drop_last());
        assert((a + b).last() == b.last());
        assert(escaped_text(a + b) =~= escaped_text(a) + escaped_text(b));
    }
}

/// Escaping an attribute value distributes over concatenation.
pub proof fn lemma_escaped_attr_concat(a: Seq<char>, b: Seq<char>)
    ensures
        escaped_attr(a + b) == escaped_attr(a) + escaped_attr(b),
    decreases b.len(),
{
    if b.len() == 0 {
        assert(a + b =~= a);
        assert(escaped_attr(b) =~= Seq::<char>::empty());
        assert(escaped_attr(a) + escaped_attr(b) =~= escaped_attr(a));
    } else {
        lemma_escaped_attr_concat(a, b.drop_last());
        assert((a + b).drop_last() =~= a + b.drop_last());
        assert((a + b).last() == b.last());
        assert(escaped_attr(a + b) =~= escaped_attr(a) + escaped_attr(b));
    }
}

/// Appends the reference `&#xNN;` of a forbidden control character.
fn push_char_ref(out: &mut String, c: char)
    requires
        is_forbidden_control(c),
    ensures
        final(out)@ == old(out)@ + char_ref(c),
{
    let n: u32 = c as u32;
    out.push('&');
    out.push('#');
    out.push('x');
    if n >= 16 {
        out.push('1');
    }
    let d: u32 = n % 16;
    let digit: char = if d < 10 {
        ((48 + d) as u8) as char
    } else {
        ((55 + d) as u8) as char
    };
    out.push(digit);
    out.push(';');
    proof {
        let m = c as u32 as nat;
        if m >= 16 {
            assert(hex_upper(m / 16) == seq!['1']) by {
                reveal_with_fuel(hex_upper, 2);
            }
            assert(hex_upper(m) == seq!['1', hex_digit(m % 16)]);
        } else {
            assert(hex_upper(m) == seq![hex_digit(m)]);
        }
        assert(out@ =~= old(out)@ + char_ref(c));
    }
}

/// Append one character of text content to `out`, escaped.
pub(crate) fn escape_text_char_to(ch: char, out: &mut String)
    ensures
        final(out)@ == old(out)@ + escape_text_char(ch),
{
    if ch == '&' {
        out.push_str("&amp;");
        proof { reveal_strlit("&amp;"); }
    } else if ch == '<' {
        out.push_str("&lt;");
        proof { reveal_strlit("&lt;"); }
    } else if ch == '>' {
        out.push_str("&gt;");
        proof { reveal_strlit("&gt;"); }
    } else if is_forbidden_control_exec(ch) {
        push_char_ref(out, ch);
    } else {
        out.push(ch);
    }
    assert(out@ =~= old(out)@ + escape_text_char(ch));
}

/// Append one character of an attribute value to `out`, escaped.
fn escape_attr_char_to(ch: char, out: &mut String)
    ensures
        final(out)@ == old(out)@ + escape_attr_char(ch),
{
    if ch == '&' {
        out.push_str("&amp;");
        proof { reveal_strlit("&amp;"); }
    } else if ch == '<' {
        out.push_str("&lt;");
        proof { reveal_strlit("&lt;"); }
    } else if ch == '"' {
        out.push_str("&quot;");
        proof { reveal_strlit("&quot;"); }
    } else if ch == '\'' {
        out.push_str("&apos;");
        proof { reveal_strlit("&apos;"); }
    } else if is_forbidden_control_exec(ch) {
        push_char_ref(out, ch);
    } else {
        out.push(ch);
    }
    assert(out@ =~= old(out)@ + escape_attr_char(ch));
}

/// Append `s` to `out`, escaping for XML text content: `&`, `<` and `>`
/// become entity references, forbidden control characters become `&#xNN;`,
/// every other character (quotes, tab, newline, carriage return included) is
/// copied as it is.
pub fn escape_text(s: &str, out: &mut String)
    ensures
        final(out)@ == old(out)@ + escaped_text(s@),
{
    broadcast use vstd::string::group_string_axioms;

    let ghost start = out@;
    for ch in it: s.chars()
        invariant
            it.seq() == s@,
            out@ == start + escaped_text(s@.take(it.index() as int)),
    {
        escape_text_char_to(ch, out);
        proof {
            let i = it.index() as int;
            assert(s@.take(i + 1).drop_last() =~= s@.take(i));
            assert(s@.take(i + 1).last() == ch);
        }
    }
    proof {
        assert(s@.take(s@.len() as int) =~= s@);
    }
}

/// Append `s` to `out`, escaping for XML attribute values: `&`, `<`, `"` and
/// `'` become entity references, forbidden control characters become
/// `&#xNN;`, every other character is copied as it is.
pub fn escape_attr(s: &str, out: &mut String)
    ensures
        final(out)@ == old(out)@ + escaped_attr(s@),
{
    broadcast use vstd::string::group_string_axioms;

    let ghost start = out@;
    for ch in it: s.chars()
        invariant
            it.seq() == s@,
            out@ == start + escaped_attr(s@.take(it.index() as int)),
    {
        escape_attr_char_to(ch, out);
        proof {
            let i = it.index() as int;
            assert(s@.take(i + 1).drop_last() =~= s@.take(i));
            assert(s@.take(i + 1).last() == ch);
        }
    }
    proof {
        assert(s@.take(s@.len() as int) =~= s@);
    }
}

/// Append already-escaped markup `s` to `out` as the content of a quoted
/// attribute value: `"` and `'` become entity references, every other
/// character (an `&` that starts a reference included) is copied as it is.
pub fn escape_quotes(s: &str, out: &mut String)
    ensures
        final(out)@ == old(out)@ + escaped_quotes(s@),
{
    broadcast use vstd::string::group_string_axioms;

    let ghost start = out@;
    for ch in it: s.chars()
        invariant
            it.seq() == s@,
            out@ == start + escaped_quotes(s@.take(it.index() as int)),
    {
        if ch == '"' {
            out.push_str("&quot;");
            proof { reveal_strlit("&quot;"); }
        } else if ch == '\'' {
            out.push_str("&apos;");
            proof { reveal_strlit("&apos;"); }
        } else {
            out.push(ch);
        }
        proof {
            let i = it.index() as int;
            assert(s@.take(i + 1).drop_last() =~= s@.take(i));
            assert(s@.take(i + 1).last() == ch);
            assert(out@ =~= start + escaped_quotes(s@.take(i + 1)));
        }
    }
    proof {
        assert(s@.take(s@.len() as int) =~= s@);
    }
}

fn is_forbidden_control_exec(c: char) -> (r: bool)
    ensures
        r == is_forbidden_control(c),
{
    let n: u32 = c as u32;
    n <= 0x08 || n == 0x0B || n == 0x0C || (0x0E <= n && n <= 0x1F)
}

} // verus!
