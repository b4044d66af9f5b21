//! Character and literal facts that the parser takes from std and syn, and
//! the trimming of bracketed names.
use vstd::prelude::*;

verus! {

/// Whether `c` has the Unicode `Alphabetic` property (`char::is_alphabetic`).
pub uninterp spec fn is_alphabetic(c: char) -> bool;

/// Whether `c` is in one of the Unicode general categories for numbers,
/// `Nd`, `Nl` or `No` (`char::is_numeric`).
pub uninterp spec fn is_numeric(c: char) -> bool;

/// Whether `c` has the Unicode `White_Space` property, which
/// `char::is_whitespace` tests: tab, line feed, vertical tab, form feed,
/// carriage return, space, U+0085, U+00A0, U+1680, U+2000 to U+200A,
/// U+2028, U+2029, U+202F, U+205F and U+3000.
pub open spec fn is_white_space(c: char) -> bool {
    let n = c as u32;
    ||| 0x09 <= n <= 0x0D
    ||| n == 0x20
    ||| n == 0x85
    ||| n == 0xA0
    ||| n == 0x1680
    ||| 0x2000 <= n <= 0x200A
    ||| n == 0x2028
    ||| n == 0x2029
    ||| n == 0x202F
    ||| n == 0x205F
    ||| n == 0x3000
}

fn is_white_space_exec(c: char) -> (r: bool)
    ensures
        r == is_white_space(c),
{
    let n: u32 = c as u32;
    (0x09 <= n && n <= 0x0D) || n == 0x20 || n == 0x85 || n == 0xA0 || n == 0x1680 || (0x2000 <= n && n <= 0x200A)
        || n == 0x2028 || n == 0x2029 || n == 0x202F || n == 0x205F || n == 0x3000
}

/// Dropping the first `k` characters, all white space, before one that is
/// not, is what `trim_start` does.
proof fn lemma_trim_start(s: Seq<char>, k: int)
    requires
        0 <= k <= s.len(),
        forall|m: int| 0 <= m < k ==> is_white_space(#[trigger] s[m]),
        k == s.len() || !is_white_space(s[k]),
    ensures
        trim_start(s) == s.skip(k),
    decreases k,
{
    if k == 0 {
        assert(s.skip(0) =~= s);
    } else {
        let t = s.drop_first();
        assert forall|m: int| 0 <= m < k - 1 implies is_white_space(#[trigger] t[m]) by {
            assert(t[m] == s[m + 1]);
        }
        if k - 1 < t.len() {
            assert(t[k - 1] == s[k]);
        }
        lemma_trim_start(t, k - 1);
        assert(t.skip(k - 1) =~= s.skip(k));
    }
}

/// Keeping the first `m` characters, when all the others are white space
/// and the last kept one is not, is what `trim_end` does.
proof fn lemma_trim_end(s: Seq<char>, m: int)
    requires
        0 <= m <= s.len(),
        forall|q: int| m <= q < s.len() ==> is_white_space(#[trigger] s[q]),
        m == 0 || !is_white_space(s[m - 1]),
    ensures
        trim_end(s) == s.take(m),
    decreases s.len() - m,
{
    if m == s.len() {
        assert(s.take(m) =~= s);
    } else {
        let t = s.drop_last();
        assert forall|q: int| m <= q < t.len() implies is_white_space(#[trigger] t[q]) by {
            assert(t[q] == s[q]);
        }
        if m > 0 {
            assert(t[m - 1] == s[m - 1]);
        }
        assert(is_white_space(s[s.len() - 1]));
        lemma_trim_end(t, m);
        assert(t.take(m) =~= s.take(m));
    }
}

/// Whether `c` is alphabetic or numeric, as `char::is_alphanumeric` is
/// documented to be.
pub open spec fn is_alphanumeric(c: char) -> bool {
    is_alphabetic(c) || is_numeric(c)
}

/// `s` without its leading white space.
pub open spec fn trim_start(s: Seq<char>) -> Seq<char>
    decreases s.len(),
{
    if s.len() > 0 && is_white_space(s[0]) {
        trim_start(s.drop_first())
    } else {
        s
    }
}

/// `s` without its trailing white space.
pub open spec fn trim_end(s: Seq<char>) -> Seq<char>
    decreases s.len(),
{
    if s.len() > 0 && is_white_space(s.last()) {
        trim_end(s.drop_last())
    } else {
        s
    }
}

/// `s` without leading and trailing white space, as `str::trim` is
/// documented to return.
pub open spec fn trimmed(s: Seq<char>) -> Seq<char> {
    trim_end(trim_start(s))
}

/// The value of the string literal whose source text is `text`, when `text`
/// is one (`syn::LitStr`).
pub uninterp spec fn string_literal_value(text: Seq<char>) -> Option<Seq<char>>;

/// The value of the character literal whose source text is `text`, when
/// `text` is one (`syn::LitChar`).
pub uninterp spec fn char_literal_value(text: Seq<char>) -> Option<char>;

/// Calls `char::is_alphabetic`; the result is named `is_alphabetic`.
#[verifier::external_body]
pub(crate) fn char_is_alphabetic(c: char) -> (r: bool)
    ensures
        r == is_alphabetic(c),
{
    c.is_alphabetic()
}

/// Calls `char::is_alphanumeric`, which is documented to hold exactly when
/// `is_alphabetic` or `is_numeric` does.
#[verifier::external_body]
pub(crate) fn char_is_alphanumeric(c: char) -> (r: bool)
    ensures
        r == (is_alphabetic(c) || is_numeric(c)),
{
    c.is_alphanumeric()
}

/// `s` without its leading and trailing white space, as `str::trim`
/// returns it.
pub(crate) fn trim_to_string(s: &str) -> (r: String)
    ensures
        r@ == trimmed(s@),
{
    broadcast use vstd::string::group_string_axioms;

    let n = s.unicode_len();
    let mut i: usize = 0;
    while i < n && is_white_space_exec(s.get_char(i))
        invariant
            i <= n,
            n == s@.len(),
            forall|m: int| 0 <= m < i ==> is_white_space(#[trigger] s@[m]),
        decreases n - i,
    {
        i = i + 1;
    }
    proof {
        lemma_trim_start(s@, i as int);
    }
    let mut j: usize = n;
    while j > i && is_white_space_exec(s.get_char(j - 1))
        invariant
            i <= j <= n,
            n == s@.len(),
            forall|q: int| j <= q < n ==> is_white_space(#[trigger] s@[q]),
        decreases j - i,
    {
        j = j - 1;
    }
    proof {
        let x = s@.skip(i as int);
        assert forall|q: int| (j - i) <= q < x.len() implies is_white_space(#[trigger] x[q]) by {
            assert(x[q] == s@[q + i]);
        }
        if j > i {
            assert(x[j - i - 1] == s@[j - 1]);
        }
        lemma_trim_end(x, (j - i) as int);
        assert(x.take((j - i) as int) =~= s@.subrange(i as int, j as int));
    }
    let mut r = String::new();
    let mut k: usize = i;
    while k < j
        invariant
            i <= k <= j <= n,
            n == s@.len(),
            r@ == s@.subrange(i as int, k as int),
        decreases j - k,
    {
        r.push(s.get_char(k));
        assert(r@ =~= s@.subrange(i as int, k + 1));
        k = k + 1;
    }
    r
}

/// Parses `text` with `syn::parse_str::<syn::LitStr>` and returns the
/// literal's value (`LitStr::value`), or `None` when `text` is not a string
/// literal; the result is named `string_literal_value`.
#[verifier::external_body]
pub(crate) fn parse_string_literal(text: &str) -> (r: Option<String>)
    ensures
        match r {
            Some(v) => string_literal_value(text@) == Some(v@),
            None => string_literal_value(text@) is None,
        },
{
    match syn::parse_str::<syn::LitStr>(text) {
        Ok(lit) => Some(lit.value()),
        Err(_) => None,
    }
}

/// Parses `text` with `syn::parse_str::<syn::LitChar>` and returns the
/// literal's value (`LitChar::value`), or `None` when `text` is not a
/// character literal; the result is named `char_literal_value`.
#[verifier::external_body]
pub(crate) fn parse_char_literal(text: &str) -> (r: Option<char>)
    ensures
        r == char_literal_value(text@),
{
    match syn::parse_str::<syn::LitChar>(text) {
        Ok(lit) => Some(lit.value()),
        Err(_) => None,
    }
}

/// Whether `pat` occurs in `s` at index `i`.
pub open spec fn occurs_at(s: Seq<char>, pat: Seq<char>, i: int) -> bool {
    0 <= i && i + pat.len() <= s.len() && s.subrange(i, i + pat.len()) == pat
}

/// Whether `pat` occurs in `s` (`str::contains`).
pub open spec fn contains(s: Seq<char>, pat: Seq<char>) -> bool {
    exists|i: int| occurs_at(s, pat, i)
}

/// Whether `pat` occurs in `s`.
pub(crate) fn str_contains(s: &str, pat: &str) -> (r: bool)
    ensures
        r == contains(s@, pat@),
{
    broadcast use vstd::string::group_string_axioms;

    let n = s.unicode_len();
    let k = pat.unicode_len();
    if k > n {
        assert forall|i: int| !occurs_at(s@, pat@, i) by {}
        return false;
    }
    let mut i: usize = 0;
    while i <= n - k
        invariant
            n == s@.len(),
            k == pat@.len(),
            k <= n,
            i <= n - k + 1,
            forall|j: int| 0 <= j < i ==> !occurs_at(s@, pat@, j),
        decreases n - i,
    {
        let mut j: usize = 0;
        let mut same = true;
        while j < k
            invariant
                n == s@.len(),
                k == pat@.len(),
                i + k <= n,
                j <= k,
                same == (forall|m: int| 0 <= m < j ==> s@[i + m] == pat@[m]),
            decreases k - j,
        {
            if s.get_char(i + j) != pat.get_char(j) {
                same = false;
            }
            j = j + 1;
        }
        if same {
            assert(s@.subrange(i as int, i + k) =~= pat@);
            assert(occurs_at(s@, pat@, i as int));
            return true;
        }
        assert(!occurs_at(s@, pat@, i as int)) by {
            if s@.subrange(i as int, i + k) == pat@ {
                assert forall|m: int| 0 <= m < k implies s@[i + m] == pat@[m] by {
                    assert(s@.subrange(i as int, i + k)[m] == s@[i + m]);
                }
            }
        }
        i = i + 1;
    }
    assert forall|j: int| !occurs_at(s@, pat@, j) by {
        if 0 <= j < i {
        }
    }
    false
}

} // verus!
