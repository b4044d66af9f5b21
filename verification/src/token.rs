//! The token trees that templates are written in.
//!
//! A template is the token stream handed to the `xml!` macro. The library
//! holds it as plain values: what the parser reads of each token (an
//! identifier's name, a punctuation character, a literal's source text, a
//! group's delimiter, its tokens and their printed text) and an opaque span
//! index that the caller maps back to a source location.
use vstd::prelude::*;

verus! {

/// The delimiter of a token group.
#[derive(Debug, Clone, Copy, PartialEq, Eq, Structural)]
pub enum Delimiter {
    /// `( ... )`
    Parenthesis,
    /// `{ ... }`
    Brace,
    /// `[ ... ]`
    Bracket,
    /// An invisible delimiter.
    Invisible,
}

/// One token tree of a template.
#[derive(Debug)]
pub enum TokenTree {
    /// A delimited group. `text` is the group as printed (delimiters
    /// included), `stream_text` its inner tokens as printed.
    Group { delimiter: Delimiter, stream: Vec<TokenTree>, text: String, stream_text: String, span: usize },
    /// An identifier (a keyword included), as printed.
    Ident { name: String, span: usize },
    /// A punctuation character; `joint` when it is glued to the next one.
    Punct { ch: char, joint: bool, span: usize },
    /// A literal, by its source text (quotes and escapes included).
    Literal { text: String, span: usize },
}

/// The value of a token tree.
pub enum Tok {
    Group { delimiter: Delimiter, stream: Seq<Tok>, text: Seq<char>, stream_text: Seq<char>, span: usize },
    Ident { name: Seq<char>, span: usize },
    Punct { ch: char, joint: bool, span: usize },
    Literal { text: Seq<char>, span: usize },
}

impl TokenTree {
    /// The value of this token tree.
    pub open spec fn tok(&self) -> Tok
        decreases self,
    {
        match self {
            TokenTree::Group { delimiter, stream, text, stream_text, span } => Tok::Group {
                delimiter: *delimiter,
                stream: Seq::new(
                    stream@.len(),
                    |i: int|
                        if 0 <= i < stream@.len() {
                            stream@[i].tok()
                        } else {
                            Tok::Punct { ch: ' ', joint: false, span: 0 }
                        },
                ),
                text: text@,
                stream_text: stream_text@,
                span: *span,
            },
            TokenTree::Ident { name, span } => Tok::Ident { name: name@, span: *span },
            TokenTree::Punct { ch, joint, span } => Tok::Punct { ch: *ch, joint: *joint, span: *span },
            TokenTree::Literal { text, span } => Tok::Literal { text: text@, span: *span },
        }
    }
}

/// The values of a sequence of token trees.
pub open spec fn toks(s: Seq<TokenTree>) -> Seq<Tok> {
    Seq::new(s.len(), |i: int| s[i].tok())
}

impl Tok {
    /// The span index of the token.
    pub open spec fn span(self) -> usize {
        match self {
            Tok::Group { span, .. } => span,
            Tok::Ident { span, .. } => span,
            Tok::Punct { span, .. } => span,
            Tok::Literal { span, .. } => span,
        }
    }

    /// The token as printed.
    pub open spec fn printed(self) -> Seq<char> {
        match self {
            Tok::Group { text, .. } => text,
            Tok::Ident { name, .. } => name,
            Tok::Punct { ch, .. } => seq![ch],
            Tok::Literal { text, .. } => text,
        }
    }

    pub open spec fn is_punct(self, c: char) -> bool {
        self matches Tok::Punct { ch, .. } && ch == c
    }

    pub open spec fn is_group(self, d: Delimiter) -> bool {
        self matches Tok::Group { delimiter, .. } && delimiter == d
    }

    pub open spec fn is_ident(self) -> bool {
        self is Ident
    }

    pub open spec fn is_keyword(self, kw: Seq<char>) -> bool {
        self matches Tok::Ident { name, .. } && name == kw
    }
}

impl TokenTree {
    /// A copy of this token tree.
    pub fn copy(&self) -> (r: TokenTree)
        ensures
            r.tok() == self.tok(),
        decreases self, 1nat,
    {
        match self {
            TokenTree::Group { delimiter, stream, text, stream_text, span } => {
                let s = copy_tokens(stream, 0, stream.len());
                let r = TokenTree::Group {
                    delimiter: *delimiter,
                    stream: s,
                    text: text.clone(),
                    stream_text: stream_text.clone(),
                    span: *span,
                };
                assert(toks(stream@).subrange(0, stream@.len() as int) =~= toks(stream@));
                assert(r.tok()->Group_stream =~= toks(s@));
                assert(self.tok()->Group_stream =~= toks(stream@));
                r
            },
            TokenTree::Ident { name, span } => TokenTree::Ident { name: name.clone(), span: *span },
            TokenTree::Punct { ch, joint, span } => TokenTree::Punct { ch: *ch, joint: *joint, span: *span },
            TokenTree::Literal { text, span } => TokenTree::Literal { text: text.clone(), span: *span },
        }
    }
}

/// The value of a group's stream is the value of its tokens.
pub proof fn lemma_group_stream(t: &TokenTree)
    ensures
        t matches TokenTree::Group { stream, .. } ==> t.tok()->Group_stream == toks(stream@),
{
    if let TokenTree::Group { stream, .. } = t {
        assert(t.tok()->Group_stream =~= toks(stream@));
    }
}

/// Copies of the token trees `v[from..to]`.
pub fn copy_tokens(v: &Vec<TokenTree>, from: usize, to: usize) -> (r: Vec<TokenTree>)
    requires
        from <= to <= v@.len(),
    ensures
        toks(r@) == toks(v@).subrange(from as int, to as int),
    decreases v, 0nat,
{
    let mut r: Vec<TokenTree> = Vec::new();
    let mut i = from;
    while i < to
        invariant
            from <= i <= to <= v@.len(),
            toks(r@) =~= toks(v@).subrange(from as int, i as int),
        decreases to - i,
    {
        proof {
            broadcast use vstd::std_specs::vec::axiom_vec_index_decreases;
            assert(decreases_to!(v => v[i as int]));
        }
        let t = v[i].copy();
        let ghost old_r = r@;
        r.push(t);
        proof {
            assert(r@ =~= old_r.push(t));
            assert(toks(r@) =~= toks(old_r).push(t.tok()));
            assert(toks(v@).subrange(from as int, i + 1) =~= toks(v@).subrange(from as int, i as int).push(v@[i as int].tok()));
        }
        i = i + 1;
    }
    r
}

} // verus!
