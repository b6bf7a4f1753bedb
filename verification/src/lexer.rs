//! Lexical analysis: one expression line of text becomes a sequence of tokens.
//!
//! The mathematical model is `spec_lex`, a recursive function over the
//! character sequence; the executable lexer is proved to return exactly its
//! result.  Keywords (`AND`, `OR`, `NOT`, `IMPLIES`, `IFF`, `XOR`) are
//! recognised case-sensitively and are never identifiers; identifiers match
//! `[A-Za-z][A-Za-z0-9_]*`; `(` and `)` group; whitespace separates; any other
//! character is a lexical error at its position.

use vstd::prelude::*;

verus! {

/// The binary connectives, in no particular order.
#[derive(Clone, Copy, Debug, PartialEq, Eq, Structural)]
pub enum BinOp {
    And,
    Or,
    Implies,
    Iff,
    Xor,
}

/// One token of an expression line.
pub enum Token {
    /// A variable identifier, with its literal text.
    Var(String),
    /// A binary connective keyword.
    Op(BinOp),
    /// The unary connective keyword `NOT`.
    Not,
    /// `(`
    LParen,
    /// `)`
    RParen,
}

/// The mathematical value of a token: as `Token`, with the identifier text as
/// a character sequence.
pub enum TokenView {
    Var(Seq<char>),
    Op(BinOp),
    Not,
    LParen,
    RParen,
}

impl View for Token {
    type V = TokenView;

    open spec fn view(&self) -> TokenView {
        match self {
            Token::Var(s) => TokenView::Var(s@),
            Token::Op(op) => TokenView::Op(*op),
            Token::Not => TokenView::Not,
            Token::LParen => TokenView::LParen,
            Token::RParen => TokenView::RParen,
        }
    }
}

impl DeepView for Token {
    type V = TokenView;

    open spec fn deep_view(&self) -> TokenView {
        self.view()
    }
}

/// Whitespace that separates tokens.
pub open spec fn is_ws_char(c: char) -> bool {
    c == ' ' || c == '\t' || c == '\r' || c == '\n'
}

/// An ASCII letter, which may start an identifier.
pub open spec fn is_letter(c: char) -> bool {
    ('A' <= c && c <= 'Z') || ('a' <= c && c <= 'z')
}

/// A character that may continue an identifier.
pub open spec fn is_ident_char(c: char) -> bool {
    is_letter(c) || ('0' <= c && c <= '9') || c == '_'
}

pub(crate) fn is_ws_char_exec(c: char) -> (b: bool)
    ensures
        b == is_ws_char(c),
{
    c == ' ' || c == '\t' || c == '\r' || c == '\n'
}

fn is_letter_exec(c: char) -> (b: bool)
    ensures
        b == is_letter(c),
{
    ('A' <= c && c <= 'Z') || ('a' <= c && c <= 'z')
}

fn is_ident_char_exec(c: char) -> (b: bool)
    ensures
        b == is_ident_char(c),
{
    is_letter_exec(c) || ('0' <= c && c <= '9') || c == '_'
}

/// The position just past the identifier characters starting at `i`.
pub open spec fn ident_end(s: Seq<char>, i: int) -> int
    decreases s.len() - i when 0 <= i <= s.len()
{
    if i < s.len() && is_ident_char(s[i]) {
        ident_end(s, i + 1)
    } else {
        i
    }
}

/// `ident_end` stays within bounds, moves forward over identifier characters,
/// and stops exactly at the first non-identifier character.
pub proof fn lemma_ident_end(s: Seq<char>, i: int)
    requires
        0 <= i <= s.len(),
    ensures
        i <= ident_end(s, i) <= s.len(),
        i < s.len() && is_ident_char(s[i]) ==> ident_end(s, i) > i,
        ident_end(s, i) < s.len() ==> !is_ident_char(s[ident_end(s, i)]),
        forall|k: int| i <= k < ident_end(s, i) ==> is_ident_char(s[k]),
    decreases s.len() - i,
{
    if i < s.len() && is_ident_char(s[i]) {
        lemma_ident_end(s, i + 1);
    }
}

/// The token an identifier-shaped word denotes: a connective keyword where it
/// matches one exactly, otherwise a variable.
pub open spec fn word_token(w: Seq<char>) -> TokenView {
    if w == "AND"@ {
        TokenView::Op(BinOp::And)
    } else if w == "OR"@ {
        TokenView::Op(BinOp::Or)
    } else if w == "NOT"@ {
        TokenView::Not
    } else if w == "IMPLIES"@ {
        TokenView::Op(BinOp::Implies)
    } else if w == "IFF"@ {
        TokenView::Op(BinOp::Iff)
    } else if w == "XOR"@ {
        TokenView::Op(BinOp::Xor)
    } else {
        TokenView::Var(w)
    }
}

/// The mathematical lexer, from position `i` on: the token sequence of the
/// rest of the line, or `Err` with the position of the first unrecognized
/// character.
pub open spec fn spec_lex_from(s: Seq<char>, i: int) -> Result<Seq<TokenView>, int>
    decreases s.len() - i when 0 <= i <= s.len()
{
    if i >= s.len() {
        Ok(Seq::empty())
    } else if is_ws_char(s[i]) {
        spec_lex_from(s, i + 1)
    } else if is_letter(s[i]) {
        let j = ident_end(s, i);
        if i < j <= s.len() {
            match spec_lex_from(s, j) {
                Ok(rest) => Ok(seq![word_token(s.subrange(i, j))] + rest),
                Err(p) => Err(p),
            }
        } else {
            // unreachable: an identifier always spans at least its first letter
            Err(i)
        }
    } else if s[i] == '(' {
        match spec_lex_from(s, i + 1) {
            Ok(rest) => Ok(seq![TokenView::LParen] + rest),
            Err(p) => Err(p),
        }
    } else if s[i] == ')' {
        match spec_lex_from(s, i + 1) {
            Ok(rest) => Ok(seq![TokenView::RParen] + rest),
            Err(p) => Err(p),
        }
    } else {
        Err(i)
    }
}

/// The mathematical lexer for a whole line.
pub open spec fn spec_lex(s: Seq<char>) -> Result<Seq<TokenView>, int> {
    spec_lex_from(s, 0)
}

/// Tokens already emitted, prepended to what the rest of the line lexes to.
pub open spec fn lex_prepend(pre: Seq<TokenView>, r: Result<Seq<TokenView>, int>) -> Result<
    Seq<TokenView>,
    int,
> {
    match r {
        Ok(rest) => Ok(pre + rest),
        Err(p) => Err(p),
    }
}

/// The token an identifier-shaped word denotes, executably.
fn classify_word(w: &str) -> (t: Token)
    ensures
        t@ == word_token(w@),
{
    let ws = String::from_str(w);
    if ws == String::from_str("AND") {
        Token::Op(BinOp::And)
    } else if ws == String::from_str("OR") {
        Token::Op(BinOp::Or)
    } else if ws == String::from_str("NOT") {
        Token::Not
    } else if ws == String::from_str("IMPLIES") {
        Token::Op(BinOp::Implies)
    } else if ws == String::from_str("IFF") {
        Token::Op(BinOp::Iff)
    } else if ws == String::from_str("XOR") {
        Token::Op(BinOp::Xor)
    } else {
        Token::Var(ws)
    }
}

/// Lex one expression line: the token sequence `spec_lex` assigns to it, or
/// `Err` with the position of the first unrecognized character.
pub fn lex(s: &str) -> (r: Result<Vec<Token>, usize>)
    ensures
        r matches Ok(toks) ==> spec_lex(s@) == Ok::<Seq<TokenView>, int>(toks.deep_view()),
        r matches Err(p) ==> spec_lex(s@) == Err::<Seq<TokenView>, int>(p as int),
{
    let n = s.unicode_len();
    let mut toks: Vec<Token> = Vec::new();
    let mut i: usize = 0;
    while i < n
        invariant
            n == s@.len(),
            i <= n,
            lex_prepend(toks.deep_view(), spec_lex_from(s@, i as int)) == spec_lex_from(s@, 0),
        decreases n - i,
    {
        let ghost pre = toks.deep_view();
        let c = s.get_char(i);
        if is_ws_char_exec(c) {
            i = i + 1;
        } else if is_letter_exec(c) {
            let start = i;
            i = i + 1;
            proof {
                lemma_ident_end(s@, start as int);
            }
            while i < n && is_ident_char_exec(s.get_char(i))
                invariant
                    n == s@.len(),
                    start < i <= n,
                    ident_end(s@, start as int) == ident_end(s@, i as int),
                decreases n - i,
            {
                i = i + 1;
            }
            proof {
                assert(ident_end(s@, i as int) == i as int);
                lemma_ident_end(s@, start as int);
            }
            let word = s.substring_char(start, i);
            let tok = classify_word(word);
            proof {
                assert(word@ == s@.subrange(start as int, i as int));
            }
            toks.push(tok);
            proof {
                assert(toks.deep_view() =~= pre + seq![word_token(s@.subrange(start as int, i as int))]);
                assert(spec_lex_from(s@, start as int) == (match spec_lex_from(s@, i as int) {
                    Ok(rest) => Ok::<Seq<TokenView>, int>(
                        seq![word_token(s@.subrange(start as int, i as int))] + rest,
                    ),
                    Err(p) => Err::<Seq<TokenView>, int>(p),
                }));
                if let Ok(rest) = spec_lex_from(s@, i as int) {
                    assert(pre + (seq![word_token(s@.subrange(start as int, i as int))] + rest)
                        =~= toks.deep_view() + rest);
                }
            }
        } else if c == '(' {
            toks.push(Token::LParen);
            i = i + 1;
            proof {
                assert(toks.deep_view() =~= pre + seq![TokenView::LParen]);
                if let Ok(rest) = spec_lex_from(s@, i as int) {
                    assert(pre + (seq![TokenView::LParen] + rest) =~= toks.deep_view() + rest);
                }
            }
        } else if c == ')' {
            toks.push(Token::RParen);
            i = i + 1;
            proof {
                assert(toks.deep_view() =~= pre + seq![TokenView::RParen]);
                if let Ok(rest) = spec_lex_from(s@, i as int) {
                    assert(pre + (seq![TokenView::RParen] + rest) =~= toks.deep_view() + rest);
                }
            }
        } else {
            return Err(i);
        }
    }
    proof {
        assert(spec_lex_from(s@, i as int) == Ok::<Seq<TokenView>, int>(Seq::empty()));
        assert(toks.deep_view() + Seq::<TokenView>::empty() =~= toks.deep_view());
    }
    Ok(toks)
}

} // verus!
