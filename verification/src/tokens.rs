//! The token stream that the view parser consumes.
//!
//! Tokens arrive already lexed: identifiers, punctuation marks, literals, and
//! recursively nested delimited groups.  A group holds its contents
//! structurally, so balanced-delimiter scanning is free at the parser's level
//! of reasoning.

use vstd::prelude::*;

verus! {

/// Delimiter of a nested token group.
#[derive(Clone, Copy, PartialEq, Eq, Structural, Debug)]
pub enum Delim {
    Paren,
    Bracket,
    Brace,
}

/// The punctuation marks that the view grammar inspects.  `ModSep` is the
/// path separator `::`; `FatArrow` is `=>`; `Equals` is `=`; `Pound` is `#`.
#[derive(Clone, Copy, PartialEq, Eq, Structural, Debug)]
pub enum Punct {
    Colon,
    Comma,
    ModSep,
    FatArrow,
    At,
    Equals,
    Pound,
    Lt,
    Gt,
}

/// One lexical token.  `LitStr` holds the unescaped contents of a plain
/// (cooked) string literal; `Other` holds the verbatim text of any atomic
/// token that the grammar does not inspect (numeric literals, remaining
/// punctuation, and so on).
#[derive(Debug, PartialEq)]
pub enum Token {
    Ident(String),
    Punct(Punct),
    LitStr(String),
    Other(String),
    Group(Delim, Vec<Token>),
}

/// Mathematical model of a token: strings become character sequences and
/// group contents become sequences of modelled tokens.
pub enum TokenV {
    Ident(Seq<char>),
    Punct(Punct),
    LitStr(Seq<char>),
    Other(Seq<char>),
    Group(Delim, Seq<TokenV>),
}

/// The model of a token.
pub open spec fn token_view(t: Token) -> TokenV
    decreases t,
{
    match t {
        Token::Ident(s) => TokenV::Ident(s@),
        Token::Punct(p) => TokenV::Punct(p),
        Token::LitStr(s) => TokenV::LitStr(s@),
        Token::Other(s) => TokenV::Other(s@),
        Token::Group(d, ts) => {
            proof {
                assert(decreases_to!(t => t->Group_1));
                assert(decreases_to!(ts => ts@));
            }
            TokenV::Group(d, toks_view(ts@))
        },
    }
}

/// The model of a token sequence.
pub open spec fn toks_view(ts: Seq<Token>) -> Seq<TokenV>
    decreases ts,
{
    if ts.len() == 0 {
        Seq::empty()
    } else {
        seq![token_view(ts[0])] + toks_view(ts.subrange(1, ts.len() as int))
    }
}

impl View for Token {
    type V = TokenV;

    open spec fn view(&self) -> TokenV {
        token_view(*self)
    }
}

/// `toks_view` maps the sequence pointwise.
pub proof fn lemma_toks_view(ts: Seq<Token>)
    ensures
        toks_view(ts).len() == ts.len(),
        forall|i: int| 0 <= i < ts.len() ==> toks_view(ts)[i] == token_view(#[trigger] ts[i]),
    decreases ts,
{
    if ts.len() > 0 {
        let sub = ts.subrange(1, ts.len() as int);
        lemma_toks_view(sub);
        assert forall|i: int| 0 <= i < ts.len() implies toks_view(ts)[i] == token_view(
            #[trigger] ts[i],
        ) by {
            if i > 0 {
                assert(sub[i - 1] == ts[i]);
                assert(toks_view(ts)[i] == toks_view(sub)[i - 1]);
            }
        }
    }
}

/// Structural size of a token: one for the token itself plus the sizes of a
/// group's contents.  Serves as the termination measure of the parser.
pub open spec fn tok_size(t: TokenV) -> nat
    decreases t,
{
    match t {
        TokenV::Group(_, ts) => 1 + seq_size(ts),
        _ => 1,
    }
}

/// Total structural size of a token sequence.
pub open spec fn seq_size(s: Seq<TokenV>) -> nat
    decreases s,
{
    if s.len() == 0 {
        0
    } else {
        tok_size(s[0]) + seq_size(s.subrange(1, s.len() as int))
    }
}

/// Structural size of the suffix of `s` that starts at `pos`.
pub open spec fn size_from(s: Seq<TokenV>, pos: int) -> nat {
    if 0 <= pos <= s.len() {
        seq_size(s.subrange(pos, s.len() as int))
    } else {
        0
    }
}

/// Every token has size at least one.
pub proof fn lemma_tok_size_pos(t: TokenV)
    ensures
        tok_size(t) >= 1,
{
}

/// Peeling one token off the suffix at `pos` leaves the suffix at `pos + 1`.
pub proof fn lemma_size_from_step(s: Seq<TokenV>, pos: int)
    requires
        0 <= pos < s.len(),
    ensures
        size_from(s, pos) == tok_size(s[pos]) + size_from(s, pos + 1),
{
    let sub = s.subrange(pos, s.len() as int);
    assert(sub[0] == s[pos]);
    assert(sub.subrange(1, sub.len() as int) =~= s.subrange(pos + 1, s.len() as int));
}

/// Moving the start of the suffix forward only shrinks its size, and strictly
/// so when at least one token is passed over.
pub proof fn lemma_size_from_mono(s: Seq<TokenV>, a: int, b: int)
    requires
        0 <= a <= b <= s.len(),
    ensures
        size_from(s, b) <= size_from(s, a),
        a < b ==> size_from(s, b) < size_from(s, a),
    decreases b - a,
{
    if a < b {
        lemma_size_from_step(s, a);
        lemma_tok_size_pos(s[a]);
        lemma_size_from_mono(s, a + 1, b);
    }
}

/// The contents of a group token are strictly smaller than any suffix that
/// contains the group.
pub proof fn lemma_group_size(s: Seq<TokenV>, pos: int, d: Delim, ts: Seq<TokenV>)
    requires
        0 <= pos < s.len(),
        s[pos] == TokenV::Group(d, ts),
    ensures
        seq_size(ts) < size_from(s, pos),
        size_from(ts, 0) < size_from(s, pos),
{
    lemma_size_from_step(s, pos);
    assert(ts.subrange(0, ts.len() as int) =~= ts);
}

/// Appending one token to a span appends its model to the span's model.
pub proof fn lemma_toks_view_push(s: Seq<Token>, t: Token)
    ensures
        toks_view(s.push(t)) == toks_view(s).push(token_view(t)),
{
    lemma_toks_view(s);
    lemma_toks_view(s.push(t));
    assert forall|i: int| 0 <= i < s.len() + 1 implies toks_view(s.push(t))[i] == toks_view(
        s,
    ).push(token_view(t))[i] by {
        if i < s.len() {
            assert(s.push(t)[i] == s[i]);
        } else {
            assert(s.push(t)[i] == t);
        }
    }
    assert(toks_view(s.push(t)) =~= toks_view(s).push(token_view(t)));
}

impl Clone for Token {
    /// A deep copy: the copy has the same model as the source value.
    fn clone(&self) -> (r: Self)
        ensures
            r@ == self@,
        decreases *self,
    {
        match self {
            Token::Ident(s) => Token::Ident(s.clone()),
            Token::Punct(p) => Token::Punct(*p),
            Token::LitStr(s) => Token::LitStr(s.clone()),
            Token::Other(s) => Token::Other(s.clone()),
            Token::Group(d, ts) => {
                proof {
                    assert(decreases_to!(*self => *ts));
                    assert(decreases_to!(*ts => ts@));
                }
                Token::Group(*d, clone_toks(ts))
            },
        }
    }
}

/// Deep copy of a token span.
pub fn clone_toks(ts: &Vec<Token>) -> (r: Vec<Token>)
    ensures
        toks_view(r@) == toks_view(ts@),
        r@.len() == ts@.len(),
    decreases ts@,
{
    let mut v: Vec<Token> = Vec::new();
    let mut i: usize = 0;
    while i < ts.len()
        invariant
            i <= ts.len(),
            v@.len() == i as int,
            forall|k: int| 0 <= k < i ==> v@[k]@ == ts@[k]@,
        decreases ts.len() - i,
    {
        proof {
            assert(decreases_to!(ts@ => ts@[i as int]));
        }
        let t = ts[i].clone();
        v.push(t);
        i += 1;
    }
    proof {
        lemma_toks_view(v@);
        lemma_toks_view(ts@);
        assert forall|k: int| 0 <= k < v@.len() implies toks_view(v@)[k] == toks_view(ts@)[k] by {
            assert(v@[k]@ == ts@[k]@);
        }
        assert(toks_view(v@) =~= toks_view(ts@));
    }
    v
}

} // verus!
