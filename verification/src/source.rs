//! Where the parser takes its tokens from: a lexer over a text, or a list
//! of tokens.

use vstd::prelude::*;
use crate::lexer::Lexer;
use crate::token::{Token, TokenView};

verus! {

/// The views of a list of tokens.
pub open spec fn view_tokens(v: Seq<Token>) -> Seq<TokenView> {
    Seq::new(v.len(), |i: int| v[i]@)
}

/// A source of tokens.
#[derive(Debug)]
pub enum TokenSource {
    /// The tokens of a text, as its lexer scans them.
    Text(Lexer),
    /// The tokens that are left of a list, the next one last.
    List(Vec<Token>),
}

/// A list in the opposite order.
pub fn reversed(tokens: Vec<Token>) -> (r: Vec<Token>)
    ensures
        r.len() == tokens.len(),
        forall|i: int| 0 <= i < r.len() ==> r[i] == tokens[tokens.len() - 1 - i],
{
    let mut rest = tokens;
    let mut r: Vec<Token> = Vec::new();
    while rest.len() > 0
        invariant
            rest.len() + r.len() == tokens.len(),
            forall|i: int| 0 <= i < rest.len() ==> rest[i] == tokens[i],
            forall|i: int| 0 <= i < r.len() ==> r[i] == tokens[tokens.len() - 1 - i],
        decreases rest.len(),
    {
        let token = rest.pop().unwrap();
        r.push(token);
    }
    r
}

impl TokenSource {
    /// The invariant of a source: that of its lexer, if it has one.
    pub closed spec fn wf(&self) -> bool {
        match self {
            TokenSource::Text(lexer) => lexer.wf(),
            TokenSource::List(_) => true,
        }
    }

    /// The tokens that are still to come.
    pub closed spec fn remaining(&self) -> Seq<TokenView> {
        match self {
            TokenSource::Text(lexer) => lexer.remaining(),
            TokenSource::List(tokens) => Seq::new(
                tokens.len() as nat,
                |i: int| tokens[tokens.len() - 1 - i]@,
            ),
        }
    }

    /// The tokens of the text of `lexer`, from where it stands.
    pub fn from_lexer(lexer: Lexer) -> (r: TokenSource)
        requires
            lexer.wf(),
        ensures
            r.wf(),
            r.remaining() == lexer.remaining(),
    {
        TokenSource::Text(lexer)
    }

    /// The tokens of a list, in its order.
    pub fn from_tokens(tokens: Vec<Token>) -> (r: TokenSource)
        ensures
            r.wf(),
            r.remaining() == view_tokens(tokens@),
    {
        let r = TokenSource::List(reversed(tokens));
        assert(r.remaining() =~= view_tokens(tokens@));
        r
    }

    /// The next token, or `None` once the source is used up.
    pub fn next(&mut self) -> (r: Option<Token>)
        requires
            old(self).wf(),
        ensures
            final(self).wf(),
            old(self).remaining().len() == 0 ==> r is None && final(self).remaining().len() == 0,
            old(self).remaining().len() > 0 ==> r is Some && r->Some_0@ == old(self).remaining()[0]
                && final(self).remaining() == old(self).remaining().drop_first(),
    {
        match self {
            TokenSource::Text(lexer) => lexer.next(),
            TokenSource::List(tokens) => {
                let r = tokens.pop();
                assert(old(self).remaining().len() > 0 ==> self.remaining() =~= old(
                    self,
                ).remaining().drop_first());
                r
            },
        }
    }
}

} // verus!
