//! The lexer: a maximal-munch scanner from characters to tokens.

use vstd::prelude::*;
use vstd::string::*;
use vstd::utf8::is_ascii_chars;
use crate::token::{
    delimiter, double_operator, keyword, single_operator, tt_delimiters, tt_double_operators,
    tt_keywords, tt_single_operators, Token, TokenKind, TokenType, TokenView,
};

verus! {

/// A class of characters that a run is made of.
#[derive(Debug, Clone, Copy, PartialEq, Eq)]
pub enum CharClass {
    /// Space, tab, line feed, form feed, carriage return.
    Space,
    /// The letters `a` to `z` and `A` to `Z`.
    Letter,
    /// The digits `0` to `9`.
    Digit,
    /// A letter or a digit.
    Alphanumeric,
}

impl CharClass {
    /// Whether `c` belongs to this class.
    pub open spec fn holds(self, c: char) -> bool {
        match self {
            CharClass::Space => c == ' ' || c == '\t' || c == '\n' || c == '\x0C' || c == '\r',
            CharClass::Letter => ('a' <= c && c <= 'z') || ('A' <= c && c <= 'Z'),
            CharClass::Digit => '0' <= c && c <= '9',
            CharClass::Alphanumeric => {
                ('a' <= c && c <= 'z') || ('A' <= c && c <= 'Z') || ('0' <= c && c <= '9')
            },
        }
    }

    /// Whether `c` belongs to this class.
    pub fn contains(self, c: char) -> (r: bool)
        ensures
            r == self.holds(c),
    {
        match self {
            CharClass::Space => c == ' ' || c == '\t' || c == '\n' || c == '\x0C' || c == '\r',
            CharClass::Letter => ('a' <= c && c <= 'z') || ('A' <= c && c <= 'Z'),
            CharClass::Digit => '0' <= c && c <= '9',
            CharClass::Alphanumeric => {
                ('a' <= c && c <= 'z') || ('A' <= c && c <= 'Z') || ('0' <= c && c <= '9')
            },
        }
    }
}

/// The character at offset `i` of `s`, or NUL past its end.
pub open spec fn char_at(s: Seq<char>, i: int) -> char {
    if 0 <= i < s.len() {
        s[i]
    } else {
        '\0'
    }
}

/// The first offset at or after `pos` whose character is not of `class`,
/// or the length of `s` if there is none.
pub open spec fn run_end(s: Seq<char>, pos: int, class: CharClass) -> int
    decreases s.len() - pos,
{
    if 0 <= pos < s.len() && class.holds(s[pos]) {
        run_end(s, pos + 1, class)
    } else {
        pos
    }
}

/// What scanning one token yields: the token, and the offset after it.
pub ghost struct Scan {
    pub token: TokenView,
    pub end: int,
}

/// The token that starts at the first character at or after `pos` that is
/// not white space. The end of the text gives `Eof` and stops there; a
/// character that starts no token gives `Illegal` and is passed over. Words
/// and numbers take as many characters as they can.
pub open spec fn scan_token(s: Seq<char>, pos: int) -> Scan {
    let start = run_end(s, pos, CharClass::Space);
    let c0 = char_at(s, start);
    let c1 = char_at(s, start + 1);
    if start >= s.len() {
        Scan {
            token: TokenView { kind: TokenKind::Eof, span: (start as nat, start as nat) },
            end: start,
        }
    } else if CharClass::Letter.holds(c0) {
        let end = run_end(s, start, CharClass::Alphanumeric);
        let word = s.subrange(start, end);
        let kind = match keyword(word) {
            Some(k) => k,
            None => TokenKind::Ident(word),
        };
        Scan { token: TokenView { kind, span: (start as nat, end as nat) }, end }
    } else if CharClass::Digit.holds(c0) {
        let end = run_end(s, start, CharClass::Digit);
        let kind = TokenKind::Int(s.subrange(start, end));
        Scan { token: TokenView { kind, span: (start as nat, end as nat) }, end }
    } else if double_operator(c0, c1) is Some {
        let kind = double_operator(c0, c1)->Some_0;
        Scan { token: TokenView { kind, span: (start as nat, (start + 2) as nat) }, end: start + 2 }
    } else if single_operator(c0) is Some {
        let kind = single_operator(c0)->Some_0;
        Scan { token: TokenView { kind, span: (start as nat, (start + 1) as nat) }, end: start + 1 }
    } else if delimiter(c0) is Some {
        let kind = delimiter(c0)->Some_0;
        Scan { token: TokenView { kind, span: (start as nat, (start + 1) as nat) }, end: start + 1 }
    } else {
        let kind = TokenKind::Illegal(c0);
        Scan { token: TokenView { kind, span: (start as nat, (start + 1) as nat) }, end: start + 1 }
    }
}

/// The tokens of `s` from offset `pos` on, up to and without the first `Eof`.
pub open spec fn tokens_from(s: Seq<char>, pos: int) -> Seq<TokenView>
    decreases s.len() - pos,
{
    let sc = scan_token(s, pos);
    if 0 <= pos && !(sc.token.kind is Eof) {
        proof {
            lemma_scan_advances(s, pos);
        }
        seq![sc.token] + tokens_from(s, sc.end)
    } else {
        Seq::empty()
    }
}

/// The tokens of a whole text.
pub open spec fn tokens_of(s: Seq<char>) -> Seq<TokenView> {
    tokens_from(s, 0)
}

/// A run starts where it is asked to and ends within the text; all its
/// characters are of the class, and the character after it is not.
pub proof fn lemma_run_end(s: Seq<char>, pos: int, class: CharClass)
    requires
        0 <= pos <= s.len(),
    ensures
        pos <= run_end(s, pos, class) <= s.len(),
        forall|i: int| pos <= i < run_end(s, pos, class) ==> class.holds(#[trigger] s[i]),
        run_end(s, pos, class) < s.len() ==> !class.holds(s[run_end(s, pos, class)]),
        run_end(s, run_end(s, pos, class), class) == run_end(s, pos, class),
    decreases s.len() - pos,
{
    if pos < s.len() && class.holds(s[pos]) {
        lemma_run_end(s, pos + 1, class);
    }
}

/// Scanning a token that is not `Eof` moves forward, and no scan leaves the
/// text.
pub proof fn lemma_scan_advances(s: Seq<char>, pos: int)
    requires
        0 <= pos,
    ensures
        !(scan_token(s, pos).token.kind is Eof) ==> pos < scan_token(s, pos).end <= s.len(),
        scan_token(s, pos).token.kind is Eof ==> pos <= scan_token(s, pos).end,
        scan_token(s, pos).token.kind is Eof ==> scan_token(s, scan_token(s, pos).end)
            == scan_token(s, pos),
{
    if pos <= s.len() {
        lemma_run_end(s, pos, CharClass::Space);
        let start = run_end(s, pos, CharClass::Space);
        lemma_run_end(s, start, CharClass::Alphanumeric);
        lemma_run_end(s, start, CharClass::Digit);
        lemma_keyword_kinds(s.subrange(start, run_end(s, start, CharClass::Alphanumeric)));
    }
}

/// No keyword is `Eof`, and none carries a payload.
pub proof fn lemma_keyword_kinds(w: Seq<char>)
    ensures
        match keyword(w) {
            Some(k) => k == TokenKind::Function || k == TokenKind::Let || k == TokenKind::True
                || k == TokenKind::False || k == TokenKind::If || k == TokenKind::Else || k
                == TokenKind::Return,
            None => true,
        },
{
}

/// A token that is scanned lies in the text after where the scan started,
/// and holds at least one character; a word or a number is the text at its
/// place.
pub proof fn lemma_scanned_token(s: Seq<char>, pos: int)
    requires
        0 <= pos,
        !(scan_token(s, pos).token.kind is Eof),
    ensures
        pos <= scan_token(s, pos).token.span.0 < scan_token(s, pos).token.span.1 <= s.len(),
        scan_token(s, pos).end == scan_token(s, pos).token.span.1,
        match scan_token(s, pos).token.kind {
            TokenKind::Ident(word) => word == s.subrange(
                scan_token(s, pos).token.span.0 as int,
                scan_token(s, pos).token.span.1 as int,
            ),
            TokenKind::Int(digits) => digits == s.subrange(
                scan_token(s, pos).token.span.0 as int,
                scan_token(s, pos).token.span.1 as int,
            ),
            _ => true,
        },
{
    if pos <= s.len() {
        lemma_run_end(s, pos, CharClass::Space);
        let start = run_end(s, pos, CharClass::Space);
        lemma_run_end(s, start, CharClass::Alphanumeric);
        lemma_run_end(s, start, CharClass::Digit);
        lemma_keyword_kinds(s.subrange(start, run_end(s, start, CharClass::Alphanumeric)));
    }
}

/// The tokens of a text stand in it in their order: each lies in the text,
/// after where the scan started and before the token that follows it.
pub proof fn lemma_tokens_in_order(s: Seq<char>, pos: int, i: int)
    requires
        0 <= pos,
        0 <= i < tokens_from(s, pos).len(),
    ensures
        pos <= tokens_from(s, pos)[i].span.0 < tokens_from(s, pos)[i].span.1 <= s.len(),
        i + 1 < tokens_from(s, pos).len() ==> tokens_from(s, pos)[i].span.1 <= tokens_from(
            s,
            pos,
        )[i + 1].span.0,
        !(tokens_from(s, pos)[i].kind is Eof),
    decreases s.len() - pos,
{
    let sc = scan_token(s, pos);
    lemma_scanned_token(s, pos);
    lemma_scan_advances(s, pos);
    let rest = tokens_from(s, sc.end);
    assert(tokens_from(s, pos) == seq![sc.token] + rest);
    if i > 0 {
        lemma_tokens_in_order(s, sc.end, i - 1);
        assert(tokens_from(s, pos)[i] == rest[i - 1]);
        if i + 1 < tokens_from(s, pos).len() {
            assert(tokens_from(s, pos)[i + 1] == rest[i]);
        }
    } else if 1 < tokens_from(s, pos).len() {
        lemma_tokens_in_order(s, sc.end, 0);
        assert(tokens_from(s, pos)[1] == rest[0]);
    }
}

/// The characters of a string, in order.
fn chars_of(input: &String) -> (r: Vec<char>)
    ensures
        r@ == input@,
{
    let mut r: Vec<char> = Vec::new();
    let text = input.as_str();
    for c in it: text.chars()
        invariant
            r@ == it.seq().take(it.index() as int),
            it.seq() == input@,
    {
        r.push(c);
    }
    r
}

/// A lexer over a text. It hands out the tokens one at a time.
#[derive(Debug)]
pub struct Lexer {
    input: String,
    chars: Vec<char>,
    ascii: bool,
    start_pos: usize,
    end_pos: usize,
}

impl Lexer {
    /// The invariant of a lexer: it holds the characters of its text, and its
    /// two offsets lie in it, the start of the last token before its end.
    pub closed spec fn wf(&self) -> bool {
        &&& self.chars@ == self.input@
        &&& self.ascii == is_ascii_chars(self.input@)
        &&& self.start_pos <= self.end_pos <= self.chars.len()
    }

    /// The text that is being scanned.
    pub closed spec fn source(&self) -> Seq<char> {
        self.chars@
    }

    /// The offset of the first character that no token has taken yet.
    pub closed spec fn offset(&self) -> int {
        self.end_pos as int
    }

    /// The offset at which the token that was scanned last starts.
    pub closed spec fn token_start(&self) -> int {
        self.start_pos as int
    }

    /// The tokens that are still to come.
    pub open spec fn remaining(&self) -> Seq<TokenView> {
        tokens_from(self.source(), self.offset())
    }

    /// A lexer at the start of `input`.
    pub fn from_string(input: String) -> (r: Lexer)
        ensures
            r.wf(),
            r.source() == input@,
            r.offset() == 0,
            r.token_start() == 0,
            r.remaining() == tokens_of(input@),
    {
        let chars = chars_of(&input);
        let ascii = input.is_ascii();
        Lexer { input, chars, ascii, start_pos: 0, end_pos: 0 }
    }

    /// The character at offset `i`, or NUL past the end of the text.
    fn char_at(&self, i: usize) -> (c: char)
        ensures
            c == char_at(self.chars@, i as int),
    {
        if i < self.chars.len() {
            self.chars[i]
        } else {
            '\0'
        }
    }

    /// Moves the end offset by one character, unless it is at the end of the
    /// text.
    fn step_one(&mut self)
        requires
            old(self).wf(),
        ensures
            final(self).wf(),
            final(self).chars == old(self).chars,
            final(self).start_pos == old(self).start_pos,
            final(self).end_pos == if old(self).end_pos < old(self).chars.len() {
                old(self).end_pos + 1
            } else {
                old(self).end_pos as int
            },
    {
        if self.end_pos >= self.chars.len() {
            return ;
        }
        self.end_pos += 1;
    }

    /// Moves the end offset over the run of `class` that starts there, and
    /// returns the offsets from the start of the token to the new end.
    fn step_until(&mut self, class: CharClass) -> (r: (usize, usize))
        requires
            old(self).wf(),
        ensures
            final(self).wf(),
            final(self).chars == old(self).chars,
            final(self).start_pos == old(self).start_pos,
            final(self).end_pos == run_end(old(self).chars@, old(self).end_pos as int, class),
            r == (final(self).start_pos, final(self).end_pos),
    {
        while self.end_pos < self.chars.len() && class.contains(self.chars[self.end_pos])
            invariant
                self.wf(),
                self.chars == old(self).chars,
                self.start_pos == old(self).start_pos,
                run_end(self.chars@, self.end_pos as int, class) == run_end(
                    old(self).chars@,
                    old(self).end_pos as int,
                    class,
                ),
            decreases self.chars.len() - self.end_pos,
        {
            self.step_one();
        }
        (self.start_pos, self.end_pos)
    }

    /// Passes over white space.
    fn skip_ws(&mut self)
        requires
            old(self).wf(),
        ensures
            final(self).wf(),
            final(self).chars == old(self).chars,
            final(self).start_pos == old(self).start_pos,
            final(self).end_pos == run_end(
                old(self).chars@,
                old(self).end_pos as int,
                CharClass::Space,
            ),
    {
        let _ = self.step_until(CharClass::Space);
    }

    /// The characters of the text from offset `from` to offset `to`.
    fn lexeme(&self, from: usize, to: usize) -> (r: &str)
        requires
            self.wf(),
            from <= to <= self.chars.len(),
        ensures
            r@ == self.chars@.subrange(from as int, to as int),
    {
        if self.ascii {
            self.input.as_str().substring_ascii(from, to)
        } else {
            self.input.as_str().substring_char(from, to)
        }
    }

    /// Takes the word that starts at the end offset.
    fn ident(&mut self) -> (r: String)
        requires
            old(self).wf(),
            old(self).start_pos == old(self).end_pos,
        ensures
            final(self).wf(),
            final(self).chars == old(self).chars,
            final(self).start_pos == old(self).start_pos,
            final(self).end_pos == run_end(
                old(self).chars@,
                old(self).end_pos as int,
                CharClass::Alphanumeric,
            ),
            r@ == old(self).chars@.subrange(old(self).end_pos as int, final(self).end_pos as int),
    {
        let (from, to) = self.step_until(CharClass::Alphanumeric);
        String::from_str(self.lexeme(from, to))
    }

    /// Takes the digits that start at the end offset.
    fn digits(&mut self) -> (r: String)
        requires
            old(self).wf(),
            old(self).start_pos == old(self).end_pos,
        ensures
            final(self).wf(),
            final(self).chars == old(self).chars,
            final(self).start_pos == old(self).start_pos,
            final(self).end_pos == run_end(
                old(self).chars@,
                old(self).end_pos as int,
                CharClass::Digit,
            ),
            r@ == old(self).chars@.subrange(old(self).end_pos as int, final(self).end_pos as int),
    {
        let (from, to) = self.step_until(CharClass::Digit);
        String::from_str(self.lexeme(from, to))
    }

    /// A token of the given type that spans the two offsets.
    fn create_token(&self, tt: TokenType) -> (r: Token)
        ensures
            r.kind == tt,
            r.span == (self.start_pos, self.end_pos),
    {
        Token::new(tt, (self.start_pos, self.end_pos))
    }

    /// Scans the next token. At the end of the text it is `Eof`, again and
    /// again.
    pub fn next_token(&mut self) -> (r: Token)
        requires
            old(self).wf(),
        ensures
            final(self).wf(),
            final(self).source() == old(self).source(),
            r@ == scan_token(old(self).source(), old(self).offset()).token,
            final(self).offset() == scan_token(old(self).source(), old(self).offset()).end,
            final(self).token_start() == r@.span.0,
    {
        proof {
            lemma_run_end(self.chars@, self.end_pos as int, CharClass::Space);
        }
        self.skip_ws();
        self.start_pos = self.end_pos;
        proof {
            lemma_run_end(self.chars@, self.start_pos as int, CharClass::Alphanumeric);
            lemma_run_end(self.chars@, self.start_pos as int, CharClass::Digit);
        }
        if self.start_pos >= self.chars.len() {
            return self.create_token(TokenType::Eof);
        }
        let c0 = self.char_at(self.start_pos);
        let c1 = self.char_at(self.start_pos + 1);
        if CharClass::Letter.contains(c0) {
            let s = self.ident();
            if let Some(kw) = tt_keywords(s.as_str()) {
                self.create_token(kw)
            } else {
                self.create_token(TokenType::Ident(s))
            }
        } else if CharClass::Digit.contains(c0) {
            let s = self.digits();
            self.create_token(TokenType::Int(s))
        } else if let Some(tt) = tt_double_operators(c0, c1) {
            self.end_pos += 2;
            self.create_token(tt)
        } else if let Some(tt) = tt_single_operators(c0) {
            self.end_pos += 1;
            self.create_token(tt)
        } else if let Some(tt) = tt_delimiters(c0) {
            self.end_pos += 1;
            self.create_token(tt)
        } else {
            self.end_pos += 1;
            self.create_token(TokenType::Illegal(c0))
        }
    }

    /// The next token, or `None` once the text is used up.
    pub fn next(&mut self) -> (r: Option<Token>)
        requires
            old(self).wf(),
        ensures
            final(self).wf(),
            final(self).source() == old(self).source(),
            old(self).remaining().len() == 0 ==> r is None && final(self).remaining().len() == 0,
            old(self).remaining().len() > 0 ==> r is Some && r->Some_0@ == old(self).remaining()[0]
                && final(self).remaining() == old(self).remaining().drop_first()
                && final(self).token_start() == r->Some_0@.span.0,
    {
        proof {
            lemma_scan_advances(self.chars@, self.end_pos as int);
        }
        let token = self.next_token();
        match token.kind {
            TokenType::Eof => None,
            _ => {
                assert(final(self).remaining() =~= old(self).remaining().drop_first());
                Some(token)
            },
        }
    }
}

} // verus!
