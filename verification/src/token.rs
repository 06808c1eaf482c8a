//! Tokens: the unit of exchange between the lexer and the parser.

use vstd::prelude::*;
use vstd::string::*;

verus! {

/// What a token is. Identifiers and integer literals carry their lexeme; an
/// illegal token carries the character that no rule accepts.
#[derive(Debug, PartialEq, Eq)]
pub enum TokenType {
    Illegal(char),
    Eof,
    Ident(String),
    /// The digits stay text until evaluation or compilation reads them.
    Int(String),
    Assign,
    Plus,
    Minus,
    Asterisk,
    Slash,
    LT,
    GT,
    Bang,
    Eq,
    NotEq,
    Comma,
    Semicolon,
    Lparen,
    Rparen,
    Lbrace,
    Rbrace,
    Function,
    Let,
    True,
    False,
    If,
    Else,
    Return,
}

/// The mathematical value of a [`TokenType`]: the same variants, with lexemes
/// as sequences of characters.
pub ghost enum TokenKind {
    Illegal(char),
    Eof,
    Ident(Seq<char>),
    Int(Seq<char>),
    Assign,
    Plus,
    Minus,
    Asterisk,
    Slash,
    LT,
    GT,
    Bang,
    Eq,
    NotEq,
    Comma,
    Semicolon,
    Lparen,
    Rparen,
    Lbrace,
    Rbrace,
    Function,
    Let,
    True,
    False,
    If,
    Else,
    Return,
}

impl View for TokenType {
    type V = TokenKind;

    open spec fn view(&self) -> TokenKind {
        match self {
            TokenType::Illegal(c) => TokenKind::Illegal(*c),
            TokenType::Eof => TokenKind::Eof,
            TokenType::Ident(s) => TokenKind::Ident(s@),
            TokenType::Int(s) => TokenKind::Int(s@),
            TokenType::Assign => TokenKind::Assign,
            TokenType::Plus => TokenKind::Plus,
            TokenType::Minus => TokenKind::Minus,
            TokenType::Asterisk => TokenKind::Asterisk,
            TokenType::Slash => TokenKind::Slash,
            TokenType::LT => TokenKind::LT,
            TokenType::GT => TokenKind::GT,
            TokenType::Bang => TokenKind::Bang,
            TokenType::Eq => TokenKind::Eq,
            TokenType::NotEq => TokenKind::NotEq,
            TokenType::Comma => TokenKind::Comma,
            TokenType::Semicolon => TokenKind::Semicolon,
            TokenType::Lparen => TokenKind::Lparen,
            TokenType::Rparen => TokenKind::Rparen,
            TokenType::Lbrace => TokenKind::Lbrace,
            TokenType::Rbrace => TokenKind::Rbrace,
            TokenType::Function => TokenKind::Function,
            TokenType::Let => TokenKind::Let,
            TokenType::True => TokenKind::True,
            TokenType::False => TokenKind::False,
            TokenType::If => TokenKind::If,
            TokenType::Else => TokenKind::Else,
            TokenType::Return => TokenKind::Return,
        }
    }
}

impl TokenKind {
    /// Two kinds are the same variant, whatever they carry.
    pub open spec fn same_variant(self, other: TokenKind) -> bool {
        match (self, other) {
            (TokenKind::Illegal(_), TokenKind::Illegal(_)) => true,
            (TokenKind::Ident(_), TokenKind::Ident(_)) => true,
            (TokenKind::Int(_), TokenKind::Int(_)) => true,
            (TokenKind::Illegal(_), _) => false,
            (TokenKind::Ident(_), _) => false,
            (TokenKind::Int(_), _) => false,
            (_, TokenKind::Illegal(_)) => false,
            (_, TokenKind::Ident(_)) => false,
            (_, TokenKind::Int(_)) => false,
            _ => self == other,
        }
    }

    /// The name under which a kind appears in messages: the variant's name,
    /// followed for identifiers and integer literals by the lexeme, between
    /// double quotes and in parentheses.
    pub open spec fn describe(self) -> Seq<char> {
        match self {
            TokenKind::Illegal(_) => "Illegal"@,
            TokenKind::Eof => "Eof"@,
            TokenKind::Ident(s) => "Ident(\""@ + s + "\")"@,
            TokenKind::Int(s) => "Int(\""@ + s + "\")"@,
            TokenKind::Assign => "Assign"@,
            TokenKind::Plus => "Plus"@,
            TokenKind::Minus => "Minus"@,
            TokenKind::Asterisk => "Asterisk"@,
            TokenKind::Slash => "Slash"@,
            TokenKind::LT => "LT"@,
            TokenKind::GT => "GT"@,
            TokenKind::Bang => "Bang"@,
            TokenKind::Eq => "Eq"@,
            TokenKind::NotEq => "NotEq"@,
            TokenKind::Comma => "Comma"@,
            TokenKind::Semicolon => "Semicolon"@,
            TokenKind::Lparen => "Lparen"@,
            TokenKind::Rparen => "Rparen"@,
            TokenKind::Lbrace => "Lbrace"@,
            TokenKind::Rbrace => "Rbrace"@,
            TokenKind::Function => "Function"@,
            TokenKind::Let => "Let"@,
            TokenKind::True => "True"@,
            TokenKind::False => "False"@,
            TokenKind::If => "If"@,
            TokenKind::Else => "Else"@,
            TokenKind::Return => "Return"@,
        }
    }
}

impl TokenType {
    /// Whether two token types are the same variant, whatever they carry.
    pub fn same_variant(&self, other: &TokenType) -> (r: bool)
        ensures
            r == self@.same_variant(other@),
    {
        match (self, other) {
            (TokenType::Illegal(_), TokenType::Illegal(_)) => true,
            (TokenType::Eof, TokenType::Eof) => true,
            (TokenType::Ident(_), TokenType::Ident(_)) => true,
            (TokenType::Int(_), TokenType::Int(_)) => true,
            (TokenType::Assign, TokenType::Assign) => true,
            (TokenType::Plus, TokenType::Plus) => true,
            (TokenType::Minus, TokenType::Minus) => true,
            (TokenType::Asterisk, TokenType::Asterisk) => true,
            (TokenType::Slash, TokenType::Slash) => true,
            (TokenType::LT, TokenType::LT) => true,
            (TokenType::GT, TokenType::GT) => true,
            (TokenType::Bang, TokenType::Bang) => true,
            (TokenType::Eq, TokenType::Eq) => true,
            (TokenType::NotEq, TokenType::NotEq) => true,
            (TokenType::Comma, TokenType::Comma) => true,
            (TokenType::Semicolon, TokenType::Semicolon) => true,
            (TokenType::Lparen, TokenType::Lparen) => true,
            (TokenType::Rparen, TokenType::Rparen) => true,
            (TokenType::Lbrace, TokenType::Lbrace) => true,
            (TokenType::Rbrace, TokenType::Rbrace) => true,
            (TokenType::Function, TokenType::Function) => true,
            (TokenType::Let, TokenType::Let) => true,
            (TokenType::True, TokenType::True) => true,
            (TokenType::False, TokenType::False) => true,
            (TokenType::If, TokenType::If) => true,
            (TokenType::Else, TokenType::Else) => true,
            (TokenType::Return, TokenType::Return) => true,
            _ => false,
        }
    }

    /// The name of this token type as it appears in messages.
    pub fn describe(&self) -> (r: String)
        ensures
            r@ == self@.describe(),
    {
        match self {
            TokenType::Illegal(_) => String::from_str("Illegal"),
            TokenType::Eof => String::from_str("Eof"),
            TokenType::Ident(s) => String::from_str("Ident(\"").concat(s.as_str()).concat("\")"),
            TokenType::Int(s) => String::from_str("Int(\"").concat(s.as_str()).concat("\")"),
            TokenType::Assign => String::from_str("Assign"),
            TokenType::Plus => String::from_str("Plus"),
            TokenType::Minus => String::from_str("Minus"),
            TokenType::Asterisk => String::from_str("Asterisk"),
            TokenType::Slash => String::from_str("Slash"),
            TokenType::LT => String::from_str("LT"),
            TokenType::GT => String::from_str("GT"),
            TokenType::Bang => String::from_str("Bang"),
            TokenType::Eq => String::from_str("Eq"),
            TokenType::NotEq => String::from_str("NotEq"),
            TokenType::Comma => String::from_str("Comma"),
            TokenType::Semicolon => String::from_str("Semicolon"),
            TokenType::Lparen => String::from_str("Lparen"),
            TokenType::Rparen => String::from_str("Rparen"),
            TokenType::Lbrace => String::from_str("Lbrace"),
            TokenType::Rbrace => String::from_str("Rbrace"),
            TokenType::Function => String::from_str("Function"),
            TokenType::Let => String::from_str("Let"),
            TokenType::True => String::from_str("True"),
            TokenType::False => String::from_str("False"),
            TokenType::If => String::from_str("If"),
            TokenType::Else => String::from_str("Else"),
            TokenType::Return => String::from_str("Return"),
        }
    }

}

impl Clone for TokenType {
    fn clone(&self) -> (r: TokenType)
        ensures
            r@ == self@,
    {
        match self {
            TokenType::Illegal(c) => TokenType::Illegal(*c),
            TokenType::Eof => TokenType::Eof,
            TokenType::Ident(s) => TokenType::Ident(s.clone()),
            TokenType::Int(s) => TokenType::Int(s.clone()),
            TokenType::Assign => TokenType::Assign,
            TokenType::Plus => TokenType::Plus,
            TokenType::Minus => TokenType::Minus,
            TokenType::Asterisk => TokenType::Asterisk,
            TokenType::Slash => TokenType::Slash,
            TokenType::LT => TokenType::LT,
            TokenType::GT => TokenType::GT,
            TokenType::Bang => TokenType::Bang,
            TokenType::Eq => TokenType::Eq,
            TokenType::NotEq => TokenType::NotEq,
            TokenType::Comma => TokenType::Comma,
            TokenType::Semicolon => TokenType::Semicolon,
            TokenType::Lparen => TokenType::Lparen,
            TokenType::Rparen => TokenType::Rparen,
            TokenType::Lbrace => TokenType::Lbrace,
            TokenType::Rbrace => TokenType::Rbrace,
            TokenType::Function => TokenType::Function,
            TokenType::Let => TokenType::Let,
            TokenType::True => TokenType::True,
            TokenType::False => TokenType::False,
            TokenType::If => TokenType::If,
            TokenType::Else => TokenType::Else,
            TokenType::Return => TokenType::Return,
        }
    }
}

/// The operator that a single character spells, if it spells one.
pub open spec fn single_operator(c: char) -> Option<TokenKind> {
    if c == '=' {
        Some(TokenKind::Assign)
    } else if c == '+' {
        Some(TokenKind::Plus)
    } else if c == '-' {
        Some(TokenKind::Minus)
    } else if c == '*' {
        Some(TokenKind::Asterisk)
    } else if c == '/' {
        Some(TokenKind::Slash)
    } else if c == '<' {
        Some(TokenKind::LT)
    } else if c == '>' {
        Some(TokenKind::GT)
    } else if c == '!' {
        Some(TokenKind::Bang)
    } else {
        None
    }
}

/// The operator that two adjacent characters spell, if they spell one.
pub open spec fn double_operator(c0: char, c1: char) -> Option<TokenKind> {
    if c0 == '=' && c1 == '=' {
        Some(TokenKind::Eq)
    } else if c0 == '!' && c1 == '=' {
        Some(TokenKind::NotEq)
    } else {
        None
    }
}

/// The delimiter that a character spells, if it spells one.
pub open spec fn delimiter(c: char) -> Option<TokenKind> {
    if c == ',' {
        Some(TokenKind::Comma)
    } else if c == ';' {
        Some(TokenKind::Semicolon)
    } else if c == '(' {
        Some(TokenKind::Lparen)
    } else if c == ')' {
        Some(TokenKind::Rparen)
    } else if c == '{' {
        Some(TokenKind::Lbrace)
    } else if c == '}' {
        Some(TokenKind::Rbrace)
    } else {
        None
    }
}

/// The keyword that a word spells, if it spells one.
pub open spec fn keyword(w: Seq<char>) -> Option<TokenKind> {
    if w == seq!['f', 'n'] {
        Some(TokenKind::Function)
    } else if w == seq!['l', 'e', 't'] {
        Some(TokenKind::Let)
    } else if w == seq!['t', 'r', 'u', 'e'] {
        Some(TokenKind::True)
    } else if w == seq!['f', 'a', 'l', 's', 'e'] {
        Some(TokenKind::False)
    } else if w == seq!['i', 'f'] {
        Some(TokenKind::If)
    } else if w == seq!['e', 'l', 's', 'e'] {
        Some(TokenKind::Else)
    } else if w == seq!['r', 'e', 't', 'u', 'r', 'n'] {
        Some(TokenKind::Return)
    } else {
        None
    }
}

/// The view of an optional token type.
pub open spec fn view_kind_option(o: Option<TokenType>) -> Option<TokenKind> {
    match o {
        Some(t) => Some(t@),
        None => None,
    }
}

/// The operator that a single character spells, if it spells one.
pub fn tt_single_operators(c: char) -> (r: Option<TokenType>)
    ensures
        view_kind_option(r) == single_operator(c),
{
    let tt = match c {
        '=' => TokenType::Assign,
        '+' => TokenType::Plus,
        '-' => TokenType::Minus,
        '*' => TokenType::Asterisk,
        '/' => TokenType::Slash,
        '<' => TokenType::LT,
        '>' => TokenType::GT,
        '!' => TokenType::Bang,
        _ => return None,
    };
    Some(tt)
}

/// The operator that two adjacent characters spell, if they spell one.
pub fn tt_double_operators(c0: char, c1: char) -> (r: Option<TokenType>)
    ensures
        view_kind_option(r) == double_operator(c0, c1),
{
    let tt = match (c0, c1) {
        ('=', '=') => TokenType::Eq,
        ('!', '=') => TokenType::NotEq,
        _ => return None,
    };
    Some(tt)
}

/// The delimiter that a character spells, if it spells one.
pub fn tt_delimiters(c: char) -> (r: Option<TokenType>)
    ensures
        view_kind_option(r) == delimiter(c),
{
    let tt = match c {
        ',' => TokenType::Comma,
        ';' => TokenType::Semicolon,
        '(' => TokenType::Lparen,
        ')' => TokenType::Rparen,
        '{' => TokenType::Lbrace,
        '}' => TokenType::Rbrace,
        _ => return None,
    };
    Some(tt)
}

/// Whether the characters of `s` are exactly those of `w`.
fn spells(s: &str, w: &[char]) -> (r: bool)
    ensures
        r == (s@ == w@),
{
    let n: usize = s.unicode_len();
    if n != w.len() {
        return false;
    }
    let mut i: usize = 0;
    while i < n
        invariant
            i <= n,
            n == s@.len(),
            n == w@.len(),
            forall|j: int| 0 <= j < i ==> s@[j] == w@[j],
        decreases n - i,
    {
        if s.get_char(i) != w[i] {
            return false;
        }
        i += 1;
    }
    assert(s@ =~= w@);
    true
}

/// The keyword that a word spells, if it spells one.
pub fn tt_keywords(s: &str) -> (r: Option<TokenType>)
    ensures
        view_kind_option(r) == keyword(s@),
{
    if spells(s, &['f', 'n']) {
        Some(TokenType::Function)
    } else if spells(s, &['l', 'e', 't']) {
        Some(TokenType::Let)
    } else if spells(s, &['t', 'r', 'u', 'e']) {
        Some(TokenType::True)
    } else if spells(s, &['f', 'a', 'l', 's', 'e']) {
        Some(TokenType::False)
    } else if spells(s, &['i', 'f']) {
        Some(TokenType::If)
    } else if spells(s, &['e', 'l', 's', 'e']) {
        Some(TokenType::Else)
    } else if spells(s, &['r', 'e', 't', 'u', 'r', 'n']) {
        Some(TokenType::Return)
    } else {
        None
    }
}

/// A token: what it is and where it stood, as the offsets of its first
/// character and of the character after its last.
#[derive(Debug, PartialEq, Eq)]
pub struct Token {
    pub kind: TokenType,
    pub span: (usize, usize),
}

/// The mathematical value of a [`Token`].
pub ghost struct TokenView {
    pub kind: TokenKind,
    pub span: (nat, nat),
}

impl View for Token {
    type V = TokenView;

    open spec fn view(&self) -> TokenView {
        TokenView { kind: self.kind@, span: (self.span.0 as nat, self.span.1 as nat) }
    }
}

/// The view of an optional token.
pub open spec fn view_token_option(o: Option<Token>) -> Option<TokenView> {
    match o {
        Some(t) => Some(t@),
        None => None,
    }
}

impl Token {
    /// The token of the given type and place.
    pub fn new(kind: TokenType, span: (usize, usize)) -> (r: Token)
        ensures
            r.kind == kind,
            r.span == span,
    {
        Token { kind, span }
    }

    /// The name that an identifier token carries; `None` for any other token.
    pub fn get_ident_name(self) -> (r: Option<String>)
        ensures
            match self@.kind {
                TokenKind::Ident(name) => r.is_some() && r.unwrap()@ == name,
                _ => r.is_none(),
            },
    {
        if let TokenType::Ident(ident) = self.kind {
            Some(ident)
        } else {
            None
        }
    }
}

impl Clone for Token {
    fn clone(&self) -> (r: Token)
        ensures
            r@ == self@,
    {
        Token { kind: self.kind.clone(), span: self.span }
    }
}

} // verus!
