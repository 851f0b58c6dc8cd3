//! The tokens of Cool source text and their dump spelling.

use crate::util::{decimal, decimal_int, escape, escape_str, push_decimal, push_i32};
use vstd::prelude::*;

verus! {

/// The name of a class.
pub type TypeId = String;

/// The name of an attribute, method, formal or local.
pub type Ident = String;

/// What a token is.
#[derive(Debug, Clone, PartialEq)]
pub enum TokenKind {
    // Reserved words
    Class,
    Inherits,
    If,
    Then,
    Else,
    Fi,
    Let,
    In,
    While,
    Loop,
    Pool,
    Case,
    Of,
    Esac,
    New,
    IsVoid,
    Not,
    // Punctuation and operators
    At,
    Assign,
    DoubleArrow,
    OpenBraces,
    CloseBraces,
    OpenParens,
    CloseParens,
    Dot,
    Comma,
    Colon,
    SemiColon,
    Equals,
    Add,
    Subtract,
    Multiply,
    Divide,
    Negative,
    LessThanOrEquals,
    LessThan,
    // Literals
    IntLiteral(i32),
    StrLiteral(String),
    BoolLiteral(bool),
    // Type and object identifiers
    TypeId(TypeId),
    Ident(Ident),
}

/// The mathematical value of a [`TokenKind`]: text is a sequence of
/// characters and an integer literal is an `int`.
pub enum TokenKindView {
    // Reserved words
    Class,
    Inherits,
    If,
    Then,
    Else,
    Fi,
    Let,
    In,
    While,
    Loop,
    Pool,
    Case,
    Of,
    Esac,
    New,
    IsVoid,
    Not,
    // Punctuation and operators
    At,
    Assign,
    DoubleArrow,
    OpenBraces,
    CloseBraces,
    OpenParens,
    CloseParens,
    Dot,
    Comma,
    Colon,
    SemiColon,
    Equals,
    Add,
    Subtract,
    Multiply,
    Divide,
    Negative,
    LessThanOrEquals,
    LessThan,
    // Literals
    IntLiteral(int),
    StrLiteral(Seq<char>),
    BoolLiteral(bool),
    // Type and object identifiers
    TypeId(Seq<char>),
    Ident(Seq<char>),
}

impl View for TokenKind {
    type V = TokenKindView;

    open spec fn view(&self) -> TokenKindView {
        match *self {
            TokenKind::Class => TokenKindView::Class,
            TokenKind::Inherits => TokenKindView::Inherits,
            TokenKind::If => TokenKindView::If,
            TokenKind::Then => TokenKindView::Then,
            TokenKind::Else => TokenKindView::Else,
            TokenKind::Fi => TokenKindView::Fi,
            TokenKind::Let => TokenKindView::Let,
            TokenKind::In => TokenKindView::In,
            TokenKind::While => TokenKindView::While,
            TokenKind::Loop => TokenKindView::Loop,
            TokenKind::Pool => TokenKindView::Pool,
            TokenKind::Case => TokenKindView::Case,
            TokenKind::Of => TokenKindView::Of,
            TokenKind::Esac => TokenKindView::Esac,
            TokenKind::New => TokenKindView::New,
            TokenKind::IsVoid => TokenKindView::IsVoid,
            TokenKind::Not => TokenKindView::Not,
            TokenKind::At => TokenKindView::At,
            TokenKind::Assign => TokenKindView::Assign,
            TokenKind::DoubleArrow => TokenKindView::DoubleArrow,
            TokenKind::OpenBraces => TokenKindView::OpenBraces,
            TokenKind::CloseBraces => TokenKindView::CloseBraces,
            TokenKind::OpenParens => TokenKindView::OpenParens,
            TokenKind::CloseParens => TokenKindView::CloseParens,
            TokenKind::Dot => TokenKindView::Dot,
            TokenKind::Comma => TokenKindView::Comma,
            TokenKind::Colon => TokenKindView::Colon,
            TokenKind::SemiColon => TokenKindView::SemiColon,
            TokenKind::Equals => TokenKindView::Equals,
            TokenKind::Add => TokenKindView::Add,
            TokenKind::Subtract => TokenKindView::Subtract,
            TokenKind::Multiply => TokenKindView::Multiply,
            TokenKind::Divide => TokenKindView::Divide,
            TokenKind::Negative => TokenKindView::Negative,
            TokenKind::LessThanOrEquals => TokenKindView::LessThanOrEquals,
            TokenKind::LessThan => TokenKindView::LessThan,
            TokenKind::IntLiteral(i) => TokenKindView::IntLiteral(i as int),
            TokenKind::StrLiteral(s) => TokenKindView::StrLiteral(s@),
            TokenKind::BoolLiteral(b) => TokenKindView::BoolLiteral(b),
            TokenKind::TypeId(s) => TokenKindView::TypeId(s@),
            TokenKind::Ident(s) => TokenKindView::Ident(s@),
        }
    }
}

/// Where a token or a tree node begins in its source file.
#[derive(Debug, Clone, Copy, PartialEq)]
pub struct Span<'a> {
    /// Bytes of source text before the position.
    pub offset: usize,
    /// Line of the position, counted from 1.
    pub line: usize,
    /// Column of the position in bytes, counted from 1.
    pub column: usize,
    /// Label of the source file.
    pub extra: &'a str,
}

/// The mathematical value of a [`Span`].
pub struct SpanView {
    pub offset: nat,
    pub line: nat,
    pub column: nat,
    pub extra: Seq<char>,
}

impl<'a> View for Span<'a> {
    type V = SpanView;

    open spec fn view(&self) -> SpanView {
        SpanView {
            offset: self.offset as nat,
            line: self.line as nat,
            column: self.column as nat,
            extra: self.extra@,
        }
    }
}

impl<'a> Span<'a> {
    /// The line of the position, counted from 1.
    pub fn location_line(&self) -> (line: usize)
        ensures
            line == self.line,
    {
        self.line
    }

    /// The number of bytes of source text before the position.
    pub fn location_offset(&self) -> (offset: usize)
        ensures
            offset == self.offset,
    {
        self.offset
    }

    /// The column of the position in bytes, counted from 1.
    pub fn get_column(&self) -> (column: usize)
        ensures
            column == self.column,
    {
        self.column
    }
}

/// A lexical atom of the source together with the place where it begins.
#[derive(Debug, Clone, PartialEq)]
pub struct Token<'a> {
    pub kind: TokenKind,
    pub location: Span<'a>,
}

/// The mathematical value of a [`Token`].
pub struct TokenView {
    pub kind: TokenKindView,
    pub location: SpanView,
}

impl<'a> View for Token<'a> {
    type V = TokenView;

    open spec fn view(&self) -> TokenView {
        TokenView { kind: self.kind@, location: self.location@ }
    }
}

/// The values of a sequence of tokens.
pub open spec fn token_views(tokens: Seq<Token>) -> Seq<TokenView> {
    Seq::new(tokens.len(), |i: int| tokens[i]@)
}

/// The dump spelling of a boolean constant.
pub open spec fn bool_text(b: bool) -> Seq<char> {
    if b {
        "true"@
    } else {
        "false"@
    }
}

/// The dump spelling of a token kind: a fixed tag for reserved words and
/// symbols, a tag followed by the value for literals and identifiers.
pub open spec fn kind_text(kind: TokenKindView) -> Seq<char> {
    match kind {
        TokenKindView::Class => "CLASS"@,
        TokenKindView::Inherits => "INHERITS"@,
        TokenKindView::If => "IF"@,
        TokenKindView::Then => "THEN"@,
        TokenKindView::Else => "ELSE"@,
        TokenKindView::Fi => "FI"@,
        TokenKindView::Let => "LET"@,
        TokenKindView::In => "IN"@,
        TokenKindView::While => "WHILE"@,
        TokenKindView::Loop => "LOOP"@,
        TokenKindView::Pool => "POOL"@,
        TokenKindView::Case => "CASE"@,
        TokenKindView::Of => "OF"@,
        TokenKindView::Esac => "ESAC"@,
        TokenKindView::New => "NEW"@,
        TokenKindView::IsVoid => "ISVOID"@,
        TokenKindView::Not => "NOT"@,
        TokenKindView::At => "'@'"@,
        TokenKindView::Assign => "ASSIGN"@,
        TokenKindView::DoubleArrow => "DARROW"@,
        TokenKindView::OpenBraces => "'{'"@,
        TokenKindView::CloseBraces => "'}'"@,
        TokenKindView::OpenParens => "'('"@,
        TokenKindView::CloseParens => "')'"@,
        TokenKindView::Dot => "'.'"@,
        TokenKindView::Comma => "','"@,
        TokenKindView::Colon => "':'"@,
        TokenKindView::SemiColon => "';'"@,
        TokenKindView::Equals => "'='"@,
        TokenKindView::Add => "'+'"@,
        TokenKindView::Subtract => "'-'"@,
        TokenKindView::Multiply => "'*'"@,
        TokenKindView::Divide => "'/'"@,
        TokenKindView::Negative => "'~'"@,
        TokenKindView::LessThanOrEquals => "LE"@,
        TokenKindView::LessThan => "'<'"@,
        TokenKindView::IntLiteral(i) => "INT_CONST "@ + decimal_int(i),
        TokenKindView::StrLiteral(s) => "STR_CONST \""@ + escape(s) + seq!['"'],
        TokenKindView::BoolLiteral(b) => "BOOL_CONST "@ + bool_text(b),
        TokenKindView::TypeId(s) => "TYPEID "@ + s,
        TokenKindView::Ident(s) => "OBJECTID "@ + s,
    }
}

/// One line of the token dump, without its line end: `#`, the token's line
/// number, a space and the spelling of its kind.
pub open spec fn token_line(token: TokenView) -> Seq<char> {
    seq!['#'] + decimal(token.location.line) + seq![' '] + kind_text(token.kind)
}

/// The dump lines of a sequence of tokens, each closed by a line feed.
pub open spec fn token_lines(tokens: Seq<TokenView>) -> Seq<char>
    decreases tokens.len(),
{
    if tokens.len() == 0 {
        Seq::empty()
    } else {
        token_lines(tokens.drop_last()) + token_line(tokens.last()) + seq!['\n']
    }
}

/// The token dump of a source file: a `#name` line that quotes the file's
/// label, then one line per token.
pub open spec fn token_dump(tokens: Seq<TokenView>, filename: Seq<char>) -> Seq<char> {
    "#name \""@ + filename + seq!['"', '\n'] + token_lines(tokens)
}

impl TokenKind {
    /// Spells the kind as the token dump does.
    pub fn to_string(&self) -> (out: String)
        ensures
            out@ == kind_text(self@),
    {
        match self {
            TokenKind::IntLiteral(i) => {
                let mut out = String::from_str("INT_CONST ");
                push_i32(&mut out, *i);
                out
            },
            TokenKind::StrLiteral(s) => {
                let mut out = String::from_str("STR_CONST \"");
                let escaped = escape_str(s.as_str());
                out.append(escaped.as_str());
                out.push('"');
                out
            },
            TokenKind::BoolLiteral(b) => {
                let mut out = String::from_str("BOOL_CONST ");
                if *b {
                    out.append("true");
                } else {
                    out.append("false");
                }
                out
            },
            TokenKind::TypeId(s) => {
                let mut out = String::from_str("TYPEID ");
                out.append(s.as_str());
                out
            },
            TokenKind::Ident(s) => {
                let mut out = String::from_str("OBJECTID ");
                out.append(s.as_str());
                out
            },
            TokenKind::Class => String::from_str("CLASS"),
            TokenKind::Inherits => String::from_str("INHERITS"),
            TokenKind::If => String::from_str("IF"),
            TokenKind::Then => String::from_str("THEN"),
            TokenKind::Else => String::from_str("ELSE"),
            TokenKind::Fi => String::from_str("FI"),
            TokenKind::Let => String::from_str("LET"),
            TokenKind::In => String::from_str("IN"),
            TokenKind::While => String::from_str("WHILE"),
            TokenKind::Loop => String::from_str("LOOP"),
            TokenKind::Pool => String::from_str("POOL"),
            TokenKind::Case => String::from_str("CASE"),
            TokenKind::Of => String::from_str("OF"),
            TokenKind::Esac => String::from_str("ESAC"),
            TokenKind::New => String::from_str("NEW"),
            TokenKind::IsVoid => String::from_str("ISVOID"),
            TokenKind::Not => String::from_str("NOT"),
            TokenKind::At => String::from_str("'@'"),
            TokenKind::Assign => String::from_str("ASSIGN"),
            TokenKind::DoubleArrow => String::from_str("DARROW"),
            TokenKind::OpenBraces => String::from_str("'{'"),
            TokenKind::CloseBraces => String::from_str("'}'"),
            TokenKind::OpenParens => String::from_str("'('"),
            TokenKind::CloseParens => String::from_str("')'"),
            TokenKind::Dot => String::from_str("'.'"),
            TokenKind::Comma => String::from_str("','"),
            TokenKind::Colon => String::from_str("':'"),
            TokenKind::SemiColon => String::from_str("';'"),
            TokenKind::Equals => String::from_str("'='"),
            TokenKind::Add => String::from_str("'+'"),
            TokenKind::Subtract => String::from_str("'-'"),
            TokenKind::Multiply => String::from_str("'*'"),
            TokenKind::Divide => String::from_str("'/'"),
            TokenKind::Negative => String::from_str("'~'"),
            TokenKind::LessThanOrEquals => String::from_str("LE"),
            TokenKind::LessThan => String::from_str("'<'"),
        }
    }
}

impl<'a> Token<'a> {
    /// A token of the given kind that begins at the given place.
    pub fn new(kind: TokenKind, location: Span<'a>) -> (token: Self)
        ensures
            token.kind == kind,
            token.location == location,
    {
        Self { kind, location }
    }

    /// Writes the token as one line of the token dump, without the line end.
    pub fn to_string(&self) -> (out: String)
        ensures
            out@ == token_line(self@),
    {
        let mut out = String::from_str("#");
        push_decimal(&mut out, self.location.line as u64);
        out.push(' ');
        let kind = self.kind.to_string();
        out.append(kind.as_str());
        proof {
            reveal_strlit("#");
            assert("#"@ == seq!['#']);
        }
        out
    }
}

/// Writes the token dump of a scanned source file.
pub fn print_tokens(tokens: &[Token], filename: &str) -> (out: String)
    ensures
        out@ == token_dump(token_views(tokens@), filename@),
{
    let mut out = String::from_str("#name \"");
    out.append(filename);
    out.push('"');
    out.push('\n');
    let ghost head = out@;
    let mut i: usize = 0;
    while i < tokens.len()
        invariant
            i <= tokens.len(),
            out@ == head + token_lines(token_views(tokens@).take(i as int)),
        decreases tokens.len() - i,
    {
        let line = tokens[i].to_string();
        out.append(line.as_str());
        out.push('\n');
        proof {
            let views = token_views(tokens@);
            assert(views.take(i + 1).drop_last() == views.take(i as int));
            assert(views.take(i + 1).last() == tokens[i as int]@);
        }
        i += 1;
    }
    proof {
        let views = token_views(tokens@);
        assert(views.take(i as int) == views);
    }
    out
}

/// A number that tells the kinds of token apart. Reserved words and symbols
/// have the numbers below 36, one each.
pub open spec fn kind_tag(kind: TokenKindView) -> int {
    match kind {
        TokenKindView::Class => 0,
        TokenKindView::Inherits => 1,
        TokenKindView::If => 2,
        TokenKindView::Then => 3,
        TokenKindView::Else => 4,
        TokenKindView::Fi => 5,
        TokenKindView::Let => 6,
        TokenKindView::In => 7,
        TokenKindView::While => 8,
        TokenKindView::Loop => 9,
        TokenKindView::Pool => 10,
        TokenKindView::Case => 11,
        TokenKindView::Of => 12,
        TokenKindView::Esac => 13,
        TokenKindView::New => 14,
        TokenKindView::IsVoid => 15,
        TokenKindView::Not => 16,
        TokenKindView::At => 17,
        TokenKindView::Assign => 18,
        TokenKindView::DoubleArrow => 19,
        TokenKindView::OpenBraces => 20,
        TokenKindView::CloseBraces => 21,
        TokenKindView::OpenParens => 22,
        TokenKindView::CloseParens => 23,
        TokenKindView::Dot => 24,
        TokenKindView::Comma => 25,
        TokenKindView::Colon => 26,
        TokenKindView::SemiColon => 27,
        TokenKindView::Equals => 28,
        TokenKindView::Add => 29,
        TokenKindView::Subtract => 30,
        TokenKindView::Multiply => 31,
        TokenKindView::Divide => 32,
        TokenKindView::Negative => 33,
        TokenKindView::LessThanOrEquals => 34,
        TokenKindView::LessThan => 35,
        TokenKindView::IntLiteral(_) => 36,
        TokenKindView::StrLiteral(_) => 37,
        TokenKindView::BoolLiteral(_) => 38,
        TokenKindView::TypeId(_) => 39,
        TokenKindView::Ident(_) => 40,
    }
}

impl TokenKind {
    /// The number that tells this kind from the others.
    pub fn tag(&self) -> (t: u8)
        ensures
            t == kind_tag(self@),
    {
        match self {
            TokenKind::Class => 0,
            TokenKind::Inherits => 1,
            TokenKind::If => 2,
            TokenKind::Then => 3,
            TokenKind::Else => 4,
            TokenKind::Fi => 5,
            TokenKind::Let => 6,
            TokenKind::In => 7,
            TokenKind::While => 8,
            TokenKind::Loop => 9,
            TokenKind::Pool => 10,
            TokenKind::Case => 11,
            TokenKind::Of => 12,
            TokenKind::Esac => 13,
            TokenKind::New => 14,
            TokenKind::IsVoid => 15,
            TokenKind::Not => 16,
            TokenKind::At => 17,
            TokenKind::Assign => 18,
            TokenKind::DoubleArrow => 19,
            TokenKind::OpenBraces => 20,
            TokenKind::CloseBraces => 21,
            TokenKind::OpenParens => 22,
            TokenKind::CloseParens => 23,
            TokenKind::Dot => 24,
            TokenKind::Comma => 25,
            TokenKind::Colon => 26,
            TokenKind::SemiColon => 27,
            TokenKind::Equals => 28,
            TokenKind::Add => 29,
            TokenKind::Subtract => 30,
            TokenKind::Multiply => 31,
            TokenKind::Divide => 32,
            TokenKind::Negative => 33,
            TokenKind::LessThanOrEquals => 34,
            TokenKind::LessThan => 35,
            TokenKind::IntLiteral(_) => 36,
            TokenKind::StrLiteral(_) => 37,
            TokenKind::BoolLiteral(_) => 38,
            TokenKind::TypeId(_) => 39,
            TokenKind::Ident(_) => 40,
        }
    }

    /// Whether this kind is the kind `other`, value included.
    pub fn is(&self, other: &TokenKind) -> (r: bool)
        ensures
            r == (self@ == other@),
    {
        match (self, other) {
            (TokenKind::IntLiteral(a), TokenKind::IntLiteral(b)) => *a == *b,
            (TokenKind::BoolLiteral(a), TokenKind::BoolLiteral(b)) => *a == *b,
            (TokenKind::StrLiteral(a), TokenKind::StrLiteral(b)) => *a == *b,
            (TokenKind::TypeId(a), TokenKind::TypeId(b)) => *a == *b,
            (TokenKind::Ident(a), TokenKind::Ident(b)) => *a == *b,
            _ => self.tag() == other.tag() && self.tag() < 36,
        }
    }
}

/// A window on an array of tokens: the tokens from a cursor up to an end.
/// The parser reads the token at the cursor and moves the cursor on.
#[derive(Debug, Clone, Copy)]
pub struct Tokens<'a> {
    array: &'a [Token<'a>],
    start: usize,
    end: usize,
}

impl<'a> Tokens<'a> {
    /// The cursor stands inside the window and the window inside the array.
    #[verifier::type_invariant]
    spec fn well_formed(self) -> bool {
        self.start <= self.end <= self.array@.len()
    }

    /// The tokens of the array up to the end of the window.
    pub closed spec fn tokens(&self) -> Seq<TokenView> {
        token_views(self.array@.take(self.end as int))
    }

    /// The index of the token at the cursor.
    pub closed spec fn cursor(&self) -> int {
        self.start as int
    }

    /// A window on the whole array, with the cursor at its first token.
    pub fn new(array: &'a [Token<'a>]) -> (t: Self)
        ensures
            t.tokens() == token_views(array@),
            t.cursor() == 0,
    {
        proof {
            assert(array@.take(array@.len() as int) == array@);
        }
        Tokens { array, start: 0, end: array.len() }
    }

    /// The number of tokens from the cursor to the end of the window.
    pub fn input_len(&self) -> (n: usize)
        ensures
            n == self.tokens().len() - self.cursor(),
            0 <= self.cursor() <= self.tokens().len(),
    {
        proof {
            use_type_invariant(self);
        }
        self.end - self.start
    }

    /// The index of the token at the cursor.
    pub fn offset(&self) -> (n: usize)
        ensures
            n == self.cursor(),
    {
        self.start
    }

    /// The token at the cursor, if the window holds one.
    pub fn first(&self) -> (r: Option<&'a Token<'a>>)
        ensures
            match r {
                Some(token) => self.cursor() < self.tokens().len() && token@
                    == self.tokens()[self.cursor()],
                None => self.cursor() == self.tokens().len(),
            },
            0 <= self.cursor() <= self.tokens().len(),
    {
        proof {
            use_type_invariant(self);
        }
        if self.start < self.end {
            Some(&self.array[self.start])
        } else {
            None
        }
    }

    /// The window with the cursor moved over one token.
    pub fn advance(&self) -> (t: Self)
        requires
            self.cursor() < self.tokens().len(),
        ensures
            t.tokens() == self.tokens(),
            t.cursor() == self.cursor() + 1,
    {
        proof {
            use_type_invariant(self);
        }
        Tokens { array: self.array, start: self.start + 1, end: self.end }
    }

    /// The window on the first `count` tokens from the cursor.
    pub fn take(&self, count: usize) -> (t: Self)
        requires
            count <= self.tokens().len() - self.cursor(),
        ensures
            t.tokens() == self.tokens().take(self.cursor() + count),
            t.cursor() == self.cursor(),
    {
        proof {
            use_type_invariant(self);
            assert(token_views(self.array@.take(self.start + count)) =~= token_views(
                self.array@.take(self.end as int),
            ).take(self.start + count));
        }
        Tokens { array: self.array, start: self.start, end: self.start + count }
    }

    /// The window behind the first `count` tokens from the cursor, and the
    /// window on those tokens.
    pub fn take_split(&self, count: usize) -> (r: (Self, Self))
        requires
            count <= self.tokens().len() - self.cursor(),
        ensures
            r.0.tokens() == self.tokens(),
            r.0.cursor() == self.cursor() + count,
            r.1.tokens() == self.tokens().take(self.cursor() + count),
            r.1.cursor() == self.cursor(),
    {
        proof {
            use_type_invariant(self);
        }
        let prefix = self.take(count);
        let suffix = Tokens { array: self.array, start: self.start + count, end: self.end };
        (suffix, prefix)
    }

    /// The window on the tokens from the `from`-th to the `to`-th behind the
    /// cursor.
    pub fn slice(&self, from: usize, to: usize) -> (t: Self)
        requires
            from <= to <= self.tokens().len() - self.cursor(),
        ensures
            t.tokens() == self.tokens().take(self.cursor() + to),
            t.cursor() == self.cursor() + from,
    {
        proof {
            use_type_invariant(self);
            assert(token_views(self.array@.take(self.start + to)) =~= token_views(
                self.array@.take(self.end as int),
            ).take(self.start + to));
        }
        Tokens { array: self.array, start: self.start + from, end: self.start + to }
    }

    /// `count`, where the window holds that many tokens from the cursor on.
    pub fn slice_index(&self, count: usize) -> (r: Option<usize>)
        ensures
            r == (if count <= self.tokens().len() - self.cursor() {
                Some(count)
            } else {
                None
            }),
    {
        if self.input_len() >= count {
            Some(count)
        } else {
            None
        }
    }
}

} // verus!
