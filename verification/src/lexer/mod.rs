//! The scanner: source text to located tokens.
//!
//! The source is a sequence of characters and a position in it is an index
//! into that sequence. Every lexical rule is a function of the source and the
//! position where the lexeme must begin; it answers with what it recognised
//! and the position just behind it.

pub mod laws;

use crate::tokens::{token_views, Span, SpanView, Token, TokenKind, TokenKindView, TokenView};
use vstd::utf8::{encode_scalar, encode_utf8};
use vstd::prelude::*;

verus! {

/// Blank, tab, carriage return or line feed.
pub open spec fn is_space(c: char) -> bool {
    c == ' ' || c == '\t' || c == '\r' || c == '\n'
}

/// An ASCII decimal digit.
pub open spec fn is_digit(c: char) -> bool {
    '0' <= c <= '9'
}

/// An ASCII capital letter.
pub open spec fn is_upper(c: char) -> bool {
    'A' <= c <= 'Z'
}

/// An ASCII small letter.
pub open spec fn is_lower(c: char) -> bool {
    'a' <= c <= 'z'
}

/// A character that may continue a word: an ASCII letter, an ASCII digit or
/// the underscore.
pub open spec fn is_word_char(c: char) -> bool {
    is_upper(c) || is_lower(c) || is_digit(c) || c == '_'
}

/// The small letter of an ASCII capital; any other character unchanged.
pub open spec fn lower(c: char) -> char {
    if is_upper(c) {
        (c as int + 32) as char
    } else {
        c
    }
}

/// A word with every ASCII capital replaced by its small letter.
pub open spec fn lower_seq(word: Seq<char>) -> Seq<char> {
    Seq::new(word.len(), |i: int| lower(word[i]))
}

/// The sets of characters that lexemes are made of.
#[derive(Debug, Clone, Copy, PartialEq, Eq)]
pub enum CharClass {
    /// White space.
    Space,
    /// Decimal digits.
    Digit,
    /// Letters, digits and the underscore.
    Word,
    /// What may stand unescaped inside a string literal: anything but the
    /// double quote and the backslash.
    Plain,
}

impl CharClass {
    /// Whether `c` belongs to the class.
    pub open spec fn spec_contains(self, c: char) -> bool {
        match self {
            CharClass::Space => is_space(c),
            CharClass::Digit => is_digit(c),
            CharClass::Word => is_word_char(c),
            CharClass::Plain => c != '"' && c != '\\',
        }
    }

    /// Whether `c` belongs to the class.
    #[verifier::when_used_as_spec(spec_contains)]
    pub fn contains(self, c: char) -> (b: bool)
        ensures
            b == self.spec_contains(c),
    {
        match self {
            CharClass::Space => c == ' ' || c == '\t' || c == '\r' || c == '\n',
            CharClass::Digit => '0' <= c && c <= '9',
            CharClass::Word => ('A' <= c && c <= 'Z') || ('a' <= c && c <= 'z') || ('0' <= c && c
                <= '9') || c == '_',
            CharClass::Plain => c != '"' && c != '\\',
        }
    }
}

/// The end of the longest run of characters of `class` that begins at `i`;
/// `i` itself where no such character stands there.
pub open spec fn run_end(s: Seq<char>, i: int, class: CharClass) -> int
    decreases s.len() - i,
{
    if 0 <= i < s.len() && class.contains(s[i]) {
        run_end(s, i + 1, class)
    } else {
        i
    }
}

/// A run ends at or behind its start and inside the source, and holds only
/// characters of its class.
pub proof fn lemma_run_end(s: Seq<char>, i: int, class: CharClass)
    ensures
        i <= run_end(s, i, class),
        i <= s.len() ==> run_end(s, i, class) <= s.len(),
        forall|j: int| i <= j < run_end(s, i, class) ==> 0 <= j < s.len() && class.contains(s[j]),
        0 <= run_end(s, i, class) < s.len() ==> !class.contains(s[run_end(s, i, class)]),
    decreases s.len() - i,
{
    if 0 <= i < s.len() && class.contains(s[i]) {
        lemma_run_end(s, i + 1, class);
    }
}

/// Finds the end of the longest run of characters of `class` from `start`.
pub fn scan_run(src: &[char], start: usize, class: CharClass) -> (end: usize)
    ensures
        end == run_end(src@, start as int, class),
{
    let mut i = start;
    while i < src.len() && class.contains(src[i])
        invariant
            start <= i,
            run_end(src@, start as int, class) == run_end(src@, i as int, class),
        decreases src.len() - i,
    {
        i += 1;
    }
    i
}

/// Whether characters `a` and `b` stand at positions `i` and `i + 1`.
pub open spec fn pair_at(s: Seq<char>, i: int, a: char, b: char) -> bool {
    0 <= i && i + 1 < s.len() && s[i] == a && s[i + 1] == b
}

/// Whether characters `a` and `b` stand at `start` and behind it.
fn has_pair(src: &[char], start: usize, a: char, b: char) -> (r: bool)
    ensures
        r == pair_at(src@, start as int, a, b),
{
    start < src.len() && src[start] == a && start + 1 < src.len() && src[start + 1] == b
}

/// Whether an exec result that carries an end position stands for `m`.
pub open spec fn end_match(r: Option<usize>, m: Option<int>) -> bool {
    match r {
        Some(e) => m == Some(e as int),
        None => m is None,
    }
}

/// Whether an exec result that carries a token kind and an end position
/// stands for `m`.
pub open spec fn kind_match(r: Option<(TokenKind, usize)>, m: Option<(TokenKindView, int)>) -> bool {
    match r {
        Some((kind, e)) => m == Some((kind@, e as int)),
        None => m is None,
    }
}

/// The end of the text of a line comment whose text begins at `i`: the next
/// line feed, or carriage return directly before a line feed, or the end of
/// the source.
pub open spec fn line_end(s: Seq<char>, i: int) -> int
    decreases s.len() - i,
{
    if !(0 <= i < s.len()) || s[i] == '\n' || pair_at(s, i, '\r', '\n') {
        i
    } else {
        line_end(s, i + 1)
    }
}

/// A line comment: two hyphens and the text up to the end of the line. The
/// result is the position of the line end.
pub open spec fn spec_line_comment(s: Seq<char>, i: int) -> Option<int> {
    if pair_at(s, i, '-', '-') {
        Some(line_end(s, i + 2))
    } else {
        None
    }
}

/// The text of a line comment ends at or behind its start and inside the
/// source.
pub proof fn lemma_line_end(s: Seq<char>, i: int)
    ensures
        i <= line_end(s, i),
        i <= s.len() ==> line_end(s, i) <= s.len(),
    decreases s.len() - i,
{
    if !(0 <= i < s.len()) || s[i] == '\n' || pair_at(s, i, '\r', '\n') {
    } else {
        lemma_line_end(s, i + 1);
    }
}

/// Recognises a line comment at `start`.
pub fn line_comment(src: &[char], start: usize) -> (r: Option<usize>)
    ensures
        end_match(r, spec_line_comment(src@, start as int)),
{
    let len = src.len();
    if !has_pair(src, start, '-', '-') {
        return None;
    }
    let mut i = start + 2;
    while i < len && src[i] != '\n' && !has_pair(src, i, '\r', '\n')
        invariant
            len == src.len(),
            start + 2 <= i <= len,
            line_end(src@, start + 2) == line_end(src@, i as int),
        decreases src.len() - i,
    {
        i += 1;
    }
    Some(i)
}

/// The position behind the `*)` that closes the block comment whose text
/// begins at `i` when `depth` comments are open there; `None` where the source
/// ends first. A `(*` inside the text opens a comment of its own.
pub open spec fn comment_close(s: Seq<char>, i: int, depth: nat) -> Option<int>
    decreases s.len() - i,
{
    if !(0 <= i < s.len()) {
        None
    } else if pair_at(s, i, '(', '*') {
        comment_close(s, i + 2, depth + 1)
    } else if pair_at(s, i, '*', ')') {
        if depth <= 1 {
            Some(i + 2)
        } else {
            comment_close(s, i + 2, (depth - 1) as nat)
        }
    } else {
        comment_close(s, i + 1, depth)
    }
}

/// A block comment: `(*`, text with balanced inner comments, `*)`. The
/// result is the position behind the closing `*)`.
pub open spec fn spec_block_comment(s: Seq<char>, i: int) -> Option<int> {
    if pair_at(s, i, '(', '*') {
        comment_close(s, i + 2, 1)
    } else {
        None
    }
}

/// A block comment that closes is at least its two delimiters long and ends
/// inside the source.
pub proof fn lemma_comment_close(s: Seq<char>, i: int, depth: nat)
    ensures
        comment_close(s, i, depth) matches Some(e) ==> i + 2 <= e <= s.len(),
    decreases s.len() - i,
{
    if !(0 <= i < s.len()) {
    } else if pair_at(s, i, '(', '*') {
        lemma_comment_close(s, i + 2, depth + 1);
    } else if pair_at(s, i, '*', ')') {
        if depth > 1 {
            lemma_comment_close(s, i + 2, (depth - 1) as nat);
        }
    } else {
        lemma_comment_close(s, i + 1, depth);
    }
}

/// Recognises a block comment at `start`.
pub fn block_comment(src: &[char], start: usize) -> (r: Option<usize>)
    ensures
        end_match(r, spec_block_comment(src@, start as int)),
{
    let len = src.len();
    if !has_pair(src, start, '(', '*') {
        return None;
    }
    let mut i = start + 2;
    let mut depth: usize = 1;
    while i < len
        invariant
            len == src.len(),
            pair_at(src@, start as int, '(', '*'),
            start + 2 <= i <= len,
            1 <= depth <= i,
            comment_close(src@, start + 2, 1) == comment_close(src@, i as int, depth as nat),
        decreases len - i,
    {
        if has_pair(src, i, '(', '*') {
            depth += 1;
            i += 2;
        } else if has_pair(src, i, '*', ')') {
            if depth == 1 {
                return Some(i + 2);
            }
            depth -= 1;
            i += 2;
        } else {
            i += 1;
        }
    }
    None
}

/// Input that separates lexemes and yields no token: a run of white space, a
/// line comment or a block comment. The result is the position behind it.
pub open spec fn spec_discarded(s: Seq<char>, i: int) -> Option<int> {
    if run_end(s, i, CharClass::Space) > i {
        Some(run_end(s, i, CharClass::Space))
    } else if spec_line_comment(s, i) is Some {
        spec_line_comment(s, i)
    } else {
        spec_block_comment(s, i)
    }
}

/// Recognises one piece of discarded input at `start`.
pub fn discarded(src: &[char], start: usize) -> (r: Option<usize>)
    ensures
        end_match(r, spec_discarded(src@, start as int)),
{
    let end = scan_run(src, start, CharClass::Space);
    if end > start {
        return Some(end);
    }
    match line_comment(src, start) {
        Some(e) => Some(e),
        None => block_comment(src, start),
    }
}

/// The reserved word that `word` spells when capitals and small letters are
/// taken as equal.
pub open spec fn keyword(word: Seq<char>) -> Option<TokenKindView> {
    let w = lower_seq(word);
    if w == "class"@ {
        Some(TokenKindView::Class)
    } else if w == "inherits"@ {
        Some(TokenKindView::Inherits)
    } else if w == "if"@ {
        Some(TokenKindView::If)
    } else if w == "then"@ {
        Some(TokenKindView::Then)
    } else if w == "else"@ {
        Some(TokenKindView::Else)
    } else if w == "fi"@ {
        Some(TokenKindView::Fi)
    } else if w == "let"@ {
        Some(TokenKindView::Let)
    } else if w == "in"@ {
        Some(TokenKindView::In)
    } else if w == "while"@ {
        Some(TokenKindView::While)
    } else if w == "loop"@ {
        Some(TokenKindView::Loop)
    } else if w == "pool"@ {
        Some(TokenKindView::Pool)
    } else if w == "case"@ {
        Some(TokenKindView::Case)
    } else if w == "of"@ {
        Some(TokenKindView::Of)
    } else if w == "esac"@ {
        Some(TokenKindView::Esac)
    } else if w == "new"@ {
        Some(TokenKindView::New)
    } else if w == "isvoid"@ {
        Some(TokenKindView::IsVoid)
    } else if w == "not"@ {
        Some(TokenKindView::Not)
    } else {
        None
    }
}

/// A reserved word: the whole run of word characters at `i` spells one,
/// whatever the case of its letters. A word that merely begins like a
/// reserved word is none.
pub open spec fn spec_reserved_word(s: Seq<char>, i: int) -> Option<(TokenKindView, int)> {
    let e = run_end(s, i, CharClass::Word);
    if e > i {
        match keyword(s.subrange(i, e)) {
            Some(kind) => Some((kind, e)),
            None => None,
        }
    } else {
        None
    }
}

/// The small letter of an ASCII capital; any other character unchanged.
fn to_lower(c: char) -> (r: char)
    ensures
        r == lower(c),
{
    if 'A' <= c && c <= 'Z' {
        ((c as u8) + 32) as char
    } else {
        c
    }
}

/// Whether `src[start..end]` spells `word` when capitals and small letters
/// are taken as equal.
fn same_word(src: &[char], start: usize, end: usize, word: &str) -> (r: bool)
    requires
        start <= end <= src.len(),
    ensures
        r == (lower_seq(src@.subrange(start as int, end as int)) == word@),
{
    let n = word.unicode_len();
    if end - start != n {
        return false;
    }
    let mut k: usize = 0;
    while k < n
        invariant
            start <= end <= src.len(),
            n == word@.len(),
            end - start == n,
            k <= n,
            forall|j: int| 0 <= j < k ==> lower(#[trigger] src@[start + j]) == word@[j],
        decreases n - k,
    {
        if to_lower(src[start + k]) != word.get_char(k) {
            proof {
                let text = lower_seq(src@.subrange(start as int, end as int));
                assert(text[k as int] == lower(src@[start + k]));
            }
            return false;
        }
        k += 1;
    }
    proof {
        let text = lower_seq(src@.subrange(start as int, end as int));
        assert forall|j: int| 0 <= j < n implies text[j] == word@[j] by {
            assert(text[j] == lower(src@[start + j]));
        }
        assert(text =~= word@);
    }
    true
}

/// Recognises a reserved word at `start`.
pub fn reserved_word(src: &[char], start: usize) -> (r: Option<(TokenKind, usize)>)
    ensures
        kind_match(r, spec_reserved_word(src@, start as int)),
{
    let end = scan_run(src, start, CharClass::Word);
    proof {
        lemma_run_end(src@, start as int, CharClass::Word);
    }
    if end <= start {
        return None;
    }
    let kind = if same_word(src, start, end, "class") {
        TokenKind::Class
    } else if same_word(src, start, end, "inherits") {
        TokenKind::Inherits
    } else if same_word(src, start, end, "if") {
        TokenKind::If
    } else if same_word(src, start, end, "then") {
        TokenKind::Then
    } else if same_word(src, start, end, "else") {
        TokenKind::Else
    } else if same_word(src, start, end, "fi") {
        TokenKind::Fi
    } else if same_word(src, start, end, "let") {
        TokenKind::Let
    } else if same_word(src, start, end, "in") {
        TokenKind::In
    } else if same_word(src, start, end, "while") {
        TokenKind::While
    } else if same_word(src, start, end, "loop") {
        TokenKind::Loop
    } else if same_word(src, start, end, "pool") {
        TokenKind::Pool
    } else if same_word(src, start, end, "case") {
        TokenKind::Case
    } else if same_word(src, start, end, "of") {
        TokenKind::Of
    } else if same_word(src, start, end, "esac") {
        TokenKind::Esac
    } else if same_word(src, start, end, "new") {
        TokenKind::New
    } else if same_word(src, start, end, "isvoid") {
        TokenKind::IsVoid
    } else if same_word(src, start, end, "not") {
        TokenKind::Not
    } else {
        return None;
    };
    Some((kind, end))
}

/// The character at `i`, where there is one.
pub open spec fn char_at(s: Seq<char>, i: int) -> Option<char> {
    if 0 <= i < s.len() {
        Some(s[i])
    } else {
        None
    }
}

/// A punctuation mark or operator. The two-character symbols `<-`, `=>` and
/// `<=` win over the one-character symbols they begin with.
pub open spec fn spec_symbol(s: Seq<char>, i: int) -> Option<(TokenKindView, int)> {
    let next = char_at(s, i + 1);
    match char_at(s, i) {
        Some('@') => Some((TokenKindView::At, i + 1)),
        Some('<') => if next == Some('-') {
            Some((TokenKindView::Assign, i + 2))
        } else if next == Some('=') {
            Some((TokenKindView::LessThanOrEquals, i + 2))
        } else {
            Some((TokenKindView::LessThan, i + 1))
        },
        Some('=') => if next == Some('>') {
            Some((TokenKindView::DoubleArrow, i + 2))
        } else {
            Some((TokenKindView::Equals, i + 1))
        },
        Some('{') => Some((TokenKindView::OpenBraces, i + 1)),
        Some('}') => Some((TokenKindView::CloseBraces, i + 1)),
        Some('(') => Some((TokenKindView::OpenParens, i + 1)),
        Some(')') => Some((TokenKindView::CloseParens, i + 1)),
        Some('.') => Some((TokenKindView::Dot, i + 1)),
        Some(',') => Some((TokenKindView::Comma, i + 1)),
        Some(':') => Some((TokenKindView::Colon, i + 1)),
        Some(';') => Some((TokenKindView::SemiColon, i + 1)),
        Some('+') => Some((TokenKindView::Add, i + 1)),
        Some('-') => Some((TokenKindView::Subtract, i + 1)),
        Some('*') => Some((TokenKindView::Multiply, i + 1)),
        Some('/') => Some((TokenKindView::Divide, i + 1)),
        Some('~') => Some((TokenKindView::Negative, i + 1)),
        _ => None,
    }
}

/// Recognises a punctuation mark or operator at `start`.
pub fn symbol(src: &[char], start: usize) -> (r: Option<(TokenKind, usize)>)
    ensures
        kind_match(r, spec_symbol(src@, start as int)),
{
    let len = src.len();
    if start >= len {
        return None;
    }
    let c = src[start];
    let wide = start + 1 < len;
    if c == '<' {
        if wide && src[start + 1] == '-' {
            Some((TokenKind::Assign, start + 2))
        } else if wide && src[start + 1] == '=' {
            Some((TokenKind::LessThanOrEquals, start + 2))
        } else {
            Some((TokenKind::LessThan, start + 1))
        }
    } else if c == '=' {
        if wide && src[start + 1] == '>' {
            Some((TokenKind::DoubleArrow, start + 2))
        } else {
            Some((TokenKind::Equals, start + 1))
        }
    } else {
        let kind = if c == '@' {
            TokenKind::At
        } else if c == '{' {
            TokenKind::OpenBraces
        } else if c == '}' {
            TokenKind::CloseBraces
        } else if c == '(' {
            TokenKind::OpenParens
        } else if c == ')' {
            TokenKind::CloseParens
        } else if c == '.' {
            TokenKind::Dot
        } else if c == ',' {
            TokenKind::Comma
        } else if c == ':' {
            TokenKind::Colon
        } else if c == ';' {
            TokenKind::SemiColon
        } else if c == '+' {
            TokenKind::Add
        } else if c == '-' {
            TokenKind::Subtract
        } else if c == '*' {
            TokenKind::Multiply
        } else if c == '/' {
            TokenKind::Divide
        } else if c == '~' {
            TokenKind::Negative
        } else {
            return None;
        };
        Some((kind, start + 1))
    }
}

/// The value of a decimal digit.
pub open spec fn digit_value(c: char) -> nat {
    (c as int - 48) as nat
}

/// The number that a run of decimal digits writes.
pub open spec fn decimal_value(digits: Seq<char>) -> nat
    decreases digits.len(),
{
    if digits.len() == 0 {
        0
    } else {
        decimal_value(digits.drop_last()) * 10 + digit_value(digits.last())
    }
}

/// The number written by the first `n` digits is at most the number written
/// by all of them.
pub proof fn lemma_decimal_value_prefix(digits: Seq<char>, n: int)
    requires
        0 <= n <= digits.len(),
    ensures
        decimal_value(digits.take(n)) <= decimal_value(digits),
    decreases digits.len() - n,
{
    if n == digits.len() {
        assert(digits.take(n) == digits);
    } else {
        lemma_decimal_value_prefix(digits.drop_last(), n);
        assert(digits.drop_last().take(n) == digits.take(n));
    }
}

/// An integer literal: the longest run of decimal digits at `i`, where the
/// number it writes is at most `i32::MAX`.
pub open spec fn spec_int_literal(s: Seq<char>, i: int) -> Option<(TokenKindView, int)> {
    let e = run_end(s, i, CharClass::Digit);
    if e > i && decimal_value(s.subrange(i, e)) <= i32::MAX {
        Some((TokenKindView::IntLiteral(decimal_value(s.subrange(i, e)) as int), e))
    } else {
        None
    }
}

/// Recognises an integer literal at `start`.
pub fn int_literal(src: &[char], start: usize) -> (r: Option<(TokenKind, usize)>)
    ensures
        kind_match(r, spec_int_literal(src@, start as int)),
{
    let end = scan_run(src, start, CharClass::Digit);
    proof {
        lemma_run_end(src@, start as int, CharClass::Digit);
    }
    if end <= start {
        return None;
    }
    let ghost digits = src@.subrange(start as int, end as int);
    let mut value: u64 = 0;
    let mut i = start;
    while i < end
        invariant
            start <= i <= end <= src.len(),
            end == run_end(src@, start as int, CharClass::Digit),
            digits == src@.subrange(start as int, end as int),
            forall|j: int| start <= j < end ==> is_digit(#[trigger] src@[j]),
            value == decimal_value(digits.take(i - start)),
            value <= i32::MAX,
        decreases end - i,
    {
        let c = src[i];
        let d: u64 = ((c as u8) - 48) as u64;
        proof {
            assert(digits.take(i + 1 - start).drop_last() == digits.take(i - start));
            assert(digits.take(i + 1 - start).last() == c);
            assert(d == digit_value(c));
        }
        let next = value * 10 + d;
        assert(next == decimal_value(digits.take(i + 1 - start)));
        if next > 2147483647 {
            proof {
                lemma_decimal_value_prefix(digits, i + 1 - start);
            }
            return None;
        }
        value = next;
        i += 1;
    }
    proof {
        assert(digits.take(end - start) == digits);
    }
    Some((TokenKind::IntLiteral(value as i32), end))
}

/// The character that an escape sequence stands for, given the character
/// behind its backslash.
pub open spec fn unescape(c: char) -> char {
    if c == 'n' {
        '\n'
    } else if c == 't' {
        '\t'
    } else if c == 'b' {
        '\u{08}'
    } else if c == 'f' {
        '\u{0C}'
    } else {
        c
    }
}

/// An unescaped fragment of a string literal: the longest run of characters
/// other than the double quote and the backslash, where it is not empty.
pub open spec fn spec_unescaped_fragment(s: Seq<char>, i: int) -> Option<int> {
    if run_end(s, i, CharClass::Plain) > i {
        Some(run_end(s, i, CharClass::Plain))
    } else {
        None
    }
}

/// An escape sequence of a string literal: a backslash and one character.
pub open spec fn spec_escaped_char(s: Seq<char>, i: int) -> Option<(char, int)> {
    if 0 <= i && i + 1 < s.len() && s[i] == '\\' {
        Some((unescape(s[i + 1]), i + 2))
    } else {
        None
    }
}

/// The fragments of a string literal from `i` on: the text they decode to,
/// and the position behind the last of them.
pub open spec fn string_body(s: Seq<char>, i: int) -> (Seq<char>, int)
    decreases s.len() - i,
{
    match spec_unescaped_fragment(s, i) {
        Some(e) => {
            proof {
                lemma_run_end(s, i, CharClass::Plain);
            }
            (s.subrange(i, e) + string_body(s, e).0, string_body(s, e).1)
        },
        None => match spec_escaped_char(s, i) {
            Some((c, e)) => (seq![c] + string_body(s, e).0, string_body(s, e).1),
            None => (Seq::empty(), i),
        },
    }
}

/// A string literal: a double quote, fragments, a double quote. Its value is
/// the decoded text of the fragments.
pub open spec fn spec_str_literal(s: Seq<char>, i: int) -> Option<(TokenKindView, int)> {
    let (text, e) = string_body(s, i + 1);
    if char_at(s, i) == Some('"') && char_at(s, e) == Some('"') {
        Some((TokenKindView::StrLiteral(text), e + 1))
    } else {
        None
    }
}

/// Recognises an unescaped fragment of a string literal at `start`.
pub fn unescaped_fragment(src: &[char], start: usize) -> (r: Option<usize>)
    ensures
        end_match(r, spec_unescaped_fragment(src@, start as int)),
{
    let end = scan_run(src, start, CharClass::Plain);
    if end > start {
        Some(end)
    } else {
        None
    }
}

/// Recognises an escape sequence of a string literal at `start`.
pub fn escaped_char(src: &[char], start: usize) -> (r: Option<(char, usize)>)
    ensures
        match r {
            Some((c, e)) => spec_escaped_char(src@, start as int) == Some((c, e as int)),
            None => spec_escaped_char(src@, start as int) is None,
        },
{
    let len = src.len();
    if start < len && src[start] == '\\' && start + 1 < len {
        let x = src[start + 1];
        let c = if x == 'n' {
            '\n'
        } else if x == 't' {
            '\t'
        } else if x == 'b' {
            '\u{08}'
        } else if x == 'f' {
            '\u{0C}'
        } else {
            x
        };
        Some((c, start + 2))
    } else {
        None
    }
}

/// Appends `src[from..to]` to `out`.
fn push_text(out: &mut String, src: &[char], from: usize, to: usize)
    requires
        from <= to <= src.len(),
    ensures
        final(out)@ == old(out)@ + src@.subrange(from as int, to as int),
{
    let mut k = from;
    while k < to
        invariant
            from <= k <= to <= src.len(),
            out@ == old(out)@ + src@.subrange(from as int, k as int),
        decreases to - k,
    {
        out.push(src[k]);
        proof {
            assert(src@.subrange(from as int, k + 1) == src@.subrange(from as int, k as int).push(
                src@[k as int],
            ));
        }
        k += 1;
    }
}

/// Recognises a string literal at `start`.
pub fn str_literal(src: &[char], start: usize) -> (r: Option<(TokenKind, usize)>)
    ensures
        kind_match(r, spec_str_literal(src@, start as int)),
{
    let len = src.len();
    if !(start < len && src[start] == '"') {
        return None;
    }
    let mut text = String::new();
    let mut i = start + 1;
    let mut more = true;
    while more
        invariant
            len == src.len(),
            start < i <= len,
            string_body(src@, start + 1) == (
                text@ + string_body(src@, i as int).0,
                string_body(src@, i as int).1,
            ),
            !more ==> string_body(src@, i as int) == (Seq::<char>::empty(), i as int),
        decreases len - i, if more { 1int } else { 0int },
    {
        let ghost before = text@;
        let ghost tail = string_body(src@, i as int);
        match unescaped_fragment(src, i) {
            Some(e) => {
                proof {
                    lemma_run_end(src@, i as int, CharClass::Plain);
                    let rest = string_body(src@, e as int);
                    assert(tail == (src@.subrange(i as int, e as int) + rest.0, rest.1));
                    assert(before + (src@.subrange(i as int, e as int) + rest.0) == (before
                        + src@.subrange(i as int, e as int)) + rest.0);
                }
                push_text(&mut text, src, i, e);
                i = e;
            },
            None => match escaped_char(src, i) {
                Some((c, e)) => {
                    proof {
                        let rest = string_body(src@, e as int);
                        assert(tail == (seq![c] + rest.0, rest.1));
                        assert(before + (seq![c] + rest.0) == before.push(c) + rest.0);
                    }
                    text.push(c);
                    i = e;
                },
                None => {
                    more = false;
                },
            },
        }
    }
    proof {
        assert(text@ + Seq::<char>::empty() == text@);
    }
    if i < len && src[i] == '"' {
        Some((TokenKind::StrLiteral(text), i + 1))
    } else {
        None
    }
}

/// The literal `false`: a small `f`, then a run of word characters that
/// spells `alse` in any case.
pub open spec fn spec_false_literal(s: Seq<char>, i: int) -> Option<(TokenKindView, int)> {
    let e = run_end(s, i + 1, CharClass::Word);
    if char_at(s, i) == Some('f') && lower_seq(s.subrange(i + 1, e)) == "alse"@ {
        Some((TokenKindView::BoolLiteral(false), e))
    } else {
        None
    }
}

/// The literal `true`: a small `t`, then a run of word characters that spells
/// `rue` in any case.
pub open spec fn spec_true_literal(s: Seq<char>, i: int) -> Option<(TokenKindView, int)> {
    let e = run_end(s, i + 1, CharClass::Word);
    if char_at(s, i) == Some('t') && lower_seq(s.subrange(i + 1, e)) == "rue"@ {
        Some((TokenKindView::BoolLiteral(true), e))
    } else {
        None
    }
}

/// A boolean literal: `false` or `true`.
pub open spec fn spec_bool_literal(s: Seq<char>, i: int) -> Option<(TokenKindView, int)> {
    if spec_false_literal(s, i) is Some {
        spec_false_literal(s, i)
    } else {
        spec_true_literal(s, i)
    }
}

/// Recognises the literal `false` at `start`.
pub fn false_literal(src: &[char], start: usize) -> (r: Option<(TokenKind, usize)>)
    ensures
        kind_match(r, spec_false_literal(src@, start as int)),
{
    if !(start < src.len() && src[start] == 'f') {
        return None;
    }
    let end = scan_run(src, start + 1, CharClass::Word);
    proof {
        lemma_run_end(src@, start + 1, CharClass::Word);
    }
    if same_word(src, start + 1, end, "alse") {
        Some((TokenKind::BoolLiteral(false), end))
    } else {
        None
    }
}

/// Recognises the literal `true` at `start`.
pub fn true_literal(src: &[char], start: usize) -> (r: Option<(TokenKind, usize)>)
    ensures
        kind_match(r, spec_true_literal(src@, start as int)),
{
    if !(start < src.len() && src[start] == 't') {
        return None;
    }
    let end = scan_run(src, start + 1, CharClass::Word);
    proof {
        lemma_run_end(src@, start + 1, CharClass::Word);
    }
    if same_word(src, start + 1, end, "rue") {
        Some((TokenKind::BoolLiteral(true), end))
    } else {
        None
    }
}

/// Recognises a boolean literal at `start`.
pub fn bool_literal(src: &[char], start: usize) -> (r: Option<(TokenKind, usize)>)
    ensures
        kind_match(r, spec_bool_literal(src@, start as int)),
{
    match false_literal(src, start) {
        Some(found) => Some(found),
        None => true_literal(src, start),
    }
}

/// A type identifier: an ASCII capital, then the longest run of word
/// characters.
pub open spec fn spec_type_id(s: Seq<char>, i: int) -> Option<(TokenKindView, int)> {
    let e = run_end(s, i + 1, CharClass::Word);
    if 0 <= i < s.len() && is_upper(s[i]) {
        Some((TokenKindView::TypeId(s.subrange(i, e)), e))
    } else {
        None
    }
}

/// An object identifier: an ASCII small letter, then the longest run of word
/// characters.
pub open spec fn spec_ident(s: Seq<char>, i: int) -> Option<(TokenKindView, int)> {
    let e = run_end(s, i + 1, CharClass::Word);
    if 0 <= i < s.len() && is_lower(s[i]) {
        Some((TokenKindView::Ident(s.subrange(i, e)), e))
    } else {
        None
    }
}

/// Recognises a type identifier at `start`.
pub fn type_id(src: &[char], start: usize) -> (r: Option<(TokenKind, usize)>)
    ensures
        kind_match(r, spec_type_id(src@, start as int)),
{
    if !(start < src.len() && 'A' <= src[start] && src[start] <= 'Z') {
        return None;
    }
    let end = scan_run(src, start + 1, CharClass::Word);
    proof {
        lemma_run_end(src@, start + 1, CharClass::Word);
    }
    let mut name = String::new();
    push_text(&mut name, src, start, end);
    Some((TokenKind::TypeId(name), end))
}

/// Recognises an object identifier at `start`.
pub fn ident(src: &[char], start: usize) -> (r: Option<(TokenKind, usize)>)
    ensures
        kind_match(r, spec_ident(src@, start as int)),
{
    if !(start < src.len() && 'a' <= src[start] && src[start] <= 'z') {
        return None;
    }
    let end = scan_run(src, start + 1, CharClass::Word);
    proof {
        lemma_run_end(src@, start + 1, CharClass::Word);
    }
    let mut name = String::new();
    push_text(&mut name, src, start, end);
    Some((TokenKind::Ident(name), end))
}

/// The token that begins at `i`. Where several rules apply the first of
/// these wins: reserved word, symbol, integer literal, string literal,
/// boolean literal, type identifier, object identifier.
pub open spec fn spec_token(s: Seq<char>, i: int) -> Option<(TokenKindView, int)> {
    if spec_reserved_word(s, i) is Some {
        spec_reserved_word(s, i)
    } else if spec_symbol(s, i) is Some {
        spec_symbol(s, i)
    } else if spec_int_literal(s, i) is Some {
        spec_int_literal(s, i)
    } else if spec_str_literal(s, i) is Some {
        spec_str_literal(s, i)
    } else if spec_bool_literal(s, i) is Some {
        spec_bool_literal(s, i)
    } else if spec_type_id(s, i) is Some {
        spec_type_id(s, i)
    } else {
        spec_ident(s, i)
    }
}

/// Recognises the token that begins at `start`.
pub fn token(src: &[char], start: usize) -> (r: Option<(TokenKind, usize)>)
    ensures
        kind_match(r, spec_token(src@, start as int)),
{
    if let Some(found) = reserved_word(src, start) {
        return Some(found);
    }
    if let Some(found) = symbol(src, start) {
        return Some(found);
    }
    if let Some(found) = int_literal(src, start) {
        return Some(found);
    }
    if let Some(found) = str_literal(src, start) {
        return Some(found);
    }
    if let Some(found) = bool_literal(src, start) {
        return Some(found);
    }
    if let Some(found) = type_id(src, start) {
        return Some(found);
    }
    ident(src, start)
}

/// The end of the fragments of a string literal lies at or behind their
/// start and inside the source.
pub proof fn lemma_string_body(s: Seq<char>, i: int)
    requires
        0 <= i <= s.len(),
    ensures
        i <= string_body(s, i).1 <= s.len(),
    decreases s.len() - i,
{
    match spec_unescaped_fragment(s, i) {
        Some(e) => {
            lemma_run_end(s, i, CharClass::Plain);
            lemma_string_body(s, e);
        },
        None => match spec_escaped_char(s, i) {
            Some((c, e)) => {
                lemma_string_body(s, e);
            },
            None => {},
        },
    }
}

/// A token is not empty and ends inside the source.
pub proof fn lemma_token(s: Seq<char>, i: int)
    ensures
        spec_token(s, i) matches Some((kind, e)) ==> 0 <= i < e <= s.len(),
{
    lemma_run_end(s, i, CharClass::Word);
    lemma_run_end(s, i, CharClass::Digit);
    lemma_run_end(s, i + 1, CharClass::Word);
    if 0 <= i < s.len() {
        lemma_string_body(s, i + 1);
    }
}

/// A piece of discarded input is not empty and ends inside the source.
pub proof fn lemma_discarded(s: Seq<char>, i: int)
    ensures
        spec_discarded(s, i) matches Some(e) ==> 0 <= i < e <= s.len(),
{
    lemma_run_end(s, i, CharClass::Space);
    lemma_line_end(s, i + 2);
    lemma_comment_close(s, i + 2, 1);
}

/// The position behind all the discarded input that begins at `i`: where the
/// next token must begin, or the end of the source.
pub open spec fn skip_all(s: Seq<char>, i: int) -> int
    decreases s.len() - i,
{
    match spec_discarded(s, i) {
        Some(e) => {
            proof {
                lemma_discarded(s, i);
            }
            skip_all(s, e)
        },
        None => i,
    }
}

/// Skipping ends at or behind its start and inside the source, where no
/// discarded input begins.
pub proof fn lemma_skip_all(s: Seq<char>, i: int)
    ensures
        i <= skip_all(s, i),
        0 <= i <= s.len() ==> skip_all(s, i) <= s.len(),
        spec_discarded(s, skip_all(s, i)) is None,
    decreases s.len() - i,
{
    lemma_discarded(s, i);
    match spec_discarded(s, i) {
        Some(e) => {
            lemma_skip_all(s, e);
        },
        None => {},
    }
}

/// Skips all the discarded input that begins at `start`.
pub fn skip_discarded(src: &[char], start: usize) -> (end: usize)
    ensures
        end == skip_all(src@, start as int),
{
    let mut i = start;
    let mut more = true;
    while more
        invariant
            start <= i,
            skip_all(src@, start as int) == skip_all(src@, i as int),
            !more ==> spec_discarded(src@, i as int) is None,
        decreases src.len() - i, if more { 1int } else { 0int },
    {
        proof {
            lemma_discarded(src@, i as int);
        }
        match discarded(src, i) {
            Some(e) => {
                i = e;
            },
            None => {
                more = false;
            },
        }
    }
    i
}

/// Why scanning stops short of the end of the source.
#[derive(Debug, Clone, Copy, PartialEq, Eq)]
pub enum ScanErrorKind {
    /// A block comment is still open where the source ends.
    UnterminatedComment,
    /// A string literal is still open where the source ends.
    UnterminatedString,
    /// An integer literal writes a number above `i32::MAX`.
    IntegerOverflow,
    /// No token can begin with the character.
    UnexpectedCharacter,
}

/// A failed scan: why it failed and where.
#[derive(Debug, Clone, Copy, PartialEq)]
pub struct ScanError<'a> {
    pub kind: ScanErrorKind,
    pub location: Span<'a>,
}

/// The mathematical value of a [`ScanError`].
pub struct ScanErrorView {
    pub kind: ScanErrorKind,
    pub location: SpanView,
}

impl<'a> View for ScanError<'a> {
    type V = ScanErrorView;

    open spec fn view(&self) -> ScanErrorView {
        ScanErrorView { kind: self.kind, location: self.location@ }
    }
}

/// A token in the source: its kind and the positions where its lexeme
/// begins and ends.
pub struct Lexeme {
    pub kind: TokenKindView,
    pub start: int,
    pub end: int,
}

/// The position where scanning fails, and why.
pub struct ScanFailure {
    pub kind: ScanErrorKind,
    pub at: int,
}

/// Why no token begins with the character `c`, given that none does: a digit
/// begins an integer literal, which fails only by being too large; a double
/// quote begins a string literal, which fails only by staying open.
pub open spec fn failure_kind(c: char) -> ScanErrorKind {
    if is_digit(c) {
        ScanErrorKind::IntegerOverflow
    } else if c == '"' {
        ScanErrorKind::UnterminatedString
    } else {
        ScanErrorKind::UnexpectedCharacter
    }
}

/// The tokens of the source from position `i` on, in source order, or the
/// first failure. Discarded input is skipped before every token and before
/// the end of the source. A `(*` that is left standing after the skip opens a
/// comment that never closes.
pub open spec fn scan_from(s: Seq<char>, i: int) -> Result<Seq<Lexeme>, ScanFailure>
    decreases s.len() - i,
{
    let p = skip_all(s, i);
    if !(0 <= i <= p < s.len()) {
        Ok(Seq::empty())
    } else if pair_at(s, p, '(', '*') {
        Err(ScanFailure { kind: ScanErrorKind::UnterminatedComment, at: p })
    } else {
        match spec_token(s, p) {
            None => Err(ScanFailure { kind: failure_kind(s[p]), at: p }),
            Some((kind, e)) => {
                proof {
                    lemma_token(s, p);
                }
                match scan_from(s, e) {
                    Ok(rest) => Ok(seq![Lexeme { kind, start: p, end: e }] + rest),
                    Err(failure) => Err(failure),
                }
            },
        }
    }
}

/// The number of bytes that the UTF-8 encoding of `c` takes.
pub open spec fn utf8_width(c: char) -> nat {
    if (c as u32) < 0x80 {
        1
    } else if (c as u32) < 0x800 {
        2
    } else if (c as u32) < 0x10000 {
        3
    } else {
        4
    }
}

/// The number of bytes that the first `i` characters of the source take in
/// UTF-8.
pub open spec fn byte_offset(s: Seq<char>, i: int) -> nat
    decreases i,
{
    if i <= 0 {
        0
    } else {
        byte_offset(s, i - 1) + utf8_width(s[i - 1])
    }
}

/// The number of line feeds among the first `i` characters of the source.
pub open spec fn line_breaks(s: Seq<char>, i: int) -> nat
    decreases i,
{
    if i <= 0 {
        0
    } else if s[i - 1] == '\n' {
        line_breaks(s, i - 1) + 1
    } else {
        line_breaks(s, i - 1)
    }
}

/// The number of bytes between the start of the line that holds position `i`
/// and that position.
pub open spec fn column_offset(s: Seq<char>, i: int) -> nat
    decreases i,
{
    if i <= 0 || s[i - 1] == '\n' {
        0
    } else {
        column_offset(s, i - 1) + utf8_width(s[i - 1])
    }
}

/// The place of position `i` in a source file labelled `label`. Lines and
/// columns count from 1; the column and the offset count bytes.
pub open spec fn location_at(s: Seq<char>, i: int, label: Seq<char>) -> SpanView {
    SpanView {
        offset: byte_offset(s, i),
        line: line_breaks(s, i) + 1,
        column: column_offset(s, i) + 1,
        extra: label,
    }
}

/// The tokens that stand for lexemes of a source file labelled `label`.
pub open spec fn locate_all(s: Seq<char>, lexemes: Seq<Lexeme>, label: Seq<char>) -> Seq<
    TokenView,
> {
    Seq::new(
        lexemes.len(),
        |k: int| TokenView { kind: lexemes[k].kind, location: location_at(s, lexemes[k].start, label) },
    )
}

/// The tokens of a source file labelled `label`, or the first scan error.
pub open spec fn spec_lex(s: Seq<char>, label: Seq<char>) -> Result<Seq<TokenView>, ScanErrorView> {
    match scan_from(s, 0) {
        Ok(lexemes) => Ok(locate_all(s, lexemes, label)),
        Err(failure) => Err(
            ScanErrorView { kind: failure.kind, location: location_at(s, failure.at, label) },
        ),
    }
}

/// A longer part of the source takes at least as many bytes.
pub proof fn lemma_byte_offset_le(s: Seq<char>, i: int, j: int)
    requires
        i <= j,
    ensures
        byte_offset(s, i) <= byte_offset(s, j),
    decreases j - i,
{
    if i < j {
        lemma_byte_offset_le(s, i, j - 1);
    }
}

/// The bytes of a part of the source are the bytes of its first character
/// and the bytes of the rest.
proof fn lemma_byte_offset_shift(s: Seq<char>, i: int)
    requires
        0 <= i < s.len(),
    ensures
        byte_offset(s, i + 1) == utf8_width(s[0]) + byte_offset(s.drop_first(), i),
    decreases i,
{
    if i > 0 {
        lemma_byte_offset_shift(s, i - 1);
        assert(s.drop_first()[i - 1] == s[i]);
    } else {
        assert(byte_offset(s, 0) == 0);
        assert(byte_offset(s.drop_first(), 0) == 0);
    }
}

/// The byte offset of the end of the source is the length of its UTF-8
/// encoding.
pub proof fn lemma_byte_offset_total(s: Seq<char>)
    ensures
        byte_offset(s, s.len() as int) == encode_utf8(s).len(),
    decreases s.len(),
{
    if s.len() > 0 {
        lemma_byte_offset_total(s.drop_first());
        lemma_byte_offset_shift(s, s.len() - 1);
        vstd::utf8::char_is_scalar(s[0]);
        assert(encode_scalar(s[0] as u32).len() == utf8_width(s[0]));
    }
}

/// The characters of a string, in order.
pub fn chars_of(text: &str) -> (chars: Vec<char>)
    ensures
        chars@ == text@,
{
    let mut chars: Vec<char> = Vec::new();
    for c in it: text.chars()
        invariant
            it.seq() == text@,
            chars@ == text@.take(it.index()),
    {
        chars.push(c);
        proof {
            let n = it.index();
            assert(text@.take(n + 1) == text@.take(n).push(c));
        }
    }
    proof {
        assert(text@.take(text@.len() as int) == text@);
    }
    chars
}

/// A position in the source together with the counts that place it.
struct Cursor {
    index: usize,
    offset: usize,
    breaks: usize,
    column: usize,
}

impl Cursor {
    /// Whether the counts are those of the cursor's position in `s`.
    spec fn tracks(self, s: Seq<char>) -> bool {
        &&& self.index <= s.len()
        &&& self.offset == byte_offset(s, self.index as int)
        &&& self.breaks == line_breaks(s, self.index as int)
        &&& self.column == column_offset(s, self.index as int)
        &&& self.breaks <= self.index
        &&& self.column <= self.offset
    }

    /// The cursor moved on to position `to`.
    fn advance(self, src: &[char], to: usize) -> (next: Cursor)
        requires
            self.tracks(src@),
            self.index <= to <= src.len(),
            byte_offset(src@, src@.len() as int) <= usize::MAX,
        ensures
            next.tracks(src@),
            next.index == to,
    {
        let mut cur = self;
        while cur.index < to
            invariant
                cur.tracks(src@),
                cur.index <= to <= src.len(),
                byte_offset(src@, src@.len() as int) <= usize::MAX,
            decreases to - cur.index,
        {
            let c = src[cur.index];
            let code = c as u32;
            let width: usize = if code < 0x80 {
                1
            } else if code < 0x800 {
                2
            } else if code < 0x10000 {
                3
            } else {
                4
            };
            proof {
                lemma_byte_offset_le(src@, cur.index + 1, src@.len() as int);
            }
            let column = if c == '\n' {
                0
            } else {
                cur.column + width
            };
            let breaks = if c == '\n' {
                cur.breaks + 1
            } else {
                cur.breaks
            };
            cur = Cursor { index: cur.index + 1, offset: cur.offset + width, breaks, column };
        }
        cur
    }

    /// The place of the cursor, which stands before a character.
    fn span<'a>(&self, src: &[char], label: &'a str) -> (span: Span<'a>)
        requires
            self.tracks(src@),
            self.index < src.len(),
            byte_offset(src@, src@.len() as int) <= usize::MAX,
        ensures
            span@ == location_at(src@, self.index as int, label@),
    {
        proof {
            lemma_byte_offset_le(src@, self.index + 1, src@.len() as int);
        }
        Span { offset: self.offset, line: self.breaks + 1, column: self.column + 1, extra: label }
    }
}

/// A scan result with the lexemes `done` put in front of it.
pub open spec fn after(done: Seq<Lexeme>, rest: Result<Seq<Lexeme>, ScanFailure>) -> Result<
    Seq<Lexeme>,
    ScanFailure,
> {
    match rest {
        Ok(lexemes) => Ok(done + lexemes),
        Err(failure) => Err(failure),
    }
}

/// Scans a source file into its tokens. `filename` labels the place of every
/// token and of the error.
pub fn lex_tokens<'a>(input: &str, filename: &'a str) -> (r: Result<Vec<Token<'a>>, ScanError<'a>>)
    ensures
        match r {
            Ok(tokens) => spec_lex(input@, filename@) == Ok::<Seq<TokenView>, ScanErrorView>(
                token_views(tokens@),
            ),
            Err(error) => spec_lex(input@, filename@) == Err::<Seq<TokenView>, ScanErrorView>(
                error@,
            ),
        },
{
    let chars = chars_of(input);
    let src = chars.as_slice();
    let len = src.len();
    // The text is held in memory as UTF-8, so its length in bytes, and with
    // it every byte offset, fits a `usize`.
    let _ = input.as_bytes().len();
    proof {
        lemma_byte_offset_total(src@);
        assert(src@ == input@);
    }
    let mut tokens: Vec<Token<'a>> = Vec::new();
    let ghost mut done: Seq<Lexeme> = Seq::empty();
    let mut cur = Cursor { index: 0, offset: 0, breaks: 0, column: 0 };
    proof {
        assert(after(done, scan_from(src@, 0)) == scan_from(src@, 0)) by {
            match scan_from(src@, 0) {
                Ok(lexemes) => {
                    assert(done + lexemes == lexemes);
                },
                Err(_) => {},
            }
        }
    }
    loop
        invariant
            len == src.len(),
            src@ == input@,
            byte_offset(src@, src@.len() as int) <= usize::MAX,
            cur.tracks(src@),
            token_views(tokens@) == locate_all(src@, done, filename@),
            scan_from(src@, 0) == after(done, scan_from(src@, cur.index as int)),
        decreases len - cur.index,
    {
        let ghost from = cur.index as int;
        let p = skip_discarded(src, cur.index);
        proof {
            lemma_skip_all(src@, from);
        }
        cur = cur.advance(src, p);
        if p >= len {
            proof {
                assert(done + Seq::<Lexeme>::empty() == done);
            }
            return Ok(tokens);
        }
        let here = cur.span(src, filename);
        if has_pair(src, p, '(', '*') {
            return Err(ScanError { kind: ScanErrorKind::UnterminatedComment, location: here });
        }
        match token(src, p) {
            None => {
                let c = src[p];
                let kind = if '0' <= c && c <= '9' {
                    ScanErrorKind::IntegerOverflow
                } else if c == '"' {
                    ScanErrorKind::UnterminatedString
                } else {
                    ScanErrorKind::UnexpectedCharacter
                };
                return Err(ScanError { kind, location: here });
            },
            Some((kind, e)) => {
                proof {
                    lemma_token(src@, p as int);
                    let lexeme = Lexeme { kind: kind@, start: p as int, end: e as int };
                    let rest = scan_from(src@, e as int);
                    assert(scan_from(src@, from) == after(seq![lexeme], rest));
                    assert(after(done, after(seq![lexeme], rest)) == after(done.push(lexeme), rest))
                        by {
                        match rest {
                            Ok(lexemes) => {
                                assert(done + (seq![lexeme] + lexemes) == done.push(lexeme)
                                    + lexemes);
                            },
                            Err(_) => {},
                        }
                    }
                    let grown = token_views(tokens@.push(Token { kind, location: here }));
                    let located = locate_all(src@, done.push(lexeme), filename@);
                    assert(token_views(tokens@).len() == locate_all(src@, done, filename@).len());
                    assert forall|k: int| 0 <= k < grown.len() implies grown[k] == located[k] by {
                        if k < tokens@.len() {
                            assert(token_views(tokens@)[k] == locate_all(src@, done, filename@)[k]);
                        }
                    }
                    assert(grown =~= located);
                    done = done.push(lexeme);
                }
                tokens.push(Token { kind, location: here });
                cur = cur.advance(src, e);
            },
        }
    }
}

} // verus!
