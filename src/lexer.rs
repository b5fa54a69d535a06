//! Lexical analysis: source text to tokens.
//!
//! Tokens are recognised by maximal munch: at each position the longest
//! lexeme wins, and a keyword wins over an identifier of the same length.
//! Blanks (space, tab, newline, form feed) and `//` line comments are
//! skipped. Any position at which no token starts fails the whole call.
use vstd::prelude::*;
use crate::error::LexerError;
use crate::text::{chars_of, push_char};

verus! {

/// The tokens of the language.
#[derive(Debug, Clone, PartialEq)]
pub enum Token {
    Int,
    Float,
    StringType,
    If,
    Else,
    For,
    Return,
    Extern,
    Identifier(String),
    /// The literal's text, `digits.digits`.
    FloatLiteral(String),
    IntLiteral(i64),
    /// The literal's contents with escapes resolved.
    StringLiteral(String),
    /// The header name of `#include <name>`.
    Include(String),
    LessEqual,
    GreaterEqual,
    Equal,
    NotEqual,
    LessThan,
    GreaterThan,
    Assign,
    Plus,
    Minus,
    Multiply,
    Divide,
    Semicolon,
    Comma,
    LParen,
    RParen,
    LBrace,
    RBrace,
    Ellipsis,
}

/// A token as contracts see it: text payloads are character sequences.
pub enum Lexeme {
    Int,
    Float,
    StringType,
    If,
    Else,
    For,
    Return,
    Extern,
    Identifier(Seq<char>),
    FloatLiteral(Seq<char>),
    IntLiteral(i64),
    StringLiteral(Seq<char>),
    Include(Seq<char>),
    LessEqual,
    GreaterEqual,
    Equal,
    NotEqual,
    LessThan,
    GreaterThan,
    Assign,
    Plus,
    Minus,
    Multiply,
    Divide,
    Semicolon,
    Comma,
    LParen,
    RParen,
    LBrace,
    RBrace,
    Ellipsis,
}

impl View for Token {
    type V = Lexeme;

    open spec fn view(&self) -> Lexeme {
        match self {
            Token::Int => Lexeme::Int,
            Token::Float => Lexeme::Float,
            Token::StringType => Lexeme::StringType,
            Token::If => Lexeme::If,
            Token::Else => Lexeme::Else,
            Token::For => Lexeme::For,
            Token::Return => Lexeme::Return,
            Token::Extern => Lexeme::Extern,
            Token::Identifier(s) => Lexeme::Identifier(s@),
            Token::FloatLiteral(s) => Lexeme::FloatLiteral(s@),
            Token::IntLiteral(n) => Lexeme::IntLiteral(*n),
            Token::StringLiteral(s) => Lexeme::StringLiteral(s@),
            Token::Include(s) => Lexeme::Include(s@),
            Token::LessEqual => Lexeme::LessEqual,
            Token::GreaterEqual => Lexeme::GreaterEqual,
            Token::Equal => Lexeme::Equal,
            Token::NotEqual => Lexeme::NotEqual,
            Token::LessThan => Lexeme::LessThan,
            Token::GreaterThan => Lexeme::GreaterThan,
            Token::Assign => Lexeme::Assign,
            Token::Plus => Lexeme::Plus,
            Token::Minus => Lexeme::Minus,
            Token::Multiply => Lexeme::Multiply,
            Token::Divide => Lexeme::Divide,
            Token::Semicolon => Lexeme::Semicolon,
            Token::Comma => Lexeme::Comma,
            Token::LParen => Lexeme::LParen,
            Token::RParen => Lexeme::RParen,
            Token::LBrace => Lexeme::LBrace,
            Token::RBrace => Lexeme::RBrace,
            Token::Ellipsis => Lexeme::Ellipsis,
        }
    }
}

/// The lexemes of a token sequence.
pub open spec fn lexemes(ts: Seq<Token>) -> Seq<Lexeme> {
    ts.map_values(|t: Token| t@)
}

// ---------------------------------------------------------------------------
// Character classes

pub open spec fn is_blank(c: char) -> bool {
    c == ' ' || c == '\t' || c == '\n' || c == '\x0C'
}

/// Blanks allowed between `#include` and `<`.
pub open spec fn is_directive_space(c: char) -> bool {
    is_blank(c) || c == '\r' || c == '\x0B'
}

pub open spec fn is_digit(c: char) -> bool {
    '0' <= c && c <= '9'
}

pub open spec fn is_ident_start(c: char) -> bool {
    ('a' <= c && c <= 'z') || ('A' <= c && c <= 'Z') || c == '_'
}

pub open spec fn is_ident_char(c: char) -> bool {
    is_ident_start(c) || is_digit(c)
}

pub open spec fn is_hex(c: char) -> bool {
    is_digit(c) || ('a' <= c && c <= 'f') || ('A' <= c && c <= 'F')
}

pub open spec fn hex_value(c: char) -> nat {
    if is_digit(c) {
        (c as nat - '0' as nat) as nat
    } else if 'a' <= c && c <= 'f' {
        (c as nat - 'a' as nat + 10) as nat
    } else {
        (c as nat - 'A' as nat + 10) as nat
    }
}

/// The character whose code is the byte `b`.
pub open spec fn byte_char(b: nat) -> char {
    ((b % 256) as u8) as char
}

/// The value of a sequence of decimal digits.
pub open spec fn digits_value(d: Seq<char>) -> nat
    decreases d.len(),
{
    if d.len() == 0 {
        0
    } else {
        digits_value(d.drop_last()) * 10 + (d.last() as nat - '0' as nat) as nat
    }
}

// ---------------------------------------------------------------------------
// Scanning: the end of a run that starts at `i`

pub open spec fn ident_end(s: Seq<char>, i: int) -> int
    decreases s.len() - i,
{
    if 0 <= i < s.len() && is_ident_char(s[i]) {
        ident_end(s, i + 1)
    } else {
        i
    }
}

pub open spec fn digits_end(s: Seq<char>, i: int) -> int
    decreases s.len() - i,
{
    if 0 <= i < s.len() && is_digit(s[i]) {
        digits_end(s, i + 1)
    } else {
        i
    }
}

pub open spec fn directive_space_end(s: Seq<char>, i: int) -> int
    decreases s.len() - i,
{
    if 0 <= i < s.len() && is_directive_space(s[i]) {
        directive_space_end(s, i + 1)
    } else {
        i
    }
}

/// The end of a line comment: the next newline, or the end of the text.
pub open spec fn line_end(s: Seq<char>, i: int) -> int
    decreases s.len() - i,
{
    if 0 <= i < s.len() && s[i] != '\n' {
        line_end(s, i + 1)
    } else {
        i
    }
}

/// The next `>` at or after `i`, or the end of the text.
pub open spec fn angle_end(s: Seq<char>, i: int) -> int
    decreases s.len() - i,
{
    if 0 <= i < s.len() && s[i] != '>' {
        angle_end(s, i + 1)
    } else {
        i
    }
}

/// The closing quote of a string literal whose contents start at `i`: a
/// backslash escapes the next character unless that is a newline.
pub open spec fn string_close(s: Seq<char>, i: int) -> Option<int>
    decreases s.len() - i,
{
    if i < 0 || i >= s.len() {
        None
    } else if s[i] == '"' {
        Some(i)
    } else if s[i] == '\\' {
        if i + 1 < s.len() && s[i + 1] != '\n' {
            string_close(s, i + 2)
        } else {
            None
        }
    } else {
        string_close(s, i + 1)
    }
}

// ---------------------------------------------------------------------------
// Escapes

pub open spec fn escape_char(e: char) -> char {
    if e == 'n' {
        '\n'
    } else if e == 't' {
        '\t'
    } else if e == 'r' {
        '\r'
    } else if e == '0' {
        '\0'
    } else {
        e
    }
}

/// A string literal's contents with C escapes resolved: `\n \t \r \" \' \0`,
/// `\xHH` with one or two hex digits, any other escaped character kept as
/// itself, and a trailing lone backslash kept.
pub open spec fn unescape(s: Seq<char>) -> Seq<char>
    decreases s.len(),
{
    if s.len() == 0 {
        seq![]
    } else if s[0] != '\\' {
        seq![s[0]] + unescape(s.subrange(1, s.len() as int))
    } else if s.len() == 1 {
        seq!['\\']
    } else if s[1] != 'x' {
        seq![escape_char(s[1])] + unescape(s.subrange(2, s.len() as int))
    } else if s.len() >= 4 {
        if is_hex(s[2]) && is_hex(s[3]) {
            seq![byte_char(hex_value(s[2]) * 16 + hex_value(s[3]))] + unescape(
                s.subrange(4, s.len() as int),
            )
        } else {
            seq!['x', s[2], s[3]] + unescape(s.subrange(4, s.len() as int))
        }
    } else if s.len() == 3 {
        if is_hex(s[2]) {
            seq![byte_char(hex_value(s[2]))]
        } else {
            seq!['x', s[2]]
        }
    } else {
        seq![]
    }
}

// ---------------------------------------------------------------------------
// Tokens

pub open spec fn word_lexeme(w: Seq<char>) -> Lexeme {
    if w == seq!['i', 'n', 't'] {
        Lexeme::Int
    } else if w == seq!['f', 'l', 'o', 'a', 't'] {
        Lexeme::Float
    } else if w == seq!['s', 't', 'r', 'i', 'n', 'g'] {
        Lexeme::StringType
    } else if w == seq!['i', 'f'] {
        Lexeme::If
    } else if w == seq!['e', 'l', 's', 'e'] {
        Lexeme::Else
    } else if w == seq!['f', 'o', 'r'] {
        Lexeme::For
    } else if w == seq!['r', 'e', 't', 'u', 'r', 'n'] {
        Lexeme::Return
    } else if w == seq!['e', 'x', 't', 'e', 'r', 'n'] {
        Lexeme::Extern
    } else {
        Lexeme::Identifier(w)
    }
}

pub open spec fn include_word() -> Seq<char> {
    seq!['#', 'i', 'n', 'c', 'l', 'u', 'd', 'e']
}

/// A number at `i` (a digit is there): a float `digits.digits`, else an
/// integer that fits in `i64`.
pub open spec fn number_at(s: Seq<char>, i: int) -> Option<(Lexeme, int)> {
    let j = digits_end(s, i);
    if j + 1 < s.len() && s[j] == '.' && is_digit(s[j + 1]) {
        let k = digits_end(s, j + 1);
        Some((Lexeme::FloatLiteral(s.subrange(i, k)), k))
    } else if digits_value(s.subrange(i, j)) <= i64::MAX {
        Some((Lexeme::IntLiteral(digits_value(s.subrange(i, j)) as i64), j))
    } else {
        None
    }
}

/// `#include`, blanks, then `<name>` with a non-empty name.
pub open spec fn include_at(s: Seq<char>, i: int) -> Option<(Lexeme, int)> {
    if i + 8 <= s.len() && s.subrange(i, i + 8) == include_word() {
        let j = directive_space_end(s, i + 8);
        if j < s.len() && s[j] == '<' {
            let k = angle_end(s, j + 1);
            if j + 1 < k < s.len() {
                Some((Lexeme::Include(s.subrange(j + 1, k)), k + 1))
            } else {
                None
            }
        } else {
            None
        }
    } else {
        None
    }
}

/// A one- or two-character operator at `i`, where `c == s[i]`.
pub open spec fn operator_at(s: Seq<char>, i: int) -> Option<(Lexeme, int)> {
    let n = s.len();
    let c = s[i];
    let next_is_eq = i < n - 1 && s[i + 1] == '=';
    if c == '<' {
        if next_is_eq { Some((Lexeme::LessEqual, i + 2)) } else { Some((Lexeme::LessThan, i + 1)) }
    } else if c == '>' {
        if next_is_eq { Some((Lexeme::GreaterEqual, i + 2)) } else { Some((Lexeme::GreaterThan, i + 1)) }
    } else if c == '=' {
        if next_is_eq { Some((Lexeme::Equal, i + 2)) } else { Some((Lexeme::Assign, i + 1)) }
    } else if c == '!' {
        if next_is_eq { Some((Lexeme::NotEqual, i + 2)) } else { None }
    } else if c == '.' {
        if n - i > 2 && s[i + 1] == '.' && s[i + 2] == '.' {
            Some((Lexeme::Ellipsis, i + 3))
        } else {
            None
        }
    } else if c == '+' {
        Some((Lexeme::Plus, i + 1))
    } else if c == '-' {
        Some((Lexeme::Minus, i + 1))
    } else if c == '*' {
        Some((Lexeme::Multiply, i + 1))
    } else if c == '/' {
        Some((Lexeme::Divide, i + 1))
    } else if c == ';' {
        Some((Lexeme::Semicolon, i + 1))
    } else if c == ',' {
        Some((Lexeme::Comma, i + 1))
    } else if c == '(' {
        Some((Lexeme::LParen, i + 1))
    } else if c == ')' {
        Some((Lexeme::RParen, i + 1))
    } else if c == '{' {
        Some((Lexeme::LBrace, i + 1))
    } else if c == '}' {
        Some((Lexeme::RBrace, i + 1))
    } else {
        None
    }
}

/// The token that starts at `i` (not a blank, not a comment) and where it
/// ends; `None` when no token starts there.
pub open spec fn token_at(s: Seq<char>, i: int) -> Option<(Lexeme, int)> {
    let c = s[i];
    if is_ident_start(c) {
        let j = ident_end(s, i);
        Some((word_lexeme(s.subrange(i, j)), j))
    } else if is_digit(c) {
        number_at(s, i)
    } else if c == '"' {
        match string_close(s, i + 1) {
            Some(k) => Some((Lexeme::StringLiteral(unescape(s.subrange(i + 1, k))), k + 1)),
            None => None,
        }
    } else if c == '#' {
        include_at(s, i)
    } else {
        operator_at(s, i)
    }
}

pub open spec fn comment_at(s: Seq<char>, i: int) -> bool {
    i + 1 < s.len() && s[i] == '/' && s[i + 1] == '/'
}

/// The tokens of `s` from position `i` on, or `None` when some position
/// starts no token.
pub open spec fn lex_from(s: Seq<char>, i: int) -> Option<Seq<Lexeme>>
    decreases s.len() - i,
{
    if i < 0 || i >= s.len() {
        Some(seq![])
    } else if is_blank(s[i]) {
        lex_from(s, i + 1)
    } else if comment_at(s, i) {
        let j = line_end(s, i);
        if i < j <= s.len() { lex_from(s, j) } else { None }
    } else {
        match token_at(s, i) {
            Some((t, j)) => if i < j <= s.len() {
                match lex_from(s, j) {
                    Some(rest) => Some(seq![t] + rest),
                    None => None,
                }
            } else {
                None
            },
            None => None,
        }
    }
}

/// The tokens of a whole text.
pub open spec fn lex_spec(s: Seq<char>) -> Option<Seq<Lexeme>> {
    lex_from(s, 0)
}

// ---------------------------------------------------------------------------
// Executable lexer

fn blank(c: char) -> (r: bool)
    ensures
        r == is_blank(c),
{
    c == ' ' || c == '\t' || c == '\n' || c == '\x0C'
}

fn directive_space(c: char) -> (r: bool)
    ensures
        r == is_directive_space(c),
{
    blank(c) || c == '\r' || c == '\x0B'
}

fn digit(c: char) -> (r: bool)
    ensures
        r == is_digit(c),
{
    '0' <= c && c <= '9'
}

fn ident_start(c: char) -> (r: bool)
    ensures
        r == is_ident_start(c),
{
    ('a' <= c && c <= 'z') || ('A' <= c && c <= 'Z') || c == '_'
}

fn ident_char(c: char) -> (r: bool)
    ensures
        r == is_ident_char(c),
{
    ident_start(c) || digit(c)
}

fn hex(c: char) -> (r: bool)
    ensures
        r == is_hex(c),
{
    digit(c) || ('a' <= c && c <= 'f') || ('A' <= c && c <= 'F')
}

fn hex_digit_value(c: char) -> (r: u32)
    requires
        is_hex(c),
    ensures
        r == hex_value(c),
        r < 16,
{
    if digit(c) {
        c as u32 - '0' as u32
    } else if 'a' <= c && c <= 'f' {
        c as u32 - 'a' as u32 + 10
    } else {
        c as u32 - 'A' as u32 + 10
    }
}

fn scan_ident(s: &Vec<char>, i: usize) -> (j: usize)
    requires
        i <= s@.len(),
    ensures
        j == ident_end(s@, i as int),
        i <= j <= s@.len(),
{
    let mut j = i;
    while j < s.len() && ident_char(s[j])
        invariant
            i <= j <= s@.len(),
            ident_end(s@, i as int) == ident_end(s@, j as int),
        decreases s@.len() - j,
    {
        j = j + 1;
    }
    j
}

fn scan_digits(s: &Vec<char>, i: usize) -> (j: usize)
    requires
        i <= s@.len(),
    ensures
        j == digits_end(s@, i as int),
        i <= j <= s@.len(),
{
    let mut j = i;
    while j < s.len() && digit(s[j])
        invariant
            i <= j <= s@.len(),
            digits_end(s@, i as int) == digits_end(s@, j as int),
        decreases s@.len() - j,
    {
        j = j + 1;
    }
    j
}

fn scan_directive_space(s: &Vec<char>, i: usize) -> (j: usize)
    requires
        i <= s@.len(),
    ensures
        j == directive_space_end(s@, i as int),
        i <= j <= s@.len(),
{
    let mut j = i;
    while j < s.len() && directive_space(s[j])
        invariant
            i <= j <= s@.len(),
            directive_space_end(s@, i as int) == directive_space_end(s@, j as int),
        decreases s@.len() - j,
    {
        j = j + 1;
    }
    j
}

fn scan_line(s: &Vec<char>, i: usize) -> (j: usize)
    requires
        i <= s@.len(),
    ensures
        j == line_end(s@, i as int),
        i <= j <= s@.len(),
{
    let mut j = i;
    while j < s.len() && s[j] != '\n'
        invariant
            i <= j <= s@.len(),
            line_end(s@, i as int) == line_end(s@, j as int),
        decreases s@.len() - j,
    {
        j = j + 1;
    }
    j
}

fn scan_angle(s: &Vec<char>, i: usize) -> (j: usize)
    requires
        i <= s@.len(),
    ensures
        j == angle_end(s@, i as int),
        i <= j <= s@.len(),
{
    let mut j = i;
    while j < s.len() && s[j] != '>'
        invariant
            i <= j <= s@.len(),
            angle_end(s@, i as int) == angle_end(s@, j as int),
        decreases s@.len() - j,
    {
        j = j + 1;
    }
    j
}

fn scan_string_close(s: &Vec<char>, i: usize) -> (r: Option<usize>)
    requires
        i <= s@.len(),
    ensures
        r matches Some(k) ==> string_close(s@, i as int) == Some(k as int) && i <= k < s@.len(),
        r is None ==> string_close(s@, i as int) is None,
{
    let mut j = i;
    while j < s.len()
        invariant
            i <= j <= s@.len(),
            string_close(s@, i as int) == string_close(s@, j as int),
        decreases s@.len() - j,
    {
        if s[j] == '"' {
            return Some(j);
        } else if s[j] == '\\' {
            if j + 1 < s.len() && s[j + 1] != '\n' {
                j = j + 2;
            } else {
                return None;
            }
        } else {
            j = j + 1;
        }
    }
    None
}

/// Whether `s[i..j]` spells `w`.
fn slice_is(s: &Vec<char>, i: usize, j: usize, w: &Vec<char>) -> (r: bool)
    requires
        i <= j <= s@.len(),
    ensures
        r == (s@.subrange(i as int, j as int) == w@),
{
    if j - i != w.len() {
        return false;
    }
    let mut k: usize = 0;
    while k < w.len()
        invariant
            j - i == w@.len(),
            i <= j <= s@.len(),
            k <= w@.len(),
            forall|m: int| 0 <= m < k ==> s@[i + m] == w@[m],
        decreases w@.len() - k,
    {
        if s[i + k] != w[k] {
            assert(s@.subrange(i as int, j as int)[k as int] != w@[k as int]);
            return false;
        }
        k = k + 1;
    }
    assert(s@.subrange(i as int, j as int) =~= w@);
    true
}

fn word_token(s: &Vec<char>, i: usize, j: usize) -> (t: Token)
    requires
        i <= j <= s@.len(),
    ensures
        t@ == word_lexeme(s@.subrange(i as int, j as int)),
{
    if slice_is(s, i, j, &vec!['i', 'n', 't']) {
        Token::Int
    } else if slice_is(s, i, j, &vec!['f', 'l', 'o', 'a', 't']) {
        Token::Float
    } else if slice_is(s, i, j, &vec!['s', 't', 'r', 'i', 'n', 'g']) {
        Token::StringType
    } else if slice_is(s, i, j, &vec!['i', 'f']) {
        Token::If
    } else if slice_is(s, i, j, &vec!['e', 'l', 's', 'e']) {
        Token::Else
    } else if slice_is(s, i, j, &vec!['f', 'o', 'r']) {
        Token::For
    } else if slice_is(s, i, j, &vec!['r', 'e', 't', 'u', 'r', 'n']) {
        Token::Return
    } else if slice_is(s, i, j, &vec!['e', 'x', 't', 'e', 'r', 'n']) {
        Token::Extern
    } else {
        Token::Identifier(crate::text::string_of(s, i, j))
    }
}

proof fn lemma_digits_value_prefix(d: Seq<char>, k: int)
    requires
        0 <= k <= d.len(),
    ensures
        digits_value(d.subrange(0, k)) <= digits_value(d),
    decreases d.len() - k,
{
    if k < d.len() {
        lemma_digits_value_prefix(d.drop_last(), k);
        assert(d.drop_last().subrange(0, k) =~= d.subrange(0, k));
    } else {
        assert(d.subrange(0, k) =~= d);
    }
}

fn lex_number(s: &Vec<char>, i: usize) -> (r: Option<(Token, usize)>)
    requires
        i < s@.len(),
        is_digit(s@[i as int]),
    ensures
        match number_at(s@, i as int) {
            Some((l, k)) => r matches Some((t, j)) && t@ == l && j == k,
            None => r is None,
        },
        r matches Some((t, j)) ==> i < j <= s@.len(),
{
    let n = s.len();
    let j = scan_digits(s, i + 1);
    assert(digits_end(s@, i as int) == digits_end(s@, i + 1));
    proof {
        lemma_digits_end_inside(s@, i as int);
    }
    if j < n - 1 && s[j] == '.' && digit(s[j + 1]) {
        let k = scan_digits(s, j + 1);
        return Some((Token::FloatLiteral(crate::text::string_of(s, i, k)), k));
    }
    let mut v: i64 = 0;
    let mut p = i;
    while p < j
        invariant
            i <= p <= j <= s@.len(),
            j == digits_end(s@, i as int),
            !(j + 1 < s@.len() && s@[j as int] == '.' && is_digit(s@[j + 1])),
            forall|m: int| i <= m < j ==> is_digit(#[trigger] s@[m]),
            0 <= v,
            v as nat == digits_value(s@.subrange(i as int, p as int)),
        decreases j - p,
    {
        let d = (s[p] as u32 - '0' as u32) as i64;
        assert(s@.subrange(i as int, p + 1).drop_last() =~= s@.subrange(i as int, p as int));
        assert(digits_value(s@.subrange(i as int, p + 1)) == v * 10 + d);
        if v > (i64::MAX - d) / 10 {
            assert(v * 10 + d > i64::MAX) by (nonlinear_arith)
                requires
                    v > (i64::MAX - d) / 10,
                    0 <= d < 10,
            ;
            proof {
                let whole = s@.subrange(i as int, j as int);
                lemma_digits_value_prefix(whole, p + 1 - i);
                assert(whole.subrange(0, p + 1 - i) =~= s@.subrange(i as int, p + 1));
                assert(digits_value(whole) > i64::MAX);
            }
            return None;
        }
        assert(v * 10 + d <= i64::MAX) by (nonlinear_arith)
            requires
                v <= (i64::MAX - d) / 10,
                0 <= d < 10,
                0 <= v,
        ;
        v = v * 10 + d;
        p = p + 1;
    }
    Some((Token::IntLiteral(v), j))
}

proof fn lemma_digits_end_inside(s: Seq<char>, i: int)
    requires
        0 <= i <= s.len(),
    ensures
        i <= digits_end(s, i) <= s.len(),
        forall|m: int| i <= m < digits_end(s, i) ==> is_digit(#[trigger] s[m]),
    decreases s.len() - i,
{
    if i < s.len() && is_digit(s[i]) {
        lemma_digits_end_inside(s, i + 1);
    }
}

fn lex_include(s: &Vec<char>, i: usize) -> (r: Option<(Token, usize)>)
    requires
        i < s@.len(),
    ensures
        match include_at(s@, i as int) {
            Some((l, k)) => r matches Some((t, j)) && t@ == l && j == k,
            None => r is None,
        },
        r matches Some((t, j)) ==> i < j <= s@.len(),
{
    if s.len() - i < 8 {
        return None;
    }
    if !slice_is(s, i, i + 8, &vec!['#', 'i', 'n', 'c', 'l', 'u', 'd', 'e']) {
        return None;
    }
    let j = scan_directive_space(s, i + 8);
    if j < s.len() && s[j] == '<' {
        let k = scan_angle(s, j + 1);
        if j + 1 < k && k < s.len() {
            return Some((Token::Include(crate::text::string_of(s, j + 1, k)), k + 1));
        }
    }
    None
}

fn lex_operator(s: &Vec<char>, i: usize) -> (r: Option<(Token, usize)>)
    requires
        i < s@.len(),
    ensures
        match operator_at(s@, i as int) {
            Some((l, k)) => r matches Some((t, j)) && t@ == l && j == k,
            None => r is None,
        },
        r matches Some((t, j)) ==> i < j <= s@.len(),
{
    let n = s.len();
    let c = s[i];
    let next_is_eq = i < n - 1 && s[i + 1] == '=';
    if c == '<' {
        if next_is_eq { Some((Token::LessEqual, i + 2)) } else { Some((Token::LessThan, i + 1)) }
    } else if c == '>' {
        if next_is_eq { Some((Token::GreaterEqual, i + 2)) } else { Some((Token::GreaterThan, i + 1)) }
    } else if c == '=' {
        if next_is_eq { Some((Token::Equal, i + 2)) } else { Some((Token::Assign, i + 1)) }
    } else if c == '!' {
        if next_is_eq { Some((Token::NotEqual, i + 2)) } else { None }
    } else if c == '.' {
        if n - i > 2 && s[i + 1] == '.' && s[i + 2] == '.' {
            Some((Token::Ellipsis, i + 3))
        } else {
            None
        }
    } else if c == '+' {
        Some((Token::Plus, i + 1))
    } else if c == '-' {
        Some((Token::Minus, i + 1))
    } else if c == '*' {
        Some((Token::Multiply, i + 1))
    } else if c == '/' {
        Some((Token::Divide, i + 1))
    } else if c == ';' {
        Some((Token::Semicolon, i + 1))
    } else if c == ',' {
        Some((Token::Comma, i + 1))
    } else if c == '(' {
        Some((Token::LParen, i + 1))
    } else if c == ')' {
        Some((Token::RParen, i + 1))
    } else if c == '{' {
        Some((Token::LBrace, i + 1))
    } else if c == '}' {
        Some((Token::RBrace, i + 1))
    } else {
        None
    }
}

/// Resolves the C escapes of `s[from..to]`.
fn unescape_range(s: &Vec<char>, from: usize, to: usize) -> (r: String)
    requires
        from <= to <= s@.len(),
    ensures
        r@ == unescape(s@.subrange(from as int, to as int)),
{
    let mut out = String::new();
    let mut i = from;
    while i < to
        invariant
            from <= i <= to <= s@.len(),
            unescape(s@.subrange(from as int, to as int)) == out@ + unescape(
                s@.subrange(i as int, to as int),
            ),
        decreases to - i,
    {
        let ghost t = s@.subrange(i as int, to as int);
        let ghost before = out@;
        let c = s[i];
        if c != '\\' {
            push_char(&mut out, c);
            assert(t.subrange(1, t.len() as int) =~= s@.subrange(i + 1, to as int));
            assert(out@ + unescape(s@.subrange(i + 1, to as int)) =~= before + unescape(t));
            i = i + 1;
        } else if i + 1 == to {
            push_char(&mut out, '\\');
            assert(s@.subrange(i + 1, to as int) =~= Seq::<char>::empty());
            assert(out@ + unescape(s@.subrange(i + 1, to as int)) =~= before + unescape(t));
            i = i + 1;
        } else if s[i + 1] != 'x' {
            let e = s[i + 1];
            let d = if e == 'n' {
                '\n'
            } else if e == 't' {
                '\t'
            } else if e == 'r' {
                '\r'
            } else if e == '0' {
                '\0'
            } else {
                e
            };
            push_char(&mut out, d);
            assert(t.subrange(2, t.len() as int) =~= s@.subrange(i + 2, to as int));
            assert(out@ + unescape(s@.subrange(i + 2, to as int)) =~= before + unescape(t));
            i = i + 2;
        } else if to - i >= 4 {
            let h = s[i + 2];
            let l = s[i + 3];
            if hex(h) && hex(l) {
                let v = hex_digit_value(h) * 16 + hex_digit_value(l);
                push_char(&mut out, (v as u8) as char);
            } else {
                push_char(&mut out, 'x');
                push_char(&mut out, h);
                push_char(&mut out, l);
            }
            assert(t.subrange(4, t.len() as int) =~= s@.subrange(i + 4, to as int));
            assert(out@ + unescape(s@.subrange(i + 4, to as int)) =~= before + unescape(t));
            i = i + 4;
        } else if to - i == 3 {
            let h = s[i + 2];
            if hex(h) {
                let v = hex_digit_value(h);
                push_char(&mut out, (v as u8) as char);
            } else {
                push_char(&mut out, 'x');
                push_char(&mut out, h);
            }
            assert(s@.subrange(to as int, to as int) =~= Seq::<char>::empty());
            assert(out@ + unescape(s@.subrange(to as int, to as int)) =~= before + unescape(t));
            i = to;
        } else {
            assert(s@.subrange(to as int, to as int) =~= Seq::<char>::empty());
            assert(out@ + unescape(s@.subrange(to as int, to as int)) =~= before + unescape(t));
            i = to;
        }
    }
    assert(s@.subrange(to as int, to as int) =~= Seq::<char>::empty());
    assert(out@ + Seq::<char>::empty() =~= out@);
    out
}

/// Resolves the C escapes of a string literal's contents (quotes removed).
pub fn unescape_c_string(s: &str) -> (r: String)
    ensures
        r@ == unescape(s@),
{
    let v = chars_of(s);
    assert(v@.subrange(0, v@.len() as int) =~= v@);
    unescape_range(&v, 0, v.len())
}

fn next_token(s: &Vec<char>, i: usize) -> (r: Option<(Token, usize)>)
    requires
        i < s@.len(),
    ensures
        match token_at(s@, i as int) {
            Some((l, k)) => r matches Some((t, j)) && t@ == l && j == k,
            None => r is None,
        },
        r matches Some((t, j)) ==> i < j <= s@.len(),
{
    let n = s.len();
    let c = s[i];
    if ident_start(c) {
        let j = scan_ident(s, i + 1);
        assert(ident_end(s@, i as int) == ident_end(s@, i + 1));
        Some((word_token(s, i, j), j))
    } else if digit(c) {
        lex_number(s, i)
    } else if c == '"' {
        match scan_string_close(s, i + 1) {
            Some(k) => Some((Token::StringLiteral(unescape_range(s, i + 1, k)), k + 1)),
            None => None,
        }
    } else if c == '#' {
        lex_include(s, i)
    } else {
        lex_operator(s, i)
    }
}

/// Splits source text into tokens; fails when some position starts no token
/// (including an integer literal too large for `i64`).
pub fn lex(input: &str) -> (r: Result<Vec<Token>, LexerError>)
    ensures
        match lex_spec(input@) {
            Some(ls) => r matches Ok(ts) && lexemes(ts@) == ls,
            None => r is Err,
        },
{
    let s = chars_of(input);
    let mut tokens: Vec<Token> = Vec::new();
    let mut i: usize = 0;
    while i < s.len()
        invariant
            i <= s@.len(),
            s@ == input@,
            lex_spec(s@) == match lex_from(s@, i as int) {
                Some(rest) => Some(lexemes(tokens@) + rest),
                None => None,
            },
        decreases s@.len() - i,
    {
        if blank(s[i]) {
            i = i + 1;
        } else if i + 1 < s.len() && s[i] == '/' && s[i + 1] == '/' {
            let j = scan_line(&s, i + 1);
            assert(line_end(s@, i as int) == line_end(s@, i + 1));
            i = j;
        } else {
            match next_token(&s, i) {
                Some((t, j)) => {
                    let ghost before = tokens@;
                    tokens.push(t);
                    proof {
                        assert(lexemes(tokens@) =~= lexemes(before) + seq![t@]);
                        match lex_from(s@, j as int) {
                            Some(rest) => {
                                assert(lexemes(tokens@) + rest =~= lexemes(before) + (seq![t@] + rest));
                            },
                            None => {},
                        }
                    }
                    i = j;
                },
                None => {
                    return Err(LexerError);
                },
            }
        }
    }
    assert(lexemes(tokens@) + Seq::<Lexeme>::empty() =~= lexemes(tokens@));
    Ok(tokens)
}

// ---------------------------------------------------------------------------
// Rendering tokens back to text

/// A string literal's contents written back with `"` and `\` escaped.
pub open spec fn escape_text(s: Seq<char>) -> Seq<char>
    decreases s.len(),
{
    if s.len() == 0 {
        seq![]
    } else {
        let c = s[0];
        (if c == '"' || c == '\\' { seq!['\\', c] } else { seq![c] }) + escape_text(
            s.subrange(1, s.len() as int),
        )
    }
}

/// The canonical text of a lexeme.
pub open spec fn lexeme_text(l: Lexeme) -> Seq<char> {
    match l {
        Lexeme::Int => seq!['i', 'n', 't'],
        Lexeme::Float => seq!['f', 'l', 'o', 'a', 't'],
        Lexeme::StringType => seq!['s', 't', 'r', 'i', 'n', 'g'],
        Lexeme::If => seq!['i', 'f'],
        Lexeme::Else => seq!['e', 'l', 's', 'e'],
        Lexeme::For => seq!['f', 'o', 'r'],
        Lexeme::Return => seq!['r', 'e', 't', 'u', 'r', 'n'],
        Lexeme::Extern => seq!['e', 'x', 't', 'e', 'r', 'n'],
        Lexeme::Identifier(s) => s,
        Lexeme::FloatLiteral(s) => s,
        Lexeme::IntLiteral(n) => crate::text::decimal(n as nat),
        Lexeme::StringLiteral(s) => seq!['"'] + escape_text(s) + seq!['"'],
        Lexeme::Include(h) => include_word() + seq![' ', '<'] + h + seq!['>'],
        Lexeme::LessEqual => seq!['<', '='],
        Lexeme::GreaterEqual => seq!['>', '='],
        Lexeme::Equal => seq!['=', '='],
        Lexeme::NotEqual => seq!['!', '='],
        Lexeme::LessThan => seq!['<'],
        Lexeme::GreaterThan => seq!['>'],
        Lexeme::Assign => seq!['='],
        Lexeme::Plus => seq!['+'],
        Lexeme::Minus => seq!['-'],
        Lexeme::Multiply => seq!['*'],
        Lexeme::Divide => seq!['/'],
        Lexeme::Semicolon => seq![';'],
        Lexeme::Comma => seq![','],
        Lexeme::LParen => seq!['('],
        Lexeme::RParen => seq![')'],
        Lexeme::LBrace => seq!['{'],
        Lexeme::RBrace => seq!['}'],
        Lexeme::Ellipsis => seq!['.', '.', '.'],
    }
}

/// The lexemes that the lexer can produce: identifiers that are no keyword,
/// non-negative integers, floats `digits.digits`, and non-empty header names
/// without `>`.
pub open spec fn valid_lexeme(l: Lexeme) -> bool {
    match l {
        Lexeme::Identifier(s) => s.len() > 0 && is_ident_start(s[0]) && (forall|k: int|
            0 <= k < s.len() ==> is_ident_char(#[trigger] s[k])) && word_lexeme(s) == l,
        Lexeme::FloatLiteral(s) => exists|d: int|
            0 < d < s.len() - 1 && s[d] == '.' && (forall|k: int|
                0 <= k < s.len() && k != d ==> is_digit(#[trigger] s[k])),
        Lexeme::IntLiteral(n) => n >= 0,
        Lexeme::Include(h) => h.len() > 0 && forall|k: int| 0 <= k < h.len() ==> #[trigger] h[k] != '>',
        _ => true,
    }
}

/// Tokens written with canonical spacing: each one's text, then a space.
pub open spec fn render(ls: Seq<Lexeme>) -> Seq<char>
    decreases ls.len(),
{
    if ls.len() == 0 {
        seq![]
    } else {
        lexeme_text(ls[0]) + seq![' '] + render(ls.subrange(1, ls.len() as int))
    }
}

proof fn lemma_chars(s: Seq<char>, i: int, t: Seq<char>)
    requires
        0 <= i,
        i + t.len() <= s.len(),
        s.subrange(i, i + t.len()) == t,
    ensures
        forall|k: int| 0 <= k < t.len() ==> s[i + k] == #[trigger] t[k],
{
    assert forall|k: int| 0 <= k < t.len() implies s[i + k] == #[trigger] t[k] by {
        assert(s.subrange(i, i + t.len())[k] == s[i + k]);
    }
}

proof fn lemma_ident_run(s: Seq<char>, i: int, j: int)
    requires
        0 <= i <= j < s.len(),
        forall|k: int| i <= k < j ==> is_ident_char(#[trigger] s[k]),
        !is_ident_char(s[j]),
    ensures
        ident_end(s, i) == j,
    decreases j - i,
{
    if i < j {
        lemma_ident_run(s, i + 1, j);
    }
}

proof fn lemma_digits_run(s: Seq<char>, i: int, j: int)
    requires
        0 <= i <= j < s.len(),
        forall|k: int| i <= k < j ==> is_digit(#[trigger] s[k]),
        !is_digit(s[j]),
    ensures
        digits_end(s, i) == j,
    decreases j - i,
{
    if i < j {
        lemma_digits_run(s, i + 1, j);
    }
}

proof fn lemma_angle_run(s: Seq<char>, i: int, j: int)
    requires
        0 <= i <= j < s.len(),
        forall|k: int| i <= k < j ==> #[trigger] s[k] != '>',
        s[j] == '>',
    ensures
        angle_end(s, i) == j,
    decreases j - i,
{
    if i < j {
        lemma_angle_run(s, i + 1, j);
    }
}

proof fn lemma_digit_char(d: nat)
    requires
        d < 10,
    ensures
        is_digit(crate::text::digit_char(d)),
        (crate::text::digit_char(d) as nat - '0' as nat) as nat == d,
{
}

proof fn lemma_decimal(n: nat)
    ensures
        crate::text::decimal(n).len() > 0,
        forall|k: int| 0 <= k < crate::text::decimal(n).len() ==> is_digit(
            #[trigger] crate::text::decimal(n)[k],
        ),
        digits_value(crate::text::decimal(n)) == n,
    decreases n,
{
    let d = crate::text::decimal(n);
    if n < 10 {
        lemma_digit_char(n);
        assert(d.drop_last() =~= seq![]);
        assert(digits_value(d.drop_last()) == 0);
        assert(d.last() == crate::text::digit_char(n));
    } else {
        let hi = crate::text::decimal(n / 10);
        lemma_decimal(n / 10);
        lemma_digit_char(n % 10);
        assert(d.drop_last() =~= hi);
        assert(d.last() == crate::text::digit_char(n % 10));
        assert(digits_value(d) == digits_value(hi) * 10 + n % 10);
        assert(n == (n / 10) * 10 + n % 10) by (nonlinear_arith);
    }
}

proof fn lemma_unescape_escape(s: Seq<char>)
    ensures
        unescape(escape_text(s)) == s,
    decreases s.len(),
{
    if s.len() > 0 {
        let rest = s.subrange(1, s.len() as int);
        lemma_unescape_escape(rest);
        let e = escape_text(s);
        if s[0] == '"' || s[0] == '\\' {
            assert(e.subrange(2, e.len() as int) =~= escape_text(rest));
        } else {
            assert(e.subrange(1, e.len() as int) =~= escape_text(rest));
        }
        assert(unescape(e) =~= s);
    }
}

/// The closing quote of an escaped string literal is found after its text.
proof fn lemma_string_close(text: Seq<char>, p: int, s: Seq<char>)
    requires
        0 <= p,
        p + escape_text(s).len() < text.len(),
        text.subrange(p, p + escape_text(s).len()) == escape_text(s),
        text[p + escape_text(s).len()] == '"',
    ensures
        string_close(text, p) == Some(p + escape_text(s).len()),
    decreases s.len(),
{
    let e = escape_text(s);
    lemma_chars(text, p, e);
    if s.len() == 0 {
        assert(text[p] == '"');
    } else {
        let rest = s.subrange(1, s.len() as int);
        let er = escape_text(rest);
        if s[0] == '"' || s[0] == '\\' {
            assert(e =~= seq!['\\', s[0]] + er);
            assert(text.subrange(p + 2, p + 2 + er.len()) =~= er) by {
                assert forall|k: int| 0 <= k < er.len() implies text.subrange(p + 2, p + 2 + er.len())[k] == er[k] by {
                    assert(e[2 + k] == er[k]);
                }
            }
            lemma_string_close(text, p + 2, rest);
            assert(e[0] == '\\' && e[1] == s[0]);
            assert(text[p] == '\\');
            assert(text[p + 1] == s[0]);
            assert(string_close(text, p) == string_close(text, p + 2));
        } else {
            assert(e =~= seq![s[0]] + er);
            assert(text.subrange(p + 1, p + 1 + er.len()) =~= er) by {
                assert forall|k: int| 0 <= k < er.len() implies text.subrange(p + 1, p + 1 + er.len())[k] == er[k] by {
                    assert(e[1 + k] == er[k]);
                }
            }
            lemma_string_close(text, p + 1, rest);
            assert(e[0] == s[0]);
            assert(text[p] == s[0]);
            assert(string_close(text, p) == string_close(text, p + 1));
        }
    }
}

proof fn lemma_word(s: Seq<char>, i: int, t: Seq<char>)
    requires
        0 <= i,
        i + t.len() < s.len(),
        s.subrange(i, i + t.len()) == t,
        s[i + t.len()] == ' ',
        t.len() > 0,
        is_ident_start(t[0]),
        forall|k: int| 0 <= k < t.len() ==> is_ident_char(#[trigger] t[k]),
    ensures
        token_at(s, i) == Some((word_lexeme(t), i + t.len())),
        !is_blank(s[i]),
        !comment_at(s, i),
{
    lemma_chars(s, i, t);
    assert forall|k: int| i <= k < i + t.len() implies is_ident_char(#[trigger] s[k]) by {
        assert(s[i + (k - i)] == t[k - i]);
    }
    lemma_ident_run(s, i, i + t.len());
    assert(s[i] == t[0]);
}

proof fn lemma_sub(s: Seq<char>, i: int, t: Seq<char>, a: int, b: int)
    requires
        0 <= i,
        i + t.len() <= s.len(),
        s.subrange(i, i + t.len()) == t,
        0 <= a <= b <= t.len(),
    ensures
        s.subrange(i + a, i + b) == t.subrange(a, b),
{
    lemma_chars(s, i, t);
    assert(s.subrange(i + a, i + b) =~= t.subrange(a, b));
}

/// Each valid lexeme's text, followed by a space, lexes back to it.
proof fn lemma_token_at(s: Seq<char>, i: int, l: Lexeme)
    requires
        valid_lexeme(l),
        0 <= i,
        i + lexeme_text(l).len() < s.len(),
        s.subrange(i, i + lexeme_text(l).len()) == lexeme_text(l),
        s[i + lexeme_text(l).len()] == ' ',
    ensures
        lexeme_text(l).len() > 0,
        !is_blank(s[i]),
        !comment_at(s, i),
        token_at(s, i) == Some((l, i + lexeme_text(l).len())),
{
    let t = lexeme_text(l);
    lemma_chars(s, i, t);
    let n = t.len() as int;
    match l {
        Lexeme::Identifier(w) => {
            lemma_word(s, i, t);
        },
        Lexeme::IntLiteral(v) => {
            lemma_decimal(v as nat);
            assert forall|k: int| i <= k < i + n implies is_digit(#[trigger] s[k]) by {
                assert(s[i + (k - i)] == t[k - i]);
            }
            lemma_digits_run(s, i, i + n);
            assert(s[i] == t[0]);
        },
        Lexeme::FloatLiteral(w) => {
            let d = choose|d: int|
                0 < d < w.len() - 1 && w[d] == '.' && (forall|k: int|
                    0 <= k < w.len() && k != d ==> is_digit(#[trigger] w[k]));
            assert forall|k: int| i <= k < i + d implies is_digit(#[trigger] s[k]) by {
                assert(s[i + (k - i)] == t[k - i]);
            }
            assert(s[i + d] == t[d]);
            lemma_digits_run(s, i, i + d);
            assert forall|k: int| i + d + 1 <= k < i + n implies is_digit(#[trigger] s[k]) by {
                assert(s[i + (k - i)] == t[k - i]);
            }
            assert(s[i + d + 1] == t[d + 1]);
            lemma_digits_run(s, i + d + 1, i + n);
            assert(s[i] == t[0]);
        },
        Lexeme::StringLiteral(w) => {
            let e = escape_text(w);
            assert(t =~= seq!['"'] + e + seq!['"']);
            lemma_sub(s, i, t, 1, 1 + e.len() as int);
            assert(t.subrange(1, 1 + e.len() as int) =~= e);
            assert(t[1 + e.len() as int] == '"');
            lemma_string_close(s, i + 1, w);
            lemma_unescape_escape(w);
            assert(t[0] == '"');
        },
        Lexeme::Include(h) => {
            assert(t =~= include_word() + seq![' ', '<'] + h + seq!['>']);
            lemma_sub(s, i, t, 0, 8);
            assert(t.subrange(0, 8) =~= include_word());
            assert(t[8] == ' ' && t[9] == '<');
            assert(s[i + 8] == ' ' && s[i + 9] == '<');
            assert(directive_space_end(s, i + 9) == i + 9);
            assert forall|k: int| i + 10 <= k < i + 10 + h.len() as int implies #[trigger] s[k] != '>' by {
                assert(s[i + (k - i)] == t[k - i]);
                assert(t[k - i] == h[k - i - 10]);
            }
            assert(t[10 + h.len() as int] == '>');
            lemma_angle_run(s, i + 10, i + 10 + h.len() as int);
            lemma_sub(s, i, t, 10, 10 + h.len() as int);
            assert(t.subrange(10, 10 + h.len() as int) =~= h);
            assert(t[0] == '#');
        },
        Lexeme::Int | Lexeme::Float | Lexeme::StringType | Lexeme::If | Lexeme::Else
        | Lexeme::For | Lexeme::Return | Lexeme::Extern => {
            lemma_word(s, i, t);
            assert(word_lexeme(t) == l);
        },
        _ => {
            assert(s[i] == t[0]);
            if n > 1 {
                assert(s[i + 1] == t[1]);
            }
            if n > 2 {
                assert(s[i + 2] == t[2]);
            }
        },
    }
}

proof fn lemma_lex_rendered(s: Seq<char>, i: int, ls: Seq<Lexeme>)
    requires
        0 <= i <= s.len(),
        s.subrange(i, s.len() as int) == render(ls),
        forall|k: int| 0 <= k < ls.len() ==> valid_lexeme(#[trigger] ls[k]),
    ensures
        lex_from(s, i) == Some(ls),
    decreases ls.len(),
{
    if ls.len() == 0 {
        assert(s.subrange(i, s.len() as int).len() == 0);
        assert(ls =~= seq![]);
    } else {
        let l = ls[0];
        let t = lexeme_text(l);
        let rest = ls.subrange(1, ls.len() as int);
        let r = render(ls);
        assert(r =~= t + seq![' '] + render(rest));
        lemma_sub(s, i, r, 0, t.len() as int);
        assert(r.subrange(0, t.len() as int) =~= t);
        assert(s.subrange(i, s.len() as int)[t.len() as int] == s[i + t.len()]);
        assert(r[t.len() as int] == ' ');
        lemma_token_at(s, i, l);
        let j = i + t.len();
        assert(s.subrange(j + 1, s.len() as int) =~= render(rest)) by {
            lemma_sub(s, i, r, t.len() as int + 1, r.len() as int);
            assert(r.subrange(t.len() as int + 1, r.len() as int) =~= render(rest));
        }
        assert forall|k: int| 0 <= k < rest.len() implies valid_lexeme(#[trigger] rest[k]) by {
            assert(rest[k] == ls[k + 1]);
        }
        lemma_lex_rendered(s, j + 1, rest);
        assert(lex_from(s, j) == lex_from(s, j + 1));
        assert(seq![l] + rest =~= ls);
    }
}

/// Lexing is a left inverse of rendering: tokens written back with
/// canonical spacing lex to the same tokens.
pub proof fn lemma_lex_render(ls: Seq<Lexeme>)
    requires
        forall|k: int| 0 <= k < ls.len() ==> valid_lexeme(#[trigger] ls[k]),
    ensures
        lex_spec(render(ls)) == Some(ls),
{
    let s = render(ls);
    assert(s.subrange(0, s.len() as int) =~= s);
    lemma_lex_rendered(s, 0, ls);
}

} // verus!
