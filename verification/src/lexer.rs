//! From the characters of a line to its tokens.
//!
//! Blanks separate tokens and mean nothing else. A word is the longest run
//! of letters, digits and underscores that begins with a letter or an
//! underscore; an operator is the longest one that fits. A comment runs
//! from `//` to the end of the line.

use vstd::prelude::*;

verus! {

#[derive(Debug, Clone, Copy, PartialEq, Eq, Structural)]
pub enum TokenKind {
    /// A number without its sign, in thousandths.
    Number(u64),
    /// A text between double quotes.
    Text,
    /// A name.
    Local,
    /// A name behind a colon.
    Global,
    Comment,
    If,
    Then,
    Else,
    End,
    Goto,
    Not,
    And,
    Or,
    Abs,
    Sqrt,
    Sin,
    Cos,
    Tan,
    Asin,
    Acos,
    Atan,
    Plus,
    Minus,
    Star,
    Slash,
    Percent,
    Caret,
    Bang,
    LeftParen,
    RightParen,
    Assign,
    PlusAssign,
    MinusAssign,
    StarAssign,
    SlashAssign,
    PercentAssign,
    CaretAssign,
    Equal,
    NotEqual,
    Less,
    Greater,
    LessEqual,
    GreaterEqual,
    Increment,
    Decrement,
}

/// A token and the characters it covers: from `start` up to `end`.
#[derive(Debug, Clone, Copy, PartialEq, Eq, Structural)]
pub struct Token {
    pub kind: TokenKind,
    pub start: usize,
    pub end: usize,
}

/// The classes of characters that come in runs.
#[derive(Debug, Clone, Copy, PartialEq, Eq, Structural)]
pub enum Class {
    Blank,
    Digit,
    /// Letters, digits and the underscore.
    Word,
}

pub open spec fn is_digit(c: char) -> bool {
    '0' <= c <= '9'
}

pub open spec fn is_letter(c: char) -> bool {
    ('a' <= c <= 'z') || ('A' <= c <= 'Z') || c == '_'
}

pub open spec fn in_class(class: Class, c: char) -> bool {
    match class {
        Class::Blank => c == ' ' || c == '\t',
        Class::Digit => is_digit(c),
        Class::Word => is_digit(c) || is_letter(c),
    }
}

/// The end of the run of `class` that begins at `p`.
pub open spec fn run_end(src: Seq<char>, p: int, class: Class) -> int
    decreases src.len() - p,
{
    if 0 <= p < src.len() && in_class(class, src[p]) {
        run_end(src, p + 1, class)
    } else {
        p
    }
}

pub proof fn lemma_run_end(src: Seq<char>, p: int, class: Class)
    requires
        0 <= p <= src.len(),
    ensures
        p <= run_end(src, p, class) <= src.len(),
        forall|i: int| p <= i < run_end(src, p, class) ==> in_class(class, #[trigger] src[i]),
        run_end(src, p, class) < src.len() ==> !in_class(class, src[run_end(src, p, class)]),
    decreases src.len() - p,
{
    if p < src.len() && in_class(class, src[p]) {
        lemma_run_end(src, p + 1, class);
    }
}

pub open spec fn digit_of(c: char) -> nat {
    (c as u32 - '0' as u32) as nat
}

/// The number that the digits from `from` up to `to` write.
pub open spec fn digits_value(src: Seq<char>, from: int, to: int) -> nat
    decreases to - from,
{
    if to <= from {
        0
    } else {
        digits_value(src, from, to - 1) * 10 + digit_of(src[to - 1])
    }
}

/// The first whole part that no number has: from here on a literal is out
/// of range whatever follows its point.
pub const WHOLE_LIMIT: u64 = 9_223_372_036_854_776;

/// The largest number that a literal can write without its sign.
pub const MAGNITUDE_LIMIT: u64 = 0x8000_0000_0000_0000;

/// The thousandths that the digits behind the point write: the first three
/// count.
pub open spec fn fraction(src: Seq<char>, from: int, to: int) -> nat {
    if to <= from {
        0
    } else if to == from + 1 {
        digit_of(src[from]) * 100
    } else if to == from + 2 {
        digit_of(src[from]) * 100 + digit_of(src[from + 1]) * 10
    } else {
        digit_of(src[from]) * 100 + digit_of(src[from + 1]) * 10 + digit_of(src[from + 2])
    }
}

/// A number without its sign, in thousandths, held to `MAGNITUDE_LIMIT`.
pub open spec fn magnitude(whole: nat, thousandths: nat) -> u64 {
    if whole * 1000 + thousandths > MAGNITUDE_LIMIT {
        MAGNITUDE_LIMIT
    } else {
        (whole * 1000 + thousandths) as u64
    }
}

/// Whether the characters from `start` up to `end` are those of `word`.
pub open spec fn spells(src: Seq<char>, start: int, end: int, word: Seq<char>) -> bool {
    end - start == word.len() && forall|i: int|
        0 <= i < word.len() ==> src[start + i] == #[trigger] word[i]
}

/// The token that a word is: a reserved word or a name.
pub open spec fn word_kind(src: Seq<char>, start: int, end: int) -> TokenKind {
    if spells(src, start, end, seq!['i', 'f']) {
        TokenKind::If
    } else if spells(src, start, end, seq!['t', 'h', 'e', 'n']) {
        TokenKind::Then
    } else if spells(src, start, end, seq!['e', 'l', 's', 'e']) {
        TokenKind::Else
    } else if spells(src, start, end, seq!['e', 'n', 'd']) {
        TokenKind::End
    } else if spells(src, start, end, seq!['g', 'o', 't', 'o']) {
        TokenKind::Goto
    } else if spells(src, start, end, seq!['n', 'o', 't']) {
        TokenKind::Not
    } else if spells(src, start, end, seq!['a', 'n', 'd']) {
        TokenKind::And
    } else if spells(src, start, end, seq!['o', 'r']) {
        TokenKind::Or
    } else if spells(src, start, end, seq!['a', 'b', 's']) {
        TokenKind::Abs
    } else if spells(src, start, end, seq!['s', 'q', 'r', 't']) {
        TokenKind::Sqrt
    } else if spells(src, start, end, seq!['s', 'i', 'n']) {
        TokenKind::Sin
    } else if spells(src, start, end, seq!['c', 'o', 's']) {
        TokenKind::Cos
    } else if spells(src, start, end, seq!['t', 'a', 'n']) {
        TokenKind::Tan
    } else if spells(src, start, end, seq!['a', 's', 'i', 'n']) {
        TokenKind::Asin
    } else if spells(src, start, end, seq!['a', 'c', 'o', 's']) {
        TokenKind::Acos
    } else if spells(src, start, end, seq!['a', 't', 'a', 'n']) {
        TokenKind::Atan
    } else {
        TokenKind::Local
    }
}

pub open spec fn char_at(src: Seq<char>, p: int) -> Option<char> {
    if 0 <= p < src.len() {
        Some(src[p])
    } else {
        None
    }
}

pub open spec fn digit_at(src: Seq<char>, p: int) -> bool {
    0 <= p < src.len() && is_digit(src[p])
}

/// The operator that begins at `p`, and its length.
pub open spec fn operator_at(src: Seq<char>, p: int) -> Option<(TokenKind, int)> {
    let second = char_at(src, p + 1);
    match char_at(src, p) {
        Some('+') => if second == Some('+') {
            Some((TokenKind::Increment, 2int))
        } else if second == Some('=') {
            Some((TokenKind::PlusAssign, 2int))
        } else {
            Some((TokenKind::Plus, 1int))
        },
        Some('-') => if second == Some('-') {
            Some((TokenKind::Decrement, 2int))
        } else if second == Some('=') {
            Some((TokenKind::MinusAssign, 2int))
        } else {
            Some((TokenKind::Minus, 1int))
        },
        Some('*') => if second == Some('=') {
            Some((TokenKind::StarAssign, 2int))
        } else {
            Some((TokenKind::Star, 1int))
        },
        Some('/') => if second == Some('=') {
            Some((TokenKind::SlashAssign, 2int))
        } else {
            Some((TokenKind::Slash, 1int))
        },
        Some('%') => if second == Some('=') {
            Some((TokenKind::PercentAssign, 2int))
        } else {
            Some((TokenKind::Percent, 1int))
        },
        Some('^') => if second == Some('=') {
            Some((TokenKind::CaretAssign, 2int))
        } else {
            Some((TokenKind::Caret, 1int))
        },
        Some('=') => if second == Some('=') {
            Some((TokenKind::Equal, 2int))
        } else {
            Some((TokenKind::Assign, 1int))
        },
        Some('!') => if second == Some('=') {
            Some((TokenKind::NotEqual, 2int))
        } else {
            Some((TokenKind::Bang, 1int))
        },
        Some('<') => if second == Some('=') {
            Some((TokenKind::LessEqual, 2int))
        } else {
            Some((TokenKind::Less, 1int))
        },
        Some('>') => if second == Some('=') {
            Some((TokenKind::GreaterEqual, 2int))
        } else {
            Some((TokenKind::Greater, 1int))
        },
        Some('(') => Some((TokenKind::LeftParen, 1int)),
        Some(')') => Some((TokenKind::RightParen, 1int)),
        _ => None,
    }
}

/// The place of the next double quote at or after `p`, or the end of the
/// line if there is none.
pub open spec fn quote_at(src: Seq<char>, p: int) -> int
    decreases src.len() - p,
{
    if 0 <= p < src.len() && src[p] != '"' {
        quote_at(src, p + 1)
    } else {
        p
    }
}

pub proof fn lemma_quote_at(src: Seq<char>, p: int)
    requires
        0 <= p <= src.len(),
    ensures
        p <= quote_at(src, p) <= src.len(),
    decreases src.len() - p,
{
    if p < src.len() && src[p] != '"' {
        lemma_quote_at(src, p + 1);
    }
}

/// The token that begins at `p`, where a character that is no blank stands.
/// `None` where no token begins with it.
pub open spec fn token_at(src: Seq<char>, p: int) -> Option<Token> {
    let c = src[p];
    if is_digit(c) || (c == '.' && digit_at(src, p + 1)) {
        let whole_end = run_end(src, p, Class::Digit);
        let has_fraction = char_at(src, whole_end) == Some('.') && digit_at(src, whole_end + 1);
        let end = if has_fraction {
            run_end(src, whole_end + 1, Class::Digit)
        } else {
            whole_end
        };
        let thousandths = if has_fraction {
            fraction(src, whole_end + 1, end)
        } else {
            0
        };
        Some(
            Token {
                kind: TokenKind::Number(magnitude(digits_value(src, p, whole_end), thousandths)),
                start: p as usize,
                end: end as usize,
            },
        )
    } else if c == '"' {
        let close = quote_at(src, p + 1);
        if close < src.len() {
            Some(Token { kind: TokenKind::Text, start: p as usize, end: (close + 1) as usize })
        } else {
            None
        }
    } else if c == ':' {
        Some(
            Token {
                kind: TokenKind::Global,
                start: p as usize,
                end: run_end(src, p + 1, Class::Word) as usize,
            },
        )
    } else if is_letter(c) {
        let end = run_end(src, p, Class::Word);
        Some(Token { kind: word_kind(src, p, end), start: p as usize, end: end as usize })
    } else if c == '/' && char_at(src, p + 1) == Some('/') {
        Some(Token { kind: TokenKind::Comment, start: p as usize, end: src.len() as usize })
    } else {
        match operator_at(src, p) {
            Some((kind, len)) => Some(Token { kind, start: p as usize, end: (p + len) as usize }),
            None => None,
        }
    }
}

/// The tokens from `p` on. `None` where a character begins no token or a
/// text is not closed.
pub open spec fn lex_from(src: Seq<char>, p: int) -> Option<Seq<Token>>
    decreases src.len() - p,
{
    let start = run_end(src, p, Class::Blank);
    if p < 0 || start >= src.len() || start < p {
        Some(Seq::empty())
    } else {
        match token_at(src, start) {
            None => None,
            Some(token) => if start < token.end <= src.len() {
                match lex_from(src, token.end as int) {
                    None => None,
                    Some(rest) => Some(seq![token] + rest),
                }
            } else {
                None
            },
        }
    }
}

/// The tokens of a line.
pub open spec fn lex(src: Seq<char>) -> Option<Seq<Token>> {
    lex_from(src, 0)
}

// ---------------------------------------------------------------------------
// The lexer, executed
// ---------------------------------------------------------------------------

/// The characters of a text, one by one.
pub fn to_chars(s: &str) -> (chars: Vec<char>)
    ensures
        chars@ == s@,
{
    let mut chars: Vec<char> = Vec::new();
    for c in it: s.chars()
        invariant
            it.seq() == s@,
            chars@ == it.seq().take(it.index() as int),
    {
        chars.push(c);
        assert(chars@ =~= it.seq().take(it.index() + 1));
    }
    assert(s@.take(s@.len() as int) =~= s@);
    chars
}

fn digit(c: char) -> (r: bool)
    ensures
        r == is_digit(c),
{
    '0' <= c && c <= '9'
}

fn letter(c: char) -> (r: bool)
    ensures
        r == is_letter(c),
{
    ('a' <= c && c <= 'z') || ('A' <= c && c <= 'Z') || c == '_'
}

fn has_class(class: Class, c: char) -> (r: bool)
    ensures
        r == in_class(class, c),
{
    match class {
        Class::Blank => c == ' ' || c == '\t',
        Class::Digit => digit(c),
        Class::Word => digit(c) || letter(c),
    }
}

/// The end of the run of `class` that begins at `p`.
fn scan(chars: &Vec<char>, p: usize, class: Class) -> (end: usize)
    requires
        p <= chars@.len(),
    ensures
        end == run_end(chars@, p as int, class),
        p <= end <= chars@.len(),
{
    let mut end = p;
    while end < chars.len() && has_class(class, chars[end])
        invariant
            p <= end <= chars@.len(),
            run_end(chars@, p as int, class) == run_end(chars@, end as int, class),
        decreases chars@.len() - end,
    {
        end += 1;
    }
    end
}

fn digit_value(c: char) -> (d: u64)
    requires
        is_digit(c),
    ensures
        d == digit_of(c),
        d <= 9,
{
    (c as u32 - '0' as u32) as u64
}

/// The number that a run of digits writes, held to `WHOLE_LIMIT`.
fn read_whole(chars: &Vec<char>, from: usize, to: usize) -> (v: u64)
    requires
        from <= to <= chars@.len(),
        forall|i: int| from <= i < to ==> is_digit(#[trigger] chars@[i]),
    ensures
        v <= WHOLE_LIMIT,
        v == if digits_value(chars@, from as int, to as int) > WHOLE_LIMIT {
            WHOLE_LIMIT as nat
        } else {
            digits_value(chars@, from as int, to as int)
        },
{
    let mut v: u64 = 0;
    let mut i = from;
    while i < to
        invariant
            from <= i <= to <= chars@.len(),
            forall|i: int| from <= i < to ==> is_digit(#[trigger] chars@[i]),
            v <= WHOLE_LIMIT,
            v == if digits_value(chars@, from as int, i as int) > WHOLE_LIMIT {
                WHOLE_LIMIT as nat
            } else {
                digits_value(chars@, from as int, i as int)
            },
        decreases to - i,
    {
        let next = v * 10 + digit_value(chars[i]);
        v = if next > WHOLE_LIMIT {
            WHOLE_LIMIT
        } else {
            next
        };
        i += 1;
    }
    v
}

fn held(m: u64) -> (r: u64)
    ensures
        r == if m > MAGNITUDE_LIMIT {
            MAGNITUDE_LIMIT
        } else {
            m
        },
{
    if m > MAGNITUDE_LIMIT {
        MAGNITUDE_LIMIT
    } else {
        m
    }
}

/// The thousandths that the digits behind the point write.
fn read_fraction(chars: &Vec<char>, from: usize, to: usize) -> (v: u64)
    requires
        from <= to <= chars@.len(),
        forall|i: int| from <= i < to ==> is_digit(#[trigger] chars@[i]),
    ensures
        v == fraction(chars@, from as int, to as int),
        v <= 999,
{
    let n = to - from;
    if n == 0 {
        0
    } else if n == 1 {
        digit_value(chars[from]) * 100
    } else if n == 2 {
        digit_value(chars[from]) * 100 + digit_value(chars[from + 1]) * 10
    } else {
        digit_value(chars[from]) * 100 + digit_value(chars[from + 1]) * 10 + digit_value(
            chars[from + 2],
        )
    }
}

fn spells2(chars: &Vec<char>, start: usize, end: usize, a: char, b: char) -> (r: bool)
    requires
        start <= end <= chars@.len(),
    ensures
        r == spells(chars@, start as int, end as int, seq![a, b]),
{
    let r = end - start == 2 && chars[start] == a && chars[start + 1] == b;
    proof {
        let word = seq![a, b];
        if spells(chars@, start as int, end as int, word) {
            assert(chars@[start + 0] == word[0] && chars@[start + 1] == word[1]);
        }
    }
    r
}

fn spells3(chars: &Vec<char>, start: usize, end: usize, a: char, b: char, c: char) -> (r: bool)
    requires
        start <= end <= chars@.len(),
    ensures
        r == spells(chars@, start as int, end as int, seq![a, b, c]),
{
    let r = end - start == 3 && chars[start] == a && chars[start + 1] == b && chars[start + 2]
        == c;
    proof {
        let word = seq![a, b, c];
        if spells(chars@, start as int, end as int, word) {
            assert(chars@[start + 0] == word[0] && chars@[start + 1] == word[1] && chars@[start
                + 2] == word[2]);
        }
    }
    r
}

fn spells4(
    chars: &Vec<char>,
    start: usize,
    end: usize,
    a: char,
    b: char,
    c: char,
    d: char,
) -> (r: bool)
    requires
        start <= end <= chars@.len(),
    ensures
        r == spells(chars@, start as int, end as int, seq![a, b, c, d]),
{
    let r = end - start == 4 && chars[start] == a && chars[start + 1] == b && chars[start + 2]
        == c && chars[start + 3] == d;
    proof {
        let word = seq![a, b, c, d];
        if spells(chars@, start as int, end as int, word) {
            assert(chars@[start + 0] == word[0] && chars@[start + 1] == word[1] && chars@[start
                + 2] == word[2] && chars@[start + 3] == word[3]);
        }
    }
    r
}

fn word_kind_of(chars: &Vec<char>, start: usize, end: usize) -> (kind: TokenKind)
    requires
        start <= end <= chars@.len(),
    ensures
        kind == word_kind(chars@, start as int, end as int),
{
    if spells2(chars, start, end, 'i', 'f') {
        TokenKind::If
    } else if spells4(chars, start, end, 't', 'h', 'e', 'n') {
        TokenKind::Then
    } else if spells4(chars, start, end, 'e', 'l', 's', 'e') {
        TokenKind::Else
    } else if spells3(chars, start, end, 'e', 'n', 'd') {
        TokenKind::End
    } else if spells4(chars, start, end, 'g', 'o', 't', 'o') {
        TokenKind::Goto
    } else if spells3(chars, start, end, 'n', 'o', 't') {
        TokenKind::Not
    } else if spells3(chars, start, end, 'a', 'n', 'd') {
        TokenKind::And
    } else if spells2(chars, start, end, 'o', 'r') {
        TokenKind::Or
    } else if spells3(chars, start, end, 'a', 'b', 's') {
        TokenKind::Abs
    } else if spells4(chars, start, end, 's', 'q', 'r', 't') {
        TokenKind::Sqrt
    } else if spells3(chars, start, end, 's', 'i', 'n') {
        TokenKind::Sin
    } else if spells3(chars, start, end, 'c', 'o', 's') {
        TokenKind::Cos
    } else if spells3(chars, start, end, 't', 'a', 'n') {
        TokenKind::Tan
    } else if spells4(chars, start, end, 'a', 's', 'i', 'n') {
        TokenKind::Asin
    } else if spells4(chars, start, end, 'a', 'c', 'o', 's') {
        TokenKind::Acos
    } else if spells4(chars, start, end, 'a', 't', 'a', 'n') {
        TokenKind::Atan
    } else {
        TokenKind::Local
    }
}

fn follows(chars: &Vec<char>, p: usize, c: char) -> (r: bool)
    requires
        p < chars@.len(),
    ensures
        r == (char_at(chars@, p + 1) == Some(c)),
{
    let n = chars.len();
    p + 1 < n && chars[p + 1] == c
}

fn digit_follows(chars: &Vec<char>, p: usize) -> (r: bool)
    requires
        p < chars@.len(),
    ensures
        r == digit_at(chars@, p + 1),
{
    let n = chars.len();
    p + 1 < n && digit(chars[p + 1])
}

/// Picks among an operator and the two that it begins.
fn longest(
    chars: &Vec<char>,
    p: usize,
    first: char,
    double: TokenKind,
    second: char,
    other: TokenKind,
    single: TokenKind,
) -> (r: (TokenKind, usize))
    requires
        p < chars@.len(),
    ensures
        r == if char_at(chars@, p + 1) == Some(first) {
            (double, 2usize)
        } else if char_at(chars@, p + 1) == Some(second) {
            (other, 2usize)
        } else {
            (single, 1usize)
        },
{
    if follows(chars, p, first) {
        (double, 2)
    } else if follows(chars, p, second) {
        (other, 2)
    } else {
        (single, 1)
    }
}

fn operator_of(chars: &Vec<char>, p: usize) -> (r: Option<(TokenKind, usize)>)
    requires
        p < chars@.len(),
    ensures
        match r {
            Some((kind, len)) => operator_at(chars@, p as int) == Some((kind, len as int)) && 1
                <= len <= 2 && p + len <= chars@.len(),
            None => operator_at(chars@, p as int) is None,
        },
{
    let c = chars[p];
    let equals = follows(chars, p, '=');
    if c == '+' {
        Some(longest(chars, p, '+', TokenKind::Increment, '=', TokenKind::PlusAssign, TokenKind::Plus))
    } else if c == '-' {
        Some(
            longest(chars, p, '-', TokenKind::Decrement, '=', TokenKind::MinusAssign, TokenKind::Minus),
        )
    } else if c == '*' {
        Some(if equals { (TokenKind::StarAssign, 2) } else { (TokenKind::Star, 1) })
    } else if c == '/' {
        Some(if equals { (TokenKind::SlashAssign, 2) } else { (TokenKind::Slash, 1) })
    } else if c == '%' {
        Some(if equals { (TokenKind::PercentAssign, 2) } else { (TokenKind::Percent, 1) })
    } else if c == '^' {
        Some(if equals { (TokenKind::CaretAssign, 2) } else { (TokenKind::Caret, 1) })
    } else if c == '=' {
        Some(if equals { (TokenKind::Equal, 2) } else { (TokenKind::Assign, 1) })
    } else if c == '!' {
        Some(if equals { (TokenKind::NotEqual, 2) } else { (TokenKind::Bang, 1) })
    } else if c == '<' {
        Some(if equals { (TokenKind::LessEqual, 2) } else { (TokenKind::Less, 1) })
    } else if c == '>' {
        Some(if equals { (TokenKind::GreaterEqual, 2) } else { (TokenKind::Greater, 1) })
    } else if c == '(' {
        Some((TokenKind::LeftParen, 1))
    } else if c == ')' {
        Some((TokenKind::RightParen, 1))
    } else {
        None
    }
}

fn find_quote(chars: &Vec<char>, p: usize) -> (end: usize)
    requires
        p <= chars@.len(),
    ensures
        end == quote_at(chars@, p as int),
        p <= end <= chars@.len(),
{
    let mut end = p;
    while end < chars.len() && chars[end] != '"'
        invariant
            p <= end <= chars@.len(),
            quote_at(chars@, p as int) == quote_at(chars@, end as int),
        decreases chars@.len() - end,
    {
        end += 1;
    }
    end
}

/// The token that begins at `p`.
fn next_token(chars: &Vec<char>, p: usize) -> (r: Option<Token>)
    requires
        p < chars@.len(),
    ensures
        r == token_at(chars@, p as int),
        r matches Some(token) ==> token.start == p && p < token.end <= chars@.len() && (token.kind
            is Text ==> p + 2 <= token.end),
{
    let n = chars.len();
    let c = chars[p];
    if digit(c) || (c == '.' && digit_follows(chars, p)) {
        let whole_end = scan(chars, p, Class::Digit);
        proof {
            lemma_run_end(chars@, p as int, Class::Digit);
            lemma_run_end(chars@, p + 1, Class::Digit);
        }
        let has_fraction = whole_end < chars.len() && chars[whole_end] == '.' && digit_follows(
            chars,
            whole_end,
        );
        let whole = read_whole(chars, p, whole_end);
        if has_fraction {
            let end = scan(chars, whole_end + 1, Class::Digit);
            proof {
                lemma_run_end(chars@, whole_end + 1, Class::Digit);
            }
            let thousandths = read_fraction(chars, whole_end + 1, end);
            Some(Token { kind: TokenKind::Number(held(whole * 1000 + thousandths)), start: p, end })
        } else {
            Some(Token { kind: TokenKind::Number(held(whole * 1000)), start: p, end: whole_end })
        }
    } else if c == '"' {
        let close = find_quote(chars, p + 1);
        if close < chars.len() {
            Some(Token { kind: TokenKind::Text, start: p, end: close + 1 })
        } else {
            None
        }
    } else if c == ':' {
        let end = scan(chars, p + 1, Class::Word);
        Some(Token { kind: TokenKind::Global, start: p, end })
    } else if letter(c) {
        let end = scan(chars, p, Class::Word);
        proof {
            lemma_run_end(chars@, p + 1, Class::Word);
        }
        Some(Token { kind: word_kind_of(chars, p, end), start: p, end })
    } else if c == '/' && follows(chars, p, '/') {
        Some(Token { kind: TokenKind::Comment, start: p, end: chars.len() })
    } else {
        match operator_of(chars, p) {
            Some((kind, len)) => Some(Token { kind, start: p, end: p + len }),
            None => None,
        }
    }
}

/// The tokens of a line, each with its place in it; `None` where a
/// character begins no token or a text is not closed.
pub fn tokenize(chars: &Vec<char>) -> (r: Option<Vec<Token>>)
    ensures
        match r {
            Some(tokens) => lex(chars@) == Some(tokens@),
            None => lex(chars@) is None,
        },
        r matches Some(tokens) ==> well_placed(tokens@, chars@.len() as int),
{
    let mut tokens: Vec<Token> = Vec::new();
    let mut p: usize = 0;
    loop
        invariant
            p <= chars@.len(),
            well_placed(tokens@, p as int),
            match lex_from(chars@, p as int) {
                Some(rest) => lex(chars@) == Some(tokens@ + rest),
                None => lex(chars@) is None,
            },
        decreases chars@.len() - p,
    {
        let start = scan(chars, p, Class::Blank);
        if start >= chars.len() {
            assert(tokens@ + Seq::<Token>::empty() =~= tokens@);
            return Some(tokens);
        }
        match next_token(chars, start) {
            None => {
                return None;
            },
            Some(token) => {
                proof {
                    let rest = lex_from(chars@, token.end as int);
                    if rest is Some {
                        assert(tokens@ + (seq![token] + rest->0) =~= tokens@.push(token) + rest->0);
                    }
                }
                tokens.push(token);
                p = token.end;
            },
        }
    }
}

/// The tokens follow one another inside the first `len` characters, and none
/// is empty.
pub open spec fn well_placed(tokens: Seq<Token>, len: int) -> bool {
    &&& forall|i: int|
        0 <= i < tokens.len() ==> (#[trigger] tokens[i]).start < tokens[i].end <= len && (tokens[i].kind
            is Text ==> tokens[i].start + 2 <= tokens[i].end)
    &&& forall|i: int, j: int|
        0 <= i < j < tokens.len() ==> (#[trigger] tokens[i]).end <= (#[trigger] tokens[j]).start
}

} // verus!
