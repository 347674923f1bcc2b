//! Tokens and the lexer.
use vstd::prelude::*;
use vstd::string::StringExecFns;
use crate::error::{DSAsmError, ErrorKind, Failure, failure};
use crate::processor::{Processor, ProcessorInput};
use crate::text::{decimal, push_decimal};

verus! {

/// A token of the source language or of the intermediate assembly.
#[derive(Debug, PartialEq, Eq)]
pub enum Token {
    /// `<`
    LeftAngle,
    /// `>`
    RightAngle,
    /// `+`
    Plus,
    /// `-`
    Minus,
    /// `.`
    Dot,
    /// `,`
    Comma,
    /// `:`
    LabelDef,
    /// `@`
    Jmp,
    /// `?`
    Jze,
    /// `jnze`, which only the code generator emits
    Jnze,
    /// `*`
    Star,
    /// `/`
    Slash,
    /// `!`
    Exclamation,
    /// A name.
    Identifier(String),
    /// A number of eight bits.
    Literal(u8),
    /// `&`
    Ampersand,
    /// `~`
    Tilde,
    /// `%`
    Percent,
    /// `=`
    Equals,
    /// `^`
    Caret,
    /// `|`
    Pipe,
    /// `'`, which only the code generator emits
    Apostrophe,
    /// `(`
    OpenParen,
    /// `)`
    CloseParen,
    /// `[`, which only the code generator emits
    OpenSquare,
    /// `]`, which only the code generator emits
    CloseSquare,
    /// `{`
    OpenCurly,
    /// `}`
    CloseCurly,
    /// `let`
    Let,
    /// `if`
    If,
    /// `while`
    While,
    /// `for`
    For,
    /// `putchar`
    Putchar,
    /// `return`
    Return,
    /// `method`
    Method,
    /// `getchar`
    Getchar,
    /// `;`
    Semicolon,
    /// What a cursor reads past the end of its tokens
    Invalid,
}

/// The mathematical content of a token: a name is the sequence of its
/// characters; every other token stands for itself.
pub enum TokenView {
    Identifier(Seq<char>),
    Plain(Token),
}

impl View for Token {
    type V = TokenView;

    open spec fn view(&self) -> TokenView {
        match *self {
            Token::Identifier(name) => TokenView::Identifier(name@),
            other => TokenView::Plain(other),
        }
    }
}

/// The views of a sequence of tokens.
pub open spec fn token_views(tokens: Seq<Token>) -> Seq<TokenView> {
    tokens.map_values(|t: Token| t@)
}

/// A token without a name in it.
pub open spec fn plain(t: Token) -> TokenView {
    TokenView::Plain(t)
}

/// The literal that a number of the width of a cell is written as; the
/// number is meant to fit in eight bits.
pub open spec fn literal(n: u16) -> TokenView {
    TokenView::Plain(Token::Literal(n as u8))
}

/// The token at `pos`, or the blank token outside the sequence.
pub open spec fn token_at(tokens: Seq<TokenView>, pos: int) -> TokenView {
    if 0 <= pos < tokens.len() {
        tokens[pos]
    } else {
        TokenView::Plain(Token::Invalid)
    }
}

/// The printed form of a token without a name in it.
pub open spec fn plain_token_text(t: Token) -> Seq<char> {
    match t {
        Token::LeftAngle => "LeftAngle"@,
        Token::RightAngle => "RightAngle"@,
        Token::Plus => "Plus"@,
        Token::Minus => "Minus"@,
        Token::Dot => "Dot"@,
        Token::Comma => "Comma"@,
        Token::LabelDef => "LabelDef"@,
        Token::Jmp => "Jmp"@,
        Token::Jze => "Jze"@,
        Token::Jnze => "Jnze"@,
        Token::Star => "Star"@,
        Token::Slash => "Slash"@,
        Token::Exclamation => "Exclamation"@,
        Token::Ampersand => "Ampersand"@,
        Token::Tilde => "Tilde"@,
        Token::Percent => "Percent"@,
        Token::Equals => "Equals"@,
        Token::Caret => "Caret"@,
        Token::Pipe => "Pipe"@,
        Token::Apostrophe => "Apostrophe"@,
        Token::OpenParen => "OpenParen"@,
        Token::CloseParen => "CloseParen"@,
        Token::OpenSquare => "OpenSquare"@,
        Token::CloseSquare => "CloseSquare"@,
        Token::OpenCurly => "OpenCurly"@,
        Token::CloseCurly => "CloseCurly"@,
        Token::Let => "Let"@,
        Token::If => "If"@,
        Token::While => "While"@,
        Token::For => "For"@,
        Token::Putchar => "Putchar"@,
        Token::Return => "Return"@,
        Token::Method => "Method"@,
        Token::Getchar => "Getchar"@,
        Token::Semicolon => "Semicolon"@,
        Token::Invalid => "Invalid"@,
        Token::Literal(n) => "Literal("@ + decimal(n as nat) + ")"@,
        Token::Identifier(_) => "Identifier"@,
    }
}

/// The printed form of a token.
pub open spec fn token_text(t: TokenView) -> Seq<char> {
    match t {
        TokenView::Identifier(name) => "Identifier(\""@ + name + "\")"@,
        TokenView::Plain(p) => plain_token_text(p),
    }
}

impl Clone for Token {
    fn clone(&self) -> (r: Token)
        ensures
            r == *self,
    {
        match self {
            Token::LeftAngle => Token::LeftAngle,
            Token::RightAngle => Token::RightAngle,
            Token::Plus => Token::Plus,
            Token::Minus => Token::Minus,
            Token::Dot => Token::Dot,
            Token::Comma => Token::Comma,
            Token::LabelDef => Token::LabelDef,
            Token::Jmp => Token::Jmp,
            Token::Jze => Token::Jze,
            Token::Jnze => Token::Jnze,
            Token::Star => Token::Star,
            Token::Slash => Token::Slash,
            Token::Exclamation => Token::Exclamation,
            Token::Ampersand => Token::Ampersand,
            Token::Tilde => Token::Tilde,
            Token::Percent => Token::Percent,
            Token::Equals => Token::Equals,
            Token::Caret => Token::Caret,
            Token::Pipe => Token::Pipe,
            Token::Apostrophe => Token::Apostrophe,
            Token::OpenParen => Token::OpenParen,
            Token::CloseParen => Token::CloseParen,
            Token::OpenSquare => Token::OpenSquare,
            Token::CloseSquare => Token::CloseSquare,
            Token::OpenCurly => Token::OpenCurly,
            Token::CloseCurly => Token::CloseCurly,
            Token::Let => Token::Let,
            Token::If => Token::If,
            Token::While => Token::While,
            Token::For => Token::For,
            Token::Putchar => Token::Putchar,
            Token::Return => Token::Return,
            Token::Method => Token::Method,
            Token::Getchar => Token::Getchar,
            Token::Semicolon => Token::Semicolon,
            Token::Invalid => Token::Invalid,
            Token::Identifier(name) => Token::Identifier(name.clone()),
            Token::Literal(n) => Token::Literal(*n),
        }
    }
}

impl Default for Token {
    fn default() -> (r: Token)
        ensures
            r == Token::Invalid,
    {
        Token::Invalid
    }
}

impl Token {
    /// The token's printed form.
    pub fn to_string(&self) -> (s: String)
        ensures
            s@ == token_text(self@),
    {
        match self {
            Token::LeftAngle => String::from_str("LeftAngle"),
            Token::RightAngle => String::from_str("RightAngle"),
            Token::Plus => String::from_str("Plus"),
            Token::Minus => String::from_str("Minus"),
            Token::Dot => String::from_str("Dot"),
            Token::Comma => String::from_str("Comma"),
            Token::LabelDef => String::from_str("LabelDef"),
            Token::Jmp => String::from_str("Jmp"),
            Token::Jze => String::from_str("Jze"),
            Token::Jnze => String::from_str("Jnze"),
            Token::Star => String::from_str("Star"),
            Token::Slash => String::from_str("Slash"),
            Token::Exclamation => String::from_str("Exclamation"),
            Token::Ampersand => String::from_str("Ampersand"),
            Token::Tilde => String::from_str("Tilde"),
            Token::Percent => String::from_str("Percent"),
            Token::Equals => String::from_str("Equals"),
            Token::Caret => String::from_str("Caret"),
            Token::Pipe => String::from_str("Pipe"),
            Token::Apostrophe => String::from_str("Apostrophe"),
            Token::OpenParen => String::from_str("OpenParen"),
            Token::CloseParen => String::from_str("CloseParen"),
            Token::OpenSquare => String::from_str("OpenSquare"),
            Token::CloseSquare => String::from_str("CloseSquare"),
            Token::OpenCurly => String::from_str("OpenCurly"),
            Token::CloseCurly => String::from_str("CloseCurly"),
            Token::Let => String::from_str("Let"),
            Token::If => String::from_str("If"),
            Token::While => String::from_str("While"),
            Token::For => String::from_str("For"),
            Token::Putchar => String::from_str("Putchar"),
            Token::Return => String::from_str("Return"),
            Token::Method => String::from_str("Method"),
            Token::Getchar => String::from_str("Getchar"),
            Token::Semicolon => String::from_str("Semicolon"),
            Token::Invalid => String::from_str("Invalid"),
            Token::Literal(n) => {
                let mut s = String::from_str("Literal(");
                push_decimal(&mut s, *n as u64);
                s.append(")");
                s
            },
            Token::Identifier(name) => {
                let mut s = String::from_str("Identifier(\"");
                s.append(name.as_str());
                s.append("\")");
                s
            },
        }
    }
}

impl ProcessorInput for Token {
    open spec fn blank() -> Token {
        Token::Invalid
    }

    open spec fn agrees(&self, other: &Token) -> bool {
        self@ == other@
    }

    open spec fn text(&self) -> Seq<char> {
        token_text(self@)
    }

    fn filler() -> (r: Token) {
        Token::Invalid
    }

    fn duplicate(&self) -> (r: Token) {
        self.clone()
    }

    fn same_as(&self, other: &Token) -> (b: bool) {
        match self {
            Token::LeftAngle => matches!(other, Token::LeftAngle),
            Token::RightAngle => matches!(other, Token::RightAngle),
            Token::Plus => matches!(other, Token::Plus),
            Token::Minus => matches!(other, Token::Minus),
            Token::Dot => matches!(other, Token::Dot),
            Token::Comma => matches!(other, Token::Comma),
            Token::LabelDef => matches!(other, Token::LabelDef),
            Token::Jmp => matches!(other, Token::Jmp),
            Token::Jze => matches!(other, Token::Jze),
            Token::Jnze => matches!(other, Token::Jnze),
            Token::Star => matches!(other, Token::Star),
            Token::Slash => matches!(other, Token::Slash),
            Token::Exclamation => matches!(other, Token::Exclamation),
            Token::Ampersand => matches!(other, Token::Ampersand),
            Token::Tilde => matches!(other, Token::Tilde),
            Token::Percent => matches!(other, Token::Percent),
            Token::Equals => matches!(other, Token::Equals),
            Token::Caret => matches!(other, Token::Caret),
            Token::Pipe => matches!(other, Token::Pipe),
            Token::Apostrophe => matches!(other, Token::Apostrophe),
            Token::OpenParen => matches!(other, Token::OpenParen),
            Token::CloseParen => matches!(other, Token::CloseParen),
            Token::OpenSquare => matches!(other, Token::OpenSquare),
            Token::CloseSquare => matches!(other, Token::CloseSquare),
            Token::OpenCurly => matches!(other, Token::OpenCurly),
            Token::CloseCurly => matches!(other, Token::CloseCurly),
            Token::Let => matches!(other, Token::Let),
            Token::If => matches!(other, Token::If),
            Token::While => matches!(other, Token::While),
            Token::For => matches!(other, Token::For),
            Token::Putchar => matches!(other, Token::Putchar),
            Token::Return => matches!(other, Token::Return),
            Token::Method => matches!(other, Token::Method),
            Token::Getchar => matches!(other, Token::Getchar),
            Token::Semicolon => matches!(other, Token::Semicolon),
            Token::Invalid => matches!(other, Token::Invalid),
            Token::Literal(n) => match other {
                Token::Literal(m) => *n == *m,
                _ => false,
            },
            Token::Identifier(name) => match other {
                Token::Identifier(second) => *name == *second,
                _ => false,
            },
        }
    }

    fn describe(&self) -> (s: String) {
        self.to_string()
    }
}

/// What `char::is_alphabetic` answers for a character beyond ASCII: whether
/// Unicode gives it the property `Alphabetic`.
pub uninterp spec fn alphabetic(c: char) -> bool;

/// The letters of ASCII: `a` to `z` and `A` to `Z`.
pub open spec fn ascii_letter(c: char) -> bool {
    'a' <= c <= 'z' || 'A' <= c <= 'Z'
}

/// Whether a character is a letter: within ASCII, whether it is one of
/// its letters; beyond it Unicode's property `Alphabetic` decides.
pub open spec fn letter(c: char) -> bool {
    if c <= '\x7f' {
        ascii_letter(c)
    } else {
        alphabetic(c)
    }
}

/// Whether a character is blank space: the characters to which Unicode
/// gives the property `White_Space`. Within ASCII these are the space and
/// the five from the tabulator to the carriage return.
pub open spec fn whitespace(c: char) -> bool {
    ||| '\t' <= c <= '\r'
    ||| c == ' '
    ||| c == '\u{85}'
    ||| c == '\u{a0}'
    ||| c == '\u{1680}'
    ||| '\u{2000}' <= c <= '\u{200a}'
    ||| c == '\u{2028}'
    ||| c == '\u{2029}'
    ||| c == '\u{202f}'
    ||| c == '\u{205f}'
    ||| c == '\u{3000}'
}

/// `char::is_alphabetic` tells whether Unicode gives a character the
/// property `Alphabetic`. Of the ASCII characters the letters have it and
/// no other; for the rest the answer depends on the character alone.
pub assume_specification[ char::is_alphabetic ](c: char) -> (b: bool)
    ensures
        c <= '\x7f' ==> b == ascii_letter(c),
        c > '\x7f' ==> b == alphabetic(c),
;

/// `char::is_whitespace` tells whether Unicode gives a character the
/// property `White_Space`, which `whitespace` writes out.
pub assume_specification[ char::is_whitespace ](c: char) -> (b: bool)
    ensures
        b == whitespace(c),
;

/// The token of a punctuation character, if it is one.
pub open spec fn punctuator(c: char) -> Option<Token> {
    if c == '>' {
        Some(Token::RightAngle)
    } else if c == '<' {
        Some(Token::LeftAngle)
    } else if c == '+' {
        Some(Token::Plus)
    } else if c == '-' {
        Some(Token::Minus)
    } else if c == '.' {
        Some(Token::Dot)
    } else if c == ',' {
        Some(Token::Comma)
    } else if c == ':' {
        Some(Token::LabelDef)
    } else if c == '@' {
        Some(Token::Jmp)
    } else if c == '?' {
        Some(Token::Jze)
    } else if c == '*' {
        Some(Token::Star)
    } else if c == '/' {
        Some(Token::Slash)
    } else if c == '!' {
        Some(Token::Exclamation)
    } else if c == '~' {
        Some(Token::Tilde)
    } else if c == '%' {
        Some(Token::Percent)
    } else if c == '=' {
        Some(Token::Equals)
    } else if c == '^' {
        Some(Token::Caret)
    } else if c == '|' {
        Some(Token::Pipe)
    } else if c == '&' {
        Some(Token::Ampersand)
    } else if c == '(' {
        Some(Token::OpenParen)
    } else if c == ')' {
        Some(Token::CloseParen)
    } else if c == '{' {
        Some(Token::OpenCurly)
    } else if c == '}' {
        Some(Token::CloseCurly)
    } else if c == ';' {
        Some(Token::Semicolon)
    } else {
        None
    }
}

/// The character a punctuation token is written with.
pub open spec fn punctuator_char(t: Token) -> Option<char> {
    match t {
        Token::RightAngle => Some('>'),
        Token::LeftAngle => Some('<'),
        Token::Plus => Some('+'),
        Token::Minus => Some('-'),
        Token::Dot => Some('.'),
        Token::Comma => Some(','),
        Token::LabelDef => Some(':'),
        Token::Jmp => Some('@'),
        Token::Jze => Some('?'),
        Token::Star => Some('*'),
        Token::Slash => Some('/'),
        Token::Exclamation => Some('!'),
        Token::Tilde => Some('~'),
        Token::Percent => Some('%'),
        Token::Equals => Some('='),
        Token::Caret => Some('^'),
        Token::Pipe => Some('|'),
        Token::Ampersand => Some('&'),
        Token::OpenParen => Some('('),
        Token::CloseParen => Some(')'),
        Token::OpenCurly => Some('{'),
        Token::CloseCurly => Some('}'),
        Token::Semicolon => Some(';'),
        _ => None,
    }
}

/// The token of a keyword, if the word is one.
pub open spec fn keyword(word: Seq<char>) -> Option<Token> {
    if word == "let"@ {
        Some(Token::Let)
    } else if word == "if"@ {
        Some(Token::If)
    } else if word == "while"@ {
        Some(Token::While)
    } else if word == "for"@ {
        Some(Token::For)
    } else if word == "putchar"@ {
        Some(Token::Putchar)
    } else if word == "return"@ {
        Some(Token::Return)
    } else if word == "method"@ {
        Some(Token::Method)
    } else if word == "getchar"@ {
        Some(Token::Getchar)
    } else {
        None
    }
}

/// The token of a word: its keyword, or a name.
pub open spec fn word_token(word: Seq<char>) -> TokenView {
    match keyword(word) {
        Some(t) => TokenView::Plain(t),
        None => TokenView::Identifier(word),
    }
}

/// The kinds of character that the lexer reads in runs.
#[derive(Clone, Copy, PartialEq, Eq, Structural, Debug)]
pub enum CharClass {
    /// Characters of names and keywords.
    Alphabetic,
    /// `0` to `9`.
    Decimal,
    /// `0` to `9`, `a` to `f`, `A` to `F`.
    Hexadecimal,
}

/// The value of a digit, in base ten or sixteen.
pub open spec fn digit_value(c: char) -> Option<nat> {
    if '0' <= c <= '9' {
        Some((c as nat - '0' as nat) as nat)
    } else if 'a' <= c <= 'f' {
        Some((c as nat - 'a' as nat + 10) as nat)
    } else if 'A' <= c <= 'F' {
        Some((c as nat - 'A' as nat + 10) as nat)
    } else {
        None
    }
}

/// Whether a character belongs to a class.
pub open spec fn in_class(c: char, class: CharClass) -> bool {
    match class {
        CharClass::Alphabetic => letter(c),
        CharClass::Decimal => '0' <= c <= '9',
        CharClass::Hexadecimal => digit_value(c) is Some,
    }
}

/// The base that the digits of a class are read in.
pub open spec fn radix(class: CharClass) -> nat {
    if class == CharClass::Hexadecimal {
        16
    } else {
        10
    }
}

/// The number of characters from `from` on that belong to `class`, up to the
/// first that does not.
pub open spec fn run_len(chars: Seq<char>, from: int, class: CharClass) -> nat
    decreases chars.len() - from,
{
    if 0 <= from < chars.len() && in_class(chars[from], class) {
        1 + run_len(chars, from + 1, class)
    } else {
        0
    }
}

/// The characters of that run.
pub open spec fn run(chars: Seq<char>, from: int, class: CharClass) -> Seq<char> {
    chars.subrange(from, from + run_len(chars, from, class))
}

/// The number that a sequence of digits denotes in the given base.
pub open spec fn numeral(digits: Seq<char>, base: nat) -> nat
    decreases digits.len(),
{
    if digits.len() == 0 {
        0
    } else {
        numeral(digits.drop_last(), base) * base + match digit_value(digits.last()) {
            Some(d) => d,
            None => 0,
        }
    }
}

/// The literal that a sequence of digits denotes, or the failure when it
/// does not fit in eight bits.
pub open spec fn literal_token(digits: Seq<char>, base: nat) -> Result<Option<TokenView>, Failure> {
    if numeral(digits, base) <= u8::MAX {
        Ok(Some(TokenView::Plain(Token::Literal(numeral(digits, base) as u8))))
    } else {
        Err(failure(ErrorKind::Tokenizer, "number too large to fit in target type"@))
    }
}

/// The message for a character that starts no token.
pub open spec fn invalid_token_message(c: char, line: nat) -> Seq<char> {
    "Invalid token "@ + seq![c] + "["@ + decimal(line) + "]"@
}

/// Whether a hexadecimal literal starts at `pos`: a `0`, an `x` and at least
/// one hexadecimal digit.
pub open spec fn hex_starts(chars: Seq<char>, pos: int) -> bool {
    &&& 0 <= pos
    &&& pos + 2 < chars.len()
    &&& chars[pos] == '0'
    &&& chars[pos + 1] == 'x'
    &&& in_class(chars[pos + 2], CharClass::Hexadecimal)
}

/// One step of the lexer.
pub struct Scan {
    /// The token read, nothing for blank space, or the failure.
    pub outcome: Result<Option<TokenView>, Failure>,
    /// How many characters were read after the first.
    pub more: nat,
    /// The line count after what was read.
    pub line: nat,
}

/// What a character starts.
#[derive(Debug, PartialEq, Eq)]
pub enum Start {
    /// A punctuation token, which the character is.
    Punctuation(Token),
    /// A new line.
    Line,
    /// Blank space within a line.
    Blank,
    /// A keyword or a name.
    Word,
    /// A number.
    Number,
    /// No token.
    Nothing,
}

/// What the character `c` starts, given whether it is blank space and
/// whether it is a letter: punctuation goes before the end of a line, that
/// before blank space, that before letters, and letters before digits.
pub open spec fn start_of(c: char, blank: bool, letter: bool) -> Start {
    if punctuator(c) is Some {
        Start::Punctuation(punctuator(c)->Some_0)
    } else if c == '\n' {
        Start::Line
    } else if blank {
        Start::Blank
    } else if letter {
        Start::Word
    } else if in_class(c, CharClass::Decimal) {
        Start::Number
    } else {
        Start::Nothing
    }
}

/// What the lexer reads at `pos`, which lies inside `chars`.
pub open spec fn scan(chars: Seq<char>, pos: int, line: nat) -> Scan {
    let c = chars[pos];
    match start_of(c, whitespace(c), letter(c)) {
        Start::Punctuation(t) => Scan { outcome: Ok(Some(TokenView::Plain(t))), more: 0, line },
        Start::Line => Scan { outcome: Ok(None), more: 0, line: line + 1 },
        Start::Blank => Scan { outcome: Ok(None), more: 0, line },
        Start::Word => {
            let rest = run(chars, pos + 1, CharClass::Alphabetic);
            Scan { outcome: Ok(Some(word_token(seq![c] + rest))), more: rest.len(), line }
        },
        Start::Number => if hex_starts(chars, pos) {
            let digits = run(chars, pos + 2, CharClass::Hexadecimal);
            Scan { outcome: literal_token(digits, 16), more: 1 + digits.len(), line }
        } else {
            let rest = run(chars, pos + 1, CharClass::Decimal);
            Scan { outcome: literal_token(seq![c] + rest, 10), more: rest.len(), line }
        },
        Start::Nothing => Scan {
            outcome: Err(failure(ErrorKind::Tokenizer, invalid_token_message(c, line))),
            more: 0,
            line,
        },
    }
}

/// `done` followed by what `rest` holds, or the failure of `rest`.
pub open spec fn prepend(done: Seq<TokenView>, rest: Result<Seq<TokenView>, Failure>) -> Result<
    Seq<TokenView>,
    Failure,
> {
    match rest {
        Ok(r) => Ok(done + r),
        Err(e) => Err(e),
    }
}

/// The tokens of `chars` from `pos` on, or the first failure.
pub open spec fn lex_from(chars: Seq<char>, pos: int, line: nat) -> Result<Seq<TokenView>, Failure>
    decreases
        (if pos < chars.len() {
            chars.len() - pos
        } else {
            0
        }),
{
    if pos < 0 || pos >= chars.len() {
        Ok(Seq::empty())
    } else {
        let s = scan(chars, pos, line);
        let rest = lex_from(chars, pos + 1 + s.more, s.line);
        match s.outcome {
            Err(e) => Err(e),
            Ok(None) => rest,
            Ok(Some(t)) => prepend(seq![t], rest),
        }
    }
}

/// The tokens of a whole text.
pub open spec fn lex(chars: Seq<char>) -> Result<Seq<TokenView>, Failure> {
    lex_from(chars, 0, 0)
}

/// The lexer: a cursor over characters and a line count.
pub struct Tokenizer {
    base: Processor<char>,
    line: usize,
}

/// What the character `c` starts, given the answers `blank` of
/// `char::is_whitespace` and `letter` of `char::is_alphabetic` for it.
pub fn classify(c: char, blank: bool, letter: bool) -> (k: Start)
    ensures
        k == start_of(c, blank, letter),
{
    if let Some(t) = punctuation(c) {
        Start::Punctuation(t)
    } else if c == '\n' {
        Start::Line
    } else if blank {
        Start::Blank
    } else if letter {
        Start::Word
    } else if '0' <= c && c <= '9' {
        Start::Number
    } else {
        Start::Nothing
    }
}

fn punctuation(c: char) -> (r: Option<Token>)
    ensures
        r == punctuator(c),
{
    if c == '>' {
        Some(Token::RightAngle)
    } else if c == '<' {
        Some(Token::LeftAngle)
    } else if c == '+' {
        Some(Token::Plus)
    } else if c == '-' {
        Some(Token::Minus)
    } else if c == '.' {
        Some(Token::Dot)
    } else if c == ',' {
        Some(Token::Comma)
    } else if c == ':' {
        Some(Token::LabelDef)
    } else if c == '@' {
        Some(Token::Jmp)
    } else if c == '?' {
        Some(Token::Jze)
    } else if c == '*' {
        Some(Token::Star)
    } else if c == '/' {
        Some(Token::Slash)
    } else if c == '!' {
        Some(Token::Exclamation)
    } else if c == '~' {
        Some(Token::Tilde)
    } else if c == '%' {
        Some(Token::Percent)
    } else if c == '=' {
        Some(Token::Equals)
    } else if c == '^' {
        Some(Token::Caret)
    } else if c == '|' {
        Some(Token::Pipe)
    } else if c == '&' {
        Some(Token::Ampersand)
    } else if c == '(' {
        Some(Token::OpenParen)
    } else if c == ')' {
        Some(Token::CloseParen)
    } else if c == '{' {
        Some(Token::OpenCurly)
    } else if c == '}' {
        Some(Token::CloseCurly)
    } else if c == ';' {
        Some(Token::Semicolon)
    } else {
        None
    }
}

fn is_word(word: &String, keyword: &str) -> (b: bool)
    ensures
        b == (word@ == keyword@),
{
    let k = String::from_str(keyword);
    *word == k
}

fn token_of_word(word: String) -> (r: Token)
    ensures
        r@ == word_token(word@),
{
    if is_word(&word, "let") {
        Token::Let
    } else if is_word(&word, "if") {
        Token::If
    } else if is_word(&word, "while") {
        Token::While
    } else if is_word(&word, "for") {
        Token::For
    } else if is_word(&word, "putchar") {
        Token::Putchar
    } else if is_word(&word, "return") {
        Token::Return
    } else if is_word(&word, "method") {
        Token::Method
    } else if is_word(&word, "getchar") {
        Token::Getchar
    } else {
        Token::Identifier(word)
    }
}

fn digit_of(c: char) -> (r: Option<u8>)
    ensures
        match r {
            Some(d) => digit_value(c) == Some(d as nat) && d < 16,
            None => digit_value(c) is None,
        },
{
    if '0' <= c && c <= '9' {
        Some((c as u32 - '0' as u32) as u8)
    } else if 'a' <= c && c <= 'f' {
        Some((c as u32 - 'a' as u32 + 10) as u8)
    } else if 'A' <= c && c <= 'F' {
        Some((c as u32 - 'A' as u32 + 10) as u8)
    } else {
        None
    }
}

fn belongs(c: char, class: CharClass) -> (b: bool)
    ensures
        b == in_class(c, class),
{
    match class {
        CharClass::Alphabetic => c.is_alphabetic(),
        CharClass::Decimal => '0' <= c && c <= '9',
        CharClass::Hexadecimal => digit_of(c).is_some(),
    }
}

/// The literal that `digits` denote in base ten or sixteen.
fn literal_of(digits: &Vec<char>, class: CharClass) -> (r: Result<Option<Token>, DSAsmError>)
    ensures
        match r {
            Ok(Some(t)) => literal_token(digits@, radix(class)) == Ok::<Option<TokenView>, Failure>(
                Some(t@),
            ),
            Ok(None) => false,
            Err(e) => literal_token(digits@, radix(class)) == Err::<Option<TokenView>, Failure>(e@),
        },
{
    let base: u16 = if class == CharClass::Hexadecimal {
        16
    } else {
        10
    };
    let mut value: u16 = 0;
    let mut fits: bool = true;
    let mut i: usize = 0;
    while i < digits.len()
        invariant
            i <= digits.len(),
            base == radix(class),
            fits ==> value == numeral(digits@.subrange(0, i as int), base as nat),
            !fits ==> numeral(digits@.subrange(0, i as int), base as nat) > u8::MAX,
            value <= u8::MAX,
        decreases digits.len() - i,
    {
        let d: u16 = match digit_of(digits[i]) {
            Some(d) => d as u16,
            None => 0,
        };
        assert(digits@.subrange(0, i + 1).drop_last() =~= digits@.subrange(0, i as int));
        assert(digits@.subrange(0, i + 1).last() == digits@[i as int]);
        let ghost before = numeral(digits@.subrange(0, i as int), base as nat);
        assert(numeral(digits@.subrange(0, i + 1), base as nat) == before * (base as nat) + d);
        if fits {
            let next: u16 = value * base + d;
            if next > 255 {
                fits = false;
            } else {
                value = next;
            }
        } else {
            assert(before * (base as nat) + d > u8::MAX) by (nonlinear_arith)
                requires
                    before > u8::MAX,
                    base >= 10,
                    d >= 0,
            ;
        }
        i += 1;
    }
    assert(digits@.subrange(0, digits.len() as int) =~= digits@);
    if fits {
        Ok(Some(Token::Literal(value as u8)))
    } else {
        Err(DSAsmError::TokenizerError(String::from_str("number too large to fit in target type")))
    }
}

fn word_of(first: char, rest: &Vec<char>) -> (word: String)
    ensures
        word@ == seq![first] + rest@,
{
    let mut word = String::new();
    word.push(first);
    let mut i: usize = 0;
    while i < rest.len()
        invariant
            i <= rest.len(),
            word@ == seq![first] + rest@.subrange(0, i as int),
        decreases rest.len() - i,
    {
        word.push(rest[i]);
        assert((seq![first] + rest@.subrange(0, i as int)).push(rest@[i as int]) =~= seq![first]
            + rest@.subrange(0, i + 1));
        i += 1;
    }
    assert(rest@.subrange(0, rest.len() as int) =~= rest@);
    word
}

impl Tokenizer {
    /// The text being read.
    pub closed spec fn chars(&self) -> Seq<char> {
        self.base.items()
    }

    /// The position of the next character to read.
    pub closed spec fn position(&self) -> nat {
        self.base.position()
    }

    /// The number of line ends read so far.
    pub closed spec fn line(&self) -> nat {
        self.line as nat
    }

    /// The line count never runs ahead of the position, so counting lines
    /// cannot overflow.
    pub closed spec fn wf(&self) -> bool {
        &&& self.line <= self.base.position()
        &&& self.base.position() <= self.base.items().len()
    }

    /// A lexer at the start of the text `content`.
    pub fn new(content: Vec<char>) -> (t: Tokenizer)
        ensures
            t.wf(),
            t.chars() == content@,
            t.position() == 0,
            t.line() == 0,
    {
        Tokenizer { base: Processor::new(content), line: 0 }
    }

    /// Reads the run of characters of `class` at the cursor.
    fn take_run(&mut self, class: CharClass) -> (taken: Vec<char>)
        requires
            old(self).base.position() <= old(self).base.items().len(),
        ensures
            final(self).base.items() == old(self).base.items(),
            final(self).line == old(self).line,
            taken@ == run(old(self).base.items(), old(self).base.position() as int, class),
            final(self).base.position() == old(self).base.position() + taken@.len(),
            final(self).base.position() <= final(self).base.items().len(),
    {
        let mut taken: Vec<char> = Vec::new();
        let ghost chars = self.base.items();
        let ghost start = self.base.position() as int;
        while self.base.has_peek() && belongs(self.base.peek(), class)
            invariant
                self.base.items() == chars,
                self.line == old(self).line,
                start + taken@.len() == self.base.position(),
                self.base.position() <= chars.len(),
                taken@ == chars.subrange(start, start + taken@.len()),
                run_len(chars, start, class) == taken@.len() + run_len(
                    chars,
                    self.base.position() as int,
                    class,
                ),
            decreases chars.len() - self.base.position(),
        {
            let c = self.base.consume();
            taken.push(c);
            assert(taken@ =~= chars.subrange(start, start + taken@.len()));
        }
        taken
    }

    /// Reads one token, or blank space, at the cursor.
    fn scan_one(&mut self) -> (r: Result<Option<Token>, DSAsmError>)
        requires
            old(self).wf(),
            old(self).position() < old(self).chars().len(),
        ensures
            final(self).chars() == old(self).chars(),
            ({
                let s = scan(old(self).chars(), old(self).position() as int, old(self).line());
                match r {
                    Ok(Some(t)) => s.outcome == Ok::<Option<TokenView>, Failure>(Some(t@)),
                    Ok(None) => s.outcome == Ok::<Option<TokenView>, Failure>(None),
                    Err(e) => s.outcome == Err::<Option<TokenView>, Failure>(e@),
                }
            }),
            r is Ok ==> final(self).wf() && final(self).position() == old(self).position() + 1
                + scan(old(self).chars(), old(self).position() as int, old(self).line()).more
                && final(self).line() == scan(
                old(self).chars(),
                old(self).position() as int,
                old(self).line(),
            ).line,
    {
        let ghost chars = self.base.items();
        let ghost pos = self.base.position() as int;
        let start = self.base.get_peek();
        let c = self.base.consume();
        proof {
            self.base.lemma_bounded();
        }
        match classify(c, c.is_whitespace(), c.is_alphabetic()) {
            Start::Punctuation(t) => Ok(Some(t)),
            Start::Line => {
                self.line += 1;
                Ok(None)
            },
            Start::Blank => Ok(None),
            Start::Word => {
                let rest = self.take_run(CharClass::Alphabetic);
                Ok(Some(token_of_word(word_of(c, &rest))))
            },
            Start::Number => {
                if c == '0' && self.base.tryconsume('x') {
                    if self.base.has_peek() && belongs(self.base.peek(), CharClass::Hexadecimal) {
                        let digits = self.take_run(CharClass::Hexadecimal);
                        return literal_of(&digits, CharClass::Hexadecimal);
                    }
                    self.base.set_peek(start + 1);
                }
                let rest = self.take_run(CharClass::Decimal);
                let mut digits: Vec<char> = Vec::new();
                digits.push(c);
                let mut rest = rest;
                digits.append(&mut rest);
                literal_of(&digits, CharClass::Decimal)
            },
            Start::Nothing => {
                let mut message = String::from_str("Invalid token ");
                message.push(c);
                message.append("[");
                push_decimal(&mut message, self.line as u64);
                message.append("]");
                assert(message@ =~= invalid_token_message(c, self.line as nat));
                Err(DSAsmError::TokenizerError(message))
            },
        }
    }

    /// Reads the rest of the text into tokens. Blank space separates tokens
    /// and is dropped; the first character that starts no token, or the
    /// first number too large for eight bits, ends the reading with an error
    /// of the tokenizer.
    pub fn tokenize(&mut self) -> (r: Result<Vec<Token>, DSAsmError>)
        requires
            old(self).wf(),
        ensures
            final(self).chars() == old(self).chars(),
            match r {
                Ok(tokens) => lex_from(
                    old(self).chars(),
                    old(self).position() as int,
                    old(self).line(),
                ) == Ok::<Seq<TokenView>, Failure>(token_views(tokens@)) && final(self).wf()
                    && final(self).position() == final(self).chars().len(),
                Err(e) => lex_from(old(self).chars(), old(self).position() as int, old(self).line())
                    == Err::<Seq<TokenView>, Failure>(e@) && e@.kind == ErrorKind::Tokenizer,
            },
    {
        let mut ret: Vec<Token> = Vec::new();
        let ghost chars = self.base.items();
        let ghost whole = lex_from(chars, self.base.position() as int, self.line as nat);
        while self.base.has_peek()
            invariant
                self.wf(),
                self.chars() == chars,
                chars == old(self).chars(),
                whole == lex_from(chars, old(self).position() as int, old(self).line()),
                whole == prepend(
                    token_views(ret@),
                    lex_from(chars, self.position() as int, self.line()),
                ),
            decreases chars.len() - self.position(),
        {
            let ghost before = token_views(ret@);
            let ghost s = scan(chars, self.position() as int, self.line());
            match self.scan_one() {
                Err(e) => {
                    return Err(e);
                },
                Ok(None) => {},
                Ok(Some(t)) => {
                    ret.push(t);
                    assert(token_views(ret@) =~= before.push(t@));
                    assert forall|rest: Seq<TokenView>| #[trigger]
                        (before + (seq![t@] + rest)) == before.push(t@) + rest by {
                        assert((before + (seq![t@] + rest)) =~= before.push(t@) + rest);
                    }
                },
            }
        }
        assert(token_views(ret@) + Seq::<TokenView>::empty() =~= token_views(ret@));
        Ok(ret)
    }
}

/// The text that writes each punctuation token with its character.
pub open spec fn punctuation_text(tokens: Seq<Token>) -> Seq<char> {
    tokens.map_values(|t: Token| punctuator_char(t)->Some_0)
}

/// The views of tokens that hold no name.
pub open spec fn plain_views(tokens: Seq<Token>) -> Seq<TokenView> {
    tokens.map_values(|t: Token| TokenView::Plain(t))
}

proof fn lemma_punctuation_from(tokens: Seq<Token>, pos: int, line: nat)
    requires
        0 <= pos <= tokens.len(),
        forall|i: int| 0 <= i < tokens.len() ==> punctuator_char(#[trigger] tokens[i]) is Some,
    ensures
        lex_from(punctuation_text(tokens), pos, line) == Ok::<Seq<TokenView>, Failure>(
            plain_views(tokens).subrange(pos, tokens.len() as int),
        ),
    decreases tokens.len() - pos,
{
    let chars = punctuation_text(tokens);
    let views = plain_views(tokens);
    if pos < tokens.len() {
        lemma_punctuation_from(tokens, pos + 1, line);
        assert(punctuator_char(tokens[pos]) is Some);
        assert(punctuator(chars[pos]) == Some(tokens[pos]));
        assert(seq![views[pos]] + views.subrange(pos + 1, tokens.len() as int) =~= views.subrange(
            pos,
            tokens.len() as int,
        ));
    } else {
        assert(views.subrange(pos, tokens.len() as int) =~= Seq::<TokenView>::empty());
    }
}

/// Lexing is the inverse of writing punctuation: when each token of a
/// sequence is a punctuation token, the text made of their characters lexes
/// to that very sequence.
pub proof fn lemma_punctuation_roundtrip(tokens: Seq<Token>)
    requires
        forall|i: int| 0 <= i < tokens.len() ==> punctuator_char(#[trigger] tokens[i]) is Some,
    ensures
        lex(punctuation_text(tokens)) == Ok::<Seq<TokenView>, Failure>(plain_views(tokens)),
{
    lemma_punctuation_from(tokens, 0, 0);
    assert(plain_views(tokens).subrange(0, tokens.len() as int) =~= plain_views(tokens));
}

/// Blank space stands for no token: where the character at `pos` is
/// blank, the tokens from `pos` on are those that follow it, and the line
/// count has risen if the character ends a line.
pub proof fn lemma_blank_skipped(chars: Seq<char>, pos: int, line: nat)
    requires
        0 <= pos < chars.len(),
        whitespace(chars[pos]),
    ensures
        lex_from(chars, pos, line) == lex_from(
            chars,
            pos + 1,
            if chars[pos] == '\n' {
                line + 1
            } else {
                line
            },
        ),
{
    assert(punctuator(chars[pos]) is None);
}

/// A decimal digit is neither blank space nor a letter, so it starts a
/// number; a letter of ASCII starts a word.
pub proof fn lemma_starts(c: char)
    ensures
        '0' <= c <= '9' ==> !whitespace(c) && !letter(c) && start_of(c, whitespace(c), letter(c))
            == Start::Number,
        ascii_letter(c) ==> !whitespace(c) && letter(c) && start_of(c, whitespace(c), letter(c))
            == Start::Word,
{
    if '0' <= c <= '9' || ascii_letter(c) {
        assert(punctuator(c) is None);
    }
}

/// Lexing fails only with an error of the tokenizer.
pub proof fn lemma_lex_failure_kind(chars: Seq<char>, pos: int, line: nat)
    ensures
        lex_from(chars, pos, line) matches Err(e) ==> e.kind == ErrorKind::Tokenizer,
    decreases
        (if pos < chars.len() {
            chars.len() - pos
        } else {
            0
        }),
{
    if 0 <= pos < chars.len() {
        let s = scan(chars, pos, line);
        lemma_lex_failure_kind(chars, pos + 1 + s.more, s.line);
    }
}

} // verus!
