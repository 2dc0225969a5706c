//! The scanner: from source text to tokens, one at a time.
//!
//! Positions and lengths count characters. Lines count from 1, and every
//! line feed that the scanner passes starts a new line, also inside a
//! string or a comment.
use crate::text::string_views;
use vstd::prelude::*;
use vstd::std_specs::iter::IteratorSpec;
use vstd::string::*;

verus! {

/// The kinds of token.
#[derive(Debug, PartialEq, Eq, Clone, Copy, Structural)]
pub enum TokenType {
    // Single-character tokens.
    LeftParen,
    RightParen,
    LeftBrace,
    RightBrace,
    Comma,
    Dot,
    Minus,
    Plus,
    Semicolon,
    Slash,
    Star,
    // One or two character tokens.
    Bang,
    BangEqual,
    Equal,
    EqualEqual,
    Greater,
    GreaterEqual,
    Less,
    LessEqual,
    // Literals.
    Identifier,
    String,
    Number,
    // Keywords.
    And,
    Class,
    Else,
    False,
    For,
    Fun,
    If,
    Nil,
    Or,
    Print,
    Return,
    Super,
    This,
    True,
    Var,
    While,
    Error,
    Eof,
}

/// A token: its kind, where its text lies in the source, and the line on
/// which it ends.
#[derive(Debug, PartialEq, Eq, Clone, Copy, Structural)]
pub struct Token {
    pub token_type: TokenType,
    pub start: usize,
    pub length: usize,
    pub line: usize,
}

/// Text that is no token.
#[derive(Debug)]
pub struct CompilerError {
    pub line: usize,
    pub message: String,
}

impl Token {
    pub fn new(token_type: TokenType, start: usize, length: usize, line: usize) -> (token: Token)
        ensures
            token == (Token { token_type, start, length, line }),
    {
        Token { token_type, start, length, line }
    }

    /// The text of the token in `text`.
    pub open spec fn text_in(self, text: Seq<char>) -> Seq<char> {
        text.subrange(self.start as int, self.start + self.length)
    }

    /// The text of the token, cut from the source it was scanned from.
    pub fn lexeme<'a>(&self, source: &'a str) -> (lexeme: &'a str)
        requires
            self.start + self.length <= source@.len(),
        ensures
            lexeme@ == self.text_in(source@),
    {
        let length = source.unicode_len();
        assert(self.start + self.length <= length);
        source.substring_char(self.start, self.start + self.length)
    }
}

/// Whether a character is alphabetic, as the `Alphabetic` property of the
/// Unicode standard has it.
pub uninterp spec fn alphabetic(c: char) -> bool;

/// Tells whether a character is alphabetic. Calls `char::is_alphabetic`; the
/// answer is a property of the character alone, and is not spelled out here.
#[verifier::external_body]
fn is_alphabetic(c: char) -> (r: bool)
    ensures
        r == alphabetic(c),
{
    c.is_alphabetic()
}

/// Whether a character is a decimal digit.
pub open spec fn is_digit(c: char) -> bool {
    '0' <= c && c <= '9'
}

/// The classes of character that a token is made of.
#[derive(Debug, Clone, Copy, PartialEq, Eq, Structural)]
pub enum CharClass {
    /// A decimal digit.
    Digit,
    /// What an identifier goes on with: a letter, a digit or `_`.
    IdentifierPart,
    /// What a comment goes on with: all but the line feed.
    CommentBody,
    /// What a string goes on with: all but the closing quote.
    StringBody,
}

impl CharClass {
    /// Whether the character is of the class.
    pub open spec fn holds(self, c: char) -> bool {
        match self {
            CharClass::Digit => is_digit(c),
            CharClass::IdentifierPart => alphabetic(c) || is_digit(c) || c == '_',
            CharClass::CommentBody => c != '\n',
            CharClass::StringBody => c != '"',
        }
    }
}

/// Where the run of characters of a class that starts at `from` ends: the
/// first position at or after `from` that holds no character of the class.
pub open spec fn run_end(text: Seq<char>, from: int, class: CharClass) -> int
    decreases text.len() - from,
{
    if 0 <= from < text.len() && class.holds(text[from]) {
        run_end(text, from + 1, class)
    } else {
        from
    }
}

/// The number of line feeds in `text` from `from` up to `to`.
pub open spec fn newlines(text: Seq<char>, from: int, to: int) -> int
    decreases to - from,
{
    if 0 <= from < to <= text.len() {
        newlines(text, from, to - 1) + if text[to - 1] == '\n' {
            1int
        } else {
            0int
        }
    } else {
        0
    }
}

/// A position in the text and the line it is on.
pub struct Cursor {
    pub pos: int,
    pub line: int,
}

/// The cursor after blanks, line feeds and `//` comments were skipped.
pub open spec fn skip_blank(text: Seq<char>, pos: int, line: int) -> Cursor
    decreases text.len() - pos,
{
    if 0 <= pos < text.len() {
        let c = text[pos];
        if c == ' ' || c == '\r' || c == '\t' {
            skip_blank(text, pos + 1, line)
        } else if c == '\n' {
            skip_blank(text, pos + 1, line + 1)
        } else if c == '/' && pos + 1 < text.len() && text[pos + 1] == '/' {
            proof {
                lemma_run_end(text, pos + 1, CharClass::CommentBody);
            }
            skip_blank(text, run_end(text, pos + 1, CharClass::CommentBody), line)
        } else {
            Cursor { pos, line }
        }
    } else {
        Cursor { pos, line }
    }
}

/// The token that a punctuation character is.
pub open spec fn punctuation(c: char) -> Option<TokenType> {
    if c == '(' {
        Some(TokenType::LeftParen)
    } else if c == ')' {
        Some(TokenType::RightParen)
    } else if c == '{' {
        Some(TokenType::LeftBrace)
    } else if c == '}' {
        Some(TokenType::RightBrace)
    } else if c == ';' {
        Some(TokenType::Semicolon)
    } else if c == ',' {
        Some(TokenType::Comma)
    } else if c == '.' {
        Some(TokenType::Dot)
    } else if c == '-' {
        Some(TokenType::Minus)
    } else if c == '+' {
        Some(TokenType::Plus)
    } else if c == '/' {
        Some(TokenType::Slash)
    } else if c == '*' {
        Some(TokenType::Star)
    } else {
        None
    }
}

/// The token that an operator character is, alone (`.0`) and with `=`
/// behind it (`.1`).
pub open spec fn operator(c: char) -> Option<(TokenType, TokenType)> {
    if c == '!' {
        Some((TokenType::Bang, TokenType::BangEqual))
    } else if c == '=' {
        Some((TokenType::Equal, TokenType::EqualEqual))
    } else if c == '<' {
        Some((TokenType::Less, TokenType::LessEqual))
    } else if c == '>' {
        Some((TokenType::Greater, TokenType::GreaterEqual))
    } else {
        None
    }
}

/// The kind of token that a word is: a reserved word where it is exactly
/// one, else an identifier.
pub open spec fn keyword(word: Seq<char>) -> TokenType {
    if word == "and"@ {
        TokenType::And
    } else if word == "class"@ {
        TokenType::Class
    } else if word == "else"@ {
        TokenType::Else
    } else if word == "false"@ {
        TokenType::False
    } else if word == "for"@ {
        TokenType::For
    } else if word == "fun"@ {
        TokenType::Fun
    } else if word == "if"@ {
        TokenType::If
    } else if word == "nil"@ {
        TokenType::Nil
    } else if word == "or"@ {
        TokenType::Or
    } else if word == "print"@ {
        TokenType::Print
    } else if word == "return"@ {
        TokenType::Return
    } else if word == "super"@ {
        TokenType::Super
    } else if word == "this"@ {
        TokenType::This
    } else if word == "true"@ {
        TokenType::True
    } else if word == "var"@ {
        TokenType::Var
    } else if word == "while"@ {
        TokenType::While
    } else {
        TokenType::Identifier
    }
}

/// What a scan finds: a token, or text that is none.
pub enum Lexed {
    Token(Token),
    Error { line: usize, message: Seq<char> },
}

/// One scan: what it finds, where what it finds starts, and the cursor
/// behind it.
pub struct ScanStep {
    pub lexed: Lexed,
    pub start: int,
    pub next: int,
    pub line: int,
}

/// The token of kind `token_type` from `start` up to `next`, on `line`.
pub open spec fn token_step(token_type: TokenType, start: int, next: int, line: int) -> ScanStep {
    ScanStep {
        lexed: Lexed::Token(
            Token {
                token_type,
                start: start as usize,
                length: (next - start) as usize,
                line: line as usize,
            },
        ),
        start,
        next,
        line,
    }
}

/// Where the number that starts at `start` ends: behind its digits, and
/// behind the fraction where a `.` with a digit behind it follows them.
pub open spec fn number_end(text: Seq<char>, start: int) -> int {
    let whole = run_end(text, start + 1, CharClass::Digit);
    if whole + 1 < text.len() && text[whole] == '.' && is_digit(text[whole + 1]) {
        run_end(text, whole + 1, CharClass::Digit)
    } else {
        whole
    }
}

/// The scan that starts with the cursor at `pos` on `line`.
///
/// Blanks and comments are skipped first. At the end of the text the token
/// is `Eof`, of length zero. A string runs to its closing quote and is on
/// the line of that quote; one that is not closed is an error that takes the
/// rest of the text. A character that starts no token is an error that takes
/// that character.
pub open spec fn scan_step(text: Seq<char>, pos: int, line: int) -> ScanStep {
    let cursor = skip_blank(text, pos, line);
    let start = cursor.pos;
    let line = cursor.line;
    if !(0 <= start < text.len()) {
        token_step(TokenType::Eof, start, start, line)
    } else {
        let c = text[start];
        if punctuation(c) is Some {
            token_step(punctuation(c)->0, start, start + 1, line)
        } else if operator(c) is Some {
            let (alone, with_equal) = operator(c)->Some_0;
            if start + 1 < text.len() && text[start + 1] == '=' {
                token_step(with_equal, start, start + 2, line)
            } else {
                token_step(alone, start, start + 1, line)
            }
        } else if c == '"' {
            let close = run_end(text, start + 1, CharClass::StringBody);
            let line = line + newlines(text, start + 1, close);
            if close < text.len() {
                token_step(TokenType::String, start, close + 1, line)
            } else {
                ScanStep {
                    lexed: Lexed::Error { line: line as usize, message: "Unterminated string"@ },
                    start,
                    next: close,
                    line,
                }
            }
        } else if is_digit(c) {
            token_step(TokenType::Number, start, number_end(text, start), line)
        } else if alphabetic(c) || c == '_' {
            let end = run_end(text, start + 1, CharClass::IdentifierPart);
            token_step(keyword(text.subrange(start, end)), start, end, line)
        } else {
            ScanStep {
                lexed: Lexed::Error {
                    line: line as usize,
                    message: "Unexpected character: "@.push(c),
                },
                start,
                next: start + 1,
                line,
            }
        }
    }
}

/// The texts of the number tokens that scanning from the cursor at `pos` on
/// `line` to the end of the text finds, in their order.
pub open spec fn number_texts(text: Seq<char>, pos: int, line: int) -> Seq<Seq<char>>
    decreases text.len() - pos,
{
    let step = scan_step(text, pos, line);
    match step.lexed {
        Lexed::Token(token) => if token.token_type == TokenType::Eof {
            Seq::empty()
        } else {
            proof {
                lemma_scan_moves(text, pos, line);
            }
            let rest = number_texts(text, step.next, step.line);
            if token.token_type == TokenType::Number {
                seq![token.text_in(text)] + rest
            } else {
                rest
            }
        },
        Lexed::Error { line: _, message: _ } => {
            proof {
                lemma_scan_moves(text, pos, line);
            }
            number_texts(text, step.next, step.line)
        },
    }
}

/// What a call of the scanner returned, as a [`Lexed`].
pub open spec fn lexed_view(result: Result<Token, CompilerError>) -> Lexed {
    match result {
        Ok(token) => Lexed::Token(token),
        Err(error) => Lexed::Error { line: error.line, message: error.message@ },
    }
}

/// A run ends at or behind its start and within the text, on a character
/// that is not of the class, and holds only characters of the class.
pub proof fn lemma_run_end(text: Seq<char>, from: int, class: CharClass)
    requires
        0 <= from <= text.len(),
    ensures
        from <= run_end(text, from, class) <= text.len(),
        run_end(text, from, class) < text.len() ==> !class.holds(
            text[run_end(text, from, class)],
        ),
        forall|i: int| from <= i < run_end(text, from, class) ==> class.holds(#[trigger] text[i]),
    decreases text.len() - from,
{
    if from < text.len() && class.holds(text[from]) {
        lemma_run_end(text, from + 1, class);
    }
}

/// A stretch of text holds at most as many line feeds as characters.
pub proof fn lemma_newlines_bound(text: Seq<char>, from: int, to: int)
    ensures
        0 <= newlines(text, from, to),
        from <= to ==> newlines(text, from, to) <= to - from,
    decreases to - from,
{
    if 0 <= from < to <= text.len() {
        lemma_newlines_bound(text, from, to - 1);
    }
}

/// Skipping moves the cursor forward within the text, by at least one
/// character for each line it counts.
pub proof fn lemma_skip_blank(text: Seq<char>, pos: int, line: int)
    requires
        0 <= pos <= text.len(),
    ensures
        pos <= skip_blank(text, pos, line).pos <= text.len(),
        line <= skip_blank(text, pos, line).line <= line + (skip_blank(text, pos, line).pos - pos),
    decreases text.len() - pos,
{
    if pos < text.len() {
        let c = text[pos];
        if c == ' ' || c == '\r' || c == '\t' {
            lemma_skip_blank(text, pos + 1, line);
        } else if c == '\n' {
            lemma_skip_blank(text, pos + 1, line + 1);
        } else if c == '/' && pos + 1 < text.len() && text[pos + 1] == '/' {
            lemma_run_end(text, pos + 1, CharClass::CommentBody);
            lemma_skip_blank(text, run_end(text, pos + 1, CharClass::CommentBody), line);
        }
    }
}

/// A scan moves the cursor forward within the text. What it finds lies
/// between the old cursor and the new one. Only `Eof` is empty, and it is
/// found exactly at the end of the text; an error takes at least one
/// character. The line grows by at most the number of characters passed.
pub proof fn lemma_scan_step(text: Seq<char>, pos: int, line: int)
    requires
        0 <= pos <= text.len() <= usize::MAX,
    ensures
        ({
            let step = scan_step(text, pos, line);
            &&& pos <= step.start <= step.next <= text.len()
            &&& line <= step.line <= line + (step.next - pos)
            &&& step.lexed is Error ==> step.start < step.next
            &&& step.lexed is Token ==> {
                let token = step.lexed->Token_0;
                &&& token.start == step.start
                &&& token.length == step.next - step.start
                &&& (0 <= step.line <= usize::MAX ==> token.line == step.line)
                &&& (token.token_type == TokenType::Eof <==> step.start == step.next)
                &&& (token.token_type == TokenType::Eof ==> step.next == text.len())
                &&& token.token_type != TokenType::Error
            }
        }),
{
    lemma_skip_blank(text, pos, line);
    let cursor = skip_blank(text, pos, line);
    let start = cursor.pos;
    if start < text.len() {
        let c = text[start];
        lemma_run_end(text, start + 1, CharClass::StringBody);
        lemma_run_end(text, start + 1, CharClass::Digit);
        lemma_run_end(text, start + 1, CharClass::IdentifierPart);
        lemma_newlines_bound(
            text,
            start + 1,
            run_end(text, start + 1, CharClass::StringBody),
        );
        let whole = run_end(text, start + 1, CharClass::Digit);
        if whole + 1 < text.len() {
            lemma_run_end(text, whole + 1, CharClass::Digit);
        }
        if alphabetic(c) || c == '_' {
            let end = run_end(text, start + 1, CharClass::IdentifierPart);
            lemma_keyword_kinds(text.subrange(start, end));
        }
    }
}

/// A scan never moves the cursor back. An error and every token but `Eof`
/// start within the text and take at least one character.
pub proof fn lemma_scan_moves(text: Seq<char>, pos: int, line: int)
    ensures
        ({
            let step = scan_step(text, pos, line);
            &&& pos <= step.next
            &&& 0 <= pos <= text.len() ==> step.next <= text.len()
            &&& step.lexed is Error ==> 0 <= pos < step.next <= text.len()
            &&& step.lexed is Token && step.lexed->Token_0.token_type != TokenType::Eof ==> 0 <= pos
                < step.next <= text.len()
        }),
{
    if 0 <= pos <= text.len() {
        lemma_skip_blank(text, pos, line);
        let start = skip_blank(text, pos, line).pos;
        if start < text.len() {
            lemma_run_end(text, start + 1, CharClass::StringBody);
            lemma_run_end(text, start + 1, CharClass::Digit);
            lemma_run_end(text, start + 1, CharClass::IdentifierPart);
            let whole = run_end(text, start + 1, CharClass::Digit);
            if whole + 1 < text.len() {
                lemma_run_end(text, whole + 1, CharClass::Digit);
            }
        }
    }
}

/// A word is a given one exactly when it starts as that one does and goes
/// on as that one does.
proof fn lemma_word_is(word: Seq<char>, whole: Seq<char>, skip: int)
    requires
        0 <= skip <= whole.len(),
    ensures
        word == whole <==> word.len() >= skip && word.take(skip) == whole.take(skip) && word.skip(
            skip,
        ) == whole.skip(skip),
{
    if word.len() >= skip && word.take(skip) == whole.take(skip) && word.skip(skip) == whole.skip(
        skip,
    ) {
        assert(word =~= word.take(skip) + word.skip(skip));
        assert(whole =~= whole.take(skip) + whole.skip(skip));
    }
}

/// The reserved words, letter by letter.
proof fn lemma_keyword_letters()
    ensures
        "and"@.take(1) == seq!['a'] && "and"@.skip(1) == "nd"@,
        "class"@.take(1) == seq!['c'] && "class"@.skip(1) == "lass"@,
        "else"@.take(1) == seq!['e'] && "else"@.skip(1) == "lse"@,
        "false"@.take(2) == seq!['f', 'a'] && "false"@.skip(2) == "lse"@,
        "for"@.take(2) == seq!['f', 'o'] && "for"@.skip(2) == "r"@,
        "fun"@.take(2) == seq!['f', 'u'] && "fun"@.skip(2) == "n"@,
        "if"@.take(1) == seq!['i'] && "if"@.skip(1) == "f"@,
        "nil"@.take(1) == seq!['n'] && "nil"@.skip(1) == "il"@,
        "or"@.take(1) == seq!['o'] && "or"@.skip(1) == "r"@,
        "print"@.take(1) == seq!['p'] && "print"@.skip(1) == "rint"@,
        "return"@.take(1) == seq!['r'] && "return"@.skip(1) == "eturn"@,
        "super"@.take(1) == seq!['s'] && "super"@.skip(1) == "uper"@,
        "this"@.take(2) == seq!['t', 'h'] && "this"@.skip(2) == "is"@,
        "true"@.take(2) == seq!['t', 'r'] && "true"@.skip(2) == "ue"@,
        "var"@.take(1) == seq!['v'] && "var"@.skip(1) == "ar"@,
        "while"@.take(1) == seq!['w'] && "while"@.skip(1) == "hile"@,
        "and"@.len() == 3 && "class"@.len() == 5 && "else"@.len() == 4 && "false"@.len() == 5,
        "for"@.len() == 3 && "fun"@.len() == 3 && "if"@.len() == 2 && "nil"@.len() == 3,
        "or"@.len() == 2 && "print"@.len() == 5 && "return"@.len() == 6 && "super"@.len() == 5,
        "this"@.len() == 4 && "true"@.len() == 4 && "var"@.len() == 3 && "while"@.len() == 5,
{
    reveal_strlit("and");
    reveal_strlit("nd");
    reveal_strlit("class");
    reveal_strlit("lass");
    reveal_strlit("else");
    reveal_strlit("lse");
    reveal_strlit("false");
    reveal_strlit("for");
    reveal_strlit("r");
    reveal_strlit("fun");
    reveal_strlit("n");
    reveal_strlit("if");
    reveal_strlit("f");
    reveal_strlit("nil");
    reveal_strlit("il");
    reveal_strlit("or");
    reveal_strlit("print");
    reveal_strlit("rint");
    reveal_strlit("return");
    reveal_strlit("eturn");
    reveal_strlit("super");
    reveal_strlit("uper");
    reveal_strlit("this");
    reveal_strlit("is");
    reveal_strlit("true");
    reveal_strlit("ue");
    reveal_strlit("var");
    reveal_strlit("ar");
    reveal_strlit("while");
    reveal_strlit("hile");
    assert("and"@.take(1) =~= seq!['a'] && "and"@.skip(1) =~= "nd"@);
    assert("class"@.take(1) =~= seq!['c'] && "class"@.skip(1) =~= "lass"@);
    assert("else"@.take(1) =~= seq!['e'] && "else"@.skip(1) =~= "lse"@);
    assert("false"@.take(2) =~= seq!['f', 'a'] && "false"@.skip(2) =~= "lse"@);
    assert("for"@.take(2) =~= seq!['f', 'o'] && "for"@.skip(2) =~= "r"@);
    assert("fun"@.take(2) =~= seq!['f', 'u'] && "fun"@.skip(2) =~= "n"@);
    assert("if"@.take(1) =~= seq!['i'] && "if"@.skip(1) =~= "f"@);
    assert("nil"@.take(1) =~= seq!['n'] && "nil"@.skip(1) =~= "il"@);
    assert("or"@.take(1) =~= seq!['o'] && "or"@.skip(1) =~= "r"@);
    assert("print"@.take(1) =~= seq!['p'] && "print"@.skip(1) =~= "rint"@);
    assert("return"@.take(1) =~= seq!['r'] && "return"@.skip(1) =~= "eturn"@);
    assert("super"@.take(1) =~= seq!['s'] && "super"@.skip(1) =~= "uper"@);
    assert("this"@.take(2) =~= seq!['t', 'h'] && "this"@.skip(2) =~= "is"@);
    assert("true"@.take(2) =~= seq!['t', 'r'] && "true"@.skip(2) =~= "ue"@);
    assert("var"@.take(1) =~= seq!['v'] && "var"@.skip(1) =~= "ar"@);
    assert("while"@.take(1) =~= seq!['w'] && "while"@.skip(1) =~= "hile"@);
}

/// A word is a reserved word or an identifier, never `Eof` or `Error`.
pub proof fn lemma_keyword_kinds(word: Seq<char>)
    ensures
        keyword(word) != TokenType::Eof,
        keyword(word) != TokenType::Error,
        keyword(word) != TokenType::Number,
{
}


/// The scanner: the source text and a cursor in it. Each scan moves the
/// cursor forward; tokens are not kept.
pub struct Scanner<'src> {
    source: &'src str,
    /// The characters of the source, with a NUL behind the last one.
    chars: Vec<char>,
    start: usize,
    current: usize,
    line: usize,
}

/// The scanner as mathematics: the text, where the last scan started, and
/// the cursor.
pub struct ScannerView {
    pub text: Seq<char>,
    pub start: int,
    pub current: int,
    pub line: int,
}

impl ScannerView {
    /// The cursor is within the text, and the line is at most one more than
    /// the number of characters passed.
    pub open spec fn wf(self) -> bool {
        &&& 0 <= self.start <= self.current <= self.text.len() < usize::MAX
        &&& 1 <= self.line <= self.current + 1
    }

    /// The scan that the next call makes.
    pub open spec fn scan(self) -> ScanStep {
        scan_step(self.text, self.current, self.line)
    }

    /// The scanner after the scan `step`.
    pub open spec fn after(self, step: ScanStep) -> ScannerView {
        ScannerView { text: self.text, start: step.start, current: step.next, line: step.line }
    }
}

impl<'src> View for Scanner<'src> {
    type V = ScannerView;

    closed spec fn view(&self) -> ScannerView {
        ScannerView {
            text: self.source@,
            start: self.start as int,
            current: self.current as int,
            line: self.line as int,
        }
    }
}

/// The texts of the number tokens of `source`, in their order.
pub fn number_literals(source: &str) -> (literals: Vec<String>)
    ensures
        string_views(literals@) == number_texts(source@, 0, 1),
{
    let mut scanner = Scanner::new(source);
    let mut literals: Vec<String> = Vec::new();
    assert(string_views(literals@) =~= Seq::empty());
    loop
        invariant
            scanner.wf(),
            scanner@.text == source@,
            string_views(literals@) + number_texts(source@, scanner@.current, scanner@.line)
                == number_texts(source@, 0, 1),
        decreases scanner@.text.len() - scanner@.current,
    {
        let ghost before = string_views(literals@);
        let ghost pos = scanner@.current;
        let ghost line = scanner@.line;
        proof {
            lemma_scan_step(source@, pos, line);
            lemma_scan_moves(source@, pos, line);
        }
        match scanner.scan_token() {
            Ok(token) => {
                if token.token_type == TokenType::Eof {
                    assert(number_texts(source@, pos, line) =~= Seq::empty());
                    assert(before + Seq::<Seq<char>>::empty() =~= before);
                    return literals;
                }
                if token.token_type == TokenType::Number {
                    literals.push(String::from_str(token.lexeme(source)));
                    assert(string_views(literals@) =~= before.push(token.text_in(source@)));
                    assert(before.push(token.text_in(source@)) + number_texts(
                        source@,
                        scanner@.current,
                        scanner@.line,
                    ) =~= before + (seq![token.text_in(source@)] + number_texts(
                        source@,
                        scanner@.current,
                        scanner@.line,
                    )));
                }
            },
            Err(_) => {},
        }
    }
}

/// The kind of token that a word is: a reserved word where it is exactly
/// one, else an identifier.
pub fn keyword_of(word: &str) -> (token_type: TokenType)
    ensures
        token_type == keyword(word@),
{
    let mut scanner = Scanner::new(word);
    let length = word.unicode_len();
    if length == 0 {
        proof {
            lemma_keyword_letters();
        }
        return TokenType::Identifier;
    }
    scanner.current = length;
    assert(scanner@.text.subrange(scanner@.start, scanner@.current) =~= word@);
    scanner.identifier_type()
}

/// Tells whether a character is a decimal digit.
fn is_ascii_digit(c: char) -> (r: bool)
    ensures
        r == is_digit(c),
{
    '0' <= c && c <= '9'
}

impl<'src> Scanner<'src> {
    /// The characters are those of the source.
    pub closed spec fn inv(&self) -> bool {
        self.chars@ == self.source@.push('\0')
    }

    /// The invariant of the scanner.
    pub open spec fn wf(&self) -> bool {
        self.inv() && self@.wf()
    }

    /// A scanner at the start of `source`, on line 1.
    pub fn new(source: &'src str) -> (scanner: Scanner<'src>)
        ensures
            scanner.wf(),
            scanner@ == (ScannerView { text: source@, start: 0, current: 0, line: 1 }),
    {
        let length = source.unicode_len();
        let mut chars: Vec<char> = Vec::new();
        let mut rest = source.chars();
        assert(chars@ + rest.remaining() =~= source@);
        while chars.len() < length
            invariant
                length == source@.len(),
                chars@ + rest.remaining() == source@,
                rest.obeys_prophetic_iter_laws(),
            decreases length - chars.len(),
        {
            let ghost before = rest.remaining();
            if let Some(c) = rest.next() {
                chars.push(c);
                assert(chars@ + rest.remaining() =~= source@) by {
                    assert(before =~= seq![c] + before.drop_first());
                }
            }
        }
        assert(chars@ =~= source@);
        chars.push('\0');
        assert(chars@.len() == chars.len());
        Scanner { source, chars, start: 0, current: 0, line: 1 }
    }

    /// Scans the next token. At the end of the text every scan gives `Eof`.
    pub fn scan_token(&mut self) -> (result: Result<Token, CompilerError>)
        requires
            old(self).wf(),
        ensures
            final(self).wf(),
            final(self)@ == old(self)@.after(old(self)@.scan()),
            lexed_view(result) == old(self)@.scan().lexed,
    {
        proof {
            lemma_scan_step(self@.text, self@.current, self@.line);
        }
        self.skip_whitespace();
        self.start = self.current;

        if self.is_at_end() {
            return Ok(self.make_token(TokenType::Eof));
        }
        let c = self.advance();

        if c == '(' {
            Ok(self.make_token(TokenType::LeftParen))
        } else if c == ')' {
            Ok(self.make_token(TokenType::RightParen))
        } else if c == '{' {
            Ok(self.make_token(TokenType::LeftBrace))
        } else if c == '}' {
            Ok(self.make_token(TokenType::RightBrace))
        } else if c == ';' {
            Ok(self.make_token(TokenType::Semicolon))
        } else if c == ',' {
            Ok(self.make_token(TokenType::Comma))
        } else if c == '.' {
            Ok(self.make_token(TokenType::Dot))
        } else if c == '-' {
            Ok(self.make_token(TokenType::Minus))
        } else if c == '+' {
            Ok(self.make_token(TokenType::Plus))
        } else if c == '/' {
            Ok(self.make_token(TokenType::Slash))
        } else if c == '*' {
            Ok(self.make_token(TokenType::Star))
        } else if c == '!' {
            Ok(self.match_or('=', TokenType::BangEqual, TokenType::Bang))
        } else if c == '=' {
            Ok(self.match_or('=', TokenType::EqualEqual, TokenType::Equal))
        } else if c == '<' {
            Ok(self.match_or('=', TokenType::LessEqual, TokenType::Less))
        } else if c == '>' {
            Ok(self.match_or('=', TokenType::GreaterEqual, TokenType::Greater))
        } else if c == '"' {
            self.string()
        } else if is_ascii_digit(c) {
            self.number()
        } else if is_alphabetic(c) || c == '_' {
            self.identifier()
        } else {
            let mut message = String::from_str("Unexpected character: ");
            message.append(self.source.substring_char(self.start, self.start + 1));
            assert(message@ =~= "Unexpected character: "@.push(c));
            Err(CompilerError { line: self.line, message })
        }
    }

    /// The two-character token where `expected` follows, which is then
    /// taken; else the one-character token.
    fn match_or(&mut self, expected: char, matched: TokenType, alone: TokenType) -> (token: Token)
        requires
            old(self).wf(),
        ensures
            final(self).wf(),
            final(self)@ == (ScannerView {
                current: if old(self)@.current < old(self)@.text.len() && old(self)@.text[old(
                    self,
                )@.current] == expected {
                    old(self)@.current + 1
                } else {
                    old(self)@.current
                },
                ..old(self)@
            }),
            token == (Token {
                token_type: if final(self)@.current > old(self)@.current {
                    matched
                } else {
                    alone
                },
                start: final(self)@.start as usize,
                length: (final(self)@.current - final(self)@.start) as usize,
                line: final(self)@.line as usize,
            }),
    {
        let token_type = if self.match_char(expected) {
            matched
        } else {
            alone
        };
        self.make_token(token_type)
    }

    /// Moves the cursor behind blanks, line feeds and comments.
    fn skip_whitespace(&mut self)
        requires
            old(self).wf(),
        ensures
            final(self).wf(),
            final(self)@ == (ScannerView {
                current: skip_blank(old(self)@.text, old(self)@.current, old(self)@.line).pos,
                line: skip_blank(old(self)@.text, old(self)@.current, old(self)@.line).line,
                ..old(self)@
            }),
    {
        loop
            invariant
                self.wf(),
                self@.text == old(self)@.text,
                self@.start == old(self)@.start,
                skip_blank(self@.text, self@.current, self@.line) == skip_blank(
                    old(self)@.text,
                    old(self)@.current,
                    old(self)@.line,
                ),
            decreases self@.text.len() - self@.current,
        {
            if self.is_at_end() {
                return ;
            }
            let c = self.peek();
            if c == ' ' || c == '\r' || c == '\t' {
                self.advance();
            } else if c == '\n' {
                self.advance();
                self.line += 1;
            } else if c == '/' {
                if self.peek_next() == '/' {
                    let ghost comment = self@.current + 1;
                    self.advance();
                    while self.peek() != '\n' && !self.is_at_end()
                        invariant
                            self.wf(),
                            self@.text == old(self)@.text,
                            self@.start == old(self)@.start,
                            comment <= self@.current,
                            run_end(self@.text, self@.current, CharClass::CommentBody) == run_end(
                                self@.text,
                                comment,
                                CharClass::CommentBody,
                            ),
                            skip_blank(
                                self@.text,
                                run_end(self@.text, comment, CharClass::CommentBody),
                                self@.line,
                            ) == skip_blank(
                                old(self)@.text,
                                old(self)@.current,
                                old(self)@.line,
                            ),
                        decreases self@.text.len() - self@.current,
                    {
                        self.advance();
                    }
                } else {
                    return ;
                }
            } else {
                return ;
            }
        }
    }

    /// Tells whether the cursor is at the end of the text.
    fn is_at_end(&self) -> (r: bool)
        requires
            self.wf(),
        ensures
            r == (self@.current >= self@.text.len()),
    {
        self.current >= self.chars.len() - 1
    }

    /// The token of the given kind that lies between the start of this scan
    /// and the cursor.
    fn make_token(&self, token_type: TokenType) -> (token: Token)
        requires
            self.wf(),
        ensures
            token == (Token {
                token_type,
                start: self@.start as usize,
                length: (self@.current - self@.start) as usize,
                line: self@.line as usize,
            }),
    {
        Token::new(token_type, self.start, self.current - self.start, self.line)
    }

    /// Takes the character at the cursor.
    fn advance(&mut self) -> (c: char)
        requires
            old(self).wf(),
            old(self)@.current < old(self)@.text.len(),
        ensures
            final(self).wf(),
            final(self)@ == (ScannerView { current: old(self)@.current + 1, ..old(self)@ }),
            c == old(self)@.text[old(self)@.current],
    {
        self.current += 1;
        self.chars[self.current - 1]
    }

    /// Takes the character at the cursor if it is `expected`.
    fn match_char(&mut self, expected: char) -> (r: bool)
        requires
            old(self).wf(),
        ensures
            final(self).wf(),
            r == (old(self)@.current < old(self)@.text.len() && old(self)@.text[old(
                self,
            )@.current] == expected),
            final(self)@ == (ScannerView {
                current: if r {
                    old(self)@.current + 1
                } else {
                    old(self)@.current
                },
                ..old(self)@
            }),
    {
        if self.is_at_end() {
            return false;
        }
        if self.chars[self.current] != expected {
            return false;
        }
        self.current += 1;
        true
    }

    /// The character at the cursor, NUL at the end of the text.
    fn peek(&self) -> (c: char)
        requires
            self.wf(),
        ensures
            c == if self@.current < self@.text.len() {
                self@.text[self@.current]
            } else {
                '\0'
            },
    {
        self.chars[self.current]
    }

    /// The character behind the one at the cursor, NUL where the text ends
    /// before it.
    fn peek_next(&self) -> (c: char)
        requires
            self.wf(),
        ensures
            c == if self@.current + 1 < self@.text.len() {
                self@.text[self@.current + 1]
            } else {
                '\0'
            },
    {
        if self.current + 1 >= self.chars.len() - 1 {
            return '\0';
        }
        self.chars[self.current + 1]
    }

    /// Scans a string whose opening quote was taken.
    fn string(&mut self) -> (result: Result<Token, CompilerError>)
        requires
            old(self).wf(),
            old(self)@.current == old(self)@.start + 1,
        ensures
            final(self).wf(),
            ({
                let view = old(self)@;
                let close = run_end(view.text, view.current, CharClass::StringBody);
                let line = view.line + newlines(view.text, view.current, close);
                &&& final(self)@ == (ScannerView {
                    current: if close < view.text.len() {
                        close + 1
                    } else {
                        close
                    },
                    line,
                    ..view
                })
                &&& lexed_view(result) == if close < view.text.len() {
                    Lexed::Token(
                        Token {
                            token_type: TokenType::String,
                            start: view.start as usize,
                            length: (close + 1 - view.start) as usize,
                            line: line as usize,
                        },
                    )
                } else {
                    Lexed::Error { line: line as usize, message: "Unterminated string"@ }
                }
            }),
    {
        let ghost body = self@.current;
        proof {
            lemma_run_end(self@.text, body, CharClass::StringBody);
        }
        while self.peek() != '"' && !self.is_at_end()
            invariant
                self.wf(),
                self@.text == old(self)@.text,
                self@.start == old(self)@.start,
                body <= self@.current,
                body == old(self)@.current,
                run_end(self@.text, self@.current, CharClass::StringBody) == run_end(
                    self@.text,
                    body,
                    CharClass::StringBody,
                ),
                self@.line == old(self)@.line + newlines(self@.text, body, self@.current),
                self@.line <= body + 1 + newlines(self@.text, body, self@.current),
            decreases self@.text.len() - self@.current,
        {
            proof {
                lemma_newlines_bound(self@.text, body, self@.current + 1);
            }
            let c = self.advance();
            if c == '\n' {
                self.line += 1;
            }
        }

        if self.is_at_end() {
            return Err(
                CompilerError { line: self.line, message: String::from_str("Unterminated string") },
            );
        }
        self.advance();

        Ok(self.make_token(TokenType::String))
    }

    /// Scans a number whose first digit was taken.
    fn number(&mut self) -> (result: Result<Token, CompilerError>)
        requires
            old(self).wf(),
            old(self)@.current == old(self)@.start + 1,
        ensures
            final(self).wf(),
            final(self)@ == (ScannerView {
                current: number_end(old(self)@.text, old(self)@.start),
                ..old(self)@
            }),
            lexed_view(result) == Lexed::Token(
                Token {
                    token_type: TokenType::Number,
                    start: old(self)@.start as usize,
                    length: (number_end(old(self)@.text, old(self)@.start) - old(
                        self,
                    )@.start) as usize,
                    line: old(self)@.line as usize,
                },
            ),
    {
        self.take_run(CharClass::Digit);

        if self.peek() == '.' && is_ascii_digit(self.peek_next()) {
            self.advance();
            self.take_run(CharClass::Digit);
        }
        Ok(self.make_token(TokenType::Number))
    }

    /// Moves the cursor to the end of the run of characters of `class` that
    /// starts at it.
    fn take_run(&mut self, class: CharClass)
        requires
            old(self).wf(),
            class is Digit || class is IdentifierPart,
        ensures
            final(self).wf(),
            final(self)@ == (ScannerView {
                current: run_end(old(self)@.text, old(self)@.current, class),
                ..old(self)@
            }),
    {
        while !self.is_at_end() && self.in_class(self.peek(), class)
            invariant
                self.wf(),
                class is Digit || class is IdentifierPart,
                self@.text == old(self)@.text,
                self@.start == old(self)@.start,
                self@.line == old(self)@.line,
                old(self)@.current <= self@.current,
                run_end(self@.text, self@.current, class) == run_end(
                    old(self)@.text,
                    old(self)@.current,
                    class,
                ),
            decreases self@.text.len() - self@.current,
        {
            self.advance();
        }
    }

    /// Tells whether a character is a digit, or what an identifier goes on
    /// with.
    fn in_class(&self, c: char, class: CharClass) -> (r: bool)
        requires
            class is Digit || class is IdentifierPart,
        ensures
            r == class.holds(c),
    {
        match class {
            CharClass::Digit => is_ascii_digit(c),
            _ => is_alphabetic(c) || is_ascii_digit(c) || c == '_',
        }
    }

    /// Scans a word whose first character was taken.
    fn identifier(&mut self) -> (result: Result<Token, CompilerError>)
        requires
            old(self).wf(),
            old(self)@.current == old(self)@.start + 1,
        ensures
            final(self).wf(),
            ({
                let view = old(self)@;
                let end = run_end(view.text, view.current, CharClass::IdentifierPart);
                &&& final(self)@ == (ScannerView { current: end, ..view })
                &&& lexed_view(result) == Lexed::Token(
                    Token {
                        token_type: keyword(view.text.subrange(view.start, end)),
                        start: view.start as usize,
                        length: (end - view.start) as usize,
                        line: view.line as usize,
                    },
                )
            }),
    {
        proof {
            lemma_run_end(self@.text, self@.current, CharClass::IdentifierPart);
        }
        self.take_run(CharClass::IdentifierPart);
        Ok(self.make_token(self.identifier_type()))
    }

    /// The kind of the word between the start of this scan and the cursor.
    fn identifier_type(&self) -> (token_type: TokenType)
        requires
            self.wf(),
            self@.start < self@.current,
        ensures
            token_type == keyword(self@.text.subrange(self@.start, self@.current)),
    {
        let ghost word = self@.text.subrange(self@.start, self@.current);
        proof {
            lemma_keyword_letters();
            assert(word[0] == self@.text[self@.start]);
            assert(self@.text.subrange(self@.start + 1, self@.current) =~= word.skip(1));
            assert(word.take(1) =~= seq![word[0]]);
            assert(seq![word[0]][0] == word[0]);
            if word.len() > 1 {
                assert(word[1] == self@.text[self@.start + 1]);
                assert(self@.text.subrange(self@.start + 2, self@.current) =~= word.skip(2));
                assert(word.take(2) =~= seq![word[0], word[1]]);
                assert(seq![word[0], word[1]][0] == word[0]);
                assert(seq![word[0], word[1]][1] == word[1]);
            }
            lemma_word_is(word, "and"@, 1);
            lemma_word_is(word, "class"@, 1);
            lemma_word_is(word, "else"@, 1);
            lemma_word_is(word, "false"@, 2);
            lemma_word_is(word, "for"@, 2);
            lemma_word_is(word, "fun"@, 2);
            lemma_word_is(word, "if"@, 1);
            lemma_word_is(word, "nil"@, 1);
            lemma_word_is(word, "or"@, 1);
            lemma_word_is(word, "print"@, 1);
            lemma_word_is(word, "return"@, 1);
            lemma_word_is(word, "super"@, 1);
            lemma_word_is(word, "this"@, 2);
            lemma_word_is(word, "true"@, 2);
            lemma_word_is(word, "var"@, 1);
            lemma_word_is(word, "while"@, 1);
        }
        let c = self.chars[self.start];
        if c == 'a' {
            self.check_keyword(1, 2, "nd", TokenType::And)
        } else if c == 'c' {
            self.check_keyword(1, 4, "lass", TokenType::Class)
        } else if c == 'e' {
            self.check_keyword(1, 3, "lse", TokenType::Else)
        } else if c == 'f' {
            if self.current - self.start > 1 {
                let d = self.chars[self.start + 1];
                if d == 'a' {
                    self.check_keyword(2, 3, "lse", TokenType::False)
                } else if d == 'o' {
                    self.check_keyword(2, 1, "r", TokenType::For)
                } else if d == 'u' {
                    self.check_keyword(2, 1, "n", TokenType::Fun)
                } else {
                    TokenType::Identifier
                }
            } else {
                TokenType::Identifier
            }
        } else if c == 'i' {
            self.check_keyword(1, 1, "f", TokenType::If)
        } else if c == 'n' {
            self.check_keyword(1, 2, "il", TokenType::Nil)
        } else if c == 'o' {
            self.check_keyword(1, 1, "r", TokenType::Or)
        } else if c == 'p' {
            self.check_keyword(1, 4, "rint", TokenType::Print)
        } else if c == 'r' {
            self.check_keyword(1, 5, "eturn", TokenType::Return)
        } else if c == 's' {
            self.check_keyword(1, 4, "uper", TokenType::Super)
        } else if c == 't' {
            if self.current - self.start > 1 {
                let d = self.chars[self.start + 1];
                if d == 'h' {
                    self.check_keyword(2, 2, "is", TokenType::This)
                } else if d == 'r' {
                    self.check_keyword(2, 2, "ue", TokenType::True)
                } else {
                    TokenType::Identifier
                }
            } else {
                TokenType::Identifier
            }
        } else if c == 'v' {
            self.check_keyword(1, 2, "ar", TokenType::Var)
        } else if c == 'w' {
            self.check_keyword(1, 4, "hile", TokenType::While)
        } else {
            TokenType::Identifier
        }
    }

    /// `token_type` where the word of this scan, from its character at
    /// `start` on, is exactly `rest`; else `Identifier`.
    fn check_keyword(&self, start: usize, length: usize, rest: &str, token_type: TokenType) -> (r:
        TokenType)
        requires
            self.wf(),
            start + length <= 8,
            self@.start + start <= self@.current,
        ensures
            r == if rest@.len() == length && self@.current - self@.start == start + length
                && self@.text.subrange(self@.start + start, self@.current) == rest@ {
                token_type
            } else {
                TokenType::Identifier
            },
    {
        if self.current - self.start != start + length || rest.unicode_len() != length {
            return TokenType::Identifier;
        }
        let from = self.start + start;
        let ghost tail = self@.text.subrange(from as int, self@.current);
        let mut i: usize = 0;
        while i < length
            invariant
                self.wf(),
                i <= length == rest@.len(),
                from + length == self@.current,
                tail == self@.text.subrange(from as int, self@.current),
                tail.take(i as int) == rest@.take(i as int),
            decreases length - i,
        {
            if self.chars[from + i] != rest.get_char(i) {
                assert(tail[i as int] != rest@[i as int]);
                return TokenType::Identifier;
            }
            i += 1;
            assert(tail.take(i as int) =~= rest@.take(i as int)) by {
                assert(tail.take(i as int) =~= tail.take(i - 1).push(tail[i - 1]));
                assert(rest@.take(i as int) =~= rest@.take(i - 1).push(rest@[i - 1]));
            }
        }
        assert(tail.take(length as int) =~= tail);
        assert(rest@.take(length as int) =~= rest@);
        token_type
    }
}

} // verus!
