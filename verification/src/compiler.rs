//! The single-pass compiler: it parses an expression by operator
//! precedence and writes bytecode as it goes; no syntax tree is built.
//!
//! The compiler does not convert number literals itself. It is given the
//! values of the number tokens of the source, in the order of the tokens,
//! as bit patterns (see [`crate::number`]);
//! [`crate::scanner::number_literals`] lists the texts to convert.
use crate::chunk::{constant_instruction, Chunk, ChunkView};
use crate::opcode::Opcode;
use crate::scanner::{
    lemma_scan_moves, lemma_scan_step, number_texts, CompilerError, Lexed, Scanner, ScannerView,
    Token, TokenType,
};
use crate::text::{decimal, push_decimal, string_views};
use crate::value::{Value, ValueView};
use crate::vm::InterpretError;
use vstd::prelude::*;
use vstd::string::*;

verus! {

/// The precedence levels, from the loosest to the tightest.
#[derive(Debug, Clone, Copy, PartialEq, Eq, Structural)]
pub enum Precedence {
    /// The level of what is no operator, below every operator.
    Lowest,
    Assignment,  // =
    Or,  // or
    And,  // and
    Equality,  // == !=
    Comparison,  // < > <= >=
    Term,  // + -
    Factor,  // * /
    Unary,  // ! -
    Call,  // . ()
    Primary,
}

impl Precedence {
    /// The place of the level in the order, from 0 for `Lowest`.
    pub open spec fn level(self) -> int {
        match self {
            Precedence::Lowest => 0,
            Precedence::Assignment => 1,
            Precedence::Or => 2,
            Precedence::And => 3,
            Precedence::Equality => 4,
            Precedence::Comparison => 5,
            Precedence::Term => 6,
            Precedence::Factor => 7,
            Precedence::Unary => 8,
            Precedence::Call => 9,
            Precedence::Primary => 10,
        }
    }

    /// The next tighter level; behind the tightest comes `Lowest`, which is
    /// its own successor.
    pub open spec fn successor(self) -> Precedence {
        match self {
            Precedence::Lowest => Precedence::Lowest,
            Precedence::Assignment => Precedence::Or,
            Precedence::Or => Precedence::And,
            Precedence::And => Precedence::Equality,
            Precedence::Equality => Precedence::Comparison,
            Precedence::Comparison => Precedence::Term,
            Precedence::Term => Precedence::Factor,
            Precedence::Factor => Precedence::Unary,
            Precedence::Unary => Precedence::Call,
            Precedence::Call => Precedence::Primary,
            Precedence::Primary => Precedence::Lowest,
        }
    }

    /// The place of the level in the order.
    pub fn rank(&self) -> (rank: u8)
        ensures
            rank == self.level(),
    {
        match self {
            Precedence::Lowest => 0,
            Precedence::Assignment => 1,
            Precedence::Or => 2,
            Precedence::And => 3,
            Precedence::Equality => 4,
            Precedence::Comparison => 5,
            Precedence::Term => 6,
            Precedence::Factor => 7,
            Precedence::Unary => 8,
            Precedence::Call => 9,
            Precedence::Primary => 10,
        }
    }

    /// The next tighter level.
    pub fn next(&self) -> (next: Precedence)
        ensures
            next == self.successor(),
            1 <= self.level() <= 9 ==> next.level() == self.level() + 1,
    {
        match self {
            Precedence::Lowest => Precedence::Lowest,
            Precedence::Assignment => Precedence::Or,
            Precedence::Or => Precedence::And,
            Precedence::And => Precedence::Equality,
            Precedence::Equality => Precedence::Comparison,
            Precedence::Comparison => Precedence::Term,
            Precedence::Term => Precedence::Factor,
            Precedence::Factor => Precedence::Unary,
            Precedence::Unary => Precedence::Call,
            Precedence::Call => Precedence::Primary,
            Precedence::Primary => Precedence::Lowest,
        }
    }
}

/// What the parser does at a token.
#[derive(Debug, Clone, Copy, PartialEq, Eq, Structural)]
pub enum Handler {
    /// A parenthesised expression.
    Grouping,
    /// A prefix operator and its operand.
    Unary,
    /// An infix operator and its right operand.
    Binary,
    /// A number literal.
    Number,
}

/// The row of a token kind in the table of the parser: what to do where a
/// token of the kind starts an expression, what to do where it follows one,
/// and how tightly it then binds.
#[derive(Debug, Clone, Copy)]
pub struct ParseRule {
    pub prefix: Option<Handler>,
    pub infix: Option<Handler>,
    pub precedence: Precedence,
}

/// The table of the parser. `(` starts a grouping and a number a literal;
/// `-` is a prefix operator and, like `+`, an infix operator of level
/// `Term`; `*` and `/` are infix operators of level `Factor`. No other kind
/// of token starts or continues an expression.
pub open spec fn rule(token_type: TokenType) -> ParseRule {
    match token_type {
        TokenType::LeftParen => ParseRule {
            prefix: Some(Handler::Grouping),
            infix: None,
            precedence: Precedence::Lowest,
        },
        TokenType::Minus => ParseRule {
            prefix: Some(Handler::Unary),
            infix: Some(Handler::Binary),
            precedence: Precedence::Term,
        },
        TokenType::Plus => ParseRule {
            prefix: None,
            infix: Some(Handler::Binary),
            precedence: Precedence::Term,
        },
        TokenType::Slash | TokenType::Star => ParseRule {
            prefix: None,
            infix: Some(Handler::Binary),
            precedence: Precedence::Factor,
        },
        TokenType::Number => ParseRule {
            prefix: Some(Handler::Number),
            infix: None,
            precedence: Precedence::Lowest,
        },
        _ => ParseRule { prefix: None, infix: None, precedence: Precedence::Lowest },
    }
}

/// The instruction of an infix operator.
pub open spec fn binary_opcode(token_type: TokenType) -> Option<Opcode> {
    match token_type {
        TokenType::Plus => Some(Opcode::Add),
        TokenType::Minus => Some(Opcode::Subtract),
        TokenType::Star => Some(Opcode::Multiply),
        TokenType::Slash => Some(Opcode::Divide),
        _ => None,
    }
}

/// The text that reports an error: the line of the error, the text of the
/// token at which it is reported or `end` for the end of the input, and
/// the message.
pub open spec fn error_report(text: Seq<char>, token: Token, line: usize, message: Seq<char>) -> Seq<
    char,
> {
    if token.token_type == TokenType::Eof {
        "[line "@ + decimal(line as nat) + "] Error at end: "@ + message
    } else {
        "[line "@ + decimal(line as nat) + "] Error at '"@ + token.text_in(text) + "': "@ + message
    }
}

/// The parser as mathematics: the token just taken and the one to come, the
/// two error flags, the reports made so far, and the number of number tokens
/// taken so far.
pub struct ParserView {
    pub text: Seq<char>,
    pub current: Token,
    pub previous: Token,
    pub had_error: bool,
    pub panic_mode: bool,
    pub diagnostics: Seq<Seq<char>>,
    pub literals: nat,
}

impl ParserView {
    /// Whether the parser has reported its first error and no other: both
    /// flags are up and there is one report, or both are down and there is
    /// none.
    pub open spec fn reports_once(self) -> bool {
        &&& self.panic_mode == self.had_error
        &&& self.diagnostics.len() == if self.had_error {
            1nat
        } else {
            0nat
        }
    }

    /// The parser after an error on `line`, at `token`. The first error is
    /// reported and raises both flags; while `panic_mode` is up, no error
    /// is reported.
    pub open spec fn report(self, token: Token, line: usize, message: Seq<char>) -> ParserView {
        ParserView {
            had_error: true,
            panic_mode: true,
            diagnostics: if self.panic_mode {
                self.diagnostics
            } else {
                self.diagnostics.push(error_report(self.text, token, line, message))
            },
            ..self
        }
    }
}

/// The parser together with the scanner that feeds it.
pub struct Front {
    pub parser: ParserView,
    pub scanner: ScannerView,
}

impl Front {
    /// The invariant of parser and scanner: both work on the same text, the
    /// two tokens lie in it one behind the other and before the cursor of
    /// the scanner, and only `Eof` is empty.
    pub open spec fn wf(self) -> bool {
        &&& self.scanner.wf()
        &&& self.parser.text == self.scanner.text
        &&& self.parser.literals <= self.parser.previous.start + self.parser.previous.length
        &&& self.parser.previous.start + self.parser.previous.length <= self.parser.current.start
        &&& self.parser.current.start + self.parser.current.length <= self.scanner.current
        &&& self.parser.current.token_type != TokenType::Eof ==> self.parser.current.length > 0
    }

    /// The number of characters and tokens still to come. It bounds the
    /// work that is left.
    pub open spec fn measure(self) -> nat {
        let rest = self.scanner.text.len() - self.scanner.current;
        (if rest > 0 {
            rest as nat
        } else {
            0
        }) + if self.parser.current.token_type == TokenType::Eof {
            0nat
        } else {
            1nat
        }
    }

    /// The front after an error at the token to come, on the line of that
    /// token.
    pub open spec fn report_at_current(self, message: Seq<char>) -> Front {
        Front {
            parser: self.parser.report(self.parser.current, self.parser.current.line, message),
            ..self
        }
    }

    /// The front after the next token was scanned into `current`. Text that
    /// is no token is reported, on the line where the scanner met it and at
    /// the token that `current` held, and passed over.
    #[verifier::opaque]
    pub open spec fn next_token(self) -> Front
        decreases self.scanner.text.len() - self.scanner.current,
    {
        let step = self.scanner.scan();
        let scanner = self.scanner.after(step);
        match step.lexed {
            Lexed::Token(token) => Front {
                parser: ParserView { current: token, ..self.parser },
                scanner,
            },
            Lexed::Error { line, message } => {
                proof {
                    lemma_scan_moves(self.scanner.text, self.scanner.current, self.scanner.line);
                }
                (Front {
                    parser: self.parser.report(self.parser.current, line, message),
                    scanner,
                }).next_token()
            },
        }
    }

    /// The front after one token was taken: `current` becomes `previous`,
    /// and the next token is scanned.
    pub open spec fn advance(self) -> Front {
        (Front {
            parser: ParserView {
                previous: self.parser.current,
                literals: if self.parser.current.token_type == TokenType::Number {
                    self.parser.literals + 1
                } else {
                    self.parser.literals
                },
                ..self.parser
            },
            ..self
        }).next_token()
    }

    /// The front after a token of the given kind was demanded: it is taken
    /// where it is there, and its absence is an error.
    pub open spec fn consume(self, token_type: TokenType, message: Seq<char>) -> Front {
        if self.parser.current.token_type == token_type {
            self.advance()
        } else {
            self.report_at_current(message)
        }
    }
}

/// The compiler as mathematics.
pub struct CompilerView {
    pub front: Front,
    pub chunk: ChunkView,
    pub numbers: Seq<u64>,
}

/// A compiler and the index of a constant.
pub struct Made {
    pub compiler: CompilerView,
    pub index: u32,
}

impl CompilerView {
    /// The invariant of the compiler.
    pub open spec fn wf(self) -> bool {
        &&& self.front.wf()
        &&& self.chunk.wf()
        &&& self.chunk.constants.len() <= u32::MAX
    }

    /// The compiler at the start of `text`.
    pub open spec fn start(text: Seq<char>, numbers: Seq<u64>) -> CompilerView {
        CompilerView {
            front: Front {
                parser: ParserView {
                    text,
                    current: Token { token_type: TokenType::Eof, start: 0, length: 0, line: 0 },
                    previous: Token { token_type: TokenType::Eof, start: 0, length: 0, line: 0 },
                    had_error: false,
                    panic_mode: false,
                    diagnostics: Seq::empty(),
                    literals: 0,
                },
                scanner: ScannerView { text, start: 0, current: 0, line: 1 },
            },
            chunk: ChunkView {
                code: Seq::empty(),
                constants: Seq::empty(),
                lines: Seq::empty(),
                name: "main"@,
            },
            numbers,
        }
    }

    pub open spec fn advance(self) -> CompilerView {
        CompilerView { front: self.front.advance(), ..self }
    }

    pub open spec fn consume(self, token_type: TokenType, message: Seq<char>) -> CompilerView {
        CompilerView { front: self.front.consume(token_type, message), ..self }
    }

    pub open spec fn report_at_current(self, message: Seq<char>) -> CompilerView {
        CompilerView { front: self.front.report_at_current(message), ..self }
    }

    /// The compiler after `bytes` were written for the line of the token
    /// just taken.
    pub open spec fn emit(self, bytes: Seq<u8>) -> CompilerView {
        CompilerView { chunk: self.chunk.write(bytes, self.front.parser.previous.line), ..self }
    }

    /// The compiler after `value` joined the pool, with the index of the
    /// value. A pool that is full takes no value: that is an error at the
    /// token to come, and the index is 0.
    pub open spec fn make_constant(self, value: ValueView) -> Made {
        if self.chunk.constants.len() < u32::MAX {
            Made {
                compiler: CompilerView { chunk: self.chunk.add_constant(value), ..self },
                index: self.chunk.constants.len() as u32,
            }
        } else {
            Made { compiler: self.report_at_current("Too many constants in one chunk."@), index: 0 }
        }
    }

    /// The compiler after the number literal just taken was compiled: its
    /// value joins the pool, and the instruction that loads it is written.
    /// The value of the `n`-th number token of the source is `numbers[n]`;
    /// a literal whose value is missing is an error at the literal.
    pub open spec fn number(self) -> CompilerView {
        let ordinal = self.front.parser.literals - 1;
        if 0 <= ordinal < self.numbers.len() {
            let made = self.make_constant(ValueView::Number(self.numbers[ordinal]));
            made.compiler.emit(constant_instruction(made.index))
        } else {
            CompilerView {
                front: Front {
                    parser: self.front.parser.report(
                        self.front.parser.previous,
                        self.front.parser.previous.line,
                        "Number literal without a value."@,
                    ),
                    ..self.front
                },
                ..self
            }
        }
    }

    /// The compiler after the expression of level `precedence` or tighter
    /// that starts at the token to come was compiled: the token is taken
    /// and must start an expression; then, as long as the token to come is
    /// an infix operator of at least that level, the operator is taken and
    /// compiled with its right operand.
    ///
    /// The comparisons of measures in this definition and in
    /// [`CompilerView::infix_loop`] make the recursion well founded. They
    /// hold of every compiler, see [`lemma_parse_measure`].
    pub open spec fn parse_precedence(self, precedence: Precedence) -> CompilerView
        decreases self.front.measure(), 2int,
    {
        let advanced = self.advance();
        let parsed = match rule(advanced.front.parser.previous.token_type).prefix {
            Some(handler) => {
                proof {
                    lemma_advance(self.front);
                }
                advanced.handle(handler)
            },
            None => advanced.report_at_current("Expect expression."@),
        };
        if parsed.front.measure() <= self.front.measure() {
            parsed.infix_loop(precedence)
        } else {
            parsed
        }
    }

    /// The compiler after the infix operators of level `precedence` or
    /// tighter that follow were compiled, each with its right operand. At
    /// level `Lowest` no operator is looked for.
    pub open spec fn infix_loop(self, precedence: Precedence) -> CompilerView
        decreases self.front.measure(), 1int,
    {
        if 0 < precedence.level() <= rule(self.front.parser.current.token_type).precedence.level() {
            let advanced = self.advance();
            proof {
                lemma_advance(self.front);
            }
            let applied = match rule(advanced.front.parser.previous.token_type).infix {
                Some(handler) => advanced.handle(handler),
                None => advanced,
            };
            if applied.front.measure() < self.front.measure() {
                applied.infix_loop(precedence)
            } else {
                applied
            }
        } else {
            self
        }
    }

    /// The compiler after the expression that starts at the token to come
    /// was compiled.
    pub open spec fn expression(self) -> CompilerView
        decreases self.front.measure(), 3int,
    {
        self.parse_precedence(Precedence::Assignment)
    }

    /// The compiler after the construct that the token just taken starts or
    /// continues was compiled.
    pub open spec fn handle(self, handler: Handler) -> CompilerView
        decreases self.front.measure(), 4int,
    {
        match handler {
            Handler::Grouping => self.expression().consume(
                TokenType::RightParen,
                "Expect ')' after expression."@,
            ),
            Handler::Unary => {
                let operator = self.front.parser.previous.token_type;
                let operand = self.parse_precedence(Precedence::Unary);
                if operator == TokenType::Minus {
                    operand.emit(seq![Opcode::Negate.byte()])
                } else {
                    operand
                }
            },
            Handler::Binary => {
                let operator = self.front.parser.previous.token_type;
                let operand = self.parse_precedence(rule(operator).precedence.successor());
                match binary_opcode(operator) {
                    Some(opcode) => operand.emit(seq![opcode.byte()]),
                    None => operand,
                }
            },
            Handler::Number => self.number(),
        }
    }

    /// The compiler after a whole source was compiled: an expression, the
    /// end of the input behind it, and a closing `Return`.
    pub open spec fn compile(self) -> CompilerView {
        self.advance().expression().consume(TokenType::Eof, "Expect end of expression."@).emit(
            seq![Opcode::Return.byte()],
        )
    }
}

/// Scanning the next token keeps the token just taken and the count of
/// literals, and never raises the measure above what the characters to come
/// allow.
pub proof fn lemma_next_token(front: Front)
    ensures
        front.next_token().parser.previous == front.parser.previous,
        front.next_token().parser.literals == front.parser.literals,
        front.next_token().parser.text == front.parser.text,
        front.next_token().scanner.text == front.scanner.text,
        front.next_token().scanner.current >= front.scanner.current,
        front.next_token().measure() <= (Front {
            parser: ParserView {
                current: Token { token_type: TokenType::Number, start: 0, length: 0, line: 0 },
                ..front.parser
            },
            ..front
        }).measure(),
        front.next_token().parser.current.token_type != TokenType::Eof
            ==> front.next_token().measure() <= front.scanner.text.len() - front.scanner.current,
    decreases front.scanner.text.len() - front.scanner.current,
{
    reveal(Front::next_token);
    lemma_scan_moves(front.scanner.text, front.scanner.current, front.scanner.line);
    let step = front.scanner.scan();
    match step.lexed {
        Lexed::Token(token) => {},
        Lexed::Error { line, message } => {
            lemma_next_token(
                Front {
                    parser: front.parser.report(front.parser.current, line, message),
                    scanner: front.scanner.after(step),
                },
            );
        },
    }
}

/// The number tokens that the scanner is still to find are the one that is
/// scanned next, where it is a number, and those behind it; behind the end
/// of the input there are none.
pub proof fn lemma_next_token_texts(front: Front)
    ensures
        ({
            let next = front.next_token();
            let token = next.parser.current;
            number_texts(front.scanner.text, front.scanner.current, front.scanner.line) == if token.token_type
                == TokenType::Eof {
                Seq::<Seq<char>>::empty()
            } else if token.token_type == TokenType::Number {
                seq![token.text_in(front.scanner.text)] + number_texts(
                    front.scanner.text,
                    next.scanner.current,
                    next.scanner.line,
                )
            } else {
                number_texts(front.scanner.text, next.scanner.current, next.scanner.line)
            }
        }),
    decreases front.scanner.text.len() - front.scanner.current,
{
    reveal(Front::next_token);
    lemma_scan_moves(front.scanner.text, front.scanner.current, front.scanner.line);
    let step = front.scanner.scan();
    match step.lexed {
        Lexed::Token(token) => {},
        Lexed::Error { line, message } => {
            lemma_next_token_texts(
                Front {
                    parser: front.parser.report(front.parser.current, line, message),
                    scanner: front.scanner.after(step),
                },
            );
        },
    }
}

/// Taking a token makes the token to come the token just taken, and never
/// raises the measure; it lowers the measure unless the token taken is
/// `Eof`.
pub proof fn lemma_advance(front: Front)
    ensures
        front.advance().parser.previous == front.parser.current,
        front.advance().parser.text == front.parser.text,
        front.advance().scanner.text == front.scanner.text,
        front.advance().measure() <= front.measure(),
        front.parser.current.token_type != TokenType::Eof ==> front.advance().measure()
            < front.measure(),
{
    lemma_next_token(
        Front {
            parser: ParserView {
                previous: front.parser.current,
                literals: if front.parser.current.token_type == TokenType::Number {
                    front.parser.literals + 1
                } else {
                    front.parser.literals
                },
                ..front.parser
            },
            ..front
        },
    );
}


/// Parsing never raises the measure: the comparisons of measures in
/// [`CompilerView::parse_precedence`] and [`CompilerView::infix_loop`] hold
/// of every compiler.
pub proof fn lemma_parse_measure(compiler: CompilerView, precedence: Precedence)
    ensures
        compiler.parse_precedence(precedence).front.measure() <= compiler.front.measure(),
        compiler.parse_precedence(precedence).numbers == compiler.numbers,
        ({
            let advanced = compiler.advance();
            let parsed = match rule(advanced.front.parser.previous.token_type).prefix {
                Some(handler) => advanced.handle(handler),
                None => advanced.report_at_current("Expect expression."@),
            };
            compiler.parse_precedence(precedence) == parsed.infix_loop(precedence)
        }),
    decreases compiler.front.measure(), 2int,
{
    lemma_advance(compiler.front);
    let advanced = compiler.advance();
    match rule(advanced.front.parser.previous.token_type).prefix {
        Some(handler) => {
            lemma_handle_measure(advanced, handler);
            lemma_infix_loop_measure(advanced.handle(handler), precedence);
        },
        None => {
            lemma_infix_loop_measure(advanced.report_at_current("Expect expression."@), precedence);
        },
    }
}

/// The loop over the infix operators never raises the measure.
pub proof fn lemma_infix_loop_measure(compiler: CompilerView, precedence: Precedence)
    ensures
        compiler.infix_loop(precedence).front.measure() <= compiler.front.measure(),
        compiler.infix_loop(precedence).numbers == compiler.numbers,
        0 < precedence.level() <= rule(compiler.front.parser.current.token_type).precedence.level()
            ==> {
            let advanced = compiler.advance();
            let applied = match rule(advanced.front.parser.previous.token_type).infix {
                Some(handler) => advanced.handle(handler),
                None => advanced,
            };
            compiler.infix_loop(precedence) == applied.infix_loop(precedence)
        },
    decreases compiler.front.measure(), 1int,
{
    if 0 < precedence.level() <= rule(compiler.front.parser.current.token_type).precedence.level() {
        lemma_advance(compiler.front);
        let advanced = compiler.advance();
        let applied = match rule(advanced.front.parser.previous.token_type).infix {
            Some(handler) => {
                lemma_handle_measure(advanced, handler);
                advanced.handle(handler)
            },
            None => advanced,
        };
        lemma_infix_loop_measure(applied, precedence);
    }
}

/// No construct raises the measure.
pub proof fn lemma_handle_measure(compiler: CompilerView, handler: Handler)
    ensures
        compiler.handle(handler).front.measure() <= compiler.front.measure(),
        compiler.handle(handler).numbers == compiler.numbers,
    decreases compiler.front.measure(), 4int,
{
    match handler {
        Handler::Grouping => {
            lemma_parse_measure(compiler, Precedence::Assignment);
            lemma_advance(compiler.expression().front);
        },
        Handler::Unary => {
            lemma_parse_measure(compiler, Precedence::Unary);
        },
        Handler::Binary => {
            let operator = compiler.front.parser.previous.token_type;
            lemma_parse_measure(compiler, rule(operator).precedence.successor());
        },
        Handler::Number => {},
    }
}

/// Scanning the next token keeps to one report, and keeps the error flag
/// up once it is up.
pub proof fn lemma_next_token_errors(front: Front)
    ensures
        front.parser.reports_once() ==> front.next_token().parser.reports_once(),
        front.parser.had_error ==> front.next_token().parser.had_error,
    decreases front.scanner.text.len() - front.scanner.current,
{
    reveal(Front::next_token);
    lemma_scan_moves(front.scanner.text, front.scanner.current, front.scanner.line);
    let step = front.scanner.scan();
    match step.lexed {
        Lexed::Token(token) => {},
        Lexed::Error { line, message } => {
            lemma_next_token_errors(
                Front {
                    parser: front.parser.report(front.parser.current, line, message),
                    scanner: front.scanner.after(step),
                },
            );
        },
    }
}

/// Taking a token keeps to one report, and keeps the error flag up once it
/// is up.
pub proof fn lemma_advance_errors(front: Front)
    ensures
        front.parser.reports_once() ==> front.advance().parser.reports_once(),
        front.parser.had_error ==> front.advance().parser.had_error,
{
    lemma_next_token_errors(
        Front {
            parser: ParserView {
                previous: front.parser.current,
                literals: if front.parser.current.token_type == TokenType::Number {
                    front.parser.literals + 1
                } else {
                    front.parser.literals
                },
                ..front.parser
            },
            ..front
        },
    );
}

/// Parsing keeps to one report, and keeps the error flag up once it is up.
pub proof fn lemma_parse_errors(compiler: CompilerView, precedence: Precedence)
    ensures
        compiler.front.parser.reports_once() ==> compiler.parse_precedence(
            precedence,
        ).front.parser.reports_once(),
        compiler.front.parser.had_error ==> compiler.parse_precedence(
            precedence,
        ).front.parser.had_error,
    decreases compiler.front.measure(), 2int,
{
    lemma_advance(compiler.front);
    lemma_parse_measure(compiler, precedence);
    lemma_advance_errors(compiler.front);
    let advanced = compiler.advance();
    match rule(advanced.front.parser.previous.token_type).prefix {
        Some(handler) => {
            lemma_handle_measure(advanced, handler);
            lemma_handle_errors(advanced, handler);
            lemma_infix_loop_errors(advanced.handle(handler), precedence);
        },
        None => {
            lemma_infix_loop_errors(advanced.report_at_current("Expect expression."@), precedence);
        },
    }
}

/// The loop over the infix operators keeps to one report, and keeps the
/// error flag up once it is up.
pub proof fn lemma_infix_loop_errors(compiler: CompilerView, precedence: Precedence)
    ensures
        compiler.front.parser.reports_once() ==> compiler.infix_loop(
            precedence,
        ).front.parser.reports_once(),
        compiler.front.parser.had_error ==> compiler.infix_loop(precedence).front.parser.had_error,
    decreases compiler.front.measure(), 1int,
{
    if 0 < precedence.level() <= rule(compiler.front.parser.current.token_type).precedence.level() {
        lemma_advance(compiler.front);
        lemma_infix_loop_measure(compiler, precedence);
        lemma_advance_errors(compiler.front);
        let advanced = compiler.advance();
        let applied = match rule(advanced.front.parser.previous.token_type).infix {
            Some(handler) => {
                lemma_handle_measure(advanced, handler);
                lemma_handle_errors(advanced, handler);
                advanced.handle(handler)
            },
            None => advanced,
        };
        lemma_infix_loop_errors(applied, precedence);
    }
}

/// Every construct keeps to one report, and keeps the error flag up once
/// it is up.
pub proof fn lemma_handle_errors(compiler: CompilerView, handler: Handler)
    ensures
        compiler.front.parser.reports_once() ==> compiler.handle(
            handler,
        ).front.parser.reports_once(),
        compiler.front.parser.had_error ==> compiler.handle(handler).front.parser.had_error,
    decreases compiler.front.measure(), 4int,
{
    match handler {
        Handler::Grouping => {
            lemma_parse_errors(compiler, Precedence::Assignment);
            lemma_advance_errors(compiler.expression().front);
        },
        Handler::Unary => {
            lemma_parse_errors(compiler, Precedence::Unary);
        },
        Handler::Binary => {
            let operator = compiler.front.parser.previous.token_type;
            lemma_parse_errors(compiler, rule(operator).precedence.successor());
        },
        Handler::Number => {},
    }
}

/// A compilation reports the first error it meets and no other: a text
/// that fails to compile has exactly one report, and a text that compiles
/// has none.
pub proof fn lemma_compile_reports_once(text: Seq<char>, numbers: Seq<u64>)
    ensures
        CompilerView::start(text, numbers).compile().front.parser.reports_once(),
{
    let start = CompilerView::start(text, numbers);
    lemma_advance_errors(start.front);
    lemma_parse_errors(start.advance(), Precedence::Assignment);
    lemma_advance_errors(start.advance().expression().front);
}

/// The parser: the window of two tokens, the error flags and the reports.
pub struct Parser<'src> {
    source: &'src str,
    current: Token,
    previous: Token,
    had_error: bool,
    panic_mode: bool,
    diagnostics: Vec<String>,
    literals: usize,
}

impl<'src> View for Parser<'src> {
    type V = ParserView;

    closed spec fn view(&self) -> ParserView {
        ParserView {
            text: self.source@,
            current: self.current,
            previous: self.previous,
            had_error: self.had_error,
            panic_mode: self.panic_mode,
            diagnostics: string_views(self.diagnostics@),
            literals: self.literals as nat,
        }
    }
}

impl<'src> Parser<'src> {
    /// A parser that has seen no token of `source` yet: both tokens of its
    /// window are an `Eof` on line 0.
    pub fn new(source: &'src str) -> (parser: Parser<'src>)
        ensures
            parser@ == CompilerView::start(source@, Seq::empty()).front.parser,
    {
        let parser = Parser {
            source,
            current: Token::new(TokenType::Eof, 0, 0, 0),
            previous: Token::new(TokenType::Eof, 0, 0, 0),
            had_error: false,
            panic_mode: false,
            diagnostics: Vec::new(),
            literals: 0,
        };
        assert(parser@.diagnostics =~= Seq::empty());
        parser
    }

    /// Takes a token: the token to come becomes the token just taken, and
    /// the next one is scanned. Text that is no token is reported and
    /// passed over.
    pub fn advance(&mut self, scanner: &mut Scanner<'src>)
        requires
            old(scanner).wf(),
            (Front { parser: old(self)@, scanner: old(scanner)@ }).wf(),
        ensures
            final(scanner).wf(),
            (Front { parser: final(self)@, scanner: final(scanner)@ }).wf(),
            (Front { parser: final(self)@, scanner: final(scanner)@ }) == (Front {
                parser: old(self)@,
                scanner: old(scanner)@,
            }).advance(),
    {
        self.previous = self.current;
        if self.previous.token_type == TokenType::Number {
            self.literals += 1;
        }
        loop
            invariant
                scanner.wf(),
                self@.text == scanner@.text,
                self@.literals <= self@.previous.start + self@.previous.length,
                self@.previous.start + self@.previous.length <= scanner@.current,
                self@.current.start + self@.current.length <= scanner@.current,
                (Front { parser: self@, scanner: scanner@ }).next_token() == (Front {
                    parser: old(self)@,
                    scanner: old(scanner)@,
                }).advance(),
            decreases scanner@.text.len() - scanner@.current,
        {
            proof {
                reveal(Front::next_token);
                lemma_scan_step(scanner@.text, scanner@.current, scanner@.line);
            }
            match scanner.scan_token() {
                Ok(token) => {
                    self.current = token;
                    return ;
                },
                Err(error) => {
                    self.error_at_current(&error);
                },
            }
        }
    }

    /// Demands a token of the given kind: takes it where it is there, and
    /// reports `message` at the token to come where it is not.
    pub fn consume(&mut self, scanner: &mut Scanner<'src>, token_type: TokenType, message: &str)
        requires
            old(scanner).wf(),
            (Front { parser: old(self)@, scanner: old(scanner)@ }).wf(),
        ensures
            final(scanner).wf(),
            (Front { parser: final(self)@, scanner: final(scanner)@ }).wf(),
            (Front { parser: final(self)@, scanner: final(scanner)@ }) == (Front {
                parser: old(self)@,
                scanner: old(scanner)@,
            }).consume(token_type, message@),
    {
        if self.current.token_type == token_type {
            self.advance(scanner);
            return ;
        }
        let error = CompilerError { message: String::from_str(message), line: self.current.line };
        self.error_at_current(&error);
    }

    /// Records an error at the token to come, on the line that the error
    /// carries.
    pub fn error_at_current(&mut self, message: &CompilerError)
        requires
            old(self)@.current.start + old(self)@.current.length <= old(self)@.text.len(),
        ensures
            final(self)@ == old(self)@.report(
                old(self)@.current,
                message.line,
                message.message@,
            ),
    {
        let token = self.current;
        self.error_at(&token, message);
    }

    /// Records an error at `token`. The first error is reported, with the
    /// line that the error carries and the text of the token; later ones
    /// only count.
    pub fn error_at(&mut self, token: &Token, message: &CompilerError)
        requires
            token.start + token.length <= old(self)@.text.len(),
        ensures
            final(self)@ == old(self)@.report(*token, message.line, message.message@),
    {
        if !self.panic_mode {
            let mut report = String::from_str("[line ");
            push_decimal(&mut report, message.line);
            if token.token_type == TokenType::Eof {
                report.append("] Error at end: ");
            } else {
                report.append("] Error at '");
                report.append(token.lexeme(self.source));
                report.append("': ");
            }
            report.append(message.message.as_str());
            self.diagnostics.push(report);
            self.panic_mode = true;
            assert(self@.diagnostics =~= old(self)@.diagnostics.push(
                error_report(old(self)@.text, *token, message.line, message.message@),
            ));
        }
        self.had_error = true;
    }
}

/// The row of a token kind in the table of the parser.
pub fn get_rule(token_type: TokenType) -> (r: ParseRule)
    ensures
        r == rule(token_type),
{
    match token_type {
        TokenType::LeftParen => ParseRule { prefix: Some(Handler::Grouping), infix: None, precedence: Precedence::Lowest },
        TokenType::RightParen => ParseRule { prefix: None, infix: None, precedence: Precedence::Lowest },
        TokenType::LeftBrace => ParseRule { prefix: None, infix: None, precedence: Precedence::Lowest },
        TokenType::RightBrace => ParseRule { prefix: None, infix: None, precedence: Precedence::Lowest },
        TokenType::Comma => ParseRule { prefix: None, infix: None, precedence: Precedence::Lowest },
        TokenType::Dot => ParseRule { prefix: None, infix: None, precedence: Precedence::Lowest },
        TokenType::Minus => ParseRule { prefix: Some(Handler::Unary), infix: Some(Handler::Binary), precedence: Precedence::Term },
        TokenType::Plus => ParseRule { prefix: None, infix: Some(Handler::Binary), precedence: Precedence::Term },
        TokenType::Semicolon => ParseRule { prefix: None, infix: None, precedence: Precedence::Lowest },
        TokenType::Slash => ParseRule { prefix: None, infix: Some(Handler::Binary), precedence: Precedence::Factor },
        TokenType::Star => ParseRule { prefix: None, infix: Some(Handler::Binary), precedence: Precedence::Factor },
        TokenType::Bang => ParseRule { prefix: None, infix: None, precedence: Precedence::Lowest },
        TokenType::BangEqual => ParseRule { prefix: None, infix: None, precedence: Precedence::Lowest },
        TokenType::Equal => ParseRule { prefix: None, infix: None, precedence: Precedence::Lowest },
        TokenType::EqualEqual => ParseRule { prefix: None, infix: None, precedence: Precedence::Lowest },
        TokenType::Greater => ParseRule { prefix: None, infix: None, precedence: Precedence::Lowest },
        TokenType::GreaterEqual => ParseRule { prefix: None, infix: None, precedence: Precedence::Lowest },
        TokenType::Less => ParseRule { prefix: None, infix: None, precedence: Precedence::Lowest },
        TokenType::LessEqual => ParseRule { prefix: None, infix: None, precedence: Precedence::Lowest },
        TokenType::Identifier => ParseRule { prefix: None, infix: None, precedence: Precedence::Lowest },
        TokenType::String => ParseRule { prefix: None, infix: None, precedence: Precedence::Lowest },
        TokenType::Number => ParseRule { prefix: Some(Handler::Number), infix: None, precedence: Precedence::Lowest },
        TokenType::And => ParseRule { prefix: None, infix: None, precedence: Precedence::Lowest },
        TokenType::Class => ParseRule { prefix: None, infix: None, precedence: Precedence::Lowest },
        TokenType::Else => ParseRule { prefix: None, infix: None, precedence: Precedence::Lowest },
        TokenType::False => ParseRule { prefix: None, infix: None, precedence: Precedence::Lowest },
        TokenType::For => ParseRule { prefix: None, infix: None, precedence: Precedence::Lowest },
        TokenType::Fun => ParseRule { prefix: None, infix: None, precedence: Precedence::Lowest },
        TokenType::If => ParseRule { prefix: None, infix: None, precedence: Precedence::Lowest },
        TokenType::Nil => ParseRule { prefix: None, infix: None, precedence: Precedence::Lowest },
        TokenType::Or => ParseRule { prefix: None, infix: None, precedence: Precedence::Lowest },
        TokenType::Print => ParseRule { prefix: None, infix: None, precedence: Precedence::Lowest },
        TokenType::Return => ParseRule { prefix: None, infix: None, precedence: Precedence::Lowest },
        TokenType::Super => ParseRule { prefix: None, infix: None, precedence: Precedence::Lowest },
        TokenType::This => ParseRule { prefix: None, infix: None, precedence: Precedence::Lowest },
        TokenType::True => ParseRule { prefix: None, infix: None, precedence: Precedence::Lowest },
        TokenType::Var => ParseRule { prefix: None, infix: None, precedence: Precedence::Lowest },
        TokenType::While => ParseRule { prefix: None, infix: None, precedence: Precedence::Lowest },
        TokenType::Error => ParseRule { prefix: None, infix: None, precedence: Precedence::Lowest },
        TokenType::Eof => ParseRule { prefix: None, infix: None, precedence: Precedence::Lowest },
    }
}

/// The compiler of one source text.
pub struct Compiler<'src> {
    chunk: Chunk,
    parser: Parser<'src>,
    scanner: Scanner<'src>,
    numbers: Vec<u64>,
}

impl<'src> View for Compiler<'src> {
    type V = CompilerView;

    closed spec fn view(&self) -> CompilerView {
        CompilerView {
            front: Front { parser: self.parser@, scanner: self.scanner@ },
            chunk: self.chunk@,
            numbers: self.numbers@,
        }
    }
}

impl<'src> Compiler<'src> {
    /// The invariant of the compiler, see [`CompilerView::wf`].
    pub closed spec fn wf(&self) -> bool {
        self.scanner.wf() && self@.wf()
    }

    /// A compiler at the start of `source`. `numbers` holds the values of
    /// the number tokens of `source`, in their order.
    pub fn new(source: &'src str, numbers: Vec<u64>) -> (compiler: Compiler<'src>)
        ensures
            compiler.wf(),
            compiler@ == CompilerView::start(source@, numbers@),
    {
        Compiler {
            chunk: Chunk::new(String::from_str("main")),
            parser: Parser::new(source),
            scanner: Scanner::new(source),
            numbers,
        }
    }

    /// The reports of the errors met, in the order in which they were met.
    pub fn diagnostics(&self) -> (diagnostics: &Vec<String>)
        ensures
            string_views(diagnostics@) == self@.front.parser.diagnostics,
    {
        &self.parser.diagnostics
    }

    /// Hands out the reports of the errors met, and forgets them.
    pub fn take_diagnostics(&mut self) -> (diagnostics: Vec<String>)
        requires
            old(self).wf(),
        ensures
            final(self).wf(),
            string_views(diagnostics@) == old(self)@.front.parser.diagnostics,
            final(self)@ == (CompilerView {
                front: Front {
                    parser: ParserView {
                        diagnostics: Seq::empty(),
                        ..old(self)@.front.parser
                    },
                    ..old(self)@.front
                },
                ..old(self)@
            }),
    {
        let mut diagnostics: Vec<String> = Vec::new();
        core::mem::swap(&mut self.parser.diagnostics, &mut diagnostics);
        assert(self@.front.parser.diagnostics =~= Seq::empty());
        diagnostics
    }

    /// Compiles the source: an expression, up to the end of the input. On
    /// success the chunk is handed out, closed by a `Return`, and the
    /// compiler is left with an empty chunk. Where an error was met, the
    /// chunk stays with the compiler and the answer is `CompileError`.
    pub fn compile(&mut self) -> (result: Result<Chunk, InterpretError>)
        requires
            old(self).wf(),
        ensures
            final(self).wf(),
            ({
                let done = old(self)@.compile();
                match result {
                    Ok(chunk) => {
                        &&& !done.front.parser.had_error
                        &&& chunk@ == done.chunk
                        &&& chunk.wf()
                        &&& final(self)@ == (CompilerView {
                            chunk: CompilerView::start(Seq::empty(), Seq::empty()).chunk,
                            ..done
                        })
                    },
                    Err(error) => {
                        &&& done.front.parser.had_error
                        &&& error == InterpretError::CompileError
                        &&& final(self)@ == done
                    },
                }
            }),
    {
        self.parser.advance(&mut self.scanner);

        expression(self);

        self.parser.consume(&mut self.scanner, TokenType::Eof, "Expect end of expression.");

        self.end_compiler();

        if self.parser.had_error {
            Err(InterpretError::CompileError)
        } else {
            let mut chunk = Chunk::new(String::from_str("main"));
            core::mem::swap(&mut self.chunk, &mut chunk);
            Ok(chunk)
        }
    }

    /// Closes the chunk.
    fn end_compiler(&mut self)
        requires
            old(self).wf(),
        ensures
            final(self).wf(),
            final(self)@ == old(self)@.emit(seq![Opcode::Return.byte()]),
    {
        self.emit_return();
    }

    /// Writes bytes for the line of the token just taken.
    fn emit_bytes(&mut self, bytes: Vec<u8>)
        requires
            old(self).wf(),
        ensures
            final(self).wf(),
            final(self)@ == old(self)@.emit(bytes@),
    {
        let previous_line = self.parser.previous.line;
        self.chunk.write(bytes, previous_line);
    }

    fn emit_return(&mut self)
        requires
            old(self).wf(),
        ensures
            final(self).wf(),
            final(self)@ == old(self)@.emit(seq![Opcode::Return.byte()]),
    {
        self.emit_bytes(Opcode::Return.to_bytes());
    }

    /// Writes the instruction that loads the constant at `constant`.
    fn emit_constant(&mut self, constant: u32)
        requires
            old(self).wf(),
        ensures
            final(self).wf(),
            final(self)@ == old(self)@.emit(constant_instruction(constant)),
    {
        let line = self.parser.previous.line;
        self.chunk.write_constant(constant, line)
    }

    /// Puts a value into the pool and returns its index; a full pool is an
    /// error, and the index is then 0.
    fn make_constant(&mut self, value: Value) -> (constant: u32)
        requires
            old(self).wf(),
        ensures
            final(self).wf(),
            final(self)@ == old(self)@.make_constant(value@).compiler,
            constant == old(self)@.make_constant(value@).index,
    {
        if self.chunk.constants.len() >= u32::MAX as usize {
            let error = CompilerError {
                message: String::from_str("Too many constants in one chunk."),
                line: self.parser.current.line,
            };
            self.parser.error_at_current(&error);
            return 0;
        }
        self.chunk.add_constant(value)
    }
}

/// Compiles the expression of level `precedence` or tighter that starts at
/// the token to come.
fn parse_precedence<'src>(compiler: &mut Compiler<'src>, precedence: Precedence)
    requires
        old(compiler).wf(),
    ensures
        final(compiler).wf(),
        final(compiler)@ == old(compiler)@.parse_precedence(precedence),
        final(compiler)@.front.measure() <= old(compiler)@.front.measure(),
    decreases old(compiler)@.front.measure(), 0int,
{
    proof {
        lemma_advance(compiler@.front);
    }
    compiler.parser.advance(&mut compiler.scanner);
    let prefix_rule = get_rule(compiler.parser.previous.token_type).prefix;

    match prefix_rule {
        Some(prefix) => handle(compiler, prefix),
        None => {
            let error = CompilerError {
                message: String::from_str("Expect expression."),
                line: compiler.parser.current.line,
            };
            compiler.parser.error_at_current(&error);
        },
    }

    while 0 < precedence.rank() && precedence.rank() <= get_rule(
        compiler.parser.current.token_type,
    ).precedence.rank()
        invariant
            compiler.wf(),
            compiler@.front.measure() <= old(compiler)@.front.measure(),
            compiler@.infix_loop(precedence) == old(compiler)@.parse_precedence(precedence),
        decreases compiler@.front.measure(),
    {
        proof {
            lemma_advance(compiler@.front);
        }
        compiler.parser.advance(&mut compiler.scanner);
        let infix_rule = get_rule(compiler.parser.previous.token_type).infix;

        if let Some(infix) = infix_rule {
            handle(compiler, infix);
        }
    }
}

/// Compiles the construct that the token just taken starts or continues.
fn handle<'src>(compiler: &mut Compiler<'src>, handler: Handler)
    requires
        old(compiler).wf(),
    ensures
        final(compiler).wf(),
        final(compiler)@ == old(compiler)@.handle(handler),
        final(compiler)@.front.measure() <= old(compiler)@.front.measure(),
    decreases old(compiler)@.front.measure(), 3int,
{
    match handler {
        Handler::Grouping => grouping(compiler),
        Handler::Unary => unary(compiler),
        Handler::Binary => binary(compiler),
        Handler::Number => number(compiler),
    }
}

/// Compiles an expression.
fn expression<'src>(compiler: &mut Compiler<'src>)
    requires
        old(compiler).wf(),
    ensures
        final(compiler).wf(),
        final(compiler)@ == old(compiler)@.expression(),
        final(compiler)@.front.measure() <= old(compiler)@.front.measure(),
    decreases old(compiler)@.front.measure(), 1int,
{
    parse_precedence(compiler, Precedence::Assignment);
}

/// Compiles the rest of a parenthesised expression whose `(` was taken.
fn grouping<'src>(compiler: &mut Compiler<'src>)
    requires
        old(compiler).wf(),
    ensures
        final(compiler).wf(),
        final(compiler)@ == old(compiler)@.handle(Handler::Grouping),
        final(compiler)@.front.measure() <= old(compiler)@.front.measure(),
    decreases old(compiler)@.front.measure(), 2int,
{
    expression(compiler);
    proof {
        lemma_advance(compiler@.front);
    }
    compiler.parser.consume(
        &mut compiler.scanner,
        TokenType::RightParen,
        "Expect ')' after expression.",
    );
}

/// Compiles the operand of a prefix operator that was taken, and then the
/// operator.
fn unary<'src>(compiler: &mut Compiler<'src>)
    requires
        old(compiler).wf(),
    ensures
        final(compiler).wf(),
        final(compiler)@ == old(compiler)@.handle(Handler::Unary),
        final(compiler)@.front.measure() <= old(compiler)@.front.measure(),
    decreases old(compiler)@.front.measure(), 2int,
{
    let operator_type = compiler.parser.previous.token_type;

    // Compile the operand.
    parse_precedence(compiler, Precedence::Unary);

    // Emit the operator instruction.
    match operator_type {
        TokenType::Minus => compiler.emit_bytes(Opcode::Negate.to_bytes()),
        _ => {},
    }
}

/// Compiles the right operand of an infix operator that was taken, and
/// then the operator.
fn binary<'src>(compiler: &mut Compiler<'src>)
    requires
        old(compiler).wf(),
    ensures
        final(compiler).wf(),
        final(compiler)@ == old(compiler)@.handle(Handler::Binary),
        final(compiler)@.front.measure() <= old(compiler)@.front.measure(),
    decreases old(compiler)@.front.measure(), 2int,
{
    let operator_type = compiler.parser.previous.token_type;

    // Compile the right operand.
    let rule = get_rule(operator_type);
    parse_precedence(compiler, rule.precedence.next());

    // Emit the operator instruction.
    match operator_type {
        TokenType::Plus => compiler.emit_bytes(Opcode::Add.to_bytes()),
        TokenType::Minus => compiler.emit_bytes(Opcode::Subtract.to_bytes()),
        TokenType::Star => compiler.emit_bytes(Opcode::Multiply.to_bytes()),
        TokenType::Slash => compiler.emit_bytes(Opcode::Divide.to_bytes()),
        _ => {},
    }
}

/// Compiles the number literal that was taken.
fn number<'src>(compiler: &mut Compiler<'src>)
    requires
        old(compiler).wf(),
    ensures
        final(compiler).wf(),
        final(compiler)@ == old(compiler)@.handle(Handler::Number),
        final(compiler)@.front.measure() <= old(compiler)@.front.measure(),
{
    let taken = compiler.parser.literals;
    if 0 < taken && taken - 1 < compiler.numbers.len() {
        let value = compiler.numbers[taken - 1];
        let constant = compiler.make_constant(Value::Number(value));
        compiler.emit_constant(constant);
    } else {
        let error = CompilerError {
            message: String::from_str("Number literal without a value."),
            line: compiler.parser.previous.line,
        };
        let token = compiler.parser.previous;
        compiler.parser.error_at(&token, &error);
    }
}

} // verus!
