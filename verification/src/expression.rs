//! What a source text means, and that the compiler and the machine agree
//! with it.
//!
//! An expression is read as a tree under the usual conventions: `*` and `/`
//! bind tighter than `+` and `-`, a prefix `-` binds tighter than both,
//! operators of one level group to the left, and parentheses override all
//! of this. The compiler, given the tokens of such a tree, writes the
//! postfix code of the tree, and compiles nothing else without an error;
//! the machine, given that code, computes the value of the tree.
use crate::chunk::{constant_instruction, ChunkView};
use crate::compiler::{
    binary_opcode, lemma_advance, lemma_advance_errors, lemma_handle_measure,
    lemma_infix_loop_errors, lemma_infix_loop_measure, lemma_next_token, lemma_next_token_texts,
    lemma_parse_measure, rule, CompilerView, Front, Handler, ParserView, Precedence,
};
use crate::number::negated;
use crate::opcode::Opcode;
use crate::scanner::{number_texts, TokenType};
use crate::value::ValueView;
use crate::vm::{
    lemma_host_answers, lemma_host_continues, lemma_load_reads_back, run_with_host,
    InterpretError, SignalView, State, Step, VmView, STACK_MAX,
};
use vstd::prelude::*;

verus! {

/// An arithmetic expression. A literal stands for the number token at its
/// place; its value is looked up by its place among the literals.
pub enum Expr {
    Literal,
    Group(Box<Expr>),
    Negate(Box<Expr>),
    Binary(Opcode, Box<Expr>, Box<Expr>),
}

/// The token of an arithmetic instruction.
pub open spec fn operator_token(opcode: Opcode) -> TokenType {
    match opcode {
        Opcode::Add => TokenType::Plus,
        Opcode::Subtract => TokenType::Minus,
        Opcode::Multiply => TokenType::Star,
        _ => TokenType::Slash,
    }
}

/// The instruction of an operator token.
pub open spec fn operator_opcode(token_type: TokenType) -> Opcode {
    match binary_opcode(token_type) {
        Some(opcode) => opcode,
        None => Opcode::Add,
    }
}

/// Whether an instruction is one of the four of arithmetic.
pub open spec fn is_arithmetic(opcode: Opcode) -> bool {
    opcode == Opcode::Add || opcode == Opcode::Subtract || opcode == Opcode::Multiply || opcode
        == Opcode::Divide
}

impl Expr {
    /// The kinds of the tokens of the expression, in the order of the text.
    pub open spec fn tokens(self) -> Seq<TokenType>
        decreases self,
    {
        match self {
            Expr::Literal => seq![TokenType::Number],
            Expr::Group(inner) => seq![TokenType::LeftParen] + inner.tokens() + seq![
                TokenType::RightParen,
            ],
            Expr::Negate(operand) => seq![TokenType::Minus] + operand.tokens(),
            Expr::Binary(opcode, left, right) => left.tokens() + seq![operator_token(opcode)]
                + right.tokens(),
        }
    }

    /// The number of literals.
    pub open spec fn leaves(self) -> nat
        decreases self,
    {
        match self {
            Expr::Literal => 1,
            Expr::Group(inner) => inner.leaves(),
            Expr::Negate(operand) => operand.leaves(),
            Expr::Binary(opcode, left, right) => left.leaves() + right.leaves(),
        }
    }

    /// How tightly the expression holds together: the level of its
    /// operator, and the level `Unary` where it is a literal, a group or a
    /// negation.
    pub open spec fn level(self) -> int {
        match self {
            Expr::Binary(opcode, left, right) => rule(operator_token(opcode)).precedence.level(),
            _ => Precedence::Unary.level(),
        }
    }

    /// Whether the tree is the reading of its tokens: the left operand of an
    /// operator binds at least as tightly as the operator, the right
    /// operand tighter, and the operand of a negation is no bare operation.
    pub open spec fn respects_precedence(self) -> bool
        decreases self,
    {
        match self {
            Expr::Literal => true,
            Expr::Group(inner) => inner.respects_precedence(),
            Expr::Negate(operand) => operand.respects_precedence() && operand.level()
                >= Precedence::Unary.level(),
            Expr::Binary(opcode, left, right) => {
                &&& is_arithmetic(opcode)
                &&& left.respects_precedence()
                &&& right.respects_precedence()
                &&& left.level() >= self.level()
                &&& right.level() > self.level()
            },
        }
    }

    /// The postfix code of the expression: the operands first, then the
    /// instruction. The literals load the constants from `first` on.
    pub open spec fn code(self, first: nat) -> Seq<u8>
        decreases self,
    {
        match self {
            Expr::Literal => constant_instruction(first as u32),
            Expr::Group(inner) => inner.code(first),
            Expr::Negate(operand) => operand.code(first) + seq![Opcode::Negate.byte()],
            Expr::Binary(opcode, left, right) => left.code(first) + right.code(
                first + left.leaves(),
            ) + seq![opcode.byte()],
        }
    }

    /// The constants of the expression: the values of its literals, which
    /// are those of `numbers` from `first` on.
    pub open spec fn constants(self, numbers: Seq<u64>, first: nat) -> Seq<ValueView> {
        Seq::new(self.leaves(), |k: int| ValueView::Number(numbers[first + k]))
    }

    /// The value of the expression, where the literals have the values of
    /// `numbers` from `first` on and `host` does the arithmetic.
    pub open spec fn value(
        self,
        numbers: Seq<u64>,
        first: nat,
        host: spec_fn(Opcode, u64, u64) -> u64,
    ) -> u64
        decreases self,
    {
        match self {
            Expr::Literal => numbers[first as int],
            Expr::Group(inner) => inner.value(numbers, first, host),
            Expr::Negate(operand) => negated(operand.value(numbers, first, host)),
            Expr::Binary(opcode, left, right) => host(
                opcode,
                left.value(numbers, first, host),
                right.value(numbers, first + left.leaves(), host),
            ),
        }
    }

    /// The number of stack slots that evaluation takes.
    pub open spec fn depth(self) -> nat
        decreases self,
    {
        match self {
            Expr::Literal => 1,
            Expr::Group(inner) => inner.depth(),
            Expr::Negate(operand) => operand.depth(),
            Expr::Binary(opcode, left, right) => if left.depth() > right.depth() {
                left.depth()
            } else {
                right.depth() + 1
            },
        }
    }
}

/// The parser and its scanner after `n` tokens were taken.
pub open spec fn ahead(front: Front, n: nat) -> Front
    decreases n,
{
    if n == 0 {
        front
    } else {
        ahead(front.advance(), (n - 1) as nat)
    }
}

/// Whether the tokens to come are of the given kinds, in that order.
pub open spec fn reads(front: Front, kinds: Seq<TokenType>) -> bool {
    forall|i: nat| i < kinds.len() ==> (#[trigger] ahead(front, i)).parser.current.token_type == kinds[i as int]
}

/// Whether the tokens of a text are those of an expression: the parser
/// finds the tokens of the tree, which respects precedence, and then the
/// end of the input; and no text that is no token is met.
pub open spec fn tokens_read_as(text: Seq<char>, expr: Expr) -> bool {
    let front = CompilerView::start(text, Seq::empty()).front.advance();
    &&& expr.respects_precedence()
    &&& reads(front, expr.tokens().push(TokenType::Eof))
    &&& !ahead(front, expr.tokens().len() + 1).parser.had_error
}

/// Whether a text reads as an expression: its tokens are those of the
/// tree, and there is a number for each literal.
pub open spec fn reads_as(text: Seq<char>, numbers: Seq<u64>, expr: Expr) -> bool {
    &&& tokens_read_as(text, expr)
    &&& expr.leaves() <= numbers.len()
    &&& expr.leaves() <= u32::MAX
}

/// Whether the tokens to come at a compiler are those of an expression that
/// the compiler has room for.
pub open spec fn reads_tree(compiler: CompilerView, expr: Expr) -> bool {
    &&& expr.respects_precedence()
    &&& reads(compiler.front, expr.tokens())
    &&& compiler.front.parser.literals + expr.leaves() <= compiler.numbers.len()
    &&& compiler.chunk.constants.len() + expr.leaves() <= u32::MAX
}

/// The compiler after it was led through an expression by the tree: what
/// compilation is meant to do.
pub open spec fn compiled(compiler: CompilerView, expr: Expr) -> CompilerView
    decreases expr,
{
    match expr {
        Expr::Literal => compiler.advance().number(),
        Expr::Group(inner) => compiled(compiler.advance(), *inner).advance(),
        Expr::Negate(operand) => compiled(compiler.advance(), *operand).emit(
            seq![Opcode::Negate.byte()],
        ),
        Expr::Binary(opcode, left, right) => compiled(
            compiled(compiler, *left).advance(),
            *right,
        ).emit(seq![opcode.byte()]),
    }
}

/// Taking tokens one after the other adds up.
pub proof fn lemma_ahead_add(front: Front, a: nat, b: nat)
    ensures
        ahead(ahead(front, a), b) == ahead(front, a + b),
    decreases a,
{
    if a > 0 {
        lemma_ahead_add(front.advance(), (a - 1) as nat, b);
    }
}

/// Taking one more token behind `n` tokens is taking `n + 1` tokens.
pub proof fn lemma_ahead_step(front: Front, n: nat)
    ensures
        ahead(front, n).advance() == ahead(front, n + 1),
{
    lemma_ahead_add(front, n, 1);
    assert(ahead(ahead(front, n).advance(), 0) == ahead(front, n).advance());
}

/// Taking a token counts it where it is a number, and changes the count of
/// literals in no other way.
pub proof fn lemma_next_literals(front: Front)
    ensures
        front.advance().parser.literals == if front.parser.current.token_type
            == TokenType::Number {
            front.parser.literals + 1
        } else {
            front.parser.literals
        },
{
    lemma_next_token(
        Front {
            parser: ParserView {
                previous: front.parser.current,
                literals: if front.parser.current.token_type == TokenType::Number {
                    front.parser.literals + 1
                } else {
                    front.parser.literals
                },
                ..front.parser
            },
            ..front
        },
    );
}

/// The tokens behind the first `skip` of a sequence that is read are read
/// from the front that has taken those.
pub proof fn lemma_reads_part(front: Front, kinds: Seq<TokenType>, skip: nat, part: Seq<TokenType>)
    requires
        reads(front, kinds),
        skip + part.len() <= kinds.len(),
        part == kinds.subrange(skip as int, (skip + part.len()) as int),
    ensures
        reads(ahead(front, skip), part),
{
    assert forall|i: nat| i < part.len() implies (#[trigger] ahead(
        ahead(front, skip),
        i,
    )).parser.current.token_type == part[i as int] by {
        lemma_ahead_add(front, skip, i);
        assert(ahead(front, skip + i).parser.current.token_type == kinds[(skip + i) as int]);
    }
}

/// Tokens that are read one sequence behind the other are read as one
/// sequence.
pub proof fn lemma_reads_join(front: Front, a: Seq<TokenType>, b: Seq<TokenType>)
    requires
        reads(front, a),
        reads(ahead(front, a.len()), b),
    ensures
        reads(front, a + b),
{
    assert forall|i: nat| i < (a + b).len() implies (#[trigger] ahead(
        front,
        i,
    )).parser.current.token_type == (a + b)[i as int] by {
        if i >= a.len() {
            let j = (i - a.len()) as nat;
            lemma_ahead_add(front, a.len(), j);
            assert(ahead(ahead(front, a.len()), j).parser.current.token_type == b[j as int]);
        }
    }
}

/// An expression has as many literals as number tokens, and at least one
/// token.
pub proof fn lemma_tokens(expr: Expr)
    ensures
        expr.tokens().len() > 0,
        expr.leaves() > 0,
        expr.leaves() <= expr.tokens().len(),
    decreases expr,
{
    match expr {
        Expr::Literal => {},
        Expr::Group(inner) => lemma_tokens(*inner),
        Expr::Negate(operand) => lemma_tokens(*operand),
        Expr::Binary(opcode, left, right) => {
            lemma_tokens(*left);
            lemma_tokens(*right);
        },
    }
}

/// No token binds tighter than a factor.
pub proof fn lemma_rule_levels(token_type: TokenType)
    ensures
        rule(token_type).precedence.level() <= Precedence::Factor.level(),
        rule(token_type).precedence.level() > 0 ==> {
            &&& rule(token_type).infix == Some(Handler::Binary)
            &&& binary_opcode(token_type) is Some
            &&& is_arithmetic(operator_opcode(token_type))
            &&& operator_token(operator_opcode(token_type)) == token_type
            &&& rule(token_type).precedence.successor().level() == rule(
                token_type,
            ).precedence.level() + 1
        },
        rule(token_type).prefix is Some ==> token_type == TokenType::LeftParen || token_type
            == TokenType::Minus || token_type == TokenType::Number,
{
}

/// The loop over the infix operators does nothing where the token to come
/// binds less tightly than asked for.
pub proof fn lemma_loop_stops(compiler: CompilerView, precedence: Precedence)
    requires
        rule(compiler.front.parser.current.token_type).precedence.level() < precedence.level(),
    ensures
        compiler.infix_loop(precedence) == compiler,
{
}

/// Where the tokens to come are those of an expression, and pool and
/// numbers have room for its literals, leading the compiler through the
/// expression takes exactly these tokens, appends the postfix code of the
/// expression to the code, and the values of its literals to the pool.
#[verifier::rlimit(60)]
pub proof fn lemma_compiled(compiler: CompilerView, expr: Expr)
    requires
        reads(compiler.front, expr.tokens()),
        compiler.front.parser.literals + expr.leaves() <= compiler.numbers.len(),
        compiler.chunk.constants.len() + expr.leaves() <= u32::MAX,
    ensures
        compiled(compiler, expr).front == ahead(compiler.front, expr.tokens().len()),
        compiled(compiler, expr).front.parser.literals == compiler.front.parser.literals
            + expr.leaves(),
        compiled(compiler, expr).numbers == compiler.numbers,
        compiled(compiler, expr).chunk.name == compiler.chunk.name,
        compiled(compiler, expr).chunk.code == compiler.chunk.code + expr.code(
            compiler.chunk.constants.len(),
        ),
        compiled(compiler, expr).chunk.constants == compiler.chunk.constants + expr.constants(
            compiler.numbers,
            compiler.front.parser.literals,
        ),
    decreases expr,
{
    let kinds = expr.tokens();
    let front = compiler.front;
    let advanced = compiler.advance();
    assert(ahead(front, 0) == front);
    assert(ahead(front, 1) == advanced.front) by {
        assert(ahead(front.advance(), 0) == front.advance());
    }
    lemma_advance(front);
    lemma_next_literals(front);
    match expr {
        Expr::Literal => {
            assert(front.parser.current.token_type == kinds[0]);
            let done = compiled(compiler, expr);
            assert(done.chunk.code =~= compiler.chunk.code + expr.code(
                compiler.chunk.constants.len(),
            ));
            assert(done.chunk.constants =~= compiler.chunk.constants + expr.constants(
                compiler.numbers,
                compiler.front.parser.literals,
            ));
        },
        Expr::Group(inner) => {
            lemma_tokens(*inner);
            let n = inner.tokens().len();
            assert(front.parser.current.token_type == kinds[0]);
            assert(inner.tokens() =~= kinds.subrange(1, (1 + n) as int));
            lemma_reads_part(front, kinds, 1, inner.tokens());
            lemma_compiled(advanced, *inner);
            let inside = compiled(advanced, *inner);
            lemma_ahead_add(front, 1, n);
            assert(inside.front.parser.current.token_type == kinds[(1 + n) as int]);
            lemma_advance(inside.front);
            lemma_next_literals(inside.front);
            lemma_ahead_step(front, n + 1);
        },
        Expr::Negate(operand) => {
            lemma_tokens(*operand);
            let n = operand.tokens().len();
            assert(front.parser.current.token_type == kinds[0]);
            assert(operand.tokens() =~= kinds.subrange(1, (1 + n) as int));
            lemma_reads_part(front, kinds, 1, operand.tokens());
            lemma_compiled(advanced, *operand);
            lemma_ahead_add(front, 1, n);
            let done = compiled(compiler, expr);
            assert(done.chunk.code =~= compiler.chunk.code + expr.code(
                compiler.chunk.constants.len(),
            ));
        },
        Expr::Binary(opcode, left, right) => {
            lemma_tokens(*left);
            lemma_tokens(*right);
            let n = left.tokens().len();
            let m = right.tokens().len();
            assert(left.tokens() =~= kinds.subrange(0, n as int));
            lemma_reads_part(front, kinds, 0, left.tokens());
            lemma_compiled(compiler, *left);
            let first = compiled(compiler, *left);
            assert(first.front.parser.current.token_type == kinds[n as int]);
            lemma_advance(first.front);
            lemma_next_literals(first.front);
            lemma_ahead_step(front, n);
            assert(right.tokens() =~= kinds.subrange((n + 1) as int, (n + 1 + m) as int));
            lemma_reads_part(front, kinds, n + 1, right.tokens());
            lemma_compiled(first.advance(), *right);
            lemma_ahead_add(front, n + 1, m);
            let done = compiled(compiler, expr);
            assert(done.chunk.code =~= compiler.chunk.code + expr.code(
                compiler.chunk.constants.len(),
            ));
            assert(done.chunk.constants =~= compiler.chunk.constants + expr.constants(
                compiler.numbers,
                compiler.front.parser.literals,
            ));
        },
    }
}

/// The parser reads an expression as its tree: where the tokens to come are
/// those of a tree that respects precedence, the tree binds at least as
/// tightly as asked for, and the token behind it binds no tighter than the
/// tree, parsing does what leading the compiler through the tree does, and
/// then goes on with the operators that follow.
#[verifier::rlimit(80)]
pub proof fn lemma_parse(compiler: CompilerView, expr: Expr, precedence: Precedence)
    requires
        expr.respects_precedence(),
        0 < precedence.level() <= expr.level(),
        reads(compiler.front, expr.tokens()),
        rule(
            ahead(compiler.front, expr.tokens().len()).parser.current.token_type,
        ).precedence.level() <= expr.level(),
        compiler.front.parser.literals + expr.leaves() <= compiler.numbers.len(),
        compiler.chunk.constants.len() + expr.leaves() <= u32::MAX,
    ensures
        compiler.parse_precedence(precedence) == compiled(compiler, expr).infix_loop(precedence),
    decreases expr,
{
    let kinds = expr.tokens();
    let front = compiler.front;
    let advanced = compiler.advance();
    assert(ahead(front, 0) == front);
    assert(front.parser.current.token_type == kinds[0]);
    lemma_advance(front);
    lemma_next_literals(front);
    lemma_parse_measure(compiler, precedence);
    match expr {
        Expr::Literal => {},
        Expr::Group(inner) => {
            lemma_tokens(*inner);
            let n = inner.tokens().len();
            lemma_ahead_step(front, 0);
            assert(inner.tokens() =~= kinds.subrange(1, (1 + n) as int));
            lemma_reads_part(front, kinds, 1, inner.tokens());
            lemma_ahead_add(front, 1, n);
            assert(ahead(front, 1 + n).parser.current.token_type == kinds[(1 + n) as int]);
            lemma_parse(advanced, *inner, Precedence::Assignment);
            lemma_compiled(advanced, *inner);
            lemma_loop_stops(compiled(advanced, *inner), Precedence::Assignment);
        },
        Expr::Negate(operand) => {
            lemma_tokens(*operand);
            let n = operand.tokens().len();
            lemma_ahead_step(front, 0);
            assert(operand.tokens() =~= kinds.subrange(1, (1 + n) as int));
            lemma_reads_part(front, kinds, 1, operand.tokens());
            lemma_ahead_add(front, 1, n);
            lemma_parse(advanced, *operand, Precedence::Unary);
            lemma_compiled(advanced, *operand);
            lemma_loop_stops(compiled(advanced, *operand), Precedence::Unary);
        },
        Expr::Binary(opcode, left, right) => {
            lemma_tokens(*left);
            lemma_tokens(*right);
            let n = left.tokens().len();
            let m = right.tokens().len();
            let operator = operator_token(opcode);
            let tighter = rule(operator).precedence.successor();
            assert(left.tokens() =~= kinds.subrange(0, n as int));
            lemma_reads_part(front, kinds, 0, left.tokens());
            assert(ahead(front, n).parser.current.token_type == kinds[n as int]);
            lemma_parse(compiler, *left, precedence);
            lemma_compiled(compiler, *left);
            let first = compiled(compiler, *left);
            lemma_infix_loop_measure(first, precedence);
            lemma_advance(first.front);
            lemma_next_literals(first.front);
            lemma_ahead_step(front, n);
            let second = first.advance();
            assert(right.tokens() =~= kinds.subrange((n + 1) as int, (n + 1 + m) as int));
            lemma_reads_part(front, kinds, n + 1, right.tokens());
            lemma_ahead_add(front, n + 1, m);
            lemma_parse(second, *right, tighter);
            lemma_compiled(second, *right);
            lemma_loop_stops(compiled(second, *right), tighter);
            assert(second.handle(Handler::Binary) == compiled(compiler, expr));
        },
    }
}

/// Compiling a text that reads as an expression gives the postfix code of
/// the expression, closed by a `Return`, and a pool that holds the values
/// of its literals.
pub proof fn lemma_compiles_to_postfix(text: Seq<char>, numbers: Seq<u64>, expr: Expr)
    requires
        reads_as(text, numbers, expr),
    ensures
        !CompilerView::start(text, numbers).compile().front.parser.had_error,
        CompilerView::start(text, numbers).compile().chunk.code == expr.code(0).push(
            Opcode::Return.byte(),
        ),
        CompilerView::start(text, numbers).compile().chunk.constants == expr.constants(numbers, 0),
{
    let start = CompilerView::start(text, numbers);
    let first = start.advance();
    let kinds = expr.tokens().push(TokenType::Eof);
    let n = expr.tokens().len();
    lemma_next_literals(start.front);
    assert(expr.tokens() =~= kinds.subrange(0, n as int));
    lemma_reads_part(first.front, kinds, 0, expr.tokens());
    assert(ahead(first.front, 0) == first.front);
    assert(ahead(first.front, n).parser.current.token_type == kinds[n as int]);
    lemma_parse(first, expr, Precedence::Assignment);
    lemma_compiled(first, expr);
    let parsed = compiled(first, expr);
    lemma_loop_stops(parsed, Precedence::Assignment);
    lemma_ahead_step(first.front, n);
    let done = start.compile();
    assert(done.chunk.code =~= expr.code(0).push(Opcode::Return.byte()));
    assert(done.chunk.constants =~= expr.constants(numbers, 0));
}

/// Code that holds two pieces one behind the other holds each of them.
pub proof fn lemma_code_parts(code: Seq<u8>, offset: int, a: Seq<u8>, b: Seq<u8>)
    requires
        0 <= offset,
        offset + a.len() + b.len() <= code.len(),
        code.subrange(offset, offset + a.len() + b.len()) == a + b,
    ensures
        code.subrange(offset, offset + a.len()) == a,
        code.subrange(offset + a.len(), offset + a.len() + b.len()) == b,
{
    let whole = code.subrange(offset, offset + a.len() + b.len());
    assert(code.subrange(offset, offset + a.len()) =~= a) by {
        assert forall|i: int| 0 <= i < a.len() implies code[offset + i] == a[i] by {
            assert(whole[i] == (a + b)[i]);
        }
    }
    assert(code.subrange(offset + a.len(), offset + a.len() + b.len()) =~= b) by {
        assert forall|i: int| 0 <= i < b.len() implies code[offset + a.len() + i] == b[i] by {
            assert(whole[a.len() + i] == (a + b)[a.len() + i]);
        }
    }
}

/// The machine computes the value of an expression from its postfix code:
/// execution that starts at the code of the expression arrives behind it
/// with the value of the expression pushed, where the stack has room for
/// the evaluation and the host does the arithmetic.
#[verifier::rlimit(80)]
pub proof fn lemma_evaluates(
    chunk: ChunkView,
    expr: Expr,
    offset: int,
    first: nat,
    numbers: Seq<u64>,
    stack: Seq<ValueView>,
    host: spec_fn(Opcode, u64, u64) -> u64,
)
    requires
        expr.respects_precedence(),
        0 <= offset,
        offset + expr.code(first).len() < chunk.code.len(),
        chunk.code.subrange(offset, offset + expr.code(first).len()) == expr.code(first),
        first + expr.leaves() <= chunk.constants.len(),
        first + expr.leaves() <= u32::MAX,
        forall|k: int|
            first <= k < first + expr.leaves() ==> chunk.constants[k] == ValueView::Number(
                numbers[k],
            ),
        stack.len() + expr.depth() <= STACK_MAX,
    ensures
        expr.code(first).len() > 0,
        run_with_host(chunk, offset, stack, host) == run_with_host(
            chunk,
            offset + expr.code(first).len(),
            stack.push(ValueView::Number(expr.value(numbers, first, host))),
            host,
        ),
    decreases expr,
{
    let code = expr.code(first);
    match expr {
        Expr::Literal => {
            lemma_load_reads_back(chunk, offset, stack, first as u32);
            lemma_host_continues(chunk, offset, stack, host);
        },
        Expr::Group(inner) => {
            lemma_evaluates(chunk, *inner, offset, first, numbers, stack, host);
        },
        Expr::Negate(operand) => {
            let inner = operand.code(first);
            lemma_code_parts(chunk.code, offset, inner, seq![Opcode::Negate.byte()]);
            lemma_evaluates(chunk, *operand, offset, first, numbers, stack, host);
            let at = offset + inner.len();
            let value = operand.value(numbers, first, host);
            let pushed = stack.push(ValueView::Number(value));
            assert(chunk.code[at] == chunk.code.subrange(at, at + 1)[0]);
            assert(pushed.drop_last() =~= stack);
            lemma_host_continues(chunk, at, pushed, host);
        },
        Expr::Binary(opcode, left, right) => {
            lemma_tokens(*left);
            let a = left.code(first);
            let b = right.code(first + left.leaves());
            let c = seq![opcode.byte()];
            assert(code =~= a + (b + c));
            lemma_code_parts(chunk.code, offset, a, b + c);
            lemma_code_parts(chunk.code, offset + a.len(), b, c);
            lemma_evaluates(chunk, *left, offset, first, numbers, stack, host);
            let lhs = left.value(numbers, first, host);
            let one = stack.push(ValueView::Number(lhs));
            lemma_evaluates(
                chunk,
                *right,
                offset + a.len(),
                first + left.leaves(),
                numbers,
                one,
                host,
            );
            let rhs = right.value(numbers, first + left.leaves(), host);
            let two = one.push(ValueView::Number(rhs));
            let at = offset + a.len() + b.len();
            assert(chunk.code[at] == chunk.code.subrange(at, at + 1)[0]);
            assert(two.take(two.len() - 2) =~= stack);
            lemma_host_answers(chunk, at, two, host);
        },
    }
}

/// The value that the machine surfaces for the text of an expression is
/// the value of the expression, with `*` and `/` binding tighter than `+`
/// and `-`, a prefix `-` binding tighter than both, and operators of one
/// level grouping to the left.
///
/// A text that reads as an expression compiles without error, and
/// execution of the chunk, with a host that does the arithmetic, halts at
/// the closing `Return` with the value of the tree and leaves the stack as
/// it found it, where the stack has room for the evaluation.
pub proof fn theorem_expression_value(
    text: Seq<char>,
    numbers: Seq<u64>,
    expr: Expr,
    stack: Seq<ValueView>,
    host: spec_fn(Opcode, u64, u64) -> u64,
)
    requires
        reads_as(text, numbers, expr),
        stack.len() + expr.depth() <= STACK_MAX,
    ensures
        ({
            let done = CompilerView::start(text, numbers).compile();
            &&& !done.front.parser.had_error
            &&& run_with_host(done.chunk, 0, stack, host) == (Step::Halt {
                value: Some(ValueView::Number(expr.value(numbers, 0, host))),
                ip: done.chunk.code.len() as int,
                stack,
            })
        }),
{
    lemma_compiles_to_postfix(text, numbers, expr);
    let chunk = CompilerView::start(text, numbers).compile().chunk;
    let code = expr.code(0);
    assert(chunk.code.subrange(0, code.len() as int) =~= code);
    lemma_evaluates(chunk, expr, 0, 0, numbers, stack, host);
    let pushed = stack.push(ValueView::Number(expr.value(numbers, 0, host)));
    assert(pushed.drop_last() =~= stack);
    assert(chunk.code[code.len() as int] == Opcode::Return.byte());
}

/// Interpreting a text that reads as an expression, with a host that does
/// the arithmetic, surfaces the value of the expression: the machine halts
/// behind the code with no report, and with the stack as it found it, where
/// the stack has room for the evaluation.
pub proof fn theorem_interpret_value(
    vm: VmView,
    text: Seq<char>,
    numbers: Seq<u64>,
    expr: Expr,
    host: spec_fn(Opcode, u64, u64) -> u64,
)
    requires
        reads_as(text, numbers, expr),
        vm.stack.len() + expr.depth() <= STACK_MAX,
    ensures
        vm.interpret_with_host(text, numbers, host) == (
            VmView {
                chunk: Some(CompilerView::start(text, numbers).compile().chunk),
                ip: CompilerView::start(text, numbers).compile().chunk.code.len() as int,
                stack: vm.stack,
                state: State::Halted,
                fault: None,
                diagnostics: Seq::empty(),
            },
            Ok::<SignalView, InterpretError>(
                SignalView::Done(Some(ValueView::Number(expr.value(numbers, 0, host)))),
            ),
        ),
{
    theorem_expression_value(text, numbers, expr, vm.stack, host);
}

/// The tree that the parser reads where it parses at level `precedence`.
/// It is the reading of the tokens that the parser takes, where it takes
/// them without an error, see [`lemma_parse_reads`].
pub open spec fn read_tree(compiler: CompilerView, precedence: Precedence) -> Expr
    decreases compiler.front.measure(), 2int,
{
    let advanced = compiler.advance();
    match rule(advanced.front.parser.previous.token_type).prefix {
        Some(handler) => {
            proof {
                lemma_advance(compiler.front);
            }
            let first = read_prefix(advanced, handler);
            let parsed = advanced.handle(handler);
            if parsed.front.measure() <= compiler.front.measure() {
                read_infix(parsed, precedence, first)
            } else {
                first
            }
        },
        None => Expr::Literal,
    }
}

/// The tree that the loop over the infix operators reads, where `left` is
/// the tree read so far.
pub open spec fn read_infix(compiler: CompilerView, precedence: Precedence, left: Expr) -> Expr
    decreases compiler.front.measure(), 1int,
{
    if 0 < precedence.level() <= rule(compiler.front.parser.current.token_type).precedence.level() {
        let advanced = compiler.advance();
        proof {
            lemma_advance(compiler.front);
        }
        match rule(advanced.front.parser.previous.token_type).infix {
            Some(handler) => {
                let operator = advanced.front.parser.previous.token_type;
                let right = read_tree(advanced, rule(operator).precedence.successor());
                let joined = Expr::Binary(
                    operator_opcode(operator),
                    Box::new(left),
                    Box::new(right),
                );
                let applied = advanced.handle(handler);
                if applied.front.measure() < compiler.front.measure() {
                    read_infix(applied, precedence, joined)
                } else {
                    joined
                }
            },
            None => left,
        }
    } else {
        left
    }
}

/// The tree of the construct that the token just taken starts.
pub open spec fn read_prefix(compiler: CompilerView, handler: Handler) -> Expr
    decreases compiler.front.measure(), 4int,
{
    match handler {
        Handler::Grouping => Expr::Group(Box::new(read_tree(compiler, Precedence::Assignment))),
        Handler::Unary => Expr::Negate(Box::new(read_tree(compiler, Precedence::Unary))),
        _ => Expr::Literal,
    }
}

/// The tree that a text is read as, where it compiles.
pub open spec fn read_expression(text: Seq<char>, numbers: Seq<u64>) -> Expr {
    read_tree(CompilerView::start(text, numbers).advance(), Precedence::Assignment)
}

/// Where the parser parses without an error, it has read a tree: the tokens
/// it took are those of [`read_tree`], the tree respects precedence and
/// binds at least as tightly as asked for, the compiler did what it does
/// when it is led through the tree, and the token to come binds less
/// tightly than asked for.
#[verifier::rlimit(100)]
pub proof fn lemma_parse_reads(compiler: CompilerView, precedence: Precedence)
    requires
        0 < precedence.level() <= Precedence::Unary.level(),
        !compiler.parse_precedence(precedence).front.parser.had_error,
    ensures
        reads_tree(compiler, read_tree(compiler, precedence)),
        read_tree(compiler, precedence).level() >= precedence.level(),
        compiler.parse_precedence(precedence) == compiled(
            compiler,
            read_tree(compiler, precedence),
        ),
        rule(
            compiler.parse_precedence(precedence).front.parser.current.token_type,
        ).precedence.level() < precedence.level(),
    decreases compiler.front.measure(), 2int,
{
    let front = compiler.front;
    let advanced = compiler.advance();
    lemma_advance(front);
    lemma_next_literals(front);
    lemma_parse_measure(compiler, precedence);
    assert(ahead(front, 0) == front);
    lemma_ahead_step(front, 0);
    let token = advanced.front.parser.previous.token_type;
    lemma_rule_levels(token);
    match rule(token).prefix {
        None => {
            lemma_infix_loop_errors(advanced.report_at_current("Expect expression."@), precedence);
        },
        Some(handler) => {
            let parsed = advanced.handle(handler);
            lemma_infix_loop_errors(parsed, precedence);
            lemma_handle_measure(advanced, handler);
            let first = read_prefix(advanced, handler);
            if handler == Handler::Grouping {
                let inner = advanced.parse_precedence(Precedence::Assignment);
                lemma_advance_errors(inner.front);
                lemma_parse_reads(advanced, Precedence::Assignment);
                let tree = read_tree(advanced, Precedence::Assignment);
                lemma_compiled(advanced, tree);
                lemma_advance(inner.front);
                lemma_next_literals(inner.front);
                let n = tree.tokens().len();
                lemma_ahead_add(front, 1, n);
                lemma_ahead_step(front, n + 1);
                assert(reads(ahead(front, 1 + n), seq![TokenType::RightParen])) by {
                    assert(ahead(ahead(front, 1 + n), 0) == ahead(front, 1 + n));
                }
                assert(reads(front, seq![TokenType::LeftParen]));
                lemma_reads_join(front, seq![TokenType::LeftParen], tree.tokens());
                lemma_reads_join(
                    front,
                    seq![TokenType::LeftParen] + tree.tokens(),
                    seq![TokenType::RightParen],
                );
            } else if handler == Handler::Unary {
                lemma_parse_reads(advanced, Precedence::Unary);
                let tree = read_tree(advanced, Precedence::Unary);
                lemma_compiled(advanced, tree);
                assert(reads(front, seq![TokenType::Minus]));
                lemma_reads_join(front, seq![TokenType::Minus], tree.tokens());
            } else {
                assert(reads(front, seq![TokenType::Number]));
            }
            assert(reads_tree(compiler, first));
            assert(parsed == compiled(compiler, first));
            lemma_rule_levels(parsed.front.parser.current.token_type);
            lemma_infix_reads(compiler, parsed, precedence, first);
        },
    }
}

/// Where the loop over the infix operators goes on without an error behind
/// a tree that was read, it reads a tree again: the tree read so far, with
/// each operator that follows and its right operand joined to it from the
/// left.
#[verifier::rlimit(100)]
pub proof fn lemma_infix_reads(
    start: CompilerView,
    compiler: CompilerView,
    precedence: Precedence,
    left: Expr,
)
    requires
        0 < precedence.level() <= Precedence::Unary.level(),
        reads_tree(start, left),
        compiler == compiled(start, left),
        left.level() >= precedence.level(),
        rule(compiler.front.parser.current.token_type).precedence.level() <= left.level(),
        !compiler.infix_loop(precedence).front.parser.had_error,
    ensures
        reads_tree(start, read_infix(compiler, precedence, left)),
        read_infix(compiler, precedence, left).level() >= precedence.level(),
        compiler.infix_loop(precedence) == compiled(
            start,
            read_infix(compiler, precedence, left),
        ),
        rule(
            compiler.infix_loop(precedence).front.parser.current.token_type,
        ).precedence.level() < precedence.level(),
    decreases compiler.front.measure(), 1int,
{
    let token = compiler.front.parser.current.token_type;
    if precedence.level() <= rule(token).precedence.level() {
        lemma_rule_levels(token);
        lemma_tokens(left);
        lemma_compiled(start, left);
        lemma_advance(compiler.front);
        lemma_next_literals(compiler.front);
        lemma_infix_loop_measure(compiler, precedence);
        let n = left.tokens().len();
        lemma_ahead_step(start.front, n);
        let advanced = compiler.advance();
        let tighter = rule(token).precedence.successor();
        let operand = advanced.parse_precedence(tighter);
        let applied = advanced.handle(Handler::Binary);
        lemma_handle_measure(advanced, Handler::Binary);
        lemma_infix_loop_errors(applied, precedence);
        lemma_parse_reads(advanced, tighter);
        let right = read_tree(advanced, tighter);
        let joined = Expr::Binary(operator_opcode(token), Box::new(left), Box::new(right));
        lemma_compiled(advanced, right);
        assert(reads(ahead(start.front, n), seq![token])) by {
            assert(ahead(ahead(start.front, n), 0) == ahead(start.front, n));
        }
        lemma_reads_join(start.front, left.tokens(), seq![token]);
        lemma_reads_join(start.front, left.tokens() + seq![token], right.tokens());
        assert(reads_tree(start, joined));
        assert(applied == compiled(start, joined));
        lemma_infix_reads(start, applied, precedence, joined);
    }
}

/// A text that compiles reads as an expression, the tree
/// [`read_expression`].
pub proof fn lemma_compiled_text_is_expression(text: Seq<char>, numbers: Seq<u64>)
    requires
        !CompilerView::start(text, numbers).compile().front.parser.had_error,
    ensures
        reads_as(text, numbers, read_expression(text, numbers)),
{
    let start = CompilerView::start(text, numbers);
    let first = start.advance();
    lemma_next_literals(start.front);
    let parsed = first.expression();
    lemma_advance_errors(parsed.front);
    lemma_parse_reads(first, Precedence::Assignment);
    let tree = read_expression(text, numbers);
    lemma_compiled(first, tree);
    let n = tree.tokens().len();
    lemma_ahead_step(first.front, n);
    assert(reads(ahead(first.front, n), seq![TokenType::Eof])) by {
        assert(ahead(ahead(first.front, n), 0) == ahead(first.front, n));
    }
    lemma_reads_join(first.front, tree.tokens(), seq![TokenType::Eof]);
    assert(tree.tokens() + seq![TokenType::Eof] =~= tree.tokens().push(TokenType::Eof));
}

/// A text compiles exactly when it reads as an expression.
pub proof fn theorem_compiles_iff_expression(text: Seq<char>, numbers: Seq<u64>)
    ensures
        !CompilerView::start(text, numbers).compile().front.parser.had_error <==> exists|
            expr: Expr,
        |
            reads_as(text, numbers, expr),
{
    if !CompilerView::start(text, numbers).compile().front.parser.had_error {
        lemma_compiled_text_is_expression(text, numbers);
    }
    if exists|expr: Expr| reads_as(text, numbers, expr) {
        let expr = choose|expr: Expr| reads_as(text, numbers, expr);
        lemma_compiles_to_postfix(text, numbers, expr);
    }
}

/// The number of number tokens among tokens.
pub open spec fn count_numbers(kinds: Seq<TokenType>) -> nat
    decreases kinds.len(),
{
    if kinds.len() == 0 {
        0
    } else {
        count_numbers(kinds.drop_last()) + if kinds.last() == TokenType::Number {
            1nat
        } else {
            0nat
        }
    }
}

/// Counting the number tokens of two sequences adds up.
pub proof fn lemma_count_numbers_add(a: Seq<TokenType>, b: Seq<TokenType>)
    ensures
        count_numbers(a + b) == count_numbers(a) + count_numbers(b),
    decreases b.len(),
{
    if b.len() == 0 {
        assert(a + b =~= a);
    } else {
        assert((a + b).drop_last() =~= a + b.drop_last());
        lemma_count_numbers_add(a, b.drop_last());
    }
}

/// The tokens of an expression hold one number token for each literal, and
/// no end of input.
pub proof fn lemma_tokens_count(expr: Expr)
    ensures
        count_numbers(expr.tokens()) == expr.leaves(),
        forall|i: int| 0 <= i < expr.tokens().len() ==> expr.tokens()[i] != TokenType::Eof,
    decreases expr,
{
    reveal_with_fuel(count_numbers, 3);
    match expr {
        Expr::Literal => {
            assert(seq![TokenType::Number].drop_last() =~= Seq::<TokenType>::empty());
        },
        Expr::Group(inner) => {
            lemma_tokens_count(*inner);
            lemma_count_numbers_add(seq![TokenType::LeftParen], inner.tokens());
            lemma_count_numbers_add(
                seq![TokenType::LeftParen] + inner.tokens(),
                seq![TokenType::RightParen],
            );
            assert(seq![TokenType::LeftParen].drop_last() =~= Seq::<TokenType>::empty());
            assert(seq![TokenType::RightParen].drop_last() =~= Seq::<TokenType>::empty());
        },
        Expr::Negate(operand) => {
            lemma_tokens_count(*operand);
            lemma_count_numbers_add(seq![TokenType::Minus], operand.tokens());
            assert(seq![TokenType::Minus].drop_last() =~= Seq::<TokenType>::empty());
        },
        Expr::Binary(opcode, left, right) => {
            lemma_tokens_count(*left);
            lemma_tokens_count(*right);
            lemma_count_numbers_add(left.tokens(), seq![operator_token(opcode)]);
            lemma_count_numbers_add(left.tokens() + seq![operator_token(opcode)], right.tokens());
            assert(seq![operator_token(opcode)].drop_last() =~= Seq::<TokenType>::empty());
        },
    }
}

/// The number tokens that the scanner is still to find are the one that is
/// taken next, where it is a number, and those behind it.
pub proof fn lemma_texts_behind(front: Front)
    ensures
        ({
            let next = front.advance();
            let token = next.parser.current;
            number_texts(front.scanner.text, front.scanner.current, front.scanner.line).len()
                == if token.token_type == TokenType::Eof {
                0
            } else if token.token_type == TokenType::Number {
                1 + number_texts(
                    front.scanner.text,
                    next.scanner.current,
                    next.scanner.line,
                ).len()
            } else {
                number_texts(front.scanner.text, next.scanner.current, next.scanner.line).len()
            }
        }),
{
    lemma_next_token_texts(
        Front {
            parser: ParserView {
                previous: front.parser.current,
                literals: if front.parser.current.token_type == TokenType::Number {
                    front.parser.literals + 1
                } else {
                    front.parser.literals
                },
                ..front.parser
            },
            ..front
        },
    );
}

/// Where the tokens to come are of the given kinds, none of them the end
/// of the input, and the end of the input follows, the scanner is still to
/// find as many number tokens as there are among the kinds behind the first.
pub proof fn lemma_texts_ahead(front: Front, kinds: Seq<TokenType>)
    requires
        kinds.len() > 0,
        reads(front, kinds.push(TokenType::Eof)),
        forall|i: int| 0 <= i < kinds.len() ==> kinds[i] != TokenType::Eof,
    ensures
        number_texts(front.scanner.text, front.scanner.current, front.scanner.line).len()
            == count_numbers(kinds.skip(1)),
    decreases kinds.len(),
{
    let all = kinds.push(TokenType::Eof);
    let next = front.advance();
    lemma_advance(front);
    lemma_texts_behind(front);
    assert(ahead(front, 1) == next) by {
        assert(ahead(front.advance(), 0) == front.advance());
    }
    assert(next.parser.current.token_type == all[1]);
    let rest = kinds.skip(1);
    if rest.len() == 0 {
        assert(count_numbers(rest) == 0);
    } else {
        assert(rest.push(TokenType::Eof) =~= all.subrange(1, all.len() as int));
        lemma_reads_part(front, all, 1, rest.push(TokenType::Eof));
        lemma_texts_ahead(next, rest);
        lemma_count_numbers_add(seq![rest[0]], rest.skip(1));
        assert(seq![rest[0]] + rest.skip(1) =~= rest);
        reveal_with_fuel(count_numbers, 2);
        assert(seq![rest[0]].drop_last() =~= Seq::<TokenType>::empty());
    }
}

/// A text whose tokens are those of an expression holds one number token
/// for each literal of the expression: the texts that
/// [`crate::scanner::number_literals`] lists are the literals, in their
/// order, and a value for each of them is a number for each literal.
pub proof fn lemma_literals_are_number_tokens(text: Seq<char>, expr: Expr)
    requires
        tokens_read_as(text, expr),
    ensures
        number_texts(text, 0, 1).len() == expr.leaves(),
{
    let start = CompilerView::start(text, Seq::empty()).front;
    let first = start.advance();
    let kinds = expr.tokens();
    lemma_tokens(expr);
    lemma_tokens_count(expr);
    lemma_texts_behind(start);
    lemma_advance(start);
    assert(ahead(first, 0) == first);
    assert(first.parser.current.token_type == kinds.push(TokenType::Eof)[0]);
    lemma_texts_ahead(first, kinds);
    lemma_count_numbers_add(seq![kinds[0]], kinds.skip(1));
    assert(seq![kinds[0]] + kinds.skip(1) =~= kinds);
    reveal_with_fuel(count_numbers, 2);
    assert(seq![kinds[0]].drop_last() =~= Seq::<TokenType>::empty());
}

} // verus!
