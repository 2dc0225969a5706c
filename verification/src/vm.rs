//! The stack machine.
//!
//! The machine executes the code of a [`Chunk`] on a stack of values. It
//! decides everything itself except the result of rounding arithmetic: where
//! an instruction adds, subtracts, multiplies or divides two numbers, the
//! machine takes the operands off the stack, suspends, and hands them out in
//! a [`Signal::Arithmetic`]. The host computes the result and passes it to
//! [`Vm::resume`], which pushes it and runs on.
use crate::chunk::{
    constant_instruction, index_of_bytes, lemma_constant_instruction_at, line_at, long_operand, short_operand, value_views, Chunk, ChunkView,
};
use crate::compiler::{Compiler, CompilerView};
use crate::number;
use crate::opcode::Opcode;
use crate::text::{decimal, push_decimal, string_views};
use crate::value::{Obj, ObjType, Value, ValueView};
use vstd::prelude::*;
use vstd::string::*;

verus! {

/// The capacity of the value stack.
pub const STACK_MAX: usize = 256;

/// How an attempt to compile or to run ended, when it failed.
#[derive(Debug, Clone, Copy, PartialEq, Eq, Structural)]
pub enum InterpretError {
    /// The source text did not scan or parse.
    CompileError,
    /// An instruction met operands it cannot work on, or the machine met
    /// code it cannot execute.
    RuntimeError,
}

impl InterpretError {
    /// The name of the failure.
    pub open spec fn text(self) -> Seq<char> {
        match self {
            InterpretError::CompileError => "Compile error"@,
            InterpretError::RuntimeError => "Runtime error"@,
        }
    }

    /// The name of the failure, for display.
    pub fn to_text(&self) -> (s: String)
        ensures
            s@ == self.text(),
    {
        match self {
            InterpretError::CompileError => String::from_str("Compile error"),
            InterpretError::RuntimeError => String::from_str("Runtime error"),
        }
    }
}

/// Where the machine stands.
#[derive(Debug, Clone, Copy, PartialEq, Eq, Structural)]
pub enum State {
    /// No chunk is loaded.
    Idle,
    /// Instructions are being executed.
    Running,
    /// The host owes the result of an arithmetic operation.
    Suspended,
    /// Execution ended without a fault.
    Halted,
    /// Execution ended in a runtime error.
    Faulted,
}

/// Why execution faulted.
#[derive(Debug, Clone, Copy, PartialEq, Eq, Structural)]
pub enum Fault {
    /// `Negate` on a value that is no number.
    OperandNotNumber,
    /// `Subtract`, `Multiply`, `Divide`, `Greater` or `Less` on a value that
    /// is no number.
    OperandsNotNumbers,
    /// `Add` on operands that are neither two numbers nor two strings.
    OperandsNotAddable,
    /// A push onto a full stack.
    StackOverflow,
    /// Code that no compilation produces: a byte that is no opcode, an
    /// operand that is cut off or names no constant, or an instruction that
    /// takes more values than the stack holds.
    MalformedCode,
}

impl Fault {
    /// The message of the fault.
    pub open spec fn message(self) -> Seq<char> {
        match self {
            Fault::OperandNotNumber => "Operand must be a number"@,
            Fault::OperandsNotNumbers => "Operands must be numbers"@,
            Fault::OperandsNotAddable => "Operands must be two numbers or two strings"@,
            Fault::StackOverflow => "Stack overflow"@,
            Fault::MalformedCode => "Malformed bytecode"@,
        }
    }

    /// The message of the fault.
    pub fn to_message(&self) -> (s: &'static str)
        ensures
            s@ == self.message(),
    {
        match self {
            Fault::OperandNotNumber => "Operand must be a number",
            Fault::OperandsNotNumbers => "Operands must be numbers",
            Fault::OperandsNotAddable => "Operands must be two numbers or two strings",
            Fault::StackOverflow => "Stack overflow",
            Fault::MalformedCode => "Malformed bytecode",
        }
    }
}

/// The text that reports a fault of the instruction from source line `line`.
pub open spec fn fault_report(line: usize, fault: Fault) -> Seq<char> {
    "[line "@ + decimal(line as nat) + "] Error: "@ + fault.message()
}

/// What the machine hands to the host when it stops without a fault.
#[derive(Debug)]
pub enum Signal {
    /// Execution halted. A `Return` instruction surfaces the value it took
    /// from the stack; code that ends without one surfaces none.
    Done(Option<Value>),
    /// Execution is suspended at `Add`, `Subtract`, `Multiply` or `Divide` on
    /// the numbers `lhs` and `rhs`.
    Arithmetic { opcode: Opcode, lhs: u64, rhs: u64 },
}

/// A signal as mathematics.
pub enum SignalView {
    Done(Option<ValueView>),
    Arithmetic { opcode: Opcode, lhs: u64, rhs: u64 },
}

impl View for Signal {
    type V = SignalView;

    open spec fn view(&self) -> SignalView {
        match self {
            Signal::Done(Some(value)) => SignalView::Done(Some(value@)),
            Signal::Done(None) => SignalView::Done(None),
            Signal::Arithmetic { opcode, lhs, rhs } => SignalView::Arithmetic {
                opcode: *opcode,
                lhs: *lhs,
                rhs: *rhs,
            },
        }
    }
}

/// What one instruction does.
pub enum Step {
    /// Execution goes on at `ip` with `stack`.
    Continue { ip: int, stack: Seq<ValueView> },
    /// Execution halts and surfaces `value`.
    Halt { value: Option<ValueView>, ip: int, stack: Seq<ValueView> },
    /// Execution is suspended until the host has computed `opcode` on `lhs`
    /// and `rhs`.
    Await { opcode: Opcode, lhs: u64, rhs: u64, ip: int, stack: Seq<ValueView> },
    /// Execution faults at the instruction at `offset`.
    Fault { fault: Fault, offset: int, ip: int },
}

/// Pushing `value` as the last act of the instruction at `offset`.
pub open spec fn push_step(stack: Seq<ValueView>, value: ValueView, offset: int, ip: int) -> Step {
    if stack.len() >= STACK_MAX {
        Step::Fault { fault: Fault::StackOverflow, offset, ip }
    } else {
        Step::Continue { ip, stack: stack.push(value) }
    }
}

/// Loading the constant that `operand` names, for the load instruction at
/// `offset` that ends before `ip`.
pub open spec fn load_step(
    chunk: ChunkView,
    stack: Seq<ValueView>,
    operand: Option<u32>,
    offset: int,
    ip: int,
) -> Step {
    match operand {
        Some(index) if index < chunk.constants.len() => push_step(
            stack,
            chunk.constants[index as int],
            offset,
            ip,
        ),
        _ => Step::Fault { fault: Fault::MalformedCode, offset, ip: offset + 1 },
    }
}

/// An instruction that takes two operands: `rhs` from the top of the stack,
/// `lhs` from below it.
pub open spec fn binary_step(opcode: Opcode, stack: Seq<ValueView>, offset: int) -> Step {
    let ip = offset + 1;
    if stack.len() < 2 {
        Step::Fault { fault: Fault::MalformedCode, offset, ip }
    } else {
        let rest = stack.take(stack.len() - 2);
        let lhs = stack[stack.len() - 2];
        let rhs = stack[stack.len() - 1];
        match opcode {
            Opcode::Equal => Step::Continue { ip, stack: rest.push(ValueView::Bool(lhs.equals(rhs))) },
            Opcode::Add => match (lhs, rhs) {
                (ValueView::String(a), ValueView::String(b)) => Step::Continue {
                    ip,
                    stack: rest.push(ValueView::String(a + b)),
                },
                (ValueView::Number(a), ValueView::Number(b)) => Step::Await {
                    opcode,
                    lhs: a,
                    rhs: b,
                    ip,
                    stack: rest,
                },
                _ => Step::Fault { fault: Fault::OperandsNotAddable, offset, ip },
            },
            _ => match (lhs, rhs) {
                (ValueView::Number(a), ValueView::Number(b)) => match opcode {
                    Opcode::Greater => Step::Continue {
                        ip,
                        stack: rest.push(ValueView::Bool(number::number_greater(a, b))),
                    },
                    Opcode::Less => Step::Continue {
                        ip,
                        stack: rest.push(ValueView::Bool(number::number_less(a, b))),
                    },
                    _ => Step::Await { opcode, lhs: a, rhs: b, ip, stack: rest },
                },
                _ => Step::Fault { fault: Fault::OperandsNotNumbers, offset, ip },
            },
        }
    }
}

/// An instruction that takes one operand from the top of the stack.
pub open spec fn unary_step(opcode: Opcode, stack: Seq<ValueView>, offset: int) -> Step {
    let ip = offset + 1;
    if stack.len() < 1 {
        Step::Fault { fault: Fault::MalformedCode, offset, ip }
    } else {
        let rest = stack.drop_last();
        let operand = stack.last();
        match opcode {
            Opcode::Return => Step::Halt { value: Some(operand), ip, stack: rest },
            Opcode::Not => Step::Continue { ip, stack: rest.push(ValueView::Bool(operand.is_falsey())) },
            _ => match operand {
                ValueView::Number(bits) => Step::Continue {
                    ip,
                    stack: rest.push(ValueView::Number(number::negated(bits))),
                },
                _ => Step::Fault { fault: Fault::OperandNotNumber, offset, ip },
            },
        }
    }
}

/// What the instruction at `offset` does to `stack`.
pub open spec fn step(chunk: ChunkView, offset: int, stack: Seq<ValueView>) -> Step
    recommends
        0 <= offset < chunk.code.len(),
{
    match Opcode::of_byte(chunk.code[offset]) {
        None => Step::Fault { fault: Fault::MalformedCode, offset, ip: offset + 1 },
        Some(opcode) => match opcode {
            Opcode::Constant => load_step(
                chunk,
                stack,
                short_operand(chunk.code, offset + 1),
                offset,
                offset + 2,
            ),
            Opcode::ConstantLong => load_step(
                chunk,
                stack,
                long_operand(chunk.code, offset + 1),
                offset,
                offset + 5,
            ),
            Opcode::Nil => push_step(stack, ValueView::Nil, offset, offset + 1),
            Opcode::True => push_step(stack, ValueView::Bool(true), offset, offset + 1),
            Opcode::False => push_step(stack, ValueView::Bool(false), offset, offset + 1),
            Opcode::Return | Opcode::Not | Opcode::Negate => unary_step(opcode, stack, offset),
            _ => binary_step(opcode, stack, offset),
        },
    }
}

/// An instruction that does not stop execution moves the instruction
/// pointer forward, within the code or to its end.
pub proof fn lemma_step_advances(chunk: ChunkView, offset: int, stack: Seq<ValueView>)
    requires
        0 <= offset < chunk.code.len(),
    ensures
        step(chunk, offset, stack) is Continue ==> offset < step(
            chunk,
            offset,
            stack,
        )->Continue_ip <= chunk.code.len(),
        step(chunk, offset, stack) is Await ==> step(chunk, offset, stack)->Await_ip == offset + 1,
{
}

/// Where execution that starts at `ip` with `stack` stops: never a
/// [`Step::Continue`]. Execution that reaches the end of the code halts
/// there and surfaces no value.
pub open spec fn run(chunk: ChunkView, ip: int, stack: Seq<ValueView>) -> Step
    decreases chunk.code.len() - ip,
{
    if 0 <= ip < chunk.code.len() {
        match step(chunk, ip, stack) {
            Step::Continue { ip: next, stack: pushed } => {
                proof {
                    lemma_step_advances(chunk, ip, stack);
                }
                run(chunk, next, pushed)
            },
            stop => stop,
        }
    } else {
        Step::Halt { value: None, ip, stack }
    }
}

/// Where execution is suspended, the instruction pointer lies behind the
/// one it started from, and within the code.
pub proof fn lemma_run_suspends_later(chunk: ChunkView, ip: int, stack: Seq<ValueView>)
    ensures
        run(chunk, ip, stack) is Await ==> ip < run(chunk, ip, stack)->Await_ip
            <= chunk.code.len(),
    decreases chunk.code.len() - ip,
{
    if 0 <= ip < chunk.code.len() {
        lemma_step_advances(chunk, ip, stack);
        match step(chunk, ip, stack) {
            Step::Continue { ip: next, stack: pushed } => {
                lemma_run_suspends_later(chunk, next, pushed);
            },
            _ => {},
        }
    }
}

/// Where execution stops when the host answers every suspension: each
/// time the machine is suspended at an operation, the result that `host`
/// gives for it is pushed, and execution goes on. This is what a host
/// computes that calls [`Vm::resume`] until the machine halts or faults;
/// the result is never a [`Step::Continue`] or a [`Step::Await`].
pub open spec fn run_with_host(
    chunk: ChunkView,
    ip: int,
    stack: Seq<ValueView>,
    host: spec_fn(Opcode, u64, u64) -> u64,
) -> Step
    decreases chunk.code.len() - ip,
{
    match run(chunk, ip, stack) {
        Step::Await { opcode, lhs, rhs, ip: next, stack: rest } => {
            proof {
                lemma_run_suspends_later(chunk, ip, stack);
            }
            run_with_host(chunk, next, rest.push(ValueView::Number(host(opcode, lhs, rhs))), host)
        },
        stop => stop,
    }
}

/// The machine: a chunk, the offset of the next instruction in it, and the
/// value stack. The stack is kept from one program to the next; a runtime
/// error empties it.
pub struct Vm {
    chunk: Option<Chunk>,
    ip: usize,
    stack: Vec<Value>,
    state: State,
    fault: Option<Fault>,
    diagnostics: Vec<String>,
}

/// The machine as mathematics.
pub struct VmView {
    pub chunk: Option<ChunkView>,
    pub ip: int,
    pub stack: Seq<ValueView>,
    pub state: State,
    /// Why the last execution faulted, where it did.
    pub fault: Option<Fault>,
    pub diagnostics: Seq<Seq<char>>,
}

impl View for Vm {
    type V = VmView;

    closed spec fn view(&self) -> VmView {
        VmView {
            chunk: match self.chunk {
                Some(chunk) => Some(chunk@),
                None => None,
            },
            ip: self.ip as int,
            stack: value_views(self.stack@),
            state: self.state,
            fault: self.fault,
            diagnostics: string_views(self.diagnostics@),
        }
    }
}

impl VmView {
    /// The invariant of the machine: the stack is within its capacity, and
    /// the instruction pointer within the code or at its end.
    pub open spec fn wf(self) -> bool {
        &&& self.stack.len() <= STACK_MAX
        &&& self.state is Suspended ==> self.stack.len() < STACK_MAX
        &&& 0 <= self.ip
        &&& self.chunk is None <==> self.state is Idle
        &&& self.fault is Some <==> self.state is Faulted
    }

    /// The machine and the answer to the host where execution stops as
    /// `stop` tells. A fault is reported with the source line of its
    /// instruction, and empties the stack.
    pub open spec fn stop(self, stop: Step) -> (VmView, Result<SignalView, InterpretError>)
        recommends
            self.chunk is Some,
            !(stop is Continue),
    {
        match stop {
            Step::Halt { value, ip, stack } => (
                VmView { ip, stack, state: State::Halted, ..self },
                Ok(SignalView::Done(value)),
            ),
            Step::Await { opcode, lhs, rhs, ip, stack } => (
                VmView { ip, stack, state: State::Suspended, ..self },
                Ok(SignalView::Arithmetic { opcode, lhs, rhs }),
            ),
            Step::Fault { fault, offset, ip } => (
                VmView {
                    ip,
                    stack: Seq::empty(),
                    state: State::Faulted,
                    fault: Some(fault),
                    diagnostics: self.diagnostics.push(
                        fault_report(line_at(self.chunk->0.lines, offset), fault),
                    ),
                    ..self
                },
                Err(InterpretError::RuntimeError),
            ),
            Step::Continue { ip, stack } => (
                VmView { ip, stack, ..self },
                Err(InterpretError::RuntimeError),
            ),
        }
    }

    /// The machine after one instruction, and the answer to the host where
    /// the instruction stops execution. At the end of the code the machine
    /// halts and surfaces no value.
    pub open spec fn step(self) -> (VmView, Option<Result<SignalView, InterpretError>>)
        recommends
            self.chunk is Some,
    {
        let chunk = self.chunk->0;
        if 0 <= self.ip < chunk.code.len() {
            match step(chunk, self.ip, self.stack) {
                Step::Continue { ip, stack } => (VmView { ip, stack, ..self }, None),
                stop => (self.stop(stop).0, Some(self.stop(stop).1)),
            }
        } else {
            let halt = Step::Halt { value: None, ip: self.ip, stack: self.stack };
            (self.stop(halt).0, Some(self.stop(halt).1))
        }
    }

    /// The machine and the answer to the host after execution from where the
    /// machine stands has stopped.
    pub open spec fn run(self) -> (VmView, Result<SignalView, InterpretError>)
        recommends
            self.chunk is Some,
    {
        self.stop(run(self.chunk->0, self.ip, self.stack))
    }

    /// The machine and the answer to the host after execution with a host
    /// that answers every suspension: each time the machine is suspended at
    /// an operation, it is handed the result that `host` gives for it, and
    /// executes on. This is what a host arrives at that calls
    /// [`Vm::resume`] until the machine halts or faults.
    pub open spec fn run_with_host(self, host: spec_fn(Opcode, u64, u64) -> u64) -> (
        VmView,
        Result<SignalView, InterpretError>,
    )
        recommends
            self.chunk is Some,
    {
        self.stop(run_with_host(self.chunk->0, self.ip, self.stack, host))
    }

    /// The machine and the answer to the host after `text` was compiled and
    /// executed with a host that answers every suspension.
    pub open spec fn interpret_with_host(
        self,
        text: Seq<char>,
        numbers: Seq<u64>,
        host: spec_fn(Opcode, u64, u64) -> u64,
    ) -> (VmView, Result<SignalView, InterpretError>) {
        let done = CompilerView::start(text, numbers).compile();
        if done.front.parser.had_error {
            self.interpret(text, numbers)
        } else {
            self.load(done.chunk).run_with_host(host)
        }
    }

    /// The machine that starts to execute `chunk`: the instruction pointer is
    /// at the start, earlier diagnostics are dropped, the stack is kept.
    pub open spec fn load(self, chunk: ChunkView) -> VmView {
        VmView {
            chunk: Some(chunk),
            ip: 0,
            state: State::Running,
            fault: None,
            diagnostics: Seq::empty(),
            ..self
        }
    }

    /// The machine and the answer to the host after `text` was compiled and
    /// executed. `numbers` holds the values of the number tokens of `text`,
    /// in their order. A text that does not compile leaves the machine
    /// idle, with the reports of the compiler.
    pub open spec fn interpret(self, text: Seq<char>, numbers: Seq<u64>) -> (
        VmView,
        Result<SignalView, InterpretError>,
    ) {
        let done = CompilerView::start(text, numbers).compile();
        if done.front.parser.had_error {
            (
                VmView {
                    chunk: None,
                    ip: 0,
                    state: State::Idle,
                    fault: None,
                    diagnostics: done.front.parser.diagnostics,
                    ..self
                },
                Err(InterpretError::CompileError),
            )
        } else {
            self.load(done.chunk).run()
        }
    }

    /// The suspended machine after the host has handed in `result`.
    pub open spec fn supply(self, result: u64) -> VmView {
        VmView { stack: self.stack.push(ValueView::Number(result)), state: State::Running, ..self }
    }
}

/// The view of an answer to the host.
pub open spec fn answer_view(answer: Result<Signal, InterpretError>) -> Result<
    SignalView,
    InterpretError,
> {
    match answer {
        Ok(signal) => Ok(signal@),
        Err(error) => Err(error),
    }
}


/// Execution stops in a halt, a suspension or a fault, and its instruction
/// pointer never lies before the one it started from.
pub proof fn lemma_run_stops(chunk: ChunkView, ip: int, stack: Seq<ValueView>)
    ensures
        !(run(chunk, ip, stack) is Continue),
    decreases chunk.code.len() - ip,
{
    if 0 <= ip < chunk.code.len() {
        lemma_step_advances(chunk, ip, stack);
        match step(chunk, ip, stack) {
            Step::Continue { ip: next, stack: pushed } => {
                lemma_run_stops(chunk, next, pushed);
            },
            _ => {},
        }
    }
}

/// Execution with a host that answers goes through an instruction that
/// does not stop it.
pub proof fn lemma_host_continues(
    chunk: ChunkView,
    ip: int,
    stack: Seq<ValueView>,
    host: spec_fn(Opcode, u64, u64) -> u64,
)
    requires
        0 <= ip < chunk.code.len(),
        step(chunk, ip, stack) is Continue,
    ensures
        run_with_host(chunk, ip, stack, host) == run_with_host(
            chunk,
            step(chunk, ip, stack)->Continue_ip,
            step(chunk, ip, stack)->Continue_stack,
            host,
        ),
{
}

/// Execution with a host that answers goes through an arithmetic
/// instruction on two numbers: the answer of the host takes their place.
pub proof fn lemma_host_answers(
    chunk: ChunkView,
    ip: int,
    stack: Seq<ValueView>,
    host: spec_fn(Opcode, u64, u64) -> u64,
)
    requires
        0 <= ip < chunk.code.len(),
        step(chunk, ip, stack) is Await,
    ensures
        ({
            let at = step(chunk, ip, stack);
            run_with_host(chunk, ip, stack, host) == run_with_host(
                chunk,
                ip + 1,
                at->Await_stack.push(
                    ValueView::Number(host(at->Await_opcode, at->Await_lhs, at->Await_rhs)),
                ),
                host,
            )
        }),
{
}

/// Execution with a host that answers stops in a halt or a fault.
pub proof fn lemma_host_run_stops(
    chunk: ChunkView,
    ip: int,
    stack: Seq<ValueView>,
    host: spec_fn(Opcode, u64, u64) -> u64,
)
    ensures
        run_with_host(chunk, ip, stack, host) is Halt || run_with_host(chunk, ip, stack, host)
            is Fault,
    decreases chunk.code.len() - ip,
{
    lemma_run_stops(chunk, ip, stack);
    lemma_run_suspends_later(chunk, ip, stack);
    match run(chunk, ip, stack) {
        Step::Await { opcode, lhs, rhs, ip: next, stack: rest } => {
            lemma_host_run_stops(
                chunk,
                next,
                rest.push(ValueView::Number(host(opcode, lhs, rhs))),
                host,
            );
        },
        _ => {},
    }
}

/// Executing until the machine stops, handing it the answer of the host
/// where it is suspended, and going on in the same way, arrives where
/// execution with a host that answers arrives.
pub proof fn lemma_resume_runs_with_host(vm: VmView, host: spec_fn(Opcode, u64, u64) -> u64)
    requires
        vm.chunk is Some,
    ensures
        match vm.run().1 {
            Ok(SignalView::Arithmetic { opcode, lhs, rhs }) => vm.run().0.supply(
                host(opcode, lhs, rhs),
            ).run_with_host(host) == vm.run_with_host(host),
            _ => vm.run() == vm.run_with_host(host),
        },
{
    let chunk = vm.chunk->0;
    lemma_run_stops(chunk, vm.ip, vm.stack);
    lemma_run_suspends_later(chunk, vm.ip, vm.stack);
    match run(chunk, vm.ip, vm.stack) {
        Step::Await { opcode, lhs, rhs, ip: next, stack: rest } => {
            lemma_host_run_stops(
                chunk,
                next,
                rest.push(ValueView::Number(host(opcode, lhs, rhs))),
                host,
            );
        },
        _ => {},
    }
}

/// Every instruction that does not stop execution moves the instruction
/// pointer forward, and keeps the stack within its capacity.
pub proof fn lemma_step_moves(chunk: ChunkView, offset: int, stack: Seq<ValueView>)
    requires
        0 <= offset < chunk.code.len(),
        stack.len() <= STACK_MAX,
    ensures
        match step(chunk, offset, stack) {
            Step::Continue { ip, stack: after } => offset < ip <= chunk.code.len() && after.len()
                <= STACK_MAX,
            Step::Halt { value, ip, stack: after } => offset < ip <= chunk.code.len()
                && after.len() < stack.len(),
            Step::Await { opcode, lhs, rhs, ip, stack: after } => offset < ip <= chunk.code.len()
                && after.len() + 2 == stack.len(),
            Step::Fault { fault, offset: at, ip } => at == offset,
        },
{
}

/// An answer of the machine is an error exactly when execution faults. The
/// fault empties the stack and adds one report; a halt or a suspension adds
/// none.
pub proof fn lemma_fault_empties_stack(vm: VmView)
    requires
        vm.chunk is Some,
    ensures
        vm.run().1 is Err <==> run(vm.chunk->0, vm.ip, vm.stack) is Fault,
        vm.run().1 is Err ==> {
            &&& vm.run().1 == Err::<SignalView, InterpretError>(InterpretError::RuntimeError)
            &&& vm.run().0.stack.len() == 0
            &&& vm.run().0.state is Faulted
            &&& vm.run().0.fault is Some
            &&& vm.run().0.diagnostics.len() == vm.diagnostics.len() + 1
        },
        vm.run().1 is Ok ==> vm.run().0.diagnostics == vm.diagnostics,
{
    lemma_run_stops(vm.chunk->0, vm.ip, vm.stack);
}

/// `Negate` faults on every value that is no number: execution from there
/// ends in a runtime error, whatever the code behind it.
pub proof fn lemma_negate_needs_number(chunk: ChunkView, offset: int, stack: Seq<ValueView>)
    requires
        0 <= offset < chunk.code.len(),
        chunk.code[offset] == Opcode::Negate.byte(),
        stack.len() > 0,
        !(stack.last() is Number),
    ensures
        run(chunk, offset, stack) == (Step::Fault {
            fault: Fault::OperandNotNumber,
            offset,
            ip: offset + 1,
        }),
{
}

/// `Add` on two strings takes both off the stack and pushes the first
/// followed by the second: the stack is one value lower.
pub proof fn lemma_add_concatenates(
    chunk: ChunkView,
    offset: int,
    stack: Seq<ValueView>,
    a: Seq<char>,
    b: Seq<char>,
)
    requires
        0 <= offset < chunk.code.len(),
        chunk.code[offset] == Opcode::Add.byte(),
        stack.len() >= 2,
        stack[stack.len() - 2] == ValueView::String(a),
        stack[stack.len() - 1] == ValueView::String(b),
    ensures
        step(chunk, offset, stack) == (Step::Continue {
            ip: offset + 1,
            stack: stack.take(stack.len() - 2).push(ValueView::String(a + b)),
        }),
        stack.take(stack.len() - 2).push(ValueView::String(a + b)).len() == stack.len() - 1,
{
}

/// The machine at an `Add` on two strings goes on to the next instruction
/// with both strings taken off the stack and the first followed by the
/// second pushed: the stack is one value lower, the values below are as
/// they were, and so are the chunk with its constants and all else.
pub proof fn lemma_add_joins_strings(vm: VmView, a: Seq<char>, b: Seq<char>)
    requires
        vm.chunk is Some,
        0 <= vm.ip < vm.chunk->0.code.len(),
        vm.chunk->0.code[vm.ip] == Opcode::Add.byte(),
        vm.stack.len() >= 2,
        vm.stack[vm.stack.len() - 2] == ValueView::String(a),
        vm.stack[vm.stack.len() - 1] == ValueView::String(b),
    ensures
        vm.step().1 is None,
        vm.step().0 == (VmView {
            ip: vm.ip + 1,
            stack: vm.stack.take(vm.stack.len() - 2).push(ValueView::String(a + b)),
            ..vm
        }),
        vm.step().0.stack.len() == vm.stack.len() - 1,
        vm.step().0.stack.last() == ValueView::String(a + b),
        vm.step().0.stack.take(vm.stack.len() - 2) == vm.stack.take(vm.stack.len() - 2),
        vm.step().0.chunk == vm.chunk,
{
    lemma_add_concatenates(vm.chunk->0, vm.ip, vm.stack, a, b);
    let rest = vm.stack.take(vm.stack.len() - 2);
    assert(rest.push(ValueView::String(a + b)).take(vm.stack.len() - 2) =~= rest);
}

/// A load instruction, as [`constant_instruction`] writes it, pushes the
/// constant it was written for, in the short form and in the long form.
pub proof fn lemma_load_reads_back(chunk: ChunkView, offset: int, stack: Seq<ValueView>, index: u32)
    requires
        0 <= offset,
        offset + constant_instruction(index).len() <= chunk.code.len(),
        chunk.code.subrange(offset, offset + constant_instruction(index).len())
            == constant_instruction(index),
        index < chunk.constants.len(),
        stack.len() < STACK_MAX,
    ensures
        step(chunk, offset, stack) == (Step::Continue {
            ip: offset + constant_instruction(index).len(),
            stack: stack.push(chunk.constants[index as int]),
        }),
        constant_instruction(index).len() == if index < 256 {
            2int
        } else {
            5int
        },
{
    lemma_constant_instruction_at(chunk.code, offset, index);
}

/// Pushes a value.
fn push_value(stack: &mut Vec<Value>, value: Value)
    ensures
        final(stack)@.len() == old(stack)@.len() + 1,
        value_views(final(stack)@) == value_views(old(stack)@).push(value@),
{
    stack.push(value);
    assert(value_views(stack@) =~= value_views(old(stack)@).push(value@));
}

/// Takes the top value off.
fn pop_value(stack: &mut Vec<Value>) -> (value: Value)
    requires
        old(stack)@.len() > 0,
    ensures
        final(stack)@.len() == old(stack)@.len() - 1,
        value_views(final(stack)@) == value_views(old(stack)@).drop_last(),
        value@ == value_views(old(stack)@).last(),
{
    let popped = stack.pop();
    assert(value_views(stack@) =~= value_views(old(stack)@).drop_last());
    match popped {
        Some(value) => value,
        None => Value::Nil,
    }
}

/// The numbers that the two topmost values hold, the lower one first.
fn top_numbers(stack: &Vec<Value>) -> (numbers: Option<(u64, u64)>)
    requires
        stack@.len() >= 2,
    ensures
        numbers == match (
            value_views(stack@)[stack@.len() - 2],
            value_views(stack@)[stack@.len() - 1],
        ) {
            (ValueView::Number(a), ValueView::Number(b)) => Some((a, b)),
            _ => None,
        },
{
    let depth = stack.len();
    match (stack[depth - 2].as_f64(), stack[depth - 1].as_f64()) {
        (Some(a), Some(b)) => Some((a, b)),
        _ => None,
    }
}

impl Vm {
    /// The invariant of the machine, see [`VmView::wf`].
    pub open spec fn wf(&self) -> bool {
        self@.wf()
    }

    /// A machine with an empty stack and no chunk.
    pub fn new() -> (vm: Vm)
        ensures
            vm@ == (VmView {
                chunk: None,
                ip: 0,
                stack: Seq::empty(),
                state: State::Idle,
                fault: None,
                diagnostics: Seq::empty(),
            }),
            vm.wf(),
    {
        let vm = Vm {
            chunk: None,
            ip: 0,
            stack: Vec::new(),
            state: State::Idle,
            fault: None,
            diagnostics: Vec::new(),
        };
        assert(vm@.stack =~= Seq::empty());
        assert(vm@.diagnostics =~= Seq::empty());
        vm
    }

    /// Where the machine stands.
    pub fn state(&self) -> (state: State)
        ensures
            state == self@.state,
    {
        self.state
    }

    /// Why the last execution faulted, where it did: a fault in the code
    /// itself is told apart from an operation on values of the wrong kind.
    pub fn fault(&self) -> (fault: Option<Fault>)
        ensures
            fault == self@.fault,
    {
        self.fault
    }

    /// The value stack, the top last.
    pub fn stack(&self) -> (stack: &Vec<Value>)
        ensures
            value_views(stack@) == self@.stack,
    {
        &self.stack
    }

    /// The reports of the errors of the last program, in the order in which
    /// they were met.
    pub fn diagnostics(&self) -> (diagnostics: &Vec<String>)
        ensures
            string_views(diagnostics@) == self@.diagnostics,
    {
        &self.diagnostics
    }

    /// Compiles `source` and executes it. `numbers` holds the values of the
    /// number tokens of `source`, in their order (see
    /// [`crate::scanner::number_literals`]).
    pub fn interpret(&mut self, source: &str, numbers: Vec<u64>) -> (answer: Result<
        Signal,
        InterpretError,
    >)
        requires
            old(self).wf(),
        ensures
            final(self).wf(),
            (final(self)@, answer_view(answer)) == old(self)@.interpret(source@, numbers@),
    {
        self.ip = 0;
        let mut compiler = Compiler::new(source, numbers);
        match compiler.compile() {
            Ok(chunk) => self.execute(chunk),
            Err(error) => {
                self.chunk = None;
                self.state = State::Idle;
                self.fault = None;
                self.diagnostics = compiler.take_diagnostics();
                Err(error)
            },
        }
    }

    /// The chunk that is loaded.
    pub fn chunk(&self) -> (chunk: Option<&Chunk>)
        ensures
            match chunk {
                Some(chunk) => self@.chunk == Some(chunk@),
                None => self@.chunk is None,
            },
    {
        self.chunk.as_ref()
    }

    /// The offset of the next instruction.
    pub fn ip(&self) -> (ip: usize)
        ensures
            ip == self@.ip,
    {
        self.ip
    }

    /// Loads `chunk`, ready to be executed from its start. The stack stays
    /// as the last program left it.
    pub fn load(&mut self, chunk: Chunk)
        requires
            old(self).wf(),
        ensures
            final(self).wf(),
            final(self)@ == old(self)@.load(chunk@),
    {
        self.ip = 0;
        self.chunk = Some(chunk);
        self.state = State::Running;
        self.fault = None;
        self.diagnostics = Vec::new();
        assert(self@.diagnostics =~= Seq::empty());
    }

    /// Executes `chunk` from its start, on the stack as the last program
    /// left it.
    pub fn execute(&mut self, chunk: Chunk) -> (answer: Result<Signal, InterpretError>)
        requires
            old(self).wf(),
        ensures
            final(self).wf(),
            (final(self)@, answer_view(answer)) == old(self)@.load(chunk@).run(),
    {
        self.load(chunk);
        self.run()
    }

    /// Hands in the result of the arithmetic operation that the machine is
    /// suspended at: the result is pushed, and execution can go on.
    pub fn supply(&mut self, result: u64)
        requires
            old(self).wf(),
            old(self)@.state is Suspended,
        ensures
            final(self).wf(),
            final(self)@ == old(self)@.supply(result),
    {
        push_value(&mut self.stack, Value::Number(result));
        self.state = State::Running;
    }

    /// Hands in the result of the arithmetic operation that the machine is
    /// suspended at, and executes on.
    pub fn resume(&mut self, result: u64) -> (answer: Result<Signal, InterpretError>)
        requires
            old(self).wf(),
            old(self)@.state is Suspended,
        ensures
            final(self).wf(),
            (final(self)@, answer_view(answer)) == old(self)@.supply(result).run(),
    {
        self.supply(result);
        self.run()
    }

    /// Ends execution with a runtime error at the instruction at `offset`:
    /// the error is reported with the source line of the instruction, and
    /// the stack is emptied.
    fn runtime_error(&mut self, fault: Fault, offset: usize, ip: usize) -> (answer: Result<
        Signal,
        InterpretError,
    >)
        requires
            old(self).chunk is Some,
        ensures
            answer == Err::<Signal, InterpretError>(InterpretError::RuntimeError),
            final(self)@ == (VmView {
                ip: ip as int,
                stack: Seq::empty(),
                state: State::Faulted,
                fault: Some(fault),
                diagnostics: old(self)@.diagnostics.push(
                    fault_report(line_at(old(self)@.chunk->0.lines, offset as int), fault),
                ),
                ..old(self)@
            }),
    {
        let line = match &self.chunk {
            Some(chunk) => chunk.line_for_instruction_n(offset),
            None => 0,
        };
        let mut report = String::from_str("[line ");
        push_decimal(&mut report, line);
        report.append("] Error: ");
        report.append(fault.to_message());
        self.diagnostics.push(report);
        self.reset_stack();
        self.state = State::Faulted;
        self.fault = Some(fault);
        self.ip = ip;
        assert(self@.diagnostics =~= old(self)@.diagnostics.push(
            fault_report(line_at(old(self)@.chunk->0.lines, offset as int), fault),
        ));
        Err(InterpretError::RuntimeError)
    }

    /// Empties the stack.
    fn reset_stack(&mut self)
        ensures
            final(self).stack@.len() == 0,
            final(self)@ == (VmView { stack: Seq::empty(), ..old(self)@ }),
    {
        self.stack.clear();
        assert(self@.stack =~= Seq::empty());
    }

    /// Joins the two strings on top of the stack into one: both are taken
    /// off, and the lower one followed by the upper one is pushed. The
    /// values below them and all else of the machine stay as they are.
    pub fn concatenate(&mut self)
        requires
            old(self)@.stack.len() >= 2,
            old(self)@.stack[old(self)@.stack.len() - 2] is String,
            old(self)@.stack[old(self)@.stack.len() - 1] is String,
        ensures
            final(self)@.stack.len() == old(self)@.stack.len() - 1,
            old(self).wf() ==> final(self).wf(),
            final(self)@ == (VmView {
                stack: old(self)@.stack.take(old(self)@.stack.len() - 2).push(
                    ValueView::String(
                        old(self)@.stack[old(self)@.stack.len() - 2]->String_0 + old(
                            self,
                        )@.stack[old(self)@.stack.len() - 1]->String_0,
                    ),
                ),
                ..old(self)@
            }),
    {
        let b = pop_value(&mut self.stack);
        let a = pop_value(&mut self.stack);
        let joined = match (a.as_string(), b.as_string()) {
            (Some(a), Some(b)) => {
                let mut a = a;
                a.append(b.as_str());
                a
            },
            _ => String::new(),
        };
        push_value(&mut self.stack, Value::Obj(Obj::String(joined)));
        assert(old(self)@.stack.drop_last().drop_last() =~= old(self)@.stack.take(
            old(self)@.stack.len() - 2,
        ));
    }

    /// Executes one instruction. Where the instruction stops execution, the
    /// answer to the host is returned; else execution can go on.
    pub fn step(&mut self) -> (answer: Option<Result<Signal, InterpretError>>)
        requires
            old(self).wf(),
            old(self)@.state is Running,
        ensures
            final(self).wf(),
            final(self)@ == old(self)@.step().0,
            match answer {
                Some(stopped) => old(self)@.step().1 == Some(answer_view(stopped)),
                None => old(self)@.step().1 is None && final(self)@.state is Running,
            },
    {
        let ghost chunk_view = self@.chunk->0;
        let ghost before = self@.stack;
        let offset = self.ip;
        let depth = self.stack.len();
        let code_len = match &self.chunk {
            Some(chunk) => chunk.code.len(),
            None => 0,
        };
        if offset >= code_len {
            self.state = State::Halted;
            return Some(Ok(Signal::Done(None)));
        }
        let byte = match &self.chunk {
            Some(chunk) => chunk.code[offset],
            None => 0,
        };
        let opcode = match Opcode::from_byte(byte) {
            Some(opcode) => opcode,
            None => {
                return Some(self.runtime_error(Fault::MalformedCode, offset, offset + 1));
            },
        };
        match opcode {
            Opcode::Constant | Opcode::ConstantLong => {
                let (operand, next) = match &self.chunk {
                    Some(chunk) => read_operand(chunk, opcode, offset),
                    None => (None, offset),
                };
                let constant = match (&self.chunk, operand) {
                    (Some(chunk), Some(index)) => if (index as usize) < chunk.constants.len() {
                        Some(chunk.constants[index as usize].clone())
                    } else {
                        None
                    },
                    _ => None,
                };
                match constant {
                    Some(value) => {
                        if depth >= STACK_MAX {
                            return Some(self.runtime_error(Fault::StackOverflow, offset, next));
                        }
                        push_value(&mut self.stack, value);
                        self.ip = next;
                    },
                    None => {
                        return Some(self.runtime_error(Fault::MalformedCode, offset, offset + 1));
                    },
                }
            },
            Opcode::Nil | Opcode::True | Opcode::False => {
                if depth >= STACK_MAX {
                    return Some(self.runtime_error(Fault::StackOverflow, offset, offset + 1));
                }
                let value = match opcode {
                    Opcode::Nil => Value::Nil,
                    Opcode::True => Value::Bool(true),
                    _ => Value::Bool(false),
                };
                push_value(&mut self.stack, value);
                self.ip = offset + 1;
            },
            Opcode::Return => {
                if depth < 1 {
                    return Some(self.runtime_error(Fault::MalformedCode, offset, offset + 1));
                }
                let value = pop_value(&mut self.stack);
                self.ip = offset + 1;
                self.state = State::Halted;
                return Some(Ok(Signal::Done(Some(value))));
            },
            Opcode::Not => {
                if depth < 1 {
                    return Some(self.runtime_error(Fault::MalformedCode, offset, offset + 1));
                }
                let value = pop_value(&mut self.stack);
                push_value(&mut self.stack, Value::Bool(value.is_falsey()));
                self.ip = offset + 1;
            },
            Opcode::Negate => {
                if depth < 1 {
                    return Some(self.runtime_error(Fault::MalformedCode, offset, offset + 1));
                }
                match self.stack[depth - 1].as_f64() {
                    Some(bits) => {
                        let _ = pop_value(&mut self.stack);
                        push_value(&mut self.stack, Value::Number(number::negate(bits)));
                        self.ip = offset + 1;
                    },
                    None => {
                        return Some(self.runtime_error(Fault::OperandNotNumber, offset, offset + 1));
                    },
                }
            },
            Opcode::Equal => {
                if depth < 2 {
                    return Some(self.runtime_error(Fault::MalformedCode, offset, offset + 1));
                }
                let b = pop_value(&mut self.stack);
                let a = pop_value(&mut self.stack);
                push_value(&mut self.stack, Value::Bool(a == b));
                self.ip = offset + 1;
                assert(before.drop_last().drop_last() =~= before.take(before.len() - 2));
            },
            Opcode::Add => {
                if depth < 2 {
                    return Some(self.runtime_error(Fault::MalformedCode, offset, offset + 1));
                }
                if self.stack[depth - 1].is_obj_type(ObjType::String)
                    && self.stack[depth - 2].is_obj_type(ObjType::String) {
                    self.concatenate();
                    self.ip = offset + 1;
                } else {
                    match top_numbers(&self.stack) {
                        Some((lhs, rhs)) => {
                            let _ = pop_value(&mut self.stack);
                            let _ = pop_value(&mut self.stack);
                            self.ip = offset + 1;
                            self.state = State::Suspended;
                            assert(before.drop_last().drop_last() =~= before.take(
                                before.len() - 2,
                            ));
                            return Some(Ok(Signal::Arithmetic { opcode, lhs, rhs }));
                        },
                        None => {
                            return Some(self.runtime_error(
                                Fault::OperandsNotAddable,
                                offset,
                                offset + 1,
                            ));
                        },
                    }
                }
            },
            Opcode::Subtract | Opcode::Multiply | Opcode::Divide | Opcode::Greater | Opcode::Less => {
                if depth < 2 {
                    return Some(self.runtime_error(Fault::MalformedCode, offset, offset + 1));
                }
                match top_numbers(&self.stack) {
                    Some((lhs, rhs)) => {
                        let _ = pop_value(&mut self.stack);
                        let _ = pop_value(&mut self.stack);
                        self.ip = offset + 1;
                        assert(before.drop_last().drop_last() =~= before.take(before.len() - 2));
                        match opcode {
                            Opcode::Greater => {
                                push_value(
                                    &mut self.stack,
                                    Value::Bool(number::greater(lhs, rhs)),
                                );
                            },
                            Opcode::Less => {
                                push_value(&mut self.stack, Value::Bool(number::less(lhs, rhs)));
                            },
                            _ => {
                                self.state = State::Suspended;
                                return Some(Ok(Signal::Arithmetic { opcode, lhs, rhs }));
                            },
                        }
                    },
                    None => {
                        return Some(self.runtime_error(Fault::OperandsNotNumbers, offset, offset + 1));
                    },
                }
            },
        }
        None
    }

    /// Executes instructions from where the machine stands until it halts,
    /// suspends or faults.
    pub fn run(&mut self) -> (answer: Result<Signal, InterpretError>)
        requires
            old(self).wf(),
            old(self)@.state is Running,
        ensures
            final(self).wf(),
            (final(self)@, answer_view(answer)) == old(self)@.run(),
    {
        loop
            invariant
                self.wf(),
                self@.state is Running,
                self@.chunk == old(self)@.chunk,
                self@.fault == old(self)@.fault,
                self@.diagnostics == old(self)@.diagnostics,
                run(self@.chunk->0, self@.ip, self@.stack) == run(
                    old(self)@.chunk->0,
                    old(self)@.ip,
                    old(self)@.stack,
                ),
            decreases self@.chunk->0.code.len() - self@.ip,
        {
            proof {
                if 0 <= self@.ip < self@.chunk->0.code.len() {
                    lemma_step_moves(self@.chunk->0, self@.ip, self@.stack);
                }
            }
            if let Some(answer) = self.step() {
                return answer;
            }
        }
    }
}

/// Reads the operand of the load instruction `opcode` at `offset`, and tells
/// where the next instruction starts.
pub fn read_operand(chunk: &Chunk, opcode: Opcode, offset: usize) -> (read: (Option<u32>, usize))
    requires
        offset < chunk.code@.len(),
        opcode == Opcode::Constant || opcode == Opcode::ConstantLong,
    ensures
        read.0 == if opcode == Opcode::Constant {
            short_operand(chunk.code@, offset + 1)
        } else {
            long_operand(chunk.code@, offset + 1)
        },
        read.0 is Some ==> read.1 == if opcode == Opcode::Constant {
            offset + 2
        } else {
            offset + 5
        },
        read.0 is Some ==> read.1 <= chunk.code@.len(),
{
    let room = chunk.code.len() - offset;
    match opcode {
        Opcode::Constant => if room >= 2 {
            (Some(chunk.code[offset + 1] as u32), offset + 2)
        } else {
            (None, offset)
        },
        _ => if room >= 5 {
            (
                Some(
                    index_of_bytes(
                        chunk.code[offset + 1],
                        chunk.code[offset + 2],
                        chunk.code[offset + 3],
                        chunk.code[offset + 4],
                    ),
                ),
                offset + 5,
            )
        } else {
            (None, offset)
        },
    }
}

} // verus!
