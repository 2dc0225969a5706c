use rlox::chunk::Chunk;
use rlox::compiler::Compiler;
use rlox::opcode::Opcode;
use rlox::scanner::number_literals;
use rlox::value::{Obj, Value};
use rlox::vm::{InterpretError, Signal, State, Vm};

fn values_of(source: &str) -> Vec<u64> {
    number_literals(source)
        .iter()
        .map(|text| text.parse::<f64>().unwrap().to_bits())
        .collect()
}

fn arithmetic(opcode: Opcode, lhs: u64, rhs: u64) -> u64 {
    let a = f64::from_bits(lhs);
    let b = f64::from_bits(rhs);
    let result = match opcode {
        Opcode::Add => a + b,
        Opcode::Subtract => a - b,
        Opcode::Multiply => a * b,
        Opcode::Divide => a / b,
        other => panic!("no arithmetic instruction: {:?}", other),
    };
    result.to_bits()
}

fn drive(vm: &mut Vm, first: Result<Signal, InterpretError>) -> Result<Option<Value>, InterpretError> {
    let mut answer = first;
    loop {
        match answer {
            Ok(Signal::Done(value)) => return Ok(value),
            Ok(Signal::Arithmetic { opcode, lhs, rhs }) => {
                assert_eq!(vm.state(), State::Suspended);
                answer = vm.resume(arithmetic(opcode, lhs, rhs));
            }
            Err(error) => return Err(error),
        }
    }
}

fn evaluate(source: &str) -> f64 {
    let mut vm = Vm::new();
    let first = vm.interpret(source, values_of(source));
    match drive(&mut vm, first) {
        Ok(Some(Value::Number(bits))) => {
            assert_eq!(vm.state(), State::Halted);
            assert!(vm.stack().is_empty());
            f64::from_bits(bits)
        }
        other => panic!("no number: {:?} ({:?})", other, vm.diagnostics()),
    }
}

fn compile(source: &str) -> (Result<Chunk, InterpretError>, Vec<String>) {
    let mut compiler = Compiler::new(source, values_of(source));
    let result = compiler.compile();
    let diagnostics = compiler.diagnostics().clone();
    (result, diagnostics)
}

#[test]
fn multiplication_binds_tighter_than_addition() {
    assert_eq!(evaluate("1 + 2 * 3"), 1.0 + 2.0 * 3.0);
    assert_eq!(evaluate("2 * 3 + 1"), 7.0);
    assert_eq!(evaluate("1 - 6 / 3"), -1.0);
    assert_eq!(evaluate("1.5 + 2.25 * 4"), 1.5 + 2.25 * 4.0);
}

#[test]
fn operators_of_one_level_associate_to_the_left() {
    assert_eq!(evaluate("10 - 4 - 3"), (10.0 - 4.0) - 3.0);
    assert_eq!(evaluate("8 / 4 / 2"), (8.0 / 4.0) / 2.0);
    assert_eq!(evaluate("2 * 3 / 4 * 5"), ((2.0 * 3.0) / 4.0) * 5.0);
    assert_eq!(evaluate("0.1 + 0.2 + 0.3"), (0.1 + 0.2) + 0.3);
    assert_eq!(evaluate("0.1 + (0.2 + 0.3)"), 0.1 + (0.2 + 0.3));
    assert_ne!(evaluate("0.1 + 0.2 + 0.3"), evaluate("0.1 + (0.2 + 0.3)"));
}

#[test]
fn unary_minus_binds_tighter_than_binary_operators() {
    assert_eq!(evaluate("-2 * 3"), -6.0);
    assert_eq!(evaluate("2 * -3"), -6.0);
    assert_eq!(evaluate("-2 - -3"), 1.0);
    assert_eq!(evaluate("--3"), 3.0);
    assert_eq!(evaluate("-(1 + 2)"), -3.0);
    assert_eq!(evaluate("- 0").to_bits(), (-0.0f64).to_bits());
}

#[test]
fn parentheses_group() {
    assert_eq!(evaluate("(1 + 2) * 3"), 9.0);
    assert_eq!(evaluate("((1))"), 1.0);
    assert_eq!(evaluate("2 * (3 + 4) * (5 - 1)"), 56.0);
    assert_eq!(evaluate("(1 + 2) / (4 - 1)"), 1.0);
}

#[test]
fn division_by_zero_follows_the_number_format() {
    assert_eq!(evaluate("1 / 0"), f64::INFINITY);
    assert_eq!(evaluate("-1 / 0"), f64::NEG_INFINITY);
    assert!(evaluate("0 / 0").is_nan());
}

#[test]
fn sum_of_two_decimals_prints_as_expected() {
    let result = evaluate("1.2 + 3.4");
    assert_eq!(result.to_bits(), (1.2f64 + 3.4f64).to_bits());
    assert_eq!(format!("{}", result), "4.6");
}

#[test]
fn sum_of_two_decimals_pushes_both_and_adds() {
    let source = "1.2 + 3.4";
    let mut vm = Vm::new();
    let first = vm.interpret(source, values_of(source));
    match first {
        Ok(Signal::Arithmetic { opcode, lhs, rhs }) => {
            assert_eq!(opcode, Opcode::Add);
            assert_eq!(lhs, 1.2f64.to_bits());
            assert_eq!(rhs, 3.4f64.to_bits());
        }
        other => panic!("not suspended: {:?}", other),
    }
    assert_eq!(vm.state(), State::Suspended);
    assert!(vm.stack().is_empty());
    match vm.resume((1.2f64 + 3.4f64).to_bits()) {
        Ok(Signal::Done(Some(Value::Number(bits)))) => assert_eq!(bits, 4.6f64.to_bits()),
        other => panic!("not done: {:?}", other),
    }
    assert_eq!(vm.state(), State::Halted);
}

#[test]
fn compiled_code_is_the_postfix_form() {
    let (result, diagnostics) = compile("1.2 + 3.4 / 5.6");
    let chunk = result.unwrap();
    assert!(diagnostics.is_empty());
    assert_eq!(chunk.code, vec![1, 0, 1, 1, 1, 2, 6, 4, 0]);
    assert_eq!(chunk.constants.len(), 3);
    assert_eq!(chunk.constants[0].as_f64(), Some(1.2f64.to_bits()));
    assert_eq!(chunk.constants[1].as_f64(), Some(3.4f64.to_bits()));
    assert_eq!(chunk.constants[2].as_f64(), Some(5.6f64.to_bits()));
    assert_eq!(chunk.lines, vec![(1, 0)]);
    assert_eq!(chunk.name, "main");
}

#[test]
fn equal_literals_take_separate_slots() {
    let (result, _) = compile("2 + 2");
    let chunk = result.unwrap();
    assert_eq!(chunk.constants.len(), 2);
    assert_eq!(chunk.code, vec![1, 0, 1, 1, 4, 0]);
}

#[test]
fn code_carries_the_line_of_each_token() {
    let (result, _) = compile("1 +\n2\n\n* 3");
    let chunk = result.unwrap();
    assert_eq!(chunk.code, vec![1, 0, 1, 1, 1, 2, 7, 4, 0]);
    assert_eq!(chunk.lines, vec![(1, 0), (2, 2), (4, 4)]);
    assert_eq!(chunk.line_for_instruction_n(0), 1);
    assert_eq!(chunk.line_for_instruction_n(3), 2);
    assert_eq!(chunk.line_for_instruction_n(8), 4);
}

#[test]
fn unterminated_group_is_a_compile_error() {
    let (result, diagnostics) = compile("(1 + 2");
    assert!(matches!(result, Err(InterpretError::CompileError)));
    assert_eq!(diagnostics, vec!["[line 1] Error at end: Expect ')' after expression.".to_string()]);

    let (result, diagnostics) = compile("(1 +\n 2\n");
    assert!(matches!(result, Err(InterpretError::CompileError)));
    assert_eq!(diagnostics, vec!["[line 3] Error at end: Expect ')' after expression.".to_string()]);
}

#[test]
fn missing_operand_is_a_compile_error() {
    let (result, diagnostics) = compile("1 +");
    assert!(matches!(result, Err(InterpretError::CompileError)));
    assert_eq!(diagnostics, vec!["[line 1] Error at end: Expect expression.".to_string()]);

    let mut vm = Vm::new();
    let answer = vm.interpret("1 +", values_of("1 +"));
    assert!(matches!(answer, Err(InterpretError::CompileError)));
    assert_eq!(vm.state(), State::Idle);
    assert_eq!(vm.diagnostics(), &vec!["[line 1] Error at end: Expect expression.".to_string()]);
}

#[test]
fn empty_source_is_a_compile_error() {
    let (result, diagnostics) = compile("");
    assert!(matches!(result, Err(InterpretError::CompileError)));
    assert_eq!(diagnostics, vec!["[line 1] Error at end: Expect expression.".to_string()]);
    let (result, _) = compile("  // nothing here\n");
    assert!(matches!(result, Err(InterpretError::CompileError)));
}

#[test]
fn trailing_tokens_are_a_compile_error() {
    let (result, diagnostics) = compile("1 2");
    assert!(matches!(result, Err(InterpretError::CompileError)));
    assert_eq!(diagnostics, vec!["[line 1] Error at '2': Expect end of expression.".to_string()]);

    let (result, diagnostics) = compile("1 + 2)");
    assert!(matches!(result, Err(InterpretError::CompileError)));
    assert_eq!(diagnostics, vec!["[line 1] Error at ')': Expect end of expression.".to_string()]);
}

#[test]
fn token_that_starts_no_expression_is_reported_at_the_next_token() {
    let (result, diagnostics) = compile("* 2");
    assert!(matches!(result, Err(InterpretError::CompileError)));
    assert_eq!(diagnostics, vec!["[line 1] Error at '2': Expect expression.".to_string()]);
}

#[test]
fn only_the_first_error_is_reported() {
    let (result, diagnostics) = compile("(1 + \n + 2 3 4");
    assert!(matches!(result, Err(InterpretError::CompileError)));
    assert_eq!(diagnostics.len(), 1);
    assert_eq!(diagnostics[0], "[line 2] Error at '2': Expect expression.");
}

#[test]
fn scan_errors_are_compile_errors() {
    let (result, diagnostics) = compile("1 + @");
    assert!(matches!(result, Err(InterpretError::CompileError)));
    assert_eq!(diagnostics, vec!["[line 1] Error at '+': Unexpected character: @".to_string()]);

    let (result, diagnostics) = compile("1 + \"abc");
    assert!(matches!(result, Err(InterpretError::CompileError)));
    assert_eq!(diagnostics, vec!["[line 1] Error at '+': Unterminated string".to_string()]);

    let (result, diagnostics) = compile("#");
    assert!(matches!(result, Err(InterpretError::CompileError)));
    assert_eq!(diagnostics, vec!["[line 1] Error at end: Unexpected character: #".to_string()]);
}

#[test]
fn scan_errors_are_reported_on_the_line_of_the_text() {
    let (result, diagnostics) = compile("1 +\n@");
    assert!(matches!(result, Err(InterpretError::CompileError)));
    assert_eq!(diagnostics, vec!["[line 2] Error at '+': Unexpected character: @".to_string()]);

    let (_, diagnostics) = compile("\n\n  #");
    assert_eq!(diagnostics, vec!["[line 3] Error at end: Unexpected character: #".to_string()]);

    let (_, diagnostics) = compile("1 + \"abc\ndef\n");
    assert_eq!(diagnostics, vec!["[line 3] Error at '+': Unterminated string".to_string()]);

    let (_, diagnostics) = compile("(\n1\n@\n)");
    assert_eq!(diagnostics, vec!["[line 3] Error at '1': Unexpected character: @".to_string()]);

    let mut vm = Vm::new();
    let answer = vm.interpret("2 *\n\n$", values_of("2 *\n\n$"));
    assert!(matches!(answer, Err(InterpretError::CompileError)));
    assert_eq!(vm.diagnostics(), &vec!["[line 3] Error at '*': Unexpected character: $".to_string()]);
}

#[test]
fn parse_errors_are_reported_on_the_line_of_their_token() {
    let (_, diagnostics) = compile("1 +\n\n)");
    assert_eq!(diagnostics, vec!["[line 3] Error at end: Expect expression.".to_string()]);
    let (_, diagnostics) = compile("1 +\n)\n\n2");
    assert_eq!(diagnostics, vec!["[line 4] Error at '2': Expect expression.".to_string()]);
    let (_, diagnostics) = compile("(1\n2");
    assert_eq!(diagnostics, vec!["[line 2] Error at '2': Expect ')' after expression.".to_string()]);
    let (_, diagnostics) = compile("1\n\n\n2");
    assert_eq!(diagnostics, vec!["[line 4] Error at '2': Expect end of expression.".to_string()]);
}

#[test]
fn literal_without_a_value_is_a_compile_error() {
    let mut compiler = Compiler::new("1 + 2", vec![1.0f64.to_bits()]);
    assert!(matches!(compiler.compile(), Err(InterpretError::CompileError)));
    assert_eq!(
        compiler.diagnostics(),
        &vec!["[line 1] Error at '2': Number literal without a value.".to_string()]
    );
}

#[test]
fn values_are_assigned_by_the_order_of_the_number_tokens() {
    let mut compiler = Compiler::new("7 - 5", vec![10.0f64.to_bits(), 4.0f64.to_bits(), 99]);
    let chunk = compiler.compile().unwrap();
    assert_eq!(chunk.constants[0].as_f64(), Some(10.0f64.to_bits()));
    assert_eq!(chunk.constants[1].as_f64(), Some(4.0f64.to_bits()));
    assert_eq!(chunk.constants.len(), 2);
}

#[test]
fn compiler_is_left_with_an_empty_chunk() {
    let mut compiler = Compiler::new("1", values_of("1"));
    let chunk = compiler.compile().unwrap();
    assert_eq!(chunk.code, vec![1, 0, 0]);
    let reports = compiler.take_diagnostics();
    assert!(reports.is_empty());
    // The source is used up: a second pass finds the end of the input.
    assert!(matches!(compiler.compile(), Err(InterpretError::CompileError)));
}

#[test]
fn machine_runs_one_program_after_another() {
    let mut vm = Vm::new();
    assert_eq!(vm.state(), State::Idle);
    let first = vm.interpret("1 + 1", values_of("1 + 1"));
    assert!(matches!(drive(&mut vm, first), Ok(Some(Value::Number(_)))));
    let second = vm.interpret("(3", values_of("(3"));
    assert!(matches!(second, Err(InterpretError::CompileError)));
    assert_eq!(vm.state(), State::Idle);
    let third = vm.interpret("2 * 4", values_of("2 * 4"));
    match drive(&mut vm, third) {
        Ok(Some(Value::Number(bits))) => assert_eq!(f64::from_bits(bits), 8.0),
        other => panic!("no number: {:?}", other),
    }
    assert!(vm.diagnostics().is_empty());
}

#[test]
fn stack_is_kept_from_one_program_to_the_next() {
    let mut vm = Vm::new();
    let mut chunk = Chunk::new("left".to_string());
    chunk.write(Opcode::True.to_bytes(), 1);
    chunk.write(Opcode::Nil.to_bytes(), 1);
    chunk.write(Opcode::Return.to_bytes(), 1);
    assert!(matches!(vm.execute(chunk), Ok(Signal::Done(Some(Value::Nil)))));
    assert_eq!(vm.stack().len(), 1);
    let next = vm.interpret("5", values_of("5"));
    assert!(matches!(drive(&mut vm, next), Ok(Some(Value::Number(_)))));
    assert_eq!(vm.stack().len(), 1);
    assert!(matches!(vm.stack()[0], Value::Bool(true)));
}

#[test]
fn interpret_error_has_a_name() {
    assert_eq!(InterpretError::CompileError.to_text(), "Compile error");
    assert_eq!(InterpretError::RuntimeError.to_text(), "Runtime error");
}

#[test]
fn string_value_is_owned() {
    let value = Value::Obj(Obj::String("text".to_string()));
    assert_eq!(value.clone().as_string(), Some("text".to_string()));
}

fn nested(levels: usize) -> String {
    let mut source = String::new();
    for _ in 0..levels {
        source.push_str("1 + (");
    }
    source.push('1');
    for _ in 0..levels {
        source.push(')');
    }
    source
}

#[test]
fn nesting_is_bounded_by_the_stack() {
    let source = nested(255);
    assert_eq!(evaluate(&source), 256.0);

    let source = nested(256);
    let mut vm = Vm::new();
    let first = vm.interpret(&source, values_of(&source));
    assert!(matches!(drive(&mut vm, first), Err(InterpretError::RuntimeError)));
    assert!(vm.stack().is_empty());
    assert_eq!(vm.diagnostics(), &vec!["[line 1] Error: Stack overflow".to_string()]);
}

#[test]
fn left_nesting_needs_no_room() {
    let mut source = "1".to_string();
    for _ in 0..2000 {
        source.push_str(" + 1");
    }
    assert_eq!(evaluate(&source), 2001.0);
}

#[test]
fn every_literal_of_an_expression_is_a_number_token() {
    for source in ["1", "1 + 2", "-(3 * 4.5) / (6 - 7) // 8\n", "((9))", "1\n+\n2\n*\n3"] {
        let (result, _) = compile(source);
        assert_eq!(result.unwrap().constants.len(), number_literals(source).len());
    }
}
