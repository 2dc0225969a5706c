use rlox::chunk::Chunk;
use rlox::number::{equal, greater, less, nan, negate};
use rlox::opcode::Opcode;
use rlox::value::{Obj, ObjType, Value};
use rlox::vm::{Fault, InterpretError, Signal, State, Vm, STACK_MAX};

fn chunk_of(code: &[Opcode]) -> Chunk {
    let mut chunk = Chunk::new("test".to_string());
    for opcode in code {
        chunk.write(opcode.to_bytes(), 1);
    }
    chunk
}

fn text(value: &str) -> Value {
    Value::Obj(Obj::String(value.to_string()))
}

fn number(value: f64) -> Value {
    Value::Number(value.to_bits())
}

fn load(chunk: &mut Chunk, value: Value, line: usize) {
    let index = chunk.add_constant(value);
    chunk.write_constant(index, line);
}

#[test]
fn negate_on_a_boolean_is_a_runtime_error() {
    let mut vm = Vm::new();
    let chunk = chunk_of(&[Opcode::Nil, Opcode::True, Opcode::Negate, Opcode::Return]);
    let answer = vm.execute(chunk);
    assert!(matches!(answer, Err(InterpretError::RuntimeError)));
    assert!(vm.stack().is_empty());
    assert_eq!(vm.state(), State::Faulted);
    assert_eq!(vm.fault(), Some(Fault::OperandNotNumber));
    assert_eq!(vm.diagnostics(), &vec!["[line 1] Error: Operand must be a number".to_string()]);
}

#[test]
fn runtime_error_names_the_line_of_the_instruction() {
    let mut vm = Vm::new();
    let mut chunk = Chunk::new("test".to_string());
    chunk.write(Opcode::Nil.to_bytes(), 3);
    chunk.write(Opcode::True.to_bytes(), 3);
    chunk.write(Opcode::Subtract.to_bytes(), 7);
    chunk.write(Opcode::Return.to_bytes(), 9);
    assert!(matches!(vm.execute(chunk), Err(InterpretError::RuntimeError)));
    assert_eq!(vm.diagnostics(), &vec!["[line 7] Error: Operands must be numbers".to_string()]);
}

#[test]
fn negate_flips_the_sign() {
    let mut vm = Vm::new();
    let mut chunk = Chunk::new("test".to_string());
    load(&mut chunk, number(2.5), 1);
    chunk.write(Opcode::Negate.to_bytes(), 1);
    chunk.write(Opcode::Return.to_bytes(), 1);
    match vm.execute(chunk) {
        Ok(Signal::Done(Some(Value::Number(bits)))) => assert_eq!(f64::from_bits(bits), -2.5),
        other => panic!("{:?}", other),
    }
}

#[test]
fn add_concatenates_two_strings() {
    let mut vm = Vm::new();
    let mut chunk = Chunk::new("test".to_string());
    chunk.write(Opcode::Nil.to_bytes(), 1);
    load(&mut chunk, text("foo"), 1);
    load(&mut chunk, text("bar"), 1);
    chunk.write(Opcode::Add.to_bytes(), 1);
    let answer = vm.execute(chunk);
    assert!(matches!(answer, Ok(Signal::Done(None))));
    assert_eq!(vm.state(), State::Halted);
    assert_eq!(vm.stack().len(), 2);
    assert!(vm.stack()[0].is_nil());
    assert_eq!(vm.stack()[1].clone().as_string(), Some("foobar".to_string()));
}

#[test]
fn add_returns_the_joined_string() {
    let mut vm = Vm::new();
    let mut chunk = Chunk::new("test".to_string());
    load(&mut chunk, text("foo"), 1);
    load(&mut chunk, text("bar"), 1);
    chunk.write(Opcode::Add.to_bytes(), 1);
    chunk.write(Opcode::Return.to_bytes(), 1);
    match vm.execute(chunk) {
        Ok(Signal::Done(Some(value))) => assert_eq!(value.as_string(), Some("foobar".to_string())),
        other => panic!("{:?}", other),
    }
    assert!(vm.stack().is_empty());
}

#[test]
fn add_on_a_string_and_a_number_is_a_runtime_error() {
    let mut vm = Vm::new();
    let mut chunk = Chunk::new("test".to_string());
    load(&mut chunk, text("foo"), 2);
    load(&mut chunk, number(1.0), 2);
    chunk.write(Opcode::Add.to_bytes(), 2);
    assert!(matches!(vm.execute(chunk), Err(InterpretError::RuntimeError)));
    assert!(vm.stack().is_empty());
    assert_eq!(
        vm.diagnostics(),
        &vec!["[line 2] Error: Operands must be two numbers or two strings".to_string()]
    );
}

#[test]
fn arithmetic_on_numbers_suspends_with_the_operands_in_order() {
    for opcode in [Opcode::Add, Opcode::Subtract, Opcode::Multiply, Opcode::Divide] {
        let mut vm = Vm::new();
        let mut chunk = Chunk::new("test".to_string());
        load(&mut chunk, number(6.0), 1);
        load(&mut chunk, number(3.0), 1);
        chunk.write(opcode.to_bytes(), 1);
        chunk.write(Opcode::Return.to_bytes(), 1);
        match vm.execute(chunk) {
            Ok(Signal::Arithmetic { opcode: asked, lhs, rhs }) => {
                assert_eq!(asked, opcode);
                assert_eq!(f64::from_bits(lhs), 6.0);
                assert_eq!(f64::from_bits(rhs), 3.0);
            }
            other => panic!("{:?}", other),
        }
        assert_eq!(vm.state(), State::Suspended);
        assert!(vm.stack().is_empty());
        match vm.resume(42.0f64.to_bits()) {
            Ok(Signal::Done(Some(Value::Number(bits)))) => assert_eq!(f64::from_bits(bits), 42.0),
            other => panic!("{:?}", other),
        }
    }
}

#[test]
fn arithmetic_on_other_values_is_a_runtime_error() {
    for opcode in [
        Opcode::Subtract,
        Opcode::Multiply,
        Opcode::Divide,
        Opcode::Greater,
        Opcode::Less,
    ] {
        let mut vm = Vm::new();
        let mut chunk = Chunk::new("test".to_string());
        load(&mut chunk, number(6.0), 1);
        chunk.write(Opcode::Nil.to_bytes(), 1);
        chunk.write(opcode.to_bytes(), 1);
        assert!(matches!(vm.execute(chunk), Err(InterpretError::RuntimeError)));
        assert!(vm.stack().is_empty());
        assert_eq!(vm.diagnostics(), &vec!["[line 1] Error: Operands must be numbers".to_string()]);
    }
}

fn compare(opcode: Opcode, a: f64, b: f64) -> bool {
    let mut vm = Vm::new();
    let mut chunk = Chunk::new("test".to_string());
    load(&mut chunk, number(a), 1);
    load(&mut chunk, number(b), 1);
    chunk.write(opcode.to_bytes(), 1);
    chunk.write(Opcode::Return.to_bytes(), 1);
    match vm.execute(chunk) {
        Ok(Signal::Done(Some(Value::Bool(result)))) => result,
        other => panic!("{:?}", other),
    }
}

#[test]
fn comparisons_follow_the_number_format() {
    let samples = [
        0.0,
        -0.0,
        1.0,
        -1.0,
        1.5,
        -1.5,
        f64::MIN_POSITIVE,
        -f64::MIN_POSITIVE,
        5e-324,
        f64::MAX,
        f64::MIN,
        f64::INFINITY,
        f64::NEG_INFINITY,
        f64::NAN,
        -f64::NAN,
    ];
    for a in samples {
        for b in samples {
            assert_eq!(compare(Opcode::Greater, a, b), a > b, "{} > {}", a, b);
            assert_eq!(compare(Opcode::Less, a, b), a < b, "{} < {}", a, b);
            assert_eq!(compare(Opcode::Equal, a, b), a == b, "{} == {}", a, b);
        }
    }
}

#[test]
fn equal_compares_values_of_one_kind() {
    let cases: Vec<(Value, Value, bool)> = vec![
        (Value::Nil, Value::Nil, true),
        (Value::Bool(true), Value::Bool(true), true),
        (Value::Bool(true), Value::Bool(false), false),
        (Value::Nil, Value::Bool(false), false),
        (number(0.0), Value::Bool(false), false),
        (number(1.0), number(1.0), true),
        (text("a"), text("a"), false),
        (text("a"), Value::Nil, false),
    ];
    for (a, b, expected) in cases {
        let mut vm = Vm::new();
        let mut chunk = Chunk::new("test".to_string());
        load(&mut chunk, a, 1);
        load(&mut chunk, b, 1);
        chunk.write(Opcode::Equal.to_bytes(), 1);
        chunk.write(Opcode::Return.to_bytes(), 1);
        match vm.execute(chunk) {
            Ok(Signal::Done(Some(Value::Bool(result)))) => assert_eq!(result, expected),
            other => panic!("{:?}", other),
        }
    }
}

#[test]
fn not_follows_the_falsiness_rule() {
    let cases: Vec<(Value, bool)> = vec![
        (Value::Nil, true),
        (Value::Bool(false), true),
        (Value::Bool(true), false),
        (number(0.0), false),
        (text(""), false),
    ];
    for (value, expected) in cases {
        assert_eq!(value.is_falsey(), expected);
        let mut vm = Vm::new();
        let mut chunk = Chunk::new("test".to_string());
        load(&mut chunk, value, 1);
        chunk.write(Opcode::Not.to_bytes(), 1);
        chunk.write(Opcode::Return.to_bytes(), 1);
        match vm.execute(chunk) {
            Ok(Signal::Done(Some(Value::Bool(result)))) => assert_eq!(result, expected),
            other => panic!("{:?}", other),
        }
    }
}

#[test]
fn literals_push_their_value() {
    let mut vm = Vm::new();
    let answer = vm.execute(chunk_of(&[Opcode::Nil, Opcode::True, Opcode::False]));
    assert!(matches!(answer, Ok(Signal::Done(None))));
    assert_eq!(vm.stack().len(), 3);
    assert!(matches!(vm.stack()[0], Value::Nil));
    assert!(matches!(vm.stack()[1], Value::Bool(true)));
    assert!(matches!(vm.stack()[2], Value::Bool(false)));
}

#[test]
fn code_that_ends_without_return_halts() {
    let mut vm = Vm::new();
    assert!(matches!(vm.execute(chunk_of(&[Opcode::True])), Ok(Signal::Done(None))));
    assert_eq!(vm.state(), State::Halted);
    let mut vm = Vm::new();
    assert!(matches!(vm.execute(chunk_of(&[])), Ok(Signal::Done(None))));
    assert_eq!(vm.state(), State::Halted);
}

#[test]
fn return_stops_execution() {
    let mut vm = Vm::new();
    let answer = vm.execute(chunk_of(&[Opcode::True, Opcode::Return, Opcode::Negate]));
    assert!(matches!(answer, Ok(Signal::Done(Some(Value::Bool(true))))));
    assert!(vm.stack().is_empty());
}

#[test]
fn full_stack_overflows() {
    let mut vm = Vm::new();
    let mut code = vec![Opcode::Nil; STACK_MAX];
    let answer = vm.execute(chunk_of(&code));
    assert!(matches!(answer, Ok(Signal::Done(None))));
    assert_eq!(vm.stack().len(), STACK_MAX);

    let mut vm = Vm::new();
    code.push(Opcode::Nil);
    let answer = vm.execute(chunk_of(&code));
    assert!(matches!(answer, Err(InterpretError::RuntimeError)));
    assert!(vm.stack().is_empty());
    assert_eq!(vm.fault(), Some(Fault::StackOverflow));
    assert_eq!(vm.diagnostics(), &vec!["[line 1] Error: Stack overflow".to_string()]);
}

#[test]
fn malformed_code_is_a_runtime_error() {
    let malformed = vec!["[line 1] Error: Malformed bytecode".to_string()];

    // A byte that is no opcode.
    let mut vm = Vm::new();
    let mut chunk = Chunk::new("test".to_string());
    chunk.write(vec![15], 1);
    assert!(matches!(vm.execute(chunk), Err(InterpretError::RuntimeError)));
    assert_eq!(vm.diagnostics(), &malformed);

    // An operand that is cut off.
    let mut vm = Vm::new();
    let mut chunk = Chunk::new("test".to_string());
    chunk.add_constant(Value::Nil);
    chunk.write(vec![2, 0, 0, 0], 1);
    assert!(matches!(vm.execute(chunk), Err(InterpretError::RuntimeError)));
    assert_eq!(vm.diagnostics(), &malformed);

    // An operand that names no constant.
    let mut vm = Vm::new();
    let mut chunk = Chunk::new("test".to_string());
    chunk.write_constant(0, 1);
    assert!(matches!(vm.execute(chunk), Err(InterpretError::RuntimeError)));
    assert_eq!(vm.diagnostics(), &malformed);

    // More operands than the stack holds.
    for opcode in [Opcode::Return, Opcode::Not, Opcode::Negate, Opcode::Add, Opcode::Equal] {
        let mut vm = Vm::new();
        assert_eq!(vm.fault(), None);
        assert!(matches!(vm.execute(chunk_of(&[opcode])), Err(InterpretError::RuntimeError)));
        assert_eq!(vm.diagnostics(), &malformed);
        assert_eq!(vm.state(), State::Faulted);
        assert_eq!(vm.fault(), Some(Fault::MalformedCode));
        assert!(vm.execute(chunk_of(&[Opcode::Nil])).is_ok());
        assert_eq!(vm.fault(), None);
    }
    let mut vm = Vm::new();
    let answer = vm.execute(chunk_of(&[Opcode::Nil, Opcode::Less]));
    assert!(matches!(answer, Err(InterpretError::RuntimeError)));
    assert!(vm.stack().is_empty());
}

#[test]
fn fault_messages() {
    assert_eq!(Fault::OperandNotNumber.to_message(), "Operand must be a number");
    assert_eq!(Fault::OperandsNotNumbers.to_message(), "Operands must be numbers");
    assert_eq!(
        Fault::OperandsNotAddable.to_message(),
        "Operands must be two numbers or two strings"
    );
    assert_eq!(Fault::StackOverflow.to_message(), "Stack overflow");
    assert_eq!(Fault::MalformedCode.to_message(), "Malformed bytecode");
}

#[test]
fn three_hundred_constants_use_both_encodings() {
    let mut chunk = Chunk::new("test".to_string());
    let mut starts = Vec::new();
    for i in 0..300u32 {
        let index = chunk.add_constant(number(i as f64));
        assert_eq!(index, i);
        starts.push(chunk.code.len());
        chunk.write_constant(index, 1);
    }
    for i in 0..300usize {
        let at = starts[i];
        if i < 256 {
            assert_eq!(chunk.code[at], Opcode::Constant.to_byte());
            assert_eq!(chunk.code[at + 1] as usize, i);
            assert_eq!(if i + 1 < 300 { starts[i + 1] } else { chunk.code.len() }, at + 2);
        } else {
            assert_eq!(chunk.code[at], Opcode::ConstantLong.to_byte());
            assert_eq!(&chunk.code[at + 1..at + 5], &(i as u32).to_be_bytes());
            assert_eq!(if i + 1 < 300 { starts[i + 1] } else { chunk.code.len() }, at + 5);
        }
    }
    assert_eq!(chunk.code.len(), 256 * 2 + 44 * 5);
    assert_eq!(chunk.lines, vec![(1, 0)]);
}

#[test]
fn both_encodings_load_the_constant_they_name() {
    for wanted in [0u32, 1, 255, 256, 257, 299] {
        let mut chunk = Chunk::new("test".to_string());
        for i in 0..300u32 {
            chunk.add_constant(number(i as f64));
        }
        chunk.write_constant(wanted, 1);
        chunk.write(Opcode::Return.to_bytes(), 1);
        let mut vm = Vm::new();
        match vm.execute(chunk) {
            Ok(Signal::Done(Some(Value::Number(bits)))) => {
                assert_eq!(f64::from_bits(bits), wanted as f64)
            }
            other => panic!("{:?}", other),
        }
    }
}

#[test]
fn long_operand_is_big_endian() {
    let mut chunk = Chunk::new("test".to_string());
    chunk.write_constant(0x0102_0304, 1);
    assert_eq!(chunk.code, vec![2, 1, 2, 3, 4]);
    assert_eq!(rlox::chunk::index_bytes(0xfffe_fdfc), vec![0xff, 0xfe, 0xfd, 0xfc]);
    assert_eq!(rlox::chunk::index_of_bytes(0xff, 0xfe, 0xfd, 0xfc), 0xfffe_fdfc);
    let mut chunk = Chunk::new("test".to_string());
    chunk.write_constant(255, 1);
    assert_eq!(chunk.code, vec![1, 255]);
}

#[test]
fn line_table_is_run_length_encoded() {
    let mut chunk = Chunk::new("test".to_string());
    for _ in 0..5 {
        chunk.write(Opcode::Nil.to_bytes(), 10);
    }
    for _ in 0..7 {
        chunk.write(Opcode::Nil.to_bytes(), 20);
    }
    for _ in 0..3 {
        chunk.write(Opcode::Nil.to_bytes(), 10);
    }
    assert_eq!(chunk.lines, vec![(10, 0), (20, 5), (10, 12)]);
    for offset in 0..5 {
        assert_eq!(chunk.line_for_instruction_n(offset), 10);
    }
    for offset in 5..12 {
        assert_eq!(chunk.line_for_instruction_n(offset), 20);
    }
    for offset in 12..40 {
        assert_eq!(chunk.line_for_instruction_n(offset), 10);
    }
    assert_eq!(chunk.line_for_instruction_n(usize::MAX), 10);
}

#[test]
fn line_of_an_empty_table_is_zero() {
    let chunk = Chunk::new("test".to_string());
    assert_eq!(chunk.line_for_instruction_n(0), 0);
    let mut chunk = Chunk::new("test".to_string());
    chunk.code.push(0);
    chunk.lines.push((4, 3));
    assert_eq!(chunk.line_for_instruction_n(2), 0);
    assert_eq!(chunk.line_for_instruction_n(3), 4);
}

#[test]
fn multi_byte_write_starts_its_run_at_its_first_byte() {
    let mut chunk = Chunk::new("test".to_string());
    chunk.write(vec![8, 8], 1);
    chunk.write(vec![8, 8, 8], 2);
    assert_eq!(chunk.lines, vec![(1, 0), (2, 2)]);
    assert_eq!(chunk.code.len(), 5);
}

#[test]
fn opcodes_encode_in_declaration_order() {
    let all = [
        Opcode::Return,
        Opcode::Constant,
        Opcode::ConstantLong,
        Opcode::Negate,
        Opcode::Add,
        Opcode::Subtract,
        Opcode::Divide,
        Opcode::Multiply,
        Opcode::Nil,
        Opcode::True,
        Opcode::False,
        Opcode::Not,
        Opcode::Equal,
        Opcode::Greater,
        Opcode::Less,
    ];
    for (i, opcode) in all.iter().enumerate() {
        assert_eq!(opcode.to_byte() as usize, i);
        assert_eq!(opcode.to_bytes(), vec![i as u8]);
        assert_eq!(Opcode::from_byte(i as u8), Some(*opcode));
    }
    for byte in 15..=255u8 {
        assert_eq!(Opcode::from_byte(byte), None);
    }
}

#[test]
fn value_predicates() {
    assert!(number(1.0).is_number());
    assert!(!Value::Nil.is_number());
    assert!(Value::Bool(false).is_bool());
    assert!(!number(1.0).is_bool());
    assert!(Value::Nil.is_nil());
    assert!(!Value::Bool(false).is_nil());
    assert!(text("a").is_obj_type(ObjType::String));
    assert!(!Value::Nil.is_obj_type(ObjType::String));
    assert!(Obj::String("a".to_string()).is_type(ObjType::String));
    assert_eq!(number(1.5).as_f64(), Some(1.5f64.to_bits()));
    assert_eq!(Value::Nil.as_f64(), None);
    assert_eq!(Value::Bool(true).as_bool(), Some(true));
    assert_eq!(number(1.0).as_bool(), None);
    assert_eq!(text("abc").as_string(), Some("abc".to_string()));
    assert_eq!(Value::Nil.as_string(), None);
}

#[test]
fn value_equality() {
    assert!(number(1.0) == number(1.0));
    assert!(number(0.0) == number(-0.0));
    assert!(number(f64::NAN) != number(f64::NAN));
    assert!(Value::Nil == Value::Nil);
    assert!(Value::Bool(true) == Value::Bool(true));
    assert!(Value::Bool(true) != Value::Bool(false));
    assert!(Value::Nil != Value::Bool(false));
    assert!(text("a") != text("a"));
}

#[test]
fn number_patterns() {
    let samples = [0.0, -0.0, 1.0, -2.5, 1e300, -1e-300, f64::INFINITY, f64::NEG_INFINITY, f64::NAN];
    for a in samples {
        assert_eq!(nan(a.to_bits()), a.is_nan());
        assert_eq!(negate(a.to_bits()), (-a).to_bits());
        for b in samples {
            assert_eq!(equal(a.to_bits(), b.to_bits()), a == b);
            assert_eq!(less(a.to_bits(), b.to_bits()), a < b);
            assert_eq!(greater(a.to_bits(), b.to_bits()), a > b);
        }
    }
}

#[test]
fn stepping_executes_one_instruction_at_a_time() {
    let mut vm = Vm::new();
    let mut chunk = Chunk::new("test".to_string());
    load(&mut chunk, number(2.0), 1);
    load(&mut chunk, number(3.0), 1);
    chunk.write(Opcode::Multiply.to_bytes(), 1);
    chunk.write(Opcode::Return.to_bytes(), 1);
    vm.load(chunk);
    assert_eq!(vm.state(), State::Running);
    assert_eq!(vm.ip(), 0);
    assert_eq!(vm.chunk().unwrap().code.len(), 6);
    assert!(vm.step().is_none());
    assert_eq!(vm.ip(), 2);
    assert_eq!(vm.stack().len(), 1);
    assert!(vm.step().is_none());
    assert_eq!(vm.ip(), 4);
    assert_eq!(vm.stack().len(), 2);
    match vm.step() {
        Some(Ok(Signal::Arithmetic { opcode, lhs, rhs })) => {
            assert_eq!(opcode, Opcode::Multiply);
            assert_eq!(f64::from_bits(lhs), 2.0);
            assert_eq!(f64::from_bits(rhs), 3.0);
        }
        other => panic!("{:?}", other),
    }
    assert_eq!(vm.ip(), 5);
    assert_eq!(vm.state(), State::Suspended);
    vm.supply(6.0f64.to_bits());
    assert_eq!(vm.state(), State::Running);
    assert_eq!(vm.stack().len(), 1);
    match vm.step() {
        Some(Ok(Signal::Done(Some(Value::Number(bits))))) => assert_eq!(f64::from_bits(bits), 6.0),
        other => panic!("{:?}", other),
    }
    assert_eq!(vm.state(), State::Halted);
    assert_eq!(vm.ip(), 6);
}

#[test]
fn stepping_at_the_end_of_the_code_halts() {
    let mut vm = Vm::new();
    assert!(vm.chunk().is_none());
    vm.load(chunk_of(&[Opcode::Nil]));
    assert!(vm.step().is_none());
    assert!(matches!(vm.step(), Some(Ok(Signal::Done(None)))));
    assert_eq!(vm.state(), State::Halted);
    assert_eq!(vm.stack().len(), 1);
}

#[test]
fn stepping_into_a_fault_reports_it() {
    let mut vm = Vm::new();
    vm.load(chunk_of(&[Opcode::Nil, Opcode::Negate]));
    assert!(vm.step().is_none());
    assert!(matches!(vm.step(), Some(Err(InterpretError::RuntimeError))));
    assert_eq!(vm.state(), State::Faulted);
    assert!(vm.stack().is_empty());
    assert_eq!(vm.diagnostics().len(), 1);
}

#[test]
fn loading_drops_the_reports_of_the_last_program() {
    let mut vm = Vm::new();
    assert!(vm.execute(chunk_of(&[Opcode::Negate])).is_err());
    assert_eq!(vm.diagnostics().len(), 1);
    assert!(matches!(vm.execute(chunk_of(&[Opcode::Nil, Opcode::Return])), Ok(Signal::Done(Some(Value::Nil)))));
    assert!(vm.diagnostics().is_empty());
}

#[test]
fn concatenate_joins_the_two_strings_on_top() {
    let mut vm = Vm::new();
    let mut chunk = Chunk::new("test".to_string());
    chunk.write(Opcode::True.to_bytes(), 1);
    load(&mut chunk, text("foo"), 1);
    load(&mut chunk, text("bar"), 1);
    assert!(matches!(vm.execute(chunk), Ok(Signal::Done(None))));
    assert_eq!(vm.stack().len(), 3);
    vm.concatenate();
    assert_eq!(vm.stack().len(), 2);
    assert!(matches!(vm.stack()[0], Value::Bool(true)));
    assert_eq!(vm.stack()[1].clone().as_string(), Some("foobar".to_string()));
    assert_eq!(vm.state(), State::Halted);
    let constants = &vm.chunk().unwrap().constants;
    assert_eq!(constants.len(), 2);
    assert_eq!(constants[0].clone().as_string(), Some("foo".to_string()));
    assert_eq!(constants[1].clone().as_string(), Some("bar".to_string()));
}

#[test]
fn concatenate_keeps_the_order_of_the_operands() {
    let mut vm = Vm::new();
    let mut chunk = Chunk::new("test".to_string());
    load(&mut chunk, text(""), 1);
    load(&mut chunk, text("b"), 1);
    load(&mut chunk, text("a"), 1);
    assert!(matches!(vm.execute(chunk), Ok(Signal::Done(None))));
    vm.concatenate();
    assert_eq!(vm.stack()[1].clone().as_string(), Some("ba".to_string()));
    vm.concatenate();
    assert_eq!(vm.stack().len(), 1);
    assert_eq!(vm.stack()[0].clone().as_string(), Some("ba".to_string()));
}
