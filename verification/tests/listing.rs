use rlox::chunk::Chunk;
use rlox::dissasembler::Dissasembler;
use rlox::opcode::Opcode;
use rlox::value::Value;

fn printed(chunk: &Chunk) -> Vec<String> {
    chunk
        .constants
        .iter()
        .map(|value| match (value.text_of(), value.as_f64()) {
            (Some(text), _) => text,
            (None, Some(bits)) => format!("{}", f64::from_bits(bits)),
            (None, None) => unreachable!(),
        })
        .collect()
}

fn expression_chunk() -> Chunk {
    // 1.2 + 3.4 / 5.6, on line 123
    let mut chunk = Chunk::new("test chunk".to_string());
    for value in [1.2f64, 3.4, 5.6] {
        let index = chunk.add_constant(Value::Number(value.to_bits()));
        chunk.write_constant(index, 123);
    }
    chunk.write(Opcode::Divide.to_bytes(), 123);
    chunk.write(Opcode::Add.to_bytes(), 123);
    chunk.write(Opcode::Return.to_bytes(), 124);
    chunk
}

#[test]
fn listing_of_an_expression() {
    let chunk = expression_chunk();
    let mut out = String::new();
    Dissasembler::disassemble(&chunk, &printed(&chunk), &mut out);
    let expected = "0000  123 Constant            0 '1.2'\n\
                    0002    | Constant            1 '3.4'\n\
                    0004    | Constant            2 '5.6'\n\
                    0006    | Divide\n\
                    0007    | Add\n\
                    0008  124 Return\n";
    assert_eq!(out, expected);
}

#[test]
fn listing_is_appended() {
    let mut chunk = Chunk::new("c".to_string());
    chunk.write(Opcode::Nil.to_bytes(), 1);
    let mut out = "before\n".to_string();
    Dissasembler::disassemble(&chunk, &Vec::new(), &mut out);
    assert_eq!(out, "before\n0000    1 Nil\n");
}

#[test]
fn listing_of_one_instruction_moves_the_offset() {
    let chunk = expression_chunk();
    let texts = printed(&chunk);
    let mut offset = 2;
    let mut out = String::new();
    Dissasembler::disassemble_instruction(&chunk, &texts, &mut offset, &mut out);
    assert_eq!(out, "0002    | Constant            1 '3.4'\n");
    assert_eq!(offset, 4);
    let mut offset = 8;
    let line = Dissasembler::trace_instruction(&chunk, &texts, &mut offset);
    assert_eq!(line, "0008  124 Return\n");
    assert_eq!(offset, 9);
}

#[test]
fn listing_of_every_simple_instruction() {
    let names = [
        (Opcode::Return, "Return"),
        (Opcode::Negate, "Negate"),
        (Opcode::Add, "Add"),
        (Opcode::Subtract, "Subtract"),
        (Opcode::Divide, "Divide"),
        (Opcode::Multiply, "Multiply"),
        (Opcode::Nil, "Nil"),
        (Opcode::True, "True"),
        (Opcode::False, "False"),
        (Opcode::Not, "Not"),
        (Opcode::Equal, "Equal"),
        (Opcode::Greater, "Greater"),
        (Opcode::Less, "Less"),
    ];
    for (opcode, name) in names {
        let mut chunk = Chunk::new("c".to_string());
        chunk.write(opcode.to_bytes(), 7);
        let mut offset = 0;
        let line = Dissasembler::trace_instruction(&chunk, &Vec::new(), &mut offset);
        assert_eq!(line, format!("0000    7 {}\n", name));
        assert_eq!(offset, 1);
    }
}

#[test]
fn listing_of_a_long_load() {
    let mut chunk = Chunk::new("c".to_string());
    for i in 0..300 {
        chunk.add_constant(Value::Number((i as f64).to_bits()));
    }
    for _ in 0..6000 {
        chunk.write(Opcode::Nil.to_bytes(), 1);
    }
    chunk.write_constant(299, 12345);
    chunk.write_constant(12, 12345);
    let texts = printed(&chunk);
    let mut offset = 6000;
    let line = Dissasembler::trace_instruction(&chunk, &texts, &mut offset);
    assert_eq!(line, format!("{:04} {:4} {:<16} {:4} '{}'\n", 6000, 12345, "ConstantLong", 299, 299));
    assert_eq!(line, "6000 12345 ConstantLong      299 '299'\n");
    assert_eq!(offset, 6005);
    let line = Dissasembler::trace_instruction(&chunk, &texts, &mut offset);
    assert_eq!(line, "6005    | Constant           12 '12'\n");
    assert_eq!(offset, 6007);
}

#[test]
fn listing_of_other_constants() {
    let mut chunk = Chunk::new("c".to_string());
    let values = vec![
        Value::Nil,
        Value::Bool(true),
        Value::Obj(rlox::value::Obj::String("foo bar".to_string())),
        Value::Number(f64::INFINITY.to_bits()),
    ];
    for value in values {
        let index = chunk.add_constant(value);
        chunk.write_constant(index, 1);
    }
    let mut out = String::new();
    Dissasembler::disassemble(&chunk, &printed(&chunk), &mut out);
    let expected = "0000    1 Constant            0 'nil'\n\
                    0002    | Constant            1 'true'\n\
                    0004    | Constant            2 'foo bar'\n\
                    0006    | Constant            3 'inf'\n";
    assert_eq!(out, expected);
}

#[test]
fn listing_of_code_that_cannot_be_decoded() {
    let mut chunk = Chunk::new("c".to_string());
    chunk.write(vec![200], 1);
    chunk.write(vec![1, 5], 1);
    chunk.write(vec![2, 0, 0], 2);
    let mut out = String::new();
    Dissasembler::disassemble(&chunk, &Vec::new(), &mut out);
    let expected = "0000    1 Unknown opcode 200\n\
                    0001    | Constant            5 ''\n\
                    0003    2 Unknown opcode 2\n\
                    0004    | Return\n\
                    0005    | Return\n";
    assert_eq!(out, expected);
}

#[test]
fn listing_of_one_line_for_each_instruction() {
    let mut chunk = Chunk::new("test".to_string());
    for value in [1.2f64, 3.4, 5.6] {
        chunk.add_constant(Value::Number(value.to_bits()));
    }
    chunk.write_constant(0, 123);
    chunk.write_constant(1, 123);
    chunk.write_constant(2, 123);
    chunk.write(Opcode::Divide.to_bytes(), 123);
    chunk.write(Opcode::Add.to_bytes(), 123);
    chunk.write(Opcode::Return.to_bytes(), 123);
    let mut out = String::new();
    Dissasembler::disassemble(&chunk, &printed(&chunk), &mut out);
    let lines: Vec<&str> = out.lines().collect();
    assert_eq!(
        lines,
        vec![
            "0000  123 Constant            0 '1.2'",
            "0002    | Constant            1 '3.4'",
            "0004    | Constant            2 '5.6'",
            "0006    | Divide",
            "0007    | Add",
            "0008    | Return",
        ]
    );
    assert!(out.ends_with('\n'));
}

#[test]
fn listing_of_an_empty_chunk_is_empty() {
    let chunk = Chunk::new("nothing".to_string());
    let mut out = String::new();
    Dissasembler::disassemble(&chunk, &Vec::new(), &mut out);
    assert_eq!(out, "");
}

#[test]
fn header_names_the_chunk() {
    assert_eq!(Dissasembler::header(&Chunk::new("test chunk".to_string())), "== test chunk ==");
    assert_eq!(Dissasembler::header(&Chunk::new(String::new())), "==  ==");
}

#[test]
fn values_in_print() {
    assert_eq!(Value::Nil.text_of(), Some("nil".to_string()));
    assert_eq!(Value::Bool(true).text_of(), Some("true".to_string()));
    assert_eq!(Value::Bool(false).text_of(), Some("false".to_string()));
    let text = Value::Obj(rlox::value::Obj::String("foo bar".to_string()));
    assert_eq!(text.text_of(), Some("foo bar".to_string()));
    assert_eq!(Value::Obj(rlox::value::Obj::String(String::new())).text_of(), Some(String::new()));
    assert_eq!(Value::Number(1.5f64.to_bits()).text_of(), None);
    assert_eq!(Value::Number(0).text_of(), None);
}
