use chainvm::class::JavaFile;
use chainvm::compiler::{
    compile_call, compile_chain, compile_jump, compile_operation, compile_program, emit_binary,
    find_rule, operation_code_at, operation_name_at, operation_of, position, Rule,
};
use chainvm::error::CompileError;
use chainvm::isa::{decode, encode};
use chainvm::vm::{run_binary, Action};

const START: u8 = 0b001_10100;
const END: u8 = 0b001_10101;
const INVOKE: u8 = 0b001_10000;
const SAVE_4: u8 = 0b010_00100;

fn class_with(name: &str, extends: &str, ints: &[(&str, i32)], strs: &[(&str, &str)]) -> JavaFile {
    JavaFile {
        name: name.to_string(),
        abst: false,
        extends: extends.to_string(),
        implements: String::new(),
        int_fields: ints.iter().map(|(field, value)| (field.to_string(), *value)).collect(),
        str_fields: strs
            .iter()
            .map(|(field, value)| (field.to_string(), value.to_string()))
            .collect(),
    }
}

fn compile(entry: &str, objects: &Vec<JavaFile>) -> Result<(Vec<u8>, Vec<u8>), CompileError> {
    let start = objects.iter().find(|class| class.name == entry).unwrap();
    compile_chain(start.chain(objects).unwrap(), objects)
}

#[test]
fn one_operation_for_each_class() {
    let objects = vec![
        class_with("main", "a", &[("addi", 5)], &[]),
        class_with("a", "b", &[("save", 1)], &[]),
        class_with("b", "c", &[("addi", 3)], &[]),
        class_with("c", "d", &[("load", 1)], &[]),
        class_with("d", "e", &[("add", 1)], &[]),
        class_with("e", "f", &[("skipeq", 31)], &[]),
        class_with("f", "", &[("call", 0)], &[]),
    ];
    let (coroutines, instructions) = compile("main", &objects).unwrap();
    assert!(coroutines.is_empty());
    assert_eq!(
        instructions,
        vec![
            0b110_00101,
            0b010_00001,
            0b110_00011,
            0b011_00001,
            0b101_00001,
            0b111_11111,
            0b001_00000
        ]
    );
    assert_eq!(instructions.len(), objects.len());
    let expected = [(6, 5), (2, 1), (6, 3), (3, 1), (5, 1), (7, 31), (1, 0)];
    for (byte, wanted) in instructions.iter().zip(expected) {
        assert_eq!(decode(*byte), wanted);
    }
}

#[test]
fn every_operation_and_every_value_compiles_to_its_byte() {
    let table = [("call", 1u8), ("save", 2), ("load", 3), ("add", 5), ("addi", 6), ("skipeq", 7)];
    for (name, opcode) in table {
        for value in 0..32 {
            let objects = vec![class_with("main", "", &[(name, value)], &[])];
            let (coroutines, instructions) = compile("main", &objects).unwrap();
            assert!(coroutines.is_empty());
            assert_eq!(instructions, vec![(opcode << 5) | value as u8]);
        }
    }
}

#[test]
fn operation_table_is_in_scan_order() {
    let names: Vec<&str> = (0..6).map(operation_name_at).collect();
    assert_eq!(names, vec!["call", "save", "load", "add", "addi", "skipeq"]);
    let codes: Vec<u8> = (0..6).map(operation_code_at).collect();
    assert_eq!(codes, vec![1, 2, 3, 5, 6, 7]);
}

#[test]
fn the_first_operation_of_the_table_wins() {
    let file = class_with("main", "", &[("skipeq", 1), ("add", 2), ("save", 3), ("addi", 4)], &[]);
    assert_eq!(operation_of(&file), Some((2, 3)));
    let file = class_with("main", "", &[("skipeq", 1), ("addi", 4), ("add", 2)], &[]);
    assert_eq!(operation_of(&file), Some((5, 2)));
    let file = class_with("main", "", &[("load", 1), ("call", 4)], &[]);
    assert_eq!(operation_of(&file), Some((1, 4)));
    let file = class_with("main", "", &[("jump", 1), ("Addi", 4), ("sub", 4)], &[]);
    assert_eq!(operation_of(&file), None);
    let objects = vec![class_with("main", "", &[("skipeq", 1), ("add", 2), ("save", 3)], &[])];
    assert_eq!(compile("main", &objects).unwrap().1, vec![0b010_00011]);
}

#[test]
fn a_class_without_rule_adds_nothing() {
    let objects = vec![
        class_with("main", "a", &[("addi", 1)], &[]),
        class_with("a", "b", &[("other", 1)], &[("text", "hello")]),
        class_with("b", "", &[("addi", 2)], &[]),
    ];
    let (coroutines, instructions) = compile("main", &objects).unwrap();
    assert!(coroutines.is_empty());
    assert_eq!(instructions, vec![encode(6, 1), encode(6, 2)]);
    let objects = vec![class_with("main", "", &[], &[])];
    assert_eq!(compile("main", &objects), Ok((Vec::new(), Vec::new())));
}

#[test]
fn value_out_of_range_is_rejected() {
    for value in [32, 33, 255, 256, -1, -32, i32::MAX, i32::MIN] {
        let objects = vec![
            class_with("main", "a", &[("addi", 1)], &[]),
            class_with("a", "", &[("save", value)], &[]),
        ];
        assert_eq!(compile("main", &objects), Err(CompileError::ImmediateOutOfRange));
        assert_eq!(compile_operation(2, value), Err(CompileError::ImmediateOutOfRange));
    }
    assert_eq!(compile_operation(2, 0), Ok(0b010_00000));
    assert_eq!(compile_operation(7, 31), Ok(0b111_11111));
}

#[test]
fn compiling_twice_gives_the_same_bytes() {
    let objects = vec![
        class_with("main", "a", &[("addi", 5)], &[("jump", "f")]),
        class_with("a", "b", &[("save", 1)], &[("jump", "main")]),
        class_with("b", "", &[("addi", 3)], &[("jump", "g")]),
        class_with("f", "g", &[("load", 1)], &[]),
        class_with("g", "", &[("add", 1)], &[]),
    ];
    let first = compile("main", &objects);
    let second = compile("main", &objects);
    assert!(first.is_ok());
    assert_eq!(first, second);
    let copy = objects.clone();
    assert_eq!(compile("main", &copy), first);
    assert_eq!(compile_program("main", &objects), compile_program("main", &copy));
}

#[test]
fn jump_forward_holds_the_distance() {
    let objects = vec![
        class_with("main", "a", &[("addi", 1)], &[("jump", "c")]),
        class_with("a", "b", &[], &[]),
        class_with("b", "c", &[], &[]),
        class_with("c", "", &[], &[]),
    ];
    let (coroutines, instructions) = compile("main", &objects).unwrap();
    assert!(coroutines.is_empty());
    assert_eq!(instructions, vec![0b100_00011]);
}

#[test]
fn jump_backward_sets_the_sign_bit() {
    let objects = vec![
        class_with("main", "a", &[("addi", 1)], &[]),
        class_with("a", "b", &[("addi", 2)], &[]),
        class_with("b", "", &[("addi", 3)], &[("jump", "main")]),
    ];
    let (_, instructions) = compile("main", &objects).unwrap();
    assert_eq!(instructions, vec![encode(6, 1), encode(6, 2), 0b100_10010]);
}

#[test]
fn jump_to_itself_has_distance_zero() {
    let objects = vec![class_with("main", "", &[("addi", 1)], &[("jump", "main")])];
    assert_eq!(compile("main", &objects).unwrap().1, vec![0b100_00000]);
}

#[test]
fn jump_instruction_for_each_distance() {
    for distance in 0..=15usize {
        assert_eq!(compile_jump(3, 3 + distance), Ok(0b100_00000 | distance as u8));
        assert_eq!(compile_jump(20, 20 - distance), Ok(if distance == 0 {
            0b100_00000
        } else {
            0b100_10000 | distance as u8
        }));
    }
    assert_eq!(compile_jump(0, 16), Err(CompileError::JumpTooFar));
    assert_eq!(compile_jump(16, 0), Err(CompileError::JumpTooFar));
    assert_eq!(compile_jump(0, usize::MAX), Err(CompileError::JumpTooFar));
    assert_eq!(compile_jump(usize::MAX, 0), Err(CompileError::JumpTooFar));
}

fn ladder(length: usize, from: usize, to: usize) -> Vec<JavaFile> {
    let mut objects = Vec::new();
    for i in 0..length {
        let parent = if i + 1 < length { format!("c{}", i + 1) } else { String::new() };
        let target = format!("c{}", to);
        let strs: Vec<(&str, &str)> = if i == from { vec![("jump", &target)] } else { Vec::new() };
        objects.push(class_with(&format!("c{}", i), &parent, &[], &strs));
    }
    objects
}

#[test]
fn jump_over_fifteen_classes_compiles() {
    let objects = ladder(20, 2, 17);
    assert_eq!(compile("c0", &objects).unwrap().1, vec![0b100_01111]);
    let objects = ladder(20, 17, 2);
    assert_eq!(compile("c0", &objects).unwrap().1, vec![0b100_11111]);
}

#[test]
fn jump_over_sixteen_classes_is_too_far() {
    let objects = ladder(20, 2, 18);
    assert_eq!(compile("c0", &objects), Err(CompileError::JumpTooFar));
    let objects = ladder(20, 18, 2);
    assert_eq!(compile("c0", &objects), Err(CompileError::JumpTooFar));
}

#[test]
fn call_adds_a_function_block_and_three_instructions() {
    let objects = vec![
        class_with("main", "a", &[("addi", 1)], &[]),
        class_with("a", "", &[("addi", 9)], &[("jump", "f")]),
        class_with("f", "g", &[("addi", 10)], &[]),
        class_with("g", "", &[("save", 2)], &[]),
    ];
    let (coroutines, instructions) = compile("main", &objects).unwrap();
    assert_eq!(coroutines, vec![START, encode(6, 10), encode(2, 2), END]);
    assert_eq!(instructions, vec![encode(6, 1), SAVE_4, encode(3, 0), INVOKE]);
}

#[test]
fn calls_are_numbered_in_order() {
    let objects = vec![
        class_with("main", "a", &[], &[("jump", "f")]),
        class_with("a", "b", &[("addi", 1)], &[]),
        class_with("b", "", &[], &[("jump", "g")]),
        class_with("f", "", &[("addi", 10)], &[]),
        class_with("g", "f", &[("addi", 20)], &[]),
    ];
    let (coroutines, instructions) = compile("main", &objects).unwrap();
    assert_eq!(
        coroutines,
        vec![START, encode(6, 10), END, START, encode(6, 20), encode(6, 10), END]
    );
    assert_eq!(
        instructions,
        vec![SAVE_4, encode(3, 0), INVOKE, encode(6, 1), SAVE_4, encode(3, 1), INVOKE]
    );
}

#[test]
fn the_same_target_called_twice_gives_two_blocks() {
    let objects = vec![
        class_with("main", "a", &[], &[("jump", "f")]),
        class_with("a", "", &[], &[("jump", "f")]),
        class_with("f", "", &[("addi", 10)], &[]),
    ];
    let (coroutines, instructions) = compile("main", &objects).unwrap();
    assert_eq!(coroutines, vec![START, encode(6, 10), END, START, encode(6, 10), END]);
    assert_eq!(instructions, vec![SAVE_4, encode(3, 0), INVOKE, SAVE_4, encode(3, 1), INVOKE]);
}

#[test]
fn a_function_block_holds_no_call() {
    let objects = vec![
        class_with("main", "", &[], &[("jump", "f")]),
        class_with("f", "g", &[("addi", 1)], &[("jump", "h")]),
        class_with("g", "", &[], &[("jump", "h")]),
        class_with("h", "", &[("addi", 30)], &[]),
    ];
    let (coroutines, instructions) = compile("main", &objects).unwrap();
    assert_eq!(coroutines, vec![START, encode(6, 1), END]);
    assert_eq!(instructions, vec![SAVE_4, encode(3, 0), INVOKE]);
}

#[test]
fn a_function_block_can_jump_within_its_chain() {
    let objects = vec![
        class_with("main", "", &[], &[("jump", "f")]),
        class_with("f", "g", &[("addi", 1)], &[]),
        class_with("g", "", &[("addi", 2)], &[("jump", "f")]),
    ];
    let (coroutines, _) = compile("main", &objects).unwrap();
    assert_eq!(coroutines, vec![START, encode(6, 1), 0b100_10001, END]);
    assert_eq!(compile_call(&objects, 1), Ok(vec![START, encode(6, 1), 0b100_10001, END]));
}

#[test]
fn a_call_of_a_cyclic_chain_fails() {
    let objects = vec![
        class_with("main", "", &[], &[("jump", "f")]),
        class_with("f", "g", &[("addi", 1)], &[]),
        class_with("g", "f", &[("addi", 2)], &[]),
    ];
    assert_eq!(compile("main", &objects), Err(CompileError::CyclicChain));
    assert_eq!(compile_call(&objects, 2), Err(CompileError::CyclicChain));
}

#[test]
fn an_error_in_a_function_block_fails_the_chain() {
    let objects = vec![
        class_with("main", "", &[], &[("jump", "f")]),
        class_with("f", "", &[("addi", 32)], &[]),
    ];
    assert_eq!(compile("main", &objects), Err(CompileError::ImmediateOutOfRange));
}

#[test]
fn a_jump_to_an_unknown_class_counts_as_absent() {
    let objects = vec![
        class_with("main", "a", &[("addi", 4)], &[("jump", "nowhere")]),
        class_with("a", "", &[], &[("jump", "nowhere")]),
    ];
    let (coroutines, instructions) = compile("main", &objects).unwrap();
    assert!(coroutines.is_empty());
    assert_eq!(instructions, vec![encode(6, 4)]);
}

#[test]
fn jump_within_the_chain_comes_before_the_operation() {
    let objects = vec![
        class_with("main", "a", &[("addi", 4)], &[("jump", "a")]),
        class_with("a", "", &[("addi", 5)], &[]),
    ];
    assert_eq!(compile("main", &objects).unwrap().1, vec![0b100_00001, encode(6, 5)]);
}

#[test]
fn rules_are_found_in_order() {
    let objects = vec![
        class_with("main", "a", &[("addi", 4)], &[("jump", "a")]),
        class_with("a", "b", &[("addi", 50)], &[("jump", "f")]),
        class_with("b", "c", &[("addi", 50)], &[("jump", "nowhere")]),
        class_with("c", "", &[], &[("jump", "nowhere")]),
        class_with("f", "", &[], &[]),
    ];
    let chain = objects[0].chain(&objects).unwrap();
    assert_eq!(find_rule(&chain, &objects, 0), Rule::Jump(1));
    assert_eq!(find_rule(&chain, &objects, 1), Rule::Call(4));
    assert_eq!(find_rule(&chain, &objects, 2), Rule::Operation(6, 50));
    assert_eq!(find_rule(&chain, &objects, 3), Rule::Nothing);
    assert_eq!(find_rule(&chain, &Vec::new(), 1), Rule::Operation(6, 50));
    assert_eq!(position(&chain, "b"), Some(2));
    assert_eq!(position(&chain, "f"), None);
}

fn caller(calls: usize) -> Vec<JavaFile> {
    let mut objects = Vec::new();
    for i in 0..calls {
        let parent = if i + 1 < calls { format!("c{}", i + 1) } else { String::new() };
        objects.push(class_with(&format!("c{}", i), &parent, &[], &[("jump", "f")]));
    }
    objects.push(class_with("f", "", &[("addi", 1)], &[]));
    objects
}

#[test]
fn thirty_one_calls_compile() {
    let objects = caller(31);
    let (coroutines, instructions) = compile("c0", &objects).unwrap();
    assert_eq!(coroutines.len(), 31 * 3);
    assert_eq!(instructions.len(), 31 * 3);
    for index in 0..31usize {
        assert_eq!(
            &coroutines[3 * index..3 * index + 3],
            &[START, encode(6, 1), END]
        );
        assert_eq!(
            &instructions[3 * index..3 * index + 3],
            &[SAVE_4, encode(3, index as u8), INVOKE]
        );
    }
    assert!(compile("c0", &caller(1)).is_ok());
    assert!(compile("c0", &caller(30)).is_ok());
}

#[test]
fn thirty_two_calls_fail() {
    assert_eq!(compile("c0", &caller(32)), Err(CompileError::CoroutineOverflow));
    assert_eq!(compile("c0", &caller(33)), Err(CompileError::CoroutineOverflow));
    assert_eq!(compile("c0", &caller(100)), Err(CompileError::CoroutineOverflow));
}

#[test]
fn the_first_error_of_the_chain_is_returned() {
    let mut objects = caller(40);
    objects[3].int_fields.push(("addi".to_string(), 99));
    objects[3].str_fields.clear();
    assert_eq!(compile("c0", &objects), Err(CompileError::ImmediateOutOfRange));
    let mut objects = caller(40);
    objects[35].int_fields.push(("addi".to_string(), 99));
    objects[35].str_fields.clear();
    assert_eq!(compile("c0", &objects), Err(CompileError::CoroutineOverflow));
}

#[test]
fn emit_binary_puts_the_function_blocks_first() {
    assert_eq!(emit_binary(&vec![1, 2, 3], &vec![4, 5]), vec![1, 2, 3, 4, 5]);
    assert_eq!(emit_binary(&Vec::new(), &vec![4, 5]), vec![4, 5]);
    assert_eq!(emit_binary(&vec![1], &Vec::new()), vec![1]);
    assert_eq!(emit_binary(&Vec::new(), &Vec::new()), Vec::<u8>::new());
}

#[test]
fn compile_program_without_entry_fails() {
    let objects = vec![class_with("a", "", &[("addi", 1)], &[])];
    assert_eq!(compile_program("main", &objects), Err(CompileError::UnresolvedEntry));
    assert_eq!(compile_program("main", &Vec::new()), Err(CompileError::UnresolvedEntry));
}

#[test]
fn compile_program_of_a_cycle_fails() {
    let objects = vec![class_with("main", "a", &[], &[]), class_with("a", "main", &[], &[])];
    assert_eq!(compile_program("main", &objects), Err(CompileError::CyclicChain));
}

#[test]
fn compile_program_gives_the_binary() {
    let objects = vec![
        class_with("main", "a", &[("addi", 1)], &[]),
        class_with("a", "", &[("addi", 9)], &[("jump", "f")]),
        class_with("f", "", &[("addi", 10)], &[]),
    ];
    assert_eq!(
        compile_program("main", &objects),
        Ok(vec![START, encode(6, 10), END, encode(6, 1), SAVE_4, encode(3, 0), INVOKE])
    );
}

#[test]
fn a_compiled_program_runs() {
    let objects = vec![
        class_with("main", "a", &[("addi", 5)], &[]),
        class_with("a", "b", &[("save", 1)], &[]),
        class_with("b", "c", &[("addi", 3)], &[]),
        class_with("c", "d", &[("load", 1)], &[]),
        class_with("d", "e", &[("add", 1)], &[]),
        class_with("e", "f", &[("call", 1)], &[]),
        class_with("f", "g", &[], &[("jump", "tenfold")]),
        class_with("g", "", &[("add", 4)], &[]),
        class_with("tenfold", "", &[("addi", 10)], &[]),
    ];
    let binary = compile_program("main", &objects).unwrap();
    let report = run_binary(binary, 0, &Vec::new(), 1000);
    assert_eq!(report.action, Action::Done(20));
    assert_eq!(report.printed, vec![10]);
}
