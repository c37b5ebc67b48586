//! The compiler: from a chain of classes to bytes.
//!
//! Each class of a chain contributes by the first of these rules that fits:
//!
//! 1. Its string field `jump` names a class of the chain: one `jump`
//!    instruction, whose immediate holds the distance between the two
//!    classes in the chain, at most 15, and in its fifth bit the direction.
//! 2. Its string field `jump` names a known class outside the chain: the
//!    chain of that class is compiled into a function block, and the class
//!    contributes the three instructions of a call. A program holds at most
//!    31 function blocks, and a function block holds no call itself.
//! 3. It has an integer field named after an operation: that instruction,
//!    with the field's value as the immediate. A value outside the range 0
//!    to 31 is not truncated: it fails the compilation.
//! 4. Otherwise it contributes nothing.
//!
//! A `jump` field that names no known class counts as absent. The first
//! class that fails ends the compilation with its error.

use vstd::prelude::*;

use crate::class::chain_of;
use crate::class::chain_view;
use crate::class::classes_view;
use crate::class::find_entry;
use crate::class::find_index;
use crate::class::first_named;
use crate::class::has_chain;
use crate::class::is_first_named;
use crate::class::lemma_first_named;
use crate::class::lemma_first_named_is_first;
use crate::class::lemma_none_named;
use crate::class::ClassView;
use crate::class::JavaFile;
use crate::error::CompileError;
use crate::isa::encode;
use crate::isa::immediate_of;
use crate::isa::instruction;
use crate::isa::opcode_of;
use crate::isa::CALL_SAVE_REGISTER;
use crate::isa::END_MARKER;
use crate::isa::OP_ADD;
use crate::isa::OP_ADDI;
use crate::isa::OP_JUMP;
use crate::isa::OP_LOAD;
use crate::isa::OP_SAVE;
use crate::isa::OP_SKIPEQ;
use crate::isa::OP_SYSCALL;
use crate::isa::START_MARKER;
use crate::isa::SYS_INVOKE;

verus! {

/// The number of operations that an integer field can name.
pub const OPERATIONS: usize = 6;

/// The largest distance that a jump can span.
pub const MAX_JUMP: usize = 15;

/// The largest number of function blocks of one program.
pub const MAX_COROUTINES: u8 = 31;

/// The name of the string field that makes a class a jump or a call.
pub open spec fn jump_field() -> Seq<char> {
    "jump"@
}

/// The name of the `k`-th operation, in the order in which the fields of a
/// class are tried.
pub open spec fn operation_name(k: int) -> Seq<char> {
    if k == 0 {
        "call"@
    } else if k == 1 {
        "save"@
    } else if k == 2 {
        "load"@
    } else if k == 3 {
        "add"@
    } else if k == 4 {
        "addi"@
    } else {
        "skipeq"@
    }
}

/// The opcode of the `k`-th operation.
pub open spec fn operation_code(k: int) -> u8 {
    if k == 0 {
        OP_SYSCALL
    } else if k == 1 {
        OP_SAVE
    } else if k == 2 {
        OP_LOAD
    } else if k == 3 {
        OP_ADD
    } else if k == 4 {
        OP_ADDI
    } else {
        OP_SKIPEQ
    }
}

/// Whether `class` has an integer field named after the `k`-th operation.
pub open spec fn has_operation(class: ClassView, k: int) -> bool {
    0 <= k < OPERATIONS && class.int_fields.contains_key(operation_name(k))
}

/// The first operation, from the `from`-th on, after which an integer field
/// of `class` is named.
pub open spec fn first_operation_from(class: ClassView, from: int) -> Option<int>
    decreases OPERATIONS - from,
{
    if from < 0 || from >= OPERATIONS {
        None
    } else if has_operation(class, from) {
        Some(from)
    } else {
        first_operation_from(class, from + 1)
    }
}

/// The first operation after which an integer field of `class` is named.
pub open spec fn first_operation(class: ClassView) -> Option<int> {
    first_operation_from(class, 0)
}

/// The rule by which a class contributes to the program.
pub enum RuleView {
    /// A jump to the class at this position of the chain.
    Jump(int),
    /// A call of the chain of the class with this index among the known
    /// classes.
    Call(int),
    /// The instruction with this opcode and this value as its immediate.
    Operation(u8, i32),
    /// No instruction.
    Nothing,
}

/// The rule by which a class contributes to the program, as the compiler
/// holds it.
#[derive(Clone, Copy, Debug, PartialEq, Eq, Structural)]
pub enum Rule {
    /// A jump to the class at this position of the chain.
    Jump(usize),
    /// A call of the chain of the class with this index among the known
    /// classes.
    Call(usize),
    /// The instruction with this opcode and this value as its immediate.
    Operation(u8, i32),
    /// No instruction.
    Nothing,
}

impl View for Rule {
    type V = RuleView;

    open spec fn view(&self) -> RuleView {
        match *self {
            Rule::Jump(target) => RuleView::Jump(target as int),
            Rule::Call(target) => RuleView::Call(target as int),
            Rule::Operation(opcode, value) => RuleView::Operation(opcode, value),
            Rule::Nothing => RuleView::Nothing,
        }
    }
}

/// The rule that fits the `i`-th class of `chain`, with `classes` known.
#[verifier::opaque]
pub open spec fn rule_of(chain: Seq<ClassView>, classes: Seq<ClassView>, i: int) -> RuleView {
    let class = chain[i];
    let named = class.str_fields.contains_key(jump_field());
    let name = class.str_fields[jump_field()];
    if named && first_named(chain, name) is Some {
        RuleView::Jump(first_named(chain, name)->0)
    } else if named && first_named(classes, name) is Some {
        RuleView::Call(first_named(classes, name)->0)
    } else {
        match first_operation(class) {
            Some(k) => RuleView::Operation(operation_code(k), class.int_fields[operation_name(k)]),
            None => RuleView::Nothing,
        }
    }
}

/// The immediate of a jump over `offset` classes: the distance in the four
/// low bits, and the fifth bit set for a jump backwards.
pub open spec fn jump_immediate(offset: int) -> u8
    recommends
        -15 <= offset <= 15,
{
    if offset < 0 {
        (16 - offset) as u8
    } else {
        offset as u8
    }
}

/// The jump from position `from` of a chain to position `to`. It fails
/// where the two are more than 15 classes apart.
pub open spec fn jump_instruction(from: int, to: int) -> Result<u8, CompileError> {
    if -15 <= to - from <= 15 {
        Ok(instruction(OP_JUMP, jump_immediate(to - from)))
    } else {
        Err(CompileError::JumpTooFar)
    }
}

/// The instruction `opcode` with `value` as its immediate. It fails where
/// the value is not in the range 0 to 31.
pub open spec fn operation_instruction(opcode: u8, value: i32) -> Result<u8, CompileError> {
    if 0 <= value < 32 {
        Ok(instruction(opcode, value as u8))
    } else {
        Err(CompileError::ImmediateOutOfRange)
    }
}

/// The instructions that call the function block with index `index`: save
/// the accumulator, load the register `index`, invoke.
pub open spec fn call_sequence(index: int) -> Seq<u8>
    recommends
        0 <= index < MAX_COROUTINES,
{
    seq![
        instruction(OP_SAVE, CALL_SAVE_REGISTER),
        instruction(OP_LOAD, index as u8),
        instruction(OP_SYSCALL, SYS_INVOKE),
    ]
}

/// The function block with the body `body`: the body between the two markers.
pub open spec fn function_block(body: Seq<u8>) -> Seq<u8> {
    seq![START_MARKER] + body + seq![END_MARKER]
}

/// The number of calls among the first `n` classes of `chain`.
pub open spec fn call_count(chain: Seq<ClassView>, classes: Seq<ClassView>, n: int) -> int
    decreases n,
{
    if n <= 0 {
        0
    } else if rule_of(chain, classes, n - 1) is Call {
        call_count(chain, classes, n - 1) + 1
    } else {
        call_count(chain, classes, n - 1)
    }
}

/// What a compilation gives: the function blocks, and the instructions of
/// the chain itself.
pub struct Program {
    /// The function blocks, in the order of the calls.
    pub coroutines: Seq<u8>,
    /// The instructions of the chain.
    pub instructions: Seq<u8>,
}

impl Program {
    /// The program without a byte.
    pub open spec fn empty() -> Program {
        Program { coroutines: Seq::<u8>::empty(), instructions: Seq::<u8>::empty() }
    }

    /// The program with one more instruction.
    pub open spec fn with_instruction(self, byte: u8) -> Program {
        Program { instructions: self.instructions.push(byte), ..self }
    }

    /// The program with one more function block, and with the call of that
    /// block, the `index`-th, among its instructions.
    pub open spec fn with_call(self, block: Seq<u8>, index: int) -> Program {
        Program {
            coroutines: self.coroutines + block,
            instructions: self.instructions + call_sequence(index),
        }
    }
}

/// The function block of the class with index `target` among `classes`: its
/// chain, compiled with no class known, so that the block can hold no call
/// itself. It fails where the class has no chain, and where that chain does
/// not compile.
#[verifier::opaque]
pub open spec fn call_block(classes: Seq<ClassView>, target: int) -> Result<Seq<u8>, CompileError>
    decreases classes.len(), 0int, 0int,
    when 0 <= target < classes.len()
{
    if !has_chain(classes, classes[target]) {
        Err(CompileError::CyclicChain)
    } else {
        match compiled(chain_of(classes, classes[target]), Seq::<ClassView>::empty()) {
            Ok(callee) => Ok(function_block(callee.instructions)),
            Err(error) => Err(error),
        }
    }
}

/// What the `i`-th class of `chain` adds to the program `before` of the
/// classes before it. A call fails where 31 function blocks exist already.
pub open spec fn compile_class(
    chain: Seq<ClassView>,
    classes: Seq<ClassView>,
    i: int,
    before: Program,
) -> Result<Program, CompileError>
    decreases classes.len(), 1int, 0int,
{
    match rule_of(chain, classes, i) {
        RuleView::Jump(target) => match jump_instruction(i, target) {
            Ok(byte) => Ok(before.with_instruction(byte)),
            Err(error) => Err(error),
        },
        RuleView::Call(target) => {
            if call_count(chain, classes, i) >= MAX_COROUTINES {
                Err(CompileError::CoroutineOverflow)
            } else {
                match call_block(classes, target) {
                    Ok(block) => Ok(before.with_call(block, call_count(chain, classes, i))),
                    Err(error) => Err(error),
                }
            }
        },
        RuleView::Operation(opcode, value) => match operation_instruction(opcode, value) {
            Ok(byte) => Ok(before.with_instruction(byte)),
            Err(error) => Err(error),
        },
        RuleView::Nothing => Ok(before),
    }
}

/// The program of the first `n` classes of `chain`, or the error of the
/// first class that fails.
pub open spec fn compiled_to(chain: Seq<ClassView>, classes: Seq<ClassView>, n: int) -> Result<
    Program,
    CompileError,
>
    decreases classes.len(), 2int, n,
{
    if n <= 0 {
        Ok(Program::empty())
    } else {
        match compiled_to(chain, classes, n - 1) {
            Ok(before) => compile_class(chain, classes, n - 1, before),
            Err(error) => Err(error),
        }
    }
}

/// The program of `chain`, with `classes` known.
pub open spec fn compiled(chain: Seq<ClassView>, classes: Seq<ClassView>) -> Result<
    Program,
    CompileError,
>
    decreases classes.len(), 3int, 0int,
{
    compiled_to(chain, classes, chain.len() as int)
}

/// Whether `output` is what a compilation with the outcome `expected`
/// returns: the same bytes, or the same error.
pub open spec fn is_output(
    output: Result<(Vec<u8>, Vec<u8>), CompileError>,
    expected: Result<Program, CompileError>,
) -> bool {
    match (output, expected) {
        (Ok(bytes), Ok(program)) => bytes.0@ == program.coroutines && bytes.1@
            == program.instructions,
        (Err(error), Err(wanted)) => error == wanted,
        _ => false,
    }
}

/// The binary of a program: its function blocks, then its instructions.
pub open spec fn binary_of(program: Program) -> Seq<u8> {
    program.coroutines + program.instructions
}

/// The binary of the class named `entry` among `classes`.
///
/// Fails where no class has that name, where the class has no chain, and
/// where its chain does not compile.
pub open spec fn compiled_binary(entry: Seq<char>, classes: Seq<ClassView>) -> Result<
    Seq<u8>,
    CompileError,
> {
    match first_named(classes, entry) {
        None => Err(CompileError::UnresolvedEntry),
        Some(i) => {
            if !has_chain(classes, classes[i]) {
                Err(CompileError::CyclicChain)
            } else {
                match compiled(chain_of(classes, classes[i]), classes) {
                    Ok(program) => Ok(binary_of(program)),
                    Err(error) => Err(error),
                }
            }
        },
    }
}

/// The error of a class is the error of every longer part of the chain.
pub proof fn lemma_error_stays(chain: Seq<ClassView>, classes: Seq<ClassView>, m: int, n: int)
    requires
        m <= n,
        compiled_to(chain, classes, m) is Err,
    ensures
        compiled_to(chain, classes, n) == compiled_to(chain, classes, m),
    decreases n - m,
{
    if m < n {
        lemma_error_stays(chain, classes, m, n - 1);
    }
}

/// The operation that is tried first and fits is the first operation.
proof fn lemma_first_operation(class: ClassView, from: int, k: int)
    requires
        0 <= from <= k,
        has_operation(class, k),
        forall|j: int| from <= j < k ==> !has_operation(class, j),
    ensures
        first_operation_from(class, from) == Some(k),
    decreases k - from,
{
    if from < k {
        lemma_first_operation(class, from + 1, k);
    }
}

/// Whether `class` has no `jump` field and exactly one integer field named
/// after an operation, with a value in the range 0 to 31.
pub open spec fn is_plain(class: ClassView) -> bool {
    &&& !class.str_fields.contains_key(jump_field())
    &&& exists|k: int| has_only_operation(class, k)
}

/// Whether the `k`-th operation is the only one after which an integer field
/// of `class` is named, and the value of that field is in the range 0 to 31.
pub open spec fn has_only_operation(class: ClassView, k: int) -> bool {
    &&& has_operation(class, k)
    &&& forall|j: int| has_operation(class, j) ==> j == k
    &&& 0 <= class.int_fields[operation_name(k)] < 32
}

/// A chain of classes that each have no `jump` field and one operation
/// field, with a value in the range 0 to 31, compiles to one instruction for
/// each class, in the order of the chain, and to no function block. The
/// opcode of each instruction is that of the operation that its class names,
/// and its immediate is the value of that field.
pub proof fn lemma_plain_chain(chain: Seq<ClassView>, classes: Seq<ClassView>)
    requires
        forall|i: int| 0 <= i < chain.len() ==> is_plain(#[trigger] chain[i]),
    ensures
        compiled(chain, classes) is Ok,
        compiled(chain, classes)->Ok_0.coroutines.len() == 0,
        compiled(chain, classes)->Ok_0.instructions.len() == chain.len(),
        forall|i: int, k: int|
            0 <= i < chain.len() && #[trigger] has_operation(chain[i], k) ==> {
                let byte = compiled(chain, classes)->Ok_0.instructions[i];
                &&& opcode_of(byte) == operation_code(k)
                &&& immediate_of(byte) == chain[i].int_fields[operation_name(k)]
            },
{
    lemma_plain_chain_to(chain, classes, chain.len() as int);
}

/// The first `n` classes of a chain of classes that each have one operation
/// field and no `jump` field compile to `n` instructions.
proof fn lemma_plain_chain_to(chain: Seq<ClassView>, classes: Seq<ClassView>, n: int)
    requires
        0 <= n <= chain.len(),
        forall|i: int| 0 <= i < chain.len() ==> is_plain(#[trigger] chain[i]),
    ensures
        compiled_to(chain, classes, n) is Ok,
        compiled_to(chain, classes, n)->Ok_0.coroutines.len() == 0,
        compiled_to(chain, classes, n)->Ok_0.instructions.len() == n,
        forall|i: int, k: int|
            0 <= i < n && #[trigger] has_operation(chain[i], k) ==> {
                let byte = compiled_to(chain, classes, n)->Ok_0.instructions[i];
                &&& opcode_of(byte) == operation_code(k)
                &&& immediate_of(byte) == chain[i].int_fields[operation_name(k)]
            },
    decreases n,
{
    if n > 0 {
        lemma_plain_chain_to(chain, classes, n - 1);
        let class = chain[n - 1];
        assert(is_plain(class));
        let only = choose|k: int| has_only_operation(class, k);
        lemma_first_operation(class, 0, only);
        let value = class.int_fields[operation_name(only)];
        assert(rule_of(chain, classes, n - 1) == RuleView::Operation(operation_code(only), value)) by {
            reveal(rule_of);
        }
        let before = compiled_to(chain, classes, n - 1)->Ok_0;
        let byte = instruction(operation_code(only), value as u8);
        assert(compile_class(chain, classes, n - 1, before) == Ok::<Program, CompileError>(
            before.with_instruction(byte),
        ));
        assert(compiled_to(chain, classes, n) == Ok::<Program, CompileError>(
            before.with_instruction(byte),
        ));
        assert(opcode_of(byte) == operation_code(only));
        assert(immediate_of(byte) == value);
    }
}

/// A class with one operation field and no `jump` field whose value is not
/// in the range 0 to 31 makes the compilation of its chain fail.
pub proof fn lemma_value_out_of_range(chain: Seq<ClassView>, classes: Seq<ClassView>, i: int, k: int)
    requires
        0 <= i < chain.len(),
        !chain[i].str_fields.contains_key(jump_field()),
        has_operation(chain[i], k),
        forall|j: int| has_operation(chain[i], j) ==> j == k,
        !(0 <= chain[i].int_fields[operation_name(k)] < 32),
    ensures
        compiled(chain, classes) is Err,
{
    lemma_first_operation(chain[i], 0, k);
    if compiled_to(chain, classes, i) is Err {
        lemma_error_stays(chain, classes, i, chain.len() as int);
    } else {
        let before = compiled_to(chain, classes, i)->Ok_0;
        assert(compile_class(chain, classes, i, before) is Err) by {
            reveal(rule_of);
        }
        assert(compiled_to(chain, classes, i + 1) is Err);
        lemma_error_stays(chain, classes, i + 1, chain.len() as int);
    }
}

/// Compiling the same chain with the same classes twice gives the same
/// bytes, or the same error.
pub proof fn lemma_compile_deterministic(
    chain: Seq<ClassView>,
    classes: Seq<ClassView>,
    first: Result<(Vec<u8>, Vec<u8>), CompileError>,
    second: Result<(Vec<u8>, Vec<u8>), CompileError>,
)
    requires
        is_output(first, compiled(chain, classes)),
        is_output(second, compiled(chain, classes)),
    ensures
        match (first, second) {
            (Ok(one), Ok(other)) => one.0@ == other.0@ && one.1@ == other.1@,
            (Err(error), Err(other)) => error == other,
            _ => false,
        },
{
}

/// Whether the `i`-th class of `chain` can fail for no other reason than
/// the number of function blocks: its jump is not too far, the class it
/// calls has a function block, or its operation has a value in range.
pub open spec fn class_fits(chain: Seq<ClassView>, classes: Seq<ClassView>, i: int) -> bool {
    match rule_of(chain, classes, i) {
        RuleView::Jump(target) => jump_instruction(i, target) is Ok,
        RuleView::Call(target) => call_block(classes, target) is Ok,
        RuleView::Operation(opcode, value) => operation_instruction(opcode, value) is Ok,
        RuleView::Nothing => true,
    }
}

/// A jump leads to a class of the chain, and a call to a known class.
pub proof fn lemma_rule_targets(chain: Seq<ClassView>, classes: Seq<ClassView>, i: int)
    ensures
        rule_of(chain, classes, i) matches RuleView::Jump(target) ==> is_first_named(
            chain,
            chain[i].str_fields[jump_field()],
            target,
        ),
        rule_of(chain, classes, i) matches RuleView::Call(target) ==> is_first_named(
            classes,
            chain[i].str_fields[jump_field()],
            target,
        ),
{
    reveal(rule_of);
    let name = chain[i].str_fields[jump_field()];
    lemma_first_named_is_first(chain, name);
    lemma_first_named_is_first(classes, name);
}

/// The number of calls does not shrink along the chain.
proof fn lemma_call_count_grows(chain: Seq<ClassView>, classes: Seq<ClassView>, m: int, n: int)
    requires
        m <= n,
    ensures
        0 <= call_count(chain, classes, m) <= call_count(chain, classes, n),
    decreases n - m,
{
    if m < n {
        lemma_call_count_grows(chain, classes, m, n - 1);
    } else {
        lemma_call_count_not_negative(chain, classes, m);
    }
}

/// The number of calls is not negative.
proof fn lemma_call_count_not_negative(chain: Seq<ClassView>, classes: Seq<ClassView>, n: int)
    ensures
        0 <= call_count(chain, classes, n),
    decreases n,
{
    if n > 0 {
        lemma_call_count_not_negative(chain, classes, n - 1);
    }
}

/// What compiles holds at most 31 calls.
proof fn lemma_compiled_calls(chain: Seq<ClassView>, classes: Seq<ClassView>, n: int)
    requires
        compiled_to(chain, classes, n) is Ok,
    ensures
        call_count(chain, classes, n) <= MAX_COROUTINES,
    decreases n,
{
    if n > 0 {
        lemma_compiled_calls(chain, classes, n - 1);
        let before = compiled_to(chain, classes, n - 1)->Ok_0;
        assert(compile_class(chain, classes, n - 1, before) is Ok);
    }
}

/// A chain with more than 31 calls does not compile.
pub proof fn lemma_too_many_calls(chain: Seq<ClassView>, classes: Seq<ClassView>)
    requires
        call_count(chain, classes, chain.len() as int) > MAX_COROUTINES,
    ensures
        compiled(chain, classes) is Err,
{
    if compiled(chain, classes) is Ok {
        lemma_compiled_calls(chain, classes, chain.len() as int);
    }
}

/// A chain with at most 31 calls compiles, where none of its classes fails
/// for another reason than the number of function blocks. Such a chain with
/// more calls fails for that reason.
pub proof fn lemma_call_limit(chain: Seq<ClassView>, classes: Seq<ClassView>)
    requires
        forall|i: int| 0 <= i < chain.len() ==> class_fits(chain, classes, i),
    ensures
        call_count(chain, classes, chain.len() as int) <= MAX_COROUTINES ==> compiled(
            chain,
            classes,
        ) is Ok,
        call_count(chain, classes, chain.len() as int) > MAX_COROUTINES ==> compiled(chain, classes)
            == Err::<Program, CompileError>(CompileError::CoroutineOverflow),
{
    lemma_call_limit_to(chain, classes, chain.len() as int);
}

/// The first `n` classes of a chain compile where they hold at most 31
/// calls and none of them fails for another reason; with more calls they
/// fail for that reason.
proof fn lemma_call_limit_to(chain: Seq<ClassView>, classes: Seq<ClassView>, n: int)
    requires
        0 <= n <= chain.len(),
        forall|i: int| 0 <= i < chain.len() ==> class_fits(chain, classes, i),
    ensures
        call_count(chain, classes, n) <= MAX_COROUTINES ==> compiled_to(chain, classes, n) is Ok,
        call_count(chain, classes, n) > MAX_COROUTINES ==> compiled_to(chain, classes, n) == Err::<
            Program,
            CompileError,
        >(CompileError::CoroutineOverflow),
    decreases n,
{
    if n > 0 {
        lemma_call_limit_to(chain, classes, n - 1);
        lemma_call_count_grows(chain, classes, n - 1, n);
        assert(class_fits(chain, classes, n - 1));
        if compiled_to(chain, classes, n - 1) is Ok {
            let before = compiled_to(chain, classes, n - 1)->Ok_0;
            assert(compiled_to(chain, classes, n) == compile_class(chain, classes, n - 1, before));
            if call_count(chain, classes, n) <= MAX_COROUTINES {
                assert(compile_class(chain, classes, n - 1, before) is Ok) by {
                    reveal(call_block);
                    lemma_rule_targets(chain, classes, n - 1);
                }
            }
        }
    }
}

/// The name of the `k`-th operation.
pub fn operation_name_at(k: usize) -> (name: &'static str)
    requires
        k < OPERATIONS,
    ensures
        name@ == operation_name(k as int),
{
    if k == 0 {
        "call"
    } else if k == 1 {
        "save"
    } else if k == 2 {
        "load"
    } else if k == 3 {
        "add"
    } else if k == 4 {
        "addi"
    } else {
        "skipeq"
    }
}

/// The opcode of the `k`-th operation.
pub fn operation_code_at(k: usize) -> (opcode: u8)
    requires
        k < OPERATIONS,
    ensures
        opcode == operation_code(k as int),
        0 < opcode < 8,
{
    if k == 0 {
        OP_SYSCALL
    } else if k == 1 {
        OP_SAVE
    } else if k == 2 {
        OP_LOAD
    } else if k == 3 {
        OP_ADD
    } else if k == 4 {
        OP_ADDI
    } else {
        OP_SKIPEQ
    }
}

/// The opcode and the value of the first operation after which an integer
/// field of `class` is named.
pub fn operation_of(class: &JavaFile) -> (r: Option<(u8, i32)>)
    ensures
        match r {
            Some(found) => match first_operation(class@) {
                Some(k) => 0 <= k < OPERATIONS && found.0 == operation_code(k) && found.1
                    == class@.int_fields[operation_name(k)],
                None => false,
            },
            None => first_operation(class@) is None,
        },
{
    let mut k: usize = 0;
    while k < OPERATIONS
        invariant
            k <= OPERATIONS,
            first_operation(class@) == first_operation_from(class@, k as int),
        decreases OPERATIONS - k,
    {
        match class.int_field(operation_name_at(k)) {
            Some(value) => {
                return Some((operation_code_at(k), value));
            },
            None => {},
        }
        k = k + 1;
    }
    None
}

/// The position in `chain` of the first class with the name `name`.
pub fn position(chain: &Vec<&JavaFile>, name: &str) -> (r: Option<usize>)
    ensures
        match r {
            Some(i) => i < chain@.len() && first_named(chain_view(chain@), name@) == Some(i as int),
            None => first_named(chain_view(chain@), name@) is None,
        },
{
    let wanted = name.to_owned();
    let mut i: usize = 0;
    while i < chain.len()
        invariant
            i <= chain.len(),
            wanted@ == name@,
            forall|j: int| 0 <= j < i ==> (#[trigger] chain_view(chain@)[j]).name != name@,
        decreases chain.len() - i,
    {
        if chain[i].name == wanted {
            proof {
                lemma_first_named(chain_view(chain@), name@, i as int);
            }
            return Some(i);
        }
        i = i + 1;
    }
    proof {
        lemma_none_named(chain_view(chain@), name@);
    }
    None
}

/// The rule that fits the `i`-th class of `chain`, with `objects` known.
pub fn find_rule(chain: &Vec<&JavaFile>, objects: &Vec<JavaFile>, i: usize) -> (rule: Rule)
    requires
        i < chain@.len(),
    ensures
        rule@ == rule_of(chain_view(chain@), classes_view(objects@), i as int),
        rule matches Rule::Jump(target) ==> target < chain@.len(),
        rule matches Rule::Call(target) ==> target < objects@.len(),
        rule matches Rule::Operation(opcode, _) ==> 0 < opcode < 8,
{
    proof {
        reveal(rule_of);
    }
    let current: &JavaFile = chain[i];
    assert(current@ == chain_view(chain@)[i as int]);
    match current.str_field("jump") {
        Some(name) => {
            match position(chain, name.as_str()) {
                Some(target) => {
                    return Rule::Jump(target);
                },
                None => {},
            }
            match find_index(name.as_str(), objects) {
                Some(target) => {
                    proof {
                        lemma_first_named_is_first(classes_view(objects@), name@);
                    }
                    return Rule::Call(target);
                },
                None => {},
            }
        },
        None => {},
    }
    match operation_of(current) {
        Some(found) => Rule::Operation(found.0, found.1),
        None => Rule::Nothing,
    }
}

/// The jump from position `from` of a chain to position `to`.
pub fn compile_jump(from: usize, to: usize) -> (r: Result<u8, CompileError>)
    ensures
        r == jump_instruction(from as int, to as int),
{
    if to >= from {
        if to - from > MAX_JUMP {
            return Err(CompileError::JumpTooFar);
        }
        let distance: u8 = (to - from) as u8;
        Ok(encode(OP_JUMP, distance))
    } else {
        if from - to > MAX_JUMP {
            return Err(CompileError::JumpTooFar);
        }
        let distance: u8 = (from - to) as u8;
        Ok(encode(OP_JUMP, 16 + distance))
    }
}

/// The instruction `opcode` with `value` as its immediate.
pub fn compile_operation(opcode: u8, value: i32) -> (r: Result<u8, CompileError>)
    requires
        opcode < 8,
    ensures
        r == operation_instruction(opcode, value),
{
    if value < 0 || value >= 32 {
        return Err(CompileError::ImmediateOutOfRange);
    }
    Ok(encode(opcode, value as u8))
}

/// The function block of the class with index `target` among `objects`.
pub fn compile_call(objects: &Vec<JavaFile>, target: usize) -> (r: Result<Vec<u8>, CompileError>)
    requires
        target < objects@.len(),
    ensures
        match (r, call_block(classes_view(objects@), target as int)) {
            (Ok(block), Ok(expected)) => block@ == expected,
            (Err(error), Err(wanted)) => error == wanted,
            _ => false,
        },
    decreases objects@.len(), 0int,
{
    proof {
        reveal(call_block);
    }
    let outer = match objects[target].chain(objects) {
        Ok(outer) => outer,
        Err(error) => {
            return Err(error);
        },
    };
    let nothing: Vec<JavaFile> = Vec::new();
    assert(classes_view(nothing@) =~= Seq::<ClassView>::empty());
    let mut body = match compile_chain(outer, &nothing) {
        Ok(bytes) => bytes.1,
        Err(error) => {
            return Err(error);
        },
    };
    let ghost instructions = body@;
    let mut block: Vec<u8> = Vec::new();
    block.push(START_MARKER);
    block.append(&mut body);
    block.push(END_MARKER);
    assert(block@ =~= function_block(instructions));
    Ok(block)
}

/// Adds to `coroutines` and `instructions` what the `i`-th class of `chain`
/// contributes, where `count` function blocks exist already, and returns the
/// number of function blocks that exist then.
fn compile_step(
    chain: &Vec<&JavaFile>,
    objects: &Vec<JavaFile>,
    i: usize,
    count: u8,
    coroutines: &mut Vec<u8>,
    instructions: &mut Vec<u8>,
) -> (r: Result<u8, CompileError>)
    requires
        i < chain@.len(),
        count == call_count(chain_view(chain@), classes_view(objects@), i as int),
        count <= MAX_COROUTINES,
    ensures
        match compile_class(
            chain_view(chain@),
            classes_view(objects@),
            i as int,
            Program { coroutines: old(coroutines)@, instructions: old(instructions)@ },
        ) {
            Ok(program) => {
                &&& r is Ok
                &&& final(coroutines)@ == program.coroutines
                &&& final(instructions)@ == program.instructions
            },
            Err(error) => r == Err::<u8, CompileError>(error),
        },
        r matches Ok(blocks) ==> blocks <= MAX_COROUTINES && blocks == call_count(
            chain_view(chain@),
            classes_view(objects@),
            i + 1,
        ),
    decreases objects@.len(), 1int,
{
    let ghost before = Program { coroutines: coroutines@, instructions: instructions@ };
    let ghost links = chain_view(chain@);
    let ghost classes = classes_view(objects@);
    match find_rule(chain, objects, i) {
        Rule::Jump(target) => match compile_jump(i, target) {
            Ok(byte) => {
                instructions.push(byte);
                Ok(count)
            },
            Err(error) => Err(error),
        },
        Rule::Call(target) => {
            if count >= MAX_COROUTINES {
                return Err(CompileError::CoroutineOverflow);
            }
            proof {
                reveal(call_block);
            }
            match compile_call(objects, target) {
                Ok(block) => {
                    let mut block = block;
                    coroutines.append(&mut block);
                    instructions.push(encode(OP_SAVE, CALL_SAVE_REGISTER));
                    instructions.push(encode(OP_LOAD, count));
                    instructions.push(encode(OP_SYSCALL, SYS_INVOKE));
                    assert(instructions@ =~= before.instructions + call_sequence(count as int));
                    Ok(count + 1)
                },
                Err(error) => Err(error),
            }
        },
        Rule::Operation(opcode, value) => match compile_operation(opcode, value) {
            Ok(byte) => {
                instructions.push(byte);
                Ok(count)
            },
            Err(error) => Err(error),
        },
        Rule::Nothing => Ok(count),
    }
}

/// Compiles a chain, with `objects` as the known classes, and returns the
/// bytes of the function blocks and the bytes of the chain's instructions.
pub fn compile_chain(chain: Vec<&JavaFile>, objects: &Vec<JavaFile>) -> (r: Result<
    (Vec<u8>, Vec<u8>),
    CompileError,
>)
    ensures
        is_output(r, compiled(chain_view(chain@), classes_view(objects@))),
    decreases objects@.len(), 2int,
{
    let ghost links = chain_view(chain@);
    let ghost classes = classes_view(objects@);
    let mut coroutines: Vec<u8> = Vec::new();
    let mut instructions: Vec<u8> = Vec::new();
    let mut count: u8 = 0;
    let mut i: usize = 0;
    while i < chain.len()
        invariant
            i <= chain.len(),
            links == chain_view(chain@),
            classes == classes_view(objects@),
            count == call_count(links, classes, i as int),
            count <= MAX_COROUTINES,
            compiled_to(links, classes, i as int) == Ok::<Program, CompileError>(
                Program { coroutines: coroutines@, instructions: instructions@ },
            ),
        decreases chain.len() - i,
    {
        match compile_step(&chain, objects, i, count, &mut coroutines, &mut instructions) {
            Ok(blocks) => {
                count = blocks;
            },
            Err(error) => {
                proof {
                    lemma_error_stays(links, classes, i + 1, links.len() as int);
                }
                return Err(error);
            },
        }
        i = i + 1;
    }
    Ok((coroutines, instructions))
}

/// Joins the function blocks and the instructions of a program into its
/// binary: the function blocks first.
pub fn emit_binary(coroutines: &Vec<u8>, instructions: &Vec<u8>) -> (binary: Vec<u8>)
    ensures
        binary@ == coroutines@ + instructions@,
{
    let mut binary: Vec<u8> = Vec::new();
    let mut i: usize = 0;
    while i < coroutines.len()
        invariant
            i <= coroutines.len(),
            binary@ == coroutines@.subrange(0, i as int),
        decreases coroutines.len() - i,
    {
        binary.push(coroutines[i]);
        i = i + 1;
        assert(binary@ =~= coroutines@.subrange(0, i as int));
    }
    assert(coroutines@.subrange(0, i as int) =~= coroutines@);
    let mut j: usize = 0;
    while j < instructions.len()
        invariant
            j <= instructions.len(),
            binary@ == coroutines@ + instructions@.subrange(0, j as int),
        decreases instructions.len() - j,
    {
        binary.push(instructions[j]);
        j = j + 1;
        assert(binary@ =~= coroutines@ + instructions@.subrange(0, j as int));
    }
    assert(instructions@.subrange(0, j as int) =~= instructions@);
    binary
}

/// Compiles the class named `entry` among `objects` into a binary.
pub fn compile_program(entry: &str, objects: &Vec<JavaFile>) -> (r: Result<Vec<u8>, CompileError>)
    ensures
        match (r, compiled_binary(entry@, classes_view(objects@))) {
            (Ok(binary), Ok(expected)) => binary@ == expected,
            (Err(error), Err(wanted)) => error == wanted,
            _ => false,
        },
{
    let start = match find_entry(entry, objects) {
        Some(start) => start,
        None => {
            return Err(CompileError::UnresolvedEntry);
        },
    };
    let chain = match start.chain(objects) {
        Ok(chain) => chain,
        Err(error) => {
            return Err(error);
        },
    };
    match compile_chain(chain, objects) {
        Ok(bytes) => Ok(emit_binary(&bytes.0, &bytes.1)),
        Err(error) => Err(error),
    }
}

} // verus!
