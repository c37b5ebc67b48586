//! One line of text for each byte of a program.
//!
//! A line holds the opcode in three binary digits, the immediate in five
//! binary digits, the immediate in decimal, padded with spaces to eight
//! characters, and behind a tab and `# ` a comment that names the
//! instruction.

use vstd::prelude::*;
use vstd::string::StringExecFns;

use crate::isa::decode;
use crate::isa::immediate_of;
use crate::isa::opcode_of;
use crate::isa::OP_ADD;
use crate::isa::OP_ADDI;
use crate::isa::OP_JUMP;
use crate::isa::OP_LOAD;
use crate::isa::OP_SAVE;
use crate::isa::OP_SKIPEQ;
use crate::isa::OP_SYSCALL;
use crate::isa::SYS_BEGIN;
use crate::isa::SYS_END;
use crate::isa::SYS_EXIT;
use crate::isa::SYS_INVOKE;
use crate::isa::SYS_NOOP;
use crate::isa::SYS_PRINT;
use crate::isa::SYS_READ;

verus! {

/// The width to which the decimal immediate is padded.
pub const DECIMAL_WIDTH: usize = 8;

/// The character of the digit `digit`.
pub open spec fn digit_char(digit: int) -> char
    recommends
        0 <= digit < 10,
{
    if digit == 0 {
        '0'
    } else if digit == 1 {
        '1'
    } else if digit == 2 {
        '2'
    } else if digit == 3 {
        '3'
    } else if digit == 4 {
        '4'
    } else if digit == 5 {
        '5'
    } else if digit == 6 {
        '6'
    } else if digit == 7 {
        '7'
    } else if digit == 8 {
        '8'
    } else {
        '9'
    }
}

/// `value` in decimal, without leading zeros.
pub open spec fn decimal(value: nat) -> Seq<char>
    decreases value,
{
    if value < 10 {
        seq![digit_char(value as int)]
    } else {
        decimal(value / 10).push(digit_char((value % 10) as int))
    }
}

/// The `width` low binary digits of `value`, the highest first.
pub open spec fn binary(value: nat, width: nat) -> Seq<char>
    decreases width,
{
    if width == 0 {
        Seq::<char>::empty()
    } else {
        binary(value / 2, (width - 1) as nat).push(digit_char((value % 2) as int))
    }
}

/// `count` spaces.
pub open spec fn spaces(count: nat) -> Seq<char> {
    Seq::new(count, |i: int| ' ')
}

/// `text`, followed by the spaces that it lacks to be `width` characters
/// long.
pub open spec fn left_aligned(text: Seq<char>, width: nat) -> Seq<char> {
    if text.len() >= width {
        text
    } else {
        text + spaces((width - text.len()) as nat)
    }
}

/// What the system call `code` does, in words; its number where the code
/// is unknown.
pub open spec fn syscall_text(code: u8) -> Seq<char> {
    if code == SYS_NOOP {
        "do nothing"@
    } else if code == SYS_PRINT {
        "print to stdout"@
    } else if code == SYS_READ {
        "read from stdin"@
    } else if code == SYS_EXIT {
        "exit program"@
    } else if code == SYS_INVOKE {
        "run function"@
    } else {
        decimal(code as nat)
    }
}

/// The offset of a jump with the immediate `immediate`, in decimal: the
/// immediate, negated.
pub open spec fn offset_text(immediate: u8) -> Seq<char> {
    if immediate == 0 {
        decimal(0)
    } else {
        seq!['-'] + decimal(immediate as nat)
    }
}

/// The comment for the instruction `opcode`, `immediate`; empty for the
/// opcode 0.
pub open spec fn comment(opcode: u8, immediate: u8) -> Seq<char> {
    if opcode == OP_SYSCALL {
        if immediate == SYS_BEGIN {
            "-- Start function"@
        } else if immediate == SYS_END {
            "-- End function"@
        } else {
            "Syscall: "@ + syscall_text(immediate)
        }
    } else if opcode == OP_SAVE {
        "Save: register "@ + decimal(immediate as nat)
    } else if opcode == OP_LOAD {
        "Load: register "@ + decimal(immediate as nat)
    } else if opcode == OP_JUMP {
        "Jump: with offset "@ + offset_text(immediate)
    } else if opcode == OP_ADD {
        "Add: register "@ + decimal(immediate as nat)
    } else if opcode == OP_ADDI {
        "Addi: immediate "@ + decimal(immediate as nat)
    } else if opcode == OP_SKIPEQ {
        "Skipeq: register "@ + decimal(immediate as nat)
    } else {
        Seq::<char>::empty()
    }
}

/// The line that describes the instruction `opcode`, `immediate`.
pub open spec fn line(opcode: u8, immediate: u8) -> Seq<char> {
    binary(opcode as nat, 3) + seq![' '] + binary(immediate as nat, 5) + seq![' '] + left_aligned(
        decimal(immediate as nat),
        DECIMAL_WIDTH as nat,
    ) + "\t# "@ + comment(opcode, immediate)
}

/// The line that describes `byte`.
pub open spec fn description(byte: u8) -> Seq<char> {
    line(opcode_of(byte), immediate_of(byte))
}

/// The number of digits of a number below 256.
proof fn lemma_decimal_len(value: nat)
    requires
        value < 256,
    ensures
        decimal(value).len() == (if value < 10 {
            1nat
        } else if value < 100 {
            2nat
        } else {
            3nat
        }),
{
    reveal_with_fuel(decimal, 3);
}

/// Appends the character of the digit `digit`.
fn push_digit(text: &mut String, digit: u8)
    requires
        digit < 10,
    ensures
        final(text)@ == old(text)@.push(digit_char(digit as int)),
{
    proof {
        reveal_strlit("0");
        reveal_strlit("1");
        reveal_strlit("2");
        reveal_strlit("3");
        reveal_strlit("4");
        reveal_strlit("5");
        reveal_strlit("6");
        reveal_strlit("7");
        reveal_strlit("8");
        reveal_strlit("9");
    }
    let digits: &str = if digit == 0 {
        "0"
    } else if digit == 1 {
        "1"
    } else if digit == 2 {
        "2"
    } else if digit == 3 {
        "3"
    } else if digit == 4 {
        "4"
    } else if digit == 5 {
        "5"
    } else if digit == 6 {
        "6"
    } else if digit == 7 {
        "7"
    } else if digit == 8 {
        "8"
    } else {
        "9"
    };
    text.append(digits);
    assert(text@ =~= old(text)@.push(digit_char(digit as int)));
}

/// Appends `value` in decimal.
pub fn push_decimal(text: &mut String, value: u8)
    ensures
        final(text)@ == old(text)@ + decimal(value as nat),
{
    proof {
        reveal_with_fuel(decimal, 3);
    }
    if value >= 100 {
        push_digit(text, value / 100);
    }
    if value >= 10 {
        push_digit(text, (value / 10) % 10);
    }
    push_digit(text, value % 10);
    assert(text@ =~= old(text)@ + decimal(value as nat));
}

/// Appends the `width` low binary digits of `value`.
pub fn push_binary(text: &mut String, value: u8, width: u8)
    ensures
        final(text)@ == old(text)@ + binary(value as nat, width as nat),
    decreases width,
{
    if width == 0 {
        assert(text@ =~= old(text)@ + binary(value as nat, width as nat));
    } else {
        push_binary(text, value / 2, width - 1);
        push_digit(text, value % 2);
        assert(text@ =~= old(text)@ + binary(value as nat, width as nat));
    }
}

/// Appends `count` spaces.
pub fn push_spaces(text: &mut String, count: usize)
    ensures
        final(text)@ == old(text)@ + spaces(count as nat),
{
    proof {
        reveal_strlit(" ");
    }
    let mut done: usize = 0;
    assert(text@ =~= old(text)@ + spaces(0));
    while done < count
        invariant
            done <= count,
            text@ == old(text)@ + spaces(done as nat),
            " "@ == seq![' '],
        decreases count - done,
    {
        text.append(" ");
        done = done + 1;
        assert(text@ =~= old(text)@ + spaces(done as nat));
    }
}

/// Appends `value` in decimal, padded with spaces to `DECIMAL_WIDTH`
/// characters.
pub fn push_padded_decimal(text: &mut String, value: u8)
    ensures
        final(text)@ == old(text)@ + left_aligned(decimal(value as nat), DECIMAL_WIDTH as nat),
{
    proof {
        lemma_decimal_len(value as nat);
    }
    push_decimal(text, value);
    let digits: usize = if value < 10 {
        1
    } else if value < 100 {
        2
    } else {
        3
    };
    push_spaces(text, DECIMAL_WIDTH - digits);
    assert(text@ =~= old(text)@ + left_aligned(decimal(value as nat), DECIMAL_WIDTH as nat));
}

/// Appends what the system call `code` does, in words.
fn push_syscall_text(text: &mut String, code: u8)
    ensures
        final(text)@ == old(text)@ + syscall_text(code),
{
    if code == SYS_NOOP {
        text.append("do nothing");
    } else if code == SYS_PRINT {
        text.append("print to stdout");
    } else if code == SYS_READ {
        text.append("read from stdin");
    } else if code == SYS_EXIT {
        text.append("exit program");
    } else if code == SYS_INVOKE {
        text.append("run function");
    } else {
        push_decimal(text, code);
    }
}

/// Appends the offset of a jump with the immediate `immediate`.
fn push_offset_text(text: &mut String, immediate: u8)
    ensures
        final(text)@ == old(text)@ + offset_text(immediate),
{
    if immediate != 0 {
        proof {
            reveal_strlit("-");
        }
        text.append("-");
    }
    push_decimal(text, immediate);
    assert(text@ =~= old(text)@ + offset_text(immediate));
}

/// Appends a label and a number in decimal.
fn push_labelled(text: &mut String, label: &str, value: u8)
    ensures
        final(text)@ == old(text)@ + (label@ + decimal(value as nat)),
{
    text.append(label);
    push_decimal(text, value);
    assert(text@ =~= old(text)@ + (label@ + decimal(value as nat)));
}

/// Appends the comment for the instruction `opcode`, `immediate`.
pub fn push_comment(text: &mut String, opcode: u8, immediate: u8)
    ensures
        final(text)@ == old(text)@ + comment(opcode, immediate),
{
    if opcode == OP_SYSCALL {
        if immediate == SYS_BEGIN {
            text.append("-- Start function");
        } else if immediate == SYS_END {
            text.append("-- End function");
        } else {
            text.append("Syscall: ");
            push_syscall_text(text, immediate);
            assert(text@ =~= old(text)@ + comment(opcode, immediate));
        }
    } else if opcode == OP_SAVE {
        push_labelled(text, "Save: register ", immediate);
    } else if opcode == OP_LOAD {
        push_labelled(text, "Load: register ", immediate);
    } else if opcode == OP_JUMP {
        text.append("Jump: with offset ");
        push_offset_text(text, immediate);
        assert(text@ =~= old(text)@ + comment(opcode, immediate));
    } else if opcode == OP_ADD {
        push_labelled(text, "Add: register ", immediate);
    } else if opcode == OP_ADDI {
        push_labelled(text, "Addi: immediate ", immediate);
    } else if opcode == OP_SKIPEQ {
        push_labelled(text, "Skipeq: register ", immediate);
    } else {
        assert(text@ =~= old(text)@ + comment(opcode, immediate));
    }
}

/// The line of text that describes `byte`.
pub fn describe_byte(byte: u8) -> (text: String)
    ensures
        text@ == description(byte),
{
    let (operation, immediate) = decode(byte);
    let mut text = String::new();
    proof {
        reveal_strlit(" ");
    }
    push_binary(&mut text, operation, 3);
    text.append(" ");
    push_binary(&mut text, immediate, 5);
    text.append(" ");
    push_padded_decimal(&mut text, immediate);
    text.append("\t# ");
    push_comment(&mut text, operation, immediate);
    assert(text@ =~= description(byte));
    text
}

} // verus!
