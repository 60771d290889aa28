//! What the blocks of the code generator mean: the instructions that their
//! lines write, and what these do to the stack when the target computer
//! runs them.

use vstd::prelude::*;
use crate::codegen::{
    binary_block, comparison_block, declared, label_name, pop_block, push_block,
    push_constant_block, slot_name, unary_block, GenState,
};
use crate::laws::{
    lemma_declared_is_declaration, lemma_labels_declared_once, lemma_output_declarations,
};
use crate::decimal::decimal;
use crate::machine::{
    and16, holds, is_indented, is_loadable, lemma_run_split, not16, or16, resolves, run, wrap, written, Comp,
    Dest, Instr, Jump, Machine, Target,
};
use crate::parser::{BinaryToken, ComparisonToken, Line, Segment, StackToken, UnaryToken};

verus! {

/// The line `@n`.
pub open spec fn load_number(n: nat) -> Instr {
    Instr::Load(Target::Number(n))
}

/// The line `@name`.
pub open spec fn load(name: Seq<char>) -> Instr {
    Instr::Load(Target::Name(name))
}

/// The line `dest=comp`.
pub open spec fn set(dest: Dest, comp: Comp) -> Instr {
    Instr::Compute { dest, comp, jump: Jump::Null }
}

/// The line `comp; jump`.
pub open spec fn jump_if(comp: Comp, jump: Jump) -> Instr {
    Instr::Compute { dest: Dest::Null, comp, jump }
}

/// The instructions that push the constant `index`.
pub open spec fn push_constant_instrs(index: u16) -> Seq<Instr> {
    seq![
        load_number(index as nat),
        set(Dest::D, Comp::A),
        load("SP"@),
        set(Dest::A, Comp::M),
        set(Dest::M, Comp::D),
        load("SP"@),
        set(Dest::M, Comp::MPlusOne),
    ]
}

/// The instructions of a unary operation.
pub open spec fn unary_instrs(token: UnaryToken) -> Seq<Instr> {
    match token {
        UnaryToken::Neg => seq![
            load_number(0),
            set(Dest::D, Comp::A),
            load("SP"@),
            set(Dest::A, Comp::MMinusOne),
            set(Dest::M, Comp::DMinusM),
        ],
        UnaryToken::Not => seq![load("SP"@), set(Dest::A, Comp::MMinusOne), set(Dest::M, Comp::NotM)],
    }
}

/// The computation of a binary operation, on the popped entry in `D` and
/// the entry below it in `M`.
pub open spec fn binary_comp(token: BinaryToken) -> Comp {
    match token {
        BinaryToken::Add => Comp::DPlusM,
        BinaryToken::Sub => Comp::MMinusD,
        BinaryToken::And => Comp::DAndM,
        BinaryToken::Or => Comp::DOrM,
    }
}

/// The instructions of a binary operation.
pub open spec fn binary_instrs(token: BinaryToken) -> Seq<Instr> {
    seq![
        load("SP"@),
        set(Dest::M, Comp::MMinusOne),
        set(Dest::A, Comp::M),
        set(Dest::D, Comp::M),
        set(Dest::A, Comp::AMinusOne),
        set(Dest::M, binary_comp(token)),
    ]
}

/// What the base address of a segment is loaded from: a number for the two
/// fixed segments, a built-in pointer for the four segments that have one,
/// and for the static segment the scratch variable `slot`.
pub open spec fn base_target(segment: Segment, slot: Seq<char>) -> Target {
    match segment {
        Segment::Temp => Target::Number(5),
        Segment::Pointer => Target::Number(3),
        Segment::Local => Target::Name("LCL"@),
        Segment::Argument => Target::Name("ARG"@),
        Segment::This => Target::Name("THIS"@),
        Segment::That => Target::Name("THAT"@),
        Segment::Static => Target::Name(slot),
        Segment::Constant => Target::Name(slot),
    }
}

/// The instructions that push the entry `index` of a segment with the base
/// `base`.
pub open spec fn push_instrs(segment: Segment, index: u16, base: Target) -> Seq<Instr> {
    seq![
        load_number(index as nat),
        set(Dest::D, Comp::A),
        Instr::Load(base),
        set(
            Dest::A,
            if segment.is_fixed() {
                Comp::DPlusA
            } else {
                Comp::DPlusM
            },
        ),
        set(Dest::D, Comp::M),
        load("SP"@),
        set(Dest::A, Comp::M),
        set(Dest::M, Comp::D),
        load("SP"@),
        set(Dest::M, Comp::MPlusOne),
    ]
}

/// The instructions that pop into the entry `index` of a segment with the
/// base `base`, with the scratch variable `dest`.
pub open spec fn pop_instrs(segment: Segment, index: u16, base: Target, dest: Seq<char>) -> Seq<
    Instr,
> {
    seq![load_number(index as nat), set(Dest::D, Comp::A), Instr::Load(base)] + (
    if segment.is_fixed() {
        Seq::<Instr>::empty()
    } else {
        seq![set(Dest::A, Comp::M)]
    }) + seq![
        set(Dest::D, Comp::DPlusA),
        load(dest),
        set(Dest::M, Comp::D),
        load("SP"@),
        set(Dest::M, Comp::MMinusOne),
        set(Dest::A, Comp::M),
        set(Dest::D, Comp::M),
        load(dest),
        set(Dest::A, Comp::M),
        set(Dest::M, Comp::D),
    ]
}

/// The jump that is taken when the comparison holds of the difference.
pub open spec fn comparison_jump_kind(token: ComparisonToken) -> Jump {
    match token {
        ComparisonToken::Equal => Jump::JEQ,
        ComparisonToken::GreaterThan => Jump::JGT,
        ComparisonToken::LessThan => Jump::JLT,
    }
}

/// The instructions of a comparison with the labels `hit`, `miss` and
/// `done`.
pub open spec fn comparison_instrs(
    token: ComparisonToken,
    hit: Seq<char>,
    miss: Seq<char>,
    done: Seq<char>,
) -> Seq<Instr> {
    seq![
        load("SP"@),
        set(Dest::M, Comp::MMinusOne),
        set(Dest::A, Comp::M),
        set(Dest::D, Comp::M),
        set(Dest::A, Comp::AMinusOne),
        set(Dest::D, Comp::MMinusD),
        load(hit),
        jump_if(Comp::D, comparison_jump_kind(token)),
        load(miss),
        jump_if(Comp::Zero, Jump::JMP),
        Instr::Label(hit),
        load_number(0),
        set(Dest::D, Comp::AMinusOne),
        load(done),
        jump_if(Comp::Zero, Jump::JMP),
        Instr::Label(miss),
        load_number(0),
        set(Dest::D, Comp::A),
        Instr::Label(done),
        load("SP"@),
        set(Dest::A, Comp::M),
        set(Dest::A, Comp::AMinusOne),
        set(Dest::M, Comp::D),
    ]
}

/// How the lines without a parameter are written.
pub proof fn lemma_fixed_texts()
    ensures
        load_number(0).text() == "@0"@,
        load("SP"@).text() == "@SP"@,
        set(Dest::D, Comp::A).text() == "D=A"@,
        set(Dest::A, Comp::M).text() == "A=M"@,
        set(Dest::M, Comp::D).text() == "M=D"@,
        set(Dest::D, Comp::M).text() == "D=M"@,
        set(Dest::M, Comp::MPlusOne).text() == "M=M+1"@,
        set(Dest::M, Comp::MMinusOne).text() == "M=M-1"@,
        set(Dest::A, Comp::MMinusOne).text() == "A=M-1"@,
        set(Dest::A, Comp::AMinusOne).text() == "A=A-1"@,
        set(Dest::D, Comp::AMinusOne).text() == "D=A-1"@,
        set(Dest::A, Comp::DPlusA).text() == "A=D+A"@,
        set(Dest::A, Comp::DPlusM).text() == "A=D+M"@,
        set(Dest::D, Comp::DPlusA).text() == "D=D+A"@,
        set(Dest::M, Comp::DMinusM).text() == "M=D-M"@,
        set(Dest::M, Comp::NotM).text() == "M=!M"@,
        set(Dest::M, Comp::DPlusM).text() == "M=D+M"@,
        set(Dest::M, Comp::MMinusD).text() == "M=M-D"@,
        set(Dest::M, Comp::DAndM).text() == "M=D&M"@,
        set(Dest::M, Comp::DOrM).text() == "M=D|M"@,
        set(Dest::D, Comp::MMinusD).text() == "D=M-D"@,
        jump_if(Comp::D, Jump::JEQ).text() == "D; JEQ"@,
        jump_if(Comp::D, Jump::JGT).text() == "D; JGT"@,
        jump_if(Comp::D, Jump::JLT).text() == "D; JLT"@,
        jump_if(Comp::Zero, Jump::JMP).text() == "0; JMP"@,
        "    "@ + "@0"@ == "    @0"@,
        "    "@ + "D=A-1"@ == "    D=A-1"@,
        "    "@ + "0; JMP"@ == "    0; JMP"@,
        "    "@ + "D=A"@ == "    D=A"@,
        "    "@ + "@SP"@ == "    @SP"@,
        "    "@ + "A=M"@ == "    A=M"@,
        "    "@ + "A=A-1"@ == "    A=A-1"@,
        "    "@ + "M=D"@ == "    M=D"@,
        forall|name: Seq<char>| "    "@ + ("@"@ + name) == #[trigger] ("    @"@ + name),
{
    reveal_strlit("@");
    reveal_strlit("@0");
    reveal_strlit("SP");
    reveal_strlit("@SP");
    reveal_strlit("0");
    reveal_strlit("A");
    reveal_strlit("D");
    reveal_strlit("M");
    reveal_strlit("M=");
    reveal_strlit("D=");
    reveal_strlit("A=");
    reveal_strlit("M+1");
    reveal_strlit("M-1");
    reveal_strlit("A-1");
    reveal_strlit("D+A");
    reveal_strlit("D+M");
    reveal_strlit("D-M");
    reveal_strlit("M-D");
    reveal_strlit("!M");
    reveal_strlit("D&M");
    reveal_strlit("D|M");
    reveal_strlit("; JEQ");
    reveal_strlit("; JGT");
    reveal_strlit("; JLT");
    reveal_strlit("; JMP");
    reveal_strlit("D=A");
    reveal_strlit("A=M");
    reveal_strlit("M=D");
    reveal_strlit("D=M");
    reveal_strlit("M=M+1");
    reveal_strlit("M=M-1");
    reveal_strlit("A=M-1");
    reveal_strlit("A=A-1");
    reveal_strlit("D=A-1");
    reveal_strlit("A=D+A");
    reveal_strlit("A=D+M");
    reveal_strlit("D=D+A");
    reveal_strlit("M=D-M");
    reveal_strlit("M=!M");
    reveal_strlit("M=D+M");
    reveal_strlit("M=M-D");
    reveal_strlit("M=D&M");
    reveal_strlit("M=D|M");
    reveal_strlit("D=M-D");
    reveal_strlit("D; JEQ");
    reveal_strlit("D; JGT");
    reveal_strlit("D; JLT");
    reveal_strlit("0; JMP");
    reveal_strlit("    ");
    reveal_strlit("    @");
    reveal_strlit("    @0");
    reveal_strlit("    D=A-1");
    reveal_strlit("    0; JMP");
    reveal_strlit("    D=A");
    reveal_strlit("    @SP");
    reveal_strlit("    A=M");
    reveal_strlit("    A=A-1");
    reveal_strlit("    M=D");
    assert(decimal(0) =~= "0"@);
    assert(load_number(0).text() =~= "@0"@);
    assert(load("SP"@).text() =~= "@SP"@);
    assert(set(Dest::D, Comp::A).text() =~= "D=A"@);
    assert(set(Dest::A, Comp::M).text() =~= "A=M"@);
    assert(set(Dest::M, Comp::D).text() =~= "M=D"@);
    assert(set(Dest::D, Comp::M).text() =~= "D=M"@);
    assert(set(Dest::M, Comp::MPlusOne).text() =~= "M=M+1"@);
    assert(set(Dest::M, Comp::MMinusOne).text() =~= "M=M-1"@);
    assert(set(Dest::A, Comp::MMinusOne).text() =~= "A=M-1"@);
    assert(set(Dest::A, Comp::AMinusOne).text() =~= "A=A-1"@);
    assert(set(Dest::D, Comp::AMinusOne).text() =~= "D=A-1"@);
    assert(set(Dest::A, Comp::DPlusA).text() =~= "A=D+A"@);
    assert(set(Dest::A, Comp::DPlusM).text() =~= "A=D+M"@);
    assert(set(Dest::D, Comp::DPlusA).text() =~= "D=D+A"@);
    assert(set(Dest::M, Comp::DMinusM).text() =~= "M=D-M"@);
    assert(set(Dest::M, Comp::NotM).text() =~= "M=!M"@);
    assert(set(Dest::M, Comp::DPlusM).text() =~= "M=D+M"@);
    assert(set(Dest::M, Comp::MMinusD).text() =~= "M=M-D"@);
    assert(set(Dest::M, Comp::DAndM).text() =~= "M=D&M"@);
    assert(set(Dest::M, Comp::DOrM).text() =~= "M=D|M"@);
    assert(set(Dest::D, Comp::MMinusD).text() =~= "D=M-D"@);
    assert(jump_if(Comp::D, Jump::JEQ).text() =~= "D; JEQ"@);
    assert(jump_if(Comp::D, Jump::JGT).text() =~= "D; JGT"@);
    assert(jump_if(Comp::D, Jump::JLT).text() =~= "D; JLT"@);
    assert(jump_if(Comp::Zero, Jump::JMP).text() =~= "0; JMP"@);
    assert("    "@ + "@0"@ =~= "    @0"@);
    assert("    "@ + "D=A-1"@ =~= "    D=A-1"@);
    assert("    "@ + "0; JMP"@ =~= "    0; JMP"@);
    assert("    "@ + "D=A"@ =~= "    D=A"@);
    assert("    "@ + "@SP"@ =~= "    @SP"@);
    assert("    "@ + "A=M"@ =~= "    A=M"@);
    assert("    "@ + "A=A-1"@ =~= "    A=A-1"@);
    assert("    "@ + "M=D"@ =~= "    M=D"@);
    assert forall|name: Seq<char>| "    "@ + ("@"@ + name) == #[trigger] ("    @"@ + name) by {
        assert("    "@ + ("@"@ + name) =~= "    @"@ + name);
    }
}

/// A block without a label is written line by line, with no indent.
pub proof fn lemma_written_plain(block: Seq<Instr>)
    requires
        forall|i: int| 0 <= i < block.len() ==> !(#[trigger] block[i] is Label),
    ensures
        written(block) == Seq::new(block.len(), |i: int| block[i].text()),
{
    assert(written(block) =~= Seq::new(block.len(), |i: int| block[i].text()));
}

/// The block that pushes a constant writes these instructions.
pub proof fn lemma_push_constant_written(index: u16)
    ensures
        push_constant_block(index) == written(push_constant_instrs(index)),
{
    lemma_fixed_texts();
    lemma_written_plain(push_constant_instrs(index));
    assert(push_constant_block(index) =~= written(push_constant_instrs(index)));
}

/// The block of a unary operation writes these instructions.
pub proof fn lemma_unary_written(token: UnaryToken)
    ensures
        unary_block(token) == written(unary_instrs(token)),
{
    lemma_fixed_texts();
    lemma_written_plain(unary_instrs(token));
    assert(unary_block(token) =~= written(unary_instrs(token)));
}

/// The block of a binary operation writes these instructions.
pub proof fn lemma_binary_written(token: BinaryToken)
    ensures
        binary_block(token) == written(binary_instrs(token)),
{
    lemma_fixed_texts();
    lemma_written_plain(binary_instrs(token));
    assert(binary_block(token) =~= written(binary_instrs(token)));
}

/// How the base address of a segment is written.
pub proof fn lemma_base_written(segment: Segment, slot: Seq<char>)
    ensures
        Instr::Load(base_target(segment, slot)).text() == crate::codegen::at(
            match segment.address() {
                Some(text) => text,
                None => slot,
            },
        ),
{
    reveal_strlit("5");
    reveal_strlit("3");
    assert(decimal(5) =~= "5"@);
    assert(decimal(3) =~= "3"@);
}

/// The block that pushes from a segment writes these instructions.
pub proof fn lemma_push_written(segment: Segment, index: u16, slot: Seq<char>)
    ensures
        push_block(
            segment,
            index,
            match segment.address() {
                Some(text) => text,
                None => slot,
            },
        ) == written(push_instrs(segment, index, base_target(segment, slot))),
{
    lemma_fixed_texts();
    lemma_base_written(segment, slot);
    let block = push_instrs(segment, index, base_target(segment, slot));
    lemma_written_plain(block);
    assert(push_block(
        segment,
        index,
        match segment.address() {
            Some(text) => text,
            None => slot,
        },
    ) =~= written(block));
}

/// The block that pops into a segment writes these instructions.
pub proof fn lemma_pop_written(segment: Segment, index: u16, slot: Seq<char>, dest: Seq<char>)
    ensures
        pop_block(
            segment,
            index,
            match segment.address() {
                Some(text) => text,
                None => slot,
            },
            dest,
        ) == written(pop_instrs(segment, index, base_target(segment, slot), dest)),
{
    lemma_fixed_texts();
    lemma_base_written(segment, slot);
    let block = pop_instrs(segment, index, base_target(segment, slot), dest);
    lemma_written_plain(block);
    assert(pop_block(
        segment,
        index,
        match segment.address() {
            Some(text) => text,
            None => slot,
        },
        dest,
    ) =~= written(block));
}

/// The block of a comparison writes these instructions: the lines after
/// the first label are indented, the labels themselves are not.
pub proof fn lemma_comparison_written(
    token: ComparisonToken,
    hit: Seq<char>,
    miss: Seq<char>,
    done: Seq<char>,
)
    ensures
        comparison_block(token, hit, miss, done) == written(
            comparison_instrs(token, hit, miss, done),
        ),
{
    lemma_fixed_texts();
    let block = comparison_instrs(token, hit, miss, done);
    let text = comparison_block(token, hit, miss, done);
    assert(block[10] is Label);
    assert forall|i: int| 0 <= i < block.len() implies #[trigger] written(block)[i] == text[i] by {
        if i > 10 && !(block[i] is Label) {
            assert(is_indented(block, i));
        } else {
            assert(!is_indented(block, i));
        }
    }
    assert(text =~= written(block));
}

/// The value that a unary operation leaves in place of `top`.
pub open spec fn unary_value(token: UnaryToken, top: int) -> int {
    match token {
        UnaryToken::Neg => wrap(0 - top),
        UnaryToken::Not => not16(top),
    }
}

/// The value that a binary operation leaves in place of the two topmost
/// entries: `first` was pushed before `second`.
pub open spec fn binary_value(token: BinaryToken, first: int, second: int) -> int {
    match token {
        BinaryToken::Add => wrap(first + second),
        BinaryToken::Sub => wrap(first - second),
        BinaryToken::And => and16(first, second),
        BinaryToken::Or => or16(first, second),
    }
}

/// The bitwise operations do not depend on the order of their operands.
pub proof fn lemma_bitwise_commute(x: int, y: int)
    ensures
        and16(x, y) == and16(y, x),
        or16(x, y) == or16(y, x),
{
    let a = x as i16;
    let b = y as i16;
    assert(a & b == b & a) by (bit_vector);
    assert(a | b == b | a) by (bit_vector);
}

/// Pushing a constant writes it to the cell that the stack pointer names
/// and moves the stack pointer up by one. Nothing else in memory changes.
pub proof fn lemma_push_constant_effect(
    index: u16,
    program: Seq<Instr>,
    symbols: spec_fn(Seq<char>) -> int,
    m: Machine,
)
    requires
        resolves(symbols, program),
        holds(program, m.pc, push_constant_instrs(index)),
        is_loadable(index as nat),
        256 <= m.sp() < 32767,
    ensures
        run(m, program, symbols, 7).pc == m.pc + 7,
        run(m, program, symbols, 7).ram == m.ram.insert(m.sp(), index as int).insert(
            0,
            m.sp() + 1,
        ),
{
    let block = push_constant_instrs(index);
    assert(program[m.pc + 0] == block[0]);
    assert(program[m.pc + 1] == block[1]);
    assert(program[m.pc + 2] == block[2]);
    assert(program[m.pc + 3] == block[3]);
    assert(program[m.pc + 4] == block[4]);
    assert(program[m.pc + 5] == block[5]);
    assert(program[m.pc + 6] == block[6]);
    reveal_with_fuel(run, 8);
    let end = run(m, program, symbols, 7);
    assert(end.ram =~= m.ram.insert(m.sp(), index as int).insert(0, m.sp() + 1));
}

/// A unary operation replaces the top of the stack by its negation or its
/// complement. The stack pointer and the rest of memory stay as they are.
pub proof fn lemma_unary_effect(
    token: UnaryToken,
    program: Seq<Instr>,
    symbols: spec_fn(Seq<char>) -> int,
    m: Machine,
)
    requires
        resolves(symbols, program),
        holds(program, m.pc, unary_instrs(token)),
        257 <= m.sp() <= 32767,
    ensures
        run(m, program, symbols, unary_instrs(token).len()).pc == m.pc + unary_instrs(token).len(),
        run(m, program, symbols, unary_instrs(token).len()).ram == m.ram.insert(
            m.sp() - 1,
            unary_value(token, m.cell(m.sp() - 1)),
        ),
{
    let block = unary_instrs(token);
    assert(program[m.pc + 0] == block[0]);
    assert(program[m.pc + 1] == block[1]);
    assert(program[m.pc + 2] == block[2]);
    reveal_with_fuel(run, 6);
    match token {
        UnaryToken::Neg => {
            assert(program[m.pc + 3] == block[3]);
            assert(program[m.pc + 4] == block[4]);
            assert(run(m, program, symbols, 5).ram =~= m.ram.insert(
                m.sp() - 1,
                unary_value(token, m.cell(m.sp() - 1)),
            ));
        },
        UnaryToken::Not => {
            assert(run(m, program, symbols, 3).ram =~= m.ram.insert(
                m.sp() - 1,
                unary_value(token, m.cell(m.sp() - 1)),
            ));
        },
    }
}

/// A binary operation takes the two topmost entries off the stack and puts
/// the result in their place: the stack is one entry shorter, and nothing
/// else in memory changes but the cell of the entry that was popped, which
/// keeps its value.
pub proof fn lemma_binary_effect(
    token: BinaryToken,
    program: Seq<Instr>,
    symbols: spec_fn(Seq<char>) -> int,
    m: Machine,
)
    requires
        resolves(symbols, program),
        holds(program, m.pc, binary_instrs(token)),
        258 <= m.sp() <= 32767,
    ensures
        run(m, program, symbols, 6).pc == m.pc + 6,
        run(m, program, symbols, 6).ram == m.ram.insert(0, m.sp() - 1).insert(
            m.sp() - 2,
            binary_value(token, m.cell(m.sp() - 2), m.cell(m.sp() - 1)),
        ),
{
    let block = binary_instrs(token);
    assert(program[m.pc + 0] == block[0]);
    assert(program[m.pc + 1] == block[1]);
    assert(program[m.pc + 2] == block[2]);
    assert(program[m.pc + 3] == block[3]);
    assert(program[m.pc + 4] == block[4]);
    assert(program[m.pc + 5] == block[5]);
    reveal_with_fuel(run, 7);
    lemma_bitwise_commute(m.cell(m.sp() - 2), m.cell(m.sp() - 1));
    assert(run(m, program, symbols, 6).ram =~= m.ram.insert(0, m.sp() - 1).insert(
        m.sp() - 2,
        binary_value(token, m.cell(m.sp() - 2), m.cell(m.sp() - 1)),
    ));
}

/// The address that a target stands for.
pub open spec fn address_of(symbols: spec_fn(Seq<char>) -> int, target: Target) -> int {
    match target {
        Target::Number(n) => n as int,
        Target::Name(name) => symbols(name),
    }
}

/// The cell of the entry `index` of a segment with the base `base`: a fixed
/// segment starts at the base itself, any other where the cell at the base
/// points.
pub open spec fn entry_cell(
    segment: Segment,
    index: u16,
    base: Target,
    symbols: spec_fn(Seq<char>) -> int,
    m: Machine,
) -> int {
    if segment.is_fixed() {
        wrap(index + address_of(symbols, base))
    } else {
        wrap(index + m.cell(address_of(symbols, base)))
    }
}

/// Pushing from a segment copies the entry's cell to the cell that the
/// stack pointer names and moves the stack pointer up by one.
pub proof fn lemma_push_effect(
    segment: Segment,
    index: u16,
    base: Target,
    program: Seq<Instr>,
    symbols: spec_fn(Seq<char>) -> int,
    m: Machine,
)
    requires
        resolves(symbols, program),
        holds(program, m.pc, push_instrs(segment, index, base)),
        is_loadable(index as nat),
        256 <= m.sp() < 32767,
    ensures
        run(m, program, symbols, 10).pc == m.pc + 10,
        run(m, program, symbols, 10).ram == m.ram.insert(
            m.sp(),
            m.cell(entry_cell(segment, index, base, symbols, m)),
        ).insert(0, m.sp() + 1),
{
    let block = push_instrs(segment, index, base);
    assert(program[m.pc + 0] == block[0]);
    assert(program[m.pc + 1] == block[1]);
    assert(program[m.pc + 2] == block[2]);
    assert(program[m.pc + 3] == block[3]);
    assert(program[m.pc + 4] == block[4]);
    assert(program[m.pc + 5] == block[5]);
    assert(program[m.pc + 6] == block[6]);
    assert(program[m.pc + 7] == block[7]);
    assert(program[m.pc + 8] == block[8]);
    assert(program[m.pc + 9] == block[9]);
    reveal_with_fuel(run, 11);
    assert(run(m, program, symbols, 10).ram =~= m.ram.insert(
        m.sp(),
        m.cell(entry_cell(segment, index, base, symbols, m)),
    ).insert(0, m.sp() + 1));
}

/// Popping into a segment notes the entry's cell in the scratch variable,
/// moves the stack pointer down by one and copies the entry that was on top
/// to the cell noted. The scratch variable must be neither the stack
/// pointer nor the top of the stack.
pub proof fn lemma_pop_effect(
    segment: Segment,
    index: u16,
    base: Target,
    dest: Seq<char>,
    program: Seq<Instr>,
    symbols: spec_fn(Seq<char>) -> int,
    m: Machine,
)
    requires
        resolves(symbols, program),
        holds(program, m.pc, pop_instrs(segment, index, base, dest)),
        is_loadable(index as nat),
        257 <= m.sp() <= 32767,
        symbols(dest) != 0,
        symbols(dest) != m.sp() - 1,
    ensures
        ({
            let steps = pop_instrs(segment, index, base, dest).len();
            let cell = entry_cell(segment, index, base, symbols, m);
            &&& run(m, program, symbols, steps).pc == m.pc + steps
            &&& run(m, program, symbols, steps).ram == m.ram.insert(symbols(dest), cell).insert(
                0,
                m.sp() - 1,
            ).insert(cell, m.cell(m.sp() - 1))
        }),
{
    let block = pop_instrs(segment, index, base, dest);
    let cell = entry_cell(segment, index, base, symbols, m);
    let expected = m.ram.insert(symbols(dest), cell).insert(0, m.sp() - 1).insert(
        cell,
        m.cell(m.sp() - 1),
    );
    assert(program[m.pc + 0] == block[0]);
    assert(program[m.pc + 1] == block[1]);
    assert(program[m.pc + 2] == block[2]);
    assert(program[m.pc + 3] == block[3]);
    assert(program[m.pc + 4] == block[4]);
    assert(program[m.pc + 5] == block[5]);
    assert(program[m.pc + 6] == block[6]);
    assert(program[m.pc + 7] == block[7]);
    assert(program[m.pc + 8] == block[8]);
    assert(program[m.pc + 9] == block[9]);
    assert(program[m.pc + 10] == block[10]);
    assert(program[m.pc + 11] == block[11]);
    assert(program[m.pc + 12] == block[12]);
    reveal_with_fuel(run, 15);
    if segment.is_fixed() {
        assert(block.len() == 13);
        assert(run(m, program, symbols, 13).ram =~= expected);
    } else {
        assert(block.len() == 14);
        assert(program[m.pc + 13] == block[13]);
        assert(run(m, program, symbols, 14).ram =~= expected);
    }
}

/// The value that a comparison leaves in place of the two topmost entries:
/// -1 if their difference, cut to a word, meets the comparison with zero,
/// and 0 if not. `first` was pushed before `second`.
pub open spec fn comparison_value(token: ComparisonToken, first: int, second: int) -> int {
    if comparison_jump_kind(token).taken(wrap(first - second)) {
        -1
    } else {
        0
    }
}

/// A comparison takes the two topmost entries off the stack and puts -1 or
/// 0 in their place. Whichever way it branches, it runs eighteen lines and
/// ends behind its block.
pub proof fn lemma_comparison_effect(
    token: ComparisonToken,
    hit: Seq<char>,
    miss: Seq<char>,
    done: Seq<char>,
    program: Seq<Instr>,
    symbols: spec_fn(Seq<char>) -> int,
    m: Machine,
)
    requires
        resolves(symbols, program),
        holds(program, m.pc, comparison_instrs(token, hit, miss, done)),
        258 <= m.sp() <= 32767,
    ensures
        run(m, program, symbols, 18).pc == m.pc + 23,
        run(m, program, symbols, 18).ram == m.ram.insert(0, m.sp() - 1).insert(
            m.sp() - 2,
            comparison_value(token, m.cell(m.sp() - 2), m.cell(m.sp() - 1)),
        ),
{
    let block = comparison_instrs(token, hit, miss, done);
    let expected = m.ram.insert(0, m.sp() - 1).insert(
        m.sp() - 2,
        comparison_value(token, m.cell(m.sp() - 2), m.cell(m.sp() - 1)),
    );
    assert(program[m.pc + 0] == block[0]);
    assert(program[m.pc + 1] == block[1]);
    assert(program[m.pc + 2] == block[2]);
    assert(program[m.pc + 3] == block[3]);
    assert(program[m.pc + 4] == block[4]);
    assert(program[m.pc + 5] == block[5]);
    assert(program[m.pc + 6] == block[6]);
    assert(program[m.pc + 7] == block[7]);
    assert(program[m.pc + 8] == block[8]);
    assert(program[m.pc + 9] == block[9]);
    assert(program[m.pc + 10] == block[10]);
    assert(program[m.pc + 11] == block[11]);
    assert(program[m.pc + 12] == block[12]);
    assert(program[m.pc + 13] == block[13]);
    assert(program[m.pc + 14] == block[14]);
    assert(program[m.pc + 15] == block[15]);
    assert(program[m.pc + 16] == block[16]);
    assert(program[m.pc + 17] == block[17]);
    assert(program[m.pc + 18] == block[18]);
    assert(program[m.pc + 19] == block[19]);
    assert(program[m.pc + 20] == block[20]);
    assert(program[m.pc + 21] == block[21]);
    assert(program[m.pc + 22] == block[22]);
    assert(symbols(hit) == m.pc + 10);
    assert(symbols(miss) == m.pc + 15);
    assert(symbols(done) == m.pc + 18);
    reveal_with_fuel(run, 19);
    assert(run(m, program, symbols, 18).ram =~= expected);
}

impl GenState {
    /// The instructions that the block of `line` writes when it is emitted
    /// in this state.
    pub open spec fn instrs(self, line: Line) -> Seq<Instr> {
        match line {
            Line::Stack(StackToken::Push { segment, index }) => {
                if segment == Segment::Constant {
                    push_constant_instrs(index)
                } else {
                    push_instrs(segment, index, base_target(segment, self.static_slot(index).1))
                }
            },
            Line::Stack(StackToken::Pop { segment, index }) => pop_instrs(
                segment,
                index,
                base_target(segment, self.take_slot().0.static_slot(index).1),
                slot_name(self.slots),
            ),
            Line::Unary(token) => unary_instrs(token),
            Line::Binary(token) => binary_instrs(token),
            Line::Comparison(token) => comparison_instrs(
                token,
                label_name(self.labels),
                label_name(self.labels + 1),
                label_name(self.labels + 2),
            ),
        }
    }

    /// The program of a run: the instructions of the blocks of `lines`, one
    /// block after another.
    pub open spec fn program(self, lines: Seq<Line>) -> Seq<Instr>
        decreases lines.len(),
    {
        if lines.len() == 0 {
            Seq::empty()
        } else {
            self.program(lines.drop_last()) + (match self.emit_all(lines.drop_last()) {
                Some(before) => before.instrs(lines.last()),
                None => Seq::empty(),
            })
        }
    }
}

/// The block that the generator gives for an instruction writes the
/// instructions of [`GenState::instrs`].
pub proof fn lemma_block_written(state: GenState, line: Line)
    requires
        state.emit(line) is Ok,
    ensures
        state.emit(line)->Ok_0.1 == written(state.instrs(line)),
{
    match line {
        Line::Stack(StackToken::Push { segment, index }) => {
            if segment == Segment::Constant {
                lemma_push_constant_written(index);
            } else {
                lemma_push_written(segment, index, state.static_slot(index).1);
            }
        },
        Line::Stack(StackToken::Pop { segment, index }) => {
            lemma_pop_written(
                segment,
                index,
                state.take_slot().0.static_slot(index).1,
                slot_name(state.slots),
            );
        },
        Line::Unary(token) => {
            lemma_unary_written(token);
        },
        Line::Binary(token) => {
            lemma_binary_written(token);
        },
        Line::Comparison(token) => {
            lemma_comparison_written(
                token,
                label_name(state.labels),
                label_name(state.labels + 1),
                label_name(state.labels + 2),
            );
        },
    }
}

/// One more instruction at the end of a run adds its block at the end of
/// the program.
pub proof fn lemma_program_push(state: GenState, lines: Seq<Line>, line: Line)
    requires
        state.emit_all(lines) is Some,
        state.emit_all(lines)->0.emit(line) is Ok,
    ensures
        state.emit_all(lines.push(line)) == Some(state.emit_all(lines)->0.emit(line)->Ok_0.0),
        state.program(lines.push(line)) == state.program(lines) + state.emit_all(lines)->0.instrs(
            line,
        ),
{
    assert(lines.push(line).drop_last() =~= lines);
}

/// The output of a run writes its program, line for line: both have as
/// many lines, and a label of the program is declared, without an indent,
/// at its place in the output.
pub proof fn lemma_output_writes_program(state: GenState, lines: Seq<Line>)
    requires
        state.emit_all(lines) is Some,
    ensures
        state.output(lines).len() == state.program(lines).len(),
        forall|p: int|
            0 <= p < state.program(lines).len() && #[trigger] state.program(lines)[p] is Label
                ==> state.output(lines)[p] == declared(state.program(lines)[p]->Label_0),
    decreases lines.len(),
{
    if lines.len() > 0 {
        let head = lines.drop_last();
        assert(head =~= lines.take(lines.len() - 1));
        assert(lines.last() == lines[lines.len() - 1]);
        lemma_output_writes_program(state, head);
        let before = state.emit_all(head)->0;
        let instrs = before.instrs(lines.last());
        lemma_block_written(before, lines.last());
        assert(state.block(lines, lines.len() - 1) == written(instrs));
        let program = state.program(lines);
        let output = state.output(lines);
        assert forall|p: int| 0 <= p < program.len() && #[trigger] program[p] is Label implies output[p]
            == declared(program[p]->Label_0) by {
            let first = state.program(head).len();
            if p < first {
                assert(program[p] == state.program(head)[p]);
                assert(output[p] == state.output(head)[p]);
            } else {
                assert(program[p] == instrs[p - first]);
                assert(output[p] == written(instrs)[p - first]);
                assert(!is_indented(instrs, p - first));
            }
        }
    }
}

/// The block of each instruction of a run stands in the program of the
/// run, behind the blocks of the instructions before it.
pub proof fn lemma_program_holds(state: GenState, lines: Seq<Line>, i: int)
    requires
        0 <= i < lines.len(),
        state.emit_all(lines) is Some,
    ensures
        state.emit_all(lines.take(i)) is Some,
        holds(
            state.program(lines),
            state.program(lines.take(i)).len() as int,
            state.emit_all(lines.take(i))->0.instrs(lines[i]),
        ),
    decreases lines.len(),
{
    let head = lines.drop_last();
    let n = lines.len() - 1;
    assert(head =~= lines.take(n));
    assert(lines.last() == lines[n]);
    let program = state.program(lines);
    let block = state.emit_all(lines.take(i))->0.instrs(lines[i]);
    let start = state.program(lines.take(i)).len() as int;
    if i == n {
        assert forall|k: int| 0 <= k < block.len() implies program[start + k] == #[trigger] block[k] by {}
    } else {
        lemma_program_holds(state, head, i);
        assert(head.take(i) =~= lines.take(i));
        assert(head[i] == lines[i]);
        assert forall|k: int| 0 <= k < block.len() implies program[start + k] == #[trigger] block[k] by {
            assert(state.program(head)[start + k] == block[k]);
        }
    }
}

/// The names of the labels are none of the five built-in pointers.
proof fn lemma_labels_are_no_pointers(n: nat)
    ensures
        label_name(n) != "SP"@,
        label_name(n) != "LCL"@,
        label_name(n) != "ARG"@,
        label_name(n) != "THIS"@,
        label_name(n) != "THAT"@,
{
    reveal_strlit("JMP_");
    reveal_strlit("SP");
    reveal_strlit("LCL");
    reveal_strlit("ARG");
    reveal_strlit("THIS");
    reveal_strlit("THAT");
    assert(label_name(n)[0] == 'J');
}

/// A label is told by its declaration.
proof fn lemma_declared_injective(x: Seq<char>, y: Seq<char>)
    requires
        declared(x) == declared(y),
    ensures
        x == y,
{
    reveal_strlit("(");
    reveal_strlit(")");
    assert(declared(x).len() == x.len() + 2);
    assert(declared(y).len() == y.len() + 2);
    assert(declared(x).subrange(1, 1 + x.len() as int) =~= x);
    assert(declared(y).subrange(1, 1 + y.len() as int) =~= y);
}

/// The symbols of the program of a run can be resolved: there is an
/// assignment of addresses under which the built-in pointers have theirs
/// and every label stands for the one place where it is declared.
pub proof fn lemma_program_resolves(state: GenState, lines: Seq<Line>)
    requires
        state.wf(),
        state.emit_all(lines) is Some,
    ensures
        exists|symbols: spec_fn(Seq<char>) -> int| resolves(symbols, state.program(lines)),
{
    let program = state.program(lines);
    let output = state.output(lines);
    let symbols = |name: Seq<char>|
        if name == "SP"@ {
            0int
        } else if name == "LCL"@ {
            1int
        } else if name == "ARG"@ {
            2int
        } else if name == "THIS"@ {
            3int
        } else if name == "THAT"@ {
            4int
        } else {
            choose|p: int| 0 <= p < program.len() && program[p] == Instr::Label(name)
        };
    reveal_strlit("SP");
    reveal_strlit("LCL");
    reveal_strlit("ARG");
    reveal_strlit("THIS");
    reveal_strlit("THAT");
    lemma_output_writes_program(state, lines);
    assert forall|p: int| 0 <= p < program.len() && #[trigger] program[p] is Label implies symbols(
        program[p]->Label_0,
    ) == p by {
        let name = program[p]->Label_0;
        assert(output[p] == declared(name));
        lemma_declared_is_declaration(name);
        lemma_output_declarations(state, lines, p);
        let n = choose|n: nat|
            state.labels <= n < state.emit_all(lines)->0.labels && output[p] == declared(
                #[trigger] label_name(n),
            );
        lemma_declared_injective(name, label_name(n));
        lemma_labels_are_no_pointers(n);
        let q = symbols(name);
        assert(program[p] == Instr::Label(name));
        assert(0 <= q < program.len() && program[q] == Instr::Label(name));
        assert(output[q] == declared(name));
        if p < q {
            lemma_labels_declared_once(state, lines, p, q);
        } else if q < p {
            lemma_labels_declared_once(state, lines, q, p);
        }
    }
    assert("SP"@.len() == 2 && "LCL"@.len() == 3 && "ARG"@.len() == 3);
    assert("THIS"@.len() == 4 && "THAT"@.len() == 4);
    assert("LCL"@[0] != "ARG"@[0]);
    assert("THIS"@[2] != "THAT"@[2]);
    assert(symbols("SP"@) == 0);
    assert(symbols("LCL"@) == 1);
    assert(symbols("ARG"@) == 2);
    assert(symbols("THIS"@) == 3);
    assert(symbols("THAT"@) == 4);
    assert(resolves(symbols, program));
}

/// The program of two constants that are pushed and added.
proof fn lemma_sum_program(a: u16, b: u16)
    ensures
        ({
            let program = GenState::fresh().program(
                seq![
                    Line::Stack(StackToken::Push { segment: Segment::Constant, index: a }),
                    Line::Stack(StackToken::Push { segment: Segment::Constant, index: b }),
                    Line::Binary(BinaryToken::Add),
                ],
            );
            &&& program.len() == 20
            &&& holds(program, 0, push_constant_instrs(a))
            &&& holds(program, 7, push_constant_instrs(b))
            &&& holds(program, 14, binary_instrs(BinaryToken::Add))
        }),
{
    let fresh = GenState::fresh();
    let l0 = Line::Stack(StackToken::Push { segment: Segment::Constant, index: a });
    let l1 = Line::Stack(StackToken::Push { segment: Segment::Constant, index: b });
    let l2 = Line::Binary(BinaryToken::Add);
    let all = seq![l0, l1, l2];
    let p0 = Seq::<Line>::empty();
    let p1 = p0.push(l0);
    let p2 = p1.push(l1);
    let p3 = p2.push(l2);
    lemma_program_push(fresh, p0, l0);
    assert(fresh.emit_all(p1) == Some(fresh) && fresh.program(p1).len() == 7);
    lemma_program_push(fresh, p1, l1);
    assert(fresh.emit_all(p2) == Some(fresh) && fresh.program(p2).len() == 14);
    lemma_program_push(fresh, p2, l2);
    assert(fresh.emit_all(p3) == Some(fresh) && fresh.program(p3).len() == 20);
    assert(p3 =~= all);
    assert(all.take(0) =~= p0);
    assert(all.take(1) =~= p1);
    assert(all.take(2) =~= p2);
    lemma_program_holds(fresh, all, 0);
    lemma_program_holds(fresh, all, 1);
    lemma_program_holds(fresh, all, 2);
}

/// Pushing two constants and adding them leaves their sum, cut to a word,
/// as the one entry of a stack that was empty.
pub proof fn lemma_sum_of_constants(
    a: u16,
    b: u16,
    symbols: spec_fn(Seq<char>) -> int,
    m: Machine,
)
    requires
        resolves(
            symbols,
            GenState::fresh().program(
                seq![
                    Line::Stack(StackToken::Push { segment: Segment::Constant, index: a }),
                    Line::Stack(StackToken::Push { segment: Segment::Constant, index: b }),
                    Line::Binary(BinaryToken::Add),
                ],
            ),
        ),
        is_loadable(a as nat),
        is_loadable(b as nat),
        m.pc == 0,
        m.sp() == 256,
    ensures
        ({
            let program = GenState::fresh().program(
                seq![
                    Line::Stack(StackToken::Push { segment: Segment::Constant, index: a }),
                    Line::Stack(StackToken::Push { segment: Segment::Constant, index: b }),
                    Line::Binary(BinaryToken::Add),
                ],
            );
            let end = run(m, program, symbols, 20);
            &&& end.pc == program.len()
            &&& end.sp() == 257
            &&& end.cell(256) == wrap(a + b)
        }),
{
    lemma_sum_program(a, b);
    let program = GenState::fresh().program(
        seq![
            Line::Stack(StackToken::Push { segment: Segment::Constant, index: a }),
            Line::Stack(StackToken::Push { segment: Segment::Constant, index: b }),
            Line::Binary(BinaryToken::Add),
        ],
    );
    lemma_push_constant_effect(a, program, symbols, m);
    let m1 = run(m, program, symbols, 7);
    assert(m1.pc == 7 && m1.sp() == 257 && m1.cell(256) == a);
    lemma_push_constant_effect(b, program, symbols, m1);
    let m2 = run(m1, program, symbols, 7);
    assert(m2.pc == 14 && m2.sp() == 258 && m2.cell(256) == a && m2.cell(257) == b);
    lemma_binary_effect(BinaryToken::Add, program, symbols, m2);
    lemma_run_split(m, program, symbols, 7, 7);
    lemma_run_split(m, program, symbols, 14, 6);
}

/// Pushing 7 and 8 and adding them leaves 15 as the one entry of a stack
/// that was empty.
pub proof fn lemma_seven_plus_eight(symbols: spec_fn(Seq<char>) -> int, m: Machine)
    requires
        resolves(
            symbols,
            GenState::fresh().program(
                seq![
                    Line::Stack(StackToken::Push { segment: Segment::Constant, index: 7 }),
                    Line::Stack(StackToken::Push { segment: Segment::Constant, index: 8 }),
                    Line::Binary(BinaryToken::Add),
                ],
            ),
        ),
        m.pc == 0,
        m.sp() == 256,
    ensures
        ({
            let program = GenState::fresh().program(
                seq![
                    Line::Stack(StackToken::Push { segment: Segment::Constant, index: 7 }),
                    Line::Stack(StackToken::Push { segment: Segment::Constant, index: 8 }),
                    Line::Binary(BinaryToken::Add),
                ],
            );
            let end = run(m, program, symbols, 20);
            &&& end.pc == program.len()
            &&& end.sp() == 257
            &&& end.cell(256) == 15
        }),
{
    lemma_sum_of_constants(7, 8, symbols, m);
}

/// The program of a constant that is pushed and negated, twice over, and
/// of the comparison of the two.
proof fn lemma_negations_program(n: u16)
    ensures
        ({
            let program = GenState::fresh().program(
                seq![
                    Line::Stack(StackToken::Push { segment: Segment::Constant, index: n }),
                    Line::Unary(UnaryToken::Neg),
                    Line::Stack(StackToken::Push { segment: Segment::Constant, index: n }),
                    Line::Unary(UnaryToken::Neg),
                    Line::Comparison(ComparisonToken::Equal),
                ],
            );
            &&& program.len() == 47
            &&& holds(program, 0, push_constant_instrs(n))
            &&& holds(program, 7, unary_instrs(UnaryToken::Neg))
            &&& holds(program, 12, push_constant_instrs(n))
            &&& holds(program, 19, unary_instrs(UnaryToken::Neg))
            &&& holds(
                program,
                24,
                comparison_instrs(
                    ComparisonToken::Equal,
                    label_name(0),
                    label_name(1),
                    label_name(2),
                ),
            )
        }),
{
    let fresh = GenState::fresh();
    let push = Line::Stack(StackToken::Push { segment: Segment::Constant, index: n });
    let neg = Line::Unary(UnaryToken::Neg);
    let eq = Line::Comparison(ComparisonToken::Equal);
    let all = seq![push, neg, push, neg, eq];
    let p0 = Seq::<Line>::empty();
    let p1 = p0.push(push);
    let p2 = p1.push(neg);
    let p3 = p2.push(push);
    let p4 = p3.push(neg);
    let p5 = p4.push(eq);
    lemma_program_push(fresh, p0, push);
    assert(fresh.emit_all(p1) == Some(fresh) && fresh.program(p1).len() == 7);
    lemma_program_push(fresh, p1, neg);
    assert(fresh.emit_all(p2) == Some(fresh) && fresh.program(p2).len() == 12);
    lemma_program_push(fresh, p2, push);
    assert(fresh.emit_all(p3) == Some(fresh) && fresh.program(p3).len() == 19);
    lemma_program_push(fresh, p3, neg);
    assert(fresh.emit_all(p4) == Some(fresh) && fresh.program(p4).len() == 24);
    lemma_program_push(fresh, p4, eq);
    assert(fresh.emit_all(p5) is Some && fresh.program(p5).len() == 47);
    assert(p5 =~= all);
    assert(all.take(0) =~= p0);
    assert(all.take(1) =~= p1);
    assert(all.take(2) =~= p2);
    assert(all.take(3) =~= p3);
    assert(all.take(4) =~= p4);
    lemma_program_holds(fresh, all, 0);
    lemma_program_holds(fresh, all, 1);
    lemma_program_holds(fresh, all, 2);
    lemma_program_holds(fresh, all, 3);
    lemma_program_holds(fresh, all, 4);
}

/// A constant that is pushed and negated twice over compares equal to
/// itself: the comparison leaves -1, the value that stands for true, as the
/// one entry of a stack that was empty.
pub proof fn lemma_negations_compare_equal(
    n: u16,
    symbols: spec_fn(Seq<char>) -> int,
    m: Machine,
)
    requires
        resolves(
            symbols,
            GenState::fresh().program(
                seq![
                    Line::Stack(StackToken::Push { segment: Segment::Constant, index: n }),
                    Line::Unary(UnaryToken::Neg),
                    Line::Stack(StackToken::Push { segment: Segment::Constant, index: n }),
                    Line::Unary(UnaryToken::Neg),
                    Line::Comparison(ComparisonToken::Equal),
                ],
            ),
        ),
        is_loadable(n as nat),
        m.pc == 0,
        m.sp() == 256,
    ensures
        ({
            let program = GenState::fresh().program(
                seq![
                    Line::Stack(StackToken::Push { segment: Segment::Constant, index: n }),
                    Line::Unary(UnaryToken::Neg),
                    Line::Stack(StackToken::Push { segment: Segment::Constant, index: n }),
                    Line::Unary(UnaryToken::Neg),
                    Line::Comparison(ComparisonToken::Equal),
                ],
            );
            let end = run(m, program, symbols, 42);
            &&& end.pc == program.len()
            &&& end.sp() == 257
            &&& end.cell(256) == -1
        }),
{
    lemma_negations_program(n);
    let program = GenState::fresh().program(
        seq![
            Line::Stack(StackToken::Push { segment: Segment::Constant, index: n }),
            Line::Unary(UnaryToken::Neg),
            Line::Stack(StackToken::Push { segment: Segment::Constant, index: n }),
            Line::Unary(UnaryToken::Neg),
            Line::Comparison(ComparisonToken::Equal),
        ],
    );
    lemma_push_constant_effect(n, program, symbols, m);
    let m1 = run(m, program, symbols, 7);
    lemma_unary_effect(UnaryToken::Neg, program, symbols, m1);
    let m2 = run(m1, program, symbols, 5);
    assert(m2.pc == 12 && m2.sp() == 257 && m2.cell(256) == wrap(0 - n));
    lemma_push_constant_effect(n, program, symbols, m2);
    let m3 = run(m2, program, symbols, 7);
    lemma_unary_effect(UnaryToken::Neg, program, symbols, m3);
    let m4 = run(m3, program, symbols, 5);
    assert(m4.pc == 24 && m4.sp() == 258 && m4.cell(256) == wrap(0 - n) && m4.cell(257) == wrap(
        0 - n,
    ));
    lemma_comparison_effect(
        ComparisonToken::Equal,
        label_name(0),
        label_name(1),
        label_name(2),
        program,
        symbols,
        m4,
    );
    lemma_run_split(m, program, symbols, 7, 5);
    lemma_run_split(m, program, symbols, 12, 7);
    lemma_run_split(m, program, symbols, 19, 5);
    lemma_run_split(m, program, symbols, 24, 18);
}

} // verus!
