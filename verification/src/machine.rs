//! A model of the target computer: its instructions, how they are written,
//! and what they do to the registers and the memory.

use vstd::prelude::*;

verus! {

/// What an `@` line loads into the address register.
pub ghost enum Target {
    /// A number written out.
    Number(nat),
    /// A symbol: a built-in pointer, a label or a variable.
    Name(Seq<char>),
}

/// The registers that a computation is stored to.
pub ghost enum Dest {
    Null,
    M,
    D,
    MD,
    A,
    AM,
    AD,
    AMD,
}

/// The computations of the arithmetic unit, on the registers `A` and `D`
/// and on `M`, the memory cell that `A` points to.
pub ghost enum Comp {
    Zero,
    One,
    MinusOne,
    D,
    A,
    M,
    NotD,
    NotA,
    NotM,
    NegD,
    NegA,
    NegM,
    DPlusOne,
    APlusOne,
    MPlusOne,
    DMinusOne,
    AMinusOne,
    MMinusOne,
    DPlusA,
    DPlusM,
    DMinusA,
    DMinusM,
    AMinusD,
    MMinusD,
    DAndA,
    DAndM,
    DOrA,
    DOrM,
}

/// The condition on the computed value under which a jump is taken.
pub ghost enum Jump {
    Null,
    JGT,
    JEQ,
    JGE,
    JLT,
    JNE,
    JLE,
    JMP,
}

/// One line of assembly.
pub ghost enum Instr {
    /// `@target`: loads an address.
    Load(Target),
    /// `dest=comp; jump`: computes, stores, and jumps to the address in `A`
    /// if the condition holds.
    Compute { dest: Dest, comp: Comp, jump: Jump },
    /// `(name)`: marks the place that the symbol `name` stands for.
    Label(Seq<char>),
}

/// The value `x` cut to a 16-bit word in two's complement.
pub open spec fn wrap(x: int) -> int {
    (x + 32768) % 65536 - 32768
}

/// Whether `n` can be written in an `@` line: it can if it fits in 15 bits.
pub open spec fn is_loadable(n: nat) -> bool {
    n <= 32767
}

/// The bitwise complement of a word.
pub open spec fn not16(x: int) -> int {
    -x - 1
}

/// The bitwise conjunction of two words.
pub open spec fn and16(x: int, y: int) -> int {
    ((x as i16) & (y as i16)) as int
}

/// The bitwise disjunction of two words.
pub open spec fn or16(x: int, y: int) -> int {
    ((x as i16) | (y as i16)) as int
}

impl Dest {
    pub open spec fn has_a(self) -> bool {
        self is A || self is AM || self is AD || self is AMD
    }

    pub open spec fn has_d(self) -> bool {
        self is D || self is MD || self is AD || self is AMD
    }

    pub open spec fn has_m(self) -> bool {
        self is M || self is MD || self is AM || self is AMD
    }

    /// The mnemonic, with the `=` that follows it.
    pub open spec fn text(self) -> Seq<char> {
        match self {
            Dest::Null => Seq::empty(),
            Dest::M => "M="@,
            Dest::D => "D="@,
            Dest::MD => "MD="@,
            Dest::A => "A="@,
            Dest::AM => "AM="@,
            Dest::AD => "AD="@,
            Dest::AMD => "AMD="@,
        }
    }
}

impl Comp {
    /// The value computed from the registers `a` and `d` and the cell `m`.
    pub open spec fn eval(self, a: int, d: int, m: int) -> int {
        match self {
            Comp::Zero => 0,
            Comp::One => 1,
            Comp::MinusOne => -1,
            Comp::D => d,
            Comp::A => a,
            Comp::M => m,
            Comp::NotD => not16(d),
            Comp::NotA => not16(a),
            Comp::NotM => not16(m),
            Comp::NegD => wrap(-d),
            Comp::NegA => wrap(-a),
            Comp::NegM => wrap(-m),
            Comp::DPlusOne => wrap(d + 1),
            Comp::APlusOne => wrap(a + 1),
            Comp::MPlusOne => wrap(m + 1),
            Comp::DMinusOne => wrap(d - 1),
            Comp::AMinusOne => wrap(a - 1),
            Comp::MMinusOne => wrap(m - 1),
            Comp::DPlusA => wrap(d + a),
            Comp::DPlusM => wrap(d + m),
            Comp::DMinusA => wrap(d - a),
            Comp::DMinusM => wrap(d - m),
            Comp::AMinusD => wrap(a - d),
            Comp::MMinusD => wrap(m - d),
            Comp::DAndA => and16(d, a),
            Comp::DAndM => and16(d, m),
            Comp::DOrA => or16(d, a),
            Comp::DOrM => or16(d, m),
        }
    }

    /// The mnemonic.
    pub open spec fn text(self) -> Seq<char> {
        match self {
            Comp::Zero => "0"@,
            Comp::One => "1"@,
            Comp::MinusOne => "-1"@,
            Comp::D => "D"@,
            Comp::A => "A"@,
            Comp::M => "M"@,
            Comp::NotD => "!D"@,
            Comp::NotA => "!A"@,
            Comp::NotM => "!M"@,
            Comp::NegD => "-D"@,
            Comp::NegA => "-A"@,
            Comp::NegM => "-M"@,
            Comp::DPlusOne => "D+1"@,
            Comp::APlusOne => "A+1"@,
            Comp::MPlusOne => "M+1"@,
            Comp::DMinusOne => "D-1"@,
            Comp::AMinusOne => "A-1"@,
            Comp::MMinusOne => "M-1"@,
            Comp::DPlusA => "D+A"@,
            Comp::DPlusM => "D+M"@,
            Comp::DMinusA => "D-A"@,
            Comp::DMinusM => "D-M"@,
            Comp::AMinusD => "A-D"@,
            Comp::MMinusD => "M-D"@,
            Comp::DAndA => "D&A"@,
            Comp::DAndM => "D&M"@,
            Comp::DOrA => "D|A"@,
            Comp::DOrM => "D|M"@,
        }
    }
}

impl Jump {
    /// Whether the jump is taken on the computed value `value`.
    pub open spec fn taken(self, value: int) -> bool {
        match self {
            Jump::Null => false,
            Jump::JGT => value > 0,
            Jump::JEQ => value == 0,
            Jump::JGE => value >= 0,
            Jump::JLT => value < 0,
            Jump::JNE => value != 0,
            Jump::JLE => value <= 0,
            Jump::JMP => true,
        }
    }

    /// The mnemonic, with the `; ` that stands before it.
    pub open spec fn text(self) -> Seq<char> {
        match self {
            Jump::Null => Seq::empty(),
            Jump::JGT => "; JGT"@,
            Jump::JEQ => "; JEQ"@,
            Jump::JGE => "; JGE"@,
            Jump::JLT => "; JLT"@,
            Jump::JNE => "; JNE"@,
            Jump::JLE => "; JLE"@,
            Jump::JMP => "; JMP"@,
        }
    }
}

impl Instr {
    /// The line as it is written.
    pub open spec fn text(self) -> Seq<char> {
        match self {
            Instr::Load(Target::Number(n)) => "@"@ + crate::decimal::decimal(n),
            Instr::Load(Target::Name(name)) => "@"@ + name,
            Instr::Compute { dest, comp, jump } => dest.text() + comp.text() + jump.text(),
            Instr::Label(name) => "("@ + name + ")"@,
        }
    }
}

/// Whether the line at `i` of a block is written with an indent: it is if
/// it is no label and a label stands before it in the block.
pub open spec fn is_indented(block: Seq<Instr>, i: int) -> bool {
    !(block[i] is Label) && exists|j: int| 0 <= j < i && #[trigger] block[j] is Label
}

/// The lines of a block as they are written.
pub open spec fn written(block: Seq<Instr>) -> Seq<Seq<char>> {
    Seq::new(
        block.len(),
        |i: int|
            if is_indented(block, i) {
                "    "@ + block[i].text()
            } else {
                block[i].text()
            },
    )
}

/// The state of the computer while it runs a program.
pub ghost struct Machine {
    /// The address register.
    pub a: int,
    /// The data register.
    pub d: int,
    /// The memory.
    pub ram: Map<int, int>,
    /// The place in the program of the line that is run next.
    pub pc: int,
}

impl Machine {
    /// What the memory cell at `address` holds: the value last written to
    /// it, and 0 if none was.
    pub open spec fn cell(self, address: int) -> int {
        if self.ram.contains_key(address) {
            self.ram[address]
        } else {
            0
        }
    }

    /// The stack pointer: what the cell at address 0 holds.
    pub open spec fn sp(self) -> int {
        self.cell(0)
    }
}

/// The addresses that symbols stand for in `program`: the five built-in
/// pointers have theirs, and a label stands for the place where it is
/// declared. Nothing is said of variables.
pub open spec fn resolves(symbols: spec_fn(Seq<char>) -> int, program: Seq<Instr>) -> bool {
    &&& symbols("SP"@) == 0
    &&& symbols("LCL"@) == 1
    &&& symbols("ARG"@) == 2
    &&& symbols("THIS"@) == 3
    &&& symbols("THAT"@) == 4
    &&& forall|p: int|
        0 <= p < program.len() && #[trigger] program[p] is Label ==> symbols(program[p]->Label_0)
            == p
}

/// The state after the line at `m.pc` has run.
pub open spec fn step(m: Machine, program: Seq<Instr>, symbols: spec_fn(Seq<char>) -> int) -> Machine {
    match program[m.pc] {
        Instr::Label(_) => Machine { pc: m.pc + 1, ..m },
        Instr::Load(Target::Number(n)) => Machine { a: n as int, pc: m.pc + 1, ..m },
        Instr::Load(Target::Name(name)) => Machine { a: symbols(name), pc: m.pc + 1, ..m },
        Instr::Compute { dest, comp, jump } => {
            let value = comp.eval(m.a, m.d, m.cell(m.a));
            Machine {
                a: if dest.has_a() {
                    value
                } else {
                    m.a
                },
                d: if dest.has_d() {
                    value
                } else {
                    m.d
                },
                ram: if dest.has_m() {
                    m.ram.insert(m.a, value)
                } else {
                    m.ram
                },
                pc: if jump.taken(value) {
                    m.a
                } else {
                    m.pc + 1
                },
            }
        },
    }
}

/// The state after `steps` lines have run.
pub open spec fn run(
    m: Machine,
    program: Seq<Instr>,
    symbols: spec_fn(Seq<char>) -> int,
    steps: nat,
) -> Machine
    decreases steps,
{
    if steps == 0 {
        m
    } else {
        run(step(m, program, symbols), program, symbols, (steps - 1) as nat)
    }
}

/// Whether `block` stands in `program` from the place `start` on.
pub open spec fn holds(program: Seq<Instr>, start: int, block: Seq<Instr>) -> bool {
    &&& 0 <= start
    &&& start + block.len() <= program.len()
    &&& forall|i: int| 0 <= i < block.len() ==> program[start + i] == #[trigger] block[i]
}

/// Running `first` steps and after them `rest` steps is running them all.
pub proof fn lemma_run_split(
    m: Machine,
    program: Seq<Instr>,
    symbols: spec_fn(Seq<char>) -> int,
    first: nat,
    rest: nat,
)
    ensures
        run(m, program, symbols, first + rest) == run(
            run(m, program, symbols, first),
            program,
            symbols,
            rest,
        ),
    decreases first,
{
    if first > 0 {
        lemma_run_split(step(m, program, symbols), program, symbols, (first - 1) as nat, rest);
    }
}

} // verus!
