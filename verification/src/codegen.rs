//! The code generator: one block of assembly per instruction, with the
//! counters and the table of static slots that keep generated names unique.

use std::collections::HashMap;
use vstd::prelude::*;
use vstd::string::*;
use crate::decimal::{decimal, lemma_decimal_injective, push_decimal};
use crate::error::TranslateError;
use crate::machine::written;
use crate::meaning::lemma_block_written;
use crate::parser::{BinaryToken, ComparisonToken, Line, Segment, StackToken, UnaryToken};

verus! {

broadcast use vstd::std_specs::hash::group_hash_axioms;

/// The name of the jump label with number `n`.
pub open spec fn label_name(n: nat) -> Seq<char> {
    "JMP_"@ + decimal(n)
}

/// The name of the scratch variable with number `n`.
pub open spec fn slot_name(n: nat) -> Seq<char> {
    "V_"@ + decimal(n)
}

/// The line that loads the address `name`.
pub open spec fn at(name: Seq<char>) -> Seq<char> {
    "@"@ + name
}

/// The line that loads the address `name`, indented as the body of a label.
pub open spec fn at_indented(name: Seq<char>) -> Seq<char> {
    "    @"@ + name
}

/// The line that declares the label `name`.
pub open spec fn declared(name: Seq<char>) -> Seq<char> {
    "("@ + name + ")"@
}

/// The texts that a vector of strings holds.
pub open spec fn lines_of(v: Seq<String>) -> Seq<Seq<char>> {
    Seq::new(v.len(), |i: int| v[i]@)
}

/// Pushing the constant `index`.
pub open spec fn push_constant_block(index: u16) -> Seq<Seq<char>> {
    seq![at(decimal(index as nat)), "D=A"@, "@SP"@, "A=M"@, "M=D"@, "@SP"@, "M=M+1"@]
}

/// Pushing the entry `index` of a segment whose base is `address`. A fixed
/// segment starts at the address itself; any other starts where the pointer
/// kept at the address points.
pub open spec fn push_block(segment: Segment, index: u16, address: Seq<char>) -> Seq<Seq<char>> {
    seq![
        at(decimal(index as nat)),
        "D=A"@,
        at(address),
        if segment.is_fixed() {
            "A=D+A"@
        } else {
            "A=D+M"@
        },
        "D=M"@,
        "@SP"@,
        "A=M"@,
        "M=D"@,
        "@SP"@,
        "M=M+1"@,
    ]
}

/// Popping into the entry `index` of a segment whose base is `address`: the
/// target address is kept in the scratch variable `dest` while the stack
/// pointer moves.
pub open spec fn pop_block(segment: Segment, index: u16, address: Seq<char>, dest: Seq<char>) -> Seq<
    Seq<char>,
> {
    seq![at(decimal(index as nat)), "D=A"@, at(address)] + (if segment.is_fixed() {
        Seq::<Seq<char>>::empty()
    } else {
        seq!["A=M"@]
    }) + seq![
        "D=D+A"@,
        at(dest),
        "M=D"@,
        "@SP"@,
        "M=M-1"@,
        "A=M"@,
        "D=M"@,
        at(dest),
        "A=M"@,
        "M=D"@,
    ]
}

/// Replacing the top of the stack by its negation or its complement.
pub open spec fn unary_block(token: UnaryToken) -> Seq<Seq<char>> {
    match token {
        UnaryToken::Neg => seq!["@0"@, "D=A"@, "@SP"@, "A=M-1"@, "M=D-M"@],
        UnaryToken::Not => seq!["@SP"@, "A=M-1"@, "M=!M"@],
    }
}

/// The instruction that combines the popped entry, in `D`, with the new top
/// of the stack, in `M`.
pub open spec fn binary_operation(token: BinaryToken) -> Seq<char> {
    match token {
        BinaryToken::Add => "M=D+M"@,
        BinaryToken::Sub => "M=M-D"@,
        BinaryToken::And => "M=D&M"@,
        BinaryToken::Or => "M=D|M"@,
    }
}

/// Replacing the two topmost entries by the result of an operation.
pub open spec fn binary_block(token: BinaryToken) -> Seq<Seq<char>> {
    seq!["@SP"@, "M=M-1"@, "A=M"@, "D=M"@, "A=A-1"@, binary_operation(token)]
}

/// The conditional jump that is taken when the difference of the two entries
/// meets the comparison.
pub open spec fn comparison_jump(token: ComparisonToken) -> Seq<char> {
    match token {
        ComparisonToken::Equal => "D; JEQ"@,
        ComparisonToken::GreaterThan => "D; JGT"@,
        ComparisonToken::LessThan => "D; JLT"@,
    }
}

/// Replacing the two topmost entries by -1 if the comparison holds of them
/// and by 0 if not, with the three labels `hit`, `miss` and `done`.
pub open spec fn comparison_block(
    token: ComparisonToken,
    hit: Seq<char>,
    miss: Seq<char>,
    done: Seq<char>,
) -> Seq<Seq<char>> {
    seq![
        "@SP"@,
        "M=M-1"@,
        "A=M"@,
        "D=M"@,
        "A=A-1"@,
        "D=M-D"@,
        at(hit),
        comparison_jump(token),
        at(miss),
        "0; JMP"@,
        declared(hit),
        "    @0"@,
        "    D=A-1"@,
        at_indented(done),
        "    0; JMP"@,
        declared(miss),
        "    @0"@,
        "    D=A"@,
        declared(done),
        "    @SP"@,
        "    A=M"@,
        "    A=A-1"@,
        "    M=D"@,
    ]
}

/// What the generator remembers between instructions.
pub ghost struct GenState {
    /// The number of labels handed out so far.
    pub labels: nat,
    /// The number of scratch variables handed out so far.
    pub slots: nat,
    /// The scratch variable that backs each static index seen so far.
    pub statics: Map<u16, Seq<char>>,
}

impl GenState {
    /// The state at the start of a run.
    pub open spec fn fresh() -> GenState {
        GenState { labels: 0, slots: 0, statics: Map::empty() }
    }

    /// Every static index is backed by a scratch variable that was handed
    /// out, and no two by the same one.
    pub open spec fn wf(self) -> bool {
        &&& forall|i: u16| #[trigger]
            self.statics.contains_key(i) ==> exists|k: nat|
                k < self.slots && self.statics[i] == #[trigger] slot_name(k)
        &&& forall|i: u16, j: u16|
            self.statics.contains_key(i) && self.statics.contains_key(j) && i != j
                ==> #[trigger] self.statics[i] != #[trigger] self.statics[j]
    }

    /// Handing out one label.
    pub open spec fn take_label(self) -> (GenState, Seq<char>) {
        (GenState { labels: self.labels + 1, ..self }, label_name(self.labels))
    }

    /// Handing out one scratch variable.
    pub open spec fn take_slot(self) -> (GenState, Seq<char>) {
        (GenState { slots: self.slots + 1, ..self }, slot_name(self.slots))
    }

    /// The scratch variable behind the static index `index`: the one on
    /// record, or else a new one, which is then put on record.
    pub open spec fn static_slot(self, index: u16) -> (GenState, Seq<char>) {
        if self.statics.contains_key(index) {
            (self, self.statics[index])
        } else {
            (
                GenState {
                    slots: self.slots + 1,
                    statics: self.statics.insert(index, slot_name(self.slots)),
                    ..self
                },
                slot_name(self.slots),
            )
        }
    }

    /// The base address of `segment` for an access at `index`.
    pub open spec fn address(self, segment: Segment, index: u16) -> Result<
        (GenState, Seq<char>),
        TranslateError,
    > {
        if segment == Segment::Static {
            Ok(self.static_slot(index))
        } else {
            match segment.address() {
                Some(text) => Ok((self, text)),
                None => Err(TranslateError::ContextualAddressMisuse),
            }
        }
    }

    /// The state after a stack instruction, and its block. A pop takes its
    /// scratch variable before the address is resolved.
    pub open spec fn emit_stack(self, token: StackToken) -> Result<
        (GenState, Seq<Seq<char>>),
        TranslateError,
    > {
        match token {
            StackToken::Push { segment, index } => {
                if segment == Segment::Constant {
                    Ok((self, push_constant_block(index)))
                } else {
                    let (next, address) = self.address(segment, index)->Ok_0;
                    Ok((next, push_block(segment, index, address)))
                }
            },
            StackToken::Pop { segment, index } => {
                if segment == Segment::Constant {
                    Err(TranslateError::InvalidPop)
                } else {
                    let (taken, dest) = self.take_slot();
                    let (next, address) = taken.address(segment, index)->Ok_0;
                    Ok((next, pop_block(segment, index, address, dest)))
                }
            },
        }
    }

    /// The state after a comparison, and its block: three labels are taken,
    /// for the match, for the mismatch and for the end, in that order.
    pub open spec fn emit_comparison(self, token: ComparisonToken) -> (GenState, Seq<Seq<char>>) {
        (
            GenState { labels: self.labels + 3, ..self },
            comparison_block(
                token,
                label_name(self.labels),
                label_name(self.labels + 1),
                label_name(self.labels + 2),
            ),
        )
    }

    /// The state after the instruction `line`, and its block.
    pub open spec fn emit(self, line: Line) -> Result<(GenState, Seq<Seq<char>>), TranslateError> {
        match line {
            Line::Stack(token) => self.emit_stack(token),
            Line::Unary(token) => Ok((self, unary_block(token))),
            Line::Binary(token) => Ok((self, binary_block(token))),
            Line::Comparison(token) => Ok(self.emit_comparison(token)),
        }
    }

    /// The state after the instructions `lines`, emitted in order; `None` if
    /// one of them fails.
    pub open spec fn emit_all(self, lines: Seq<Line>) -> Option<GenState>
        decreases lines.len(),
    {
        if lines.len() == 0 {
            Some(self)
        } else {
            match self.emit_all(lines.drop_last()) {
                Some(before) => match before.emit(lines.last()) {
                    Ok((next, _)) => Some(next),
                    Err(_) => None,
                },
                None => None,
            }
        }
    }

    /// The block of the instruction `lines[i]` in the run over `lines`.
    pub open spec fn block(self, lines: Seq<Line>, i: int) -> Seq<Seq<char>>
        recommends
            0 <= i < lines.len(),
    {
        match self.emit_all(lines.take(i)) {
            Some(before) => match before.emit(lines[i]) {
                Ok((_, block)) => block,
                Err(_) => Seq::empty(),
            },
            None => Seq::empty(),
        }
    }

    /// The blocks of the instructions `lines`, emitted in order, one after
    /// another; the blocks up to the first failure if one of them fails.
    pub open spec fn output(self, lines: Seq<Line>) -> Seq<Seq<char>>
        decreases lines.len(),
    {
        if lines.len() == 0 {
            Seq::empty()
        } else {
            self.output(lines.drop_last()) + self.block(lines, lines.len() - 1)
        }
    }

    /// Both counters have room for `n` more instructions of any kind: an
    /// instruction takes at most three labels and two scratch variables.
    pub open spec fn spare(self, n: nat) -> bool {
        self.labels + 3 * n <= u64::MAX && self.slots + 2 * n <= u64::MAX
    }

    /// Both counters still fit in 64 bits after the instruction `line`.
    pub open spec fn has_room(self, line: Line) -> bool {
        match self.emit(line) {
            Ok((next, _)) => next.labels <= u64::MAX && next.slots <= u64::MAX,
            Err(_) => true,
        }
    }
}

/// What a call that returned `r` and left the generator in `after` did, in
/// the terms of [`GenState::emit`].
pub open spec fn outcome(r: Result<Vec<String>, TranslateError>, after: GenState) -> Result<
    (GenState, Seq<Seq<char>>),
    TranslateError,
> {
    match r {
        Ok(block) => Ok((after, lines_of(block@))),
        Err(e) => Err(e),
    }
}

/// Scratch variables with different numbers have different names.
pub proof fn lemma_slot_names_differ(a: nat, b: nat)
    requires
        a != b,
    ensures
        slot_name(a) != slot_name(b),
{
    if slot_name(a) == slot_name(b) {
        let p = "V_"@;
        assert(slot_name(a).skip(p.len() as int) =~= decimal(a));
        assert(slot_name(b).skip(p.len() as int) =~= decimal(b));
        lemma_decimal_injective(a, b);
    }
}

/// Labels with different numbers have different names.
pub proof fn lemma_label_names_differ(a: nat, b: nat)
    requires
        a != b,
    ensures
        label_name(a) != label_name(b),
{
    if label_name(a) == label_name(b) {
        let p = "JMP_"@;
        assert(label_name(a).skip(p.len() as int) =~= decimal(a));
        assert(label_name(b).skip(p.len() as int) =~= decimal(b));
        lemma_decimal_injective(a, b);
    }
}

/// Resolving a static index keeps the state consistent and keeps every
/// static slot that was on record.
pub proof fn lemma_static_slot_keeps_wf(state: GenState, index: u16)
    requires
        state.wf(),
    ensures
        state.static_slot(index).0.wf(),
        state.static_slot(index).0.statics.contains_key(index),
        state.static_slot(index).0.statics[index] == state.static_slot(index).1,
        state.static_slot(index).0.slots >= state.slots,
        state.static_slot(index).0.labels == state.labels,
        forall|i: u16| #[trigger]
            state.statics.contains_key(i) ==> state.static_slot(index).0.statics.contains_key(i)
                && state.static_slot(index).0.statics[i] == state.statics[i],
{
    let next = state.static_slot(index).0;
    if !state.statics.contains_key(index) {
        assert forall|i: u16| #[trigger] next.statics.contains_key(i) implies exists|k: nat|
            k < next.slots && next.statics[i] == #[trigger] slot_name(k) by {
            if i == index {
                assert(next.statics[i] == slot_name(state.slots));
            } else {
                assert(state.statics.contains_key(i));
                let k = choose|k: nat|
                    k < state.slots && state.statics[i] == #[trigger] slot_name(k);
                assert(next.statics[i] == slot_name(k));
            }
        }
        assert forall|i: u16, j: u16|
            next.statics.contains_key(i) && next.statics.contains_key(j) && i
                != j implies #[trigger] next.statics[i] != #[trigger] next.statics[j] by {
            if i == index {
                assert(state.statics.contains_key(j));
                let k = choose|k: nat|
                    k < state.slots && state.statics[j] == #[trigger] slot_name(k);
                lemma_slot_names_differ(k, state.slots);
            } else if j == index {
                assert(state.statics.contains_key(i));
                let k = choose|k: nat|
                    k < state.slots && state.statics[i] == #[trigger] slot_name(k);
                lemma_slot_names_differ(k, state.slots);
            } else {
                assert(state.statics.contains_key(i));
                assert(state.statics.contains_key(j));
            }
        }
    }
}

/// Handing out a label keeps the state consistent.
pub proof fn lemma_take_label_keeps_wf(state: GenState)
    requires
        state.wf(),
    ensures
        state.take_label().0.wf(),
{
    lemma_counters_keep_wf(state, state.take_label().0);
}

/// Handing out a scratch variable keeps the state consistent.
pub proof fn lemma_take_slot_keeps_wf(state: GenState)
    requires
        state.wf(),
    ensures
        state.take_slot().0.wf(),
{
    lemma_counters_keep_wf(state, state.take_slot().0);
}

/// A consistent state stays so when only its counters rise.
pub proof fn lemma_counters_keep_wf(state: GenState, next: GenState)
    requires
        state.wf(),
        next.statics == state.statics,
        next.slots >= state.slots,
    ensures
        next.wf(),
{
    assert forall|i: u16| #[trigger] next.statics.contains_key(i) implies exists|k: nat|
        k < next.slots && next.statics[i] == #[trigger] slot_name(k) by {
        assert(state.statics.contains_key(i));
        let k = choose|k: nat| k < state.slots && state.statics[i] == #[trigger] slot_name(k);
        assert(next.statics[i] == slot_name(k));
    }
}

/// Emitting an instruction keeps the state consistent, never lowers a
/// counter, and keeps every static slot that was on record.
pub proof fn lemma_emit_keeps_wf(state: GenState, line: Line)
    requires
        state.wf(),
        state.emit(line) is Ok,
    ensures
        state.emit(line)->Ok_0.0.wf(),
        state.emit(line)->Ok_0.0.labels >= state.labels,
        state.emit(line)->Ok_0.0.slots >= state.slots,
        forall|i: u16| #[trigger]
            state.statics.contains_key(i) ==> state.emit(line)->Ok_0.0.statics.contains_key(i)
                && state.emit(line)->Ok_0.0.statics[i] == state.statics[i],
{
    match line {
        Line::Stack(StackToken::Push { segment, index }) => {
            if segment == Segment::Static {
                lemma_static_slot_keeps_wf(state, index);
            }
        },
        Line::Stack(StackToken::Pop { segment, index }) => {
            lemma_take_slot_keeps_wf(state);
            if segment == Segment::Static {
                lemma_static_slot_keeps_wf(state.take_slot().0, index);
            }
        },
        _ => {},
    }
}

/// An instruction takes at most three labels and at most two scratch
/// variables, so a state with room for one instruction has room for `line`.
pub proof fn lemma_emit_takes_little(state: GenState, line: Line)
    ensures
        state.emit(line) is Ok ==> state.emit(line)->Ok_0.0.labels <= state.labels + 3
            && state.emit(line)->Ok_0.0.slots <= state.slots + 2,
        state.spare(1) ==> state.has_room(line),
{
}

/// Appends one line to a block.
fn put(block: &mut Vec<String>, line: String)
    ensures
        lines_of(final(block)@) == lines_of(old(block)@).push(line@),
{
    block.push(line);
    assert(lines_of(block@) =~= lines_of(old(block)@).push(line@));
}

/// Appends a line with a fixed text to a block.
fn put_text(block: &mut Vec<String>, text: &str)
    ensures
        lines_of(final(block)@) == lines_of(old(block)@).push(text@),
{
    put(block, String::from_str(text));
}

/// Appends the line made of `before`, `name` and `after` to a block.
fn put_named(block: &mut Vec<String>, before: &str, name: &str, after: &str)
    ensures
        lines_of(final(block)@) == lines_of(old(block)@).push(before@ + name@ + after@),
{
    let mut line = String::from_str(before);
    line.append(name);
    line.append(after);
    put(block, line);
}

/// Appends the line that loads the number `n` to a block.
fn put_number(block: &mut Vec<String>, n: u16)
    ensures
        lines_of(final(block)@) == lines_of(old(block)@).push(at(decimal(n as nat))),
{
    let mut line = String::from_str("@");
    push_decimal(&mut line, n as u64);
    put(block, line);
}

/// The code generator of one run.
#[derive(Debug)]
pub struct CodeGen {
    jmps: u64,
    vs: u64,
    statics: HashMap<u16, String>,
}

impl View for CodeGen {
    type V = GenState;

    closed spec fn view(&self) -> GenState {
        GenState {
            labels: self.jmps as nat,
            slots: self.vs as nat,
            statics: Map::new(
                |i: u16| self.statics@.contains_key(i),
                |i: u16| self.statics@[i]@,
            ),
        }
    }
}

impl CodeGen {
    /// The generator's invariant: that of its state.
    pub open spec fn wf(&self) -> bool {
        self@.wf()
    }

    /// A generator that has handed out nothing yet.
    pub fn new() -> (cg: CodeGen)
        ensures
            cg@ == GenState::fresh(),
            cg.wf(),
    {
        let cg = CodeGen { jmps: 0, vs: 0, statics: HashMap::new() };
        assert(cg@.statics =~= Map::<u16, Seq<char>>::empty());
        cg
    }

    /// The number of labels handed out so far.
    pub fn label_count(&self) -> (n: u64)
        ensures
            n == self@.labels,
    {
        self.jmps
    }

    /// The number of scratch variables handed out so far.
    pub fn slot_count(&self) -> (n: u64)
        ensures
            n == self@.slots,
    {
        self.vs
    }

    /// Whether both counters have room for `n` more instructions.
    pub fn has_spare(&self, n: usize) -> (b: bool)
        ensures
            b == self@.spare(n as nat),
    {
        let most: u128 = 0xFFFF_FFFF_FFFF_FFFF;
        let n: u128 = n as u128;
        self.jmps as u128 + 3 * n <= most && self.vs as u128 + 2 * n <= most
    }

    /// Hands out the next label.
    pub fn get_jmp_token(&mut self) -> (name: String)
        requires
            old(self).wf(),
            old(self)@.labels < u64::MAX,
        ensures
            final(self).wf(),
            (final(self)@, name@) == old(self)@.take_label(),
    {
        proof {
            lemma_take_label_keeps_wf(self@);
        }
        let jmp_id = self.jmps;
        self.jmps = self.jmps + 1;
        let mut name = String::from_str("JMP_");
        push_decimal(&mut name, jmp_id);
        name
    }

    /// Hands out the next scratch variable.
    pub fn get_variable(&mut self) -> (name: String)
        requires
            old(self).wf(),
            old(self)@.slots < u64::MAX,
        ensures
            final(self).wf(),
            (final(self)@, name@) == old(self)@.take_slot(),
    {
        proof {
            lemma_take_slot_keeps_wf(self@);
        }
        let v_id = self.vs;
        self.vs = self.vs + 1;
        let mut name = String::from_str("V_");
        push_decimal(&mut name, v_id);
        name
    }

    /// The scratch variable that backs the static index `index`.
    pub fn get_static_variable(&mut self, index: &u16) -> (name: String)
        requires
            old(self).wf(),
            old(self)@.static_slot(*index).0.slots <= u64::MAX,
        ensures
            final(self).wf(),
            (final(self)@, name@) == old(self)@.static_slot(*index),
    {
        match self.statics.get(index) {
            Some(v) => v.clone(),
            None => {
                let ghost before = self@;
                let v = self.get_variable();
                self.statics.insert(*index, v.clone());
                proof {
                    let expected = before.static_slot(*index).0;
                    assert(self@.statics =~= expected.statics);
                    lemma_static_slot_keeps_wf(before, *index);
                }
                v
            },
        }
    }

    /// The base address of `segment` for an access at `index`. The constant
    /// segment has none.
    pub fn get_address(&mut self, segment: &Segment, index: &u16) -> (r: Result<
        String,
        TranslateError,
    >)
        requires
            old(self).wf(),
            old(self)@.address(*segment, *index) is Ok ==> old(self)@.address(
                *segment,
                *index,
            )->Ok_0.0.slots <= u64::MAX,
        ensures
            final(self).wf(),
            match old(self)@.address(*segment, *index) {
                Ok((next, text)) => r is Ok && r->Ok_0@ == text && final(self)@ == next,
                Err(e) => r == Err::<String, TranslateError>(e) && final(self)@ == old(self)@,
            },
    {
        if let Segment::Static = segment {
            Ok(self.get_static_variable(index))
        } else {
            match segment.to_address() {
                Ok(text) => Ok(String::from_str(text)),
                Err(e) => Err(e),
            }
        }
    }

    /// Emits the block of a stack instruction. Popping into the constant
    /// segment fails, before anything is taken or written down.
    pub fn gen_stack_block(&mut self, token: &StackToken) -> (r: Result<
        Vec<String>,
        TranslateError,
    >)
        requires
            old(self).wf(),
            old(self)@.has_room(Line::Stack(*token)),
        ensures
            final(self).wf(),
            outcome(r, final(self)@) == old(self)@.emit_stack(*token),
            r is Err ==> final(self)@ == old(self)@,
    {
        match token {
            StackToken::Push { segment, index } => {
                let mut block: Vec<String> = Vec::new();
                assert(lines_of(block@) =~= Seq::<Seq<char>>::empty());
                match segment {
                    Segment::Constant => {
                        put_number(&mut block, *index);
                        put_text(&mut block, "D=A");
                    },
                    _ => {
                        let address = match self.get_address(segment, index) {
                            Ok(address) => address,
                            Err(e) => {
                                return Err(e);
                            },
                        };
                        put_number(&mut block, *index);
                        put_text(&mut block, "D=A");
                        put_named(&mut block, "@", address.as_str(), "");
                        match segment {
                            Segment::Temp | Segment::Pointer => {
                                put_text(&mut block, "A=D+A");
                            },
                            _ => {
                                put_text(&mut block, "A=D+M");
                            },
                        }
                        put_text(&mut block, "D=M");
                        proof {
                            lemma_empty_text();
                            assert("@"@ + address@ + ""@ =~= at(address@));
                        }
                    },
                }
                put_text(&mut block, "@SP");
                put_text(&mut block, "A=M");
                put_text(&mut block, "M=D");
                put_text(&mut block, "@SP");
                put_text(&mut block, "M=M+1");
                assert(lines_of(block@) =~= old(self)@.emit_stack(*token)->Ok_0.1);
                Ok(block)
            },
            StackToken::Pop { segment, index } => {
                match segment {
                    Segment::Constant => Err(TranslateError::InvalidPop),
                    _ => {
                        let mut block: Vec<String> = Vec::new();
                        assert(lines_of(block@) =~= Seq::<Seq<char>>::empty());
                        let dest = self.get_variable();
                        let address = match self.get_address(segment, index) {
                            Ok(address) => address,
                            Err(e) => {
                                return Err(e);
                            },
                        };
                        put_number(&mut block, *index);
                        put_text(&mut block, "D=A");
                        put_named(&mut block, "@", address.as_str(), "");
                        match segment {
                            Segment::Temp | Segment::Pointer => {},
                            _ => {
                                put_text(&mut block, "A=M");
                            },
                        }
                        put_text(&mut block, "D=D+A");
                        put_named(&mut block, "@", dest.as_str(), "");
                        put_text(&mut block, "M=D");
                        put_text(&mut block, "@SP");
                        put_text(&mut block, "M=M-1");
                        put_text(&mut block, "A=M");
                        put_text(&mut block, "D=M");
                        put_named(&mut block, "@", dest.as_str(), "");
                        put_text(&mut block, "A=M");
                        put_text(&mut block, "M=D");
                        proof {
                            lemma_empty_text();
                            assert("@"@ + address@ + ""@ =~= at(address@));
                            assert("@"@ + dest@ + ""@ =~= at(dest@));
                            assert(lines_of(block@) =~= old(self)@.emit_stack(*token)->Ok_0.1);
                        }
                        Ok(block)
                    },
                }
            },
        }
    }

    /// Emits the block of a unary operation. The generator is not changed.
    pub fn gen_unary_block(&self, token: &UnaryToken) -> (r: Result<Vec<String>, TranslateError>)
        ensures
            r is Ok,
            lines_of(r->Ok_0@) == unary_block(*token),
    {
        let mut block: Vec<String> = Vec::new();
        assert(lines_of(block@) =~= Seq::<Seq<char>>::empty());
        if let UnaryToken::Neg = token {
            put_text(&mut block, "@0");
            put_text(&mut block, "D=A");
        }
        let operation = match token {
            UnaryToken::Neg => "M=D-M",
            UnaryToken::Not => "M=!M",
        };
        put_text(&mut block, "@SP");
        put_text(&mut block, "A=M-1");
        put_text(&mut block, operation);
        assert(lines_of(block@) =~= unary_block(*token));
        Ok(block)
    }

    /// Emits the block of a binary operation. The generator is not changed.
    pub fn gen_binary_block(&self, token: &BinaryToken) -> (r: Result<Vec<String>, TranslateError>)
        ensures
            r is Ok,
            lines_of(r->Ok_0@) == binary_block(*token),
    {
        let operation = match token {
            BinaryToken::Add => "M=D+M",
            BinaryToken::Sub => "M=M-D",
            BinaryToken::And => "M=D&M",
            BinaryToken::Or => "M=D|M",
        };
        let mut block: Vec<String> = Vec::new();
        assert(lines_of(block@) =~= Seq::<Seq<char>>::empty());
        put_text(&mut block, "@SP");
        put_text(&mut block, "M=M-1");
        put_text(&mut block, "A=M");
        put_text(&mut block, "D=M");
        put_text(&mut block, "A=A-1");
        put_text(&mut block, operation);
        assert(lines_of(block@) =~= binary_block(*token));
        Ok(block)
    }

    /// Emits the block of a comparison, with three labels of its own.
    pub fn gen_comparison_block(&mut self, token: &ComparisonToken) -> (r: Result<
        Vec<String>,
        TranslateError,
    >)
        requires
            old(self).wf(),
            old(self)@.labels + 3 <= u64::MAX,
        ensures
            final(self).wf(),
            r is Ok,
            (final(self)@, lines_of(r->Ok_0@)) == old(self)@.emit_comparison(*token),
    {
        let cnd_jmp = match token {
            ComparisonToken::Equal => "D; JEQ",
            ComparisonToken::GreaterThan => "D; JGT",
            ComparisonToken::LessThan => "D; JLT",
        };
        proof {
            lemma_counters_keep_wf(self@, self@.emit_comparison(*token).0);
        }
        let if_match = self.get_jmp_token();
        let if_not_match = self.get_jmp_token();
        let done = self.get_jmp_token();

        let mut block: Vec<String> = Vec::new();
        assert(lines_of(block@) =~= Seq::<Seq<char>>::empty());
        put_text(&mut block, "@SP");
        put_text(&mut block, "M=M-1");
        put_text(&mut block, "A=M");
        put_text(&mut block, "D=M");

        put_text(&mut block, "A=A-1");
        put_text(&mut block, "D=M-D");

        put_named(&mut block, "@", if_match.as_str(), "");
        put_text(&mut block, cnd_jmp);
        put_named(&mut block, "@", if_not_match.as_str(), "");
        put_text(&mut block, "0; JMP");

        put_named(&mut block, "(", if_match.as_str(), ")");
        put_text(&mut block, "    @0");
        put_text(&mut block, "    D=A-1");
        put_named(&mut block, "    @", done.as_str(), "");
        put_text(&mut block, "    0; JMP");

        put_named(&mut block, "(", if_not_match.as_str(), ")");
        put_text(&mut block, "    @0");
        put_text(&mut block, "    D=A");

        put_named(&mut block, "(", done.as_str(), ")");
        put_text(&mut block, "    @SP");
        put_text(&mut block, "    A=M");
        put_text(&mut block, "    A=A-1");
        put_text(&mut block, "    M=D");
        proof {
            lemma_empty_text();
            assert("@"@ + if_match@ + ""@ =~= at(if_match@));
            assert("@"@ + if_not_match@ + ""@ =~= at(if_not_match@));
            assert("    @"@ + done@ + ""@ =~= at_indented(done@));
            assert(lines_of(block@) =~= old(self)@.emit_comparison(*token).1);
        }
        Ok(block)
    }

    /// Emits the block of one instruction and records what it handed out.
    /// Popping into the constant segment is the one failure; it leaves the
    /// generator as it was. The block writes the instructions that
    /// [`GenState::instrs`] gives for the instruction.
    pub fn gen_block(&mut self, line: &Line) -> (r: Result<Vec<String>, TranslateError>)
        requires
            old(self).wf(),
            old(self)@.has_room(*line),
        ensures
            final(self).wf(),
            outcome(r, final(self)@) == old(self)@.emit(*line),
            r is Err ==> final(self)@ == old(self)@,
            r is Ok ==> lines_of(r->Ok_0@) == written(old(self)@.instrs(*line)),
    {
        proof {
            if self@.emit(*line) is Ok {
                lemma_block_written(self@, *line);
            }
        }
        match line {
            Line::Stack(token) => self.gen_stack_block(token),
            Line::Unary(token) => self.gen_unary_block(token),
            Line::Binary(token) => self.gen_binary_block(token),
            Line::Comparison(token) => self.gen_comparison_block(token),
        }
    }
}

/// The empty text has no characters.
proof fn lemma_empty_text()
    ensures
        ""@ == Seq::<char>::empty(),
{
    reveal_strlit("");
    assert(""@ =~= Seq::<char>::empty());
}

} // verus!
