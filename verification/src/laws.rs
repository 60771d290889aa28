//! What holds of the instruction model and of the code generator as a whole.

use vstd::prelude::*;
use crate::codegen::{
    at, at_indented, binary_block, comparison_block, declared, label_name, lemma_emit_keeps_wf,
    lemma_label_names_differ, lemma_slot_names_differ, lemma_static_slot_keeps_wf,
    lemma_take_slot_keeps_wf, pop_block, push_block, push_constant_block, slot_name, unary_block,
    GenState,
};
use crate::decimal::{decimal, index_of, lemma_decimal_is_word, lemma_index_of_decimal};
use crate::parser::{Line, ParserState, Record, Segment, StackToken};
use crate::words::{lemma_tokens_three, space_free, tokens};

verus! {

/// The keywords and the segment names are single words, and no two of them
/// are the same.
proof fn lemma_vocabulary()
    ensures
        forall|segment: Segment|
            Segment::named(#[trigger] segment.name()) == Some(segment) && space_free(
                segment.name(),
            ) && segment.name().len() > 0,
        space_free("push"@),
        space_free("pop"@),
        "push"@.len() > 0,
        "pop"@.len() > 0,
        "push"@ != "pop"@,
{
    reveal_strlit("push");
    reveal_strlit("pop");
    reveal_strlit("constant");
    reveal_strlit("local");
    reveal_strlit("argument");
    reveal_strlit("this");
    reveal_strlit("that");
    reveal_strlit("temp");
    reveal_strlit("pointer");
    reveal_strlit("static");
    assert("this"@[2] != "that"@[2]);
    assert("push"@ =~= seq!['p', 'u', 's', 'h']);
    assert("pop"@ =~= seq!['p', 'o', 'p']);
    assert("constant"@ =~= seq!['c', 'o', 'n', 's', 't', 'a', 'n', 't']);
    assert("local"@ =~= seq!['l', 'o', 'c', 'a', 'l']);
    assert("argument"@ =~= seq!['a', 'r', 'g', 'u', 'm', 'e', 'n', 't']);
    assert("this"@ =~= seq!['t', 'h', 'i', 's']);
    assert("that"@ =~= seq!['t', 'h', 'a', 't']);
    assert("temp"@ =~= seq!['t', 'e', 'm', 'p']);
    assert("pointer"@ =~= seq!['p', 'o', 'i', 'n', 't', 'e', 'r']);
    assert("static"@ =~= seq!['s', 't', 'a', 't', 'i', 'c']);
    assert(space_free("push"@));
    assert(space_free("pop"@));
    assert(space_free("constant"@));
    assert(space_free("local"@));
    assert(space_free("argument"@));
    assert(space_free("this"@));
    assert(space_free("that"@));
    assert(space_free("temp"@));
    assert(space_free("pointer"@));
    assert(space_free("static"@));
    assert forall|segment: Segment|
        Segment::named(#[trigger] segment.name()) == Some(segment) && space_free(segment.name())
            && segment.name().len() > 0 by {
        match segment {
            Segment::Constant => {},
            Segment::Local => {},
            Segment::Argument => {},
            Segment::This => {},
            Segment::That => {},
            Segment::Temp => {},
            Segment::Pointer => {},
            Segment::Static => {},
        }
    }
}

/// Writing a stack instruction out and reading the text back gives the same
/// instruction: the same direction, segment and index.
pub proof fn lemma_text_round_trip(token: StackToken)
    ensures
        StackToken::parse(token.text()) == Ok::<StackToken, crate::error::TranslateError>(token),
        Line::parse(token.text()) == Ok::<Line, crate::error::TranslateError>(Line::Stack(token)),
{
    lemma_vocabulary();
    let keyword = match token {
        StackToken::Push { .. } => "push"@,
        StackToken::Pop { .. } => "pop"@,
    };
    let name = token.segment().name();
    let number = decimal(token.index() as nat);
    assert(Segment::named(name) == Some(token.segment()));
    lemma_decimal_is_word(token.index() as nat);
    lemma_index_of_decimal(token.index());
    lemma_tokens_three(keyword, name, number);
}

/// A stack instruction that was read from a line holds what the line says:
/// its segment is the one that the second word names, and its index is the
/// value of the third word. Writing both out again and reading them back
/// changes neither.
pub proof fn lemma_parse_keeps_operands(s: Seq<char>, token: StackToken)
    requires
        Line::parse(s) == Ok::<Line, crate::error::TranslateError>(Line::Stack(token)),
    ensures
        tokens(s).len() >= 3,
        tokens(s)[1] == token.segment().name(),
        index_of(tokens(s)[2]) == Some(token.index()),
        Segment::named(token.segment().name()) == Some(token.segment()),
        index_of(decimal(token.index() as nat)) == Some(token.index()),
{
    lemma_vocabulary();
    lemma_index_of_decimal(token.index());
    reveal_strlit("push");
    reveal_strlit("pop");
    reveal_strlit("neg");
    reveal_strlit("not");
    reveal_strlit("add");
    reveal_strlit("sub");
    reveal_strlit("and");
    reveal_strlit("or");
    reveal_strlit("eq");
    reveal_strlit("lt");
    reveal_strlit("gt");
}

/// A pop into a segment other than the constant one takes exactly one
/// scratch variable, provided that it does not also meet a static index for
/// the first time. Nothing else in the state changes.
pub proof fn lemma_pop_takes_one_slot(state: GenState, segment: Segment, index: u16)
    requires
        segment != Segment::Constant,
        segment == Segment::Static ==> state.statics.contains_key(index),
    ensures
        state.emit(Line::Stack(StackToken::Pop { segment, index })) is Ok,
        state.emit(Line::Stack(StackToken::Pop { segment, index }))->Ok_0.0 == (GenState {
            slots: state.slots + 1,
            ..state
        }),
{
}

/// A pop that meets a static index for the first time takes two scratch
/// variables: one for its target address and one to back the index.
pub proof fn lemma_pop_new_static_takes_two_slots(state: GenState, index: u16)
    requires
        !state.statics.contains_key(index),
    ensures
        state.emit(Line::Stack(StackToken::Pop { segment: Segment::Static, index })) is Ok,
        state.emit(Line::Stack(StackToken::Pop { segment: Segment::Static, index }))->Ok_0.0.slots
            == state.slots + 2,
{
}

/// Whether `line` is a pop that takes exactly one scratch variable in a
/// state whose static slots are `state.statics`.
pub open spec fn is_plain_pop(state: GenState, line: Line) -> bool {
    match line {
        Line::Stack(StackToken::Pop { segment, index }) => segment != Segment::Constant && (segment
            == Segment::Static ==> state.statics.contains_key(index)),
        _ => false,
    }
}

/// After `k` such pops the count of scratch variables is `k` higher, and
/// nothing else in the state has changed.
pub proof fn lemma_pops_count_slots(state: GenState, lines: Seq<Line>)
    requires
        forall|i: int| 0 <= i < lines.len() ==> is_plain_pop(state, #[trigger] lines[i]),
    ensures
        state.emit_all(lines) == Some(GenState { slots: state.slots + lines.len(), ..state }),
    decreases lines.len(),
{
    if lines.len() > 0 {
        let head = lines.drop_last();
        assert forall|i: int| 0 <= i < head.len() implies is_plain_pop(state, #[trigger] head[i]) by {
            assert(head[i] == lines[i]);
        }
        lemma_pops_count_slots(state, head);
        let before = GenState { slots: state.slots + head.len(), ..state };
        assert(is_plain_pop(state, lines[lines.len() - 1]));
        match lines.last() {
            Line::Stack(StackToken::Pop { segment, index }) => {
                lemma_pop_takes_one_slot(before, segment, index);
            },
            _ => {},
        }
    }
}

/// Two pops in a row keep their target addresses in different scratch
/// variables, whatever their segments.
pub proof fn lemma_consecutive_pops_differ(
    state: GenState,
    first: (Segment, u16),
    second: (Segment, u16),
)
    requires
        first.0 != Segment::Constant,
        second.0 != Segment::Constant,
    ensures
        ({
            let one = state.emit(Line::Stack(StackToken::Pop { segment: first.0, index: first.1 }));
            let mid = one->Ok_0.0;
            let two = mid.emit(Line::Stack(StackToken::Pop { segment: second.0, index: second.1 }));
            &&& one is Ok
            &&& two is Ok
            &&& one->Ok_0.1 == pop_block(
                first.0,
                first.1,
                state.take_slot().0.address(first.0, first.1)->Ok_0.1,
                slot_name(state.slots),
            )
            &&& two->Ok_0.1 == pop_block(
                second.0,
                second.1,
                mid.take_slot().0.address(second.0, second.1)->Ok_0.1,
                slot_name(mid.slots),
            )
            &&& slot_name(state.slots) != slot_name(mid.slots)
        }),
{
    let one = state.emit(Line::Stack(StackToken::Pop { segment: first.0, index: first.1 }));
    let mid = one->Ok_0.0;
    assert(mid.slots > state.slots);
    lemma_slot_names_differ(state.slots, mid.slots);
}

/// A run that goes through goes through up to each of its instructions.
pub proof fn lemma_run_prefix(state: GenState, lines: Seq<Line>, k: int)
    requires
        0 <= k <= lines.len(),
        state.emit_all(lines) is Some,
    ensures
        state.emit_all(lines.take(k)) is Some,
        k < lines.len() ==> state.emit_all(lines.take(k))->0.emit(lines[k]) is Ok
            && state.emit_all(lines.take(k + 1)) == Some(
            state.emit_all(lines.take(k))->0.emit(lines[k])->Ok_0.0,
        ),
    decreases lines.len() - k,
{
    if k == lines.len() {
        assert(lines.take(k) =~= lines);
    } else {
        if k + 1 == lines.len() {
            assert(lines.take(k + 1) =~= lines);
        } else {
            lemma_run_prefix(state, lines, k + 1);
        }
        assert(lines.take(k + 1).drop_last() =~= lines.take(k));
        assert(lines.take(k + 1).last() == lines[k]);
    }
}

/// Along a run from a consistent state every state is consistent, the
/// counters never fall, and a static slot that is on record stays as it is.
pub proof fn lemma_run_grows(state: GenState, lines: Seq<Line>, i: int, j: int)
    requires
        state.wf(),
        0 <= i <= j <= lines.len(),
        state.emit_all(lines) is Some,
    ensures
        state.emit_all(lines.take(i)) is Some,
        state.emit_all(lines.take(j)) is Some,
        state.emit_all(lines.take(i))->0.wf(),
        state.emit_all(lines.take(j))->0.wf(),
        state.emit_all(lines.take(i))->0.labels <= state.emit_all(lines.take(j))->0.labels,
        state.emit_all(lines.take(i))->0.slots <= state.emit_all(lines.take(j))->0.slots,
        forall|x: u16| #[trigger]
            state.emit_all(lines.take(i))->0.statics.contains_key(x) ==> state.emit_all(
                lines.take(j),
            )->0.statics.contains_key(x) && state.emit_all(lines.take(j))->0.statics[x]
                == state.emit_all(lines.take(i))->0.statics[x],
    decreases j,
{
    lemma_run_prefix(state, lines, i);
    lemma_run_prefix(state, lines, j);
    if j == 0 {
        assert(lines.take(0) =~= Seq::<Line>::empty());
    } else if i == j {
        lemma_run_grows(state, lines, 0, j - 1);
        lemma_run_prefix(state, lines, j - 1);
        lemma_emit_keeps_wf(state.emit_all(lines.take(j - 1))->0, lines[j - 1]);
    } else {
        lemma_run_grows(state, lines, i, j - 1);
        lemma_run_prefix(state, lines, j - 1);
        lemma_emit_keeps_wf(state.emit_all(lines.take(j - 1))->0, lines[j - 1]);
    }
}

/// The three labels of the comparison that is emitted in `state`.
pub open spec fn label_triple(state: GenState) -> Seq<Seq<char>> {
    seq![label_name(state.labels), label_name(state.labels + 1), label_name(state.labels + 2)]
}

/// Two different comparisons of one run share no label: each of the three
/// labels of the first differs from each of the three of the second.
pub proof fn lemma_label_triples_disjoint(state: GenState, lines: Seq<Line>, i: int, j: int)
    requires
        state.wf(),
        0 <= i < j < lines.len(),
        lines[i] is Comparison,
        lines[j] is Comparison,
        state.emit_all(lines) is Some,
    ensures
        ({
            let first = state.emit_all(lines.take(i))->0;
            let second = state.emit_all(lines.take(j))->0;
            &&& first.emit(lines[i]) == Ok::<
                (GenState, Seq<Seq<char>>),
                crate::error::TranslateError,
            >(first.emit_comparison(lines[i]->Comparison_0))
            &&& second.emit(lines[j]) == Ok::<
                (GenState, Seq<Seq<char>>),
                crate::error::TranslateError,
            >(second.emit_comparison(lines[j]->Comparison_0))
            &&& forall|a: int, b: int|
                0 <= a < 3 && 0 <= b < 3 ==> #[trigger] label_triple(first)[a]
                    != #[trigger] label_triple(second)[b]
        }),
{
    let first = state.emit_all(lines.take(i))->0;
    let after = state.emit_all(lines.take(i + 1))->0;
    let second = state.emit_all(lines.take(j))->0;
    lemma_run_prefix(state, lines, i);
    lemma_run_grows(state, lines, i + 1, j);
    assert(after.labels == first.labels + 3);
    assert(second.labels >= first.labels + 3);
    assert forall|a: int, b: int| 0 <= a < 3 && 0 <= b < 3 implies #[trigger] label_triple(
        first,
    )[a] != #[trigger] label_triple(second)[b] by {
        lemma_label_names_differ((first.labels + a) as nat, (second.labels + b) as nat);
    }
}

/// The three labels of one comparison differ from one another.
pub proof fn lemma_label_triple_distinct(state: GenState)
    ensures
        forall|a: int, b: int|
            0 <= a < 3 && 0 <= b < 3 && a != b ==> #[trigger] label_triple(state)[a]
                != #[trigger] label_triple(state)[b],
{
    assert forall|a: int, b: int| 0 <= a < 3 && 0 <= b < 3 && a != b implies #[trigger] label_triple(
        state,
    )[a] != #[trigger] label_triple(state)[b] by {
        lemma_label_names_differ((state.labels + a) as nat, (state.labels + b) as nat);
    }
}

/// Whether a line of assembly declares a label: whether it opens with `(`.
pub open spec fn is_declaration(line: Seq<char>) -> bool {
    line.len() > 0 && line[0] == '('
}

/// None of the fixed lines of the blocks declares a label.
proof fn lemma_fixed_lines()
    ensures
        !is_declaration("D=A"@),
        !is_declaration("@SP"@),
        !is_declaration("A=M"@),
        !is_declaration("M=D"@),
        !is_declaration("M=M+1"@),
        !is_declaration("A=D+A"@),
        !is_declaration("A=D+M"@),
        !is_declaration("D=M"@),
        !is_declaration("D=D+A"@),
        !is_declaration("M=M-1"@),
        !is_declaration("@0"@),
        !is_declaration("A=M-1"@),
        !is_declaration("M=D-M"@),
        !is_declaration("M=!M"@),
        !is_declaration("M=D+M"@),
        !is_declaration("M=M-D"@),
        !is_declaration("M=D&M"@),
        !is_declaration("M=D|M"@),
        !is_declaration("A=A-1"@),
        !is_declaration("D=M-D"@),
        !is_declaration("D; JEQ"@),
        !is_declaration("D; JGT"@),
        !is_declaration("D; JLT"@),
        !is_declaration("0; JMP"@),
        !is_declaration("    @0"@),
        !is_declaration("    D=A-1"@),
        !is_declaration("    0; JMP"@),
        !is_declaration("    D=A"@),
        !is_declaration("    @SP"@),
        !is_declaration("    A=M"@),
        !is_declaration("    A=A-1"@),
        !is_declaration("    M=D"@),
        forall|name: Seq<char>| !is_declaration(#[trigger] at(name)),
        forall|name: Seq<char>| !is_declaration(#[trigger] at_indented(name)),
        forall|name: Seq<char>| is_declaration(#[trigger] declared(name)),
{
    reveal_strlit("D=A");
    reveal_strlit("@SP");
    reveal_strlit("A=M");
    reveal_strlit("M=D");
    reveal_strlit("M=M+1");
    reveal_strlit("A=D+A");
    reveal_strlit("A=D+M");
    reveal_strlit("D=M");
    reveal_strlit("D=D+A");
    reveal_strlit("M=M-1");
    reveal_strlit("@0");
    reveal_strlit("A=M-1");
    reveal_strlit("M=D-M");
    reveal_strlit("M=!M");
    reveal_strlit("M=D+M");
    reveal_strlit("M=M-D");
    reveal_strlit("M=D&M");
    reveal_strlit("M=D|M");
    reveal_strlit("A=A-1");
    reveal_strlit("D=M-D");
    reveal_strlit("D; JEQ");
    reveal_strlit("D; JGT");
    reveal_strlit("D; JLT");
    reveal_strlit("0; JMP");
    reveal_strlit("    @0");
    reveal_strlit("    D=A-1");
    reveal_strlit("    0; JMP");
    reveal_strlit("    D=A");
    reveal_strlit("    @SP");
    reveal_strlit("    A=M");
    reveal_strlit("    A=A-1");
    reveal_strlit("    M=D");
    reveal_strlit("@");
    reveal_strlit("    @");
    reveal_strlit("(");
    reveal_strlit(")");
}

/// The line that declares a label is a declaration.
pub proof fn lemma_declared_is_declaration(name: Seq<char>)
    ensures
        is_declaration(declared(name)),
{
    lemma_fixed_lines();
}

/// Different labels are declared by different lines.
pub proof fn lemma_declarations_differ(a: nat, b: nat)
    requires
        a != b,
    ensures
        declared(label_name(a)) != declared(label_name(b)),
{
    reveal_strlit("(");
    reveal_strlit(")");
    lemma_label_names_differ(a, b);
    let x = label_name(a);
    let y = label_name(b);
    if declared(x) == declared(y) {
        assert(declared(x).subrange(1, 1 + x.len() as int) =~= x);
        assert(declared(y).subrange(1, 1 + y.len() as int) =~= y);
        assert(declared(x).len() == x.len() + 2);
        assert(declared(y).len() == y.len() + 2);
    }
}

/// The lines of one block that declare a label are the three declarations
/// of a comparison, each of a label that the comparison took; no other
/// block holds a declaration.
pub proof fn lemma_block_declarations(state: GenState, line: Line, i: int)
    requires
        state.emit(line) is Ok,
        0 <= i < state.emit(line)->Ok_0.1.len(),
        is_declaration(state.emit(line)->Ok_0.1[i]),
    ensures
        line is Comparison,
        i == 10 || i == 15 || i == 18,
        i == 10 ==> state.emit(line)->Ok_0.1[i] == declared(label_name(state.labels)),
        i == 15 ==> state.emit(line)->Ok_0.1[i] == declared(label_name(state.labels + 1)),
        i == 18 ==> state.emit(line)->Ok_0.1[i] == declared(label_name(state.labels + 2)),
        state.emit(line)->Ok_0.0.labels == state.labels + 3,
{
    lemma_fixed_lines();
    let block = state.emit(line)->Ok_0.1;
    match line {
        Line::Stack(StackToken::Push { segment, index }) => {
            if segment == Segment::Constant {
                assert(block == push_constant_block(index));
            } else {
                let address = state.address(segment, index)->Ok_0.1;
                assert(block == push_block(segment, index, address));
            }
            assert(false);
        },
        Line::Stack(StackToken::Pop { segment, index }) => {
            let address = state.take_slot().0.address(segment, index)->Ok_0.1;
            assert(block == pop_block(segment, index, address, slot_name(state.slots)));
            assert(false);
        },
        Line::Unary(token) => {
            assert(block == unary_block(token));
            assert(false);
        },
        Line::Binary(token) => {
            assert(block == binary_block(token));
            assert(false);
        },
        Line::Comparison(token) => {
            assert(block == comparison_block(
                token,
                label_name(state.labels),
                label_name(state.labels + 1),
                label_name(state.labels + 2),
            ));
        },
    }
}

/// Every declaration in the output of a run is that of a label which was
/// taken during the run.
pub proof fn lemma_output_declarations(state: GenState, lines: Seq<Line>, p: int)
    requires
        state.wf(),
        state.emit_all(lines) is Some,
        0 <= p < state.output(lines).len(),
        is_declaration(state.output(lines)[p]),
    ensures
        exists|n: nat|
            state.labels <= n < state.emit_all(lines)->0.labels && state.output(lines)[p]
                == declared(#[trigger] label_name(n)),
    decreases lines.len(),
{
    if lines.len() > 0 {
        let head = lines.drop_last();
        assert(head =~= lines.take(lines.len() - 1));
        assert(lines.last() == lines[lines.len() - 1]);
        lemma_run_prefix(state, lines, lines.len() - 1);
        lemma_run_grows(state, lines, 0, lines.len() - 1);
        assert(lines.take(0) =~= Seq::<Line>::empty());
        let before = state.emit_all(head)->0;
        let first = state.output(head);
        let block = before.emit(lines.last())->Ok_0.1;
        let end = state.emit_all(lines)->0;
        lemma_emit_keeps_wf(before, lines.last());
        if p < first.len() {
            lemma_output_declarations(state, head, p);
            let n = choose|n: nat|
                state.labels <= n < before.labels && first[p] == declared(#[trigger] label_name(n));
            assert(state.labels <= n < end.labels && state.output(lines)[p] == declared(
                label_name(n),
            ));
        } else {
            let i = p - first.len();
            assert(state.output(lines)[p] == block[i]);
            lemma_block_declarations(before, lines.last(), i);
            let n = (if i == 10 {
                before.labels
            } else if i == 15 {
                before.labels + 1
            } else {
                before.labels + 2
            }) as nat;
            assert(state.labels <= n < end.labels && state.output(lines)[p] == declared(
                label_name(n),
            ));
        }
    }
}

/// No label is declared twice in the output of a run: a line that declares
/// a label stands at one place only.
pub proof fn lemma_labels_declared_once(state: GenState, lines: Seq<Line>, p: int, q: int)
    requires
        state.wf(),
        state.emit_all(lines) is Some,
        0 <= p < q < state.output(lines).len(),
        is_declaration(state.output(lines)[p]),
    ensures
        state.output(lines)[p] != state.output(lines)[q],
    decreases lines.len(),
{
    if lines.len() > 0 {
        let head = lines.drop_last();
        assert(head =~= lines.take(lines.len() - 1));
        assert(lines.last() == lines[lines.len() - 1]);
        lemma_run_prefix(state, lines, lines.len() - 1);
        lemma_run_grows(state, lines, 0, lines.len() - 1);
        assert(lines.take(0) =~= Seq::<Line>::empty());
        let before = state.emit_all(head)->0;
        let first = state.output(head);
        let block = before.emit(lines.last())->Ok_0.1;
        let out = state.output(lines);
        if q < first.len() {
            lemma_labels_declared_once(state, head, p, q);
        } else if out[p] == out[q] {
            let j = q - first.len();
            assert(out[q] == block[j]);
            lemma_block_declarations(before, lines.last(), j);
            if p < first.len() {
                lemma_output_declarations(state, head, p);
                let n = choose|n: nat|
                    state.labels <= n < before.labels && first[p] == declared(
                        #[trigger] label_name(n),
                    );
                lemma_declarations_differ(n, before.labels);
                lemma_declarations_differ(n, before.labels + 1);
                lemma_declarations_differ(n, before.labels + 2);
            } else {
                let i = p - first.len();
                assert(out[p] == block[i]);
                lemma_block_declarations(before, lines.last(), i);
                lemma_declarations_differ(before.labels, before.labels + 1);
                lemma_declarations_differ(before.labels, before.labels + 2);
                lemma_declarations_differ(before.labels + 1, before.labels + 2);
            }
        }
    }
}

/// The assembly that a parser holds is the output of the run of a fresh
/// generator over the instructions that the parser has read.
pub proof fn lemma_parser_assembly(state: ParserState)
    requires
        state.wf(),
    ensures
        state.assembly() == GenState::fresh().output(state.lines),
    decreases state.lines.len(),
{
    let fresh = GenState::fresh();
    if state.lines.len() == 0 {
        assert(state.records =~= Seq::<Record>::empty());
    } else {
        let n = state.lines.len() - 1;
        let lines = state.lines.drop_last();
        let records = state.records.drop_last();
        assert(lines =~= state.lines.take(n));
        lemma_run_prefix(fresh, state.lines, n);
        lemma_run_grows(fresh, state.lines, 0, n);
        let shorter = ParserState { lines, records, gen: fresh.emit_all(lines)->0, ..state };
        assert forall|i: int| 0 <= i < lines.len() implies (#[trigger] shorter.records[i]).bin
            == fresh.block(lines, i) by {
            assert(lines.take(i) =~= state.lines.take(i));
            assert(shorter.records[i] == state.records[i]);
        }
        lemma_parser_assembly(shorter);
        assert(state.records[n].bin == fresh.block(state.lines, n));
    }
}

/// No label is declared twice in the assembly that a parser holds.
pub proof fn lemma_parser_labels_declared_once(state: ParserState, p: int, q: int)
    requires
        state.wf(),
        0 <= p < q < state.assembly().len(),
        is_declaration(state.assembly()[p]),
    ensures
        state.assembly()[p] != state.assembly()[q],
{
    lemma_parser_assembly(state);
    lemma_labels_declared_once(GenState::fresh(), state.lines, p, q);
}

/// The scratch variable that the stack instruction `token` on the static
/// segment is resolved to when it is emitted in `state`.
pub open spec fn static_name(state: GenState, token: StackToken) -> Seq<char> {
    match token {
        StackToken::Push { index, .. } => state.static_slot(index).1,
        StackToken::Pop { index, .. } => state.take_slot().0.static_slot(index).1,
    }
}

/// The block of a stack instruction on the static segment uses the scratch
/// variable that [`static_name`] gives as the base address, and after it
/// that variable is on record for the index.
pub proof fn lemma_static_block(state: GenState, token: StackToken)
    requires
        state.wf(),
        token.segment() == Segment::Static,
    ensures
        state.emit_stack(token) is Ok,
        state.emit_stack(token)->Ok_0.0.statics.contains_key(token.index()),
        state.emit_stack(token)->Ok_0.0.statics[token.index()] == static_name(state, token),
        state.emit_stack(token)->Ok_0.1 == match token {
            StackToken::Push { segment, index } => push_block(
                segment,
                index,
                static_name(state, token),
            ),
            StackToken::Pop { segment, index } => pop_block(
                segment,
                index,
                static_name(state, token),
                slot_name(state.slots),
            ),
        },
{
    match token {
        StackToken::Push { index, .. } => {
            lemma_static_slot_keeps_wf(state, index);
        },
        StackToken::Pop { index, .. } => {
            lemma_take_slot_keeps_wf(state);
            lemma_static_slot_keeps_wf(state.take_slot().0, index);
        },
    }
}

/// Two stack instructions on the static segment in one run are resolved to
/// the same scratch variable if they name the same index, and to different
/// ones if they name different indexes.
pub proof fn lemma_static_slots_by_index(state: GenState, lines: Seq<Line>, i: int, j: int)
    requires
        state.wf(),
        0 <= i < j < lines.len(),
        lines[i] is Stack,
        lines[j] is Stack,
        lines[i]->Stack_0.segment() == Segment::Static,
        lines[j]->Stack_0.segment() == Segment::Static,
        state.emit_all(lines) is Some,
    ensures
        ({
            let first = static_name(state.emit_all(lines.take(i))->0, lines[i]->Stack_0);
            let second = static_name(state.emit_all(lines.take(j))->0, lines[j]->Stack_0);
            (first == second) <==> (lines[i]->Stack_0.index() == lines[j]->Stack_0.index())
        }),
{
    let s_i = state.emit_all(lines.take(i))->0;
    let after = state.emit_all(lines.take(i + 1))->0;
    let s_j = state.emit_all(lines.take(j))->0;
    let t_i = lines[i]->Stack_0;
    let t_j = lines[j]->Stack_0;
    lemma_run_prefix(state, lines, i);
    lemma_run_grows(state, lines, 0, i);
    lemma_run_grows(state, lines, i + 1, j);
    lemma_static_block(s_i, t_i);
    assert(after == s_i.emit_stack(t_i)->Ok_0.0);
    assert(after.statics.contains_key(t_i.index()));
    assert(s_j.statics.contains_key(t_i.index()));
    assert(s_j.statics[t_i.index()] == static_name(s_i, t_i));
    lemma_static_block(s_j, t_j);
    let end = s_j.emit_stack(t_j)->Ok_0.0;
    lemma_emit_keeps_wf(s_j, lines[j]);
    assert(end.statics.contains_key(t_i.index()));
    assert(end.statics[t_i.index()] == static_name(s_i, t_i));
    assert(end.statics[t_j.index()] == static_name(s_j, t_j));
}

} // verus!
