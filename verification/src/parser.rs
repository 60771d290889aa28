//! The instruction model: segments, the four instruction families, and the
//! reading of one line of source text.

use vstd::prelude::*;
use vstd::string::*;
use crate::codegen::{lines_of, CodeGen, GenState};
use crate::decimal::{decimal, index_of, parse_index, push_decimal};
use crate::error::TranslateError;
use crate::words::{split_words, starts_with, to_chars, tokens, word_is, words_of};

verus! {

/// The eight memory regions that a stack instruction can name.
#[derive(Debug, Clone, Copy, PartialEq, Eq, Structural)]
pub enum Segment {
    Constant,
    Local,
    Argument,
    This,
    That,
    Temp,
    Pointer,
    Static,
}

impl Segment {
    /// The word that names the segment in source text.
    pub open spec fn name(self) -> Seq<char> {
        match self {
            Segment::Constant => "constant"@,
            Segment::Local => "local"@,
            Segment::Argument => "argument"@,
            Segment::This => "this"@,
            Segment::That => "that"@,
            Segment::Temp => "temp"@,
            Segment::Pointer => "pointer"@,
            Segment::Static => "static"@,
        }
    }

    /// The segment that `word` names, if it names one.
    pub open spec fn named(word: Seq<char>) -> Option<Segment> {
        if word == "constant"@ {
            Some(Segment::Constant)
        } else if word == "local"@ {
            Some(Segment::Local)
        } else if word == "argument"@ {
            Some(Segment::Argument)
        } else if word == "this"@ {
            Some(Segment::This)
        } else if word == "that"@ {
            Some(Segment::That)
        } else if word == "temp"@ {
            Some(Segment::Temp)
        } else if word == "pointer"@ {
            Some(Segment::Pointer)
        } else if word == "static"@ {
            Some(Segment::Static)
        } else {
            None
        }
    }

    /// The address that stands for the segment's base in assembly: a symbol
    /// for the four segments reached through a pointer, a number for the two
    /// fixed ones. The constant and the static segment have none.
    pub open spec fn address(self) -> Option<Seq<char>> {
        match self {
            Segment::Local => Some("LCL"@),
            Segment::Argument => Some("ARG"@),
            Segment::This => Some("THIS"@),
            Segment::That => Some("THAT"@),
            Segment::Temp => Some("5"@),
            Segment::Pointer => Some("3"@),
            Segment::Static => None,
            Segment::Constant => None,
        }
    }

    /// Whether the base address is itself the start of the region (temp and
    /// pointer), rather than the place where a pointer to it is kept.
    pub open spec fn is_fixed(self) -> bool {
        self == Segment::Temp || self == Segment::Pointer
    }

    pub(crate) fn of_word(word: &Vec<char>) -> (r: Result<Segment, TranslateError>)
        ensures
            r == match Segment::named(word@) {
                Some(segment) => Ok::<Segment, TranslateError>(segment),
                None => Err(TranslateError::MalformedOperand),
            },
    {
        if word_is(word, "constant") {
            Ok(Segment::Constant)
        } else if word_is(word, "local") {
            Ok(Segment::Local)
        } else if word_is(word, "argument") {
            Ok(Segment::Argument)
        } else if word_is(word, "this") {
            Ok(Segment::This)
        } else if word_is(word, "that") {
            Ok(Segment::That)
        } else if word_is(word, "temp") {
            Ok(Segment::Temp)
        } else if word_is(word, "pointer") {
            Ok(Segment::Pointer)
        } else if word_is(word, "static") {
            Ok(Segment::Static)
        } else {
            Err(TranslateError::MalformedOperand)
        }
    }

    /// Reads a segment from its name. The name is matched as a whole, so
    /// surrounding whitespace is not accepted.
    pub fn new(raw: &str) -> (r: Result<Segment, TranslateError>)
        ensures
            r == match Segment::named(raw@) {
                Some(segment) => Ok::<Segment, TranslateError>(segment),
                None => Err(TranslateError::MalformedOperand),
            },
    {
        let word = to_chars(raw);
        Segment::of_word(&word)
    }

    /// The base address of the segment, for the six segments that have one.
    pub fn to_address<'a>(&self) -> (r: Result<&'a str, TranslateError>)
        ensures
            match self.address() {
                Some(text) => r is Ok && r->Ok_0@ == text,
                None => r == Err::<&'a str, TranslateError>(
                    TranslateError::ContextualAddressMisuse,
                ),
            },
    {
        match self {
            Segment::Local => Ok("LCL"),
            Segment::Argument => Ok("ARG"),
            Segment::This => Ok("THIS"),
            Segment::That => Ok("THAT"),
            Segment::Temp => Ok("5"),
            Segment::Pointer => Ok("3"),
            Segment::Static => Err(TranslateError::ContextualAddressMisuse),
            Segment::Constant => Err(TranslateError::ContextualAddressMisuse),
        }
    }
}

/// Arithmetic on the two topmost stack entries.
#[derive(Debug, Clone, Copy, PartialEq, Eq, Structural)]
pub enum BinaryToken {
    Add,
    Sub,
    And,
    Or,
}

/// Arithmetic on the topmost stack entry.
#[derive(Debug, Clone, Copy, PartialEq, Eq, Structural)]
pub enum UnaryToken {
    Neg,
    Not,
}

/// Comparison of the two topmost stack entries.
#[derive(Debug, Clone, Copy, PartialEq, Eq, Structural)]
pub enum ComparisonToken {
    Equal,
    LessThan,
    GreaterThan,
}

/// A move between the stack and a place in a segment.
#[derive(Debug, Clone, Copy, PartialEq, Eq, Structural)]
pub enum StackToken {
    Push { segment: Segment, index: u16 },
    Pop { segment: Segment, index: u16 },
}

impl StackToken {
    pub open spec fn segment(self) -> Segment {
        match self {
            StackToken::Push { segment, .. } => segment,
            StackToken::Pop { segment, .. } => segment,
        }
    }

    pub open spec fn index(self) -> u16 {
        match self {
            StackToken::Push { index, .. } => index,
            StackToken::Pop { index, .. } => index,
        }
    }

    /// The instruction that the words `w` spell. The segment is read first,
    /// then the index, then the keyword; words after the third are not read.
    pub open spec fn of_words(w: Seq<Seq<char>>) -> Result<StackToken, TranslateError> {
        if w.len() == 0 {
            Err(TranslateError::UnrecognizedOpcode)
        } else if w.len() < 2 || Segment::named(w[1]) is None {
            Err(TranslateError::MalformedOperand)
        } else if w.len() < 3 || index_of(w[2]) is None {
            Err(TranslateError::MalformedOperand)
        } else if w[0] == "push"@ {
            Ok(StackToken::Push { segment: Segment::named(w[1])->0, index: index_of(w[2])->0 })
        } else if w[0] == "pop"@ {
            Ok(StackToken::Pop { segment: Segment::named(w[1])->0, index: index_of(w[2])->0 })
        } else {
            Err(TranslateError::UnrecognizedOpcode)
        }
    }

    /// The instruction that the line `s` holds.
    pub open spec fn parse(s: Seq<char>) -> Result<StackToken, TranslateError> {
        StackToken::of_words(tokens(s))
    }

    /// The instruction written out: keyword, segment name and index, with one
    /// blank between them.
    pub open spec fn text(self) -> Seq<char> {
        let keyword = match self {
            StackToken::Push { .. } => "push"@,
            StackToken::Pop { .. } => "pop"@,
        };
        keyword + seq![' '] + self.segment().name() + seq![' '] + decimal(self.index() as nat)
    }

    pub(crate) fn from_words(words: &Vec<Vec<char>>) -> (r: Result<StackToken, TranslateError>)
        ensures
            r == StackToken::of_words(words_of(words@)),
    {
        if words.len() == 0 {
            return Err(TranslateError::UnrecognizedOpcode);
        }
        if words.len() < 2 {
            return Err(TranslateError::MalformedOperand);
        }
        let segment = match Segment::of_word(&words[1]) {
            Ok(segment) => segment,
            Err(e) => {
                return Err(e);
            },
        };
        if words.len() < 3 {
            return Err(TranslateError::MalformedOperand);
        }
        let index = match parse_index(&words[2]) {
            Some(index) => index,
            None => {
                return Err(TranslateError::MalformedOperand);
            },
        };
        if word_is(&words[0], "push") {
            Ok(StackToken::Push { segment, index })
        } else if word_is(&words[0], "pop") {
            Ok(StackToken::Pop { segment, index })
        } else {
            Err(TranslateError::UnrecognizedOpcode)
        }
    }

    /// Reads a `push` or a `pop` from a line of source text.
    pub fn new(raw: &str) -> (r: Result<StackToken, TranslateError>)
        ensures
            r == StackToken::parse(raw@),
    {
        let words = split_words(raw);
        StackToken::from_words(&words)
    }

    /// Writes the instruction as source text.
    pub fn to_text(&self) -> (out: String)
        ensures
            out@ == self.text(),
    {
        let (keyword, segment, index) = match self {
            StackToken::Push { segment, index } => ("push ", segment, *index),
            StackToken::Pop { segment, index } => ("pop ", segment, *index),
        };
        let name = match segment {
            Segment::Constant => "constant ",
            Segment::Local => "local ",
            Segment::Argument => "argument ",
            Segment::This => "this ",
            Segment::That => "that ",
            Segment::Temp => "temp ",
            Segment::Pointer => "pointer ",
            Segment::Static => "static ",
        };
        let mut out = String::from_str(keyword);
        out.append(name);
        push_decimal(&mut out, index as u64);
        proof {
            lemma_padded_words();
            assert(out@ =~= self.text());
        }
        out
    }
}

/// The keywords and segment names, each followed by one blank.
proof fn lemma_padded_words()
    ensures
        "push "@ == "push"@ + seq![' '],
        "pop "@ == "pop"@ + seq![' '],
        "constant "@ == "constant"@ + seq![' '],
        "local "@ == "local"@ + seq![' '],
        "argument "@ == "argument"@ + seq![' '],
        "this "@ == "this"@ + seq![' '],
        "that "@ == "that"@ + seq![' '],
        "temp "@ == "temp"@ + seq![' '],
        "pointer "@ == "pointer"@ + seq![' '],
        "static "@ == "static"@ + seq![' '],
{
    reveal_strlit("push ");
    reveal_strlit("push");
    reveal_strlit("pop ");
    reveal_strlit("pop");
    reveal_strlit("constant ");
    reveal_strlit("constant");
    reveal_strlit("local ");
    reveal_strlit("local");
    reveal_strlit("argument ");
    reveal_strlit("argument");
    reveal_strlit("this ");
    reveal_strlit("this");
    reveal_strlit("that ");
    reveal_strlit("that");
    reveal_strlit("temp ");
    reveal_strlit("temp");
    reveal_strlit("pointer ");
    reveal_strlit("pointer");
    reveal_strlit("static ");
    reveal_strlit("static");
    assert("push "@ =~= "push"@ + seq![' ']);
    assert("pop "@ =~= "pop"@ + seq![' ']);
    assert("constant "@ =~= "constant"@ + seq![' ']);
    assert("local "@ =~= "local"@ + seq![' ']);
    assert("argument "@ =~= "argument"@ + seq![' ']);
    assert("this "@ =~= "this"@ + seq![' ']);
    assert("that "@ =~= "that"@ + seq![' ']);
    assert("temp "@ =~= "temp"@ + seq![' ']);
    assert("pointer "@ =~= "pointer"@ + seq![' ']);
    assert("static "@ =~= "static"@ + seq![' ']);
}

/// One instruction.
#[derive(Debug, Clone, Copy, PartialEq, Eq, Structural)]
pub enum Line {
    Stack(StackToken),
    Binary(BinaryToken),
    Unary(UnaryToken),
    Comparison(ComparisonToken),
}

impl Line {
    /// The instruction that the line `s` holds.
    pub open spec fn parse(s: Seq<char>) -> Result<Line, TranslateError> {
        Line::of_words(tokens(s))
    }

    /// The instruction that the words `w` spell. The first word decides the
    /// family; the nine keywords without operands stand for one instruction
    /// each, whatever follows them on the line.
    pub open spec fn of_words(w: Seq<Seq<char>>) -> Result<Line, TranslateError> {
        if w.len() == 0 {
            Err(TranslateError::UnrecognizedOpcode)
        } else if w[0] == "push"@ || w[0] == "pop"@ {
            match StackToken::of_words(w) {
                Ok(token) => Ok(Line::Stack(token)),
                Err(e) => Err(e),
            }
        } else if w[0] == "neg"@ {
            Ok(Line::Unary(UnaryToken::Neg))
        } else if w[0] == "not"@ {
            Ok(Line::Unary(UnaryToken::Not))
        } else if w[0] == "add"@ {
            Ok(Line::Binary(BinaryToken::Add))
        } else if w[0] == "sub"@ {
            Ok(Line::Binary(BinaryToken::Sub))
        } else if w[0] == "and"@ {
            Ok(Line::Binary(BinaryToken::And))
        } else if w[0] == "or"@ {
            Ok(Line::Binary(BinaryToken::Or))
        } else if w[0] == "eq"@ {
            Ok(Line::Comparison(ComparisonToken::Equal))
        } else if w[0] == "lt"@ {
            Ok(Line::Comparison(ComparisonToken::LessThan))
        } else if w[0] == "gt"@ {
            Ok(Line::Comparison(ComparisonToken::GreaterThan))
        } else {
            Err(TranslateError::UnrecognizedOpcode)
        }
    }

    /// Reads one instruction from a line of source text.
    pub fn new(raw: &str) -> (r: Result<Line, TranslateError>)
        ensures
            r == Line::parse(raw@),
    {
        let words = split_words(raw);
        Line::from_words(&words)
    }

    pub(crate) fn from_words(words: &Vec<Vec<char>>) -> (r: Result<Line, TranslateError>)
        ensures
            r == Line::of_words(words_of(words@)),
    {
        if words.len() == 0 {
            return Err(TranslateError::UnrecognizedOpcode);
        }
        let head = &words[0];
        if word_is(head, "push") || word_is(head, "pop") {
            match StackToken::from_words(&words) {
                Ok(token) => Ok(Line::Stack(token)),
                Err(e) => Err(e),
            }
        } else if word_is(head, "neg") {
            Ok(Line::Unary(UnaryToken::Neg))
        } else if word_is(head, "not") {
            Ok(Line::Unary(UnaryToken::Not))
        } else if word_is(head, "add") {
            Ok(Line::Binary(BinaryToken::Add))
        } else if word_is(head, "sub") {
            Ok(Line::Binary(BinaryToken::Sub))
        } else if word_is(head, "and") {
            Ok(Line::Binary(BinaryToken::And))
        } else if word_is(head, "or") {
            Ok(Line::Binary(BinaryToken::Or))
        } else if word_is(head, "eq") {
            Ok(Line::Comparison(ComparisonToken::Equal))
        } else if word_is(head, "lt") {
            Ok(Line::Comparison(ComparisonToken::LessThan))
        } else if word_is(head, "gt") {
            Ok(Line::Comparison(ComparisonToken::GreaterThan))
        } else {
            Err(TranslateError::UnrecognizedOpcode)
        }
    }
}

/// The translation of one instruction: the source line as a comment, and the
/// block of assembly that stands for it.
#[derive(Debug)]
pub struct Asm {
    pub src: String,
    pub bin: Vec<String>,
}

/// What an [`Asm`] holds.
pub ghost struct Record {
    pub src: Seq<char>,
    pub bin: Seq<Seq<char>>,
}

impl View for Asm {
    type V = Record;

    open spec fn view(&self) -> Record {
        Record { src: self.src@, bin: lines_of(self.bin@) }
    }
}

/// The records that a vector of translations holds.
pub open spec fn records_of(v: Seq<Asm>) -> Seq<Record> {
    Seq::new(v.len(), |i: int| v[i]@)
}

/// What a [`Parser`] holds.
pub ghost struct ParserState {
    /// The instructions read so far, in the order of the source.
    pub lines: Seq<Line>,
    /// Their translations, in the same order.
    pub records: Seq<Record>,
    /// The state of the code generator.
    pub gen: GenState,
    /// The name of the source.
    pub filename: Seq<char>,
}

impl ParserState {
    /// The state at the start of a run.
    pub open spec fn fresh(filename: Seq<char>) -> ParserState {
        ParserState {
            lines: Seq::empty(),
            records: Seq::empty(),
            gen: GenState::fresh(),
            filename,
        }
    }

    /// The generator's state is the one that a fresh generator reaches through
    /// the instructions read so far, and one translation stands for each
    /// instruction: the block that the generator gave for it at its turn.
    pub open spec fn wf(self) -> bool {
        &&& self.lines.len() == self.records.len()
        &&& self.gen.wf()
        &&& GenState::fresh().emit_all(self.lines) == Some(self.gen)
        &&& forall|i: int|
            0 <= i < self.lines.len() ==> (#[trigger] self.records[i]).bin == GenState::fresh().block(
                self.lines,
                i,
            )
    }

    /// The assembly of the run so far: the blocks of the translations, one
    /// after another.
    pub open spec fn assembly(self) -> Seq<Seq<char>> {
        self.records.fold_left(
            Seq::<Seq<char>>::empty(),
            |text: Seq<Seq<char>>, record: Record| text + record.bin,
        )
    }

    /// Lines that hold no instruction: those that begin with `//`, and those
    /// with no word on them.
    pub open spec fn is_skipped(raw: Seq<char>) -> bool {
        starts_with(raw, "//"@) || tokens(raw).len() == 0
    }

    /// The comment that echoes a source line.
    pub open spec fn comment(raw: Seq<char>) -> Seq<char> {
        "// "@ + raw
    }

    /// The state after the source line `raw`: unchanged by a skipped line,
    /// one instruction and one translation longer otherwise.
    pub open spec fn step(self, raw: Seq<char>) -> Result<ParserState, TranslateError> {
        if ParserState::is_skipped(raw) {
            Ok(self)
        } else {
            match Line::parse(raw) {
                Err(e) => Err(e),
                Ok(line) => match self.gen.emit(line) {
                    Err(e) => Err(e),
                    Ok((gen, block)) => Ok(
                        ParserState {
                            lines: self.lines.push(line),
                            records: self.records.push(
                                Record { src: ParserState::comment(raw), bin: block },
                            ),
                            gen,
                            ..self
                        },
                    ),
                },
            }
        }
    }

    /// The generator's counters still fit in 64 bits after the line `raw`.
    pub open spec fn has_room(self, raw: Seq<char>) -> bool {
        !ParserState::is_skipped(raw) && Line::parse(raw) is Ok ==> self.gen.has_room(
            Line::parse(raw)->Ok_0,
        )
    }
}

/// Whether a line begins with the comment mark `//`.
pub fn is_comment(raw: &str) -> (b: bool)
    ensures
        b == starts_with(raw@, "//"@),
{
    proof {
        reveal_strlit("//");
    }
    let mut seen: usize = 0;
    for c in it: raw.chars()
        invariant
            it.seq() == raw@,
            seen == it.index@,
            seen < 2,
            forall|i: int| 0 <= i < seen ==> raw@[i] == '/',
            "//"@.len() == 2,
            "//"@[0] == '/',
            "//"@[1] == '/',
    {
        if c != '/' {
            assert(!starts_with(raw@, "//"@)) by {
                if starts_with(raw@, "//"@) {
                    assert(raw@.take(2)[seen as int] == "//"@[seen as int]);
                }
            }
            return false;
        }
        seen = seen + 1;
        if seen == 2 {
            assert(raw@.take(2) =~= "//"@);
            return true;
        }
    }
    false
}

/// Reads the lines of one source and keeps their translations.
#[derive(Debug)]
pub struct Parser {
    lines: Vec<Line>,
    records: Vec<Asm>,
    cg: CodeGen,
    filename: String,
}

impl View for Parser {
    type V = ParserState;

    closed spec fn view(&self) -> ParserState {
        ParserState {
            lines: self.lines@,
            records: records_of(self.records@),
            gen: self.cg@,
            filename: self.filename@,
        }
    }
}

impl Parser {
    /// The parser's invariant: that of its state.
    pub open spec fn wf(&self) -> bool {
        self@.wf()
    }

    /// A parser for the source named `filename`, with nothing read yet.
    pub fn new(filename: String) -> (parser: Parser)
        ensures
            parser@ == ParserState::fresh(filename@),
            parser.wf(),
    {
        let parser = Parser {
            lines: Vec::new(),
            records: Vec::new(),
            cg: CodeGen::new(),
            filename,
        };
        assert(parser@.records =~= Seq::<Record>::empty());
        assert(parser@.lines =~= Seq::<Line>::empty());
        parser
    }

    /// Reads one source line: skips it if it holds no instruction, and else
    /// translates the instruction and keeps the result. A line that cannot be
    /// read or translated leaves the parser as it was.
    pub fn process_line(&mut self, raw: &str) -> (r: Result<(), TranslateError>)
        requires
            old(self).wf(),
            old(self)@.has_room(raw@),
        ensures
            final(self).wf(),
            match old(self)@.step(raw@) {
                Ok(next) => r is Ok && final(self)@ == next,
                Err(e) => r == Err::<(), TranslateError>(e) && final(self)@ == old(self)@,
            },
    {
        if is_comment(raw) {
            return Ok(());
        }
        let words = split_words(raw);
        if words.len() == 0 {
            return Ok(());
        }
        let line = match Line::from_words(&words) {
            Ok(line) => line,
            Err(e) => {
                return Err(e);
            },
        };
        let mut src = String::from_str("// ");
        src.append(raw);
        let bin = match self.cg.gen_block(&line) {
            Ok(bin) => bin,
            Err(e) => {
                return Err(e);
            },
        };
        self.lines.push(line);
        self.records.push(Asm { src, bin });
        proof {
            let before = old(self)@;
            let next = before.step(raw@)->Ok_0;
            assert(self@.records =~= next.records);
            assert(next.lines.drop_last() =~= before.lines);
            assert forall|i: int| 0 <= i < next.lines.len() implies (#[trigger] next.records[i]).bin
                == GenState::fresh().block(next.lines, i) by {
                assert(next.lines.take(i) =~= before.lines.take(i));
                if i < before.lines.len() {
                    assert(next.records[i] == before.records[i]);
                } else {
                    assert(before.lines.take(i) =~= before.lines);
                }
            }
        }
        Ok(())
    }

    /// Whether the generator's counters have room for `n` more instructions.
    pub fn has_spare(&self, n: usize) -> (b: bool)
        ensures
            b == self@.gen.spare(n as nat),
    {
        self.cg.has_spare(n)
    }

    /// The instructions read so far.
    pub fn lines(&self) -> (lines: &Vec<Line>)
        ensures
            lines@ == self@.lines,
    {
        &self.lines
    }

    /// The translations made so far.
    pub fn records(&self) -> (records: &Vec<Asm>)
        ensures
            records_of(records@) == self@.records,
    {
        &self.records
    }
}

} // verus!
