//! A translation run: the lines of one source, fed to a parser in order, and
//! the text of the assembly that comes out.

use vstd::prelude::*;
use vstd::string::*;
use crate::codegen::{lemma_emit_keeps_wf, lemma_emit_takes_little};
use crate::error::TranslateError;
use crate::parser::{records_of, Line, Parser, ParserState, Record};

verus! {

/// The texts that a vector of source lines holds.
pub open spec fn sources_of(v: Seq<String>) -> Seq<Seq<char>> {
    Seq::new(v.len(), |i: int| v[i]@)
}

/// The two comment lines that open every output.
pub open spec fn header() -> Seq<char> {
    "// Hack ASM (for nand2tetris book) generated from VM code\n"@
        + "// by Brent Hamilton <github.com/distrill/n2t-vm-translator>\n"@
}

/// The lines of a block, each ended by a line feed.
pub open spec fn block_text(bin: Seq<Seq<char>>) -> Seq<char>
    decreases bin.len(),
{
    if bin.len() == 0 {
        Seq::empty()
    } else {
        block_text(bin.drop_last()) + bin.last() + seq!['\n']
    }
}

/// One translation in the output: two line feeds, the echoed source line,
/// then the block.
pub open spec fn record_text(record: Record) -> Seq<char> {
    seq!['\n', '\n'] + record.src + seq!['\n'] + block_text(record.bin)
}

/// The translations in the output, in order.
pub open spec fn records_text(records: Seq<Record>) -> Seq<char>
    decreases records.len(),
{
    if records.len() == 0 {
        Seq::empty()
    } else {
        records_text(records.drop_last()) + record_text(records.last())
    }
}

/// The whole output: the header, then the translations.
pub open spec fn output_text(records: Seq<Record>) -> Seq<char> {
    header() + records_text(records)
}

impl ParserState {
    /// The state after the source lines `src`, read in order up to the first
    /// that fails, and that failure if there is one.
    pub open spec fn run(self, src: Seq<Seq<char>>) -> (ParserState, Option<TranslateError>)
        decreases src.len(),
    {
        if src.len() == 0 {
            (self, None)
        } else {
            match self.step(src[0]) {
                Ok(next) => next.run(src.drop_first()),
                Err(e) => (self, Some(e)),
            }
        }
    }

    /// The generator's counters fit in 64 bits all through the run over `src`.
    pub open spec fn fits(self, src: Seq<Seq<char>>) -> bool
        decreases src.len(),
    {
        src.len() == 0 || (self.has_room(src[0]) && (self.step(src[0]) is Ok ==> self.step(
            src[0],
        )->Ok_0.fits(src.drop_first())))
    }
}

/// A state whose generator is consistent and has room for as many
/// instructions as `src` has lines has room for the run over `src`.
pub proof fn lemma_spare_fits(state: ParserState, src: Seq<Seq<char>>)
    requires
        state.gen.wf(),
        state.gen.spare(src.len()),
    ensures
        state.fits(src),
    decreases src.len(),
{
    if src.len() > 0 {
        let raw = src[0];
        if !ParserState::is_skipped(raw) && Line::parse(raw) is Ok {
            let line = Line::parse(raw)->Ok_0;
            lemma_emit_takes_little(state.gen, line);
            if state.gen.emit(line) is Ok {
                lemma_emit_keeps_wf(state.gen, line);
            }
        }
        if state.step(raw) is Ok {
            lemma_spare_fits(state.step(raw)->Ok_0, src.drop_first());
        }
    }
}

/// What a [`Translator`] holds.
pub ghost struct TranslatorState {
    /// The lines of the source.
    pub src: Seq<Seq<char>>,
    /// The state of the parser.
    pub parser: ParserState,
}

/// One translation run.
#[derive(Debug)]
pub struct Translator {
    src: Vec<String>,
    parser: Parser,
}

impl View for Translator {
    type V = TranslatorState;

    closed spec fn view(&self) -> TranslatorState {
        TranslatorState { src: sources_of(self.src@), parser: self.parser@ }
    }
}

impl Translator {
    /// The translator's invariant: that of its parser.
    pub open spec fn wf(&self) -> bool {
        self@.parser.wf()
    }

    /// A run over the lines `src` of the source named `filename`, with
    /// nothing read yet.
    pub fn new(filename: String, src: Vec<String>) -> (translator: Translator)
        ensures
            translator@ == (TranslatorState {
                src: sources_of(src@),
                parser: ParserState::fresh(filename@),
            }),
            translator.wf(),
    {
        Translator { src, parser: Parser::new(filename) }
    }

    /// Whether the generator's counters have room for the whole run, with
    /// every line counted as an instruction that takes the most.
    pub fn can_process(&self) -> (b: bool)
        ensures
            b == self@.parser.gen.spare(self@.src.len()),
            b && self.wf() ==> self@.parser.fits(self@.src),
    {
        let b = self.parser.has_spare(self.src.len());
        proof {
            if b && self.wf() {
                lemma_spare_fits(self@.parser, self@.src);
            }
        }
        b
    }

    /// Feeds the source lines to the parser, in order, and stops at the first
    /// that fails.
    pub fn process(&mut self) -> (r: Result<(), TranslateError>)
        requires
            old(self).wf(),
            old(self)@.parser.fits(old(self)@.src),
        ensures
            final(self).wf(),
            final(self)@.src == old(self)@.src,
            old(self)@.parser.run(old(self)@.src) == (
                final(self)@.parser,
                match r {
                    Ok(_) => None::<TranslateError>,
                    Err(e) => Some(e),
                },
            ),
    {
        let n = self.src.len();
        let ghost all = self@.src;
        let ghost start = self@.parser;
        let mut i: usize = 0;
        assert(all.skip(0) =~= all);
        while i < n
            invariant
                i <= n,
                n == self.src@.len(),
                self.wf(),
                self@.src == all,
                all.len() == n,
                all == old(self)@.src,
                start == old(self)@.parser,
                self@.parser.fits(all.skip(i as int)),
                self@.parser.run(all.skip(i as int)) == start.run(all),
            decreases n - i,
        {
            let ghost rest = all.skip(i as int);
            assert(rest[0] == self.src@[i as int]@);
            assert(rest.drop_first() =~= all.skip(i + 1));
            match self.parser.process_line(self.src[i].as_str()) {
                Ok(()) => {},
                Err(e) => {
                    return Err(e);
                },
            }
            i = i + 1;
        }
        Ok(())
    }

    /// Appends the output of the run to `out`: the header, then for each
    /// instruction the echoed source line and its block.
    pub fn write_bin(&self, out: &mut String)
        ensures
            final(out)@ == old(out)@ + output_text(self@.parser.records),
    {
        out.append("// Hack ASM (for nand2tetris book) generated from VM code\n");
        out.append("// by Brent Hamilton <github.com/distrill/n2t-vm-translator>\n");
        let records = self.parser.records();
        let ghost all = self@.parser.records;
        let ghost base = old(out)@ + header();
        assert(out@ =~= base);
        let mut i: usize = 0;
        while i < records.len()
            invariant
                i <= records@.len(),
                records_of(records@) == all,
                out@ == base + records_text(all.take(i as int)),
            decreases records@.len() - i,
        {
            let record = &records[i];
            let ghost before = out@;
            out.append("\n\n");
            out.append(record.src.as_str());
            out.append("\n");
            let ghost head = out@;
            let mut j: usize = 0;
            while j < record.bin.len()
                invariant
                    j <= record.bin@.len(),
                    out@ == head + block_text(record@.bin.take(j as int)),
                decreases record.bin@.len() - j,
            {
                out.append(record.bin[j].as_str());
                out.append("\n");
                proof {
                    reveal_strlit("\n");
                    let bin = record@.bin;
                    assert(bin.take(j + 1).drop_last() =~= bin.take(j as int));
                    assert(bin.take(j + 1).last() == record.bin@[j as int]@);
                    assert("\n"@ =~= seq!['\n']);
                    assert(out@ =~= head + block_text(bin.take(j + 1)));
                }
                j = j + 1;
            }
            proof {
                reveal_strlit("\n");
                reveal_strlit("\n\n");
                assert("\n"@ =~= seq!['\n']);
                assert("\n\n"@ =~= seq!['\n', '\n']);
                assert(record@.bin.take(record.bin@.len() as int) =~= record@.bin);
                assert(all.take(i + 1).drop_last() =~= all.take(i as int));
                assert(all.take(i + 1).last() == record@);
                assert(out@ =~= before + record_text(record@));
                assert(out@ =~= base + records_text(all.take(i + 1)));
            }
            i = i + 1;
        }
        assert(all.take(records@.len() as int) =~= all);
        assert(out@ =~= old(out)@ + output_text(all));
    }

    /// The parser of the run.
    pub fn parser(&self) -> (parser: &Parser)
        ensures
            parser@ == self@.parser,
    {
        &self.parser
    }
}

} // verus!
