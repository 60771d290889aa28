use vm_translator::config::{Config, ConfigError};
use vm_translator::error::TranslateError;
use vm_translator::parser::{BinaryToken, Line, Parser, Segment, StackToken};
use vm_translator::translator::Translator;

const HEADER: &str = "// Hack ASM (for nand2tetris book) generated from VM code\n// by Brent Hamilton <github.com/distrill/n2t-vm-translator>\n";

fn lines(source: &[&str]) -> Vec<String> {
    source.iter().map(|l| l.to_string()).collect()
}

fn args(list: &[&str]) -> Vec<String> {
    list.iter().map(|l| l.to_string()).collect()
}

#[test]
fn new_parser_is_empty() {
    let parser = Parser::new("Main".to_string());
    assert!(parser.lines().is_empty());
    assert!(parser.records().is_empty());
    assert!(parser.has_spare(1000));
}

#[test]
fn parser_keeps_instruction_and_translation() {
    let mut parser = Parser::new("Main".to_string());
    assert_eq!(parser.process_line("push constant 7"), Ok(()));
    assert_eq!(parser.process_line("add"), Ok(()));
    assert_eq!(
        parser.lines(),
        &vec![
            Line::Stack(StackToken::Push { segment: Segment::Constant, index: 7 }),
            Line::Binary(BinaryToken::Add),
        ]
    );
    let records = parser.records();
    assert_eq!(records.len(), 2);
    assert_eq!(records[0].src, "// push constant 7");
    assert_eq!(records[0].bin, vec!["@7", "D=A", "@SP", "A=M", "M=D", "@SP", "M=M+1"]);
    assert_eq!(records[1].src, "// add");
    assert_eq!(records[1].bin, vec!["@SP", "M=M-1", "A=M", "D=M", "A=A-1", "M=D+M"]);
}

#[test]
fn parser_echoes_the_line_as_it_was() {
    let mut parser = Parser::new("Main".to_string());
    parser.process_line("  push   local 1  // first").unwrap();
    assert_eq!(parser.records()[0].src, "//   push   local 1  // first");
}

#[test]
fn parser_skips_comments_and_blank_lines() {
    let mut parser = Parser::new("Main".to_string());
    for raw in ["", "// a comment", "//", "   ", "\t", "//push constant 1", " \u{a0} "] {
        assert_eq!(parser.process_line(raw), Ok(()), "{:?}", raw);
    }
    assert!(parser.lines().is_empty());
    assert!(parser.records().is_empty());
}

#[test]
fn parser_does_not_skip_an_indented_comment() {
    let mut parser = Parser::new("Main".to_string());
    assert_eq!(parser.process_line("  // indented"), Err(TranslateError::UnrecognizedOpcode));
    assert!(parser.records().is_empty());
}

#[test]
fn pop_constant_fails_with_no_output() {
    let mut parser = Parser::new("Main".to_string());
    assert_eq!(parser.process_line("pop constant 0"), Err(TranslateError::InvalidPop));
    assert!(parser.lines().is_empty());
    assert!(parser.records().is_empty());
    parser.process_line("pop local 0").unwrap();
    assert_eq!(parser.records()[0].bin[5], "@V_0");
}

#[test]
fn failed_line_leaves_the_parser_as_it_was() {
    let mut parser = Parser::new("Main".to_string());
    parser.process_line("push static 1").unwrap();
    assert_eq!(parser.process_line("jump"), Err(TranslateError::UnrecognizedOpcode));
    assert_eq!(parser.process_line("push nowhere 1"), Err(TranslateError::MalformedOperand));
    assert_eq!(parser.process_line("push local"), Err(TranslateError::MalformedOperand));
    assert_eq!(parser.process_line("pop local -1"), Err(TranslateError::MalformedOperand));
    assert_eq!(parser.process_line("pop constant 1"), Err(TranslateError::InvalidPop));
    assert_eq!(parser.lines().len(), 1);
    assert_eq!(parser.records().len(), 1);
    parser.process_line("push static 2").unwrap();
    assert_eq!(parser.records()[1].bin[2], "@V_1");
}

#[test]
fn run_writes_header_and_blocks() {
    let mut translator = Translator::new(
        "Add".to_string(),
        lines(&["// adds two numbers", "", "push constant 7", "push constant 8", "add"]),
    );
    assert!(translator.can_process());
    assert_eq!(translator.process(), Ok(()));
    let mut out = String::new();
    translator.write_bin(&mut out);
    let expected = format!(
        "{}{}{}{}",
        HEADER,
        "\n\n// push constant 7\n@7\nD=A\n@SP\nA=M\nM=D\n@SP\nM=M+1\n",
        "\n\n// push constant 8\n@8\nD=A\n@SP\nA=M\nM=D\n@SP\nM=M+1\n",
        "\n\n// add\n@SP\nM=M-1\nA=M\nD=M\nA=A-1\nM=D+M\n",
    );
    assert_eq!(out, expected);
}

#[test]
fn run_appends_to_what_is_there() {
    let translator = Translator::new("Empty".to_string(), Vec::new());
    let mut out = String::from("before\n");
    translator.write_bin(&mut out);
    assert_eq!(out, format!("before\n{}", HEADER));
}

#[test]
fn run_without_instructions_writes_the_header_alone() {
    let mut translator = Translator::new("Empty".to_string(), lines(&["", "// nothing", "  "]));
    assert_eq!(translator.process(), Ok(()));
    let mut out = String::new();
    translator.write_bin(&mut out);
    assert_eq!(out, HEADER);
    assert_eq!(out.lines().count(), 2);
}

#[test]
fn run_stops_at_the_first_failure() {
    let mut translator = Translator::new(
        "Bad".to_string(),
        lines(&["push constant 1", "pop constant 0", "frobnicate", "push constant 2"]),
    );
    assert_eq!(translator.process(), Err(TranslateError::InvalidPop));
    assert_eq!(translator.parser().lines().len(), 1);
    assert_eq!(translator.parser().records().len(), 1);
}

#[test]
fn run_reports_the_kind_of_failure() {
    for (source, error) in [
        ("frobnicate", TranslateError::UnrecognizedOpcode),
        ("push local", TranslateError::MalformedOperand),
        ("pop elsewhere 3", TranslateError::MalformedOperand),
        ("pop constant 3", TranslateError::InvalidPop),
    ] {
        let mut translator = Translator::new("Bad".to_string(), lines(&["add", source]));
        assert_eq!(translator.process(), Err(error));
    }
}

#[test]
fn runs_do_not_share_counters() {
    let source = lines(&["pop local 0", "eq", "push static 1"]);
    let mut first = Translator::new("One".to_string(), source.clone());
    let mut second = Translator::new("Two".to_string(), source);
    first.process().unwrap();
    second.process().unwrap();
    let mut a = String::new();
    let mut b = String::new();
    first.write_bin(&mut a);
    second.write_bin(&mut b);
    assert_eq!(a, b);
    assert!(a.contains("(JMP_0)"));
    assert!(a.contains("@V_1"));
    assert!(!a.contains("JMP_3"));
}

#[test]
fn no_label_is_declared_twice_in_an_output() {
    let mut source = Vec::new();
    for n in 0..50 {
        source.push(format!("push constant {}", n));
        source.push("push constant 25".to_string());
        source.push(["eq", "lt", "gt"][n % 3].to_string());
    }
    let mut translator = Translator::new("Many".to_string(), source);
    translator.process().unwrap();
    let mut out = String::new();
    translator.write_bin(&mut out);
    let declared: Vec<&str> = out.lines().filter(|l| l.starts_with('(')).collect();
    assert_eq!(declared.len(), 150);
    for (i, label) in declared.iter().enumerate() {
        assert!(!declared[..i].contains(label));
    }
}

#[test]
fn config_names_source_and_output() {
    let config = Config::parse(args(&["translator", "Prog.vm"])).unwrap();
    assert_eq!(config.srcname, "Prog.vm");
    assert_eq!(config.binname, "Prog.asm");
    let config = Config::parse(args(&["translator", "dir/Prog.vm", "more"])).unwrap();
    assert_eq!(config.srcname, "dir/Prog.vm");
    assert_eq!(config.binname, "dir/Prog.asm");
}

#[test]
fn config_replaces_every_occurrence() {
    for name in ["a.vm.vm", "x.vmware/.vm", ".vm", "..vm", ".v.vm", ".vmvm.vm", "é.vm/漢.vm"] {
        let config = Config::parse(args(&["translator", name])).unwrap();
        assert_eq!(config.srcname, name);
        assert_eq!(config.binname, name.replace(".vm", ".asm"));
    }
    let config = Config::parse(args(&["translator", "a.vm.vm"])).unwrap();
    assert_eq!(config.binname, "a.asm.asm");
}

#[test]
fn config_rejects_missing_argument() {
    assert_eq!(Config::parse(Vec::new()).err(), Some(ConfigError::NotEnoughArguments));
    assert_eq!(Config::parse(args(&["translator"])).err(), Some(ConfigError::NotEnoughArguments));
}

#[test]
fn config_rejects_other_files() {
    for name in ["Prog.asm", "Prog", "", "vm", ".v", "Prog.vm ", "Prog.VM", "Prog.vmx"] {
        assert_eq!(
            Config::parse(args(&["translator", name])).err(),
            Some(ConfigError::NotVmFile),
            "{:?}",
            name
        );
    }
}
