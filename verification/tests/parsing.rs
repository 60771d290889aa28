use vm_translator::decimal::{parse_index, push_decimal};
use vm_translator::error::TranslateError;
use vm_translator::parser::{
    is_comment, BinaryToken, ComparisonToken, Line, Segment, StackToken, UnaryToken,
};
use vm_translator::words::{char_is_space, split_words, to_chars, word_is};

fn words(text: &str) -> Vec<String> {
    split_words(text).iter().map(|w| w.iter().collect::<String>()).collect()
}

fn chars(text: &str) -> Vec<char> {
    text.chars().collect()
}

const SEGMENTS: [(&str, Segment); 8] = [
    ("constant", Segment::Constant),
    ("local", Segment::Local),
    ("argument", Segment::Argument),
    ("this", Segment::This),
    ("that", Segment::That),
    ("temp", Segment::Temp),
    ("pointer", Segment::Pointer),
    ("static", Segment::Static),
];

#[test]
fn reads_push_constant() {
    assert_eq!(
        Line::new("push constant 7"),
        Ok(Line::Stack(StackToken::Push { segment: Segment::Constant, index: 7 }))
    );
}

#[test]
fn reads_pop_local() {
    assert_eq!(
        Line::new("pop local 12"),
        Ok(Line::Stack(StackToken::Pop { segment: Segment::Local, index: 12 }))
    );
}

#[test]
fn reads_every_segment_in_both_directions() {
    for (name, segment) in SEGMENTS {
        assert_eq!(
            Line::new(&format!("push {} 3", name)),
            Ok(Line::Stack(StackToken::Push { segment, index: 3 }))
        );
        assert_eq!(
            Line::new(&format!("pop {} 65535", name)),
            Ok(Line::Stack(StackToken::Pop { segment, index: 65535 }))
        );
        assert_eq!(
            StackToken::new(&format!("pop {} 0", name)),
            Ok(StackToken::Pop { segment, index: 0 })
        );
    }
}

#[test]
fn reads_the_keywords_without_operands() {
    assert_eq!(Line::new("add"), Ok(Line::Binary(BinaryToken::Add)));
    assert_eq!(Line::new("sub"), Ok(Line::Binary(BinaryToken::Sub)));
    assert_eq!(Line::new("and"), Ok(Line::Binary(BinaryToken::And)));
    assert_eq!(Line::new("or"), Ok(Line::Binary(BinaryToken::Or)));
    assert_eq!(Line::new("neg"), Ok(Line::Unary(UnaryToken::Neg)));
    assert_eq!(Line::new("not"), Ok(Line::Unary(UnaryToken::Not)));
    assert_eq!(Line::new("eq"), Ok(Line::Comparison(ComparisonToken::Equal)));
    assert_eq!(Line::new("lt"), Ok(Line::Comparison(ComparisonToken::LessThan)));
    assert_eq!(Line::new("gt"), Ok(Line::Comparison(ComparisonToken::GreaterThan)));
}

#[test]
fn reads_the_same_line_twice_alike() {
    assert_eq!(Line::new("pop that 9"), Line::new("pop that 9"));
}

#[test]
fn ignores_space_around_words() {
    assert_eq!(
        Line::new("  \tpush   argument\t 4  "),
        Ok(Line::Stack(StackToken::Push { segment: Segment::Argument, index: 4 }))
    );
    assert_eq!(Line::new("   add   "), Ok(Line::Binary(BinaryToken::Add)));
    assert_eq!(
        Line::new("push\u{3000}this\u{a0}1"),
        Ok(Line::Stack(StackToken::Push { segment: Segment::This, index: 1 }))
    );
}

#[test]
fn ignores_words_after_the_instruction() {
    assert_eq!(Line::new("add // sums"), Ok(Line::Binary(BinaryToken::Add)));
    assert_eq!(
        Line::new("push constant 1 // one"),
        Ok(Line::Stack(StackToken::Push { segment: Segment::Constant, index: 1 }))
    );
}

#[test]
fn rejects_unknown_keyword() {
    assert_eq!(Line::new("mul"), Err(TranslateError::UnrecognizedOpcode));
    assert_eq!(Line::new("pushx constant 1"), Err(TranslateError::UnrecognizedOpcode));
    assert_eq!(Line::new("PUSH constant 1"), Err(TranslateError::UnrecognizedOpcode));
    assert_eq!(Line::new("//"), Err(TranslateError::UnrecognizedOpcode));
}

#[test]
fn rejects_a_line_without_words() {
    assert_eq!(Line::new(""), Err(TranslateError::UnrecognizedOpcode));
    assert_eq!(Line::new("   \t "), Err(TranslateError::UnrecognizedOpcode));
    assert_eq!(StackToken::new(""), Err(TranslateError::UnrecognizedOpcode));
}

#[test]
fn rejects_unknown_segment() {
    assert_eq!(Line::new("push heap 1"), Err(TranslateError::MalformedOperand));
    assert_eq!(Line::new("pop Local 1"), Err(TranslateError::MalformedOperand));
    assert_eq!(Line::new("push 1 local"), Err(TranslateError::MalformedOperand));
}

#[test]
fn rejects_missing_operands() {
    assert_eq!(Line::new("push"), Err(TranslateError::MalformedOperand));
    assert_eq!(Line::new("pop"), Err(TranslateError::MalformedOperand));
    assert_eq!(Line::new("push local"), Err(TranslateError::MalformedOperand));
    assert_eq!(Line::new("pop static "), Err(TranslateError::MalformedOperand));
}

#[test]
fn rejects_bad_index() {
    assert_eq!(Line::new("push constant -17"), Err(TranslateError::MalformedOperand));
    assert_eq!(Line::new("push constant x"), Err(TranslateError::MalformedOperand));
    assert_eq!(Line::new("push constant 1.5"), Err(TranslateError::MalformedOperand));
    assert_eq!(Line::new("push constant 65536"), Err(TranslateError::MalformedOperand));
    assert_eq!(Line::new("push constant 0x10"), Err(TranslateError::MalformedOperand));
    assert_eq!(Line::new("push constant +"), Err(TranslateError::MalformedOperand));
    assert_eq!(Line::new("push constant 99999999999999999999"), Err(TranslateError::MalformedOperand));
}

#[test]
fn stack_token_reads_operands_before_keyword() {
    assert_eq!(StackToken::new("move local 1"), Err(TranslateError::UnrecognizedOpcode));
    assert_eq!(StackToken::new("move nowhere 1"), Err(TranslateError::MalformedOperand));
    assert_eq!(StackToken::new("move local x"), Err(TranslateError::MalformedOperand));
    assert_eq!(StackToken::new("move"), Err(TranslateError::MalformedOperand));
}

#[test]
fn segment_names() {
    for (name, segment) in SEGMENTS {
        assert_eq!(Segment::new(name), Ok(segment));
    }
    assert_eq!(Segment::new(""), Err(TranslateError::MalformedOperand));
    assert_eq!(Segment::new("locals"), Err(TranslateError::MalformedOperand));
    assert_eq!(Segment::new(" local"), Err(TranslateError::MalformedOperand));
    assert_eq!(Segment::new("stat"), Err(TranslateError::MalformedOperand));
}

#[test]
fn segment_addresses() {
    assert_eq!(Segment::Local.to_address(), Ok("LCL"));
    assert_eq!(Segment::Argument.to_address(), Ok("ARG"));
    assert_eq!(Segment::This.to_address(), Ok("THIS"));
    assert_eq!(Segment::That.to_address(), Ok("THAT"));
    assert_eq!(Segment::Temp.to_address(), Ok("5"));
    assert_eq!(Segment::Pointer.to_address(), Ok("3"));
    assert_eq!(Segment::Static.to_address(), Err(TranslateError::ContextualAddressMisuse));
    assert_eq!(Segment::Constant.to_address(), Err(TranslateError::ContextualAddressMisuse));
}

#[test]
fn index_is_read_as_the_standard_library_reads_it() {
    let samples = [
        "0", "7", "007", "+5", "+0", "65535", "65536", "065535", "0000000000000000000065535",
        "655350", "70000", "-1", "-0", "+", "", "++1", "+-1", "1+", "12a", "a12", " 1", "1 ",
        "١٢", "１２", "4294967296", "18446744073709551616", "99999", "100000", "42949672960007",
    ];
    for text in samples {
        assert_eq!(parse_index(&chars(text)), text.parse::<u16>().ok(), "{:?}", text);
    }
    for n in [0u32, 1, 9, 10, 99, 100, 255, 256, 6553, 6554, 65534, 65535, 65536, 65537, 70000] {
        let text = n.to_string();
        assert_eq!(parse_index(&chars(&text)), text.parse::<u16>().ok());
    }
}

#[test]
fn index_values() {
    assert_eq!(parse_index(&chars("17")), Some(17));
    assert_eq!(parse_index(&chars("+17")), Some(17));
    assert_eq!(parse_index(&chars("00017")), Some(17));
    assert_eq!(parse_index(&chars("65535")), Some(65535));
    assert_eq!(parse_index(&chars("65536")), None);
}

#[test]
fn numbers_are_written_in_decimal() {
    for n in [0u64, 1, 9, 10, 11, 99, 100, 255, 256, 1000, 65535, 65536, u64::MAX - 1, u64::MAX] {
        let mut out = String::from("x");
        push_decimal(&mut out, n);
        assert_eq!(out, format!("x{}", n));
    }
    let mut out = String::new();
    push_decimal(&mut out, 1203);
    assert_eq!(out, "1203");
}

#[test]
fn every_index_is_read_back_from_its_numeral() {
    for n in 0..=u16::MAX {
        let mut out = String::new();
        push_decimal(&mut out, n as u64);
        assert_eq!(parse_index(&chars(&out)), Some(n));
    }
}

#[test]
fn spaces_are_the_white_space_characters() {
    for code in 0u32..=0x10FFFF {
        if let Some(c) = char::from_u32(code) {
            assert_eq!(char_is_space(c), c.is_whitespace(), "U+{:04X}", code);
        }
    }
}

#[test]
fn words_are_split_as_the_standard_library_splits_them() {
    let samples = [
        "",
        " ",
        "a",
        " a",
        "a ",
        "push constant 7",
        "  push\tconstant \u{a0} 7\r\n",
        "a\u{2003}b\u{2028}c\u{85}d\u{1680}e",
        "\u{200b}zero-width is no space\u{feff}",
        "x  y   z",
        "//comment",
        "// comment with words",
        "\t\t",
        "é ü\u{3000}漢字 x",
    ];
    for text in samples {
        let expected: Vec<String> = text.split_whitespace().map(|w| w.to_string()).collect();
        assert_eq!(words(text), expected, "{:?}", text);
    }
}

#[test]
fn words_of_a_line() {
    assert_eq!(words("push  local 2"), vec!["push", "local", "2"]);
    assert_eq!(words("   "), Vec::<String>::new());
    assert_eq!(words("add"), vec!["add"]);
}

#[test]
fn word_comparison() {
    assert!(word_is(&chars("push"), "push"));
    assert!(!word_is(&chars("push"), "pus"));
    assert!(!word_is(&chars("pus"), "push"));
    assert!(!word_is(&chars("posh"), "push"));
    assert!(word_is(&chars(""), ""));
    assert!(!word_is(&chars(""), "a"));
    assert!(!word_is(&chars("a"), ""));
}

#[test]
fn characters_of_a_text() {
    assert_eq!(to_chars("a é漢"), vec!['a', ' ', 'é', '漢']);
    assert_eq!(to_chars(""), Vec::<char>::new());
}

#[test]
fn comment_lines() {
    assert!(is_comment("//"));
    assert!(is_comment("// a comment"));
    assert!(is_comment("//push constant 1"));
    assert!(is_comment("///"));
    assert!(!is_comment(""));
    assert!(!is_comment("/"));
    assert!(!is_comment("/ /"));
    assert!(!is_comment(" // indented"));
    assert!(!is_comment("add // sums"));
}

#[test]
fn stack_instructions_are_written_out() {
    assert_eq!(
        StackToken::Push { segment: Segment::Constant, index: 17 }.to_text(),
        "push constant 17"
    );
    assert_eq!(StackToken::Pop { segment: Segment::That, index: 0 }.to_text(), "pop that 0");
    assert_eq!(
        StackToken::Pop { segment: Segment::Static, index: 65535 }.to_text(),
        "pop static 65535"
    );
}

#[test]
fn written_stack_instructions_are_read_back() {
    for (_, segment) in SEGMENTS {
        for index in (0..=u16::MAX).step_by(97).chain([9, 10, 99, 100, 65535]) {
            let push = StackToken::Push { segment, index };
            let pop = StackToken::Pop { segment, index };
            assert_eq!(StackToken::new(&push.to_text()), Ok(push));
            assert_eq!(Line::new(&pop.to_text()), Ok(Line::Stack(pop)));
        }
    }
}

#[test]
fn read_stack_instructions_keep_segment_and_index() {
    for (name, segment) in SEGMENTS {
        for text in ["0", "5", "005", "+12", "65535"] {
            let line = format!(" pop\t{}  {} ", name, text);
            let token = StackToken::new(&line).unwrap();
            assert_eq!(token, StackToken::Pop { segment, index: text.parse().unwrap() });
            let again = StackToken::new(&token.to_text()).unwrap();
            assert_eq!(again, token);
        }
    }
}

#[test]
fn error_messages() {
    assert_eq!(TranslateError::UnrecognizedOpcode.message(), "unexpected token");
    assert_eq!(TranslateError::MalformedOperand.message(), "malformed operand");
    assert_eq!(TranslateError::InvalidPop.message(), "cannot pop constant");
    assert_eq!(
        TranslateError::ContextualAddressMisuse.message(),
        "segment has no fixed address"
    );
}
