use vm_translator::codegen::CodeGen;
use vm_translator::error::TranslateError;
use vm_translator::parser::{
    BinaryToken, ComparisonToken, Line, Segment, StackToken, UnaryToken,
};

fn push(segment: Segment, index: u16) -> Line {
    Line::Stack(StackToken::Push { segment, index })
}

fn pop(segment: Segment, index: u16) -> Line {
    Line::Stack(StackToken::Pop { segment, index })
}

#[test]
fn fresh_generator_has_handed_out_nothing() {
    let cg = CodeGen::new();
    assert_eq!(cg.label_count(), 0);
    assert_eq!(cg.slot_count(), 0);
}

#[test]
fn labels_are_numbered_from_zero() {
    let mut cg = CodeGen::new();
    assert_eq!(cg.get_jmp_token(), "JMP_0");
    assert_eq!(cg.get_jmp_token(), "JMP_1");
    assert_eq!(cg.get_jmp_token(), "JMP_2");
    assert_eq!(cg.label_count(), 3);
    assert_eq!(cg.slot_count(), 0);
}

#[test]
fn variables_are_numbered_from_zero() {
    let mut cg = CodeGen::new();
    assert_eq!(cg.get_variable(), "V_0");
    assert_eq!(cg.get_variable(), "V_1");
    assert_eq!(cg.slot_count(), 2);
    assert_eq!(cg.label_count(), 0);
}

#[test]
fn counters_go_past_one_byte() {
    let mut cg = CodeGen::new();
    for n in 0..300 {
        assert_eq!(cg.get_variable(), format!("V_{}", n));
        assert_eq!(cg.get_jmp_token(), format!("JMP_{}", n));
    }
    assert_eq!(cg.slot_count(), 300);
    assert_eq!(cg.label_count(), 300);
}

#[test]
fn static_variable_is_kept_per_index() {
    let mut cg = CodeGen::new();
    assert_eq!(cg.get_static_variable(&3), "V_0");
    assert_eq!(cg.get_static_variable(&4), "V_1");
    assert_eq!(cg.get_static_variable(&3), "V_0");
    assert_eq!(cg.get_static_variable(&4), "V_1");
    assert_eq!(cg.slot_count(), 2);
    assert_eq!(cg.get_variable(), "V_2");
    assert_eq!(cg.get_static_variable(&0), "V_3");
    assert_eq!(cg.get_static_variable(&3), "V_0");
}

#[test]
fn addresses_of_segments() {
    let mut cg = CodeGen::new();
    assert_eq!(cg.get_address(&Segment::Local, &1), Ok("LCL".to_string()));
    assert_eq!(cg.get_address(&Segment::Argument, &1), Ok("ARG".to_string()));
    assert_eq!(cg.get_address(&Segment::This, &1), Ok("THIS".to_string()));
    assert_eq!(cg.get_address(&Segment::That, &1), Ok("THAT".to_string()));
    assert_eq!(cg.get_address(&Segment::Temp, &1), Ok("5".to_string()));
    assert_eq!(cg.get_address(&Segment::Pointer, &1), Ok("3".to_string()));
    assert_eq!(cg.slot_count(), 0);
    assert_eq!(cg.get_address(&Segment::Static, &1), Ok("V_0".to_string()));
    assert_eq!(cg.get_address(&Segment::Static, &1), Ok("V_0".to_string()));
    assert_eq!(cg.slot_count(), 1);
    assert_eq!(
        cg.get_address(&Segment::Constant, &1),
        Err(TranslateError::ContextualAddressMisuse)
    );
    assert_eq!(cg.slot_count(), 1);
}

#[test]
fn push_constant_block() {
    let mut cg = CodeGen::new();
    assert_eq!(
        cg.gen_block(&push(Segment::Constant, 17)).unwrap(),
        vec!["@17", "D=A", "@SP", "A=M", "M=D", "@SP", "M=M+1"]
    );
    assert_eq!(
        cg.gen_block(&push(Segment::Constant, 65535)).unwrap()[0],
        "@65535"
    );
    assert_eq!(cg.slot_count(), 0);
    assert_eq!(cg.label_count(), 0);
}

#[test]
fn push_from_pointer_segments() {
    let mut cg = CodeGen::new();
    for (segment, base) in [
        (Segment::Local, "@LCL"),
        (Segment::Argument, "@ARG"),
        (Segment::This, "@THIS"),
        (Segment::That, "@THAT"),
    ] {
        assert_eq!(
            cg.gen_block(&push(segment, 2)).unwrap(),
            vec!["@2", "D=A", base, "A=D+M", "D=M", "@SP", "A=M", "M=D", "@SP", "M=M+1"]
        );
    }
    assert_eq!(cg.slot_count(), 0);
}

#[test]
fn push_from_fixed_segments() {
    let mut cg = CodeGen::new();
    assert_eq!(
        cg.gen_block(&push(Segment::Temp, 6)).unwrap(),
        vec!["@6", "D=A", "@5", "A=D+A", "D=M", "@SP", "A=M", "M=D", "@SP", "M=M+1"]
    );
    assert_eq!(
        cg.gen_block(&push(Segment::Pointer, 1)).unwrap(),
        vec!["@1", "D=A", "@3", "A=D+A", "D=M", "@SP", "A=M", "M=D", "@SP", "M=M+1"]
    );
}

#[test]
fn push_static_block() {
    let mut cg = CodeGen::new();
    assert_eq!(
        cg.gen_stack_block(&StackToken::Push { segment: Segment::Static, index: 3 }).unwrap(),
        vec!["@3", "D=A", "@V_0", "A=D+M", "D=M", "@SP", "A=M", "M=D", "@SP", "M=M+1"]
    );
    assert_eq!(cg.slot_count(), 1);
}

#[test]
fn pop_into_pointer_segment() {
    let mut cg = CodeGen::new();
    assert_eq!(
        cg.gen_block(&pop(Segment::Local, 2)).unwrap(),
        vec![
            "@2", "D=A", "@LCL", "A=M", "D=D+A", "@V_0", "M=D", "@SP", "M=M-1", "A=M", "D=M",
            "@V_0", "A=M", "M=D"
        ]
    );
    assert_eq!(
        cg.gen_block(&pop(Segment::That, 0)).unwrap(),
        vec![
            "@0", "D=A", "@THAT", "A=M", "D=D+A", "@V_1", "M=D", "@SP", "M=M-1", "A=M", "D=M",
            "@V_1", "A=M", "M=D"
        ]
    );
}

#[test]
fn pop_into_fixed_segment() {
    let mut cg = CodeGen::new();
    assert_eq!(
        cg.gen_block(&pop(Segment::Temp, 1)).unwrap(),
        vec![
            "@1", "D=A", "@5", "D=D+A", "@V_0", "M=D", "@SP", "M=M-1", "A=M", "D=M", "@V_0",
            "A=M", "M=D"
        ]
    );
    assert_eq!(
        cg.gen_block(&pop(Segment::Pointer, 0)).unwrap(),
        vec![
            "@0", "D=A", "@3", "D=D+A", "@V_1", "M=D", "@SP", "M=M-1", "A=M", "D=M", "@V_1",
            "A=M", "M=D"
        ]
    );
}

#[test]
fn pop_into_new_static_takes_two_variables() {
    let mut cg = CodeGen::new();
    assert_eq!(
        cg.gen_block(&pop(Segment::Static, 8)).unwrap(),
        vec![
            "@8", "D=A", "@V_1", "A=M", "D=D+A", "@V_0", "M=D", "@SP", "M=M-1", "A=M", "D=M",
            "@V_0", "A=M", "M=D"
        ]
    );
    assert_eq!(cg.slot_count(), 2);
    assert_eq!(
        cg.gen_block(&pop(Segment::Static, 8)).unwrap(),
        vec![
            "@8", "D=A", "@V_1", "A=M", "D=D+A", "@V_2", "M=D", "@SP", "M=M-1", "A=M", "D=M",
            "@V_2", "A=M", "M=D"
        ]
    );
    assert_eq!(cg.slot_count(), 3);
}

#[test]
fn pop_constant_fails_and_changes_nothing() {
    let mut cg = CodeGen::new();
    let r = cg.gen_block(&pop(Segment::Constant, 0));
    assert_eq!(r, Err(TranslateError::InvalidPop));
    assert_eq!(cg.slot_count(), 0);
    assert_eq!(cg.label_count(), 0);
    assert_eq!(cg.gen_block(&pop(Segment::Local, 0)).unwrap()[5], "@V_0");
    let r = cg.gen_stack_block(&StackToken::Pop { segment: Segment::Constant, index: 9 });
    assert_eq!(r, Err(TranslateError::InvalidPop));
    assert_eq!(cg.slot_count(), 1);
}

#[test]
fn unary_blocks() {
    let cg = CodeGen::new();
    assert_eq!(
        cg.gen_unary_block(&UnaryToken::Neg).unwrap(),
        vec!["@0", "D=A", "@SP", "A=M-1", "M=D-M"]
    );
    assert_eq!(cg.gen_unary_block(&UnaryToken::Not).unwrap(), vec!["@SP", "A=M-1", "M=!M"]);
}

#[test]
fn binary_blocks() {
    let cg = CodeGen::new();
    for (token, operation) in [
        (BinaryToken::Add, "M=D+M"),
        (BinaryToken::Sub, "M=M-D"),
        (BinaryToken::And, "M=D&M"),
        (BinaryToken::Or, "M=D|M"),
    ] {
        assert_eq!(
            cg.gen_binary_block(&token).unwrap(),
            vec!["@SP", "M=M-1", "A=M", "D=M", "A=A-1", operation]
        );
    }
}

#[test]
fn arithmetic_takes_no_label_and_no_variable() {
    let mut cg = CodeGen::new();
    cg.gen_block(&Line::Binary(BinaryToken::Sub)).unwrap();
    cg.gen_block(&Line::Unary(UnaryToken::Not)).unwrap();
    assert_eq!(cg.label_count(), 0);
    assert_eq!(cg.slot_count(), 0);
}

#[test]
fn comparison_blocks() {
    let mut cg = CodeGen::new();
    assert_eq!(
        cg.gen_block(&Line::Comparison(ComparisonToken::Equal)).unwrap(),
        vec![
            "@SP", "M=M-1", "A=M", "D=M", "A=A-1", "D=M-D", "@JMP_0", "D; JEQ", "@JMP_1",
            "0; JMP", "(JMP_0)", "    @0", "    D=A-1", "    @JMP_2", "    0; JMP", "(JMP_1)",
            "    @0", "    D=A", "(JMP_2)", "    @SP", "    A=M", "    A=A-1", "    M=D"
        ]
    );
    assert_eq!(cg.label_count(), 3);
    let gt = cg.gen_comparison_block(&ComparisonToken::GreaterThan).unwrap();
    assert_eq!(gt[6], "@JMP_3");
    assert_eq!(gt[7], "D; JGT");
    assert_eq!(gt[8], "@JMP_4");
    assert_eq!(gt[10], "(JMP_3)");
    assert_eq!(gt[13], "    @JMP_5");
    assert_eq!(gt[15], "(JMP_4)");
    assert_eq!(gt[18], "(JMP_5)");
    let lt = cg.gen_comparison_block(&ComparisonToken::LessThan).unwrap();
    assert_eq!(lt[7], "D; JLT");
    assert_eq!(lt[18], "(JMP_8)");
    assert_eq!(cg.label_count(), 9);
    assert_eq!(cg.slot_count(), 0);
}

#[test]
fn each_pop_takes_one_variable() {
    let mut cg = CodeGen::new();
    cg.get_static_variable(&7);
    let before = cg.slot_count();
    let segments = [
        Segment::Local,
        Segment::Argument,
        Segment::This,
        Segment::That,
        Segment::Temp,
        Segment::Pointer,
        Segment::Static,
    ];
    let mut seen: Vec<String> = Vec::new();
    for (k, segment) in segments.iter().cycle().take(40).enumerate() {
        let block = cg.gen_block(&pop(*segment, 7)).unwrap();
        assert_eq!(cg.slot_count(), before + k as u64 + 1);
        let dest = block[block.len() - 3].clone();
        assert_eq!(dest, format!("@V_{}", before + k as u64));
        assert!(!seen.contains(&dest));
        seen.push(dest);
    }
    assert_eq!(cg.slot_count(), before + 40);
}

#[test]
fn labels_are_never_used_twice() {
    let mut cg = CodeGen::new();
    let mut declared: Vec<String> = Vec::new();
    let kinds = [ComparisonToken::Equal, ComparisonToken::LessThan, ComparisonToken::GreaterThan];
    for n in 0..120 {
        cg.gen_block(&push(Segment::Constant, n)).unwrap();
        cg.gen_block(&pop(Segment::Static, n % 5)).unwrap();
        let block = cg.gen_block(&Line::Comparison(kinds[n as usize % 3])).unwrap();
        let labels: Vec<String> = block.iter().filter(|l| l.starts_with('(')).cloned().collect();
        assert_eq!(labels.len(), 3);
        for label in labels {
            assert!(!declared.contains(&label), "{} declared twice", label);
            declared.push(label);
        }
    }
    assert_eq!(declared.len(), 360);
    assert_eq!(cg.label_count(), 360);
}

#[test]
fn static_index_keeps_its_variable() {
    let mut cg = CodeGen::new();
    let first = cg.gen_block(&push(Segment::Static, 3)).unwrap();
    cg.gen_block(&pop(Segment::Local, 1)).unwrap();
    cg.gen_block(&Line::Comparison(ComparisonToken::Equal)).unwrap();
    let other = cg.gen_block(&push(Segment::Static, 4)).unwrap();
    cg.gen_block(&pop(Segment::Static, 5)).unwrap();
    let second = cg.gen_block(&push(Segment::Static, 3)).unwrap();
    let third = cg.gen_block(&pop(Segment::Static, 3)).unwrap();
    assert_eq!(first[2], "@V_0");
    assert_eq!(second[2], first[2]);
    assert_eq!(third[2], first[2]);
    assert_eq!(other[2], "@V_2");
    assert_ne!(other[2], first[2]);
}

#[test]
fn room_for_more_instructions() {
    let cg = CodeGen::new();
    assert!(cg.has_spare(0));
    assert!(cg.has_spare(1_000_000));
    assert!(cg.has_spare((u64::MAX / 3) as usize));
    assert!(!cg.has_spare((u64::MAX / 3) as usize + 1));
    assert!(!cg.has_spare(usize::MAX));
}
