use std::collections::HashMap;

use vm_translator::parser::Parser;

/// A small model of the target computer: the registers A and D, the memory,
/// and a program of assembly lines with its symbols resolved.
struct Machine {
    a: i16,
    d: i16,
    ram: Vec<i16>,
    steps: usize,
}

enum Op {
    Load(i16),
    Compute { dest: String, comp: String, jump: String },
}

fn assemble(lines: &[String]) -> Vec<Op> {
    let mut symbols: HashMap<String, i16> = HashMap::new();
    for (name, address) in [("SP", 0), ("LCL", 1), ("ARG", 2), ("THIS", 3), ("THAT", 4)] {
        symbols.insert(name.to_string(), address);
    }
    let mut count = 0;
    for line in lines {
        let text: String = line.chars().filter(|c| !c.is_whitespace()).collect();
        if text.starts_with('(') {
            let name = text[1..text.len() - 1].to_string();
            assert!(symbols.insert(name, count).is_none(), "label declared twice: {}", text);
        } else {
            count += 1;
        }
    }
    let mut next_variable = 16;
    let mut program = Vec::new();
    for line in lines {
        let text: String = line.chars().filter(|c| !c.is_whitespace()).collect();
        if text.starts_with('(') {
            continue;
        }
        if let Some(name) = text.strip_prefix('@') {
            let value = match name.parse::<u16>() {
                Ok(n) => n as i16,
                Err(_) => *symbols.entry(name.to_string()).or_insert_with(|| {
                    next_variable += 1;
                    next_variable - 1
                }),
            };
            program.push(Op::Load(value));
        } else {
            let (rest, jump) = match text.split_once(';') {
                Some((rest, jump)) => (rest.to_string(), jump.to_string()),
                None => (text.clone(), String::new()),
            };
            let (dest, comp) = match rest.split_once('=') {
                Some((dest, comp)) => (dest.to_string(), comp.to_string()),
                None => (String::new(), rest),
            };
            program.push(Op::Compute { dest, comp, jump });
        }
    }
    program
}

impl Machine {
    fn new() -> Machine {
        let mut ram = vec![0i16; 32768];
        ram[0] = 256;
        ram[1] = 300;
        ram[2] = 400;
        ram[3] = 3000;
        ram[4] = 3010;
        Machine { a: 0, d: 0, ram, steps: 0 }
    }

    fn compute(&self, comp: &str) -> i16 {
        let a = self.a;
        let d = self.d;
        let m = self.ram[self.a as u16 as usize];
        match comp {
            "0" => 0,
            "1" => 1,
            "-1" => -1,
            "D" => d,
            "A" => a,
            "M" => m,
            "!D" => !d,
            "!A" => !a,
            "!M" => !m,
            "-D" => d.wrapping_neg(),
            "-A" => a.wrapping_neg(),
            "-M" => m.wrapping_neg(),
            "D+1" => d.wrapping_add(1),
            "A+1" => a.wrapping_add(1),
            "M+1" => m.wrapping_add(1),
            "D-1" => d.wrapping_sub(1),
            "A-1" => a.wrapping_sub(1),
            "M-1" => m.wrapping_sub(1),
            "D+A" => d.wrapping_add(a),
            "D+M" => d.wrapping_add(m),
            "D-A" => d.wrapping_sub(a),
            "D-M" => d.wrapping_sub(m),
            "A-D" => a.wrapping_sub(d),
            "M-D" => m.wrapping_sub(d),
            "D&A" => d & a,
            "D&M" => d & m,
            "D|A" => d | a,
            "D|M" => d | m,
            other => panic!("unknown computation {}", other),
        }
    }

    fn run(&mut self, lines: &[String]) {
        let program = assemble(lines);
        let mut pc = 0;
        while pc < program.len() {
            self.steps += 1;
            assert!(self.steps < 1_000_000, "the program does not end");
            match &program[pc] {
                Op::Load(value) => {
                    self.a = *value;
                    pc += 1;
                },
                Op::Compute { dest, comp, jump } => {
                    let value = self.compute(comp);
                    let target = self.a as u16 as usize;
                    if dest.contains('M') {
                        self.ram[target] = value;
                    }
                    if dest.contains('A') {
                        self.a = value;
                    }
                    if dest.contains('D') {
                        self.d = value;
                    }
                    let taken = match jump.as_str() {
                        "" => false,
                        "JGT" => value > 0,
                        "JEQ" => value == 0,
                        "JGE" => value >= 0,
                        "JLT" => value < 0,
                        "JNE" => value != 0,
                        "JLE" => value <= 0,
                        "JMP" => true,
                        other => panic!("unknown jump {}", other),
                    };
                    pc = if taken { target } else { pc + 1 };
                },
            }
        }
    }

    fn stack(&self) -> Vec<i16> {
        self.ram[256..self.ram[0] as usize].to_vec()
    }
}

fn translate(source: &[&str]) -> Vec<String> {
    let mut parser = Parser::new("Test".to_string());
    for line in source {
        parser.process_line(line).unwrap();
    }
    let mut lines = Vec::new();
    for record in parser.records() {
        lines.extend(record.bin.iter().cloned());
    }
    lines
}

fn stack_after(source: &[&str]) -> Vec<i16> {
    let mut machine = Machine::new();
    machine.run(&translate(source));
    machine.stack()
}

#[test]
fn seven_plus_eight_is_fifteen() {
    assert_eq!(stack_after(&["push constant 7", "push constant 8", "add"]), vec![15]);
}

#[test]
fn negated_values_compare_equal() {
    assert_eq!(
        stack_after(&["push constant 17", "neg", "push constant 17", "neg", "eq"]),
        vec![-1]
    );
    assert_eq!(stack_after(&["push constant 17", "neg"]), vec![-17]);
    assert_eq!(
        stack_after(&["push constant 17", "neg", "push constant 16", "neg", "eq"]),
        vec![0]
    );
    assert_eq!(stack_after(&["push constant 17", "neg", "push constant 17", "eq"]), vec![0]);
}

#[test]
fn subtraction_takes_the_second_from_the_first() {
    assert_eq!(stack_after(&["push constant 10", "push constant 3", "sub"]), vec![7]);
    assert_eq!(stack_after(&["push constant 3", "push constant 10", "sub"]), vec![-7]);
}

#[test]
fn bitwise_operations() {
    assert_eq!(stack_after(&["push constant 12", "push constant 10", "and"]), vec![8]);
    assert_eq!(stack_after(&["push constant 12", "push constant 10", "or"]), vec![14]);
    assert_eq!(stack_after(&["push constant 0", "not"]), vec![-1]);
    assert_eq!(stack_after(&["push constant 5", "not"]), vec![!5]);
}

#[test]
fn comparisons_give_minus_one_or_zero() {
    for (a, b) in [(1, 2), (2, 1), (2, 2), (0, 0), (0, 9), (300, 299)] {
        let first = format!("push constant {}", a);
        let second = format!("push constant {}", b);
        let truth = |t: bool| if t { vec![-1] } else { vec![0] };
        assert_eq!(stack_after(&[&first, &second, "eq"]), truth(a == b));
        assert_eq!(stack_after(&[&first, &second, "lt"]), truth(a < b));
        assert_eq!(stack_after(&[&first, &second, "gt"]), truth(a > b));
    }
}

#[test]
fn several_comparisons_in_one_run() {
    assert_eq!(
        stack_after(&[
            "push constant 1",
            "push constant 2",
            "lt",
            "push constant 2",
            "push constant 1",
            "lt",
            "push constant 4",
            "push constant 4",
            "eq",
            "push constant 3",
            "push constant 1",
            "gt",
        ]),
        vec![-1, 0, -1, -1]
    );
}

#[test]
fn pointer_segments_are_reached_through_their_base() {
    let mut machine = Machine::new();
    machine.run(&translate(&[
        "push constant 21",
        "pop local 2",
        "push constant 22",
        "pop argument 0",
        "push constant 23",
        "pop this 5",
        "push constant 24",
        "pop that 1",
        "push local 2",
        "push argument 0",
        "push this 5",
        "push that 1",
    ]));
    assert_eq!(machine.ram[302], 21);
    assert_eq!(machine.ram[400], 22);
    assert_eq!(machine.ram[3005], 23);
    assert_eq!(machine.ram[3011], 24);
    assert_eq!(machine.stack(), vec![21, 22, 23, 24]);
}

#[test]
fn fixed_segments_start_at_their_base() {
    let mut machine = Machine::new();
    machine.run(&translate(&[
        "push constant 31",
        "pop temp 3",
        "push constant 3030",
        "pop pointer 1",
        "push temp 3",
        "push pointer 1",
        "push pointer 0",
    ]));
    assert_eq!(machine.ram[8], 31);
    assert_eq!(machine.ram[4], 3030);
    assert_eq!(machine.stack(), vec![31, 3030, 3000]);
}

#[test]
fn static_entries_keep_their_values() {
    assert_eq!(
        stack_after(&[
            "push constant 41",
            "pop static 3",
            "push constant 42",
            "pop static 4",
            "push static 3",
            "push static 4",
            "push static 3",
            "sub",
        ]),
        vec![41, 1]
    );
}

#[test]
fn sums_are_cut_to_sixteen_bits() {
    assert_eq!(stack_after(&["push constant 32767", "push constant 1", "add"]), vec![-32768]);
    assert_eq!(stack_after(&["push constant 0", "neg"]), vec![0]);
    assert_eq!(
        stack_after(&["push constant 32767", "neg", "push constant 2", "sub"]),
        vec![32767]
    );
}

#[test]
fn comparison_goes_by_the_difference() {
    assert_eq!(stack_after(&["push constant 5", "push constant 1", "neg", "lt"]), vec![0]);
    assert_eq!(stack_after(&["push constant 5", "push constant 1", "neg", "gt"]), vec![-1]);
    assert_eq!(
        stack_after(&["push constant 32767", "push constant 1", "neg", "lt"]),
        vec![-1]
    );
    assert_eq!(
        stack_after(&["push constant 32767", "push constant 32767", "neg", "gt"]),
        vec![0]
    );
}

#[test]
fn pop_keeps_its_target_in_a_fresh_variable() {
    let mut machine = Machine::new();
    machine.run(&translate(&[
        "push constant 1",
        "push constant 2",
        "pop local 0",
        "pop local 1",
    ]));
    assert_eq!(machine.ram[300], 2);
    assert_eq!(machine.ram[301], 1);
    assert_eq!(machine.ram[16], 300);
    assert_eq!(machine.ram[17], 301);
    assert_eq!(machine.stack(), Vec::<i16>::new());
}
