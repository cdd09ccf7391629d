use ttpc::compiler::Compiler;
use ttpc::lexer::Lexer;
use ttpc::parser::Parser;
use ttpc::program::Program;
use ttpc::vm::VirtualMachine;

fn assemble(strict: bool, source: &str) -> Result<Program, String> {
    let tokens = Lexer::create().tokenize(strict, source)?;
    let mut parser = Parser::create(tokens);
    let root = parser.generate()?;
    Compiler::compile(strict, root)
}

fn bytes(source: &str) -> Vec<u8> {
    assemble(false, source).unwrap().instructions.iter().map(|i| i.data).collect()
}

fn run(source: &str, limit: usize) -> VirtualMachine {
    let program = assemble(false, source).unwrap();
    let mut vm = VirtualMachine::create();
    vm.load(&program).unwrap();
    vm.run_limited(limit);
    vm
}

#[test]
fn nop_then_halt() {
    assert_eq!(bytes("nop\nhalt"), vec![0x00, 0x01]);
    let vm = run("nop\nhalt", 100);
    assert_eq!(vm.get_program_counter(), 2);
    assert!(vm.is_halted());
    assert_eq!(vm.get_instruction_count(), 2);
}

#[test]
fn immediate_load_and_add() {
    let src = "ldi a, 5\nldi b, 7\nadd a, b\nhalt";
    assert_eq!(bytes(src), vec![0x6C, 0x05, 0x6D, 0x07, 0x81, 0x01]);
    let vm = run(src, 100);
    assert_eq!(vm.get_register_data(ttpc::ops::Register::A), 12);
    assert_eq!(vm.get_register_data(ttpc::ops::Register::B), 7);
    assert!(!vm.flags.zero);
    assert!(!vm.flags.sign);
    assert!(!vm.flags.carry);
    assert!(!vm.flags.overflow);
    assert!(!vm.flags.less_than);
}

#[test]
fn label_back_reference() {
    let src = "ldi a, target\njmp a\ntarget: halt";
    assert_eq!(bytes(src), vec![0x6C, 0x03, 0xB1, 0x01]);
    let vm = run(src, 100);
    assert!(vm.is_halted());
    assert_eq!(vm.get_instruction_count(), 3);
}

#[test]
fn self_reference_via_dot() {
    assert_eq!(bytes("jmpi ."), vec![0x40, 0x00]);
    let vm = run("jmpi .", 10);
    assert!(!vm.is_halted());
    assert_eq!(vm.get_instruction_count(), 10);
    assert_eq!(vm.get_program_counter(), 0);
}

#[test]
fn label_with_body() {
    assert_eq!(bytes("foo: 1 2 +\nbyte foo"), vec![3]);
}

#[test]
fn negative_literal_wraps() {
    assert_eq!(bytes("byte -2"), vec![0xFE]);
}

#[test]
fn dot_plus_one() {
    assert_eq!(bytes("nop\nldi a, . 1 +"), vec![0x00, 0x6C, 0x02]);
}

#[test]
fn subtraction_in_source_order() {
    assert_eq!(bytes("byte 5 2 -"), vec![3]);
    assert_eq!(bytes("byte 1 2 + 3 -"), vec![0]);
    assert_eq!(bytes("byte 2 5 -"), vec![253]);
}

#[test]
fn trailing_minus_is_a_token() {
    let tokens = Lexer::create().tokenize(false, "answer: negative positive -").unwrap();
    assert_eq!(tokens.len(), 5);
    assert_eq!(tokens[3].token_type, ttpc::lexer::TokenType::Minus);
    assert_eq!(bytes("negative: -2\npositive: 3\nanswer: negative positive -\nbyte answer"), vec![251]);
}

#[test]
fn dot_in_label_body_is_the_referencing_address() {
    assert_eq!(bytes("nop\nx: . 1 +\nnop\nbyte x"), vec![0x00, 0x00, 0x03]);
}

#[test]
fn image_length_is_sum_of_byte_counts() {
    let src = "nop\nldi a, 1\njmpi 0\nbyte 7\nst a, b\nhalt";
    assert_eq!(bytes(src).len(), 1 + 2 + 2 + 1 + 1 + 1);
}

#[test]
fn register_encodings() {
    assert_eq!(bytes("cpr b, c"), vec![0x56]);
    assert_eq!(bytes("st a, b"), vec![0xF4]);
    assert_eq!(bytes("inc c"), vec![0xDA]);
    assert_eq!(bytes("dec d"), vec![0xEF]);
    assert_eq!(bytes("not b"), vec![0xB4]);
    assert_eq!(bytes("jz c"), vec![0xBB]);
    assert_eq!(bytes("jl d"), vec![0x63]);
    assert_eq!(bytes("ld a, (b)"), vec![0x71]);
}

#[test]
fn case_insensitive_labels_by_default() {
    assert_eq!(bytes("Foo: 5\nbyte foo"), vec![5]);
    assert!(assemble(true, "Foo: 5\nbyte foo").is_err());
    assert!(assemble(false, "x1: 1\nX1: 2").is_err());
    assert!(assemble(true, "x1: 1\nX1: 2").is_ok());
}

#[test]
fn cyclic_labels_are_refused() {
    assert!(assemble(false, "aa: bb\nbb: aa\nbyte aa").is_err());
}

#[test]
fn errors_of_each_stage() {
    assert!(assemble(false, "1nop").is_err());
    assert!(assemble(false, "ld a, (e)").is_err());
    assert!(assemble(false, "ld a, (a").is_err());
    assert!(assemble(false, "nop / x").is_err());
    assert!(assemble(false, "byte -x").is_err());
    assert!(assemble(false, "add a").is_err());
    assert!(assemble(false, "foo a").is_err());
    assert!(assemble(false, "byte 1 +").is_err());
    assert!(assemble(false, "byte 1 2 3").is_err());
    assert!(assemble(false, "byte missing").is_err());
    assert!(assemble(false, "byte 300").is_err());
    assert!(assemble(true, "byte a").is_err());
    assert!(assemble(false, "byte a").is_err());
}

#[test]
fn program_dump() {
    let p = assemble(false, "nop\nhalt\nbyte 255\nbyte 10").unwrap();
    assert_eq!(p.dump(), "00 01 FF \n0A ");
    let text = ttpc::program::image_text(&p, false).unwrap();
    assert_eq!(text, "v2.0 raw\n00 01 FF \n0A ");
    assert!(ttpc::program::image_text(&p, true).is_err());
}

#[test]
fn load_too_large() {
    let mut src = String::new();
    for _ in 0..257 {
        src.push_str("nop\n");
    }
    let p = assemble(false, &src).unwrap();
    let mut vm = VirtualMachine::create();
    assert!(vm.load(&p).is_err());
}

#[test]
fn trace_line_format() {
    let p = assemble(false, "ldi a, 5\nhalt").unwrap();
    let mut vm = VirtualMachine::create();
    vm.load(&p).unwrap();
    let line = vm.run_instruction();
    assert_eq!(
        line,
        "000 : PC[00]->(OP[ldi ] A=00     ) | A=05 | RAM_R[01]=05 | FLAGS[ c=0 z=0 s=0 o=0 l=0 ]"
    );
}

#[test]
fn tokens_point_into_source() {
    let src = "loop: ldi b, 10 // count\n  jmp (a)";
    let tokens = Lexer::create().tokenize(false, src).unwrap();
    let lines: Vec<Vec<char>> = src.split('\n').map(|l| l.chars().collect()).collect();
    for t in &tokens[..tokens.len() - 1] {
        let line = &lines[t.line as usize - 1];
        let at = line[t.column as usize - 1];
        if t.token_type == ttpc::lexer::TokenType::PtrReg {
            assert_eq!(at, '(');
        } else {
            assert_eq!(at, t.value.chars().next().unwrap());
        }
    }
    let eof = tokens.last().unwrap();
    assert_eq!((eof.line, eof.column), (3, 1));
}

#[test]
fn tokenize_format_tokenize() {
    let src = "start: ldi a, 1\nadd a, b\njmpi start";
    let first = Lexer::create().tokenize(false, src).unwrap();
    let mut text = String::new();
    let mut line = 1;
    for t in &first[..first.len() - 1] {
        while line < t.line {
            text.push('\n');
            line += 1;
        }
        if !text.is_empty() && !text.ends_with('\n') && t.token_type != ttpc::lexer::TokenType::Comma {
            text.push(' ');
        }
        text.push_str(&t.value);
    }
    let second = Lexer::create().tokenize(false, &text).unwrap();
    let kinds = |v: &Vec<ttpc::lexer::Token>| v.iter().map(|t| (t.token_type, t.value.clone())).collect::<Vec<_>>();
    assert_eq!(kinds(&first), kinds(&second));
}

#[test]
fn label_value_is_stable() {
    let src = "base: 10\noff: base 5 +\nbyte off\nbyte off";
    assert_eq!(bytes(src), vec![15, 15]);
}

#[test]
fn memory_write_then_read_wraps() {
    let mut vm = VirtualMachine::create();
    vm.write(300, -1);
    assert_eq!(vm.read(300 & 0xFF), 255);
    vm.write(-256, 513);
    assert_eq!(vm.read(0), 1);
}
