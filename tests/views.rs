use ttpc::compiler::Compiler;
use ttpc::dump::{summary, DebugInfo};
use ttpc::lexer::Lexer;
use ttpc::parser::Parser;
use ttpc::vm::VirtualMachine;

#[test]
fn statement_addresses_add_up() {
    let tokens = Lexer::create().tokenize(false, "nop\nldi a, 1\nx: 5\njmpi 0\nhalt").unwrap();
    let mut parser = Parser::create(tokens);
    let root = parser.generate().unwrap();
    let addrs: Vec<u8> = root.statements.iter().map(|s| s.byte_addr).collect();
    assert_eq!(addrs, vec![0, 1, 3, 3, 5]);
    let counts: Vec<usize> = root.statements.iter().map(|s| s.expressions.len()).collect();
    assert_eq!(counts, vec![0, 2, 1, 1, 0]);
}

#[test]
fn parse_tree_dump() {
    let tokens = Lexer::create().tokenize(false, "ldi a, . 1 +").unwrap();
    let mut parser = Parser::create(tokens);
    let root = parser.generate().unwrap();
    assert_eq!(
        root.to_text(),
        "\n(Operation):\"ldi\"\n----(Register):\"a\"\n----(Equation):\"+\"\n--------(Dot)     :\".\"\n--------(Value)   :\"1\""
    );
    let stmt = &root.statements[0];
    assert_eq!(stmt.raw(), "ldi");
    assert_eq!((stmt.line(), stmt.col()), (1, 1));
    assert_eq!(stmt.expressions[1].dump(0), "(Equation):\"+\"\n----(Dot)     :\".\"\n----(Value)   :\"1\"");
}

#[test]
fn token_describe() {
    let tokens = Lexer::create().tokenize(false, "add a, b").unwrap();
    assert_eq!(tokens[0].describe(), "([    Base | Op      ] - 1:1 \"add\")");
    assert_eq!(tokens[1].describe(), "([ Operand | Reg     ] - 1:5 \"a\")");
    assert_eq!(tokens[4].describe(), "([ Operand | Eof     ] - 2:1 \"EOF\")");
}

#[test]
fn run_summary() {
    let tokens = Lexer::create().tokenize(false, "ldi b, 200\nldi c, 100\nadd b, c\nhalt").unwrap();
    let mut parser = Parser::create(tokens);
    let program = Compiler::compile(false, parser.generate().unwrap()).unwrap();
    let mut vm = VirtualMachine::create();
    vm.load(&program).unwrap();
    let lines = vm.run_limited(10);
    assert_eq!(lines.len(), 4);
    assert_eq!(
        summary(&vm),
        "\nRegisters[A:000,B:044,C:100,D:000] \nFlags[C:true, L:false, Z:false, O:false, S:false]"
    );
}
