use ttpc::lexer::{Lexer, TokenType};
use ttpc::ops::Register;
use ttpc::vm::{ALU, VirtualMachine};

#[test]
fn test_lexer_tokenization() {
    let mut lexer = Lexer::create();

    // test negative numbers and positive numbers
    let source = "
        negative: -2 // should be negative 2
        positive:  3 // should be positive 3

        answer: negative positive -
    ";
    let tokens = lexer.tokenize(false, source).unwrap();
    assert_eq!(9, tokens.len());
    let mut expected_values: Vec<&str> = vec!["-2", "3"];
    expected_values.reverse();

    for token in &tokens {
        if token.token_type == TokenType::Number {
            assert_eq!(token.value, expected_values.pop().unwrap());
        }
    }
}

#[test]
fn test_register_from_char() {
    let result1 = Register::from_char('a').unwrap();
    let result2 = Register::from_char('B').unwrap();
    let result3 = Register::from_char('c').unwrap();
    let result4 = Register::from_char('D').unwrap();
    assert_eq!(result1, Register::A);
    assert_eq!(result2, Register::B);
    assert_eq!(result3, Register::C);
    assert_eq!(result4, Register::D);
    assert_eq!(None, Register::from_char('l'));
}

#[test]
fn test_alu_operations() {
    let mut vm = VirtualMachine::create();

    // test add
    vm.set_register_data(Register::A, 255);
    ALU::add(&mut vm, Register::A, Register::A);

    assert_eq!(0b_11111110, vm.get_register_data(Register::A));
    assert_eq!(true, vm.flags.carry);
    assert_eq!(false, vm.flags.zero);
    assert_eq!(true, vm.flags.sign);
    assert_eq!(false, vm.flags.overflow);
    assert_eq!(true, vm.flags.less_than);

    let mut vm = VirtualMachine::create();

    // test sub
    vm.set_register_data(Register::A, 100);
    vm.set_register_data(Register::B, 255);

    ALU::sub(&mut vm, Register::A, Register::B);

    assert_eq!(0b_01100101, vm.get_register_data(Register::A));
    assert_eq!(true, vm.flags.carry);
    assert_eq!(false, vm.flags.zero);
    assert_eq!(false, vm.flags.sign);
    assert_eq!(false, vm.flags.overflow);
    assert_eq!(false, vm.flags.less_than);

    let mut vm = VirtualMachine::create();

    // test sub2
    vm.set_register_data(Register::A, 1);
    vm.set_register_data(Register::B, 2);

    ALU::sub(&mut vm, Register::A, Register::B);

    assert_eq!(0b_11111111, vm.get_register_data(Register::A));
    assert_eq!(true, vm.flags.carry);
    assert_eq!(false, vm.flags.zero);
    assert_eq!(true, vm.flags.sign);
    assert_eq!(false, vm.flags.overflow);
    assert_eq!(true, vm.flags.less_than);
}

#[test]
fn test_vm_ram() {
    let mut vm = VirtualMachine::create();

    // check that write and read work
    vm.write(0, 10);
    assert_eq!(10, vm.read(0));

    // check that mem locations wrap
    vm.write(-1, 200);
    assert_eq!(200, vm.read(255));

    // check that mem data wraps
    vm.write(255, -3);
    assert_eq!(253, vm.read(255));
}
