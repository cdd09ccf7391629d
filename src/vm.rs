use vstd::prelude::*;
use crate::ops::{Register, register_of_bits};
use crate::program::{Program, push_hex2, push_hex2_lower, hex2, hex2_lower};
use crate::text::{push_char, push_str, push_decimal, push_padded_right, decimal, pad_right};

verus! {

/// The five condition flags.
#[derive(PartialEq, Eq, Structural, Debug, Clone, Copy)]
pub struct Flags {
    pub zero: bool,
    pub less_than: bool,
    pub overflow: bool,
    pub sign: bool,
    pub carry: bool,
}

impl Flags {
    pub fn create() -> (r: Flags)
        ensures
            r == cleared_flags(),
    {
        Flags { zero: false, less_than: false, overflow: false, sign: false, carry: false }
    }

    pub fn set_zero(&mut self, f: bool)
        ensures
            *final(self) == (Flags { zero: f, ..*old(self) }),
    {
        self.zero = f;
    }

    pub fn set_less(&mut self, f: bool)
        ensures
            *final(self) == (Flags { less_than: f, ..*old(self) }),
    {
        self.less_than = f;
    }

    pub fn set_over(&mut self, f: bool)
        ensures
            *final(self) == (Flags { overflow: f, ..*old(self) }),
    {
        self.overflow = f;
    }

    pub fn set_sign(&mut self, f: bool)
        ensures
            *final(self) == (Flags { sign: f, ..*old(self) }),
    {
        self.sign = f;
    }

    pub fn set_carry(&mut self, f: bool)
        ensures
            *final(self) == (Flags { carry: f, ..*old(self) }),
    {
        self.carry = f;
    }
}

pub open spec fn cleared_flags() -> Flags {
    Flags { zero: false, less_than: false, overflow: false, sign: false, carry: false }
}

/// An integer reduced modulo 256.
pub open spec fn wrap(x: int) -> u8 {
    (x % 256) as u8
}

/// The top bit of a byte.
pub open spec fn msb(v: u8) -> bool {
    v >= 128
}

/// A byte read as a two's-complement signed value.
pub open spec fn signed(v: u8) -> int {
    if v >= 128 { v - 256 } else { v as int }
}

/// Result and flags of `add`.
pub open spec fn add_result(l: u8, r: u8, f: Flags) -> (u8, Flags) {
    let sum = l + r;
    let res = wrap(sum);
    let o = (msb(l) && msb(r) && !msb(res)) || (!msb(l) && !msb(r) && msb(res));
    (res, Flags { zero: res == 0, less_than: msb(res) != o, overflow: o, sign: msb(res), carry: sum > 255 })
}

/// Flags after `cmp`, which subtracts the signed values.
pub open spec fn cmp_flags(l: u8, r: u8) -> Flags {
    let d = signed(l) - signed(r);
    let db = wrap(d);
    let o = (msb(l) && !msb(r) && !msb(db)) || (!msb(l) && msb(r) && msb(db));
    Flags {
        zero: d == 0,
        less_than: o != msb(db),
        overflow: o,
        sign: msb(db),
        carry: db > 128 || signed(l) > signed(r),
    }
}

/// Flags after `and` and `or`: carry and overflow are kept.
pub open spec fn logic_flags(l: u8, r: u8, res: u8, f: Flags) -> Flags {
    Flags { less_than: signed(l) < signed(r), zero: res == 0, sign: msb(res), ..f }
}

/// Flags after `not` and `rsh`: carry and overflow are kept.
pub open spec fn unary_flags(x: u8, res: u8, f: Flags) -> Flags {
    Flags { less_than: signed(x) < signed(res), zero: res == 0, sign: msb(res), ..f }
}

/// Right shift by any amount; 8 or more gives 0.
pub open spec fn shift_right(x: u8, n: u8) -> u8 {
    if n >= 8 { 0 } else { x >> n }
}

/// The abstract state of the machine.
pub struct VmState {
    pub mode: u8,
    pub count: usize,
    pub pc: u8,
    pub a: u8,
    pub b: u8,
    pub c: u8,
    pub d: u8,
    pub ram: Seq<u8>,
    pub edge: u8,
    pub flags: Flags,
    pub halt: bool,
}

pub open spec fn reg(m: VmState, r: Register) -> u8 {
    match r {
        Register::A => m.a,
        Register::B => m.b,
        Register::C => m.c,
        Register::D => m.d,
    }
}

pub open spec fn set_reg(m: VmState, r: Register, v: u8) -> VmState {
    match r {
        Register::A => VmState { a: v, ..m },
        Register::B => VmState { b: v, ..m },
        Register::C => VmState { c: v, ..m },
        Register::D => VmState { d: v, ..m },
    }
}

/// The memory byte at an address taken modulo 256.
pub open spec fn read_at(m: VmState, addr: int) -> u8 {
    m.ram[wrap(addr) as int]
}

/// The state after writing `data` modulo 256 at `addr` modulo 256.
pub open spec fn write_at(m: VmState, addr: int, data: int) -> VmState {
    VmState { ram: m.ram.update(wrap(addr) as int, wrap(data)), ..m }
}

pub open spec fn alu_add(m: VmState, l: Register, r: Register) -> VmState {
    let (v, f) = add_result(reg(m, l), reg(m, r), m.flags);
    VmState { flags: f, ..set_reg(m, l, v) }
}

pub open spec fn alu_cmp(m: VmState, l: Register, r: Register) -> VmState {
    VmState { flags: cmp_flags(reg(m, l), reg(m, r)), ..m }
}

pub open spec fn alu_sub(m: VmState, l: Register, r: Register) -> VmState {
    let v = wrap(reg(m, l) - reg(m, r));
    VmState { flags: cmp_flags(reg(m, l), reg(m, r)), ..set_reg(m, l, v) }
}

pub open spec fn alu_and(m: VmState, l: Register, r: Register) -> VmState {
    let v = reg(m, l) & reg(m, r);
    VmState { flags: logic_flags(reg(m, l), reg(m, r), v, m.flags), ..set_reg(m, l, v) }
}

pub open spec fn alu_or(m: VmState, l: Register, r: Register) -> VmState {
    let v = reg(m, l) | reg(m, r);
    VmState { flags: logic_flags(reg(m, l), reg(m, r), v, m.flags), ..set_reg(m, l, v) }
}

pub open spec fn alu_not(m: VmState, x: Register) -> VmState {
    let v = (255 - reg(m, x)) as u8;
    VmState { flags: unary_flags(reg(m, x), v, m.flags), ..set_reg(m, x, v) }
}

pub open spec fn alu_rsh(m: VmState, x: Register, n: Register) -> VmState {
    let v = shift_right(reg(m, x), reg(m, n));
    VmState { flags: unary_flags(reg(m, x), v, m.flags), ..set_reg(m, x, v) }
}

pub open spec fn alu_inc(m: VmState, x: Register) -> VmState {
    set_reg(m, x, wrap(reg(m, x) + 1))
}

pub open spec fn alu_dec(m: VmState, x: Register) -> VmState {
    set_reg(m, x, wrap(reg(m, x) - 1))
}

/// The state after a jump to `target` is taken (before the step's own increment).
pub open spec fn jump_to(m: VmState, target: u8) -> VmState {
    VmState { pc: wrap(target - 1), ..m }
}

/// The effect of the instruction at `pc`, before the program counter moves on.
pub open spec fn execute(m: VmState) -> VmState {
    let ins = m.ram[m.pc as int];
    let x = register_of_bits(ins / 4);
    let y = register_of_bits(ins);
    let next = wrap(m.pc + 1);
    let imm = m.ram[next as int];
    if ins == 0 {
        m
    } else if ins == 1 {
        VmState { halt: true, ..m }
    } else if 0x40 <= ins <= 0x45 {
        let cond = if ins == 0x40 {
            true
        } else if ins == 0x41 {
            m.flags.less_than
        } else if ins == 0x42 {
            m.flags.overflow
        } else if ins == 0x43 {
            m.flags.sign
        } else if ins == 0x44 {
            m.flags.carry
        } else {
            m.flags.zero
        };
        if cond { jump_to(m, imm) } else { VmState { pc: next, ..m } }
    } else if 0x60 <= ins <= 0x6b {
        let cond = if ins < 0x64 {
            m.flags.less_than
        } else if ins < 0x68 {
            m.flags.overflow
        } else {
            m.flags.sign
        };
        if cond { jump_to(m, reg(m, y)) } else { m }
    } else if 0x6c <= ins <= 0x6f {
        set_reg(VmState { pc: next, ..m }, y, imm)
    } else {
        execute_general(m, ins)
    }
}

/// The effect of an instruction whose top four bits select a register operation.
pub open spec fn execute_general(m: VmState, ins: u8) -> VmState {
    let x = register_of_bits(ins / 4);
    let y = register_of_bits(ins);
    let head = ins / 16;
    if head == 5 {
        set_reg(m, x, reg(m, y))
    } else if head == 7 {
        set_reg(m, x, m.ram[reg(m, y) as int])
    } else if head == 8 {
        alu_add(m, x, y)
    } else if head == 9 {
        alu_sub(m, x, y)
    } else if head == 10 {
        alu_rsh(m, x, y)
    } else if head == 11 {
        let low = ins % 4;
        if low == 0 {
            alu_not(m, x)
        } else if low == 1 {
            jump_to(m, reg(m, x))
        } else if low == 2 {
            if m.flags.carry { jump_to(m, reg(m, x)) } else { m }
        } else {
            if m.flags.zero { jump_to(m, reg(m, x)) } else { m }
        }
    } else if head == 12 {
        alu_and(m, x, y)
    } else if head == 13 {
        if x == y { alu_inc(m, x) } else { alu_or(m, x, y) }
    } else if head == 14 {
        if x == y { alu_dec(m, x) } else { alu_cmp(m, x, y) }
    } else if head == 15 {
        write_at(m, reg(m, y) as int, reg(m, x) as int)
    } else {
        m
    }
}

/// One full step: execute, then advance the program counter and the count.
pub open spec fn step(m: VmState) -> VmState {
    let e = execute(m);
    VmState { pc: wrap(e.pc + 1), count: (m.count + 1) as usize, ..e }
}

/// The state after at most `fuel` steps, stopping early at a halt.
pub open spec fn run_steps(m: VmState, fuel: nat) -> VmState
    decreases fuel,
{
    if fuel == 0 || m.halt {
        m
    } else {
        run_steps(step(m), (fuel - 1) as nat)
    }
}

/// The state that `create` gives.
pub open spec fn initial_state() -> VmState {
    VmState {
        mode: 0,
        count: 0,
        pc: 0,
        a: 0,
        b: 0,
        c: 0,
        d: 0,
        ram: Seq::new(256, |i: int| 0u8),
        edge: 0,
        flags: cleared_flags(),
        halt: false,
    }
}

/// The arithmetic-logic unit; each operation reads and writes registers of a machine.
pub struct ALU {}

/// A trace virtual machine with four registers and 256 bytes of memory.
pub struct VirtualMachine {
    pub mode: u8,
    instruction_count: usize,
    program_counter: u8,
    register_a: u8,
    register_b: u8,
    register_c: u8,
    register_d: u8,
    ram: Vec<u8>,
    pub program_edge: u8,
    pub flags: Flags,
    halt: bool,
}

impl View for VirtualMachine {
    type V = VmState;

    closed spec fn view(&self) -> VmState {
        VmState {
            mode: self.mode,
            count: self.instruction_count,
            pc: self.program_counter,
            a: self.register_a,
            b: self.register_b,
            c: self.register_c,
            d: self.register_d,
            ram: self.ram@,
            edge: self.program_edge,
            flags: self.flags,
            halt: self.halt,
        }
    }
}

/// An integer reduced modulo 256, computed without overflow.
pub(crate) fn wrap_isize(x: isize) -> (r: u8)
    ensures
        r == wrap(x as int),
{
    if x >= 0 {
        (x % 256) as u8
    } else {
        let p: isize = -(x + 1);
        let k: isize = p % 256;
        proof {
            assert(x as int == -(p as int) - 1);
            assert((-(p as int) - 1) % 256 == 255 - (p as int) % 256) by (nonlinear_arith)
                requires p >= 0;
        }
        (255 - k) as u8
    }
}

impl ALU {
    /// `left = left + right`, setting all five flags.
    pub fn add(vm: &mut VirtualMachine, left: Register, right: Register)
        requires
            old(vm).wf(),
        ensures
            final(vm).wf(),
            final(vm)@ == alu_add(old(vm)@, left, right),
    {
        let l = vm.get_register_data(left);
        let r = vm.get_register_data(right);
        let sum: u16 = l as u16 + r as u16;
        let res: u8 = (sum % 256) as u8;
        let msb_x = l >= 128;
        let msb_y = r >= 128;
        let msb_s = res >= 128;
        let o = (msb_x && msb_y && !msb_s) || (!msb_x && !msb_y && msb_s);
        vm.flags.set_over(o);
        vm.flags.set_less(msb_s != o);
        vm.flags.set_carry(sum > 255);
        vm.flags.set_zero(res == 0);
        vm.flags.set_sign(msb_s);
        vm.set_register_data(left, res);
    }

    /// Compare, then `left = left - right`.
    pub fn sub(vm: &mut VirtualMachine, left: Register, right: Register)
        requires
            old(vm).wf(),
        ensures
            final(vm).wf(),
            final(vm)@ == alu_sub(old(vm)@, left, right),
    {
        let l = vm.get_register_data(left);
        let r = vm.get_register_data(right);
        ALU::cmp(vm, left, right);
        let v = wrapping_sub(l, r);
        vm.set_register_data(left, v);
    }

    /// Set the flags from the signed difference `left - right`.
    pub fn cmp(vm: &mut VirtualMachine, left: Register, right: Register)
        requires
            old(vm).wf(),
        ensures
            final(vm).wf(),
            final(vm)@ == alu_cmp(old(vm)@, left, right),
    {
        let l = vm.get_register_data(left);
        let r = vm.get_register_data(right);
        vm.flags = compare_flags(l, r);
    }

    /// `left = left & right`.
    pub fn and(vm: &mut VirtualMachine, left: Register, right: Register)
        requires
            old(vm).wf(),
        ensures
            final(vm).wf(),
            final(vm)@ == alu_and(old(vm)@, left, right),
    {
        let l = vm.get_register_data(left);
        let r = vm.get_register_data(right);
        let res = l & r;
        vm.flags.set_less(signed_lt(l, r));
        vm.flags.set_zero(res == 0);
        vm.flags.set_sign(res >= 128);
        vm.set_register_data(left, res);
    }

    /// `left = left | right`.
    pub fn or(vm: &mut VirtualMachine, left: Register, right: Register)
        requires
            old(vm).wf(),
        ensures
            final(vm).wf(),
            final(vm)@ == alu_or(old(vm)@, left, right),
    {
        let l = vm.get_register_data(left);
        let r = vm.get_register_data(right);
        let res = l | r;
        vm.flags.set_less(signed_lt(l, r));
        vm.flags.set_zero(res == 0);
        vm.flags.set_sign(res >= 128);
        vm.set_register_data(left, res);
    }

    /// `x = !x`.
    pub fn not(vm: &mut VirtualMachine, x: Register)
        requires
            old(vm).wf(),
        ensures
            final(vm).wf(),
            final(vm)@ == alu_not(old(vm)@, x),
    {
        let v = vm.get_register_data(x);
        let res: u8 = 255 - v;
        vm.flags.set_less(signed_lt(v, res));
        vm.flags.set_zero(res == 0);
        vm.flags.set_sign(res >= 128);
        vm.set_register_data(x, res);
    }

    /// `operand = operand >> amount`.
    pub fn right_shift(vm: &mut VirtualMachine, operand: Register, amount: Register)
        requires
            old(vm).wf(),
        ensures
            final(vm).wf(),
            final(vm)@ == alu_rsh(old(vm)@, operand, amount),
    {
        let v = vm.get_register_data(operand);
        let n = vm.get_register_data(amount);
        let res: u8 = if n >= 8 { 0 } else { v >> n };
        vm.flags.set_less(signed_lt(v, res));
        vm.flags.set_zero(res == 0);
        vm.flags.set_sign(res >= 128);
        vm.set_register_data(operand, res);
    }

    /// `x = x + 1` modulo 256; flags unchanged.
    pub fn inc(vm: &mut VirtualMachine, x: Register)
        requires
            old(vm).wf(),
        ensures
            final(vm).wf(),
            final(vm)@ == alu_inc(old(vm)@, x),
    {
        let v = vm.get_register_data(x);
        vm.set_register_data(x, after(v));
    }

    /// `x = x - 1` modulo 256; flags unchanged.
    pub fn dec(vm: &mut VirtualMachine, x: Register)
        requires
            old(vm).wf(),
        ensures
            final(vm).wf(),
            final(vm)@ == alu_dec(old(vm)@, x),
    {
        let v = vm.get_register_data(x);
        vm.set_register_data(x, before(v));
    }
}

/// A byte read as a signed value.
fn signed_of(v: u8) -> (r: i16)
    ensures
        r == signed(v),
{
    if v >= 128 { v as i16 - 256 } else { v as i16 }
}

/// The flags that comparing `l` with `r` sets.
fn compare_flags(l: u8, r: u8) -> (f: Flags)
    ensures
        f == cmp_flags(l, r),
{
    let sl = signed_of(l);
    let sr = signed_of(r);
    let d: i16 = sl - sr;
    let db: u8 = ((d + 256) % 256) as u8;
    assert(db == wrap(d as int));
    let msb_x = l >= 128;
    let msb_y = r >= 128;
    let msb_d = db >= 128;
    let o = (msb_x && !msb_y && !msb_d) || (!msb_x && msb_y && msb_d);
    Flags { zero: d == 0, less_than: o != msb_d, overflow: o, sign: msb_d, carry: db > 128 || sl > sr }
}

/// `l - r` modulo 256.
fn wrapping_sub(l: u8, r: u8) -> (v: u8)
    ensures
        v == wrap(l - r),
{
    if l >= r {
        l - r
    } else {
        (256u16 - (r - l) as u16) as u8
    }
}

/// Whether `l < r` as signed bytes.
fn signed_lt(l: u8, r: u8) -> (b: bool)
    ensures
        b == (signed(l) < signed(r)),
{
    signed_of(l) < signed_of(r)
}

/// `t - 1` modulo 256: the value a jump stores so that the step's increment lands on `t`.
fn before(t: u8) -> (r: u8)
    ensures
        r == wrap(t - 1),
{
    if t == 0 { 255 } else { t - 1 }
}

/// `t + 1` modulo 256.
fn after(t: u8) -> (r: u8)
    ensures
        r == wrap(t + 1),
{
    if t == 255 { 0 } else { t + 1 }
}

impl VirtualMachine {
    /// Memory holds exactly 256 bytes.
    pub open spec fn wf(&self) -> bool {
        self@.ram.len() == 256
    }

    pub fn create() -> (r: VirtualMachine)
        ensures
            r.wf(),
            r@ == initial_state(),
    {
        let mut ram: Vec<u8> = Vec::new();
        let mut i: usize = 0;
        while i < 256
            invariant
                i <= 256,
                ram@.len() == i,
                forall|k: int| 0 <= k < i ==> ram@[k] == 0u8,
            decreases 256 - i,
        {
            ram.push(0);
            i = i + 1;
        }
        assert(ram@ =~= Seq::new(256, |i: int| 0u8));
        VirtualMachine {
            mode: 0,
            instruction_count: 0,
            program_counter: 0,
            register_a: 0,
            register_b: 0,
            register_c: 0,
            register_d: 0,
            ram,
            program_edge: 0,
            flags: Flags::create(),
            halt: false,
        }
    }

    /// Write `data` modulo 256 at `addr` modulo 256.
    pub fn write(&mut self, addr: isize, data: isize)
        requires
            old(self).wf(),
        ensures
            final(self).wf(),
            final(self)@ == write_at(old(self)@, addr as int, data as int),
    {
        let a = wrap_isize(addr);
        let d = wrap_isize(data);
        self.ram.set(a as usize, d);
    }

    /// The byte at `addr` modulo 256.
    pub fn read(&self, addr: isize) -> (r: u8)
        requires
            self.wf(),
        ensures
            r == read_at(self@, addr as int),
    {
        self.ram[wrap_isize(addr) as usize]
    }

    fn read_byte(&self, addr: u8) -> (r: u8)
        requires
            self.wf(),
        ensures
            r == self@.ram[addr as int],
    {
        self.ram[addr as usize]
    }

    /// Copy the image into memory from address 0; an image over 256 bytes is refused.
    pub fn load(&mut self, program: &Program) -> (r: Result<(), String>)
        requires
            old(self).wf(),
        ensures
            final(self).wf(),
            r is Ok <==> program.bytes().len() <= 256,
            r is Err ==> final(self)@ == old(self)@,
            r is Ok ==> final(self)@ == (VmState {
                ram: program.bytes() + old(self)@.ram.subrange(program.bytes().len() as int, 256),
                edge: if program.bytes().len() == 0 {
                    old(self)@.edge
                } else {
                    (program.bytes().len() - 1) as u8
                },
                ..old(self)@
            }),
    {
        let n = program.instructions.len();
        if n > 256 {
            return Err(String::from_str("Too many instructions in program: more than 256 bytes."));
        }
        let mut i: usize = 0;
        while i < n
            invariant
                n == program.instructions@.len(),
                n <= 256,
                i <= n,
                self.wf(),
                old(self).wf(),
                self@ == (VmState {
                    ram: self@.ram,
                    edge: self@.edge,
                    ..old(self)@
                }),
                self@.ram == program.bytes().subrange(0, i as int)
                    + old(self)@.ram.subrange(i as int, 256),
                self@.edge == if i == 0 { old(self)@.edge } else { (i - 1) as u8 },
            decreases n - i,
        {
            self.ram.set(i, program.instructions[i].data);
            assert(program.bytes()[i as int] == program.instructions@[i as int].data);
            self.program_edge = i as u8;
            assert(self@.ram =~= program.bytes().subrange(0, i + 1)
                + old(self)@.ram.subrange(i + 1, 256));
            i = i + 1;
        }
        assert(program.bytes().subrange(0, n as int) =~= program.bytes());
        Ok(())
    }

    pub fn get_register_data(&self, register: Register) -> (r: u8)
        ensures
            r == reg(self@, register),
    {
        match register {
            Register::A => self.register_a,
            Register::B => self.register_b,
            Register::C => self.register_c,
            Register::D => self.register_d,
        }
    }

    pub fn set_register_data(&mut self, register: Register, data: u8)
        ensures
            final(self).wf() == old(self).wf(),
            final(self)@ == set_reg(old(self)@, register, data),
    {
        match register {
            Register::A => self.register_a = data,
            Register::B => self.register_b = data,
            Register::C => self.register_c = data,
            Register::D => self.register_d = data,
        }
    }

    /// Carry out the instruction at `pc`, leaving the step's increment to the caller.
    fn execute(&mut self)
        requires
            old(self).wf(),
        ensures
            final(self).wf(),
            final(self)@ == execute(old(self)@),
    {
        let pc = self.program_counter;
        let ins = self.read_byte(pc);
        let y = Register::from_bits(ins);
        let next = after(pc);
        let imm = self.read_byte(next);
        if ins == 0 {
        } else if ins == 1 {
            self.halt = true;
        } else if 0x40 <= ins && ins <= 0x45 {
            let cond = if ins == 0x40 {
                true
            } else if ins == 0x41 {
                self.flags.less_than
            } else if ins == 0x42 {
                self.flags.overflow
            } else if ins == 0x43 {
                self.flags.sign
            } else if ins == 0x44 {
                self.flags.carry
            } else {
                self.flags.zero
            };
            if cond {
                self.program_counter = before(imm);
            } else {
                self.program_counter = next;
            }
        } else if 0x60 <= ins && ins <= 0x6b {
            let cond = if ins < 0x64 {
                self.flags.less_than
            } else if ins < 0x68 {
                self.flags.overflow
            } else {
                self.flags.sign
            };
            if cond {
                self.program_counter = before(self.get_register_data(y));
            }
        } else if 0x6c <= ins && ins <= 0x6f {
            self.program_counter = next;
            self.set_register_data(y, imm);
        } else {
            self.execute_general(ins);
        }
    }

    /// Carry out an instruction whose top four bits select a register operation.
    fn execute_general(&mut self, ins: u8)
        requires
            old(self).wf(),
        ensures
            final(self).wf(),
            final(self)@ == execute_general(old(self)@, ins),
    {
        let x = Register::from_bits(ins / 4);
        let y = Register::from_bits(ins);
        let head: u8 = ins / 16;
        if head == 5 {
            let v = self.get_register_data(y);
            self.set_register_data(x, v);
        } else if head == 7 {
            let v = self.read_byte(self.get_register_data(y));
            self.set_register_data(x, v);
        } else if head == 8 {
            ALU::add(self, x, y);
        } else if head == 9 {
            ALU::sub(self, x, y);
        } else if head == 10 {
            ALU::right_shift(self, x, y);
        } else if head == 11 {
            let low: u8 = ins % 4;
            if low == 0 {
                ALU::not(self, x);
            } else if low == 1 {
                self.program_counter = before(self.get_register_data(x));
            } else if low == 2 {
                if self.flags.carry {
                    self.program_counter = before(self.get_register_data(x));
                }
            } else {
                if self.flags.zero {
                    self.program_counter = before(self.get_register_data(x));
                }
            }
        } else if head == 12 {
            ALU::and(self, x, y);
        } else if head == 13 {
            if x == y {
                ALU::inc(self, x);
            } else {
                ALU::or(self, x, y);
            }
        } else if head == 14 {
            if x == y {
                ALU::dec(self, x);
            } else {
                ALU::cmp(self, x, y);
            }
        } else if head == 15 {
            let addr = self.get_register_data(y);
            let v = self.get_register_data(x);
            self.ram.set(addr as usize, v);
        }
    }

    /// Execute one instruction and move to the next one.
    pub fn step(&mut self)
        requires
            old(self).wf(),
            old(self)@.count < usize::MAX,
        ensures
            final(self).wf(),
            final(self)@ == step(old(self)@),
    {
        self.execute();
        self.program_counter = after(self.program_counter);
        self.instruction_count = self.instruction_count + 1;
    }

    pub fn is_halted(&self) -> (r: bool)
        ensures
            r == self@.halt,
    {
        self.halt
    }

    pub fn get_instruction_count(&self) -> (r: usize)
        ensures
            r == self@.count,
    {
        self.instruction_count
    }

    pub fn get_flags(&self) -> (r: Flags)
        ensures
            r == self@.flags,
    {
        self.flags
    }

    pub fn get_program_counter(&self) -> (r: u8)
        ensures
            r == self@.pc,
    {
        self.program_counter
    }
}

/// Memory wraps: after writing `d` at `a`, the byte at the low eight bits of
/// `a` is `d` reduced into 0..=255, and every other byte is unchanged.
pub proof fn lemma_memory_wrap(m: VmState, a: int, d: int)
    requires
        m.ram.len() == 256,
    ensures
        read_at(write_at(m, a, d), a % 256) == ((d % 256) + 256) % 256,
        forall|b: int| #![trigger read_at(write_at(m, a, d), b)] wrap(b) != wrap(a) ==> read_at(write_at(m, a, d), b) == read_at(m, b),
        write_at(m, a, d).ram.len() == 256,
{
    assert(wrap(a % 256) == wrap(a));
}

fn register_text(r: Register, v: u8) -> (s: String)
    ensures
        s@ == register_field(r, v),
{
    let mut s = String::new();
    let name: &str = match r {
        Register::A => "A",
        Register::B => "B",
        Register::C => "C",
        Register::D => "D",
    };
    push_str(&mut s, name);
    push_str(&mut s, "=");
    push_hex2_lower(&mut s, v);
    assert(s@ =~= register_field(r, v));
    s
}

fn memory_text(write: bool, addr: u8, v: u8) -> (s: String)
    ensures
        s@ == memory_field(write, addr, v),
{
    let mut s = String::from_str(if write { "RAM_W[" } else { "RAM_R[" });
    push_hex2_lower(&mut s, addr);
    push_str(&mut s, "]=");
    push_hex2_lower(&mut s, v);
    assert(s@ =~= memory_field(write, addr, v));
    s
}

/// The decimal digits of `n`, padded with zeros to three characters.
pub open spec fn counter_text(n: nat) -> Seq<char> {
    let d = decimal(n);
    if d.len() >= 3 { d } else { Seq::new((3 - d.len()) as nat, |i: int| '0') + d }
}

pub open spec fn bit(b: bool) -> char {
    if b { '1' } else { '0' }
}

/// A trace line: `NNN : PC[PP]->(OP[op  ] L   R    ) | REG  | RAM          | FLAGS[ c=C z=Z s=S o=O l=L ]`.
pub open spec fn trace_line(
    count: nat,
    pc: u8,
    op: Seq<char>,
    left: Seq<char>,
    right: Seq<char>,
    reg: Seq<char>,
    ram: Seq<char>,
    f: Flags,
) -> Seq<char> {
    counter_text(count) + " : PC["@ + hex2(pc) + "]->(OP["@ + pad_right(op, 4) + "] "@
        + pad_right(left, 4) + pad_right(right, 5) + ") | "@ + pad_right(reg, 4) + " | "@
        + pad_right(ram, 12) + " | FLAGS[ c="@ + seq![bit(f.carry)] + " z="@ + seq![bit(f.zero)]
        + " s="@ + seq![bit(f.sign)] + " o="@ + seq![bit(f.overflow)] + " l="@ + seq![bit(f.less_than)]
        + " ]"@
}

fn push_bit(s: &mut String, b: bool)
    ensures
        final(s)@ == old(s)@.push(bit(b)),
{
    push_char(s, if b { '1' } else { '0' });
}

fn format_trace(count: usize, pc: u8, op: &str, left: &str, right: &str, reg: &str, ram: &str, f: Flags) -> (r: String)
    ensures
        r@ == trace_line(count as nat, pc, op@, left@, right@, reg@, ram@, f),
{
    let mut digits = String::new();
    push_decimal(&mut digits, count as u64);
    let mut s = String::new();
    let n = digits.as_str().unicode_len();
    let mut k: usize = n;
    while k < 3
        invariant
            n <= k <= 3 || (n > 3 && k == n),
            s@ == Seq::new((k - n) as nat, |i: int| '0'),
        decreases 3 - k,
    {
        push_char(&mut s, '0');
        k = k + 1;
        assert(s@ =~= Seq::new((k - n) as nat, |i: int| '0'));
    }
    push_str(&mut s, digits.as_str());
    assert(s@ =~= counter_text(count as nat));
    push_str(&mut s, " : PC[");
    push_hex2(&mut s, pc);
    push_str(&mut s, "]->(OP[");
    push_padded_right(&mut s, op, 4);
    push_str(&mut s, "] ");
    push_padded_right(&mut s, left, 4);
    push_padded_right(&mut s, right, 5);
    push_str(&mut s, ") | ");
    push_padded_right(&mut s, reg, 4);
    push_str(&mut s, " | ");
    push_padded_right(&mut s, ram, 12);
    push_str(&mut s, " | FLAGS[ c=");
    push_bit(&mut s, f.carry);
    push_str(&mut s, " z=");
    push_bit(&mut s, f.zero);
    push_str(&mut s, " s=");
    push_bit(&mut s, f.sign);
    push_str(&mut s, " o=");
    push_bit(&mut s, f.overflow);
    push_str(&mut s, " l=");
    push_bit(&mut s, f.less_than);
    push_str(&mut s, " ]");
    assert(s@ =~= trace_line(count as nat, pc, op@, left@, right@, reg@, ram@, f));
    s
}

pub open spec fn register_name(r: Register) -> Seq<char> {
    match r {
        Register::A => "A"@,
        Register::B => "B"@,
        Register::C => "C"@,
        Register::D => "D"@,
    }
}

/// `R=vv`: a register's name and a value in lower-case hexadecimal.
pub open spec fn register_field(r: Register, v: u8) -> Seq<char> {
    register_name(r) + "="@ + hex2_lower(v)
}

/// `RAM_R[aa]=vv` for a read, `RAM_W[aa]=vv` for a write.
pub open spec fn memory_field(write: bool, addr: u8, v: u8) -> Seq<char> {
    (if write { "RAM_W["@ } else { "RAM_R["@ }) + hex2_lower(addr) + "]="@ + hex2_lower(v)
}

/// The operand fields of a trace line for the instruction at `m.pc`, with
/// `post` the state after it: the registers read (values before), the
/// register written (value after), and the memory touched.
pub open spec fn trace_fields(m: VmState, post: VmState) -> (Seq<char>, Seq<char>, Seq<char>, Seq<char>) {
    let ins = m.ram[m.pc as int];
    let x = register_of_bits(ins / 4);
    let y = register_of_bits(ins);
    let xv = reg(m, x);
    let yv = reg(m, y);
    let next = wrap(m.pc + 1);
    let imm = m.ram[next as int];
    let head = ins / 16;
    let none = Seq::<char>::empty();
    if 0x40 <= ins <= 0x45 {
        let taken = if ins == 0x40 {
            true
        } else if ins == 0x41 {
            m.flags.less_than
        } else if ins == 0x42 {
            m.flags.overflow
        } else if ins == 0x43 {
            m.flags.sign
        } else if ins == 0x44 {
            m.flags.carry
        } else {
            m.flags.zero
        };
        (none, none, none, if taken { memory_field(false, next, imm) } else { none })
    } else if 0x60 <= ins < 0x6c {
        (register_field(y, yv), none, none, none)
    } else if 0x6c <= ins < 0x70 {
        (register_field(y, yv), none, register_field(y, imm), memory_field(false, next, imm))
    } else if head == 7 {
        (register_field(x, xv), ","@ + register_field(y, yv), register_field(x, reg(post, x)),
            memory_field(false, yv, m.ram[yv as int]))
    } else if head == 5 || head == 8 || head == 9 || head == 10 || head == 12 || (head == 13 && x != y) {
        (register_field(x, xv), ","@ + register_field(y, yv), register_field(x, reg(post, x)), none)
    } else if head == 11 {
        (register_field(x, xv), none, if ins % 4 == 0 { register_field(x, reg(post, x)) } else { none }, none)
    } else if head == 13 || (head == 14 && x == y) {
        (register_field(x, xv), none, register_field(x, reg(post, x)), none)
    } else if head == 14 {
        (register_field(x, xv), ","@ + register_field(y, yv), none, none)
    } else if head == 15 {
        (register_field(y, yv), ","@ + register_field(x, xv), none, memory_field(true, yv, xv))
    } else {
        (none, none, none, none)
    }
}

/// The trace line of one step from state `m`.
pub open spec fn step_trace(m: VmState) -> Seq<char> {
    let post = step(m);
    let f = trace_fields(m, post);
    trace_line(m.count as nat, m.pc, mnemonic(m.ram[m.pc as int]), f.0, f.1, f.2, f.3, post.flags)
}

/// The trace lines of at most `fuel` steps, stopping early at a halt.
pub open spec fn run_trace(m: VmState, fuel: nat) -> Seq<Seq<char>>
    decreases fuel,
{
    if fuel == 0 || m.halt {
        Seq::empty()
    } else {
        seq![step_trace(m)] + run_trace(step(m), (fuel - 1) as nat)
    }
}

/// The mnemonic an instruction byte disassembles to; empty for an unused byte.
pub open spec fn mnemonic(ins: u8) -> Seq<char> {
    let x = register_of_bits(ins / 4);
    let y = register_of_bits(ins);
    let head = ins / 16;
    if ins == 0 { "nop"@ }
    else if ins == 1 { "halt"@ }
    else if ins == 0x40 { "jmpi"@ }
    else if ins == 0x41 { "jli"@ }
    else if ins == 0x42 { "joi"@ }
    else if ins == 0x43 { "jsi"@ }
    else if ins == 0x44 { "jci"@ }
    else if ins == 0x45 { "jzi"@ }
    else if 0x60 <= ins < 0x64 { "jl"@ }
    else if 0x64 <= ins < 0x68 { "jo"@ }
    else if 0x68 <= ins < 0x6c { "js"@ }
    else if 0x6c <= ins < 0x70 { "ldi"@ }
    else if head == 5 { "cpr"@ }
    else if head == 7 { "ld"@ }
    else if head == 8 { "add"@ }
    else if head == 9 { "sub"@ }
    else if head == 10 { "rsh"@ }
    else if head == 11 {
        if ins % 4 == 0 { "not"@ } else if ins % 4 == 1 { "jmp"@ } else if ins % 4 == 2 { "jc"@ } else { "jz"@ }
    }
    else if head == 12 { "and"@ }
    else if head == 13 { if x == y { "inc"@ } else { "or"@ } }
    else if head == 14 { if x == y { "dec"@ } else { "cmp"@ } }
    else if head == 15 { "st"@ }
    else { ""@ }
}

fn mnemonic_exec(ins: u8) -> (r: &'static str)
    ensures
        r@ == mnemonic(ins),
{
    let x = Register::from_bits(ins / 4);
    let y = Register::from_bits(ins);
    let head: u8 = ins / 16;
    if ins == 0 { "nop" }
    else if ins == 1 { "halt" }
    else if ins == 0x40 { "jmpi" }
    else if ins == 0x41 { "jli" }
    else if ins == 0x42 { "joi" }
    else if ins == 0x43 { "jsi" }
    else if ins == 0x44 { "jci" }
    else if ins == 0x45 { "jzi" }
    else if 0x60 <= ins && ins < 0x64 { "jl" }
    else if 0x64 <= ins && ins < 0x68 { "jo" }
    else if 0x68 <= ins && ins < 0x6c { "js" }
    else if 0x6c <= ins && ins < 0x70 { "ldi" }
    else if head == 5 { "cpr" }
    else if head == 7 { "ld" }
    else if head == 8 { "add" }
    else if head == 9 { "sub" }
    else if head == 10 { "rsh" }
    else if head == 11 {
        if ins % 4 == 0 { "not" } else if ins % 4 == 1 { "jmp" } else if ins % 4 == 2 { "jc" } else { "jz" }
    }
    else if head == 12 { "and" }
    else if head == 13 { if x == y { "inc" } else { "or" } }
    else if head == 14 { if x == y { "dec" } else { "cmp" } }
    else if head == 15 { "st" }
    else { "" }
}

impl VirtualMachine {
    /// Execute one instruction and return its trace line: the count, the
    /// program counter before it, its mnemonic, the registers it reads with
    /// their values before, the register it writes with its value after, the
    /// memory it touches, and the flags after.
    pub fn run_instruction(&mut self) -> (r: String)
        requires
            old(self).wf(),
            old(self)@.count < usize::MAX,
        ensures
            final(self).wf(),
            final(self)@ == step(old(self)@),
            r@ == step_trace(old(self)@),
    {
        let count = self.instruction_count;
        let pc = self.program_counter;
        let ins = self.read_byte(pc);
        let next = after(pc);
        let imm = self.read_byte(next);
        let f = self.flags;
        let x = Register::from_bits(ins / 4);
        let y = Register::from_bits(ins);
        let xv = self.get_register_data(x);
        let yv = self.get_register_data(y);
        let at_y = self.read_byte(yv);
        self.step();
        let op = mnemonic_exec(ins);
        let mut left = String::new();
        let mut right = String::new();
        let mut reg = String::new();
        let mut ram = String::new();
        let head: u8 = ins / 16;
        if 0x40 <= ins && ins <= 0x45 {
            let taken = if ins == 0x40 {
                true
            } else if ins == 0x41 {
                f.less_than
            } else if ins == 0x42 {
                f.overflow
            } else if ins == 0x43 {
                f.sign
            } else if ins == 0x44 {
                f.carry
            } else {
                f.zero
            };
            if taken {
                ram = memory_text(false, next, imm);
            }
        } else if 0x60 <= ins && ins < 0x6c {
            left = register_text(y, yv);
        } else if 0x6c <= ins && ins < 0x70 {
            ram = memory_text(false, next, imm);
            left = register_text(y, yv);
            reg = register_text(y, imm);
        } else if head == 7 {
            left = register_text(x, xv);
            right = String::from_str(",");
            push_str(&mut right, register_text(y, yv).as_str());
            ram = memory_text(false, yv, at_y);
            reg = register_text(x, self.get_register_data(x));
        } else if head == 5 || head == 8 || head == 9 || head == 10 || head == 12
            || (head == 13 && x != y) {
            left = register_text(x, xv);
            right = String::from_str(",");
            push_str(&mut right, register_text(y, yv).as_str());
            reg = register_text(x, self.get_register_data(x));
        } else if head == 11 {
            left = register_text(x, xv);
            if ins % 4 == 0 {
                reg = register_text(x, self.get_register_data(x));
            }
        } else if head == 13 || (head == 14 && x == y) {
            left = register_text(x, xv);
            reg = register_text(x, self.get_register_data(x));
        } else if head == 14 {
            left = register_text(x, xv);
            right = String::from_str(",");
            push_str(&mut right, register_text(y, yv).as_str());
        } else if head == 15 {
            left = register_text(y, yv);
            right = String::from_str(",");
            push_str(&mut right, register_text(x, xv).as_str());
            ram = memory_text(true, yv, xv);
        }
        let line = format_trace(count, pc, op, left.as_str(), right.as_str(), reg.as_str(), ram.as_str(), self.flags);
        line
    }

    /// Run until a halt or until `limit` instructions have run; returns the
    /// trace lines of the instructions run.
    pub fn run_limited(&mut self, limit: usize) -> (r: Vec<String>)
        requires
            old(self).wf(),
            old(self)@.count + limit <= usize::MAX,
        ensures
            final(self).wf(),
            final(self)@ == run_steps(old(self)@, limit as nat),
            r@.len() == final(self)@.count - old(self)@.count,
            r@.map_values(|l: String| l@) == run_trace(old(self)@, limit as nat),
    {
        let mut lines: Vec<String> = Vec::new();
        assert(lines@.map_values(|l: String| l@) + run_trace(self@, limit as nat) =~= run_trace(self@, limit as nat));
        let mut k: usize = 0;
        while k < limit && !self.halt
            invariant
                k <= limit,
                self.wf(),
                old(self)@.count + limit <= usize::MAX,
                self@.count == old(self)@.count + k,
                lines@.len() == k,
                run_steps(old(self)@, limit as nat) == run_steps(self@, (limit - k) as nat),
                run_trace(old(self)@, limit as nat) == lines@.map_values(|l: String| l@) + run_trace(self@, (limit - k) as nat),
            decreases limit - k,
        {
            let ghost before = self@;
            let ghost shown = lines@.map_values(|l: String| l@);
            let line = self.run_instruction();
            lines.push(line);
            assert(lines@.map_values(|l: String| l@) =~= shown.push(step_trace(before)));
            assert(run_trace(before, (limit - k) as nat) == seq![step_trace(before)] + run_trace(self@, (limit - k - 1) as nat));
            assert(shown + (seq![step_trace(before)] + run_trace(self@, (limit - k - 1) as nat))
                =~= shown.push(step_trace(before)) + run_trace(self@, (limit - k - 1) as nat));
            k = k + 1;
        }
        assert(run_trace(self@, (limit - k) as nat) =~= Seq::<Seq<char>>::empty());
        assert(lines@.map_values(|l: String| l@) + Seq::<Seq<char>>::empty() =~= lines@.map_values(|l: String| l@));
        lines
    }
}

/// A `jmpi` to its own address never halts: from a state whose memory holds
/// `jmpi p` at its program counter `p`, any number of steps keeps the program
/// counter at `p`, leaves everything else as it was, and counts every step.
pub proof fn lemma_jump_to_self(m: VmState, n: nat)
    requires
        m.ram.len() == 256,
        m.ram[m.pc as int] == 0x40,
        m.ram[wrap(m.pc + 1) as int] == m.pc,
        !m.halt,
        m.count + n <= usize::MAX,
    ensures
        run_steps(m, n) == (VmState { count: (m.count + n) as usize, ..m }),
    decreases n,
{
    if n == 0 {
        assert(run_steps(m, n) == (VmState { count: (m.count + n) as usize, ..m }));
    } else {
        let s = step(m);
        assert(wrap(wrap(m.pc - 1) + 1) == m.pc);
        assert(s == (VmState { count: (m.count + 1) as usize, ..m }));
        lemma_jump_to_self(s, (n - 1) as nat);
    }
}

} // verus!
