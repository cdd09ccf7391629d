use vstd::prelude::*;
use crate::ops::Ops;
use crate::text::push_char;

verus! {

/// One byte of a compiled image, tagged with the operation it came from.
#[derive(Clone, Copy, Debug)]
pub struct Instruction {
    pub operation: Ops,
    pub data: u8,
}

impl Instruction {
    pub fn create(operation: Ops, data: u8) -> (r: Instruction)
        ensures
            r.operation == operation,
            r.data == data,
    {
        Instruction { operation, data }
    }
}

/// A compiled image.
pub struct Program {
    pub instructions: Vec<Instruction>,
}

/// Upper-case hexadecimal digit of a value below 16.
pub open spec fn hex_digit(v: u8) -> char {
    if v < 10 {
        (('0' as u8) + v) as char
    } else {
        (('A' as u8) + (v - 10)) as char
    }
}

/// Two upper-case hexadecimal digits of a byte.
pub open spec fn hex2(v: u8) -> Seq<char> {
    seq![hex_digit(v / 16), hex_digit(v % 16)]
}

/// The text of an image: each byte as two hexadecimal digits and a space,
/// with a line break after every third byte.
pub open spec fn dump_of(bytes: Seq<u8>) -> Seq<char>
    decreases bytes.len(),
{
    if bytes.len() == 0 {
        Seq::empty()
    } else {
        let prev = dump_of(bytes.drop_last());
        let cell = hex2(bytes.last()) + seq![' '];
        if bytes.len() % 3 == 0 {
            prev + cell + seq!['\n']
        } else {
            prev + cell
        }
    }
}

pub(crate) fn push_hex_digit(s: &mut String, v: u8)
    requires
        v < 16,
    ensures
        final(s)@ == old(s)@.push(hex_digit(v)),
{
    if v < 10 {
        push_char(s, (48u8 + v) as char);
    } else {
        push_char(s, (55u8 + v) as char);
    }
}

/// Appends a byte as two upper-case hexadecimal digits.
pub fn push_hex2(s: &mut String, v: u8)
    ensures
        final(s)@ == old(s)@ + hex2(v),
{
    push_hex_digit(s, v / 16);
    push_hex_digit(s, v % 16);
    assert(final(s)@ =~= old(s)@ + hex2(v));
}

/// Lower-case hexadecimal digit of a value below 16.
pub open spec fn hex_digit_lower(v: u8) -> char {
    if v < 10 {
        (('0' as u8) + v) as char
    } else {
        (('a' as u8) + (v - 10)) as char
    }
}

/// Two lower-case hexadecimal digits of a byte.
pub open spec fn hex2_lower(v: u8) -> Seq<char> {
    seq![hex_digit_lower(v / 16), hex_digit_lower(v % 16)]
}

fn push_hex_digit_lower(s: &mut String, v: u8)
    requires
        v < 16,
    ensures
        final(s)@ == old(s)@.push(hex_digit_lower(v)),
{
    if v < 10 {
        push_char(s, (48u8 + v) as char);
    } else {
        push_char(s, (87u8 + v) as char);
    }
}

/// Appends a byte as two lower-case hexadecimal digits.
pub fn push_hex2_lower(s: &mut String, v: u8)
    ensures
        final(s)@ == old(s)@ + hex2_lower(v),
{
    push_hex_digit_lower(s, v / 16);
    push_hex_digit_lower(s, v % 16);
    assert(final(s)@ =~= old(s)@ + hex2_lower(v));
}

/// The header line that marks an image for the logic simulator.
pub open spec fn image_header() -> Seq<char> {
    "v2.0 raw\n"@
}

/// The text of an image file: the header, then the dump; binary output is
/// not supported.
pub fn image_text(program: &Program, binary: bool) -> (r: Result<String, String>)
    ensures
        binary <==> r is Err,
        r matches Ok(t) ==> t@ == image_header() + dump_of(program.bytes()),
{
    if binary {
        return Err(String::from_str("binary output is currently not supported."));
    }
    let mut out = String::from_str("v2.0 raw\n");
    let d = program.dump();
    crate::text::push_str(&mut out, d.as_str());
    Ok(out)
}

impl Program {
    /// The bytes of the image, in order.
    pub open spec fn bytes(&self) -> Seq<u8> {
        self.instructions@.map_values(|i: Instruction| i.data)
    }

    pub fn dump(&self) -> (r: String)
        ensures
            r@ == dump_of(self.bytes()),
    {
        let mut out = String::new();
        let mut i: usize = 0;
        while i < self.instructions.len()
            invariant
                i <= self.instructions@.len(),
                out@ == dump_of(self.bytes().subrange(0, i as int)),
            decreases self.instructions@.len() - i,
        {
            let ghost before = out@;
            push_hex2(&mut out, self.instructions[i].data);
            push_char(&mut out, ' ');
            let ghost pre = self.bytes().subrange(0, i as int);
            let ghost cur = self.bytes().subrange(0, i + 1);
            assert(cur.drop_last() =~= pre);
            assert(cur.last() == self.instructions@[i as int].data);
            if (i + 1) % 3 == 0 {
                push_char(&mut out, '\n');
            }
            assert(out@ =~= dump_of(cur));
            i = i + 1;
        }
        assert(self.bytes().subrange(0, self.instructions@.len() as int) =~= self.bytes());
        out
    }
}

} // verus!
