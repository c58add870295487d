//! Splitting a 16-bit instruction word into its fixed bit-fields.

use vstd::prelude::*;

verus! {

/// The bit-fields of one instruction word.
///
/// `opcode` is bits 12-15, `x` bits 8-11, `y` bits 4-7, `n` bits 0-3,
/// `nn` bits 0-7 and `nnn` bits 0-11.
#[derive(Clone, Copy, Debug, PartialEq, Eq, Structural)]
pub struct Fields {
    pub opcode: u8,
    pub x: u8,
    pub y: u8,
    pub n: u8,
    pub nn: u8,
    pub nnn: u16,
}

impl Fields {
    /// Each nibble is below 16, and `nn` and `nnn` are made of the nibbles
    /// below them, as in any decoded word.
    pub open spec fn wf(self) -> bool {
        &&& self.opcode < 16
        &&& self.x < 16
        &&& self.y < 16
        &&& self.n < 16
        &&& self.nn == self.y * 16 + self.n
        &&& self.nnn == self.x * 256 + self.nn
    }
}

/// The fields of `word`.
pub open spec fn fields_of(word: u16) -> Fields {
    Fields {
        opcode: (word >> 12u16) as u8,
        x: ((word >> 8u16) & 0xF) as u8,
        y: ((word >> 4u16) & 0xF) as u8,
        n: (word & 0xF) as u8,
        nn: (word & 0xFF) as u8,
        nnn: word & 0xFFF,
    }
}

/// The word whose opcode, X, Y and N nibbles are those of `f`.
pub open spec fn word_of(f: Fields) -> u16 {
    ((f.opcode as u16) << 12u16) | ((f.x as u16) << 8u16) | ((f.y as u16) << 4u16) | (f.n as u16)
}

/// Splits `word` into its bit-fields.
pub fn decode(word: u16) -> (f: Fields)
    ensures
        f == fields_of(word),
        f.wf(),
{
    proof {
        lemma_fields_of_wf(word);
    }
    Fields {
        opcode: (word >> 12u16) as u8,
        x: ((word >> 8u16) & 0xF) as u8,
        y: ((word >> 4u16) & 0xF) as u8,
        n: (word & 0xF) as u8,
        nn: (word & 0xFF) as u8,
        nnn: word & 0xFFF,
    }
}

/// Puts the opcode, X, Y and N nibbles of `f` back into one word.
pub fn encode(f: &Fields) -> (word: u16)
    requires
        f.wf(),
    ensures
        word == word_of(*f),
{
    ((f.opcode as u16) << 12u16) | ((f.x as u16) << 8u16) | ((f.y as u16) << 4u16) | (f.n as u16)
}

/// The fields of every word are well formed.
pub proof fn lemma_fields_of_wf(word: u16)
    ensures
        fields_of(word).wf(),
{
    let f = fields_of(word);
    assert((word >> 12u16) < 16) by (bit_vector);
    assert(((word >> 8u16) & 0xF) < 16) by (bit_vector);
    assert(((word >> 4u16) & 0xF) < 16) by (bit_vector);
    assert((word & 0xF) < 16) by (bit_vector);
    assert((word & 0xFF) == ((word >> 4u16) & 0xF) * 16 + (word & 0xF)) by (bit_vector);
    assert((word & 0xFFF) == ((word >> 8u16) & 0xF) * 256 + (word & 0xFF)) by (bit_vector);
}

/// Re-encoding the fields of any word gives the word back.
pub proof fn lemma_encode_decode(word: u16)
    ensures
        word_of(fields_of(word)) == word,
{
    assert((((word >> 12u16) as u8 as u16) << 12u16) | ((((word >> 8u16) & 0xF) as u8 as u16) << 8u16)
        | ((((word >> 4u16) & 0xF) as u8 as u16) << 4u16) | ((word & 0xF) as u8 as u16) == word) by (bit_vector);
}

/// Decoding the word made from well-formed fields gives the same fields.
pub proof fn lemma_decode_encode(f: Fields)
    requires
        f.wf(),
    ensures
        fields_of(word_of(f)) == f,
{
    let (op, x, y, n) = (f.opcode, f.x, f.y, f.n);
    let w = word_of(f);
    assert(w == ((op as u16) << 12u16) | ((x as u16) << 8u16) | ((y as u16) << 4u16) | (n as u16));
    assert((w >> 12u16) as u8 == op && ((w >> 8u16) & 0xF) as u8 == x && ((w >> 4u16) & 0xF) as u8 == y
        && (w & 0xF) as u8 == n && (w & 0xFF) as u8 == y * 16 + n && w & 0xFFF == x * 256 + y * 16 + n) by (bit_vector)
        requires
            op < 16 && x < 16 && y < 16 && n < 16,
            w == ((op as u16) << 12u16) | ((x as u16) << 8u16) | ((y as u16) << 4u16) | (n as u16),
    ;
}

/// The word of opcode `op` with register `x` and byte `nn` (the 3XNN form).
pub open spec fn op_xnn(op: u8, x: u8, nn: u8) -> u16 {
    (op * 0x1000 + x * 0x100 + nn) as u16
}

/// The word of opcode `op` with address `nnn` (the 1NNN form).
pub open spec fn op_nnn(op: u8, nnn: u16) -> u16 {
    (op * 0x1000 + nnn) as u16
}

/// The word of opcode `op` with registers `x`, `y` and nibble `n` (the 8XYN form).
pub open spec fn op_xyn(op: u8, x: u8, y: u8, n: u8) -> u16 {
    (op * 0x1000 + x * 0x100 + y * 0x10 + n) as u16
}

/// The fields of a word in the 3XNN form.
pub proof fn lemma_fields_xnn(op: u8, x: u8, nn: u8)
    requires
        op < 16,
        x < 16,
    ensures
        fields_of(op_xnn(op, x, nn)) == (Fields { opcode: op, x, y: nn / 16, n: nn % 16, nn, nnn: (x * 256 + nn) as u16 }),
{
    let w = op_xnn(op, x, nn);
    assert((w >> 12u16) as u8 == op && ((w >> 8u16) & 0xF) as u8 == x && ((w >> 4u16) & 0xF) as u8 == nn / 16
        && (w & 0xF) as u8 == nn % 16 && (w & 0xFF) as u8 == nn && w & 0xFFF == x * 256 + nn) by (bit_vector)
        requires
            op < 16 && x < 16,
            w == (op * 0x1000 + x * 0x100 + nn) as u16,
    ;
}

/// The fields of a word in the 1NNN form.
pub proof fn lemma_fields_nnn(op: u8, nnn: u16)
    requires
        op < 16,
        nnn < 0x1000,
    ensures
        fields_of(op_nnn(op, nnn)) == (Fields {
            opcode: op,
            x: (nnn / 256) as u8,
            y: ((nnn / 16) % 16) as u8,
            n: (nnn % 16) as u8,
            nn: (nnn % 256) as u8,
            nnn,
        }),
{
    let w = op_nnn(op, nnn);
    assert((w >> 12u16) as u8 == op && ((w >> 8u16) & 0xF) as u8 == (nnn / 256) as u8 && ((w >> 4u16) & 0xF) as u8
        == ((nnn / 16) % 16) as u8 && (w & 0xF) as u8 == (nnn % 16) as u8 && (w & 0xFF) as u8 == (nnn % 256) as u8 && w
        & 0xFFF == nnn) by (bit_vector)
        requires
            op < 16 && nnn < 0x1000,
            w == (op * 0x1000 + nnn) as u16,
    ;
}

/// The fields of a word in the 8XYN form.
pub proof fn lemma_fields_xyn(op: u8, x: u8, y: u8, n: u8)
    requires
        op < 16,
        x < 16,
        y < 16,
        n < 16,
    ensures
        fields_of(op_xyn(op, x, y, n)) == (Fields {
            opcode: op,
            x,
            y,
            n,
            nn: (y * 16 + n) as u8,
            nnn: (x * 256 + y * 16 + n) as u16,
        }),
{
    let w = op_xyn(op, x, y, n);
    assert((w >> 12u16) as u8 == op && ((w >> 8u16) & 0xF) as u8 == x && ((w >> 4u16) & 0xF) as u8 == y
        && (w & 0xF) as u8 == n && (w & 0xFF) as u8 == y * 16 + n && w & 0xFFF == x * 256 + y * 16 + n) by (bit_vector)
        requires
            op < 16 && x < 16 && y < 16 && n < 16,
            w == (op * 0x1000 + x * 0x100 + y * 0x10 + n) as u16,
    ;
}

} // verus!
