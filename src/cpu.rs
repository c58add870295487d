//! The fetch-decode-execute step.
//!
//! `step_spec` states what one step does to a `ChipView`; `Chip::step`
//! performs it. Effects of each opcode are computed from the register
//! values before the instruction, and where an opcode writes both VX and
//! the flag register VF, the writes land in the order listed for it, so the
//! later one wins when X is F.

use vstd::prelude::*;
use rand::Rng;
use crate::decode::{Fields, fields_of, decode, lemma_fields_of_wf};
use crate::machine::{
    Chip, ChipView, Fault, Keypad, key_is_down, blank_display, MEMORY_SIZE, DISPLAY_WIDTH,
    DISPLAY_HEIGHT, FONT_START, FLAG_REGISTER, STACK_TOP,
};

verus! {

/// The instruction word at address `a`, high byte first.
pub open spec fn word_at(s: ChipView, a: int) -> u16 {
    ((s.memory[a] as u16) << 8u16) | (s.memory[a + 1] as u16)
}

/// The instruction word at the program counter.
pub open spec fn fetch_word(s: ChipView) -> u16 {
    word_at(s, s.pc as int)
}

/// `s` with register `i` set to `v`.
pub open spec fn with_register(s: ChipView, i: int, v: u8) -> ChipView {
    ChipView { registers: s.registers.update(i, v), ..s }
}

/// `s` with the next instruction skipped when `cond` holds.
pub open spec fn skip_if(s: ChipView, cond: bool) -> ChipView {
    if cond {
        ChipView { pc: (s.pc + 2) as u16, ..s }
    } else {
        s
    }
}

/// 1 when `b` holds, else 0: the value written to the flag register.
pub open spec fn flag_of(b: bool) -> u8 {
    if b { 1 } else { 0 }
}

/// Whether bit `c` of a sprite row is set, counting from the most
/// significant bit, which is the leftmost pixel.
pub open spec fn sprite_bit(row: u8, c: int) -> bool {
    row & (0x80u8 >> (c as u8)) != 0
}

/// Whether the sprite of a draw instruction `f` covers pixel (`x`, `y`)
/// with a set bit. The sprite starts at (VX mod 64, VY mod 32); its rows
/// are the `n` bytes at the index register. Pixels past the right or
/// bottom edge are not drawn.
pub open spec fn sprite_hit(s: ChipView, f: Fields, x: int, y: int) -> bool {
    let x0 = (s.registers[f.x as int] % 64) as int;
    let y0 = (s.registers[f.y as int] % 32) as int;
    &&& y0 <= y < y0 + f.n
    &&& x0 <= x < x0 + 8
    &&& sprite_bit(s.memory[s.index + (y - y0)], x - x0)
}

/// The display after XOR-ing the sprite of `f` onto it.
pub open spec fn drawn(s: ChipView, f: Fields) -> Seq<Seq<bool>> {
    Seq::new(
        DISPLAY_HEIGHT as nat,
        |y: int| Seq::new(DISPLAY_WIDTH as nat, |x: int| s.display[y][x] != sprite_hit(s, f, x, y)),
    )
}

/// Whether drawing the sprite of `f` turns off a pixel that was on.
pub open spec fn collision(s: ChipView, f: Fields) -> bool {
    exists|x: int, y: int|
        0 <= x < DISPLAY_WIDTH && 0 <= y < DISPLAY_HEIGHT && s.display[y][x] && #[trigger] sprite_hit(s, f, x, y)
}

/// Memory after storing V0..=VX at the index register.
pub open spec fn stored_registers(s: ChipView, x: int) -> Seq<u8> {
    Seq::new(
        MEMORY_SIZE as nat,
        |a: int| if s.index <= a <= s.index + x { s.registers[a - s.index] } else { s.memory[a] },
    )
}

/// Registers after loading V0..=VX from the index register.
pub open spec fn loaded_registers(s: ChipView, x: int) -> Seq<u8> {
    Seq::new(16, |i: int| if i <= x { s.memory[s.index + i] } else { s.registers[i] })
}

/// The fault that executing `f` in `s` raises, if any.
pub open spec fn fault_of(s: ChipView, f: Fields) -> Option<Fault> {
    if f.opcode == 0x0 && f.nn == 0xEE && s.sp == 0 {
        Some(Fault::StackUnderflow)
    } else if f.opcode == 0x2 && s.sp >= STACK_TOP {
        Some(Fault::StackOverflow)
    } else if f.opcode == 0xD && s.index + f.n > MEMORY_SIZE {
        Some(Fault::AddressOutOfRange)
    } else if f.opcode == 0xF && f.nn == 0x33 && s.index + 3 > MEMORY_SIZE {
        Some(Fault::AddressOutOfRange)
    } else if f.opcode == 0xF && (f.nn == 0x55 || f.nn == 0x65) && s.index + f.x + 1 > MEMORY_SIZE {
        Some(Fault::AddressOutOfRange)
    } else {
        None
    }
}

/// Opcodes 8XY_: register to register arithmetic and logic.
pub open spec fn apply_alu(s: ChipView, f: Fields) -> ChipView {
    let x = f.x as int;
    let vx = s.registers[x];
    let vy = s.registers[f.y as int];
    let vf = FLAG_REGISTER as int;
    if f.n == 0x0 {
        with_register(s, x, vy)
    } else if f.n == 0x1 {
        with_register(s, x, vx | vy)
    } else if f.n == 0x2 {
        with_register(s, x, vx & vy)
    } else if f.n == 0x3 {
        with_register(s, x, vx ^ vy)
    } else if f.n == 0x4 {
        with_register(with_register(s, x, ((vx + vy) % 256) as u8), vf, flag_of(vx + vy > 255))
    } else if f.n == 0x5 {
        with_register(with_register(s, vf, flag_of(vx >= vy)), x, ((vx - vy) % 256) as u8)
    } else if f.n == 0x6 {
        with_register(with_register(s, vf, vx & 1), x, vx >> 1u8)
    } else if f.n == 0x7 {
        with_register(with_register(s, vf, flag_of(vy >= vx)), x, ((vy - vx) % 256) as u8)
    } else if f.n == 0xE {
        with_register(with_register(s, vf, vx >> 7u8), x, ((vx * 2) % 256) as u8)
    } else {
        s
    }
}

/// Opcode DXYN: draw a sprite, VF set to whether a lit pixel went off.
pub open spec fn apply_draw(s: ChipView, f: Fields) -> ChipView {
    with_register(
        ChipView { display: drawn(s, f), ..s },
        FLAG_REGISTER as int,
        flag_of(collision(s, f)),
    )
}

/// Opcodes EX9E and EXA1: skip on the state of key VX.
pub open spec fn apply_keys(s: ChipView, f: Fields, keys: Keypad) -> ChipView {
    let vx = s.registers[f.x as int];
    if f.nn == 0x9E {
        skip_if(s, key_is_down(keys, vx))
    } else if f.nn == 0xA1 {
        skip_if(s, !key_is_down(keys, vx))
    } else {
        s
    }
}

/// Opcodes FX__: timers, key wait, index register and memory blocks.
pub open spec fn apply_misc(s: ChipView, f: Fields, keys: Keypad) -> ChipView {
    let x = f.x as int;
    let vx = s.registers[x];
    let i = s.index as int;
    if f.nn == 0x07 {
        with_register(s, x, s.delay_timer)
    } else if f.nn == 0x0A {
        match keys.last_pressed {
            Some(k) => with_register(s, x, k),
            None => ChipView { pc: (s.pc - 2) as u16, ..s },
        }
    } else if f.nn == 0x15 {
        ChipView { delay_timer: vx, ..s }
    } else if f.nn == 0x18 {
        ChipView { sound_timer: vx, ..s }
    } else if f.nn == 0x1E {
        ChipView { index: ((s.index + vx) % 0x10000) as u16, ..s }
    } else if f.nn == 0x29 {
        ChipView { index: (FONT_START + vx * 5) as u16, ..s }
    } else if f.nn == 0x33 {
        ChipView {
            memory: s.memory.update(i, vx / 100).update(i + 1, (vx / 10) % 10).update(i + 2, vx % 10),
            ..s
        }
    } else if f.nn == 0x55 {
        ChipView { memory: stored_registers(s, x), ..s }
    } else if f.nn == 0x65 {
        ChipView { registers: loaded_registers(s, x), ..s }
    } else {
        s
    }
}

/// What instruction `f` does to `s`, where the program counter of `s` has
/// already moved past it; `rnd` is the random byte that CXNN uses.
/// Combinations outside the instruction set change nothing.
pub open spec fn apply(s: ChipView, f: Fields, keys: Keypad, rnd: u8) -> ChipView {
    let x = f.x as int;
    let vx = s.registers[x];
    let vy = s.registers[f.y as int];
    if f.opcode == 0x0 {
        if f.nn == 0xE0 {
            ChipView { display: blank_display(), ..s }
        } else if f.nn == 0xEE {
            ChipView { pc: s.stack[s.sp as int], sp: (s.sp - 1) as u8, ..s }
        } else {
            s
        }
    } else if f.opcode == 0x1 {
        ChipView { pc: f.nnn, ..s }
    } else if f.opcode == 0x2 {
        ChipView { sp: (s.sp + 1) as u8, stack: s.stack.update(s.sp + 1, s.pc), pc: f.nnn, ..s }
    } else if f.opcode == 0x3 {
        skip_if(s, vx == f.nn)
    } else if f.opcode == 0x4 {
        skip_if(s, vx != f.nn)
    } else if f.opcode == 0x5 {
        skip_if(s, vx == vy)
    } else if f.opcode == 0x6 {
        with_register(s, x, f.nn)
    } else if f.opcode == 0x7 {
        with_register(s, x, ((vx + f.nn) % 256) as u8)
    } else if f.opcode == 0x8 {
        apply_alu(s, f)
    } else if f.opcode == 0x9 {
        skip_if(s, vx != vy)
    } else if f.opcode == 0xA {
        ChipView { index: f.nnn, ..s }
    } else if f.opcode == 0xB {
        ChipView { pc: (s.registers[0] + f.nnn) as u16, ..s }
    } else if f.opcode == 0xC {
        with_register(s, x, rnd & f.nn)
    } else if f.opcode == 0xD {
        apply_draw(s, f)
    } else if f.opcode == 0xE {
        apply_keys(s, f, keys)
    } else {
        apply_misc(s, f, keys)
    }
}

/// One fetch-decode-execute step from `s`: the next state, or the fault
/// that stops it, in which case the state does not change. The
/// instruction is the word at the program counter, which must leave room
/// for both its bytes.
pub open spec fn step_spec(s: ChipView, keys: Keypad, rnd: u8) -> Result<ChipView, Fault> {
    if s.pc + 1 >= MEMORY_SIZE {
        Err(Fault::AddressOutOfRange)
    } else {
        let f = fields_of(fetch_word(s));
        match fault_of(s, f) {
            Some(e) => Err(e),
            None => Ok(apply(ChipView { pc: (s.pc + 2) as u16, ..s }, f, keys, rnd)),
        }
    }
}

/// `r` and `after` are what a step from `before` gives: the next state
/// with `Ok`, or the fault with the state unchanged.
pub open spec fn step_outcome(
    before: ChipView,
    keys: Keypad,
    rnd: u8,
    r: Result<(), Fault>,
    after: ChipView,
) -> bool {
    match step_spec(before, keys, rnd) {
        Ok(s) => r is Ok && after == s,
        Err(e) => r == Err::<(), Fault>(e) && after == before,
    }
}

/// Whether pixel (`x`, `y`) comes before column `c` of sprite row `r` in
/// drawing order: rows top to bottom, each row left to right.
spec fn drawn_before(s: ChipView, f: Fields, x: int, y: int, r: int, c: int) -> bool {
    let x0 = (s.registers[f.x as int] % 64) as int;
    let y0 = (s.registers[f.y as int] % 32) as int;
    y < y0 + r || (y == y0 + r && x < x0 + c)
}

/// The display once the pixels before column `c` of sprite row `r` are drawn.
spec fn drawn_upto(s: ChipView, f: Fields, r: int, c: int) -> Seq<Seq<bool>> {
    Seq::new(
        DISPLAY_HEIGHT as nat,
        |y: int|
            Seq::new(
                DISPLAY_WIDTH as nat,
                |x: int|
                    if drawn_before(s, f, x, y, r, c) {
                        s.display[y][x] != sprite_hit(s, f, x, y)
                    } else {
                        s.display[y][x]
                    },
            ),
    )
}

/// Whether a lit pixel before column `c` of sprite row `r` is turned off.
spec fn collision_upto(s: ChipView, f: Fields, r: int, c: int) -> bool {
    exists|x: int, y: int|
        0 <= x < DISPLAY_WIDTH && 0 <= y < DISPLAY_HEIGHT && drawn_before(s, f, x, y, r, c) && s.display[y][x]
            && #[trigger] sprite_hit(s, f, x, y)
}

/// A step keeps the state well formed.
pub proof fn lemma_step_wf(s: ChipView, keys: Keypad, rnd: u8)
    requires
        s.wf(),
    ensures
        step_spec(s, keys, rnd) matches Ok(t) ==> t.wf(),
{
    if s.pc + 1 < MEMORY_SIZE {
        let f = fields_of(fetch_word(s));
        lemma_fields_of_wf(fetch_word(s));
        let t = ChipView { pc: (s.pc + 2) as u16, ..s };
        if fault_of(s, f) is None {
            let d = drawn(t, f);
            assert forall|y: int| 0 <= y < DISPLAY_HEIGHT implies #[trigger] d[y].len() == DISPLAY_WIDTH by {}
            assert forall|y: int| 0 <= y < DISPLAY_HEIGHT implies #[trigger] blank_display()[y].len() == DISPLAY_WIDTH by {}
        }
    }
}

/// Relies on rand's `thread_rng` and `Rng::gen_range`: a byte drawn
/// uniformly from the whole range, of which nothing more is known.
#[verifier::external_body]
fn random_byte() -> u8 {
    rand::thread_rng().gen_range(0u8..=255u8)
}

impl Chip {
    /// Executes one instruction, with `rnd` as the random byte for CXNN.
    /// On a fault the state is left as it was.
    pub fn step(&mut self, keys: &Keypad, rnd: u8) -> (r: Result<(), Fault>)
        requires
            old(self).wf(),
        ensures
            final(self).wf(),
            step_outcome(old(self)@, *keys, rnd, r, final(self)@),
    {
        proof {
            lemma_step_wf(self@, *keys, rnd);
        }
        let pc = self.pc();
        if pc as usize + 1 >= MEMORY_SIZE {
            return Err(Fault::AddressOutOfRange);
        }
        let word = ((self.memory_at(pc as usize) as u16) << 8u16) | (self.memory_at(pc as usize + 1) as u16);
        let f = decode(word);
        let sp = self.stack_pointer();
        let index = self.index() as usize;
        if f.opcode == 0x0 && f.nn == 0xEE && sp == 0 {
            return Err(Fault::StackUnderflow);
        } else if f.opcode == 0x2 && sp >= STACK_TOP {
            return Err(Fault::StackOverflow);
        } else if f.opcode == 0xD && index + f.n as usize > MEMORY_SIZE {
            return Err(Fault::AddressOutOfRange);
        } else if f.opcode == 0xF && f.nn == 0x33 && index + 3 > MEMORY_SIZE {
            return Err(Fault::AddressOutOfRange);
        } else if f.opcode == 0xF && (f.nn == 0x55 || f.nn == 0x65) && index + f.x as usize + 1 > MEMORY_SIZE {
            return Err(Fault::AddressOutOfRange);
        }
        let next = pc + 2;
        self.set_pc(next);
        let x = f.x as usize;
        let vx = self.register(x);
        let vy = self.register(f.y as usize);
        if f.opcode == 0x0 {
            if f.nn == 0xE0 {
                self.clear_display();
            } else if f.nn == 0xEE {
                let ret = self.stack_entry(sp as usize);
                self.set_pc(ret);
                self.set_stack_pointer(sp - 1);
            }
        } else if f.opcode == 0x1 {
            self.set_pc(f.nnn);
        } else if f.opcode == 0x2 {
            self.set_stack_pointer(sp + 1);
            self.set_stack_entry(sp as usize + 1, next);
            self.set_pc(f.nnn);
        } else if f.opcode == 0x3 {
            if vx == f.nn {
                self.set_pc(next + 2);
            }
        } else if f.opcode == 0x4 {
            if vx != f.nn {
                self.set_pc(next + 2);
            }
        } else if f.opcode == 0x5 {
            if vx == vy {
                self.set_pc(next + 2);
            }
        } else if f.opcode == 0x6 {
            self.set_register(x, f.nn);
        } else if f.opcode == 0x7 {
            self.set_register(x, vx.wrapping_add(f.nn));
        } else if f.opcode == 0x8 {
            self.exec_alu(&f);
        } else if f.opcode == 0x9 {
            if vx != vy {
                self.set_pc(next + 2);
            }
        } else if f.opcode == 0xA {
            self.set_index(f.nnn);
        } else if f.opcode == 0xB {
            self.set_pc(self.register(0) as u16 + f.nnn);
        } else if f.opcode == 0xC {
            self.set_register(x, rnd & f.nn);
        } else if f.opcode == 0xD {
            self.exec_draw(&f);
        } else if f.opcode == 0xE {
            self.exec_keys(&f, keys);
        } else {
            self.exec_misc(&f, keys);
        }
        Ok(())
    }

    /// Executes one instruction, drawing a random byte when it is CXNN.
    /// On a fault the state is left as it was.
    pub fn execute(&mut self, keys: &Keypad) -> (r: Result<(), Fault>)
        requires
            old(self).wf(),
        ensures
            final(self).wf(),
            exists|rnd: u8| step_outcome(old(self)@, *keys, rnd, r, final(self)@),
    {
        let pc = self.pc() as usize;
        let rnd = if pc + 1 < MEMORY_SIZE && self.memory_at(pc) >> 4u8 == 0xC {
            random_byte()
        } else {
            0
        };
        self.step(keys, rnd)
    }

    fn exec_alu(&mut self, f: &Fields)
        requires
            old(self).wf(),
            f.wf(),
        ensures
            final(self)@ == apply_alu(old(self)@, *f),
    {
        let x = f.x as usize;
        let vx = self.register(x);
        let vy = self.register(f.y as usize);
        if f.n == 0x0 {
            self.set_register(x, vy);
        } else if f.n == 0x1 {
            self.set_register(x, vx | vy);
        } else if f.n == 0x2 {
            self.set_register(x, vx & vy);
        } else if f.n == 0x3 {
            self.set_register(x, vx ^ vy);
        } else if f.n == 0x4 {
            let carry: u8 = if vx as u16 + vy as u16 > 255 { 1 } else { 0 };
            self.set_register(x, vx.wrapping_add(vy));
            self.set_register(FLAG_REGISTER, carry);
        } else if f.n == 0x5 {
            self.set_register(FLAG_REGISTER, if vx >= vy { 1 } else { 0 });
            self.set_register(x, vx.wrapping_sub(vy));
        } else if f.n == 0x6 {
            self.set_register(FLAG_REGISTER, vx & 1);
            self.set_register(x, vx >> 1u8);
        } else if f.n == 0x7 {
            self.set_register(FLAG_REGISTER, if vy >= vx { 1 } else { 0 });
            self.set_register(x, vy.wrapping_sub(vx));
        } else if f.n == 0xE {
            self.set_register(FLAG_REGISTER, vx >> 7u8);
            self.set_register(x, vx.wrapping_mul(2));
        }
    }

    fn exec_draw(&mut self, f: &Fields)
        requires
            old(self).wf(),
            f.wf(),
            old(self)@.index + f.n <= MEMORY_SIZE,
        ensures
            final(self)@ == apply_draw(old(self)@, *f),
    {
        let ghost s = self@;
        let x0 = (self.register(f.x as usize) % 64) as usize;
        let y0 = (self.register(f.y as usize) % 32) as usize;
        let i = self.index() as usize;
        let n = f.n as usize;
        let mut collided = false;
        let mut r: usize = 0;
        proof {
            assert(drawn_upto(s, *f, 0, 0) =~~= s.display);
        }
        while r < n && y0 + r < DISPLAY_HEIGHT
            invariant
                s == old(self)@,
                s.wf(),
                f.wf(),
                x0 == s.registers[f.x as int] % 64,
                y0 == s.registers[f.y as int] % 32,
                i == s.index,
                n == f.n,
                i + n <= MEMORY_SIZE,
                r <= n,
                self@ == (ChipView { display: drawn_upto(s, *f, r as int, 0), ..s }),
                collided == collision_upto(s, *f, r as int, 0),
            decreases n - r,
        {
            let y = y0 + r;
            let byte = self.memory_at(i + r);
            let mut row = self.display_row(y);
            let mut c: usize = 0;
            while c < 8 && x0 + c < DISPLAY_WIDTH
                invariant
                    s == old(self)@,
                    s.wf(),
                    f.wf(),
                    x0 == s.registers[f.x as int] % 64,
                    y0 == s.registers[f.y as int] % 32,
                    i == s.index,
                    n == f.n,
                    i + n <= MEMORY_SIZE,
                    r < n,
                    y == y0 + r < DISPLAY_HEIGHT,
                    byte == s.memory[i + r],
                    c <= 8,
                    row@ == drawn_upto(s, *f, r as int, c as int)[y as int],
                    collided == collision_upto(s, *f, r as int, c as int),
                decreases 8 - c,
            {
                let x = x0 + c;
                proof {
                    assert(sprite_hit(s, *f, x as int, y as int) == (byte & (0x80u8 >> (c as u8)) != 0));
                }
                if byte & (0x80u8 >> (c as u8)) != 0 {
                    if row[x] {
                        collided = true;
                    }
                    row[x] = !row[x];
                }
                proof {
                    assert(row@ =~= drawn_upto(s, *f, r as int, c + 1)[y as int]);
                    if collision_upto(s, *f, r as int, c + 1) {
                        let (wx, wy) = choose|wx: int, wy: int|
                            0 <= wx < DISPLAY_WIDTH && 0 <= wy < DISPLAY_HEIGHT && drawn_before(s, *f, wx, wy, r as int, c + 1)
                                && s.display[wy][wx] && #[trigger] sprite_hit(s, *f, wx, wy);
                        if wx != x || wy != y {
                            assert(drawn_before(s, *f, wx, wy, r as int, c as int));
                        }
                    }
                }
                c = c + 1;
            }
            proof {
                assert(row@ =~= drawn_upto(s, *f, r + 1, 0)[y as int]);
                assert forall|wx: int, wy: int| 0 <= wx < DISPLAY_WIDTH && 0 <= wy < DISPLAY_HEIGHT
                    && #[trigger] sprite_hit(s, *f, wx, wy) implies
                    drawn_before(s, *f, wx, wy, r + 1, 0) == drawn_before(s, *f, wx, wy, r as int, c as int) by {}
            }
            self.set_display_row(y, row);
            proof {
                assert(self@.display =~~= drawn_upto(s, *f, r + 1, 0));
            }
            r = r + 1;
        }
        proof {
            assert(drawn_upto(s, *f, r as int, 0) =~~= drawn(s, *f));
            assert forall|wx: int, wy: int| 0 <= wx < DISPLAY_WIDTH && 0 <= wy < DISPLAY_HEIGHT
                && #[trigger] sprite_hit(s, *f, wx, wy) implies drawn_before(s, *f, wx, wy, r as int, 0) by {}
        }
        self.set_register(FLAG_REGISTER, if collided { 1 } else { 0 });
    }

    fn exec_keys(&mut self, f: &Fields, keys: &Keypad)
        requires
            old(self).wf(),
            f.wf(),
            old(self)@.pc <= 0x1000,
        ensures
            final(self)@ == apply_keys(old(self)@, *f, *keys),
    {
        let vx = self.register(f.x as usize);
        if f.nn == 0x9E {
            if keys.is_down(vx) {
                self.set_pc(self.pc() + 2);
            }
        } else if f.nn == 0xA1 {
            if !keys.is_down(vx) {
                self.set_pc(self.pc() + 2);
            }
        }
    }

    fn exec_misc(&mut self, f: &Fields, keys: &Keypad)
        requires
            old(self).wf(),
            f.wf(),
            f.opcode == 0xF,
            old(self)@.pc >= 2,
            fault_of(old(self)@, *f) is None,
        ensures
            final(self)@ == apply_misc(old(self)@, *f, *keys),
    {
        let x = f.x as usize;
        let vx = self.register(x);
        let i = self.index() as usize;
        if f.nn == 0x07 {
            let d = self.delay_timer();
            self.set_register(x, d);
        } else if f.nn == 0x0A {
            match keys.last_pressed {
                Some(k) => self.set_register(x, k),
                None => self.set_pc(self.pc() - 2),
            }
        } else if f.nn == 0x15 {
            self.set_delay_timer(vx);
        } else if f.nn == 0x18 {
            self.set_sound_timer(vx);
        } else if f.nn == 0x1E {
            self.set_index(self.index().wrapping_add(vx as u16));
        } else if f.nn == 0x29 {
            self.set_index(FONT_START as u16 + vx as u16 * 5);
        } else if f.nn == 0x33 {
            self.write_memory(i, vx / 100);
            self.write_memory(i + 1, (vx / 10) % 10);
            self.write_memory(i + 2, vx % 10);
        } else if f.nn == 0x55 {
            self.store_registers(x);
        } else if f.nn == 0x65 {
            self.load_registers(x);
        }
    }

    fn store_registers(&mut self, x: usize)
        requires
            old(self).wf(),
            x < 16,
            old(self)@.index + x < MEMORY_SIZE,
        ensures
            final(self)@ == (ChipView { memory: stored_registers(old(self)@, x as int), ..old(self)@ }),
    {
        let i = self.index() as usize;
        let mut k: usize = 0;
        proof {
            assert(stored_registers(old(self)@, -1) =~= old(self)@.memory);
        }
        while k <= x
            invariant
                k <= x + 1,
                x < 16,
                i == old(self)@.index,
                i + x < MEMORY_SIZE,
                self@ == (ChipView { memory: stored_registers(old(self)@, k - 1), ..old(self)@ }),
            decreases x + 1 - k,
        {
            let v = self.register(k);
            self.write_memory(i + k, v);
            proof {
                assert(stored_registers(old(self)@, k - 1).update(i + k, v) =~= stored_registers(old(self)@, k as int));
            }
            k = k + 1;
        }
    }

    fn load_registers(&mut self, x: usize)
        requires
            old(self).wf(),
            x < 16,
            old(self)@.index + x < MEMORY_SIZE,
        ensures
            final(self)@ == (ChipView { registers: loaded_registers(old(self)@, x as int), ..old(self)@ }),
    {
        let i = self.index() as usize;
        let mut k: usize = 0;
        proof {
            assert(loaded_registers(old(self)@, -1) =~= old(self)@.registers);
        }
        while k <= x
            invariant
                k <= x + 1,
                x < 16,
                i == old(self)@.index,
                i + x < MEMORY_SIZE,
                self@ == (ChipView { registers: loaded_registers(old(self)@, k - 1), ..old(self)@ }),
            decreases x + 1 - k,
        {
            let v = self.memory_at(i + k);
            self.set_register(k, v);
            proof {
                assert(loaded_registers(old(self)@, k - 1).update(k as int, v) =~= loaded_registers(old(self)@, k as int));
            }
            k = k + 1;
        }
    }
}

} // verus!
