//! Facts about sequences of instructions, proved from the step semantics.

use vstd::prelude::*;
use crate::decode::{fields_of, op_xnn, op_nnn, op_xyn, lemma_fields_xnn, lemma_fields_nnn, lemma_fields_xyn};
use crate::machine::{ChipView, Fault, Keypad, MEMORY_SIZE, DISPLAY_WIDTH, DISPLAY_HEIGHT, FLAG_REGISTER, STACK_TOP};
use crate::cpu::{step_spec, fetch_word, word_at, with_register, sprite_hit, collision, drawn, apply_draw};

verus! {

/// After a clear-screen instruction (00E0) every pixel is off, whatever
/// the display held before.
pub proof fn lemma_clear_screen(s: ChipView, keys: Keypad, rnd: u8)
    requires
        s.wf(),
        s.pc + 1 < MEMORY_SIZE,
        fetch_word(s) == 0x00E0,
    ensures
        step_spec(s, keys, rnd) matches Ok(t) && forall|x: int, y: int|
            0 <= x < DISPLAY_WIDTH && 0 <= y < DISPLAY_HEIGHT ==> !#[trigger] t.display[y][x],
{
    lemma_fields_nnn(0, 0xE0);
}

/// Setting VX to NN (6XNN), copying VX into the delay timer (FX15) and
/// reading the delay timer into VY (FY07) leaves NN in both the delay
/// timer and VY.
pub proof fn lemma_delay_timer_round_trip(s0: ChipView, keys: Keypad, rnd: u8, x: u8, nn: u8, y: u8)
    requires
        s0.wf(),
        x < 16,
        y < 16,
        s0.pc + 5 < MEMORY_SIZE,
        word_at(s0, s0.pc as int) == op_xnn(0x6, x, nn),
        word_at(s0, s0.pc + 2) == op_xnn(0xF, x, 0x15),
        word_at(s0, s0.pc + 4) == op_xnn(0xF, y, 0x07),
    ensures
        step_spec(s0, keys, rnd) matches Ok(s1) && (step_spec(s1, keys, rnd) matches Ok(s2) && (step_spec(s2, keys, rnd) matches Ok(s3)
            && s2.delay_timer == nn && s3.registers[y as int] == nn)),
{
    lemma_fields_xnn(0x6, x, nn);
    lemma_fields_xnn(0xF, x, 0x15);
    lemma_fields_xnn(0xF, y, 0x07);
}

/// A call (2NNN) to a return (00EE) comes back to the instruction after
/// the call, with the stack pointer as it was.
pub proof fn lemma_call_then_return(s0: ChipView, keys: Keypad, rnd: u8, nnn: u16)
    requires
        s0.wf(),
        s0.pc + 1 < MEMORY_SIZE,
        nnn + 1 < MEMORY_SIZE,
        s0.sp < STACK_TOP,
        fetch_word(s0) == op_nnn(0x2, nnn),
        word_at(s0, nnn as int) == 0x00EE,
    ensures
        step_spec(s0, keys, rnd) matches Ok(s1) && (step_spec(s1, keys, rnd) matches Ok(s2) && s1.pc == nnn && s1.sp
            == s0.sp + 1 && s2.pc == s0.pc + 2 && s2.sp == s0.sp),
{
    lemma_fields_nnn(0x2, nnn);
    lemma_fields_nnn(0x0, 0xEE);
}

/// While no key press has been observed, a wait-for-key instruction (FX0A)
/// leaves the whole state as it was, so the same instruction comes next;
/// once key K is observed, VX becomes K and execution moves on.
pub proof fn lemma_wait_for_key(s: ChipView, keys: Keypad, rnd: u8, x: u8)
    requires
        s.wf(),
        x < 16,
        s.pc + 1 < MEMORY_SIZE,
        fetch_word(s) == op_xnn(0xF, x, 0x0A),
    ensures
        step_spec(s, keys, rnd) matches Ok(t) && (keys.last_pressed is None ==> t == s) && (keys.last_pressed matches Some(k)
            ==> t == with_register(ChipView { pc: (s.pc + 2) as u16, ..s }, x as int, k)),
{
    lemma_fields_xnn(0xF, x, 0x0A);
}

/// Whether pixel (`px`, `py`) lies in the 8 by `n` box at which a draw
/// with registers X and Y places its sprite.
pub open spec fn in_sprite_box(s: ChipView, x: u8, y: u8, n: u8, px: int, py: int) -> bool {
    let x0 = (s.registers[x as int] % 64) as int;
    let y0 = (s.registers[y as int] % 32) as int;
    x0 <= px < x0 + 8 && y0 <= py < y0 + n
}

/// Drawing a sprite (DXYN) where every pixel of its box is off turns on
/// exactly its set bits there and leaves VF at 0.
pub proof fn lemma_draw_on_blank(s: ChipView, keys: Keypad, rnd: u8, x: u8, y: u8, n: u8)
    requires
        s.wf(),
        x < 16,
        y < 16,
        n < 16,
        s.pc + 1 < MEMORY_SIZE,
        s.index + n <= MEMORY_SIZE,
        fetch_word(s) == op_xyn(0xD, x, y, n),
        forall|px: int, py: int|
            0 <= px < DISPLAY_WIDTH && 0 <= py < DISPLAY_HEIGHT && #[trigger] in_sprite_box(s, x, y, n, px, py)
                ==> !s.display[py][px],
    ensures
        step_spec(s, keys, rnd) matches Ok(t) && t.registers[FLAG_REGISTER as int] == 0 && forall|px: int, py: int|
            0 <= px < DISPLAY_WIDTH && 0 <= py < DISPLAY_HEIGHT && #[trigger] in_sprite_box(s, x, y, n, px, py)
                ==> t.display[py][px] == sprite_hit(s, fields_of(fetch_word(s)), px, py),
{
    lemma_fields_xyn(0xD, x, y, n);
    let f = fields_of(fetch_word(s));
    let a = ChipView { pc: (s.pc + 2) as u16, ..s };
    assert(step_spec(s, keys, rnd) == Ok::<ChipView, Fault>(apply_draw(a, f)));
    assert forall|px: int, py: int| #[trigger] sprite_hit(a, f, px, py) implies sprite_hit(s, f, px, py)
        && in_sprite_box(s, x, y, n, px, py) by {}
    assert(!collision(a, f));
    let t = apply_draw(a, f);
    assert forall|px: int, py: int|
        0 <= px < DISPLAY_WIDTH && 0 <= py < DISPLAY_HEIGHT && #[trigger] in_sprite_box(s, x, y, n, px, py)
            implies t.display[py][px] == sprite_hit(s, f, px, py) by {
        assert(sprite_hit(a, f, px, py) == sprite_hit(s, f, px, py));
    }
}

/// Drawing the same sprite twice (DXYN, then DXYN again) gives back the
/// display as it was. If the sprite's box was all off and the sprite has a
/// set bit on screen, the second draw turns those pixels off again and
/// sets VF to 1.
pub proof fn lemma_draw_twice(s0: ChipView, keys: Keypad, rnd: u8, x: u8, y: u8, n: u8)
    requires
        s0.wf(),
        x < 15,
        y < 15,
        n < 16,
        s0.pc + 3 < MEMORY_SIZE,
        s0.index + n <= MEMORY_SIZE,
        word_at(s0, s0.pc as int) == op_xyn(0xD, x, y, n),
        word_at(s0, s0.pc + 2) == op_xyn(0xD, x, y, n),
    ensures
        step_spec(s0, keys, rnd) matches Ok(s1) && (step_spec(s1, keys, rnd) matches Ok(s2) && s2.display == s0.display && (
        (forall|px: int, py: int|
            0 <= px < DISPLAY_WIDTH && 0 <= py < DISPLAY_HEIGHT && #[trigger] in_sprite_box(s0, x, y, n, px, py)
                ==> !s0.display[py][px]) && (exists|px: int, py: int|
            0 <= px < DISPLAY_WIDTH && 0 <= py < DISPLAY_HEIGHT && #[trigger] sprite_hit(s0, fields_of(fetch_word(s0)), px, py))
            ==> s2.registers[FLAG_REGISTER as int] == 1)),
{
    lemma_fields_xyn(0xD, x, y, n);
    let f = fields_of(fetch_word(s0));
    let a0 = ChipView { pc: (s0.pc + 2) as u16, ..s0 };
    let s1 = apply_draw(a0, f);
    assert(step_spec(s0, keys, rnd) == Ok::<ChipView, Fault>(s1));
    assert(fetch_word(s1) == fetch_word(s0));
    let a1 = ChipView { pc: (s1.pc + 2) as u16, ..s1 };
    let s2 = apply_draw(a1, f);
    assert(step_spec(s1, keys, rnd) == Ok::<ChipView, Fault>(s2));
    assert forall|px: int, py: int| #[trigger] sprite_hit(a1, f, px, py) == sprite_hit(s0, f, px, py)
        && sprite_hit(a0, f, px, py) == sprite_hit(s0, f, px, py) by {}
    assert forall|py: int| 0 <= py < DISPLAY_HEIGHT implies #[trigger] s2.display[py] =~= s0.display[py] by {
        assert forall|px: int| 0 <= px < DISPLAY_WIDTH implies s2.display[py][px] == s0.display[py][px] by {
            assert(sprite_hit(a1, f, px, py) == sprite_hit(s0, f, px, py));
            assert(sprite_hit(a0, f, px, py) == sprite_hit(s0, f, px, py));
        }
    }
    assert(s2.display =~= s0.display);
    if (forall|px: int, py: int|
        0 <= px < DISPLAY_WIDTH && 0 <= py < DISPLAY_HEIGHT && #[trigger] in_sprite_box(s0, x, y, n, px, py)
            ==> !s0.display[py][px]) && (exists|px: int, py: int|
        0 <= px < DISPLAY_WIDTH && 0 <= py < DISPLAY_HEIGHT && #[trigger] sprite_hit(s0, f, px, py)) {
        let (px, py) = choose|px: int, py: int|
            0 <= px < DISPLAY_WIDTH && 0 <= py < DISPLAY_HEIGHT && #[trigger] sprite_hit(s0, f, px, py);
        assert(in_sprite_box(s0, x, y, n, px, py));
        assert(sprite_hit(a0, f, px, py));
        assert(a1.display[py][px]);
        assert(sprite_hit(a1, f, px, py));
        assert(collision(a1, f));
    }
}

} // verus!
