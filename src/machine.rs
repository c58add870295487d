//! The machine state: memory, display, registers, stack and timers, and
//! the keypad that the interpreter reads.

use vstd::prelude::*;

verus! {

/// Bytes of addressable memory.
pub const MEMORY_SIZE: usize = 4096;

/// Display width in pixels.
pub const DISPLAY_WIDTH: usize = 64;

/// Display height in pixels.
pub const DISPLAY_HEIGHT: usize = 32;

/// Address of the first font glyph.
pub const FONT_START: usize = 0x50;

/// Address at which a program is loaded and execution starts.
pub const PROGRAM_START: usize = 0x200;

/// The largest program that fits between `PROGRAM_START` and the end of memory.
pub const MAX_ROM_SIZE: usize = 3584;

/// Index of the register that arithmetic, shift and draw opcodes use as
/// their flag output.
pub const FLAG_REGISTER: usize = 15;

/// Deepest stack pointer value: a call with the pointer here overflows.
pub const STACK_TOP: u8 = 15;

/// Conditions under which the machine cannot go on.
#[derive(Clone, Copy, Debug, PartialEq, Eq, Structural)]
pub enum Fault {
    /// The program does not fit in memory above `PROGRAM_START`.
    RomTooLarge,
    /// A call was made with the stack already full.
    StackOverflow,
    /// A return was made with the stack empty.
    StackUnderflow,
    /// An instruction would read or write past the end of memory.
    AddressOutOfRange,
}

/// The hex keypad as the input side observes it.
#[derive(Clone, Copy, Debug, PartialEq, Eq)]
pub struct Keypad {
    /// `down[k]` holds whether hex key `k` is held down.
    pub down: [bool; 16],
    /// The key seen pressed most recently, if any.
    pub last_pressed: Option<u8>,
}

/// Whether key `k` is held down; a value above 0xF names no key and is
/// never down.
pub open spec fn key_is_down(keys: Keypad, k: u8) -> bool {
    k < 16 && keys.down@[k as int]
}

impl Keypad {
    /// A keypad with no key down and nothing pressed.
    pub fn new() -> (r: Keypad)
        ensures
            forall|k: u8| !key_is_down(r, k),
            r.last_pressed is None,
    {
        Keypad { down: [false; 16], last_pressed: None }
    }

    /// Whether key `k` is held down.
    pub fn is_down(&self, k: u8) -> (r: bool)
        ensures
            r == key_is_down(*self, k),
    {
        k < 16 && self.down[k as usize]
    }
}

/// The built-in glyphs for the hex digits 0 to F, five bytes each.
pub open spec fn font() -> Seq<u8> {
    seq![
        0xF0u8, 0x90, 0x90, 0x90, 0xF0,
        0x20, 0x60, 0x20, 0x20, 0x70,
        0xF0, 0x10, 0xF0, 0x80, 0xF0,
        0xF0, 0x10, 0xF0, 0x10, 0xF0,
        0x90, 0x90, 0xF0, 0x10, 0x10,
        0xF0, 0x80, 0xF0, 0x10, 0xF0,
        0xF0, 0x80, 0xF0, 0x90, 0xF0,
        0xF0, 0x10, 0x20, 0x40, 0x40,
        0xF0, 0x90, 0xF0, 0x90, 0xF0,
        0xF0, 0x90, 0xF0, 0x10, 0xF0,
        0xF0, 0x90, 0xF0, 0x90, 0x90,
        0xE0, 0x90, 0xE0, 0x90, 0xE0,
        0xF0, 0x80, 0x80, 0x80, 0xF0,
        0xE0, 0x90, 0x90, 0x90, 0xE0,
        0xF0, 0x80, 0xF0, 0x80, 0xF0,
        0xF0, 0x80, 0xF0, 0x80, 0x80,
    ]
}

fn font_bytes() -> (r: [u8; 80])
    ensures
        r@ == font(),
{
    let r: [u8; 80] = [
        0xF0, 0x90, 0x90, 0x90, 0xF0,
        0x20, 0x60, 0x20, 0x20, 0x70,
        0xF0, 0x10, 0xF0, 0x80, 0xF0,
        0xF0, 0x10, 0xF0, 0x10, 0xF0,
        0x90, 0x90, 0xF0, 0x10, 0x10,
        0xF0, 0x80, 0xF0, 0x10, 0xF0,
        0xF0, 0x80, 0xF0, 0x90, 0xF0,
        0xF0, 0x10, 0x20, 0x40, 0x40,
        0xF0, 0x90, 0xF0, 0x90, 0xF0,
        0xF0, 0x90, 0xF0, 0x10, 0xF0,
        0xF0, 0x90, 0xF0, 0x90, 0x90,
        0xE0, 0x90, 0xE0, 0x90, 0xE0,
        0xF0, 0x80, 0x80, 0x80, 0xF0,
        0xE0, 0x90, 0x90, 0x90, 0xE0,
        0xF0, 0x80, 0xF0, 0x80, 0xF0,
        0xF0, 0x80, 0xF0, 0x80, 0x80,
    ];
    assert(r@ =~= font());
    r
}

/// The machine state as values: what the contracts speak of.
pub struct ChipView {
    pub memory: Seq<u8>,
    /// Rows top to bottom, each row left to right.
    pub display: Seq<Seq<bool>>,
    pub registers: Seq<u8>,
    pub stack: Seq<u16>,
    /// Stack pointer: 0 when the stack is empty, else the slot of the
    /// most recent return address.
    pub sp: u8,
    pub pc: u16,
    pub index: u16,
    pub delay_timer: u8,
    pub sound_timer: u8,
}

impl ChipView {
    /// Every container has its fixed size and the stack pointer is in range.
    pub open spec fn wf(self) -> bool {
        &&& self.memory.len() == MEMORY_SIZE
        &&& self.display.len() == DISPLAY_HEIGHT
        &&& forall|y: int| 0 <= y < DISPLAY_HEIGHT ==> #[trigger] self.display[y].len() == DISPLAY_WIDTH
        &&& self.registers.len() == 16
        &&& self.stack.len() == 16
        &&& self.sp <= STACK_TOP
    }

    /// The state right after loading `rom`.
    pub open spec fn initial(self, rom: Seq<u8>) -> bool {
        &&& self.wf()
        &&& forall|a: int| 0 <= a < MEMORY_SIZE ==> #[trigger] self.memory[a] == initial_byte(rom, a)
        &&& forall|y: int, x: int| 0 <= y < DISPLAY_HEIGHT && 0 <= x < DISPLAY_WIDTH
            ==> !#[trigger] self.display[y][x]
        &&& forall|i: int| 0 <= i < 16 ==> #[trigger] self.registers[i] == 0
        &&& forall|i: int| 0 <= i < 16 ==> #[trigger] self.stack[i] == 0
        &&& self.sp == 0
        &&& self.pc == PROGRAM_START
        &&& self.index == 0
        &&& self.delay_timer == 0
        &&& self.sound_timer == 0
    }
}

/// What memory holds at address `a` after loading `rom`: the font at
/// `FONT_START`, the program at `PROGRAM_START`, zero elsewhere.
pub open spec fn initial_byte(rom: Seq<u8>, a: int) -> u8 {
    if FONT_START <= a < FONT_START + 80 {
        font()[a - FONT_START]
    } else if PROGRAM_START <= a < PROGRAM_START + rom.len() {
        rom[a - PROGRAM_START]
    } else {
        0
    }
}

/// A display with every pixel off.
pub open spec fn blank_display() -> Seq<Seq<bool>> {
    Seq::new(DISPLAY_HEIGHT as nat, |y: int| Seq::new(DISPLAY_WIDTH as nat, |x: int| false))
}

/// A CHIP-8 machine.
pub struct Chip {
    pub(crate) memory: [u8; 4096],
    pub(crate) display: [[bool; 64]; 32],
    pub(crate) registers: [u8; 16],
    pub(crate) stack: [u16; 16],
    pub(crate) sp: u8,
    pub(crate) pc: u16,
    pub(crate) index: u16,
    pub(crate) delay_timer: u8,
    pub(crate) sound_timer: u8,
}

impl View for Chip {
    type V = ChipView;

    closed spec fn view(&self) -> ChipView {
        ChipView {
            memory: self.memory@,
            display: self.display@.map_values(|row: [bool; 64]| row@),
            registers: self.registers@,
            stack: self.stack@,
            sp: self.sp,
            pc: self.pc,
            index: self.index,
            delay_timer: self.delay_timer,
            sound_timer: self.sound_timer,
        }
    }
}

impl Chip {
    proof fn lemma_sizes(&self)
        ensures
            self@.memory.len() == MEMORY_SIZE,
            self@.display.len() == DISPLAY_HEIGHT,
            forall|y: int| 0 <= y < DISPLAY_HEIGHT ==> #[trigger] self@.display[y] == self.display@[y]@,
            forall|y: int| 0 <= y < DISPLAY_HEIGHT ==> #[trigger] self@.display[y].len() == DISPLAY_WIDTH,
            self@.registers.len() == 16,
            self@.stack.len() == 16,
    {
        assert forall|y: int| 0 <= y < DISPLAY_HEIGHT implies #[trigger] self@.display[y].len() == DISPLAY_WIDTH by {
            assert(self@.display[y] == self.display@[y]@);
        }
    }

    pub(crate) fn set_register(&mut self, i: usize, v: u8)
        requires
            i < 16,
        ensures
            final(self)@ == (ChipView { registers: old(self)@.registers.update(i as int, v), ..old(self)@ }),
    {
        self.registers[i] = v;
    }

    pub(crate) fn write_memory(&mut self, a: usize, v: u8)
        requires
            a < MEMORY_SIZE,
        ensures
            final(self)@ == (ChipView { memory: old(self)@.memory.update(a as int, v), ..old(self)@ }),
    {
        self.memory[a] = v;
    }

    pub(crate) fn set_stack_entry(&mut self, i: usize, v: u16)
        requires
            i < 16,
        ensures
            final(self)@ == (ChipView { stack: old(self)@.stack.update(i as int, v), ..old(self)@ }),
    {
        self.stack[i] = v;
    }

    pub(crate) fn set_stack_pointer(&mut self, v: u8)
        ensures
            final(self)@ == (ChipView { sp: v, ..old(self)@ }),
    {
        self.sp = v;
    }

    pub(crate) fn set_pc(&mut self, v: u16)
        ensures
            final(self)@ == (ChipView { pc: v, ..old(self)@ }),
    {
        self.pc = v;
    }

    pub(crate) fn set_index(&mut self, v: u16)
        ensures
            final(self)@ == (ChipView { index: v, ..old(self)@ }),
    {
        self.index = v;
    }

    pub(crate) fn set_delay_timer(&mut self, v: u8)
        ensures
            final(self)@ == (ChipView { delay_timer: v, ..old(self)@ }),
    {
        self.delay_timer = v;
    }

    pub(crate) fn set_sound_timer(&mut self, v: u8)
        ensures
            final(self)@ == (ChipView { sound_timer: v, ..old(self)@ }),
    {
        self.sound_timer = v;
    }

    pub(crate) fn display_row(&self, y: usize) -> (row: [bool; 64])
        requires
            y < DISPLAY_HEIGHT,
        ensures
            row@ == self@.display[y as int],
    {
        self.display[y]
    }

    pub(crate) fn set_display_row(&mut self, y: usize, row: [bool; 64])
        requires
            y < DISPLAY_HEIGHT,
        ensures
            final(self)@ == (ChipView { display: old(self)@.display.update(y as int, row@), ..old(self)@ }),
    {
        self.display[y] = row;
        proof {
            assert(self@.display =~= old(self)@.display.update(y as int, row@));
        }
    }

    /// Sets every pixel off.
    pub(crate) fn clear_display(&mut self)
        ensures
            final(self)@ == (ChipView { display: blank_display(), ..old(self)@ }),
    {
        self.display = [[false; 64]; 32];
        proof {
            assert forall|y: int| 0 <= y < DISPLAY_HEIGHT implies #[trigger] self@.display[y] =~= blank_display()[y] by {
                assert(self@.display[y] == self.display@[y]@);
            }
            assert(self@.display =~= blank_display());
        }
    }

    /// Whether the state is well formed.
    pub open spec fn wf(&self) -> bool {
        self@.wf()
    }

    /// Decrements each timer that is above zero; a timer at zero stays there.
    /// Returns whether the sound timer has just gone from 1 to 0, the edge at
    /// which a tone stops.
    pub fn tick_timers(&mut self) -> (sound_stopped: bool)
        requires
            old(self).wf(),
        ensures
            final(self)@ == (ChipView {
                delay_timer: if old(self)@.delay_timer > 0 { (old(self)@.delay_timer - 1) as u8 } else { 0 },
                sound_timer: if old(self)@.sound_timer > 0 { (old(self)@.sound_timer - 1) as u8 } else { 0 },
                ..old(self)@
            }),
            final(self).wf(),
            sound_stopped == (old(self)@.sound_timer == 1),
    {
        proof {
            self.lemma_sizes();
        }
        if self.delay_timer > 0 {
            self.delay_timer = self.delay_timer - 1;
        }
        let sound_stopped = self.sound_timer == 1;
        if self.sound_timer > 0 {
            self.sound_timer = self.sound_timer - 1;
        }
        sound_stopped
    }

    /// Whether a tone should sound: the sound timer is above zero.
    pub fn sound_active(&self) -> (r: bool)
        ensures
            r == (self@.sound_timer > 0),
    {
        self.sound_timer > 0
    }

    /// The pixel in column `x` of row `y`.
    pub fn pixel(&self, x: usize, y: usize) -> (on: bool)
        requires
            x < DISPLAY_WIDTH,
            y < DISPLAY_HEIGHT,
        ensures
            on == self@.display[y as int][x as int],
    {
        proof {
            self.lemma_sizes();
        }
        self.display[y][x]
    }

    /// Register `i`.
    pub fn register(&self, i: usize) -> (v: u8)
        requires
            i < 16,
        ensures
            v == self@.registers[i as int],
    {
        self.registers[i]
    }

    /// The flag register VF.
    pub fn flag(&self) -> (v: u8)
        ensures
            v == self@.registers[FLAG_REGISTER as int],
    {
        self.registers[FLAG_REGISTER]
    }

    /// The byte at address `a`.
    pub fn memory_at(&self, a: usize) -> (v: u8)
        requires
            a < MEMORY_SIZE,
        ensures
            v == self@.memory[a as int],
    {
        self.memory[a]
    }

    /// All of memory.
    pub fn memory(&self) -> (m: &[u8; 4096])
        ensures
            m@ == self@.memory,
    {
        &self.memory
    }

    /// Stack slot `i`.
    pub fn stack_entry(&self, i: usize) -> (v: u16)
        requires
            i < 16,
        ensures
            v == self@.stack[i as int],
    {
        self.stack[i]
    }

    /// The program counter.
    pub fn pc(&self) -> (v: u16)
        ensures
            v == self@.pc,
    {
        self.pc
    }

    /// The index register.
    pub fn index(&self) -> (v: u16)
        ensures
            v == self@.index,
    {
        self.index
    }

    /// The stack pointer.
    pub fn stack_pointer(&self) -> (v: u8)
        ensures
            v == self@.sp,
    {
        self.sp
    }

    /// The delay timer.
    pub fn delay_timer(&self) -> (v: u8)
        ensures
            v == self@.delay_timer,
    {
        self.delay_timer
    }

    /// The sound timer.
    pub fn sound_timer(&self) -> (v: u8)
        ensures
            v == self@.sound_timer,
    {
        self.sound_timer
    }
}

/// Builds a machine with the font and `rom` loaded and execution about to
/// start at `PROGRAM_START`; fails with `RomTooLarge` when `rom` is longer
/// than `MAX_ROM_SIZE`.
pub fn init_cpu(rom: &[u8]) -> (r: Result<Chip, Fault>)
    ensures
        rom@.len() > MAX_ROM_SIZE ==> r == Err::<Chip, Fault>(Fault::RomTooLarge),
        rom@.len() <= MAX_ROM_SIZE ==> (r matches Ok(c) && c@.initial(rom@)),
{
    if rom.len() > MAX_ROM_SIZE {
        return Err(Fault::RomTooLarge);
    }
    let mut memory = [0u8; 4096];
    let glyphs = font_bytes();
    let mut i: usize = 0;
    while i < 80
        invariant
            i <= 80,
            glyphs@ == font(),
            forall|a: int| 0 <= a < MEMORY_SIZE ==> #[trigger] memory@[a] == (
                if FONT_START <= a < FONT_START + i { font()[a - FONT_START] } else { 0 }),
        decreases 80 - i,
    {
        memory[FONT_START + i] = glyphs[i];
        i = i + 1;
    }
    let mut j: usize = 0;
    while j < rom.len()
        invariant
            j <= rom@.len() <= MAX_ROM_SIZE,
            forall|a: int| 0 <= a < MEMORY_SIZE ==> #[trigger] memory@[a] == (
                if PROGRAM_START <= a < PROGRAM_START + j { rom@[a - PROGRAM_START] }
                else if FONT_START <= a < FONT_START + 80 { font()[a - FONT_START] }
                else { 0 }),
        decreases rom@.len() - j,
    {
        memory[PROGRAM_START + j] = rom[j];
        j = j + 1;
    }
    let chip = Chip {
        memory,
        display: [[false; 64]; 32],
        registers: [0u8; 16],
        stack: [0u16; 16],
        sp: 0,
        pc: PROGRAM_START as u16,
        index: 0,
        delay_timer: 0,
        sound_timer: 0,
    };
    proof {
        chip.lemma_sizes();
    }
    Ok(chip)
}

/// How a memory dump marks a byte.
#[derive(Clone, Copy, Debug, PartialEq, Eq, Structural)]
pub enum CellKind {
    /// The byte is zero.
    Zero,
    /// A nonzero byte in the program area, at or above `PROGRAM_START`.
    Program,
    /// A nonzero byte below `PROGRAM_START`, in the interpreter's area.
    Reserved,
}

/// The mark of byte `value` at address `addr` in a memory dump.
pub fn classify_cell(addr: usize, value: u8) -> (k: CellKind)
    ensures
        value == 0 <==> k == CellKind::Zero,
        value != 0 && addr >= PROGRAM_START <==> k == CellKind::Program,
        value != 0 && addr < PROGRAM_START <==> k == CellKind::Reserved,
{
    if value == 0 {
        CellKind::Zero
    } else if addr >= PROGRAM_START {
        CellKind::Program
    } else {
        CellKind::Reserved
    }
}

} // verus!
