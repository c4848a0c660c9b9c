//! The executable interpreter.
//!
//! The architecture has no notion of a trapped error, so three situations are
//! settled here. An instruction that would fetch, read or write past the last
//! byte of memory, a return with no call in progress, a seventeenth nested
//! call, and a key test on a key above 0xF are faults: nothing is wrapped
//! round or clamped. [`Chip8::cycle`] asks its caller to rule a fault out,
//! [`Chip8::fault`] tells whether there is one, and [`Chip8::step`] does both
//! and leaves the machine untouched where there is. A program that does not
//! fit between the entry point and the end of memory is refused as a whole.

use crate::model::{
    MAX_PROGRAM_SIZE, PROGRAM_START, STACK_DEPTH, address, alu, drawn, erases_any, family, first_pressed, flag, lemma_sprite_cell, lemma_sprite_position_range, low_byte, nibble, reg_x, reg_y, sprite_at, sprite_bit,
    sprite_cell, sprite_col, sprite_covers, sprite_erases, sprite_row, Fault, LoadError, State,
};
use rand::rngs::ThreadRng;
use rand::Rng;
use vstd::prelude::*;

verus! {

/// The built-in font: sixteen glyphs of five rows each, for the digits 0 to F.
pub const CHIP_8_FONT_SET: [u8; 80] = [
    0xF0, 0x90, 0x90, 0x90, 0xF0,
    0x20, 0x60, 0x20, 0x20, 0x70,
    0xF0, 0x10, 0xF0, 0x80, 0xF0,
    0xF0, 0x10, 0xF0, 0x10, 0xF0,
    0x90, 0x90, 0xF0, 0x10, 0x10,
    0xF0, 0x80, 0xF0, 0x10, 0xF0,
    0xF0, 0x80, 0xF0, 0x90, 0xF0,
    0xF0, 0x10, 0x20, 0x40, 0x40,
    0xF0, 0x90, 0xF0, 0x90, 0xF0,
    0xF0, 0x90, 0xF0, 0x10, 0xF0,
    0xF0, 0x90, 0xF0, 0x90, 0x90,
    0xE0, 0x90, 0xE0, 0x90, 0xE0,
    0xF0, 0x80, 0x80, 0x80, 0xF0,
    0xE0, 0x90, 0x90, 0x90, 0xE0,
    0xF0, 0x80, 0xF0, 0x80, 0xF0,
    0xF0, 0x80, 0xF0, 0x80, 0x80,
];

/// `rand::rngs::ThreadRng`, the handle to the thread-local generator. Nothing
/// inside it is visible to the proofs.
#[verifier::external_type_specification]
#[verifier::external_body]
pub struct ExThreadRng(rand::rngs::ThreadRng);

/// `rand::thread_rng`: hands out a handle to the thread-local generator.
/// Nothing is claimed of the handle. The call fails only where the operating
/// system cannot seed the generator.
pub assume_specification[ rand::thread_rng ]() -> (rng: ThreadRng)
;

/// `rand::Rng::gen::<u8>` on the thread-local generator: draws one byte.
/// Nothing is claimed of the byte: any value may come back, and two draws may
/// differ.
#[verifier::external_body]
fn random_byte(rng: &mut ThreadRng) -> (byte: u8) {
    rng.gen::<u8>()
}

/// The operand fields of an instruction word.
struct Fields {
    family: u8,
    x: usize,
    y: usize,
    n: usize,
    nn: u8,
    nnn: u16,
}

/// What shifting and masking an instruction word gives, as quotients and remainders.
proof fn lemma_fields(op: u16)
    by (bit_vector)
    ensures
        op >> 12 == op / 4096,
        (op & 0x0F00) >> 8 == (op / 256) % 16,
        (op & 0x00F0) >> 4 == (op / 16) % 16,
        op & 0x000F == op % 16,
        op & 0x00FF == op % 256,
        op & 0x0FFF == op % 4096,
{
}

/// Joining two bytes into a word, the first byte on top.
proof fn lemma_join(hi: u8, lo: u8)
    by (bit_vector)
    ensures
        ((hi as u16) << 8) | (lo as u16) == hi as u16 * 256 + lo as u16,
{
}

/// Splits an instruction word into its fields.
fn decode(op: u16) -> (d: Fields)
    ensures
        d.family == family(op as int),
        d.x == reg_x(op as int),
        d.y == reg_y(op as int),
        d.n == nibble(op as int),
        d.nn == low_byte(op as int),
        d.nnn == address(op as int),
{
    proof {
        lemma_fields(op);
    }
    Fields {
        family: (op >> 12) as u8,
        x: ((op & 0x0F00) >> 8) as usize,
        y: ((op & 0x00F0) >> 4) as usize,
        n: (op & 0x000F) as usize,
        nn: (op & 0x00FF) as u8,
        nnn: op & 0x0FFF,
    }
}

/// Testing one bit of a sprite row with a mask is testing a digit of its
/// binary expansion.
proof fn lemma_sprite_bit(row: u8, col: u8)
    by (bit_vector)
    requires
        col < 8,
    ensures
        col == 0 ==> ((row & (0x80u8 >> col)) != 0) == ((row / 128) % 2 == 1),
        col == 1 ==> ((row & (0x80u8 >> col)) != 0) == ((row / 64) % 2 == 1),
        col == 2 ==> ((row & (0x80u8 >> col)) != 0) == ((row / 32) % 2 == 1),
        col == 3 ==> ((row & (0x80u8 >> col)) != 0) == ((row / 16) % 2 == 1),
        col == 4 ==> ((row & (0x80u8 >> col)) != 0) == ((row / 8) % 2 == 1),
        col == 5 ==> ((row & (0x80u8 >> col)) != 0) == ((row / 4) % 2 == 1),
        col == 6 ==> ((row & (0x80u8 >> col)) != 0) == ((row / 2) % 2 == 1),
        col == 7 ==> ((row & (0x80u8 >> col)) != 0) == ((row / 1) % 2 == 1),
{
}

/// Flipping a cell that holds 0 or 1.
proof fn lemma_flip(v: u8)
    by (bit_vector)
    requires
        v <= 1,
    ensures
        v ^ 1 == 1 - v,
{
}

/// Whether a sprite row has its pixel set in column `col`.
fn sprite_bit_set(row: u8, col: usize) -> (set: bool)
    requires
        col < 8,
    ensures
        set == sprite_bit(row, col as int),
{
    let shift: u8 = col as u8;
    proof {
        lemma_sprite_bit(row, shift);
    }
    row & (0x80u8 >> shift) != 0
}

/// Whether a sprite reaches display cell `cell` before it reaches column
/// `col` of its row `row`, rows being drawn from the top down and each row
/// from the left.
spec fn drawn_before(cell: int, vx: int, vy: int, row: int, col: int) -> bool {
    sprite_row(cell, vy) < row || (sprite_row(cell, vy) == row && sprite_col(cell, vx) < col)
}

/// Draws the sprite of `n` rows that lies at `base` in memory onto the
/// display, with its corner at column `vx` and row `vy`, and tells whether a
/// lit cell went dark.
fn draw_sprite(
    display: &mut [u8; 2048],
    memory: &[u8; 4096],
    base: usize,
    vx: usize,
    vy: usize,
    n: usize,
) -> (erased: bool)
    requires
        forall|c: int| 0 <= c < 2048 ==> #[trigger] old(display)[c] <= 1,
        n < 16,
        n > 0 ==> base + n <= 4096,
        vx < 256,
        vy < 256,
    ensures
        final(display)@ == drawn(
            old(display)@,
            sprite_at(memory@, base as int, n as int),
            vx as int,
            vy as int,
        ),
        erased == erases_any(
            old(display)@,
            sprite_at(memory@, base as int, n as int),
            vx as int,
            vy as int,
        ),
        forall|c: int| 0 <= c < 2048 ==> #[trigger] final(display)[c] <= 1,
{
    let ghost before = display@;
    let ghost sprite = sprite_at(memory@, base as int, n as int);
    let ghost mut witness: int = 0;
    let mut erased: bool = false;
    let mut row: usize = 0;
    proof {
        lemma_sprite_position_range(vx as int, vy as int);
    }
    while row < n
        invariant
            row <= n,
            forall|c: int| 0 <= #[trigger] sprite_col(c, vx as int) < 64,
            forall|c: int| 0 <= #[trigger] sprite_row(c, vy as int) < 32,
            n < 16,
            n > 0 ==> base + n <= 4096,
            vx < 256,
            vy < 256,
            sprite == sprite_at(memory@, base as int, n as int),
            before.len() == 2048,
            forall|c: int| 0 <= c < 2048 ==> #[trigger] before[c] <= 1,
            forall|c: int|
                0 <= c < 2048 ==> #[trigger] display[c] == if sprite_covers(
                    sprite,
                    vx as int,
                    vy as int,
                    c,
                ) && sprite_row(c, vy as int) < row {
                    (1 - before[c]) as u8
                } else {
                    before[c]
                },
            erased ==> sprite_erases(before, sprite, vx as int, vy as int, witness),
            !erased ==> forall|c: int|
                sprite_row(c, vy as int) < row ==> !#[trigger] sprite_erases(
                    before,
                    sprite,
                    vx as int,
                    vy as int,
                    c,
                ),
        decreases n - row,
    {
        let bits: u8 = memory[base + row];
        let mut col: usize = 0;
        while col < 8
            invariant
                row < n,
                col <= 8,
                forall|c: int| 0 <= #[trigger] sprite_col(c, vx as int) < 64,
                forall|c: int| 0 <= #[trigger] sprite_row(c, vy as int) < 32,
                n < 16,
                base + n <= 4096,
                vx < 256,
                vy < 256,
                bits == memory[base + row],
                sprite == sprite_at(memory@, base as int, n as int),
                before.len() == 2048,
                forall|c: int| 0 <= c < 2048 ==> #[trigger] before[c] <= 1,
                forall|c: int|
                    0 <= c < 2048 ==> #[trigger] display[c] == if sprite_covers(
                        sprite,
                        vx as int,
                        vy as int,
                        c,
                    ) && drawn_before(c, vx as int, vy as int, row as int, col as int) {
                        (1 - before[c]) as u8
                    } else {
                        before[c]
                    },
                erased ==> sprite_erases(before, sprite, vx as int, vy as int, witness),
                !erased ==> forall|c: int|
                    drawn_before(c, vx as int, vy as int, row as int, col as int)
                        ==> !#[trigger] sprite_erases(before, sprite, vx as int, vy as int, c),
            decreases 8 - col,
        {
            if sprite_bit_set(bits, col) {
                let cell: usize = (vx + col) % 64 + ((vy + row) % 32) * 64;
                proof {
                    lemma_sprite_cell(vx as int, vy as int, row as int, col as int);
                    assert(cell == sprite_cell(vx as int, vy as int, row as int, col as int));
                }
                let lit: u8 = display[cell];
                proof {
                    lemma_flip(lit);
                }
                display[cell] = lit ^ 1;
                if display[cell] == 0 {
                    erased = true;
                    proof {
                        witness = cell as int;
                    }
                }
            }
            col += 1;
        }
        row += 1;
    }
    erased
}

/// What the shifts and masks of the register instructions compute.
proof fn lemma_byte_bits(v: u8)
    by (bit_vector)
    ensures
        v & 0x1u8 == v % 2u8,
        v >> 1u8 == v / 2u8,
        (v & 0x80u8 != 0u8) == (v >= 128u8),
{
}

/// The low byte of a word is its remainder by 256.
proof fn lemma_low_byte(wide: u16)
    by (bit_vector)
    ensures
        wide & 0xFFu16 == wide % 256u16,
{
}

/// What shifting a byte one place to the left leaves of it.
proof fn lemma_shift_left(v: u8)
    by (bit_vector)
    ensures
        v < 128u8 ==> v << 1u8 == 2u8 * v,
        v >= 128u8 ==> v << 1u8 == 2u8 * (v - 128u8),
{
}


/// Carries out the register-to-register instruction with operands `x`, `y`
/// and operation `n`.
fn run_alu(registers: &mut [u8; 16], x: usize, y: usize, n: usize)
    requires
        x < 16,
        y < 16,
    ensures
        final(registers)@ == alu(old(registers)@, x as int, y as int, n as int),
{
    let vx: u8 = registers[x];
    let vy: u8 = registers[y];
    match n {
        0x0 => {
            registers[x] = vy;
        },
        0x1 => {
            registers[x] = vx | vy;
        },
        0x2 => {
            registers[x] = vx & vy;
        },
        0x3 => {
            registers[x] = vx ^ vy;
        },
        0x4 => {
            let sum: u16 = vx as u16 + vy as u16;
            proof {
                lemma_low_byte(sum);
            }
            registers[0xF] = if sum > 0xFF {
                1
            } else {
                0
            };
            registers[x] = (sum & 0xFF) as u8;
        },
        0x5 => {
            registers[0xF] = if vx > vy {
                1
            } else {
                0
            };
            let minuend: u8 = registers[x];
            let subtrahend: u8 = registers[y];
            let difference: u8 = minuend.wrapping_sub(subtrahend);
            assert(difference == (minuend - subtrahend) % 256);
            registers[x] = difference;
        },
        0x6 => {
            proof {
                lemma_byte_bits(vx);
            }
            registers[0xF] = vx & 0x1;
            let shifted: u8 = registers[x];
            proof {
                lemma_byte_bits(shifted);
            }
            registers[x] = shifted >> 1;
        },
        0x7 => {
            registers[0xF] = if vy > vx {
                1
            } else {
                0
            };
            let minuend: u8 = registers[y];
            let subtrahend: u8 = registers[x];
            let difference: u8 = minuend.wrapping_sub(subtrahend);
            assert(difference == (minuend - subtrahend) % 256);
            registers[x] = difference;
        },
        0xE => {
            proof {
                lemma_byte_bits(vx);
            }
            registers[0xF] = if vx & 0x80 != 0 {
                1
            } else {
                0
            };
            let shifted: u8 = registers[x];
            proof {
                lemma_shift_left(shifted);
            }
            let doubled: u8 = shifted << 1;
            assert(doubled == (shifted * 2) % 256);
            registers[x] = doubled;
        },
        _ => {},
    }
}

/// The lowest key that is held down, if any is.
fn find_pressed(keys: &[bool; 16]) -> (found: Option<u8>)
    ensures
        match found {
            Some(k) => first_pressed(keys@, 0) == Some(k as int),
            None => first_pressed(keys@, 0).is_none(),
        },
{
    let mut i: u8 = 0;
    while i < 16
        invariant
            i <= 16,
            first_pressed(keys@, 0) == first_pressed(keys@, i as int),
        decreases 16 - i,
    {
        if keys[i as usize] {
            return Some(i);
        }
        i += 1;
    }
    None
}

/// Copies the registers 0 to `x` into memory from address `base` on.
fn store_registers(memory: &mut [u8; 4096], registers: &[u8; 16], base: usize, x: usize)
    requires
        x < 16,
        base + x < 4096,
    ensures
        final(memory)@ == Seq::new(
            4096,
            |a: int|
                if base <= a <= base + x {
                    registers@[a - base]
                } else {
                    old(memory)@[a]
                },
        ),
{
    let ghost before = memory@;
    let mut r: usize = 0;
    while r <= x
        invariant
            r <= x + 1,
            x < 16,
            base + x < 4096,
            before.len() == 4096,
            forall|a: int|
                0 <= a < 4096 ==> #[trigger] memory[a] == if base <= a < base + r {
                    registers@[a - base]
                } else {
                    before[a]
                },
        decreases x + 1 - r,
    {
        memory[base + r] = registers[r];
        r += 1;
    }
}

/// Copies memory from address `base` on into the registers 0 to `x`.
fn load_registers(registers: &mut [u8; 16], memory: &[u8; 4096], base: usize, x: usize)
    requires
        x < 16,
        base + x < 4096,
    ensures
        final(registers)@ == Seq::new(
            16,
            |r: int|
                if r <= x {
                    memory@[base + r]
                } else {
                    old(registers)@[r]
                },
        ),
{
    let ghost before = registers@;
    let mut r: usize = 0;
    while r <= x
        invariant
            r <= x + 1,
            x < 16,
            base + x < 4096,
            before.len() == 16,
            forall|k: int|
                0 <= k < 16 ==> #[trigger] registers[k] == if k < r {
                    memory@[base + k]
                } else {
                    before[k]
                },
        decreases x + 1 - r,
    {
        registers[r] = memory[base + r];
        r += 1;
    }
}

/// A memory that holds the font in its first 80 bytes and zero elsewhere.
fn font_memory() -> (memory: [u8; 4096])
    ensures
        memory@ == State::initial().memory,
{
    let mut memory: [u8; 4096] = [0u8; 4096];
    let mut i: usize = 0;
    while i < 80
        invariant
            i <= 80,
            forall|k: int| 0 <= k < i ==> memory[k] == CHIP_8_FONT_SET[k],
            forall|k: int| i <= k < 4096 ==> memory[k] == 0,
        decreases 80 - i,
    {
        memory[i] = CHIP_8_FONT_SET[i];
        i += 1;
    }
    assert(memory@ =~= State::initial().memory);
    memory
}

/// Copies `program` into memory from `PROGRAM_START` on.
fn copy_program(memory: &mut [u8; 4096], program: &[u8])
    requires
        program@.len() <= 3584,
    ensures
        final(memory)@ == Seq::new(
            4096,
            |i: int|
                if 0x200 <= i < 0x200 + program@.len() {
                    program@[i - 0x200]
                } else {
                    old(memory)@[i]
                },
        ),
{
    let ghost before = memory@;
    let mut i: usize = 0;
    while i < program.len()
        invariant
            i <= program@.len(),
            program@.len() <= 3584,
            before.len() == 4096,
            forall|a: int|
                0 <= a < 4096 ==> #[trigger] memory[a] == if 0x200 <= a < 0x200 + i {
                    program@[a - 0x200]
                } else {
                    before[a]
                },
        decreases program@.len() - i,
    {
        memory[PROGRAM_START + i] = program[i];
        i += 1;
    }
}

/// A CHIP-8 machine.
pub struct Chip8 {
    memory: [u8; 4096],
    pixel_buffer: [u8; 2048],
    registers: [u8; 16],
    index_register: u16,
    program_counter: usize,
    delay_timer: u8,
    sound_timer: u8,
    stack: [u16; 16],
    stack_pointer: usize,
    keys: [bool; 16],
    rng: ThreadRng,
}

impl View for Chip8 {
    type V = State;

    /// The machine's state; the random source is no part of it.
    closed spec fn view(&self) -> State {
        State {
            memory: self.memory@,
            display: self.pixel_buffer@,
            registers: self.registers@,
            index: self.index_register,
            pc: self.program_counter as nat,
            delay: self.delay_timer,
            sound: self.sound_timer,
            stack: self.stack@.subrange(0, self.stack_pointer as int),
            keys: self.keys@,
        }
    }
}

impl Chip8 {
    /// What holds of every machine: the call stack is within its capacity and
    /// every display cell is 0 or 1.
    pub closed spec fn wf(&self) -> bool {
        &&& self.stack_pointer <= 16
        &&& forall|i: int| 0 <= i < 2048 ==> #[trigger] self.pixel_buffer[i] <= 1
    }

    /// A well-formed machine has a well-formed state, so what is proved of
    /// well-formed states holds of every machine.
    pub proof fn state_is_well_formed(&self)
        requires
            self.wf(),
        ensures
            self@.wf(),
    {
    }

    /// A machine at power-on.
    pub fn new() -> (machine: Chip8)
        ensures
            machine.wf(),
            machine@ == State::initial(),
    {
        let machine = Chip8 {
            memory: font_memory(),
            pixel_buffer: [0u8; 2048],
            registers: [0u8; 16],
            index_register: 0x0000,
            program_counter: 0x0200,
            delay_timer: 0x00,
            sound_timer: 0x00,
            stack: [0u16; 16],
            stack_pointer: 0x0000,
            keys: [false; 16],
            rng: rand::thread_rng(),
        };
        assert(machine@ =~= State::initial());
        machine
    }

    /// Puts the machine back to power-on. The random source is kept.
    pub fn reset(&mut self)
        ensures
            final(self).wf(),
            final(self)@ == State::initial(),
    {
        self.memory = font_memory();
        self.pixel_buffer = [0u8; 2048];
        self.registers = [0u8; 16];
        self.index_register = 0x0000;
        self.program_counter = 0x0200;
        self.delay_timer = 0x00;
        self.sound_timer = 0x00;
        self.stack = [0u16; 16];
        self.stack_pointer = 0x0000;
        self.keys = [false; 16];
        assert(self@ =~= State::initial());
    }

    /// Installs `program` at `PROGRAM_START`, leaving everything else as it
    /// is. A program that does not fit is refused and nothing changes.
    pub fn load(&mut self, program: &[u8]) -> (outcome: Result<(), LoadError>)
        requires
            old(self).wf(),
        ensures
            final(self).wf(),
            outcome.is_ok() <==> program@.len() <= 3584,
            outcome.is_ok() ==> final(self)@ == old(self)@.loaded(program@),
            outcome.is_err() ==> final(self)@ == old(self)@,
    {
        if program.len() > MAX_PROGRAM_SIZE {
            return Err(LoadError::ProgramTooLarge);
        }
        copy_program(&mut self.memory, program);
        assert(self@ =~= old(self)@.loaded(program@));
        Ok(())
    }

    /// The 4096 bytes of memory.
    pub fn memory(&self) -> (memory: &[u8; 4096])
        ensures
            memory@ == self@.memory,
    {
        &self.memory
    }

    /// The 2048 cells of the display, row after row; each is 0 or 1.
    pub fn pixel_buffer(&self) -> (display: &[u8; 2048])
        requires
            self.wf(),
        ensures
            display@ == self@.display,
            forall|i: int| 0 <= i < 2048 ==> #[trigger] display@[i] <= 1,
    {
        &self.pixel_buffer
    }

    /// The 16 general registers.
    pub fn registers(&self) -> (registers: &[u8; 16])
        ensures
            registers@ == self@.registers,
    {
        &self.registers
    }

    /// The index register.
    pub fn index_register(&self) -> (index: u16)
        ensures
            index == self@.index,
    {
        self.index_register
    }

    /// Address of the next instruction.
    pub fn program_counter(&self) -> (pc: usize)
        ensures
            pc == self@.pc,
    {
        self.program_counter
    }

    /// Number of calls in progress.
    pub fn stack_depth(&self) -> (depth: usize)
        requires
            self.wf(),
        ensures
            depth == self@.stack.len(),
            depth <= 16,
    {
        self.stack_pointer
    }

    /// The delay timer.
    pub fn delay_timer(&self) -> (ticks: u8)
        ensures
            ticks == self@.delay,
    {
        self.delay_timer
    }

    /// The sound timer.
    pub fn sound_timer(&self) -> (ticks: u8)
        ensures
            ticks == self@.sound,
    {
        self.sound_timer
    }

    /// Sets the delay timer, as whoever counts the timers down does.
    pub fn set_delay_timer(&mut self, ticks: u8)
        requires
            old(self).wf(),
        ensures
            final(self).wf(),
            final(self)@ == (State { delay: ticks, ..old(self)@ }),
    {
        self.delay_timer = ticks;
        assert(self@ =~= (State { delay: ticks, ..old(self)@ }));
    }

    /// Sets the sound timer, as whoever counts the timers down does.
    pub fn set_sound_timer(&mut self, ticks: u8)
        requires
            old(self).wf(),
        ensures
            final(self).wf(),
            final(self)@ == (State { sound: ticks, ..old(self)@ }),
    {
        self.sound_timer = ticks;
        assert(self@ =~= (State { sound: ticks, ..old(self)@ }));
    }

    /// For each of the 16 keys, whether it is held down.
    pub fn keys(&self) -> (keys: &[bool; 16])
        ensures
            keys@ == self@.keys,
    {
        &self.keys
    }

    /// Records which of the 16 keys are held down.
    pub fn set_keys(&mut self, keys: [bool; 16])
        requires
            old(self).wf(),
        ensures
            final(self).wf(),
            final(self)@ == (State { keys: keys@, ..old(self)@ }),
    {
        self.keys = keys;
        assert(self@ =~= (State { keys: keys@, ..old(self)@ }));
    }

    /// The instruction word under the program counter, for a program counter
    /// that leaves room for it.
    fn fetch_word(&self) -> (op: u16)
        requires
            self.program_counter + 1 < 4096,
        ensures
            op == self@.opcode(),
    {
        let hi: u8 = self.memory[self.program_counter];
        let lo: u8 = self.memory[self.program_counter + 1];
        proof {
            lemma_join(hi, lo);
        }
        ((hi as u16) << 8) | (lo as u16)
    }

    /// The instruction word that the next cycle will execute, or `None` where
    /// the program counter has left memory.
    pub fn fetch(&self) -> (op: Option<u16>)
        ensures
            self@.pc + 1 < 4096 ==> op == Some(self@.opcode() as u16),
            self@.pc + 1 >= 4096 ==> op.is_none(),
    {
        if self.program_counter < 4095 {
            Some(self.fetch_word())
        } else {
            None
        }
    }

    /// Why the next cycle cannot be carried out, or `None` where it can.
    pub fn fault(&self) -> (f: Option<Fault>)
        requires
            self.wf(),
        ensures
            f == self@.fault(),
    {
        if self.program_counter >= 4095 {
            return Some(Fault::ProgramCounterOutOfBounds);
        }
        let op: u16 = self.fetch_word();
        let d: Fields = decode(op);
        let index: usize = self.index_register as usize;
        if op == 0x00EE && self.stack_pointer == 0 {
            Some(Fault::StackUnderflow)
        } else if d.family == 0x2 && self.stack_pointer >= STACK_DEPTH {
            Some(Fault::StackOverflow)
        } else if d.family == 0xD && d.n > 0 && index + d.n > 4096 {
            Some(Fault::MemoryOutOfBounds)
        } else if d.family == 0xE && (d.nn == 0x9E || d.nn == 0xA1) && self.registers[d.x] >= 16 {
            Some(Fault::KeyOutOfRange)
        } else if d.family == 0xF && d.nn == 0x33 && index + 2 >= 4096 {
            Some(Fault::MemoryOutOfBounds)
        } else if d.family == 0xF && (d.nn == 0x55 || d.nn == 0x65) && index + d.x >= 4096 {
            Some(Fault::MemoryOutOfBounds)
        } else {
            None
        }
    }
    /// Carries out the instruction of family F with register operand `x` and
    /// selector `nn`.
    fn run_misc(&mut self, x: usize, nn: u8)
        requires
            old(self).wf(),
            x < 16,
            old(self).program_counter + 1 < 4096,
            nn == 0x33 ==> old(self).index_register + 2 < 4096,
            nn == 0x55 || nn == 0x65 ==> old(self).index_register + x < 4096,
        ensures
            final(self).wf(),
            final(self)@ == old(self)@.misc(x as int, nn as int),
    {
        let vx: u8 = self.registers[x];
        let base: usize = self.index_register as usize;
        match nn {
            0x07 => {
                self.registers[x] = self.delay_timer;
            },
            0x0A => {
                match find_pressed(&self.keys) {
                    Some(key) => {
                        self.registers[x] = key;
                    },
                    None => {
                        assert(self@ =~= old(self)@);
                        return ;
                    },
                }
            },
            0x15 => {
                self.delay_timer = vx;
            },
            0x18 => {
                self.sound_timer = vx;
            },
            0x1E => {
                self.index_register = self.index_register.wrapping_add(vx as u16);
            },
            0x29 => {
                if vx < 16 {
                    self.index_register = (vx * 0x05) as u16;
                }
            },
            0x33 => {
                self.memory[base] = vx / 100;
                self.memory[base + 1] = (vx / 10) % 10;
                self.memory[base + 2] = vx % 10;
            },
            0x55 => {
                store_registers(&mut self.memory, &self.registers, base, x);
            },
            0x65 => {
                load_registers(&mut self.registers, &self.memory, base, x);
            },
            _ => {},
        }
        self.program_counter += 2;
        assert(self@ =~= old(self)@.misc(x as int, nn as int));
    }

    /// Moves on to the next instruction, or past it where `skip` holds.
    fn skip_when(&mut self, skip: bool)
        requires
            old(self).wf(),
            old(self).program_counter + 1 < 4096,
        ensures
            final(self).wf(),
            final(self)@ == old(self)@.skip_if(skip),
    {
        if skip {
            self.program_counter += 2;
        }
        self.program_counter += 2;
        assert(self@ =~= old(self)@.skip_if(skip));
    }

    /// Writes `v` to register `x` and moves on to the next instruction.
    fn assign(&mut self, x: usize, v: u8)
        requires
            old(self).wf(),
            old(self).program_counter + 1 < 4096,
            x < 16,
        ensures
            final(self).wf(),
            final(self)@ == old(self)@.with_register(x as int, v).advance(2),
    {
        self.registers[x] = v;
        self.program_counter += 2;
        assert(self@ =~= old(self)@.with_register(x as int, v).advance(2));
    }

    /// Carries out the instruction word `op` of family 0: clear the display,
    /// return from a call, or nothing.
    fn run_system(&mut self, op: u16)
        requires
            old(self).wf(),
            old(self).program_counter + 1 < 4096,
            op == 0x00EE ==> old(self).stack_pointer > 0,
        ensures
            final(self).wf(),
            final(self)@ == if op == 0x00E0 {
                (State { display: Seq::new(2048, |i: int| 0u8), ..old(self)@ }).advance(2)
            } else if op == 0x00EE {
                (State {
                    pc: (old(self)@.stack.last() + 2) as nat,
                    stack: old(self)@.stack.drop_last(),
                    ..old(self)@
                })
            } else {
                old(self)@.advance(2)
            },
    {
        if op == 0x00E0 {
            self.pixel_buffer = [0u8; 2048];
        } else if op == 0x00EE {
            self.stack_pointer -= 1;
            self.program_counter = self.stack[self.stack_pointer] as usize;
        }
        self.program_counter += 2;
        proof {
            if op == 0x00E0 {
                assert(self@ =~= (State {
                    display: Seq::new(2048, |i: int| 0u8),
                    ..old(self)@
                }).advance(2));
            } else if op == 0x00EE {
                assert(self@ =~= (State {
                    pc: (old(self)@.stack.last() + 2) as nat,
                    stack: old(self)@.stack.drop_last(),
                    ..old(self)@
                }));
            } else {
                assert(self@ =~= old(self)@.advance(2));
            }
        }
    }

    /// Continues at `target`.
    fn jump(&mut self, target: usize)
        requires
            old(self).wf(),
        ensures
            final(self).wf(),
            final(self)@ == (State { pc: target as nat, ..old(self)@ }),
    {
        self.program_counter = target;
        assert(self@ =~= (State { pc: target as nat, ..old(self)@ }));
    }

    /// Remembers the address of the instruction under the program counter on
    /// the call stack and continues at `target`.
    fn call(&mut self, target: usize)
        requires
            old(self).wf(),
            old(self).stack_pointer < 16,
            old(self).program_counter < 4096,
        ensures
            final(self).wf(),
            final(self)@ == (State {
                pc: target as nat,
                stack: old(self)@.stack.push(old(self)@.pc as u16),
                ..old(self)@
            }),
    {
        self.stack[self.stack_pointer] = self.program_counter as u16;
        self.stack_pointer += 1;
        self.program_counter = target;
        assert(self@ =~= (State {
            pc: target as nat,
            stack: old(self)@.stack.push(old(self)@.pc as u16),
            ..old(self)@
        }));
    }

    /// Carries out the register-to-register instruction with operands `x`,
    /// `y` and operation `n`, and moves on to the next instruction.
    fn run_arithmetic(&mut self, x: usize, y: usize, n: usize)
        requires
            old(self).wf(),
            old(self).program_counter + 1 < 4096,
            x < 16,
            y < 16,
        ensures
            final(self).wf(),
            final(self)@ == (State {
                registers: alu(old(self)@.registers, x as int, y as int, n as int),
                ..old(self)@
            }).advance(2),
    {
        run_alu(&mut self.registers, x, y, n);
        self.program_counter += 2;
        assert(self@ =~= (State {
            registers: alu(old(self)@.registers, x as int, y as int, n as int),
            ..old(self)@
        }).advance(2));
    }

    /// Sets the index register and moves on to the next instruction.
    fn point(&mut self, target: u16)
        requires
            old(self).wf(),
            old(self).program_counter + 1 < 4096,
        ensures
            final(self).wf(),
            final(self)@ == (State { index: target, ..old(self)@ }).advance(2),
    {
        self.index_register = target;
        self.program_counter += 2;
        assert(self@ =~= (State { index: target, ..old(self)@ }).advance(2));
    }

    /// Draws the sprite of `n` rows under the index register with its corner
    /// at column `vx` and row `vy`, and moves on to the next instruction.
    fn run_draw(&mut self, vx: u8, vy: u8, n: usize)
        requires
            old(self).wf(),
            old(self).program_counter + 1 < 4096,
            n < 16,
            n > 0 ==> old(self).index_register + n <= 4096,
        ensures
            final(self).wf(),
            final(self)@ == old(self)@.draw(vx as int, vy as int, n as int).advance(2),
    {
        let erased: bool = draw_sprite(
            &mut self.pixel_buffer,
            &self.memory,
            self.index_register as usize,
            vx as usize,
            vy as usize,
            n,
        );
        self.registers[0xF] = if erased {
            1
        } else {
            0
        };
        self.program_counter += 2;
        assert(self@ =~= old(self)@.draw(vx as int, vy as int, n as int).advance(2));
    }

    /// Executes the instruction under the program counter, with `random` as
    /// the byte that the random source hands out.
    pub fn cycle_with(&mut self, random: u8)
        requires
            old(self).wf(),
            old(self)@.fault() is None,
        ensures
            final(self).wf(),
            final(self)@ == old(self)@.step(random),
    {
        let op: u16 = self.fetch_word();
        let d: Fields = decode(op);
        let vx: u8 = self.registers[d.x];
        let vy: u8 = self.registers[d.y];
        match d.family {
            0x0 => {
                self.run_system(op);
            },
            0x1 => {
                self.jump(d.nnn as usize);
            },
            0x2 => {
                self.call(d.nnn as usize);
            },
            0x3 => {
                self.skip_when(vx == d.nn);
            },
            0x4 => {
                self.skip_when(vx != d.nn);
            },
            0x5 => {
                self.skip_when(vx == vy);
            },
            0x6 => {
                self.assign(d.x, d.nn);
            },
            0x7 => {
                self.assign(d.x, vx.wrapping_add(d.nn));
            },
            0x8 => {
                self.run_arithmetic(d.x, d.y, d.n);
            },
            0x9 => {
                self.skip_when(vx != vy);
            },
            0xA => {
                self.point(d.nnn);
            },
            0xB => {
                self.jump(d.nnn as usize + self.registers[0] as usize);
            },
            0xC => {
                self.assign(d.x, random & d.nn);
            },
            0xD => {
                self.run_draw(vx, vy, d.n);
            },
            0xE => {
                let skip: bool = (d.nn == 0x9E && self.keys[vx as usize]) || (d.nn == 0xA1
                    && !self.keys[vx as usize]);
                self.skip_when(skip);
            },
            _ => {
                self.run_misc(d.x, d.nn);
            },
        }
    }
    /// Executes the instruction under the program counter. Where the
    /// instruction asks for a random byte, one is drawn from the machine's
    /// random source, so the outcome is the step for some byte.
    pub fn cycle(&mut self)
        requires
            old(self).wf(),
            old(self)@.fault() is None,
        ensures
            final(self).wf(),
            exists|random: u8| final(self)@ == #[trigger] old(self)@.step(random),
            family(old(self)@.opcode()) != 0xC ==> final(self)@ == old(self)@.step(0),
    {
        let op: u16 = self.fetch_word();
        let d: Fields = decode(op);
        let random: u8 = if d.family == 0xC {
            random_byte(&mut self.rng)
        } else {
            0
        };
        self.cycle_with(random);
    }

    /// Executes the instruction under the program counter where that can be
    /// done, and otherwise says why not and leaves the machine as it is.
    pub fn step(&mut self) -> (outcome: Result<(), Fault>)
        requires
            old(self).wf(),
        ensures
            final(self).wf(),
            match outcome {
                Ok(_) => old(self)@.fault() is None && (exists|random: u8|
                    final(self)@ == #[trigger] old(self)@.step(random)) && (family(
                    old(self)@.opcode(),
                ) != 0xC ==> final(self)@ == old(self)@.step(0)),
                Err(fault) => old(self)@.fault() == Some(fault) && final(self)@ == old(self)@,
            },
    {
        match self.fault() {
            Some(fault) => Err(fault),
            None => {
                self.cycle();
                Ok(())
            },
        }
    }
}

} // verus!
