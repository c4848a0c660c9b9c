//! The machine as a mathematical object: its state, the conditions under which
//! an instruction cannot be carried out, and the effect of one instruction.

use vstd::prelude::*;

verus! {

/// Number of addressable bytes.
pub const MEMORY_SIZE: usize = 4096;

/// Address at which programs are installed and at which execution starts.
pub const PROGRAM_START: usize = 0x200;

/// Largest program, in bytes, that fits between `PROGRAM_START` and the end of memory.
pub const MAX_PROGRAM_SIZE: usize = 3584;

/// Number of cells of the display: 64 columns by 32 rows, row after row.
pub const DISPLAY_SIZE: usize = 2048;

/// Number of return addresses the call stack can hold.
pub const STACK_DEPTH: usize = 16;

/// Why the instruction under the program counter cannot be carried out.
#[derive(Clone, Copy, Debug, PartialEq, Eq, Structural)]
pub enum Fault {
    /// The two bytes of the instruction do not both lie inside memory.
    ProgramCounterOutOfBounds,
    /// A return was asked for while the call stack was empty.
    StackUnderflow,
    /// A call was asked for while the call stack was full.
    StackOverflow,
    /// The instruction reads or writes memory past the last address.
    MemoryOutOfBounds,
    /// A key test names a key above 0xF.
    KeyOutOfRange,
}

/// Why a program cannot be installed.
#[derive(Clone, Copy, Debug, PartialEq, Eq, Structural)]
pub enum LoadError {
    /// The program is longer than the memory from `PROGRAM_START` on.
    ProgramTooLarge,
}

/// Family of an instruction word: its bits 15 to 12.
pub open spec fn family(op: int) -> int {
    op / 4096
}

/// Bits 11 to 8 of an instruction word: the first register operand.
pub open spec fn reg_x(op: int) -> int {
    (op / 256) % 16
}

/// Bits 7 to 4 of an instruction word: the second register operand.
pub open spec fn reg_y(op: int) -> int {
    (op / 16) % 16
}

/// Bits 3 to 0 of an instruction word.
pub open spec fn nibble(op: int) -> int {
    op % 16
}

/// Bits 7 to 0 of an instruction word.
pub open spec fn low_byte(op: int) -> int {
    op % 256
}

/// Bits 11 to 0 of an instruction word.
pub open spec fn address(op: int) -> int {
    op % 4096
}

/// Whether an instruction word sets the program counter itself: a jump, a
/// call, a return, a conditional skip or the wait for a key.
pub open spec fn sets_program_counter(op: int) -> bool {
    let f = family(op);
    ||| f == 0x1
    ||| f == 0x2
    ||| f == 0xB
    ||| op == 0x00EE
    ||| f == 0x3
    ||| f == 0x4
    ||| f == 0x5
    ||| f == 0x9
    ||| f == 0xE
    ||| (f == 0xF && low_byte(op) == 0x0A)
}

/// 1 where the condition holds, 0 where it does not.
pub open spec fn flag(c: bool) -> u8 {
    if c {
        1
    } else {
        0
    }
}

/// Whether a sprite row has its pixel set in the given column, column 0 being
/// the most significant bit.
pub open spec fn sprite_bit(row: u8, col: int) -> bool {
    (row as int / pow2_small(7 - col)) % 2 == 1
}

/// Two to the power `e`, for the exponents 0 to 7.
pub open spec fn pow2_small(e: int) -> int {
    if e == 0 {
        1
    } else if e == 1 {
        2
    } else if e == 2 {
        4
    } else if e == 3 {
        8
    } else if e == 4 {
        16
    } else if e == 5 {
        32
    } else if e == 6 {
        64
    } else {
        128
    }
}

/// Index of the lowest pressed key at or above `from`, if there is one.
pub open spec fn first_pressed(keys: Seq<bool>, from: int) -> Option<int>
    decreases keys.len() - from,
{
    if from < 0 || from >= keys.len() {
        None
    } else if keys[from] {
        Some(from)
    } else {
        first_pressed(keys, from + 1)
    }
}

/// The registers after a register-to-register instruction of family 8 with
/// operands `x`, `y` and operation `n`. The flag register is written first and
/// the result second, so the result wins where `x` names the flag register.
pub open spec fn alu(regs: Seq<u8>, x: int, y: int, n: int) -> Seq<u8> {
    let vx = regs[x];
    let vy = regs[y];
    if n == 0x0 {
        regs.update(x, vy)
    } else if n == 0x1 {
        regs.update(x, vx | vy)
    } else if n == 0x2 {
        regs.update(x, vx & vy)
    } else if n == 0x3 {
        regs.update(x, vx ^ vy)
    } else if n == 0x4 {
        regs.update(15, flag(vx + vy > 255)).update(x, ((vx + vy) % 256) as u8)
    } else if n == 0x5 {
        let r = regs.update(15, flag(vx > vy));
        r.update(x, ((r[x] - r[y]) % 256) as u8)
    } else if n == 0x6 {
        let r = regs.update(15, (vx % 2) as u8);
        r.update(x, (r[x] / 2) as u8)
    } else if n == 0x7 {
        let r = regs.update(15, flag(vy > vx));
        r.update(x, ((r[y] - r[x]) % 256) as u8)
    } else if n == 0xE {
        let r = regs.update(15, flag(vx >= 128));
        r.update(x, ((r[x] * 2) % 256) as u8)
    } else {
        regs
    }
}

/// Everything an instruction can read or change.
#[verifier::ext_equal]
pub struct State {
    /// The 4096 bytes of memory.
    pub memory: Seq<u8>,
    /// The 2048 cells of the display, each 0 or 1; cell `x + 64 * y` is column `x` of row `y`.
    pub display: Seq<u8>,
    /// The 16 general registers; register 0xF doubles as the flag.
    pub registers: Seq<u8>,
    /// The index register.
    pub index: u16,
    /// Address of the next instruction.
    pub pc: nat,
    /// The delay timer.
    pub delay: u8,
    /// The sound timer.
    pub sound: u8,
    /// The return addresses of the calls in progress, the innermost last.
    pub stack: Seq<u16>,
    /// For each of the 16 keys, whether it is held down.
    pub keys: Seq<bool>,
}

impl State {
    /// The shape every machine state has.
    pub open spec fn wf(self) -> bool {
        &&& self.memory.len() == 4096
        &&& self.display.len() == 2048
        &&& self.registers.len() == 16
        &&& self.stack.len() <= 16
        &&& self.keys.len() == 16
        &&& forall|i: int| 0 <= i < 2048 ==> #[trigger] self.display[i] <= 1
    }

    /// The instruction word under the program counter, high byte first.
    pub open spec fn opcode(self) -> int {
        self.memory[self.pc as int] as int * 256 + self.memory[self.pc as int + 1] as int
    }

    /// The same state with the program counter moved forward by `by`.
    pub open spec fn advance(self, by: nat) -> State {
        State { pc: self.pc + by, ..self }
    }

    /// The state after a conditional skip: past the next instruction where the
    /// condition holds, on to it where it does not.
    pub open spec fn skip_if(self, c: bool) -> State {
        if c {
            self.advance(4)
        } else {
            self.advance(2)
        }
    }

    /// The same state with register `r` holding `v`.
    pub open spec fn with_register(self, r: int, v: u8) -> State {
        State { registers: self.registers.update(r, v), ..self }
    }
}

/// Column of a sprite that falls on display cell `cell` when the sprite's left
/// edge is at column `vx`, columns wrapping round at 64.
#[verifier::opaque]
pub open spec fn sprite_col(cell: int, vx: int) -> int {
    (cell % 64 - vx) % 64
}

/// Row of a sprite that falls on display cell `cell` when the sprite's top
/// edge is at row `vy`, rows wrapping round at 32.
#[verifier::opaque]
pub open spec fn sprite_row(cell: int, vy: int) -> int {
    (cell / 64 - vy) % 32
}

/// The display cell on which column `col` of row `row` of a sprite falls when
/// the sprite's corner is at column `vx` and row `vy`.
pub open spec fn sprite_cell(vx: int, vy: int, row: int, col: int) -> int {
    (vx + col) % 64 + ((vy + row) % 32) * 64
}

/// Every display cell has a sprite column from 0 to 63 and a sprite row from
/// 0 to 31.
pub proof fn lemma_sprite_position_range(vx: int, vy: int)
    ensures
        forall|cell: int| 0 <= #[trigger] sprite_col(cell, vx) < 64,
        forall|cell: int| 0 <= #[trigger] sprite_row(cell, vy) < 32,
{
    reveal(sprite_col);
    reveal(sprite_row);
}

/// Going `offset` places round a ring of `size` places from `start`, and
/// measuring from `start` how far one has come, gives `offset` again; and the
/// place reached is the only one at that distance.
proof fn lemma_ring_offset(start: int, offset: int, size: int)
    requires
        size == 64 || size == 32,
        0 <= offset < size,
    ensures
        0 <= (start + offset) % size < size,
        ((start + offset) % size - start) % size == offset,
        forall|place: int|
            0 <= place < size && #[trigger] ((place - start) % size) == offset ==> place == (start
                + offset) % size,
{
    if size == 64 {
        assert forall|place: int|
            0 <= place < 64 && #[trigger] ((place - start) % 64) == offset implies place == (start
            + offset) % 64 by {
            let q = (place - start) / 64;
            assert(place - start == 64 * q + offset);
            assert(start + offset == place - 64 * q);
        }
    } else {
        assert forall|place: int|
            0 <= place < 32 && #[trigger] ((place - start) % 32) == offset implies place == (start
            + offset) % 32 by {
            let q = (place - start) / 32;
            assert(place - start == 32 * q + offset);
            assert(start + offset == place - 32 * q);
        }
    }
}

/// `sprite_cell` is the one display cell with the given sprite row and column.
pub proof fn lemma_sprite_cell(vx: int, vy: int, row: int, col: int)
    requires
        0 <= row < 32,
        0 <= col < 64,
    ensures
        0 <= sprite_cell(vx, vy, row, col) < 2048,
        sprite_col(sprite_cell(vx, vy, row, col), vx) == col,
        sprite_row(sprite_cell(vx, vy, row, col), vy) == row,
        forall|cell: int|
            0 <= cell < 2048 && sprite_col(cell, vx) == col && sprite_row(cell, vy) == row
                ==> cell == sprite_cell(vx, vy, row, col),
{
    reveal(sprite_col);
    reveal(sprite_row);
    lemma_ring_offset(vx, col, 64);
    lemma_ring_offset(vy, row, 32);
    let x = (vx + col) % 64;
    let y = (vy + row) % 32;
    let target = sprite_cell(vx, vy, row, col);
    assert(target == x + y * 64);
    assert(target % 64 == x && target / 64 == y);
    assert forall|cell: int|
        0 <= cell < 2048 && sprite_col(cell, vx) == col && sprite_row(cell, vy)
            == row implies cell == target by {
        let cx = cell % 64;
        let cy = cell / 64;
        assert((cx - vx) % 64 == col);
        assert((cy - vy) % 32 == row);
        assert(cx == x);
        assert(cy == y);
    }
}

/// The `n` bytes of memory from address `index` on, read as the rows of a sprite.
pub open spec fn sprite_at(memory: Seq<u8>, index: int, n: int) -> Seq<u8> {
    Seq::new(n as nat, |r: int| memory[index + r])
}

/// Whether a sprite, given as its rows from the top down and drawn with its
/// corner at column `vx` and row `vy`, has a set pixel on display cell `cell`.
pub open spec fn sprite_covers(sprite: Seq<u8>, vx: int, vy: int, cell: int) -> bool {
    &&& 0 <= cell < 2048
    &&& sprite_col(cell, vx) < 8
    &&& sprite_row(cell, vy) < sprite.len()
    &&& sprite_bit(sprite[sprite_row(cell, vy)], sprite_col(cell, vx))
}

/// Whether drawing that sprite turns `cell` from lit to dark.
pub open spec fn sprite_erases(display: Seq<u8>, sprite: Seq<u8>, vx: int, vy: int, cell: int) -> bool {
    sprite_covers(sprite, vx, vy, cell) && display[cell] == 1
}

/// Whether drawing that sprite turns any cell from lit to dark.
pub open spec fn erases_any(display: Seq<u8>, sprite: Seq<u8>, vx: int, vy: int) -> bool {
    exists|cell: int| #[trigger] sprite_erases(display, sprite, vx, vy, cell)
}

/// The display after drawing that sprite: the cells it covers are flipped, the
/// others are as they were.
pub open spec fn drawn(display: Seq<u8>, sprite: Seq<u8>, vx: int, vy: int) -> Seq<u8> {
    Seq::new(
        2048,
        |cell: int|
            if sprite_covers(sprite, vx, vy, cell) {
                (1 - display[cell]) as u8
            } else {
                display[cell]
            },
    )
}

impl State {
    /// The machine at power-on: the font in the first 80 bytes of memory, the
    /// program counter at the program's entry, everything else zero.
    pub open spec fn initial() -> State {
        State {
            memory: Seq::new(
                4096,
                |i: int|
                    if 0 <= i < 80 {
                        crate::chip8::CHIP_8_FONT_SET[i]
                    } else {
                        0u8
                    },
            ),
            display: Seq::new(2048, |i: int| 0u8),
            registers: Seq::new(16, |i: int| 0u8),
            index: 0,
            pc: 0x200,
            delay: 0,
            sound: 0,
            stack: Seq::empty(),
            keys: Seq::new(16, |i: int| false),
        }
    }

    /// The same state with `program` copied into memory from `PROGRAM_START` on.
    pub open spec fn loaded(self, program: Seq<u8>) -> State {
        State {
            memory: Seq::new(
                4096,
                |i: int|
                    if 0x200 <= i < 0x200 + program.len() {
                        program[i - 0x200]
                    } else {
                        self.memory[i]
                    },
            ),
            ..self
        }
    }

    /// The state after drawing the sprite of `n` rows that starts at the index
    /// register, with its corner at column `vx` and row `vy`: every covered
    /// cell is flipped, and the flag register tells whether any cell went dark.
    pub open spec fn draw(self, vx: int, vy: int, n: int) -> State {
        let sprite = sprite_at(self.memory, self.index as int, n);
        State {
            display: drawn(self.display, sprite, vx, vy),
            registers: self.registers.update(15, flag(erases_any(self.display, sprite, vx, vy))),
            ..self
        }
    }

    /// The state after an instruction of family F with register operand `x`
    /// and selector `nn`.
    pub open spec fn misc(self, x: int, nn: int) -> State {
        let vx = self.registers[x];
        let i = self.index as int;
        if nn == 0x07 {
            self.with_register(x, self.delay).advance(2)
        } else if nn == 0x0A {
            match first_pressed(self.keys, 0) {
                Some(k) => self.with_register(x, k as u8).advance(2),
                None => self,
            }
        } else if nn == 0x15 {
            State { delay: vx, ..self }.advance(2)
        } else if nn == 0x18 {
            State { sound: vx, ..self }.advance(2)
        } else if nn == 0x1E {
            State { index: ((i + vx) % 65536) as u16, ..self }.advance(2)
        } else if nn == 0x29 {
            if vx < 16 {
                State { index: (vx * 5) as u16, ..self }.advance(2)
            } else {
                self.advance(2)
            }
        } else if nn == 0x33 {
            State {
                memory: self.memory.update(i, (vx / 100) as u8).update(
                    i + 1,
                    ((vx / 10) % 10) as u8,
                ).update(i + 2, (vx % 10) as u8),
                ..self
            }.advance(2)
        } else if nn == 0x55 {
            State {
                memory: Seq::new(
                    4096,
                    |a: int|
                        if i <= a <= i + x {
                            self.registers[a - i]
                        } else {
                            self.memory[a]
                        },
                ),
                ..self
            }.advance(2)
        } else if nn == 0x65 {
            State {
                registers: Seq::new(
                    16,
                    |r: int|
                        if r <= x {
                            self.memory[i + r]
                        } else {
                            self.registers[r]
                        },
                ),
                ..self
            }.advance(2)
        } else {
            self.advance(2)
        }
    }

    /// Why the instruction under the program counter cannot be carried out,
    /// or `None` where it can.
    pub open spec fn fault(self) -> Option<Fault> {
        let op = self.opcode();
        let vx = self.registers[reg_x(op)];
        if self.pc + 1 >= 4096 {
            Some(Fault::ProgramCounterOutOfBounds)
        } else if op == 0x00EE && self.stack.len() == 0 {
            Some(Fault::StackUnderflow)
        } else if family(op) == 0x2 && self.stack.len() >= 16 {
            Some(Fault::StackOverflow)
        } else if family(op) == 0xD && nibble(op) > 0 && self.index + nibble(op) > 4096 {
            Some(Fault::MemoryOutOfBounds)
        } else if family(op) == 0xE && (low_byte(op) == 0x9E || low_byte(op) == 0xA1) && vx >= 16 {
            Some(Fault::KeyOutOfRange)
        } else if family(op) == 0xF && low_byte(op) == 0x33 && self.index + 2 >= 4096 {
            Some(Fault::MemoryOutOfBounds)
        } else if family(op) == 0xF && (low_byte(op) == 0x55 || low_byte(op) == 0x65) && self.index
            + reg_x(op) >= 4096 {
            Some(Fault::MemoryOutOfBounds)
        } else {
            None
        }
    }

    /// The state after one instruction for each byte of `randoms`, the bytes
    /// being handed out by the random source in that order.
    pub open spec fn run(self, randoms: Seq<u8>) -> State
        decreases randoms.len(),
    {
        if randoms.len() == 0 {
            self
        } else {
            self.run(randoms.drop_last()).step(randoms.last())
        }
    }

    /// The state after the instruction under the program counter, where
    /// `fault` finds nothing in its way. `random` is the byte that the random
    /// source hands out, which only the instruction of family C reads.
    pub open spec fn step(self, random: u8) -> State {
        let op = self.opcode();
        let f = family(op);
        let x = reg_x(op);
        let y = reg_y(op);
        let n = nibble(op);
        let nn = low_byte(op);
        let nnn = address(op);
        let vx = self.registers[x];
        let vy = self.registers[y];
        if f == 0x0 {
            if op == 0x00E0 {
                State { display: Seq::new(2048, |i: int| 0u8), ..self }.advance(2)
            } else if op == 0x00EE {
                State {
                    pc: (self.stack.last() + 2) as nat,
                    stack: self.stack.drop_last(),
                    ..self
                }
            } else {
                self.advance(2)
            }
        } else if f == 0x1 {
            State { pc: nnn as nat, ..self }
        } else if f == 0x2 {
            State { pc: nnn as nat, stack: self.stack.push(self.pc as u16), ..self }
        } else if f == 0x3 {
            self.skip_if(vx == nn)
        } else if f == 0x4 {
            self.skip_if(vx != nn)
        } else if f == 0x5 {
            self.skip_if(vx == vy)
        } else if f == 0x6 {
            self.with_register(x, nn as u8).advance(2)
        } else if f == 0x7 {
            self.with_register(x, ((vx + nn) % 256) as u8).advance(2)
        } else if f == 0x8 {
            State { registers: alu(self.registers, x, y, n), ..self }.advance(2)
        } else if f == 0x9 {
            self.skip_if(vx != vy)
        } else if f == 0xA {
            State { index: nnn as u16, ..self }.advance(2)
        } else if f == 0xB {
            State { pc: (nnn + self.registers[0]) as nat, ..self }
        } else if f == 0xC {
            self.with_register(x, random & (nn as u8)).advance(2)
        } else if f == 0xD {
            self.draw(vx as int, vy as int, n).advance(2)
        } else if f == 0xE {
            if nn == 0x9E {
                self.skip_if(self.keys[vx as int])
            } else if nn == 0xA1 {
                self.skip_if(!self.keys[vx as int])
            } else {
                self.advance(2)
            }
        } else {
            self.misc(x, nn)
        }
    }
}

} // verus!
