//! Laws of the instruction set, proved from its description.

use crate::model::{
    address, drawn, erases_any, family, first_pressed, flag, low_byte, nibble, reg_x, reg_y,
    sets_program_counter, sprite_at, sprite_covers, sprite_erases, State,
};
use vstd::prelude::*;

verus! {

/// The machine at power-on is well formed, and its first instruction can be
/// carried out.
pub proof fn law_power_on_is_well_formed()
    ensures
        State::initial().wf(),
        State::initial().fault() is None,
{
    let s = State::initial();
    assert(s.memory[0x200] == 0 && s.memory[0x201] == 0);
    assert(s.opcode() == 0);
}

/// Loading a program keeps a state well formed and touches memory only, and
/// there only the bytes that the program covers.
pub proof fn law_load_touches_program_area_only(s: State, program: Seq<u8>)
    requires
        s.wf(),
        program.len() <= 3584,
    ensures
        s.loaded(program).wf(),
        s.loaded(program) == (State { memory: s.loaded(program).memory, ..s }),
        forall|a: int|
            0 <= a < 4096 && !(0x200 <= a < 0x200 + program.len()) ==> s.loaded(program).memory[a]
                == s.memory[a],
        forall|i: int| 0 <= i < program.len() ==> s.loaded(program).memory[0x200 + i] == program[i],
{
}

/// Loading the same program a second time changes nothing.
pub proof fn law_load_is_idempotent(s: State, program: Seq<u8>)
    requires
        s.wf(),
        program.len() <= 3584,
    ensures
        s.loaded(program).loaded(program) == s.loaded(program),
{
    assert(s.loaded(program).loaded(program).memory =~= s.loaded(program).memory);
}

/// One instruction keeps a state well formed, provided it can be carried out.
pub proof fn law_step_keeps_state_well_formed(s: State, random: u8)
    requires
        s.wf(),
        s.fault() is None,
    ensures
        s.step(random).wf(),
{
    let op = s.opcode();
    if family(op) == 0xD {
        let t = s.step(random);
        assert forall|i: int| 0 <= i < 2048 implies #[trigger] t.display[i] <= 1 by {
            assert(s.display[i] <= 1);
        }
    }
}

/// Only the instructions of family C look at the random byte.
pub proof fn law_random_byte_matters_to_family_c_only(s: State, r1: u8, r2: u8)
    requires
        family(s.opcode()) != 0xC,
    ensures
        s.step(r1) == s.step(r2),
{
}

/// An instruction that is no jump, call, return, skip or key wait moves the
/// program counter forward by exactly two.
pub proof fn law_plain_instruction_advances_by_two(s: State, random: u8)
    requires
        !sets_program_counter(s.opcode()),
    ensures
        s.step(random).pc == s.pc + 2,
{
}

/// A conditional skip moves the program counter forward by two or by four, and
/// changes nothing else.
pub proof fn law_skip_advances_by_two_or_four(s: State, random: u8)
    requires
        ({
            let f = family(s.opcode());
            f == 0x3 || f == 0x4 || f == 0x5 || f == 0x9 || f == 0xE
        }),
    ensures
        s.step(random) == s.advance(2) || s.step(random) == s.advance(4),
{
}

/// Clearing the display leaves every cell at 0, whatever it held.
pub proof fn law_clear_blanks_every_cell(s: State, random: u8)
    requires
        s.opcode() == 0x00E0,
    ensures
        s.step(random).display.len() == 2048,
        forall|i: int| 0 <= i < 2048 ==> s.step(random).display[i] == 0,
{
}

/// Loading a constant into a register and then testing that register against
/// the same constant always skips: the test moves the program counter forward
/// by four.
pub proof fn law_assign_then_test_equal_skips(s: State, r1: u8, r2: u8)
    requires
        s.wf(),
        family(s.opcode()) == 0x6,
        family(s.step(r1).opcode()) == 0x3,
        reg_x(s.step(r1).opcode()) == reg_x(s.opcode()),
        low_byte(s.step(r1).opcode()) == low_byte(s.opcode()),
    ensures
        s.step(r1).pc == s.pc + 2,
        s.step(r1).step(r2).pc == s.step(r1).pc + 4,
        s.step(r1).step(r2).pc == s.pc + 6,
{
}

/// Adding a constant to a register wraps round at 256 and touches no other
/// register.
pub proof fn law_add_constant_wraps(s: State, random: u8)
    requires
        s.wf(),
        family(s.opcode()) == 0x7,
    ensures
        s.step(random).registers[reg_x(s.opcode())] == (s.registers[reg_x(s.opcode())] + low_byte(
            s.opcode(),
        )) % 256,
        forall|r: int|
            0 <= r < 16 && r != reg_x(s.opcode()) ==> s.step(random).registers[r]
                == s.registers[r],
{
}

/// Adding one register to another wraps round at 256 and leaves the carry in
/// the flag register, provided the sum does not go to the flag register.
pub proof fn law_add_registers_carries(s: State, random: u8)
    requires
        s.wf(),
        family(s.opcode()) == 0x8,
        nibble(s.opcode()) == 0x4,
        reg_x(s.opcode()) != 0xF,
    ensures
        s.step(random).registers[reg_x(s.opcode())] == (s.registers[reg_x(s.opcode())]
            + s.registers[reg_y(s.opcode())]) % 256,
        s.step(random).registers[15] == flag(
            s.registers[reg_x(s.opcode())] + s.registers[reg_y(s.opcode())] > 255,
        ),
{
}

/// Subtracting one register from another wraps round at 256 and leaves 1 in
/// the flag register exactly where the first is the larger, provided neither
/// operand is the flag register.
pub proof fn law_subtract_registers_borrows(s: State, random: u8)
    requires
        s.wf(),
        family(s.opcode()) == 0x8,
        nibble(s.opcode()) == 0x5,
        reg_x(s.opcode()) != 0xF,
        reg_y(s.opcode()) != 0xF,
    ensures
        s.step(random).registers[reg_x(s.opcode())] == (s.registers[reg_x(s.opcode())]
            - s.registers[reg_y(s.opcode())]) % 256,
        s.step(random).registers[15] == flag(
            s.registers[reg_x(s.opcode())] > s.registers[reg_y(s.opcode())],
        ),
{
}

/// Drawing on a display with no lit cell under the sprite erases nothing.
pub proof fn law_draw_on_dark_cells_erases_nothing(
    display: Seq<u8>,
    sprite: Seq<u8>,
    vx: int,
    vy: int,
)
    requires
        forall|cell: int| sprite_covers(sprite, vx, vy, cell) ==> display[cell] == 0,
    ensures
        !erases_any(display, sprite, vx, vy),
{
    assert forall|cell: int| !#[trigger] sprite_erases(display, sprite, vx, vy, cell) by {
        if sprite_covers(sprite, vx, vy, cell) {
            assert(display[cell] == 0);
        }
    }
}

/// Drawing the same sprite twice at the same place gives back the display as
/// it was.
pub proof fn law_draw_twice_restores_display(display: Seq<u8>, sprite: Seq<u8>, vx: int, vy: int)
    requires
        display.len() == 2048,
        forall|cell: int| 0 <= cell < 2048 ==> #[trigger] display[cell] <= 1,
    ensures
        drawn(drawn(display, sprite, vx, vy), sprite, vx, vy) == display,
{
    let once = drawn(display, sprite, vx, vy);
    let twice = drawn(once, sprite, vx, vy);
    assert forall|cell: int| 0 <= cell < 2048 implies twice[cell] == display[cell] by {
        assert(display[cell] <= 1);
    }
    assert(twice =~= display);
}

/// Drawing a sprite a second time at the same place erases a cell exactly
/// where the first drawing lit one.
pub proof fn law_second_draw_erases_what_first_lit(
    display: Seq<u8>,
    sprite: Seq<u8>,
    vx: int,
    vy: int,
)
    requires
        display.len() == 2048,
        forall|cell: int| 0 <= cell < 2048 ==> #[trigger] display[cell] <= 1,
    ensures
        erases_any(drawn(display, sprite, vx, vy), sprite, vx, vy) <==> exists|cell: int|
            #[trigger] sprite_covers(sprite, vx, vy, cell) && display[cell] == 0,
{
    let once = drawn(display, sprite, vx, vy);
    if erases_any(once, sprite, vx, vy) {
        let cell = choose|cell: int| #[trigger] sprite_erases(once, sprite, vx, vy, cell);
        assert(display[cell] <= 1);
        assert(sprite_covers(sprite, vx, vy, cell) && display[cell] == 0);
    }
    if exists|cell: int| #[trigger] sprite_covers(sprite, vx, vy, cell) && display[cell] == 0 {
        let cell = choose|cell: int|
            #[trigger] sprite_covers(sprite, vx, vy, cell) && display[cell] == 0;
        assert(sprite_erases(once, sprite, vx, vy, cell));
    }
}

/// Two draw instructions in a row with the same operands, neither of them the
/// flag register, leave the display as it was before the first.
pub proof fn law_draw_twice_restores_screen(s: State, r1: u8, r2: u8)
    requires
        s.wf(),
        family(s.opcode()) == 0xD,
        s.step(r1).opcode() == s.opcode(),
        reg_x(s.opcode()) != 0xF,
        reg_y(s.opcode()) != 0xF,
    ensures
        s.step(r1).step(r2).display == s.display,
{
    let op = s.opcode();
    let vx = s.registers[reg_x(op)] as int;
    let vy = s.registers[reg_y(op)] as int;
    let t = s.step(r1);
    assert(t.registers[reg_x(op)] == s.registers[reg_x(op)]);
    assert(t.registers[reg_y(op)] == s.registers[reg_y(op)]);
    let sprite = sprite_at(s.memory, s.index as int, nibble(op));
    assert(t.display == drawn(s.display, sprite, vx, vy));
    assert(t.step(r2).display == drawn(t.display, sprite, vx, vy));
    law_draw_twice_restores_display(s.display, sprite, vx, vy);
}

/// Storing a register in decimal writes its hundreds, tens and ones to the
/// three bytes from the index register on, and to no other byte.
pub proof fn law_decimal_digits(s: State, random: u8)
    requires
        s.wf(),
        s.fault() is None,
        family(s.opcode()) == 0xF,
        low_byte(s.opcode()) == 0x33,
    ensures
        ({
            let v = s.registers[reg_x(s.opcode())] as int;
            let i = s.index as int;
            let m = s.step(random).memory;
            &&& m.len() == 4096
            &&& m[i] < 10 && m[i + 1] < 10 && m[i + 2] < 10
            &&& 100 * m[i] + 10 * m[i + 1] + m[i + 2] == v
            &&& forall|a: int| 0 <= a < 4096 && !(i <= a <= i + 2) ==> m[a] == s.memory[a]
        }),
{
}

/// `first_pressed` finds the lowest key that is held down at or above `from`,
/// and finds none exactly where none is held down there.
pub proof fn law_first_pressed_is_lowest(keys: Seq<bool>, from: int)
    requires
        0 <= from,
    ensures
        match first_pressed(keys, from) {
            Some(k) => from <= k < keys.len() && keys[k] && forall|j: int|
                from <= j < k ==> !keys[j],
            None => forall|j: int| from <= j < keys.len() ==> !keys[j],
        },
    decreases keys.len() - from,
{
    if from < keys.len() && !keys[from] {
        law_first_pressed_is_lowest(keys, from + 1);
    }
}

/// The wait for a key changes nothing while no key is held down. Once a key
/// is, it stores the lowest such key in its register, moves on to the next
/// instruction and changes nothing else.
pub proof fn law_key_wait(s: State, random: u8)
    requires
        s.wf(),
        family(s.opcode()) == 0xF,
        low_byte(s.opcode()) == 0x0A,
    ensures
        (forall|k: int| 0 <= k < 16 ==> !s.keys[k]) ==> s.step(random) == s,
        (exists|k: int| 0 <= k < 16 && s.keys[k]) ==> {
            let t = s.step(random);
            let k = t.registers[reg_x(s.opcode())] as int;
            &&& t.pc == s.pc + 2
            &&& 0 <= k < 16 && s.keys[k]
            &&& forall|j: int| 0 <= j < k ==> !s.keys[j]
            &&& t == s.with_register(reg_x(s.opcode()), k as u8).advance(2)
        },
{
    law_first_pressed_is_lowest(s.keys, 0);
}

/// A jump to its own address leaves the whole state as it is.
pub proof fn law_jump_to_self_is_fixed(s: State, random: u8)
    requires
        family(s.opcode()) == 0x1,
        address(s.opcode()) == s.pc,
    ensures
        s.step(random) == s,
{
}

/// A machine whose program counter rests on a jump to its own address stays
/// in the same state however many instructions it executes.
pub proof fn law_jump_to_self_loops_forever(s: State, randoms: Seq<u8>)
    requires
        family(s.opcode()) == 0x1,
        address(s.opcode()) == s.pc,
    ensures
        s.run(randoms) == s,
    decreases randoms.len(),
{
    if randoms.len() > 0 {
        law_jump_to_self_loops_forever(s, randoms.drop_last());
        law_jump_to_self_is_fixed(s, randoms.last());
    }
}

/// A program that consists of the one instruction 0x1200, installed on a
/// machine whose program counter is at the program's entry, keeps the machine
/// in the state that loading left it in, for any number of instructions.
pub proof fn law_loaded_self_jump_loops_forever(s: State, randoms: Seq<u8>)
    requires
        s.wf(),
        s.pc == 0x200,
    ensures
        s.loaded(seq![0x12u8, 0x00u8]).run(randoms) == s.loaded(seq![0x12u8, 0x00u8]),
{
    let t = s.loaded(seq![0x12u8, 0x00u8]);
    assert(t.memory[0x200] == 0x12);
    assert(t.memory[0x201] == 0x00);
    assert(t.opcode() == 0x1200);
    law_jump_to_self_loops_forever(t, randoms);
}

} // verus!
