//! What each instruction does, stated over the fields of the machine state
//! before and after it, opcode by opcode. Each law takes the opcode's
//! hexadecimal digits as arguments.
use vstd::prelude::*;

use crate::emulator::{
    lemma_first_key_down, lemma_sprite_bit_mask, lemma_sprite_pixel_offsets,
    lemma_sprite_pixel_unique,
};
use crate::model::{
    after_fetch, can_execute, can_tick, col_offset, fetched_op, load_program, op_family, op_n, op_nn, op_nnn, op_x, op_y, row_offset,
    sprite_collides, sprite_covers, sprite_pixel, step, Chip8State, NUM_KEYS, RAM_SIZE,
    SCREEN_SIZE, STACK_SIZE, START_ADDR,
};

verus! {

/// The opcode with hexadecimal digits `f`, `x`, `y`, `n` (most significant first).
pub open spec fn opcode(f: u16, x: u16, y: u16, n: u16) -> u16 {
    (4096 * f + 256 * x + 16 * y + n) as u16
}

/// The byte of the sprite's row `row`, read from RAM at I + `row`.
pub open spec fn sprite_row(s: Chip8State, row: int) -> u8 {
    s.ram[s.i_reg + row]
}

/// Whether column `col` (0 = leftmost) of a sprite row byte is lit: the
/// byte has the bit of mask `0x80 >> col` set.
pub open spec fn row_lit(byte: u8, col: int) -> bool {
    byte & (0x80u8 >> (col as u8)) != 0u8
}

/// The opcode's digits read back from it.
proof fn lemma_opcode_digits(f: u16, x: u16, y: u16, n: u16)
    requires
        f < 16,
        x < 16,
        y < 16,
        n < 16,
    ensures
        op_family(opcode(f, x, y, n)) == f,
        op_x(opcode(f, x, y, n)) == x,
        op_y(opcode(f, x, y, n)) == y,
        op_n(opcode(f, x, y, n)) == n,
        op_nn(opcode(f, x, y, n)) == 16 * y + n,
        op_nnn(opcode(f, x, y, n)) == 256 * x + 16 * y + n,
{
    let v = 4096 * f + 256 * x + 16 * y + n;
    assert(v < 65536);
    assert(v / 4096 == f && (v / 256) % 16 == x && (v / 16) % 16 == y && v % 16 == n
        && v % 256 == 16 * y + n && v % 4096 == 256 * x + 16 * y + n) by (nonlinear_arith)
        requires
            v == 4096 * f + 256 * x + 16 * y + n,
            f < 16,
            x < 16,
            y < 16,
            n < 16,
    ;
}

// ---------------------------------------------------------------------------
// Family 0x0: NOP, CLS, RET.
// ---------------------------------------------------------------------------
/// 0000 changes nothing.
pub proof fn law_nop(s: Chip8State, rnd: u8)
    requires
        s.wf(),
    ensures
        can_execute(s, 0x0000),
        step(s, 0x0000, rnd) == s,
{
}

/// 00E0 turns every pixel off and changes nothing else.
pub proof fn law_clear_screen(s: Chip8State, rnd: u8)
    requires
        s.wf(),
    ensures
        can_execute(s, 0x00E0),
        forall|p: int| 0 <= p < SCREEN_SIZE ==> !#[trigger] step(s, 0x00E0, rnd).screen[p],
        step(s, 0x00E0, rnd).screen.len() == SCREEN_SIZE,
        step(s, 0x00E0, rnd) == (Chip8State { screen: step(s, 0x00E0, rnd).screen, ..s }),
{
}

/// 00EE pops the top of the call stack into the program counter.
pub proof fn law_return(s: Chip8State, rnd: u8)
    requires
        s.wf(),
        s.sp >= 1,
    ensures
        can_execute(s, 0x00EE),
        step(s, 0x00EE, rnd) == (Chip8State {
            pc: s.stack[s.sp - 1],
            sp: (s.sp - 1) as u16,
            ..s
        }),
{
}

// ---------------------------------------------------------------------------
// Jumps, calls, skips, loads.
// ---------------------------------------------------------------------------
/// 1NNN sets the program counter to NNN.
pub proof fn law_jump(s: Chip8State, x: u16, y: u16, n: u16, rnd: u8)
    requires
        s.wf(),
        x < 16,
        y < 16,
        n < 16,
    ensures
        can_execute(s, opcode(1, x, y, n)),
        step(s, opcode(1, x, y, n), rnd) == (Chip8State {
            pc: (256 * x + 16 * y + n) as u16,
            ..s
        }),
{
    lemma_opcode_digits(1, x, y, n);
}

/// 2NNN pushes the program counter on the call stack and jumps to NNN.
pub proof fn law_call(s: Chip8State, x: u16, y: u16, n: u16, rnd: u8)
    requires
        s.wf(),
        s.sp < STACK_SIZE,
        x < 16,
        y < 16,
        n < 16,
    ensures
        can_execute(s, opcode(2, x, y, n)),
        step(s, opcode(2, x, y, n), rnd) == (Chip8State {
            pc: (256 * x + 16 * y + n) as u16,
            sp: (s.sp + 1) as u16,
            stack: s.stack.update(s.sp as int, s.pc),
            ..s
        }),
{
    lemma_opcode_digits(2, x, y, n);
}

/// The state with the program counter moved past one more instruction when `cond` holds.
pub open spec fn skipped(s: Chip8State, cond: bool) -> Chip8State {
    Chip8State { pc: if cond { (s.pc + 2) as u16 } else { s.pc }, ..s }
}

/// 3XNN skips the next instruction exactly when VX equals NN.
pub proof fn law_skip_if_equal_immediate(s: Chip8State, x: u16, y: u16, n: u16, rnd: u8)
    requires
        s.wf(),
        x < 16,
        y < 16,
        n < 16,
        s.v_reg[x as int] == 16 * y + n ==> s.pc + 2 <= u16::MAX,
    ensures
        can_execute(s, opcode(3, x, y, n)),
        step(s, opcode(3, x, y, n), rnd) == skipped(s, s.v_reg[x as int] == 16 * y + n),
{
    lemma_opcode_digits(3, x, y, n);
}

/// 4XNN skips the next instruction exactly when VX differs from NN.
pub proof fn law_skip_if_not_equal_immediate(s: Chip8State, x: u16, y: u16, n: u16, rnd: u8)
    requires
        s.wf(),
        x < 16,
        y < 16,
        n < 16,
        s.v_reg[x as int] != 16 * y + n ==> s.pc + 2 <= u16::MAX,
    ensures
        can_execute(s, opcode(4, x, y, n)),
        step(s, opcode(4, x, y, n), rnd) == skipped(s, s.v_reg[x as int] != 16 * y + n),
{
    lemma_opcode_digits(4, x, y, n);
}

/// 5XY0 skips the next instruction exactly when VX equals VY.
pub proof fn law_skip_if_registers_equal(s: Chip8State, x: u16, y: u16, rnd: u8)
    requires
        s.wf(),
        x < 16,
        y < 16,
        s.v_reg[x as int] == s.v_reg[y as int] ==> s.pc + 2 <= u16::MAX,
    ensures
        can_execute(s, opcode(5, x, y, 0)),
        step(s, opcode(5, x, y, 0), rnd) == skipped(s, s.v_reg[x as int] == s.v_reg[y as int]),
{
    lemma_opcode_digits(5, x, y, 0);
}

/// 9XY0 skips the next instruction exactly when VX differs from VY, whichever is larger.
pub proof fn law_skip_if_registers_differ(s: Chip8State, x: u16, y: u16, rnd: u8)
    requires
        s.wf(),
        x < 16,
        y < 16,
        s.v_reg[x as int] != s.v_reg[y as int] ==> s.pc + 2 <= u16::MAX,
    ensures
        can_execute(s, opcode(9, x, y, 0)),
        step(s, opcode(9, x, y, 0), rnd) == skipped(s, s.v_reg[x as int] != s.v_reg[y as int]),
{
    lemma_opcode_digits(9, x, y, 0);
}

/// 6XNN sets VX to NN.
pub proof fn law_load_immediate(s: Chip8State, x: u16, y: u16, n: u16, rnd: u8)
    requires
        s.wf(),
        x < 16,
        y < 16,
        n < 16,
    ensures
        can_execute(s, opcode(6, x, y, n)),
        step(s, opcode(6, x, y, n), rnd) == (Chip8State {
            v_reg: s.v_reg.update(x as int, (16 * y + n) as u8),
            ..s
        }),
{
    lemma_opcode_digits(6, x, y, n);
}

/// 7XNN adds NN to VX modulo 256, leaving VF alone.
pub proof fn law_add_immediate(s: Chip8State, x: u16, y: u16, n: u16, rnd: u8)
    requires
        s.wf(),
        x < 16,
        y < 16,
        n < 16,
    ensures
        can_execute(s, opcode(7, x, y, n)),
        step(s, opcode(7, x, y, n), rnd) == (Chip8State {
            v_reg: s.v_reg.update(x as int, ((s.v_reg[x as int] + 16 * y + n) % 256) as u8),
            ..s
        }),
{
    lemma_opcode_digits(7, x, y, n);
}

/// ANNN sets I to NNN.
pub proof fn law_set_index(s: Chip8State, x: u16, y: u16, n: u16, rnd: u8)
    requires
        s.wf(),
        x < 16,
        y < 16,
        n < 16,
    ensures
        can_execute(s, opcode(0xA, x, y, n)),
        step(s, opcode(0xA, x, y, n), rnd) == (Chip8State {
            i_reg: (256 * x + 16 * y + n) as u16,
            ..s
        }),
{
    lemma_opcode_digits(0xA, x, y, n);
}

/// BNNN jumps to V0 + NNN.
pub proof fn law_jump_offset(s: Chip8State, x: u16, y: u16, n: u16, rnd: u8)
    requires
        s.wf(),
        x < 16,
        y < 16,
        n < 16,
    ensures
        can_execute(s, opcode(0xB, x, y, n)),
        step(s, opcode(0xB, x, y, n), rnd) == (Chip8State {
            pc: (s.v_reg[0] + 256 * x + 16 * y + n) as u16,
            ..s
        }),
{
    lemma_opcode_digits(0xB, x, y, n);
}

/// CXNN sets VX to the random byte masked by NN.
pub proof fn law_random(s: Chip8State, x: u16, y: u16, n: u16, rnd: u8)
    requires
        s.wf(),
        x < 16,
        y < 16,
        n < 16,
    ensures
        can_execute(s, opcode(0xC, x, y, n)),
        step(s, opcode(0xC, x, y, n), rnd) == (Chip8State {
            v_reg: s.v_reg.update(x as int, rnd & ((16 * y + n) as u8)),
            ..s
        }),
{
    lemma_opcode_digits(0xC, x, y, n);
}

// ---------------------------------------------------------------------------
// Family 0x8: register arithmetic and logic.
// ---------------------------------------------------------------------------
/// 8XY0, 8XY1, 8XY2, 8XY3 set VX to VY, VX | VY, VX & VY, VX ^ VY; VF is untouched.
pub proof fn law_register_logic(s: Chip8State, x: u16, y: u16, rnd: u8)
    requires
        s.wf(),
        x < 16,
        y < 16,
    ensures
        ({
            let vx = s.v_reg[x as int];
            let vy = s.v_reg[y as int];
            &&& step(s, opcode(8, x, y, 0), rnd) == (Chip8State {
                v_reg: s.v_reg.update(x as int, vy),
                ..s
            })
            &&& step(s, opcode(8, x, y, 1), rnd) == (Chip8State {
                v_reg: s.v_reg.update(x as int, vx | vy),
                ..s
            })
            &&& step(s, opcode(8, x, y, 2), rnd) == (Chip8State {
                v_reg: s.v_reg.update(x as int, vx & vy),
                ..s
            })
            &&& step(s, opcode(8, x, y, 3), rnd) == (Chip8State {
                v_reg: s.v_reg.update(x as int, vx ^ vy),
                ..s
            })
        }),
        can_execute(s, opcode(8, x, y, 0)),
        can_execute(s, opcode(8, x, y, 1)),
        can_execute(s, opcode(8, x, y, 2)),
        can_execute(s, opcode(8, x, y, 3)),
{
    lemma_opcode_digits(8, x, y, 0);
    lemma_opcode_digits(8, x, y, 1);
    lemma_opcode_digits(8, x, y, 2);
    lemma_opcode_digits(8, x, y, 3);
}

/// 8XY4 sets VX to VX + VY modulo 256, then VF to 1 when the sum exceeded 255 and to 0 otherwise.
pub proof fn law_add_registers(s: Chip8State, x: u16, y: u16, rnd: u8)
    requires
        s.wf(),
        x < 16,
        y < 16,
    ensures
        can_execute(s, opcode(8, x, y, 4)),
        ({
            let vx = s.v_reg[x as int];
            let vy = s.v_reg[y as int];
            step(s, opcode(8, x, y, 4), rnd) == (Chip8State {
                v_reg: s.v_reg.update(x as int, ((vx + vy) % 256) as u8).update(
                    0xF,
                    if vx + vy > 255 { 1u8 } else { 0u8 },
                ),
                ..s
            })
        }),
{
    lemma_opcode_digits(8, x, y, 4);
}

/// 8XY5 sets VX to VX - VY modulo 256, then VF to 1 when VX >= VY (no borrow) and to 0 otherwise.
pub proof fn law_subtract_registers(s: Chip8State, x: u16, y: u16, rnd: u8)
    requires
        s.wf(),
        x < 16,
        y < 16,
    ensures
        can_execute(s, opcode(8, x, y, 5)),
        ({
            let vx = s.v_reg[x as int];
            let vy = s.v_reg[y as int];
            step(s, opcode(8, x, y, 5), rnd) == (Chip8State {
                v_reg: s.v_reg.update(x as int, ((vx - vy) % 256) as u8).update(
                    0xF,
                    if vx >= vy { 1u8 } else { 0u8 },
                ),
                ..s
            })
        }),
{
    lemma_opcode_digits(8, x, y, 5);
}

/// 8XY6 halves VX, then sets VF to the bit shifted out.
pub proof fn law_shift_right(s: Chip8State, x: u16, y: u16, rnd: u8)
    requires
        s.wf(),
        x < 16,
        y < 16,
    ensures
        can_execute(s, opcode(8, x, y, 6)),
        ({
            let vx = s.v_reg[x as int];
            step(s, opcode(8, x, y, 6), rnd) == (Chip8State {
                v_reg: s.v_reg.update(x as int, vx / 2).update(0xF, vx % 2),
                ..s
            })
        }),
{
    lemma_opcode_digits(8, x, y, 6);
}

/// 8XY7 sets VX to VY - VX modulo 256, then VF to 1 when VY < VX (a borrow) and to 0 otherwise.
pub proof fn law_reverse_subtract(s: Chip8State, x: u16, y: u16, rnd: u8)
    requires
        s.wf(),
        x < 16,
        y < 16,
    ensures
        can_execute(s, opcode(8, x, y, 7)),
        ({
            let vx = s.v_reg[x as int];
            let vy = s.v_reg[y as int];
            step(s, opcode(8, x, y, 7), rnd) == (Chip8State {
                v_reg: s.v_reg.update(x as int, ((vy - vx) % 256) as u8).update(
                    0xF,
                    if vy < vx { 1u8 } else { 0u8 },
                ),
                ..s
            })
        }),
{
    lemma_opcode_digits(8, x, y, 7);
}

/// 8XYE doubles VX modulo 256, then sets VF to the bit shifted out (the old top bit).
pub proof fn law_shift_left(s: Chip8State, x: u16, y: u16, rnd: u8)
    requires
        s.wf(),
        x < 16,
        y < 16,
    ensures
        can_execute(s, opcode(8, x, y, 0xE)),
        ({
            let vx = s.v_reg[x as int];
            step(s, opcode(8, x, y, 0xE), rnd) == (Chip8State {
                v_reg: s.v_reg.update(x as int, ((2 * vx) % 256) as u8).update(
                    0xF,
                    if vx >= 128 { 1u8 } else { 0u8 },
                ),
                ..s
            })
        }),
{
    lemma_opcode_digits(8, x, y, 0xE);
}

// ---------------------------------------------------------------------------
// Family 0xE: keypad skips.
// ---------------------------------------------------------------------------
/// EX9E skips exactly when the key numbered VX is down; EXA1 exactly when it
/// is up. No other key matters.
pub proof fn law_key_skips(s: Chip8State, x: u16, rnd: u8)
    requires
        s.wf(),
        x < 16,
        s.v_reg[x as int] < NUM_KEYS,
        s.pc + 2 <= u16::MAX,
    ensures
        can_execute(s, opcode(0xE, x, 9, 0xE)),
        can_execute(s, opcode(0xE, x, 0xA, 1)),
        step(s, opcode(0xE, x, 9, 0xE), rnd) == skipped(s, s.keys[s.v_reg[x as int] as int]),
        step(s, opcode(0xE, x, 0xA, 1), rnd) == skipped(s, !s.keys[s.v_reg[x as int] as int]),
{
    lemma_opcode_digits(0xE, x, 9, 0xE);
    lemma_opcode_digits(0xE, x, 0xA, 1);
}

// ---------------------------------------------------------------------------
// Family 0xF.
// ---------------------------------------------------------------------------
/// FX07 copies the delay timer into VX; FX15 sets the delay timer and FX18
/// the sound timer from VX.
pub proof fn law_timer_registers(s: Chip8State, x: u16, rnd: u8)
    requires
        s.wf(),
        x < 16,
    ensures
        can_execute(s, opcode(0xF, x, 0, 7)),
        can_execute(s, opcode(0xF, x, 1, 5)),
        can_execute(s, opcode(0xF, x, 1, 8)),
        step(s, opcode(0xF, x, 0, 7), rnd) == (Chip8State {
            v_reg: s.v_reg.update(x as int, s.dt),
            ..s
        }),
        step(s, opcode(0xF, x, 1, 5), rnd) == (Chip8State { dt: s.v_reg[x as int], ..s }),
        step(s, opcode(0xF, x, 1, 8), rnd) == (Chip8State { st: s.v_reg[x as int], ..s }),
{
    lemma_opcode_digits(0xF, x, 0, 7);
    lemma_opcode_digits(0xF, x, 1, 5);
    lemma_opcode_digits(0xF, x, 1, 8);
}

/// Setting the delay timer from VX (FX15) and reading it into VY (FX07) copies VX into VY.
pub proof fn law_delay_timer_round_trip(s: Chip8State, x: u16, y: u16, rnd1: u8, rnd2: u8)
    requires
        s.wf(),
        x < 16,
        y < 16,
    ensures
        step(step(s, opcode(0xF, x, 1, 5), rnd1), opcode(0xF, y, 0, 7), rnd2).v_reg[y as int]
            == s.v_reg[x as int],
        step(step(s, opcode(0xF, x, 1, 5), rnd1), opcode(0xF, y, 0, 7), rnd2).dt
            == s.v_reg[x as int],
{
    law_timer_registers(s, x, rnd1);
    law_timer_registers(step(s, opcode(0xF, x, 1, 5), rnd1), y, rnd2);
}

/// FX1E adds VX to I modulo 65536; FX29 points I at the font glyph of digit VX (5 bytes each).
pub proof fn law_index_arithmetic(s: Chip8State, x: u16, rnd: u8)
    requires
        s.wf(),
        x < 16,
    ensures
        can_execute(s, opcode(0xF, x, 1, 0xE)),
        can_execute(s, opcode(0xF, x, 2, 9)),
        step(s, opcode(0xF, x, 1, 0xE), rnd) == (Chip8State {
            i_reg: ((s.i_reg + s.v_reg[x as int]) % 65536) as u16,
            ..s
        }),
        step(s, opcode(0xF, x, 2, 9), rnd) == (Chip8State {
            i_reg: (5 * s.v_reg[x as int]) as u16,
            ..s
        }),
{
    lemma_opcode_digits(0xF, x, 1, 0xE);
    lemma_opcode_digits(0xF, x, 2, 9);
}

/// FX33 writes the hundreds, tens and ones digits of VX at I, I+1, I+2 and nothing else.
pub proof fn law_bcd(s: Chip8State, x: u16, rnd: u8)
    requires
        s.wf(),
        x < 16,
        s.i_reg + 2 < RAM_SIZE,
    ensures
        can_execute(s, opcode(0xF, x, 3, 3)),
        ({
            let v = s.v_reg[x as int];
            let i = s.i_reg as int;
            step(s, opcode(0xF, x, 3, 3), rnd) == (Chip8State {
                ram: s.ram.update(i, (v / 100) as u8).update(i + 1, ((v / 10) % 10) as u8).update(
                    i + 2,
                    (v % 10) as u8,
                ),
                ..s
            })
        }),
{
    lemma_opcode_digits(0xF, x, 3, 3);
}

/// FX55 stores V0..VX (VX included) at I..I+X and leaves the rest of RAM and the machine alone.
pub proof fn law_store_registers(s: Chip8State, x: u16, rnd: u8)
    requires
        s.wf(),
        x < 16,
        s.i_reg + x < RAM_SIZE,
    ensures
        can_execute(s, opcode(0xF, x, 5, 5)),
        ({
            let t = step(s, opcode(0xF, x, 5, 5), rnd);
            &&& t == (Chip8State { ram: t.ram, ..s })
            &&& t.ram.len() == RAM_SIZE
            &&& forall|k: int| 0 <= k <= x ==> #[trigger] t.ram[s.i_reg + k] == s.v_reg[k]
            &&& forall|a: int|
                0 <= a < RAM_SIZE && !(s.i_reg <= a <= s.i_reg + x) ==> #[trigger] t.ram[a]
                    == s.ram[a]
        }),
{
    lemma_opcode_digits(0xF, x, 5, 5);
}

/// FX65 loads V0..VX (VX included) from I..I+X and leaves the other registers and the machine alone.
pub proof fn law_load_registers(s: Chip8State, x: u16, rnd: u8)
    requires
        s.wf(),
        x < 16,
        s.i_reg + x < RAM_SIZE,
    ensures
        can_execute(s, opcode(0xF, x, 6, 5)),
        ({
            let t = step(s, opcode(0xF, x, 6, 5), rnd);
            &&& t == (Chip8State { v_reg: t.v_reg, ..s })
            &&& t.v_reg.len() == 16
            &&& forall|k: int| 0 <= k <= x ==> #[trigger] t.v_reg[k] == s.ram[s.i_reg + k]
            &&& forall|k: int| x < k < 16 ==> #[trigger] t.v_reg[k] == s.v_reg[k]
        }),
{
    lemma_opcode_digits(0xF, x, 6, 5);
}

/// FX0A: when some key is down, the lowest-numbered such key (key 0 included)
/// goes into VX and the program moves on; when no key is down, the program
/// counter steps back so the same instruction runs again. Nothing else changes.
pub proof fn law_wait_key(s: Chip8State, x: u16, rnd: u8)
    requires
        s.wf(),
        x < 16,
        (exists|k: int| 0 <= k < NUM_KEYS && #[trigger] s.keys[k]) || s.pc >= 2,
    ensures
        can_execute(s, opcode(0xF, x, 0, 0xA)),
        forall|k: int|
            0 <= k < NUM_KEYS && #[trigger] s.keys[k] && (forall|j: int|
                0 <= j < k ==> !#[trigger] s.keys[j]) ==> step(s, opcode(0xF, x, 0, 0xA), rnd)
                == (Chip8State { v_reg: s.v_reg.update(x as int, k as u8), ..s }),
        (forall|k: int| 0 <= k < NUM_KEYS ==> !#[trigger] s.keys[k]) ==> step(
            s,
            opcode(0xF, x, 0, 0xA),
            rnd,
        ) == (Chip8State { pc: (s.pc - 2) as u16, ..s }),
{
    lemma_opcode_digits(0xF, x, 0, 0xA);
    assert forall|k: int|
        0 <= k < NUM_KEYS && #[trigger] s.keys[k] && (forall|j: int|
            0 <= j < k ==> !#[trigger] s.keys[j]) implies step(s, opcode(0xF, x, 0, 0xA), rnd)
        == (Chip8State { v_reg: s.v_reg.update(x as int, k as u8), ..s }) by {
        lemma_first_key_down(s.keys, k);
    }
}

// ---------------------------------------------------------------------------
// Family 0xD: drawing.
// ---------------------------------------------------------------------------
/// DXYN draws the N rows read from RAM at I with the sprite's top-left
/// corner at (VX, VY), wrapping at the screen's edges:
/// - each lit bit of row `row`, column `col` flips the pixel it lands on;
/// - every pixel that no bit of the N rows lands on keeps its value;
/// - VF becomes 1 exactly when some lit bit, in any of the N rows, lands on
///   a pixel that was on (a collision), and 0 otherwise;
/// - nothing else changes.
pub proof fn law_draw(s: Chip8State, x: u16, y: u16, n: u16, rnd: u8)
    requires
        s.wf(),
        x < 16,
        y < 16,
        n < 16,
        n == 0 || s.i_reg + n <= RAM_SIZE,
    ensures
        can_execute(s, opcode(0xD, x, y, n)),
        ({
            let t = step(s, opcode(0xD, x, y, n), rnd);
            let x0 = s.v_reg[x as int] as int;
            let y0 = s.v_reg[y as int] as int;
            &&& t == (Chip8State {
                screen: t.screen,
                v_reg: s.v_reg.update(0xF, t.v_reg[0xF]),
                ..s
            })
            &&& t.screen.len() == SCREEN_SIZE
            &&& forall|row: int, col: int|
                0 <= row < n && 0 <= col < 8 ==> #[trigger] t.screen[sprite_pixel(x0, y0, row, col)]
                    == (s.screen[sprite_pixel(x0, y0, row, col)] != row_lit(sprite_row(s, row), col))
            &&& forall|p: int|
                0 <= p < SCREEN_SIZE && (forall|row: int, col: int|
                    0 <= row < n && 0 <= col < 8 ==> #[trigger] sprite_pixel(x0, y0, row, col) != p)
                    ==> #[trigger] t.screen[p] == s.screen[p]
            &&& t.v_reg[0xF] <= 1
            &&& (t.v_reg[0xF] == 1) == (exists|row: int, col: int|
                0 <= row < n && 0 <= col < 8 && #[trigger] row_lit(sprite_row(s, row), col)
                    && s.screen[sprite_pixel(x0, y0, row, col)])
        }),
{
    lemma_opcode_digits(0xD, x, y, n);
    let op = opcode(0xD, x, y, n);
    let t = step(s, op, rnd);
    let x0 = s.v_reg[x as int] as int;
    let y0 = s.v_reg[y as int] as int;
    let nn = n as int;
    assert forall|row: int, col: int| 0 <= row < nn && 0 <= col < 8 implies #[trigger] t.screen[sprite_pixel(
        x0,
        y0,
        row,
        col,
    )] == (s.screen[sprite_pixel(x0, y0, row, col)] != row_lit(sprite_row(s, row), col)) by {
        lemma_sprite_pixel_offsets(x0, y0, row, col);
        lemma_sprite_bit_mask(sprite_row(s, row), col as u8);
    }
    assert forall|p: int|
        0 <= p < SCREEN_SIZE && (forall|row: int, col: int|
            0 <= row < nn && 0 <= col < 8 ==> #[trigger] sprite_pixel(x0, y0, row, col) != p)
            implies #[trigger] t.screen[p] == s.screen[p] by {
        if sprite_covers(s, x0, y0, nn, p) {
            let c = col_offset(p % 64, x0);
            let r = row_offset(p / 64, y0);
            lemma_sprite_pixel_unique(x0, y0, r, c, p);
            assert(sprite_pixel(x0, y0, r, c) != p);
        }
    }
    if exists|row: int, col: int|
        0 <= row < nn && 0 <= col < 8 && #[trigger] row_lit(sprite_row(s, row), col)
            && s.screen[sprite_pixel(x0, y0, row, col)] {
        let (row, col) = choose|row: int, col: int|
            0 <= row < nn && 0 <= col < 8 && #[trigger] row_lit(sprite_row(s, row), col)
                && s.screen[sprite_pixel(x0, y0, row, col)];
        lemma_sprite_pixel_offsets(x0, y0, row, col);
        lemma_sprite_bit_mask(sprite_row(s, row), col as u8);
        assert(sprite_covers(s, x0, y0, nn, sprite_pixel(x0, y0, row, col)));
        assert(sprite_collides(s, x0, y0, nn));
    }
    if sprite_collides(s, x0, y0, nn) {
        let p = choose|p: int|
            0 <= p < SCREEN_SIZE && #[trigger] sprite_covers(s, x0, y0, nn, p) && s.screen[p];
        let c = col_offset(p % 64, x0);
        let r = row_offset(p / 64, y0);
        lemma_sprite_pixel_unique(x0, y0, r, c, p);
        lemma_sprite_bit_mask(sprite_row(s, r), c as u8);
        assert(row_lit(sprite_row(s, r), c) && s.screen[sprite_pixel(x0, y0, r, c)]);
    }
}

// ---------------------------------------------------------------------------
// Fetching, loading and the power-on state.
// ---------------------------------------------------------------------------
/// A cycle reads the opcode big-endian from RAM at the program counter (high
/// byte first) and moves the program counter past its two bytes; it runs
/// without a fault exactly when that opcode does, from there.
pub proof fn law_fetch(s: Chip8State)
    requires
        s.wf(),
        s.pc + 1 < RAM_SIZE,
    ensures
        fetched_op(s) as int == 256 * s.ram[s.pc as int] + s.ram[s.pc + 1],
        after_fetch(s) == (Chip8State { pc: (s.pc + 2) as u16, ..s }),
        can_tick(s) == can_execute(Chip8State { pc: (s.pc + 2) as u16, ..s }, fetched_op(s)),
{
}

/// Loading a program puts its `k`-th byte at 0x200 + `k`, keeps every other
/// byte of RAM, and changes nothing else.
pub proof fn law_load(s: Chip8State, data: Seq<u8>)
    requires
        s.wf(),
        START_ADDR + data.len() <= RAM_SIZE,
    ensures
        ({
            let t = load_program(s, data);
            &&& t == (Chip8State { ram: t.ram, ..s })
            &&& t.ram.len() == RAM_SIZE
            &&& forall|k: int| 0 <= k < data.len() ==> #[trigger] t.ram[START_ADDR + k] == data[k]
            &&& forall|a: int|
                0 <= a < RAM_SIZE && !(START_ADDR <= a < START_ADDR + data.len())
                    ==> #[trigger] t.ram[a] == s.ram[a]
        }),
{
}

/// At power-on the program counter is 0x200, I, the stack pointer and both
/// timers are 0, every register is 0, every pixel is off, every key is up,
/// and RAM past the 80-byte font is zero.
pub proof fn law_power_on()
    ensures
        ({
            let s = Chip8State::initial();
            &&& s.wf()
            &&& s.pc == 0x200 && s.i_reg == 0 && s.sp == 0 && s.dt == 0 && s.st == 0
            &&& forall|r: int| 0 <= r < 16 ==> #[trigger] s.v_reg[r] == 0
            &&& forall|p: int| 0 <= p < SCREEN_SIZE ==> !#[trigger] s.screen[p]
            &&& forall|k: int| 0 <= k < NUM_KEYS ==> !#[trigger] s.keys[k]
            &&& forall|a: int| 80 <= a < RAM_SIZE ==> #[trigger] s.ram[a] == 0
        }),
{
}

} // verus!
