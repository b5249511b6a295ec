//! The mathematical model of the CHIP-8 machine: its state as plain
//! sequences and integers, and what one instruction does to that state.
use vstd::prelude::*;

verus! {

/// Width of the monochrome display, in pixels.
pub const SCREEN_WIDTH: usize = 64;

/// Height of the monochrome display, in pixels.
pub const SCREEN_HEIGHT: usize = 32;

/// Number of pixels on the display (`SCREEN_WIDTH * SCREEN_HEIGHT`).
pub const SCREEN_SIZE: usize = 2048;

/// Bytes of RAM.
pub const RAM_SIZE: usize = 4096;

/// Number of general purpose `V` registers.
pub const NUM_REGS: usize = 16;

/// Depth of the subroutine stack.
pub const STACK_SIZE: usize = 16;

/// Number of keys on the keypad.
pub const NUM_KEYS: usize = 16;

/// Address at which programs are loaded and execution starts.
pub const START_ADDR: u16 = 0x200;

/// Number of bytes of the built-in font (16 characters of 5 rows each).
pub const FONTSET_SIZE: usize = 80;

/// The whole machine state, as the contracts see it.
pub struct Chip8State {
    pub pc: u16,
    pub ram: Seq<u8>,
    pub screen: Seq<bool>,
    pub v_reg: Seq<u8>,
    pub i_reg: u16,
    pub sp: u16,
    pub stack: Seq<u16>,
    pub keys: Seq<bool>,
    pub dt: u8,
    pub st: u8,
}

/// The built-in hexadecimal font: for each digit 0..F, five rows of 8 pixels.
pub open spec fn font_spec() -> Seq<u8> {
    seq![
        0xF0u8, 0x90, 0x90, 0x90, 0xF0, // 0
        0x20, 0x60, 0x20, 0x20, 0x70, // 1
        0xF0, 0x10, 0xF0, 0x80, 0xF0, // 2
        0xF0, 0x10, 0xF0, 0x10, 0xF0, // 3
        0x90, 0x90, 0xF0, 0x10, 0x10, // 4
        0xF0, 0x80, 0xF0, 0x10, 0xF0, // 5
        0xF0, 0x80, 0xF0, 0x90, 0xF0, // 6
        0xF0, 0x10, 0x20, 0x40, 0x40, // 7
        0xF0, 0x90, 0xF0, 0x90, 0xF0, // 8
        0xF0, 0x90, 0xF0, 0x10, 0xF0, // 9
        0xF0, 0x90, 0xF0, 0x90, 0x90, // A
        0xE0, 0x90, 0xE0, 0x90, 0xE0, // B
        0xF0, 0x80, 0x80, 0x80, 0xF0, // C
        0xE0, 0x90, 0x90, 0x90, 0xE0, // D
        0xF0, 0x80, 0xF0, 0x80, 0xF0, // E
        0xF0, 0x80, 0xF0, 0x80, 0x80, // F
    ]
}

/// RAM right after power-on or reset: the font at 0x000..0x050, zero elsewhere.
pub open spec fn initial_ram() -> Seq<u8> {
    Seq::new(RAM_SIZE as nat, |a: int| if a < FONTSET_SIZE { font_spec()[a] } else { 0u8 })
}

impl Chip8State {
    /// Shape of a state: every buffer has its fixed size and the stack
    /// pointer lies within the stack.
    pub open spec fn wf(self) -> bool {
        &&& self.ram.len() == RAM_SIZE
        &&& self.screen.len() == SCREEN_SIZE
        &&& self.v_reg.len() == NUM_REGS
        &&& self.stack.len() == STACK_SIZE
        &&& self.keys.len() == NUM_KEYS
        &&& self.sp <= STACK_SIZE
    }

    /// The state of a freshly built or reset machine.
    pub open spec fn initial() -> Chip8State {
        Chip8State {
            pc: START_ADDR,
            ram: initial_ram(),
            screen: Seq::new(SCREEN_SIZE as nat, |p: int| false),
            v_reg: Seq::new(NUM_REGS as nat, |r: int| 0u8),
            i_reg: 0,
            sp: 0,
            stack: Seq::new(STACK_SIZE as nat, |d: int| 0u16),
            keys: Seq::new(NUM_KEYS as nat, |k: int| false),
            dt: 0,
            st: 0,
        }
    }

    /// The state with the program counter set to `pc`.
    pub open spec fn with_pc(self, pc: int) -> Chip8State {
        Chip8State { pc: pc as u16, ..self }
    }

    /// The state with register `x` set to `val`.
    pub open spec fn with_reg(self, x: int, val: int) -> Chip8State {
        Chip8State { v_reg: self.v_reg.update(x, val as u8), ..self }
    }

    /// The state with register `x` set to `val` and then the flag register VF to `flag`.
    pub open spec fn with_reg_flag(self, x: int, val: int, flag: int) -> Chip8State {
        Chip8State { v_reg: self.v_reg.update(x, val as u8).update(0xF, flag as u8), ..self }
    }

    /// Skips the next instruction when `cond` holds.
    pub open spec fn skip_if(self, cond: bool) -> Chip8State {
        if cond { self.with_pc(self.pc + 2) } else { self }
    }

    /// The value of register `x`.
    pub open spec fn reg(self, x: int) -> int {
        self.v_reg[x] as int
    }
}

/// The state with `val` pushed on the call stack.
pub open spec fn push_state(s: Chip8State, val: u16) -> Chip8State {
    Chip8State { stack: s.stack.update(s.sp as int, val), sp: (s.sp + 1) as u16, ..s }
}

/// The state with the top of the call stack popped (the slot keeps its value).
pub open spec fn pop_state(s: Chip8State) -> Chip8State {
    Chip8State { sp: (s.sp - 1) as u16, ..s }
}

/// The return address on top of the call stack.
pub open spec fn stack_top(s: Chip8State) -> u16 {
    s.stack[s.sp - 1]
}

/// The 16-bit opcode stored big-endian at the program counter.
pub open spec fn fetched_op(s: Chip8State) -> u16 {
    (s.ram[s.pc as int] as int * 256 + s.ram[s.pc + 1] as int) as u16
}

/// The state once the opcode has been fetched: the program counter has moved past it.
pub open spec fn after_fetch(s: Chip8State) -> Chip8State {
    s.with_pc(s.pc + 2)
}

/// First (most significant) hexadecimal digit of an opcode: its family.
pub open spec fn op_family(op: u16) -> int {
    op as int / 4096
}

/// Second digit of an opcode: usually the register X.
pub open spec fn op_x(op: u16) -> int {
    (op as int / 256) % 16
}

/// Third digit of an opcode: usually the register Y.
pub open spec fn op_y(op: u16) -> int {
    (op as int / 16) % 16
}

/// Last digit of an opcode.
pub open spec fn op_n(op: u16) -> int {
    op as int % 16
}

/// Low byte of an opcode.
pub open spec fn op_nn(op: u16) -> int {
    op as int % 256
}

/// Low twelve bits of an opcode: an address.
pub open spec fn op_nnn(op: u16) -> int {
    op as int % 4096
}

/// Whether a skip by one instruction fits in the 16-bit program counter.
pub open spec fn skip_fits(s: Chip8State, cond: bool) -> bool {
    cond ==> s.pc + 2 <= u16::MAX
}

// ---------------------------------------------------------------------------
// Families 0x0: system instructions.
// ---------------------------------------------------------------------------
/// Opcodes of family 0x0 that the machine knows: NOP, CLS and RET.
pub open spec fn sys_known(op: u16) -> bool {
    op == 0x0000 || op == 0x00E0 || op == 0x00EE
}

/// Effect of NOP (0000), CLS (00E0) and RET (00EE).
pub open spec fn step_sys(s: Chip8State, op: u16) -> Chip8State {
    if op == 0x00E0 {
        Chip8State { screen: Seq::new(SCREEN_SIZE as nat, |p: int| false), ..s }
    } else if op == 0x00EE {
        pop_state(s).with_pc(stack_top(s) as int)
    } else {
        s
    }
}

/// When a family 0x0 instruction runs without a fault: RET needs a non-empty stack.
pub open spec fn sys_ok(s: Chip8State, op: u16) -> bool {
    &&& sys_known(op)
    &&& op == 0x00EE ==> 1 <= s.sp <= STACK_SIZE
}

// ---------------------------------------------------------------------------
// Families 0x1..0x7 and 0x9..0xC: jumps, calls, skips and loads.
// ---------------------------------------------------------------------------
/// Opcodes of these families that the machine knows.
pub open spec fn basic_known(op: u16) -> bool {
    let f = op_family(op);
    ||| 1 <= f <= 4
    ||| f == 5 && op_n(op) == 0
    ||| f == 6 || f == 7
    ||| f == 9 && op_n(op) == 0
    ||| 0xA <= f <= 0xC
}

/// Effect of a jump, call, skip, load, add or random instruction.
/// `rnd` is the random byte that CXNN masks.
pub open spec fn step_basic(s: Chip8State, op: u16, rnd: u8) -> Chip8State {
    let f = op_family(op);
    let x = op_x(op);
    let y = op_y(op);
    let nn = op_nn(op);
    let nnn = op_nnn(op);
    if f == 1 {
        s.with_pc(nnn)
    } else if f == 2 {
        push_state(s, s.pc).with_pc(nnn)
    } else if f == 3 {
        s.skip_if(s.reg(x) == nn)
    } else if f == 4 {
        s.skip_if(s.reg(x) != nn)
    } else if f == 5 {
        s.skip_if(s.reg(x) == s.reg(y))
    } else if f == 6 {
        s.with_reg(x, nn)
    } else if f == 7 {
        s.with_reg(x, (s.reg(x) + nn) % 256)
    } else if f == 9 {
        s.skip_if(s.reg(x) != s.reg(y))
    } else if f == 0xA {
        Chip8State { i_reg: nnn as u16, ..s }
    } else if f == 0xB {
        s.with_pc(s.reg(0) + nnn)
    } else {
        s.with_reg(x, (rnd & (nn as u8)) as int)
    }
}

/// When such an instruction runs without a fault: CALL needs room on the
/// stack, and a taken skip must not overflow the program counter.
pub open spec fn basic_ok(s: Chip8State, op: u16) -> bool {
    let f = op_family(op);
    let x = op_x(op);
    let y = op_y(op);
    let nn = op_nn(op);
    &&& basic_known(op)
    &&& f == 2 ==> s.sp < STACK_SIZE
    &&& f == 3 ==> skip_fits(s, s.reg(x) == nn)
    &&& f == 4 ==> skip_fits(s, s.reg(x) != nn)
    &&& f == 5 ==> skip_fits(s, s.reg(x) == s.reg(y))
    &&& f == 9 ==> skip_fits(s, s.reg(x) != s.reg(y))
}

// ---------------------------------------------------------------------------
// Family 0x8: arithmetic and logic on registers.
// ---------------------------------------------------------------------------
/// Opcodes of family 0x8 that the machine knows.
pub open spec fn alu_known(op: u16) -> bool {
    let n = op_n(op);
    0 <= n <= 7 || n == 0xE
}

/// Effect of 8XY0..8XY7 and 8XYE. The flag register VF is written last,
/// so when X is F the flag wins.
pub open spec fn step_alu(s: Chip8State, op: u16) -> Chip8State {
    let x = op_x(op);
    let vx = s.reg(x);
    let vy = s.reg(op_y(op));
    let n = op_n(op);
    if n == 0 {
        s.with_reg(x, vy)
    } else if n == 1 {
        s.with_reg(x, (vx as u8 | vy as u8) as int)
    } else if n == 2 {
        s.with_reg(x, (vx as u8 & vy as u8) as int)
    } else if n == 3 {
        s.with_reg(x, (vx as u8 ^ vy as u8) as int)
    } else if n == 4 {
        s.with_reg_flag(x, (vx + vy) % 256, if vx + vy > 255 { 1 } else { 0 })
    } else if n == 5 {
        s.with_reg_flag(x, (vx - vy) % 256, if vx < vy { 0 } else { 1 })
    } else if n == 6 {
        s.with_reg_flag(x, vx / 2, vx % 2)
    } else if n == 7 {
        s.with_reg_flag(x, (vy - vx) % 256, if vy < vx { 1 } else { 0 })
    } else {
        s.with_reg_flag(x, (vx * 2) % 256, vx / 128)
    }
}

// ---------------------------------------------------------------------------
// Family 0xD: sprite drawing.
// ---------------------------------------------------------------------------
/// Whether column `col` (0 = leftmost) of a sprite row is lit: bit `7 - col` of the byte.
pub open spec fn sprite_bit(row: u8, col: int) -> bool {
    (row >> ((7 - col) as u8)) & 1u8 == 1u8
}

/// Horizontal distance, wrapping around the screen, from the sprite's left edge `x0` to column `px`.
pub open spec fn col_offset(px: int, x0: int) -> int {
    (px - x0) % (SCREEN_WIDTH as int)
}

/// Vertical distance, wrapping around the screen, from the sprite's top edge `y0` to row `py`.
pub open spec fn row_offset(py: int, y0: int) -> int {
    (py - y0) % (SCREEN_HEIGHT as int)
}

/// Whether pixel `p` of the screen lies under a lit bit of the `n`-row sprite
/// read from RAM at I and drawn with its top-left corner at (`x0`, `y0`),
/// wrapping around the screen edges.
pub open spec fn sprite_covers(s: Chip8State, x0: int, y0: int, n: int, p: int) -> bool {
    let c = col_offset(p % (SCREEN_WIDTH as int), x0);
    let r = row_offset(p / (SCREEN_WIDTH as int), y0);
    c < 8 && r < n && sprite_bit(s.ram[s.i_reg + r], c)
}

/// The screen index at which column `col` of row `row` of a sprite with
/// top-left corner (`x0`, `y0`) lands, wrapping around the edges.
pub open spec fn sprite_pixel(x0: int, y0: int, row: int, col: int) -> int {
    (x0 + col) % 64 + 64 * ((y0 + row) % 32)
}

/// Whether drawing the sprite turns off a pixel that was on.
pub open spec fn sprite_collides(s: Chip8State, x0: int, y0: int, n: int) -> bool {
    exists|p: int| 0 <= p < SCREEN_SIZE && #[trigger] sprite_covers(s, x0, y0, n, p) && s.screen[p]
}

/// Effect of DXYN: every pixel under a lit sprite bit is flipped, and VF
/// tells whether any pixel was turned off.
pub open spec fn step_draw(s: Chip8State, op: u16) -> Chip8State {
    let x0 = s.reg(op_x(op));
    let y0 = s.reg(op_y(op));
    let n = op_n(op);
    let screen = Seq::new(
        SCREEN_SIZE as nat,
        |p: int| s.screen[p] != sprite_covers(s, x0, y0, n, p),
    );
    let flag: u8 = if sprite_collides(s, x0, y0, n) { 1 } else { 0 };
    Chip8State { screen, v_reg: s.v_reg.update(0xF, flag), ..s }
}

/// DXYN reads the sprite's rows at I..I+N, which must lie in RAM.
pub open spec fn draw_ok(s: Chip8State, op: u16) -> bool {
    op_n(op) == 0 || s.i_reg + op_n(op) <= RAM_SIZE
}

// ---------------------------------------------------------------------------
// Family 0xE: keypad skips.
// ---------------------------------------------------------------------------
/// Opcodes of family 0xE that the machine knows: EX9E and EXA1.
pub open spec fn keys_known(op: u16) -> bool {
    op_nn(op) == 0x9E || op_nn(op) == 0xA1
}

/// Effect of EX9E (skip if key VX is down) and EXA1 (skip if key VX is up).
pub open spec fn step_keys(s: Chip8State, op: u16) -> Chip8State {
    let down = s.keys[s.reg(op_x(op))];
    if op_nn(op) == 0x9E {
        s.skip_if(down)
    } else {
        s.skip_if(!down)
    }
}

/// The key named by VX must exist, and a taken skip must fit.
pub open spec fn keys_ok(s: Chip8State, op: u16) -> bool {
    let vx = s.reg(op_x(op));
    &&& keys_known(op)
    &&& vx < NUM_KEYS
    &&& op_nn(op) == 0x9E ==> skip_fits(s, s.keys[vx])
    &&& op_nn(op) == 0xA1 ==> skip_fits(s, !s.keys[vx])
}

// ---------------------------------------------------------------------------
// Family 0xF: timers, keypad wait, I register, BCD and register dumps.
// ---------------------------------------------------------------------------
/// Opcodes of family 0xF that the machine knows.
pub open spec fn misc_known(op: u16) -> bool {
    let nn = op_nn(op);
    ||| nn == 0x07 || nn == 0x0A || nn == 0x15 || nn == 0x18
    ||| nn == 0x1E || nn == 0x29 || nn == 0x33 || nn == 0x55 || nn == 0x65
}

/// Whether some key of the keypad is down.
pub open spec fn any_key_down(keys: Seq<bool>) -> bool {
    exists|k: int| 0 <= k < NUM_KEYS && #[trigger] keys[k]
}

/// Whether `k` is the lowest-numbered key that is down.
pub open spec fn is_first_key_down(keys: Seq<bool>, k: int) -> bool {
    &&& 0 <= k < NUM_KEYS
    &&& keys[k]
    &&& forall|j: int| 0 <= j < k ==> !#[trigger] keys[j]
}

/// The lowest-numbered key that is down (meaningful when one is).
pub open spec fn first_key_down(keys: Seq<bool>) -> int {
    choose|k: int| is_first_key_down(keys, k)
}

/// Effect of the family 0xF instructions.
pub open spec fn step_misc(s: Chip8State, op: u16) -> Chip8State {
    let x = op_x(op);
    let vx = s.reg(x);
    let nn = op_nn(op);
    let i = s.i_reg as int;
    if nn == 0x07 {
        s.with_reg(x, s.dt as int)
    } else if nn == 0x0A {
        if any_key_down(s.keys) {
            s.with_reg(x, first_key_down(s.keys))
        } else {
            s.with_pc(s.pc - 2)
        }
    } else if nn == 0x15 {
        Chip8State { dt: vx as u8, ..s }
    } else if nn == 0x18 {
        Chip8State { st: vx as u8, ..s }
    } else if nn == 0x1E {
        Chip8State { i_reg: ((i + vx) % 0x10000) as u16, ..s }
    } else if nn == 0x29 {
        Chip8State { i_reg: (vx * 5) as u16, ..s }
    } else if nn == 0x33 {
        Chip8State {
            ram: s.ram.update(i, (vx / 100) as u8).update(i + 1, ((vx / 10) % 10) as u8).update(
                i + 2,
                (vx % 10) as u8,
            ),
            ..s
        }
    } else if nn == 0x55 {
        Chip8State {
            ram: Seq::new(
                s.ram.len(),
                |a: int| if i <= a <= i + x { s.v_reg[a - i] } else { s.ram[a] },
            ),
            ..s
        }
    } else {
        Chip8State {
            v_reg: Seq::new(s.v_reg.len(), |r: int| if r <= x { s.ram[i + r] } else { s.v_reg[r] }),
            ..s
        }
    }
}

/// When a family 0xF instruction runs without a fault: waiting for a key
/// steps the program counter back, and the memory instructions must stay in RAM.
pub open spec fn misc_ok(s: Chip8State, op: u16) -> bool {
    let x = op_x(op);
    let nn = op_nn(op);
    let i = s.i_reg as int;
    &&& misc_known(op)
    &&& nn == 0x0A ==> (any_key_down(s.keys) || s.pc >= 2)
    &&& nn == 0x33 ==> i + 2 < RAM_SIZE
    &&& nn == 0x55 ==> i + x < RAM_SIZE
    &&& nn == 0x65 ==> i + x < RAM_SIZE
}

// ---------------------------------------------------------------------------
// Whole instruction set.
// ---------------------------------------------------------------------------
/// What executing `op` does to `s` (whose program counter already points past
/// `op`). `rnd` is the random byte used by CXNN and ignored by every other opcode.
pub open spec fn step(s: Chip8State, op: u16, rnd: u8) -> Chip8State {
    let f = op_family(op);
    if f == 0 {
        step_sys(s, op)
    } else if f == 8 {
        step_alu(s, op)
    } else if f == 0xD {
        step_draw(s, op)
    } else if f == 0xE {
        step_keys(s, op)
    } else if f == 0xF {
        step_misc(s, op)
    } else {
        step_basic(s, op, rnd)
    }
}

/// Whether `op` is a known opcode that runs on `s` without a fault
/// (no stack over- or underflow, no access outside RAM or the keypad, no
/// overflow of the program counter).
pub open spec fn can_execute(s: Chip8State, op: u16) -> bool {
    let f = op_family(op);
    if f == 0 {
        sys_ok(s, op)
    } else if f == 8 {
        alu_known(op)
    } else if f == 0xD {
        draw_ok(s, op)
    } else if f == 0xE {
        keys_ok(s, op)
    } else if f == 0xF {
        misc_ok(s, op)
    } else {
        basic_ok(s, op)
    }
}

/// Whether one fetch-decode-execute cycle runs on `s` without a fault.
pub open spec fn can_tick(s: Chip8State) -> bool {
    &&& s.pc + 1 < RAM_SIZE
    &&& can_execute(after_fetch(s), fetched_op(s))
}

/// Whether `op` is the random instruction CXNN, the only one whose effect depends on chance.
pub open spec fn is_random_op(op: u16) -> bool {
    op_family(op) == 0xC
}

/// The state after a program is copied into RAM at the start address.
pub open spec fn load_program(s: Chip8State, data: Seq<u8>) -> Chip8State {
    Chip8State {
        ram: Seq::new(
            s.ram.len(),
            |a: int|
                if START_ADDR <= a < START_ADDR + data.len() {
                    data[a - START_ADDR]
                } else {
                    s.ram[a]
                },
        ),
        ..s
    }
}

/// The timers after one frame: each counts down by one and stops at zero.
pub open spec fn tick_timers_spec(s: Chip8State) -> Chip8State {
    Chip8State {
        dt: if s.dt > 0 { (s.dt - 1) as u8 } else { 0 },
        st: if s.st > 0 { (s.st - 1) as u8 } else { 0 },
        ..s
    }
}


/// The state after `k` frames in which only the timers count down.
pub open spec fn timers_after(s: Chip8State, k: nat) -> Chip8State
    decreases k,
{
    if k == 0 {
        s
    } else {
        tick_timers_spec(timers_after(s, (k - 1) as nat))
    }
}

} // verus!
