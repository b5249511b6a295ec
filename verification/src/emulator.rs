//! The CHIP-8 emulator core: machine state and its fetch-decode-execute cycle.
use vstd::prelude::*;

use crate::model::{
    after_fetch, alu_known, any_key_down, basic_ok, can_execute, can_tick, col_offset, draw_ok,
    fetched_op, first_key_down, font_spec, initial_ram, is_first_key_down, is_random_op, keys_ok,
    load_program, misc_ok, op_family, op_n, op_nn, op_x, op_y, pop_state, push_state, row_offset,
    sprite_bit, sprite_collides, sprite_covers, stack_top, step, step_alu, step_basic, step_draw,
    step_keys, step_misc, step_sys, sys_ok, tick_timers_spec, Chip8State, sprite_pixel, FONTSET_SIZE, NUM_KEYS,
    NUM_REGS, RAM_SIZE, SCREEN_HEIGHT, SCREEN_SIZE, SCREEN_WIDTH, STACK_SIZE, START_ADDR,
};
use crate::rng::random_byte;

verus! {

/// A CHIP-8 machine: 4 KiB of RAM, a 64x32 monochrome screen, sixteen 8-bit
/// registers V0..VF, the address register I, a 16-deep call stack, a
/// 16-key keypad and the delay and sound timers.
pub struct Emulator {
    pc: u16,
    ram: [u8; 4096],
    screen: [bool; 2048],
    v_reg: [u8; 16],
    i_reg: u16,
    sp: u16,
    stack: [u16; 16],
    keys: [bool; 16],
    dt: u8,
    st: u8,
}

impl View for Emulator {
    type V = Chip8State;

    closed spec fn view(&self) -> Chip8State {
        Chip8State {
            pc: self.pc,
            ram: self.ram@,
            screen: self.screen@,
            v_reg: self.v_reg@,
            i_reg: self.i_reg,
            sp: self.sp,
            stack: self.stack@,
            keys: self.keys@,
            dt: self.dt,
            st: self.st,
        }
    }
}

impl Emulator {
    /// The stack pointer never passes the stack's depth.
    #[verifier::type_invariant]
    spec fn stack_in_bounds(self) -> bool {
        self.sp <= STACK_SIZE
    }
}

/// The built-in font as an array.
fn fontset() -> (font: [u8; 80])
    ensures
        font@ == font_spec(),
{
    let font: [u8; 80] = [
        0xF0, 0x90, 0x90, 0x90, 0xF0, // 0
        0x20, 0x60, 0x20, 0x20, 0x70, // 1
        0xF0, 0x10, 0xF0, 0x80, 0xF0, // 2
        0xF0, 0x10, 0xF0, 0x10, 0xF0, // 3
        0x90, 0x90, 0xF0, 0x10, 0x10, // 4
        0xF0, 0x80, 0xF0, 0x10, 0xF0, // 5
        0xF0, 0x80, 0xF0, 0x90, 0xF0, // 6
        0xF0, 0x10, 0x20, 0x40, 0x40, // 7
        0xF0, 0x90, 0xF0, 0x90, 0xF0, // 8
        0xF0, 0x90, 0xF0, 0x10, 0xF0, // 9
        0xF0, 0x90, 0xF0, 0x90, 0x90, // A
        0xE0, 0x90, 0xE0, 0x90, 0xE0, // B
        0xF0, 0x80, 0x80, 0x80, 0xF0, // C
        0xE0, 0x90, 0x90, 0x90, 0xE0, // D
        0xF0, 0x80, 0xF0, 0x80, 0xF0, // E
        0xF0, 0x80, 0xF0, 0x80, 0x80, // F
    ];
    assert(font@ =~= font_spec());
    font
}

/// A RAM image holding the font at its start and zero elsewhere.
fn initial_ram_image() -> (ram: [u8; 4096])
    ensures
        ram@ == initial_ram(),
{
    let font = fontset();
    let mut ram = [0u8; 4096];
    let mut a: usize = 0;
    while a < FONTSET_SIZE
        invariant
            a <= FONTSET_SIZE,
            font@ == font_spec(),
            ram@.len() == RAM_SIZE,
            forall|b: int| 0 <= b < a ==> ram@[b] == font_spec()[b],
            forall|b: int| a <= b < RAM_SIZE ==> ram@[b] == 0,
        decreases FONTSET_SIZE - a,
    {
        ram[a] = font[a];
        a = a + 1;
    }
    assert(ram@ =~= initial_ram());
    ram
}

impl Emulator {
    /// A machine in its power-on state: program counter at 0x200, the font
    /// at the start of RAM, everything else zero, screen dark, no key down.
    pub fn new() -> (emu: Self)
        ensures
            emu@.wf(),
            emu@ == Chip8State::initial(),
    {
        let emu = Emulator {
            pc: START_ADDR,
            ram: initial_ram_image(),
            screen: [false; 2048],
            v_reg: [0u8; 16],
            i_reg: 0,
            sp: 0,
            stack: [0u16; 16],
            keys: [false; 16],
            dt: 0,
            st: 0,
        };
        assert(emu@.screen =~= Chip8State::initial().screen);
        assert(emu@.v_reg =~= Chip8State::initial().v_reg);
        assert(emu@.stack =~= Chip8State::initial().stack);
        assert(emu@.keys =~= Chip8State::initial().keys);
        emu
    }

    /// Puts the machine back in its power-on state, whatever it held.
    pub fn reset(&mut self)
        ensures
            final(self)@.wf(),
            final(self)@ == Chip8State::initial(),
    {
        proof {
            use_type_invariant(&*self);
        }
        self.pc = START_ADDR;
        self.ram = initial_ram_image();
        self.screen = [false; 2048];
        self.v_reg = [0u8; 16];
        self.i_reg = 0;
        self.sp = 0;
        self.stack = [0u16; 16];
        self.keys = [false; 16];
        self.dt = 0;
        self.st = 0;
        assert(self@.screen =~= Chip8State::initial().screen);
        assert(self@.v_reg =~= Chip8State::initial().v_reg);
        assert(self@.stack =~= Chip8State::initial().stack);
        assert(self@.keys =~= Chip8State::initial().keys);
    }

    /// The screen's pixels, row by row (index `x + 64 * y`), `true` when lit.
    pub fn get_display(&self) -> (display: &[bool])
        ensures
            self@.wf(),
            display@ == self@.screen,
            display@.len() == SCREEN_SIZE,
    {
        proof {
            use_type_invariant(&*self);
        }
        &self.screen
    }

    /// The program counter.
    pub fn program_counter(&self) -> (pc: u16)
        ensures
            self@.wf(),
            pc == self@.pc,
    {
        proof {
            use_type_invariant(&*self);
        }
        self.pc
    }

    /// The value of register V`x`.
    pub fn register(&self, x: usize) -> (val: u8)
        requires
            x < NUM_REGS,
        ensures
            self@.wf(),
            val == self@.v_reg[x as int],
    {
        proof {
            use_type_invariant(&*self);
        }
        self.v_reg[x]
    }

    /// The address register I.
    pub fn index_register(&self) -> (i: u16)
        ensures
            self@.wf(),
            i == self@.i_reg,
    {
        proof {
            use_type_invariant(&*self);
        }
        self.i_reg
    }

    /// The byte of RAM at `addr`.
    pub fn memory(&self, addr: usize) -> (byte: u8)
        requires
            addr < RAM_SIZE,
        ensures
            self@.wf(),
            byte == self@.ram[addr as int],
    {
        proof {
            use_type_invariant(&*self);
        }
        self.ram[addr]
    }

    /// The number of return addresses on the call stack.
    pub fn stack_depth(&self) -> (depth: u16)
        ensures
            self@.wf(),
            depth == self@.sp,
    {
        proof {
            use_type_invariant(&*self);
        }
        self.sp
    }

    /// The delay timer.
    pub fn delay_timer(&self) -> (dt: u8)
        ensures
            self@.wf(),
            dt == self@.dt,
    {
        proof {
            use_type_invariant(&*self);
        }
        self.dt
    }

    /// The sound timer.
    pub fn sound_timer(&self) -> (st: u8)
        ensures
            self@.wf(),
            st == self@.st,
    {
        proof {
            use_type_invariant(&*self);
        }
        self.st
    }

    /// Records that key `idx` is now down (`pressed`) or up.
    pub fn keypress(&mut self, idx: usize, pressed: bool)
        requires
            idx < NUM_KEYS,
        ensures
            final(self)@.wf(),
            final(self)@ == (Chip8State { keys: old(self)@.keys.update(idx as int, pressed), ..old(self)@ }),
    {
        proof {
            use_type_invariant(&*self);
        }
        self.keys[idx] = pressed;
    }

    /// Copies a program into RAM starting at 0x200; the rest of RAM is unchanged.
    pub fn load(&mut self, data: &[u8])
        requires
            START_ADDR + data@.len() <= RAM_SIZE,
        ensures
            final(self)@.wf(),
            final(self)@ == load_program(old(self)@, data@),
    {
        proof {
            use_type_invariant(&*self);
        }
        let start = START_ADDR as usize;
        let mut k: usize = 0;
        while k < data.len()
            invariant
                start == START_ADDR,
                start + data@.len() <= RAM_SIZE,
                k <= data@.len(),
                self.pc == old(self).pc,
                self.screen == old(self).screen,
                self.v_reg == old(self).v_reg,
                self.i_reg == old(self).i_reg,
                self.sp == old(self).sp,
                self.sp <= STACK_SIZE,
                self.stack == old(self).stack,
                self.keys == old(self).keys,
                self.dt == old(self).dt,
                self.st == old(self).st,
                forall|a: int|
                    0 <= a < RAM_SIZE ==> #[trigger] self.ram@[a] == if start <= a < start + k {
                        data@[a - start]
                    } else {
                        old(self).ram@[a]
                    },
            decreases data@.len() - k,
        {
            self.ram[start + k] = data[k];
            k = k + 1;
        }
        assert(self@.ram =~= load_program(old(self)@, data@).ram);
    }

    /// Counts both timers down by one frame; a timer at zero stays at zero.
    pub fn tick_timers(&mut self)
        ensures
            final(self)@.wf(),
            final(self)@ == tick_timers_spec(old(self)@),
    {
        proof {
            use_type_invariant(&*self);
        }
        if self.dt > 0 {
            self.dt -= 1;
        }
        if self.st > 0 {
            self.st -= 1;
        }
    }

    /// Pushes a return address on the call stack.
    fn push(&mut self, val: u16)
        requires
            old(self).sp < STACK_SIZE,
        ensures
            final(self)@ == push_state(old(self)@, val),
    {
        proof {
            use_type_invariant(&*self);
        }
        self.stack[self.sp as usize] = val;
        self.sp += 1;
    }

    /// Pops the most recent return address off the call stack.
    fn pop(&mut self) -> (val: u16)
        requires
            1 <= old(self).sp <= STACK_SIZE,
        ensures
            val == stack_top(old(self)@),
            final(self)@ == pop_state(old(self)@),
    {
        proof {
            use_type_invariant(&*self);
        }
        self.sp -= 1;
        self.stack[self.sp as usize]
    }

    /// Reads the big-endian opcode at the program counter and moves past it.
    fn fetch(&mut self) -> (op: u16)
        requires
            old(self)@.pc + 1 < RAM_SIZE,
        ensures
            op == fetched_op(old(self)@),
            final(self)@ == after_fetch(old(self)@),
    {
        proof {
            use_type_invariant(&*self);
        }
        let higher_byte = self.ram[self.pc as usize] as u16;
        let lower_byte = self.ram[(self.pc + 1) as usize] as u16;
        assert((higher_byte << 8u16) | lower_byte == higher_byte * 256 + lower_byte) by (bit_vector)
            requires
                higher_byte < 256,
                lower_byte < 256,
        ;
        let op = (higher_byte << 8) | lower_byte;
        self.pc += 2;
        op
    }
}

/// The bit fields of an opcode, as the decoder extracts them with masks and shifts.
pub(crate) proof fn lemma_opcode_fields(op: u16)
    by (bit_vector)
    ensures
        (op & 0xF000u16) >> 12u16 == op / 4096u16,
        (op & 0x0F00u16) >> 8u16 == (op / 256u16) % 16u16,
        (op & 0x00F0u16) >> 4u16 == (op / 16u16) % 16u16,
        op & 0x000Fu16 == op % 16u16,
        op & 0x0FFFu16 == op % 4096u16,
        op & 0x00FFu16 == op % 256u16,
{
}

/// Shifts of a byte by one, as used by 8XY6 and 8XYE.
proof fn lemma_byte_shifts(v: u8)
    by (bit_vector)
    ensures
        v & 1u8 == v % 2u8,
        v >> 1u8 == v / 2u8,
        (v >> 7u8) & 1u8 == v / 128u8,
        v << 1u8 == ((2 * v) % 256) as u8,
{
}


/// A sprite bit lands on a screen pixel whose offsets from the corner are that bit's column and row.
pub(crate) proof fn lemma_sprite_pixel_offsets(x0: int, y0: int, row: int, col: int)
    requires
        0 <= x0 < 256,
        0 <= y0 < 256,
        0 <= row < 32,
        0 <= col < 64,
    ensures
        0 <= sprite_pixel(x0, y0, row, col) < SCREEN_SIZE,
        col_offset(sprite_pixel(x0, y0, row, col) % 64, x0) == col,
        row_offset(sprite_pixel(x0, y0, row, col) / 64, y0) == row,
{
    let px = (x0 + col) % 64;
    let py = (y0 + row) % 32;
    let p = px + 64 * py;
    assert(p % 64 == px && p / 64 == py) by (nonlinear_arith)
        requires
            0 <= px < 64,
            0 <= py < 32,
            p == px + 64 * py,
    ;
    assert((px - x0) % 64 == col);
    assert((py - y0) % 32 == row);
}

/// Only one pixel has given column and row offsets from the corner.
pub(crate) proof fn lemma_sprite_pixel_unique(x0: int, y0: int, row: int, col: int, p: int)
    requires
        0 <= x0 < 256,
        0 <= y0 < 256,
        0 <= row < 32,
        0 <= col < 64,
        0 <= p < SCREEN_SIZE,
        col_offset(p % 64, x0) == col,
        row_offset(p / 64, y0) == row,
    ensures
        p == sprite_pixel(x0, y0, row, col),
{
    let px = p % 64;
    let py = p / 64;
    assert(p == px + 64 * py);
    assert(0 <= py < 32);
    assert(px == (x0 + col) % 64);
    assert(py == (y0 + row) % 32);
}


/// Whether pixel `p` lies under a lit sprite bit that the drawing loop has
/// already handled, when it is about to handle column `col` of row `row`.
spec fn drawn_before(s: Chip8State, x0: int, y0: int, n: int, p: int, row: int, col: int) -> bool {
    let r = row_offset(p / 64, y0);
    let c = col_offset(p % 64, x0);
    &&& sprite_covers(s, x0, y0, n, p)
    &&& (r < row || (r == row && c < col))
}

/// Whether a pixel that was on has been turned off by the part of the sprite drawn so far.
spec fn collided_before(s: Chip8State, x0: int, y0: int, n: int, row: int, col: int) -> bool {
    exists|p: int| 0 <= p < SCREEN_SIZE && #[trigger] drawn_before(s, x0, y0, n, p, row, col) && s.screen[p]
}

/// Handling one more sprite bit adds exactly the pixel it lands on, if the bit is lit.
proof fn lemma_draw_bit(s: Chip8State, x0: int, y0: int, n: int, row: int, col: int)
    requires
        s.ram.len() == RAM_SIZE,
        s.screen.len() == SCREEN_SIZE,
        s.i_reg + n <= RAM_SIZE,
        0 <= x0 < 256,
        0 <= y0 < 256,
        0 <= row < n < 16,
        0 <= col < 8,
    ensures
        0 <= sprite_pixel(x0, y0, row, col) < SCREEN_SIZE,
        !drawn_before(s, x0, y0, n, sprite_pixel(x0, y0, row, col), row, col),
        forall|p: int|
            0 <= p < SCREEN_SIZE ==> #[trigger] drawn_before(s, x0, y0, n, p, row, col + 1) == (
            drawn_before(s, x0, y0, n, p, row, col) || (p == sprite_pixel(x0, y0, row, col)
                && sprite_bit(s.ram[s.i_reg + row], col))),
        collided_before(s, x0, y0, n, row, col + 1) == (collided_before(s, x0, y0, n, row, col)
            || (sprite_bit(s.ram[s.i_reg + row], col) && s.screen[sprite_pixel(
            x0,
            y0,
            row,
            col,
        )])),
{
    let idx = sprite_pixel(x0, y0, row, col);
    let b = sprite_bit(s.ram[s.i_reg + row], col);
    lemma_sprite_pixel_offsets(x0, y0, row, col);
    assert forall|p: int|
        0 <= p < SCREEN_SIZE implies #[trigger] drawn_before(s, x0, y0, n, p, row, col + 1) == (
        drawn_before(s, x0, y0, n, p, row, col) || (p == idx && b)) by {
        let r = row_offset(p / 64, y0);
        let c = col_offset(p % 64, x0);
        if r == row && c == col {
            lemma_sprite_pixel_unique(x0, y0, row, col, p);
        }
    }
    if collided_before(s, x0, y0, n, row, col + 1) {
        let p = choose|p: int|
            0 <= p < SCREEN_SIZE && #[trigger] drawn_before(s, x0, y0, n, p, row, col + 1)
                && s.screen[p];
        if p != idx {
            assert(drawn_before(s, x0, y0, n, p, row, col));
        }
    }
    if collided_before(s, x0, y0, n, row, col) {
        let p = choose|p: int|
            0 <= p < SCREEN_SIZE && #[trigger] drawn_before(s, x0, y0, n, p, row, col)
                && s.screen[p];
        assert(drawn_before(s, x0, y0, n, p, row, col + 1));
    }
    if b && s.screen[idx] {
        assert(drawn_before(s, x0, y0, n, idx, row, col + 1));
    }
}

/// Finishing a row is the same as starting the next one.
proof fn lemma_draw_row_done(s: Chip8State, x0: int, y0: int, n: int, row: int)
    ensures
        forall|p: int| #[trigger]
            drawn_before(s, x0, y0, n, p, row, 8) == drawn_before(s, x0, y0, n, p, row + 1, 0),
        collided_before(s, x0, y0, n, row, 8) == collided_before(s, x0, y0, n, row + 1, 0),
{
    assert forall|p: int| #[trigger]
        drawn_before(s, x0, y0, n, p, row, 8) == drawn_before(s, x0, y0, n, p, row + 1, 0) by {}
    if collided_before(s, x0, y0, n, row, 8) {
        let p = choose|p: int|
            0 <= p < SCREEN_SIZE && #[trigger] drawn_before(s, x0, y0, n, p, row, 8)
                && s.screen[p];
        assert(drawn_before(s, x0, y0, n, p, row + 1, 0));
    }
    if collided_before(s, x0, y0, n, row + 1, 0) {
        let p = choose|p: int|
            0 <= p < SCREEN_SIZE && #[trigger] drawn_before(s, x0, y0, n, p, row + 1, 0)
                && s.screen[p];
        assert(drawn_before(s, x0, y0, n, p, row, 8));
    }
}

/// Once every row is handled, the handled pixels are exactly those under the sprite.
proof fn lemma_draw_all_rows(s: Chip8State, x0: int, y0: int, n: int)
    ensures
        forall|p: int| #[trigger]
            drawn_before(s, x0, y0, n, p, n, 0) == sprite_covers(s, x0, y0, n, p),
        collided_before(s, x0, y0, n, n, 0) == sprite_collides(s, x0, y0, n),
{
    assert forall|p: int| #[trigger]
        drawn_before(s, x0, y0, n, p, n, 0) == sprite_covers(s, x0, y0, n, p) by {}
    if collided_before(s, x0, y0, n, n, 0) {
        let p = choose|p: int|
            0 <= p < SCREEN_SIZE && #[trigger] drawn_before(s, x0, y0, n, p, n, 0) && s.screen[p];
        assert(sprite_covers(s, x0, y0, n, p));
    }
    if sprite_collides(s, x0, y0, n) {
        let p = choose|p: int|
            0 <= p < SCREEN_SIZE && #[trigger] sprite_covers(s, x0, y0, n, p) && s.screen[p];
        assert(drawn_before(s, x0, y0, n, p, n, 0));
    }
}

/// The decoder's bit test on a sprite row matches `sprite_bit`.
pub(crate) proof fn lemma_sprite_bit_mask(pixels: u8, col: u8)
    by (bit_vector)
    requires
        col < 8u8,
    ensures
        ((pixels & (0x80u8 >> col)) != 0u8) == (((pixels >> ((7u8 - col) as u8)) & 1u8) == 1u8),
{
}


/// The lowest-numbered key that is down is unique, so `first_key_down` names it.
pub(crate) proof fn lemma_first_key_down(keys: Seq<bool>, k: int)
    requires
        is_first_key_down(keys, k),
    ensures
        any_key_down(keys),
        first_key_down(keys) == k,
{
    assert(keys[k]);
    let c = first_key_down(keys);
    assert(is_first_key_down(keys, c));
    if c < k {
        assert(!keys[c]);
    } else if c > k {
        assert(!keys[k]);
    }
}

/// The new VX and, for the instructions that set it, the new VF of 8XYN.
fn alu_values(vx: u8, vy: u8, n: u16) -> (r: (u8, Option<u8>))
    requires
        n <= 7 || n == 0xE,
    ensures
        n == 0 ==> r == (vy, None::<u8>),
        n == 1 ==> r == (vx | vy, None::<u8>),
        n == 2 ==> r == (vx & vy, None::<u8>),
        n == 3 ==> r == (vx ^ vy, None::<u8>),
        n == 4 ==> r == (((vx + vy) % 256) as u8, Some(if vx + vy > 255 { 1u8 } else { 0u8 })),
        n == 5 ==> r == (((vx - vy) % 256) as u8, Some(if vx < vy { 0u8 } else { 1u8 })),
        n == 6 ==> r == (vx / 2, Some(vx % 2)),
        n == 7 ==> r == (((vy - vx) % 256) as u8, Some(if vy < vx { 1u8 } else { 0u8 })),
        n == 0xE ==> r == (((vx * 2) % 256) as u8, Some(vx / 128)),
{
    proof {
        lemma_byte_shifts(vx);
    }
    if n == 0 {
        (vy, None)
    } else if n == 1 {
        (vx | vy, None)
    } else if n == 2 {
        (vx & vy, None)
    } else if n == 3 {
        (vx ^ vy, None)
    } else if n == 4 {
        let carry = (vx as u16) + (vy as u16) > 255;
        (vx.wrapping_add(vy), Some(if carry { 1 } else { 0 }))
    } else if n == 5 {
        let borrow = vx < vy;
        (vx.wrapping_sub(vy), Some(if borrow { 0 } else { 1 }))
    } else if n == 6 {
        (vx >> 1, Some(vx & 1))
    } else if n == 7 {
        let borrow = vy < vx;
        (vy.wrapping_sub(vx), Some(if borrow { 1 } else { 0 }))
    } else {
        (vx << 1, Some((vx >> 7) & 1))
    }
}

impl Emulator {
    /// Decodes and executes `op`, with `rnd` as the random byte that CXNN
    /// masks (every other opcode ignores it).
    pub fn execute_with(&mut self, op: u16, rnd: u8)
        requires
            can_execute(old(self)@, op),
        ensures
            final(self)@.wf(),
            final(self)@ == step(old(self)@, op, rnd),
    {
        proof {
            use_type_invariant(&*self);
        }
        let digit1 = (op & 0xF000) >> 12;
        let digit2 = (op & 0x0F00) >> 8;
        let digit3 = (op & 0x00F0) >> 4;
        let digit4 = op & 0x000F;
        proof {
            lemma_opcode_fields(op);
        }
        if digit1 == 0 {
            self.exec_sys(op);
        } else if digit1 == 8 {
            self.exec_alu(op, digit2 as usize, digit3 as usize, digit4);
        } else if digit1 == 0xD {
            self.exec_draw(op, digit2 as usize, digit3 as usize, digit4);
        } else if digit1 == 0xE {
            self.exec_keys(op, digit2 as usize, op & 0xFF);
        } else if digit1 == 0xF {
            self.exec_misc(op, digit2 as usize, op & 0xFF);
        } else {
            self.exec_basic(op, rnd, digit1, digit2 as usize, digit3 as usize);
        }
    }

    /// Decodes and executes `op`; CXNN draws its random byte from `rand`.
    fn execute(&mut self, op: u16)
        requires
            can_execute(old(self)@, op),
        ensures
            exists|rnd: u8| final(self)@ == step(old(self)@, op, rnd),
            !is_random_op(op) ==> final(self)@ == step(old(self)@, op, 0),
    {
        proof {
            use_type_invariant(&*self);
        }
        proof {
            lemma_opcode_fields(op);
        }
        let rnd: u8 = if (op & 0xF000) >> 12 == 0xC {
            random_byte()
        } else {
            0
        };
        self.execute_with(op, rnd);
    }

    /// One fetch-decode-execute cycle: reads the opcode at the program
    /// counter, moves past it and executes it. CXNN draws its random byte
    /// from `rand`; every other opcode has a determined effect.
    pub fn tick(&mut self)
        requires
            can_tick(old(self)@),
        ensures
            final(self)@.wf(),
            exists|rnd: u8|
                final(self)@ == step(after_fetch(old(self)@), fetched_op(old(self)@), rnd),
            !is_random_op(fetched_op(old(self)@)) ==> final(self)@ == step(
                after_fetch(old(self)@),
                fetched_op(old(self)@),
                0,
            ),
    {
        proof {
            use_type_invariant(&*self);
        }
        let op = self.fetch();
        self.execute(op);
    }

    /// One fetch-decode-execute cycle with `rnd` as the random byte of CXNN.
    pub fn tick_with(&mut self, rnd: u8)
        requires
            can_tick(old(self)@),
        ensures
            final(self)@.wf(),
            final(self)@ == step(after_fetch(old(self)@), fetched_op(old(self)@), rnd),
    {
        proof {
            use_type_invariant(&*self);
        }
        let op = self.fetch();
        self.execute_with(op, rnd);
    }

    /// Executes a family 0x0 instruction: NOP, CLS or RET.
    fn exec_sys(&mut self, op: u16)
        requires
            op_family(op) == 0,
            sys_ok(old(self)@, op),
        ensures
            final(self)@ == step_sys(old(self)@, op),
    {
        proof {
            use_type_invariant(&*self);
        }
        if op == 0x0000 {
            return;
        } else if op == 0x00E0 {
            self.screen = [false; 2048];
            assert(self@.screen =~= step_sys(old(self)@, op).screen);
        } else {
            let ret_addr = self.pop();
            self.pc = ret_addr;
        }
    }

    /// Executes a jump, call, skip, load, add or random instruction.
    fn exec_basic(&mut self, op: u16, rnd: u8, family: u16, x: usize, y: usize)
        requires
            basic_ok(old(self)@, op),
            family == op_family(op),
            x == op_x(op),
            y == op_y(op),
            family != 0 && family != 8 && family < 0xD,
        ensures
            final(self)@ == step_basic(old(self)@, op, rnd),
    {
        proof {
            use_type_invariant(&*self);
        }
        proof {
            lemma_opcode_fields(op);
        }
        let nnn = op & 0xFFF;
        let nn = (op & 0xFF) as u8;
        if family == 1 {
            self.pc = nnn;
        } else if family == 2 {
            self.push(self.pc);
            self.pc = nnn;
        } else if family == 3 {
            if self.v_reg[x] == nn {
                self.pc += 2;
            }
        } else if family == 4 {
            if self.v_reg[x] != nn {
                self.pc += 2;
            }
        } else if family == 5 {
            if self.v_reg[x] == self.v_reg[y] {
                self.pc += 2;
            }
        } else if family == 6 {
            self.v_reg[x] = nn;
        } else if family == 7 {
            self.v_reg[x] = self.v_reg[x].wrapping_add(nn);
        } else if family == 9 {
            if self.v_reg[x] != self.v_reg[y] {
                self.pc += 2;
            }
        } else if family == 0xA {
            self.i_reg = nnn;
        } else if family == 0xB {
            self.pc = (self.v_reg[0] as u16) + nnn;
        } else {
            self.v_reg[x] = rnd & nn;
        }
    }

    /// Executes an arithmetic or logic instruction 8XYN.
    fn exec_alu(&mut self, op: u16, x: usize, y: usize, n: u16)
        requires
            op_family(op) == 8,
            alu_known(op),
            x == op_x(op),
            y == op_y(op),
            n == op_n(op),
        ensures
            final(self)@ == step_alu(old(self)@, op),
    {
        proof {
            use_type_invariant(&*self);
        }
        let vx = self.v_reg[x];
        let vy = self.v_reg[y];
        let (new_vx, flag) = alu_values(vx, vy, n);
        self.v_reg[x] = new_vx;
        match flag {
            Some(f) => {
                self.v_reg[0xF] = f;
            },
            None => {},
        }
    }

    /// Executes DXYN: draws the N-row sprite at I with its corner at (VX, VY).
    fn exec_draw(&mut self, op: u16, x: usize, y: usize, n: u16)
        requires
            op_family(op) == 0xD,
            draw_ok(old(self)@, op),
            x == op_x(op),
            y == op_y(op),
            n == op_n(op),
        ensures
            final(self)@ == step_draw(old(self)@, op),
    {
        proof {
            use_type_invariant(&*self);
        }
        let ghost s0 = self@;
        let x_coord = self.v_reg[x] as u16;
        let y_coord = self.v_reg[y] as u16;
        let ghost x0 = x_coord as int;
        let ghost y0 = y_coord as int;
        let num_rows = n;
        let mut flipped = false;
        let mut y_line: u16 = 0;
        while y_line < num_rows
            invariant
                y_line <= num_rows < 16,
                num_rows == 0 || s0.i_reg + num_rows <= RAM_SIZE,
                x0 == x_coord < 256,
                y0 == y_coord < 256,
                s0.ram.len() == RAM_SIZE,
                s0.screen.len() == SCREEN_SIZE,
                self@ == (Chip8State { screen: self@.screen, ..s0 }),
                s0.sp <= STACK_SIZE,
                forall|p: int|
                    0 <= p < SCREEN_SIZE ==> self@.screen[p] == (s0.screen[p] != drawn_before(
                        s0,
                        x0,
                        y0,
                        num_rows as int,
                        p,
                        y_line as int,
                        0,
                    )),
                flipped == collided_before(s0, x0, y0, num_rows as int, y_line as int, 0),
            decreases num_rows - y_line,
        {
            let addr = self.i_reg + y_line;
            let pixels = self.ram[addr as usize];
            let mut x_line: u16 = 0;
            while x_line < 8
                invariant
                    x_line <= 8,
                    y_line < num_rows < 16,
                    s0.i_reg + num_rows <= RAM_SIZE,
                    x0 == x_coord < 256,
                    y0 == y_coord < 256,
                    s0.ram.len() == RAM_SIZE,
                    s0.screen.len() == SCREEN_SIZE,
                    pixels == s0.ram[s0.i_reg + y_line],
                    self@ == (Chip8State { screen: self@.screen, ..s0 }),
                    s0.sp <= STACK_SIZE,
                    forall|p: int|
                        0 <= p < SCREEN_SIZE ==> self@.screen[p] == (s0.screen[p] != drawn_before(
                            s0,
                            x0,
                            y0,
                            num_rows as int,
                            p,
                            y_line as int,
                            x_line as int,
                        )),
                    flipped == collided_before(
                        s0,
                        x0,
                        y0,
                        num_rows as int,
                        y_line as int,
                        x_line as int,
                    ),
                decreases 8 - x_line,
            {
                proof {
                    lemma_draw_bit(s0, x0, y0, num_rows as int, y_line as int, x_line as int);
                    lemma_sprite_bit_mask(pixels, x_line as u8);
                }
                let ghost idx = sprite_pixel(x0, y0, y_line as int, x_line as int);
                if (pixels & (0x80u8 >> (x_line as u8))) != 0 {
                    let px = (x_coord + x_line) as usize % SCREEN_WIDTH;
                    let py = (y_coord + y_line) as usize % SCREEN_HEIGHT;
                    let pos = px + SCREEN_WIDTH * py;
                    assert(pos == idx);
                    flipped = flipped || self.screen[pos];
                    self.screen[pos] = !self.screen[pos];
                }
                x_line += 1;
            }
            proof {
                lemma_draw_row_done(s0, x0, y0, num_rows as int, y_line as int);
            }
            y_line += 1;
        }
        proof {
            lemma_draw_all_rows(s0, x0, y0, num_rows as int);
        }
        if flipped {
            self.v_reg[0xF] = 1;
        } else {
            self.v_reg[0xF] = 0;
        }
        assert(self@.screen =~= step_draw(s0, op).screen);
    }

    /// The lowest-numbered key that is down, if any.
    fn first_pressed_key(&self) -> (k: Option<usize>)
        ensures
            match k {
                Some(k) => is_first_key_down(self@.keys, k as int),
                None => !any_key_down(self@.keys),
            },
    {
        proof {
            use_type_invariant(&*self);
        }
        let mut i: usize = 0;
        while i < NUM_KEYS
            invariant
                i <= NUM_KEYS,
                forall|j: int| 0 <= j < i ==> !#[trigger] self@.keys[j],
            decreases NUM_KEYS - i,
        {
            if self.keys[i] {
                return Some(i);
            }
            i += 1;
        }
        None
    }

    /// Executes a family 0xF instruction.
    fn exec_misc(&mut self, op: u16, x: usize, nn: u16)
        requires
            op_family(op) == 0xF,
            misc_ok(old(self)@, op),
            x == op_x(op),
            nn == op_nn(op),
        ensures
            final(self)@ == step_misc(old(self)@, op),
    {
        proof {
            use_type_invariant(&*self);
        }
        let ghost s0 = self@;
        let i = self.i_reg as usize;
        if nn == 0x07 {
            self.v_reg[x] = self.dt;
        } else if nn == 0x0A {
            match self.first_pressed_key() {
                Some(k) => {
                    proof {
                        lemma_first_key_down(s0.keys, k as int);
                    }
                    self.v_reg[x] = k as u8;
                },
                None => {
                    self.pc -= 2;
                },
            }
        } else if nn == 0x15 {
            self.dt = self.v_reg[x];
        } else if nn == 0x18 {
            self.st = self.v_reg[x];
        } else if nn == 0x1E {
            let vx = self.v_reg[x] as u16;
            self.i_reg = self.i_reg.wrapping_add(vx);
        } else if nn == 0x29 {
            let c = self.v_reg[x] as u16;
            self.i_reg = c * 5;
        } else if nn == 0x33 {
            let vx = self.v_reg[x];
            self.ram[i] = vx / 100;
            self.ram[i + 1] = (vx / 10) % 10;
            self.ram[i + 2] = vx % 10;
        } else if nn == 0x55 {
            let mut idx: usize = 0;
            while idx <= x
                invariant
                    x < NUM_REGS,
                    i == s0.i_reg,
                    i + x < RAM_SIZE,
                    idx <= x + 1,
                    self@ == (Chip8State { ram: self@.ram, ..s0 }),
                    s0.sp <= STACK_SIZE,
                    self@.ram.len() == RAM_SIZE,
                    forall|a: int|
                        0 <= a < RAM_SIZE ==> #[trigger] self@.ram[a] == if i <= a < i + idx {
                            s0.v_reg[a - i]
                        } else {
                            s0.ram[a]
                        },
                decreases x + 1 - idx,
            {
                self.ram[i + idx] = self.v_reg[idx];
                idx += 1;
            }
            assert(self@.ram =~= step_misc(s0, op).ram);
        } else {
            let mut idx: usize = 0;
            while idx <= x
                invariant
                    x < NUM_REGS,
                    i == s0.i_reg,
                    i + x < RAM_SIZE,
                    idx <= x + 1,
                    self@ == (Chip8State { v_reg: self@.v_reg, ..s0 }),
                    s0.sp <= STACK_SIZE,
                    forall|r: int|
                        0 <= r < NUM_REGS ==> #[trigger] self@.v_reg[r] == if r < idx {
                            s0.ram[i + r]
                        } else {
                            s0.v_reg[r]
                        },
                decreases x + 1 - idx,
            {
                self.v_reg[idx] = self.ram[i + idx];
                idx += 1;
            }
            assert(self@.v_reg =~= step_misc(s0, op).v_reg);
        }
    }

    /// Executes EX9E or EXA1: skip on the state of the key named by VX.
    fn exec_keys(&mut self, op: u16, x: usize, nn: u16)
        requires
            op_family(op) == 0xE,
            keys_ok(old(self)@, op),
            x == op_x(op),
            nn == op_nn(op),
        ensures
            final(self)@ == step_keys(old(self)@, op),
    {
        proof {
            use_type_invariant(&*self);
        }
        let vx = self.v_reg[x];
        let key = self.keys[vx as usize];
        if nn == 0x9E {
            if key {
                self.pc += 2;
            }
        } else {
            if !key {
                self.pc += 2;
            }
        }
    }
}

} // verus!
