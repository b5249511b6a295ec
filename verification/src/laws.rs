//! Properties of the machine that span several instructions or hold of every state.
use vstd::math::min;
use vstd::prelude::*;

use crate::model::{
    after_fetch, any_key_down, can_execute, can_tick, draw_ok, fetched_op, is_random_op,
    load_program, misc_ok, op_family, op_n, op_nn, op_x, op_y, pop_state, push_state, stack_top,
    step, tick_timers_spec, timers_after, Chip8State, NUM_KEYS, RAM_SIZE, STACK_SIZE, START_ADDR,
};

verus! {

/// The power-on state has the machine's shape.
pub proof fn lemma_initial_wf()
    ensures
        Chip8State::initial().wf(),
{
}

/// Every instruction that runs without a fault keeps the machine's shape:
/// buffers keep their sizes and the stack pointer never passes the stack's depth.
pub proof fn lemma_step_preserves_wf(s: Chip8State, op: u16, rnd: u8)
    requires
        s.wf(),
        can_execute(s, op),
    ensures
        step(s, op, rnd).wf(),
{
}

/// A whole fetch-decode-execute cycle keeps the machine's shape.
pub proof fn lemma_tick_preserves_wf(s: Chip8State, rnd: u8)
    requires
        s.wf(),
        can_tick(s),
    ensures
        step(after_fetch(s), fetched_op(s), rnd).wf(),
{
    lemma_step_preserves_wf(after_fetch(s), fetched_op(s), rnd);
}

/// What the frontend does between cycles (pressing or releasing a key,
/// loading a program, counting the timers down) keeps the machine's shape.
pub proof fn lemma_frontend_preserves_wf(s: Chip8State, key: int, pressed: bool, data: Seq<u8>)
    requires
        s.wf(),
        0 <= key < NUM_KEYS,
        START_ADDR + data.len() <= RAM_SIZE,
    ensures
        (Chip8State { keys: s.keys.update(key, pressed), ..s }).wf(),
        load_program(s, data).wf(),
        tick_timers_spec(s).wf(),
{
}

/// Popping the call stack right after a push gives back the pushed value and
/// the old stack pointer; only the slot written by the push keeps the value.
pub proof fn lemma_pop_undoes_push(s: Chip8State, val: u16)
    requires
        s.wf(),
        s.sp < STACK_SIZE,
    ensures
        push_state(s, val).wf(),
        stack_top(push_state(s, val)) == val,
        pop_state(push_state(s, val)) == (Chip8State {
            stack: s.stack.update(s.sp as int, val),
            ..s
        }),
{
}

/// Over `k` frames each timer counts down by `k`, stopping at zero and staying
/// there; nothing else in the machine changes.
pub proof fn lemma_timers_after_frames(s: Chip8State, k: nat)
    ensures
        timers_after(s, k).dt == s.dt - min(s.dt as int, k as int),
        timers_after(s, k).st == s.st - min(s.st as int, k as int),
        timers_after(s, k) == (Chip8State {
            dt: timers_after(s, k).dt,
            st: timers_after(s, k).st,
            ..s
        }),
    decreases k,
{
    if k > 0 {
        lemma_timers_after_frames(s, (k - 1) as nat);
    }
}

/// Calling a subroutine (2NNN) and returning from it (00EE) brings back the
/// program counter and the stack pointer; only the stack slot that held the
/// return address keeps it.
pub proof fn lemma_call_then_return(s: Chip8State, addr: u16, rnd1: u8, rnd2: u8)
    requires
        s.wf(),
        s.sp < STACK_SIZE,
        addr < 0x1000,
    ensures
        can_execute(s, (0x2000 + addr) as u16),
        can_execute(step(s, (0x2000 + addr) as u16, rnd1), 0x00EE),
        step(step(s, (0x2000 + addr) as u16, rnd1), 0x00EE, rnd2) == (Chip8State {
            stack: s.stack.update(s.sp as int, s.pc),
            ..s
        }),
{
    let call = (0x2000 + addr) as u16;
    assert(op_family(call) == 2);
    assert(call as int % 4096 == addr);
    let t = step(step(s, call, rnd1), 0x00EE, rnd2);
    assert(t.stack =~= s.stack.update(s.sp as int, s.pc));
}

/// Drawing the same sprite twice at the same place leaves the screen as it
/// was, since drawing flips pixels (when neither coordinate register is VF,
/// which the first drawing overwrites).
pub proof fn lemma_draw_twice_restores_screen(s: Chip8State, op: u16, rnd1: u8, rnd2: u8)
    requires
        s.wf(),
        op_family(op) == 0xD,
        op_x(op) != 0xF,
        op_y(op) != 0xF,
        draw_ok(s, op),
    ensures
        can_execute(step(s, op, rnd1), op),
        step(step(s, op, rnd1), op, rnd2).screen == s.screen,
{
    let s1 = step(s, op, rnd1);
    let s2 = step(s1, op, rnd2);
    assert(s1.reg(op_x(op)) == s.reg(op_x(op)));
    assert(s1.reg(op_y(op)) == s.reg(op_y(op)));
    assert(s2.screen =~= s.screen);
}

/// Waiting for a key (FX0A) while no key is down leaves the machine exactly
/// as it was: the cycle repeats the same instruction until a key goes down.
pub proof fn lemma_wait_key_spins(s: Chip8State, rnd: u8)
    requires
        s.wf(),
        can_tick(s),
        op_family(fetched_op(s)) == 0xF,
        op_nn(fetched_op(s)) == 0x0A,
        !any_key_down(s.keys),
    ensures
        step(after_fetch(s), fetched_op(s), rnd) == s,
{
}

/// A loaded program's first instruction is what the next cycle fetches,
/// when the program counter is at the load address (as after power-on or reset).
pub proof fn lemma_load_then_fetch(s: Chip8State, data: Seq<u8>)
    requires
        s.wf(),
        s.pc == START_ADDR,
        2 <= data.len(),
        START_ADDR + data.len() <= RAM_SIZE,
    ensures
        fetched_op(load_program(s, data)) == data[0] as int * 256 + data[1] as int,
{
}

/// FX33 writes the decimal digits of VX at I, I+1 and I+2: hundreds, tens, ones.
pub proof fn lemma_bcd_digits(s: Chip8State, op: u16, rnd: u8)
    requires
        s.wf(),
        op_family(op) == 0xF,
        op_nn(op) == 0x33,
        misc_ok(s, op),
    ensures
        ({
            let t = step(s, op, rnd);
            let i = s.i_reg as int;
            &&& t.ram[i] < 10
            &&& t.ram[i + 1] < 10
            &&& t.ram[i + 2] < 10
            &&& 100 * t.ram[i] + 10 * t.ram[i + 1] + t.ram[i + 2] == s.reg(op_x(op))
        }),
{
}

/// 8XY4 with X other than F: VX and the carry in VF together hold the full sum.
pub proof fn lemma_add_carry(s: Chip8State, op: u16, rnd: u8)
    requires
        s.wf(),
        op_family(op) == 8,
        op_n(op) == 4,
        op_x(op) != 0xF,
    ensures
        ({
            let t = step(s, op, rnd);
            &&& t.reg(0xF) <= 1
            &&& t.reg(op_x(op)) + 256 * t.reg(0xF) == s.reg(op_x(op)) + s.reg(op_y(op))
        }),
{
}

/// 8XY5 with X other than F: VF is 1 exactly when no borrow occurred, and VX
/// is the difference, borrowing 256 otherwise.
pub proof fn lemma_sub_borrow(s: Chip8State, op: u16, rnd: u8)
    requires
        s.wf(),
        op_family(op) == 8,
        op_n(op) == 5,
        op_x(op) != 0xF,
    ensures
        ({
            let t = step(s, op, rnd);
            &&& t.reg(0xF) <= 1
            &&& t.reg(op_x(op)) == s.reg(op_x(op)) - s.reg(op_y(op)) + 256 * (1 - t.reg(0xF))
        }),
{
}

/// Storing V0..VX at I (FX55) and then loading with the same X and I (FX65)
/// leaves the registers unchanged.
pub proof fn lemma_store_then_load_registers(s: Chip8State, x: u16, rnd1: u8, rnd2: u8)
    requires
        s.wf(),
        x < 16,
        s.i_reg + x < RAM_SIZE,
    ensures
        can_execute(s, (0xF055 + x * 256) as u16),
        can_execute(step(s, (0xF055 + x * 256) as u16, rnd1), (0xF065 + x * 256) as u16),
        step(step(s, (0xF055 + x * 256) as u16, rnd1), (0xF065 + x * 256) as u16, rnd2).v_reg
            == s.v_reg,
{
    let store = (0xF055 + x * 256) as u16;
    let load = (0xF065 + x * 256) as u16;
    assert(op_family(store) == 0xF && op_x(store) == x && op_nn(store) == 0x55);
    assert(op_family(load) == 0xF && op_x(load) == x && op_nn(load) == 0x65);
    let s1 = step(s, store, rnd1);
    let s2 = step(s1, load, rnd2);
    assert(s2.v_reg =~= s.v_reg);
}

/// Only CXNN depends on the random byte: every other instruction has one
/// determined effect.
pub proof fn lemma_only_cxnn_is_random(s: Chip8State, op: u16, rnd1: u8, rnd2: u8)
    requires
        !is_random_op(op),
    ensures
        step(s, op, rnd1) == step(s, op, rnd2),
{
}

/// CXNN leaves in VX only bits of the mask NN.
pub proof fn lemma_random_within_mask(s: Chip8State, op: u16, rnd: u8)
    requires
        s.wf(),
        is_random_op(op),
    ensures
        step(s, op, rnd).v_reg[op_x(op)] & (op_nn(op) as u8) == step(s, op, rnd).v_reg[op_x(op)],
{
    let nn = op_nn(op) as u8;
    assert((rnd & nn) & nn == rnd & nn) by (bit_vector);
}

} // verus!
