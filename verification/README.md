# chip8_core

The core of a CHIP-8 interpreter, verified with Verus.

- `src/model.rs` — the machine state as plain sequences and integers
  (`Chip8State`) and, for every opcode, what it does (`step`) and when it
  runs without a fault (`can_execute`).
- `src/emulator.rs` — `Emulator`, the executable machine; each public
  method's contract is stated over its view `emu@: Chip8State`.
- `src/laws.rs` — properties spanning several instructions (shape
  invariant, call/return, drawing twice, waiting for a key, BCD, carry and
  borrow, register store/load, where chance enters).
- `src/rng.rs` — the single call into `rand`, for the CXNN instruction.

The frontend drives the machine: `load` a program, call `tick` once per
instruction and `tick_timers` once per frame, report keys with `keypress`
and draw `get_display`.
