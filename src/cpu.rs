//! The interpreter: fetches, decodes and executes one instruction per step.
use vstd::prelude::*;

use crate::gpu::{blank_frame, draw_collides, draw_frame, Coordinate, GPU};
use crate::instructions::{decode, parse_opcode, reg_x, reg_y, Opcode};
use crate::memory::{
    add16, block_fits, write_block, Memory, MemoryState, GLYPH_SIZE, MEM_SIZE, NUM_REGS, PROGRAM_START,
    STACK_SIZE,
};

verus! {

/// The hundreds, tens and ones digits of a number, one per byte.
pub type BCD = (u8, u8, u8);

/// Numbers that have a binary-coded decimal form.
pub trait BCDRepresentable {
    /// The decimal digits of the number.
    spec fn spec_bcd(&self) -> BCD;

    /// Converts the number into its hundreds, tens and ones digits.
    fn to_bcd(&self) -> (r: BCD)
        ensures
            r == self.spec_bcd(),
    ;
}

impl BCDRepresentable for u8 {
    open spec fn spec_bcd(&self) -> BCD {
        ((*self / 100) as u8, ((*self % 100) / 10) as u8, (*self % 10) as u8)
    }

    fn to_bcd(&self) -> (r: BCD) {
        let hundreds = *self / 100;
        let tens = (*self % 100) / 10;
        let ones = *self % 10;
        (hundreds, tens, ones)
    }
}

/// 8-bit wrapping addition.
pub open spec fn add8(a: u8, b: u8) -> u8 {
    ((a + b) % 0x100) as u8
}

/// 8-bit wrapping subtraction.
pub open spec fn sub8(a: u8, b: u8) -> u8 {
    ((a - b + 0x100) % 0x100) as u8
}

/// Whether key `k` is held down in the bit mask `keys`; there is no key 16 or
/// above.
pub open spec fn key_down(keys: u16, k: int) -> bool {
    0 <= k < 16 && keys & (1u16 << (k as u16)) != 0
}

/// The lowest key at or above `from` that is held down; 16 when there is none.
pub open spec fn first_key(keys: u16, from: int) -> int
    decreases 16 - from,
{
    if from >= 16 || from < 0 {
        16
    } else if key_down(keys, from) {
        from
    } else {
        first_key(keys, from + 1)
    }
}

/// Where the random bytes of the random-byte instruction come from.
#[derive(PartialEq, Eq, Structural, Clone, Copy, Debug)]
pub enum RandomSource {
    /// The thread-local generator.
    Thread,
    /// Always this byte.
    Fixed(u8),
}

/// The abstract state of the whole machine.
pub struct MachineState {
    pub mem: MemoryState,
    pub frame: Seq<Seq<u8>>,
    pub keys: u16,
    pub halted: bool,
    pub awaiting: Option<u8>,
}

impl MachineState {
    /// The state of a new machine.
    pub open spec fn initial() -> MachineState {
        MachineState {
            mem: MemoryState::initial(),
            frame: blank_frame(),
            keys: 0,
            halted: false,
            awaiting: None,
        }
    }

    /// The state with a new memory unit.
    pub open spec fn with_mem(self, mem: MemoryState) -> MachineState {
        MachineState { mem, ..self }
    }

    /// A pending key wait names one of the 16 registers.
    pub open spec fn wf(self) -> bool {
        self.awaiting is Some ==> self.awaiting->0 < 16
    }

    /// The state stopped.
    pub open spec fn stopped(self) -> MachineState {
        MachineState { halted: true, ..self }
    }
}

/// Whether the skip instruction `op` skips, with operand values `vx`, `vy`.
pub open spec fn skip_taken(op: Opcode, vx: u8, vy: u8, keys: u16) -> bool {
    match op {
        Opcode::SkipIfRegEqualsByte(k) => vx == k,
        Opcode::SkipIfRegNotEqualsByte(k) => vx != k,
        Opcode::SkipIfRegEqualsReg => vx == vy,
        Opcode::SkipIfRegNotEqualsReg => vx != vy,
        Opcode::SkipIfKeyPressed => key_down(keys, vx as int),
        Opcode::SkipIfKeyNotPressed => !key_down(keys, vx as int),
        _ => false,
    }
}

/// Whether `op` changes control flow outside the skips, or stops the machine.
pub open spec fn is_flow(op: Opcode) -> bool {
    match op {
        Opcode::ClearScreen | Opcode::Return | Opcode::JumpToAddress(_) | Opcode::CallAddress(_) | Opcode::JumpToAddressPlusV0(_) | Opcode::Unknown => true,
        _ => false,
    }
}

/// Whether `op` computes a register from registers and immediate bytes.
pub open spec fn is_register_op(op: Opcode) -> bool {
    match op {
        Opcode::LoadByteIntoReg(_) | Opcode::AddByteToReg(_) | Opcode::LoadRegIntoReg
        | Opcode::OrRegWithReg | Opcode::AndRegWithReg | Opcode::XorRegWithReg
        | Opcode::AddRegToReg | Opcode::SubtractRegFromReg | Opcode::ShiftRight
        | Opcode::SubstractRegFromOtherReg | Opcode::ShiftLeft => true,
        _ => false,
    }
}

/// Whether `op` is none of the flow, skip and register instructions.
pub open spec fn is_other_op(op: Opcode) -> bool {
    !is_flow(op) && !is_skip(op) && !is_register_op(op)
}

/// Whether `op` is one of the conditional skips.
pub open spec fn is_skip(op: Opcode) -> bool {
    match op {
        Opcode::SkipIfRegEqualsByte(_) | Opcode::SkipIfRegNotEqualsByte(_)
        | Opcode::SkipIfRegEqualsReg | Opcode::SkipIfRegNotEqualsReg | Opcode::SkipIfKeyPressed
        | Opcode::SkipIfKeyNotPressed => true,
        _ => false,
    }
}

/// The state after executing the word `w` in state `s`; `rnd` is the random
/// byte that the random-byte instruction uses. A stopped machine stays as it
/// is. An unknown word stops the machine with `pc` moved past it; a call on a
/// full stack, a return on an empty one, and a memory block instruction whose
/// bytes would run past the end of memory stop it with `pc` left on the word. Results are written before the flag register VF, so VF holds the flag
/// even when it is the destination.
pub open spec fn step_state(s: MachineState, w: u16, rnd: u8) -> MachineState {
    let x = reg_x(w) as int;
    let m = s.mem;
    let vx = m.v[x];
    let vy = m.v[reg_y(w) as int];
    let op = decode(w);
    if s.halted {
        s
    } else {
        match op {
            Opcode::SkipIfRegEqualsByte(_) | Opcode::SkipIfRegNotEqualsByte(_)
            | Opcode::SkipIfRegEqualsReg | Opcode::SkipIfRegNotEqualsReg | Opcode::SkipIfKeyPressed
            | Opcode::SkipIfKeyNotPressed => s.with_mem(
                m.advance(if skip_taken(op, vx, vy, s.keys) { 4 } else { 2 }),
            ),
            Opcode::ClearScreen => MachineState { frame: blank_frame(), mem: m.advance(2), ..s },
            Opcode::Return => if 0 < m.sp <= STACK_SIZE {
                s.with_mem(MemoryState { sp: (m.sp - 1) as u8, pc: m.stack[m.sp - 1], ..m })
            } else {
                s.stopped()
            },
            Opcode::JumpToAddress(a) => s.with_mem(MemoryState { pc: a, ..m }),
            Opcode::CallAddress(a) => if m.sp < STACK_SIZE {
                s.with_mem(
                    MemoryState {
                        stack: m.stack.update(m.sp as int, add16(m.pc as int, 2)),
                        sp: (m.sp + 1) as u8,
                        pc: a,
                        ..m
                    },
                )
            } else {
                s.stopped()
            },
            Opcode::LoadByteIntoReg(k) => s.with_mem(m.set_reg(x, k).advance(2)),
            Opcode::AddByteToReg(k) => s.with_mem(m.set_reg(x, add8(vx, k)).advance(2)),
            Opcode::LoadRegIntoReg => s.with_mem(m.set_reg(x, vy).advance(2)),
            Opcode::OrRegWithReg => s.with_mem(m.set_reg(x, vx | vy).advance(2)),
            Opcode::AndRegWithReg => s.with_mem(m.set_reg(x, vx & vy).advance(2)),
            Opcode::XorRegWithReg => s.with_mem(m.set_reg(x, vx ^ vy).advance(2)),
            Opcode::AddRegToReg => s.with_mem(
                m.set_reg(x, add8(vx, vy)).set_reg(15, if vx + vy > 255 { 1 } else { 0 }).advance(2),
            ),
            Opcode::SubtractRegFromReg => s.with_mem(
                m.set_reg(x, sub8(vx, vy)).set_reg(15, if vx >= vy { 1 } else { 0 }).advance(2),
            ),
            Opcode::ShiftRight => s.with_mem(m.set_reg(x, vx >> 1u8).set_reg(15, vx & 1).advance(2)),
            Opcode::SubstractRegFromOtherReg => s.with_mem(
                m.set_reg(x, sub8(vy, vx)).set_reg(15, if vy >= vx { 1 } else { 0 }).advance(2),
            ),
            Opcode::ShiftLeft => s.with_mem(m.set_reg(x, vx << 1u8).set_reg(15, vx >> 7u8).advance(2)),
            Opcode::LoadIndex(a) => s.with_mem(MemoryState { i: a, ..m }.advance(2)),
            Opcode::JumpToAddressPlusV0(a) => s.with_mem(
                MemoryState { pc: add16(a as int, m.v[0] as int), ..m },
            ),
            Opcode::RandomByte(k) => s.with_mem(m.set_reg(x, rnd & k).advance(2)),
            Opcode::DrawSprite(n) => {
                let sprite = m.sprite(n as int);
                let hit = draw_collides(s.frame, vx as int, vy as int, sprite);
                MachineState {
                    frame: draw_frame(s.frame, vx as int, vy as int, sprite),
                    mem: m.set_reg(15, if hit { 1 } else { 0 }).advance(2),
                    ..s
                }
            },
            Opcode::LoadDelayTimerIntoReg => s.with_mem(m.set_reg(x, m.dt).advance(2)),
            Opcode::LoadKeyIntoReg => if s.keys == 0 {
                MachineState { awaiting: Some(x as u8), ..s }
            } else {
                MachineState {
                    mem: m.set_reg(x, first_key(s.keys, 0) as u8).advance(2),
                    awaiting: None,
                    ..s
                }
            },
            Opcode::LoadRegIntoDelayTimer => s.with_mem(MemoryState { dt: vx, ..m }.advance(2)),
            Opcode::LoadRegIntoSoundTimer => s.with_mem(MemoryState { st: vx, ..m }.advance(2)),
            Opcode::AddRegToIndex => s.with_mem(
                MemoryState { i: add16(m.i as int, vx as int), ..m }.advance(2),
            ),
            Opcode::LoadFontIntoReg => s.with_mem(
                MemoryState { i: (vx * GLYPH_SIZE) as u16, ..m }.advance(2),
            ),
            Opcode::LoadBCDIntoMem => if block_fits(m.i as int, 3) {
                let d = vx.spec_bcd();
                s.with_mem(
                    MemoryState {
                        memory: write_block(m.memory, m.i as int, seq![d.0, d.1, d.2]),
                        ..m
                    }.advance(2),
                )
            } else {
                s.stopped()
            },
            Opcode::StoreRegsIntoMem => if block_fits(m.i as int, NUM_REGS as int) {
                s.with_mem(
                    MemoryState { memory: write_block(m.memory, m.i as int, m.v), ..m }.advance(2),
                )
            } else {
                s.stopped()
            },
            Opcode::LoadRegsFromMem => if block_fits(m.i as int, NUM_REGS as int) {
                s.with_mem(
                    MemoryState {
                        v: m.memory.subrange(m.i as int, m.i + NUM_REGS),
                        ..m
                    }.advance(2),
                )
            } else {
                s.stopped()
            },
            Opcode::Unknown => s.stopped().with_mem(m.advance(2)),
        }
    }
}

/// The state after key `k` goes down: its bit is set, and a pending key wait
/// completes with `k` loaded into its register. `pc` stays on the waiting
/// instruction: the next step runs it again, now with a key down, and moves on.
pub open spec fn press_key(s: MachineState, k: int) -> MachineState {
    let keys = s.keys | (1u16 << (k as u16));
    match s.awaiting {
        Some(r) => MachineState {
            keys,
            mem: s.mem.set_reg(r as int, k as u8),
            awaiting: None,
            ..s
        },
        None => MachineState { keys, ..s },
    }
}

/// The state after key `k` goes up.
pub open spec fn release_key(s: MachineState, k: int) -> MachineState {
    MachineState { keys: s.keys & !(1u16 << (k as u16)), ..s }
}

/// The state after a reset: memory unit reset, display blank, running, no key
/// wait; loaded program bytes and the keypad are kept.
pub open spec fn reset_state(s: MachineState) -> MachineState {
    MachineState { mem: s.mem.reset(), frame: blank_frame(), halted: false, awaiting: None, ..s }
}

/// The state with `program` written from the program start on.
pub open spec fn load_state(s: MachineState, program: Seq<u8>) -> MachineState {
    s.with_mem(
        MemoryState { memory: write_block(s.mem.memory, PROGRAM_START as int, program), ..s.mem },
    )
}

/// The Chip-8 machine: memory unit, display, keypad and run state.
pub struct CPU {
    /// Memory, registers, stack and timers.
    pub memory: Memory,
    /// The display.
    pub gpu: GPU,
    /// The keypad: bit `k` is set while key `k` is held down.
    pub key_state: u16,
    /// Set once the machine has stopped; steps then change nothing.
    pub halt: bool,
    /// The register that a pending key wait will load.
    pub waiting_for_key: Option<u8>,
    /// Where random bytes come from.
    pub random_source: RandomSource,
}

impl View for CPU {
    type V = MachineState;

    open spec fn view(&self) -> MachineState {
        MachineState {
            mem: self.memory@,
            frame: self.gpu@,
            keys: self.key_state,
            halted: self.halt,
            awaiting: self.waiting_for_key,
        }
    }
}

/// Relies on rand::random, which draws from the thread-local generator; any
/// byte may come back.
#[verifier::external_body]
fn random_byte() -> u8 {
    rand::random::<u8>()
}

impl CPU {
    /// Creates a machine with the font loaded, `pc` at the program start and
    /// everything else zero.
    pub fn new() -> (c: CPU)
        ensures
            c@ == MachineState::initial(),
            c.random_source == RandomSource::Thread,
            c.wf(),
    {
        CPU {
            memory: Memory::new(),
            gpu: GPU::new(),
            key_state: 0x0000,
            halt: false,
            waiting_for_key: None,
            random_source: RandomSource::Thread,
        }
    }

    /// Whether the machine's invariant holds.
    pub open spec fn wf(&self) -> bool {
        self@.wf()
    }

    /// The mutable display, for the caller to inspect or draw on.
    pub fn get_gpu(&mut self) -> (g: &mut GPU)
        ensures
            *g == old(self).gpu,
            *final(self) == (CPU { gpu: *final(g), ..*old(self) }),
    {
        &mut self.gpu
    }

    /// Makes the random-byte instruction use `byte` in place of the thread's
    /// generator, so that runs are repeatable.
    pub fn mock_random_byte(&mut self, byte: u8)
        ensures
            final(self)@ == old(self)@,
            final(self).random_source == RandomSource::Fixed(byte),
    {
        self.random_source = RandomSource::Fixed(byte);
    }

    /// Executes the word `raw_opcode` as one step. The random-byte
    /// instruction takes its byte from the random source; any other word
    /// executes as with every byte.
    pub fn execute(&mut self, raw_opcode: u16)
        ensures
            exists|r: u8| final(self)@ == #[trigger] step_state(old(self)@, raw_opcode, r),
            old(self).random_source is Fixed ==> final(self)@ == step_state(
                old(self)@,
                raw_opcode,
                old(self).random_source->Fixed_0,
            ),
            final(self).random_source == old(self).random_source,
            old(self).wf() ==> final(self).wf(),
    {
        let random = match self.random_source {
            RandomSource::Fixed(byte) => byte,
            RandomSource::Thread => if raw_opcode & 0xF000 == 0xC000 {
                random_byte()
            } else {
                0
            },
        };
        self.execute_with_random(raw_opcode, random);
    }

    /// One step: fetches the word at `pc` and executes it. A stopped machine
    /// is left as it is.
    pub fn cycle(&mut self)
        ensures
            exists|r: u8| final(self)@ == #[trigger] step_state(old(self)@, old(self)@.mem.fetch(), r),
            old(self).random_source is Fixed ==> final(self)@ == step_state(
                old(self)@,
                old(self)@.mem.fetch(),
                old(self).random_source->Fixed_0,
            ),
            final(self).random_source == old(self).random_source,
            old(self).wf() ==> final(self).wf(),
    {
        let word = self.memory.read_instr();
        self.execute(word);
    }

    /// One timer tick: decrements the delay and sound timers, never below zero.
    pub fn update_timers(&mut self)
        ensures
            final(self)@ == old(self)@.with_mem(old(self)@.mem.ticked()),
            final(self).random_source == old(self).random_source,
    {
        self.memory.update_timers();
    }

    /// Key `index` goes down. A pending key wait completes with it: the key
    /// is loaded into the waiting register and the wait is cleared. `pc` stays
    /// on the waiting instruction, which the next step runs again and passes.
    pub fn key_pressed(&mut self, index: usize)
        requires
            index < 16,
            old(self).wf(),
        ensures
            final(self)@ == press_key(old(self)@, index as int),
            final(self).random_source == old(self).random_source,
            final(self).wf(),
    {
        self.key_state = self.key_state | (1u16 << (index as u16));
        if let Some(reg) = self.waiting_for_key {
            self.memory.write_reg(reg, index as u8);
            self.waiting_for_key = None;
        }
    }

    /// Key `index` goes up.
    pub fn key_released(&mut self, index: usize)
        requires
            index < 16,
        ensures
            final(self)@ == release_key(old(self)@, index as int),
            final(self).random_source == old(self).random_source,
    {
        self.key_state = self.key_state & !(1u16 << (index as u16));
    }

    /// Restores the machine to its just-created state, but for memory: the
    /// loaded program stays, and so does the keypad.
    pub fn reset(&mut self)
        ensures
            final(self)@ == reset_state(old(self)@),
            final(self).random_source == old(self).random_source,
    {
        self.memory.reset();
        self.gpu.reset();
        self.halt = false;
        self.waiting_for_key = None;
    }

    /// Writes `program` to memory from the program start on.
    pub fn load_program(&mut self, program: &[u8])
        requires
            program@.len() <= MEM_SIZE - PROGRAM_START,
        ensures
            final(self)@ == load_state(old(self)@, program@),
            final(self).random_source == old(self).random_source,
    {
        self.memory.store_block(PROGRAM_START, program);
    }

    /// Executes the word `raw_opcode` as one step, with `random` as the byte
    /// that the random-byte instruction draws. A stopped machine is left as it
    /// is.
    pub fn execute_with_random(&mut self, raw_opcode: u16, random: u8)
        ensures
            final(self)@ == step_state(old(self)@, raw_opcode, random),
            final(self).random_source == old(self).random_source,
            old(self).wf() ==> final(self).wf(),
    {
        if self.halt {
            return;
        }
        let (opcode, reg_x, reg_y) = parse_opcode(raw_opcode);
        let val_x = self.memory.read_reg(reg_x);
        let val_y = self.memory.read_reg(reg_y);
        match opcode {
            Opcode::ClearScreen | Opcode::Return | Opcode::JumpToAddress(_) | Opcode::CallAddress(_) | Opcode::JumpToAddressPlusV0(_) | Opcode::Unknown => {
                self.execute_flow(raw_opcode, opcode);
            },
            Opcode::SkipIfRegEqualsByte(_) | Opcode::SkipIfRegNotEqualsByte(_)
            | Opcode::SkipIfRegEqualsReg | Opcode::SkipIfRegNotEqualsReg | Opcode::SkipIfKeyPressed
            | Opcode::SkipIfKeyNotPressed => {
                self.execute_skip(raw_opcode, opcode, reg_x, val_x, val_y);
            },
            Opcode::LoadByteIntoReg(_) | Opcode::AddByteToReg(_) | Opcode::LoadRegIntoReg
            | Opcode::OrRegWithReg | Opcode::AndRegWithReg | Opcode::XorRegWithReg
            | Opcode::AddRegToReg | Opcode::SubtractRegFromReg | Opcode::ShiftRight
            | Opcode::SubstractRegFromOtherReg | Opcode::ShiftLeft => {
                self.execute_register_op(raw_opcode, opcode, reg_x, val_x, val_y);
            },
            _ => {
                self.execute_other(raw_opcode, opcode, reg_x, val_x, val_y, random);
            },
        }
    }

    /// Clears the screen, jumps, calls and returns, and stops on an unknown
    /// word.
    fn execute_flow(&mut self, raw_opcode: u16, opcode: Opcode)
        requires
            !old(self).halt,
            opcode == decode(raw_opcode),
            is_flow(opcode),
        ensures
            final(self)@ == step_state(old(self)@, raw_opcode, 0),
            final(self).random_source == old(self).random_source,
    {
        match opcode {
            Opcode::ClearScreen => {
                self.gpu.clear();
                self.increment();
            },
            Opcode::Return => {
                match self.memory.pop_stack() {
                    Some(addr) => self.memory.pc = addr,
                    None => self.halt = true,
                }
            },
            Opcode::JumpToAddress(addr) => {
                self.memory.pc = addr;
            },
            Opcode::CallAddress(addr) => {
                let ret = self.memory.pc.wrapping_add(2);
                if self.memory.push_stack(ret) {
                    self.memory.pc = addr;
                } else {
                    self.halt = true;
                }
            },
            Opcode::JumpToAddressPlusV0(addr) => {
                let v0 = self.memory.read_reg(0) as u16;
                self.memory.pc = addr.wrapping_add(v0);
            },
            Opcode::Unknown => {
                self.halt = true;
                self.increment();
            },
            _ => {},
        }
    }

    /// The conditional skips: `pc` moves on by 4 when the condition holds, else by 2.
    fn execute_skip(&mut self, raw_opcode: u16, opcode: Opcode, reg_x: u8, val_x: u8, val_y: u8)
        requires
            !old(self).halt,
            opcode == decode(raw_opcode),
            is_skip(opcode),
            reg_x == crate::instructions::reg_x(raw_opcode),
            val_x == old(self)@.mem.v[reg_x as int],
            val_y == old(self)@.mem.v[reg_y(raw_opcode) as int],
        ensures
            final(self)@ == step_state(old(self)@, raw_opcode, 0),
            final(self).random_source == old(self).random_source,
    {
        proof {
            assert(reg_x < 16 && reg_y(raw_opcode) < 16) by (bit_vector)
                requires
                    reg_x == ((raw_opcode & 0x0F00) >> 8) as u8,
                    reg_y(raw_opcode) == ((raw_opcode & 0x00F0) >> 4) as u8;
        }
        match opcode {
            Opcode::SkipIfRegEqualsByte(k) => {
                self.increment();
                if val_x == k {
                    self.increment();
                }
            },
            Opcode::SkipIfRegNotEqualsByte(k) => {
                self.increment();
                if val_x != k {
                    self.increment();
                }
            },
            Opcode::SkipIfRegEqualsReg => {
                self.increment();
                if val_x == val_y {
                    self.increment();
                }
            },
            Opcode::SkipIfRegNotEqualsReg => {
                self.increment();
                if val_x != val_y {
                    self.increment();
                }
            },
            Opcode::SkipIfKeyPressed => {
                self.increment();
                if val_x < 16 && self.is_key_pressed(val_x as usize) {
                    self.increment();
                }
            },
            Opcode::SkipIfKeyNotPressed => {
                self.increment();
                if !(val_x < 16 && self.is_key_pressed(val_x as usize)) {
                    self.increment();
                }
            },
            _ => {},
        }
    }

    /// Loads and arithmetic between registers and immediate bytes.
    #[verifier::rlimit(40)]
    fn execute_register_op(&mut self, raw_opcode: u16, opcode: Opcode, reg_x: u8, val_x: u8, val_y: u8)
        requires
            !old(self).halt,
            opcode == decode(raw_opcode),
            is_register_op(opcode),
            reg_x == crate::instructions::reg_x(raw_opcode),
            val_x == old(self)@.mem.v[reg_x as int],
            val_y == old(self)@.mem.v[reg_y(raw_opcode) as int],
        ensures
            final(self)@ == step_state(old(self)@, raw_opcode, 0),
            final(self).random_source == old(self).random_source,
    {
        proof {
            assert(reg_x < 16 && reg_y(raw_opcode) < 16) by (bit_vector)
                requires
                    reg_x == ((raw_opcode & 0x0F00) >> 8) as u8,
                    reg_y(raw_opcode) == ((raw_opcode & 0x00F0) >> 4) as u8;
        }
        match opcode {
            Opcode::LoadByteIntoReg(k) => {
                self.memory.write_reg(reg_x, k);
                self.increment();
            },
            Opcode::AddByteToReg(k) => {
                self.memory.write_reg(reg_x, val_x.wrapping_add(k));
                self.increment();
            },
            Opcode::LoadRegIntoReg => {
                self.memory.write_reg(reg_x, val_y);
                self.increment();
            },
            Opcode::OrRegWithReg => {
                self.memory.write_reg(reg_x, val_x | val_y);
                self.increment();
            },
            Opcode::AndRegWithReg => {
                self.memory.write_reg(reg_x, val_x & val_y);
                self.increment();
            },
            Opcode::XorRegWithReg => {
                self.memory.write_reg(reg_x, val_x ^ val_y);
                self.increment();
            },
            Opcode::AddRegToReg => {
                self.add_overflow(reg_x, val_x, val_y);
                self.increment();
            },
            Opcode::SubtractRegFromReg => {
                self.sub_overflow(reg_x, val_x, val_y);
                self.increment();
            },
            Opcode::ShiftRight => {
                self.handle_overflow(reg_x, val_x >> 1, val_x & 0x1);
                self.increment();
            },
            Opcode::SubstractRegFromOtherReg => {
                self.sub_overflow(reg_x, val_y, val_x);
                self.increment();
            },
            Opcode::ShiftLeft => {
                self.handle_overflow(reg_x, val_x << 1, val_x >> 7);
                self.increment();
            },
            _ => {},
        }
    }

    /// Index register, random byte, drawing, timers, keys and memory blocks.
    fn execute_other(
        &mut self,
        raw_opcode: u16,
        opcode: Opcode,
        reg_x: u8,
        val_x: u8,
        val_y: u8,
        random: u8,
    )
        requires
            !old(self).halt,
            opcode == decode(raw_opcode),
            is_other_op(opcode),
            reg_x == crate::instructions::reg_x(raw_opcode),
            val_x == old(self)@.mem.v[reg_x as int],
            val_y == old(self)@.mem.v[reg_y(raw_opcode) as int],
        ensures
            final(self)@ == step_state(old(self)@, raw_opcode, random),
            final(self).random_source == old(self).random_source,
    {
        proof {
            assert(reg_x < 16 && reg_y(raw_opcode) < 16) by (bit_vector)
                requires
                    reg_x == ((raw_opcode & 0x0F00) >> 8) as u8,
                    reg_y(raw_opcode) == ((raw_opcode & 0x00F0) >> 4) as u8;
        }
        match opcode {
            Opcode::LoadIndex(addr) => {
                self.memory.i = addr;
                self.increment();
            },
            Opcode::RandomByte(k) => {
                self.memory.write_reg(reg_x, random & k);
                self.increment();
            },
            Opcode::DrawSprite(nibble) => {
                proof {
                    assert(raw_opcode & 0x000F <= 15) by (bit_vector);
                }
                let sprite = self.memory.load_sprite(nibble as usize);
                let coords: Coordinate = (val_x as usize, val_y as usize);
                let collision = self.gpu.draw_sprite(coords, sprite);
                self.memory.write_reg(0xF, collision);
                self.increment();
            },
            Opcode::LoadDelayTimerIntoReg => {
                self.memory.write_reg(reg_x, self.memory.dt);
                self.increment();
            },
            Opcode::LoadKeyIntoReg => {
                self.load_next_key(reg_x);
            },
            Opcode::LoadRegIntoDelayTimer => {
                self.memory.dt = val_x;
                self.increment();
            },
            Opcode::LoadRegIntoSoundTimer => {
                self.memory.st = val_x;
                self.increment();
            },
            Opcode::AddRegToIndex => {
                self.memory.i = self.memory.i.wrapping_add(val_x as u16);
                self.increment();
            },
            Opcode::LoadFontIntoReg => {
                self.memory.i = (val_x as u16) * GLYPH_SIZE;
                self.increment();
            },
            Opcode::LoadBCDIntoMem => {
                let i = self.memory.i;
                if i as usize > MEM_SIZE - 3 {
                    self.halt = true;
                } else {
                    let bcd = val_x.to_bcd();
                    let digits: [u8; 3] = [bcd.0, bcd.1, bcd.2];
                    assert(digits@ =~= seq![bcd.0, bcd.1, bcd.2]);
                    self.memory.store_block(i, &digits);
                    self.increment();
                }
            },
            Opcode::StoreRegsIntoMem => {
                let i = self.memory.i;
                if i as usize > MEM_SIZE - NUM_REGS {
                    self.halt = true;
                } else {
                    let regs = self.memory.v;
                    self.memory.store_block(i, &regs);
                    self.increment();
                }
            },
            Opcode::LoadRegsFromMem => {
                if self.memory.i as usize > MEM_SIZE - NUM_REGS {
                    self.halt = true;
                } else {
                    self.memory.load_registers();
                    self.increment();
                }
            },
            _ => {},
        }
    }

    /// The key-wait instruction: with a key down, loads the lowest such key
    /// into register `reg` and moves on; with none, records the wait and
    /// leaves `pc` on this instruction.
    fn load_next_key(&mut self, reg: u8)
        requires
            reg < 16,
        ensures
            final(self).random_source == old(self).random_source,
            old(self).key_state != 0 ==> final(self)@ == (MachineState {
                mem: old(self)@.mem.set_reg(reg as int, first_key(old(self).key_state, 0) as u8).advance(2),
                awaiting: None,
                ..old(self)@
            }),
            old(self).key_state == 0 ==> final(self)@ == (MachineState {
                awaiting: Some(reg),
                ..old(self)@
            }),
    {
        if self.key_state == 0 {
            self.waiting_for_key = Some(reg);
            return;
        }
        proof {
            lemma_some_key_down(self.key_state);
        }
        let mut k: usize = 0;
        while k < 16
            invariant
                k <= 16,
                reg < 16,
                self@ == old(self)@,
                self.random_source == old(self).random_source,
                self.key_state != 0,
                first_key(self.key_state, 0) == first_key(self.key_state, k as int),
                first_key(self.key_state, 0) < 16,
            decreases 16 - k,
        {
            if self.is_key_pressed(k) {
                self.memory.write_reg(reg, k as u8);
                self.increment();
                self.waiting_for_key = None;
                return;
            }
            k += 1;
        }
    }

    /// Writes `result` to register `reg`, then the flag to VF.
    fn handle_overflow(&mut self, reg: u8, result: u8, flag: u8)
        requires
            reg < 16,
        ensures
            final(self).random_source == old(self).random_source,
            final(self)@ == old(self)@.with_mem(old(self)@.mem.set_reg(reg as int, result).set_reg(15, flag)),
    {
        self.memory.write_reg(reg, result);
        self.memory.write_reg(0xF, flag);
    }

    /// Register `reg` = `x + y` wrapping, then VF = 1 on carry, else 0.
    fn add_overflow(&mut self, reg: u8, x: u8, y: u8)
        requires
            reg < 16,
        ensures
            final(self).random_source == old(self).random_source,
            final(self)@ == old(self)@.with_mem(
                old(self)@.mem.set_reg(reg as int, add8(x, y)).set_reg(15, if x + y > 255 { 1 } else { 0 }),
            ),
    {
        let sum = x.wrapping_add(y);
        let carry: u8 = if (x as u16) + (y as u16) > 255 { 1 } else { 0 };
        self.handle_overflow(reg, sum, carry);
    }

    /// Register `reg` = `x - y` wrapping, then VF = 1 when there was no
    /// borrow (`x >= y`), else 0.
    fn sub_overflow(&mut self, reg: u8, x: u8, y: u8)
        requires
            reg < 16,
        ensures
            final(self).random_source == old(self).random_source,
            final(self)@ == old(self)@.with_mem(
                old(self)@.mem.set_reg(reg as int, sub8(x, y)).set_reg(15, if x >= y { 1 } else { 0 }),
            ),
    {
        let diff = x.wrapping_sub(y);
        let no_borrow: u8 = if x >= y { 1 } else { 0 };
        self.handle_overflow(reg, diff, no_borrow);
    }

    /// Whether key `index` is held down.
    pub fn is_key_pressed(&self, index: usize) -> (r: bool)
        requires
            index < 16,
        ensures
            r == key_down(self.key_state, index as int),
    {
        self.key_state & (1u16 << (index as u16)) != 0
    }

    fn increment(&mut self)
        ensures
            final(self).random_source == old(self).random_source,
            final(self)@ == old(self)@.with_mem(old(self)@.mem.advance(2)),
    {
        self.memory.pc = self.memory.pc.wrapping_add(2);
    }
}

/// The word `8xyn`: register instruction `n` on Vx and Vy.
pub open spec fn reg_pair_word(x: u8, y: u8, n: u16) -> u16 {
    0x8000u16 | ((x as u16) << 8u16) | ((y as u16) << 4u16) | n
}

/// The word `Fx0A`: wait for a key and load it into Vx.
pub open spec fn key_wait_word(x: u8) -> u16 {
    0xF00Au16 | ((x as u16) << 8u16)
}

proof fn lemma_reg_pair_word(x: u8, y: u8, n: u16)
    requires
        x < 16,
        y < 16,
        n < 16,
    ensures
        reg_pair_word(x, y, n) & 0xF000 == 0x8000,
        (reg_pair_word(x, y, n) & 0x000F) as u8 == n,
        reg_x(reg_pair_word(x, y, n)) == x,
        reg_y(reg_pair_word(x, y, n)) == y,
{
    assert(x < 16 && y < 16 && n < 16 ==> (0x8000u16 | ((x as u16) << 8u16) | ((y as u16) << 4u16) | n)
        & 0xF000 == 0x8000) by (bit_vector);
    assert(x < 16 && y < 16 && n < 16 ==> (0x8000u16 | ((x as u16) << 8u16) | ((y as u16) << 4u16) | n)
        & 0x000F == n) by (bit_vector);
    assert(x < 16 && y < 16 && n < 16 ==> ((0x8000u16 | ((x as u16) << 8u16) | ((y as u16) << 4u16)
        | n) & 0x0F00) >> 8 == x as u16) by (bit_vector);
    assert(x < 16 && y < 16 && n < 16 ==> ((0x8000u16 | ((x as u16) << 8u16) | ((y as u16) << 4u16)
        | n) & 0x00F0) >> 4 == y as u16) by (bit_vector);
}

proof fn lemma_key_wait_word(x: u8)
    requires
        x < 16,
    ensures
        key_wait_word(x) & 0xF000 == 0xF000,
        (key_wait_word(x) & 0x00FF) as u8 == 0x0A,
        reg_x(key_wait_word(x)) == x,
        decode(key_wait_word(x)) == Opcode::LoadKeyIntoReg,
{
    assert(x < 16 ==> (0xF00Au16 | ((x as u16) << 8u16)) & 0xF000 == 0xF000) by (bit_vector);
    assert(x < 16 ==> (0xF00Au16 | ((x as u16) << 8u16)) & 0x00FF == 0x0A) by (bit_vector);
    assert(x < 16 ==> ((0xF00Au16 | ((x as u16) << 8u16)) & 0x0F00) >> 8 == x as u16) by (bit_vector);
}

/// When no key at or above `from` is down, none of those bits is set.
proof fn lemma_first_key_none(keys: u16, from: int, k: int)
    requires
        0 <= from <= k < 16,
        first_key(keys, from) >= 16,
    ensures
        !key_down(keys, k),
    decreases k - from,
{
    if from < k {
        lemma_first_key_none(keys, from + 1, k);
    }
}

/// A nonzero key mask has a lowest key down.
proof fn lemma_some_key_down(keys: u16)
    requires
        keys != 0,
    ensures
        first_key(keys, 0) < 16,
{
    if first_key(keys, 0) >= 16 {
        assert forall|k: int| 0 <= k < 16 implies !#[trigger] key_down(keys, k) by {
            lemma_first_key_none(keys, 0, k);
        }
        assert(!key_down(keys, 0) && !key_down(keys, 1) && !key_down(keys, 2) && !key_down(keys, 3)
            && !key_down(keys, 4) && !key_down(keys, 5) && !key_down(keys, 6) && !key_down(keys, 7)
            && !key_down(keys, 8) && !key_down(keys, 9) && !key_down(keys, 10) && !key_down(keys, 11)
            && !key_down(keys, 12) && !key_down(keys, 13) && !key_down(keys, 14) && !key_down(
            keys,
            15,
        ));
        assert(keys & (1u16 << 0u16) == 0 && keys & (1u16 << 1u16) == 0 && keys & (1u16 << 2u16) == 0
            && keys & (1u16 << 3u16) == 0 && keys & (1u16 << 4u16) == 0 && keys & (1u16 << 5u16) == 0
            && keys & (1u16 << 6u16) == 0 && keys & (1u16 << 7u16) == 0 && keys & (1u16 << 8u16) == 0
            && keys & (1u16 << 9u16) == 0 && keys & (1u16 << 10u16) == 0 && keys & (1u16 << 11u16) == 0
            && keys & (1u16 << 12u16) == 0 && keys & (1u16 << 13u16) == 0 && keys & (1u16 << 14u16)
            == 0 && keys & (1u16 << 15u16) == 0 ==> keys == 0) by (bit_vector);
    }
}

/// Flags of the register arithmetic, for all operand values: addition sets
/// VF to 1 exactly when `Vx + Vy > 255`, subtraction exactly when `Vx >= Vy`,
/// and reverse subtraction exactly when `Vy >= Vx`; VF is 0 otherwise.
pub proof fn lemma_arithmetic_flags(s: MachineState, x: u8, y: u8, rnd: u8)
    requires
        !s.halted,
        x < 16,
        y < 16,
        s.mem.v.len() == 16,
    ensures
        step_state(s, reg_pair_word(x, y, 4), rnd).mem.v[15] == (if s.mem.v[x as int] + s.mem.v[y as int]
            > 255 {
            1u8
        } else {
            0u8
        }),
        step_state(s, reg_pair_word(x, y, 5), rnd).mem.v[15] == (if s.mem.v[x as int] >= s.mem.v[y as int] {
            1u8
        } else {
            0u8
        }),
        step_state(s, reg_pair_word(x, y, 7), rnd).mem.v[15] == (if s.mem.v[y as int] >= s.mem.v[x as int] {
            1u8
        } else {
            0u8
        }),
{
    lemma_reg_pair_word(x, y, 4);
    lemma_reg_pair_word(x, y, 5);
    lemma_reg_pair_word(x, y, 7);
}

/// A call followed by a return brings `pc` back to the instruction after the
/// call, and the stack depth back to what it was.
pub proof fn lemma_call_then_return(s: MachineState, addr: u16, r1: u8, r2: u8)
    requires
        !s.halted,
        s.mem.sp < STACK_SIZE,
        s.mem.stack.len() == STACK_SIZE,
        addr < 0x1000,
    ensures
        step_state(s, 0x2000u16 | addr, r1).mem.pc == addr,
        step_state(s, 0x2000u16 | addr, r1).mem.sp == s.mem.sp + 1,
        step_state(step_state(s, 0x2000u16 | addr, r1), 0x00EE, r2).mem.pc == add16(s.mem.pc as int, 2),
        step_state(step_state(s, 0x2000u16 | addr, r1), 0x00EE, r2).mem.sp == s.mem.sp,
        !step_state(step_state(s, 0x2000u16 | addr, r1), 0x00EE, r2).halted,
{
    assert(addr < 0x1000 ==> (0x2000u16 | addr) & 0xF000 == 0x2000) by (bit_vector);
    assert(addr < 0x1000 ==> (0x2000u16 | addr) & 0x0FFF == addr) by (bit_vector);
    assert(0x00EEu16 & 0xF000 == 0) by (bit_vector);
    assert((0x00EEu16 & 0x00FF) as u8 == 0xEE) by (bit_vector);
}

/// A skip moves `pc` on by 4 when its condition holds and by 2 when it does
/// not, and changes nothing else.
pub proof fn lemma_skip_advance(s: MachineState, w: u16, rnd: u8)
    requires
        !s.halted,
        is_skip(decode(w)),
    ensures
        step_state(s, w, rnd) == s.with_mem(
            MemoryState {
                pc: add16(
                    s.mem.pc as int,
                    if skip_taken(decode(w), s.mem.v[reg_x(w) as int], s.mem.v[reg_y(w) as int], s.keys) {
                        4
                    } else {
                        2
                    },
                ),
                ..s.mem
            },
        ),
{
}

/// With no key down, the key-wait instruction leaves `pc` where it is and
/// records the wait, and stepping it again changes nothing. A press of key `k`
/// then loads `k` into the register and clears the wait with `pc` still on
/// the instruction; the next step, with `k` held, loads `k` again and moves
/// `pc` past the instruction.
pub proof fn lemma_key_wait(s: MachineState, x: u8, k: int, r1: u8, r2: u8, r3: u8)
    requires
        !s.halted,
        s.keys == 0,
        x < 16,
        0 <= k < 16,
        s.mem.v.len() == 16,
    ensures
        step_state(s, key_wait_word(x), r1).mem.pc == s.mem.pc,
        step_state(s, key_wait_word(x), r1).awaiting == Some(x),
        step_state(step_state(s, key_wait_word(x), r1), key_wait_word(x), r2) == step_state(
            s,
            key_wait_word(x),
            r1,
        ),
        press_key(step_state(s, key_wait_word(x), r1), k).mem.v[x as int] == k,
        press_key(step_state(s, key_wait_word(x), r1), k).mem.pc == s.mem.pc,
        press_key(step_state(s, key_wait_word(x), r1), k).awaiting is None,
        step_state(press_key(step_state(s, key_wait_word(x), r1), k), key_wait_word(x), r3).mem.v[x as int]
            == k,
        step_state(press_key(step_state(s, key_wait_word(x), r1), k), key_wait_word(x), r3).mem.pc
            == add16(s.mem.pc as int, 2),
        step_state(press_key(step_state(s, key_wait_word(x), r1), k), key_wait_word(x), r3).awaiting is None,
{
    lemma_key_wait_word(x);
    let t = step_state(s, key_wait_word(x), r1);
    assert(!is_skip(decode(key_wait_word(x))));
    assert(t == MachineState { awaiting: Some(x), ..s });
    let kk = k as u16;
    assert(kk < 16 ==> 0u16 | (1u16 << kk) == 1u16 << kk && 1u16 << kk != 0) by (bit_vector);
    lemma_first_key_single(k, 0);
}

/// With only key `k` down, the lowest key down at or below `k` is `k`.
proof fn lemma_first_key_single(k: int, from: int)
    requires
        0 <= from <= k < 16,
    ensures
        first_key(1u16 << (k as u16), from) == k,
    decreases k - from,
{
    let kk = k as u16;
    let j = from as u16;
    assert(kk < 16 && j < 16 ==> (((1u16 << kk) & (1u16 << j) != 0) <==> j == kk)) by (bit_vector);
    if from < k {
        lemma_first_key_single(k, from + 1);
    }
}

} // verus!
