//! Main memory, registers, the call stack and the timers.
use vstd::prelude::*;

verus! {

/// The size of the memory in bytes.
pub const MEM_SIZE: usize = 0x1000;

/// The number of return addresses the call stack holds.
pub const STACK_SIZE: usize = 16;

/// The number of general purpose registers, V0 to VF.
pub const NUM_REGS: usize = 16;

/// The address at which programs are loaded and execution starts.
pub const PROGRAM_START: u16 = 0x200;

/// The number of bytes of one font glyph.
pub const GLYPH_SIZE: u16 = 5;

/// The hexadecimal font: glyph `n` is the 5 bytes at offset `5 * n`.
pub open spec fn font() -> Seq<u8> {
    seq![
        0xF0u8, 0x90, 0x90, 0x90, 0xF0, // 0
        0x20, 0x60, 0x20, 0x20, 0x70, // 1
        0xF0, 0x10, 0xF0, 0x80, 0xF0, // 2
        0xF0, 0x10, 0xF0, 0x10, 0xF0, // 3
        0x90, 0x90, 0xF0, 0x10, 0x10, // 4
        0xF0, 0x80, 0xF0, 0x10, 0xF0, // 5
        0xF0, 0x80, 0xF0, 0x90, 0xF0, // 6
        0xF0, 0x10, 0x20, 0x40, 0x40, // 7
        0xF0, 0x90, 0xF0, 0x90, 0xF0, // 8
        0xF0, 0x90, 0xF0, 0x10, 0xF0, // 9
        0xF0, 0x90, 0xF0, 0x90, 0x90, // A
        0xE0, 0x90, 0xE0, 0x90, 0xE0, // B
        0xF0, 0x80, 0x80, 0x80, 0xF0, // C
        0xE0, 0x90, 0x90, 0x90, 0xE0, // D
        0xF0, 0x98, 0xF0, 0x80, 0xF0, // E
        0xF0, 0x80, 0xF0, 0x80, 0x80, // F
    ]
}

/// The memory cell that a 16-bit address reaches: addresses wrap at 4 KiB.
pub open spec fn cell(addr: int) -> int {
    addr % (MEM_SIZE as int)
}

/// 16-bit wrapping addition.
pub open spec fn add16(a: int, b: int) -> u16 {
    ((a + b) % 0x10000) as u16
}

/// `ram` with `bytes` written from address `start` on.
pub open spec fn write_block(ram: Seq<u8>, start: int, bytes: Seq<u8>) -> Seq<u8> {
    Seq::new(
        ram.len(),
        |a: int| if start <= a < start + bytes.len() { bytes[a - start] } else { ram[a] },
    )
}

/// Whether the `n` bytes from `start` on lie inside memory.
pub open spec fn block_fits(start: int, n: int) -> bool {
    start + n <= MEM_SIZE as int
}

proof fn lemma_join_bytes(hi: u8, lo: u8)
    ensures
        ((hi as u16) << 8) | (lo as u16) == hi as int * 256 + lo as int,
{
    assert(((hi as u16) << 8) | (lo as u16) == (hi as u16) * 256 + (lo as u16)) by (bit_vector);
}

/// Writing a block one byte at a time: the empty block changes nothing, and
/// writing byte `k` after bytes `0..k` writes bytes `0..=k`.
proof fn lemma_write_block_step(ram: Seq<u8>, start: int, bytes: Seq<u8>, k: int)
    requires
        ram.len() == MEM_SIZE,
        start >= 0,
        0 <= k <= bytes.len(),
        block_fits(start, bytes.len() as int),
    ensures
        write_block(ram, start, bytes.take(0)) == ram,
        k < bytes.len() ==> write_block(ram, start, bytes.take(k)).update(start + k, bytes[k])
            == write_block(ram, start, bytes.take(k + 1)),
{
    assert(write_block(ram, start, bytes.take(0)) =~= ram);
    if k == bytes.len() {
        return;
    }
    let lhs = write_block(ram, start, bytes.take(k)).update(start + k, bytes[k]);
    let rhs = write_block(ram, start, bytes.take(k + 1));
    assert(lhs =~= rhs);
}

/// The abstract contents of the memory unit.
pub struct MemoryState {
    pub memory: Seq<u8>,
    pub stack: Seq<u16>,
    pub pc: u16,
    pub sp: u8,
    pub v: Seq<u8>,
    pub i: u16,
    pub dt: u8,
    pub st: u8,
}

impl MemoryState {
    /// The state right after construction: font loaded, all else zero, `pc` at
    /// the program start.
    pub open spec fn initial() -> MemoryState {
        MemoryState {
            memory: Seq::new(MEM_SIZE as nat, |a: int| if a < 0x50 { font()[a] } else { 0u8 }),
            stack: Seq::new(STACK_SIZE as nat, |k: int| 0u16),
            pc: PROGRAM_START,
            sp: 0,
            v: Seq::new(NUM_REGS as nat, |k: int| 0u8),
            i: 0,
            dt: 0,
            st: 0,
        }
    }

    /// The byte at `addr`, wrapping at 4 KiB.
    pub open spec fn load(self, addr: int) -> u8 {
        self.memory[cell(addr)]
    }

    /// The instruction word at `pc`, most significant byte first.
    pub open spec fn fetch(self) -> u16 {
        (self.load(self.pc as int) as int * 256 + self.load(self.pc as int + 1) as int) as u16
    }

    /// The state with register `r` set to `val`.
    pub open spec fn set_reg(self, r: int, val: u8) -> MemoryState {
        MemoryState { v: self.v.update(r, val), ..self }
    }

    /// The state with `pc` moved `n` bytes on (16-bit wrapping).
    pub open spec fn advance(self, n: int) -> MemoryState {
        MemoryState { pc: add16(self.pc as int, n), ..self }
    }

    /// The bytes of a sprite of `n` rows at `i`; empty when they would run past
    /// the end of memory.
    pub open spec fn sprite(self, n: int) -> Seq<u8> {
        if self.i as int + n > MEM_SIZE as int {
            Seq::empty()
        } else {
            self.memory.subrange(self.i as int, self.i as int + n)
        }
    }

    /// Both timers one tick later: each decremented, but never below zero.
    pub open spec fn ticked(self) -> MemoryState {
        MemoryState {
            dt: if self.dt > 0 { (self.dt - 1) as u8 } else { 0 },
            st: if self.st > 0 { (self.st - 1) as u8 } else { 0 },
            ..self
        }
    }

    /// Registers, `pc`, stack depth, index and timers back to their initial
    /// values; memory and the stack's slots are kept.
    pub open spec fn reset(self) -> MemoryState {
        MemoryState {
            pc: PROGRAM_START,
            sp: 0,
            v: Seq::new(NUM_REGS as nat, |k: int| 0u8),
            i: 0,
            dt: 0,
            st: 0,
            ..self
        }
    }
}

/// The memory unit: 4 KiB of RAM, the registers, the call stack and the timers.
pub struct Memory {
    /// The memory, one byte per address.
    pub memory: [u8; MEM_SIZE],
    /// The return addresses of the calls in progress, `sp` of them.
    pub stack: [u16; STACK_SIZE],
    /// The program counter: the address of the next instruction.
    pub pc: u16,
    /// The stack pointer: how many return addresses the stack holds.
    pub sp: u8,
    /// The general purpose registers, V0 to VF.
    pub v: [u8; NUM_REGS],
    /// The index register, I.
    pub i: u16,
    /// The delay timer, DT.
    pub dt: u8,
    /// The sound timer, ST.
    pub st: u8,
}

impl View for Memory {
    type V = MemoryState;

    open spec fn view(&self) -> MemoryState {
        MemoryState {
            memory: self.memory@,
            stack: self.stack@,
            pc: self.pc,
            sp: self.sp,
            v: self.v@,
            i: self.i,
            dt: self.dt,
            st: self.st,
        }
    }
}

impl Memory {
    /// Creates a memory unit with the font loaded and everything else zero;
    /// `pc` points at the program start.
    pub fn new() -> (m: Memory)
        ensures
            m@ == MemoryState::initial(),
    {
        let mut m = Memory {
            memory: [0u8; MEM_SIZE],
            stack: [0u16; STACK_SIZE],
            pc: PROGRAM_START,
            sp: 0,
            v: [0u8; NUM_REGS],
            i: 0,
            dt: 0,
            st: 0,
        };
        m.load_sprites();
        assert(m@.memory =~= MemoryState::initial().memory);
        assert(m@.stack =~= MemoryState::initial().stack);
        assert(m@.v =~= MemoryState::initial().v);
        m
    }

    /// Reads the byte at `addr`; addresses wrap at 4 KiB.
    pub fn load(&self, addr: u16) -> (r: u8)
        ensures
            r == self@.load(addr as int),
    {
        self.memory[(addr as usize) % MEM_SIZE]
    }

    /// Writes `val` at `addr`; addresses wrap at 4 KiB.
    pub fn store(&mut self, addr: u16, val: u8)
        ensures
            final(self)@ == (MemoryState {
                memory: old(self)@.memory.update(cell(addr as int), val),
                ..old(self)@
            }),
    {
        self.memory[(addr as usize) % MEM_SIZE] = val;
    }

    /// Reads register `reg`.
    pub fn read_reg(&self, reg: u8) -> (r: u8)
        requires
            reg < NUM_REGS,
        ensures
            r == self@.v[reg as int],
    {
        self.v[reg as usize]
    }

    /// Writes `val` to register `reg`.
    pub fn write_reg(&mut self, reg: u8, val: u8)
        requires
            reg < NUM_REGS,
        ensures
            final(self)@ == old(self)@.set_reg(reg as int, val),
    {
        self.v[reg as usize] = val;
    }

    /// Decrements both timers by one, never below zero.
    pub fn update_timers(&mut self)
        ensures
            final(self)@ == old(self)@.ticked(),
    {
        if self.dt > 0 {
            self.dt -= 1;
        }
        if self.st > 0 {
            self.st -= 1;
        }
    }

    /// Pops the most recent return address; `None`, with nothing changed, when
    /// the stack holds no valid entry.
    pub fn pop_stack(&mut self) -> (r: Option<u16>)
        ensures
            old(self).sp == 0 || old(self).sp as int > STACK_SIZE ==> r is None && final(self)@
                == old(self)@,
            0 < old(self).sp <= STACK_SIZE ==> r == Some(old(self)@.stack[old(self).sp - 1])
                && final(self)@ == (MemoryState { sp: (old(self).sp - 1) as u8, ..old(self)@ }),
    {
        if self.sp == 0 || self.sp as usize > STACK_SIZE {
            return None;
        }
        self.sp -= 1;
        Some(self.stack[self.sp as usize])
    }

    /// Pushes a return address. Returns false, with nothing changed, when the
    /// stack is full.
    pub fn push_stack(&mut self, val: u16) -> (pushed: bool)
        ensures
            pushed == (old(self).sp < STACK_SIZE),
            pushed ==> final(self)@ == (MemoryState {
                stack: old(self)@.stack.update(old(self).sp as int, val),
                sp: (old(self).sp + 1) as u8,
                ..old(self)@
            }),
            !pushed ==> final(self)@ == old(self)@,
    {
        if self.sp as usize >= STACK_SIZE {
            return false;
        }
        self.stack[self.sp as usize] = val;
        self.sp += 1;
        true
    }

    /// Restores `pc`, stack depth, registers, index and timers to their
    /// initial values. Memory, program bytes included, is left as it is.
    pub fn reset(&mut self)
        ensures
            final(self)@ == old(self)@.reset(),
    {
        self.pc = PROGRAM_START;
        self.sp = 0;
        self.v = [0u8; NUM_REGS];
        self.i = 0;
        self.dt = 0;
        self.st = 0;
        assert(self@.v =~= old(self)@.reset().v);
    }

    /// Reads the instruction word at `pc`, most significant byte first.
    pub fn read_instr(&self) -> (r: u16)
        ensures
            r == self@.fetch(),
    {
        let hi = self.load(self.pc);
        let lo = self.load(self.pc.wrapping_add(1));
        proof {
            assert(cell(add16(self.pc as int, 1) as int) == cell(self.pc as int + 1));
            lemma_join_bytes(hi, lo);
        }
        ((hi as u16) << 8) | (lo as u16)
    }

    /// Reads the `nibble` bytes of a sprite starting at the index register;
    /// empty when they would run past the end of memory.
    pub fn load_sprite(&self, nibble: usize) -> (sprite: Vec<u8>)
        ensures
            sprite@ == self@.sprite(nibble as int),
    {
        let mut sprite: Vec<u8> = Vec::new();
        let start_addr = self.i as usize;
        if start_addr > MEM_SIZE || nibble > MEM_SIZE - start_addr {
            return sprite;
        }
        let mut offset: usize = 0;
        while offset < nibble
            invariant
                start_addr == self.i,
                start_addr + nibble <= MEM_SIZE,
                offset <= nibble,
                sprite@ == self@.memory.subrange(start_addr as int, start_addr + offset),
            decreases nibble - offset,
        {
            sprite.push(self.memory[start_addr + offset]);
            offset += 1;
            assert(sprite@ =~= self@.memory.subrange(start_addr as int, start_addr + offset));
        }
        sprite
    }

    /// Writes `bytes` from address `start` on; the block must lie inside
    /// memory.
    pub fn store_block(&mut self, start: u16, bytes: &[u8])
        requires
            block_fits(start as int, bytes@.len() as int),
        ensures
            final(self)@ == (MemoryState {
                memory: write_block(old(self)@.memory, start as int, bytes@),
                ..old(self)@
            }),
    {
        proof {
            lemma_write_block_step(self@.memory, start as int, bytes@, 0);
        }
        let mut k: usize = 0;
        while k < bytes.len()
            invariant
                k <= bytes@.len(),
                block_fits(start as int, bytes@.len() as int),
                self@ == (MemoryState {
                    memory: write_block(old(self)@.memory, start as int, bytes@.take(k as int)),
                    ..old(self)@
                }),
            decreases bytes@.len() - k,
        {
            proof {
                lemma_write_block_step(old(self)@.memory, start as int, bytes@, k as int);
            }
            self.memory[start as usize + k] = bytes[k];
            k += 1;
        }
        assert(bytes@.take(k as int) =~= bytes@);
    }

    /// Loads registers V0 to VF from the 16 bytes at the index register; the
    /// block must lie inside memory.
    pub fn load_registers(&mut self)
        requires
            block_fits(old(self).i as int, NUM_REGS as int),
        ensures
            final(self)@ == (MemoryState {
                v: old(self)@.memory.subrange(old(self).i as int, old(self).i + NUM_REGS),
                ..old(self)@
            }),
    {
        let mut k: usize = 0;
        while k < NUM_REGS
            invariant
                k <= NUM_REGS,
                block_fits(old(self).i as int, NUM_REGS as int),
                self@ == (MemoryState { v: self@.v, ..old(self)@ }),
                self@.v.len() == NUM_REGS,
                forall|j: int|
                    0 <= j < NUM_REGS ==> #[trigger] self@.v[j] == if j < k {
                        old(self)@.memory[old(self).i + j]
                    } else {
                        old(self)@.v[j]
                    },
            decreases NUM_REGS - k,
        {
            let byte = self.memory[self.i as usize + k];
            self.v[k] = byte;
            k += 1;
        }
        assert(self@.v =~= old(self)@.memory.subrange(old(self).i as int, old(self).i + NUM_REGS));
    }

    /// Writes the font glyphs to the first 80 bytes.
    fn load_sprites(&mut self)
        ensures
            final(self)@ == (MemoryState {
                memory: Seq::new(
                    MEM_SIZE as nat,
                    |a: int| if a < 0x50 { font()[a] } else { old(self)@.memory[a] },
                ),
                ..old(self)@
            }),
    {
        let sprites: [u8; 0x50] = [
            0xF0, 0x90, 0x90, 0x90, 0xF0, // 0
            0x20, 0x60, 0x20, 0x20, 0x70, // 1
            0xF0, 0x10, 0xF0, 0x80, 0xF0, // 2
            0xF0, 0x10, 0xF0, 0x10, 0xF0, // 3
            0x90, 0x90, 0xF0, 0x10, 0x10, // 4
            0xF0, 0x80, 0xF0, 0x10, 0xF0, // 5
            0xF0, 0x80, 0xF0, 0x90, 0xF0, // 6
            0xF0, 0x10, 0x20, 0x40, 0x40, // 7
            0xF0, 0x90, 0xF0, 0x90, 0xF0, // 8
            0xF0, 0x90, 0xF0, 0x10, 0xF0, // 9
            0xF0, 0x90, 0xF0, 0x90, 0x90, // A
            0xE0, 0x90, 0xE0, 0x90, 0xE0, // B
            0xF0, 0x80, 0x80, 0x80, 0xF0, // C
            0xE0, 0x90, 0x90, 0x90, 0xE0, // D
            0xF0, 0x98, 0xF0, 0x80, 0xF0, // E
            0xF0, 0x80, 0xF0, 0x80, 0x80, // F
        ];
        assert(sprites@ =~= font());
        let ghost before = self@.memory;
        let mut k: usize = 0;
        while k < 0x50
            invariant
                k <= 0x50,
                sprites@ == font(),
                before == old(self)@.memory,
                self@ == (MemoryState { memory: self@.memory, ..old(self)@ }),
                self@.memory.len() == MEM_SIZE,
                forall|a: int|
                    0 <= a < MEM_SIZE ==> #[trigger] self@.memory[a] == if a < k {
                        font()[a]
                    } else {
                        before[a]
                    },
            decreases 0x50 - k,
        {
            self.memory[k] = sprites[k];
            k += 1;
        }
        assert(self@.memory =~= Seq::new(
            MEM_SIZE as nat,
            |a: int| if a < 0x50 { font()[a] } else { old(self)@.memory[a] },
        ));
    }
}

} // verus!
