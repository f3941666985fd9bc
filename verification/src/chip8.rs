//! The CHIP-8 machine state and its fetch-decode-execute engine.

use vstd::prelude::*;

use crate::model::add_wrap16;
use crate::model::add_wrap;
use crate::model::advance;
use crate::model::collision_upto;
use crate::model::decode_spec;
use crate::model::draw_state;
use crate::model::exec_spec;
use crate::model::fetch_word;
use crate::model::fetched_at;
use crate::model::first_key;
use crate::model::font_seq;
use crate::model::hit_upto;
use crate::model::init_memory;
use crate::model::init_state;
use crate::model::instr_wf;
use crate::model::lemma_blit_complete;
use crate::model::lemma_blit_empty;
use crate::model::lemma_blit_row;
use crate::model::lemma_blit_step;
use crate::model::lemma_cell_coords;
use crate::model::lemma_cell_split;
use crate::model::lemma_decode_wf;
use crate::model::lemma_first_key_at;
use crate::model::lemma_low_nibble;
use crate::model::load_block;
use crate::model::offset_x;
use crate::model::offset_y;
use crate::model::pair_on;
use crate::model::pair_target_x;
use crate::model::pair_target_y;
use crate::model::sprite_bit;
use crate::model::State;
use crate::model::step_spec;
use crate::model::store_block;
use crate::model::sub_wrap;
use crate::model::touch_upto;
use crate::DISPLAY_CELLS;
use crate::FONTS_SIZE;
use crate::KEYBOARD_SIZE;
use crate::MEMORY_SIZE;
use crate::NUMBER_OF_REGISTERS;
use crate::PROGRAM_START;
use crate::STACK_SIZE;

verus! {

/// Configuration of the historically divergent behaviours ("quirks") that
/// differ between original-era interpreters. All toggles are independent and
/// fixed after construction.
#[derive(Clone, Copy, Debug, PartialEq, Eq, Structural)]
pub struct Quirks {
    /// OR/AND/XOR additionally reset VF to zero after computing their result.
    pub vf_reset: bool,
    /// Register block store/load advance the index register by the number of
    /// registers transferred.
    pub memory: bool,
    /// At most one draw operation per frame. Consumed by the external driver,
    /// not by the engine itself.
    pub display_wait: bool,
    /// Sprite rows and columns that would leave the display are dropped
    /// instead of wrapping around.
    pub clipping: bool,
    /// Shift instructions read the second register operand instead of the
    /// first.
    pub shifting: bool,
    /// The indexed jump takes its register selector from the high nibble of
    /// the address operand instead of always using V0.
    pub jumping: bool,
}

/// A fatal condition surfaced by the engine. The engine never recovers
/// silently: the machine state is left exactly as it was before the failing
/// step, and the error identifies the offending word or address together
/// with the program counter at the time.
#[derive(Clone, Copy, Debug, PartialEq, Eq, Structural)]
pub enum Chip8Error {
    /// The fetched word matches no known instruction family.
    Unimplemented { word: u16, pc: u16 },
    /// A call was made with the stack already at its maximum depth.
    StackOverflow { pc: u16 },
    /// A return was executed with an empty stack.
    StackUnderflow { pc: u16 },
    /// The program counter points past the end of memory.
    PcOutOfBounds { pc: u16 },
    /// An instruction would read or write past the end of memory.
    MemoryOutOfBounds { pc: u16 },
    /// The program image does not fit in memory above the program start.
    ProgramTooLarge { len: usize },
}

/// A decoded instruction: a closed set of operation kinds, each carrying
/// only the operand fields it needs (register indices, an immediate, or a
/// 12-bit address). Any word that matches no family decodes to
/// [`Instruction::Unknown`] carrying the raw word.
#[derive(Clone, Copy, Debug, PartialEq, Eq, Structural)]
pub enum Instruction {
    /// 0nnn - SYS addr. Jump to machine code at address (ignored in practice).
    Sys(usize),
    /// 00E0 - CLS. Clear the screen.
    Cls,
    /// 00EE - RET. Return from subroutine.
    Ret,
    /// 1nnn - JMP addr. Jump to address.
    Jmp(usize),
    /// 2nnn - CALL addr. Call subroutine at address.
    Call(usize),
    /// 3xkk - SKEB Vx, byte. Skip next instruction if VX == byte.
    Skeb(usize, u8),
    /// 4xkk - SKNEB Vx, byte. Skip next instruction if VX != byte.
    Skneb(usize, u8),
    /// 5xy0 - SKE Vx, Vy. Skip next instruction if VX == VY.
    Ske(usize, usize),
    /// 9xy0 - SKNE Vx, Vy. Skip next instruction if VX != VY.
    Skne(usize, usize),
    /// 6xkk - LDB Vx, byte. Load register VX with byte.
    Ldb(usize, u8),
    /// 7xkk - ADDB Vx, byte. Add byte to VX (without overflow status).
    Addb(usize, u8),
    /// 8xy0 - LD Vx, Vy. Load register VX with register VY.
    Ld(usize, usize),
    /// 8xy1 - OR Vx, Vy. Set VX = VX OR VY.
    Or(usize, usize),
    /// 8xy2 - AND Vx, Vy. Set VX = VX AND VY.
    And(usize, usize),
    /// 8xy3 - XOR Vx, Vy. Set VX = VX XOR VY.
    Xor(usize, usize),
    /// 8xy4 - ADD Vx, Vy. Set VX = VX + VY with carry status in VF.
    Add(usize, usize),
    /// 8xy5 - SUB Vx, Vy. Set VX = VX - VY with not-borrow status in VF.
    Sub(usize, usize),
    /// 8xy7 - SUBR Vx, Vy. Set VX = VY - VX with not-borrow status in VF.
    Subr(usize, usize),
    /// 8xy6 - SHR Vx, Vy. Shift right with the shifted-out bit in VF.
    Shr(usize, usize),
    /// 8xyE - SHL Vx, Vy. Shift left with the shifted-out bit in VF.
    Shl(usize, usize),
    /// Annn - LDI addr. Set the index register to nnn.
    Ldi(usize),
    /// Bnnn - JMPZ addr. Jump to nnn plus an offset register.
    Jmpz(usize),
    /// Cxkk - RND Vx, byte. Set VX to (random byte AND byte).
    Rnd(usize, u8),
    /// Dxyn - DRAW Vx, Vy, n. XOR-blit an n-row sprite from memory at I to
    /// (VX, VY), with collision status in VF.
    Draw(usize, usize, u8),
    /// Ex9E - SKP Vx. Skip next instruction if the key named by VX is pressed.
    Skp(usize),
    /// ExA1 - SKNP Vx. Skip next instruction if the key named by VX is not
    /// pressed.
    Sknp(usize),
    /// Fx07 - LDFT Vx. Load VX with the delay timer value.
    Ldft(usize),
    /// Fx0A - LDKP Vx. Wait for a keypress and load the key number into VX.
    Ldkp(usize),
    /// Fx15 - LDTT Vx. Set the delay timer from VX.
    Ldtt(usize),
    /// Fx18 - LDST Vx. Set the sound timer from VX.
    Ldst(usize),
    /// Fx1E - ADDI Vx. Set I = I + VX.
    Addi(usize),
    /// Fx29 - FONT Vx. Load I with the font glyph address for VX.
    Font(usize),
    /// Fx33 - BCD Vx. Store the decimal digits of VX at I, I+1 and I+2.
    Bcd(usize),
    /// Fx55 - SREG Vx. Store registers V0 to VX in memory starting at I.
    Sreg(usize),
    /// Fx65 - LREG Vx. Load registers V0 to VX from memory starting at I.
    Lreg(usize),
    /// Not an instruction: the raw word matched no family.
    Unknown(u16),
}

/// The virtual machine: memory, registers, timers, call stack, display,
/// input latch and the quirks configuration. Pure data; every mutation goes
/// through the engine.
///
/// The display is a flat row-major grid of 64 x 32 cells: pixel `(x, y)` is
/// `display[y * 64 + x]`.
#[derive(Debug)]
pub struct Chip8 {
    /// RAM: 4096 bytes, font data at the bottom, program from 0x200.
    pub memory: Vec<u8>,
    /// General purpose registers V0 to VF.
    pub registers: Vec<u8>,
    /// Delay timer register, decremented by the external driver.
    pub dt: u8,
    /// Sound timer register, decremented by the external driver.
    pub st: u8,
    /// Index register.
    pub i: u16,
    /// Program counter.
    pub pc: u16,
    /// Stack pointer: the number of occupied stack slots.
    pub sp: usize,
    /// Call stack of return addresses.
    pub stack: Vec<u16>,
    /// Display grid, row-major, 2048 cells.
    pub display: Vec<bool>,
    /// The display changed since the external renderer last observed it.
    pub display_update: bool,
    /// Keyboard latch, one slot per logical key, written by the driver.
    pub keyboard: Vec<bool>,
    /// The configured quirk toggles, fixed after construction.
    pub quirks: Quirks,
}

impl View for Chip8 {
    type V = State;

    open spec fn view(&self) -> State {
        State {
            memory: self.memory@,
            registers: self.registers@,
            dt: self.dt,
            st: self.st,
            i: self.i,
            pc: self.pc,
            sp: self.sp,
            stack: self.stack@,
            display: self.display@,
            display_update: self.display_update,
            keyboard: self.keyboard@,
            quirks: self.quirks,
        }
    }
}

impl Chip8 {
    /// The size invariants of the machine, established at construction and
    /// preserved by every step.
    pub open spec fn wf(&self) -> bool {
        self@.wf()
    }

    /// The built-in font data as a vector.
    fn font_data() -> (r: Vec<u8>)
        ensures
            r@ == font_seq(),
    {
        let f: Vec<u8> = vec![
            0xF0, 0x90, 0x90, 0x90, 0xF0,  // 0
            0x20, 0x60, 0x20, 0x20, 0x70,  // 1
            0xF0, 0x10, 0xF0, 0x80, 0xF0,  // 2
            0xF0, 0x10, 0xF0, 0x10, 0xF0,  // 3
            0x90, 0x90, 0xF0, 0x10, 0x10,  // 4
            0xF0, 0x80, 0xF0, 0x10, 0xF0,  // 5
            0xF0, 0x80, 0xF0, 0x90, 0xF0,  // 6
            0xF0, 0x10, 0x20, 0x40, 0x40,  // 7
            0xF0, 0x90, 0xF0, 0x90, 0xF0,  // 8
            0xF0, 0x90, 0xF0, 0x10, 0xF0,  // 9
            0xF0, 0x90, 0xF0, 0x90, 0x90,  // A
            0xE0, 0x90, 0xE0, 0x90, 0xE0,  // B
            0xF0, 0x80, 0x80, 0x80, 0xF0,  // C
            0xE0, 0x90, 0x90, 0x90, 0xE0,  // D
            0xF0, 0x80, 0xF0, 0x80, 0xF0,  // E
            0xF0, 0x80, 0xF0, 0x80, 0x80,  // F
        ];
        proof {
            assert(f@ =~= font_seq());
        }
        f
    }

    /// Build a machine from a program image and a quirks configuration:
    /// font and program preloaded into memory, everything else zeroed, the
    /// program counter at the program start. An image that does not fit in
    /// memory above the program start is rejected.
    pub fn new(program: Vec<u8>, quirks: Quirks) -> (r: Result<Chip8, Chip8Error>)
        ensures
            program@.len() <= 3584 ==> (r matches Ok(c) && c@ == init_state(program@, quirks)),
            program@.len() > 3584 ==> (r matches Err(e) && e == (Chip8Error::ProgramTooLarge {
                len: program@.len() as usize,
            })),
    {
        if program.len() > MEMORY_SIZE - PROGRAM_START {
            return Err(Chip8Error::ProgramTooLarge { len: program.len() });
        }
        let mut memory: Vec<u8> = vec![0u8; MEMORY_SIZE];
        let fonts: Vec<u8> = Self::font_data();
        let mut k: usize = 0;
        while k < FONTS_SIZE
            invariant
                k <= 80,
                memory@.len() == 4096,
                fonts@ == font_seq(),
                forall|a: int| 0 <= a < k ==> memory@[a] == font_seq()[a],
                forall|a: int| k <= a < 4096 ==> memory@[a] == 0u8,
            decreases 80 - k,
        {
            memory[k] = fonts[k];
            k = k + 1;
        }
        let mut j: usize = 0;
        while j < program.len()
            invariant
                j <= program@.len() <= 3584,
                memory@.len() == 4096,
                forall|a: int| 0 <= a < 80 ==> memory@[a] == font_seq()[a],
                forall|a: int| 512 <= a < 512 + j ==> memory@[a] == program@[a - 512],
                forall|a: int|
                    80 <= a < 4096 && !(512 <= a < 512 + j) ==> memory@[a] == 0u8,
            decreases program@.len() - j,
        {
            memory[PROGRAM_START + j] = program[j];
            j = j + 1;
        }
        let c = Chip8 {
            memory,
            registers: vec![0u8; NUMBER_OF_REGISTERS],
            dt: 0,
            st: 0,
            i: 0,
            pc: PROGRAM_START as u16,
            sp: 0,
            stack: vec![0u16; STACK_SIZE],
            display: vec![false; DISPLAY_CELLS],
            display_update: false,
            keyboard: vec![false; KEYBOARD_SIZE],
            quirks,
        };
        proof {
            assert(c@.memory =~= init_memory(program@));
            assert(c@.registers =~= init_state(program@, quirks).registers);
            assert(c@.stack =~= init_state(program@, quirks).stack);
            assert(c@.display =~= init_state(program@, quirks).display);
            assert(c@.keyboard =~= init_state(program@, quirks).keyboard);
            assert(c@ =~= init_state(program@, quirks));
        }
        Ok(c)
    }

    /// Byte addition with eight-bit wraparound.
    fn add8(a: u8, b: u8) -> (r: u8)
        ensures
            r == add_wrap(a, b),
    {
        let s: u16 = a as u16 + b as u16;
        if s < 256 {
            s as u8
        } else {
            (s - 256) as u8
        }
    }

    /// Byte subtraction with eight-bit wraparound.
    fn sub8(a: u8, b: u8) -> (r: u8)
        ensures
            r == sub_wrap(a, b),
    {
        if a >= b {
            a - b
        } else {
            ((a as u16 + 256) - b as u16) as u8
        }
    }

    /// Sixteen-bit addition with wraparound.
    fn add16(a: u16, b: u16) -> (r: u16)
        ensures
            r == add_wrap16(a, b),
    {
        let s: u32 = a as u32 + b as u32;
        if s < 0x10000 {
            s as u16
        } else {
            (s - 0x10000) as u16
        }
    }

    /// Clear the display and raise the dirty flag.
    fn cls(&mut self)
        requires
            old(self).wf(),
        ensures
            final(self)@ == (State {
                display: Seq::new(2048, |c: int| false),
                display_update: true,
                ..old(self)@
            }),
    {
        self.display = vec![false; DISPLAY_CELLS];
        self.display_update = true;
        proof {
            assert(self@.display =~= Seq::new(2048, |c: int| false));
            assert(self@ =~= (State {
                display: Seq::new(2048, |c: int| false),
                display_update: true,
                ..old(self)@
            }));
        }
    }

    /// Store registers V0 to VX into memory starting at the index register.
    fn store_regs(&mut self, x: usize)
        requires
            old(self).wf(),
            x < 16,
            old(self)@.i + x + 1 <= 4096,
        ensures
            final(self)@ == (State {
                memory: store_block(
                    old(self)@.memory,
                    old(self)@.i as int,
                    old(self)@.registers,
                    x as int,
                ),
                ..old(self)@
            }),
    {
        let ghost s0 = self@;
        let ghost i0 = s0.i as int;
        let base: usize = self.i as usize;
        let mut r: usize = 0;
        while r <= x
            invariant
                r <= x + 1,
                x < 16,
                s0.wf(),
                i0 == s0.i as int,
                base == i0,
                i0 + x + 1 <= 4096,
                self@ == (State { memory: self.memory@, ..s0 }),
                self.memory@.len() == 4096,
                forall|a: int| i0 <= a < i0 + r ==> self.memory@[a] == s0.registers[a - i0],
                forall|a: int|
                    0 <= a < 4096 && !(i0 <= a < i0 + r) ==> self.memory@[a] == s0.memory[a],
            decreases x + 1 - r,
        {
            self.memory[base + r] = self.registers[r];
            r = r + 1;
        }
        proof {
            assert(self.memory@ =~= store_block(s0.memory, i0, s0.registers, x as int));
            assert(self@ =~= (State {
                memory: store_block(s0.memory, i0, s0.registers, x as int),
                ..s0
            }));
        }
    }

    /// Load registers V0 to VX from memory starting at the index register.
    fn load_regs(&mut self, x: usize)
        requires
            old(self).wf(),
            x < 16,
            old(self)@.i + x + 1 <= 4096,
        ensures
            final(self)@ == (State {
                registers: load_block(
                    old(self)@.registers,
                    old(self)@.memory,
                    old(self)@.i as int,
                    x as int,
                ),
                ..old(self)@
            }),
    {
        let ghost s0 = self@;
        let ghost i0 = s0.i as int;
        let base: usize = self.i as usize;
        let mut r: usize = 0;
        while r <= x
            invariant
                r <= x + 1,
                x < 16,
                s0.wf(),
                i0 == s0.i as int,
                base == i0,
                i0 + x + 1 <= 4096,
                self@ == (State { registers: self.registers@, ..s0 }),
                self.registers@.len() == 16,
                forall|j: int| 0 <= j < r ==> self.registers@[j] == s0.memory[i0 + j],
                forall|j: int| r <= j < 16 ==> self.registers@[j] == s0.registers[j],
            decreases x + 1 - r,
        {
            self.registers[r] = self.memory[base + r];
            r = r + 1;
        }
        proof {
            assert(self.registers@ =~= load_block(s0.registers, s0.memory, i0, x as int));
            assert(self@ =~= (State {
                registers: load_block(s0.registers, s0.memory, i0, x as int),
                ..s0
            }));
        }
    }

    /// Scan the keyboard for the first pressed key. If one is pressed, store
    /// its index in VX and release its latch; otherwise rewind the program
    /// counter so the same instruction re-executes on the next step.
    fn wait_key(&mut self, x: usize)
        requires
            old(self).wf(),
            x < 16,
            old(self)@.pc >= 2,
        ensures
            final(self).wf(),
            final(self)@ == ({
                let s = old(self)@;
                let k = first_key(s.keyboard);
                if k == 16 {
                    State { pc: fetched_at(s), ..s }
                } else {
                    State {
                        registers: s.registers.update(x as int, k as u8),
                        keyboard: s.keyboard.update(k, false),
                        ..s
                    }
                }
            }),
    {
        let ghost s0 = self@;
        let mut k: usize = 0;
        while k < KEYBOARD_SIZE && !self.keyboard[k]
            invariant
                k <= 16,
                self@ == s0,
                s0.wf(),
                forall|j: int| 0 <= j < k ==> !s0.keyboard[j],
            decreases 16 - k,
        {
            k = k + 1;
        }
        proof {
            lemma_first_key_at(s0.keyboard, 0, k as int);
        }
        if k < KEYBOARD_SIZE {
            self.registers[x] = k as u8;
            self.keyboard[k] = false;
        } else {
            self.pc = self.pc - 2;
        }
    }

    /// XOR-blit an `n`-row sprite from memory at the index register to the
    /// position named by registers VX and VY: set sprite pixels flip display
    /// cells, a flip from lit to unlit records a collision in VF, and any
    /// touched cell raises the dirty flag. Rows and columns wrap around the
    /// display unless the clipping quirk drops them instead.
    fn draw_sprite(&mut self, x: usize, y: usize, n: u8)
        requires
            old(self).wf(),
            x < 16,
            y < 16,
            n < 16,
            old(self)@.i + n <= 4096,
        ensures
            final(self)@ == draw_state(old(self)@, x as int, y as int, n as int),
    {
        let ghost s0 = self@;
        let ghost d0 = self@.display;
        let px: usize = (self.registers[x] % 64) as usize;
        let py: usize = (self.registers[y] % 32) as usize;
        let base: usize = self.i as usize;
        let clip: bool = self.quirks.clipping;
        let ghost pxg = px as int;
        let ghost pyg = py as int;
        let ghost ig = s0.i as int;
        let ghost ng = n as int;
        let mut collided: bool = false;
        let mut touched: bool = false;
        proof {
            lemma_blit_empty(d0, s0.memory, ig, pxg, pyg, ng, clip);
        }
        let mut dy: usize = 0;
        while dy < n as usize
            invariant
                s0.wf(),
                d0 == s0.display,
                x < 16,
                y < 16,
                dy <= ng < 16,
                pxg == s0.registers[x as int] as int % 64,
                pyg == s0.registers[y as int] as int % 32,
                px == pxg,
                py == pyg,
                px < 64,
                py < 32,
                base == ig,
                ig + ng <= 4096,
                ng == n as int,
                clip == s0.quirks.clipping,
                self@ == (State { display: self.display@, ..s0 }),
                self.display@.len() == 2048,
                forall|c: int|
                    0 <= c < 2048 ==> self.display@[c] == (if hit_upto(
                        s0.memory,
                        ig,
                        pxg,
                        pyg,
                        ng,
                        clip,
                        c % 64,
                        c / 64,
                        dy as int,
                        0,
                    ) {
                        !d0[c]
                    } else {
                        d0[c]
                    }),
                collided == collision_upto(d0, s0.memory, ig, pxg, pyg, ng, clip, dy as int, 0),
                touched == touch_upto(s0.memory, ig, pxg, pyg, ng, clip, dy as int, 0),
            decreases n as usize - dy,
        {
            let row: u8 = self.memory[base + dy];
            let mut dx: usize = 0;
            while dx < 8
                invariant
                    s0.wf(),
                    d0 == s0.display,
                    dx <= 8,
                    dy < ng < 16,
                    px == pxg,
                    py == pyg,
                    px < 64,
                    py < 32,
                    base == ig,
                    ig + ng <= 4096,
                    ng == n as int,
                    clip == s0.quirks.clipping,
                    row == s0.memory[ig + dy],
                    self@ == (State { display: self.display@, ..s0 }),
                    self.display@.len() == 2048,
                    forall|c: int|
                        0 <= c < 2048 ==> self.display@[c] == (if hit_upto(
                            s0.memory,
                            ig,
                            pxg,
                            pyg,
                            ng,
                            clip,
                            c % 64,
                            c / 64,
                            dy as int,
                            dx as int,
                        ) {
                            !d0[c]
                        } else {
                            d0[c]
                        }),
                    collided == collision_upto(
                        d0,
                        s0.memory,
                        ig,
                        pxg,
                        pyg,
                        ng,
                        clip,
                        dy as int,
                        dx as int,
                    ),
                    touched == touch_upto(
                        s0.memory,
                        ig,
                        pxg,
                        pyg,
                        ng,
                        clip,
                        dy as int,
                        dx as int,
                    ),
                decreases 8 - dx,
            {
                proof {
                    lemma_blit_step(
                        d0,
                        s0.memory,
                        ig,
                        pxg,
                        pyg,
                        ng,
                        clip,
                        dy as int,
                        dx as int,
                    );
                }
                let sh: u8 = (7 - dx) as u8;
                let bit: bool = ((row >> sh) & 1) == 1;
                let mut in_bounds: bool = true;
                let tx: usize;
                let ty: usize;
                if clip {
                    tx = px + dx;
                    ty = py + dy;
                    if tx >= 64 || ty >= 32 {
                        in_bounds = false;
                    }
                } else {
                    tx = if px + dx >= 64 {
                        px + dx - 64
                    } else {
                        px + dx
                    };
                    ty = if py + dy >= 32 {
                        py + dy - 32
                    } else {
                        py + dy
                    };
                }
                proof {
                    assert(bit == sprite_bit(s0.memory[ig + dy], dx as int));
                    assert(in_bounds == pair_on(pxg, pyg, clip, dx as int, dy as int));
                    if in_bounds {
                        assert(tx as int == pair_target_x(pxg, clip, dx as int));
                        assert(ty as int == pair_target_y(pyg, clip, dy as int));
                        assert(offset_x(pxg, clip, tx as int) == dx as int);
                        assert(offset_y(pyg, clip, ty as int) == dy as int);
                    }
                }
                if bit && in_bounds {
                    proof {
                        lemma_cell_coords(tx as int, ty as int);
                    }
                    let cell: usize = ty * 64 + tx;
                    let prev: bool = self.display[cell];
                    proof {
                        assert(!hit_upto(
                            s0.memory,
                            ig,
                            pxg,
                            pyg,
                            ng,
                            clip,
                            tx as int,
                            ty as int,
                            dy as int,
                            dx as int,
                        ));
                        assert(prev == d0[cell as int]);
                    }
                    if prev {
                        collided = true;
                    }
                    self.display[cell] = !prev;
                    touched = true;
                    proof {
                        assert forall|c: int| 0 <= c < 2048 implies self.display@[c] == (
                        if hit_upto(
                            s0.memory,
                            ig,
                            pxg,
                            pyg,
                            ng,
                            clip,
                            c % 64,
                            c / 64,
                            dy as int,
                            dx as int + 1,
                        ) {
                            !d0[c]
                        } else {
                            d0[c]
                        }) by {
                            lemma_cell_split(c);
                            if c != cell as int {
                                assert(!(c % 64 == tx as int && c / 64 == ty as int));
                            }
                        }
                    }
                } else {
                    proof {
                        assert forall|c: int| 0 <= c < 2048 implies self.display@[c] == (
                        if hit_upto(
                            s0.memory,
                            ig,
                            pxg,
                            pyg,
                            ng,
                            clip,
                            c % 64,
                            c / 64,
                            dy as int,
                            dx as int + 1,
                        ) {
                            !d0[c]
                        } else {
                            d0[c]
                        }) by {
                            lemma_cell_split(c);
                        }
                    }
                }
                dx = dx + 1;
            }
            proof {
                lemma_blit_row(d0, s0.memory, ig, pxg, pyg, ng, clip, dy as int);
            }
            dy = dy + 1;
        }
        proof {
            lemma_blit_complete(d0, s0.memory, ig, pxg, pyg, ng, clip);
        }
        if collided {
            self.registers[15] = 1;
        } else {
            self.registers[15] = 0;
        }
        self.display_update = self.display_update || touched;
        proof {
            assert(self@.display =~= draw_state(s0, x as int, y as int, n as int).display);
            assert(self@ =~= draw_state(s0, x as int, y as int, n as int));
        }
    }

    /// Fetch the big-endian instruction word at the current program counter.
    pub fn fetch(&self) -> (r: u16)
        requires
            self.wf(),
            self.pc + 2 <= 4096,
        ensures
            r == fetch_word(self@),
    {
        let hi: u16 = self.memory[self.pc as usize] as u16;
        let lo: u16 = self.memory[self.pc as usize + 1] as u16;
        (hi << 8) | lo
    }

    /// Decode an instruction word. Pure, total, and equal to the model's
    /// [`decode_spec`].
    pub fn decode(word: u16) -> (r: Instruction)
        ensures
            r == decode_spec(word),
            instr_wf(r),
    {
        proof {
            lemma_decode_wf(word);
        }
        let op: u16 = (word & 0xF000) >> 12;
        let x: usize = ((word & 0x0F00) >> 8) as usize;
        let y: usize = ((word & 0x00F0) >> 4) as usize;
        let n: u8 = (word & 0x000F) as u8;
        let nn: u8 = (word & 0x00FF) as u8;
        let nnn: usize = (word & 0x0FFF) as usize;
        match op {
            0 => match nnn {
                0x0E0 => Instruction::Cls,
                0x0EE => Instruction::Ret,
                _ => Instruction::Sys(nnn),
            },
            1 => Instruction::Jmp(nnn),
            2 => Instruction::Call(nnn),
            3 => Instruction::Skeb(x, nn),
            4 => Instruction::Skneb(x, nn),
            5 => match n {
                0 => Instruction::Ske(x, y),
                _ => Instruction::Unknown(word),
            },
            6 => Instruction::Ldb(x, nn),
            7 => Instruction::Addb(x, nn),
            8 => match n {
                0 => Instruction::Ld(x, y),
                1 => Instruction::Or(x, y),
                2 => Instruction::And(x, y),
                3 => Instruction::Xor(x, y),
                4 => Instruction::Add(x, y),
                5 => Instruction::Sub(x, y),
                6 => Instruction::Shr(x, y),
                7 => Instruction::Subr(x, y),
                0xE => Instruction::Shl(x, y),
                _ => Instruction::Unknown(word),
            },
            9 => match n {
                0 => Instruction::Skne(x, y),
                _ => Instruction::Unknown(word),
            },
            0xA => Instruction::Ldi(nnn),
            0xB => Instruction::Jmpz(nnn),
            0xC => Instruction::Rnd(x, nn),
            0xD => Instruction::Draw(x, y, n),
            0xE => match nn {
                0x9E => Instruction::Skp(x),
                0xA1 => Instruction::Sknp(x),
                _ => Instruction::Unknown(word),
            },
            0xF => match nn {
                0x07 => Instruction::Ldft(x),
                0x0A => Instruction::Ldkp(x),
                0x15 => Instruction::Ldtt(x),
                0x18 => Instruction::Ldst(x),
                0x1E => Instruction::Addi(x),
                0x29 => Instruction::Font(x),
                0x33 => Instruction::Bcd(x),
                0x55 => Instruction::Sreg(x),
                0x65 => Instruction::Lreg(x),
                _ => Instruction::Unknown(word),
            },
            _ => Instruction::Unknown(word),
        }
    }

    /// Execute one decoded instruction against the machine state. The
    /// program counter has already been advanced past the instruction; a
    /// fatal condition leaves the state untouched and reports the program
    /// counter at which the instruction was fetched.
    #[verifier::rlimit(100)]
    fn execute(&mut self, instr: Instruction, rnd: u8) -> (r: Result<(), Chip8Error>)
        requires
            old(self).wf(),
            instr_wf(instr),
            2 <= old(self)@.pc <= 4096,
        ensures
            final(self).wf(),
            exec_spec(old(self)@, instr, rnd) == (match r {
                Ok(_) => Ok::<State, Chip8Error>(final(self)@),
                Err(e) => Err::<State, Chip8Error>(e),
            }),
            r is Err ==> final(self)@ == old(self)@,
    {
        match instr {
            Instruction::Sys(_nnn) => {},
            Instruction::Cls => {
                self.cls();
            },
            Instruction::Ret => {
                if self.sp == 0 {
                    return Err(Chip8Error::StackUnderflow { pc: self.pc - 2 });
                }
                self.sp = self.sp - 1;
                self.pc = self.stack[self.sp];
            },
            Instruction::Call(nnn) => {
                if self.sp >= STACK_SIZE {
                    return Err(Chip8Error::StackOverflow { pc: self.pc - 2 });
                }
                self.stack[self.sp] = self.pc;
                self.sp = self.sp + 1;
                self.pc = nnn as u16;
            },
            Instruction::Jmp(nnn) => {
                self.pc = nnn as u16;
            },
            Instruction::Skeb(x, nn) => {
                if self.registers[x] == nn {
                    self.pc = self.pc + 2;
                }
            },
            Instruction::Skneb(x, nn) => {
                if self.registers[x] != nn {
                    self.pc = self.pc + 2;
                }
            },
            Instruction::Ske(x, y) => {
                if self.registers[x] == self.registers[y] {
                    self.pc = self.pc + 2;
                }
            },
            Instruction::Skne(x, y) => {
                if self.registers[x] != self.registers[y] {
                    self.pc = self.pc + 2;
                }
            },
            Instruction::Ldb(x, nn) => {
                self.registers[x] = nn;
            },
            Instruction::Addb(x, nn) => {
                let v: u8 = self.registers[x];
                self.registers[x] = Self::add8(v, nn);
            },
            Instruction::Ld(x, y) => {
                self.registers[x] = self.registers[y];
            },
            Instruction::Or(x, y) => {
                let vx: u8 = self.registers[x];
                let vy: u8 = self.registers[y];
                self.registers[x] = vx | vy;
                if self.quirks.vf_reset {
                    self.registers[15] = 0;
                }
            },
            Instruction::And(x, y) => {
                let vx: u8 = self.registers[x];
                let vy: u8 = self.registers[y];
                self.registers[x] = vx & vy;
                if self.quirks.vf_reset {
                    self.registers[15] = 0;
                }
            },
            Instruction::Xor(x, y) => {
                let vx: u8 = self.registers[x];
                let vy: u8 = self.registers[y];
                self.registers[x] = vx ^ vy;
                if self.quirks.vf_reset {
                    self.registers[15] = 0;
                }
            },
            Instruction::Add(x, y) => {
                let a: u8 = self.registers[x];
                let b: u8 = self.registers[y];
                let flag: u8 = if (a as u16) + (b as u16) >= 256 {
                    1
                } else {
                    0
                };
                self.registers[x] = Self::add8(a, b);
                self.registers[15] = flag;
            },
            Instruction::Sub(x, y) => {
                let a: u8 = self.registers[x];
                let b: u8 = self.registers[y];
                let flag: u8 = if a >= b {
                    1
                } else {
                    0
                };
                self.registers[x] = Self::sub8(a, b);
                self.registers[15] = flag;
            },
            Instruction::Subr(x, y) => {
                let a: u8 = self.registers[x];
                let b: u8 = self.registers[y];
                let flag: u8 = if b >= a {
                    1
                } else {
                    0
                };
                self.registers[x] = Self::sub8(b, a);
                self.registers[15] = flag;
            },
            Instruction::Shr(x, y) => {
                let v: u8 = if self.quirks.shifting {
                    self.registers[y]
                } else {
                    self.registers[x]
                };
                self.registers[x] = v >> 1;
                self.registers[15] = v & 1;
            },
            Instruction::Shl(x, y) => {
                let v: u8 = if self.quirks.shifting {
                    self.registers[y]
                } else {
                    self.registers[x]
                };
                self.registers[x] = v << 1;
                self.registers[15] = (v >> 7) & 1;
            },
            Instruction::Ldi(nnn) => {
                self.i = nnn as u16;
            },
            Instruction::Jmpz(nnn) => {
                let sel: usize = if self.quirks.jumping {
                    (nnn / 256) % 16
                } else {
                    0
                };
                self.pc = (nnn + self.registers[sel] as usize) as u16;
            },
            Instruction::Rnd(x, nn) => {
                self.registers[x] = rnd & nn;
            },
            Instruction::Draw(x, y, n) => {
                if self.i as usize + n as usize > MEMORY_SIZE {
                    return Err(Chip8Error::MemoryOutOfBounds { pc: self.pc - 2 });
                }
                self.draw_sprite(x, y, n);
            },
            Instruction::Skp(x) => {
                proof {
                    lemma_low_nibble(self.registers@[x as int]);
                }
                let key: usize = (self.registers[x] & 0x0F) as usize;
                if self.keyboard[key] {
                    self.pc = self.pc + 2;
                }
            },
            Instruction::Sknp(x) => {
                proof {
                    lemma_low_nibble(self.registers@[x as int]);
                }
                let key: usize = (self.registers[x] & 0x0F) as usize;
                if !self.keyboard[key] {
                    self.pc = self.pc + 2;
                }
            },
            Instruction::Ldft(x) => {
                self.registers[x] = self.dt;
            },
            Instruction::Ldkp(x) => {
                self.wait_key(x);
            },
            Instruction::Ldtt(x) => {
                self.dt = self.registers[x];
            },
            Instruction::Ldst(x) => {
                self.st = self.registers[x];
            },
            Instruction::Addi(x) => {
                let v: u16 = self.registers[x] as u16;
                self.i = Self::add16(self.i, v);
            },
            Instruction::Font(x) => {
                proof {
                    lemma_low_nibble(self.registers@[x as int]);
                }
                self.i = ((self.registers[x] & 0x0F) as u16) * 5;
            },
            Instruction::Bcd(x) => {
                if self.i as usize + 3 > MEMORY_SIZE {
                    return Err(Chip8Error::MemoryOutOfBounds { pc: self.pc - 2 });
                }
                let v: u8 = self.registers[x];
                let base: usize = self.i as usize;
                self.memory[base] = v / 100;
                self.memory[base + 1] = (v / 10) % 10;
                self.memory[base + 2] = v % 10;
            },
            Instruction::Sreg(x) => {
                if self.i as usize + x + 1 > MEMORY_SIZE {
                    return Err(Chip8Error::MemoryOutOfBounds { pc: self.pc - 2 });
                }
                self.store_regs(x);
                if self.quirks.memory {
                    self.i = self.i + x as u16 + 1;
                }
            },
            Instruction::Lreg(x) => {
                if self.i as usize + x + 1 > MEMORY_SIZE {
                    return Err(Chip8Error::MemoryOutOfBounds { pc: self.pc - 2 });
                }
                self.load_regs(x);
                if self.quirks.memory {
                    self.i = self.i + x as u16 + 1;
                }
            },
            Instruction::Unknown(w) => {
                return Err(Chip8Error::Unimplemented { word: w, pc: self.pc - 2 });
            },
        }
        proof {
            assert(exec_spec(old(self)@, instr, rnd) matches Ok(t) && t =~= self@);
        }
        Ok(())
    }

    /// One fetch-decode-execute step with the random byte supplied by the
    /// caller, making execution a pure function of state and that byte. On
    /// an error the machine state is unchanged.
    pub fn step_with(&mut self, rnd: u8) -> (r: Result<(), Chip8Error>)
        requires
            old(self).wf(),
        ensures
            final(self).wf(),
            match r {
                Ok(_) => step_spec(old(self)@, rnd) == Ok::<State, Chip8Error>(final(self)@),
                Err(e) => step_spec(old(self)@, rnd) == Err::<State, Chip8Error>(e)
                    && final(self)@ == old(self)@,
            },
    {
        if self.pc as usize + 2 > MEMORY_SIZE {
            return Err(Chip8Error::PcOutOfBounds { pc: self.pc });
        }
        let ghost pre = self@;
        let word: u16 = self.fetch();
        let instr: Instruction = Self::decode(word);
        self.pc = self.pc + 2;
        proof {
            assert(self@ =~= advance(pre));
        }
        let r = self.execute(instr, rnd);
        if r.is_err() {
            self.pc = self.pc - 2;
            proof {
                assert(self@ =~= pre);
            }
        }
        r
    }

    /// Relies on rand::random::<u8>: draws one byte from the thread-local
    /// generator. Nothing is assumed about the value.
    #[verifier::external_body]
    fn random_byte() -> u8 {
        rand::random::<u8>()
    }

    /// One fetch-decode-execute step, drawing the random byte from the
    /// process-wide generator: the machine moves to the state that
    /// [`step_spec`] gives for the current state and some random byte. On an
    /// error the machine state is unchanged.
    pub fn step(&mut self) -> (r: Result<(), Chip8Error>)
        requires
            old(self).wf(),
        ensures
            final(self).wf(),
            match r {
                Ok(_) => exists|b: u8|
                    step_spec(old(self)@, b) == Ok::<State, Chip8Error>(final(self)@),
                Err(e) => (exists|b: u8|
                    step_spec(old(self)@, b) == Err::<State, Chip8Error>(e)) && final(self)@
                    == old(self)@,
            },
    {
        let rnd: u8 = Self::random_byte();
        let r = self.step_with(rnd);
        proof {
            match r {
                Ok(_) => {
                    assert(step_spec(old(self)@, rnd) == Ok::<State, Chip8Error>(self@));
                },
                Err(e) => {
                    assert(step_spec(old(self)@, rnd) == Err::<State, Chip8Error>(e));
                },
            }
        }
        r
    }
}

} // verus!
