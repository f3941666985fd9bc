//! The mathematical model of the machine: an abstract state, a pure decode
//! function, and the state transition that one fetch-decode-execute step
//! performs. The executable engine in [`crate::chip8`] is verified against
//! these definitions.

use vstd::prelude::*;

use crate::chip8::Chip8Error;
use crate::chip8::Instruction;
use crate::chip8::Quirks;

verus! {

/// Abstract machine state: the view of [`crate::chip8::Chip8`].
///
/// The display is a flat row-major grid: cell `(x, y)` lives at index
/// `y * 64 + x`.
#[verifier::ext_equal]
pub ghost struct State {
    pub memory: Seq<u8>,
    pub registers: Seq<u8>,
    pub dt: u8,
    pub st: u8,
    pub i: u16,
    pub pc: u16,
    pub sp: usize,
    pub stack: Seq<u16>,
    pub display: Seq<bool>,
    pub display_update: bool,
    pub keyboard: Seq<bool>,
    pub quirks: Quirks,
}

impl State {
    /// The size invariants of the machine: fixed memory, register file,
    /// stack, display and keyboard, and a stack pointer within depth.
    pub open spec fn wf(self) -> bool {
        &&& self.memory.len() == 4096
        &&& self.registers.len() == 16
        &&& self.stack.len() == 16
        &&& self.display.len() == 2048
        &&& self.keyboard.len() == 16
        &&& self.sp <= 16
    }
}

// ---------------------------------------------------------------------------
// Decoding
// ---------------------------------------------------------------------------

/// Pure decoding of a 16-bit instruction word: dispatch on the first nibble,
/// with a secondary dispatch on the low nibble or low byte for the
/// arithmetic/logic and input/misc families. Total: anything unrecognized
/// becomes [`Instruction::Unknown`].
pub open spec fn decode_spec(w: u16) -> Instruction {
    let op: u16 = (w & 0xF000) >> 12;
    let x: usize = ((w & 0x0F00) >> 8) as usize;
    let y: usize = ((w & 0x00F0) >> 4) as usize;
    let n: u8 = (w & 0x000F) as u8;
    let nn: u8 = (w & 0x00FF) as u8;
    let nnn: usize = (w & 0x0FFF) as usize;
    if op == 0 {
        if nnn == 0x0E0 {
            Instruction::Cls
        } else if nnn == 0x0EE {
            Instruction::Ret
        } else {
            Instruction::Sys(nnn)
        }
    } else if op == 1 {
        Instruction::Jmp(nnn)
    } else if op == 2 {
        Instruction::Call(nnn)
    } else if op == 3 {
        Instruction::Skeb(x, nn)
    } else if op == 4 {
        Instruction::Skneb(x, nn)
    } else if op == 5 {
        if n == 0 {
            Instruction::Ske(x, y)
        } else {
            Instruction::Unknown(w)
        }
    } else if op == 6 {
        Instruction::Ldb(x, nn)
    } else if op == 7 {
        Instruction::Addb(x, nn)
    } else if op == 8 {
        if n == 0 {
            Instruction::Ld(x, y)
        } else if n == 1 {
            Instruction::Or(x, y)
        } else if n == 2 {
            Instruction::And(x, y)
        } else if n == 3 {
            Instruction::Xor(x, y)
        } else if n == 4 {
            Instruction::Add(x, y)
        } else if n == 5 {
            Instruction::Sub(x, y)
        } else if n == 6 {
            Instruction::Shr(x, y)
        } else if n == 7 {
            Instruction::Subr(x, y)
        } else if n == 0xE {
            Instruction::Shl(x, y)
        } else {
            Instruction::Unknown(w)
        }
    } else if op == 9 {
        if n == 0 {
            Instruction::Skne(x, y)
        } else {
            Instruction::Unknown(w)
        }
    } else if op == 0xA {
        Instruction::Ldi(nnn)
    } else if op == 0xB {
        Instruction::Jmpz(nnn)
    } else if op == 0xC {
        Instruction::Rnd(x, nn)
    } else if op == 0xD {
        Instruction::Draw(x, y, n)
    } else if op == 0xE {
        if nn == 0x9E {
            Instruction::Skp(x)
        } else if nn == 0xA1 {
            Instruction::Sknp(x)
        } else {
            Instruction::Unknown(w)
        }
    } else if op == 0xF {
        if nn == 0x07 {
            Instruction::Ldft(x)
        } else if nn == 0x0A {
            Instruction::Ldkp(x)
        } else if nn == 0x15 {
            Instruction::Ldtt(x)
        } else if nn == 0x18 {
            Instruction::Ldst(x)
        } else if nn == 0x1E {
            Instruction::Addi(x)
        } else if nn == 0x29 {
            Instruction::Font(x)
        } else if nn == 0x33 {
            Instruction::Bcd(x)
        } else if nn == 0x55 {
            Instruction::Sreg(x)
        } else if nn == 0x65 {
            Instruction::Lreg(x)
        } else {
            Instruction::Unknown(w)
        }
    } else {
        Instruction::Unknown(w)
    }
}

/// Operand fields of a decoded instruction are nibble- or 12-bit-sized.
pub open spec fn instr_wf(instr: Instruction) -> bool {
    match instr {
        Instruction::Sys(nnn) => nnn < 4096,
        Instruction::Cls => true,
        Instruction::Ret => true,
        Instruction::Jmp(nnn) => nnn < 4096,
        Instruction::Call(nnn) => nnn < 4096,
        Instruction::Skeb(x, _nn) => x < 16,
        Instruction::Skneb(x, _nn) => x < 16,
        Instruction::Ske(x, y) => x < 16 && y < 16,
        Instruction::Skne(x, y) => x < 16 && y < 16,
        Instruction::Ldb(x, _nn) => x < 16,
        Instruction::Addb(x, _nn) => x < 16,
        Instruction::Ld(x, y) => x < 16 && y < 16,
        Instruction::Or(x, y) => x < 16 && y < 16,
        Instruction::And(x, y) => x < 16 && y < 16,
        Instruction::Xor(x, y) => x < 16 && y < 16,
        Instruction::Add(x, y) => x < 16 && y < 16,
        Instruction::Sub(x, y) => x < 16 && y < 16,
        Instruction::Subr(x, y) => x < 16 && y < 16,
        Instruction::Shr(x, y) => x < 16 && y < 16,
        Instruction::Shl(x, y) => x < 16 && y < 16,
        Instruction::Ldi(nnn) => nnn < 4096,
        Instruction::Jmpz(nnn) => nnn < 4096,
        Instruction::Rnd(x, _nn) => x < 16,
        Instruction::Draw(x, y, n) => x < 16 && y < 16 && n < 16,
        Instruction::Skp(x) => x < 16,
        Instruction::Sknp(x) => x < 16,
        Instruction::Ldft(x) => x < 16,
        Instruction::Ldkp(x) => x < 16,
        Instruction::Ldtt(x) => x < 16,
        Instruction::Ldst(x) => x < 16,
        Instruction::Addi(x) => x < 16,
        Instruction::Font(x) => x < 16,
        Instruction::Bcd(x) => x < 16,
        Instruction::Sreg(x) => x < 16,
        Instruction::Lreg(x) => x < 16,
        Instruction::Unknown(_w) => true,
    }
}

/// Decoding only ever yields nibble- or 12-bit-sized operand fields.
pub proof fn lemma_decode_wf(w: u16)
    ensures
        instr_wf(decode_spec(w)),
{
    assert(((w & 0x0F00) >> 8) < 16 && ((w & 0x00F0) >> 4) < 16 && (w & 0x000F) < 16 && (w
        & 0x0FFF) < 4096) by (bit_vector);
}

// ---------------------------------------------------------------------------
// Small helpers of the transition
// ---------------------------------------------------------------------------

/// The state with one register replaced.
pub open spec fn upd_reg(s: State, x: int, v: u8) -> State {
    State { registers: s.registers.update(x, v), ..s }
}

/// The state with the program counter moved past the following instruction.
pub open spec fn skip_next(s: State) -> State {
    State { pc: (s.pc + 2) as u16, ..s }
}

/// The program counter at which the current instruction was fetched: the
/// transition advances the counter by two before interpreting the
/// instruction, so errors are attributed two bytes back.
pub open spec fn fetched_at(s: State) -> u16 {
    (s.pc - 2) as u16
}

/// Byte addition with eight-bit wraparound.
pub open spec fn add_wrap(a: u8, b: u8) -> u8 {
    if a + b < 256 {
        (a + b) as u8
    } else {
        (a + b - 256) as u8
    }
}

/// Byte subtraction with eight-bit wraparound.
pub open spec fn sub_wrap(a: u8, b: u8) -> u8 {
    if a >= b {
        (a - b) as u8
    } else {
        (a - b + 256) as u8
    }
}

/// Sixteen-bit addition with wraparound.
pub open spec fn add_wrap16(a: u16, b: u16) -> u16 {
    if a + b < 0x10000 {
        (a + b) as u16
    } else {
        (a + b - 0x10000) as u16
    }
}

/// The smallest pressed key index, or 16 when no key is pressed, scanning
/// upward from `k`.
pub open spec fn first_key_from(kb: Seq<bool>, k: int) -> int
    decreases 16 - k,
{
    if k < 0 || k >= 16 {
        16
    } else if kb[k] {
        k
    } else {
        first_key_from(kb, k + 1)
    }
}

/// The smallest pressed key index, or 16 when no key is pressed.
pub open spec fn first_key(kb: Seq<bool>) -> int {
    first_key_from(kb, 0)
}

/// A scan that saw only released keys below `k`, and a pressed key (or the
/// end of the keyboard) at `k`, has found the first pressed key.
pub proof fn lemma_first_key_at(kb: Seq<bool>, j: int, k: int)
    requires
        0 <= j <= k <= 16,
        forall|m: int| j <= m < k ==> !kb[m],
        k == 16 || kb[k],
    ensures
        first_key_from(kb, j) == k,
    decreases k - j,
{
    if j < k {
        lemma_first_key_at(kb, j + 1, k);
    }
}

/// Memory with registers `V0..=VX` stored at consecutive addresses from
/// `base`.
pub open spec fn store_block(mem: Seq<u8>, base: int, regs: Seq<u8>, x: int) -> Seq<u8> {
    Seq::new(mem.len(), |a: int| if base <= a <= base + x {
        regs[a - base]
    } else {
        mem[a]
    })
}

/// The register file with `V0..=VX` loaded from consecutive memory cells at
/// `base`.
pub open spec fn load_block(regs: Seq<u8>, mem: Seq<u8>, base: int, x: int) -> Seq<u8> {
    Seq::new(regs.len(), |r: int| if r <= x {
        mem[base + r]
    } else {
        regs[r]
    })
}

/// Memory with the decimal digits of `v` stored at `base`, `base + 1` and
/// `base + 2` (hundreds, tens, ones).
pub open spec fn bcd_block(mem: Seq<u8>, base: int, v: u8) -> Seq<u8> {
    mem.update(base, v / 100).update(base + 1, (v / 10) % 10).update(base + 2, v % 10)
}

// ---------------------------------------------------------------------------
// Sprite drawing
// ---------------------------------------------------------------------------

/// Bit `dx` (left to right) of one sprite row byte.
pub open spec fn sprite_bit(row: u8, dx: int) -> bool {
    (row >> ((7 - dx) as u8)) & 1 == 1
}

/// The column offset within a sprite that covers display column `x` when the
/// sprite starts at column `px`: with clipping the plain difference, without
/// it the difference wrapped around the display width.
pub open spec fn offset_x(px: int, clip: bool, x: int) -> int {
    if clip || x >= px {
        x - px
    } else {
        x - px + 64
    }
}

/// The row offset within a sprite that covers display row `y` when the
/// sprite starts at row `py`; as [`offset_x`], wrapped around the display
/// height unless clipping.
pub open spec fn offset_y(py: int, clip: bool, y: int) -> int {
    if clip || y >= py {
        y - py
    } else {
        y - py + 32
    }
}

/// Whether the sprite of `n` rows at memory address `i`, drawn at
/// `(px, py)`, puts a set pixel on display cell `(x, y)`.
pub open spec fn draw_hit(
    mem: Seq<u8>,
    i: int,
    px: int,
    py: int,
    n: int,
    clip: bool,
    x: int,
    y: int,
) -> bool {
    let dx = offset_x(px, clip, x);
    let dy = offset_y(py, clip, y);
    &&& 0 <= dx < 8
    &&& 0 <= dy < n
    &&& sprite_bit(mem[i + dy], dx)
}

/// The display after XOR-blitting the sprite: every covered cell flips.
pub open spec fn draw_display(
    d: Seq<bool>,
    mem: Seq<u8>,
    i: int,
    px: int,
    py: int,
    n: int,
    clip: bool,
) -> Seq<bool> {
    Seq::new(d.len(), |c: int| if draw_hit(mem, i, px, py, n, clip, c % 64, c / 64) {
        !d[c]
    } else {
        d[c]
    })
}

/// Whether the blit turns any lit cell off (a collision).
pub open spec fn draw_collision(
    d: Seq<bool>,
    mem: Seq<u8>,
    i: int,
    px: int,
    py: int,
    n: int,
    clip: bool,
) -> bool {
    exists|x: int, y: int|
        0 <= x < 64 && 0 <= y < 32 && draw_hit(mem, i, px, py, n, clip, x, y) && d[y * 64 + x]
}

/// Whether the blit touches any cell at all (marks the display dirty).
pub open spec fn draw_touches(mem: Seq<u8>, i: int, px: int, py: int, n: int, clip: bool) -> bool {
    exists|x: int, y: int| 0 <= x < 64 && 0 <= y < 32 && draw_hit(mem, i, px, py, n, clip, x, y)
}

/// Like [`draw_hit`], but counting only the sprite cells already processed
/// by a row-by-row, column-by-column blit: every full row before `rows`,
/// and the first `cols` columns of row `rows`.
pub open spec fn hit_upto(
    mem: Seq<u8>,
    i: int,
    px: int,
    py: int,
    n: int,
    clip: bool,
    x: int,
    y: int,
    rows: int,
    cols: int,
) -> bool {
    let dx = offset_x(px, clip, x);
    let dy = offset_y(py, clip, y);
    &&& 0 <= dx < 8
    &&& 0 <= dy < n
    &&& (dy < rows || (dy == rows && dx < cols))
    &&& sprite_bit(mem[i + dy], dx)
}

/// [`draw_collision`] restricted to the sprite cells already processed.
pub open spec fn collision_upto(
    d: Seq<bool>,
    mem: Seq<u8>,
    i: int,
    px: int,
    py: int,
    n: int,
    clip: bool,
    rows: int,
    cols: int,
) -> bool {
    exists|x: int, y: int|
        0 <= x < 64 && 0 <= y < 32 && hit_upto(mem, i, px, py, n, clip, x, y, rows, cols) && d[y
            * 64 + x]
}

/// [`draw_touches`] restricted to the sprite cells already processed.
pub open spec fn touch_upto(
    mem: Seq<u8>,
    i: int,
    px: int,
    py: int,
    n: int,
    clip: bool,
    rows: int,
    cols: int,
) -> bool {
    exists|x: int, y: int|
        0 <= x < 64 && 0 <= y < 32 && hit_upto(mem, i, px, py, n, clip, x, y, rows, cols)
}

/// The display column on which sprite column `dx` lands.
pub open spec fn pair_target_x(px: int, clip: bool, dx: int) -> int {
    if !clip && px + dx >= 64 {
        px + dx - 64
    } else {
        px + dx
    }
}

/// The display row on which sprite row `dy` lands.
pub open spec fn pair_target_y(py: int, clip: bool, dy: int) -> int {
    if !clip && py + dy >= 32 {
        py + dy - 32
    } else {
        py + dy
    }
}

/// Whether sprite cell `(dx, dy)` lands on the display at all: always when
/// wrapping, only within bounds when clipping.
pub open spec fn pair_on(px: int, py: int, clip: bool, dx: int, dy: int) -> bool {
    !clip || (px + dx < 64 && py + dy < 32)
}

/// Before any sprite cell is processed, nothing is hit.
pub proof fn lemma_blit_empty(
    d: Seq<bool>,
    mem: Seq<u8>,
    i: int,
    px: int,
    py: int,
    n: int,
    clip: bool,
)
    ensures
        forall|x: int, y: int| !hit_upto(mem, i, px, py, n, clip, x, y, 0, 0),
        !collision_upto(d, mem, i, px, py, n, clip, 0, 0),
        !touch_upto(mem, i, px, py, n, clip, 0, 0),
{
    assert forall|x: int, y: int| !hit_upto(mem, i, px, py, n, clip, x, y, 0, 0) by {}
    if collision_upto(d, mem, i, px, py, n, clip, 0, 0) {
        let (wx, wy): (int, int) = choose|wx: int, wy: int|
            0 <= wx < 64 && 0 <= wy < 32 && #[trigger] hit_upto(mem, i, px, py, n, clip, wx, wy, 0, 0)
                && d[wy * 64 + wx];
        assert(false);
    }
    if touch_upto(mem, i, px, py, n, clip, 0, 0) {
        let (wx, wy): (int, int) = choose|wx: int, wy: int|
            0 <= wx < 64 && 0 <= wy < 32 && #[trigger] hit_upto(mem, i, px, py, n, clip, wx, wy, 0, 0);
        assert(false);
    }
}

/// Processing one more sprite cell extends the hit set by at most the one
/// display cell that sprite cell lands on.
pub proof fn lemma_blit_step(
    d: Seq<bool>,
    mem: Seq<u8>,
    i: int,
    px: int,
    py: int,
    n: int,
    clip: bool,
    dy: int,
    dx: int,
)
    requires
        0 <= px < 64,
        0 <= py < 32,
        0 <= dx < 8,
        0 <= dy < n,
        n <= 16,
    ensures
        forall|x: int, y: int|
            0 <= x < 64 && 0 <= y < 32 ==> hit_upto(mem, i, px, py, n, clip, x, y, dy, dx + 1) == (
            hit_upto(mem, i, px, py, n, clip, x, y, dy, dx) || (pair_on(px, py, clip, dx, dy)
                && sprite_bit(mem[i + dy], dx) && x == pair_target_x(px, clip, dx) && y
                == pair_target_y(py, clip, dy))),
        collision_upto(d, mem, i, px, py, n, clip, dy, dx + 1) == (collision_upto(
            d,
            mem,
            i,
            px,
            py,
            n,
            clip,
            dy,
            dx,
        ) || (pair_on(px, py, clip, dx, dy) && sprite_bit(mem[i + dy], dx) && d[pair_target_y(
            py,
            clip,
            dy,
        ) * 64 + pair_target_x(px, clip, dx)])),
        touch_upto(mem, i, px, py, n, clip, dy, dx + 1) == (touch_upto(
            mem,
            i,
            px,
            py,
            n,
            clip,
            dy,
            dx,
        ) || (pair_on(px, py, clip, dx, dy) && sprite_bit(mem[i + dy], dx))),
{
    let tx = pair_target_x(px, clip, dx);
    let ty = pair_target_y(py, clip, dy);
    assert forall|x: int, y: int| 0 <= x < 64 && 0 <= y < 32 implies hit_upto(
        mem,
        i,
        px,
        py,
        n,
        clip,
        x,
        y,
        dy,
        dx + 1,
    ) == (hit_upto(mem, i, px, py, n, clip, x, y, dy, dx) || (pair_on(px, py, clip, dx, dy)
        && sprite_bit(mem[i + dy], dx) && x == tx && y == ty)) by {}
    if collision_upto(d, mem, i, px, py, n, clip, dy, dx + 1) {
        let (wx, wy): (int, int) = choose|wx: int, wy: int|
            0 <= wx < 64 && 0 <= wy < 32 && #[trigger] hit_upto(mem, i, px, py, n, clip, wx, wy, dy, dx + 1)
                && d[wy * 64 + wx];
        if hit_upto(mem, i, px, py, n, clip, wx, wy, dy, dx) {
            assert(collision_upto(d, mem, i, px, py, n, clip, dy, dx));
        } else {
            assert(wx == tx && wy == ty);
        }
    }
    if collision_upto(d, mem, i, px, py, n, clip, dy, dx) {
        let (wx, wy): (int, int) = choose|wx: int, wy: int|
            0 <= wx < 64 && 0 <= wy < 32 && #[trigger] hit_upto(mem, i, px, py, n, clip, wx, wy, dy, dx)
                && d[wy * 64 + wx];
        assert(hit_upto(mem, i, px, py, n, clip, wx, wy, dy, dx + 1));
        assert(collision_upto(d, mem, i, px, py, n, clip, dy, dx + 1));
    }
    if pair_on(px, py, clip, dx, dy) && sprite_bit(mem[i + dy], dx) && d[ty * 64 + tx] {
        assert(hit_upto(mem, i, px, py, n, clip, tx, ty, dy, dx + 1));
        assert(collision_upto(d, mem, i, px, py, n, clip, dy, dx + 1));
    }
    if touch_upto(mem, i, px, py, n, clip, dy, dx + 1) {
        let (wx, wy): (int, int) = choose|wx: int, wy: int|
            0 <= wx < 64 && 0 <= wy < 32 && #[trigger] hit_upto(mem, i, px, py, n, clip, wx, wy, dy, dx + 1);
        if hit_upto(mem, i, px, py, n, clip, wx, wy, dy, dx) {
            assert(touch_upto(mem, i, px, py, n, clip, dy, dx));
        } else {
            assert(wx == tx && wy == ty);
        }
    }
    if touch_upto(mem, i, px, py, n, clip, dy, dx) {
        let (wx, wy): (int, int) = choose|wx: int, wy: int|
            0 <= wx < 64 && 0 <= wy < 32 && #[trigger] hit_upto(mem, i, px, py, n, clip, wx, wy, dy, dx);
        assert(hit_upto(mem, i, px, py, n, clip, wx, wy, dy, dx + 1));
        assert(touch_upto(mem, i, px, py, n, clip, dy, dx + 1));
    }
    if pair_on(px, py, clip, dx, dy) && sprite_bit(mem[i + dy], dx) {
        assert(hit_upto(mem, i, px, py, n, clip, tx, ty, dy, dx + 1));
        assert(touch_upto(mem, i, px, py, n, clip, dy, dx + 1));
    }
}

/// Finishing a row is the same as standing at the start of the next row.
pub proof fn lemma_blit_row(
    d: Seq<bool>,
    mem: Seq<u8>,
    i: int,
    px: int,
    py: int,
    n: int,
    clip: bool,
    dy: int,
)
    ensures
        forall|x: int, y: int|
            hit_upto(mem, i, px, py, n, clip, x, y, dy + 1, 0) == hit_upto(
                mem,
                i,
                px,
                py,
                n,
                clip,
                x,
                y,
                dy,
                8,
            ),
        collision_upto(d, mem, i, px, py, n, clip, dy + 1, 0) == collision_upto(
            d,
            mem,
            i,
            px,
            py,
            n,
            clip,
            dy,
            8,
        ),
        touch_upto(mem, i, px, py, n, clip, dy + 1, 0) == touch_upto(
            mem,
            i,
            px,
            py,
            n,
            clip,
            dy,
            8,
        ),
{
    assert forall|x: int, y: int|
        hit_upto(mem, i, px, py, n, clip, x, y, dy + 1, 0) == hit_upto(
            mem,
            i,
            px,
            py,
            n,
            clip,
            x,
            y,
            dy,
            8,
        ) by {}
    if collision_upto(d, mem, i, px, py, n, clip, dy + 1, 0) {
        let (wx, wy): (int, int) = choose|wx: int, wy: int|
            0 <= wx < 64 && 0 <= wy < 32 && #[trigger] hit_upto(mem, i, px, py, n, clip, wx, wy, dy + 1, 0)
                && d[wy * 64 + wx];
        assert(hit_upto(mem, i, px, py, n, clip, wx, wy, dy, 8));
        assert(collision_upto(d, mem, i, px, py, n, clip, dy, 8));
    }
    if collision_upto(d, mem, i, px, py, n, clip, dy, 8) {
        let (wx, wy): (int, int) = choose|wx: int, wy: int|
            0 <= wx < 64 && 0 <= wy < 32 && #[trigger] hit_upto(mem, i, px, py, n, clip, wx, wy, dy, 8)
                && d[wy * 64 + wx];
        assert(hit_upto(mem, i, px, py, n, clip, wx, wy, dy + 1, 0));
        assert(collision_upto(d, mem, i, px, py, n, clip, dy + 1, 0));
    }
    if touch_upto(mem, i, px, py, n, clip, dy + 1, 0) {
        let (wx, wy): (int, int) = choose|wx: int, wy: int|
            0 <= wx < 64 && 0 <= wy < 32 && #[trigger] hit_upto(mem, i, px, py, n, clip, wx, wy, dy + 1, 0);
        assert(hit_upto(mem, i, px, py, n, clip, wx, wy, dy, 8));
        assert(touch_upto(mem, i, px, py, n, clip, dy, 8));
    }
    if touch_upto(mem, i, px, py, n, clip, dy, 8) {
        let (wx, wy): (int, int) = choose|wx: int, wy: int|
            0 <= wx < 64 && 0 <= wy < 32 && #[trigger] hit_upto(mem, i, px, py, n, clip, wx, wy, dy, 8);
        assert(hit_upto(mem, i, px, py, n, clip, wx, wy, dy + 1, 0));
        assert(touch_upto(mem, i, px, py, n, clip, dy + 1, 0));
    }
}

/// After the last row, the processed hit set is the whole sprite.
pub proof fn lemma_blit_complete(
    d: Seq<bool>,
    mem: Seq<u8>,
    i: int,
    px: int,
    py: int,
    n: int,
    clip: bool,
)
    ensures
        forall|x: int, y: int|
            hit_upto(mem, i, px, py, n, clip, x, y, n, 0) == draw_hit(
                mem,
                i,
                px,
                py,
                n,
                clip,
                x,
                y,
            ),
        collision_upto(d, mem, i, px, py, n, clip, n, 0) == draw_collision(
            d,
            mem,
            i,
            px,
            py,
            n,
            clip,
        ),
        touch_upto(mem, i, px, py, n, clip, n, 0) == draw_touches(mem, i, px, py, n, clip),
{
    assert forall|x: int, y: int|
        hit_upto(mem, i, px, py, n, clip, x, y, n, 0) == draw_hit(
            mem,
            i,
            px,
            py,
            n,
            clip,
            x,
            y,
        ) by {}
    if collision_upto(d, mem, i, px, py, n, clip, n, 0) {
        let (wx, wy): (int, int) = choose|wx: int, wy: int|
            0 <= wx < 64 && 0 <= wy < 32 && #[trigger] hit_upto(mem, i, px, py, n, clip, wx, wy, n, 0)
                && d[wy * 64 + wx];
        assert(draw_hit(mem, i, px, py, n, clip, wx, wy));
        assert(draw_collision(d, mem, i, px, py, n, clip));
    }
    if draw_collision(d, mem, i, px, py, n, clip) {
        let (wx, wy): (int, int) = choose|wx: int, wy: int|
            0 <= wx < 64 && 0 <= wy < 32 && #[trigger] draw_hit(mem, i, px, py, n, clip, wx, wy) && d[wy * 64
                + wx];
        assert(hit_upto(mem, i, px, py, n, clip, wx, wy, n, 0));
        assert(collision_upto(d, mem, i, px, py, n, clip, n, 0));
    }
    if touch_upto(mem, i, px, py, n, clip, n, 0) {
        let (wx, wy): (int, int) = choose|wx: int, wy: int|
            0 <= wx < 64 && 0 <= wy < 32 && #[trigger] hit_upto(mem, i, px, py, n, clip, wx, wy, n, 0);
        assert(draw_hit(mem, i, px, py, n, clip, wx, wy));
        assert(draw_touches(mem, i, px, py, n, clip));
    }
    if draw_touches(mem, i, px, py, n, clip) {
        let (wx, wy): (int, int) = choose|wx: int, wy: int|
            0 <= wx < 64 && 0 <= wy < 32 && #[trigger] draw_hit(mem, i, px, py, n, clip, wx, wy);
        assert(hit_upto(mem, i, px, py, n, clip, wx, wy, n, 0));
        assert(touch_upto(mem, i, px, py, n, clip, n, 0));
    }
}

/// Row-major coordinates round-trip through the flat cell index.
pub proof fn lemma_cell_coords(tx: int, ty: int)
    requires
        0 <= tx < 64,
        0 <= ty < 32,
    ensures
        (ty * 64 + tx) % 64 == tx,
        (ty * 64 + tx) / 64 == ty,
        0 <= ty * 64 + tx < 2048,
{
    vstd::arithmetic::div_mod::lemma_fundamental_div_mod_converse(ty * 64 + tx, 64, ty, tx);
}

/// A flat cell index is its coordinates recombined.
pub proof fn lemma_cell_split(c: int)
    requires
        0 <= c < 2048,
    ensures
        c == (c / 64) * 64 + (c % 64),
        0 <= c % 64 < 64,
        0 <= c / 64 < 32,
{
    vstd::arithmetic::div_mod::lemma_fundamental_div_mod(c, 64);
    vstd::arithmetic::div_mod::lemma_mod_bound(c, 64);
    vstd::arithmetic::div_mod::lemma_div_pos_is_pos(c, 64);
    if c / 64 >= 32 {
        vstd::arithmetic::mul::lemma_mul_inequality(32, c / 64, 64);
    }
}

/// The low nibble of a byte is below 16.
pub proof fn lemma_low_nibble(b: u8)
    ensures
        b & 0xF < 16,
        (b & 0xF) * 5 <= 75,
{
    assert(b & 0xF < 16) by (bit_vector);
}

/// The whole machine state after a draw instruction: the display is
/// XOR-blitted, VF records the collision, and the dirty flag is raised if
/// any cell was touched.
pub open spec fn draw_state(s: State, x: int, y: int, n: int) -> State {
    let px = s.registers[x] as int % 64;
    let py = s.registers[y] as int % 32;
    let i = s.i as int;
    let clip = s.quirks.clipping;
    State {
        display: draw_display(s.display, s.memory, i, px, py, n, clip),
        registers: s.registers.update(
            15,
            if draw_collision(s.display, s.memory, i, px, py, n, clip) {
                1u8
            } else {
                0u8
            },
        ),
        display_update: s.display_update || draw_touches(s.memory, i, px, py, n, clip),
        ..s
    }
}

// ---------------------------------------------------------------------------
// Execution
// ---------------------------------------------------------------------------

/// The state transition of one decoded instruction. `s` is the state with
/// the program counter already advanced past the instruction; `rnd` is the
/// externally drawn random byte, consulted only by [`Instruction::Rnd`]. A
/// fatal condition yields an error and no new state.
pub open spec fn exec_spec(s: State, instr: Instruction, rnd: u8) -> Result<State, Chip8Error> {
    match instr {
        Instruction::Sys(_nnn) => Ok(s),
        Instruction::Cls => Ok(
            State { display: Seq::new(2048, |c: int| false), display_update: true, ..s },
        ),
        Instruction::Ret => {
            if s.sp == 0 {
                Err(Chip8Error::StackUnderflow { pc: fetched_at(s) })
            } else {
                Ok(State { sp: (s.sp - 1) as usize, pc: s.stack[s.sp - 1], ..s })
            }
        },
        Instruction::Call(nnn) => {
            if s.sp >= 16 {
                Err(Chip8Error::StackOverflow { pc: fetched_at(s) })
            } else {
                Ok(
                    State {
                        stack: s.stack.update(s.sp as int, s.pc),
                        sp: (s.sp + 1) as usize,
                        pc: nnn as u16,
                        ..s
                    },
                )
            }
        },
        Instruction::Jmp(nnn) => Ok(State { pc: nnn as u16, ..s }),
        Instruction::Skeb(x, nn) => Ok(
            if s.registers[x as int] == nn {
                skip_next(s)
            } else {
                s
            },
        ),
        Instruction::Skneb(x, nn) => Ok(
            if s.registers[x as int] != nn {
                skip_next(s)
            } else {
                s
            },
        ),
        Instruction::Ske(x, y) => Ok(
            if s.registers[x as int] == s.registers[y as int] {
                skip_next(s)
            } else {
                s
            },
        ),
        Instruction::Skne(x, y) => Ok(
            if s.registers[x as int] != s.registers[y as int] {
                skip_next(s)
            } else {
                s
            },
        ),
        Instruction::Ldb(x, nn) => Ok(upd_reg(s, x as int, nn)),
        Instruction::Addb(x, nn) => Ok(upd_reg(s, x as int, add_wrap(s.registers[x as int], nn))),
        Instruction::Ld(x, y) => Ok(upd_reg(s, x as int, s.registers[y as int])),
        Instruction::Or(x, y) => {
            let s2 = upd_reg(s, x as int, s.registers[x as int] | s.registers[y as int]);
            Ok(
                if s.quirks.vf_reset {
                    upd_reg(s2, 15, 0)
                } else {
                    s2
                },
            )
        },
        Instruction::And(x, y) => {
            let s2 = upd_reg(s, x as int, s.registers[x as int] & s.registers[y as int]);
            Ok(
                if s.quirks.vf_reset {
                    upd_reg(s2, 15, 0)
                } else {
                    s2
                },
            )
        },
        Instruction::Xor(x, y) => {
            let s2 = upd_reg(s, x as int, s.registers[x as int] ^ s.registers[y as int]);
            Ok(
                if s.quirks.vf_reset {
                    upd_reg(s2, 15, 0)
                } else {
                    s2
                },
            )
        },
        Instruction::Add(x, y) => {
            let a = s.registers[x as int];
            let b = s.registers[y as int];
            let flag: u8 = if a + b >= 256 {
                1
            } else {
                0
            };
            Ok(upd_reg(upd_reg(s, x as int, add_wrap(a, b)), 15, flag))
        },
        Instruction::Sub(x, y) => {
            let a = s.registers[x as int];
            let b = s.registers[y as int];
            let flag: u8 = if a >= b {
                1
            } else {
                0
            };
            Ok(upd_reg(upd_reg(s, x as int, sub_wrap(a, b)), 15, flag))
        },
        Instruction::Subr(x, y) => {
            let a = s.registers[x as int];
            let b = s.registers[y as int];
            let flag: u8 = if b >= a {
                1
            } else {
                0
            };
            Ok(upd_reg(upd_reg(s, x as int, sub_wrap(b, a)), 15, flag))
        },
        Instruction::Shr(x, y) => {
            let v = if s.quirks.shifting {
                s.registers[y as int]
            } else {
                s.registers[x as int]
            };
            Ok(upd_reg(upd_reg(s, x as int, v >> 1u8), 15, v & 1))
        },
        Instruction::Shl(x, y) => {
            let v = if s.quirks.shifting {
                s.registers[y as int]
            } else {
                s.registers[x as int]
            };
            Ok(upd_reg(upd_reg(s, x as int, v << 1u8), 15, (v >> 7u8) & 1))
        },
        Instruction::Ldi(nnn) => Ok(State { i: nnn as u16, ..s }),
        Instruction::Jmpz(nnn) => {
            let sel: int = if s.quirks.jumping {
                (nnn as int / 256) % 16
            } else {
                0
            };
            Ok(State { pc: (nnn + s.registers[sel]) as u16, ..s })
        },
        Instruction::Rnd(x, nn) => Ok(upd_reg(s, x as int, rnd & nn)),
        Instruction::Draw(x, y, n) => {
            if s.i + n > 4096 {
                Err(Chip8Error::MemoryOutOfBounds { pc: fetched_at(s) })
            } else {
                Ok(draw_state(s, x as int, y as int, n as int))
            }
        },
        Instruction::Skp(x) => Ok(
            if s.keyboard[(s.registers[x as int] & 0xF) as int] {
                skip_next(s)
            } else {
                s
            },
        ),
        Instruction::Sknp(x) => Ok(
            if !s.keyboard[(s.registers[x as int] & 0xF) as int] {
                skip_next(s)
            } else {
                s
            },
        ),
        Instruction::Ldft(x) => Ok(upd_reg(s, x as int, s.dt)),
        Instruction::Ldkp(x) => {
            let k = first_key(s.keyboard);
            if k == 16 {
                Ok(State { pc: fetched_at(s), ..s })
            } else {
                Ok(
                    State {
                        registers: s.registers.update(x as int, k as u8),
                        keyboard: s.keyboard.update(k, false),
                        ..s
                    },
                )
            }
        },
        Instruction::Ldtt(x) => Ok(State { dt: s.registers[x as int], ..s }),
        Instruction::Ldst(x) => Ok(State { st: s.registers[x as int], ..s }),
        Instruction::Addi(x) => Ok(State { i: add_wrap16(s.i, s.registers[x as int] as u16), ..s }),
        Instruction::Font(x) => Ok(State { i: ((s.registers[x as int] & 0xF) * 5) as u16, ..s }),
        Instruction::Bcd(x) => {
            if s.i + 3 > 4096 {
                Err(Chip8Error::MemoryOutOfBounds { pc: fetched_at(s) })
            } else {
                Ok(State { memory: bcd_block(s.memory, s.i as int, s.registers[x as int]), ..s })
            }
        },
        Instruction::Sreg(x) => {
            if s.i + x + 1 > 4096 {
                Err(Chip8Error::MemoryOutOfBounds { pc: fetched_at(s) })
            } else {
                let s2 = State { memory: store_block(s.memory, s.i as int, s.registers, x as int), ..s };
                Ok(
                    if s.quirks.memory {
                        State { i: (s.i + x + 1) as u16, ..s2 }
                    } else {
                        s2
                    },
                )
            }
        },
        Instruction::Lreg(x) => {
            if s.i + x + 1 > 4096 {
                Err(Chip8Error::MemoryOutOfBounds { pc: fetched_at(s) })
            } else {
                let s2 = State {
                    registers: load_block(s.registers, s.memory, s.i as int, x as int),
                    ..s
                };
                Ok(
                    if s.quirks.memory {
                        State { i: (s.i + x + 1) as u16, ..s2 }
                    } else {
                        s2
                    },
                )
            }
        },
        Instruction::Unknown(w) => Err(
            Chip8Error::Unimplemented { word: w, pc: fetched_at(s) },
        ),
    }
}

/// The 16-bit big-endian instruction word at the program counter.
pub open spec fn fetch_word(s: State) -> u16 {
    ((s.memory[s.pc as int] as u16) << 8u16) | (s.memory[s.pc as int + 1] as u16)
}

/// The state with the program counter advanced past the fetched instruction:
/// the baseline of every step, applied before the instruction is
/// interpreted.
pub open spec fn advance(s: State) -> State {
    State { pc: (s.pc + 2) as u16, ..s }
}

/// One whole fetch-decode-execute step.
pub open spec fn step_spec(s: State, rnd: u8) -> Result<State, Chip8Error> {
    if s.pc + 2 > 4096 {
        Err(Chip8Error::PcOutOfBounds { pc: s.pc })
    } else {
        exec_spec(advance(s), decode_spec(fetch_word(s)), rnd)
    }
}

// ---------------------------------------------------------------------------
// Construction
// ---------------------------------------------------------------------------

/// The built-in font: sixteen glyphs of five rows each, one per hexadecimal
/// digit, preloaded at address zero.
pub open spec fn font_seq() -> Seq<u8> {
    seq![
        0xF0, 0x90, 0x90, 0x90, 0xF0,  // 0
        0x20, 0x60, 0x20, 0x20, 0x70,  // 1
        0xF0, 0x10, 0xF0, 0x80, 0xF0,  // 2
        0xF0, 0x10, 0xF0, 0x10, 0xF0,  // 3
        0x90, 0x90, 0xF0, 0x10, 0x10,  // 4
        0xF0, 0x80, 0xF0, 0x10, 0xF0,  // 5
        0xF0, 0x80, 0xF0, 0x90, 0xF0,  // 6
        0xF0, 0x10, 0x20, 0x40, 0x40,  // 7
        0xF0, 0x90, 0xF0, 0x90, 0xF0,  // 8
        0xF0, 0x90, 0xF0, 0x10, 0xF0,  // 9
        0xF0, 0x90, 0xF0, 0x90, 0x90,  // A
        0xE0, 0x90, 0xE0, 0x90, 0xE0,  // B
        0xF0, 0x80, 0x80, 0x80, 0xF0,  // C
        0xE0, 0x90, 0x90, 0x90, 0xE0,  // D
        0xF0, 0x80, 0xF0, 0x80, 0xF0,  // E
        0xF0, 0x80, 0xF0, 0x80, 0x80,  // F
    ]
}

/// Memory at construction: the font at address zero, the program image at
/// the program start, and zeroes everywhere else.
pub open spec fn init_memory(program: Seq<u8>) -> Seq<u8> {
    Seq::new(4096, |a: int| if 0 <= a < 80 {
        font_seq()[a]
    } else if 512 <= a < 512 + program.len() {
        program[a - 512]
    } else {
        0u8
    })
}

/// The machine state at construction: memory preloaded, everything else
/// zeroed or false, and the program counter at the program start.
pub open spec fn init_state(program: Seq<u8>, quirks: Quirks) -> State {
    State {
        memory: init_memory(program),
        registers: Seq::new(16, |r: int| 0u8),
        dt: 0,
        st: 0,
        i: 0,
        pc: 512,
        sp: 0,
        stack: Seq::new(16, |k: int| 0u16),
        display: Seq::new(2048, |c: int| false),
        display_update: false,
        keyboard: Seq::new(16, |k: int| false),
        quirks,
    }
}

} // verus!
