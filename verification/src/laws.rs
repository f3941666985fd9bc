//! The laws of the instruction set, stated over the model transition and
//! proved once and for all: arithmetic flag conventions, the clear and draw
//! behaviour of the display, call/return pairing, the indexed jump quirk,
//! and the block-for-key busy wait.

use vstd::prelude::*;

use crate::chip8::Chip8Error;
use crate::chip8::Instruction;
use crate::chip8::Quirks;
use crate::model::advance;
use crate::model::decode_spec;
use crate::model::draw_collision;
use crate::model::draw_display;
use crate::model::exec_spec;
use crate::model::fetch_word;
use crate::model::fetched_at;
use crate::model::lemma_first_key_at;
use crate::model::step_spec;
use crate::model::State;

verus! {

/// `ADD VX,VY` with VX = a and VY = b sets VX to `(a + b) % 256` and sets
/// VF to 1 exactly when `a + b >= 256`. (When VX is VF itself, the carry
/// flag overwrites the sum, so VF is excluded as destination here.)
pub proof fn lemma_add_sum_and_carry(s: State, x: usize, y: usize, rnd: u8)
    requires
        s.wf(),
        x < 16,
        y < 16,
        x != 15,
    ensures
        exec_spec(s, Instruction::Add(x, y), rnd) matches Ok(t) && {
            let a = s.registers[x as int];
            let b = s.registers[y as int];
            &&& t.registers[x as int] == (a + b) % 256
            &&& (t.registers[15] == 1 <==> a + b >= 256)
            &&& (t.registers[15] == 0 <==> a + b < 256)
        },
{
    let a = s.registers[x as int];
    let b = s.registers[y as int];
    assert((a + b) % 256 == if a + b < 256 {
        a + b
    } else {
        a + b - 256
    }) by {
        if a + b < 256 {
            vstd::arithmetic::div_mod::lemma_small_mod((a + b) as nat, 256);
        } else {
            vstd::arithmetic::div_mod::lemma_mod_sub_multiples_vanish(a + b - 256, 256);
            vstd::arithmetic::div_mod::lemma_small_mod((a + b - 256) as nat, 256);
        }
    }
}

/// `SUB VX,VY` with VX = a and VY = b sets VX to `(a - b) % 256` and sets
/// VF to 1 exactly when `a >= b`: the not-borrow convention. (VF itself is
/// excluded as destination, as its flag write comes last.)
pub proof fn lemma_sub_difference_and_not_borrow(s: State, x: usize, y: usize, rnd: u8)
    requires
        s.wf(),
        x < 16,
        y < 16,
        x != 15,
    ensures
        exec_spec(s, Instruction::Sub(x, y), rnd) matches Ok(t) && {
            let a = s.registers[x as int];
            let b = s.registers[y as int];
            &&& t.registers[x as int] == (a - b + 256) % 256
            &&& (t.registers[15] == 1 <==> a >= b)
        },
{
    let a = s.registers[x as int];
    let b = s.registers[y as int];
    assert((a - b + 256) % 256 == if a >= b {
        a - b
    } else {
        a - b + 256
    }) by {
        if a >= b {
            vstd::arithmetic::div_mod::lemma_mod_sub_multiples_vanish(a - b, 256);
            vstd::arithmetic::div_mod::lemma_small_mod((a - b) as nat, 256);
        } else {
            vstd::arithmetic::div_mod::lemma_small_mod((a - b + 256) as nat, 256);
        }
    }
}

/// Clearing the display always yields the all-false grid, whatever was
/// drawn before: so clear, any sequence of draws, then clear again returns
/// the grid to all-false.
pub proof fn lemma_cls_clears_display(s: State, rnd: u8)
    requires
        s.wf(),
    ensures
        exec_spec(s, Instruction::Cls, rnd) matches Ok(t) && {
            &&& t.display.len() == 2048
            &&& forall|c: int| 0 <= c < 2048 ==> !t.display[c]
            &&& t.display_update
        },
{
}

/// Drawing the same sprite at the same location twice restores every
/// display cell to its value before the first draw, and the second draw's
/// collision flag reflects collisions against the first draw's result.
/// (VF is excluded as coordinate source: the collision flag write would
/// move the sprite between the two draws.)
pub proof fn lemma_draw_twice_restores(s: State, x: usize, y: usize, n: u8, rnd: u8)
    requires
        s.wf(),
        x < 16,
        y < 16,
        x != 15,
        y != 15,
        n < 16,
        s.i + n <= 4096,
    ensures
        exec_spec(s, Instruction::Draw(x, y, n), rnd) matches Ok(s1)
            && exec_spec(s1, Instruction::Draw(x, y, n), rnd) matches Ok(s2) && {
            &&& s2.display == s.display
            &&& (s2.registers[15] == 1 <==> draw_collision(
                s1.display,
                s.memory,
                s.i as int,
                s.registers[x as int] as int % 64,
                s.registers[y as int] as int % 32,
                n as int,
                s.quirks.clipping,
            ))
        },
{
    let px = s.registers[x as int] as int % 64;
    let py = s.registers[y as int] as int % 32;
    let i = s.i as int;
    let clip = s.quirks.clipping;
    let s1 = exec_spec(s, Instruction::Draw(x, y, n), rnd)->Ok_0;
    let s2 = exec_spec(s1, Instruction::Draw(x, y, n), rnd)->Ok_0;
    assert(s1.registers[x as int] == s.registers[x as int]);
    assert(s1.registers[y as int] == s.registers[y as int]);
    assert(s1.display == draw_display(s.display, s.memory, i, px, py, n as int, clip));
    assert(s2.display == draw_display(s1.display, s.memory, i, px, py, n as int, clip));
    assert forall|c: int| 0 <= c < 2048 implies s2.display[c] == s.display[c] by {}
    assert(s2.display =~= s.display);
}

/// A call pushes the return address and a return pops it: executing
/// `CALL nnn` and then `RET` (the instruction fetched at `nnn`) brings the
/// program counter back to the instruction following the call and restores
/// the stack depth, for every depth below the maximum.
pub proof fn lemma_call_then_ret(s: State, nnn: usize, rnd: u8)
    requires
        s.wf(),
        nnn < 4096,
        s.sp < 16,
    ensures
        exec_spec(s, Instruction::Call(nnn), rnd) matches Ok(s1) && {
            &&& s1.pc == nnn
            &&& s1.sp == s.sp + 1
            &&& exec_spec(advance(s1), Instruction::Ret, rnd) matches Ok(s2) && {
                &&& s2.pc == s.pc
                &&& s2.sp == s.sp
            }
        },
{
}

/// A call at the maximum stack depth is fatal, and leaves no next state.
pub proof fn lemma_call_overflow_fatal(s: State, nnn: usize, rnd: u8)
    requires
        s.wf(),
        s.sp == 16,
    ensures
        exec_spec(s, Instruction::Call(nnn), rnd) == Err::<State, Chip8Error>(
            Chip8Error::StackOverflow { pc: fetched_at(s) },
        ),
{
}

/// A return with an empty stack is fatal, and leaves no next state.
pub proof fn lemma_ret_underflow_fatal(s: State, rnd: u8)
    requires
        s.wf(),
        s.sp == 0,
    ensures
        exec_spec(s, Instruction::Ret, rnd) == Err::<State, Chip8Error>(
            Chip8Error::StackUnderflow { pc: fetched_at(s) },
        ),
{
}

/// The indexed jump adds V0 to the address when the jumping quirk is
/// disabled, and the register named by the address's high nibble when it is
/// enabled; whenever those registers differ, the same instruction lands on
/// different targets in the two modes.
pub proof fn lemma_indexed_jump_quirk(s: State, nnn: usize, rnd: u8)
    requires
        s.wf(),
        nnn < 4096,
    ensures
        ({
            let sel = (nnn as int / 256) % 16;
            let off = State { quirks: Quirks { jumping: false, ..s.quirks }, ..s };
            let on = State { quirks: Quirks { jumping: true, ..s.quirks }, ..s };
            &&& exec_spec(off, Instruction::Jmpz(nnn), rnd) matches Ok(t) && t.pc == nnn
                + s.registers[0]
            &&& exec_spec(on, Instruction::Jmpz(nnn), rnd) matches Ok(t) && t.pc == nnn
                + s.registers[sel]
            &&& s.registers[0] != s.registers[sel] ==> exec_spec(
                off,
                Instruction::Jmpz(nnn),
                rnd,
            )->Ok_0.pc != exec_spec(on, Instruction::Jmpz(nnn), rnd)->Ok_0.pc
        }),
{
    let sel = (nnn as int / 256) % 16;
    assert(0 <= sel < 16);
    assert(nnn + s.registers[0] < 0x10000);
    assert(nnn + s.registers[sel] < 0x10000);
}

/// With no key latched pressed, the block-for-key instruction rewinds the
/// program counter over itself: a whole step is the identity on the machine
/// state, so repeated steps never advance until a key appears.
pub proof fn lemma_wait_key_blocks(s: State, x: usize, rnd: u8)
    requires
        s.wf(),
        s.pc + 2 <= 4096,
        decode_spec(fetch_word(s)) == Instruction::Ldkp(x),
        forall|k: int| 0 <= k < 16 ==> !s.keyboard[k],
    ensures
        step_spec(s, rnd) == Ok::<State, Chip8Error>(s),
{
    lemma_first_key_at(s.keyboard, 0, 16);
    let t = exec_spec(advance(s), Instruction::Ldkp(x), rnd)->Ok_0;
    assert(t =~= s);
}

/// Once some key is latched pressed, the block-for-key instruction stores
/// the first pressed key's index in VX, releases exactly that key's latch
/// (so the same press is not observed twice), and lets the program counter
/// advance normally.
pub proof fn lemma_wait_key_receives(s: State, x: usize, k: usize, rnd: u8)
    requires
        s.wf(),
        x < 16,
        k < 16,
        s.keyboard[k as int],
        forall|j: int| 0 <= j < k ==> !s.keyboard[j],
    ensures
        exec_spec(s, Instruction::Ldkp(x), rnd) matches Ok(t) && {
            &&& t.registers[x as int] == k
            &&& t.keyboard == s.keyboard.update(k as int, false)
            &&& t.pc == s.pc
        },
{
    lemma_first_key_at(s.keyboard, 0, k as int);
}

} // verus!
