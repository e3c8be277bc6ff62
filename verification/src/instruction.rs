//! The instruction table: one pure transition function per opcode, each
//! mapping (current state, decoded opcode, key-input snapshot) to a brand-new
//! state, together with `execute`, which dispatches a decoded opcode to the
//! matching transition and surfaces decode and bounds faults.

use vstd::prelude::*;

use vstd::arithmetic::div_mod::{
    lemma_add_mod_noop_right, lemma_fundamental_div_mod, lemma_fundamental_div_mod_converse_div,
    lemma_fundamental_div_mod_converse_mod, lemma_small_mod, lemma_sub_mod_noop,
    lemma_sub_mod_noop_right,
};

use crate::error::Chip8Error;
use crate::opcode::{
    lemma_op_field_bounds, op_addr, op_kk, op_n, op_nib0, op_nib2, op_nib3, op_x, op_y,
    Opcode,
};
use crate::state::{zero_bytes, State, StateView, FRAME_BUFFER_LEN, MEMORY_LEN};

verus! {

/// 1 for a condition that holds, 0 otherwise; the value written into VF.
pub open spec fn bool_flag(c: bool) -> u8 {
    if c {
        1
    } else {
        0
    }
}

/// Eight-bit addition that drops the carry.
pub open spec fn wrap_add(a: u8, b: u8) -> u8 {
    ((a + b) % 256) as u8
}

/// Eight-bit subtraction that wraps on borrow.
pub open spec fn wrap_sub(a: u8, b: u8) -> u8 {
    ((a + 256 - b) % 256) as u8
}

/// CLS: clear the frame buffer, set the draw flag, advance.
pub open spec fn spec_clr(s: StateView) -> StateView {
    StateView {
        pc: (s.pc + 2) as u16,
        frame_buffer: Seq::new(FRAME_BUFFER_LEN as nat, |j: int| 0u8),
        draw_flag: true,
        ..s
    }
}

/// RET: pop the stack into the program counter.
pub open spec fn spec_rts(s: StateView) -> StateView {
    StateView { pc: (s.stack[s.sp as int] + 2) as u16, sp: (s.sp - 1) as u8, ..s }
}

/// JP addr: jump absolutely.
pub open spec fn spec_jump(w: u16, s: StateView) -> StateView {
    StateView { pc: op_addr(w), ..s }
}

/// CALL addr: push the program counter, jump absolutely.
pub open spec fn spec_call(w: u16, s: StateView) -> StateView {
    StateView {
        pc: op_addr(w),
        sp: (s.sp + 1) as u8,
        stack: s.stack.update(s.sp as int + 1, s.pc),
        ..s
    }
}

/// SE Vx, kk: skip the next instruction when Vx equals the literal.
pub open spec fn spec_ske(w: u16, s: StateView) -> StateView {
    StateView {
        pc: if s.v[op_x(w) as int] == op_kk(w) {
            (s.pc + 4) as u16
        } else {
            (s.pc + 2) as u16
        },
        ..s
    }
}

/// SNE Vx, kk: skip the next instruction when Vx differs from the literal.
pub open spec fn spec_skne(w: u16, s: StateView) -> StateView {
    StateView {
        pc: if s.v[op_x(w) as int] != op_kk(w) {
            (s.pc + 4) as u16
        } else {
            (s.pc + 2) as u16
        },
        ..s
    }
}

/// SE Vx, Vy: skip the next instruction when the registers are equal.
pub open spec fn spec_skre(w: u16, s: StateView) -> StateView {
    StateView {
        pc: if s.v[op_x(w) as int] == s.v[op_y(w) as int] {
            (s.pc + 4) as u16
        } else {
            (s.pc + 2) as u16
        },
        ..s
    }
}

/// LD Vx, kk: load the literal into Vx.
pub open spec fn spec_load(w: u16, s: StateView) -> StateView {
    StateView { pc: (s.pc + 2) as u16, v: s.v.update(op_x(w) as int, op_kk(w)), ..s }
}

/// ADD Vx, kk: add the literal into Vx, dropping any carry.
pub open spec fn spec_add(w: u16, s: StateView) -> StateView {
    StateView {
        pc: (s.pc + 2) as u16,
        v: s.v.update(op_x(w) as int, wrap_add(s.v[op_x(w) as int], op_kk(w))),
        ..s
    }
}

/// LD Vx, Vy: copy Vy into Vx.
pub open spec fn spec_mv(w: u16, s: StateView) -> StateView {
    StateView { pc: (s.pc + 2) as u16, v: s.v.update(op_x(w) as int, s.v[op_y(w) as int]), ..s }
}

/// OR Vx, Vy.
pub open spec fn spec_or(w: u16, s: StateView) -> StateView {
    StateView {
        pc: (s.pc + 2) as u16,
        v: s.v.update(op_x(w) as int, s.v[op_x(w) as int] | s.v[op_y(w) as int]),
        ..s
    }
}

/// AND Vx, Vy.
pub open spec fn spec_and(w: u16, s: StateView) -> StateView {
    StateView {
        pc: (s.pc + 2) as u16,
        v: s.v.update(op_x(w) as int, s.v[op_x(w) as int] & s.v[op_y(w) as int]),
        ..s
    }
}

/// XOR Vx, Vy.
pub open spec fn spec_xor(w: u16, s: StateView) -> StateView {
    StateView {
        pc: (s.pc + 2) as u16,
        v: s.v.update(op_x(w) as int, s.v[op_x(w) as int] ^ s.v[op_y(w) as int]),
        ..s
    }
}

/// ADD Vx, Vy: eight-bit sum into Vx, carry into VF; the flag is written
/// first, so when Vx is VF itself the arithmetic result wins.
pub open spec fn spec_addr(w: u16, s: StateView) -> StateView {
    StateView {
        pc: (s.pc + 2) as u16,
        v: s.v.update(15, bool_flag(s.v[op_x(w) as int] + s.v[op_y(w) as int] > 255)).update(
            op_x(w) as int,
            wrap_add(s.v[op_x(w) as int], s.v[op_y(w) as int]),
        ),
        ..s
    }
}

/// SUB Vx, Vy: Vx minus Vy into Vx, VF = 1 when there is no borrow.
pub open spec fn spec_sub(w: u16, s: StateView) -> StateView {
    StateView {
        pc: (s.pc + 2) as u16,
        v: s.v.update(15, bool_flag(s.v[op_x(w) as int] >= s.v[op_y(w) as int])).update(
            op_x(w) as int,
            wrap_sub(s.v[op_x(w) as int], s.v[op_y(w) as int]),
        ),
        ..s
    }
}

/// SHR Vx: VF takes the old lowest bit of Vx, then Vx is halved; the halving
/// reads the register file after the flag write, so when Vx is VF itself the
/// flag bit is what gets halved.
pub open spec fn spec_shr(w: u16, s: StateView) -> StateView {
    let v1 = s.v.update(15, s.v[op_x(w) as int] & 1);
    StateView {
        pc: (s.pc + 2) as u16,
        v: v1.update(op_x(w) as int, v1[op_x(w) as int] / 2),
        ..s
    }
}

/// SUBN Vx, Vy: Vy minus Vx into Vx, VF = 1 when there is no borrow.
pub open spec fn spec_subn(w: u16, s: StateView) -> StateView {
    StateView {
        pc: (s.pc + 2) as u16,
        v: s.v.update(15, bool_flag(s.v[op_y(w) as int] >= s.v[op_x(w) as int])).update(
            op_x(w) as int,
            wrap_sub(s.v[op_y(w) as int], s.v[op_x(w) as int]),
        ),
        ..s
    }
}

/// SHL Vx: Vx is doubled modulo 256, VF takes the dropped high bit.
pub open spec fn spec_shl(w: u16, s: StateView) -> StateView {
    StateView {
        pc: (s.pc + 2) as u16,
        v: s.v.update(15, bool_flag(s.v[op_x(w) as int] >= 128)).update(
            op_x(w) as int,
            wrap_add(s.v[op_x(w) as int], s.v[op_x(w) as int]),
        ),
        ..s
    }
}

/// SNE Vx, Vy: skip the next instruction when the registers differ.
pub open spec fn spec_skrne(w: u16, s: StateView) -> StateView {
    StateView {
        pc: if s.v[op_x(w) as int] != s.v[op_y(w) as int] {
            (s.pc + 4) as u16
        } else {
            (s.pc + 2) as u16
        },
        ..s
    }
}

/// LD I, addr.
pub open spec fn spec_loadi(w: u16, s: StateView) -> StateView {
    StateView { pc: (s.pc + 2) as u16, i: op_addr(w), ..s }
}

/// JP V0, addr: jump to the address field plus V0.
pub open spec fn spec_jumpi(w: u16, s: StateView) -> StateView {
    StateView { pc: (s.v[0] + op_addr(w)) as u16, ..s }
}

/// RND Vx, kk: a random byte masked by the literal into Vx; `b` is the byte
/// the random source produced.
pub open spec fn spec_rand(w: u16, s: StateView, b: u8) -> StateView {
    StateView { pc: (s.pc + 2) as u16, v: s.v.update(op_x(w) as int, b & op_kk(w)), ..s }
}

/// SKP Vx: skip the next instruction when the key named by Vx is held.
pub open spec fn spec_skpr(w: u16, s: StateView, keys: Seq<u8>) -> StateView {
    StateView {
        pc: if keys[s.v[op_x(w) as int] as int] == 1 {
            (s.pc + 4) as u16
        } else {
            (s.pc + 2) as u16
        },
        ..s
    }
}

/// SKNP Vx: skip the next instruction when the key named by Vx is not held.
pub open spec fn spec_skup(w: u16, s: StateView, keys: Seq<u8>) -> StateView {
    StateView {
        pc: if keys[s.v[op_x(w) as int] as int] == 0 {
            (s.pc + 4) as u16
        } else {
            (s.pc + 2) as u16
        },
        ..s
    }
}

/// LD Vx, DT: copy the delay timer into Vx.
pub open spec fn spec_moved(w: u16, s: StateView) -> StateView {
    StateView { pc: (s.pc + 2) as u16, v: s.v.update(op_x(w) as int, s.delay_timer), ..s }
}

/// LD Vx, K: block until a key press fills Vx.
pub open spec fn spec_keyd(w: u16, s: StateView) -> StateView {
    StateView { pc: (s.pc + 2) as u16, register_needing_key: Some(op_x(w)), ..s }
}

/// LD DT, Vx.
pub open spec fn spec_loads(w: u16, s: StateView) -> StateView {
    StateView { pc: (s.pc + 2) as u16, delay_timer: s.v[op_x(w) as int], ..s }
}

/// LD ST, Vx.
pub open spec fn spec_ld(w: u16, s: StateView) -> StateView {
    StateView { pc: (s.pc + 2) as u16, sound_timer: s.v[op_x(w) as int], ..s }
}

/// ADD I, Vx.
pub open spec fn spec_addi(w: u16, s: StateView) -> StateView {
    StateView { pc: (s.pc + 2) as u16, i: (s.i + s.v[op_x(w) as int]) as u16, ..s }
}

/// LD F, Vx: point I at the font glyph for the value of Vx.
pub open spec fn spec_ldspr(w: u16, s: StateView) -> StateView {
    StateView { pc: (s.pc + 2) as u16, i: (s.v[op_x(w) as int] * 5) as u16, ..s }
}

/// LD B, Vx: the three decimal digits of Vx into memory at I, I+1, I+2.
pub open spec fn spec_bcd(w: u16, s: StateView) -> StateView {
    StateView {
        pc: (s.pc + 2) as u16,
        memory: s.memory.update(s.i as int, (s.v[op_x(w) as int] / 100) % 10).update(
            s.i as int + 1,
            (s.v[op_x(w) as int] / 10) % 10,
        ).update(s.i as int + 2, s.v[op_x(w) as int] % 10),
        ..s
    }
}

/// LD [I], Vx: registers V0 through Vx inclusive into memory starting at I.
pub open spec fn spec_stor(w: u16, s: StateView) -> StateView {
    StateView {
        pc: (s.pc + 2) as u16,
        memory: Seq::new(
            MEMORY_LEN as nat,
            |j: int|
                if s.i <= j <= s.i + op_x(w) {
                    s.v[j - s.i]
                } else {
                    s.memory[j]
                },
        ),
        ..s
    }
}

/// LD Vx, [I]: memory starting at I into registers V0 through Vx inclusive.
pub open spec fn spec_read(w: u16, s: StateView) -> StateView {
    StateView {
        pc: (s.pc + 2) as u16,
        v: Seq::new(
            16,
            |k: int|
                if k <= op_x(w) {
                    s.memory[s.i + k]
                } else {
                    s.v[k]
                },
        ),
        ..s
    }
}

/// clear
pub fn clr(op: &Opcode, state: &State, pressed_keys: &Vec<u8>) -> (r: State)
    requires
        state@.wf(),
        state@.pc + 2 <= u16::MAX,
    ensures
        r@ == spec_clr(state@),
        r@.wf(),
{
    let mut r = state.clone();
    r.pc = state.pc + 2;
    r.frame_buffer = zero_bytes(FRAME_BUFFER_LEN);
    r.draw_flag = true;
    r
}

/// PC = STACK.pop()
pub fn rts(op: &Opcode, state: &State, pressed_keys: &Vec<u8>) -> (r: State)
    requires
        state@.wf(),
        state@.sp >= 1,
        state@.stack[state@.sp as int] + 2 <= u16::MAX,
    ensures
        r@ == spec_rts(state@),
        r@.wf(),
{
    let mut r = state.clone();
    r.pc = state.stack[state.sp as usize] + 2;
    r.sp = state.sp - 1;
    r
}

/// PC = addr
pub fn jump(op: &Opcode, state: &State, pressed_keys: &Vec<u8>) -> (r: State)
    requires
        state@.wf(),
    ensures
        r@ == spec_jump(op.word, state@),
        r@.wf(),
{
    let mut r = state.clone();
    r.pc = op.addr();
    r
}

/// STACK.push(PC); PC = addr
pub fn call(op: &Opcode, state: &State, pressed_keys: &Vec<u8>) -> (r: State)
    requires
        state@.wf(),
        state@.sp < 15,
    ensures
        r@ == spec_call(op.word, state@),
        r@.wf(),
{
    let mut r = state.clone();
    let sp = state.sp + 1;
    r.stack.set(sp as usize, state.pc);
    r.sp = sp;
    r.pc = op.addr();
    r
}

/// if Vx == kk then pc += 2
pub fn ske(op: &Opcode, state: &State, pressed_keys: &Vec<u8>) -> (r: State)
    requires
        state@.wf(),
        state@.pc + 4 <= u16::MAX,
    ensures
        r@ == spec_ske(op.word, state@),
        r@.wf(),
{
    let mut r = state.clone();
    r.pc = if state.v[op.x() as usize] == op.kk() {
        state.pc + 4
    } else {
        state.pc + 2
    };
    r
}

/// if Vx != kk then pc += 2
pub fn skne(op: &Opcode, state: &State, pressed_keys: &Vec<u8>) -> (r: State)
    requires
        state@.wf(),
        state@.pc + 4 <= u16::MAX,
    ensures
        r@ == spec_skne(op.word, state@),
        r@.wf(),
{
    let mut r = state.clone();
    r.pc = if state.v[op.x() as usize] != op.kk() {
        state.pc + 4
    } else {
        state.pc + 2
    };
    r
}

/// if Vx == Vy then pc += 2
pub fn skre(op: &Opcode, state: &State, pressed_keys: &Vec<u8>) -> (r: State)
    requires
        state@.wf(),
        state@.pc + 4 <= u16::MAX,
    ensures
        r@ == spec_skre(op.word, state@),
        r@.wf(),
{
    let mut r = state.clone();
    r.pc = if state.v[op.x() as usize] == state.v[op.y() as usize] {
        state.pc + 4
    } else {
        state.pc + 2
    };
    r
}

/// Vx = kk
pub fn load(op: &Opcode, state: &State, pressed_keys: &Vec<u8>) -> (r: State)
    requires
        state@.wf(),
        state@.pc + 2 <= u16::MAX,
    ensures
        r@ == spec_load(op.word, state@),
        r@.wf(),
{
    let mut r = state.clone();
    r.v.set(op.x() as usize, op.kk());
    r.pc = state.pc + 2;
    r
}

/// Vx += kk
/// Add kk to Vx; allow for overflow but implicitly drop it
pub fn add(op: &Opcode, state: &State, pressed_keys: &Vec<u8>) -> (r: State)
    requires
        state@.wf(),
        state@.pc + 2 <= u16::MAX,
    ensures
        r@ == spec_add(op.word, state@),
        r@.wf(),
{
    let x = op.x() as usize;
    let res = ((state.v[x] as u16 + op.kk() as u16) % 256) as u8;
    let mut r = state.clone();
    r.v.set(x, res);
    r.pc = state.pc + 2;
    r
}

/// Vx = Vy
pub fn mv(op: &Opcode, state: &State, pressed_keys: &Vec<u8>) -> (r: State)
    requires
        state@.wf(),
        state@.pc + 2 <= u16::MAX,
    ensures
        r@ == spec_mv(op.word, state@),
        r@.wf(),
{
    let mut r = state.clone();
    r.v.set(op.x() as usize, state.v[op.y() as usize]);
    r.pc = state.pc + 2;
    r
}

/// Vx |= Vy
pub fn or(op: &Opcode, state: &State, pressed_keys: &Vec<u8>) -> (r: State)
    requires
        state@.wf(),
        state@.pc + 2 <= u16::MAX,
    ensures
        r@ == spec_or(op.word, state@),
        r@.wf(),
{
    let mut r = state.clone();
    r.v.set(op.x() as usize, state.v[op.x() as usize] | state.v[op.y() as usize]);
    r.pc = state.pc + 2;
    r
}

/// Vx &= Vy
pub fn and(op: &Opcode, state: &State, pressed_keys: &Vec<u8>) -> (r: State)
    requires
        state@.wf(),
        state@.pc + 2 <= u16::MAX,
    ensures
        r@ == spec_and(op.word, state@),
        r@.wf(),
{
    let mut r = state.clone();
    r.v.set(op.x() as usize, state.v[op.x() as usize] & state.v[op.y() as usize]);
    r.pc = state.pc + 2;
    r
}

/// Vx ^= Vy
pub fn xor(op: &Opcode, state: &State, pressed_keys: &Vec<u8>) -> (r: State)
    requires
        state@.wf(),
        state@.pc + 2 <= u16::MAX,
    ensures
        r@ == spec_xor(op.word, state@),
        r@.wf(),
{
    let mut r = state.clone();
    r.v.set(op.x() as usize, state.v[op.x() as usize] ^ state.v[op.y() as usize]);
    r.pc = state.pc + 2;
    r
}

/// Vx += Vy; VF = overflow
pub fn addr(op: &Opcode, state: &State, pressed_keys: &Vec<u8>) -> (r: State)
    requires
        state@.wf(),
        state@.pc + 2 <= u16::MAX,
    ensures
        r@ == spec_addr(op.word, state@),
        r@.wf(),
{
    let x = op.x() as usize;
    let y = op.y() as usize;
    let sum = state.v[x] as u16 + state.v[y] as u16;
    let flag: u8 = if sum > 255 {
        1
    } else {
        0
    };
    let res = (sum % 256) as u8;
    let mut r = state.clone();
    r.v.set(15, flag);
    r.v.set(x, res);
    r.pc = state.pc + 2;
    r
}

/// Vx -= Vy; VF = !underflow
pub fn sub(op: &Opcode, state: &State, pressed_keys: &Vec<u8>) -> (r: State)
    requires
        state@.wf(),
        state@.pc + 2 <= u16::MAX,
    ensures
        r@ == spec_sub(op.word, state@),
        r@.wf(),
{
    let x = op.x() as usize;
    let y = op.y() as usize;
    let flag: u8 = if state.v[x] >= state.v[y] {
        1
    } else {
        0
    };
    let res = ((state.v[x] as u16 + 256 - state.v[y] as u16) % 256) as u8;
    let mut r = state.clone();
    r.v.set(15, flag);
    r.v.set(x, res);
    r.pc = state.pc + 2;
    r
}

/// Vx /= 2; VF = old lowest bit of Vx
pub fn shr(op: &Opcode, state: &State, pressed_keys: &Vec<u8>) -> (r: State)
    requires
        state@.wf(),
        state@.pc + 2 <= u16::MAX,
    ensures
        r@ == spec_shr(op.word, state@),
        r@.wf(),
{
    let x = op.x() as usize;
    let mut r = state.clone();
    r.v.set(15, state.v[x] & 1);
    let halved = r.v[x] / 2;
    r.v.set(x, halved);
    r.pc = state.pc + 2;
    r
}

/// Vx = Vy - Vx; VF = !underflow
pub fn subn(op: &Opcode, state: &State, pressed_keys: &Vec<u8>) -> (r: State)
    requires
        state@.wf(),
        state@.pc + 2 <= u16::MAX,
    ensures
        r@ == spec_subn(op.word, state@),
        r@.wf(),
{
    let x = op.x() as usize;
    let y = op.y() as usize;
    let flag: u8 = if state.v[y] >= state.v[x] {
        1
    } else {
        0
    };
    let res = ((state.v[y] as u16 + 256 - state.v[x] as u16) % 256) as u8;
    let mut r = state.clone();
    r.v.set(15, flag);
    r.v.set(x, res);
    r.pc = state.pc + 2;
    r
}

/// Vx *= 2; VF = overflow
pub fn shl(op: &Opcode, state: &State, pressed_keys: &Vec<u8>) -> (r: State)
    requires
        state@.wf(),
        state@.pc + 2 <= u16::MAX,
    ensures
        r@ == spec_shl(op.word, state@),
        r@.wf(),
{
    let x = op.x() as usize;
    let flag: u8 = if state.v[x] >= 128 {
        1
    } else {
        0
    };
    let res = ((state.v[x] as u16 + state.v[x] as u16) % 256) as u8;
    let mut r = state.clone();
    r.v.set(15, flag);
    r.v.set(x, res);
    r.pc = state.pc + 2;
    r
}

/// if Vx != Vy then pc += 2
pub fn skrne(op: &Opcode, state: &State, pressed_keys: &Vec<u8>) -> (r: State)
    requires
        state@.wf(),
        state@.pc + 4 <= u16::MAX,
    ensures
        r@ == spec_skrne(op.word, state@),
        r@.wf(),
{
    let mut r = state.clone();
    r.pc = if state.v[op.x() as usize] != state.v[op.y() as usize] {
        state.pc + 4
    } else {
        state.pc + 2
    };
    r
}

/// I = addr
pub fn loadi(op: &Opcode, state: &State, pressed_keys: &Vec<u8>) -> (r: State)
    requires
        state@.wf(),
        state@.pc + 2 <= u16::MAX,
    ensures
        r@ == spec_loadi(op.word, state@),
        r@.wf(),
{
    let mut r = state.clone();
    r.i = op.addr();
    r.pc = state.pc + 2;
    r
}

/// PC = V0 + addr
pub fn jumpi(op: &Opcode, state: &State, pressed_keys: &Vec<u8>) -> (r: State)
    requires
        state@.wf(),
    ensures
        r@ == spec_jumpi(op.word, state@),
        r@.wf(),
{
    let mut r = state.clone();
    r.pc = state.v[0] as u16 + op.addr();
    r
}

/// Vx = DT
pub fn moved(op: &Opcode, state: &State, pressed_keys: &Vec<u8>) -> (r: State)
    requires
        state@.wf(),
        state@.pc + 2 <= u16::MAX,
    ensures
        r@ == spec_moved(op.word, state@),
        r@.wf(),
{
    let mut r = state.clone();
    r.v.set(op.x() as usize, state.delay_timer);
    r.pc = state.pc + 2;
    r
}

/// await keypress for Vx
pub fn keyd(op: &Opcode, state: &State, pressed_keys: &Vec<u8>) -> (r: State)
    requires
        state@.wf(),
        state@.pc + 2 <= u16::MAX,
    ensures
        r@ == spec_keyd(op.word, state@),
        r@.wf(),
{
    let mut r = state.clone();
    r.register_needing_key = Some(op.x());
    r.pc = state.pc + 2;
    r
}

/// DT = Vx
pub fn loads(op: &Opcode, state: &State, pressed_keys: &Vec<u8>) -> (r: State)
    requires
        state@.wf(),
        state@.pc + 2 <= u16::MAX,
    ensures
        r@ == spec_loads(op.word, state@),
        r@.wf(),
{
    let mut r = state.clone();
    r.delay_timer = state.v[op.x() as usize];
    r.pc = state.pc + 2;
    r
}

/// ST = Vx
pub fn ld(op: &Opcode, state: &State, pressed_keys: &Vec<u8>) -> (r: State)
    requires
        state@.wf(),
        state@.pc + 2 <= u16::MAX,
    ensures
        r@ == spec_ld(op.word, state@),
        r@.wf(),
{
    let mut r = state.clone();
    r.sound_timer = state.v[op.x() as usize];
    r.pc = state.pc + 2;
    r
}

/// I += Vx
pub fn addi(op: &Opcode, state: &State, pressed_keys: &Vec<u8>) -> (r: State)
    requires
        state@.wf(),
        state@.pc + 2 <= u16::MAX,
        state@.i + state@.v[op_x(op.word) as int] <= u16::MAX,
    ensures
        r@ == spec_addi(op.word, state@),
        r@.wf(),
{
    let mut r = state.clone();
    r.i = state.i + state.v[op.x() as usize] as u16;
    r.pc = state.pc + 2;
    r
}

/// I = Vx * 5
/// Set I to the memory address of the font sprite for the value of Vx
pub fn ldspr(op: &Opcode, state: &State, pressed_keys: &Vec<u8>) -> (r: State)
    requires
        state@.wf(),
        state@.pc + 2 <= u16::MAX,
    ensures
        r@ == spec_ldspr(op.word, state@),
        r@.wf(),
{
    let mut r = state.clone();
    r.i = state.v[op.x() as usize] as u16 * 5;
    r.pc = state.pc + 2;
    r
}

/// mem[I..I+3] = bcd(Vx)
/// Store the three decimal digits of Vx in memory starting at address I
pub fn bcd(op: &Opcode, state: &State, pressed_keys: &Vec<u8>) -> (r: State)
    requires
        state@.wf(),
        state@.pc + 2 <= u16::MAX,
        state@.i + 3 <= MEMORY_LEN,
    ensures
        r@ == spec_bcd(op.word, state@),
        r@.wf(),
{
    let x = op.x() as usize;
    let i = state.i as usize;
    let mut r = state.clone();
    r.memory.set(i, (state.v[x] / 100) % 10);
    r.memory.set(i + 1, (state.v[x] / 10) % 10);
    r.memory.set(i + 2, state.v[x] % 10);
    r.pc = state.pc + 2;
    r
}

/// mem[I..=I+x] = V0..=Vx
/// Fill memory starting at address I with registers V0 through Vx inclusive
pub fn stor(op: &Opcode, state: &State, pressed_keys: &Vec<u8>) -> (r: State)
    requires
        state@.wf(),
        state@.pc + 2 <= u16::MAX,
        state@.i + op_x(op.word) < MEMORY_LEN,
    ensures
        r@ == spec_stor(op.word, state@),
        r@.wf(),
{
    let x = op.x() as usize;
    let i = state.i as usize;
    let mut r = state.clone();
    let mut k: usize = 0;
    while k <= x
        invariant
            state@.wf(),
            x < 16,
            k <= x + 1,
            i + x < MEMORY_LEN,
            x == op_x(op.word),
            i == state@.i,
            r.v@ == state@.v,
            r.i == state@.i,
            r.pc == state@.pc,
            r.sp == state@.sp,
            r.stack@ == state@.stack,
            r.frame_buffer@ == state@.frame_buffer,
            r.draw_flag == state@.draw_flag,
            r.delay_timer == state@.delay_timer,
            r.sound_timer == state@.sound_timer,
            r.delay_counter == state@.delay_counter,
            r.pressed_keys@ == state@.pressed_keys,
            r.register_needing_key == state@.register_needing_key,
            r.memory@.len() == MEMORY_LEN,
            forall|j: int|
                0 <= j < MEMORY_LEN ==> r.memory@[j] == if i <= j < i + k {
                    state@.v[j - i]
                } else {
                    state@.memory[j]
                },
        decreases x + 1 - k,
    {
        r.memory.set(i + k, state.v[k]);
        k = k + 1;
    }
    r.pc = state.pc + 2;
    proof {
        assert(r@.memory =~= spec_stor(op.word, state@).memory);
        assert(r@ == spec_stor(op.word, state@));
    }
    r
}

/// V0..=Vx = mem[I..=I+x]
/// Fill registers V0 through Vx inclusive with memory starting at address I
pub fn read(op: &Opcode, state: &State, pressed_keys: &Vec<u8>) -> (r: State)
    requires
        state@.wf(),
        state@.pc + 2 <= u16::MAX,
        state@.i + op_x(op.word) < MEMORY_LEN,
    ensures
        r@ == spec_read(op.word, state@),
        r@.wf(),
{
    let x = op.x() as usize;
    let i = state.i as usize;
    let mut r = state.clone();
    let mut k: usize = 0;
    while k <= x
        invariant
            state@.wf(),
            x < 16,
            k <= x + 1,
            i + x < MEMORY_LEN,
            x == op_x(op.word),
            i == state@.i,
            r.memory@ == state@.memory,
            r.i == state@.i,
            r.pc == state@.pc,
            r.sp == state@.sp,
            r.stack@ == state@.stack,
            r.frame_buffer@ == state@.frame_buffer,
            r.draw_flag == state@.draw_flag,
            r.delay_timer == state@.delay_timer,
            r.sound_timer == state@.sound_timer,
            r.delay_counter == state@.delay_counter,
            r.pressed_keys@ == state@.pressed_keys,
            r.register_needing_key == state@.register_needing_key,
            r.v@.len() == 16,
            forall|j: int|
                0 <= j < 16 ==> r.v@[j] == if 0 <= j < k {
                    state@.memory[i + j]
                } else {
                    state@.v[j]
                },
        decreases x + 1 - k,
    {
        r.v.set(k, state.memory[i + k]);
        k = k + 1;
    }
    r.pc = state.pc + 2;
    proof {
        assert(r@.v =~= spec_read(op.word, state@).v);
        assert(r@ == spec_read(op.word, state@));
    }
    r
}

/// A single bit of a sprite row: bit 7 is the leftmost pixel.
pub open spec fn sprite_bit(byte: u8, c: int) -> u8 {
    (byte >> ((7 - c) as u8)) & 1
}

/// Whether the sprite cell in row `rr`, column `cc` comes before the cell in
/// row `r`, column `c` in drawing order (rows outward, columns within a row).
pub open spec fn pair_before(rr: int, cc: int, r: int, c: int) -> bool {
    rr < r || (rr == r && cc < c)
}

/// The frame buffer after the sprite cells drawn before row `r`, column `c`
/// have been XORed on. Pixel `idx` belongs to sprite cell
/// `((y - vy) mod 32, (x - vx) mod 64)`; it is touched exactly when that cell
/// lies in the drawn prefix, the column offset being below the sprite width.
pub open spec fn draw_partial_fb(
    fb: Seq<u8>,
    mem: Seq<u8>,
    i: int,
    vx: int,
    vy: int,
    r: int,
    c: int,
) -> Seq<u8> {
    Seq::new(
        FRAME_BUFFER_LEN as nat,
        |idx: int|
            {
                let rr = (idx / 64 - vy) % 32;
                let cc = (idx % 64 - vx) % 64;
                if cc < 8 && pair_before(rr, cc, r, c) {
                    fb[idx] ^ sprite_bit(mem[i + rr], cc)
                } else {
                    fb[idx]
                }
            },
    )
}

/// Whether some sprite cell drawn before row `r`, column `c` was a set bit
/// landing on an already-set pixel: the collision that DRW reports in VF.
pub open spec fn draw_partial_hit(
    fb: Seq<u8>,
    mem: Seq<u8>,
    i: int,
    vx: int,
    vy: int,
    r: int,
    c: int,
) -> bool {
    exists|rr: int, cc: int|
        #![trigger sprite_bit(mem[i + rr], cc)]
        0 <= rr && 0 <= cc < 8 && pair_before(rr, cc, r, c) && sprite_bit(mem[i + rr], cc) == 1
            && fb[((vy + rr) % 32) * 64 + ((vx + cc) % 64)] == 1
}

/// DRW Vx, Vy, n: XOR the n-byte sprite at I onto the frame buffer at
/// (Vx, Vy) with wraparound, collision into VF, draw flag set.
pub open spec fn spec_draw(w: u16, s: StateView) -> StateView {
    let vx = s.v[op_x(w) as int] as int;
    let vy = s.v[op_y(w) as int] as int;
    let n = op_n(w) as int;
    StateView {
        pc: (s.pc + 2) as u16,
        draw_flag: true,
        v: s.v.update(
            15,
            bool_flag(draw_partial_hit(s.frame_buffer, s.memory, s.i as int, vx, vy, n, 0)),
        ),
        frame_buffer: draw_partial_fb(s.frame_buffer, s.memory, s.i as int, vx, vy, n, 0),
        ..s
    }
}

/// A masked single bit is never more than 1.
pub proof fn lemma_bit01(b: u8, sh: u8)
    ensures
        ((b >> sh) & 1) <= 1,
{
    assert(((b >> sh) & 1) <= 1) by (bit_vector);
}

/// XOR of two single-bit bytes is a single-bit byte.
pub proof fn lemma_xor01(a: u8, b: u8)
    requires
        a <= 1,
        b <= 1,
    ensures
        (a ^ b) <= 1,
{
    assert(a <= 1 && b <= 1 ==> (a ^ b) <= 1) by (bit_vector);
}

/// XOR with the same bit twice restores a byte.
pub proof fn lemma_xor_cancel(a: u8, b: u8)
    ensures
        (a ^ b) ^ b == a,
{
    assert((a ^ b) ^ b == a) by (bit_vector);
}

/// On single-bit bytes, OR is disjunction.
pub proof fn lemma_or01(a: u8, b: u8)
    requires
        a <= 1,
        b <= 1,
    ensures
        (a | b) <= 1,
        ((a | b) == 1) == (a == 1 || b == 1),
{
    assert(a <= 1 && b <= 1 ==> (a | b) <= 1 && (((a | b) == 1) == (a == 1 || b == 1)))
        by (bit_vector);
}

/// On single-bit bytes, AND is conjunction.
pub proof fn lemma_and01(a: u8, b: u8)
    requires
        a <= 1,
        b <= 1,
    ensures
        (a & b) <= 1,
        ((a & b) == 1) == (a == 1 && b == 1),
{
    assert(a <= 1 && b <= 1 ==> (a & b) <= 1 && (((a & b) == 1) == (a == 1 && b == 1)))
        by (bit_vector);
}

/// Wrapping an offset `k` below the modulus forward from `base` and then
/// back again recovers `k`.
pub proof fn lemma_wrap_forward(base: int, k: int, m: int)
    requires
        0 < m,
        0 <= k < m,
        0 <= base,
    ensures
        (((base + k) % m) - base) % m == k,
{
    let t = (base + k) % m;
    lemma_sub_mod_noop_right(t, base, m);
    lemma_sub_mod_noop(base + k, base, m);
    lemma_small_mod(k as nat, m as nat);
}

/// Wrapping a coordinate `y` below the modulus back from `base` and then
/// forward again recovers `y`.
pub proof fn lemma_wrap_inverse(base: int, y: int, m: int)
    requires
        0 < m,
        0 <= y < m,
        0 <= base,
    ensures
        (base + ((y - base) % m)) % m == y,
{
    lemma_add_mod_noop_right(base, y - base, m);
    lemma_small_mod(y as nat, m as nat);
}

/// draw_sprite(x=Vx y=Vy size=n)
/// XORs a sprite from memory I..I+n at position Vx, Vy on the frame buffer
/// with wrapping. Sets VF if any pixels would be erased.
pub fn draw(op: &Opcode, state: &State, pressed_keys: &Vec<u8>) -> (r: State)
    requires
        state@.wf(),
        state@.pc + 2 <= u16::MAX,
        op_n(op.word) > 0 ==> state@.i + op_n(op.word) <= MEMORY_LEN,
    ensures
        r@ == spec_draw(op.word, state@),
        r@.wf(),
{
    let vx = state.v[op.x() as usize] as usize;
    let vy = state.v[op.y() as usize] as usize;
    let n = op.n() as usize;
    let i = state.i as usize;
    let ghost fb0 = state@.frame_buffer;
    let ghost mem = state@.memory;
    let ghost gi = i as int;
    let ghost gvx = vx as int;
    let ghost gvy = vy as int;
    let mut fb = crate::state::copy_bytes(&state.frame_buffer);
    let mut vf: u8 = 0;
    let mut row: usize = 0;
    while row < n
        invariant
            state@.wf(),
            vx == state@.v[op_x(op.word) as int] as usize,
            vy == state@.v[op_y(op.word) as int] as usize,
            n == op_n(op.word),
            i == state@.i,
            n > 0 ==> i + n <= MEMORY_LEN,
            fb0 == state@.frame_buffer,
            mem == state@.memory,
            gi == i as int,
            gvx == vx as int,
            gvy == vy as int,
            row <= n,
            n < 32,
            fb@ == draw_partial_fb(fb0, mem, gi, gvx, gvy, row as int, 0),
            vf <= 1,
            (vf == 1) == draw_partial_hit(fb0, mem, gi, gvx, gvy, row as int, 0),
        decreases n - row,
    {
        let byte = state.memory[i + row];
        let mut col: usize = 0;
        while col < 8
            invariant
                state@.wf(),
                vx == state@.v[op_x(op.word) as int] as usize,
                vy == state@.v[op_y(op.word) as int] as usize,
                n == op_n(op.word),
                i == state@.i,
                n > 0 ==> i + n <= MEMORY_LEN,
                fb0 == state@.frame_buffer,
                mem == state@.memory,
                gi == i as int,
                gvx == vx as int,
                gvy == vy as int,
                row < n,
                n < 32,
                byte == mem[i + row as int],
                col <= 8,
                fb@ == draw_partial_fb(fb0, mem, gi, gvx, gvy, row as int, col as int),
                vf <= 1,
                (vf == 1) == draw_partial_hit(fb0, mem, gi, gvx, gvy, row as int, col as int),
            decreases 8 - col,
        {
            let yy = (vy + row) % 32;
            let xx = (vx + col) % 64;
            let idx = yy * 64 + xx;
            proof {
                lemma_fundamental_div_mod_converse_div(idx as int, 64, yy as int, xx as int);
                lemma_fundamental_div_mod_converse_mod(idx as int, 64, yy as int, xx as int);
                lemma_wrap_forward(gvy, row as int, 32);
                lemma_wrap_forward(gvx, col as int, 64);
            }
            let bit = (byte >> ((7 - col) as u8)) & 1;
            let old_pix = state.frame_buffer[idx];
            let q = bit & old_pix;
            let ghost vf0 = vf;
            proof {
                lemma_bit01(byte, (7 - col as int) as u8);
                lemma_and01(bit, old_pix);
                lemma_or01(vf, q);
            }
            vf = vf | q;
            let cur = fb[idx];
            fb.set(idx, cur ^ bit);
            let ghost old_fb_view = draw_partial_fb(fb0, mem, gi, gvx, gvy, row as int, col as int);
            let ghost new_fb_view = draw_partial_fb(
                fb0,
                mem,
                gi,
                gvx,
                gvy,
                row as int,
                col as int + 1,
            );
            proof {
                assert(bit == sprite_bit(mem[gi + row as int], col as int));
                assert forall|j: int| 0 <= j < FRAME_BUFFER_LEN implies fb@[j] == new_fb_view[j] by {
                    lemma_fundamental_div_mod(j, 64);
                    let yy2 = j / 64;
                    let xx2 = j % 64;
                    let rr2 = (yy2 - gvy) % 32;
                    let cc2 = (xx2 - gvx) % 64;
                    if j == idx as int {
                        assert(rr2 == row as int && cc2 == col as int);
                        assert(fb@[j] == fb0[j] ^ bit);
                    } else {
                        if cc2 < 8 && rr2 == row as int && cc2 == col as int {
                            lemma_wrap_inverse(gvy, yy2, 32);
                            lemma_wrap_inverse(gvx, xx2, 64);
                            assert(yy2 == yy as int && xx2 == xx as int);
                            assert(false);
                        }
                        assert(fb@[j] == old_fb_view[j]);
                    }
                }
                assert(fb@ =~= new_fb_view);
                let ghost tgt = ((gvy + row as int) % 32) * 64 + ((gvx + col as int) % 64);
                assert(tgt == idx as int);
                if vf == 1 {
                    if vf0 == 1 {
                        let (rr, cc) = choose|rr: int, cc: int|
                            #![trigger sprite_bit(mem[gi + rr], cc)]
                            0 <= rr && 0 <= cc < 8 && pair_before(rr, cc, row as int, col as int)
                                && sprite_bit(mem[gi + rr], cc) == 1 && fb0[((gvy + rr) % 32) * 64
                                + ((gvx + cc) % 64)] == 1;
                        assert(pair_before(rr, cc, row as int, col as int + 1));
                        assert(draw_partial_hit(fb0, mem, gi, gvx, gvy, row as int, col as int + 1));
                    } else {
                        assert(bit == 1 && old_pix == 1);
                        assert(sprite_bit(mem[gi + row as int], col as int) == 1);
                        assert(fb0[tgt] == 1);
                        assert(draw_partial_hit(fb0, mem, gi, gvx, gvy, row as int, col as int + 1));
                    }
                } else {
                    if draw_partial_hit(fb0, mem, gi, gvx, gvy, row as int, col as int + 1) {
                        let (rr, cc) = choose|rr: int, cc: int|
                            #![trigger sprite_bit(mem[gi + rr], cc)]
                            0 <= rr && 0 <= cc < 8 && pair_before(
                                rr,
                                cc,
                                row as int,
                                col as int + 1,
                            ) && sprite_bit(mem[gi + rr], cc) == 1 && fb0[((gvy + rr) % 32) * 64 + (
                            (gvx + cc) % 64)] == 1;
                        if pair_before(rr, cc, row as int, col as int) {
                            assert(draw_partial_hit(fb0, mem, gi, gvx, gvy, row as int, col as int));
                            assert(false);
                        } else {
                            assert(rr == row as int && cc == col as int);
                            assert(bit == 1 && old_pix == 1);
                            assert(q == 1);
                            assert(false);
                        }
                    }
                }
            }
            col = col + 1;
        }
        proof {
            assert(draw_partial_fb(fb0, mem, gi, gvx, gvy, row as int, 8) =~= draw_partial_fb(
                fb0,
                mem,
                gi,
                gvx,
                gvy,
                row as int + 1,
                0,
            ));
            if draw_partial_hit(fb0, mem, gi, gvx, gvy, row as int, 8) {
                let (rr, cc) = choose|rr: int, cc: int|
                    #![trigger sprite_bit(mem[gi + rr], cc)]
                    0 <= rr && 0 <= cc < 8 && pair_before(rr, cc, row as int, 8) && sprite_bit(
                        mem[gi + rr],
                        cc,
                    ) == 1 && fb0[((gvy + rr) % 32) * 64 + ((gvx + cc) % 64)] == 1;
                assert(pair_before(rr, cc, row as int + 1, 0));
                assert(draw_partial_hit(fb0, mem, gi, gvx, gvy, row as int + 1, 0));
            }
            if draw_partial_hit(fb0, mem, gi, gvx, gvy, row as int + 1, 0) {
                let (rr, cc) = choose|rr: int, cc: int|
                    #![trigger sprite_bit(mem[gi + rr], cc)]
                    0 <= rr && 0 <= cc < 8 && pair_before(rr, cc, row as int + 1, 0) && sprite_bit(
                        mem[gi + rr],
                        cc,
                    ) == 1 && fb0[((gvy + rr) % 32) * 64 + ((gvx + cc) % 64)] == 1;
                assert(pair_before(rr, cc, row as int, 8));
                assert(draw_partial_hit(fb0, mem, gi, gvx, gvy, row as int, 8));
            }
        }
        row = row + 1;
    }
    let mut r = state.clone();
    r.frame_buffer = fb;
    r.v.set(15, vf);
    r.draw_flag = true;
    r.pc = state.pc + 2;
    proof {
        let spec_r = spec_draw(op.word, state@);
        assert(r@.v == spec_r.v);
        assert(r@.frame_buffer == spec_r.frame_buffer);
        assert(r@ == spec_r);
        assert forall|j: int| 0 <= j < FRAME_BUFFER_LEN implies r@.frame_buffer[j] <= 1 by {
            let rr = (j / 64 - gvy) % 32;
            let cc = (j % 64 - gvx) % 64;
            lemma_bit01(mem[gi + rr], (7 - cc) as u8);
            lemma_xor01(fb0[j], sprite_bit(mem[gi + rr], cc));
        }
    }
    r
}

/// if Vx.pressed then pc += 2
pub fn skpr(op: &Opcode, state: &State, pressed_keys: &Vec<u8>) -> (r: State)
    requires
        state@.wf(),
        state@.pc + 4 <= u16::MAX,
        pressed_keys@.len() == 16,
        state@.v[op_x(op.word) as int] < 16,
    ensures
        r@ == spec_skpr(op.word, state@, pressed_keys@),
        r@.wf(),
{
    let mut r = state.clone();
    r.pc = if pressed_keys[state.v[op.x() as usize] as usize] == 1 {
        state.pc + 4
    } else {
        state.pc + 2
    };
    r
}

/// if !Vx.pressed then pc += 2
pub fn skup(op: &Opcode, state: &State, pressed_keys: &Vec<u8>) -> (r: State)
    requires
        state@.wf(),
        state@.pc + 4 <= u16::MAX,
        pressed_keys@.len() == 16,
        state@.v[op_x(op.word) as int] < 16,
    ensures
        r@ == spec_skup(op.word, state@, pressed_keys@),
        r@.wf(),
{
    let mut r = state.clone();
    r.pc = if pressed_keys[state.v[op.x() as usize] as usize] == 0 {
        state.pc + 4
    } else {
        state.pc + 2
    };
    r
}

/// Relies on rand::random: draws a byte from the thread-local generator.
/// Nothing is assumed about the value.
#[verifier::external_body]
fn random_byte() -> u8 {
    rand::random()
}

/// Vx = b & kk: the load that a drawn random byte feeds, exact for every
/// byte value.
pub fn rand_from_byte(op: &Opcode, state: &State, b: u8) -> (r: State)
    requires
        state@.wf(),
        state@.pc + 2 <= u16::MAX,
    ensures
        r@ == spec_rand(op.word, state@, b),
        r@.wf(),
{
    let mut r = state.clone();
    r.v.set(op.x() as usize, b & op.kk());
    r.pc = state.pc + 2;
    r
}

/// Vx = rand_byte & kk
pub fn rand(op: &Opcode, state: &State, pressed_keys: &Vec<u8>) -> (r: State)
    requires
        state@.wf(),
        state@.pc + 2 <= u16::MAX,
    ensures
        exists|b: u8| r@ == spec_rand(op.word, state@, b),
        r@.wf(),
{
    let b = random_byte();
    let r = rand_from_byte(op, state, b);
    proof {
        assert(r@ == spec_rand(op.word, state@, b));
    }
    r
}

/// Whether a word matches one of the 35 recognized opcode shapes. The
/// instruction set is closed: anything else is a fatal decode error.
pub open spec fn recognized(w: u16) -> bool {
    let a = op_nib0(w);
    let c = op_nib2(w);
    let d = op_nib3(w);
    ||| w == 0x00E0
    ||| w == 0x00EE
    ||| a == 0x1
    ||| a == 0x2
    ||| a == 0x3
    ||| a == 0x4
    ||| (a == 0x5 && d == 0x0)
    ||| a == 0x6
    ||| a == 0x7
    ||| (a == 0x8 && (d == 0x0 || d == 0x1 || d == 0x2 || d == 0x3 || d == 0x4 || d == 0x5 || d
        == 0x6 || d == 0x7 || d == 0xE))
    ||| (a == 0x9 && d == 0x0)
    ||| a == 0xA
    ||| a == 0xB
    ||| a == 0xC
    ||| a == 0xD
    ||| (a == 0xE && c == 0x9 && d == 0xE)
    ||| (a == 0xE && c == 0xA && d == 0x1)
    ||| (a == 0xF && c == 0x0 && d == 0x7)
    ||| (a == 0xF && c == 0x0 && d == 0xA)
    ||| (a == 0xF && c == 0x1 && d == 0x5)
    ||| (a == 0xF && c == 0x1 && d == 0x8)
    ||| (a == 0xF && c == 0x1 && d == 0xE)
    ||| (a == 0xF && c == 0x2 && d == 0x9)
    ||| (a == 0xF && c == 0x3 && d == 0x3)
    ||| (a == 0xF && c == 0x5 && d == 0x5)
    ||| (a == 0xF && c == 0x6 && d == 0x5)
}

/// The fault `execute` reports for this word on this state, or `None` when
/// the cycle succeeds: a decode fault for an unrecognized shape, and a bounds
/// fault when a stack, memory, key or address-register access would leave its
/// fixed array.
pub open spec fn step_err(w: u16, s: StateView) -> Option<Chip8Error> {
    let a = op_nib0(w);
    let c = op_nib2(w);
    let d = op_nib3(w);
    if !recognized(w) {
        Some(Chip8Error::Decode { opcode: w, pc: s.pc })
    } else if w == 0x00EE {
        if s.sp < 1 {
            Some(Chip8Error::Bounds { addr: 0 })
        } else if s.stack[s.sp as int] + 2 > u16::MAX {
            Some(Chip8Error::Bounds { addr: (s.stack[s.sp as int] + 2) as u32 })
        } else {
            None
        }
    } else if a == 0x2 {
        if s.sp >= 15 {
            Some(Chip8Error::Bounds { addr: (s.sp + 1) as u32 })
        } else {
            None
        }
    } else if a == 0xD {
        if op_n(w) > 0 && s.i + op_n(w) > MEMORY_LEN {
            Some(Chip8Error::Bounds { addr: (s.i + op_n(w) - 1) as u32 })
        } else {
            None
        }
    } else if a == 0xE {
        if s.v[op_x(w) as int] >= 16 {
            Some(Chip8Error::Bounds { addr: s.v[op_x(w) as int] as u32 })
        } else {
            None
        }
    } else if a == 0xF && c == 0x1 && d == 0xE {
        if s.i + s.v[op_x(w) as int] > u16::MAX {
            Some(Chip8Error::Bounds { addr: (s.i + s.v[op_x(w) as int]) as u32 })
        } else {
            None
        }
    } else if a == 0xF && c == 0x3 && d == 0x3 {
        if s.i + 3 > MEMORY_LEN {
            Some(Chip8Error::Bounds { addr: (s.i + 2) as u32 })
        } else {
            None
        }
    } else if a == 0xF && (c == 0x5 || c == 0x6) && d == 0x5 {
        if s.i + op_x(w) >= MEMORY_LEN {
            Some(Chip8Error::Bounds { addr: (s.i + op_x(w)) as u32 })
        } else {
            None
        }
    } else {
        None
    }
}

/// The state a successful cycle produces: the transition of the matched
/// shape. `b` is the byte the random source produced; every shape but RND
/// ignores it.
pub open spec fn step_ok(w: u16, s: StateView, keys: Seq<u8>, b: u8) -> StateView {
    let a = op_nib0(w);
    let c = op_nib2(w);
    let d = op_nib3(w);
    if w == 0x00E0 {
        spec_clr(s)
    } else if w == 0x00EE {
        spec_rts(s)
    } else if a == 0x1 {
        spec_jump(w, s)
    } else if a == 0x2 {
        spec_call(w, s)
    } else if a == 0x3 {
        spec_ske(w, s)
    } else if a == 0x4 {
        spec_skne(w, s)
    } else if a == 0x5 {
        spec_skre(w, s)
    } else if a == 0x6 {
        spec_load(w, s)
    } else if a == 0x7 {
        spec_add(w, s)
    } else if a == 0x8 && d == 0x0 {
        spec_mv(w, s)
    } else if a == 0x8 && d == 0x1 {
        spec_or(w, s)
    } else if a == 0x8 && d == 0x2 {
        spec_and(w, s)
    } else if a == 0x8 && d == 0x3 {
        spec_xor(w, s)
    } else if a == 0x8 && d == 0x4 {
        spec_addr(w, s)
    } else if a == 0x8 && d == 0x5 {
        spec_sub(w, s)
    } else if a == 0x8 && d == 0x6 {
        spec_shr(w, s)
    } else if a == 0x8 && d == 0x7 {
        spec_subn(w, s)
    } else if a == 0x8 {
        spec_shl(w, s)
    } else if a == 0x9 {
        spec_skrne(w, s)
    } else if a == 0xA {
        spec_loadi(w, s)
    } else if a == 0xB {
        spec_jumpi(w, s)
    } else if a == 0xC {
        spec_rand(w, s, b)
    } else if a == 0xD {
        spec_draw(w, s)
    } else if a == 0xE && c == 0x9 {
        spec_skpr(w, s, keys)
    } else if a == 0xE {
        spec_skup(w, s, keys)
    } else if a == 0xF && c == 0x0 && d == 0x7 {
        spec_moved(w, s)
    } else if a == 0xF && c == 0x0 && d == 0xA {
        spec_keyd(w, s)
    } else if a == 0xF && c == 0x1 && d == 0x5 {
        spec_loads(w, s)
    } else if a == 0xF && c == 0x1 && d == 0x8 {
        spec_ld(w, s)
    } else if a == 0xF && c == 0x1 && d == 0xE {
        spec_addi(w, s)
    } else if a == 0xF && c == 0x2 && d == 0x9 {
        spec_ldspr(w, s)
    } else if a == 0xF && c == 0x3 && d == 0x3 {
        spec_bcd(w, s)
    } else if a == 0xF && c == 0x5 && d == 0x5 {
        spec_stor(w, s)
    } else if a == 0xF && c == 0x6 && d == 0x5 {
        spec_read(w, s)
    } else {
        s
    }
}

/// The nibble patterns of the two zero-prefixed instructions pin the whole
/// word down.
proof fn lemma_word_from_nibbles(w: u16)
    ensures
        ((w >> 12) & 0xF == 0 && (w >> 8) & 0xF == 0 && (w >> 4) & 0xF == 0xE && w & 0xF == 0)
            == (w == 0x00E0),
        ((w >> 12) & 0xF == 0 && (w >> 8) & 0xF == 0 && (w >> 4) & 0xF == 0xE && w & 0xF == 0xE)
            == (w == 0x00EE),
{
    assert(((w >> 12) & 0xF == 0 && (w >> 8) & 0xF == 0 && (w >> 4) & 0xF == 0xE && w & 0xF == 0)
        == (w == 0x00E0)) by (bit_vector);
    assert(((w >> 12) & 0xF == 0 && (w >> 8) & 0xF == 0 && (w >> 4) & 0xF == 0xE && w & 0xF == 0xE)
        == (w == 0x00EE)) by (bit_vector);
}

/// Selects the correct instruction for a given opcode. Succeeds exactly when
/// the opcode is recognized and its accesses stay in bounds; otherwise it
/// surfaces the fault that `step_err` names and leaves every state alone.
pub fn execute(op: &Opcode, state: &State, pressed_keys: &Vec<u8>) -> (result: Result<
    State,
    Chip8Error,
>)
    requires
        state@.wf(),
        state@.pc + 4 <= u16::MAX,
        pressed_keys@.len() == 16,
    ensures
        (result is Ok) == (step_err(op.word, state@) is None),
        (match result {
            Ok(s2) => s2@.wf() && exists|b: u8|
                s2@ == step_ok(op.word, state@, pressed_keys@, b),
            Err(e) => step_err(op.word, state@) == Some(e),
        }),
{
    let w = op.word;
    proof {
        lemma_op_field_bounds(w);
        lemma_word_from_nibbles(w);
    }
    let nibs = op.nibbles();
    match nibs {
        (0x0, 0x0, 0xE, 0x0) => {
            let r = clr(op, state, pressed_keys);
            proof {
                assert(r@ == step_ok(w, state@, pressed_keys@, 0));
            }
            Ok(r)
        },
        (0x0, 0x0, 0xE, 0xE) => {
            if state.sp < 1 {
                Err(Chip8Error::Bounds { addr: 0 })
            } else {
                let ret = state.stack[state.sp as usize];
                if ret > u16::MAX - 2 {
                    Err(Chip8Error::Bounds { addr: ret as u32 + 2 })
                } else {
                    let r = rts(op, state, pressed_keys);
                    proof {
                        assert(r@ == step_ok(w, state@, pressed_keys@, 0));
                    }
                    Ok(r)
                }
            }
        },
        (0x1, _, _, _) => {
            let r = jump(op, state, pressed_keys);
            proof {
                assert(r@ == step_ok(w, state@, pressed_keys@, 0));
            }
            Ok(r)
        },
        (0x2, _, _, _) => {
            if state.sp >= 15 {
                Err(Chip8Error::Bounds { addr: state.sp as u32 + 1 })
            } else {
                let r = call(op, state, pressed_keys);
                proof {
                    assert(r@ == step_ok(w, state@, pressed_keys@, 0));
                }
                Ok(r)
            }
        },
        (0x3, _, _, _) => {
            let r = ske(op, state, pressed_keys);
            proof {
                assert(r@ == step_ok(w, state@, pressed_keys@, 0));
            }
            Ok(r)
        },
        (0x4, _, _, _) => {
            let r = skne(op, state, pressed_keys);
            proof {
                assert(r@ == step_ok(w, state@, pressed_keys@, 0));
            }
            Ok(r)
        },
        (0x5, _, _, 0x0) => {
            let r = skre(op, state, pressed_keys);
            proof {
                assert(r@ == step_ok(w, state@, pressed_keys@, 0));
            }
            Ok(r)
        },
        (0x6, _, _, _) => {
            let r = load(op, state, pressed_keys);
            proof {
                assert(r@ == step_ok(w, state@, pressed_keys@, 0));
            }
            Ok(r)
        },
        (0x7, _, _, _) => {
            let r = crate::instruction::add(op, state, pressed_keys);
            proof {
                assert(r@ == step_ok(w, state@, pressed_keys@, 0));
            }
            Ok(r)
        },
        (0x8, _, _, 0x0) => {
            let r = mv(op, state, pressed_keys);
            proof {
                assert(r@ == step_ok(w, state@, pressed_keys@, 0));
            }
            Ok(r)
        },
        (0x8, _, _, 0x1) => {
            let r = or(op, state, pressed_keys);
            proof {
                assert(r@ == step_ok(w, state@, pressed_keys@, 0));
            }
            Ok(r)
        },
        (0x8, _, _, 0x2) => {
            let r = and(op, state, pressed_keys);
            proof {
                assert(r@ == step_ok(w, state@, pressed_keys@, 0));
            }
            Ok(r)
        },
        (0x8, _, _, 0x3) => {
            let r = xor(op, state, pressed_keys);
            proof {
                assert(r@ == step_ok(w, state@, pressed_keys@, 0));
            }
            Ok(r)
        },
        (0x8, _, _, 0x4) => {
            let r = addr(op, state, pressed_keys);
            proof {
                assert(r@ == step_ok(w, state@, pressed_keys@, 0));
            }
            Ok(r)
        },
        (0x8, _, _, 0x5) => {
            let r = crate::instruction::sub(op, state, pressed_keys);
            proof {
                assert(r@ == step_ok(w, state@, pressed_keys@, 0));
            }
            Ok(r)
        },
        (0x8, _, _, 0x6) => {
            let r = shr(op, state, pressed_keys);
            proof {
                assert(r@ == step_ok(w, state@, pressed_keys@, 0));
            }
            Ok(r)
        },
        (0x8, _, _, 0x7) => {
            let r = subn(op, state, pressed_keys);
            proof {
                assert(r@ == step_ok(w, state@, pressed_keys@, 0));
            }
            Ok(r)
        },
        (0x8, _, _, 0xE) => {
            let r = shl(op, state, pressed_keys);
            proof {
                assert(r@ == step_ok(w, state@, pressed_keys@, 0));
            }
            Ok(r)
        },
        (0x9, _, _, 0x0) => {
            let r = skrne(op, state, pressed_keys);
            proof {
                assert(r@ == step_ok(w, state@, pressed_keys@, 0));
            }
            Ok(r)
        },
        (0xA, _, _, _) => {
            let r = loadi(op, state, pressed_keys);
            proof {
                assert(r@ == step_ok(w, state@, pressed_keys@, 0));
            }
            Ok(r)
        },
        (0xB, _, _, _) => {
            let r = jumpi(op, state, pressed_keys);
            proof {
                assert(r@ == step_ok(w, state@, pressed_keys@, 0));
            }
            Ok(r)
        },
        (0xC, _, _, _) => {
            let r = rand(op, state, pressed_keys);
            proof {
                let ghost b = choose|b: u8| r@ == spec_rand(w, state@, b);
                assert(r@ == step_ok(w, state@, pressed_keys@, b));
            }
            Ok(r)
        },
        (0xD, _, _, _) => {
            let n = op.n();
            if n > 0 && state.i as usize + n as usize > MEMORY_LEN {
                Err(Chip8Error::Bounds { addr: state.i as u32 + n as u32 - 1 })
            } else {
                let r = draw(op, state, pressed_keys);
                proof {
                    assert(r@ == step_ok(w, state@, pressed_keys@, 0));
                }
                Ok(r)
            }
        },
        (0xE, _, 0x9, 0xE) => {
            let key = state.v[op.x() as usize];
            if key >= 16 {
                Err(Chip8Error::Bounds { addr: key as u32 })
            } else {
                let r = skpr(op, state, pressed_keys);
                proof {
                    assert(r@ == step_ok(w, state@, pressed_keys@, 0));
                }
                Ok(r)
            }
        },
        (0xE, _, 0xA, 0x1) => {
            let key = state.v[op.x() as usize];
            if key >= 16 {
                Err(Chip8Error::Bounds { addr: key as u32 })
            } else {
                let r = skup(op, state, pressed_keys);
                proof {
                    assert(r@ == step_ok(w, state@, pressed_keys@, 0));
                }
                Ok(r)
            }
        },
        (0xF, _, 0x0, 0x7) => {
            let r = moved(op, state, pressed_keys);
            proof {
                assert(r@ == step_ok(w, state@, pressed_keys@, 0));
            }
            Ok(r)
        },
        (0xF, _, 0x0, 0xA) => {
            let r = keyd(op, state, pressed_keys);
            proof {
                assert(r@ == step_ok(w, state@, pressed_keys@, 0));
            }
            Ok(r)
        },
        (0xF, _, 0x1, 0x5) => {
            let r = loads(op, state, pressed_keys);
            proof {
                assert(r@ == step_ok(w, state@, pressed_keys@, 0));
            }
            Ok(r)
        },
        (0xF, _, 0x1, 0x8) => {
            let r = ld(op, state, pressed_keys);
            proof {
                assert(r@ == step_ok(w, state@, pressed_keys@, 0));
            }
            Ok(r)
        },
        (0xF, _, 0x1, 0xE) => {
            let vx = state.v[op.x() as usize];
            if state.i as u32 + vx as u32 > u16::MAX as u32 {
                Err(Chip8Error::Bounds { addr: state.i as u32 + vx as u32 })
            } else {
                let r = addi(op, state, pressed_keys);
                proof {
                    assert(r@ == step_ok(w, state@, pressed_keys@, 0));
                }
                Ok(r)
            }
        },
        (0xF, _, 0x2, 0x9) => {
            let r = ldspr(op, state, pressed_keys);
            proof {
                assert(r@ == step_ok(w, state@, pressed_keys@, 0));
            }
            Ok(r)
        },
        (0xF, _, 0x3, 0x3) => {
            if state.i as usize + 3 > MEMORY_LEN {
                Err(Chip8Error::Bounds { addr: state.i as u32 + 2 })
            } else {
                let r = bcd(op, state, pressed_keys);
                proof {
                    assert(r@ == step_ok(w, state@, pressed_keys@, 0));
                }
                Ok(r)
            }
        },
        (0xF, _, 0x5, 0x5) => {
            let x = op.x();
            if state.i as usize + x as usize >= MEMORY_LEN {
                Err(Chip8Error::Bounds { addr: state.i as u32 + x as u32 })
            } else {
                let r = stor(op, state, pressed_keys);
                proof {
                    assert(r@ == step_ok(w, state@, pressed_keys@, 0));
                }
                Ok(r)
            }
        },
        (0xF, _, 0x6, 0x5) => {
            let x = op.x();
            if state.i as usize + x as usize >= MEMORY_LEN {
                Err(Chip8Error::Bounds { addr: state.i as u32 + x as u32 })
            } else {
                let r = read(op, state, pressed_keys);
                proof {
                    assert(r@ == step_ok(w, state@, pressed_keys@, 0));
                }
                Ok(r)
            }
        },
        _ => {
            proof {
                assert(!recognized(w));
            }
            Err(Chip8Error::Decode { opcode: w, pc: state.pc })
        },
    }
}

/// Whether a recognized word is a jump, call, return or conditional skip:
/// the shapes whose next program counter is not simply two further on.
pub open spec fn is_jump_call_or_skip(w: u16) -> bool {
    let a = op_nib0(w);
    ||| w == 0x00EE
    ||| a == 0x1
    ||| a == 0x2
    ||| a == 0x3
    ||| a == 0x4
    ||| a == 0x5
    ||| a == 0x9
    ||| a == 0xB
    ||| a == 0xE
}

/// Every recognized instruction that is not a jump, call, return or skip
/// advances the program counter by exactly one instruction width, whatever
/// byte the random source produced.
pub proof fn lemma_pc_advances_by_two(w: u16, s: StateView, keys: Seq<u8>, b: u8)
    requires
        s.wf(),
        s.pc + 2 <= u16::MAX,
        recognized(w),
        !is_jump_call_or_skip(w),
    ensures
        step_ok(w, s, keys, b).pc == s.pc + 2,
{
}

/// SUB and SUBN on the same two registers set VF to exactly the no-borrow
/// flags of their respective differences: SUB reports Vx >= Vy and SUBN
/// reports Vy >= Vx. When the registers hold different values the two flags
/// are logical complements; when they hold equal values neither subtraction
/// borrows and both flags are 1.
pub proof fn lemma_sub_subn_flags(w: u16, s: StateView)
    requires
        s.wf(),
        op_x(w) != 15,
    ensures
        (spec_sub(w, s).v[15] == 1) == (s.v[op_x(w) as int] >= s.v[op_y(w) as int]),
        (spec_subn(w, s).v[15] == 1) == (s.v[op_y(w) as int] >= s.v[op_x(w) as int]),
        s.v[op_x(w) as int] != s.v[op_y(w) as int] ==> spec_sub(w, s).v[15] != spec_subn(
            w,
            s,
        ).v[15],
        s.v[op_x(w) as int] == s.v[op_y(w) as int] ==> spec_sub(w, s).v[15] == 1 && spec_subn(
            w,
            s,
        ).v[15] == 1,
{
    lemma_op_field_bounds(w);
}

/// Drawing a sprite twice at the same coordinates restores the frame buffer:
/// the XOR draw is its own inverse. VF after the second draw reflects only
/// the collisions the second draw saw on the once-drawn buffer.
pub proof fn lemma_draw_twice_restores(w: u16, s: StateView)
    requires
        s.wf(),
        op_x(w) != 15,
        op_y(w) != 15,
    ensures
        spec_draw(w, spec_draw(w, s)).frame_buffer == s.frame_buffer,
        spec_draw(w, spec_draw(w, s)).v[15] == bool_flag(
            draw_partial_hit(
                spec_draw(w, s).frame_buffer,
                s.memory,
                s.i as int,
                s.v[op_x(w) as int] as int,
                s.v[op_y(w) as int] as int,
                op_n(w) as int,
                0,
            ),
        ),
{
    lemma_op_field_bounds(w);
    let s1 = spec_draw(w, s);
    let vx = s.v[op_x(w) as int] as int;
    let vy = s.v[op_y(w) as int] as int;
    let n = op_n(w) as int;
    assert(s1.v[op_x(w) as int] == s.v[op_x(w) as int]);
    assert(s1.v[op_y(w) as int] == s.v[op_y(w) as int]);
    let fb1 = draw_partial_fb(s.frame_buffer, s.memory, s.i as int, vx, vy, n, 0);
    let fb2 = draw_partial_fb(fb1, s.memory, s.i as int, vx, vy, n, 0);
    assert forall|j: int| 0 <= j < FRAME_BUFFER_LEN implies fb2[j] == s.frame_buffer[j] by {
        let rr = (j / 64 - vy) % 32;
        let cc = (j % 64 - vx) % 64;
        lemma_xor_cancel(s.frame_buffer[j], sprite_bit(s.memory[s.i + rr], cc));
    }
    assert(fb2 =~= s.frame_buffer);
}

} // verus!
