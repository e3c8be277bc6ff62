//! The machine state: the complete, copyable snapshot of CPU, memory,
//! display, timers and pending input at one point in time. Instructions never
//! mutate a state in place; they produce a full replacement.

use vstd::prelude::*;

verus! {

/// The frame buffer as a flat grid of single-bit pixels, row-major: the pixel
/// at column `x`, row `y` sits at index `y * DISPLAY_WIDTH + x`.
pub type FrameBuffer = Vec<u8>;

/// Number of pixels in the frame buffer.
pub const FRAME_BUFFER_LEN: usize = 2048;

/// Number of addressable bytes of memory.
pub const MEMORY_LEN: usize = 4096;

/// First memory address available to a loaded program; the bytes below it
/// hold the font table.
pub const PROGRAM_START: usize = 512;

/// The mathematical model of a machine state.
pub ghost struct StateView {
    /// The sixteen general registers V0-VF.
    pub v: Seq<u8>,
    /// The address register I.
    pub i: u16,
    /// The program counter.
    pub pc: u16,
    /// The stack pointer.
    pub sp: u8,
    /// The sixteen-slot stack of return addresses.
    pub stack: Seq<u16>,
    /// The 4096 bytes of memory.
    pub memory: Seq<u8>,
    /// The flat 64x32 grid of pixels.
    pub frame_buffer: Seq<u8>,
    /// Whether the frame buffer has changed since it was last rendered.
    pub draw_flag: bool,
    /// The delay timer.
    pub delay_timer: u8,
    /// The sound timer.
    pub sound_timer: u8,
    /// Sub-cycle counter pacing the timer decrements.
    pub delay_counter: u8,
    /// Pressed status of the sixteen keys, one byte each, 1 when held.
    pub pressed_keys: Seq<u8>,
    /// When set, the machine is blocked until a key press fills this register.
    pub register_needing_key: Option<u8>,
}

impl StateView {
    /// Every array has its fixed length, the stack pointer stays inside the
    /// stack, pixels are single bits, and a pending key register is a real
    /// register index.
    pub open spec fn wf(self) -> bool {
        &&& self.v.len() == 16
        &&& self.stack.len() == 16
        &&& self.memory.len() == MEMORY_LEN
        &&& self.frame_buffer.len() == FRAME_BUFFER_LEN
        &&& self.pressed_keys.len() == 16
        &&& self.sp <= 15
        &&& forall|p: int| 0 <= p < FRAME_BUFFER_LEN ==> self.frame_buffer[p] <= 1
        &&& match self.register_needing_key {
            Some(r) => r < 16,
            None => true,
        }
    }
}

/// The machine state held at run time.
#[derive(Debug)]
pub struct State {
    /// The sixteen general registers V0-VF.
    pub v: Vec<u8>,
    /// The address register I.
    pub i: u16,
    /// The program counter.
    pub pc: u16,
    /// The stack pointer.
    pub sp: u8,
    /// The sixteen-slot stack of return addresses.
    pub stack: Vec<u16>,
    /// The 4096 bytes of memory.
    pub memory: Vec<u8>,
    /// The flat 64x32 grid of pixels.
    pub frame_buffer: FrameBuffer,
    /// Whether the frame buffer has changed since it was last rendered.
    pub draw_flag: bool,
    /// The delay timer.
    pub delay_timer: u8,
    /// The sound timer.
    pub sound_timer: u8,
    /// Sub-cycle counter pacing the timer decrements.
    pub delay_counter: u8,
    /// Pressed status of the sixteen keys, one byte each, 1 when held.
    pub pressed_keys: Vec<u8>,
    /// When set, the machine is blocked until a key press fills this register.
    pub register_needing_key: Option<u8>,
}

impl View for State {
    type V = StateView;

    open spec fn view(&self) -> StateView {
        StateView {
            v: self.v@,
            i: self.i,
            pc: self.pc,
            sp: self.sp,
            stack: self.stack@,
            memory: self.memory@,
            frame_buffer: self.frame_buffer@,
            draw_flag: self.draw_flag,
            delay_timer: self.delay_timer,
            sound_timer: self.sound_timer,
            delay_counter: self.delay_counter,
            pressed_keys: self.pressed_keys@,
            register_needing_key: self.register_needing_key,
        }
    }
}

/// The font table: sixteen glyphs of five bytes each, one sprite per
/// hexadecimal digit, kept at the bottom of memory.
pub open spec fn spec_sprite_sheet() -> Seq<u8> {
    seq![
        0xF0u8, 0x90, 0x90, 0x90, 0xF0, // 0
        0x20, 0x60, 0x20, 0x20, 0x70, // 1
        0xF0, 0x10, 0xF0, 0x80, 0xF0, // 2
        0xF0, 0x10, 0xF0, 0x10, 0xF0, // 3
        0x90, 0x90, 0xF0, 0x10, 0x10, // 4
        0xF0, 0x80, 0xF0, 0x10, 0xF0, // 5
        0xF0, 0x80, 0xF0, 0x90, 0xF0, // 6
        0xF0, 0x10, 0x20, 0x40, 0x40, // 7
        0xF0, 0x90, 0xF0, 0x90, 0xF0, // 8
        0xF0, 0x90, 0xF0, 0x10, 0xF0, // 9
        0xF0, 0x90, 0xF0, 0x90, 0x90, // A
        0xE0, 0x90, 0xE0, 0x90, 0xE0, // B
        0xF0, 0x80, 0x80, 0x80, 0xF0, // C
        0xE0, 0x90, 0x90, 0x90, 0xE0, // D
        0xF0, 0x80, 0xF0, 0x80, 0xF0, // E
        0xF0, 0x80, 0x80, 0x80, 0x80, // F
    ]
}

/// Memory at startup: the font table followed by zeroes.
pub open spec fn spec_initial_memory() -> Seq<u8> {
    spec_sprite_sheet() + Seq::new((MEMORY_LEN - 80) as nat, |j: int| 0u8)
}

/// The machine state at startup: memory zero except the font table, the
/// program counter at the program start, everything else zero or empty.
pub open spec fn spec_initial_state() -> StateView {
    StateView {
        v: Seq::new(16, |j: int| 0u8),
        i: 0,
        pc: 0x200,
        sp: 0,
        stack: Seq::new(16, |j: int| 0u16),
        memory: spec_initial_memory(),
        frame_buffer: Seq::new(FRAME_BUFFER_LEN as nat, |j: int| 0u8),
        draw_flag: false,
        delay_timer: 0,
        sound_timer: 0,
        delay_counter: 0,
        pressed_keys: Seq::new(16, |j: int| 0u8),
        register_needing_key: None,
    }
}

/// A vector of `n` zero bytes.
pub fn zero_bytes(n: usize) -> (r: Vec<u8>)
    ensures
        r@ == Seq::new(n as nat, |j: int| 0u8),
{
    let mut r: Vec<u8> = Vec::new();
    let mut k: usize = 0;
    while k < n
        invariant
            k <= n,
            r@ == Seq::new(k as nat, |j: int| 0u8),
        decreases n - k,
    {
        r.push(0);
        k = k + 1;
        proof {
            assert(r@ =~= Seq::new(k as nat, |j: int| 0u8));
        }
    }
    r
}

/// A vector of `n` zero words.
fn zero_words(n: usize) -> (r: Vec<u16>)
    ensures
        r@ == Seq::new(n as nat, |j: int| 0u16),
{
    let mut r: Vec<u16> = Vec::new();
    let mut k: usize = 0;
    while k < n
        invariant
            k <= n,
            r@ == Seq::new(k as nat, |j: int| 0u16),
        decreases n - k,
    {
        r.push(0);
        k = k + 1;
        proof {
            assert(r@ =~= Seq::new(k as nat, |j: int| 0u16));
        }
    }
    r
}

/// An element-for-element copy of a byte vector.
pub fn copy_bytes(src: &Vec<u8>) -> (r: Vec<u8>)
    ensures
        r@ == src@,
{
    let mut r: Vec<u8> = Vec::new();
    let mut k: usize = 0;
    while k < src.len()
        invariant
            k <= src@.len(),
            r@ == src@.subrange(0, k as int),
        decreases src@.len() - k,
    {
        r.push(src[k]);
        k = k + 1;
        proof {
            assert(r@ =~= src@.subrange(0, k as int));
        }
    }
    proof {
        assert(r@ =~= src@);
    }
    r
}

/// An element-for-element copy of a word vector.
fn copy_words(src: &Vec<u16>) -> (r: Vec<u16>)
    ensures
        r@ == src@,
{
    let mut r: Vec<u16> = Vec::new();
    let mut k: usize = 0;
    while k < src.len()
        invariant
            k <= src@.len(),
            r@ == src@.subrange(0, k as int),
        decreases src@.len() - k,
    {
        r.push(src[k]);
        k = k + 1;
        proof {
            assert(r@ =~= src@.subrange(0, k as int));
        }
    }
    proof {
        assert(r@ =~= src@);
    }
    r
}

/// The font table as bytes, glyphs for 0 through F in order.
pub fn sprite_sheet() -> (r: Vec<u8>)
    ensures
        r@ == spec_sprite_sheet(),
{
    let mut r: Vec<u8> = Vec::new();
    r.push(0xF0); r.push(0x90); r.push(0x90); r.push(0x90); r.push(0xF0);
    r.push(0x20); r.push(0x60); r.push(0x20); r.push(0x20); r.push(0x70);
    r.push(0xF0); r.push(0x10); r.push(0xF0); r.push(0x80); r.push(0xF0);
    r.push(0xF0); r.push(0x10); r.push(0xF0); r.push(0x10); r.push(0xF0);
    r.push(0x90); r.push(0x90); r.push(0xF0); r.push(0x10); r.push(0x10);
    r.push(0xF0); r.push(0x80); r.push(0xF0); r.push(0x10); r.push(0xF0);
    r.push(0xF0); r.push(0x80); r.push(0xF0); r.push(0x90); r.push(0xF0);
    r.push(0xF0); r.push(0x10); r.push(0x20); r.push(0x40); r.push(0x40);
    r.push(0xF0); r.push(0x90); r.push(0xF0); r.push(0x90); r.push(0xF0);
    r.push(0xF0); r.push(0x90); r.push(0xF0); r.push(0x10); r.push(0xF0);
    r.push(0xF0); r.push(0x90); r.push(0xF0); r.push(0x90); r.push(0x90);
    r.push(0xE0); r.push(0x90); r.push(0xE0); r.push(0x90); r.push(0xE0);
    r.push(0xF0); r.push(0x80); r.push(0x80); r.push(0x80); r.push(0xF0);
    r.push(0xE0); r.push(0x90); r.push(0x90); r.push(0x90); r.push(0xE0);
    r.push(0xF0); r.push(0x80); r.push(0xF0); r.push(0x80); r.push(0xF0);
    r.push(0xF0); r.push(0x80); r.push(0x80); r.push(0x80); r.push(0x80);
    proof {
        assert(r@ =~= spec_sprite_sheet());
    }
    r
}

impl State {
    /// The startup state: memory zero except the font table, the program
    /// counter at the program start, everything else zero or empty.
    pub fn new() -> (s: State)
        ensures
            s@ == spec_initial_state(),
            s@.wf(),
    {
        let mut memory = sprite_sheet();
        while memory.len() < MEMORY_LEN
            invariant
                80 <= memory@.len() <= MEMORY_LEN,
                memory@ == spec_sprite_sheet() + Seq::new(
                    (memory@.len() - 80) as nat,
                    |j: int| 0u8,
                ),
            decreases MEMORY_LEN - memory@.len(),
        {
            memory.push(0);
            proof {
                assert(memory@ =~= spec_sprite_sheet() + Seq::new(
                    (memory@.len() - 80) as nat,
                    |j: int| 0u8,
                ));
            }
        }
        let s = State {
            v: zero_bytes(16),
            i: 0,
            pc: 0x200,
            sp: 0,
            stack: zero_words(16),
            memory,
            frame_buffer: zero_bytes(FRAME_BUFFER_LEN),
            draw_flag: false,
            delay_timer: 0,
            sound_timer: 0,
            delay_counter: 0,
            pressed_keys: zero_bytes(16),
            register_needing_key: None,
        };
        proof {
            assert(s@.memory =~= spec_initial_memory());
            assert(s@ == spec_initial_state());
        }
        s
    }
}

impl Clone for State {
    /// A structural copy: every field of the copy views equal to the
    /// original's.
    fn clone(&self) -> (res: Self)
        ensures
            res@ == self@,
    {
        State {
            v: copy_bytes(&self.v),
            i: self.i,
            pc: self.pc,
            sp: self.sp,
            stack: copy_words(&self.stack),
            memory: copy_bytes(&self.memory),
            frame_buffer: copy_bytes(&self.frame_buffer),
            draw_flag: self.draw_flag,
            delay_timer: self.delay_timer,
            sound_timer: self.sound_timer,
            delay_counter: self.delay_counter,
            pressed_keys: copy_bytes(&self.pressed_keys),
            register_needing_key: self.register_needing_key,
        }
    }
}

} // verus!
