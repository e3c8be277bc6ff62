//! The cycle driver: the one stateful component. It owns the live machine
//! state and the bounded history of past states, fetches and executes one
//! instruction per cycle, paces the timers, routes key events, and rewinds.

use std::collections::VecDeque;

use vstd::prelude::*;

use crate::constants::{CPU_CYCLES_PER_TIMER_CYCLE, MAX_SAVED_STATES};
use crate::error::Chip8Error;
use crate::instruction::{execute, step_err, step_ok};
use crate::opcode::Opcode;
use crate::state::{
    copy_bytes, spec_initial_state, zero_bytes, FrameBuffer, State, StateView, MEMORY_LEN,
    PROGRAM_START,
};

verus! {

/// The mathematical model of the driver: the live state and the archived
/// past states, newest first.
pub ghost struct Chip8View {
    /// The live machine state.
    pub state: StateView,
    /// The archived past states, most recent at index 0.
    pub prev: Seq<StateView>,
}

impl Chip8View {
    /// The live state and every archived state are well formed, and the
    /// history never exceeds its capacity.
    pub open spec fn wf(self) -> bool {
        &&& self.state.wf()
        &&& self.prev.len() <= MAX_SAVED_STATES
        &&& forall|j: int| 0 <= j < self.prev.len() ==> self.prev[j].wf()
    }
}

/// A state as the history archives it: the pressed keys wiped, since key
/// state is live input, not simulated history.
pub open spec fn archived(s: StateView) -> StateView {
    StateView { pressed_keys: Seq::new(16, |j: int| 0u8), ..s }
}

/// The history after a record: the archived state in front, and the oldest
/// entry dropped first when the buffer is at capacity.
pub open spec fn push_bounded(q: Seq<StateView>, s: StateView) -> Seq<StateView> {
    if q.len() >= MAX_SAVED_STATES {
        seq![s] + q.subrange(0, q.len() - 1)
    } else {
        seq![s] + q
    }
}

/// How a record step relates the driver before and after: the live state is
/// untouched and its archived copy heads the bounded history.
pub open spec fn record_rel(c0: Chip8View, c1: Chip8View) -> bool {
    &&& c1.state == c0.state
    &&& c1.prev == push_bounded(c0.prev, archived(c0.state))
}

/// How a rewind relates the driver before and after: with no history the
/// machine does not move; otherwise the newest archived state becomes live
/// and leaves the history.
pub open spec fn rewind_rel(c0: Chip8View, c1: Chip8View) -> bool {
    if c0.prev.len() == 0 {
        c1 == c0
    } else {
        &&& c1.state == c0.prev[0]
        &&& c1.prev == c0.prev.subrange(1, c0.prev.len() as int)
    }
}

/// The instruction word at the program counter: two consecutive memory
/// bytes, high byte first.
pub open spec fn fetched_op(s: StateView) -> u16 {
    ((s.memory[s.pc as int] as u16) << 8) | (s.memory[s.pc as int + 1] as u16)
}

/// The fault a CPU step on this state reports, or `None` when the cycle
/// succeeds. A machine awaiting a key executes nothing and cannot fault; a
/// program counter whose word would leave memory is a bounds fault; anything
/// else is decided by the fetched opcode.
pub open spec fn advance_err(s: StateView) -> Option<Chip8Error> {
    if s.register_needing_key is Some {
        None
    } else if s.pc + 1 >= MEMORY_LEN {
        Some(Chip8Error::Bounds { addr: (s.pc + 1) as u32 })
    } else {
        step_err(fetched_op(s), s)
    }
}

/// How a successful CPU step relates the driver before and after: the state
/// before the step is archived, and the live state is the executed
/// transition of the fetched opcode, or unchanged while a key is awaited.
pub open spec fn advance_ok_rel(c0: Chip8View, c1: Chip8View) -> bool {
    let s = c0.state;
    &&& c1.prev == push_bounded(c0.prev, archived(s))
    &&& if s.register_needing_key is Some {
        c1.state == s
    } else {
        exists|b: u8| c1.state == step_ok(fetched_op(s), s, s.pressed_keys, b)
    }
}

/// A key press: the key's slot shows 1, and when the machine was blocked
/// awaiting a key, the key lands in the awaited register and the block
/// clears.
pub open spec fn spec_key_press(s: StateView, key: u8) -> StateView {
    let s1 = StateView { pressed_keys: s.pressed_keys.update(key as int, 1u8), ..s };
    match s.register_needing_key {
        Some(r) => StateView { v: s1.v.update(r as int, key), register_needing_key: None, ..s1 },
        None => s1,
    }
}

/// A key release: the key's slot shows 0.
pub open spec fn spec_key_release(s: StateView, key: u8) -> StateView {
    StateView { pressed_keys: s.pressed_keys.update(key as int, 0u8), ..s }
}

/// One tick of the timer pacing: when the sub-cycle counter reaches zero it
/// resets and both timers saturate down by one; otherwise only the counter
/// falls.
pub open spec fn spec_advance_timers(s: StateView) -> StateView {
    if s.delay_counter == 0 {
        StateView {
            delay_counter: CPU_CYCLES_PER_TIMER_CYCLE,
            delay_timer: if s.delay_timer > 0 {
                (s.delay_timer - 1) as u8
            } else {
                0
            },
            sound_timer: if s.sound_timer > 0 {
                (s.sound_timer - 1) as u8
            } else {
                0
            },
            ..s
        }
    } else {
        StateView { delay_counter: (s.delay_counter - 1) as u8, ..s }
    }
}

/// The memory after a program image is copied in at the program start;
/// nothing below the program start, the font table included, is touched.
pub open spec fn spec_load_rom(s: StateView, rom: Seq<u8>) -> StateView {
    StateView {
        memory: Seq::new(
            MEMORY_LEN as nat,
            |j: int|
                if PROGRAM_START <= j < PROGRAM_START + rom.len() {
                    rom[j - PROGRAM_START]
                } else {
                    s.memory[j]
                },
        ),
        ..s
    }
}

/// # Chip-8
/// Chip-8 is a virtual machine and corresponding interpreted language.
///
/// Tracks the current state as well as previous states for the purposes of
/// rewinding. Supplies interfaces for:
/// - loading roms
/// - pressing and releasing keys
/// - advancing and reversing the CPU
/// - advancing its timers
/// - inspecting its frame buffer for rendering by some display
pub struct Chip8 {
    /// The live machine state.
    pub state: State,
    /// The archived past states, most recent in front.
    pub previous_states: VecDeque<State>,
}

impl View for Chip8 {
    type V = Chip8View;

    open spec fn view(&self) -> Chip8View {
        Chip8View {
            state: self.state@,
            prev: self.previous_states@.map_values(|st: State| st@),
        }
    }
}

impl Chip8 {
    /// A machine at startup: the initial state and an empty history.
    pub fn new() -> (c: Chip8)
        ensures
            c@.wf(),
            c@.state == spec_initial_state(),
            c@.prev == Seq::<StateView>::empty(),
    {
        let c = Chip8 {
            state: State::new(),
            previous_states: VecDeque::with_capacity(MAX_SAVED_STATES),
        };
        proof {
            assert(c@.prev =~= Seq::<StateView>::empty());
        }
        c
    }

    /// Load a program image into memory at the program start. Succeeds
    /// exactly when the image fits in the memory above the program start;
    /// a too-large image is refused with its byte count and the machine is
    /// left unmodified.
    pub fn load_rom(&mut self, rom: &Vec<u8>) -> (result: Result<(), Chip8Error>)
        requires
            old(self)@.wf(),
        ensures
            final(self)@.wf(),
            (result is Ok) == (rom@.len() <= MEMORY_LEN - PROGRAM_START),
            result is Ok ==> final(self)@.state == spec_load_rom(old(self)@.state, rom@)
                && final(self)@.prev == old(self)@.prev,
            result is Err ==> final(self)@ == old(self)@ && result == Err::<(), Chip8Error>(
                Chip8Error::Load { len: rom@.len() as usize },
            ),
    {
        if rom.len() > MEMORY_LEN - PROGRAM_START {
            return Err(Chip8Error::Load { len: rom.len() });
        }
        let ghost c0 = self@;
        let mut k: usize = 0;
        while k < rom.len()
            invariant
                c0.wf(),
                k <= rom@.len(),
                rom@.len() <= MEMORY_LEN - PROGRAM_START,
                self@.state.memory.len() == MEMORY_LEN,
                self@.state == (StateView { memory: self@.state.memory, ..c0.state }),
                self@.prev == c0.prev,
                forall|j: int|
                    0 <= j < MEMORY_LEN ==> self@.state.memory[j] == if PROGRAM_START <= j
                        < PROGRAM_START + k {
                        rom@[j - PROGRAM_START]
                    } else {
                        c0.state.memory[j]
                    },
            decreases rom@.len() - k,
        {
            self.state.memory.set(PROGRAM_START + k, rom[k]);
            k = k + 1;
        }
        proof {
            assert(self@.state.memory =~= spec_load_rom(c0.state, rom@).memory);
            assert(self@.state == spec_load_rom(c0.state, rom@));
        }
        Ok(())
    }

    /// Returns a copy of the frame buffer exactly when the display should be
    /// redrawn, that is when the draw flag is set.
    pub fn get_frame(&self) -> (r: Option<FrameBuffer>)
        requires
            self@.wf(),
        ensures
            self@.state.draw_flag ==> (r matches Some(fb) && fb@ == self@.state.frame_buffer),
            !self@.state.draw_flag ==> r is None,
    {
        if self.state.draw_flag {
            Some(copy_bytes(&self.state.frame_buffer))
        } else {
            None
        }
    }

    /// Set the pressed status of a key. When the machine is blocked awaiting
    /// a key, the key also lands in the awaited register and unblocks it.
    ///
    /// # Arguments
    /// * `key` the key that was pressed, 0x0 through 0xF
    pub fn key_press(&mut self, key: u8)
        requires
            old(self)@.wf(),
            key < 16,
        ensures
            final(self)@.wf(),
            final(self)@.state == spec_key_press(old(self)@.state, key),
            final(self)@.prev == old(self)@.prev,
    {
        self.state.pressed_keys.set(key as usize, 1);
        if let Some(register) = self.state.register_needing_key {
            self.state.v.set(register as usize, key);
            self.state.register_needing_key = None;
        }
    }

    /// Unset the pressed status of a key.
    ///
    /// # Arguments
    /// * `key` the key that was released, 0x0 through 0xF
    pub fn key_release(&mut self, key: u8)
        requires
            old(self)@.wf(),
            key < 16,
        ensures
            final(self)@.wf(),
            final(self)@.state == spec_key_release(old(self)@.state, key),
            final(self)@.prev == old(self)@.prev,
    {
        self.state.pressed_keys.set(key as usize, 0);
    }

    /// Advances the CPU by a single cycle: archives the current state, then
    /// fetches and executes the next opcode, unless the machine awaits a
    /// keypress, in which case the unchanged state is archived. A decode or
    /// bounds fault aborts the whole cycle: nothing is archived and the
    /// machine does not move.
    pub fn advance_cpu(&mut self) -> (result: Result<(), Chip8Error>)
        requires
            old(self)@.wf(),
        ensures
            final(self)@.wf(),
            (result is Ok) == (advance_err(old(self)@.state) is None),
            result is Ok ==> advance_ok_rel(old(self)@, final(self)@),
            result matches Err(e) ==> final(self)@ == old(self)@ && advance_err(old(self)@.state)
                == Some(e),
    {
        if self.state.register_needing_key.is_none() {
            if self.state.pc as usize + 1 >= MEMORY_LEN {
                return Err(Chip8Error::Bounds { addr: self.state.pc as u32 + 1 });
            }
            let w = self.get_op();
            let op = Opcode::new(w);
            match execute(&op, &self.state, &self.state.pressed_keys) {
                Ok(next) => {
                    let ghost b = choose|b: u8|
                        next@ == step_ok(w, self@.state, self@.state.pressed_keys, b);
                    self.save_state();
                    self.state = next;
                    proof {
                        assert(final(self)@.state == step_ok(
                            fetched_op(old(self)@.state),
                            old(self)@.state,
                            old(self)@.state.pressed_keys,
                            b,
                        ));
                    }
                    Ok(())
                },
                Err(e) => Err(e),
            }
        } else {
            self.save_state();
            Ok(())
        }
    }

    /// Reverses the CPU by a single cycle if possible: when there are
    /// previous states, the most recent one becomes the live state; with no
    /// history the machine does not move.
    pub fn reverse_cpu(&mut self)
        requires
            old(self)@.wf(),
        ensures
            final(self)@.wf(),
            rewind_rel(old(self)@, final(self)@),
    {
        self.load_state();
    }

    /// Puts the current state, with its pressed keys wiped, in front of the
    /// history; when the history is full the oldest entry is dropped first.
    pub fn save_state(&mut self)
        requires
            old(self)@.wf(),
        ensures
            final(self)@.wf(),
            record_rel(old(self)@, final(self)@),
    {
        let ghost c0 = self@;
        if self.previous_states.len() == MAX_SAVED_STATES {
            let _ = self.previous_states.pop_back();
        }
        let mut state = self.state.clone();
        state.pressed_keys = zero_bytes(16);
        proof {
            assert(state@ == archived(c0.state));
        }
        self.previous_states.push_front(state);
        proof {
            assert(self@.prev =~= push_bounded(c0.prev, archived(c0.state)));
        }
    }

    /// Takes the most recent entry out of the history and makes it the live
    /// state; with no history the machine does not move.
    pub fn load_state(&mut self)
        requires
            old(self)@.wf(),
        ensures
            final(self)@.wf(),
            rewind_rel(old(self)@, final(self)@),
    {
        let ghost c0 = self@;
        let maybe_old_state: Option<State> = self.previous_states.pop_front();
        match maybe_old_state {
            Some(state) => {
                self.state = state;
                proof {
                    assert(self@.prev =~= c0.prev.subrange(1, c0.prev.len() as int));
                    assert(self@.state == c0.prev[0]);
                    assert forall|j: int| 0 <= j < self@.prev.len() implies self@.prev[j].wf() by {
                        assert(self@.prev[j] == c0.prev[j + 1]);
                    }
                }
            },
            None => {
                proof {
                    assert(self@ == c0);
                }
            },
        }
    }

    /// Handles the delay counter and the timers: decrements the counter, and
    /// each time it runs out resets it and decrements both timers, which
    /// saturate at zero.
    pub fn advance_timers(&mut self)
        requires
            old(self)@.wf(),
        ensures
            final(self)@.wf(),
            final(self)@.state == spec_advance_timers(old(self)@.state),
            final(self)@.prev == old(self)@.prev,
    {
        if self.state.delay_counter == 0 {
            self.state.delay_counter = CPU_CYCLES_PER_TIMER_CYCLE;
            if self.state.delay_timer > 0 {
                self.state.delay_timer = self.state.delay_timer - 1;
            }
            if self.state.sound_timer > 0 {
                self.state.sound_timer = self.state.sound_timer - 1;
            }
        } else {
            self.state.delay_counter = self.state.delay_counter - 1;
        }
    }

    /// Gets the opcode currently pointed at by the program counter. Memory
    /// is stored as bytes, but opcodes are 16 bits, so two consecutive bytes
    /// are combined, high byte first.
    pub fn get_op(&self) -> (w: u16)
        requires
            self@.state.wf(),
            self@.state.pc + 1 < MEMORY_LEN,
        ensures
            w == fetched_op(self@.state),
    {
        let left = self.state.memory[self.state.pc as usize] as u16;
        let right = self.state.memory[self.state.pc as usize + 1] as u16;
        left << 8 | right
    }
}

/// The history keeps exactly the most recent recordings: a record onto a
/// full history drops exactly the oldest entry, every younger entry shifts
/// one place back, and the new archive heads the queue.
pub proof fn lemma_history_capacity(c0: Chip8View, c1: Chip8View)
    requires
        c0.wf(),
        record_rel(c0, c1),
    ensures
        c1.prev.len() == if c0.prev.len() >= MAX_SAVED_STATES {
            MAX_SAVED_STATES as int
        } else {
            c0.prev.len() as int + 1
        },
        c1.prev[0] == archived(c0.state),
        forall|j: int| 0 <= j < c1.prev.len() - 1 ==> c1.prev[j + 1] == c0.prev[j],
{
}

/// Recording then rewinding restores the machine to the recorded snapshot:
/// the state before the recording, with its pressed keys reset to all-unset;
/// the rest of the history is exactly what it was, at most trimmed of its
/// oldest entry.
pub proof fn lemma_record_then_rewind(c0: Chip8View, c1: Chip8View, c2: Chip8View)
    requires
        c0.wf(),
        record_rel(c0, c1),
        rewind_rel(c1, c2),
    ensures
        c2.state == archived(c0.state),
        c2.state.pc == c0.state.pc,
        c2.state.v == c0.state.v,
        c2.state.memory == c0.state.memory,
        c2.state.frame_buffer == c0.state.frame_buffer,
        c2.state.pressed_keys == Seq::new(16, |j: int| 0u8),
        c2.prev == if c0.prev.len() >= MAX_SAVED_STATES {
            c0.prev.subrange(0, c0.prev.len() - 1)
        } else {
            c0.prev
        },
{
    assert(c1.prev.len() > 0);
    assert(c1.prev[0] == archived(c0.state));
    if c0.prev.len() >= MAX_SAVED_STATES {
        assert(c2.prev =~= c0.prev.subrange(0, c0.prev.len() - 1));
    } else {
        assert(c2.prev =~= c0.prev);
    }
}

/// One successful CPU step followed by a rewind restores the program
/// counter, the registers, memory and the frame buffer bit for bit; the
/// pressed keys are deliberately not restored but come back all-unset.
pub proof fn lemma_advance_then_rewind(c0: Chip8View, c1: Chip8View, c2: Chip8View)
    requires
        c0.wf(),
        advance_ok_rel(c0, c1),
        rewind_rel(c1, c2),
    ensures
        c2.state == archived(c0.state),
        c2.state.pc == c0.state.pc,
        c2.state.v == c0.state.v,
        c2.state.memory == c0.state.memory,
        c2.state.frame_buffer == c0.state.frame_buffer,
        c2.state.pressed_keys == Seq::new(16, |j: int| 0u8),
{
    assert(c1.prev.len() > 0);
    assert(c1.prev[0] == archived(c0.state));
}

} // verus!
