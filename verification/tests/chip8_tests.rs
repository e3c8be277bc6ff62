use chip8::chip8::Chip8;
use chip8::constants::{CPU_CYCLES_PER_TIMER_CYCLE, MAX_SAVED_STATES};
use chip8::error::Chip8Error;

#[test]
fn test_chip8_gets_op() {
    let mut chip8 = Chip8::new();
    chip8.state.memory[0x200] = 0xAA;
    chip8.state.memory[0x201] = 0xBB;
    assert_eq!(chip8.get_op(), 0xAABB);
}

#[test]
fn test_cycles_while_no_register_needs_key() {
    let mut chip8 = Chip8::new();
    let starting_pc = chip8.state.pc;
    // insert a cls opcode so we don't fault on reading from empty memory
    chip8.state.memory[0x200] = 0x00;
    chip8.state.memory[0x201] = 0xE0;
    let _ = chip8.advance_cpu();
    assert_eq!(chip8.state.pc, starting_pc + 0x2);
}

#[test]
fn test_captures_key_presses() {
    let mut chip8 = Chip8::new();
    chip8.state.register_needing_key = Some(0x1);
    chip8.key_press(0xE);
    assert_eq!(chip8.state.register_needing_key, None);
    assert_eq!(chip8.state.v[0x1], 0xE);
}

#[test]
fn test_doesnt_cycle_while_register_needs_key() {
    let mut chip8 = Chip8::new();
    let starting_pc = chip8.state.pc;
    chip8.state.register_needing_key = Some(0x1);
    let _ = chip8.advance_cpu();
    assert_eq!(chip8.state.pc, starting_pc);
}

#[test]
fn test_chip8_saves_state() {
    let mut chip8 = Chip8::new();
    chip8.save_state();
    assert_eq!(chip8.previous_states.len(), 1);
}

#[test]
fn test_chip8_clears_pressed_keys_when_saving_state() {
    let mut chip8 = Chip8::new();
    chip8.state.pressed_keys[0] = 0x1;
    chip8.save_state();
    assert_eq!(chip8.previous_states[0].pressed_keys[0], 0);
}

#[test]
fn test_chip8_drops_old_saved_states() {
    let mut chip8 = Chip8::new();
    for _ in 0..MAX_SAVED_STATES {
        chip8.save_state();
    }
    assert_eq!(MAX_SAVED_STATES, chip8.previous_states.len());
    chip8.save_state();
    assert_eq!(MAX_SAVED_STATES, chip8.previous_states.len());
}

#[test]
fn test_chip8_loads_states() {
    let mut chip8 = Chip8::new();
    let saved_state = chip8.state.clone();
    chip8.previous_states.push_front(saved_state);
    chip8.state.delay_counter += 1;
    assert_eq!(chip8.state.delay_counter, 1);
    chip8.load_state();
    assert_eq!(chip8.state.delay_counter, 0);
}

#[test]
fn test_history_keeps_most_recent_states() {
    let mut chip8 = Chip8::new();
    // distinguishable snapshots: the delay timer counts the recordings
    for k in 0..(MAX_SAVED_STATES + 3) {
        chip8.state.delay_timer = (k % 200) as u8;
        chip8.save_state();
    }
    assert_eq!(chip8.previous_states.len(), MAX_SAVED_STATES);
    // newest first: the last recording heads the queue
    let newest = (MAX_SAVED_STATES + 2) % 200;
    assert_eq!(chip8.previous_states[0].delay_timer, newest as u8);
    // the oldest surviving entry is recording number 3
    let oldest = chip8.previous_states[MAX_SAVED_STATES - 1].delay_timer;
    assert_eq!(oldest, 3 % 200);
}

#[test]
fn test_rewind_restores_recorded_state() {
    let mut chip8 = Chip8::new();
    for k in 0..4 {
        chip8.state.delay_timer = k;
        chip8.state.pressed_keys[2] = 0x1;
        chip8.save_state();
    }
    chip8.state.delay_timer = 99;
    chip8.reverse_cpu();
    // the most recent recording comes back, with pressed keys unset
    assert_eq!(chip8.state.delay_timer, 3);
    assert_eq!(chip8.state.pressed_keys[2], 0);
    assert_eq!(chip8.previous_states.len(), 3);
}

#[test]
fn test_rewind_on_empty_history_is_noop() {
    let mut chip8 = Chip8::new();
    chip8.state.delay_timer = 7;
    chip8.reverse_cpu();
    assert_eq!(chip8.state.delay_timer, 7);
    assert_eq!(chip8.previous_states.len(), 0);
}

#[test]
fn test_advance_then_rewind_round_trips() {
    let mut chip8 = Chip8::new();
    // ADD V1, 0x22 at the program start
    chip8.state.memory[0x200] = 0x71;
    chip8.state.memory[0x201] = 0x22;
    chip8.state.v[1] = 0x01;
    chip8.state.pressed_keys[5] = 0x1;
    let pc0 = chip8.state.pc;
    let v0 = chip8.state.v.clone();
    let memory0 = chip8.state.memory.clone();
    let frame0 = chip8.state.frame_buffer.clone();
    assert!(chip8.advance_cpu().is_ok());
    assert_eq!(chip8.state.v[1], 0x23);
    chip8.reverse_cpu();
    // program counter, registers, memory and frame buffer come back bit for bit
    assert_eq!(chip8.state.pc, pc0);
    assert_eq!(chip8.state.v, v0);
    assert_eq!(chip8.state.memory, memory0);
    assert_eq!(chip8.state.frame_buffer, frame0);
    // pressed keys are intentionally not restored
    assert_eq!(chip8.state.pressed_keys[5], 0);
}

#[test]
fn test_key_wait_blocks_until_key_press() {
    let mut chip8 = Chip8::new();
    // LD V1, K then CLS
    chip8.state.memory[0x200] = 0xF1;
    chip8.state.memory[0x201] = 0x0A;
    chip8.state.memory[0x202] = 0x00;
    chip8.state.memory[0x203] = 0xE0;
    assert!(chip8.advance_cpu().is_ok());
    assert_eq!(chip8.state.register_needing_key, Some(1));
    assert_eq!(chip8.state.pc, 0x202);
    // blocked: the program counter does not move
    assert!(chip8.advance_cpu().is_ok());
    assert_eq!(chip8.state.pc, 0x202);
    // the key press fills V1 and unblocks the machine
    chip8.key_press(0xE);
    assert_eq!(chip8.state.v[1], 0xE);
    assert_eq!(chip8.state.register_needing_key, None);
    assert!(chip8.advance_cpu().is_ok());
    assert_eq!(chip8.state.pc, 0x204);
}

#[test]
fn test_key_release_unsets_key() {
    let mut chip8 = Chip8::new();
    chip8.key_press(0x3);
    assert_eq!(chip8.state.pressed_keys[0x3], 1);
    chip8.key_release(0x3);
    assert_eq!(chip8.state.pressed_keys[0x3], 0);
}

#[test]
fn test_advance_timers_paces_decrements() {
    let mut chip8 = Chip8::new();
    chip8.state.delay_timer = 5;
    chip8.state.sound_timer = 1;
    chip8.state.delay_counter = 2;
    chip8.advance_timers();
    assert_eq!(chip8.state.delay_counter, 1);
    assert_eq!(chip8.state.delay_timer, 5);
    chip8.advance_timers();
    assert_eq!(chip8.state.delay_counter, 0);
    assert_eq!(chip8.state.delay_timer, 5);
    chip8.advance_timers();
    // the counter ran out: it resets and both timers fall, saturating at 0
    assert_eq!(chip8.state.delay_counter, CPU_CYCLES_PER_TIMER_CYCLE);
    assert_eq!(chip8.state.delay_timer, 4);
    assert_eq!(chip8.state.sound_timer, 0);
    chip8.advance_timers();
    assert_eq!(chip8.state.sound_timer, 0);
}

#[test]
fn test_load_rom_copies_bytes_at_program_start() {
    let mut chip8 = Chip8::new();
    let rom = vec![0x12, 0x34, 0x56];
    assert!(chip8.load_rom(&rom).is_ok());
    assert_eq!(chip8.state.memory[0x200], 0x12);
    assert_eq!(chip8.state.memory[0x201], 0x34);
    assert_eq!(chip8.state.memory[0x202], 0x56);
    // the font table below the program start is untouched
    assert_eq!(chip8.state.memory[0], 0xF0);
}

#[test]
fn test_load_rom_rejects_oversized_image() {
    let mut chip8 = Chip8::new();
    let rom = vec![0u8; 4096 - 512 + 1];
    assert_eq!(
        chip8.load_rom(&rom),
        Err(Chip8Error::Load { len: 4096 - 512 + 1 })
    );
    // the machine is left unmodified
    assert_eq!(chip8.state.memory[0x200], 0);
}

#[test]
fn test_get_frame_only_when_draw_flag_set() {
    let mut chip8 = Chip8::new();
    assert!(chip8.get_frame().is_none());
    chip8.state.draw_flag = true;
    chip8.state.frame_buffer[0] = 1;
    let frame = chip8.get_frame().expect("draw flag is set");
    assert_eq!(frame[0], 1);
    assert_eq!(frame.len(), 64 * 32);
}

#[test]
fn test_fetch_past_memory_end_faults() {
    let mut chip8 = Chip8::new();
    chip8.state.pc = 0xFFF;
    assert_eq!(
        chip8.advance_cpu(),
        Err(Chip8Error::Bounds { addr: 0x1000 })
    );
    assert_eq!(chip8.state.pc, 0xFFF);
    assert_eq!(chip8.previous_states.len(), 0);
}

#[test]
fn test_initial_state_layout() {
    let chip8 = Chip8::new();
    assert_eq!(chip8.state.pc, 0x200);
    assert_eq!(chip8.state.sp, 0);
    assert_eq!(chip8.state.i, 0);
    assert_eq!(chip8.state.memory.len(), 4096);
    assert_eq!(chip8.state.frame_buffer.len(), 2048);
    // the font glyph for 0 sits at the bottom of memory
    assert_eq!(&chip8.state.memory[0..5], &[0xF0, 0x90, 0x90, 0x90, 0xF0]);
    // the font glyph for F ends the table
    assert_eq!(&chip8.state.memory[75..80], &[0xF0, 0x80, 0x80, 0x80, 0x80]);
    assert_eq!(chip8.state.memory[80], 0);
}
