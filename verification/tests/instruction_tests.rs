use chip8::error::Chip8Error;
use chip8::instruction::execute;
use chip8::opcode::Opcode;
use chip8::state::State;

fn machine() -> (State, Vec<u8>) {
    (State::new(), vec![0u8; 16])
}

fn run(word: u16, state: &State, keys: &Vec<u8>) -> State {
    execute(&Opcode::new(word), state, keys).expect("opcode executes")
}

fn fail(word: u16, state: &State, keys: &Vec<u8>) -> Chip8Error {
    execute(&Opcode::new(word), state, keys).expect_err("opcode faults")
}

#[test]
fn test_cls_clears_set_pixel() {
    let (mut s, keys) = machine();
    s.frame_buffer[0] = 1;
    let r = run(0x00E0, &s, &keys);
    assert_eq!(r.frame_buffer[0], 0);
    assert!(r.frame_buffer.iter().all(|&p| p == 0));
    assert!(r.draw_flag);
    assert_eq!(r.pc, 0x202);
}

#[test]
fn test_add_immediate() {
    let (mut s, keys) = machine();
    s.v[1] = 0x01;
    let r = run(0x7122, &s, &keys);
    assert_eq!(r.v[1], 0x23);
    assert_eq!(r.pc, 0x202);
}

#[test]
fn test_add_immediate_drops_carry() {
    let (mut s, keys) = machine();
    s.v[1] = 0xFF;
    let r = run(0x7102, &s, &keys);
    assert_eq!(r.v[1], 0x01);
    // the plain add never touches VF
    assert_eq!(r.v[0xF], 0);
}

#[test]
fn test_bcd_writes_decimal_digits() {
    let (mut s, keys) = machine();
    s.v[1] = 0x7B;
    s.i = 0x200;
    let r = run(0xF133, &s, &keys);
    assert_eq!(&r.memory[0x200..0x203], &[1, 2, 3]);
    assert_eq!(r.pc, 0x202);
}

#[test]
fn test_pc_advances_for_non_jump_instructions() {
    let (s, keys) = machine();
    for word in [0x6A12u16, 0x8120, 0xA123, 0xF115, 0xF107, 0xC100, 0x00E0, 0xF10A] {
        let r = run(word, &s, &keys);
        assert_eq!(r.pc, 0x202, "opcode {word:#06X}");
    }
}

#[test]
fn test_skips_advance_pc_by_four_on_match() {
    let (mut s, keys) = machine();
    s.v[1] = 0x01;
    s.v[2] = 0x01;
    assert_eq!(run(0x3101, &s, &keys).pc, 0x204); // SE Vx, kk: equal
    assert_eq!(run(0x3102, &s, &keys).pc, 0x202); // SE Vx, kk: different
    assert_eq!(run(0x4101, &s, &keys).pc, 0x202); // SNE Vx, kk: equal
    assert_eq!(run(0x4102, &s, &keys).pc, 0x204); // SNE Vx, kk: different
    assert_eq!(run(0x5120, &s, &keys).pc, 0x204); // SE Vx, Vy: equal
    assert_eq!(run(0x9120, &s, &keys).pc, 0x202); // SNE Vx, Vy: equal
    s.v[2] = 0x02;
    assert_eq!(run(0x5120, &s, &keys).pc, 0x202);
    assert_eq!(run(0x9120, &s, &keys).pc, 0x204);
}

#[test]
fn test_draw_twice_restores_frame_buffer() {
    let (mut s, keys) = machine();
    s.memory[0x300] = 0xFF;
    s.memory[0x301] = 0x81;
    s.i = 0x300;
    s.v[0] = 3;
    s.v[1] = 5;
    s.frame_buffer[5 * 64 + 4] = 1;
    let before = s.frame_buffer.clone();
    let once = run(0xD012, &s, &keys);
    assert!(once.draw_flag);
    // the sprite bit over the set pixel collided
    assert_eq!(once.v[0xF], 1);
    assert_ne!(once.frame_buffer, before);
    let twice = run(0xD012, &once, &keys);
    // XOR is its own inverse: the buffer is back bit for bit
    assert_eq!(twice.frame_buffer, before);
    // VF reflects only the second draw's collisions, which hit every set bit
    assert_eq!(twice.v[0xF], 1);
}

#[test]
fn test_draw_reports_no_collision_on_empty_buffer() {
    let (mut s, keys) = machine();
    s.memory[0x300] = 0xFF;
    s.i = 0x300;
    s.v[0xF] = 1;
    let r = run(0xD011, &s, &keys);
    // VF is reset before the collision scan
    assert_eq!(r.v[0xF], 0);
    assert!(r.draw_flag);
    for bit in 0..8 {
        assert_eq!(r.frame_buffer[bit], 1);
    }
}

#[test]
fn test_draw_wraps_coordinates() {
    let (mut s, keys) = machine();
    s.memory[0x300] = 0xFF;
    s.i = 0x300;
    s.v[0] = 62;
    s.v[1] = 31;
    let r = run(0xD011, &s, &keys);
    // row 31, columns 62, 63, then wrapping to 0..=5
    assert_eq!(r.frame_buffer[31 * 64 + 62], 1);
    assert_eq!(r.frame_buffer[31 * 64 + 63], 1);
    for x in 0..6 {
        assert_eq!(r.frame_buffer[31 * 64 + x], 1);
    }
    assert_eq!(r.frame_buffer[31 * 64 + 6], 0);
}

#[test]
fn test_sub_subn_flags_are_complements_for_distinct_values() {
    let (mut s, keys) = machine();
    s.v[1] = 5;
    s.v[2] = 3;
    let sub = run(0x8125, &s, &keys);
    assert_eq!(sub.v[1], 2);
    assert_eq!(sub.v[0xF], 1); // no borrow
    let subn = run(0x8127, &s, &keys);
    assert_eq!(subn.v[1], 254); // 3 - 5 wraps
    assert_eq!(subn.v[0xF], 0); // borrow
    // swapped magnitudes flip both flags
    s.v[1] = 3;
    s.v[2] = 5;
    assert_eq!(run(0x8125, &s, &keys).v[0xF], 0);
    assert_eq!(run(0x8127, &s, &keys).v[0xF], 1);
}

#[test]
fn test_sub_subn_flags_agree_for_equal_values() {
    let (mut s, keys) = machine();
    s.v[1] = 4;
    s.v[2] = 4;
    assert_eq!(run(0x8125, &s, &keys).v[0xF], 1);
    assert_eq!(run(0x8127, &s, &keys).v[0xF], 1);
}

#[test]
fn test_add_register_sets_carry() {
    let (mut s, keys) = machine();
    s.v[1] = 200;
    s.v[2] = 100;
    let r = run(0x8124, &s, &keys);
    assert_eq!(r.v[1], 44);
    assert_eq!(r.v[0xF], 1);
    s.v[2] = 10;
    let r = run(0x8124, &s, &keys);
    assert_eq!(r.v[1], 210);
    assert_eq!(r.v[0xF], 0);
}

#[test]
fn test_vf_as_destination_keeps_arithmetic_result() {
    let (mut s, keys) = machine();
    s.v[0xF] = 200;
    let r = run(0x8FF4, &s, &keys);
    // flag and result race on VF: the result write lands last
    assert_eq!(r.v[0xF], 144);
}

#[test]
fn test_shr_shifts_out_low_bit() {
    let (mut s, keys) = machine();
    s.v[1] = 5;
    let r = run(0x8106, &s, &keys);
    assert_eq!(r.v[1], 2);
    assert_eq!(r.v[0xF], 1);
    let r = run(0x8106, &r, &keys);
    assert_eq!(r.v[1], 1);
    assert_eq!(r.v[0xF], 0);
}

#[test]
fn test_shl_shifts_out_high_bit() {
    let (mut s, keys) = machine();
    s.v[1] = 0x81;
    let r = run(0x810E, &s, &keys);
    assert_eq!(r.v[1], 0x02);
    assert_eq!(r.v[0xF], 1);
    let r = run(0x810E, &r, &keys);
    assert_eq!(r.v[1], 0x04);
    assert_eq!(r.v[0xF], 0);
}

#[test]
fn test_logic_ops() {
    let (mut s, keys) = machine();
    s.v[1] = 0b1100;
    s.v[2] = 0b1010;
    assert_eq!(run(0x8121, &s, &keys).v[1], 0b1110); // OR
    assert_eq!(run(0x8122, &s, &keys).v[1], 0b1000); // AND
    assert_eq!(run(0x8123, &s, &keys).v[1], 0b0110); // XOR
    assert_eq!(run(0x8120, &s, &keys).v[1], 0b1010); // LD Vx, Vy
}

#[test]
fn test_load_immediate() {
    let (s, keys) = machine();
    let r = run(0x6142, &s, &keys);
    assert_eq!(r.v[1], 0x42);
    assert_eq!(r.pc, 0x202);
}

#[test]
fn test_call_and_return() {
    let (s, keys) = machine();
    let called = run(0x2300, &s, &keys);
    assert_eq!(called.pc, 0x300);
    assert_eq!(called.sp, 1);
    assert_eq!(called.stack[1], 0x200);
    let returned = run(0x00EE, &called, &keys);
    assert_eq!(returned.pc, 0x202);
    assert_eq!(returned.sp, 0);
}

#[test]
fn test_jump_absolute() {
    let (s, keys) = machine();
    let r = run(0x1234, &s, &keys);
    assert_eq!(r.pc, 0x234);
}

#[test]
fn test_jump_with_offset() {
    let (mut s, keys) = machine();
    s.v[0] = 4;
    let r = run(0xB210, &s, &keys);
    assert_eq!(r.pc, 0x214);
}

#[test]
fn test_timer_transfers() {
    let (mut s, keys) = machine();
    s.delay_timer = 9;
    assert_eq!(run(0xF107, &s, &keys).v[1], 9); // LD Vx, DT
    s.v[1] = 33;
    assert_eq!(run(0xF115, &s, &keys).delay_timer, 33); // LD DT, Vx
    assert_eq!(run(0xF118, &s, &keys).sound_timer, 33); // LD ST, Vx
}

#[test]
fn test_loadi_and_addi() {
    let (mut s, keys) = machine();
    let r = run(0xA123, &s, &keys);
    assert_eq!(r.i, 0x123);
    s.i = 10;
    s.v[1] = 5;
    assert_eq!(run(0xF11E, &s, &keys).i, 15);
}

#[test]
fn test_font_sprite_address() {
    let (mut s, keys) = machine();
    s.v[1] = 0xA;
    let r = run(0xF129, &s, &keys);
    assert_eq!(r.i, 50);
    // five bytes per glyph: the glyph for A starts at 50
    assert_eq!(&r.memory[50..55], &[0xF0, 0x90, 0xF0, 0x90, 0x90]);
}

#[test]
fn test_store_and_read_registers_roundtrip() {
    let (mut s, keys) = machine();
    s.v[0] = 10;
    s.v[1] = 11;
    s.v[2] = 12;
    s.v[3] = 13;
    s.i = 0x250;
    let stored = run(0xF355, &s, &keys);
    assert_eq!(&stored.memory[0x250..0x254], &[10, 11, 12, 13]);
    // registers past Vx are not stored
    assert_eq!(stored.memory[0x254], 0);
    let mut wiped = stored.clone();
    for k in 0..16 {
        wiped.v[k] = 0;
    }
    let read = run(0xF365, &wiped, &keys);
    assert_eq!(&read.v[0..4], &[10, 11, 12, 13]);
    assert_eq!(read.v[4], 0);
}

#[test]
fn test_rand_masked_by_zero_is_zero() {
    let (mut s, keys) = machine();
    s.v[1] = 0xAB;
    let r = run(0xC100, &s, &keys);
    // whatever byte the source drew, the zero mask clears it
    assert_eq!(r.v[1], 0);
    assert_eq!(r.pc, 0x202);
}

#[test]
fn test_skip_on_key_state() {
    let (mut s, mut keys) = machine();
    s.v[1] = 4;
    keys[4] = 1;
    assert_eq!(run(0xE19E, &s, &keys).pc, 0x204); // SKP: held
    assert_eq!(run(0xE1A1, &s, &keys).pc, 0x202); // SKNP: held
    keys[4] = 0;
    assert_eq!(run(0xE19E, &s, &keys).pc, 0x202);
    assert_eq!(run(0xE1A1, &s, &keys).pc, 0x204);
}

#[test]
fn test_key_wait_sets_pending_register() {
    let (s, keys) = machine();
    let r = run(0xF10A, &s, &keys);
    assert_eq!(r.register_needing_key, Some(1));
    assert_eq!(r.pc, 0x202);
}

#[test]
fn test_decode_error_surfaces_opcode_and_pc() {
    let (mut s, keys) = machine();
    s.pc = 0x240;
    assert_eq!(
        fail(0x0000, &s, &keys),
        Chip8Error::Decode { opcode: 0x0000, pc: 0x240 }
    );
    assert_eq!(
        fail(0x8F08, &s, &keys),
        Chip8Error::Decode { opcode: 0x8F08, pc: 0x240 }
    );
    assert_eq!(
        fail(0xF1FF, &s, &keys),
        Chip8Error::Decode { opcode: 0xF1FF, pc: 0x240 }
    );
}

#[test]
fn test_return_with_empty_stack_faults() {
    let (s, keys) = machine();
    assert_eq!(fail(0x00EE, &s, &keys), Chip8Error::Bounds { addr: 0 });
}

#[test]
fn test_call_past_stack_depth_faults() {
    let (mut s, keys) = machine();
    s.sp = 15;
    assert_eq!(fail(0x2300, &s, &keys), Chip8Error::Bounds { addr: 16 });
}

#[test]
fn test_draw_past_memory_end_faults() {
    let (mut s, keys) = machine();
    s.i = 4090;
    assert_eq!(fail(0xD00F, &s, &keys), Chip8Error::Bounds { addr: 4104 });
}

#[test]
fn test_bcd_past_memory_end_faults() {
    let (mut s, keys) = machine();
    s.i = 4094;
    assert_eq!(fail(0xF133, &s, &keys), Chip8Error::Bounds { addr: 4096 });
}

#[test]
fn test_block_transfer_past_memory_end_faults() {
    let (mut s, keys) = machine();
    s.i = 4090;
    assert_eq!(fail(0xF655, &s, &keys), Chip8Error::Bounds { addr: 4096 });
    assert_eq!(fail(0xF665, &s, &keys), Chip8Error::Bounds { addr: 4096 });
}

#[test]
fn test_key_skip_with_bad_register_value_faults() {
    let (mut s, keys) = machine();
    s.v[1] = 16;
    assert_eq!(fail(0xE19E, &s, &keys), Chip8Error::Bounds { addr: 16 });
    assert_eq!(fail(0xE1A1, &s, &keys), Chip8Error::Bounds { addr: 16 });
}

#[test]
fn test_address_register_overflow_faults() {
    let (mut s, keys) = machine();
    s.i = 0xFFFF;
    s.v[1] = 1;
    assert_eq!(fail(0xF11E, &s, &keys), Chip8Error::Bounds { addr: 0x10000 });
}
