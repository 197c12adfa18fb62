use chip8::cpu::{BCDRepresentable, RandomSource, CPU};
use chip8::gpu::GPU;
use chip8::instructions::{parse_opcode, Opcode};
use chip8::memory::{Memory, STACK_SIZE};

fn cpu_with(x: u8, vx: u8, y: u8, vy: u8) -> CPU {
    let mut cpu = CPU::new();
    cpu.memory.write_reg(x, vx);
    cpu.memory.write_reg(y, vy);
    cpu
}

#[test]
fn add_sets_flag_exactly_on_carry() {
    let mut cpu = cpu_with(0, 200, 1, 100);
    cpu.execute(0x8014);
    assert_eq!(cpu.memory.read_reg(0), 44);
    assert_eq!(cpu.memory.read_reg(0xF), 1);

    let mut cpu = cpu_with(0, 155, 1, 100);
    cpu.execute(0x8014);
    assert_eq!(cpu.memory.read_reg(0), 255);
    assert_eq!(cpu.memory.read_reg(0xF), 0);
}

#[test]
fn sub_and_subn_flags_on_equal_operands() {
    let mut cpu = cpu_with(2, 9, 3, 9);
    cpu.execute(0x8235);
    assert_eq!(cpu.memory.read_reg(2), 0);
    assert_eq!(cpu.memory.read_reg(0xF), 1);

    let mut cpu = cpu_with(2, 9, 3, 9);
    cpu.execute(0x8237);
    assert_eq!(cpu.memory.read_reg(2), 0);
    assert_eq!(cpu.memory.read_reg(0xF), 1);

    let mut cpu = cpu_with(2, 10, 3, 9);
    cpu.execute(0x8237);
    assert_eq!(cpu.memory.read_reg(2), 255);
    assert_eq!(cpu.memory.read_reg(0xF), 0);
}

#[test]
fn flag_wins_when_vf_is_the_destination() {
    let mut cpu = cpu_with(0xF, 200, 1, 100);
    cpu.execute(0x8F14);
    assert_eq!(cpu.memory.read_reg(0xF), 1);
}

#[test]
fn shifts_report_the_bit_shifted_out() {
    let mut cpu = cpu_with(4, 0b1000_0011, 5, 0);
    cpu.execute(0x8406);
    assert_eq!(cpu.memory.read_reg(4), 0b0100_0001);
    assert_eq!(cpu.memory.read_reg(0xF), 1);

    let mut cpu = cpu_with(4, 0b1000_0011, 5, 0);
    cpu.execute(0x840E);
    assert_eq!(cpu.memory.read_reg(4), 0b0000_0110);
    assert_eq!(cpu.memory.read_reg(0xF), 1);
}

#[test]
fn draw_twice_restores_the_screen() {
    let mut gpu = GPU::new();
    gpu.video_buffer[3][4] = 1;
    let before = gpu.video_buffer;
    let first = gpu.draw_sprite((4, 2), vec![0x3C, 0x42]);
    assert_eq!(first, 0);
    let second = gpu.draw_sprite((4, 2), vec![0x3C, 0x42]);
    assert_eq!(second, 1);
    assert_eq!(gpu.video_buffer, before);
}

#[test]
fn draw_reports_collision_on_lit_pixel() {
    let mut gpu = GPU::new();
    gpu.video_buffer[0][2] = 1;
    let collision = gpu.draw_sprite((0, 0), vec![0x20]);
    assert_eq!(collision, 1);
    assert_eq!(gpu.video_buffer[0][2], 0);
}

#[test]
fn column_wraparound_at_right_edge() {
    let mut gpu = GPU::new();
    gpu.draw_sprite((63, 0), vec![0x80]);
    assert_eq!(gpu.video_buffer[0][63], 1);

    let mut gpu = GPU::new();
    gpu.draw_sprite((63, 0), vec![0x01]);
    assert_eq!(gpu.video_buffer[0][6], 1);
    assert_eq!(gpu.video_buffer[0][63], 0);
}

#[test]
fn coordinates_wrap_modulo_screen_size() {
    let mut gpu = GPU::new();
    gpu.draw_sprite((64 + 2, 32 + 1), vec![0x80]);
    assert_eq!(gpu.video_buffer[1][2], 1);
}

#[test]
fn call_then_return_resumes_after_call() {
    let mut cpu = CPU::new();
    cpu.load_program(&[0x22, 0x04, 0x00, 0x00, 0x00, 0xEE]);
    cpu.cycle();
    assert_eq!(cpu.memory.pc, 0x204);
    assert_eq!(cpu.memory.sp, 1);
    cpu.cycle();
    assert_eq!(cpu.memory.pc, 0x202);
    assert_eq!(cpu.memory.sp, 0);
    assert!(!cpu.halt);
}

#[test]
fn skips_advance_by_four_or_two() {
    let mut cpu = cpu_with(1, 7, 2, 7);
    cpu.execute(0x5120);
    assert_eq!(cpu.memory.pc, 0x204);
    cpu.execute(0x9120);
    assert_eq!(cpu.memory.pc, 0x206);
    cpu.execute(0x3107);
    assert_eq!(cpu.memory.pc, 0x20A);
    cpu.execute(0x4107);
    assert_eq!(cpu.memory.pc, 0x20C);
}

#[test]
fn key_skip_with_out_of_range_key_value() {
    let mut cpu = cpu_with(1, 0x20, 2, 0);
    cpu.key_pressed(0);
    cpu.execute(0xE19E);
    assert_eq!(cpu.memory.pc, 0x202);
    cpu.execute(0xE1A1);
    assert_eq!(cpu.memory.pc, 0x206);
}

#[test]
fn program_set_and_add() {
    let mut cpu = CPU::new();
    cpu.load_program(&[0x60, 0x02, 0x70, 0x02]);
    cpu.cycle();
    cpu.cycle();
    assert_eq!(cpu.memory.read_reg(0), 4);
    assert_eq!(cpu.memory.pc, 0x204);
}

#[test]
fn program_draws_sprite_from_index() {
    let mut cpu = CPU::new();
    let sprite = [0xF0u8, 0x90, 0x90, 0xF0];
    for (k, byte) in sprite.iter().enumerate() {
        cpu.memory.store(0x400 + k as u16, *byte);
    }
    cpu.load_program(&[0xA4, 0x00, 0x60, 0x0A, 0x61, 0x0F, 0xD0, 0x14]);
    for _ in 0..4 {
        cpu.cycle();
    }
    for (row, byte) in sprite.iter().enumerate() {
        for col in 0..8 {
            let bit = (byte >> (7 - col)) & 1;
            assert_eq!(cpu.gpu.video_buffer[15 + row][10 + col], bit);
        }
    }
    assert_eq!(cpu.memory.read_reg(0xF), 0);
    assert_eq!(cpu.memory.pc, 0x208);

    // Drawing it again erases it and reports the collision.
    cpu.memory.pc = 0x206;
    cpu.cycle();
    assert_eq!(cpu.memory.read_reg(0xF), 1);
    assert_eq!(cpu.gpu.video_buffer[15][10], 0);
}

#[test]
fn key_wait_blocks_until_press() {
    let mut cpu = CPU::new();
    cpu.load_program(&[0xF5, 0x0A, 0x60, 0x01]);
    for _ in 0..3 {
        cpu.cycle();
        assert_eq!(cpu.memory.pc, 0x200);
        assert_eq!(cpu.waiting_for_key, Some(5));
    }
    cpu.key_pressed(7);
    assert_eq!(cpu.memory.read_reg(5), 7);
    assert_eq!(cpu.waiting_for_key, None);
    assert_eq!(cpu.memory.pc, 0x200);
    cpu.cycle();
    assert_eq!(cpu.memory.read_reg(5), 7);
    assert_eq!(cpu.memory.pc, 0x202);
    cpu.cycle();
    assert_eq!(cpu.memory.read_reg(0), 1);
    assert_eq!(cpu.memory.pc, 0x204);
}

#[test]
fn key_press_completes_wait_on_next_step() {
    let mut cpu = CPU::new();
    cpu.load_program(&[0xF5, 0x0A]);
    cpu.cycle();
    assert_eq!(cpu.memory.pc, 0x200);
    cpu.key_pressed(7);
    cpu.cycle();
    assert_eq!(cpu.memory.read_reg(5), 7);
    assert_eq!(cpu.memory.pc, 0x202);
    assert!(!cpu.halt);
}

#[test]
fn key_wait_takes_lowest_key_down() {
    let mut cpu = CPU::new();
    cpu.key_pressed(9);
    cpu.key_pressed(3);
    cpu.execute(0xF20A);
    assert_eq!(cpu.memory.read_reg(2), 3);
    assert_eq!(cpu.memory.pc, 0x202);
}

#[test]
fn key_release_clears_bit() {
    let mut cpu = CPU::new();
    cpu.key_pressed(4);
    assert!(cpu.is_key_pressed(4));
    cpu.key_released(4);
    assert!(!cpu.is_key_pressed(4));
    assert_eq!(cpu.key_state, 0);
}

#[test]
fn zero_word_is_unknown_and_halts() {
    assert_eq!(parse_opcode(0x0000).0, Opcode::Unknown);
    let mut cpu = CPU::new();
    cpu.execute(0x0000);
    assert!(cpu.halt);
    assert_eq!(cpu.memory.pc, 0x202);
    cpu.execute(0x6042);
    assert_eq!(cpu.memory.read_reg(0), 0);
    assert_eq!(cpu.memory.pc, 0x202);
}

#[test]
fn unknown_word_halts() {
    let mut cpu = CPU::new();
    cpu.execute(0x8008);
    assert!(cpu.halt);
    assert_eq!(cpu.memory.pc, 0x202);
    cpu.cycle();
    assert_eq!(cpu.memory.pc, 0x202);

    let mut cpu = CPU::new();
    cpu.execute(0x0123);
    assert!(cpu.halt);
}

#[test]
fn reset_resumes_a_halted_machine() {
    let mut cpu = CPU::new();
    cpu.load_program(&[0x60, 0x05]);
    cpu.execute(0xE0FF);
    assert!(cpu.halt);
    cpu.reset();
    assert!(!cpu.halt);
    assert_eq!(cpu.memory.pc, 0x200);
    assert_eq!(cpu.memory.load(0x200), 0x60);
    assert_eq!(cpu.memory.load(0), 0xF0);
    cpu.cycle();
    assert_eq!(cpu.memory.read_reg(0), 5);
}

#[test]
fn stack_overflow_halts() {
    let mut cpu = CPU::new();
    for _ in 0..STACK_SIZE {
        cpu.execute(0x2200);
        assert!(!cpu.halt);
    }
    assert_eq!(cpu.memory.sp as usize, STACK_SIZE);
    cpu.execute(0x2200);
    assert!(cpu.halt);
    assert_eq!(cpu.memory.sp as usize, STACK_SIZE);
}

#[test]
fn return_on_empty_stack_halts() {
    let mut cpu = CPU::new();
    cpu.execute(0x00EE);
    assert!(cpu.halt);
    assert_eq!(cpu.memory.pc, 0x200);
}

#[test]
fn bcd_of_largest_byte() {
    assert_eq!(255u8.to_bcd(), (2, 5, 5));
    assert_eq!(7u8.to_bcd(), (0, 0, 7));
    let mut cpu = cpu_with(3, 255, 4, 0);
    cpu.memory.i = 0x300;
    cpu.execute(0xF333);
    assert_eq!(cpu.memory.load(0x300), 2);
    assert_eq!(cpu.memory.load(0x301), 5);
    assert_eq!(cpu.memory.load(0x302), 5);
    assert_eq!(cpu.memory.i, 0x300);
}

#[test]
fn store_and_load_all_registers() {
    let mut cpu = CPU::new();
    for r in 0..16u8 {
        cpu.memory.write_reg(r, r * 3 + 1);
    }
    cpu.memory.i = 0x500;
    cpu.execute(0xFF55);
    assert_eq!(cpu.memory.i, 0x500);
    for r in 0..16u16 {
        assert_eq!(cpu.memory.load(0x500 + r), (r * 3 + 1) as u8);
    }
    let mut other = CPU::new();
    for r in 0..16u16 {
        other.memory.store(0x500 + r, (r * 3 + 1) as u8);
    }
    other.memory.i = 0x500;
    other.execute(0xF065);
    for r in 0..16u8 {
        assert_eq!(other.memory.read_reg(r), r * 3 + 1);
    }
}

#[test]
fn memory_addresses_wrap() {
    let mut mem = Memory::new();
    mem.store(0x1005, 0xAB);
    assert_eq!(mem.load(0x0005), 0xAB);
}

#[test]
fn block_at_end_of_memory_fits() {
    let mut cpu = cpu_with(0, 0x11, 0xF, 0x22);
    cpu.memory.i = 0xFF0;
    cpu.execute(0xFF55);
    assert!(!cpu.halt);
    assert_eq!(cpu.memory.load(0xFF0), 0x11);
    assert_eq!(cpu.memory.load(0xFFF), 0x22);
    cpu.memory.i = 0xFFD;
    cpu.execute(0xF033);
    assert!(!cpu.halt);
    assert_eq!(cpu.memory.load(0xFFD), 0);
    assert_eq!(cpu.memory.load(0xFFE), 1);
    assert_eq!(cpu.memory.load(0xFFF), 7);
}

#[test]
fn block_past_end_of_memory_halts() {
    let mut cpu = cpu_with(0, 0x11, 1, 0x22);
    cpu.memory.i = 0xFF1;
    cpu.execute(0xFF55);
    assert!(cpu.halt);
    assert_eq!(cpu.memory.pc, 0x200);
    assert_eq!(cpu.memory.load(0x000), 0xF0);
    assert_eq!(cpu.memory.load(0xFF1), 0);

    let mut cpu = CPU::new();
    cpu.memory.i = 0xFFE;
    cpu.execute(0xF033);
    assert!(cpu.halt);
    assert_eq!(cpu.memory.load(0xFFE), 0);

    let mut cpu = CPU::new();
    cpu.memory.i = 0xFFF;
    cpu.execute(0xF065);
    assert!(cpu.halt);
    assert_eq!(cpu.memory.pc, 0x200);
}

#[test]
fn sprite_past_end_of_memory_is_empty() {
    let mut mem = Memory::new();
    mem.i = 0xFFE;
    assert_eq!(mem.load_sprite(2).len(), 2);
    assert!(mem.load_sprite(3).is_empty());
}

#[test]
fn font_glyph_address() {
    let mut cpu = cpu_with(0, 0xA, 1, 0);
    cpu.execute(0xF029);
    assert_eq!(cpu.memory.i, 50);
    assert_eq!(cpu.memory.load(50), 0xF0);
    assert_eq!(cpu.memory.load(51), 0x90);
}

#[test]
fn index_and_jump_wrap_arithmetic() {
    let mut cpu = cpu_with(0, 0xFF, 1, 0);
    cpu.execute(0xBFFF);
    assert_eq!(cpu.memory.pc, 0x10FE);
    let mut cpu = cpu_with(2, 0x10, 1, 0);
    cpu.memory.i = 0xFFF8;
    cpu.execute(0xF21E);
    assert_eq!(cpu.memory.i, 0x0008);
}

#[test]
fn timers_count_down_to_zero() {
    let mut cpu = CPU::new();
    cpu.memory.dt = 2;
    cpu.memory.st = 1;
    cpu.update_timers();
    assert_eq!((cpu.memory.dt, cpu.memory.st), (1, 0));
    cpu.update_timers();
    cpu.update_timers();
    assert_eq!((cpu.memory.dt, cpu.memory.st), (0, 0));
}

#[test]
fn random_byte_is_masked() {
    let mut cpu = CPU::new();
    assert_eq!(cpu.random_source, RandomSource::Thread);
    cpu.memory.write_reg(3, 0x77);
    cpu.execute(0xC300);
    assert_eq!(cpu.memory.read_reg(3), 0);
    for _ in 0..20 {
        cpu.execute(0xC30F);
        assert!(cpu.memory.read_reg(3) <= 0x0F);
    }
    cpu.mock_random_byte(0x5A);
    cpu.execute(0xC3F0);
    assert_eq!(cpu.memory.read_reg(3), 0x50);
}

#[test]
fn decode_extracts_operands() {
    let (op, x, y) = parse_opcode(0xD7A3);
    assert_eq!(op, Opcode::DrawSprite(3));
    assert_eq!((x, y), (7, 0xA));
    let (op, x, y) = parse_opcode(0x1ABC);
    assert_eq!(op, Opcode::JumpToAddress(0xABC));
    assert_eq!((x, y), (0xA, 0xB));
    assert_eq!(parse_opcode(0xE1A2).0, Opcode::Unknown);
    assert_eq!(parse_opcode(0xF165).0, Opcode::LoadRegsFromMem);
}

#[test]
fn clear_screen_opcode_and_get_gpu() {
    let mut cpu = CPU::new();
    cpu.get_gpu().video_buffer[31][63] = 1;
    cpu.execute(0x00E0);
    assert_eq!(cpu.gpu.video_buffer[31][63], 0);
    assert_eq!(cpu.memory.pc, 0x202);
}
