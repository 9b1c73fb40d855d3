use chip8::{Cpu, Op};

fn no_keys() -> [u8; 16] {
    [0u8; 16]
}

fn run(cpu: &mut Cpu, hi: u8, lo: u8) {
    let r = cpu.execute_op(Op::decode(hi, lo), &no_keys());
    assert!(r.is_ok());
}

#[test]
fn draw_font_glyph_zero() {
    let mut cpu = Cpu::new(Vec::new());
    // index 0 points at the glyph for 0: F0 90 90 90 F0
    run(&mut cpu, 0xA0, 0x00);
    run(&mut cpu, 0x60, 10); // x = 10
    run(&mut cpu, 0x61, 5); // y = 5
    run(&mut cpu, 0xD0, 0x15);
    assert_eq!(cpu.v[0xF], 0); // nothing was lit before
    // top row F0: four pixels on, then four off
    for dx in 0..4 {
        assert!(cpu.pixel_at(10 + dx, 5));
    }
    for dx in 4..8 {
        assert!(!cpu.pixel_at(10 + dx, 5));
    }
    // second row 90: ends of the ring
    assert!(cpu.pixel_at(10, 6));
    assert!(!cpu.pixel_at(11, 6));
    assert!(!cpu.pixel_at(12, 6));
    assert!(cpu.pixel_at(13, 6));
    // bottom row F0 again
    for dx in 0..4 {
        assert!(cpu.pixel_at(10 + dx, 9));
    }
    // outside the sprite box: off
    assert!(!cpu.pixel_at(9, 5));
    assert!(!cpu.pixel_at(10, 4));
    assert!(!cpu.pixel_at(10, 10));
}

#[test]
fn draw_same_sprite_twice_erases_and_collides() {
    let mut cpu = Cpu::new(Vec::new());
    run(&mut cpu, 0xA0, 0x00);
    run(&mut cpu, 0x60, 10);
    run(&mut cpu, 0x61, 5);
    run(&mut cpu, 0xD0, 0x15);
    assert_eq!(cpu.v[0xF], 0);
    run(&mut cpu, 0xD0, 0x15); // same sprite, same place
    assert_eq!(cpu.v[0xF], 1); // every lit pixel went off again
    for x in 0..64 {
        for y in 0..32 {
            assert!(!cpu.pixel_at(x, y));
        }
    }
}

#[test]
fn draw_collision_flag_clears_again() {
    let mut cpu = Cpu::new(Vec::new());
    run(&mut cpu, 0xA0, 0x00);
    run(&mut cpu, 0x60, 10);
    run(&mut cpu, 0x61, 5);
    run(&mut cpu, 0xD0, 0x15);
    run(&mut cpu, 0xD0, 0x15);
    assert_eq!(cpu.v[0xF], 1);
    run(&mut cpu, 0xD0, 0x15); // screen is clean again: no collision
    assert_eq!(cpu.v[0xF], 0);
}

#[test]
fn clear_screen_turns_every_pixel_off() {
    let mut cpu = Cpu::new(Vec::new());
    run(&mut cpu, 0xA0, 0x00);
    run(&mut cpu, 0x60, 0);
    run(&mut cpu, 0x61, 0);
    run(&mut cpu, 0xD0, 0x15);
    assert!(cpu.pixel_at(0, 0));
    run(&mut cpu, 0x00, 0xE0);
    for x in 0..64 {
        for y in 0..32 {
            assert!(!cpu.pixel_at(x, y));
        }
    }
}

#[test]
fn draw_clips_at_right_edge_without_wrapping() {
    // The one-byte program is also the sprite: a full row of bits.
    let mut cpu = Cpu::new(vec![0xFF]);
    run(&mut cpu, 0xA2, 0x00); // index = 0x200, the loaded byte
    run(&mut cpu, 0x60, 60); // x = 60: columns 60..=63 survive
    run(&mut cpu, 0x61, 0);
    run(&mut cpu, 0xD0, 0x11);
    for x in 60..64 {
        assert!(cpu.pixel_at(x, 0));
    }
    // no wraparound to the left edge
    for x in 0..8 {
        assert!(!cpu.pixel_at(x, 0));
    }
    assert_eq!(cpu.v[0xF], 0);
}

#[test]
fn draw_clips_at_bottom_edge_without_wrapping() {
    let mut cpu = Cpu::new(vec![0xFF, 0xFF]);
    run(&mut cpu, 0xA2, 0x00);
    run(&mut cpu, 0x60, 0);
    run(&mut cpu, 0x61, 31); // last row: the second sprite row is clipped
    run(&mut cpu, 0xD0, 0x12);
    for x in 0..8 {
        assert!(cpu.pixel_at(x, 31));
    }
    // no wraparound to the top edge
    for x in 0..8 {
        assert!(!cpu.pixel_at(x, 0));
    }
}

#[test]
fn draw_coordinates_reduce_modulo_grid() {
    let mut cpu = Cpu::new(vec![0x80]); // a single pixel sprite
    run(&mut cpu, 0xA2, 0x00);
    run(&mut cpu, 0x60, 70); // 70 & 63 == 6
    run(&mut cpu, 0x61, 33); // 33 & 31 == 1
    run(&mut cpu, 0xD0, 0x11);
    assert!(cpu.pixel_at(6, 1));
    assert!(!cpu.pixel_at(70 % 64 + 1, 1));
}

#[test]
fn draw_zero_rows_changes_nothing() {
    let mut cpu = Cpu::new(Vec::new());
    run(&mut cpu, 0xD0, 0x10); // n = 0
    assert_eq!(cpu.v[0xF], 0);
    for x in 0..64 {
        for y in 0..32 {
            assert!(!cpu.pixel_at(x, y));
        }
    }
}
