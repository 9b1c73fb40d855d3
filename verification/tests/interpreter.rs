use chip8::{Cpu, ExecError, Op};

fn no_keys() -> [u8; 16] {
    [0u8; 16]
}

fn run(cpu: &mut Cpu, hi: u8, lo: u8) {
    let r = cpu.execute_op(Op::decode(hi, lo), &no_keys());
    assert!(r.is_ok());
}

#[test]
fn decode_fields() {
    let op = Op::decode(0x6A, 0x05);
    assert_eq!(op.op, 0x6);
    assert_eq!(op.x, 0xA);
    assert_eq!(op.y, 0x0);
    assert_eq!(op.n, 0x5);
    assert_eq!(op.nn, 0x05);
    assert_eq!(op.nnn, 0xA05);
    let op = Op::decode(0xD1, 0x2F);
    assert_eq!(op.op, 0xD);
    assert_eq!(op.x, 0x1);
    assert_eq!(op.y, 0x2);
    assert_eq!(op.n, 0xF);
    assert_eq!(op.nn, 0x2F);
    assert_eq!(op.nnn, 0x12F);
}

#[test]
fn fresh_machine_layout() {
    let cpu = Cpu::new(vec![0xAB, 0xCD]);
    assert_eq!(cpu.pc, 512);
    assert_eq!(cpu.index(), 0);
    assert_eq!(cpu.stack_depth(), 0);
    assert_eq!(cpu.ram[0], 0xF0); // first font byte
    assert_eq!(cpu.ram[79], 0x80); // last font byte
    assert_eq!(cpu.ram[80], 0); // gap between font and program
    assert_eq!(cpu.ram[511], 0);
    assert_eq!(cpu.ram[512], 0xAB);
    assert_eq!(cpu.ram[513], 0xCD);
    assert_eq!(cpu.ram[514], 0);
    assert_eq!(cpu.v, vec![0u8; 16]);
    assert_eq!(cpu.delay_timer, 0);
    assert_eq!(cpu.sound_timer, 0);
    assert!(!cpu.is_waiting_for_input);
    for x in 0..64 {
        for y in 0..32 {
            assert!(!cpu.pixel_at(x, y));
        }
    }
}

#[test]
fn try_new_rejects_oversized_image() {
    assert!(Cpu::try_new(vec![0u8; 3585]).is_none());
    assert!(Cpu::try_new(vec![0u8; 3584]).is_some());
    assert!(Cpu::try_new(Vec::new()).is_some());
}

#[test]
fn jump_loops_to_itself() {
    // An image of just `1200`: jump to 0x200.
    let mut cpu = Cpu::new(vec![0x12, 0x00]);
    run(&mut cpu, 0x12, 0x00);
    assert_eq!(cpu.pc, 0x200);
    // nothing else changed
    assert_eq!(cpu.index(), 0);
    assert_eq!(cpu.stack_depth(), 0);
    assert_eq!(cpu.v, vec![0u8; 16]);
    assert_eq!(cpu.ram[512], 0x12);
}

#[test]
fn font_glyph_address_of_a() {
    // Load 5 into register A, then take the glyph address for its
    // value: 6A05 then FA29 gives index 5 * 5 = 25.
    let mut cpu = Cpu::new(Vec::new());
    run(&mut cpu, 0x6A, 0x05);
    assert_eq!(cpu.v[0xA], 5);
    run(&mut cpu, 0xFA, 0x29);
    assert_eq!(cpu.index(), 25);
}

#[test]
fn font_glyph_address_ten_times_five() {
    // Register value 0xA points at the 'A' glyph: index 50.
    let mut cpu = Cpu::new(Vec::new());
    run(&mut cpu, 0x60, 0x0A);
    run(&mut cpu, 0xF0, 0x29);
    assert_eq!(cpu.index(), 50);
    assert_eq!(cpu.ram[50], 0xF0); // first byte of the 'A' glyph
}

#[test]
fn binary_coded_decimal_of_234() {
    let mut cpu = Cpu::new(Vec::new());
    run(&mut cpu, 0x60, 234);
    run(&mut cpu, 0xA3, 0x00); // index = 0x300
    run(&mut cpu, 0xF0, 0x33);
    assert_eq!(cpu.ram[0x300], 2);
    assert_eq!(cpu.ram[0x301], 3);
    assert_eq!(cpu.ram[0x302], 4);
}

#[test]
fn add_immediate_wraps_and_keeps_flag() {
    let mut cpu = Cpu::new(Vec::new());
    run(&mut cpu, 0x6F, 0x09); // flag register holds 9
    run(&mut cpu, 0x60, 0x05);
    run(&mut cpu, 0x70, 0xFF); // 5 + 255 wraps to 4
    assert_eq!(cpu.v[0], 4);
    assert_eq!(cpu.v[0xF], 9); // untouched
}

#[test]
fn add_with_carry_sets_flag_exactly() {
    let mut cpu = Cpu::new(Vec::new());
    run(&mut cpu, 0x60, 200);
    run(&mut cpu, 0x61, 100);
    run(&mut cpu, 0x80, 0x14);
    assert_eq!(cpu.v[0], 44); // 300 % 256
    assert_eq!(cpu.v[0xF], 1);
    run(&mut cpu, 0x60, 10);
    run(&mut cpu, 0x61, 20);
    run(&mut cpu, 0x80, 0x14);
    assert_eq!(cpu.v[0], 30);
    assert_eq!(cpu.v[0xF], 0);
    // 255 + 1 overflows exactly
    run(&mut cpu, 0x60, 255);
    run(&mut cpu, 0x61, 1);
    run(&mut cpu, 0x80, 0x14);
    assert_eq!(cpu.v[0], 0);
    assert_eq!(cpu.v[0xF], 1);
}

#[test]
fn subtract_with_borrow_flag_is_strict_greater() {
    let mut cpu = Cpu::new(Vec::new());
    run(&mut cpu, 0x60, 5);
    run(&mut cpu, 0x61, 3);
    run(&mut cpu, 0x80, 0x15);
    assert_eq!(cpu.v[0], 2);
    assert_eq!(cpu.v[0xF], 1); // 5 > 3
    run(&mut cpu, 0x60, 3);
    run(&mut cpu, 0x61, 5);
    run(&mut cpu, 0x80, 0x15);
    assert_eq!(cpu.v[0], 254);
    assert_eq!(cpu.v[0xF], 0);
    // equal values: not strictly greater
    run(&mut cpu, 0x60, 7);
    run(&mut cpu, 0x61, 7);
    run(&mut cpu, 0x80, 0x15);
    assert_eq!(cpu.v[0], 0);
    assert_eq!(cpu.v[0xF], 0);
}

#[test]
fn subtract_with_borrow_flag_subtrahend_uses_pre_value() {
    // The subtrahend is the flag register itself: the comparison and
    // the difference use its value before the instruction, not the
    // freshly written flag.
    let mut cpu = Cpu::new(Vec::new());
    run(&mut cpu, 0x60, 1);
    run(&mut cpu, 0x6F, 5);
    run(&mut cpu, 0x80, 0xF5); // v0 = v0 - vF
    assert_eq!(cpu.v[0xF], 0); // 1 > 5 is false
    assert_eq!(cpu.v[0], 252); // (1 - 5) mod 256
}

#[test]
fn reverse_subtract_flag_subtrahend_uses_pre_value() {
    let mut cpu = Cpu::new(Vec::new());
    run(&mut cpu, 0x60, 1);
    run(&mut cpu, 0x6F, 5);
    run(&mut cpu, 0x80, 0xF7); // v0 = vF - v0
    assert_eq!(cpu.v[0xF], 1); // 5 > 1
    assert_eq!(cpu.v[0], 4);
}

#[test]
fn shift_on_flag_register_stores_the_result() {
    // With the flag register as destination the shifted value is
    // computed from its pre-operation value and overwrites the
    // captured bit.
    let mut cpu = Cpu::new(Vec::new());
    run(&mut cpu, 0x6F, 5);
    run(&mut cpu, 0x8F, 0x06);
    assert_eq!(cpu.v[0xF], 2); // 5 >> 1
}

#[test]
fn reverse_subtract_with_borrow() {
    let mut cpu = Cpu::new(Vec::new());
    run(&mut cpu, 0x60, 3);
    run(&mut cpu, 0x61, 5);
    run(&mut cpu, 0x80, 0x17);
    assert_eq!(cpu.v[0], 2); // 5 - 3
    assert_eq!(cpu.v[0xF], 1); // 5 > 3
    run(&mut cpu, 0x60, 5);
    run(&mut cpu, 0x61, 3);
    run(&mut cpu, 0x80, 0x17);
    assert_eq!(cpu.v[0], 254);
    assert_eq!(cpu.v[0xF], 0);
}

#[test]
fn shifts_touch_only_register_x() {
    let mut cpu = Cpu::new(Vec::new());
    run(&mut cpu, 0x60, 5);
    run(&mut cpu, 0x61, 0xFF); // register y of the shift below
    run(&mut cpu, 0x80, 0x16); // shift right, pattern names y = 1
    assert_eq!(cpu.v[0], 2);
    assert_eq!(cpu.v[0xF], 1); // captured low bit
    assert_eq!(cpu.v[1], 0xFF); // y neither consulted nor mutated
    run(&mut cpu, 0x60, 0x81);
    run(&mut cpu, 0x80, 0x1E); // shift left
    assert_eq!(cpu.v[0], 2);
    assert_eq!(cpu.v[0xF], 1); // captured high bit
    assert_eq!(cpu.v[1], 0xFF);
}

#[test]
fn copy_or_and_xor() {
    let mut cpu = Cpu::new(Vec::new());
    run(&mut cpu, 0x60, 0b1100);
    run(&mut cpu, 0x61, 0b1010);
    run(&mut cpu, 0x82, 0x10); // v2 = v1
    assert_eq!(cpu.v[2], 0b1010);
    run(&mut cpu, 0x80, 0x11);
    assert_eq!(cpu.v[0], 0b1110);
    run(&mut cpu, 0x60, 0b1100);
    run(&mut cpu, 0x80, 0x12);
    assert_eq!(cpu.v[0], 0b1000);
    run(&mut cpu, 0x60, 0b1100);
    run(&mut cpu, 0x80, 0x13);
    assert_eq!(cpu.v[0], 0b0110);
}

#[test]
fn skips_advance_by_four_on_match() {
    let mut cpu = Cpu::new(Vec::new());
    let start = cpu.pc;
    run(&mut cpu, 0x30, 0x00); // v0 == 0: skip
    assert_eq!(cpu.pc, start + 4);
    run(&mut cpu, 0x30, 0x01); // v0 != 1: no skip
    assert_eq!(cpu.pc, start + 6);
    run(&mut cpu, 0x40, 0x01); // not-equal variant: skip
    assert_eq!(cpu.pc, start + 10);
    run(&mut cpu, 0x50, 0x10); // v0 == v1: skip
    assert_eq!(cpu.pc, start + 14);
    run(&mut cpu, 0x61, 0x07);
    run(&mut cpu, 0x90, 0x10); // v0 != v1: skip
    assert_eq!(cpu.pc, start + 20);
}

#[test]
fn call_then_return_resumes_after_call() {
    let mut cpu = Cpu::new(Vec::new());
    let before = cpu.pc;
    run(&mut cpu, 0x23, 0x00); // call 0x300
    assert_eq!(cpu.pc, 0x300);
    assert_eq!(cpu.stack_depth(), 1);
    run(&mut cpu, 0x00, 0xEE); // return
    assert_eq!(cpu.pc, before + 2);
    assert_eq!(cpu.stack_depth(), 0);
}

#[test]
fn jump_with_offset_uses_register_zero() {
    let mut cpu = Cpu::new(Vec::new());
    run(&mut cpu, 0x60, 0x10);
    run(&mut cpu, 0x6A, 0x99); // another register does not matter
    run(&mut cpu, 0xB3, 0x00);
    assert_eq!(cpu.pc, 0x310);
}

#[test]
fn load_index_and_add_to_index_wrap() {
    let mut cpu = Cpu::new(Vec::new());
    run(&mut cpu, 0xAF, 0xFF); // index = 0xFFF
    assert_eq!(cpu.index(), 0xFFF);
    run(&mut cpu, 0x60, 0x02);
    run(&mut cpu, 0xF0, 0x1E);
    assert_eq!(cpu.index(), 0x1001); // 16-bit add, no wrap yet
}

#[test]
fn timers_copy_through_registers() {
    let mut cpu = Cpu::new(Vec::new());
    run(&mut cpu, 0x60, 42);
    run(&mut cpu, 0xF0, 0x15); // delay = v0
    assert_eq!(cpu.delay_timer, 42);
    run(&mut cpu, 0xF0, 0x18); // sound = v0
    assert_eq!(cpu.sound_timer, 42);
    run(&mut cpu, 0x61, 0x00);
    run(&mut cpu, 0xF1, 0x07); // v1 = delay
    assert_eq!(cpu.v[1], 42);
}

#[test]
fn wait_for_key_sets_latch_only() {
    let mut cpu = Cpu::new(Vec::new());
    let before = cpu.pc;
    run(&mut cpu, 0xF7, 0x0A);
    assert!(cpu.is_waiting_for_input);
    assert_eq!(cpu.save_into_this_vx, 7);
    assert_eq!(cpu.pc, before + 2); // the instruction itself does not block
}

#[test]
fn key_skips_read_the_snapshot() {
    let mut cpu = Cpu::new(Vec::new());
    let mut keys = [0u8; 16];
    keys[3] = 1;
    let start = cpu.pc;
    assert!(cpu.execute_op(Op::decode(0x60, 0x03), &keys).is_ok());
    assert!(cpu.execute_op(Op::decode(0xE0, 0x9E), &keys).is_ok()); // pressed: skip
    assert_eq!(cpu.pc, start + 6);
    assert!(cpu.execute_op(Op::decode(0xE0, 0xA1), &keys).is_ok()); // pressed: no skip
    assert_eq!(cpu.pc, start + 8);
    keys[3] = 0;
    assert!(cpu.execute_op(Op::decode(0xE0, 0x9E), &keys).is_ok()); // released: no skip
    assert_eq!(cpu.pc, start + 10);
    assert!(cpu.execute_op(Op::decode(0xE0, 0xA1), &keys).is_ok()); // released: skip
    assert_eq!(cpu.pc, start + 14);
}

#[test]
fn register_dump_and_load_roundtrip() {
    let mut cpu = Cpu::new(Vec::new());
    run(&mut cpu, 0x60, 11);
    run(&mut cpu, 0x61, 22);
    run(&mut cpu, 0x62, 33);
    run(&mut cpu, 0xA3, 0x00);
    run(&mut cpu, 0xF2, 0x55); // dump v0..=v2 at 0x300
    assert_eq!(cpu.ram[0x300], 11);
    assert_eq!(cpu.ram[0x301], 22);
    assert_eq!(cpu.ram[0x302], 33);
    assert_eq!(cpu.ram[0x303], 0); // one past the dumped range
    assert_eq!(cpu.index(), 0x300); // the index register itself is unchanged
    run(&mut cpu, 0x60, 0);
    run(&mut cpu, 0x61, 0);
    run(&mut cpu, 0x62, 0);
    run(&mut cpu, 0xF2, 0x65); // load them back
    assert_eq!(cpu.v[0], 11);
    assert_eq!(cpu.v[1], 22);
    assert_eq!(cpu.v[2], 33);
    assert_eq!(cpu.v[3], 0);
}

#[test]
fn random_is_masked() {
    let mut cpu = Cpu::new(Vec::new());
    run(&mut cpu, 0x60, 0xAA);
    run(&mut cpu, 0xC0, 0x00); // mask 0: result must be 0 whatever was drawn
    assert_eq!(cpu.v[0], 0);
    for _ in 0..20 {
        run(&mut cpu, 0xC1, 0x0F);
        assert!(cpu.v[1] <= 0x0F);
    }
}

#[test]
fn seeded_random_is_deterministic() {
    let mut cpu = Cpu::new(Vec::new());
    let r = cpu.execute_op_seeded(Op::decode(0xC0, 0x0F), &no_keys(), 0xAB);
    assert!(r.is_ok());
    assert_eq!(cpu.v[0], 0x0B); // 0xAB & 0x0F
    // the mask is the low nibble of the word: 0x5A & 0x0F
    let r = cpu.execute_op_seeded(Op::decode(0xC1, 0xFF), &no_keys(), 0x5A);
    assert!(r.is_ok());
    assert_eq!(cpu.v[1], 0x0A);
    // every other instruction ignores the seed
    let mut a = Cpu::new(Vec::new());
    let mut b = Cpu::new(Vec::new());
    assert!(a.execute_op_seeded(Op::decode(0x60, 0x07), &no_keys(), 0x00).is_ok());
    assert!(b.execute_op_seeded(Op::decode(0x60, 0x07), &no_keys(), 0xFF).is_ok());
    assert_eq!(a.v[0], 7);
    assert_eq!(b.v[0], 7);
    assert_eq!(a.pc, b.pc);
}

#[test]
fn unrecognized_patterns_report_the_word() {
    let mut cpu = Cpu::new(Vec::new());
    let before = cpu.pc;
    let r = cpu.execute_op(Op::decode(0x00, 0x00), &no_keys());
    assert_eq!(r, Err(ExecError::Unrecognized { op: 0x0, nn: 0x00 }));
    assert_eq!(cpu.pc, before); // machine untouched
    let r = cpu.execute_op(Op::decode(0x80, 0x18), &no_keys());
    assert_eq!(r, Err(ExecError::Unrecognized { op: 0x8, nn: 0x18 }));
    let r = cpu.execute_op(Op::decode(0xF0, 0x99), &no_keys());
    assert_eq!(r, Err(ExecError::Unrecognized { op: 0xF, nn: 0x99 }));
    let r = cpu.execute_op(Op::decode(0xE0, 0x00), &no_keys());
    assert_eq!(r, Err(ExecError::Unrecognized { op: 0xE, nn: 0x00 }));
}

#[test]
fn return_on_empty_stack_underflows() {
    let mut cpu = Cpu::new(Vec::new());
    let before = cpu.pc;
    let r = cpu.execute_op(Op::decode(0x00, 0xEE), &no_keys());
    assert_eq!(r, Err(ExecError::StackUnderflow));
    assert_eq!(cpu.pc, before);
    assert_eq!(cpu.stack_depth(), 0);
}
