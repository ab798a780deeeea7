use chip8::cpu::{decode, Instr, CPU};
use chip8::display::Display;
use chip8::keypad::Keypad;
use chip8::memory::Memory;

fn machine(program: &[u8]) -> (CPU, Memory, Display, Keypad) {
    let cpu = CPU::new();
    let mut memory = Memory::new();
    memory.load_program(&program.to_vec());
    (cpu, memory, Display::new(), Keypad::new())
}

#[test]
fn decode_picks_each_family() {
    assert_eq!(decode(0x00E0), Instr::Cls);
    assert_eq!(decode(0x00EE), Instr::Ret);
    assert_eq!(decode(0x1234), Instr::Jump(0x234));
    assert_eq!(decode(0x2ABC), Instr::Call(0xABC));
    assert_eq!(decode(0x3A55), Instr::SkipEqByte(0xA, 0x55));
    assert_eq!(decode(0x4A55), Instr::SkipNeByte(0xA, 0x55));
    assert_eq!(decode(0x5120), Instr::SkipEqReg(1, 2));
    assert_eq!(decode(0x6B42), Instr::LoadByte(0xB, 0x42));
    assert_eq!(decode(0x7B42), Instr::AddByte(0xB, 0x42));
    assert_eq!(decode(0x8120), Instr::Move(1, 2));
    assert_eq!(decode(0x8121), Instr::Or(1, 2));
    assert_eq!(decode(0x8122), Instr::And(1, 2));
    assert_eq!(decode(0x8123), Instr::Xor(1, 2));
    assert_eq!(decode(0x8124), Instr::Add(1, 2));
    assert_eq!(decode(0x8125), Instr::Sub(1, 2));
    assert_eq!(decode(0x8126), Instr::Shr(1, 2));
    assert_eq!(decode(0x8127), Instr::SubN(1, 2));
    assert_eq!(decode(0x812E), Instr::Shl(1, 2));
    assert_eq!(decode(0x9120), Instr::SkipNeReg(1, 2));
    assert_eq!(decode(0xA210), Instr::LoadIndex(0x210));
    assert_eq!(decode(0xB210), Instr::JumpV0(0x210));
    assert_eq!(decode(0xC3F0), Instr::Random(3, 0xF0));
    assert_eq!(decode(0xD125), Instr::Draw(1, 2, 5));
    assert_eq!(decode(0xE19E), Instr::SkipKey(1));
    assert_eq!(decode(0xE1A1), Instr::SkipNotKey(1));
    assert_eq!(decode(0xF107), Instr::GetDelay(1));
    assert_eq!(decode(0xF10A), Instr::WaitKey(1));
    assert_eq!(decode(0xF115), Instr::SetDelay(1));
    assert_eq!(decode(0xF118), Instr::SetSound(1));
    assert_eq!(decode(0xF11E), Instr::AddIndex(1));
    assert_eq!(decode(0xF129), Instr::LoadFont(1));
    assert_eq!(decode(0xF133), Instr::StoreBcd(1));
    assert_eq!(decode(0xF155), Instr::StoreRegs(1));
    assert_eq!(decode(0xF165), Instr::LoadRegs(1));
}

#[test]
fn decode_rejects_stray_words() {
    assert_eq!(decode(0x0000), Instr::Unknown(0x0000));
    assert_eq!(decode(0x5121), Instr::Unknown(0x5121));
    assert_eq!(decode(0x8128), Instr::Unknown(0x8128));
    assert_eq!(decode(0x9121), Instr::Unknown(0x9121));
    assert_eq!(decode(0xE1FF), Instr::Unknown(0xE1FF));
    assert_eq!(decode(0xF1FF), Instr::Unknown(0xF1FF));
}

#[test]
fn add_sets_carry_exactly_when_sum_overflows() {
    // 8124: V1 = V1 + V2
    let (mut cpu, mut memory, mut display, keypad) = machine(&[0x81, 0x24]);
    cpu.v[1] = 200;
    cpu.v[2] = 100;
    cpu.execute(&mut memory, &mut display, &keypad);
    assert_eq!(cpu.v[1], 44); // (200 + 100) mod 256
    assert_eq!(cpu.v[15], 1);

    let (mut cpu, mut memory, mut display, keypad) = machine(&[0x81, 0x24]);
    cpu.v[1] = 200;
    cpu.v[2] = 55;
    cpu.execute(&mut memory, &mut display, &keypad);
    assert_eq!(cpu.v[1], 255);
    assert_eq!(cpu.v[15], 0);
}

#[test]
fn sub_sets_flag_exactly_when_no_borrow() {
    // 8125: V1 = V1 - V2
    let (mut cpu, mut memory, mut display, keypad) = machine(&[0x81, 0x25]);
    cpu.v[1] = 100;
    cpu.v[2] = 30;
    cpu.execute(&mut memory, &mut display, &keypad);
    assert_eq!(cpu.v[1], 70);
    assert_eq!(cpu.v[15], 1);

    let (mut cpu, mut memory, mut display, keypad) = machine(&[0x81, 0x25]);
    cpu.v[1] = 30;
    cpu.v[2] = 100;
    cpu.execute(&mut memory, &mut display, &keypad);
    assert_eq!(cpu.v[1], 186); // (30 - 100) mod 256
    assert_eq!(cpu.v[15], 0);
}

#[test]
fn subn_sets_flag_exactly_when_no_borrow() {
    // 8127: V1 = V2 - V1
    let (mut cpu, mut memory, mut display, keypad) = machine(&[0x81, 0x27]);
    cpu.v[1] = 30;
    cpu.v[2] = 100;
    cpu.execute(&mut memory, &mut display, &keypad);
    assert_eq!(cpu.v[1], 70);
    assert_eq!(cpu.v[15], 1);
}

#[test]
fn shr_captures_pre_shift_lsb() {
    let (mut cpu, mut memory, mut display, keypad) = machine(&[0x81, 0x26]);
    cpu.v[1] = 0b0000_1011;
    cpu.execute(&mut memory, &mut display, &keypad);
    assert_eq!(cpu.v[1], 0b0000_0101);
    assert_eq!(cpu.v[15], 1);

    let (mut cpu, mut memory, mut display, keypad) = machine(&[0x81, 0x26]);
    cpu.v[1] = 0b0000_1010;
    cpu.execute(&mut memory, &mut display, &keypad);
    assert_eq!(cpu.v[1], 0b0000_0101);
    assert_eq!(cpu.v[15], 0);
}

#[test]
fn shl_captures_pre_shift_msb() {
    let (mut cpu, mut memory, mut display, keypad) = machine(&[0x81, 0x2E]);
    cpu.v[1] = 0x81;
    cpu.execute(&mut memory, &mut display, &keypad);
    assert_eq!(cpu.v[1], 0x02);
    assert_eq!(cpu.v[15], 1);

    let (mut cpu, mut memory, mut display, keypad) = machine(&[0x81, 0x2E]);
    cpu.v[1] = 0x41;
    cpu.execute(&mut memory, &mut display, &keypad);
    assert_eq!(cpu.v[1], 0x82);
    assert_eq!(cpu.v[15], 0);
}

#[test]
fn bcd_writes_decimal_digits_of_156() {
    // F333: store the digits of V3 at I, I+1, I+2
    let (mut cpu, mut memory, mut display, keypad) = machine(&[0xF3, 0x33]);
    cpu.v[3] = 156;
    cpu.i = 0x400;
    cpu.execute(&mut memory, &mut display, &keypad);
    assert_eq!(memory.read_byte(0x400), 1);
    assert_eq!(memory.read_byte(0x401), 5);
    assert_eq!(memory.read_byte(0x402), 6);
}

#[test]
fn store_then_load_roundtrips_registers() {
    // F455: store V0..V4; F465: load V0..V4
    let (mut cpu, mut memory, mut display, keypad) = machine(&[0xF4, 0x55, 0xF4, 0x65]);
    let saved = [17u8, 34, 51, 68, 85];
    for (k, val) in saved.iter().enumerate() {
        cpu.v[k] = *val;
    }
    cpu.i = 0x500;
    cpu.execute(&mut memory, &mut display, &keypad);
    for k in 0..5 {
        assert_eq!(memory.read_byte(0x500 + k as u16), saved[k]);
        cpu.v[k] = 0;
    }
    cpu.execute(&mut memory, &mut display, &keypad);
    for k in 0..5 {
        assert_eq!(cpu.v[k], saved[k]);
    }
    // V5 onward stays untouched
    assert_eq!(cpu.v[5], 0);
}

#[test]
fn call_then_ret_restores_pc_after_call() {
    let (mut cpu, mut memory, mut display, keypad) = machine(&[0x23, 0x00]);
    memory.write_byte(0x300, 0x00);
    memory.write_byte(0x301, 0xEE);
    cpu.execute(&mut memory, &mut display, &keypad);
    assert_eq!(cpu.pc, 0x300);
    assert_eq!(cpu.sp, 1);
    cpu.execute(&mut memory, &mut display, &keypad);
    assert_eq!(cpu.pc, 0x202);
    assert_eq!(cpu.sp, 0);
}

#[test]
fn font_address_of_low_nibble() {
    // F029: I = 5 * (V0 & 0xF)
    let (mut cpu, mut memory, mut display, keypad) = machine(&[0xF0, 0x29]);
    cpu.v[0] = 0x3A;
    cpu.execute(&mut memory, &mut display, &keypad);
    assert_eq!(cpu.i, 50);
}

#[test]
fn add_index_masks_and_flags_overflow() {
    // F01E: I = (I + V0) mod 4096, VF = 1 when the raw sum passes 0xFFF
    let (mut cpu, mut memory, mut display, keypad) = machine(&[0xF0, 0x1E]);
    cpu.i = 0xFFF;
    cpu.v[0] = 2;
    cpu.execute(&mut memory, &mut display, &keypad);
    assert_eq!(cpu.i, 1);
    assert_eq!(cpu.v[15], 1);
}

#[test]
fn random_masked_with_zero_is_zero() {
    // C000: V0 = random byte AND 0x00
    let (mut cpu, mut memory, mut display, keypad) = machine(&[0xC0, 0x00]);
    cpu.v[0] = 0xEE;
    cpu.execute(&mut memory, &mut display, &keypad);
    assert_eq!(cpu.v[0], 0);
}

#[test]
fn skip_instructions_step_over_next_word() {
    let (mut cpu, mut memory, mut display, keypad) = machine(&[0x30, 0x07]);
    cpu.v[0] = 7;
    cpu.execute(&mut memory, &mut display, &keypad);
    assert_eq!(cpu.pc, 0x204);

    let (mut cpu, mut memory, mut display, keypad) = machine(&[0x30, 0x07]);
    cpu.v[0] = 8;
    cpu.execute(&mut memory, &mut display, &keypad);
    assert_eq!(cpu.pc, 0x202);
}

#[test]
fn wait_key_polls_until_a_key_arrives() {
    let (mut cpu, mut memory, mut display, mut keypad) = machine(&[0xF0, 0x0A]);
    cpu.execute(&mut memory, &mut display, &keypad);
    // no key pressed: the same instruction will be fetched again
    assert_eq!(cpu.pc, 0x200);
    keypad.set_key(chip8::keypad::Key::Seven(chip8::keypad::KeyState::Pressed));
    cpu.execute(&mut memory, &mut display, &keypad);
    assert_eq!(cpu.pc, 0x202);
    assert_eq!(cpu.v[0], 7);
}

#[test]
fn skip_key_reads_the_keypad() {
    let (mut cpu, mut memory, mut display, mut keypad) = machine(&[0xE0, 0x9E]);
    cpu.v[0] = 0xB;
    keypad.set_key(chip8::keypad::Key::B(chip8::keypad::KeyState::Pressed));
    cpu.execute(&mut memory, &mut display, &keypad);
    assert_eq!(cpu.pc, 0x204);

    let (mut cpu, mut memory, mut display, mut keypad) = machine(&[0xE0, 0xA1]);
    cpu.v[0] = 0xB;
    keypad.set_key(chip8::keypad::Key::B(chip8::keypad::KeyState::Released));
    cpu.execute(&mut memory, &mut display, &keypad);
    assert_eq!(cpu.pc, 0x204);
}
