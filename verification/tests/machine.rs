use chip8::cpu::CPU;
use chip8::display::Display;
use chip8::keypad::{Key, KeyState, Keypad};
use chip8::memory::Memory;

#[test]
fn cpu_starts_at_the_load_address() {
    let cpu = CPU::new();
    assert_eq!(cpu.pc, 0x200);
    assert_eq!(cpu.sp, 0);
    assert_eq!(cpu.i, 0);
    assert_eq!(cpu.dt, 0);
    assert_eq!(cpu.st, 0);
    assert!(cpu.v.iter().all(|&r| r == 0));
}

#[test]
fn memory_holds_the_font_and_the_program() {
    let mut memory = Memory::new();
    // glyph 0 starts with 0xF0; glyph F ends with 0x80
    assert_eq!(memory.read_byte(0), 0xF0);
    assert_eq!(memory.read_byte(79), 0x80);
    assert_eq!(memory.read_byte(80), 0);
    memory.load_program(&vec![0xAB, 0xCD]);
    assert_eq!(memory.read_byte(0x200), 0xAB);
    assert_eq!(memory.read_byte(0x201), 0xCD);
    assert_eq!(memory.read_byte(0x202), 0);
}

#[test]
fn display_pixels_toggle_and_clear() {
    let mut display = Display::new();
    assert!(!display.get_pixel(100));
    display.set_pixel(100, true);
    assert!(display.get_pixel(100));
    let data = display.get_data();
    assert!(data[100]);
    assert_eq!(data.iter().filter(|&&p| p).count(), 1);
    display.clear();
    assert!(!display.get_pixel(100));
}

#[test]
fn keypad_maps_keys_to_their_hex_values() {
    let mut keypad = Keypad::new();
    assert_eq!(keypad.key_to_index(&Key::Zero(KeyState::Released)), 0);
    assert_eq!(keypad.key_to_index(&Key::One(KeyState::Released)), 1);
    assert_eq!(keypad.key_to_index(&Key::C(KeyState::Released)), 12);
    assert_eq!(keypad.key_to_index(&Key::F(KeyState::Released)), 15);
    assert!(!keypad.is_key_pressed(&Key::C(KeyState::Released)));
    keypad.set_key(Key::C(KeyState::Pressed));
    // the stored slot decides, not the state carried by the query key
    assert!(keypad.is_key_pressed(&Key::C(KeyState::Released)));
    assert!(keypad.is_index_pressed(12));
    assert!(!keypad.is_index_pressed(11));
    keypad.set_key(Key::C(KeyState::Released));
    assert!(!keypad.is_key_pressed(&Key::C(KeyState::Pressed)));
}

#[test]
fn draw_twice_restores_the_screen_and_flags_the_collision() {
    // D011: draw the 1-row sprite at I to (V0, V1), twice in a row
    let mut cpu = CPU::new();
    let mut memory = Memory::new();
    let mut display = Display::new();
    let keypad = Keypad::new();
    memory.load_program(&vec![0xD0, 0x11, 0xD0, 0x11]);
    memory.write_byte(0x300, 0b1010_1010);
    cpu.i = 0x300;
    cpu.v[0] = 10;
    cpu.v[1] = 5;
    cpu.execute(&mut memory, &mut display, &keypad);
    assert_eq!(cpu.v[15], 0);
    assert!(display.get_pixel(5 * 64 + 10));
    assert!(!display.get_pixel(5 * 64 + 11));
    cpu.execute(&mut memory, &mut display, &keypad);
    // the second draw collides with what the first one lit ...
    assert_eq!(cpu.v[15], 1);
    // ... and XOR restores every pixel
    assert!(display.get_data().iter().all(|&p| !p));
}

#[test]
fn draw_clips_at_the_screen_edges() {
    // a 3-row solid sprite at (60, 30): only 2 rows x 4 columns survive
    let mut cpu = CPU::new();
    let mut memory = Memory::new();
    let mut display = Display::new();
    let keypad = Keypad::new();
    memory.load_program(&vec![0xD0, 0x13]);
    for row in 0..3 {
        memory.write_byte(0x300 + row, 0xFF);
    }
    cpu.i = 0x300;
    cpu.v[0] = 60;
    cpu.v[1] = 30;
    cpu.execute(&mut memory, &mut display, &keypad);
    assert_eq!(cpu.v[15], 0);
    let data = display.get_data();
    assert_eq!(data.iter().filter(|&&p| p).count(), 8);
    for row in 30..32 {
        for col in 60..64 {
            assert!(data[row * 64 + col]);
        }
    }
}

#[test]
fn three_instructions_clear_load_and_point() {
    // 00E0 clears, 6005 sets V0, A210 sets I
    let mut cpu = CPU::new();
    let mut memory = Memory::new();
    let mut display = Display::new();
    let keypad = Keypad::new();
    memory.load_program(&vec![0x00, 0xE0, 0x60, 0x05, 0xA2, 0x10]);
    display.set_pixel(0, true);
    for _ in 0..3 {
        cpu.execute(&mut memory, &mut display, &keypad);
    }
    assert!(display.get_data().iter().all(|&p| !p));
    assert_eq!(cpu.v[0], 5);
    assert_eq!(cpu.i, 0x210);
}

#[test]
fn a_tick_runs_the_program_and_counts_the_delay_timer_down() {
    // the same three instructions, driven through whole ticks; the eight
    // trailing zero words of each tick decode to no-ops
    let mut cpu = CPU::new();
    let mut memory = Memory::new();
    let mut display = Display::new();
    let keypad = Keypad::new();
    memory.load_program(&vec![0x00, 0xE0, 0x60, 0x05, 0xA2, 0x10]);
    display.set_pixel(0, true);
    cpu.dt = 3;
    cpu.st = 0;
    cpu.tick(&mut memory, &mut display, &keypad);
    assert!(display.get_data().iter().all(|&p| !p));
    assert_eq!(cpu.v[0], 5);
    assert_eq!(cpu.i, 0x210);
    assert_eq!(cpu.dt, 2);
    assert_eq!(cpu.st, 0);
    cpu.tick(&mut memory, &mut display, &keypad);
    cpu.tick(&mut memory, &mut display, &keypad);
    // the timers never go below zero
    assert_eq!(cpu.dt, 0);
    assert_eq!(cpu.st, 0);
    cpu.tick(&mut memory, &mut display, &keypad);
    assert_eq!(cpu.dt, 0);
}

#[test]
fn timer_instructions_move_the_delay_timer() {
    // 6003: V0 = 3; F015: DT = V0; F107: V1 = DT
    let mut cpu = CPU::new();
    let mut memory = Memory::new();
    let mut display = Display::new();
    let keypad = Keypad::new();
    memory.load_program(&vec![0x60, 0x03, 0xF0, 0x15, 0xF1, 0x07]);
    cpu.execute(&mut memory, &mut display, &keypad);
    cpu.execute(&mut memory, &mut display, &keypad);
    assert_eq!(cpu.dt, 3);
    cpu.execute(&mut memory, &mut display, &keypad);
    assert_eq!(cpu.v[1], 3);
}

#[test]
fn unknown_opcodes_only_advance_the_pc() {
    let mut cpu = CPU::new();
    let mut memory = Memory::new();
    let mut display = Display::new();
    let keypad = Keypad::new();
    memory.load_program(&vec![0xFF, 0xFF]);
    cpu.v[4] = 9;
    cpu.execute(&mut memory, &mut display, &keypad);
    assert_eq!(cpu.pc, 0x202);
    assert_eq!(cpu.v[4], 9);
    assert_eq!(cpu.sp, 0);
}
