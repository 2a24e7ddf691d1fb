use chip8vm::interpreter::{
    chip8_key_to_key, key_to_chip8_key, Cycle, Event, Fault, Quirks, VM,
};

const NO_KEYS: [bool; 16] = [false; 16];

fn run(vm: &mut VM, program: &[u8], steps: usize) {
    vm.load_program(program).unwrap();
    for _ in 0..steps {
        let opcode = vm.fetch().unwrap();
        vm.execute(opcode, &NO_KEYS).unwrap();
    }
}

#[test]
fn new_machine_holds_the_font_and_starts_at_0x200() {
    let vm = VM::new();
    assert_eq!(vm.pc(), 0x200);
    assert_eq!(vm.index(), 0);
    assert_eq!(vm.stack_pointer(), 0);
    assert!(vm.is_running());
    assert_eq!(vm.registers(), [0u8; 16]);
    assert_eq!(vm.peek(0), Some(0xF0));
    assert_eq!(vm.peek(5), Some(0x20));
    assert_eq!(vm.peek(79), Some(0x80));
    assert_eq!(vm.peek(80), Some(0));
    assert_eq!(vm.peek(4095), Some(0));
    assert_eq!(vm.peek(4096), None);
    assert!(!vm.pixel(0, 0));
    assert_eq!(vm.frame(), vec![0u8; 2048]);
}

#[test]
fn add_without_carry_after_four_fetches() {
    let mut vm = VM::new();
    run(&mut vm, &[0x60, 0x05, 0x61, 0x03, 0x80, 0x14, 0x00, 0x00], 3);
    assert_eq!(vm.fetch(), Ok(0x0000));
    let reg = vm.registers();
    assert_eq!(reg[0], 8);
    assert_eq!(reg[1], 3);
    assert_eq!(reg[15], 0);
    assert_eq!(vm.pc(), 0x208);
    assert_eq!(vm.execute(0x0000, &NO_KEYS), Err(Fault::NativeCall { address: 0 }));
}

#[test]
fn add_with_carry_wraps_and_sets_the_flag() {
    let mut vm = VM::new();
    run(&mut vm, &[0x60, 0xFF, 0x61, 0x01, 0x80, 0x14], 3);
    let reg = vm.registers();
    assert_eq!(reg[0], 0x00);
    assert_eq!(reg[15], 1);
}

#[test]
fn sprite_is_drawn_and_erased_by_drawing_it_again() {
    let mut vm = VM::new();
    vm.load_program(&[0xFF, 0x00, 0xFF, 0x00, 0xFF]).unwrap();
    for opcode in [0xA200u16, 0x6000, 0x6100] {
        assert_eq!(vm.execute(opcode, &NO_KEYS), Ok(false));
    }
    assert_eq!(vm.execute(0xD015, &NO_KEYS), Ok(true));
    for y in 0..32 {
        for x in 0..64 {
            assert_eq!(vm.pixel(x, y), x < 8 && (y == 0 || y == 2 || y == 4), "({x}, {y})");
        }
    }
    assert_eq!(vm.registers()[15], 0);
    assert_eq!(vm.frame()[0], 0xFF);
    assert_eq!(vm.frame()[64], 0x00);
    for opcode in [0xA200u16, 0x6000, 0x6100] {
        vm.execute(opcode, &NO_KEYS).unwrap();
    }
    assert_eq!(vm.execute(0xD015, &NO_KEYS), Ok(true));
    assert_eq!(vm.registers()[15], 1);
    for y in 0..32 {
        for x in 0..64 {
            assert!(!vm.pixel(x, y));
        }
    }
}

#[test]
fn sprite_position_wraps_and_sprite_is_clipped() {
    let mut vm = VM::new();
    vm.load_program(&[0xFF, 0xFF, 0xFF]).unwrap();
    // V0 = 64 + 60, V1 = 32 + 30: the corner is at (60, 30)
    for opcode in [0xA200u16, 0x607C, 0x613E, 0xD013] {
        vm.execute(opcode, &NO_KEYS).unwrap();
    }
    for y in 0..32 {
        for x in 0..64 {
            assert_eq!(vm.pixel(x, y), x >= 60 && y >= 30, "({x}, {y})");
        }
    }
    assert!(!vm.pixel(64, 0));
    assert!(!vm.pixel(0, 32));
}

#[test]
fn subtraction_sets_the_flag_when_there_is_no_borrow() {
    let mut vm = VM::new();
    for opcode in [0x6005u16, 0x6103, 0x8015] {
        vm.execute(opcode, &NO_KEYS).unwrap();
    }
    assert_eq!(vm.registers()[0], 2);
    assert_eq!(vm.registers()[15], 1);
    for opcode in [0x6003u16, 0x6105, 0x8015] {
        vm.execute(opcode, &NO_KEYS).unwrap();
    }
    assert_eq!(vm.registers()[0], 254);
    assert_eq!(vm.registers()[15], 0);
    // subn: V0 = V1 - V0
    for opcode in [0x6003u16, 0x6105, 0x8017] {
        vm.execute(opcode, &NO_KEYS).unwrap();
    }
    assert_eq!(vm.registers()[0], 2);
    assert_eq!(vm.registers()[15], 1);
}

#[test]
fn flag_wins_when_the_target_is_vf() {
    let mut vm = VM::new();
    for opcode in [0x6FFFu16, 0x6102, 0x8F14] {
        vm.execute(opcode, &NO_KEYS).unwrap();
    }
    assert_eq!(vm.registers()[15], 1);
    for opcode in [0x6F05u16, 0x6103, 0x8F15] {
        vm.execute(opcode, &NO_KEYS).unwrap();
    }
    assert_eq!(vm.registers()[15], 1);
}

#[test]
fn logic_operations_clear_the_flag() {
    let mut vm = VM::new();
    for opcode in [0x6F01u16, 0x600C, 0x610A, 0x8011] {
        vm.execute(opcode, &NO_KEYS).unwrap();
    }
    assert_eq!(vm.registers()[0], 0x0E);
    assert_eq!(vm.registers()[15], 0);
    for opcode in [0x600Cu16, 0x8012] {
        vm.execute(opcode, &NO_KEYS).unwrap();
    }
    assert_eq!(vm.registers()[0], 0x08);
    for opcode in [0x600Cu16, 0x8013] {
        vm.execute(opcode, &NO_KEYS).unwrap();
    }
    assert_eq!(vm.registers()[0], 0x06);
}

#[test]
fn shifts_take_their_operand_from_vy() {
    let mut vm = VM::new();
    for opcode in [0x6000u16, 0x6185, 0x8016] {
        vm.execute(opcode, &NO_KEYS).unwrap();
    }
    assert_eq!(vm.registers()[0], 0x42);
    assert_eq!(vm.registers()[15], 1);
    for opcode in [0x6000u16, 0x6185, 0x801E] {
        vm.execute(opcode, &NO_KEYS).unwrap();
    }
    assert_eq!(vm.registers()[0], 0x0A);
    assert_eq!(vm.registers()[15], 1);
    // with VF as the target only the flag stays
    for opcode in [0x6186u16, 0x8F16] {
        vm.execute(opcode, &NO_KEYS).unwrap();
    }
    assert_eq!(vm.registers()[15], 0);
    for opcode in [0x6185u16, 0x8F1E] {
        vm.execute(opcode, &NO_KEYS).unwrap();
    }
    assert_eq!(vm.registers()[15], 1);
}

#[test]
fn call_and_return() {
    let mut vm = VM::new();
    assert_eq!(vm.execute(0x2300, &NO_KEYS), Ok(false));
    assert_eq!(vm.pc(), 0x300);
    assert_eq!(vm.stack_pointer(), 1);
    assert_eq!(vm.execute(0x00EE, &NO_KEYS), Ok(false));
    assert_eq!(vm.pc(), 0x200);
    assert_eq!(vm.stack_pointer(), 0);
    assert_eq!(vm.execute(0x00EE, &NO_KEYS), Err(Fault::StackUnderflow));
    for _ in 0..16 {
        vm.execute(0x2300, &NO_KEYS).unwrap();
    }
    assert_eq!(vm.execute(0x2300, &NO_KEYS), Err(Fault::StackOverflow));
    assert_eq!(vm.stack_pointer(), 16);
}

#[test]
fn jumps() {
    let mut vm = VM::new();
    vm.execute(0x1ABC, &NO_KEYS).unwrap();
    assert_eq!(vm.pc(), 0xABC);
    vm.execute(0x6010, &NO_KEYS).unwrap();
    vm.execute(0xB300, &NO_KEYS).unwrap();
    assert_eq!(vm.pc(), 0x310);
}

#[test]
fn skips() {
    let mut vm = VM::new();
    vm.execute(0x6042, &NO_KEYS).unwrap();
    vm.execute(0x6142, &NO_KEYS).unwrap();
    vm.execute(0x3042, &NO_KEYS).unwrap();
    assert_eq!(vm.pc(), 0x202);
    vm.execute(0x3043, &NO_KEYS).unwrap();
    assert_eq!(vm.pc(), 0x202);
    vm.execute(0x4043, &NO_KEYS).unwrap();
    assert_eq!(vm.pc(), 0x204);
    vm.execute(0x5010, &NO_KEYS).unwrap();
    assert_eq!(vm.pc(), 0x206);
    vm.execute(0x9010, &NO_KEYS).unwrap();
    assert_eq!(vm.pc(), 0x206);
    assert_eq!(vm.execute(0x5011, &NO_KEYS), Err(Fault::UnknownOpcode { opcode: 0x5011 }));
    assert_eq!(vm.execute(0x9011, &NO_KEYS), Err(Fault::UnknownOpcode { opcode: 0x9011 }));
}

#[test]
fn keypad_skips_use_the_low_nibble() {
    let mut vm = VM::new();
    let mut keys = [false; 16];
    keys[3] = true;
    vm.execute(0x6013, &keys).unwrap();
    vm.execute(0xE09E, &keys).unwrap();
    assert_eq!(vm.pc(), 0x202);
    vm.execute(0xE0A1, &keys).unwrap();
    assert_eq!(vm.pc(), 0x202);
    vm.execute(0x6004, &keys).unwrap();
    vm.execute(0xE0A1, &keys).unwrap();
    assert_eq!(vm.pc(), 0x204);
    assert_eq!(vm.execute(0xE000, &keys), Err(Fault::UnknownOpcode { opcode: 0xE000 }));
}

#[test]
fn random_is_masked() {
    let mut vm = VM::new();
    for _ in 0..50 {
        vm.execute(0xC00F, &NO_KEYS).unwrap();
        assert!(vm.registers()[0] <= 0x0F);
    }
    vm.execute_with(0xC0F0, &NO_KEYS, 0xAB).unwrap();
    assert_eq!(vm.registers()[0], 0xA0);
}

#[test]
fn timers_memory_and_index() {
    let mut vm = VM::new();
    vm.execute(0x60EA, &NO_KEYS).unwrap(); // V0 = 234
    vm.execute(0xF015, &NO_KEYS).unwrap();
    vm.execute(0xF018, &NO_KEYS).unwrap();
    assert_eq!(vm.delay_timer(), 234);
    assert_eq!(vm.sound_timer(), 234);
    vm.execute(0xF107, &NO_KEYS).unwrap();
    assert_eq!(vm.registers()[1], 234);
    vm.execute(0xA300, &NO_KEYS).unwrap();
    vm.execute(0xF033, &NO_KEYS).unwrap();
    assert_eq!(vm.peek(0x300), Some(2));
    assert_eq!(vm.peek(0x301), Some(3));
    assert_eq!(vm.peek(0x302), Some(4));
    vm.execute(0xF01E, &NO_KEYS).unwrap();
    assert_eq!(vm.index(), 0x300 + 234);
    vm.execute(0x6007, &NO_KEYS).unwrap();
    vm.execute(0xF029, &NO_KEYS).unwrap();
    assert_eq!(vm.index(), 35);
    vm.execute(0xA400, &NO_KEYS).unwrap();
    vm.execute(0x6011, &NO_KEYS).unwrap();
    vm.execute(0x6122, &NO_KEYS).unwrap();
    vm.execute(0x6233, &NO_KEYS).unwrap();
    vm.execute(0xF255, &NO_KEYS).unwrap();
    assert_eq!(vm.index(), 0x403);
    assert_eq!(vm.peek(0x400), Some(0x11));
    assert_eq!(vm.peek(0x401), Some(0x22));
    assert_eq!(vm.peek(0x402), Some(0x33));
    assert_eq!(vm.peek(0x403), Some(0));
    vm.execute(0xA401, &NO_KEYS).unwrap();
    vm.execute(0xF165, &NO_KEYS).unwrap();
    assert_eq!(vm.registers()[0], 0x22);
    assert_eq!(vm.registers()[1], 0x33);
    assert_eq!(vm.registers()[2], 0x33);
    assert_eq!(vm.index(), 0x403);
    assert_eq!(vm.execute(0xF0FF, &NO_KEYS), Err(Fault::UnknownOpcode { opcode: 0xF0FF }));
}

#[test]
fn accesses_beyond_memory_are_faults() {
    let mut vm = VM::new();
    vm.execute(0xAFFF, &NO_KEYS).unwrap();
    assert_eq!(vm.execute(0xF033, &NO_KEYS), Err(Fault::AddressOutOfRange { address: 0xFFF }));
    assert_eq!(vm.execute(0xF155, &NO_KEYS), Err(Fault::AddressOutOfRange { address: 0xFFF }));
    assert_eq!(vm.execute(0xF165, &NO_KEYS), Err(Fault::AddressOutOfRange { address: 0xFFF }));
    assert_eq!(vm.execute(0xD012, &NO_KEYS), Err(Fault::AddressOutOfRange { address: 0xFFF }));
    assert_eq!(vm.execute(0xD011, &NO_KEYS), Ok(true));
    assert_eq!(vm.execute(0xF055, &NO_KEYS), Ok(false));
    assert_eq!(vm.index(), 0x1000);
    vm.execute(0x1FFF, &NO_KEYS).unwrap();
    assert_eq!(vm.fetch(), Err(Fault::AddressOutOfRange { address: 0xFFF }));
    assert_eq!(vm.pc(), 0xFFF);
}

#[test]
fn store_into_the_font_is_the_only_way_to_change_it() {
    let mut vm = VM::new();
    let mut program = vec![0u8; 3584];
    program[3583] = 7;
    assert_eq!(vm.load_program(&program), Ok(()));
    assert_eq!(vm.peek(0), Some(0xF0));
    assert_eq!(vm.peek(79), Some(0x80));
    assert_eq!(vm.peek(4095), Some(7));
    program.push(0);
    assert_eq!(vm.load_program(&program), Err(Fault::ProgramTooLarge { size: 3585 }));
    vm.execute(0x6055, &NO_KEYS).unwrap();
    vm.execute(0xA000, &NO_KEYS).unwrap();
    vm.execute(0xF055, &NO_KEYS).unwrap();
    assert_eq!(vm.peek(0), Some(0x55));
}

#[test]
fn timers_tick_down_to_zero_and_gate_the_tone() {
    let mut vm = VM::new();
    vm.execute(0x6002, &NO_KEYS).unwrap();
    vm.execute(0xF015, &NO_KEYS).unwrap();
    vm.execute(0x6001, &NO_KEYS).unwrap();
    vm.execute(0xF018, &NO_KEYS).unwrap();
    assert!(vm.tick_timers());
    assert_eq!((vm.delay_timer(), vm.sound_timer()), (1, 0));
    assert!(!vm.tick_timers());
    assert_eq!((vm.delay_timer(), vm.sound_timer()), (0, 0));
    assert!(!vm.tick_timers());
    assert_eq!((vm.delay_timer(), vm.sound_timer()), (0, 0));
}

#[test]
fn waiting_for_a_key_suspends_the_machine_until_a_release() {
    let mut vm = VM::new();
    vm.load_program(&[0xF3, 0x0A, 0x60, 0x01]).unwrap();
    let none: Vec<Event> = Vec::new();
    assert_eq!(vm.cycle(&none, false, &NO_KEYS), Ok(Cycle { present: false, audio: None }));
    assert_eq!(vm.waiting_for_key(), Some(3));
    assert_eq!(vm.pc(), 0x202);
    assert_eq!(vm.cycle(&none, true, &NO_KEYS), Ok(Cycle { present: false, audio: Some(false) }));
    assert_eq!(vm.pc(), 0x202);
    // a key that is not on the keypad changes nothing
    assert_eq!(
        vm.cycle(&vec![Event::KeyReleased(16)], false, &NO_KEYS),
        Ok(Cycle { present: false, audio: None })
    );
    assert_eq!(vm.pc(), 0x202);
    assert_eq!(
        vm.cycle(&vec![Event::KeyReleased(0xB)], false, &NO_KEYS),
        Ok(Cycle { present: false, audio: None })
    );
    assert_eq!(vm.waiting_for_key(), None);
    assert_eq!(vm.registers()[3], 0xB);
    assert_eq!(vm.registers()[0], 1);
    assert_eq!(vm.pc(), 0x204);
}

#[test]
fn quit_clears_running_and_the_cycle_still_completes() {
    let mut vm = VM::new();
    vm.load_program(&[0x00, 0xE0]).unwrap();
    assert_eq!(
        vm.cycle_with(&vec![Event::Quit], true, &NO_KEYS, 0),
        Ok(Cycle { present: true, audio: Some(false) })
    );
    assert!(!vm.is_running());
    assert_eq!(vm.pc(), 0x202);
    assert_eq!(vm.cycle(&vec![], false, &NO_KEYS), Err(Fault::NativeCall { address: 0 }));
    assert_eq!(vm.pc(), 0x204);
}

#[test]
fn keypad_layout_maps_both_ways() {
    let host = [
        'X', '1', '2', '3', 'Q', 'W', 'E', 'A', 'S', 'D', 'Z', 'C', '4', 'R', 'F', 'V',
    ];
    for key in 0..16u8 {
        assert_eq!(chip8_key_to_key(key), host[key as usize]);
        assert_eq!(key_to_chip8_key(host[key as usize]), Some(key));
    }
    assert_eq!(key_to_chip8_key('P'), None);
    assert_eq!(key_to_chip8_key('q'), None);
}

#[test]
fn only_the_timer_loads_change_the_timers() {
    let mut vm = VM::new();
    vm.load_program(&[0xFF, 0x81]).unwrap();
    vm.execute(0x6009, &NO_KEYS).unwrap();
    vm.execute(0xF015, &NO_KEYS).unwrap();
    vm.execute(0x6007, &NO_KEYS).unwrap();
    vm.execute(0xF018, &NO_KEYS).unwrap();
    for opcode in [
        0x00E0u16, 0x1204, 0x2300, 0x00EE, 0x3007, 0x4007, 0x5010, 0x61FF, 0x7101, 0x8010, 0x8011,
        0x8012, 0x8013, 0x8014, 0x8015, 0x8016, 0x8017, 0x801E, 0x9010, 0xA200, 0xB200, 0xC1FF,
        0xD012, 0xE09E, 0xE0A1, 0xF107, 0xF10A, 0xF11E, 0xF129, 0xA300, 0xF133, 0xF155, 0xF165,
    ] {
        vm.execute(opcode, &NO_KEYS).unwrap();
        assert_eq!((vm.delay_timer(), vm.sound_timer()), (9, 7), "{opcode:04X}");
    }
    assert_eq!(vm.fetch(), Ok(0x0000));
    vm.handle_event(Event::KeyReleased(3));
    vm.handle_event(Event::Quit);
    assert_eq!((vm.delay_timer(), vm.sound_timer()), (9, 7));
    vm.tick_timers();
    assert_eq!((vm.delay_timer(), vm.sound_timer()), (8, 6));
}

#[test]
fn machine_without_the_quirks() {
    assert_eq!(Quirks::default(), Quirks { index_advances: true, shift_reads_vy: true });
    assert_eq!(VM::new().quirks(), Quirks::default());
    let mut vm = VM::with_quirks(Quirks { index_advances: false, shift_reads_vy: false });
    for opcode in [0xA400u16, 0x6011, 0x6122, 0xF155] {
        vm.execute(opcode, &NO_KEYS).unwrap();
    }
    assert_eq!(vm.index(), 0x400);
    assert_eq!(vm.peek(0x401), Some(0x22));
    for opcode in [0x6000u16, 0x6100, 0xF165] {
        vm.execute(opcode, &NO_KEYS).unwrap();
    }
    assert_eq!(vm.index(), 0x400);
    assert_eq!(vm.registers()[1], 0x22);
    for opcode in [0x6005u16, 0x61FF, 0x8016] {
        vm.execute(opcode, &NO_KEYS).unwrap();
    }
    assert_eq!(vm.registers()[0], 2);
    assert_eq!(vm.registers()[15], 1);
    for opcode in [0x6081u16, 0x6100, 0x801E] {
        vm.execute(opcode, &NO_KEYS).unwrap();
    }
    assert_eq!(vm.registers()[0], 2);
    assert_eq!(vm.registers()[15], 1);
}

#[test]
fn a_sprite_drawn_directly_flags_what_it_erases() {
    let mut vm = VM::new();
    vm.load_program(&[0b1010_0000, 0b0100_0000]).unwrap();
    vm.execute(0xA200, &NO_KEYS).unwrap();
    vm.execute(0x6F07, &NO_KEYS).unwrap();
    assert_eq!(vm.draw_sprite(1, 2, 2), Ok(()));
    assert_eq!(vm.registers()[15], 0);
    assert!(vm.pixel(1, 2) && !vm.pixel(2, 2) && vm.pixel(3, 2));
    assert!(!vm.pixel(1, 3) && vm.pixel(2, 3));
    // one dot, drawn twice at the same place: the second time it erases
    vm.execute(0xA201, &NO_KEYS).unwrap();
    assert_eq!(vm.draw_sprite(64 + 3, 32 + 2, 1), Ok(()));
    assert_eq!(vm.registers()[15], 0);
    assert!(vm.pixel(4, 2));
    assert_eq!(vm.draw_sprite(3, 2, 1), Ok(()));
    assert_eq!(vm.registers()[15], 1);
    assert!(!vm.pixel(4, 2) && vm.pixel(3, 2));
    // no row, no change, and the flag is cleared
    assert_eq!(vm.draw_sprite(0, 0, 0), Ok(()));
    assert_eq!(vm.registers()[15], 0);
    // rows that fall off the display need no memory
    vm.execute(0xAFFF, &NO_KEYS).unwrap();
    assert_eq!(vm.draw_sprite(0, 31, 200), Ok(()));
    assert_eq!(vm.draw_sprite(0, 30, 2), Err(Fault::AddressOutOfRange { address: 0xFFF }));
    assert_eq!(vm.registers()[15], 0);
}
