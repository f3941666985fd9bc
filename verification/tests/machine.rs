//! Construction, decoding, arithmetic and logic instruction behaviour.

use chip8::Chip8;
use chip8::Chip8Error;
use chip8::Instruction;
use chip8::Quirks;

fn quirks_off() -> Quirks {
    Quirks {
        vf_reset: false,
        memory: false,
        display_wait: false,
        clipping: false,
        shifting: false,
        jumping: false,
    }
}

fn machine(program: Vec<u8>) -> Chip8 {
    Chip8::new(program, quirks_off()).unwrap()
}

fn run(c: &mut Chip8, steps: usize) {
    for _ in 0..steps {
        c.step().unwrap();
    }
}

#[test]
fn new_loads_font_program_and_zeroes() {
    let c = machine(vec![0x60, 0x05]);
    assert_eq!(&c.memory[0..5], &[0xF0, 0x90, 0x90, 0x90, 0xF0]);
    assert_eq!(&c.memory[75..80], &[0xF0, 0x80, 0xF0, 0x80, 0x80]);
    assert_eq!(&c.memory[0x200..0x202], &[0x60, 0x05]);
    assert_eq!(c.memory[0x202], 0);
    assert_eq!(c.pc, 0x200);
    assert_eq!(c.sp, 0);
    assert_eq!(c.i, 0);
    assert!(c.registers.iter().all(|&v| v == 0));
    assert!(c.display.iter().all(|&p| !p));
    assert!(!c.display_update);
}

#[test]
fn new_rejects_oversized_program() {
    let r = Chip8::new(vec![0u8; 3585], quirks_off());
    assert_eq!(r.err(), Some(Chip8Error::ProgramTooLarge { len: 3585 }));
    assert!(Chip8::new(vec![0u8; 3584], quirks_off()).is_ok());
}

#[test]
fn decode_covers_all_families() {
    assert_eq!(Chip8::decode(0x00E0), Instruction::Cls);
    assert_eq!(Chip8::decode(0x00EE), Instruction::Ret);
    assert_eq!(Chip8::decode(0x0123), Instruction::Sys(0x123));
    assert_eq!(Chip8::decode(0x1ABC), Instruction::Jmp(0xABC));
    assert_eq!(Chip8::decode(0x2ABC), Instruction::Call(0xABC));
    assert_eq!(Chip8::decode(0x3A12), Instruction::Skeb(0xA, 0x12));
    assert_eq!(Chip8::decode(0x4A12), Instruction::Skneb(0xA, 0x12));
    assert_eq!(Chip8::decode(0x5AB0), Instruction::Ske(0xA, 0xB));
    assert_eq!(Chip8::decode(0x5AB1), Instruction::Unknown(0x5AB1));
    assert_eq!(Chip8::decode(0x6A12), Instruction::Ldb(0xA, 0x12));
    assert_eq!(Chip8::decode(0x7A12), Instruction::Addb(0xA, 0x12));
    assert_eq!(Chip8::decode(0x8AB0), Instruction::Ld(0xA, 0xB));
    assert_eq!(Chip8::decode(0x8AB1), Instruction::Or(0xA, 0xB));
    assert_eq!(Chip8::decode(0x8AB2), Instruction::And(0xA, 0xB));
    assert_eq!(Chip8::decode(0x8AB3), Instruction::Xor(0xA, 0xB));
    assert_eq!(Chip8::decode(0x8AB4), Instruction::Add(0xA, 0xB));
    assert_eq!(Chip8::decode(0x8AB5), Instruction::Sub(0xA, 0xB));
    assert_eq!(Chip8::decode(0x8AB6), Instruction::Shr(0xA, 0xB));
    assert_eq!(Chip8::decode(0x8AB7), Instruction::Subr(0xA, 0xB));
    assert_eq!(Chip8::decode(0x8ABE), Instruction::Shl(0xA, 0xB));
    assert_eq!(Chip8::decode(0x8AB8), Instruction::Unknown(0x8AB8));
    assert_eq!(Chip8::decode(0x9AB0), Instruction::Skne(0xA, 0xB));
    assert_eq!(Chip8::decode(0xAABC), Instruction::Ldi(0xABC));
    assert_eq!(Chip8::decode(0xBABC), Instruction::Jmpz(0xABC));
    assert_eq!(Chip8::decode(0xCA12), Instruction::Rnd(0xA, 0x12));
    assert_eq!(Chip8::decode(0xDAB5), Instruction::Draw(0xA, 0xB, 5));
    assert_eq!(Chip8::decode(0xEA9E), Instruction::Skp(0xA));
    assert_eq!(Chip8::decode(0xEAA1), Instruction::Sknp(0xA));
    assert_eq!(Chip8::decode(0xEA00), Instruction::Unknown(0xEA00));
    assert_eq!(Chip8::decode(0xFA07), Instruction::Ldft(0xA));
    assert_eq!(Chip8::decode(0xFA0A), Instruction::Ldkp(0xA));
    assert_eq!(Chip8::decode(0xFA15), Instruction::Ldtt(0xA));
    assert_eq!(Chip8::decode(0xFA18), Instruction::Ldst(0xA));
    assert_eq!(Chip8::decode(0xFA1E), Instruction::Addi(0xA));
    assert_eq!(Chip8::decode(0xFA29), Instruction::Font(0xA));
    assert_eq!(Chip8::decode(0xFA33), Instruction::Bcd(0xA));
    assert_eq!(Chip8::decode(0xFA55), Instruction::Sreg(0xA));
    assert_eq!(Chip8::decode(0xFA65), Instruction::Lreg(0xA));
    assert_eq!(Chip8::decode(0xFA66), Instruction::Unknown(0xFA66));
}

#[test]
fn fetch_reads_big_endian_word() {
    let c = machine(vec![0x00, 0xE0]);
    assert_eq!(c.fetch(), 0x00E0);
}

#[test]
fn add_registers_sets_carry() {
    // V0 = 200, V1 = 100, ADD V0,V1: 300 wraps to 44 with carry.
    let mut c = machine(vec![0x60, 0xC8, 0x61, 0x64, 0x80, 0x14]);
    run(&mut c, 3);
    assert_eq!(c.registers[0], 44);
    assert_eq!(c.registers[0xF], 1);
}

#[test]
fn add_registers_clears_carry() {
    // V0 = 20, V1 = 30: 50, no carry; VF was set to 7 beforehand.
    let mut c = machine(vec![0x6F, 0x07, 0x60, 0x14, 0x61, 0x1E, 0x80, 0x14]);
    run(&mut c, 4);
    assert_eq!(c.registers[0], 50);
    assert_eq!(c.registers[0xF], 0);
}

#[test]
fn sub_registers_not_borrow_convention() {
    // V0 = 5, V1 = 3: V0 - V1 = 2, VF = 1 (no borrow).
    let mut c = machine(vec![0x60, 0x05, 0x61, 0x03, 0x80, 0x15]);
    run(&mut c, 3);
    assert_eq!(c.registers[0], 2);
    assert_eq!(c.registers[0xF], 1);
    // V2 = 3, V3 = 5: V2 - V3 wraps to 254, VF = 0 (borrow).
    let mut c = machine(vec![0x62, 0x03, 0x63, 0x05, 0x82, 0x35]);
    run(&mut c, 3);
    assert_eq!(c.registers[2], 254);
    assert_eq!(c.registers[0xF], 0);
}

#[test]
fn reverse_sub_uses_second_minus_first() {
    // V0 = 3, V1 = 5: SUBR V0,V1 gives V0 = V1 - V0 = 2, VF = 1.
    let mut c = machine(vec![0x60, 0x03, 0x61, 0x05, 0x80, 0x17]);
    run(&mut c, 3);
    assert_eq!(c.registers[0], 2);
    assert_eq!(c.registers[0xF], 1);
    // V2 = 5, V3 = 3: V3 - V2 wraps to 254, VF = 0.
    let mut c = machine(vec![0x62, 0x05, 0x63, 0x03, 0x82, 0x37]);
    run(&mut c, 3);
    assert_eq!(c.registers[2], 254);
    assert_eq!(c.registers[0xF], 0);
}

#[test]
fn add_immediate_wraps_without_flag() {
    // VF = 7 first, then V0 = 250 + 10 wraps to 4 and VF stays 7.
    let mut c = machine(vec![0x6F, 0x07, 0x60, 0xFA, 0x70, 0x0A]);
    run(&mut c, 3);
    assert_eq!(c.registers[0], 4);
    assert_eq!(c.registers[0xF], 7);
}

#[test]
fn load_and_or_and_xor() {
    // V0 = 0x0F, V1 = 0x35: OR -> 0x3F.
    let mut c = machine(vec![0x60, 0x0F, 0x61, 0x35, 0x80, 0x11]);
    run(&mut c, 3);
    assert_eq!(c.registers[0], 0x3F);
    // AND -> 0x05.
    let mut c = machine(vec![0x60, 0x0F, 0x61, 0x35, 0x80, 0x12]);
    run(&mut c, 3);
    assert_eq!(c.registers[0], 0x05);
    // XOR -> 0x3A.
    let mut c = machine(vec![0x60, 0x0F, 0x61, 0x35, 0x80, 0x13]);
    run(&mut c, 3);
    assert_eq!(c.registers[0], 0x3A);
    // LD copies.
    let mut c = machine(vec![0x61, 0x35, 0x80, 0x10]);
    run(&mut c, 2);
    assert_eq!(c.registers[0], 0x35);
}

#[test]
fn logic_vf_reset_quirk() {
    let program = vec![0x6F, 0x07, 0x60, 0x0F, 0x61, 0x35, 0x80, 0x11];
    // Quirk off: VF keeps its prior value.
    let mut c = Chip8::new(program.clone(), quirks_off()).unwrap();
    run(&mut c, 4);
    assert_eq!(c.registers[0xF], 7);
    // Quirk on: VF is zeroed by the OR.
    let mut q = quirks_off();
    q.vf_reset = true;
    let mut c = Chip8::new(program, q).unwrap();
    run(&mut c, 4);
    assert_eq!(c.registers[0xF], 0);
}

#[test]
fn shift_right_captures_low_bit() {
    // V0 = 0b0000_0101: SHR -> 0b10, VF = 1.
    let mut c = machine(vec![0x60, 0x05, 0x80, 0x16]);
    run(&mut c, 2);
    assert_eq!(c.registers[0], 0b10);
    assert_eq!(c.registers[0xF], 1);
}

#[test]
fn shift_left_captures_high_bit() {
    // V0 = 0b1100_0001: SHL -> 0b1000_0010, VF = 1.
    let mut c = machine(vec![0x60, 0xC1, 0x80, 0x1E]);
    run(&mut c, 2);
    assert_eq!(c.registers[0], 0b1000_0010);
    assert_eq!(c.registers[0xF], 1);
}

#[test]
fn shifting_quirk_reads_second_operand() {
    let program = vec![0x60, 0x01, 0x61, 0x06, 0x80, 0x16];
    // Quirk off: SHR V0,V1 shifts V0 itself: 1 >> 1 = 0, VF = 1.
    let mut c = Chip8::new(program.clone(), quirks_off()).unwrap();
    run(&mut c, 3);
    assert_eq!(c.registers[0], 0);
    assert_eq!(c.registers[0xF], 1);
    // Quirk on: SHR V0,V1 shifts V1 into V0: 6 >> 1 = 3, VF = 0.
    let mut q = quirks_off();
    q.shifting = true;
    let mut c = Chip8::new(program, q).unwrap();
    run(&mut c, 3);
    assert_eq!(c.registers[0], 3);
    assert_eq!(c.registers[0xF], 0);
}

#[test]
fn flag_register_as_destination_keeps_flag_write_last() {
    // VF = 200, V1 = 100: ADD VF,V1 computes 300, but the carry write wins:
    // VF ends as 1, not 44.
    let mut c = machine(vec![0x6F, 0xC8, 0x61, 0x64, 0x8F, 0x14]);
    run(&mut c, 3);
    assert_eq!(c.registers[0xF], 1);
}

#[test]
fn random_masks_with_immediate() {
    // RND V0, 0x0F: whatever byte was drawn, only its low nibble remains.
    let mut c = machine(vec![0xC0, 0x0F]);
    run(&mut c, 1);
    assert_eq!(c.registers[0] & !0x0F, 0);
}

#[test]
fn step_with_makes_random_reproducible() {
    // RND V0, 0xFF with an injected byte stores exactly that byte.
    let mut c = machine(vec![0xC0, 0xFF]);
    c.step_with(0xAB).unwrap();
    assert_eq!(c.registers[0], 0xAB);
    // And the mask still applies.
    let mut c = machine(vec![0xC0, 0xF0]);
    c.step_with(0xAB).unwrap();
    assert_eq!(c.registers[0], 0xA0);
}

#[test]
fn bcd_stores_decimal_digits() {
    // V0 = 234, I = 0x300, BCD.
    let mut c = machine(vec![0x60, 0xEA, 0xA3, 0x00, 0xF0, 0x33]);
    run(&mut c, 3);
    assert_eq!(c.memory[0x300], 2);
    assert_eq!(c.memory[0x301], 3);
    assert_eq!(c.memory[0x302], 4);
}

#[test]
fn font_address_uses_low_nibble() {
    // V0 = 0xAB: glyph address of digit B is 11 * 5 = 55.
    let mut c = machine(vec![0x60, 0xAB, 0xF0, 0x29]);
    run(&mut c, 2);
    assert_eq!(c.i, 55);
}

#[test]
fn add_to_index_accumulates() {
    // I = 0xFFF, V0 = 255: ADDI leaves I at 0xFFF + 255 = 4350.
    let mut c = machine(vec![0xAF, 0xFF, 0x60, 0xFF, 0xF0, 0x1E]);
    run(&mut c, 3);
    assert_eq!(c.i, 4350);
}

#[test]
fn register_block_store_and_load() {
    // V0..V2 = 1, 2, 3; I = 0x300; SREG V2 writes them to memory.
    let mut c = machine(vec![
        0x60, 0x01, 0x61, 0x02, 0x62, 0x03, 0xA3, 0x00, 0xF2, 0x55,
    ]);
    run(&mut c, 5);
    assert_eq!(&c.memory[0x300..0x303], &[1, 2, 3]);
    assert_eq!(c.memory[0x303], 0);
    assert_eq!(c.i, 0x300, "memory quirk off leaves I unchanged");
    // LREG V1 reads memory back into V0..V1.
    let mut c = machine(vec![0xA2, 0x06, 0xF1, 0x65, 0x00, 0x00, 0x2A, 0x3B]);
    run(&mut c, 2);
    assert_eq!(c.registers[0], 0x2A);
    assert_eq!(c.registers[1], 0x3B);
    assert_eq!(c.registers[2], 0);
}

#[test]
fn register_block_memory_quirk_advances_index() {
    let program = vec![0x60, 0x01, 0x61, 0x02, 0xA3, 0x00, 0xF1, 0x55];
    let mut q = quirks_off();
    q.memory = true;
    let mut c = Chip8::new(program, q).unwrap();
    run(&mut c, 4);
    assert_eq!(&c.memory[0x300..0x302], &[1, 2]);
    assert_eq!(c.i, 0x302, "memory quirk on advances I by the count");
}
