//! The emulator shell: pairing a machine with its presentation options.

use chip8::Chip8;
use chip8::EmuSdl2;
use chip8::Options;
use chip8::Quirks;

fn quirks_off() -> Quirks {
    Quirks {
        vf_reset: false,
        memory: false,
        display_wait: false,
        clipping: false,
        shifting: false,
        jumping: false,
    }
}

#[test]
fn emulator_carries_machine_and_options() {
    let c = Chip8::new(vec![0x00, 0xE0], quirks_off()).unwrap();
    let options = Options {
        fps: 60,
        mul: 20,
        scale: 10,
        color: 0xFF222222,
        background: 0xFF666F66,
        pitch: 432,
    };
    let emu = EmuSdl2::new(c, options);
    assert_eq!(emu.fps, 60);
    assert_eq!(emu.mul, 20);
    assert_eq!(emu.scale, 10);
    assert_eq!(emu.color, 0xFF222222);
    assert_eq!(emu.background, 0xFF666F66);
    assert_eq!(emu.pitch, 432);
    assert_eq!(emu.chip8.pc, 0x200);
}

#[test]
fn quirk_configuration_is_kept() {
    let q = Quirks {
        vf_reset: true,
        memory: true,
        display_wait: true,
        clipping: true,
        shifting: false,
        jumping: false,
    };
    let c = Chip8::new(vec![], q).unwrap();
    assert!(c.quirks.vf_reset);
    assert!(c.quirks.memory);
    assert!(c.quirks.display_wait);
    assert!(c.quirks.clipping);
    assert!(!c.quirks.shifting);
    assert!(!c.quirks.jumping);
}
