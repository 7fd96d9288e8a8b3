use lib::apic::ioapic::IoApic;
use lib::apic::lapic::Lapic;
use lib::apic::{enable_apic_mode, Apic};
use lib::interrupts::{end_of_interrupt, EoiWrite};
use lib::cpu::gdt::{get_field, set_field, PrivilegeLevel, SegmentAttributes, SegmentSelector, SegmentType};
use lib::cpu::rtc::RtClock;
use lib::drivers::keyboard::{KeyCode, Keyboard};
use lib::drivers::screen::display::Display;
use lib::drivers::screen::framebuffer::Framebuffer;
use lib::drivers::vga::{Color, VgaBufferWriter, VgaChar, VGA_SIZE};
use lib::hardware::isr::exception_message;
use lib::interrupts::idt::{IdtEntry, InterruptDescriptorTable};
use lib::interrupts::timer::init_timer;
use lib::io::sleep_for;

#[test]
fn selector_packs_index_and_privilege() {
    let s = SegmentSelector::new(5, PrivilegeLevel::User);
    assert_eq!(s.0, (5 << 3) | 3);
    assert_eq!(s.index(), 5);
    assert_eq!(s.privilege_level(), PrivilegeLevel::User);
    let k = SegmentSelector::new(1, PrivilegeLevel::Supervisor);
    assert_eq!(k.0, 0x08);
}

#[test]
fn bit_fields_of_a_word() {
    assert_eq!(get_field(0b1011_0000, 4, 4), 0b1011);
    assert_eq!(set_field(0, 4, 4, 0b1011), 0b1011_0000);
    assert_eq!(set_field(0xFFFF, 0, 4, 0), 0xFFF0);
}

#[test]
fn segment_attributes_round_trip() {
    let a = SegmentAttributes::new()
        .with_segment_type(SegmentType::Code)
        .with_dpl(PrivilegeLevel::User)
        .with_present(true)
        .with_long_mode(true);
    assert_eq!(a.segment_type(), SegmentType::Code);
    assert_eq!(a.dpl(), PrivilegeLevel::User);
    assert!(a.present());
    assert!(a.long_mode());
    let b = a.with_present(false);
    assert!(!b.present());
    assert_eq!(b.segment_type(), SegmentType::Code);
}

#[test]
fn idt_gate_splits_the_handler_address() {
    let mut e = IdtEntry::default();
    e.set_gate(0x1122_3344_5566_7788, 0x8E, 0x08);
    assert_eq!(e.offset0, 0x7788);
    assert_eq!(e.offset1, 0x5566);
    assert_eq!(e.offset2, 0x1122_3344);
    assert_eq!(e.selector, 0x08);
    assert_eq!(e.types_attr, 0x8E);
}

#[test]
fn timer_installs_its_gate() {
    let mut idt = InterruptDescriptorTable::new();
    let bytes = init_timer(&mut idt, 0xABCD);
    assert_eq!(bytes, (0x9C, 1));
    assert_eq!(idt.index(32).offset0, 0xABCD);
    assert_eq!(idt.index(33).offset0, 0);
}

#[test]
fn rtc_decodes_bcd_and_binary() {
    let rtc = RtClock::new();
    assert_eq!(rtc.read_seconds(0x59, 0x00), 59);
    assert_eq!(rtc.read_seconds(0x3B, 0x04), 59);
    assert_eq!(rtc.read_hours(0x13, 0x02), 13);
    assert_eq!(rtc.read_year(0x24, 0x00), 2024);
    assert_eq!(rtc.read_year(0x99, 0x00), 1999);
    assert_eq!(rtc.read_date(0x17, 0x05, 0x24, 0x00), (17, 5, 2024));
}

#[test]
fn keyboard_types_with_shift_and_caps_lock() {
    let mut kb = Keyboard::new();
    assert_eq!(kb.handle_scan_code(0x1E).echo, Some('a'));
    kb.handle_scan_code(0x2A);
    assert_eq!(kb.handle_scan_code(0x1E).echo, Some('A'));
    assert_eq!(kb.handle_scan_code(0x02).echo, Some('!'));
    let released = kb.handle_scan_code(0xAA);
    assert_eq!(released.echo, None);
    let caps = kb.handle_scan_code(0x3A);
    assert_eq!(caps.leds, Some((0xED, 4)));
    assert_eq!(kb.handle_scan_code(0x1E).echo, Some('A'));
    assert_eq!(kb.handle_scan_code(0xE0).echo, None);
}

#[test]
fn key_codes_and_characters() {
    assert_eq!(KeyCode::from_index(2).to_ascii(), '1');
    assert_eq!(KeyCode::from_index(16).to_ascii(), 'q');
    assert_eq!(KeyCode::from_index(200), KeyCode::KeyReserved);
}

#[test]
fn vga_writes_and_wraps() {
    let mut w = VgaBufferWriter::new();
    w.write_str("Hi");
    assert_eq!(w.char_at(0), VgaChar { ascii_char: b'H', color_code: 0x0F });
    assert_eq!(w.char_at(1), VgaChar { ascii_char: b'i', color_code: 0x0F });
    assert_eq!(w.cursor_x, 2);
    w.write_str("\n");
    assert_eq!((w.cursor_x, w.cursor_y), (0, 1));
    w.set_color(Color::Red, Color::Blu);
    w.write_byte(b'x');
    assert_eq!(w.char_at(80), VgaChar { ascii_char: b'x', color_code: 0x14 });
    w.clear_screen();
    assert_eq!(w.char_at(0).ascii_char, b' ');
    assert_eq!(w.char_at(VGA_SIZE - 1).ascii_char, b' ');
}

fn display() -> Display {
    let fb = Framebuffer { pointer: 0, width: 16, height: 32, pixels_per_scanline: 16 };
    let mut glyphs = vec![0u8; 256 * 16];
    glyphs[65 * 16] = 0x80;
    Display::init(fb, vec![0u32; 16 * 32], glyphs, 16)
}

#[test]
fn display_draws_a_glyph() {
    let mut d = display();
    assert_eq!(d.console.width, 2);
    assert_eq!(d.console.height, 2);
    d.write_str("A");
    assert_eq!(d.pixels[0], 0xFFFF_FFFF);
    assert_eq!(d.pixels[1], 0);
    assert_eq!(d.console.cursor, (1, 0));
    d.write_str("\n");
    assert_eq!(d.console.cursor, (0, 1));
}

#[test]
fn display_scrolls_at_the_bottom() {
    let mut d = display();
    d.write_str("\nA\n");
    assert_eq!(d.console.cursor, (0, 1));
    assert_eq!(d.pixels[0], 0xFFFF_FFFF);
    assert_eq!(d.pixels[16 * 16], 0xFF00_0000);
}

#[test]
fn display_clear_paints_black() {
    let mut d = display();
    d.write_str("A");
    d.clear_screen();
    assert!(d.pixels.iter().all(|&p| p == 0xFF00_0000));
}

#[test]
fn exception_names() {
    assert_eq!(exception_message(0), "Division by zero exception");
    assert_eq!(exception_message(14), "Page fault (pushes an error code)");
}

#[test]
fn sleep_target() {
    assert_eq!(sleep_for(1000, 3), 1000 + 3 * 1_000_000);
}

#[test]
fn pic_remap_sequence() {
    let w = lib::interrupts::isr::remap_pic(0xAB, 0xCD);
    assert_eq!(w.len(), 19);
    assert_eq!(w[0], (0x20, 0x11));
    assert_eq!(w[1], (0x80, 0));
    assert_eq!(w[4], (0x21, 0x20));
    assert_eq!(w[6], (0xA1, 0x28));
    assert_eq!(w[16], (0x21, 0xAB));
    assert_eq!(w[18], (0xA1, 0xCD));
    assert_eq!(lib::io::pic_end_master(), (0x20, 0x20));
    assert_eq!(lib::io::pic_end_slave(), vec![(0xA0, 0x20), (0x20, 0x20)]);
    assert_eq!(lib::io::io_wait(), (0x80, 0));
}

#[test]
fn end_of_interrupt_targets() {
    assert_eq!(end_of_interrupt(&Apic::new()), EoiWrite::Pic(0x20, 0x20));
    let a = enable_apic_mode(Lapic::new(0xFEE0_0000), IoApic::default());
    assert_eq!(end_of_interrupt(&a), EoiWrite::Lapic(0xB0, 0));
    assert_eq!(lib::hardware::isr::irq_handler(33), vec![(0x20, 0x20)]);
    assert_eq!(lib::hardware::isr::irq_handler(44), vec![(0xA0, 0x20), (0x20, 0x20)]);
}

#[test]
fn rtc_twelve_hour_clock() {
    let rtc = RtClock::new();
    assert_eq!(rtc.read_hours(0x81, 0x00), 13);
    assert_eq!(rtc.read_hours(0x12, 0x00), 0);
    assert_eq!(rtc.read_hours(0x92, 0x00), 12);
    assert_eq!(rtc.read_hours(0x11, 0x00), 11);
    assert_eq!(rtc.read_hours(0x81, 0x04), 13);
    assert_eq!(rtc.read_hours(0x23, 0x02), 23);
}

#[test]
fn vga_wraps_at_the_end_of_a_line() {
    let mut w = VgaBufferWriter::new();
    for _ in 0..79 {
        w.write_byte(b'a');
    }
    assert_eq!((w.cursor_x, w.cursor_y), (79, 0));
    w.write_byte(b'z');
    assert_eq!(w.char_at(79).ascii_char, b'z');
    assert_eq!((w.cursor_x, w.cursor_y), (0, 1));
    w.write_byte(b'q');
    assert_eq!(w.char_at(80).ascii_char, b'q');
}

#[test]
fn vga_scrolls_after_the_last_cell() {
    let mut w = VgaBufferWriter::new();
    w.write_byte(b'x');
    for _ in 0..(VGA_SIZE - 1) {
        w.write_byte(b'.');
    }
    assert_eq!((w.cursor_x, w.cursor_y), (0, 24));
    assert_eq!(w.char_at(0).ascii_char, b'.');
    assert_eq!(w.char_at(VGA_SIZE - 1).ascii_char, b' ');
}

#[test]
fn isr_install_sets_gates_and_returns_pic_setup() {
    let mut entries: Vec<lib::hardware::idt::IdtEntry> = (0..256).map(|_| lib::hardware::idt::IdtEntry::new()).collect();
    let isr: Vec<u64> = (0..32).map(|i| 0x1000 + i).collect();
    let irq: Vec<u64> = (0..16).map(|i| 0x2000 + i).collect();
    let w = lib::hardware::isr::isr_install(&mut entries, &isr, &irq);
    assert_eq!(
        w,
        vec![(0x20, 0x11), (0xA0, 0x11), (0x21, 0x20), (0xA1, 0x28), (0x21, 0x04), (0xA1, 0x02), (0x21, 0x01), (0xA1, 0x01), (0x21, 0x00), (0xA1, 0x00)]
    );
    assert_eq!(entries[0].base_low, 0x1000);
    assert_eq!(entries[47].base_low, 0x200F);
}
