use timetracker::palette::{hex_to_u32, nth_palette, pal_for_hex, u32_to_hex, Pal, ACCENT};

#[test]
fn hex_roundtrips_and_falls_back_to_accent() {
    assert_eq!(hex_to_u32("#0d9488"), 0x0d9488);
    assert_eq!(hex_to_u32("##FFaa00"), 0xffaa00);
    assert_eq!(hex_to_u32("#zz"), ACCENT);
    assert_eq!(hex_to_u32(""), ACCENT);
    assert_eq!(hex_to_u32("#100000000"), ACCENT);
    assert_eq!(u32_to_hex(0x0d9488), "#0d9488");
    assert_eq!(u32_to_hex(0x1), "#000001");
    assert_eq!(u32_to_hex(0x12345678), "#12345678");
    for c in [0u32, 1, 0xabcdef, 0xffffff, u32::MAX] {
        assert_eq!(hex_to_u32(&u32_to_hex(c)), c);
    }
}

#[test]
fn palette_round_robin_and_lookup() {
    assert_eq!(nth_palette(0), nth_palette(7));
    assert_eq!(nth_palette(1).main, 0x0d9488);
    let teal = nth_palette(1);
    assert_eq!(pal_for_hex(&u32_to_hex(teal.main)), teal);
    assert_eq!(pal_for_hex("#123456"), Pal { main: 0x4f46e5, soft: 0xeef0fe, text: 0x4338ca });
}
