use boot_console::psf_font::load_psf1_font;

#[test]
fn load_rejects_short_input() {
    assert!(load_psf1_font(&[]).is_none());
    assert!(load_psf1_font(&[0x36]).is_none());
    assert!(load_psf1_font(&[0x36, 0x04]).is_none());
    assert!(load_psf1_font(&[0x36, 0x04, 0x00]).is_none());
}

#[test]
fn load_rejects_wrong_magic() {
    assert!(load_psf1_font(&[0x37, 0x04, 0x00, 0x10, 0xaa]).is_none());
    assert!(load_psf1_font(&[0x36, 0x05, 0x00, 0x10, 0xaa]).is_none());
    assert!(load_psf1_font(&[0x04, 0x36, 0x00, 0x10, 0xaa]).is_none());
    assert!(load_psf1_font(&[0x00, 0x00, 0x00, 0x00]).is_none());
}

#[test]
fn load_accepts_bare_header() {
    let data: [u8; 4] = [0x36, 0x04, 0x02, 0x10];
    let font = load_psf1_font(&data).expect("a header alone is a font");
    assert_eq!(font.charsize, 16);
    assert_eq!(font.glyph_height(), 16);
    assert!(font.glyphs().is_empty());
}

#[test]
fn load_reads_height_and_borrows_glyphs() {
    let data: [u8; 9] = [0x36, 0x04, 0x00, 0x02, 1, 2, 3, 4, 5];
    let font = load_psf1_font(&data).expect("well-formed font");
    assert_eq!(font.charsize, 2);
    assert_eq!(font.glyphs(), &[1u8, 2, 3, 4, 5][..]);
    assert_eq!(font.glyphs().as_ptr(), data[4..].as_ptr());
}

#[test]
fn load_takes_full_range_of_heights() {
    let zero: [u8; 5] = [0x36, 0x04, 0x00, 0x00, 0xff];
    assert_eq!(load_psf1_font(&zero).expect("font").charsize, 0);
    let tall: [u8; 5] = [0x36, 0x04, 0x00, 0xff, 0xff];
    assert_eq!(load_psf1_font(&tall).expect("font").charsize, 255);
}

#[test]
fn load_ignores_mode_byte() {
    let a: [u8; 5] = [0x36, 0x04, 0x00, 0x08, 0x11];
    let b: [u8; 5] = [0x36, 0x04, 0xff, 0x08, 0x11];
    let fa = load_psf1_font(&a).expect("font");
    let fb = load_psf1_font(&b).expect("font");
    assert_eq!(fa.charsize, fb.charsize);
    assert_eq!(fa.glyphs(), fb.glyphs());
}
