use softrender::{Color, TextureManager};

fn little_endian() -> bool {
    u32::from_ne_bytes([1, 0, 0, 0]) == 1
}

fn rgba(r: u8, g: u8, b: u8, a: u8) -> Color {
    Color { r, g, b, a }
}

#[test]
fn color_packs_red_in_lowest_byte() {
    assert_eq!(rgba(1, 2, 3, 4).to_u32(), 0x0403_0201);
    assert_eq!(rgba(255, 255, 255, 255).to_u32(), 0xffff_ffff);
    assert_eq!(rgba(0, 0, 0, 0).to_u32(), 0);
    assert_eq!(rgba(0xdd, 0xcc, 0xbb, 0xaa).to_u32(), 0xaabb_ccdd);
}

#[test]
fn new_manager_holds_one_white_texel() {
    let tm = TextureManager::new();
    assert_eq!(tm.indices_start, vec![0]);
    assert_eq!(tm.dimensions, vec![(1, 1)]);
    assert_eq!(tm.data, vec![rgba(255, 255, 255, 255)]);
    assert_eq!(tm.at_raw(0, 0, 0), rgba(255, 255, 255, 255));
}

#[test]
fn load_texture_color_reads_back() {
    let mut tm = TextureManager::new();
    let texels = [rgba(1, 0, 0, 0), rgba(2, 0, 0, 0), rgba(3, 0, 0, 0), rgba(4, 0, 0, 0), rgba(5, 0, 0, 0), rgba(6, 0, 0, 0)];
    tm.load_texture_color(&texels, 3, 2);
    assert_eq!(tm.indices_start, vec![0, 1]);
    assert_eq!(tm.dimensions, vec![(1, 1), (3, 2)]);
    assert_eq!(tm.at_raw(1, 0, 0), rgba(1, 0, 0, 0));
    assert_eq!(tm.at_raw(1, 2, 0), rgba(3, 0, 0, 0));
    assert_eq!(tm.at_raw(1, 0, 1), rgba(4, 0, 0, 0));
    assert_eq!(tm.at_raw(1, 2, 1), rgba(6, 0, 0, 0));
    // the first texture is untouched
    assert_eq!(tm.at_raw(0, 0, 0), rgba(255, 255, 255, 255));
}

#[test]
fn load_texture_u32_decodes_memory_order() {
    let mut tm = TextureManager::new();
    let words = [0xaabb_ccdd_u32, 0x0403_0201];
    let start = tm.load_texture_u32(&words, 2, 1);
    assert_eq!(start, 1);
    assert_eq!(tm.indices_start, vec![0, 1]);
    assert_eq!(tm.dimensions, vec![(1, 1), (2, 1)]);
    let expected = if little_endian() {
        [rgba(0xdd, 0xcc, 0xbb, 0xaa), rgba(1, 2, 3, 4)]
    } else {
        [rgba(0xaa, 0xbb, 0xcc, 0xdd), rgba(4, 3, 2, 1)]
    };
    assert_eq!(tm.at_raw(1, 0, 0), expected[0]);
    assert_eq!(tm.at_raw(1, 1, 0), expected[1]);
    // a texel read from a word packs back into that word on a little-endian machine
    if little_endian() {
        assert_eq!(tm.at_raw(1, 0, 0).to_u32(), 0xaabb_ccdd);
    }
}

#[test]
fn load_texture_u32_returns_data_offset_not_texture_number() {
    let mut tm = TextureManager::new();
    let first = tm.load_texture_u32(&[1, 2, 3, 4], 2, 2);
    let second = tm.load_texture_u32(&[5], 1, 1);
    assert_eq!(first, 1);
    assert_eq!(second, 5);
    assert_eq!(tm.indices_start, vec![0, 1, 5]);
}

#[test]
fn load_texture_u32_vmirror_reverses_rows() {
    let mut tm = TextureManager::new();
    // 2 wide, 3 tall: rows (1, 2), (3, 4), (5, 6)
    let words: Vec<u32> = (1..=6).map(|v| u32::from_ne_bytes([v as u8, 0, 0, 0])).collect();
    let start = tm.load_texture_u32_vmirror(&words, 2, 3);
    assert_eq!(start, 1);
    assert_eq!(tm.dimensions[1], (2, 3));
    assert_eq!(tm.data.len(), 7);
    let red = |x: usize, y: usize| tm.at_raw(1, x, y).r;
    assert_eq!((red(0, 0), red(1, 0)), (5, 6));
    assert_eq!((red(0, 1), red(1, 1)), (3, 4));
    assert_eq!((red(0, 2), red(1, 2)), (1, 2));
}

#[test]
fn load_texture_u32_vmirror_ignores_words_past_the_image() {
    let mut tm = TextureManager::new();
    let words = [7u32, 8, 9];
    tm.load_texture_u32_vmirror(&words, 1, 2);
    assert_eq!(tm.data.len(), 3);
    let byte_of = |w: u32| w.to_ne_bytes()[0];
    assert_eq!(tm.at_raw(1, 0, 0).r, byte_of(8));
    assert_eq!(tm.at_raw(1, 0, 1).r, byte_of(7));
}

#[test]
fn load_texture_color_with_fewer_texels_than_its_size() {
    let mut tm = TextureManager::new();
    tm.load_texture_color(&[rgba(9, 9, 9, 9)], 4, 4);
    assert_eq!(tm.dimensions[1], (4, 4));
    assert_eq!(tm.data.len(), 2);
    assert_eq!(tm.at_raw(1, 0, 0), rgba(9, 9, 9, 9));
}
