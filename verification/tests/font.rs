use thermal::font::{EncodingFontMap, FontDesc};

fn font(family: &str, char_width: u16) -> FontDesc {
    FontDesc { family: family.to_string(), style: "normal".to_string(), char_width, char_height: 24 }
}

#[test]
fn the_base_font_is_monospace_12_by_24() {
    let base = FontDesc::base();
    assert_eq!(base.family, "monospace");
    assert_eq!(base.style, "normal");
    assert_eq!(base.char_width, 12);
    assert_eq!(base.char_height, 24);
}

#[test]
fn a_new_map_gives_every_charset_the_base_font() {
    let map = EncodingFontMap::new();
    assert!(map.entries.is_empty());
    assert_eq!(map.default, FontDesc::base());
    assert_eq!(map.font_for(&"Shift_JIS".to_string()), &FontDesc::base());
    assert_eq!(map.font_for(&String::new()), &FontDesc::base());
    assert_eq!(map.find(&"GBK".to_string()), 0);
}

#[test]
fn the_first_entry_of_a_charset_counts() {
    let map = EncodingFontMap::new()
        .with_font("Shift_JIS", font("MS Gothic", 12))
        .with_font("GBK", font("SimSun", 14))
        .with_font("Shift_JIS", font("Other", 16));
    assert_eq!(map.entries.len(), 3);
    assert_eq!(map.find(&"Shift_JIS".to_string()), 0);
    assert_eq!(map.find(&"GBK".to_string()), 1);
    assert_eq!(map.find(&"Big5".to_string()), 3);
    assert_eq!(map.font_for(&"Shift_JIS".to_string()).family, "MS Gothic");
    assert_eq!(map.font_for(&"GBK".to_string()).char_width, 14);
    assert_eq!(map.font_for(&"Big5".to_string()), &FontDesc::base());
    assert_eq!(map.font_for(&"gbk".to_string()), &FontDesc::base());
}
