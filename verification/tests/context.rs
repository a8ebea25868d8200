use thermal::context::{Context, TextJustify, TextStrikethrough, TextUnderline};

#[test]
fn new_context_has_default_style() {
    let context = Context::new();
    assert!(!context.text.bold);
    assert!(!context.text.italic);
    assert_eq!(context.text.underline, TextUnderline::Off);
    assert_eq!(context.text.strikethrough, TextStrikethrough::Off);
    assert_eq!(context.text.width_mult, 1);
    assert_eq!(context.text.height_mult, 1);
    assert!(!context.text.invert);
    assert!(!context.text.upside_down);
    assert_eq!(context.text.justify, TextJustify::Left);
    assert!(!context.text.is_cjk);
    assert_eq!(context.text.encoding, "");
    assert_eq!(context.text.tab_len, 8);
    assert_eq!(context.text.line_spacing, 24);
    assert_eq!(context.graphics.x, 0);
    assert_eq!(context.graphics.y, 0);
    assert!(!context.page_mode.enabled);
}

#[test]
fn available_width_is_the_printable_width_outside_page_mode() {
    let mut context = Context::new();
    assert_eq!(context.available_width_pixels(), 576);
    context.page_mode.width = 300;
    assert_eq!(context.available_width_pixels(), 576);
}

#[test]
fn available_width_is_the_page_width_in_page_mode() {
    let mut context = Context::new();
    context.page_mode.enabled = true;
    context.page_mode.width = 300;
    assert_eq!(context.available_width_pixels(), 300);
}

#[test]
fn char_width_follows_stretch_and_cjk_mode() {
    let mut context = Context::new();
    assert_eq!(context.char_width_pixels(), 12);
    context.text.is_cjk = true;
    assert_eq!(context.char_width_pixels(), 24);
    context.text.width_mult = 3;
    assert_eq!(context.char_width_pixels(), 72);
    context.text.is_cjk = false;
    assert_eq!(context.char_width_pixels(), 36);
    context.text.width_mult = 255;
    context.text.is_cjk = true;
    assert_eq!(context.char_width_pixels(), 6120);
}

#[test]
fn line_height_follows_vertical_stretch() {
    let mut context = Context::new();
    assert_eq!(context.line_height_pixels(), 24);
    context.text.height_mult = 2;
    assert_eq!(context.line_height_pixels(), 48);
    context.text.height_mult = 255;
    assert_eq!(context.line_height_pixels(), 6120);
}

#[test]
fn advance_y_moves_the_cursor_down() {
    let mut context = Context::new();
    context.graphics.x = 7;
    context.advance_y(24);
    context.advance_y(30);
    assert_eq!(context.graphics.y, 54);
    assert_eq!(context.graphics.x, 7);
}

#[test]
fn advance_y_stops_at_the_largest_value() {
    let mut context = Context::new();
    context.graphics.y = usize::MAX - 5;
    context.advance_y(24);
    assert_eq!(context.graphics.y, usize::MAX);
}

#[test]
fn reset_cursor_goes_back_to_the_origin_and_keeps_the_style() {
    let mut context = Context::new();
    context.text.bold = true;
    context.text.is_cjk = true;
    context.graphics.x = 10;
    context.graphics.y = 200;
    let style = context.text.clone();
    context.reset_cursor();
    assert_eq!(context.graphics.x, 0);
    assert_eq!(context.graphics.y, 0);
    assert_eq!(context.text, style);
}
