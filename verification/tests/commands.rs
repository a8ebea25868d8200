use thermal::command::{exact, Command, CommandHandler, CommandType, DataType, NoHandler, TriggerByte};
use thermal::commands::{cancel_cjk_mode, enter_cjk_mode, text};
use thermal::constants::FS;
use thermal::context::Context;

fn command(data: &[u8]) -> Command {
    Command { def: 0, data: data.to_vec() }
}

#[test]
fn enter_cjk_mode_definition() {
    let def = enter_cjk_mode::new();
    assert_eq!(def.name, "Enter CJK Mode");
    assert_eq!(def.trigger, vec![TriggerByte::Exact(0x1C), TriggerByte::Exact(b'&')]);
    assert_eq!(def.kind, CommandType::Context);
    assert_eq!(def.data_type, DataType::Empty);
}

#[test]
fn cancel_cjk_mode_definition() {
    let def = cancel_cjk_mode::new();
    assert_eq!(def.name, "Cancel CJK Mode");
    assert_eq!(def.trigger, vec![TriggerByte::Exact(0x1C), TriggerByte::Exact(b'.')]);
    assert_eq!(def.kind, CommandType::Context);
    assert_eq!(def.data_type, DataType::Empty);
}

#[test]
fn text_definition() {
    let def = text::new();
    assert_eq!(def.name, "Text");
    assert!(def.trigger.is_empty());
    assert_eq!(def.kind, CommandType::Text);
    assert_eq!(def.data_type, DataType::Text);
}

#[test]
fn fs_is_the_lead_byte_of_the_cjk_commands() {
    assert_eq!(FS, 0x1C);
    assert_eq!(enter_cjk_mode::SELECTOR, 0x26);
    assert_eq!(cancel_cjk_mode::SELECTOR, 0x2E);
}

#[test]
fn enter_cjk_mode_sets_the_flag_and_nothing_else() {
    let def = enter_cjk_mode::new();
    let mut context = Context::new();
    context.text.bold = true;
    context.text.width_mult = 2;
    context.graphics.y = 48;
    let mut expected = context.clone();
    expected.text.is_cjk = true;
    def.handler.apply_context(&command(&[]), &mut context);
    assert_eq!(context, expected);
}

#[test]
fn cancel_cjk_mode_clears_the_flag_and_nothing_else() {
    let def = cancel_cjk_mode::new();
    let mut context = Context::new();
    context.text.is_cjk = true;
    context.text.italic = true;
    context.graphics.x = 5;
    let mut expected = context.clone();
    expected.text.is_cjk = false;
    def.handler.apply_context(&command(&[]), &mut context);
    assert_eq!(context, expected);
}

#[test]
fn enter_then_cancel_gives_back_the_default_state() {
    let enter = enter_cjk_mode::new();
    let cancel = cancel_cjk_mode::new();
    let mut context = Context::new();
    enter.handler.apply_context(&command(&[]), &mut context);
    assert!(context.text.is_cjk);
    cancel.handler.apply_context(&command(&[]), &mut context);
    assert_eq!(context, Context::new());
}

#[test]
fn applying_a_cjk_command_twice_is_applying_it_once() {
    for def in [enter_cjk_mode::new(), cancel_cjk_mode::new()] {
        let mut once = Context::new();
        once.text.underline = thermal::context::TextUnderline::Double;
        let mut twice = once.clone();
        def.handler.apply_context(&command(&[]), &mut once);
        def.handler.apply_context(&command(&[]), &mut twice);
        def.handler.apply_context(&command(&[]), &mut twice);
        assert_eq!(once, twice);
    }
}

#[test]
fn cjk_commands_carry_no_text_and_no_image() {
    let context = Context::new();
    for def in [enter_cjk_mode::new(), cancel_cjk_mode::new()] {
        assert_eq!(def.handler.get_text(&command(b"abc"), &context), None);
        assert_eq!(def.handler.get_image(&command(b"abc"), &context), None);
    }
}

#[test]
fn text_command_decodes_ascii() {
    let def = text::new();
    let context = Context::new();
    assert_eq!(def.handler.get_text(&command(b"Hello"), &context), Some("Hello".to_string()));
    assert_eq!(def.handler.get_image(&command(b"Hello"), &context), None);
}

#[test]
fn text_command_decodes_shift_jis() {
    let def = text::new();
    let context = Context::new();
    let payload = [0x8A, 0xBF, 0x8E, 0x9A];
    assert_eq!(def.handler.get_text(&command(&payload), &context), Some("漢字".to_string()));
}

#[test]
fn text_command_notes_the_charset_and_nothing_else() {
    let def = text::new();
    let mut context = Context::new();
    context.text.is_cjk = true;
    let mut expected = context.clone();
    expected.text.encoding = "Shift_JIS".to_string();
    def.handler.apply_context(&command(&[0x8A, 0xBF, 0x8E, 0x9A]), &mut context);
    assert_eq!(context, expected);
    def.handler.apply_context(&command(&[0x8A, 0xBF, 0x8E, 0x9A]), &mut context);
    assert_eq!(context, expected);
}

#[test]
fn no_handler_does_nothing() {
    let mut context = Context::new();
    context.text.bold = true;
    let expected = context.clone();
    NoHandler.apply_context(&command(&[1, 2, 3]), &mut context);
    assert_eq!(context, expected);
    assert_eq!(NoHandler.get_text(&command(&[1, 2, 3]), &context), None);
    assert_eq!(NoHandler.get_image(&command(&[1, 2, 3]), &context), None);
}

#[test]
fn exact_makes_one_position_for_every_byte() {
    assert_eq!(exact(&[]), vec![]);
    assert_eq!(
        exact(&[0x1B, 0x40]),
        vec![TriggerByte::Exact(0x1B), TriggerByte::Exact(0x40)]
    );
}
