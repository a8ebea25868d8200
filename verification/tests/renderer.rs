use thermal::catalog::Catalog;
use thermal::command::{
    exact, Command, CommandDef, CommandHandler, CommandType, DataType, DeviceCommand, Image,
    NoHandler,
};
use thermal::context::Context;
use thermal::decoder::DecodeError;
use thermal::dispatcher::{dispatch, process};
use thermal::font::{EncodingFontMap, FontDesc};
use thermal::renderer::CommandRenderer;
use thermal::svg_renderer::svg_image::TextSpan;
use thermal::svg_renderer::SvgRenderer;

const OPEN: &str = "<g transform=\"translate(0,0)\"><text transform=\"scale(1,1)\">";
const CLOSE: &str = "</text></g>";
const HEAD: &str = "preserveAspectRatio=\"xMinYMin meet\" xmlns=\"http://www.w3.org/2000/svg\" xmlns:xlink=\"http://www.w3.org/1999/xlink\" version=\"1.1\"><defs><filter id=\"textinvert\" x=\"0\" y=\"0\" width=\"100%\" height=\"100%\"><feFlood flood-color=\"#000\"/><feComposite in=\"SourceGraphic\" operator=\"xor\"/></filter></defs>";
const GROUP: &str = "<g font-family=\"monospace\" fill=\"#000\" font-size=\"22\" dominant-baseline=\"text-after-edge\" text-anchor=\"middle\">";

fn empty_document() -> String {
    format!(
        "<svg width=\"576px\" height=\"0px\" viewBox=\"0 0 576 0\" {}{}</g></svg>",
        HEAD, GROUP
    )
}

#[test]
fn new_renderer_is_empty() {
    let renderer = SvgRenderer::new();
    assert_eq!(renderer.canvas.width, 576);
    assert!(renderer.canvas.svg_content.is_empty());
    assert!(renderer.text_layout.is_none());
    assert!(renderer.document.is_none());
    assert_eq!(renderer.canvas.fonts, EncodingFontMap::new());
}

#[test]
fn a_bare_newline_moves_the_cursor_by_the_line_spacing() {
    let mut renderer = SvgRenderer::new();
    let mut context = Context::new();
    context.text.line_spacing = 30;
    context.graphics.x = 4;
    let mut expected = context.clone();
    expected.graphics.y = 30;
    renderer.draw_text(&mut context, "\n".to_string());
    assert_eq!(context, expected);
    assert!(renderer.text_layout.is_none());
    assert!(renderer.canvas.svg_content.is_empty());
    renderer.draw_text(&mut context, "\n".to_string());
    assert_eq!(context.graphics.y, 60);
    assert!(renderer.text_layout.is_none());
    assert!(renderer.canvas.svg_content.is_empty());
}

#[test]
fn text_waits_in_the_layout() {
    let mut renderer = SvgRenderer::new();
    let mut context = Context::new();
    context.text.tab_len = 4;
    renderer.draw_text(&mut context, "Hello".to_string());
    context.text.bold = true;
    renderer.draw_text(&mut context, "\n".to_string());
    renderer.draw_text(&mut context, "".to_string());
    assert_eq!(context.graphics.y, 0);
    assert!(renderer.canvas.svg_content.is_empty());
    let layout = renderer.text_layout.as_ref().unwrap();
    assert_eq!(layout.line_height, 24);
    assert_eq!(layout.tab_len, 4);
    assert_eq!(layout.spans.len(), 3);
    assert_eq!(layout.spans[0], TextSpan::new("Hello".to_string(), &Context::new()));
    assert_eq!(layout.spans[1].text, "\n");
    assert!(layout.spans[1].bold);
    assert_eq!(layout.spans[2].text, "");
}

#[test]
fn text_that_is_not_a_bare_newline_waits() {
    for text in ["\n\n", " \n", "\r", "a"] {
        let mut renderer = SvgRenderer::new();
        let mut context = Context::new();
        renderer.draw_text(&mut context, text.to_string());
        assert_eq!(context, Context::new());
        assert_eq!(renderer.text_layout.as_ref().unwrap().spans.len(), 1);
    }
}

#[test]
fn maybe_render_text_lays_out_what_waits() {
    let mut renderer = SvgRenderer::new();
    let mut context = Context::new();
    context.graphics.y = 10;
    renderer.maybe_render_text(&mut context);
    assert_eq!(context.graphics.y, 10);
    assert!(renderer.canvas.svg_content.is_empty());
    renderer.draw_text(&mut context, "Hi".to_string());
    renderer.maybe_render_text(&mut context);
    assert!(renderer.text_layout.is_none());
    assert_eq!(context.graphics.y, 34);
    assert_eq!(
        renderer.canvas.svg_content,
        vec![
            "<g transform=\"translate(0,10)\"><text transform=\"scale(1,1)\">",
            "<tspan x=\"0\">H</tspan>",
            "<tspan x=\"12\">i</tspan>",
            CLOSE,
        ]
    );
    renderer.maybe_render_text(&mut context);
    assert_eq!(context.graphics.y, 34);
    assert_eq!(renderer.canvas.svg_content.len(), 4);
}

#[test]
fn every_call_that_is_not_text_flushes_the_text() {
    let device = DeviceCommand { name: "Cut".to_string(), data: vec![1] };
    for call in 0..5 {
        let mut renderer = SvgRenderer::new();
        let mut context = Context::new();
        renderer.draw_text(&mut context, "a".to_string());
        match call {
            0 => renderer.begin_graphics(&mut context),
            1 => renderer.draw_rect(&mut context, 10, 20),
            2 => renderer.draw_image(&mut context, vec![0xFF], 8, 1),
            3 => renderer.draw_device_command(&mut context, &device),
            _ => renderer.end_render(&mut context),
        }
        assert!(renderer.text_layout.is_none());
        assert_eq!(
            renderer.canvas.svg_content,
            vec![OPEN, "<tspan x=\"0\">a</tspan>", CLOSE]
        );
        if call < 4 {
            assert_eq!(context.graphics.y, 24);
            assert!(renderer.document.is_none());
        } else {
            assert_eq!(context.graphics.y, 0);
        }
    }
}

#[test]
fn end_graphics_leaves_text_waiting() {
    let mut renderer = SvgRenderer::new();
    let mut context = Context::new();
    renderer.draw_text(&mut context, "a".to_string());
    renderer.end_graphics(&mut context);
    assert!(renderer.text_layout.is_some());
    assert!(renderer.canvas.svg_content.is_empty());
    assert_eq!(context, Context::new());
}

#[test]
fn begin_render_clears_the_canvas_and_takes_the_available_width() {
    let mut renderer = SvgRenderer::new();
    let mut context = Context::new();
    renderer.canvas.svg_content.push("old".to_string());
    renderer.document = Some("old".to_string());
    renderer.begin_render(&mut context);
    assert_eq!(renderer.canvas.width, 576);
    assert!(renderer.canvas.svg_content.is_empty());
    assert!(renderer.document.is_none());
    assert_eq!(context, Context::new());
    context.page_mode.enabled = true;
    context.page_mode.width = 300;
    renderer.begin_render(&mut context);
    assert_eq!(renderer.canvas.width, 300);
    context.page_mode.width = 70000;
    renderer.begin_render(&mut context);
    assert_eq!(renderer.canvas.width, 65535);
}

#[test]
fn end_render_makes_the_document_and_resets_the_cursor() {
    let mut renderer = SvgRenderer::new();
    let mut context = Context::new();
    context.text.is_cjk = true;
    renderer.begin_render(&mut context);
    renderer.draw_text(&mut context, "a&".to_string());
    context.graphics.x = 3;
    renderer.end_render(&mut context);
    assert_eq!(context.graphics.x, 0);
    assert_eq!(context.graphics.y, 0);
    assert!(context.text.is_cjk);
    assert_eq!(
        renderer.document,
        Some(format!(
            "<svg width=\"576px\" height=\"24px\" viewBox=\"0 0 576 24\" {}{}{}<tspan x=\"3\">a</tspan><tspan x=\"15\">&amp;</tspan>{}</g></svg>",
            HEAD, GROUP, OPEN, CLOSE
        ))
    );
}

#[test]
fn entering_and_cancelling_cjk_mode_draws_nothing() {
    let catalog = Catalog::standard();
    let mut context = Context::new();
    let mut renderer = SvgRenderer::new();
    let result = process(&catalog, &[0x1C, b'&', 0x1C, b'.'], &mut context, &mut renderer);
    assert_eq!(result, Ok(vec![]));
    assert_eq!(context, Context::new());
    assert!(renderer.canvas.svg_content.is_empty());
    assert!(renderer.text_layout.is_none());
    assert_eq!(renderer.document, Some(empty_document()));
}

#[test]
fn entering_cjk_mode_sets_the_flag_and_nothing_else() {
    let catalog = Catalog::standard();
    let mut context = Context::new();
    let mut renderer = SvgRenderer::new();
    let result = process(&catalog, &[0x1C, b'&'], &mut context, &mut renderer);
    assert_eq!(result, Ok(vec![]));
    let mut expected = Context::new();
    expected.text.is_cjk = true;
    assert_eq!(context, expected);
    assert!(renderer.canvas.svg_content.is_empty());
}

#[test]
fn kanji_between_the_cjk_commands_are_drawn_at_double_width() {
    let catalog = Catalog::standard();
    let mut context = Context::new();
    let mut renderer = SvgRenderer::new();
    let bytes = [0x1C, b'&', 0x8A, 0xBF, 0x8E, 0x9A, 0x1C, b'.'];

    let commands = thermal::decoder::decode(&catalog, &bytes).unwrap();
    assert_eq!(commands.len(), 3);
    renderer.begin_render(&mut context);
    assert!(dispatch(&catalog, &commands[0], &mut context, &mut renderer));
    assert!(context.text.is_cjk);
    assert_eq!(context.char_width_pixels(), 24);
    assert!(dispatch(&catalog, &commands[1], &mut context, &mut renderer));
    assert!(context.text.is_cjk);
    assert_eq!(context.text.encoding, "Shift_JIS");
    assert_eq!(renderer.text_layout.as_ref().unwrap().spans[0].text, "漢字");
    assert!(dispatch(&catalog, &commands[2], &mut context, &mut renderer));
    assert!(!context.text.is_cjk);
    renderer.end_render(&mut context);

    assert_eq!(
        renderer.canvas.svg_content,
        vec![OPEN, "<tspan x=\"0\">漢</tspan>", "<tspan x=\"24\">字</tspan>", CLOSE]
    );
    let mut expected = Context::new();
    expected.text.encoding = "Shift_JIS".to_string();
    assert_eq!(context, expected);

    let mut again = Context::new();
    let mut other = SvgRenderer::new();
    assert_eq!(process(&catalog, &bytes, &mut again, &mut other), Ok(vec![]));
    assert_eq!(again, expected);
    assert_eq!(other.document, renderer.document);
    assert_eq!(
        other.document,
        Some(format!(
            "<svg width=\"576px\" height=\"24px\" viewBox=\"0 0 576 24\" {}{}{}<tspan x=\"0\">漢</tspan><tspan x=\"24\">字</tspan>{}</g></svg>",
            HEAD, GROUP, OPEN, CLOSE
        ))
    );
}

#[test]
fn a_font_of_the_detected_charset_is_named_in_the_document() {
    let gothic = FontDesc {
        family: "MS Gothic".to_string(),
        style: "normal".to_string(),
        char_width: 12,
        char_height: 24,
    };
    let catalog = Catalog::standard();
    let mut context = Context::new();
    let mut renderer = SvgRenderer::with_fonts(EncodingFontMap::new().with_font("Shift_JIS", gothic));
    let bytes = [0x8A, 0xBF, 0x8E, 0x9A];
    assert_eq!(process(&catalog, &bytes, &mut context, &mut renderer), Ok(vec![]));
    assert_eq!(
        renderer.document,
        Some(format!(
            "<svg width=\"576px\" height=\"24px\" viewBox=\"0 0 576 24\" {}<style>.Shift_JIS{{font-family:MS Gothic;font-style:normal;}}</style>{}{}<tspan x=\"0\" class=\"Shift_JIS\">漢</tspan><tspan x=\"24\" class=\"Shift_JIS\">字</tspan>{}</g></svg>",
            HEAD, GROUP, OPEN, CLOSE
        ))
    );
}

#[test]
fn a_truncated_stream_touches_nothing() {
    let mut catalog = Catalog::standard();
    catalog
        .register(CommandDef {
            name: "Justify".to_string(),
            trigger: exact(&[0x1B, 0x61]),
            kind: CommandType::Unknown,
            data_type: DataType::Fixed(1),
            handler: Box::new(NoHandler),
        })
        .unwrap();
    let mut context = Context::new();
    context.graphics.y = 9;
    let mut renderer = SvgRenderer::new();
    renderer.canvas.svg_content.push("kept".to_string());
    let result = process(&catalog, &[b'a', 0x1C, b'&', 0x1B, 0x61], &mut context, &mut renderer);
    assert_eq!(result, Err(DecodeError::TruncatedStream { offset: 3, def: 3 }));
    let mut expected = Context::new();
    expected.graphics.y = 9;
    assert_eq!(context, expected);
    assert_eq!(renderer.canvas.svg_content, vec!["kept".to_string()]);
    assert!(renderer.document.is_none());
    assert!(renderer.text_layout.is_none());
}

struct Undecodable;

impl CommandHandler for Undecodable {
    fn apply_context(&self, _command: &Command, _context: &mut Context) {}

    fn get_text(&self, _command: &Command, _context: &Context) -> Option<String> {
        None
    }

    fn get_image(&self, _command: &Command, _context: &Context) -> Option<Image> {
        None
    }
}

struct Dot;

impl CommandHandler for Dot {
    fn apply_context(&self, _command: &Command, _context: &mut Context) {}

    fn get_text(&self, _command: &Command, _context: &Context) -> Option<String> {
        None
    }

    fn get_image(&self, command: &Command, _context: &Context) -> Option<Image> {
        Some(Image { bytes: command.data.clone(), width: 8, height: 1 })
    }
}

#[test]
fn text_that_cannot_be_decoded_is_reported_and_the_job_goes_on() {
    let mut catalog = Catalog::standard();
    catalog
        .register(CommandDef {
            name: "Garbled".to_string(),
            trigger: exact(&[0x1D, 0x54]),
            kind: CommandType::Text,
            data_type: DataType::Fixed(2),
            handler: Box::new(Undecodable),
        })
        .unwrap();
    let mut context = Context::new();
    let mut renderer = SvgRenderer::new();
    let bytes = [b'a', 0x1D, 0x54, 0x00, 0x01, b'b', 0x1D, 0x54, 0x02, 0x03];
    assert_eq!(process(&catalog, &bytes, &mut context, &mut renderer), Ok(vec![1, 3]));
    assert_eq!(
        renderer.canvas.svg_content,
        vec![OPEN, "<tspan x=\"0\">a</tspan>", "<tspan x=\"12\">b</tspan>", CLOSE]
    );
}

#[test]
fn graphics_and_device_commands_flush_the_text_before_them() {
    let mut catalog = Catalog::standard();
    catalog
        .register(CommandDef {
            name: "Dot".to_string(),
            trigger: exact(&[0x1D, 0x2A]),
            kind: CommandType::Graphics,
            data_type: DataType::Fixed(1),
            handler: Box::new(Dot),
        })
        .unwrap();
    catalog
        .register(CommandDef {
            name: "Cut".to_string(),
            trigger: exact(&[0x1D, 0x56]),
            kind: CommandType::Unknown,
            data_type: DataType::Empty,
            handler: Box::new(NoHandler),
        })
        .unwrap();
    catalog
        .register(CommandDef {
            name: "No image".to_string(),
            trigger: exact(&[0x1D, 0x2B]),
            kind: CommandType::Graphics,
            data_type: DataType::Empty,
            handler: Box::new(NoHandler),
        })
        .unwrap();
    for second in [[0x1D, 0x2A, 0xFF].to_vec(), [0x1D, 0x56].to_vec()] {
        let mut context = Context::new();
        let mut renderer = SvgRenderer::new();
        let commands = thermal::decoder::decode(&catalog, &[&b"a"[..], &second[..]].concat()).unwrap();
        assert_eq!(commands.len(), 2);
        renderer.begin_render(&mut context);
        assert!(dispatch(&catalog, &commands[0], &mut context, &mut renderer));
        assert!(renderer.text_layout.is_some());
        assert!(dispatch(&catalog, &commands[1], &mut context, &mut renderer));
        assert!(renderer.text_layout.is_none());
        assert_eq!(context.graphics.y, 24);
        assert_eq!(renderer.canvas.svg_content.len(), 3);
    }
    let mut context = Context::new();
    let mut renderer = SvgRenderer::new();
    let commands = thermal::decoder::decode(&catalog, &[b'a', 0x1D, 0x2B]).unwrap();
    renderer.begin_render(&mut context);
    assert!(dispatch(&catalog, &commands[0], &mut context, &mut renderer));
    assert!(dispatch(&catalog, &commands[1], &mut context, &mut renderer));
    assert!(renderer.text_layout.is_some());
}

#[test]
fn every_byte_sequence_yields_a_document_or_an_error() {
    let mut catalog = Catalog::standard();
    catalog
        .register(CommandDef {
            name: "Justify".to_string(),
            trigger: exact(&[0x1B, 0x61]),
            kind: CommandType::Unknown,
            data_type: DataType::Fixed(1),
            handler: Box::new(NoHandler),
        })
        .unwrap();
    let mut seed: u64 = 7;
    for round in 0..300 {
        let mut bytes = Vec::new();
        for _ in 0..(round % 64) {
            seed = seed.wrapping_mul(6364136223846793005).wrapping_add(1442695040888963407);
            let byte = (seed >> 56) as u8;
            bytes.push(match byte % 8 {
                0 => 0x1C,
                1 => b'&',
                2 => b'.',
                3 => 0x1B,
                4 => b'\n',
                _ => byte,
            });
        }
        let mut context = Context::new();
        let mut renderer = SvgRenderer::new();
        match process(&catalog, &bytes, &mut context, &mut renderer) {
            Ok(undecoded) => {
                assert!(undecoded.is_empty());
                assert!(renderer.document.is_some());
                assert!(renderer.text_layout.is_none());
                assert_eq!(context.graphics.x, 0);
                assert_eq!(context.graphics.y, 0);
            }
            Err(DecodeError::TruncatedStream { offset, def }) => {
                assert!(offset < bytes.len());
                assert_eq!(def, 3);
                assert!(renderer.document.is_none());
                assert_eq!(context, Context::new());
            }
        }
    }
}
