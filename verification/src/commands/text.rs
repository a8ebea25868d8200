//! The built-in text command: whatever in the stream is no other command.
//!
//! It has no trigger. Its payload runs up to the next command. The payload's
//! charset is detected from its bytes; the handler notes the charset's name
//! in the text state and decodes the payload as that charset says.

use crate::command::{Command, CommandDef, CommandHandler, CommandType, DataType, Image};
use crate::context::{Context, ContextView};
use crate::encoding::{detect, detected_charset, detected_text};
use vstd::prelude::*;

verus! {

/// Detects the payload's charset and decodes the payload.
pub struct Handler;

impl CommandHandler for Handler {
    open spec fn context_after(&self, data: Seq<u8>, before: ContextView) -> ContextView {
        before.with_encoding(detected_charset(data))
    }

    fn apply_context(&self, command: &Command, context: &mut Context) {
        let (charset, _) = detect(command.data.as_slice());
        context.text.encoding = charset;
    }

    open spec fn text_of(&self, data: Seq<u8>, context: ContextView) -> Option<Seq<char>> {
        detected_text(data)
    }

    fn get_text(&self, command: &Command, context: &Context) -> (text: Option<String>) {
        let (_, text) = detect(command.data.as_slice());
        text
    }

    fn get_image(&self, command: &Command, context: &Context) -> (image: Option<Image>) {
        None
    }
}

/// The definition of the text command: no trigger, a payload that runs up
/// to the next command, and a handler that detects the charset and decodes.
pub fn new() -> (def: CommandDef)
    ensures
        def.name@ == "Text"@,
        def.trigger@.len() == 0,
        def.kind == CommandType::Text,
        def.data_type == DataType::Text,
        forall|data: Seq<u8>, before: ContextView|
            #[trigger] def.handler.context_after(data, before) == before.with_encoding(
                detected_charset(data),
            ),
        forall|data: Seq<u8>, context: ContextView|
            #[trigger] def.handler.text_of(data, context) == detected_text(data),
        forall|data: Seq<u8>, context: ContextView|
            #[trigger] def.handler.image_of(data, context) is None,
{
    CommandDef {
        name: "Text".to_owned(),
        trigger: Vec::new(),
        kind: CommandType::Text,
        data_type: DataType::Text,
        handler: Box::new(Handler {  }),
    }
}

} // verus!
