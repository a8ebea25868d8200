//! `FS &`: switches double-byte (CJK) character mode on.

use crate::command::{
    exact, Command, CommandDef, CommandHandler, CommandType, DataType, Image, TriggerByte,
};
use crate::constants::FS;
use crate::context::{Context, ContextView};
use vstd::prelude::*;

verus! {

/// Second byte of the trigger.
pub const SELECTOR: u8 = 0x26;

/// Sets the CJK flag of the text state to `true` and touches nothing else.
pub struct Handler;

impl CommandHandler for Handler {
    open spec fn context_after(&self, data: Seq<u8>, before: ContextView) -> ContextView {
        before.with_cjk(true)
    }

    fn apply_context(&self, command: &Command, context: &mut Context) {
        context.text.is_cjk = true;
    }

    fn get_text(&self, command: &Command, context: &Context) -> (text: Option<String>) {
        None
    }

    fn get_image(&self, command: &Command, context: &Context) -> (image: Option<Image>) {
        None
    }
}

/// The definition of the command: the two-byte trigger, no payload, and a
/// handler that switches CJK mode on.
pub fn new() -> (def: CommandDef)
    ensures
        def.name@ == "Enter CJK Mode"@,
        def.trigger@ == seq![TriggerByte::Exact(FS), TriggerByte::Exact(SELECTOR)],
        def.kind == CommandType::Context,
        def.data_type == DataType::Empty,
        forall|data: Seq<u8>, before: ContextView|
            #[trigger] def.handler.context_after(data, before) == before.with_cjk(true),
        forall|data: Seq<u8>, context: ContextView|
            #[trigger] def.handler.text_of(data, context) is None,
        forall|data: Seq<u8>, context: ContextView|
            #[trigger] def.handler.image_of(data, context) is None,
{
    let bytes: [u8; 2] = [FS, SELECTOR];
    let trigger = exact(&bytes);
    assert(trigger@ =~= seq![TriggerByte::Exact(FS), TriggerByte::Exact(SELECTOR)]);
    CommandDef {
        name: "Enter CJK Mode".to_owned(),
        trigger,
        kind: CommandType::Context,
        data_type: DataType::Empty,
        handler: Box::new(Handler {  }),
    }
}

} // verus!
