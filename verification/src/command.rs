//! Command definitions, decoded commands and the handler interface.
//!
//! A [`CommandDef`] says how a command is recognised in the stream (its
//! trigger), how much payload follows, and what it does, through its
//! [`CommandHandler`]. A [`Command`] is one occurrence in a stream: the index
//! of its definition in the catalog, and the payload.

use crate::context::{Context, ContextView};
use crate::encoding::text_view;
use vstd::prelude::*;

verus! {

/// What a command is for, which decides where the dispatcher sends it.
#[derive(Clone, Copy, Debug, PartialEq, Eq)]
pub enum CommandType {
    /// Changes the printer's state.
    Context,
    /// Carries text to draw.
    Text,
    /// Carries an image to draw.
    Graphics,
    /// Anything else; the renderer gets it as a device command.
    Unknown,
}

/// Width and byte order of the length field of a length-prefixed payload.
#[derive(Clone, Copy, Debug, PartialEq, Eq)]
pub enum LengthField {
    /// One byte.
    U8,
    /// Two bytes, low byte first.
    U16Le,
    /// Two bytes, high byte first.
    U16Be,
}

/// How much payload follows a command's trigger.
#[derive(Clone, Copy, Debug, PartialEq, Eq)]
pub enum DataType {
    /// None.
    Empty,
    /// That many bytes.
    Fixed(usize),
    /// A length field, then as many bytes as the field says.
    LengthPrefixed(LengthField),
    /// Everything up to the next trigger or the end of the stream, as with
    /// the built-in text command.
    Text,
}

/// One position of a trigger.
#[derive(Clone, Copy, Debug, PartialEq, Eq)]
pub enum TriggerByte {
    /// This byte.
    Exact(u8),
    /// Any one byte.
    Any,
}

/// An image handed to the renderer.
#[derive(Clone, Debug, PartialEq, Eq)]
pub struct Image {
    pub bytes: Vec<u8>,
    pub width: usize,
    pub height: usize,
}

/// The mathematical value of an [`Image`].
pub struct ImageView {
    pub bytes: Seq<u8>,
    pub width: usize,
    pub height: usize,
}

impl View for Image {
    type V = ImageView;

    open spec fn view(&self) -> ImageView {
        ImageView { bytes: self.bytes@, width: self.width, height: self.height }
    }
}

/// A decoded command: which definition matched, and the payload.
#[derive(Clone, Debug, PartialEq, Eq)]
pub struct Command {
    /// Index of the definition in the catalog.
    pub def: usize,
    /// The payload, without the trigger and without a length field.
    pub data: Vec<u8>,
}

/// The mathematical value of a [`Command`].
pub struct CommandView {
    pub def: int,
    pub data: Seq<u8>,
}

impl View for Command {
    type V = CommandView;

    open spec fn view(&self) -> CommandView {
        CommandView { def: self.def as int, data: self.data@ }
    }
}

/// A command that is neither text nor a change of state, as the renderer
/// gets it: the name of its definition and the payload.
#[derive(Clone, Debug, PartialEq, Eq)]
pub struct DeviceCommand {
    pub name: String,
    pub data: Vec<u8>,
}

/// What `image` holds, if anything.
pub open spec fn some_image(image: Option<Image>) -> Option<ImageView> {
    match image {
        Some(i) => Some(i@),
        None => None,
    }
}

/// What a command does. Each definition in the catalog has a handler of its
/// own. The three spec functions say what the handler makes of a payload;
/// as they stand here they say: no change of state, no text, no image. A
/// handler replaces those that its command is about.
pub trait CommandHandler {
    /// The state that a command with payload `data` leaves, given the state
    /// `before` it.
    open spec fn context_after(&self, data: Seq<u8>, before: ContextView) -> ContextView {
        before
    }

    /// Applies the command to the state. Applying it once more changes
    /// nothing: a command sets what it is about to a value and does not
    /// toggle it.
    fn apply_context(&self, command: &Command, context: &mut Context)
        requires
            old(context).wf(),
        ensures
            final(context)@ == self.context_after(command.data@, old(context)@),
            final(context).wf(),
            self.context_after(command.data@, final(context)@) == final(context)@,
    ;

    /// The text that a command with payload `data` carries in the state
    /// `context`, if any.
    open spec fn text_of(&self, data: Seq<u8>, context: ContextView) -> Option<Seq<char>> {
        None
    }

    /// The text to draw.
    fn get_text(&self, command: &Command, context: &Context) -> (text: Option<String>)
        ensures
            text_view(text) == self.text_of(command.data@, context@),
    ;

    /// The image that a command with payload `data` carries in the state
    /// `context`, if any.
    open spec fn image_of(&self, data: Seq<u8>, context: ContextView) -> Option<ImageView> {
        None
    }

    /// The image to draw.
    fn get_image(&self, command: &Command, context: &Context) -> (image: Option<Image>)
        ensures
            some_image(image) == self.image_of(command.data@, context@),
    ;
}

/// The handler of a command that does nothing by itself: no change of
/// state, no text, no image.
pub struct NoHandler;

impl CommandHandler for NoHandler {
    fn apply_context(&self, command: &Command, context: &mut Context) {
    }

    fn get_text(&self, command: &Command, context: &Context) -> (text: Option<String>) {
        None
    }

    fn get_image(&self, command: &Command, context: &Context) -> (image: Option<Image>) {
        None
    }
}

/// A command definition: one entry of the catalog.
pub struct CommandDef {
    /// Display name.
    pub name: String,
    /// The byte pattern that identifies the command in the stream.
    pub trigger: Vec<TriggerByte>,
    /// Where the dispatcher sends the command.
    pub kind: CommandType,
    /// How much payload follows the trigger.
    pub data_type: DataType,
    /// What the command does.
    pub handler: Box<dyn CommandHandler>,
}

/// Each byte of `bytes` as a trigger position that matches it alone.
pub open spec fn exact_trigger(bytes: Seq<u8>) -> Seq<TriggerByte> {
    bytes.map_values(|b: u8| TriggerByte::Exact(b))
}

/// The trigger that matches exactly `bytes`.
pub fn exact(bytes: &[u8]) -> (trigger: Vec<TriggerByte>)
    ensures
        trigger@ == exact_trigger(bytes@),
{
    let mut trigger: Vec<TriggerByte> = Vec::new();
    let mut i: usize = 0;
    while i < bytes.len()
        invariant
            i <= bytes@.len(),
            trigger@ == exact_trigger(bytes@.take(i as int)),
        decreases bytes@.len() - i,
    {
        trigger.push(TriggerByte::Exact(bytes[i]));
        i = i + 1;
        assert(trigger@ =~= exact_trigger(bytes@.take(i as int)));
    }
    assert(bytes@.take(bytes@.len() as int) == bytes@);
    trigger
}

} // verus!
