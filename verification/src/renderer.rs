//! The renderer contract: what an output backend has to offer, and what it
//! has to keep to.
//!
//! A renderer has a model, its [`CommandRenderer::State`], and every call is
//! a function from the model and the printer state before the call to the
//! two after it. What those functions are is up to the backend. The clauses
//! that bind every backend stand beside them: text that waits to be laid out
//! is flushed by every call that is not a text call, a bare newline with no
//! text waiting only moves the cursor down by the line spacing, and the end
//! of a job leaves the cursor at the origin.

use crate::command::DeviceCommand;
use crate::context::{Context, ContextView};
use vstd::prelude::*;

verus! {

/// `text` is a newline and nothing else.
pub open spec fn is_newline(text: Seq<char>) -> bool {
    text.len() == 1 && text[0] == '\n'
}

/// An output backend.
pub trait CommandRenderer {
    /// The model of the renderer.
    type State;

    /// The renderer's model.
    spec fn state(&self) -> Self::State;

    /// Text waits to be laid out.
    spec fn pending(state: Self::State) -> bool;

    /// What the start of a job makes of the model and the printer state.
    spec fn began(state: Self::State, context: ContextView) -> (Self::State, ContextView);

    /// Starts a job.
    fn begin_render(&mut self, context: &mut Context)
        requires
            old(context).wf(),
        ensures
            (final(self).state(), final(context)@) == Self::began(
                old(self).state(),
                old(context)@,
            ),
            final(context).wf(),
    ;

    /// What the start of graphics makes of the model and the printer state.
    spec fn graphics_begun(state: Self::State, context: ContextView) -> (Self::State, ContextView);

    /// Starts graphics. Text that waits is laid out first.
    fn begin_graphics(&mut self, context: &mut Context)
        requires
            old(context).wf(),
        ensures
            (final(self).state(), final(context)@) == Self::graphics_begun(
                old(self).state(),
                old(context)@,
            ),
            !Self::pending(final(self).state()),
            final(context).wf(),
    ;

    /// What a rectangle makes of the model and the printer state.
    spec fn rect_drawn(state: Self::State, context: ContextView, width: usize, height: usize) -> (
        Self::State,
        ContextView,
    );

    /// Draws a rectangle. Text that waits is laid out first.
    fn draw_rect(&mut self, context: &mut Context, width: usize, height: usize)
        requires
            old(context).wf(),
        ensures
            (final(self).state(), final(context)@) == Self::rect_drawn(
                old(self).state(),
                old(context)@,
                width,
                height,
            ),
            !Self::pending(final(self).state()),
            final(context).wf(),
    ;

    /// What the end of graphics makes of the model and the printer state.
    spec fn graphics_ended(state: Self::State, context: ContextView) -> (Self::State, ContextView);

    /// Ends graphics.
    fn end_graphics(&mut self, context: &mut Context)
        requires
            old(context).wf(),
        ensures
            (final(self).state(), final(context)@) == Self::graphics_ended(
                old(self).state(),
                old(context)@,
            ),
            final(context).wf(),
    ;

    /// What an image makes of the model and the printer state.
    spec fn image_drawn(
        state: Self::State,
        context: ContextView,
        bytes: Seq<u8>,
        width: usize,
        height: usize,
    ) -> (Self::State, ContextView);

    /// Draws an image. Text that waits is laid out first.
    fn draw_image(&mut self, context: &mut Context, bytes: Vec<u8>, width: usize, height: usize)
        requires
            old(context).wf(),
        ensures
            (final(self).state(), final(context)@) == Self::image_drawn(
                old(self).state(),
                old(context)@,
                bytes@,
                width,
                height,
            ),
            !Self::pending(final(self).state()),
            final(context).wf(),
    ;

    /// What text makes of the model and the printer state.
    spec fn text_drawn(state: Self::State, context: ContextView, text: Seq<char>) -> (
        Self::State,
        ContextView,
    );

    /// Draws text. A newline by itself, with no text waiting, moves the
    /// cursor down by the line spacing and leaves the renderer as it is. Any
    /// other text waits with the text before it, and the printer state stays
    /// as it is.
    fn draw_text(&mut self, context: &mut Context, text: String)
        requires
            old(context).wf(),
        ensures
            (final(self).state(), final(context)@) == Self::text_drawn(
                old(self).state(),
                old(context)@,
                text@,
            ),
            final(context).wf(),
            if !Self::pending(old(self).state()) && is_newline(text@) {
                &&& final(self).state() == old(self).state()
                &&& final(context)@ == old(context)@.advanced(
                    old(context)@.text.line_spacing as int,
                )
            } else {
                &&& Self::pending(final(self).state())
                &&& final(context)@ == old(context)@
            },
    ;

    /// What a device command makes of the model and the printer state.
    spec fn device_command_drawn(
        state: Self::State,
        context: ContextView,
        name: Seq<char>,
        data: Seq<u8>,
    ) -> (Self::State, ContextView);

    /// Takes a command that is neither text nor a change of state. Text
    /// that waits is laid out first.
    fn draw_device_command(&mut self, context: &mut Context, command: &DeviceCommand)
        requires
            old(context).wf(),
        ensures
            (final(self).state(), final(context)@) == Self::device_command_drawn(
                old(self).state(),
                old(context)@,
                command.name@,
                command.data@,
            ),
            !Self::pending(final(self).state()),
            final(context).wf(),
    ;

    /// What the end of a job makes of the model and the printer state.
    spec fn ended(state: Self::State, context: ContextView) -> (Self::State, ContextView);

    /// Ends a job. Text that waits is laid out first; the cursor is back
    /// at the origin afterwards.
    fn end_render(&mut self, context: &mut Context)
        requires
            old(context).wf(),
        ensures
            (final(self).state(), final(context)@) == Self::ended(old(self).state(), old(context)@),
            !Self::pending(final(self).state()),
            final(context)@.graphics.x == 0,
            final(context)@.graphics.y == 0,
            final(context).wf(),
    ;
}

} // verus!
