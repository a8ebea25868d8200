//! The dispatcher: every decoded command goes where its kind says.
//!
//! A command of the context kind changes the printer state. A text command
//! notes the charset of its payload in the state and hands the decoded text
//! to the renderer; if the payload cannot be decoded nothing is drawn, and
//! the command is reported. A graphics command hands its image to the
//! renderer. Any other command goes to the renderer as a device command.
//! Commands are taken strictly in stream order, since each acts on the state
//! that all the commands before it have left.

use crate::catalog::{is_standard, Catalog, CANCEL_CJK_MODE, ENTER_CJK_MODE};
use crate::command::{Command, CommandDef, CommandType, CommandView, DeviceCommand};
use crate::context::{lemma_cjk_mode, Context, ContextView};
use crate::decoder::{commands_view, decode, decoded, DecodeError};
use crate::renderer::CommandRenderer;
use vstd::prelude::*;

verus! {

/// Where a job stands: the renderer's model, the printer state, and the
/// positions in the stream's command list of the text commands whose payload
/// could not be decoded.
pub struct Progress<S> {
    pub state: S,
    pub context: ContextView,
    pub undecoded: Seq<int>,
}

/// What dispatching the command `command`, the one at `position` of its
/// stream, makes of a job.
pub open spec fn dispatched<R: CommandRenderer>(
    defs: Seq<CommandDef>,
    command: CommandView,
    position: int,
    before: Progress<R::State>,
) -> Progress<R::State> {
    let def = defs[command.def];
    match def.kind {
        CommandType::Context => Progress {
            context: def.handler.context_after(command.data, before.context),
            ..before
        },
        CommandType::Text => {
            let context = def.handler.context_after(command.data, before.context);
            match def.handler.text_of(command.data, context) {
                Some(text) => {
                    let drawn = R::text_drawn(before.state, context, text);
                    Progress { state: drawn.0, context: drawn.1, ..before }
                },
                None => Progress { context, undecoded: before.undecoded.push(position), ..before },
            }
        },
        CommandType::Graphics => match def.handler.image_of(command.data, before.context) {
            Some(image) => {
                let begun = R::graphics_begun(before.state, before.context);
                let drawn = R::image_drawn(
                    begun.0,
                    begun.1,
                    image.bytes,
                    image.width,
                    image.height,
                );
                let ended = R::graphics_ended(drawn.0, drawn.1);
                Progress { state: ended.0, context: ended.1, ..before }
            },
            None => before,
        },
        CommandType::Unknown => {
            let drawn = R::device_command_drawn(
                before.state,
                before.context,
                def.name@,
                command.data,
            );
            Progress { state: drawn.0, context: drawn.1, ..before }
        },
    }
}

/// What dispatching the first `n` of `commands`, in order, makes of a job.
pub open spec fn dispatched_all<R: CommandRenderer>(
    defs: Seq<CommandDef>,
    commands: Seq<CommandView>,
    n: nat,
    start: Progress<R::State>,
) -> Progress<R::State>
    decreases n,
{
    if n == 0 || n > commands.len() {
        start
    } else {
        dispatched::<R>(
            defs,
            commands[n - 1],
            n - 1,
            dispatched_all::<R>(defs, commands, (n - 1) as nat, start),
        )
    }
}

/// What a whole job makes of the renderer and the printer state: the job
/// begins, the commands are dispatched in stream order, the job ends.
pub open spec fn rendered<R: CommandRenderer>(
    defs: Seq<CommandDef>,
    commands: Seq<CommandView>,
    state: R::State,
    context: ContextView,
) -> Progress<R::State> {
    let begun = R::began(state, context);
    let done = dispatched_all::<R>(
        defs,
        commands,
        commands.len(),
        Progress { state: begun.0, context: begun.1, undecoded: Seq::empty() },
    );
    let ended = R::ended(done.state, done.context);
    Progress { state: ended.0, context: ended.1, undecoded: done.undecoded }
}

/// The values of `positions` as integers.
pub open spec fn positions_view(positions: Seq<usize>) -> Seq<int> {
    positions.map_values(|p: usize| p as int)
}

/// Dispatches one command. Gives `false` if it is a text command whose
/// payload could not be decoded, `true` otherwise.
pub fn dispatch<R: CommandRenderer>(
    catalog: &Catalog,
    command: &Command,
    context: &mut Context,
    renderer: &mut R,
) -> (drawn: bool)
    requires
        catalog.wf(),
        command.def < catalog.defs@.len(),
        old(context).wf(),
    ensures
        final(context).wf(),
        forall|position: int, undecoded: Seq<int>|
            #![trigger dispatched::<R>(
                catalog.defs@,
                command@,
                position,
                Progress { state: old(renderer).state(), context: old(context)@, undecoded },
            )]
            dispatched::<R>(
                catalog.defs@,
                command@,
                position,
                Progress { state: old(renderer).state(), context: old(context)@, undecoded },
            ) == (Progress {
                state: final(renderer).state(),
                context: final(context)@,
                undecoded: if drawn {
                    undecoded
                } else {
                    undecoded.push(position)
                },
            }),
{
    let def = catalog.get(command.def);
    match def.kind {
        CommandType::Context => {
            def.handler.apply_context(command, context);
            true
        },
        CommandType::Text => {
            def.handler.apply_context(command, context);
            match def.handler.get_text(command, context) {
                Some(text) => {
                    renderer.draw_text(context, text);
                    true
                },
                None => false,
            }
        },
        CommandType::Graphics => {
            match def.handler.get_image(command, context) {
                Some(image) => {
                    renderer.begin_graphics(context);
                    renderer.draw_image(context, image.bytes, image.width, image.height);
                    renderer.end_graphics(context);
                },
                None => {},
            }
            true
        },
        CommandType::Unknown => {
            let device = DeviceCommand { name: def.name.clone(), data: command.data.clone() };
            renderer.draw_device_command(context, &device);
            true
        },
    }
}

/// Runs a whole job: decodes `bytes`, begins the job, dispatches every
/// command in stream order, and ends the job. Gives the positions of the
/// text commands whose payload could not be decoded. Where the stream cuts a
/// payload short, the error is given and neither the renderer nor the
/// printer state is touched.
pub fn process<R: CommandRenderer>(
    catalog: &Catalog,
    bytes: &[u8],
    context: &mut Context,
    renderer: &mut R,
) -> (result: Result<Vec<usize>, DecodeError>)
    requires
        catalog.wf(),
        old(context).wf(),
    ensures
        final(context).wf(),
        match decoded(catalog.defs@, bytes@) {
            Ok(commands) => {
                let end = rendered::<R>(
                    catalog.defs@,
                    commands,
                    old(renderer).state(),
                    old(context)@,
                );
                &&& result matches Ok(undecoded)
                &&& positions_view(undecoded@) == end.undecoded
                &&& final(renderer).state() == end.state
                &&& final(context)@ == end.context
                &&& !R::pending(final(renderer).state())
                &&& final(context)@.graphics.x == 0
                &&& final(context)@.graphics.y == 0
            },
            Err(e) => {
                &&& result == Err::<Vec<usize>, DecodeError>(e)
                &&& final(renderer).state() == old(renderer).state()
                &&& final(context)@ == old(context)@
            },
        },
{
    let commands = match decode(catalog, bytes) {
        Ok(commands) => commands,
        Err(e) => {
            return Err(e);
        },
    };
    let ghost views = commands_view(commands@);
    let ghost start = Progress::<R::State> {
        state: R::began(old(renderer).state(), old(context)@).0,
        context: R::began(old(renderer).state(), old(context)@).1,
        undecoded: Seq::empty(),
    };
    renderer.begin_render(context);
    let mut undecoded: Vec<usize> = Vec::new();
    assert(positions_view(undecoded@) =~= Seq::<int>::empty());
    let mut i: usize = 0;
    while i < commands.len()
        invariant
            catalog.wf(),
            context.wf(),
            i <= commands@.len(),
            views == commands_view(commands@),
            forall|k: int|
                0 <= k < commands@.len() ==> (#[trigger] commands@[k]).def < catalog.defs@.len(),
            dispatched_all::<R>(catalog.defs@, views, i as nat, start) == (Progress {
                state: renderer.state(),
                context: context@,
                undecoded: positions_view(undecoded@),
            }),
        decreases commands@.len() - i,
    {
        let command = &commands[i];
        assert(views[i as int] == command@);
        let ghost before = Progress::<R::State> {
            state: renderer.state(),
            context: context@,
            undecoded: positions_view(undecoded@),
        };
        let drawn = dispatch(catalog, command, context, renderer);
        assert(dispatched::<R>(catalog.defs@, command@, i as int, before) == (Progress {
            state: renderer.state(),
            context: context@,
            undecoded: if drawn {
                before.undecoded
            } else {
                before.undecoded.push(i as int)
            },
        }));
        if !drawn {
            let ghost positions = undecoded@;
            undecoded.push(i);
            assert(positions_view(positions.push(i)) =~= positions_view(positions).push(i as int));
        }
        i = i + 1;
    }
    renderer.end_render(context);
    Ok(undecoded)
}

/// The two CJK-mode commands of the standard catalog, dispatched in any
/// state of a job: "Enter CJK Mode" switches CJK mode on and changes nothing
/// else, neither in the printer state nor in the renderer; "Cancel CJK Mode"
/// switches it off and changes nothing else; either of them dispatched twice
/// in a row leaves what it leaves when dispatched once; and entering and
/// cancelling, one after the other, gives back any state in which CJK mode
/// was off.
pub proof fn lemma_cjk_commands<R: CommandRenderer>(
    defs: Seq<CommandDef>,
    data: Seq<u8>,
    position: int,
    before: Progress<R::State>,
)
    requires
        is_standard(defs),
    ensures
        ({
            let enter = CommandView { def: ENTER_CJK_MODE as int, data };
            let cancel = CommandView { def: CANCEL_CJK_MODE as int, data };
            let entered = dispatched::<R>(defs, enter, position, before);
            let cancelled = dispatched::<R>(defs, cancel, position, before);
            &&& entered == (Progress { context: before.context.with_cjk(true), ..before })
            &&& cancelled == (Progress { context: before.context.with_cjk(false), ..before })
            &&& dispatched::<R>(defs, enter, position + 1, entered) == entered
            &&& dispatched::<R>(defs, cancel, position + 1, cancelled) == cancelled
            &&& !before.context.text.is_cjk ==> dispatched::<R>(
                defs,
                cancel,
                position + 1,
                entered,
            ) == before
        }),
{
    lemma_cjk_mode(before.context, true);
    lemma_cjk_mode(before.context, false);
}

} // verus!
