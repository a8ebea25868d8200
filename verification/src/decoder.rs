//! The stream decoder: bytes in, commands out.
//!
//! At every offset the catalog's matcher is asked for the command that
//! starts there. If there is one, its payload is cut out as its definition
//! says. If there is none, the bytes from here up to the next offset at
//! which a command starts are the payload of a text command. A payload that
//! the stream ends in the middle of ends the decoding with an error.

use crate::catalog::{defs_wf, is_longest_match, lemma_match_is_unique, match_of, Catalog};
use crate::command::{Command, CommandDef, CommandView, DataType, LengthField};
use vstd::prelude::*;

verus! {

/// Why decoding stopped.
#[derive(Clone, Copy, Debug, PartialEq, Eq)]
pub enum DecodeError {
    /// The stream ends before the payload of the command that starts at
    /// `offset` is complete; `def` is the index of its definition.
    TruncatedStream { offset: usize, def: usize },
}

/// The number of bytes of the length field `field`.
pub open spec fn field_width(field: LengthField) -> int {
    match field {
        LengthField::U8 => 1,
        LengthField::U16Le => 2,
        LengthField::U16Be => 2,
    }
}

/// The length that the field `field` at `at` holds.
pub open spec fn field_value(field: LengthField, bytes: Seq<u8>, at: int) -> int {
    match field {
        LengthField::U8 => bytes[at] as int,
        LengthField::U16Le => bytes[at] + 256 * bytes[at + 1],
        LengthField::U16Be => 256 * bytes[at] + bytes[at + 1],
    }
}

/// The first offset from `from` on at which a command of the catalog
/// starts; the end of the stream where there is none.
pub open spec fn text_end(defs: Seq<CommandDef>, bytes: Seq<u8>, from: int) -> int
    decreases bytes.len() - from,
{
    if from >= bytes.len() {
        bytes.len() as int
    } else if match_of(defs, bytes, from) is Some {
        from
    } else {
        text_end(defs, bytes, from + 1)
    }
}

/// Where the payload of a command lies whose trigger ends at `start`: the
/// offsets of its first byte and behind its last. `None` where the stream
/// ends before the payload does.
pub open spec fn payload_span(
    data_type: DataType,
    defs: Seq<CommandDef>,
    bytes: Seq<u8>,
    start: int,
) -> Option<(int, int)> {
    match data_type {
        DataType::Empty => Some((start, start)),
        DataType::Fixed(n) => if start + n <= bytes.len() {
            Some((start, start + n))
        } else {
            None
        },
        DataType::LengthPrefixed(field) => {
            let body = start + field_width(field);
            if body <= bytes.len() && body + field_value(field, bytes, start) <= bytes.len() {
                Some((body, body + field_value(field, bytes, start)))
            } else {
                None
            }
        },
        DataType::Text => Some((start, text_end(defs, bytes, start))),
    }
}

/// The number of bytes that a command of definition `def` with a payload of
/// `data_len` bytes takes in the stream: its trigger, its length field if it
/// has one, and the payload.
pub open spec fn encoded_len(def: CommandDef, data_len: int) -> int {
    def.trigger@.len() + data_len + match def.data_type {
        DataType::LengthPrefixed(field) => field_width(field),
        _ => 0,
    }
}

/// The command that starts at `at`, and the offset behind it.
pub open spec fn decode_one(defs: Seq<CommandDef>, bytes: Seq<u8>, at: int) -> Result<
    (CommandView, int),
    DecodeError,
> {
    match match_of(defs, bytes, at) {
        Some(i) => match payload_span(
            defs[i].data_type,
            defs,
            bytes,
            at + defs[i].trigger@.len(),
        ) {
            Some((from, to)) => Ok((CommandView { def: i, data: bytes.subrange(from, to) }, to)),
            None => Err(DecodeError::TruncatedStream { offset: at as usize, def: i as usize }),
        },
        None => {
            let to = text_end(defs, bytes, at + 1);
            Ok((CommandView { def: 0, data: bytes.subrange(at, to) }, to))
        },
    }
}

/// The commands of the stream from `at` on, in stream order; the error of
/// the first command whose payload is cut short. (In a well-formed catalog
/// every command takes at least one byte; the case that one takes none is
/// there to make the definition total.)
pub open spec fn decode_from(defs: Seq<CommandDef>, bytes: Seq<u8>, at: int) -> Result<
    Seq<CommandView>,
    DecodeError,
>
    decreases bytes.len() - at,
{
    if at < 0 || at >= bytes.len() {
        Ok(Seq::empty())
    } else {
        match decode_one(defs, bytes, at) {
            Err(e) => Err(e),
            Ok((command, next)) => if next <= at || next > bytes.len() {
                Ok(seq![command])
            } else {
                match decode_from(defs, bytes, next) {
                    Ok(rest) => Ok(seq![command] + rest),
                    Err(e) => Err(e),
                }
            },
        }
    }
}

/// The commands of the whole stream.
pub open spec fn decoded(defs: Seq<CommandDef>, bytes: Seq<u8>) -> Result<
    Seq<CommandView>,
    DecodeError,
> {
    decode_from(defs, bytes, 0)
}

/// The values of the commands of `commands`, in order.
pub open spec fn commands_view(commands: Seq<Command>) -> Seq<CommandView> {
    commands.map_values(|c: Command| c@)
}

/// The bytes of `bytes` from `from` up to `to`, as a vector of their own.
pub fn copy_range(bytes: &[u8], from: usize, to: usize) -> (copy: Vec<u8>)
    requires
        from <= to <= bytes@.len(),
    ensures
        copy@ == bytes@.subrange(from as int, to as int),
{
    let mut copy: Vec<u8> = Vec::new();
    let mut k: usize = from;
    while k < to
        invariant
            from <= k <= to <= bytes@.len(),
            copy@ == bytes@.subrange(from as int, k as int),
        decreases to - k,
    {
        copy.push(bytes[k]);
        k = k + 1;
        assert(copy@ =~= bytes@.subrange(from as int, k as int));
    }
    copy
}

/// The length that the field `field` at `at` holds.
pub fn read_length(field: LengthField, bytes: &[u8], at: usize) -> (value: usize)
    requires
        at + field_width(field) <= bytes@.len(),
    ensures
        value == field_value(field, bytes@, at as int),
{
    match field {
        LengthField::U8 => bytes[at] as usize,
        LengthField::U16Le => bytes[at] as usize + 256 * (bytes[at + 1] as usize),
        LengthField::U16Be => 256 * (bytes[at] as usize) + bytes[at + 1] as usize,
    }
}

/// The number of bytes of the length field `field`.
pub fn length_width(field: LengthField) -> (width: usize)
    ensures
        width == field_width(field),
{
    match field {
        LengthField::U8 => 1,
        LengthField::U16Le => 2,
        LengthField::U16Be => 2,
    }
}

/// The first offset from `from` on at which a command of the catalog
/// starts; the end of the stream where there is none.
pub fn find_text_end(catalog: &Catalog, bytes: &[u8], from: usize) -> (end: usize)
    requires
        catalog.wf(),
        from <= bytes@.len(),
    ensures
        end == text_end(catalog.defs@, bytes@, from as int),
        from <= end <= bytes@.len(),
{
    let mut at: usize = from;
    while at < bytes.len()
        invariant
            catalog.wf(),
            from <= at <= bytes@.len(),
            text_end(catalog.defs@, bytes@, from as int) == text_end(
                catalog.defs@,
                bytes@,
                at as int,
            ),
        decreases bytes@.len() - at,
    {
        if catalog.match_at(bytes, at).is_some() {
            return at;
        }
        at = at + 1;
    }
    at
}

/// Decodes the command that starts at `at`. Gives the command and the
/// offset behind it, or the error that its payload is cut short.
pub fn decode_at(catalog: &Catalog, bytes: &[u8], at: usize) -> (result: Result<
    (Command, usize),
    DecodeError,
>)
    requires
        catalog.wf(),
        at < bytes@.len(),
    ensures
        match result {
            Ok((command, next)) => {
                &&& decode_one(catalog.defs@, bytes@, at as int) == Ok::<
                    (CommandView, int),
                    DecodeError,
                >((command@, next as int))
                &&& command.def < catalog.defs@.len()
                &&& at < next <= bytes@.len()
                &&& next - at == encoded_len(
                    catalog.defs@[command.def as int],
                    command.data@.len() as int,
                )
            },
            Err(e) => decode_one(catalog.defs@, bytes@, at as int) == Err::<
                (CommandView, int),
                DecodeError,
            >(e),
        },
{
    let len = bytes.len();
    match catalog.match_at(bytes, at) {
        Some((index, consumed)) => {
            let start = at + consumed;
            let left = len - start;
            let span: Option<(usize, usize)> = match catalog.get(index).data_type {
                DataType::Empty => Some((start, start)),
                DataType::Fixed(n) => if n <= left {
                    Some((start, start + n))
                } else {
                    None
                },
                DataType::LengthPrefixed(field) => {
                    let width = length_width(field);
                    if width <= left {
                        let n = read_length(field, bytes, start);
                        if n <= left - width {
                            Some((start + width, start + width + n))
                        } else {
                            None
                        }
                    } else {
                        None
                    }
                },
                DataType::Text => Some((start, find_text_end(catalog, bytes, start))),
            };
            match span {
                Some((from, to)) => Ok((Command { def: index, data: copy_range(bytes, from, to) }, to)),
                None => Err(DecodeError::TruncatedStream { offset: at, def: index }),
            }
        },
        None => {
            let to = find_text_end(catalog, bytes, at + 1);
            Ok((Command { def: 0, data: copy_range(bytes, at, to) }, to))
        },
    }
}

/// Decodes the whole stream into its commands, in stream order. Every byte
/// sequence decodes to a list of commands or to the error of the first
/// command whose payload the stream cuts short.
pub fn decode(catalog: &Catalog, bytes: &[u8]) -> (result: Result<Vec<Command>, DecodeError>)
    requires
        catalog.wf(),
    ensures
        match result {
            Ok(commands) => {
                &&& decoded(catalog.defs@, bytes@) == Ok::<Seq<CommandView>, DecodeError>(
                    commands_view(commands@),
                )
                &&& forall|k: int|
                    0 <= k < commands@.len() ==> (#[trigger] commands@[k]).def
                        < catalog.defs@.len()
            },
            Err(e) => decoded(catalog.defs@, bytes@) == Err::<Seq<CommandView>, DecodeError>(e),
        },
{
    let mut commands: Vec<Command> = Vec::new();
    let mut at: usize = 0;
    while at < bytes.len()
        invariant
            catalog.wf(),
            at <= bytes@.len(),
            forall|k: int|
                0 <= k < commands@.len() ==> (#[trigger] commands@[k]).def < catalog.defs@.len(),
            decoded(catalog.defs@, bytes@) == match decode_from(catalog.defs@, bytes@, at as int) {
                Ok(rest) => Ok::<Seq<CommandView>, DecodeError>(commands_view(commands@) + rest),
                Err(e) => Err(e),
            },
        decreases bytes@.len() - at,
    {
        match decode_at(catalog, bytes, at) {
            Ok((command, next)) => {
                proof {
                    let done = commands_view(commands@);
                    assert(commands_view(commands@.push(command)) =~= done.push(command@));
                    match decode_from(catalog.defs@, bytes@, next as int) {
                        Ok(rest) => {
                            assert(done + (seq![command@] + rest) =~= done.push(command@) + rest);
                        },
                        Err(e) => {},
                    }
                }
                commands.push(command);
                at = next;
            },
            Err(e) => {
                return Err(e);
            },
        }
    }
    proof {
        assert(commands_view(commands@) + Seq::<CommandView>::empty() =~= commands_view(
            commands@,
        ));
    }
    Ok(commands)
}

/// A stream that is one command and nothing else decodes to that command
/// alone, and the command takes the whole stream: where the trigger of entry
/// `index` is the longest that matches at the start, and the bytes behind the
/// trigger are a payload of the entry's kind that ends where the stream
/// ends, the decoder gives the one command with that payload, and the
/// stream's length is the length of the trigger, of the length field if
/// there is one, and of the payload.
pub proof fn lemma_single_command(defs: Seq<CommandDef>, bytes: Seq<u8>, index: int)
    requires
        defs_wf(defs),
        is_longest_match(defs, bytes, 0, index),
        payload_span(defs[index].data_type, defs, bytes, defs[index].trigger@.len() as int)
            matches Some(span) && span.1 == bytes.len(),
    ensures
        ({
            let span = payload_span(
                defs[index].data_type,
                defs,
                bytes,
                defs[index].trigger@.len() as int,
            )->0;
            let payload = bytes.subrange(span.0, span.1);
            &&& decoded(defs, bytes) == Ok::<Seq<CommandView>, DecodeError>(
                seq![CommandView { def: index, data: payload }],
            )
            &&& bytes.len() == encoded_len(defs[index], payload.len() as int)
        }),
{
    lemma_match_is_unique(defs, bytes, 0, index);
    let span = payload_span(defs[index].data_type, defs, bytes, defs[index].trigger@.len() as int)->0;
    let command = CommandView { def: index, data: bytes.subrange(span.0, span.1) };
    assert(decode_one(defs, bytes, 0) == Ok::<(CommandView, int), DecodeError>(
        (command, bytes.len() as int),
    ));
    assert(decode_from(defs, bytes, bytes.len() as int) == Ok::<Seq<CommandView>, DecodeError>(
        Seq::empty(),
    ));
    assert(seq![command] + Seq::<CommandView>::empty() =~= seq![command]);
    lemma_text_end_bounds(defs, bytes, defs[index].trigger@.len() as int);
}

/// The end of a text run lies between its start and the end of the stream.
pub proof fn lemma_text_end_bounds(defs: Seq<CommandDef>, bytes: Seq<u8>, from: int)
    requires
        0 <= from <= bytes.len(),
    ensures
        from <= text_end(defs, bytes, from) <= bytes.len(),
    decreases bytes.len() - from,
{
    if from < bytes.len() && match_of(defs, bytes, from) is None {
        lemma_text_end_bounds(defs, bytes, from + 1);
    }
}

} // verus!
