//! The command catalog and its matcher.
//!
//! The catalog is an ordered list of definitions. Entry 0 is the built-in
//! text command, which has no trigger; every other entry has a trigger of at
//! least one byte, and no two of them have triggers of one length that some
//! bytes match both. So at any offset of a stream the longest trigger that
//! matches belongs to one entry only.

use crate::command::{CommandDef, CommandType, DataType, TriggerByte};
use crate::constants::FS;
use crate::commands::{cancel_cjk_mode, enter_cjk_mode, text};
use crate::context::ContextView;
use crate::encoding::{detected_charset, detected_text};
use vstd::prelude::*;

verus! {

/// Why a definition was not taken into the catalog.
#[derive(Clone, Copy, Debug, PartialEq, Eq)]
pub enum CatalogError {
    /// The trigger is empty: only the built-in text command has none.
    EmptyTrigger,
    /// The entry at this index has a trigger of the same length that matches
    /// some of the same bytes.
    DuplicateTrigger { existing: usize },
}

/// The position `slot` of a trigger matches the byte `b`.
pub open spec fn slot_matches(slot: TriggerByte, b: u8) -> bool {
    match slot {
        TriggerByte::Exact(e) => e == b,
        TriggerByte::Any => true,
    }
}

/// `trigger` matches the bytes of `bytes` that start at `at`.
pub open spec fn matches_at(trigger: Seq<TriggerByte>, bytes: Seq<u8>, at: int) -> bool {
    &&& 0 <= at
    &&& at + trigger.len() <= bytes.len()
    &&& forall|k: int| 0 <= k < trigger.len() ==> slot_matches(#[trigger] trigger[k], bytes[at + k])
}

/// Some byte matches both positions.
pub open spec fn slots_meet(a: TriggerByte, b: TriggerByte) -> bool {
    match (a, b) {
        (TriggerByte::Exact(x), TriggerByte::Exact(y)) => x == y,
        _ => true,
    }
}

/// The two triggers have one length and meet at every position: some bytes
/// match both.
pub open spec fn triggers_overlap(a: Seq<TriggerByte>, b: Seq<TriggerByte>) -> bool {
    &&& a.len() == b.len()
    &&& forall|k: int| 0 <= k < a.len() ==> slots_meet(#[trigger] a[k], b[k])
}

/// The catalog's entries are well formed: entry 0 has no trigger and a
/// payload that runs up to the next command, every other entry has a
/// trigger, and no two of the others overlap.
pub open spec fn defs_wf(defs: Seq<CommandDef>) -> bool {
    &&& defs.len() >= 1
    &&& defs[0].trigger@.len() == 0
    &&& defs[0].data_type is Text
    &&& forall|i: int| 1 <= i < defs.len() ==> (#[trigger] defs[i]).trigger@.len() > 0
    &&& forall|i: int, j: int|
        1 <= i < j < defs.len() ==> !triggers_overlap(
            (#[trigger] defs[i]).trigger@,
            (#[trigger] defs[j]).trigger@,
        )
}

/// Among the first `n` entries, the entry with the longest trigger that
/// matches at `at`; entry 0 is never among them. `None` where none matches.
pub open spec fn longest_match(defs: Seq<CommandDef>, bytes: Seq<u8>, at: int, n: nat) -> Option<
    int,
>
    decreases n,
{
    if n <= 1 || n > defs.len() {
        None
    } else {
        let before = longest_match(defs, bytes, at, (n - 1) as nat);
        let j = n - 1;
        if matches_at(defs[j].trigger@, bytes, at) && (before is None || defs[before->0].trigger@.len()
            < defs[j].trigger@.len()) {
            Some(j)
        } else {
            before
        }
    }
}

/// The entry that matches at `at`: the one with the longest trigger among
/// those that match. `None` where none matches.
pub open spec fn match_of(defs: Seq<CommandDef>, bytes: Seq<u8>, at: int) -> Option<int> {
    longest_match(defs, bytes, at, defs.len())
}

/// Entry `i` matches at `at` and no entry with a longer trigger does.
pub open spec fn is_longest_match(defs: Seq<CommandDef>, bytes: Seq<u8>, at: int, i: int) -> bool {
    &&& 1 <= i < defs.len()
    &&& matches_at(defs[i].trigger@, bytes, at)
    &&& forall|j: int|
        1 <= j < defs.len() && matches_at((#[trigger] defs[j]).trigger@, bytes, at)
            ==> defs[j].trigger@.len() <= defs[i].trigger@.len()
}

/// Index of "Enter CJK Mode" in the standard catalog.
pub const ENTER_CJK_MODE: usize = 1;

/// Index of "Cancel CJK Mode" in the standard catalog.
pub const CANCEL_CJK_MODE: usize = 2;

/// `defs` are the entries of the standard catalog: the text command, then
/// the two CJK-mode commands, each with its name, its trigger, its kind, no
/// payload for the CJK commands, and a handler that does what the command is
/// for.
pub open spec fn is_standard(defs: Seq<CommandDef>) -> bool {
    &&& defs.len() == 3
    &&& defs[0].name@ == "Text"@
    &&& defs[1].name@ == "Enter CJK Mode"@
    &&& defs[2].name@ == "Cancel CJK Mode"@
    &&& defs[0].trigger@.len() == 0
    &&& defs[0].kind == CommandType::Text
    &&& defs[0].data_type == DataType::Text
    &&& forall|data: Seq<u8>, before: ContextView|
        #[trigger] defs[0].handler.context_after(data, before) == before.with_encoding(
            detected_charset(data),
        )
    &&& forall|data: Seq<u8>, context: ContextView|
        #[trigger] defs[0].handler.text_of(data, context) == detected_text(data)
    &&& defs[1].trigger@ == seq![
        TriggerByte::Exact(FS),
        TriggerByte::Exact(enter_cjk_mode::SELECTOR),
    ]
    &&& defs[1].kind == CommandType::Context
    &&& defs[1].data_type == DataType::Empty
    &&& forall|data: Seq<u8>, before: ContextView|
        #[trigger] defs[1].handler.context_after(data, before) == before.with_cjk(true)
    &&& defs[2].trigger@ == seq![
        TriggerByte::Exact(FS),
        TriggerByte::Exact(cancel_cjk_mode::SELECTOR),
    ]
    &&& defs[2].kind == CommandType::Context
    &&& defs[2].data_type == DataType::Empty
    &&& forall|data: Seq<u8>, before: ContextView|
        #[trigger] defs[2].handler.context_after(data, before) == before.with_cjk(false)
}

/// The command catalog.
pub struct Catalog {
    /// The entries; entry 0 is the built-in text command.
    pub defs: Vec<CommandDef>,
}

/// Whether the position `slot` matches `b`.
pub fn slot_matches_byte(slot: TriggerByte, b: u8) -> (m: bool)
    ensures
        m == slot_matches(slot, b),
{
    match slot {
        TriggerByte::Exact(e) => e == b,
        TriggerByte::Any => true,
    }
}

/// Whether `trigger` matches the bytes of `bytes` that start at `at`.
pub fn trigger_matches(trigger: &Vec<TriggerByte>, bytes: &[u8], at: usize) -> (m: bool)
    ensures
        m == matches_at(trigger@, bytes@, at as int),
{
    if at > bytes.len() || trigger.len() > bytes.len() - at {
        return false;
    }
    let mut k: usize = 0;
    while k < trigger.len()
        invariant
            k <= trigger@.len(),
            at + trigger@.len() <= bytes@.len() <= usize::MAX,
            forall|l: int| 0 <= l < k ==> slot_matches(#[trigger] trigger@[l], bytes@[at + l]),
        decreases trigger@.len() - k,
    {
        if !slot_matches_byte(trigger[k], bytes[at + k]) {
            return false;
        }
        k = k + 1;
    }
    true
}

/// Whether some bytes match both triggers.
pub fn overlap(a: &Vec<TriggerByte>, b: &Vec<TriggerByte>) -> (o: bool)
    ensures
        o == triggers_overlap(a@, b@),
{
    if a.len() != b.len() {
        return false;
    }
    let mut k: usize = 0;
    while k < a.len()
        invariant
            k <= a@.len(),
            a@.len() == b@.len(),
            forall|l: int| 0 <= l < k ==> slots_meet(#[trigger] a@[l], b@[l]),
        decreases a@.len() - k,
    {
        let meet = match (a[k], b[k]) {
            (TriggerByte::Exact(x), TriggerByte::Exact(y)) => x == y,
            _ => true,
        };
        if !meet {
            return false;
        }
        k = k + 1;
    }
    true
}

impl Catalog {
    /// The catalog's entries are well formed.
    pub open spec fn wf(&self) -> bool {
        defs_wf(self.defs@)
    }

    /// A catalog that holds the built-in text command and nothing else.
    pub fn new() -> (catalog: Catalog)
        ensures
            catalog.wf(),
            catalog.defs@.len() == 1,
            catalog.defs@[0].name@ == "Text"@,
            catalog.defs@[0].kind == CommandType::Text,
            catalog.defs@[0].data_type == DataType::Text,
            forall|data: Seq<u8>, before: ContextView|
                #[trigger] catalog.defs@[0].handler.context_after(data, before)
                    == before.with_encoding(detected_charset(data)),
            forall|data: Seq<u8>, context: ContextView|
                #[trigger] catalog.defs@[0].handler.text_of(data, context) == detected_text(data),
    {
        let mut defs: Vec<CommandDef> = Vec::new();
        defs.push(text::new());
        Catalog { defs }
    }

    /// The catalog of the commands that this library knows: the text
    /// command at index 0, "Enter CJK Mode" at [`ENTER_CJK_MODE`] and "Cancel
    /// CJK Mode" at [`CANCEL_CJK_MODE`].
    pub fn standard() -> (catalog: Catalog)
        ensures
            catalog.wf(),
            is_standard(catalog.defs@),
    {
        let mut catalog = Catalog::new();
        let enter = enter_cjk_mode::new();
        let cancel = cancel_cjk_mode::new();
        proof {
            assert(!slots_meet(enter.trigger@[1], cancel.trigger@[1]));
            assert(!triggers_overlap(cancel.trigger@, enter.trigger@));
        }
        let first = catalog.register(enter);
        assert(first is Ok);
        let second = catalog.register(cancel);
        assert(second is Ok) by {
            assert(catalog.defs@[1].trigger@ == enter.trigger@);
        }
        catalog
    }

    /// The number of entries.
    pub fn len(&self) -> (n: usize)
        ensures
            n == self.defs@.len(),
    {
        self.defs.len()
    }

    /// The entry at `index`.
    pub fn get(&self, index: usize) -> (def: &CommandDef)
        requires
            index < self.defs@.len(),
        ensures
            *def == self.defs@[index as int],
    {
        &self.defs[index]
    }

    /// Takes `def` into the catalog, behind the entries it has. A definition
    /// without a trigger is refused, and so is one whose trigger overlaps
    /// that of an entry; the catalog then stays as it was.
    pub fn register(&mut self, def: CommandDef) -> (result: Result<usize, CatalogError>)
        requires
            old(self).wf(),
        ensures
            final(self).wf(),
            match result {
                Ok(index) => {
                    &&& index == old(self).defs@.len()
                    &&& final(self).defs@ == old(self).defs@.push(def)
                    &&& def.trigger@.len() > 0
                    &&& forall|j: int|
                        1 <= j < old(self).defs@.len() ==> !triggers_overlap(
                            def.trigger@,
                            (#[trigger] old(self).defs@[j]).trigger@,
                        )
                },
                Err(CatalogError::EmptyTrigger) => {
                    &&& def.trigger@.len() == 0
                    &&& final(self).defs@ == old(self).defs@
                },
                Err(CatalogError::DuplicateTrigger { existing }) => {
                    &&& def.trigger@.len() > 0
                    &&& 1 <= existing < old(self).defs@.len()
                    &&& triggers_overlap(def.trigger@, old(self).defs@[existing as int].trigger@)
                    &&& forall|j: int|
                        1 <= j < existing ==> !triggers_overlap(
                            def.trigger@,
                            (#[trigger] old(self).defs@[j]).trigger@,
                        )
                    &&& final(self).defs@ == old(self).defs@
                },
            },
    {
        if def.trigger.len() == 0 {
            return Err(CatalogError::EmptyTrigger);
        }
        let mut j: usize = 1;
        while j < self.defs.len()
            invariant
                1 <= j <= self.defs@.len(),
                self.defs@ == old(self).defs@,
                self.wf(),
                def.trigger@.len() > 0,
                forall|l: int|
                    1 <= l < j ==> !triggers_overlap(
                        def.trigger@,
                        (#[trigger] self.defs@[l]).trigger@,
                    ),
            decreases self.defs@.len() - j,
        {
            if overlap(&def.trigger, &self.defs[j].trigger) {
                return Err(CatalogError::DuplicateTrigger { existing: j });
            }
            j = j + 1;
        }
        let index = self.defs.len();
        self.defs.push(def);
        proof {
            let defs = self.defs@;
            assert forall|a: int, b: int| 1 <= a < b < defs.len() implies !triggers_overlap(
                (#[trigger] defs[a]).trigger@,
                (#[trigger] defs[b]).trigger@,
            ) by {
                if b == index {
                    lemma_overlap_symmetric(defs[a].trigger@, defs[b].trigger@);
                }
            }
        }
        Ok(index)
    }

    /// The entry that matches at `at`, and the length of its trigger.
    /// Of the entries whose triggers match there, the one with the longest
    /// trigger is taken; `None` where none matches.
    pub fn match_at(&self, bytes: &[u8], at: usize) -> (found: Option<(usize, usize)>)
        requires
            self.wf(),
        ensures
            match found {
                Some((index, consumed)) => {
                    &&& match_of(self.defs@, bytes@, at as int) == Some(index as int)
                    &&& is_longest_match(self.defs@, bytes@, at as int, index as int)
                    &&& consumed == self.defs@[index as int].trigger@.len()
                    &&& consumed > 0
                    &&& at + consumed <= bytes@.len()
                },
                None => {
                    &&& match_of(self.defs@, bytes@, at as int) is None
                    &&& forall|j: int|
                        1 <= j < self.defs@.len() ==> !matches_at(
                            (#[trigger] self.defs@[j]).trigger@,
                            bytes@,
                            at as int,
                        )
                },
            },
    {
        let mut best: Option<(usize, usize)> = None;
        let mut j: usize = 1;
        while j < self.defs.len()
            invariant
                1 <= j <= self.defs@.len(),
                self.wf(),
                match best {
                    Some((index, consumed)) => {
                        &&& longest_match(self.defs@, bytes@, at as int, j as nat) == Some(
                            index as int,
                        )
                        &&& 1 <= index < j
                        &&& consumed == self.defs@[index as int].trigger@.len()
                    },
                    None => longest_match(self.defs@, bytes@, at as int, j as nat) is None,
                },
            decreases self.defs@.len() - j,
        {
            let def = &self.defs[j];
            if trigger_matches(&def.trigger, bytes, at) {
                let longer = match best {
                    Some((_, consumed)) => consumed < def.trigger.len(),
                    None => true,
                };
                if longer {
                    best = Some((j, def.trigger.len()));
                }
            }
            j = j + 1;
        }
        proof {
            lemma_longest_match(self.defs@, bytes@, at as int, self.defs@.len());
        }
        best
    }
}

/// Overlap does not depend on the order of the two triggers.
pub proof fn lemma_overlap_symmetric(a: Seq<TriggerByte>, b: Seq<TriggerByte>)
    ensures
        triggers_overlap(a, b) == triggers_overlap(b, a),
{
    if triggers_overlap(a, b) {
        assert forall|k: int| 0 <= k < b.len() implies slots_meet(#[trigger] b[k], a[k]) by {
            assert(slots_meet(a[k], b[k]));
        }
    }
    if triggers_overlap(b, a) {
        assert forall|k: int| 0 <= k < a.len() implies slots_meet(#[trigger] a[k], b[k]) by {
            assert(slots_meet(b[k], a[k]));
        }
    }
}

/// Two triggers of one length that match at the same offset overlap.
pub proof fn lemma_matching_triggers_overlap(
    a: Seq<TriggerByte>,
    b: Seq<TriggerByte>,
    bytes: Seq<u8>,
    at: int,
)
    requires
        a.len() == b.len(),
        matches_at(a, bytes, at),
        matches_at(b, bytes, at),
    ensures
        triggers_overlap(a, b),
{
    assert forall|k: int| 0 <= k < a.len() implies slots_meet(#[trigger] a[k], b[k]) by {
        assert(slot_matches(a[k], bytes[at + k]));
        assert(slot_matches(b[k], bytes[at + k]));
    }
}

/// What the scan over the first `n` entries finds: an entry that matches
/// and has the longest trigger of those among the first `n` that match, or
/// nothing where none of them matches.
pub proof fn lemma_longest_match(defs: Seq<CommandDef>, bytes: Seq<u8>, at: int, n: nat)
    requires
        n <= defs.len(),
    ensures
        match longest_match(defs, bytes, at, n) {
            Some(i) => {
                &&& 1 <= i < n
                &&& matches_at(defs[i].trigger@, bytes, at)
                &&& forall|j: int|
                    1 <= j < n && matches_at((#[trigger] defs[j]).trigger@, bytes, at)
                        ==> defs[j].trigger@.len() <= defs[i].trigger@.len()
            },
            None => forall|j: int|
                1 <= j < n ==> !matches_at((#[trigger] defs[j]).trigger@, bytes, at),
        },
    decreases n,
{
    if n > 1 {
        lemma_longest_match(defs, bytes, at, (n - 1) as nat);
    }
}

/// In a well-formed catalog the match at an offset is the only entry that
/// matches there with a trigger as long as any: whatever entry is a longest
/// match is the one the matcher finds.
pub proof fn lemma_match_is_unique(defs: Seq<CommandDef>, bytes: Seq<u8>, at: int, i: int)
    requires
        defs_wf(defs),
        is_longest_match(defs, bytes, at, i),
    ensures
        match_of(defs, bytes, at) == Some(i),
{
    lemma_longest_match(defs, bytes, at, defs.len());
    let found = match_of(defs, bytes, at);
    assert(found is Some);
    let f = found->0;
    if f != i {
        assert(defs[f].trigger@.len() == defs[i].trigger@.len());
        lemma_matching_triggers_overlap(defs[f].trigger@, defs[i].trigger@, bytes, at);
        lemma_overlap_symmetric(defs[f].trigger@, defs[i].trigger@);
    }
}

} // verus!
