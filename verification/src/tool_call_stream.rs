//! Assembly of tool calls that arrive in fragments.
//!
//! Each fragment names the slot that it belongs to. The list grows slot by slot; a server that
//! leaves slots out gets placeholders in their place.
use vstd::prelude::*;
use vstd::string::*;

use crate::json;
use crate::json::{Json, JsonView};
use crate::llm_client;
use crate::llm_client::{ParsedCallView, ParsedToolCall};
use crate::text;

verus! {

#[derive(Debug)]
struct ToolCallAcc {
    id: String,
    name: String,
    arguments: String,
}

/// Tool calls under assembly.
#[derive(Debug)]
pub struct StreamingToolCallAccumulator {
    entries: Vec<ToolCallAcc>,
}

/// What has arrived of one tool call.
pub struct Slot {
    pub id: Seq<char>,
    pub name: Seq<char>,
    pub arguments: Seq<char>,
}

impl Slot {
    /// A slot of which nothing has arrived.
    pub open spec fn blank() -> Slot {
        Slot { id: Seq::empty(), name: Seq::empty(), arguments: Seq::empty() }
    }

    /// The slot after a fragment. The first id and the first name that are not empty stay;
    /// argument texts are appended.
    pub open spec fn merged(
        self,
        id: Option<Seq<char>>,
        name: Option<Seq<char>>,
        args_delta: Option<Seq<char>>,
    ) -> Slot {
        Slot {
            id: if self.id.len() == 0 && id is Some {
                id->Some_0
            } else {
                self.id
            },
            name: if self.name.len() == 0 && name is Some {
                name->Some_0
            } else {
                self.name
            },
            arguments: match args_delta {
                Some(s) => self.arguments + s,
                None => self.arguments,
            },
        }
    }
}

/// Slots brought to a number of at least `n` by blank ones at the end.
pub open spec fn grown(slots: Seq<Slot>, n: nat) -> Seq<Slot> {
    if slots.len() >= n {
        slots
    } else {
        Seq::new(
            n,
            |i: int|
                if i < slots.len() {
                    slots[i]
                } else {
                    Slot::blank()
                },
        )
    }
}

/// The slots after a fragment for the slot `index`.
pub open spec fn ingested(
    slots: Seq<Slot>,
    index: nat,
    id: Option<Seq<char>>,
    name: Option<Seq<char>>,
    args_delta: Option<Seq<char>>,
) -> Seq<Slot> {
    let all = grown(slots, index + 1);
    all.update(index as int, all[index as int].merged(id, name, args_delta))
}

/// What an optional text stands for.
pub open spec fn optional(s: Option<&str>) -> Option<Seq<char>> {
    match s {
        Some(s) => Some(s@),
        None => None,
    }
}

/// The object without entries.
pub open spec fn empty_object() -> JsonView {
    JsonView::Object(Seq::empty())
}

/// What came of the arguments of a slot: nothing where no text arrived, otherwise the value
/// that was read or the message of the parser.
pub open spec fn read_arguments(arguments: Seq<char>) -> Option<Result<JsonView, Seq<char>>> {
    if arguments.len() == 0 {
        None
    } else {
        Some(json::parsed(arguments))
    }
}

/// The finished call of a slot. An id that never arrived is made up from the place of the slot;
/// arguments that did not arrive or could not be read are an object without entries.
pub open spec fn settled(
    index: nat,
    id: Seq<char>,
    name: Seq<char>,
    arguments: Option<Result<JsonView, Seq<char>>>,
) -> ParsedCallView {
    ParsedCallView {
        id: if id.len() == 0 {
            "call_"@ + text::decimal(index)
        } else {
            id
        },
        name,
        arguments: match arguments {
            Some(Ok(j)) => j,
            _ => empty_object(),
        },
    }
}

/// The warning about arguments that could not be read.
pub open spec fn warning(name: Seq<char>, arguments: Option<Result<JsonView, Seq<char>>>) -> Option<
    Seq<char>,
> {
    match arguments {
        Some(Err(e)) => Some(
            "\x1b[33m[warn] tool '"@ + name + "' arguments not valid JSON ("@ + e
                + "); using empty object\x1b[0m"@,
        ),
        _ => None,
    }
}

/// The finished calls of all slots.
pub open spec fn settled_calls(slots: Seq<Slot>) -> Seq<ParsedCallView> {
    Seq::new(
        slots.len(),
        |i: int|
            settled(i as nat, slots[i].id, slots[i].name, read_arguments(slots[i].arguments)),
    )
}

/// The warnings about all slots, in their order.
pub open spec fn warnings(slots: Seq<Slot>) -> Seq<Seq<char>>
    decreases slots.len(),
{
    if slots.len() == 0 {
        Seq::empty()
    } else {
        let rest = warnings(slots.drop_last());
        match warning(slots.last().name, read_arguments(slots.last().arguments)) {
            Some(w) => rest.push(w),
            None => rest,
        }
    }
}

/// What came of the arguments of a slot, as a view.
pub open spec fn outcome_view(o: Option<Result<Json, String>>) -> Option<
    Result<JsonView, Seq<char>>,
> {
    match o {
        Some(Ok(j)) => Some(Ok(j@)),
        Some(Err(e)) => Some(Err(e@)),
        None => None,
    }
}

/// Finishes the call of one slot, and warns where its arguments could not be read.
pub fn settle_call(
    index: usize,
    id: String,
    name: String,
    arguments: Option<Result<Json, String>>,
) -> (r: (ParsedToolCall, Option<String>))
    ensures
        r.0@ == settled(index as nat, id@, name@, outcome_view(arguments)),
        llm_client::optional_text(r.1) == warning(name@, outcome_view(arguments)),
{
    let (value, note) = match arguments {
        Some(Ok(j)) => (j, None),
        Some(Err(e)) => {
            let mut w = "\x1b[33m[warn] tool '".to_owned();
            w.append(name.as_str());
            w.append("' arguments not valid JSON (");
            w.append(e.as_str());
            w.append("); using empty object\x1b[0m");
            (Json::Object(Vec::new()), Some(w))
        },
        None => (Json::Object(Vec::new()), None),
    };
    let id = if id.as_str().is_empty() {
        let mut s = "call_".to_owned();
        s.append(text::decimal_text(index as u128).as_str());
        s
    } else {
        id
    };
    (ParsedToolCall { id, name, arguments: value }, note)
}

impl ToolCallAcc {
    spec fn slot(self) -> Slot {
        Slot { id: self.id@, name: self.name@, arguments: self.arguments@ }
    }

    fn blank() -> (r: ToolCallAcc)
        ensures
            r.slot() == Slot::blank(),
    {
        ToolCallAcc { id: String::new(), name: String::new(), arguments: String::new() }
    }
}

impl View for StreamingToolCallAccumulator {
    type V = Seq<Slot>;

    closed spec fn view(&self) -> Seq<Slot> {
        Seq::new(self.entries@.len(), |i: int| self.entries@[i].slot())
    }
}

impl Default for StreamingToolCallAccumulator {
    fn default() -> (r: Self)
        ensures
            r@ == Seq::<Slot>::empty(),
    {
        StreamingToolCallAccumulator { entries: Vec::new() }
    }
}

impl StreamingToolCallAccumulator {
    /// An accumulator without slots.
    pub fn new() -> (r: Self)
        ensures
            r@ == Seq::<Slot>::empty(),
    {
        let r = StreamingToolCallAccumulator { entries: Vec::new() };
        assert(r@ =~= Seq::<Slot>::empty());
        r
    }

    /// Merges a fragment into its slot.
    pub fn ingest(
        &mut self,
        index: u32,
        id: Option<&str>,
        name: Option<&str>,
        args_delta: Option<&str>,
    )
        ensures
            final(self)@ == ingested(
                old(self)@,
                index as nat,
                optional(id),
                optional(name),
                optional(args_delta),
            ),
    {
        let idx = index as usize;
        let ghost before = self@;
        while self.entries.len() <= idx
            invariant
                idx == index,
                before.len() <= self@.len(),
                before.len() <= idx ==> self@.len() <= idx + 1,
                before.len() > idx ==> self@ == before,
                self@ == grown(before, self@.len()),
            decreases idx + 1 - self.entries.len(),
        {
            let ghost had = self@;
            self.entries.push(ToolCallAcc::blank());
            assert(self@.len() == had.len() + 1);
            assert(self@ =~= had.push(Slot::blank()));
            assert(self@ =~= grown(before, self@.len()));
        }
        let ghost all = self@;
        assert(all =~= grown(before, (idx + 1) as nat));
        if let Some(s) = id {
            if !s.is_empty() && self.entries[idx].id.as_str().is_empty() {
                self.entries[idx].id = s.to_owned();
            }
        }
        if let Some(s) = name {
            if !s.is_empty() && self.entries[idx].name.as_str().is_empty() {
                self.entries[idx].name = s.to_owned();
            }
        }
        if let Some(s) = args_delta {
            self.entries[idx].arguments.append(s);
        }
        let ghost want = all[idx as int].merged(optional(id), optional(name), optional(args_delta));
        assert(self@[idx as int].id =~= want.id);
        assert(self@[idx as int].name =~= want.name);
        assert(self@[idx as int].arguments =~= want.arguments);
        assert(self@ =~= all.update(idx as int, self@[idx as int]));
    }

    /// Finishes all calls, and warns about arguments that could not be read. Nothing comes out
    /// where no fragment has arrived.
    pub fn finalize_with_warnings(self) -> (r: (Option<Vec<ParsedToolCall>>, Vec<String>))
        ensures
            match r.0 {
                Some(v) => self@.len() > 0 && llm_client::parsed_views(v@) == settled_calls(self@)
                    && forall|i: int|
                    0 <= i < v@.len() ==> json::proper((#[trigger] v@[i]).arguments@),
                None => self@.len() == 0,
            },
            text::strings(r.1@) == warnings(self@),
    {
        let ghost slots = self@;
        let entries = self.entries;
        let ghost all = entries@;
        let count = entries.len();
        let mut notes: Vec<String> = Vec::new();
        if entries.is_empty() {
            assert(text::strings(notes@) =~= warnings(slots));
            return (None, notes);
        }
        let mut out: Vec<ParsedToolCall> = Vec::new();
        let mut i: usize = 0;
        assert(text::strings(notes@) =~= warnings(slots.take(0)));
        for acc in it: entries
            invariant
                it.seq() == all,
                slots.len() == all.len(),
                all.len() == count,
                forall|k: int| 0 <= k < all.len() ==> #[trigger] slots[k] == all[k].slot(),
                i == it.index(),
                out@.len() == i,
                forall|k: int| 0 <= k < i ==> (#[trigger] out@[k])@ == settled_calls(slots)[k],
                forall|k: int| 0 <= k < i ==> json::proper((#[trigger] out@[k]).arguments@),
                text::strings(notes@) == warnings(slots.take(i as int)),
        {
            assert(acc == all[i as int]);
            assert(slots[i as int] == acc.slot());
            let arguments = if acc.arguments.as_str().is_empty() {
                None
            } else {
                Some(Json::parse(acc.arguments.as_str()))
            };
            assert(outcome_view(arguments) == read_arguments(acc.arguments@));
            let (call, note) = settle_call(i, acc.id, acc.name, arguments);
            proof {
                assert(slots.take(i + 1).drop_last() =~= slots.take(i as int));
                assert(slots.take(i + 1).last() == slots[i as int]);
            }
            let ghost had = notes@;
            if let Some(w) = note {
                notes.push(w);
                assert(text::strings(notes@) =~= text::strings(had).push(w@));
            }
            out.push(call);
            i += 1;
        }
        assert(slots.take(slots.len() as int) =~= slots);
        assert(llm_client::parsed_views(out@) =~= settled_calls(slots));
        (Some(out), notes)
    }

    /// Finishes all calls. Nothing comes out where no fragment has arrived.
    pub fn finalize(self) -> (r: Option<Vec<ParsedToolCall>>)
        ensures
            match r {
                Some(v) => self@.len() > 0 && llm_client::parsed_views(v@) == settled_calls(self@)
                    && forall|i: int|
                    0 <= i < v@.len() ==> json::proper((#[trigger] v@[i]).arguments@),
                None => self@.len() == 0,
            },
    {
        self.finalize_with_warnings().0
    }
}

// ---------------------------------------------------------------------------
// Laws
// ---------------------------------------------------------------------------

/// A fragment leaves every other slot as it was, and the slots that it opens on the way are
/// blank.
pub proof fn law_slots_are_separate(
    slots: Seq<Slot>,
    index: nat,
    id: Option<Seq<char>>,
    name: Option<Seq<char>>,
    args_delta: Option<Seq<char>>,
)
    ensures
        ({
            let after = ingested(slots, index, id, name, args_delta);
            &&& after.len() == if slots.len() > index {
                slots.len()
            } else {
                index + 1
            }
            &&& forall|j: int|
                0 <= j < slots.len() && j != index ==> #[trigger] after[j] == slots[j]
            &&& forall|j: int| slots.len() <= j < index ==> #[trigger] after[j] == Slot::blank()
        }),
{
}

/// Fragments of different slots may arrive in either order.
pub proof fn law_fragments_commute(
    slots: Seq<Slot>,
    i: nat,
    id1: Option<Seq<char>>,
    name1: Option<Seq<char>>,
    args1: Option<Seq<char>>,
    j: nat,
    id2: Option<Seq<char>>,
    name2: Option<Seq<char>>,
    args2: Option<Seq<char>>,
)
    requires
        i != j,
    ensures
        ingested(ingested(slots, i, id1, name1, args1), j, id2, name2, args2) == ingested(
            ingested(slots, j, id2, name2, args2),
            i,
            id1,
            name1,
            args1,
        ),
{
    let a = ingested(ingested(slots, i, id1, name1, args1), j, id2, name2, args2);
    let b = ingested(ingested(slots, j, id2, name2, args2), i, id1, name1, args1);
    assert(a =~= b);
}

/// Cutting the arguments of a call into two fragments makes no difference.
pub proof fn law_fragments_concatenate(
    slots: Seq<Slot>,
    index: nat,
    id: Option<Seq<char>>,
    name: Option<Seq<char>>,
    a: Seq<char>,
    b: Seq<char>,
)
    ensures
        ingested(ingested(slots, index, id, name, Some(a)), index, None, None, Some(b))
            == ingested(slots, index, id, name, Some(a + b)),
{
    let two = ingested(ingested(slots, index, id, name, Some(a)), index, None, None, Some(b));
    let one = ingested(slots, index, id, name, Some(a + b));
    assert(two[index as int].arguments =~= one[index as int].arguments);
    assert(two =~= one);
}

/// The first id and the first name that are not empty stay, whatever fragments follow.
pub proof fn law_first_id_and_name_stay(
    slot: Slot,
    id: Option<Seq<char>>,
    name: Option<Seq<char>>,
    args_delta: Option<Seq<char>>,
)
    ensures
        slot.id.len() > 0 ==> slot.merged(id, name, args_delta).id == slot.id,
        slot.name.len() > 0 ==> slot.merged(id, name, args_delta).name == slot.name,
{
}

/// Every slot gives one call, in the order of the slots, and every call has an id that is not
/// empty for its result to refer to.
pub proof fn law_every_call_has_an_id(slots: Seq<Slot>)
    ensures
        settled_calls(slots).len() == slots.len(),
        forall|i: int|
            0 <= i < slots.len() ==> (#[trigger] settled_calls(slots)[i]).id.len() > 0
                && settled_calls(slots)[i].name == slots[i].name,
{
    reveal_strlit("call_");
}

/// A fragment that brings nothing for a slot that is there changes nothing.
pub proof fn law_empty_fragments_change_nothing(slots: Seq<Slot>, index: nat)
    requires
        index < slots.len(),
    ensures
        ingested(slots, index, None, None, None) == slots,
{
    assert(ingested(slots, index, None, None, None) =~= slots);
}

/// The ids that are made up for different slots are different.
pub proof fn law_made_up_ids_differ(slots: Seq<Slot>, i: int, j: int)
    requires
        0 <= i < slots.len(),
        0 <= j < slots.len(),
        i != j,
        slots[i].id.len() == 0,
        slots[j].id.len() == 0,
    ensures
        settled_calls(slots)[i].id != settled_calls(slots)[j].id,
{
    let a = text::decimal(i as nat);
    let b = text::decimal(j as nat);
    llm_client::law_numbers_read_back(i as nat);
    llm_client::law_numbers_read_back(j as nat);
    let front = "call_"@;
    if front + a == front + b {
        assert((front + a).skip(front.len() as int) =~= a);
        assert((front + b).skip(front.len() as int) =~= b);
    }
}

/// A fragment is merged into its slot: its arguments are put behind those that are there, and its
/// id and its name are taken where there was none yet. A slot that was not there counts as one of
/// which nothing has arrived.
pub proof fn law_fragment_goes_into_its_slot(
    slots: Seq<Slot>,
    index: nat,
    id: Option<Seq<char>>,
    name: Option<Seq<char>>,
    args_delta: Option<Seq<char>>,
)
    ensures
        ({
            let none = Seq::<char>::empty();
            let known = index < slots.len();
            let had_id = if known {
                slots[index as int].id
            } else {
                none
            };
            let had_name = if known {
                slots[index as int].name
            } else {
                none
            };
            let had_arguments = if known {
                slots[index as int].arguments
            } else {
                none
            };
            let now = ingested(slots, index, id, name, args_delta)[index as int];
            &&& args_delta is Some ==> now.arguments == had_arguments + args_delta->Some_0
            &&& args_delta is None ==> now.arguments == had_arguments
            &&& had_id.len() == 0 && id is Some ==> now.id == id->Some_0
            &&& had_id.len() > 0 || id is None ==> now.id == had_id
            &&& had_name.len() == 0 && name is Some ==> now.name == name->Some_0
            &&& had_name.len() > 0 || name is None ==> now.name == had_name
        }),
{
}

/// A finished call has the name that arrived, the id that arrived or one that is made up from its
/// place, and the arguments as JSON. Arguments that did not arrive, or that are no JSON, are an
/// object without entries.
pub proof fn law_finished_call_is_what_arrived(slots: Seq<Slot>, i: int)
    requires
        0 <= i < slots.len(),
    ensures
        ({
            let call = settled_calls(slots)[i];
            let slot = slots[i];
            &&& call.name == slot.name
            &&& slot.id.len() > 0 ==> call.id == slot.id
            &&& slot.id.len() == 0 ==> call.id == "call_"@ + text::decimal(i as nat)
            &&& slot.arguments.len() > 0 && json::parsed(slot.arguments) is Ok ==> call.arguments
                == json::parsed(slot.arguments)->Ok_0
            &&& slot.arguments.len() == 0 || json::parsed(slot.arguments) is Err ==> call.arguments
                == JsonView::Object(Seq::empty())
        }),
{
}

/// Whether arguments have arrived for a slot that are no JSON.
pub open spec fn is_unreadable(slot: Slot) -> bool {
    slot.arguments.len() > 0 && json::parsed(slot.arguments) is Err
}

/// There is one warning for each call with arguments that are no JSON, in the order of the calls,
/// and none about any other. It names the tool and tells the error.
pub proof fn law_unreadable_arguments_are_warned_about(slots: Seq<Slot>, slot: Slot)
    ensures
        warnings(Seq::<Slot>::empty()).len() == 0,
        !is_unreadable(slot) ==> warnings(slots.push(slot)) == warnings(slots),
        is_unreadable(slot) ==> {
            let w = warnings(slots.push(slot));
            &&& w.len() == warnings(slots).len() + 1
            &&& w.drop_last() == warnings(slots)
            &&& w.last() == "\x1b[33m[warn] tool '"@ + slot.name + "' arguments not valid JSON ("@
                + json::parsed(slot.arguments)->Err_0 + "); using empty object\x1b[0m"@
        },
{
    assert(slots.push(slot).drop_last() =~= slots);
    if is_unreadable(slot) {
        assert(warnings(slots.push(slot)).drop_last() =~= warnings(slots));
    }
}

} // verus!
