//! The list by which the model keeps track of a task in several steps.
use vstd::prelude::*;
use vstd::string::*;

use crate::json;
use crate::json::{Json, JsonView};
use crate::schema;
use crate::text;
use crate::text::same_text;

verus! {

// ---------------------------------------------------------------------------
// Items
// ---------------------------------------------------------------------------

/// An item of the list, or one that is proposed for it.
#[derive(Debug)]
pub struct TodoItem {
    pub content: String,
    pub status: String,
}

/// What a [`TodoItem`] stands for.
pub struct TodoView {
    pub content: Seq<char>,
    pub status: Seq<char>,
}

impl View for TodoItem {
    type V = TodoView;

    open spec fn view(&self) -> TodoView {
        TodoView { content: self.content@, status: self.status@ }
    }
}

/// What some items stand for.
pub open spec fn item_views(items: Seq<TodoItem>) -> Seq<TodoView> {
    Seq::new(items.len(), |i: int| items[i]@)
}

/// Whether a status is one of the three that there are.
pub open spec fn is_status(s: Seq<char>) -> bool {
    s == "pending"@ || s == "in_progress"@ || s == "completed"@
}

/// The number of items with a status.
pub open spec fn count_status(items: Seq<TodoView>, status: Seq<char>) -> nat
    decreases items.len(),
{
    if items.len() == 0 {
        0
    } else {
        count_status(items.drop_last(), status) + if items.last().status == status {
            1nat
        } else {
            0nat
        }
    }
}

/// What holds of every list: it has at most twenty items, at most one of them is in progress,
/// and every item has a content and a status.
pub open spec fn is_valid(items: Seq<TodoView>) -> bool {
    &&& items.len() <= 20
    &&& count_status(items, "in_progress"@) <= 1
    &&& forall|i: int|
        0 <= i < items.len() ==> (#[trigger] items[i]).content.len() > 0 && is_status(
            items[i].status,
        )
}

/// What is wrong with a proposed item at a place.
pub open spec fn fault(i: nat, item: TodoView) -> Option<Seq<char>> {
    if item.content.len() == 0 {
        Some("Item "@ + text::decimal(i) + ": content required"@)
    } else if !is_status(item.status) {
        Some("Item "@ + text::decimal(i) + ": invalid status '"@ + item.status + "'"@)
    } else {
        None
    }
}

/// What is wrong with the first faulty item from a place on.
pub open spec fn first_fault(items: Seq<TodoView>, from: nat) -> Option<Seq<char>>
    decreases items.len() - from,
{
    if from >= items.len() {
        None
    } else if fault(from, items[from as int]) is Some {
        fault(from, items[from as int])
    } else {
        first_fault(items, from + 1)
    }
}

/// Why a proposed list is turned down; nothing where it is taken. A faulty item counts first,
/// then the length of the list, then the number of items in progress.
pub open spec fn rejection(items: Seq<TodoView>) -> Option<Seq<char>> {
    if first_fault(items, 0) is Some {
        first_fault(items, 0)
    } else if items.len() > 20 {
        Some("Max 20 todos"@)
    } else if count_status(items, "in_progress"@) > 1 {
        Some("Only one in_progress item allowed at a time"@)
    } else {
        None
    }
}

/// The sign for a status.
pub open spec fn marker(status: Seq<char>) -> Seq<char> {
    if status == "completed"@ {
        "[x]"@
    } else if status == "in_progress"@ {
        "[>]"@
    } else if status == "pending"@ {
        "[ ]"@
    } else {
        "[?]"@
    }
}

/// The lines that show some items.
pub open spec fn item_lines(items: Seq<TodoView>) -> Seq<Seq<char>> {
    Seq::new(items.len(), |i: int| marker(items[i].status) + " "@ + items[i].content)
}

/// The line that sums a list up.
pub open spec fn summary_line(items: Seq<TodoView>) -> Seq<char> {
    "\n("@ + text::decimal(count_status(items, "completed"@)) + "/"@ + text::decimal(items.len())
        + " completed)"@
}

/// A list as it is shown.
pub open spec fn rendered(items: Seq<TodoView>) -> Seq<char> {
    if items.len() == 0 {
        "No todos."@
    } else {
        text::joined(item_lines(items).push(summary_line(items)), "\n"@)
    }
}

/// The item that a JSON value proposes: its trimmed content, and its status in lower case, which
/// is pending where none is given.
pub open spec fn proposed(item: JsonView) -> TodoView {
    TodoView {
        content: text::trimmed(item.text_or("content"@, ""@)),
        status: text::lowercased(item.text_or("status"@, "pending"@)),
    }
}

/// The items that a JSON value proposes; nothing where it is no array.
pub open spec fn proposed_items(items: JsonView) -> Option<Seq<TodoView>> {
    match items {
        JsonView::Array(v) => Some(Seq::new(v.len(), |i: int| proposed(v[i]))),
        _ => None,
    }
}

/// Whether every status that a JSON value proposes is ASCII text.
pub open spec fn has_ascii_statuses(items: JsonView) -> bool {
    match items {
        JsonView::Array(v) => forall|i: int|
            0 <= i < v.len() ==> text::is_ascii((#[trigger] v[i]).text_or("status"@, "pending"@)),
        _ => true,
    }
}

/// The items that a JSON value proposes where every status is ASCII text.
pub open spec fn ascii_items(items: JsonView) -> Option<Seq<TodoView>> {
    match items {
        JsonView::Array(v) => Some(
            Seq::new(
                v.len(),
                |i: int|
                    TodoView {
                        content: text::trimmed(v[i].text_or("content"@, ""@)),
                        status: text::ascii_lowered(v[i].text_or("status"@, "pending"@)),
                    },
            ),
        ),
        _ => None,
    }
}

/// What comes of proposed items, and the list after it.
pub open spec fn decided(before: Seq<TodoView>, proposal: Option<Seq<TodoView>>) -> (
    Result<Seq<char>, Seq<char>>,
    Seq<TodoView>,
) {
    match proposal {
        None => (Err("items must be an array"@), before),
        Some(all) => match rejection(all) {
            Some(e) => (Err(e), before),
            None => (Ok(rendered(all)), all),
        },
    }
}

/// What comes of a proposal for a list, and the list after it.
pub open spec fn updated(before: Seq<TodoView>, items: JsonView) -> (
    Result<Seq<char>, Seq<char>>,
    Seq<TodoView>,
) {
    decided(before, proposed_items(items))
}

/// What an answer to a proposal stands for.
pub open spec fn answer_view(r: Result<String, String>) -> Result<Seq<char>, Seq<char>> {
    match r {
        Ok(s) => Ok(s@),
        Err(e) => Err(e@),
    }
}

proof fn lemma_no_fault(items: Seq<TodoView>, from: nat)
    requires
        first_fault(items, from) is None,
    ensures
        forall|i: int| from <= i < items.len() ==> fault(i as nat, #[trigger] items[i]) is None,
    decreases items.len() - from,
{
    if from < items.len() {
        lemma_no_fault(items, from + 1);
    }
}

proof fn lemma_fault_at(items: Seq<TodoView>, from: nat, k: nat)
    requires
        from <= k <= items.len(),
        forall|i: int| from <= i < k ==> fault(i as nat, #[trigger] items[i]) is None,
        k < items.len() ==> fault(k, items[k as int]) is Some,
    ensures
        first_fault(items, from) == if k < items.len() {
            fault(k, items[k as int])
        } else {
            None
        },
    decreases k - from,
{
    if from < k {
        assert(fault(from, items[from as int]) is None);
        lemma_fault_at(items, from + 1, k);
    }
}

proof fn lemma_count_bound(items: Seq<TodoView>, status: Seq<char>)
    ensures
        count_status(items, status) <= items.len(),
    decreases items.len(),
{
    if items.len() > 0 {
        lemma_count_bound(items.drop_last(), status);
    }
}

fn count_items(items: &Vec<TodoItem>, status: &str) -> (n: usize)
    ensures
        n == count_status(item_views(items@), status@),
        n <= items@.len(),
{
    let ghost views = item_views(items@);
    let mut n: usize = 0;
    let mut i: usize = 0;
    assert(views.take(0) =~= Seq::empty());
    while i < items.len()
        invariant
            i <= items@.len(),
            n <= i,
            views == item_views(items@),
            n == count_status(views.take(i as int), status@),
        decreases items.len() - i,
    {
        if same_text(items[i].status.as_str(), status) {
            n += 1;
        }
        assert(views.take(i + 1).drop_last() =~= views.take(i as int));
        i += 1;
    }
    assert(views.take(views.len() as int) =~= views);
    n
}

fn known_status(s: &str) -> (r: bool)
    ensures
        r == is_status(s@),
{
    same_text(s, "pending") || same_text(s, "in_progress") || same_text(s, "completed")
}

/// Tells why a proposed list is turned down.
pub fn check_items(items: &Vec<TodoItem>) -> (r: Option<String>)
    ensures
        match r {
            Some(e) => rejection(item_views(items@)) == Some(e@),
            None => rejection(item_views(items@)) is None && is_valid(item_views(items@)),
        },
{
    let ghost views = item_views(items@);
    let mut i: usize = 0;
    while i < items.len()
        invariant
            i <= items@.len(),
            views == item_views(items@),
            forall|k: int| 0 <= k < i ==> fault(k as nat, #[trigger] views[k]) is None,
        decreases items.len() - i,
    {
        let item = &items[i];
        if item.content.as_str().is_empty() {
            let mut e = "Item ".to_owned();
            e.append(text::decimal_text(i as u128).as_str());
            e.append(": content required");
            proof {
                lemma_fault_at(views, 0, i as nat);
            }
            return Some(e);
        }
        if !known_status(item.status.as_str()) {
            let mut e = "Item ".to_owned();
            e.append(text::decimal_text(i as u128).as_str());
            e.append(": invalid status '");
            e.append(item.status.as_str());
            e.append("'");
            proof {
                lemma_fault_at(views, 0, i as nat);
            }
            return Some(e);
        }
        i += 1;
    }
    proof {
        lemma_fault_at(views, 0, i as nat);
        lemma_no_fault(views, 0);
    }
    if items.len() > 20 {
        return Some("Max 20 todos".to_owned());
    }
    if count_items(items, "in_progress") > 1 {
        return Some("Only one in_progress item allowed at a time".to_owned());
    }
    None
}

// ---------------------------------------------------------------------------
// The list
// ---------------------------------------------------------------------------

/// The list of the model.
#[derive(Debug)]
pub struct TodoManager {
    items: Vec<TodoItem>,
}

impl View for TodoManager {
    type V = Seq<TodoView>;

    closed spec fn view(&self) -> Seq<TodoView> {
        item_views(self.items@)
    }
}

impl TodoManager {
    #[verifier::type_invariant]
    spec fn holds(self) -> bool {
        is_valid(item_views(self.items@))
    }

    /// An empty list.
    pub fn new() -> (r: Self)
        ensures
            r@ == Seq::<TodoView>::empty(),
    {
        let items: Vec<TodoItem> = Vec::new();
        assert(item_views(items@) =~= Seq::empty());
        TodoManager { items }
    }

    /// Replaces the list by a proposed one, and shows it; a list that is turned down changes
    /// nothing.
    pub fn replace(&mut self, items: Vec<TodoItem>) -> (r: Result<String, String>)
        ensures
            match r {
                Ok(s) => {
                    &&& rejection(item_views(items@)) is None
                    &&& final(self)@ == item_views(items@)
                    &&& s@ == rendered(item_views(items@))
                },
                Err(e) => {
                    &&& rejection(item_views(items@)) == Some(e@)
                    &&& final(self)@ == old(self)@
                },
            },
            is_valid(final(self)@),
    {
        proof {
            use_type_invariant(&*self);
        }
        match check_items(&items) {
            Some(e) => Err(e),
            None => {
                self.items = items;
                Ok(self.render())
            },
        }
    }

    /// Replaces the list by the one that a JSON array proposes, and shows it. What is no array,
    /// or is turned down, changes nothing.
    pub fn update(&mut self, items_value: &Json) -> (r: Result<String, String>)
        ensures
            (answer_view(r), final(self)@) == updated(old(self)@, items_value@),
            has_ascii_statuses(items_value@) ==> (answer_view(r), final(self)@) == decided(
                old(self)@,
                ascii_items(items_value@),
            ),
            is_valid(final(self)@),
    {
        proof {
            use_type_invariant(&*self);
        }
        match items_value {
            Json::Array(v) => {
                proof {
                    json::lemma_views_of(v@);
                }
                let ghost want = proposed_items(items_value@)->Some_0;
                let ghost plain = ascii_items(items_value@)->Some_0;
                let ghost ascii = has_ascii_statuses(items_value@);
                let mut items: Vec<TodoItem> = Vec::new();
                let mut i: usize = 0;
                while i < v.len()
                    invariant
                        i <= v.len(),
                        items@.len() == i,
                        items_value@ == JsonView::Array(json::views_of(v@)),
                        proposed_items(items_value@) == Some(want),
                        ascii_items(items_value@) == Some(plain),
                        ascii == has_ascii_statuses(items_value@),
                        want.len() == v@.len(),
                        plain.len() == v@.len(),
                        forall|k: int|
                            0 <= k < v@.len() ==> #[trigger] json::views_of(v@)[k] == json::view_of(
                                v@[k],
                            ),
                        json::views_of(v@).len() == v@.len(),
                        forall|k: int| 0 <= k < i ==> (#[trigger] items@[k])@ == want[k],
                        ascii ==> forall|k: int| 0 <= k < i ==> (#[trigger] items@[k])@ == plain[k],
                    decreases v.len() - i,
                {
                    let content = text::trim(v[i].text_or("content", "")).to_owned();
                    let status = text::to_lowercase(v[i].text_or("status", "pending"));
                    assert(json::views_of(v@)[i as int] == v@[i as int]@);
                    items.push(TodoItem { content, status });
                    i += 1;
                }
                assert(item_views(items@) =~= want);
                assert(ascii ==> item_views(items@) =~= plain);
                self.replace(items)
            },
            _ => Err("items must be an array".to_owned()),
        }
    }

    /// Shows the list.
    pub fn render(&self) -> (r: String)
        ensures
            r@ == rendered(self@),
    {
        if self.items.len() == 0 {
            return "No todos.".to_owned();
        }
        let ghost views = self@;
        let mut lines: Vec<String> = Vec::new();
        let mut i: usize = 0;
        while i < self.items.len()
            invariant
                i <= self.items@.len(),
                views == item_views(self.items@),
                lines@.len() == i,
                forall|k: int| 0 <= k < i ==> (#[trigger] lines@[k])@ == item_lines(views)[k],
            decreases self.items.len() - i,
        {
            let item = &self.items[i];
            let status = item.status.as_str();
            let sign = if same_text(status, "completed") {
                "[x]"
            } else if same_text(status, "in_progress") {
                "[>]"
            } else if same_text(status, "pending") {
                "[ ]"
            } else {
                "[?]"
            };
            let mut line = sign.to_owned();
            line.append(" ");
            line.append(item.content.as_str());
            lines.push(line);
            i += 1;
        }
        let done = count_items(&self.items, "completed");
        let mut last = "\n(".to_owned();
        last.append(text::decimal_text(done as u128).as_str());
        last.append("/");
        last.append(text::decimal_text(self.items.len() as u128).as_str());
        last.append(" completed)");
        lines.push(last);
        assert(text::strings(lines@) =~= item_lines(views).push(summary_line(views)));
        text::join(lines.as_slice(), "\n")
    }

    /// Whether some item is not completed.
    pub fn has_open_items(&self) -> (r: bool)
        ensures
            r == exists|i: int| 0 <= i < self@.len() && (#[trigger] self@[i]).status
                != "completed"@,
    {
        let mut i: usize = 0;
        while i < self.items.len()
            invariant
                i <= self.items@.len(),
                forall|k: int| 0 <= k < i ==> (#[trigger] self@[k]).status == "completed"@,
            decreases self.items.len() - i,
        {
            if !same_text(self.items[i].status.as_str(), "completed") {
                assert(self@[i as int].status != "completed"@);
                return true;
            }
            i += 1;
        }
        false
    }
}

// ---------------------------------------------------------------------------
// The tool
// ---------------------------------------------------------------------------

/// The items that the arguments of the tool carry; nothing stands for ones that are missing.
pub open spec fn items_argument(args: JsonView) -> JsonView {
    match args.field("items"@) {
        Some(j) => j,
        None => JsonView::Null,
    }
}

/// What the tool answers to what came of a proposal.
pub open spec fn reported(r: Result<Seq<char>, Seq<char>>) -> Seq<char> {
    match r {
        Ok(s) => s,
        Err(e) => "Error: "@ + e,
    }
}

/// What the tool answers, and the list after it.
pub open spec fn written(before: Seq<TodoView>, args: JsonView) -> (Seq<char>, Seq<TodoView>) {
    let (r, after) = updated(before, items_argument(args));
    (reported(r), after)
}

/// Carries out the `todo_write` tool.
pub fn handle_todo_write(manager: &mut TodoManager, args: &Json) -> (r: String)
    ensures
        (r@, final(manager)@) == written(old(manager)@, args@),
        has_ascii_statuses(items_argument(args@)) ==> ({
            let (outcome, after) = decided(old(manager)@, ascii_items(items_argument(args@)));
            r@ == reported(outcome) && final(manager)@ == after
        }),
        is_valid(final(manager)@),
{
    let nothing = Json::Null;
    let items = match args.get("items") {
        Some(j) => j,
        None => &nothing,
    };
    match manager.update(items) {
        Ok(s) => s,
        Err(e) => {
            let mut s = "Error: ".to_owned();
            s.append(e.as_str());
            s
        },
    }
}

/// The definition of the `todo_write` tool.
pub open spec fn todo_tool() -> JsonView {
    schema::function_tool(
        "todo_write"@,
        "Create or update a structured task tracking list. Send the FULL list each time (not just changes). Only one item can be in_progress at a time."@,
        schema::structure(
            seq![
                (
                    "items"@,
                    schema::list(
                        "Complete list of todo items."@,
                        schema::structure(
                            seq![
                                ("content"@, schema::property("string"@, "Task description."@)),
                                (
                                    "status"@,
                                    schema::choice(
                                        "Task status."@,
                                        seq!["pending"@, "in_progress"@, "completed"@],
                                    ),
                                ),
                            ],
                            Some(seq!["content"@, "status"@]),
                        ),
                    ),
                ),
            ],
            Some(seq!["items"@]),
        ),
    )
}

/// Gives the definition of the `todo_write` tool.
pub fn todo_tool_definition() -> (r: Json)
    ensures
        r@ == todo_tool(),
        json::proper(r@),
{
    let statuses = ["pending", "in_progress", "completed"];
    let of_item = ["content", "status"];
    let of_tool = ["items"];
    proof {
        reveal_strlit("content");
        reveal_strlit("status");
        assert(text::texts(statuses@) =~= seq!["pending"@, "in_progress"@, "completed"@]);
        assert(text::texts(of_item@) =~= seq!["content"@, "status"@]);
        assert(text::texts(of_tool@) =~= seq!["items"@]);
    }
    let item = schema::object_of_two(
        "content",
        schema::property_schema("string", "Task description."),
        "status",
        schema::choice_schema("Task status.", statuses.as_slice()),
    );
    let items = schema::list_schema(
        "Complete list of todo items.",
        schema::structure_schema(item, Some(of_item.as_slice())),
    );
    let properties = schema::object_of_one("items", items);
    schema::tool_schema(
        "todo_write",
        "Create or update a structured task tracking list. Send the FULL list each time (not just changes). Only one item can be in_progress at a time.",
        schema::structure_schema(properties, Some(of_tool.as_slice())),
    )
}

// ---------------------------------------------------------------------------
// Laws
// ---------------------------------------------------------------------------

/// A proposal that is turned down changes nothing, and one that is taken replaces the whole
/// list: what stood there before does not matter.
pub proof fn law_update_replaces_all_or_nothing(
    one: Seq<TodoView>,
    other: Seq<TodoView>,
    items: JsonView,
)
    ensures
        updated(one, items).0 == updated(other, items).0,
        updated(one, items).0 is Err ==> updated(one, items).1 == one,
        updated(one, items).0 is Ok ==> updated(one, items).1 == updated(other, items).1,
{
}

/// Every list that is taken is valid, and every valid list is taken.
pub proof fn law_taken_iff_valid(items: Seq<TodoView>)
    ensures
        rejection(items) is None <==> is_valid(items),
{
    if rejection(items) is None {
        lemma_no_fault(items, 0);
        assert forall|i: int| 0 <= i < items.len() implies (#[trigger] items[i]).content.len() > 0
            && is_status(items[i].status) by {
            assert(fault(i as nat, items[i]) is None);
        }
    } else if is_valid(items) {
        assert forall|i: int| 0 <= i < items.len() implies fault(i as nat, #[trigger] items[i]) is None
            by {
            assert(items[i].content.len() > 0);
        }
        lemma_fault_at(items, 0, items.len());
    }
}

/// A list has an open item exactly where it has more items than completed ones.
pub proof fn law_open_iff_not_all_completed(items: Seq<TodoView>)
    ensures
        (exists|i: int| 0 <= i < items.len() && (#[trigger] items[i]).status != "completed"@)
            <==> count_status(items, "completed"@) < items.len(),
    decreases items.len(),
{
    if items.len() > 0 {
        let front = items.drop_last();
        law_open_iff_not_all_completed(front);
        lemma_count_bound(front, "completed"@);
        if exists|i: int| 0 <= i < front.len() && (#[trigger] front[i]).status != "completed"@ {
            let i = choose|i: int|
                0 <= i < front.len() && (#[trigger] front[i]).status != "completed"@;
            assert(items[i].status != "completed"@);
        }
        if exists|i: int| 0 <= i < items.len() && (#[trigger] items[i]).status != "completed"@ {
            let i = choose|i: int|
                0 <= i < items.len() && (#[trigger] items[i]).status != "completed"@;
            if i < front.len() {
                assert(front[i].status != "completed"@);
            }
        }
        if items.last().status != "completed"@ {
            assert(items[items.len() - 1].status != "completed"@);
        }
    }
}

/// A list that is taken holds one item for each that was proposed, in their order, with the
/// content as it was given but for white space around it, and the status in lower case, which is
/// pending where none was given.
pub proof fn law_taken_items_are_the_proposed_ones(
    before: Seq<TodoView>,
    proposal: Seq<JsonView>,
    i: int,
)
    requires
        updated(before, JsonView::Array(proposal)).0 is Ok,
        0 <= i < proposal.len(),
    ensures
        ({
            let after = updated(before, JsonView::Array(proposal)).1;
            &&& after.len() == proposal.len()
            &&& after[i].content == text::trimmed(proposal[i].text_or("content"@, ""@))
            &&& after[i].status == text::lowercased(proposal[i].text_or("status"@, "pending"@))
        }),
{
}

/// What decides on items whose statuses are ASCII text decides as on the items themselves: they
/// are taken in lower case.
pub proof fn law_ascii_items_are_the_proposed_ones(
    before: Seq<TodoView>,
    proposal: Seq<JsonView>,
    i: int,
)
    requires
        decided(before, ascii_items(JsonView::Array(proposal))).0 is Ok,
        0 <= i < proposal.len(),
    ensures
        ({
            let after = decided(before, ascii_items(JsonView::Array(proposal))).1;
            &&& after.len() == proposal.len()
            &&& after[i].content == text::trimmed(proposal[i].text_or("content"@, ""@))
            &&& after[i].status == text::ascii_lowered(
                proposal[i].text_or("status"@, "pending"@),
            )
        }),
{
}

/// Two items in progress are counted as at least two, and where there are no two of them at most
/// one is counted.
proof fn lemma_one_in_progress(items: Seq<TodoView>, status: Seq<char>)
    ensures
        count_status(items, status) <= 1 <==> forall|i: int, j: int|
            0 <= i < j < items.len() ==> !((#[trigger] items[i]).status == status && (
            #[trigger] items[j]).status == status),
        count_status(items, status) == 0 <==> forall|i: int|
            0 <= i < items.len() ==> (#[trigger] items[i]).status != status,
    decreases items.len(),
{
    if items.len() > 0 {
        let front = items.drop_last();
        let n = items.len() - 1;
        lemma_one_in_progress(front, status);
        assert forall|i: int| 0 <= i < front.len() implies #[trigger] front[i] == items[i] by {}
        if count_status(items, status) == 0 {
            assert forall|i: int| 0 <= i < items.len() implies (#[trigger] items[i]).status
                != status by {
                if i < n {
                    assert(front[i].status != status);
                }
            }
        } else if count_status(front, status) > 0 {
            let i = choose|i: int| 0 <= i < front.len() && !((#[trigger] front[i]).status != status);
            assert(items[i].status == status);
            if items.last().status == status {
                assert(items[n].status == status);
            }
        } else {
            assert(items[n].status == status);
        }
        if count_status(items, status) <= 1 {
            assert forall|i: int, j: int| 0 <= i < j < items.len() implies !((
            #[trigger] items[i]).status == status && (#[trigger] items[j]).status == status) by {
                if j < n {
                    assert(!(front[i].status == status && front[j].status == status));
                } else if items[n].status == status {
                    assert(count_status(front, status) == 0);
                    assert(front[i].status != status);
                }
            }
        } else if items.last().status != status {
            assert(count_status(front, status) > 1);
            let (i, j) = choose|i: int, j: int|
                0 <= i < j < front.len() && !(!((#[trigger] front[i]).status == status && (
                #[trigger] front[j]).status == status));
            assert(items[i].status == status && items[j].status == status);
        } else {
            let i = choose|i: int| 0 <= i < front.len() && !((#[trigger] front[i]).status != status);
            assert(items[i].status == status && items[n].status == status);
        }
    }
}

/// A list is taken exactly where it has at most twenty items, each with a content and one of the
/// three statuses, and no two of them are in progress.
pub proof fn law_which_lists_are_taken(before: Seq<TodoView>, all: Seq<TodoView>)
    ensures
        decided(before, Some(all)).0 is Ok <==> {
            &&& all.len() <= 20
            &&& forall|i: int|
                0 <= i < all.len() ==> (#[trigger] all[i]).content.len() > 0 && (all[i].status
                    == "pending"@ || all[i].status == "in_progress"@ || all[i].status
                    == "completed"@)
            &&& forall|i: int, j: int|
                0 <= i < j < all.len() ==> !((#[trigger] all[i]).status == "in_progress"@ && (
                #[trigger] all[j]).status == "in_progress"@)
        },
        decided(before, Some(all)).0 is Ok ==> decided(before, Some(all)).1 == all,
        decided(before, Some(all)).0 is Err ==> decided(before, Some(all)).1 == before,
        decided(before, None).0 == Err::<Seq<char>, Seq<char>>("items must be an array"@),
        decided(before, None).1 == before,
{
    law_taken_iff_valid(all);
    lemma_one_in_progress(all, "in_progress"@);
}

/// The first item that is at fault is reported with its place: a missing content before a status
/// that there is not. Only without such an item the length counts, and only then the number of
/// items in progress.
pub proof fn law_first_fault_is_reported(before: Seq<TodoView>, all: Seq<TodoView>, k: int)
    requires
        0 <= k <= all.len(),
        forall|i: int|
            0 <= i < k ==> (#[trigger] all[i]).content.len() > 0 && (all[i].status == "pending"@
                || all[i].status == "in_progress"@ || all[i].status == "completed"@),
    ensures
        ({
            let r = decided(before, Some(all)).0;
            &&& k < all.len() && all[k].content.len() == 0 ==> r == Err::<Seq<char>, Seq<char>>(
                "Item "@ + text::decimal(k as nat) + ": content required"@,
            )
            &&& k < all.len() && all[k].content.len() > 0 && all[k].status != "pending"@
                && all[k].status != "in_progress"@ && all[k].status != "completed"@ ==> r == Err::<
                Seq<char>,
                Seq<char>,
            >(
                "Item "@ + text::decimal(k as nat) + ": invalid status '"@ + all[k].status + "'"@,
            )
            &&& k == all.len() && all.len() > 20 ==> r == Err::<Seq<char>, Seq<char>>(
                "Max 20 todos"@,
            )
            &&& k == all.len() && all.len() <= 20 && r is Err ==> r == Err::<Seq<char>, Seq<char>>(
                "Only one in_progress item allowed at a time"@,
            )
        }),
{
    assert forall|i: int| 0 <= i < k implies fault(i as nat, #[trigger] all[i]) is None by {
        assert(all[i].content.len() > 0);
    }
    if k < all.len() {
        if fault(k as nat, all[k]) is Some {
            lemma_fault_at(all, 0, k as nat);
        }
    } else {
        lemma_fault_at(all, 0, k as nat);
    }
}

/// The count of items with a status is the number of items that have it.
proof fn lemma_status_is_counted(items: Seq<TodoView>, status: Seq<char>)
    ensures
        count_status(items, status) == items.filter(|t: TodoView| t.status == status).len(),
    decreases items.len(),
{
    reveal(Seq::filter);
    if items.len() > 0 {
        lemma_status_is_counted(items.drop_last(), status);
    }
}

/// A list is shown with one line for each item, in their order, which is its sign and its content,
/// and at the end the number of completed items and of all.
pub proof fn law_list_shows_every_item(items: Seq<TodoView>, rows: Seq<Seq<char>>)
    requires
        items.len() > 0,
        rows.len() == items.len() + 1,
        forall|i: int|
            0 <= i < items.len() ==> {
                let t = #[trigger] items[i];
                &&& t.status == "completed"@ ==> rows[i] == "[x]"@ + " "@ + t.content
                &&& t.status == "in_progress"@ ==> rows[i] == "[>]"@ + " "@ + t.content
                &&& t.status == "pending"@ ==> rows[i] == "[ ]"@ + " "@ + t.content
                &&& t.status == "completed"@ || t.status == "in_progress"@ || t.status
                    == "pending"@
            },
        rows.last() == "\n("@ + text::decimal(
            items.filter(|t: TodoView| t.status == "completed"@).len(),
        ) + "/"@ + text::decimal(items.len()) + " completed)"@,
    ensures
        rendered(items) == text::joined(rows, "\n"@),
{
    reveal_strlit("completed");
    reveal_strlit("in_progress");
    reveal_strlit("pending");
    assert("completed"@.len() == 9);
    assert("in_progress"@.len() == 11);
    assert("pending"@.len() == 7);
    lemma_status_is_counted(items, "completed"@);
    let all = item_lines(items).push(summary_line(items));
    assert forall|i: int| 0 <= i < all.len() implies all[i] == rows[i] by {
        if i < items.len() {
            assert(items[i].status == "completed"@ || items[i].status == "in_progress"@
                || items[i].status == "pending"@);
        }
    }
    assert(all =~= rows);
}

/// An empty list is shown as one, and a list that is taken is shown at once.
pub proof fn law_taken_list_is_shown(before: Seq<TodoView>, all: Seq<TodoView>)
    ensures
        rendered(Seq::empty()) == "No todos."@,
        decided(before, Some(all)).0 is Ok ==> decided(before, Some(all)).0->Ok_0 == rendered(all),
{
}

/// The `todo_write` tool takes the list that stands under `items`, and answers with the list or
/// with the error.
pub proof fn law_todo_write_takes_items(before: Seq<TodoView>, args: JsonView, items: JsonView)
    ensures
        args.field("items"@) == Some(items) ==> {
            let (r, after) = updated(before, items);
            &&& written(before, args).1 == after
            &&& r is Ok ==> written(before, args).0 == r->Ok_0
            &&& r is Err ==> written(before, args).0 == "Error: "@ + r->Err_0
        },
        args.field("items"@) is None ==> written(before, args) == (
            "Error: "@ + "items must be an array"@,
            before,
        ),
        !(items is Array) ==> updated(before, items).0 is Err && updated(before, items).1 == before,
{
}

/// The `todo_write` tool must be given the items, each with a content and one of the statuses that
/// a list can have.
pub proof fn law_todo_tool_offers_all_statuses()
    ensures
        ({
            let parameters = todo_tool().field("function"@)->Some_0.field("parameters"@)->Some_0;
            let items = parameters.field("properties"@)->Some_0.field("items"@)->Some_0;
            let item = items.field("items"@)->Some_0;
            let fields = item.field("properties"@)->Some_0;
            &&& schema::tool_name(todo_tool()) == Some("todo_write"@)
            &&& parameters.field("required"@) == Some(schema::text_list(seq!["items"@]))
            &&& items.field("type"@) == Some(JsonView::Text("array"@))
            &&& item.field("required"@) == Some(schema::text_list(seq!["content"@, "status"@]))
            &&& fields.field("content"@) is Some
            &&& fields.field("status"@)->Some_0.field("enum"@) == Some(
                schema::text_list(seq!["pending"@, "in_progress"@, "completed"@]),
            )
        }),
{
    let statuses = seq!["pending"@, "in_progress"@, "completed"@];
    let fields = seq![
        ("content"@, schema::property("string"@, "Task description."@)),
        ("status"@, schema::choice("Task status."@, statuses)),
    ];
    let names = seq!["content"@, "status"@];
    let item = schema::structure(fields, Some(names));
    let list = schema::list("Complete list of todo items."@, item);
    let properties = seq![("items"@, list)];
    let parameters = schema::structure(properties, Some(seq!["items"@]));
    let about =
        "Create or update a structured task tracking list. Send the FULL list each time (not just changes). Only one item can be in_progress at a time."@;
    schema::lemma_tool_name("todo_write"@, about, parameters);
    schema::law_tool_has_its_parts("todo_write"@, about, parameters);
    schema::law_structure_has_its_parts(properties, Some(seq!["items"@]));
    schema::law_structure_has_its_parts(fields, Some(names));
    schema::law_parameters_have_their_parts("string"@, "Task status."@, statuses, item);
    schema::law_parameters_have_their_parts(
        "string"@,
        "Complete list of todo items."@,
        statuses,
        item,
    );
    reveal_strlit("content");
    reveal_strlit("status");
    assert("content"@.len() != "status"@.len());
    reveal_with_fuel(json::lookup, 3);
    assert(JsonView::Object(properties).field("items"@) == Some(list));
    assert(JsonView::Object(fields).field("status"@) == Some(fields[1].1));
}

} // verus!
