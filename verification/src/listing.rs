//! Listing a directory tree: the order of the entries, the lines that show them, and the walk
//! that asks for one directory after the other.
use vstd::prelude::*;
use vstd::string::*;

use crate::text;

verus! {

// ---------------------------------------------------------------------------
// Entries
// ---------------------------------------------------------------------------

/// An entry of a directory.
#[derive(Debug)]
pub struct DirEntry {
    /// The name, in the bytes that the platform encodes it in.
    pub name: Vec<u8>,
    /// Whether the entry itself is a directory.
    pub listed_dir: bool,
    /// Whether the entry leads to a directory, through links where it is one.
    pub is_dir: bool,
    /// The path beneath the directory where the walk began.
    pub label: String,
    /// The size in bytes, for what is no directory.
    pub size: u64,
    /// A number by which the entry is found again.
    pub id: u64,
}

/// What a [`DirEntry`] stands for.
pub struct EntryInfo {
    pub name: Seq<u8>,
    pub listed_dir: bool,
    pub is_dir: bool,
    pub label: Seq<char>,
    pub size: nat,
    pub id: u64,
}

impl View for DirEntry {
    type V = EntryInfo;

    open spec fn view(&self) -> EntryInfo {
        EntryInfo {
            name: self.name@,
            listed_dir: self.listed_dir,
            is_dir: self.is_dir,
            label: self.label@,
            size: self.size as nat,
            id: self.id,
        }
    }
}

/// What some entries stand for.
pub open spec fn infos(entries: Seq<DirEntry>) -> Seq<EntryInfo> {
    Seq::new(entries.len(), |i: int| entries[i]@)
}

/// What the listing of a directory stands for.
pub open spec fn listing_view(listing: Option<Vec<DirEntry>>) -> Option<Seq<EntryInfo>> {
    match listing {
        Some(v) => Some(infos(v@)),
        None => None,
    }
}

// ---------------------------------------------------------------------------
// Order
// ---------------------------------------------------------------------------

/// A byte, in lower case where it is an ASCII letter.
pub open spec fn lower(b: u8) -> u8 {
    if 65 <= b <= 90 {
        (b + 32) as u8
    } else {
        b
    }
}

/// Bytes come before others, apart from the case of ASCII letters: the first byte in which they
/// differ is smaller, or they end first.
pub open spec fn name_less(a: Seq<u8>, b: Seq<u8>) -> bool
    decreases a.len(),
{
    if b.len() == 0 {
        false
    } else if a.len() == 0 {
        true
    } else if lower(a[0]) == lower(b[0]) {
        name_less(a.drop_first(), b.drop_first())
    } else {
        lower(a[0]) < lower(b[0])
    }
}

/// An entry is listed before another: directories first, then by name.
pub open spec fn comes_first(a: EntryInfo, b: EntryInfo) -> bool {
    if a.listed_dir != b.listed_dir {
        a.listed_dir
    } else {
        name_less(a.name, b.name)
    }
}

/// The place for an entry among others that are in order: behind all that it does not precede.
pub open spec fn spot(sorted: Seq<EntryInfo>, e: EntryInfo) -> int
    decreases sorted.len(),
{
    if sorted.len() == 0 {
        0
    } else if comes_first(e, sorted.last()) {
        spot(sorted.drop_last(), e)
    } else {
        sorted.len() as int
    }
}

/// Entries in the order in which they are listed. Entries that neither precedes the other stay
/// in the order in which they came.
pub open spec fn in_order(entries: Seq<EntryInfo>) -> Seq<EntryInfo>
    decreases entries.len(),
{
    if entries.len() == 0 {
        Seq::empty()
    } else {
        let front = in_order(entries.drop_last());
        front.insert(spot(front, entries.last()), entries.last())
    }
}

proof fn lemma_spot(sorted: Seq<EntryInfo>, e: EntryInfo)
    ensures
        0 <= spot(sorted, e) <= sorted.len(),
        forall|i: int| spot(sorted, e) <= i < sorted.len() ==> comes_first(e, #[trigger] sorted[i]),
        spot(sorted, e) > 0 ==> !comes_first(e, sorted[spot(sorted, e) - 1]),
    decreases sorted.len(),
{
    if sorted.len() > 0 && comes_first(e, sorted.last()) {
        lemma_spot(sorted.drop_last(), e);
        assert forall|i: int| spot(sorted, e) <= i < sorted.len() implies comes_first(
            e,
            #[trigger] sorted[i],
        ) by {
            if i < sorted.len() - 1 {
                assert(sorted[i] == sorted.drop_last()[i]);
            }
        }
    }
}

fn lower_byte(b: u8) -> (r: u8)
    ensures
        r == lower(b),
{
    if b >= 65 && b <= 90 {
        b + 32
    } else {
        b
    }
}

fn name_before(a: &Vec<u8>, b: &Vec<u8>) -> (r: bool)
    ensures
        r == name_less(a@, b@),
{
    let mut i: usize = 0;
    assert(a@.skip(0) =~= a@);
    assert(b@.skip(0) =~= b@);
    loop
        invariant
            i <= a@.len(),
            i <= b@.len(),
            name_less(a@, b@) == name_less(a@.skip(i as int), b@.skip(i as int)),
        decreases a@.len() - i,
    {
        if i >= b.len() {
            return false;
        }
        if i >= a.len() {
            return true;
        }
        let x = lower_byte(a[i]);
        let y = lower_byte(b[i]);
        assert(a@.skip(i as int).drop_first() =~= a@.skip(i + 1));
        assert(b@.skip(i as int).drop_first() =~= b@.skip(i + 1));
        if x != y {
            return x < y;
        }
        i += 1;
    }
}

fn precedes(a: &DirEntry, b: &DirEntry) -> (r: bool)
    ensures
        r == comes_first(a@, b@),
{
    if a.listed_dir != b.listed_dir {
        a.listed_dir
    } else {
        name_before(&a.name, &b.name)
    }
}

/// Brings entries into the order in which they are listed.
pub fn sort_entries(entries: Vec<DirEntry>) -> (r: Vec<DirEntry>)
    ensures
        infos(r@) == in_order(infos(entries@)),
{
    let mut out: Vec<DirEntry> = Vec::new();
    let ghost all = infos(entries@);
    assert(all.take(0) =~= Seq::empty());
    assert(infos(out@) =~= Seq::empty());
    for e in it: entries
        invariant
            it.seq() == entries@,
            all == infos(entries@),
            out@.len() == it.index(),
            infos(out@) == in_order(all.take(it.index())),
    {
        let ghost n = it.index();
        let ghost sorted = infos(out@);
        assert(all.take(n + 1).drop_last() =~= all.take(n));
        assert(all.take(n + 1).last() == e@);
        let mut k: usize = out.len();
        assert(sorted.take(k as int) =~= sorted);
        while k > 0 && precedes(&e, &out[k - 1])
            invariant
                k <= out@.len(),
                sorted == infos(out@),
                spot(sorted, e@) == spot(sorted.take(k as int), e@),
            decreases k,
        {
            assert(sorted.take(k as int).drop_last() =~= sorted.take(k - 1));
            assert(sorted.take(k as int).last() == out@[k - 1]@);
            k -= 1;
        }
        assert(spot(sorted, e@) == k) by {
            if k > 0 {
                assert(sorted.take(k as int).last() == out@[k - 1]@);
            }
        }
        out.insert(k, e);
        assert(infos(out@) =~= sorted.insert(k as int, e@));
    }
    assert(all.take(all.len() as int) =~= all);
    out
}

/// Bringing entries into order loses none and adds none.
pub proof fn law_order_keeps_entries(entries: Seq<EntryInfo>)
    ensures
        in_order(entries).len() == entries.len(),
        in_order(entries).to_multiset() == entries.to_multiset(),
    decreases entries.len(),
{
    broadcast use vstd::seq_lib::group_to_multiset_ensures;

    if entries.len() > 0 {
        let front = entries.drop_last();
        let e = entries.last();
        law_order_keeps_entries(front);
        lemma_spot(in_order(front), e);
        assert(front.push(e) =~= entries);
        assert(entries.to_multiset() == front.to_multiset().insert(e));
        assert(in_order(entries).to_multiset() == in_order(front).to_multiset().insert(e));
    } else {
        assert(in_order(entries) =~= entries);
    }
}

/// Whether two entries stand on a level: neither precedes the other.
pub open spec fn on_a_level(a: EntryInfo, b: EntryInfo) -> bool {
    !comes_first(a, b) && !comes_first(b, a)
}

/// An order on names goes on from one name to the next.
proof fn lemma_name_less_trans(a: Seq<u8>, b: Seq<u8>, c: Seq<u8>)
    ensures
        name_less(a, b) && name_less(b, c) ==> name_less(a, c),
        name_less(a, b) ==> !name_less(b, a),
        !name_less(a, b) && !name_less(b, c) ==> !name_less(a, c),
    decreases a.len() + b.len() + c.len(),
{
    if a.len() > 0 && b.len() > 0 && c.len() > 0 {
        lemma_name_less_trans(a.drop_first(), b.drop_first(), c.drop_first());
    } else if a.len() > 0 && b.len() > 0 {
        lemma_name_less_trans(a.drop_first(), b.drop_first(), c);
    }
}

proof fn lemma_comes_first_trans(a: EntryInfo, b: EntryInfo, c: EntryInfo)
    ensures
        comes_first(a, b) && comes_first(b, c) ==> comes_first(a, c),
        comes_first(a, b) ==> !comes_first(b, a),
        !comes_first(a, b) && !comes_first(b, c) ==> !comes_first(a, c),
{
    lemma_name_less_trans(a.name, b.name, c.name);
}

/// In order means that no entry precedes one before it.
pub proof fn law_order_is_ascending(entries: Seq<EntryInfo>)
    ensures
        forall|i: int, j: int|
            0 <= i < j < in_order(entries).len() ==> !comes_first(
                #[trigger] in_order(entries)[j],
                #[trigger] in_order(entries)[i],
            ),
    decreases entries.len(),
{
    if entries.len() > 0 {
        let front = in_order(entries.drop_last());
        let e = entries.last();
        let k = spot(front, e);
        law_order_is_ascending(entries.drop_last());
        lemma_spot(front, e);
        let all = front.insert(k, e);
        assert forall|i: int, j: int| 0 <= i < j < all.len() implies !comes_first(
            #[trigger] all[j],
            #[trigger] all[i],
        ) by {
            let fi = if i < k {
                i
            } else {
                i - 1
            };
            let fj = if j < k {
                j
            } else {
                j - 1
            };
            if i != k && j != k {
                assert(all[i] == front[fi] && all[j] == front[fj]);
            } else if i == k {
                assert(all[j] == front[fj]);
                lemma_comes_first_trans(e, front[fj], e);
            } else {
                // The entry stands behind `front[i]`, which does not come after `front[k - 1]`.
                assert(all[i] == front[i]);
                lemma_comes_first_trans(e, front[k - 1], front[i]);
            }
        }
    }
}

/// Entries that stand on a level keep the order in which they came.
pub proof fn law_order_is_stable(entries: Seq<EntryInfo>, e: EntryInfo)
    ensures
        in_order(entries).filter(|x: EntryInfo| on_a_level(x, e)) == entries.filter(
            |x: EntryInfo| on_a_level(x, e),
        ),
    decreases entries.len(),
{
    let same = |x: EntryInfo| on_a_level(x, e);
    if entries.len() > 0 {
        let rest = entries.drop_last();
        let front = in_order(rest);
        let last = entries.last();
        let k = spot(front, last);
        law_order_is_stable(rest, e);
        lemma_spot(front, last);
        let all = front.insert(k, last);
        assert(all =~= front.take(k) + seq![last] + front.skip(k));
        assert(front =~= front.take(k) + front.skip(k));
        assert(entries =~= rest.push(last));
        Seq::filter_distributes_over_add(front.take(k) + seq![last], front.skip(k), same);
        Seq::filter_distributes_over_add(front.take(k), seq![last], same);
        Seq::filter_distributes_over_add(front.take(k), front.skip(k), same);
        Seq::filter_distributes_over_add(rest, seq![last], same);
        assert(rest + seq![last] =~= entries);
        if same(last) {
            let behind = front.skip(k);
            assert forall|i: int| 0 <= i < behind.len() implies !same(#[trigger] behind[i]) by {
                assert(behind[i] == front[k + i]);
                lemma_comes_first_trans(last, e, behind[i]);
            }
            behind.lemma_all_neg_filter_empty(same);
        } else {
            reveal(Seq::filter);
            assert(seq![last].drop_last() =~= Seq::empty());
            assert(seq![last].filter(same) =~= Seq::empty());
        }
        assert(all.filter(same) =~= entries.filter(same));
    } else {
        assert(in_order(entries) =~= entries);
    }
}

// ---------------------------------------------------------------------------
// Lines
// ---------------------------------------------------------------------------

/// Two spaces for each level.
pub open spec fn indent(depth: nat) -> Seq<char>
    decreases depth,
{
    if depth == 0 {
        Seq::empty()
    } else {
        indent((depth - 1) as nat) + "  "@
    }
}

/// The line of a directory.
pub open spec fn dir_line(depth: nat, e: EntryInfo) -> Seq<char> {
    indent(depth) + e.label + "/"@
}

/// The line of a file.
pub open spec fn file_line(depth: nat, e: EntryInfo) -> Seq<char> {
    indent(depth) + e.label + "  ("@ + text::decimal(e.size) + " bytes)"@
}

/// Whether an entry is hidden: its name begins with a dot.
pub open spec fn is_hidden(e: EntryInfo) -> bool {
    e.name.len() > 0 && e.name[0] == 46
}

fn spaces(depth: usize) -> (r: String)
    ensures
        r@ == indent(depth as nat),
{
    let mut out = String::new();
    let mut i: usize = 0;
    while i < depth
        invariant
            i <= depth,
            out@ == indent(i as nat),
        decreases depth - i,
    {
        out.append("  ");
        i += 1;
    }
    out
}

fn hidden(e: &DirEntry) -> (r: bool)
    ensures
        r == is_hidden(e@),
{
    e.name.len() > 0 && e.name[0] == 46
}

fn entry_line(depth: usize, e: &DirEntry) -> (r: String)
    ensures
        r@ == if e.is_dir {
            dir_line(depth as nat, e@)
        } else {
            file_line(depth as nat, e@)
        },
{
    let mut out = spaces(depth);
    out.append(e.label.as_str());
    if e.is_dir {
        out.append("/");
    } else {
        out.append("  (");
        out.append(text::decimal_text(e.size as u128).as_str());
        out.append(" bytes)");
    }
    out
}

// ---------------------------------------------------------------------------
// The tree
// ---------------------------------------------------------------------------

/// What a file system lists for each directory; nothing for one that cannot be listed.
pub type FileSystem = spec_fn(u64) -> Option<Seq<EntryInfo>>;

/// The lines of a directory and all beneath it, down to a depth.
pub open spec fn tree(fs: FileSystem, id: u64, depth: nat, max: nat) -> Seq<Seq<char>>
    decreases max + 1 - depth, 1nat, 0nat,
{
    if depth > max {
        Seq::empty()
    } else {
        match fs(id) {
            Some(entries) => rows(fs, in_order(entries), depth, max),
            None => Seq::empty(),
        }
    }
}

/// The lines of some entries and all beneath them, down to a depth. Hidden entries have none.
pub open spec fn rows(fs: FileSystem, entries: Seq<EntryInfo>, depth: nat, max: nat) -> Seq<
    Seq<char>,
>
    decreases max + 1 - depth, 0nat, entries.len(),
{
    if depth > max || entries.len() == 0 {
        Seq::empty()
    } else {
        let e = entries[0];
        let first = if is_hidden(e) {
            Seq::empty()
        } else if e.is_dir {
            seq![dir_line(depth, e)] + tree(fs, e.id, depth + 1, max)
        } else {
            seq![file_line(depth, e)]
        };
        first + rows(fs, entries.drop_first(), depth, max)
    }
}

// ---------------------------------------------------------------------------
// The walk
// ---------------------------------------------------------------------------

/// The entries of one directory that are still to be visited.
#[derive(Debug)]
struct Frame {
    entries: Vec<DirEntry>,
    next: usize,
}

/// A walk through a tree. It asks for one directory after the other.
#[derive(Debug)]
pub struct Walk {
    max_depth: usize,
    lines: Vec<String>,
    stack: Vec<Frame>,
    pending: Option<u64>,
}

/// What a [`Walk`] stands for: the lines so far, what is still to be visited on each level, and
/// the directory that is asked for.
pub struct WalkView {
    pub max_depth: nat,
    pub lines: Seq<Seq<char>>,
    pub stack: Seq<Seq<EntryInfo>>,
    pub pending: Option<u64>,
}

/// A measure for what is still to be visited.
pub open spec fn weight(stack: Seq<Seq<EntryInfo>>) -> nat
    decreases stack.len(),
{
    if stack.len() == 0 {
        0
    } else {
        weight(stack.drop_last()) + stack.last().len() + 1
    }
}

/// The stack after the visit of the next entry.
pub open spec fn popped(stack: Seq<Seq<EntryInfo>>) -> Seq<Seq<EntryInfo>> {
    stack.drop_last().push(stack.last().drop_first())
}

impl WalkView {
    /// A walk that is about to begin at a directory.
    pub open spec fn at(id: u64, max_depth: nat) -> WalkView {
        WalkView { max_depth, lines: Seq::empty(), stack: Seq::empty(), pending: Some(id) }
    }

    /// The walk brought to the next directory that has to be asked for, or to its end. A
    /// directory beneath the depth is not asked for.
    pub open spec fn advanced(self) -> WalkView
        decreases weight(self.stack),
    {
        proof {
            lemma_weight(self.stack);
        }
        if self.stack.len() == 0 {
            WalkView { pending: None, ..self }
        } else if self.stack.last().len() == 0 {
            (WalkView { stack: self.stack.drop_last(), ..self }).advanced()
        } else {
            let e = self.stack.last()[0];
            let rest = popped(self.stack);
            let depth = (self.stack.len() - 1) as nat;
            if is_hidden(e) {
                (WalkView { stack: rest, ..self }).advanced()
            } else if !e.is_dir {
                (WalkView {
                    stack: rest,
                    lines: self.lines.push(file_line(depth, e)),
                    ..self
                }).advanced()
            } else if depth + 1 > self.max_depth {
                (WalkView {
                    stack: rest,
                    lines: self.lines.push(dir_line(depth, e)),
                    ..self
                }).advanced()
            } else {
                WalkView {
                    stack: rest,
                    lines: self.lines.push(dir_line(depth, e)),
                    pending: Some(e.id),
                    ..self
                }
            }
        }
    }

    /// The walk after the directory that was asked for has been listed, or could not be.
    pub open spec fn fed(self, listing: Option<Seq<EntryInfo>>) -> WalkView {
        match listing {
            Some(entries) => (WalkView {
                stack: self.stack.push(in_order(entries)),
                ..self
            }).advanced(),
            None => self.advanced(),
        }
    }
}

/// Visiting an entry, or leaving a level, makes the measure smaller.
pub proof fn lemma_weight(stack: Seq<Seq<EntryInfo>>)
    ensures
        stack.len() > 0 ==> weight(stack.drop_last()) < weight(stack),
        stack.len() > 0 && stack.last().len() > 0 ==> weight(popped(stack)) < weight(stack),
{
    if stack.len() > 0 && stack.last().len() > 0 {
        assert(popped(stack).drop_last() =~= stack.drop_last());
    }
}

impl Frame {
    spec fn left(self) -> Seq<EntryInfo> {
        infos(self.entries@).skip(self.next as int)
    }
}

spec fn frames(stack: Seq<Frame>) -> Seq<Seq<EntryInfo>> {
    Seq::new(stack.len(), |i: int| stack[i].left())
}

impl View for Walk {
    type V = WalkView;

    closed spec fn view(&self) -> WalkView {
        WalkView {
            max_depth: self.max_depth as nat,
            lines: text::strings(self.lines@),
            stack: frames(self.stack@),
            pending: self.pending,
        }
    }
}

impl Walk {
    #[verifier::type_invariant]
    spec fn holds(self) -> bool {
        forall|i: int|
            0 <= i < self.stack@.len() ==> (#[trigger] self.stack@[i]).next
                <= self.stack@[i].entries@.len()
    }

    /// A walk that is about to begin at a directory.
    pub fn new(id: u64, max_depth: usize) -> (r: Walk)
        ensures
            r@ == WalkView::at(id, max_depth as nat),
    {
        let r = Walk { max_depth, lines: Vec::new(), stack: Vec::new(), pending: Some(id) };
        assert(r@.lines =~= Seq::empty());
        assert(r@.stack =~= Seq::empty());
        r
    }

    /// The directory that has to be listed next; none at the end.
    pub fn pending(&self) -> (r: Option<u64>)
        ensures
            r == self@.pending,
    {
        self.pending
    }

    /// Takes in the listing of the directory that was asked for.
    pub fn feed(self, listing: Option<Vec<DirEntry>>) -> (r: Walk)
        ensures
            r@ == self@.fed(listing_view(listing)),
    {
        proof {
            use_type_invariant(&self);
        }
        let ghost start = self@;
        let ghost goal = self@.fed(listing_view(listing));
        let max_depth = self.max_depth;
        let mut lines = self.lines;
        let mut stack = self.stack;
        let ghost before = stack@;
        if let Some(v) = listing {
            let entries = sort_entries(v);
            let ghost order = infos(entries@);
            stack.push(Frame { entries, next: 0 });
            assert(frames(stack@) =~= frames(before).push(order)) by {
                assert(order.skip(0) =~= order);
            }
        }
        let ghost mut now = WalkView { stack: frames(stack@), ..start };
        loop
            invariant
                max_depth == now.max_depth,
                text::strings(lines@) == now.lines,
                frames(stack@) == now.stack,
                forall|i: int|
                    0 <= i < stack@.len() ==> (#[trigger] stack@[i]).next <= stack@[i].entries@.len(),
                now.advanced() == goal,
                goal == self@.fed(listing_view(listing)),
            decreases weight(now.stack),
        {
            proof {
                lemma_weight(now.stack);
            }
            let level = stack.len();
            if level == 0 {
                return Walk { max_depth, lines, stack, pending: None };
            }
            let top = level - 1;
            let ghost had = stack@;
            let ghost said = lines@;
            assert(now.stack.last() == stack@[top as int].left());
            if stack[top].next >= stack[top].entries.len() {
                let _ = stack.pop();
                assert(frames(stack@) =~= now.stack.drop_last());
                proof {
                    now = WalkView { stack: frames(stack@), ..now };
                }
            } else {
                let at = stack[top].next;
                let ghost e = stack@[top as int].entries@[at as int]@;
                assert(now.stack.last()[0] == e);
                let is_dir = stack[top].entries[at].is_dir;
                let id = stack[top].entries[at].id;
                let show = !hidden(&stack[top].entries[at]);
                if show {
                    lines.push(entry_line(top, &stack[top].entries[at]));
                    assert(text::strings(lines@) =~= now.lines.push(lines@[said.len() as int]@));
                }
                stack[top].next = at + 1;
                assert(stack@[top as int].left() =~= had[top as int].left().drop_first());
                assert(frames(stack@) =~= popped(now.stack));
                let ask = show && is_dir && level <= max_depth;
                proof {
                    now = WalkView {
                        stack: frames(stack@),
                        lines: text::strings(lines@),
                        pending: if ask {
                            Some(id)
                        } else {
                            now.pending
                        },
                        ..now
                    };
                }
                if ask {
                    return Walk { max_depth, lines, stack, pending: Some(id) };
                }
            }
        }
    }

    /// The lines so far, with line ends between them.
    pub fn text(&self) -> (r: String)
        ensures
            r@ == text::joined(self@.lines, "\n"@),
    {
        text::join(self.lines.as_slice(), "\n")
    }
}

// ---------------------------------------------------------------------------
// Laws of the walk
// ---------------------------------------------------------------------------

/// The number of directories that are listed for a directory and all beneath it.
pub open spec fn reads_of(fs: FileSystem, id: u64, depth: nat, max: nat) -> nat
    decreases max + 1 - depth, 1nat, 0nat,
{
    if depth > max {
        0
    } else {
        1 + match fs(id) {
            Some(entries) => row_reads(fs, in_order(entries), depth, max),
            None => 0,
        }
    }
}

/// The number of directories that are listed for some entries and all beneath them.
pub open spec fn row_reads(fs: FileSystem, entries: Seq<EntryInfo>, depth: nat, max: nat) -> nat
    decreases max + 1 - depth, 0nat, entries.len(),
{
    if depth > max || entries.len() == 0 {
        0
    } else {
        let e = entries[0];
        (if !is_hidden(e) && e.is_dir {
            reads_of(fs, e.id, depth + 1, max)
        } else {
            0
        }) + row_reads(fs, entries.drop_first(), depth, max)
    }
}

/// The lines of all that is still to be visited on the levels of a walk.
pub open spec fn lines_left(fs: FileSystem, stack: Seq<Seq<EntryInfo>>, max: nat) -> Seq<Seq<char>>
    decreases stack.len(),
{
    if stack.len() == 0 {
        Seq::empty()
    } else {
        rows(fs, stack.last(), (stack.len() - 1) as nat, max) + lines_left(
            fs,
            stack.drop_last(),
            max,
        )
    }
}

/// The number of directories that are still to be listed on the levels of a walk.
pub open spec fn reads_left(fs: FileSystem, stack: Seq<Seq<EntryInfo>>, max: nat) -> nat
    decreases stack.len(),
{
    if stack.len() == 0 {
        0
    } else {
        row_reads(fs, stack.last(), (stack.len() - 1) as nat, max) + reads_left(
            fs,
            stack.drop_last(),
            max,
        )
    }
}

impl WalkView {
    /// What holds of every walk: it is nowhere beneath its depth, and it has not ended while
    /// something is still to be visited.
    pub open spec fn is_sound(self) -> bool {
        &&& self.stack.len() <= self.max_depth + 1
        &&& self.pending is Some ==> self.stack.len() <= self.max_depth
        &&& self.pending is None ==> self.stack.len() == 0
    }

    /// The lines that the walk ends with.
    pub open spec fn outcome(self, fs: FileSystem) -> Seq<Seq<char>> {
        self.lines + (match self.pending {
            Some(id) => tree(fs, id, self.stack.len(), self.max_depth),
            None => Seq::empty(),
        }) + lines_left(fs, self.stack, self.max_depth)
    }

    /// The number of directories that the walk still asks for.
    pub open spec fn reads(self, fs: FileSystem) -> nat {
        (match self.pending {
            Some(id) => reads_of(fs, id, self.stack.len(), self.max_depth),
            None => 0,
        }) + reads_left(fs, self.stack, self.max_depth)
    }
}

/// Going on to the next directory changes nothing of what a walk ends with.
proof fn lemma_advanced(w: WalkView, fs: FileSystem)
    requires
        w.stack.len() <= w.max_depth + 1,
    ensures
        w.advanced().is_sound(),
        w.advanced().max_depth == w.max_depth,
        w.advanced().outcome(fs) == w.lines + lines_left(fs, w.stack, w.max_depth),
        w.advanced().reads(fs) == reads_left(fs, w.stack, w.max_depth),
    decreases weight(w.stack),
{
    let max = w.max_depth;
    lemma_weight(w.stack);
    if w.stack.len() == 0 {
        assert(w.advanced().outcome(fs) =~= w.lines + lines_left(fs, w.stack, max));
    } else {
        let top = w.stack.last();
        let depth = (w.stack.len() - 1) as nat;
        let below = w.stack.drop_last();
        if top.len() == 0 {
            let next = WalkView { stack: below, ..w };
            lemma_advanced(next, fs);
            assert(lines_left(fs, w.stack, max) =~= lines_left(fs, below, max));
        } else {
            let e = top[0];
            let rest = popped(w.stack);
            assert(rest.last() == top.drop_first());
            assert(rest.drop_last() =~= below);
            let later = rows(fs, top.drop_first(), depth, max) + lines_left(fs, below, max);
            assert(lines_left(fs, rest, max) == later);
            assert(reads_left(fs, rest, max) == row_reads(fs, top.drop_first(), depth, max)
                + reads_left(fs, below, max));
            if is_hidden(e) {
                lemma_advanced(WalkView { stack: rest, ..w }, fs);
                assert(lines_left(fs, w.stack, max) =~= later);
            } else if !e.is_dir {
                let line = file_line(depth, e);
                let next = WalkView { stack: rest, lines: w.lines.push(line), ..w };
                lemma_advanced(next, fs);
                assert(lines_left(fs, w.stack, max) =~= seq![line] + later);
                assert(next.lines + later =~= w.lines + (seq![line] + later));
            } else if depth + 1 > max {
                let line = dir_line(depth, e);
                let next = WalkView { stack: rest, lines: w.lines.push(line), ..w };
                lemma_advanced(next, fs);
                assert(tree(fs, e.id, depth + 1, max) =~= Seq::empty());
                assert(reads_of(fs, e.id, depth + 1, max) == 0);
                assert(lines_left(fs, w.stack, max) =~= seq![line] + later);
                assert(next.lines + later =~= w.lines + (seq![line] + later));
            } else {
                let line = dir_line(depth, e);
                let sub = tree(fs, e.id, depth + 1, max);
                assert(lines_left(fs, w.stack, max) =~= seq![line] + sub + later);
                assert(w.advanced().outcome(fs) =~= w.lines + (seq![line] + sub + later));
            }
        }
    }
}

/// A walk begins with the whole tree before it.
pub proof fn law_walk_begins_with_tree(fs: FileSystem, id: u64, max_depth: nat)
    ensures
        WalkView::at(id, max_depth).is_sound(),
        WalkView::at(id, max_depth).outcome(fs) == tree(fs, id, 0, max_depth),
{
    assert(WalkView::at(id, max_depth).outcome(fs) =~= tree(fs, id, 0, max_depth));
}

/// As long as the file system stays as it is, no step of a walk changes what the walk ends with,
/// and every step leaves one directory less to ask for.
pub proof fn law_walk_keeps_outcome(fs: FileSystem, w: WalkView)
    requires
        w.is_sound(),
        w.pending is Some,
    ensures
        w.fed(fs(w.pending->Some_0)).is_sound(),
        w.fed(fs(w.pending->Some_0)).max_depth == w.max_depth,
        w.fed(fs(w.pending->Some_0)).outcome(fs) == w.outcome(fs),
        w.fed(fs(w.pending->Some_0)).reads(fs) + 1 == w.reads(fs),
{
    let id = w.pending->Some_0;
    let max = w.max_depth;
    match fs(id) {
        Some(entries) => {
            let order = in_order(entries);
            let next = WalkView { stack: w.stack.push(order), ..w };
            lemma_advanced(next, fs);
            assert(next.stack.drop_last() =~= w.stack);
            assert(w.lines + lines_left(fs, next.stack, max) =~= w.outcome(fs));
        },
        None => {
            lemma_advanced(w, fs);
            assert(w.lines + lines_left(fs, w.stack, max) =~= w.outcome(fs));
        },
    }
}

/// A walk that has ended has made the lines that it was to end with.
pub proof fn law_walk_ends_with_outcome(fs: FileSystem, w: WalkView)
    requires
        w.is_sound(),
        w.pending is None,
    ensures
        w.outcome(fs) == w.lines,
        w.reads(fs) == 0,
{
    assert(w.outcome(fs) =~= w.lines);
}

/// The walk after it has been answered by a file system until it ended.
pub open spec fn walked(fs: FileSystem, w: WalkView) -> WalkView
    decreases w.reads(fs),
    when w.is_sound()
    via walked_decreases
{
    match w.pending {
        Some(id) => walked(fs, w.fed(fs(id))),
        None => w,
    }
}

#[via_fn]
proof fn walked_decreases(fs: FileSystem, w: WalkView) {
    if w.pending is Some {
        law_walk_keeps_outcome(fs, w);
    }
}

/// A walk through a file system comes to an end, and its lines are those of the tree.
pub proof fn law_walk_lists_the_tree(fs: FileSystem, id: u64, max_depth: nat)
    ensures
        walked(fs, WalkView::at(id, max_depth)).pending is None,
        walked(fs, WalkView::at(id, max_depth)).lines == tree(fs, id, 0, max_depth),
{
    law_walk_begins_with_tree(fs, id, max_depth);
    lemma_walked(fs, WalkView::at(id, max_depth));
}

proof fn lemma_walked(fs: FileSystem, w: WalkView)
    requires
        w.is_sound(),
    ensures
        walked(fs, w).pending is None,
        walked(fs, w).lines == w.outcome(fs),
    decreases w.reads(fs),
{
    match w.pending {
        Some(id) => {
            law_walk_keeps_outcome(fs, w);
            lemma_walked(fs, w.fed(fs(id)));
        },
        None => {
            law_walk_ends_with_outcome(fs, w);
        },
    }
}

// ---------------------------------------------------------------------------
// Laws of the lines
// ---------------------------------------------------------------------------

/// A level is shown by two spaces.
pub proof fn law_indent_is_two_spaces_a_level(depth: nat)
    ensures
        indent(depth).len() == 2 * depth,
        forall|i: int| 0 <= i < indent(depth).len() ==> #[trigger] indent(depth)[i] == ' ',
    decreases depth,
{
    reveal_strlit("  ");
    if depth > 0 {
        let front = indent((depth - 1) as nat);
        law_indent_is_two_spaces_a_level((depth - 1) as nat);
        assert forall|i: int| 0 <= i < indent(depth).len() implies #[trigger] indent(depth)[i]
            == ' ' by {
            if i < front.len() {
                assert(indent(depth)[i] == front[i]);
            }
        }
    }
}

/// An entry with a name that begins with a dot has no line. A file has one line, with its label
/// and its size; a directory has one with its label, and beneath it the lines of what it holds,
/// one level deeper.
pub proof fn law_line_of_an_entry(fs: FileSystem, e: EntryInfo, depth: nat, max: nat)
    requires
        depth <= max,
    ensures
        ({
            let shown = rows(fs, seq![e], depth, max);
            let is_hidden = e.name.len() > 0 && e.name[0] == 46;
            &&& is_hidden ==> shown.len() == 0
            &&& !is_hidden && !e.is_dir ==> shown == seq![
                indent(depth) + e.label + "  ("@ + text::decimal(e.size) + " bytes)"@,
            ]
            &&& !is_hidden && e.is_dir ==> shown == seq![indent(depth) + e.label + "/"@] + tree(
                fs,
                e.id,
                depth + 1,
                max,
            )
        }),
{
    let none = Seq::<EntryInfo>::empty();
    let shown = rows(fs, seq![e], depth, max);
    assert(seq![e].drop_first() =~= none);
    assert(rows(fs, none, depth, max) =~= Seq::empty());
    if is_hidden(e) {
        assert(shown =~= Seq::empty());
    } else if e.is_dir {
        assert(shown =~= seq![dir_line(depth, e)] + tree(fs, e.id, depth + 1, max));
    } else {
        assert(shown =~= seq![file_line(depth, e)]);
    }
}

/// The lines of some entries are those of each, one behind the other.
pub proof fn law_lines_of_entries(
    fs: FileSystem,
    a: Seq<EntryInfo>,
    b: Seq<EntryInfo>,
    depth: nat,
    max: nat,
)
    requires
        depth <= max,
    ensures
        rows(fs, a + b, depth, max) == rows(fs, a, depth, max) + rows(fs, b, depth, max),
    decreases a.len(),
{
    if a.len() == 0 {
        assert(a + b =~= b);
        assert(rows(fs, a, depth, max) + rows(fs, b, depth, max) =~= rows(fs, b, depth, max));
    } else {
        law_lines_of_entries(fs, a.drop_first(), b, depth, max);
        assert((a + b).drop_first() =~= a.drop_first() + b);
        assert(rows(fs, a + b, depth, max) =~= rows(fs, a, depth, max) + rows(fs, b, depth, max));
    }
}

/// A tree shows all entries of its directory in their order, down to the depth that was asked for
/// and no deeper; a directory that cannot be listed shows nothing.
pub proof fn law_tree_shows_its_entries(fs: FileSystem, id: u64, depth: nat, max: nat)
    ensures
        depth > max ==> tree(fs, id, depth, max).len() == 0,
        fs(id) is None ==> tree(fs, id, depth, max).len() == 0,
        depth <= max && fs(id) is Some ==> tree(fs, id, depth, max) == rows(
            fs,
            in_order(fs(id)->Some_0),
            depth,
            max,
        ),
{
}

/// A byte as it counts in the order: capital letters count as small ones.
pub open spec fn as_small(b: u8) -> int {
    if 'A' as u8 <= b <= 'Z' as u8 {
        b - 'A' as u8 + 'a' as u8
    } else {
        b as int
    }
}

/// Directories are listed before all else. Of two directories, and of two others, the one comes
/// first whose name is smaller in the first byte in which they differ apart from case, or whose
/// name ends there.
pub proof fn law_directories_come_first(a: EntryInfo, b: EntryInfo, k: int)
    requires
        0 <= k <= a.name.len(),
        k <= b.name.len(),
        forall|i: int| 0 <= i < k ==> as_small(#[trigger] a.name[i]) == as_small(b.name[i]),
        k < a.name.len() && k < b.name.len() ==> as_small(a.name[k]) != as_small(b.name[k]),
    ensures
        a.listed_dir && !b.listed_dir ==> comes_first(a, b) && !comes_first(b, a),
        a.listed_dir == b.listed_dir && k < a.name.len() && k < b.name.len() ==> (comes_first(a, b)
            <==> as_small(a.name[k]) < as_small(b.name[k])),
        a.listed_dir == b.listed_dir && k == a.name.len() ==> (comes_first(a, b) <==> k
            < b.name.len()),
        a.listed_dir == b.listed_dir && k == b.name.len() ==> !comes_first(a, b),
{
    lemma_name_less_at(a.name, b.name, k);
}

proof fn lemma_name_less_at(a: Seq<u8>, b: Seq<u8>, k: int)
    requires
        0 <= k <= a.len(),
        k <= b.len(),
        forall|i: int| 0 <= i < k ==> as_small(#[trigger] a[i]) == as_small(b[i]),
        k < a.len() && k < b.len() ==> as_small(a[k]) != as_small(b[k]),
    ensures
        k < a.len() && k < b.len() ==> (name_less(a, b) <==> as_small(a[k]) < as_small(b[k])),
        k == a.len() ==> (name_less(a, b) <==> k < b.len()),
        k == b.len() ==> !name_less(a, b),
    decreases k,
{
    if k > 0 {
        let x = a.drop_first();
        let y = b.drop_first();
        assert(as_small(a[0]) == as_small(b[0]));
        assert forall|i: int| 0 <= i < k - 1 implies as_small(#[trigger] x[i]) == as_small(y[i]) by {
            assert(x[i] == a[i + 1]);
        }
        lemma_name_less_at(x, y, k - 1);
    }
}

} // verus!
