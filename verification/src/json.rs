//! JSON values as plain data, and the conversions to and from `serde_json`.
use vstd::prelude::*;
use vstd::string::*;

use crate::text;

verus! {

// ---------------------------------------------------------------------------
// Values
// ---------------------------------------------------------------------------

/// A number of `serde_json`, which may be a floating point number.
#[verifier::external_type_specification]
#[verifier::external_body]
pub struct ExNumber(serde_json::Number);

/// A value of `serde_json`.
#[verifier::external_type_specification]
#[verifier::external_body]
pub struct ExValue(serde_json::Value);

/// `Number::clone` is derived: it hands back the same number.
pub assume_specification[ <serde_json::Number as Clone>::clone ](n: &serde_json::Number) -> (r:
    serde_json::Number)
    ensures
        r == *n,
;

/// A JSON number.
#[derive(Debug, PartialEq)]
pub enum JsonNumber {
    /// An integer that is not negative.
    Unsigned(u64),
    /// A negative integer.
    Negative(i64),
    /// A number with a fraction or an exponent.
    Float(serde_json::Number),
}

/// A JSON value. An object is held as its entries, in ascending order of their keys.
#[derive(Debug, PartialEq)]
pub enum Json {
    Null,
    Bool(bool),
    Number(JsonNumber),
    Text(String),
    Array(Vec<Json>),
    Object(Vec<(String, Json)>),
}

/// What a [`Json`] stands for.
pub enum JsonView {
    Null,
    Bool(bool),
    Number(JsonNumber),
    Text(Seq<char>),
    Array(Seq<JsonView>),
    Object(Seq<(Seq<char>, JsonView)>),
}

impl View for Json {
    type V = JsonView;

    open spec fn view(&self) -> JsonView {
        view_of(*self)
    }
}

pub open spec fn view_of(j: Json) -> JsonView
    decreases j,
{
    match j {
        Json::Null => JsonView::Null,
        Json::Bool(b) => JsonView::Bool(b),
        Json::Number(n) => JsonView::Number(n),
        Json::Text(s) => JsonView::Text(s@),
        Json::Array(v) => JsonView::Array(views_of(v@)),
        Json::Object(v) => JsonView::Object(entries_of(v@)),
    }
}

/// What a list of values stands for.
pub open spec fn views_of(v: Seq<Json>) -> Seq<JsonView>
    decreases v,
{
    if v.len() == 0 {
        Seq::empty()
    } else {
        views_of(v.drop_last()).push(view_of(v.last()))
    }
}

/// What a list of entries stands for.
pub open spec fn entries_of(v: Seq<(String, Json)>) -> Seq<(Seq<char>, JsonView)>
    decreases v,
{
    if v.len() == 0 {
        Seq::empty()
    } else {
        entries_of(v.drop_last()).push((v.last().0@, view_of(v.last().1)))
    }
}

/// What stands at each place of a list of values, and of a list of entries.
pub proof fn lemma_views_of(v: Seq<Json>)
    ensures
        views_of(v).len() == v.len(),
        forall|i: int| 0 <= i < v.len() ==> #[trigger] views_of(v)[i] == view_of(v[i]),
    decreases v.len(),
{
    if v.len() > 0 {
        lemma_views_of(v.drop_last());
    }
}

pub proof fn lemma_entries_of(v: Seq<(String, Json)>)
    ensures
        entries_of(v).len() == v.len(),
        forall|i: int|
            0 <= i < v.len() ==> #[trigger] entries_of(v)[i] == (v[i].0@, view_of(v[i].1)),
    decreases v.len(),
{
    if v.len() > 0 {
        lemma_entries_of(v.drop_last());
    }
}

proof fn lemma_views_push(v: Seq<Json>, j: Json)
    ensures
        views_of(v.push(j)) == views_of(v).push(view_of(j)),
{
    assert(v.push(j).drop_last() =~= v);
}

proof fn lemma_entries_push(v: Seq<(String, Json)>, e: (String, Json))
    ensures
        entries_of(v.push(e)) == entries_of(v).push((e.0@, view_of(e.1))),
{
    assert(v.push(e).drop_last() =~= v);
}

impl Clone for Json {
    fn clone(&self) -> (r: Self)
        ensures
            r@ == self@,
        decreases self,
    {
        match self {
            Json::Null => Json::Null,
            Json::Bool(b) => Json::Bool(*b),
            Json::Number(n) => Json::Number(n.clone()),
            Json::Text(s) => Json::Text(s.clone()),
            Json::Array(v) => {
                let mut out: Vec<Json> = Vec::new();
                let mut i: usize = 0;
                assert(views_of(v@.take(0)) =~= Seq::empty());
                while i < v.len()
                    invariant
                        i <= v.len(),
                        *self == Json::Array(*v),
                        views_of(out@) == views_of(v@.take(i as int)),
                    decreases v.len() - i,
                {
                    assert(decreases_to!(v@ => v@[i as int]));
                    assert(decreases_to!(*v => v@));
                    assert(decreases_to!(*self => (*self)->Array_0));
                    let c = (&v[i]).clone();
                    proof {
                        lemma_views_push(out@, c);
                        assert(v@.take(i + 1).drop_last() =~= v@.take(i as int));
                    }
                    out.push(c);
                    i += 1;
                }
                assert(v@.take(v@.len() as int) =~= v@);
                Json::Array(out)
            },
            Json::Object(v) => {
                let mut out: Vec<(String, Json)> = Vec::new();
                let mut i: usize = 0;
                assert(entries_of(v@.take(0)) =~= Seq::empty());
                while i < v.len()
                    invariant
                        i <= v.len(),
                        *self == Json::Object(*v),
                        entries_of(out@) == entries_of(v@.take(i as int)),
                    decreases v.len() - i,
                {
                    let k = v[i].0.clone();
                    assert(decreases_to!(v@[i as int] => v@[i as int].1));
                    assert(decreases_to!(v@ => v@[i as int]));
                    assert(decreases_to!(*v => v@));
                    assert(decreases_to!(*self => (*self)->Object_0));
                    let c = (&v[i].1).clone();
                    proof {
                        lemma_entries_push(out@, (k, c));
                        assert(v@.take(i + 1).drop_last() =~= v@.take(i as int));
                    }
                    out.push((k, c));
                    i += 1;
                }
                assert(v@.take(v@.len() as int) =~= v@);
                Json::Object(out)
            },
        }
    }
}

impl Clone for JsonNumber {
    fn clone(&self) -> (r: JsonNumber)
        ensures
            r == *self,
    {
        match self {
            JsonNumber::Unsigned(u) => JsonNumber::Unsigned(*u),
            JsonNumber::Negative(i) => JsonNumber::Negative(*i),
            JsonNumber::Float(n) => JsonNumber::Float(n.clone()),
        }
    }
}

// ---------------------------------------------------------------------------
// Reading
// ---------------------------------------------------------------------------

/// The value under a key among some entries.
pub open spec fn lookup(entries: Seq<(Seq<char>, JsonView)>, key: Seq<char>) -> Option<JsonView>
    decreases entries.len(),
{
    if entries.len() == 0 {
        None
    } else if entries[0].0 == key {
        Some(entries[0].1)
    } else {
        lookup(entries.drop_first(), key)
    }
}

proof fn lemma_lookup(entries: Seq<(Seq<char>, JsonView)>, key: Seq<char>, k: int)
    requires
        0 <= k <= entries.len(),
        forall|i: int| 0 <= i < k ==> (#[trigger] entries[i]).0 != key,
        k < entries.len() ==> entries[k].0 == key,
    ensures
        lookup(entries, key) == (if k < entries.len() {
            Some(entries[k].1)
        } else {
            None
        }),
    decreases k,
{
    if k > 0 {
        let rest = entries.drop_first();
        assert(entries[0].0 != key);
        assert forall|i: int| 0 <= i < k - 1 implies (#[trigger] rest[i]).0 != key by {
            assert(rest[i] == entries[i + 1]);
        }
        lemma_lookup(rest, key, k - 1);
    }
}

impl JsonView {
    /// The value under a key; nothing where the value is no object or has no such key.
    pub open spec fn field(self, key: Seq<char>) -> Option<JsonView> {
        match self {
            JsonView::Object(entries) => lookup(entries, key),
            _ => None,
        }
    }

    /// The text under a key, or a default where no text stands there.
    pub open spec fn text_or(self, key: Seq<char>, default: Seq<char>) -> Seq<char> {
        match self.field(key) {
            Some(JsonView::Text(s)) => s,
            _ => default,
        }
    }

    /// The integer under a key, or a default where none that is not negative stands there.
    pub open spec fn integer_or(self, key: Seq<char>, default: u64) -> u64 {
        match self.field(key) {
            Some(JsonView::Number(JsonNumber::Unsigned(u))) => u,
            _ => default,
        }
    }
}

impl Json {
    /// The value under a key; nothing where the value is no object or has no such key.
    pub fn get(&self, key: &str) -> (r: Option<&Json>)
        ensures
            match r {
                Some(j) => self@.field(key@) == Some(j@),
                None => self@.field(key@) is None,
            },
    {
        match self {
            Json::Object(v) => {
                proof {
                    lemma_entries_of(v@);
                }
                let mut i: usize = 0;
                while i < v.len()
                    invariant
                        i <= v.len(),
                        self@ == JsonView::Object(entries_of(v@)),
                        entries_of(v@).len() == v@.len(),
                        forall|k: int|
                            0 <= k < v@.len() ==> #[trigger] entries_of(v@)[k] == (
                                v@[k].0@,
                                view_of(v@[k].1),
                            ),
                        forall|k: int| 0 <= k < i ==> (#[trigger] entries_of(v@)[k]).0 != key@,
                    decreases v.len() - i,
                {
                    if text::same_text(v[i].0.as_str(), key) {
                        proof {
                            lemma_lookup(entries_of(v@), key@, i as int);
                        }
                        return Some(&v[i].1);
                    }
                    i += 1;
                }
                proof {
                    lemma_lookup(entries_of(v@), key@, i as int);
                }
                None
            },
            _ => None,
        }
    }

    /// The text under a key, or a default where no text stands there.
    pub fn text_or<'a>(&'a self, key: &str, default: &'a str) -> (r: &'a str)
        ensures
            r@ == self@.text_or(key@, default@),
    {
        match self.get(key) {
            Some(Json::Text(s)) => s.as_str(),
            _ => default,
        }
    }

    /// The integer under a key, or a default where none that is not negative stands there.
    pub fn integer_or(&self, key: &str, default: u64) -> (r: u64)
        ensures
            r == self@.integer_or(key@, default),
    {
        match self.get(key) {
            Some(Json::Number(JsonNumber::Unsigned(u))) => *u,
            _ => default,
        }
    }
}

// ---------------------------------------------------------------------------
// Writing
// ---------------------------------------------------------------------------

/// A hexadecimal digit.
pub open spec fn hex_digit(d: int) -> char {
    if d < 10 {
        (48 + d) as char
    } else {
        (87 + d) as char
    }
}

/// A character inside a JSON string.
pub open spec fn escaped_char(c: char) -> Seq<char> {
    let u = c as u32;
    if c == '"' {
        seq!['\\', '"']
    } else if c == '\\' {
        seq!['\\', '\\']
    } else if u >= 0x20 {
        seq![c]
    } else if u == 0x08 {
        seq!['\\', 'b']
    } else if u == 0x09 {
        seq!['\\', 't']
    } else if u == 0x0a {
        seq!['\\', 'n']
    } else if u == 0x0c {
        seq!['\\', 'f']
    } else if u == 0x0d {
        seq!['\\', 'r']
    } else {
        seq!['\\', 'u', '0', '0', hex_digit(u as int / 16), hex_digit(u as int % 16)]
    }
}

/// The characters of a text inside a JSON string.
pub open spec fn escaped(s: Seq<char>) -> Seq<char>
    decreases s.len(),
{
    if s.len() == 0 {
        Seq::empty()
    } else {
        escaped(s.drop_last()) + escaped_char(s.last())
    }
}

/// A text as a JSON string.
pub open spec fn quoted(s: Seq<char>) -> Seq<char> {
    seq!['"'] + escaped(s) + seq!['"']
}

/// The text that `serde_json` writes for a number with a fraction or an exponent.
pub uninterp spec fn float_text(n: serde_json::Number) -> Seq<char>;

/// A number as JSON text.
pub open spec fn number_text(n: JsonNumber) -> Seq<char> {
    match n {
        JsonNumber::Unsigned(u) => text::decimal(u as nat),
        JsonNumber::Negative(i) => if i < 0 {
            seq!['-'] + text::decimal((-i) as nat)
        } else {
            text::decimal(i as nat)
        },
        JsonNumber::Float(f) => float_text(f),
    }
}

/// A value as compact JSON text.
pub open spec fn json_text(j: JsonView) -> Seq<char>
    decreases j,
{
    match j {
        JsonView::Null => "null"@,
        JsonView::Bool(b) => if b {
            "true"@
        } else {
            "false"@
        },
        JsonView::Number(n) => number_text(n),
        JsonView::Text(s) => quoted(s),
        JsonView::Array(items) => "["@ + items_text(items) + "]"@,
        JsonView::Object(entries) => "{"@ + entries_text(entries) + "}"@,
    }
}

/// The values of an array as JSON text, with commas between them.
pub open spec fn items_text(items: Seq<JsonView>) -> Seq<char>
    decreases items,
{
    if items.len() == 0 {
        Seq::empty()
    } else if items.len() == 1 {
        json_text(items[0])
    } else {
        items_text(items.drop_last()) + ","@ + json_text(items.last())
    }
}

/// The entries of an object as JSON text, with commas between them.
pub open spec fn entries_text(entries: Seq<(Seq<char>, JsonView)>) -> Seq<char>
    decreases entries,
{
    if entries.len() == 0 {
        Seq::empty()
    } else if entries.len() == 1 {
        quoted(entries[0].0) + ":"@ + json_text(entries[0].1)
    } else {
        entries_text(entries.drop_last()) + ","@ + quoted(entries.last().0) + ":"@ + json_text(
            entries.last().1,
        )
    }
}

// ---------------------------------------------------------------------------
// Conversions
// ---------------------------------------------------------------------------

/// A text comes before another: the first character in which they differ is smaller, or the
/// text ends first.
pub open spec fn key_less(a: Seq<char>, b: Seq<char>) -> bool
    decreases a.len(),
{
    if b.len() == 0 {
        false
    } else if a.len() == 0 {
        true
    } else if a[0] == b[0] {
        key_less(a.drop_first(), b.drop_first())
    } else {
        (a[0] as u32) < (b[0] as u32)
    }
}

/// The keys of some entries ascend.
pub open spec fn keys_ascend(entries: Seq<(Seq<char>, JsonView)>) -> bool {
    forall|i: int, j: int|
        0 <= i < j < entries.len() ==> key_less((#[trigger] entries[i]).0, (#[trigger] entries[j]).0)
}

/// A number of `serde_json` is a floating point number, as `Number::is_f64` tells.
pub uninterp spec fn is_float(n: serde_json::Number) -> bool;

impl JsonNumber {
    /// A number is filed under what it is.
    pub open spec fn proper(self) -> bool {
        match self {
            JsonNumber::Unsigned(_) => true,
            JsonNumber::Negative(i) => i < 0,
            JsonNumber::Float(n) => is_float(n),
        }
    }
}

/// Numbers are filed under what they are and the keys ascend, all through a value.
pub open spec fn proper(j: JsonView) -> bool
    decreases j,
{
    match j {
        JsonView::Number(n) => n.proper(),
        JsonView::Array(items) => proper_items(items),
        JsonView::Object(entries) => keys_ascend(entries) && proper_entries(entries),
        _ => true,
    }
}

/// All of some values are proper.
pub open spec fn proper_items(items: Seq<JsonView>) -> bool
    decreases items,
{
    items.len() == 0 || (proper_items(items.drop_last()) && proper(items.last()))
}

/// The values of all of some entries are proper.
pub open spec fn proper_entries(entries: Seq<(Seq<char>, JsonView)>) -> bool
    decreases entries,
{
    entries.len() == 0 || (proper_entries(entries.drop_last()) && proper(entries.last().1))
}

/// What a value of `serde_json` holds. The entries of an object stand in the order of the
/// map that holds them.
pub uninterp spec fn contents(v: serde_json::Value) -> JsonView;

/// The outermost layer of a value of `serde_json`.
pub enum Layer {
    Null,
    Bool(bool),
    Number(JsonNumber),
    Text(String),
    Array(Vec<serde_json::Value>),
    Object(Vec<(String, serde_json::Value)>),
}

/// What some values of `serde_json` hold.
pub open spec fn all_contents(v: Seq<serde_json::Value>) -> Seq<JsonView> {
    Seq::new(v.len(), |i: int| contents(v[i]))
}

/// What some entries of a map of `serde_json` hold.
pub open spec fn entry_contents(v: Seq<(String, serde_json::Value)>) -> Seq<
    (Seq<char>, JsonView),
> {
    Seq::new(v.len(), |i: int| (v[i].0@, contents(v[i].1)))
}

impl Layer {
    /// What the value of `serde_json` with this outermost layer holds.
    pub open spec fn contents(self) -> JsonView {
        match self {
            Layer::Null => JsonView::Null,
            Layer::Bool(b) => JsonView::Bool(b),
            Layer::Number(n) => JsonView::Number(n),
            Layer::Text(s) => JsonView::Text(s@),
            Layer::Array(v) => JsonView::Array(all_contents(v@)),
            Layer::Object(v) => JsonView::Object(entry_contents(v@)),
        }
    }

    /// A number in it is filed under what it is, and the keys in it ascend.
    pub open spec fn proper(self) -> bool {
        match self {
            Layer::Number(n) => n.proper(),
            Layer::Object(v) => keys_ascend(entry_contents(v@)),
            _ => true,
        }
    }
}

/// Takes the outermost layer off a `serde_json::Value`, one arm for each of its variants. A
/// `Number` is told apart by `as_u64` and `as_i64`. `Map`, a B-tree map from strings, hands
/// out its entries in ascending order of their keys.
#[verifier::external_body]
fn open_value(v: serde_json::Value) -> (r: Layer)
    ensures
        r.contents() == contents(v),
        r matches Layer::Number(JsonNumber::Negative(i)) ==> i < 0,
        r matches Layer::Number(JsonNumber::Float(n)) ==> is_float(n),
        r matches Layer::Object(entries) ==> keys_ascend(entry_contents(entries@)),
{
    match v {
        serde_json::Value::Null => Layer::Null,
        serde_json::Value::Bool(b) => Layer::Bool(b),
        serde_json::Value::Number(n) => Layer::Number(match (n.as_u64(), n.as_i64()) {
            (Some(u), _) => JsonNumber::Unsigned(u),
            (None, Some(i)) => JsonNumber::Negative(i),
            (None, None) => JsonNumber::Float(n),
        }),
        serde_json::Value::String(s) => Layer::Text(s),
        serde_json::Value::Array(a) => Layer::Array(a),
        serde_json::Value::Object(m) => Layer::Object(m.into_iter().collect()),
    }
}

/// Builds a `serde_json::Value` from its outermost layer, one arm for each of its variants.
/// A `Map` that is built from entries with ascending keys holds those entries in that order.
/// Nothing is said of other entries, nor of a number that is not filed under what it is.
#[verifier::external_body]
fn close_layer(l: Layer) -> (r: serde_json::Value)
    ensures
        l.proper() ==> contents(r) == l.contents(),
{
    match l {
        Layer::Null => serde_json::Value::Null,
        Layer::Bool(b) => serde_json::Value::Bool(b),
        Layer::Number(JsonNumber::Unsigned(u)) => serde_json::Value::Number(u.into()),
        Layer::Number(JsonNumber::Negative(i)) => serde_json::Value::Number(i.into()),
        Layer::Number(JsonNumber::Float(n)) => serde_json::Value::Number(n),
        Layer::Text(s) => serde_json::Value::String(s),
        Layer::Array(a) => serde_json::Value::Array(a),
        Layer::Object(e) => serde_json::Value::Object(e.into_iter().collect()),
    }
}

/// Calls `serde_json::to_string` on a value. Writing to memory does not fail, and the text is
/// compact JSON; of a floating point number nothing is said but that its text is a function
/// of it.
#[verifier::external_body]
fn write_value(v: &serde_json::Value) -> (r: Result<String, ()>)
    ensures
        r is Ok,
        r->Ok_0@ == json_text(contents(*v)),
        contents(*v) matches JsonView::Number(JsonNumber::Float(n)) ==> r->Ok_0@ == float_text(n),
{
    serde_json::to_string(v).map_err(|_| ())
}

/// What `serde_json::from_str` makes of a text: a value, or the message of its error.
pub uninterp spec fn parsed(s: Seq<char>) -> Result<JsonView, Seq<char>>;

/// Calls `serde_json::from_str` for a `Value`. Its result is a function of the text alone.
#[verifier::external_body]
fn parse_value(s: &str) -> (r: Result<serde_json::Value, String>)
    ensures
        match r {
            Ok(v) => parsed(s@) == Ok::<JsonView, Seq<char>>(contents(v)),
            Err(e) => parsed(s@) == Err::<JsonView, Seq<char>>(e@),
        },
{
    serde_json::from_str(s).map_err(|e: serde_json::Error| e.to_string())
}

/// Calls the `Display` of `serde_json::Value`, which writes the same compact JSON text as
/// `serde_json::to_string`.
#[verifier::external_body]
fn show_value(v: &serde_json::Value) -> (r: String)
    ensures
        r@ == json_text(contents(*v)),
{
    format!("{}", v)
}

/// Calls `serde_json::to_string` on a text: a JSON string with the escapes of
/// [`escaped_char`]. Writing to memory does not fail.
#[verifier::external_body]
pub(crate) fn quote(s: &str) -> (r: String)
    ensures
        r@ == quoted(s@),
{
    serde_json::to_string(s).unwrap_or_default()
}

proof fn lemma_items_push(items: Seq<JsonView>, j: JsonView)
    ensures
        proper_items(items.push(j)) == (proper_items(items) && proper(j)),
{
    assert(items.push(j).drop_last() =~= items);
}

proof fn lemma_proper_entries_push(entries: Seq<(Seq<char>, JsonView)>, e: (Seq<char>, JsonView))
    ensures
        proper_entries(entries.push(e)) == (proper_entries(entries) && proper(e.1)),
{
    assert(entries.push(e).drop_last() =~= entries);
}

proof fn lemma_proper_items_all(items: Seq<JsonView>, i: int)
    requires
        proper_items(items),
        0 <= i < items.len(),
    ensures
        proper(items[i]),
    decreases items.len(),
{
    if i < items.len() - 1 {
        lemma_proper_items_all(items.drop_last(), i);
    }
}

/// The value of every entry of a proper object is proper.
pub(crate) proof fn lemma_proper_entries_all(entries: Seq<(Seq<char>, JsonView)>, i: int)
    requires
        proper_entries(entries),
        0 <= i < entries.len(),
    ensures
        proper(entries[i].1),
    decreases entries.len(),
{
    if i < entries.len() - 1 {
        lemma_proper_entries_all(entries.drop_last(), i);
    }
}

impl Json {
    /// Takes a value of `serde_json` over.
    pub fn from_value(v: serde_json::Value) -> (r: Json)
        ensures
            r@ == contents(v),
            proper(r@),
        decreases contents(v),
    {
        let ghost whole = contents(v);
        match open_value(v) {
            Layer::Null => Json::Null,
            Layer::Bool(b) => Json::Bool(b),
            Layer::Number(n) => Json::Number(n),
            Layer::Text(s) => Json::Text(s),
            Layer::Array(a) => {
                let ghost all = a@;
                let mut out: Vec<Json> = Vec::new();
                assert(views_of(out@) =~= all_contents(all).take(0));
                for x in it: a
                    invariant
                        it.seq() == all,
                        whole == contents(v),
                        whole == JsonView::Array(all_contents(all)),
                        views_of(out@) == all_contents(all).take(it.index()),
                        proper_items(views_of(out@)),
                {
                    let ghost k = it.index();
                    assert(x == all[k]);
                    assert(decreases_to!(all_contents(all) => all_contents(all)[k]));
                    assert(decreases_to!(whole => whole->Array_0));
                    let j = Json::from_value(x);
                    proof {
                        lemma_views_push(out@, j);
                        lemma_items_push(views_of(out@), j@);
                        assert(all_contents(all).take(k + 1) =~= all_contents(all).take(k).push(
                            all_contents(all)[k],
                        ));
                    }
                    out.push(j);
                }
                assert(all_contents(all).take(all.len() as int) =~= all_contents(all));
                Json::Array(out)
            },
            Layer::Object(a) => {
                let ghost all = a@;
                let mut out: Vec<(String, Json)> = Vec::new();
                assert(entries_of(out@) =~= entry_contents(all).take(0));
                for x in it: a
                    invariant
                        it.seq() == all,
                        whole == contents(v),
                        whole == JsonView::Object(entry_contents(all)),
                        entries_of(out@) == entry_contents(all).take(it.index()),
                        proper_entries(entries_of(out@)),
                {
                    let ghost k = it.index();
                    let (key, value) = x;
                    assert((key, value) == all[k]);
                    assert(decreases_to!(entry_contents(all)[k] => entry_contents(all)[k].1));
                    assert(decreases_to!(entry_contents(all) => entry_contents(all)[k]));
                    assert(decreases_to!(whole => whole->Object_0));
                    let j = Json::from_value(value);
                    proof {
                        lemma_entries_push(out@, (key, j));
                        lemma_proper_entries_push(entries_of(out@), (key@, j@));
                        assert(entry_contents(all).take(k + 1) =~= entry_contents(all).take(k).push(
                            entry_contents(all)[k],
                        ));
                    }
                    out.push((key, j));
                }
                assert(entry_contents(all).take(all.len() as int) =~= entry_contents(all));
                Json::Object(out)
            },
        }
    }

    /// Builds the value of `serde_json` that stands for this one.
    pub fn to_value(&self) -> (r: serde_json::Value)
        ensures
            proper(self@) ==> contents(r) == self@,
        decreases self,
    {
        match self {
            Json::Null => close_layer(Layer::Null),
            Json::Bool(b) => close_layer(Layer::Bool(*b)),
            Json::Number(n) => close_layer(Layer::Number(n.clone())),
            Json::Text(s) => close_layer(Layer::Text(s.clone())),
            Json::Array(v) => {
                let mut out: Vec<serde_json::Value> = Vec::new();
                let mut i: usize = 0;
                proof {
                    lemma_views_of(v@);
                }
                while i < v.len()
                    invariant
                        i <= v.len(),
                        *self == Json::Array(*v),
                        out@.len() == i,
                        views_of(v@).len() == v@.len(),
                        forall|k: int|
                            0 <= k < v@.len() ==> #[trigger] views_of(v@)[k] == view_of(v@[k]),
                        proper(self@) ==> forall|k: int|
                            0 <= k < i ==> contents(#[trigger] out@[k]) == views_of(v@)[k],
                    decreases v.len() - i,
                {
                    assert(decreases_to!(v@ => v@[i as int]));
                    assert(decreases_to!(*v => v@));
                    assert(decreases_to!(*self => (*self)->Array_0));
                    let x = (&v[i]).to_value();
                    proof {
                        if proper(self@) {
                            lemma_proper_items_all(views_of(v@), i as int);
                            assert(contents(x) == views_of(v@)[i as int]);
                        }
                    }
                    out.push(x);
                    i += 1;
                }
                assert(proper(self@) ==> all_contents(out@) =~= views_of(v@));
                close_layer(Layer::Array(out))
            },
            Json::Object(v) => {
                let mut out: Vec<(String, serde_json::Value)> = Vec::new();
                let mut i: usize = 0;
                proof {
                    lemma_entries_of(v@);
                }
                while i < v.len()
                    invariant
                        i <= v.len(),
                        *self == Json::Object(*v),
                        out@.len() == i,
                        entries_of(v@).len() == v@.len(),
                        forall|k: int|
                            0 <= k < v@.len() ==> #[trigger] entries_of(v@)[k] == (
                                v@[k].0@,
                                view_of(v@[k].1),
                            ),
                        forall|k: int| 0 <= k < i ==> (#[trigger] out@[k]).0@ == v@[k].0@,
                        proper(self@) ==> forall|k: int|
                            0 <= k < i ==> contents((#[trigger] out@[k]).1) == entries_of(v@)[k].1,
                    decreases v.len() - i,
                {
                    assert(decreases_to!(v@[i as int] => v@[i as int].1));
                    assert(decreases_to!(v@ => v@[i as int]));
                    assert(decreases_to!(*v => v@));
                    assert(decreases_to!(*self => (*self)->Object_0));
                    let x = (&v[i].1).to_value();
                    proof {
                        if proper(self@) {
                            lemma_proper_entries_all(entries_of(v@), i as int);
                            assert(contents(x) == entries_of(v@)[i as int].1);
                        }
                    }
                    out.push((v[i].0.clone(), x));
                    i += 1;
                }
                assert(proper(self@) ==> entry_contents(out@) =~= entries_of(v@));
                close_layer(Layer::Object(out))
            },
        }
    }

    /// Reads a JSON text. The error is the message of the parser.
    pub fn parse(s: &str) -> (r: Result<Json, String>)
        ensures
            match r {
                Ok(j) => parsed(s@) == Ok::<JsonView, Seq<char>>(j@) && proper(j@),
                Err(e) => parsed(s@) == Err::<JsonView, Seq<char>>(e@),
            },
    {
        match parse_value(s) {
            Ok(v) => Ok(Json::from_value(v)),
            Err(e) => Err(e),
        }
    }

    /// Writes the value as compact JSON text.
    pub fn to_text(&self) -> (r: Result<String, ()>)
        ensures
            r is Ok,
            proper(self@) ==> r->Ok_0@ == json_text(self@),
    {
        write_value(&self.to_value())
    }

    /// Shows the value: compact JSON text.
    pub fn show(&self) -> (r: String)
        ensures
            proper(self@) ==> r@ == json_text(self@),
    {
        show_value(&self.to_value())
    }
}

// ---------------------------------------------------------------------------
// Laws
// ---------------------------------------------------------------------------

/// The value under a key is that of the first entry with the key. What is no object has none, nor
/// has an object without such an entry.
pub proof fn law_field_is_first_with_key(
    entries: Seq<(Seq<char>, JsonView)>,
    key: Seq<char>,
    i: int,
    other: JsonView,
)
    ensures
        0 <= i < entries.len() && entries[i].0 == key && (forall|j: int|
            0 <= j < i ==> (#[trigger] entries[j]).0 != key) ==> JsonView::Object(entries).field(key)
            == Some(entries[i].1),
        (forall|j: int| 0 <= j < entries.len() ==> (#[trigger] entries[j]).0 != key)
            ==> JsonView::Object(entries).field(key) is None,
        !(other is Object) ==> other.field(key) is None,
{
    if 0 <= i < entries.len() && entries[i].0 == key && (forall|j: int|
        0 <= j < i ==> (#[trigger] entries[j]).0 != key) {
        lemma_lookup(entries, key, i);
    }
    if forall|j: int| 0 <= j < entries.len() ==> (#[trigger] entries[j]).0 != key {
        lemma_lookup(entries, key, entries.len() as int);
    }
}

/// A text is read as it stands under its key, an integer that is not negative likewise. The
/// default counts exactly where there is nothing of that kind.
pub proof fn law_arguments_are_read_as_given(
    args: JsonView,
    key: Seq<char>,
    s: Seq<char>,
    u: u64,
    default_text: Seq<char>,
    default_integer: u64,
)
    ensures
        args.field(key) == Some(JsonView::Text(s)) ==> args.text_or(key, default_text) == s,
        !(args.field(key) matches Some(JsonView::Text(_))) ==> args.text_or(key, default_text)
            == default_text,
        args.field(key) == Some(JsonView::Number(JsonNumber::Unsigned(u))) ==> args.integer_or(
            key,
            default_integer,
        ) == u,
        !(args.field(key) matches Some(JsonView::Number(JsonNumber::Unsigned(_))))
            ==> args.integer_or(key, default_integer) == default_integer,
{
}

/// The JSON text of a text stands between quotes, holds no line end and no other control
/// character, and tells the text: different texts have different JSON texts.
pub proof fn law_quoted_texts_differ(a: Seq<char>, b: Seq<char>)
    ensures
        quoted(a).len() >= 2 && quoted(a)[0] == '"' && quoted(a).last() == '"',
        forall|i: int| 0 <= i < quoted(a).len() ==> (#[trigger] quoted(a)[i]) as u32 >= 0x20,
        quoted(a) == quoted(b) ==> a == b,
{
    lemma_escaped_is_printable(a);
    let q = quoted(a);
    assert forall|i: int| 0 <= i < q.len() implies (#[trigger] q[i]) as u32 >= 0x20 by {
        if 0 < i < q.len() - 1 {
            assert(q[i] == escaped(a)[i - 1]);
        }
    }
    if quoted(a) == quoted(b) {
        assert(quoted(a).subrange(1, quoted(a).len() - 1) =~= escaped(a));
        assert(quoted(b).subrange(1, quoted(b).len() - 1) =~= escaped(b));
        lemma_escaped_injective(a, b);
    }
}

proof fn lemma_escaped_is_printable(s: Seq<char>)
    ensures
        forall|i: int| 0 <= i < escaped(s).len() ==> (#[trigger] escaped(s)[i]) as u32 >= 0x20,
    decreases s.len(),
{
    if s.len() > 0 {
        let front = escaped(s.drop_last());
        let e = escaped_char(s.last());
        lemma_escaped_is_printable(s.drop_last());
        let u = s.last() as u32 as int;
        assert(u < 32 ==> 0 <= u / 16 < 2 && 0 <= u % 16 < 16);
        assert forall|i: int| 0 <= i < e.len() implies (#[trigger] e[i]) as u32 >= 0x20 by {}
        assert forall|i: int| 0 <= i < escaped(s).len() implies (#[trigger] escaped(s)[i]) as u32
            >= 0x20 by {
            if i < front.len() {
                assert(escaped(s)[i] == front[i]);
            } else {
                assert(escaped(s)[i] == e[i - front.len()]);
            }
        }
    }
}

/// The escapes of a text are those of its first character, then those of the rest.
proof fn lemma_escaped_first(s: Seq<char>)
    requires
        s.len() > 0,
    ensures
        escaped(s) == escaped_char(s[0]) + escaped(s.drop_first()),
    decreases s.len(),
{
    if s.len() == 1 {
        assert(s.drop_last() =~= Seq::empty());
        assert(s.drop_first() =~= Seq::empty());
        assert(escaped(s) =~= escaped_char(s[0]) + escaped(s.drop_first()));
    } else {
        lemma_escaped_first(s.drop_last());
        assert(s.drop_last().drop_first() =~= s.drop_first().drop_last());
        assert(escaped(s) =~= escaped_char(s[0]) + escaped(s.drop_first()));
    }
}

/// Of two characters with further characters behind their escapes, the escapes tell them apart.
proof fn lemma_escape_is_prefix_free(a: char, b: char, x: Seq<char>, y: Seq<char>)
    requires
        escaped_char(a) + x == escaped_char(b) + y,
    ensures
        a == b,
        x == y,
{
    let p = escaped_char(a) + x;
    let q = escaped_char(b) + y;
    let ea = escaped_char(a);
    let eb = escaped_char(b);
    assert(p[0] == ea[0] && q[0] == eb[0]);
    if ea.len() > 1 && eb.len() > 1 {
        assert(p[1] == ea[1] && q[1] == eb[1]);
        if ea.len() > 2 && eb.len() > 2 {
            assert(p[4] == ea[4] && q[4] == eb[4]);
            assert(p[5] == ea[5] && q[5] == eb[5]);
            let i = a as u32 as int;
            let j = b as u32 as int;
            assert(i < 32 && j < 32);
            assert(i / 16 < 2 && j / 16 < 2);
            assert(i % 16 < 16 && j % 16 < 16);
            assert(i == 16 * (i / 16) + i % 16);
            assert(j == 16 * (j / 16) + j % 16);
        }
    }
    assert(a == b);
    assert(p.skip(ea.len() as int) =~= x);
    assert(q.skip(eb.len() as int) =~= y);
}

proof fn lemma_escaped_injective(a: Seq<char>, b: Seq<char>)
    requires
        escaped(a) == escaped(b),
    ensures
        a == b,
    decreases a.len(),
{
    if a.len() > 0 {
        lemma_escaped_first(a);
    }
    if b.len() > 0 {
        lemma_escaped_first(b);
    }
    if a.len() > 0 && b.len() > 0 {
        lemma_escape_is_prefix_free(a[0], b[0], escaped(a.drop_first()), escaped(b.drop_first()));
        lemma_escaped_injective(a.drop_first(), b.drop_first());
        assert(a =~= seq![a[0]] + a.drop_first());
        assert(b =~= seq![b[0]] + b.drop_first());
    } else {
        assert(escaped(Seq::<char>::empty()).len() == 0);
        assert(a =~= b);
    }
}

} // verus!
