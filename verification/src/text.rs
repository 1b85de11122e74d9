//! Text operations over `char` sequences: trimming, searching, splitting, joining and
//! cutting, each stated over the view of the strings involved.
use vstd::prelude::*;
use vstd::string::*;
use vstd::utf8::*;

verus! {

// ---------------------------------------------------------------------------
// UTF-8 facts
// ---------------------------------------------------------------------------

/// The number of bytes that a text takes up in UTF-8.
pub open spec fn byte_len(s: Seq<char>) -> nat {
    encode_utf8(s).len()
}

/// The encoding of a concatenation is the concatenation of the encodings.
pub proof fn lemma_encode_concat(a: Seq<char>, b: Seq<char>)
    ensures
        encode_utf8(a + b) == encode_utf8(a) + encode_utf8(b),
    decreases a.len(),
{
    if a.len() == 0 {
        assert(a + b =~= b);
    } else {
        assert((a + b).drop_first() =~= a.drop_first() + b);
        lemma_encode_concat(a.drop_first(), b);
        assert(encode_utf8(a + b) =~= encode_utf8(a) + encode_utf8(b));
    }
}

/// Texts with the same encoding are the same text.
pub proof fn lemma_encode_injective(a: Seq<char>, b: Seq<char>)
    requires
        encode_utf8(a) == encode_utf8(b),
    ensures
        a == b,
{
    encode_utf8_decode_utf8(a);
    encode_utf8_decode_utf8(b);
}

/// The end of the first `k` characters is a character boundary.
proof fn lemma_boundary(s: Seq<char>, k: int)
    requires
        0 <= k <= s.len(),
    ensures
        valid_utf8(encode_utf8(s)),
        is_char_boundary(encode_utf8(s), byte_len(s.take(k)) as int),
        encode_utf8(s).subrange(0, byte_len(s.take(k)) as int) == encode_utf8(s.take(k)),
        encode_utf8(s).subrange(byte_len(s.take(k)) as int, byte_len(s) as int) == encode_utf8(
            s.skip(k),
        ),
        byte_len(s.take(k)) <= byte_len(s),
    decreases k,
{
    let all = encode_utf8(s);
    encode_utf8_valid_utf8(s);
    assert(s.take(k) + s.skip(k) =~= s);
    lemma_encode_concat(s.take(k), s.skip(k));
    assert(all.subrange(0, byte_len(s.take(k)) as int) =~= encode_utf8(s.take(k)));
    assert(all.subrange(byte_len(s.take(k)) as int, byte_len(s) as int) =~= encode_utf8(s.skip(k)));
    if k == 0 {
        assert(s.take(k) =~= Seq::<char>::empty());
    } else {
        encode_utf8_first_scalar(s);
        let rest = s.drop_first();
        assert(pop_first_scalar(all) =~= encode_utf8(rest));
        lemma_boundary(rest, k - 1);
        assert(rest.take(k - 1) =~= s.take(k).drop_first());
        assert(byte_len(s.take(k)) == length_of_first_scalar(all) + byte_len(rest.take(k - 1)));
    }
}

/// One more character adds the bytes of its own encoding.
proof fn lemma_take_next(s: Seq<char>, k: int)
    requires
        0 <= k < s.len(),
    ensures
        byte_len(s.take(k + 1)) == byte_len(s.take(k)) + encode_scalar(s[k] as u32).len(),
        byte_len(s.take(k + 1)) <= byte_len(s),
{
    assert(s.take(k + 1) =~= s.take(k) + seq![s[k]]);
    lemma_encode_concat(s.take(k), seq![s[k]]);
    assert(encode_utf8(seq![s[k]]) =~= encode_scalar(s[k] as u32)) by {
        reveal_with_fuel(encode_utf8, 2);
        assert(seq![s[k]].drop_first() =~= Seq::<char>::empty());
    }
    lemma_boundary(s, k + 1);
}

/// Bytes of one character in UTF-8.
fn char_width(c: char) -> (n: usize)
    ensures
        n == encode_scalar(c as u32).len(),
        1 <= n <= 4,
{
    let u = c as u32;
    if u <= 0x7f {
        1
    } else if u <= 0x7ff {
        2
    } else if u <= 0xffff {
        3
    } else {
        4
    }
}

/// Splits a text after its first `k` characters, given the bytes that they take.
pub(crate) fn split_text<'a>(s: &'a str, bytes: usize, Ghost(k): Ghost<int>) -> (r: (&'a str, &'a str))
    requires
        0 <= k <= s@.len(),
        bytes == byte_len(s@.take(k)),
    ensures
        r.0@ == s@.take(k),
        r.1@ == s@.skip(k),
{
    proof {
        lemma_boundary(s@, k);
    }
    let (a, b) = s.split_at(bytes);
    proof {
        lemma_encode_injective(a@, s@.take(k));
        lemma_encode_injective(b@, s@.skip(k));
    }
    (a, b)
}

/// The byte length of a text.
pub fn text_len(s: &str) -> (n: usize)
    ensures
        n == byte_len(s@),
{
    s.as_bytes().len()
}

// ---------------------------------------------------------------------------
// Comparing
// ---------------------------------------------------------------------------

/// Whether two texts are the same.
pub fn same_text(a: &str, b: &str) -> (r: bool)
    ensures
        r == (a@ == b@),
{
    let x = a.as_bytes();
    let y = b.as_bytes();
    if x.len() != y.len() {
        return false;
    }
    let mut i: usize = 0;
    while i < x.len()
        invariant
            i <= x.len(),
            x.len() == y.len(),
            x@ == encode_utf8(a@),
            y@ == encode_utf8(b@),
            forall|j: int| 0 <= j < i ==> x@[j] == y@[j],
        decreases x.len() - i,
    {
        if x[i] != y[i] {
            return false;
        }
        i += 1;
    }
    proof {
        assert(x@ =~= y@);
        lemma_encode_injective(a@, b@);
    }
    true
}

/// A text begins with another.
pub open spec fn starts_with(s: Seq<char>, p: Seq<char>) -> bool {
    p.len() <= s.len() && s.take(p.len() as int) == p
}

/// Copies the characters of a text.
pub fn chars_of(s: &str) -> (v: Vec<char>)
    ensures
        v@ == s@,
{
    let mut v: Vec<char> = Vec::new();
    for c in it: s.chars()
        invariant
            it.seq() == s@,
            v@ == s@.take(it.index()),
    {
        v.push(c);
        assert(v@ =~= s@.take(it.index() + 1));
    }
    assert(s@.take(s@.len() as int) =~= s@);
    v
}

/// Whether `s` begins with `p`.
pub fn text_starts_with(s: &str, p: &str) -> (r: bool)
    ensures
        r == starts_with(s@, p@),
{
    let n = p.unicode_len();
    if s.unicode_len() < n {
        return false;
    }
    same_text(s.substring_char(0, n), p)
}

// ---------------------------------------------------------------------------
// Trimming
// ---------------------------------------------------------------------------

/// The Unicode property `White_Space`.
pub open spec fn is_white_space(c: char) -> bool {
    let u = c as u32;
    ||| 0x09 <= u <= 0x0d
    ||| u == 0x20
    ||| u == 0x85
    ||| u == 0xa0
    ||| u == 0x1680
    ||| 0x2000 <= u <= 0x200a
    ||| u == 0x2028
    ||| u == 0x2029
    ||| u == 0x202f
    ||| u == 0x205f
    ||| u == 0x3000
}

/// `char::is_whitespace` is documented to tell whether a character has the Unicode property
/// `White_Space`; the characters with that property are the ones of [`is_white_space`].
pub assume_specification[ char::is_whitespace ](c: char) -> (r: bool)
    ensures
        r == is_white_space(c),
;

/// The characters that a trim takes away.
#[derive(Clone, Copy)]
pub enum Trim {
    /// White space.
    Space,
    /// One character.
    Only(char),
}

impl Trim {
    /// Whether the trim takes `c` away.
    pub open spec fn takes(self, c: char) -> bool {
        match self {
            Trim::Space => is_white_space(c),
            Trim::Only(d) => c == d,
        }
    }

    fn check(self, c: char) -> (r: bool)
        ensures
            r == self.takes(c),
    {
        match self {
            Trim::Space => c.is_whitespace(),
            Trim::Only(d) => c == d,
        }
    }
}

/// A text without the leading characters that `t` takes away.
pub open spec fn trim_front(s: Seq<char>, t: Trim) -> Seq<char>
    decreases s.len(),
{
    if s.len() > 0 && t.takes(s[0]) {
        trim_front(s.drop_first(), t)
    } else {
        s
    }
}

/// A text without the trailing characters that `t` takes away.
pub open spec fn trim_back(s: Seq<char>, t: Trim) -> Seq<char>
    decreases s.len(),
{
    if s.len() > 0 && t.takes(s.last()) {
        trim_back(s.drop_last(), t)
    } else {
        s
    }
}

/// A text without leading and trailing white space.
pub open spec fn trimmed(s: Seq<char>) -> Seq<char> {
    trim_back(trim_front(s, Trim::Space), Trim::Space)
}

/// The leading run that a trim takes away is as long as it can be.
pub proof fn lemma_trim_front(s: Seq<char>, t: Trim, k: int)
    requires
        0 <= k <= s.len(),
        forall|i: int| 0 <= i < k ==> t.takes(#[trigger] s[i]),
        k < s.len() ==> !t.takes(s[k]),
    ensures
        trim_front(s, t) == s.skip(k),
    decreases k,
{
    if k == 0 {
        assert(s.skip(0) =~= s);
    } else {
        assert(t.takes(s[0]));
        let rest = s.drop_first();
        assert forall|i: int| 0 <= i < k - 1 implies t.takes(#[trigger] rest[i]) by {
            assert(rest[i] == s[i + 1]);
        }
        lemma_trim_front(rest, t, k - 1);
        assert(rest.skip(k - 1) =~= s.skip(k));
    }
}

/// The trailing run that a trim takes away is as long as it can be.
pub proof fn lemma_trim_back(s: Seq<char>, t: Trim, k: int)
    requires
        0 <= k <= s.len(),
        forall|i: int| k <= i < s.len() ==> t.takes(#[trigger] s[i]),
        k > 0 ==> !t.takes(s[k - 1]),
    ensures
        trim_back(s, t) == s.take(k),
    decreases s.len() - k,
{
    if k == s.len() {
        assert(s.take(k) =~= s);
    } else {
        assert(t.takes(s[s.len() - 1]));
        lemma_trim_back(s.drop_last(), t, k);
        assert(s.drop_last().take(k) =~= s.take(k));
    }
}

/// Takes leading characters away.
pub fn trim_start<'a>(s: &'a str, t: Trim) -> (r: &'a str)
    ensures
        r@ == trim_front(s@, t),
{
    let total = text_len(s);
    let mut bytes: usize = 0;
    let ghost mut k: int = 0;
    assert(s@.take(0) =~= Seq::<char>::empty());
    for c in it: s.chars()
        invariant
            it.seq() == s@,
            total == byte_len(s@),
            k == it.index(),
            bytes == byte_len(s@.take(k)),
            forall|i: int| 0 <= i < k ==> t.takes(#[trigger] s@[i]),
    {
        if !t.check(c) {
            proof {
                lemma_trim_front(s@, t, k);
            }
            return split_text(s, bytes, Ghost(k)).1;
        }
        proof {
            lemma_take_next(s@, k);
            k = k + 1;
        }
        bytes = bytes + char_width(c);
    }
    proof {
        lemma_trim_front(s@, t, k);
    }
    split_text(s, bytes, Ghost(k)).1
}

/// Takes trailing characters away.
pub fn trim_end<'a>(s: &'a str, t: Trim) -> (r: &'a str)
    ensures
        r@ == trim_back(s@, t),
{
    let total = text_len(s);
    let mut bytes: usize = 0;
    let mut kept: usize = 0;
    let ghost mut k: int = 0;
    let ghost mut end: int = 0;
    assert(s@.take(0) =~= Seq::<char>::empty());
    for c in it: s.chars()
        invariant
            it.seq() == s@,
            total == byte_len(s@),
            k == it.index(),
            0 <= end <= k,
            bytes == byte_len(s@.take(k)),
            kept == byte_len(s@.take(end)),
            forall|i: int| end <= i < k ==> t.takes(#[trigger] s@[i]),
            end > 0 ==> !t.takes(s@[end - 1]),
    {
        proof {
            lemma_take_next(s@, k);
            k = k + 1;
        }
        bytes = bytes + char_width(c);
        if !t.check(c) {
            kept = bytes;
            proof {
                end = k;
            }
        }
    }
    proof {
        lemma_trim_back(s@, t, end);
    }
    split_text(s, kept, Ghost(end)).0
}

/// Takes leading and trailing white space away.
pub fn trim<'a>(s: &'a str) -> (r: &'a str)
    ensures
        r@ == trimmed(s@),
{
    trim_end(trim_start(s, Trim::Space), Trim::Space)
}

// ---------------------------------------------------------------------------
// Splitting
// ---------------------------------------------------------------------------

/// How many characters stand before the first `c`; all of them where there is none.
pub open spec fn before(s: Seq<char>, c: char) -> nat
    decreases s.len(),
{
    if s.len() == 0 || s[0] == c {
        0
    } else {
        1 + before(s.drop_first(), c)
    }
}

/// [`before`] is the place of the first `c`.
pub proof fn lemma_before(s: Seq<char>, c: char, k: int)
    requires
        0 <= k <= s.len(),
        forall|i: int| 0 <= i < k ==> #[trigger] s[i] != c,
        k < s.len() ==> s[k] == c,
    ensures
        before(s, c) == k,
    decreases k,
{
    if k > 0 {
        let rest = s.drop_first();
        assert(s[0] != c);
        assert forall|i: int| 0 <= i < k - 1 implies #[trigger] rest[i] != c by {
            assert(rest[i] == s[i + 1]);
        }
        lemma_before(rest, c, k - 1);
    }
}

/// What [`before`] says of the characters.
pub proof fn lemma_before_is(s: Seq<char>, c: char)
    ensures
        before(s, c) <= s.len(),
        forall|i: int| 0 <= i < before(s, c) ==> #[trigger] s[i] != c,
        before(s, c) < s.len() ==> s[before(s, c) as int] == c,
    decreases s.len(),
{
    if s.len() > 0 && s[0] != c {
        let rest = s.drop_first();
        lemma_before_is(rest, c);
        assert forall|i: int| 0 <= i < before(s, c) implies #[trigger] s[i] != c by {
            if i > 0 {
                assert(rest[i - 1] == s[i]);
            }
        }
    }
}

/// The texts before and after the first `c`, where there is one.
pub fn split_once<'a>(s: &'a str, c: char) -> (r: Option<(&'a str, &'a str)>)
    ensures
        match r {
            Some((a, b)) => {
                &&& before(s@, c) < s@.len()
                &&& a@ == s@.take(before(s@, c) as int)
                &&& b@ == s@.skip(before(s@, c) as int + 1)
            },
            None => before(s@, c) == s@.len(),
        },
{
    let total = text_len(s);
    let mut bytes: usize = 0;
    let ghost mut k: int = 0;
    assert(s@.take(0) =~= Seq::<char>::empty());
    for d in it: s.chars()
        invariant
            it.seq() == s@,
            total == byte_len(s@),
            k == it.index(),
            bytes == byte_len(s@.take(k)),
            forall|i: int| 0 <= i < k ==> #[trigger] s@[i] != c,
    {
        proof {
            lemma_take_next(s@, k);
        }
        let next = bytes + char_width(d);
        if d == c {
            proof {
                lemma_before(s@, c, k);
            }
            let (a, _) = split_text(s, bytes, Ghost(k));
            let (_, b) = split_text(s, next, Ghost(k + 1));
            return Some((a, b));
        }
        bytes = next;
        proof {
            k = k + 1;
        }
    }
    proof {
        lemma_before(s@, c, k);
    }
    None
}

/// A line without the carriage return of its line ending.
pub open spec fn chomped(s: Seq<char>) -> Seq<char> {
    if s.len() > 0 && s.last() == '\r' {
        s.drop_last()
    } else {
        s
    }
}

/// The lines of a text. A line ends with a line feed, or with a carriage return and a line
/// feed; the last line ending is optional.
pub open spec fn lines(s: Seq<char>) -> Seq<Seq<char>>
    decreases s.len(),
{
    let n = before(s, '\n') as int;
    if s.len() == 0 {
        Seq::empty()
    } else if n < s.len() {
        seq![chomped(s.take(n))] + lines(s.skip(n + 1))
    } else {
        seq![s]
    }
}

/// The views of some texts.
pub open spec fn texts(v: Seq<&str>) -> Seq<Seq<char>> {
    Seq::new(v.len(), |i: int| v[i]@)
}

/// The views of some owned texts.
pub open spec fn strings(v: Seq<String>) -> Seq<Seq<char>> {
    Seq::new(v.len(), |i: int| v[i]@)
}

fn chomp<'a>(s: &'a str) -> (r: &'a str)
    ensures
        r@ == chomped(s@),
{
    let n = s.unicode_len();
    if n > 0 && s.get_char(n - 1) == '\r' {
        assert(s@.subrange(0, n - 1) =~= s@.drop_last());
        s.substring_char(0, n - 1)
    } else {
        s
    }
}

/// Splits a text into its lines.
pub fn split_lines<'a>(s: &'a str) -> (r: Vec<&'a str>)
    ensures
        texts(r@) == lines(s@),
{
    let mut out: Vec<&'a str> = Vec::new();
    let mut rest: &'a str = s;
    assert(texts(out@) + lines(rest@) =~= lines(s@));
    while !rest.is_empty()
        invariant
            texts(out@) + lines(rest@) == lines(s@),
        decreases rest@.len(),
    {
        proof {
            lemma_before_is(rest@, '\n');
        }
        let ghost had = out@;
        let ghost left = rest@;
        match split_once(rest, '\n') {
            Some((line, after)) => {
                out.push(chomp(line));
                rest = after;
            },
            None => {
                out.push(rest);
                assert(texts(out@) =~= texts(had) + seq![left]);
                return out;
            },
        }
        assert(texts(out@) =~= texts(had) + seq![chomped(left.take(before(left, '\n') as int))]);
        assert(lines(left) =~= seq![chomped(left.take(before(left, '\n') as int))] + lines(rest@));
        assert(texts(out@) + lines(rest@) =~= texts(had) + lines(left));
    }
    assert(lines(rest@) =~= Seq::empty());
    assert(texts(out@) =~= lines(s@));
    out
}

// ---------------------------------------------------------------------------
// Joining
// ---------------------------------------------------------------------------

/// Texts with a separator between neighbours.
pub open spec fn joined(parts: Seq<Seq<char>>, sep: Seq<char>) -> Seq<char>
    decreases parts.len(),
{
    if parts.len() == 0 {
        Seq::empty()
    } else if parts.len() == 1 {
        parts[0]
    } else {
        joined(parts.drop_last(), sep) + sep + parts.last()
    }
}

/// Joins texts.
pub fn join(parts: &[String], sep: &str) -> (r: String)
    ensures
        r@ == joined(strings(parts@), sep@),
{
    let mut out = String::new();
    let mut i: usize = 0;
    assert(strings(parts@).take(0) =~= Seq::empty());
    while i < parts.len()
        invariant
            i <= parts.len(),
            out@ == joined(strings(parts@).take(i as int), sep@),
        decreases parts.len() - i,
    {
        if i > 0 {
            out.append(sep);
        }
        out.append(parts[i].as_str());
        proof {
            let all = strings(parts@);
            let now = all.take(i + 1);
            assert(now.drop_last() =~= all.take(i as int));
            assert(now.last() == parts@[i as int]@);
            if i == 0 {
                assert(all.take(0) =~= Seq::empty());
                assert(out@ =~= now[0]);
            }
        }
        i += 1;
    }
    assert(strings(parts@).take(parts@.len() as int) =~= strings(parts@));
    out
}

// ---------------------------------------------------------------------------
// Numbers
// ---------------------------------------------------------------------------

/// A decimal digit.
pub open spec fn digit(d: nat) -> char {
    (48 + d) as char
}

/// A number in decimal.
pub open spec fn decimal(n: nat) -> Seq<char>
    decreases n,
{
    if n < 10 {
        seq![digit(n)]
    } else {
        decimal(n / 10).push(digit(n % 10))
    }
}

fn digit_text(d: u128) -> (r: &'static str)
    requires
        d < 10,
    ensures
        r@ == seq![digit(d as nat)],
{
    proof {
        reveal_strlit("0");
        reveal_strlit("1");
        reveal_strlit("2");
        reveal_strlit("3");
        reveal_strlit("4");
        reveal_strlit("5");
        reveal_strlit("6");
        reveal_strlit("7");
        reveal_strlit("8");
        reveal_strlit("9");
    }
    let r: &'static str = if d == 0 {
        "0"
    } else if d == 1 {
        "1"
    } else if d == 2 {
        "2"
    } else if d == 3 {
        "3"
    } else if d == 4 {
        "4"
    } else if d == 5 {
        "5"
    } else if d == 6 {
        "6"
    } else if d == 7 {
        "7"
    } else if d == 8 {
        "8"
    } else {
        "9"
    };
    assert(r@ =~= seq![digit(d as nat)]);
    r
}

/// Writes a number in decimal.
pub fn decimal_text(n: u128) -> (r: String)
    ensures
        r@ == decimal(n as nat),
    decreases n,
{
    if n < 10 {
        digit_text(n).to_owned()
    } else {
        let mut out = decimal_text(n / 10);
        out.append(digit_text(n % 10));
        assert(out@ =~= decimal(n as nat));
        out
    }
}

/// A text brought to a width by spaces in front.
pub open spec fn right_aligned(s: Seq<char>, width: nat) -> Seq<char> {
    if s.len() < width {
        Seq::new((width - s.len()) as nat, |i: int| ' ') + s
    } else {
        s
    }
}

/// Brings a text to a width by spaces in front.
pub fn align_right(s: &str, width: usize) -> (r: String)
    ensures
        r@ == right_aligned(s@, width as nat),
{
    let n = s.unicode_len();
    let mut out = String::new();
    let mut i: usize = n;
    while i < width
        invariant
            n == s@.len(),
            n <= i,
            n <= width ==> i <= width,
            n > width ==> i == n,
            out@ == Seq::new((i - n) as nat, |j: int| ' '),
        decreases width - i,
    {
        out.append(" ");
        i += 1;
        proof {
            reveal_strlit(" ");
            assert(out@ =~= Seq::new((i - n) as nat, |j: int| ' '));
        }
    }
    out.append(s);
    assert(out@ =~= right_aligned(s@, width as nat));
    out
}

// ---------------------------------------------------------------------------
// Searching
// ---------------------------------------------------------------------------

/// `p` stands at place `k` of `s`.
pub open spec fn occurs_at(s: Seq<char>, p: Seq<char>, k: int) -> bool {
    0 <= k <= s.len() - p.len() && s.subrange(k, k + p.len()) == p
}

/// `p` stands somewhere in `s`.
pub open spec fn contains(s: Seq<char>, p: Seq<char>) -> bool {
    exists|k: int| occurs_at(s, p, k)
}

/// The first place at or after `from` where `p` stands in `s`.
pub open spec fn find_from(s: Seq<char>, p: Seq<char>, from: int) -> Option<int>
    decreases s.len() - from + 1,
{
    if from > s.len() - p.len() {
        None
    } else if occurs_at(s, p, from) {
        Some(from)
    } else {
        find_from(s, p, from + 1)
    }
}

/// [`find_from`] finds the first place there is.
pub proof fn lemma_find_from(s: Seq<char>, p: Seq<char>, from: int)
    requires
        0 <= from,
    ensures
        match find_from(s, p, from) {
            Some(k) => from <= k && occurs_at(s, p, k) && forall|j: int|
                from <= j < k ==> !#[trigger] occurs_at(s, p, j),
            None => forall|j: int| from <= j ==> !#[trigger] occurs_at(s, p, j),
        },
    decreases s.len() - from + 1,
{
    if from <= s.len() - p.len() && !occurs_at(s, p, from) {
        lemma_find_from(s, p, from + 1);
    }
}

/// A text that contains another has a first place for it.
pub proof fn lemma_contains_find(s: Seq<char>, p: Seq<char>)
    ensures
        contains(s, p) <==> find_from(s, p, 0) is Some,
{
    lemma_find_from(s, p, 0);
    if contains(s, p) {
        let k = choose|k: int| occurs_at(s, p, k);
        assert(occurs_at(s, p, k));
    }
}

/// How often `p` stands in `s`, counted from the front without overlaps. The empty text
/// stands before every character and at the end.
pub open spec fn occurrences(s: Seq<char>, p: Seq<char>, from: int) -> nat
    decreases s.len() - from,
    when 0 <= from
    via occurrences_decreases
{
    if p.len() == 0 {
        (s.len() - from + 1) as nat
    } else {
        match find_from(s, p, from) {
            Some(k) => 1 + occurrences(s, p, k + p.len()),
            None => 0,
        }
    }
}

#[via_fn]
proof fn occurrences_decreases(s: Seq<char>, p: Seq<char>, from: int) {
    lemma_find_from(s, p, from);
}

fn stands_at(s: &Vec<char>, p: &Vec<char>, k: usize) -> (r: bool)
    requires
        k + p@.len() <= s@.len(),
    ensures
        r == occurs_at(s@, p@, k as int),
{
    let mut i: usize = 0;
    while i < p.len()
        invariant
            i <= p.len(),
            k + p.len() <= s.len(),
            forall|j: int| 0 <= j < i ==> s@[k + j] == #[trigger] p@[j],
        decreases p.len() - i,
    {
        if s[k + i] != p[i] {
            assert(s@.subrange(k as int, k + p@.len())[i as int] == s@[k + i]);
            return false;
        }
        i += 1;
    }
    assert(s@.subrange(k as int, k + p@.len()) =~= p@);
    true
}

/// Finds the first place at or after `from` where `p` stands in `s`.
pub fn find_text(s: &Vec<char>, p: &Vec<char>, from: usize) -> (r: Option<usize>)
    requires
        from <= s@.len(),
    ensures
        match r {
            Some(k) => find_from(s@, p@, from as int) == Some(k as int),
            None => find_from(s@, p@, from as int) is None,
        },
{
    if p.len() > s.len() {
        return None;
    }
    let last = s.len() - p.len();
    let mut k: usize = from;
    while k <= last
        invariant
            from <= k,
            last == s@.len() - p@.len(),
            find_from(s@, p@, from as int) == find_from(s@, p@, k as int),
        decreases last + 1 - k,
    {
        if stands_at(s, p, k) {
            return Some(k);
        }
        if k == last {
            assert(find_from(s@, p@, k + 1) is None);
            return None;
        }
        k += 1;
    }
    None
}

/// Whether `p` stands in `s`.
pub fn text_contains(s: &str, p: &str) -> (r: bool)
    ensures
        r == contains(s@, p@),
{
    proof {
        lemma_contains_find(s@, p@);
    }
    find_text(&chars_of(s), &chars_of(p), 0).is_some()
}

// ---------------------------------------------------------------------------
// Cutting
// ---------------------------------------------------------------------------

/// The longest run of whole characters at the front of a text that fits in `limit` bytes.
pub open spec fn clipped(s: Seq<char>, limit: int) -> Seq<char>
    decreases s.len(),
{
    if s.len() == 0 || encode_scalar(s[0] as u32).len() > limit {
        Seq::empty()
    } else {
        seq![s[0]] + clipped(s.drop_first(), limit - encode_scalar(s[0] as u32).len())
    }
}

/// A clipped text is a part of the text that fits, from the front, and no longer one does.
pub proof fn lemma_clipped(s: Seq<char>, limit: int, k: int)
    requires
        0 <= k <= s.len(),
        byte_len(s.take(k)) <= limit,
        k < s.len() ==> byte_len(s.take(k + 1)) > limit,
    ensures
        clipped(s, limit) == s.take(k),
    decreases s.len(),
{
    if s.len() > 0 {
        let w = encode_scalar(s[0] as u32).len();
        let rest = s.drop_first();
        if k > 0 {
            assert(s.take(k).drop_first() =~= rest.take(k - 1));
            if k < s.len() {
                assert(s.take(k + 1).drop_first() =~= rest.take(k));
            }
            lemma_clipped(rest, limit - w, k - 1);
            assert(s.take(k) =~= seq![s[0]] + rest.take(k - 1));
        } else {
            lemma_take_next(s, 0);
            assert(s.take(0) =~= Seq::<char>::empty());
        }
    } else {
        assert(s.take(k) =~= Seq::<char>::empty());
    }
}

/// A text is cut to a number of whole characters at its front that fit in the limit, and no more
/// of them fit; a text that fits is kept whole.
pub proof fn law_clipped_is_front(s: Seq<char>, limit: nat)
    ensures
        clipped(s, limit as int).len() <= s.len(),
        clipped(s, limit as int) == s.take(clipped(s, limit as int).len() as int),
        byte_len(clipped(s, limit as int)) <= limit,
        byte_len(s) <= limit ==> clipped(s, limit as int) == s,
        byte_len(s) > limit ==> byte_len(clipped(s, limit as int)) + 4 > limit,
        forall|k: int|
            clipped(s, limit as int).len() < k <= s.len() ==> byte_len(#[trigger] s.take(k))
                > limit,
    decreases s.len(),
{
    if s.len() > 0 {
        let w = encode_scalar(s[0] as u32).len();
        let rest = s.drop_first();
        let c = clipped(s, limit as int);
        assert(byte_len(s) == w + byte_len(rest));
        if w <= limit {
            law_clipped_is_front(rest, (limit - w) as nat);
            let d = clipped(rest, limit - w);
            assert(c =~= seq![s[0]] + d);
            assert(c.drop_first() =~= d);
            assert(c =~= s.take(c.len() as int));
            if byte_len(s) <= limit {
                assert(c =~= s);
            }
        } else {
            assert(c =~= s.take(0));
        }
        assert forall|k: int| c.len() < k <= s.len() implies byte_len(#[trigger] s.take(k))
            > limit by {
            assert(s.take(k).drop_first() =~= rest.take(k - 1));
            assert(byte_len(s.take(k)) == w + byte_len(rest.take(k - 1)));
        }
    } else {
        assert(clipped(s, limit as int) =~= s);
        assert(s.take(0) =~= s);
    }
}

/// Cuts a text down to whole characters that fit in `limit` bytes.
pub fn clip<'a>(s: &'a str, limit: usize) -> (r: &'a str)
    ensures
        r@ == clipped(s@, limit as int),
{
    let total = text_len(s);
    let mut bytes: usize = 0;
    let ghost mut k: int = 0;
    assert(s@.take(0) =~= Seq::<char>::empty());
    for c in it: s.chars()
        invariant
            it.seq() == s@,
            total == byte_len(s@),
            k == it.index(),
            bytes == byte_len(s@.take(k)),
            bytes <= limit,
    {
        proof {
            lemma_take_next(s@, k);
        }
        let next = bytes + char_width(c);
        if next > limit {
            proof {
                lemma_clipped(s@, limit as int, k);
            }
            return split_text(s, bytes, Ghost(k)).0;
        }
        bytes = next;
        proof {
            k = k + 1;
        }
    }
    proof {
        lemma_clipped(s@, limit as int, k);
    }
    split_text(s, bytes, Ghost(k)).0
}

/// A text that is longer than `limit` bytes has a character boundary right there.
pub open spec fn cuts_cleanly(s: Seq<char>, limit: int) -> bool {
    byte_len(s) > limit ==> byte_len(clipped(s, limit)) == limit
}

/// Whether a text can be cut at `limit` bytes without splitting a character.
pub fn can_cut(s: &str, limit: usize) -> (r: bool)
    ensures
        r == cuts_cleanly(s@, limit as int),
{
    text_len(s) <= limit || text_len(clip(s, limit)) == limit
}

// ---------------------------------------------------------------------------
// Conversions of the standard library
// ---------------------------------------------------------------------------

/// What `str::to_lowercase` makes of a text.
pub uninterp spec fn lowercased(s: Seq<char>) -> Seq<char>;

/// An ASCII letter in lower case.
pub open spec fn ascii_lower(c: char) -> char {
    if 'A' <= c <= 'Z' {
        (c as u32 + 32) as char
    } else {
        c
    }
}

/// A text with its ASCII letters in lower case.
pub open spec fn ascii_lowered(s: Seq<char>) -> Seq<char> {
    s.map_values(|c: char| ascii_lower(c))
}

/// Whether a text holds ASCII characters only.
pub open spec fn is_ascii(s: Seq<char>) -> bool {
    is_ascii_chars(s)
}

/// Calls `str::to_lowercase`, whose result is a function of the text alone. On ASCII text it
/// turns the letters `A` to `Z` into `a` to `z` and keeps everything else.
#[verifier::external_body]
pub(crate) fn to_lowercase(s: &str) -> (r: String)
    ensures
        r@ == lowercased(s@),
        is_ascii(s@) ==> r@ == ascii_lowered(s@),
{
    s.to_lowercase()
}

/// What `String::from_utf8_lossy` makes of some bytes.
pub uninterp spec fn lossy(bytes: Seq<u8>) -> Seq<char>;

/// Calls `String::from_utf8_lossy`, whose result is a function of the bytes alone. Bytes that
/// are valid UTF-8 are decoded as they stand.
#[verifier::external_body]
pub(crate) fn from_utf8_lossy(bytes: &[u8]) -> (r: String)
    ensures
        r@ == lossy(bytes@),
        valid_utf8(bytes@) ==> r@ == decode_utf8(bytes@),
{
    String::from_utf8_lossy(bytes).into_owned()
}

// ---------------------------------------------------------------------------
// Laws
// ---------------------------------------------------------------------------

/// The size of a text is the sum of the sizes of its parts, and a character takes one to four
/// bytes: one where it is ASCII.
pub proof fn law_size_of_parts(a: Seq<char>, b: Seq<char>, c: char)
    ensures
        byte_len(a + b) == byte_len(a) + byte_len(b),
        byte_len(Seq::empty()) == 0,
        1 <= byte_len(seq![c]) <= 4,
        byte_len(seq![c]) == 1 <==> (c as u32) < 0x80,
{
    lemma_encode_concat(a, b);
    reveal_with_fuel(encode_utf8, 2);
    assert(seq![c].drop_first() =~= Seq::<char>::empty());
}

/// A text begins with another exactly where it is that one with something behind it.
pub proof fn law_starts_with_front(s: Seq<char>, p: Seq<char>)
    ensures
        starts_with(s, p) <==> exists|rest: Seq<char>| s == #[trigger] (p + rest),
{
    if starts_with(s, p) {
        assert(s =~= p + s.skip(p.len() as int));
    }
    if exists|rest: Seq<char>| s == #[trigger] (p + rest) {
        let rest = choose|rest: Seq<char>| s == #[trigger] (p + rest);
        assert(s.take(p.len() as int) =~= p);
    }
}

/// Of the ASCII characters, the space and those from the tab to the carriage return are white
/// space, and no others.
pub proof fn law_ascii_white_space(c: char)
    requires
        (c as u32) < 0x80,
    ensures
        is_white_space(c) <==> c == ' ' || '\t' <= c <= '\r',
{
}

/// A trim at the front takes characters away until the first one that it does not take, and
/// keeps all the rest.
pub proof fn law_trim_front_keeps_rest(s: Seq<char>, t: Trim)
    ensures
        ({
            let r = trim_front(s, t);
            let n = s.len() - r.len();
            &&& n >= 0
            &&& r == s.skip(n)
            &&& forall|i: int| 0 <= i < n ==> t.takes(#[trigger] s[i])
            &&& r.len() > 0 ==> !t.takes(r[0])
        }),
    decreases s.len(),
{
    if s.len() > 0 && t.takes(s[0]) {
        let rest = s.drop_first();
        law_trim_front_keeps_rest(rest, t);
        let r = trim_front(s, t);
        let n = s.len() - r.len();
        assert(rest.skip(n - 1) =~= s.skip(n));
        assert forall|i: int| 0 <= i < n implies t.takes(#[trigger] s[i]) by {
            if i > 0 {
                assert(rest[i - 1] == s[i]);
            }
        }
    } else {
        assert(s.skip(0) =~= s);
    }
}

/// A trim at the back takes characters away until the last one that it does not take, and keeps
/// all before it.
pub proof fn law_trim_back_keeps_rest(s: Seq<char>, t: Trim)
    ensures
        ({
            let r = trim_back(s, t);
            &&& r.len() <= s.len()
            &&& r == s.take(r.len() as int)
            &&& forall|i: int| r.len() <= i < s.len() ==> t.takes(#[trigger] s[i])
            &&& r.len() > 0 ==> !t.takes(r.last())
        }),
    decreases s.len(),
{
    if s.len() > 0 && t.takes(s.last()) {
        let rest = s.drop_last();
        law_trim_back_keeps_rest(rest, t);
        let r = trim_back(s, t);
        assert(rest.take(r.len() as int) =~= s.take(r.len() as int));
        assert forall|i: int| r.len() <= i < s.len() implies t.takes(#[trigger] s[i]) by {
            if i < rest.len() {
                assert(rest[i] == s[i]);
            }
        }
    } else {
        assert(s.take(s.len() as int) =~= s);
    }
}

/// Whether a text holds white space only.
pub open spec fn is_blank(s: Seq<char>) -> bool {
    forall|i: int| 0 <= i < s.len() ==> is_white_space(#[trigger] s[i])
}

/// Trimming takes white space away on both sides and nothing else: what is left neither begins
/// nor ends with white space. It is what there is between the two.
pub proof fn law_trimmed_loses_only_white_space(s: Seq<char>)
    ensures
        exists|front: Seq<char>, back: Seq<char>|
            s == #[trigger] (front + trimmed(s) + back) && is_blank(front) && is_blank(back),
        trimmed(s).len() > 0 ==> !is_white_space(trimmed(s)[0]) && !is_white_space(
            trimmed(s).last(),
        ),
{
    let a = trim_front(s, Trim::Space);
    let n = s.len() - a.len();
    law_trim_front_keeps_rest(s, Trim::Space);
    law_trim_back_keeps_rest(a, Trim::Space);
    let r = trimmed(s);
    let front = s.take(n);
    let back = a.skip(r.len() as int);
    assert forall|i: int| 0 <= i < front.len() implies is_white_space(#[trigger] front[i]) by {
        assert(Trim::Space.takes(s[i]));
    }
    assert forall|i: int| 0 <= i < back.len() implies is_white_space(#[trigger] back[i]) by {
        assert(Trim::Space.takes(a[r.len() + i]));
    }
    assert(s =~= front + r + back);
    assert(r.len() > 0 ==> r[0] == a[0] && !Trim::Space.takes(a[0]));
    assert(r.len() > 0 ==> !Trim::Space.takes(r.last()));
}

/// White space around a text makes no difference to a trim, and a text without any is kept as it
/// is.
pub proof fn law_trim_ignores_white_space_around(front: Seq<char>, s: Seq<char>, back: Seq<char>)
    requires
        is_blank(front),
        is_blank(back),
        s.len() > 0 ==> !is_white_space(s[0]) && !is_white_space(s.last()),
    ensures
        trimmed(front + s + back) == s,
{
    let all = front + s + back;
    if s.len() == 0 {
        assert forall|i: int| 0 <= i < all.len() implies Trim::Space.takes(#[trigger] all[i]) by {
            if i < front.len() {
                assert(all[i] == front[i]);
            } else {
                assert(all[i] == back[i - front.len()]);
            }
        }
        lemma_trim_front(all, Trim::Space, all.len() as int);
        assert(trimmed(all) =~= s);
    } else {
        assert forall|i: int| 0 <= i < front.len() implies Trim::Space.takes(#[trigger] all[i]) by {
            assert(all[i] == front[i]);
        }
        assert(all[front.len() as int] == s[0]);
        lemma_trim_front(all, Trim::Space, front.len() as int);
        let rest = all.skip(front.len() as int);
        assert(rest =~= s + back);
        assert forall|i: int| s.len() <= i < rest.len() implies Trim::Space.takes(
            #[trigger] rest[i],
        ) by {
            assert(rest[i] == back[i - s.len()]);
        }
        assert(rest[s.len() - 1] == s.last());
        lemma_trim_back(rest, Trim::Space, s.len() as int);
        assert(rest.take(s.len() as int) =~= s);
    }
}

/// Whether a text holds neither line feeds nor carriage returns.
pub open spec fn is_one_line(s: Seq<char>) -> bool {
    forall|i: int| 0 <= i < s.len() ==> #[trigger] s[i] != '\n' && s[i] != '\r'
}

/// The first line of a text ends with its first line feed, or with a carriage return and a line
/// feed; the lines of the rest follow. A text without a line end is one line, and only the empty
/// text has none.
pub proof fn law_first_line(line: Seq<char>, rest: Seq<char>)
    requires
        is_one_line(line),
    ensures
        lines(line + seq!['\n'] + rest) == seq![line] + lines(rest),
        lines(line + seq!['\r', '\n'] + rest) == seq![line] + lines(rest),
        line.len() > 0 ==> lines(line) == seq![line],
        lines(Seq::<char>::empty()).len() == 0,
{
    let s = line + seq!['\n'] + rest;
    let n = line.len() as int;
    assert forall|i: int| 0 <= i < n implies #[trigger] s[i] != '\n' by {
        assert(s[i] == line[i]);
    }
    lemma_before(s, '\n', n);
    assert(s.take(n) =~= line);
    assert(s.skip(n + 1) =~= rest);
    assert(line.len() > 0 ==> line[line.len() - 1] != '\r');
    assert(chomped(line) == line);
    let u = line + seq!['\r', '\n'] + rest;
    assert forall|i: int| 0 <= i < n + 1 implies #[trigger] u[i] != '\n' by {
        if i < n {
            assert(u[i] == line[i]);
        }
    }
    lemma_before(u, '\n', n + 1);
    assert(u.take(n + 1) =~= line.push('\r'));
    assert(line.push('\r').drop_last() =~= line);
    assert(u.skip(n + 2) =~= rest);
    assert(u[n + 1] == '\n');
    lemma_before(line, '\n', n);
}

/// Texts that are joined stand one behind the other, with the separator between neighbours: two
/// lists of texts are joined to what their own joins give with a separator between them.
pub proof fn law_join_of_lists(a: Seq<Seq<char>>, b: Seq<Seq<char>>, s: Seq<char>, sep: Seq<char>)
    ensures
        joined(Seq::<Seq<char>>::empty(), sep).len() == 0,
        joined(seq![s], sep) == s,
        a.len() > 0 && b.len() > 0 ==> joined(a + b, sep) == joined(a, sep) + sep + joined(b, sep),
    decreases b.len(),
{
    if a.len() > 0 && b.len() == 1 {
        assert((a + b).drop_last() =~= a);
    } else if a.len() > 0 && b.len() > 1 {
        law_join_of_lists(a, b.drop_last(), s, sep);
        assert((a + b).drop_last() =~= a + b.drop_last());
        assert(joined(a + b, sep) =~= joined(a, sep) + sep + joined(b, sep));
    }
}

/// Joining lines with line feeds and taking the lines of the result gives the lines back, with or
/// without a line feed at the end; without one the last line must not be empty.
pub proof fn law_joined_lines_come_back(parts: Seq<Seq<char>>)
    requires
        parts.len() > 0,
        forall|i: int| 0 <= i < parts.len() ==> is_one_line(#[trigger] parts[i]),
    ensures
        lines(joined(parts, seq!['\n']) + seq!['\n']) == parts,
        parts.last().len() > 0 ==> lines(joined(parts, seq!['\n'])) == parts,
    decreases parts.len(),
{
    let sep = seq!['\n'];
    let first = parts[0];
    let none = Seq::<char>::empty();
    if parts.len() == 1 {
        law_first_line(first, none);
        assert(first + sep + none =~= joined(parts, sep) + sep);
        assert(seq![first] + lines(none) =~= parts);
        assert(seq![first] =~= parts);
    } else {
        let rest = parts.drop_first();
        assert forall|i: int| 0 <= i < rest.len() implies is_one_line(#[trigger] rest[i]) by {
            assert(rest[i] == parts[i + 1]);
        }
        law_joined_lines_come_back(rest);
        law_join_of_lists(seq![first], rest, first, sep);
        assert(seq![first] + rest =~= parts);
        law_first_line(first, joined(rest, sep));
        law_first_line(first, joined(rest, sep) + sep);
        assert(first + sep + (joined(rest, sep) + sep) =~= joined(parts, sep) + sep);
    }
}

/// A number below ten is written as one digit, and a further digit is written behind the others.
pub proof fn law_decimal_digits(n: nat, d: nat)
    requires
        d < 10,
    ensures
        decimal(d) == seq![(('0' as u32) + d) as char],
        n > 0 ==> decimal(10 * n + d) == decimal(n) + decimal(d),
{
    if n > 0 {
        assert((10 * n + d) / 10 == n);
        assert((10 * n + d) % 10 == d);
        assert(decimal(10 * n + d) =~= decimal(n) + decimal(d));
    }
}

/// A text that is aligned ends with the text, has spaces in front, and is as wide as was asked
/// for, or as the text where that is wider.
pub proof fn law_alignment_adds_spaces(s: Seq<char>, width: nat)
    ensures
        ({
            let r = right_aligned(s, width);
            let n = r.len() - s.len();
            &&& r.len() == if s.len() < width {
                width
            } else {
                s.len()
            }
            &&& r.skip(n) == s
            &&& forall|i: int| 0 <= i < n ==> #[trigger] r[i] == ' '
        }),
{
    let r = right_aligned(s, width);
    assert(r.skip(r.len() - s.len()) =~= s);
}

/// A text stands at a place of another exactly where that one is made of the characters before
/// the place, the text, and some more; it is contained where there is such a place.
pub proof fn law_occurrence_splits(s: Seq<char>, p: Seq<char>, front: Seq<char>, back: Seq<char>)
    ensures
        s == front + p + back ==> occurs_at(s, p, front.len() as int) && contains(s, p),
        occurs_at(s, p, front.len() as int) && front == s.take(front.len() as int) ==> s == front
            + p + s.skip((front + p).len() as int),
{
    if s == front + p + back {
        assert(s.subrange(front.len() as int, (front.len() + p.len()) as int) =~= p);
        assert(occurs_at(s, p, front.len() as int));
    }
    if occurs_at(s, p, front.len() as int) && front == s.take(front.len() as int) {
        assert(s =~= front + p + s.skip((front + p).len() as int));
    }
}

/// Going on from a later place is the same as searching what stands behind it.
proof fn lemma_find_shift(s: Seq<char>, p: Seq<char>, by: int, from: int)
    requires
        0 <= by <= s.len(),
        0 <= from,
    ensures
        find_from(s, p, by + from) == match find_from(s.skip(by), p, from) {
            Some(k) => Some(k + by),
            None => None,
        },
    decreases s.len() - by - from + 1,
{
    let t = s.skip(by);
    if by + from <= s.len() - p.len() {
        assert(t.subrange(from, from + p.len()) =~= s.subrange(by + from, by + from + p.len()));
        assert(occurs_at(t, p, from) == occurs_at(s, p, by + from));
        if !occurs_at(t, p, from) {
            lemma_find_shift(s, p, by, from + 1);
        }
    }
}

proof fn lemma_occurrences_shift(s: Seq<char>, p: Seq<char>, by: int, from: int)
    requires
        0 <= by <= s.len(),
        0 <= from,
        p.len() > 0,
    ensures
        occurrences(s, p, by + from) == occurrences(s.skip(by), p, from),
    decreases s.len() - by - from,
{
    lemma_find_shift(s, p, by, from);
    lemma_find_from(s.skip(by), p, from);
    match find_from(s.skip(by), p, from) {
        Some(k) => {
            lemma_occurrences_shift(s, p, by, k + p.len());
        },
        None => {},
    }
}

/// A text that does not occur is counted zero times. Where it occurs, its first occurrence counts
/// once, and the others are those in what stands behind it: occurrences do not overlap. The empty
/// text occurs before every character and at the end.
pub proof fn law_occurrences_are_counted(s: Seq<char>, p: Seq<char>, k: int)
    ensures
        p.len() == 0 ==> occurrences(s, p, 0) == s.len() + 1,
        p.len() > 0 && !contains(s, p) ==> occurrences(s, p, 0) == 0,
        p.len() > 0 && occurs_at(s, p, k) && (forall|j: int|
            0 <= j < k ==> !#[trigger] occurs_at(s, p, j)) ==> occurrences(s, p, 0) == 1
            + occurrences(s.skip(k + p.len()), p, 0),
{
    lemma_contains_find(s, p);
    lemma_find_from(s, p, 0);
    if p.len() > 0 && occurs_at(s, p, k) && (forall|j: int|
        0 <= j < k ==> !#[trigger] occurs_at(s, p, j)) {
        assert(find_from(s, p, 0) == Some(k));
        lemma_occurrences_shift(s, p, k + p.len(), 0);
    }
}

/// A text can be cut at a number of bytes exactly where it is no longer, or some of its
/// characters at the front take up just that many.
pub proof fn law_clean_cut(s: Seq<char>, limit: nat)
    ensures
        cuts_cleanly(s, limit as int) <==> byte_len(s) <= limit || exists|k: int|
            0 <= k <= s.len() && byte_len(#[trigger] s.take(k)) == limit,
{
    law_clipped_is_front(s, limit);
    let c = clipped(s, limit as int);
    if byte_len(s) > limit {
        if cuts_cleanly(s, limit as int) {
            assert(byte_len(s.take(c.len() as int)) == limit);
        }
        if exists|k: int| 0 <= k <= s.len() && byte_len(#[trigger] s.take(k)) == limit {
            let k = choose|k: int| 0 <= k <= s.len() && byte_len(#[trigger] s.take(k)) == limit;
            assert(k <= c.len());
            assert(c.take(k) =~= s.take(k));
            lemma_boundary(c, k);
        }
    }
}

/// Lower case changes the letters from `A` to `Z` to those from `a` to `z`, each in its place,
/// and no other character.
pub proof fn law_ascii_letters_lose_their_case(s: Seq<char>, i: int)
    requires
        0 <= i < s.len(),
    ensures
        ascii_lowered(s).len() == s.len(),
        'A' <= s[i] <= 'Z' ==> ascii_lowered(s)[i] as u32 - 'a' as u32 == s[i] as u32 - 'A' as u32,
        !('A' <= s[i] <= 'Z') ==> ascii_lowered(s)[i] == s[i],
{
}

} // verus!
