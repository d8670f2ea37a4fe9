//! Text as sequences of characters: comparison, searching, splitting, joining, padding,
//! trimming and decimal numbers, each with the spec function that says what it computes.
use vstd::prelude::*;
use vstd::utf8::*;

verus! {

/// `String::push` appends one character.
pub assume_specification[ String::push ](s: &mut String, c: char)
    ensures
        final(s)@ == old(s)@.push(c),
;

/// `String::push_str` appends the whole of `t`.
pub assume_specification[ String::push_str ](s: &mut String, t: &str)
    ensures
        final(s)@ == old(s)@ + t@,
;

/// The texts of a list of strings.
pub open spec fn texts(list: Seq<String>) -> Seq<Seq<char>> {
    Seq::new(list.len(), |i: int| list[i]@)
}

// ---------------------------------------------------------------------------------------------
// Characters and strings
// ---------------------------------------------------------------------------------------------
/// The characters of a string.
pub fn chars_of(s: &str) -> (r: Vec<char>)
    ensures
        r@ == s@,
{
    let mut out: Vec<char> = Vec::new();
    for c in it: s.chars()
        invariant
            out@ == s@.take(it.index()),
            it.seq() == s@,
    {
        out.push(c);
    }
    assert(s@.take(s@.len() as int) == s@);
    out
}

/// The string made of the characters from `from` up to `to`.
pub fn substring(cs: &Vec<char>, from: usize, to: usize) -> (r: String)
    requires
        from <= to <= cs@.len(),
    ensures
        r@ == cs@.subrange(from as int, to as int),
{
    let mut out = String::new();
    let mut i: usize = from;
    while i < to
        invariant
            from <= i <= to <= cs@.len(),
            out@ == cs@.subrange(from as int, i as int),
        decreases to - i,
    {
        out.push(cs[i]);
        i = i + 1;
        assert(cs@.subrange(from as int, i as int) == cs@.subrange(from as int, i - 1).push(
            cs@[i - 1],
        ));
    }
    out
}

/// Whether two strings are the same text.
pub fn same_text(a: &str, b: &str) -> (r: bool)
    ensures
        r == (a@ == b@),
{
    let x = a.as_bytes();
    let y = b.as_bytes();
    proof {
        vstd::utf8::encode_utf8_decode_utf8(a@);
        vstd::utf8::encode_utf8_decode_utf8(b@);
    }
    if x.len() != y.len() {
        return false;
    }
    let mut i: usize = 0;
    while i < x.len()
        invariant
            i <= x@.len(),
            x@.len() == y@.len(),
            x@ == encode_utf8(a@),
            y@ == encode_utf8(b@),
            forall|k: int| 0 <= k < i ==> x@[k] == y@[k],
        decreases x@.len() - i,
    {
        if x[i] != y[i] {
            assert(x@[i as int] != y@[i as int]);
            return false;
        }
        i = i + 1;
    }
    assert(x@ =~= y@);
    true
}

/// Whether `list` holds the text `s`.
pub fn contains_text(list: &Vec<String>, s: &str) -> (r: bool)
    ensures
        r == texts(list@).contains(s@),
{
    let mut i: usize = 0;
    while i < list.len()
        invariant
            i <= list@.len(),
            forall|k: int| 0 <= k < i ==> list@[k]@ != s@,
        decreases list@.len() - i,
    {
        if same_text(list[i].as_str(), s) {
            assert(texts(list@)[i as int] == s@);
            return true;
        }
        i = i + 1;
    }
    false
}

/// Adds a string to a list.
pub fn push_text(list: &mut Vec<String>, s: &str)
    ensures
        texts(final(list)@) == texts(old(list)@).push(s@),
{
    list.push(s.to_owned());
    assert(texts(list@) =~= texts(old(list)@).push(s@));
}

/// An empty list of strings.
pub fn no_texts() -> (r: Vec<String>)
    ensures
        texts(r@) == Seq::<Seq<char>>::empty(),
{
    let list: Vec<String> = Vec::new();
    assert(texts(list@) =~= Seq::empty());
    list
}

/// A copy of a list of strings.
pub fn copy_texts(list: &Vec<String>) -> (r: Vec<String>)
    ensures
        r@ == list@,
{
    let mut out: Vec<String> = Vec::new();
    let mut i: usize = 0;
    while i < list.len()
        invariant
            i <= list@.len(),
            out@ == list@.take(i as int),
        decreases list@.len() - i,
    {
        out.push(list[i].clone());
        i = i + 1;
    }
    assert(list@.take(list@.len() as int) == list@);
    out
}

// ---------------------------------------------------------------------------------------------
// Order
// ---------------------------------------------------------------------------------------------
/// Text order: character by character by code point, a proper prefix first.
pub open spec fn text_lt(a: Seq<char>, b: Seq<char>) -> bool
    decreases a.len(),
{
    if b.len() == 0 {
        false
    } else if a.len() == 0 {
        true
    } else if a[0] != b[0] {
        (a[0] as int) < (b[0] as int)
    } else {
        text_lt(a.drop_first(), b.drop_first())
    }
}

/// The order of lists of texts: entry by entry, a proper prefix first.
pub open spec fn list_lt(a: Seq<Seq<char>>, b: Seq<Seq<char>>) -> bool
    decreases a.len(),
{
    if b.len() == 0 {
        false
    } else if a.len() == 0 {
        true
    } else if a[0] != b[0] {
        text_lt(a[0], b[0])
    } else {
        list_lt(a.drop_first(), b.drop_first())
    }
}

pub open spec fn text_le(a: Seq<char>, b: Seq<char>) -> bool {
    a == b || text_lt(a, b)
}

/// Of two texts exactly one of these holds: they are equal, the first is less, the second is less.
pub proof fn text_order_is_total(a: Seq<char>, b: Seq<char>)
    ensures
        a == b <==> !text_lt(a, b) && !text_lt(b, a),
        !(text_lt(a, b) && text_lt(b, a)),
    decreases a.len(),
{
    if a.len() > 0 && b.len() > 0 && a[0] == b[0] {
        text_order_is_total(a.drop_first(), b.drop_first());
        assert(a =~= seq![a[0]] + a.drop_first());
        assert(b =~= seq![b[0]] + b.drop_first());
    } else if a.len() == 0 && b.len() == 0 {
        assert(a =~= b);
    } else if a.len() > 0 && b.len() > 0 {
        assert(a[0] as int != b[0] as int);
    }
}

pub proof fn text_order_is_transitive(a: Seq<char>, b: Seq<char>, c: Seq<char>)
    requires
        text_lt(a, b),
        text_lt(b, c),
    ensures
        text_lt(a, c),
    decreases a.len(),
{
    if a.len() > 0 && b.len() > 0 && c.len() > 0 && a[0] == b[0] && b[0] == c[0] {
        text_order_is_transitive(a.drop_first(), b.drop_first(), c.drop_first());
    }
}

/// Of two lists exactly one of these holds: they are equal, the first is less, the second is less.
pub proof fn list_order_is_total(a: Seq<Seq<char>>, b: Seq<Seq<char>>)
    ensures
        a == b <==> !list_lt(a, b) && !list_lt(b, a),
        !(list_lt(a, b) && list_lt(b, a)),
    decreases a.len(),
{
    if a.len() > 0 && b.len() > 0 {
        text_order_is_total(a[0], b[0]);
        if a[0] == b[0] {
            list_order_is_total(a.drop_first(), b.drop_first());
            assert(a =~= seq![a[0]] + a.drop_first());
            assert(b =~= seq![b[0]] + b.drop_first());
        }
    } else if a.len() == 0 && b.len() == 0 {
        assert(a =~= b);
    }
}

pub proof fn list_order_is_transitive(a: Seq<Seq<char>>, b: Seq<Seq<char>>, c: Seq<Seq<char>>)
    requires
        list_lt(a, b),
        list_lt(b, c),
    ensures
        list_lt(a, c),
    decreases a.len(),
{
    if a.len() > 0 && b.len() > 0 && c.len() > 0 {
        text_order_is_total(a[0], b[0]);
        text_order_is_total(b[0], c[0]);
        text_order_is_total(a[0], c[0]);
        if a[0] == b[0] && b[0] == c[0] {
            list_order_is_transitive(a.drop_first(), b.drop_first(), c.drop_first());
        } else if a[0] != b[0] && b[0] != c[0] {
            text_order_is_transitive(a[0], b[0], c[0]);
        }
    }
}

/// The code point of a character.
pub fn code_point(c: char) -> (r: u32)
    ensures
        r as int == c as int,
{
    c as u32
}

/// Whether `a` comes before `b` in text order.
pub fn text_before(a: &Vec<char>, b: &Vec<char>) -> (r: bool)
    ensures
        r == text_lt(a@, b@),
{
    let mut i: usize = 0;
    assert(a@.skip(0) == a@);
    assert(b@.skip(0) == b@);
    while i < a.len() && i < b.len()
        invariant
            i <= a@.len(),
            i <= b@.len(),
            text_lt(a@, b@) == text_lt(a@.skip(i as int), b@.skip(i as int)),
        decreases a@.len() - i,
    {
        if a[i] != b[i] {
            return code_point(a[i]) < code_point(b[i]);
        }
        assert(a@.skip(i as int).drop_first() == a@.skip(i + 1));
        assert(b@.skip(i as int).drop_first() == b@.skip(i + 1));
        i = i + 1;
    }
    i < b.len()
}

// ---------------------------------------------------------------------------------------------
// Searching and splitting
// ---------------------------------------------------------------------------------------------
/// The position of the first `c` in `s`, or the length of `s` where there is none.
pub open spec fn find(s: Seq<char>, c: char) -> int
    decreases s.len(),
{
    if s.len() == 0 || s[0] == c {
        0
    } else {
        1 + find(s.drop_first(), c)
    }
}

/// Everything before the first `c` differs from `c`, and what stands there is `c`.
pub proof fn find_is_first(s: Seq<char>, c: char)
    ensures
        0 <= find(s, c) <= s.len(),
        forall|k: int| 0 <= k < find(s, c) ==> s[k] != c,
        find(s, c) < s.len() ==> s[find(s, c)] == c,
        find(s, c) < s.len() <==> s.contains(c),
    decreases s.len(),
{
    if s.len() > 0 && s[0] != c {
        find_is_first(s.drop_first(), c);
        let n = find(s.drop_first(), c);
        assert forall|k: int| 0 <= k < find(s, c) implies s[k] != c by {
            if k > 0 {
                assert(s.drop_first()[k - 1] == s[k]);
            }
        }
        if n < s.drop_first().len() {
            assert(s.drop_first()[n] == s[n + 1]);
            assert(s[find(s, c)] == c);
        }
        if s.contains(c) {
            let k = choose|k: int| 0 <= k < s.len() && s[k] == c;
            assert(s.drop_first()[k - 1] == c);
            assert(s.drop_first().contains(c));
        }
    } else if s.len() > 0 {
        assert(s[0] == c);
    }
}

/// The first position of a character is the only one with none of it before and itself there.
pub proof fn find_is_unique(s: Seq<char>, c: char, n: int)
    requires
        0 <= n <= s.len(),
        forall|k: int| 0 <= k < n ==> s[k] != c,
        n < s.len() ==> s[n] == c,
    ensures
        find(s, c) == n,
{
    find_is_first(s, c);
    if find(s, c) < n {
        assert(s[find(s, c)] == c);
    }
}

/// What stands before the first `c`, or everything where there is none.
pub open spec fn first_part(s: Seq<char>, c: char) -> Seq<char> {
    s.take(find(s, c))
}

/// The text before the first separator and the text after it; nothing where there is none.
pub open spec fn split_at_first(s: Seq<char>, sep: char) -> Option<(Seq<char>, Seq<char>)> {
    if find(s, sep) < s.len() {
        Some((s.take(find(s, sep)), s.skip(find(s, sep) + 1)))
    } else {
        None
    }
}

/// The pieces of `s` between separators: one more than there are separators.
pub open spec fn split_all(s: Seq<char>, sep: char) -> Seq<Seq<char>>
    decreases s.len(),
    via split_all_decreases
{
    if find(s, sep) < s.len() {
        seq![s.take(find(s, sep))] + split_all(s.skip(find(s, sep) + 1), sep)
    } else {
        seq![s]
    }
}

#[via_fn]
proof fn split_all_decreases(s: Seq<char>, sep: char) {
    find_is_first(s, sep);
}

/// The position of the first `c` in `s` at or after `from`, or the length of `s`.
pub fn find_from(s: &Vec<char>, c: char, from: usize) -> (r: usize)
    requires
        from <= s@.len(),
    ensures
        from <= r <= s@.len(),
        r - from == find(s@.skip(from as int), c),
{
    let mut i: usize = from;
    while i < s.len()
        invariant
            from <= i <= s@.len(),
            forall|k: int| from <= k < i ==> s@[k] != c,
        decreases s@.len() - i,
    {
        if s[i] == c {
            proof {
                find_is_unique(s@.skip(from as int), c, i - from);
            }
            return i;
        }
        i = i + 1;
    }
    proof {
        find_is_unique(s@.skip(from as int), c, i - from);
    }
    i
}

/// The text before the first separator and the text after it.
pub fn split_once(s: &str, sep: char) -> (r: Option<(String, String)>)
    ensures
        match (r, split_at_first(s@, sep)) {
            (Some(pair), Some(parts)) => pair.0@ == parts.0 && pair.1@ == parts.1,
            (None, None) => true,
            _ => false,
        },
{
    let cs = chars_of(s);
    let i = find_from(&cs, sep, 0);
    assert(s@.skip(0) == s@);
    if i < cs.len() {
        let head = substring(&cs, 0, i);
        let tail = substring(&cs, i + 1, cs.len());
        assert(tail@ == s@.skip(i + 1));
        assert(head@ == s@.take(i as int));
        Some((head, tail))
    } else {
        None
    }
}

/// The pieces of `s` between separators.
pub fn split(s: &str, sep: char) -> (r: Vec<String>)
    ensures
        texts(r@) == split_all(s@, sep),
{
    let cs = chars_of(s);
    let mut out: Vec<String> = Vec::new();
    let mut from: usize = 0;
    assert(s@.skip(0) == s@);
    assert(texts(out@) + split_all(s@, sep) == split_all(s@, sep));
    loop
        invariant
            cs@ == s@,
            from <= s@.len(),
            texts(out@) + split_all(s@.skip(from as int), sep) == split_all(s@, sep),
        decreases s@.len() - from,
    {
        let i = find_from(&cs, sep, from);
        let ghost rest = s@.skip(from as int);
        let ghost before = out@;
        let piece = substring(&cs, from, i);
        assert(piece@ == rest.take(i - from));
        out.push(piece);
        assert(texts(out@) == texts(before).push(piece@));
        if i < cs.len() {
            assert(rest.skip(i - from + 1) == s@.skip(i + 1));
            assert(texts(before) + (seq![piece@] + split_all(s@.skip(i + 1), sep)) == texts(out@)
                + split_all(s@.skip(i + 1), sep));
            from = i + 1;
        } else {
            assert(rest.take(i - from) == rest);
            assert(texts(before) + seq![rest] == texts(out@));
            return out;
        }
    }
}

/// Whether `s` begins with `prefix`.
pub open spec fn begins_with(s: Seq<char>, prefix: Seq<char>) -> bool {
    prefix.len() <= s.len() && s.take(prefix.len() as int) == prefix
}

/// Whether `s` begins with `prefix`.
pub fn starts_with(s: &Vec<char>, prefix: &str) -> (r: bool)
    ensures
        r == begins_with(s@, prefix@),
{
    let p = chars_of(prefix);
    if p.len() > s.len() {
        return false;
    }
    let mut i: usize = 0;
    while i < p.len()
        invariant
            i <= p@.len() <= s@.len(),
            p@ == prefix@,
            forall|k: int| 0 <= k < i ==> s@[k] == p@[k],
        decreases p@.len() - i,
    {
        if s[i] != p[i] {
            assert(s@.take(prefix@.len() as int)[i as int] != prefix@[i as int]);
            return false;
        }
        i = i + 1;
    }
    assert(s@.take(prefix@.len() as int) =~= prefix@);
    true
}

// ---------------------------------------------------------------------------------------------
// Joining and padding
// ---------------------------------------------------------------------------------------------
/// The texts of `list` with `sep` between each two.
pub open spec fn joined(list: Seq<Seq<char>>, sep: Seq<char>) -> Seq<char>
    decreases list.len(),
{
    if list.len() == 0 {
        Seq::empty()
    } else if list.len() == 1 {
        list[0]
    } else {
        joined(list.drop_last(), sep) + sep + list.last()
    }
}

/// The strings of `list` with `sep` between each two.
pub fn join(list: &Vec<String>, sep: &str) -> (r: String)
    ensures
        r@ == joined(texts(list@), sep@),
{
    let mut out = String::new();
    let mut i: usize = 0;
    while i < list.len()
        invariant
            i <= list@.len(),
            out@ == joined(texts(list@.take(i as int)), sep@),
        decreases list@.len() - i,
    {
        let ghost so_far = texts(list@.take(i + 1));
        assert(so_far.drop_last() =~= texts(list@.take(i as int)));
        assert(so_far.last() == list@[i as int]@);
        if i > 0 {
            out.push_str(sep);
        }
        out.push_str(list[i].as_str());
        assert(out@ =~= joined(so_far, sep@));
        i = i + 1;
    }
    assert(list@.take(list@.len() as int) == list@);
    out
}

/// `n` copies of `c`.
pub open spec fn repeated(c: char, n: int) -> Seq<char> {
    Seq::new(if n > 0 { n as nat } else { 0 }, |i: int| c)
}

/// `s` followed by as many `c` as bring it to `width` characters.
pub open spec fn padded_right(s: Seq<char>, width: int, c: char) -> Seq<char> {
    s + repeated(c, width - s.len())
}

/// `s` after as many `c` as bring it to `width` characters.
pub open spec fn padded_left(s: Seq<char>, width: int, c: char) -> Seq<char> {
    repeated(c, width - s.len()) + s
}

/// `n` copies of `c`.
pub fn repeat(c: char, n: usize) -> (r: String)
    ensures
        r@ == repeated(c, n as int),
{
    let mut out = String::new();
    let mut i: usize = 0;
    while i < n
        invariant
            i <= n,
            out@ == repeated(c, i as int),
        decreases n - i,
    {
        out.push(c);
        i = i + 1;
        assert(out@ =~= repeated(c, i as int));
    }
    out
}

/// The number of characters of a string.
pub fn char_count(s: &str) -> (r: usize)
    ensures
        r == s@.len(),
{
    chars_of(s).len()
}

/// `s` padded on the right with spaces to `width` characters.
pub fn pad_right(s: &str, width: usize) -> (r: String)
    ensures
        r@ == padded_right(s@, width as int, ' '),
{
    let n = char_count(s);
    let mut out = s.to_owned();
    if n < width {
        out.push_str(repeat(' ', width - n).as_str());
    }
    assert(out@ =~= padded_right(s@, width as int, ' '));
    out
}

/// `s` padded on the left with `c` to `width` characters.
pub fn pad_left(s: &str, width: usize, c: char) -> (r: String)
    ensures
        r@ == padded_left(s@, width as int, c),
{
    let n = char_count(s);
    let mut out = if n < width {
        repeat(c, width - n)
    } else {
        String::new()
    };
    out.push_str(s);
    assert(out@ =~= padded_left(s@, width as int, c));
    out
}

// ---------------------------------------------------------------------------------------------
// Occurrences
// ---------------------------------------------------------------------------------------------
/// Whether a text occurs in another one.
pub open spec fn occurs(part: Seq<char>, whole: Seq<char>) -> bool {
    exists|k: int|
        0 <= k <= whole.len() - part.len() && #[trigger] whole.subrange(k, k + part.len()) == part
}

/// A text occurs in any text that it is put together with others to.
pub proof fn parts_occur(before: Seq<char>, part: Seq<char>, after: Seq<char>)
    ensures
        occurs(part, before + part + after),
{
    let whole = before + part + after;
    let k = before.len() as int;
    assert(whole.subrange(k, k + part.len()) =~= part);
}

/// What occurs in a text that occurs in another one occurs in that one too.
pub proof fn occurrences_nest(part: Seq<char>, middle: Seq<char>, whole: Seq<char>)
    requires
        occurs(part, middle),
        occurs(middle, whole),
    ensures
        occurs(part, whole),
{
    let k = choose|k: int|
        0 <= k <= middle.len() - part.len() && #[trigger] middle.subrange(k, k + part.len())
            == part;
    let m = choose|m: int|
        0 <= m <= whole.len() - middle.len() && #[trigger] whole.subrange(m, m + middle.len())
            == middle;
    let at = m + k;
    assert(whole.subrange(at, at + part.len()) =~= middle.subrange(k, k + part.len()));
}

/// Every text of a list occurs in the joined list.
pub proof fn joined_texts_occur(list: Seq<Seq<char>>, sep: Seq<char>, i: int)
    requires
        0 <= i < list.len(),
    ensures
        occurs(list[i], joined(list, sep)),
    decreases list.len(),
{
    let none = Seq::<char>::empty();
    let last = list.last();
    if list.len() == 1 {
        parts_occur(none, last, none);
        assert(none + last + none =~= joined(list, sep));
    } else {
        let front = joined(list.drop_last(), sep);
        assert(joined(list, sep) =~= front + sep + last);
        if i == list.len() - 1 {
            parts_occur(front + sep, last, none);
            assert(front + sep + last + none =~= joined(list, sep));
        } else {
            joined_texts_occur(list.drop_last(), sep, i);
            parts_occur(none, front, sep + last);
            assert(none + front + (sep + last) =~= joined(list, sep));
            occurrences_nest(list[i], front, joined(list, sep));
        }
    }
}

// ---------------------------------------------------------------------------------------------
// Trimming
// ---------------------------------------------------------------------------------------------
/// The characters with the Unicode property White_Space.
pub open spec fn is_white_space(c: char) -> bool {
    let n = c as int;
    ||| 0x9 <= n <= 0xd
    ||| n == 0x20
    ||| n == 0x85
    ||| n == 0xa0
    ||| n == 0x1680
    ||| 0x2000 <= n <= 0x200a
    ||| n == 0x2028
    ||| n == 0x2029
    ||| n == 0x202f
    ||| n == 0x205f
    ||| n == 0x3000
}

/// Whether a character has the Unicode property White_Space.
pub fn white_space(c: char) -> (r: bool)
    ensures
        r == is_white_space(c),
{
    let n = code_point(c);
    (0x9 <= n && n <= 0xd) || n == 0x20 || n == 0x85 || n == 0xa0 || n == 0x1680 || (0x2000 <= n
        && n <= 0x200a) || n == 0x2028 || n == 0x2029 || n == 0x202f || n == 0x205f || n == 0x3000
}

/// `s` without the white space at its end.
pub open spec fn trimmed_end(s: Seq<char>) -> Seq<char>
    decreases s.len(),
{
    if s.len() > 0 && is_white_space(s.last()) {
        trimmed_end(s.drop_last())
    } else {
        s
    }
}

/// `s` without the white space at its beginning.
pub open spec fn trimmed_start(s: Seq<char>) -> Seq<char>
    decreases s.len(),
{
    if s.len() > 0 && is_white_space(s[0]) {
        trimmed_start(s.drop_first())
    } else {
        s
    }
}

/// `s` without the white space at its beginning and at its end.
pub open spec fn trimmed(s: Seq<char>) -> Seq<char> {
    trimmed_end(trimmed_start(s))
}

/// `s` without the white space at its beginning and at its end.
pub fn trim(s: &str) -> (r: String)
    ensures
        r@ == trimmed(s@),
{
    let cs = chars_of(s);
    let mut from: usize = 0;
    assert(s@.skip(0) == s@);
    while from < cs.len() && white_space(cs[from])
        invariant
            cs@ == s@,
            from <= s@.len(),
            trimmed_start(s@) == trimmed_start(s@.skip(from as int)),
        decreases s@.len() - from,
    {
        assert(s@.skip(from as int).drop_first() == s@.skip(from + 1));
        from = from + 1;
    }
    let mut to: usize = cs.len();
    assert(s@.skip(from as int) == s@.subrange(from as int, to as int));
    while from < to && white_space(cs[to - 1])
        invariant
            cs@ == s@,
            from <= to <= s@.len(),
            trimmed(s@) == trimmed_end(s@.subrange(from as int, to as int)),
        decreases to,
    {
        assert(s@.subrange(from as int, to as int).drop_last() == s@.subrange(from as int, to - 1));
        to = to - 1;
    }
    substring(&cs, from, to)
}

// ---------------------------------------------------------------------------------------------
// Numbers
// ---------------------------------------------------------------------------------------------
/// The decimal digit of a number below ten.
pub open spec fn digit(d: nat) -> char {
    (48 + d) as char
}

/// A number in decimal, without leading zeros.
pub open spec fn decimal(n: nat) -> Seq<char>
    decreases n,
{
    if n < 10 {
        seq![digit(n)]
    } else {
        decimal(n / 10).push(digit(n % 10))
    }
}

/// Whether a character is one of the ten ASCII digits.
pub open spec fn is_digit(c: char) -> bool {
    48 <= c as int <= 57
}

/// Whether a text is one or more ASCII digits.
pub open spec fn is_digits(s: Seq<char>) -> bool {
    s.len() > 0 && forall|k: int| 0 <= k < s.len() ==> is_digit(#[trigger] s[k])
}

/// The number that a row of digits stands for.
pub open spec fn digits_value(s: Seq<char>) -> int
    decreases s.len(),
{
    if s.len() == 0 {
        0
    } else {
        digits_value(s.drop_last()) * 10 + (s.last() as int - 48)
    }
}

/// What an unsigned number is read from: digits, with one plus sign allowed before them.
pub open spec fn unsigned_digits(s: Seq<char>) -> Seq<char> {
    if s.len() > 0 && s[0] == '+' {
        s.skip(1)
    } else {
        s
    }
}

/// The number below 2^64 that a text stands for, if it is one.
pub open spec fn parsed_u64(s: Seq<char>) -> Option<u64> {
    let body = unsigned_digits(s);
    if is_digits(body) && digits_value(body) <= u64::MAX {
        Some(digits_value(body) as u64)
    } else {
        None
    }
}

/// A number in decimal is a row of digits that stands for that number.
pub proof fn decimal_is_digits(n: nat)
    ensures
        is_digits(decimal(n)),
        digits_value(decimal(n)) == n,
    decreases n,
{
    if n < 10 {
        assert(decimal(n).drop_last() =~= Seq::empty());
        reveal_with_fuel(digits_value, 2);
    } else {
        decimal_is_digits(n / 10);
        assert(decimal(n).drop_last() =~= decimal(n / 10));
        assert forall|k: int| 0 <= k < decimal(n).len() implies is_digit(#[trigger] decimal(n)[k]) by {
            if k < decimal(n / 10).len() {
                assert(decimal(n)[k] == decimal(n / 10)[k]);
            }
        }
    }
}

/// Reading back a number written in decimal gives that number.
pub proof fn parse_reads_back_decimal(n: u64)
    ensures
        parsed_u64(decimal(n as nat)) == Some(n),
{
    decimal_is_digits(n as nat);
    assert(is_digit(decimal(n as nat)[0]));
}

proof fn digits_value_grows(s: Seq<char>, k: int)
    requires
        is_digits(s),
        0 <= k <= s.len(),
    ensures
        0 <= digits_value(s.take(k)) <= digits_value(s),
    decreases s.len(),
{
    if k == s.len() {
        assert(s.take(k) == s);
        if s.len() > 1 {
            digits_value_grows(s.drop_last(), s.len() - 1);
        } else {
            reveal_with_fuel(digits_value, 2);
        }
        assert(is_digit(s.last()));
    } else if s.len() > 1 {
        digits_value_grows(s.drop_last(), k);
        assert(s.drop_last().take(k) == s.take(k));
        assert(is_digit(s.last()));
    } else {
        assert(s.take(0) =~= Seq::empty());
        reveal_with_fuel(digits_value, 2);
        assert(is_digit(s.last()));
    }
}

/// A number in decimal.
pub fn decimal_of(n: u128) -> (r: String)
    ensures
        r@ == decimal(n as nat),
    decreases n,
{
    let last = (48u8 + (n % 10) as u8) as char;
    let mut out = if n < 10 {
        String::new()
    } else {
        decimal_of(n / 10)
    };
    out.push(last);
    assert(out@ =~= decimal(n as nat));
    out
}

/// A number in decimal with at least two digits.
pub fn two_digits(n: u64) -> (r: String)
    ensures
        r@ == padded_left(decimal(n as nat), 2, '0'),
{
    pad_left(decimal_of(n as u128).as_str(), 2, '0')
}

/// The number below 2^64 that a text stands for, if it is one.
pub fn parse_u64(s: &str) -> (r: Option<u64>)
    ensures
        r == parsed_u64(s@),
{
    let cs = chars_of(s);
    let from: usize = if cs.len() > 0 && cs[0] == '+' {
        1
    } else {
        0
    };
    let ghost body = unsigned_digits(s@);
    assert(body == s@.skip(from as int));
    if from == cs.len() {
        return None;
    }
    let mut value: u64 = 0;
    let mut i: usize = from;
    assert(body.take(0) =~= Seq::empty());
    while i < cs.len()
        invariant
            from <= i <= cs@.len(),
            cs@ == s@,
            body == s@.skip(from as int),
            body == unsigned_digits(s@),
            body.len() > 0,
            forall|k: int| 0 <= k < i - from ==> is_digit(#[trigger] body[k]),
            value == digits_value(body.take(i - from)),
        decreases cs@.len() - i,
    {
        let n = code_point(cs[i]);
        assert(body[i - from] == cs@[i as int]);
        if n < 48 || n > 57 {
            assert(!is_digit(body[i - from]));
            return None;
        }
        let d: u64 = (n - 48) as u64;
        assert(body.take(i - from + 1).drop_last() == body.take(i - from));
        if value > (u64::MAX - d) / 10 {
            proof {
                if is_digits(body) {
                    digits_value_grows(body, i - from + 1);
                }
            }
            return None;
        }
        value = value * 10 + d;
        i = i + 1;
    }
    assert(body.take(body.len() as int) == body);
    Some(value)
}

// ---------------------------------------------------------------------------------------------
// ASCII case
// ---------------------------------------------------------------------------------------------
/// `c` with an ASCII capital letter turned into its small letter.
pub open spec fn ascii_lower(c: char) -> char {
    if 65 <= c as int <= 90 {
        (c as int + 32) as char
    } else {
        c
    }
}

/// A text with its ASCII capital letters turned into small letters.
pub open spec fn ascii_lowered(s: Seq<char>) -> Seq<char> {
    Seq::new(s.len(), |i: int| ascii_lower(s[i]))
}

/// A text with its ASCII capital letters turned into small letters.
pub fn ascii_lowercase(s: &str) -> (r: String)
    ensures
        r@ == ascii_lowered(s@),
{
    let cs = chars_of(s);
    let mut out = String::new();
    let mut i: usize = 0;
    while i < cs.len()
        invariant
            i <= cs@.len(),
            cs@ == s@,
            out@ == ascii_lowered(s@).take(i as int),
        decreases cs@.len() - i,
    {
        let n = code_point(cs[i]);
        if 65 <= n && n <= 90 {
            out.push((n as u8 + 32) as char);
        } else {
            out.push(cs[i]);
        }
        i = i + 1;
        assert(ascii_lowered(s@).take(i as int) =~= ascii_lowered(s@).take(i - 1).push(
            ascii_lowered(s@)[i - 1],
        ));
    }
    assert(ascii_lowered(s@).take(s@.len() as int) =~= ascii_lowered(s@));
    out
}

/// Lower case changes nothing but the capital letters of ASCII, and does so one by one.
pub proof fn lowering_keeps_the_length(s: Seq<char>, k: int)
    requires
        0 <= k < s.len(),
    ensures
        ascii_lowered(s).len() == s.len(),
        65 <= s[k] as int <= 90 ==> ascii_lowered(s)[k] as int == s[k] as int + 32,
        !(65 <= s[k] as int <= 90) ==> ascii_lowered(s)[k] == s[k],
{
}

/// Trimming takes white space away from both ends and nothing else: what is left neither begins nor
/// ends with any.
pub proof fn trimming_takes_white_space(s: Seq<char>) -> (cut: (int, int))
    ensures
        0 <= cut.0 <= cut.1 <= s.len(),
        trimmed(s) == s.subrange(cut.0, cut.1),
        forall|k: int| 0 <= k < cut.0 || cut.1 <= k < s.len() ==> is_white_space(#[trigger] s[k]),
        trimmed(s).len() > 0 ==> !is_white_space(trimmed(s)[0]) && !is_white_space(
            trimmed(s).last(),
        ),
{
    let from = trimming_at_the_start(s);
    let rest = trimmed_start(s);
    let to = trimming_at_the_end(rest);
    assert(trimmed(s) =~= s.subrange(from, from + to));
    assert forall|k: int| 0 <= k < from || from + to <= k < s.len() implies is_white_space(
        #[trigger] s[k],
    ) by {
        if k >= from + to {
            assert(is_white_space(rest[k - from]));
        }
    }
    if trimmed(s).len() > 0 {
        assert(trimmed(s)[0] == rest[0]);
    }
    (from, from + to)
}

proof fn trimming_at_the_start(s: Seq<char>) -> (from: int)
    ensures
        0 <= from <= s.len(),
        trimmed_start(s) == s.skip(from),
        forall|k: int| 0 <= k < from ==> is_white_space(#[trigger] s[k]),
        trimmed_start(s).len() > 0 ==> !is_white_space(trimmed_start(s)[0]),
    decreases s.len(),
{
    if s.len() > 0 && is_white_space(s[0]) {
        let rest = s.drop_first();
        let from = trimming_at_the_start(rest);
        assert(rest.skip(from) =~= s.skip(from + 1));
        assert forall|k: int| 0 <= k < from + 1 implies is_white_space(#[trigger] s[k]) by {
            if k > 0 {
                assert(is_white_space(rest[k - 1]));
            }
        }
        from + 1
    } else {
        assert(s.skip(0) =~= s);
        0
    }
}

proof fn trimming_at_the_end(s: Seq<char>) -> (to: int)
    ensures
        0 <= to <= s.len(),
        trimmed_end(s) == s.take(to),
        forall|k: int| to <= k < s.len() ==> is_white_space(#[trigger] s[k]),
        trimmed_end(s).len() > 0 ==> !is_white_space(trimmed_end(s).last()),
    decreases s.len(),
{
    if s.len() > 0 && is_white_space(s.last()) {
        let front = s.drop_last();
        let to = trimming_at_the_end(front);
        assert(front.take(to) =~= s.take(to));
        assert forall|k: int| to <= k < s.len() implies is_white_space(#[trigger] s[k]) by {
            if k < front.len() {
                assert(is_white_space(front[k]));
            }
        }
        to
    } else {
        assert(s.take(s.len() as int) =~= s);
        s.len() as int
    }
}

/// A padded text is the text with padding on one side, and at least as wide as is asked for; one
/// that is wide enough stays as it is.
pub proof fn padding_fills_up(s: Seq<char>, width: int, c: char)
    requires
        0 <= width,
    ensures
        s.len() >= width ==> padded_left(s, width, c) == s && padded_right(s, width, c) == s,
        s.len() < width ==> padded_left(s, width, c).len() == width && padded_right(
            s,
            width,
            c,
        ).len() == width,
        padded_right(s, width, c).take(s.len() as int) == s,
        padded_left(s, width, c).skip(padded_left(s, width, c).len() - s.len()) == s,
        forall|k: int|
            0 <= k < padded_left(s, width, c).len() - s.len() ==> #[trigger] padded_left(
                s,
                width,
                c,
            )[k] == c,
        forall|k: int|
            s.len() <= k < padded_right(s, width, c).len() ==> #[trigger] padded_right(
                s,
                width,
                c,
            )[k] == c,
{
    assert(padded_right(s, width, c).take(s.len() as int) =~= s);
    assert(padded_left(s, width, c).skip(padded_left(s, width, c).len() - s.len()) =~= s);
    if s.len() >= width {
        assert(padded_left(s, width, c) =~= s);
        assert(padded_right(s, width, c) =~= s);
    }
}

/// Joining the pieces of a text gives the text again, and no piece holds the separator.
pub proof fn splitting_loses_nothing(s: Seq<char>, sep: char, i: int)
    requires
        0 <= i < split_all(s, sep).len(),
    ensures
        joined(split_all(s, sep), seq![sep]) == s,
        !split_all(s, sep)[i].contains(sep),
    decreases s.len(),
{
    find_is_first(s, sep);
    let n = find(s, sep);
    let pieces = split_all(s, sep);
    if n < s.len() {
        let rest = s.skip(n + 1);
        let more = split_all(rest, sep);
        splitting_loses_nothing(rest, sep, if i > 0 {
            i - 1
        } else {
            0
        });
        joined_with_a_head(s.take(n), more, seq![sep]);
        assert(s =~= s.take(n) + seq![sep] + rest);
        if i > 0 {
            assert(pieces[i] == more[i - 1]);
        }
    } else {
        assert(joined(pieces, seq![sep]) == pieces[0]);
    }
}

proof fn joined_with_a_head(head: Seq<char>, list: Seq<Seq<char>>, sep: Seq<char>)
    requires
        list.len() > 0,
    ensures
        joined(seq![head] + list, sep) == head + sep + joined(list, sep),
    decreases list.len(),
{
    let all = seq![head] + list;
    if list.len() == 1 {
        assert(all.drop_last() =~= seq![head]);
        assert(joined(seq![head], sep) == head);
        assert(joined(list, sep) == list[0]);
        assert(all.last() == list[0]);
    } else {
        joined_with_a_head(head, list.drop_last(), sep);
        assert(all.drop_last() =~= seq![head] + list.drop_last());
        assert(all.last() == list.last());
        assert(joined(all, sep) =~= head + sep + joined(list, sep));
    }
}

/// Only digits, with at most one plus sign before them, are a number.
pub proof fn numbers_are_digits(s: Seq<char>, k: int)
    requires
        parsed_u64(s) is Some,
        0 <= k < s.len(),
    ensures
        48 <= s[k] as int <= 57 || (k == 0 && s[0] == '+' && s.len() > 1),
{
    let body = unsigned_digits(s);
    if s[0] == '+' {
        if k > 0 {
            assert(is_digit(body[k - 1]));
        }
    } else {
        assert(is_digit(body[k]));
    }
}

/// Whatever white space stands around a text that neither begins nor ends with any, trimming gives
/// that text.
pub proof fn trimming_finds_the_text(before: Seq<char>, middle: Seq<char>, after: Seq<char>)
    requires
        forall|k: int| 0 <= k < before.len() ==> is_white_space(#[trigger] before[k]),
        forall|k: int| 0 <= k < after.len() ==> is_white_space(#[trigger] after[k]),
        middle.len() > 0 ==> !is_white_space(middle[0]) && !is_white_space(middle.last()),
    ensures
        trimmed(before + middle + after) == middle,
{
    let whole = before + middle + after;
    let cut = trimming_takes_white_space(whole);
    let from = before.len() as int;
    let to = from + middle.len();
    if middle.len() > 0 {
        assert(whole[from] == middle[0]);
        assert(whole[to - 1] == middle.last());
        assert(cut.0 <= from && to <= cut.1);
        if cut.0 < from {
            assert(whole[cut.0] == before[cut.0]);
            assert(trimmed(whole)[0] == whole[cut.0]);
        }
        if to < cut.1 {
            assert(whole[cut.1 - 1] == after[cut.1 - 1 - to]);
            assert(trimmed(whole).last() == whole[cut.1 - 1]);
        }
        assert(whole.subrange(from, to) =~= middle);
    } else if cut.0 < cut.1 {
        assert(trimmed(whole)[0] == whole[cut.0]);
        if cut.0 < from {
            assert(whole[cut.0] == before[cut.0]);
        } else {
            assert(whole[cut.0] == after[cut.0 - from]);
        }
    } else {
        assert(trimmed(whole) =~= middle);
    }
}

/// Texts are ordered by the first character in which they differ, whatever follows it and however long
/// they are; a text comes before every longer one that begins with it.
pub proof fn first_difference_decides(
    same: Seq<char>,
    c: char,
    d: char,
    a: Seq<char>,
    b: Seq<char>,
)
    requires
        (c as int) < (d as int),
    ensures
        text_lt(same + seq![c] + a, same + seq![d] + b),
        !text_lt(same + seq![d] + b, same + seq![c] + a),
        text_lt(same, same + seq![c] + a),
        !text_lt(same + seq![c] + a, same),
        !text_lt(same, same),
    decreases same.len(),
{
    let x = same + seq![c] + a;
    let y = same + seq![d] + b;
    if same.len() > 0 {
        let rest = same.drop_first();
        first_difference_decides(rest, c, d, a, b);
        assert(x.drop_first() =~= rest + seq![c] + a);
        assert(y.drop_first() =~= rest + seq![d] + b);
    }
}

/// Lists are ordered by the first entry in which they differ, however long they are; a list comes
/// before every longer one that begins with it.
pub proof fn first_different_entry_decides(
    same: Seq<Seq<char>>,
    c: Seq<char>,
    d: Seq<char>,
    a: Seq<Seq<char>>,
    b: Seq<Seq<char>>,
)
    requires
        text_lt(c, d),
    ensures
        list_lt(same + seq![c] + a, same + seq![d] + b),
        !list_lt(same + seq![d] + b, same + seq![c] + a),
        list_lt(same, same + seq![c] + a),
        !list_lt(same + seq![c] + a, same),
        !list_lt(same, same),
    decreases same.len(),
{
    let x = same + seq![c] + a;
    let y = same + seq![d] + b;
    text_order_is_total(c, d);
    if same.len() > 0 {
        let rest = same.drop_first();
        first_different_entry_decides(rest, c, d, a, b);
        assert(x.drop_first() =~= rest + seq![c] + a);
        assert(y.drop_first() =~= rest + seq![d] + b);
    }
}

/// A number can be read with a plus sign before it and with zeros before its digits, and one that does
/// not fit is no number.
pub proof fn numbers_are_read_with_signs_and_zeros(n: u64, large: nat)
    requires
        large > u64::MAX,
    ensures
        parsed_u64(seq!['+'] + decimal(n as nat)) == Some(n),
        parsed_u64(seq!['0'] + decimal(n as nat)) == Some(n),
        parsed_u64(decimal(large)) is None,
        parsed_u64(Seq::empty()) is None,
{
    let s = decimal(n as nat);
    decimal_is_digits(n as nat);
    decimal_is_digits(large);
    assert((seq!['+'] + s).skip(1) =~= s);
    assert(is_digit(decimal(large)[0]));
    let zero = seq!['0'] + s;
    assert forall|k: int| 0 <= k < zero.len() implies is_digit(#[trigger] zero[k]) by {
        if k > 0 {
            assert(is_digit(s[k - 1]));
        }
    }
    leading_zeros_count_nothing(s);
}

proof fn leading_zeros_count_nothing(s: Seq<char>)
    ensures
        digits_value(seq!['0'] + s) == digits_value(s),
    decreases s.len(),
{
    let zero = seq!['0'] + s;
    if s.len() == 0 {
        assert(zero.drop_last() =~= Seq::empty());
        reveal_with_fuel(digits_value, 2);
    } else {
        leading_zeros_count_nothing(s.drop_last());
        assert(zero.drop_last() =~= seq!['0'] + s.drop_last());
    }
}

} // verus!
