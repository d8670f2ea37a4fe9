//! Lists as they are shown to people.
use vstd::prelude::*;

use crate::outside;
use crate::text;

verus! {

/// Texts in square brackets with commas between them.
pub open spec fn bracketed(list: Seq<Seq<char>>) -> Seq<char> {
    "["@ + text::joined(list, ", "@) + "]"@
}

/// A list of texts as `{:?}` writes it.
pub open spec fn debug_list(list: Seq<Seq<char>>) -> Seq<char> {
    bracketed(Seq::new(list.len(), |i: int| outside::debug_text(list[i])))
}

/// Whether it is known of the plain ASCII texts of a list that `{:?}` puts them in double quotes.
pub open spec fn plain_are_known(list: Seq<Seq<char>>) -> bool {
    forall|i: int|
        0 <= i < list.len() && outside::is_plain(#[trigger] list[i]) ==> outside::debug_text(list[i])
            == outside::quoted(list[i])
}

/// A text occurs in itself in double quotes.
pub proof fn quoted_texts_occur(s: Seq<char>)
    ensures
        text::occurs(s, outside::quoted(s)),
{
    text::parts_occur(seq!['"'], s, seq!['"']);
}

/// Every text of a list occurs in the list in square brackets.
pub proof fn bracketed_texts_occur(list: Seq<Seq<char>>, i: int)
    requires
        0 <= i < list.len(),
    ensures
        text::occurs(list[i], bracketed(list)),
{
    text::joined_texts_occur(list, ", "@, i);
    text::parts_occur("["@, text::joined(list, ", "@), "]"@);
    text::occurrences_nest(list[i], text::joined(list, ", "@), bracketed(list));
}

/// Where `{:?}` puts a text of a list in double quotes, the text occurs in what `{:?}` writes for the
/// list.
pub proof fn listed_texts_occur(list: Seq<Seq<char>>, i: int)
    requires
        0 <= i < list.len(),
    ensures
        outside::debug_text(list[i]) == outside::quoted(list[i]) ==> text::occurs(
            list[i],
            debug_list(list),
        ),
{
    let shown = Seq::new(list.len(), |i: int| outside::debug_text(list[i]));
    bracketed_texts_occur(shown, i);
    if outside::debug_text(list[i]) == outside::quoted(list[i]) {
        quoted_texts_occur(list[i]);
        text::occurrences_nest(list[i], shown[i], debug_list(list));
    }
}

/// Texts in square brackets with commas between them.
pub fn show_bracketed(list: &Vec<String>) -> (r: String)
    ensures
        r@ == bracketed(text::texts(list@)),
{
    let mut out = "[".to_owned();
    out.push_str(text::join(list, ", ").as_str());
    out.push_str("]");
    out
}

/// A list of texts as `{:?}` writes it.
pub fn show_list(list: &Vec<String>) -> (r: String)
    ensures
        r@ == debug_list(text::texts(list@)),
        plain_are_known(text::texts(list@)),
{
    let mut shown: Vec<String> = Vec::new();
    let mut i: usize = 0;
    let ghost given = text::texts(list@);
    let ghost wanted = Seq::new(given.len(), |i: int| outside::debug_text(given[i]));
    while i < list.len()
        invariant
            i <= list@.len(),
            given == text::texts(list@),
            wanted == Seq::new(given.len(), |i: int| outside::debug_text(given[i])),
            text::texts(shown@) == wanted.take(i as int),
            plain_are_known(given.take(i as int)),
        decreases list@.len() - i,
    {
        let ghost before = shown@;
        let quoted = outside::debug_of(list[i].as_str());
        let ghost entry = quoted@;
        shown.push(quoted);
        assert(text::texts(shown@) =~= text::texts(before).push(entry));
        assert(given.take(i + 1) =~= given.take(i as int).push(given[i as int]));
        i = i + 1;
    }
    assert(wanted.take(wanted.len() as int) =~= wanted);
    assert(given.take(given.len() as int) =~= given);
    show_bracketed(&shown)
}

} // verus!
