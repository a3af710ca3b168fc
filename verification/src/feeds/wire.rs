//! The JSON texts that subscriptions are made of.

use crate::utils::text;
use vstd::prelude::*;
use vstd::string::*;

verus! {

/// A text as a JSON string, in quotes and with escapes.
pub uninterp spec fn json_string(text: Seq<char>) -> Seq<char>;

/// Whether JSON writes a text as it stands, without escapes.
pub open spec fn unescaped(text: Seq<char>) -> bool {
    forall|i: int|
        0 <= i < text.len() ==> (#[trigger] text[i]) as u32 >= 32 && text[i] != '"' && text[i]
            != '\\'
}

/// `Display` of `serde_json::Value::String`: the text as a JSON string, which
/// depends on the text alone. A text without control characters, quotes and
/// backslashes stands in it unchanged, between two quotes.
#[verifier::external_body]
fn quote(text: &str) -> (r: String)
    ensures
        r@ == json_string(text@),
        unescaped(text@) ==> r@ == seq!['"'] + text@ + seq!['"'],
{
    serde_json::Value::String(text.to_owned()).to_string()
}

/// The JSON strings of some texts, with commas between them.
pub open spec fn json_items(items: Seq<Seq<char>>) -> Seq<char>
    decreases items.len(),
{
    if items.len() == 0 {
        Seq::empty()
    } else if items.len() == 1 {
        json_string(items[0])
    } else {
        json_items(items.drop_last()) + seq![','] + json_string(items.last())
    }
}

/// Some texts as a JSON array.
pub open spec fn json_array(items: Seq<Seq<char>>) -> Seq<char> {
    seq!['['] + json_items(items) + seq![']']
}

/// Some texts as a JSON array.
pub fn array_text(items: &Vec<String>) -> (r: String)
    ensures
        r@ == json_array(text::texts(items@)),
{
    let ghost all = text::texts(items@);
    let mut out: String = String::new();
    out.push('[');
    let mut i: usize = 0;
    proof {
        assert(all.take(0) =~= Seq::<Seq<char>>::empty());
        assert(out@ =~= seq!['['] + json_items(all.take(0)));
    }
    while i < items.len()
        invariant
            i <= items@.len(),
            all == text::texts(items@),
            out@ == seq!['['] + json_items(all.take(i as int)),
        decreases items@.len() - i,
    {
        let ghost upto = all.take(i as int);
        let ghost next = all.take(i + 1);
        proof {
            assert(next.drop_last() =~= upto);
            assert(next.last() == items@[i as int]@);
            if i == 0 {
                assert(upto =~= Seq::<Seq<char>>::empty());
            }
        }
        if i > 0 {
            out.push(',');
        }
        out.append(quote(items[i].as_str()).as_str());
        i = i + 1;
        assert(out@ =~= seq!['['] + json_items(next));
    }
    out.push(']');
    assert(all.take(i as int) =~= all);
    assert(out@ =~= json_array(all));
    out
}

/// A text as a JSON string.
pub fn string_text(s: &str) -> (r: String)
    ensures
        r@ == json_string(s@),
        unescaped(s@) ==> r@ == seq!['"'] + s@ + seq!['"'],
{
    quote(s)
}

/// A list of texts is written one after the other, with one comma between each
/// and the next: two lists that are not empty are written as the first, a comma
/// and the second.
pub proof fn lemma_items_join(a: Seq<Seq<char>>, b: Seq<Seq<char>>)
    requires
        a.len() > 0,
        b.len() > 0,
    ensures
        json_items(a + b) == json_items(a) + seq![','] + json_items(b),
        json_items(seq![a[0]]) == json_string(a[0]),
        json_array(a) == seq!['['] + json_items(a) + seq![']'],
    decreases b.len(),
{
    let whole = a + b;
    assert(seq![a[0]][0] == a[0]);
    if b.len() == 1 {
        assert(whole.drop_last() =~= a);
        assert(whole.last() == b[0]);
        assert(json_items(whole) =~= json_items(a) + seq![','] + json_items(b));
    } else {
        lemma_items_join(a, b.drop_last());
        assert(whole.drop_last() =~= a + b.drop_last());
        assert(json_items(whole) =~= json_items(a) + seq![','] + json_items(b));
    }
}

} // verus!
