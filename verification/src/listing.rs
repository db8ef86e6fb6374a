//! Lists of texts that grow by one or by many, and looking things up in lists.

use vstd::prelude::*;

verus! {

use crate::text::{same, views};

/// One text where the condition holds, none otherwise.
pub open spec fn only_if(condition: bool, text: Seq<char>) -> Seq<Seq<char>> {
    if condition {
        seq![text]
    } else {
        Seq::empty()
    }
}

pub open spec fn no_texts() -> Seq<Seq<char>> {
    Seq::empty()
}

/// An empty list.
pub fn empty_list() -> (r: Vec<String>)
    ensures
        views(r@) == no_texts(),
{
    let r: Vec<String> = Vec::new();
    assert(views(r@) =~= no_texts());
    r
}

/// Adds the texts of `more` to the end of `list`.
pub fn extend(list: &mut Vec<String>, more: Vec<String>)
    ensures
        views(final(list)@) == views(old(list)@) + views(more@),
{
    let ghost before = list@;
    let ghost added = more@;
    let mut more = more;
    list.append(&mut more);
    assert(views(list@) =~= views(before) + views(added));
}

/// Adds `text` to `list` where the condition holds.
pub fn note(list: &mut Vec<String>, condition: bool, text: String)
    ensures
        views(final(list)@) == views(old(list)@) + only_if(condition, text@),
{
    let ghost before = views(list@);
    let ghost shown = text@;
    if condition {
        list.push(text);
        assert(views(list@) =~= before + only_if(condition, shown));
    } else {
        assert(views(list@) =~= before + only_if(condition, shown));
    }
}

/// The two texts in one.
pub fn concat(a: &str, b: &str) -> (r: String)
    ensures
        r@ == a@ + b@,
{
    let mut r = a.to_owned();
    r.append(b);
    r
}

/// Whether the list holds the number.
pub fn holds_id(ids: &Vec<u64>, id: u64) -> (r: bool)
    ensures
        r == ids@.contains(id),
{
    let mut i: usize = 0;
    while i < ids.len()
        invariant
            i <= ids@.len(),
            forall|j: int| 0 <= j < i ==> ids@[j] != id,
        decreases ids@.len() - i,
    {
        if ids[i] == id {
            assert(ids@[i as int] == id);
            return true;
        }
        i += 1;
    }
    false
}

/// Whether the list holds the text.
pub fn holds_text(list: &Vec<String>, text: &str) -> (r: bool)
    ensures
        r == views(list@).contains(text@),
{
    let mut i: usize = 0;
    while i < list.len()
        invariant
            i <= list@.len(),
            forall|j: int| 0 <= j < i ==> #[trigger] views(list@)[j] != text@,
        decreases list@.len() - i,
    {
        if same(list[i].as_str(), text) {
            assert(views(list@)[i as int] == text@);
            return true;
        }
        i += 1;
    }
    false
}

/// The texts of `a` stand in `b` at the given indices, in the same order.
pub open spec fn keeps_at(a: Seq<Seq<char>>, b: Seq<Seq<char>>, at: Seq<int>) -> bool {
    &&& at.len() == a.len()
    &&& forall|i: int| 0 <= i < at.len() ==> 0 <= #[trigger] at[i] < b.len() && b[at[i]] == a[i]
    &&& forall|i: int, j: int| 0 <= i < j < at.len() ==> #[trigger] at[i] < #[trigger] at[j]
}

/// All texts of `a` stand in `b`, in the same order.
pub open spec fn kept_in_order(a: Seq<Seq<char>>, b: Seq<Seq<char>>) -> bool {
    exists|at: Seq<int>| keeps_at(a, b, at)
}

pub proof fn lemma_kept_concat(
    a: Seq<Seq<char>>,
    b: Seq<Seq<char>>,
    c: Seq<Seq<char>>,
    d: Seq<Seq<char>>,
)
    requires
        kept_in_order(a, b),
        kept_in_order(c, d),
    ensures
        kept_in_order(a + c, b + d),
{
    let first = choose|at: Seq<int>| keeps_at(a, b, at);
    let second = choose|at: Seq<int>| keeps_at(c, d, at);
    let at = first + Seq::new(second.len(), |i: int| second[i] + b.len());
    assert forall|i: int| 0 <= i < at.len() implies 0 <= #[trigger] at[i] < (b + d).len() && (b
        + d)[at[i]] == (a + c)[i] by {
        if i < first.len() {
            assert(at[i] == first[i]);
        } else {
            assert(at[i] == second[i - first.len()] + b.len());
        }
    }
    assert forall|i: int, j: int| 0 <= i < j < at.len() implies #[trigger] at[i] < #[trigger] at[j] by {
        if j < first.len() {
            assert(first[i] < first[j]);
        } else if i < first.len() {
            assert(first[i] < b.len());
            assert(at[j] == second[j - first.len()] + b.len());
        } else {
            assert(second[i - first.len()] < second[j - first.len()]);
        }
    }
    assert(keeps_at(a + c, b + d, at));
}

} // verus!
