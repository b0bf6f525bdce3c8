//! The query filter: an item stays where its title or its subtitle holds the
//! query, letter case set aside.

use vstd::prelude::*;
use vstd::string::*;
use crate::item::{item_views, Item, ItemView};
use crate::text::{
    chars_contain, chars_of, is_substring, lemma_empty_is_substring, lowercase, to_lowercase,
};

verus! {

/// Whether a query in lower case occurs in a title or a subtitle in lower
/// case.
pub open spec fn matches_lowered(
    title_lower: Seq<char>,
    subtitle_lower: Seq<char>,
    query_lower: Seq<char>,
) -> bool {
    is_substring(title_lower, query_lower) || is_substring(subtitle_lower, query_lower)
}

/// Whether an item matches a query that is already in lower case.
pub open spec fn item_matches(item: ItemView, query_lower: Seq<char>) -> bool {
    matches_lowered(lowercase(item.title), lowercase(item.subtitle), query_lower)
}

/// The items that match a query in lower case, in their order.
pub open spec fn retain_matching(items: Seq<ItemView>, query_lower: Seq<char>) -> Seq<ItemView> {
    items.filter(|item: ItemView| item_matches(item, query_lower))
}

/// What the filter leaves of `items`: with a query that is not empty in
/// lower case, the items that match it; without one, all of them.
pub open spec fn filter_views(items: Seq<ItemView>, query: Option<Seq<char>>) -> Seq<ItemView> {
    match query {
        Some(q) => if lowercase(q).len() > 0 {
            retain_matching(items, lowercase(q))
        } else {
            items
        },
        None => items,
    }
}

/// `back` holds the items of `forth` in the opposite order.
pub open spec fn is_reversed(back: Seq<ItemView>, forth: Seq<ItemView>) -> bool {
    &&& back.len() == forth.len()
    &&& forall|k: int| 0 <= k < back.len() ==> #[trigger] back[k] == forth[forth.len() - 1 - k]
}

/// The characters of a query, where there is one.
pub open spec fn query_view(query: Option<String>) -> Option<Seq<char>> {
    match query {
        Some(q) => Some(q@),
        None => None,
    }
}

/// Whether a query in lower case occurs in a title or a subtitle in lower
/// case.
pub fn matches_lowered_text(title_lower: &str, subtitle_lower: &str, query_lower: &str) -> (r:
    bool)
    ensures
        r == matches_lowered(title_lower@, subtitle_lower@, query_lower@),
{
    let needle: Vec<char> = chars_of(query_lower);
    let title: Vec<char> = chars_of(title_lower);
    if chars_contain(&title, &needle) {
        return true;
    }
    let subtitle: Vec<char> = chars_of(subtitle_lower);
    chars_contain(&subtitle, &needle)
}

impl Item {
    /// Whether the title or the subtitle, in lower case, holds `query_lower`.
    pub fn matches(&self, query_lower: &str) -> (r: bool)
        ensures
            r == item_matches(self@, query_lower@),
    {
        let title_lower = to_lowercase(self.title.as_str());
        let subtitle_lower = to_lowercase(self.subtitle.as_str());
        matches_lowered_text(title_lower.as_str(), subtitle_lower.as_str(), query_lower)
    }
}

/// Keeps the items that match the query, in their order; all of them where
/// there is no query or it is empty.
pub fn filter_items(items: Vec<Item>, query: Option<String>) -> (out: Vec<Item>)
    ensures
        item_views(out@) == filter_views(item_views(items@), query_view(query)),
{
    let query_lower: String = match query {
        Some(q) => to_lowercase(q.as_str()),
        None => {
            return items;
        },
    };
    if query_lower.as_str().unicode_len() == 0 {
        return items;
    }
    let ghost pred = |item: ItemView| item_matches(item, query_lower@);
    let ghost all = item_views(items@);
    let ghost n: int = all.len() as int;
    let mut rest: Vec<Item> = items;
    let mut kept: Vec<Item> = Vec::new();
    proof {
        reveal(Seq::filter);
        assert(all.subrange(n, n) =~= Seq::<ItemView>::empty());
    }
    while rest.len() > 0
        invariant
            n == all.len(),
            rest@.len() <= n,
            pred == |item: ItemView| item_matches(item, query_lower@),
            item_views(rest@) == all.subrange(0, rest@.len() as int),
            is_reversed(item_views(kept@), all.subrange(rest@.len() as int, n).filter(pred)),
        decreases rest@.len(),
    {
        let ghost old_rest = rest@;
        let ghost old_kept = item_views(kept@);
        let item: Item = rest.pop().unwrap();
        let ghost m: int = rest@.len() as int;
        let keep: bool = item.matches(query_lower.as_str());
        proof {
            reveal(Seq::filter);
            assert(item_views(old_rest)[m] == item@);
            assert(item_views(rest@) =~= all.subrange(0, m));
            let head = seq![item@];
            let tail = all.subrange(m + 1, n);
            assert(all.subrange(m, n) =~= head + tail);
            Seq::filter_distributes_over_add(head, tail, pred);
            assert(head.drop_last() =~= Seq::<ItemView>::empty());
            assert(head.drop_last().filter(pred) =~= Seq::<ItemView>::empty());
            assert(head.filter(pred) =~= if keep {
                head
            } else {
                Seq::<ItemView>::empty()
            });
            assert(Seq::<ItemView>::empty() + tail.filter(pred) =~= tail.filter(pred));
        }
        if keep {
            kept.push(item);
            proof {
                assert(item_views(kept@) =~= old_kept.push(item@));
            }
        }
    }
    let ghost found = all.filter(pred);
    let mut out: Vec<Item> = Vec::new();
    proof {
        assert(all.subrange(0, n) =~= all);
        assert forall|k: int| 0 <= k < kept@.len() implies (#[trigger] kept@[k])@ == found[found.len()
            - 1 - k] by {
            assert(item_views(kept@)[k] == kept@[k]@);
        }
    }
    while kept.len() > 0
        invariant
            out@.len() + kept@.len() == found.len(),
            forall|k: int| 0 <= k < out@.len() ==> (#[trigger] out@[k])@ == found[k],
            forall|k: int|
                0 <= k < kept@.len() ==> (#[trigger] kept@[k])@ == found[found.len() - 1 - k],
        decreases kept@.len(),
    {
        let item: Item = kept.pop().unwrap();
        out.push(item);
    }
    proof {
        assert(item_views(out@) =~= found);
    }
    out
}

/// Filtering twice by one query leaves what filtering once leaves.
pub proof fn lemma_filter_idempotent(items: Seq<ItemView>, query: Option<Seq<char>>)
    ensures
        filter_views(filter_views(items, query), query) == filter_views(items, query),
{
    match query {
        Some(q) => {
            if lowercase(q).len() > 0 {
                lemma_retain_idempotent(items, lowercase(q));
            }
        },
        None => {},
    }
}

/// Retaining the matches of what was retained changes nothing.
pub proof fn lemma_retain_idempotent(items: Seq<ItemView>, query_lower: Seq<char>)
    ensures
        retain_matching(retain_matching(items, query_lower), query_lower) == retain_matching(
            items,
            query_lower,
        ),
    decreases items.len(),
{
    reveal(Seq::filter);
    let pred = |item: ItemView| item_matches(item, query_lower);
    if items.len() > 0 {
        lemma_retain_idempotent(items.drop_last(), query_lower);
        let sub = items.drop_last().filter(pred);
        if pred(items.last()) {
            let kept = sub.push(items.last());
            assert(kept.drop_last() =~= sub);
            assert(kept.last() == items.last());
        }
    }
}

/// For each retained item, where it stood in the items.
pub open spec fn retained_positions(items: Seq<ItemView>, query_lower: Seq<char>) -> Seq<int>
    decreases items.len(),
{
    if items.len() == 0 {
        Seq::empty()
    } else {
        let rest = retained_positions(items.drop_last(), query_lower);
        if item_matches(items.last(), query_lower) {
            rest.push(items.len() - 1)
        } else {
            rest
        }
    }
}

/// For each item that the filter leaves, where it stood in the items.
pub open spec fn filter_positions(items: Seq<ItemView>, query: Option<Seq<char>>) -> Seq<int> {
    match query {
        Some(q) => if lowercase(q).len() > 0 {
            retained_positions(items, lowercase(q))
        } else {
            Seq::new(items.len(), |i: int| i)
        },
        None => Seq::new(items.len(), |i: int| i),
    }
}

/// `out` holds the items of `items` at the positions `at`, which rise.
pub open spec fn is_selection(at: Seq<int>, out: Seq<ItemView>, items: Seq<ItemView>) -> bool {
    &&& at.len() == out.len()
    &&& forall|i: int|
        0 <= i < at.len() ==> 0 <= #[trigger] at[i] < items.len() && out[i] == items[at[i]]
    &&& forall|a: int, b: int| 0 <= a < b < at.len() ==> at[a] < at[b]
}

/// The retained items are items of the sequence, in the order that they had
/// there.
pub proof fn lemma_retained_positions(items: Seq<ItemView>, query_lower: Seq<char>)
    ensures
        is_selection(
            retained_positions(items, query_lower),
            retain_matching(items, query_lower),
            items,
        ),
    decreases items.len(),
{
    reveal(Seq::filter);
    if items.len() > 0 {
        let front = items.drop_last();
        lemma_retained_positions(front, query_lower);
        let at = retained_positions(items, query_lower);
        let sub_at = retained_positions(front, query_lower);
        let out = retain_matching(items, query_lower);
        let sub = retain_matching(front, query_lower);
        assert forall|i: int| 0 <= i < at.len() implies 0 <= #[trigger] at[i] < items.len()
            && out[i] == items[at[i]] by {
            if i < sub_at.len() {
                assert(at[i] == sub_at[i]);
                assert(out[i] == sub[i]);
                assert(front[sub_at[i]] == items[sub_at[i]]);
            }
        }
        assert forall|a: int, b: int| 0 <= a < b < at.len() implies at[a] < at[b] by {
            assert(at[a] == sub_at[a]);
            if b < sub_at.len() {
                assert(at[b] == sub_at[b]);
            }
        }
    }
}

/// What the filter leaves are items of the sequence, in the order that they
/// had there.
pub proof fn lemma_filter_positions(items: Seq<ItemView>, query: Option<Seq<char>>)
    ensures
        is_selection(filter_positions(items, query), filter_views(items, query), items),
{
    match query {
        Some(q) => {
            if lowercase(q).len() > 0 {
                lemma_retained_positions(items, lowercase(q));
            }
        },
        None => {},
    }
}

/// The empty query matches every item: retaining its matches changes
/// nothing.
pub proof fn lemma_empty_query_keeps_all(items: Seq<ItemView>)
    ensures
        retain_matching(items, Seq::<char>::empty()) == items,
    decreases items.len(),
{
    reveal(Seq::filter);
    if items.len() > 0 {
        lemma_empty_query_keeps_all(items.drop_last());
        lemma_empty_is_substring(lowercase(items.last().title));
        assert(items.drop_last().push(items.last()) =~= items);
    }
}

} // verus!
