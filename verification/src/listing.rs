//! The two sources of items: the workspaces of the editor's history, most
//! recent first, and the directories under the project roots, by title.

use vstd::prelude::*;
use vstd::string::*;
use crate::filter::{
    filter_items, filter_positions, filter_views, lemma_filter_positions, query_view,
};
use crate::item::{
    item_of_path, item_of_workspace, item_views, lemma_item_of_well_formed_path,
    path_parts_well_formed, Item, ItemView, PathParts, PathPartsView, Workspace, WorkspaceView,
};
use crate::text::{
    chars_le, chars_of, last_segment, lemma_lex_le_reflexive, lemma_lex_le_total,
    lemma_lex_le_transitive, lex_le, lowercase, to_lowercase,
};

verus! {

/// What the logic reads of one entry found under a root.
#[derive(Debug)]
pub struct DirEntry {
    pub path: PathParts,
    pub is_dir: bool,
}

/// What a `DirEntry` holds.
pub struct DirEntryView {
    pub path: PathPartsView,
    pub is_dir: bool,
}

impl View for DirEntry {
    type V = DirEntryView;

    open spec fn view(&self) -> DirEntryView {
        DirEntryView { path: self.path@, is_dir: self.is_dir }
    }
}

/// The views of a sequence of entries, in order.
pub open spec fn entry_views(entries: Seq<DirEntry>) -> Seq<DirEntryView> {
    entries.map_values(|e: DirEntry| e@)
}

/// What a row of the history holds; `None` for a row that could not be
/// decoded.
pub open spec fn row_view(row: Option<Workspace>) -> Option<WorkspaceView> {
    match row {
        Some(w) => Some(w@),
        None => None,
    }
}

/// The views of a sequence of rows, in order.
pub open spec fn row_views(rows: Seq<Option<Workspace>>) -> Seq<Option<WorkspaceView>> {
    rows.map_values(|r: Option<Workspace>| row_view(r))
}

/// Whether a name begins with a dot.
pub open spec fn starts_with_dot(name: Seq<char>) -> bool {
    name.len() > 0 && name[0] == '.'
}

/// Whether an entry is a directory that is not hidden.
pub open spec fn is_visible_dir(entry: DirEntryView) -> bool {
    entry.is_dir && match entry.path.file_name {
        Some(name) => !starts_with_dot(name),
        None => true,
    }
}

/// The item that an entry gives, where it gives one: it is a directory, its
/// name does not begin with a dot, and its path and name are text.
pub open spec fn entry_item(entry: DirEntryView) -> Option<ItemView> {
    if is_visible_dir(entry) {
        item_of_path(entry.path)
    } else {
        None
    }
}

/// The items that the entries give, in the order of the entries.
pub open spec fn collected_items(entries: Seq<DirEntryView>) -> Seq<ItemView>
    decreases entries.len(),
{
    if entries.len() == 0 {
        Seq::empty()
    } else {
        let rest = collected_items(entries.drop_last());
        match entry_item(entries.last()) {
            Some(item) => rest.push(item),
            None => rest,
        }
    }
}

/// The items of the rows that were decoded, in the order of the rows.
pub open spec fn workspace_items(rows: Seq<Option<WorkspaceView>>) -> Seq<ItemView>
    decreases rows.len(),
{
    if rows.len() == 0 {
        Seq::empty()
    } else {
        let rest = workspace_items(rows.drop_last());
        match rows.last() {
            Some(w) => rest.push(item_of_workspace(w)),
            None => rest,
        }
    }
}

/// What items are ordered by: the title in lower case.
pub open spec fn sort_key(item: ItemView) -> Seq<char> {
    lowercase(item.title)
}

/// `out[k]` is `input[perm[k]]` for each `k`, and `perm` lists positions of
/// `input` from `lo` on.
pub open spec fn placed(perm: Seq<int>, out: Seq<ItemView>, input: Seq<ItemView>, lo: int) -> bool {
    &&& perm.len() == out.len()
    &&& out.len() == input.len() - lo
    &&& forall|k: int|
        0 <= k < perm.len() ==> lo <= #[trigger] perm[k] < input.len() && out[k] == input[perm[k]]
}

/// No position occurs twice in `perm`.
pub open spec fn distinct(perm: Seq<int>) -> bool {
    forall|a: int, b: int| 0 <= a < b < perm.len() ==> perm[a] != perm[b]
}

/// The keys of `out` never decrease.
pub open spec fn sorted_by_key(out: Seq<ItemView>) -> bool {
    forall|a: int, b: int|
        0 <= a < b < out.len() ==> lex_le(sort_key(#[trigger] out[a]), sort_key(#[trigger] out[b]))
}

/// Items of `out` with equal keys stand in the order of their positions in
/// the input.
pub open spec fn ties_in_order(perm: Seq<int>, out: Seq<ItemView>) -> bool {
    forall|a: int, b: int|
        0 <= a < b < out.len() && sort_key(#[trigger] out[a]) == sort_key(#[trigger] out[b])
            ==> perm[a] < perm[b]
}

/// `out` holds the items of `input` from position `lo` on, ordered by key,
/// those with equal keys in their order in `input`; `perm` says where in
/// `input` each item of `out` stood.
pub open spec fn orders(perm: Seq<int>, out: Seq<ItemView>, input: Seq<ItemView>, lo: int) -> bool {
    &&& placed(perm, out, input, lo)
    &&& distinct(perm)
    &&& sorted_by_key(out)
    &&& ties_in_order(perm, out)
}

/// `out` is `input` sorted by key, items with equal keys left in their
/// order.
pub open spec fn is_stable_sort(out: Seq<ItemView>, input: Seq<ItemView>) -> bool {
    exists|perm: Seq<int>| orders(perm, out, input, 0)
}

/// `out` is what the directory listing gives for the entries and the query:
/// the items of the entries, sorted by key, then filtered.
pub open spec fn is_directory_listing(
    out: Seq<ItemView>,
    entries: Seq<DirEntryView>,
    query: Option<Seq<char>>,
) -> bool {
    exists|sorted: Seq<ItemView>|
        #[trigger] is_stable_sort(sorted, collected_items(entries)) && out == filter_views(
            sorted,
            query,
        )
}

/// Putting `x`, which stands at `m` in `input`, into `out` at `p` keeps the
/// order, where every item in front of `p` has a smaller key and the item at
/// `p` has none smaller.
proof fn lemma_insert_orders(
    perm: Seq<int>,
    out: Seq<ItemView>,
    input: Seq<ItemView>,
    m: int,
    p: int,
    x: ItemView,
)
    requires
        0 <= m < input.len(),
        input[m] == x,
        orders(perm, out, input, m + 1),
        0 <= p <= out.len(),
        forall|a: int| 0 <= a < p ==> !lex_le(sort_key(x), sort_key(#[trigger] out[a])),
        p < out.len() ==> lex_le(sort_key(x), sort_key(out[p])),
    ensures
        orders(perm.insert(p, m), out.insert(p, x), input, m),
{
    let np = perm.insert(p, m);
    let no = out.insert(p, x);
    let kx = sort_key(x);
    assert forall|k: int| 0 <= k < np.len() implies m <= #[trigger] np[k] < input.len() && no[k]
        == input[np[k]] by {
        if k < p {
            assert(np[k] == perm[k]);
        } else if k > p {
            assert(np[k] == perm[k - 1]);
        }
    }
    assert forall|a: int, b: int| 0 <= a < b < np.len() implies np[a] != np[b] by {
        let pa = if a < p { a } else { a - 1 };
        let pb = if b < p { b } else { b - 1 };
        if a != p && b != p {
            assert(np[a] == perm[pa] && np[b] == perm[pb]);
        } else if a == p {
            assert(np[b] == perm[pb]);
        } else {
            assert(np[a] == perm[pa]);
        }
    }
    assert forall|a: int, b: int| 0 <= a < b < no.len() implies lex_le(
        sort_key(#[trigger] no[a]),
        sort_key(#[trigger] no[b]),
    ) by {
        let pa = if a < p { a } else { a - 1 };
        let pb = if b < p { b } else { b - 1 };
        if a != p && b != p {
            assert(no[a] == out[pa] && no[b] == out[pb]);
        } else if a == p {
            assert(no[b] == out[pb]);
            if pb == p {
            } else {
                assert(lex_le(sort_key(out[p]), sort_key(out[pb])));
                lemma_lex_le_transitive(kx, sort_key(out[p]), sort_key(out[pb]));
            }
        } else {
            assert(no[a] == out[pa]);
            lemma_lex_le_total(kx, sort_key(out[pa]));
        }
    }
    assert forall|a: int, b: int|
        0 <= a < b < no.len() && sort_key(#[trigger] no[a]) == sort_key(
            #[trigger] no[b],
        ) implies np[a] < np[b] by {
        let pa = if a < p { a } else { a - 1 };
        let pb = if b < p { b } else { b - 1 };
        if a != p && b != p {
            assert(no[a] == out[pa] && no[b] == out[pb]);
            assert(np[a] == perm[pa] && np[b] == perm[pb]);
        } else if a == p {
            assert(np[b] == perm[pb]);
        } else {
            assert(no[a] == out[pa]);
            lemma_lex_le_reflexive(kx);
        }
    }
}

/// Whether the name of a path begins with a dot.
pub fn is_hidden(path: &PathParts) -> (r: bool)
    ensures
        r == match path@.file_name {
            Some(name) => starts_with_dot(name),
            None => false,
        },
{
    match &path.file_name {
        Some(name) => {
            let s: &str = name.as_str();
            s.unicode_len() > 0 && s.get_char(0) == '.'
        },
        None => false,
    }
}

/// The items of the directories among the entries that are not hidden, in
/// the order of the entries.
pub fn collect_items(entries: &Vec<DirEntry>) -> (out: Vec<Item>)
    ensures
        item_views(out@) == collected_items(entry_views(entries@)),
{
    let mut out: Vec<Item> = Vec::new();
    let n: usize = entries.len();
    let mut i: usize = 0;
    proof {
        assert(entry_views(entries@.subrange(0, 0)) =~= Seq::<DirEntryView>::empty());
        assert(item_views(out@) =~= Seq::<ItemView>::empty());
    }
    while i < n
        invariant
            n == entries@.len(),
            i <= n,
            item_views(out@) == collected_items(entry_views(entries@.subrange(0, i as int))),
        decreases n - i,
    {
        proof {
            let before = entry_views(entries@.subrange(0, i as int));
            let now = entry_views(entries@.subrange(0, i + 1));
            assert(now.drop_last() =~= before);
            assert(now.last() == entries@[i as int]@);
        }
        let entry: &DirEntry = &entries[i];
        if entry.is_dir && !is_hidden(&entry.path) {
            match Item::from_path(&entry.path) {
                Some(item) => {
                    let ghost old_out = out@;
                    out.push(item);
                    proof {
                        assert(item_views(out@) =~= item_views(old_out).push(item@));
                    }
                },
                None => {},
            }
        }
        i = i + 1;
    }
    proof {
        assert(entries@.subrange(0, n as int) =~= entries@);
    }
    out
}

/// Sorts the items by their title in lower case. Items whose titles are
/// equal in lower case keep their order.
pub fn sort_by_title(items: Vec<Item>) -> (out: Vec<Item>)
    ensures
        is_stable_sort(item_views(out@), item_views(items@)),
{
    let ghost input = item_views(items@);
    let mut rest: Vec<Item> = items;
    let mut out: Vec<Item> = Vec::new();
    let mut keys: Vec<Vec<char>> = Vec::new();
    let ghost mut perm: Seq<int> = Seq::empty();
    while rest.len() > 0
        invariant
            rest@.len() <= input.len(),
            item_views(rest@) == input.subrange(0, rest@.len() as int),
            keys@.len() == out@.len(),
            forall|k: int| 0 <= k < keys@.len() ==> (#[trigger] keys@[k])@ == sort_key(out@[k]@),
            orders(perm, item_views(out@), input, rest@.len() as int),
        decreases rest@.len(),
    {
        let ghost old_rest = rest@;
        let ghost old_out = item_views(out@);
        let ghost old_perm = perm;
        let item: Item = rest.pop().unwrap();
        let ghost m: int = rest@.len() as int;
        let key: Vec<char> = chars_of(to_lowercase(item.title.as_str()).as_str());
        let mut p: usize = 0;
        while p < keys.len() && !chars_le(&key, &keys[p])
            invariant
                p <= keys@.len(),
                forall|a: int| 0 <= a < p ==> !lex_le(key@, (#[trigger] keys@[a])@),
            decreases keys@.len() - p,
        {
            p = p + 1;
        }
        let ghost old_keys = keys@;
        let ghost old_items = out@;
        proof {
            assert(item_views(old_rest)[m] == item@);
            assert(item_views(rest@) =~= input.subrange(0, m));
            assert forall|a: int| 0 <= a < p implies !lex_le(
                sort_key(item@),
                sort_key(#[trigger] old_out[a]),
            ) by {
                assert(old_keys[a]@ == sort_key(old_items[a]@));
            }
            if p < old_out.len() {
                assert(old_keys[p as int]@ == sort_key(old_items[p as int]@));
            }
            lemma_insert_orders(old_perm, old_out, input, m, p as int, item@);
        }
        out.insert(p, item);
        keys.insert(p, key);
        proof {
            perm = old_perm.insert(p as int, m);
            assert(item_views(out@) =~= old_out.insert(p as int, item@));
            assert forall|k: int| 0 <= k < keys@.len() implies (#[trigger] keys@[k])@ == sort_key(
                out@[k]@,
            ) by {
                if k > p {
                    assert(keys@[k] == old_keys[k - 1]);
                    assert(out@[k] == old_items[k - 1]);
                } else if k < p {
                    assert(keys@[k] == old_keys[k]);
                    assert(out@[k] == old_items[k]);
                }
            }
        }
    }
    proof {
        assert(orders(perm, item_views(out@), input, 0));
    }
    out
}

/// The rows of the history as items, in their order, filtered by the query.
/// A row that could not be decoded gives no item. The order of the rows,
/// most recent first, is kept.
pub fn list_recent_projects(rows: &Vec<Option<Workspace>>, query: Option<String>) -> (out: Vec<
    Item,
>)
    ensures
        item_views(out@) == filter_views(workspace_items(row_views(rows@)), query_view(query)),
{
    let mut items: Vec<Item> = Vec::new();
    let n: usize = rows.len();
    let mut i: usize = 0;
    proof {
        assert(row_views(rows@.subrange(0, 0)) =~= Seq::<Option<WorkspaceView>>::empty());
        assert(item_views(items@) =~= Seq::<ItemView>::empty());
    }
    while i < n
        invariant
            n == rows@.len(),
            i <= n,
            item_views(items@) == workspace_items(row_views(rows@.subrange(0, i as int))),
        decreases n - i,
    {
        proof {
            let before = row_views(rows@.subrange(0, i as int));
            let now = row_views(rows@.subrange(0, i + 1));
            assert(now.drop_last() =~= before);
            assert(now.last() == row_view(rows@[i as int]));
        }
        match &rows[i] {
            Some(workspace) => {
                let item: Item = Item::from_workspace(workspace);
                let ghost old_items = items@;
                items.push(item);
                proof {
                    assert(item_views(items@) =~= item_views(old_items).push(item@));
                }
            },
            None => {},
        }
        i = i + 1;
    }
    proof {
        assert(rows@.subrange(0, n as int) =~= rows@);
    }
    filter_items(items, query)
}

/// No item of a workspace says whether it is valid.
pub proof fn lemma_workspace_items_valid_absent(rows: Seq<Option<WorkspaceView>>, i: int)
    requires
        0 <= i < workspace_items(rows).len(),
    ensures
        workspace_items(rows)[i].valid.is_none(),
    decreases rows.len(),
{
    if rows.len() > 0 {
        let rest = workspace_items(rows.drop_last());
        if i < rest.len() {
            lemma_workspace_items_valid_absent(rows.drop_last(), i);
        }
    }
}

/// The directories among the entries that are not hidden, as items sorted by
/// title without regard to case, then filtered by the query.
pub fn list_directories(entries: &Vec<DirEntry>, query: Option<String>) -> (out: Vec<Item>)
    ensures
        is_directory_listing(item_views(out@), entry_views(entries@), query_view(query)),
        exists|at: Seq<int>| in_listing_order(at, item_views(out@), entry_views(entries@)),
        forall|i: int|
            0 <= i < out@.len() ==> from_visible_dir(
                #[trigger] item_views(out@)[i],
                entry_views(entries@),
            ),
{
    let items: Vec<Item> = collect_items(entries);
    let sorted: Vec<Item> = sort_by_title(items);
    let out: Vec<Item> = filter_items(sorted, query);
    proof {
        assert(is_stable_sort(item_views(sorted@), collected_items(entry_views(entries@))));
        lemma_listing_stable(item_views(out@), entry_views(entries@), query_view(query));
        assert forall|i: int| 0 <= i < out@.len() implies from_visible_dir(
            #[trigger] item_views(out@)[i],
            entry_views(entries@),
        ) by {
            lemma_listing_excludes_hidden(
                item_views(out@),
                entry_views(entries@),
                query_view(query),
                i,
            );
        }
    }
    out
}

/// `item` is the item of a directory among the entries that is not hidden.
pub open spec fn from_visible_dir(item: ItemView, entries: Seq<DirEntryView>) -> bool {
    exists|j: int|
        0 <= j < entries.len() && is_visible_dir(#[trigger] entries[j]) && item_of_path(
            entries[j].path,
        ) == Some(item)
}

/// Filtering keeps a sorted sequence sorted.
pub proof fn lemma_filter_sorted(items: Seq<ItemView>, query: Option<Seq<char>>)
    requires
        sorted_by_key(items),
    ensures
        sorted_by_key(filter_views(items, query)),
{
    let out = filter_views(items, query);
    let at = filter_positions(items, query);
    lemma_filter_positions(items, query);
    assert forall|a: int, b: int| 0 <= a < b < out.len() implies lex_le(
        sort_key(#[trigger] out[a]),
        sort_key(#[trigger] out[b]),
    ) by {
        assert(at[a] < at[b]);
        assert(out[a] == items[at[a]] && out[b] == items[at[b]]);
    }
}

/// Every item of the directory listing is the item of a directory among the
/// entries whose name does not begin with a dot, whatever the query: a
/// hidden directory gives none, and no title begins with a dot.
pub proof fn lemma_listing_excludes_hidden(
    out: Seq<ItemView>,
    entries: Seq<DirEntryView>,
    query: Option<Seq<char>>,
    i: int,
)
    requires
        is_directory_listing(out, entries, query),
        0 <= i < out.len(),
    ensures
        from_visible_dir(out[i], entries),
        !starts_with_dot(out[i].title),
        out[i].valid.is_none(),
{
    lemma_listing_stable(out, entries, query);
    let at = choose|at: Seq<int>| in_listing_order(at, out, entries);
    assert(entry_item(entries[at[i]]) == Some(out[i]));
    assert(is_visible_dir(entries[at[i]]));
}

/// For each collected item, the position of the entry that gave it.
pub open spec fn collected_positions(entries: Seq<DirEntryView>) -> Seq<int>
    decreases entries.len(),
{
    if entries.len() == 0 {
        Seq::empty()
    } else {
        let rest = collected_positions(entries.drop_last());
        if entry_item(entries.last()).is_some() {
            rest.push(entries.len() - 1)
        } else {
            rest
        }
    }
}

/// The collected items stand in the order of the entries that gave them.
pub proof fn lemma_collected_positions(entries: Seq<DirEntryView>)
    ensures
        collected_positions(entries).len() == collected_items(entries).len(),
        forall|i: int|
            0 <= i < collected_positions(entries).len() ==> 0 <= #[trigger] collected_positions(
                entries,
            )[i] < entries.len() && entry_item(entries[collected_positions(entries)[i]]) == Some(
                collected_items(entries)[i],
            ),
        forall|a: int, b: int|
            0 <= a < b < collected_positions(entries).len() ==> collected_positions(entries)[a]
                < collected_positions(entries)[b],
    decreases entries.len(),
{
    if entries.len() > 0 {
        let front = entries.drop_last();
        lemma_collected_positions(front);
        let at = collected_positions(entries);
        let sub_at = collected_positions(front);
        let out = collected_items(entries);
        let sub = collected_items(front);
        assert forall|i: int| 0 <= i < at.len() implies 0 <= #[trigger] at[i] < entries.len()
            && entry_item(entries[at[i]]) == Some(out[i]) by {
            if i < sub_at.len() {
                assert(at[i] == sub_at[i]);
                assert(out[i] == sub[i]);
                assert(front[sub_at[i]] == entries[sub_at[i]]);
            }
        }
        assert forall|a: int, b: int| 0 <= a < b < at.len() implies at[a] < at[b] by {
            assert(at[a] == sub_at[a]);
            if b < sub_at.len() {
                assert(at[b] == sub_at[b]);
            }
        }
    }
}

/// `out` holds items of the entries at the positions `at`, in the order of
/// their keys, and those with equal keys in the order of the entries.
pub open spec fn in_listing_order(
    at: Seq<int>,
    out: Seq<ItemView>,
    entries: Seq<DirEntryView>,
) -> bool {
    &&& at.len() == out.len()
    &&& forall|k: int|
        0 <= k < at.len() ==> 0 <= #[trigger] at[k] < entries.len() && entry_item(entries[at[k]])
            == Some(out[k])
    &&& sorted_by_key(out)
    &&& ties_in_order(at, out)
}

/// The directory listing is sorted by title without regard to case, and
/// two of its items whose titles are equal without regard to case stand in
/// the order in which their directories were listed, whatever the query.
pub proof fn lemma_listing_stable(
    out: Seq<ItemView>,
    entries: Seq<DirEntryView>,
    query: Option<Seq<char>>,
)
    requires
        is_directory_listing(out, entries, query),
    ensures
        exists|at: Seq<int>| in_listing_order(at, out, entries),
{
    let input = collected_items(entries);
    let sorted = choose|sorted: Seq<ItemView>|
        #[trigger] is_stable_sort(sorted, input) && out == filter_views(sorted, query);
    let perm = choose|perm: Seq<int>| orders(perm, sorted, input, 0);
    let kept = filter_positions(sorted, query);
    let found = collected_positions(entries);
    lemma_filter_positions(sorted, query);
    lemma_collected_positions(entries);
    lemma_filter_sorted(sorted, query);
    let at = Seq::new(out.len(), |k: int| found[perm[kept[k]]]);
    assert forall|k: int| 0 <= k < at.len() implies 0 <= #[trigger] at[k] < entries.len()
        && entry_item(entries[at[k]]) == Some(out[k]) by {
        let s = kept[k];
        assert(out[k] == sorted[s]);
        let c = perm[s];
        assert(sorted[s] == input[c]);
        assert(entry_item(entries[found[c]]) == Some(input[c]));
    }
    assert forall|a: int, b: int|
        0 <= a < b < out.len() && sort_key(#[trigger] out[a]) == sort_key(
            #[trigger] out[b],
        ) implies at[a] < at[b] by {
        let sa = kept[a];
        let sb = kept[b];
        assert(sa < sb);
        assert(out[a] == sorted[sa] && out[b] == sorted[sb]);
        assert(sort_key(sorted[sa]) == sort_key(sorted[sb]));
        assert(perm[sa] < perm[sb]);
        assert(0 <= perm[sa] && perm[sb] < input.len());
        assert(found[perm[sa]] < found[perm[sb]]);
    }
    assert(in_listing_order(at, out, entries));
}

/// Every entry holds the two parts of one path.
pub open spec fn entries_well_formed(entries: Seq<DirEntryView>) -> bool {
    forall|j: int| 0 <= j < entries.len() ==> path_parts_well_formed((#[trigger] entries[j]).path)
}

/// Of entries that hold the parts of one path each: the title of every item
/// of the directory listing is not empty, holds no `/`, does not begin with
/// a dot, and is the last segment of the item's identifier.
pub proof fn lemma_listing_titles(
    out: Seq<ItemView>,
    entries: Seq<DirEntryView>,
    query: Option<Seq<char>>,
    i: int,
)
    requires
        is_directory_listing(out, entries, query),
        entries_well_formed(entries),
        0 <= i < out.len(),
    ensures
        out[i].title.len() > 0,
        forall|j: int| 0 <= j < out[i].title.len() ==> out[i].title[j] != '/',
        !starts_with_dot(out[i].title),
        out[i].title == last_segment(out[i].uid, '/'),
{
    lemma_listing_excludes_hidden(out, entries, query, i);
    let j = choose|j: int|
        0 <= j < entries.len() && is_visible_dir(#[trigger] entries[j]) && item_of_path(
            entries[j].path,
        ) == Some(out[i]);
    lemma_item_of_well_formed_path(entries[j].path);
}

/// Of entries that hold the parts of one path each: the path of a hidden
/// directory is the identifier of no item of the directory listing,
/// whatever the query.
pub proof fn lemma_hidden_path_not_listed(
    out: Seq<ItemView>,
    entries: Seq<DirEntryView>,
    query: Option<Seq<char>>,
    h: int,
    i: int,
)
    requires
        is_directory_listing(out, entries, query),
        entries_well_formed(entries),
        0 <= h < entries.len(),
        entries[h].path.text.is_some(),
        entries[h].path.file_name matches Some(name) && starts_with_dot(name),
        0 <= i < out.len(),
    ensures
        entries[h].path.text != Some(out[i].uid),
{
    lemma_listing_titles(out, entries, query, i);
    if entries[h].path.text == Some(out[i].uid) {
        lemma_item_of_well_formed_path(entries[h].path);
    }
}

} // verus!
