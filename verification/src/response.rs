//! What one invocation does: read the mode and the query from the
//! arguments, and wrap what a source gave into the document for the
//! launcher, with a placeholder where nothing matched.

use vstd::prelude::*;
use crate::filter::{filter_positions, filter_views, lemma_filter_positions, query_view};
use crate::item::{item_views, no_results_item, placeholder, Item, ItemView, Response, Workspace};
use crate::listing::{
    entry_views, is_directory_listing, lemma_listing_excludes_hidden, list_directories,
    lemma_workspace_items_valid_absent, list_recent_projects, row_views, workspace_items,
    DirEntry, DirEntryView,
};
use crate::roots::string_views;

verus! {

/// Which source an invocation asks for.
#[derive(Debug, Clone, Copy, PartialEq, Eq, Structural)]
pub enum Mode {
    /// The workspaces of the editor's history.
    Recent,
    /// The directories under the project roots.
    Dirs,
}

/// What the arguments of an invocation ask for.
#[derive(Debug)]
pub struct Invocation {
    pub mode: Mode,
    pub query: Option<String>,
}

/// Whether the arguments, the program's name first, ask for directories.
pub open spec fn asks_for_dirs(args: Seq<Seq<char>>) -> bool {
    args.len() > 1 && args[1] == "--dirs"@
}

/// The mode that the arguments ask for.
pub open spec fn mode_of(args: Seq<Seq<char>>) -> Mode {
    if asks_for_dirs(args) {
        Mode::Dirs
    } else {
        Mode::Recent
    }
}

/// The query among the arguments: the first argument behind the program's
/// name and the flag, where there is one.
pub open spec fn query_of(args: Seq<Seq<char>>) -> Option<Seq<char>> {
    let at: int = if asks_for_dirs(args) {
        2
    } else {
        1
    };
    if args.len() > at {
        Some(args[at])
    } else {
        None
    }
}

/// The items of the document: the items given, or the placeholder alone
/// where none is given.
pub open spec fn with_placeholder(items: Seq<ItemView>) -> Seq<ItemView> {
    if items.len() == 0 {
        seq![placeholder()]
    } else {
        items
    }
}

/// No item says whether it is valid.
pub open spec fn all_valid_absent(items: Seq<ItemView>) -> bool {
    forall|i: int| 0 <= i < items.len() ==> (#[trigger] items[i]).valid.is_none()
}

/// What holds of every document: it is not empty, and it holds either the
/// placeholder alone or items that do not say whether they are valid.
pub open spec fn well_formed(items: Seq<ItemView>) -> bool {
    items.len() >= 1 && (items == seq![placeholder()] || all_valid_absent(items))
}

/// `out` is the document for the directories among the entries and the
/// query.
pub open spec fn is_directory_response(
    out: Seq<ItemView>,
    entries: Seq<DirEntryView>,
    query: Option<Seq<char>>,
) -> bool {
    exists|listing: Seq<ItemView>|
        #[trigger] is_directory_listing(listing, entries, query) && out == with_placeholder(
            listing,
        )
}

/// Reads the mode and the query from the arguments, the program's name
/// first.
pub fn parse_args(args: &Vec<String>) -> (r: Invocation)
    ensures
        r.mode == mode_of(string_views(args@)),
        query_view(r.query) == query_of(string_views(args@)),
{
    let flag: String = "--dirs".to_owned();
    let dirs: bool = args.len() > 1 && args[1] == flag;
    let (mode, at): (Mode, usize) = if dirs {
        (Mode::Dirs, 2)
    } else {
        (Mode::Recent, 1)
    };
    let query: Option<String> = if args.len() > at {
        Some(args[at].clone())
    } else {
        None
    };
    Invocation { mode, query }
}

/// Wraps the items into the document, with the placeholder alone where
/// there are none.
pub fn assemble(items: Vec<Item>) -> (r: Response)
    ensures
        r@ == with_placeholder(item_views(items@)),
        r@.len() >= 1,
        items@.len() > 0 ==> r.items == items,
{
    let mut items = items;
    if items.len() == 0 {
        items.push(no_results_item());
        proof {
            assert(item_views(items@) =~= seq![placeholder()]);
        }
    }
    Response { items }
}

/// The document for the workspaces and the query. Where no workspace
/// matches it holds the placeholder alone; otherwise no item of it says
/// whether it is valid.
pub fn recent_response(rows: &Vec<Option<Workspace>>, query: Option<String>) -> (r: Response)
    ensures
        r@ == with_placeholder(
            filter_views(workspace_items(row_views(rows@)), query_view(query)),
        ),
        well_formed(r@),
{
    let items: Vec<Item> = list_recent_projects(rows, query);
    proof {
        let all = workspace_items(row_views(rows@));
        let kept = filter_views(all, query_view(query));
        let at = filter_positions(all, query_view(query));
        lemma_filter_positions(all, query_view(query));
        assert forall|i: int| 0 <= i < kept.len() implies (#[trigger] kept[i]).valid.is_none() by {
            assert(kept[i] == all[at[i]]);
            lemma_workspace_items_valid_absent(row_views(rows@), at[i]);
        }
    }
    assemble(items)
}

/// The document for the directories among the entries and the query. Where
/// no directory matches it holds the placeholder alone; otherwise no item of
/// it says whether it is valid.
pub fn directory_response(entries: &Vec<DirEntry>, query: Option<String>) -> (r: Response)
    ensures
        is_directory_response(r@, entry_views(entries@), query_view(query)),
        well_formed(r@),
{
    let items: Vec<Item> = list_directories(entries, query);
    proof {
        let listing = item_views(items@);
        assert(is_directory_listing(listing, entry_views(entries@), query_view(query)));
        assert forall|i: int| 0 <= i < listing.len() implies (#[trigger] listing[i]).valid.is_none(
        ) by {
            lemma_listing_excludes_hidden(listing, entry_views(entries@), query_view(query), i);
        }
    }
    assemble(items)
}

/// The document never is empty: it holds the placeholder alone, which says
/// that it is not valid, exactly where no item is given; otherwise it holds
/// the items given.
pub proof fn lemma_placeholder_when_empty(items: Seq<ItemView>)
    ensures
        with_placeholder(items).len() >= 1,
        items.len() == 0 ==> with_placeholder(items).len() == 1 && with_placeholder(items)[0].uid
            == "no-results"@ && with_placeholder(items)[0].valid == Some(false),
        items.len() > 0 ==> with_placeholder(items) == items,
        items.len() > 0 && all_valid_absent(items) ==> all_valid_absent(with_placeholder(items)),
{
}

} // verus!
