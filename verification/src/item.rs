//! The result record shown by the launcher, its icon, and how a record is
//! made from a workspace of the editor's history or from a directory.

use vstd::prelude::*;
use vstd::string::*;
use crate::text::{
    find_char_from, find_from, last_segment, last_segment_of, lemma_last_segment_is_suffix,
    strip_trailing, strip_trailing_char,
};

verus! {

/// What an `Icon` holds, as sequences of characters.
pub struct IconView {
    pub path: Seq<char>,
    pub kind: Seq<char>,
}

/// What an `Item` holds, as sequences of characters.
pub struct ItemView {
    pub uid: Seq<char>,
    pub title: Seq<char>,
    pub subtitle: Seq<char>,
    pub icon: IconView,
    pub arg: Seq<char>,
    pub valid: Option<bool>,
}

/// What a `Workspace` holds.
pub struct WorkspaceView {
    pub workspace_id: int,
    pub local_paths: Seq<char>,
}

/// What a `PathParts` holds.
pub struct PathPartsView {
    pub text: Option<Seq<char>>,
    pub file_name: Option<Seq<char>>,
}

/// How the launcher draws an item. `kind` is the icon's type tag: `"file"`
/// for the icon of the file at `path`, empty for an image stored at `path`.
#[derive(Debug)]
pub struct Icon {
    pub path: String,
    pub kind: String,
}

/// One selectable result. `valid` is absent on every item but the
/// placeholder, where it is `Some(false)`.
#[derive(Debug)]
pub struct Item {
    pub uid: String,
    pub title: String,
    pub subtitle: String,
    pub icon: Icon,
    pub arg: String,
    pub valid: Option<bool>,
}

/// One record of the editor's history: its number and the path as stored,
/// which may carry a scheme in front of the first `/`.
#[derive(Debug)]
pub struct Workspace {
    pub workspace_id: i64,
    pub local_paths: String,
}

/// What the logic reads of a path of the file system: the whole path and its
/// final component, each as text where it exists and is valid Unicode.
#[derive(Debug)]
pub struct PathParts {
    pub text: Option<String>,
    pub file_name: Option<String>,
}

/// The document handed to the launcher.
#[derive(Debug)]
pub struct Response {
    pub items: Vec<Item>,
}

impl View for Icon {
    type V = IconView;

    open spec fn view(&self) -> IconView {
        IconView { path: self.path@, kind: self.kind@ }
    }
}

impl View for Item {
    type V = ItemView;

    open spec fn view(&self) -> ItemView {
        ItemView {
            uid: self.uid@,
            title: self.title@,
            subtitle: self.subtitle@,
            icon: self.icon@,
            arg: self.arg@,
            valid: self.valid,
        }
    }
}

impl View for Workspace {
    type V = WorkspaceView;

    open spec fn view(&self) -> WorkspaceView {
        WorkspaceView { workspace_id: self.workspace_id as int, local_paths: self.local_paths@ }
    }
}

impl View for PathParts {
    type V = PathPartsView;

    open spec fn view(&self) -> PathPartsView {
        PathPartsView {
            text: match self.text {
                Some(t) => Some(t@),
                None => None,
            },
            file_name: match self.file_name {
                Some(n) => Some(n@),
                None => None,
            },
        }
    }
}

/// The views of a sequence of items, in order.
pub open spec fn item_views(items: Seq<Item>) -> Seq<ItemView> {
    items.map_values(|it: Item| it@)
}

impl View for Response {
    type V = Seq<ItemView>;

    open spec fn view(&self) -> Seq<ItemView> {
        item_views(self.items@)
    }
}

/// The type tag of an icon that is taken from the file at its path.
pub open spec fn icon_type_file() -> Seq<char> {
    "file"@
}

/// The icon of the file at `path`.
pub open spec fn file_icon(path: Seq<char>) -> IconView {
    IconView { path, kind: icon_type_file() }
}

/// The item that stands for the file or directory at `path`.
pub open spec fn file_item(uid: Seq<char>, title: Seq<char>, path: Seq<char>) -> ItemView {
    ItemView { uid, title, subtitle: path, icon: file_icon(path), arg: path, valid: None }
}

/// The path in a stored workspace path: what starts at its first `/`, empty
/// where it holds none.
pub open spec fn workspace_path(raw: Seq<char>) -> Seq<char> {
    raw.subrange(find_from(raw, '/', 0), raw.len() as int)
}

/// The display name of a stored workspace path: the last segment of its
/// path, the `/` at its end left aside.
pub open spec fn workspace_title(raw: Seq<char>) -> Seq<char> {
    last_segment(strip_trailing(workspace_path(raw), '/'), '/')
}

/// The digit `d` as a character.
pub open spec fn digit_char(d: nat) -> char
    recommends
        d < 10,
{
    ('0' as nat + d) as char
}

/// `n` in decimal digits, without leading zeros.
pub open spec fn decimal_digits(n: nat) -> Seq<char>
    decreases n,
{
    if n < 10 {
        seq![digit_char(n)]
    } else {
        decimal_digits(n / 10).push(digit_char(n % 10))
    }
}

/// `n` in decimal, with `-` in front where it is negative.
pub open spec fn decimal(n: int) -> Seq<char> {
    if n < 0 {
        seq!['-'] + decimal_digits((-n) as nat)
    } else {
        decimal_digits(n as nat)
    }
}

/// The item for a workspace of the history.
pub open spec fn item_of_workspace(w: WorkspaceView) -> ItemView {
    file_item(
        decimal(w.workspace_id),
        workspace_title(w.local_paths),
        workspace_path(w.local_paths),
    )
}

/// The item for a path of the file system, where it has one.
pub open spec fn item_of_path(p: PathPartsView) -> Option<ItemView> {
    match (p.text, p.file_name) {
        (Some(text), Some(name)) => Some(file_item(text, name, text)),
        _ => None,
    }
}

/// Whether the two parts belong to one path: where both are there, the
/// name is not empty, holds no `/`, and ends the text, alone or right
/// behind a `/`.
pub open spec fn path_parts_well_formed(p: PathPartsView) -> bool {
    match (p.text, p.file_name) {
        (Some(text), Some(name)) => {
            &&& 0 < name.len() <= text.len()
            &&& forall|j: int| 0 <= j < name.len() ==> name[j] != '/'
            &&& text.subrange(text.len() - name.len(), text.len() as int) == name
            &&& (text.len() == name.len() || text[text.len() - name.len() - 1] == '/')
        },
        _ => true,
    }
}

/// The item of a well-formed path: its title is not empty, holds no `/`, and
/// is the last segment of its identifier, which is the path; subtitle,
/// argument and icon are the path too.
pub proof fn lemma_item_of_well_formed_path(p: PathPartsView)
    requires
        path_parts_well_formed(p),
        item_of_path(p).is_some(),
    ensures
        item_of_path(p).unwrap().title.len() > 0,
        forall|j: int|
            0 <= j < item_of_path(p).unwrap().title.len() ==> item_of_path(p).unwrap().title[j]
                != '/',
        item_of_path(p).unwrap().title == last_segment(item_of_path(p).unwrap().uid, '/'),
        Some(item_of_path(p).unwrap().uid) == p.text,
        item_of_path(p).unwrap().subtitle == item_of_path(p).unwrap().uid,
        item_of_path(p).unwrap().arg == item_of_path(p).unwrap().uid,
        item_of_path(p).unwrap().icon.path == item_of_path(p).unwrap().uid,
{
    lemma_last_segment_is_suffix(p.text.unwrap(), p.file_name.unwrap(), '/');
}

/// The item shown when nothing matches.
pub open spec fn placeholder() -> ItemView {
    ItemView {
        uid: "no-results"@,
        title: "No results found"@,
        subtitle: "Try a different search term"@,
        icon: IconView { path: "icon.png"@, kind: ""@ },
        arg: ""@,
        valid: Some(false),
    }
}

/// A numeral is not empty and holds digits only.
pub proof fn lemma_decimal_digits_shape(n: nat)
    ensures
        decimal_digits(n).len() >= 1,
        forall|i: int|
            0 <= i < decimal_digits(n).len() ==> '0' as int <= (#[trigger] decimal_digits(n)[i])
                as int <= '9' as int,
    decreases n,
{
    if n >= 10 {
        lemma_decimal_digits_shape(n / 10);
    }
}

/// Two numbers with the same digits are one number.
pub proof fn lemma_decimal_digits_injective(a: nat, b: nat)
    requires
        decimal_digits(a) == decimal_digits(b),
    ensures
        a == b,
    decreases a,
{
    lemma_decimal_digits_shape(a / 10);
    lemma_decimal_digits_shape(b / 10);
    if a < 10 && b < 10 {
        assert(decimal_digits(a)[0] == digit_char(a));
        assert(decimal_digits(b)[0] == digit_char(b));
    } else if a >= 10 && b >= 10 {
        let front_a = decimal_digits(a / 10);
        let front_b = decimal_digits(b / 10);
        assert(front_a =~= decimal_digits(a).drop_last());
        assert(front_b =~= decimal_digits(b).drop_last());
        assert(decimal_digits(a).last() == digit_char(a % 10));
        assert(decimal_digits(b).last() == digit_char(b % 10));
        lemma_decimal_digits_injective(a / 10, b / 10);
    }
}

/// Two numbers that are written alike in decimal are one number: distinct
/// workspaces have distinct identifiers.
pub proof fn lemma_decimal_injective(a: int, b: int)
    requires
        decimal(a) == decimal(b),
    ensures
        a == b,
{
    let na = if a < 0 { (-a) as nat } else { a as nat };
    let nb = if b < 0 { (-b) as nat } else { b as nat };
    lemma_decimal_digits_shape(na);
    lemma_decimal_digits_shape(nb);
    if a < 0 && b < 0 {
        assert(decimal_digits(na) =~= decimal(a).skip(1));
        assert(decimal_digits(nb) =~= decimal(b).skip(1));
        lemma_decimal_digits_injective(na, nb);
    } else if a >= 0 && b >= 0 {
        lemma_decimal_digits_injective(na, nb);
    } else if a < 0 {
        assert(decimal(a)[0] == '-');
        assert(decimal(b)[0] == decimal_digits(nb)[0]);
    } else {
        assert(decimal(b)[0] == '-');
        assert(decimal(a)[0] == decimal_digits(na)[0]);
    }
}

/// The digit `d` as text.
fn digit_text(d: u64) -> (r: &'static str)
    requires
        d < 10,
    ensures
        r@ == seq![digit_char(d as nat)],
{
    let r: &'static str = if d == 0 {
        "0"
    } else if d == 1 {
        "1"
    } else if d == 2 {
        "2"
    } else if d == 3 {
        "3"
    } else if d == 4 {
        "4"
    } else if d == 5 {
        "5"
    } else if d == 6 {
        "6"
    } else if d == 7 {
        "7"
    } else if d == 8 {
        "8"
    } else {
        "9"
    };
    proof {
        reveal_strlit("0");
        reveal_strlit("1");
        reveal_strlit("2");
        reveal_strlit("3");
        reveal_strlit("4");
        reveal_strlit("5");
        reveal_strlit("6");
        reveal_strlit("7");
        reveal_strlit("8");
        reveal_strlit("9");
        assert(r@ =~= seq![digit_char(d as nat)]);
    }
    r
}

/// `n` in decimal digits, without leading zeros.
pub fn decimal_digits_of(n: u64) -> (r: String)
    ensures
        r@ == decimal_digits(n as nat),
    decreases n,
{
    if n < 10 {
        digit_text(n).to_owned()
    } else {
        let mut text: String = decimal_digits_of(n / 10);
        text.append(digit_text(n % 10));
        proof {
            assert(text@ =~= decimal_digits((n / 10) as nat).push(digit_char((n % 10) as nat)));
        }
        text
    }
}

/// `n` in decimal, with `-` in front where it is negative.
pub fn decimal_string(n: i64) -> (r: String)
    ensures
        r@ == decimal(n as int),
{
    if n < 0 {
        let magnitude: u64 = (-(n + 1)) as u64 + 1;
        let mut text: String = "-".to_owned();
        text.append(decimal_digits_of(magnitude).as_str());
        proof {
            reveal_strlit("-");
            assert("-"@ =~= seq!['-']);
        }
        text
    } else {
        decimal_digits_of(n as u64)
    }
}

impl Icon {
    /// The icon of the file at `path`.
    pub fn new(path: String) -> (r: Icon)
        ensures
            r@ == file_icon(path@),
            r.path == path,
    {
        Icon { path, kind: "file".to_owned() }
    }
}

/// Splits a stored workspace path into its display name and its path.
pub fn normalize_workspace_path(raw: &str) -> (r: (String, String))
    ensures
        r.0@ == workspace_title(raw@),
        r.1@ == workspace_path(raw@),
{
    let n: usize = raw.unicode_len();
    let index: usize = find_char_from(raw, '/', 0);
    let path: &str = raw.substring_char(index, n);
    let name: &str = last_segment_of(strip_trailing_char(path, '/'), '/');
    (name.to_owned(), path.to_owned())
}

impl Item {
    /// The item for a workspace of the history: its number in decimal as the
    /// identifier, the last segment of its path as the title, the path as
    /// subtitle, argument and icon.
    pub fn from_workspace(workspace: &Workspace) -> (r: Item)
        ensures
            r@ == item_of_workspace(workspace@),
    {
        let (name, path) = normalize_workspace_path(workspace.local_paths.as_str());
        Item {
            uid: decimal_string(workspace.workspace_id),
            title: name,
            subtitle: path.clone(),
            icon: Icon::new(path.clone()),
            arg: path,
            valid: None,
        }
    }

    /// The item for a path of the file system: the path as identifier,
    /// subtitle, argument and icon, its final component as the title. There
    /// is none where the path is no text or has no final component.
    pub fn from_path(path: &PathParts) -> (r: Option<Item>)
        ensures
            match r {
                Some(item) => item_of_path(path@) == Some(item@),
                None => item_of_path(path@).is_none(),
            },
    {
        match (&path.text, &path.file_name) {
            (Some(text), Some(name)) => Some(
                Item {
                    uid: text.clone(),
                    title: name.clone(),
                    subtitle: text.clone(),
                    icon: Icon::new(text.clone()),
                    arg: text.clone(),
                    valid: None,
                },
            ),
            _ => None,
        }
    }
}

impl From<Workspace> for Item {
    fn from(workspace: Workspace) -> (r: Item)
        ensures
            r@ == item_of_workspace(workspace@),
    {
        Item::from_workspace(&workspace)
    }
}

impl vstd::std_specs::convert::FromSpecImpl<Workspace> for Item {
    open spec fn obeys_from_spec() -> bool {
        false
    }

    open spec fn from_spec(workspace: Workspace) -> Item {
        arbitrary()
    }
}

/// The item shown when nothing matches: it cannot be chosen, and its icon is
/// the image that ships beside the program.
pub fn no_results_item() -> (r: Item)
    ensures
        r@ == placeholder(),
{
    Item {
        uid: "no-results".to_owned(),
        title: "No results found".to_owned(),
        subtitle: "Try a different search term".to_owned(),
        icon: Icon { path: "icon.png".to_owned(), kind: "".to_owned() },
        arg: "".to_owned(),
        valid: Some(false),
    }
}

} // verus!
