//! The document as JSON text: the framing of objects and lists is written
//! here, the quoting of strings is left to `serde_json`.

use vstd::prelude::*;
use vstd::string::*;
use crate::history::Failure;
use crate::item::{item_views, Item, ItemView, Response};
use crate::roots::string_views;

verus! {

/// The error of `serde_json`, carried through as it is.
#[verifier::external_type_specification]
#[verifier::external_body]
pub struct ExJsonError(serde_json::Error);

/// What `serde_json::to_string` makes of a string: the string between double
/// quotes, with the characters escaped that JSON does not take as they are.
pub uninterp spec fn json_quoted(text: Seq<char>) -> Seq<char>;

/// Calls `serde_json::to_string` on a string. It is taken to succeed: the
/// crate writes into a vector of bytes, and a string is written by the one
/// call that can fail only where the writer does. The result is taken to be
/// a function of the characters of `text` alone, named `json_quoted`.
#[verifier::external_body]
pub(crate) fn quote_json(text: &str) -> (r: Result<String, serde_json::Error>)
    ensures
        r is Ok,
        r matches Ok(quoted) ==> quoted@ == json_quoted(text@),
{
    serde_json::to_string(text)
}

/// Calls `to_string` on an error of `serde_json`, for its message. Nothing
/// is claimed of the message.
#[verifier::external_body]
pub(crate) fn json_error_text(error: &serde_json::Error) -> (r: String) {
    error.to_string()
}

/// The member that says whether an item is valid, with the comma in front
/// of it; nothing where the item does not say.
pub open spec fn valid_member(valid: Option<bool>) -> Seq<char> {
    match valid {
        Some(true) => ",\"valid\":true"@,
        Some(false) => ",\"valid\":false"@,
        None => Seq::empty(),
    }
}

/// The object of an item whose strings are already quoted.
pub open spec fn framed_item(
    uid: Seq<char>,
    title: Seq<char>,
    subtitle: Seq<char>,
    icon_path: Seq<char>,
    icon_kind: Seq<char>,
    arg: Seq<char>,
    valid: Option<bool>,
) -> Seq<char> {
    "{\"uid\":"@ + uid + ",\"title\":"@ + title + ",\"subtitle\":"@ + subtitle
        + ",\"icon\":{\"path\":"@ + icon_path + ",\"type\":"@ + icon_kind + "},\"arg\":"@ + arg
        + valid_member(valid) + "}"@
}

/// The texts with a comma between each two.
pub open spec fn joined(texts: Seq<Seq<char>>) -> Seq<char>
    decreases texts.len(),
{
    if texts.len() == 0 {
        Seq::empty()
    } else if texts.len() == 1 {
        texts[0]
    } else {
        joined(texts.drop_last()) + ","@ + texts.last()
    }
}

/// The document that holds the given objects as its items.
pub open spec fn framed_document(objects: Seq<Seq<char>>) -> Seq<char> {
    "{\"items\":["@ + joined(objects) + "]}"@
}

/// An item as a JSON object.
pub open spec fn item_json(item: ItemView) -> Seq<char> {
    framed_item(
        json_quoted(item.uid),
        json_quoted(item.title),
        json_quoted(item.subtitle),
        json_quoted(item.icon.path),
        json_quoted(item.icon.kind),
        json_quoted(item.arg),
        item.valid,
    )
}

/// The document as JSON text.
pub open spec fn document_json(items: Seq<ItemView>) -> Seq<char> {
    framed_document(items.map_values(|item: ItemView| item_json(item)))
}

/// The object of an item from its strings, each already quoted. The member
/// `valid` is written only where the item says whether it is valid.
pub fn frame_item(
    uid: &str,
    title: &str,
    subtitle: &str,
    icon_path: &str,
    icon_kind: &str,
    arg: &str,
    valid: Option<bool>,
) -> (r: String)
    ensures
        r@ == framed_item(uid@, title@, subtitle@, icon_path@, icon_kind@, arg@, valid),
{
    let mut text: String = "{\"uid\":".to_owned();
    text.append(uid);
    text.append(",\"title\":");
    text.append(title);
    text.append(",\"subtitle\":");
    text.append(subtitle);
    text.append(",\"icon\":{\"path\":");
    text.append(icon_path);
    text.append(",\"type\":");
    text.append(icon_kind);
    text.append("},\"arg\":");
    text.append(arg);
    match valid {
        Some(true) => {
            text.append(",\"valid\":true");
        },
        Some(false) => {
            text.append(",\"valid\":false");
        },
        None => {
            proof {
                assert(text@ + Seq::<char>::empty() =~= text@);
            }
        },
    }
    text.append("}");
    text
}

/// The document that holds the given objects as its items, with a comma
/// between each two.
pub fn frame_document(objects: &Vec<String>) -> (r: String)
    ensures
        r@ == framed_document(string_views(objects@)),
{
    let mut list: String = String::new();
    let n: usize = objects.len();
    let mut i: usize = 0;
    proof {
        assert(string_views(objects@.subrange(0, 0)) =~= Seq::<Seq<char>>::empty());
    }
    while i < n
        invariant
            n == objects@.len(),
            i <= n,
            list@ == joined(string_views(objects@.subrange(0, i as int))),
        decreases n - i,
    {
        proof {
            let before = string_views(objects@.subrange(0, i as int));
            let now = string_views(objects@.subrange(0, i + 1));
            assert(now.drop_last() =~= before);
            assert(now.last() == objects@[i as int]@);
            assert(Seq::<char>::empty() + objects@[i as int]@ =~= objects@[i as int]@);
        }
        if i > 0 {
            list.append(",");
        }
        list.append(objects[i].as_str());
        i = i + 1;
    }
    proof {
        assert(objects@.subrange(0, n as int) =~= objects@);
    }
    let mut text: String = "{\"items\":[".to_owned();
    text.append(list.as_str());
    text.append("]}");
    text
}

impl Item {
    /// The item as a JSON object. Every item has one; the error in the type
    /// is the one that quoting a string can return, and it never comes.
    pub fn to_json(&self) -> (r: Result<String, serde_json::Error>)
        ensures
            r matches Ok(text) && text@ == item_json(self@),
    {
        object_of_quoted(
            quote_json(self.uid.as_str()),
            quote_json(self.title.as_str()),
            quote_json(self.subtitle.as_str()),
            quote_json(self.icon.path.as_str()),
            quote_json(self.icon.kind.as_str()),
            quote_json(self.arg.as_str()),
            self.valid,
        )
    }
}

impl Response {
    /// The document as JSON text. Every response has one: `Serialization`
    /// is for what fails behind it, when the text is written.
    pub fn to_json(&self) -> (r: Result<String, Failure>)
        ensures
            r matches Ok(text) && text@ == document_json(self@),
    {
        let mut objects: Vec<String> = Vec::new();
        let n: usize = self.items.len();
        let mut i: usize = 0;
        while i < n
            invariant
                n == self.items@.len(),
                i <= n,
                objects@.len() == i,
                forall|k: int| 0 <= k < i ==> (#[trigger] objects@[k])@ == item_json(self.items@[k]@),
            decreases n - i,
        {
            match self.items[i].to_json() {
                Ok(object) => {
                    objects.push(object);
                },
                Err(error) => {
                    return Err(Failure::Serialization(json_error_text(&error)));
                },
            }
            i = i + 1;
        }
        proof {
            assert(string_views(objects@) =~= item_views(self.items@).map_values(
                |item: ItemView| item_json(item),
            ));
        }
        Ok(frame_document(&objects))
    }
}

/// The first of the results that is an error, in the order given.
pub open spec fn first_error(
    results: Seq<Result<String, serde_json::Error>>,
) -> Option<serde_json::Error>
    decreases results.len(),
{
    if results.len() == 0 {
        None
    } else {
        match results[0] {
            Err(error) => Some(error),
            Ok(_) => first_error(results.skip(1)),
        }
    }
}

/// The object of an item from what quoting each of its strings gave: the
/// framed object where every string was quoted, otherwise the error of the
/// first string that was not, in the order of the members.
pub fn object_of_quoted(
    uid: Result<String, serde_json::Error>,
    title: Result<String, serde_json::Error>,
    subtitle: Result<String, serde_json::Error>,
    icon_path: Result<String, serde_json::Error>,
    icon_kind: Result<String, serde_json::Error>,
    arg: Result<String, serde_json::Error>,
    valid: Option<bool>,
) -> (r: Result<String, serde_json::Error>)
    ensures
        r is Ok <==> uid is Ok && title is Ok && subtitle is Ok && icon_path is Ok
            && icon_kind is Ok && arg is Ok,
        r matches Ok(text) ==> uid matches Ok(u) && title matches Ok(t) && subtitle matches Ok(s)
            && icon_path matches Ok(p) && icon_kind matches Ok(k) && arg matches Ok(a) && text@
            == framed_item(u@, t@, s@, p@, k@, a@, valid),
        r matches Err(error) ==> first_error(
            seq![uid, title, subtitle, icon_path, icon_kind, arg],
        ) == Some(error),
{
    proof {
        reveal_with_fuel(first_error, 8);
        let all = seq![uid, title, subtitle, icon_path, icon_kind, arg];
        assert(all.skip(1) =~= seq![title, subtitle, icon_path, icon_kind, arg]);
        assert(all.skip(1).skip(1) =~= seq![subtitle, icon_path, icon_kind, arg]);
        assert(all.skip(1).skip(1).skip(1) =~= seq![icon_path, icon_kind, arg]);
        assert(all.skip(1).skip(1).skip(1).skip(1) =~= seq![icon_kind, arg]);
        assert(all.skip(1).skip(1).skip(1).skip(1).skip(1) =~= seq![arg]);
        assert(seq![arg].skip(1) =~= Seq::<Result<String, serde_json::Error>>::empty());
    }
    let uid: String = match uid {
        Ok(quoted) => quoted,
        Err(error) => {
            return Err(error);
        },
    };
    let title: String = match title {
        Ok(quoted) => quoted,
        Err(error) => {
            return Err(error);
        },
    };
    let subtitle: String = match subtitle {
        Ok(quoted) => quoted,
        Err(error) => {
            return Err(error);
        },
    };
    let icon_path: String = match icon_path {
        Ok(quoted) => quoted,
        Err(error) => {
            return Err(error);
        },
    };
    let icon_kind: String = match icon_kind {
        Ok(quoted) => quoted,
        Err(error) => {
            return Err(error);
        },
    };
    let arg: String = match arg {
        Ok(quoted) => quoted,
        Err(error) => {
            return Err(error);
        },
    };
    Ok(
        frame_item(
            uid.as_str(),
            title.as_str(),
            subtitle.as_str(),
            icon_path.as_str(),
            icon_kind.as_str(),
            arg.as_str(),
            valid,
        ),
    )
}

} // verus!
