//! Message classification and the save-to-disk trigger.
//!
//! An LSP message is classified by its JSON shape alone: a member `id` with
//! a `method` makes a request, `id` without `method` a response, `method`
//! without `id` a notification. A `textDocument/didSave` notification that
//! carries the document text and a `file://` URI asks for a write to disk;
//! the write itself happens outside the library.

use vstd::prelude::*;

use crate::config::clone_chars;
use crate::json::{Json, JsonModel};
use crate::remap::has_prefix;
use crate::util::{chars_eq, str_to_chars};

verus! {

/// The envelope shapes the bridge tells apart.
#[derive(Clone, Copy, PartialEq, Eq, Structural, Debug)]
pub enum MessageKind {
    Request,
    Response,
    Notification,
    /// No `id` and no `method`: carried through opaquely.
    Other,
}

/// The shape of a message: `id` and `method` decide.
pub open spec fn spec_classify(m: JsonModel) -> MessageKind {
    if m is Obj {
        if m.has_key("id"@) && m.has_key("method"@) {
            MessageKind::Request
        } else if m.has_key("id"@) {
            MessageKind::Response
        } else if m.has_key("method"@) {
            MessageKind::Notification
        } else {
            MessageKind::Other
        }
    } else {
        MessageKind::Other
    }
}

/// Classifies a message by its shape.
pub fn classify(msg: &Json) -> (r: MessageKind)
    ensures
        r == spec_classify(msg@),
{
    match msg {
        Json::Obj(_) => {
            let has_id = msg.get(str_to_chars("id").as_slice()).is_some();
            let has_method = msg.get(str_to_chars("method").as_slice()).is_some();
            if has_id && has_method {
                MessageKind::Request
            } else if has_id {
                MessageKind::Response
            } else if has_method {
                MessageKind::Notification
            } else {
                MessageKind::Other
            }
        },
        _ => MessageKind::Other,
    }
}

/// The message's `method` string, when it has one.
pub open spec fn spec_method(m: JsonModel) -> Option<Seq<char>> {
    m.get_str("method"@)
}

/// A pending write to disk: the filesystem path and the document text.
pub struct SaveAction {
    pub path: Vec<char>,
    pub text: Vec<char>,
}

impl View for SaveAction {
    type V = (Seq<char>, Seq<char>);

    open spec fn view(&self) -> (Seq<char>, Seq<char>) {
        (self.path@, self.text@)
    }
}

pub open spec fn file_scheme() -> Seq<char> {
    "file://"@
}

/// The write a message asks for: a `textDocument/didSave` notification with
/// a `text` member and a `file://` document URI.
pub open spec fn spec_save_target(m: JsonModel) -> Option<(Seq<char>, Seq<char>)> {
    if spec_classify(m) == MessageKind::Notification && spec_method(m) == Some(
        "textDocument/didSave"@,
    ) {
        match m.get("params"@) {
            Some(p) => match (p.get_str("text"@), p.get("textDocument"@)) {
                (Some(text), Some(td)) => match td.get_str("uri"@) {
                    Some(uri) => if has_prefix(uri, file_scheme()) {
                        Some((uri.skip(file_scheme().len() as int), text))
                    } else {
                        None
                    },
                    None => None,
                },
                _ => None,
            },
            None => None,
        }
    } else {
        None
    }
}

/// Finds the write a message asks for, if any.
pub fn save_target(msg: &Json) -> (r: Option<SaveAction>)
    ensures
        match r {
            Some(a) => spec_save_target(msg@) == Some(a@),
            None => spec_save_target(msg@) is None,
        },
{
    if !matches!(classify(msg), MessageKind::Notification) {
        return None;
    }
    match msg.get(str_to_chars("method").as_slice()) {
        Some(Json::Str(m)) => {
            if !chars_eq(m.as_slice(), str_to_chars("textDocument/didSave").as_slice()) {
                return None;
            }
        },
        _ => {
            return None;
        },
    }
    let params = match msg.get(str_to_chars("params").as_slice()) {
        Some(p) => p,
        None => {
            return None;
        },
    };
    let text = match params.get(str_to_chars("text").as_slice()) {
        Some(Json::Str(t)) => t,
        _ => {
            return None;
        },
    };
    let td = match params.get(str_to_chars("textDocument").as_slice()) {
        Some(td) => td,
        None => {
            return None;
        },
    };
    let uri = match td.get(str_to_chars("uri").as_slice()) {
        Some(Json::Str(u)) => u,
        _ => {
            return None;
        },
    };
    let scheme = str_to_chars("file://");
    if !crate::remap::starts_with(uri.as_slice(), scheme.as_slice()) {
        return None;
    }
    let path_slice = vstd::slice::slice_subrange(uri.as_slice(), scheme.len(), uri.len());
    proof {
        assert(path_slice@ =~= uri@.skip(file_scheme().len() as int));
    }
    let mut path: Vec<char> = Vec::new();
    crate::util::append_chars(&mut path, path_slice);
    proof {
        assert(path@ =~= path_slice@);
    }
    Some(SaveAction { path, text: clone_chars(text) })
}

} // verus!
