//! The file list of the web client: the rename dialog and the texts shown
//! around deleting and renaming.

use vstd::prelude::*;
use crate::client::{RenameData, display_name, display_name_spec};
use crate::seqs::{push_chars, push_str};
use crate::text::{chars_of, string_from_chars, trim_whitespace, trim_ws};

verus! {

/// The rename dialog: the item it is open for, if any, and the name typed.
pub struct RenameDialog {
    target: Option<RenameData>,
    input: String,
}

impl RenameDialog {
    /// The path and current name of the item the dialog is open for.
    pub closed spec fn target(&self) -> Option<(Seq<char>, Seq<char>)> {
        match self.target {
            Some(t) => Some((t.item_path@, t.current_name@)),
            None => None,
        }
    }

    /// The name typed so far.
    pub closed spec fn input(&self) -> Seq<char> {
        self.input@
    }

    /// A closed dialog.
    pub fn new() -> (r: Self)
        ensures r.target() is None, r.input().len() == 0,
    {
        RenameDialog { target: None, input: String::new() }
    }

    /// Whether the dialog is open.
    pub fn is_open(&self) -> (r: bool)
        ensures r == self.target() is Some,
    {
        self.target.is_some()
    }

    /// The name typed so far.
    pub fn input_text(&self) -> (r: &str)
        ensures r@ == self.input(),
    {
        self.input.as_str()
    }

    /// Opens the dialog for the item at `path`, with its current name typed.
    pub fn start(&mut self, path: String, current_name: String)
        ensures
            final(self).target() == Some((path@, current_name@)),
            final(self).input() == current_name@,
    {
        let typed = current_name.clone();
        self.target = Some(RenameData { item_path: path, current_name });
        self.input = typed;
    }

    /// Closes the dialog and forgets the typed name.
    pub fn cancel(&mut self)
        ensures final(self).target() is None, final(self).input().len() == 0,
    {
        self.target = None;
        self.input = String::new();
    }

    /// The typed name changed.
    pub fn input_changed(&mut self, value: String)
        ensures final(self).target() == old(self).target(), final(self).input() == value@,
    {
        self.input = value;
    }

    /// The rename was confirmed. A name that is blank once trimmed changes
    /// nothing; otherwise the dialog lets go of its item and the path and the
    /// trimmed name are returned for the request.
    pub fn confirm(&mut self) -> (r: Option<(String, String)>)
        ensures
            trim_ws(old(self).input()).len() == 0 ==> r is None && final(self).target() == old(self).target()
                && final(self).input() == old(self).input(),
            trim_ws(old(self).input()).len() > 0 ==> {
                &&& final(self).target() is None
                &&& final(self).input() == old(self).input()
                &&& match old(self).target() {
                    Some((path, _)) => r matches Some((p, n)) && p@ == path && n@ == trim_ws(old(self).input()),
                    None => r is None,
                }
            },
    {
        let name = trim_whitespace(self.input.as_str());
        if name.as_str().unicode_len() == 0 {
            return None;
        }
        let target = self.target.take();
        match target {
            Some(t) => Some((t.item_path, name)),
            None => None,
        }
    }

    /// The server answered the rename: the dialog closes and the typed name is
    /// forgotten.
    pub fn finished(&mut self)
        ensures final(self).target() is None, final(self).input().len() == 0,
    {
        self.cancel();
    }
}

/// The question asked before deleting the item at `path`: the prefix, the
/// item's name (the last part of its path) and the suffix.
pub open spec fn delete_question_spec(prefix: Seq<char>, path: Seq<char>, suffix: Seq<char>) -> Seq<char> {
    prefix + display_name_spec(path) + suffix
}

/// The question asked before deleting the item at `path`.
pub fn delete_question(prefix: &str, path: &str, suffix: &str) -> (r: String)
    ensures r@ == delete_question_spec(prefix@, path@, suffix@),
{
    let name = display_name(path);
    let mut out: Vec<char> = Vec::new();
    push_str(&mut out, prefix);
    push_chars(&mut out, &chars_of(name.as_str()));
    push_str(&mut out, suffix);
    string_from_chars(&out)
}

/// A notice made of a translated prefix and a detail, such as the name of
/// the item or the error.
pub fn notice(prefix: &str, detail: &str) -> (r: String)
    ensures r@ == prefix@ + detail@,
{
    let mut out: Vec<char> = Vec::new();
    push_str(&mut out, prefix);
    push_str(&mut out, detail);
    string_from_chars(&out)
}

} // verus!
