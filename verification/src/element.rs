//! The items of a list: a line of text, or a named list that can be entered.

use vstd::prelude::*;

verus! {

/// The text of the line that invites the user to insert something.
pub const I_PLACEHOLDER: &'static str = "i <input></input>";

/// A named list. The lists this library makes hold lines only.
#[derive(Debug)]
pub struct Branch {
    pub key: String,
    pub children: Vec<String>,
}

/// An item of a list.
#[derive(Debug)]
pub enum Element {
    Str(String),
    Obj(Branch),
}

impl Element {
    /// A line with this text.
    pub open spec fn is_line(self, text: Seq<char>) -> bool {
        self matches Element::Str(s) && s@ == text
    }

    /// A named list with these lines.
    pub open spec fn is_branch(self, key: Seq<char>, children: Seq<Seq<char>>) -> bool {
        self matches Element::Obj(branch) && branch.key@ == key && branch.children@.map_values(
            |child: String| child@,
        ) == children
    }

    /// A named list without lines.
    pub fn new_obj(key: String) -> (r: Element)
        ensures
            r.is_branch(key@, Seq::empty()),
            r matches Element::Obj(branch) && branch.key@ == key@ && branch.children@.len() == 0,
    {
        let children: Vec<String> = Vec::new();
        proof {
            assert(children@.map_values(|child: String| child@) =~= Seq::<Seq<char>>::empty());
        }
        Element::Obj(Branch { key, children })
    }

    /// A named list that starts with the invitation to insert something.
    pub fn new_obj_with_i_placeholder(key: String) -> (r: Element)
        ensures
            r.is_branch(key@, seq![I_PLACEHOLDER@]),
            r matches Element::Obj(branch) && branch.key@ == key@ && branch.children@.len() == 1
                && branch.children@[0]@ == "i <input></input>"@,
    {
        let mut children: Vec<String> = Vec::new();
        children.push(I_PLACEHOLDER.to_owned());
        proof {
            assert(children@.map_values(|child: String| child@) =~= seq![I_PLACEHOLDER@]);
        }
        Element::Obj(Branch { key, children })
    }

    /// The text of a line.
    pub fn as_str(&self) -> (r: Option<&str>)
        ensures
            match *self {
                Element::Str(s) => r matches Some(text) && text@ == s@,
                Element::Obj(_) => r is None,
            },
    {
        match self {
            Element::Str(s) => Some(s.as_str()),
            Element::Obj(_) => None,
        }
    }

    /// The named list.
    pub fn as_obj(&self) -> (r: Option<&Branch>)
        ensures
            match *self {
                Element::Str(_) => r is None,
                Element::Obj(branch) => r == Some(&branch),
            },
    {
        match self {
            Element::Str(_) => None,
            Element::Obj(branch) => Some(branch),
        }
    }
}

}
