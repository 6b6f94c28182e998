//! What a listing of the mirrored tree shows, and what each of its entries
//! is taken for.

use crate::token::Token;
use vstd::prelude::*;

verus! {

/// One entry directly under the root of the mirrored tree, as a listing
/// shows it: its name, whether it is a directory, and the names of what it
/// holds.
pub struct MirrorEntry {
    pub name: String,
    pub is_dir: bool,
    pub children: Vec<String>,
}

/// The texts of the strings of `v`, in order.
pub open spec fn texts(v: Seq<String>) -> Seq<Seq<char>> {
    v.map_values(|s: String| s@)
}

/// An entry of the mirrored tree, as a value of the model.
pub struct MirrorEntryView {
    pub name: Seq<char>,
    pub is_dir: bool,
    pub children: Seq<Seq<char>>,
}

impl View for MirrorEntry {
    type V = MirrorEntryView;

    open spec fn view(&self) -> MirrorEntryView {
        MirrorEntryView {
            name: self.name@,
            is_dir: self.is_dir,
            children: texts(self.children@),
        }
    }
}

/// The entries of a listing, as values of the model.
pub open spec fn listing(entries: Seq<MirrorEntry>) -> Seq<MirrorEntryView> {
    entries.map_values(|e: MirrorEntry| e@)
}

/// What an entry of the mirrored tree is taken for, by its looks alone.
#[derive(Clone, Copy, Debug, PartialEq, Eq, Structural)]
pub enum Shape {
    /// Not a directory: none of the mirror's business.
    NotADirectory,
    /// A directory whose name is no token.
    Orphan,
    /// A token directory that holds nothing.
    Empty,
    /// A token directory that holds more than one entry.
    Ambiguous,
    /// A token directory that holds exactly one entry, the resource.
    Link(Token),
}

/// What an entry is taken for, given the token that its name denotes, if it
/// denotes one.
pub open spec fn shape_given(entry: MirrorEntryView, token: Option<Token>) -> Shape {
    if !entry.is_dir {
        Shape::NotADirectory
    } else {
        match token {
            None => Shape::Orphan,
            Some(token) => if entry.children.len() == 0 {
                Shape::Empty
            } else if entry.children.len() > 1 {
                Shape::Ambiguous
            } else {
                Shape::Link(token)
            },
        }
    }
}

/// What an entry is taken for.
pub open spec fn shape_of(entry: MirrorEntryView) -> Shape {
    shape_given(entry, Token::parsed(entry.name))
}

impl MirrorEntry {
    /// What this entry is taken for, given the token that its name denotes,
    /// if it denotes one.
    pub fn shape_with(&self, token: Option<Token>) -> (r: Shape)
        ensures
            r == shape_given(self@, token),
    {
        if !self.is_dir {
            return Shape::NotADirectory;
        }
        match token {
            None => Shape::Orphan,
            Some(token) => {
                if self.children.len() == 0 {
                    Shape::Empty
                } else if self.children.len() > 1 {
                    Shape::Ambiguous
                } else {
                    Shape::Link(token)
                }
            },
        }
    }

    /// What this entry is taken for.
    pub fn shape(&self) -> (r: Shape)
        ensures
            r == shape_of(self@),
    {
        if !self.is_dir {
            return Shape::NotADirectory;
        }
        self.shape_with(Token::parse(self.name.as_str()))
    }
}

/// Whether one of `list` has the text of `name`.
pub fn contains_text(list: &Vec<String>, name: &str) -> (r: bool)
    ensures
        r == texts(list@).contains(name@),
{
    let key = String::from_str(name);
    let mut i: usize = 0;
    while i < list.len()
        invariant
            i <= list.len(),
            key@ == name@,
            forall|j: int| 0 <= j < i ==> texts(list@)[j] != name@,
        decreases list.len() - i,
    {
        if list[i] == key {
            assert(texts(list@)[i as int] == name@);
            return true;
        }
        i += 1;
    }
    false
}

} // verus!
