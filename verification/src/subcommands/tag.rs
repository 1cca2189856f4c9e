//! Managing tags.

use vstd::prelude::*;

verus! {

/// The arguments of the command that manages tags.
#[derive(Debug)]
pub struct TagArgs {
    pub name: Option<String>,
    pub list: bool,
    pub rename: Option<String>,
    pub delete: bool,
}

impl TagArgs {
    /// The arguments, as given.
    pub fn new(name: Option<String>, list: bool, rename: Option<String>, delete: bool) -> (r:
        TagArgs)
        ensures
            r.name == name,
            r.list == list,
            r.rename == rename,
            r.delete == delete,
    {
        TagArgs { name, list, rename, delete }
    }
}

/// One thing to do with tags.
#[derive(Debug)]
pub enum TagAction {
    /// Show every tag with the number of bookmarks that have it.
    List,
    /// Take the tag off every bookmark.
    Delete(String),
    /// Give the first tag the second name.
    Rename(String, String),
}

/// What one thing to do with tags holds.
pub enum TagActionView {
    List,
    Delete(Seq<char>),
    Rename(Seq<char>, Seq<char>),
}

impl View for TagAction {
    type V = TagActionView;

    open spec fn view(&self) -> TagActionView {
        match *self {
            TagAction::List => TagActionView::List,
            TagAction::Delete(t) => TagActionView::Delete(t@),
            TagAction::Rename(a, b) => TagActionView::Rename(a@, b@),
        }
    }
}

impl TagArgs {
    /// Whether the tag is named that is to be deleted or renamed.
    pub open spec fn names_its_tag(&self) -> bool {
        self.delete || self.rename is Some ==> self.name is Some
    }

    /// What these arguments ask for, in the order in which it is done:
    /// the list, then the deletion, then the new name.
    pub open spec fn asked(&self) -> Seq<TagActionView> {
        (if self.list {
            seq![TagActionView::List]
        } else {
            Seq::empty()
        }) + (if self.delete {
            seq![TagActionView::Delete(self.name->Some_0@)]
        } else {
            Seq::empty()
        }) + (match self.rename {
            Some(new_name) => seq![TagActionView::Rename(self.name->Some_0@, new_name@)],
            None => Seq::empty(),
        })
    }

    /// Whether the tag is named that is to be deleted or renamed.
    #[verifier::when_used_as_spec(names_its_tag)]
    pub fn is_complete(&self) -> (r: bool)
        ensures
            r == self.names_its_tag(),
    {
        !(self.delete || self.rename.is_some()) || self.name.is_some()
    }

    /// What these arguments ask for, in the order in which it is done.
    /// The tag to delete or rename has to be named.
    pub fn actions(&self) -> (r: Vec<TagAction>)
        requires
            self.names_its_tag(),
        ensures
            r@.map_values(|a: TagAction| a@) == self.asked(),
    {
        let mut r: Vec<TagAction> = Vec::new();
        if self.list {
            r.push(TagAction::List);
        }
        if self.delete {
            match &self.name {
                Some(name) => {
                    r.push(TagAction::Delete(name.clone()));
                },
                None => {},
            }
        }
        match (&self.name, &self.rename) {
            (Some(name), Some(new_name)) => {
                r.push(TagAction::Rename(name.clone(), new_name.clone()));
            },
            _ => {},
        }
        proof {
            assert(r@.map_values(|a: TagAction| a@) =~= self.asked());
        }
        r
    }
}

} // verus!
