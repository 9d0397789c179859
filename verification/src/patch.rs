//! Rendering as data: a list of patches that create elements, set their
//! attributes and their text, with the node ids handed out in order. The
//! page applies the list; the library only builds it.

use vstd::prelude::*;

use crate::text::{decimal, push_decimal};

verus! {

/// The node every rendering hangs from.
pub const ROOT: u64 = 0;

/// One change to the page.
#[derive(Debug, PartialEq, Eq)]
pub enum Patch {
    /// A new element `node` with tag `tag`, appended to `parent`.
    Create { node: u64, parent: u64, tag: String },
    /// An attribute of `node`.
    SetAttribute { node: u64, name: String, value: String },
    /// The text of `node`.
    SetText { node: u64, text: String },
    /// Takes an attribute off `node`.
    RemoveAttribute { node: u64, name: String },
}

/// A patch as a value.
pub enum PatchV {
    Create { node: nat, parent: nat, tag: Seq<char> },
    SetAttribute { node: nat, name: Seq<char>, value: Seq<char> },
    SetText { node: nat, text: Seq<char> },
    RemoveAttribute { node: nat, name: Seq<char> },
}

/// The value of a patch.
pub open spec fn patch_view(p: Patch) -> PatchV {
    match p {
        Patch::Create { node, parent, tag } => PatchV::Create {
            node: node as nat,
            parent: parent as nat,
            tag: tag@,
        },
        Patch::SetAttribute { node, name, value } => PatchV::SetAttribute {
            node: node as nat,
            name: name@,
            value: value@,
        },
        Patch::SetText { node, text } => PatchV::SetText { node: node as nat, text: text@ },
        Patch::RemoveAttribute { node, name } => PatchV::RemoveAttribute {
            node: node as nat,
            name: name@,
        },
    }
}

/// A patch creating element `node` under `parent`.
pub open spec fn create(node: nat, parent: nat, tag: Seq<char>) -> PatchV {
    PatchV::Create { node, parent, tag }
}

/// A patch setting an attribute.
pub open spec fn attr(node: nat, name: Seq<char>, value: Seq<char>) -> PatchV {
    PatchV::SetAttribute { node, name, value }
}

/// A patch setting a text.
pub open spec fn text(node: nat, text: Seq<char>) -> PatchV {
    PatchV::SetText { node, text }
}

/// A patch taking an attribute off.
pub open spec fn remove(node: nat, name: Seq<char>) -> PatchV {
    PatchV::RemoveAttribute { node, name }
}

/// The patches built so far and the id the next element gets.
pub struct PatchList {
    pub patches: Vec<Patch>,
    pub next: u64,
}

/// The values of some patches.
pub open spec fn patches_view(ps: Seq<Patch>) -> Seq<PatchV> {
    ps.map_values(|p: Patch| patch_view(p))
}

impl PatchList {
    /// No patches yet; the first element gets id 1.
    pub fn new() -> (l: Self)
        ensures
            l.patches@.len() == 0,
            l.next == 1,
    {
        PatchList { patches: Vec::new(), next: 1 }
    }

    /// The patches as values.
    pub open spec fn view_patches(&self) -> Seq<PatchV> {
        patches_view(self.patches@)
    }

    /// Creates element `tag` under `parent` and answers its id.
    pub fn element(&mut self, parent: u64, tag: &str) -> (node: u64)
        requires
            old(self).next < u64::MAX,
        ensures
            node == old(self).next,
            final(self).next == old(self).next + 1,
            final(self).view_patches() == old(self).view_patches().push(
                create(node as nat, parent as nat, tag@),
            ),
    {
        let node = self.next;
        self.patches.push(Patch::Create { node, parent, tag: tag.to_string() });
        self.next = self.next + 1;
        proof {
            assert(final(self).view_patches() =~= old(self).view_patches().push(
                create(node as nat, parent as nat, tag@),
            ));
        }
        node
    }

    /// Sets an attribute of `node`.
    pub fn attribute(&mut self, node: u64, name: &str, value: &str)
        ensures
            final(self).next == old(self).next,
            final(self).view_patches() == old(self).view_patches().push(
                attr(node as nat, name@, value@),
            ),
    {
        self.patches.push(Patch::SetAttribute { node, name: name.to_string(), value: value.to_string() });
        proof {
            assert(final(self).view_patches() =~= old(self).view_patches().push(
                attr(node as nat, name@, value@),
            ));
        }
    }

    /// Sets an attribute of `node` to a whole number.
    pub fn number_attribute(&mut self, node: u64, name: &str, value: u64)
        ensures
            final(self).next == old(self).next,
            final(self).view_patches() == old(self).view_patches().push(
                attr(node as nat, name@, decimal(value as nat)),
            ),
    {
        let mut s = String::new();
        push_decimal(&mut s, value);
        proof {
            assert(s@ =~= decimal(value as nat));
        }
        self.attribute(node, name, s.as_str());
    }

    /// Takes an attribute off `node`.
    pub fn remove_attribute(&mut self, node: u64, name: &str)
        ensures
            final(self).next == old(self).next,
            final(self).view_patches() == old(self).view_patches().push(remove(node as nat, name@)),
    {
        self.patches.push(Patch::RemoveAttribute { node, name: name.to_string() });
        proof {
            assert(final(self).view_patches() =~= old(self).view_patches().push(
                remove(node as nat, name@),
            ));
        }
    }

    /// Sets the text of `node`.
    pub fn set_text(&mut self, node: u64, text: &str)
        ensures
            final(self).next == old(self).next,
            final(self).view_patches() == old(self).view_patches().push(
                self::text(node as nat, text@),
            ),
    {
        self.patches.push(Patch::SetText { node, text: text.to_string() });
        proof {
            assert(final(self).view_patches() =~= old(self).view_patches().push(
                self::text(node as nat, text@),
            ));
        }
    }
}

} // verus!
