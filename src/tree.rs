//! The credential tree, held in an arena: every node lives in one vector and
//! groups refer to their children by index.
use vstd::prelude::*;
use vstd::string::*;

verus! {

/// A leaf of the tree: an ordered list of (field name, field value) pairs.
pub struct Entry {
    pub fields: Vec<(String, String)>,
}

/// A named container; `children` are indices into the tree's arena, in
/// display order.
pub struct Group {
    pub name: String,
    pub children: Vec<usize>,
}

/// A field that display needs is missing from an entry.
#[derive(Clone, Copy, Debug, PartialEq, Eq, Structural)]
pub enum DisplayError {
    MissingTitle,
    MissingUsername,
    MissingPassword,
}

pub enum Node {
    Group(Group),
    Entry(Entry),
}

/// The whole tree. Node 0 is the root group.
pub struct Tree {
    pub nodes: Vec<Node>,
}

/// The value of the first field named `name`, if any.
pub open spec fn lookup(fields: Seq<(String, String)>, name: Seq<char>) -> Option<Seq<char>>
    decreases fields.len(),
{
    if fields.len() == 0 {
        None
    } else if fields[0].0@ == name {
        Some(fields[0].1@)
    } else {
        lookup(fields.drop_first(), name)
    }
}

pub open spec fn is_group(nodes: Seq<Node>, i: int) -> bool {
    0 <= i < nodes.len() && nodes[i] is Group
}

pub open spec fn is_entry(nodes: Seq<Node>, i: int) -> bool {
    0 <= i < nodes.len() && nodes[i] is Entry
}

/// The children of node `i`; empty for an entry.
pub open spec fn children_of(nodes: Seq<Node>, i: int) -> Seq<usize> {
    match nodes[i] {
        Node::Group(g) => g.children@,
        Node::Entry(_) => Seq::empty(),
    }
}

pub open spec fn name_of(nodes: Seq<Node>, i: int) -> Seq<char> {
    match nodes[i] {
        Node::Group(g) => g.name@,
        Node::Entry(_) => Seq::empty(),
    }
}

/// The named field of node `i`; `None` for a group.
pub open spec fn field_of(nodes: Seq<Node>, i: int, name: Seq<char>) -> Option<Seq<char>> {
    match nodes[i] {
        Node::Group(_) => None,
        Node::Entry(e) => lookup(e.fields@, name),
    }
}

pub open spec fn title_of(nodes: Seq<Node>, i: int) -> Option<Seq<char>> {
    field_of(nodes, i, "Title"@)
}

/// Every child index points further into the arena, so following children
/// always terminates.
pub open spec fn children_forward(nodes: Seq<Node>) -> bool {
    forall|p: int, k: int|
        #![trigger children_of(nodes, p)[k]]
        0 <= p < nodes.len() && 0 <= k < children_of(nodes, p).len() ==> p < children_of(
            nodes,
            p,
        )[k] < nodes.len()
}

impl Entry {
    pub fn new() -> (r: Entry)
        ensures
            r.fields@.len() == 0,
    {
        Entry { fields: Vec::new() }
    }

    /// Appends a field; an earlier field of the same name keeps precedence.
    pub fn set(&mut self, name: &str, value: &str)
        ensures
            final(self).fields@.len() == old(self).fields@.len() + 1,
            final(self).fields@.drop_last() == old(self).fields@,
            final(self).fields@.last().0@ == name@,
            final(self).fields@.last().1@ == value@,
    {
        self.fields.push((String::from_str(name), String::from_str(value)));
        assert(self.fields@.drop_last() =~= old(self).fields@);
    }

    /// Looks a field up by name; absence is an ordinary result.
    pub fn get(&self, name: &str) -> (r: Option<&String>)
        ensures
            match r {
                Some(v) => lookup(self.fields@, name@) == Some(v@),
                None => lookup(self.fields@, name@) is None,
            },
    {
        let key = String::from_str(name);
        let n = self.fields.len();
        let mut i: usize = 0;
        assert(self.fields@.subrange(0, n as int) =~= self.fields@);
        while i < n
            invariant
                n == self.fields@.len(),
                i <= n,
                key@ == name@,
                lookup(self.fields@, name@) == lookup(self.fields@.subrange(i as int, n as int), name@),
            decreases n - i,
        {
            assert(self.fields@.subrange(i as int, n as int).drop_first() =~= self.fields@.subrange(
                i as int + 1,
                n as int,
            ));
            if self.fields[i].0 == key {
                return Some(&self.fields[i].1);
            }
            i = i + 1;
        }
        None
    }

    pub fn get_title(&self) -> (r: Option<&String>)
        ensures
            match r {
                Some(v) => lookup(self.fields@, "Title"@) == Some(v@),
                None => lookup(self.fields@, "Title"@) is None,
            },
    {
        self.get("Title")
    }

    pub fn get_username(&self) -> (r: Option<&String>)
        ensures
            match r {
                Some(v) => lookup(self.fields@, "UserName"@) == Some(v@),
                None => lookup(self.fields@, "UserName"@) is None,
            },
    {
        self.get("UserName")
    }

    pub fn get_password(&self) -> (r: Option<&String>)
        ensures
            match r {
                Some(v) => lookup(self.fields@, "Password"@) == Some(v@),
                None => lookup(self.fields@, "Password"@) is None,
            },
    {
        self.get("Password")
    }
}

impl Tree {
    /// Well-formed: a root group at index 0 and forward-pointing children.
    pub open spec fn wf(&self) -> bool {
        &&& is_group(self.nodes@, 0)
        &&& children_forward(self.nodes@)
    }

    /// A tree holding only an empty root group.
    pub fn new(root_name: &str) -> (r: Tree)
        ensures
            r.wf(),
            r.nodes@.len() == 1,
            name_of(r.nodes@, 0) == root_name@,
            children_of(r.nodes@, 0).len() == 0,
    {
        let root = Group { name: String::from_str(root_name), children: Vec::new() };
        let mut nodes: Vec<Node> = Vec::new();
        nodes.push(Node::Group(root));
        Tree { nodes }
    }

    /// Appends `node` as the last child of group `parent`; returns its index.
    fn attach(&mut self, parent: usize, node: Node) -> (r: usize)
        requires
            old(self).wf(),
            is_group(old(self).nodes@, parent as int),
            old(self).nodes@.len() < usize::MAX,
            match node {
                Node::Group(g) => g.children@.len() == 0,
                Node::Entry(_) => true,
            },
        ensures
            final(self).wf(),
            r == old(self).nodes@.len(),
            final(self).nodes@.len() == old(self).nodes@.len() + 1,
            final(self).nodes@[r as int] == node,
            children_of(final(self).nodes@, parent as int) == children_of(
                old(self).nodes@,
                parent as int,
            ).push(r),
            name_of(final(self).nodes@, parent as int) == name_of(old(self).nodes@, parent as int),
            forall|i: int|
                0 <= i < old(self).nodes@.len() && i != parent ==> final(self).nodes@[i] == old(
                    self,
                ).nodes@[i],
    {
        let idx = self.nodes.len();
        let mut slot = Node::Entry(Entry { fields: Vec::new() });
        self.nodes.set_and_swap(parent, &mut slot);
        let updated = match slot {
            Node::Group(g) => {
                let mut children = g.children;
                children.push(idx);
                Node::Group(Group { name: g.name, children })
            },
            Node::Entry(e) => Node::Entry(e),
        };
        self.nodes.set(parent, updated);
        self.nodes.push(node);
        let ghost old_nodes = old(self).nodes@;
        assert forall|p: int, k: int|
            #![trigger children_of(self.nodes@, p)[k]]
            0 <= p < self.nodes@.len() && 0 <= k < children_of(self.nodes@, p).len() implies p
                < children_of(self.nodes@, p)[k] < self.nodes@.len() by {
            if p != parent && p < old_nodes.len() {
                assert(children_of(self.nodes@, p) == children_of(old_nodes, p));
                assert(children_of(old_nodes, p)[k] == children_of(self.nodes@, p)[k]);
            } else if p == parent {
                if k < children_of(old_nodes, p).len() {
                    assert(children_of(old_nodes, p)[k] == children_of(self.nodes@, p)[k]);
                } else {
                    assert(children_of(self.nodes@, p)[k] == idx);
                }
            } else {
                assert(children_of(self.nodes@, p).len() == 0);
            }
        }
        idx
    }

    /// Adds an empty group named `name` under group `parent`.
    pub fn add_group(&mut self, parent: usize, name: &str) -> (r: usize)
        requires
            old(self).wf(),
            is_group(old(self).nodes@, parent as int),
            old(self).nodes@.len() < usize::MAX,
        ensures
            final(self).wf(),
            r == old(self).nodes@.len(),
            final(self).nodes@.len() == old(self).nodes@.len() + 1,
            is_group(final(self).nodes@, r as int),
            name_of(final(self).nodes@, r as int) == name@,
            children_of(final(self).nodes@, r as int).len() == 0,
            children_of(final(self).nodes@, parent as int) == children_of(
                old(self).nodes@,
                parent as int,
            ).push(r),
            forall|i: int|
                0 <= i < old(self).nodes@.len() && i != parent ==> final(self).nodes@[i] == old(
                    self,
                ).nodes@[i],
    {
        let g = Group { name: String::from_str(name), children: Vec::new() };
        self.attach(parent, Node::Group(g))
    }

    /// Adds `entry` under group `parent`.
    pub fn add_entry(&mut self, parent: usize, entry: Entry) -> (r: usize)
        requires
            old(self).wf(),
            is_group(old(self).nodes@, parent as int),
            old(self).nodes@.len() < usize::MAX,
        ensures
            final(self).wf(),
            r == old(self).nodes@.len(),
            final(self).nodes@.len() == old(self).nodes@.len() + 1,
            final(self).nodes@[r as int] == Node::Entry(entry),
            children_of(final(self).nodes@, parent as int) == children_of(
                old(self).nodes@,
                parent as int,
            ).push(r),
            forall|i: int|
                0 <= i < old(self).nodes@.len() && i != parent ==> final(self).nodes@[i] == old(
                    self,
                ).nodes@[i],
    {
        self.attach(parent, Node::Entry(entry))
    }
}

} // verus!
