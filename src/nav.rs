//! The navigation engine: a breadcrumb stack of frames over the tree. Each
//! frame is a group on display together with its remembered cursor. The
//! terminal loop lives with the caller; here are the states and transitions.
use crate::tree::{children_of, is_group, name_of, title_of, DisplayError, Node, Tree};
use vstd::prelude::*;
use vstd::string::*;

verus! {

/// One level of navigation history.
#[derive(Clone, Copy, Debug, PartialEq, Eq, Structural)]
pub struct Frame {
    /// Arena index of the group on display.
    pub group: usize,
    /// The last selected position among that group's children.
    pub cursor: usize,
}

/// What the caller must do after a transition.
#[derive(Clone, Copy, Debug, PartialEq, Eq, Structural)]
pub enum Action {
    /// A sub-group was entered; display the new top frame.
    Descended,
    /// Print the entry at this arena index, then display the same frame again.
    ShowEntry(usize),
    /// Went back one level; display the new top frame.
    Ascended,
    /// The root frame was left: print the end marker and stop.
    Finished,
}

/// The breadcrumb stack; bottom is the root, top is the group on display.
pub struct Navigator {
    pub frames: Vec<Frame>,
}

/// The stack starts at the root, each frame's group is a group, and every
/// frame below the top records the child that leads to the frame above it.
pub open spec fn frames_wf(nodes: Seq<Node>, s: Seq<Frame>) -> bool {
    &&& s.len() > 0 ==> s[0].group == 0
    &&& forall|k: int| 0 <= k < s.len() ==> is_group(nodes, #[trigger] s[k].group as int)
    &&& forall|k: int|
        0 <= k < s.len() - 1 ==> {
            &&& #[trigger] s[k].cursor < children_of(nodes, s[k].group as int).len()
            &&& children_of(nodes, s[k].group as int)[s[k].cursor as int] == s[k + 1].group
        }
}

/// Choosing child `i` of the top group: the top frame remembers `i`; a group
/// is entered with its cursor at 0, an entry is shown without moving.
pub open spec fn select_spec(nodes: Seq<Node>, s: Seq<Frame>, i: usize) -> (Seq<Frame>, Action) {
    let top = s.last();
    let marked = s.update(s.len() - 1, Frame { group: top.group, cursor: i });
    let c = children_of(nodes, top.group as int)[i as int];
    if is_group(nodes, c as int) {
        (marked.push(Frame { group: c, cursor: 0 }), Action::Descended)
    } else {
        (marked, Action::ShowEntry(c))
    }
}

/// Cancelling: the top frame is dropped; leaving the root ends the session.
pub open spec fn cancel_spec(s: Seq<Frame>) -> (Seq<Frame>, Action) {
    (s.drop_last(), if s.len() <= 1 { Action::Finished } else { Action::Ascended })
}

/// The stack after `k` cancellations in a row.
pub open spec fn cancels(s: Seq<Frame>, k: nat) -> Seq<Frame>
    decreases k,
{
    if k == 0 {
        s
    } else {
        cancel_spec(cancels(s, (k - 1) as nat)).0
    }
}

/// The group names from the root to the top, joined by " > ".
pub open spec fn path_spec(nodes: Seq<Node>, s: Seq<Frame>) -> Seq<char>
    decreases s.len(),
{
    if s.len() == 0 {
        Seq::empty()
    } else if s.len() == 1 {
        name_of(nodes, s[0].group as int)
    } else {
        path_spec(nodes, s.drop_last()) + " > "@ + name_of(nodes, s.last().group as int)
    }
}

/// The hint shown beside the path: the root exits, deeper levels go back.
pub open spec fn hint_spec(depth: int) -> Seq<char> {
    if depth == 1 {
        "(press ESC to exit)"@
    } else {
        "(press ESC to go back)"@
    }
}

/// The menu label of node `c`: a folder and the group's name, or a key and
/// the entry's title; `None` for an entry without a title.
pub open spec fn label_spec(nodes: Seq<Node>, c: int) -> Option<Seq<char>> {
    if is_group(nodes, c) {
        Some("\u{1F4C1} "@ + name_of(nodes, c))
    } else {
        match title_of(nodes, c) {
            Some(t) => Some("\u{1F511} "@ + t),
            None => None,
        }
    }
}

/// Cancelling repeatedly from a stack of `n` frames leaves `n - k` frames
/// after `k` cancellations, reports the end at exactly the `n`-th, and ends
/// with no frames. From the root after `d` descents, `n` is `d + 1`.
pub proof fn lemma_cancels_until_end(s: Seq<Frame>)
    ensures
        forall|k: nat| k <= s.len() ==> #[trigger] cancels(s, k) == s.take(s.len() - k),
        forall|k: nat|
            k < s.len() ==> (#[trigger] cancel_spec(cancels(s, k)).1 == Action::Finished <==> k + 1
                == s.len()),
        cancels(s, s.len()).len() == 0,
{
    assert forall|k: nat| k <= s.len() implies #[trigger] cancels(s, k) == s.take(s.len() - k) by {
        lemma_cancels_take(s, k);
    }
    assert forall|k: nat| k < s.len() implies (#[trigger] cancel_spec(cancels(s, k)).1
        == Action::Finished <==> k + 1 == s.len()) by {
        lemma_cancels_take(s, k);
    }
    lemma_cancels_take(s, s.len());
}

proof fn lemma_cancels_take(s: Seq<Frame>, k: nat)
    requires
        k <= s.len(),
    ensures
        cancels(s, k) == s.take(s.len() - k),
    decreases k,
{
    if k == 0 {
        assert(s.take(s.len() as int) =~= s);
    } else {
        lemma_cancels_take(s, (k - 1) as nat);
        assert(s.take(s.len() - (k - 1)).drop_last() =~= s.take(s.len() - k));
    }
}

/// Cursor memory: after choosing child `i` of the top group, that group's
/// frame holds `i`. Showing an entry stays on it; entering a sub-group and
/// then cancelling comes back to it, with `i` as the default selection.
pub proof fn lemma_cursor_memory(nodes: Seq<Node>, s: Seq<Frame>, i: usize)
    requires
        s.len() > 0,
        i < children_of(nodes, s.last().group as int).len(),
    ensures
        ({
            let (s1, a) = select_spec(nodes, s, i);
            let back = if a == Action::Descended {
                cancel_spec(s1).0
            } else {
                s1
            };
            &&& back.len() == s.len()
            &&& back.last() == (Frame { group: s.last().group, cursor: i })
            &&& back.drop_last() == s.drop_last()
            &&& a == Action::Descended ==> cancel_spec(s1).1 == Action::Ascended
        }),
{
    let (s1, a) = select_spec(nodes, s, i);
    let marked = s.update(s.len() - 1, Frame { group: s.last().group, cursor: i });
    assert(marked.drop_last() =~= s.drop_last());
    if a == Action::Descended {
        assert(s1.drop_last() =~= marked);
    }
}

/// The breadcrumb follows the stack: entering a sub-group appends " > " and
/// its name, showing an entry leaves it as it was, and cancelling from a
/// deeper level gives back the parent level's breadcrumb.
pub proof fn lemma_breadcrumb_follows(nodes: Seq<Node>, s: Seq<Frame>, i: usize)
    requires
        s.len() > 0,
        i < children_of(nodes, s.last().group as int).len(),
    ensures
        ({
            let (s1, a) = select_spec(nodes, s, i);
            let c = children_of(nodes, s.last().group as int)[i as int];
            &&& a == Action::Descended ==> path_spec(nodes, s1) == path_spec(nodes, s) + " > "@
                + name_of(nodes, c as int)
            &&& a != Action::Descended ==> path_spec(nodes, s1) == path_spec(nodes, s)
            &&& a == Action::Descended ==> path_spec(nodes, cancel_spec(s1).0) == path_spec(
                nodes,
                s,
            )
            &&& hint_spec(s.len() as int) == hint_spec(
                if a == Action::Descended { cancel_spec(s1).0.len() as int } else { s1.len() as int },
            )
        }),
{
    let (s1, a) = select_spec(nodes, s, i);
    let marked = s.update(s.len() - 1, Frame { group: s.last().group, cursor: i });
    assert(marked.drop_last() =~= s.drop_last());
    assert(path_spec(nodes, marked) == path_spec(nodes, s));
    if a == Action::Descended {
        assert(s1.drop_last() =~= marked);
    }
}

impl Navigator {
    pub open spec fn wf(&self, tree: &Tree) -> bool {
        frames_wf(tree.nodes@, self.frames@)
    }

    /// The initial state: the root frame with the cursor on the first item.
    pub fn new() -> (r: Navigator)
        ensures
            r.frames@ == seq![Frame { group: 0, cursor: 0 }],
    {
        let mut frames: Vec<Frame> = Vec::new();
        frames.push(Frame { group: 0, cursor: 0 });
        assert(frames@ =~= seq![Frame { group: 0, cursor: 0 }]);
        Navigator { frames }
    }

    pub fn depth(&self) -> (r: usize)
        ensures
            r == self.frames@.len(),
    {
        self.frames.len()
    }

    /// The terminal state: no frame is left.
    pub fn is_finished(&self) -> (r: bool)
        ensures
            r == (self.frames@.len() == 0),
    {
        self.frames.len() == 0
    }

    /// The group on display.
    pub fn current_group(&self) -> (r: usize)
        requires
            self.frames@.len() > 0,
        ensures
            r == self.frames@.last().group,
    {
        self.frames[self.frames.len() - 1].group
    }

    /// The default selection of the current display.
    pub fn cursor(&self) -> (r: usize)
        requires
            self.frames@.len() > 0,
        ensures
            r == self.frames@.last().cursor,
    {
        self.frames[self.frames.len() - 1].cursor
    }

    /// How many items the current display offers.
    pub fn item_count(&self, tree: &Tree) -> (r: usize)
        requires
            self.wf(tree),
            self.frames@.len() > 0,
        ensures
            r == children_of(tree.nodes@, self.frames@.last().group as int).len(),
    {
        let g = self.frames[self.frames.len() - 1].group;
        match &tree.nodes[g] {
            Node::Group(grp) => grp.children.len(),
            Node::Entry(_) => 0,
        }
    }

    /// Chooses child `i` of the group on display.
    pub fn select(&mut self, tree: &Tree, i: usize) -> (r: Action)
        requires
            tree.wf(),
            old(self).wf(tree),
            old(self).frames@.len() > 0,
            i < children_of(tree.nodes@, old(self).frames@.last().group as int).len(),
        ensures
            final(self).wf(tree),
            (final(self).frames@, r) == select_spec(tree.nodes@, old(self).frames@, i),
    {
        let ghost nodes = tree.nodes@;
        let ghost s = self.frames@;
        let last = self.frames.len() - 1;
        let g = self.frames[last].group;
        self.frames.set(last, Frame { group: g, cursor: i });
        let c = match &tree.nodes[g] {
            Node::Group(grp) => grp.children[i],
            Node::Entry(_) => 0,
        };
        assert(c == children_of(nodes, g as int)[i as int]);
        assert(g < c < nodes.len());
        let ghost marked = self.frames@;
        assert forall|k: int| 0 <= k < marked.len() - 1 implies #[trigger] marked[k].cursor
            < children_of(nodes, marked[k].group as int).len() && children_of(
            nodes,
            marked[k].group as int,
        )[marked[k].cursor as int] == marked[k + 1].group by {
            assert(marked[k] == s[k]);
        }
        match &tree.nodes[c] {
            Node::Group(_) => {
                self.frames.push(Frame { group: c, cursor: 0 });
                let ghost pushed = self.frames@;
                assert forall|k: int| 0 <= k < pushed.len() - 1 implies #[trigger] pushed[k].cursor
                    < children_of(nodes, pushed[k].group as int).len() && children_of(
                    nodes,
                    pushed[k].group as int,
                )[pushed[k].cursor as int] == pushed[k + 1].group by {
                    if k < marked.len() - 1 {
                        assert(pushed[k] == marked[k] && pushed[k + 1] == marked[k + 1]);
                    }
                }
                assert(forall|k: int|
                    0 <= k < pushed.len() ==> is_group(nodes, #[trigger] pushed[k].group as int));
                Action::Descended
            },
            Node::Entry(_) => Action::ShowEntry(c),
        }
    }

    /// Cancels the current display: goes back one level, or ends at the root.
    pub fn cancel(&mut self, tree: &Tree) -> (r: Action)
        requires
            old(self).wf(tree),
            old(self).frames@.len() > 0,
        ensures
            final(self).wf(tree),
            (final(self).frames@, r) == cancel_spec(old(self).frames@),
    {
        let ghost s = self.frames@;
        self.frames.pop();
        assert(self.frames@ =~= s.drop_last());
        assert forall|k: int| 0 <= k < self.frames@.len() - 1 implies #[trigger] self.frames@[k].cursor
            < children_of(tree.nodes@, self.frames@[k].group as int).len() && children_of(
            tree.nodes@,
            self.frames@[k].group as int,
        )[self.frames@[k].cursor as int] == self.frames@[k + 1].group by {
            assert(self.frames@[k] == s[k] && self.frames@[k + 1] == s[k + 1]);
        }
        if self.frames.len() == 0 {
            Action::Finished
        } else {
            Action::Ascended
        }
    }

    /// One transition: `Some(i)` is an explicit choice of item `i`, `None`
    /// a cancellation.
    pub fn step(&mut self, tree: &Tree, choice: Option<usize>) -> (r: Action)
        requires
            tree.wf(),
            old(self).wf(tree),
            old(self).frames@.len() > 0,
            match choice {
                Some(i) => i < children_of(tree.nodes@, old(self).frames@.last().group as int).len(),
                None => true,
            },
        ensures
            final(self).wf(tree),
            (final(self).frames@, r) == match choice {
                Some(i) => select_spec(tree.nodes@, old(self).frames@, i),
                None => cancel_spec(old(self).frames@),
            },
    {
        match choice {
            Some(i) => self.select(tree, i),
            None => self.cancel(tree),
        }
    }

    /// The breadcrumb: the names of the frames' groups from the root to the
    /// top, joined by " > ".
    pub fn breadcrumb(&self, tree: &Tree) -> (r: String)
        requires
            self.wf(tree),
        ensures
            r@ == path_spec(tree.nodes@, self.frames@),
    {
        let ghost nodes = tree.nodes@;
        let mut out = String::new();
        let n = self.frames.len();
        let mut k: usize = 0;
        while k < n
            invariant
                n == self.frames@.len(),
                k <= n,
                nodes == tree.nodes@,
                self.wf(tree),
                out@ == path_spec(nodes, self.frames@.take(k as int)),
            decreases n - k,
        {
            let g = self.frames[k].group;
            assert(is_group(nodes, self.frames@[k as int].group as int));
            let ghost t = self.frames@.take(k as int + 1);
            assert(t.drop_last() =~= self.frames@.take(k as int));
            if k > 0 {
                out.append(" > ");
            }
            match &tree.nodes[g] {
                Node::Group(grp) => {
                    out.append(grp.name.as_str());
                },
                Node::Entry(_) => {},
            }
            k = k + 1;
        }
        assert(self.frames@.take(n as int) =~= self.frames@);
        out
    }

    /// The hint beside the breadcrumb.
    pub fn hint(&self) -> (r: &'static str)
        ensures
            r@ == hint_spec(self.frames@.len() as int),
    {
        if self.frames.len() == 1 {
            "(press ESC to exit)"
        } else {
            "(press ESC to go back)"
        }
    }

    /// The menu labels of the current group's children, in child order. An
    /// entry without a title cannot be listed: that is a display error.
    pub fn labels(&self, tree: &Tree) -> (r: Result<Vec<String>, DisplayError>)
        requires
            tree.wf(),
            self.wf(tree),
            self.frames@.len() > 0,
        ensures
            ({
                let cs = children_of(tree.nodes@, self.frames@.last().group as int);
                match r {
                    Ok(v) => v@.len() == cs.len() && forall|k: int|
                        0 <= k < cs.len() ==> label_spec(tree.nodes@, cs[k] as int) == Some(
                            #[trigger] v@[k]@,
                        ),
                    Err(e) => e == DisplayError::MissingTitle && exists|k: int|
                        0 <= k < cs.len() && #[trigger] label_spec(tree.nodes@, cs[k] as int)
                            is None,
                }
            }),
    {
        let ghost nodes = tree.nodes@;
        let g = self.frames[self.frames.len() - 1].group;
        let mut out: Vec<String> = Vec::new();
        match &tree.nodes[g] {
            Node::Group(grp) => {
                let ghost cs = grp.children@;
                assert(cs == children_of(nodes, g as int));
                let n = grp.children.len();
                let mut k: usize = 0;
                while k < n
                    invariant
                        tree.wf(),
                        nodes == tree.nodes@,
                        cs == grp.children@,
                        self.frames@.len() > 0,
                        cs == children_of(nodes, self.frames@.last().group as int),
                        n == cs.len(),
                        k <= n,
                        g < nodes.len(),
                        forall|j: int| 0 <= j < n ==> g < #[trigger] cs[j] < nodes.len(),
                        out@.len() == k,
                        forall|j: int|
                            0 <= j < k ==> label_spec(nodes, cs[j] as int) == Some(
                                #[trigger] out@[j]@,
                            ),
                    decreases n - k,
                {
                    let c = grp.children[k];
                    assert(cs[k as int] == c);
                    let label = match &tree.nodes[c] {
                        Node::Group(sub) => {
                            let mut l = String::from_str("\u{1F4C1} ");
                            l.append(sub.name.as_str());
                            l
                        },
                        Node::Entry(e) => {
                            match e.get_title() {
                                Some(t) => {
                                    let mut l = String::from_str("\u{1F511} ");
                                    l.append(t.as_str());
                                    l
                                },
                                None => {
                                    assert(label_spec(nodes, cs[k as int] as int) is None);
                                    return Err(DisplayError::MissingTitle);
                                },
                            }
                        },
                    };
                    out.push(label);
                    k = k + 1;
                }
            },
            Node::Entry(_) => {},
        }
        Ok(out)
    }
}

} // verus!
