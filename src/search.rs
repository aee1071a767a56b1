//! Title search: a depth-first walk over the tree that keeps the entries
//! whose title equals the query exactly.
use crate::tree::{children_of, is_entry, title_of, Node, Tree};
use vstd::prelude::*;
use vstd::string::*;

verus! {

broadcast use vstd::seq_lib::group_seq_properties;

/// Every entry reachable from node `i`, depth first, in child order.
pub open spec fn dfs(nodes: Seq<Node>, i: int) -> Seq<usize>
    decreases nodes.len() - i, 1int, 0int,
{
    if !(0 <= i < nodes.len()) {
        Seq::empty()
    } else {
        match nodes[i] {
            Node::Entry(_) => seq![i as usize],
            Node::Group(g) => dfs_list(nodes, i, g.children@),
        }
    }
}

/// The walks of the children `cs` of node `p`, one after the other.
pub open spec fn dfs_list(nodes: Seq<Node>, p: int, cs: Seq<usize>) -> Seq<usize>
    decreases nodes.len() - p, 0int, cs.len(),
{
    if cs.len() == 0 {
        Seq::empty()
    } else {
        let rest = dfs_list(nodes, p, cs.drop_last());
        if 0 <= p < cs.last() < nodes.len() {
            rest + dfs(nodes, cs.last() as int)
        } else {
            rest
        }
    }
}

/// Holds of the entries whose title is exactly `title`.
pub open spec fn has_title(nodes: Seq<Node>, title: Seq<char>) -> spec_fn(usize) -> bool {
    |j: usize| title_of(nodes, j as int) == Some(title)
}

/// What a title search returns: the matching entries, in walk order.
pub open spec fn search_spec(nodes: Seq<Node>, title: Seq<char>) -> Seq<usize> {
    dfs(nodes, 0).filter(has_title(nodes, title))
}

fn collect(tree: &Tree, i: usize, title: &String, out: &mut Vec<usize>)
    requires
        tree.wf(),
        i < tree.nodes@.len(),
    ensures
        final(out)@ == old(out)@ + dfs(tree.nodes@, i as int).filter(
            has_title(tree.nodes@, title@),
        ),
    decreases tree.nodes@.len() - i, 1int, 0int,
{
    let ghost nodes = tree.nodes@;
    let ghost pred = has_title(nodes, title@);
    match &tree.nodes[i] {
        Node::Entry(e) => {
            let ghost s = seq![i as usize];
            proof {
                reveal(Seq::filter);
                assert(s.drop_last() =~= Seq::<usize>::empty());
                assert(s.last() == i);
                assert(s.drop_last().filter(pred) == s.drop_last());
                assert(dfs(nodes, i as int) == s);
                assert(title_of(nodes, i as int) == crate::tree::lookup(e.fields@, "Title"@));
            }
            match e.get_title() {
                Some(t) => {
                    if *t == *title {
                        out.push(i);
                        assert(pred(i));
                        assert(s.filter(pred) == s);
                    } else {
                        assert(!pred(i));
                        assert(s.filter(pred) =~= Seq::<usize>::empty());
                    }
                },
                None => {
                    assert(!pred(i));
                    assert(s.filter(pred) =~= Seq::<usize>::empty());
                },
            }
        },
        Node::Group(g) => {
            let n = g.children.len();
            let mut k: usize = 0;
            assert(children_of(nodes, i as int) == g.children@);
            while k < n
                invariant
                    tree.wf(),
                    nodes == tree.nodes@,
                    pred == has_title(nodes, title@),
                    i < nodes.len(),
                    nodes[i as int] == Node::Group(*g),
                    n == g.children@.len(),
                    children_of(nodes, i as int) == g.children@,
                    k <= n,
                    out@ == old(out)@ + dfs_list(nodes, i as int, g.children@.take(k as int)).filter(
                        pred,
                    ),
                decreases n - k,
            {
                let c = g.children[k];
                assert(i < c < nodes.len());
                collect(tree, c, title, out);
                proof {
                    let cs = g.children@.take(k as int + 1);
                    assert(cs.drop_last() =~= g.children@.take(k as int));
                    assert(cs.last() == c);
                    Seq::filter_distributes_over_add(
                        dfs_list(nodes, i as int, g.children@.take(k as int)),
                        dfs(nodes, c as int),
                        pred,
                    );
                }
                k = k + 1;
            }
            assert(g.children@.take(n as int) =~= g.children@);
            assert(dfs(nodes, i as int) == dfs_list(nodes, i as int, g.children@));
        },
    }
}

/// Every entry reachable from the root whose "Title" field equals `title`
/// exactly, as arena indices in depth-first child order. Entries without a
/// title never match.
pub fn search_entry_by_title(title: &str, tree: &Tree) -> (r: Vec<usize>)
    requires
        tree.wf(),
    ensures
        r@ == search_spec(tree.nodes@, title@),
{
    let key = String::from_str(title);
    let mut out: Vec<usize> = Vec::new();
    collect(tree, 0, &key, &mut out);
    assert(out@ =~= search_spec(tree.nodes@, title@));
    out
}

proof fn lemma_dfs_entries(nodes: Seq<Node>, i: int)
    requires
        nodes.len() <= usize::MAX,
    ensures
        forall|k: int|
            0 <= k < dfs(nodes, i).len() ==> is_entry(nodes, #[trigger] dfs(nodes, i)[k] as int),
    decreases nodes.len() - i, 1int, 0int,
{
    if 0 <= i < nodes.len() {
        match nodes[i] {
            Node::Entry(_) => {
                assert(dfs(nodes, i) == seq![i as usize]);
                assert(dfs(nodes, i)[0] as int == i);
            },
            Node::Group(g) => {
                lemma_dfs_list_entries(nodes, i, g.children@);
                assert(dfs(nodes, i) == dfs_list(nodes, i, g.children@));
            },
        }
    }
}

proof fn lemma_dfs_list_entries(nodes: Seq<Node>, p: int, cs: Seq<usize>)
    requires
        nodes.len() <= usize::MAX,
    ensures
        forall|k: int|
            0 <= k < dfs_list(nodes, p, cs).len() ==> is_entry(
                nodes,
                #[trigger] dfs_list(nodes, p, cs)[k] as int,
            ),
    decreases nodes.len() - p, 0int, cs.len(),
{
    if cs.len() > 0 {
        lemma_dfs_list_entries(nodes, p, cs.drop_last());
        if 0 <= p < cs.last() < nodes.len() {
            lemma_dfs_entries(nodes, cs.last() as int);
            let rest = dfs_list(nodes, p, cs.drop_last());
            let d = dfs(nodes, cs.last() as int);
            assert forall|k: int| 0 <= k < (rest + d).len() implies is_entry(
                nodes,
                #[trigger] (rest + d)[k] as int,
            ) by {
                if k >= rest.len() {
                    assert((rest + d)[k] == d[k - rest.len()]);
                }
            }
        }
    }
}

/// Every search result is an entry of the tree whose title is the query.
pub proof fn lemma_search_entries(nodes: Seq<Node>, title: Seq<char>)
    requires
        nodes.len() <= usize::MAX,
    ensures
        forall|k: int|
            0 <= k < search_spec(nodes, title).len() ==> {
                &&& is_entry(nodes, #[trigger] search_spec(nodes, title)[k] as int)
                &&& title_of(nodes, search_spec(nodes, title)[k] as int) == Some(title)
            },
{
    let d = dfs(nodes, 0);
    let pred = has_title(nodes, title);
    lemma_dfs_entries(nodes, 0);
    assert forall|k: int| 0 <= k < d.filter(pred).len() implies {
        &&& is_entry(nodes, #[trigger] d.filter(pred)[k] as int)
        &&& title_of(nodes, d.filter(pred)[k] as int) == Some(title)
    } by {
        d.lemma_filter_pred(pred, k);
        assert(d.filter(pred).contains(d.filter(pred)[k]));
        d.lemma_filter_contains_rev(pred, d.filter(pred)[k]);
    }
}

/// A title search is exact: it returns only entries whose title equals the
/// query, every such entry reachable from the root, and them in depth-first
/// child order (the walk filtered by the title). The result is a function of
/// the tree and the query alone, and the search reads the tree without
/// changing it, so asking twice gives the same sequence.
pub proof fn lemma_search_by_title_exact(nodes: Seq<Node>, title: Seq<char>)
    requires
        nodes.len() <= usize::MAX,
    ensures
        search_spec(nodes, title) == dfs(nodes, 0).filter(has_title(nodes, title)),
        forall|k: int|
            0 <= k < search_spec(nodes, title).len() ==> {
                &&& is_entry(nodes, #[trigger] search_spec(nodes, title)[k] as int)
                &&& title_of(nodes, search_spec(nodes, title)[k] as int) == Some(title)
            },
        forall|j: int|
            0 <= j < dfs(nodes, 0).len() && title_of(nodes, #[trigger] dfs(nodes, 0)[j] as int)
                == Some(title) ==> search_spec(nodes, title).contains(dfs(nodes, 0)[j]),
{
    lemma_search_entries(nodes, title);
    let d = dfs(nodes, 0);
    let pred = has_title(nodes, title);
    assert forall|j: int|
        0 <= j < d.len() && title_of(nodes, #[trigger] d[j] as int) == Some(title) implies d.filter(
        pred,
    ).contains(d[j]) by {
        assert(pred(d[j]));
        d.lemma_filter_contains(pred, j);
    }
}

} // verus!
