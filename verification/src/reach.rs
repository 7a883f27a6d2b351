//! Reachability of CIR nodes from the program's entry list.
//!
//! A node id is reachable when a chain of child links leads to it from an
//! entry id. Links are followed through the node an id resolves to, which is
//! the last node that carries it.

use vstd::prelude::*;

use crate::cir::{check_result, CErr};
use crate::error::CompilerError;
use crate::plan::contains_name;
use crate::refs::views;
use crate::text::str_eq;
use crate::types::{CirNode, CirProgram};

verus! {

/// Index of the last node whose id is `id`, or -1 when no node has it.
pub open spec fn last_node(nodes: Seq<CirNode>, id: Seq<char>) -> int
    decreases nodes.len(),
{
    if nodes.len() == 0 {
        -1
    } else if nodes.last().node_id@ == id {
        nodes.len() - 1
    } else {
        last_node(nodes.drop_last(), id)
    }
}

pub proof fn lemma_last_node(nodes: Seq<CirNode>, id: Seq<char>)
    ensures
        -1 <= last_node(nodes, id) < nodes.len(),
        last_node(nodes, id) >= 0 ==> nodes[last_node(nodes, id)].node_id@ == id,
        forall|k: int|
            last_node(nodes, id) < k < nodes.len() ==> (#[trigger] nodes[k]).node_id@ != id,
    decreases nodes.len(),
{
    if nodes.len() > 0 && nodes.last().node_id@ != id {
        lemma_last_node(nodes.drop_last(), id);
        assert forall|k: int| last_node(nodes, id) < k < nodes.len() implies (
        #[trigger] nodes[k]).node_id@ != id by {
            if k < nodes.len() - 1 {
                assert(nodes.drop_last()[k] == nodes[k]);
            }
        }
    }
}

/// The ids a node links to: its children, then its else-children.
pub open spec fn succ_ids(n: CirNode) -> Seq<Seq<char>> {
    views(n.children@) + views(n.else_children@)
}

/// One link: `b` is a child (or else-child) of the node that `a` resolves to.
pub open spec fn step(nodes: Seq<CirNode>, a: Seq<char>, b: Seq<char>) -> bool {
    let j = last_node(nodes, a);
    0 <= j && succ_ids(nodes[j]).contains(b)
}

/// A chain of links that starts at an entry id.
pub open spec fn is_path(p: CirProgram, path: Seq<Seq<char>>) -> bool {
    &&& path.len() > 0
    &&& views(p.entry@).contains(path[0])
    &&& forall|i: int| 0 <= i < path.len() - 1 ==> step(p.nodes@, #[trigger] path[i], path[i + 1])
}

/// Whether id `x` is reachable from an entry of `p`.
pub open spec fn reachable(p: CirProgram, x: Seq<char>) -> bool {
    exists|path: Seq<Seq<char>>| #[trigger] is_path(p, path) && path.last() == x
}

/// The ids of the nodes among the first `k` that are not reachable, in node order.
pub open spec fn orphans_upto(p: CirProgram, k: nat) -> Seq<Seq<char>>
    decreases k,
{
    if k == 0 || k > p.nodes@.len() {
        seq![]
    } else {
        let id = p.nodes@[k - 1].node_id@;
        orphans_upto(p, (k - 1) as nat) + if reachable(p, id) {
            seq![]
        } else {
            seq![id]
        }
    }
}

/// The ids of the nodes that no entry reaches, in node order.
pub open spec fn orphans(p: CirProgram) -> Seq<Seq<char>> {
    orphans_upto(p, p.nodes@.len())
}

/// The reachability rule: every node must be reachable.
pub open spec fn reach_s(p: CirProgram) -> Option<CErr> {
    if orphans(p).len() > 0 {
        Some(CErr::UnreachableNodes(orphans(p)))
    } else {
        None
    }
}

pub open spec fn count_true(s: Seq<bool>) -> nat
    decreases s.len(),
{
    if s.len() == 0 {
        0
    } else {
        count_true(s.drop_last()) + if s.last() {
            1nat
        } else {
            0nat
        }
    }
}

proof fn lemma_count_set(s: Seq<bool>, j: int)
    requires
        0 <= j < s.len(),
        !s[j],
    ensures
        count_true(s.update(j, true)) == count_true(s) + 1,
    decreases s.len(),
{
    if j == s.len() - 1 {
        assert(s.update(j, true).drop_last() =~= s.drop_last());
    } else {
        lemma_count_set(s.drop_last(), j);
        assert(s.update(j, true).drop_last() =~= s.drop_last().update(j, true));
    }
}

proof fn lemma_count_none(s: Seq<bool>)
    requires
        forall|k: int| 0 <= k < s.len() ==> !s[k],
    ensures
        count_true(s) == 0,
    decreases s.len(),
{
    if s.len() > 0 {
        lemma_count_none(s.drop_last());
    }
}

proof fn lemma_count_le(s: Seq<bool>)
    ensures
        count_true(s) <= s.len(),
    decreases s.len(),
{
    if s.len() > 0 {
        lemma_count_le(s.drop_last());
    }
}

/// A set of ids closed under links.
pub open spec fn closed(nodes: Seq<CirNode>, ids: Seq<Seq<char>>) -> bool {
    forall|a: Seq<char>, b: Seq<char>| #![trigger ids.contains(a), step(nodes, a, b)]
        ids.contains(a) && step(nodes, a, b) ==> ids.contains(b)
}

/// A link-closed set that holds every entry holds every reachable id.
pub proof fn lemma_closed_holds_path(p: CirProgram, ids: Seq<Seq<char>>, path: Seq<Seq<char>>)
    requires
        is_path(p, path),
        forall|x: Seq<char>| views(p.entry@).contains(x) ==> #[trigger] ids.contains(x),
        closed(p.nodes@, ids),
    ensures
        ids.contains(path.last()),
    decreases path.len(),
{
    if path.len() > 1 {
        let q = path.drop_last();
        assert forall|i: int| 0 <= i < q.len() - 1 implies step(p.nodes@, #[trigger] q[i], q[i + 1]) by {
            assert(q[i] == path[i] && q[i + 1] == path[i + 1]);
        }
        assert(is_path(p, q));
        lemma_closed_holds_path(p, ids, q);
        assert(q.last() == path[path.len() - 2]);
        assert(step(p.nodes@, path[path.len() - 2], path[path.len() - 1]));
    }
}

/// Index of the last node with id `id`.
pub fn find_last_node(nodes: &Vec<CirNode>, id: &str) -> (r: Option<usize>)
    ensures
        match r {
            None => last_node(nodes@, id@) == -1,
            Some(j) => last_node(nodes@, id@) == j,
        },
{
    let mut i: usize = nodes.len();
    assert(nodes@.take(i as int) =~= nodes@);
    while i > 0
        invariant
            i <= nodes@.len(),
            last_node(nodes@, id@) == last_node(nodes@.take(i as int), id@),
        decreases i,
    {
        let ghost t = nodes@.take(i as int);
        assert(t.last() == nodes@[i - 1]);
        assert(t.drop_last() =~= nodes@.take(i - 1));
        if str_eq(nodes[i - 1].node_id.as_str(), id) {
            return Some(i - 1);
        }
        i = i - 1;
    }
    None
}

/// Appends copies of `items` to `out`.
pub fn push_all(out: &mut Vec<String>, items: &Vec<String>)
    ensures
        views(final(out)@) == views(old(out)@) + views(items@),
{
    let ghost o = views(out@);
    let mut i: usize = 0;
    while i < items.len()
        invariant
            i <= items@.len(),
            views(out@) == o + views(items@).take(i as int),
        decreases items@.len() - i,
    {
        let ghost before = views(out@);
        out.push(items[i].clone());
        assert(views(out@) =~= before.push(items@[i as int]@));
        assert(views(items@).take(i + 1) =~= views(items@).take(i as int).push(items@[i as int]@));
        i = i + 1;
    }
    assert(views(items@).take(items@.len() as int) =~= views(items@));
}

/// The ids reachable from the entries of `p`.
pub fn reachable_ids(p: &CirProgram) -> (r: Vec<String>)
    ensures
        forall|x: Seq<char>| #[trigger] views(r@).contains(x) <==> reachable(*p, x),
{
    let nodes = &p.nodes;
    let n = nodes.len();
    let mut reach: Vec<String> = Vec::new();
    push_all(&mut reach, &p.entry);
    assert(views(reach@) =~= views(p.entry@));
    assert forall|x: Seq<char>| views(reach@).contains(x) implies reachable(*p, x) by {
        let path = seq![x];
        assert(is_path(*p, path));
    }
    let mut expanded: Vec<bool> = Vec::new();
    while expanded.len() < n
        invariant
            expanded@.len() <= n,
            forall|k: int| 0 <= k < expanded@.len() ==> !expanded@[k],
        decreases n - expanded@.len(),
    {
        expanded.push(false);
    }
    proof {
        lemma_count_none(expanded@);
    }
    let mut done = false;
    while !done
        invariant
            nodes@ == p.nodes@,
            n == nodes@.len(),
            expanded@.len() == n,
            forall|x: Seq<char>| #[trigger] views(reach@).contains(x) ==> reachable(*p, x),
            forall|x: Seq<char>| views(p.entry@).contains(x) ==> #[trigger] views(reach@).contains(x),
            forall|j: int|
                0 <= j < n && #[trigger] expanded@[j] ==> {
                    &&& last_node(nodes@, nodes@[j].node_id@) == j
                    &&& forall|b: Seq<char>| #[trigger]
                        succ_ids(nodes@[j]).contains(b) ==> views(reach@).contains(b)
                },
            done ==> closed(nodes@, views(reach@)),
        decreases n - count_true(expanded@) + if done {
            0int
        } else {
            1int
        },
    {
        proof {
            lemma_count_le(expanded@);
        }
        let mut progress = false;
        let ghost start_reach = views(reach@);
        let ghost start_count = count_true(expanded@);
        let mut j: usize = 0;
        while j < n
            invariant
                nodes@ == p.nodes@,
                n == nodes@.len(),
                j <= n,
                expanded@.len() == n,
                forall|x: Seq<char>| #[trigger] views(reach@).contains(x) ==> reachable(*p, x),
                forall|x: Seq<char>|
                    views(p.entry@).contains(x) ==> #[trigger] views(reach@).contains(x),
                forall|x: Seq<char>| start_reach.contains(x) ==> #[trigger] views(reach@).contains(x),
                forall|i: int|
                    0 <= i < n && #[trigger] expanded@[i] ==> {
                        &&& last_node(nodes@, nodes@[i].node_id@) == i
                        &&& forall|b: Seq<char>| #[trigger]
                            succ_ids(nodes@[i]).contains(b) ==> views(reach@).contains(b)
                    },
                count_true(expanded@) >= start_count,
                progress ==> count_true(expanded@) > start_count,
                !progress ==> views(reach@) == start_reach,
                !progress ==> forall|k: int|
                    0 <= k < j ==> #[trigger] expanded@[k] || last_node(nodes@, nodes@[k].node_id@)
                        != k || !views(reach@).contains(nodes@[k].node_id@),
            decreases n - j,
        {
            if !expanded[j] {
                let is_last = match find_last_node(nodes, nodes[j].node_id.as_str()) {
                    Some(m) => m == j,
                    None => false,
                };
                if is_last && contains_name(&reach, nodes[j].node_id.as_str()) {
                    let ghost a = nodes@[j as int].node_id@;
                    let ghost before = views(reach@);
                    proof {
                        lemma_count_set(expanded@, j as int);
                    }
                    expanded.set(j, true);
                    push_all(&mut reach, &nodes[j].children);
                    push_all(&mut reach, &nodes[j].else_children);
                    assert(views(reach@) =~= before + succ_ids(nodes@[j as int]));
                    proof {
                        assert(reachable(*p, a));
                        let path = choose|path: Seq<Seq<char>>| #[trigger]
                            is_path(*p, path) && path.last() == a;
                        assert forall|x: Seq<char>| #[trigger]
                            views(reach@).contains(x) implies reachable(*p, x) by {
                            if !before.contains(x) {
                                let k = choose|k: int|
                                    0 <= k < views(reach@).len() && views(reach@)[k] == x;
                                assert(succ_ids(nodes@[j as int])[k - before.len()] == x);
                                assert(succ_ids(nodes@[j as int]).contains(x));
                                let path2 = path.push(x);
                                assert forall|i: int| 0 <= i < path2.len() - 1 implies step(
                                    p.nodes@,
                                    #[trigger] path2[i],
                                    path2[i + 1],
                                ) by {
                                    if i < path.len() - 1 {
                                        assert(path2[i] == path[i] && path2[i + 1] == path[i + 1]);
                                    } else {
                                        assert(path2[i] == a);
                                    }
                                }
                                assert(is_path(*p, path2));
                            }
                        }
                        assert forall|x: Seq<char>| before.contains(x) implies #[trigger] views(
                            reach@,
                        ).contains(x) by {
                            let k = choose|k: int| 0 <= k < before.len() && before[k] == x;
                            assert(views(reach@)[k] == x);
                        }
                        assert forall|b: Seq<char>| #[trigger]
                            succ_ids(nodes@[j as int]).contains(b) implies views(reach@).contains(
                            b,
                        ) by {
                            let k = choose|k: int|
                                0 <= k < succ_ids(nodes@[j as int]).len() && succ_ids(
                                    nodes@[j as int],
                                )[k] == b;
                            assert(views(reach@)[before.len() + k] == b);
                        }
                    }
                    progress = true;
                }
            }
            j = j + 1;
        }
        proof {
            lemma_count_le(expanded@);
        }
        if !progress {
            done = true;
            proof {
                assert forall|a: Seq<char>, b: Seq<char>|
                    views(reach@).contains(a) && step(nodes@, a, b) implies views(
                    reach@,
                ).contains(b) by {
                    lemma_last_node(nodes@, a);
                    let k = last_node(nodes@, a);
                    assert(nodes@[k].node_id@ == a);
                    assert(expanded@[k]);
                }
            }
        }
    }
    proof {
        assert forall|x: Seq<char>| reachable(*p, x) implies #[trigger] views(reach@).contains(x) by {
            let path = choose|path: Seq<Seq<char>>| #[trigger] is_path(*p, path) && path.last() == x;
            lemma_closed_holds_path(*p, views(reach@), path);
        }
    }
    reach
}

/// Checks that every node is reachable from an entry; the orphans are listed
/// in node order.
pub fn check_reachability(p: &CirProgram) -> (r: Result<(), CompilerError>)
    ensures
        check_result(r, reach_s(*p)),
{
    let reach = reachable_ids(p);
    let mut orphan_ids: Vec<String> = Vec::new();
    let mut i: usize = 0;
    while i < p.nodes.len()
        invariant
            i <= p.nodes@.len(),
            forall|x: Seq<char>| #[trigger] views(reach@).contains(x) <==> reachable(*p, x),
            views(orphan_ids@) == orphans_upto(*p, i as nat),
        decreases p.nodes@.len() - i,
    {
        let ghost before = views(orphan_ids@);
        if !contains_name(&reach, p.nodes[i].node_id.as_str()) {
            orphan_ids.push(p.nodes[i].node_id.clone());
        }
        assert(views(orphan_ids@) =~= orphans_upto(*p, (i + 1) as nat));
        i = i + 1;
    }
    if orphan_ids.len() > 0 {
        Err(CompilerError::UnreachableNodes { node_ids: orphan_ids })
    } else {
        Ok(())
    }
}

} // verus!
