//! Depth-first search for a cycle in a graph given as successor lists:
//! `g[i]` lists the nodes that node `i` points to.

use vstd::prelude::*;

verus! {

/// Node `i` points to node `j`.
pub open spec fn edge(g: Seq<Seq<usize>>, i: int, j: int) -> bool {
    &&& 0 <= i < g.len()
    &&& 0 <= j < g.len()
    &&& exists|k: int| 0 <= k < g[i].len() && g[i][k] == j
}

/// Every listed successor is a node of the graph.
pub open spec fn well_formed(g: Seq<Seq<usize>>) -> bool {
    forall|i: int, k: int| 0 <= i < g.len() && 0 <= k < g[i].len() ==> #[trigger] g[i][k] < g.len()
}

/// Each node of `p` points to the next one.
pub open spec fn is_walk(g: Seq<Seq<usize>>, p: Seq<int>) -> bool {
    forall|k: int| 0 <= k < p.len() - 1 ==> #[trigger] edge(g, p[k], p[k + 1])
}

/// A path of at least one edge.
pub open spec fn is_path(g: Seq<Seq<usize>>, p: Seq<int>) -> bool {
    p.len() >= 2 && is_walk(g, p)
}

/// Node `v` can reach itself again by following at least one edge.
pub open spec fn on_cycle(g: Seq<Seq<usize>>, v: int) -> bool {
    exists|p: Seq<int>| #[trigger] is_path(g, p) && p[0] == v && p[p.len() - 1] == v
}

/// No node of the graph lies on a cycle.
pub open spec fn acyclic(g: Seq<Seq<usize>>) -> bool {
    forall|v: int| 0 <= v < g.len() ==> !on_cycle(g, v)
}

/// Number of nodes that the search has not reached yet (mark 0).
pub open spec fn count_unvisited(s: Seq<u8>) -> nat
    decreases s.len(),
{
    if s.len() == 0 {
        0
    } else {
        count_unvisited(s.drop_last()) + if s.last() == 0 {
            1nat
        } else {
            0nat
        }
    }
}

/// The state of the search: mark 0 is unvisited, 1 is on the current stack
/// `stack`, 2 is finished. Finished nodes only point to finished nodes and lie
/// on no cycle.
pub open spec fn search_inv(g: Seq<Seq<usize>>, marks: Seq<u8>, stack: Seq<int>) -> bool {
    &&& marks.len() == g.len()
    &&& forall|v: int| 0 <= v < marks.len() ==> #[trigger] marks[v] <= 2
    &&& forall|v: int| 0 <= v < marks.len() ==> (#[trigger] marks[v] == 1 <==> stack.contains(v))
    &&& forall|k: int| 0 <= k < stack.len() ==> 0 <= #[trigger] stack[k] < g.len()
    &&& is_walk(g, stack)
    &&& forall|v: int, w: int|
        0 <= v < marks.len() && marks[v] == 2 && #[trigger] edge(g, v, w) ==> marks[w] == 2
    &&& forall|v: int| 0 <= v < marks.len() && #[trigger] marks[v] == 2 ==> !on_cycle(g, v)
}

/// The outcome of the search from `id` given `marks`, with at most `fuel`
/// nested searches: the node at which a node still under search was met
/// again, if any, and the marks left. Successors are searched in list order;
/// a finished node is skipped and a node under search ends the search.
pub open spec fn search_from(g: Seq<Seq<usize>>, id: int, marks: Seq<u8>, fuel: nat) -> (Option<
    int,
>, Seq<u8>)
    decreases fuel, 1int, 0int,
{
    if fuel == 0 {
        (None, marks)
    } else if marks[id] == 2 {
        (None, marks)
    } else if marks[id] == 1 {
        (Some(id), marks)
    } else {
        search_successors(g, id, 0, marks.update(id, 1), fuel)
    }
}

/// The outcome of searching the successors of `id` from the `k`-th one on,
/// then finishing `id`.
pub open spec fn search_successors(
    g: Seq<Seq<usize>>,
    id: int,
    k: int,
    marks: Seq<u8>,
    fuel: nat,
) -> (Option<int>, Seq<u8>)
    decreases fuel, 0int, g[id].len() - k,
{
    if fuel == 0 || k < 0 || k >= g[id].len() {
        (None, marks.update(id, 2))
    } else {
        let (r, after) = search_from(g, g[id][k] as int, marks, (fuel - 1) as nat);
        if r is Some {
            (r, after)
        } else {
            search_successors(g, id, k + 1, after, fuel)
        }
    }
}

/// The node at which the search over nodes `i`, `i + 1`, ... meets a cycle.
pub open spec fn search_all(g: Seq<Seq<usize>>, i: int, marks: Seq<u8>) -> Option<int>
    decreases g.len() - i,
{
    if i < 0 || i >= g.len() {
        None
    } else {
        let (r, after) = search_from(g, i, marks, count_unvisited(marks) + 1);
        if r is Some {
            r
        } else {
            search_all(g, i + 1, after)
        }
    }
}

/// The node at which a depth-first search, started from each node in turn
/// and following successors in list order, first meets a node still under
/// search.
pub open spec fn first_cycle_met(g: Seq<Seq<usize>>) -> Option<int> {
    search_all(g, 0, Seq::new(g.len(), |v: int| 0u8))
}

/// The result of `visit` as the search outcome.
pub open spec fn outcome(r: Result<(), usize>) -> Option<int> {
    match r {
        Ok(()) => None,
        Err(c) => Some(c as int),
    }
}

proof fn lemma_count_unvisited_monotone(s1: Seq<u8>, s2: Seq<u8>, i: int)
    requires
        s1.len() == s2.len(),
        forall|v: int| 0 <= v < s1.len() && s1[v] != 0 ==> s2[v] != 0,
    ensures
        count_unvisited(s2) <= count_unvisited(s1),
        0 <= i < s1.len() && s1[i] == 0 && s2[i] != 0 ==> count_unvisited(s2) < count_unvisited(
            s1,
        ),
    decreases s1.len(),
{
    if s1.len() > 0 {
        lemma_count_unvisited_monotone(s1.drop_last(), s2.drop_last(), i);
    }
}

/// Along a walk that enters the finished nodes, every later node is finished.
proof fn lemma_finished_stays_finished(g: Seq<Seq<usize>>, marks: Seq<u8>, p: Seq<int>, k: int)
    requires
        marks.len() == g.len(),
        forall|v: int, w: int|
            0 <= v < marks.len() && marks[v] == 2 && #[trigger] edge(g, v, w) ==> marks[w] == 2,
        is_walk(g, p),
        1 <= k < p.len(),
        0 <= p[1] < marks.len(),
        marks[p[1]] == 2,
    ensures
        0 <= p[k] < marks.len() && marks[p[k]] == 2,
    decreases k,
{
    if k > 1 {
        lemma_finished_stays_finished(g, marks, p, k - 1);
        assert(edge(g, p[k - 1], p[(k - 1) + 1]));
    }
}

/// Searches from `id`; `stack` holds the nodes whose search is under way, and
/// the last of them points to `id`. Returns a node on a cycle when one is met.
fn visit(g: &Vec<Vec<usize>>, id: usize, marks: &mut Vec<u8>, Ghost(stack): Ghost<Seq<int>>) -> (r:
    Result<(), usize>)
    requires
        well_formed(g.deep_view()),
        id < g.len(),
        search_inv(g.deep_view(), old(marks)@, stack),
        stack.len() > 0 ==> edge(g.deep_view(), stack[stack.len() - 1], id as int),
    ensures
        match r {
            Ok(()) => {
                &&& search_inv(g.deep_view(), final(marks)@, stack)
                &&& final(marks)@[id as int] == 2
                &&& forall|v: int| 0 <= v < old(marks)@.len() ==> (old(marks)@[v] == 1 ==> #[trigger] final(marks)@[v] == 1) && (old(marks)@[v] == 2 ==> final(marks)@[v] == 2)
            },
            Err(c) => c < g.len() && on_cycle(g.deep_view(), c as int),
        },
        forall|f: nat|
            f > count_unvisited(old(marks)@) ==> #[trigger] search_from(
                g.deep_view(),
                id as int,
                old(marks)@,
                f,
            ) == (outcome(r), final(marks)@),
    decreases count_unvisited(old(marks)@),
{
    let ghost gv = g.deep_view();
    let ghost marks0 = marks@;
    if marks[id] == 2 {
        return Ok(());
    }
    if marks[id] == 1 {
        proof {
            assert(stack.contains(id as int));
            let j = choose|j: int| 0 <= j < stack.len() && stack[j] == id as int;
            let q = stack.subrange(j, stack.len() as int).push(id as int);
            assert forall|k: int| 0 <= k < q.len() - 1 implies #[trigger] edge(gv, q[k], q[k + 1]) by {
                if k < q.len() - 2 {
                    assert(edge(gv, stack[j + k], stack[j + k + 1]));
                }
            }
            assert(is_path(gv, q));
        }
        return Err(id);
    }
    marks.set(id, 1);
    assert forall|f: nat| f > count_unvisited(marks0) implies #[trigger] search_from(
        gv,
        id as int,
        marks0,
        f,
    ) == search_successors(gv, id as int, 0, marks@, f) by {
        assert(marks@ == marks0.update(id as int, 1));
    }
    let ghost stack2 = stack.push(id as int);
    proof {
        lemma_count_unvisited_monotone(marks0, marks@, id as int);
        assert forall|v: int| 0 <= v < marks@.len() implies (#[trigger] marks@[v] == 1
            <==> stack2.contains(v)) by {
            if v == id {
                assert(stack2[stack2.len() - 1] == v);
            } else {
                if stack.contains(v) {
                    let j = choose|j: int| 0 <= j < stack.len() && stack[j] == v;
                    assert(stack2[j] == v);
                }
                if stack2.contains(v) {
                    let j = choose|j: int| 0 <= j < stack2.len() && stack2[j] == v;
                    assert(stack[j] == v);
                }
            }
        }
        assert forall|k: int| 0 <= k < stack2.len() - 1 implies #[trigger] edge(
            gv,
            stack2[k],
            stack2[k + 1],
        ) by {
            if k < stack.len() - 1 {
                assert(edge(gv, stack[k], stack[k + 1]));
            }
        }
    }
    let n = g[id].len();
    let mut k: usize = 0;
    while k < n
        invariant
            gv == g.deep_view(),
            well_formed(gv),
            id < g.len(),
            n == g@[id as int].len(),
            0 <= k <= n,
            search_inv(gv, marks@, stack2),
            marks@[id as int] == 1,
            stack2 == stack.push(id as int),
            marks0 == old(marks)@,
            marks0.len() == marks@.len(),
            marks0[id as int] == 0,
            count_unvisited(marks@) < count_unvisited(marks0),
            forall|v: int|
                0 <= v < marks0.len() ==> (marks0[v] == 1 ==> #[trigger] marks@[v] == 1) && (
                marks0[v] == 2 ==> marks@[v] == 2),
            forall|l: int| 0 <= l < k ==> marks@[gv[id as int][l] as int] == 2,
            forall|f: nat|
                f > count_unvisited(marks0) ==> #[trigger] search_from(gv, id as int, marks0, f)
                    == search_successors(gv, id as int, k as int, marks@, f),
        decreases n - k,
    {
        let y = g[id][k];
        assert(gv[id as int][k as int] == y);
        assert(edge(gv, stack2[stack2.len() - 1], y as int));
        let ghost before = marks@;
        let res = visit(g, y, marks, Ghost(stack2));
        proof {
            assert forall|f: nat| f > count_unvisited(marks0) implies #[trigger] search_from(
                gv,
                id as int,
                marks0,
                f,
            ) == match res {
                Err(c) => (Some(c as int), marks@),
                Ok(()) => search_successors(gv, id as int, k + 1, marks@, f),
            } by {
                assert(search_from(gv, y as int, before, (f - 1) as nat) == (outcome(res), marks@));
            }
        }
        match res {
            Err(c) => {
                return Err(c);
            },
            Ok(()) => {},
        }
        proof {
            lemma_count_unvisited_monotone(before, marks@, 0);
        }
        k = k + 1;
    }
    let ghost before = marks@;
    marks.set(id, 2);
    proof {
        assert forall|f: nat| f > count_unvisited(marks0) implies #[trigger] search_from(
            gv,
            id as int,
            marks0,
            f,
        ) == (None::<int>, marks@) by {
            assert(search_successors(gv, id as int, n as int, before, f) == (None::<int>, marks@));
        }
        assert forall|w: int| #[trigger] edge(gv, id as int, w) implies before[w] == 2 by {
            let l = choose|l: int| 0 <= l < gv[id as int].len() && gv[id as int][l] == w;
        }
        assert(!on_cycle(gv, id as int)) by {
            if on_cycle(gv, id as int) {
                let p = choose|p: Seq<int>|
                    #[trigger] is_path(gv, p) && p[0] == id as int && p[p.len() - 1] == id as int;
                let z: int = 0;
                assert(edge(gv, p[z], p[z + 1]));
                lemma_finished_stays_finished(gv, before, p, p.len() - 1);
            }
        }
        assert forall|v: int| 0 <= v < marks@.len() implies (#[trigger] marks@[v] == 1
            <==> stack.contains(v)) by {
            if v != id {
                assert(before[v] == marks@[v]);
                if stack.contains(v) {
                    let j = choose|j: int| 0 <= j < stack.len() && stack[j] == v;
                    assert(stack2[j] == v);
                }
                if stack2.contains(v) {
                    let j = choose|j: int| 0 <= j < stack2.len() && stack2[j] == v;
                    assert(stack[j] == v);
                }
            } else {
                if stack.contains(v) {
                    let j = choose|j: int| 0 <= j < stack.len() && stack[j] == v;
                    assert(marks0[v] == 1);
                }
            }
        }
        assert forall|k: int| 0 <= k < stack.len() - 1 implies #[trigger] edge(
            gv,
            stack[k],
            stack[k + 1],
        ) by {
            assert(edge(gv, stack2[k], stack2[k + 1]));
        }
    }
    Ok(())
}

/// Searches the whole graph, starting from each node in order. Returns a node
/// that lies on a cycle, or `Ok` when there is none.
pub fn find_cycle(g: &Vec<Vec<usize>>) -> (r: Result<(), usize>)
    requires
        well_formed(g.deep_view()),
    ensures
        match r {
            Ok(()) => acyclic(g.deep_view()),
            Err(c) => c < g.len() && on_cycle(g.deep_view(), c as int),
        },
        outcome(r) == first_cycle_met(g.deep_view()),
{
    let ghost gv = g.deep_view();
    let n = g.len();
    let mut marks: Vec<u8> = Vec::new();
    let mut i: usize = 0;
    while i < n
        invariant
            n == g.len(),
            i <= n,
            marks@.len() == i,
            forall|v: int| 0 <= v < i ==> marks@[v] == 0,
        decreases n - i,
    {
        marks.push(0);
        i = i + 1;
    }
    let ghost empty = Seq::<int>::empty();
    assert(search_inv(gv, marks@, empty));
    assert(marks@ =~= Seq::new(gv.len(), |v: int| 0u8));
    let mut i: usize = 0;
    while i < n
        invariant
            gv == g.deep_view(),
            well_formed(gv),
            n == g.len(),
            i <= n,
            empty == Seq::<int>::empty(),
            search_inv(gv, marks@, empty),
            forall|v: int| 0 <= v < i ==> marks@[v] == 2,
            first_cycle_met(gv) == search_all(gv, i as int, marks@),
        decreases n - i,
    {
        let ghost before = marks@;
        let res = visit(g, i, &mut marks, Ghost(empty));
        proof {
            assert(search_from(gv, i as int, before, count_unvisited(before) + 1) == (
                outcome(res),
                marks@,
            ));
        }
        match res {
            Err(c) => {
                return Err(c);
            },
            Ok(()) => {},
        }
        assert forall|v: int| 0 <= v < i + 1 implies marks@[v] == 2 by {
            if v < i {
                assert(before[v] == 2);
            }
        }
        i = i + 1;
    }
    assert forall|v: int| 0 <= v < gv.len() implies !on_cycle(gv, v) by {
        assert(marks@[v] == 2);
    }
    Ok(())
}

} // verus!
