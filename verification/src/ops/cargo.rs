//! What the build tool is told when a package is published, and the order
//! in which the packages of a workspace are worked on.

use vstd::prelude::*;
use crate::ops::text::same_text;
use crate::steps::workspace::Workspace;

verus! {

/// The feature selection of a publish call.
#[derive(Debug)]
pub enum Features {
    /// No feature beyond the package's defaults.
    Plain,
    Selective(Vec<String>),
    All,
}

/// Whether an assignment of ranks to the nodes of a graph puts every node
/// above the nodes it depends on. `graph[i]` lists what node `i` depends on;
/// a node's mention of itself does not count.
pub open spec fn ranked(graph: Seq<Seq<usize>>, rank: spec_fn(int) -> int) -> bool {
    forall|i: int, k: int|
        0 <= i < graph.len() && 0 <= k < graph[i].len() && (#[trigger] graph[i][k]) != i ==> rank(
            graph[i][k] as int,
        ) < rank(i)
}

/// Whether no node of the graph depends on itself by way of others.
pub open spec fn acyclic(graph: Seq<Seq<usize>>) -> bool {
    exists|rank: spec_fn(int) -> int| ranked(graph, rank)
}

/// [`ranked`] for a graph held as lists.
spec fn ranked_lists(graph: Seq<Vec<usize>>, rank: spec_fn(int) -> int) -> bool {
    forall|i: int, k: int|
        0 <= i < graph.len() && 0 <= k < graph[i]@.len() && (#[trigger] graph[i]@[k]) != i ==> rank(
            graph[i]@[k] as int,
        ) < rank(i)
}

/// Whether node `d` stands in `order` before place `q`.
pub open spec fn placed_before(order: Seq<usize>, d: int, q: int) -> bool {
    exists|p: int| 0 <= p < q && p < order.len() && #[trigger] order[p] == d
}

/// Whether node `x` stands somewhere in `order`.
pub open spec fn placed(order: Seq<usize>, x: int) -> bool {
    exists|p: int| 0 <= p < order.len() && #[trigger] order[p] == x
}

/// Whether every node of `order` stands after the nodes it depends on.
pub open spec fn topological(graph: Seq<Seq<usize>>, order: Seq<usize>) -> bool {
    forall|q: int, k: int|
        0 <= q < order.len() && order[q] < graph.len() && 0 <= k < graph[order[q] as int].len() && (
        #[trigger] graph[order[q] as int][k]) != order[q] && graph[order[q] as int][k] < graph.len()
            ==> placed_before(order, graph[order[q] as int][k] as int, q)
}

/// [`topological`] for a graph held as lists.
spec fn topological_lists(graph: Seq<Vec<usize>>, order: Seq<usize>) -> bool {
    forall|q: int, k: int|
        0 <= q < order.len() && order[q] < graph.len() && 0 <= k < graph[order[q] as int]@.len() && (
        #[trigger] graph[order[q] as int]@[k]) != order[q] && graph[order[q] as int]@[k]
            < graph.len() ==> placed_before(order, graph[order[q] as int]@[k] as int, q)
}

/// Whether `order` holds each of the numbers below `n` once and nothing else.
pub open spec fn permutation(order: Seq<usize>, n: nat) -> bool {
    &&& order.len() == n
    &&& forall|p: int| 0 <= p < order.len() ==> #[trigger] order[p] < n
    &&& forall|p: int, q: int| 0 <= p < q < order.len() ==> #[trigger] order[p] != #[trigger] order[q]
}

/// The number of nodes not yet marked.
pub open spec fn unmarked(marks: Seq<bool>) -> nat
    decreases marks.len(),
{
    if marks.len() == 0 {
        0
    } else {
        unmarked(marks.drop_last()) + if marks.last() {
            0nat
        } else {
            1nat
        }
    }
}

/// The lists of a graph, each as the sequence it holds.
pub open spec fn rows(graph: Seq<Vec<usize>>) -> Seq<Seq<usize>> {
    Seq::new(graph.len(), |i: int| graph[i]@)
}

/// The marks and the order after node `i` was taken up: the node is marked,
/// what it depends on is walked through, and then the node is placed.
/// `fuel` bounds the depth of the walk; with as much fuel as there are
/// unmarked nodes it never runs out.
pub open spec fn walk(graph: Seq<Seq<usize>>, fuel: nat, i: usize, marks: Seq<bool>, order: Seq<usize>) -> (
    Seq<bool>,
    Seq<usize>,
)
    decreases fuel, 0nat, 0nat,
{
    if fuel == 0 || i >= marks.len() || i >= graph.len() {
        (marks, order)
    } else {
        let (marked, placed) = walk_through(
            graph,
            (fuel - 1) as nat,
            i,
            0,
            marks.update(i as int, true),
            order,
        );
        (marked, placed.push(i))
    }
}

/// The marks and the order after what node `i` lists from place `k` on was
/// walked through: each listed node that is not marked yet is taken up, in
/// the order of the list.
pub open spec fn walk_through(
    graph: Seq<Seq<usize>>,
    fuel: nat,
    i: usize,
    k: nat,
    marks: Seq<bool>,
    order: Seq<usize>,
) -> (Seq<bool>, Seq<usize>)
    decreases fuel, 1nat, graph[i as int].len() - k,
{
    if i >= graph.len() || k >= graph[i as int].len() {
        (marks, order)
    } else {
        let d = graph[i as int][k as int];
        let left = if unmarked(marks) < fuel {
            unmarked(marks)
        } else {
            fuel
        };
        let (marked, placed) = if d < marks.len() && !marks[d as int] {
            walk(graph, left, d, marks, order)
        } else {
            (marks, order)
        };
        walk_through(graph, fuel, i, k + 1, marked, placed)
    }
}

/// The order after the nodes from `i` on were taken up in turn, each unless
/// it is marked by then.
pub open spec fn walk_from(graph: Seq<Seq<usize>>, i: nat, marks: Seq<bool>, order: Seq<usize>) -> Seq<
    usize,
>
    decreases graph.len() - i,
{
    if i >= graph.len() {
        order
    } else if i < marks.len() && !marks[i as int] {
        let (marked, placed) = walk(graph, unmarked(marks), i as usize, marks, order);
        walk_from(graph, i + 1, marked, placed)
    } else {
        walk_from(graph, i + 1, marks, order)
    }
}

/// The order in which the nodes of a graph are worked on: the nodes are
/// taken up in their own order, each preceded by what it depends on and is
/// not placed yet, in the order in which it lists that.
pub open spec fn dependency_walk(graph: Seq<Seq<usize>>) -> Seq<usize> {
    walk_from(graph, 0, Seq::new(graph.len(), |x: int| false), Seq::empty())
}

/// Marking a node leaves one unmarked node less.
proof fn lemma_mark(marks: Seq<bool>, i: int)
    requires
        0 <= i < marks.len(),
        !marks[i],
    ensures
        unmarked(marks.update(i, true)) + 1 == unmarked(marks),
    decreases marks.len(),
{
    let after = marks.update(i, true);
    if i == marks.len() - 1 {
        assert(after.drop_last() =~= marks.drop_last());
    } else {
        assert(after.drop_last() =~= marks.drop_last().update(i, true));
        lemma_mark(marks.drop_last(), i);
    }
}

/// Where every node is marked, none is left unmarked.
proof fn lemma_all_marked(marks: Seq<bool>)
    requires
        forall|i: int| 0 <= i < marks.len() ==> marks[i],
    ensures
        unmarked(marks) == 0,
    decreases marks.len(),
{
    if marks.len() > 0 {
        assert forall|i: int| 0 <= i < marks.len() - 1 implies marks.drop_last()[i] by {
            assert(marks.drop_last()[i] == marks[i]);
        }
        lemma_all_marked(marks.drop_last());
    }
}

/// Where no node is marked, all are left unmarked.
proof fn lemma_none_marked(marks: Seq<bool>)
    requires
        forall|i: int| 0 <= i < marks.len() ==> !marks[i],
    ensures
        unmarked(marks) == marks.len(),
    decreases marks.len(),
{
    if marks.len() > 0 {
        assert forall|i: int| 0 <= i < marks.len() - 1 implies !marks.drop_last()[i] by {
            assert(marks.drop_last()[i] == marks[i]);
        }
        lemma_none_marked(marks.drop_last());
    }
}

/// What holds while the graph is walked: the nodes placed are marked and
/// placed once; a marked node is placed or still being worked on; the nodes
/// placed, those worked on and those unmarked are all the nodes; and, where
/// `rank` ranks the graph, every node placed stands after what it depends on.
spec fn walking(
    graph: Seq<Vec<usize>>,
    marks: Seq<bool>,
    order: Seq<usize>,
    open: Seq<int>,
    rank: spec_fn(int) -> int,
) -> bool {
    &&& marks.len() == graph.len()
    &&& forall|p: int| 0 <= p < order.len() ==> (#[trigger] order[p]) < graph.len() && marks[order[p] as int]
    &&& forall|p: int, q: int| 0 <= p < q < order.len() ==> #[trigger] order[p] != #[trigger] order[q]
    &&& forall|x: int|
        0 <= x < marks.len() && #[trigger] marks[x] ==> placed(order, x) || open.contains(x)
    &&& order.len() + open.len() + unmarked(marks) == graph.len()
    &&& ranked_lists(graph, rank) ==> topological_lists(graph, order)
}

/// Places node `i` after everything it depends on that is not placed yet.
fn visit(
    graph: &Vec<Vec<usize>>,
    i: usize,
    marks: &mut Vec<bool>,
    order: &mut Vec<usize>,
    Ghost(open): Ghost<Seq<int>>,
    Ghost(rank): Ghost<spec_fn(int) -> int>,
)
    requires
        i < graph@.len(),
        old(marks)@.len() == graph@.len(),
        !old(marks)@[i as int],
        walking(graph@, old(marks)@, old(order)@, open, rank),
        ranked_lists(graph@, rank) ==> forall|s: int| open.contains(s) ==> rank(s) > rank(i as int),
    ensures
        walking(graph@, final(marks)@, final(order)@, open, rank),
        forall|x: int| 0 <= x < graph@.len() && old(marks)@[x] ==> final(marks)@[x],
        final(marks)@[i as int],
        placed(final(order)@, i as int),
        old(order)@.len() <= final(order)@.len(),
        forall|p: int| 0 <= p < old(order)@.len() ==> final(order)@[p] == old(order)@[p],
        unmarked(final(marks)@) < unmarked(old(marks)@),
        (final(marks)@, final(order)@) == walk(
            rows(graph@),
            unmarked(old(marks)@),
            i,
            old(marks)@,
            old(order)@,
        ),
    decreases unmarked(old(marks)@),
{
    let n = graph.len();
    proof {
        lemma_mark(marks@, i as int);
    }
    marks.set(i, true);
    let ghost start_marks = marks@;
    let ghost fuel = unmarked(start_marks);
    let ghost inner = open.push(i as int);
    let ghost first_order = order@;
    let ghost first_marks = old(marks)@;
    proof {
        assert forall|x: int| 0 <= x < marks@.len() && #[trigger] marks@[x] implies placed(
            order@,
            x,
        ) || inner.contains(x) by {
            if x == i {
                assert(inner[open.len() as int] == x);
            } else {
                assert(first_marks[x]);
                if open.contains(x) {
                    let w = choose|w: int| 0 <= w < open.len() && open[w] == x;
                    assert(inner[w] == x);
                }
            }
        }
        assert(!placed(order@, i as int)) by {
            if placed(order@, i as int) {
                let w = choose|w: int| 0 <= w < order@.len() && #[trigger] order@[w] == i;
                assert(first_marks[order@[w] as int]);
            }
        }
    }
    let mut k: usize = 0;
    while k < graph[i].len()
        invariant
            n == graph@.len(),
            i < n,
            k <= graph@[i as int]@.len(),
            marks@[i as int],
            !placed(order@, i as int),
            first_marks == old(marks)@,
            fuel + 1 == unmarked(first_marks),
            walk_through(rows(graph@), fuel, i, k as nat, marks@, order@) == walk_through(
                rows(graph@),
                fuel,
                i,
                0,
                start_marks,
                first_order,
            ),
            inner == open.push(i as int),
            walking(graph@, marks@, order@, inner, rank),
            forall|x: int| 0 <= x < graph@.len() && first_marks[x] ==> marks@[x],
            first_marks.len() == graph@.len(),
            first_order.len() <= order@.len(),
            forall|p: int| 0 <= p < first_order.len() ==> order@[p] == first_order[p],
            unmarked(marks@) < unmarked(first_marks),
            ranked_lists(graph@, rank) ==> forall|s: int| open.contains(s) ==> rank(s) > rank(i as int),
            ranked_lists(graph@, rank) ==> forall|j: int|
                0 <= j < k && (#[trigger] graph@[i as int]@[j]) != i && graph@[i as int]@[j] < n
                    ==> placed(order@, graph@[i as int]@[j] as int),
        decreases graph@[i as int]@.len() - k,
    {
        let d = graph[i][k];
        let ghost order_before = order@;
        let ghost marks_before = marks@;
        proof {
            assert(rows(graph@)[i as int][k as int] == d);
            assert(rows(graph@)[i as int].len() == graph@[i as int]@.len());
        }
        if d < n && !marks[d] {
            proof {
                if ranked_lists(graph@, rank) {
                    assert(rank(graph@[i as int]@[k as int] as int) < rank(i as int));
                    assert forall|s: int| inner.contains(s) implies rank(s) > rank(d as int) by {
                        let w = choose|w: int| 0 <= w < inner.len() && inner[w] == s;
                        if w < open.len() {
                            assert(open[w] == s);
                            assert(open.contains(s));
                        }
                    }
                }
            }
            visit(graph, d, marks, order, Ghost(inner), Ghost(rank));
            proof {
                assert(!placed(order@, i as int)) by {
                    if placed(order@, i as int) {
                        let w = choose|w: int| 0 <= w < order@.len() && #[trigger] order@[w] == i;
                        assert(inner[open.len() as int] == i);
                        assert(inner.contains(i as int));
                        lemma_open_not_placed(graph@, marks@, order@, inner, rank, w);
                    }
                }
            }
        } else if d < n && d != i {
            proof {
                if ranked_lists(graph@, rank) {
                    assert(rank(graph@[i as int]@[k as int] as int) < rank(i as int));
                    assert(marks@[d as int]);
                    if inner.contains(d as int) {
                        let w = choose|w: int| 0 <= w < inner.len() && inner[w] == d;
                        assert(open[w] == d);
                        assert(open.contains(d as int));
                    }
                    assert(placed(order@, d as int));
                }
            }
        }
        proof {
            if ranked_lists(graph@, rank) {
                assert forall|j: int|
                    0 <= j < k + 1 && (#[trigger] graph@[i as int]@[j]) != i && graph@[i as int]@[j]
                        < n implies placed(order@, graph@[i as int]@[j] as int) by {
                    if j < k {
                        assert(placed(order_before, graph@[i as int]@[j] as int));
                        let w = choose|w: int|
                            0 <= w < order_before.len() && #[trigger] order_before[w]
                                == graph@[i as int]@[j];
                        assert(order@[w] == graph@[i as int]@[j]);
                    }
                }
            }
        }
        proof {
            assert(walk_through(rows(graph@), fuel, i, k as nat, marks_before, order_before)
                == walk_through(rows(graph@), fuel, i, (k + 1) as nat, marks@, order@));
        }
        k += 1;
    }
    let ghost before_push = order@;
    proof {
        assert(rows(graph@)[i as int].len() == graph@[i as int]@.len());
        assert(walk_through(rows(graph@), fuel, i, k as nat, marks@, order@) == (marks@, order@));
        assert(start_marks == first_marks.update(i as int, true));
    }
    order.push(i);
    proof {
        let now = order@;
        assert(now[before_push.len() as int] == i);
        assert forall|p: int| 0 <= p < now.len() implies (#[trigger] now[p]) < graph@.len()
            && marks@[now[p] as int] by {
            if p < before_push.len() {
                assert(now[p] == before_push[p]);
            }
        }
        assert forall|p: int, q: int| 0 <= p < q < now.len() implies #[trigger] now[p]
            != #[trigger] now[q] by {
            if q == before_push.len() {
                assert(now[p] == before_push[p]);
                assert(placed(before_push, before_push[p] as int));
            } else {
                assert(now[p] == before_push[p]);
                assert(now[q] == before_push[q]);
            }
        }
        assert forall|x: int| 0 <= x < marks@.len() && #[trigger] marks@[x] implies placed(
            now,
            x,
        ) || open.contains(x) by {
            if x != i {
                if placed(before_push, x) {
                    let w = choose|w: int| 0 <= w < before_push.len() && #[trigger] before_push[w] == x;
                    assert(now[w] == x);
                } else {
                    assert(inner.contains(x));
                    let w = choose|w: int| 0 <= w < inner.len() && inner[w] == x;
                    assert(open[w] == x);
                }
            }
        }
        if ranked_lists(graph@, rank) {
            assert forall|q: int, j: int|
                0 <= q < now.len() && now[q] < graph@.len() && 0 <= j
                    < graph@[now[q] as int]@.len() && (#[trigger] graph@[now[q] as int]@[j])
                    != now[q] && graph@[now[q] as int]@[j] < graph@.len() implies placed_before(
                now,
                graph@[now[q] as int]@[j] as int,
                q,
            ) by {
                let d = graph@[now[q] as int]@[j];
                if q < before_push.len() {
                    assert(now[q] == before_push[q]);
                    assert(placed_before(before_push, d as int, q));
                    let p = choose|p: int|
                        0 <= p < q && p < before_push.len() && #[trigger] before_push[p] == d;
                    assert(now[p] == d);
                } else {
                    assert(placed(before_push, d as int));
                    let p = choose|p: int| 0 <= p < before_push.len() && #[trigger] before_push[p] == d;
                    assert(now[p] == d);
                }
            }
        }
        assert(inner.len() == open.len() + 1);
    }
}

/// A node that is still being worked on is not placed.
proof fn lemma_open_not_placed(
    graph: Seq<Vec<usize>>,
    marks: Seq<bool>,
    order: Seq<usize>,
    open: Seq<int>,
    rank: spec_fn(int) -> int,
    w: int,
)
    requires
        walking(graph, marks, order, open, rank),
        0 <= w < order.len(),
    ensures
        !open.contains(order[w] as int),
{
    // The count in `walking` leaves no room for a node that is both placed
    // and open: the nodes placed are distinct marked nodes, the open ones
    // are marked too, and together with the unmarked ones they number as
    // many as the graph has nodes.
    lemma_counts(graph.len() as nat, marks, order, open);
}

/// Distinct placed nodes and open nodes that cover the marked ones cannot
/// number as many as the marked nodes and overlap.
proof fn lemma_counts(n: nat, marks: Seq<bool>, order: Seq<usize>, open: Seq<int>)
    requires
        marks.len() == n,
        forall|p: int| 0 <= p < order.len() ==> (#[trigger] order[p]) < n && marks[order[p] as int],
        forall|p: int, q: int| 0 <= p < q < order.len() ==> #[trigger] order[p] != #[trigger] order[q],
        forall|x: int| 0 <= x < n && #[trigger] marks[x] ==> placed(order, x) || open.contains(x),
        order.len() + open.len() + unmarked(marks) == n,
    ensures
        forall|w: int| 0 <= w < order.len() ==> !open.contains(#[trigger] order[w] as int),
{
    let placed = Set::new(|x: int| exists|p: int| 0 <= p < order.len() && #[trigger] order[p] == x);
    let opened = open.to_set();
    let marked = Set::new(|x: int| 0 <= x < n && marks[x]);
    lemma_marked_count(marks);
    lemma_placed_count(order);
    open.lemma_cardinality_of_set();
    assert(marked.subset_of(placed.union(opened))) by {
        assert forall|x: int| marked.contains(x) implies placed.union(opened).contains(x) by {
            assert(marks[x]);
        }
    }
    vstd::set_lib::lemma_len_subset(marked, placed.union(opened));
    vstd::set_lib::lemma_set_union_finite_iff(placed, opened);
    vstd::set_lib::lemma_len_union(placed, opened);
    assert forall|w: int| 0 <= w < order.len() implies !open.contains(#[trigger] order[w] as int) by {
        if open.contains(order[w] as int) {
            let x = order[w] as int;
            assert(placed.contains(x));
            assert(opened.contains(x));
            assert(placed.intersect(opened).contains(x));
            vstd::set_lib::lemma_len_intersect(placed, opened);
            assert(placed.intersect(opened).len() > 0) by {
                if placed.intersect(opened).len() == 0 {
                    assert(placed.intersect(opened) =~= Set::empty());
                }
            }
            vstd::set_lib::lemma_set_intersect_union_lens(placed, opened);
        }
    }
}

/// The marked nodes number as many as there are nodes besides the unmarked.
proof fn lemma_marked_count(marks: Seq<bool>)
    ensures
        Set::new(|x: int| 0 <= x < marks.len() && marks[x]).finite(),
        Set::new(|x: int| 0 <= x < marks.len() && marks[x]).len() + unmarked(marks) == marks.len(),
    decreases marks.len(),
{
    let all = Set::new(|x: int| 0 <= x < marks.len() && marks[x]);
    if marks.len() == 0 {
        assert(all =~= Set::empty());
    } else {
        let front = marks.drop_last();
        let fewer = Set::new(|x: int| 0 <= x < front.len() && front[x]);
        lemma_marked_count(front);
        if marks.last() {
            assert(all =~= fewer.insert(marks.len() - 1));
        } else {
            assert(all =~= fewer);
        }
    }
}

/// Distinct placed nodes number as many as the places they take.
proof fn lemma_placed_count(order: Seq<usize>)
    requires
        forall|p: int, q: int| 0 <= p < q < order.len() ==> #[trigger] order[p] != #[trigger] order[q],
    ensures
        Set::new(|x: int| exists|p: int| 0 <= p < order.len() && #[trigger] order[p] == x).finite(),
        Set::new(|x: int| exists|p: int| 0 <= p < order.len() && #[trigger] order[p] == x).len()
            == order.len(),
    decreases order.len(),
{
    let all = Set::new(|x: int| exists|p: int| 0 <= p < order.len() && #[trigger] order[p] == x);
    if order.len() == 0 {
        assert(all =~= Set::empty());
    } else {
        let front = order.drop_last();
        let fewer = Set::new(|x: int| exists|p: int| 0 <= p < front.len() && #[trigger] front[p] == x);
        assert forall|p: int, q: int| 0 <= p < q < front.len() implies #[trigger] front[p]
            != #[trigger] front[q] by {
            assert(front[p] == order[p]);
            assert(front[q] == order[q]);
        }
        lemma_placed_count(front);
        let last = order.last() as int;
        assert(!fewer.contains(last)) by {
            if fewer.contains(last) {
                let p = choose|p: int| 0 <= p < front.len() && #[trigger] front[p] == last;
                assert(order[p] == order[order.len() - 1]);
            }
        }
        assert(all =~= fewer.insert(last)) by {
            assert forall|x: int| all.contains(x) implies fewer.insert(last).contains(x) by {
                let p = choose|p: int| 0 <= p < order.len() && #[trigger] order[p] == x;
                if p < front.len() {
                    assert(front[p] == x);
                }
            }
            assert forall|x: int| fewer.insert(last).contains(x) implies all.contains(x) by {
                if x == last {
                    assert(order[order.len() - 1] == x);
                } else {
                    let p = choose|p: int| 0 <= p < front.len() && #[trigger] front[p] == x;
                    assert(order[p] == x);
                }
            }
        }
    }
}

/// Puts the nodes of a graph in an order in which each stands after the
/// nodes it depends on. `graph[i]` lists what node `i` depends on; a number
/// that is no node, and a node's mention of itself, are passed over.
///
/// The nodes are taken up in their own order, each preceded by what it
/// depends on, in the order in which it lists that. Every node is placed
/// once. Where nodes depend on each other in a circle no order can have each
/// after the other; the nodes are then still all placed.
pub fn dependency_order(graph: &Vec<Vec<usize>>) -> (order: Vec<usize>)
    ensures
        order@ == dependency_walk(rows(graph@)),
        permutation(order@, graph@.len()),
        acyclic(rows(graph@)) ==> topological(rows(graph@), order@),
{
    let n = graph.len();
    let ghost rank = choose|rank: spec_fn(int) -> int| ranked(rows(graph@), rank);
    proof {
        lemma_rows(graph@, rank, Seq::empty());
    }
    let mut marks: Vec<bool> = Vec::new();
    let mut i: usize = 0;
    while i < n
        invariant
            i <= n,
            marks@.len() == i,
            forall|x: int| 0 <= x < i ==> !marks@[x],
        decreases n - i,
    {
        marks.push(false);
        i += 1;
    }
    proof {
        lemma_none_marked(marks@);
    }
    let mut order: Vec<usize> = Vec::new();
    let mut i: usize = 0;
    assert(marks@ =~= Seq::new(n as nat, |x: int| false));
    while i < n
        invariant
            n == graph@.len(),
            i <= n,
            walking(graph@, marks@, order@, Seq::<int>::empty(), rank),
            forall|x: int| 0 <= x < i ==> marks@[x],
            walk_from(rows(graph@), i as nat, marks@, order@) == dependency_walk(rows(graph@)),
        decreases n - i,
    {
        if !marks[i] {
            visit(graph, i, &mut marks, &mut order, Ghost(Seq::<int>::empty()), Ghost(rank));
        }
        i += 1;
    }
    proof {
        lemma_all_marked(marks@);
        lemma_rows(graph@, rank, order@);
    }
    order
}

/// The properties of a graph held as lists are those of its rows.
proof fn lemma_rows(graph: Seq<Vec<usize>>, rank: spec_fn(int) -> int, order: Seq<usize>)
    ensures
        ranked(rows(graph), rank) == ranked_lists(graph, rank),
        topological(rows(graph), order) == topological_lists(graph, order),
{
    let g = rows(graph);
    if ranked(g, rank) {
        assert forall|i: int, k: int|
            0 <= i < graph.len() && 0 <= k < graph[i]@.len() && (#[trigger] graph[i]@[k])
                != i implies rank(graph[i]@[k] as int) < rank(i) by {
            assert(g[i][k] == graph[i]@[k]);
        }
    }
    if ranked_lists(graph, rank) {
        assert forall|i: int, k: int|
            0 <= i < g.len() && 0 <= k < g[i].len() && (#[trigger] g[i][k]) != i implies rank(
            g[i][k] as int,
        ) < rank(i) by {
            assert(g[i][k] == graph[i]@[k]);
        }
    }
    if topological(g, order) {
        assert forall|q: int, k: int|
            0 <= q < order.len() && order[q] < graph.len() && 0 <= k
                < graph[order[q] as int]@.len() && (#[trigger] graph[order[q] as int]@[k])
                != order[q] && graph[order[q] as int]@[k] < graph.len() implies placed_before(
            order,
            graph[order[q] as int]@[k] as int,
            q,
        ) by {
            assert(g[order[q] as int][k] == graph[order[q] as int]@[k]);
        }
    }
    if topological_lists(graph, order) {
        assert forall|q: int, k: int|
            0 <= q < order.len() && order[q] < g.len() && 0 <= k < g[order[q] as int].len() && (
            #[trigger] g[order[q] as int][k]) != order[q] && g[order[q] as int][k]
                < g.len() implies placed_before(order, g[order[q] as int][k] as int, q) by {
            assert(g[order[q] as int][k] == graph[order[q] as int]@[k]);
        }
    }
}

/// Whether member `i` of the workspace depends on member `j`: a node of the
/// resolved graph that bears the id of `i` lists the id of `j`.
pub open spec fn member_edge(ws: Workspace, i: int, j: int) -> bool {
    exists|k: int, m: int|
        0 <= k < ws.resolve@.len() && 0 <= m < ws.resolve@[k].dependencies@.len()
            && ws.resolve@[k].id@ == ws.workspace_members@[i]@
            && (#[trigger] ws.resolve@[k].dependencies@[m])@ == ws.workspace_members@[j]@
}

/// Whether `rank` puts every member above the members it depends on.
pub open spec fn members_ranked(ws: Workspace, rank: spec_fn(int) -> int) -> bool {
    forall|i: int, j: int|
        0 <= i < ws.workspace_members@.len() && 0 <= j < ws.workspace_members@.len() && i != j
            && #[trigger] member_edge(ws, i, j) ==> rank(j) < rank(i)
}

/// Whether no member depends on itself by way of others.
pub open spec fn members_acyclic(ws: Workspace) -> bool {
    exists|rank: spec_fn(int) -> int| members_ranked(ws, rank)
}

/// Whether `order`, a list of places among the members, has every member
/// after the members it depends on.
pub open spec fn in_dependency_order(ws: Workspace, order: Seq<usize>) -> bool {
    forall|q: int, j: int|
        0 <= q < order.len() && order[q] < ws.workspace_members@.len() && 0 <= j
            < ws.workspace_members@.len() && j != order[q] && #[trigger] member_edge(
            ws,
            order[q] as int,
            j,
        ) ==> placed_before(order, j, q)
}

/// The places of the members that bear `id`, in their order.
pub open spec fn places_of(members: Seq<String>, id: Seq<char>) -> Seq<usize>
    decreases members.len(),
{
    if members.len() == 0 {
        Seq::empty()
    } else if members.last()@ == id {
        places_of(members.drop_last(), id).push((members.len() - 1) as usize)
    } else {
        places_of(members.drop_last(), id)
    }
}

/// The places of the members that bear one of the ids in `dependencies`,
/// id by id.
pub open spec fn dependency_places(members: Seq<String>, dependencies: Seq<String>) -> Seq<usize>
    decreases dependencies.len(),
{
    if dependencies.len() == 0 {
        Seq::empty()
    } else {
        dependency_places(members, dependencies.drop_last()) + places_of(
            members,
            dependencies.last()@,
        )
    }
}

/// What member `i` depends on according to `nodes`, as places among the
/// members: for each node that bears the member's id, in turn, what the
/// node lists.
pub open spec fn row_of(ws: Workspace, i: int, nodes: Seq<crate::steps::workspace::ResolveNode>) -> Seq<
    usize,
>
    decreases nodes.len(),
{
    if nodes.len() == 0 {
        Seq::empty()
    } else if nodes.last().id@ == ws.workspace_members@[i]@ {
        row_of(ws, i, nodes.drop_last()) + dependency_places(
            ws.workspace_members@,
            nodes.last().dependencies@,
        )
    } else {
        row_of(ws, i, nodes.drop_last())
    }
}

/// The graph of the members: for each member what it depends on.
pub open spec fn member_rows(ws: Workspace) -> Seq<Seq<usize>> {
    Seq::new(ws.workspace_members@.len(), |i: int| row_of(ws, i, ws.resolve@))
}

/// The order in which the members of the workspace are worked on, as places
/// among the members.
pub open spec fn sorted_members(ws: Workspace) -> Seq<usize> {
    dependency_walk(member_rows(ws))
}

/// Appends to `row` the place of every member that bears `id`.
fn add_places(members: &Vec<String>, id: &str, row: &mut Vec<usize>)
    ensures
        old(row)@.len() <= final(row)@.len(),
        forall|x: int| 0 <= x < old(row)@.len() ==> final(row)@[x] == old(row)@[x],
        forall|x: int|
            old(row)@.len() <= x < final(row)@.len() ==> (#[trigger] final(row)@[x]) < members@.len()
                && members@[final(row)@[x] as int]@ == id@,
        forall|j: int| 0 <= j < members@.len() && members@[j]@ == id@ ==> placed(final(row)@, j),
        final(row)@ == old(row)@ + places_of(members@, id@),
{
    let mut j: usize = 0;
    assert(row@ =~= old(row)@ + places_of(members@.take(0), id@));
    while j < members.len()
        invariant
            j <= members@.len(),
            row@ == old(row)@ + places_of(members@.take(j as int), id@),
            old(row)@.len() <= row@.len(),
            forall|x: int| 0 <= x < old(row)@.len() ==> row@[x] == old(row)@[x],
            forall|x: int|
                old(row)@.len() <= x < row@.len() ==> (#[trigger] row@[x]) < members@.len()
                    && members@[row@[x] as int]@ == id@,
            forall|y: int| 0 <= y < j && members@[y]@ == id@ ==> placed(row@, y),
        decreases members@.len() - j,
    {
        proof {
            assert(members@.take(j + 1).drop_last() =~= members@.take(j as int));
            assert(members@.take(j + 1).last() == members@[j as int]);
        }
        if same_text(members[j].as_str(), id) {
            let ghost before = row@;
            row.push(j);
            proof {
                assert(row@ =~= old(row)@ + places_of(members@.take(j + 1), id@));
                assert(row@[before.len() as int] == j);
                assert forall|y: int| 0 <= y < j + 1 && members@[y]@ == id@ implies placed(row@, y) by {
                    if y < j {
                        assert(placed(before, y));
                        let x = choose|x: int| 0 <= x < before.len() && #[trigger] before[x] == y;
                        assert(row@[x] == y);
                    }
                }
            }
        }
        j += 1;
    }
    assert(members@.take(j as int) =~= members@);
}

/// The members that member `i` depends on, as places among the members.
fn member_row(ws: &Workspace, i: usize) -> (row: Vec<usize>)
    requires
        i < ws.workspace_members@.len(),
    ensures
        forall|x: int|
            0 <= x < row@.len() ==> (#[trigger] row@[x]) < ws.workspace_members@.len() && member_edge(
                *ws,
                i as int,
                row@[x] as int,
            ),
        forall|j: int|
            0 <= j < ws.workspace_members@.len() && member_edge(*ws, i as int, j) ==> placed(row@, j),
        row@ == row_of(*ws, i as int, ws.resolve@),
{
    let mut row: Vec<usize> = Vec::new();
    let mut k: usize = 0;
    assert(row@ =~= row_of(*ws, i as int, ws.resolve@.take(0)));
    while k < ws.resolve.len()
        invariant
            i < ws.workspace_members@.len(),
            k <= ws.resolve@.len(),
            row@ == row_of(*ws, i as int, ws.resolve@.take(k as int)),
            forall|x: int|
                0 <= x < row@.len() ==> (#[trigger] row@[x]) < ws.workspace_members@.len()
                    && member_edge(*ws, i as int, row@[x] as int),
            forall|a: int, m: int, j: int|
                0 <= a < k && 0 <= m < ws.resolve@[a].dependencies@.len() && 0 <= j
                    < ws.workspace_members@.len() && ws.resolve@[a].id@ == ws.workspace_members@[i as int]@
                    && (#[trigger] ws.resolve@[a].dependencies@[m])@
                    == #[trigger] ws.workspace_members@[j]@ ==> placed(row@, j),
        decreases ws.resolve@.len() - k,
    {
        let node = &ws.resolve[k];
        let ghost row_before = row@;
        proof {
            assert(ws.resolve@.take(k + 1).drop_last() =~= ws.resolve@.take(k as int));
            assert(ws.resolve@.take(k + 1).last() == *node);
        }
        if same_text(node.id.as_str(), ws.workspace_members[i].as_str()) {
            let mut m: usize = 0;
            assert(row@ =~= row_before + dependency_places(
                ws.workspace_members@,
                node.dependencies@.take(0),
            ));
            while m < node.dependencies.len()
                invariant
                    i < ws.workspace_members@.len(),
                    k < ws.resolve@.len(),
                    row@ == row_before + dependency_places(
                        ws.workspace_members@,
                        node.dependencies@.take(m as int),
                    ),
                    *node == ws.resolve@[k as int],
                    node.id@ == ws.workspace_members@[i as int]@,
                    m <= node.dependencies@.len(),
                    forall|x: int|
                        0 <= x < row@.len() ==> (#[trigger] row@[x]) < ws.workspace_members@.len()
                            && member_edge(*ws, i as int, row@[x] as int),
                    forall|a: int, b: int, j: int|
                        0 <= a < k && 0 <= b < ws.resolve@[a].dependencies@.len() && 0 <= j
                            < ws.workspace_members@.len() && ws.resolve@[a].id@
                            == ws.workspace_members@[i as int]@
                            && (#[trigger] ws.resolve@[a].dependencies@[b])@
                            == #[trigger] ws.workspace_members@[j]@ ==> placed(row@, j),
                    forall|b: int, j: int|
                        0 <= b < m && 0 <= j < ws.workspace_members@.len()
                            && (#[trigger] node.dependencies@[b])@
                            == #[trigger] ws.workspace_members@[j]@ ==> placed(row@, j),
                decreases node.dependencies@.len() - m,
            {
                let ghost before = row@;
                add_places(&ws.workspace_members, node.dependencies[m].as_str(), &mut row);
                proof {
                    assert(node.dependencies@.take(m + 1).drop_last() =~= node.dependencies@.take(
                        m as int,
                    ));
                    assert(node.dependencies@.take(m + 1).last() == node.dependencies@[m as int]);
                    assert(row@ =~= row_before + dependency_places(
                        ws.workspace_members@,
                        node.dependencies@.take(m + 1),
                    ));
                    assert forall|x: int| 0 <= x < row@.len() implies (#[trigger] row@[x])
                        < ws.workspace_members@.len() && member_edge(*ws, i as int, row@[x] as int) by {
                        if x < before.len() {
                            assert(row@[x] == before[x]);
                        } else {
                            assert(ws.resolve@[k as int].dependencies@[m as int]@
                                == ws.workspace_members@[row@[x] as int]@);
                        }
                    }
                    assert forall|j: int| placed(before, j) implies placed(row@, j) by {
                        let x = choose|x: int| 0 <= x < before.len() && #[trigger] before[x] == j;
                        assert(row@[x] == j);
                    }
                    assert forall|b: int, j: int|
                        0 <= b < m + 1 && 0 <= j < ws.workspace_members@.len()
                            && (#[trigger] node.dependencies@[b])@
                            == #[trigger] ws.workspace_members@[j]@ implies placed(row@, j) by {
                        if b < m {
                            assert(placed(before, j));
                        }
                    }
                    assert forall|a: int, b: int, j: int|
                        0 <= a < k && 0 <= b < ws.resolve@[a].dependencies@.len() && 0 <= j
                            < ws.workspace_members@.len() && ws.resolve@[a].id@
                            == ws.workspace_members@[i as int]@
                            && (#[trigger] ws.resolve@[a].dependencies@[b])@
                            == #[trigger] ws.workspace_members@[j]@ implies placed(row@, j) by {
                        assert(placed(before, j));
                    }
                }
                m += 1;
            }
            assert(node.dependencies@.take(m as int) =~= node.dependencies@);
        }
        k += 1;
    }
    assert(ws.resolve@.take(k as int) =~= ws.resolve@);
    proof {
        assert forall|j: int|
            0 <= j < ws.workspace_members@.len() && member_edge(*ws, i as int, j) implies placed(
            row@,
            j,
        ) by {
            let (a, b) = choose|a: int, b: int|
                0 <= a < ws.resolve@.len() && 0 <= b < ws.resolve@[a].dependencies@.len()
                    && ws.resolve@[a].id@ == ws.workspace_members@[i as int]@
                    && (#[trigger] ws.resolve@[a].dependencies@[b])@ == ws.workspace_members@[j]@;
            assert(ws.resolve@[a].dependencies@[b]@ == ws.workspace_members@[j]@);
        }
    }
    row
}

/// Puts the members of the workspace in the order in which they are worked
/// on, as places among the members: every member once, and each after the
/// members it depends on, unless members depend on each other in a circle.
pub fn sort_workspace(ws_meta: &Workspace) -> (order: Vec<usize>)
    ensures
        order@ == sorted_members(*ws_meta),
        permutation(order@, ws_meta.workspace_members@.len()),
        members_acyclic(*ws_meta) ==> in_dependency_order(*ws_meta, order@),
{
    let n = ws_meta.workspace_members.len();
    let mut graph: Vec<Vec<usize>> = Vec::new();
    let mut i: usize = 0;
    while i < n
        invariant
            n == ws_meta.workspace_members@.len(),
            i <= n,
            graph@.len() == i,
            forall|a: int| 0 <= a < i ==> (#[trigger] graph@[a])@ == row_of(*ws_meta, a, ws_meta.resolve@),
            forall|a: int, x: int|
                0 <= a < i && 0 <= x < graph@[a]@.len() ==> (#[trigger] graph@[a]@[x]) < n
                    && member_edge(*ws_meta, a, graph@[a]@[x] as int),
            forall|a: int, j: int|
                0 <= a < i && 0 <= j < n && #[trigger] member_edge(*ws_meta, a, j) ==> placed(
                    graph@[a]@,
                    j,
                ),
        decreases n - i,
    {
        let row = member_row(ws_meta, i);
        graph.push(row);
        i += 1;
    }
    proof {
        if members_acyclic(*ws_meta) {
            let rank = choose|rank: spec_fn(int) -> int| members_ranked(*ws_meta, rank);
            assert(ranked_lists(graph@, rank)) by {
                assert forall|a: int, x: int|
                    0 <= a < graph@.len() && 0 <= x < graph@[a]@.len() && (#[trigger] graph@[a]@[x])
                        != a implies rank(graph@[a]@[x] as int) < rank(a) by {
                    assert(member_edge(*ws_meta, a, graph@[a]@[x] as int));
                }
            }
            lemma_rows(graph@, rank, Seq::empty());
        }
    }
    assert(rows(graph@) =~= member_rows(*ws_meta));
    let order = dependency_order(&graph);
    proof {
        if members_acyclic(*ws_meta) {
            lemma_rows(graph@, |x: int| x, order@);
            assert forall|q: int, j: int|
                0 <= q < order@.len() && order@[q] < n && 0 <= j < n && j != order@[q]
                    && #[trigger] member_edge(*ws_meta, order@[q] as int, j) implies placed_before(
                order@,
                j,
                q,
            ) by {
                let a = order@[q] as int;
                assert(placed(graph@[a]@, j));
                let x = choose|x: int| 0 <= x < graph@[a]@.len() && #[trigger] graph@[a]@[x] == j;
                assert(graph@[order@[q] as int]@[x] == j);
            }
        }
    }
    order
}

} // verus!
