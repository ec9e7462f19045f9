use vstd::prelude::*;

verus! {

/// The graph a search runs on, supplied by the caller.
///
/// The three executable methods are what the search calls. The specification
/// functions describe them, and the proof obligations state what makes the
/// search terminate, stay within machine integers and return a cheapest path:
/// the graph is finite, costs are bounded, and the heuristic is consistent.
pub trait PathGenerator {
    /// The positions that can be entered from `from` in one step, in the order
    /// in which they are tried.
    spec fn paths_from(&self, from: (usize, usize)) -> Seq<(usize, usize)>;

    /// The estimate of the cost that remains from `position` to the target.
    spec fn heuristic(&self, position: (usize, usize), target: (Option<usize>, Option<usize>)) -> nat;

    /// The cost of the step from `from` to `to`.
    spec fn step_cost(&self, from: (usize, usize), to: (usize, usize)) -> nat;

    /// Whether `position` is one of the graph's numbered nodes.
    spec fn contains(&self, position: (usize, usize)) -> bool;

    /// The number that tells the graph's nodes apart.
    spec fn node_index(&self, position: (usize, usize)) -> nat;

    /// An upper bound on the node numbers.
    spec fn node_limit(&self) -> nat;

    /// An upper bound on every step cost and every heuristic value.
    spec fn cost_limit(&self) -> nat;

    /// Every step leads to a numbered node, at a bounded cost.
    proof fn lemma_step(&self, from: (usize, usize), i: int)
        requires
            0 <= i < self.paths_from(from).len(),
        ensures
            self.contains(self.paths_from(from)[i]),
            self.step_cost(from, self.paths_from(from)[i]) <= self.cost_limit(),
    ;

    /// Node numbers are below the limit and tell nodes apart.
    proof fn lemma_numbering(&self, a: (usize, usize), b: (usize, usize))
        requires
            self.contains(a),
            self.contains(b),
        ensures
            self.node_index(a) < self.node_limit(),
            self.node_index(a) == self.node_index(b) ==> a == b,
    ;

    /// Heuristic values are bounded and zero where the target is reached, and
    /// sums of costs fit a machine integer.
    proof fn lemma_limits(&self, position: (usize, usize), target: (Option<usize>, Option<usize>))
        ensures
            self.heuristic(position, target) <= self.cost_limit(),
            (self.node_limit() + 2) * self.cost_limit() <= usize::MAX,
            target_reached(target, position) ==> self.heuristic(position, target) == 0,
    ;

    /// The heuristic is consistent: it never drops by more than a step costs.
    proof fn lemma_consistent(&self, from: (usize, usize), i: int, target: (Option<usize>, Option<usize>))
        requires
            0 <= i < self.paths_from(from).len(),
        ensures
            self.heuristic(from, target) <= self.step_cost(from, self.paths_from(from)[i])
                + self.heuristic(self.paths_from(from)[i], target),
    ;

    /// The positions reachable from `from_position` in one step.
    fn generate_paths(&self, from_position: (usize, usize)) -> (r: Vec<(usize, usize)>)
        ensures
            r@ == self.paths_from(from_position),
    ;

    /// The estimated remaining cost from `position` to `target`.
    fn calculate_heuristic_cost(
        &self,
        position: (usize, usize),
        target: (Option<usize>, Option<usize>),
    ) -> (r: usize)
        ensures
            r == self.heuristic(position, target),
    ;

    /// The cost of stepping from `current_position` to `next_position`.
    fn calculate_cost(&self, current_position: (usize, usize), next_position: (usize, usize)) -> (r: usize)
        ensures
            r == self.step_cost(current_position, next_position),
    ;
}

/// Whether `position` meets `target`: the row where one is given, and the
/// column where one is given.
pub open spec fn target_reached(target: (Option<usize>, Option<usize>), position: (usize, usize)) -> bool {
    &&& (target.0 is Some ==> target.0->0 == position.0)
    &&& (target.1 is Some ==> target.1->0 == position.1)
}

/// Whether `path` is a path of the graph, written from its start to its end:
/// each position but the last is followed by one that can be entered from it
/// in one step.
pub open spec fn is_path<T: PathGenerator>(graph: &T, path: Seq<(usize, usize)>) -> bool {
    &&& path.len() >= 1
    &&& forall|i: int| 0 <= i < path.len() - 1 ==> #[trigger] path_step(graph, path, i)
}

/// Whether the position after the `i`-th of `path` can be entered from the
/// `i`-th in one step.
pub open spec fn path_step<T: PathGenerator>(graph: &T, path: Seq<(usize, usize)>, i: int) -> bool {
    graph.paths_from(path[i]).contains(path[i + 1])
}

/// The total cost of the steps of a path.
pub open spec fn path_cost<T: PathGenerator>(graph: &T, path: Seq<(usize, usize)>) -> nat
    decreases path.len(),
{
    if path.len() <= 1 {
        0
    } else {
        path_cost(graph, path.drop_last()) + graph.step_cost(path[path.len() - 2], path[path.len() - 1])
    }
}

/// Whether `path` leads from `start` to a position that meets `target`.
pub open spec fn connects<T: PathGenerator>(
    graph: &T,
    path: Seq<(usize, usize)>,
    start: (usize, usize),
    target: (Option<usize>, Option<usize>),
) -> bool {
    &&& is_path(graph, path)
    &&& path[0] == start
    &&& target_reached(target, path.last())
}

/// Whether `path` leads from `start` to `target` and no path that does so is
/// cheaper.
pub open spec fn is_cheapest<T: PathGenerator>(
    graph: &T,
    path: Seq<(usize, usize)>,
    start: (usize, usize),
    target: (Option<usize>, Option<usize>),
) -> bool {
    &&& connects(graph, path, start, target)
    &&& forall|other: Seq<(usize, usize)>|
        connects(graph, other, start, target) ==> path_cost(graph, path) <= #[trigger] path_cost(graph, other)
}

/// A trail is a path written from its end back to its start, as the search
/// reads it off its nodes: each position can be entered in one step from the
/// position that follows it.
spec fn is_trail<T: PathGenerator>(graph: &T, trail: Seq<(usize, usize)>) -> bool {
    &&& trail.len() >= 1
    &&& forall|i: int| 0 <= i < trail.len() - 1 ==> #[trigger] trail_step(graph, trail, i)
}

/// Whether the `i`-th position of `trail` can be entered in one step from the
/// position that follows it.
spec fn trail_step<T: PathGenerator>(graph: &T, trail: Seq<(usize, usize)>, i: int) -> bool {
    graph.paths_from(trail[i + 1]).contains(trail[i])
}

/// The total cost of the steps of a trail.
spec fn trail_cost<T: PathGenerator>(graph: &T, trail: Seq<(usize, usize)>) -> nat
    decreases trail.len(),
{
    if trail.len() <= 1 {
        0
    } else {
        graph.step_cost(trail[1], trail[0]) + trail_cost(graph, trail.skip(1))
    }
}

/// A path read backwards is a trail, with the same steps and the same cost,
/// and the other way round.
proof fn lemma_reversed<T: PathGenerator>(graph: &T, path: Seq<(usize, usize)>)
    requires
        path.len() >= 1,
    ensures
        is_path(graph, path) == is_trail(graph, path.reverse()),
        path_cost(graph, path) == trail_cost(graph, path.reverse()),
        path.reverse().len() == path.len(),
        path.reverse()[0] == path.last(),
        path.reverse().last() == path[0],
        path.reverse().reverse() == path,
    decreases path.len(),
{
    let back = path.reverse();
    let n = path.len() as int;
    assert(back.reverse() =~= path);
    if is_path(graph, path) {
        assert forall|i: int| 0 <= i < back.len() - 1 implies #[trigger] trail_step(graph, back, i) by {
            assert(path_step(graph, path, n - 2 - i));
        }
    }
    if is_trail(graph, back) {
        assert forall|i: int| 0 <= i < path.len() - 1 implies #[trigger] path_step(graph, path, i) by {
            assert(trail_step(graph, back, n - 2 - i));
        }
    }
    if n >= 2 {
        lemma_reversed(graph, path.drop_last());
        assert(back.skip(1) =~= path.drop_last().reverse());
    }
}

/// A position the search has met, with the position it was entered from, the
/// cost of the way there and that cost plus the heuristic.
#[derive(Clone, Copy)]
pub struct Node {
    pub position: (usize, usize),
    pub comes_from: Option<(usize, usize)>,
    pub cost: usize,
    pub heuristic_cost: usize,
}

impl Node {
    /// The node a search starts from.
    pub fn new(position: (usize, usize), heuristic_cost: usize) -> (node: Node)
        ensures
            node == (Node { position, comes_from: None, cost: 0, heuristic_cost }),
    {
        Node { position, comes_from: None, cost: 0, heuristic_cost }
    }
}

/// An A* search: a frontier of nodes still to expand, ordered by cost so far
/// plus heuristic with ties going to the node that entered first, and the
/// nodes already expanded.
pub struct AStar {
    target: (Option<usize>, Option<usize>),
    que: Vec<Node>,
    closed: Vec<Node>,
}


// ---------------------------------------------------------------------------
// What holds of a search in progress
// ---------------------------------------------------------------------------

/// Whether some expanded node stands on `position`.
spec fn closed_has(closed: Seq<Node>, position: (usize, usize)) -> bool {
    exists|j: int| 0 <= j < closed.len() && (#[trigger] closed[j]).position == position
}

/// Whether the frontier holds a node on `position` that costs at most `bound`.
spec fn queued_within(que: Seq<Node>, position: (usize, usize), bound: int) -> bool {
    exists|k: int| 0 <= k < que.len() && (#[trigger] que[k]).position == position && que[k].cost <= bound
}

/// The node the search starts from.
spec fn is_root(start: (usize, usize), node: Node) -> bool {
    node.position == start && node.comes_from is None && node.cost == 0
}

/// Whether `child` was made by expanding `parent`.
spec fn is_child<T: PathGenerator>(graph: &T, parent: Node, child: Node) -> bool {
    &&& child.comes_from == Some(parent.position)
    &&& graph.paths_from(parent.position).contains(child.position)
    &&& child.cost == parent.cost + graph.step_cost(parent.position, child.position)
}

/// Whether the node's priority is its cost plus the heuristic.
spec fn scored<T: PathGenerator>(graph: &T, target: (Option<usize>, Option<usize>), node: Node) -> bool {
    node.heuristic_cost == node.cost + graph.heuristic(node.position, target)
}

/// What holds of the `i`-th expanded node: it misses the target, and it is
/// the start node if it is the first and was made from an earlier one if not.
spec fn closed_ok<T: PathGenerator>(
    graph: &T,
    start: (usize, usize),
    target: (Option<usize>, Option<usize>),
    closed: Seq<Node>,
    links: Seq<int>,
    i: int,
) -> bool {
    let node = closed[i];
    &&& scored(graph, target, node)
    &&& !target_reached(target, node.position)
    &&& node.cost <= i * graph.cost_limit()
    &&& if i == 0 {
        is_root(start, node)
    } else {
        &&& graph.contains(node.position)
        &&& 0 <= links[i] < i
        &&& is_child(graph, closed[links[i]], node)
    }
}

/// The expanded nodes form a tree rooted at the start, and no two of them
/// share a position.
spec fn closed_wf<T: PathGenerator>(
    graph: &T,
    start: (usize, usize),
    target: (Option<usize>, Option<usize>),
    closed: Seq<Node>,
    links: Seq<int>,
) -> bool {
    &&& links.len() == closed.len()
    &&& forall|i: int| 0 <= i < closed.len() ==> #[trigger] closed_ok(graph, start, target, closed, links, i)
    &&& forall|i: int, j: int|
        0 <= i < j < closed.len() ==> (#[trigger] closed[i]).position != (#[trigger] closed[j]).position
}

/// What holds of the `k`-th node of the frontier: before anything is expanded
/// it is the start node, after that it was made from an expanded one.
spec fn queued_ok<T: PathGenerator>(
    graph: &T,
    start: (usize, usize),
    target: (Option<usize>, Option<usize>),
    que: Seq<Node>,
    qlinks: Seq<int>,
    closed: Seq<Node>,
    k: int,
) -> bool {
    let node = que[k];
    &&& scored(graph, target, node)
    &&& if closed.len() == 0 {
        is_root(start, node)
    } else {
        &&& graph.contains(node.position)
        &&& 0 <= qlinks[k] < closed.len()
        &&& is_child(graph, closed[qlinks[k]], node)
        &&& node.cost <= closed.len() * graph.cost_limit()
    }
}

/// Before anything is expanded the frontier is the start node alone; after
/// that each of its nodes was made from an expanded one.
spec fn queue_wf<T: PathGenerator>(
    graph: &T,
    start: (usize, usize),
    target: (Option<usize>, Option<usize>),
    que: Seq<Node>,
    qlinks: Seq<int>,
    closed: Seq<Node>,
) -> bool {
    &&& qlinks.len() == que.len()
    &&& closed.len() == 0 ==> que.len() == 1
    &&& forall|k: int|
        0 <= k < que.len() ==> #[trigger] queued_ok(graph, start, target, que, qlinks, closed, k)
}

/// The `m`-th position that can be entered from the `i`-th expanded node.
spec fn neighbor<T: PathGenerator>(graph: &T, closed: Seq<Node>, i: int, m: int) -> (usize, usize) {
    graph.paths_from(closed[i].position)[m]
}

/// Whether the step from `parent` to `position` has been accounted for: the
/// position is expanded, or waits in the frontier at no more than the cost of
/// going through `parent`.
spec fn covered<T: PathGenerator>(
    graph: &T,
    que: Seq<Node>,
    closed: Seq<Node>,
    parent: Node,
    position: (usize, usize),
) -> bool {
    closed_has(closed, position) || queued_within(
        que,
        position,
        parent.cost + graph.step_cost(parent.position, position),
    )
}

/// The first `full` expanded nodes have all their steps accounted for, and
/// the node after them its first `done` steps.
spec fn frontier<T: PathGenerator>(graph: &T, que: Seq<Node>, closed: Seq<Node>, full: int, done: int) -> bool {
    forall|i: int, m: int|
        0 <= i < closed.len() && 0 <= m < graph.paths_from(closed[i].position).len() && (i < full || (i
            == full && m < done)) ==> covered(
            graph,
            que,
            closed,
            closed[i],
            #[trigger] neighbor(graph, closed, i, m),
        )
}

/// No trail from the start to an expanded node is cheaper than the node.
spec fn settled<T: PathGenerator>(graph: &T, start: (usize, usize), closed: Seq<Node>) -> bool {
    forall|i: int, trail: Seq<(usize, usize)>|
        #![trigger closed[i], trail_cost(graph, trail)]
        0 <= i < closed.len() && is_trail(graph, trail) && trail.last() == start && trail[0]
            == closed[i].position ==> closed[i].cost <= trail_cost(graph, trail)
}

/// The numbers of the nodes that are not expanded yet: what is left of them
/// bounds the work that remains.
spec fn free_wf<T: PathGenerator>(graph: &T, closed: Seq<Node>, free: Set<int>) -> bool {
    &&& free.finite()
    &&& closed.len() + free.len() <= graph.node_limit() + 1
    &&& closed.len() == 0 ==> free.len() <= graph.node_limit()
    &&& forall|p: (usize, usize)|
        graph.contains(p) && !closed_has(closed, p) ==> free.contains(
            #[trigger] graph.node_index(p) as int,
        )
}

/// What holds of a search between two expansions.
#[verifier::opaque]
spec fn search_inv<T: PathGenerator>(
    graph: &T,
    start: (usize, usize),
    target: (Option<usize>, Option<usize>),
    que: Seq<Node>,
    qlinks: Seq<int>,
    closed: Seq<Node>,
    links: Seq<int>,
    free: Set<int>,
) -> bool {
    &&& closed_wf(graph, start, target, closed, links)
    &&& queue_wf(graph, start, target, que, qlinks, closed)
    &&& frontier(graph, que, closed, closed.len() as int, 0)
    &&& settled(graph, start, closed)
    &&& free_wf(graph, closed, free)
}

/// What holds while the steps of the last expanded node are followed, when
/// the first `done` of them have been.
#[verifier::opaque]
spec fn expanding<T: PathGenerator>(
    graph: &T,
    start: (usize, usize),
    target: (Option<usize>, Option<usize>),
    que: Seq<Node>,
    qlinks: Seq<int>,
    closed: Seq<Node>,
    links: Seq<int>,
    free: Set<int>,
    done: int,
) -> bool {
    &&& closed.len() > 0
    &&& closed.len() <= graph.node_limit() + 1
    &&& closed_wf(graph, start, target, closed, links)
    &&& queue_wf(graph, start, target, que, qlinks, closed)
    &&& frontier(graph, que, closed, closed.len() - 1, done)
    &&& settled(graph, start, closed)
    &&& free_wf(graph, closed, free)
}

/// The way back from the `i`-th expanded node to the start.
spec fn trail_of(closed: Seq<Node>, links: Seq<int>, i: int) -> Seq<(usize, usize)>
    decreases i,
{
    if 0 < i && 0 <= links[i] < i {
        seq![closed[i].position] + trail_of(closed, links, links[i])
    } else {
        seq![closed[i].position]
    }
}

/// Putting a position in front of a trail that it can be entered from gives a
/// trail, dearer by that step.
proof fn lemma_trail_extend<T: PathGenerator>(graph: &T, trail: Seq<(usize, usize)>, position: (usize, usize))
    requires
        is_trail(graph, trail),
        graph.paths_from(trail[0]).contains(position),
    ensures
        is_trail(graph, seq![position] + trail),
        (seq![position] + trail).last() == trail.last(),
        trail_cost(graph, seq![position] + trail) == graph.step_cost(trail[0], position) + trail_cost(
            graph,
            trail,
        ),
{
    let longer = seq![position] + trail;
    assert forall|i: int| 0 <= i < longer.len() - 1 implies #[trigger] trail_step(graph, longer, i) by {
        if i > 0 {
            assert(trail_step(graph, trail, i - 1));
            assert(longer[i] == trail[i - 1]);
            assert(longer[i + 1] == trail[i]);
        }
    }
    assert(longer.skip(1) =~= trail);
}

/// Dropping the end of a trail of two or more positions leaves a trail.
proof fn lemma_trail_rest<T: PathGenerator>(graph: &T, trail: Seq<(usize, usize)>)
    requires
        is_trail(graph, trail),
        trail.len() >= 2,
    ensures
        is_trail(graph, trail.skip(1)),
        trail.skip(1).last() == trail.last(),
        trail.skip(1)[0] == trail[1],
        graph.paths_from(trail[1]).contains(trail[0]),
        trail_cost(graph, trail) == graph.step_cost(trail[1], trail[0]) + trail_cost(graph, trail.skip(1)),
{
    let rest = trail.skip(1);
    assert forall|i: int| 0 <= i < rest.len() - 1 implies #[trigger] trail_step(graph, rest, i) by {
        assert(trail_step(graph, trail, i + 1));
        assert(rest[i] == trail[i + 1]);
        assert(rest[i + 1] == trail[i + 2]);
    }
    assert(trail_step(graph, trail, 0));
}

/// The way back from an expanded node is a trail from the start to it, and
/// costs what the node records.
proof fn lemma_trail_of<T: PathGenerator>(
    graph: &T,
    start: (usize, usize),
    target: (Option<usize>, Option<usize>),
    closed: Seq<Node>,
    links: Seq<int>,
    i: int,
)
    requires
        closed_wf(graph, start, target, closed, links),
        0 <= i < closed.len(),
    ensures
        is_trail(graph, trail_of(closed, links, i)),
        trail_of(closed, links, i)[0] == closed[i].position,
        trail_of(closed, links, i).last() == start,
        trail_cost(graph, trail_of(closed, links, i)) == closed[i].cost,
    decreases i,
{
    let node = closed[i];
    assert(closed_ok(graph, start, target, closed, links, i));
    if i > 0 {
        let parent = links[i];
        lemma_trail_of(graph, start, target, closed, links, parent);
        assert(closed[parent].position == closed[parent].position);
        lemma_trail_extend(graph, trail_of(closed, links, parent), node.position);
    } else {
        assert(is_root(start, node));
    }
}

/// Every trail from the start that ends off the expanded nodes passes
/// through the frontier: some node there has a priority of no more than the
/// trail's cost plus the heuristic at its end.
proof fn lemma_frontier<T: PathGenerator>(
    graph: &T,
    start: (usize, usize),
    target: (Option<usize>, Option<usize>),
    que: Seq<Node>,
    qlinks: Seq<int>,
    closed: Seq<Node>,
    links: Seq<int>,
    trail: Seq<(usize, usize)>,
) -> (k: int)
    requires
        closed_wf(graph, start, target, closed, links),
        queue_wf(graph, start, target, que, qlinks, closed),
        frontier(graph, que, closed, closed.len() as int, 0),
        settled(graph, start, closed),
        is_trail(graph, trail),
        trail.last() == start,
        !closed_has(closed, trail[0]),
    ensures
        0 <= k < que.len(),
        que[k].heuristic_cost <= trail_cost(graph, trail) + graph.heuristic(trail[0], target),
    decreases trail.len(),
{
    if trail.len() == 1 {
        if closed.len() > 0 {
            assert(closed_ok(graph, start, target, closed, links, 0));
            assert(closed[0].position == start);
            assert(false);
        }
        assert(queued_ok(graph, start, target, que, qlinks, closed, 0));
        0
    } else {
        lemma_trail_rest(graph, trail);
        let rest = trail.skip(1);
        let m = choose|m: int|
            0 <= m < graph.paths_from(trail[1]).len() && graph.paths_from(trail[1])[m] == trail[0];
        if closed_has(closed, trail[1]) {
            let i = choose|i: int| 0 <= i < closed.len() && (#[trigger] closed[i]).position == trail[1];
            assert(closed[i].cost <= trail_cost(graph, rest));
            assert(neighbor(graph, closed, i, m) == trail[0]);
            assert(covered(graph, que, closed, closed[i], trail[0]));
            let bound = closed[i].cost + graph.step_cost(closed[i].position, trail[0]);
            let k = choose|k: int|
                0 <= k < que.len() && (#[trigger] que[k]).position == trail[0] && que[k].cost <= bound;
            assert(queued_ok(graph, start, target, que, qlinks, closed, k));
            k
        } else {
            let k = lemma_frontier(graph, start, target, que, qlinks, closed, links, rest);
            graph.lemma_consistent(trail[1], m, target);
            k
        }
    }
}


/// What was accounted for stays so when a frontier node leaves, as long as
/// the node's own position is expanded afterwards, and when more is expanded.
proof fn lemma_covered_after_pop<T: PathGenerator>(
    graph: &T,
    que: Seq<Node>,
    closed: Seq<Node>,
    closed2: Seq<Node>,
    idx: int,
    parent: Node,
    n: (usize, usize),
)
    requires
        0 <= idx < que.len(),
        covered(graph, que, closed, parent, n),
        closed_has(closed2, que[idx].position),
        closed.len() <= closed2.len(),
        forall|j: int| 0 <= j < closed.len() ==> closed2[j] == closed[j],
    ensures
        covered(graph, que.remove(idx), closed2, parent, n),
{
    let que2 = que.remove(idx);
    if closed_has(closed, n) {
        let j = choose|j: int| 0 <= j < closed.len() && (#[trigger] closed[j]).position == n;
        assert(closed2[j].position == n);
    } else {
        let bound = parent.cost + graph.step_cost(parent.position, n);
        let k = choose|k: int| 0 <= k < que.len() && (#[trigger] que[k]).position == n && que[k].cost <= bound;
        if k != idx {
            let k2 = if k < idx { k } else { k - 1 };
            assert(que2[k2] == que[k]);
            assert(queued_within(que2, n, bound));
        }
    }
}

/// A search begins in order: the start node waits alone.
proof fn lemma_begin<T: PathGenerator>(
    graph: &T,
    start: (usize, usize),
    target: (Option<usize>, Option<usize>),
    first: Node,
)
    requires
        is_root(start, first),
        scored(graph, target, first),
    ensures
        search_inv(
            graph,
            start,
            target,
            seq![first],
            seq![-1int],
            Seq::empty(),
            Seq::empty(),
            vstd::set_lib::set_int_range(0, graph.node_limit() as int),
        ),
{
    reveal(search_inv);
    let free = vstd::set_lib::set_int_range(0, graph.node_limit() as int);
    vstd::set_lib::lemma_int_range(0, graph.node_limit() as int);
    assert(queued_ok(graph, start, target, seq![first], seq![-1int], Seq::<Node>::empty(), 0));
    assert forall|p: (usize, usize)| graph.contains(p) implies free.contains(
        #[trigger] graph.node_index(p) as int,
    ) by {
        graph.lemma_numbering(p, p);
    }
}

/// When nothing waits any more, no trail leads from the start to the target.
proof fn lemma_exhausted<T: PathGenerator>(
    graph: &T,
    start: (usize, usize),
    target: (Option<usize>, Option<usize>),
    que: Seq<Node>,
    qlinks: Seq<int>,
    closed: Seq<Node>,
    links: Seq<int>,
    free: Set<int>,
)
    requires
        search_inv(graph, start, target, que, qlinks, closed, links, free),
        que.len() == 0,
    ensures
        forall|path: Seq<(usize, usize)>| !#[trigger] connects(graph, path, start, target),
{
    reveal(search_inv);
    assert forall|path: Seq<(usize, usize)>| !#[trigger] connects(graph, path, start, target) by {
        if connects(graph, path, start, target) {
            lemma_reversed(graph, path);
            let trail = path.reverse();
            if closed_has(closed, trail[0]) {
                let j = choose|j: int| 0 <= j < closed.len() && (#[trigger] closed[j]).position == trail[0];
                assert(closed_ok(graph, start, target, closed, links, j));
                assert(false);
            }
            let k = lemma_frontier(graph, start, target, que, qlinks, closed, links, trail);
        }
    }
}

/// A frontier node on an expanded position can leave the frontier.
proof fn lemma_pop_stale<T: PathGenerator>(
    graph: &T,
    start: (usize, usize),
    target: (Option<usize>, Option<usize>),
    que: Seq<Node>,
    qlinks: Seq<int>,
    closed: Seq<Node>,
    links: Seq<int>,
    free: Set<int>,
    idx: int,
)
    requires
        search_inv(graph, start, target, que, qlinks, closed, links, free),
        0 <= idx < que.len(),
        closed_has(closed, que[idx].position),
    ensures
        search_inv(graph, start, target, que.remove(idx), qlinks.remove(idx), closed, links, free),
        closed.len() > 0,
{
    reveal(search_inv);
    let que2 = que.remove(idx);
    let qlinks2 = qlinks.remove(idx);
    assert forall|k: int| 0 <= k < que2.len() implies #[trigger] queued_ok(
        graph,
        start,
        target,
        que2,
        qlinks2,
        closed,
        k,
    ) by {
        let old_k = if k < idx { k } else { k + 1 };
        assert(que2[k] == que[old_k]);
        assert(qlinks2[k] == qlinks[old_k]);
        assert(queued_ok(graph, start, target, que, qlinks, closed, old_k));
    }
    assert forall|i: int, m: int|
        0 <= i < closed.len() && 0 <= m < graph.paths_from(closed[i].position).len() implies covered(
        graph,
        que2,
        closed,
        closed[i],
        #[trigger] neighbor(graph, closed, i, m),
    ) by {
        let n = neighbor(graph, closed, i, m);
        assert(covered(graph, que, closed, closed[i], n));
        lemma_covered_after_pop(graph, que, closed, closed, idx, closed[i], n);
    }
}

/// When the frontier's cheapest node stands on a new position that meets the
/// target, no trail from the start to the target is cheaper than the node,
/// and the way back from it can be read off the expanded nodes.
proof fn lemma_found<T: PathGenerator>(
    graph: &T,
    start: (usize, usize),
    target: (Option<usize>, Option<usize>),
    que: Seq<Node>,
    qlinks: Seq<int>,
    closed: Seq<Node>,
    links: Seq<int>,
    free: Set<int>,
    idx: int,
)
    requires
        search_inv(graph, start, target, que, qlinks, closed, links, free),
        0 <= idx < que.len(),
        target_reached(target, que[idx].position),
        forall|k: int| 0 <= k < que.len() ==> que[idx].heuristic_cost <= (#[trigger] que[k]).heuristic_cost,
    ensures
        closed_wf(graph, start, target, closed, links),
        if closed.len() == 0 {
            is_root(start, que[idx])
        } else {
            0 <= qlinks[idx] < closed.len() && is_child(graph, closed[qlinks[idx]], que[idx])
        },
        forall|other: Seq<(usize, usize)>|
            connects(graph, other, start, target) ==> que[idx].cost <= #[trigger] path_cost(graph, other),
{
    reveal(search_inv);
    let top = que[idx];
    graph.lemma_limits(top.position, target);
    assert(queued_ok(graph, start, target, que, qlinks, closed, idx));
    assert forall|other: Seq<(usize, usize)>| connects(graph, other, start, target) implies top.cost
        <= #[trigger] path_cost(graph, other) by {
        lemma_reversed(graph, other);
        let back = other.reverse();
        if closed_has(closed, back[0]) {
            let j = choose|j: int| 0 <= j < closed.len() && (#[trigger] closed[j]).position == back[0];
            assert(closed_ok(graph, start, target, closed, links, j));
            assert(false);
        }
        let k = lemma_frontier(graph, start, target, que, qlinks, closed, links, back);
        graph.lemma_limits(back[0], target);
        assert(que[idx].heuristic_cost <= que[k].heuristic_cost);
    }
}

/// Expanding the frontier's cheapest node, when its position is new and
/// misses the target, keeps the search in order and leaves less to do.
proof fn lemma_close<T: PathGenerator>(
    graph: &T,
    start: (usize, usize),
    target: (Option<usize>, Option<usize>),
    que: Seq<Node>,
    qlinks: Seq<int>,
    closed: Seq<Node>,
    links: Seq<int>,
    free: Set<int>,
    idx: int,
)
    requires
        search_inv(graph, start, target, que, qlinks, closed, links, free),
        0 <= idx < que.len(),
        !closed_has(closed, que[idx].position),
        !target_reached(target, que[idx].position),
        forall|k: int| 0 <= k < que.len() ==> que[idx].heuristic_cost <= (#[trigger] que[k]).heuristic_cost,
    ensures
        expanding(
            graph,
            start,
            target,
            que.remove(idx),
            qlinks.remove(idx),
            closed.push(que[idx]),
            links.push(qlinks[idx]),
            free_after(graph, free, que[idx].position),
            0,
        ),
        free_after(graph, free, que[idx].position).len() < free.len() + (if closed.len() == 0 {
            1int
        } else {
            0int
        }),
{
    reveal(search_inv);
    reveal(expanding);
    let top = que[idx];
    let c = closed.len() as int;
    let closed2 = closed.push(top);
    let links2 = links.push(qlinks[idx]);
    let que2 = que.remove(idx);
    let qlinks2 = qlinks.remove(idx);
    let lim = graph.cost_limit() as int;
    let free2 = free_after(graph, free, top.position);
    assert(top == que[idx]);
    assert(queued_ok(graph, start, target, que, qlinks, closed, idx));

    // the tree of expanded nodes
    assert forall|i: int| 0 <= i < closed2.len() implies #[trigger] closed_ok(
        graph,
        start,
        target,
        closed2,
        links2,
        i,
    ) by {
        if i < c {
            assert(closed_ok(graph, start, target, closed, links, i));
            assert(closed2[i] == closed[i]);
            assert(links2[i] == links[i]);
            if i > 0 {
                assert(closed2[links[i]] == closed[links[i]]);
            }
        } else {
            assert(closed2[i] == top);
            if c > 0 {
                assert(closed2[qlinks[idx]] == closed[qlinks[idx]]);
            }
        }
    }
    assert forall|i: int, j: int| 0 <= i < j < closed2.len() implies (#[trigger] closed2[i]).position != (
    #[trigger] closed2[j]).position by {
        if j < c {
            assert(closed2[i] == closed[i] && closed2[j] == closed[j]);
        } else {
            assert(closed2[i] == closed[i]);
        }
    }

    // the frontier that is left
    assert forall|k: int| 0 <= k < que2.len() implies #[trigger] queued_ok(
        graph,
        start,
        target,
        que2,
        qlinks2,
        closed2,
        k,
    ) by {
        let old_k = if k < idx { k } else { k + 1 };
        assert(que2[k] == que[old_k]);
        assert(qlinks2[k] == qlinks[old_k]);
        assert(queued_ok(graph, start, target, que, qlinks, closed, old_k));
        assert(c > 0);
        assert(closed2[qlinks[old_k]] == closed[qlinks[old_k]]);
        assert(c * lim <= (c + 1) * lim) by (nonlinear_arith)
            requires
                lim >= 0,
        ;
    }

    // steps of the nodes expanded earlier
    assert(closed_has(closed2, top.position)) by {
        assert(closed2[c].position == top.position);
    }
    assert forall|i: int, m: int|
        0 <= i < closed2.len() && 0 <= m < graph.paths_from(closed2[i].position).len() && i
            < c implies covered(graph, que2, closed2, closed2[i], #[trigger] neighbor(graph, closed2, i, m)) by {
        assert(closed2[i] == closed[i]);
        let n = neighbor(graph, closed, i, m);
        assert(covered(graph, que, closed, closed[i], n));
        lemma_covered_after_pop(graph, que, closed, closed2, idx, closed[i], n);
    }

    // no trail to the new node is cheaper
    assert forall|i: int, trail: Seq<(usize, usize)>|
        #![trigger closed2[i], trail_cost(graph, trail)]
        0 <= i < closed2.len() && is_trail(graph, trail) && trail.last() == start && trail[0]
            == closed2[i].position implies closed2[i].cost <= trail_cost(graph, trail) by {
        if i < c {
            assert(closed2[i] == closed[i]);
        } else {
            let k = lemma_frontier(graph, start, target, que, qlinks, closed, links, trail);
            assert(que[idx].heuristic_cost <= que[k].heuristic_cost);
        }
    }

    // the nodes that are left to expand
    if c > 0 {
        assert(graph.contains(top.position));
        assert(free.contains(graph.node_index(top.position) as int));
    }
    assert forall|p: (usize, usize)| graph.contains(p) && !closed_has(closed2, p) implies free2.contains(
        #[trigger] graph.node_index(p) as int,
    ) by {
        if closed_has(closed, p) {
            let j = choose|j: int| 0 <= j < closed.len() && (#[trigger] closed[j]).position == p;
            assert(closed2[j].position == p);
        }
        assert(p != top.position);
        if graph.contains(top.position) {
            graph.lemma_numbering(p, top.position);
        }
    }
}

/// The numbers that are left when the node on `position` has been expanded.
spec fn free_after<T: PathGenerator>(graph: &T, free: Set<int>, position: (usize, usize)) -> Set<int> {
    if graph.contains(position) {
        free.remove(graph.node_index(position) as int)
    } else {
        free
    }
}

/// The node that the next step of the expanded node leads to fits the
/// machine's integers.
proof fn lemma_child_fits<T: PathGenerator>(
    graph: &T,
    start: (usize, usize),
    target: (Option<usize>, Option<usize>),
    que: Seq<Node>,
    qlinks: Seq<int>,
    closed: Seq<Node>,
    links: Seq<int>,
    free: Set<int>,
    m: int,
)
    requires
        expanding(graph, start, target, que, qlinks, closed, links, free, m),
        0 <= m < graph.paths_from(closed.last().position).len(),
    ensures
        graph.step_cost(closed.last().position, graph.paths_from(closed.last().position)[m])
            + closed.last().cost + graph.heuristic(graph.paths_from(closed.last().position)[m], target)
            <= usize::MAX,
{
    reveal(expanding);
    let c = closed.len() - 1;
    let top = closed[c];
    let lim = graph.cost_limit() as int;
    let nodes = graph.node_limit() as int;
    let n = graph.paths_from(top.position)[m];
    graph.lemma_step(top.position, m);
    graph.lemma_limits(n, target);
    assert(closed_ok(graph, start, target, closed, links, c));
    assert(top.cost <= c * lim);
    assert((c + 2) * lim <= (nodes + 2) * lim && c * lim + lim + lim == (c + 2) * lim) by (nonlinear_arith)
        requires
            0 <= c <= nodes,
            lim >= 0,
    ;
}

/// Following one more step of the node that is being expanded: a position
/// that is expanded already needs nothing.
proof fn lemma_step_closed<T: PathGenerator>(
    graph: &T,
    start: (usize, usize),
    target: (Option<usize>, Option<usize>),
    que: Seq<Node>,
    qlinks: Seq<int>,
    closed: Seq<Node>,
    links: Seq<int>,
    free: Set<int>,
    m: int,
)
    requires
        expanding(graph, start, target, que, qlinks, closed, links, free, m),
        0 <= m < graph.paths_from(closed.last().position).len(),
        closed_has(closed, graph.paths_from(closed.last().position)[m]),
    ensures
        expanding(graph, start, target, que, qlinks, closed, links, free, m + 1),
{
    reveal(expanding);
    let c = closed.len() - 1;
    assert forall|i: int, j: int|
        0 <= i < closed.len() && 0 <= j < graph.paths_from(closed[i].position).len() && (i < c || (i == c
            && j < m + 1)) implies covered(graph, que, closed, closed[i], #[trigger] neighbor(graph, closed, i, j)) by {
        if i == c && j == m {
        } else {
            assert(covered(graph, que, closed, closed[i], neighbor(graph, closed, i, j)));
        }
    }
}

/// Following one more step of the node that is being expanded: a position
/// that is not expanded enters the frontier.
proof fn lemma_step_queued<T: PathGenerator>(
    graph: &T,
    start: (usize, usize),
    target: (Option<usize>, Option<usize>),
    que: Seq<Node>,
    qlinks: Seq<int>,
    closed: Seq<Node>,
    links: Seq<int>,
    free: Set<int>,
    m: int,
    node: Node,
)
    requires
        expanding(graph, start, target, que, qlinks, closed, links, free, m),
        0 <= m < graph.paths_from(closed.last().position).len(),
        node.position == graph.paths_from(closed.last().position)[m],
        node.comes_from == Some(closed.last().position),
        node.cost == closed.last().cost + graph.step_cost(closed.last().position, node.position),
        node.heuristic_cost == node.cost + graph.heuristic(node.position, target),
    ensures
        expanding(
            graph,
            start,
            target,
            que.push(node),
            qlinks.push(closed.len() - 1),
            closed,
            links,
            free,
            m + 1,
        ),
{
    reveal(expanding);
    let c = closed.len() - 1;
    let que2 = que.push(node);
    let qlinks2 = qlinks.push(c);
    let lim = graph.cost_limit() as int;
    graph.lemma_step(closed.last().position, m);
    assert(closed_ok(graph, start, target, closed, links, c));
    assert(closed[c].cost <= c * lim);
    assert(c * lim + lim == (c + 1) * lim) by (nonlinear_arith);
    assert forall|k: int| 0 <= k < que2.len() implies #[trigger] queued_ok(
        graph,
        start,
        target,
        que2,
        qlinks2,
        closed,
        k,
    ) by {
        if k < que.len() {
            assert(que2[k] == que[k]);
            assert(qlinks2[k] == qlinks[k]);
            assert(queued_ok(graph, start, target, que, qlinks, closed, k));
        } else {
            assert(que2[k] == node);
            assert(qlinks2[k] == c);
        }
    }
    assert forall|i: int, j: int|
        0 <= i < closed.len() && 0 <= j < graph.paths_from(closed[i].position).len() && (i < c || (i == c
            && j < m + 1)) implies covered(graph, que2, closed, closed[i], #[trigger] neighbor(graph, closed, i, j)) by {
        let n = neighbor(graph, closed, i, j);
        if i == c && j == m {
            assert(que2[que.len() as int] == node);
            assert(queued_within(que2, n, closed[i].cost + graph.step_cost(closed[i].position, n)));
        } else {
            assert(covered(graph, que, closed, closed[i], n));
            if !closed_has(closed, n) {
                let bound = closed[i].cost + graph.step_cost(closed[i].position, n);
                let k = choose|k: int|
                    0 <= k < que.len() && (#[trigger] que[k]).position == n && que[k].cost <= bound;
                assert(que2[k] == que[k]);
                assert(queued_within(que2, n, bound));
            }
        }
    }
}

/// When all steps of the expanded node have been followed, the search is
/// between two expansions again.
proof fn lemma_expanded<T: PathGenerator>(
    graph: &T,
    start: (usize, usize),
    target: (Option<usize>, Option<usize>),
    que: Seq<Node>,
    qlinks: Seq<int>,
    closed: Seq<Node>,
    links: Seq<int>,
    free: Set<int>,
)
    requires
        expanding(
            graph,
            start,
            target,
            que,
            qlinks,
            closed,
            links,
            free,
            graph.paths_from(closed.last().position).len() as int,
        ),
    ensures
        search_inv(graph, start, target, que, qlinks, closed, links, free),
        closed.len() > 0,
{
    reveal(search_inv);
    reveal(expanding);
    let done = graph.paths_from(closed.last().position).len() as int;
    assert forall|a: int, m: int|
        0 <= a < closed.len() && 0 <= m < graph.paths_from(closed[a].position).len() implies covered(
        graph,
        que,
        closed,
        closed[a],
        #[trigger] neighbor(graph, closed, a, m),
    ) by {
        assert(a < closed.len() - 1 || (a == closed.len() - 1 && m < done));
    }
}

impl AStar {
    /// The target the search looks for.
    pub closed spec fn goal(&self) -> (Option<usize>, Option<usize>) {
        self.target
    }

    /// The nodes that wait to be expanded.
    pub closed spec fn waiting(&self) -> Seq<Node> {
        self.que@
    }

    /// The nodes that have been expanded.
    pub closed spec fn expanded(&self) -> Seq<Node> {
        self.closed@
    }

    /// A search for `target` with nothing met yet.
    pub fn new(target: (Option<usize>, Option<usize>)) -> (search: Self)
        ensures
            search.goal() == target,
            search.waiting().len() == 0,
            search.expanded().len() == 0,
    {
        Self { target, que: Vec::new(), closed: Vec::new() }
    }

    /// Searches the cheapest way from `start` to a position that meets
    /// `target`, over the steps that `from_struct` offers.
    ///
    /// The path begins at `start` and ends where the target is met. Among the
    /// frontier's nodes of least cost plus heuristic the one that entered
    /// first is expanded first, so which of several cheapest paths is found
    /// depends on the order in which `from_struct` lists the steps.
    pub fn run<T: PathGenerator>(
        from_struct: &T,
        start: (usize, usize),
        target: (Option<usize>, Option<usize>),
    ) -> (path: Option<Vec<(usize, usize)>>)
        ensures
            path matches Some(found) ==> is_cheapest(from_struct, found@, start, target),
            path is None ==> forall|other: Seq<(usize, usize)>|
                !#[trigger] connects(from_struct, other, start, target),
    {
        let mut inst = Self::new(target);
        let first_heuristic = from_struct.calculate_heuristic_cost(start, target);
        inst.que.push(Node::new(start, first_heuristic));
        let ghost mut qlinks: Seq<int> = seq![-1int];
        let ghost mut links: Seq<int> = Seq::empty();
        let ghost mut free: Set<int> = vstd::set_lib::set_int_range(0, from_struct.node_limit() as int);
        proof {
            lemma_begin(from_struct, start, target, inst.que@[0]);
            assert(inst.que@ =~= seq![inst.que@[0]]);
            assert(inst.closed@ =~= Seq::empty());
        }
        loop
            invariant
                inst.target == target,
                search_inv(from_struct, start, target, inst.que@, qlinks, inst.closed@, links, free),
            decreases
                    free.len() + (if inst.closed@.len() == 0 {
                        1int
                    } else {
                        0int
                    }),
                    inst.que@.len(),
        {
            if inst.que.len() == 0 {
                proof {
                    lemma_exhausted(from_struct, start, target, inst.que@, qlinks, inst.closed@, links, free);
                }
                return None;
            }
            let ghost que_before = inst.que@;
            let ghost closed_before = inst.closed@;
            let (top, Ghost(idx)) = inst.pop_first_min();
            let met = inst.pull_from_closed_by_position(top.position);
            if met.is_some() {
                proof {
                    lemma_pop_stale(from_struct, start, target, que_before, qlinks, closed_before, links, free, idx);
                    qlinks = qlinks.remove(idx);
                }
            } else if inst.target_is_reached(&top) {
                proof {
                    lemma_found(from_struct, start, target, que_before, qlinks, closed_before, links, free, idx);
                }
                let found = inst.reconstruct_path(top, from_struct, Ghost(start), Ghost(links), Ghost(qlinks[idx]));
                return Some(found);
            } else {
                inst.closed.push(top);
                let possible_paths = from_struct.generate_paths(top.position);
                proof {
                    lemma_close(from_struct, start, target, que_before, qlinks, closed_before, links, free, idx);
                    links = links.push(qlinks[idx]);
                    qlinks = qlinks.remove(idx);
                    free = free_after(from_struct, free, top.position);
                }
                let ghost closed_now = inst.closed@;
                let mut i: usize = 0;
                while i < possible_paths.len()
                    invariant
                        i <= possible_paths.len(),
                        inst.target == target,
                        inst.closed@ == closed_now,
                        closed_now.len() > 0,
                        closed_now.last() == top,
                        possible_paths@ == from_struct.paths_from(top.position),
                        expanding(from_struct, start, target, inst.que@, qlinks, closed_now, links, free, i as int),
                    decreases possible_paths.len() - i,
                {
                    let possible_path = possible_paths[i];
                    let seen = inst.pull_from_closed_by_position(possible_path);
                    if seen.is_none() {
                        let cost = from_struct.calculate_cost(top.position, possible_path);
                        let heuristic_cost = from_struct.calculate_heuristic_cost(possible_path, target);
                        proof {
                            lemma_child_fits(
                                from_struct,
                                start,
                                target,
                                inst.que@,
                                qlinks,
                                closed_now,
                                links,
                                free,
                                i as int,
                            );
                        }
                        let node = Self::create_new_node(&top, possible_path, cost, heuristic_cost);
                        proof {
                            lemma_step_queued(
                                from_struct,
                                start,
                                target,
                                inst.que@,
                                qlinks,
                                closed_now,
                                links,
                                free,
                                i as int,
                                node,
                            );
                            qlinks = qlinks.push(closed_now.len() - 1);
                        }
                        inst.que.push(node);
                    } else {
                        proof {
                            lemma_step_closed(
                                from_struct,
                                start,
                                target,
                                inst.que@,
                                qlinks,
                                closed_now,
                                links,
                                free,
                                i as int,
                            );
                        }
                    }
                    i += 1;
                }
                proof {
                    lemma_expanded(from_struct, start, target, inst.que@, qlinks, closed_now, links, free);
                }
            }
        }
    }

    /// Takes the node of least cost plus heuristic out of the frontier, the
    /// one that entered first among equals.
    fn pop_first_min(&mut self) -> (r: (Node, Ghost<int>))
        requires
            old(self).que@.len() > 0,
        ensures
            0 <= r.1@ < old(self).que@.len(),
            r.0 == old(self).que@[r.1@],
            final(self).que@ == old(self).que@.remove(r.1@),
            final(self).closed == old(self).closed,
            final(self).target == old(self).target,
            forall|k: int|
                0 <= k < old(self).que@.len() ==> r.0.heuristic_cost <= (#[trigger] old(self).que@[k]).heuristic_cost,
            forall|k: int| 0 <= k < r.1@ ==> r.0.heuristic_cost < (#[trigger] old(self).que@[k]).heuristic_cost,
    {
        let mut best: usize = 0;
        let mut k: usize = 1;
        while k < self.que.len()
            invariant
                0 <= best < k <= self.que@.len(),
                forall|j: int|
                    0 <= j < k ==> self.que@[best as int].heuristic_cost <= (#[trigger] self.que@[j]).heuristic_cost,
                forall|j: int|
                    0 <= j < best ==> self.que@[best as int].heuristic_cost < (#[trigger] self.que@[j]).heuristic_cost,
            decreases self.que@.len() - k,
        {
            if self.que[k].heuristic_cost < self.que[best].heuristic_cost {
                best = k;
            }
            k += 1;
        }
        let node = self.que.remove(best);
        (node, Ghost(best as int))
    }

    /// Whether the node stands where the search wants to get.
    fn target_is_reached(&self, node: &Node) -> (r: bool)
        ensures
            r == target_reached(self.target, node.position),
    {
        if self.target.0.is_some() && self.target.0.unwrap() != node.position.0 {
            return false;
        }
        if self.target.1.is_some() && self.target.1.unwrap() != node.position.1 {
            return false;
        }
        true
    }

    /// The node that is entered from `old_node` at `new_position`.
    fn create_new_node(old_node: &Node, new_position: (usize, usize), cost: usize, heuristic_cost: usize) -> (node:
        Node)
        requires
            cost + old_node.cost + heuristic_cost <= usize::MAX,
        ensures
            node.position == new_position,
            node.comes_from == Some(old_node.position),
            node.cost == cost + old_node.cost,
            node.heuristic_cost == heuristic_cost + cost + old_node.cost,
    {
        let new_cost = cost + old_node.cost;
        Node {
            position: new_position,
            comes_from: Some(old_node.position),
            cost: new_cost,
            heuristic_cost: heuristic_cost + new_cost,
        }
    }

    /// The index of the expanded node that stands on `position`, if there is
    /// one.
    fn pull_from_closed_by_position(&self, position: (usize, usize)) -> (r: Option<usize>)
        ensures
            r matches Some(j) ==> j < self.closed@.len() && self.closed@[j as int].position == position,
            r is Some ==> closed_has(self.closed@, position),
            r is None ==> !closed_has(self.closed@, position),
    {
        let mut j: usize = 0;
        while j < self.closed.len()
            invariant
                j <= self.closed@.len(),
                forall|a: int| 0 <= a < j ==> (#[trigger] self.closed@[a]).position != position,
            decreases self.closed@.len() - j,
        {
            if self.closed[j].position.0 == position.0 && self.closed[j].position.1 == position.1 {
                return Some(j);
            }
            j += 1;
        }
        None
    }

    /// The positions of `trail` in the opposite order.
    fn reversed(trail: Vec<(usize, usize)>) -> (path: Vec<(usize, usize)>)
        ensures
            path@ == trail@.reverse(),
    {
        let mut path: Vec<(usize, usize)> = Vec::new();
        let mut i: usize = trail.len();
        while i > 0
            invariant
                i <= trail@.len(),
                path@.len() == trail@.len() - i,
                forall|j: int| 0 <= j < path@.len() ==> path@[j] == trail@[trail@.len() - 1 - j],
            decreases i,
        {
            i -= 1;
            path.push(trail[i]);
        }
        proof {
            assert(path@ =~= trail@.reverse());
        }
        path
    }

    /// The way from the start to `opt`: it is read off the expanded nodes
    /// from `opt` back to the start, and then turned round.
    fn reconstruct_path<T: PathGenerator>(
        &self,
        opt: Node,
        graph: &T,
        Ghost(start): Ghost<(usize, usize)>,
        Ghost(links): Ghost<Seq<int>>,
        Ghost(link): Ghost<int>,
    ) -> (path: Vec<(usize, usize)>)
        requires
            closed_wf(graph, start, self.target, self.closed@, links),
            if self.closed@.len() == 0 {
                is_root(start, opt)
            } else {
                0 <= link < self.closed@.len() && is_child(graph, self.closed@[link], opt)
            },
        ensures
            is_path(graph, path@),
            path@[0] == start,
            path@.last() == opt.position,
            path_cost(graph, path@) == opt.cost,
    {
        let mut fastest_path: Vec<(usize, usize)> = Vec::new();
        fastest_path.push(opt.position);
        let mut comes_from = opt.comes_from;
        let ghost mut at: int = link;
        let ghost whole: Seq<(usize, usize)> = if self.closed@.len() == 0 {
            seq![opt.position]
        } else {
            seq![opt.position] + trail_of(self.closed@, links, link)
        };
        proof {
            if self.closed@.len() > 0 {
                lemma_trail_of(graph, start, self.target, self.closed@, links, link);
                lemma_trail_extend(graph, trail_of(self.closed@, links, link), opt.position);
            } else {
                assert(trail_cost(graph, whole) == 0);
            }
        }
        loop
            invariant
                closed_wf(graph, start, self.target, self.closed@, links),
                is_trail(graph, whole),
                whole[0] == opt.position,
                whole.last() == start,
                trail_cost(graph, whole) == opt.cost,
                fastest_path@.len() >= 1,
                comes_from is None ==> fastest_path@ == whole,
                comes_from is Some ==> 0 <= at < self.closed@.len() && self.closed@[at].position
                    == comes_from->0 && fastest_path@ + trail_of(self.closed@, links, at) == whole,
            decreases
                    if comes_from is Some {
                        at + 1
                    } else {
                        0
                    },
        {
            match comes_from {
                None => {
                    let path = Self::reversed(fastest_path);
                    proof {
                        lemma_reversed(graph, path@);
                        assert(path@.reverse() =~= whole);
                    }
                    return path;
                },
                Some(position) => {
                    let met = self.pull_from_closed_by_position(position);
                    proof {
                        assert(closed_has(self.closed@, position));
                    }
                    let j = met.unwrap();
                    assert(closed_ok(graph, start, self.target, self.closed@, links, at));
                    assert(j == at);
                    fastest_path.push(self.closed[j].position);
                    comes_from = self.closed[j].comes_from;
                    proof {
                        let here = seq![self.closed@[at].position];
                        if at > 0 {
                            let next = links[at];
                            assert(trail_of(self.closed@, links, at) == here + trail_of(self.closed@, links, next));
                            assert(fastest_path@ + trail_of(self.closed@, links, next) =~= whole);
                            at = next;
                        } else {
                            assert(is_root(start, self.closed@[0]));
                            assert(fastest_path@ =~= whole);
                        }
                    }
                },
            }
        }
    }
}

} // verus!
