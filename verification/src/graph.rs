//! The graph that operator edges make of streams: an operator reads its input streams and
//! writes its output stream. Streams are numbered `0..nodes`.
use vstd::prelude::*;

verus! {

/// An active operator edge: the operator's input streams and the stream it writes.
pub open spec fn edge_inputs(edges: Seq<(Vec<usize>, usize)>, e: int) -> Seq<usize> {
    edges[e].0@
}

/// Some edge leads from stream `a` to stream `b`.
pub open spec fn step(edges: Seq<(Vec<usize>, usize)>, a: usize, b: usize) -> bool {
    exists|e: int| 0 <= e < edges.len() && edge_inputs(edges, e).contains(a) && #[trigger] edges[e].1 == b
}

/// Consecutive streams of `path` are joined by edges.
pub open spec fn is_path(edges: Seq<(Vec<usize>, usize)>, path: Seq<usize>) -> bool {
    path.len() >= 1 && forall|i: int|
        0 <= i < path.len() - 1 ==> #[trigger] step(edges, path[i], path[i + 1])
}

/// Records of stream `from` can flow to stream `to`, possibly through several operators;
/// every stream reaches itself.
pub open spec fn reaches(edges: Seq<(Vec<usize>, usize)>, from: usize, to: usize) -> bool {
    exists|path: Seq<usize>| #[trigger] is_path(edges, path) && path[0] == from && path.last() == to
}

/// Every stream an edge mentions is below `nodes`.
pub open spec fn edges_within(edges: Seq<(Vec<usize>, usize)>, nodes: usize) -> bool {
    forall|e: int|
        0 <= e < edges.len() ==> edges[e].1 < nodes && forall|i: int|
            0 <= i < edge_inputs(edges, e).len() ==> #[trigger] edge_inputs(edges, e)[i] < nodes
}

/// A set of streams that every edge from a member leads back into.
pub open spec fn closed_under(edges: Seq<(Vec<usize>, usize)>, marked: Seq<bool>) -> bool {
    forall|e: int, i: int|
        0 <= e < edges.len() && 0 <= i < edge_inputs(edges, e).len() && #[trigger] marked[
            edge_inputs(edges, e)[i] as int] ==> marked[edges[e].1 as int]
}

pub open spec fn count_marked(marked: Seq<bool>) -> nat
    decreases marked.len(),
{
    if marked.len() == 0 {
        0
    } else {
        count_marked(marked.drop_last()) + if marked.last() {
            1nat
        } else {
            0nat
        }
    }
}

proof fn lemma_count_bound(marked: Seq<bool>)
    ensures
        count_marked(marked) <= marked.len(),
    decreases marked.len(),
{
    if marked.len() > 0 {
        lemma_count_bound(marked.drop_last());
    }
}

proof fn lemma_count_mark(marked: Seq<bool>, v: int)
    requires
        0 <= v < marked.len(),
        !marked[v],
    ensures
        count_marked(marked.update(v, true)) == count_marked(marked) + 1,
    decreases marked.len(),
{
    let n = marked.len();
    if v < n - 1 {
        lemma_count_mark(marked.drop_last(), v);
        assert(marked.update(v, true).drop_last() =~= marked.drop_last().update(v, true));
    } else {
        assert(marked.update(v, true).drop_last() =~= marked.drop_last());
    }
}

proof fn lemma_path_extend(edges: Seq<(Vec<usize>, usize)>, path: Seq<usize>, next: usize)
    requires
        is_path(edges, path),
        step(edges, path.last(), next),
    ensures
        is_path(edges, path.push(next)),
        path.push(next)[0] == path[0],
        path.push(next).last() == next,
{
    let longer = path.push(next);
    assert forall|i: int| 0 <= i < longer.len() - 1 implies #[trigger] step(
        edges,
        longer[i],
        longer[i + 1],
    ) by {
        if i < path.len() - 1 {
            assert(longer[i] == path[i] && longer[i + 1] == path[i + 1]);
        } else {
            assert(longer[i] == path.last());
        }
    }
}

/// A closed set that holds the start of a path holds its end.
proof fn lemma_closed_holds_path(
    edges: Seq<(Vec<usize>, usize)>,
    nodes: usize,
    marked: Seq<bool>,
    path: Seq<usize>,
)
    requires
        edges_within(edges, nodes),
        marked.len() == nodes,
        closed_under(edges, marked),
        is_path(edges, path),
        path[0] < nodes,
        marked[path[0] as int],
    ensures
        path.last() < nodes,
        marked[path.last() as int],
    decreases path.len(),
{
    if path.len() > 1 {
        let front = path.drop_last();
        assert forall|i: int| 0 <= i < front.len() - 1 implies #[trigger] step(
            edges,
            front[i],
            front[i + 1],
        ) by {
            assert(step(edges, path[i], path[i + 1]));
        }
        lemma_closed_holds_path(edges, nodes, marked, front);
        let k = path.len() - 2;
        assert(step(edges, path[k], path[k + 1]));
        let e = choose|e: int|
            0 <= e < edges.len() && edge_inputs(edges, e).contains(path[k]) && #[trigger] edges[e].1
                == path[k + 1];
        let i = choose|i: int|
            0 <= i < edge_inputs(edges, e).len() && edge_inputs(edges, e)[i] == path[k];
        assert(marked[edge_inputs(edges, e)[i] as int]);
    }
}

/// Every marked stream is reachable from one of the sources.
pub open spec fn marks_reachable(
    edges: Seq<(Vec<usize>, usize)>,
    sources: Seq<usize>,
    marked: Seq<bool>,
) -> bool {
    forall|v: int|
        0 <= v < marked.len() ==> (#[trigger] marked[v] ==> exists|k: int|
            0 <= k < sources.len() && reaches(edges, sources[k], v as usize))
}

/// Every source is marked.
pub open spec fn marks_sources(sources: Seq<usize>, marked: Seq<bool>) -> bool {
    forall|k: int| 0 <= k < sources.len() ==> marked[#[trigger] sources[k] as int]
}

fn mark_sources(nodes: usize, edges: &[(Vec<usize>, usize)], sources: &[usize]) -> (r: (
    Vec<bool>,
    usize,
))
    requires
        forall|k: int| 0 <= k < sources@.len() ==> #[trigger] sources@[k] < nodes,
    ensures
        r.0@.len() == nodes,
        r.1 == count_marked(r.0@),
        r.1 <= nodes,
        marks_sources(sources@, r.0@),
        marks_reachable(edges@, sources@, r.0@),
{
    let mut marked: Vec<bool> = Vec::new();
    while marked.len() < nodes
        invariant
            marked@.len() <= nodes,
            forall|v: int| 0 <= v < marked@.len() ==> !#[trigger] marked@[v],
        decreases nodes - marked.len(),
    {
        marked.push(false);
    }
    let mut count: usize = 0;
    proof {
        lemma_count_zero(marked@);
    }
    let mut s: usize = 0;
    while s < sources.len()
        invariant
            marked@.len() == nodes,
            s <= sources@.len(),
            forall|k: int| 0 <= k < sources@.len() ==> #[trigger] sources@[k] < nodes,
            count == count_marked(marked@),
            count <= nodes,
            forall|k: int| 0 <= k < s ==> marked@[#[trigger] sources@[k] as int],
            marks_reachable(edges@, sources@, marked@),
        decreases sources.len() - s,
    {
        let v = sources[s];
        if !marked[v] {
            proof {
                lemma_count_mark(marked@, v as int);
                lemma_count_bound(marked@.update(v as int, true));
                let single = seq![v];
                assert(is_path(edges@, single));
                assert(reaches(edges@, sources@[s as int], v));
            }
            marked.set(v, true);
            count = count + 1;
        }
        s = s + 1;
    }
    (marked, count)
}

/// One pass over the edges that marks the output of every edge with a marked input.
/// Without a change the marked streams are closed under the edges.
fn propagate(
    edges: &[(Vec<usize>, usize)],
    nodes: usize,
    Ghost(sources): Ghost<Seq<usize>>,
    marked: &mut Vec<bool>,
    count: &mut usize,
) -> (changed: bool)
    requires
        old(marked)@.len() == nodes,
        edges_within(edges@, nodes),
        *old(count) == count_marked(old(marked)@),
        *old(count) <= nodes,
        forall|k: int| 0 <= k < sources.len() ==> #[trigger] sources[k] < nodes,
        marks_sources(sources, old(marked)@),
        marks_reachable(edges@, sources, old(marked)@),
    ensures
        final(marked)@.len() == nodes,
        *final(count) == count_marked(final(marked)@),
        *final(count) <= nodes,
        marks_sources(sources, final(marked)@),
        marks_reachable(edges@, sources, final(marked)@),
        changed ==> *final(count) > *old(count),
        !changed ==> closed_under(edges@, final(marked)@),
{
    let mut changed = false;
    let ghost at_start = marked@;
    let ghost start_count = *count;
    let mut e: usize = 0;
    while e < edges.len()
        invariant
            marked@.len() == nodes,
            edges_within(edges@, nodes),
            *count == count_marked(marked@),
            *count <= nodes,
            e <= edges@.len(),
            !changed ==> marked@ == at_start,
            changed ==> *count > start_count,
            start_count <= *count,
            !changed ==> forall|f: int, i: int|
                0 <= f < e && 0 <= i < edge_inputs(edges@, f).len() && #[trigger] marked@[
                    edge_inputs(edges@, f)[i] as int] ==> marked@[edges@[f].1 as int],
            forall|k: int| 0 <= k < sources.len() ==> #[trigger] sources[k] < nodes,
            marks_sources(sources, marked@),
            marks_reachable(edges@, sources, marked@),
        decreases edges.len() - e,
    {
        let output = edges[e].1;
        if !marked[output] {
            let inputs = &edges[e].0;
            let mut i: usize = 0;
            let mut hit = false;
            while i < inputs.len()
                invariant
                    inputs@ == edge_inputs(edges@, e as int),
                    marked@.len() == nodes,
                    edges_within(edges@, nodes),
                    e < edges@.len(),
                    i <= inputs@.len(),
                    !hit ==> forall|j: int| 0 <= j < i ==> !#[trigger] marked@[inputs@[j] as int],
                    hit ==> exists|j: int|
                        0 <= j < inputs@.len() && marked@[#[trigger] inputs@[j] as int],
                decreases inputs.len() - i,
            {
                assert(inputs@[i as int] < nodes);
                if marked[inputs[i]] {
                    hit = true;
                }
                i = i + 1;
            }
            if hit {
                proof {
                    let j = choose|j: int|
                        0 <= j < inputs@.len() && marked@[#[trigger] inputs@[j] as int];
                    let a = inputs@[j];
                    assert(a < nodes);
                    let k = choose|k: int| 0 <= k < sources.len() && reaches(edges@, sources[k], a);
                    let path = choose|path: Seq<usize>|
                        #[trigger] is_path(edges@, path) && path[0] == sources[k] && path.last()
                            == a;
                    assert(edge_inputs(edges@, e as int).contains(a));
                    assert(step(edges@, path.last(), output));
                    lemma_path_extend(edges@, path, output);
                    assert(reaches(edges@, sources[k], output));
                    lemma_count_mark(marked@, output as int);
                    lemma_count_bound(marked@.update(output as int, true));
                }
                let ghost before = marked@;
                marked.set(output, true);
                proof {
                    assert forall|k: int| 0 <= k < sources.len() implies marked@[
                        #[trigger] sources[k] as int] by {
                        assert(before[sources[k] as int]);
                    }
                }
                *count = *count + 1;
                changed = true;
            }
        }
        e = e + 1;
    }
    changed
}

/// The streams that records of some source stream can reach.
pub fn reachable_from(edges: &[(Vec<usize>, usize)], nodes: usize, sources: &[usize]) -> (marked:
    Vec<bool>)
    requires
        edges_within(edges@, nodes),
        forall|k: int| 0 <= k < sources@.len() ==> #[trigger] sources@[k] < nodes,
    ensures
        marked@.len() == nodes,
        forall|v: int|
            0 <= v < nodes ==> (#[trigger] marked@[v] <==> exists|k: int|
                0 <= k < sources@.len() && reaches(edges@, sources@[k], v as usize)),
{
    let (mut marked, mut count) = mark_sources(nodes, edges, sources);
    loop
        invariant
            marked@.len() == nodes,
            edges_within(edges@, nodes),
            count == count_marked(marked@),
            count <= nodes,
            forall|k: int| 0 <= k < sources@.len() ==> #[trigger] sources@[k] < nodes,
            marks_sources(sources@, marked@),
            marks_reachable(edges@, sources@, marked@),
        ensures
            marked@.len() == nodes,
            closed_under(edges@, marked@),
            marks_sources(sources@, marked@),
            marks_reachable(edges@, sources@, marked@),
        decreases nodes - count,
    {
        if !propagate(edges, nodes, Ghost(sources@), &mut marked, &mut count) {
            break;
        }
    }
    proof {
        assert forall|v: int| 0 <= v < nodes implies (#[trigger] marked@[v] <==> exists|k: int|
            0 <= k < sources@.len() && reaches(edges@, sources@[k], v as usize)) by {
            if exists|k: int| 0 <= k < sources@.len() && reaches(edges@, sources@[k], v as usize) {
                let k = choose|k: int|
                    0 <= k < sources@.len() && reaches(edges@, sources@[k], v as usize);
                let path = choose|path: Seq<usize>|
                    #[trigger] is_path(edges@, path) && path[0] == sources@[k] && path.last() == v
                        as usize;
                assert(marked@[sources@[k] as int]);
                lemma_closed_holds_path(edges@, nodes, marked@, path);
            }
        }
    }
    marked
}

proof fn lemma_count_zero(marked: Seq<bool>)
    requires
        forall|v: int| 0 <= v < marked.len() ==> !#[trigger] marked[v],
    ensures
        count_marked(marked) == 0,
    decreases marked.len(),
{
    if marked.len() > 0 {
        lemma_count_zero(marked.drop_last());
    }
}

/// Whether records of `stream` can flow into any of `targets`: the test that refuses an
/// operator edge or a process reference that would close a cycle.
pub fn stream_reaches_any(
    edges: &[(Vec<usize>, usize)],
    nodes: usize,
    stream: usize,
    targets: &[usize],
) -> (found: bool)
    requires
        edges_within(edges@, nodes),
        stream < nodes,
    ensures
        found == exists|k: int| 0 <= k < targets@.len() && reaches(edges@, stream, targets@[k]),
{
    let sources = vec![stream];
    let marked = reachable_from(edges, nodes, &sources);
    let mut k: usize = 0;
    while k < targets.len()
        invariant
            marked@.len() == nodes,
            sources@ == seq![stream],
            k <= targets@.len(),
            edges_within(edges@, nodes),
            stream < nodes,
            forall|v: int|
                0 <= v < nodes ==> (#[trigger] marked@[v] <==> exists|j: int|
                    0 <= j < sources@.len() && reaches(edges@, sources@[j], v as usize)),
            forall|j: int| 0 <= j < k ==> !reaches(edges@, stream, #[trigger] targets@[j]),
        decreases targets.len() - k,
    {
        let t = targets[k];
        if t < nodes && marked[t] {
            assert(reaches(edges@, sources@[0], t));
            return true;
        }
        proof {
            if t < nodes {
                if reaches(edges@, stream, t) {
                    assert(reaches(edges@, sources@[0], t as usize));
                }
            } else {
                lemma_reach_within(edges@, nodes, stream, t);
            }
        }
        k = k + 1;
    }
    false
}

/// Paths from a stream below `nodes` stay below `nodes`.
proof fn lemma_reach_within(edges: Seq<(Vec<usize>, usize)>, nodes: usize, from: usize, to: usize)
    requires
        edges_within(edges, nodes),
        from < nodes,
        to >= nodes,
    ensures
        !reaches(edges, from, to),
{
    if reaches(edges, from, to) {
        let path = choose|path: Seq<usize>|
            #[trigger] is_path(edges, path) && path[0] == from && path.last() == to;
        let k = path.len() - 2;
        assert(step(edges, path[k], path[k + 1]));
        let e = choose|e: int|
            0 <= e < edges.len() && edge_inputs(edges, e).contains(path[k]) && #[trigger] edges[e].1
                == path[k + 1];
        assert(edges[e].1 < nodes);
    }
}

/// No path of one or more edges leads from a stream back to itself.
pub open spec fn acyclic(edges: Seq<(Vec<usize>, usize)>) -> bool {
    forall|path: Seq<usize>| #[trigger] is_path(edges, path) && path.len() >= 2 ==> path[0] != path.last()
}

proof fn lemma_step_in_extended(
    edges: Seq<(Vec<usize>, usize)>,
    edge: (Vec<usize>, usize),
    a: usize,
    b: usize,
)
    requires
        step(edges.push(edge), a, b),
        !step(edges, a, b),
    ensures
        edge.0@.contains(a),
        b == edge.1,
{
    let wider = edges.push(edge);
    let e = choose|e: int|
        0 <= e < wider.len() && edge_inputs(wider, e).contains(a) && #[trigger] wider[e].1 == b;
    if e < edges.len() {
        assert(wider[e] == edges[e]);
        assert(edge_inputs(edges, e).contains(a) && edges[e].1 == b);
    }
}

/// The first step of a path that only the added edge justifies, or the path's last index
/// when there is none.
proof fn lemma_first_new_step(
    edges: Seq<(Vec<usize>, usize)>,
    edge: (Vec<usize>, usize),
    path: Seq<usize>,
    k: int,
) -> (j: int)
    requires
        is_path(edges.push(edge), path),
        0 <= k <= path.len() - 1,
        forall|i: int| 0 <= i < k ==> #[trigger] step(edges, path[i], path[i + 1]),
    ensures
        k <= j <= path.len() - 1,
        forall|i: int| 0 <= i < j ==> #[trigger] step(edges, path[i], path[i + 1]),
        j < path.len() - 1 ==> edge.0@.contains(path[j]) && path[j + 1] == edge.1 && !step(
            edges,
            path[j],
            path[j + 1],
        ),
    decreases path.len() - k,
{
    if k == path.len() - 1 {
        k
    } else if step(edges, path[k], path[k + 1]) {
        lemma_first_new_step(edges, edge, path, k + 1)
    } else {
        assert(step(edges.push(edge), path[k], path[k + 1]));
        lemma_step_in_extended(edges, edge, path[k], path[k + 1]);
        k
    }
}

/// The last step of a path that only the added edge justifies, or -1 when there is none.
proof fn lemma_last_new_step(
    edges: Seq<(Vec<usize>, usize)>,
    edge: (Vec<usize>, usize),
    path: Seq<usize>,
    k: int,
) -> (j: int)
    requires
        is_path(edges.push(edge), path),
        0 <= k <= path.len() - 1,
        forall|i: int| k <= i < path.len() - 1 ==> #[trigger] step(edges, path[i], path[i + 1]),
    ensures
        -1 <= j < k,
        forall|i: int| j < i < path.len() - 1 ==> #[trigger] step(edges, path[i], path[i + 1]),
        j >= 0 ==> edge.0@.contains(path[j]) && path[j + 1] == edge.1,
    decreases k,
{
    if k == 0 {
        -1
    } else if step(edges, path[k - 1], path[k]) {
        lemma_last_new_step(edges, edge, path, k - 1)
    } else {
        assert(step(edges.push(edge), path[k - 1], path[(k - 1) + 1]));
        lemma_step_in_extended(edges, edge, path[k - 1], path[k]);
        k - 1
    }
}

proof fn lemma_subpath(edges: Seq<(Vec<usize>, usize)>, path: Seq<usize>, lo: int, hi: int)
    requires
        0 <= lo <= hi < path.len(),
        forall|i: int| lo <= i < hi ==> #[trigger] step(edges, path[i], path[i + 1]),
    ensures
        is_path(edges, path.subrange(lo, hi + 1)),
        path.subrange(lo, hi + 1)[0] == path[lo],
        path.subrange(lo, hi + 1).last() == path[hi],
{
    let sub = path.subrange(lo, hi + 1);
    assert forall|i: int| 0 <= i < sub.len() - 1 implies #[trigger] step(edges, sub[i], sub[i + 1]) by {
        assert(sub[i] == path[lo + i] && sub[i + 1] == path[lo + i + 1]);
    }
}

proof fn lemma_path_concat(edges: Seq<(Vec<usize>, usize)>, a: Seq<usize>, b: Seq<usize>)
    requires
        is_path(edges, a),
        is_path(edges, b),
        a.last() == b[0],
    ensures
        is_path(edges, a + b.drop_first()),
        (a + b.drop_first())[0] == a[0],
        (a + b.drop_first()).last() == b.last(),
{
    let joined = a + b.drop_first();
    assert forall|i: int| 0 <= i < joined.len() - 1 implies #[trigger] step(
        edges,
        joined[i],
        joined[i + 1],
    ) by {
        if i < a.len() - 1 {
            assert(joined[i] == a[i] && joined[i + 1] == a[i + 1]);
        } else if i == a.len() - 1 {
            assert(joined[i] == b[0] && joined[i + 1] == b[1]);
        } else {
            let t = i - a.len() + 1;
            assert(joined[i] == b[t] && joined[i + 1] == b[t + 1]);
        }
    }
    if b.len() > 1 {
        assert(joined.last() == b.last());
    }
}

/// The check before an operator edge is added keeps the stream graph free of cycles: when
/// the edge's output stream reaches none of its operator's inputs, no path through the
/// new edge returns to where it started.
pub proof fn law_edge_check_keeps_graph_acyclic(
    edges: Seq<(Vec<usize>, usize)>,
    edge: (Vec<usize>, usize),
)
    requires
        acyclic(edges),
        !exists|k: int| 0 <= k < edge.0@.len() && reaches(edges, edge.1, #[trigger] edge.0@[k]),
    ensures
        acyclic(edges.push(edge)),
{
    let wider = edges.push(edge);
    assert forall|path: Seq<usize>| #[trigger] is_path(wider, path) && path.len() >= 2 implies path[0]
        != path.last() by {
        if path[0] == path.last() {
            let n = path.len() as int;
            let first = lemma_first_new_step(edges, edge, path, 0);
            if first == n - 1 {
                lemma_subpath(edges, path, 0, n - 1);
                assert(path.subrange(0, n) =~= path);
            } else {
                let last = lemma_last_new_step(edges, edge, path, n - 1);
                assert(last >= first) by {
                    if last < first {
                        assert(step(edges, path[first], path[first + 1]));
                    }
                }
                lemma_subpath(edges, path, last + 1, n - 1);
                lemma_subpath(edges, path, 0, first);
                let tail = path.subrange(last + 1, n);
                let head = path.subrange(0, first + 1);
                lemma_path_concat(edges, tail, head);
                let m = choose|m: int| 0 <= m < edge.0@.len() && edge.0@[m] == path[first];
                assert(reaches(edges, edge.1, edge.0@[m]));
            }
        }
    }
}

/// What the edge validation reads of one collection operator.
#[derive(Debug, Clone, Copy, PartialEq, Eq, Structural)]
pub struct CollectionStreams {
    /// The stream the collection reads.
    pub stream: usize,
    /// Whether the collection reads its input as a retract changelog.
    pub retract_mode: bool,
    /// The stream its operator edge writes, if it has one.
    pub edge_output: Option<usize>,
}

/// Why the operator edges of collections were refused.
#[derive(Debug, Clone, Copy, PartialEq, Eq, Structural)]
pub enum CollectionEdgeError {
    /// A collection that reads an operator's changelog is not in retract mode.
    ChangelogInputNeedsRetract,
    /// Retractions from a collection can flow into an append-only deduplicate.
    RetractionsReachDeduplicate,
}

/// Some edge writes into `stream`.
pub open spec fn edge_writes(edges: Seq<(Vec<usize>, usize)>, stream: usize) -> bool {
    exists|e: int| 0 <= e < edges.len() && #[trigger] edges[e].1 == stream
}

/// Retractions start at the output streams of collection operators and flow along edges.
pub open spec fn carries_retractions(
    edges: Seq<(Vec<usize>, usize)>,
    collections: Seq<CollectionStreams>,
    stream: usize,
) -> bool {
    exists|c: int|
        0 <= c < collections.len() && output_reaches(
            edges,
            (#[trigger] collections[c]).edge_output,
            stream,
        )
}

pub open spec fn output_reaches(edges: Seq<(Vec<usize>, usize)>, output: Option<usize>, stream: usize) -> bool {
    match output {
        Some(out) => reaches(edges, out, stream),
        None => false,
    }
}

/// Some collection's operator edge writes `stream`.
pub open spec fn from_collection(collections: Seq<CollectionStreams>, stream: usize) -> bool {
    exists|j: int| 0 <= j < collections.len() && collections[j].edge_output == Some(stream)
}

pub open spec fn output_within(output: Option<usize>, nodes: usize) -> bool {
    match output {
        Some(out) => out < nodes,
        None => true,
    }
}

pub open spec fn output_listed(output: Option<usize>, sources: Seq<usize>) -> bool {
    match output {
        Some(out) => sources.contains(out),
        None => true,
    }
}

pub open spec fn spec_check_collection_edges(
    edges: Seq<(Vec<usize>, usize)>,
    collections: Seq<CollectionStreams>,
    deduplicate_streams: Seq<usize>,
) -> Result<(), CollectionEdgeError> {
    if exists|c: int|
        0 <= c < collections.len() && !(#[trigger] collections[c]).retract_mode && edge_writes(
            edges,
            collections[c].stream,
        ) {
        Err(CollectionEdgeError::ChangelogInputNeedsRetract)
    } else if exists|d: int|
        0 <= d < deduplicate_streams.len() && carries_retractions(
            edges,
            collections,
            #[trigger] deduplicate_streams[d],
        ) {
        Err(CollectionEdgeError::RetractionsReachDeduplicate)
    } else {
        Ok(())
    }
}

/// Checks that collections read operator changelogs only in retract mode, and that no
/// collection's retractions can reach an append-only deduplicate.
pub fn check_collection_edges(
    edges: &[(Vec<usize>, usize)],
    nodes: usize,
    collections: &[CollectionStreams],
    deduplicate_streams: &[usize],
) -> (r: Result<(), CollectionEdgeError>)
    requires
        edges_within(edges@, nodes),
        forall|c: int|
            0 <= c < collections@.len() ==> output_within(
                (#[trigger] collections@[c]).edge_output,
                nodes,
            ),
    ensures
        r == spec_check_collection_edges(edges@, collections@, deduplicate_streams@),
{
    let mut c: usize = 0;
    while c < collections.len()
        invariant
            c <= collections@.len(),
            forall|k: int|
                0 <= k < c ==> !(!(#[trigger] collections@[k]).retract_mode && edge_writes(
                    edges@,
                    collections@[k].stream,
                )),
        decreases collections.len() - c,
    {
        if !collections[c].retract_mode {
            let mut e: usize = 0;
            while e < edges.len()
                invariant
                    e <= edges@.len(),
                    c < collections@.len(),
                    !collections@[c as int].retract_mode,
                    forall|f: int| 0 <= f < e ==> #[trigger] edges@[f].1 != collections@[c as int].stream,
                decreases edges.len() - e,
            {
                if edges[e].1 == collections[c].stream {
                    assert(edge_writes(edges@, collections@[c as int].stream));
                    assert(!(collections@[c as int]).retract_mode && edge_writes(
                        edges@,
                        collections@[c as int].stream,
                    ));
                    return Err(CollectionEdgeError::ChangelogInputNeedsRetract);
                }
                e = e + 1;
            }
        }
        c = c + 1;
    }
    let ghost changelog_ok = forall|k: int|
        0 <= k < collections@.len() ==> !(!(#[trigger] collections@[k]).retract_mode && edge_writes(
            edges@,
            collections@[k].stream,
        ));
    assert(changelog_ok);
    let mut sources: Vec<usize> = Vec::new();
    let mut c: usize = 0;
    while c < collections.len()
        invariant
            changelog_ok,
            changelog_ok == forall|k: int|
                0 <= k < collections@.len() ==> !(!(#[trigger] collections@[k]).retract_mode
                    && edge_writes(edges@, collections@[k].stream)),
            c <= collections@.len(),
            forall|k: int|
                0 <= k < collections@.len() ==> output_within(
                    (#[trigger] collections@[k]).edge_output,
                    nodes,
                ),
            forall|k: int| 0 <= k < sources@.len() ==> #[trigger] sources@[k] < nodes,
            forall|k: int|
                0 <= k < sources@.len() ==> from_collection(
                    collections@.take(c as int),
                    #[trigger] sources@[k],
                ),
            forall|j: int|
                0 <= j < c ==> output_listed((#[trigger] collections@[j]).edge_output, sources@),
        decreases collections.len() - c,
    {
        let ghost before = sources@;
        match collections[c].edge_output {
            Some(out) => {
                sources.push(out);
                assert(sources@[sources@.len() - 1] == out);
                assert forall|x: usize| before.contains(x) implies sources@.contains(x) by {
                    let i = choose|i: int| 0 <= i < before.len() && before[i] == x;
                    assert(sources@[i] == x);
                }
                assert forall|k: int| 0 <= k < sources@.len() implies from_collection(
                    collections@.take(c + 1),
                    #[trigger] sources@[k],
                ) by {
                    if k < before.len() {
                        assert(sources@[k] == before[k]);
                        assert(from_collection(collections@.take(c as int), before[k]));
                        let j = choose|j: int|
                            0 <= j < c && collections@.take(c as int)[j].edge_output == Some(
                                before[k],
                            );
                        assert(collections@.take(c + 1)[j] == collections@.take(c as int)[j]);
                    } else {
                        assert(collections@.take(c + 1)[c as int].edge_output == Some(sources@[k]));
                    }
                }
            },
            None => {},
        }
        c = c + 1;
    }
    assert(collections@.take(c as int) =~= collections@);
    let marked = reachable_from(edges, nodes, &sources);
    let mut d: usize = 0;
    while d < deduplicate_streams.len()
        invariant
            changelog_ok,
            changelog_ok == forall|k: int|
                0 <= k < collections@.len() ==> !(!(#[trigger] collections@[k]).retract_mode
                    && edge_writes(edges@, collections@[k].stream)),
            d <= deduplicate_streams@.len(),
            marked@.len() == nodes,
            edges_within(edges@, nodes),
            forall|k: int| 0 <= k < sources@.len() ==> #[trigger] sources@[k] < nodes,
            forall|v: int|
                0 <= v < nodes ==> (#[trigger] marked@[v] <==> exists|k: int|
                    0 <= k < sources@.len() && reaches(edges@, sources@[k], v as usize)),
            forall|k: int|
                0 <= k < sources@.len() ==> from_collection(collections@, #[trigger] sources@[k]),
            forall|j: int|
                0 <= j < collections@.len() ==> output_listed(
                    (#[trigger] collections@[j]).edge_output,
                    sources@,
                ),
            forall|k: int|
                0 <= k < d ==> !carries_retractions(edges@, collections@, #[trigger] deduplicate_streams@[k]),
        decreases deduplicate_streams.len() - d,
    {
        let stream = deduplicate_streams[d];
        if stream < nodes && marked[stream] {
            proof {
                let k = choose|k: int|
                    0 <= k < sources@.len() && reaches(edges@, sources@[k], stream);
                assert(from_collection(collections@, sources@[k]));
                let j = choose|j: int|
                    0 <= j < collections@.len() && collections@[j].edge_output == Some(
                        sources@[k],
                    );
                assert(output_reaches(edges@, collections@[j].edge_output, stream));
                assert(carries_retractions(edges@, collections@, deduplicate_streams@[d as int]));
            }
            return Err(CollectionEdgeError::RetractionsReachDeduplicate);
        }
        proof {
            if carries_retractions(edges@, collections@, stream) {
                let j = choose|j: int|
                    0 <= j < collections@.len() && output_reaches(
                        edges@,
                        (#[trigger] collections@[j]).edge_output,
                        stream,
                    );
                assert(output_listed(collections@[j].edge_output, sources@));
                let out = collections@[j].edge_output.unwrap();
                assert(sources@.contains(out));
                let k = choose|k: int| 0 <= k < sources@.len() && sources@[k] == out;
                if stream >= nodes {
                    lemma_reach_within(edges@, nodes, out, stream);
                } else {
                    assert(marked@[stream as int]);
                }
            }
        }
        d = d + 1;
    }
    Ok(())
}

} // verus!
