use vstd::prelude::*;

verus! {

/// Whether nodes `i` and `j` are electrically the same node once all of
/// `wires` are in place: the equivalence closure of the wire pairs, built one
/// wire at a time (a new wire joins the class of one end to that of the
/// other).
pub open spec fn joined(wires: Seq<(usize, usize)>, i: usize, j: usize) -> bool
    decreases wires.len(),
{
    if wires.len() == 0 {
        i == j
    } else {
        let pre = wires.drop_last();
        let x = wires.last().0;
        let y = wires.last().1;
        joined(pre, i, j) || (joined(pre, i, x) && joined(pre, y, j)) || (joined(pre, i, y)
            && joined(pre, x, j))
    }
}

/// Some entry of `ids` equals `v`.
pub open spec fn used(ids: Seq<usize>, v: int) -> bool {
    exists|i: int| 0 <= i < ids.len() && ids[i] == v
}

pub open spec fn wire_ends_below(wires: Seq<(usize, usize)>, n: nat) -> bool {
    forall|w: int| 0 <= w < wires.len() ==> (#[trigger] wires[w]).0 < n && wires[w].1 < n
}

/// Moves every node labelled like `x` to the label of `y`.
fn merge(labels: &mut Vec<usize>, x: usize, y: usize)
    requires
        x < old(labels)@.len(),
        y < old(labels)@.len(),
    ensures
        final(labels)@.len() == old(labels)@.len(),
        forall|k: int|
            0 <= k < old(labels)@.len() ==> #[trigger] final(labels)@[k] == if old(labels)@[k]
                == old(labels)@[x as int] {
                old(labels)@[y as int]
            } else {
                old(labels)@[k]
            },
{
    let from = labels[x];
    let to = labels[y];
    let mut k: usize = 0;
    while k < labels.len()
        invariant
            labels@.len() == old(labels)@.len(),
            from == old(labels)@[x as int],
            to == old(labels)@[y as int],
            k <= labels@.len(),
            forall|q: int|
                0 <= q < k ==> #[trigger] labels@[q] == if old(labels)@[q] == from {
                    to
                } else {
                    old(labels)@[q]
                },
            forall|q: int| k <= q < labels@.len() ==> #[trigger] labels@[q] == old(labels)@[q],
        decreases labels@.len() - k,
    {
        if labels[k] == from {
            labels.set(k, to);
        }
        k = k + 1;
    }
}

/// Labels each of `n_nodes` nodes with the class it belongs to once the
/// `wires` join their ends: two nodes get the same label exactly when the
/// wires join them.
pub fn node_classes(n_nodes: usize, wires: &Vec<(usize, usize)>) -> (r: Vec<usize>)
    requires
        wire_ends_below(wires@, n_nodes as nat),
    ensures
        r@.len() == n_nodes,
        forall|i: int| 0 <= i < n_nodes ==> #[trigger] r@[i] < n_nodes,
        forall|i: int, j: int|
            0 <= i < n_nodes && 0 <= j < n_nodes ==> (#[trigger] r@[i] == #[trigger] r@[j]
                <==> joined(wires@, i as usize, j as usize)),
{
    let mut labels: Vec<usize> = Vec::new();
    let mut i: usize = 0;
    while i < n_nodes
        invariant
            i <= n_nodes,
            labels@.len() == i,
            forall|q: int| 0 <= q < i ==> #[trigger] labels@[q] == q,
        decreases n_nodes - i,
    {
        labels.push(i);
        i = i + 1;
    }
    let mut w: usize = 0;
    while w < wires.len()
        invariant
            wire_ends_below(wires@, n_nodes as nat),
            labels@.len() == n_nodes,
            w <= wires@.len(),
            forall|q: int| 0 <= q < n_nodes ==> #[trigger] labels@[q] < n_nodes,
            forall|a: int, b: int|
                0 <= a < n_nodes && 0 <= b < n_nodes ==> (#[trigger] labels@[a] == #[trigger] labels@[b]
                    <==> joined(wires@.subrange(0, w as int), a as usize, b as usize)),
        decreases wires@.len() - w,
    {
        let (x, y) = wires[w];
        assert(wires@[w as int].0 < n_nodes);
        let ghost before = labels@;
        merge(&mut labels, x, y);
        proof {
            let pre = wires@.subrange(0, w as int);
            let cur = wires@.subrange(0, w + 1);
            assert(cur.drop_last() =~= pre);
            assert(cur.last() == (x, y));
            assert forall|a: int, b: int|
                0 <= a < n_nodes && 0 <= b < n_nodes implies (#[trigger] labels@[a]
                == #[trigger] labels@[b] <==> joined(cur, a as usize, b as usize)) by {
                assert(joined(pre, a as usize, x) == (before[a] == before[x as int]));
                assert(joined(pre, y, b as usize) == (before[y as int] == before[b]));
                assert(joined(pre, a as usize, y) == (before[a] == before[y as int]));
                assert(joined(pre, x, b as usize) == (before[x as int] == before[b]));
            }
        }
        w = w + 1;
    }
    assert(wires@.subrange(0, wires@.len() as int) =~= wires@);
    labels
}

/// Renumbers labels into the contiguous range `0..count`, in order of first
/// appearance: two entries get the same id exactly when they had the same
/// label, and every id below `count` is used.
pub fn compact_ids(labels: &Vec<usize>) -> (r: (Vec<usize>, usize))
    requires
        forall|i: int| 0 <= i < labels@.len() ==> #[trigger] labels@[i] < labels@.len(),
    ensures
        r.0@.len() == labels@.len(),
        forall|i: int| 0 <= i < labels@.len() ==> #[trigger] r.0@[i] < r.1,
        forall|v: int| 0 <= v < r.1 ==> #[trigger] used(r.0@, v),
        forall|i: int, j: int|
            0 <= i < labels@.len() && 0 <= j < labels@.len() ==> (#[trigger] r.0@[i]
                == #[trigger] r.0@[j] <==> labels@[i] == labels@[j]),
{
    let n = labels.len();
    let mut id_of: Vec<Option<usize>> = Vec::new();
    let mut k: usize = 0;
    while k < n
        invariant
            n == labels@.len(),
            k <= n,
            id_of@.len() == k,
            forall|q: int| 0 <= q < k ==> #[trigger] id_of@[q] is None,
        decreases n - k,
    {
        id_of.push(None);
        k = k + 1;
    }
    let mut ids: Vec<usize> = Vec::new();
    let mut count: usize = 0;
    let mut i: usize = 0;
    while i < n
        invariant
            n == labels@.len(),
            id_of@.len() == n,
            forall|q: int| 0 <= q < n ==> #[trigger] labels@[q] < n,
            i <= n,
            ids@.len() == i,
            count <= i,
            forall|q: int| 0 <= q < i ==> id_of@[#[trigger] labels@[q] as int] == Some(ids@[q]),
            forall|l: int|
                0 <= l < n ==> (#[trigger] id_of@[l] matches Some(v) ==> v < count),
            forall|l1: int, l2: int|
                0 <= l1 < n && 0 <= l2 < n && #[trigger] id_of@[l1] is Some && id_of@[l1]
                    == #[trigger] id_of@[l2] ==> l1 == l2,
            forall|q: int| 0 <= q < i ==> #[trigger] ids@[q] < count,
            forall|v: int| 0 <= v < count ==> #[trigger] used(ids@, v),
        decreases n - i,
    {
        let l = labels[i];
        let id = match id_of[l] {
            Some(v) => v,
            None => {
                let v = count;
                id_of.set(l, Some(v));
                count = count + 1;
                v
            },
        };
        let ghost ids_before = ids@;
        ids.push(id);
        proof {
            assert forall|v: int| 0 <= v < count implies #[trigger] used(ids@, v) by {
                if v == id {
                    assert(ids@[i as int] == v);
                } else {
                    assert(used(ids_before, v));
                    let q = choose|q: int| 0 <= q < ids_before.len() && #[trigger] ids_before[q] == v;
                    assert(ids@[q] == v);
                }
            }
        }
        i = i + 1;
    }
    proof {
        assert forall|a: int, b: int|
            0 <= a < n && 0 <= b < n implies (#[trigger] ids@[a] == #[trigger] ids@[b]
            <==> labels@[a] == labels@[b]) by {
            assert(id_of@[labels@[a] as int] == Some(ids@[a]));
            assert(id_of@[labels@[b] as int] == Some(ids@[b]));
        }
    }
    (ids, count)
}

/// Resolves the wiring of a drawing into circuit node ids: `n_nodes` drawn
/// nodes, joined by `wires`, get ids in the contiguous range `0..count`,
/// with two drawn nodes sharing an id exactly when the wires join them.
pub fn canonical_node_ids(n_nodes: usize, wires: &Vec<(usize, usize)>) -> (r: (Vec<usize>, usize))
    requires
        wire_ends_below(wires@, n_nodes as nat),
    ensures
        r.0@.len() == n_nodes,
        forall|i: int| 0 <= i < n_nodes ==> #[trigger] r.0@[i] < r.1,
        forall|v: int| 0 <= v < r.1 ==> #[trigger] used(r.0@, v),
        forall|i: int, j: int|
            0 <= i < n_nodes && 0 <= j < n_nodes ==> (#[trigger] r.0@[i] == #[trigger] r.0@[j]
                <==> joined(wires@, i as usize, j as usize)),
{
    let classes = node_classes(n_nodes, wires);
    let r = compact_ids(&classes);
    proof {
        assert forall|i: int, j: int|
            0 <= i < n_nodes && 0 <= j < n_nodes implies (#[trigger] r.0@[i] == #[trigger] r.0@[j]
            <==> joined(wires@, i as usize, j as usize)) by {
            assert(classes@[i] == classes@[j] <==> joined(wires@, i as usize, j as usize));
        }
    }
    r
}

/// Every node is joined to itself, whatever the wires.
pub proof fn lemma_joined_reflexive(wires: Seq<(usize, usize)>, i: usize)
    ensures
        joined(wires, i, i),
    decreases wires.len(),
{
    if wires.len() > 0 {
        lemma_joined_reflexive(wires.drop_last(), i);
    }
}

/// The two ends of every wire are joined, so they get the same node id.
pub proof fn lemma_wire_ends_joined(wires: Seq<(usize, usize)>, w: int)
    requires
        0 <= w < wires.len(),
    ensures
        joined(wires, wires[w].0, wires[w].1),
    decreases wires.len(),
{
    let pre = wires.drop_last();
    if w == wires.len() - 1 {
        lemma_joined_reflexive(pre, wires[w].0);
        lemma_joined_reflexive(pre, wires[w].1);
    } else {
        lemma_wire_ends_joined(pre, w);
        assert(pre[w] == wires[w]);
    }
}

} // verus!
