use vstd::prelude::*;
use vstd::seq_lib::{to_multiset_build, to_multiset_contains, to_multiset_insert};
use rand::Rng;

verus! {

/// `s` is in non-decreasing order of `key`.
pub open spec fn sorted_along(key: Seq<u32>, s: Seq<usize>) -> bool {
    forall|i: int, j: int| 0 <= i < j < s.len() ==> key[s[i] as int] <= key[s[j] as int]
}

/// Every entry of `s` is an index into `key`.
pub open spec fn indexes_into(s: Seq<usize>, n: int) -> bool {
    forall|i: int| 0 <= i < s.len() ==> #[trigger] s[i] < n
}

/// `items` in non-decreasing order of their keys (a stable insertion sort).
pub fn sort_along(key: &Vec<u32>, items: &Vec<usize>) -> (r: Vec<usize>)
    requires
        indexes_into(items@, key@.len() as int),
    ensures
        r@.to_multiset() == items@.to_multiset(),
        sorted_along(key@, r@),
        indexes_into(r@, key@.len() as int),
{
    broadcast use to_multiset_build, to_multiset_insert;

    let mut out: Vec<usize> = Vec::new();
    let mut idx: usize = 0;
    assert(items@.take(0) =~= out@);
    while idx < items.len()
        invariant
            indexes_into(items@, key@.len() as int),
            idx <= items@.len(),
            out@.to_multiset() == items@.take(idx as int).to_multiset(),
            sorted_along(key@, out@),
            indexes_into(out@, key@.len() as int),
        decreases items@.len() - idx,
    {
        let x = items[idx];
        let kx = key[x];
        let mut p: usize = 0;
        while p < out.len() && key[out[p]] <= kx
            invariant
                p <= out@.len(),
                indexes_into(out@, key@.len() as int),
                forall|q: int| 0 <= q < p ==> key[#[trigger] out@[q] as int] <= kx,
            decreases out@.len() - p,
        {
            p += 1;
        }
        let ghost before = out@;
        out.insert(p, x);
        proof {
            assert(items@.take(idx as int + 1) =~= items@.take(idx as int).push(x));
            to_multiset_insert(before, p as int, x);
            to_multiset_build(items@.take(idx as int), x);
            assert forall|i: int, j: int| 0 <= i < j < out@.len() implies key[out@[i] as int]
                <= key[out@[j] as int] by {
                if j < p {
                } else if j == p {
                } else if i < p {
                    assert(key[before[i] as int] <= kx);
                    assert(key[before[p as int] as int] > kx);
                    assert(key[before[p as int] as int] <= key[before[j - 1] as int]);
                } else if i == p {
                    assert(key[before[p as int] as int] > kx);
                    assert(key[before[p as int] as int] <= key[before[j - 1] as int]);
                } else {
                    assert(key[before[i - 1] as int] <= key[before[j - 1] as int]);
                }
            }
            assert forall|i: int| 0 <= i < out@.len() implies #[trigger] out@[i] < key@.len() by {
                if i < p {
                } else if i == p {
                } else {
                    assert(out@[i] == before[i - 1]);
                }
            }
        }
        idx += 1;
    }
    assert(items@.take(items@.len() as int) =~= items@);
    out
}


/// Relies on rand's `Rng::gen_range(0, 3)` with the thread-local generator,
/// which returns a value of the half-open range `0..3`.
#[verifier::external_body]
fn random_axis() -> (r: usize)
    ensures
        r < 3,
{
    rand::thread_rng().gen_range(0, 3)
}

/// One slot of a hierarchy node: a primitive of the list it was built from,
/// or an earlier node of the layout.
#[derive(Debug, Clone, Copy, PartialEq, Eq)]
pub enum BvhChild {
    Item(usize),
    Node(usize),
}

/// An inner node of the hierarchy: the axis its primitives were sorted along
/// and its two children. A lone primitive fills both slots.
#[derive(Debug, Clone, Copy, PartialEq, Eq)]
pub struct BvhLink {
    pub axis: usize,
    pub left: BvhChild,
    pub right: BvhChild,
}

/// The shape of a bounding-volume hierarchy over a list of primitives, kept
/// as a flat arena: children come before their parent and the root is last.
#[derive(Debug, Clone)]
pub struct BvhLayout {
    pub nodes: Vec<BvhLink>,
}

/// Per-axis sort keys of `n` primitives (the minimum corner of each one's
/// bounding box, in an order-preserving integer form): three rows of `n`.
pub open spec fn keys_wf(keys: Seq<Vec<u32>>, n: int) -> bool {
    &&& keys.len() == 3
    &&& forall|a: int| 0 <= a < 3 ==> #[trigger] keys[a]@.len() == n
}

pub open spec fn child_ok(c: BvhChild, below: int, n: int) -> bool {
    match c {
        BvhChild::Item(x) => x < n,
        BvhChild::Node(i) => i < below,
    }
}

/// Every slot names a primitive of the list or an earlier node.
pub open spec fn links_wf(nodes: Seq<BvhLink>, n: int) -> bool {
    forall|i: int|
        0 <= i < nodes.len() ==> {
            &&& (#[trigger] nodes[i]).axis < 3
            &&& child_ok(nodes[i].left, i, n)
            &&& child_ok(nodes[i].right, i, n)
        }
}

/// The primitives reachable from node `i`.
pub open spec fn subtree_items(nodes: Seq<BvhLink>, i: int) -> Set<usize>
    decreases i,
{
    if 0 <= i < nodes.len() {
        let left = match nodes[i].left {
            BvhChild::Item(x) => set![x],
            BvhChild::Node(c) => if c < i {
                subtree_items(nodes, c as int)
            } else {
                Set::empty()
            },
        };
        let right = match nodes[i].right {
            BvhChild::Item(x) => set![x],
            BvhChild::Node(c) => if c < i {
                subtree_items(nodes, c as int)
            } else {
                Set::empty()
            },
        };
        left.union(right)
    } else {
        Set::empty()
    }
}

/// The primitives reachable from one slot.
pub open spec fn child_items(nodes: Seq<BvhLink>, c: BvhChild) -> Set<usize> {
    match c {
        BvhChild::Item(x) => set![x],
        BvhChild::Node(i) => subtree_items(nodes, i as int),
    }
}

/// Node `i` splits along its axis: no primitive on its left sorts after one
/// on its right.
pub open spec fn node_ordered(nodes: Seq<BvhLink>, keys: Seq<Vec<u32>>, i: int) -> bool {
    let link = nodes[i];
    forall|a: usize, b: usize|
        #[trigger] child_items(nodes, link.left).contains(a) && #[trigger] child_items(
            nodes,
            link.right,
        ).contains(b) ==> keys[link.axis as int]@[a as int] <= keys[link.axis as int]@[b as int]
}

/// Node `i` follows the construction rule: its two slots are both
/// primitives (a lone primitive twice, or two of them), or both nodes, which
/// then share no primitive and of at least three primitives the left one
/// holds the first half, rounded down.
pub open spec fn node_shaped(nodes: Seq<BvhLink>, i: int) -> bool {
    let link = nodes[i];
    match (link.left, link.right) {
        (BvhChild::Item(_), BvhChild::Item(_)) => true,
        (BvhChild::Node(_), BvhChild::Node(_)) => {
            let left = child_items(nodes, link.left);
            let right = child_items(nodes, link.right);
            &&& left.disjoint(right)
            &&& left.len() + right.len() >= 3
            &&& left.len() == (left.len() + right.len()) / 2
        },
        _ => false,
    }
}

pub open spec fn all_shaped(nodes: Seq<BvhLink>) -> bool {
    forall|i: int| 0 <= i < nodes.len() ==> #[trigger] node_shaped(nodes, i)
}

pub open spec fn all_ordered(nodes: Seq<BvhLink>, keys: Seq<Vec<u32>>) -> bool {
    forall|i: int| 0 <= i < nodes.len() ==> #[trigger] node_ordered(nodes, keys, i)
}

pub open spec fn extends(longer: Seq<BvhLink>, shorter: Seq<BvhLink>) -> bool {
    &&& shorter.len() <= longer.len()
    &&& forall|j: int| 0 <= j < shorter.len() ==> #[trigger] longer[j] == shorter[j]
}

proof fn lemma_extends_subtree(a: Seq<BvhLink>, b: Seq<BvhLink>, i: int)
    requires
        extends(b, a),
        0 <= i < a.len(),
    ensures
        subtree_items(b, i) == subtree_items(a, i),
    decreases i,
{
    assert(b[i] == a[i]);
    if let BvhChild::Node(c) = a[i].left {
        if c < i {
            lemma_extends_subtree(a, b, c as int);
        }
    }
    if let BvhChild::Node(c) = a[i].right {
        if c < i {
            lemma_extends_subtree(a, b, c as int);
        }
    }
}

proof fn lemma_extends_child(a: Seq<BvhLink>, b: Seq<BvhLink>, c: BvhChild, below: int, n: int)
    requires
        extends(b, a),
        below <= a.len(),
        child_ok(c, below, n),
    ensures
        child_items(b, c) == child_items(a, c),
{
    if let BvhChild::Node(i) = c {
        lemma_extends_subtree(a, b, i as int);
    }
}

proof fn lemma_extends_ordered(a: Seq<BvhLink>, b: Seq<BvhLink>, keys: Seq<Vec<u32>>, n: int)
    requires
        extends(b, a),
        links_wf(a, n),
        all_ordered(a, keys),
        all_shaped(a),
    ensures
        forall|i: int| 0 <= i < a.len() ==> #[trigger] node_ordered(b, keys, i),
        forall|i: int| 0 <= i < a.len() ==> #[trigger] node_shaped(b, i),
{
    assert forall|i: int| 0 <= i < a.len() implies #[trigger] node_ordered(b, keys, i) by {
        assert(a[i] == b[i]);
        assert(node_ordered(a, keys, i));
        lemma_extends_child(a, b, a[i].left, i, n);
        lemma_extends_child(a, b, a[i].right, i, n);
    }
    assert forall|i: int| 0 <= i < a.len() implies #[trigger] node_shaped(b, i) by {
        assert(a[i] == b[i]);
        assert(node_shaped(a, i));
        lemma_extends_child(a, b, a[i].left, i, n);
        lemma_extends_child(a, b, a[i].right, i, n);
    }
}

proof fn lemma_subtree_unfold(nodes: Seq<BvhLink>, n: int, i: int)
    requires
        links_wf(nodes, n),
        0 <= i < nodes.len(),
    ensures
        subtree_items(nodes, i) == child_items(nodes, nodes[i].left).union(
            child_items(nodes, nodes[i].right),
        ),
{
    assert(child_ok(nodes[i].left, i, n));
    assert(child_ok(nodes[i].right, i, n));
}

/// `v[lo..hi]` as a vector of its own.
fn copy_range(v: &Vec<usize>, lo: usize, hi: usize) -> (r: Vec<usize>)
    requires
        lo <= hi <= v@.len(),
    ensures
        r@ == v@.subrange(lo as int, hi as int),
{
    let mut out: Vec<usize> = Vec::new();
    let mut i: usize = lo;
    while i < hi
        invariant
            lo <= i <= hi <= v@.len(),
            out@ == v@.subrange(lo as int, i as int),
        decreases hi - i,
    {
        out.push(v[i]);
        proof {
            assert(v@.subrange(lo as int, i + 1) =~= v@.subrange(lo as int, i as int).push(v@[i as int]));
        }
        i += 1;
    }
    out
}

/// Adds the node for `items` and the nodes below it, after the nodes that
/// are already there, and returns its index. Along a random axis the items
/// are sorted by key; one item fills both slots, two items take one slot
/// each, and more are split at the midpoint into two halves.
fn build_node(keys: &Vec<Vec<u32>>, n: usize, items: &Vec<usize>, nodes: &mut Vec<BvhLink>) -> (r: usize)
    requires
        keys_wf(keys@, n as int),
        items@.len() >= 1,
        items@.no_duplicates(),
        indexes_into(items@, n as int),
        links_wf(old(nodes)@, n as int),
        all_ordered(old(nodes)@, keys@),
        all_shaped(old(nodes)@),
    ensures
        extends(final(nodes)@, old(nodes)@),
        r == final(nodes)@.len() - 1,
        r >= old(nodes)@.len(),
        links_wf(final(nodes)@, n as int),
        all_ordered(final(nodes)@, keys@),
        all_shaped(final(nodes)@),
        subtree_items(final(nodes)@, r as int) == items@.to_set(),
    decreases items@.len(),
{
    broadcast use to_multiset_contains;

    let axis = random_axis();
    let sorted = sort_along(&keys[axis], items);
    let m = sorted.len();
    proof {
        assert forall|x: usize| sorted@.contains(x) <==> items@.contains(x) by {
            assert(sorted@.to_multiset().count(x) == items@.to_multiset().count(x));
        }
        assert(sorted@.to_set() =~= items@.to_set());
        assert(m == items@.len()) by {
            vstd::seq_lib::to_multiset_len(sorted@);
            vstd::seq_lib::to_multiset_len(items@);
        }
        items@.lemma_multiset_has_no_duplicates();
        assert forall|x: usize| sorted@.to_multiset().contains(x) implies sorted@.to_multiset().count(
            x,
        ) == 1 by {
            assert(items@.to_multiset().contains(x));
        }
        sorted@.lemma_multiset_has_no_duplicates_conv();
    }
    let ghost start = nodes@;
    if m == 1 {
        let x = sorted[0];
        nodes.push(BvhLink { axis, left: BvhChild::Item(x), right: BvhChild::Item(x) });
        proof {
            let i = nodes@.len() - 1;
            lemma_subtree_unfold(nodes@, n as int, i);
            assert(sorted@.to_set() =~= set![x]) by {
                assert(sorted@ =~= seq![x]);
            }
            assert(set![x].union(set![x]) =~= set![x]);
            lemma_extends_ordered(start, nodes@, keys@, n as int);
        }
    } else if m == 2 {
        let x = sorted[0];
        let y = sorted[1];
        nodes.push(BvhLink { axis, left: BvhChild::Item(x), right: BvhChild::Item(y) });
        proof {
            let i = nodes@.len() - 1;
            lemma_subtree_unfold(nodes@, n as int, i);
            assert(sorted@.to_set() =~= set![x].union(set![y])) by {
                assert(sorted@ =~= seq![x, y]);
            }
            lemma_extends_ordered(start, nodes@, keys@, n as int);
            assert(node_ordered(nodes@, keys@, i));
        }
    } else {
        let half = m / 2;
        let first = copy_range(&sorted, 0, half);
        let second = copy_range(&sorted, half, m);
        proof {
            assert(sorted@ =~= first@ + second@);
            assert(first@.no_duplicates()) by {
                assert forall|i: int, j: int| 0 <= i < j < first@.len() implies first@[i] != first@[j] by {
                    assert(first@[i] == sorted@[i] && first@[j] == sorted@[j]);
                }
            }
            assert(second@.no_duplicates()) by {
                assert forall|i: int, j: int| 0 <= i < j < second@.len() implies second@[i]
                    != second@[j] by {
                    assert(second@[i] == sorted@[i + half] && second@[j] == sorted@[j + half]);
                }
            }
        }
        let l = build_node(keys, n, &first, nodes);
        let ghost mid = nodes@;
        let r = build_node(keys, n, &second, nodes);
        let ghost before = nodes@;
        nodes.push(BvhLink { axis, left: BvhChild::Node(l), right: BvhChild::Node(r) });
        proof {
            let i = nodes@.len() - 1;
            lemma_extends_ordered(before, nodes@, keys@, n as int);
            lemma_subtree_unfold(nodes@, n as int, i);
            lemma_extends_subtree(mid, nodes@, l as int);
            lemma_extends_subtree(before, nodes@, r as int);
            assert(child_items(nodes@, BvhChild::Node(l)) == first@.to_set());
            assert(child_items(nodes@, BvhChild::Node(r)) == second@.to_set());
            assert(sorted@.to_set() =~= first@.to_set().union(second@.to_set())) by {
                assert forall|x: usize| #[trigger] sorted@.contains(x) implies first@.to_set().union(
                    second@.to_set(),
                ).contains(x) by {
                    let k = choose|k: int| 0 <= k < sorted@.len() && sorted@[k] == x;
                    if k < half {
                        assert(first@[k] == x);
                    } else {
                        assert(second@[k - half] == x);
                    }
                }
                assert forall|x: usize| #[trigger] first@.contains(x) implies sorted@.contains(x) by {
                    let k = choose|k: int| 0 <= k < first@.len() && first@[k] == x;
                    assert(sorted@[k] == x);
                }
                assert forall|x: usize| #[trigger] second@.contains(x) implies sorted@.contains(x) by {
                    let k = choose|k: int| 0 <= k < second@.len() && second@[k] == x;
                    assert(sorted@[k + half] == x);
                }
            }
            assert forall|a: usize, b: usize|
                #[trigger] first@.to_set().contains(a) && #[trigger] second@.to_set().contains(b)
                implies keys@[axis as int]@[a as int] <= keys@[axis as int]@[b as int] by {
                let ka = choose|k: int| 0 <= k < first@.len() && first@[k] == a;
                let kb = choose|k: int| 0 <= k < second@.len() && second@[k] == b;
                assert(sorted@[ka] == a);
                assert(sorted@[kb + half] == b);
            }
            assert(node_ordered(nodes@, keys@, i));
            first@.unique_seq_to_set();
            second@.unique_seq_to_set();
            assert(first@.to_set().disjoint(second@.to_set())) by {
                assert forall|x: usize| #[trigger] first@.to_set().contains(x) implies !second@.to_set().contains(
                    x,
                ) by {
                    let ka = choose|k: int| 0 <= k < first@.len() && first@[k] == x;
                    if second@.contains(x) {
                        let kb = choose|k: int| 0 <= k < second@.len() && second@[k] == x;
                        assert(sorted@[ka] == x);
                        assert(sorted@[kb + half] == x);
                    }
                }
            }
            assert(node_shaped(nodes@, i));
        }
    }
    nodes.len() - 1
}

impl BvhLayout {
    /// Index of the root node.
    pub open spec fn spec_root(&self) -> int {
        self.nodes@.len() - 1
    }

    /// The hierarchy over primitives `0..n`, where `n` is the length of each
    /// row of `keys`: a well-formed arena whose root reaches every primitive
    /// and no other, and whose every node splits along its axis.
    pub fn new(keys: &Vec<Vec<u32>>) -> (r: Self)
        requires
            keys_wf(keys@, keys@[0]@.len() as int),
            keys@[0]@.len() >= 1,
        ensures
            r.nodes@.len() >= 1,
            links_wf(r.nodes@, keys@[0]@.len() as int),
            all_ordered(r.nodes@, keys@),
            all_shaped(r.nodes@),
            subtree_items(r.nodes@, r.spec_root()) == Set::new(|x: usize| x < keys@[0]@.len()),
    {
        let n = keys[0].len();
        let mut items: Vec<usize> = Vec::new();
        let mut i: usize = 0;
        while i < n
            invariant
                i <= n,
                items@.len() == i,
                forall|k: int| 0 <= k < i ==> #[trigger] items@[k] == k,
            decreases n - i,
        {
            items.push(i);
            i += 1;
        }
        let mut nodes: Vec<BvhLink> = Vec::new();
        assert(items@.no_duplicates());
        let root = build_node(keys, n, &items, &mut nodes);
        proof {
            assert forall|x: usize| items@.to_set().contains(x) <==> x < n by {
                if x < n {
                    assert(items@[x as int] == x);
                }
            }
            assert(items@.to_set() =~= Set::new(|x: usize| x < n));
        }
        BvhLayout { nodes }
    }

    /// Index of the root node, the last of the arena.
    pub fn root(&self) -> (r: usize)
        requires
            self.nodes@.len() >= 1,
        ensures
            r == self.spec_root(),
    {
        self.nodes.len() - 1
    }
}

} // verus!
