use vstd::prelude::*;

verus! {

/// A place in the list's store of nodes, or none.
type Link = Option<usize>;

struct Node<T> {
    prev: Link,
    next: Link,
    elem: T,
}

/// A doubly linked list. The nodes live in a store and name their
/// neighbours by their places in it; places that a removed node has left are
/// used again.
pub struct LinkedList<T> {
    nodes: Vec<Option<Node<T>>>,
    free: Vec<usize>,
    head: Link,
    tail: Link,
    len: usize,
    order: Ghost<Seq<usize>>,
}

/// The link to the node at position `i` of `order`, if there is one.
spec fn link_at(order: Seq<usize>, i: int) -> Link {
    if 0 <= i < order.len() {
        Some(order[i])
    } else {
        None
    }
}

/// What the store holds at the place of the list's node at position `i`.
spec fn node_of<T>(nodes: Seq<Option<Node<T>>>, order: Seq<usize>, i: int) -> Option<Node<T>> {
    nodes[order[i] as int]
}

/// The places of `order` hold nodes.
spec fn filled<T>(nodes: Seq<Option<Node<T>>>, order: Seq<usize>) -> bool {
    forall|i: int|
        0 <= i < order.len() ==> {
            &&& (#[trigger] order[i]) < nodes.len()
            &&& nodes[order[i] as int] is Some
        }
}

/// The nodes at the places of `order` are linked in that order.
spec fn linked<T>(nodes: Seq<Option<Node<T>>>, order: Seq<usize>) -> bool {
    forall|i: int|
        0 <= i < order.len() ==> {
            &&& #[trigger] node_of(nodes, order, i) matches Some(node)
            &&& node.prev == link_at(order, i - 1)
            &&& node.next == link_at(order, i + 1)
        }
}

/// The places of `free` are empty.
spec fn unused<T>(nodes: Seq<Option<Node<T>>>, free: Seq<usize>) -> bool {
    forall|k: int|
        0 <= k < free.len() ==> {
            &&& (#[trigger] free[k]) < nodes.len()
            &&& nodes[free[k] as int] is None
        }
}

/// The store holds the nodes of the list, linked in the order of the list,
/// and all its other places are empty and free.
#[verifier::opaque]
spec fn inv<T>(nodes: Seq<Option<Node<T>>>, free: Seq<usize>, order: Seq<usize>) -> bool {
    &&& order.no_duplicates()
    &&& free.no_duplicates()
    &&& order.len() + free.len() == nodes.len()
    &&& filled(nodes, order)
    &&& linked(nodes, order)
    &&& unused(nodes, free)
}

/// The elements of the nodes at the places of `order`.
spec fn elems<T>(nodes: Seq<Option<Node<T>>>, order: Seq<usize>) -> Seq<T> {
    Seq::new(order.len(), |i: int| nodes[order[i] as int].unwrap().elem)
}

/// The place that the next new node gets: the last free one, or a new one.
spec fn place_at<T>(nodes: Seq<Option<Node<T>>>, free: Seq<usize>) -> usize {
    if free.len() > 0 {
        free.last()
    } else {
        nodes.len() as usize
    }
}

/// The store after `node` was put at its place.
spec fn place_nodes<T>(nodes: Seq<Option<Node<T>>>, free: Seq<usize>, node: Node<T>) -> Seq<
    Option<Node<T>>,
> {
    if free.len() > 0 {
        nodes.update(free.last() as int, Some(node))
    } else {
        nodes.push(Some(node))
    }
}

/// The free places after a node was put at its place.
spec fn place_free(free: Seq<usize>) -> Seq<usize> {
    if free.len() > 0 {
        free.drop_last()
    } else {
        free
    }
}

/// The store with the link to the node before changed in the node at `p`.
spec fn with_prev<T>(nodes: Seq<Option<Node<T>>>, p: usize, prev: Link) -> Seq<Option<Node<T>>> {
    nodes.update(p as int, Some(Node { prev, ..nodes[p as int].unwrap() }))
}

/// The store with the link to the node behind changed in the node at `p`.
spec fn with_next<T>(nodes: Seq<Option<Node<T>>>, p: usize, next: Link) -> Seq<Option<Node<T>>> {
    nodes.update(p as int, Some(Node { next, ..nodes[p as int].unwrap() }))
}

/// The node at position `i` of the list is in the store, with its links.
proof fn lemma_node_at<T>(
    nodes: Seq<Option<Node<T>>>,
    free: Seq<usize>,
    order: Seq<usize>,
    i: int,
)
    requires
        inv(nodes, free, order),
        0 <= i < order.len(),
    ensures
        order[i] < nodes.len(),
        nodes[order[i] as int] matches Some(node) && node.prev == link_at(order, i - 1)
            && node.next == link_at(order, i + 1) && node.elem == elems(nodes, order)[i],
        order.len() <= nodes.len(),
{
    reveal(inv);
    assert(node_of(nodes, order, i) is Some);
}

/// A store without places holds the empty list.
proof fn lemma_empty<T>()
    ensures
        inv(Seq::<Option<Node<T>>>::empty(), Seq::<usize>::empty(), Seq::<usize>::empty()),
{
    reveal(inv);
}

/// Putting a node at its place keeps the old nodes as they are, at a place
/// that none of them has.
proof fn lemma_place<T>(
    nodes: Seq<Option<Node<T>>>,
    free: Seq<usize>,
    order: Seq<usize>,
    node: Node<T>,
)
    requires
        inv(nodes, free, order),
        nodes.len() <= usize::MAX,
    ensures
        ({
            let at = place_at(nodes, free);
            let after = place_nodes(nodes, free, node);
            let rest = place_free(free);
            &&& at < after.len()
            &&& nodes.len() <= after.len()
            &&& after[at as int] == Some(node)
            &&& order.len() + rest.len() + 1 == after.len()
            &&& rest.no_duplicates()
            &&& unused(after, rest)
            &&& forall|k: int| 0 <= k < rest.len() ==> rest[k] != at
            &&& forall|i: int| 0 <= i < order.len() ==> #[trigger] order[i] != at
            &&& forall|p: int| 0 <= p < nodes.len() && p != at ==> #[trigger] after[p] == nodes[p]
        }),
{
    reveal(inv);
    let at = place_at(nodes, free);
    let rest = place_free(free);
    let after = place_nodes(nodes, free, node);
    if free.len() > 0 {
        assert(free[free.len() - 1] == at);
        assert forall|k: int| 0 <= k < rest.len() implies rest[k] != at by {
            assert(rest[k] == free[k]);
        }
        assert forall|k: int| 0 <= k < rest.len() implies {
            &&& (#[trigger] rest[k]) < after.len()
            &&& after[rest[k] as int] is None
        } by {
            assert(rest[k] == free[k]);
        }
        assert forall|i: int, j: int| 0 <= i < rest.len() && 0 <= j < rest.len() && i
            != j implies rest[i] != rest[j] by {
            assert(rest[i] == free[i] && rest[j] == free[j]);
        }
        assert forall|i: int| 0 <= i < order.len() implies #[trigger] order[i] != at by {
            assert(nodes[order[i] as int] is Some);
        }
    } else {
        assert forall|i: int| 0 <= i < order.len() implies #[trigger] order[i] != at by {
            assert(order[i] < nodes.len());
        }
    }
}

/// Linking a new node in front of the first gives the list with the new
/// element in front.
proof fn lemma_push_front<T>(
    nodes: Seq<Option<Node<T>>>,
    free: Seq<usize>,
    order: Seq<usize>,
    t: T,
)
    requires
        inv(nodes, free, order),
        nodes.len() <= usize::MAX,
    ensures
        ({
            let at = place_at(nodes, free);
            let placed = place_nodes(
                nodes,
                free,
                Node { prev: None, next: link_at(order, 0), elem: t },
            );
            let after = if order.len() > 0 {
                with_prev(placed, order[0], Some(at))
            } else {
                placed
            };
            let grown = seq![at] + order;
            &&& order.len() > 0 ==> order[0] < placed.len() && placed[order[0] as int] is Some
            &&& inv(after, place_free(free), grown)
            &&& elems(after, grown) == seq![t] + elems(nodes, order)
            &&& order.len() + 1 <= after.len()
        }),
{
    let node = Node { prev: None, next: link_at(order, 0), elem: t };
    lemma_place(nodes, free, order, node);
    reveal(inv);
    let at = place_at(nodes, free);
    let placed = place_nodes(nodes, free, node);
    let rest = place_free(free);
    let after = if order.len() > 0 {
        with_prev(placed, order[0], Some(at))
    } else {
        placed
    };
    let grown = seq![at] + order;
    if order.len() > 0 {
        assert(order[0] != at);
        assert(placed[order[0] as int] == nodes[order[0] as int]);
    }
    assert forall|i: int, j: int| 0 <= i < grown.len() && 0 <= j < grown.len() && i
        != j implies grown[i] != grown[j] by {
        if i > 0 && j > 0 {
            assert(order[i - 1] != order[j - 1]);
        } else if i > 0 {
            assert(grown[i] == order[i - 1]);
        } else {
            assert(grown[j] == order[j - 1]);
        }
    }
    assert forall|i: int| 0 <= i < grown.len() implies {
        &&& (#[trigger] grown[i]) < after.len()
        &&& after[grown[i] as int] is Some
    } by {
        if i > 0 {
            assert(grown[i] == order[i - 1]);
            assert(order[i - 1] != at);
        }
    }
    assert forall|i: int| 0 <= i < grown.len() implies {
        &&& #[trigger] node_of(after, grown, i) matches Some(n)
        &&& n.prev == link_at(grown, i - 1)
        &&& n.next == link_at(grown, i + 1)
    } by {
        if i == 1 {
            assert(grown[1] == order[0]);
            assert(node_of(nodes, order, 0) is Some);
            assert(link_at(order, 1) == link_at(grown, 2));
        } else if i > 1 {
            assert(grown[i] == order[i - 1]);
            assert(node_of(nodes, order, i - 1) is Some);
            assert(order[i - 1] != order[0]);
            assert(order[i - 1] != at);
            assert(placed[order[i - 1] as int] == nodes[order[i - 1] as int]);
            assert(link_at(order, i - 2) == link_at(grown, i - 1));
            assert(link_at(order, i) == link_at(grown, i + 1));
        }
    }
    assert forall|k: int| 0 <= k < rest.len() implies {
        &&& (#[trigger] rest[k]) < after.len()
        &&& after[rest[k] as int] is None
    } by {
        assert(placed[rest[k] as int] is None);
    }
    assert forall|i: int| 0 <= i < grown.len() implies elems(after, grown)[i] == (seq![t] + elems(
        nodes,
        order,
    ))[i] by {
        if i == 1 {
            assert(grown[1] == order[0]);
        } else if i > 1 {
            assert(grown[i] == order[i - 1]);
            assert(order[i - 1] != order[0]);
            assert(order[i - 1] != at);
            assert(placed[order[i - 1] as int] == nodes[order[i - 1] as int]);
        }
    }
    assert(elems(after, grown) =~= seq![t] + elems(nodes, order));
}

/// Linking a new node behind the last gives the list with the new element
/// at the back.
proof fn lemma_push_back<T>(
    nodes: Seq<Option<Node<T>>>,
    free: Seq<usize>,
    order: Seq<usize>,
    t: T,
)
    requires
        inv(nodes, free, order),
        nodes.len() <= usize::MAX,
    ensures
        ({
            let at = place_at(nodes, free);
            let placed = place_nodes(
                nodes,
                free,
                Node { prev: link_at(order, order.len() - 1), next: None, elem: t },
            );
            let after = if order.len() > 0 {
                with_next(placed, order.last(), Some(at))
            } else {
                placed
            };
            let grown = order.push(at);
            &&& order.len() > 0 ==> order.last() < placed.len() && placed[order.last() as int]
                is Some
            &&& inv(after, place_free(free), grown)
            &&& elems(after, grown) == elems(nodes, order).push(t)
            &&& order.len() + 1 <= after.len()
        }),
{
    let node = Node { prev: link_at(order, order.len() - 1), next: None, elem: t };
    lemma_place(nodes, free, order, node);
    reveal(inv);
    let at = place_at(nodes, free);
    let placed = place_nodes(nodes, free, node);
    let rest = place_free(free);
    let n = order.len() as int;
    let after = if order.len() > 0 {
        with_next(placed, order.last(), Some(at))
    } else {
        placed
    };
    let grown = order.push(at);
    if n > 0 {
        assert(order[n - 1] != at);
        assert(placed[order[n - 1] as int] == nodes[order[n - 1] as int]);
    }
    assert forall|i: int, j: int| 0 <= i < grown.len() && 0 <= j < grown.len() && i
        != j implies grown[i] != grown[j] by {
        if i < n && j < n {
            assert(order[i] != order[j]);
        } else if i < n {
            assert(grown[i] == order[i]);
        } else {
            assert(grown[j] == order[j]);
        }
    }
    assert forall|i: int| 0 <= i < grown.len() implies {
        &&& (#[trigger] grown[i]) < after.len()
        &&& after[grown[i] as int] is Some
    } by {
        if i < n {
            assert(grown[i] == order[i]);
            assert(order[i] != at);
        }
    }
    assert forall|i: int| 0 <= i < grown.len() implies {
        &&& #[trigger] node_of(after, grown, i) matches Some(m)
        &&& m.prev == link_at(grown, i - 1)
        &&& m.next == link_at(grown, i + 1)
    } by {
        if i == n - 1 {
            assert(grown[i] == order[n - 1]);
            assert(node_of(nodes, order, n - 1) is Some);
            assert(link_at(order, i - 1) == link_at(grown, i - 1));
        } else if i < n - 1 {
            assert(grown[i] == order[i]);
            assert(node_of(nodes, order, i) is Some);
            assert(order[i] != order[n - 1]);
            assert(order[i] != at);
            assert(placed[order[i] as int] == nodes[order[i] as int]);
            assert(link_at(order, i - 1) == link_at(grown, i - 1));
            assert(link_at(order, i + 1) == link_at(grown, i + 1));
        }
    }
    assert forall|k: int| 0 <= k < rest.len() implies {
        &&& (#[trigger] rest[k]) < after.len()
        &&& after[rest[k] as int] is None
    } by {
        assert(placed[rest[k] as int] is None);
    }
    assert forall|i: int| 0 <= i < grown.len() implies elems(after, grown)[i] == elems(
        nodes,
        order,
    ).push(t)[i] by {
        if i == n - 1 {
            assert(grown[i] == order[n - 1]);
        } else if i < n - 1 {
            assert(grown[i] == order[i]);
            assert(order[i] != order[n - 1]);
            assert(order[i] != at);
            assert(placed[order[i] as int] == nodes[order[i] as int]);
        }
    }
    assert(elems(after, grown) =~= elems(nodes, order).push(t));
}

/// Unlinking the first node gives the list without its first element.
proof fn lemma_pop_front<T>(nodes: Seq<Option<Node<T>>>, free: Seq<usize>, order: Seq<usize>)
    requires
        inv(nodes, free, order),
        order.len() > 0,
    ensures
        ({
            let head = order[0];
            let taken = nodes.update(head as int, None);
            let after = if order.len() > 1 {
                with_prev(taken, order[1], None)
            } else {
                taken
            };
            &&& head < nodes.len()
            &&& nodes[head as int] matches Some(node) && node.next == link_at(order, 1)
                && node.elem == elems(nodes, order)[0]
            &&& order.len() > 1 ==> order[1] < taken.len() && taken[order[1] as int] is Some
            &&& inv(after, free.push(head), order.drop_first())
            &&& elems(after, order.drop_first()) == elems(nodes, order).drop_first()
        }),
{
    reveal(inv);
    let head = order[0];
    let taken = nodes.update(head as int, None);
    let after = if order.len() > 1 {
        with_prev(taken, order[1], None)
    } else {
        taken
    };
    let rest = order.drop_first();
    let freed = free.push(head);
    assert(node_of(nodes, order, 0) is Some);
    if order.len() > 1 {
        assert(order[1] != order[0]);
        assert(node_of(nodes, order, 1) is Some);
    }
    assert forall|i: int, j: int| 0 <= i < rest.len() && 0 <= j < rest.len() && i
        != j implies rest[i] != rest[j] by {
        assert(order[i + 1] != order[j + 1]);
    }
    assert forall|i: int, j: int| 0 <= i < freed.len() && 0 <= j < freed.len() && i
        != j implies freed[i] != freed[j] by {
        if i < free.len() && j < free.len() {
            assert(free[i] != free[j]);
        } else if i < free.len() {
            assert(nodes[free[i] as int] is None);
        } else {
            assert(nodes[free[j] as int] is None);
        }
    }
    assert forall|i: int| 0 <= i < rest.len() implies {
        &&& (#[trigger] rest[i]) < after.len()
        &&& after[rest[i] as int] is Some
    } by {
        assert(rest[i] == order[i + 1]);
        assert(order[i + 1] != order[0]);
    }
    assert forall|i: int| 0 <= i < rest.len() implies {
        &&& #[trigger] node_of(after, rest, i) matches Some(n)
        &&& n.prev == link_at(rest, i - 1)
        &&& n.next == link_at(rest, i + 1)
    } by {
        assert(rest[i] == order[i + 1]);
        assert(node_of(nodes, order, i + 1) is Some);
        assert(order[i + 1] != order[0]);
        assert(link_at(order, i + 2) == link_at(rest, i + 1));
        if i > 0 {
            assert(order[i + 1] != order[1]);
            assert(link_at(order, i) == link_at(rest, i - 1));
        }
    }
    assert forall|k: int| 0 <= k < freed.len() implies {
        &&& (#[trigger] freed[k]) < after.len()
        &&& after[freed[k] as int] is None
    } by {
        if k < free.len() {
            assert(freed[k] == free[k]);
            if order.len() > 1 {
                assert(node_of(nodes, order, 1) is Some);
            }
        }
    }
    assert forall|i: int| 0 <= i < rest.len() implies elems(after, rest)[i] == elems(
        nodes,
        order,
    ).drop_first()[i] by {
        assert(rest[i] == order[i + 1]);
        assert(order[i + 1] != order[0]);
        if i > 0 {
            assert(order[i + 1] != order[1]);
        }
    }
    assert(elems(after, rest) =~= elems(nodes, order).drop_first());
}

/// Unlinking the last node gives the list without its last element.
proof fn lemma_pop_back<T>(nodes: Seq<Option<Node<T>>>, free: Seq<usize>, order: Seq<usize>)
    requires
        inv(nodes, free, order),
        order.len() > 0,
    ensures
        ({
            let tail = order.last();
            let taken = nodes.update(tail as int, None);
            let after = if order.len() > 1 {
                with_next(taken, order[order.len() - 2], None)
            } else {
                taken
            };
            &&& tail < nodes.len()
            &&& nodes[tail as int] matches Some(node) && node.prev == link_at(
                order,
                order.len() - 2,
            ) && node.elem == elems(nodes, order).last()
            &&& order.len() > 1 ==> order[order.len() - 2] < taken.len() && taken[order[order.len()
                - 2] as int] is Some
            &&& inv(after, free.push(tail), order.drop_last())
            &&& elems(after, order.drop_last()) == elems(nodes, order).drop_last()
        }),
{
    reveal(inv);
    let n = order.len() as int;
    let tail = order[n - 1];
    let taken = nodes.update(tail as int, None);
    let after = if order.len() > 1 {
        with_next(taken, order[n - 2], None)
    } else {
        taken
    };
    let rest = order.drop_last();
    let freed = free.push(tail);
    assert(node_of(nodes, order, n - 1) is Some);
    if n > 1 {
        assert(order[n - 2] != order[n - 1]);
        assert(node_of(nodes, order, n - 2) is Some);
    }
    assert forall|i: int, j: int| 0 <= i < rest.len() && 0 <= j < rest.len() && i
        != j implies rest[i] != rest[j] by {
        assert(order[i] != order[j]);
    }
    assert forall|i: int, j: int| 0 <= i < freed.len() && 0 <= j < freed.len() && i
        != j implies freed[i] != freed[j] by {
        if i < free.len() && j < free.len() {
            assert(free[i] != free[j]);
        } else if i < free.len() {
            assert(nodes[free[i] as int] is None);
        } else {
            assert(nodes[free[j] as int] is None);
        }
    }
    assert forall|i: int| 0 <= i < rest.len() implies {
        &&& (#[trigger] rest[i]) < after.len()
        &&& after[rest[i] as int] is Some
    } by {
        assert(rest[i] == order[i]);
        assert(order[i] != order[n - 1]);
    }
    assert forall|i: int| 0 <= i < rest.len() implies {
        &&& #[trigger] node_of(after, rest, i) matches Some(m)
        &&& m.prev == link_at(rest, i - 1)
        &&& m.next == link_at(rest, i + 1)
    } by {
        assert(rest[i] == order[i]);
        assert(node_of(nodes, order, i) is Some);
        assert(order[i] != order[n - 1]);
        assert(link_at(order, i - 1) == link_at(rest, i - 1));
        if i < n - 2 {
            assert(order[i] != order[n - 2]);
            assert(link_at(order, i + 1) == link_at(rest, i + 1));
        }
    }
    assert forall|k: int| 0 <= k < freed.len() implies {
        &&& (#[trigger] freed[k]) < after.len()
        &&& after[freed[k] as int] is None
    } by {
        if k < free.len() {
            assert(freed[k] == free[k]);
            if n > 1 {
                assert(node_of(nodes, order, n - 2) is Some);
            }
        }
    }
    assert forall|i: int| 0 <= i < rest.len() implies elems(after, rest)[i] == elems(
        nodes,
        order,
    ).drop_last()[i] by {
        assert(rest[i] == order[i]);
        assert(order[i] != order[n - 1]);
        if i < n - 2 {
            assert(order[i] != order[n - 2]);
        }
    }
    assert(elems(after, rest) =~= elems(nodes, order).drop_last());
}

/// The store with the element changed in the node at `p`.
spec fn with_elem<T>(nodes: Seq<Option<Node<T>>>, p: usize, elem: T) -> Seq<Option<Node<T>>> {
    nodes.update(p as int, Some(Node { elem, ..nodes[p as int].unwrap() }))
}

/// Changing the element of a node changes that element of the list and
/// nothing else.
proof fn lemma_set_elem<T>(
    nodes: Seq<Option<Node<T>>>,
    free: Seq<usize>,
    order: Seq<usize>,
    i: int,
    elem: T,
)
    requires
        inv(nodes, free, order),
        0 <= i < order.len(),
    ensures
        inv(with_elem(nodes, order[i], elem), free, order),
        elems(with_elem(nodes, order[i], elem), order) == elems(nodes, order).update(i, elem),
{
    reveal(inv);
    let after = with_elem(nodes, order[i], elem);
    assert(nodes[order[i] as int] is Some);
    assert forall|j: int| 0 <= j < order.len() implies {
        &&& (#[trigger] order[j]) < after.len()
        &&& after[order[j] as int] is Some
    } by {}
    assert forall|j: int| 0 <= j < order.len() implies {
        &&& #[trigger] node_of(after, order, j) matches Some(n)
        &&& n.prev == link_at(order, j - 1)
        &&& n.next == link_at(order, j + 1)
    } by {
        assert(node_of(nodes, order, j) is Some);
        if j != i {
            assert(order[j] != order[i]);
        }
    }
    assert forall|k: int| 0 <= k < free.len() implies {
        &&& (#[trigger] free[k]) < after.len()
        &&& after[free[k] as int] is None
    } by {}
    assert forall|j: int| 0 <= j < order.len() implies elems(after, order)[j] == elems(
        nodes,
        order,
    ).update(i, elem)[j] by {
        if j != i {
            assert(order[j] != order[i]);
        }
    }
    assert(elems(after, order) =~= elems(nodes, order).update(i, elem));
}

impl<T> View for LinkedList<T> {
    type V = Seq<T>;

    /// The elements, from the front to the back.
    closed spec fn view(&self) -> Seq<T> {
        elems(self.nodes@, self.order@)
    }
}

impl<T> LinkedList<T> {
    /// The links lead through the nodes of the list from the first to the
    /// last, and every other place of the store is empty and free.
    pub closed spec fn wf(&self) -> bool {
        &&& self.len == self.order@.len()
        &&& self.head == link_at(self.order@, 0)
        &&& self.tail == link_at(self.order@, self.order@.len() - 1)
        &&& inv(self.nodes@, self.free@, self.order@)
    }

    /// An empty list.
    pub fn new() -> (list: LinkedList<T>)
        ensures
            list.wf(),
            list@ == Seq::<T>::empty(),
    {
        let list = LinkedList {
            nodes: Vec::new(),
            free: Vec::new(),
            head: None,
            tail: None,
            len: 0,
            order: Ghost(Seq::empty()),
        };
        proof {
            lemma_empty::<T>();
            assert(list.nodes@ =~= Seq::<Option<Node<T>>>::empty());
            assert(list.free@ =~= Seq::<usize>::empty());
            assert(list@ =~= Seq::<T>::empty());
        }
        list
    }

    /// The number of elements.
    pub fn len(&self) -> (n: usize)
        requires
            self.wf(),
        ensures
            n == self@.len(),
    {
        self.len
    }

    /// The first element, to read.
    pub fn front(&self) -> (r: Option<&T>)
        requires
            self.wf(),
        ensures
            self@.len() == 0 ==> r is None,
            self@.len() > 0 ==> r == Some(&self@[0]),
    {
        match self.head {
            None => None,
            Some(head) => {
                proof {
                    lemma_node_at(self.nodes@, self.free@, self.order@, 0);
                }
                match &self.nodes[head] {
                    Some(node) => Some(&node.elem),
                    None => vstd::pervasive::unreached(),
                }
            },
        }
    }

    /// The last element, to read.
    pub fn back(&self) -> (r: Option<&T>)
        requires
            self.wf(),
        ensures
            self@.len() == 0 ==> r is None,
            self@.len() > 0 ==> r == Some(&self@.last()),
    {
        match self.tail {
            None => None,
            Some(tail) => {
                proof {
                    lemma_node_at(self.nodes@, self.free@, self.order@, self.order@.len() - 1);
                }
                match &self.nodes[tail] {
                    Some(node) => Some(&node.elem),
                    None => vstd::pervasive::unreached(),
                }
            },
        }
    }

    /// Puts `node` into a free place of the store, or into a new one, and
    /// returns the place.
    fn place(&mut self, node: Node<T>) -> (at: usize)
        requires
            forall|k: int|
                0 <= k < old(self).free@.len() ==> (#[trigger] old(self).free@[k]) < old(
                    self,
                ).nodes@.len(),
        ensures
            at == place_at(old(self).nodes@, old(self).free@),
            final(self).nodes@ == place_nodes(old(self).nodes@, old(self).free@, node),
            final(self).free@ == place_free(old(self).free@),
            final(self).head == old(self).head,
            final(self).tail == old(self).tail,
            final(self).len == old(self).len,
            final(self).order == old(self).order,
    {
        match self.free.pop() {
            Some(at) => {
                assert(old(self).free@[old(self).free@.len() - 1] == at);
                self.nodes[at] = Some(node);
                at
            },
            None => {
                self.nodes.push(Some(node));
                self.nodes.len() - 1
            },
        }
    }

    fn node_mut(&mut self, p: usize) -> (r: &mut Node<T>)
        requires
            p < old(self).nodes@.len(),
            old(self).nodes@[p as int] is Some,
        ensures
            *r == old(self).nodes@[p as int].unwrap(),
            final(self).nodes@ == old(self).nodes@.update(p as int, Some(*final(r))),
            final(self).free == old(self).free,
            final(self).head == old(self).head,
            final(self).tail == old(self).tail,
            final(self).len == old(self).len,
            final(self).order == old(self).order,
    {
        match &mut self.nodes[p] {
            Some(r) => r,
            None => vstd::pervasive::unreached(),
        }
    }

    /// Puts `t` in front of the first element.
    pub fn push_front(&mut self, t: T)
        requires
            old(self).wf(),
        ensures
            final(self).wf(),
            final(self)@ == seq![t] + old(self)@,
    {
        let _ = self.nodes.len();
        proof {
            lemma_push_front(self.nodes@, self.free@, self.order@, t);
            reveal(inv);
        }
        let old_head = self.head;
        let at = self.place(Node { prev: None, next: old_head, elem: t });
        match old_head {
            Some(head) => {
                let node = self.node_mut(head);
                node.prev = Some(at);
            },
            None => {
                self.tail = Some(at);
            },
        }
        self.head = Some(at);
        let _ = self.nodes.len();
        self.len += 1;
        self.order = Ghost(seq![at] + old(self).order@);
    }

    /// Puts `t` behind the last element.
    pub fn push_back(&mut self, t: T)
        requires
            old(self).wf(),
        ensures
            final(self).wf(),
            final(self)@ == old(self)@.push(t),
    {
        let _ = self.nodes.len();
        proof {
            lemma_push_back(self.nodes@, self.free@, self.order@, t);
            reveal(inv);
        }
        let old_tail = self.tail;
        let at = self.place(Node { prev: old_tail, next: None, elem: t });
        match old_tail {
            Some(tail) => {
                let node = self.node_mut(tail);
                node.next = Some(at);
            },
            None => {
                self.head = Some(at);
            },
        }
        self.tail = Some(at);
        let _ = self.nodes.len();
        self.len += 1;
        self.order = Ghost(old(self).order@.push(at));
    }

    /// Takes the first element off, if there is one.
    pub fn pop_front(&mut self) -> (r: Option<T>)
        requires
            old(self).wf(),
        ensures
            final(self).wf(),
            old(self)@.len() == 0 ==> r is None && final(self)@ == old(self)@,
            old(self)@.len() > 0 ==> r == Some(old(self)@[0]) && final(self)@ == old(
                self,
            )@.drop_first(),
    {
        match self.head {
            None => None,
            Some(head) => {
                proof {
                    lemma_pop_front(self.nodes@, self.free@, self.order@);
                }
                let node = self.nodes[head].take().unwrap();
                self.free.push(head);
                match node.next {
                    Some(new_head) => {
                        let next = self.node_mut(new_head);
                        next.prev = None;
                        self.head = Some(new_head);
                    },
                    None => {
                        self.head = None;
                        self.tail = None;
                    },
                }
                self.len -= 1;
                self.order = Ghost(old(self).order@.drop_first());
                Some(node.elem)
            },
        }
    }

    /// Takes the last element off, if there is one.
    pub fn pop_back(&mut self) -> (r: Option<T>)
        requires
            old(self).wf(),
        ensures
            final(self).wf(),
            old(self)@.len() == 0 ==> r is None && final(self)@ == old(self)@,
            old(self)@.len() > 0 ==> r == Some(old(self)@.last()) && final(self)@ == old(
                self,
            )@.drop_last(),
    {
        match self.tail {
            None => None,
            Some(tail) => {
                proof {
                    lemma_pop_back(self.nodes@, self.free@, self.order@);
                }
                let node = self.nodes[tail].take().unwrap();
                self.free.push(tail);
                match node.prev {
                    Some(new_tail) => {
                        let prev = self.node_mut(new_tail);
                        prev.next = None;
                        self.tail = Some(new_tail);
                    },
                    None => {
                        self.head = None;
                        self.tail = None;
                    },
                }
                self.len -= 1;
                self.order = Ghost(old(self).order@.drop_last());
                Some(node.elem)
            },
        }
    }

    /// The element of the list's node at position `i`, to change.
    fn elem_mut(&mut self, p: usize, Ghost(i): Ghost<int>) -> (t: &mut T)
        requires
            old(self).wf(),
            0 <= i < old(self)@.len(),
            p == old(self).order@[i],
        ensures
            *t == old(self)@[i],
            final(self)@ == old(self)@.update(i, *final(t)),
            final(self).head == old(self).head,
            final(self).tail == old(self).tail,
            final(self).len == old(self).len,
            final(self).order == old(self).order,
            final(self).nodes@ == with_elem(old(self).nodes@, p, *final(t)),
            final(self).free == old(self).free,
            final(self).wf(),
    {
        proof {
            lemma_node_at(self.nodes@, self.free@, self.order@, i);
        }
        let node = self.node_mut(p);
        let ghost prev = node.prev;
        let ghost next = node.next;
        let t = &mut node.elem;
        proof {
            lemma_set_elem(old(self).nodes@, old(self).free@, old(self).order@, i, *final(t));
        }
        t
    }

    /// The first element, to change.
    pub fn front_mut(&mut self) -> (r: Option<&mut T>)
        requires
            old(self).wf(),
        ensures
            r is Some <==> old(self)@.len() > 0,
            r is None ==> final(self)@ == old(self)@,
            r matches Some(t) ==> *t == old(self)@[0] && final(self)@ == old(self)@.update(
                0,
                *final(t),
            ),
            final(self).wf(),
    {
        match self.head {
            None => None,
            Some(head) => Some(self.elem_mut(head, Ghost(0))),
        }
    }

    /// The last element, to change.
    pub fn back_mut(&mut self) -> (r: Option<&mut T>)
        requires
            old(self).wf(),
        ensures
            r is Some <==> old(self)@.len() > 0,
            r is None ==> final(self)@ == old(self)@,
            r matches Some(t) ==> *t == old(self)@.last() && final(self)@ == old(self)@.update(
                old(self)@.len() - 1,
                *final(t),
            ),
            final(self).wf(),
    {
        match self.tail {
            None => None,
            Some(tail) => {
                let ghost last = self.order@.len() - 1;
                Some(self.elem_mut(tail, Ghost(last)))
            },
        }
    }

    /// The links of the node at `p`, which is the list's node at position
    /// `i`.
    fn links(&self, p: usize, Ghost(i): Ghost<int>) -> (r: (Link, Link))
        requires
            self.wf(),
            0 <= i < self@.len(),
            p == self.order@[i],
        ensures
            r.0 == link_at(self.order@, i - 1),
            r.1 == link_at(self.order@, i + 1),
    {
        proof {
            lemma_node_at(self.nodes@, self.free@, self.order@, i);
        }
        match &self.nodes[p] {
            Some(node) => (node.prev, node.next),
            None => vstd::pervasive::unreached(),
        }
    }

    /// The element of the node at `p`, which is the list's node at position
    /// `i`.
    fn elem(&self, p: usize, Ghost(i): Ghost<int>) -> (t: &T)
        requires
            self.wf(),
            0 <= i < self@.len(),
            p == self.order@[i],
        ensures
            *t == self@[i],
    {
        proof {
            lemma_node_at(self.nodes@, self.free@, self.order@, i);
        }
        match &self.nodes[p] {
            Some(node) => &node.elem,
            None => vstd::pervasive::unreached(),
        }
    }

    /// The elements from the front to the back, to read from either end.
    pub fn iter(&self) -> (it: Iter<'_, T>)
        requires
            self.wf(),
        ensures
            it.wf(),
            it@ == self@,
    {
        let it = Iter { list: self, head: self.head, tail: self.tail, len: self.len, front: Ghost(0) };
        assert(it@ =~= self@);
        it
    }

    /// The elements from the front to the back, to change from either end.
    pub fn iter_mut(&mut self) -> (it: IterMut<'_, T>)
        requires
            old(self).wf(),
        ensures
            it.wf(),
            it@ == old(self)@,
            it.list_view() == old(self)@,
            it.position() == 0,
            *final(self) == *final(it.borrowed()),
    {
        let head = self.head;
        let tail = self.tail;
        let len = self.len;
        let it = IterMut { list: self, head, tail, len, front: Ghost(0) };
        assert(it@ =~= old(self)@);
        it
    }

    /// Turns the list into the sequence of its elements.
    pub fn into_iter(self) -> (it: IntoIter<T>)
        requires
            self.wf(),
        ensures
            it.wf(),
            it@ == self@,
    {
        IntoIter(self)
    }
}

/// The elements of a list that was taken apart.
pub struct IntoIter<T>(LinkedList<T>);

impl<T> View for IntoIter<T> {
    type V = Seq<T>;

    /// The elements that are left, in order.
    closed spec fn view(&self) -> Seq<T> {
        self.0@
    }
}

impl<T> IntoIter<T> {
    /// The list that holds the elements is well-formed.
    pub closed spec fn wf(&self) -> bool {
        self.0.wf()
    }

    /// Takes the first element that is left.
    pub fn next(&mut self) -> (r: Option<T>)
        requires
            old(self).wf(),
        ensures
            final(self).wf(),
            old(self)@.len() == 0 ==> r is None && final(self)@ == old(self)@,
            old(self)@.len() > 0 ==> r == Some(old(self)@[0]) && final(self)@ == old(
                self,
            )@.drop_first(),
    {
        self.0.pop_front()
    }
}

/// A part of a list, from the node at `head` to the node at `tail`, to read.
pub struct Iter<'a, T> {
    list: &'a LinkedList<T>,
    head: Link,
    tail: Link,
    len: usize,
    front: Ghost<int>,
}

impl<'a, T> View for Iter<'a, T> {
    type V = Seq<T>;

    /// The elements that are left, in order.
    closed spec fn view(&self) -> Seq<T> {
        self.list@.subrange(self.front@, self.front@ + self.len)
    }
}

impl<'a, T> Iter<'a, T> {
    /// The part lies within the list, between the nodes at `head` and
    /// `tail`.
    pub closed spec fn wf(&self) -> bool {
        &&& self.list.wf()
        &&& 0 <= self.front@
        &&& self.front@ + self.len <= self.list.order@.len()
        &&& self.len > 0 ==> self.head == Some(self.list.order@[self.front@]) && self.tail == Some(
            self.list.order@[self.front@ + self.len - 1],
        )
    }

    /// Hands out the first element that is left.
    pub fn next(&mut self) -> (r: Option<&'a T>)
        requires
            old(self).wf(),
        ensures
            final(self).wf(),
            old(self)@.len() == 0 ==> r is None && final(self)@ == old(self)@,
            old(self)@.len() > 0 ==> r == Some(&old(self)@[0]) && final(self)@ == old(
                self,
            )@.drop_first(),
    {
        if self.len > 0 {
            match self.head {
                Some(head) => {
                    let links = self.list.links(head, Ghost(self.front@));
                    let t = self.list.elem(head, Ghost(self.front@));
                    self.head = links.1;
                    self.len -= 1;
                    self.front = Ghost(self.front@ + 1);
                    assert(self@ =~= old(self)@.drop_first());
                    Some(t)
                },
                None => None,
            }
        } else {
            None
        }
    }

    /// The number of elements that are left, as a lower and an upper bound.
    pub fn size_hint(&self) -> (r: (usize, Option<usize>))
        requires
            self.wf(),
        ensures
            r.0 == self@.len(),
            r.1 == Some(r.0),
    {
        (self.len, Some(self.len))
    }

    /// Hands out the last element that is left.
    pub fn next_back(&mut self) -> (r: Option<&'a T>)
        requires
            old(self).wf(),
        ensures
            final(self).wf(),
            old(self)@.len() == 0 ==> r is None && final(self)@ == old(self)@,
            old(self)@.len() > 0 ==> r == Some(&old(self)@.last()) && final(self)@ == old(
                self,
            )@.drop_last(),
    {
        if self.len > 0 {
            match self.tail {
                Some(tail) => {
                    let ghost at = self.front@ + self.len - 1;
                    let links = self.list.links(tail, Ghost(at));
                    let t = self.list.elem(tail, Ghost(at));
                    self.tail = links.0;
                    self.len -= 1;
                    assert(self@ =~= old(self)@.drop_last());
                    Some(t)
                },
                None => None,
            }
        } else {
            None
        }
    }
}

/// A part of a list, from the node at `head` to the node at `tail`, to
/// change, and the borrow of the list.
pub struct IterMut<'a, T> {
    list: &'a mut LinkedList<T>,
    head: Link,
    tail: Link,
    len: usize,
    front: Ghost<int>,
}

impl<'a, T> View for IterMut<'a, T> {
    type V = Seq<T>;

    /// The elements that are left, in order.
    closed spec fn view(&self) -> Seq<T> {
        self.list@.subrange(self.front@, self.front@ + self.len)
    }
}

impl<'a, T> IterMut<'a, T> {
    /// The part lies within the list, between the nodes at `head` and
    /// `tail`.
    pub closed spec fn wf(&self) -> bool {
        &&& self.list.wf()
        &&& 0 <= self.front@
        &&& self.front@ + self.len <= self.list.order@.len()
        &&& self.len > 0 ==> self.head == Some(self.list.order@[self.front@]) && self.tail == Some(
            self.list.order@[self.front@ + self.len - 1],
        )
    }

    /// All elements of the list, as they are now.
    pub closed spec fn list_view(&self) -> Seq<T> {
        self.list@
    }

    /// The position in the list of the first element that is left.
    pub closed spec fn position(&self) -> int {
        self.front@
    }

    /// The borrow of the list that this holds.
    pub closed spec fn borrowed(&self) -> &'a mut LinkedList<T> {
        self.list
    }

    /// The elements that are left are those of the list from `position` on.
    pub proof fn lemma_part(self)
        requires
            self.wf(),
        ensures
            0 <= self.position(),
            self.position() + self@.len() <= self.list_view().len(),
            self@ == self.list_view().subrange(self.position(), self.position() + self@.len()),
    {
        reveal(inv);
    }

    /// When this is used no more, the list is left as it is now.
    pub proof fn lemma_resolved(self)
        requires
            has_resolved(self),
            self.wf(),
        ensures
            final(self.borrowed())@ == self.list_view(),
            final(self.borrowed()).wf(),
    {
        assert(has_resolved(self.list));
    }

    /// Hands out the first element that is left.
    pub fn next(&mut self) -> (r: Option<&mut T>)
        requires
            old(self).wf(),
        ensures
            r is Some <==> old(self)@.len() > 0,
            r is None ==> final(self)@ == old(self)@ && final(self).list_view() == old(
                self,
            ).list_view() && final(self).position() == old(self).position(),
            r matches Some(t) ==> {
                &&& *t == old(self)@[0]
                &&& final(self)@ == old(self)@.drop_first()
                &&& final(self).list_view() == old(self).list_view().update(
                    old(self).position(),
                    *final(t),
                )
                &&& final(self).position() == old(self).position() + 1
            },
            *final(final(self).borrowed()) == *final(old(self).borrowed()),
            final(self).wf(),
    {
        if self.len > 0 {
            match self.head {
                Some(head) => {
                    let ghost at = self.front@;
                    let links = self.list.links(head, Ghost(at));
                    self.head = links.1;
                    self.len -= 1;
                    self.front = Ghost(at + 1);
                    let t = self.list.elem_mut(head, Ghost(at));
                    proof {
                        let before = old(self).list@;
                        let after = before.update(at, *final(t));
                        assert(after.subrange(at + 1, at + 1 + self.len) =~= before.subrange(
                            at,
                            at + old(self).len,
                        ).drop_first());
                    }
                    Some(t)
                },
                None => None,
            }
        } else {
            None
        }
    }

    /// The number of elements that are left, as a lower and an upper bound.
    pub fn size_hint(&self) -> (r: (usize, Option<usize>))
        requires
            self.wf(),
        ensures
            r.0 == self@.len(),
            r.1 == Some(r.0),
    {
        (self.len, Some(self.len))
    }

    /// Hands out the last element that is left.
    pub fn next_back(&mut self) -> (r: Option<&mut T>)
        requires
            old(self).wf(),
        ensures
            r is Some <==> old(self)@.len() > 0,
            r is None ==> final(self)@ == old(self)@ && final(self).list_view() == old(
                self,
            ).list_view(),
            r matches Some(t) ==> {
                &&& *t == old(self)@.last()
                &&& final(self)@ == old(self)@.drop_last()
                &&& final(self).list_view() == old(self).list_view().update(
                    old(self).position() + old(self)@.len() - 1,
                    *final(t),
                )
            },
            final(self).position() == old(self).position(),
            *final(final(self).borrowed()) == *final(old(self).borrowed()),
            final(self).wf(),
    {
        if self.len > 0 {
            match self.tail {
                Some(tail) => {
                    let ghost at = self.front@ + self.len - 1;
                    let links = self.list.links(tail, Ghost(at));
                    self.tail = links.0;
                    self.len -= 1;
                    let t = self.list.elem_mut(tail, Ghost(at));
                    proof {
                        let before = old(self).list@;
                        let after = before.update(at, *final(t));
                        assert(after.subrange(self.front@, self.front@ + self.len)
                            =~= before.subrange(self.front@, self.front@ + old(self).len).drop_last());
                    }
                    Some(t)
                },
                None => None,
            }
        } else {
            None
        }
    }
}

} // verus!
