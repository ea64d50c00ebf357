use core::cmp::Ordering;
use vstd::laws_cmp::{
    obeys_cmp, obeys_cmp_ord, obeys_cmp_partial_ord, obeys_partial_cmp_spec_properties,
};
use vstd::prelude::*;
use vstd::std_specs::cmp::{OrdSpec, PartialEqSpec, PartialOrdSpec};

verus! {

/// `a` comes before `b` in the order of `T`.
pub open spec fn less<T: Ord>(a: T, b: T) -> bool {
    a.partial_cmp_spec(&b) == Some(Ordering::Less)
}

/// `a` and `b` have the same place in the order of `T`.
pub open spec fn same<T: Ord>(a: T, b: T) -> bool {
    a.partial_cmp_spec(&b) == Some(Ordering::Equal)
}

/// Each element of `s` comes before those behind it.
pub open spec fn sorted<T: Ord>(s: Seq<T>) -> bool {
    forall|i: int, j: int| 0 <= i < j < s.len() ==> less(s[i], s[j])
}

/// An element of `s` has the place of `t` in the order.
pub open spec fn present<T: Ord>(s: Seq<T>, t: T) -> bool {
    exists|i: int| 0 <= i < s.len() && same(#[trigger] s[i], t)
}

/// The number of elements of `s` that come before `t`.
pub open spec fn rank<T: Ord>(s: Seq<T>, t: T) -> int
    decreases s.len(),
{
    if s.len() == 0 {
        0
    } else {
        rank(s.drop_last(), t) + if less(s.last(), t) {
            1int
        } else {
            0int
        }
    }
}

/// `s` with `t` put in at its place in the order, unless an element with
/// that place is there already.
pub open spec fn inserted<T: Ord>(s: Seq<T>, t: T) -> Seq<T> {
    if present(s, t) {
        s
    } else {
        s.insert(rank(s, t), t)
    }
}

/// The order of `T` is total: of two elements one comes first, or they
/// have the same place; and it is transitive.
pub proof fn lemma_order<T: Ord>()
    requires
        obeys_cmp::<T>(),
    ensures
        forall|a: T, b: T| #[trigger] less(a, b) || same(a, b) || less(b, a),
        forall|a: T, b: T| #[trigger] less(a, b) ==> !same(a, b) && !less(b, a) && !same(b, a),
        forall|a: T, b: T| #[trigger] same(a, b) ==> same(b, a),
        forall|a: T, b: T, c: T| #[trigger] less(a, b) && #[trigger] less(b, c) ==> less(a, c),
        forall|a: T, b: T, c: T| #[trigger] same(a, b) && #[trigger] less(b, c) ==> less(a, c),
        forall|a: T, b: T, c: T| #[trigger] less(a, b) && #[trigger] same(b, c) ==> less(a, c),
{
    reveal(obeys_partial_cmp_spec_properties);
    reveal(obeys_cmp_partial_ord);
    reveal(obeys_cmp_ord);
    reveal(vstd::laws_eq::obeys_eq_spec_properties);
    assert forall|a: T, b: T| #[trigger] less(a, b) || same(a, b) || less(b, a) by {
        assert(a.partial_cmp_spec(&b) == Some(a.cmp_spec(&b)));
        assert(b.partial_cmp_spec(&a) == Some(b.cmp_spec(&a)));
    }
    assert forall|a: T, b: T| #[trigger] same(a, b) implies same(b, a) by {
        assert(a.eq_spec(&b));
        assert(b.eq_spec(&a));
    }
    assert forall|a: T, b: T, c: T| #[trigger] same(a, b) && #[trigger] less(b, c) implies less(
        a,
        c,
    ) by {
        assert(a.partial_cmp_spec(&c) == Some(a.cmp_spec(&c)));
        assert(c.partial_cmp_spec(&a) == Some(c.cmp_spec(&a)));
        assert(b.partial_cmp_spec(&a) == Some(b.cmp_spec(&a)));
        if same(a, c) {
            assert(a.eq_spec(&c));
            assert(b.eq_spec(&a));
            assert(b.eq_spec(&c));
        }
        if less(c, a) {
            assert(same(b, a));
            assert(less(c, b)) by {
                assert(b.partial_cmp_spec(&c) == Some(Ordering::Less));
                assert(c.partial_cmp_spec(&b) == Some(Ordering::Greater));
                assert(a.partial_cmp_spec(&c) == Some(Ordering::Greater));
            }
        }
    }
}

/// The rank in a sequence of two parts is the sum of the ranks in the parts.
pub proof fn lemma_rank_concat<T: Ord>(a: Seq<T>, b: Seq<T>, t: T)
    ensures
        rank(a + b, t) == rank(a, t) + rank(b, t),
    decreases b.len(),
{
    if b.len() == 0 {
        assert(a + b =~= a);
    } else {
        lemma_rank_concat(a, b.drop_last(), t);
        assert((a + b).drop_last() =~= a + b.drop_last());
        assert((a + b).last() == b.last());
    }
}

/// The rank is 0 where no element comes before `t`, and the length where
/// all do.
pub proof fn lemma_rank_extremes<T: Ord>(s: Seq<T>, t: T)
    ensures
        0 <= rank(s, t) <= s.len(),
        (forall|i: int| 0 <= i < s.len() ==> !less(#[trigger] s[i], t)) ==> rank(s, t) == 0,
        (forall|i: int| 0 <= i < s.len() ==> less(#[trigger] s[i], t)) ==> rank(s, t) == s.len(),
    decreases s.len(),
{
    if s.len() > 0 {
        lemma_rank_extremes(s.drop_last(), t);
        assert(forall|i: int| 0 <= i < s.len() - 1 ==> s.drop_last()[i] == s[i]);
    }
}

/// In a sorted sequence that has no element at the place of `t`, the
/// elements before the rank of `t` come before `t`, and `t` comes before
/// the others.
pub proof fn lemma_rank_splits<T: Ord>(s: Seq<T>, t: T)
    requires
        obeys_cmp::<T>(),
        sorted(s),
        !present(s, t),
    ensures
        0 <= rank(s, t) <= s.len(),
        forall|i: int| 0 <= i < rank(s, t) ==> less(#[trigger] s[i], t),
        forall|i: int| rank(s, t) <= i < s.len() ==> less(t, #[trigger] s[i]),
    decreases s.len(),
{
    lemma_order::<T>();
    lemma_rank_extremes(s, t);
    if s.len() > 0 {
        let front = s.drop_last();
        assert(forall|i: int| 0 <= i < front.len() ==> front[i] == s[i]);
        assert(!present(front, t)) by {
            if present(front, t) {
                let i = choose|i: int| 0 <= i < front.len() && same(#[trigger] front[i], t);
                assert(same(s[i], t));
            }
        }
        lemma_rank_splits(front, t);
        assert(!same(s.last(), t));
        if less(s.last(), t) {
            assert forall|i: int| 0 <= i < front.len() implies less(#[trigger] front[i], t) by {
                assert(less(s[i], s.last()));
            }
            lemma_rank_extremes(front, t);
        }
    }
}

/// Putting an element in at its rank keeps a sequence sorted.
pub proof fn lemma_inserted_sorted<T: Ord>(s: Seq<T>, t: T)
    requires
        obeys_cmp::<T>(),
        sorted(s),
    ensures
        sorted(inserted(s, t)),
{
    if !present(s, t) {
        lemma_rank_splits(s, t);
        let k = rank(s, t);
        let r = s.insert(k, t);
        assert forall|i: int, j: int| 0 <= i < j < r.len() implies less(r[i], r[j]) by {
            if i < k && j > k {
                assert(less(s[i], s[j - 1]));
            } else if i < k && j < k {
                assert(less(s[i], s[j]));
            } else if i > k {
                assert(less(s[i - 1], s[j - 1]));
            } else if i == k {
                assert(less(t, s[j - 1]));
            } else {
                assert(less(s[i], t));
            }
        }
    }
}

struct Node<T> {
    elem: T,
    left: Option<Box<Node<T>>>,
    right: Option<Box<Node<T>>>,
}

/// The elements of a subtree: those of the left branch, the element of the
/// root, those of the right branch.
spec fn inorder<T>(link: Option<Box<Node<T>>>) -> Seq<T>
    decreases link,
{
    match link {
        None => Seq::empty(),
        Some(node) => inorder(node.left) + seq![node.elem] + inorder(node.right),
    }
}

impl<T> Node<T> {
    fn new(t: T) -> (node: Node<T>)
        ensures
            node.elem == t,
            node.left is None,
            node.right is None,
    {
        Node { elem: t, left: None, right: None }
    }
}

/// The parts of a sorted sequence around one of its elements: each is
/// sorted, what stands before the element comes before it, and it comes
/// before what stands behind.
proof fn lemma_sorted_parts<T: Ord>(a: Seq<T>, e: T, b: Seq<T>)
    requires
        sorted(a + seq![e] + b),
    ensures
        sorted(a),
        sorted(b),
        forall|i: int| 0 <= i < a.len() ==> less(#[trigger] a[i], e),
        forall|i: int| 0 <= i < b.len() ==> less(e, #[trigger] b[i]),
{
    let s = a + seq![e] + b;
    assert forall|i: int, j: int| 0 <= i < j < a.len() implies less(a[i], a[j]) by {
        assert(s[i] == a[i] && s[j] == a[j]);
    }
    assert forall|i: int, j: int| 0 <= i < j < b.len() implies less(b[i], b[j]) by {
        assert(s[a.len() + 1 + i] == b[i] && s[a.len() + 1 + j] == b[j]);
    }
    assert forall|i: int| 0 <= i < a.len() implies less(#[trigger] a[i], e) by {
        assert(s[i] == a[i] && s[a.len() as int] == e);
    }
    assert forall|i: int| 0 <= i < b.len() implies less(e, #[trigger] b[i]) by {
        assert(s[a.len() + 1 + i] == b[i] && s[a.len() as int] == e);
    }
}

/// Where `t` goes in a sorted sequence around the element `e`: into the
/// part before `e` if it comes before `e`, into the part behind if it comes
/// behind, and nowhere if it has the place of `e`.
proof fn lemma_inserted_parts<T: Ord>(a: Seq<T>, e: T, b: Seq<T>, t: T)
    requires
        obeys_cmp::<T>(),
        sorted(a + seq![e] + b),
    ensures
        less(t, e) ==> inserted(a + seq![e] + b, t) == inserted(a, t) + seq![e] + b,
        same(t, e) ==> inserted(a + seq![e] + b, t) == a + seq![e] + b,
        less(e, t) ==> inserted(a + seq![e] + b, t) == a + seq![e] + inserted(b, t),
{
    let s = a + seq![e] + b;
    lemma_order::<T>();
    lemma_sorted_parts(a, e, b);
    lemma_rank_concat(a + seq![e], b, t);
    lemma_rank_concat(a, seq![e], t);
    lemma_rank_extremes(a, t);
    lemma_rank_extremes(b, t);
    lemma_rank_extremes(seq![e], t);
    assert(seq![e][0] == e);
    if same(t, e) {
        assert(s[a.len() + 0int] == e);
        assert(same(s[a.len() + 0int], t));
    } else if less(t, e) {
        assert forall|i: int| 0 <= i < b.len() implies !less(#[trigger] b[i], t) && !same(
            b[i],
            t,
        ) by {
            assert(less(e, b[i]));
            assert(less(t, b[i]));
        }
        assert(present(s, t) == present(a, t)) by {
            if present(s, t) {
                let i = choose|i: int| 0 <= i < s.len() && same(#[trigger] s[i], t);
                if i < a.len() {
                    assert(s[i] == a[i]);
                } else if i == a.len() {
                    assert(s[i] == e);
                } else {
                    assert(s[i] == b[i - a.len() - 1]);
                }
            }
            if present(a, t) {
                let i = choose|i: int| 0 <= i < a.len() && same(#[trigger] a[i], t);
                assert(s[i] == a[i]);
            }
        }
        if !present(a, t) {
            assert(s.insert(rank(a, t), t) =~= a.insert(rank(a, t), t) + seq![e] + b);
        }
    } else {
        assert forall|i: int| 0 <= i < a.len() implies less(#[trigger] a[i], t) && !same(
            a[i],
            t,
        ) by {
            assert(less(a[i], e));
        }
        assert(present(s, t) == present(b, t)) by {
            if present(s, t) {
                let i = choose|i: int| 0 <= i < s.len() && same(#[trigger] s[i], t);
                if i < a.len() {
                    assert(s[i] == a[i]);
                } else if i == a.len() {
                    assert(s[i] == e);
                } else {
                    assert(s[i] == b[i - a.len() - 1]);
                }
            }
            if present(b, t) {
                let i = choose|i: int| 0 <= i < b.len() && same(#[trigger] b[i], t);
                assert(s[a.len() + 1 + i] == b[i]);
            }
        }
        if !present(b, t) {
            assert(s.insert(a.len() + 1 + rank(b, t), t) =~= a + seq![e] + b.insert(
                rank(b, t),
                t,
            ));
        }
    }
}

/// Puts `t` into the subtree at its place, unless an element with that
/// place is there.
fn insert_at<T: Ord>(link: &mut Option<Box<Node<T>>>, t: T)
    requires
        obeys_cmp::<T>(),
        sorted(inorder(*old(link))),
    ensures
        inorder(*final(link)) == inserted(inorder(*old(link)), t),
    decreases *old(link),
{
    match link {
        None => {
            *link = Some(Box::new(Node::new(t)));
            proof {
                assert(inorder(*link) =~= seq![t]);
                assert(inorder(*old(link)) =~= Seq::<T>::empty());
                assert(!present(Seq::<T>::empty(), t));
                assert(Seq::<T>::empty().insert(0, t) =~= seq![t]);
            }
        },
        Some(node) => {
            proof {
                lemma_order::<T>();
                lemma_sorted_parts(inorder(node.left), node.elem, inorder(node.right));
                lemma_inserted_parts(inorder(node.left), node.elem, inorder(node.right), t);
                reveal(obeys_partial_cmp_spec_properties);
                reveal(obeys_cmp_partial_ord);
                reveal(obeys_cmp_ord);
            }
            if t < node.elem {
                insert_at(&mut node.left, t);
            } else if t == node.elem {
            } else {
                insert_at(&mut node.right, t);
            }
        },
    }
}

/// Appends to `out` a mutable borrow of each element of the subtree, from
/// the last to the first.
fn collect<'a, T>(link: &'a mut Option<Box<Node<T>>>, out: &mut Vec<&'a mut T>)
    ensures
        final(out)@.len() == old(out)@.len() + inorder(*old(link)).len(),
        forall|i: int| 0 <= i < old(out)@.len() ==> final(out)@[i] == old(out)@[i],
        forall|k: int|
            0 <= k < inorder(*old(link)).len() ==> *(final(out)@[final(out)@.len() - 1 - k])
                == #[trigger] inorder(*old(link))[k],
        inorder(*final(link)).len() == inorder(*old(link)).len(),
        forall|k: int|
            0 <= k < inorder(*old(link)).len() ==> #[trigger] inorder(*final(link))[k]
                == *final(final(out)@[final(out)@.len() - 1 - k]),
    decreases *old(link),
{
    match link {
        None => {
            assert(inorder(*old(link)).len() == 0);
        },
        Some(node) => {
            let ghost left = inorder(node.left);
            let ghost right = inorder(node.right);
            let ghost elem = node.elem;
            let ghost n0 = old(out)@.len();
            assert(inorder(*old(link)) =~= left + seq![elem] + right);
            collect(&mut node.right, out);
            let ghost out1 = out@;
            out.push(&mut node.elem);
            let ghost out2 = out@;
            collect(&mut node.left, out);
            proof {
                let whole = left + seq![elem] + right;
                let n = out@.len() as int;
                assert forall|k: int| 0 <= k < whole.len() implies *(out@[n - 1 - k])
                    == #[trigger] whole[k] by {
                    if k < left.len() {
                        assert(left[k] == whole[k]);
                    } else if k == left.len() {
                        assert(out@[n - 1 - k] == out2[n - 1 - k]);
                    } else {
                        let j = k - left.len() - 1;
                        assert(right[j] == whole[k]);
                        assert(out@[n - 1 - k] == out2[n - 1 - k]);
                        assert(out2[n - 1 - k] == out1[out1.len() - 1 - j]);
                    }
                }
            }
        },
    }
}

/// A set of elements of an ordered type, kept as a binary search tree.
pub struct Tree<T> {
    root: Option<Box<Node<T>>>,
}

impl<T> View for Tree<T> {
    type V = Seq<T>;

    /// The elements, in ascending order.
    closed spec fn view(&self) -> Seq<T> {
        inorder(self.root)
    }
}

impl<T: Ord> Tree<T> {
    /// The elements are in ascending order, none of them twice.
    pub open spec fn wf(&self) -> bool {
        sorted(self@)
    }

    /// A tree without elements.
    pub fn new() -> (tree: Tree<T>)
        ensures
            tree@ == Seq::<T>::empty(),
            tree.wf(),
    {
        Tree { root: None }
    }

    /// Puts `t` into the tree at its place in the order, unless an element
    /// with that place is there already.
    pub fn insert(&mut self, t: T)
        requires
            obeys_cmp::<T>(),
            old(self).wf(),
        ensures
            final(self).wf(),
            final(self)@ == inserted(old(self)@, t),
    {
        proof {
            lemma_inserted_sorted(self@, t);
        }
        insert_at(&mut self.root, t);
    }

    /// Mutable borrows of the elements, in ascending order. What is written
    /// through them is what the tree holds afterwards, in the same places:
    /// whoever changes the order of the elements leaves a tree that is no
    /// longer well-formed.
    pub fn iter_mut(&mut self) -> (it: IterMut<'_, T>)
        ensures
            it.refs().len() == old(self)@.len(),
            forall|i: int| 0 <= i < old(self)@.len() ==> *(#[trigger] it.refs()[i]) == old(self)@[i],
            final(self)@.len() == old(self)@.len(),
            forall|i: int|
                0 <= i < old(self)@.len() ==> #[trigger] final(self)@[i] == *final(it.refs()[i]),
    {
        let mut refs: Vec<&mut T> = Vec::new();
        collect(&mut self.root, &mut refs);
        let it = IterMut(refs);
        proof {
            assert forall|i: int| 0 <= i < old(self)@.len() implies *(#[trigger] it.refs()[i])
                == old(self)@[i] by {
                assert(it.refs()[i] == refs@[refs@.len() - 1 - i]);
                assert(inorder(old(self).root)[i] == old(self)@[i]);
            }
        }
        it
    }
}

/// The mutable borrows of a tree's elements that are still to be handed
/// out. They are kept from the last to the first, so that the next one is
/// taken off the end.
pub struct IterMut<'a, T>(Vec<&'a mut T>);

impl<'a, T> IterMut<'a, T> {
    /// The borrows that are still to be handed out, in ascending order of
    /// their elements.
    pub closed spec fn refs(&self) -> Seq<&'a mut T> {
        Seq::new(self.0@.len(), |i: int| self.0@[self.0@.len() - 1 - i])
    }

    /// What is written through a borrow that is used no more is what the
    /// borrow holds now: a borrow that was not handed out leaves its element
    /// as it is.
    pub proof fn lemma_resolved(self)
        requires
            has_resolved(self),
        ensures
            forall|i: int|
                0 <= i < self.refs().len() ==> *final(#[trigger] self.refs()[i]) == *self.refs()[i],
    {
        assert forall|i: int| 0 <= i < self.refs().len() implies *final(#[trigger] self.refs()[i])
            == *self.refs()[i] by {
            assert(has_resolved(self.0));
            assert(has_resolved(self.0@[self.0@.len() - 1 - i]));
        }
    }

    /// Hands out the next borrow.
    pub fn next(&mut self) -> (r: Option<&'a mut T>)
        ensures
            old(self).refs().len() == 0 ==> r is None && final(self).refs() == old(self).refs(),
            old(self).refs().len() > 0 ==> r == Some(old(self).refs()[0]) && final(self).refs()
                == old(self).refs().drop_first(),
    {
        let r = self.0.pop();
        proof {
            if old(self).refs().len() > 0 {
                assert(self.refs() =~= old(self).refs().drop_first());
            } else {
                assert(self.refs() =~= old(self).refs());
            }
        }
        r
    }
}

} // verus!
