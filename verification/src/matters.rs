//! What a ray meets: intersections, their order, and the frame in which a
//! hit is shaded.

use vstd::prelude::*;
use core::cmp::Ordering;
use crate::scalar::Scalar;
use crate::vector::{Point, Vec4};

pub mod light;
pub mod camera;
pub mod material;
pub mod sphere;

verus! {

/// A place where a ray meets an object, `distance` along the ray.
#[derive(Debug)]
pub struct Intersection<T: Clone> {
    pub distance: Scalar,
    pub object: T,
}

/// What shading needs to know of a hit.
pub struct PrerareComputation<T: Clone> {
    /// How far along the ray the hit is.
    pub distance: Scalar,
    /// The object that was hit.
    pub object: T,
    /// Where the hit is.
    pub point: Point,
    /// The direction from the hit back to the eye.
    pub eyev: Vec4,
    /// The surface normal at the hit, on the eye's side.
    pub normalv: Vec4,
    /// Whether the eye is inside the object.
    pub inside: bool,
    /// The hit, lifted a hair off the surface along the normal.
    pub over_point: Point,
}

impl<T: Clone> Intersection<T> {
    pub fn new(distance: Scalar, object: T) -> (i: Intersection<T>)
        ensures
            i.distance == distance,
            i.object == object,
    {
        Intersection { distance, object }
    }

    /// The intersection lies on the ray, not behind its origin: the
    /// distance is a number and not below zero.
    pub open spec fn ahead(self) -> bool {
        (Scalar { bits: 0 }).at_most(self.distance)
    }
}

impl<T: Clone> Clone for Intersection<T> {
    fn clone(&self) -> (i: Intersection<T>)
        ensures
            i.distance == self.distance,
            cloned(self.object, i.object),
    {
        Intersection { distance: self.distance, object: self.object.clone() }
    }
}

/// Two intersections are equal where their distances are the same number,
/// whatever was met.
impl<T: Clone> PartialEq for Intersection<T> {
    fn eq(&self, other: &Self) -> (r: bool) {
        self.distance.eq(other.distance)
    }
}

impl<T: Clone> vstd::std_specs::cmp::PartialEqSpecImpl for Intersection<T> {
    open spec fn obeys_eq_spec() -> bool {
        true
    }

    open spec fn eq_spec(&self, other: &Self) -> bool {
        self.distance.same(other.distance)
    }
}

/// Intersections are ordered by distance. Where one of two distances is
/// not a number, the first intersection counts as the greater.
impl<T: Clone> PartialOrd for Intersection<T> {
    fn partial_cmp(&self, other: &Self) -> (r: Option<Ordering>) {
        Some(self.cmp(other))
    }
}

impl<T: Clone> vstd::std_specs::cmp::PartialOrdSpecImpl for Intersection<T> {
    open spec fn obeys_partial_cmp_spec() -> bool {
        true
    }

    open spec fn partial_cmp_spec(&self, other: &Self) -> Option<Ordering> {
        Some(self.standing(other))
    }
}

impl<T: Clone> Intersection<T> {
    /// How `self` stands to `other` by distance.
    pub open spec fn standing(&self, other: &Self) -> Ordering {
        if self.distance.same(other.distance) {
            Ordering::Equal
        } else if self.distance.below(other.distance) {
            Ordering::Less
        } else {
            Ordering::Greater
        }
    }

    /// Compares two intersections by distance.
    pub fn cmp(&self, other: &Self) -> (r: Ordering)
        ensures
            r == self.standing(other),
    {
        if self.distance.eq(other.distance) {
            Ordering::Equal
        } else if self.distance.lt(other.distance) {
            Ordering::Less
        } else {
            Ordering::Greater
        }
    }
}

/// `i` is the place in `xs` of the hit: the intersection ahead on the ray
/// that none is nearer than, and the first of those in `xs` that are
/// equally near.
pub open spec fn is_hit<T: Clone>(xs: Seq<Intersection<T>>, i: int) -> bool {
    &&& 0 <= i < xs.len()
    &&& xs[i].ahead()
    &&& forall|j: int|
        0 <= j < xs.len() && (#[trigger] xs[j]).ahead() ==> xs[i].distance.rank() <= xs[j].distance.rank()
    &&& forall|j: int|
        0 <= j < i && (#[trigger] xs[j]).ahead() ==> xs[i].distance.rank() < xs[j].distance.rank()
}

/// There is at most one hit.
pub proof fn law_hit_is_unique<T: Clone>(xs: Seq<Intersection<T>>, i: int, j: int)
    requires
        is_hit(xs, i),
        is_hit(xs, j),
    ensures
        i == j,
{
    if i < j {
        assert(xs[i].ahead());
    } else if j < i {
        assert(xs[j].ahead());
    }
}

/// The hit among `xs` from the hit among all but the last of them, `best`:
/// the last one is the hit where it lies ahead and is nearer than `best`,
/// or there is no `best`; otherwise the hit stays.
proof fn lemma_hit_with_one_more<T: Clone>(xs: Seq<Intersection<T>>, best: Option<int>)
    requires
        xs.len() > 0,
        match best {
            Some(i) => is_hit(xs.drop_last(), i),
            None => forall|j: int| 0 <= j < xs.len() - 1 ==> !(#[trigger] xs[j]).ahead(),
        },
    ensures
        match best {
            Some(i) => if xs.last().ahead() && xs.last().distance.rank() < xs[i].distance.rank() {
                is_hit(xs, xs.len() - 1)
            } else {
                is_hit(xs, i)
            },
            None => if xs.last().ahead() {
                is_hit(xs, xs.len() - 1)
            } else {
                forall|j: int| 0 <= j < xs.len() ==> !(#[trigger] xs[j]).ahead()
            },
        },
{
    let before = xs.drop_last();
    assert(forall|j: int| 0 <= j < before.len() ==> before[j] == xs[j]);
    match best {
        Some(i) => {
            assert forall|j: int| 0 <= j < before.len() && (#[trigger] xs[j]).ahead() implies xs[i].distance.rank()
                <= xs[j].distance.rank() by {
                assert(before[j].ahead());
            }
            assert forall|j: int| 0 <= j < i && (#[trigger] xs[j]).ahead() implies xs[i].distance.rank()
                < xs[j].distance.rank() by {
                assert(before[j].ahead());
            }
        },
        None => {},
    }
}

/// The place in `intersections` of the hit, if there is one.
pub fn hit_index<T: Clone>(intersections: &[Intersection<T>]) -> (hit: Option<usize>)
    ensures
        match hit {
            Some(i) => is_hit(intersections@, i as int),
            None => forall|j: int| 0 <= j < intersections@.len() ==> !(#[trigger] intersections@[j]).ahead(),
        },
{
    let zero = Scalar::from_bits(0);
    let mut best: Option<usize> = None;
    let mut k: usize = 0;
    while k < intersections.len()
        invariant
            k <= intersections@.len(),
            zero.bits == 0,
            match best {
                Some(i) => i < k && is_hit(intersections@.take(k as int), i as int),
                None => forall|j: int| 0 <= j < k ==> !(#[trigger] intersections@[j]).ahead(),
            },
        decreases intersections@.len() - k,
    {
        proof {
            let upto = intersections@.take(k + 1);
            assert(upto.drop_last() =~= intersections@.take(k as int));
            assert(forall|j: int| 0 <= j <= k ==> upto[j] == intersections@[j]);
            lemma_hit_with_one_more(
                upto,
                match best {
                    Some(i) => Some(i as int),
                    None => None,
                },
            );
        }
        let d = intersections[k].distance;
        let nearer = match best {
            Some(i) => d.lt(intersections[i].distance),
            None => true,
        };
        if d.ge(zero) && nearer {
            best = Some(k);
        }
        k += 1;
    }
    assert(intersections@.take(k as int) =~= intersections@);
    best
}

/// From the first to the last, no distance is below the one before it.
pub open spec fn ascending<T: Clone>(xs: Seq<Intersection<T>>) -> bool {
    forall|i: int, j: int| 0 <= i < j < xs.len() ==> xs[i].distance.rank() <= xs[j].distance.rank()
}

/// Picks the intersections whose distance has rank `k`: those that are
/// just as far along the ray.
pub open spec fn at_rank<T: Clone>(k: int) -> spec_fn(Intersection<T>) -> bool {
    |x: Intersection<T>| x.distance.rank() == k
}

/// `out` holds the intersections of `xs` in ascending order of distance,
/// and those that are equally far stand in `out` as they stood in `xs`.
pub open spec fn is_sorting_of<T: Clone>(out: Seq<Intersection<T>>, xs: Seq<Intersection<T>>) -> bool {
    &&& ascending(out)
    &&& forall|k: int| #[trigger] out.filter(at_rank::<T>(k)) == xs.filter(at_rank::<T>(k))
}

proof fn lemma_filter_none<A>(s: Seq<A>, pred: spec_fn(A) -> bool)
    requires
        forall|i: int| 0 <= i < s.len() ==> !pred(#[trigger] s[i]),
    ensures
        s.filter(pred) == Seq::<A>::empty(),
    decreases s.len(),
{
    reveal(Seq::filter);
    if s.len() > 0 {
        assert(forall|i: int| 0 <= i < s.drop_last().len() ==> s.drop_last()[i] == s[i]);
        lemma_filter_none(s.drop_last(), pred);
    }
}

proof fn lemma_filter_one<A>(x: A, pred: spec_fn(A) -> bool)
    ensures
        seq![x].filter(pred) == if pred(x) {
            seq![x]
        } else {
            Seq::<A>::empty()
        },
{
    reveal(Seq::filter);
    assert(seq![x].drop_last() =~= Seq::<A>::empty());
    assert(seq![x].drop_last().filter(pred) =~= Seq::<A>::empty());
    assert(seq![x].last() == x);
    if pred(x) {
        assert(Seq::<A>::empty().push(x) =~= seq![x]);
    }
}

/// Sorts intersections by distance, nearest first; those that are equally
/// far keep their order.
pub fn sort_by_distance<T: Clone>(xs: Vec<Intersection<T>>) -> (out: Vec<Intersection<T>>)
    requires
        forall|i: int| 0 <= i < xs@.len() ==> !(#[trigger] xs@[i]).distance.nan(),
    ensures
        is_sorting_of(out@, xs@),
        out@.len() == xs@.len(),
{
    let ghost input = xs@;
    let mut rest = xs;
    let mut out: Vec<Intersection<T>> = Vec::new();
    assert(input.skip(input.len() as int) =~= Seq::empty());
    assert forall|k: int| #[trigger] out@.filter(at_rank::<T>(k)) == input.skip(rest@.len() as int).filter(at_rank::<T>(k)) by {
        lemma_filter_none(out@, at_rank::<T>(k));
        lemma_filter_none(input.skip(rest@.len() as int), at_rank::<T>(k));
    }
    while rest.len() > 0
        invariant
            rest@.len() <= input.len(),
            rest@ == input.take(rest@.len() as int),
            out@.len() + rest@.len() == input.len(),
            forall|i: int| 0 <= i < input.len() ==> !(#[trigger] input[i]).distance.nan(),
            forall|i: int| 0 <= i < out@.len() ==> !(#[trigger] out@[i]).distance.nan(),
            ascending(out@),
            forall|k: int| #[trigger] out@.filter(at_rank::<T>(k)) == input.skip(rest@.len() as int).filter(at_rank::<T>(k)),
        decreases rest@.len(),
    {
        let ghost n = rest@.len() as int;
        let ghost old_out = out@;
        let x = rest.pop().unwrap();
        assert(x == input[n - 1]);
        assert(rest@ =~= input.take(n - 1));
        let mut p: usize = 0;
        while p < out.len() && out[p].distance.lt(x.distance)
            invariant
                p <= out@.len(),
                forall|j: int| 0 <= j < p ==> (#[trigger] out@[j]).distance.rank() < x.distance.rank(),
            decreases out@.len() - p,
        {
            p += 1;
        }
        out.insert(p, x);
        proof {
            let head = old_out.take(p as int);
            let tail = old_out.skip(p as int);
            assert(old_out =~= head + tail);
            assert(out@ =~= head + seq![x] + tail);
            assert(input.skip(n - 1) =~= seq![x] + input.skip(n));
            assert(forall|j: int| 0 <= j < tail.len() ==> tail[j] == old_out[p + j]);
            if p < old_out.len() {
                assert(!old_out[p as int].distance.below(x.distance));
                assert(tail[0] == old_out[p as int]);
            }
            assert forall|i: int, j: int| 0 <= i < j < out@.len() implies out@[i].distance.rank()
                <= out@[j].distance.rank() by {
                if i < p && j < p {
                    assert(out@[i] == old_out[i] && out@[j] == old_out[j]);
                } else if i < p && j == p {
                    assert(out@[i] == old_out[i]);
                } else if i < p {
                    assert(out@[i] == old_out[i] && out@[j] == old_out[j - 1]);
                } else if i == p {
                    assert(out@[j] == old_out[j - 1]);
                    assert(old_out[p as int].distance.rank() <= old_out[j - 1].distance.rank());
                } else {
                    assert(out@[i] == old_out[i - 1] && out@[j] == old_out[j - 1]);
                }
            }
            assert forall|k: int| #[trigger] out@.filter(at_rank::<T>(k)) == input.skip(n - 1).filter(at_rank::<T>(k)) by {
                let pred = at_rank::<T>(k);
                Seq::filter_distributes_over_add(head, tail, pred);
                Seq::filter_distributes_over_add(head + seq![x], tail, pred);
                Seq::filter_distributes_over_add(head, seq![x], pred);
                Seq::filter_distributes_over_add(seq![x], input.skip(n), pred);
                lemma_filter_one(x, pred);
                assert(old_out.filter(pred) == input.skip(n).filter(pred));
                if pred(x) {
                    assert forall|j: int| 0 <= j < head.len() implies !pred(#[trigger] head[j]) by {
                        assert(head[j] == old_out[j]);
                    }
                    lemma_filter_none(head, pred);
                    assert(head.filter(pred) + seq![x] =~= seq![x]);
                    assert(head.filter(pred) + tail.filter(pred) =~= tail.filter(pred));
                } else {
                    assert(head.filter(pred) + Seq::<Intersection<T>>::empty() =~= head.filter(pred));
                    assert(Seq::<Intersection<T>>::empty() + input.skip(n).filter(pred) =~= input.skip(n).filter(pred));
                }
            }
        }
    }
    assert(input.skip(0) =~= input);
    out
}

proof fn lemma_filter_some<A>(s: Seq<A>, pred: spec_fn(A) -> bool)
    requires
        s.filter(pred).len() > 0,
    ensures
        exists|i: int| 0 <= i < s.len() && pred(#[trigger] s[i]),
{
    if forall|i: int| 0 <= i < s.len() ==> !pred(#[trigger] s[i]) {
        lemma_filter_none(s, pred);
    }
}

proof fn lemma_filter_last<A>(s: Seq<A>, pred: spec_fn(A) -> bool)
    requires
        s.len() > 0,
    ensures
        s.filter(pred) == if pred(s.last()) {
            s.drop_last().filter(pred).push(s.last())
        } else {
            s.drop_last().filter(pred)
        },
{
    reveal(Seq::filter);
}

/// Intersections can be sorted in one way only: what two sortings of the
/// same intersections give is the same.
pub proof fn law_sorting_is_unique<T: Clone>(
    a: Seq<Intersection<T>>,
    b: Seq<Intersection<T>>,
    xs: Seq<Intersection<T>>,
)
    requires
        is_sorting_of(a, xs),
        is_sorting_of(b, xs),
    ensures
        a == b,
{
    assert forall|k: int| #[trigger] a.filter(at_rank::<T>(k)) == b.filter(at_rank::<T>(k)) by {
        assert(a.filter(at_rank::<T>(k)) == xs.filter(at_rank::<T>(k)));
        assert(b.filter(at_rank::<T>(k)) == xs.filter(at_rank::<T>(k)));
    }
    lemma_equal_ties_equal_lists(a, b);
}

proof fn lemma_equal_ties_equal_lists<T: Clone>(a: Seq<Intersection<T>>, b: Seq<Intersection<T>>)
    requires
        ascending(a),
        ascending(b),
        forall|k: int| #[trigger] a.filter(at_rank::<T>(k)) == b.filter(at_rank::<T>(k)),
    ensures
        a == b,
    decreases a.len() + b.len(),
{
    if a.len() == 0 && b.len() == 0 {
        assert(a =~= b);
    } else if a.len() == 0 || b.len() == 0 {
        let (full, none) = if a.len() == 0 {
            (b, a)
        } else {
            (a, b)
        };
        let k = full.last().distance.rank();
        lemma_filter_last(full, at_rank::<T>(k));
        lemma_filter_none(none, at_rank::<T>(k));
        assert(full.filter(at_rank::<T>(k)).len() > 0);
        assert(a.filter(at_rank::<T>(k)) == b.filter(at_rank::<T>(k)));
    } else {
        let ka = a.last().distance.rank();
        let kb = b.last().distance.rank();
        lemma_filter_last(a, at_rank::<T>(ka));
        lemma_filter_last(b, at_rank::<T>(kb));
        assert(a.filter(at_rank::<T>(ka)) == b.filter(at_rank::<T>(ka)));
        assert(a.filter(at_rank::<T>(kb)) == b.filter(at_rank::<T>(kb)));
        lemma_filter_some(b, at_rank::<T>(ka));
        lemma_filter_some(a, at_rank::<T>(kb));
        assert(ka == kb);
        let da = a.drop_last();
        let db = b.drop_last();
        assert(da.filter(at_rank::<T>(ka)).push(a.last()) == db.filter(at_rank::<T>(ka)).push(b.last()));
        assert(da.filter(at_rank::<T>(ka)).push(a.last()).last() == a.last());
        assert(db.filter(at_rank::<T>(ka)).push(b.last()).last() == b.last());
        assert(a.last() == b.last());
        assert(da.filter(at_rank::<T>(ka)) =~= da.filter(at_rank::<T>(ka)).push(a.last()).drop_last());
        assert(db.filter(at_rank::<T>(ka)) =~= db.filter(at_rank::<T>(ka)).push(b.last()).drop_last());
        assert forall|k: int| #[trigger] da.filter(at_rank::<T>(k)) == db.filter(at_rank::<T>(k)) by {
            lemma_filter_last(a, at_rank::<T>(k));
            lemma_filter_last(b, at_rank::<T>(k));
            assert(a.filter(at_rank::<T>(k)) == b.filter(at_rank::<T>(k)));
        }
        assert(ascending(da)) by {
            assert forall|i: int, j: int| 0 <= i < j < da.len() implies da[i].distance.rank()
                <= da[j].distance.rank() by {
                assert(da[i] == a[i] && da[j] == a[j]);
            }
        }
        assert(ascending(db)) by {
            assert forall|i: int, j: int| 0 <= i < j < db.len() implies db[i].distance.rank()
                <= db[j].distance.rank() by {
                assert(db[i] == b[i] && db[j] == b[j]);
            }
        }
        lemma_equal_ties_equal_lists(da, db);
        assert(a =~= da.push(a.last()));
        assert(b =~= db.push(b.last()));
    }
}

/// In a list that is sorted, the hit is the first intersection that lies
/// ahead on the ray.
pub proof fn law_hit_of_sorted<T: Clone>(xs: Seq<Intersection<T>>, i: int)
    requires
        ascending(xs),
        forall|j: int| 0 <= j < xs.len() ==> !(#[trigger] xs[j]).distance.nan(),
        0 <= i < xs.len(),
    ensures
        is_hit(xs, i) <==> xs[i].ahead() && forall|j: int| 0 <= j < i ==> !(#[trigger] xs[j]).ahead(),
{
    if xs[i].ahead() && forall|j: int| 0 <= j < i ==> !(#[trigger] xs[j]).ahead() {
        assert forall|j: int| 0 <= j < xs.len() && (#[trigger] xs[j]).ahead() implies xs[i].distance.rank()
            <= xs[j].distance.rank() by {
            if j < i {
                assert(!xs[j].ahead());
            }
        }
    }
    if is_hit(xs, i) {
        assert forall|j: int| 0 <= j < i implies !(#[trigger] xs[j]).ahead() by {
            if xs[j].ahead() {
                assert(xs[i].distance.rank() < xs[j].distance.rank());
                assert(xs[j].distance.rank() <= xs[i].distance.rank());
            }
        }
    }
}

proof fn lemma_filter_first<A>(s: Seq<A>, pred: spec_fn(A) -> bool, i: int)
    requires
        0 <= i < s.len(),
        pred(s[i]),
        forall|j: int| 0 <= j < i ==> !pred(#[trigger] s[j]),
    ensures
        s.filter(pred).len() > 0,
        s.filter(pred)[0] == s[i],
    decreases s.len(),
{
    lemma_filter_last(s, pred);
    let front = s.drop_last();
    assert(forall|j: int| 0 <= j < front.len() ==> front[j] == s[j]);
    if i == s.len() - 1 {
        lemma_filter_none(front, pred);
    } else {
        lemma_filter_first(front, pred, i);
    }
}

/// The hit of a list is the first of its intersections that are as far as
/// the hit.
proof fn lemma_hit_leads_its_ties<T: Clone>(xs: Seq<Intersection<T>>, i: int)
    requires
        is_hit(xs, i),
        forall|j: int| 0 <= j < xs.len() ==> !(#[trigger] xs[j]).distance.nan(),
    ensures
        xs.filter(at_rank::<T>(xs[i].distance.rank())).len() > 0,
        xs.filter(at_rank::<T>(xs[i].distance.rank()))[0] == xs[i],
{
    let k = xs[i].distance.rank();
    assert forall|j: int| 0 <= j < i implies !at_rank::<T>(k)(#[trigger] xs[j]) by {
        if xs[j].distance.rank() == k {
            assert(xs[j].ahead());
        }
    }
    lemma_filter_first(xs, at_rank::<T>(k), i);
}

/// Sorting does not change what is hit: the hit of the sorted list is the
/// intersection that is the hit of the list as it was.
pub proof fn law_sorting_keeps_the_hit<T: Clone>(
    out: Seq<Intersection<T>>,
    xs: Seq<Intersection<T>>,
    i: int,
    j: int,
)
    requires
        is_sorting_of(out, xs),
        forall|n: int| 0 <= n < xs.len() ==> !(#[trigger] xs[n]).distance.nan(),
        forall|n: int| 0 <= n < out.len() ==> !(#[trigger] out[n]).distance.nan(),
        is_hit(xs, i),
        is_hit(out, j),
    ensures
        out[j] == xs[i],
{
    let k = xs[i].distance.rank();
    let l = out[j].distance.rank();
    lemma_hit_leads_its_ties(xs, i);
    lemma_hit_leads_its_ties(out, j);
    assert(out.filter(at_rank::<T>(k)) == xs.filter(at_rank::<T>(k)));
    assert(out.filter(at_rank::<T>(l)) == xs.filter(at_rank::<T>(l)));
    lemma_filter_some(out, at_rank::<T>(k));
    lemma_filter_some(xs, at_rank::<T>(l));
    let n = choose|n: int| 0 <= n < out.len() && at_rank::<T>(k)(#[trigger] out[n]);
    let m = choose|m: int| 0 <= m < xs.len() && at_rank::<T>(l)(#[trigger] xs[m]);
    assert(out[n].ahead());
    assert(xs[m].ahead());
    assert(k == l);
}

impl<T: Clone> PrerareComputation<T> {
    /// Turns a surface normal to the eye's side.
    ///
    /// `normal_dot_eye` is the cosine of the angle between the normal and
    /// the direction to the eye. Where it is below zero the normal points
    /// away from the eye: the eye is inside the object, and the normal is
    /// reversed. Returns the normal to shade with and whether the eye is
    /// inside.
    pub fn facing(normal: Vec4, normal_dot_eye: Scalar) -> (r: (Vec4, bool))
        ensures
            r.1 == normal_dot_eye.below(Scalar { bits: 0 }),
            r.0 == if r.1 {
                normal.reversed()
            } else {
                normal
            },
    {
        if normal_dot_eye.lt(Scalar::from_bits(0)) {
            (core::ops::Neg::neg(normal), true)
        } else {
            (normal, false)
        }
    }
}

} // verus!
