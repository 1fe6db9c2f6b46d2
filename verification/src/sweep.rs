//! Which surface a ray meets first.
//!
//! A ray meets a sphere at up to two parameters along its direction, the
//! roots of a quadratic. A root counts if it lies in the window from `lo` to
//! `hi`, both ends included, and of the two roots of a surface the nearer one
//! is tried first. A sweep over the scene keeps the nearest root found so far
//! as the upper end of the window, so that surfaces farther away are pruned.
//!
//! Parameters are compared, never computed with, so they are taken here as
//! integer keys: any numbering of the parameters that keeps their order, such
//! as the one in `keys`.

use vstd::prelude::*;

verus! {

/// Whether the parameter `t` lies in the window from `lo` to `hi`.
pub open spec fn in_window(t: i64, lo: i64, hi: i64) -> bool {
    lo <= t <= hi
}

/// The root at which a ray meets a surface within the window, given the two
/// roots of the surface with the nearer one first, or `None` where the ray
/// misses the surface altogether.
pub open spec fn chosen_root(roots: Option<(i64, i64)>, lo: i64, hi: i64) -> Option<i64> {
    match roots {
        None => None,
        Some((near, far)) => if in_window(near, lo, hi) {
            Some(near)
        } else if in_window(far, lo, hi) {
            Some(far)
        } else {
            None
        },
    }
}

/// Whether the nearer root of each surface stands first.
pub open spec fn roots_in_order(surfaces: Seq<Option<(i64, i64)>>) -> bool {
    forall|i: int|
        0 <= i < surfaces.len() ==> match #[trigger] surfaces[i] {
            Some((near, far)) => near <= far,
            None => true,
        }
}

/// Whether the surface at `index` is met at `t`, and no surface is met
/// before it: every other surface that the ray meets in the window is met at
/// `t` or later, and every such surface that stands after `index` is met
/// strictly later.
pub open spec fn is_nearest(
    surfaces: Seq<Option<(i64, i64)>>,
    lo: i64,
    hi: i64,
    index: int,
    t: i64,
) -> bool {
    &&& 0 <= index < surfaces.len()
    &&& chosen_root(surfaces[index], lo, hi) == Some(t)
    &&& forall|j: int|
        0 <= j < surfaces.len() ==> match #[trigger] chosen_root(surfaces[j], lo, hi) {
            Some(u) => t <= u && (j > index ==> t < u),
            None => true,
        }
}

/// With the nearer root first, the chosen root is the least root in the
/// window, and there is none exactly where neither root is in the window.
pub proof fn lemma_chosen_root_is_least(near: i64, far: i64, lo: i64, hi: i64)
    requires
        near <= far,
    ensures
        chosen_root(Some((near, far)), lo, hi) is None <==> !in_window(near, lo, hi) && !in_window(
            far,
            lo,
            hi,
        ),
        match chosen_root(Some((near, far)), lo, hi) {
            Some(t) => {
                &&& in_window(t, lo, hi)
                &&& t == near || t == far
                &&& in_window(near, lo, hi) ==> t <= near
                &&& in_window(far, lo, hi) ==> t <= far
            },
            None => true,
        },
{
}

/// Lowering the upper end of the window prunes and does nothing else: a
/// surface is met in the narrower window exactly where it is met in the wider
/// one at a root that the narrower window still holds, and then at that root.
pub proof fn lemma_pruning_keeps_roots(roots: Option<(i64, i64)>, lo: i64, hi: i64, closest: i64)
    requires
        closest <= hi,
        match roots {
            Some((near, far)) => near <= far,
            None => true,
        },
    ensures
        chosen_root(roots, lo, closest) == match chosen_root(roots, lo, hi) {
            Some(t) => if t <= closest {
                Some(t)
            } else {
                None
            },
            None => None,
        },
{
}

/// The order of the surfaces does not change where the ray is first met:
/// two scenes that hold the same surfaces, in whatever order, have their
/// nearest surface at the same root.
pub proof fn lemma_order_keeps_root(
    first: Seq<Option<(i64, i64)>>,
    second: Seq<Option<(i64, i64)>>,
    lo: i64,
    hi: i64,
    i: int,
    t: i64,
    j: int,
    u: i64,
)
    requires
        first.to_multiset() == second.to_multiset(),
        is_nearest(first, lo, hi, i, t),
        is_nearest(second, lo, hi, j, u),
    ensures
        t == u,
{
    first.to_multiset_ensures();
    second.to_multiset_ensures();
    assert(first.contains(first[i]));
    assert(second.contains(second[j]));
    assert(first.to_multiset().count(first[i]) > 0);
    assert(second.to_multiset().count(second[j]) > 0);
    assert(second.contains(first[i]));
    assert(first.contains(second[j]));
    let a = choose|a: int| 0 <= a < second.len() && second[a] == first[i];
    let b = choose|b: int| 0 <= b < first.len() && first[b] == second[j];
    assert(chosen_root(second[a], lo, hi) == Some(t));
    assert(chosen_root(first[b], lo, hi) == Some(u));
}

/// The root at which a ray meets a surface within the window from `lo` to
/// `hi`: the nearer root if the window holds it, else the farther one if the
/// window holds that, else none.
pub fn pick_root(roots: Option<(i64, i64)>, lo: i64, hi: i64) -> (root: Option<i64>)
    ensures
        root == chosen_root(roots, lo, hi),
{
    match roots {
        None => None,
        Some((near, far)) => {
            if !(near < lo || hi < near) {
                Some(near)
            } else if !(far < lo || hi < far) {
                Some(far)
            } else {
                None
            }
        },
    }
}

/// Sweeps the scene for the surface that the ray meets first within the
/// window from `lo` to `hi`, and gives its place in `surfaces` and the root.
///
/// Each entry of `surfaces` holds the two roots of one surface, or `None`
/// where the ray misses it. The sweep tests each surface against the window
/// that ends at the nearest root found so far. The result is `None` exactly
/// where no surface is met in the window from `lo` to `hi`; otherwise it is
/// the nearest surface, and of several met at the same root the last one.
pub fn nearest_hit(surfaces: &Vec<Option<(i64, i64)>>, lo: i64, hi: i64) -> (hit: Option<
    (usize, i64),
>)
    requires
        roots_in_order(surfaces@),
    ensures
        hit is None <==> forall|j: int|
            0 <= j < surfaces@.len() ==> #[trigger] chosen_root(surfaces@[j], lo, hi) is None,
        match hit {
            Some((index, t)) => is_nearest(surfaces@, lo, hi, index as int, t),
            None => true,
        },
{
    let mut hit: Option<(usize, i64)> = None;
    let mut closest: i64 = hi;
    let mut i: usize = 0;
    while i < surfaces.len()
        invariant
            i <= surfaces.len(),
            roots_in_order(surfaces@),
            closest <= hi,
            match hit {
                Some((index, t)) => {
                    &&& t == closest
                    &&& is_nearest(surfaces@.subrange(0, i as int), lo, hi, index as int, t)
                },
                None => {
                    &&& closest == hi
                    &&& forall|j: int|
                        0 <= j < i ==> #[trigger] chosen_root(surfaces@[j], lo, hi) is None
                },
            },
        decreases surfaces.len() - i,
    {
        let ghost seen = surfaces@.subrange(0, i as int);
        let ghost grown = surfaces@.subrange(0, i + 1);
        let found = pick_root(surfaces[i], lo, closest);
        proof {
            assert(surfaces@[i as int] == surfaces[i as int]);
            lemma_pruning_keeps_roots(surfaces@[i as int], lo, hi, closest);
            assert(grown[i as int] == surfaces@[i as int]);
            assert forall|j: int| 0 <= j < i implies #[trigger] grown[j] == seen[j] by {}
        }
        match found {
            Some(t) => {
                proof {
                    assert forall|j: int| 0 <= j < grown.len() implies match #[trigger] chosen_root(
                        grown[j],
                        lo,
                        hi,
                    ) {
                        Some(u) => t <= u && (j > i ==> t < u),
                        None => true,
                    } by {
                        if j < i {
                            assert(grown[j] == seen[j]);
                            if let Some((index, before)) = hit {
                                assert(chosen_root(seen[j], lo, hi) is Some ==> before
                                    <= chosen_root(seen[j], lo, hi).unwrap());
                            } else {
                                assert(chosen_root(surfaces@[j], lo, hi) is None);
                            }
                        }
                    }
                }
                closest = t;
                hit = Some((i, t));
            },
            None => {
                proof {
                    if let Some((index, t)) = hit {
                        assert(grown[index as int] == seen[index as int]);
                        assert forall|j: int| 0 <= j < grown.len() implies match #[trigger] chosen_root(
                            grown[j],
                            lo,
                            hi,
                        ) {
                            Some(u) => t <= u && (j > index ==> t < u),
                            None => true,
                        } by {
                            if j < i {
                                assert(grown[j] == seen[j]);
                                assert(chosen_root(seen[j], lo, hi) is Some ==> t <= chosen_root(
                                    seen[j],
                                    lo,
                                    hi,
                                ).unwrap());
                            }
                        }
                    }
                }
            },
        }
        i = i + 1;
    }
    proof {
        assert(surfaces@.subrange(0, i as int) =~= surfaces@);
        if let Some((index, t)) = hit {
            assert(chosen_root(surfaces@[index as int], lo, hi) is Some);
        }
    }
    hit
}

} // verus!
