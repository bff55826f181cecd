//! Hit records, the interface of a surface, and the linear nearest-hit scan.
//!
//! The arithmetic that finds where a ray meets a sphere or a rectangle is not
//! part of this library. A surface states, through [`Hitable`], which function
//! of the ray its `hit` computes; the library decides which of several hits is
//! kept.
//!
//! What is proved of the library's own code holds for surfaces whose `hit`
//! does compute the function they name. For a surface written outside Verus
//! nothing checks that: it is taken on trust, and comes to this, that `hit`
//! answers the same ray in the same way every time.

use crate::vec3::Real;
use vstd::prelude::*;

verus! {

/// Distances at or beyond this bound never count as a hit.
pub const T_MAX: Real = 0x7fff_ffff_ffff_ffff;

/// One intersection of a ray with a surface.
///
/// `t` orders the hits along the ray. Everything else that shading needs (the
/// point, the normal, the surface parameters, the material) travels in
/// `detail`, which the library hands on untouched.
pub struct Hit<D> {
    pub t: Real,
    pub detail: D,
}

/// A surface that a ray can be tested against.
pub trait Hitable {
    /// The rays this surface understands.
    type Ray;

    /// What a hit carries besides its distance.
    type Detail;

    /// The function of the ray that `hit` computes.
    spec fn spec_hit(&self, r: &Self::Ray) -> Option<Hit<Self::Detail>>;

    /// The nearest valid intersection of `r` with the surface, if there is one.
    fn hit(&self, r: &Self::Ray) -> (h: Option<Hit<Self::Detail>>)
        ensures
            h == self.spec_hit(r),
    ;
}

/// The distance that a candidate has to beat.
pub open spec fn bar<D>(best: Option<Hit<D>>) -> Real {
    match best {
        Some(b) => b.t,
        None => T_MAX,
    }
}

/// The hit that is kept when `cand` comes in after `best`: the candidate wins
/// only if it is strictly closer than what was kept so far, and closer than
/// [`T_MAX`] where nothing was.
pub open spec fn spec_closer<D>(best: Option<Hit<D>>, cand: Option<Hit<D>>) -> Option<Hit<D>> {
    match cand {
        Some(c) => if c.t < bar(best) {
            cand
        } else {
            best
        },
        None => best,
    }
}

/// The hit that survives when the answers in `hits` come in from first to last.
pub open spec fn closest<D>(hits: Seq<Option<Hit<D>>>) -> Option<Hit<D>>
    decreases hits.len(),
{
    if hits.len() == 0 {
        None
    } else {
        spec_closer(closest(hits.drop_last()), hits.last())
    }
}

/// What each of `shapes` answers to the ray `r`, in order.
pub open spec fn answers<S: Hitable>(shapes: Seq<S>, r: &S::Ray) -> Seq<Option<Hit<S::Detail>>> {
    Seq::new(shapes.len(), |i: int| shapes[i].spec_hit(r))
}

/// Keeps the closer of two hits; see [`spec_closer`].
pub fn closer<D>(best: Option<Hit<D>>, cand: Option<Hit<D>>) -> (kept: Option<Hit<D>>)
    ensures
        kept == spec_closer(best, cand),
{
    match cand {
        Some(c) => {
            let limit = match &best {
                Some(b) => b.t,
                None => T_MAX,
            };
            if c.t < limit {
                Some(c)
            } else {
                best
            }
        },
        None => best,
    }
}

/// A list of surfaces is a surface: a ray hits it where it first hits one of
/// its members.
impl<S: Hitable> Hitable for Vec<S> {
    type Ray = S::Ray;

    type Detail = S::Detail;

    open spec fn spec_hit(&self, r: &Self::Ray) -> Option<Hit<Self::Detail>> {
        closest(answers(self@, r))
    }

    fn hit(&self, r: &Self::Ray) -> (h: Option<Hit<Self::Detail>>) {
        let mut rec: Option<Hit<S::Detail>> = None;
        let mut i: usize = 0;
        while i < self.len()
            invariant
                i <= self.len(),
                rec == closest(answers(self@, r).take(i as int)),
            decreases self.len() - i,
        {
            let temp_rec = self[i].hit(r);
            proof {
                let all = answers(self@, r);
                assert(all.take(i + 1).drop_last() == all.take(i as int));
                assert(all.take(i + 1).last() == self@[i as int].spec_hit(r));
            }
            rec = closer(rec, temp_rec);
            i += 1;
        }
        proof {
            let all = answers(self@, r);
            assert(all.take(i as int) == all);
        }
        rec
    }
}


/// The distance of a hit, if there is one.
pub open spec fn distance<D>(h: Option<Hit<D>>) -> Option<Real> {
    match h {
        Some(x) => Some(x.t),
        None => None,
    }
}

/// What survives a sequence of answers is one of them, closer than
/// [`T_MAX`] and at least as close as every other; nothing survives exactly
/// when no answer is closer than [`T_MAX`].
pub proof fn lemma_closest_is_nearest<D>(hits: Seq<Option<Hit<D>>>)
    ensures
        match closest(hits) {
            None => forall|i: int|
                0 <= i < hits.len() ==> ((#[trigger] hits[i]) matches Some(h) ==> h.t >= T_MAX),
            Some(c) => {
                &&& c.t < T_MAX
                &&& exists|i: int| 0 <= i < hits.len() && hits[i] == Some(c)
                &&& forall|i: int|
                    0 <= i < hits.len() ==> ((#[trigger] hits[i]) matches Some(h) ==> c.t <= h.t)
            },
        },
    decreases hits.len(),
{
    if hits.len() > 0 {
        let front = hits.drop_last();
        lemma_closest_is_nearest(front);
        assert forall|i: int| 0 <= i < front.len() implies front[i] == hits[i] by {}
        match closest(hits) {
            None => {},
            Some(c) => {
                if closest(hits) == hits.last() {
                    assert(hits[hits.len() - 1] == Some(c));
                } else {
                    let w = choose|w: int| 0 <= w < front.len() && front[w] == Some(c);
                    assert(hits[w] == Some(c));
                }
            },
        }
    }
}

} // verus!
