//! Stepping a light path through the scene.
//!
//! A path starts with a budget of bounces. On each leg the ray either leaves
//! the scene, is absorbed by the surface it meets, or is scattered by it; only
//! a scattered ray goes on, and each bounce uses up one unit of the budget.
//! A path whose budget is spent carries no light.

use vstd::prelude::*;

verus! {

/// What happens to a ray on one leg of its path.
#[derive(Clone, Copy, Debug, PartialEq, Eq, Structural)]
pub enum Encounter {
    /// The ray meets no surface.
    Miss,
    /// The ray meets a surface whose material swallows it.
    Absorbed,
    /// The ray meets a surface whose material sends it on.
    Scattered,
}

/// What a leg of a path comes to.
#[derive(Clone, Copy, Debug, PartialEq, Eq, Structural)]
pub enum Step {
    /// The path ends and carries no light.
    Black,
    /// The path ends in the sky, the only source of light.
    Sky,
    /// The path goes on along the scattered ray.
    Bounce,
}

/// What a leg comes to when `remaining` bounces are left and the ray meets
/// `met`.
pub open spec fn next_step(remaining: nat, met: Encounter) -> Step {
    if remaining == 0 {
        Step::Black
    } else {
        match met {
            Encounter::Miss => Step::Sky,
            Encounter::Absorbed => Step::Black,
            Encounter::Scattered => Step::Bounce,
        }
    }
}

/// What a path with a budget of `depth` bounces comes to over the legs
/// `legs`, the first leg first. `Step::Bounce` says that the path has not
/// ended within `legs`. Legs after the end of the path do not count.
pub open spec fn path_end(depth: nat, legs: Seq<Encounter>) -> Step
    decreases legs.len(),
{
    if depth == 0 {
        Step::Black
    } else if legs.len() == 0 {
        Step::Bounce
    } else if legs[0] == Encounter::Scattered {
        path_end((depth - 1) as nat, legs.drop_first())
    } else {
        next_step(depth, legs[0])
    }
}

/// A path that may not bounce at all is black, whatever the scene holds.
pub proof fn lemma_no_depth_is_black(legs: Seq<Encounter>)
    ensures
        path_end(0, legs) == Step::Black,
        forall|met: Encounter| next_step(0, met) == Step::Black,
{
}

/// A path with a budget of `depth` bounces has ended after `depth` legs.
pub proof fn lemma_depth_bounds_path(depth: nat, legs: Seq<Encounter>)
    requires
        legs.len() >= depth,
    ensures
        path_end(depth, legs) != Step::Bounce,
    decreases legs.len(),
{
    if depth > 0 && legs[0] == Encounter::Scattered {
        lemma_depth_bounds_path((depth - 1) as nat, legs.drop_first());
    }
}

/// The state of a path that is being traced: the bounces it has left.
#[derive(Clone, Copy, Debug)]
pub struct Path {
    remaining: u8,
}

impl Path {
    /// The bounces that the path has left.
    pub closed spec fn view(self) -> nat {
        self.remaining as nat
    }

    /// A path that may bounce `max_depth` times.
    pub fn new(max_depth: u8) -> (path: Path)
        ensures
            path@ == max_depth,
    {
        Path { remaining: max_depth }
    }

    /// The bounces that the path has left.
    pub fn remaining(&self) -> (remaining: u8)
        ensures
            remaining == self@,
    {
        self.remaining
    }

    /// Whether the budget is spent, so that the path is black without a
    /// further look at the scene.
    pub fn is_spent(&self) -> (spent: bool)
        ensures
            spent == (self@ == 0),
    {
        self.remaining == 0
    }

    /// Takes the path over one leg on which the ray meets `met`, and says
    /// what the leg comes to. A bounce uses up one unit of the budget; nothing
    /// else changes it.
    pub fn advance(&mut self, met: Encounter) -> (step: Step)
        ensures
            step == next_step(old(self)@, met),
            final(self)@ == if step == Step::Bounce {
                (old(self)@ - 1) as nat
            } else {
                old(self)@
            },
    {
        if self.remaining == 0 {
            return Step::Black;
        }
        match met {
            Encounter::Miss => Step::Sky,
            Encounter::Absorbed => Step::Black,
            Encounter::Scattered => {
                self.remaining = self.remaining - 1;
                Step::Bounce
            },
        }
    }

    /// Takes a fresh path with a budget of `max_depth` bounces over `legs`,
    /// and says what it comes to.
    pub fn follow(max_depth: u8, legs: &Vec<Encounter>) -> (end: Step)
        ensures
            end == path_end(max_depth as nat, legs@),
    {
        let mut path = Path::new(max_depth);
        let mut i: usize = 0;
        assert(legs@.subrange(0, legs@.len() as int) =~= legs@);
        while i < legs.len() && !path.is_spent()
            invariant
                i <= legs.len(),
                path@ <= max_depth,
                path_end(max_depth as nat, legs@) == path_end(path@, legs@.subrange(i as int, legs@.len() as int)),
            decreases legs.len() - i,
        {
            let ghost rest = legs@.subrange(i as int, legs@.len() as int);
            assert(rest[0] == legs@[i as int]);
            assert(rest.drop_first() =~= legs@.subrange(i + 1, legs@.len() as int));
            let step = path.advance(legs[i]);
            match step {
                Step::Bounce => {},
                _ => {
                    return step;
                },
            }
            i = i + 1;
        }
        if path.is_spent() {
            Step::Black
        } else {
            Step::Bounce
        }
    }
}

} // verus!
