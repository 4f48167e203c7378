//! The animations a `CALayer` holds that were added without a key. Adding the
//! same one twice that way, or removing one that is not there, is a bug in
//! the caller, so both are refused.
//!
//! Retaining and releasing the animation objects is the caller's; this
//! decides which object each of those is about.

use crate::objc::Id;
use std::collections::HashSet;
use vstd::prelude::*;

verus! {

broadcast use vstd::std_specs::hash::group_hash_axioms;

/// A layer's animations added without a key.
#[derive(Debug)]
pub struct LayerAnimations {
    anonymous_animations: HashSet<Id>,
}

impl LayerAnimations {
    /// The animations added without a key.
    pub closed spec fn anonymous(&self) -> Set<Id> {
        self.anonymous_animations@
    }

    /// No animations.
    pub fn new() -> (r: LayerAnimations)
        ensures
            r.anonymous() == Set::<Id>::empty(),
    {
        LayerAnimations { anonymous_animations: HashSet::new() }
    }

    /// `-addAnimation:forKey:` without a key. Adding the same animation twice
    /// that way is refused.
    pub fn add_anonymous_animation(&mut self, anim: Id)
        requires
            !old(self).anonymous().contains(anim),
        ensures
            final(self).anonymous() == old(self).anonymous().insert(anim),
    {
        self.anonymous_animations.insert(anim);
    }
}

/// Take the animation `animation`, added without a key, off the layer's
/// animations. It must be there. The layer held the one reference that
/// adding it took; the result is the object whose reference the caller
/// must now release, exactly once: the animation taken off.
pub fn remove_anonymous_animation(layer: &mut LayerAnimations, animation: Id) -> (to_release: Id)
    requires
        old(layer).anonymous().contains(animation),
    ensures
        final(layer).anonymous() == old(layer).anonymous().remove(animation),
        to_release == animation,
{
    layer.anonymous_animations.remove(&animation);
    animation
}

// MARK: - The common ancestor of two layers

/// The position of the first `x` among the first `n` layers of `chain`.
pub open spec fn find_in(chain: Seq<Id>, x: Id, n: int) -> Option<int>
    decreases n,
{
    if n <= 0 {
        None
    } else {
        match find_in(chain, x, n - 1) {
            Some(j) => Some(j),
            None => if chain[n - 1] == x {
                Some(n - 1)
            } else {
                None
            },
        }
    }
}

/// The search for a common ancestor of the layers whose superlayer chains,
/// each starting at the layer itself, are `t` and `o`, having walked `t` up
/// to position `a` and `o` up to position `b` (a position past the end
/// being the missing superlayer of the topmost layer). The walks alternate,
/// one step up each; a step that reaches a layer the other walk has passed
/// (the other layer itself among them) ends the search there, as positions
/// in `t` and `o`.
pub open spec fn ancestor_search(t: Seq<Id>, o: Seq<Id>, a: int, b: int) -> Option<(int, int)>
    decreases (t.len() - a) + (o.len() - b),
{
    if a < 0 || b < 0 || a > t.len() || b > o.len() || (a == t.len() && b == o.len()) {
        None
    } else {
        let next_a = if a < t.len() { a + 1 } else { a };
        let found_a = if a < t.len() && next_a < t.len() {
            find_in(o, t[next_a], if b < o.len() { b + 1 } else { b })
        } else {
            None
        };
        match found_a {
            Some(j) => Some((next_a, j)),
            None => {
                let next_b = if b < o.len() { b + 1 } else { b };
                let found_b = if b < o.len() && next_b < o.len() {
                    find_in(t, o[next_b], if next_a < t.len() { next_a + 1 } else { next_a })
                } else {
                    None
                };
                match found_b {
                    Some(i) => Some((i, next_b)),
                    None => ancestor_search(t, o, next_a, next_b),
                }
            },
        }
    }
}

/// The position of the first `x` among the first `n` layers of `chain`.
fn position_in(chain: &[Id], x: Id, n: usize) -> (r: Option<usize>)
    requires
        n <= chain.len(),
    ensures
        match r {
            Some(j) => find_in(chain@, x, n as int) == Some(j as int),
            None => find_in(chain@, x, n as int) is None,
        },
{
    let mut j: usize = 0;
    while j < n
        invariant
            j <= n <= chain.len(),
            find_in(chain@, x, j as int) is None,
        decreases n - j,
    {
        if chain[j] == x {
            proof {
                lemma_find_in_extends(chain@, x, j as int + 1, n as int);
            }
            return Some(j);
        }
        j = j + 1;
    }
    None
}

/// Once found among the first `m` layers, a layer is found there among any
/// more.
proof fn lemma_find_in_extends(chain: Seq<Id>, x: Id, m: int, n: int)
    requires
        0 <= m <= n,
        find_in(chain, x, m) is Some,
    ensures
        find_in(chain, x, n) == find_in(chain, x, m),
    decreases n - m,
{
    if m < n {
        lemma_find_in_extends(chain, x, m, n - 1);
    }
}

/// The common ancestor of two layers, from their superlayer chains, each
/// starting at the layer itself and ending at the topmost layer: the walks
/// up the two chains alternate one step at a time, and the first layer one
/// walk reaches that the other has passed is the ancestor, returned as its
/// positions in the two chains. None where the chains share no such layer.
pub fn common_ancestor(this_chain: &[Id], other_chain: &[Id]) -> (r: Option<(usize, usize)>)
    requires
        this_chain.len() > 0,
        other_chain.len() > 0,
    ensures
        match r {
            Some((i, j)) => ancestor_search(this_chain@, other_chain@, 0, 0) == Some((i as int, j as int))
                && i < this_chain.len() && j < other_chain.len() && this_chain@[i as int]
                == other_chain@[j as int],
            None => ancestor_search(this_chain@, other_chain@, 0, 0) is None,
        },
{
    let t_len = this_chain.len();
    let o_len = other_chain.len();
    let mut a: usize = 0;
    let mut b: usize = 0;
    while !(a == t_len && b == o_len)
        invariant
            t_len == this_chain.len(),
            o_len == other_chain.len(),
            a <= t_len,
            b <= o_len,
            ancestor_search(this_chain@, other_chain@, 0, 0) == ancestor_search(
                this_chain@,
                other_chain@,
                a as int,
                b as int,
            ),
        decreases (t_len - a) + (o_len - b),
    {
        let next_a = if a < t_len { a + 1 } else { a };
        if a < t_len && next_a < t_len {
            let limit = if b < o_len { b + 1 } else { b };
            match position_in(other_chain, this_chain[next_a], limit) {
                Some(j) => {
                    proof {
                        lemma_find_in_found(other_chain@, this_chain@[next_a as int], limit as int);
                    }
                    return Some((next_a, j));
                },
                None => {},
            }
        }
        let next_b = if b < o_len { b + 1 } else { b };
        if b < o_len && next_b < o_len {
            let limit = if next_a < t_len { next_a + 1 } else { next_a };
            match position_in(this_chain, other_chain[next_b], limit) {
                Some(i) => {
                    proof {
                        lemma_find_in_found(this_chain@, other_chain@[next_b as int], limit as int);
                    }
                    return Some((i, next_b));
                },
                None => {},
            }
        }
        a = next_a;
        b = next_b;
    }
    None
}

/// What is found is a layer of the chain, the one looked for.
proof fn lemma_find_in_found(chain: Seq<Id>, x: Id, n: int)
    requires
        n <= chain.len(),
    ensures
        find_in(chain, x, n) matches Some(j) ==> 0 <= j < n && chain[j] == x,
    decreases n,
{
    if n > 0 {
        lemma_find_in_found(chain, x, n - 1);
    }
}
} // verus!
