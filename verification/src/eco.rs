//! The autotuner: a (1+1)-style stochastic hill-climb over the growth
//! profiles' parameters, scored by survival time (cycle count), with an
//! explicit anti-explosion penalty and restart-from-best exploration.
//!
//! The random choices — which coordinate to perturb, and by how much —
//! are drawn from an injected seedable generator and handed to the
//! deterministic `compare_with`, so the whole decision is an exactly
//! specified function of the state and the draws.

use vstd::prelude::*;

use crate::conv::copy_cells;
use crate::fixed::PARAM_LIMIT;
use crate::lenia::{params_valid, Eco, LAYER_LIMIT};
use crate::rng::rand_below;

verus! {

/// Fitness above this is judged an explosion and punished.
pub const HEALTHY_LIMIT: i64 = 100_000;

/// Half-range of a width perturbation.
pub const WIDTH_JITTER: i64 = 1_000;

/// Half-range of an offset perturbation, an order of magnitude larger:
/// widths are the more sensitive coordinate.
pub const OFFSET_JITTER: i64 = 10_000;

/// The trial length that enters the comparison: an exploding run (fitness
/// above HEALTHY_LIMIT) has its cycle count scaled down by 8/10, so an
/// unstable-but-long-lived run is not mistaken for a good parameter set.
pub open spec fn punished_cycles(fitness: int, cycles: int) -> int {
    if fitness > HEALTHY_LIMIT {
        cycles * 8 / 10
    } else {
        cycles
    }
}

/// The value a perturbed coordinate takes: the best-known value plus the
/// jitter, clamped into the parameter range; a width that would land
/// exactly on zero keeps the best-known value instead, so profiles stay
/// valid.
pub open spec fn perturbed_param(base: int, jitter: int, is_width: bool) -> int {
    let c0 = base + jitter;
    let c = if c0 > PARAM_LIMIT {
        PARAM_LIMIT as int
    } else if c0 < -PARAM_LIMIT {
        -PARAM_LIMIT as int
    } else {
        c0
    };
    if is_width && c == 0 {
        base
    } else {
        c
    }
}

/// The single-coordinate perturbation one autotuner step applies, for the
/// draw (pick, jitter): layer pick / 2 has one growth coordinate — the
/// offset on an even pick, the width on an odd one — set from the given
/// best parameters plus the jitter; every other layer, and everything
/// else of the chosen layer, is untouched.
pub open spec fn perturb_applied(pre: Eco, post: Eco, best: Best, pick: usize, jitter: i64) -> bool {
    let l = (pick / 2) as int;
    let p: int = if pick % 2 == 0 {
        1
    } else {
        0
    };
    let lay_old = pre.layers@[l];
    let lay_new = post.layers@[l];
    &&& pick < 2 * pre.layers@.len()
    &&& (pick % 2 == 0 ==> -OFFSET_JITTER <= jitter <= OFFSET_JITTER)
    &&& (pick % 2 == 1 ==> -WIDTH_JITTER <= jitter <= WIDTH_JITTER)
    &&& post.layers@.len() == pre.layers@.len()
    &&& (forall|j: int| 0 <= j < post.layers@.len() && j != l
        ==> #[trigger] post.layers@[j] == pre.layers@[j])
    &&& lay_new.kernel == lay_old.kernel
    &&& lay_new.kernel_lookup == lay_old.kernel_lookup
    &&& lay_new.channel_id == lay_old.channel_id
    &&& lay_new.radius == lay_old.radius
    &&& lay_new.corner_policy == lay_old.corner_policy
    &&& lay_new.matrix_out == lay_old.matrix_out
    &&& lay_new.growth_map.shape == lay_old.growth_map.shape
    &&& lay_new.growth_map.centering == lay_old.growth_map.centering
    &&& lay_new.growth_map.parameters@ == lay_old.growth_map.parameters@.update(
        p,
        perturbed_param(best.g_params@[l]@[p] as int, jitter as int, pick % 2 == 1) as i64,
    )
}

/// The best parameter set seen so far: one growth-profile parameter list
/// per layer, and the cycle count that earned it. Owns no simulation
/// state; it operates on a borrowed ecosystem.
#[derive(Debug)]
pub struct Best {
    /// One copy of the growth profile's parameters per layer.
    pub g_params: Vec<Vec<i64>>,
    /// The best (possibly punished) cycle count seen so far.
    pub cycles: usize,
}

impl Best {
    /// The record matches the ecosystem: one valid parameter list per
    /// layer.
    pub open spec fn valid_for(&self, eco: Eco) -> bool {
        &&& self.g_params@.len() == eco.layers@.len()
        &&& forall|l: int| 0 <= l < self.g_params@.len()
            ==> params_valid((#[trigger] self.g_params@[l])@)
    }

    /// One autotuner step with the random choices injected: `pick`
    /// selects the coordinate (layer `pick / 2`; the offset parameter on
    /// an even pick, the width on an odd one) and `jitter` the shift.
    ///
    /// The trial's possibly punished cycle count is compared against the
    /// best; on improvement the ecosystem's growth parameters and the
    /// punished count are recorded. Either way, the chosen coordinate is
    /// set to the best-known value plus the jitter, and the ecosystem's
    /// cycle counter is reset so the perturbed configuration gets a
    /// fresh, independently measured trial.
    pub fn compare_with(&mut self, eco: &mut Eco, pick: usize, jitter: i64) -> (improved: bool)
        requires
            old(eco).ready(),
            old(self).valid_for(*old(eco)),
            1 <= old(eco).layers@.len(),
            pick < 2 * old(eco).layers@.len(),
            pick % 2 == 0 ==> -OFFSET_JITTER <= jitter <= OFFSET_JITTER,
            pick % 2 == 1 ==> -WIDTH_JITTER <= jitter <= WIDTH_JITTER,
            old(eco).cycles <= usize::MAX / 8,
        ensures
            improved == (punished_cycles(old(eco).fitness as int, old(eco).cycles as int)
                > old(self).cycles),
            improved ==> {
                &&& final(self).cycles == punished_cycles(old(eco).fitness as int,
                    old(eco).cycles as int)
                &&& final(self).g_params@.len() == old(eco).layers@.len()
                &&& forall|l: int| 0 <= l < final(self).g_params@.len()
                    ==> (#[trigger] final(self).g_params@[l])@
                        == old(eco).layers@[l].growth_map.parameters@
            },
            !improved ==> *final(self) == *old(self),
            final(eco).cycles == 0,
            final(eco).channels == old(eco).channels,
            final(eco).delta == old(eco).delta,
            final(eco).size == old(eco).size,
            final(eco).fitness == old(eco).fitness,
            final(eco).layers@.len() == old(eco).layers@.len(),
            perturb_applied(*old(eco), *final(eco), *final(self), pick, jitter),
            final(eco).ready(),
            final(self).valid_for(*final(eco)),
    {
        let punished: usize = if eco.fitness > HEALTHY_LIMIT {
            eco.cycles * 8 / 10
        } else {
            eco.cycles
        };
        proof {
            vstd::arithmetic::div_mod::lemma_div_pos_is_pos(
                (old(eco).cycles as int) * 8, 10);
        }
        let improved: bool = punished > self.cycles;
        if improved {
            let mut ps: Vec<Vec<i64>> = Vec::new();
            let mut l: usize = 0;
            while l < eco.layers.len()
                invariant
                    0 <= l <= eco.layers@.len(),
                    eco == old(eco),
                    ps@.len() == l,
                    forall|j: int| 0 <= j < l ==> (#[trigger] ps@[j])@
                        == old(eco).layers@[j].growth_map.parameters@,
                decreases eco.layers@.len() - l,
            {
                ps.push(copy_cells(&eco.layers[l].growth_map.parameters));
                l = l + 1;
            }
            self.g_params = ps;
            self.cycles = punished;
        }

        let layer_idx: usize = pick / 2;
        let p_idx: usize = if pick % 2 == 0 { 1 } else { 0 };
        proof {
            vstd::arithmetic::div_mod::lemma_div_pos_is_pos(pick as int, 2);
            assert(pick < 2 * old(eco).layers@.len());
            vstd::arithmetic::div_mod::lemma_multiply_divide_lt(
                pick as int, 2, old(eco).layers@.len() as int);
            assert(params_valid(self.g_params@[layer_idx as int]@));
        }
        let base: i64 = self.g_params[layer_idx][p_idx];
        let mut cand: i64 = base + jitter;
        if cand > PARAM_LIMIT {
            cand = PARAM_LIMIT;
        }
        if cand < -PARAM_LIMIT {
            cand = -PARAM_LIMIT;
        }
        if pick % 2 == 1 && cand == 0 {
            cand = base;
        }
        proof {
            assert(params_valid(old(eco).layers@[layer_idx as int].growth_map.parameters@));
        }
        eco.layers[layer_idx].set_growth_param(p_idx, cand);
        eco.cycles = 0;
        proof {
            let le = eco.layers@[layer_idx as int];
            assert(le.config_ok() && le.kernel_ready());
            assert(eco.ready());
        }
        improved
    }

    /// One autotuner step, drawing the coordinate and the jitter from the
    /// injected seedable generator and applying `compare_with`. The
    /// improvement decision and the bookkeeping do not depend on the
    /// draws; the perturbation lands on one growth coordinate within the
    /// jitter bounds, and the ecosystem stays ready to tick.
    pub fn compare(&mut self, eco: &mut Eco, rng: &mut rand::rngs::StdRng) -> (improved: bool)
        requires
            old(eco).ready(),
            old(self).valid_for(*old(eco)),
            1 <= old(eco).layers@.len(),
            old(eco).cycles <= usize::MAX / 8,
        ensures
            improved == (punished_cycles(old(eco).fitness as int, old(eco).cycles as int)
                > old(self).cycles),
            improved ==> {
                &&& final(self).cycles == punished_cycles(old(eco).fitness as int,
                    old(eco).cycles as int)
                &&& final(self).g_params@.len() == old(eco).layers@.len()
                &&& forall|l: int| 0 <= l < final(self).g_params@.len()
                    ==> (#[trigger] final(self).g_params@[l])@
                        == old(eco).layers@[l].growth_map.parameters@
            },
            !improved ==> *final(self) == *old(self),
            final(eco).cycles == 0,
            final(eco).channels == old(eco).channels,
            final(eco).delta == old(eco).delta,
            final(eco).size == old(eco).size,
            final(eco).fitness == old(eco).fitness,
            final(eco).layers@.len() == old(eco).layers@.len(),
            exists|pick: usize, jitter: i64|
                #[trigger] perturb_applied(*old(eco), *final(eco), *final(self), pick, jitter),
            final(eco).ready(),
            final(self).valid_for(*final(eco)),
    {
        let n: usize = eco.layers.len();
        proof {
            assert(n <= LAYER_LIMIT);
        }
        let pick64: u64 = rand_below(rng, (2 * n) as u64);
        let pick: usize = pick64 as usize;
        let m: i64 = if pick % 2 == 0 {
            OFFSET_JITTER
        } else {
            WIDTH_JITTER
        };
        let j64: u64 = rand_below(rng, (2 * m) as u64);
        let jitter: i64 = (j64 as i64) - m;
        let improved: bool = self.compare_with(eco, pick, jitter);
        proof {
            assert(perturb_applied(*old(eco), *eco, *self, pick, jitter));
        }
        improved
    }
}

} // verus!
