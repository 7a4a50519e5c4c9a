//! Fusion of a vector-distance signal and a sparse-text relevance signal
//! into one bounded relevance score.
//!
//! Scores are fixed-point numbers: a value `x` stands for `x / SCORE_SCALE`,
//! so a fused score lies in `0..=SCORE_SCALE`. Distances and text relevances
//! are given in the same fixed-point unit.
use vstd::prelude::*;

verus! {

/// One unit of a fixed-point score, distance or relevance.
pub const SCORE_SCALE: u64 = 1_000_000;

/// Weights are expressed in parts of this total.
pub const WEIGHT_TOTAL: u64 = 10;

/// Default weight of the vector component (0.7).
pub const DEFAULT_VECTOR_WEIGHT: u64 = 7;

/// Default weight of the text component (0.3).
pub const DEFAULT_TEXT_WEIGHT: u64 = 3;

/// Default divisor that maps a raw text relevance into `[0, 1]`; empirical,
/// calibrated to the text engine's typical score range.
pub const DEFAULT_TEXT_DIVISOR: u64 = 10;

/// Tunable parameters of score fusion.
#[derive(Clone, Copy, Debug)]
pub struct FusionConfig {
    pub vector_weight: u64,
    pub text_weight: u64,
    pub text_divisor: u64,
}

impl FusionConfig {
    /// The weights share `WEIGHT_TOTAL` at most and the divisor is positive.
    pub open spec fn wf(&self) -> bool {
        &&& self.vector_weight + self.text_weight <= WEIGHT_TOTAL
        &&& self.text_divisor > 0
    }

    /// The calibrated defaults: weights 0.7 / 0.3, text divisor 10.
    pub fn standard() -> (r: FusionConfig)
        ensures
            r.vector_weight == DEFAULT_VECTOR_WEIGHT,
            r.text_weight == DEFAULT_TEXT_WEIGHT,
            r.text_divisor == DEFAULT_TEXT_DIVISOR,
            r.wf(),
    {
        FusionConfig {
            vector_weight: DEFAULT_VECTOR_WEIGHT,
            text_weight: DEFAULT_TEXT_WEIGHT,
            text_divisor: DEFAULT_TEXT_DIVISOR,
        }
    }
}

/// `1 / (1 + max(d, 0))` in fixed point; an absent distance contributes 0.
pub open spec fn vector_component(distance: Option<i64>) -> int {
    match distance {
        Some(d) => {
            let dd: int = if d < 0 { 0 } else { d as int };
            (SCORE_SCALE * SCORE_SCALE) as int / (SCORE_SCALE + dd)
        },
        None => 0,
    }
}

/// `min(t / divisor, 1)` in fixed point; an absent relevance contributes 0.
pub open spec fn text_component(text_score: Option<u64>, divisor: u64) -> int {
    match text_score {
        Some(t) => {
            let q: int = t as int / divisor as int;
            if q < SCORE_SCALE { q } else { SCORE_SCALE as int }
        },
        None => 0,
    }
}

/// The fused score: the weighted sum of both components, rounded down.
pub open spec fn fused_score(c: FusionConfig, distance: Option<i64>, text_score: Option<u64>) -> int {
    (c.vector_weight * vector_component(distance) + c.text_weight * text_component(
        text_score,
        c.text_divisor,
    )) / WEIGHT_TOTAL as int
}

proof fn lemma_vector_component_bounds(distance: Option<i64>)
    ensures
        0 <= vector_component(distance) <= SCORE_SCALE,
{
    if let Some(d) = distance {
        let dd: int = if d < 0 { 0 } else { d as int };
        let n: int = (SCORE_SCALE * SCORE_SCALE) as int;
        let s: int = SCORE_SCALE as int;
        assert(0 <= n / (s + dd) <= s) by (nonlinear_arith)
            requires
                n == s * s,
                s > 0,
                dd >= 0,
        {
            assert(n / (s + dd) <= n / s) by (nonlinear_arith)
                requires n >= 0, s > 0, dd >= 0, {
                vstd::arithmetic::div_mod::lemma_div_is_ordered_by_denominator(n, s, s + dd);
            }
        }
    }
}

proof fn lemma_weighted_sum_bounds(wv: int, wt: int, v: int, t: int)
    requires
        0 <= wv,
        0 <= wt,
        wv + wt <= WEIGHT_TOTAL,
        0 <= v <= SCORE_SCALE,
        0 <= t <= SCORE_SCALE,
    ensures
        0 <= wv * v + wt * t <= WEIGHT_TOTAL * SCORE_SCALE,
        0 <= (wv * v + wt * t) / WEIGHT_TOTAL as int <= SCORE_SCALE,
{
    let w: int = WEIGHT_TOTAL as int;
    let s: int = SCORE_SCALE as int;
    assert(0 <= wv * v + wt * t <= w * s) by (nonlinear_arith)
        requires 0 <= wv, 0 <= wt, wv + wt <= w, 0 <= v <= s, 0 <= t <= s, {
    }
    vstd::arithmetic::div_mod::lemma_div_is_ordered(wv * v + wt * t, w * s, w);
    vstd::arithmetic::div_mod::lemma_div_multiples_vanish(s, w);
    vstd::arithmetic::div_mod::lemma_div_pos_is_pos(wv * v + wt * t, w);
}

/// A fused score lies in `[0, 1]` (`0..=SCORE_SCALE` in fixed point) for
/// every distance and every text relevance.
pub proof fn lemma_fused_score_bounds(config: FusionConfig, distance: Option<i64>, text_score: Option<u64>)
    requires
        config.wf(),
    ensures
        0 <= fused_score(config, distance, text_score) <= SCORE_SCALE,
{
    lemma_vector_component_bounds(distance);
    lemma_weighted_sum_bounds(
        config.vector_weight as int,
        config.text_weight as int,
        vector_component(distance),
        text_component(text_score, config.text_divisor),
    );
}

/// Combines the two raw signals of one candidate into a score in
/// `0..=SCORE_SCALE`.
pub fn fuse(config: &FusionConfig, distance: Option<i64>, text_score: Option<u64>) -> (r: u64)
    requires
        config.wf(),
    ensures
        r == fused_score(*config, distance, text_score),
        r <= SCORE_SCALE,
{
    let vector: u64 = match distance {
        Some(d) => {
            let dd: u64 = if d < 0 { 0 } else { d as u64 };
            if dd >= SCORE_SCALE * SCORE_SCALE {
                0
            } else {
                (SCORE_SCALE * SCORE_SCALE) / (SCORE_SCALE + dd)
            }
        },
        None => 0,
    };
    let text: u64 = match text_score {
        Some(t) => {
            let q = t / config.text_divisor;
            if q < SCORE_SCALE { q } else { SCORE_SCALE }
        },
        None => 0,
    };
    proof {
        lemma_vector_component_bounds(distance);
        if let Some(d) = distance {
            let dd: int = if d < 0 { 0 } else { d as int };
            if dd >= SCORE_SCALE * SCORE_SCALE {
                let n: int = (SCORE_SCALE * SCORE_SCALE) as int;
                let s: int = SCORE_SCALE as int;
                assert(n / (s + dd) == 0) by {
                    vstd::arithmetic::div_mod::lemma_basic_div(n, s + dd);
                }
            }
        }
        assert(vector == vector_component(distance));
        assert(text == text_component(text_score, config.text_divisor));
        lemma_weighted_sum_bounds(config.vector_weight as int, config.text_weight as int, vector as int, text as int);
    }
    (config.vector_weight * vector + config.text_weight * text) / WEIGHT_TOTAL
}

} // verus!
