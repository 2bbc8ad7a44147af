//! How long a worker needs for a pearl.
//!
//! A layer of thickness `t` worked at rate `r` takes `t / r` ticks, rounded
//! up to a whole tick. A pearl takes the sum over its layers.

use vstd::prelude::*;
use crate::models::ability_map::AbilityMap;
use crate::models::state::LayerView;

verus! {

/// `thickness / rate`, rounded up.
pub open spec fn ceil_div(thickness: nat, rate: nat) -> nat
    recommends
        rate > 0,
{
    ((thickness + rate - 1) / (rate as int)) as nat
}

/// The ticks that `flavor` needs for one layer.
pub open spec fn layer_ticks(table: AbilityMap, flavor: Seq<char>, layer: LayerView) -> nat
    recommends
        table.dissolves(flavor, layer.color),
{
    ceil_div(layer.thickness, table.rate(flavor, layer.color).unwrap() as nat)
}

/// The ticks that `flavor` needs for all of `layers`.
pub open spec fn total_ticks(table: AbilityMap, flavor: Seq<char>, layers: Seq<LayerView>) -> nat
    decreases layers.len(),
{
    if layers.len() == 0 {
        0
    } else {
        total_ticks(table, flavor, layers.drop_last()) + layer_ticks(table, flavor, layers.last())
    }
}

/// The table has a positive rate for `flavor` on the color of every layer.
pub open spec fn can_dissolve(table: AbilityMap, flavor: Seq<char>, layers: Seq<LayerView>) -> bool {
    forall|i: int| 0 <= i < layers.len() ==> table.dissolves(flavor, #[trigger] layers[i].color)
}

/// The processing time of a pearl with these layers at a worker of this
/// flavor, or `None` where the table lacks a positive rate for one of them.
pub open spec fn time_to_process(table: AbilityMap, flavor: Seq<char>, layers: Seq<LayerView>)
    -> Option<nat> {
    if can_dissolve(table, flavor, layers) {
        Some(total_ticks(table, flavor, layers))
    } else {
        None
    }
}

/// `ceil_div` is the ceiling of the quotient: the least whole number of
/// ticks in which `rate` per tick covers `thickness`.
pub proof fn lemma_ceil_div_is_ceiling(thickness: nat, rate: nat, ticks: nat)
    requires
        rate > 0,
    ensures
        ticks * rate >= thickness <==> ticks >= ceil_div(thickness, rate),
{
    let c = (thickness + rate - 1) / (rate as int);
    assert(c * rate <= thickness + rate - 1 && thickness + rate - 1 < c * rate + rate && c >= 0)
        by (nonlinear_arith)
        requires
            rate > 0,
            c == (thickness + rate - 1) / (rate as int),
    ;
    if ticks >= c {
        assert(ticks * rate >= c * rate) by (nonlinear_arith)
            requires
                ticks >= c,
                rate > 0,
        ;
    } else {
        assert(ticks * rate <= (c - 1) * rate) by (nonlinear_arith)
            requires
                ticks <= c - 1,
                rate > 0,
        ;
        assert((c - 1) * rate == c * rate - rate) by (nonlinear_arith);
    }
}

/// A layer never takes more ticks than it is thick.
pub proof fn lemma_ceil_div_bounded(thickness: nat, rate: nat)
    requires
        rate > 0,
    ensures
        ceil_div(thickness, rate) <= thickness,
{
    assert(thickness * rate >= thickness) by (nonlinear_arith)
        requires
            rate > 0,
    ;
    lemma_ceil_div_is_ceiling(thickness, rate, thickness);
}

/// A thicker layer takes at least as long at the same rate.
pub proof fn lemma_ceil_div_monotonic_in_thickness(thin: nat, thick: nat, rate: nat)
    requires
        rate > 0,
        thin <= thick,
    ensures
        ceil_div(thin, rate) <= ceil_div(thick, rate),
{
    let c = ceil_div(thick, rate);
    lemma_ceil_div_is_ceiling(thick, rate, c);
    lemma_ceil_div_is_ceiling(thin, rate, c);
}

/// A layer takes at most as long at a higher rate.
pub proof fn lemma_ceil_div_antitonic_in_rate(thickness: nat, slow: nat, fast: nat)
    requires
        0 < slow <= fast,
    ensures
        ceil_div(thickness, fast) <= ceil_div(thickness, slow),
{
    let c = ceil_div(thickness, slow);
    lemma_ceil_div_is_ceiling(thickness, slow, c);
    assert(c * fast >= c * slow) by (nonlinear_arith)
        requires
            slow <= fast,
            c >= 0,
    ;
    lemma_ceil_div_is_ceiling(thickness, fast, c);
}

/// The time for a sequence of layers splits at its last layer.
pub proof fn lemma_total_ticks_push(
    table: AbilityMap,
    flavor: Seq<char>,
    layers: Seq<LayerView>,
    layer: LayerView,
)
    ensures
        total_ticks(table, flavor, layers.push(layer)) == total_ticks(table, flavor, layers)
            + layer_ticks(table, flavor, layer),
{
    assert(layers.push(layer).drop_last() =~= layers);
}

} // verus!
