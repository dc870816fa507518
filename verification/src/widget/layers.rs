//! How the widgets of a view fall into layers.
//!
//! A view draws its widgets layer by layer. A layer is a run of neighbours
//! in the stack that share a z-index; the layers are drawn in ascending
//! order of z-index, and layers of equal z-index in the order of the stack.

use crate::trusted::iter::{chunk_by_zindex, sorted_by_zindex, tail};
use crate::trusted::tui::{is_stacked, split_vertical};
use ratatui::layout::{Constraint, Rect};
use std::cmp::Ordering;
use vstd::prelude::*;

verus! {

/// A layer: its z-index, and the positions in the stack of the widgets in it.
pub type Layer = (u16, Vec<usize>);

/// The layers as mathematical values.
pub open spec fn layer_views(layers: Seq<Layer>) -> Seq<(u16, Seq<usize>)> {
    layers.map_values(|layer: Layer| (layer.0, layer.1@))
}

/// `run` is a run of `zs`: consecutive positions, all of z-index `run.0`.
pub open spec fn is_run(zs: Seq<u16>, run: (u16, Seq<usize>)) -> bool {
    &&& run.1.len() > 0
    &&& run.1[0] + run.1.len() <= zs.len()
    &&& forall|k: int| 0 <= k < run.1.len() ==> #[trigger] run.1[k] == run.1[0] + k
    &&& forall|k: int| 0 <= k < run.1.len() ==> zs[#[trigger] run.1[k] as int] == run.0
}

/// The run cannot be made longer at either end.
pub open spec fn is_maximal(zs: Seq<u16>, run: (u16, Seq<usize>)) -> bool {
    &&& run.1[0] > 0 ==> zs[run.1[0] - 1] != run.0
    &&& run.1[0] + run.1.len() < zs.len() ==> zs[run.1[0] + run.1.len()] != run.0
}

/// `runs` cuts `zs` into its maximal runs, in order.
pub open spec fn is_chunked(zs: Seq<u16>, runs: Seq<(u16, Seq<usize>)>) -> bool {
    &&& forall|r: int| 0 <= r < runs.len() ==> is_run(zs, #[trigger] runs[r])
    &&& runs.len() == 0 ==> zs.len() == 0
    &&& runs.len() > 0 ==> runs[0].1[0] == 0
    &&& runs.len() > 0 ==> runs.last().1[0] + runs.last().1.len() == zs.len()
    &&& forall|r: int|
        0 < r < runs.len() ==> (#[trigger] runs[r]).1[0] == runs[r - 1].1[0] + runs[r - 1].1.len()
    &&& forall|r: int| 0 < r < runs.len() ==> (#[trigger] runs[r]).0 != runs[r - 1].0
}

/// `output` is `input` sorted by z-index, `from[k]` being the place in
/// `input` of what stands at `k` in `output`, and `to` the other way round.
/// Equal z-indices keep their order.
pub open spec fn sorts_stably(
    input: Seq<(u16, Seq<usize>)>,
    output: Seq<(u16, Seq<usize>)>,
    from: Seq<int>,
    to: Seq<int>,
) -> bool {
    &&& output.len() == input.len()
    &&& from.len() == input.len()
    &&& to.len() == input.len()
    &&& forall|k: int|
        0 <= k < output.len() ==> 0 <= #[trigger] from[k] < input.len() && to[from[k]] == k
            && output[k] == input[from[k]]
    &&& forall|r: int|
        0 <= r < input.len() ==> 0 <= #[trigger] to[r] < output.len() && from[to[r]] == r
    &&& forall|a: int, b: int|
        0 <= a < b < output.len() ==> (#[trigger] output[a]).0 < (#[trigger] output[b]).0 || (
        output[a].0 == output[b].0 && from[a] < from[b])
}

/// `output` is `input` in ascending order of z-index, equal z-indices in the
/// order they had.
pub open spec fn is_stably_sorted(
    input: Seq<(u16, Seq<usize>)>,
    output: Seq<(u16, Seq<usize>)>,
) -> bool {
    exists|from: Seq<int>, to: Seq<int>| sorts_stably(input, output, from, to)
}

/// `a` is drawn before `b`: it has the lower z-index, or the same and stands
/// lower in the stack.
pub open spec fn drawn_before(a: (u16, Seq<usize>), b: (u16, Seq<usize>)) -> bool {
    a.0 < b.0 || (a.0 == b.0 && a.1[0] < b.1[0])
}

/// Position `at` of the stack is in layer `layer`.
pub open spec fn holds(layer: (u16, Seq<usize>), at: int) -> bool {
    layer.1[0] <= at < layer.1[0] + layer.1.len()
}

/// Some layer holds position `at` of the stack.
pub open spec fn is_covered(layers: Seq<(u16, Seq<usize>)>, at: int) -> bool {
    exists|l: int| 0 <= l < layers.len() && holds(#[trigger] layers[l], at)
}

/// `layers` are the layers of a stack whose z-indices are `zs`: every
/// maximal run of equal z-index is one layer, and the layers stand in
/// drawing order.
pub open spec fn are_layers(zs: Seq<u16>, layers: Seq<(u16, Seq<usize>)>) -> bool {
    &&& forall|l: int|
        0 <= l < layers.len() ==> is_run(zs, #[trigger] layers[l]) && is_maximal(zs, layers[l])
    &&& forall|at: int| 0 <= at < zs.len() ==> #[trigger] is_covered(layers, at)
    &&& forall|a: int, b: int|
        0 <= a < b < layers.len() ==> drawn_before(#[trigger] layers[a], #[trigger] layers[b])
}

/// A run that `chunk_by` cut out cannot be made longer: its neighbours have
/// other z-indices.
proof fn lemma_chunk_is_maximal(zs: Seq<u16>, runs: Seq<(u16, Seq<usize>)>, r: int)
    requires
        is_chunked(zs, runs),
        0 <= r < runs.len(),
    ensures
        is_maximal(zs, runs[r]),
{
    let run = runs[r];
    if run.1[0] > 0 {
        let before = runs[r - 1];
        let k = before.1.len() - 1;
        assert(zs[before.1[k] as int] == before.0);
    }
    if run.1[0] + run.1.len() < zs.len() {
        let after = runs[r + 1];
        assert(zs[after.1[0] as int] == after.0);
    }
}

/// Later runs of `chunk_by` start where earlier ones have ended.
proof fn lemma_chunks_ascend(zs: Seq<u16>, runs: Seq<(u16, Seq<usize>)>, a: int, b: int)
    requires
        is_chunked(zs, runs),
        0 <= a < b < runs.len(),
    ensures
        runs[a].1[0] + runs[a].1.len() <= runs[b].1[0],
    decreases b - a,
{
    if a < b - 1 {
        lemma_chunks_ascend(zs, runs, a, b - 1);
    }
}

/// Every position that lies before the end of run `r` lies in a run.
proof fn lemma_chunks_cover(zs: Seq<u16>, runs: Seq<(u16, Seq<usize>)>, r: int, at: int)
    requires
        is_chunked(zs, runs),
        0 <= r < runs.len(),
        0 <= at < runs[r].1[0] + runs[r].1.len(),
    ensures
        is_covered(runs, at),
    decreases r,
{
    if at < runs[r].1[0] {
        lemma_chunks_cover(zs, runs, r - 1, at);
    }
}

/// The runs of a stack, sorted stably by z-index, are its layers.
proof fn lemma_sorted_chunks_are_layers(
    zs: Seq<u16>,
    runs: Seq<(u16, Seq<usize>)>,
    layers: Seq<(u16, Seq<usize>)>,
)
    requires
        is_chunked(zs, runs),
        is_stably_sorted(runs, layers),
    ensures
        are_layers(zs, layers),
{
    let (from, to) = choose|from: Seq<int>, to: Seq<int>| sorts_stably(runs, layers, from, to);
    assert forall|l: int| 0 <= l < layers.len() implies is_run(zs, #[trigger] layers[l])
        && is_maximal(zs, layers[l]) by {
        lemma_chunk_is_maximal(zs, runs, from[l]);
    }
    assert forall|at: int| 0 <= at < zs.len() implies #[trigger] is_covered(layers, at) by {
        lemma_chunks_cover(zs, runs, runs.len() - 1, at);
        let r = choose|r: int| 0 <= r < runs.len() && holds(#[trigger] runs[r], at);
        assert(holds(layers[to[r]], at));
    }
    assert forall|a: int, b: int| 0 <= a < b < layers.len() implies drawn_before(
        #[trigger] layers[a],
        #[trigger] layers[b],
    ) by {
        if layers[a].0 == layers[b].0 {
            lemma_chunks_ascend(zs, runs, from[a], from[b]);
        }
    }
}

/// How two runs compare in a draw as far as the z-index decides: the lower
/// z-index comes first.
pub fn by_zindex(a: &Layer, b: &Layer) -> (order: Ordering)
    ensures
        order is Less <==> a.0 < b.0,
        order is Equal <==> a.0 == b.0,
        order is Greater <==> a.0 > b.0,
{
    if a.0 < b.0 {
        Ordering::Less
    } else if a.0 == b.0 {
        Ordering::Equal
    } else {
        Ordering::Greater
    }
}

/// The layers of a stack whose widgets have the z-indices `zs`, in drawing
/// order.
pub fn arrange(zs: &Vec<u16>) -> (layers: Vec<Layer>)
    ensures
        are_layers(zs@, layer_views(layers@)),
{
    let runs = chunk_by_zindex(zs);
    let ghost cut = layer_views(runs@);
    let layers = sorted_by_zindex(runs);
    proof {
        lemma_sorted_chunks_are_layers(zs@, cut, layer_views(layers@));
    }
    layers
}

/// A widget's place in a draw: the area it gets, and its position in the
/// stack.
pub type Slot = (Rect, usize);

/// The placed layers as mathematical values.
pub open spec fn slot_views(placed: Seq<Vec<Slot>>) -> Seq<Seq<Slot>> {
    placed.map_values(|layer: Vec<Slot>| layer@)
}

/// The areas of the widgets of a layer.
pub open spec fn areas_of(slots: Seq<Slot>) -> Seq<Rect> {
    slots.map_values(|slot: Slot| slot.0)
}

/// `placed` gives every widget of every layer of `plan` an area, layer for
/// layer and widget for widget, and the areas of each layer are stacked in
/// `area`: every layer has the whole of `area` for itself.
pub open spec fn places(plan: Seq<(u16, Seq<usize>)>, placed: Seq<Seq<Slot>>, area: Rect) -> bool {
    &&& placed.len() == plan.len()
    &&& forall|l: int| 0 <= l < plan.len() ==> (#[trigger] placed[l]).len() == plan[l].1.len()
    &&& forall|l: int, k: int|
        0 <= l < plan.len() && 0 <= k < plan[l].1.len() ==> (#[trigger] placed[l][k]).1
            == plan[l].1[k]
    &&& forall|l: int| 0 <= l < plan.len() ==> is_stacked(area, areas_of(#[trigger] placed[l]))
}

/// The areas that widgets with the given vertical constraints get when
/// they are stacked in `area`: one for each constraint, stacked in `area`.
/// How the height is shared out among them is up to the layout.
pub fn stack_vertically(constraints: Vec<Constraint>, area: Rect) -> (areas: Vec<Rect>)
    ensures
        areas@.len() == constraints@.len(),
        is_stacked(area, areas@),
{
    split_vertical(constraints, area)
}

/// The layers that a draw shows: all of them, or only the last, which is the
/// topmost.
pub open spec fn shown_of<T>(layers: Seq<T>, show_all: bool) -> Seq<T> {
    if show_all || layers.len() <= 1 {
        layers
    } else {
        layers.skip(layers.len() - 1)
    }
}

/// The layers that a draw shows: all of them in drawing order where
/// `show_all` is set, else only the topmost.
pub fn shown<T>(layers: Vec<T>, show_all: bool) -> (shown: Vec<T>)
    ensures
        shown@ == shown_of(layers@, show_all),
{
    if show_all {
        layers
    } else {
        tail(layers, 1)
    }
}

/// The widgets of `layers` in the order of a draw: layer after layer, and
/// within a layer as they stand in it.
pub open spec fn in_order(layers: Seq<Seq<Slot>>) -> Seq<Slot>
    decreases layers.len(),
{
    if layers.len() == 0 {
        Seq::empty()
    } else {
        in_order(layers.drop_last()) + layers.last()
    }
}

/// The widgets that a draw draws, in its order: those of every layer from
/// the bottom up, or only those of the topmost layer.
pub open spec fn order_of(placed: Seq<Seq<Slot>>, show_all: bool) -> Seq<Slot> {
    in_order(shown_of(placed, show_all))
}

/// The widgets of `layers` in the order of a draw.
pub fn drawing_order(layers: &Vec<Vec<Slot>>) -> (order: Vec<Slot>)
    ensures
        order@ == in_order(slot_views(layers@)),
{
    let mut order: Vec<Slot> = Vec::new();
    let mut l: usize = 0;
    while l < layers.len()
        invariant
            l <= layers@.len(),
            order@ == in_order(slot_views(layers@).take(l as int)),
        decreases layers@.len() - l,
    {
        let layer = &layers[l];
        let mut k: usize = 0;
        while k < layer.len()
            invariant
                l < layers@.len(),
                layer@ == layers@[l as int]@,
                k <= layer@.len(),
                order@ == in_order(slot_views(layers@).take(l as int)) + layer@.take(k as int),
            decreases layer@.len() - k,
        {
            order.push(layer[k]);
            proof {
                assert(layer@.take(k + 1) == layer@.take(k as int).push(layer@[k as int]));
            }
            k += 1;
        }
        proof {
            let views = slot_views(layers@);
            assert(layer@.take(layer@.len() as int) == layer@);
            assert(views.take(l + 1).drop_last() == views.take(l as int));
            assert(views.take(l + 1).last() == layer@);
        }
        l += 1;
    }
    proof {
        assert(slot_views(layers@).take(layers@.len() as int) == slot_views(layers@));
    }
    order
}

/// The z-indices ascend along the stack.
pub open spec fn is_ascending(zs: Seq<u16>) -> bool {
    forall|i: int, j: int| 0 <= i <= j < zs.len() ==> zs[i] <= zs[j]
}

/// A position that a layer holds has the z-index of the layer.
proof fn lemma_held_has_zindex(zs: Seq<u16>, layer: (u16, Seq<usize>), at: int)
    requires
        is_run(zs, layer),
        holds(layer, at),
    ensures
        0 <= at < zs.len(),
        zs[at] == layer.0,
{
    let k = at - layer.1[0];
    assert(layer.1[k] == layer.1[0] + k);
}

/// Two layers of one stack that hold the same position are one layer.
proof fn lemma_layers_meet_nowhere(
    zs: Seq<u16>,
    a: (u16, Seq<usize>),
    b: (u16, Seq<usize>),
    at: int,
)
    requires
        is_run(zs, a),
        is_maximal(zs, a),
        is_run(zs, b),
        is_maximal(zs, b),
        holds(a, at),
        holds(b, at),
    ensures
        a == b,
{
    lemma_held_has_zindex(zs, a, at);
    lemma_held_has_zindex(zs, b, at);
    if a.1[0] < b.1[0] {
        lemma_held_has_zindex(zs, a, b.1[0] - 1);
    }
    if b.1[0] < a.1[0] {
        lemma_held_has_zindex(zs, b, a.1[0] - 1);
    }
    if a.1[0] + a.1.len() < b.1[0] + b.1.len() {
        lemma_held_has_zindex(zs, b, a.1[0] + a.1.len());
    }
    if b.1[0] + b.1.len() < a.1[0] + a.1.len() {
        lemma_held_has_zindex(zs, a, b.1[0] + b.1.len());
    }
}

/// The topmost layer has the highest z-index of the stack: a view that
/// shows only its last layer shows only widgets of the highest z-index.
pub proof fn top_layer_is_highest(zs: Seq<u16>, layers: Seq<(u16, Seq<usize>)>)
    requires
        are_layers(zs, layers),
        zs.len() > 0,
    ensures
        layers.len() > 0,
        forall|at: int| 0 <= at < zs.len() ==> zs[at] <= layers.last().0,
{
    assert(is_covered(layers, 0));
    assert forall|at: int| 0 <= at < zs.len() implies zs[at] <= layers.last().0 by {
        assert(is_covered(layers, at));
        let l = choose|l: int| 0 <= l < layers.len() && holds(#[trigger] layers[l], at);
        lemma_held_has_zindex(zs, layers[l], at);
    }
}

/// In a stack whose z-indices ascend, every z-index has one layer: the
/// layers ascend strictly in z-index, each holds every widget of its
/// z-index, and they follow each other as their widgets do in the stack.
pub proof fn layers_of_ascending_stack(zs: Seq<u16>, layers: Seq<(u16, Seq<usize>)>)
    requires
        are_layers(zs, layers),
        is_ascending(zs),
    ensures
        forall|a: int, b: int|
            0 <= a < b < layers.len() ==> (#[trigger] layers[a]).0 < (#[trigger] layers[b]).0,
        forall|a: int, b: int|
            0 <= a < b < layers.len() ==> (#[trigger] layers[a]).1[0] + layers[a].1.len() <= (
            #[trigger] layers[b]).1[0],
        forall|l: int, at: int|
            0 <= l < layers.len() && 0 <= at < zs.len() && zs[at] == layers[l].0 ==> #[trigger] holds(
                layers[l],
                at,
            ),
{
    assert forall|a: int, b: int| 0 <= a < b < layers.len() implies (#[trigger] layers[a]).0 < (
    #[trigger] layers[b]).0 && layers[a].1[0] + layers[a].1.len() <= layers[b].1[0] by {
        let (low, high) = (layers[a], layers[b]);
        lemma_held_has_zindex(zs, low, low.1[0] as int);
        lemma_held_has_zindex(zs, low, low.1[0] + low.1.len() - 1);
        lemma_held_has_zindex(zs, high, high.1[0] as int);
        if low.0 == high.0 {
            if high.1[0] < low.1[0] + low.1.len() {
                lemma_layers_meet_nowhere(zs, low, high, high.1[0] as int);
            }
        }
    }
    assert forall|l: int, at: int|
        0 <= l < layers.len() && 0 <= at < zs.len() && zs[at] == layers[l].0 implies #[trigger] holds(
        layers[l],
        at,
    ) by {
        let m = choose|m: int| 0 <= m < layers.len() && holds(#[trigger] layers[m], at);
        lemma_held_has_zindex(zs, layers[m], at);
    }
}

/// Where `layer` stands in `layers`.
spec fn place_of(layers: Seq<(u16, Seq<usize>)>, layer: (u16, Seq<usize>)) -> int {
    choose|m: int| 0 <= m < layers.len() && layers[m] == layer
}

/// Every layer of one layering of a stack is a layer of every other.
proof fn lemma_layer_is_shared(
    zs: Seq<u16>,
    a: Seq<(u16, Seq<usize>)>,
    b: Seq<(u16, Seq<usize>)>,
    i: int,
)
    requires
        are_layers(zs, a),
        are_layers(zs, b),
        0 <= i < a.len(),
    ensures
        0 <= place_of(b, a[i]) < b.len(),
        b[place_of(b, a[i])] == a[i],
{
    let layer = a[i];
    let at = layer.1[0] as int;
    assert(is_covered(b, at));
    let m = choose|m: int| 0 <= m < b.len() && holds(#[trigger] b[m], at);
    lemma_layers_meet_nowhere(zs, layer, b[m], at);
}

/// In a strictly ascending sequence of numbers, places that are `j - i`
/// apart hold numbers that are at least as far apart.
proof fn lemma_ascent_spreads(places: Seq<int>, i: int, j: int)
    requires
        forall|x: int, y: int| 0 <= x < y < places.len() ==> places[x] < places[y],
        0 <= i <= j < places.len(),
    ensures
        places[j] - places[i] >= j - i,
    decreases j - i,
{
    if i < j {
        lemma_ascent_spreads(places, i, j - 1);
    }
}

/// The places in `b` of the layers of `a`, one after another, ascend
/// strictly.
proof fn lemma_places_ascend(
    zs: Seq<u16>,
    a: Seq<(u16, Seq<usize>)>,
    b: Seq<(u16, Seq<usize>)>,
    x: int,
    y: int,
)
    requires
        are_layers(zs, a),
        are_layers(zs, b),
        0 <= x < y < a.len(),
    ensures
        place_of(b, a[x]) < place_of(b, a[y]),
{
    lemma_layer_is_shared(zs, a, b, x);
    lemma_layer_is_shared(zs, a, b, y);
}

/// One layering of a stack is no longer than another, and a layer of it
/// stands no later in the other than in it.
proof fn lemma_layering_fits(
    zs: Seq<u16>,
    a: Seq<(u16, Seq<usize>)>,
    b: Seq<(u16, Seq<usize>)>,
)
    requires
        are_layers(zs, a),
        are_layers(zs, b),
    ensures
        a.len() <= b.len(),
        forall|i: int| 0 <= i < a.len() ==> i <= place_of(b, #[trigger] a[i]) <= i + b.len() - a.len(),
{
    let places = Seq::new(a.len(), |i: int| place_of(b, a[i]));
    assert forall|x: int, y: int| 0 <= x < y < places.len() implies places[x] < places[y] by {
        lemma_places_ascend(zs, a, b, x, y);
    }
    if a.len() > 0 {
        let last = a.len() - 1;
        lemma_layer_is_shared(zs, a, b, 0);
        lemma_layer_is_shared(zs, a, b, last);
        lemma_ascent_spreads(places, 0, last);
        assert forall|i: int| 0 <= i < a.len() implies i <= place_of(b, #[trigger] a[i]) <= i
            + b.len() - a.len() by {
            lemma_ascent_spreads(places, 0, i);
            lemma_ascent_spreads(places, i, last);
        }
    }
}

/// A stack has one layering and no other: what `are_layers` says of the
/// layers of a stack is all there is to say.
pub proof fn layering_is_unique(
    zs: Seq<u16>,
    a: Seq<(u16, Seq<usize>)>,
    b: Seq<(u16, Seq<usize>)>,
)
    requires
        are_layers(zs, a),
        are_layers(zs, b),
    ensures
        a == b,
{
    lemma_layering_fits(zs, a, b);
    lemma_layering_fits(zs, b, a);
    assert forall|i: int| 0 <= i < a.len() implies a[i] == b[i] by {
        lemma_layer_is_shared(zs, a, b, i);
    }
}

/// Every widget of every layer has its place in the order of a draw.
proof fn lemma_in_order_holds(layers: Seq<Seq<Slot>>, l: int, k: int)
    requires
        0 <= l < layers.len(),
        0 <= k < layers[l].len(),
    ensures
        exists|j: int| 0 <= j < in_order(layers).len() && #[trigger] in_order(layers)[j] == layers[l][k],
    decreases layers.len(),
{
    let rest = layers.drop_last();
    if l == layers.len() - 1 {
        assert(in_order(layers)[in_order(rest).len() + k] == layers[l][k]);
    } else {
        lemma_in_order_holds(rest, l, k);
        let j = choose|j: int|
            0 <= j < in_order(rest).len() && #[trigger] in_order(rest)[j] == rest[l][k];
        assert(in_order(layers)[j] == layers[l][k]);
    }
}

/// `slot` is the widget `k` of layer `l`.
spec fn is_at(layers: Seq<Seq<Slot>>, l: int, k: int, slot: Slot) -> bool {
    0 <= l < layers.len() && 0 <= k < layers[l].len() && layers[l][k] == slot
}

/// Whatever stands in the order of a draw is a widget of a layer.
proof fn lemma_in_order_is_held(layers: Seq<Seq<Slot>>, j: int)
    requires
        0 <= j < in_order(layers).len(),
    ensures
        exists|l: int, k: int| #[trigger] is_at(layers, l, k, in_order(layers)[j]),
    decreases layers.len(),
{
    let rest = layers.drop_last();
    if j < in_order(rest).len() {
        lemma_in_order_is_held(rest, j);
        let (l, k) = choose|l: int, k: int| #[trigger] is_at(rest, l, k, in_order(rest)[j]);
        assert(is_at(layers, l, k, in_order(layers)[j]));
    } else {
        assert(is_at(layers, layers.len() - 1, j - in_order(rest).len(), in_order(layers)[j]));
    }
}

/// `first` is drawn before `second`: it is the widget `k` of layer `l`, and
/// `second` stands later in the same layer or in a later one.
spec fn are_apart(layers: Seq<Seq<Slot>>, l: int, k: int, m: int, n: int, first: Slot, second: Slot) -> bool {
    is_at(layers, l, k, first) && is_at(layers, m, n, second) && (l < m || (l == m && k < n))
}

/// What stands earlier in the order of a draw stands in an earlier layer,
/// or earlier in the same.
proof fn lemma_in_order_keeps_order(layers: Seq<Seq<Slot>>, i: int, j: int)
    requires
        0 <= i < j < in_order(layers).len(),
    ensures
        exists|l: int, k: int, m: int, n: int| #[trigger]
            are_apart(layers, l, k, m, n, in_order(layers)[i], in_order(layers)[j]),
    decreases layers.len(),
{
    let rest = layers.drop_last();
    let (first, second) = (in_order(layers)[i], in_order(layers)[j]);
    if j < in_order(rest).len() {
        lemma_in_order_keeps_order(rest, i, j);
        let (l, k, m, n) = choose|l: int, k: int, m: int, n: int| #[trigger]
            are_apart(rest, l, k, m, n, in_order(rest)[i], in_order(rest)[j]);
        assert(are_apart(layers, l, k, m, n, first, second));
    } else if i < in_order(rest).len() {
        lemma_in_order_is_held(rest, i);
        let (l, k) = choose|l: int, k: int| #[trigger] is_at(rest, l, k, in_order(rest)[i]);
        assert(are_apart(layers, l, k, layers.len() - 1, j - in_order(rest).len(), first, second));
    } else {
        let last = layers.len() - 1;
        assert(are_apart(
            layers,
            last,
            i - in_order(rest).len(),
            last,
            j - in_order(rest).len(),
            first,
            second,
        ));
    }
}

/// The widget at position `at` of the stack is one of those of `order`.
pub open spec fn is_drawn(order: Seq<Slot>, at: int) -> bool {
    exists|j: int| 0 <= j < order.len() && (#[trigger] order[j]).1 == at
}

/// `first` comes before `second` where widgets are sorted by z-index and
/// widgets of one z-index by their position in the stack.
pub open spec fn comes_before(zs: Seq<u16>, first: Slot, second: Slot) -> bool {
    zs[first.1 as int] < zs[second.1 as int] || (zs[first.1 as int] == zs[second.1 as int]
        && first.1 < second.1)
}

/// A view that shows all of its layers draws every widget of the stack,
/// and draws them sorted by z-index, widgets of one z-index as they stand
/// in the stack: lower layers first, and within a layer from the bottom of
/// the stack up.
pub proof fn full_draw_is_sorted_by_zindex(
    zs: Seq<u16>,
    plan: Seq<(u16, Seq<usize>)>,
    placed: Seq<Seq<Slot>>,
    area: Rect,
)
    requires
        are_layers(zs, plan),
        places(plan, placed, area),
    ensures
        forall|j: int|
            0 <= j < order_of(placed, true).len() ==> (#[trigger] order_of(placed, true)[j]).1
                < zs.len(),
        forall|at: int| 0 <= at < zs.len() ==> #[trigger] is_drawn(order_of(placed, true), at),
        forall|i: int, j: int|
            0 <= i < j < order_of(placed, true).len() ==> #[trigger] comes_before(
                zs,
                order_of(placed, true)[i],
                order_of(placed, true)[j],
            ),
{
    let order = order_of(placed, true);
    assert forall|j: int| 0 <= j < order.len() implies (#[trigger] order[j]).1 < zs.len() by {
        lemma_in_order_is_held(placed, j);
        let (l, k) = choose|l: int, k: int| #[trigger] is_at(placed, l, k, order[j]);
        lemma_held_has_zindex(zs, plan[l], plan[l].1[0] + k);
    }
    assert forall|at: int| 0 <= at < zs.len() implies #[trigger] is_drawn(order, at) by {
        assert(is_covered(plan, at));
        let l = choose|l: int| 0 <= l < plan.len() && holds(#[trigger] plan[l], at);
        let k = at - plan[l].1[0];
        assert(plan[l].1[k] == plan[l].1[0] + k);
        lemma_in_order_holds(placed, l, k);
    }
    assert forall|i: int, j: int| 0 <= i < j < order.len() implies #[trigger] comes_before(
        zs,
        order[i],
        order[j],
    ) by {
        lemma_in_order_keeps_order(placed, i, j);
        let (l, k, m, n) = choose|l: int, k: int, m: int, n: int| #[trigger]
            are_apart(placed, l, k, m, n, order[i], order[j]);
        assert(is_run(zs, plan[l]) && is_maximal(zs, plan[l]));
        assert(is_run(zs, plan[m]) && is_maximal(zs, plan[m]));
        assert(placed[l][k].1 == plan[l].1[k] && plan[l].1[k] == plan[l].1[0] + k);
        assert(placed[m][n].1 == plan[m].1[n] && plan[m].1[n] == plan[m].1[0] + n);
        lemma_held_has_zindex(zs, plan[l], plan[l].1[0] + k);
        lemma_held_has_zindex(zs, plan[m], plan[m].1[0] + n);
        if l < m {
            assert(drawn_before(plan[l], plan[m]));
            if plan[l].0 == plan[m].0 {
                if plan[m].1[0] < plan[l].1[0] + plan[l].1.len() {
                    lemma_layers_meet_nowhere(zs, plan[l], plan[m], plan[m].1[0] as int);
                }
            }
        }
    }
}

/// A view that shows only its topmost layer draws the widgets of the last
/// layer and no others, and these have the highest z-index of the stack.
pub proof fn modal_draw_is_topmost_layer(
    zs: Seq<u16>,
    plan: Seq<(u16, Seq<usize>)>,
    placed: Seq<Seq<Slot>>,
    area: Rect,
)
    requires
        are_layers(zs, plan),
        places(plan, placed, area),
        zs.len() > 0,
    ensures
        placed.len() > 0,
        order_of(placed, false) == placed.last(),
        forall|j: int|
            0 <= j < placed.last().len() ==> zs[(#[trigger] placed.last()[j]).1 as int]
                == plan.last().0,
        forall|at: int| 0 <= at < zs.len() ==> #[trigger] zs[at] <= plan.last().0,
{
    top_layer_is_highest(zs, plan);
    let shown = shown_of(placed, false);
    assert(shown == seq![placed.last()]);
    assert(shown.drop_last() == Seq::<Seq<Slot>>::empty());
    assert(in_order(shown.drop_last()) == Seq::<Slot>::empty());
    assert(in_order(shown) == placed.last());
    assert forall|j: int| 0 <= j < placed.last().len() implies zs[(
    #[trigger] placed.last()[j]).1 as int] == plan.last().0 by {
        lemma_held_has_zindex(zs, plan.last(), plan.last().1[0] + j);
    }
}

} // verus!
