//! The three adaptors of `itertools` that the layering of a view is made of.

use crate::widget::layers::{by_zindex, is_chunked, is_stably_sorted, layer_views, Layer};
use itertools::Itertools;
use vstd::prelude::*;

verus! {

/// `Itertools::chunk_by`, on the positions `0..zs.len()` keyed by the z-index
/// at each position.
///
/// Believed: consecutive positions with the same z-index form one run, so the
/// runs come out in order, each holds its z-index and its positions, none is
/// empty, and neighbouring runs differ in z-index.
#[verifier::external_body]
pub(crate) fn chunk_by_zindex(zs: &Vec<u16>) -> (runs: Vec<Layer>)
    ensures
        is_chunked(zs@, layer_views(runs@)),
{
    let chunks = (0..zs.len()).chunk_by(|at| zs[*at]);
    chunks.into_iter().map(|(z, run)| (z, run.collect())).collect()
}

/// `Itertools::sorted_by`, comparing runs with `by_zindex`.
///
/// Believed: the result holds the same runs in the ascending order of the
/// comparison, which is that of their z-indices, and runs that compare
/// equal keep the order they came in (the sort is stable).
#[verifier::external_body]
pub(crate) fn sorted_by_zindex(runs: Vec<Layer>) -> (layers: Vec<Layer>)
    ensures
        is_stably_sorted(layer_views(runs@), layer_views(layers@)),
{
    runs.into_iter().sorted_by(|a, b| by_zindex(a, b)).collect()
}

/// `Itertools::tail`.
///
/// Believed: the result is the last `n` items in their order, or all of them
/// where there are fewer.
#[verifier::external_body]
pub(crate) fn tail<T>(items: Vec<T>, n: usize) -> (kept: Vec<T>)
    ensures
        kept@ == items@.skip(
            if items@.len() <= n {
                0
            } else {
                items@.len() - n
            },
        ),
{
    items.into_iter().tail(n).collect()
}

} // verus!
