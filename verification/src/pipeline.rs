//! Pipeline orchestrator: sequences fetch, encode, build and serialize
//! for one tile request.
//!
//! The application performs the blocking database work -- for each
//! configured layer it consults `plan_fetch`, runs the planned query
//! through the pool, and records one `FetchOutcome` -- and then hands
//! the outcomes here.  Everything downstream of the outcomes is a pure
//! function of the inputs (`pipeline_spec`), so identical requests over
//! identical data yield byte-identical tiles.
//!
//! Failure policy: a pool failure aborts the whole request, since no
//! later layer could proceed either; a query failure or an unsupported
//! geometry omits that one layer and the rest of the tile is still
//! served; table or size overflow fails the request with
//! `EncodingOverflow`.

use vstd::prelude::*;

use crate::error::{Error, ErrorV};
use crate::geom::geom_stream;
use crate::layer::{LayerSpec, RawRow, encode_row};
use crate::mvt::{serialize_tile, tile_bytes};
use crate::tile::{
    LayerV, TileBuilder, add_feature_spec, add_ok, attrs_view, keep_nonempty,
};
use crate::transform::{TileAddress, bbox_spec, bounding_box};

verus! {

/// What fetching one layer produced: rows, a deliberate skip, or a
/// failure.
#[derive(Debug)]
pub enum FetchOutcome {
    /// The query ran and streamed these rows back.
    Rows(Vec<RawRow>),
    /// No query was issued (out-of-zoom layer).
    Skipped,
    /// Acquiring the connection or running the query failed.
    Failed(Error),
}

/// Request-level configuration.
#[derive(Debug, Clone, Copy)]
pub struct TileConfig {
    /// Largest serialized tile the caller accepts.
    pub max_bytes: usize,
    /// Whether an all-empty tile is an error rather than valid content.
    pub error_on_empty: bool,
}

/// A pool failure leaves no way to serve any layer: the request aborts.
pub open spec fn pool_fatal(o: FetchOutcome) -> bool {
    match o {
        FetchOutcome::Failed(e) => e is PoolExhausted || e is PoolTimeout,
        _ => false,
    }
}

/// Every row's geometry lies in the world square.
pub open spec fn rows_wf(rows: Seq<RawRow>) -> bool {
    forall|i: int| 0 <= i < rows.len() ==> (#[trigger] rows[i]).geom.wf()
}

pub open spec fn outcome_wf(o: FetchOutcome) -> bool {
    match o {
        FetchOutcome::Rows(rows) => rows_wf(rows@),
        _ => true,
    }
}

/// No row carries a geometry type the encoder refuses.
pub open spec fn rows_supported(rows: Seq<RawRow>) -> bool {
    forall|i: int| 0 <= i < rows.len() ==> !((#[trigger] rows[i]).geom is Unsupported)
}

/// Builder state after adding the first `n` rows of one layer, or
/// `None` once a table cap is hit.
pub open spec fn add_rows(
    layers: Seq<LayerV>,
    l: LayerSpec,
    addr: TileAddress,
    rows: Seq<RawRow>,
    n: int,
) -> Option<Seq<LayerV>>
    decreases n,
{
    if n <= 0 {
        Some(layers)
    } else {
        match add_rows(layers, l, addr, rows, n - 1) {
            Option::None => None,
            Option::Some(prev) => {
                let row = rows[n - 1];
                let cmds = geom_stream(row.geom, bbox_spec(addr), l.extent as int);
                if add_ok(prev, l.name@, row.attributes@.len() as int, cmds.len() > 0) {
                    Some(add_feature_spec(prev, l.name@, l.extent, row.geom.type_tag(),
                        cmds, attrs_view(row.attributes@)))
                } else {
                    None
                }
            }
        }
    }
}

/// Builder state after processing the first `k` layers, or the error
/// that aborted the request.
pub open spec fn step_layers(
    addr: TileAddress,
    layers: Seq<LayerSpec>,
    outcomes: Seq<FetchOutcome>,
    k: int,
) -> Result<Seq<LayerV>, ErrorV>
    decreases k,
{
    if k <= 0 {
        Ok(Seq::empty())
    } else {
        match step_layers(addr, layers, outcomes, k - 1) {
            Result::Err(e) => Err(e),
            Result::Ok(prev) => {
                let l = layers[k - 1];
                let o = outcomes[k - 1];
                if pool_fatal(o) {
                    Err(match o {
                        FetchOutcome::Failed(e) => e@,
                        _ => ErrorV::PoolExhausted,
                    })
                } else if !l.in_zoom(addr.zoom) {
                    Ok(prev)
                } else {
                    match o {
                        FetchOutcome::Rows(rows) => if !rows_supported(rows@) {
                            Ok(prev)
                        } else {
                            match add_rows(prev, l, addr, rows@, rows@.len() as int) {
                                Option::None => Err(ErrorV::EncodingOverflow),
                                Option::Some(nl) => Ok(nl),
                            }
                        },
                        _ => Ok(prev),
                    }
                }
            }
        }
    }
}

/// The full pipeline as a function of its inputs: the tile bytes, or the
/// error the request ends with.
pub open spec fn pipeline_spec(
    addr: TileAddress,
    layers: Seq<LayerSpec>,
    outcomes: Seq<FetchOutcome>,
    cfg: TileConfig,
) -> Result<Seq<u8>, ErrorV> {
    match step_layers(addr, layers, outcomes, layers.len() as int) {
        Result::Err(e) => Err(e),
        Result::Ok(ls) => {
            let fin = keep_nonempty(ls, ls.len() as int);
            if cfg.error_on_empty && fin.len() == 0 {
                Err(ErrorV::TileEmpty)
            } else {
                let bytes = tile_bytes(fin, fin.len() as int);
                if bytes.len() > cfg.max_bytes {
                    Err(ErrorV::EncodingOverflow)
                } else {
                    Ok(bytes)
                }
            }
        }
    }
}

/// An error reached at stage `k1` stands at every later stage.
proof fn lemma_step_err_propagates(
    addr: TileAddress,
    layers: Seq<LayerSpec>,
    outcomes: Seq<FetchOutcome>,
    k1: int,
    k2: int,
)
    requires
        0 <= k1 <= k2,
        step_layers(addr, layers, outcomes, k1) is Err,
    ensures
        step_layers(addr, layers, outcomes, k2) == step_layers(addr, layers, outcomes, k1),
    decreases k2 - k1,
{
    if k2 > k1 {
        lemma_step_err_propagates(addr, layers, outcomes, k1, k2 - 1);
    }
}

/// A table overflow at row `n1` stands at every later row.
proof fn lemma_add_rows_none_propagates(
    layers: Seq<LayerV>,
    l: LayerSpec,
    addr: TileAddress,
    rows: Seq<RawRow>,
    n1: int,
    n2: int,
)
    requires
        0 <= n1 <= n2,
        add_rows(layers, l, addr, rows, n1) is None,
    ensures
        add_rows(layers, l, addr, rows, n2) is None,
    decreases n2 - n1,
{
    if n2 > n1 {
        lemma_add_rows_none_propagates(layers, l, addr, rows, n1, n2 - 1);
    }
}

/// True when some row's geometry type is unsupported.
fn any_unsupported(rows: &Vec<RawRow>) -> (r: bool)
    ensures
        r == !rows_supported(rows@),
{
    let mut i: usize = 0;
    while i < rows.len()
        invariant
            0 <= i <= rows@.len(),
            forall|j: int| 0 <= j < i ==> !((#[trigger] rows@[j]).geom is Unsupported),
        decreases rows@.len() - i,
    {
        let unsupported = match &rows[i].geom {
            crate::geom::RawGeometry::Unsupported(_) => true,
            _ => false,
        };
        if unsupported {
            return true;
        }
        i = i + 1;
    }
    false
}

/// Runs the tile assembly for one request over the fetched outcomes:
/// builds each served layer, finalizes the tile, and serializes it.
pub fn run_pipeline(
    addr: &TileAddress,
    layers: &Vec<LayerSpec>,
    outcomes: Vec<FetchOutcome>,
    cfg: &TileConfig,
) -> (r: Result<Vec<u8>, Error>)
    requires
        addr.wf(),
        layers@.len() == outcomes@.len(),
        forall|i: int| 0 <= i < layers@.len() ==> (#[trigger] layers@[i]).wf(),
        forall|i: int| 0 <= i < outcomes@.len() ==> outcome_wf(#[trigger] outcomes@[i]),
    ensures
        pipeline_spec(*addr, layers@, outcomes@, *cfg) matches Ok(sb)
            ==> r matches Ok(b) && b@ == sb,
        pipeline_spec(*addr, layers@, outcomes@, *cfg) matches Err(ev)
            ==> r matches Err(e) && e@ == ev,
{
    let b = bounding_box(addr);
    let mut builder = TileBuilder::new();
    let mut outs = outcomes;
    let n = layers.len();
    let mut i: usize = 0;
    proof {
        assert(outs@ =~= outcomes@.subrange(0, outcomes@.len() as int));
        assert(step_layers(*addr, layers@, outs@, 0) == Ok::<Seq<LayerV>, ErrorV>(builder@));
    }
    while i < n
        invariant
            0 <= i <= n == layers@.len() == outcomes@.len(),
            addr.wf(),
            b == bbox_spec(*addr),
            b.wf(),
            forall|m: int| 0 <= m < layers@.len() ==> (#[trigger] layers@[m]).wf(),
            forall|m: int| 0 <= m < outcomes@.len() ==> outcome_wf(#[trigger] outcomes@[m]),
            outs@.len() == n - i,
            outs@ == outcomes@.subrange(i as int, outcomes@.len() as int),
            builder.wf(),
            step_layers(*addr, layers@, outcomes@, i as int)
                == Ok::<Seq<LayerV>, ErrorV>(builder@),
        decreases n - i,
    {
        let ghost prev_outs = outs@;
        let o = outs.remove(0);
        proof {
            assert(o == outcomes@[i as int]);
            assert forall|m: int| 0 <= m < outs@.len() implies
                #[trigger] outs@[m] == outcomes@.subrange(i as int + 1, outcomes@.len() as int)[m] by {
                assert(outs@[m] == prev_outs[m + 1]);
            }
            assert(outs@ =~= outcomes@.subrange(i as int + 1, outcomes@.len() as int));
        }
        let gated = layers[i].min_zoom <= addr.zoom && addr.zoom <= layers[i].max_zoom;
        match o {
            FetchOutcome::Failed(e) => {
                let fatal = match &e {
                    Error::PoolExhausted => true,
                    Error::PoolTimeout => true,
                    _ => false,
                };
                if fatal {
                    proof {
                        assert(pool_fatal(outcomes@[i as int]));
                        assert(step_layers(*addr, layers@, outcomes@, i as int + 1)
                            == Err::<Seq<LayerV>, ErrorV>(e@));
                        lemma_step_err_propagates(*addr, layers@, outcomes@,
                            i as int + 1, n as int);
                    }
                    return Err(e);
                }
                proof {
                    assert(step_layers(*addr, layers@, outcomes@, i as int + 1)
                        == Ok::<Seq<LayerV>, ErrorV>(builder@));
                }
            }
            FetchOutcome::Skipped => {
                proof {
                    assert(!pool_fatal(outcomes@[i as int]));
                    assert(step_layers(*addr, layers@, outcomes@, i as int + 1)
                        == Ok::<Seq<LayerV>, ErrorV>(builder@));
                }
            }
            FetchOutcome::Rows(rows) => {
                if !gated {
                    proof {
                        assert(!pool_fatal(outcomes@[i as int]));
                        assert(step_layers(*addr, layers@, outcomes@, i as int + 1)
                            == Ok::<Seq<LayerV>, ErrorV>(builder@));
                    }
                } else if any_unsupported(&rows) {
                    proof {
                        assert(!pool_fatal(outcomes@[i as int]));
                        assert(step_layers(*addr, layers@, outcomes@, i as int + 1)
                            == Ok::<Seq<LayerV>, ErrorV>(builder@));
                    }
                } else {
                    let ghost start = builder@;
                    let mut j: usize = 0;
                    let nr = rows.len();
                    proof {
                        assert(rows_wf(rows@));
                        assert(add_rows(start, layers@[i as int], *addr, rows@, 0)
                            == Some(builder@));
                    }
                    while j < nr
                        invariant
                            0 <= j <= nr == rows@.len(),
                            addr.wf(),
                            b == bbox_spec(*addr),
                            b.wf(),
                            (i as int) < layers@.len(),
                            layers@.len() == outcomes@.len() == n,
                            layers@[i as int].wf(),
                            layers@[i as int].in_zoom(addr.zoom),
                            outcomes@[i as int] == FetchOutcome::Rows(rows),
                            rows_wf(rows@),
                            rows_supported(rows@),
                            builder.wf(),
                            step_layers(*addr, layers@, outcomes@, i as int)
                                == Ok::<Seq<LayerV>, ErrorV>(start),
                            add_rows(start, layers@[i as int], *addr, rows@, j as int)
                                == Some(builder@),
                        decreases nr - j,
                    {
                        let row = &rows[j];
                        let f = match encode_row(row, &b, layers[i].extent) {
                            Ok(f) => f,
                            Err(e) => {
                                proof {
                                    assert(!(rows@[j as int].geom is Unsupported));
                                    assert(false);
                                }
                                return Err(e);
                            }
                        };
                        match builder.add_feature(&layers[i].name, layers[i].extent, &f) {
                            Ok(_) => {
                                proof {
                                    assert(add_rows(start, layers@[i as int], *addr, rows@,
                                        j as int + 1) == Some(builder@));
                                }
                            }
                            Err(_) => {
                                proof {
                                    assert(add_rows(start, layers@[i as int], *addr, rows@,
                                        j as int + 1) is None);
                                    lemma_add_rows_none_propagates(start, layers@[i as int],
                                        *addr, rows@, j as int + 1, rows@.len() as int);
                                    assert(step_layers(*addr, layers@, outcomes@, i as int + 1)
                                        == Err::<Seq<LayerV>, ErrorV>(ErrorV::EncodingOverflow));
                                    lemma_step_err_propagates(*addr, layers@, outcomes@,
                                        i as int + 1, n as int);
                                }
                                return Err(Error::EncodingOverflow);
                            }
                        }
                        j = j + 1;
                    }
                    proof {
                        assert(!pool_fatal(outcomes@[i as int]));
                        assert(step_layers(*addr, layers@, outcomes@, i as int + 1)
                            == Ok::<Seq<LayerV>, ErrorV>(builder@));
                    }
                }
            }
        }
        i = i + 1;
    }
    let ghost built = builder@;
    let tile = match builder.finish(cfg.error_on_empty) {
        Ok(t) => t,
        Err(e) => {
            proof {
                assert(keep_nonempty(built, built.len() as int).len() == 0);
                assert(e@ == ErrorV::TileEmpty);
            }
            return Err(e);
        }
    };
    let bytes = match serialize_tile(&tile, cfg.max_bytes) {
        Ok(bs) => bs,
        Err(e) => {
            return Err(e);
        }
    };
    Ok(bytes)
}

/// Idempotence law: the pipeline is a pure function of the tile address,
/// the layer configuration and the fetched outcomes; two runs on
/// identical inputs yield byte-identical output.
pub proof fn lemma_pipeline_idempotent(
    addr: TileAddress,
    layers: Seq<LayerSpec>,
    outcomes: Seq<FetchOutcome>,
    cfg: TileConfig,
    b1: Seq<u8>,
    b2: Seq<u8>,
)
    requires
        pipeline_spec(addr, layers, outcomes, cfg) == Ok::<Seq<u8>, ErrorV>(b1),
        pipeline_spec(addr, layers, outcomes, cfg) == Ok::<Seq<u8>, ErrorV>(b2),
    ensures
        b1 == b2,
{
}

} // verus!
