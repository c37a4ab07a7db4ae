//! The two resolver passes of the clear step, run once per frame in order.
//!
//! The view pass walks the frame's views in stored order and plans one
//! clear-only render pass per view, except that a view whose destination was
//! already cleared by an earlier view is skipped outright (mark-then-skip):
//! the first view of a destination wins, deterministically.  Every
//! destination a view clears is recorded in the touched set.
//!
//! The orphan pass then walks the frame's destination universe — every
//! destination with a configured override, then every live window surface —
//! and plans a color-only clear for each one not already touched, resolving
//! it to a concrete texture view first.  A destination it cannot resolve
//! aborts the frame.

use vstd::prelude::*;

use crate::config::ClearColorConfig;
use crate::model::{ClearOp, ClearPassError, Destination, FrameView};
use crate::resolve::ResolutionTable;
use crate::touched::TouchedSet;

verus! {

/// The clear operation the view pass plans for one view: its color
/// attachment cleared to the view's effective color, its depth attachment
/// (when present) cleared alongside.
pub open spec fn view_op(v: FrameView, cfg: ClearColorConfig) -> ClearOp {
    ClearOp {
        texture: v.color_attachment,
        color: cfg.effective_color(v.destination),
        depth_texture: v.depth_attachment,
        destination: v.destination,
    }
}

/// The destinations the first `views.len()` views mark as touched: every
/// destination some view is associated with.
pub open spec fn touched_of(views: Seq<FrameView>) -> Set<Destination>
    decreases views.len(),
{
    if views.len() == 0 {
        Set::empty()
    } else {
        match views.last().destination {
            Some(d) => touched_of(views.drop_last()).insert(d),
            None => touched_of(views.drop_last()),
        }
    }
}

/// The clear operations the view pass plans, in view order: one per view,
/// except that a view whose destination an earlier view already holds is
/// skipped.
pub open spec fn view_pass_ops(views: Seq<FrameView>, cfg: ClearColorConfig) -> Seq<ClearOp>
    decreases views.len(),
{
    if views.len() == 0 {
        Seq::empty()
    } else {
        let prefix = view_pass_ops(views.drop_last(), cfg);
        let v = views.last();
        match v.destination {
            Some(d) => if touched_of(views.drop_last()).contains(d) {
                prefix
            } else {
                prefix.push(view_op(v, cfg))
            },
            None => prefix.push(view_op(v, cfg)),
        }
    }
}

/// The clear operation the orphan pass plans for destination `d`: its
/// resolved texture view cleared to its effective color, no depth.
pub open spec fn orphan_op(d: Destination, cfg: ClearColorConfig, res: Map<Destination, u64>) -> ClearOp {
    ClearOp {
        texture: res[d],
        color: cfg.spec_get(d),
        depth_texture: None,
        destination: Some(d),
    }
}

/// The candidates the orphan pass walks, in order: every overridden
/// destination, then every live window surface.
pub open spec fn orphan_candidates(cfg: ClearColorConfig, windows: Seq<u64>) -> Seq<Destination> {
    cfg.override_keys() + windows.map_values(|w: u64| Destination::Window(w))
}

/// The frame's destination universe: the destinations owed a clear this
/// frame — every destination with a configured override and every live
/// window surface.
pub open spec fn frame_destination_universe(cfg: ClearColorConfig, windows: Seq<u64>) -> Set<
    Destination,
> {
    orphan_candidates(cfg, windows).to_set()
}

/// What the orphan pass does with the remaining candidates `cands`, the
/// destinations `done` already cleared this frame, and the operations `acc`
/// already planned: skip a done candidate, plan a clear for a resolvable
/// one (which is then done as well), and fail on the first candidate that
/// cannot be resolved.
pub open spec fn orphan_loop(
    cands: Seq<Destination>,
    cfg: ClearColorConfig,
    done: Set<Destination>,
    res: Map<Destination, u64>,
    acc: Seq<ClearOp>,
) -> Result<Seq<ClearOp>, ClearPassError>
    decreases cands.len(),
{
    if cands.len() == 0 {
        Ok(acc)
    } else {
        let d = cands.first();
        let rest = cands.drop_first();
        if done.contains(d) {
            orphan_loop(rest, cfg, done, res, acc)
        } else if res.contains_key(d) {
            orphan_loop(rest, cfg, done.insert(d), res, acc.push(orphan_op(d, cfg, res)))
        } else {
            Err(ClearPassError::DestinationUnresolved(d))
        }
    }
}

/// The only way planning fails is an unresolvable destination.
pub proof fn lemma_orphan_loop_err_is_unresolved(
    cands: Seq<Destination>,
    cfg: ClearColorConfig,
    done: Set<Destination>,
    res: Map<Destination, u64>,
    acc: Seq<ClearOp>,
)
    ensures
        orphan_loop(cands, cfg, done, res, acc) is Err ==> orphan_loop(
            cands,
            cfg,
            done,
            res,
            acc,
        ) matches Err(ClearPassError::DestinationUnresolved(_)),
    decreases cands.len(),
{
    if cands.len() > 0 {
        let d = cands.first();
        let rest = cands.drop_first();
        if done.contains(d) {
            lemma_orphan_loop_err_is_unresolved(rest, cfg, done, res, acc);
        } else if res.contains_key(d) {
            lemma_orphan_loop_err_is_unresolved(
                rest,
                cfg,
                done.insert(d),
                res,
                acc.push(orphan_op(d, cfg, res)),
            );
        }
    }
}

/// The operations the orphan pass plans, given the touched set the view
/// pass produced.
pub open spec fn orphan_pass_spec(
    cfg: ClearColorConfig,
    windows: Seq<u64>,
    touched: Set<Destination>,
    res: Map<Destination, u64>,
) -> Result<Seq<ClearOp>, ClearPassError> {
    orphan_loop(orphan_candidates(cfg, windows), cfg, touched, res, Seq::empty())
}

/// The whole step's plan: the view pass's operations followed by the orphan
/// pass's, or the error that aborted the frame.
pub open spec fn clear_pass_spec(
    views: Seq<FrameView>,
    cfg: ClearColorConfig,
    windows: Seq<u64>,
    res: Map<Destination, u64>,
) -> Result<Seq<ClearOp>, ClearPassError> {
    match orphan_pass_spec(cfg, windows, touched_of(views), res) {
        Ok(orphans) => Ok(view_pass_ops(views, cfg) + orphans),
        Err(e) => Err(e),
    }
}

/// A planned result, seen at the level the specifications speak of.
pub open spec fn ops_result(r: Result<Vec<ClearOp>, ClearPassError>) -> Result<
    Seq<ClearOp>,
    ClearPassError,
> {
    match r {
        Ok(ops) => Ok(ops@),
        Err(e) => Err(e),
    }
}

/// The view pass: plans one clear per view in order — skipping a view whose
/// destination an earlier view already cleared — and returns the
/// destinations that were touched.
pub fn view_clear_pass(views: &Vec<FrameView>, config: &ClearColorConfig) -> (r: (
    Vec<ClearOp>,
    TouchedSet,
))
    requires
        config.wf(),
    ensures
        r.0@ == view_pass_ops(views@, *config),
        r.1@ == touched_of(views@),
        r.1.wf(),
{
    let mut ops: Vec<ClearOp> = Vec::new();
    let mut touched = TouchedSet::new();
    let mut i: usize = 0;
    while i < views.len()
        invariant
            0 <= i <= views@.len(),
            config.wf(),
            touched.wf(),
            ops@ == view_pass_ops(views@.take(i as int), *config),
            touched@ == touched_of(views@.take(i as int)),
        decreases views@.len() - i,
    {
        let v = views[i];
        proof {
            assert(views@.take(i + 1).drop_last() =~= views@.take(i as int));
            assert(views@.take(i + 1).last() == views@[i as int]);
        }
        match v.destination {
            Some(d) => {
                if touched.contains(&d) {
                    proof {
                        assert(touched_of(views@.take(i as int)).insert(d) =~= touched_of(
                            views@.take(i as int),
                        ));
                    }
                } else {
                    let color = config.get(&d);
                    ops.push(
                        ClearOp {
                            texture: v.color_attachment,
                            color,
                            depth_texture: v.depth_attachment,
                            destination: v.destination,
                        },
                    );
                    touched.insert(d);
                }
            },
            None => {
                ops.push(
                    ClearOp {
                        texture: v.color_attachment,
                        color: config.default_color,
                        depth_texture: v.depth_attachment,
                        destination: None,
                    },
                );
            },
        }
        i += 1;
    }
    proof {
        assert(views@.take(views@.len() as int) =~= views@);
    }
    (ops, touched)
}

/// Lists the frame's destination universe in the order the orphan pass
/// walks it: overridden destinations first, then live window surfaces.
pub fn destination_universe(config: &ClearColorConfig, windows: &Vec<u64>) -> (cands: Vec<
    Destination,
>)
    ensures
        cands@ == orphan_candidates(*config, windows@),
{
    let mut cands: Vec<Destination> = Vec::new();
    let mut i: usize = 0;
    while i < config.overrides.len()
        invariant
            0 <= i <= config.overrides@.len(),
            cands@ == config.override_keys().take(i as int),
        decreases config.overrides@.len() - i,
    {
        cands.push(config.overrides[i].0);
        proof {
            assert(cands@ =~= config.override_keys().take(i + 1));
        }
        i += 1;
    }
    proof {
        assert(config.override_keys().take(config.overrides@.len() as int) =~= config
            .override_keys());
    }
    let mut j: usize = 0;
    while j < windows.len()
        invariant
            0 <= j <= windows@.len(),
            cands@ == config.override_keys() + windows@.take(j as int).map_values(
                |w: u64| Destination::Window(w),
            ),
        decreases windows@.len() - j,
    {
        cands.push(Destination::Window(windows[j]));
        proof {
            assert(cands@ =~= config.override_keys() + windows@.take(j + 1).map_values(
                |w: u64| Destination::Window(w),
            ));
        }
        j += 1;
    }
    proof {
        assert(windows@.take(windows@.len() as int) =~= windows@);
    }
    cands
}

/// The orphan pass: plans one color-only clear for every destination of the
/// frame's universe not already touched, walking overridden destinations
/// first and live windows second, and fails on the first such destination
/// the table cannot resolve.
pub fn orphan_clear_pass(
    config: &ClearColorConfig,
    windows: &Vec<u64>,
    touched: TouchedSet,
    resolution: &ResolutionTable,
) -> (r: Result<Vec<ClearOp>, ClearPassError>)
    requires
        config.wf(),
        touched.wf(),
        resolution.wf(),
    ensures
        ops_result(r) == orphan_pass_spec(*config, windows@, touched@, resolution@),
{
    let ghost touched0: Set<Destination> = touched@;
    let cands = destination_universe(config, windows);
    let mut done = touched;
    let mut ops: Vec<ClearOp> = Vec::new();
    let mut i: usize = 0;
    proof {
        assert(cands@.skip(0) =~= cands@);
    }
    while i < cands.len()
        invariant
            0 <= i <= cands@.len(),
            config.wf(),
            resolution.wf(),
            done.wf(),
            cands@ == orphan_candidates(*config, windows@),
            touched@ == touched0,
            orphan_loop(cands@.skip(i as int), *config, done@, resolution@, ops@)
                == orphan_pass_spec(*config, windows@, touched0, resolution@),
        decreases cands@.len() - i,
    {
        let d = cands[i];
        proof {
            assert(cands@.skip(i as int).first() == cands@[i as int]);
            assert(cands@.skip(i as int).drop_first() =~= cands@.skip(i + 1));
        }
        if !done.contains(&d) {
            match resolution.resolve(&d) {
                Some(texture) => {
                    let color = config.get(&d);
                    ops.push(
                        ClearOp { texture, color, depth_texture: None, destination: Some(d) },
                    );
                    done.insert(d);
                },
                None => {
                    proof {
                        assert(orphan_loop(
                            cands@.skip(i as int),
                            *config,
                            done@,
                            resolution@,
                            ops@,
                        ) == Err::<Seq<ClearOp>, ClearPassError>(
                            ClearPassError::DestinationUnresolved(d),
                        ));
                    }
                    return Err(ClearPassError::DestinationUnresolved(d));
                },
            }
        }
        i += 1;
    }
    proof {
        assert(cands@.skip(cands@.len() as int) =~= Seq::<Destination>::empty());
    }
    Ok(ops)
}

/// The whole clear step for one frame: clears every view (first view of a
/// destination wins), then every untouched destination of the frame's
/// universe, and returns the planned operations in order.  A missing
/// configuration or an unresolvable destination aborts the frame.
pub fn run_clear_pass(
    config: Option<&ClearColorConfig>,
    views: &Vec<FrameView>,
    windows: &Vec<u64>,
    resolution: &ResolutionTable,
) -> (r: Result<Vec<ClearOp>, ClearPassError>)
    requires
        match config {
            Some(c) => c.wf(),
            None => true,
        },
        resolution.wf(),
    ensures
        r == Err::<Vec<ClearOp>, ClearPassError>(ClearPassError::ConfigMissing) <==> config
            is None,
        config matches Some(c) ==> ops_result(r) == clear_pass_spec(
            views@,
            *c,
            windows@,
            resolution@,
        ),
{
    let config = match config {
        Some(c) => c,
        None => {
            return Err(ClearPassError::ConfigMissing);
        },
    };
    let (mut ops, touched) = view_clear_pass(views, config);
    proof {
        lemma_orphan_loop_err_is_unresolved(
            orphan_candidates(*config, windows@),
            *config,
            touched@,
            resolution@,
            Seq::empty(),
        );
    }
    match orphan_clear_pass(config, windows, touched, resolution) {
        Ok(mut orphan_ops) => {
            ops.append(&mut orphan_ops);
            Ok(ops)
        },
        Err(e) => Err(e),
    }
}

} // verus!
