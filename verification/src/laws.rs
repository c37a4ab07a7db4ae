//! The guarantees of the clear step, proved of the pass specifications:
//! every destination of the frame's universe is cleared at least once, no
//! destination is cleared twice, every clear uses the destination's
//! effective color, idle windows are cleared too, and a frame fails exactly
//! when some untouched destination of the universe cannot be resolved.

use vstd::prelude::*;

use crate::config::ClearColorConfig;
use crate::model::{ClearOp, ClearPassError, Destination, FrameView};
use crate::passes::{
    clear_pass_spec, frame_destination_universe, orphan_candidates, orphan_loop, orphan_op,
    orphan_pass_spec, touched_of, view_op, view_pass_ops,
};

verus! {

// ---------------------------------------------------------------------------
// The view pass, element by element.
// ---------------------------------------------------------------------------
/// Every operation the view pass plans is the planned clear of one of the
/// frame's views.
proof fn lemma_view_op_source(views: Seq<FrameView>, cfg: ClearColorConfig, k: int)
    requires
        0 <= k < view_pass_ops(views, cfg).len(),
    ensures
        exists|i: int|
            #![trigger views[i]]
            0 <= i < views.len() && view_pass_ops(views, cfg)[k] == view_op(views[i], cfg),
    decreases views.len(),
{
    let ops = view_pass_ops(views, cfg);
    let tl = views.drop_last();
    let prefix = view_pass_ops(tl, cfg);
    if k < prefix.len() {
        lemma_view_op_source(tl, cfg, k);
        let j = choose|i: int| 0 <= i < tl.len() && prefix[k] == view_op(tl[i], cfg);
        assert(tl[j] == views[j]);
        assert(ops[k] == prefix[k]);
    } else {
        assert(ops[k] == view_op(views.last(), cfg));
        assert(views[views.len() - 1] == views.last());
    }
}

/// A planned view clear for destination `d` means some view targets `d`,
/// so `d` is in the touched set.
proof fn lemma_view_op_touched(views: Seq<FrameView>, cfg: ClearColorConfig, k: int, d: Destination)
    requires
        0 <= k < view_pass_ops(views, cfg).len(),
        view_pass_ops(views, cfg)[k].destination == Some(d),
    ensures
        touched_of(views).contains(d),
    decreases views.len(),
{
    let ops = view_pass_ops(views, cfg);
    let tl = views.drop_last();
    let prefix = view_pass_ops(tl, cfg);
    if k < prefix.len() {
        lemma_view_op_touched(tl, cfg, k, d);
    } else {
        assert(ops[k] == view_op(views.last(), cfg));
    }
}

/// The view pass never plans two clears for the same destination.
proof fn lemma_view_ops_unique(
    views: Seq<FrameView>,
    cfg: ClearColorConfig,
    k1: int,
    k2: int,
    d: Destination,
)
    requires
        0 <= k1 <= k2 < view_pass_ops(views, cfg).len(),
        view_pass_ops(views, cfg)[k1].destination == Some(d),
        view_pass_ops(views, cfg)[k2].destination == Some(d),
    ensures
        k1 == k2,
    decreases views.len(),
{
    let ops = view_pass_ops(views, cfg);
    let tl = views.drop_last();
    let prefix = view_pass_ops(tl, cfg);
    if k2 < prefix.len() {
        lemma_view_ops_unique(tl, cfg, k1, k2, d);
    } else if k1 < k2 {
        assert(ops[k2] == view_op(views.last(), cfg));
        assert(views.last().destination == Some(d));
        assert(!touched_of(tl).contains(d));
        lemma_view_op_touched(tl, cfg, k1, d);
        assert(false);
    }
}

/// Every touched destination got a planned view clear.
proof fn lemma_touched_has_view_op(views: Seq<FrameView>, cfg: ClearColorConfig, d: Destination)
    requires
        touched_of(views).contains(d),
    ensures
        exists|k: int|
            #![trigger view_pass_ops(views, cfg)[k]]
            0 <= k < view_pass_ops(views, cfg).len() && view_pass_ops(views, cfg)[k].destination
                == Some(d),
    decreases views.len(),
{
    let ops = view_pass_ops(views, cfg);
    let tl = views.drop_last();
    let prefix = view_pass_ops(tl, cfg);
    let v = views.last();
    match v.destination {
        Some(d0) => {
            if touched_of(tl).contains(d) {
                lemma_touched_has_view_op(tl, cfg, d);
                let k = choose|k: int|
                    0 <= k < prefix.len() && prefix[k].destination == Some(d);
                assert(ops[k] == prefix[k]);
            } else {
                assert(d == d0);
                assert(!touched_of(tl).contains(d0));
                assert(ops[prefix.len() as int] == view_op(v, cfg));
            }
        },
        None => {
            lemma_touched_has_view_op(tl, cfg, d);
            let k = choose|k: int| 0 <= k < prefix.len() && prefix[k].destination == Some(d);
            assert(ops[k] == prefix[k]);
        },
    }
}

/// The deterministic winning clear: when several views share a destination,
/// the clear the view pass plans for it is the first such view's, in view
/// order.  With the uniqueness law, that plan is the destination's only one.
pub proof fn lemma_first_view_wins(
    views: Seq<FrameView>,
    cfg: ClearColorConfig,
    i: int,
    d: Destination,
)
    requires
        0 <= i < views.len(),
        views[i].destination == Some(d),
        forall|j: int| 0 <= j < i ==> (#[trigger] views[j]).destination != Some(d),
    ensures
        exists|k: int|
            #![trigger view_pass_ops(views, cfg)[k]]
            0 <= k < view_pass_ops(views, cfg).len() && view_pass_ops(views, cfg)[k] == view_op(
                views[i],
                cfg,
            ),
    decreases views.len(),
{
    let ops = view_pass_ops(views, cfg);
    let tl = views.drop_last();
    let prefix = view_pass_ops(tl, cfg);
    if i < views.len() - 1 {
        assert(tl[i] == views[i]);
        assert forall|j: int| 0 <= j < i implies (#[trigger] tl[j]).destination != Some(d) by {
            assert(tl[j] == views[j]);
        }
        lemma_first_view_wins(tl, cfg, i, d);
        let k = choose|k: int| 0 <= k < prefix.len() && prefix[k] == view_op(tl[i], cfg);
        assert(ops[k] == prefix[k]);
    } else {
        let v = views.last();
        assert(v == views[i]);
        lemma_touched_iff_targeted(tl, d);
        assert forall|j: int| 0 <= j < tl.len() implies (#[trigger] tl[j]).destination != Some(
            d,
        ) by {
            assert(tl[j] == views[j]);
        }
        assert(!touched_of(tl).contains(d));
        assert(ops[prefix.len() as int] == view_op(v, cfg));
    }
}

/// A destination is touched exactly when some view is associated with it.
pub proof fn lemma_touched_iff_targeted(views: Seq<FrameView>, d: Destination)
    ensures
        touched_of(views).contains(d) <==> exists|i: int|
            #![trigger views[i]]
            0 <= i < views.len() && views[i].destination == Some(d),
    decreases views.len(),
{
    if views.len() > 0 {
        let tl = views.drop_last();
        lemma_touched_iff_targeted(tl, d);
        if touched_of(views).contains(d) && !touched_of(tl).contains(d) {
            assert(views[views.len() - 1] == views.last());
        }
        if exists|i: int| #![trigger views[i]] 0 <= i < views.len() && views[i].destination
            == Some(d) {
            let i = choose|i: int| 0 <= i < views.len() && views[i].destination == Some(d);
            if i < views.len() - 1 {
                assert(tl[i] == views[i]);
            } else {
                assert(views.last().destination == Some(d));
            }
        }
    }
}

// ---------------------------------------------------------------------------
// The orphan pass, element by element.
// ---------------------------------------------------------------------------
/// Planning on top of already planned operations only prepends them.
proof fn lemma_orphan_acc(
    cands: Seq<Destination>,
    cfg: ClearColorConfig,
    done: Set<Destination>,
    res: Map<Destination, u64>,
    acc: Seq<ClearOp>,
)
    ensures
        match orphan_loop(cands, cfg, done, res, Seq::empty()) {
            Ok(s) => orphan_loop(cands, cfg, done, res, acc) == Ok::<Seq<ClearOp>, ClearPassError>(
                acc + s,
            ),
            Err(e) => orphan_loop(cands, cfg, done, res, acc) == Err::<
                Seq<ClearOp>,
                ClearPassError,
            >(e),
        },
    decreases cands.len(),
{
    if cands.len() == 0 {
        assert(acc + Seq::<ClearOp>::empty() =~= acc);
    } else {
        let d0 = cands.first();
        let rest = cands.drop_first();
        if done.contains(d0) {
            lemma_orphan_acc(rest, cfg, done, res, acc);
        } else if res.contains_key(d0) {
            let op0 = orphan_op(d0, cfg, res);
            let done1 = done.insert(d0);
            assert(Seq::<ClearOp>::empty().push(op0) =~= seq![op0]);
            lemma_orphan_acc(rest, cfg, done1, res, acc.push(op0));
            lemma_orphan_acc(rest, cfg, done1, res, seq![op0]);
            match orphan_loop(rest, cfg, done1, res, Seq::empty()) {
                Ok(s) => {
                    assert(acc.push(op0) + s =~= acc + (seq![op0] + s));
                },
                Err(e) => {},
            }
        }
    }
}

/// Every operation the orphan pass plans is the color-only clear of a
/// candidate destination that was neither done before the pass nor planned
/// twice, and that the table resolves.
proof fn lemma_orphan_op_source(
    cands: Seq<Destination>,
    cfg: ClearColorConfig,
    done: Set<Destination>,
    res: Map<Destination, u64>,
    s: Seq<ClearOp>,
    k: int,
)
    requires
        orphan_loop(cands, cfg, done, res, Seq::empty()) == Ok::<Seq<ClearOp>, ClearPassError>(s),
        0 <= k < s.len(),
    ensures
        exists|d: Destination|
            #![trigger orphan_op(d, cfg, res)]
            s[k] == orphan_op(d, cfg, res) && cands.contains(d) && !done.contains(d)
                && res.contains_key(d),
    decreases cands.len(),
{
    let d0 = cands.first();
    let rest = cands.drop_first();
    if done.contains(d0) {
        lemma_orphan_op_source(rest, cfg, done, res, s, k);
        let d = choose|d: Destination|
            #![trigger orphan_op(d, cfg, res)]
            s[k] == orphan_op(d, cfg, res) && rest.contains(d) && !done.contains(d)
                && res.contains_key(d);
        let j = choose|j: int| 0 <= j < rest.len() && rest[j] == d;
        assert(cands[j + 1] == d);
    } else {
        let op0 = orphan_op(d0, cfg, res);
        let done1 = done.insert(d0);
        assert(Seq::<ClearOp>::empty().push(op0) =~= seq![op0]);
        lemma_orphan_acc(rest, cfg, done1, res, seq![op0]);
        match orphan_loop(rest, cfg, done1, res, Seq::empty()) {
            Ok(s1) => {
                assert(s == seq![op0] + s1);
                if k == 0 {
                    assert(s[0] == op0);
                    assert(cands[0] == d0);
                } else {
                    lemma_orphan_op_source(rest, cfg, done1, res, s1, k - 1);
                    let d = choose|d: Destination|
                        #![trigger orphan_op(d, cfg, res)]
                        s1[k - 1] == orphan_op(d, cfg, res) && rest.contains(d) && !done1.contains(
                            d,
                        ) && res.contains_key(d);
                    let j = choose|j: int| 0 <= j < rest.len() && rest[j] == d;
                    assert(cands[j + 1] == d);
                    assert(s[k] == s1[k - 1]);
                }
            },
            Err(e) => {
                assert(false);
            },
        }
    }
}

/// The orphan pass never plans two clears for the same destination.
proof fn lemma_orphan_ops_unique(
    cands: Seq<Destination>,
    cfg: ClearColorConfig,
    done: Set<Destination>,
    res: Map<Destination, u64>,
    s: Seq<ClearOp>,
    k1: int,
    k2: int,
)
    requires
        orphan_loop(cands, cfg, done, res, Seq::empty()) == Ok::<Seq<ClearOp>, ClearPassError>(s),
        0 <= k1 <= k2 < s.len(),
        s[k1].destination == s[k2].destination,
    ensures
        k1 == k2,
    decreases cands.len(),
{
    let d0 = cands.first();
    let rest = cands.drop_first();
    if done.contains(d0) {
        lemma_orphan_ops_unique(rest, cfg, done, res, s, k1, k2);
    } else {
        let op0 = orphan_op(d0, cfg, res);
        let done1 = done.insert(d0);
        assert(Seq::<ClearOp>::empty().push(op0) =~= seq![op0]);
        lemma_orphan_acc(rest, cfg, done1, res, seq![op0]);
        match orphan_loop(rest, cfg, done1, res, Seq::empty()) {
            Ok(s1) => {
                assert(s == seq![op0] + s1);
                if k1 == 0 && k2 > 0 {
                    assert(s[k2] == s1[k2 - 1]);
                    lemma_orphan_op_source(rest, cfg, done1, res, s1, k2 - 1);
                    let d = choose|d: Destination|
                        #![trigger orphan_op(d, cfg, res)]
                        s1[k2 - 1] == orphan_op(d, cfg, res) && rest.contains(d)
                            && !done1.contains(d) && res.contains_key(d);
                    assert(d != d0);
                    assert(s[0].destination == Some(d0));
                    assert(s[k2].destination == Some(d));
                    assert(false);
                } else if k1 > 0 {
                    assert(s[k1] == s1[k1 - 1]);
                    assert(s[k2] == s1[k2 - 1]);
                    lemma_orphan_ops_unique(rest, cfg, done1, res, s1, k1 - 1, k2 - 1);
                }
            },
            Err(e) => {
                assert(false);
            },
        }
    }
}

/// Every candidate not already done gets a planned orphan clear.
proof fn lemma_orphan_complete(
    cands: Seq<Destination>,
    cfg: ClearColorConfig,
    done: Set<Destination>,
    res: Map<Destination, u64>,
    s: Seq<ClearOp>,
    d: Destination,
)
    requires
        orphan_loop(cands, cfg, done, res, Seq::empty()) == Ok::<Seq<ClearOp>, ClearPassError>(s),
        cands.contains(d),
        !done.contains(d),
    ensures
        exists|k: int| #![trigger s[k]] 0 <= k < s.len() && s[k].destination == Some(d),
    decreases cands.len(),
{
    let d0 = cands.first();
    let rest = cands.drop_first();
    let i = choose|i: int| 0 <= i < cands.len() && cands[i] == d;
    if done.contains(d0) {
        assert(d != d0);
        assert(i > 0);
        assert(rest[i - 1] == d);
        lemma_orphan_complete(rest, cfg, done, res, s, d);
    } else {
        let op0 = orphan_op(d0, cfg, res);
        let done1 = done.insert(d0);
        assert(Seq::<ClearOp>::empty().push(op0) =~= seq![op0]);
        lemma_orphan_acc(rest, cfg, done1, res, seq![op0]);
        match orphan_loop(rest, cfg, done1, res, Seq::empty()) {
            Ok(s1) => {
                assert(s == seq![op0] + s1);
                if d == d0 {
                    assert(s[0] == op0);
                } else {
                    assert(i > 0);
                    assert(rest[i - 1] == d);
                    lemma_orphan_complete(rest, cfg, done1, res, s1, d);
                    let k = choose|k: int|
                        0 <= k < s1.len() && s1[k].destination == Some(d);
                    assert(s[k + 1] == s1[k]);
                }
            },
            Err(e) => {
                assert(false);
            },
        }
    }
}

/// A planning failure names a candidate that was not done and that the
/// table does not resolve.
proof fn lemma_orphan_err(
    cands: Seq<Destination>,
    cfg: ClearColorConfig,
    done: Set<Destination>,
    res: Map<Destination, u64>,
    acc: Seq<ClearOp>,
    d: Destination,
)
    requires
        orphan_loop(cands, cfg, done, res, acc) == Err::<Seq<ClearOp>, ClearPassError>(
            ClearPassError::DestinationUnresolved(d),
        ),
    ensures
        cands.contains(d),
        !done.contains(d),
        !res.contains_key(d),
    decreases cands.len(),
{
    let d0 = cands.first();
    let rest = cands.drop_first();
    if done.contains(d0) {
        lemma_orphan_err(rest, cfg, done, res, acc, d);
        let j = choose|j: int| 0 <= j < rest.len() && rest[j] == d;
        assert(cands[j + 1] == d);
    } else if res.contains_key(d0) {
        lemma_orphan_err(
            rest,
            cfg,
            done.insert(d0),
            res,
            acc.push(orphan_op(d0, cfg, res)),
            d,
        );
        let j = choose|j: int| 0 <= j < rest.len() && rest[j] == d;
        assert(cands[j + 1] == d);
    } else {
        assert(d == d0);
        assert(cands[0] == d);
    }
}

/// When every candidate is either done or resolvable, planning succeeds.
proof fn lemma_orphan_ok(
    cands: Seq<Destination>,
    cfg: ClearColorConfig,
    done: Set<Destination>,
    res: Map<Destination, u64>,
    acc: Seq<ClearOp>,
)
    requires
        forall|d: Destination| #[trigger]
            cands.contains(d) ==> done.contains(d) || res.contains_key(d),
    ensures
        orphan_loop(cands, cfg, done, res, acc) is Ok,
    decreases cands.len(),
{
    if cands.len() > 0 {
        let d0 = cands.first();
        let rest = cands.drop_first();
        assert(cands[0] == d0);
        assert(cands.contains(d0));
        assert forall|d: Destination| #[trigger]
            rest.contains(d) implies cands.contains(d) by {
            let j = choose|j: int| 0 <= j < rest.len() && rest[j] == d;
            assert(cands[j + 1] == d);
        }
        if done.contains(d0) {
            lemma_orphan_ok(rest, cfg, done, res, acc);
        } else {
            lemma_orphan_ok(rest, cfg, done.insert(d0), res, acc.push(orphan_op(d0, cfg, res)));
        }
    }
}

// ---------------------------------------------------------------------------
// The laws of the whole step.
// ---------------------------------------------------------------------------
/// A destination is in the frame's universe exactly when it has a
/// configured override or is a live window surface.
pub proof fn lemma_universe_member(cfg: ClearColorConfig, windows: Seq<u64>, d: Destination)
    ensures
        frame_destination_universe(cfg, windows).contains(d) <==> (cfg.overrides_map().contains_key(
            d,
        ) || exists|j: int|
            #![trigger windows[j]]
            0 <= j < windows.len() && d == Destination::Window(windows[j])),
{
    let keys = cfg.override_keys();
    let wins = windows.map_values(|w: u64| Destination::Window(w));
    let cands = orphan_candidates(cfg, windows);
    crate::assoc::lemma_assoc_map_dom(cfg.overrides@);
    if cands.contains(d) {
        let i = choose|i: int| 0 <= i < cands.len() && cands[i] == d;
        if i < keys.len() {
            assert(keys[i] == d);
            assert(keys.contains(d));
        } else {
            assert(wins[i - keys.len()] == d);
            assert(windows[i - keys.len()] == windows[i - keys.len()]);
        }
    }
    if cfg.overrides_map().contains_key(d) {
        let i = choose|i: int| 0 <= i < keys.len() && keys[i] == d;
        assert(cands[i] == d);
        assert(cands.contains(d));
    }
    if exists|j: int| #![trigger windows[j]] 0 <= j < windows.len() && d == Destination::Window(
        windows[j],
    ) {
        let j = choose|j: int| 0 <= j < windows.len() && d == Destination::Window(windows[j]);
        assert(cands[keys.len() + j] == wins[j]);
        assert(wins[j] == d);
        assert(cands.contains(d));
    }
}

/// Every destination of the frame's universe receives at least one clear:
/// no destination is skipped.
pub proof fn lemma_every_destination_cleared(
    views: Seq<FrameView>,
    cfg: ClearColorConfig,
    windows: Seq<u64>,
    res: Map<Destination, u64>,
    ops: Seq<ClearOp>,
    d: Destination,
)
    requires
        clear_pass_spec(views, cfg, windows, res) == Ok::<Seq<ClearOp>, ClearPassError>(ops),
        frame_destination_universe(cfg, windows).contains(d),
    ensures
        exists|k: int| #![trigger ops[k]] 0 <= k < ops.len() && ops[k].destination == Some(d),
{
    let touched = touched_of(views);
    let vops = view_pass_ops(views, cfg);
    let cands = orphan_candidates(cfg, windows);
    match orphan_pass_spec(cfg, windows, touched, res) {
        Ok(orphans) => {
            assert(ops == vops + orphans);
            if touched.contains(d) {
                lemma_touched_has_view_op(views, cfg, d);
                let k = choose|k: int| 0 <= k < vops.len() && vops[k].destination == Some(d);
                assert(ops[k] == vops[k]);
            } else {
                assert(cands.contains(d));
                lemma_orphan_complete(cands, cfg, touched, res, orphans, d);
                let k = choose|k: int|
                    0 <= k < orphans.len() && orphans[k].destination == Some(d);
                assert(ops[vops.len() + k] == orphans[k]);
            }
        },
        Err(e) => {
            assert(false);
        },
    }
}

/// No destination receives a second clear: two planned operations for the
/// same destination are the same operation.  In particular no destination
/// the view pass touched is cleared again by the orphan pass.
pub proof fn lemma_destination_cleared_at_most_once(
    views: Seq<FrameView>,
    cfg: ClearColorConfig,
    windows: Seq<u64>,
    res: Map<Destination, u64>,
    ops: Seq<ClearOp>,
    d: Destination,
    k1: int,
    k2: int,
)
    requires
        clear_pass_spec(views, cfg, windows, res) == Ok::<Seq<ClearOp>, ClearPassError>(ops),
        0 <= k1 <= k2 < ops.len(),
        ops[k1].destination == Some(d),
        ops[k2].destination == Some(d),
    ensures
        k1 == k2,
{
    let touched = touched_of(views);
    let vops = view_pass_ops(views, cfg);
    let cands = orphan_candidates(cfg, windows);
    match orphan_pass_spec(cfg, windows, touched, res) {
        Ok(orphans) => {
            assert(ops == vops + orphans);
            if k2 < vops.len() {
                assert(ops[k1] == vops[k1]);
                assert(ops[k2] == vops[k2]);
                lemma_view_ops_unique(views, cfg, k1, k2, d);
            } else if k1 >= vops.len() {
                assert(ops[k1] == orphans[k1 - vops.len()]);
                assert(ops[k2] == orphans[k2 - vops.len()]);
                lemma_orphan_ops_unique(
                    cands,
                    cfg,
                    touched,
                    res,
                    orphans,
                    k1 - vops.len(),
                    k2 - vops.len(),
                );
            } else {
                assert(ops[k1] == vops[k1]);
                assert(ops[k2] == orphans[k2 - vops.len()]);
                lemma_view_op_touched(views, cfg, k1, d);
                lemma_orphan_op_source(cands, cfg, touched, res, orphans, k2 - vops.len());
                let d2 = choose|d2: Destination|
                    #![trigger orphan_op(d2, cfg, res)]
                    orphans[k2 - vops.len()] == orphan_op(d2, cfg, res) && cands.contains(d2)
                        && !touched.contains(d2) && res.contains_key(d2);
                assert(ops[k2].destination == Some(d2));
                assert(d2 == d);
                assert(false);
            }
        },
        Err(e) => {
            assert(false);
        },
    }
}

/// A destination present in the touched set receives no clear at all from
/// the orphan pass: at most once per destination from that pass.
pub proof fn lemma_touched_not_recleared(
    cfg: ClearColorConfig,
    windows: Seq<u64>,
    touched: Set<Destination>,
    res: Map<Destination, u64>,
    orphans: Seq<ClearOp>,
    d: Destination,
    k: int,
)
    requires
        orphan_pass_spec(cfg, windows, touched, res) == Ok::<Seq<ClearOp>, ClearPassError>(
            orphans,
        ),
        touched.contains(d),
        0 <= k < orphans.len(),
    ensures
        orphans[k].destination != Some(d),
{
    let cands = orphan_candidates(cfg, windows);
    lemma_orphan_op_source(cands, cfg, touched, res, orphans, k);
    let d2 = choose|d2: Destination|
        #![trigger orphan_op(d2, cfg, res)]
        orphans[k] == orphan_op(d2, cfg, res) && cands.contains(d2) && !touched.contains(d2)
            && res.contains_key(d2);
    assert(orphans[k].destination == Some(d2));
}

/// Every planned clear uses the effective color of the destination it is
/// for: the configured override when one exists, else the default — and a
/// view with no destination association is cleared with the default.
pub proof fn lemma_effective_color_used(
    views: Seq<FrameView>,
    cfg: ClearColorConfig,
    windows: Seq<u64>,
    res: Map<Destination, u64>,
    ops: Seq<ClearOp>,
    k: int,
)
    requires
        clear_pass_spec(views, cfg, windows, res) == Ok::<Seq<ClearOp>, ClearPassError>(ops),
        0 <= k < ops.len(),
    ensures
        ops[k].color == cfg.effective_color(ops[k].destination),
{
    let touched = touched_of(views);
    let vops = view_pass_ops(views, cfg);
    let cands = orphan_candidates(cfg, windows);
    match orphan_pass_spec(cfg, windows, touched, res) {
        Ok(orphans) => {
            assert(ops == vops + orphans);
            if k < vops.len() {
                assert(ops[k] == vops[k]);
                lemma_view_op_source(views, cfg, k);
                let i = choose|i: int|
                    0 <= i < views.len() && vops[k] == view_op(views[i], cfg);
                assert(ops[k].destination == views[i].destination);
            } else {
                assert(ops[k] == orphans[k - vops.len()]);
                lemma_orphan_op_source(cands, cfg, touched, res, orphans, k - vops.len());
                let d = choose|d: Destination|
                    #![trigger orphan_op(d, cfg, res)]
                    orphans[k - vops.len()] == orphan_op(d, cfg, res) && cands.contains(d)
                        && !touched.contains(d) && res.contains_key(d);
                assert(ops[k].destination == Some(d));
                assert(ops[k].color == cfg.spec_get(d));
            }
        },
        Err(e) => {
            assert(false);
        },
    }
}

/// A clear planned for a destination with a configured override uses that
/// override, not the default.
pub proof fn lemma_override_color_used(
    views: Seq<FrameView>,
    cfg: ClearColorConfig,
    windows: Seq<u64>,
    res: Map<Destination, u64>,
    ops: Seq<ClearOp>,
    k: int,
    d: Destination,
)
    requires
        clear_pass_spec(views, cfg, windows, res) == Ok::<Seq<ClearOp>, ClearPassError>(ops),
        0 <= k < ops.len(),
        ops[k].destination == Some(d),
        cfg.overrides_map().contains_key(d),
    ensures
        ops[k].color == cfg.overrides_map()[d],
{
    lemma_effective_color_used(views, cfg, windows, res, ops, k);
}

/// A clear planned for a destination with no override, or for a view with
/// no destination association, uses the default color.
pub proof fn lemma_default_color_used(
    views: Seq<FrameView>,
    cfg: ClearColorConfig,
    windows: Seq<u64>,
    res: Map<Destination, u64>,
    ops: Seq<ClearOp>,
    k: int,
)
    requires
        clear_pass_spec(views, cfg, windows, res) == Ok::<Seq<ClearOp>, ClearPassError>(ops),
        0 <= k < ops.len(),
        match ops[k].destination {
            Some(d) => !cfg.overrides_map().contains_key(d),
            None => true,
        },
    ensures
        ops[k].color == cfg.default_color,
{
    lemma_effective_color_used(views, cfg, windows, res, ops, k);
}

/// A live window surface no view targets is still cleared: one planned
/// operation clears its resolved texture view with its effective color and
/// touches no depth attachment.
pub proof fn lemma_idle_window_cleared(
    views: Seq<FrameView>,
    cfg: ClearColorConfig,
    windows: Seq<u64>,
    res: Map<Destination, u64>,
    ops: Seq<ClearOp>,
    w: u64,
)
    requires
        clear_pass_spec(views, cfg, windows, res) == Ok::<Seq<ClearOp>, ClearPassError>(ops),
        windows.contains(w),
        forall|i: int|
            0 <= i < views.len() ==> (#[trigger] views[i]).destination != Some(
                Destination::Window(w),
            ),
    ensures
        exists|k: int|
            #![trigger ops[k]]
            0 <= k < ops.len() && ops[k] == orphan_op(Destination::Window(w), cfg, res),
{
    let d = Destination::Window(w);
    let touched = touched_of(views);
    let vops = view_pass_ops(views, cfg);
    let cands = orphan_candidates(cfg, windows);
    let keys = cfg.override_keys();
    let wins = windows.map_values(|x: u64| Destination::Window(x));
    lemma_touched_iff_targeted(views, d);
    assert(!touched.contains(d));
    let j = choose|j: int| 0 <= j < windows.len() && windows[j] == w;
    assert(wins[j] == d);
    assert(cands[keys.len() + j] == d);
    assert(cands.contains(d));
    match orphan_pass_spec(cfg, windows, touched, res) {
        Ok(orphans) => {
            assert(ops == vops + orphans);
            lemma_orphan_complete(cands, cfg, touched, res, orphans, d);
            let k = choose|k: int| 0 <= k < orphans.len() && orphans[k].destination == Some(d);
            lemma_orphan_op_source(cands, cfg, touched, res, orphans, k);
            let d2 = choose|d2: Destination|
                #![trigger orphan_op(d2, cfg, res)]
                orphans[k] == orphan_op(d2, cfg, res) && cands.contains(d2) && !touched.contains(
                    d2,
                ) && res.contains_key(d2);
            assert(d2 == d);
            assert(ops[vops.len() + k] == orphans[k]);
        },
        Err(e) => {
            assert(false);
        },
    }
}

/// A failed frame reports an untouched destination of the universe that the
/// table cannot resolve, by name; and planning fails only that way.
pub proof fn lemma_unresolved_reported(
    views: Seq<FrameView>,
    cfg: ClearColorConfig,
    windows: Seq<u64>,
    res: Map<Destination, u64>,
    d: Destination,
)
    requires
        clear_pass_spec(views, cfg, windows, res) == Err::<Seq<ClearOp>, ClearPassError>(
            ClearPassError::DestinationUnresolved(d),
        ),
    ensures
        frame_destination_universe(cfg, windows).contains(d),
        !touched_of(views).contains(d),
        !res.contains_key(d),
{
    let touched = touched_of(views);
    let cands = orphan_candidates(cfg, windows);
    match orphan_pass_spec(cfg, windows, touched, res) {
        Ok(orphans) => {
            assert(false);
        },
        Err(e) => {
            assert(e == ClearPassError::DestinationUnresolved(d));
            lemma_orphan_err(cands, cfg, touched, res, Seq::empty(), d);
        },
    }
}

/// When every untouched destination of the universe is resolvable, the
/// frame's plan succeeds: success is owed exactly then.
pub proof fn lemma_resolvable_frame_succeeds(
    views: Seq<FrameView>,
    cfg: ClearColorConfig,
    windows: Seq<u64>,
    res: Map<Destination, u64>,
)
    requires
        forall|d: Destination| #[trigger]
            frame_destination_universe(cfg, windows).contains(d) ==> touched_of(views).contains(d)
                || res.contains_key(d),
    ensures
        clear_pass_spec(views, cfg, windows, res) is Ok,
{
    let touched = touched_of(views);
    let cands = orphan_candidates(cfg, windows);
    assert forall|d: Destination| #[trigger]
        cands.contains(d) implies touched.contains(d) || res.contains_key(d) by {
        assert(frame_destination_universe(cfg, windows).contains(d));
    }
    lemma_orphan_ok(cands, cfg, touched, res, Seq::empty());
}

} // verus!
