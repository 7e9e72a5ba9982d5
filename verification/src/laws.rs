//! The engine's global guarantees, stated and proved over the specification
//! functions that the engine's contracts are written in.

use vstd::prelude::*;
use crate::engine::{
    activated_from_src, classified, grown, ids_unique, lemma_retained_membership, scan_enables,
    scan_notes, tick_completes, tick_enables, tick_notes, tick_pending_after, tick_step, Engine,
};
use crate::geom::SIZE_CAP;
use crate::model::{GameObject, ObjectId};

verus! {

/// Radius growth is monotonic: a simulation step never shrinks an enabled
/// activator's radius, whatever the elapsed time and growth rate.
pub proof fn lemma_radius_monotonic(sz: u64, elapsed: u64, grow: u64)
    requires
        sz <= SIZE_CAP,
    ensures
        grown(sz, elapsed, grow) >= sz,
{
    assert(elapsed * grow >= 0) by (nonlinear_arith);
}

/// While an activator is disabled its radius is zero.
pub proof fn lemma_disabled_radius_zero(e: Engine, i: int)
    requires
        e.wf(),
        0 <= i < e.objects@.len(),
        e.objects@[i].is_activator(),
        e.objects@[i].activator().state is Disabled,
    ensures
        e.objects@[i].activator().size.0 == 0,
        e.objects@[i].activator().pending.0@.len() == 0,
{
}

proof fn lemma_scan_notes_sub(
    objs: Seq<GameObject>,
    src: GameObject,
    r: int,
    p: Seq<ObjectId>,
    j: int,
    k: int,
)
    requires
        0 <= j <= p.len(),
        0 <= k < scan_notes(objs, src, r, p, j).len(),
    ensures
        scan_notes(objs, src, r, p, j)[k].source == src.id,
        p.contains(scan_notes(objs, src, r, p, j)[k].note),
    decreases j,
{
    if j > 0 {
        let pre = scan_notes(objs, src, r, p, j - 1);
        if k < pre.len() {
            lemma_scan_notes_sub(objs, src, r, p, j - 1, k);
        } else {
            assert(p[j - 1] == scan_notes(objs, src, r, p, j)[k].note);
        }
    }
}

proof fn lemma_scan_enables_sub(
    objs: Seq<GameObject>,
    src: GameObject,
    r: int,
    p: Seq<ObjectId>,
    j: int,
    k: int,
)
    requires
        0 <= j <= p.len(),
        0 <= k < scan_enables(objs, src, r, p, j).len(),
    ensures
        scan_enables(objs, src, r, p, j)[k].source == Some(src.id),
        p.contains(scan_enables(objs, src, r, p, j)[k].target),
    decreases j,
{
    if j > 0 {
        let pre = scan_enables(objs, src, r, p, j - 1);
        if k < pre.len() {
            lemma_scan_enables_sub(objs, src, r, p, j - 1, k);
        } else {
            assert(p[j - 1] == scan_enables(objs, src, r, p, j)[k].target);
        }
    }
}

proof fn lemma_tick_notes_sub(objs: Seq<GameObject>, elapsed: u64, grow: u64, n: int, k: int)
    requires
        0 <= n <= objs.len(),
        0 <= k < tick_notes(objs, elapsed, grow, n).len(),
    ensures
        exists|i: int|
            0 <= i < n && (#[trigger] objs[i]).id == tick_notes(objs, elapsed, grow, n)[k].source
                && objs[i].is_activator() && objs[i].activator().state is Enabled
                && objs[i].activator().pending.0@.contains(
                tick_notes(objs, elapsed, grow, n)[k].note,
            ),
    decreases n,
{
    if n > 0 {
        let pre = tick_notes(objs, elapsed, grow, n - 1);
        if k < pre.len() {
            lemma_tick_notes_sub(objs, elapsed, grow, n - 1, k);
        } else {
            let o = objs[n - 1];
            let p = o.activator().pending.0@;
            lemma_scan_notes_sub(
                objs,
                o,
                grown(o.activator().size.0, elapsed, grow),
                p,
                p.len() as int,
                k - pre.len(),
            );
            assert(objs[n - 1].id == tick_notes(objs, elapsed, grow, n)[k].source);
        }
    }
}

proof fn lemma_tick_enables_sub(objs: Seq<GameObject>, elapsed: u64, grow: u64, n: int, k: int)
    requires
        0 <= n <= objs.len(),
        0 <= k < tick_enables(objs, elapsed, grow, n).len(),
    ensures
        exists|i: int|
            0 <= i < n && Some((#[trigger] objs[i]).id) == tick_enables(
                objs,
                elapsed,
                grow,
                n,
            )[k].source && objs[i].is_activator() && objs[i].activator().state is Enabled
                && objs[i].activator().pending.0@.contains(
                tick_enables(objs, elapsed, grow, n)[k].target,
            ),
    decreases n,
{
    if n > 0 {
        let pre = tick_enables(objs, elapsed, grow, n - 1);
        if k < pre.len() {
            lemma_tick_enables_sub(objs, elapsed, grow, n - 1, k);
        } else {
            let o = objs[n - 1];
            let p = o.activator().pending.0@;
            lemma_scan_enables_sub(
                objs,
                o,
                grown(o.activator().size.0, elapsed, grow),
                p,
                p.len() as int,
                k - pre.len(),
            );
            assert(Some(objs[n - 1].id) == tick_enables(objs, elapsed, grow, n)[k].source);
        }
    }
}

/// Every activation event of a step comes out of its source's pending set:
/// the source is an enabled activator, and the activated object is among its
/// pending entries.
pub proof fn lemma_fired_from_pending(
    objs: Seq<GameObject>,
    elapsed: u64,
    grow: u64,
    src: ObjectId,
    target: ObjectId,
)
    requires
        activated_from_src(
            classified(
                tick_notes(objs, elapsed, grow, objs.len() as int),
                tick_enables(objs, elapsed, grow, objs.len() as int),
            ),
            src,
            target,
        ),
    ensures
        exists|i: int|
            0 <= i < objs.len() && (#[trigger] objs[i]).id == src && objs[i].is_activator()
                && objs[i].activator().state is Enabled
                && objs[i].activator().pending.0@.contains(target),
{
    let n = objs.len() as int;
    let nts = tick_notes(objs, elapsed, grow, n);
    let ens = tick_enables(objs, elapsed, grow, n);
    let acts = classified(nts, ens);
    let k = choose|k: int|
        0 <= k < acts.len() && (#[trigger] acts[k]).source == Some(src) && acts[k].object
            == target;
    if k < nts.len() {
        assert(acts[k].source == Some(nts[k].source) && acts[k].object == nts[k].note);
        lemma_tick_notes_sub(objs, elapsed, grow, n, k);
    } else {
        let k2 = k - nts.len();
        assert(acts[k].source == ens[k2].source && acts[k].object == ens[k2].target);
        lemma_tick_enables_sub(objs, elapsed, grow, n, k2);
    }
}

/// What a step fires at is gone from the source's pending set afterwards:
/// the removal stage takes each activated object out before the next step.
pub proof fn lemma_fired_removed(
    objs: Seq<GameObject>,
    elapsed: u64,
    grow: u64,
    i: int,
    o2: GameObject,
    target: ObjectId,
)
    requires
        0 <= i < objs.len(),
        objs[i].is_activator(),
        objs[i].activator().state is Enabled,
        activated_from_src(
            classified(
                tick_notes(objs, elapsed, grow, objs.len() as int),
                tick_enables(objs, elapsed, grow, objs.len() as int),
            ),
            objs[i].id,
            target,
        ),
        tick_step(objs, elapsed, grow, i, o2),
    ensures
        o2.is_activator(),
        !o2.activator().pending.0@.contains(target),
{
    let p = objs[i].activator().pending.0@;
    let acts = classified(
        tick_notes(objs, elapsed, grow, objs.len() as int),
        tick_enables(objs, elapsed, grow, objs.len() as int),
    );
    let p2 = tick_pending_after(objs, elapsed, grow, i);
    lemma_retained_membership(acts, objs[i].id, p, p.len() as int);
    if p2.len() == 0 {
        if o2.activator().pending.0@.contains(target) {
            assert(o2.activator().pending.0@.len() > 0);
        }
    } else {
        assert(o2.activator().pending.0@ == p2);
        if p2.contains(target) {
            assert(!activated_from_src(acts, objs[i].id, target));
        }
    }
}

/// A seeded activator's pending set only ever shrinks across a step: once
/// removed, an entry is never re-added within the round.
pub proof fn lemma_pending_shrinks(
    objs: Seq<GameObject>,
    elapsed: u64,
    grow: u64,
    i: int,
    o2: GameObject,
)
    requires
        0 <= i < objs.len(),
        objs[i].is_activator(),
        objs[i].activator().seeded,
        tick_step(objs, elapsed, grow, i, o2),
    ensures
        o2.is_activator(),
        forall|x: ObjectId|
            #[trigger] o2.activator().pending.0@.contains(x)
                ==> objs[i].activator().pending.0@.contains(x),
        o2.activator().seeded,
{
    let a = objs[i].activator();
    let p = a.pending.0@;
    let acts = classified(
        tick_notes(objs, elapsed, grow, objs.len() as int),
        tick_enables(objs, elapsed, grow, objs.len() as int),
    );
    lemma_retained_membership(acts, objs[i].id, p, p.len() as int);
    assert forall|x: ObjectId|
        #[trigger] o2.activator().pending.0@.contains(x) implies p.contains(x) by {
        if a.state is Enabled {
            let p2 = tick_pending_after(objs, elapsed, grow, i);
            if p2.len() == 0 {
                assert(o2.activator().pending.0@.len() == 0);
            } else {
                assert(o2.activator().pending.0@ == p2);
                let q = choose|q: int|
                    0 <= q < p.len() && p[q] == x && !activated_from_src(acts, objs[i].id, x);
                assert(p.contains(p[q]));
            }
        } else {
            assert(o2.activator().pending.0@ == p);
        }
    }
}

/// One simulation step never changes an entry's identity, position or kind.
pub proof fn lemma_tick_shape_stable(
    objs: Seq<GameObject>,
    elapsed: u64,
    grow: u64,
    objs2: Seq<GameObject>,
)
    requires
        objs2.len() == objs.len(),
        forall|q: int|
            0 <= q < objs.len() ==> tick_step(objs, elapsed, grow, q, #[trigger] objs2[q]),
    ensures
        forall|q: int|
            0 <= q < objs.len() ==> (#[trigger] objs2[q]).id == objs[q].id && objs2[q].pos
                == objs[q].pos && objs2[q].is_activator() == objs[q].is_activator(),
        ids_unique(objs) ==> ids_unique(objs2),
{
    assert forall|q: int|
        0 <= q < objs.len() implies (#[trigger] objs2[q]).id == objs[q].id && objs2[q].pos
            == objs[q].pos && objs2[q].is_activator() == objs[q].is_activator() by {
        assert(tick_step(objs, elapsed, grow, q, objs2[q]));
    }
    if ids_unique(objs) {
        assert forall|a: int, b: int|
            0 <= a < b < objs2.len() implies (#[trigger] objs2[a]).id != (#[trigger] objs2[b]).id by {
            assert(objs[a].id != objs[b].id);
        }
    }
}

/// Whether a step's activation events include one from `src` at `target` —
/// a note played or an enable requested, as the removal stage sees them.
pub open spec fn fires_at(objs: Seq<GameObject>, elapsed: u64, grow: u64, src: ObjectId, target: ObjectId) -> bool {
    activated_from_src(
        classified(
            tick_notes(objs, elapsed, grow, objs.len() as int),
            tick_enables(objs, elapsed, grow, objs.len() as int),
        ),
        src,
        target,
    )
}

proof fn lemma_excluded_stays(
    states: Seq<Seq<GameObject>>,
    elapseds: Seq<u64>,
    grow: u64,
    e: int,
    target: ObjectId,
    k1: int,
    k2: int,
)
    requires
        states.len() == elapseds.len() + 1,
        forall|k: int| 0 <= k < states.len() ==> (#[trigger] states[k]).len() == states[0].len(),
        forall|k: int, q: int|
            0 <= k < elapseds.len() && 0 <= q < states[0].len() ==> tick_step(
                states[k],
                elapseds[k],
                grow,
                q,
                #[trigger] states[k + 1][q],
            ),
        0 <= e < states[0].len(),
        0 <= k1 <= k2 < states.len(),
        states[k1][e].is_activator(),
        states[k1][e].activator().seeded,
        !states[k1][e].activator().pending.0@.contains(target),
    ensures
        states[k2][e].is_activator(),
        states[k2][e].activator().seeded,
        !states[k2][e].activator().pending.0@.contains(target),
    decreases k2 - k1,
{
    if k2 > k1 {
        lemma_excluded_stays(states, elapseds, grow, e, target, k1, k2 - 1);
        assert(tick_step(states[k2 - 1], elapseds[k2 - 1], grow, e, states[(k2 - 1) + 1][e]));
        lemma_pending_shrinks(states[k2 - 1], elapseds[k2 - 1], grow, e, states[k2][e]);
    }
}

/// No double fire, over a whole round. Take the registry states of one
/// round, step by step (`states[k]` before step `k`, related to
/// `states[k + 1]` by the step contract). If the activator at entry `e`
/// fires at `target` on step `i`, it does not fire at `target` on any later
/// step `j` of the round: the removal stage takes `target` out of its
/// pending set, a seeded activator's pending set never grows again within
/// the round, and every fired-at object comes out of the pending set.
pub proof fn lemma_no_double_fire_in_round(
    states: Seq<Seq<GameObject>>,
    elapseds: Seq<u64>,
    grow: u64,
    e: int,
    target: ObjectId,
    i: int,
    j: int,
)
    requires
        states.len() == elapseds.len() + 1,
        forall|k: int| 0 <= k < states.len() ==> (#[trigger] states[k]).len() == states[0].len(),
        forall|k: int, q: int|
            0 <= k < elapseds.len() && 0 <= q < states[0].len() ==> tick_step(
                states[k],
                elapseds[k],
                grow,
                q,
                #[trigger] states[k + 1][q],
            ),
        ids_unique(states[0]),
        0 <= e < states[0].len(),
        0 <= i < j < elapseds.len(),
        states[i][e].is_activator(),
        states[i][e].activator().state is Enabled,
        states[i][e].activator().seeded,
        fires_at(states[i], elapseds[i], grow, states[i][e].id, target),
    ensures
        !fires_at(states[j], elapseds[j], grow, states[j][e].id, target),
{
    // identities and uniqueness carry through every step
    assert forall|k: int| 0 <= k < states.len() implies ids_unique(#[trigger] states[k])
        && (forall|q: int|
        0 <= q < states[0].len() ==> (#[trigger] states[k][q]).id == states[0][q].id) by {
        lemma_ids_stable_upto(states, elapseds, grow, k);
    }
    // after the firing step, `target` is out of entry e's pending set
    assert(tick_step(states[i], elapseds[i], grow, e, states[i + 1][e]));
    lemma_fired_removed(states[i], elapseds[i], grow, e, states[i + 1][e], target);
    lemma_pending_shrinks(states[i], elapseds[i], grow, e, states[i + 1][e]);
    // and it stays out for the rest of the round
    lemma_excluded_stays(states, elapseds, grow, e, target, i + 1, j);
    // a further fire at step j would have to come out of the pending set
    if fires_at(states[j], elapseds[j], grow, states[j][e].id, target) {
        lemma_fired_from_pending(states[j], elapseds[j], grow, states[j][e].id, target);
        let w = choose|w: int|
            0 <= w < states[j].len() && (#[trigger] states[j][w]).id == states[j][e].id
                && states[j][w].is_activator() && states[j][w].activator().state is Enabled
                && states[j][w].activator().pending.0@.contains(target);
        if w < e {
            assert(states[j][w].id != states[j][e].id);
        } else if e < w {
            assert(states[j][e].id != states[j][w].id);
        }
        assert(false);
    }
}

proof fn lemma_ids_stable_upto(
    states: Seq<Seq<GameObject>>,
    elapseds: Seq<u64>,
    grow: u64,
    k: int,
)
    requires
        states.len() == elapseds.len() + 1,
        forall|k2: int| 0 <= k2 < states.len() ==> (#[trigger] states[k2]).len() == states[0].len(),
        forall|k2: int, q: int|
            0 <= k2 < elapseds.len() && 0 <= q < states[0].len() ==> tick_step(
                states[k2],
                elapseds[k2],
                grow,
                q,
                #[trigger] states[k2 + 1][q],
            ),
        ids_unique(states[0]),
        0 <= k < states.len(),
    ensures
        ids_unique(states[k]),
        forall|q: int| 0 <= q < states[0].len() ==> (#[trigger] states[k][q]).id == states[0][q].id,
    decreases k,
{
    if k > 0 {
        lemma_ids_stable_upto(states, elapseds, grow, k - 1);
        assert forall|q: int|
            0 <= q < states[0].len() implies tick_step(
            states[k - 1],
            elapseds[k - 1],
            grow,
            q,
            #[trigger] states[k][q],
        ) by {
            assert(tick_step(states[k - 1], elapseds[k - 1], grow, q, states[(k - 1) + 1][q]));
        }
        lemma_tick_shape_stable(states[k - 1], elapseds[k - 1], grow, states[k]);
    }
}

/// Round completion is exact: a step reports completion precisely when
/// every activator ends the step disabled — in particular, completion is
/// never signalled while an enabled activator still holds pending objects.
pub proof fn lemma_round_complete_iff_drained(
    objs: Seq<GameObject>,
    elapsed: u64,
    grow: u64,
    objs2: Seq<GameObject>,
)
    requires
        objs2.len() == objs.len(),
        ids_unique(objs),
        forall|i: int|
            0 <= i < objs.len() ==> tick_step(objs, elapsed, grow, i, #[trigger] objs2[i]),
    ensures
        tick_completes(objs, elapsed, grow) <==> (forall|i: int|
            0 <= i < objs2.len() && (#[trigger] objs2[i]).is_activator()
                ==> objs2[i].activator().state is Disabled),
{
    let n = objs.len() as int;
    let ens = tick_enables(objs, elapsed, grow, n);
    if tick_completes(objs, elapsed, grow) {
        assert forall|i: int|
            0 <= i < objs2.len() && (#[trigger] objs2[i]).is_activator()
                implies objs2[i].activator().state is Disabled by {
            assert(tick_step(objs, elapsed, grow, i, objs2[i]));
            if objs[i].is_activator() {
                let a = objs[i].activator();
                if a.state is Enabled {
                    assert(tick_pending_after(objs, elapsed, grow, i).len() == 0);
                }
            }
        }
    }
    if forall|i: int|
        0 <= i < objs2.len() && (#[trigger] objs2[i]).is_activator()
            ==> objs2[i].activator().state is Disabled {
        assert forall|i: int|
            0 <= i < n && (#[trigger] objs[i]).is_activator() implies ({
            let a = objs[i].activator();
            &&& (a.state is Enabled ==> tick_pending_after(objs, elapsed, grow, i).len() == 0)
            &&& ((a.state is Disabled && !a.seeded && crate::engine::targeted(
                ens,
                ens.len() as int,
                objs[i].id,
            )) ==> objs.len() < 2)
        }) by {
            assert(tick_step(objs, elapsed, grow, i, objs2[i]));
            let a = objs[i].activator();
            if a.state is Enabled && tick_pending_after(objs, elapsed, grow, i).len() != 0 {
                assert(objs2[i].is_activator());
                assert(objs2[i].activator().state is Enabled);
                assert(false);
            }
            if a.state is Disabled && !a.seeded && crate::engine::targeted(
                ens,
                ens.len() as int,
                objs[i].id,
            ) && objs.len() >= 2 {
                assert(objs2[i].is_activator());
                assert(objs2[i].activator().state is Enabled);
                assert(false);
            }
        }
    }
}

} // verus!
