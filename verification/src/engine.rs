//! The activation propagation engine.
//!
//! The engine owns the object registry (notes and activators) and advances
//! it in simulation steps. Each step runs a fixed pipeline: (1) growth and
//! crossing detection for every enabled activator, (2) classification of the
//! resulting events into one uniform activation signal, (3) removal of
//! activated objects from their source's pending set, (4) application of
//! enable requests (enabling and seeding newly reached activators), and
//! (5) completion detection, which disables activators whose pending set has
//! emptied and ends the round once every pending set is empty.

use vstd::prelude::*;
use vstd::seq_lib::*;
use crate::geom::{capped, dist_sq, distance_squared, in_world, Position, SIZE_CAP};
use crate::model::{
    Activator, ActivatorColor, ActivatorEnabledEvent, ActivatorSize, ActivatorState,
    ActivatorType, GameObject, InactivatedObjects, LevelConfig, NotePlayedEvent, ObjectActivatedEvent,
    ObjectId, ObjectKind, TickReport,
};
use crate::state::GameState;

verus! {

/// No two registry entries share an identity.
pub open spec fn ids_unique(objs: Seq<GameObject>) -> bool {
    forall|i: int, j: int|
        0 <= i < j < objs.len() ==> (#[trigger] objs[i]).id != (#[trigger] objs[j]).id
}

/// Some registry entry carries this identity.
pub open spec fn has_id(objs: Seq<GameObject>, id: ObjectId) -> bool {
    exists|i: int| 0 <= i < objs.len() && (#[trigger] objs[i]).id == id
}

/// The index of the registry entry carrying this identity.
pub open spec fn idx_of(objs: Seq<GameObject>, id: ObjectId) -> int {
    choose|i: int| 0 <= i < objs.len() && (#[trigger] objs[i]).id == id
}

/// The registry entry carrying this identity.
pub open spec fn obj_at(objs: Seq<GameObject>, id: ObjectId) -> GameObject {
    objs[idx_of(objs, id)]
}

pub proof fn lemma_idx_of(objs: Seq<GameObject>, id: ObjectId)
    requires
        has_id(objs, id),
    ensures
        0 <= idx_of(objs, id) < objs.len(),
        objs[idx_of(objs, id)].id == id,
        obj_at(objs, id).id == id,
{
}

pub proof fn lemma_idx_of_unique(objs: Seq<GameObject>, i: int)
    requires
        ids_unique(objs),
        0 <= i < objs.len(),
    ensures
        has_id(objs, objs[i].id),
        idx_of(objs, objs[i].id) == i,
{
    assert(has_id(objs, objs[i].id));
    let j = idx_of(objs, objs[i].id);
    lemma_idx_of(objs, objs[i].id);
    if i < j {
        assert(objs[i].id != objs[j].id);
    } else if j < i {
        assert(objs[j].id != objs[i].id);
    }
}

/// Ascending sort key of the pending set built for an activator sitting at
/// `c`: first the squared distance to `c`, with ties broken by registry
/// order, so that iteration is deterministic for equal distances.
pub open spec fn key_lt(objs: Seq<GameObject>, c: Position, o1: ObjectId, o2: ObjectId) -> bool {
    let d1 = dist_sq(c, obj_at(objs, o1).pos);
    let d2 = dist_sq(c, obj_at(objs, o2).pos);
    d1 < d2 || (d1 == d2 && idx_of(objs, o1) < idx_of(objs, o2))
}

/// The pending entries are strictly ascending by their sort key.
pub open spec fn pending_sorted(objs: Seq<GameObject>, c: Position, p: Seq<ObjectId>) -> bool {
    forall|i: int, j: int| 0 <= i < j < p.len() ==> #[trigger] key_lt(objs, c, p[i], p[j])
}

/// Every pending entry resolves to a registry object other than the owner.
pub open spec fn pending_resolves(objs: Seq<GameObject>, o: GameObject) -> bool {
    forall|k: int|
        0 <= k < o.activator().pending.0@.len()
            ==> has_id(objs, #[trigger] o.activator().pending.0@[k])
                && o.activator().pending.0@[k] != o.id
}

/// Internal consistency of one activator entry.
pub open spec fn activator_ok(objs: Seq<GameObject>, o: GameObject) -> bool {
    let a = o.activator();
    &&& a.size.0 <= SIZE_CAP
    &&& (a.state is Disabled ==> a.size.0 == 0 && a.pending.0@.len() == 0)
    &&& (a.state is Enabled ==> a.seeded)
    &&& pending_resolves(objs, o)
    &&& pending_sorted(objs, o.pos, a.pending.0@)
}

/// The tick-driven simulation core: object registry, phase and per-round
/// configuration.
pub struct Engine {
    pub config: LevelConfig,
    pub phase: GameState,
    pub objects: Vec<GameObject>,
    pub next_id: ObjectId,
}

impl Engine {
    /// The registry invariant: identities are unique and below the
    /// allocation counter, positions lie on the playfield, every activator
    /// entry is internally consistent, and outside the execution phase every
    /// activator is disabled (radius zero, pending set empty).
    pub open spec fn wf(self) -> bool {
        let objs = self.objects@;
        &&& ids_unique(objs)
        &&& forall|i: int| 0 <= i < objs.len() ==> (#[trigger] objs[i]).id < self.next_id
        &&& forall|i: int| 0 <= i < objs.len() ==> in_world((#[trigger] objs[i]).pos)
        &&& forall|i: int|
            0 <= i < objs.len() && (#[trigger] objs[i]).is_activator()
                ==> activator_ok(objs, objs[i])
        &&& (self.phase !is Execute ==> forall|i: int|
            0 <= i < objs.len() && (#[trigger] objs[i]).is_activator()
                ==> objs[i].activator().state is Disabled)
    }

    /// A fresh engine in build mode with an empty registry.
    pub fn new(config: LevelConfig) -> (r: Engine)
        ensures
            r.wf(),
            r.config == config,
            r.phase is Build,
            r.objects@.len() == 0,
    {
        Engine { config, phase: GameState::Build, objects: Vec::new(), next_id: 0 }
    }

    /// Place a note. The editor runs only outside the execution phase.
    pub fn add_note(&mut self, pos: Position) -> (id: ObjectId)
        requires
            old(self).wf(),
            old(self).phase !is Execute,
            in_world(pos),
            old(self).next_id < u64::MAX,
        ensures
            final(self).wf(),
            id == old(self).next_id,
            final(self).objects@ == old(self).objects@.push(
                GameObject { id, pos, kind: ObjectKind::Note },
            ),
            final(self).phase == old(self).phase,
            final(self).config == old(self).config,
            final(self).next_id == old(self).next_id + 1,
    {
        let id = self.next_id;
        self.next_id = self.next_id + 1;
        self.objects.push(GameObject { id, pos, kind: ObjectKind::Note });
        proof {
            let objs = self.objects@;
            assert forall|i: int|
                0 <= i < objs.len() && (#[trigger] objs[i]).is_activator()
                    implies activator_ok(objs, objs[i]) by {
                assert(activator_ok(old(self).objects@, objs[i]));
                assert(objs[i].activator().pending.0@.len() == 0);
            }
        }
        id
    }

    /// Place an activator, initially disabled. The editor runs only outside
    /// the execution phase.
    pub fn add_activator(&mut self, pos: Position, typ: ActivatorType, color: ActivatorColor) -> (id: ObjectId)
        requires
            old(self).wf(),
            old(self).phase !is Execute,
            in_world(pos),
            old(self).next_id < u64::MAX,
        ensures
            final(self).wf(),
            id == old(self).next_id,
            final(self).objects@.len() == old(self).objects@.len() + 1,
            forall|k: int|
                0 <= k < old(self).objects@.len()
                    ==> final(self).objects@[k] == old(self).objects@[k],
            ({
                let o = final(self).objects@.last();
                &&& o.id == id
                &&& o.pos == pos
                &&& o.is_activator()
                &&& o.activator().typ == typ
                &&& o.activator().color == color
                &&& o.activator().state is Disabled
                &&& o.activator().size.0 == 0
                &&& !o.activator().seeded
                &&& o.activator().pending.0@.len() == 0
            }),
            final(self).phase == old(self).phase,
            final(self).config == old(self).config,
            final(self).next_id == old(self).next_id + 1,
    {
        let id = self.next_id;
        self.next_id = self.next_id + 1;
        let fresh = GameObject {
            id,
            pos,
            kind: ObjectKind::Activator(Activator {
                typ,
                state: ActivatorState::Disabled,
                size: ActivatorSize(0),
                seeded: false,
                pending: InactivatedObjects(Vec::new()),
                color,
            }),
        };
        self.objects.push(fresh);
        proof {
            let objs = self.objects@;
            assert forall|i: int|
                0 <= i < objs.len() && (#[trigger] objs[i]).is_activator()
                    implies activator_ok(objs, objs[i]) by {
                if i < objs.len() - 1 {
                    assert(activator_ok(old(self).objects@, objs[i]));
                    assert(objs[i].activator().pending.0@.len() == 0);
                } else {
                    assert(objs[i].activator().pending.0@.len() == 0);
                }
            }
        }
        id
    }

    /// Disable one activator: radius back to zero, pending set discarded.
    /// An identity that no longer resolves, or that names a note, is skipped
    /// silently.
    pub fn disable_activator(&mut self, id: ObjectId)
        requires
            old(self).wf(),
        ensures
            final(self).wf(),
            final(self).phase == old(self).phase,
            final(self).config == old(self).config,
            final(self).next_id == old(self).next_id,
            final(self).objects@.len() == old(self).objects@.len(),
            forall|i: int|
                0 <= i < old(self).objects@.len()
                    ==> disable_step(old(self).objects@, id, i, #[trigger] final(self).objects@[i]),
    {
        let n = self.objects.len();
        let mut i: usize = 0;
        while i < n
            invariant
                n == old(self).objects@.len(),
                self.objects@.len() == n,
                i <= n,
                self.phase == old(self).phase,
                self.config == old(self).config,
                self.next_id == old(self).next_id,
                forall|k: int|
                    0 <= k < i ==> disable_step(
                        old(self).objects@,
                        id,
                        k,
                        #[trigger] self.objects@[k],
                    ),
                forall|k: int| i <= k < n ==> self.objects@[k] == old(self).objects@[k],
            decreases n - i,
        {
            if self.objects[i].id == id {
                let oid = self.objects[i].id;
                let opos = self.objects[i].pos;
                let mut replacement: Option<GameObject> = None;
                match &self.objects[i].kind {
                    ObjectKind::Activator(a) => {
                        replacement = Some(
                            GameObject {
                                id: oid,
                                pos: opos,
                                kind: ObjectKind::Activator(
                                    Activator {
                                        typ: a.typ,
                                        state: ActivatorState::Disabled,
                                        size: ActivatorSize(0),
                                        seeded: a.seeded,
                                        pending: InactivatedObjects(Vec::new()),
                                        color: a.color,
                                    },
                                ),
                            },
                        );
                    },
                    ObjectKind::Note => {},
                }
                match replacement {
                    Some(v) => {
                        self.objects[i] = v;
                    },
                    None => {},
                }
            }
            i = i + 1;
        }
        proof {
            lemma_disable_preserves_wf(*old(self), *self, id);
        }
    }
}

/// `o` is `orig` with its activator state cleared: disabled, radius zero,
/// pending set empty; type and colour are kept and the seeded mark becomes
/// `seeded`.
pub open spec fn cleared_like(o: GameObject, orig: GameObject, seeded: bool) -> bool {
    &&& o.id == orig.id
    &&& o.pos == orig.pos
    &&& orig.is_activator()
    &&& o.is_activator()
    &&& o.activator().typ == orig.activator().typ
    &&& o.activator().color == orig.activator().color
    &&& o.activator().seeded == seeded
    &&& o.activator().state is Disabled
    &&& o.activator().size.0 == 0
    &&& o.activator().pending.0@.len() == 0
}

/// `o` is `orig` disabled, keeping its seeded mark.
pub open spec fn disabled_from(o: GameObject, orig: GameObject) -> bool {
    cleared_like(o, orig, orig.activator().seeded)
}

/// What entry `k` of the registry becomes when identity `id` is disabled.
pub open spec fn disable_step(objs: Seq<GameObject>, id: ObjectId, k: int, o: GameObject) -> bool {
    if objs[k].id == id && objs[k].is_activator() {
        disabled_from(o, objs[k])
    } else {
        o == objs[k]
    }
}

proof fn lemma_disable_preserves_wf(pre: Engine, post: Engine, id: ObjectId)
    requires
        pre.wf(),
        post.phase == pre.phase,
        post.next_id == pre.next_id,
        post.objects@.len() == pre.objects@.len(),
        forall|k: int|
            0 <= k < pre.objects@.len()
                ==> disable_step(pre.objects@, id, k, #[trigger] post.objects@[k]),
    ensures
        post.wf(),
{
    let objs = pre.objects@;
    let objs2 = post.objects@;
    assert(same_shape(objs, objs2));
    assert forall|i: int, j: int|
        0 <= i < j < objs2.len() implies (#[trigger] objs2[i]).id != (#[trigger] objs2[j]).id by {
        assert(objs[i].id != objs[j].id);
    }
    assert forall|i: int|
        0 <= i < objs2.len() && (#[trigger] objs2[i]).is_activator()
            implies activator_ok(objs2, objs2[i]) by {
        assert(objs[i].is_activator());
        assert(activator_ok(objs, objs[i]));
        if !(objs[i].id == id) {
            assert(objs2[i] == objs[i]);
            lemma_same_shape_preserves_pending(objs, objs2, objs2[i]);
        }
    }
}

/// Identities and positions agree entry by entry.
pub open spec fn same_shape(objs: Seq<GameObject>, objs2: Seq<GameObject>) -> bool {
    &&& objs2.len() == objs.len()
    &&& forall|k: int|
        0 <= k < objs.len()
            ==> (#[trigger] objs2[k]).id == objs[k].id && objs2[k].pos == objs[k].pos
}

/// `has_id`, `idx_of` and the pending-set sort keys only read identities and
/// positions, so they carry over to any registry with the same shape.
pub proof fn lemma_same_shape_resolution(objs: Seq<GameObject>, objs2: Seq<GameObject>, id: ObjectId)
    requires
        same_shape(objs, objs2),
        ids_unique(objs),
        ids_unique(objs2),
    ensures
        has_id(objs2, id) == has_id(objs, id),
        has_id(objs, id) ==> idx_of(objs2, id) == idx_of(objs, id),
        has_id(objs, id) ==> obj_at(objs2, id).pos == obj_at(objs, id).pos,
        has_id(objs, id) ==> obj_at(objs2, id).id == obj_at(objs, id).id,
{
    if has_id(objs, id) {
        let i = idx_of(objs, id);
        lemma_idx_of(objs, id);
        assert(objs2[i].id == id);
        assert(has_id(objs2, id));
    }
    if has_id(objs2, id) {
        let i = idx_of(objs2, id);
        lemma_idx_of(objs2, id);
        assert(objs[i].id == id);
        assert(has_id(objs, id));
    }
    if has_id(objs, id) {
        let i = idx_of(objs, id);
        lemma_idx_of(objs, id);
        let i2 = idx_of(objs2, id);
        lemma_idx_of(objs2, id);
        assert(obj_at(objs2, id).pos == objs2[i2].pos);
        if i < i2 {
            assert(objs2[i].id != objs2[i2].id);
        } else if i2 < i {
            assert(objs2[i2].id != objs2[i].id);
        }
    }
}

/// The radius an activator of size `sz` has after growing for `elapsed`
/// time units at `grow` units per time unit.
pub open spec fn grown(sz: u64, elapsed: u64, grow: u64) -> int {
    capped(sz + elapsed * grow)
}

/// Whether the circle of radius `r` around `c` has crossed the object named
/// `id`: the object resolves and its distance to `c` is strictly below `r`
/// (an object exactly on the boundary is not yet crossed).
pub open spec fn crosses(objs: Seq<GameObject>, c: Position, r: int, id: ObjectId) -> bool {
    has_id(objs, id) && dist_sq(c, obj_at(objs, id).pos) < r * r
}

/// Reference definition of crossing detection: the note events a full scan
/// of the first `j` pending entries of `src` emits, with no early exit.
pub open spec fn scan_notes(
    objs: Seq<GameObject>,
    src: GameObject,
    r: int,
    p: Seq<ObjectId>,
    j: int,
) -> Seq<NotePlayedEvent>
    decreases j,
{
    if j <= 0 {
        Seq::empty()
    } else {
        let pre = scan_notes(objs, src, r, p, j - 1);
        let id = p[j - 1];
        if crosses(objs, src.pos, r, id) && obj_at(objs, id).is_note() {
            pre.push(NotePlayedEvent { source: src.id, note: id })
        } else {
            pre
        }
    }
}

/// Reference definition of crossing detection: the enable requests a full
/// scan of the first `j` pending entries of `src` emits, with no early exit.
pub open spec fn scan_enables(
    objs: Seq<GameObject>,
    src: GameObject,
    r: int,
    p: Seq<ObjectId>,
    j: int,
) -> Seq<ActivatorEnabledEvent>
    decreases j,
{
    if j <= 0 {
        Seq::empty()
    } else {
        let pre = scan_enables(objs, src, r, p, j - 1);
        let id = p[j - 1];
        if crosses(objs, src.pos, r, id) && obj_at(objs, id).is_activator() {
            pre.push(ActivatorEnabledEvent { source: Some(src.id), target: id })
        } else {
            pre
        }
    }
}

/// The note events entry `i` emits on a step of `elapsed` time units: a
/// disabled activator (or a note) emits nothing; an enabled one scans its
/// whole pending set against its grown radius.
pub open spec fn notes_of_entry(
    objs: Seq<GameObject>,
    i: int,
    elapsed: u64,
    grow: u64,
) -> Seq<NotePlayedEvent> {
    let o = objs[i];
    if o.is_activator() && o.activator().state is Enabled {
        scan_notes(
            objs,
            o,
            grown(o.activator().size.0, elapsed, grow),
            o.activator().pending.0@,
            o.activator().pending.0@.len() as int,
        )
    } else {
        Seq::empty()
    }
}

/// The enable requests entry `i` emits on a step of `elapsed` time units.
pub open spec fn enables_of_entry(
    objs: Seq<GameObject>,
    i: int,
    elapsed: u64,
    grow: u64,
) -> Seq<ActivatorEnabledEvent> {
    let o = objs[i];
    if o.is_activator() && o.activator().state is Enabled {
        scan_enables(
            objs,
            o,
            grown(o.activator().size.0, elapsed, grow),
            o.activator().pending.0@,
            o.activator().pending.0@.len() as int,
        )
    } else {
        Seq::empty()
    }
}

/// All note events the first `n` registry entries emit, in registry order.
pub open spec fn tick_notes(
    objs: Seq<GameObject>,
    elapsed: u64,
    grow: u64,
    n: int,
) -> Seq<NotePlayedEvent>
    decreases n,
{
    if n <= 0 {
        Seq::empty()
    } else {
        tick_notes(objs, elapsed, grow, n - 1) + notes_of_entry(objs, n - 1, elapsed, grow)
    }
}

/// All enable requests the first `n` registry entries emit, in registry
/// order.
pub open spec fn tick_enables(
    objs: Seq<GameObject>,
    elapsed: u64,
    grow: u64,
    n: int,
) -> Seq<ActivatorEnabledEvent>
    decreases n,
{
    if n <= 0 {
        Seq::empty()
    } else {
        tick_enables(objs, elapsed, grow, n - 1) + enables_of_entry(objs, n - 1, elapsed, grow)
    }
}

/// Classification folds note events and enable requests into one uniform
/// activation signal: notes first, then enable requests, each keeping its
/// order.
pub open spec fn classified(
    notes: Seq<NotePlayedEvent>,
    enables: Seq<ActivatorEnabledEvent>,
) -> Seq<ObjectActivatedEvent> {
    notes.map_values(|e: NotePlayedEvent| ObjectActivatedEvent { source: Some(e.source), object: e.note })
        + enables.map_values(|e: ActivatorEnabledEvent| ObjectActivatedEvent { source: e.source, object: e.target })
}

/// Some activation event in `evs` names `src` as source and `obj` as object.
pub open spec fn activated_from_src(
    evs: Seq<ObjectActivatedEvent>,
    src: ObjectId,
    obj: ObjectId,
) -> bool {
    exists|k: int|
        0 <= k < evs.len() && (#[trigger] evs[k]).source == Some(src) && evs[k].object == obj
}

/// The first `j` entries of pending set `p` of activator `src` that survive
/// the activation events `evs`: an entry is removed exactly when some event
/// activated it from `src`, and removal keeps the order of the rest.
pub open spec fn retained(
    evs: Seq<ObjectActivatedEvent>,
    src: ObjectId,
    p: Seq<ObjectId>,
    j: int,
) -> Seq<ObjectId>
    decreases j,
{
    if j <= 0 {
        Seq::empty()
    } else {
        let pre = retained(evs, src, p, j - 1);
        if activated_from_src(evs, src, p[j - 1]) {
            pre
        } else {
            pre.push(p[j - 1])
        }
    }
}

/// Some enable request among the first `upto` of `evs` targets `id`.
pub open spec fn targeted(evs: Seq<ActivatorEnabledEvent>, upto: int, id: ObjectId) -> bool {
    exists|k: int| 0 <= k < upto && (#[trigger] evs[k]).target == id
}

/// `p` is the freshly seeded pending set of `center`: it holds exactly the
/// identities of all other registry objects, strictly ascending by distance
/// to `center` (ties by registry order).
pub open spec fn seeded_ok(objs: Seq<GameObject>, center: GameObject, p: Seq<ObjectId>) -> bool {
    &&& pending_sorted(objs, center.pos, p)
    &&& forall|id: ObjectId|
        #[trigger] p.contains(id) <==> (has_id(objs, id) && id != center.id)
}

/// `o` is entry `i` of the registry freshly activated: enabled, radius zero,
/// marked seeded, its pending set seeded from all other objects.
pub open spec fn activated_obj(objs: Seq<GameObject>, i: int, o: GameObject) -> bool {
    &&& o.id == objs[i].id
    &&& o.pos == objs[i].pos
    &&& objs[i].is_activator()
    &&& o.is_activator()
    &&& o.activator().typ == objs[i].activator().typ
    &&& o.activator().color == objs[i].activator().color
    &&& o.activator().state is Enabled
    &&& o.activator().size.0 == 0
    &&& o.activator().seeded
    &&& seeded_ok(objs, objs[i], o.activator().pending.0@)
}

/// A sorted, resolving pending set stays sorted and resolving in any
/// registry with the same identities and positions.
pub proof fn lemma_same_shape_preserves_pending(
    objs: Seq<GameObject>,
    objs2: Seq<GameObject>,
    o: GameObject,
)
    requires
        same_shape(objs, objs2),
        ids_unique(objs),
        ids_unique(objs2),
        o.is_activator(),
        pending_resolves(objs, o),
        pending_sorted(objs, o.pos, o.activator().pending.0@),
    ensures
        pending_resolves(objs2, o),
        pending_sorted(objs2, o.pos, o.activator().pending.0@),
{
    let p = o.activator().pending.0@;
    assert forall|k: int|
        0 <= k < p.len() implies has_id(objs2, #[trigger] p[k]) && p[k] != o.id by {
        lemma_same_shape_resolution(objs, objs2, p[k]);
    }
    assert forall|i: int, j: int|
        0 <= i < j < p.len() implies #[trigger] key_lt(objs2, o.pos, p[i], p[j]) by {
        assert(key_lt(objs, o.pos, p[i], p[j]));
        lemma_same_shape_resolution(objs, objs2, p[i]);
        lemma_same_shape_resolution(objs, objs2, p[j]);
        lemma_idx_of(objs, p[i]);
        lemma_idx_of(objs, p[j]);
        lemma_idx_of(objs2, p[i]);
        lemma_idx_of(objs2, p[j]);
        assert(obj_at(objs2, p[i]).pos == obj_at(objs, p[i]).pos);
        assert(obj_at(objs2, p[j]).pos == obj_at(objs, p[j]).pos);
    }
}

/// A freshly seeded pending set for `center` is one in any registry with
/// the same identities and positions.
pub proof fn lemma_same_shape_seeded_ok(
    objs: Seq<GameObject>,
    objs2: Seq<GameObject>,
    center: GameObject,
    p: Seq<ObjectId>,
)
    requires
        same_shape(objs, objs2),
        ids_unique(objs),
        ids_unique(objs2),
        seeded_ok(objs, center, p),
    ensures
        seeded_ok(objs2, center, p),
{
    assert forall|i: int, j: int|
        0 <= i < j < p.len() implies #[trigger] key_lt(objs2, center.pos, p[i], p[j]) by {
        assert(key_lt(objs, center.pos, p[i], p[j]));
        assert(p.contains(p[i]));
        assert(p.contains(p[j]));
        lemma_same_shape_resolution(objs, objs2, p[i]);
        lemma_same_shape_resolution(objs, objs2, p[j]);
    }
    assert forall|id: ObjectId| #[trigger] p.contains(id) implies has_id(objs2, id) && id != center.id by {
        lemma_same_shape_resolution(objs, objs2, id);
    }
    assert forall|id: ObjectId| has_id(objs2, id) && id != center.id implies #[trigger] p.contains(id) by {
        lemma_same_shape_resolution(objs, objs2, id);
    }
}

/// The pending sort key is a strict total order on the identities of a
/// registry with unique identities.
pub proof fn lemma_key_total(objs: Seq<GameObject>, c: Position, o1: ObjectId, o2: ObjectId)
    requires
        ids_unique(objs),
        has_id(objs, o1),
        has_id(objs, o2),
    ensures
        o1 == o2 ==> !key_lt(objs, c, o1, o2),
        o1 != o2 ==> (key_lt(objs, c, o1, o2) <==> !key_lt(objs, c, o2, o1)),
{
    lemma_idx_of(objs, o1);
    lemma_idx_of(objs, o2);
    if o1 != o2 {
        assert(idx_of(objs, o1) != idx_of(objs, o2));
    }
}

pub proof fn lemma_key_trans(
    objs: Seq<GameObject>,
    c: Position,
    o1: ObjectId,
    o2: ObjectId,
    o3: ObjectId,
)
    requires
        key_lt(objs, c, o1, o2),
        key_lt(objs, c, o2, o3),
    ensures
        key_lt(objs, c, o1, o3),
{
}

impl Engine {
    /// Clear the game state after an execution: every activator is disabled,
    /// its radius reset to zero and its pending set discarded, and the game
    /// returns to build mode. Nothing of the round leaks into the next one.
    pub fn exit_execution(&mut self)
        requires
            old(self).wf(),
        ensures
            final(self).wf(),
            final(self).phase is Build,
            final(self).config == old(self).config,
            final(self).next_id == old(self).next_id,
            final(self).objects@.len() == old(self).objects@.len(),
            forall|i: int|
                0 <= i < old(self).objects@.len() && !(#[trigger] old(self).objects@[i]).is_activator()
                    ==> final(self).objects@[i] == old(self).objects@[i],
            forall|i: int|
                0 <= i < old(self).objects@.len() && (#[trigger] old(self).objects@[i]).is_activator()
                    ==> cleared_like(final(self).objects@[i], old(self).objects@[i], false),
    {
        let n = self.objects.len();
        let mut i: usize = 0;
        while i < n
            invariant
                n == old(self).objects@.len(),
                self.objects@.len() == n,
                i <= n,
                self.config == old(self).config,
                self.next_id == old(self).next_id,
                forall|k: int|
                    0 <= k < i && !(#[trigger] old(self).objects@[k]).is_activator()
                        ==> self.objects@[k] == old(self).objects@[k],
                forall|k: int|
                    0 <= k < i && (#[trigger] old(self).objects@[k]).is_activator()
                        ==> cleared_like(self.objects@[k], old(self).objects@[k], false),
                forall|k: int| i <= k < n ==> self.objects@[k] == old(self).objects@[k],
            decreases n - i,
        {
            let oid = self.objects[i].id;
            let opos = self.objects[i].pos;
            let mut replacement: Option<GameObject> = None;
            match &self.objects[i].kind {
                ObjectKind::Activator(a) => {
                    replacement = Some(
                        GameObject {
                            id: oid,
                            pos: opos,
                            kind: ObjectKind::Activator(
                                Activator {
                                    typ: a.typ,
                                    state: ActivatorState::Disabled,
                                    size: ActivatorSize(0),
                                    seeded: false,
                                    pending: InactivatedObjects(Vec::new()),
                                    color: a.color,
                                },
                            ),
                        },
                    );
                },
                ObjectKind::Note => {},
            }
            match replacement {
                Some(v) => {
                    self.objects[i] = v;
                },
                None => {},
            }
            i = i + 1;
        }
        self.phase = GameState::Build;
        proof {
            let objs = old(self).objects@;
            let objs2 = self.objects@;
            assert(same_shape(objs, objs2));
            assert forall|a: int, b: int|
                0 <= a < b < objs2.len() implies (#[trigger] objs2[a]).id != (#[trigger] objs2[b]).id by {
                assert(objs[a].id != objs[b].id);
            }
            assert forall|k: int|
                0 <= k < objs2.len() && (#[trigger] objs2[k]).is_activator()
                    implies activator_ok(objs2, objs2[k]) by {
                assert(objs[k].is_activator());
            }
        }
    }
}

impl Engine {
    /// React to an enable request: enable the target activator and seed its
    /// pending set — one atomic logical step; an activator is never enabled
    /// without seeding, and never seeded twice within one round. Because
    /// events may be delivered a tick or two after the phase has changed,
    /// the handler re-checks the phase first and drops the event without
    /// mutation on a mismatch. A target that no longer resolves (removed by
    /// the editor between emission and processing), that is not an
    /// activator, or whose pending set was already seeded this round (in
    /// particular, one that is already enabled) also leaves the engine
    /// unchanged.
    pub fn activate_activator(&mut self, ev: &ActivatorEnabledEvent)
        requires
            old(self).wf(),
        ensures
            final(self).wf(),
            final(self).phase == old(self).phase,
            final(self).config == old(self).config,
            final(self).next_id == old(self).next_id,
            final(self).objects@.len() == old(self).objects@.len(),
            (old(self).phase !is Execute || !has_id(old(self).objects@, ev.target) || !obj_at(
                old(self).objects@,
                ev.target,
            ).is_activator() || obj_at(old(self).objects@, ev.target).activator().seeded)
                ==> *final(self) == *old(self),
            (old(self).phase is Execute && has_id(old(self).objects@, ev.target) && obj_at(
                old(self).objects@,
                ev.target,
            ).is_activator() && !obj_at(old(self).objects@, ev.target).activator().seeded) ==> ({
                let t = idx_of(old(self).objects@, ev.target);
                &&& forall|k: int|
                    0 <= k < old(self).objects@.len() && k != t
                        ==> final(self).objects@[k] == old(self).objects@[k]
                &&& activated_obj(old(self).objects@, t, final(self).objects@[t])
            }),
    {
        let objs_len = self.objects.len();
        if !(self.phase == GameState::Execute) {
            return ;
        }
        let t = match find_index(&self.objects, ev.target) {
            Some(i) => i,
            None => {
                return ;
            },
        };
        let mut eligible: bool = false;
        match &self.objects[t].kind {
            ObjectKind::Activator(a) => {
                eligible = !a.seeded;
            },
            ObjectKind::Note => {},
        }
        if !eligible {
            return ;
        }
        let center_id = self.objects[t].id;
        let center_pos = self.objects[t].pos;
        let n = objs_len;
        let mut p: Vec<ObjectId> = Vec::new();
        let mut j: usize = 0;
        while j < n
            invariant
                old(self).wf(),
                *self == *old(self),
                n == self.objects@.len(),
                j <= n,
                t < n,
                t == idx_of(self.objects@, ev.target),
                center_id == ev.target,
                center_id == self.objects@[t as int].id,
                center_pos == self.objects@[t as int].pos,
                pending_sorted(self.objects@, center_pos, p@),
                forall|m: int|
                    0 <= m < p@.len()
                        ==> idx_of(self.objects@, #[trigger] p@[m]) < j && has_id(
                        self.objects@,
                        p@[m],
                    ) && p@[m] != center_id,
                forall|id: ObjectId|
                    #[trigger] p@.contains(id) <==> (exists|k: int|
                        0 <= k < j && (#[trigger] self.objects@[k]).id == id && id != center_id),
            decreases n - j,
        {
            let oid = self.objects[j].id;
            proof {
                lemma_idx_of_unique(self.objects@, j as int);
            }
            if oid != center_id {
                let ghost p_old = p@;
                let mut ins: usize = 0;
                loop
                    invariant
                        old(self).wf(),
                        *self == *old(self),
                        n == self.objects@.len(),
                        j < n,
                        t < n,
                        center_pos == self.objects@[t as int].pos,
                        oid == self.objects@[j as int].id,
                        has_id(self.objects@, oid),
                        p@ == p_old,
                        pending_sorted(self.objects@, center_pos, p@),
                        forall|m: int|
                            0 <= m < p@.len()
                                ==> idx_of(self.objects@, #[trigger] p@[m]) < j && has_id(
                                self.objects@,
                                p@[m],
                            ) && p@[m] != center_id,
                        ins <= p@.len(),
                        forall|m: int|
                            0 <= m < ins ==> key_lt(self.objects@, center_pos, #[trigger] p@[m], oid),
                    ensures
                        p@ == p_old,
                        ins <= p@.len(),
                        forall|m: int|
                            0 <= m < ins ==> key_lt(self.objects@, center_pos, #[trigger] p@[m], oid),
                        forall|m: int|
                            ins <= m < p@.len() ==> key_lt(
                                self.objects@,
                                center_pos,
                                oid,
                                #[trigger] p@[m],
                            ),
                    decreases p@.len() - ins,
                {
                    if ins == p.len() {
                        break ;
                    }
                    let before = distance_for_sort(&self.objects, center_pos, p[ins], oid);
                    if !before {
                        proof {
                            let objs = self.objects@;
                            lemma_key_total(objs, center_pos, p@[ins as int], oid);
                            assert(idx_of(objs, p@[ins as int]) < j);
                            assert(idx_of(objs, oid) == j);
                            assert(p@[ins as int] != oid);
                            assert(key_lt(objs, center_pos, oid, p@[ins as int]));
                            assert forall|m: int|
                                ins <= m < p@.len() implies key_lt(
                                objs,
                                center_pos,
                                oid,
                                #[trigger] p@[m],
                            ) by {
                                if m > ins {
                                    assert(key_lt(objs, center_pos, p@[ins as int], p@[m]));
                                    lemma_key_trans(
                                        objs,
                                        center_pos,
                                        oid,
                                        p@[ins as int],
                                        p@[m],
                                    );
                                }
                            }
                        }
                        break ;
                    }
                    ins = ins + 1;
                }
                p.insert(ins, oid);
                proof {
                    let objs = self.objects@;
                    let p2 = p@;
                    assert(p2 == p_old.insert(ins as int, oid));
                    assert(p2.len() == p_old.len() + 1);
                    assert forall|a: int, b: int|
                        0 <= a < b < p2.len() implies #[trigger] key_lt(
                        objs,
                        center_pos,
                        p2[a],
                        p2[b],
                    ) by {
                        if b < ins {
                            assert(p2[a] == p_old[a] && p2[b] == p_old[b]);
                            assert(key_lt(objs, center_pos, p_old[a], p_old[b]));
                        } else if b == ins {
                            assert(p2[a] == p_old[a] && p2[b] == oid);
                            assert(key_lt(objs, center_pos, p_old[a], oid));
                        } else if a < ins {
                            assert(p2[a] == p_old[a] && p2[b] == p_old[b - 1]);
                            assert(key_lt(objs, center_pos, p_old[a], p_old[b - 1]));
                        } else if a == ins {
                            assert(p2[a] == oid && p2[b] == p_old[b - 1]);
                            assert(key_lt(objs, center_pos, oid, p_old[b - 1]));
                        } else {
                            assert(p2[a] == p_old[a - 1] && p2[b] == p_old[b - 1]);
                            assert(key_lt(objs, center_pos, p_old[a - 1], p_old[b - 1]));
                        }
                    }
                    assert forall|m: int|
                        0 <= m < p2.len() implies idx_of(objs, #[trigger] p2[m]) < j + 1 && has_id(
                        objs,
                        p2[m],
                    ) && p2[m] != center_id by {
                        if m < ins {
                            assert(p2[m] == p_old[m]);
                        } else if m == ins {
                            assert(p2[m] == oid);
                        } else {
                            assert(p2[m] == p_old[m - 1]);
                        }
                    }
                    assert forall|id: ObjectId| #[trigger] p2.contains(id) implies (exists|k: int|
                        0 <= k < j + 1 && (#[trigger] objs[k]).id == id && id != center_id) by {
                        let m = choose|m: int| 0 <= m < p2.len() && p2[m] == id;
                        if m < ins {
                            assert(p_old.contains(p_old[m]));
                        } else if m == ins {
                            assert(objs[j as int].id == id);
                        } else {
                            assert(p_old.contains(p_old[m - 1]));
                        }
                    }
                    assert forall|id: ObjectId|
                        (exists|k: int|
                            0 <= k < j + 1 && (#[trigger] objs[k]).id == id && id
                                != center_id) implies #[trigger] p2.contains(id) by {
                        let k = choose|k: int|
                            0 <= k < j + 1 && (#[trigger] objs[k]).id == id && id != center_id;
                        if k < j {
                            assert(p_old.contains(id));
                            let m = choose|m: int| 0 <= m < p_old.len() && p_old[m] == id;
                            if m < ins {
                                assert(p2[m] == id);
                            } else {
                                assert(p2[m + 1] == id);
                            }
                        } else {
                            assert(p2[ins as int] == id);
                        }
                    }
                }
            } else {
                proof {
                    let objs = self.objects@;
                    assert forall|id: ObjectId| #[trigger] p@.contains(id) implies (exists|k: int|
                        0 <= k < j + 1 && (#[trigger] objs[k]).id == id && id != center_id) by {}
                    assert forall|id: ObjectId|
                        (exists|k: int|
                            0 <= k < j + 1 && (#[trigger] objs[k]).id == id && id
                                != center_id) implies #[trigger] p@.contains(id) by {
                        let k = choose|k: int|
                            0 <= k < j + 1 && (#[trigger] objs[k]).id == id && id != center_id;
                        assert(k < j);
                    }
                }
            }
            j = j + 1;
        }
        let mut typ: ActivatorType = ActivatorType::Passive;
        let mut color: ActivatorColor = ActivatorColor(crate::color::ColorPalette::BlueViolet);
        match &self.objects[t].kind {
            ObjectKind::Activator(a) => {
                typ = a.typ;
                color = a.color;
            },
            ObjectKind::Note => {},
        }
        let replacement = GameObject {
            id: center_id,
            pos: center_pos,
            kind: ObjectKind::Activator(
                Activator {
                    typ,
                    state: ActivatorState::Enabled,
                    size: ActivatorSize(0),
                    seeded: true,
                    pending: InactivatedObjects(p),
                    color,
                },
            ),
        };
        self.objects[t] = replacement;
        proof {
            let objs = old(self).objects@;
            let objs2 = self.objects@;
            assert(same_shape(objs, objs2));
            assert forall|a: int, b: int|
                0 <= a < b < objs2.len() implies (#[trigger] objs2[a]).id != (#[trigger] objs2[b]).id by {
                assert(objs[a].id != objs[b].id);
            }
            assert(activated_obj(objs, t as int, objs2[t as int])) by {
                let p2 = objs2[t as int].activator().pending.0@;
                assert forall|id: ObjectId| #[trigger] p2.contains(id) implies has_id(objs, id)
                    && id != objs[t as int].id by {}
                assert forall|id: ObjectId|
                    has_id(objs, id) && id != objs[t as int].id implies #[trigger] p2.contains(
                    id,
                ) by {
                    lemma_idx_of(objs, id);
                }
            }
            assert forall|i: int|
                0 <= i < objs2.len() && (#[trigger] objs2[i]).is_activator()
                    implies activator_ok(objs2, objs2[i]) by {
                if i != t {
                    assert(objs2[i] == objs[i]);
                    assert(activator_ok(objs, objs[i]));
                    lemma_same_shape_preserves_pending(objs, objs2, objs2[i]);
                } else {
                    let p2 = objs2[t as int].activator().pending.0@;
                    assert(pending_sorted(objs, center_pos, p2));
                    assert forall|k: int|
                        0 <= k < p2.len() implies has_id(objs2, #[trigger] p2[k]) && p2[k]
                            != objs2[i].id by {
                        assert(p2.contains(p2[k]));
                        lemma_same_shape_resolution(objs, objs2, p2[k]);
                    }
                    assert forall|a: int, b: int|
                        0 <= a < b < p2.len() implies #[trigger] key_lt(
                        objs2,
                        center_pos,
                        p2[a],
                        p2[b],
                    ) by {
                        assert(key_lt(objs, center_pos, p2[a], p2[b]));
                        assert(p2.contains(p2[a]));
                        assert(p2.contains(p2[b]));
                        lemma_same_shape_resolution(objs, objs2, p2[a]);
                        lemma_same_shape_resolution(objs, objs2, p2[b]);
                    }
                }
            }
        }
    }
}

/// What entry `i` of the registry becomes in the growth stage: an enabled
/// activator's radius grows by `elapsed * grow` (clipped at [`SIZE_CAP`]);
/// everything else is untouched.
pub open spec fn grown_step(
    objs: Seq<GameObject>,
    i: int,
    elapsed: u64,
    grow: u64,
    o: GameObject,
) -> bool {
    if objs[i].is_activator() && objs[i].activator().state is Enabled {
        &&& o.id == objs[i].id
        &&& o.pos == objs[i].pos
        &&& o.is_activator()
        &&& o.activator() == Activator {
            size: ActivatorSize(grown(objs[i].activator().size.0, elapsed, grow) as u64),
            ..objs[i].activator()
        }
    } else {
        o == objs[i]
    }
}

/// A scan may stop at the first pending entry that has not been crossed:
/// no later entry changes what is emitted.
pub proof fn lemma_scan_stops(
    objs: Seq<GameObject>,
    src: GameObject,
    r: int,
    p: Seq<ObjectId>,
    j: int,
    e: int,
)
    requires
        0 <= j <= e <= p.len(),
        forall|m: int| j <= m < e ==> !crosses(objs, src.pos, r, #[trigger] p[m]),
    ensures
        scan_notes(objs, src, r, p, e) == scan_notes(objs, src, r, p, j),
        scan_enables(objs, src, r, p, e) == scan_enables(objs, src, r, p, j),
    decreases e - j,
{
    if e > j {
        lemma_scan_stops(objs, src, r, p, j, e - 1);
    }
}

/// In a pending set sorted ascending by distance, once one entry fails the
/// crossing test no later entry can pass it: the basis of the early exit.
pub proof fn lemma_sorted_no_cross(
    objs: Seq<GameObject>,
    src: GameObject,
    r: int,
    p: Seq<ObjectId>,
    j: int,
)
    requires
        pending_sorted(objs, src.pos, p),
        0 <= j < p.len(),
        !(dist_sq(src.pos, obj_at(objs, p[j]).pos) < r * r),
    ensures
        forall|m: int| j <= m < p.len() ==> !crosses(objs, src.pos, r, #[trigger] p[m]),
{
    assert forall|m: int| j <= m < p.len() implies !crosses(objs, src.pos, r, #[trigger] p[m]) by {
        if m > j {
            assert(key_lt(objs, src.pos, p[j], p[m]));
        }
    }
}

proof fn lemma_grow_preserves_wf(pre: Engine, post: Engine, elapsed: u64, grow: u64)
    requires
        pre.wf(),
        post.phase == pre.phase,
        post.config == pre.config,
        post.next_id == pre.next_id,
        post.objects@.len() == pre.objects@.len(),
        forall|k: int|
            0 <= k < pre.objects@.len() ==> grown_step(
                pre.objects@,
                k,
                elapsed,
                grow,
                #[trigger] post.objects@[k],
            ),
    ensures
        post.wf(),
{
    let objs = pre.objects@;
    let objs2 = post.objects@;
    assert(same_shape(objs, objs2));
    assert forall|a: int, b: int|
        0 <= a < b < objs2.len() implies (#[trigger] objs2[a]).id != (#[trigger] objs2[b]).id by {
        assert(objs[a].id != objs[b].id);
    }
    assert forall|k: int|
        0 <= k < objs2.len() && (#[trigger] objs2[k]).is_activator()
            implies activator_ok(objs2, objs2[k]) by {
        assert(objs[k].is_activator());
        assert(activator_ok(objs, objs[k]));
        assert(objs2[k].activator().pending.0@ == objs[k].activator().pending.0@);
        lemma_same_shape_preserves_pending(objs, objs2, objs[k]);
        assert(pending_sorted(objs2, objs2[k].pos, objs2[k].activator().pending.0@));
        assert forall|m: int|
            0 <= m < objs2[k].activator().pending.0@.len() implies has_id(
            objs2,
            #[trigger] objs2[k].activator().pending.0@[m],
        ) && objs2[k].activator().pending.0@[m] != objs2[k].id by {
            assert(has_id(objs, objs[k].activator().pending.0@[m]));
            lemma_same_shape_resolution(objs, objs2, objs[k].activator().pending.0@[m]);
        }
    }
}

impl Engine {
    /// One growth-and-detection pass: every enabled activator's radius grows
    /// by `elapsed * grow_factor` (clipped at [`SIZE_CAP`]), and its pending
    /// set is walked in ascending-distance order against the new radius. A
    /// crossed note emits a [`NotePlayedEvent`]; a crossed activator emits an
    /// [`ActivatorEnabledEvent`]. Nothing is removed from a pending set here:
    /// removal is deferred to the event router. The contract states the
    /// emitted events as a full scan of every pending entry; the body stops
    /// each scan at the first entry that is not crossed, which the sorted
    /// order proves equivalent.
    pub fn execute_activator_and_check_collisions(&mut self, elapsed: u64) -> (ev: (
        Vec<NotePlayedEvent>,
        Vec<ActivatorEnabledEvent>,
    ))
        requires
            old(self).wf(),
        ensures
            final(self).wf(),
            final(self).phase == old(self).phase,
            final(self).config == old(self).config,
            final(self).next_id == old(self).next_id,
            final(self).objects@.len() == old(self).objects@.len(),
            forall|k: int|
                0 <= k < old(self).objects@.len() ==> grown_step(
                    old(self).objects@,
                    k,
                    elapsed,
                    old(self).config.grow_factor,
                    #[trigger] final(self).objects@[k],
                ),
            ev.0@ == tick_notes(
                old(self).objects@,
                elapsed,
                old(self).config.grow_factor,
                old(self).objects@.len() as int,
            ),
            ev.1@ == tick_enables(
                old(self).objects@,
                elapsed,
                old(self).config.grow_factor,
                old(self).objects@.len() as int,
            ),
    {
        let ghost objs0 = old(self).objects@;
        let grow = self.config.grow_factor;
        let n = self.objects.len();
        let mut notes: Vec<NotePlayedEvent> = Vec::new();
        let mut enables: Vec<ActivatorEnabledEvent> = Vec::new();
        let mut i: usize = 0;
        while i < n
            invariant
                old(self).wf(),
                objs0 == old(self).objects@,
                grow == old(self).config.grow_factor,
                n == objs0.len(),
                i <= n,
                self.phase == old(self).phase,
                self.config == old(self).config,
                self.next_id == old(self).next_id,
                self.objects@.len() == n,
                forall|k: int|
                    0 <= k < i ==> grown_step(objs0, k, elapsed, grow, #[trigger] self.objects@[k]),
                forall|k: int| i <= k < n ==> #[trigger] self.objects@[k] == objs0[k],
                notes@ == tick_notes(objs0, elapsed, grow, i as int),
                enables@ == tick_enables(objs0, elapsed, grow, i as int),
            decreases n - i,
        {
            let mut enabled = false;
            match &self.objects[i].kind {
                ObjectKind::Activator(a) => {
                    enabled = a.state.is_active();
                },
                ObjectKind::Note => {},
            }
            if enabled {
                let delta = match elapsed.checked_mul(grow) {
                    Some(d) => d,
                    None => SIZE_CAP,
                };
                {
                    let o = &mut self.objects[i];
                    match &mut o.kind {
                        ObjectKind::Activator(a) => {
                            a.size.increment(delta);
                        },
                        ObjectKind::Note => {},
                    }
                }
                proof {
                    assert(grown_step(objs0, i as int, elapsed, grow, self.objects@[i as int]));
                    assert forall|k: int|
                        0 <= k < n implies (#[trigger] self.objects@[k]).id == objs0[k].id
                            && self.objects@[k].pos == objs0[k].pos
                            && self.objects@[k].is_activator() == objs0[k].is_activator() by {
                        if k < i {
                            assert(grown_step(objs0, k, elapsed, grow, self.objects@[k]));
                        } else if k == i {
                        } else {
                            assert(self.objects@[k] == objs0[k]);
                        }
                    }
                    assert(same_shape(objs0, self.objects@));
                    assert forall|a: int, b: int|
                        0 <= a < b < n implies (#[trigger] self.objects@[a]).id != (
                        #[trigger] self.objects@[b]).id by {
                        assert(objs0[a].id != objs0[b].id);
                    }
                }
                let src_id = self.objects[i].id;
                let src_pos = self.objects[i].pos;
                let r = act_ref(&self.objects[i]).size.0;
                let plen = act_ref(&self.objects[i]).pending.0.len();
                proof {
                    assert(r as int == grown(objs0[i as int].activator().size.0, elapsed, grow));
                    assert(r <= SIZE_CAP);
                    assert(r * r <= 9_000_000_000_000_000_000) by (nonlinear_arith)
                        requires r <= 3_000_000_000u64;
                }
                let rr = r * r;
                let ghost p = objs0[i as int].activator().pending.0@;
                let ghost src0 = objs0[i as int];
                let ghost mid = *self;
                let mut jj: usize = 0;
                loop
                    invariant
                        old(self).wf(),
                        objs0 == old(self).objects@,
                        *self == mid,
                        n == objs0.len(),
                        mid.objects@.len() == n,
                        i < n,
                        same_shape(objs0, mid.objects@),
                        ids_unique(mid.objects@),
                        forall|k: int|
                            0 <= k < n ==> (#[trigger] mid.objects@[k]).is_activator()
                                == objs0[k].is_activator(),
                        src0 == objs0[i as int],
                        src0.is_activator(),
                        activator_ok(objs0, src0),
                        p == src0.activator().pending.0@,
                        mid.objects@[i as int].is_activator(),
                        mid.objects@[i as int].activator().pending.0@ == p,
                        src_id == src0.id,
                        src_pos == src0.pos,
                        in_world(src_pos),
                        r as int == grown(src0.activator().size.0, elapsed, grow),
                        rr == r * r,
                        plen == p.len(),
                        jj <= plen,
                        notes@ == tick_notes(objs0, elapsed, grow, i as int) + scan_notes(
                            objs0,
                            src0,
                            r as int,
                            p,
                            jj as int,
                        ),
                        enables@ == tick_enables(objs0, elapsed, grow, i as int) + scan_enables(
                            objs0,
                            src0,
                            r as int,
                            p,
                            jj as int,
                        ),
                    ensures
                        *self == mid,
                        notes@ == tick_notes(objs0, elapsed, grow, i as int) + scan_notes(
                            objs0,
                            src0,
                            r as int,
                            p,
                            plen as int,
                        ),
                        enables@ == tick_enables(objs0, elapsed, grow, i as int) + scan_enables(
                            objs0,
                            src0,
                            r as int,
                            p,
                            plen as int,
                        ),
                    decreases plen - jj,
                {
                    if jj == plen {
                        break ;
                    }
                    let oid = act_ref(&self.objects[i]).pending.0[jj];
                    proof {
                        assert(has_id(objs0, oid));
                        lemma_same_shape_resolution(objs0, mid.objects@, oid);
                    }
                    let ti = match find_index(&self.objects, oid) {
                        Some(x) => x,
                        None => vstd::pervasive::unreached(),
                    };
                    let d = distance_squared(src_pos, self.objects[ti].pos);
                    proof {
                        lemma_idx_of(mid.objects@, oid);
                        assert(self.objects@[ti as int] == obj_at(mid.objects@, oid));
                        assert(obj_at(mid.objects@, oid).pos == obj_at(objs0, oid).pos);
                        assert(d == dist_sq(src0.pos, obj_at(objs0, oid).pos));
                    }
                    if d < rr {
                        let mut is_note_target = false;
                        match &self.objects[ti].kind {
                            ObjectKind::Note => {
                                is_note_target = true;
                            },
                            ObjectKind::Activator(_) => {},
                        }
                        proof {
                            assert(crosses(objs0, src0.pos, r as int, oid));
                            assert(ti as int == idx_of(objs0, oid));
                            assert(mid.objects@[ti as int].is_activator() == objs0[ti as int].is_activator());
                            assert(obj_at(objs0, oid).is_note() == is_note_target);
                        }
                        if is_note_target {
                            notes.push(NotePlayedEvent { source: src_id, note: oid });
                            proof {
                                let ev = NotePlayedEvent { source: src0.id, note: oid };
                                assert(scan_notes(objs0, src0, r as int, p, jj + 1)
                                    == scan_notes(objs0, src0, r as int, p, jj as int).push(ev));
                                assert(scan_enables(objs0, src0, r as int, p, jj + 1)
                                    == scan_enables(objs0, src0, r as int, p, jj as int));
                                assert(notes@ =~= tick_notes(objs0, elapsed, grow, i as int)
                                    + scan_notes(objs0, src0, r as int, p, jj + 1));
                            }
                        } else {
                            enables.push(ActivatorEnabledEvent { source: Some(src_id), target: oid });
                            proof {
                                let ev = ActivatorEnabledEvent { source: Some(src0.id), target: oid };
                                assert(scan_enables(objs0, src0, r as int, p, jj + 1)
                                    == scan_enables(objs0, src0, r as int, p, jj as int).push(ev));
                                assert(scan_notes(objs0, src0, r as int, p, jj + 1)
                                    == scan_notes(objs0, src0, r as int, p, jj as int));
                                assert(enables@ =~= tick_enables(objs0, elapsed, grow, i as int)
                                    + scan_enables(objs0, src0, r as int, p, jj + 1));
                            }
                        }
                        jj = jj + 1;
                    } else {
                        proof {
                            assert(!(dist_sq(src0.pos, obj_at(objs0, p[jj as int]).pos) < (
                            r as int) * (r as int)));
                            lemma_sorted_no_cross(objs0, src0, r as int, p, jj as int);
                            lemma_scan_stops(objs0, src0, r as int, p, jj as int, plen as int);
                        }
                        break ;
                    }
                }
                proof {
                    assert(notes_of_entry(objs0, i as int, elapsed, grow) == scan_notes(
                        objs0,
                        src0,
                        r as int,
                        p,
                        plen as int,
                    ));
                    assert(enables_of_entry(objs0, i as int, elapsed, grow) == scan_enables(
                        objs0,
                        src0,
                        r as int,
                        p,
                        plen as int,
                    ));
                    assert(tick_notes(objs0, elapsed, grow, i as int + 1) == tick_notes(
                        objs0,
                        elapsed,
                        grow,
                        i as int,
                    ) + notes_of_entry(objs0, i as int, elapsed, grow));
                    assert(tick_enables(objs0, elapsed, grow, i as int + 1) == tick_enables(
                        objs0,
                        elapsed,
                        grow,
                        i as int,
                    ) + enables_of_entry(objs0, i as int, elapsed, grow));
                }
            } else {
                proof {
                    assert(grown_step(objs0, i as int, elapsed, grow, self.objects@[i as int]));
                    assert(notes_of_entry(objs0, i as int, elapsed, grow) =~= Seq::<
                        NotePlayedEvent,
                    >::empty());
                    assert(enables_of_entry(objs0, i as int, elapsed, grow) =~= Seq::<
                        ActivatorEnabledEvent,
                    >::empty());
                    assert(tick_notes(objs0, elapsed, grow, i as int + 1) =~= tick_notes(
                        objs0,
                        elapsed,
                        grow,
                        i as int,
                    ));
                    assert(tick_enables(objs0, elapsed, grow, i as int + 1) =~= tick_enables(
                        objs0,
                        elapsed,
                        grow,
                        i as int,
                    ));
                }
            }
            i = i + 1;
        }
        proof {
            lemma_grow_preserves_wf(*old(self), *self, elapsed, grow);
        }
        (notes, enables)
    }
}

/// Fold note events and enable requests into the uniform activation signal,
/// notes first, each stream keeping its order. This single downstream form
/// lets one handler maintain all pending-set removals regardless of the
/// target's kind.
pub fn collect_activation_events(
    notes: &Vec<NotePlayedEvent>,
    enables: &Vec<ActivatorEnabledEvent>,
) -> (r: Vec<ObjectActivatedEvent>)
    ensures
        r@ == classified(notes@, enables@),
{
    let mut r: Vec<ObjectActivatedEvent> = Vec::new();
    let nn = notes.len();
    let mut k: usize = 0;
    while k < nn
        invariant
            nn == notes@.len(),
            k <= nn,
            r@.len() == k,
            forall|m: int|
                0 <= m < k ==> #[trigger] r@[m] == (ObjectActivatedEvent {
                    source: Some(notes@[m].source),
                    object: notes@[m].note,
                }),
        decreases nn - k,
    {
        let ev = notes[k];
        r.push(ObjectActivatedEvent { source: Some(ev.source), object: ev.note });
        k = k + 1;
    }
    let en = enables.len();
    let mut k2: usize = 0;
    while k2 < en
        invariant
            nn == notes@.len(),
            en == enables@.len(),
            k2 <= en,
            r@.len() == nn + k2,
            forall|m: int|
                0 <= m < nn ==> #[trigger] r@[m] == (ObjectActivatedEvent {
                    source: Some(notes@[m].source),
                    object: notes@[m].note,
                }),
            forall|m: int|
                0 <= m < k2 ==> #[trigger] r@[nn + m] == (ObjectActivatedEvent {
                    source: enables@[m].source,
                    object: enables@[m].target,
                }),
        decreases en - k2,
    {
        let ev = enables[k2];
        r.push(ObjectActivatedEvent { source: ev.source, object: ev.target });
        k2 = k2 + 1;
    }
    proof {
        let c = classified(notes@, enables@);
        assert(r@.len() == c.len());
        assert forall|m: int| 0 <= m < r@.len() implies r@[m] == c[m] by {
            if m >= nn {
                assert(r@[nn + (m - nn)] == (ObjectActivatedEvent {
                    source: enables@[m - nn].source,
                    object: enables@[m - nn].target,
                }));
            }
        }
        assert(r@ =~= c);
    }
    r
}

/// Elements of a retained pending set: exactly the entries of the scanned
/// prefix that no event activated from this source.
pub proof fn lemma_retained_membership(
    evs: Seq<ObjectActivatedEvent>,
    src: ObjectId,
    p: Seq<ObjectId>,
    j: int,
)
    requires
        0 <= j <= p.len(),
    ensures
        forall|x: ObjectId|
            #[trigger] retained(evs, src, p, j).contains(x) <==> (exists|q: int|
                0 <= q < j && p[q] == x && !activated_from_src(evs, src, x)),
    decreases j,
{
    if j > 0 {
        lemma_retained_membership(evs, src, p, j - 1);
        let cur = retained(evs, src, p, j);
        let pre = retained(evs, src, p, j - 1);
        assert forall|x: ObjectId| #[trigger] cur.contains(x) implies (exists|q: int|
            0 <= q < j && p[q] == x && !activated_from_src(evs, src, x)) by {
            if activated_from_src(evs, src, p[j - 1]) {
                assert(cur == pre);
            } else {
                if x == cur.last() {
                    assert(p[j - 1] == x);
                } else {
                    let m = choose|m: int| 0 <= m < cur.len() && cur[m] == x;
                    if m < pre.len() {
                        assert(pre.contains(x));
                    }
                }
            }
        }
        assert forall|x: ObjectId|
            (exists|q: int|
                0 <= q < j && p[q] == x && !activated_from_src(evs, src, x)) implies #[trigger] cur.contains(
            x,
        ) by {
            let q = choose|q: int| 0 <= q < j && p[q] == x && !activated_from_src(evs, src, x);
            if q < j - 1 {
                assert(pre.contains(x));
                let m = choose|m: int| 0 <= m < pre.len() && pre[m] == x;
                if activated_from_src(evs, src, p[j - 1]) {
                    assert(cur == pre);
                } else {
                    assert(cur[m] == x);
                }
            } else {
                assert(cur.last() == x);
            }
        }
    }
}

/// A retained pending set stays sorted, and every element still resolves:
/// each comes from the original pending set.
pub proof fn lemma_retained_props(
    evs: Seq<ObjectActivatedEvent>,
    src: ObjectId,
    p: Seq<ObjectId>,
    j: int,
    objs: Seq<GameObject>,
    c: Position,
)
    requires
        0 <= j <= p.len(),
        pending_sorted(objs, c, p),
    ensures
        pending_sorted(objs, c, retained(evs, src, p, j)),
        forall|m: int|
            0 <= m < retained(evs, src, p, j).len() ==> (exists|q: int|
                0 <= q < j && p[q] == #[trigger] retained(evs, src, p, j)[m]),
        retained(evs, src, p, j).len() <= j,
    decreases j,
{
    if j > 0 {
        lemma_retained_props(evs, src, p, j - 1, objs, c);
        let cur = retained(evs, src, p, j);
        let pre = retained(evs, src, p, j - 1);
        if !activated_from_src(evs, src, p[j - 1]) {
            assert forall|a: int, b: int|
                0 <= a < b < cur.len() implies #[trigger] key_lt(objs, c, cur[a], cur[b]) by {
                if b < pre.len() {
                    assert(key_lt(objs, c, pre[a], pre[b]));
                } else {
                    assert(cur[b] == p[j - 1]);
                    let q = choose|q: int| 0 <= q < j - 1 && p[q] == pre[a];
                    assert(key_lt(objs, c, p[q], p[j - 1]));
                }
            }
        }
    }
}

/// What entry `k` of the registry becomes in the removal stage: for each
/// activation event with a concrete source, the activated object is removed
/// from that source's pending set (removing an absent entry is a no-op).
pub open spec fn removal_step(
    objs: Seq<GameObject>,
    evs: Seq<ObjectActivatedEvent>,
    k: int,
    o: GameObject,
) -> bool {
    if objs[k].is_activator() {
        &&& o.id == objs[k].id
        &&& o.pos == objs[k].pos
        &&& o.is_activator()
        &&& o.activator().typ == objs[k].activator().typ
        &&& o.activator().color == objs[k].activator().color
        &&& o.activator().state == objs[k].activator().state
        &&& o.activator().size == objs[k].activator().size
        &&& o.activator().seeded == objs[k].activator().seeded
        &&& o.activator().pending.0@ == retained(
            evs,
            objs[k].id,
            objs[k].activator().pending.0@,
            objs[k].activator().pending.0@.len() as int,
        )
    } else {
        o == objs[k]
    }
}

/// Whether any of `events` activates `obj` from source `src`.
fn event_hits(events: &Vec<ObjectActivatedEvent>, src: ObjectId, obj: ObjectId) -> (r: bool)
    ensures
        r == activated_from_src(events@, src, obj),
{
    let n = events.len();
    let mut k: usize = 0;
    while k < n
        invariant
            n == events@.len(),
            k <= n,
            forall|m: int|
                0 <= m < k ==> !((#[trigger] events@[m]).source == Some(src) && events@[m].object
                    == obj),
        decreases n - k,
    {
        let hit = match events[k].source {
            Some(s) => s == src && events[k].object == obj,
            None => false,
        };
        if hit {
            return true;
        }
        k = k + 1;
    }
    false
}

impl Engine {
    /// The removal stage of the event router: for every activation event
    /// with a concrete source, remove the activated object from that
    /// source's pending set. Removing an entry that is already absent is a
    /// no-op, not an error: the same object may cross a boundary on two
    /// consecutive steps before its removal is processed. Once removed, an
    /// entry is never re-added to the same pending set within the round.
    pub fn handle_object_activated(&mut self, events: &Vec<ObjectActivatedEvent>)
        requires
            old(self).wf(),
        ensures
            final(self).wf(),
            final(self).phase == old(self).phase,
            final(self).config == old(self).config,
            final(self).next_id == old(self).next_id,
            final(self).objects@.len() == old(self).objects@.len(),
            forall|k: int|
                0 <= k < old(self).objects@.len() ==> removal_step(
                    old(self).objects@,
                    events@,
                    k,
                    #[trigger] final(self).objects@[k],
                ),
    {
        let ghost objs0 = old(self).objects@;
        let n = self.objects.len();
        let mut i: usize = 0;
        while i < n
            invariant
                old(self).wf(),
                objs0 == old(self).objects@,
                n == objs0.len(),
                i <= n,
                self.phase == old(self).phase,
                self.config == old(self).config,
                self.next_id == old(self).next_id,
                self.objects@.len() == n,
                forall|k: int|
                    0 <= k < i ==> removal_step(objs0, events@, k, #[trigger] self.objects@[k]),
                forall|k: int| i <= k < n ==> #[trigger] self.objects@[k] == objs0[k],
            decreases n - i,
        {
            let mut is_act = false;
            match &self.objects[i].kind {
                ObjectKind::Activator(_) => {
                    is_act = true;
                },
                ObjectKind::Note => {},
            }
            if is_act {
                let src_id = self.objects[i].id;
                let plen = act_ref(&self.objects[i]).pending.0.len();
                let ghost p = objs0[i as int].activator().pending.0@;
                let mut newp: Vec<ObjectId> = Vec::new();
                let mut jj: usize = 0;
                while jj < plen
                    invariant
                        old(self).wf(),
                        objs0 == old(self).objects@,
                        n == objs0.len(),
                        self.objects@.len() == n,
                        i < n,
                        self.objects@[i as int] == objs0[i as int],
                        objs0[i as int].is_activator(),
                        src_id == objs0[i as int].id,
                        p == objs0[i as int].activator().pending.0@,
                        plen == p.len(),
                        jj <= plen,
                        newp@ == retained(events@, src_id, p, jj as int),
                    decreases plen - jj,
                {
                    let oid = act_ref(&self.objects[i]).pending.0[jj];
                    if !event_hits(events, src_id, oid) {
                        newp.push(oid);
                    }
                    jj = jj + 1;
                }
                let opos = self.objects[i].pos;
                let mut typ = ActivatorType::Passive;
                let mut state = ActivatorState::Disabled;
                let mut size = ActivatorSize(0);
                let mut seeded = false;
                let mut color = ActivatorColor(crate::color::ColorPalette::BlueViolet);
                match &self.objects[i].kind {
                    ObjectKind::Activator(a) => {
                        typ = a.typ;
                        state = a.state;
                        size = a.size;
                        seeded = a.seeded;
                        color = a.color;
                    },
                    ObjectKind::Note => {},
                }
                self.objects[i] = GameObject {
                    id: src_id,
                    pos: opos,
                    kind: ObjectKind::Activator(
                        Activator {
                            typ,
                            state,
                            size,
                            seeded,
                            pending: InactivatedObjects(newp),
                            color,
                        },
                    ),
                };
            }
            i = i + 1;
        }
        proof {
            let objs2 = self.objects@;
            assert(same_shape(objs0, objs2));
            assert forall|a: int, b: int|
                0 <= a < b < objs2.len() implies (#[trigger] objs2[a]).id != (#[trigger] objs2[b]).id by {
                assert(objs0[a].id != objs0[b].id);
            }
            assert forall|k: int|
                0 <= k < objs2.len() && (#[trigger] objs2[k]).is_activator()
                    implies activator_ok(objs2, objs2[k]) by {
                assert(objs0[k].is_activator());
                assert(activator_ok(objs0, objs0[k]));
                assert(removal_step(objs0, events@, k, objs2[k]));
                let p = objs0[k].activator().pending.0@;
                let p2 = objs2[k].activator().pending.0@;
                lemma_retained_props(events@, objs0[k].id, p, p.len() as int, objs0, objs0[k].pos);
                assert forall|m: int|
                    0 <= m < p2.len() implies has_id(objs2, #[trigger] p2[m]) && p2[m]
                        != objs2[k].id by {
                    let q = choose|q: int| 0 <= q < p.len() && p[q] == p2[m];
                    assert(has_id(objs0, p[q]));
                    lemma_same_shape_resolution(objs0, objs2, p2[m]);
                }
                assert forall|a: int, b: int|
                    0 <= a < b < p2.len() implies #[trigger] key_lt(
                    objs2,
                    objs2[k].pos,
                    p2[a],
                    p2[b],
                ) by {
                    assert(key_lt(objs0, objs0[k].pos, p2[a], p2[b]));
                    let qa = choose|q: int| 0 <= q < p.len() && p[q] == p2[a];
                    let qb = choose|q: int| 0 <= q < p.len() && p[q] == p2[b];
                    assert(has_id(objs0, p[qa]));
                    assert(has_id(objs0, p[qb]));
                    lemma_same_shape_resolution(objs0, objs2, p2[a]);
                    lemma_same_shape_resolution(objs0, objs2, p2[b]);
                }
            }
        }
    }
}

/// What entry `i` of the registry becomes once the first `upto` enable
/// requests have been applied: an activator that some request targets and
/// whose pending set was not yet seeded this round is enabled and seeded;
/// everything else — notes, already-seeded activators (enabled or run dry),
/// and untargeted ones — is untouched.
pub open spec fn enable_step(
    objs: Seq<GameObject>,
    evs: Seq<ActivatorEnabledEvent>,
    upto: int,
    i: int,
    o: GameObject,
) -> bool {
    if objs[i].is_activator() && !objs[i].activator().seeded && targeted(evs, upto, objs[i].id) {
        activated_obj(objs, i, o)
    } else {
        o == objs[i]
    }
}

impl Engine {
    /// Apply a batch of enable requests in order, each through
    /// [`Engine::activate_activator`]. Outside the execution phase every
    /// request is dropped and nothing changes.
    pub fn apply_enable_requests(&mut self, enables: &Vec<ActivatorEnabledEvent>)
        requires
            old(self).wf(),
        ensures
            final(self).wf(),
            final(self).phase == old(self).phase,
            final(self).config == old(self).config,
            final(self).next_id == old(self).next_id,
            final(self).objects@.len() == old(self).objects@.len(),
            old(self).phase !is Execute ==> *final(self) == *old(self),
            old(self).phase is Execute ==> forall|i: int|
                0 <= i < old(self).objects@.len() ==> enable_step(
                    old(self).objects@,
                    enables@,
                    enables@.len() as int,
                    i,
                    #[trigger] final(self).objects@[i],
                ),
    {
        if !(self.phase == GameState::Execute) {
            return ;
        }
        let ghost objs0 = old(self).objects@;
        let m = enables.len();
        let mut k: usize = 0;
        while k < m
            invariant
                old(self).wf(),
                old(self).phase is Execute,
                objs0 == old(self).objects@,
                m == enables@.len(),
                k <= m,
                self.wf(),
                self.phase == old(self).phase,
                self.config == old(self).config,
                self.next_id == old(self).next_id,
                self.objects@.len() == objs0.len(),
                same_shape(objs0, self.objects@),
                forall|i: int|
                    0 <= i < objs0.len() ==> enable_step(
                        objs0,
                        enables@,
                        k as int,
                        i,
                        #[trigger] self.objects@[i],
                    ),
            decreases m - k,
        {
            let ev = enables[k];
            let ghost cur = *self;
            self.activate_activator(&ev);
            proof {
                let target = ev.target;
                let news = self.objects@;
                assert(same_shape(self.objects@, cur.objects@)) by {
                    assert forall|q: int|
                        0 <= q < objs0.len() implies (#[trigger] news[q]).id == cur.objects@[q].id
                            && news[q].pos == cur.objects@[q].pos by {
                        if !(cur.phase is Execute && has_id(cur.objects@, target) && obj_at(
                            cur.objects@,
                            target,
                        ).is_activator() && !obj_at(cur.objects@, target).activator().seeded) {
                            assert(*self == cur);
                        } else {
                            let t = idx_of(cur.objects@, target);
                            if q != t {
                                assert(news[q] == cur.objects@[q]);
                            } else {
                                assert(activated_obj(cur.objects@, t, news[t]));
                            }
                        }
                    }
                }
                assert(same_shape(objs0, news));
                assert forall|i: int|
                    0 <= i < objs0.len() implies enable_step(
                    objs0,
                    enables@,
                    k + 1,
                    i,
                    #[trigger] news[i],
                ) by {
                    lemma_idx_of_unique(objs0, i);
                    lemma_same_shape_resolution(objs0, cur.objects@, objs0[i].id);
                    let guard_now = objs0[i].is_activator() && !objs0[i].activator().seeded
                        && targeted(enables@, k + 1, objs0[i].id);
                    let guard_before = objs0[i].is_activator() && !objs0[i].activator().seeded
                        && targeted(enables@, k as int, objs0[i].id);
                    assert(enable_step(objs0, enables@, k as int, i, cur.objects@[i]));
                    if targeted(enables@, k as int, objs0[i].id) {
                        assert(targeted(enables@, k + 1, objs0[i].id)) by {
                            let w = choose|w: int|
                                0 <= w < k && (#[trigger] enables@[w]).target == objs0[i].id;
                            assert(enables@[w].target == objs0[i].id);
                        }
                    }
                    if cur.phase is Execute && has_id(cur.objects@, target) && obj_at(
                        cur.objects@,
                        target,
                    ).is_activator() && !obj_at(cur.objects@, target).activator().seeded {
                        // the request fired on entry t of the current state
                        let t = idx_of(cur.objects@, target);
                        lemma_idx_of(cur.objects@, target);
                        lemma_same_shape_resolution(objs0, cur.objects@, target);
                        assert(activated_obj(cur.objects@, t, news[t]));
                        assert(enable_step(objs0, enables@, k as int, t, cur.objects@[t]));
                        if i == t {
                            assert(objs0[t].id == target);
                            assert(targeted(enables@, k + 1, objs0[t].id)) by {
                                assert(enables@[k as int].target == objs0[t].id);
                            }
                            assert(cur.objects@[t] == objs0[t]);
                            assert(guard_now);
                            assert(activated_obj(cur.objects@, t, news[t]));
                            assert(seeded_ok(
                                cur.objects@,
                                cur.objects@[t],
                                news[t].activator().pending.0@,
                            ));
                            lemma_same_shape_seeded_ok(
                                cur.objects@,
                                objs0,
                                cur.objects@[t],
                                news[t].activator().pending.0@,
                            );
                            assert(activated_obj(objs0, t, news[t]));
                        } else {
                            assert(news[i] == cur.objects@[i]);
                            if guard_now && !guard_before {
                                // newly targeted by request k, yet not the entry it fired on
                                assert(enables@[k as int].target == objs0[i].id);
                                assert(objs0[i].id == target);
                                assert(idx_of(objs0, target) == i);
                                assert(idx_of(cur.objects@, target) == idx_of(objs0, target));
                                assert(false);
                            }
                        }
                    } else {
                        // the request was dropped: stale target, note target,
                        // or an already-seeded activator
                        assert(*self == cur);
                        if guard_now && !guard_before {
                            assert(enables@[k as int].target == objs0[i].id);
                            assert(has_id(objs0, target));
                            assert(idx_of(objs0, target) == i);
                            lemma_same_shape_resolution(objs0, cur.objects@, target);
                            lemma_idx_of(cur.objects@, target);
                            assert(obj_at(cur.objects@, target) == cur.objects@[i]);
                            assert(enable_step(objs0, enables@, k as int, i, cur.objects@[i]));
                            assert(cur.objects@[i] == objs0[i]);
                            assert(obj_at(cur.objects@, target).is_activator());
                            assert(!obj_at(cur.objects@, target).activator().seeded);
                            assert(false);
                        }
                    }
                }
            }
            k = k + 1;
        }
    }

    /// The completion pass: disable every enabled activator whose pending
    /// set has emptied, and report whether every activator's pending set is
    /// now empty — the round-complete condition.
    pub fn check_all_played(&mut self) -> (all_done: bool)
        requires
            old(self).wf(),
        ensures
            final(self).wf(),
            final(self).phase == old(self).phase,
            final(self).config == old(self).config,
            final(self).next_id == old(self).next_id,
            final(self).objects@.len() == old(self).objects@.len(),
            all_done == all_clear(old(self).objects@),
            forall|i: int|
                0 <= i < old(self).objects@.len() ==> completion_step(
                    old(self).objects@,
                    i,
                    #[trigger] final(self).objects@[i],
                ),
            all_done ==> forall|i: int|
                0 <= i < final(self).objects@.len() && (#[trigger] final(self).objects@[i]).is_activator()
                    ==> final(self).objects@[i].activator().state is Disabled,
    {
        let ghost objs0 = old(self).objects@;
        let n = self.objects.len();
        let mut all_done = true;
        let mut i: usize = 0;
        while i < n
            invariant
                old(self).wf(),
                objs0 == old(self).objects@,
                n == objs0.len(),
                i <= n,
                self.phase == old(self).phase,
                self.config == old(self).config,
                self.next_id == old(self).next_id,
                self.objects@.len() == n,
                all_done == (forall|q: int|
                    0 <= q < i && (#[trigger] objs0[q]).is_activator()
                        && objs0[q].activator().state is Enabled
                        ==> objs0[q].activator().pending.0@.len() == 0),
                forall|q: int|
                    0 <= q < i ==> completion_step(objs0, q, #[trigger] self.objects@[q]),
                forall|q: int| i <= q < n ==> #[trigger] self.objects@[q] == objs0[q],
            decreases n - i,
        {
            let mut enabled_empty = false;
            let mut enabled_nonempty = false;
            match &self.objects[i].kind {
                ObjectKind::Activator(a) => {
                    if a.state.is_active() {
                        if a.pending.0.len() == 0 {
                            enabled_empty = true;
                        } else {
                            enabled_nonempty = true;
                        }
                    }
                },
                ObjectKind::Note => {},
            }
            if enabled_nonempty {
                all_done = false;
            }
            if enabled_empty {
                let oid = self.objects[i].id;
                let opos = self.objects[i].pos;
                let mut replacement: Option<GameObject> = None;
                match &self.objects[i].kind {
                    ObjectKind::Activator(a) => {
                        replacement = Some(
                            GameObject {
                                id: oid,
                                pos: opos,
                                kind: ObjectKind::Activator(
                                    Activator {
                                        typ: a.typ,
                                        state: ActivatorState::Disabled,
                                        size: ActivatorSize(0),
                                        seeded: a.seeded,
                                        pending: InactivatedObjects(Vec::new()),
                                        color: a.color,
                                    },
                                ),
                            },
                        );
                    },
                    ObjectKind::Note => {},
                }
                match replacement {
                    Some(v) => {
                        self.objects[i] = v;
                    },
                    None => {},
                }
            }
            i = i + 1;
        }
        proof {
            let objs2 = self.objects@;
            assert(same_shape(objs0, objs2));
            assert forall|a: int, b: int|
                0 <= a < b < objs2.len() implies (#[trigger] objs2[a]).id != (#[trigger] objs2[b]).id by {
                assert(objs0[a].id != objs0[b].id);
            }
            assert forall|q: int|
                0 <= q < objs2.len() && (#[trigger] objs2[q]).is_activator()
                    implies activator_ok(objs2, objs2[q]) by {
                assert(objs0[q].is_activator());
                assert(activator_ok(objs0, objs0[q]));
                assert(completion_step(objs0, q, objs2[q]));
                if objs2[q] == objs0[q] {
                    lemma_same_shape_preserves_pending(objs0, objs2, objs2[q]);
                }
            }
        }
        all_done
    }

    /// Consume the round-complete signal: once every activator has run dry,
    /// the game returns to build mode.
    pub fn handle_all_played(&mut self, all_done: bool)
        requires
            old(self).wf(),
            all_done ==> forall|i: int|
                0 <= i < old(self).objects@.len() && (#[trigger] old(self).objects@[i]).is_activator()
                    ==> old(self).objects@[i].activator().state is Disabled,
        ensures
            final(self).wf(),
            final(self).objects@ == old(self).objects@,
            final(self).config == old(self).config,
            final(self).next_id == old(self).next_id,
            final(self).phase == (if all_done && old(self).phase is Execute {
                GameState::Build
            } else {
                old(self).phase
            }),
    {
        if all_done && self.phase == GameState::Execute {
            self.phase = GameState::Build;
        }
        proof {
            if all_done {
                assert forall|i: int|
                    0 <= i < self.objects@.len() && (#[trigger] self.objects@[i]).is_activator()
                        implies self.objects@[i].activator().state is Disabled by {
                    assert(old(self).objects@[i].is_activator());
                }
            }
        }
    }
}

impl Engine {
    /// Begin an execution round: every main activator is force-enabled with
    /// a freshly seeded pending set and radius zero, with no originating
    /// source. All seeded marks of the previous round are cleared first, so
    /// the round starts from scratch.
    pub fn enter_execution(&mut self)
        requires
            old(self).wf(),
            old(self).phase is Build,
        ensures
            final(self).wf(),
            final(self).phase is Execute,
            final(self).config == old(self).config,
            final(self).next_id == old(self).next_id,
            final(self).objects@.len() == old(self).objects@.len(),
            forall|i: int|
                0 <= i < old(self).objects@.len() && !(#[trigger] old(self).objects@[i]).is_activator()
                    ==> final(self).objects@[i] == old(self).objects@[i],
            forall|i: int|
                0 <= i < old(self).objects@.len() && (#[trigger] old(self).objects@[i]).is_activator()
                    && old(self).objects@[i].activator().typ is Main ==> activated_obj(
                    old(self).objects@,
                    i,
                    final(self).objects@[i],
                ),
            forall|i: int|
                0 <= i < old(self).objects@.len() && (#[trigger] old(self).objects@[i]).is_activator()
                    && old(self).objects@[i].activator().typ !is Main ==> cleared_like(
                    final(self).objects@[i],
                    old(self).objects@[i],
                    false,
                ),
    {
        let ghost objs0 = old(self).objects@;
        let n = self.objects.len();
        // clear the seeded marks of the previous round
        let mut i: usize = 0;
        while i < n
            invariant
                old(self).wf(),
                objs0 == old(self).objects@,
                n == objs0.len(),
                i <= n,
                self.phase == old(self).phase,
                self.config == old(self).config,
                self.next_id == old(self).next_id,
                self.objects@.len() == n,
                forall|k: int|
                    0 <= k < i && !(#[trigger] objs0[k]).is_activator()
                        ==> self.objects@[k] == objs0[k],
                forall|k: int|
                    0 <= k < i && (#[trigger] objs0[k]).is_activator() ==> cleared_like(
                        self.objects@[k],
                        objs0[k],
                        false,
                    ),
                forall|k: int| i <= k < n ==> #[trigger] self.objects@[k] == objs0[k],
            decreases n - i,
        {
            let oid = self.objects[i].id;
            let opos = self.objects[i].pos;
            let mut replacement: Option<GameObject> = None;
            match &self.objects[i].kind {
                ObjectKind::Activator(a) => {
                    replacement = Some(
                        GameObject {
                            id: oid,
                            pos: opos,
                            kind: ObjectKind::Activator(
                                Activator {
                                    typ: a.typ,
                                    state: ActivatorState::Disabled,
                                    size: ActivatorSize(0),
                                    seeded: false,
                                    pending: InactivatedObjects(Vec::new()),
                                    color: a.color,
                                },
                            ),
                        },
                    );
                },
                ObjectKind::Note => {},
            }
            match replacement {
                Some(v) => {
                    proof {
                        assert(activator_ok(objs0, objs0[i as int]));
                    }
                    self.objects[i] = v;
                },
                None => {},
            }
            i = i + 1;
        }
        self.phase = GameState::Execute;
        let ghost mid = *self;
        proof {
            assert(same_shape(objs0, mid.objects@));
            assert forall|a: int, b: int|
                0 <= a < b < n implies (#[trigger] mid.objects@[a]).id != (#[trigger] mid.objects@[b]).id by {
                assert(objs0[a].id != objs0[b].id);
            }
            assert forall|k: int|
                0 <= k < n && (#[trigger] mid.objects@[k]).is_activator()
                    implies activator_ok(mid.objects@, mid.objects@[k]) by {
                assert(objs0[k].is_activator());
            }
            assert(self.wf());
        }
        // force-enable every main activator, seeding its pending set
        let mut i2: usize = 0;
        while i2 < n
            invariant
                old(self).wf(),
                objs0 == old(self).objects@,
                n == objs0.len(),
                i2 <= n,
                mid.objects@.len() == n,
                same_shape(objs0, mid.objects@),
                ids_unique(mid.objects@),
                mid.phase is Execute,
                mid.config == old(self).config,
                mid.next_id == old(self).next_id,
                forall|k: int|
                    0 <= k < n && !(#[trigger] objs0[k]).is_activator()
                        ==> mid.objects@[k] == objs0[k],
                forall|k: int|
                    0 <= k < n && (#[trigger] objs0[k]).is_activator() ==> cleared_like(
                        mid.objects@[k],
                        objs0[k],
                        false,
                    ),
                self.wf(),
                self.phase == mid.phase,
                self.config == mid.config,
                self.next_id == mid.next_id,
                self.objects@.len() == n,
                same_shape(mid.objects@, self.objects@),
                forall|k: int|
                    0 <= k < i2 && (#[trigger] objs0[k]).is_activator()
                        && objs0[k].activator().typ is Main ==> activated_obj(
                        mid.objects@,
                        k,
                        self.objects@[k],
                    ),
                forall|k: int|
                    !(0 <= k < i2 && (#[trigger] objs0[k]).is_activator()
                        && objs0[k].activator().typ is Main) && 0 <= k < n
                        ==> self.objects@[k] == mid.objects@[k],
            decreases n - i2,
        {
            let mut is_main = false;
            match &self.objects[i2].kind {
                ObjectKind::Activator(a) => {
                    is_main = match a.typ {
                        ActivatorType::Main => true,
                        ActivatorType::Passive => false,
                    };
                },
                ObjectKind::Note => {},
            }
            if is_main {
                let target = self.objects[i2].id;
                let ghost cur = *self;
                proof {
                    lemma_idx_of_unique(cur.objects@, i2 as int);
                    assert(cur.objects@[i2 as int] == mid.objects@[i2 as int]);
                    assert(cleared_like(mid.objects@[i2 as int], objs0[i2 as int], false));
                }
                let ev = ActivatorEnabledEvent { source: None, target };
                self.activate_activator(&ev);
                proof {
                    assert(idx_of(cur.objects@, target) == i2 as int);
                    assert(activated_obj(cur.objects@, i2 as int, self.objects@[i2 as int]));
                    assert(same_shape(cur.objects@, mid.objects@)) by {
                        assert forall|q: int|
                            0 <= q < n implies (#[trigger] cur.objects@[q]).id
                                == mid.objects@[q].id && cur.objects@[q].pos
                                == mid.objects@[q].pos by {}
                    }
                    assert(seeded_ok(
                        cur.objects@,
                        cur.objects@[i2 as int],
                        self.objects@[i2 as int].activator().pending.0@,
                    ));
                    lemma_same_shape_seeded_ok(
                        cur.objects@,
                        mid.objects@,
                        cur.objects@[i2 as int],
                        self.objects@[i2 as int].activator().pending.0@,
                    );
                    assert(activated_obj(mid.objects@, i2 as int, self.objects@[i2 as int]));
                    assert(same_shape(mid.objects@, self.objects@)) by {
                        assert forall|q: int|
                            0 <= q < n implies (#[trigger] self.objects@[q]).id
                                == mid.objects@[q].id && self.objects@[q].pos
                                == mid.objects@[q].pos by {
                            if q != i2 as int {
                                assert(self.objects@[q] == cur.objects@[q]);
                            }
                        }
                    }
                }
            }
            i2 = i2 + 1;
        }
        proof {
            assert forall|i: int|
                0 <= i < n && (#[trigger] objs0[i]).is_activator()
                    && objs0[i].activator().typ is Main implies activated_obj(
                objs0,
                i,
                self.objects@[i],
            ) by {
                assert(activated_obj(mid.objects@, i, self.objects@[i]));
                assert(cleared_like(mid.objects@[i], objs0[i], false));
                lemma_same_shape_seeded_ok(
                    mid.objects@,
                    objs0,
                    mid.objects@[i],
                    self.objects@[i].activator().pending.0@,
                );
            }
        }
    }
}

/// Every enabled activator's pending set is empty: the round is complete.
pub open spec fn all_clear(objs: Seq<GameObject>) -> bool {
    forall|i: int|
        0 <= i < objs.len() && (#[trigger] objs[i]).is_activator() && objs[i].activator().state
            is Enabled ==> objs[i].activator().pending.0@.len() == 0
}

/// What entry `i` of the registry becomes in the completion pass: an
/// enabled activator whose pending set has emptied is disabled (its seeded
/// mark kept, so it is not re-seeded this round); everything else is
/// untouched.
pub open spec fn completion_step(objs: Seq<GameObject>, i: int, o: GameObject) -> bool {
    if objs[i].is_activator() && objs[i].activator().state is Enabled
        && objs[i].activator().pending.0@.len() == 0 {
        disabled_from(o, objs[i])
    } else {
        o == objs[i]
    }
}

/// `o` carries the same data as `orig`: the same identity, position and
/// kind, and for an activator the same state fields and the same pending
/// entries.
pub open spec fn entry_eq(o: GameObject, orig: GameObject) -> bool {
    if orig.is_activator() {
        &&& o.id == orig.id
        &&& o.pos == orig.pos
        &&& o.is_activator()
        &&& o.activator().typ == orig.activator().typ
        &&& o.activator().color == orig.activator().color
        &&& o.activator().state == orig.activator().state
        &&& o.activator().size == orig.activator().size
        &&& o.activator().seeded == orig.activator().seeded
        &&& o.activator().pending.0@ == orig.activator().pending.0@
    } else {
        o == orig
    }
}

/// The pending set an activator entry holds after one full step: what
/// survives the removal of everything its own scan activated.
pub open spec fn tick_pending_after(
    objs: Seq<GameObject>,
    elapsed: u64,
    grow: u64,
    i: int,
) -> Seq<ObjectId> {
    let acts = classified(
        tick_notes(objs, elapsed, grow, objs.len() as int),
        tick_enables(objs, elapsed, grow, objs.len() as int),
    );
    retained(
        acts,
        objs[i].id,
        objs[i].activator().pending.0@,
        objs[i].activator().pending.0@.len() as int,
    )
}

/// What entry `i` of the registry becomes over one full simulation step, as
/// the composition of the five pipeline stages:
/// - a note is untouched;
/// - an enabled activator grows, fires, loses what it fired at from its
///   pending set, and is disabled (radius zero) once that set empties;
/// - a disabled activator that was already seeded this round stays as it is,
///   even if another circle reaches it again;
/// - a disabled, unseeded activator reached by some circle this step is
///   enabled and seeded — or, when no other object exists so its fresh
///   pending set would be empty, immediately disabled again;
/// - any other entry is untouched.
pub open spec fn tick_step(
    objs: Seq<GameObject>,
    elapsed: u64,
    grow: u64,
    i: int,
    o: GameObject,
) -> bool {
    let ens = tick_enables(objs, elapsed, grow, objs.len() as int);
    if !objs[i].is_activator() {
        o == objs[i]
    } else {
        let a = objs[i].activator();
        if a.state is Enabled {
            let p2 = tick_pending_after(objs, elapsed, grow, i);
            if p2.len() == 0 {
                cleared_like(o, objs[i], a.seeded)
            } else {
                &&& o.id == objs[i].id
                &&& o.pos == objs[i].pos
                &&& o.is_activator()
                &&& o.activator().typ == a.typ
                &&& o.activator().color == a.color
                &&& o.activator().state is Enabled
                &&& o.activator().seeded == a.seeded
                &&& o.activator().size.0 == grown(a.size.0, elapsed, grow)
                &&& o.activator().pending.0@ == p2
            }
        } else if a.seeded || !targeted(ens, ens.len() as int, objs[i].id) {
            entry_eq(o, objs[i])
        } else if objs.len() >= 2 {
            activated_obj(objs, i, o)
        } else {
            cleared_like(o, objs[i], true)
        }
    }
}

/// The round completes on this step: every enabled activator's pending set
/// empties, and every activator newly reached this step has nothing left to
/// aim at (no other object exists).
pub open spec fn tick_completes(objs: Seq<GameObject>, elapsed: u64, grow: u64) -> bool {
    let ens = tick_enables(objs, elapsed, grow, objs.len() as int);
    forall|i: int|
        0 <= i < objs.len() && (#[trigger] objs[i]).is_activator() ==> ({
            let a = objs[i].activator();
            &&& (a.state is Enabled ==> tick_pending_after(objs, elapsed, grow, i).len() == 0)
            &&& ((a.state is Disabled && !a.seeded && targeted(ens, ens.len() as int, objs[i].id))
                ==> objs.len() < 2)
        })
}

impl Engine {
    /// One simulation step, in the fixed pipeline order: (1) growth and
    /// crossing detection for every enabled activator, (2) classification of
    /// the emitted events, (3) pending-set removal, (4) enable requests
    /// applied, (5) completion detection. Crossing detection never observes
    /// a pending set seeded later in the same step: seeding is deferred to
    /// stage four even though the triggering crossing was found in stage
    /// one. Outside the execution phase a step changes nothing and reports
    /// nothing.
    ///
    /// The report carries every note played this step, in detection order,
    /// and whether the round completed; on completion the game returns to
    /// build mode.
    pub fn tick(&mut self, elapsed: u64) -> (report: TickReport)
        requires
            old(self).wf(),
        ensures
            final(self).wf(),
            final(self).config == old(self).config,
            final(self).next_id == old(self).next_id,
            final(self).objects@.len() == old(self).objects@.len(),
            old(self).phase !is Execute ==> *final(self) == *old(self) && report.notes@.len() == 0
                && !report.round_complete,
            old(self).phase is Execute ==> ({
                let objs0 = old(self).objects@;
                let grow = old(self).config.grow_factor;
                &&& report.notes@ == tick_notes(objs0, elapsed, grow, objs0.len() as int)
                &&& forall|i: int|
                    0 <= i < objs0.len() ==> tick_step(
                        objs0,
                        elapsed,
                        grow,
                        i,
                        #[trigger] final(self).objects@[i],
                    )
                &&& report.round_complete == tick_completes(objs0, elapsed, grow)
                &&& final(self).phase == (if tick_completes(objs0, elapsed, grow) {
                    GameState::Build
                } else {
                    GameState::Execute
                })
            }),
    {
        if !(self.phase == GameState::Execute) {
            return TickReport { notes: Vec::new(), round_complete: false };
        }
        let ghost objs0 = old(self).objects@;
        let ghost grow = old(self).config.grow_factor;
        let ghost n = objs0.len() as int;
        let (notes, enables) = self.execute_activator_and_check_collisions(elapsed);
        let ghost s1 = self.objects@;
        let activated = collect_activation_events(&notes, &enables);
        self.handle_object_activated(&activated);
        let ghost s2 = self.objects@;
        self.apply_enable_requests(&enables);
        let ghost s3 = self.objects@;
        let all_done = self.check_all_played();
        let ghost s4 = self.objects@;
        proof {
            let nts = tick_notes(objs0, elapsed, grow, n);
            let ens = tick_enables(objs0, elapsed, grow, n);
            let acts = classified(nts, ens);
            assert(activated@ == acts);
            // compose the per-stage contracts into the per-step contract
            assert forall|i: int| 0 <= i < n implies tick_step(
                objs0,
                elapsed,
                grow,
                i,
                #[trigger] s4[i],
            ) by {
                assert(grown_step(objs0, i, elapsed, grow, s1[i]));
                assert(removal_step(s1, acts, i, s2[i]));
                assert(enable_step(s2, ens, ens.len() as int, i, s3[i]));
                assert(completion_step(s3, i, s4[i]));
                if !objs0[i].is_activator() {
                    assert(s4[i] == objs0[i]);
                } else {
                    let a = objs0[i].activator();
                    assert(s1[i].activator().pending.0@ == a.pending.0@);
                    let p2 = tick_pending_after(objs0, elapsed, grow, i);
                    assert(s2[i].activator().pending.0@ == p2);
                    assert(s2[i].activator().state == a.state);
                    assert(s2[i].activator().seeded == a.seeded);
                    assert(s2[i].id == objs0[i].id);
                    if a.state is Enabled {
                        assert(s3[i] == s2[i]);
                        if p2.len() == 0 {
                            assert(disabled_from(s4[i], s3[i]));
                            assert(cleared_like(s4[i], objs0[i], a.seeded));
                        } else {
                            assert(s4[i] == s3[i]);
                            assert(s2[i].activator().size.0 == grown(a.size.0, elapsed, grow));
                        }
                    } else {
                        assert(a.pending.0@.len() == 0);
                        assert(p2 =~= Seq::<ObjectId>::empty());
                        assert(s2[i].activator().pending.0@ =~= a.pending.0@);
                        assert(entry_eq(s2[i], objs0[i]));
                        if a.seeded || !targeted(ens, ens.len() as int, objs0[i].id) {
                            assert(s3[i] == s2[i]);
                            assert(s4[i] == s3[i]);
                            assert(entry_eq(s4[i], objs0[i]));
                        } else {
                            assert(activated_obj(s2, i, s3[i]));
                            assert(same_shape(objs0, s2)) by {
                                assert forall|q: int|
                                    0 <= q < n implies (#[trigger] s2[q]).id == objs0[q].id
                                        && s2[q].pos == objs0[q].pos by {
                                    assert(grown_step(objs0, q, elapsed, grow, s1[q]));
                                    assert(removal_step(s1, acts, q, s2[q]));
                                }
                            }
                            assert(same_shape(s2, objs0));
                            assert(ids_unique(s2)) by {
                                assert forall|x: int, y: int|
                                    0 <= x < y < n implies (#[trigger] s2[x]).id != (
                                    #[trigger] s2[y]).id by {
                                    assert(objs0[x].id != objs0[y].id);
                                }
                            }
                            lemma_same_shape_seeded_ok(
                                s2,
                                objs0,
                                s2[i],
                                s3[i].activator().pending.0@,
                            );
                            assert(seeded_ok(objs0, objs0[i], s3[i].activator().pending.0@)) by {
                                assert(objs0[i].id == s2[i].id && objs0[i].pos == s2[i].pos);
                            }
                            assert(activated_obj(objs0, i, s3[i]));
                            if n >= 2 {
                                // a fresh pending set is non-empty: some other object exists
                                let other: int = if i == 0 {
                                    1
                                } else {
                                    0
                                };
                                assert(has_id(objs0, objs0[other].id));
                                assert(objs0[other].id != objs0[i].id);
                                assert(s3[i].activator().pending.0@.contains(objs0[other].id));
                                assert(s3[i].activator().pending.0@.len() > 0);
                                assert(s4[i] == s3[i]);
                                assert(activated_obj(objs0, i, s4[i]));
                            } else {
                                assert forall|x: ObjectId|
                                    !(#[trigger] s3[i].activator().pending.0@.contains(x)) by {
                                    if has_id(objs0, x) && x != objs0[i].id {
                                        lemma_idx_of(objs0, x);
                                        assert(idx_of(objs0, x) == i);
                                        assert(false);
                                    }
                                }
                                assert(s3[i].activator().pending.0@.len() == 0) by {
                                    if s3[i].activator().pending.0@.len() > 0 {
                                        assert(s3[i].activator().pending.0@.contains(
                                            s3[i].activator().pending.0@[0],
                                        ));
                                    }
                                }
                                assert(disabled_from(s4[i], s3[i]));
                                assert(cleared_like(s4[i], objs0[i], true));
                            }
                        }
                    }
                }
            }
            // completion: every enabled activator ran dry and nothing newly
            // reached has anywhere to go
            assert(all_clear(s3) == tick_completes(objs0, elapsed, grow)) by {
                if all_clear(s3) {
                    assert forall|i: int|
                        0 <= i < n && (#[trigger] objs0[i]).is_activator() implies ({
                        let a = objs0[i].activator();
                        &&& (a.state is Enabled ==> tick_pending_after(
                            objs0,
                            elapsed,
                            grow,
                            i,
                        ).len() == 0)
                        &&& ((a.state is Disabled && !a.seeded && targeted(
                            ens,
                            ens.len() as int,
                            objs0[i].id,
                        )) ==> n < 2)
                    }) by {
                        assert(grown_step(objs0, i, elapsed, grow, s1[i]));
                        assert(removal_step(s1, acts, i, s2[i]));
                        assert(enable_step(s2, ens, ens.len() as int, i, s3[i]));
                        let a = objs0[i].activator();
                        if a.state is Enabled {
                            assert(s3[i] == s2[i]);
                            assert(s3[i].is_activator()
                                && s3[i].activator().state is Enabled);
                            assert(s3[i].activator().pending.0@.len() == 0);
                        }
                        if a.state is Disabled && !a.seeded && targeted(
                            ens,
                            ens.len() as int,
                            objs0[i].id,
                        ) && n >= 2 {
                            assert(activated_obj(s2, i, s3[i]));
                            assert(s3[i].activator().state is Enabled);
                            assert(s3[i].activator().pending.0@.len() == 0);
                            // but a fresh pending set over two or more
                            // objects cannot be empty
                            assert(same_shape(objs0, s2)) by {
                                assert forall|q: int|
                                    0 <= q < n implies (#[trigger] s2[q]).id == objs0[q].id
                                        && s2[q].pos == objs0[q].pos by {
                                    assert(grown_step(objs0, q, elapsed, grow, s1[q]));
                                    assert(removal_step(s1, acts, q, s2[q]));
                                }
                            }
                            let other: int = if i == 0 {
                                1
                            } else {
                                0
                            };
                            assert(has_id(s2, s2[other].id));
                            assert(s2[other].id != s2[i].id) by {
                                assert(objs0[other].id != objs0[i].id);
                            }
                            assert(s3[i].activator().pending.0@.contains(s2[other].id));
                            assert(false);
                        }
                    }
                } else {
                    let i = choose|i: int|
                        0 <= i < n && (#[trigger] s3[i]).is_activator()
                            && s3[i].activator().state is Enabled
                            && s3[i].activator().pending.0@.len() != 0;
                    assert(grown_step(objs0, i, elapsed, grow, s1[i]));
                    assert(removal_step(s1, acts, i, s2[i]));
                    assert(enable_step(s2, ens, ens.len() as int, i, s3[i]));
                    assert(objs0[i].is_activator());
                    let a = objs0[i].activator();
                    if a.state is Enabled {
                        assert(s3[i] == s2[i]);
                        assert(tick_pending_after(objs0, elapsed, grow, i).len() != 0);
                        assert(!tick_completes(objs0, elapsed, grow));
                    } else {
                        // an activator that is enabled in the final state but
                        // was disabled at the start must have been newly
                        // seeded, with somewhere to go
                        assert(activated_obj(s2, i, s3[i]));
                        assert(!a.seeded && targeted(ens, ens.len() as int, objs0[i].id));
                        assert(s3[i].activator().pending.0@.len() != 0);
                        if n < 2 {
                            assert(same_shape(objs0, s2)) by {
                                assert forall|q: int|
                                    0 <= q < n implies (#[trigger] s2[q]).id == objs0[q].id
                                        && s2[q].pos == objs0[q].pos by {
                                    assert(grown_step(objs0, q, elapsed, grow, s1[q]));
                                    assert(removal_step(s1, acts, q, s2[q]));
                                }
                            }
                            let x = s3[i].activator().pending.0@[0];
                            assert(s3[i].activator().pending.0@.contains(x));
                            assert(has_id(s2, x) && x != s2[i].id);
                            lemma_idx_of(s2, x);
                            assert(idx_of(s2, x) == i);
                            assert(false);
                        }
                        assert(!tick_completes(objs0, elapsed, grow));
                    }
                }
            }
        }
        self.handle_all_played(all_done);
        TickReport { notes, round_complete: all_done }
    }
}

/// What the editor places on a click.
#[derive(Clone, Copy, Debug, PartialEq, Eq, Structural)]
pub enum SelectedItem {
    Trigger,
    Note,
}

impl SelectedItem {
    /// The other placeable item.
    pub fn switch(&self) -> (r: SelectedItem)
        ensures
            r == (if *self is Trigger {
                SelectedItem::Note
            } else {
                SelectedItem::Trigger
            }),
    {
        match self {
            SelectedItem::Trigger => SelectedItem::Note,
            SelectedItem::Note => SelectedItem::Trigger,
        }
    }

    /// The label shown for this item.
    pub fn name(&self) -> (r: String)
        ensures
            *self is Trigger ==> r@ == "Trigger"@,
            *self is Note ==> r@ == "Note"@,
    {
        match self {
            SelectedItem::Trigger => {
                let s = "Trigger".to_string();
                proof {
                    vstd::string::to_string_from_display_ensures_for_str("Trigger", s);
                }
                s
            },
            SelectedItem::Note => {
                let s = "Note".to_string();
                proof {
                    vstd::string::to_string_from_display_ensures_for_str("Note", s);
                }
                s
            },
        }
    }
}

/// Whether registry entry `o` survives a delete click at `target` with pick
/// radius `r`: everything strictly within the radius is removed, except a
/// main activator, which cannot be deleted.
pub open spec fn survives_delete(o: GameObject, target: Position, r: u64) -> bool {
    !(dist_sq(o.pos, target) < r * r) || (o.is_activator() && o.activator().typ is Main)
}

/// The first `j` registry entries that survive a delete click, in order.
pub open spec fn kept_objects(
    objs: Seq<GameObject>,
    target: Position,
    r: u64,
    j: int,
) -> Seq<GameObject>
    decreases j,
{
    if j <= 0 {
        Seq::empty()
    } else {
        let pre = kept_objects(objs, target, r, j - 1);
        if survives_delete(objs[j - 1], target, r) {
            pre.push(objs[j - 1])
        } else {
            pre
        }
    }
}

impl Engine {
    /// Place the selected item at a position: a note, or a passive activator
    /// in the given colour. The editor runs only outside the execution
    /// phase.
    pub fn place_object(&mut self, item: SelectedItem, pos: Position, color: ActivatorColor) -> (id:
        ObjectId)
        requires
            old(self).wf(),
            old(self).phase !is Execute,
            in_world(pos),
            old(self).next_id < u64::MAX,
        ensures
            final(self).wf(),
            id == old(self).next_id,
            final(self).objects@.len() == old(self).objects@.len() + 1,
            forall|k: int|
                0 <= k < old(self).objects@.len()
                    ==> final(self).objects@[k] == old(self).objects@[k],
            ({
                let o = final(self).objects@.last();
                &&& o.id == id
                &&& o.pos == pos
                &&& (item is Note ==> o.is_note())
                &&& (item is Trigger ==> o.is_activator() && o.activator().typ is Passive
                    && o.activator().state is Disabled && o.activator().size.0 == 0
                    && !o.activator().seeded && o.activator().pending.0@.len() == 0
                    && o.activator().color == color)
            }),
            final(self).phase == old(self).phase,
            final(self).config == old(self).config,
            final(self).next_id == old(self).next_id + 1,
    {
        match item {
            SelectedItem::Note => self.add_note(pos),
            SelectedItem::Trigger => self.add_activator(pos, ActivatorType::Passive, color),
        }
    }

    /// Delete every object strictly within `pick_radius` of a click at
    /// `target` — except main activators, which cannot be removed. The
    /// editor runs only in build mode.
    pub fn delete_object(&mut self, target: Position, pick_radius: u64)
        requires
            old(self).wf(),
            old(self).phase is Build,
            in_world(target),
            pick_radius <= SIZE_CAP,
        ensures
            final(self).wf(),
            final(self).phase == old(self).phase,
            final(self).config == old(self).config,
            final(self).next_id == old(self).next_id,
            final(self).objects@ == kept_objects(
                old(self).objects@,
                target,
                pick_radius,
                old(self).objects@.len() as int,
            ),
    {
        let ghost objs0 = self.objects@;
        let ghost n = objs0.len() as int;
        let mut i: usize = 0;
        let ghost mut j: int = 0;
        proof {
            assert(pick_radius * pick_radius <= 9_000_000_000_000_000_000) by (nonlinear_arith)
                requires pick_radius <= 3_000_000_000u64;
        }
        let rr = pick_radius * pick_radius;
        while i < self.objects.len()
            invariant
                old(self).wf(),
                objs0 == old(self).objects@,
                n == objs0.len(),
                0 <= j <= n,
                self.phase == old(self).phase,
                self.config == old(self).config,
                self.next_id == old(self).next_id,
                rr == pick_radius * pick_radius,
                in_world(target),
                i == kept_objects(objs0, target, pick_radius, j).len(),
                self.objects@ == kept_objects(objs0, target, pick_radius, j) + objs0.skip(j),
            decreases n - j,
        {
            proof {
                assert(self.objects@[i as int] == objs0[j]);
                assert(in_world(objs0[j].pos));
            }
            let opos = self.objects[i].pos;
            let d = distance_squared(opos, target);
            let mut is_main = false;
            match &self.objects[i].kind {
                ObjectKind::Activator(a) => {
                    is_main = match a.typ {
                        ActivatorType::Main => true,
                        ActivatorType::Passive => false,
                    };
                },
                ObjectKind::Note => {},
            }
            let ghost before = self.objects@;
            if d < rr && !is_main {
                self.objects.remove(i);
                proof {
                    assert(!survives_delete(objs0[j], target, pick_radius));
                    assert(kept_objects(objs0, target, pick_radius, j + 1) == kept_objects(
                        objs0,
                        target,
                        pick_radius,
                        j,
                    ));
                    assert(self.objects@ =~= kept_objects(objs0, target, pick_radius, j + 1)
                        + objs0.skip(j + 1));
                }
            } else {
                i = i + 1;
                proof {
                    assert(survives_delete(objs0[j], target, pick_radius));
                    assert(kept_objects(objs0, target, pick_radius, j + 1) == kept_objects(
                        objs0,
                        target,
                        pick_radius,
                        j,
                    ).push(objs0[j]));
                    assert(self.objects@ =~= kept_objects(objs0, target, pick_radius, j + 1)
                        + objs0.skip(j + 1));
                }
            }
            proof {
                j = j + 1;
            }
        }
        proof {
            assert(j == n) by {
                assert(self.objects@.len() == kept_objects(objs0, target, pick_radius, j).len() + (
                n - j));
            }
            assert(self.objects@ =~= kept_objects(objs0, target, pick_radius, n));
        }
        proof {
            let objs2 = self.objects@;
            lemma_kept_objects_sub(objs0, target, pick_radius, n);
            assert forall|a: int, b: int|
                0 <= a < b < objs2.len() implies (#[trigger] objs2[a]).id != (#[trigger] objs2[b]).id by {
                let (qa, qb): (int, int) = choose|qa: int, qb: int|
                    0 <= qa < qb < n && objs0[qa] == objs2[a] && objs0[qb] == objs2[b];
                assert(objs0[qa].id != objs0[qb].id);
            }
            assert forall|k: int|
                0 <= k < objs2.len() && (#[trigger] objs2[k]).is_activator()
                    implies activator_ok(objs2, objs2[k]) by {
                let q = choose|q: int| 0 <= q < n && objs0[q] == objs2[k];
                assert(activator_ok(objs0, objs0[q]));
                assert(objs2[k].activator().state is Disabled);
            }
            assert forall|k: int|
                0 <= k < objs2.len() implies in_world((#[trigger] objs2[k]).pos) && objs2[k].id
                    < self.next_id by {
                let q = choose|q: int| 0 <= q < n && objs0[q] == objs2[k];
            }
        }
    }

    /// Grow one activator's radius by `delta` world units (clipped at
    /// [`SIZE_CAP`]): a no-op while the activator is disabled, and for an
    /// identity that does not resolve to an activator.
    pub fn grow(&mut self, id: ObjectId, delta: u64)
        requires
            old(self).wf(),
        ensures
            final(self).wf(),
            final(self).phase == old(self).phase,
            final(self).config == old(self).config,
            final(self).next_id == old(self).next_id,
            final(self).objects@.len() == old(self).objects@.len(),
            forall|k: int|
                0 <= k < old(self).objects@.len() && !(old(self).objects@[k].id == id
                    && (#[trigger] old(self).objects@[k]).is_activator()
                    && old(self).objects@[k].activator().state is Enabled)
                    ==> final(self).objects@[k] == old(self).objects@[k],
            forall|k: int|
                0 <= k < old(self).objects@.len() && old(self).objects@[k].id == id
                    && (#[trigger] old(self).objects@[k]).is_activator()
                    && old(self).objects@[k].activator().state is Enabled
                    ==> final(self).objects@[k] == (GameObject {
                    kind: ObjectKind::Activator(
                        Activator {
                            size: ActivatorSize(
                                capped(old(self).objects@[k].activator().size.0 + delta) as u64,
                            ),
                            ..old(self).objects@[k].activator()
                        },
                    ),
                    ..old(self).objects@[k]
                }),
    {
        let t = match find_index(&self.objects, id) {
            Some(i) => i,
            None => {
                return ;
            },
        };
        let mut enabled = false;
        match &self.objects[t].kind {
            ObjectKind::Activator(a) => {
                enabled = a.state.is_active();
            },
            ObjectKind::Note => {},
        }
        if !enabled {
            return ;
        }
        {
            let o = &mut self.objects[t];
            match &mut o.kind {
                ObjectKind::Activator(a) => {
                    a.size.increment(delta);
                },
                ObjectKind::Note => {},
            }
        }
        proof {
            let objs = old(self).objects@;
            let objs2 = self.objects@;
            assert forall|k: int|
                0 <= k < objs.len() && objs[k].id == id && (#[trigger] objs[k]).is_activator()
                    && objs[k].activator().state is Enabled
                    implies objs2[k] == (GameObject {
                    kind: ObjectKind::Activator(
                        Activator {
                            size: ActivatorSize(capped(objs[k].activator().size.0 + delta) as u64),
                            ..objs[k].activator()
                        },
                    ),
                    ..objs[k]
                }) by {
                lemma_idx_of_unique(objs, k);
            }
            assert(same_shape(objs, objs2));
            assert forall|a: int, b: int|
                0 <= a < b < objs2.len() implies (#[trigger] objs2[a]).id != (#[trigger] objs2[b]).id by {
                assert(objs[a].id != objs[b].id);
            }
            assert forall|k: int|
                0 <= k < objs2.len() && (#[trigger] objs2[k]).is_activator()
                    implies activator_ok(objs2, objs2[k]) by {
                assert(objs[k].is_activator());
                assert(activator_ok(objs, objs[k]));
                assert(objs2[k].activator().pending.0@ == objs[k].activator().pending.0@);
                lemma_same_shape_preserves_pending(objs, objs2, objs[k]);
            }
        }
    }

    /// The read-only query the rendering host polls each step: an
    /// activator's current radius and whether it is enabled. `None` for an
    /// identity that does not resolve to an activator.
    pub fn activator_status(&self, id: ObjectId) -> (r: Option<(u64, bool)>)
        requires
            self.wf(),
        ensures
            match r {
                Some(st) => has_id(self.objects@, id) && obj_at(self.objects@, id).is_activator()
                    && st.0 == obj_at(self.objects@, id).activator().size.0 && st.1 == (obj_at(
                    self.objects@,
                    id,
                ).activator().state is Enabled),
                None => !has_id(self.objects@, id) || !obj_at(self.objects@, id).is_activator(),
            },
    {
        match find_index(&self.objects, id) {
            Some(i) => {
                match &self.objects[i].kind {
                    ObjectKind::Activator(a) => Some((a.size.0, a.state.is_active())),
                    ObjectKind::Note => None,
                }
            },
            None => None,
        }
    }

    /// The identities an activator still has pending, in scan order. `None`
    /// for an identity that does not resolve to an activator.
    pub fn pending_of(&self, id: ObjectId) -> (r: Option<Vec<ObjectId>>)
        requires
            self.wf(),
        ensures
            match r {
                Some(p) => has_id(self.objects@, id) && obj_at(self.objects@, id).is_activator()
                    && p@ == obj_at(self.objects@, id).activator().pending.0@,
                None => !has_id(self.objects@, id) || !obj_at(self.objects@, id).is_activator(),
            },
    {
        let i = match find_index(&self.objects, id) {
            Some(i) => i,
            None => {
                return None;
            },
        };
        let mut is_act = false;
        match &self.objects[i].kind {
            ObjectKind::Activator(_) => {
                is_act = true;
            },
            ObjectKind::Note => {},
        }
        if !is_act {
            return None;
        }
        let plen = act_ref(&self.objects[i]).pending.0.len();
        let mut out: Vec<ObjectId> = Vec::new();
        let mut k: usize = 0;
        while k < plen
            invariant
                self.wf(),
                i < self.objects@.len(),
                self.objects@[i as int].is_activator(),
                plen == self.objects@[i as int].activator().pending.0@.len(),
                k <= plen,
                out@ == self.objects@[i as int].activator().pending.0@.take(k as int),
            decreases plen - k,
        {
            let x = act_ref(&self.objects[i]).pending.0[k];
            out.push(x);
            proof {
                assert(out@ =~= self.objects@[i as int].activator().pending.0@.take(k + 1));
            }
            k = k + 1;
        }
        proof {
            assert(out@ =~= self.objects@[i as int].activator().pending.0@);
        }
        Some(out)
    }
}

/// Every entry kept by a delete click is one of the original entries.
proof fn lemma_kept_objects_sub(objs: Seq<GameObject>, target: Position, r: u64, j: int)
    requires
        0 <= j <= objs.len(),
    ensures
        forall|m: int|
            0 <= m < kept_objects(objs, target, r, j).len() ==> (exists|q: int|
                0 <= q < j && objs[q] == #[trigger] kept_objects(objs, target, r, j)[m]),
        forall|m1: int, m2: int|
            0 <= m1 < m2 < kept_objects(objs, target, r, j).len() ==> (exists|q1: int, q2: int|
                0 <= q1 < q2 < j && objs[q1] == #[trigger] kept_objects(objs, target, r, j)[m1]
                    && objs[q2] == #[trigger] kept_objects(objs, target, r, j)[m2]),
    decreases j,
{
    if j > 0 {
        lemma_kept_objects_sub(objs, target, r, j - 1);
        let cur = kept_objects(objs, target, r, j);
        let pre = kept_objects(objs, target, r, j - 1);
        if survives_delete(objs[j - 1], target, r) {
            assert forall|m1: int, m2: int|
                0 <= m1 < m2 < cur.len() implies (exists|q1: int, q2: int|
                0 <= q1 < q2 < j && objs[q1] == #[trigger] cur[m1] && objs[q2]
                    == #[trigger] cur[m2]) by {
                if m2 < pre.len() {
                    assert(pre[m1] == cur[m1] && pre[m2] == cur[m2]);
                } else {
                    assert(cur[m2] == objs[j - 1]);
                    let q1 = choose|q: int| 0 <= q < j - 1 && objs[q] == pre[m1];
                    assert(objs[q1] == cur[m1] && objs[j - 1] == cur[m2]);
                }
            }
        }
    }
}

/// Returns a reference to the activator state of an entry known to be an
/// activator.
fn act_ref(o: &GameObject) -> (a: &Activator)
    requires
        o.is_activator(),
    ensures
        *a == o.activator(),
{
    match &o.kind {
        ObjectKind::Activator(a) => a,
        ObjectKind::Note => vstd::pervasive::unreached(),
    }
}

/// Linear scan for the registry index carrying `id`.
fn find_index(objects: &Vec<GameObject>, id: ObjectId) -> (r: Option<usize>)
    requires
        ids_unique(objects@),
    ensures
        match r {
            Some(i) => i < objects@.len() && objects@[i as int].id == id && i == idx_of(
                objects@,
                id,
            ),
            None => !has_id(objects@, id),
        },
{
    let n = objects.len();
    let mut j: usize = 0;
    while j < n
        invariant
            ids_unique(objects@),
            n == objects@.len(),
            j <= n,
            forall|k: int| 0 <= k < j ==> (#[trigger] objects@[k]).id != id,
        decreases n - j,
    {
        if objects[j].id == id {
            proof {
                lemma_idx_of_unique(objects@, j as int);
            }
            return Some(j);
        }
        j = j + 1;
    }
    proof {
        if has_id(objects@, id) {
            lemma_idx_of(objects@, id);
        }
    }
    None
}

/// Compare two objects by their distance to an activator sitting at
/// `center`, breaking ties by registry order: the exec counterpart of the
/// pending-set sort key.
pub fn distance_for_sort(
    objects: &Vec<GameObject>,
    center: Position,
    o1: ObjectId,
    o2: ObjectId,
) -> (r: bool)
    requires
        ids_unique(objects@),
        has_id(objects@, o1),
        has_id(objects@, o2),
        in_world(center),
        forall|i: int| 0 <= i < objects@.len() ==> in_world((#[trigger] objects@[i]).pos),
    ensures
        r == key_lt(objects@, center, o1, o2),
{
    proof {
        lemma_idx_of(objects@, o1);
        lemma_idx_of(objects@, o2);
    }
    let i1 = match find_index(objects, o1) {
        Some(i) => i,
        None => vstd::pervasive::unreached(),
    };
    let i2 = match find_index(objects, o2) {
        Some(i) => i,
        None => vstd::pervasive::unreached(),
    };
    let d1 = distance_squared(center, objects[i1].pos);
    let d2 = distance_squared(center, objects[i2].pos);
    d1 < d2 || (d1 == d2 && i1 < i2)
}

} // verus!
