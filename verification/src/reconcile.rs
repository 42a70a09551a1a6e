//! Reconciliation engine: consumes decoded server events, dispatches them to
//! entity lifecycle (spawn / move / despawn) or to local-player correction,
//! and suppresses redundant corrections when the locally predicted state
//! already matches the server's tick-identified value.

use vstd::prelude::*;

use crate::interp::{drop_stale, sample_at, Positions, Sample};
use crate::protocol::{Clientbound, ClientId, Serverbound, Tick, Vec3, INTERP_DELAY_MS};

verus! {

/// Abstract state of one remote entity: its identity, its last applied
/// position, and its buffered position samples.
pub struct EntityView {
    pub id: ClientId,
    pub position: Vec3,
    pub buffer: Seq<Sample>,
}

/// Abstract state of the whole engine: the remote entities in spawn order,
/// the tick-keyed record of positions this client predicted and sent, and the
/// local player's current position.
pub struct ReconView {
    pub entities: Seq<EntityView>,
    pub pending: Seq<(Tick, Vec3)>,
    pub local_position: Vec3,
}

/// Index of the first entity with the given identity, or -1.
pub open spec fn find_entity(s: Seq<EntityView>, id: ClientId) -> int
    decreases s.len(),
{
    if s.len() == 0 {
        -1
    } else if s[0].id == id {
        0
    } else {
        let r = find_entity(s.drop_first(), id);
        if r < 0 {
            -1
        } else {
            r + 1
        }
    }
}

/// Index of the first pending record for the given tick, or -1.
pub open spec fn find_pending(p: Seq<(Tick, Vec3)>, tick: Tick) -> int
    decreases p.len(),
{
    if p.len() == 0 {
        -1
    } else if p[0].0 == tick {
        0
    } else {
        let r = find_pending(p.drop_first(), tick);
        if r < 0 {
            -1
        } else {
            r + 1
        }
    }
}

/// The position this client predicted and recorded for a tick, if any.
pub open spec fn pending_lookup(p: Seq<(Tick, Vec3)>, tick: Tick) -> Option<Vec3> {
    let i = find_pending(p, tick);
    if i >= 0 {
        Some(p[i].1)
    } else {
        None
    }
}

/// The pending record without the entry for a tick (unchanged if absent).
pub open spec fn pending_remove(p: Seq<(Tick, Vec3)>, tick: Tick) -> Seq<(Tick, Vec3)> {
    let i = find_pending(p, tick);
    if i >= 0 {
        p.remove(i)
    } else {
        p
    }
}

/// The pending record with the entry for a tick set to a position, replacing
/// an existing entry or appending a fresh one.
pub open spec fn pending_set(p: Seq<(Tick, Vec3)>, tick: Tick, position: Vec3) -> Seq<
    (Tick, Vec3),
> {
    let i = find_pending(p, tick);
    if i >= 0 {
        p.update(i, (tick, position))
    } else {
        p.push((tick, position))
    }
}

/// The entities without the first one carrying the given identity
/// (unchanged if absent).
pub open spec fn remove_entity(s: Seq<EntityView>, id: ClientId) -> Seq<EntityView> {
    let i = find_entity(s, id);
    if i >= 0 {
        s.remove(i)
    } else {
        s
    }
}

/// Well-formedness: entity identities are unique, and so are pending ticks.
pub open spec fn view_wf(v: ReconView) -> bool {
    &&& forall|i: int, j: int|
        0 <= i < j < v.entities.len() ==> v.entities[i].id != v.entities[j].id
    &&& forall|i: int, j: int| 0 <= i < j < v.pending.len() ==> v.pending[i].0 != v.pending[j].0
}

/// Effect of a `Spawn` event: a new entity with the given position and an
/// empty buffer, unless one with that identity already lives (duplicate
/// spawns are tolerated, not errors).
pub open spec fn spec_spawn(v: ReconView, id: ClientId, position: Vec3) -> ReconView {
    if find_entity(v.entities, id) >= 0 {
        v
    } else {
        ReconView {
            entities: v.entities.push(EntityView { id, position, buffer: Seq::empty() }),
            ..v
        }
    }
}

/// Effect of a `Despawn` event: the entity and all its interpolation state
/// are discarded at once; an unknown identity changes nothing.
pub open spec fn spec_despawn(v: ReconView, id: ClientId) -> ReconView {
    ReconView { entities: remove_entity(v.entities, id), ..v }
}

/// Effect of a `Move` event for a remote entity: the position is buffered for
/// interpolation; a `Move` for an unknown identity is dropped silently.
pub open spec fn spec_move_remote(v: ReconView, id: ClientId, position: Vec3, now: u64) -> ReconView {
    let i = find_entity(v.entities, id);
    if i < 0 {
        v
    } else {
        let e = v.entities[i];
        let e2 = EntityView {
            buffer: e.buffer.push(
                Sample { deadline: (now + INTERP_DELAY_MS) as u64, position },
            ),
            ..e
        };
        ReconView { entities: v.entities.update(i, e2), ..v }
    }
}

/// Effect of the server's authoritative echo of a predicted move: when the
/// recorded prediction for that tick matches, nothing changes (the
/// anti-jitter suppression); otherwise the local player snaps to the
/// server's position and the reconciled record for that tick is dropped.
pub open spec fn spec_move_local(v: ReconView, position: Vec3, tick: Tick) -> ReconView {
    if pending_lookup(v.pending, tick) == Some(position) {
        v
    } else {
        ReconView { local_position: position, pending: pending_remove(v.pending, tick), ..v }
    }
}

/// Effect of one decoded server event, keyed by whether it concerns the local
/// player. `AuthSuccess` is the session's business and changes nothing here.
pub open spec fn spec_handle_event(
    v: ReconView,
    local_id: Option<ClientId>,
    event: Clientbound,
    now: u64,
) -> ReconView {
    match event {
        Clientbound::AuthSuccess(_) => v,
        Clientbound::Spawn(id, position) => spec_spawn(v, id, position),
        Clientbound::Despawn(id) => spec_despawn(v, id),
        Clientbound::Move(id, position, tick) => {
            if local_id == Some(id) {
                spec_move_local(v, position, tick)
            } else {
                spec_move_remote(v, id, position, now)
            }
        },
    }
}

/// Effect of a whole sequence of decoded events, applied in arrival order.
pub open spec fn spec_apply_events(
    v: ReconView,
    local_id: Option<ClientId>,
    events: Seq<Clientbound>,
    now: u64,
) -> ReconView
    decreases events.len(),
{
    if events.len() == 0 {
        v
    } else {
        spec_apply_events(
            spec_handle_event(v, local_id, events[0], now),
            local_id,
            events.drop_first(),
            now,
        )
    }
}

/// Per-tick housekeeping for one entity: sample its buffer; entities with
/// fewer than two relevant samples keep their position.
pub open spec fn spec_refresh_entity(e: EntityView, now: u64) -> EntityView {
    let sampled = sample_at(e.buffer, now);
    EntityView {
        position: match sampled {
            Some(p) => p,
            None => e.position,
        },
        buffer: drop_stale(e.buffer, now),
        ..e
    }
}

/// Everything `find_entity` promises: the result is a valid index or -1, it
/// points at the identity sought, and nothing before it matches.
pub proof fn lemma_find_entity(s: Seq<EntityView>, id: ClientId)
    ensures
        -1 <= find_entity(s, id) < s.len(),
        find_entity(s, id) >= 0 ==> s[find_entity(s, id)].id == id,
        forall|j: int| 0 <= j < find_entity(s, id) ==> s[j].id != id,
        find_entity(s, id) == -1 ==> forall|j: int| 0 <= j < s.len() ==> s[j].id != id,
    decreases s.len(),
{
    if s.len() == 0 {
    } else if s[0].id == id {
    } else {
        lemma_find_entity(s.drop_first(), id);
        let r = find_entity(s.drop_first(), id);
        assert(forall|j: int| 1 <= j < s.len() ==> s[j] == s.drop_first()[j - 1]);
        if r >= 0 {
            assert(s[r + 1] == s.drop_first()[r]);
            assert(forall|j: int| 0 <= j < r + 1 ==> s[j].id != id) by {
                assert(forall|j: int| 1 <= j < r + 1 ==> s[j] == s.drop_first()[j - 1]);
            }
        } else {
            assert(forall|j: int| 0 <= j < s.len() ==> s[j].id != id) by {
                assert(forall|j: int| 1 <= j < s.len() ==> s[j] == s.drop_first()[j - 1]);
            }
        }
    }
}

/// Everything `find_pending` promises, in the same shape.
pub proof fn lemma_find_pending(p: Seq<(Tick, Vec3)>, tick: Tick)
    ensures
        -1 <= find_pending(p, tick) < p.len(),
        find_pending(p, tick) >= 0 ==> p[find_pending(p, tick)].0 == tick,
        forall|j: int| 0 <= j < find_pending(p, tick) ==> p[j].0 != tick,
        find_pending(p, tick) == -1 ==> forall|j: int| 0 <= j < p.len() ==> p[j].0 != tick,
    decreases p.len(),
{
    if p.len() == 0 {
    } else if p[0].0 == tick {
    } else {
        lemma_find_pending(p.drop_first(), tick);
        let r = find_pending(p.drop_first(), tick);
        assert(forall|j: int| 1 <= j < p.len() ==> p[j] == p.drop_first()[j - 1]);
        if r >= 0 {
            assert(p[r + 1] == p.drop_first()[r]);
            assert(forall|j: int| 0 <= j < r + 1 ==> p[j].0 != tick) by {
                assert(forall|j: int| 1 <= j < r + 1 ==> p[j] == p.drop_first()[j - 1]);
            }
        } else {
            assert(forall|j: int| 0 <= j < p.len() ==> p[j].0 != tick) by {
                assert(forall|j: int| 1 <= j < p.len() ==> p[j] == p.drop_first()[j - 1]);
            }
        }
    }
}

/// One remote entity as the engine stores it.
pub struct Entity {
    pub id: ClientId,
    pub position: Vec3,
    pub buffer: Positions,
}

/// The reconciliation engine's state, owned exclusively by the single
/// simulation thread.
pub struct Reconciler {
    entities: Vec<Entity>,
    pending: Vec<(Tick, Vec3)>,
    local_position: Vec3,
}

impl View for Reconciler {
    type V = ReconView;

    closed spec fn view(&self) -> ReconView {
        ReconView {
            entities: self.entities@.map(
                |i: int, e: Entity| EntityView { id: e.id, position: e.position, buffer: e.buffer@ },
            ),
            pending: self.pending@,
            local_position: self.local_position,
        }
    }
}

impl Reconciler {
    pub open spec fn wf(&self) -> bool {
        view_wf(self@)
    }

    /// A fresh engine: no entities, no pending predictions, the local player
    /// at the origin.
    pub fn new() -> (r: Reconciler)
        ensures
            r@.entities == Seq::<EntityView>::empty(),
            r@.pending == Seq::<(Tick, Vec3)>::empty(),
            r@.local_position == (Vec3 { x: 0, y: 0, z: 0 }),
            r.wf(),
    {
        let r = Reconciler {
            entities: Vec::new(),
            pending: Vec::new(),
            local_position: Vec3 { x: 0, y: 0, z: 0 },
        };
        proof {
            assert(r@.entities =~= Seq::<EntityView>::empty());
        }
        r
    }

    /// The local player's current (predicted or corrected) position.
    pub fn local_position(&self) -> (r: Vec3)
        ensures
            r == self@.local_position,
    {
        self.local_position
    }

    /// Record the local player's own predicted movement.
    pub fn set_local_position(&mut self, position: Vec3)
        ensures
            final(self)@ == (ReconView { local_position: position, ..old(self)@ }),
            old(self).wf() ==> final(self).wf(),
    {
        self.local_position = position;
    }

    /// Index of the entity with this identity, if it lives.
    fn find_index(&self, id: ClientId) -> (r: Option<usize>)
        ensures
            r is Some ==> find_entity(self@.entities, id) == r->Some_0,
            r is None ==> find_entity(self@.entities, id) == -1,
    {
        proof {
            lemma_find_entity(self@.entities, id);
        }
        let mut i: usize = 0;
        while i < self.entities.len()
            invariant
                i <= self.entities.len(),
                forall|j: int| 0 <= j < i ==> self@.entities[j].id != id,
            decreases self.entities.len() - i,
        {
            if self.entities[i].id == id {
                proof {
                    lemma_find_entity(self@.entities, id);
                    assert(self@.entities[i as int].id == id);
                }
                return Some(i);
            }
            i = i + 1;
        }
        None
    }

    /// Index of the pending record for this tick, if one exists.
    fn find_pending_index(&self, tick: Tick) -> (r: Option<usize>)
        ensures
            r is Some ==> find_pending(self@.pending, tick) == r->Some_0,
            r is None ==> find_pending(self@.pending, tick) == -1,
    {
        proof {
            lemma_find_pending(self@.pending, tick);
        }
        let mut i: usize = 0;
        while i < self.pending.len()
            invariant
                i <= self.pending.len(),
                forall|j: int| 0 <= j < i ==> self@.pending[j].0 != tick,
            decreases self.pending.len() - i,
        {
            if self.pending[i].0 == tick {
                proof {
                    lemma_find_pending(self@.pending, tick);
                }
                return Some(i);
            }
            i = i + 1;
        }
        None
    }

    /// Whether an entity with this identity lives.
    pub fn has_entity(&self, id: ClientId) -> (r: bool)
        ensures
            r == (find_entity(self@.entities, id) >= 0),
    {
        self.find_index(id).is_some()
    }

    /// The current position of the entity with this identity, if it lives.
    pub fn entity_position(&self, id: ClientId) -> (r: Option<Vec3>)
        ensures
            find_entity(self@.entities, id) >= 0 ==> r == Some(
                self@.entities[find_entity(self@.entities, id)].position,
            ),
            find_entity(self@.entities, id) == -1 ==> r is None,
    {
        proof {
            lemma_find_entity(self@.entities, id);
        }
        match self.find_index(id) {
            Some(i) => {
                proof {
                    assert(self@.entities[i as int].position == self.entities[i as int].position);
                }
                Some(self.entities[i].position)
            },
            None => None,
        }
    }

    /// How many remote entities live.
    pub fn entity_count(&self) -> (r: usize)
        ensures
            r == self@.entities.len(),
    {
        self.entities.len()
    }

    /// The recorded prediction for a tick, if any.
    pub fn pending_position(&self, tick: Tick) -> (r: Option<Vec3>)
        ensures
            r == pending_lookup(self@.pending, tick),
    {
        proof {
            lemma_find_pending(self@.pending, tick);
        }
        match self.find_pending_index(tick) {
            Some(i) => Some(self.pending[i].1),
            None => None,
        }
    }

    /// Create a remote entity with an empty interpolation buffer; a duplicate
    /// spawn for a living identity is tolerated and changes nothing.
    pub fn spawn(&mut self, id: ClientId, position: Vec3)
        ensures
            final(self)@ == spec_spawn(old(self)@, id, position),
            old(self).wf() ==> final(self).wf(),
    {
        proof {
            lemma_find_entity(old(self)@.entities, id);
        }
        if self.find_index(id).is_none() {
            self.entities.push(Entity { id, position, buffer: Positions::new() });
            proof {
                assert(self@.entities =~= old(self)@.entities.push(
                    EntityView { id, position, buffer: Seq::empty() },
                ));
            }
        }
    }

    /// Remove the entity with this identity, discarding its interpolation
    /// state immediately; an unknown identity changes nothing.
    pub fn despawn(&mut self, id: ClientId)
        ensures
            final(self)@ == spec_despawn(old(self)@, id),
            old(self).wf() ==> final(self).wf(),
    {
        proof {
            lemma_find_entity(old(self)@.entities, id);
        }
        match self.find_index(id) {
            Some(i) => {
                self.entities.remove(i);
                proof {
                    assert(self@.entities =~= old(self)@.entities.remove(i as int));
                    if old(self).wf() {
                        let oldes = old(self)@.entities;
                        let newes = self@.entities;
                        assert forall|a: int, b: int|
                            0 <= a < b < newes.len() implies newes[a].id != newes[b].id by {
                            assert(newes[a] == (if a < i as int {
                                oldes[a]
                            } else {
                                oldes[a + 1]
                            }));
                            assert(newes[b] == (if b < i as int {
                                oldes[b]
                            } else {
                                oldes[b + 1]
                            }));
                        }
                    }
                }
            },
            None => {},
        }
    }

    /// Buffer a position update for a remote entity; a `Move` for an unknown
    /// identity is dropped silently, reflecting best-effort delivery.
    pub fn move_remote(&mut self, id: ClientId, position: Vec3, now: u64)
        requires
            now <= u64::MAX - INTERP_DELAY_MS,
        ensures
            final(self)@ == spec_move_remote(old(self)@, id, position, now),
            find_entity(old(self)@.entities, id) == -1 ==> final(self)@ == old(self)@,
            old(self).wf() ==> final(self).wf(),
    {
        proof {
            lemma_find_entity(old(self)@.entities, id);
        }
        match self.find_index(id) {
            Some(i) => {
                let mut entity = self.entities.remove(i);
                entity.buffer.push(now, position);
                self.entities.insert(i, entity);
                proof {
                    let ghost old_es = old(self)@.entities;
                    let ghost e = old_es[i as int];
                    let ghost e2 = EntityView {
                        buffer: e.buffer.push(
                            Sample { deadline: (now + INTERP_DELAY_MS) as u64, position },
                        ),
                        ..e
                    };
                    assert(self@.entities =~= old_es.update(i as int, e2));
                }
            },
            None => {},
        }
    }

    /// Apply the server's echo of a predicted move for the local player:
    /// suppressed when the prediction for that tick matches, otherwise a hard
    /// correction (no smoothing is applied to the local player).
    pub fn move_local(&mut self, position: Vec3, tick: Tick)
        ensures
            final(self)@ == spec_move_local(old(self)@, position, tick),
            old(self).wf() ==> final(self).wf(),
    {
        proof {
            lemma_find_pending(old(self)@.pending, tick);
        }
        match self.find_pending_index(tick) {
            Some(i) => {
                let recorded = self.pending[i].1;
                if recorded == position {
                    return ;
                }
                self.pending.remove(i);
                self.local_position = position;
                proof {
                    if old(self).wf() {
                        let oldp = old(self)@.pending;
                        let newp = self@.pending;
                        assert(newp =~= oldp.remove(i as int));
                        assert forall|a: int, b: int|
                            0 <= a < b < newp.len() implies newp[a].0 != newp[b].0 by {
                            assert(newp[a] == (if a < i as int {
                                oldp[a]
                            } else {
                                oldp[a + 1]
                            }));
                            assert(newp[b] == (if b < i as int {
                                oldp[b]
                            } else {
                                oldp[b + 1]
                            }));
                        }
                    }
                }
            },
            None => {
                self.local_position = position;
            },
        }
    }

    /// Dispatch one decoded server event. Events for the session identity
    /// correct the local player; everything else drives remote entity
    /// lifecycle. `AuthSuccess` was already absorbed by the session and is
    /// ignored here.
    pub fn handle_event(&mut self, local_id: Option<ClientId>, event: &Clientbound, now: u64)
        requires
            now <= u64::MAX - INTERP_DELAY_MS,
        ensures
            final(self)@ == spec_handle_event(old(self)@, local_id, *event, now),
            old(self).wf() ==> final(self).wf(),
    {
        match *event {
            Clientbound::AuthSuccess(_) => {},
            Clientbound::Spawn(id, position) => self.spawn(id, position),
            Clientbound::Despawn(id) => self.despawn(id),
            Clientbound::Move(id, position, tick) => {
                let is_local = match local_id {
                    Some(lid) => lid == id,
                    None => false,
                };
                if is_local {
                    self.move_local(position, tick);
                } else {
                    self.move_remote(id, position, now);
                }
            },
        }
    }

    /// Fan one received envelope's events out to the engine, in arrival
    /// order. Each event is processed independently.
    pub fn apply_events(&mut self, local_id: Option<ClientId>, events: &Vec<Clientbound>, now: u64)
        requires
            now <= u64::MAX - INTERP_DELAY_MS,
        ensures
            final(self)@ == spec_apply_events(old(self)@, local_id, events@, now),
            old(self).wf() ==> final(self).wf(),
    {
        let ghost evs = events@;
        let mut i: usize = 0;
        proof {
            assert(evs.skip(0) =~= evs);
        }
        while i < events.len()
            invariant
                i <= evs.len(),
                evs == events@,
                now <= u64::MAX - INTERP_DELAY_MS,
                spec_apply_events(old(self)@, local_id, evs, now) == spec_apply_events(
                    self@,
                    local_id,
                    evs.skip(i as int),
                    now,
                ),
                old(self).wf() ==> self.wf(),
            decreases evs.len() - i,
        {
            proof {
                assert(evs.skip(i as int)[0] == evs[i as int]);
                assert(evs.skip(i as int).drop_first() =~= evs.skip(i + 1));
            }
            self.handle_event(local_id, &events[i], now);
            i = i + 1;
        }
        proof {
            assert(evs.skip(evs.len() as int) =~= Seq::<Clientbound>::empty());
        }
    }

    /// Per-tick housekeeping: every remote entity samples its interpolation
    /// buffer; entities with fewer than two relevant samples keep their
    /// position. Pending records and the local player are untouched.
    pub fn update_positions(&mut self, now: u64)
        ensures
            final(self)@.entities.len() == old(self)@.entities.len(),
            forall|i: int|
                0 <= i < old(self)@.entities.len() ==> final(self)@.entities[i]
                    == spec_refresh_entity(old(self)@.entities[i], now),
            final(self)@.pending == old(self)@.pending,
            final(self)@.local_position == old(self)@.local_position,
            old(self).wf() ==> final(self).wf(),
    {
        let n = self.entities.len();
        let mut i: usize = 0;
        while i < n
            invariant
                i <= n,
                n == self.entities.len(),
                self@.entities.len() == old(self)@.entities.len(),
                forall|j: int|
                    0 <= j < i ==> self@.entities[j] == spec_refresh_entity(
                        old(self)@.entities[j],
                        now,
                    ),
                forall|j: int| i <= j < n ==> self@.entities[j] == old(self)@.entities[j],
                self@.pending == old(self)@.pending,
                self@.local_position == old(self)@.local_position,
            decreases n - i,
        {
            let ghost pre = self@.entities;
            let mut entity = self.entities.remove(i);
            let sampled = entity.buffer.get(now);
            match sampled {
                Some(position) => {
                    entity.position = position;
                },
                None => {},
            }
            self.entities.insert(i, entity);
            proof {
                assert(self@.entities =~= pre.update(
                    i as int,
                    spec_refresh_entity(pre[i as int], now),
                ));
            }
            i = i + 1;
        }
    }

    /// Local-to-server reporting at a server tick boundary: with no identity
    /// assigned yet nothing is sent; otherwise the current predicted position
    /// is wrapped in a `Move` tagged with the last known tick, and recorded
    /// for later reconciliation.
    pub fn report_position(&mut self, local_id: Option<ClientId>, tick: Tick) -> (r: Option<
        Serverbound,
    >)
        ensures
            local_id is None ==> r is None && final(self)@ == old(self)@,
            local_id is Some ==> {
                &&& r == Some(Serverbound::Move(old(self)@.local_position, tick))
                &&& final(self)@ == (ReconView {
                    pending: pending_set(old(self)@.pending, tick, old(self)@.local_position),
                    ..old(self)@
                })
            },
            old(self).wf() ==> final(self).wf(),
    {
        if local_id.is_none() {
            return None;
        }
        proof {
            lemma_find_pending(old(self)@.pending, tick);
        }
        let position = self.local_position;
        match self.find_pending_index(tick) {
            Some(i) => {
                self.pending.set(i, (tick, position));
            },
            None => {
                self.pending.push((tick, position));
            },
        }
        Some(Serverbound::Move(position, tick))
    }
}

/// Law: an authoritative echo that matches the recorded prediction for its
/// tick produces no visible state change, and receiving the very same echo
/// twice changes nothing either time.
pub proof fn lemma_matching_echo_idempotent(v: ReconView, position: Vec3, tick: Tick)
    requires
        pending_lookup(v.pending, tick) == Some(position),
    ensures
        spec_move_local(v, position, tick) == v,
        spec_move_local(spec_move_local(v, position, tick), position, tick) == v,
{
}

/// Law: spawning, despawning and spawning again under one identity leaves
/// exactly one live entity with that identity, carrying the second spawn's
/// position and a fresh buffer; all other entities are untouched.
pub proof fn lemma_respawn_overrides(v: ReconView, id: ClientId, p1: Vec3, p2: Vec3)
    requires
        view_wf(v),
    ensures
        ({
            let v3 = spec_spawn(spec_despawn(spec_spawn(v, id, p1), id), id, p2);
            &&& v3.entities == remove_entity(v.entities, id).push(
                EntityView { id, position: p2, buffer: Seq::empty() },
            )
            &&& v3.entities.last() == (EntityView { id, position: p2, buffer: Seq::empty() })
            &&& forall|j: int| 0 <= j < v3.entities.len() - 1 ==> v3.entities[j].id != id
        }),
{
    lemma_find_entity(v.entities, id);
    let i = find_entity(v.entities, id);
    if i >= 0 {
        // The first spawn is a duplicate and changes nothing; the despawn
        // removes the only entity with this identity.
        let v1 = spec_spawn(v, id, p1);
        assert(v1 == v);
        let removed = v.entities.remove(i);
        assert(forall|j: int| 0 <= j < removed.len() ==> removed[j].id != id);
        lemma_find_entity(removed, id);
        let v2 = spec_despawn(v1, id);
        assert(v2.entities == removed);
    } else {
        // The first spawn appends the entity; the despawn removes exactly it.
        let v1 = spec_spawn(v, id, p1);
        let pushed = v.entities.push(EntityView { id, position: p1, buffer: Seq::empty() });
        assert(v1.entities == pushed);
        lemma_find_entity(pushed, id);
        let f = find_entity(pushed, id);
        assert(pushed[v.entities.len() as int].id == id);
        assert(f >= 0);
        if f < v.entities.len() {
            assert(pushed[f] == v.entities[f]);
            assert(false);
        }
        assert(f == v.entities.len());
        let v2 = spec_despawn(v1, id);
        assert(v2.entities =~= v.entities);
        assert(remove_entity(v.entities, id) == v.entities);
        lemma_find_entity(v2.entities, id);
    }
}

} // verus!
