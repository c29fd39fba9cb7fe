//! The registry that maps a stage identifier to its handler.

use super::traits::{Stage, StageId};
use std::sync::Arc;
use vstd::prelude::*;

verus! {

/// The stage identifiers in the order of their declaration.
pub open spec fn every_stage() -> Seq<StageId> {
    seq![
        StageId::Background,
        StageId::Cut,
        StageId::Filter,
        StageId::FindPeak,
        StageId::ProcessPeak,
        StageId::Phase,
    ]
}

/// The position of `id` in [`every_stage`].
pub open spec fn rank(id: StageId) -> int {
    match id {
        StageId::Background => 0,
        StageId::Cut => 1,
        StageId::Filter => 2,
        StageId::FindPeak => 3,
        StageId::ProcessPeak => 4,
        StageId::Phase => 5,
    }
}

/// The handlers of a batch, by stage identifier. `H` is the type of the
/// handlers: one stage, or a type that dispatches to several. The registry
/// shares its handlers with those who ask for them.
pub struct StageRegistry<H: Stage> {
    background: Option<Arc<H>>,
    cut: Option<Arc<H>>,
    filter: Option<Arc<H>>,
    find_peak: Option<Arc<H>>,
    process_peak: Option<Arc<H>>,
    phase: Option<Arc<H>>,
}

impl<H: Stage> StageRegistry<H> {
    /// The handler registered for `id`, if any.
    pub closed spec fn slot(&self, id: StageId) -> Option<Arc<H>> {
        match id {
            StageId::Background => self.background,
            StageId::Cut => self.cut,
            StageId::Filter => self.filter,
            StageId::FindPeak => self.find_peak,
            StageId::ProcessPeak => self.process_peak,
            StageId::Phase => self.phase,
        }
    }
}

impl<H: Stage> View for StageRegistry<H> {
    type V = Map<StageId, H>;

    open spec fn view(&self) -> Map<StageId, H> {
        Map::new(|id: StageId| self.slot(id) is Some, |id: StageId| *self.slot(id)->0)
    }
}

impl<H: Stage> Default for StageRegistry<H> {
    fn default() -> (registry: Self)
        ensures
            registry@ == Map::<StageId, H>::empty(),
    {
        StageRegistry::new()
    }
}

impl<H: Stage> StageRegistry<H> {
    /// A registry without handlers.
    pub fn new() -> (registry: Self)
        ensures
            registry@ == Map::<StageId, H>::empty(),
    {
        let registry = StageRegistry {
            background: None,
            cut: None,
            filter: None,
            find_peak: None,
            process_peak: None,
            phase: None,
        };
        registry
    }

    /// Registers `stage` under its identifier, in place of a handler that
    /// was registered under it before.
    pub fn register(&mut self, stage: H)
        ensures
            final(self)@ == old(self)@.insert(stage.stage_id(), stage),
    {
        self.register_arc(Arc::new(stage));
    }

    /// Registers a shared handler under its identifier, in place of a
    /// handler that was registered under it before.
    pub fn register_arc(&mut self, stage: Arc<H>)
        ensures
            final(self)@ == old(self)@.insert(stage.stage_id(), *stage),
    {
        match stage.id() {
            StageId::Background => {
                self.background = Some(stage);
            },
            StageId::Cut => {
                self.cut = Some(stage);
            },
            StageId::Filter => {
                self.filter = Some(stage);
            },
            StageId::FindPeak => {
                self.find_peak = Some(stage);
            },
            StageId::ProcessPeak => {
                self.process_peak = Some(stage);
            },
            StageId::Phase => {
                self.phase = Some(stage);
            },
        }
    }

    fn share(slot: &Option<Arc<H>>) -> (handler: Option<Arc<H>>)
        ensures
            handler == *slot,
    {
        match slot {
            Some(stage) => Some(stage.clone()),
            None => None,
        }
    }

    /// The handler registered for `id`, shared with the registry.
    pub fn get(&self, id: StageId) -> (handler: Option<Arc<H>>)
        ensures
            handler is Some <==> self@.contains_key(id),
            handler matches Some(h) ==> *h == self@[id],
    {
        match id {
            StageId::Background => Self::share(&self.background),
            StageId::Cut => Self::share(&self.cut),
            StageId::Filter => Self::share(&self.filter),
            StageId::FindPeak => Self::share(&self.find_peak),
            StageId::ProcessPeak => Self::share(&self.process_peak),
            StageId::Phase => Self::share(&self.phase),
        }
    }

    /// Whether a handler is registered for `id`.
    pub fn contains(&self, id: StageId) -> (registered: bool)
        ensures
            registered == self@.contains_key(id),
    {
        match id {
            StageId::Background => self.background.is_some(),
            StageId::Cut => self.cut.is_some(),
            StageId::Filter => self.filter.is_some(),
            StageId::FindPeak => self.find_peak.is_some(),
            StageId::ProcessPeak => self.process_peak.is_some(),
            StageId::Phase => self.phase.is_some(),
        }
    }

    /// The identifiers that have a handler, each once.
    pub fn stage_ids(&self) -> (ids: Vec<StageId>)
        ensures
            ids@.no_duplicates(),
            forall|id: StageId| ids@.contains(id) <==> self@.contains_key(id),
    {
        let order: [StageId; 6] = [
            StageId::Background,
            StageId::Cut,
            StageId::Filter,
            StageId::FindPeak,
            StageId::ProcessPeak,
            StageId::Phase,
        ];
        let mut ids: Vec<StageId> = Vec::new();
        let mut i: usize = 0;
        while i < 6
            invariant
                i <= 6,
                order@ == every_stage(),
                ids@.no_duplicates(),
                forall|id: StageId|
                    ids@.contains(id) <==> self@.contains_key(id) && exists|j: int|
                        0 <= j < i && #[trigger] order@[j] == id,
            decreases 6 - i,
        {
            let id = order[i];
            let ghost before = ids@;
            if self.contains(id) {
                ids.push(id);
                assert forall|x: StageId| ids@.contains(x) <==> before.contains(x) || x == id by {
                    if ids@.contains(x) {
                        let k = choose|k: int| 0 <= k < ids@.len() && ids@[k] == x;
                        if k < before.len() {
                            assert(before[k] == x);
                        }
                    }
                    if before.contains(x) {
                        let k = choose|k: int| 0 <= k < before.len() && before[k] == x;
                        assert(ids@[k] == x);
                    }
                    if x == id {
                        assert(ids@[ids@.len() - 1] == x);
                    }
                }
                assert(!before.contains(id)) by {
                    if before.contains(id) {
                        let j = choose|j: int| 0 <= j < i && #[trigger] order@[j] == id;
                        assert(order@[i as int] == id);
                    }
                }
            }
            assert forall|x: StageId|
                ids@.contains(x) <==> self@.contains_key(x) && exists|j: int|
                    0 <= j < i + 1 && #[trigger] order@[j] == x by {
                let listed = before.contains(x);
                let seen = exists|j: int| 0 <= j < i && #[trigger] order@[j] == x;
                assert(listed <==> self@.contains_key(x) && seen);
                assert(order@[i as int] == id);
                if ids@.contains(x) {
                    if listed {
                        let j = choose|j: int| 0 <= j < i && #[trigger] order@[j] == x;
                        assert(0 <= j < i + 1 && order@[j] == x);
                    } else {
                        assert(x == id);
                    }
                }
                if self@.contains_key(x) && exists|j: int|
                    0 <= j < i + 1 && #[trigger] order@[j] == x {
                    let j = choose|j: int| 0 <= j < i + 1 && #[trigger] order@[j] == x;
                    if j < i {
                        assert(seen);
                    } else {
                        assert(x == id);
                    }
                }
            }
            i = i + 1;
        }
        assert forall|id: StageId| ids@.contains(id) <==> self@.contains_key(id) by {
            assert(order@[rank(id)] == id);
        }
        ids
    }

    /// Takes the handler for `id` out of the registry.
    pub fn remove(&mut self, id: StageId) -> (handler: Option<Arc<H>>)
        ensures
            handler is Some <==> old(self)@.contains_key(id),
            handler matches Some(h) ==> *h == old(self)@[id],
            final(self)@ == old(self)@.remove(id),
    {
        let handler = match id {
            StageId::Background => self.background.take(),
            StageId::Cut => self.cut.take(),
            StageId::Filter => self.filter.take(),
            StageId::FindPeak => self.find_peak.take(),
            StageId::ProcessPeak => self.process_peak.take(),
            StageId::Phase => self.phase.take(),
        };
        handler
    }

    /// Takes every handler out of the registry.
    pub fn clear(&mut self)
        ensures
            final(self)@ == Map::<StageId, H>::empty(),
    {
        self.background = None;
        self.cut = None;
        self.filter = None;
        self.find_peak = None;
        self.process_peak = None;
        self.phase = None;
    }
}

} // verus!
