use vstd::prelude::*;

verus! {

/// System scheduling priority. Higher priority systems are started earlier
/// than lower-priority ones.
pub type Priority = i32;

/// The scheduling data of one registered system: its priority and the slot
/// under which the runtime keeps the system object and its name.
#[derive(Clone, Copy, Debug, Eq, PartialEq, Structural)]
pub struct SystemMeta {
    /// Priority of the system.
    pub priority: Priority,
    /// Where the runtime keeps the system object this entry stands for.
    pub slot: usize,
}

/// The one-shot fetch pulse handed to a system: it may be consumed at most
/// once per run. Consuming it is what releases the dispatcher to start the
/// next system.
pub struct FetchPulse {
    fired: bool,
}

impl FetchPulse {
    /// Whether the pulse was already consumed.
    pub closed spec fn spec_fired(self) -> bool {
        self.fired
    }

    /// A fresh pulse for one system run.
    pub fn new() -> (r: FetchPulse)
        ensures
            !r.spec_fired(),
    {
        FetchPulse { fired: false }
    }

    /// Consumes the pulse. A second consumption is a programming error the
    /// scheduler cannot recover from, so it is excluded here; the runtime
    /// turns the `false` of `try_fire` into its deterministic panic.
    pub fn fire(&mut self)
        requires
            !old(self).spec_fired(),
        ensures
            final(self).spec_fired(),
    {
        self.fired = true;
    }

    /// Consumes the pulse if it was not consumed before, and says whether
    /// it did. The first call on any pulse returns `true`, every later one
    /// `false`.
    pub fn try_fire(&mut self) -> (ok: bool)
        ensures
            ok == !old(self).spec_fired(),
            final(self).spec_fired(),
    {
        let ok = !self.fired;
        self.fired = true;
        ok
    }
}

/// The dispatcher's bookkeeping: the registered systems' scheduling data
/// and the number of in-flight tasks. The runtime owns the system objects,
/// the pool and the channel; this core decides the order in which systems
/// start fetching and accounts for their completions.
pub struct PlannerCore {
    /// Scheduling data of the registered systems.
    pub metas: Vec<SystemMeta>,
    /// How many spawned tasks have not reported completion yet.
    pub wait_count: usize,
}

impl PlannerCore {
    /// A fresh planner core with no systems and nothing in flight.
    pub fn new() -> (r: PlannerCore)
        ensures
            r.metas@ == Seq::<SystemMeta>::empty(),
            r.wait_count == 0,
    {
        PlannerCore { metas: Vec::new(), wait_count: 0 }
    }

    /// Registers a permanent system.
    pub fn add_system(&mut self, priority: Priority, slot: usize)
        ensures
            final(self).metas@ == old(self).metas@.push(
                SystemMeta { priority: priority, slot: slot },
            ),
            final(self).wait_count == old(self).wait_count,
    {
        self.metas.push(SystemMeta { priority, slot });
    }

    /// Plans one dispatch tick: drains the registered systems, ordered by
    /// descending priority. The runtime spawns them in exactly this order,
    /// blocking on each system's pulse before spawning the next, so this
    /// order is the order in which the fetch phases complete.
    pub fn dispatch_plan(&mut self) -> (order: Vec<SystemMeta>)
        ensures
            final(self).metas@ == Seq::<SystemMeta>::empty(),
            final(self).wait_count == old(self).wait_count,
            order@.to_multiset() == old(self).metas@.to_multiset(),
            order@.len() == old(self).metas@.len(),
            forall|j: int, k: int|
                0 <= j < k < order@.len() ==> order@[j].priority >= order@[k].priority,
    {
        sort_systems_desc(&mut self.metas);
        let mut order: Vec<SystemMeta> = Vec::new();
        std::mem::swap(&mut order, &mut self.metas);
        order
    }

    /// Accounts for one spawned task.
    pub fn task_spawned(&mut self)
        requires
            old(self).wait_count < usize::MAX,
        ensures
            final(self).metas@ == old(self).metas@,
            final(self).wait_count == old(self).wait_count + 1,
    {
        self.wait_count = self.wait_count + 1;
    }

    /// Accounts for one completed task, re-registering its system if the
    /// guard posted it back. Every spawned task posts exactly once, normal
    /// exit or unwind alike, so a drain that calls this until the counter
    /// reaches zero always terminates.
    pub fn task_returned(&mut self, meta: Option<SystemMeta>)
        requires
            old(self).wait_count > 0,
        ensures
            final(self).wait_count == old(self).wait_count - 1,
            meta matches Some(m) ==> final(self).metas@ == old(self).metas@.push(m),
            meta is None ==> final(self).metas@ == old(self).metas@,
    {
        self.wait_count = self.wait_count - 1;
        match meta {
            Some(m) => self.metas.push(m),
            None => (),
        }
    }
}

/// Sorts the systems by descending priority; systems of equal priority may
/// come out in any order.
pub fn sort_systems_desc(v: &mut Vec<SystemMeta>)
    ensures
        final(v)@.len() == old(v)@.len(),
        final(v)@.to_multiset() == old(v)@.to_multiset(),
        forall|j: int, k: int|
            0 <= j < k < final(v)@.len() ==> final(v)@[j].priority >= final(v)@[k].priority,
{
    proof {
        broadcast use vstd::seq_lib::group_to_multiset_ensures;

    }
    if v.len() < 2 {
        return ;
    }
    let mut i: usize = 1;
    while i < v.len()
        invariant
            1 <= i <= v@.len(),
            v@.len() == old(v)@.len(),
            v@.to_multiset() == old(v)@.to_multiset(),
            forall|j: int, k: int| 0 <= j < k < i ==> v@[j].priority >= v@[k].priority,
        decreases v@.len() - i,
    {
        let ghost before = v@;
        let x = v.remove(i);
        let mut p: usize = 0;
        while p < i && v[p].priority >= x.priority
            invariant
                p <= i,
                i < before.len(),
                v@ == before.remove(i as int),
                forall|j: int| 0 <= j < p ==> v@[j].priority >= x.priority,
            decreases i - p,
        {
            p = p + 1;
        }
        v.insert(p, x);
        proof {
            broadcast use vstd::seq_lib::group_to_multiset_ensures;

            assert(v@.to_multiset() == old(v)@.to_multiset());
            assert forall|j: int, k: int|
                0 <= j < k < i + 1 implies v@[j].priority >= v@[k].priority by {
                if p < i {
                    assert(before.remove(i as int)[p as int].priority < x.priority);
                }
            }
        }
        i = i + 1;
    }
}

} // verus!
