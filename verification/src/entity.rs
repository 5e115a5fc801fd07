use vstd::prelude::*;

verus! {

/// An index is basically the id of an `Entity`.
pub type Index = u32;

/// Index generation. When a new entity is placed at an old index,
/// it bumps the `Generation` by 1. This allows to avoid using components
/// from the entities that were deleted.
///
/// The sign of the stored number carries liveness: a positive generation
/// means the slot's current occupant is alive, zero or negative means dead.
/// `Generation(0)` is the never-used sentinel for slots that were never
/// allocated.
#[derive(Clone, Copy, Debug, Hash, Eq, Ord, PartialEq, PartialOrd, Structural)]
pub struct Generation(pub(crate) i32);

impl View for Generation {
    type V = int;

    closed spec fn view(&self) -> int {
        self.0 as int
    }
}

impl Generation {
    /// Creates a generation with the given raw value.
    pub fn new(v: i32) -> (r: Self)
        ensures
            r@ == v as int,
    {
        Generation(v)
    }

    /// Returns the id of the generation.
    pub fn id(&self) -> (r: i32)
        ensures
            r as int == self@,
    {
        self.0
    }

    /// Returns `true` if entities of this `Generation` are alive.
    pub fn is_alive(&self) -> (r: bool)
        ensures
            r == (self@ > 0),
    {
        self.0 > 0
    }

    /// Kills this `Generation`: the slot keeps its magnitude but turns dead.
    pub fn die(&mut self)
        requires
            old(self)@ > 0,
        ensures
            final(self)@ == -old(self)@,
    {
        self.0 = -self.0;
    }

    /// Revives and increments a dead `Generation`. The result is alive and
    /// strictly greater in magnitude than every generation the slot held
    /// before.
    pub fn raised(self) -> (r: Generation)
        requires
            self@ <= 0,
            self@ >= 1 - i32::MAX,
        ensures
            r@ == 1 - self@,
    {
        Generation(1 - self.0)
    }
}

/// `Entity` type, as seen by the user: a freely copyable `(index, generation)`
/// token that owns nothing. Equality and ordering are by the pair.
#[derive(Clone, Copy, Debug, Hash, Eq, Ord, PartialEq, PartialOrd, Structural)]
pub struct Entity(pub(crate) Index, pub(crate) Generation);

impl View for Entity {
    type V = (Index, int);

    closed spec fn view(&self) -> (Index, int) {
        (self.0, self.1@)
    }
}

impl Entity {
    /// Creates a new entity (externally from ECS).
    pub fn new(index: Index, gen: Generation) -> (r: Entity)
        ensures
            r@ == (index, gen@),
    {
        Entity(index, gen)
    }

    /// Returns the index of the `Entity`.
    pub fn id(&self) -> (r: Index)
        ensures
            r == self@.0,
    {
        self.0
    }

    /// Returns the `Generation` of the `Entity`.
    pub fn gen(&self) -> (r: Generation)
        ensures
            r@ == self@.1,
    {
        self.1
    }
}

/// The next alive generation a dead slot takes when it is reused.
pub open spec fn raised_of(g: int) -> int {
    1 - g
}

/// The dead generation an alive slot takes when its entity is killed.
pub open spec fn dead_of(g: int) -> int {
    -g
}

/// Generation monotonicity for one slot: across one full reuse cycle
/// (the occupant with alive generation `g` is killed, then the slot is
/// allocated again) the new alive generation is exactly `g + 1`. Alive
/// generations handed out at one index therefore grow strictly, and the
/// stored value alternates alive/dead: no stale token ever matches again.
pub proof fn lemma_generation_monotonicity(g: int)
    requires
        g > 0,
    ensures
        dead_of(g) <= 0,
        raised_of(dead_of(g)) == g + 1,
        raised_of(dead_of(g)) > g,
{
}

} // verus!
