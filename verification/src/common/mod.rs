use vstd::prelude::*;

mod information;
pub use self::information::Information;
mod debug;
pub use self::debug::{is_debug_scene, is_debug_modifiers, is_debug_effects, is_debug_attributes, is_debug_terrains,
    is_debug_cities, is_debug_weapons, is_debug_magics, is_debug_skills, is_debug_faction_builders,
    is_debug_unit_builders, is_debug_tile_builders, is_debug_unit_locations};
mod scene;
pub use self::scene::{Scene, generate_scene};
pub(crate) use self::scene::share_scene;

verus! {

/// Identifier of a game object: an index into the scene's lists.
pub type ID = usize;

/// Marks an identifier that refers to nothing.
pub const ID_UNINITIALISED: ID = usize::MAX;
/// Duration of an effect that never expires.
pub const DURATION_PERMANENT: u16 = 65535u16;

/// A game object with a remaining duration.
pub trait Timed {
    /// The remaining duration; `DURATION_PERMANENT` for a permanent object.
    spec fn duration(&self) -> u16;

    /// Gets the remaining duration.
    fn get_duration(&self) -> (duration: u16)
        ensures
            duration == self.duration(),
    ;

    /// Decreases the remaining duration; what the result means is stated by each implementor.
    fn decrement_duration(&mut self) -> bool;
}

/// What an applier affects.
///
/// Weapons only target Enemy or Enemies; skills only This, Ally or Allies;
/// magics only This or Map; statuses only This, Enemy or Map.
#[derive(Debug, Clone, Copy, PartialEq, Eq, Structural)]
pub enum Target {
    This,
    Ally,
    Allies,
    Enemy,
    Enemies,
    /// The map, with the unit that applied the change.
    OnMap(ID),
}

/// A bounded quantity.
#[derive(Debug, Clone, Copy, PartialEq, Eq, Structural)]
pub enum Capacity {
    /// current, maximum, base
    Constant(u16, u16, u16),
    /// current, maximum
    Quantity(u16, u16),
}

impl Capacity {
    /// The current value of the quantity.
    pub open spec fn current(self) -> u16 {
        match self {
            Capacity::Constant(c, _, _) => c,
            Capacity::Quantity(c, _) => c,
        }
    }

    /// The largest value the quantity may take.
    pub open spec fn maximum(self) -> u16 {
        match self {
            Capacity::Constant(_, m, _) => m,
            Capacity::Quantity(_, m) => m,
        }
    }

    /// The value a percentage change is taken of: the base of a constant, the maximum of a quantity.
    pub open spec fn base(self) -> u16 {
        match self {
            Capacity::Constant(_, _, b) => b,
            Capacity::Quantity(_, m) => m,
        }
    }

    /// The remaining duration that a capacity encodes: a constant is permanent.
    pub open spec fn duration(self) -> u16 {
        match self {
            Capacity::Constant(..) => DURATION_PERMANENT,
            Capacity::Quantity(d, _) => d,
        }
    }

    /// The duration capacity of a newly created timed object.
    pub open spec fn spec_from_duration(duration: u16) -> Capacity {
        if duration < DURATION_PERMANENT {
            Capacity::Quantity(duration, duration)
        } else {
            Capacity::Constant(DURATION_PERMANENT, DURATION_PERMANENT, DURATION_PERMANENT)
        }
    }

    /// Builds the duration capacity of a newly created timed object.
    pub fn from_duration(duration: u16) -> (capacity: Capacity)
        ensures
            capacity == Capacity::spec_from_duration(duration),
            capacity.duration() == duration,
    {
        if duration < DURATION_PERMANENT {
            Capacity::Quantity(duration, duration)
        } else {
            Capacity::Constant(DURATION_PERMANENT, DURATION_PERMANENT, DURATION_PERMANENT)
        }
    }

    /// Gets the remaining duration that a capacity encodes.
    pub fn get_duration(&self) -> (duration: u16)
        ensures
            duration == self.duration(),
    {
        match self {
            Capacity::Constant(..) => DURATION_PERMANENT,
            Capacity::Quantity(d, _) => *d,
        }
    }
}

/// A list of at most four copyable items.
#[derive(Debug, Clone, Copy)]
pub struct ShortList<T> {
    items: [T; 4],
    len: usize,
}

/// The most items a `ShortList` holds.
pub const SHORT_LIST_CAPACITY: usize = 4;

impl<T: Copy> ShortList<T> {
    /// The items in order.
    pub closed spec fn view(&self) -> Seq<T> {
        self.items@.subrange(0, if self.len <= 4 { self.len as int } else { 4 })
    }

    /// A list of one item.
    pub fn one(a: T) -> (list: Self)
        ensures
            list@ == seq![a],
    {
        let list = ShortList { items: [a, a, a, a], len: 1 };
        assert(list@ =~= seq![a]);
        list
    }

    /// A list of two items.
    pub fn two(a: T, b: T) -> (list: Self)
        ensures
            list@ == seq![a, b],
    {
        let list = ShortList { items: [a, b, a, a], len: 2 };
        assert(list@ =~= seq![a, b]);
        list
    }

    /// A list of three items.
    pub fn three(a: T, b: T, c: T) -> (list: Self)
        ensures
            list@ == seq![a, b, c],
    {
        let list = ShortList { items: [a, b, c, a], len: 3 };
        assert(list@ =~= seq![a, b, c]);
        list
    }

    /// A list of no items; `filler` only fills the unused room.
    pub fn empty(filler: T) -> (list: Self)
        ensures
            list@ == Seq::<T>::empty(),
    {
        let list = ShortList { items: [filler, filler, filler, filler], len: 0 };
        assert(list@ =~= Seq::<T>::empty());
        list
    }

    /// A short list holds at most four items.
    pub proof fn lemma_len(&self)
        ensures
            self@.len() <= 4,
    {
    }

    /// The number of items.
    pub fn len(&self) -> (len: usize)
        ensures
            len == self@.len(),
    {
        if self.len <= 4 {
            self.len
        } else {
            4
        }
    }

    /// Whether there are no items.
    pub fn is_empty(&self) -> (is_empty: bool)
        ensures
            is_empty == (self@.len() == 0),
    {
        self.len == 0
    }

    /// The item at `index`.
    pub fn get(&self, index: usize) -> (item: T)
        requires
            index < self@.len(),
        ensures
            item == self@[index as int],
    {
        self.items[index]
    }
}

} // verus!
