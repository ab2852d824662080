use vstd::prelude::*;
use crate::common::ID;

verus! {

/// Workers per factory: 4.0.
pub const WORKERS_FACTORY_QUARTERS: u32 = 16;
/// Workers per farm: 1.5.
pub const WORKERS_FARM_QUARTERS: u32 = 6;

/// The value of `x` as a `u16`, saturated at the largest one.
pub open spec fn saturate(x: int) -> u16 {
    if x > 65535 { 65535u16 } else if x < 0 { 0u16 } else { x as u16 }
}

/// Workers of a city: 4.0 per factory and 1.5 per farm, rounded down.
pub open spec fn workers_of(factories: u16, farms: u16) -> u16 {
    saturate(4 * factories + (3 * farms) / 2)
}

/// The manpower a city recovers: the population that is not working (at least one),
/// times the larger of farms / 5.0 / factories and 0.67, rounded up.
pub open spec fn manpower_of(population: u16, factories: u16, farms: u16) -> u16 {
    let workers = workers_of(factories, farms) as int;
    let recruitable = if population - workers > 1 { population - workers } else { 1 };
    if 100 * farms >= 335 * factories {
        saturate((recruitable * farms + 5 * factories - 1) / (5 * factories))
    } else {
        saturate((recruitable * 67 + 99) / 100)
    }
}

/// The equipment modifier of a city, as a fraction `(p, q)`: the larger of
/// (factories - 2.5) / farms and 0.67.
pub open spec fn equipment_modifier(factories: u16, farms: u16) -> (int, int) {
    if 100 * (2 * factories - 5) >= 134 * farms {
        (2 * factories - 5, 2 * farms)
    } else {
        (67, 100)
    }
}

/// Whether `e` is at least the square root of (factories + modifier), times the modifier.
pub open spec fn equipment_covers(factories: u16, farms: u16, e: int) -> bool {
    let (p, q) = equipment_modifier(factories, farms);
    e * e * (q * q * q) >= (factories * q + p) * (p * p)
}

/// The equipment a city recovers: the least value at least the square root of
/// (factories + modifier), times the modifier, or the largest `u16` when none is.
pub open spec fn equipment_of(factories: u16, farms: u16) -> u16 {
    choose|e: u16| #[trigger] equipment_least(factories, farms, e)
}

/// Whether `e` is the least value that covers the equipment, or the largest `u16` when none is.
pub open spec fn equipment_least(factories: u16, farms: u16, e: u16) -> bool {
    (e < 65535 ==> equipment_covers(factories, farms, e as int)) && (e > 0 ==> !equipment_covers(factories, farms, e - 1))
}

/// A larger value covers what a smaller one does.
pub proof fn lemma_covers_monotonic(factories: u16, farms: u16, e: int, f: int)
    requires
        0 <= e <= f,
        equipment_covers(factories, farms, e),
    ensures
        equipment_covers(factories, farms, f),
{
    let (p, q) = equipment_modifier(factories, farms);
    assert(q >= 0);
    let q3 = q * q * q;
    assert(q3 >= 0) by (nonlinear_arith)
        requires
            q >= 0,
            q3 == q * q * q,
    ;
    assert(e * e * q3 <= f * f * q3) by (nonlinear_arith)
        requires
            0 <= e <= f,
            q3 >= 0,
    ;
}

/// A value that covers exactly from itself on is the equipment.
pub proof fn lemma_equipment_unique(factories: u16, farms: u16, e: u16)
    requires
        e < 65535 ==> equipment_covers(factories, farms, e as int),
        e > 0 ==> !equipment_covers(factories, farms, e - 1),
    ensures
        equipment_of(factories, farms) == e,
{
    assert(equipment_least(factories, farms, e));
    let c = equipment_of(factories, farms);
    assert(equipment_least(factories, farms, c));
    if c < e {
        lemma_covers_monotonic(factories, farms, c as int, e - 1);
    }
    if e < c {
        lemma_covers_monotonic(factories, farms, e as int, c - 1);
    }
}

/// The population of a city that is not working, and at least one.
pub open spec fn recruitable_of(population: u16, factories: u16, farms: u16) -> int {
    if population - workers_of(factories, farms) > 1 { population - workers_of(factories, farms) } else { 1 }
}

/// The manpower a city recovers is its recruitable population (the population less its
/// workers, at least one) times the larger of farms / 5.0 / factories and 0.67, rounded up
/// and saturated at the largest `u16`.
pub proof fn law_manpower_recruitable(population: u16, factories: u16, farms: u16)
    requires
        factories > 0,
        farms > 0,
    ensures
        ({
            let r = if population > workers_of(factories, farms) + 1 {
                population - workers_of(factories, farms)
            } else {
                1
            };
            let m = manpower_of(population, factories, farms) as int;
            &&& r == recruitable_of(population, factories, farms)
            &&& 100 * farms >= 335 * factories ==> {
                &&& m < 65535 ==> m * (5 * factories) >= r * farms > (m - 1) * (5 * factories)
                &&& m == 65535 ==> r * farms > 65534 * (5 * factories)
            }
            &&& 100 * farms < 335 * factories ==> m * 100 >= r * 67 > (m - 1) * 100
        }),
{
    let w = workers_of(factories, farms) as int;
    let r = recruitable_of(population, factories, farms);
    assert(r >= 1);
    if 100 * farms >= 335 * factories {
        let d = 5 * factories as int;
        let x = r * farms;
        let c = (x + d - 1) / d;
        assert(c * d >= x && (c - 1) * d < x) by (nonlinear_arith)
            requires
                d > 0,
                x >= 0,
                c == (x + d - 1) / d,
        ;
        assert(x >= 0) by (nonlinear_arith)
            requires
                r >= 1,
                farms >= 1,
                x == r * farms,
        ;
        if c > 65535 {
            assert(65534 * d < x) by (nonlinear_arith)
                requires
                    c >= 65536,
                    (c - 1) * d < x,
                    d > 0,
            ;
        }
    } else {
        let x = r * 67;
        let c = (x + 99) / 100;
        assert(c * 100 >= x && (c - 1) * 100 < x);
        assert(c <= 65535);
    }
}

/// A city whose population does not exceed its workers by more than one recovers the
/// manpower of a single recruitable: its workers are not recruited.
pub proof fn law_manpower_workers_excluded(population: u16, factories: u16, farms: u16)
    requires
        population <= workers_of(factories, farms) + 1,
    ensures
        manpower_of(population, factories, farms) == manpower_of(1, factories, farms),
{
}

/// The manpower a city recovers only grows with its population.
pub proof fn law_manpower_monotonic(population: u16, more: u16, factories: u16, farms: u16)
    requires
        factories > 0,
        population <= more,
    ensures
        manpower_of(population, factories, farms) <= manpower_of(more, factories, farms),
{
    let r1 = recruitable_of(population, factories, farms);
    let r2 = recruitable_of(more, factories, farms);
    assert(r1 <= r2);
    if 100 * farms >= 335 * factories {
        let d = 5 * factories as int;
        assert((r1 * farms + d - 1) / d <= (r2 * farms + d - 1) / d) by (nonlinear_arith)
            requires
                d > 0,
                1 <= r1 <= r2,
                farms >= 0,
        ;
    } else {
        assert((r1 * 67 + 99) / 100 <= (r2 * 67 + 99) / 100) by (nonlinear_arith)
            requires
                1 <= r1 <= r2,
        ;
    }
}

/// A city: its population (thousands), factories, farms, and the unit it can recruit.
#[derive(Debug, Clone, Copy)]
pub struct City {
    population: u16,
    factories: u16,
    farms: u16,
    recruit_id: Option<ID>,
}

impl City {
    /// The population (thousands).
    pub closed spec fn population(&self) -> u16 {
        self.population
    }

    /// The factories.
    pub closed spec fn factories(&self) -> u16 {
        self.factories
    }

    /// The farms.
    pub closed spec fn farms(&self) -> u16 {
        self.farms
    }

    /// The unit the city can recruit.
    pub closed spec fn recruit(&self) -> Option<ID> {
        self.recruit_id
    }

    /// Whether the city has a population, factories and farms.
    pub open spec fn wf(&self) -> bool {
        self.population() > 0 && self.factories() > 0 && self.farms() > 0
    }

    /// Creates a city; it has a population, factories and farms.
    pub fn new(population: u16, factories: u16, farms: u16, recruit_id: Option<ID>) -> (city: Self)
        requires
            population > 0,
            factories > 0,
            farms > 0,
        ensures
            city.population() == population,
            city.factories() == factories,
            city.farms() == farms,
            city.recruit() == recruit_id,
            city.wf(),
    {
        Self { population, factories, farms, recruit_id }
    }

    /// Gets the workers: 4.0 per factory and 1.5 per farm, rounded down.
    pub fn get_workers(&self) -> (workers: u16)
        ensures
            workers == workers_of(self.factories(), self.farms()),
    {
        let workers: u32 = 4 * (self.factories as u32) + (3 * (self.farms as u32)) / 2;

        if workers > 65535 {
            65535
        } else {
            workers as u16
        }
    }

    /// Gets the manpower the city recovers.
    pub fn get_manpower(&self) -> (manpower: u16)
        requires
            self.wf(),
        ensures
            manpower == manpower_of(self.population(), self.factories(), self.farms()),
    {
        let workers: u16 = self.get_workers();
        let recruitable: u64 = if self.population > workers && self.population - workers > 1 {
            (self.population - workers) as u64
        } else {
            1
        };
        let factories: u64 = self.factories as u64;
        let farms: u64 = self.farms as u64;
        let manpower: u64 = if 100 * farms >= 335 * factories {
            assert(recruitable * farms <= 65535 * 65535) by (nonlinear_arith)
                requires
                    recruitable <= 65535,
                    farms <= 65535,
            ;
            (recruitable * farms + 5 * factories - 1) / (5 * factories)
        } else {
            (recruitable * 67 + 99) / 100
        };

        if manpower > 65535 {
            65535
        } else {
            manpower as u16
        }
    }

    /// Gets the equipment the city recovers: the square root of (factories + modifier),
    /// times the modifier, rounded up.
    pub fn get_equipment(&self) -> (equipment: u16)
        requires
            self.wf(),
        ensures
            equipment < 65535 ==> equipment_covers(self.factories(), self.farms(), equipment as int),
            equipment > 0 ==> !equipment_covers(self.factories(), self.farms(), equipment - 1),
            equipment == equipment_of(self.factories(), self.farms()),
    {
        let factories: u128 = self.factories as u128;
        let farms: u128 = self.farms as u128;
        let (p, q): (u128, u128) = if factories >= 3 && 100 * (2 * factories - 5) >= 134 * farms {
            (2 * factories - 5, 2 * farms)
        } else {
            (67, 100)
        };
        proof {
            assert(equipment_modifier(self.factories, self.farms) == (p as int, q as int));
            assert(p <= 131070 && q <= 131070 && q >= 2);
            assert(q * q <= 131070 * 131070) by (nonlinear_arith) requires q <= 131070;
            assert(q * q * q <= 131070 * 131070 * 131070) by (nonlinear_arith) requires q <= 131070, q * q <= 131070 * 131070;
            assert(factories * q <= 65535 * 131070) by (nonlinear_arith) requires factories <= 65535, q <= 131070;
            assert(p * p <= 131070 * 131070) by (nonlinear_arith) requires p <= 131070;
            assert((factories * q + p) * (p * p) <= (65535 * 131070 + 131070) * (131070 * 131070)) by (nonlinear_arith)
                requires
                    factories * q + p <= 65535 * 131070 + 131070,
                    p * p <= 131070 * 131070,
            ;
        }
        let q3: u128 = q * q * q;
        let target: u128 = (factories * q + p) * (p * p);
        let mut lo: u128 = 0;
        let mut hi: u128 = 65535;

        while lo < hi
            invariant
                lo <= hi <= 65535,
                q3 == q * q * q,
                q3 <= 2251724163661000,
                target == (factories * q + p) * (p * p),
                equipment_modifier(self.factories, self.farms) == (p as int, q as int),
                factories == self.factories,
                hi < 65535 ==> equipment_covers(self.factories, self.farms, hi as int),
                lo > 0 ==> !equipment_covers(self.factories, self.farms, lo - 1),
            decreases hi - lo,
        {
            let mid: u128 = lo + (hi - lo) / 2;
            assert(mid * mid <= 65535 * 65535) by (nonlinear_arith)
                requires
                    mid <= 65535,
            ;
            assert(mid * mid * q3 <= 4294836225 * 2251724163661000) by (nonlinear_arith)
                requires
                    mid * mid <= 4294836225,
                    q3 <= 2251724163661000,
            ;
            if mid * mid * q3 >= target {
                assert(equipment_covers(self.factories, self.farms, mid as int));
                hi = mid;
            } else {
                assert(!equipment_covers(self.factories, self.farms, mid as int));
                lo = mid + 1;
            }
        }

        assert(lo == hi);
        let equipment: u16 = lo as u16;
        assert(equipment as int == lo as int);
        proof {
            lemma_equipment_unique(self.factories, self.farms, equipment);
        }
        equipment
    }

    /// Gets the population (thousands).
    pub fn get_population(&self) -> (population: u16)
        ensures
            population == self.population(),
    {
        self.population
    }

    /// Gets the factories.
    pub fn get_factories(&self) -> (factories: u16)
        ensures
            factories == self.factories(),
    {
        self.factories
    }

    /// Gets the farms.
    pub fn get_farms(&self) -> (farms: u16)
        ensures
            farms == self.farms(),
    {
        self.farms
    }

    /// Gets the unit the city can recruit.
    pub fn get_recruit_id(&self) -> (recruit_id: Option<ID>)
        ensures
            recruit_id == self.recruit(),
    {
        self.recruit_id
    }
}

} // verus!
