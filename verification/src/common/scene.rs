use vstd::prelude::*;
use crate::character::{Element, FactionBuilder, Magic, Skill, SkillKind, UnitBuilder, Weapon};
use crate::common::{debug, ID};
use crate::dynamic::{AppliableBox, AppliableKind, Attribute, Effect, Modifier, adjustment_ok};
use crate::map::{City, Location, Terrain, TileBuilder};
use std::rc::Rc;

verus! {

/// Calls `Rc::clone` (std), which makes another pointer to the same scene: the clone equals the scene it points to.
#[verifier::external_body]
pub(crate) fn share_scene(scene: &Rc<Scene>) -> (shared: Rc<Scene>)
    ensures
        shared == *scene,
{
    Rc::clone(scene)
}

/// Makes the debug scene, to be shared.
pub fn generate_scene() -> (scene: Rc<Scene>)
    ensures
        scene.wf(),
        debug::is_debug_scene(*scene),
{
    Rc::new(Scene::default())
}

/// The lists of every game object of a scenario, indexed by identifier, and its map.
#[derive(Debug)]
pub struct Scene {
    modifiers: Vec<Modifier>,
    effects: Vec<Effect>,
    attributes: Vec<Attribute>,
    terrains: Vec<Terrain>,
    cities: Vec<City>,
    weapons: Vec<Weapon>,
    magics: Vec<Magic>,
    skills: Vec<Skill>,
    faction_builders: Vec<FactionBuilder>,
    unit_builders: Vec<UnitBuilder>,
    tile_builders: Vec<Vec<TileBuilder>>,
    unit_locations: Vec<Option<Location>>,
    textures_terrain: Vec<&'static str>,
    textures_unit: Vec<&'static str>,
}

impl Scene {
    /// The modifiers.
    pub closed spec fn modifiers(&self) -> Seq<Modifier> {
        self.modifiers@
    }

    /// The effects.
    pub closed spec fn effects(&self) -> Seq<Effect> {
        self.effects@
    }

    /// The attributes.
    pub closed spec fn attributes(&self) -> Seq<Attribute> {
        self.attributes@
    }

    /// The terrains.
    pub closed spec fn terrains(&self) -> Seq<Terrain> {
        self.terrains@
    }

    /// The cities.
    pub closed spec fn cities(&self) -> Seq<City> {
        self.cities@
    }

    /// The weapons.
    pub closed spec fn weapons(&self) -> Seq<Weapon> {
        self.weapons@
    }

    /// The magics.
    pub closed spec fn magics(&self) -> Seq<Magic> {
        self.magics@
    }

    /// The skills.
    pub closed spec fn skills(&self) -> Seq<Skill> {
        self.skills@
    }

    /// The faction builders.
    pub closed spec fn faction_builders(&self) -> Seq<FactionBuilder> {
        self.faction_builders@
    }

    /// The unit builders.
    pub closed spec fn unit_builders(&self) -> Seq<UnitBuilder> {
        self.unit_builders@
    }

    /// The rows of tile builders of the map.
    pub closed spec fn tile_builders(&self) -> Seq<Seq<TileBuilder>> {
        self.tile_builders@.map_values(|row: Vec<TileBuilder>| row@)
    }

    /// Where each unit starts, if it starts on the map.
    pub closed spec fn unit_locations(&self) -> Seq<Option<Location>> {
        self.unit_locations@
    }

    /// The terrain textures.
    pub closed spec fn textures_terrain(&self) -> Seq<&'static str> {
        self.textures_terrain@
    }

    /// The unit textures.
    pub closed spec fn textures_unit(&self) -> Seq<&'static str> {
        self.textures_unit@
    }

    /// Whether `kind` names an object of the scene.
    pub open spec fn valid_kind(&self, kind: AppliableKind) -> bool {
        match kind {
            AppliableKind::Modifier(m) => m < self.modifiers().len(),
            AppliableKind::Effect(e) => e < self.effects().len(),
            AppliableKind::Attribute(a) => a < self.attributes().len(),
        }
    }

    /// The object that `kind` names.
    pub open spec fn appliable_of(&self, kind: AppliableKind) -> AppliableBox {
        match kind {
            AppliableKind::Modifier(m) => AppliableBox::Modifier(self.modifiers()[m as int]),
            AppliableKind::Effect(e) => AppliableBox::Effect(self.effects()[e as int]),
            AppliableKind::Attribute(a) => AppliableBox::Attribute(self.attributes()[a as int]),
        }
    }

    /// Whether the modifier at `i` is consistent with the scene.
    pub open spec fn modifier_wf(&self, i: int) -> bool {
        let m = self.modifiers()[i];
        &&& m.id() == i
        &&& m.applier() == None::<ID>
        &&& (m.next() matches Some(n) ==> n < self.modifiers().len())
        &&& forall|j: int| 0 <= j < m.adjustments().len() ==> adjustment_ok(#[trigger] m.adjustments()[j])
        &&& (m.adjustments().len() > 0 && m.adjustments()[0].0 is Tile ==> {
            &&& m.adjustments()[0].1 <= 100
            &&& (m.next() matches Some(n) ==> {
                let k = self.modifiers()[n as int];
                k.adjustments().len() > 0 && k.adjustments()[0].0 is Tile
            })
        })
    }

    /// Whether the effect at `i` is consistent with the scene.
    pub open spec fn effect_wf(&self, i: int) -> bool {
        let e = self.effects()[i];
        &&& e.id() == i
        &&& forall|j: int| 0 <= j < e.adjustments().len() ==> adjustment_ok(#[trigger] e.adjustments()[j])
    }

    /// Whether the attribute at `i` is consistent with the scene.
    pub open spec fn attribute_wf(&self, i: int) -> bool {
        let a = self.attributes()[i];
        &&& a.id() == i
        &&& a.applier() == None::<ID>
        &&& self.valid_kind(a.appliable_kind())
        &&& !(a.appliable_kind() is Attribute)
    }

    /// Whether the skill at `i` is consistent with the scene.
    pub open spec fn skill_wf(&self, i: int) -> bool {
        let s = self.skills()[i];
        &&& s.id() == i
        &&& s.wf()
        &&& forall|j: int| 0 <= j < s.appliables().len() ==> {
            &&& self.valid_kind(#[trigger] s.appliables()[j])
            &&& s.appliables()[j] is Attribute
        }
    }

    /// Whether the unit builder at `i` is consistent with the scene.
    pub open spec fn unit_builder_wf(&self, i: int) -> bool {
        let u = self.unit_builders()[i];
        &&& u.id() == i
        &&& u.statistics().wf()
        &&& u.weapon_ids().len() > 0
        &&& (forall|j: int| 0 <= j < u.weapon_ids().len() ==> #[trigger] u.weapon_ids()[j] < self.weapons().len())
        &&& (u.skill_passive() matches Some(s) ==> s < self.skills().len())
        &&& (forall|j: int| 0 <= j < u.skill_ids().len() ==> #[trigger] u.skill_ids()[j] < self.skills().len())
        &&& u.faction() < self.faction_builders().len()
    }

    /// Whether every identifier of the scene names an object of it, every object sits at the
    /// index of its identifier, and the map is a non-empty rectangle of valid tiles.
    pub open spec fn wf(&self) -> bool {
        &&& (forall|i: int| 0 <= i < self.modifiers().len() ==> #[trigger] self.modifier_wf(i))
        &&& (forall|i: int| 0 <= i < self.effects().len() ==> #[trigger] self.effect_wf(i))
        &&& (forall|i: int| 0 <= i < self.attributes().len() ==> #[trigger] self.attribute_wf(i))
        &&& (forall|i: int| 0 <= i < self.terrains().len() ==> {
            &&& (#[trigger] self.terrains()[i]).cost() <= 100
            &&& (self.terrains()[i].modifier() matches Some(m) ==> m < self.modifiers().len())
        })
        &&& (forall|i: int| 0 <= i < self.cities().len() ==> {
            &&& (#[trigger] self.cities()[i]).wf()
            &&& (self.cities()[i].recruit() matches Some(u) ==> u < self.unit_builders().len())
        })
        &&& (forall|i: int| 0 <= i < self.weapons().len() ==> {
            &&& (#[trigger] self.weapons()[i]).id() == i
            &&& self.weapons()[i].attribute_on_attack() == None::<Attribute>
        })
        &&& (forall|i: int| 0 <= i < self.magics().len() ==> {
            &&& (#[trigger] self.magics()[i]).id() == i
            &&& self.magics()[i].attribute() < self.attributes().len()
            &&& self.magics()[i].element() != Element::Length
        })
        &&& (forall|i: int| 0 <= i < self.skills().len() ==> #[trigger] self.skill_wf(i))
        &&& (forall|i: int| 0 <= i < self.faction_builders().len() ==> (#[trigger] self.faction_builders()[i]).id() == i)
        &&& (forall|i: int| 0 <= i < self.unit_builders().len() ==> #[trigger] self.unit_builder_wf(i))
        &&& self.tile_builders().len() > 0
        &&& self.tile_builders()[0].len() > 0
        &&& (forall|i: int| 0 <= i < self.tile_builders().len() ==> (#[trigger] self.tile_builders()[i]).len() == self.tile_builders()[0].len())
        &&& (forall|i: int, j: int| 0 <= i < self.tile_builders().len() && 0 <= j < self.tile_builders()[i].len()
            ==> (#[trigger] self.tile_builders()[i][j]).valid_in(*self))
    }

    /// An attribute of a well-formed scene names a change of it.
    pub proof fn lemma_attribute_valid(&self, i: int)
        requires
            self.wf(),
            0 <= i < self.attributes().len(),
        ensures
            self.valid_kind(self.attributes()[i].appliable_kind()),
            self.attributes()[i].id() == i,
    {
        assert(self.attribute_wf(i));
    }

    /// A modifier of a well-formed scene is consistent with it.
    pub proof fn lemma_modifier(&self, i: int)
        requires
            self.wf(),
            0 <= i < self.modifiers().len(),
        ensures
            self.modifier_wf(i),
    {
    }

    /// A terrain of a well-formed scene costs at most 100.
    pub proof fn lemma_terrain_cost(&self, i: int)
        requires
            self.wf(),
            0 <= i < self.terrains().len(),
        ensures
            self.terrains()[i].cost() <= 100,
            self.terrains()[i].modifier() matches Some(m) ==> m < self.modifiers().len(),
    {
        assert(self.terrains()[i].cost() <= 100);
    }

    /// Creates a scene of the given lists.
    pub fn new(
        modifiers: Vec<Modifier>,
        effects: Vec<Effect>,
        attributes: Vec<Attribute>,
        terrains: Vec<Terrain>,
        cities: Vec<City>,
        weapons: Vec<Weapon>,
        magics: Vec<Magic>,
        skills: Vec<Skill>,
        faction_builders: Vec<FactionBuilder>,
        unit_builders: Vec<UnitBuilder>,
        tile_builders: Vec<Vec<TileBuilder>>,
        unit_locations: Vec<Option<Location>>,
        textures_terrain: Vec<&'static str>,
        textures_unit: Vec<&'static str>,
    ) -> (scene: Self)
        ensures
            scene.modifiers() == modifiers@,
            scene.effects() == effects@,
            scene.attributes() == attributes@,
            scene.terrains() == terrains@,
            scene.cities() == cities@,
            scene.weapons() == weapons@,
            scene.magics() == magics@,
            scene.skills() == skills@,
            scene.faction_builders() == faction_builders@,
            scene.unit_builders() == unit_builders@,
            scene.tile_builders() == tile_builders@.map_values(|row: Vec<TileBuilder>| row@),
            scene.unit_locations() == unit_locations@,
            scene.textures_terrain() == textures_terrain@,
            scene.textures_unit() == textures_unit@,
    {
        Self {
            modifiers,
            effects,
            attributes,
            terrains,
            cities,
            weapons,
            magics,
            skills,
            faction_builders,
            unit_builders,
            tile_builders,
            unit_locations,
            textures_terrain,
            textures_unit,
        }
    }

    /// The scene of the debug scenario: a two-by-three map, five units of three factions,
    /// and the objects they use.
    pub fn debug() -> (scene: Self)
        ensures
            scene.wf(),
            debug::is_debug_scene(scene),
    {
        let modifiers: Vec<Modifier> = debug::debug_modifiers();
        let effects: Vec<Effect> = debug::debug_effects();
        let attributes: Vec<Attribute> = debug::debug_attributes();
        let terrains: Vec<Terrain> = debug::debug_terrains();
        let cities: Vec<City> = debug::debug_cities();
        let weapons: Vec<Weapon> = debug::debug_weapons();
        let magics: Vec<Magic> = debug::debug_magics();
        let skills: Vec<Skill> = debug::debug_skills();
        let faction_builders: Vec<FactionBuilder> = debug::debug_faction_builders();
        let unit_builders: Vec<UnitBuilder> = debug::debug_unit_builders();
        let tile_builders: Vec<Vec<TileBuilder>> = debug::debug_tile_builders();
        let unit_locations: Vec<Option<Location>> = debug::debug_unit_locations();
        let textures_terrain: Vec<&'static str> = Vec::new();
        let textures_unit: Vec<&'static str> = Vec::new();
        let scene = Scene::new(
            modifiers,
            effects,
            attributes,
            terrains,
            cities,
            weapons,
            magics,
            skills,
            faction_builders,
            unit_builders,
            tile_builders,
            unit_locations,
            textures_terrain,
            textures_unit,
        );

        proof {
            assert(scene.modifier_wf(0));
            assert(scene.modifier_wf(1));
            assert(scene.modifier_wf(2));
            assert(scene.modifier_wf(3));
            assert(scene.modifier_wf(4));
            assert(scene.modifier_wf(5));
            assert(scene.modifier_wf(6));
            assert(scene.modifier_wf(7));
            assert(scene.modifier_wf(8));
            assert(scene.modifier_wf(9));
            assert forall|i: int| 0 <= i < 10 implies #[trigger] scene.modifier_wf(i) by {
                if i == 0 {} else if i == 1 {} else if i == 2 {} else if i == 3 {} else if i == 4 {} else if i == 5 {} else if i == 6 {} else if i == 7 {} else if i == 8 {} else if i == 9 {}
            }
            assert(scene.effect_wf(0));
            assert(scene.effect_wf(1));
            assert forall|i: int| 0 <= i < 2 implies #[trigger] scene.effect_wf(i) by {
                if i == 0 {} else if i == 1 {}
            }
            assert(scene.attribute_wf(0));
            assert(scene.attribute_wf(1));
            assert(scene.attribute_wf(2));
            assert(scene.attribute_wf(3));
            assert(scene.attribute_wf(4));
            assert(scene.attribute_wf(5));
            assert(scene.attribute_wf(6));
            assert(scene.attribute_wf(7));
            assert(scene.attribute_wf(8));
            assert(scene.attribute_wf(9));
            assert(scene.attribute_wf(10));
            assert forall|i: int| 0 <= i < 11 implies #[trigger] scene.attribute_wf(i) by {
                if i == 0 {} else if i == 1 {} else if i == 2 {} else if i == 3 {} else if i == 4 {} else if i == 5 {} else if i == 6 {} else if i == 7 {} else if i == 8 {} else if i == 9 {} else if i == 10 {}
            }
            assert(scene.skill_wf(0));
            assert(scene.skill_wf(1));
            assert(scene.skill_wf(2));
            assert(scene.skill_wf(3));
            assert(scene.skill_wf(4));
            assert(scene.skill_wf(5));
            assert(scene.skill_wf(6));
            assert forall|i: int| 0 <= i < 7 implies #[trigger] scene.skill_wf(i) by {
                if i == 0 {} else if i == 1 {} else if i == 2 {} else if i == 3 {} else if i == 4 {} else if i == 5 {} else if i == 6 {}
            }
            assert(scene.unit_builder_wf(0));
            assert(scene.unit_builder_wf(1));
            assert(scene.unit_builder_wf(2));
            assert(scene.unit_builder_wf(3));
            assert(scene.unit_builder_wf(4));
            assert forall|i: int| 0 <= i < 5 implies #[trigger] scene.unit_builder_wf(i) by {
                if i == 0 {} else if i == 1 {} else if i == 2 {} else if i == 3 {} else if i == 4 {}
            }
            assert(scene.wf());
        }
        scene
    }

    /// Gets a modifier.
    pub fn get_modifier(&self, id: &ID) -> (modifier: &Modifier)
        requires
            *id < self.modifiers().len(),
        ensures
            *modifier == self.modifiers()[*id as int],
    {
        &self.modifiers[*id]
    }

    /// Gets an effect.
    pub fn get_effect(&self, id: &ID) -> (effect: &Effect)
        requires
            *id < self.effects().len(),
        ensures
            *effect == self.effects()[*id as int],
    {
        &self.effects[*id]
    }

    /// Gets an attribute.
    pub fn get_attribute(&self, id: &ID) -> (attribute: &Attribute)
        requires
            *id < self.attributes().len(),
        ensures
            *attribute == self.attributes()[*id as int],
    {
        &self.attributes[*id]
    }

    /// Gets a terrain.
    pub fn get_terrain(&self, id: &ID) -> (terrain: &Terrain)
        requires
            *id < self.terrains().len(),
        ensures
            *terrain == self.terrains()[*id as int],
    {
        &self.terrains[*id]
    }

    /// Gets a city.
    pub fn get_city(&self, id: &ID) -> (city: &City)
        requires
            *id < self.cities().len(),
        ensures
            *city == self.cities()[*id as int],
    {
        &self.cities[*id]
    }

    /// Gets a weapon.
    pub fn get_weapon(&self, id: &ID) -> (weapon: &Weapon)
        requires
            *id < self.weapons().len(),
        ensures
            *weapon == self.weapons()[*id as int],
    {
        &self.weapons[*id]
    }

    /// Gets a magic.
    pub fn get_magic(&self, id: &ID) -> (magic: &Magic)
        requires
            *id < self.magics().len(),
        ensures
            *magic == self.magics()[*id as int],
    {
        &self.magics[*id]
    }

    /// Gets the magics, in order.
    pub fn magics_iter(&self) -> (magics: &[Magic])
        ensures
            magics@ == self.magics(),
    {
        self.magics.as_slice()
    }

    /// Gets a skill.
    pub fn get_skill(&self, id: &ID) -> (skill: &Skill)
        requires
            *id < self.skills().len(),
        ensures
            *skill == self.skills()[*id as int],
    {
        &self.skills[*id]
    }

    /// Gets a faction builder.
    pub fn get_faction_builder(&self, id: &ID) -> (builder: &FactionBuilder)
        requires
            *id < self.faction_builders().len(),
        ensures
            *builder == self.faction_builders()[*id as int],
    {
        &self.faction_builders[*id]
    }

    /// Gets the faction builders, in order.
    pub fn faction_builders_iter(&self) -> (builders: &[FactionBuilder])
        ensures
            builders@ == self.faction_builders(),
    {
        self.faction_builders.as_slice()
    }

    /// Gets a unit builder.
    pub fn get_unit_builder(&self, id: &ID) -> (builder: &UnitBuilder)
        requires
            *id < self.unit_builders().len(),
        ensures
            *builder == self.unit_builders()[*id as int],
    {
        &self.unit_builders[*id]
    }

    /// Gets the unit builders, in order.
    pub fn unit_builders_iter(&self) -> (builders: &[UnitBuilder])
        ensures
            builders@ == self.unit_builders(),
    {
        self.unit_builders.as_slice()
    }

    /// Gets the rows of tile builders of the map.
    pub fn get_tile_builders(&self) -> (rows: &Vec<Vec<TileBuilder>>)
        ensures
            rows@.map_values(|row: Vec<TileBuilder>| row@) == self.tile_builders(),
    {
        &self.tile_builders
    }

    /// Gets where a unit starts.
    pub fn get_unit_location(&self, unit_id: &ID) -> (location: &Option<Location>)
        requires
            *unit_id < self.unit_locations().len(),
        ensures
            *location == self.unit_locations()[*unit_id as int],
    {
        &self.unit_locations[*unit_id]
    }

    /// Gets where each unit starts, in order.
    pub fn unit_locations_iter(&self) -> (locations: &[Option<Location>])
        ensures
            locations@ == self.unit_locations(),
    {
        self.unit_locations.as_slice()
    }

    /// Gets the terrain textures, in order.
    pub fn textures_terrain_iter(&self) -> (textures: &[&'static str])
        ensures
            textures@ == self.textures_terrain(),
    {
        self.textures_terrain.as_slice()
    }

    /// Gets the unit textures, in order.
    pub fn textures_unit_iter(&self) -> (textures: &[&'static str])
        ensures
            textures@ == self.textures_unit(),
    {
        self.textures_unit.as_slice()
    }
}

impl Default for Scene {
    /// The debug scene.
    fn default() -> (scene: Self)
        ensures
            scene.wf(),
            debug::is_debug_scene(scene),
    {
        Scene::debug()
    }
}

} // verus!
