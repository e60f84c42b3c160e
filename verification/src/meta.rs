//! Names, costs and traits of a set, as Community Dragon publishes them.

use crate::json::{elements, Json, JsonModel};
use crate::table::Table;
use crate::text::{
    contains, lowercase, occurs, replace, replaced, to_lowercase, views,
};
use vstd::prelude::*;
use vstd::string::*;

verus! {

/// What is known of a set.
pub struct Meta {
    pub augments: Table<String>,
    pub units: Table<UnitMeta>,
    pub items: Table<String>,
    /// Names of the traits by id.
    pub traits: Table<String>,
    /// Icons and steps of the traits by name.
    pub trait_details: Table<TraitMeta>,
}

pub struct UnitMeta {
    pub name: String,
    pub cost: i32,
    pub traits: Vec<String>,
    pub ability: Option<SkillMeta>,
}

pub struct SkillMeta {
    pub name: String,
    /// The address of the icon.
    pub icon: String,
    pub desc: String,
    /// As published.
    pub variables: Json,
}

pub struct TraitMeta {
    pub name: String,
    pub icon: String,
    /// How many units a step takes, and its style.
    pub breakpoints: Vec<(i32, i32)>,
}

pub struct SkillModel {
    pub name: Seq<char>,
    pub icon: Seq<char>,
    pub desc: Seq<char>,
    pub variables: JsonModel,
}

pub struct UnitMetaModel {
    pub name: Seq<char>,
    pub cost: i32,
    pub traits: Seq<Seq<char>>,
    pub ability: Option<SkillModel>,
}

pub struct TraitMetaModel {
    pub name: Seq<char>,
    pub icon: Seq<char>,
    pub breakpoints: Seq<(i32, i32)>,
}

impl View for SkillMeta {
    type V = SkillModel;

    open spec fn view(&self) -> SkillModel {
        SkillModel {
            name: self.name@,
            icon: self.icon@,
            desc: self.desc@,
            variables: self.variables@,
        }
    }
}

impl View for UnitMeta {
    type V = UnitMetaModel;

    open spec fn view(&self) -> UnitMetaModel {
        UnitMetaModel {
            name: self.name@,
            cost: self.cost,
            traits: views(self.traits@),
            ability: match self.ability {
                Some(a) => Some(a@),
                None => None,
            },
        }
    }
}

impl View for TraitMeta {
    type V = TraitMetaModel;

    open spec fn view(&self) -> TraitMetaModel {
        TraitMetaModel { name: self.name@, icon: self.icon@, breakpoints: self.breakpoints@ }
    }
}

/// A map by what its values are.
pub open spec fn map_model<V: View>(m: Map<Seq<char>, V>) -> Map<Seq<char>, V::V> {
    Map::new(|k: Seq<char>| m.contains_key(k), |k: Seq<char>| m[k]@)
}

proof fn lemma_map_model_insert<V: View>(m: Map<Seq<char>, V>, k: Seq<char>, v: V)
    ensures
        map_model(m.insert(k, v)) == map_model(m).insert(k, v@),
{
    assert(map_model(m.insert(k, v)) =~= map_model(m).insert(k, v@));
}

proof fn lemma_map_model_empty<V: View>()
    ensures
        map_model(Map::<Seq<char>, V>::empty()) == Map::<Seq<char>, V::V>::empty(),
{
    assert(map_model(Map::<Seq<char>, V>::empty()) =~= Map::<Seq<char>, V::V>::empty());
}

// ---------------------------------------------------------------- addresses

/// Where the data of a set is published.
pub fn cdragon_url(use_pbe: bool) -> (r: String)
    ensures
        r@ == if use_pbe {
            "https://raw.communitydragon.org/pbe/cdragon/tft/ko_kr.json"@
        } else {
            "https://raw.communitydragon.org/latest/cdragon/tft/ko_kr.json"@
        },
{
    if use_pbe {
        "https://raw.communitydragon.org/pbe/cdragon/tft/ko_kr.json".to_string()
    } else {
        "https://raw.communitydragon.org/latest/cdragon/tft/ko_kr.json".to_string()
    }
}

/// Where the data of a set is published in a language.
pub fn cdragon_url_in(lang: &str) -> (r: String)
    ensures
        r@ == "https://raw.communitydragon.org/latest/cdragon/tft/"@ + lang@ + ".json"@,
{
    "https://raw.communitydragon.org/latest/cdragon/tft/".to_string().concat(lang).concat(".json")
}

/// The address of the picture that a texture path names: in lower case, as a `.png`.
pub open spec fn picture_url(raw: Seq<char>) -> Seq<char> {
    "https://raw.communitydragon.org/latest/game/"@ + replaced(lowercase(raw), ".tex"@, ".png"@)
}

/// The address of the picture that a texture path names; empty for the empty path.
pub open spec fn icon_url(raw: Seq<char>) -> Seq<char> {
    if raw.len() == 0 {
        raw
    } else {
        picture_url(raw)
    }
}

/// The address of the picture that a texture path names.
pub fn cdragon_picture_url(raw: &str) -> (r: String)
    ensures
        r@ == picture_url(raw@),
{
    proof {
        reveal_strlit(".tex");
    }
    let low = to_lowercase(raw);
    let png = replace(low.as_str(), ".tex", ".png");
    "https://raw.communitydragon.org/latest/game/".to_string().concat(png.as_str())
}

/// The address of the picture that a texture path names; empty for the empty path.
pub fn cdragon_icon_url(raw: &str) -> (r: String)
    ensures
        r@ == icon_url(raw@),
{
    if raw.is_empty() {
        String::new()
    } else {
        cdragon_picture_url(raw)
    }
}

// ---------------------------------------------------------------- items and augments

/// Id and name of a published entry that has both.
pub open spec fn id_and_name(it: JsonModel) -> Option<(Seq<char>, Seq<char>)> {
    match (it.str_at("apiName"@), it.str_at("name"@)) {
        (Some(id), Some(name)) => Some((id, name)),
        _ => None,
    }
}

/// The names of the items, or of the augments, by id. Entries without a name are left out,
/// and of two entries with one id the later counts.
pub open spec fn item_names(items: Seq<JsonModel>, augments: bool) -> Map<Seq<char>, Seq<char>>
    decreases items.len(),
{
    if items.len() == 0 {
        Map::empty()
    } else {
        let m = item_names(items.drop_last(), augments);
        match id_and_name(items.last()) {
            Some((id, name)) => if name.len() > 0 && occurs(id, "_Augment_"@) == augments {
                m.insert(id, name)
            } else {
                m
            },
            None => m,
        }
    }
}

/// Id and name of a published entry that has both.
fn read_id_and_name(it: &Json) -> (r: Option<(String, String)>)
    ensures
        match r {
            Some(p) => id_and_name(it@) == Some((p.0@, p.1@)),
            None => id_and_name(it@) is None,
        },
{
    match (it.str_at("apiName"), it.str_at("name")) {
        (Some(id), Some(name)) => Some((id.clone(), name.clone())),
        _ => None,
    }
}

/// The names of the augments and those of the items.
fn read_items(items: &Vec<Json>) -> (r: (Table<String>, Table<String>))
    ensures
        map_model(r.0@) == item_names(elements(items@), true),
        map_model(r.1@) == item_names(elements(items@), false),
{
    let ghost all = elements(items@);
    let mut augments: Table<String> = Table::new();
    let mut names: Table<String> = Table::new();
    proof {
        lemma_map_model_empty::<String>();
    }
    let mut i: usize = 0;
    while i < items.len()
        invariant
            i <= items@.len(),
            all == elements(items@),
            map_model(augments@) == item_names(all.take(i as int), true),
            map_model(names@) == item_names(all.take(i as int), false),
        decreases items@.len() - i,
    {
        proof {
            assert(all.take(i + 1).drop_last() == all.take(i as int));
            assert(all.take(i + 1).last() == items@[i as int]@);
        }
        match read_id_and_name(&items[i]) {
            Some((id, name)) => {
                if !name.as_str().is_empty() {
                    if contains(id.as_str(), "_Augment_") {
                        proof {
                            lemma_map_model_insert(augments@, id@, name);
                        }
                        augments = augments.insert(id, name);
                    } else {
                        proof {
                            lemma_map_model_insert(names@, id@, name);
                        }
                        names = names.insert(id, name);
                    }
                }
            },
            None => {},
        }
        i += 1;
    }
    assert(all.take(all.len() as int) == all);
    (augments, names)
}

// ---------------------------------------------------------------- traits

/// The steps of a trait: its effects that say both how many units they take and their style.
pub open spec fn steps(effects: Seq<JsonModel>) -> Seq<(i32, i32)>
    decreases effects.len(),
{
    if effects.len() == 0 {
        Seq::empty()
    } else {
        let rest = steps(effects.drop_last());
        match (effects.last().i64_at("minUnits"@), effects.last().i64_at("style"@)) {
            (Some(min), Some(style)) => rest.push((min as i32, style as i32)),
            _ => rest,
        }
    }
}

/// A string member, or the empty string.
pub open spec fn str_or_empty(v: JsonModel, key: Seq<char>) -> Seq<char> {
    match v.str_at(key) {
        Some(s) => s,
        None => Seq::empty(),
    }
}

/// What is known of the trait `t`, whose name is `name`.
pub open spec fn trait_meta(t: JsonModel, name: Seq<char>) -> TraitMetaModel {
    TraitMetaModel {
        name,
        icon: icon_url(str_or_empty(t, "icon"@)),
        breakpoints: steps(t.list_at("effects"@)),
    }
}

/// `m` with the names of the traits added by id.
pub open spec fn with_trait_names(
    m: Map<Seq<char>, Seq<char>>,
    traits: Seq<JsonModel>,
) -> Map<Seq<char>, Seq<char>>
    decreases traits.len(),
{
    if traits.len() == 0 {
        m
    } else {
        let rest = with_trait_names(m, traits.drop_last());
        match id_and_name(traits.last()) {
            Some((id, name)) => if name.len() > 0 {
                rest.insert(id, name)
            } else {
                rest
            },
            None => rest,
        }
    }
}

/// `m` with what is known of the traits added by name.
pub open spec fn with_trait_details(
    m: Map<Seq<char>, TraitMetaModel>,
    traits: Seq<JsonModel>,
) -> Map<Seq<char>, TraitMetaModel>
    decreases traits.len(),
{
    if traits.len() == 0 {
        m
    } else {
        let rest = with_trait_details(m, traits.drop_last());
        match id_and_name(traits.last()) {
            Some((id, name)) => rest.insert(name, trait_meta(traits.last(), name)),
            None => rest,
        }
    }
}

fn read_str_or_empty(v: &Json, key: &str) -> (r: String)
    ensures
        r@ == str_or_empty(v@, key@),
{
    match v.str_at(key) {
        Some(s) => s.clone(),
        None => String::new(),
    }
}

fn read_steps(effects: &Vec<Json>) -> (r: Vec<(i32, i32)>)
    ensures
        r@ == steps(elements(effects@)),
{
    let ghost all = elements(effects@);
    let mut out: Vec<(i32, i32)> = Vec::new();
    let mut i: usize = 0;
    while i < effects.len()
        invariant
            i <= effects@.len(),
            all == elements(effects@),
            out@ == steps(all.take(i as int)),
        decreases effects@.len() - i,
    {
        proof {
            assert(all.take(i + 1).drop_last() == all.take(i as int));
            assert(all.take(i + 1).last() == effects@[i as int]@);
        }
        let e = &effects[i];
        match (e.i64_at("minUnits"), e.i64_at("style")) {
            (Some(min), Some(style)) => {
                out.push((#[verifier::truncate] (min as i32), #[verifier::truncate] (style as i32)));
            },
            _ => {},
        }
        i += 1;
    }
    assert(all.take(all.len() as int) == all);
    out
}

fn read_trait(t: &Json, name: &String) -> (r: TraitMeta)
    ensures
        r@ == trait_meta(t@, name@),
{
    let raw = read_str_or_empty(t, "icon");
    let icon = cdragon_icon_url(raw.as_str());
    let breakpoints = match t.list_at("effects") {
        Some(effects) => read_steps(effects),
        None => Vec::new(),
    };
    let r = TraitMeta { name: name.clone(), icon, breakpoints };
    assert(r@.breakpoints =~= trait_meta(t@, name@).breakpoints);
    r
}

fn read_traits(
    traits: &Vec<Json>,
    names: Table<String>,
    details: Table<TraitMeta>,
) -> (r: (Table<String>, Table<TraitMeta>))
    ensures
        map_model(r.0@) == with_trait_names(map_model(names@), elements(traits@)),
        map_model(r.1@) == with_trait_details(map_model(details@), elements(traits@)),
{
    let ghost all = elements(traits@);
    let ghost names0 = map_model(names@);
    let ghost details0 = map_model(details@);
    let mut names = names;
    let mut details = details;
    let mut i: usize = 0;
    while i < traits.len()
        invariant
            i <= traits@.len(),
            all == elements(traits@),
            map_model(names@) == with_trait_names(names0, all.take(i as int)),
            map_model(details@) == with_trait_details(details0, all.take(i as int)),
        decreases traits@.len() - i,
    {
        proof {
            assert(all.take(i + 1).drop_last() == all.take(i as int));
            assert(all.take(i + 1).last() == traits@[i as int]@);
        }
        match read_id_and_name(&traits[i]) {
            Some((id, name)) => {
                let info = read_trait(&traits[i], &name);
                proof {
                    lemma_map_model_insert(details@, name@, info);
                }
                details = details.insert(name.clone(), info);
                if !name.as_str().is_empty() {
                    proof {
                        lemma_map_model_insert(names@, id@, name);
                    }
                    names = names.insert(id, name);
                }
            },
            None => {},
        }
        i += 1;
    }
    assert(all.take(all.len() as int) == all);
    (names, details)
}

// ---------------------------------------------------------------- units

/// The strings among the elements of an array.
pub open spec fn strings_of(s: Seq<JsonModel>) -> Seq<Seq<char>>
    decreases s.len(),
{
    if s.len() == 0 {
        Seq::empty()
    } else {
        let rest = strings_of(s.drop_last());
        match s.last().as_str() {
            Some(t) => rest.push(t),
            None => rest,
        }
    }
}

/// What is known of a skill: nothing where it has no name.
pub open spec fn skill_meta(ability: JsonModel) -> Option<SkillModel> {
    match ability.str_at("name"@) {
        Some(name) => Some(
            SkillModel {
                name,
                icon: icon_url(str_or_empty(ability, "icon"@)),
                desc: str_or_empty(ability, "desc"@),
                variables: match ability.get("variables"@) {
                    Some(v) => v,
                    None => JsonModel::Array(Seq::empty()),
                },
            },
        ),
        None => None,
    }
}

/// What is known of the unit `c`, whose name is `name`.
pub open spec fn unit_meta(c: JsonModel, name: Seq<char>) -> UnitMetaModel {
    UnitMetaModel {
        name,
        cost: match c.i64_at("cost"@) {
            Some(n) => n as i32,
            None => 0,
        },
        traits: strings_of(c.list_at("traits"@)),
        ability: match c.get("ability"@) {
            Some(a) => skill_meta(a),
            None => None,
        },
    }
}

/// `m` with the units added by id.
pub open spec fn with_units(
    m: Map<Seq<char>, UnitMetaModel>,
    champions: Seq<JsonModel>,
) -> Map<Seq<char>, UnitMetaModel>
    decreases champions.len(),
{
    if champions.len() == 0 {
        m
    } else {
        let rest = with_units(m, champions.drop_last());
        match id_and_name(champions.last()) {
            Some((id, name)) => rest.insert(id, unit_meta(champions.last(), name)),
            None => rest,
        }
    }
}

fn read_strings(v: &Vec<Json>) -> (r: Vec<String>)
    ensures
        views(r@) == strings_of(elements(v@)),
{
    let ghost all = elements(v@);
    let mut out: Vec<String> = Vec::new();
    let mut i: usize = 0;
    assert(views(out@) =~= strings_of(all.take(0)));
    while i < v.len()
        invariant
            i <= v@.len(),
            all == elements(v@),
            views(out@) == strings_of(all.take(i as int)),
        decreases v@.len() - i,
    {
        proof {
            assert(all.take(i + 1).drop_last() == all.take(i as int));
            assert(all.take(i + 1).last() == v@[i as int]@);
        }
        match v[i].as_str() {
            Some(s) => {
                let ghost before = out@;
                out.push(s.clone());
                assert(views(out@) =~= views(before).push(s@));
            },
            None => {},
        }
        i += 1;
    }
    assert(all.take(all.len() as int) == all);
    out
}

fn read_skill(ability: &Json) -> (r: Option<SkillMeta>)
    ensures
        match r {
            Some(s) => skill_meta(ability@) == Some(s@),
            None => skill_meta(ability@) is None,
        },
{
    match ability.str_at("name") {
        Some(name) => {
            let raw = read_str_or_empty(ability, "icon");
            let icon = cdragon_icon_url(raw.as_str());
            let desc = read_str_or_empty(ability, "desc");
            let variables = match ability.get("variables") {
                Some(v) => v.copy(),
                None => {
                    let none: Vec<Json> = Vec::new();
                    assert(elements(none@) =~= Seq::empty());
                    Json::array(none)
                },
            };
            Some(SkillMeta { name: name.clone(), icon, desc, variables })
        },
        None => None,
    }
}

fn read_unit(c: &Json, name: String) -> (r: UnitMeta)
    ensures
        r@ == unit_meta(c@, name@),
{
    let cost: i32 = match c.i64_at("cost") {
        Some(n) => #[verifier::truncate] (n as i32),
        None => 0,
    };
    let traits = match c.list_at("traits") {
        Some(v) => read_strings(v),
        None => Vec::new(),
    };
    let ability = match c.get("ability") {
        Some(a) => read_skill(a),
        None => None,
    };
    let r = UnitMeta { name, cost, traits, ability };
    assert(r@.traits =~= unit_meta(c@, name@).traits);
    r
}

fn read_units(champions: &Vec<Json>, units: Table<UnitMeta>) -> (r: Table<UnitMeta>)
    ensures
        map_model(r@) == with_units(map_model(units@), elements(champions@)),
{
    let ghost all = elements(champions@);
    let ghost units0 = map_model(units@);
    let mut units = units;
    let mut i: usize = 0;
    while i < champions.len()
        invariant
            i <= champions@.len(),
            all == elements(champions@),
            map_model(units@) == with_units(units0, all.take(i as int)),
        decreases champions@.len() - i,
    {
        proof {
            assert(all.take(i + 1).drop_last() == all.take(i as int));
            assert(all.take(i + 1).last() == champions@[i as int]@);
        }
        match read_id_and_name(&champions[i]) {
            Some((id, name)) => {
                let unit = read_unit(&champions[i], name);
                proof {
                    lemma_map_model_insert(units@, id@, unit);
                }
                units = units.insert(id, unit);
            },
            None => {},
        }
        i += 1;
    }
    assert(all.take(all.len() as int) == all);
    units
}

// ---------------------------------------------------------------- a whole set

/// The published sets with the given number.
pub open spec fn sets_numbered(sets: Seq<JsonModel>, number: int) -> Seq<JsonModel> {
    sets.filter(|s: JsonModel| is_set(s, number))
}

/// A published set with the given number.
pub open spec fn is_set(s: JsonModel, number: int) -> bool {
    match s.i64_at("number"@) {
        Some(n) => n == number,
        None => false,
    }
}

/// The trait names that the given sets publish.
pub open spec fn sets_trait_names(sets: Seq<JsonModel>) -> Map<Seq<char>, Seq<char>>
    decreases sets.len(),
{
    if sets.len() == 0 {
        Map::empty()
    } else {
        with_trait_names(sets_trait_names(sets.drop_last()), sets.last().list_at("traits"@))
    }
}

/// What the given sets publish of their traits.
pub open spec fn sets_trait_details(sets: Seq<JsonModel>) -> Map<Seq<char>, TraitMetaModel>
    decreases sets.len(),
{
    if sets.len() == 0 {
        Map::empty()
    } else {
        with_trait_details(sets_trait_details(sets.drop_last()), sets.last().list_at("traits"@))
    }
}

/// What the given sets publish of their units.
pub open spec fn sets_units(sets: Seq<JsonModel>) -> Map<Seq<char>, UnitMetaModel>
    decreases sets.len(),
{
    if sets.len() == 0 {
        Map::empty()
    } else {
        with_units(sets_units(sets.drop_last()), sets.last().list_at("champions"@))
    }
}

fn numbered(s: &Json, number: i32) -> (r: bool)
    ensures
        r == is_set(s@, number as int),
{
    match s.i64_at("number") {
        Some(n) => n == number as i64,
        None => false,
    }
}

impl Meta {
    /// What the document `v` publishes of the set `set_number`: names of items and augments
    /// from the document as a whole, units and traits from the sets of that number.
    pub fn load(set_number: i32, v: &Json) -> (r: Meta)
        ensures
            map_model(r.augments@) == item_names(v@.list_at("items"@), true),
            map_model(r.items@) == item_names(v@.list_at("items"@), false),
            map_model(r.units@) == sets_units(
                sets_numbered(v@.list_at("setData"@), set_number as int),
            ),
            map_model(r.traits@) == sets_trait_names(
                sets_numbered(v@.list_at("setData"@), set_number as int),
            ),
            map_model(r.trait_details@) == sets_trait_details(
                sets_numbered(v@.list_at("setData"@), set_number as int),
            ),
    {
        proof {
            lemma_map_model_empty::<String>();
            lemma_map_model_empty::<UnitMeta>();
            lemma_map_model_empty::<TraitMeta>();
        }
        let (augments, items) = match v.list_at("items") {
            Some(items) => read_items(items),
            None => (Table::new(), Table::new()),
        };
        let mut units: Table<UnitMeta> = Table::new();
        let mut traits: Table<String> = Table::new();
        let mut trait_details: Table<TraitMeta> = Table::new();
        let ghost keep = |s: JsonModel| is_set(s, set_number as int);
        match v.list_at("setData") {
            Some(sets) => {
                let ghost all = elements(sets@);
                let mut i: usize = 0;
                assert(all.take(0).filter(keep) =~= Seq::empty()) by {
                    reveal(Seq::filter);
                }
                while i < sets.len()
                    invariant
                        i <= sets@.len(),
                        all == elements(sets@),
                        keep == (|s: JsonModel| is_set(s, set_number as int)),
                        map_model(units@) == sets_units(all.take(i as int).filter(keep)),
                        map_model(traits@) == sets_trait_names(all.take(i as int).filter(keep)),
                        map_model(trait_details@) == sets_trait_details(
                            all.take(i as int).filter(keep),
                        ),
                    decreases sets@.len() - i,
                {
                    let s = &sets[i];
                    let ghost before = all.take(i as int).filter(keep);
                    proof {
                        crate::seqs::lemma_filter_step(all, i as int, keep);
                        assert(before.push(s@).drop_last() == before);
                    }
                    if numbered(s, set_number) {
                        match s.list_at("traits") {
                            Some(list) => {
                                let both = read_traits(list, traits, trait_details);
                                traits = both.0;
                                trait_details = both.1;
                            },
                            None => {},
                        }
                        match s.list_at("champions") {
                            Some(list) => {
                                units = read_units(list, units);
                            },
                            None => {},
                        }
                    }
                    i += 1;
                }
                assert(all.take(all.len() as int) == all);
            },
            None => {
                assert(Seq::<JsonModel>::empty().filter(keep) =~= Seq::empty()) by {
                    reveal(Seq::filter);
                }
            },
        }
        Meta { augments, units, items, traits, trait_details }
    }

    /// The name of an augment; its id where it is not known.
    pub fn augment_name(&self, id: &str) -> (r: String)
        ensures
            r@ == name_or_id(map_model(self.augments@), id@),
    {
        name_in(&self.augments, id)
    }

    /// The name of a unit; its id where it is not known.
    pub fn unit_name(&self, id: &str) -> (r: String)
        ensures
            r@ == unit_name_or_id(map_model(self.units@), id@),
    {
        match self.units.get(id) {
            Some(u) => u.name.clone(),
            None => id.to_string(),
        }
    }

    /// The cost of a unit; `fallback` where it is not known.
    pub fn unit_cost(&self, id: &str, fallback: i32) -> (r: i32)
        ensures
            r == unit_cost_or(map_model(self.units@), id@, fallback),
    {
        match self.units.get(id) {
            Some(u) => u.cost,
            None => fallback,
        }
    }

    /// The name of an item; its id where it is not known.
    pub fn item_name(&self, id: &str) -> (r: String)
        ensures
            r@ == name_or_id(map_model(self.items@), id@),
    {
        name_in(&self.items, id)
    }

    /// The name of a trait; its id where it is not known.
    pub fn trait_name(&self, id: &str) -> (r: String)
        ensures
            r@ == name_or_id(map_model(self.traits@), id@),
    {
        name_in(&self.traits, id)
    }
}

/// The name under `id`; the id where there is none.
pub open spec fn name_or_id(m: Map<Seq<char>, Seq<char>>, id: Seq<char>) -> Seq<char> {
    if m.contains_key(id) {
        m[id]
    } else {
        id
    }
}

/// The name of the unit `id`; the id where it is not known.
pub open spec fn unit_name_or_id(m: Map<Seq<char>, UnitMetaModel>, id: Seq<char>) -> Seq<char> {
    if m.contains_key(id) {
        m[id].name
    } else {
        id
    }
}

/// The cost of the unit `id`; `fallback` where it is not known.
pub open spec fn unit_cost_or(
    m: Map<Seq<char>, UnitMetaModel>,
    id: Seq<char>,
    fallback: i32,
) -> i32 {
    if m.contains_key(id) {
        m[id].cost
    } else {
        fallback
    }
}

fn name_in(t: &Table<String>, id: &str) -> (r: String)
    ensures
        r@ == name_or_id(map_model(t@), id@),
{
    match t.get(id) {
        Some(name) => name.clone(),
        None => id.to_string(),
    }
}

/// A picture lies under the address of its own, in small letters and as a picture that browsers
/// can show; what has no picture has no address.
pub proof fn lemma_picture_addresses(raw: Seq<char>)
    ensures
        picture_url(raw) == "https://raw.communitydragon.org/latest/game/"@ + replaced(
            lowercase(raw),
            ".tex"@,
            ".png"@,
        ),
        raw.len() > 0 ==> icon_url(raw) == picture_url(raw),
        raw.len() == 0 ==> icon_url(raw).len() == 0,
{
}

/// One more item has its name under its id, in place of what was there, where it has both, the
/// name is not empty, and it is an augment or not as asked; no other entry changes.
pub proof fn lemma_item_named(
    items: Seq<JsonModel>,
    it: JsonModel,
    augments: bool,
    id: Seq<char>,
    name: Seq<char>,
)
    ensures
        item_names(Seq::empty(), augments) == Map::<Seq<char>, Seq<char>>::empty(),
        it.str_at("apiName"@) == Some(id) && it.str_at("name"@) == Some(name) && name.len() > 0
            && occurs(id, "_Augment_"@) == augments ==> item_names(items.push(it), augments)
            == item_names(items, augments).insert(id, name),
        it.str_at("apiName"@) is None || it.str_at("name"@) is None ==> item_names(
            items.push(it),
            augments,
        ) == item_names(items, augments),
        it.str_at("apiName"@) == Some(id) && it.str_at("name"@) == Some(name) && (name.len() == 0
            || occurs(id, "_Augment_"@) != augments) ==> item_names(items.push(it), augments)
            == item_names(items, augments),
{
    assert(items.push(it).drop_last() =~= items);
}

/// One more step of a trait is how many units it takes and its style, where both are said.
pub proof fn lemma_trait_steps(effects: Seq<JsonModel>, e: JsonModel)
    ensures
        steps(Seq::empty()).len() == 0,
        e.i64_at("minUnits"@) is Some && e.i64_at("style"@) is Some ==> steps(effects.push(e))
            == steps(effects).push(
            (e.i64_at("minUnits"@)->0 as i32, e.i64_at("style"@)->0 as i32),
        ),
        e.i64_at("minUnits"@) is None || e.i64_at("style"@) is None ==> steps(effects.push(e))
            == steps(effects),
{
    assert(effects.push(e).drop_last() =~= effects);
}

/// The texts of a list are those of its entries that are texts, in order.
pub proof fn lemma_strings(s: Seq<JsonModel>, x: JsonModel)
    ensures
        strings_of(Seq::empty()).len() == 0,
        x is Str ==> strings_of(s.push(x)) == strings_of(s).push(x->Str_0),
        !(x is Str) ==> strings_of(s.push(x)) == strings_of(s),
{
    assert(s.push(x).drop_last() =~= s);
}

/// What is known of a trait: its name, its picture and its steps, under the names that the
/// document has for them.
pub proof fn lemma_trait_known(t: JsonModel, name: Seq<char>)
    ensures
        trait_meta(t, name).name == name,
        trait_meta(t, name).breakpoints == steps(t.list_at("effects"@)),
        t.str_at("icon"@) is Some ==> trait_meta(t, name).icon == icon_url(t.str_at("icon"@)->0),
        t.str_at("icon"@) is None ==> trait_meta(t, name).icon.len() == 0,
{
}

/// What is known of a unit: its name, its cost, its traits and its skill, under the names that
/// the document has for them; a skill is known where it has a name.
pub proof fn lemma_unit_known(c: JsonModel, name: Seq<char>)
    ensures
        ({
            let u = unit_meta(c, name);
            let a = c.get("ability"@)->0;
            &&& u.name == name
            &&& c.i64_at("cost"@) is Some ==> u.cost == c.i64_at("cost"@)->0 as i32
            &&& c.i64_at("cost"@) is None ==> u.cost == 0
            &&& u.traits == strings_of(c.list_at("traits"@))
            &&& u.ability is Some <==> c.get("ability"@) is Some && a.str_at("name"@) is Some
            &&& u.ability is Some ==> {
                let s = u.ability->0;
                &&& s.name == a.str_at("name"@)->0
                &&& a.str_at("icon"@) is Some ==> s.icon == icon_url(a.str_at("icon"@)->0)
                &&& a.str_at("icon"@) is None ==> s.icon.len() == 0
                &&& a.str_at("desc"@) is Some ==> s.desc == a.str_at("desc"@)->0
                &&& a.str_at("desc"@) is None ==> s.desc.len() == 0
                &&& a.get("variables"@) is Some ==> s.variables == a.get("variables"@)->0
                &&& a.get("variables"@) is None ==> s.variables == JsonModel::Array(Seq::empty())
            }
        }),
{
}

/// One more champion is known under its id, in place of what was there, where it has an id and a
/// name; no other entry changes.
pub proof fn lemma_unit_added(
    m: Map<Seq<char>, UnitMetaModel>,
    champions: Seq<JsonModel>,
    c: JsonModel,
)
    ensures
        with_units(m, Seq::empty()) == m,
        c.str_at("apiName"@) is Some && c.str_at("name"@) is Some ==> with_units(
            m,
            champions.push(c),
        ) == with_units(m, champions).insert(
            c.str_at("apiName"@)->0,
            unit_meta(c, c.str_at("name"@)->0),
        ),
        c.str_at("apiName"@) is None || c.str_at("name"@) is None ==> with_units(
            m,
            champions.push(c),
        ) == with_units(m, champions),
{
    assert(champions.push(c).drop_last() =~= champions);
}

/// One more trait is named under its id where its name is not empty, and known under its name
/// with what the document says of it.
pub proof fn lemma_trait_added(
    names: Map<Seq<char>, Seq<char>>,
    details: Map<Seq<char>, TraitMetaModel>,
    traits: Seq<JsonModel>,
    t: JsonModel,
)
    ensures
        ({
            let id = t.str_at("apiName"@);
            let name = t.str_at("name"@);
            &&& with_trait_names(names, Seq::empty()) == names
            &&& with_trait_details(details, Seq::empty()) == details
            &&& id is Some && name is Some ==> with_trait_details(details, traits.push(t))
                == with_trait_details(details, traits).insert(name->0, trait_meta(t, name->0))
            &&& id is Some && name is Some && name->0.len() > 0 ==> with_trait_names(
                names,
                traits.push(t),
            ) == with_trait_names(names, traits).insert(id->0, name->0)
            &&& id is Some && name is Some && name->0.len() == 0 ==> with_trait_names(
                names,
                traits.push(t),
            ) == with_trait_names(names, traits)
            &&& id is None || name is None ==> with_trait_names(names, traits.push(t))
                == with_trait_names(names, traits) && with_trait_details(details, traits.push(t))
                == with_trait_details(details, traits)
        }),
{
    assert(traits.push(t).drop_last() =~= traits);
}

/// Only the sets with the number asked for are read, one after another, their champions and
/// their traits.
pub proof fn lemma_sets_read(sets: Seq<JsonModel>, s: JsonModel, number: int)
    ensures
        sets_numbered(sets, number).contains(s) <==> sets.contains(s) && s.i64_at("number"@) is Some
            && s.i64_at("number"@)->0 == number,
        sets_units(Seq::empty()) == Map::<Seq<char>, UnitMetaModel>::empty(),
        sets_units(sets.push(s)) == with_units(sets_units(sets), s.list_at("champions"@)),
        sets_trait_names(Seq::empty()) == Map::<Seq<char>, Seq<char>>::empty(),
        sets_trait_names(sets.push(s)) == with_trait_names(
            sets_trait_names(sets),
            s.list_at("traits"@),
        ),
        sets_trait_details(Seq::empty()) == Map::<Seq<char>, TraitMetaModel>::empty(),
        sets_trait_details(sets.push(s)) == with_trait_details(
            sets_trait_details(sets),
            s.list_at("traits"@),
        ),
{
    assert(sets.push(s).drop_last() =~= sets);
    let p = |s: JsonModel| is_set(s, number);
    crate::seqs::lemma_filter_elements(sets, p);
    let f = sets.filter(p);
    if f.contains(s) {
        let k = choose|k: int| 0 <= k < f.len() && f[k] == s;
        assert(p(f[k]) && sets.contains(f[k]));
    }
    if sets.contains(s) && is_set(s, number) {
        assert(p(s));
    }
}

/// What is unknown is called by its id, and an unknown unit costs what is said.
pub proof fn lemma_unknown(
    names: Map<Seq<char>, Seq<char>>,
    units: Map<Seq<char>, UnitMetaModel>,
    id: Seq<char>,
    fallback: i32,
)
    ensures
        names.contains_key(id) ==> name_or_id(names, id) == names[id],
        !names.contains_key(id) ==> name_or_id(names, id) == id,
        units.contains_key(id) ==> unit_name_or_id(units, id) == units[id].name && unit_cost_or(
            units,
            id,
            fallback,
        ) == units[id].cost,
        !units.contains_key(id) ==> unit_name_or_id(units, id) == id && unit_cost_or(
            units,
            id,
            fallback,
        ) == fallback,
{
}

/// Skills, units and traits are what their fields say.
pub proof fn lemma_known_as_stored(s: SkillMeta, u: UnitMeta, t: TraitMeta)
    ensures
        s@.name == s.name@,
        s@.icon == s.icon@,
        s@.desc == s.desc@,
        s@.variables == s.variables@,
        u@.name == u.name@,
        u@.cost == u.cost,
        u@.traits == views(u.traits@),
        u@.ability is Some <==> u.ability is Some,
        u.ability is Some ==> u@.ability->0 == u.ability->0@,
        t@.name == t.name@,
        t@.icon == t.icon@,
        t@.breakpoints == t.breakpoints@,
{
}

}
