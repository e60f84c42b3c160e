//! Which items are which.

use crate::json::{elements, Json, JsonModel, Number};
use crate::meta::{cdragon_picture_url, picture_url};
use crate::order::models;
use crate::text::{begins, contains, ends, ends_with, occurs, occurs_at, starts_with};
use vstd::prelude::*;

verus! {

/// The id is not that of an item that is put together from two others.
pub open spec fn special(api: Seq<char>) -> bool {
    occurs(api, "_Component_"@) || occurs(api, "_Artifact_"@) || occurs(api, "Emblem"@) || occurs(
        api,
        "Radiant"@,
    ) || occurs(api, "Tacticians"@) || occurs(api, "Potion"@)
}

/// Whether the id is not that of an item that is put together from two others: a component, an
/// artifact, an emblem, a radiant item, a tactician's item or a potion.
pub fn is_special_item(api: &str) -> (r: bool)
    ensures
        r == special(api@),
{
    contains(api, "_Component_") || contains(api, "_Artifact_") || contains(api, "Emblem")
        || contains(api, "Radiant") || contains(api, "Tacticians") || contains(api, "Potion")
}

/// The category of a special item.
pub open spec fn category_of(api: Seq<char>) -> Option<Seq<char>> {
    if occurs(api, "_Artifact_"@) {
        Some("artifact"@)
    } else if ends(api, "EmblemItem"@) {
        Some("emblem"@)
    } else {
        None
    }
}

/// The category of a special item: an artifact or an emblem.
pub fn special_category(api: &str) -> (r: Option<&'static str>)
    ensures
        match r {
            Some(c) => category_of(api@) == Some(c@),
            None => category_of(api@) is None,
        },
{
    if contains(api, "_Artifact_") {
        Some("artifact")
    } else if ends_with(api, "EmblemItem") {
        Some("emblem")
    } else {
        None
    }
}

/// The id and the name of an item that has both, the name not empty.
pub open spec fn named_item(it: JsonModel) -> Option<(Seq<char>, Seq<char>)> {
    match (it.str_at("apiName"@), it.str_at("name"@)) {
        (Some(api), Some(name)) => if name.len() > 0 {
            Some((api, name))
        } else {
            None
        },
        _ => None,
    }
}

/// The id of an item that has one and a name.
pub open spec fn api_of(it: JsonModel) -> Seq<char> {
    let (api, name) = named_item(it)->0;
    api
}

/// The address of the picture of an item; empty where it has none.
pub open spec fn item_icon(it: JsonModel) -> Seq<char> {
    match it.str_at("icon"@) {
        Some(raw) => picture_url(raw),
        None => seq![],
    }
}

fn named(it: &Json) -> (r: Option<(String, String)>)
    ensures
        match r {
            Some((api, name)) => named_item(it@) == Some((api@, name@)),
            None => named_item(it@) is None,
        },
{
    match (it.str_at("apiName"), it.str_at("name")) {
        (Some(api), Some(name)) => if name.as_str().is_empty() {
            None
        } else {
            Some((api.clone(), name.clone()))
        },
        _ => None,
    }
}

fn icon_of(it: &Json) -> (r: String)
    ensures
        r@ == item_icon(it@),
{
    match it.str_at("icon") {
        Some(raw) => cdragon_picture_url(raw.as_str()),
        None => String::new(),
    }
}

// ---------------------------------------------------------------- items put together

/// What is stored of an item that is put together from two others.
#[derive(Debug)]
pub struct ItemRow {
    pub item_id: String,
    pub name: String,
    pub icon: String,
}

pub struct ItemRowModel {
    pub item_id: Seq<char>,
    pub name: Seq<char>,
    pub icon: Seq<char>,
}

impl View for ItemRow {
    type V = ItemRowModel;

    open spec fn view(&self) -> ItemRowModel {
        ItemRowModel { item_id: self.item_id@, name: self.name@, icon: self.icon@ }
    }
}

/// The id is one of the set, and of an item: augments and emblems have a number in theirs.
pub open spec fn in_set(api: Seq<char>) -> bool {
    begins(api, "DA_"@) && !begins(api, "DA_18_"@)
}

/// The item is no augment and its id one of the set.
pub open spec fn considered(it: JsonModel) -> bool {
    &&& named_item(it) is Some
    &&& !(match it.get("isAugment"@) {
        Some(v) => v.as_bool() == Some(true),
        None => false,
    })
    &&& in_set(api_of(it))
}

/// The item is put together from two others.
pub open spec fn put_together(it: JsonModel) -> bool {
    considered(it) && !special(api_of(it))
}

/// The item is left out as a special one.
pub open spec fn left_out(it: JsonModel) -> bool {
    considered(it) && special(api_of(it))
}

/// What is stored of an item.
pub open spec fn item_row(it: JsonModel) -> ItemRowModel {
    let (api, name) = named_item(it)->0;
    ItemRowModel { item_id: api, name, icon: item_icon(it) }
}

/// What is stored of items.
pub open spec fn item_rows(items: Seq<JsonModel>) -> Seq<ItemRowModel>
    decreases items.len(),
{
    if items.len() == 0 {
        Seq::empty()
    } else {
        let rest = item_rows(items.drop_last());
        if put_together(items.last()) {
            rest.push(item_row(items.last()))
        } else {
            rest
        }
    }
}

/// How many items are left out as special ones.
pub open spec fn count_left_out(items: Seq<JsonModel>) -> nat
    decreases items.len(),
{
    if items.len() == 0 {
        0
    } else {
        count_left_out(items.drop_last()) + if left_out(items.last()) {
            1nat
        } else {
            0nat
        }
    }
}

/// The items of a document.
pub open spec fn items_in(v: JsonModel) -> Option<Seq<JsonModel>> {
    match v.get("items"@) {
        Some(x) => x.as_array(),
        None => None,
    }
}

fn is_augment(it: &Json) -> (r: bool)
    ensures
        r == (match it@.get("isAugment"@) {
            Some(v) => v.as_bool() == Some(true),
            None => false,
        }),
{
    match it.get("isAugment") {
        Some(v) => match v.as_bool() {
            Some(b) => b,
            None => false,
        },
        None => false,
    }
}

/// What is stored of the items that are put together from two others, and how many special ones
/// were left out. None where the document has no list of items.
pub fn classify_items(v: &Json) -> (r: Option<(Vec<ItemRow>, usize)>)
    ensures
        match r {
            Some((rows, skipped)) => items_in(v@) is Some && models(rows@) == item_rows(
                items_in(v@)->0,
            ) && skipped == count_left_out(items_in(v@)->0),
            None => items_in(v@) is None,
        },
{
    let items = match v.get("items") {
        Some(x) => match x.as_array() {
            Some(items) => items,
            None => {
                return None;
            },
        },
        None => {
            return None;
        },
    };
    let ghost all = elements(items@);
    let mut rows: Vec<ItemRow> = Vec::new();
    let mut skipped: usize = 0;
    let mut i: usize = 0;
    assert(models(rows@) =~= item_rows(all.take(0)));
    while i < items.len()
        invariant
            i <= items@.len(),
            all == elements(items@),
            skipped <= i,
            models(rows@) == item_rows(all.take(i as int)),
            skipped == count_left_out(all.take(i as int)),
        decreases items@.len() - i,
    {
        let it = &items[i];
        proof {
            assert(all.take(i + 1).drop_last() == all.take(i as int));
            assert(all.take(i + 1).last() == it@);
        }
        i += 1;
        let (api, name) = match named(it) {
            Some(x) => x,
            None => {
                continue;
            },
        };
        if is_augment(it) {
            continue;
        }
        if !starts_with(api.as_str(), "DA_") || starts_with(api.as_str(), "DA_18_") {
            continue;
        }
        if is_special_item(api.as_str()) {
            skipped += 1;
            continue;
        }
        let ghost before = rows@;
        let row = ItemRow { item_id: api, name, icon: icon_of(it) };
        let ghost rowv = row@;
        rows.push(row);
        assert(models(rows@) =~= models(before).push(rowv));
    }
    assert(all.take(all.len() as int) == all);
    Some((rows, skipped))
}

// ---------------------------------------------------------------- special items

/// What is stored of a special item. The numbers are kept as they were read.
#[derive(Debug)]
pub struct Special {
    pub item_id: String,
    pub name: String,
    pub category: String,
    pub icon: String,
    pub ad: Number,
    pub ap: Number,
    pub as_bonus: Number,
    pub armor: Number,
    pub mr: Number,
    pub hp: Number,
}

pub struct SpecialModel {
    pub item_id: Seq<char>,
    pub name: Seq<char>,
    pub category: Seq<char>,
    pub icon: Seq<char>,
    pub ad: Number,
    pub ap: Number,
    pub as_bonus: Number,
    pub armor: Number,
    pub mr: Number,
    pub hp: Number,
}

impl View for Special {
    type V = SpecialModel;

    open spec fn view(&self) -> SpecialModel {
        SpecialModel {
            item_id: self.item_id@,
            name: self.name@,
            category: self.category@,
            icon: self.icon@,
            ad: self.ad,
            ap: self.ap,
            as_bonus: self.as_bonus,
            armor: self.armor,
            mr: self.mr,
            hp: self.hp,
        }
    }
}

/// The number under `key`; zero where there is none.
pub open spec fn stat_of(effects: Option<JsonModel>, key: Seq<char>) -> Number {
    match effects {
        Some(e) => match e.get(key) {
            Some(JsonModel::Num(n)) => n,
            _ => Number::Real(0),
        },
        None => Number::Real(0),
    }
}

/// The number under `key`; zero where there is none.
pub fn stat(effects: Option<&Json>, key: &str) -> (r: Number)
    ensures
        r == stat_of(
            match effects {
                Some(e) => Some(e@),
                None => None,
            },
            key@,
        ),
{
    match effects {
        Some(e) => match e.get(key) {
            Some(Json::Num(n)) => *n,
            _ => Number::Real(0),
        },
        None => Number::Real(0),
    }
}

/// The item is an artifact or an emblem.
pub open spec fn is_special(it: JsonModel) -> bool {
    named_item(it) is Some && category_of(api_of(it)) is Some
}

/// What is stored of a special item.
pub open spec fn special_of(it: JsonModel) -> SpecialModel {
    let (api, name) = named_item(it)->0;
    let e = it.get("effects"@);
    SpecialModel {
        item_id: api,
        name,
        category: category_of(api)->0,
        icon: item_icon(it),
        ad: stat_of(e, "AD"@),
        ap: stat_of(e, "AP"@),
        as_bonus: stat_of(e, "AS"@),
        armor: stat_of(e, "Armor"@),
        mr: stat_of(e, "MagicResist"@),
        hp: stat_of(e, "Health"@),
    }
}

/// What is stored of the special items.
pub open spec fn specials(items: Seq<JsonModel>) -> Seq<SpecialModel>
    decreases items.len(),
{
    if items.len() == 0 {
        Seq::empty()
    } else {
        let rest = specials(items.drop_last());
        if is_special(items.last()) {
            rest.push(special_of(items.last()))
        } else {
            rest
        }
    }
}

/// What is stored of the special items. None where the document has no list of items.
pub fn special_items(v: &Json) -> (r: Option<Vec<Special>>)
    ensures
        match r {
            Some(rows) => items_in(v@) is Some && models(rows@) == specials(items_in(v@)->0),
            None => items_in(v@) is None,
        },
{
    let items = match v.get("items") {
        Some(x) => match x.as_array() {
            Some(items) => items,
            None => {
                return None;
            },
        },
        None => {
            return None;
        },
    };
    let ghost all = elements(items@);
    let mut rows: Vec<Special> = Vec::new();
    let mut i: usize = 0;
    assert(models(rows@) =~= specials(all.take(0)));
    while i < items.len()
        invariant
            i <= items@.len(),
            all == elements(items@),
            models(rows@) == specials(all.take(i as int)),
        decreases items@.len() - i,
    {
        let it = &items[i];
        proof {
            assert(all.take(i + 1).drop_last() == all.take(i as int));
            assert(all.take(i + 1).last() == it@);
        }
        i += 1;
        let (api, name) = match named(it) {
            Some(x) => x,
            None => {
                continue;
            },
        };
        let category = match special_category(api.as_str()) {
            Some(c) => c.to_string(),
            None => {
                continue;
            },
        };
        let e = it.get("effects");
        let ghost before = rows@;
        let row = Special {
            item_id: api,
            name,
            category,
            icon: icon_of(it),
            ad: stat(e, "AD"),
            ap: stat(e, "AP"),
            as_bonus: stat(e, "AS"),
            armor: stat(e, "Armor"),
            mr: stat(e, "MagicResist"),
            hp: stat(e, "Health"),
        };
        let ghost rowv = row@;
        rows.push(row);
        assert(rowv == special_of(it@));
        assert(models(rows@) =~= models(before).push(rowv));
    }
    assert(all.take(all.len() as int) == all);
    Some(rows)
}

// ---------------------------------------------------------------- laws

/// No artifact is stored among the items that are put together from two others.
pub proof fn lemma_artifact_is_special(api: Seq<char>)
    requires
        category_of(api) == Some("artifact"@),
    ensures
        special(api),
{
    reveal_strlit("artifact");
    reveal_strlit("emblem");
    if !occurs(api, "_Artifact_"@) {
        assert("artifact"@.len() == 8 && "emblem"@.len() == 6);
    }
}

/// No emblem is stored among the items that are put together from two others.
pub proof fn lemma_emblem_is_special(api: Seq<char>)
    requires
        category_of(api) == Some("emblem"@),
    ensures
        special(api),
{
    reveal_strlit("artifact");
    reveal_strlit("emblem");
    reveal_strlit("EmblemItem");
    reveal_strlit("Emblem");
    assert("artifact"@.len() == 8 && "emblem"@.len() == 6);
    let i = api.len() - 10;
    assert(api.subrange(i, i + 6) =~= "Emblem"@) by {
        assert forall|k: int| 0 <= k < 6 implies api.subrange(i, i + 6)[k] == "Emblem"@[k] by {
            assert(api.subrange(i, i + 10)[k] == "EmblemItem"@[k]);
        }
    }
    assert(occurs_at(api, "Emblem"@, i));
}

/// An item is out of the ordinary where its id has one of these in it.
pub proof fn lemma_out_of_the_ordinary(before: Seq<char>, behind: Seq<char>)
    ensures
        special(before + "_Component_"@ + behind),
        special(before + "_Artifact_"@ + behind),
        special(before + "Emblem"@ + behind),
        special(before + "Radiant"@ + behind),
        special(before + "Tacticians"@ + behind),
        special(before + "Potion"@ + behind),
        forall|api: Seq<char>| #[trigger]
            special(api) ==> occurs(api, "_Component_"@) || occurs(api, "_Artifact_"@) || occurs(
                api,
                "Emblem"@,
            ) || occurs(api, "Radiant"@) || occurs(api, "Tacticians"@) || occurs(api, "Potion"@),
{
    crate::text::lemma_found(before, "_Component_"@, behind);
    crate::text::lemma_found(before, "_Artifact_"@, behind);
    crate::text::lemma_found(before, "Emblem"@, behind);
    crate::text::lemma_found(before, "Radiant"@, behind);
    crate::text::lemma_found(before, "Tacticians"@, behind);
    crate::text::lemma_found(before, "Potion"@, behind);
}

/// Artifacts are known by a part of their id, emblems by its end, and nothing else has a
/// category.
pub proof fn lemma_categories(api: Seq<char>)
    ensures
        occurs(api, "_Artifact_"@) ==> category_of(api) == Some("artifact"@),
        !occurs(api, "_Artifact_"@) && ends(api, "EmblemItem"@) ==> category_of(api) == Some(
            "emblem"@,
        ),
        !occurs(api, "_Artifact_"@) && !ends(api, "EmblemItem"@) ==> category_of(api) is None,
{
}

/// An item is told by its id, its name and its picture, under the names that the document has
/// for them; it counts where its name is not empty.
pub proof fn lemma_item_told(it: JsonModel)
    ensures
        named_item(it) is Some <==> it.str_at("apiName"@) is Some && it.str_at("name"@) is Some
            && it.str_at("name"@)->0.len() > 0,
        named_item(it) is Some ==> ({
            let r = item_row(it);
            &&& Some(r.item_id) == it.str_at("apiName"@)
            &&& Some(r.name) == it.str_at("name"@)
            &&& it.str_at("icon"@) is Some ==> r.icon == picture_url(it.str_at("icon"@)->0)
            &&& it.str_at("icon"@) is None ==> r.icon.len() == 0
        }),
{
}

/// An item can be put together where it has a name, is no augment, is of the set but not of its
/// second half, and is nothing out of the ordinary; the others of the set are left out.
pub proof fn lemma_put_together(it: JsonModel)
    ensures
        ({
            let api = it.str_at("apiName"@)->0;
            let counts = it.str_at("apiName"@) is Some && it.str_at("name"@) is Some && it.str_at(
                "name"@,
            )->0.len() > 0 && it.get("isAugment"@) != Some(JsonModel::Bool(true)) && begins(
                api,
                "DA_"@,
            ) && !begins(api, "DA_18_"@);
            &&& put_together(it) <==> counts && !special(api)
            &&& left_out(it) <==> counts && special(api)
        }),
{
}

/// Each item that can be put together makes a row, in order, and each that is left out counts
/// once.
pub proof fn lemma_item_rows(items: Seq<JsonModel>, it: JsonModel)
    ensures
        item_rows(Seq::empty()).len() == 0,
        count_left_out(Seq::empty()) == 0,
        put_together(it) ==> item_rows(items.push(it)) == item_rows(items).push(item_row(it))
            && count_left_out(items.push(it)) == count_left_out(items),
        left_out(it) ==> item_rows(items.push(it)) == item_rows(items) && count_left_out(
            items.push(it),
        ) == count_left_out(items) + 1,
        !put_together(it) && !left_out(it) ==> item_rows(items.push(it)) == item_rows(items)
            && count_left_out(items.push(it)) == count_left_out(items),
{
    assert(items.push(it).drop_last() =~= items);
}

/// The items are those of the document's list; without one there are none to read.
pub proof fn lemma_items_listed(v: JsonModel)
    ensures
        v.get("items"@) is Some && v.get("items"@)->0 is Array ==> items_in(v) == Some(
            v.get("items"@)->0->Array_0,
        ),
        v.get("items"@) is None || !(v.get("items"@)->0 is Array) ==> items_in(v) is None,
{
}

/// What is told of an artifact or an emblem: who it is and its bonuses, under the names that the
/// document has for them; a bonus that is not said is nothing.
pub proof fn lemma_special_told(it: JsonModel)
    requires
        is_special(it),
    ensures
        ({
            let s = special_of(it);
            let e = it.get("effects"@);
            &&& Some(s.item_id) == it.str_at("apiName"@)
            &&& Some(s.name) == it.str_at("name"@)
            &&& Some(s.category) == category_of(s.item_id)
            &&& it.str_at("icon"@) is Some ==> s.icon == picture_url(it.str_at("icon"@)->0)
            &&& it.str_at("icon"@) is None ==> s.icon.len() == 0
            &&& s.ad == stat_of(e, "AD"@)
            &&& s.ap == stat_of(e, "AP"@)
            &&& s.as_bonus == stat_of(e, "AS"@)
            &&& s.armor == stat_of(e, "Armor"@)
            &&& s.mr == stat_of(e, "MagicResist"@)
            &&& s.hp == stat_of(e, "Health"@)
        }),
        forall|e: JsonModel, key: Seq<char>| #[trigger]
            e.get(key) is Some && e.get(key)->0 is Num ==> stat_of(Some(e), key) == e.get(
                key,
            )->0->Num_0,
        forall|e: JsonModel, key: Seq<char>|
            e.get(key) is None || !(e.get(key)->0 is Num) ==> #[trigger] stat_of(Some(e), key)
                == Number::Real(0),
        forall|key: Seq<char>| #[trigger] stat_of(None, key) == Number::Real(0),
{
}

/// Artifacts and emblems with a name are told of, in order, and nothing else.
pub proof fn lemma_specials(items: Seq<JsonModel>, it: JsonModel)
    ensures
        specials(Seq::empty()).len() == 0,
        named_item(it) is Some && category_of(it.str_at("apiName"@)->0) is Some ==> specials(
            items.push(it),
        ) == specials(items).push(special_of(it)),
        named_item(it) is None || category_of(it.str_at("apiName"@)->0) is None ==> specials(
            items.push(it),
        ) == specials(items),
{
    assert(items.push(it).drop_last() =~= items);
}

/// Rows are what their fields say.
pub proof fn lemma_item_rows_as_stored(r: ItemRow, s: Special)
    ensures
        r@.item_id == r.item_id@,
        r@.name == r.name@,
        r@.icon == r.icon@,
        s@.item_id == s.item_id@,
        s@.name == s.name@,
        s@.category == s.category@,
        s@.icon == s.icon@,
        s@.ad == s.ad,
        s@.ap == s.ap,
        s@.as_bonus == s.as_bonus,
        s@.armor == s.armor,
        s@.mr == s.mr,
        s@.hp == s.hp,
{
}

}
