use tft_iq::json::{field, Json};
use tft_iq::meta::{cdragon_icon_url, cdragon_url, cdragon_url_in, Meta};

fn obj(v: Vec<(String, Json)>) -> Json {
    Json::object(v)
}

fn text(s: &str) -> Json {
    Json::text(s)
}

fn named(id: &str, name: &str) -> Vec<(String, Json)> {
    vec![field("apiName", text(id)), field("name", text(name))]
}

fn with(mut v: Vec<(String, Json)>, name: &str, value: Json) -> Vec<(String, Json)> {
    v.push(field(name, value));
    v
}

fn document() -> Json {
    let items = Json::array(vec![
        obj(named("TFT_Item_Sword", "검")),
        obj(named("TFT17_Augment_Luck", "행운")),
        obj(named("TFT_Item_Nameless", "")),
        obj(vec![field("apiName", text("TFT_Item_NoName"))]),
    ]);
    let step = |units: i64, style: i64| {
        obj(vec![field("minUnits", Json::integer(units)), field("style", Json::integer(style))])
    };
    let mecha = with(
        with(named("TFT17_Mecha", "메카"), "icon", text("ASSETS/Mecha.TEX")),
        "effects",
        Json::array(vec![step(2, 1), obj(vec![field("minUnits", Json::integer(3))]), step(4, 3)]),
    );
    let ability = obj(vec![
        field("name", text("쾅")),
        field("icon", text("")),
        field("desc", text("설명")),
    ]);
    let jinx = with(
        with(
            with(named("TFT17_Jinx", "징크스"), "cost", Json::integer(4)),
            "traits",
            Json::array(vec![text("메카"), Json::Null, text("저격수")]),
        ),
        "ability",
        ability,
    );
    let set = |n: i64, champions: Vec<Json>, traits: Vec<Json>| {
        obj(vec![
            field("number", Json::integer(n)),
            field("champions", Json::array(champions)),
            field("traits", Json::array(traits)),
        ])
    };
    obj(vec![
        field("items", items),
        field(
            "setData",
            Json::array(vec![
                set(16, vec![obj(named("TFT16_Old", "옛것"))], vec![]),
                set(17, vec![obj(jinx), obj(named("TFT17_Dummy", "허수아비"))], vec![obj(mecha)]),
            ]),
        ),
    ])
}

#[test]
fn names_from_a_document() {
    let m = Meta::load(17, &document());
    assert_eq!(m.item_name("TFT_Item_Sword"), "검");
    assert_eq!(m.item_name("TFT_Item_Nameless"), "TFT_Item_Nameless");
    assert_eq!(m.item_name("TFT17_Augment_Luck"), "TFT17_Augment_Luck");
    assert_eq!(m.augment_name("TFT17_Augment_Luck"), "행운");
    assert_eq!(m.trait_name("TFT17_Mecha"), "메카");
    assert_eq!(m.trait_name("TFT17_Other"), "TFT17_Other");
    assert_eq!(m.unit_name("TFT17_Jinx"), "징크스");
    assert_eq!(m.unit_name("TFT16_Old"), "TFT16_Old");
    assert_eq!(m.unit_cost("TFT17_Jinx", 9), 4);
    assert_eq!(m.unit_cost("TFT17_Dummy", 9), 0);
    assert_eq!(m.unit_cost("TFT16_Old", 9), 9);
}

#[test]
fn details_from_a_document() {
    let m = Meta::load(17, &document());
    let t = m.trait_details.get("메카").unwrap();
    assert_eq!(t.icon, "https://raw.communitydragon.org/latest/game/assets/mecha.png");
    assert_eq!(t.breakpoints, vec![(2, 1), (4, 3)]);
    let u = m.units.get("TFT17_Jinx").unwrap();
    assert_eq!(u.traits, vec!["메카".to_string(), "저격수".to_string()]);
    let a = u.ability.as_ref().unwrap();
    assert_eq!((a.name.as_str(), a.icon.as_str(), a.desc.as_str()), ("쾅", "", "설명"));
    assert!(matches!(&a.variables, Json::Array(v) if v.is_empty()));
    assert!(m.units.get("TFT17_Dummy").unwrap().ability.is_none());
}

#[test]
fn empty_document() {
    let m = Meta::load(17, &Json::Null);
    assert_eq!((m.units.len(), m.items.len(), m.traits.len()), (0, 0, 0));
}

#[test]
fn addresses_of_data_and_pictures() {
    assert_eq!(
        cdragon_url(false),
        "https://raw.communitydragon.org/latest/cdragon/tft/ko_kr.json",
    );
    assert_eq!(cdragon_url(true), "https://raw.communitydragon.org/pbe/cdragon/tft/ko_kr.json");
    assert_eq!(
        cdragon_icon_url("ASSETS/Foo.TEX"),
        "https://raw.communitydragon.org/latest/game/assets/foo.png",
    );
    assert_eq!(cdragon_icon_url(""), "");
}

#[test]
fn address_of_a_language() {
    assert_eq!(
        cdragon_url_in("ja_jp"),
        "https://raw.communitydragon.org/latest/cdragon/tft/ja_jp.json"
    );
    assert_eq!(cdragon_url_in("ko_kr"), cdragon_url(false));
}
