use tft_iq::items::{classify_items, is_special_item, special_category, special_items, stat};
use tft_iq::json::{field, Json, Number};

fn item(id: &str, name: &str, more: Vec<(String, Json)>) -> Json {
    let mut v = vec![field("apiName", Json::text(id)), field("name", Json::text(name))];
    v.extend(more);
    Json::object(v)
}

fn document(items: Vec<Json>) -> Json {
    Json::object(vec![field("items", Json::array(items))])
}

#[test]
fn special_ids() {
    for id in [
        "DA_Component_Sword",
        "DA_Artifact_X",
        "DA_EmblemFae",
        "DA_RadiantX",
        "DA_TacticiansCrown",
        "DA_PotionX",
    ] {
        assert!(is_special_item(id));
    }
    assert!(!is_special_item("DA_InfinityEdge"));
    assert!(!is_special_item("Artifact"));
    assert_eq!(special_category("TFT_Artifact_EmblemItem"), Some("artifact"));
    assert_eq!(special_category("TFT17_FaeEmblemItem"), Some("emblem"));
    assert_eq!(special_category("TFT17_EmblemItemX"), None);
}

#[test]
fn artifacts_and_emblems_are_special() {
    for id in ["X_Artifact_Y", "FaeEmblemItem"] {
        assert!(special_category(id).is_some() && is_special_item(id));
    }
}

#[test]
fn items_put_together() {
    let d = document(vec![
        item("DA_InfinityEdge", "무대", vec![field("icon", Json::text("A/B.TEX"))]),
        item("DA_Bare", "맨", vec![]),
        item("DA_Component_Sword", "검", vec![]),
        item("DA_18_AfterShock", "여진", vec![]),
        item("TFT_Item", "다른", vec![]),
        item("DA_Augment", "증강", vec![field("isAugment", Json::boolean(true))]),
        item("DA_NotAugment", "아님", vec![field("isAugment", Json::boolean(false))]),
        item("DA_Nameless", "", vec![]),
        Json::Null,
    ]);
    let (rows, skipped) = classify_items(&d).unwrap();
    let ids: Vec<&str> = rows.iter().map(|r| r.item_id.as_str()).collect();
    assert_eq!(ids, vec!["DA_InfinityEdge", "DA_Bare", "DA_NotAugment"]);
    assert_eq!(rows[0].icon, "https://raw.communitydragon.org/latest/game/a/b.png");
    assert_eq!((rows[0].name.as_str(), rows[1].icon.as_str()), ("무대", ""));
    assert_eq!(skipped, 1);
    assert!(classify_items(&Json::Null).is_none());
    assert!(classify_items(&Json::object(vec![field("items", Json::Null)])).is_none());
}

#[test]
fn special_rows() {
    let effects = Json::object(vec![
        field("AD", Json::integer(10)),
        field("Health", Json::Num(Number::Real(7))),
        field("Armor", Json::text("x")),
    ]);
    let d = document(vec![
        item("X_Artifact_Y", "유물", vec![field("effects", effects)]),
        item("FaeEmblemItem", "상징", vec![]),
        item("X_Artifact_Z", "", vec![]),
        item("DA_InfinityEdge", "무대", vec![]),
    ]);
    let rows = special_items(&d).unwrap();
    assert_eq!(rows.len(), 2);
    assert_eq!((rows[0].category.as_str(), rows[1].category.as_str()), ("artifact", "emblem"));
    assert_eq!((rows[0].ad, rows[0].hp), (Number::Int(10), Number::Real(7)));
    assert_eq!((rows[0].armor, rows[0].ap, rows[1].ad), (Number::Real(0), Number::Real(0), Number::Real(0)));
    assert!(special_items(&Json::Null).is_none());
    assert_eq!(stat(None, "AD"), Number::Real(0));
}
