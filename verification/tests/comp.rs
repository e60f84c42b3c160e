use tft_iq::comp::{classify, cost_from_rarity, find_carry, identity_traits, prettify, CompKey};
use tft_iq::riot::dto::{Participant, Trait, Unit};

fn active(name: &str, tier_current: i32, num_units: i32, tier_total: i32) -> Trait {
    Trait { name: name.to_string(), num_units, style: 1, tier_current, tier_total }
}

fn unit(id: &str, items: &[&str], rarity: i32) -> Unit {
    Unit {
        character_id: id.to_string(),
        item_names: items.iter().map(|s| s.to_string()).collect(),
        rarity,
        tier: 2,
    }
}

fn board(traits: Vec<Trait>, units: Vec<Unit>) -> Participant {
    Participant {
        puuid: "p".to_string(),
        placement: 1,
        level: 8,
        last_round: 30,
        gold_left: 0,
        players_eliminated: 0,
        time_eliminated: 0,
        total_damage_to_players: 0,
        augments: vec![],
        traits,
        units,
    }
}

#[test]
fn costs() {
    let expected = [(0, 1), (1, 2), (2, 3), (3, 4), (4, 4), (5, 5), (6, 5), (7, 8), (-1, 0)];
    for (rarity, cost) in expected {
        assert_eq!(cost_from_rarity(rarity), cost);
    }
}

#[test]
fn prettified_ids() {
    assert_eq!(prettify("TFT17_DarkStar"), "DarkStar");
    assert_eq!(prettify("TFT17_Item_X"), "Item_X");
    assert_eq!(prettify("NoPrefix"), "NoPrefix");
    assert_eq!(prettify("_x"), "x");
    assert_eq!(prettify(""), "");
}

#[test]
fn leading_traits() {
    let p = board(
        vec![
            active("TFT17_Mecha", 2, 4, 3),
            active("TFT17_DarkStar", 3, 5, 4),
            active("TFT17_Unique", 3, 9, 1),
            active("TFT17_Idle", 0, 1, 3),
            active("TFT17_Arcana", 2, 4, 3),
        ],
        vec![],
    );
    let (traits, primary) = identity_traits(&p);
    // of the two traits of tier 2 with four units the one that comes first by name
    assert_eq!(traits, vec!["Arcana", "DarkStar"]);
    assert_eq!(primary, Some("TFT17_DarkStar".to_string()));
}

#[test]
fn carry_has_most_items_then_highest_cost() {
    let p = board(
        vec![],
        vec![
            unit("TFT17_One", &["a"], 6),
            unit("TFT17_Two", &["a", "b", "c"], 4),
            unit("TFT17_Three", &["a", "b", "c"], 6),
            unit("TFT17_Four", &["a", "b"], 6),
        ],
    );
    assert_eq!(find_carry(&p), Some("TFT17_Three".to_string()));
    assert_eq!(find_carry(&board(vec![], vec![unit("x", &["a"], 0)])), None);
    // of two five-cost units the id decides
    let five = vec![unit("b", &["a", "b"], 5), unit("a", &["a", "b"], 6)];
    assert_eq!(find_carry(&board(vec![], five)), Some("a".to_string()));
}

#[test]
fn comp_as_text() {
    let p = board(
        vec![active("TFT17_Mecha", 1, 2, 3), active("TFT17_DarkStar", 1, 2, 3)],
        vec![unit("TFT17_Jinx", &["a", "b", "c"], 3)],
    );
    let key = classify(&p);
    assert_eq!(key.to_text(), "DarkStar + Mecha | 캐리: Jinx");
    assert_eq!(key.trait_label(), "trait:TFT17_DarkStar");
    let none = CompKey { traits: vec![], primary: None, carry: None };
    assert_eq!(none.to_text(), "(특성없음)");
    assert_eq!(none.trait_label(), "");
}

#[test]
fn comp_does_not_depend_on_order() {
    let traits = || vec![active("TFT17_Mecha", 2, 4, 3), active("TFT17_DarkStar", 2, 4, 3)];
    let units = || vec![unit("TFT17_A", &["x", "y"], 1), unit("TFT17_B", &["x", "y"], 1)];
    let mut reversed_traits = traits();
    reversed_traits.reverse();
    let mut reversed_units = units();
    reversed_units.reverse();
    assert_eq!(
        classify(&board(traits(), units())),
        classify(&board(reversed_traits, reversed_units)),
    );
}
