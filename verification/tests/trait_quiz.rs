use tft_iq::json::Json;
use tft_iq::trait_quiz::{
    answer_traits, make_trait_puzzle, make_trait_quiz, trait_puzzle, wrong_traits, TraitUnit,
};

fn strings(v: &[&str]) -> Vec<String> {
    v.iter().map(|s| s.to_string()).collect()
}

fn unit(traits: &[&str]) -> TraitUnit {
    TraitUnit {
        unit_id: "Jinx".to_string(),
        name: "징크스".to_string(),
        icon: "j.png".to_string(),
        traits: strings(traits),
    }
}

fn names(j: &Json) -> Vec<String> {
    j.as_array().unwrap().iter().map(|x| x.as_str().unwrap().clone()).collect()
}

#[test]
fn answer_is_sorted_and_unique() {
    assert_eq!(answer_traits(&strings(&["b", "a", "b"])), strings(&["a", "b"]));
    assert_eq!(answer_traits(&vec![]), Vec::<String>::new());
    assert_eq!(wrong_traits(&strings(&["a", "c", "b"]), &strings(&["b"])), strings(&["a", "c"]));
}

#[test]
fn trait_puzzle_with_given_options() {
    let z = trait_puzzle(&unit(&[]), &strings(&["a", "b"]), &strings(&["c", "a", "b"]), "17.5");
    assert_eq!((z.unit_id.as_str(), z.answer.as_str()), ("Jinx", "a,b"));
    assert_eq!(z.prompt.str_at("question").unwrap(), "징크스의 특성을 모두 고르세요");
    assert_eq!(z.prompt.get("unit").unwrap().str_at("icon").unwrap(), "j.png");
    assert_eq!(names(z.prompt.get("options").unwrap()), strings(&["c", "a", "b"]));
    assert_eq!(names(z.prompt.get("answer").unwrap()), strings(&["a", "b"]));
    assert_eq!(z.prompt.str_at("patch").unwrap(), "17.5");
    assert_eq!(z.stats.i64_at("trait_count"), Some(2));
}

#[test]
fn drawn_trait_puzzle_keeps_the_rules() {
    let all = strings(&["a", "b", "c", "d", "e", "f", "g"]);
    for _ in 0..50 {
        let z = make_trait_puzzle(&unit(&["b", "a"]), &all, "p").unwrap();
        let mut o = names(z.prompt.get("options").unwrap());
        assert!(o.contains(&"a".to_string()) && o.contains(&"b".to_string()));
        o.sort();
        o.dedup();
        assert_eq!(o.len(), 6);
    }
    assert!(make_trait_puzzle(&unit(&[]), &all, "p").is_none());
    assert!(make_trait_puzzle(&unit(&["a", "b", "c", "d"]), &all, "p").is_none());
}

#[test]
fn quiz_about_all_units() {
    let all = strings(&["a", "b", "c", "d", "e"]);
    let units = vec![unit(&["a"]), unit(&[]), unit(&["a", "b"]), unit(&["e"])];
    let zs = make_trait_quiz(&units, &all, "p");
    let answers: Vec<&str> = zs.iter().map(|z| z.answer.as_str()).collect();
    assert_eq!(answers, vec!["a", "e"]);
    assert!(make_trait_quiz(&units, &strings(&["b", "c", "d", "e"]), "p").is_empty());
}
