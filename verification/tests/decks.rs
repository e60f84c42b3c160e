use tft_iq::db::{raw_deck, RawDeck};
use tft_iq::deck_cluster::{cluster_decks, common_count, filter_tier_decks, flex_units};

fn strings(v: &[&str]) -> Vec<String> {
    v.iter().map(|s| s.to_string()).collect()
}

fn deck(units: &str, games: i64, avg: i64) -> RawDeck {
    raw_deck(units, games, avg)
}

#[test]
fn rows_become_decks() {
    let d = deck("a,b,c", 12, 399);
    assert_eq!(d.units, strings(&["a", "b", "c"]));
    assert_eq!((d.games, d.avg_placement), (12, 399));
}

#[test]
fn common_units() {
    assert_eq!(common_count(&strings(&["a", "b", "c"]), &strings(&["b", "c", "d"])), 2);
    assert_eq!(common_count(&strings(&["a"]), &strings(&["a", "a"])), 2);
    assert_eq!(common_count(&strings(&[]), &strings(&["a"])), 0);
}

#[test]
fn variants_are_absorbed() {
    let raw = vec![
        deck("a,b,c,d,e,f,g,h", 50, 380),
        deck("a,b,c,d,e,f,g,x", 40, 420),
        deck("p,q,r,s,t,u,v,w", 30, 440),
        deck("a,b,c,d,e,f,g,y", 20, 460),
        deck("b,c,d,e,f,g,h,y", 10, 470),
    ];
    let c = cluster_decks(raw, 7);
    assert_eq!(c.len(), 3);
    assert_eq!(c[0].core, strings(&["a", "b", "c", "d", "e", "f", "g"]));
    assert_eq!((c[0].variants.len(), c[0].total_games, c[0].best_avg), (3, 110, 380));
    assert_eq!(c[1].total_games, 30);
    // shares only six units with the narrowed core of the first
    assert_eq!((c[2].core.len(), c[2].best_avg), (8, 470));
    assert_eq!(flex_units(&c[0].variants[1], &c[0].core), strings(&["x"]));
}

#[test]
fn tiers_of_decks() {
    let raw = vec![
        deck("a", 1, 450),
        deck("b", 99, 451),
        deck("c", 100, 451),
        deck("d", 100, 500),
        deck("e", 1000, 501),
    ];
    let kept = filter_tier_decks(cluster_decks(raw, 1), 100);
    let names: Vec<&str> = kept.iter().map(|c| c.core[0].as_str()).collect();
    assert_eq!(names, vec!["a", "c", "d"]);
}

#[test]
fn clusters_keep_the_order() {
    let raw = vec![
        deck("a,b,c", 1, 300),
        deck("x,y,z", 2, 310),
        deck("a,b,d", 4, 320),
        deck("x,y,w", 8, 330),
    ];
    let c = cluster_decks(raw, 2);
    assert_eq!(c.iter().map(|c| c.best_avg).collect::<Vec<_>>(), vec![300, 310]);
    assert_eq!(c.iter().map(|c| c.total_games).collect::<Vec<_>>(), vec![5, 10]);
    let games = |i: usize| c[i].variants.iter().map(|v| v.games).collect::<Vec<_>>();
    assert_eq!((games(0), games(1)), (vec![1, 4], vec![2, 8]));
}

#[test]
fn nothing_in_common_is_one_cluster() {
    let c = cluster_decks(vec![deck("a", 1, 300), deck("b", 2, 310), deck("c", 3, 320)], 0);
    assert_eq!((c.len(), c[0].total_games, c[0].core.len()), (1, 6, 0));
    assert!(cluster_decks(vec![], 0).is_empty());
}
