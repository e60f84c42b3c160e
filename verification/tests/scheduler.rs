use tft_iq::scheduler::{interval_secs, next_step, should_regenerate, Action, Cycle, Event, Step};

fn run(cycle: u32, events: &[Event]) -> Vec<Action> {
    let mut at = Cycle::Start;
    let mut out = vec![];
    for e in events {
        let (next, action) = next_step(at, *e, cycle);
        at = next;
        out.push(action);
    }
    out
}

#[test]
fn intervals() {
    assert_eq!(interval_secs(&None), 21600);
    assert_eq!(interval_secs(&Some("60".to_string())), 60);
    assert_eq!(interval_secs(&Some("soon".to_string())), 21600);
}

#[test]
fn ordinary_cycle() {
    let ok = Event::Succeeded;
    assert_eq!(
        run(1, &[Event::Begin, ok, ok, ok]),
        vec![
            Action::Run(Step::Crawl),
            Action::Run(Step::AggregateCombos),
            Action::Run(Step::AggregateSpecial),
            Action::Sleep,
        ],
    );
}

#[test]
fn cycle_with_new_puzzles() {
    let ok = Event::Succeeded;
    assert_eq!(
        run(4, &[Event::Begin, ok, ok, ok, Event::Matches(15000), Event::Failed, ok, ok]),
        vec![
            Action::Run(Step::Crawl),
            Action::Run(Step::AggregateCombos),
            Action::Run(Step::AggregateSpecial),
            Action::CountMatches,
            Action::Run(Step::ComboQuiz),
            Action::Run(Step::DeckQuiz),
            Action::Run(Step::SpecialItems),
            Action::Sleep,
        ],
    );
    // counting special items failed: they are not sorted
    let after = run(8, &[Event::Begin, ok, ok, Event::Failed, Event::Matches(20000), ok, ok]);
    assert_eq!(after[5..], [Action::Run(Step::DeckQuiz), Action::Sleep]);
}

#[test]
fn failures_keep_old_puzzles() {
    let ok = Event::Succeeded;
    assert_eq!(run(4, &[Event::Begin, Event::Failed])[1], Action::Sleep);
    let a = run(4, &[Event::Begin, ok, Event::Failed, ok]);
    assert_eq!(a[2..], [Action::Run(Step::AggregateSpecial), Action::Sleep]);
    assert_eq!(run(4, &[Event::Begin, ok, ok, ok, Event::Matches(14999)])[4], Action::Sleep);
    assert_eq!(run(4, &[Event::Begin, ok, ok, ok, Event::Failed])[4], Action::Sleep);
    assert!(should_regenerate(15000) && !should_regenerate(14999));
}

#[test]
fn names_of_programs() {
    assert_eq!(Step::Crawl.name(), "crawler");
    assert_eq!(Step::AggregateCombos.name(), "aggregate_combos");
    assert_eq!(Step::AggregateSpecial.name(), "aggregate_special");
    assert_eq!(Step::ComboQuiz.name(), "combo_quiz_gen");
    assert_eq!(Step::DeckQuiz.name(), "deck_quiz_gen");
    assert_eq!(Step::SpecialItems.name(), "special_item_class");
}
