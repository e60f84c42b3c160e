//! When which program runs.
//!
//! Each cycle crawls, then counts, then waits. Every few cycles, where there are enough
//! matches, the puzzles are made anew. A step that failed stops what depends on it, so that
//! old data keeps being served.

use crate::text::{parse_unsigned, unsigned};
use vstd::prelude::*;

verus! {

/// Matches that are needed before puzzles are made anew.
pub const MIN_MATCHES_FOR_REGEN: i64 = 15000;

/// Puzzles are made anew every so many cycles.
pub const REGEN_EVERY_N_CYCLES: u32 = 4;

/// Seconds between two cycles where nothing else is said.
pub const DEFAULT_INTERVAL_SECS: u64 = 21600;

/// The seconds between two cycles, by what the environment says.
pub fn interval_secs(value: &Option<String>) -> (r: u64)
    ensures
        r == match *value {
            Some(s) => match unsigned(s@, u64::MAX as nat) {
                Some(n) => n,
                None => DEFAULT_INTERVAL_SECS as nat,
            },
            None => DEFAULT_INTERVAL_SECS as nat,
        },
{
    match value {
        Some(s) => match parse_unsigned(s.as_str(), u64::MAX) {
            Some(n) => n,
            None => DEFAULT_INTERVAL_SECS,
        },
        None => DEFAULT_INTERVAL_SECS,
    }
}

/// A program that a cycle runs.
#[derive(Debug, Clone, Copy, PartialEq, Eq, Structural)]
pub enum Step {
    Crawl,
    AggregateCombos,
    AggregateSpecial,
    ComboQuiz,
    DeckQuiz,
    SpecialItems,
}

impl Step {
    /// The name of the program.
    pub open spec fn program(self) -> Seq<char> {
        match self {
            Step::Crawl => "crawler"@,
            Step::AggregateCombos => "aggregate_combos"@,
            Step::AggregateSpecial => "aggregate_special"@,
            Step::ComboQuiz => "combo_quiz_gen"@,
            Step::DeckQuiz => "deck_quiz_gen"@,
            Step::SpecialItems => "special_item_class"@,
        }
    }

    /// The name of the program.
    pub fn name(self) -> (r: &'static str)
        ensures
            r@ == self.program(),
    {
        match self {
            Step::Crawl => "crawler",
            Step::AggregateCombos => "aggregate_combos",
            Step::AggregateSpecial => "aggregate_special",
            Step::ComboQuiz => "combo_quiz_gen",
            Step::DeckQuiz => "deck_quiz_gen",
            Step::SpecialItems => "special_item_class",
        }
    }
}

/// Where a cycle stands.
#[derive(Debug, Clone, Copy, PartialEq, Eq, Structural)]
pub enum Cycle {
    /// Before its first step.
    Start,
    Crawling,
    /// Counting combos.
    Combos,
    /// Counting special items; whether counting combos went well.
    Special(bool),
    /// Asking how many matches there are; whether counting special items went well.
    Asking(bool),
    /// Making combo puzzles; whether counting special items went well.
    Making(bool),
    /// Making deck puzzles; whether counting special items went well.
    MakingDecks(bool),
    /// Sorting special items.
    Sorting,
    /// Waiting for the next cycle.
    Done,
}

/// What is to be done next.
#[derive(Debug, Clone, Copy, PartialEq, Eq, Structural)]
pub enum Action {
    Run(Step),
    /// Ask the database how many matches the current patch has.
    CountMatches,
    /// Wait for the next cycle.
    Sleep,
}

/// What came of the last action.
#[derive(Debug, Clone, Copy, PartialEq, Eq, Structural)]
pub enum Event {
    /// The cycle begins.
    Begin,
    /// A program ended well.
    Succeeded,
    /// A program failed, or the database could not be asked.
    Failed,
    /// The current patch has so many matches.
    Matches(i64),
}

/// Puzzles are made anew in this cycle, where there are enough matches.
pub open spec fn is_regen_cycle(cycle: u32) -> bool {
    cycle % REGEN_EVERY_N_CYCLES == 0
}

/// What follows when `event` came while the cycle stood at `at`.
pub open spec fn next_of(at: Cycle, event: Event, cycle: u32) -> (Cycle, Action) {
    match at {
        Cycle::Start => (Cycle::Crawling, Action::Run(Step::Crawl)),
        Cycle::Crawling => if event == Event::Succeeded {
            (Cycle::Combos, Action::Run(Step::AggregateCombos))
        } else {
            (Cycle::Done, Action::Sleep)
        },
        Cycle::Combos => (
            Cycle::Special(event == Event::Succeeded),
            Action::Run(Step::AggregateSpecial),
        ),
        Cycle::Special(combos_ok) => if combos_ok && is_regen_cycle(cycle) {
            (Cycle::Asking(event == Event::Succeeded), Action::CountMatches)
        } else {
            (Cycle::Done, Action::Sleep)
        },
        Cycle::Asking(special_ok) => match event {
            Event::Matches(n) => if n >= MIN_MATCHES_FOR_REGEN {
                (Cycle::Making(special_ok), Action::Run(Step::ComboQuiz))
            } else {
                (Cycle::Done, Action::Sleep)
            },
            _ => (Cycle::Done, Action::Sleep),
        },
        Cycle::Making(special_ok) => (Cycle::MakingDecks(special_ok), Action::Run(Step::DeckQuiz)),
        Cycle::MakingDecks(special_ok) => if special_ok {
            (Cycle::Sorting, Action::Run(Step::SpecialItems))
        } else {
            (Cycle::Done, Action::Sleep)
        },
        Cycle::Sorting => (Cycle::Done, Action::Sleep),
        Cycle::Done => (Cycle::Done, Action::Sleep),
    }
}

/// Whether there are enough matches to make puzzles anew.
pub fn should_regenerate(match_count: i64) -> (r: bool)
    ensures
        r == (match_count >= MIN_MATCHES_FOR_REGEN),
{
    match_count >= MIN_MATCHES_FOR_REGEN
}

/// What follows when `event` came while the cycle with the given number stood at `at`.
pub fn next_step(at: Cycle, event: Event, cycle: u32) -> (r: (Cycle, Action))
    ensures
        r == next_of(at, event, cycle),
{
    let ok = event == Event::Succeeded;
    match at {
        Cycle::Start => (Cycle::Crawling, Action::Run(Step::Crawl)),
        Cycle::Crawling => if ok {
            (Cycle::Combos, Action::Run(Step::AggregateCombos))
        } else {
            (Cycle::Done, Action::Sleep)
        },
        Cycle::Combos => (Cycle::Special(ok), Action::Run(Step::AggregateSpecial)),
        Cycle::Special(combos_ok) => if combos_ok && cycle % REGEN_EVERY_N_CYCLES == 0 {
            (Cycle::Asking(ok), Action::CountMatches)
        } else {
            (Cycle::Done, Action::Sleep)
        },
        Cycle::Asking(special_ok) => match event {
            Event::Matches(n) => if should_regenerate(n) {
                (Cycle::Making(special_ok), Action::Run(Step::ComboQuiz))
            } else {
                (Cycle::Done, Action::Sleep)
            },
            _ => (Cycle::Done, Action::Sleep),
        },
        Cycle::Making(special_ok) => (Cycle::MakingDecks(special_ok), Action::Run(Step::DeckQuiz)),
        Cycle::MakingDecks(special_ok) => if special_ok {
            (Cycle::Sorting, Action::Run(Step::SpecialItems))
        } else {
            (Cycle::Done, Action::Sleep)
        },
        Cycle::Sorting => (Cycle::Done, Action::Sleep),
        Cycle::Done => (Cycle::Done, Action::Sleep),
    }
}

// ---------------------------------------------------------------- laws

/// Where a cycle stands after the given events.
pub open spec fn state_after(events: Seq<Event>, cycle: u32) -> Cycle
    decreases events.len(),
{
    if events.len() == 0 {
        Cycle::Start
    } else {
        next_of(state_after(events.drop_last(), cycle), events.last(), cycle).0
    }
}

/// What is to be done after the given events.
pub open spec fn action_after(events: Seq<Event>, cycle: u32) -> Action {
    next_of(state_after(events.drop_last(), cycle), events.last(), cycle).1
}

/// A step that makes puzzles anew.
pub open spec fn makes_puzzles(a: Action) -> bool {
    a == Action::Run(Step::ComboQuiz) || a == Action::Run(Step::DeckQuiz) || a == Action::Run(
        Step::SpecialItems,
    )
}

/// How far a cycle is, in steps.
spec fn depth(c: Cycle) -> int {
    match c {
        Cycle::Start => 0,
        Cycle::Crawling => 1,
        Cycle::Combos => 2,
        Cycle::Special(_) => 3,
        Cycle::Asking(_) => 4,
        Cycle::Making(_) => 5,
        Cycle::MakingDecks(_) => 6,
        Cycle::Sorting => 7,
        Cycle::Done => 8,
    }
}

/// What has to have happened for a cycle to stand where it stands.
spec fn history(events: Seq<Event>, cycle: u32) -> bool {
    let c = state_after(events, cycle);
    &&& depth(c) < 8 ==> depth(c) == events.len()
    &&& 2 <= depth(c) < 8 ==> events[1] == Event::Succeeded
    &&& (c matches Cycle::Special(ok) ==> (ok == (events[2] == Event::Succeeded)))
    &&& 4 <= depth(c) < 8 ==> events[2] == Event::Succeeded && is_regen_cycle(cycle)
    &&& (c matches Cycle::Asking(ok) ==> (ok == (events[3] == Event::Succeeded)))
    &&& (c matches Cycle::Making(ok) ==> (ok == (events[3] == Event::Succeeded)))
    &&& (c matches Cycle::MakingDecks(ok) ==> (ok == (events[3] == Event::Succeeded)))
    &&& (c == Cycle::Sorting ==> events[3] == Event::Succeeded)
    &&& 5 <= depth(c) < 8 ==> events[4] is Matches && events[4]->Matches_0 >= MIN_MATCHES_FOR_REGEN
}

proof fn lemma_history(events: Seq<Event>, cycle: u32)
    ensures
        history(events, cycle),
    decreases events.len(),
{
    if events.len() > 0 {
        let rest = events.drop_last();
        lemma_history(rest, cycle);
        let c = state_after(rest, cycle);
        assert(forall|i: int| 0 <= i < rest.len() ==> rest[i] == events[i]);
        if depth(c) < 8 {
            assert(events[depth(c)] == events.last());
        }
    }
}

/// Puzzles are made anew only where the crawl and the counting of combos went well, the cycle
/// is one for it, and the database said that there are enough matches. Special items are
/// sorted only where counting them went well too.
pub proof fn lemma_regenerates_only_on_success(events: Seq<Event>, cycle: u32)
    requires
        events.len() > 0,
        makes_puzzles(action_after(events, cycle)),
    ensures
        events.len() >= 5,
        events[1] == Event::Succeeded,
        events[2] == Event::Succeeded,
        is_regen_cycle(cycle),
        events[4] is Matches && events[4]->Matches_0 >= MIN_MATCHES_FOR_REGEN,
        action_after(events, cycle) == Action::Run(Step::SpecialItems) ==> events[3]
            == Event::Succeeded,
{
    let rest = events.drop_last();
    lemma_history(rest, cycle);
    lemma_history(events, cycle);
    assert(forall|i: int| 0 <= i < rest.len() ==> rest[i] == events[i]);
}

/// A failed crawl ends the cycle.
pub proof fn lemma_failed_crawl_ends(begin: Event, failed: Event, cycle: u32)
    requires
        failed != Event::Succeeded,
    ensures
        state_after(seq![begin, failed], cycle) == Cycle::Done,
        action_after(seq![begin, failed], cycle) == Action::Sleep,
{
    let e = seq![begin, failed];
    assert(e.drop_last() =~= seq![begin]);
    assert(seq![begin].drop_last() =~= Seq::<Event>::empty());
    reveal_with_fuel(state_after, 3);
}

/// Every cycle ends: after eight events it waits for the next one.
pub proof fn lemma_cycle_ends(events: Seq<Event>, cycle: u32)
    requires
        events.len() >= 8,
    ensures
        state_after(events, cycle) == Cycle::Done,
{
    lemma_history(events, cycle);
}

/// What a cycle does, event by event. It crawls; where that succeeded it aggregates the
/// combinations and then the special items, whatever came of the combinations. Puzzles are made
/// in every fourth cycle whose combinations were aggregated, where there are fifteen thousand
/// matches or more; the special items are sorted where they were aggregated.
pub proof fn lemma_cycle(
    e0: Event,
    e1: Event,
    e2: Event,
    e3: Event,
    e4: Event,
    e5: Event,
    e6: Event,
    e7: Event,
    cycle: u32,
)
    ensures
        ({
            let crawled = e1 == Event::Succeeded;
            let asks = crawled && e2 == Event::Succeeded && cycle % 4 == 0;
            let makes = asks && e4 is Matches && e4->Matches_0 >= 15_000;
            let sorts = makes && e3 == Event::Succeeded;
            &&& action_after(seq![e0], cycle) == Action::Run(Step::Crawl)
            &&& action_after(seq![e0, e1], cycle) == if crawled {
                Action::Run(Step::AggregateCombos)
            } else {
                Action::Sleep
            }
            &&& action_after(seq![e0, e1, e2], cycle) == if crawled {
                Action::Run(Step::AggregateSpecial)
            } else {
                Action::Sleep
            }
            &&& action_after(seq![e0, e1, e2, e3], cycle) == if asks {
                Action::CountMatches
            } else {
                Action::Sleep
            }
            &&& action_after(seq![e0, e1, e2, e3, e4], cycle) == if makes {
                Action::Run(Step::ComboQuiz)
            } else {
                Action::Sleep
            }
            &&& action_after(seq![e0, e1, e2, e3, e4, e5], cycle) == if makes {
                Action::Run(Step::DeckQuiz)
            } else {
                Action::Sleep
            }
            &&& action_after(seq![e0, e1, e2, e3, e4, e5, e6], cycle) == if sorts {
                Action::Run(Step::SpecialItems)
            } else {
                Action::Sleep
            }
            &&& action_after(seq![e0, e1, e2, e3, e4, e5, e6, e7], cycle) == Action::Sleep
        }),
{
    reveal_with_fuel(state_after, 9);
    assert(seq![e0].drop_last() =~= Seq::<Event>::empty());
    assert(seq![e0, e1].drop_last() =~= seq![e0]);
    assert(seq![e0, e1, e2].drop_last() =~= seq![e0, e1]);
    assert(seq![e0, e1, e2, e3].drop_last() =~= seq![e0, e1, e2]);
    assert(seq![e0, e1, e2, e3, e4].drop_last() =~= seq![e0, e1, e2, e3]);
    assert(seq![e0, e1, e2, e3, e4, e5].drop_last() =~= seq![e0, e1, e2, e3, e4]);
    assert(seq![e0, e1, e2, e3, e4, e5, e6].drop_last() =~= seq![e0, e1, e2, e3, e4, e5]);
    assert(seq![e0, e1, e2, e3, e4, e5, e6, e7].drop_last() =~= seq![e0, e1, e2, e3, e4, e5, e6]);
}

/// Each step is a program of its own.
pub proof fn lemma_programs()
    ensures
        Step::Crawl.program() == "crawler"@,
        Step::AggregateCombos.program() == "aggregate_combos"@,
        Step::AggregateSpecial.program() == "aggregate_special"@,
        Step::ComboQuiz.program() == "combo_quiz_gen"@,
        Step::DeckQuiz.program() == "deck_quiz_gen"@,
        Step::SpecialItems.program() == "special_item_class"@,
{
}

/// A cycle begins every six hours unless it is said otherwise, and puzzles are made anew from
/// fifteen thousand matches on, in every fourth cycle.
pub proof fn lemma_schedule_limits(cycle: u32)
    ensures
        DEFAULT_INTERVAL_SECS == 6 * 60 * 60,
        MIN_MATCHES_FOR_REGEN == 15_000,
        is_regen_cycle(cycle) <==> cycle % 4 == 0,
{
}

}
