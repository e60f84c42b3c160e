//! What units carried, and how their boards placed.

use crate::meta::map_model;
use crate::order::{lemma_lex_total, lemma_sorted_determined, sort_strings, sorted};
use crate::riot::dto::{copy_strings, Match, Participant, Unit, UnitModel};
use crate::seqs::{
    chunks, contents, in_chunks, lemma_chunks_flatten, lemma_filter_multiset, lemma_filter_push,
    lemma_filter_step, lemma_prefix_behind, lemma_prefix_of_sum, lemma_prefix_trans, prefix,
};
use crate::table::{name_set, Table};
use crate::tally::{
    is_top, lemma_placement_total_push, lemma_tally_additive, lists, placement_total, sums_fit,
    times, Event, PairAgg, PairRow, PairTally,
};
use crate::text::{join, joined, views};
use crate::time::{parse_time, parsed_time};
use vstd::prelude::*;

verus! {

/// A unit on a board that reached `placement`.
pub struct Appearance {
    pub placement: int,
    pub unit: UnitModel,
}

/// The units of a board.
pub open spec fn board(p: Participant) -> Seq<Appearance> {
    Seq::new(
        p.units@.len(),
        |i: int| Appearance { placement: p.placement as int, unit: p.units@[i]@ },
    )
}

/// The units of a row of boards.
pub open spec fn boards(ps: Seq<Participant>) -> Seq<Appearance>
    decreases ps.len(),
{
    if ps.len() == 0 {
        Seq::empty()
    } else {
        boards(ps.drop_last()) + board(ps.last())
    }
}

/// The units of all boards of a row of matches.
pub open spec fn appearances(ms: Seq<Match>) -> Seq<Appearance>
    decreases ms.len(),
{
    if ms.len() == 0 {
        Seq::empty()
    } else {
        appearances(ms.drop_last()) + boards(ms.last().info.participants@)
    }
}

/// The unit holds exactly three items, and all of them can be crafted.
pub open spec fn complete(u: UnitModel, craftable: Seq<Seq<char>>) -> bool {
    u.item_names.len() == 3 && forall|i: int|
        0 <= i < u.item_names.len() ==> craftable.contains(#[trigger] u.item_names[i])
}

/// The items of a unit as one name, whatever their order.
pub open spec fn combo_of(items: Seq<Seq<char>>) -> Seq<char> {
    joined(sorted::<String>(items), ","@)
}

/// How many of the items are tank items.
pub open spec fn tank_count(items: Seq<Seq<char>>, tank: Seq<Seq<char>>) -> nat {
    items.filter(|i: Seq<char>| tank.contains(i)).len()
}

/// The combos that came up, each with its carry.
pub open spec fn combo_events(
    apps: Seq<Appearance>,
    craftable: Seq<Seq<char>>,
    tank: Seq<Seq<char>>,
) -> Seq<Event>
    decreases apps.len(),
{
    if apps.len() == 0 {
        Seq::empty()
    } else {
        let rest = combo_events(apps.drop_last(), craftable, tank);
        let x = apps.last();
        if complete(x.unit, craftable) {
            rest.push(
                Event {
                    a: x.unit.character_id,
                    b: combo_of(x.unit.item_names),
                    placement: x.placement,
                    tag: tank_count(x.unit.item_names, tank) as i32,
                },
            )
        } else {
            rest
        }
    }
}

/// How often a unit appeared, and how often with three crafted items.
#[derive(Clone, Copy, Debug, PartialEq, Eq, Structural)]
pub struct CarryAgg {
    pub total_appearances: i64,
    pub three_item_count: i64,
}

/// The appearances of a unit.
pub open spec fn of_unit(apps: Seq<Appearance>, id: Seq<char>) -> Seq<Appearance> {
    apps.filter(|x: Appearance| x.unit.character_id == id)
}

/// The appearances of a unit with three crafted items.
pub open spec fn complete_of_unit(
    apps: Seq<Appearance>,
    id: Seq<char>,
    craftable: Seq<Seq<char>>,
) -> Seq<Appearance> {
    apps.filter(|x: Appearance| x.unit.character_id == id && complete(x.unit, craftable))
}

/// `m` counts the appearances of every unit that appeared.
pub open spec fn counts_units(
    m: Map<Seq<char>, CarryAgg>,
    apps: Seq<Appearance>,
    craftable: Seq<Seq<char>>,
) -> bool {
    &&& forall|id: Seq<char>| #[trigger] m.contains_key(id) <==> of_unit(apps, id).len() > 0
    &&& forall|id: Seq<char>| #[trigger]
        m.contains_key(id) ==> m[id].total_appearances == of_unit(apps, id).len()
            && m[id].three_item_count == complete_of_unit(apps, id, craftable).len()
}

/// The counts of units and of their combos.
pub struct ComboTally {
    pub carries: Table<CarryAgg>,
    pub combos: PairTally,
}

/// The tally counts exactly the given appearances.
pub open spec fn combo_tally_of(
    t: ComboTally,
    apps: Seq<Appearance>,
    craftable: Seq<Seq<char>>,
    tank: Seq<Seq<char>>,
) -> bool {
    &&& counts_units(t.carries@, apps, craftable)
    &&& t.combos.tallies(combo_events(apps, craftable, tank))
}

// ---------------------------------------------------------------- beginnings

proof fn lemma_boards_prefix(ps: Seq<Participant>, j: int)
    requires
        0 <= j <= ps.len(),
    ensures
        prefix(boards(ps.take(j)), boards(ps)),
    decreases ps.len() - j,
{
    if j < ps.len() {
        lemma_boards_prefix(ps, j + 1);
        assert(ps.take(j + 1).drop_last() == ps.take(j));
        lemma_prefix_of_sum(boards(ps.take(j)), board(ps[j]));
        lemma_prefix_trans(boards(ps.take(j)), boards(ps.take(j + 1)), boards(ps));
    } else {
        assert(ps.take(j) == ps);
        assert(boards(ps).take(boards(ps).len() as int) == boards(ps));
    }
}

proof fn lemma_appearances_prefix(ms: Seq<Match>, i: int)
    requires
        0 <= i <= ms.len(),
    ensures
        prefix(appearances(ms.take(i)), appearances(ms)),
    decreases ms.len() - i,
{
    if i < ms.len() {
        lemma_appearances_prefix(ms, i + 1);
        assert(ms.take(i + 1).drop_last() == ms.take(i));
        lemma_prefix_of_sum(appearances(ms.take(i)), boards(ms[i].info.participants@));
        lemma_prefix_trans(
            appearances(ms.take(i)),
            appearances(ms.take(i + 1)),
            appearances(ms),
        );
    } else {
        assert(ms.take(i) == ms);
        assert(appearances(ms).take(appearances(ms).len() as int) == appearances(ms));
    }
}

/// Wherever a walk over the matches stands, it has seen a beginning of all appearances.
proof fn lemma_walk_prefix(ms: Seq<Match>, i: int, j: int, u: int)
    requires
        0 <= i < ms.len(),
        0 <= j < ms[i].info.participants@.len(),
        0 <= u <= ms[i].info.participants@[j].units@.len(),
    ensures
        prefix(
            appearances(ms.take(i)) + boards(ms[i].info.participants@.take(j)) + board(
                ms[i].info.participants@[j],
            ).take(u),
            appearances(ms),
        ),
{
    let ps = ms[i].info.participants@;
    let seen = appearances(ms.take(i));
    let b = board(ps[j]);
    assert(prefix(b.take(u), b)) by {
        assert(b.take(u) =~= b.take(b.take(u).len() as int));
    }
    lemma_prefix_behind(seen + boards(ps.take(j)), b.take(u), b);
    assert(ps.take(j + 1).drop_last() == ps.take(j));
    assert(seen + boards(ps.take(j)) + b =~= seen + boards(ps.take(j + 1)));
    lemma_boards_prefix(ps, j + 1);
    lemma_prefix_behind(seen, boards(ps.take(j + 1)), boards(ps));
    assert(ms.take(i + 1).drop_last() == ms.take(i));
    lemma_appearances_prefix(ms, i + 1);
    lemma_prefix_trans(
        seen + boards(ps.take(j)) + b.take(u),
        seen + boards(ps.take(j + 1)),
        seen + boards(ps),
    );
    lemma_prefix_trans(
        seen + boards(ps.take(j)) + b.take(u),
        appearances(ms.take(i + 1)),
        appearances(ms),
    );
}

proof fn lemma_events_prefix(
    a: Seq<Appearance>,
    all: Seq<Appearance>,
    craftable: Seq<Seq<char>>,
    tank: Seq<Seq<char>>,
)
    requires
        prefix(a, all),
    ensures
        prefix(combo_events(a, craftable, tank), combo_events(all, craftable, tank)),
        combo_events(a, craftable, tank).len() <= a.len(),
    decreases all.len(),
{
    if a.len() == all.len() {
        assert(a == all) by {
            assert(all.take(all.len() as int) == all);
        }
        let e = combo_events(all, craftable, tank);
        assert(e.take(e.len() as int) == e);
        if a.len() > 0 {
            assert(a.drop_last() =~= all.take(a.len() - 1));
            assert(prefix(a.drop_last(), all.drop_last())) by {
                assert(all.drop_last() =~= all.drop_last().take(all.len() - 1));
            }
            lemma_events_prefix(a.drop_last(), all.drop_last(), craftable, tank);
        }
    } else {
        assert(a =~= all.drop_last().take(a.len() as int));
        lemma_events_prefix(a, all.drop_last(), craftable, tank);
        let e = combo_events(all.drop_last(), craftable, tank);
        let f = combo_events(all, craftable, tank);
        assert(prefix(e, f)) by {
            assert(e =~= f.take(e.len() as int));
        }
        lemma_prefix_trans(combo_events(a, craftable, tank), e, f);
    }
}

// ---------------------------------------------------------------- combos

fn all_in(items: &Vec<String>, names: &Table<bool>) -> (r: bool)
    ensures
        r == (forall|i: int|
            0 <= i < items@.len() ==> names@.contains_key(#[trigger] views(items@)[i])),
{
    let mut i: usize = 0;
    while i < items.len()
        invariant
            i <= items@.len(),
            forall|j: int| 0 <= j < i ==> names@.contains_key(#[trigger] views(items@)[j]),
        decreases items@.len() - i,
    {
        if !names.contains_key(items[i].as_str()) {
            assert(!names@.contains_key(views(items@)[i as int]));
            return false;
        }
        i += 1;
    }
    true
}

fn count_in(items: &Vec<String>, names: &Table<bool>, Ghost(tank): Ghost<Seq<Seq<char>>>) -> (n: usize)
    requires
        forall|k: Seq<char>| #[trigger] names@.contains_key(k) <==> tank.contains(k),
    ensures
        n == tank_count(views(items@), tank),
        n <= items@.len(),
{
    let ghost all = views(items@);
    let ghost keep = |i: Seq<char>| tank.contains(i);
    let mut n: usize = 0;
    let mut i: usize = 0;
    assert(all.take(0).filter(keep).len() == 0) by {
        reveal(Seq::filter);
    }
    while i < items.len()
        invariant
            i <= items@.len(),
            n <= i,
            all == views(items@),
            keep == (|i: Seq<char>| tank.contains(i)),
            forall|k: Seq<char>| #[trigger] names@.contains_key(k) <==> tank.contains(k),
            n == all.take(i as int).filter(keep).len(),
        decreases items@.len() - i,
    {
        proof {
            lemma_filter_step(all, i as int, keep);
        }
        if names.contains_key(items[i].as_str()) {
            n += 1;
        }
        i += 1;
    }
    assert(all.take(all.len() as int) == all);
    n
}

proof fn lemma_count_step(
    m: Map<Seq<char>, CarryAgg>,
    after: Map<Seq<char>, CarryAgg>,
    apps: Seq<Appearance>,
    x: Appearance,
    craftable: Seq<Seq<char>>,
)
    requires
        counts_units(m, apps, craftable),
        after == m.insert(
            x.unit.character_id,
            CarryAgg {
                total_appearances: (of_unit(apps, x.unit.character_id).len() + 1) as i64,
                three_item_count: (complete_of_unit(apps, x.unit.character_id, craftable).len() + if complete(
                    x.unit,
                    craftable,
                ) {
                    1int
                } else {
                    0int
                }) as i64,
            },
        ),
        apps.len() < i64::MAX,
    ensures
        counts_units(after, apps.push(x), craftable),
{
    let next = apps.push(x);
    assert forall|id: Seq<char>| #[trigger] after.contains_key(id) <==> of_unit(next, id).len() > 0 by {
        lemma_filter_push(apps, x, |y: Appearance| y.unit.character_id == id);
        assert(m.contains_key(id) <==> of_unit(apps, id).len() > 0);
    }
    assert forall|id: Seq<char>| #[trigger] after.contains_key(id) implies after[id].total_appearances
        == of_unit(next, id).len() && after[id].three_item_count == complete_of_unit(
        next,
        id,
        craftable,
    ).len() by {
        let p = |y: Appearance| y.unit.character_id == id;
        let q = |y: Appearance| y.unit.character_id == id && complete(y.unit, craftable);
        lemma_filter_push(apps, x, p);
        lemma_filter_push(apps, x, q);
        crate::seqs::lemma_filter_elements(apps, p);
        crate::seqs::lemma_filter_elements(apps, q);
        if id != x.unit.character_id {
            assert(m.contains_key(id));
        }
    }
}

/// The tally with one more appearance.
fn add_unit(
    t: ComboTally,
    placement: i64,
    unit: &Unit,
    craftable_set: &Table<bool>,
    tank_set: &Table<bool>,
    Ghost(apps): Ghost<Seq<Appearance>>,
    Ghost(craftable): Ghost<Seq<Seq<char>>>,
    Ghost(tank): Ghost<Seq<Seq<char>>>,
) -> (r: ComboTally)
    requires
        combo_tally_of(t, apps, craftable, tank),
        forall|k: Seq<char>| #[trigger] craftable_set@.contains_key(k) <==> craftable.contains(k),
        forall|k: Seq<char>| #[trigger] tank_set@.contains_key(k) <==> tank.contains(k),
        apps.len() < i64::MAX,
        sums_fit(
            combo_events(
                apps.push(Appearance { placement: placement as int, unit: unit@ }),
                craftable,
                tank,
            ),
        ),
    ensures
        combo_tally_of(
            r,
            apps.push(Appearance { placement: placement as int, unit: unit@ }),
            craftable,
            tank,
        ),
{
    let ghost x = Appearance { placement: placement as int, unit: unit@ };
    let ghost next = apps.push(x);
    let ghost id = unit.character_id@;
    let ComboTally { carries, combos } = t;
    proof {
        crate::seqs::lemma_filter_elements(apps, |y: Appearance| y.unit.character_id == id);
        crate::seqs::lemma_filter_elements(
            apps,
            |y: Appearance| y.unit.character_id == id && complete(y.unit, craftable),
        );
        assert(next.drop_last() == apps);
        // a unit that never appeared was never complete either
        if of_unit(apps, id).len() == 0 && complete_of_unit(apps, id, craftable).len() > 0 {
            let y = complete_of_unit(apps, id, craftable)[0];
            assert(apps.contains(y));
            assert(of_unit(apps, id).contains(y));
        }
    }
    let old = match carries.get(unit.character_id.as_str()) {
        Some(c) => *c,
        None => CarryAgg { total_appearances: 0, three_item_count: 0 },
    };
    assert(old.total_appearances == of_unit(apps, id).len());
    assert(old.three_item_count == complete_of_unit(apps, id, craftable).len());
    let three = unit.item_names.len() == 3;
    let crafted = all_in(&unit.item_names, craftable_set);
    let full = three && crafted;
    proof {
        assert(full == complete(unit@, craftable)) by {
            if crafted {
                assert forall|i: int| 0 <= i < unit@.item_names.len() implies craftable.contains(
                    #[trigger] unit@.item_names[i],
                ) by {
                    assert(craftable_set@.contains_key(views(unit.item_names@)[i]));
                }
            } else {
                let i = choose|i: int|
                    0 <= i < unit.item_names@.len() && !craftable_set@.contains_key(
                        #[trigger] views(unit.item_names@)[i],
                    );
                assert(!craftable.contains(unit@.item_names[i]));
            }
        }
    }
    let agg = CarryAgg {
        total_appearances: old.total_appearances + 1,
        three_item_count: if full {
            old.three_item_count + 1
        } else {
            old.three_item_count
        },
    };
    let ghost before = carries@;
    let carries = carries.insert(unit.character_id.clone(), agg);
    proof {
        lemma_count_step(before, carries@, apps, x, craftable);
    }
    let combos = if full {
        let items = sort_strings(copy_strings(&unit.item_names));
        let combo = join(&items, ",");
        let n: usize = count_in(&unit.item_names, tank_set, Ghost(tank));
        let ghost events = combo_events(apps, craftable, tank);
        proof {
            let all = combo_events(next, craftable, tank);
            let e = Event { a: id, b: combo@, placement: placement as int, tag: n as i32 };
            assert(all == events.push(e));
            assert(all.take(all.len() as int) == all);
            let k = all.len() as int;
            assert(i64::MIN <= placement_total(all.take(k), id, combo@) <= i64::MAX);
            lemma_placement_total_push(events, e);
        }
        combos.add_event(
            unit.character_id.clone(),
            combo,
            placement,
            n as i32,
            Ghost(events),
        )
    } else {
        combos
    };
    ComboTally { carries, combos }
}

/// Counts the units of all boards, and the combos of three crafted items that they held.
pub fn aggregate_combos(
    matches: &Vec<Match>,
    craftable: &Vec<String>,
    tank_items: &Vec<String>,
) -> (r: ComboTally)
    requires
        appearances(matches@).len() <= i64::MAX,
        sums_fit(combo_events(appearances(matches@), views(craftable@), views(tank_items@))),
    ensures
        combo_tally_of(r, appearances(matches@), views(craftable@), views(tank_items@)),
{
    let craftable_set = name_set(craftable);
    let tank_set = name_set(tank_items);
    let ghost cs = views(craftable@);
    let ghost ts = views(tank_items@);
    let ghost all = appearances(matches@);
    let mut t = ComboTally { carries: Table::new(), combos: PairTally::new() };
    assert(combo_tally_of(t, Seq::empty(), cs, ts)) by {
        reveal(Seq::filter);
    }
    let mut i: usize = 0;
    while i < matches.len()
        invariant
            i <= matches@.len(),
            all == appearances(matches@),
            all.len() <= i64::MAX,
            sums_fit(combo_events(all, cs, ts)),
            forall|k: Seq<char>| #[trigger] craftable_set@.contains_key(k) <==> cs.contains(k),
            forall|k: Seq<char>| #[trigger] tank_set@.contains_key(k) <==> ts.contains(k),
            combo_tally_of(t, appearances(matches@.take(i as int)), cs, ts),
        decreases matches@.len() - i,
    {
        let ps = &matches[i].info.participants;
        let ghost seen = appearances(matches@.take(i as int));
        let mut j: usize = 0;
        assert(seen + boards(ps@.take(0)) =~= seen);
        while j < ps.len()
            invariant
                i < matches@.len(),
                j <= ps@.len(),
                *ps == matches@[i as int].info.participants,
                seen == appearances(matches@.take(i as int)),
                all == appearances(matches@),
                all.len() <= i64::MAX,
                sums_fit(combo_events(all, cs, ts)),
                forall|k: Seq<char>| #[trigger] craftable_set@.contains_key(k) <==> cs.contains(k),
                forall|k: Seq<char>| #[trigger] tank_set@.contains_key(k) <==> ts.contains(k),
                combo_tally_of(t, seen + boards(ps@.take(j as int)), cs, ts),
            decreases ps@.len() - j,
        {
            let p = &ps[j];
            let ghost b = board(*p);
            let ghost seen_here = seen + boards(ps@.take(j as int));
            let mut u: usize = 0;
            assert(seen_here + b.take(0) =~= seen_here);
            while u < p.units.len()
                invariant
                    i < matches@.len(),
                    j < ps@.len(),
                    u <= p.units@.len(),
                    *ps == matches@[i as int].info.participants,
                    *p == ps@[j as int],
                    b == board(*p),
                    seen == appearances(matches@.take(i as int)),
                    seen_here == seen + boards(ps@.take(j as int)),
                    all == appearances(matches@),
                    all.len() <= i64::MAX,
                    sums_fit(combo_events(all, cs, ts)),
                    forall|k: Seq<char>| #[trigger]
                        craftable_set@.contains_key(k) <==> cs.contains(k),
                    forall|k: Seq<char>| #[trigger] tank_set@.contains_key(k) <==> ts.contains(k),
                    combo_tally_of(t, seen_here + b.take(u as int), cs, ts),
                decreases p.units@.len() - u,
            {
                let ghost apps = seen_here + b.take(u as int);
                proof {
                    let x = Appearance { placement: p.placement as int, unit: p.units@[u as int]@ };
                    assert(b[u as int] == x);
                    assert(seen_here + b.take(u + 1) =~= apps.push(x));
                    lemma_walk_prefix(matches@, i as int, j as int, u + 1);
                    lemma_events_prefix(apps.push(x), all, cs, ts);
                    lemma_sums_fit_prefix(
                        combo_events(apps.push(x), cs, ts),
                        combo_events(all, cs, ts),
                    );
                }
                t = add_unit(
                    t,
                    p.placement as i64,
                    &p.units[u],
                    &craftable_set,
                    &tank_set,
                    Ghost(apps),
                    Ghost(cs),
                    Ghost(ts),
                );
                u += 1;
            }
            proof {
                assert(b.take(b.len() as int) == b);
                assert(ps@.take(j + 1).drop_last() == ps@.take(j as int));
                assert(seen_here + b =~= seen + boards(ps@.take(j + 1)));
            }
            j += 1;
        }
        proof {
            assert(ps@.take(ps@.len() as int) == ps@);
            assert(matches@.take(i + 1).drop_last() == matches@.take(i as int));
            assert(seen + boards(ps@) == appearances(matches@.take(i + 1)));
        }
        i += 1;
    }
    assert(matches@.take(matches@.len() as int) == matches@);
    t
}

proof fn lemma_sums_fit_prefix(a: Seq<Event>, b: Seq<Event>)
    requires
        prefix(a, b),
        sums_fit(b),
    ensures
        sums_fit(a),
{
    assert forall|n: int, x: Seq<char>, y: Seq<char>|
        #![trigger placement_total(a.take(n), x, y)]
        0 <= n <= a.len() implies i64::MIN <= placement_total(a.take(n), x, y) <= i64::MAX by {
        assert(a.take(n) =~= b.take(n));
        assert(i64::MIN <= placement_total(b.take(n), x, y) <= i64::MAX);
    }
}

// ---------------------------------------------------------------- which matches

/// Which matches are counted, and what becomes of the counts that are stored.
#[derive(Debug, Clone, Copy, PartialEq, Eq, Structural)]
pub enum Mode {
    /// All matches; the stored counts are replaced.
    Full,
    /// The matches after a time, in seconds since the epoch and nanoseconds; their counts are
    /// added to the stored ones.
    After(i64, u32),
}

/// The mode for the time that the command line names, if it names one.
pub fn mode_for(after: Option<(i64, u32)>) -> (r: Mode)
    ensures
        r == match after {
            Some((secs, nanos)) => Mode::After(secs, nanos),
            None => Mode::Full,
        },
{
    match after {
        Some((secs, nanos)) => Mode::After(secs, nanos),
        None => Mode::Full,
    }
}

/// The mode that the command line asks for. What names no time is taken as no argument.
pub fn aggregation_mode(argument: &Option<String>) -> (r: Mode)
    ensures
        r == match *argument {
            Some(s) => match parsed_time(s@) {
                Some((secs, nanos)) => Mode::After(secs, nanos),
                None => Mode::Full,
            },
            None => Mode::Full,
        },
{
    match argument {
        Some(s) => mode_for(parse_time(s.as_str())),
        None => mode_for(None),
    }
}

// ---------------------------------------------------------------- what is stored

/// Rows that go to the database in one statement.
pub const COMBO_BATCH: usize = 3000;

/// Rows that go to the database in one statement.
pub const CARRY_BATCH: usize = 1000;

/// The combo counts as they are stored: every count once, in batches.
pub fn save_combo_stats(combos: &PairTally) -> (r: Vec<Vec<PairRow>>)
    ensures
        exists|rows: Seq<PairRow>| #[trigger]
            lists(rows, *combos) && contents(r@) == chunks(rows, COMBO_BATCH as nat),
{
    let rows = combos.rows();
    let ghost all = rows@;
    let r = in_chunks(rows, COMBO_BATCH);
    assert(lists(all, *combos) && contents(r@) == chunks(all, COMBO_BATCH as nat));
    r
}

/// What is stored of a unit.
#[derive(Debug)]
pub struct CarryRow {
    pub carry_id: String,
    pub total_appearances: i64,
    pub three_item_count: i64,
    /// Whether the unit is built as a carry.
    pub is_carry: bool,
    /// Whether it is built as a tank.
    pub is_tank: bool,
}

/// A unit is a carry where the share of its appearances with three crafted items is a fifth or
/// more. Out of no appearances nothing is no share, and more than nothing is more than any.
pub open spec fn carries(agg: CarryAgg) -> bool {
    if agg.total_appearances > 0 {
        agg.three_item_count * 5 >= agg.total_appearances
    } else if agg.total_appearances == 0 {
        agg.three_item_count > 0
    } else {
        agg.three_item_count * 5 <= agg.total_appearances
    }
}

fn is_carry(agg: CarryAgg) -> (r: bool)
    ensures
        r == carries(agg),
{
    let fifths: i128 = agg.three_item_count as i128 * 5;
    let total: i128 = agg.total_appearances as i128;
    if total > 0 {
        fifths >= total
    } else if total == 0 {
        fifths > 0
    } else {
        fifths <= total
    }
}

/// A unit is a tank where its most frequent combo has two tank items or more. Where several
/// combos are the most frequent, any of them decides.
pub open spec fn tank_verdict(m: Map<Seq<char>, PairAgg>, is_tank: bool) -> bool {
    if is_tank {
        exists|b: Seq<char>| #[trigger] is_top(m, b) && m[b].tag >= 2
    } else {
        (forall|b: Seq<char>| !#[trigger] m.contains_key(b)) || exists|b: Seq<char>| #[trigger]
            is_top(m, b) && m[b].tag < 2
    }
}

/// The ids of the rows.
pub open spec fn row_ids(rows: Seq<CarryRow>) -> Seq<Seq<char>> {
    Seq::new(rows.len(), |i: int| rows[i].carry_id@)
}

/// The row of a unit with the given counts.
pub open spec fn row_of(row: CarryRow, agg: CarryAgg) -> bool {
    &&& row.total_appearances == agg.total_appearances
    &&& row.three_item_count == agg.three_item_count
    &&& row.is_carry == carries(agg)
}

/// The unit counts as they are stored, each with its verdicts.
pub fn save_carry_stats(t: &ComboTally) -> (r: Vec<CarryRow>)
    ensures
        row_ids(r@) == t.carries.keys(),
        forall|i: int|
            #![trigger r@[i]]
            0 <= i < r@.len() ==> t.carries@.contains_key(r@[i].carry_id@) && row_of(
                r@[i],
                t.carries@[r@[i].carry_id@],
            ) && tank_verdict(t.combos.under(r@[i].carry_id@), r@[i].is_tank),
{
    let ghost ids = t.carries.keys();
    let mut out: Vec<CarryRow> = Vec::new();
    let mut i: usize = 0;
    while i < t.carries.len()
        invariant
            i <= ids.len(),
            ids == t.carries.keys(),
            out@.len() == i,
            forall|k: int|
                #![trigger out@[k]]
                0 <= k < i ==> out@[k].carry_id@ == ids[k] && t.carries@.contains_key(
                    out@[k].carry_id@,
                ) && row_of(out@[k], t.carries@[out@[k].carry_id@]) && tank_verdict(
                    t.combos.under(out@[k].carry_id@),
                    out@[k].is_tank,
                ),
        decreases ids.len() - i,
    {
        let id = t.carries.key_at(i);
        let agg = *t.carries.value_at(i);
        let is_tank = match t.combos.top(id.as_str()) {
            Some(x) => x.tag >= 2,
            None => false,
        };
        out.push(
            CarryRow {
                carry_id: id.clone(),
                total_appearances: agg.total_appearances,
                three_item_count: agg.three_item_count,
                is_carry: is_carry(agg),
                is_tank,
            },
        );
        i += 1;
    }
    assert(row_ids(out@) =~= ids);
    out
}

/// How often a unit appeared, by the counts of `m`.
pub open spec fn total_in(m: Map<Seq<char>, CarryAgg>, id: Seq<char>) -> int {
    if m.contains_key(id) {
        m[id].total_appearances as int
    } else {
        0
    }
}

/// How often a unit appeared with three crafted items, by the counts of `m`.
pub open spec fn three_in(m: Map<Seq<char>, CarryAgg>, id: Seq<char>) -> int {
    if m.contains_key(id) {
        m[id].three_item_count as int
    } else {
        0
    }
}

/// The counts of `a` and `b` together, for every unit that either counts.
pub open spec fn added(a: Map<Seq<char>, CarryAgg>, b: Map<Seq<char>, CarryAgg>) -> Map<
    Seq<char>,
    CarryAgg,
> {
    Map::new(
        |id: Seq<char>| a.contains_key(id) || b.contains_key(id),
        |id: Seq<char>|
            CarryAgg {
                total_appearances: (total_in(a, id) + total_in(b, id)) as i64,
                three_item_count: (three_in(a, id) + three_in(b, id)) as i64,
            },
    )
}

/// No sum of counts leaves the range of its type.
pub open spec fn counts_fit(a: Map<Seq<char>, CarryAgg>, b: Map<Seq<char>, CarryAgg>) -> bool {
    forall|id: Seq<char>|
        #![trigger a.contains_key(id)]
        #![trigger b.contains_key(id)]
        a.contains_key(id) || b.contains_key(id) ==> i64::MIN <= total_in(a, id) + total_in(b, id)
            <= i64::MAX && i64::MIN <= three_in(a, id) + three_in(b, id) <= i64::MAX
}

/// The units of `new` that are not among those of `old`.
pub open spec fn units_beside(old: Seq<Seq<char>>, new: Seq<Seq<char>>) -> Seq<Seq<char>> {
    new.filter(|id: Seq<char>| !old.contains(id))
}

/// The stored counts with the new ones added, the new units behind the old ones.
fn add_counts(stored: Table<CarryAgg>, new: &Table<CarryAgg>) -> (r: Table<CarryAgg>)
    requires
        counts_fit(stored@, new@),
    ensures
        r@ == added(stored@, new@),
        r.keys() == stored.keys() + units_beside(stored.keys(), new.keys()),
{
    stored.facts();
    new.facts();
    let ghost a = stored@;
    let ghost b = new@;
    let ghost old_ids = stored.keys();
    let ghost ids = new.keys();
    let ghost fresh = |id: Seq<char>| !old_ids.contains(id);
    let mut out = stored;
    let mut i: usize = 0;
    proof {
        reveal(Seq::filter);
        assert(out.keys() =~= old_ids + ids.take(0).filter(fresh));
    }
    while i < new.len()
        invariant
            i <= ids.len(),
            ids == new.keys(),
            ids.no_duplicates(),
            b == new@,
            counts_fit(a, b),
            fresh == (|id: Seq<char>| !old_ids.contains(id)),
            forall|id: Seq<char>| #[trigger] a.contains_key(id) <==> old_ids.contains(id),
            out.keys() == old_ids + ids.take(i as int).filter(fresh),
            forall|id: Seq<char>| #[trigger]
                out@.contains_key(id) <==> a.contains_key(id) || ids.take(i as int).contains(id),
            forall|id: Seq<char>|
                ids.take(i as int).contains(id) ==> #[trigger] out@[id] == added(a, b)[id],
            forall|id: Seq<char>|
                a.contains_key(id) && !ids.take(i as int).contains(id) ==> #[trigger] out@[id]
                    == a[id],
        decreases ids.len() - i,
    {
        let id = new.key_at(i);
        let x = *new.value_at(i);
        let ghost done = ids.take(i as int);
        let ghost so_far = out@;
        proof {
            assert(b.contains_key(id@));
            assert(!done.contains(id@)) by {
                if done.contains(id@) {
                    let k = choose|k: int| 0 <= k < done.len() && done[k] == id@;
                    assert(ids[k] == ids[i as int]);
                }
            }
            assert(out@.contains_key(id@) <==> a.contains_key(id@));
            lemma_filter_step(ids, i as int, fresh);
        }
        let sum = match out.get(id.as_str()) {
            Some(y) => CarryAgg {
                total_appearances: y.total_appearances + x.total_appearances,
                three_item_count: y.three_item_count + x.three_item_count,
            },
            None => x,
        };
        assert(sum == added(a, b)[id@]);
        out = out.insert(id.clone(), sum);
        proof {
            let next = ids.take(i + 1);
            assert(next =~= done.push(id@));
            assert forall|q: Seq<char>| #[trigger] next.contains(q) <==> done.contains(q) || q
                == id@ by {
                if done.contains(q) {
                    let k = choose|k: int| 0 <= k < done.len() && done[k] == q;
                    assert(next[k] == q);
                }
                if q == id@ {
                    assert(next[i as int] == q);
                }
            }
            assert(out.keys() =~= old_ids + next.filter(fresh));
        }
        i += 1;
    }
    proof {
        assert(ids.take(ids.len() as int) == ids);
        assert(out@ =~= added(a, b)) by {
            assert forall|id: Seq<char>| #[trigger] out@.contains_key(id) implies out@[id] == added(
                a,
                b,
            )[id] by {
                if !ids.contains(id) {
                    assert(!b.contains_key(id));
                    assert(a.contains_key(id));
                }
            }
        }
    }
    out
}

/// What the row of a unit is, beside its id.
pub struct CarryRowModel {
    pub total_appearances: i64,
    pub three_item_count: i64,
    pub is_carry: bool,
    pub is_tank: bool,
}

/// The row of a unit, by the counts of units and by how many tank items the most frequent combo
/// of each unit has. A unit without a combo is no tank.
pub open spec fn carry_row(
    counts: Map<Seq<char>, CarryAgg>,
    tanks: Map<Seq<char>, i32>,
    id: Seq<char>,
) -> CarryRowModel {
    CarryRowModel {
        total_appearances: counts[id].total_appearances,
        three_item_count: counts[id].three_item_count,
        is_carry: carries(counts[id]),
        is_tank: tanks.contains_key(id) && tanks[id] >= 2,
    }
}

/// The rows of all units.
pub open spec fn carry_rows(
    counts: Map<Seq<char>, CarryAgg>,
    tanks: Map<Seq<char>, i32>,
) -> Map<Seq<char>, CarryRowModel> {
    Map::new(|id: Seq<char>| counts.contains_key(id), |id: Seq<char>| carry_row(counts, tanks, id))
}

/// `rows` are the rows of the given units, in their order.
pub open spec fn lists_carries(
    rows: Seq<CarryRow>,
    ids: Seq<Seq<char>>,
    all: Map<Seq<char>, CarryRowModel>,
) -> bool {
    &&& row_ids(rows) == ids
    &&& forall|i: int|
        0 <= i < rows.len() ==> all.contains_key((#[trigger] rows[i]).carry_id@) && (CarryRowModel {
            total_appearances: rows[i].total_appearances,
            three_item_count: rows[i].three_item_count,
            is_carry: rows[i].is_carry,
            is_tank: rows[i].is_tank,
        }) == all[rows[i].carry_id@]
}

/// The rows of all units once new counts were added to the stored ones, in batches. The verdicts
/// are those of the sums; `tanks` tells how many tank items the most frequent stored combo of
/// each unit has.
pub fn upsert_carry_stats(
    stored: Table<CarryAgg>,
    new: &Table<CarryAgg>,
    tanks: &Table<i32>,
) -> (r: Vec<Vec<CarryRow>>)
    requires
        counts_fit(stored@, new@),
    ensures
        exists|rows: Seq<CarryRow>| #[trigger]
            lists_carries(
                rows,
                stored.keys() + units_beside(stored.keys(), new.keys()),
                carry_rows(added(stored@, new@), tanks@),
            ) && contents(r@) == chunks(rows, CARRY_BATCH as nat),
{
    let counts = add_counts(stored, new);
    let ghost ids = counts.keys();
    let ghost all = carry_rows(counts@, tanks@);
    let mut out: Vec<CarryRow> = Vec::new();
    let mut i: usize = 0;
    assert(row_ids(out@) =~= ids.take(0));
    while i < counts.len()
        invariant
            i <= ids.len(),
            ids == counts.keys(),
            all == carry_rows(counts@, tanks@),
            out@.len() == i,
            lists_carries(out@, ids.take(i as int), all),
        decreases ids.len() - i,
    {
        let id = counts.key_at(i);
        let agg = *counts.value_at(i);
        let is_tank = match tanks.get(id.as_str()) {
            Some(n) => *n >= 2,
            None => false,
        };
        let ghost before = out@;
        out.push(
            CarryRow {
                carry_id: id.clone(),
                total_appearances: agg.total_appearances,
                three_item_count: agg.three_item_count,
                is_carry: is_carry(agg),
                is_tank,
            },
        );
        proof {
            assert(row_ids(out@) =~= row_ids(before).push(id@));
            assert(ids.take(i + 1) =~= ids.take(i as int).push(id@));
            assert forall|k: int| 0 <= k < out@.len() implies all.contains_key(
                (#[trigger] out@[k]).carry_id@,
            ) && (CarryRowModel {
                total_appearances: out@[k].total_appearances,
                three_item_count: out@[k].three_item_count,
                is_carry: out@[k].is_carry,
                is_tank: out@[k].is_tank,
            }) == all[out@[k].carry_id@] by {
                if k < i {
                    assert(out@[k] == before[k]);
                }
            }
        }
        i += 1;
    }
    let ghost rows = out@;
    assert(ids.take(ids.len() as int) == ids);
    let r = in_chunks(out, CARRY_BATCH);
    assert(lists_carries(rows, ids, all) && contents(r@) == chunks(rows, CARRY_BATCH as nat));
    r
}

// ---------------------------------------------------------------- special items

/// The special items that a unit holds, one event for each.
pub open spec fn held_specials(
    x: Appearance,
    items: Seq<Seq<char>>,
    special: Set<Seq<char>>,
) -> Seq<Event>
    decreases items.len(),
{
    if items.len() == 0 {
        Seq::empty()
    } else {
        let rest = held_specials(x, items.drop_last(), special);
        if special.contains(items.last()) {
            rest.push(
                Event {
                    a: x.unit.character_id,
                    b: items.last(),
                    placement: x.placement,
                    tag: 0,
                },
            )
        } else {
            rest
        }
    }
}

/// The special items that units held, one event for each time.
pub open spec fn special_events(apps: Seq<Appearance>, special: Set<Seq<char>>) -> Seq<Event>
    decreases apps.len(),
{
    if apps.len() == 0 {
        Seq::empty()
    } else {
        special_events(apps.drop_last(), special) + held_specials(
            apps.last(),
            apps.last().unit.item_names,
            special,
        )
    }
}

proof fn lemma_specials_prefix(a: Seq<Appearance>, all: Seq<Appearance>, special: Set<Seq<char>>)
    requires
        prefix(a, all),
    ensures
        prefix(special_events(a, special), special_events(all, special)),
    decreases all.len(),
{
    if a.len() == all.len() {
        assert(all.take(all.len() as int) == all);
        let e = special_events(all, special);
        assert(e.take(e.len() as int) == e);
    } else {
        assert(a =~= all.drop_last().take(a.len() as int));
        lemma_specials_prefix(a, all.drop_last(), special);
        let e = special_events(all.drop_last(), special);
        lemma_prefix_of_sum(
            e,
            held_specials(all.last(), all.last().unit.item_names, special),
        );
        lemma_prefix_trans(special_events(a, special), e, special_events(all, special));
    }
}

proof fn lemma_held_prefix(
    x: Appearance,
    items: Seq<Seq<char>>,
    n: int,
    special: Set<Seq<char>>,
)
    requires
        0 <= n <= items.len(),
    ensures
        prefix(held_specials(x, items.take(n), special), held_specials(x, items, special)),
    decreases items.len(),
{
    if n == items.len() {
        assert(items.take(n) == items);
        let e = held_specials(x, items, special);
        assert(e.take(e.len() as int) == e);
    } else {
        assert(items.take(n) =~= items.drop_last().take(n));
        lemma_held_prefix(x, items.drop_last(), n, special);
        let e = held_specials(x, items.drop_last(), special);
        let f = held_specials(x, items, special);
        assert(prefix(e, f)) by {
            assert(e =~= f.take(e.len() as int));
        }
        lemma_prefix_trans(held_specials(x, items.take(n), special), e, f);
    }
}

/// The tally with the special items that one more unit holds.
fn add_specials(
    t: PairTally,
    placement: i64,
    unit: &Unit,
    categories: &Table<String>,
    Ghost(events): Ghost<Seq<Event>>,
    Ghost(special): Ghost<Set<Seq<char>>>,
) -> (r: PairTally)
    requires
        t.tallies(events),
        special == categories@.dom(),
        sums_fit(
            events + held_specials(
                Appearance { placement: placement as int, unit: unit@ },
                unit@.item_names,
                special,
            ),
        ),
    ensures
        r.tallies(
            events + held_specials(
                Appearance { placement: placement as int, unit: unit@ },
                unit@.item_names,
                special,
            ),
        ),
{
    let ghost x = Appearance { placement: placement as int, unit: unit@ };
    let ghost items = unit@.item_names;
    let ghost all = events + held_specials(x, items, special);
    let mut t = t;
    let mut i: usize = 0;
    assert(events + held_specials(x, items.take(0), special) =~= events);
    while i < unit.item_names.len()
        invariant
            i <= unit.item_names@.len(),
            x == (Appearance { placement: placement as int, unit: unit@ }),
            items == unit@.item_names,
            all == events + held_specials(x, items, special),
            sums_fit(all),
            special == categories@.dom(),
            t.tallies(events + held_specials(x, items.take(i as int), special)),
        decreases unit.item_names@.len() - i,
    {
        let item = &unit.item_names[i];
        let ghost so_far = events + held_specials(x, items.take(i as int), special);
        proof {
            assert(items.take(i + 1).drop_last() == items.take(i as int));
            assert(items.take(i + 1).last() == item@);
            lemma_held_prefix(x, items, i + 1, special);
            lemma_prefix_behind(
                events,
                held_specials(x, items.take(i + 1), special),
                held_specials(x, items, special),
            );
        }
        if categories.contains_key(item.as_str()) {
            proof {
                let e = Event {
                    a: unit.character_id@,
                    b: item@,
                    placement: placement as int,
                    tag: 0,
                };
                let next = events + held_specials(x, items.take(i + 1), special);
                assert(next =~= so_far.push(e));
                lemma_sums_fit_prefix(next, all);
                assert(next.take(next.len() as int) == next);
                let k = next.len() as int;
                assert(i64::MIN <= placement_total(next.take(k), e.a, e.b) <= i64::MAX);
                lemma_placement_total_push(so_far, e);
            }
            t = t.add_event(unit.character_id.clone(), item.clone(), placement, 0, Ghost(so_far));
        }
        i += 1;
    }
    assert(items.take(items.len() as int) == items);
    t
}

/// Counts how often units held each special item.
pub fn aggregate_special(matches: &Vec<Match>, categories: &Table<String>) -> (r: PairTally)
    requires
        sums_fit(special_events(appearances(matches@), categories@.dom())),
    ensures
        r.tallies(special_events(appearances(matches@), categories@.dom())),
{
    let ghost ss = categories@.dom();
    let ghost all = appearances(matches@);
    let mut t = PairTally::new();
    let mut i: usize = 0;
    while i < matches.len()
        invariant
            i <= matches@.len(),
            all == appearances(matches@),
            sums_fit(special_events(all, ss)),
            ss == categories@.dom(),
            t.tallies(special_events(appearances(matches@.take(i as int)), ss)),
        decreases matches@.len() - i,
    {
        let ps = &matches[i].info.participants;
        let ghost seen = appearances(matches@.take(i as int));
        let mut j: usize = 0;
        assert(seen + boards(ps@.take(0)) =~= seen);
        while j < ps.len()
            invariant
                i < matches@.len(),
                j <= ps@.len(),
                *ps == matches@[i as int].info.participants,
                seen == appearances(matches@.take(i as int)),
                all == appearances(matches@),
                sums_fit(special_events(all, ss)),
                ss == categories@.dom(),
                t.tallies(special_events(seen + boards(ps@.take(j as int)), ss)),
            decreases ps@.len() - j,
        {
            let p = &ps[j];
            let ghost b = board(*p);
            let ghost seen_here = seen + boards(ps@.take(j as int));
            let mut u: usize = 0;
            assert(seen_here + b.take(0) =~= seen_here);
            while u < p.units.len()
                invariant
                    i < matches@.len(),
                    j < ps@.len(),
                    u <= p.units@.len(),
                    *ps == matches@[i as int].info.participants,
                    *p == ps@[j as int],
                    b == board(*p),
                    seen == appearances(matches@.take(i as int)),
                    seen_here == seen + boards(ps@.take(j as int)),
                    all == appearances(matches@),
                    sums_fit(special_events(all, ss)),
                    ss == categories@.dom(),
                    t.tallies(special_events(seen_here + b.take(u as int), ss)),
                decreases p.units@.len() - u,
            {
                let ghost apps = seen_here + b.take(u as int);
                proof {
                    let x = Appearance { placement: p.placement as int, unit: p.units@[u as int]@ };
                    assert(b[u as int] == x);
                    assert(seen_here + b.take(u + 1) =~= apps.push(x));
                    lemma_walk_prefix(matches@, i as int, j as int, u + 1);
                    lemma_specials_prefix(apps.push(x), all, ss);
                    lemma_sums_fit_prefix(
                        special_events(apps.push(x), ss),
                        special_events(all, ss),
                    );
                    assert(apps.push(x).drop_last() == apps);
                }
                t = add_specials(
                    t,
                    p.placement as i64,
                    &p.units[u],
                    categories,
                    Ghost(special_events(apps, ss)),
                    Ghost(ss),
                );
                u += 1;
            }
            proof {
                assert(b.take(b.len() as int) == b);
                assert(ps@.take(j + 1).drop_last() == ps@.take(j as int));
                assert(seen_here + b =~= seen + boards(ps@.take(j + 1)));
            }
            j += 1;
        }
        proof {
            assert(ps@.take(ps@.len() as int) == ps@);
            assert(matches@.take(i + 1).drop_last() == matches@.take(i as int));
            assert(seen + boards(ps@) == appearances(matches@.take(i + 1)));
        }
        i += 1;
    }
    assert(matches@.take(matches@.len() as int) == matches@);
    t
}


/// The pairs as a map; of two pairs with one key the last counts.
pub open spec fn pairs_map(s: Seq<(String, String)>) -> Map<Seq<char>, Seq<char>>
    decreases s.len(),
{
    if s.len() == 0 {
        Map::empty()
    } else {
        pairs_map(s.drop_last()).insert(s.last().0@, s.last().1@)
    }
}

/// The category of each special item.
pub fn special_categories(rows: Vec<(String, String)>) -> (r: Table<String>)
    ensures
        map_model(r@) == pairs_map(rows@),
{
    let ghost all = rows@;
    let mut rest = rows;
    let mut out: Table<String> = Table::new();
    assert(map_model(out@) =~= pairs_map(all.take(0)));
    while rest.len() > 0
        invariant
            rest@.len() <= all.len(),
            rest@ == all.skip(all.len() - rest@.len()),
            map_model(out@) == pairs_map(all.take(all.len() - rest@.len())),
        decreases rest@.len(),
    {
        let ghost n = all.len() - rest@.len();
        let ghost before = out@;
        let (id, category) = rest.remove(0);
        proof {
            assert(all[n] == (id, category));
            assert(all.take(n + 1).drop_last() == all.take(n));
            assert(rest@ =~= all.skip(n + 1));
        }
        let ghost key = id@;
        let ghost cat = category;
        out = out.insert(id, category);
        assert(map_model(out@) =~= map_model(before).insert(key, cat@));
    }
    assert(all.take(all.len() as int) == all);
    out
}

/// What is stored of a special item on a unit.
#[derive(Debug)]
pub struct SpecialRow {
    pub carry_id: String,
    pub item_id: String,
    pub category: String,
    pub pick_count: i64,
    pub placement_sum: i64,
}

/// `row` is what is stored of the count `p`.
pub open spec fn special_row(
    row: SpecialRow,
    p: PairRow,
    categories: Map<Seq<char>, Seq<char>>,
) -> bool {
    &&& row.carry_id@ == p.a@
    &&& row.item_id@ == p.b@
    &&& row.category@ == if categories.contains_key(p.b@) {
        categories[p.b@]
    } else {
        seq![]
    }
    &&& row.pick_count == p.agg.pick_count
    &&& row.placement_sum == p.agg.placement_sum
}

/// `rows` are what is stored of the counts, one of each.
pub open spec fn special_rows(
    rows: Seq<SpecialRow>,
    counts: Seq<PairRow>,
    categories: Map<Seq<char>, Seq<char>>,
) -> bool {
    rows.len() == counts.len() && forall|i: int|
        0 <= i < rows.len() ==> special_row(#[trigger] rows[i], counts[i], categories)
}

/// The counts of special items as they are stored: every count once, with its category, in
/// batches.
pub fn save_special_stats(t: &PairTally, categories: &Table<String>) -> (r: Vec<Vec<SpecialRow>>)
    ensures
        exists|rows: Seq<SpecialRow>, counts: Seq<PairRow>| #[trigger]
            special_rows(rows, counts, map_model(categories@)) && lists(counts, *t) && contents(r@)
                == chunks(rows, CARRY_BATCH as nat),
{
    let rows = t.rows();
    let mut out: Vec<SpecialRow> = Vec::new();
    let mut i: usize = 0;
    while i < rows.len()
        invariant
            i <= rows@.len(),
            out@.len() == i,
            forall|k: int|
                0 <= k < i ==> special_row(#[trigger] out@[k], rows@[k], map_model(categories@)),
        decreases rows@.len() - i,
    {
        let row = &rows[i];
        let category = match categories.get(row.b.as_str()) {
            Some(c) => c.clone(),
            None => String::new(),
        };
        out.push(
            SpecialRow {
                carry_id: row.a.clone(),
                item_id: row.b.clone(),
                category,
                pick_count: row.agg.pick_count,
                placement_sum: row.agg.placement_sum,
            },
        );
        i += 1;
    }
    let ghost stored = out@;
    let r = in_chunks(out, CARRY_BATCH);
    assert(special_rows(stored, rows@, map_model(categories@)) && lists(rows@, *t));
    r
}

// ---------------------------------------------------------------- laws

proof fn lemma_appearances_sum(x: Seq<Match>, y: Seq<Match>)
    ensures
        appearances(x + y) == appearances(x) + appearances(y),
    decreases y.len(),
{
    if y.len() == 0 {
        assert(x + y =~= x);
        assert(appearances(x) + appearances(y) =~= appearances(x));
    } else {
        let t = y.drop_last();
        lemma_appearances_sum(x, t);
        assert((x + y).drop_last() =~= x + t);
        assert((x + y).last() == y.last());
        let b = boards(y.last().info.participants@);
        assert((appearances(x) + appearances(t)) + b =~= appearances(x) + (appearances(t) + b));
    }
}

proof fn lemma_combo_events_sum(
    x: Seq<Appearance>,
    y: Seq<Appearance>,
    craftable: Seq<Seq<char>>,
    tank: Seq<Seq<char>>,
)
    ensures
        combo_events(x + y, craftable, tank) == combo_events(x, craftable, tank) + combo_events(
            y,
            craftable,
            tank,
        ),
    decreases y.len(),
{
    if y.len() == 0 {
        assert(x + y =~= x);
        assert(combo_events(x, craftable, tank) + combo_events(y, craftable, tank)
            =~= combo_events(x, craftable, tank));
    } else {
        let t = y.drop_last();
        lemma_combo_events_sum(x, t, craftable, tank);
        assert((x + y).drop_last() =~= x + t);
        assert((x + y).last() == y.last());
        assert(combo_events(x + y, craftable, tank) =~= combo_events(x, craftable, tank)
            + combo_events(y, craftable, tank));
    }
}

proof fn lemma_special_events_sum(
    x: Seq<Appearance>,
    y: Seq<Appearance>,
    special: Set<Seq<char>>,
)
    ensures
        special_events(x + y, special) == special_events(x, special) + special_events(y, special),
    decreases y.len(),
{
    if y.len() == 0 {
        assert(x + y =~= x);
        assert(special_events(x, special) + special_events(y, special) =~= special_events(
            x,
            special,
        ));
    } else {
        let t = y.drop_last();
        lemma_special_events_sum(x, t, special);
        assert((x + y).drop_last() =~= x + t);
        assert((x + y).last() == y.last());
        assert(special_events(x + y, special) =~= special_events(x, special) + special_events(
            y,
            special,
        ));
    }
}

proof fn lemma_filter_sum<A>(x: Seq<A>, y: Seq<A>, p: spec_fn(A) -> bool)
    ensures
        (x + y).filter(p) == x.filter(p) + y.filter(p),
    decreases y.len(),
{
    reveal(Seq::filter);
    if y.len() == 0 {
        assert(x + y =~= x);
        assert(x.filter(p) + y.filter(p) =~= x.filter(p));
    } else {
        let t = y.drop_last();
        lemma_filter_sum(x, t, p);
        assert((x + y).drop_last() =~= x + t);
        assert((x + y).last() == y.last());
        assert((x + y).filter(p) =~= x.filter(p) + y.filter(p));
    }
}

/// Counting the older matches, then the newer ones, and adding up gives what counting all of
/// them at once gives: for every combo of every unit, and for every unit.
pub proof fn lemma_incremental_is_full(
    older: Seq<Match>,
    newer: Seq<Match>,
    craftable: Seq<Seq<char>>,
    tank: Seq<Seq<char>>,
    id: Seq<char>,
    combo: Seq<char>,
)
    ensures
        ({
            let all = combo_events(appearances(older + newer), craftable, tank);
            let x = combo_events(appearances(older), craftable, tank);
            let y = combo_events(appearances(newer), craftable, tank);
            &&& times(all, id, combo).len() == times(x, id, combo).len() + times(y, id, combo).len()
            &&& placement_total(all, id, combo) == placement_total(x, id, combo) + placement_total(
                y,
                id,
                combo,
            )
        }),
        of_unit(appearances(older + newer), id).len() == of_unit(appearances(older), id).len()
            + of_unit(appearances(newer), id).len(),
        complete_of_unit(appearances(older + newer), id, craftable).len() == complete_of_unit(
            appearances(older),
            id,
            craftable,
        ).len() + complete_of_unit(appearances(newer), id, craftable).len(),
{
    lemma_appearances_sum(older, newer);
    let (a, b) = (appearances(older), appearances(newer));
    lemma_combo_events_sum(a, b, craftable, tank);
    lemma_tally_additive(
        combo_events(a, craftable, tank),
        combo_events(b, craftable, tank),
        id,
        combo,
    );
    lemma_filter_sum(a, b, |x: Appearance| x.unit.character_id == id);
    lemma_filter_sum(
        a,
        b,
        |x: Appearance| x.unit.character_id == id && complete(x.unit, craftable),
    );
}

/// Adding the counts of two runs one after the other leaves the rows that adding their sums at
/// once leaves: the counts of every unit are the stored ones plus those of both runs, and the
/// verdicts are those of these sums.
pub proof fn lemma_two_updates_are_one(
    stored: Map<Seq<char>, CarryAgg>,
    m: Map<Seq<char>, CarryAgg>,
    n: Map<Seq<char>, CarryAgg>,
    tanks: Map<Seq<char>, i32>,
)
    requires
        counts_fit(stored, m),
        counts_fit(added(stored, m), n),
        counts_fit(m, n),
    ensures
        counts_fit(stored, added(m, n)),
        carry_rows(added(added(stored, m), n), tanks) == carry_rows(
            added(stored, added(m, n)),
            tanks,
        ),
        forall|id: Seq<char>| #[trigger]
            carry_rows(added(added(stored, m), n), tanks).contains_key(id)
                <==> stored.contains_key(id) || m.contains_key(id) || n.contains_key(id),
        forall|id: Seq<char>| #[trigger]
            carry_rows(added(added(stored, m), n), tanks).contains_key(id) ==> ({
                let row = carry_rows(added(added(stored, m), n), tanks)[id];
                let total = total_in(stored, id) + total_in(m, id) + total_in(n, id);
                let three = three_in(stored, id) + three_in(m, id) + three_in(n, id);
                &&& row.total_appearances == total
                &&& row.three_item_count == three
                &&& total > 0 ==> (row.is_carry <==> three * 5 >= total)
                &&& row.is_tank <==> tanks.contains_key(id) && tanks[id] >= 2
            }),
{
    let once = added(stored, added(m, n));
    let twice = added(added(stored, m), n);
    assert forall|id: Seq<char>| true implies #[trigger] total_in(added(stored, m), id) == total_in(
        stored,
        id,
    ) + total_in(m, id) && three_in(added(stored, m), id) == three_in(stored, id) + three_in(
        m,
        id,
    ) by {
        let _ = stored.contains_key(id);
        let _ = m.contains_key(id);
    }
    assert forall|id: Seq<char>| true implies #[trigger] total_in(added(m, n), id) == total_in(
        m,
        id,
    ) + total_in(n, id) && three_in(added(m, n), id) == three_in(m, id) + three_in(n, id) by {
        let _ = m.contains_key(id);
        let _ = n.contains_key(id);
    }
    assert forall|id: Seq<char>| twice.contains_key(id) implies i64::MIN <= total_in(stored, id)
        + total_in(m, id) + total_in(n, id) <= i64::MAX && i64::MIN <= three_in(stored, id)
        + three_in(m, id) + three_in(n, id) <= i64::MAX by {
        let s = added(stored, m);
        let _ = total_in(s, id);
        assert(s.contains_key(id) || n.contains_key(id));
    }
    assert forall|id: Seq<char>|
        #![trigger stored.contains_key(id)]
        #![trigger added(m, n).contains_key(id)]
        stored.contains_key(id) || added(m, n).contains_key(id) implies i64::MIN <= total_in(
        stored,
        id,
    ) + total_in(added(m, n), id) <= i64::MAX && i64::MIN <= three_in(stored, id) + three_in(
        added(m, n),
        id,
    ) <= i64::MAX by {
        assert(twice.contains_key(id));
    }
    assert(twice =~= once);
}

/// What `added` says of two tables of counts holds of counting itself: the counts of the older
/// matches and those of the newer ones, added up, are the counts of all of them.
pub proof fn lemma_counts_add_up(
    older: Seq<Match>,
    newer: Seq<Match>,
    craftable: Seq<Seq<char>>,
    x: Map<Seq<char>, CarryAgg>,
    y: Map<Seq<char>, CarryAgg>,
)
    requires
        counts_units(x, appearances(older), craftable),
        counts_units(y, appearances(newer), craftable),
        counts_fit(x, y),
    ensures
        counts_units(added(x, y), appearances(older + newer), craftable),
{
    let all = appearances(older + newer);
    let s = added(x, y);
    assert forall|id: Seq<char>| true implies #[trigger] total_in(x, id) == of_unit(
        appearances(older),
        id,
    ).len() && three_in(x, id) == complete_of_unit(appearances(older), id, craftable).len() by {
        lemma_complete_within(appearances(older), id, craftable);
        let _ = x.contains_key(id);
    }
    assert forall|id: Seq<char>| true implies #[trigger] total_in(y, id) == of_unit(
        appearances(newer),
        id,
    ).len() && three_in(y, id) == complete_of_unit(appearances(newer), id, craftable).len() by {
        lemma_complete_within(appearances(newer), id, craftable);
        let _ = y.contains_key(id);
    }
    assert forall|id: Seq<char>| #[trigger] s.contains_key(id) <==> of_unit(all, id).len() > 0 by {
        lemma_incremental_is_full(older, newer, craftable, Seq::empty(), id, Seq::empty());
        let _ = total_in(x, id);
        let _ = total_in(y, id);
        let _ = x.contains_key(id);
        let _ = y.contains_key(id);
    }
    assert forall|id: Seq<char>| #[trigger] s.contains_key(id) implies s[id].total_appearances
        == of_unit(all, id).len() && s[id].three_item_count == complete_of_unit(
        all,
        id,
        craftable,
    ).len() by {
        lemma_incremental_is_full(older, newer, craftable, Seq::empty(), id, Seq::empty());
        let _ = total_in(x, id);
        let _ = total_in(y, id);
        let _ = x.contains_key(id);
        let _ = y.contains_key(id);
    }
}

/// A unit that did not appear did not appear with three crafted items.
proof fn lemma_complete_within(apps: Seq<Appearance>, id: Seq<char>, craftable: Seq<Seq<char>>)
    ensures
        complete_of_unit(apps, id, craftable).len() <= of_unit(apps, id).len(),
    decreases apps.len(),
{
    reveal(Seq::filter);
    if apps.len() > 0 {
        lemma_complete_within(apps.drop_last(), id, craftable);
    }
}

/// The same of special items.
pub proof fn lemma_special_incremental_is_full(
    older: Seq<Match>,
    newer: Seq<Match>,
    special: Set<Seq<char>>,
    id: Seq<char>,
    item: Seq<char>,
)
    ensures
        ({
            let all = special_events(appearances(older + newer), special);
            let x = special_events(appearances(older), special);
            let y = special_events(appearances(newer), special);
            &&& times(all, id, item).len() == times(x, id, item).len() + times(y, id, item).len()
            &&& placement_total(all, id, item) == placement_total(x, id, item) + placement_total(
                y,
                id,
                item,
            )
        }),
{
    lemma_appearances_sum(older, newer);
    lemma_special_events_sum(appearances(older), appearances(newer), special);
    lemma_tally_additive(
        special_events(appearances(older), special),
        special_events(appearances(newer), special),
        id,
        item,
    );
}

/// The same items in another order are the same combo, with as many tank items.
pub proof fn lemma_combo_ignores_order(
    a: Seq<Seq<char>>,
    b: Seq<Seq<char>>,
    tank: Seq<Seq<char>>,
)
    requires
        a.to_multiset() == b.to_multiset(),
    ensures
        combo_of(a) == combo_of(b),
        tank_count(a, tank) == tank_count(b, tank),
{
    broadcast use vstd::seq_lib::group_to_multiset_ensures;

    lemma_sorted_determined::<String>(a, b);
    let x = sorted::<String>(a);
    let y = sorted::<String>(b);
    assert(x =~= y) by {
        assert forall|i: int| 0 <= i < x.len() implies x[i] == y[i] by {
            lemma_lex_total(x[i], y[i]);
        }
    }
    let keep = |i: Seq<char>| tank.contains(i);
    lemma_filter_multiset(a, keep);
    lemma_filter_multiset(b, keep);
    assert(a.filter(keep).len() == a.filter(keep).to_multiset().len());
    assert(b.filter(keep).len() == b.filter(keep).to_multiset().len());
}

/// No count gets lost when rows are stored in batches.
pub proof fn lemma_batches_complete(rows: Seq<PairRow>)
    ensures
        chunks(rows, COMBO_BATCH as nat).flatten() == rows,
        forall|i: int|
            0 <= i < chunks(rows, COMBO_BATCH as nat).len() ==> (#[trigger] chunks(
                rows,
                COMBO_BATCH as nat,
            )[i]).len() <= COMBO_BATCH,
{
    lemma_chunks_flatten(rows, COMBO_BATCH as nat);
}

/// Each unit of a board appears with the placement of the board, board after board and match
/// after match.
pub proof fn lemma_appearances(ms: Seq<Match>, m: Match, ps: Seq<Participant>, p: Participant)
    ensures
        board(p).len() == p.units@.len(),
        forall|i: int|
            #![trigger board(p)[i]]
            0 <= i < p.units@.len() ==> board(p)[i].placement == p.placement && board(p)[i].unit
                == p.units@[i]@,
        boards(Seq::empty()).len() == 0,
        boards(ps.push(p)) == boards(ps) + board(p),
        appearances(Seq::empty()).len() == 0,
        appearances(ms.push(m)) == appearances(ms) + boards(m.info.participants@),
{
    assert(ps.push(p).drop_last() =~= ps);
    assert(ms.push(m).drop_last() =~= ms);
}

/// A unit is complete with three items that can all be put together.
pub proof fn lemma_complete(u: UnitModel, craftable: Seq<Seq<char>>)
    ensures
        complete(u, craftable) <==> u.item_names.len() == 3 && craftable.contains(u.item_names[0])
            && craftable.contains(u.item_names[1]) && craftable.contains(u.item_names[2]),
{
}

/// A combination is its items in the order of strings, with commas between them.
pub proof fn lemma_combo(items: Seq<Seq<char>>)
    ensures
        exists|s: Seq<Seq<char>>|
            #![trigger s.to_multiset()]
            s.to_multiset() == items.to_multiset() && combo_of(items) == joined(s, ","@) && forall|
                i: int,
                j: int,
            |
                0 <= i < j < s.len() ==> !crate::text::lex_lt(#[trigger] s[j], #[trigger] s[i]),
{
    let s = sorted::<String>(items);
    crate::order::lemma_sorted_permutes::<String>(items);
    crate::order::lemma_sorted_in_order::<String>(items);
    assert forall|i: int, j: int| 0 <= i < j < s.len() implies !crate::text::lex_lt(
        #[trigger] s[j],
        #[trigger] s[i],
    ) by {
        assert(!<String as crate::order::Ordered>::before(s[j], s[i]));
    }
    assert(s.to_multiset() == items.to_multiset());
}

/// Each tank item counts, as often as it is held.
pub proof fn lemma_tank_items(items: Seq<Seq<char>>, x: Seq<char>, tank: Seq<Seq<char>>)
    ensures
        tank_count(Seq::empty(), tank) == 0,
        tank.contains(x) ==> tank_count(items.push(x), tank) == tank_count(items, tank) + 1,
        !tank.contains(x) ==> tank_count(items.push(x), tank) == tank_count(items, tank),
{
    let p = |i: Seq<char>| tank.contains(i);
    reveal(Seq::filter);
    assert(items.push(x).drop_last() =~= items);
}

/// A complete unit is an event: the unit, its combination, its placement and how many tank items
/// it holds. Any other is none.
pub proof fn lemma_combo_event(
    apps: Seq<Appearance>,
    x: Appearance,
    craftable: Seq<Seq<char>>,
    tank: Seq<Seq<char>>,
)
    ensures
        combo_events(Seq::empty(), craftable, tank).len() == 0,
        complete(x.unit, craftable) ==> ({
            let e = combo_events(apps.push(x), craftable, tank);
            &&& e.drop_last() == combo_events(apps, craftable, tank)
            &&& e.len() == combo_events(apps, craftable, tank).len() + 1
            &&& e.last().a == x.unit.character_id
            &&& e.last().b == combo_of(x.unit.item_names)
            &&& e.last().placement == x.placement
            &&& e.last().tag == tank_count(x.unit.item_names, tank)
        }),
        !complete(x.unit, craftable) ==> combo_events(apps.push(x), craftable, tank)
            == combo_events(apps, craftable, tank),
{
    assert(apps.push(x).drop_last() =~= apps);
    if complete(x.unit, craftable) {
        assert(combo_events(apps.push(x), craftable, tank).drop_last() =~= combo_events(
            apps,
            craftable,
            tank,
        ));
        crate::seqs::lemma_filter_elements(
            x.unit.item_names,
            |i: Seq<char>| tank.contains(i),
        );
    }
}

/// Each special item that a unit holds is an event: the unit, the item and its placement.
pub proof fn lemma_special_event(
    x: Appearance,
    items: Seq<Seq<char>>,
    i: Seq<char>,
    special: Set<Seq<char>>,
    apps: Seq<Appearance>,
)
    ensures
        held_specials(x, Seq::empty(), special).len() == 0,
        special.contains(i) ==> ({
            let e = held_specials(x, items.push(i), special);
            &&& e.len() == held_specials(x, items, special).len() + 1
            &&& e.drop_last() == held_specials(x, items, special)
            &&& e.last().a == x.unit.character_id
            &&& e.last().b == i
            &&& e.last().placement == x.placement
        }),
        !special.contains(i) ==> held_specials(x, items.push(i), special) == held_specials(
            x,
            items,
            special,
        ),
        special_events(Seq::empty(), special).len() == 0,
        special_events(apps.push(x), special) == special_events(apps, special) + held_specials(
            x,
            x.unit.item_names,
            special,
        ),
{
    assert(items.push(i).drop_last() =~= items);
    assert(apps.push(x).drop_last() =~= apps);
    if special.contains(i) {
        assert(held_specials(x, items.push(i), special).drop_last() =~= held_specials(
            x,
            items,
            special,
        ));
    }
}

/// An appearance counts once for its unit, and as a complete one where it is complete.
pub proof fn lemma_appearance_counts(
    apps: Seq<Appearance>,
    x: Appearance,
    id: Seq<char>,
    craftable: Seq<Seq<char>>,
)
    ensures
        of_unit(Seq::empty(), id).len() == 0,
        complete_of_unit(Seq::empty(), id, craftable).len() == 0,
        of_unit(apps.push(x), id).len() == of_unit(apps, id).len() + if x.unit.character_id
            == id {
            1int
        } else {
            0
        },
        complete_of_unit(apps.push(x), id, craftable).len() == complete_of_unit(
            apps,
            id,
            craftable,
        ).len() + if x.unit.character_id == id && complete(x.unit, craftable) {
            1int
        } else {
            0
        },
{
    reveal(Seq::filter);
    assert(apps.push(x).drop_last() =~= apps);
}

/// A unit carries where a fifth or more of its appearances have three items; one that never
/// appeared carries where it is said to have had three items all the same.
pub proof fn lemma_carries(agg: CarryAgg)
    ensures
        agg.total_appearances > 0 ==> (carries(agg) <==> 100 * agg.three_item_count >= 20
            * agg.total_appearances),
        agg.total_appearances == 0 ==> (carries(agg) <==> agg.three_item_count > 0),
        agg.total_appearances < 0 ==> (carries(agg) <==> 100 * agg.three_item_count <= 20
            * agg.total_appearances),
{
}

/// A carry is a tank where its favourite combination has two tank items or more.
pub proof fn lemma_tanks(m: Map<Seq<char>, PairAgg>, b: Seq<char>, is_tank: bool)
    requires
        m.contains_key(b),
        forall|c: Seq<char>| #[trigger]
            m.contains_key(c) && c != b ==> m[c].pick_count < m[b].pick_count,
    ensures
        tank_verdict(m, is_tank) <==> is_tank == (m[b].tag >= 2),
{
    assert(is_top(m, b));
    if tank_verdict(m, is_tank) && is_tank {
        let c = choose|c: Seq<char>| #[trigger] is_top(m, c) && m[c].tag >= 2;
        assert(m.contains_key(b));
    }
    if tank_verdict(m, is_tank) && !is_tank {
        let c = choose|c: Seq<char>| #[trigger] is_top(m, c) && m[c].tag < 2;
        assert(m.contains_key(b));
    }
}

/// A carry's row has its counts, whether it carries, and whether it is a tank, which takes two
/// tank items in its favourite combination.
pub proof fn lemma_carry_row(
    counts: Map<Seq<char>, CarryAgg>,
    tanks: Map<Seq<char>, i32>,
    id: Seq<char>,
)
    ensures
        ({
            let r = carry_rows(counts, tanks)[id];
            &&& carry_rows(counts, tanks).contains_key(id) <==> counts.contains_key(id)
            &&& counts.contains_key(id) ==> r.total_appearances == counts[id].total_appearances
                && r.three_item_count == counts[id].three_item_count && (
            counts[id].total_appearances > 0 ==> (r.is_carry <==> 5 * counts[id].three_item_count
                >= counts[id].total_appearances)) && (r.is_tank <==> tanks.contains_key(id)
                && tanks[id] >= 2)
        }),
{
}

/// New counts are added to those that are stored, unit by unit.
pub proof fn lemma_counts_added(
    a: Map<Seq<char>, CarryAgg>,
    b: Map<Seq<char>, CarryAgg>,
    id: Seq<char>,
)
    requires
        counts_fit(a, b),
    ensures
        added(a, b).contains_key(id) <==> a.contains_key(id) || b.contains_key(id),
        a.contains_key(id) && b.contains_key(id) ==> added(a, b)[id].total_appearances
            == a[id].total_appearances + b[id].total_appearances && added(
            a,
            b,
        )[id].three_item_count == a[id].three_item_count + b[id].three_item_count,
        a.contains_key(id) && !b.contains_key(id) ==> added(a, b)[id].total_appearances
            == a[id].total_appearances && added(a, b)[id].three_item_count
            == a[id].three_item_count,
        !a.contains_key(id) && b.contains_key(id) ==> added(a, b)[id].total_appearances
            == b[id].total_appearances && added(a, b)[id].three_item_count
            == b[id].three_item_count,
{
}

/// A category is under its item; where an item is said twice, the last holds.
pub proof fn lemma_pairs(s: Seq<(String, String)>, p: (String, String))
    ensures
        pairs_map(Seq::empty()) == Map::<Seq<char>, Seq<char>>::empty(),
        pairs_map(s.push(p)).contains_key(p.0@),
        pairs_map(s.push(p))[p.0@] == p.1@,
        forall|k: Seq<char>|
            k != p.0@ ==> (#[trigger] pairs_map(s.push(p)).contains_key(k) <==> pairs_map(
                s,
            ).contains_key(k)) && pairs_map(s.push(p))[k] == pairs_map(s)[k],
{
    assert(s.push(p).drop_last() =~= s);
}

/// A special item's row is its pair with its category and its counts.
pub proof fn lemma_special_row(
    row: SpecialRow,
    p: PairRow,
    categories: Map<Seq<char>, Seq<char>>,
)
    ensures
        special_row(row, p, categories) <==> row.carry_id@ == p.a@ && row.item_id@ == p.b@
            && row.pick_count == p.agg.pick_count && row.placement_sum == p.agg.placement_sum && (
        categories.contains_key(p.b@) ==> row.category@ == categories[p.b@]) && (
        !categories.contains_key(p.b@) ==> row.category@.len() == 0),
{
    if row.category@.len() == 0 {
        assert(row.category@ =~= seq![]);
    }
}

/// How many rows are written at once.
pub proof fn lemma_batch_sizes()
    ensures
        COMBO_BATCH == 3000,
        CARRY_BATCH == 1000,
{
}

/// A unit's row has its counts and whether it carries.
pub proof fn lemma_row_counts(row: CarryRow, agg: CarryAgg)
    requires
        row_of(row, agg),
        agg.total_appearances > 0,
    ensures
        row.total_appearances == agg.total_appearances,
        row.three_item_count == agg.three_item_count,
        row.is_carry <==> 5 * row.three_item_count >= row.total_appearances,
{
}

/// The units that are new are those of the new counts that were not there.
pub proof fn lemma_units_beside(old: Seq<Seq<char>>, new: Seq<Seq<char>>, id: Seq<char>)
    ensures
        units_beside(old, new).contains(id) <==> new.contains(id) && !old.contains(id),
{
    let p = |id: Seq<char>| !old.contains(id);
    crate::seqs::lemma_filter_elements(new, p);
    let f = new.filter(p);
    if f.contains(id) {
        let k = choose|k: int| 0 <= k < f.len() && f[k] == id;
        assert(p(f[k]) && new.contains(f[k]));
    }
    if new.contains(id) && !old.contains(id) {
        assert(p(id));
    }
}

/// The rows of the carries are one for each unit, in order, with all that is said of it.
pub proof fn lemma_rows_list_carries(
    rows: Seq<CarryRow>,
    ids: Seq<Seq<char>>,
    all: Map<Seq<char>, CarryRowModel>,
    i: int,
)
    requires
        lists_carries(rows, ids, all),
        0 <= i < ids.len(),
    ensures
        rows.len() == ids.len(),
        rows[i].carry_id@ == ids[i],
        all.contains_key(ids[i]),
        rows[i].total_appearances == all[ids[i]].total_appearances,
        rows[i].three_item_count == all[ids[i]].three_item_count,
        rows[i].is_carry == all[ids[i]].is_carry,
        rows[i].is_tank == all[ids[i]].is_tank,
{
    assert(row_ids(rows)[i] == ids[i]);
    assert(all.contains_key(rows[i].carry_id@));
}

/// The rows of the special items are one for each pair, in order.
pub proof fn lemma_rows_list_specials(
    rows: Seq<SpecialRow>,
    pairs: Seq<PairRow>,
    categories: Map<Seq<char>, Seq<char>>,
    i: int,
)
    requires
        special_rows(rows, pairs, categories),
        0 <= i < pairs.len(),
    ensures
        rows.len() == pairs.len(),
        special_row(rows[i], pairs[i], categories),
{
}

/// What was tallied of the matches: of each unit that appeared how often it did, and how often
/// complete; of each combination of each unit how often it came.
pub proof fn lemma_tallied(
    t: ComboTally,
    apps: Seq<Appearance>,
    craftable: Seq<Seq<char>>,
    tank: Seq<Seq<char>>,
    id: Seq<char>,
)
    requires
        combo_tally_of(t, apps, craftable, tank),
    ensures
        t.carries@.contains_key(id) <==> of_unit(apps, id).len() > 0,
        t.carries@.contains_key(id) ==> t.carries@[id].total_appearances == of_unit(apps, id).len()
            && t.carries@[id].three_item_count == complete_of_unit(apps, id, craftable).len(),
        t.combos.tallies(combo_events(apps, craftable, tank)),
{
}

}
