//! What the crawlers decide: whom to follow, what to fetch, what to keep.

use crate::order::{models, sorted, stable_sort, Ordered};
use crate::riot::dto::{patch_of, LeagueItem, Match};
use crate::seqs::{lemma_filter_elements, lemma_filter_step};
use crate::table::Table;
use crate::text::{
    has, parse_unsigned, pieces, split, str_eq, to_uppercase, unsigned, uppercase, views,
};
use vstd::prelude::*;

verus! {

/// Players that one cycle looks at.
pub const PLAYERS_PER_CYCLE: i64 = 200;

/// Players of a tier that are followed.
pub const MAX_PLAYERS_PER_TIER: usize = 500;

/// Seconds before the last visit from which matches are fetched again, so that a game that
/// just ended is not missed.
pub const CRAWL_MARGIN_SECS: i64 = 7200;

/// The ranked queue for one. Games of other queues would spoil the statistics.
pub const SOLO_QUEUE_ID: i32 = 1100;

/// Matches that the bulk crawler fetches.
pub const TARGET_MATCHES: usize = 3000;

/// Matches of a player that are asked for at once.
pub const MATCHES_PER_PLAYER: u32 = 100;

// ---------------------------------------------------------------- tiers

/// The tiers to follow, by how many matches there are: the fewer, the more tiers.
pub open spec fn tiers_of(match_count: i64) -> Seq<Seq<char>> {
    if match_count >= 3000 {
        seq!["challenger"@]
    } else if match_count >= 1500 {
        seq!["challenger"@, "grandmaster"@]
    } else {
        seq!["challenger"@, "grandmaster"@, "master"@]
    }
}

/// The tiers to follow, by how many matches there are.
pub fn tiers_for_sample(match_count: i64) -> (r: Vec<&'static str>)
    ensures
        r@.len() == tiers_of(match_count).len(),
        forall|i: int| 0 <= i < r@.len() ==> (#[trigger] r@[i])@ == tiers_of(match_count)[i],
{
    if match_count >= 3000 {
        vec!["challenger"]
    } else if match_count >= 1500 {
        vec!["challenger", "grandmaster"]
    } else {
        vec!["challenger", "grandmaster", "master"]
    }
}

// ---------------------------------------------------------------- patches

/// The number that the `i`-th part of a version names; 0 where it names none.
pub open spec fn version_part(parts: Seq<Seq<char>>, i: int) -> nat {
    if i < parts.len() {
        match unsigned(parts[i], u32::MAX as nat) {
            Some(n) => n,
            None => 0,
        }
    } else {
        0
    }
}

/// The first two numbers of a version.
pub open spec fn version(s: Seq<char>) -> (nat, nat) {
    let parts = pieces(s, '.');
    (version_part(parts, 0), version_part(parts, 1))
}

/// `a` is an older patch than `b`.
pub open spec fn older(a: Seq<char>, b: Seq<char>) -> bool {
    let (a1, a2) = version(a);
    let (b1, b2) = version(b);
    a1 < b1 || (a1 == b1 && a2 < b2)
}

fn part(parts: &Vec<String>, i: usize) -> (r: u64)
    ensures
        r == version_part(views(parts@), i as int),
{
    assert(views(parts@).len() == parts@.len());
    if i < parts.len() {
        assert(views(parts@)[i as int] == parts@[i as int]@);
        match parse_unsigned(parts[i].as_str(), u32::MAX as u64) {
            Some(n) => n,
            None => 0,
        }
    } else {
        0
    }
}

/// `a` is an older patch than `b`: `16.9` than `16.12`.
pub fn patch_lt(a: &str, b: &str) -> (r: bool)
    ensures
        r == older(a@, b@),
{
    let x = split(a, '.');
    let y = split(b, '.');
    let (a1, a2) = (part(&x, 0), part(&x, 1));
    let (b1, b2) = (part(&y, 0), part(&y, 1));
    a1 < b1 || (a1 == b1 && a2 < b2)
}

/// The patches whose matches are thrown away: those older than the target.
pub fn old_patches(patches: &Vec<String>, target: &str) -> (r: Vec<String>)
    ensures
        views(r@) == views(patches@).filter(|p: Seq<char>| older(p, target@)),
{
    let ghost all = views(patches@);
    let ghost keep = |p: Seq<char>| older(p, target@);
    let mut out: Vec<String> = Vec::new();
    let mut i: usize = 0;
    proof {
        reveal(Seq::filter);
        assert(views(out@) =~= all.take(0).filter(keep));
    }
    while i < patches.len()
        invariant
            i <= patches@.len(),
            all == views(patches@),
            keep == (|p: Seq<char>| older(p, target@)),
            views(out@) == all.take(i as int).filter(keep),
        decreases patches@.len() - i,
    {
        let ghost before = out@;
        proof {
            lemma_filter_step(all, i as int, keep);
        }
        if patch_lt(patches[i].as_str(), target) {
            out.push(patches[i].clone());
            assert(views(out@) =~= views(before).push(all[i as int]));
        }
        i += 1;
    }
    assert(all.take(all.len() as int) == all);
    out
}

/// Patches are ordered by age: none is older than itself, and of three the order of two pairs
/// gives that of the third.
pub proof fn lemma_older(a: Seq<char>, b: Seq<char>, c: Seq<char>)
    ensures
        !older(a, a),
        !(older(a, b) && older(b, a)),
        older(a, b) && older(b, c) ==> older(a, c),
        !older(a, b) && !older(b, c) ==> !older(a, c),
{
}

/// Neither the matches of the target nor those of a newer patch are thrown away.
pub proof fn lemma_prune_keeps(patches: Seq<Seq<char>>, target: Seq<char>, p: Seq<char>)
    requires
        p == target || older(target, p),
    ensures
        !patches.filter(|q: Seq<char>| older(q, target)).contains(p),
{
    let keep = |q: Seq<char>| older(q, target);
    let f = patches.filter(keep);
    lemma_filter_elements(patches, keep);
    if f.contains(p) {
        let i = choose|i: int| 0 <= i < f.len() && f[i] == p;
        assert(keep(f[i]));
    }
}

// ---------------------------------------------------------------- players

pub struct LeagueModel {
    pub puuid: Option<Seq<char>>,
    pub league_points: i32,
}

impl View for LeagueItem {
    type V = LeagueModel;

    open spec fn view(&self) -> LeagueModel {
        LeagueModel {
            puuid: crate::comp::opt_view(self.puuid),
            league_points: self.league_points,
        }
    }
}

impl Ordered for LeagueItem {
    /// More points stand first.
    open spec fn before(a: LeagueModel, b: LeagueModel) -> bool {
        a.league_points > b.league_points
    }

    proof fn weak_order(a: LeagueModel, b: LeagueModel, c: LeagueModel) {
    }

    fn is_before(&self, other: &LeagueItem) -> (b: bool) {
        self.league_points > other.league_points
    }
}

/// A player to follow.
#[derive(Debug)]
pub struct TrackedPlayer {
    pub puuid: String,
    pub tier: String,
    pub league_points: i32,
}

pub struct TrackedModel {
    pub puuid: Seq<char>,
    pub tier: Seq<char>,
    pub league_points: i32,
}

impl View for TrackedPlayer {
    type V = TrackedModel;

    open spec fn view(&self) -> TrackedModel {
        TrackedModel {
            puuid: self.puuid@,
            tier: self.tier@,
            league_points: self.league_points,
        }
    }
}

/// The first `n` of a row, or all there are.
pub open spec fn at_most<A>(s: Seq<A>, n: nat) -> Seq<A> {
    if s.len() <= n {
        s
    } else {
        s.take(n as int)
    }
}

/// The players of a league to follow: of those with the most points the ones that are known.
pub open spec fn tracked_of(entries: Seq<LeagueModel>, tier: Seq<char>) -> Seq<TrackedModel> {
    let top = at_most(sorted::<LeagueItem>(entries), MAX_PLAYERS_PER_TIER as nat);
    let known = top.filter(|e: LeagueModel| e.puuid is Some);
    Seq::new(
        known.len(),
        |i: int|
            TrackedModel {
                puuid: known[i].puuid->0,
                tier: uppercase(tier),
                league_points: known[i].league_points,
            },
    )
}

/// The players of a league to follow.
pub fn top_players(entries: Vec<LeagueItem>, tier: &str) -> (r: Vec<TrackedPlayer>)
    ensures
        models(r@) == tracked_of(models(entries@), tier@),
{
    let ghost all = models(entries@);
    let mut top = stable_sort(entries);
    let ghost ordered = top@;
    assert(models(ordered).len() == ordered.len());
    if top.len() > MAX_PLAYERS_PER_TIER {
        top.truncate(MAX_PLAYERS_PER_TIER);
        assert(models(top@) =~= models(ordered).take(MAX_PLAYERS_PER_TIER as int));
    }
    let ghost s = models(top@);
    let ghost keep = |e: LeagueModel| e.puuid is Some;
    let upper = to_uppercase(tier);
    let mut out: Vec<TrackedPlayer> = Vec::new();
    let mut i: usize = 0;
    proof {
        reveal(Seq::filter);
    }
    while i < top.len()
        invariant
            i <= top@.len(),
            s == models(top@),
            keep == (|e: LeagueModel| e.puuid is Some),
            upper@ == uppercase(tier@),
            out@.len() == s.take(i as int).filter(keep).len(),
            forall|k: int|
                0 <= k < out@.len() ==> (#[trigger] out@[k])@ == (TrackedModel {
                    puuid: s.take(i as int).filter(keep)[k].puuid->0,
                    tier: uppercase(tier@),
                    league_points: s.take(i as int).filter(keep)[k].league_points,
                }),
        decreases top@.len() - i,
    {
        proof {
            lemma_filter_step(s, i as int, keep);
            assert(s[i as int] == top@[i as int]@);
        }
        match &top[i].puuid {
            Some(p) => {
                out.push(
                    TrackedPlayer {
                        puuid: p.clone(),
                        tier: upper.clone(),
                        league_points: top[i].league_points,
                    },
                );
            },
            None => {},
        }
        i += 1;
    }
    assert(s.take(s.len() as int) == s);
    assert(models(out@) =~= tracked_of(all, tier@));
    out
}

/// `known` with the players of `s` that are not there yet, up to `left` of them.
pub open spec fn gathered(
    known: Seq<Seq<char>>,
    s: Seq<LeagueModel>,
    left: nat,
) -> Seq<Seq<char>>
    decreases s.len(),
{
    if left == 0 || s.len() == 0 {
        known
    } else {
        match s[0].puuid {
            Some(p) => if known.contains(p) {
                gathered(known, s.drop_first(), left)
            } else {
                gathered(known.push(p), s.drop_first(), (left - 1) as nat)
            },
            None => gathered(known, s.drop_first(), left),
        }
    }
}

/// The players so far with those of one more league that are new, the ones with the most
/// points first, up to the number that is followed of a tier.
pub fn gather_players(known: Vec<String>, entries: Vec<LeagueItem>) -> (r: Vec<String>)
    ensures
        views(r@) == gathered(
            views(known@),
            sorted::<LeagueItem>(models(entries@)),
            MAX_PLAYERS_PER_TIER as nat,
        ),
{
    let entries = stable_sort(entries);
    let ghost s = models(entries@);
    let mut out = known;
    let mut added: usize = 0;
    let mut i: usize = 0;
    let ghost goal = gathered(views(known@), s, MAX_PLAYERS_PER_TIER as nat);
    assert(s.skip(0) == s);
    while i < entries.len() && added < MAX_PLAYERS_PER_TIER
        invariant
            i <= entries@.len(),
            added <= MAX_PLAYERS_PER_TIER,
            s == models(entries@),
            gathered(views(out@), s.skip(i as int), (MAX_PLAYERS_PER_TIER - added) as nat) == goal,
        decreases entries@.len() - i,
    {
        proof {
            assert(s.skip(i as int)[0] == entries@[i as int]@);
            assert(s.skip(i as int).drop_first() == s.skip(i + 1));
        }
        match &entries[i].puuid {
            Some(p) => {
                let there = has(&out, p.as_str());
                if !there {
                    let ghost before = out@;
                    out.push(p.clone());
                    assert(views(out@) =~= views(before).push(p@));
                    added += 1;
                }
            },
            None => {},
        }
        i += 1;
    }
    out
}

/// No player is gathered twice, and none that was there is lost.
pub proof fn lemma_gathered(known: Seq<Seq<char>>, s: Seq<LeagueModel>, left: nat)
    requires
        known.no_duplicates(),
    ensures
        gathered(known, s, left).no_duplicates(),
        known.len() <= gathered(known, s, left).len() <= known.len() + left,
        forall|i: int| 0 <= i < known.len() ==> #[trigger] gathered(known, s, left)[i] == known[i],
    decreases s.len(),
{
    if left > 0 && s.len() > 0 {
        match s[0].puuid {
            Some(p) => if known.contains(p) {
                lemma_gathered(known, s.drop_first(), left);
            } else {
                let next = known.push(p);
                assert(next.no_duplicates());
                lemma_gathered(next, s.drop_first(), (left - 1) as nat);
                assert forall|i: int| 0 <= i < known.len() implies #[trigger] gathered(
                    known,
                    s,
                    left,
                )[i] == known[i] by {
                    assert(gathered(next, s.drop_first(), (left - 1) as nat)[i] == next[i]);
                }
            },
            None => lemma_gathered(known, s.drop_first(), left),
        }
    }
}

// ---------------------------------------------------------------- matches

/// From when on the matches of a player are fetched: a little before the last visit; from the
/// start of the patch where there was none.
pub fn start_time(last_crawled: Option<i64>, patch_start: Option<i64>) -> (r: Option<i64>)
    requires
        last_crawled matches Some(t) ==> t >= i64::MIN + CRAWL_MARGIN_SECS,
    ensures
        r == match last_crawled {
            Some(t) => Some((t - CRAWL_MARGIN_SECS) as i64),
            None => patch_start,
        },
{
    match last_crawled {
        Some(t) => Some(t - CRAWL_MARGIN_SECS),
        None => patch_start,
    }
}

/// The matches that are neither stored nor were seen in this run.
pub open spec fn new_of(
    ids: Seq<Seq<char>>,
    already: Seq<Seq<char>>,
    seen: Map<Seq<char>, bool>,
) -> Seq<Seq<char>> {
    ids.filter(|id: Seq<char>| !already.contains(id) && !seen.contains_key(id))
}

/// The matches that are neither stored nor were seen in this run: only these are fetched.
pub fn new_ids(match_ids: &Vec<String>, already: &Vec<String>, seen: &Table<bool>) -> (r: Vec<
    String,
>)
    ensures
        views(r@) == new_of(views(match_ids@), views(already@), seen@),
{
    let ghost all = views(match_ids@);
    let ghost keep = |id: Seq<char>| !views(already@).contains(id) && !seen@.contains_key(id);
    let mut out: Vec<String> = Vec::new();
    let mut i: usize = 0;
    proof {
        reveal(Seq::filter);
        assert(views(out@) =~= all.take(0).filter(keep));
    }
    while i < match_ids.len()
        invariant
            i <= match_ids@.len(),
            all == views(match_ids@),
            keep == (|id: Seq<char>|
                !views(already@).contains(id) && !seen@.contains_key(id)),
            views(out@) == all.take(i as int).filter(keep),
        decreases match_ids@.len() - i,
    {
        let ghost before = out@;
        proof {
            lemma_filter_step(all, i as int, keep);
        }
        let stored = has(already, match_ids[i].as_str());
        if !stored && !seen.contains_key(match_ids[i].as_str()) {
            out.push(match_ids[i].clone());
            assert(views(out@) =~= views(before).push(all[i as int]));
        }
        i += 1;
    }
    assert(all.take(all.len() as int) == all);
    out
}

/// What becomes of a fetched match.
#[derive(Debug, Clone, Copy, PartialEq, Eq, Structural)]
pub enum Verdict {
    /// Not a ranked game for one.
    OtherQueue,
    /// Of a patch that is over.
    OldPatch,
    Store,
}

/// What becomes of a match. Games of a newer patch than the target are stored: otherwise the
/// new patch could never gather enough of them to become the target.
pub open spec fn verdict_of(queue_id: i32, patch: Seq<char>, target: Option<Seq<char>>) -> Verdict {
    if queue_id != SOLO_QUEUE_ID {
        Verdict::OtherQueue
    } else if target is Some && older(patch, target->0) {
        Verdict::OldPatch
    } else {
        Verdict::Store
    }
}

/// What becomes of a fetched match.
pub fn judge(m: &Match, target_patch: &Option<String>) -> (r: Verdict)
    ensures
        r == verdict_of(
            m.info.queue_id,
            patch_of(m.info.game_version@),
            crate::comp::opt_view(*target_patch),
        ),
{
    if m.info.queue_id != SOLO_QUEUE_ID {
        return Verdict::OtherQueue;
    }
    match target_patch {
        Some(tp) => {
            let patch = m.info.patch();
            if patch_lt(patch.as_str(), tp.as_str()) {
                return Verdict::OldPatch;
            }
        },
        None => {},
    }
    Verdict::Store
}

/// Whether the bulk crawler keeps a match: only those of the target, where there is one.
pub fn backfill_keeps(m: &Match, target_patch: &Option<String>) -> (r: bool)
    ensures
        r == (match crate::comp::opt_view(*target_patch) {
            Some(tp) => patch_of(m.info.game_version@) == tp,
            None => true,
        }),
{
    match target_patch {
        Some(tp) => {
            let patch = m.info.patch();
            str_eq(patch.as_str(), tp.as_str())
        },
        None => true,
    }
}

/// Whether the bulk crawler has enough.
pub fn backfill_done(total: usize) -> (r: bool)
    ensures
        r == (total >= TARGET_MATCHES),
{
    total >= TARGET_MATCHES
}

/// The matches that were seen in this run, once those of `ids` were seen too.
pub open spec fn seen_after(seen: Map<Seq<char>, bool>, ids: Seq<Seq<char>>) -> Map<
    Seq<char>,
    bool,
> {
    Map::new(
        |id: Seq<char>| seen.contains_key(id) || ids.contains(id),
        |id: Seq<char>| ids.contains(id) || seen[id],
    )
}

/// Notes that matches were seen in this run.
pub fn mark_seen(seen: Table<bool>, ids: &Vec<String>) -> (r: Table<bool>)
    ensures
        r@ == seen_after(seen@, views(ids@)),
{
    let ghost all = views(ids@);
    let ghost before = seen@;
    let mut out = seen;
    let mut i: usize = 0;
    assert(out@ =~= seen_after(before, all.take(0)));
    while i < ids.len()
        invariant
            i <= ids@.len(),
            all == views(ids@),
            out@ == seen_after(before, all.take(i as int)),
        decreases ids@.len() - i,
    {
        let ghost done = all.take(i as int);
        let ghost so_far = out@;
        out = out.insert(ids[i].clone(), true);
        proof {
            let x = all[i as int];
            lemma_seen_adds_up(before, done, seq![x]);
            assert(all.take(i + 1) =~= done + seq![x]);
            assert(seq![x][0] == x);
            assert(out@ =~= seen_after(so_far, seq![x]));
        }
        i += 1;
    }
    assert(all.take(all.len() as int) == all);
    out
}

/// What happened to a new match.
#[derive(Debug, Clone, Copy, PartialEq, Eq, Structural)]
pub enum CrawlEvent {
    /// It could not be fetched.
    FetchFailed,
    /// It was fetched and not to be stored.
    Rejected(Verdict),
    /// It was stored.
    Stored,
    /// It had been stored meanwhile.
    AlreadyStored,
}

/// What happened to a match that was fetched and judged. `added` counts only where it was to be
/// stored: whether it was new to the database.
pub fn event_of(verdict: Verdict, added: bool) -> (r: CrawlEvent)
    ensures
        r == match verdict {
            Verdict::Store => if added {
                CrawlEvent::Stored
            } else {
                CrawlEvent::AlreadyStored
            },
            v => CrawlEvent::Rejected(v),
        },
{
    match verdict {
        Verdict::Store => {
            if added {
                CrawlEvent::Stored
            } else {
                CrawlEvent::AlreadyStored
            }
        },
        v => CrawlEvent::Rejected(v),
    }
}

/// What came of the matches of a player.
#[derive(Debug, Clone, Copy, PartialEq, Eq, Structural)]
pub struct CrawlStats {
    pub saved: usize,
    pub skipped_queue: usize,
}

impl CrawlStats {
    /// Nothing happened yet.
    pub fn new() -> (r: CrawlStats)
        ensures
            r.saved == 0,
            r.skipped_queue == 0,
    {
        CrawlStats { saved: 0, skipped_queue: 0 }
    }

    /// The count with one more event.
    pub fn after(self, event: CrawlEvent) -> (r: CrawlStats)
        requires
            self.saved < usize::MAX,
            self.skipped_queue < usize::MAX,
        ensures
            r.saved == self.saved + if event == CrawlEvent::Stored {
                1int
            } else {
                0
            },
            r.skipped_queue == self.skipped_queue + if event == CrawlEvent::Rejected(
                Verdict::OtherQueue,
            ) {
                1int
            } else {
                0
            },
    {
        match event {
            CrawlEvent::Stored => CrawlStats { saved: self.saved + 1, ..self },
            CrawlEvent::Rejected(Verdict::OtherQueue) => CrawlStats {
                skipped_queue: self.skipped_queue + 1,
                ..self
            },
            _ => self,
        }
    }
}

/// What came of all players of a cycle.
#[derive(Debug, Clone, Copy, PartialEq, Eq, Structural)]
pub struct CycleStats {
    pub total_new: usize,
    pub total_skipped_queue: usize,
}

impl CycleStats {
    /// The count with one more player, and whether the player's visit is noted. A visit that
    /// failed is not: the next cycle fetches the same matches again.
    pub fn after(self, player: Option<CrawlStats>) -> (r: (CycleStats, bool))
        requires
            player matches Some(s) ==> self.total_new + s.saved <= usize::MAX
                && self.total_skipped_queue + s.skipped_queue <= usize::MAX,
        ensures
            match player {
                Some(s) => r.1 && r.0.total_new == self.total_new + s.saved
                    && r.0.total_skipped_queue == self.total_skipped_queue + s.skipped_queue,
                None => !r.1 && r.0 == self,
            },
    {
        match player {
            Some(s) => (
                CycleStats {
                    total_new: self.total_new + s.saved,
                    total_skipped_queue: self.total_skipped_queue + s.skipped_queue,
                },
                true,
            ),
            None => (self, false),
        }
    }
}

/// A match that is stored already, or was seen in this run, is not fetched again; every other
/// one is.
pub proof fn lemma_new_ids(
    ids: Seq<Seq<char>>,
    already: Seq<Seq<char>>,
    seen: Map<Seq<char>, bool>,
    id: Seq<char>,
)
    ensures
        new_of(ids, already, seen).contains(id) <==> ids.contains(id) && !already.contains(id)
            && !seen.contains_key(id),
{
    let keep = |x: Seq<char>| !already.contains(x) && !seen.contains_key(x);
    let f = new_of(ids, already, seen);
    lemma_filter_elements(ids, keep);
    if f.contains(id) {
        let i = choose|i: int| 0 <= i < f.len() && f[i] == id;
        assert(keep(f[i]) && ids.contains(f[i]));
    }
    if ids.contains(id) && keep(id) {
        assert(f.contains(id));
    }
}

/// Noting matches in two goes is noting them in one.
pub proof fn lemma_seen_adds_up(
    seen: Map<Seq<char>, bool>,
    a: Seq<Seq<char>>,
    b: Seq<Seq<char>>,
)
    ensures
        seen_after(seen_after(seen, a), b) == seen_after(seen, a + b),
{
    assert forall|id: Seq<char>| (a + b).contains(id) <==> a.contains(id) || b.contains(id) by {
        if a.contains(id) {
            let i = choose|i: int| 0 <= i < a.len() && a[i] == id;
            assert((a + b)[i] == id);
        }
        if b.contains(id) {
            let i = choose|i: int| 0 <= i < b.len() && b[i] == id;
            assert((a + b)[a.len() + i] == id);
        }
    }
    assert(seen_after(seen_after(seen, a), b) =~= seen_after(seen, a + b));
}

/// After the new matches of a player were noted, the matches that were seen are those of before
/// and the new ones, and none of the player's matches is new any more.
pub proof fn lemma_seen_once(
    ids: Seq<Seq<char>>,
    already: Seq<Seq<char>>,
    seen: Map<Seq<char>, bool>,
)
    ensures
        seen_after(seen, new_of(ids, already, seen)).dom() == seen.dom().union(
            new_of(ids, already, seen).to_set(),
        ),
        new_of(ids, already, seen_after(seen, new_of(ids, already, seen))) == Seq::<
            Seq<char>,
        >::empty(),
{
    let fresh = new_of(ids, already, seen);
    let after = seen_after(seen, fresh);
    assert(after.dom() =~= seen.dom().union(fresh.to_set()));
    let rest = new_of(ids, already, after);
    if rest.len() > 0 {
        let id = rest[0];
        assert(rest.contains(id));
        lemma_new_ids(ids, already, after, id);
        lemma_new_ids(ids, already, seen, id);
    }
}

/// A ranked game for one is stored where its patch is the target or a newer one.
pub proof fn lemma_newer_is_stored(patch: Seq<char>, target: Seq<char>)
    requires
        patch == target || older(target, patch),
    ensures
        verdict_of(SOLO_QUEUE_ID, patch, Some(target)) == Verdict::Store,
{
}

/// Challengers are always asked for, grandmasters until there are three thousand matches, and
/// masters until there are fifteen hundred.
pub proof fn lemma_tiers(match_count: i64)
    ensures
        tiers_of(match_count)[0] == "challenger"@,
        tiers_of(match_count).len() >= 1,
        tiers_of(match_count).len() >= 2 <==> match_count < 3000,
        tiers_of(match_count).len() >= 2 ==> tiers_of(match_count)[1] == "grandmaster"@,
        tiers_of(match_count).len() >= 3 <==> match_count < 1500,
        tiers_of(match_count).len() >= 3 ==> tiers_of(match_count)[2] == "master"@,
        tiers_of(match_count).len() <= 3,
{
}

/// Patches are compared by their numbers, the first before the second.
pub proof fn lemma_older_by_numbers(a1: u32, a2: u32, b1: u32, b2: u32)
    ensures
        older(
            crate::text::decimal(a1 as nat) + seq!['.'] + crate::text::decimal(a2 as nat),
            crate::text::decimal(b1 as nat) + seq!['.'] + crate::text::decimal(b2 as nat),
        ) <==> a1 < b1 || (a1 == b1 && a2 < b2),
{
    lemma_version_numbers(a1, a2);
    lemma_version_numbers(b1, b2);
}

proof fn lemma_version_numbers(n: u32, m: u32)
    ensures
        version(crate::text::decimal(n as nat) + seq!['.'] + crate::text::decimal(m as nat)) == (
            n as nat,
            m as nat,
        ),
{
    let x = crate::text::decimal(n as nat);
    let y = crate::text::decimal(m as nat);
    let parts = seq![x, y];
    crate::text::lemma_written(n as nat);
    crate::text::lemma_written(m as nat);
    crate::text::lemma_reads_what_is_written(n as nat, u32::MAX as nat);
    crate::text::lemma_reads_what_is_written(m as nat, u32::MAX as nat);
    if x.contains('.') {
        let i = choose|i: int| 0 <= i < x.len() && x[i] == '.';
        assert(crate::text::is_digit(x[i]));
    }
    if y.contains('.') {
        let i = choose|i: int| 0 <= i < y.len() && y[i] == '.';
        assert(crate::text::is_digit(y[i]));
    }
    crate::text::lemma_joined(x, seq![y], seq!['.']);
    crate::text::lemma_joined(y, Seq::empty(), seq!['.']);
    assert(parts =~= seq![x] + seq![y]);
    crate::text::lemma_joined_comes_apart(parts, '.');
}

/// The players followed of a tier are the first five hundred by points, as far as they are known:
/// the most points first, all under the tier's name in capitals.
pub proof fn lemma_tracked(entries: Seq<LeagueModel>, tier: Seq<char>)
    ensures
        ({
            let t = tracked_of(entries, tier);
            &&& t.len() <= 500
            &&& forall|i: int|
                #![trigger t[i]]
                0 <= i < t.len() ==> t[i].tier == uppercase(tier) && entries.contains(
                    LeagueModel {
                        puuid: Some(t[i].puuid),
                        league_points: t[i].league_points,
                    },
                )
            &&& forall|i: int, j: int|
                #![trigger t[i], t[j]]
                0 <= i < j < t.len() ==> t[i].league_points >= t[j].league_points
            &&& forall|e: LeagueModel, i: int|
                #![trigger entries.contains(e), t[i]]
                entries.contains(e) && e.puuid is Some && 0 <= i < t.len()
                    && t[i].league_points < e.league_points ==> t.contains(
                    TrackedModel {
                        puuid: e.puuid->0,
                        tier: uppercase(tier),
                        league_points: e.league_points,
                    },
                )
            &&& entries.len() <= 500 ==> forall|e: LeagueModel| #[trigger]
                entries.contains(e) && e.puuid is Some ==> t.contains(
                    TrackedModel {
                        puuid: e.puuid->0,
                        tier: uppercase(tier),
                        league_points: e.league_points,
                    },
                )
        }),
{
    broadcast use vstd::seq_lib::group_to_multiset_ensures;

    let s = sorted::<LeagueItem>(entries);
    let top = at_most(s, MAX_PLAYERS_PER_TIER as nat);
    let p = |e: LeagueModel| e.puuid is Some;
    let known = top.filter(p);
    let t = tracked_of(entries, tier);
    crate::order::lemma_sorted_permutes::<LeagueItem>(entries);
    crate::order::lemma_sorted_in_order::<LeagueItem>(entries);
    assert(s.len() == s.to_multiset().len() && entries.len() == entries.to_multiset().len());
    lemma_filter_elements(top, p);
    lemma_filter_keeps_order(top, p);
    assert forall|i: int| #![trigger t[i]] 0 <= i < t.len() implies t[i].tier == uppercase(tier)
        && entries.contains(
        LeagueModel { puuid: Some(t[i].puuid), league_points: t[i].league_points },
    ) by {
        let e = known[i];
        assert(p(e) && top.contains(e));
        let k = choose|k: int| 0 <= k < top.len() && top[k] == e;
        assert(s[k] == e);
        assert(s.to_multiset().count(e) > 0);
        assert(entries.contains(e));
        assert(e == LeagueModel { puuid: Some(t[i].puuid), league_points: t[i].league_points });
    }
    assert forall|i: int, j: int| #![trigger t[i], t[j]] 0 <= i < j < t.len() implies t[i].league_points
        >= t[j].league_points by {
        assert(known[i].league_points >= known[j].league_points);
    }
    assert forall|e: LeagueModel, i: int|
        #![trigger entries.contains(e), t[i]]
        entries.contains(e) && e.puuid is Some && 0 <= i < t.len() && t[i].league_points
            < e.league_points implies t.contains(
        TrackedModel {
            puuid: e.puuid->0,
            tier: uppercase(tier),
            league_points: e.league_points,
        },
    ) by {
        assert(entries.to_multiset().count(e) > 0);
        assert(s.contains(e));
        let k = choose|k: int| 0 <= k < s.len() && s[k] == e;
        assert(p(known[i]) && top.contains(known[i]));
        let m = choose|m: int| 0 <= m < top.len() && top[m] == known[i];
        assert(s[m] == known[i]);
        if k > m {
            assert(!<LeagueItem as Ordered>::before(s[k], s[m]));
        }
        assert(top[k] == e);
        lemma_tracked_one(entries, tier, e);
    }
    if entries.len() <= 500 {
        assert forall|e: LeagueModel| #[trigger]
            entries.contains(e) && e.puuid is Some implies t.contains(
            TrackedModel {
                puuid: e.puuid->0,
                tier: uppercase(tier),
                league_points: e.league_points,
            },
        ) by {
            assert(entries.to_multiset().count(e) > 0);
            assert(s.contains(e));
            assert(top == s);
            lemma_tracked_one(entries, tier, e);
        }
    }
}

proof fn lemma_tracked_one(entries: Seq<LeagueModel>, tier: Seq<char>, e: LeagueModel)
    requires
        e.puuid is Some,
        at_most(sorted::<LeagueItem>(entries), MAX_PLAYERS_PER_TIER as nat).contains(e),
    ensures
        tracked_of(entries, tier).contains(
            TrackedModel {
                puuid: e.puuid->0,
                tier: uppercase(tier),
                league_points: e.league_points,
            },
        ),
{
    let top = at_most(sorted::<LeagueItem>(entries), MAX_PLAYERS_PER_TIER as nat);
    let p = |e: LeagueModel| e.puuid is Some;
    lemma_filter_elements(top, p);
    let known = top.filter(p);
    assert(p(e) && top.contains(e));
    assert(known.contains(e));
    let k = choose|k: int| 0 <= k < known.len() && known[k] == e;
    assert(tracked_of(entries, tier)[k] == TrackedModel {
        puuid: e.puuid->0,
        tier: uppercase(tier),
        league_points: e.league_points,
    });
}

proof fn lemma_filter_keeps_order(s: Seq<LeagueModel>, p: spec_fn(LeagueModel) -> bool)
    requires
        forall|i: int, j: int|
            #![trigger s[i], s[j]]
            0 <= i < j < s.len() ==> s[i].league_points >= s[j].league_points,
    ensures
        forall|i: int, j: int|
            #![trigger s.filter(p)[i], s.filter(p)[j]]
            0 <= i < j < s.filter(p).len() ==> s.filter(p)[i].league_points >= s.filter(
                p,
            )[j].league_points,
    decreases s.len(),
{
    reveal(Seq::filter);
    if s.len() > 0 {
        let t = s.drop_last();
        lemma_filter_keeps_order(t, p);
        lemma_filter_elements(t, p);
        let f = t.filter(p);
        assert forall|i: int| 0 <= i < f.len() implies (#[trigger] f[i]).league_points
            >= s.last().league_points by {
            assert(t.contains(f[i]));
            let k = choose|k: int| 0 <= k < t.len() && t[k] == f[i];
            assert(s[k] == f[i]);
            assert(s[s.len() - 1] == s.last());
        }
    }
}

/// A match is stored where it is of the ranked queue and no older than the patch asked for.
pub proof fn lemma_verdicts(queue_id: i32, patch: Seq<char>, target: Option<Seq<char>>)
    ensures
        verdict_of(queue_id, patch, target) == Verdict::OtherQueue <==> queue_id != 1100,
        verdict_of(queue_id, patch, target) == Verdict::OldPatch <==> queue_id == 1100 && target
            is Some && older(patch, target->0),
        verdict_of(queue_id, patch, target) == Verdict::Store <==> queue_id == 1100 && (target
            is Some ==> !older(patch, target->0)),
{
}

/// The sizes that crawling keeps to.
pub proof fn lemma_crawl_limits()
    ensures
        PLAYERS_PER_CYCLE == 200,
        MAX_PLAYERS_PER_TIER == 500,
        CRAWL_MARGIN_SECS == 2 * 60 * 60,
        TARGET_MATCHES == 3000,
        MATCHES_PER_PLAYER == 100,
{
}

/// One more player is gathered last, where there is room, the player is known by an id, and is
/// not there yet; nobody else is.
pub proof fn lemma_one_more_player(
    known: Seq<Seq<char>>,
    s: Seq<LeagueModel>,
    e: LeagueModel,
    left: nat,
)
    ensures
        gathered(known, Seq::empty(), left) == known,
        ({
            let r = gathered(known, s, left);
            let fresh = e.puuid is Some && !r.contains(e.puuid->0);
            &&& fresh && r.len() < known.len() + left ==> gathered(known, s.push(e), left)
                == r.push(e.puuid->0)
            &&& !fresh || r.len() >= known.len() + left ==> gathered(known, s.push(e), left) == r
        }),
    decreases s.len(),
{
    let t = s.push(e);
    reveal_with_fuel(gathered, 2);
    if s.len() == 0 {
        assert(t.drop_first() =~= Seq::<LeagueModel>::empty());
    } else if left > 0 {
        assert(t.drop_first() =~= s.drop_first().push(e));
        match s[0].puuid {
            Some(p) => if known.contains(p) {
                lemma_one_more_player(known, s.drop_first(), e, left);
            } else {
                lemma_one_more_player(known.push(p), s.drop_first(), e, (left - 1) as nat);
            },
            None => lemma_one_more_player(known, s.drop_first(), e, left),
        }
    } else {
        assert(gathered(known, t, 0) == known);
    }
}

/// Players are what their fields say.
pub proof fn lemma_players_as_stored(e: LeagueItem, t: TrackedPlayer)
    ensures
        e@.puuid is Some <==> e.puuid is Some,
        e.puuid is Some ==> e@.puuid->0 == e.puuid->0@,
        e@.league_points == e.league_points,
        t@.puuid == t.puuid@,
        t@.tier == t.tier@,
        t@.league_points == t.league_points,
{
}

/// A part of a patch that is missing or no number counts as zero.
pub proof fn lemma_version_without_numbers(s: Seq<char>)
    ensures
        unsigned(pieces(s, '.')[0], u32::MAX as nat) is None ==> version(s).0 == 0,
        pieces(s, '.').len() < 2 ==> version(s).1 == 0,
        pieces(s, '.').len() >= 2 && unsigned(pieces(s, '.')[1], u32::MAX as nat) is None
            ==> version(s).1 == 0,
{
    crate::text::lemma_pieces_make_the_text(s, '.');
}

}
