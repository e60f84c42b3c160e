//! The values that the Riot TFT API returns. Whatever is not here, the API does not give.

use crate::text::{all_digits, chars_of, is_digit, string_of, views};
use vstd::prelude::*;
use vstd::string::*;

verus! {

/// One league: `GET /tft/league/v1/{tier}`.
#[derive(Debug)]
pub struct LeagueList {
    pub tier: String,
    pub name: String,
    pub entries: Vec<LeagueItem>,
}

/// A player of a league.
#[derive(Debug)]
pub struct LeagueItem {
    pub puuid: Option<String>,
    pub summoner_id: Option<String>,
    pub league_points: i32,
    pub rank: String,
    pub wins: i32,
    pub losses: i32,
}

/// One match: `GET /tft/match/v1/matches/{matchId}`.
#[derive(Debug)]
pub struct Match {
    pub metadata: Metadata,
    pub info: Info,
}

#[derive(Debug)]
pub struct Metadata {
    pub match_id: String,
    /// The puuids of the players.
    pub participants: Vec<String>,
}

#[derive(Debug)]
pub struct Info {
    /// Milliseconds since the epoch.
    pub game_datetime: i64,
    /// For example `Version 14.1.x`.
    pub game_version: String,
    pub tft_set_number: i32,
    /// `standard`, `turbo` (double up) and so on.
    pub tft_game_type: String,
    pub queue_id: i32,
    pub participants: Vec<Participant>,
}

/// How a player's match ended. What happened during the match is not in it.
#[derive(Debug)]
pub struct Participant {
    pub puuid: String,
    pub placement: i32,
    pub level: i32,
    pub last_round: i32,
    pub gold_left: i32,
    pub players_eliminated: i32,
    /// Seconds, by the IEEE-754 bits of the number.
    pub time_eliminated: u64,
    pub total_damage_to_players: i32,
    pub augments: Vec<String>,
    pub traits: Vec<Trait>,
    pub units: Vec<Unit>,
}

#[derive(Debug)]
pub struct Trait {
    /// An id such as `TFT17_SpaceGod`.
    pub name: String,
    pub num_units: i32,
    /// Grade of the active trait; 0 where it is not active.
    pub style: i32,
    pub tier_current: i32,
    pub tier_total: i32,
}

#[derive(Debug)]
pub struct Unit {
    /// An id such as `TFT17_Aphelios`.
    pub character_id: String,
    /// The ids of the items that the unit holds.
    pub item_names: Vec<String>,
    /// 0 to 6; the cost follows from it.
    pub rarity: i32,
    /// Stars, 1 to 3.
    pub tier: i32,
}

/// What a trait of a board is.
pub struct TraitModel {
    pub name: Seq<char>,
    pub num_units: i32,
    pub style: i32,
    pub tier_current: i32,
    pub tier_total: i32,
}

/// What a unit of a board is.
pub struct UnitModel {
    pub character_id: Seq<char>,
    pub item_names: Seq<Seq<char>>,
    pub rarity: i32,
    pub tier: i32,
}

impl View for Trait {
    type V = TraitModel;

    open spec fn view(&self) -> TraitModel {
        TraitModel {
            name: self.name@,
            num_units: self.num_units,
            style: self.style,
            tier_current: self.tier_current,
            tier_total: self.tier_total,
        }
    }
}

impl View for Unit {
    type V = UnitModel;

    open spec fn view(&self) -> UnitModel {
        UnitModel {
            character_id: self.character_id@,
            item_names: views(self.item_names@),
            rarity: self.rarity,
            tier: self.tier,
        }
    }
}

impl Trait {
    pub fn copy(&self) -> (r: Trait)
        ensures
            r@ == self@,
    {
        Trait {
            name: self.name.clone(),
            num_units: self.num_units,
            style: self.style,
            tier_current: self.tier_current,
            tier_total: self.tier_total,
        }
    }
}

/// A copy of a list of strings.
pub fn copy_strings(v: &Vec<String>) -> (r: Vec<String>)
    ensures
        r@ == v@,
{
    let mut out: Vec<String> = Vec::new();
    let mut i: usize = 0;
    while i < v.len()
        invariant
            i <= v@.len(),
            out@ == v@.take(i as int),
        decreases v@.len() - i,
    {
        out.push(v[i].clone());
        assert(v@.take(i + 1) == v@.take(i as int).push(v@[i as int]));
        i += 1;
    }
    assert(v@.take(v@.len() as int) == v@);
    out
}

impl Unit {
    pub fn copy(&self) -> (r: Unit)
        ensures
            r@ == self@,
    {
        Unit {
            character_id: self.character_id.clone(),
            item_names: copy_strings(&self.item_names),
            rarity: self.rarity,
            tier: self.tier,
        }
    }
}

// ---------------------------------------------------------------- patch

/// How many digits `s` begins with.
pub open spec fn digits_len(s: Seq<char>) -> nat
    decreases s.len(),
{
    if s.len() == 0 || !is_digit(s[0]) {
        0
    } else {
        1 + digits_len(s.drop_first())
    }
}

/// How long the number, dot and number are that `s` begins with; 0 where it begins otherwise.
pub open spec fn pair_len(s: Seq<char>) -> nat {
    let n = digits_len(s) as int;
    if 0 < n < s.len() && s[n] == '.' && digits_len(s.skip(n + 1)) > 0 {
        (n + 1 + digits_len(s.skip(n + 1))) as nat
    } else {
        0
    }
}

/// The first place in `s` where a number, a dot and a number stand, and these.
pub open spec fn version_pair(s: Seq<char>) -> Option<Seq<char>>
    decreases s.len(),
{
    if pair_len(s) > 0 {
        Some(s.take(pair_len(s) as int))
    } else if s.len() > 0 {
        version_pair(s.drop_first())
    } else {
        None
    }
}

/// The patch that a version string names: the first two numbers in it with a dot between
/// them; the string itself where it has no such numbers.
pub open spec fn patch_of(version: Seq<char>) -> Seq<char> {
    match version_pair(version) {
        Some(p) => p,
        None => version,
    }
}

proof fn lemma_digits_len(s: Seq<char>)
    ensures
        digits_len(s) <= s.len(),
        forall|i: int| 0 <= i < digits_len(s) ==> is_digit(#[trigger] s[i]),
        digits_len(s) < s.len() ==> !is_digit(s[digits_len(s) as int]),
    decreases s.len(),
{
    if s.len() > 0 && is_digit(s[0]) {
        lemma_digits_len(s.drop_first());
        assert forall|i: int| 0 <= i < digits_len(s) implies is_digit(#[trigger] s[i]) by {
            if i > 0 {
                assert(s.drop_first()[i - 1] == s[i]);
            }
        }
    }
}

/// Where a row of digits begins no pair, there is none before its end.
proof fn lemma_behind_digits(s: Seq<char>)
    requires
        pair_len(s) == 0,
    ensures
        digits_len(s) <= s.len(),
        version_pair(s) == version_pair(s.skip(digits_len(s) as int)),
    decreases s.len(),
{
    lemma_digits_len(s);
    let n = digits_len(s) as int;
    if n == 0 {
        assert(s.skip(0) == s);
    } else {
        let t = s.drop_first();
        assert(t.skip(n - 1) == s.skip(n));
        if n > 1 && n < s.len() {
            assert(t[n - 1] == s[n]);
            assert(t.skip(n) == s.skip(n + 1));
        }
        assert(pair_len(t) == 0);
        lemma_behind_digits(t);
    }
}

/// Where the digits end that stand in `v` from `from` on.
fn count_digits(v: &Vec<char>, from: usize) -> (end: usize)
    requires
        from <= v@.len(),
    ensures
        from <= end <= v@.len(),
        end - from == digits_len(v@.skip(from as int)),
{
    let mut end: usize = from;
    while end < v.len() && '0' <= v[end] && v[end] <= '9'
        invariant
            from <= end <= v@.len(),
            digits_len(v@.skip(from as int)) == end - from + digits_len(v@.skip(end as int)),
        decreases v@.len() - end,
    {
        assert(v@.skip(end as int).drop_first() == v@.skip(end + 1));
        end += 1;
    }
    end
}

impl Info {
    /// The patch of the match: `Version 17.5.123` gives `17.5`, `<Releases/16.12>` gives
    /// `16.12`.
    pub fn patch(&self) -> (r: String)
        ensures
            r@ == patch_of(self.game_version@),
    {
        let v = chars_of(self.game_version.as_str());
        let mut start: usize = 0;
        assert(v@.skip(0) == self.game_version@);
        while start < v.len()
            invariant
                v@ == self.game_version@,
                start <= v@.len(),
                version_pair(self.game_version@) == version_pair(v@.skip(start as int)),
            decreases v@.len() - start,
        {
            let ghost rest = v@.skip(start as int);
            let dot = count_digits(&v, start);
            if start < dot && dot < v.len() && v[dot] == '.' {
                let end = count_digits(&v, dot + 1);
                assert(rest.skip(dot - start + 1) == v@.skip(dot + 1));
                if dot + 1 < end {
                    assert(rest.take(end - start) == v@.subrange(start as int, end as int));
                    return string_of(&v, start, end);
                }
            }
            proof {
                lemma_behind_digits(rest);
                assert(rest.skip(dot - start) == v@.skip(dot as int));
            }
            if dot < v.len() {
                proof {
                    let behind = v@.skip(dot as int);
                    lemma_digits_len(rest);
                    assert(behind[0] == rest[dot - start]);
                    assert(digits_len(behind) == 0);
                    assert(behind.drop_first() == v@.skip(dot + 1));
                }
                start = dot + 1;
            } else {
                start = dot;
            }
        }
        self.game_version.clone()
    }
}

// ---------------------------------------------------------------- laws

/// `s` is a number, a dot and a number, with the dot at `k`.
pub open spec fn is_pair(s: Seq<char>, k: int) -> bool {
    &&& 0 < k < s.len() - 1
    &&& all_digits(s.take(k))
    &&& s[k] == '.'
    &&& all_digits(s.skip(k + 1))
}

proof fn lemma_digits_until(s: Seq<char>, n: int)
    requires
        0 <= n <= s.len(),
        forall|i: int| 0 <= i < n ==> is_digit(#[trigger] s[i]),
    ensures
        digits_len(s) >= n,
        n < s.len() && !is_digit(s[n]) ==> digits_len(s) == n,
{
    lemma_digits_len(s);
    if digits_len(s) < n {
        assert(is_digit(s[digits_len(s) as int]));
    }
}

/// What begins with a pair has one, and it is as long as its numbers go on.
proof fn lemma_begins_with_pair(s: Seq<char>, n: int, k: int)
    requires
        0 <= n <= s.len(),
        is_pair(s.take(n), k),
    ensures
        pair_len(s) >= n,
        n == s.len() ==> pair_len(s) == n,
{
    let p = s.take(n);
    assert forall|i: int| 0 <= i < k implies is_digit(#[trigger] s[i]) by {
        assert(p.take(k)[i] == s[i]);
    }
    assert(s[k] == p[k]);
    lemma_digits_until(s, k);
    let t = s.skip(k + 1);
    assert forall|i: int| 0 <= i < n - k - 1 implies is_digit(#[trigger] t[i]) by {
        assert(p.skip(k + 1)[i] == t[i]);
    }
    lemma_digits_until(t, n - k - 1);
    lemma_digits_len(t);
}

proof fn lemma_pair_len(s: Seq<char>)
    requires
        pair_len(s) > 0,
    ensures
        pair_len(s) <= s.len(),
        is_pair(s.take(pair_len(s) as int), digits_len(s) as int),
{
    let k = digits_len(s) as int;
    let t = s.skip(k + 1);
    lemma_digits_len(s);
    lemma_digits_len(t);
    let p = s.take(pair_len(s) as int);
    assert forall|i: int| 0 <= i < p.take(k).len() implies is_digit(#[trigger] p.take(k)[i]) by {
        assert(p.take(k)[i] == s[i]);
    }
    assert forall|i: int| 0 <= i < p.skip(k + 1).len() implies is_digit(
        #[trigger] p.skip(k + 1)[i],
    ) by {
        assert(p.skip(k + 1)[i] == t[i]);
    }
}

/// The patch of a version is a number, a dot and a number wherever the version has these, and
/// it stands in the version no later than any of them.
pub proof fn lemma_patch_found(version: Seq<char>, from: int, to: int, k: int)
    requires
        0 <= from <= to <= version.len(),
        is_pair(version.subrange(from, to), k),
    ensures
        version_pair(version) is Some,
        exists|m: int| is_pair(patch_of(version), m),
        exists|at: int|
            0 <= at <= from && #[trigger] version.skip(at).take(patch_of(version).len() as int)
                == patch_of(version),
    decreases version.len(),
{
    if pair_len(version) > 0 {
        lemma_pair_len(version);
        let p = patch_of(version);
        assert(version.skip(0) == version);
        assert(version.skip(0).take(p.len() as int) == p);
        assert(is_pair(p, digits_len(version) as int));
    } else {
        let rest = version.drop_first();
        if from == 0 {
            assert(version.take(to) == version.subrange(from, to));
            lemma_begins_with_pair(version, to, k);
        } else {
            assert(rest.subrange(from - 1, to - 1) == version.subrange(from, to));
            lemma_patch_found(rest, from - 1, to - 1, k);
            let p = patch_of(rest);
            assert(patch_of(version) == p);
            let at = choose|at: int|
                0 <= at <= from - 1 && #[trigger] rest.skip(at).take(p.len() as int) == p;
            assert(version.skip(at + 1) == rest.skip(at));
            assert(version.skip(at + 1).take(p.len() as int) == p);
        }
    }
}

/// The patch of a patch is the patch.
pub proof fn lemma_patch_idempotent(version: Seq<char>)
    ensures
        patch_of(patch_of(version)) == patch_of(version),
    decreases version.len(),
{
    if pair_len(version) > 0 {
        lemma_pair_len(version);
        let p = patch_of(version);
        assert(p.take(p.len() as int) == p);
        lemma_begins_with_pair(p, p.len() as int, digits_len(version) as int);
    } else if version.len() > 0 && version_pair(version) is Some {
        lemma_patch_idempotent(version.drop_first());
    }
}

/// In a version that says two numbers with a dot between them, and nothing with digits before,
/// these are the patch.
pub proof fn lemma_patch_is(
    before: Seq<char>,
    major: Seq<char>,
    minor: Seq<char>,
    behind: Seq<char>,
)
    requires
        forall|i: int| 0 <= i < before.len() ==> !is_digit(#[trigger] before[i]),
        major.len() > 0 && all_digits(major),
        minor.len() > 0 && all_digits(minor),
        behind.len() > 0 ==> !is_digit(behind[0]),
    ensures
        patch_of(before + major + seq!['.'] + minor + behind) == major + seq!['.'] + minor,
    decreases before.len(),
{
    let s = before + major + seq!['.'] + minor + behind;
    let p = major + seq!['.'] + minor;
    if before.len() == 0 {
        let k = major.len() as int;
        assert forall|i: int| 0 <= i < k implies is_digit(#[trigger] s[i]) by {
            assert(s[i] == major[i]);
        }
        assert(s[k] == '.');
        lemma_digits_until(s, k);
        let t = s.skip(k + 1);
        assert(t =~= minor + behind);
        assert forall|i: int| 0 <= i < minor.len() implies is_digit(#[trigger] t[i]) by {
            assert(t[i] == minor[i]);
        }
        lemma_digits_until(t, minor.len() as int);
        lemma_digits_len(t);
        if behind.len() > 0 {
            assert(t[minor.len() as int] == behind[0]);
        }
        assert(pair_len(s) == p.len());
        assert(s.take(p.len() as int) =~= p);
    } else {
        let rest = before.drop_first();
        assert(s[0] == before[0]);
        assert(digits_len(s) == 0);
        assert(s.drop_first() =~= rest + major + seq!['.'] + minor + behind);
        assert forall|i: int| 0 <= i < rest.len() implies !is_digit(#[trigger] rest[i]) by {
            assert(rest[i] == before[i + 1]);
        }
        lemma_patch_is(rest, major, minor, behind);
        lemma_patch_there(rest, major, minor, behind);
    }
}

proof fn lemma_patch_there(
    before: Seq<char>,
    major: Seq<char>,
    minor: Seq<char>,
    behind: Seq<char>,
)
    requires
        major.len() > 0 && all_digits(major),
        minor.len() > 0 && all_digits(minor),
    ensures
        version_pair(before + major + seq!['.'] + minor + behind) is Some,
{
    let s = before + major + seq!['.'] + minor + behind;
    let from = before.len() as int;
    let to = from + major.len() + 1 + minor.len();
    let p = s.subrange(from, to);
    assert(p =~= major + seq!['.'] + minor);
    assert(p.take(major.len() as int) =~= major);
    assert(p.skip(major.len() as int + 1) =~= minor);
    lemma_patch_found(s, from, to, major.len() as int);
}

/// A version without a dot is a patch as it is.
pub proof fn lemma_no_patch(version: Seq<char>)
    requires
        !version.contains('.'),
    ensures
        patch_of(version) == version,
{
    lemma_no_pair(version);
}

proof fn lemma_no_pair(s: Seq<char>)
    requires
        !s.contains('.'),
    ensures
        version_pair(s) is None,
    decreases s.len(),
{
    lemma_digits_len(s);
    if s.len() > 0 {
        let n = digits_len(s) as int;
        if n < s.len() {
            assert(s.contains(s[n]));
        }
        let t = s.drop_first();
        if t.contains('.') {
            let k = choose|k: int| 0 <= k < t.len() && t[k] == '.';
            assert(s[k + 1] == '.');
        }
        lemma_no_pair(t);
    }
}

/// Traits and units are what their documents say of them.
pub proof fn lemma_as_they_are(t: Trait, u: Unit)
    ensures
        t@.name == t.name@,
        t@.num_units == t.num_units,
        t@.style == t.style,
        t@.tier_current == t.tier_current,
        t@.tier_total == t.tier_total,
        u@.character_id == u.character_id@,
        u@.item_names == views(u.item_names@),
        u@.rarity == u.rarity,
        u@.tier == u.tier,
{
}

}
