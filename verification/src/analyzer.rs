//! How well comps place.

use crate::comp::{classify, comp_of, CompKey, CompModel};
use crate::order::{
    in_order, lemma_sorted_in_order, lemma_sorted_permutes, models, stable_sort, Ordered,
};
use crate::riot::dto::{Match, Participant};
use crate::seqs::{
    lemma_filter_push, lemma_prefix_behind, lemma_prefix_of_sum, lemma_prefix_trans, prefix, total,
};
use crate::text::{str_eq, views};
use vstd::prelude::*;

verus! {

/// Comps that were played less often are left out of the tier table.
pub const MIN_SAMPLE: i64 = 5;

/// A board: the comp that it played and the placement that it reached.
pub struct Placing {
    pub comp: CompModel,
    pub placement: int,
}

/// The boards of a match.
pub open spec fn results(ps: Seq<Participant>) -> Seq<Placing> {
    Seq::new(
        ps.len(),
        |i: int|
            Placing {
                comp: comp_of(models(ps[i].traits@), models(ps[i].units@)),
                placement: ps[i].placement as int,
            },
    )
}

/// The boards of all matches.
pub open spec fn all_results(matches: Seq<Match>) -> Seq<Placing>
    decreases matches.len(),
{
    if matches.len() == 0 {
        Seq::empty()
    } else {
        all_results(matches.drop_last()) + results(matches.last().info.participants@)
    }
}

/// The boards that played `c`.
pub open spec fn of_comp(s: Seq<Placing>, c: CompModel) -> Seq<Placing> {
    s.filter(|x: Placing| x.comp == c)
}

/// The placements of boards.
pub open spec fn placed(s: Seq<Placing>) -> Seq<int> {
    Seq::new(s.len(), |i: int| s[i].placement)
}

/// The sum of the placements of the boards that played `c`.
pub open spec fn placed_total(s: Seq<Placing>, c: CompModel) -> int {
    total(placed(of_comp(s, c)))
}

/// No sum of placements leaves the range of its type on the way.
pub open spec fn placed_fit(s: Seq<Placing>) -> bool {
    s.len() <= i64::MAX && forall|n: int, c: CompModel|
        #![trigger placed_total(s.take(n), c)]
        0 <= n <= s.len() ==> i64::MIN <= placed_total(s.take(n), c) <= i64::MAX
}

/// How often a comp was played, and the sum of its placements. The mean placement is their
/// quotient.
#[derive(Debug)]
pub struct CompCount {
    pub key: CompKey,
    pub sum: i64,
    pub count: i64,
}

pub struct CompCountModel {
    pub key: CompModel,
    pub sum: i64,
    pub count: i64,
}

impl View for CompCount {
    type V = CompCountModel;

    open spec fn view(&self) -> CompCountModel {
        CompCountModel { key: self.key@, sum: self.sum, count: self.count }
    }
}

proof fn lemma_mean_transitive(a: int, m: int, b: int, n: int, c: int, k: int)
    requires
        m > 0,
        n > 0,
        k > 0,
    ensures
        a * n < b * m && b * k < c * n ==> a * k < c * m,
        a * n >= b * m && b * k >= c * n ==> a * k >= c * m,
{
    if a * n < b * m && b * k < c * n {
        assert(a * k < c * m) by (nonlinear_arith)
            requires
                a * n < b * m,
                b * k < c * n,
                m > 0,
                n > 0,
                k > 0,
        {
            assert((a * n) * k < (b * m) * k);
            assert((b * k) * m < (c * n) * m);
            assert((a * k) * n < (c * m) * n);
        }
    }
    if a * n >= b * m && b * k >= c * n {
        assert(a * k >= c * m) by (nonlinear_arith)
            requires
                a * n >= b * m,
                b * k >= c * n,
                m > 0,
                n > 0,
                k > 0,
        {
            assert((a * n) * k >= (b * m) * k);
            assert((b * k) * m >= (c * n) * m);
            assert((a * k) * n >= (c * m) * n);
        }
    }
}

impl Ordered for CompCount {
    /// The lower mean stands first: `a.sum / a.count < b.sum / b.count`, the quotients taken
    /// exactly. What was never played stands last.
    open spec fn before(a: CompCountModel, b: CompCountModel) -> bool {
        if a.count > 0 && b.count > 0 {
            a.sum * b.count < b.sum * a.count
        } else {
            a.count > 0
        }
    }

    proof fn weak_order(a: CompCountModel, b: CompCountModel, c: CompCountModel) {
        if a.count > 0 && b.count > 0 && c.count > 0 {
            lemma_mean_transitive(
                a.sum as int,
                a.count as int,
                b.sum as int,
                b.count as int,
                c.sum as int,
                c.count as int,
            );
        }
    }

    fn is_before(&self, other: &CompCount) -> (b: bool) {
        if self.count > 0 && other.count > 0 {
            let (s, n) = (self.sum as i128, self.count as i128);
            let (t, m) = (other.sum as i128, other.count as i128);
            assert(-0x4000_0000_0000_0000_0000_0000_0000_0000 <= s * m
                <= 0x4000_0000_0000_0000_0000_0000_0000_0000 && -0x4000_0000_0000_0000_0000_0000_0000_0000 <= t * n
                <= 0x4000_0000_0000_0000_0000_0000_0000_0000) by (nonlinear_arith)
                requires
                    -0x8000_0000_0000_0000 <= s <= 0x7fff_ffff_ffff_ffff,
                    -0x8000_0000_0000_0000 <= t <= 0x7fff_ffff_ffff_ffff,
                    0 < n <= 0x7fff_ffff_ffff_ffff,
                    0 < m <= 0x7fff_ffff_ffff_ffff,
            ;
            s * m < t * n
        } else {
            self.count > 0
        }
    }
}


fn same_option(a: &Option<String>, b: &Option<String>) -> (r: bool)
    ensures
        r == (crate::comp::opt_view(*a) == crate::comp::opt_view(*b)),
{
    match (a, b) {
        (Some(x), Some(y)) => str_eq(x.as_str(), y.as_str()),
        (None, None) => true,
        _ => false,
    }
}

/// Whether two keys are those of one comp.
pub fn same_comp(a: &CompKey, b: &CompKey) -> (r: bool)
    ensures
        r == (a@ == b@),
{
    if a.traits.len() != b.traits.len() {
        assert(views(a.traits@).len() != views(b.traits@).len());
        return false;
    }
    let mut i: usize = 0;
    while i < a.traits.len()
        invariant
            i <= a.traits@.len(),
            a.traits@.len() == b.traits@.len(),
            forall|k: int| 0 <= k < i ==> (#[trigger] a.traits@[k])@ == b.traits@[k]@,
        decreases a.traits@.len() - i,
    {
        if !str_eq(a.traits[i].as_str(), b.traits[i].as_str()) {
            assert(views(a.traits@)[i as int] != views(b.traits@)[i as int]);
            return false;
        }
        i += 1;
    }
    assert(views(a.traits@) =~= views(b.traits@));
    same_option(&a.primary, &b.primary) && same_option(&a.carry, &b.carry)
}

/// `x` counts the boards of its comp among `s`.
pub open spec fn counts_comp(x: CompCountModel, s: Seq<Placing>) -> bool {
    x.count == of_comp(s, x.key).len() && x.sum == placed_total(s, x.key)
}

/// No comp has two rows.
pub open spec fn one_row_each(rows: Seq<CompCountModel>) -> bool {
    forall|i: int, j: int|
        0 <= i < j < rows.len() ==> (#[trigger] rows[i]).key != (#[trigger] rows[j]).key
}

/// One of the rows is that of `c`.
pub open spec fn has_row(rows: Seq<CompCountModel>, c: CompModel) -> bool {
    exists|i: int| 0 <= i < rows.len() && (#[trigger] rows[i]).key == c
}

/// The rows count the boards of every comp that was played at least `min` times.
pub open spec fn counts_from(rows: Seq<CompCountModel>, s: Seq<Placing>, min: int) -> bool {
    &&& one_row_each(rows)
    &&& forall|i: int|
        0 <= i < rows.len() ==> counts_comp(#[trigger] rows[i], s) && rows[i].count >= min
    &&& forall|c: CompModel| of_comp(s, c).len() >= min ==> #[trigger] has_row(rows, c)
}

/// The comps that were played.
pub open spec fn played(s: Seq<Placing>) -> Set<CompModel> {
    Seq::new(s.len(), |i: int| s[i].comp).to_set()
}

proof fn lemma_of_comp_push(s: Seq<Placing>, x: Placing, c: CompModel)
    ensures
        of_comp(s.push(x), c) == if x.comp == c {
            of_comp(s, c).push(x)
        } else {
            of_comp(s, c)
        },
        placed_total(s.push(x), c) == placed_total(s, c) + if x.comp == c {
            x.placement
        } else {
            0
        },
{
    lemma_filter_push(s, x, |y: Placing| y.comp == c);
    let f = of_comp(s, c);
    assert(placed(f.push(x)).drop_last() =~= placed(f));
}

/// The row of a comp.
fn find_comp(rows: &Vec<CompCount>, key: &CompKey) -> (r: Option<usize>)
    ensures
        match r {
            Some(i) => i < rows@.len() && rows@[i as int].key@ == key@,
            None => !has_row(models(rows@), key@),
        },
{
    let mut i: usize = 0;
    while i < rows.len()
        invariant
            i <= rows@.len(),
            forall|k: int| 0 <= k < i ==> (#[trigger] models(rows@)[k]).key != key@,
        decreases rows@.len() - i,
    {
        if same_comp(&rows[i].key, key) {
            return Some(i);
        }
        i += 1;
    }
    None
}

/// The rows with one more board.
fn add_board(
    rows: Vec<CompCount>,
    key: CompKey,
    placement: i32,
    Ghost(s): Ghost<Seq<Placing>>,
) -> (r: Vec<CompCount>)
    requires
        counts_from(models(rows@), s, 1),
        s.len() < i64::MAX,
        i64::MIN <= placed_total(s, key@) + placement <= i64::MAX,
    ensures
        counts_from(models(r@), s.push(Placing { comp: key@, placement: placement as int }), 1),
{
    let ghost x = Placing { comp: key@, placement: placement as int };
    let ghost before = models(rows@);
    let ghost next = s.push(x);
    proof {
        assert forall|c: CompModel|
            #![trigger of_comp(next, c)]
            of_comp(next, c) == (if x.comp == c {
                of_comp(s, c).push(x)
            } else {
                of_comp(s, c)
            }) && placed_total(next, c) == placed_total(s, c) + (if x.comp == c {
                x.placement
            } else {
                0
            }) by {
            lemma_of_comp_push(s, x, c);
        }
        crate::seqs::lemma_filter_elements(s, |y: Placing| y.comp == key@);
    }
    let mut rows = rows;
    match find_comp(&rows, &key) {
        Some(i) => {
            proof {
                assert(before[i as int].key == key@);
                assert(counts_comp(before[i as int], s));
            }
            let sum = rows[i].sum + placement as i64;
            let count = rows[i].count + 1;
            rows.set(i, CompCount { key, sum, count });
            proof {
                let after = models(rows@);
                assert(after =~= before.update(i as int, CompCountModel { key: key@, sum, count }));
                assert forall|k: int| 0 <= k < after.len() implies counts_comp(
                    #[trigger] after[k],
                    next,
                ) && after[k].count >= 1 by {
                    assert(counts_comp(before[k], s));
                    let _ = of_comp(next, after[k].key);
                    if k != i {
                        assert(before[k].key != before[i as int].key);
                    }
                }
                assert forall|c: CompModel| of_comp(next, c).len() >= 1 implies #[trigger] has_row(
                    after,
                    c,
                ) by {
                    if c == key@ {
                        assert(after[i as int].key == c);
                    } else {
                        assert(has_row(before, c));
                        let k = choose|k: int| 0 <= k < before.len() && before[k].key == c;
                        assert(after[k].key == c);
                    }
                }
            }
            return rows;
        },
        None => {},
    }
    proof {
        if of_comp(s, key@).len() >= 1 {
            assert(has_row(before, key@));
        }
        assert(of_comp(s, key@).len() == 0);
        assert(placed(of_comp(s, key@)) =~= Seq::empty());
    }
    rows.push(CompCount { key, sum: placement as i64, count: 1 });
    proof {
        let after = models(rows@);
        let row = CompCountModel { key: key@, sum: placement as i64, count: 1 };
        assert(after =~= before.push(row));
        assert forall|k: int| 0 <= k < after.len() implies counts_comp(#[trigger] after[k], next)
            && after[k].count >= 1 by {
            let _ = of_comp(next, after[k].key);
            if k < before.len() {
                assert(after[k] == before[k]);
                assert(counts_comp(before[k], s));
            }
        }
        assert forall|c: CompModel| of_comp(next, c).len() >= 1 implies #[trigger] has_row(
            after,
            c,
        ) by {
            if c == key@ {
                assert(after[before.len() as int].key == c);
            } else {
                assert(has_row(before, c));
                let k = choose|k: int| 0 <= k < before.len() && before[k].key == c;
                assert(after[k].key == c);
            }
        }
    }
    rows
}

proof fn lemma_results_prefix(matches: Seq<Match>, i: int, j: int)
    requires
        0 <= i < matches.len(),
        0 <= j <= matches[i].info.participants@.len(),
    ensures
        prefix(
            all_results(matches.take(i)) + results(matches[i].info.participants@.take(j)),
            all_results(matches),
        ),
    decreases matches.len(),
{
    let ps = matches[i].info.participants@;
    let head = all_results(matches.take(i));
    assert(results(ps.take(j)) =~= results(ps).take(j));
    lemma_prefix_behind(head, results(ps.take(j)), results(ps));
    if i == matches.len() - 1 {
        assert(matches.take(i) =~= matches.drop_last());
    } else {
        let init = matches.drop_last();
        assert(matches.take(i) =~= init.take(i));
        lemma_results_prefix(init, i, j);
        lemma_prefix_of_sum(all_results(init), results(matches.last().info.participants@));
        lemma_prefix_trans(
            head + results(ps.take(j)),
            all_results(init),
            all_results(matches),
        );
    }
}

/// How well every comp placed, the best first.
#[derive(Debug)]
pub struct TierTable {
    /// The boards that were counted.
    pub boards: u64,
    /// How many comps they played.
    pub comps: usize,
    /// The comps that were played often enough.
    pub rows: Vec<CompCount>,
}

proof fn lemma_rows_of_played(rows: Seq<CompCountModel>, s: Seq<Placing>)
    requires
        counts_from(rows, s, 1),
    ensures
        played(s).len() == rows.len(),
{
    let keys = Seq::new(rows.len(), |i: int| rows[i].key);
    let comps = Seq::new(s.len(), |i: int| s[i].comp);
    assert(keys.no_duplicates()) by {
        assert forall|i: int, j: int| 0 <= i < keys.len() && 0 <= j < keys.len() && i != j implies keys[i]
            != keys[j] by {
            if i < j {
                assert(rows[i].key != rows[j].key);
            } else {
                assert(rows[j].key != rows[i].key);
            }
        }
    }
    keys.unique_seq_to_set();
    assert forall|c: CompModel| keys.to_set().contains(c) <==> comps.to_set().contains(c) by {
        let p = |x: Placing| x.comp == c;
        crate::seqs::lemma_filter_elements(s, p);
        if keys.contains(c) {
            let i = choose|i: int| 0 <= i < keys.len() && keys[i] == c;
            assert(counts_comp(rows[i], s));
            let f = of_comp(s, c);
            assert(p(f[0]) && s.contains(f[0]));
            let j = choose|j: int| 0 <= j < s.len() && s[j] == f[0];
            assert(comps[j] == c);
        }
        if comps.contains(c) {
            let j = choose|j: int| 0 <= j < comps.len() && comps[j] == c;
            assert(s.contains(s[j]) && p(s[j]));
            assert(of_comp(s, c).contains(s[j]));
            assert(has_row(rows, c));
            let i = choose|i: int| 0 <= i < rows.len() && rows[i].key == c;
            assert(keys[i] == c);
        }
    }
    assert(keys.to_set() =~= comps.to_set());
}

proof fn lemma_row_found(rows: Seq<CompCountModel>, m: Seq<CompCountModel>, c: CompModel)
    requires
        rows.to_multiset() == m.to_multiset(),
        has_row(rows, c),
    ensures
        has_row(m, c),
{
    broadcast use vstd::seq_lib::group_to_multiset_ensures;

    let i = choose|i: int| 0 <= i < rows.len() && rows[i].key == c;
    assert(rows.contains(rows[i]));
    assert(m.to_multiset().count(rows[i]) > 0);
    assert(m.contains(rows[i]));
    let j = choose|j: int| 0 <= j < m.len() && m[j] == rows[i];
    assert(m[j].key == c);
}

proof fn lemma_one_row_kept(a: Seq<CompCountModel>, b: Seq<CompCountModel>)
    requires
        a.to_multiset() == b.to_multiset(),
        one_row_each(a),
    ensures
        one_row_each(b),
{
    broadcast use vstd::seq_lib::group_to_multiset_ensures;

    assert(a.no_duplicates());
    a.lemma_multiset_has_no_duplicates();
    b.lemma_multiset_has_no_duplicates_conv();
    assert forall|i: int, j: int| 0 <= i < j < b.len() implies (#[trigger] b[i]).key
        != (#[trigger] b[j]).key by {
        assert(b.contains(b[i]) && b.contains(b[j]));
        assert(a.to_multiset().count(b[i]) > 0 && a.to_multiset().count(b[j]) > 0);
        assert(a.contains(b[i]) && a.contains(b[j]));
        let k = choose|k: int| 0 <= k < a.len() && a[k] == b[i];
        let l = choose|l: int| 0 <= l < a.len() && a[l] == b[j];
        assert(b[i] != b[j]);
        if k < l {
            assert(a[k].key != a[l].key);
        } else {
            assert(a[l].key != a[k].key);
        }
    }
}

/// Counts the comps of all boards, and puts those that were played often enough in the order
/// of their mean placement.
pub fn tier_table(matches: &Vec<Match>) -> (r: TierTable)
    requires
        placed_fit(all_results(matches@)),
    ensures
        r.boards == all_results(matches@).len(),
        r.comps == played(all_results(matches@)).len(),
        counts_from(models(r.rows@), all_results(matches@), MIN_SAMPLE as int),
        in_order::<CompCount>(models(r.rows@)),
{
    let ghost all = all_results(matches@);
    let mut rows: Vec<CompCount> = Vec::new();
    let mut boards: u64 = 0;
    let mut i: usize = 0;
    proof {
        reveal(Seq::filter);
        assert(all_results(matches@.take(0)) =~= Seq::empty());
    }
    while i < matches.len()
        invariant
            i <= matches@.len(),
            all == all_results(matches@),
            placed_fit(all),
            counts_from(models(rows@), all_results(matches@.take(i as int)), 1),
            boards == all_results(matches@.take(i as int)).len(),
        decreases matches@.len() - i,
    {
        let ps = &matches[i].info.participants;
        let ghost seen = all_results(matches@.take(i as int));
        let mut j: usize = 0;
        assert(seen + results(ps@.take(0)) =~= seen);
        while j < ps.len()
            invariant
                i < matches@.len(),
                j <= ps@.len(),
                *ps == matches@[i as int].info.participants,
                seen == all_results(matches@.take(i as int)),
                all == all_results(matches@),
                placed_fit(all),
                counts_from(models(rows@), seen + results(ps@.take(j as int)), 1),
                boards == (seen + results(ps@.take(j as int))).len(),
            decreases ps@.len() - j,
        {
            let p = &ps[j];
            let key = classify(p);
            let ghost s = seen + results(ps@.take(j as int));
            let ghost x = Placing { comp: key@, placement: p.placement as int };
            proof {
                assert(seen + results(ps@.take(j + 1)) =~= s.push(x));
                lemma_results_prefix(matches@, i as int, j + 1);
                lemma_of_comp_push(s, x, x.comp);
                let n = s.push(x).len() as int;
                assert(all.take(n) == s.push(x));
                assert(i64::MIN <= placed_total(all.take(n), x.comp) <= i64::MAX);
            }
            rows = add_board(rows, key, p.placement, Ghost(s));
            boards += 1;
            j += 1;
        }
        proof {
            assert(ps@.take(ps@.len() as int) == ps@);
            assert(matches@.take(i + 1).drop_last() == matches@.take(i as int));
        }
        i += 1;
    }
    assert(matches@.take(matches@.len() as int) == matches@);
    let comps = rows.len();
    proof {
        lemma_rows_of_played(models(rows@), all);
    }
    let kept = frequent(rows, Ghost(all));
    let ghost before = models(kept@);
    let rows = stable_sort(kept);
    proof {
        broadcast use vstd::seq_lib::group_to_multiset_ensures;

        lemma_sorted_permutes::<CompCount>(before);
        lemma_sorted_in_order::<CompCount>(before);
        let after = models(rows@);
        lemma_one_row_kept(before, after);
        assert forall|k: int| 0 <= k < after.len() implies counts_comp(#[trigger] after[k], all)
            && after[k].count >= MIN_SAMPLE by {
            assert(after.contains(after[k]));
            assert(before.to_multiset().count(after[k]) > 0);
            assert(before.contains(after[k]));
            let l = choose|l: int| 0 <= l < before.len() && before[l] == after[k];
            assert(counts_comp(before[l], all));
        }
        assert forall|c: CompModel| of_comp(all, c).len() >= MIN_SAMPLE implies #[trigger] has_row(
            after,
            c,
        ) by {
            assert(has_row(before, c));
            lemma_row_found(before, after, c);
        }
    }
    TierTable { boards, comps, rows }
}

/// The rows of the comps that were played often enough.
fn frequent(rows: Vec<CompCount>, Ghost(s): Ghost<Seq<Placing>>) -> (r: Vec<CompCount>)
    requires
        counts_from(models(rows@), s, 1),
    ensures
        counts_from(models(r@), s, MIN_SAMPLE as int),
{
    let ghost all = models(rows@);
    let ghost rows0 = rows@;
    let mut rest = rows;
    let mut out: Vec<CompCount> = Vec::new();
    while rest.len() > 0
        invariant
            rest@.len() <= rows0.len(),
            all == models(rows0),
            rest@ == rows0.skip(rows0.len() - rest@.len()),
            counts_from(all, s, 1),
            one_row_each(models(out@)),
            forall|i: int|
                0 <= i < out@.len() ==> counts_comp((#[trigger] models(out@)[i]), s) && models(
                    out@,
                )[i].count >= MIN_SAMPLE && all.take(rows0.len() - rest@.len()).contains(
                    models(out@)[i],
                ),
            forall|k: int|
                0 <= k < rows0.len() - rest@.len() && (#[trigger] all[k]).count >= MIN_SAMPLE
                    ==> has_row(models(out@), all[k].key),
        decreases rest@.len(),
    {
        let ghost n = rows0.len() - rest@.len();
        let ghost before = models(out@);
        let x = rest.remove(0);
        let ghost xv = x@;
        assert(all[n] == xv);
        assert(counts_comp(all[n], s));
        assert(rest@ =~= rows0.skip(n + 1));
        if x.count >= MIN_SAMPLE {
            out.push(x);
            assert(models(out@) =~= before.push(xv));
        }
        proof {
            let after = models(out@);
            assert forall|c: CompModel| #[trigger] has_row(before, c) implies has_row(after, c) by {
                let k = choose|k: int| 0 <= k < before.len() && before[k].key == c;
                assert(after[k].key == c);
            }
            assert forall|i: int| 0 <= i < after.len() implies all.take(n + 1).contains(
                #[trigger] after[i],
            ) by {
                if i < before.len() {
                    assert(after[i] == before[i]);
                    assert(all.take(n).contains(before[i]));
                    let m = choose|m: int| 0 <= m < n && all.take(n)[m] == before[i];
                    assert(all.take(n + 1)[m] == after[i]);
                } else {
                    assert(all.take(n + 1)[n] == after[i]);
                }
            }
            assert(one_row_each(after)) by {
                assert forall|i: int, j: int| 0 <= i < j < after.len() implies (#[trigger] after[i]).key
                    != (#[trigger] after[j]).key by {
                    assert(after[i] == before[i]);
                    if j < before.len() {
                        assert(after[j] == before[j]);
                    } else {
                        assert(all.take(n).contains(before[i]));
                        let m = choose|m: int| 0 <= m < n && all.take(n)[m] == before[i];
                        assert(all[m].key != all[n].key);
                    }
                }
            }
            if xv.count >= MIN_SAMPLE {
                assert(after[before.len() as int].key == xv.key);
            }
        }
    }
    proof {
        let after = models(out@);
        assert forall|c: CompModel| of_comp(s, c).len() >= MIN_SAMPLE implies #[trigger] has_row(
            after,
            c,
        ) by {
            assert(has_row(all, c));
            let k = choose|k: int| 0 <= k < all.len() && all[k].key == c;
            assert(counts_comp(all[k], s));
            assert(all[k].count >= MIN_SAMPLE);
        }
    }
    out
}

/// A result is a participant's composition and placement.
pub proof fn lemma_results(ps: Seq<Participant>, matches: Seq<Match>, m: Match)
    ensures
        results(ps).len() == ps.len(),
        forall|i: int|
            #![trigger results(ps)[i]]
            0 <= i < ps.len() ==> results(ps)[i].comp == comp_of(
                models(ps[i].traits@),
                models(ps[i].units@),
            ) && results(ps)[i].placement == ps[i].placement,
        all_results(Seq::empty()).len() == 0,
        all_results(matches.push(m)) == all_results(matches) + results(m.info.participants@),
{
    assert(matches.push(m).drop_last() =~= matches);
}

/// A result counts once and adds its placement to its own composition, and changes nothing of
/// any other.
pub proof fn lemma_result_counts(s: Seq<Placing>, x: Placing, c: CompModel)
    ensures
        of_comp(Seq::empty(), c).len() == 0,
        placed_total(Seq::empty(), c) == 0,
        x.comp == c ==> of_comp(s.push(x), c).len() == of_comp(s, c).len() + 1 && placed_total(
            s.push(x),
            c,
        ) == placed_total(s, c) + x.placement,
        x.comp != c ==> of_comp(s.push(x), c).len() == of_comp(s, c).len() && placed_total(
            s.push(x),
            c,
        ) == placed_total(s, c),
{
    let p = |x: Placing| x.comp == c;
    reveal(Seq::filter);
    lemma_filter_push(s, x, p);
    let f = of_comp(s, c);
    if x.comp == c {
        assert(of_comp(s.push(x), c) == f.push(x));
        assert(placed(f.push(x)).drop_last() =~= placed(f));
        assert(placed(f.push(x)).last() == x.placement);
    }
}

/// Compositions that were played are listed the best mean placement first.
pub proof fn lemma_best_mean_first(rows: Seq<CompCountModel>, i: int, j: int)
    requires
        in_order::<CompCount>(rows),
        0 <= i < j < rows.len(),
        rows[i].count > 0,
        rows[j].count > 0,
    ensures
        rows[i].sum * rows[j].count <= rows[j].sum * rows[i].count,
{
    assert(!<CompCount as Ordered>::before(rows[j], rows[i]));
}

/// A composition is listed from five boards on.
pub proof fn lemma_enough_boards(rows: Seq<CompCountModel>, s: Seq<Placing>, c: CompModel)
    requires
        counts_from(rows, s, MIN_SAMPLE as int),
    ensures
        of_comp(s, c).len() >= 5 <==> exists|i: int|
            0 <= i < rows.len() && (#[trigger] rows[i]).key == c,
        forall|i: int|
            0 <= i < rows.len() ==> (#[trigger] rows[i]).count == of_comp(s, rows[i].key).len()
                && rows[i].sum == placed_total(s, rows[i].key),
{
    if of_comp(s, c).len() >= 5 {
        assert(has_row(rows, c));
    }
    if exists|i: int| 0 <= i < rows.len() && (#[trigger] rows[i]).key == c {
        let i = choose|i: int| 0 <= i < rows.len() && (#[trigger] rows[i]).key == c;
        assert(counts_comp(rows[i], s) && rows[i].count >= MIN_SAMPLE);
    }
    assert forall|i: int| 0 <= i < rows.len() implies (#[trigger] rows[i]).count == of_comp(
        s,
        rows[i].key,
    ).len() && rows[i].sum == placed_total(s, rows[i].key) by {
        assert(counts_comp(rows[i], s));
    }
}

/// The compositions that were played are those of the results, each once.
pub proof fn lemma_played(s: Seq<Placing>, c: CompModel)
    ensures
        played(s).contains(c) <==> exists|i: int| 0 <= i < s.len() && (#[trigger] s[i]).comp == c,
        forall|i: int|
            0 <= i < s.len() && (#[trigger] s[i]).comp == c ==> of_comp(s, c).len() > 0,
{
    let t = Seq::new(s.len(), |i: int| s[i].comp);
    if played(s).contains(c) {
        assert(t.contains(c));
        let i = choose|i: int| 0 <= i < t.len() && t[i] == c;
        assert(s[i].comp == c);
    }
    let p = |x: Placing| x.comp == c;
    crate::seqs::lemma_filter_elements(s, p);
    assert forall|i: int| 0 <= i < s.len() && (#[trigger] s[i]).comp == c implies of_comp(
        s,
        c,
    ).len() > 0 by {
        assert(s.contains(s[i]) && p(s[i]));
        assert(s.filter(p).contains(s[i]));
    }
    if exists|i: int| 0 <= i < s.len() && (#[trigger] s[i]).comp == c {
        let i = choose|i: int| 0 <= i < s.len() && (#[trigger] s[i]).comp == c;
        assert(t[i] == c);
        assert(t.contains(c));
    }
}

/// A row counts what its fields say.
pub proof fn lemma_row_as_counted(x: CompCount)
    ensures
        x@.key == x.key@,
        x@.sum == x.sum,
        x@.count == x.count,
{
}

}
