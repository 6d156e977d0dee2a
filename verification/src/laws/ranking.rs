//! Laws of the short list: who gets on it, in what order, and with what score.

use vstd::prelude::*;

use crate::decimal;
use crate::laws::books;
use crate::order;
use crate::order::Fraction;
use crate::screen;
use crate::screen::{Kind, ListingView, Pick};
use crate::text;

verus! {

/// Ranking a pool keeps each of its members, and puts no score below a later one.
pub proof fn the_best_score_comes_first(p: Seq<(int, int)>)
    requires
        forall|i: int|
            0 <= i < p.len() ==> -order::FRACTION_MAX <= (#[trigger] p[i]).0 <= order::FRACTION_MAX,
    ensures
        screen::best_first(p).len() == p.len(),
        forall|i: int, j: int|
            0 <= i < j < screen::best_first(p).len() ==> (#[trigger] screen::best_first(p)[i]).0 >= (
            #[trigger] screen::best_first(p)[j]).0,
        forall|i: int| 0 <= i < p.len() ==> screen::best_first(p).contains(#[trigger] p[i]),
        forall|i: int|
            0 <= i < p.len() ==> p.contains(#[trigger] screen::best_first(p)[i]),
{
    let keys = Seq::new(p.len(), |i: int| Fraction::whole((-p[i].0) as i128));
    assert forall|i: int| 0 <= i < keys.len() implies (#[trigger] keys[i]).den == 1
        && -order::FRACTION_MAX <= keys[i].num <= order::FRACTION_MAX by {
        assert(-order::FRACTION_MAX <= p[i].0 <= order::FRACTION_MAX);
    }
    books::lemma_in_order(p, keys, p.len() as int);
    assert forall|i: int| 0 <= i < keys.len() implies (#[trigger] keys[i]).ok() by {
        assert(keys[i].den == 1);
    }
    books::lemma_all_kept(p, keys);
    let o = order::arranged(keys);
    let out = screen::best_first(p);
    assert(out == order::picked(p, o, p.len() as int));
    assert forall|i: int, j: int| 0 <= i < j < out.len() implies (#[trigger] out[i]).0 >= (
    #[trigger] out[j]).0 by {
        assert(keys[o[i]].num <= keys[o[j]].num);
        assert(-order::FRACTION_MAX <= p[o[i]].0 <= order::FRACTION_MAX);
        assert(-order::FRACTION_MAX <= p[o[j]].0 <= order::FRACTION_MAX);
    }
    assert forall|i: int| 0 <= i < p.len() implies p.contains(#[trigger] out[i]) by {
        assert(p[o[i]] == out[i]);
    }
}

/// A pool holds each listing that has a score as its kind, with that score, once.
proof fn lemma_pool_rows(list: Seq<ListingView>, kind: Kind)
    ensures
        forall|i: int, j: int|
            0 <= i < j < screen::pool(list, kind).len() ==> (#[trigger] screen::pool(list, kind)[i]).1
                < (#[trigger] screen::pool(list, kind)[j]).1 < list.len(),
        forall|r: int|
            0 <= r < list.len() && screen::score_as(#[trigger] list[r], kind) is Some
                ==> screen::pool(list, kind).contains(
                (screen::score_as(list[r], kind)->0, r),
            ),
    decreases list.len(),
{
    if list.len() > 0 {
        let short = list.drop_last();
        let n = list.len() - 1;
        lemma_pool_rows(short, kind);
        screen::lemma_pool(short, kind);
        let before = screen::pool(short, kind);
        let all = screen::pool(list, kind);
        assert forall|i: int, j: int| 0 <= i < j < all.len() implies (#[trigger] all[i]).1 < (
        #[trigger] all[j]).1 < list.len() by {
            assert(all[i] == before[i]);
            assert(screen::is_entry(short, before[i], kind));
            if j < before.len() {
                assert(all[j] == before[j]);
            }
        }
        assert forall|r: int|
            0 <= r < list.len() && screen::score_as(#[trigger] list[r], kind) is Some implies all.contains(
            (screen::score_as(list[r], kind)->0, r),
        ) by {
            if r < n {
                assert(short[r] == list[r]);
                let e = (screen::score_as(short[r], kind)->0, r);
                assert(before.contains(e));
                let i = choose|i: int| 0 <= i < before.len() && before[i] == e;
                assert(all[i] == e);
            } else {
                assert(all.last() == (screen::score_as(list[r], kind)->0, r));
                assert(all[all.len() - 1] == all.last());
            }
        }
    }
}

/// The ranked pool of a kind: what is in it, in what order, and each listing once.
proof fn lemma_ranked(list: Seq<ListingView>, kind: Kind)
    ensures
        ({
            let ranked = screen::best_first(screen::pool(list, kind));
            &&& forall|i: int| 0 <= i < ranked.len() ==> screen::is_entry(list, #[trigger] ranked[i], kind)
            &&& forall|i: int| 0 <= i < ranked.len() ==> 0 <= (#[trigger] ranked[i]).0 <= screen::SCORE_ONE
            &&& forall|i: int, j: int|
                0 <= i < j < ranked.len() ==> (#[trigger] ranked[i]).0 >= (#[trigger] ranked[j]).0
            &&& forall|i: int, j: int|
                0 <= i < j < ranked.len() ==> (#[trigger] ranked[i]).1 != (#[trigger] ranked[j]).1
            &&& forall|r: int|
                0 <= r < list.len() && screen::score_as(#[trigger] list[r], kind) is Some
                    ==> ranked.contains((screen::score_as(list[r], kind)->0, r))
        }),
{
    let p = screen::pool(list, kind);
    let ranked = screen::best_first(p);
    screen::lemma_pool(list, kind);
    lemma_pool_rows(list, kind);
    assert forall|i: int| 0 <= i < p.len() implies 0 <= (#[trigger] p[i]).0 <= screen::SCORE_ONE by {
        assert(screen::is_entry(list, p[i], kind));
        screen::lemma_scores(list[p[i].1].row);
    }
    assert forall|i: int| 0 <= i < p.len() implies -order::FRACTION_MAX <= (#[trigger] p[i]).0
        <= order::FRACTION_MAX by {
        assert(0 <= p[i].0 <= screen::SCORE_ONE);
    }
    the_best_score_comes_first(p);
    assert forall|i: int| 0 <= i < ranked.len() implies screen::is_entry(
        list,
        #[trigger] ranked[i],
        kind,
    ) by {
        assert(p.contains(ranked[i]));
        let k = choose|k: int| 0 <= k < p.len() && p[k] == ranked[i];
        assert(screen::is_entry(list, p[k], kind));
    }
    assert forall|i: int| 0 <= i < ranked.len() implies 0 <= (#[trigger] ranked[i]).0
        <= screen::SCORE_ONE by {
        assert(screen::is_entry(list, ranked[i], kind));
        screen::lemma_scores(list[ranked[i].1].row);
    }
    let keys = Seq::new(p.len(), |i: int| Fraction::whole((-p[i].0) as i128));
    assert forall|i: int| 0 <= i < keys.len() implies (#[trigger] keys[i]).ok() by {
        assert(0 <= p[i].0 <= screen::SCORE_ONE);
    }
    order::arrangement_is_a_stable_sort(keys, keys.len());
    let o = order::arranged(keys);
    assert forall|i: int, j: int| 0 <= i < j < ranked.len() implies (#[trigger] ranked[i]).1 != (
    #[trigger] ranked[j]).1 by {
        assert(ranked[i] == p[o[i]] && ranked[j] == p[o[j]]);
        assert(o[i] != o[j]);
        if o[i] < o[j] {
            assert(p[o[i]].1 < p[o[j]].1);
        } else {
            assert(p[o[j]].1 < p[o[i]].1);
        }
    }
    assert forall|r: int|
        0 <= r < list.len() && screen::score_as(#[trigger] list[r], kind) is Some implies ranked.contains(
        (screen::score_as(list[r], kind)->0, r),
    ) by {
        let e = (screen::score_as(list[r], kind)->0, r);
        assert(p.contains(e));
        let k = choose|k: int| 0 <= k < p.len() && p[k] == e;
        assert(ranked.contains(p[k]));
    }
}

/// Each stock of a market is listed once.
pub open spec fn listed_once(list: Seq<ListingView>) -> bool {
    forall|i: int, j: int|
        0 <= i < j < list.len() ==> (#[trigger] list[i]).row.thscode != (
        #[trigger] list[j]).row.thscode
}

proof fn lemma_filled_starts(
    list: Seq<ListingView>,
    picks: Seq<Pick>,
    entries: Seq<(int, int)>,
    count: int,
    kind: Kind,
)
    ensures
        screen::filled(list, picks, entries, count, kind).len() >= picks.len(),
        forall|i: int|
            0 <= i < picks.len() ==> #[trigger] screen::filled(list, picks, entries, count, kind)[i]
                == picks[i],
    decreases entries.len(),
{
    if entries.len() > 0 {
        lemma_filled_starts(list, picks, entries.drop_last(), count, kind);
    }
}

/// Entries of different stocks, no more than asked for, are all taken.
proof fn lemma_filled_all(
    list: Seq<ListingView>,
    entries: Seq<(int, int)>,
    count: int,
    kind: Kind,
)
    requires
        screen::listings_ok(list),
        listed_once(list),
        entries.len() <= count,
        forall|i: int|
            0 <= i < entries.len() ==> 0 <= (#[trigger] entries[i]).1 < list.len() && 0 <= entries[i].0
                <= screen::SCORE_ONE,
        forall|i: int, j: int|
            0 <= i < j < entries.len() ==> (#[trigger] entries[i]).1 != (#[trigger] entries[j]).1,
    ensures
        ({
            let r = screen::filled(list, Seq::empty(), entries, count, kind);
            &&& r.len() == entries.len()
            &&& forall|i: int|
                0 <= i < r.len() ==> (#[trigger] r[i]).score == entries[i].0 && r[i].row
                    == entries[i].1 && r[i].kind == kind
        }),
    decreases entries.len(),
{
    if entries.len() > 0 {
        let short = entries.drop_last();
        let n = entries.len() - 1;
        assert forall|i: int| 0 <= i < short.len() implies 0 <= (#[trigger] short[i]).1 < list.len()
            && 0 <= short[i].0 <= screen::SCORE_ONE by {
            assert(short[i] == entries[i]);
        }
        assert forall|i: int, j: int| 0 <= i < j < short.len() implies (#[trigger] short[i]).1 != (
        #[trigger] short[j]).1 by {
            assert(short[i] == entries[i] && short[j] == entries[j]);
        }
        lemma_filled_all(list, short, count, kind);
        let before = screen::filled(list, Seq::empty(), short, count, kind);
        let row = entries[n].1;
        assert(!screen::has_code(list, before, list[row].row.thscode)) by {
            if screen::has_code(list, before, list[row].row.thscode) {
                let i = choose|i: int|
                    0 <= i < before.len() && list[#[trigger] before[i].row as int].row.thscode
                        == list[row].row.thscode;
                let other = before[i].row as int;
                assert(entries[i].1 == other);
                assert(entries[i].1 != entries[n].1);
                if other < row {
                    assert(list[other].row.thscode != list[row].row.thscode);
                } else {
                    assert(list[row].row.thscode != list[other].row.thscode);
                }
            }
        }
    }
}

/// The first half of the picks are the best uptrends of the market: each of them is a listing
/// with its score as an uptrend, and a listing that passes as an uptrend and is not among them
/// has no higher score than any of them, and is left out only because they are that many.
pub proof fn the_first_half_are_the_best_uptrends(list: Seq<ListingView>, count: int, r: int)
    requires
        screen::listings_ok(list),
        listed_once(list),
        count >= 0,
        0 <= r < list.len(),
    ensures
        ({
            let picks = screen::picks_of(list, count);
            let half = (count + 1) / 2;
            screen::score_as(list[r], Kind::Momentum) matches Some(v) ==> {
                ||| exists|a: int|
                    0 <= a < half && a < picks.len() && (#[trigger] picks[a]).row == r
                ||| {
                    &&& half <= picks.len()
                    &&& forall|a: int|
                        0 <= a < half ==> (#[trigger] picks[a]).score >= v && picks[a].kind
                            == Kind::Momentum && screen::score_as(
                            list[picks[a].row as int],
                            Kind::Momentum,
                        ) == Some(picks[a].score as int)
                }
            }
        }),
{
    let rising = screen::best_first(screen::pool(list, Kind::Momentum));
    let dips = screen::best_first(screen::pool(list, Kind::Pullback));
    lemma_ranked(list, Kind::Momentum);
    let half = (count + 1) / 2;
    let h = decimal::min(half, rising.len() as int);
    let head = rising.take(h);
    assert forall|i: int| 0 <= i < head.len() implies 0 <= (#[trigger] head[i]).1 < list.len()
        && 0 <= head[i].0 <= screen::SCORE_ONE by {
        assert(head[i] == rising[i]);
        assert(screen::is_entry(list, rising[i], Kind::Momentum));
    }
    assert forall|i: int, j: int| 0 <= i < j < head.len() implies (#[trigger] head[i]).1 != (
    #[trigger] head[j]).1 by {
        assert(head[i] == rising[i] && head[j] == rising[j]);
    }
    lemma_filled_all(list, head, count, Kind::Momentum);
    let first = screen::filled(list, Seq::empty(), head, count, Kind::Momentum);
    let second = screen::filled(list, first, dips, count, Kind::Pullback);
    let picks = screen::picks_of(list, count);
    lemma_filled_starts(list, first, dips, count, Kind::Pullback);
    lemma_filled_starts(list, second, rising.skip(h) + dips, count, Kind::Momentum);
    assert forall|a: int| 0 <= a < h implies #[trigger] picks[a] == first[a] by {
        assert(second[a] == first[a]);
    }
    if let Some(v) = screen::score_as(list[r], Kind::Momentum) {
        assert(rising.contains((v, r)));
        let k = choose|k: int| 0 <= k < rising.len() && rising[k] == (v, r);
        if k < h {
            assert(head[k] == rising[k]);
            assert(picks[k] == first[k]);
            assert(picks[k].row == r);
        } else {
            assert(h == half);
            assert forall|a: int| 0 <= a < half implies (#[trigger] picks[a]).score >= v
                && picks[a].kind == Kind::Momentum && screen::score_as(
                list[picks[a].row as int],
                Kind::Momentum,
            ) == Some(picks[a].score as int) by {
                assert(picks[a] == first[a]);
                assert(head[a] == rising[a]);
                assert(rising[a].0 >= rising[k].0);
                assert(screen::is_entry(list, rising[a], Kind::Momentum));
            }
        }
    }
}

/// The short list begins with an uptrend of the highest score, wherever there is an uptrend
/// and anything is asked for.
pub proof fn the_best_uptrend_leads_the_short_list(list: Seq<ListingView>, count: int, r: int)
    requires
        screen::listings_ok(list),
        count >= 1,
        0 <= r < list.len(),
        screen::score_as(list[r], Kind::Momentum) is Some,
    ensures
        ({
            let out = screen::short_list(list, count);
            &&& out.len() > 0
            &&& exists|best: int|
                0 <= best < list.len() && {
                    &&& (#[trigger] list[best]).row.thscode == out[0].thscode
                    &&& screen::score_as(list[best], Kind::Momentum) is Some
                    &&& screen::score_as(list[best], Kind::Momentum)->0 >= screen::score_as(
                        list[r],
                        Kind::Momentum,
                    )->0
                }
        }),
{
    let rising = screen::best_first(screen::pool(list, Kind::Momentum));
    let dips = screen::best_first(screen::pool(list, Kind::Pullback));
    lemma_ranked(list, Kind::Momentum);
    let v = screen::score_as(list[r], Kind::Momentum)->0;
    assert(rising.contains((v, r)));
    let k = choose|k: int| 0 <= k < rising.len() && rising[k] == (v, r);
    let h = decimal::min((count + 1) / 2, rising.len() as int);
    let head = rising.take(h);
    assert(head =~= rising.take(1) + rising.subrange(1, h));
    screen::lemma_filled_in_parts(
        list,
        Seq::empty(),
        rising.take(1),
        rising.subrange(1, h),
        count,
        Kind::Momentum,
    );
    let one = screen::filled(list, Seq::empty(), rising.take(1), count, Kind::Momentum);
    assert(screen::is_entry(list, rising[0], Kind::Momentum));
    assert(rising.take(1).drop_last() =~= Seq::empty());
    assert(rising.take(1).last() == rising[0]);
    assert(screen::filled(list, Seq::empty(), Seq::empty(), count, Kind::Momentum)
        =~= Seq::<Pick>::empty());
    assert(one.len() == 1 && one[0].row == rising[0].1);
    let first = screen::filled(list, Seq::empty(), head, count, Kind::Momentum);
    lemma_filled_starts(list, one, rising.subrange(1, h), count, Kind::Momentum);
    let second = screen::filled(list, first, dips, count, Kind::Pullback);
    lemma_filled_starts(list, first, dips, count, Kind::Pullback);
    lemma_filled_starts(list, second, rising.skip(h) + dips, count, Kind::Momentum);
    let picks = screen::picks_of(list, count);
    assert(first[0] == one[0] && second[0] == first[0] && picks[0] == second[0]);
    lemma_first_is_kept(list, picks);
    let best = rising[0].1;
    if k > 0 {
        assert(rising[0].0 >= rising[k].0);
    }
    assert(list[best].row.thscode == screen::short_list(list, count)[0].thscode);
}

proof fn lemma_first_is_kept(list: Seq<ListingView>, picks: Seq<Pick>)
    requires
        picks.len() > 0,
    ensures
        screen::spread_out(list, picks).len() > 0,
        screen::spread_out(list, picks)[0] == picks[0],
    decreases picks.len(),
{
    let short = picks.drop_last();
    if picks.len() > 1 {
        lemma_first_is_kept(list, short);
        assert(short[0] == picks[0]);
    } else {
        assert(short =~= Seq::empty());
        assert(screen::in_group(list, short, list[picks[0].row as int].group()) == 0);
        assert(screen::spread_out(list, short) =~= Seq::<Pick>::empty());
        assert(picks.last() == picks[0]);
    }
}

/// Filling up from a ranked pool takes from its top: a stock of the pool that is not among the
/// picks afterwards is left out because they are as many as asked for, and none that was added
/// has a lower score.
pub proof fn filling_takes_from_the_top(
    list: Seq<ListingView>,
    picks: Seq<Pick>,
    entries: Seq<(int, int)>,
    count: int,
    kind: Kind,
    i: int,
)
    requires
        list.len() <= usize::MAX,
        0 <= i < entries.len(),
        forall|a: int|
            0 <= a < entries.len() ==> 0 <= (#[trigger] entries[a]).1 < list.len() && 0
                <= entries[a].0 <= screen::SCORE_ONE,
        forall|a: int, b: int|
            0 <= a < b < entries.len() ==> (#[trigger] entries[a]).0 >= (#[trigger] entries[b]).0,
    ensures
        ({
            let out = screen::filled(list, picks, entries, count, kind);
            ||| exists|a: int|
                0 <= a < out.len() && list[#[trigger] out[a].row as int].row.thscode
                    == list[entries[i].1].row.thscode
            ||| {
                &&& out.len() >= count
                &&& forall|a: int|
                    picks.len() <= a < out.len() ==> (#[trigger] out[a]).score >= entries[i].0
            }
        }),
    decreases entries.len(),
{
    let n = entries.len() - 1;
    let short = entries.drop_last();
    let before = screen::filled(list, picks, short, count, kind);
    let out = screen::filled(list, picks, entries, count, kind);
    let code = list[entries[i].1].row.thscode;
    assert forall|a: int| 0 <= a < short.len() implies 0 <= (#[trigger] short[a]).1 < list.len()
        && 0 <= short[a].0 <= screen::SCORE_ONE by {
        assert(short[a] == entries[a]);
    }
    assert forall|a: int, b: int| 0 <= a < b < short.len() implies (#[trigger] short[a]).0 >= (
    #[trigger] short[b]).0 by {
        assert(short[a] == entries[a] && short[b] == entries[b]);
    }
    if i < n {
        filling_takes_from_the_top(list, picks, short, count, kind, i);
        if exists|a: int|
            0 <= a < before.len() && list[#[trigger] before[a].row as int].row.thscode == code {
            let a = choose|a: int|
                0 <= a < before.len() && list[#[trigger] before[a].row as int].row.thscode == code;
            assert(out[a] == before[a]);
            assert(list[out[a].row as int].row.thscode == code);
        }
    } else if out.len() > before.len() {
        assert(list[out[before.len() as int].row as int].row.thscode == code);
    } else if screen::has_code(list, before, code) {
        let a = choose|a: int|
            0 <= a < before.len() && list[#[trigger] before[a].row as int].row.thscode == code;
        assert(list[out[a].row as int].row.thscode == code);
    } else {
        lemma_added(list, picks, short, count, kind, entries[n].0);
    }
}

proof fn lemma_added(
    list: Seq<ListingView>,
    picks: Seq<Pick>,
    entries: Seq<(int, int)>,
    count: int,
    kind: Kind,
    least: int,
)
    requires
        forall|a: int|
            0 <= a < entries.len() ==> least <= (#[trigger] entries[a]).0 <= screen::SCORE_ONE && 0
                <= entries[a].0,
    ensures
        forall|a: int|
            picks.len() <= a < screen::filled(list, picks, entries, count, kind).len() ==> (
            #[trigger] screen::filled(list, picks, entries, count, kind)[a]).score >= least,
    decreases entries.len(),
{
    if entries.len() > 0 {
        let short = entries.drop_last();
        let n = entries.len() - 1;
        assert forall|a: int| 0 <= a < short.len() implies least <= (#[trigger] short[a]).0
            <= screen::SCORE_ONE && 0 <= short[a].0 by {
            assert(short[a] == entries[a]);
        }
        lemma_added(list, picks, short, count, kind, least);
        lemma_filled_starts(list, picks, short, count, kind);
        assert(least <= entries[n].0 <= screen::SCORE_ONE && 0 <= entries[n].0);
    }
}

/// The scores of a short list run from 0.3 to 1 in the order of the picks: a pick with a
/// higher score has no lower score there, the highest one has 1, and the lowest one 0.3 where
/// they are not nearly equal.
pub proof fn candidates_keep_the_order_of_their_scores(
    list: Seq<ListingView>,
    count: int,
    i: int,
    j: int,
)
    requires
        screen::listings_ok(list),
        count >= 0,
        0 <= i < screen::spread_out(list, screen::picks_of(list, count)).len(),
        0 <= j < screen::spread_out(list, screen::picks_of(list, count)).len(),
    ensures
        ({
            let kept = screen::spread_out(list, screen::picks_of(list, count));
            let out = screen::short_list(list, count);
            &&& out.len() == kept.len()
            &&& out[i].thscode == list[kept[i].row as int].row.thscode
            &&& out[i].name == list[kept[i].row as int].name
            &&& out[i].price == list[kept[i].row as int].row.price
            &&& out[i].pct == list[kept[i].row as int].row.pct
            &&& out[i].volume_ratio == list[kept[i].row as int].row.volume_ratio
            &&& kept[i].score <= kept[j].score ==> out[i].score <= out[j].score
            &&& (forall|k: int| 0 <= k < kept.len() ==> kept[i].score <= (#[trigger] kept[k]).score)
                ==> out[i].score == 300_000
            &&& (forall|k: int| 0 <= k < kept.len() ==> kept[i].score >= (#[trigger] kept[k]).score)
                && kept[j].score + 100_000_000 <= kept[i].score ==> out[i].score == 1_000_000
        }),
{
    let kept = screen::spread_out(list, screen::picks_of(list, count));
    let out = screen::short_list(list, count);
    let low = screen::lowest(kept);
    let spread = decimal::max(screen::highest(kept) - low, screen::MIN_SPREAD as int);
    screen::the_short_list_is_sound(list, count, Seq::empty());
    let den = 10 * spread;
    let ni = 3 * spread + 7 * (kept[i].score - low);
    let nj = 3 * spread + 7 * (kept[j].score - low);
    let unit = 1_000_000int;
    lemma_bounds(kept, i);
    lemma_bounds(kept, j);
    lemma_ends(kept);
    decimal::lemma_div_round_monotone(300_000 * den, ni * unit, den);
    decimal::lemma_div_round_monotone(ni * unit, 1_000_000 * den, den);
    decimal::lemma_div_round_monotone(300_000 * den, nj * unit, den);
    decimal::lemma_div_round_monotone(nj * unit, 1_000_000 * den, den);
    decimal::lemma_div_round_exact(300_000, den);
    decimal::lemma_div_round_exact(1_000_000, den);
    if kept[i].score <= kept[j].score {
        decimal::lemma_div_round_monotone(ni * unit, nj * unit, den);
    }
    if forall|k: int| 0 <= k < kept.len() ==> kept[i].score <= (#[trigger] kept[k]).score {
        let k = choose|k: int| 0 <= k < kept.len() && kept[k].score == low;
        assert(kept[i].score <= kept[k].score);
        assert(kept[i].score == low);
        assert(ni * unit == 300_000 * den);
    }
    if (forall|k: int| 0 <= k < kept.len() ==> kept[i].score >= (#[trigger] kept[k]).score)
        && kept[j].score + 100_000_000 <= kept[i].score {
        let k = choose|k: int| 0 <= k < kept.len() && kept[k].score == screen::highest(kept);
        assert(kept[i].score >= kept[k].score);
        assert(kept[i].score == screen::highest(kept));
        assert(spread == kept[i].score - low);
        assert(ni * unit == 1_000_000 * den);
    }
}

proof fn lemma_bounds(picks: Seq<Pick>, i: int)
    requires
        0 <= i < picks.len(),
    ensures
        screen::lowest(picks) <= picks[i].score <= screen::highest(picks),
    decreases picks.len(),
{
    if picks.len() > 1 && i < picks.len() - 1 {
        lemma_bounds(picks.drop_last(), i);
        assert(picks.drop_last()[i] == picks[i]);
    }
}

proof fn lemma_ends(picks: Seq<Pick>)
    requires
        picks.len() > 0,
    ensures
        exists|k: int| 0 <= k < picks.len() && picks[k].score == screen::lowest(picks),
        exists|k: int| 0 <= k < picks.len() && picks[k].score == screen::highest(picks),
    decreases picks.len(),
{
    let n = picks.len() - 1;
    if picks.len() == 1 {
        assert(picks[0].score == screen::lowest(picks));
        assert(picks[0].score == screen::highest(picks));
    } else {
        let short = picks.drop_last();
        lemma_ends(short);
        let a = choose|k: int| 0 <= k < short.len() && short[k].score == screen::lowest(short);
        let b = choose|k: int| 0 <= k < short.len() && short[k].score == screen::highest(short);
        assert(picks[a] == short[a] && picks[b] == short[b]);
        if screen::lowest(picks) == picks[n].score {
        } else {
            assert(picks[a].score == screen::lowest(picks));
        }
        if screen::highest(picks) == picks[n].score {
        } else {
            assert(picks[b].score == screen::highest(picks));
        }
    }
}

/// A pick is left out of the short list exactly where two picks before it are of its industry,
/// or of its board where no industry is known.
pub proof fn two_of_an_industry_are_kept(list: Seq<ListingView>, picks: Seq<Pick>, p: Pick)
    ensures
        ({
            let group = list[p.row as int].group();
            let kept = screen::spread_out(list, picks);
            screen::spread_out(list, picks.push(p)) == if screen::in_group(list, picks, group) >= 2 {
                kept
            } else {
                kept.push(p)
            }
        }),
        screen::in_group(list, picks.push(p), list[p.row as int].group()) == screen::in_group(
            list,
            picks,
            list[p.row as int].group(),
        ) + 1,
        screen::in_group(list, Seq::empty(), list[p.row as int].group()) == 0,
        list[p.row as int].industry matches Some(s) ==> list[p.row as int].group() == s,
{
    assert(picks.push(p).drop_last() =~= picks);
}

/// A candidate has a turnover of 30 million yuan or more, is up less than 9.5%, and its name
/// shows neither special treatment nor delisting.
pub proof fn candidates_pass_the_hard_filters(list: Seq<ListingView>, count: int, i: int)
    requires
        screen::listings_ok(list),
        count >= 0,
        0 <= i < screen::short_list(list, count).len(),
    ensures
        exists|k: int|
            0 <= k < list.len() && {
                let l = #[trigger] list[k];
                &&& l.row.thscode == screen::short_list(list, count)[i].thscode
                &&& l.row.turnover >= 30_000_000 * 1_000_000
                &&& l.row.pct < 9_500_000
                &&& forall|a: int|
                    0 <= a < l.name.len() ==> #[trigger] l.name[a] != '退' && !(l.name[a] == 'S' && a
                        + 1 < l.name.len() && l.name[a + 1] == 'T')
            },
{
    screen::the_short_list_is_sound(list, count, Seq::empty());
    let c = screen::short_list(list, count)[i];
    assert(screen::is_listed(list, c));
    let k = choose|k: int|
        0 <= k < list.len() && (#[trigger] list[k]).row.thscode == c.thscode && list[k].passes()
            && list[k].name == c.name && list[k].row.price == c.price;
    let name = list[k].name;
    reveal_strlit("ST");
    reveal_strlit("退");
    assert forall|a: int| 0 <= a < name.len() implies #[trigger] name[a] != '退' && !(name[a] == 'S'
        && a + 1 < name.len() && name[a + 1] == 'T') by {
        if name[a] == '退' {
            assert(name.subrange(a, a + 1) =~= "退"@);
            assert(text::occurs_at(name, "退"@, a));
        }
        if name[a] == 'S' && a + 1 < name.len() && name[a + 1] == 'T' {
            assert(name.subrange(a, a + 2) =~= "ST"@);
            assert(text::occurs_at(name, "ST"@, a));
        }
    }
}

/// A stock that passes as an uptrend or a pullback is left out of the picks only where they are
/// as many as asked for.
pub proof fn nothing_is_left_out_while_there_is_room(
    list: Seq<ListingView>,
    count: int,
    r: int,
    kind: Kind,
)
    requires
        screen::listings_ok(list),
        count >= 0,
        0 <= r < list.len(),
        screen::score_as(list[r], kind) is Some,
    ensures
        ({
            let picks = screen::picks_of(list, count);
            ||| picks.len() >= count
            ||| exists|a: int|
                0 <= a < picks.len() && list[#[trigger] picks[a].row as int].row.thscode
                    == list[r].row.thscode
        }),
{
    let rising = screen::best_first(screen::pool(list, Kind::Momentum));
    let dips = screen::best_first(screen::pool(list, Kind::Pullback));
    lemma_ranked(list, Kind::Momentum);
    lemma_ranked(list, Kind::Pullback);
    let half = decimal::min((count + 1) / 2, rising.len() as int);
    let head = rising.take(half);
    let first = screen::filled(list, Seq::empty(), head, count, Kind::Momentum);
    let second = screen::filled(list, first, dips, count, Kind::Pullback);
    let tail = rising.skip(half) + dips;
    let picks = screen::picks_of(list, count);
    let code = list[r].row.thscode;
    let e = (screen::score_as(list[r], kind)->0, r);
    if kind == Kind::Momentum {
        assert(rising.contains(e));
        let k = choose|k: int| 0 <= k < rising.len() && rising[k] == e;
        if k < half {
            assert(head[k] == e);
            lemma_taken_or_full(list, Seq::empty(), head, count, kind, k);
            lemma_still_there(list, first, dips, count, Kind::Pullback, code);
            lemma_still_there(list, second, tail, count, Kind::Momentum, code);
        } else {
            assert(tail[k - half] == e);
            assert forall|i: int| 0 <= i < tail.len() implies 0 <= (#[trigger] tail[i]).1
                < list.len() by {
                lemma_tail_entry(list, rising, dips, half, i);
            }
            lemma_taken_or_full(list, second, tail, count, Kind::Momentum, k - half);
        }
    } else {
        assert(dips.contains(e));
        let k = choose|k: int| 0 <= k < dips.len() && dips[k] == e;
        lemma_taken_or_full(list, first, dips, count, Kind::Pullback, k);
        lemma_still_there(list, second, tail, count, Kind::Momentum, code);
    }
}

proof fn lemma_tail_entry(
    list: Seq<ListingView>,
    rising: Seq<(int, int)>,
    dips: Seq<(int, int)>,
    half: int,
    i: int,
)
    requires
        0 <= half <= rising.len(),
        0 <= i < (rising.skip(half) + dips).len(),
        forall|k: int|
            0 <= k < rising.len() ==> screen::is_entry(list, #[trigger] rising[k], Kind::Momentum),
        forall|k: int|
            0 <= k < dips.len() ==> screen::is_entry(list, #[trigger] dips[k], Kind::Pullback),
    ensures
        0 <= (rising.skip(half) + dips)[i].1 < list.len(),
{
    let tail = rising.skip(half) + dips;
    if i < rising.len() - half {
        assert(tail[i] == rising[half + i]);
    } else {
        assert(tail[i] == dips[i - (rising.len() - half)]);
    }
}

proof fn lemma_still_there(
    list: Seq<ListingView>,
    picks: Seq<Pick>,
    entries: Seq<(int, int)>,
    count: int,
    kind: Kind,
    code: Seq<char>,
)
    ensures
        ({
            let out = screen::filled(list, picks, entries, count, kind);
            &&& picks.len() <= out.len()
            &&& screen::has_code(list, picks, code) ==> screen::has_code(list, out, code)
        }),
{
    lemma_filled_starts(list, picks, entries, count, kind);
    let out = screen::filled(list, picks, entries, count, kind);
    if screen::has_code(list, picks, code) {
        let a = choose|a: int|
            0 <= a < picks.len() && list[#[trigger] picks[a].row as int].row.thscode == code;
        assert(out[a] == picks[a]);
        assert(list[out[a].row as int].row.thscode == code);
    }
}

proof fn lemma_taken_or_full(
    list: Seq<ListingView>,
    picks: Seq<Pick>,
    entries: Seq<(int, int)>,
    count: int,
    kind: Kind,
    i: int,
)
    requires
        list.len() <= usize::MAX,
        0 <= i < entries.len(),
        0 <= entries[i].1 < list.len(),
    ensures
        ({
            let out = screen::filled(list, picks, entries, count, kind);
            out.len() >= count || screen::has_code(list, out, list[entries[i].1].row.thscode)
        }),
    decreases entries.len(),
{
    let short = entries.drop_last();
    let before = screen::filled(list, picks, short, count, kind);
    let out = screen::filled(list, picks, entries, count, kind);
    let code = list[entries[i].1].row.thscode;
    if i < short.len() {
        assert(short[i] == entries[i]);
        lemma_taken_or_full(list, picks, short, count, kind, i);
        if screen::has_code(list, before, code) {
            let a = choose|a: int|
                0 <= a < before.len() && list[#[trigger] before[a].row as int].row.thscode == code;
            assert(out[a] == before[a]);
            assert(list[out[a].row as int].row.thscode == code);
        }
    } else if out.len() > before.len() {
        assert(list[out[before.len() as int].row as int].row.thscode == code);
    }
}

/// The picks that are pullbacks are the best ones: a stock that passes as a pullback and is not
/// picked at all has no higher score than any of them.
pub proof fn the_picked_pullbacks_are_the_best(list: Seq<ListingView>, count: int, r: int, a: int)
    requires
        screen::listings_ok(list),
        count >= 0,
        0 <= r < list.len(),
        screen::score_as(list[r], Kind::Pullback) is Some,
        0 <= a < screen::picks_of(list, count).len(),
        screen::picks_of(list, count)[a].kind == Kind::Pullback,
        !screen::has_code(list, screen::picks_of(list, count), list[r].row.thscode),
    ensures
        screen::picks_of(list, count)[a].score >= screen::score_as(list[r], Kind::Pullback)->0,
{
    let rising = screen::best_first(screen::pool(list, Kind::Momentum));
    let dips = screen::best_first(screen::pool(list, Kind::Pullback));
    lemma_ranked(list, Kind::Pullback);
    let half = decimal::min((count + 1) / 2, rising.len() as int);
    let head = rising.take(half);
    let first = screen::filled(list, Seq::empty(), head, count, Kind::Momentum);
    let second = screen::filled(list, first, dips, count, Kind::Pullback);
    let tail = rising.skip(half) + dips;
    let picks = screen::picks_of(list, count);
    let code = list[r].row.thscode;
    let e = (screen::score_as(list[r], Kind::Pullback)->0, r);
    assert(dips.contains(e));
    let k = choose|k: int| 0 <= k < dips.len() && dips[k] == e;
    assert forall|i: int| 0 <= i < dips.len() implies 0 <= (#[trigger] dips[i]).1 < list.len()
        && 0 <= dips[i].0 <= screen::SCORE_ONE by {
        assert(screen::is_entry(list, dips[i], Kind::Pullback));
    }
    filling_takes_from_the_top(list, first, dips, count, Kind::Pullback, k);
    lemma_still_there(list, second, tail, count, Kind::Momentum, code);
    lemma_filled_starts(list, second, tail, count, Kind::Momentum);
    lemma_filled_starts(list, first, dips, count, Kind::Pullback);
    lemma_kinds(list, Seq::empty(), head, count, Kind::Momentum);
    lemma_kinds(list, second, tail, count, Kind::Momentum);
    assert(!screen::has_code(list, second, code));
    if a < second.len() {
        assert(picks[a] == second[a]);
        if a < first.len() {
            assert(second[a] == first[a]);
        }
    }
}

proof fn lemma_kinds(
    list: Seq<ListingView>,
    picks: Seq<Pick>,
    entries: Seq<(int, int)>,
    count: int,
    kind: Kind,
)
    ensures
        forall|a: int|
            picks.len() <= a < screen::filled(list, picks, entries, count, kind).len() ==> (
            #[trigger] screen::filled(list, picks, entries, count, kind)[a]).kind == kind,
    decreases entries.len(),
{
    if entries.len() > 0 {
        let short = entries.drop_last();
        lemma_kinds(list, picks, short, count, kind);
        let before = screen::filled(list, picks, short, count, kind);
        let out = screen::filled(list, picks, entries, count, kind);
        assert forall|a: int| picks.len() <= a < out.len() implies (#[trigger] out[a]).kind
            == kind by {
            if a < before.len() {
                assert(out[a] == before[a]);
            }
        }
    }
}

/// A stock is a candidate exactly where it passes the hard filters and its chart has the shape:
/// a turnover of 30 million yuan or more, a change below 9.5%, a name without special treatment
/// or delisting, and a score as an uptrend or as a pullback.
pub proof fn candidates_are_those_that_pass(l: ListingView, kind: Kind)
    ensures
        screen::score_as(l, kind) is Some <==> {
            &&& l.row.turnover >= 30_000_000 * 1_000_000
            &&& l.row.pct < 9_500_000
            &&& !text::contains_part(l.name, "ST"@)
            &&& !text::contains_part(l.name, "退"@)
            &&& match kind {
                Kind::Momentum => screen::momentum_score(l.row) is Some,
                Kind::Pullback => screen::pullback_score(l.row) is Some,
            }
        },
        screen::score_as(l, kind) is Some ==> screen::score_as(l, kind) == match kind {
            Kind::Momentum => screen::momentum_score(l.row),
            Kind::Pullback => screen::pullback_score(l.row),
        },
{
}

} // verus!
