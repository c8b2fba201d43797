use vstd::prelude::*;

use super::completeness::{choice_of, dwarfs_of, holding, lists_type, window_start};
use super::lists::{
    lemma_filter_congruence, lemma_filter_keeps_distinct, lemma_filter_member,
    lemma_filter_rising, lemma_first_not_in_rest, lemma_rising_equal,
    lemma_rising_no_duplicates,
};
use super::enumerator::{
    asteroid_choices, built_layout, closed_on, combos, comet_choices, dwarf_choices, enumeration,
    layouts_of_asteroids, layouts_of_comets, layouts_of_dwarfs, layouts_of_splits, layouts_of_xs,
    leftover, lemma_combos_shape, nebula_choices, pairs, places, prime_places, rising,
    splits_well, taken_before_asteroids, unblocked, untaken, window_choices, window_mids,
    windows_upto, with_first, x_choices,
};
use super::model::{MapType, SectorType};
use super::origin::{
    lemma_origin_asteroids, lemma_origin_comets, lemma_origin_dwarfs, lemma_origin_xs, Choice,
};
use super::clue::holds_at;
use super::model::type_at;
use super::soundness::{
    dwarf_choice_fits, early_choice_fits, late_choice_fits, lemma_built_types,
    lemma_built_window, lemma_dwarf_choice, lemma_dwarf_window, lemma_early_choice,
    lemma_late_choice, lemma_taken_members, lemma_window_member,
};
use super::validity::{steps_from, window_holds, wrap};

verus! {

broadcast use {vstd::seq_lib::group_seq_properties, vstd::set::group_set_axioms};



/// The test that an item is one of a list.
pub open spec fn member_of(c: Seq<usize>) -> spec_fn(usize) -> bool {
    |x: usize| c.contains(x)
}

/// A combination of a list without repeats is what the list keeps of
/// itself when it keeps the items of the combination.
pub proof fn lemma_combination_is_filter(s: Seq<usize>, k: nat, i: int)
    requires
        s.no_duplicates(),
        0 <= i < combos(s, k).len(),
    ensures
        combos(s, k)[i] == s.filter(member_of(combos(s, k)[i])),
    decreases s.len(),
{
    let c = combos(s, k)[i];
    lemma_combos_shape(s, k, i);
    if s.len() == 0 {
        reveal(Seq::filter);
        assert(c =~= Seq::<usize>::empty());
    } else {
        let t = s.drop_first();
        assert(s =~= seq![s[0]] + t);
        t.lemma_filter_prepend(s[0], member_of(c));
        if k == 0 {
            assert(c =~= Seq::<usize>::empty());
            assert forall|j: int| 0 <= j < s.len() implies !member_of(c)(#[trigger] s[j]) by {}
            s.lemma_all_neg_filter_empty(member_of(c));
        } else {
            let fewer = combos(t, (k - 1) as nat);
            let with = with_first(s[0], fewer);
            assert(t.no_duplicates());
            assert forall|x: usize| t.contains(x) implies x != s[0] by {
                let w = choose|w: int| 0 <= w < t.len() && t[w] == x;
                assert(s[w + 1] == x);
            }
            if i < with.len() {
                let inner = fewer[i];
                lemma_combination_is_filter(t, (k - 1) as nat, i);
                lemma_combos_shape(t, (k - 1) as nat, i);
                assert(c == seq![s[0]] + inner);
                assert(c[0] == s[0]);
                assert forall|j: int| 0 <= j < t.len() implies member_of(c)(#[trigger] t[j])
                    == member_of(inner)(t[j]) by {
                    assert(t.contains(t[j]));
                    if inner.contains(t[j]) {
                        let w = choose|w: int| 0 <= w < inner.len() && inner[w] == t[j];
                        assert(c[w + 1] == t[j]);
                    }
                    if c.contains(t[j]) {
                        let w = choose|w: int| 0 <= w < c.len() && c[w] == t[j];
                        assert(w != 0);
                        assert(inner[w - 1] == t[j]);
                    }
                }
                lemma_filter_congruence(t, member_of(c), member_of(inner));
                assert(s.filter(member_of(c)) =~= seq![s[0]] + inner);
            } else {
                let m = i - with.len();
                lemma_combination_is_filter(t, k, m);
                lemma_combos_shape(t, k, m);
                assert(c == combos(t, k)[m]);
                if c.contains(s[0]) {
                    let w = choose|w: int| 0 <= w < c.len() && c[w] == s[0];
                    assert(t.contains(c[w]));
                }
                assert(s.filter(member_of(c)) =~= t.filter(member_of(c)));
            }
        }
    }
}

/// No way to pick items of a list without repeats comes twice.
pub proof fn lemma_combos_distinct(s: Seq<usize>, k: nat, i: int, j: int)
    requires
        s.no_duplicates(),
        0 <= i < combos(s, k).len(),
        0 <= j < combos(s, k).len(),
        combos(s, k)[i] == combos(s, k)[j],
    ensures
        i == j,
    decreases s.len(),
{
    if k == 0 {
    } else if s.len() == 0 {
    } else {
        let t = s.drop_first();
        let fewer = combos(t, (k - 1) as nat);
        let with = with_first(s[0], fewer);
        assert(t.no_duplicates());
        assert forall|x: usize| t.contains(x) implies x != s[0] by {
            let w = choose|w: int| 0 <= w < t.len() && t[w] == x;
            assert(s[w + 1] == x);
        }
        if i < with.len() && j < with.len() {
            assert(with[i] == seq![s[0]] + fewer[i]);
            assert(with[j] == seq![s[0]] + fewer[j]);
            assert(fewer[i] =~= with[i].drop_first());
            assert(fewer[j] =~= with[j].drop_first());
            lemma_combos_distinct(t, (k - 1) as nat, i, j);
        } else if i >= with.len() && j >= with.len() {
            lemma_combos_distinct(t, k, i - with.len(), j - with.len());
        } else {
            let (a, b) = if i < with.len() {
                (i, j)
            } else {
                (j, i)
            };
            let first = combos(s, k)[a];
            let second = combos(s, k)[b];
            assert(first == seq![s[0]] + fewer[a]);
            assert(first[0] == s[0]);
            lemma_combos_shape(t, k, b - with.len());
            assert(second == combos(t, k)[b - with.len()]);
            assert(t.contains(second[0]));
        }
    }
}


/// What a choice that the stages can make is known to be: what follows
/// from each stage for the places chosen.
pub open spec fn choice_fits(map_type: MapType, w: Choice) -> bool {
    &&& early_choice_fits(map_type.sector_count(), w)
    &&& late_choice_fits(map_type.sector_count(), w)
    &&& forall|i: int| 0 <= i < w.c.len() ==> #[trigger] w.c[i] < map_type.sector_count()
}

/// A choice that the stages can make fits.
pub proof fn lemma_choice_fits(map_type: MapType, w: Choice)
    requires
        w.chosen(map_type),
    ensures
        choice_fits(map_type, w),
{
    let n = map_type.sector_count();
    let start = lemma_dwarf_choice(map_type, w.c);
    assert forall|i: int| 0 <= i < w.c.len() implies #[trigger] w.c[i] < n by {}
    lemma_early_choice(n, w);
    lemma_late_choice(n, w);
}

/// What the layout of a choice holds, by the stage that chose the place.
pub open spec fn layout_lists(n: usize, l: Seq<SectorType>, w: Choice) -> bool {
    &&& l.len() == n
    &&& lists_type(w.c, l, SectorType::DwarfPlanet)
    &&& lists_type(w.b, l, SectorType::Asteroid)
    &&& forall|p: usize| (p < n && l[p as int] == SectorType::X) <==> p == w.f
    &&& forall|p: usize| (p < n && l[p as int] == SectorType::Comet) <==> (p == w.a.0 || p == w.a.1)
    &&& forall|p: usize|
        (p < n && l[p as int] == SectorType::Nebula) <==> (p == w.d.0 || p == w.d.1)
    &&& forall|p: usize|
        (p < n && (l[p as int] == SectorType::Nebula || l[p as int] == SectorType::Space)) <==> (p
            < n && !(taken_before_asteroids(w.c, w.f, w.a) + w.b).contains(p))
}

/// The layout of a choice that fits holds each type where the choice put
/// it.
pub proof fn lemma_layout_lists(map_type: MapType, w: Choice)
    requires
        choice_fits(map_type, w),
    ensures
        layout_lists(map_type.sector_count(), w.layout(map_type), w),
{
    let n = map_type.sector_count();
    let l = w.layout(map_type);
    assert forall|p: usize| p < n implies {
        &&& (l[p as int] == SectorType::DwarfPlanet <==> w.c.contains(p))
        &&& (l[p as int] == SectorType::Asteroid <==> w.b.contains(p))
        &&& (l[p as int] == SectorType::X <==> p == w.f)
        &&& (l[p as int] == SectorType::Comet <==> (p == w.a.0 || p == w.a.1))
        &&& (l[p as int] == SectorType::Nebula <==> (p == w.d.0 || p == w.d.1))
        &&& ((l[p as int] == SectorType::Nebula || l[p as int] == SectorType::Space) <==> !(
        taken_before_asteroids(w.c, w.f, w.a) + w.b).contains(p))
    } by {
        lemma_built_types(n, w, p);
        lemma_taken_members(w.c, w.f, w.a, w.d.0);
        lemma_taken_members(w.c, w.f, w.a, w.d.1);
    }
    assert forall|p: usize| w.c.contains(p) implies p < n by {
        let i = choose|i: int| 0 <= i < w.c.len() && w.c[i] == p;
    }
    assert forall|p: usize| w.b.contains(p) implies p < n by {
        let i = choose|i: int| 0 <= i < w.b.len() && w.b[i] == p;
    }
}

/// What a filter for a type leaves of a rising list is the rising list of
/// the items that hold the type.
proof fn lemma_filter_lists(
    pool: Seq<usize>,
    l: Seq<SectorType>,
    t: SectorType,
    target: Seq<usize>,
)
    requires
        rising(pool),
        rising(target),
        forall|x: usize| target.contains(x) <==> (pool.contains(x) && holding(l, t)(x)),
    ensures
        pool.filter(holding(l, t)) == target,
{
    lemma_filter_rising(pool, holding(l, t));
    let f = pool.filter(holding(l, t));
    assert forall|x: usize| f.contains(x) <==> target.contains(x) by {
        if f.contains(x) {
            lemma_filter_member(pool, holding(l, t), x);
        }
        if target.contains(x) {
            let i = choose|i: int| 0 <= i < pool.len() && pool[i] == x;
            pool.lemma_filter_contains(holding(l, t), i);
        }
    }
    lemma_rising_equal(f, target);
}

/// The places `0..n` rise and hold just the places below `n`.
proof fn lemma_places_hold(n: usize)
    ensures
        rising(places(n)),
        forall|x: usize| places(n).contains(x) <==> x < n,
{
    assert forall|x: usize| x < n implies places(n).contains(x) by {
        assert(places(n)[x as int] == x);
    }
}

/// The places that the later stages of a choice chose are items of the
/// lists that they chose from.
proof fn lemma_picked_from_pools(map_type: MapType, w: Choice)
    requires
        w.chosen(map_type),
    ensures
        ({
            let n = map_type.sector_count();
            let primes = prime_places(n).filter(untaken(w.c.push(w.f)));
            let pool = places(n).filter(untaken(taken_before_asteroids(w.c, w.f, w.a)));
            let rest = leftover(n, w.c, w.f, w.a, w.b);
            &&& rising(primes) && rising(pool) && rising(rest)
            &&& primes.contains(w.a.0) && primes.contains(w.a.1)
            &&& forall|i: int| 0 <= i < w.b.len() ==> pool.contains(#[trigger] w.b[i])
            &&& rest.contains(w.d.0) && rest.contains(w.d.1)
        }),
{
    let n = map_type.sector_count();
    let primes = prime_places(n).filter(untaken(w.c.push(w.f)));
    let taken = taken_before_asteroids(w.c, w.f, w.a);
    let pool = places(n).filter(untaken(taken));
    let rest = leftover(n, w.c, w.f, w.a, w.b);
    lemma_places_hold(n);
    assert(rising(prime_places(n)));
    lemma_filter_rising(prime_places(n), untaken(w.c.push(w.f)));
    lemma_filter_rising(places(n), untaken(taken));
    lemma_filter_rising(places(n), untaken(taken + w.b));
    let k = choose|k: int| 0 <= k < pairs(primes).len() && pairs(primes)[k] == w.a;
    lemma_combos_shape(primes, 2, k);
    assert(primes.contains(combos(primes, 2)[k][0]));
    assert(primes.contains(combos(primes, 2)[k][1]));
    lemma_filter_member(combos(pool, 4), closed_on(n), w.b);
    let m = choose|m: int| 0 <= m < combos(pool, 4).len() && combos(pool, 4)[m] == w.b;
    lemma_combos_shape(pool, 4, m);
    lemma_filter_member(pairs(rest), splits_well(n, rest), w.d);
    let q = choose|q: int| 0 <= q < pairs(rest).len() && pairs(rest)[q] == w.d;
    lemma_combos_shape(rest, 2, q);
    assert(rest.contains(combos(rest, 2)[q][0]));
    assert(rest.contains(combos(rest, 2)[q][1]));
}

/// The list of one item.
proof fn lemma_single_rises(x: usize)
    ensures
        rising(seq![x]),
        forall|y: usize| seq![x].contains(y) <==> y == x,
{
    assert(seq![x][0] == x);
}

/// The list of two items, the smaller first.
proof fn lemma_pair_rises(x: usize, y: usize)
    requires
        x < y,
    ensures
        rising(seq![x, y]),
        forall|z: usize| seq![x, y].contains(z) <==> (z == x || z == y),
{
    assert(seq![x, y][0] == x);
    assert(seq![x, y][1] == y);
}

/// What the later stages chose for the layout of a choice is what the
/// choice holds, if the dwarf planets are.
proof fn lemma_later_stages_recovered(map_type: MapType, w: Choice)
    requires
        w.chosen(map_type),
        dwarfs_of(map_type, w.layout(map_type)) == w.c,
    ensures
        choice_of(map_type, w.layout(map_type)) == w,
{
    let n = map_type.sector_count();
    let l = w.layout(map_type);
    lemma_choice_fits(map_type, w);
    lemma_layout_lists(map_type, w);
    lemma_picked_from_pools(map_type, w);
    lemma_places_hold(n);
    lemma_single_rises(w.f);
    lemma_filter_lists(places(n), l, SectorType::X, seq![w.f]);
    let f = places(n).filter(holding(l, SectorType::X))[0];
    assert(f == w.f);
    lemma_pair_rises(w.a.0, w.a.1);
    let primes = prime_places(n).filter(untaken(w.c.push(w.f)));
    lemma_filter_lists(primes, l, SectorType::Comet, seq![w.a.0, w.a.1]);
    let comets = primes.filter(holding(l, SectorType::Comet));
    assert((comets[0], comets[1]) == w.a);
    let pool = places(n).filter(untaken(taken_before_asteroids(w.c, w.f, w.a)));
    assert forall|x: usize| w.b.contains(x) implies pool.contains(x) by {
        let i = choose|i: int| 0 <= i < w.b.len() && w.b[i] == x;
    }
    lemma_filter_lists(pool, l, SectorType::Asteroid, w.b);
    lemma_pair_rises(w.d.0, w.d.1);
    let rest = leftover(n, w.c, w.f, w.a, w.b);
    lemma_filter_lists(rest, l, SectorType::Nebula, seq![w.d.0, w.d.1]);
    let nebulae = rest.filter(holding(l, SectorType::Nebula));
    assert((nebulae[0], nebulae[1]) == w.d);
}

/// The window of the dwarf planets of a layout of the large board begins
/// at one place only.
proof fn lemma_window_start_unique(l: Seq<SectorType>, c: Seq<usize>, start: usize, other: int)
    requires
        l.len() == 18,
        lists_type(c, l, SectorType::DwarfPlanet),
        c.len() == 4,
        start < 18,
        forall|i: int| 0 <= i < c.len() ==> c[i] < 18 && steps_from(18, start + 1, c[i] + 1) <= 5,
        window_holds(l, other),
    ensures
        other == start + 1,
{
    let t = SectorType::DwarfPlanet;
    assert(holds_at(l, other, t));
    assert(c.contains((other - 1) as usize));
    let i = choose|i: int| 0 <= i < c.len() && c[i] == (other - 1) as usize;
    let k = steps_from(18, start + 1, other);
    assert(0 <= k <= 5);
    let end = wrap(18, other + 5);
    assert(holds_at(l, end, t));
    assert(c.contains((end - 1) as usize));
    let j = choose|j: int| 0 <= j < c.len() && c[j] == (end - 1) as usize;
    assert(steps_from(18, start + 1, end) <= 5);
}

/// What the first stage chose for the layout of a choice on the large
/// board is what the choice holds.
proof fn lemma_dwarfs_recovered_expert(w: Choice)
    requires
        w.chosen(MapType::Expert),
    ensures
        dwarfs_of(MapType::Expert, w.layout(MapType::Expert)) == w.c,
{
    let t = SectorType::DwarfPlanet;
    let l = w.layout(MapType::Expert);
    lemma_choice_fits(MapType::Expert, w);
    lemma_layout_lists(MapType::Expert, w);
    let begun = lemma_dwarf_choice(MapType::Expert, w.c);
    lemma_dwarf_window(w.c, begun);
    lemma_built_window(w, begun);
    assert(window_holds(l, begun + 1));
    let found = choose|start: int| window_holds(l, start);
    lemma_window_start_unique(l, w.c, begun, found);
    assert(window_start(l) == begun);
    lemma_between_recovered(l, w.c, begun);
}

/// The two dwarf planets between the ends of the window, as the layout
/// shows them, are those that the first stage chose.
proof fn lemma_between_recovered(l: Seq<SectorType>, c: Seq<usize>, start: usize)
    requires
        l.len() == 18,
        start < 18,
        lists_type(c, l, SectorType::DwarfPlanet),
        dwarf_choices(MapType::Expert).contains(c),
        c.len() == 4,
        c[0] == start,
    ensures
        seq![
            start,
            ((start + 5) % 18) as usize,
            window_mids(18, start).filter(holding(l, SectorType::DwarfPlanet))[0],
            window_mids(18, start).filter(holding(l, SectorType::DwarfPlanet))[1],
        ] == c,
{
    let t = SectorType::DwarfPlanet;
    let listed = lemma_window_member(18, 18, c);
    let choices = window_choices(18, listed);
    let k = choose|k: int| 0 <= k < choices.len() && choices[k] == c;
    let mids = window_mids(18, listed);
    let cb = combos(mids, 2)[k];
    assert(c == seq![listed, ((listed + 5) % 18) as usize, cb[0], cb[1]]);
    assert(listed == start);
    assert(mids.no_duplicates());
    lemma_combos_shape(mids, 2, k);
    lemma_combination_is_filter(mids, 2, k);
    assert(c[1] == ((start + 5) % 18) as usize && c[2] == cb[0] && c[3] == cb[1]);
    assert forall|i: int| 0 <= i < mids.len() implies member_of(cb)(#[trigger] mids[i])
        == holding(l, t)(mids[i]) by {
        let x = mids[i];
        if cb.contains(x) {
            let j = choose|j: int| 0 <= j < cb.len() && cb[j] == x;
            assert(c[j + 2] == x);
            assert(c.contains(x));
        }
        if holding(l, t)(x) {
            assert(c.contains(x));
            let j = choose|j: int| 0 <= j < c.len() && c[j] == x;
            assert(j >= 2);
            assert(cb[j - 2] == x);
        }
    }
    lemma_filter_congruence(mids, member_of(cb), holding(l, t));
    let between = mids.filter(holding(l, t));
    assert(between == cb);
    assert(seq![start, ((start + 5) % 18) as usize, between[0], between[1]] =~= c);
}

/// What the five stages chose for a layout is recovered from the layout:
/// no two choices make the same layout.
pub proof fn lemma_choice_recovered(map_type: MapType, w: Choice)
    requires
        w.chosen(map_type),
    ensures
        choice_of(map_type, w.layout(map_type)) == w,
{
    let l = w.layout(map_type);
    match map_type {
        MapType::Standard => {
            lemma_choice_fits(map_type, w);
            lemma_layout_lists(map_type, w);
            let begun = lemma_dwarf_choice(map_type, w.c);
            lemma_places_hold(12);
            assert(w.c =~= seq![w.c[0]]);
            lemma_single_rises(w.c[0]);
            lemma_filter_lists(places(12), l, SectorType::DwarfPlanet, w.c);
        },
        MapType::Expert => {
            lemma_dwarfs_recovered_expert(w);
        },
    }
    lemma_later_stages_recovered(map_type, w);
}

/// No pair of items of a list without repeats comes twice among its pairs.
pub proof fn lemma_pairs_distinct(s: Seq<usize>)
    requires
        s.no_duplicates(),
    ensures
        pairs(s).no_duplicates(),
{
    assert forall|i: int, j: int|
        0 <= i < pairs(s).len() && 0 <= j < pairs(s).len() && i != j implies pairs(s)[i] != pairs(
        s,
    )[j] by {
        if pairs(s)[i] == pairs(s)[j] {
            lemma_combos_shape(s, 2, i);
            lemma_combos_shape(s, 2, j);
            assert(combos(s, 2)[i] =~= combos(s, 2)[j]);
            lemma_combos_distinct(s, 2, i, j);
        }
    }
}

/// What each stage offers, given the stages before it, it offers once.
pub proof fn lemma_stages_offer_once(
    n: usize,
    c: Seq<usize>,
    f: usize,
    a: (usize, usize),
    b: Seq<usize>,
)
    ensures
        x_choices(n, c).no_duplicates(),
        comet_choices(n, c, f).no_duplicates(),
        asteroid_choices(n, c, f, a).no_duplicates(),
        nebula_choices(n, leftover(n, c, f, a, b)).no_duplicates(),
{
    lemma_places_hold(n);
    lemma_filter_rising(places(n), unblocked(n, c));
    lemma_rising_no_duplicates(x_choices(n, c));
    assert(rising(prime_places(n)));
    let primes = prime_places(n).filter(untaken(c.push(f)));
    lemma_filter_rising(prime_places(n), untaken(c.push(f)));
    lemma_rising_no_duplicates(primes);
    lemma_pairs_distinct(primes);
    let pool = places(n).filter(untaken(taken_before_asteroids(c, f, a)));
    lemma_filter_rising(places(n), untaken(taken_before_asteroids(c, f, a)));
    lemma_rising_no_duplicates(pool);
    assert forall|i: int, j: int|
        0 <= i < combos(pool, 4).len() && 0 <= j < combos(pool, 4).len() && i != j implies combos(
        pool,
        4,
    )[i] != combos(pool, 4)[j] by {
        if combos(pool, 4)[i] == combos(pool, 4)[j] {
            lemma_combos_distinct(pool, 4, i, j);
        }
    }
    lemma_filter_keeps_distinct(combos(pool, 4), closed_on(n));
    let rest = leftover(n, c, f, a, b);
    lemma_filter_rising(places(n), untaken(taken_before_asteroids(c, f, a) + b));
    lemma_rising_no_duplicates(rest);
    lemma_pairs_distinct(rest);
    lemma_filter_keeps_distinct(pairs(rest), splits_well(n, rest));
}

/// The first stage offers each choice of a window once.
proof fn lemma_window_offers_once(start: usize)
    requires
        start < 18,
    ensures
        window_choices(18, start).no_duplicates(),
        forall|i: int|
            0 <= i < window_choices(18, start).len() ==> (#[trigger] window_choices(
                18,
                start,
            )[i])[0] == start,
{
    let mids = window_mids(18, start);
    let choices = window_choices(18, start);
    assert(mids.no_duplicates());
    assert forall|i: int, j: int|
        0 <= i < choices.len() && 0 <= j < choices.len() && i != j implies choices[i]
        != choices[j] by {
        if choices[i] == choices[j] {
            lemma_combos_shape(mids, 2, i);
            lemma_combos_shape(mids, 2, j);
            assert(choices[i][2] == combos(mids, 2)[i][0]);
            assert(choices[i][3] == combos(mids, 2)[i][1]);
            assert(choices[j][2] == combos(mids, 2)[j][0]);
            assert(choices[j][3] == combos(mids, 2)[j][1]);
            assert(combos(mids, 2)[i] =~= combos(mids, 2)[j]);
            lemma_combos_distinct(mids, 2, i, j);
        }
    }
}

/// The first stage offers each choice of the windows once.
proof fn lemma_windows_offer_once(upto: usize)
    requires
        upto <= 18,
    ensures
        windows_upto(18, upto).no_duplicates(),
    decreases upto,
{
    if upto > 0 {
        let before = windows_upto(18, (upto - 1) as usize);
        let last = window_choices(18, (upto - 1) as usize);
        lemma_windows_offer_once((upto - 1) as usize);
        lemma_window_offers_once((upto - 1) as usize);
        let all = before + last;
        assert forall|i: int, j: int| 0 <= i < all.len() && 0 <= j < all.len() && i
            != j implies all[i] != all[j] by {
            if all[i] == all[j] {
                if i < before.len() && j >= before.len() {
                    assert(before.contains(before[i]));
                    let start = lemma_window_member(18, (upto - 1) as usize, before[i]);
                    lemma_window_offers_once(start);
                    let k = choose|k: int|
                        0 <= k < window_choices(18, start).len() && window_choices(18, start)[k]
                            == before[i];
                    assert(before[i][0] == start);
                    assert(last[j - before.len()][0] == upto - 1);
                } else if j < before.len() && i >= before.len() {
                    assert(before.contains(before[j]));
                    let start = lemma_window_member(18, (upto - 1) as usize, before[j]);
                    lemma_window_offers_once(start);
                    let k = choose|k: int|
                        0 <= k < window_choices(18, start).len() && window_choices(18, start)[k]
                            == before[j];
                    assert(before[j][0] == start);
                    assert(last[i - before.len()][0] == upto - 1);
                }
            }
        }
    }
}

/// The first stage offers each choice once.
pub proof fn lemma_dwarfs_offered_once(map_type: MapType)
    ensures
        dwarf_choices(map_type).no_duplicates(),
{
    match map_type {
        MapType::Standard => {
            let choices = dwarf_choices(map_type);
            assert forall|i: int, j: int|
                0 <= i < choices.len() && 0 <= j < choices.len() && i != j implies choices[i]
                != choices[j] by {
                assert(choices[i][0] == i as usize);
                assert(choices[j][0] == j as usize);
            }
        },
        MapType::Expert => {
            lemma_windows_offer_once(18);
        },
    }
}

/// Whether the first stages chose what they can choose.
pub open spec fn can_choose(
    map_type: MapType,
    depth: int,
    c: Seq<usize>,
    f: usize,
    a: (usize, usize),
    b: Seq<usize>,
) -> bool {
    let n = map_type.sector_count();
    &&& depth >= 1 ==> dwarf_choices(map_type).contains(c)
    &&& depth >= 2 ==> x_choices(n, c).contains(f)
    &&& depth >= 3 ==> comet_choices(n, c, f).contains(a)
    &&& depth >= 4 ==> asteroid_choices(n, c, f, a).contains(b)
}


/// No layout comes twice among the layouts of one choice of the first four
/// stages.
proof fn lemma_splits_once(
    map_type: MapType,
    c: Seq<usize>,
    f: usize,
    a: (usize, usize),
    b: Seq<usize>,
    i: int,
    j: int,
)
    requires
        can_choose(map_type, 4, c, f, a, b),
        ({
            let n = map_type.sector_count();
            let ds = nebula_choices(n, leftover(n, c, f, a, b));
            &&& 0 <= i < ds.len()
            &&& 0 <= j < ds.len()
            &&& layouts_of_splits(n, c, f, a, b, ds)[i] == layouts_of_splits(n, c, f, a, b, ds)[j]
        }),
    ensures
        i == j,
{
    let n = map_type.sector_count();
    let ds = nebula_choices(n, leftover(n, c, f, a, b));
    let wi = Choice { c, f, a, b, d: ds[i] };
    let wj = Choice { c, f, a, b, d: ds[j] };
    lemma_choice_recovered(map_type, wi);
    lemma_choice_recovered(map_type, wj);
    lemma_stages_offer_once(n, c, f, a, b);
}

/// What the fourth stage chose for a layout among those of a list of its
/// choices is one of the list.
proof fn lemma_key_asteroids(
    map_type: MapType,
    c: Seq<usize>,
    f: usize,
    a: (usize, usize),
    bs: Seq<Seq<usize>>,
    i: int,
)
    requires
        can_choose(map_type, 3, c, f, a, Seq::empty()),
        forall|k: int|
            0 <= k < bs.len() ==> asteroid_choices(map_type.sector_count(), c, f, a).contains(
                #[trigger] bs[k],
            ),
        0 <= i < layouts_of_asteroids(map_type.sector_count(), c, f, a, bs).len(),
    ensures
        bs.contains(
            choice_of(
                map_type,
                layouts_of_asteroids(map_type.sector_count(), c, f, a, bs)[i],
            ).b,
        ),
{
    let n = map_type.sector_count();
    let at = lemma_origin_asteroids(n, c, f, a, bs, i);
    let b = bs[at.0];
    let w = Choice { c, f, a, b, d: nebula_choices(n, leftover(n, c, f, a, b))[at.1] };
    lemma_choice_recovered(map_type, w);
}

/// No layout comes twice among the layouts of a list of choices of the
/// fourth stage.
proof fn lemma_asteroids_once(
    map_type: MapType,
    c: Seq<usize>,
    f: usize,
    a: (usize, usize),
    bs: Seq<Seq<usize>>,
    i: int,
    j: int,
)
    requires
        can_choose(map_type, 3, c, f, a, Seq::empty()),
        bs.no_duplicates(),
        forall|k: int|
            0 <= k < bs.len() ==> asteroid_choices(map_type.sector_count(), c, f, a).contains(
                #[trigger] bs[k],
            ),
        0 <= i < layouts_of_asteroids(map_type.sector_count(), c, f, a, bs).len(),
        0 <= j < layouts_of_asteroids(map_type.sector_count(), c, f, a, bs).len(),
        layouts_of_asteroids(map_type.sector_count(), c, f, a, bs)[i] == layouts_of_asteroids(
            map_type.sector_count(),
            c,
            f,
            a,
            bs,
        )[j],
    ensures
        i == j,
    decreases bs.len(),
{
    let n = map_type.sector_count();
    let first = layouts_of_splits(n, c, f, a, bs[0], nebula_choices(n, leftover(n, c, f, a, bs[0])));
    let rest = bs.drop_first();
    assert(bs.contains(bs[0]));
    if i < first.len() && j < first.len() {
        lemma_splits_once(map_type, c, f, a, bs[0], i, j);
    } else if i >= first.len() && j >= first.len() {
        assert forall|x: Seq<usize>| rest.contains(x) implies x != bs[0] by {
            lemma_first_not_in_rest(bs, x);
        }
        assert(rest.no_duplicates());
        lemma_asteroids_once(map_type, c, f, a, rest, i - first.len(), j - first.len());
    } else {
        let (x, y) = if i < first.len() {
            (i, j)
        } else {
            (j, i)
        };
        let l = layouts_of_asteroids(n, c, f, a, bs)[x];
        let w = Choice {
            c,
            f,
            a,
            b: bs[0],
            d: nebula_choices(n, leftover(n, c, f, a, bs[0]))[x],
        };
        lemma_choice_recovered(map_type, w);
        lemma_key_asteroids(map_type, c, f, a, rest, y - first.len());
        lemma_first_not_in_rest(bs, choice_of(map_type, l).b);
    }
}

/// What the third stage chose for a layout among those of a list of its
/// choices is one of the list.
proof fn lemma_key_comets(
    map_type: MapType,
    c: Seq<usize>,
    f: usize,
    prs: Seq<(usize, usize)>,
    i: int,
)
    requires
        can_choose(map_type, 2, c, f, (0, 0), Seq::empty()),
        forall|k: int|
            0 <= k < prs.len() ==> comet_choices(map_type.sector_count(), c, f).contains(
                #[trigger] prs[k],
            ),
        0 <= i < layouts_of_comets(map_type.sector_count(), c, f, prs).len(),
    ensures
        prs.contains(
            choice_of(map_type, layouts_of_comets(map_type.sector_count(), c, f, prs)[i]).a,
        ),
{
    let n = map_type.sector_count();
    let at = lemma_origin_comets(n, c, f, prs, i);
    let a = prs[at.0];
    let b = asteroid_choices(n, c, f, a)[at.1];
    let w = Choice { c, f, a, b, d: nebula_choices(n, leftover(n, c, f, a, b))[at.2] };
    lemma_choice_recovered(map_type, w);
}

/// No layout comes twice among the layouts of a list of choices of the
/// third stage.
proof fn lemma_comets_once(
    map_type: MapType,
    c: Seq<usize>,
    f: usize,
    prs: Seq<(usize, usize)>,
    i: int,
    j: int,
)
    requires
        can_choose(map_type, 2, c, f, (0, 0), Seq::empty()),
        prs.no_duplicates(),
        forall|k: int|
            0 <= k < prs.len() ==> comet_choices(map_type.sector_count(), c, f).contains(
                #[trigger] prs[k],
            ),
        0 <= i < layouts_of_comets(map_type.sector_count(), c, f, prs).len(),
        0 <= j < layouts_of_comets(map_type.sector_count(), c, f, prs).len(),
        layouts_of_comets(map_type.sector_count(), c, f, prs)[i] == layouts_of_comets(
            map_type.sector_count(),
            c,
            f,
            prs,
        )[j],
    ensures
        i == j,
    decreases prs.len(),
{
    let n = map_type.sector_count();
    let offered = asteroid_choices(n, c, f, prs[0]);
    let first = layouts_of_asteroids(n, c, f, prs[0], offered);
    let rest = prs.drop_first();
    assert(prs.contains(prs[0]));
    if i < first.len() && j < first.len() {
        lemma_stages_offer_once(n, c, f, prs[0], Seq::empty());
        lemma_asteroids_once(map_type, c, f, prs[0], offered, i, j);
    } else if i >= first.len() && j >= first.len() {
        assert forall|x: (usize, usize)| rest.contains(x) implies x != prs[0] by {
            lemma_first_not_in_rest(prs, x);
        }
        assert(rest.no_duplicates());
        lemma_comets_once(map_type, c, f, rest, i - first.len(), j - first.len());
    } else {
        let (x, y) = if i < first.len() {
            (i, j)
        } else {
            (j, i)
        };
        let l = layouts_of_comets(n, c, f, prs)[x];
        let at = lemma_origin_asteroids(n, c, f, prs[0], offered, x);
        let b = offered[at.0];
        let w = Choice {
            c,
            f,
            a: prs[0],
            b,
            d: nebula_choices(n, leftover(n, c, f, prs[0], b))[at.1],
        };
        lemma_choice_recovered(map_type, w);
        lemma_key_comets(map_type, c, f, rest, y - first.len());
        lemma_first_not_in_rest(prs, choice_of(map_type, l).a);
    }
}

/// What the second stage chose for a layout among those of a list of its
/// choices is one of the list.
proof fn lemma_key_xs(map_type: MapType, c: Seq<usize>, fs: Seq<usize>, i: int)
    requires
        can_choose(map_type, 1, c, 0, (0, 0), Seq::empty()),
        forall|k: int|
            0 <= k < fs.len() ==> x_choices(map_type.sector_count(), c).contains(#[trigger] fs[k]),
        0 <= i < layouts_of_xs(map_type.sector_count(), c, fs).len(),
    ensures
        fs.contains(choice_of(map_type, layouts_of_xs(map_type.sector_count(), c, fs)[i]).f),
{
    let n = map_type.sector_count();
    let at = lemma_origin_xs(n, c, fs, i);
    let f = fs[at.0];
    let a = comet_choices(n, c, f)[at.1];
    let b = asteroid_choices(n, c, f, a)[at.2];
    let w = Choice { c, f, a, b, d: nebula_choices(n, leftover(n, c, f, a, b))[at.3] };
    lemma_choice_recovered(map_type, w);
}

/// No layout comes twice among the layouts of a list of choices of the
/// second stage.
proof fn lemma_xs_once(map_type: MapType, c: Seq<usize>, fs: Seq<usize>, i: int, j: int)
    requires
        can_choose(map_type, 1, c, 0, (0, 0), Seq::empty()),
        fs.no_duplicates(),
        forall|k: int|
            0 <= k < fs.len() ==> x_choices(map_type.sector_count(), c).contains(#[trigger] fs[k]),
        0 <= i < layouts_of_xs(map_type.sector_count(), c, fs).len(),
        0 <= j < layouts_of_xs(map_type.sector_count(), c, fs).len(),
        layouts_of_xs(map_type.sector_count(), c, fs)[i] == layouts_of_xs(
            map_type.sector_count(),
            c,
            fs,
        )[j],
    ensures
        i == j,
    decreases fs.len(),
{
    let n = map_type.sector_count();
    let offered = comet_choices(n, c, fs[0]);
    let first = layouts_of_comets(n, c, fs[0], offered);
    let rest = fs.drop_first();
    assert(fs.contains(fs[0]));
    if i < first.len() && j < first.len() {
        lemma_stages_offer_once(n, c, fs[0], (0, 0), Seq::empty());
        lemma_comets_once(map_type, c, fs[0], offered, i, j);
    } else if i >= first.len() && j >= first.len() {
        assert forall|x: usize| rest.contains(x) implies x != fs[0] by {
            lemma_first_not_in_rest(fs, x);
        }
        assert(rest.no_duplicates());
        lemma_xs_once(map_type, c, rest, i - first.len(), j - first.len());
    } else {
        let (x, y) = if i < first.len() {
            (i, j)
        } else {
            (j, i)
        };
        let l = layouts_of_xs(n, c, fs)[x];
        let at = lemma_origin_comets(n, c, fs[0], offered, x);
        let a = offered[at.0];
        let b = asteroid_choices(n, c, fs[0], a)[at.1];
        let w = Choice {
            c,
            f: fs[0],
            a,
            b,
            d: nebula_choices(n, leftover(n, c, fs[0], a, b))[at.2],
        };
        lemma_choice_recovered(map_type, w);
        lemma_key_xs(map_type, c, rest, y - first.len());
        lemma_first_not_in_rest(fs, choice_of(map_type, l).f);
    }
}

/// What the first stage chose for a layout among those of a list of its
/// choices is one of the list.
proof fn lemma_key_dwarfs(map_type: MapType, cs: Seq<Seq<usize>>, i: int)
    requires
        forall|k: int| 0 <= k < cs.len() ==> dwarf_choices(map_type).contains(#[trigger] cs[k]),
        0 <= i < layouts_of_dwarfs(map_type.sector_count(), cs).len(),
    ensures
        cs.contains(choice_of(map_type, layouts_of_dwarfs(map_type.sector_count(), cs)[i]).c),
{
    let n = map_type.sector_count();
    let w = lemma_origin_dwarfs(n, cs, i);
    let k = choose|k: int| 0 <= k < cs.len() && cs[k] == w.c;
    lemma_choice_recovered(map_type, w);
}

/// No layout comes twice among the layouts of a list of choices of the
/// first stage.
proof fn lemma_dwarfs_once(map_type: MapType, cs: Seq<Seq<usize>>, i: int, j: int)
    requires
        cs.no_duplicates(),
        forall|k: int| 0 <= k < cs.len() ==> dwarf_choices(map_type).contains(#[trigger] cs[k]),
        0 <= i < layouts_of_dwarfs(map_type.sector_count(), cs).len(),
        0 <= j < layouts_of_dwarfs(map_type.sector_count(), cs).len(),
        layouts_of_dwarfs(map_type.sector_count(), cs)[i] == layouts_of_dwarfs(
            map_type.sector_count(),
            cs,
        )[j],
    ensures
        i == j,
    decreases cs.len(),
{
    let n = map_type.sector_count();
    let offered = x_choices(n, cs[0]);
    let first = layouts_of_xs(n, cs[0], offered);
    let rest = cs.drop_first();
    assert(cs.contains(cs[0]));
    if i < first.len() && j < first.len() {
        lemma_stages_offer_once(n, cs[0], 0, (0, 0), Seq::empty());
        lemma_xs_once(map_type, cs[0], offered, i, j);
    } else if i >= first.len() && j >= first.len() {
        assert forall|x: Seq<usize>| rest.contains(x) implies x != cs[0] by {
            lemma_first_not_in_rest(cs, x);
        }
        assert(rest.no_duplicates());
        lemma_dwarfs_once(map_type, rest, i - first.len(), j - first.len());
    } else {
        let (x, y) = if i < first.len() {
            (i, j)
        } else {
            (j, i)
        };
        let l = layouts_of_dwarfs(n, cs)[x];
        let at = lemma_origin_xs(n, cs[0], offered, x);
        let f = offered[at.0];
        let a = comet_choices(n, cs[0], f)[at.1];
        let b = asteroid_choices(n, cs[0], f, a)[at.2];
        let w = Choice {
            c: cs[0],
            f,
            a,
            b,
            d: nebula_choices(n, leftover(n, cs[0], f, a, b))[at.3],
        };
        lemma_choice_recovered(map_type, w);
        lemma_key_dwarfs(map_type, rest, y - first.len());
        lemma_first_not_in_rest(cs, choice_of(map_type, l).c);
    }
}

/// The enumeration hands out no layout twice.
pub proof fn lemma_enumeration_is_distinct(map_type: MapType)
    ensures
        enumeration(map_type).no_duplicates(),
{
    lemma_dwarfs_offered_once(map_type);
    assert forall|i: int, j: int|
        0 <= i < enumeration(map_type).len() && 0 <= j < enumeration(map_type).len() && i
            != j implies enumeration(map_type)[i] != enumeration(map_type)[j] by {
        if enumeration(map_type)[i] == enumeration(map_type)[j] {
            lemma_dwarfs_once(map_type, dwarf_choices(map_type), i, j);
        }
    }
}

} // verus!
