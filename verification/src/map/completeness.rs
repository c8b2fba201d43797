use vstd::prelude::*;

use super::clue::{adjacent_to, clue_holds, holds_at, ClueConnection};
use super::enumerator::{
    adjacency_closed, asteroid_choices, blocks, built_layout, built_type, closed_on, combos,
    comet_choices, dwarf_choices, enumeration, layouts_of_asteroids, layouts_of_comets,
    layouts_of_dwarfs, layouts_of_splits, layouts_of_xs, leftover, nebula_choices,
    nebula_has_space, pairs, places, prime_places, ring_next, ring_prev, rising, splits_well,
    taken_before_asteroids, unblocked, untaken, window_choices, window_mids, windows_upto,
    with_first, x_choices,
};
use super::model::{next_index, prev_index, type_at, MapType, SectorType};
use super::origin::Choice;
use super::lists::{
    lemma_filter_keeps_distinct, lemma_filter_member, lemma_filter_rising, lemma_member_of_sum,
    lemma_rising_no_duplicates,
};
use super::soundness::{lemma_ring_neighbours, lemma_taken_members};
use super::validity::{
    has_wanted_count, is_prime_place, places_of, places_upto, steps_from, valid_layout,
    wanted_count, window_holds, wrap,
};

verus! {

broadcast use {vstd::seq_lib::group_seq_properties, vstd::set::group_set_axioms};


/// What a filter leaves of a list is one of the ways to pick as many of its
/// items.
pub proof fn lemma_filter_is_combination(s: Seq<usize>, pred: spec_fn(usize) -> bool, k: nat)
    requires
        s.filter(pred).len() == k,
    ensures
        combos(s, k).contains(s.filter(pred)),
    decreases s.len(),
{
    if s.len() == 0 {
        reveal(Seq::filter);
        assert(s.filter(pred) =~= Seq::<usize>::empty());
        assert(combos(s, 0)[0] == Seq::<usize>::empty());
    } else {
        let t = s.drop_first();
        assert(s =~= seq![s[0]] + t);
        t.lemma_filter_prepend(s[0], pred);
        if k == 0 {
            assert(s.filter(pred) =~= Seq::<usize>::empty());
            assert(combos(s, 0)[0] == Seq::<usize>::empty());
        } else {
            let with = with_first(s[0], combos(t, (k - 1) as nat));
            if pred(s[0]) {
                assert(s.filter(pred) =~= seq![s[0]] + t.filter(pred));
                lemma_filter_is_combination(t, pred, (k - 1) as nat);
                let fewer = combos(t, (k - 1) as nat);
                let j = choose|j: int| 0 <= j < fewer.len() && fewer[j] == t.filter(pred);
                assert(with[j] == seq![s[0]] + t.filter(pred));
                assert(combos(s, k)[j] == s.filter(pred));
            } else {
                assert(s.filter(pred) =~= t.filter(pred));
                lemma_filter_is_combination(t, pred, k);
                let same = combos(t, k);
                let j = choose|j: int| 0 <= j < same.len() && same[j] == t.filter(pred);
                assert(combos(s, k)[with.len() + j] == s.filter(pred));
            }
        }
    }
}

/// The test that a place of a layout holds type `t`.
pub open spec fn holding(s: Seq<SectorType>, t: SectorType) -> spec_fn(usize) -> bool {
    |p: usize| p < s.len() && s[p as int] == t
}

/// A list of places holds as many places of a type as the layout has
/// sectors of it, if it repeats none and misses none of them.
pub proof fn lemma_count_in_list(s: Seq<SectorType>, t: SectorType, list: Seq<usize>)
    requires
        list.no_duplicates(),
        forall|p: usize| p < s.len() && s[p as int] == t ==> list.contains(p),
        s.len() <= usize::MAX,
    ensures
        places_of(s, t).finite(),
        list.filter(holding(s, t)).len() == places_of(s, t).len(),
{
    let n = s.len() as usize;
    lemma_places_count(s, t, n as int);
    assert(places(n).take(n as int) =~= places(n));
    assert(places_upto(s, t, n as int) =~= places_of(s, t));
    let all = places(n).filter(holding(s, t));
    let mine = list.filter(holding(s, t));
    lemma_filter_rising(places(n), holding(s, t));
    lemma_filter_keeps_distinct(list, holding(s, t));
    assert(all.no_duplicates());
    assert forall|x: usize| all.to_set().contains(x) <==> mine.to_set().contains(x) by {
        if all.contains(x) {
            lemma_filter_member(places(n), holding(s, t), x);
            let i = choose|i: int| 0 <= i < list.len() && list[i] == x;
            list.lemma_filter_contains(holding(s, t), i);
        }
        if mine.contains(x) {
            lemma_filter_member(list, holding(s, t), x);
            assert(places(n)[x as int] == x);
            places(n).lemma_filter_contains(holding(s, t), x as int);
        }
    }
    assert(all.to_set() =~= mine.to_set());
    all.unique_seq_to_set();
    mine.unique_seq_to_set();
}

/// Among the first `k` places as many hold a type as the layout has
/// sectors of it up to position `k`.
proof fn lemma_places_count(s: Seq<SectorType>, t: SectorType, k: int)
    requires
        0 <= k <= s.len() <= usize::MAX,
    ensures
        places_upto(s, t, k).finite(),
        places(s.len() as usize).take(k).filter(holding(s, t)).len() == places_upto(s, t, k).len(),
    decreases k,
{
    let n = s.len() as usize;
    if k == 0 {
        assert(places_upto(s, t, 0) =~= Set::<int>::empty());
        assert(places(n).take(0) =~= Seq::<usize>::empty());
        places(n).take(0).lemma_filter_len(holding(s, t));
    } else {
        lemma_places_count(s, t, k - 1);
        let x = (k - 1) as usize;
        assert(places(n).take(k) =~= places(n).take(k - 1).push(x));
        places(n).take(k - 1).lemma_filter_push(x, holding(s, t));
        if s[k - 1] == t {
            assert(places_upto(s, t, k) =~= places_upto(s, t, k - 1).insert(k));
        } else {
            assert(places_upto(s, t, k) =~= places_upto(s, t, k - 1));
        }
    }
}


/// The layout of a pair of nebulae is among the layouts of the pairs of a
/// list that holds the pair.
proof fn lemma_member_splits(
    n: usize,
    c: Seq<usize>,
    f: usize,
    a: (usize, usize),
    b: Seq<usize>,
    ds: Seq<(usize, usize)>,
    d: (usize, usize),
)
    requires
        ds.contains(d),
    ensures
        layouts_of_splits(n, c, f, a, b, ds).contains(built_layout(n, c, f, a, b, d)),
{
    let i = choose|i: int| 0 <= i < ds.len() && ds[i] == d;
    assert(layouts_of_splits(n, c, f, a, b, ds)[i] == built_layout(n, c, f, a, b, d));
}


proof fn lemma_member_asteroids(
    n: usize,
    c: Seq<usize>,
    f: usize,
    a: (usize, usize),
    bs: Seq<Seq<usize>>,
    b: Seq<usize>,
    d: (usize, usize),
)
    requires
        bs.contains(b),
        nebula_choices(n, leftover(n, c, f, a, b)).contains(d),
    ensures
        layouts_of_asteroids(n, c, f, a, bs).contains(built_layout(n, c, f, a, b, d)),
    decreases bs.len(),
{
    let first = layouts_of_splits(n, c, f, a, bs[0], nebula_choices(n, leftover(n, c, f, a, bs[0])));
    let rest = layouts_of_asteroids(n, c, f, a, bs.drop_first());
    if bs[0] == b {
        lemma_member_splits(n, c, f, a, b, nebula_choices(n, leftover(n, c, f, a, b)), d);
    } else {
        let i = choose|i: int| 0 <= i < bs.len() && bs[i] == b;
        assert(bs.drop_first()[i - 1] == b);
        lemma_member_asteroids(n, c, f, a, bs.drop_first(), b, d);
    }
    lemma_member_of_sum(first, rest, built_layout(n, c, f, a, b, d));
}

proof fn lemma_member_comets(
    n: usize,
    c: Seq<usize>,
    f: usize,
    prs: Seq<(usize, usize)>,
    a: (usize, usize),
    b: Seq<usize>,
    d: (usize, usize),
)
    requires
        prs.contains(a),
        asteroid_choices(n, c, f, a).contains(b),
        nebula_choices(n, leftover(n, c, f, a, b)).contains(d),
    ensures
        layouts_of_comets(n, c, f, prs).contains(built_layout(n, c, f, a, b, d)),
    decreases prs.len(),
{
    let first = layouts_of_asteroids(n, c, f, prs[0], asteroid_choices(n, c, f, prs[0]));
    let rest = layouts_of_comets(n, c, f, prs.drop_first());
    if prs[0] == a {
        lemma_member_asteroids(n, c, f, a, asteroid_choices(n, c, f, a), b, d);
    } else {
        let i = choose|i: int| 0 <= i < prs.len() && prs[i] == a;
        assert(prs.drop_first()[i - 1] == a);
        lemma_member_comets(n, c, f, prs.drop_first(), a, b, d);
    }
    lemma_member_of_sum(first, rest, built_layout(n, c, f, a, b, d));
}

proof fn lemma_member_xs(
    n: usize,
    c: Seq<usize>,
    fs: Seq<usize>,
    f: usize,
    a: (usize, usize),
    b: Seq<usize>,
    d: (usize, usize),
)
    requires
        fs.contains(f),
        comet_choices(n, c, f).contains(a),
        asteroid_choices(n, c, f, a).contains(b),
        nebula_choices(n, leftover(n, c, f, a, b)).contains(d),
    ensures
        layouts_of_xs(n, c, fs).contains(built_layout(n, c, f, a, b, d)),
    decreases fs.len(),
{
    let first = layouts_of_comets(n, c, fs[0], comet_choices(n, c, fs[0]));
    let rest = layouts_of_xs(n, c, fs.drop_first());
    if fs[0] == f {
        lemma_member_comets(n, c, f, comet_choices(n, c, f), a, b, d);
    } else {
        let i = choose|i: int| 0 <= i < fs.len() && fs[i] == f;
        assert(fs.drop_first()[i - 1] == f);
        lemma_member_xs(n, c, fs.drop_first(), f, a, b, d);
    }
    lemma_member_of_sum(first, rest, built_layout(n, c, f, a, b, d));
}

proof fn lemma_member_dwarfs(n: usize, cs: Seq<Seq<usize>>, w: Choice)
    requires
        cs.contains(w.c),
        x_choices(n, w.c).contains(w.f),
        comet_choices(n, w.c, w.f).contains(w.a),
        asteroid_choices(n, w.c, w.f, w.a).contains(w.b),
        nebula_choices(n, leftover(n, w.c, w.f, w.a, w.b)).contains(w.d),
    ensures
        layouts_of_dwarfs(n, cs).contains(built_layout(n, w.c, w.f, w.a, w.b, w.d)),
    decreases cs.len(),
{
    let first = layouts_of_xs(n, cs[0], x_choices(n, cs[0]));
    let rest = layouts_of_dwarfs(n, cs.drop_first());
    if cs[0] == w.c {
        lemma_member_xs(n, w.c, x_choices(n, w.c), w.f, w.a, w.b, w.d);
    } else {
        let i = choose|i: int| 0 <= i < cs.len() && cs[i] == w.c;
        assert(cs.drop_first()[i - 1] == w.c);
        lemma_member_dwarfs(n, cs.drop_first(), w);
    }
    lemma_member_of_sum(first, rest, built_layout(n, w.c, w.f, w.a, w.b, w.d));
}

/// The layout of every choice that the five stages can make is in the
/// enumeration.
pub proof fn lemma_chosen_is_enumerated(map_type: MapType, w: Choice)
    requires
        w.chosen(map_type),
    ensures
        enumeration(map_type).contains(w.layout(map_type)),
{
    lemma_member_dwarfs(map_type.sector_count(), dwarf_choices(map_type), w);
}

/// The window that the dwarf planets of a layout of the large board fill,
/// by the place where it begins.
pub open spec fn window_start(s: Seq<SectorType>) -> usize {
    ((choose|start: int| window_holds(s, start)) - 1) as usize
}

/// What the first stage chose for a layout: the places of its dwarf
/// planets, in the order in which the stage lists them.
pub open spec fn dwarfs_of(map_type: MapType, s: Seq<SectorType>) -> Seq<usize> {
    match map_type {
        MapType::Standard => places(12).filter(holding(s, SectorType::DwarfPlanet)),
        MapType::Expert => {
            let start = window_start(s);
            let between = window_mids(18, start).filter(holding(s, SectorType::DwarfPlanet));
            seq![start, ((start + 5) % 18) as usize, between[0], between[1]]
        },
    }
}

/// What the five stages chose for a layout.
pub open spec fn choice_of(map_type: MapType, s: Seq<SectorType>) -> Choice {
    let n = map_type.sector_count();
    let c = dwarfs_of(map_type, s);
    let f = places(n).filter(holding(s, SectorType::X))[0];
    let comets = prime_places(n).filter(untaken(c.push(f))).filter(holding(s, SectorType::Comet));
    let a = (comets[0], comets[1]);
    let b = places(n).filter(untaken(taken_before_asteroids(c, f, a))).filter(
        holding(s, SectorType::Asteroid),
    );
    let nebulae = leftover(n, c, f, a, b).filter(holding(s, SectorType::Nebula));
    let d = (nebulae[0], nebulae[1]);
    Choice { c, f, a, b, d }
}

/// Whether a list of places holds just the places of a layout that hold
/// type `t`.
pub open spec fn lists_type(list: Seq<usize>, s: Seq<SectorType>, t: SectorType) -> bool {
    forall|p: usize| list.contains(p) <==> (p < s.len() && s[p as int] == t)
}

/// The choices of one window are among the choices of the windows.
proof fn lemma_window_is_listed(n: usize, upto: usize, start: usize, c: Seq<usize>)
    requires
        start < upto,
        window_choices(n, start).contains(c),
    ensures
        windows_upto(n, upto).contains(c),
    decreases upto,
{
    let before = windows_upto(n, (upto - 1) as usize);
    let last = window_choices(n, (upto - 1) as usize);
    if start == upto - 1 {
    } else {
        lemma_window_is_listed(n, (upto - 1) as usize, start, c);
    }
    lemma_member_of_sum(before, last, c);
}

/// The dwarf planets of a layout of the small board are a choice of the
/// first stage.
proof fn lemma_dwarfs_standard(s: Seq<SectorType>)
    requires
        valid_layout(MapType::Standard, s),
    ensures
        dwarf_choices(MapType::Standard).contains(dwarfs_of(MapType::Standard, s)),
        lists_type(dwarfs_of(MapType::Standard, s), s, SectorType::DwarfPlanet),
{
    let t = SectorType::DwarfPlanet;
    let c = dwarfs_of(MapType::Standard, s);
    lemma_filter_rising(places(12), holding(s, t));
    lemma_rising_no_duplicates(places(12));
    assert forall|p: usize| p < s.len() && s[p as int] == t implies places(12).contains(p) by {
        assert(places(12)[p as int] == p);
    }
    lemma_count_in_list(s, t, places(12));
    assert(c.len() == 1);
    assert(c.contains(c[0]));
    lemma_filter_member(places(12), holding(s, t), c[0]);
    assert(c =~= seq![c[0]]);
    assert(dwarf_choices(MapType::Standard)[c[0] as int] == seq![c[0]]);
    assert forall|p: usize| c.contains(p) <==> (p < s.len() && s[p as int] == t) by {
        if c.contains(p) {
            lemma_filter_member(places(12), holding(s, t), p);
        }
        if p < s.len() && s[p as int] == t {
            assert(places(12)[p as int] == p);
            places(12).lemma_filter_contains(holding(s, t), p as int);
        }
    }
}

/// The six places of a window.
spec fn window_places(start: usize) -> Seq<usize> {
    seq![start] + (window_mids(18, start) + seq![((start + 5) % 18) as usize])
}

/// What a filter leaves of a window whose two ends pass it.
proof fn lemma_window_filter(start: usize, pred: spec_fn(usize) -> bool)
    requires
        pred(start),
        pred(((start + 5) % 18) as usize),
    ensures
        window_places(start).filter(pred).len() == window_mids(18, start).filter(pred).len() + 2,
{
    let end = ((start + 5) % 18) as usize;
    let mids = window_mids(18, start);
    (mids + seq![end]).lemma_filter_prepend(start, pred);
    Seq::filter_distributes_over_add(mids, seq![end], pred);
    reveal_with_fuel(Seq::filter, 2);
    assert(seq![end].drop_last() =~= Seq::<usize>::empty());
    assert(seq![end].filter(pred) =~= seq![end]);
}

/// What the rules say of the dwarf planets of the large board, by the place
/// where their window begins: the window begins and ends with a dwarf
/// planet, no dwarf planet lies outside it, and there are four.
spec fn window_fits(s: Seq<SectorType>, start: usize) -> bool {
    let t = SectorType::DwarfPlanet;
    &&& s.len() == 18
    &&& start < 18
    &&& s[start as int] == t
    &&& s[(start + 5) % 18] == t
    &&& forall|p: usize| p < 18 && s[p as int] == t ==> (#[trigger] ((p + 18 - start) % 18)) <= 5
    &&& places_of(s, t).finite()
    &&& places_of(s, t).len() == 4
}

/// A layout that keeps the rules of the large board has its dwarf planets
/// in the window that `window_start` names.
proof fn lemma_window_fits(s: Seq<SectorType>)
    requires
        valid_layout(MapType::Expert, s),
    ensures
        window_fits(s, window_start(s)),
{
    let t = SectorType::DwarfPlanet;
    let first = choose|start: int| window_holds(s, start);
    assert(window_holds(s, first));
    assert(holds_at(s, first, t));
    assert(holds_at(s, wrap(18, first + 5), t));
    let start = window_start(s);
    assert(has_wanted_count(MapType::Expert, s, t));
    assert forall|p: usize| p < 18 && s[p as int] == t implies (#[trigger] ((p + 18 - start)
        % 18)) <= 5 by {
        assert(holds_at(s, p + 1, t));
        assert(steps_from(18, first, p + 1) <= 5);
    }
}

/// The six places of a window differ, and every dwarf planet lies on one
/// of them.
proof fn lemma_window_covers(s: Seq<SectorType>, start: usize)
    requires
        window_fits(s, start),
    ensures
        window_places(start).no_duplicates(),
        forall|p: usize|
            p < s.len() && s[p as int] == SectorType::DwarfPlanet ==> window_places(
                start,
            ).contains(p),
{
    let t = SectorType::DwarfPlanet;
    let end = ((start + 5) % 18) as usize;
    let mids = window_mids(18, start);
    let window = window_places(start);
    assert(window.len() == 6);
    assert(window[0] == start);
    assert(window[1] == mids[0] && window[2] == mids[1] && window[3] == mids[2] && window[4]
        == mids[3]);
    assert(window[5] == end);
    assert forall|p: usize| p < s.len() && s[p as int] == t implies window.contains(p) by {
        let k = (p + 18 - start) % 18;
        assert(0 <= k <= 5);
        assert(window[k] == p);
    }
}

/// Two of the four places between the ends of the window hold a dwarf
/// planet.
proof fn lemma_between_two(s: Seq<SectorType>, start: usize)
    requires
        window_fits(s, start),
    ensures
        window_mids(18, start).filter(holding(s, SectorType::DwarfPlanet)).len() == 2,
{
    let t = SectorType::DwarfPlanet;
    lemma_window_covers(s, start);
    lemma_count_in_list(s, t, window_places(start));
    lemma_window_filter(start, holding(s, t));
}

/// The dwarf planets of a layout of the large board are a choice of the
/// first stage.
proof fn lemma_dwarfs_listed(s: Seq<SectorType>, start: usize)
    requires
        window_fits(s, start),
    ensures
        dwarf_choices(MapType::Expert).contains(
            seq![
                start,
                ((start + 5) % 18) as usize,
                window_mids(18, start).filter(holding(s, SectorType::DwarfPlanet))[0],
                window_mids(18, start).filter(holding(s, SectorType::DwarfPlanet))[1],
            ],
        ),
{
    let t = SectorType::DwarfPlanet;
    let mids = window_mids(18, start);
    let between = mids.filter(holding(s, t));
    lemma_between_two(s, start);
    lemma_filter_is_combination(mids, holding(s, t), 2);
    let picks = combos(mids, 2);
    let k = choose|k: int| 0 <= k < picks.len() && picks[k] == between;
    let c = seq![start, ((start + 5) % 18) as usize, between[0], between[1]];
    assert(window_choices(18, start)[k] =~= c);
    lemma_window_is_listed(18, 18, start, c);
}

/// The list that the first stage chose for a layout of the large board
/// holds just the places of its dwarf planets.
proof fn lemma_dwarfs_lists(s: Seq<SectorType>, start: usize)
    requires
        window_fits(s, start),
    ensures
        lists_type(
            seq![
                start,
                ((start + 5) % 18) as usize,
                window_mids(18, start).filter(holding(s, SectorType::DwarfPlanet))[0],
                window_mids(18, start).filter(holding(s, SectorType::DwarfPlanet))[1],
            ],
            s,
            SectorType::DwarfPlanet,
        ),
{
    let t = SectorType::DwarfPlanet;
    let end = ((start + 5) % 18) as usize;
    let mids = window_mids(18, start);
    let between = mids.filter(holding(s, t));
    let window = window_places(start);
    let c = seq![start, end, between[0], between[1]];
    lemma_between_two(s, start);
    lemma_window_covers(s, start);
    assert(between.contains(between[0]) && between.contains(between[1]));
    lemma_filter_member(mids, holding(s, t), between[0]);
    lemma_filter_member(mids, holding(s, t), between[1]);
    assert(c[0] == start && c[1] == end && c[2] == between[0] && c[3] == between[1]);
    assert(window[0] == start);
    assert(window[1] == mids[0] && window[2] == mids[1] && window[3] == mids[2] && window[4]
        == mids[3]);
    assert(window[5] == end);
    assert forall|p: usize| c.contains(p) <==> (p < s.len() && s[p as int] == t) by {
        if c.contains(p) {
            let i = choose|i: int| 0 <= i < c.len() && c[i] == p;
        }
        if p < s.len() && s[p as int] == t {
            let i = choose|i: int| 0 <= i < window.len() && window[i] == p;
            if i == 0 {
                assert(c[0] == p);
            } else if i == 5 {
                assert(c[1] == p);
            } else {
                assert(mids[i - 1] == p);
                mids.lemma_filter_contains(holding(s, t), i - 1);
                let j = choose|j: int| 0 <= j < between.len() && between[j] == p;
                assert(c[j + 2] == p);
            }
        }
    }
}

/// The dwarf planets of a layout that keeps the rules are a choice of the
/// first stage, and the list chosen holds just their places.
proof fn lemma_dwarfs_of(map_type: MapType, s: Seq<SectorType>)
    requires
        valid_layout(map_type, s),
    ensures
        dwarf_choices(map_type).contains(dwarfs_of(map_type, s)),
        lists_type(dwarfs_of(map_type, s), s, SectorType::DwarfPlanet),
{
    match map_type {
        MapType::Standard => {
            lemma_dwarfs_standard(s);
        },
        MapType::Expert => {
            lemma_window_fits(s);
            lemma_dwarfs_listed(s, window_start(s));
            lemma_dwarfs_lists(s, window_start(s));
        },
    }
}

/// What a filter for a type leaves of a rising list that misses no place of
/// the type: a rising list of just the places of the type, as many as the
/// layout has sectors of it.
proof fn lemma_held(s: Seq<SectorType>, t: SectorType, pool: Seq<usize>)
    requires
        rising(pool),
        s.len() <= usize::MAX,
        forall|p: usize| p < s.len() && s[p as int] == t ==> pool.contains(p),
    ensures
        places_of(s, t).finite(),
        pool.filter(holding(s, t)).len() == places_of(s, t).len(),
        lists_type(pool.filter(holding(s, t)), s, t),
        rising(pool.filter(holding(s, t))),
{
    lemma_rising_no_duplicates(pool);
    lemma_count_in_list(s, t, pool);
    lemma_filter_rising(pool, holding(s, t));
    let held = pool.filter(holding(s, t));
    assert forall|p: usize| held.contains(p) <==> (p < s.len() && s[p as int] == t) by {
        if held.contains(p) {
            lemma_filter_member(pool, holding(s, t), p);
        }
        if p < s.len() && s[p as int] == t {
            let i = choose|i: int| 0 <= i < pool.len() && pool[i] == p;
            pool.lemma_filter_contains(holding(s, t), i);
        }
    }
}

/// The places `0..n` rise and are all the places below `n`.
proof fn lemma_places(n: usize)
    ensures
        rising(places(n)),
        forall|p: usize| p < n ==> places(n).contains(p),
{
    assert forall|p: usize| p < n implies places(n).contains(p) by {
        assert(places(n)[p as int] == p);
    }
}

/// Whether the first two stages chose for a layout what it holds: the list
/// of the dwarf planets holds just their places, and X is where the layout
/// has it and nowhere else.
spec fn early_matches(s: Seq<SectorType>, c: Seq<usize>, f: usize) -> bool {
    &&& lists_type(c, s, SectorType::DwarfPlanet)
    &&& f < s.len()
    &&& s[f as int] == SectorType::X
    &&& forall|p: usize| p < s.len() && s[p as int] == SectorType::X ==> p == f
}

/// Whether the comets chosen for a layout are where it has them.
spec fn comets_match(s: Seq<SectorType>, a: (usize, usize)) -> bool {
    &&& a.0 != a.1
    &&& forall|p: usize|
        (p < s.len() && s[p as int] == SectorType::Comet) <==> (p == a.0 || p == a.1)
}

/// X of a layout that keeps the rules is a choice of the second stage.
proof fn lemma_x_of(map_type: MapType, s: Seq<SectorType>, c: Seq<usize>)
    requires
        valid_layout(map_type, s),
        lists_type(c, s, SectorType::DwarfPlanet),
    ensures
        early_matches(
            s,
            c,
            places(map_type.sector_count()).filter(holding(s, SectorType::X))[0],
        ),
        x_choices(map_type.sector_count(), c).contains(
            places(map_type.sector_count()).filter(holding(s, SectorType::X))[0],
        ),
{
    let n = map_type.sector_count();
    let t = SectorType::X;
    lemma_places(n);
    lemma_held(s, t, places(n));
    assert(has_wanted_count(map_type, s, t));
    let xs = places(n).filter(holding(s, t));
    assert(xs.len() == 1);
    let f = xs[0];
    assert(xs.contains(f));
    assert forall|p: usize| p < s.len() && s[p as int] == t implies p == f by {
        let i = choose|i: int| 0 <= i < xs.len() && xs[i] == p;
    }
    lemma_ring_neighbours(n, f);
    let before = ring_prev(n, f);
    let after = ring_next(n, f);
    lemma_ring_neighbours(n, before);
    lemma_ring_neighbours(n, after);
    assert(clue_holds(s, SectorType::DwarfPlanet, SectorType::X, ClueConnection::NotAdjacent));
    if c.contains(before) {
        assert(holds_at(s, before + 1, SectorType::DwarfPlanet));
        assert(type_at(s, next_index(n as int, before + 1)) == t);
        assert(adjacent_to(s, before + 1, t));
    }
    if c.contains(after) {
        assert(holds_at(s, after + 1, SectorType::DwarfPlanet));
        assert(type_at(s, prev_index(n as int, after + 1)) == t);
        assert(adjacent_to(s, after + 1, t));
    }
    assert(!blocks(n, c, f));
    assert(places(n)[f as int] == f);
    places(n).lemma_filter_contains(unblocked(n, c), f as int);
}

/// The comets of a layout that keeps the rules are a choice of the third
/// stage.
proof fn lemma_comets_of(map_type: MapType, s: Seq<SectorType>, c: Seq<usize>, f: usize)
    requires
        valid_layout(map_type, s),
        early_matches(s, c, f),
    ensures
        ({
            let pool = prime_places(map_type.sector_count()).filter(untaken(c.push(f)));
            let comets = pool.filter(holding(s, SectorType::Comet));
            &&& comets_match(s, (comets[0], comets[1]))
            &&& comet_choices(map_type.sector_count(), c, f).contains((comets[0], comets[1]))
        }),
{
    let n = map_type.sector_count();
    let t = SectorType::Comet;
    let primes = prime_places(n);
    let pool = primes.filter(untaken(c.push(f)));
    assert(rising(primes));
    lemma_filter_rising(primes, untaken(c.push(f)));
    assert forall|p: usize| p < s.len() && s[p as int] == t implies pool.contains(p) by {
        assert(holds_at(s, p + 1, t));
        assert(is_prime_place(p + 1));
        let i: int = if p == 1 {
            0
        } else if p == 2 {
            1
        } else if p == 4 {
            2
        } else if p == 6 {
            3
        } else if p == 10 {
            4
        } else if p == 12 {
            5
        } else {
            6
        };
        assert(primes[i] == p);
        if c.push(f).contains(p) {
            let j = choose|j: int| 0 <= j < c.push(f).len() && c.push(f)[j] == p;
            if j < c.len() {
                assert(c.contains(p));
            }
        }
        primes.lemma_filter_contains(untaken(c.push(f)), i);
    }
    lemma_held(s, t, pool);
    assert(has_wanted_count(map_type, s, t));
    let comets = pool.filter(holding(s, t));
    assert(comets.len() == 2);
    assert(comets.contains(comets[0]) && comets.contains(comets[1]));
    assert(comets[0] < comets[1]);
    assert forall|p: usize| (p < s.len() && s[p as int] == t) <==> (p == comets[0] || p
        == comets[1]) by {
        if p < s.len() && s[p as int] == t {
            let i = choose|i: int| 0 <= i < comets.len() && comets[i] == p;
        }
    }
    lemma_filter_is_combination(pool, holding(s, t), 2);
    let picks = combos(pool, 2);
    let k = choose|k: int| 0 <= k < picks.len() && picks[k] == comets;
    assert(pairs(pool)[k] == (comets[0], comets[1]));
}

/// The asteroids of a layout that keeps the rules are a choice of the
/// fourth stage.
proof fn lemma_asteroids_of(
    map_type: MapType,
    s: Seq<SectorType>,
    c: Seq<usize>,
    f: usize,
    a: (usize, usize),
)
    requires
        valid_layout(map_type, s),
        early_matches(s, c, f),
        comets_match(s, a),
    ensures
        ({
            let n = map_type.sector_count();
            let b = places(n).filter(untaken(taken_before_asteroids(c, f, a))).filter(
                holding(s, SectorType::Asteroid),
            );
            &&& lists_type(b, s, SectorType::Asteroid)
            &&& asteroid_choices(n, c, f, a).contains(b)
        }),
{
    let n = map_type.sector_count();
    let t = SectorType::Asteroid;
    let taken = taken_before_asteroids(c, f, a);
    let pool = places(n).filter(untaken(taken));
    lemma_places(n);
    lemma_filter_rising(places(n), untaken(taken));
    assert forall|p: usize| p < s.len() && s[p as int] == t implies pool.contains(p) by {
        lemma_taken_members(c, f, a, p);
        assert(places(n)[p as int] == p);
        places(n).lemma_filter_contains(untaken(taken), p as int);
    }
    lemma_held(s, t, pool);
    assert(has_wanted_count(map_type, s, t));
    let b = pool.filter(holding(s, t));
    assert(b.len() == 4);
    lemma_filter_is_combination(pool, holding(s, t), 4);
    assert(clue_holds(s, t, t, ClueConnection::AllAdjacent));
    assert forall|i: int| 0 <= i < b.len() implies b.contains(ring_prev(n, #[trigger] b[i]))
        || b.contains(ring_next(n, b[i])) by {
        let p = b[i];
        assert(b.contains(p));
        lemma_ring_neighbours(n, p);
        assert(holds_at(s, p + 1, t));
        assert(adjacent_to(s, p + 1, t));
    }
    assert(adjacency_closed(n, b));
    let picks = combos(pool, 4);
    let k = choose|k: int| 0 <= k < picks.len() && picks[k] == b;
    picks.lemma_filter_contains(closed_on(n), k);
}

/// Whether a list of places taken holds just the places of a layout that
/// hold none of `Space` and the nebulae.
spec fn taken_matches(s: Seq<SectorType>, taken: Seq<usize>) -> bool {
    forall|p: usize|
        p < s.len() ==> (taken.contains(p) <==> (s[p as int] != SectorType::Space && s[p as int]
            != SectorType::Nebula))
}

/// What the first four stages chose for a layout takes just the places
/// that hold neither `Space` nor a nebula.
proof fn lemma_taken_matches(
    s: Seq<SectorType>,
    c: Seq<usize>,
    f: usize,
    a: (usize, usize),
    b: Seq<usize>,
)
    requires
        early_matches(s, c, f),
        comets_match(s, a),
        lists_type(b, s, SectorType::Asteroid),
    ensures
        taken_matches(s, taken_before_asteroids(c, f, a) + b),
{
    let taken = taken_before_asteroids(c, f, a);
    assert forall|p: usize| p < s.len() implies ((taken + b).contains(p) <==> (s[p as int]
        != SectorType::Space && s[p as int] != SectorType::Nebula)) by {
        lemma_taken_members(c, f, a, p);
        if taken.contains(p) || b.contains(p) {
            lemma_member_of_sum(taken, b, p);
        }
        if (taken + b).contains(p) {
            let i = choose|i: int| 0 <= i < (taken + b).len() && (taken + b)[i] == p;
            if i < taken.len() {
                assert(taken[i] == p);
            } else {
                assert(b[i - taken.len() as int] == p);
            }
        }
    }
}

/// Whether the nebulae chosen for a layout are where it has them.
spec fn nebulae_match(s: Seq<SectorType>, d: (usize, usize)) -> bool {
    &&& d.0 != d.1
    &&& forall|p: usize|
        (p < s.len() && s[p as int] == SectorType::Nebula) <==> (p == d.0 || p == d.1)
}

/// The nebulae of a layout that keeps the rules are a choice of the fifth
/// stage.
proof fn lemma_nebulae_of(map_type: MapType, s: Seq<SectorType>, taken: Seq<usize>)
    requires
        valid_layout(map_type, s),
        taken_matches(s, taken),
    ensures
        ({
            let n = map_type.sector_count();
            let rest = places(n).filter(untaken(taken));
            let nebulae = rest.filter(holding(s, SectorType::Nebula));
            &&& nebulae_match(s, (nebulae[0], nebulae[1]))
            &&& nebula_choices(n, rest).contains((nebulae[0], nebulae[1]))
        }),
{
    let n = map_type.sector_count();
    let t = SectorType::Nebula;
    let rest = places(n).filter(untaken(taken));
    lemma_places(n);
    lemma_filter_rising(places(n), untaken(taken));
    assert forall|p: usize|
        p < s.len() && (s[p as int] == t || s[p as int] == SectorType::Space) implies rest.contains(
        p,
    ) by {
        assert(places(n)[p as int] == p);
        places(n).lemma_filter_contains(untaken(taken), p as int);
    }
    lemma_held(s, t, rest);
    assert(has_wanted_count(map_type, s, t));
    let nebulae = rest.filter(holding(s, t));
    assert(nebulae.len() == 2);
    assert(nebulae.contains(nebulae[0]) && nebulae.contains(nebulae[1]));
    assert(nebulae[0] < nebulae[1]);
    let d = (nebulae[0], nebulae[1]);
    assert forall|p: usize| (p < s.len() && s[p as int] == t) <==> (p == d.0 || p == d.1) by {
        if p < s.len() && s[p as int] == t {
            let i = choose|i: int| 0 <= i < nebulae.len() && nebulae[i] == p;
        }
    }
    lemma_filter_is_combination(rest, holding(s, t), 2);
    let picks = combos(rest, 2);
    let k = choose|k: int| 0 <= k < picks.len() && picks[k] == nebulae;
    assert(pairs(rest)[k] == d);
    assert(clue_holds(s, t, SectorType::Space, ClueConnection::AllAdjacent));
    assert forall|x: usize| x == d.0 || x == d.1 implies nebula_has_space(n, rest, d, x) by {
        lemma_ring_neighbours(n, x);
        assert(holds_at(s, x + 1, t));
        assert(adjacent_to(s, x + 1, SectorType::Space));
    }
    pairs(rest).lemma_filter_contains(splits_well(n, rest), k);
}

/// The layout that the stages build from what they chose for a layout is
/// that layout.
proof fn lemma_built_is_layout(n: usize, s: Seq<SectorType>, w: Choice)
    requires
        s.len() == n,
        early_matches(s, w.c, w.f),
        comets_match(s, w.a),
        lists_type(w.b, s, SectorType::Asteroid),
        nebulae_match(s, w.d),
    ensures
        built_layout(n, w.c, w.f, w.a, w.b, w.d) == s,
{
    let l = built_layout(n, w.c, w.f, w.a, w.b, w.d);
    assert forall|i: int| 0 <= i < n implies l[i] == s[i] by {
        let p = i as usize;
        assert(l[i] == built_type(w.c, w.f, w.a, w.b, w.d, p));
    }
    assert(l =~= s);
}

/// Every layout that keeps the rules of a board is the layout of a choice
/// that the five stages can make.
pub proof fn lemma_valid_is_chosen(map_type: MapType, s: Seq<SectorType>)
    requires
        valid_layout(map_type, s),
    ensures
        choice_of(map_type, s).chosen(map_type),
        choice_of(map_type, s).layout(map_type) == s,
{
    let n = map_type.sector_count();
    let w = choice_of(map_type, s);
    lemma_dwarfs_of(map_type, s);
    lemma_x_of(map_type, s, w.c);
    lemma_comets_of(map_type, s, w.c, w.f);
    lemma_asteroids_of(map_type, s, w.c, w.f, w.a);
    lemma_taken_matches(s, w.c, w.f, w.a, w.b);
    lemma_nebulae_of(map_type, s, taken_before_asteroids(w.c, w.f, w.a) + w.b);
    lemma_built_is_layout(n, s, w);
}

/// The enumeration misses no layout: every layout that keeps the rules of a
/// board is enumerated.
pub proof fn lemma_enumeration_is_complete(map_type: MapType, s: Seq<SectorType>)
    requires
        valid_layout(map_type, s),
    ensures
        enumeration(map_type).contains(s),
{
    lemma_valid_is_chosen(map_type, s);
    lemma_chosen_is_enumerated(map_type, choice_of(map_type, s));
}

} // verus!
