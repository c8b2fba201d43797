use vstd::prelude::*;

use super::clue::{adjacent_to, clue_holds, holds_at, ClueConnection};
use super::enumerator::{
    adjacency_closed, asteroid_choices, blocks, built_layout, built_type, closed_on, combos,
    comet_choices, dwarf_choices, enumeration, leftover, lemma_combos_shape, nebula_choices,
    nebula_has_space, pairs, places, prime_places, ring_next, ring_prev, rising, splits_well,
    taken_before_asteroids, unblocked, untaken, window_choices, window_mids, windows_upto,
    x_choices,
};
use super::model::{next_index, prev_index, type_at, MapType, SectorType};
use super::lists::{lemma_filter_member, lemma_filter_rising};
use super::origin::{lemma_enumeration_origin, Choice};
use super::validity::{
    has_wanted_count, is_prime_place, places_of, steps_from, valid_layout, window_holds, wrap,
};

verus! {

broadcast use {vstd::seq_lib::group_seq_properties, vstd::set::group_set_axioms};



/// What the stages before the asteroids have chosen, and what follows of it
/// for the places chosen: they are places of the board, no two stages chose
/// the same place, X keeps off the dwarf planets, and the comets are on
/// prime places.
pub open spec fn early_choice_fits(n: usize, w: Choice) -> bool {
    &&& forall|i: int| 0 <= i < w.c.len() ==> #[trigger] w.c[i] < n
    &&& w.f < n
    &&& !blocks(n, w.c, w.f)
    &&& w.a.0 < w.a.1 < n
    &&& prime_places(n).contains(w.a.0)
    &&& prime_places(n).contains(w.a.1)
    &&& !w.c.contains(w.a.0)
    &&& !w.c.contains(w.a.1)
    &&& w.a.0 != w.f
    &&& w.a.1 != w.f
}

/// What the last two stages have chosen, and what follows of it: four
/// asteroids on free places, each next to another; two nebulae on free
/// places, each next to a place that stays free.
pub open spec fn late_choice_fits(n: usize, w: Choice) -> bool {
    let taken = taken_before_asteroids(w.c, w.f, w.a);
    &&& w.b.len() == 4
    &&& rising(w.b)
    &&& forall|i: int| 0 <= i < w.b.len() ==> #[trigger] w.b[i] < n && !taken.contains(w.b[i])
    &&& adjacency_closed(n, w.b)
    &&& w.d.0 < w.d.1 < n
    &&& !(taken + w.b).contains(w.d.0)
    &&& !(taken + w.b).contains(w.d.1)
    &&& nebula_has_space(n, leftover(n, w.c, w.f, w.a, w.b), w.d, w.d.0)
    &&& nebula_has_space(n, leftover(n, w.c, w.f, w.a, w.b), w.d, w.d.1)
}

/// The places `0..n` rise.
pub proof fn lemma_places_rising(n: usize)
    ensures
        rising(places(n)),
        forall|x: usize| places(n).contains(x) ==> x < n,
{
}

/// What follows for X and the comets from their being chosen.
pub proof fn lemma_early_choice(n: usize, w: Choice)
    requires
        n == 12 || n == 18,
        forall|i: int| 0 <= i < w.c.len() ==> #[trigger] w.c[i] < n,
        x_choices(n, w.c).contains(w.f),
        comet_choices(n, w.c, w.f).contains(w.a),
    ensures
        early_choice_fits(n, w),
{
    lemma_places_rising(n);
    lemma_filter_member(places(n), unblocked(n, w.c), w.f);
    let pool = prime_places(n).filter(untaken(w.c.push(w.f)));
    let k = choose|k: int| 0 <= k < pairs(pool).len() && pairs(pool)[k] == w.a;
    lemma_combos_shape(pool, 2, k);
    assert(rising(prime_places(n)));
    lemma_filter_rising(prime_places(n), untaken(w.c.push(w.f)));
    let cb = combos(pool, 2)[k];
    assert(pool.contains(cb[0]));
    assert(pool.contains(cb[1]));
    lemma_filter_member(prime_places(n), untaken(w.c.push(w.f)), cb[0]);
    lemma_filter_member(prime_places(n), untaken(w.c.push(w.f)), cb[1]);
    assert(w.c.push(w.f).contains(w.f)) by {
        assert(w.c.push(w.f)[w.c.len() as int] == w.f);
    }
    assert forall|x: usize| w.c.contains(x) implies w.c.push(w.f).contains(x) by {
        let i = choose|i: int| 0 <= i < w.c.len() && w.c[i] == x;
        assert(w.c.push(w.f)[i] == x);
    }
    let j0 = choose|j: int| 0 <= j < prime_places(n).len() && prime_places(n)[j] == cb[0];
    let j1 = choose|j: int| 0 <= j < prime_places(n).len() && prime_places(n)[j] == cb[1];
}

/// What follows for the asteroids and the nebulae from their being chosen.
pub proof fn lemma_late_choice(n: usize, w: Choice)
    requires
        n == 12 || n == 18,
        asteroid_choices(n, w.c, w.f, w.a).contains(w.b),
        nebula_choices(n, leftover(n, w.c, w.f, w.a, w.b)).contains(w.d),
    ensures
        late_choice_fits(n, w),
{
    lemma_places_rising(n);
    let taken = taken_before_asteroids(w.c, w.f, w.a);
    let pool = places(n).filter(untaken(taken));
    lemma_filter_rising(places(n), untaken(taken));
    lemma_filter_member(combos(pool, 4), closed_on(n), w.b);
    let k = choose|k: int| 0 <= k < combos(pool, 4).len() && combos(pool, 4)[k] == w.b;
    lemma_combos_shape(pool, 4, k);
    assert forall|i: int| 0 <= i < w.b.len() implies #[trigger] w.b[i] < n && !taken.contains(
        w.b[i],
    ) by {
        assert(pool.contains(w.b[i]));
        lemma_filter_member(places(n), untaken(taken), w.b[i]);
    }
    let rest = leftover(n, w.c, w.f, w.a, w.b);
    lemma_filter_rising(places(n), untaken(taken + w.b));
    lemma_filter_member(pairs(rest), splits_well(n, rest), w.d);
    let m = choose|m: int| 0 <= m < pairs(rest).len() && pairs(rest)[m] == w.d;
    lemma_combos_shape(rest, 2, m);
    let cb = combos(rest, 2)[m];
    assert(rest.contains(cb[0]));
    assert(rest.contains(cb[1]));
    lemma_filter_member(places(n), untaken(taken + w.b), cb[0]);
    lemma_filter_member(places(n), untaken(taken + w.b), cb[1]);
}

/// What a choice of dwarf planets looks like: on the small board one place;
/// on the large board a place `start`, the place five steps on, and two
/// different places between them.
pub open spec fn dwarf_choice_fits(map_type: MapType, c: Seq<usize>, start: usize) -> bool {
    match map_type {
        MapType::Standard => c.len() == 1 && c[0] < 12 && start == c[0],
        MapType::Expert => {
            &&& c.len() == 4
            &&& start < 18
            &&& c[0] == start
            &&& c[1] == (start + 5) % 18
            &&& exists|x: int, y: int|
                1 <= x <= 4 && 1 <= y <= 4 && x != y && c[2] == #[trigger] ((start + x) % 18)
                    && c[3] == #[trigger] ((start + y) % 18)
        },
    }
}

/// A choice of windows up to `upto` is the choice of one window.
pub proof fn lemma_window_member(n: usize, upto: usize, c: Seq<usize>) -> (start: usize)
    requires
        windows_upto(n, upto).contains(c),
    ensures
        start < upto,
        window_choices(n, start).contains(c),
    decreases upto,
{
    if upto == 0 {
        0
    } else {
        let before = windows_upto(n, (upto - 1) as usize);
        let last = window_choices(n, (upto - 1) as usize);
        let i = choose|i: int| 0 <= i < (before + last).len() && (before + last)[i] == c;
        if i < before.len() {
            assert(before[i] == c);
            lemma_window_member(n, (upto - 1) as usize, c)
        } else {
            assert(last[i - before.len()] == c);
            (upto - 1) as usize
        }
    }
}

/// What follows for the dwarf planets from their being chosen.
pub proof fn lemma_dwarf_choice(map_type: MapType, c: Seq<usize>) -> (start: usize)
    requires
        dwarf_choices(map_type).contains(c),
    ensures
        dwarf_choice_fits(map_type, c, start),
{
    match map_type {
        MapType::Standard => {
            let i = choose|i: int|
                0 <= i < dwarf_choices(map_type).len() && dwarf_choices(map_type)[i] == c;
            assert(c == seq![i as usize]);
            c[0]
        },
        MapType::Expert => {
            let start = lemma_window_member(18, 18, c);
            let mids = window_mids(18, start);
            let k = choose|k: int|
                0 <= k < window_choices(18, start).len() && window_choices(18, start)[k] == c;
            lemma_combos_shape(mids, 2, k);
            let cb = combos(mids, 2)[k];
            assert(c == seq![start, ((start + 5) % 18) as usize, cb[0], cb[1]]);
            assert(mids.no_duplicates());
            assert(mids.contains(cb[0]));
            assert(mids.contains(cb[1]));
            let i0 = choose|i: int| 0 <= i < mids.len() && mids[i] == cb[0];
            let i1 = choose|i: int| 0 <= i < mids.len() && mids[i] == cb[1];
            assert(cb[0] != cb[1]);
            assert(i0 != i1);
            assert(c[2] == (start + (i0 + 1)) % 18);
            assert(c[3] == (start + (i1 + 1)) % 18);
            start
        },
    }
}

/// The places that are taken before the asteroids are those of the dwarf
/// planets, of X and of the comets.
pub proof fn lemma_taken_members(c: Seq<usize>, f: usize, a: (usize, usize), x: usize)
    ensures
        taken_before_asteroids(c, f, a).contains(x) <==> (c.contains(x) || x == f || x == a.0 || x
            == a.1),
{
    let t = taken_before_asteroids(c, f, a);
    assert(t[c.len() as int] == f);
    assert(t[c.len() as int + 1] == a.0);
    assert(t[c.len() as int + 2] == a.1);
    if c.contains(x) {
        let i = choose|i: int| 0 <= i < c.len() && c[i] == x;
        assert(t[i] == x);
    }
    if t.contains(x) {
        let i = choose|i: int| 0 <= i < t.len() && t[i] == x;
        if i < c.len() {
            assert(c[i] == x);
        }
    }
}

/// What each place of the built layout holds, said by the stage that chose
/// it.
pub proof fn lemma_built_types(n: usize, w: Choice, p: usize)
    requires
        early_choice_fits(n, w),
        late_choice_fits(n, w),
        p < n,
    ensures
        built_type(w.c, w.f, w.a, w.b, w.d, p) == SectorType::Nebula <==> (p == w.d.0 || p
            == w.d.1),
        built_type(w.c, w.f, w.a, w.b, w.d, p) == SectorType::Asteroid <==> w.b.contains(p),
        built_type(w.c, w.f, w.a, w.b, w.d, p) == SectorType::Comet <==> (p == w.a.0 || p
            == w.a.1),
        built_type(w.c, w.f, w.a, w.b, w.d, p) == SectorType::X <==> p == w.f,
        built_type(w.c, w.f, w.a, w.b, w.d, p) == SectorType::DwarfPlanet <==> w.c.contains(p),
        built_type(w.c, w.f, w.a, w.b, w.d, p) == SectorType::Space <==> !(
            taken_before_asteroids(w.c, w.f, w.a) + w.b).contains(p) && p != w.d.0 && p != w.d.1,
{
    let taken = taken_before_asteroids(w.c, w.f, w.a);
    lemma_taken_members(w.c, w.f, w.a, p);
    lemma_taken_members(w.c, w.f, w.a, w.d.0);
    lemma_taken_members(w.c, w.f, w.a, w.d.1);
    lemma_taken_members(w.c, w.f, w.a, w.f);
    lemma_taken_members(w.c, w.f, w.a, w.a.0);
    lemma_taken_members(w.c, w.f, w.a, w.a.1);
    if w.b.contains(p) {
        let i = choose|i: int| 0 <= i < w.b.len() && w.b[i] == p;
        assert((taken + w.b)[taken.len() as int + i] == p);
        assert(!taken.contains(w.b[i]));
    }
    if taken.contains(p) {
        let i = choose|i: int| 0 <= i < taken.len() && taken[i] == p;
        assert((taken + w.b)[i] == p);
    }
    if (taken + w.b).contains(p) {
        let i = choose|i: int| 0 <= i < (taken + w.b).len() && (taken + w.b)[i] == p;
        if i < taken.len() {
            assert(taken[i] == p);
        } else {
            assert(w.b[i - taken.len() as int] == p);
        }
    }
    assert(!w.c.contains(w.f)) by {
        // X keeps off the places of the dwarf planets
    }
}

/// The positions of the built layout that hold a type, said by the places
/// that the stages chose.
pub proof fn lemma_built_holds(map_type: MapType, w: Choice, pos: int)
    requires
        early_choice_fits(map_type.sector_count(), w),
        late_choice_fits(map_type.sector_count(), w),
    ensures
        holds_at(w.layout(map_type), pos, SectorType::Nebula) <==> (pos == w.d.0 + 1 || pos
            == w.d.1 + 1),
        holds_at(w.layout(map_type), pos, SectorType::Asteroid) <==> (1 <= pos
            <= map_type.sector_count() && w.b.contains((pos - 1) as usize)),
        holds_at(w.layout(map_type), pos, SectorType::Comet) <==> (pos == w.a.0 + 1 || pos
            == w.a.1 + 1),
        holds_at(w.layout(map_type), pos, SectorType::X) <==> pos == w.f + 1,
        holds_at(w.layout(map_type), pos, SectorType::DwarfPlanet) <==> (1 <= pos
            <= map_type.sector_count() && w.c.contains((pos - 1) as usize)),
        holds_at(w.layout(map_type), pos, SectorType::Space) <==> (1 <= pos
            <= map_type.sector_count() && !(taken_before_asteroids(w.c, w.f, w.a) + w.b).contains(
            (pos - 1) as usize,
        ) && pos != w.d.0 + 1 && pos != w.d.1 + 1),
{
    let n = map_type.sector_count();
    if 1 <= pos <= n {
        lemma_built_types(n, w, (pos - 1) as usize);
        assert(type_at(w.layout(map_type), pos) == built_type(
            w.c,
            w.f,
            w.a,
            w.b,
            w.d,
            (pos - 1) as usize,
        ));
    }
}

/// A rising list of four places holds four places.
proof fn lemma_four_places(b: Seq<usize>, set: Set<int>)
    requires
        b.len() == 4,
        b.no_duplicates(),
        forall|pos: int| set.contains(pos) <==> (pos >= 1 && b.contains((pos - 1) as usize) && pos - 1 <= usize::MAX),
    ensures
        set.finite(),
        set.len() == 4,
{
    let e = set![b[0] + 1, b[1] + 1, b[2] + 1, b[3] + 1];
    assert forall|pos: int| set.contains(pos) <==> e.contains(pos) by {
        if set.contains(pos) {
            let i = choose|i: int| 0 <= i < b.len() && b[i] == (pos - 1) as usize;
        }
        if e.contains(pos) {
            assert(b.contains(b[0]) && b.contains(b[1]) && b.contains(b[2]) && b.contains(b[3]));
        }
    }
    assert(set =~= e);
}

/// A type that is held at two positions and no other is held by two sectors.
proof fn lemma_two_places(l: Seq<SectorType>, t: SectorType, x: int, y: int)
    requires
        x != y,
        forall|pos: int| holds_at(l, pos, t) <==> (pos == x || pos == y),
    ensures
        places_of(l, t).finite(),
        places_of(l, t).len() == 2,
{
    assert(places_of(l, t) =~= set![x, y]);
}

/// A type that is held at one position and no other is held by one sector.
proof fn lemma_one_place(l: Seq<SectorType>, t: SectorType, x: int)
    requires
        forall|pos: int| holds_at(l, pos, t) <==> pos == x,
    ensures
        places_of(l, t).finite(),
        places_of(l, t).len() == 1,
{
    assert(places_of(l, t) =~= set![x]);
}

/// A type that is held at the places of a list of four and no other is held
/// by four sectors.
proof fn lemma_list_places(l: Seq<SectorType>, t: SectorType, b: Seq<usize>, n: usize)
    requires
        b.len() == 4,
        b.no_duplicates(),
        forall|i: int| 0 <= i < b.len() ==> b[i] < n,
        forall|pos: int| holds_at(l, pos, t) <==> (1 <= pos <= n && b.contains((pos - 1) as usize)),
    ensures
        places_of(l, t).finite(),
        places_of(l, t).len() == 4,
{
    assert forall|pos: int| places_of(l, t).contains(pos) <==> (pos >= 1 && b.contains(
        (pos - 1) as usize,
    ) && pos - 1 <= usize::MAX) by {
        if pos >= 1 && b.contains((pos - 1) as usize) && pos - 1 <= usize::MAX {
            let i = choose|i: int| 0 <= i < b.len() && b[i] == (pos - 1) as usize;
            assert(b[i] < n);
        }
    }
    lemma_four_places(b, places_of(l, t));
}

/// The dwarf planets of the large board are four different places of one
/// window.
pub proof fn lemma_dwarf_window(c: Seq<usize>, start: usize)
    requires
        dwarf_choice_fits(MapType::Expert, c, start),
    ensures
        c.len() == 4,
        c.no_duplicates(),
        start < 18,
        c[0] == start,
        c[1] + 1 == wrap(18, start + 1 + 5),
        forall|i: int| 0 <= i < c.len() ==> c[i] < 18 && steps_from(18, start + 1, c[i] + 1) <= 5,
{
    let (x, y) = choose|x: int, y: int|
        1 <= x <= 4 && 1 <= y <= 4 && x != y && c[2] == #[trigger] ((start + x) % 18) && c[3]
            == #[trigger] ((start + y) % 18);
    assert forall|i: int| 0 <= i < c.len() implies c[i] < 18 && steps_from(
        18,
        start + 1,
        c[i] + 1,
    ) <= 5 by {
        if i == 0 {
        } else if i == 1 {
        } else if i == 2 {
        } else {
        }
    }
    assert forall|i: int, j: int| 0 <= i < c.len() && 0 <= j < c.len() && i != j implies c[i]
        != c[j] by {
        assert(c[0] == start);
        assert(c[1] == (start + 5) % 18);
        assert(c[2] == (start + x) % 18);
        assert(c[3] == (start + y) % 18);
    }
}

/// In the built layout the comets, the nebulae and X are held by as many
/// sectors as the board wants.
proof fn lemma_built_counts_small(map_type: MapType, w: Choice)
    requires
        early_choice_fits(map_type.sector_count(), w),
        late_choice_fits(map_type.sector_count(), w),
    ensures
        has_wanted_count(map_type, w.layout(map_type), SectorType::Comet),
        has_wanted_count(map_type, w.layout(map_type), SectorType::Nebula),
        has_wanted_count(map_type, w.layout(map_type), SectorType::X),
{
    let l = w.layout(map_type);
    assert forall|pos: int|
        holds_at(l, pos, SectorType::Comet) <==> (pos == w.a.0 + 1 || pos == w.a.1 + 1) by {
        lemma_built_holds(map_type, w, pos);
    }
    lemma_two_places(l, SectorType::Comet, w.a.0 + 1, w.a.1 + 1);
    assert forall|pos: int|
        holds_at(l, pos, SectorType::Nebula) <==> (pos == w.d.0 + 1 || pos == w.d.1 + 1) by {
        lemma_built_holds(map_type, w, pos);
    }
    lemma_two_places(l, SectorType::Nebula, w.d.0 + 1, w.d.1 + 1);
    assert forall|pos: int| holds_at(l, pos, SectorType::X) <==> pos == w.f + 1 by {
        lemma_built_holds(map_type, w, pos);
    }
    lemma_one_place(l, SectorType::X, w.f + 1);
}

/// In the built layout the asteroids are held by four sectors.
proof fn lemma_built_counts_asteroids(map_type: MapType, w: Choice)
    requires
        early_choice_fits(map_type.sector_count(), w),
        late_choice_fits(map_type.sector_count(), w),
    ensures
        has_wanted_count(map_type, w.layout(map_type), SectorType::Asteroid),
{
    let l = w.layout(map_type);
    let n = map_type.sector_count();
    assert forall|pos: int|
        holds_at(l, pos, SectorType::Asteroid) <==> (1 <= pos <= n && w.b.contains(
            (pos - 1) as usize,
        )) by {
        lemma_built_holds(map_type, w, pos);
    }
    lemma_list_places(l, SectorType::Asteroid, w.b, n);
}

/// In the built layout the dwarf planets are held by as many sectors as the
/// board wants.
proof fn lemma_built_counts_dwarfs(map_type: MapType, w: Choice, start: usize)
    requires
        dwarf_choice_fits(map_type, w.c, start),
        early_choice_fits(map_type.sector_count(), w),
        late_choice_fits(map_type.sector_count(), w),
    ensures
        has_wanted_count(map_type, w.layout(map_type), SectorType::DwarfPlanet),
{
    let l = w.layout(map_type);
    let n = map_type.sector_count();
    assert forall|pos: int|
        holds_at(l, pos, SectorType::DwarfPlanet) <==> (1 <= pos <= n && w.c.contains(
            (pos - 1) as usize,
        )) by {
        lemma_built_holds(map_type, w, pos);
    }
    match map_type {
        MapType::Standard => {
            assert forall|pos: int| holds_at(l, pos, SectorType::DwarfPlanet) <==> pos == w.c[0]
                + 1 by {
                if holds_at(l, pos, SectorType::DwarfPlanet) {
                    let i = choose|i: int| 0 <= i < w.c.len() && w.c[i] == (pos - 1) as usize;
                }
                if pos == w.c[0] + 1 {
                    assert(w.c.contains(w.c[0]));
                }
            }
            lemma_one_place(l, SectorType::DwarfPlanet, w.c[0] + 1);
        },
        MapType::Expert => {
            lemma_dwarf_window(w.c, start);
            lemma_list_places(l, SectorType::DwarfPlanet, w.c, n);
        },
    }
}

/// The neighbours of a position of the ring, counted from 1, are the
/// neighbours of its place, counted from 0.
pub proof fn lemma_ring_neighbours(n: usize, p: usize)
    requires
        p < n,
        n >= 2,
    ensures
        prev_index(n as int, p + 1) == ring_prev(n, p) + 1,
        next_index(n as int, p + 1) == ring_next(n, p) + 1,
        ring_prev(n, p) < n,
        ring_next(n, p) < n,
        ring_next(n, ring_prev(n, p)) == p,
        ring_prev(n, ring_next(n, p)) == p,
{
}

/// In the built layout the comets lie on prime positions.
proof fn lemma_built_comets(map_type: MapType, w: Choice)
    requires
        early_choice_fits(map_type.sector_count(), w),
        late_choice_fits(map_type.sector_count(), w),
    ensures
        forall|p: int| #[trigger]
            holds_at(w.layout(map_type), p, SectorType::Comet) ==> is_prime_place(p),
{
    let n = map_type.sector_count();
    let l = w.layout(map_type);
    assert forall|p: int| #[trigger] holds_at(l, p, SectorType::Comet) implies is_prime_place(
        p,
    ) by {
        lemma_built_holds(map_type, w, p);
        let x = (p - 1) as usize;
        let j = choose|j: int| 0 <= j < prime_places(n).len() && prime_places(n)[j] == x;
    }
}

/// In the built layout every asteroid has an asteroid next to it.
proof fn lemma_built_asteroids(map_type: MapType, w: Choice)
    requires
        early_choice_fits(map_type.sector_count(), w),
        late_choice_fits(map_type.sector_count(), w),
    ensures
        clue_holds(
            w.layout(map_type),
            SectorType::Asteroid,
            SectorType::Asteroid,
            ClueConnection::AllAdjacent,
        ),
{
    let n = map_type.sector_count();
    let l = w.layout(map_type);
    assert forall|p: int| #[trigger] holds_at(l, p, SectorType::Asteroid) implies adjacent_to(
        l,
        p,
        SectorType::Asteroid,
    ) by {
        lemma_built_holds(map_type, w, p);
        let x = (p - 1) as usize;
        lemma_ring_neighbours(n, x);
        let i = choose|i: int| 0 <= i < w.b.len() && w.b[i] == x;
        assert(w.b.contains(ring_prev(n, w.b[i])) || w.b.contains(ring_next(n, w.b[i])));
        lemma_built_holds(map_type, w, prev_index(n as int, p));
        lemma_built_holds(map_type, w, next_index(n as int, p));
    }
}

/// In the built layout no dwarf planet has X next to it.
proof fn lemma_built_dwarfs(map_type: MapType, w: Choice)
    requires
        early_choice_fits(map_type.sector_count(), w),
        late_choice_fits(map_type.sector_count(), w),
    ensures
        clue_holds(
            w.layout(map_type),
            SectorType::DwarfPlanet,
            SectorType::X,
            ClueConnection::NotAdjacent,
        ),
{
    let n = map_type.sector_count();
    let l = w.layout(map_type);
    assert forall|p: int| #[trigger] holds_at(l, p, SectorType::DwarfPlanet) implies !adjacent_to(
        l,
        p,
        SectorType::X,
    ) by {
        lemma_built_holds(map_type, w, p);
        let x = (p - 1) as usize;
        lemma_ring_neighbours(n, x);
        lemma_ring_neighbours(n, w.f);
        lemma_built_holds(map_type, w, prev_index(n as int, p));
        lemma_built_holds(map_type, w, next_index(n as int, p));
    }
}

/// In the built layout every nebula has a `Space` next to it.
proof fn lemma_built_nebulae(map_type: MapType, w: Choice)
    requires
        early_choice_fits(map_type.sector_count(), w),
        late_choice_fits(map_type.sector_count(), w),
    ensures
        clue_holds(
            w.layout(map_type),
            SectorType::Nebula,
            SectorType::Space,
            ClueConnection::AllAdjacent,
        ),
{
    let n = map_type.sector_count();
    let l = w.layout(map_type);
    let rest = leftover(n, w.c, w.f, w.a, w.b);
    let taken = taken_before_asteroids(w.c, w.f, w.a);
    assert forall|p: int| #[trigger] holds_at(l, p, SectorType::Nebula) implies adjacent_to(
        l,
        p,
        SectorType::Space,
    ) by {
        lemma_built_holds(map_type, w, p);
        let x = (p - 1) as usize;
        lemma_ring_neighbours(n, x);
        assert(nebula_has_space(n, rest, w.d, x));
        let before = ring_prev(n, x);
        let after = ring_next(n, x);
        if rest.contains(before) && before != w.d.0 && before != w.d.1 {
            lemma_filter_member(places(n), untaken(taken + w.b), before);
            lemma_built_holds(map_type, w, prev_index(n as int, p));
        } else {
            lemma_filter_member(places(n), untaken(taken + w.b), after);
            lemma_built_holds(map_type, w, next_index(n as int, p));
        }
    }
}

/// On the large board the dwarf planets of the built layout fill the window
/// that the first stage chose.
pub proof fn lemma_built_window(w: Choice, start: usize)
    requires
        dwarf_choice_fits(MapType::Expert, w.c, start),
        early_choice_fits(18, w),
        late_choice_fits(18, w),
    ensures
        window_holds(w.layout(MapType::Expert), start + 1),
{
    let l = w.layout(MapType::Expert);
    lemma_dwarf_window(w.c, start);
    assert forall|pos: int|
        holds_at(l, pos, SectorType::DwarfPlanet) <==> (1 <= pos <= 18 && w.c.contains(
            (pos - 1) as usize,
        )) by {
        lemma_built_holds(MapType::Expert, w, pos);
    }
    lemma_window_of_list(l, w.c, start);
}

/// A layout whose dwarf planets are the places of a list within one window
/// has its dwarf planets fill that window.
proof fn lemma_window_of_list(l: Seq<SectorType>, c: Seq<usize>, start: usize)
    requires
        l.len() == 18,
        c.len() == 4,
        start < 18,
        c[0] == start,
        c[1] + 1 == wrap(18, start + 1 + 5),
        forall|i: int| 0 <= i < c.len() ==> c[i] < 18 && steps_from(18, start + 1, c[i] + 1) <= 5,
        forall|pos: int|
            holds_at(l, pos, SectorType::DwarfPlanet) <==> (1 <= pos <= 18 && c.contains(
                (pos - 1) as usize,
            )),
    ensures
        window_holds(l, start + 1),
{
    assert(c.contains(c[0]) && c.contains(c[1]));
    assert(holds_at(l, start + 1, SectorType::DwarfPlanet));
    assert(holds_at(l, wrap(18, start + 1 + 5), SectorType::DwarfPlanet));
    assert forall|p: int| #[trigger] holds_at(l, p, SectorType::DwarfPlanet) implies steps_from(
        18,
        start + 1,
        p,
    ) <= 5 by {
        let i = choose|i: int| 0 <= i < c.len() && c[i] == (p - 1) as usize;
        assert(c[i] + 1 == p);
    }
}

/// The layout of a choice that the five stages can make keeps the rules of
/// the board.
pub proof fn lemma_choice_is_valid(map_type: MapType, w: Choice)
    requires
        w.chosen(map_type),
    ensures
        valid_layout(map_type, w.layout(map_type)),
{
    let n = map_type.sector_count();
    let start = lemma_dwarf_choice(map_type, w.c);
    assert forall|i: int| 0 <= i < w.c.len() implies #[trigger] w.c[i] < n by {}
    lemma_early_choice(n, w);
    lemma_late_choice(n, w);
    lemma_built_counts_small(map_type, w);
    lemma_built_counts_asteroids(map_type, w);
    lemma_built_counts_dwarfs(map_type, w, start);
    lemma_built_comets(map_type, w);
    lemma_built_asteroids(map_type, w);
    lemma_built_dwarfs(map_type, w);
    lemma_built_nebulae(map_type, w);
    if map_type == MapType::Expert {
        lemma_built_window(w, start);
    }
}

/// Every layout that the enumerator hands out keeps the rules of its board.
pub proof fn lemma_enumeration_is_valid(map_type: MapType, i: int)
    requires
        0 <= i < enumeration(map_type).len(),
    ensures
        valid_layout(map_type, enumeration(map_type)[i]),
{
    let w = lemma_enumeration_origin(map_type, i);
    lemma_choice_is_valid(map_type, w);
}

} // verus!
