use rand::rngs::SmallRng;
use vstd::prelude::*;

use super::model::{
    next_index, prev_index, slice_contains, GameMap, MapType, Sector, SectorType, Sectors,
};
use super::validity::{check_sectors_rules, is_prime_place, valid_layout};
use crate::random::{random_coin, random_usize_below, random_usize_inclusive};

verus! {

broadcast use vstd::seq_lib::group_seq_properties;

/// Why no map came out.
#[derive(Debug, Clone, Copy, PartialEq, Eq, Structural)]
pub enum MapError {
    /// No free place with a prime number was drawn.
    NoPrimeIndex,
    /// No place is free.
    NoRestIndex,
    /// No two free places next to each other were drawn.
    NoPairIndex,
    /// No window for the dwarf planets was drawn.
    NoRange,
    /// No place for a nebula was drawn.
    NoNebula,
    /// No free place suits X.
    NoX,
    /// The rounds allowed for one map were used up.
    OutOfTries,
    /// What was drawn does not keep the rules of the board.
    BrokenRules,
}

/// How often a draw is tried again.
pub const RAND_TRY_TIMES: usize = 10;

/// How many stages are tried before a map is given up.
pub const MAX_ROUNDS: usize = 100000;

/// Whether a position has a prime number.
pub fn is_prime(n: usize) -> (r: bool)
    ensures
        r == is_prime_place(n as int),
{
    n == 2 || n == 3 || n == 5 || n == 7 || n == 11 || n == 13 || n == 17
}

/// The test that `remove_value` filters by.
pub open spec fn differs_from(x: usize) -> spec_fn(usize) -> bool {
    |y: usize| y != x
}

/// Takes every `x` out of a list.
pub fn remove_value(items: &mut Vec<usize>, x: usize)
    ensures
        final(items)@ == old(items)@.filter(differs_from(x)),
{
    let mut kept: Vec<usize> = Vec::new();
    let mut i: usize = 0;
    assert(items@.take(0) =~= Seq::<usize>::empty());
    while i < items.len()
        invariant
            *items == *old(items),
            i <= items@.len(),
            kept@ == items@.take(i as int).filter(differs_from(x)),
        decreases items@.len() - i,
    {
        proof {
            assert(items@.take(i + 1) =~= items@.take(i as int).push(items@[i as int]));
            items@.take(i as int).lemma_filter_push(items@[i as int], differs_from(x));
        }
        if items[i] != x {
            kept.push(items[i]);
        }
        i += 1;
    }
    assert(items@.take(items@.len() as int) =~= items@);
    *items = kept;
}

/// Whether every item of a list is a position of a board of `n` sectors.
pub open spec fn all_on_board(items: Seq<usize>, n: usize) -> bool {
    forall|i: int| 0 <= i < items.len() ==> 1 <= #[trigger] items[i] <= n
}

/// Whether every sector of a list lies on a board of `n` sectors.
pub open spec fn sectors_on_board(sectors: Seq<Sector>, n: usize) -> bool {
    forall|i: int| 0 <= i < sectors.len() ==> 1 <= (#[trigger] sectors[i]).index <= n
}

/// What is left of a list of positions of the board without `x` is a list
/// of positions of the board.
proof fn lemma_filter_on_board(items: Seq<usize>, x: usize, n: usize)
    requires
        all_on_board(items, n),
    ensures
        all_on_board(items.filter(differs_from(x)), n),
{
    let f = items.filter(differs_from(x));
    assert forall|i: int| 0 <= i < f.len() implies 1 <= #[trigger] f[i] <= n by {
        assert(f.contains(f[i]));
        items.lemma_filter_contains_rev(differs_from(x), f[i]);
        let w = choose|w: int| 0 <= w < items.len() && items[w] == f[i];
    }
}

/// Whether `after` holds no place that `before` did not hold, and every
/// place of `before` but those of `taken`.
pub open spec fn left_of(after: Seq<usize>, before: Seq<usize>, taken: Seq<usize>) -> bool {
    &&& forall|x: usize| #[trigger] after.contains(x) ==> before.contains(x)
    &&& forall|x: usize| #[trigger] before.contains(x) && !taken.contains(x) ==> after.contains(x)
}

/// Whether two lists hold the same places.
pub open spec fn same_places(a: Seq<usize>, b: Seq<usize>) -> bool {
    forall|x: usize|
        #![trigger a.contains(x)]
        #![trigger b.contains(x)]
        a.contains(x) <==> b.contains(x)
}

/// The place before `p` on a ring of `n` places.
pub open spec fn before_place(n: usize, p: usize) -> usize {
    prev_index(n as int, p as int) as usize
}

/// The place behind `p` on a ring of `n` places.
pub open spec fn behind_place(n: usize, p: usize) -> usize {
    next_index(n as int, p as int) as usize
}

/// Whether two places lie next to each other on a ring of `n` places.
pub open spec fn beside(n: usize, a: usize, b: usize) -> bool {
    b == behind_place(n, a) || b == before_place(n, a)
}

/// Whether place `d` has no place of the list beside it.
pub open spec fn alone(free: Seq<usize>, n: usize, d: usize) -> bool {
    !free.contains(before_place(n, d)) && !free.contains(behind_place(n, d))
}

/// Whether some place of a list has no place of the list beside it.
pub open spec fn stuck(free: Seq<usize>, n: usize) -> bool {
    exists|d: usize| #[trigger] free.contains(d) && alone(free, n, d)
}

/// A list without the places of another, taken out one after the other.
pub open spec fn without(s: Seq<usize>, taken: Seq<usize>) -> Seq<usize>
    decreases taken.len(),
{
    if taken.len() == 0 {
        s
    } else {
        without(s, taken.drop_last()).filter(differs_from(taken.last()))
    }
}

/// The places of a list of sectors.
pub open spec fn places_of_sectors(sectors: Seq<Sector>) -> Seq<usize> {
    Seq::new(sectors.len(), |i: int| sectors[i].index)
}

/// The types and numbers of the stages in their order: what a stage lays
/// out, and how many times.
pub open spec fn stage_plan(map_type: MapType, k: usize) -> (SectorType, usize) {
    if k == 0 {
        (SectorType::Comet, 2)
    } else if k == 1 {
        (SectorType::Asteroid, 2)
    } else if k == 2 {
        (SectorType::DwarfPlanet, 1)
    } else if k == 3 {
        (SectorType::Nebula, 2)
    } else if k == 4 {
        (SectorType::X, 1)
    } else {
        match map_type {
            MapType::Standard => (SectorType::Space, 2),
            MapType::Expert => (SectorType::Space, 5),
        }
    }
}

/// Whether a sector of stage `k` lies on a place.
pub open spec fn stage_has(temp: Seq<Vec<Sector>>, k: int, index: usize) -> bool {
    0 <= k < temp.len() && exists|i: int|
        0 <= i < temp[k]@.len() && (#[trigger] temp[k]@[i]).index == index
}

/// Whether `sectors` are sectors of type `t` laid on places of the board
/// that were free in `before`, and `after` holds the free places that are
/// left: none that was not free, and all that were but those taken.
pub open spec fn laid(
    sectors: Seq<Sector>,
    t: SectorType,
    before: Seq<usize>,
    after: Seq<usize>,
    n: usize,
) -> bool {
    &&& sectors_on_board(sectors, n)
    &&& forall|i: int|
        0 <= i < sectors.len() ==> (#[trigger] sectors[i]).sector_type == t && before.contains(
            sectors[i].index,
        )
    &&& left_of(after, before, places_of_sectors(sectors))
}

/// How many sectors of a type are laid out at a time.
pub open spec fn group_size(map_type: MapType, t: SectorType) -> nat {
    match t {
        SectorType::Asteroid => 2,
        SectorType::DwarfPlanet => match map_type {
            MapType::Standard => 1,
            MapType::Expert => 4,
        },
        _ => 1,
    }
}

/// Whether a place lies within the window of six places that begins at
/// `st`, behind its first place and before its last.
pub open spec fn in_window(n: usize, st: usize, p: usize) -> bool {
    exists|j: int| 1 <= j <= 4 && p == (#[trigger] ((st + j - 1) % (n as int))) + 1
}

/// Whether `range` is what a window gives for the dwarf planets: its first
/// place and the place that the window ends on, and between them two places
/// within the window in the order of the window, all of them free in
/// `before`; `after` is `before` without them.
pub open spec fn window_taken(range: Seq<usize>, before: Seq<usize>, after: Seq<usize>, n: usize)
    -> bool {
    &&& range.len() == 4
    &&& all_on_board(range, n)
    &&& forall|k: int| 0 <= k < 4 ==> before.contains(#[trigger] range[k])
    &&& range[3] == (range[0] + 5) % (n as int)
    &&& in_window(n, range[0], range[1])
    &&& in_window(n, range[0], range[2])
    &&& (range[1] + n - range[0]) % (n as int) <= (range[2] + n - range[0]) % (n as int)
    &&& after == without(before, range)
}

/// A list without the places of another holds its other places, and no
/// more.
proof fn lemma_without_places(s: Seq<usize>, taken: Seq<usize>)
    ensures
        left_of(without(s, taken), s, taken),
        forall|x: usize| #[trigger] without(s, taken).contains(x) ==> !taken.contains(x),
    decreases taken.len(),
{
    if taken.len() > 0 {
        let init = taken.drop_last();
        lemma_without_places(s, init);
        lemma_filter_places(without(s, init), taken.last());
        assert forall|x: usize| #[trigger] s.contains(x) && !taken.contains(x) implies without(
            s,
            taken,
        ).contains(x) by {
            if init.contains(x) {
                let j = choose|j: int| 0 <= j < init.len() && init[j] == x;
                assert(taken[j] == x);
            }
            assert(taken[taken.len() - 1] == taken.last());
        }
        assert forall|x: usize| #[trigger] without(s, taken).contains(x) implies !taken.contains(
            x,
        ) by {
            if taken.contains(x) {
                let j = choose|j: int| 0 <= j < taken.len() && taken[j] == x;
                if j < init.len() {
                    assert(init[j] == x);
                    assert(init.contains(x));
                }
            }
        }
    }
}

/// Whether a nebula on `nebula` keeps a free place beside it when X takes
/// the place `index`.
pub open spec fn nebula_keeps(free: Seq<usize>, n: usize, nebula: usize, index: usize) -> bool {
    ||| (before_place(n, nebula) != index && free.contains(before_place(n, nebula)))
    ||| (behind_place(n, nebula) != index && free.contains(behind_place(n, nebula)))
}

/// Whether a place suits X: no dwarf planet lies beside it, and every
/// nebula keeps a free place beside it.
pub open spec fn suits_x(temp: Seq<Vec<Sector>>, free: Seq<usize>, n: usize, index: usize) -> bool {
    &&& !stage_has(temp, 2, before_place(n, index))
    &&& !stage_has(temp, 2, behind_place(n, index))
    &&& temp.len() > 3 ==> forall|k: int|
        0 <= k < temp[3]@.len() ==> nebula_keeps(free, n, (#[trigger] temp[3]@[k]).index, index)
}

/// Two lists put together hold the places of both.
proof fn lemma_add_places(a: Seq<usize>, b: Seq<usize>)
    ensures
        forall|x: usize| #[trigger] (a + b).contains(x) <==> (a.contains(x) || b.contains(x)),
{
    assert forall|x: usize| #[trigger] (a + b).contains(x) <==> (a.contains(x) || b.contains(
        x,
    )) by {
        if (a + b).contains(x) {
            let j = choose|j: int| 0 <= j < (a + b).len() && (a + b)[j] == x;
            if j < a.len() {
                assert(a[j] == x);
            } else {
                assert(b[j - a.len()] == x);
            }
        }
        if a.contains(x) {
            let j = choose|j: int| 0 <= j < a.len() && a[j] == x;
            assert((a + b)[j] == x);
        }
        if b.contains(x) {
            let j = choose|j: int| 0 <= j < b.len() && b[j] == x;
            assert((a + b)[a.len() + j] == x);
        }
    }
}

/// What is left of a list without the place at `i` holds the places of the
/// list but that one, and no other.
proof fn lemma_remove_places(s: Seq<usize>, i: int)
    requires
        0 <= i < s.len(),
    ensures
        left_of(s.remove(i), s, seq![s[i]]),
{
    let r = s.remove(i);
    assert forall|x: usize| #[trigger] r.contains(x) implies s.contains(x) by {
        let j = choose|j: int| 0 <= j < r.len() && r[j] == x;
        if j < i {
            assert(s[j] == x);
        } else {
            assert(s[j + 1] == x);
        }
    }
    assert forall|x: usize| #[trigger] s.contains(x) && !seq![s[i]].contains(x) implies r.contains(
        x,
    ) by {
        let j = choose|j: int| 0 <= j < s.len() && s[j] == x;
        assert(seq![s[i]][0] == s[i]);
        assert(j != i);
        if j < i {
            assert(r[j] == x);
        } else {
            assert(r[j - 1] == x);
        }
    }
}

/// A list with one more place holds that place and those it held.
proof fn lemma_push_places(s: Seq<usize>, y: usize)
    ensures
        forall|x: usize| #[trigger] s.push(y).contains(x) <==> (s.contains(x) || x == y),
{
    assert forall|x: usize| #[trigger] s.push(y).contains(x) <==> (s.contains(x) || x == y) by {
        if s.push(y).contains(x) {
            let j = choose|j: int| 0 <= j < s.push(y).len() && s.push(y)[j] == x;
            if j < s.len() {
                assert(s[j] == x);
            }
        }
        if s.contains(x) {
            let j = choose|j: int| 0 <= j < s.len() && s[j] == x;
            assert(s.push(y)[j] == x);
        }
        if x == y {
            assert(s.push(y)[s.len() as int] == x);
        }
    }
}

/// A list without a place holds the other places it held.
proof fn lemma_filter_places(s: Seq<usize>, y: usize)
    ensures
        forall|x: usize|
            #[trigger] s.filter(differs_from(y)).contains(x) <==> (s.contains(x) && x != y),
{
    let f = s.filter(differs_from(y));
    assert forall|x: usize| #[trigger] f.contains(x) <==> (s.contains(x) && x != y) by {
        if f.contains(x) {
            s.lemma_filter_contains_rev(differs_from(y), x);
            let j = choose|j: int| 0 <= j < f.len() && f[j] == x;
            s.lemma_filter_pred(differs_from(y), j);
        }
        if s.contains(x) && x != y {
            let j = choose|j: int| 0 <= j < s.len() && s[j] == x;
            s.lemma_filter_contains(differs_from(y), j);
        }
    }
}

/// A board on which sectors were laid one after the other, each on the
/// place of its number; `None` where a sector has no place on the board or
/// finds its place taken.
pub open spec fn laid_on(types: Seq<Option<SectorType>>, sectors: Seq<Sector>) -> Option<
    Seq<Option<SectorType>>,
>
    decreases sectors.len(),
{
    if sectors.len() == 0 {
        Some(types)
    } else {
        match laid_on(types, sectors.drop_last()) {
            Some(t) => {
                let sector = sectors.last();
                if 1 <= sector.index <= t.len() && t[sector.index - 1] is None {
                    Some(t.update(sector.index - 1, Some(sector.sector_type)))
                } else {
                    None
                }
            },
            None => None,
        }
    }
}

/// A board on which the sectors of stages were laid, stage after stage.
pub open spec fn stages_laid_on(types: Seq<Option<SectorType>>, stages: Seq<Vec<Sector>>)
    -> Option<Seq<Option<SectorType>>>
    decreases stages.len(),
{
    if stages.len() == 0 {
        Some(types)
    } else {
        match stages_laid_on(types, stages.drop_last()) {
            Some(t) => laid_on(t, stages.last()@),
            None => None,
        }
    }
}

/// A board of `n` places that are all empty.
pub open spec fn empty_board(n: usize) -> Seq<Option<SectorType>> {
    Seq::new(n as nat, |i: int| None)
}

/// The layout that the stages make: the sectors of the board in the order
/// of their places, where every sector found its place free, no place was
/// left empty and the layout keeps the rules of the board; `BrokenRules`
/// where not.
pub open spec fn spec_assemble(stages: Seq<Vec<Sector>>, map_type: MapType) -> Result<
    Seq<Sector>,
    MapError,
> {
    let n = map_type.sector_count();
    match stages_laid_on(empty_board(n), stages) {
        Some(t) => if t.len() == n && (forall|q: int| 0 <= q < n ==> (#[trigger] t[q]) is Some)
            && valid_layout(map_type, Seq::new(n as nat, |q: int| t[q]->Some_0)) {
            Ok(Seq::new(n as nat, |q: int| Sector { index: (q + 1) as usize, sector_type: t[q]->Some_0 }))
        } else {
            Err(MapError::BrokenRules)
        },
        None => Err(MapError::BrokenRules),
    }
}

/// What a round of laying out does, by the rounds made and the stages laid
/// out so far: it gives up when the rounds allowed are used up; else it
/// lays out the next stage: its type, how many times, and in how many
/// tries at most, one for X and `RAND_TRY_TIMES` for the others.
pub open spec fn spec_round_step(map_type: MapType, rounds: usize, stages_done: usize) -> Result<
    (SectorType, usize, usize),
    MapError,
> {
    if rounds >= MAX_ROUNDS {
        Err(MapError::OutOfTries)
    } else {
        let plan = stage_plan(map_type, stages_done);
        Ok(
            (
                plan.0,
                plan.1,
                if plan.0 == SectorType::X {
                    1usize
                } else {
                    RAND_TRY_TIMES
                },
            ),
        )
    }
}

/// Decides what a round of laying out does.
pub fn round_step(map_type: &MapType, rounds: usize, stages_done: usize) -> (r: Result<
    (SectorType, usize, usize),
    MapError,
>)
    ensures
        r == spec_round_step(*map_type, rounds, stages_done),
{
    if rounds >= MAX_ROUNDS {
        return Err(MapError::OutOfTries);
    }
    let (sector_type, count) = MapGenerator::stage(map_type, stages_done);
    let tries = if sector_type == SectorType::X {
        1
    } else {
        RAND_TRY_TIMES
    };
    Ok((sector_type, count, tries))
}

/// Makes the layout of the stages laid out, or says that they make none.
pub fn assemble_layout(stages: &Vec<Vec<Sector>>, map_type: &MapType) -> (r: Result<
    Vec<Sector>,
    MapError,
>)
    ensures
        match r {
            Ok(data) => spec_assemble(stages@, *map_type) == Ok::<Seq<Sector>, MapError>(data@)
                && (Sectors { data }).wf() && valid_layout(*map_type, (Sectors { data })@),
            Err(e) => e == MapError::BrokenRules && spec_assemble(stages@, *map_type) is Err,
        },
{
    let n = map_type.sector_count();
    let mut types: Vec<Option<SectorType>> = Vec::new();
    let mut p: usize = 0;
    while p < n
        invariant
            p <= n,
            types@ == empty_board(n).take(p as int),
        decreases n - p,
    {
        types.push(None);
        assert(types@ =~= empty_board(n).take(p + 1));
        p += 1;
    }
    assert(types@ =~= empty_board(n));
    let mut i: usize = 0;
    assert(stages@.take(0) =~= Seq::<Vec<Sector>>::empty());
    while i < stages.len()
        invariant
            n == map_type.sector_count(),
            types@.len() == n,
            i <= stages@.len(),
            stages_laid_on(empty_board(n), stages@.take(i as int)) == Some(types@),
        decreases stages@.len() - i,
    {
        let ghost at_stage = types@;
        let mut k: usize = 0;
        assert(stages@[i as int]@.take(0) =~= Seq::<Sector>::empty());
        while k < stages[i].len()
            invariant
                n == map_type.sector_count(),
                types@.len() == n,
                i < stages@.len(),
                k <= stages@[i as int]@.len(),
                stages_laid_on(empty_board(n), stages@.take(i as int)) == Some(at_stage),
                laid_on(at_stage, stages@[i as int]@.take(k as int)) == Some(types@),
            decreases stages@[i as int]@.len() - k,
        {
            let sector = stages[i][k];
            proof {
                assert(stages@[i as int]@.take(k + 1).drop_last() =~= stages@[i as int]@.take(
                    k as int,
                ));
                assert(stages@.take(i + 1).drop_last() =~= stages@.take(i as int));
            }
            if sector.index < 1 || sector.index > n || types[sector.index - 1].is_some() {
                proof {
                    lemma_not_laid(at_stage, stages@[i as int]@, k + 1);
                    lemma_stages_not_laid(empty_board(n), stages@, i + 1);
                }
                return Err(MapError::BrokenRules);
            }
            types.set(sector.index - 1, Some(sector.sector_type));
            k += 1;
        }
        proof {
            assert(stages@[i as int]@.take(k as int) =~= stages@[i as int]@);
            assert(stages@.take(i + 1).drop_last() =~= stages@.take(i as int));
        }
        i += 1;
    }
    assert(stages@.take(i as int) =~= stages@);
    let ghost board = types@;
    assert(stages_laid_on(empty_board(n), stages@) == Some(board));
    let mut results: Vec<Sector> = Vec::new();
    let mut q: usize = 0;
    while q < n
        invariant
            q <= n,
            board == types@,
            types@.len() == n,
            results@.len() == q,
            n == map_type.sector_count(),
            stages_laid_on(empty_board(n), stages@) == Some(board),
            forall|j: int| 0 <= j < q ==> (#[trigger] board[j]) is Some,
            forall|j: int|
                0 <= j < q ==> (#[trigger] results@[j]) == (Sector {
                    index: (j + 1) as usize,
                    sector_type: board[j]->Some_0,
                }),
        decreases n - q,
    {
        match types[q] {
            Some(sector_type) => {
                results.push(Sector { index: q + 1, sector_type });
            },
            None => {
                assert(!(board[q as int] is Some));
                return Err(MapError::BrokenRules);
            },
        }
        q += 1;
    }
    let sectors = Sectors { data: results };
    assert(sectors@ =~= Seq::new(n as nat, |q: int| board[q]->Some_0));
    assert(sectors.wf());
    if !check_sectors_rules(&sectors, map_type) {
        return Err(MapError::BrokenRules);
    }
    assert(sectors.data@ =~= Seq::new(
        n as nat,
        |q: int| Sector { index: (q + 1) as usize, sector_type: board[q]->Some_0 },
    ));
    assert(forall|q: int| 0 <= q < n ==> (#[trigger] board[q]) is Some);
    assert(spec_assemble(stages@, *map_type) == Ok::<Seq<Sector>, MapError>(sectors.data@));
    Ok(sectors.data)
}

/// Sectors of which the first `k` cannot be laid on a board cannot be laid
/// on it.
proof fn lemma_not_laid(types: Seq<Option<SectorType>>, sectors: Seq<Sector>, k: int)
    requires
        0 <= k <= sectors.len(),
        laid_on(types, sectors.take(k)) is None,
    ensures
        laid_on(types, sectors) is None,
    decreases sectors.len() - k,
{
    if k < sectors.len() {
        assert(sectors.take(k + 1).drop_last() =~= sectors.take(k));
        lemma_not_laid(types, sectors, k + 1);
    } else {
        assert(sectors.take(k) =~= sectors);
    }
}

/// Stages of which the first `k` cannot be laid on a board cannot be laid
/// on it.
proof fn lemma_stages_not_laid(types: Seq<Option<SectorType>>, stages: Seq<Vec<Sector>>, k: int)
    requires
        0 <= k <= stages.len(),
        stages_laid_on(types, stages.take(k)) is None,
    ensures
        stages_laid_on(types, stages) is None,
    decreases stages.len() - k,
{
    if k < stages.len() {
        assert(stages.take(k + 1).drop_last() =~= stages.take(k));
        lemma_stages_not_laid(types, stages, k + 1);
    } else {
        assert(stages.take(k) =~= stages);
    }
}

/// Draws a map: a layout that keeps the rules of the board. The types are
/// laid out stage by stage on the places that are still free; a stage that
/// finds no place undoes the stage before it.
pub struct MapGenerator {
    rng: SmallRng,
    map_type: MapType,
    rest_index: Vec<usize>,
    temp: Vec<Vec<Sector>>,
}

impl MapGenerator {
    /// The board that a map is drawn for.
    pub closed spec fn board(&self) -> MapType {
        self.map_type
    }

    /// The free places and the places laid out lie on the board, and no
    /// more stages are done than there are.
    pub closed spec fn wf(&self) -> bool {
        let n = self.map_type.sector_count();
        &&& all_on_board(self.rest_index@, n)
        &&& self.temp@.len() <= 6
        &&& forall|i: int|
            0 <= i < self.temp@.len() ==> sectors_on_board((#[trigger] self.temp@[i])@, n)
    }

    /// The places that are still free.
    pub closed spec fn free(&self) -> Seq<usize> {
        self.rest_index@
    }

    /// How many stages are laid out.
    pub closed spec fn stages_done(&self) -> nat {
        self.temp@.len()
    }

    /// A generator for a board: every place is free, and no stage is laid
    /// out.
    pub fn new(rng: SmallRng, map_type: &MapType) -> (r: Self)
        ensures
            r.wf(),
            r.board() == *map_type,
            r.free() == Seq::new(map_type.sector_count() as nat, |i: int| (i + 1) as usize),
            r.stages_done() == 0,
    {
        let rest_index = Self::all_places(map_type.sector_count());
        Self { rng, map_type: *map_type, rest_index, temp: Vec::new() }
    }

    /// The positions `1..=n`.
    fn all_places(n: usize) -> (r: Vec<usize>)
        requires
            n < usize::MAX,
        ensures
            r@ == Seq::new(n as nat, |i: int| (i + 1) as usize),
            all_on_board(r@, n),
    {
        let mut out: Vec<usize> = Vec::new();
        let mut i: usize = 1;
        while i <= n
            invariant
                n < usize::MAX,
                1 <= i <= n + 1,
                out@ == Seq::new((i - 1) as nat, |i: int| (i + 1) as usize),
            decreases n + 1 - i,
        {
            out.push(i);
            assert(out@ =~= Seq::new(i as nat, |i: int| (i + 1) as usize));
            i += 1;
        }
        out
    }

    /// How many sectors of a type a stage lays out at a time, and how many
    /// times: the types in the order of the stages.
    fn stage(map_type: &MapType, k: usize) -> (r: (SectorType, usize))
        ensures
            r == stage_plan(*map_type, k),
    {
        if k == 0 {
            (SectorType::Comet, 2)
        } else if k == 1 {
            (SectorType::Asteroid, 2)
        } else if k == 2 {
            (SectorType::DwarfPlanet, 1)
        } else if k == 3 {
            (SectorType::Nebula, 2)
        } else if k == 4 {
            (SectorType::X, 1)
        } else {
            match map_type {
                MapType::Standard => (SectorType::Space, 2),
                MapType::Expert => (SectorType::Space, 5),
            }
        }
    }

    /// The stages laid out.
    pub closed spec fn stages(&self) -> Seq<Vec<Sector>> {
        self.temp@
    }

    /// Draws a map. Which map comes out is up to the draws; `round_step`
    /// decides what each round does, and `assemble_layout` what the stages
    /// make in the end. Every map that comes out keeps the rules of the
    /// board.
    pub fn generate_sectors(&mut self) -> (r: Result<Vec<Sector>, MapError>)
        requires
            old(self).wf(),
        ensures
            final(self).wf(),
            final(self).board() == old(self).board(),
            match r {
                Ok(data) => {
                    &&& (Sectors { data }).wf()
                    &&& valid_layout(old(self).board(), (Sectors { data })@)
                    &&& spec_assemble(final(self).stages(), old(self).board()) == Ok::<
                        Seq<Sector>,
                        MapError,
                    >(data@)
                },
                Err(e) => e == MapError::OutOfTries || (e == MapError::BrokenRules
                    && spec_assemble(final(self).stages(), old(self).board()) is Err),
            },
    {
        let n = self.map_type.sector_count();
        let mut rounds: usize = 0;
        while self.temp.len() < 6
            invariant
                self.wf(),
                self.map_type == old(self).map_type,
                n == self.map_type.sector_count(),
                rounds <= MAX_ROUNDS,
            decreases MAX_ROUNDS - rounds,
        {
            let (sector_type, count, test_count) = match round_step(
                &self.map_type,
                rounds,
                self.temp.len(),
            ) {
                Ok(plan) => plan,
                Err(e) => {
                    return Err(e);
                },
            };
            rounds += 1;
            let mut ok = false;
            let mut tried: usize = 0;
            while tried < test_count && !ok
                invariant
                    self.wf(),
                    self.map_type == old(self).map_type,
                    n == self.map_type.sector_count(),
                    !ok ==> self.temp@.len() < 6,
                decreases test_count - tried, if ok { 0int } else { 1 },
            {
                tried += 1;
                match self.generate_sectors_by_type(&sector_type, count) {
                    Ok(generated_sectors) => {
                        self.temp.push(generated_sectors);
                        ok = true;
                    },
                    Err(_) => {},
                }
            }
            if !ok {
                if sector_type == SectorType::X {
                    self.temp = Vec::new();
                    self.rest_index = Self::all_places(n);
                } else {
                    match self.temp.pop() {
                        Some(undone) => {
                            self.give_back(&undone);
                        },
                        None => {},
                    }
                }
            }
        }
        assemble_layout(&self.temp, &self.map_type)
    }

    /// Gives the places of sectors back to the free places.
    fn give_back(&mut self, sectors: &Vec<Sector>)
        requires
            old(self).wf(),
            sectors_on_board(sectors@, old(self).map_type.sector_count()),
        ensures
            final(self).wf(),
            final(self).map_type == old(self).map_type,
            final(self).temp == old(self).temp,
            final(self).rest_index@ == old(self).rest_index@ + places_of_sectors(sectors@),
    {
        let mut i: usize = 0;
        while i < sectors.len()
            invariant
                self.wf(),
                self.map_type == old(self).map_type,
                self.temp == old(self).temp,
                sectors_on_board(sectors@, self.map_type.sector_count()),
                i <= sectors@.len(),
                self.rest_index@ == old(self).rest_index@ + places_of_sectors(sectors@).take(
                    i as int,
                ),
            decreases sectors@.len() - i,
        {
            self.rest_index.push(sectors[i].index);
            assert(self.rest_index@ =~= old(self).rest_index@ + places_of_sectors(sectors@).take(
                i + 1,
            ));
            i += 1;
        }
        assert(places_of_sectors(sectors@).take(i as int) =~= places_of_sectors(sectors@));
    }

    /// Lays out `count` times what a stage lays out at a time. If one of
    /// them finds no place, the places of those before it are given back.
    fn generate_sectors_by_type(&mut self, sector_type: &SectorType, count: usize) -> (r: Result<
        Vec<Sector>,
        MapError,
    >)
        requires
            old(self).wf(),
        ensures
            final(self).wf(),
            final(self).map_type == old(self).map_type,
            final(self).temp == old(self).temp,
            match r {
                Ok(sectors) => {
                    &&& sectors@.len() == count * group_size(old(self).map_type, *sector_type)
                    &&& laid(
                        sectors@,
                        *sector_type,
                        old(self).rest_index@,
                        final(self).rest_index@,
                        old(self).map_type.sector_count(),
                    )
                },
                Err(_) => same_places(final(self).rest_index@, old(self).rest_index@),
            },
    {
        let ghost n = self.map_type.sector_count();
        let ghost first = self.rest_index@;
        let ghost group = group_size(self.map_type, *sector_type);
        let mut sectors: Vec<Sector> = Vec::new();
        let mut i: usize = 0;
        assert(0 == 0 * group) by (nonlinear_arith);
        while i < count
            invariant
                self.wf(),
                self.map_type == old(self).map_type,
                self.temp == old(self).temp,
                n == self.map_type.sector_count(),
                first == old(self).rest_index@,
                group == group_size(self.map_type, *sector_type),
                sectors_on_board(sectors@, self.map_type.sector_count()),
                sectors@.len() == i * group,
                laid(sectors@, *sector_type, first, self.rest_index@, n),
                i <= count,
            decreases count - i,
        {
            let ghost mid = self.rest_index@;
            let ghost had = sectors@;
            let drawn = match sector_type {
                SectorType::Comet => self.generate_comet_sector(),
                SectorType::Asteroid => self.generate_asteroid_sector(),
                SectorType::DwarfPlanet => self.generate_dwarf_planet_sector(),
                SectorType::Nebula => {
                    let last = if sectors.len() > 0 {
                        Some(sectors[sectors.len() - 1].index)
                    } else {
                        None
                    };
                    self.generate_nebula_sector(last)
                },
                SectorType::X => self.generate_x_sector(),
                SectorType::Space => self.generate_space_sector(),
            };
            match drawn {
                Ok(sector) => {
                    assert(laid(sector@, *sector_type, mid, self.rest_index@, n));
                    assert(sector@.len() == group);
                    let mut k: usize = 0;
                    while k < sector.len()
                        invariant
                            sectors_on_board(sector@, self.map_type.sector_count()),
                            sectors_on_board(sectors@, self.map_type.sector_count()),
                            k <= sector@.len(),
                            sectors@ == had + sector@.take(k as int),
                        decreases sector@.len() - k,
                    {
                        sectors.push(sector[k]);
                        assert(sectors@ =~= had + sector@.take(k + 1));
                        k += 1;
                    }
                    proof {
                        assert(sector@.take(k as int) =~= sector@);
                        assert(places_of_sectors(sectors@) =~= places_of_sectors(had)
                            + places_of_sectors(sector@));
                        lemma_add_places(places_of_sectors(had), places_of_sectors(sector@));
                        assert forall|j: int| 0 <= j < sectors@.len() implies (
                        #[trigger] sectors@[j]).sector_type == *sector_type && first.contains(
                            sectors@[j].index,
                        ) by {
                            if j < had.len() {
                                assert(sectors@[j] == had[j]);
                            } else {
                                assert(sectors@[j] == sector@[j - had.len()]);
                                assert(mid.contains(sector@[j - had.len()].index));
                            }
                        }
                        assert((i + 1) * group == i * group + group) by (nonlinear_arith);
                    }
                },
                Err(e) => {
                    self.give_back(&sectors);
                    proof {
                        lemma_add_places(mid, places_of_sectors(had));
                        assert(same_places(self.rest_index@, first)) by {
                            assert forall|x: usize|
                                places_of_sectors(had).contains(x) implies first.contains(x) by {
                                let j = choose|j: int|
                                    0 <= j < places_of_sectors(had).len() && places_of_sectors(
                                        had,
                                    )[j] == x;
                                assert(had[j].index == x);
                            }
                        }
                    }
                    return Err(e);
                },
            }
            i += 1;
        }
        Ok(sectors)
    }

    /// A list of one sector.
    fn one_sector(index: usize, sector_type: SectorType) -> (r: Vec<Sector>)
        ensures
            r@ == seq![Sector { index, sector_type }],
    {
        let mut out: Vec<Sector> = Vec::new();
        out.push(Sector { index, sector_type });
        out
    }

    /// Draws two free places next to each other for two asteroids.
    fn generate_asteroid_sector(&mut self) -> (r: Result<Vec<Sector>, MapError>)
        requires
            old(self).wf(),
        ensures
            final(self).wf(),
            final(self).map_type == old(self).map_type,
            final(self).temp == old(self).temp,
            match r {
                Ok(sectors) => {
                    let n = old(self).map_type.sector_count();
                    &&& sectors@.len() == 2
                    &&& beside(n, sectors@[0].index, sectors@[1].index)
                    &&& laid(
                        sectors@,
                        SectorType::Asteroid,
                        old(self).rest_index@,
                        final(self).rest_index@,
                        n,
                    )
                },
                Err(e) => {
                    &&& e == MapError::NoPairIndex
                    &&& same_places(final(self).rest_index@, old(self).rest_index@)
                    &&& old(self).rest_index@.len() == 0 || stuck(
                        old(self).rest_index@,
                        old(self).map_type.sector_count(),
                    )
                },
            },
    {
        match self.get_rest_pair_index() {
            Ok((left, right)) => {
                let mut out: Vec<Sector> = Vec::new();
                out.push(Sector { index: left, sector_type: SectorType::Asteroid });
                out.push(Sector { index: right, sector_type: SectorType::Asteroid });
                assert(places_of_sectors(out@) =~= seq![left, right]);
                Ok(out)
            },
            Err(e) => Err(e),
        }
    }

    /// Draws a free place with a prime number for a comet.
    fn generate_comet_sector(&mut self) -> (r: Result<Vec<Sector>, MapError>)
        requires
            old(self).wf(),
        ensures
            final(self).wf(),
            final(self).map_type == old(self).map_type,
            final(self).temp == old(self).temp,
            match r {
                Ok(sectors) => {
                    &&& sectors@.len() == 1
                    &&& is_prime_place(sectors@[0].index as int)
                    &&& final(self).rest_index@ == old(self).rest_index@.filter(
                        differs_from(sectors@[0].index),
                    )
                    &&& laid(
                        sectors@,
                        SectorType::Comet,
                        old(self).rest_index@,
                        final(self).rest_index@,
                        old(self).map_type.sector_count(),
                    )
                },
                Err(e) => e == MapError::NoPrimeIndex && final(self).rest_index@ == old(
                    self,
                ).rest_index@,
            },
    {
        match self.get_rand_rest_prime_index() {
            Ok(index) => {
                let out = Self::one_sector(index, SectorType::Comet);
                proof {
                    lemma_filter_places(old(self).rest_index@, index);
                    assert(places_of_sectors(out@) =~= seq![index]);
                    assert(seq![index][0] == index);
                }
                Ok(out)
            },
            Err(e) => Err(e),
        }
    }

    fn generate_dwarf_planet_sector(&mut self) -> (r: Result<Vec<Sector>, MapError>)
        requires
            old(self).wf(),
        ensures
            final(self).wf(),
            final(self).map_type == old(self).map_type,
            final(self).temp == old(self).temp,
            old(self).map_type == MapType::Standard ==> (r is Ok <==> old(self).rest_index@.len()
                > 0),
            match r {
                Ok(sectors) => {
                    let n = old(self).map_type.sector_count();
                    &&& sectors@.len() == group_size(old(self).map_type, SectorType::DwarfPlanet)
                    &&& laid(
                        sectors@,
                        SectorType::DwarfPlanet,
                        old(self).rest_index@,
                        final(self).rest_index@,
                        n,
                    )
                    &&& old(self).map_type == MapType::Expert ==> window_taken(
                        places_of_sectors(sectors@),
                        old(self).rest_index@,
                        final(self).rest_index@,
                        n,
                    )
                },
                Err(e) => {
                    &&& final(self).rest_index@ == old(self).rest_index@
                    &&& old(self).map_type == MapType::Standard ==> e == MapError::NoRestIndex
                    &&& old(self).map_type == MapType::Expert ==> e == MapError::NoRange
                },
            },
    {
        match self.map_type {
            MapType::Standard => match self.get_rest_index() {
                Ok(index) => {
                    let out = Self::one_sector(index, SectorType::DwarfPlanet);
                    assert(places_of_sectors(out@) =~= seq![index]);
                    Ok(out)
                },
                Err(e) => Err(e),
            },
            MapType::Expert => match self.get_rand_range(6, 4) {
                Ok(range) => {
                    let mut out: Vec<Sector> = Vec::new();
                    let mut i: usize = 0;
                    while i < range.len()
                        invariant
                            all_on_board(range@, self.map_type.sector_count()),
                            sectors_on_board(out@, self.map_type.sector_count()),
                            i <= range@.len(),
                            out@.len() == i,
                            forall|k: int|
                                0 <= k < i ==> (#[trigger] out@[k]) == (Sector {
                                    index: range@[k],
                                    sector_type: SectorType::DwarfPlanet,
                                }),
                        decreases range@.len() - i,
                    {
                        out.push(Sector { index: range[i], sector_type: SectorType::DwarfPlanet });
                        i += 1;
                    }
                    proof {
                        assert(places_of_sectors(out@) =~= range@);
                        lemma_without_places(old(self).rest_index@, range@);
                    }
                    Ok(out)
                },
                Err(e) => Err(e),
            },
        }
    }

    /// Draws a place for a nebula: one of two free places next to each
    /// other, the other of which stays free. A place next to the nebula
    /// laid out before is not taken if that would leave the earlier nebula
    /// without a free place beside it.
    fn generate_nebula_sector(&mut self, current_nebula_index: Option<usize>) -> (r: Result<
        Vec<Sector>,
        MapError,
    >)
        requires
            old(self).wf(),
            current_nebula_index matches Some(i) ==> 1 <= i
                <= old(self).map_type.sector_count(),
        ensures
            final(self).wf(),
            final(self).map_type == old(self).map_type,
            final(self).temp == old(self).temp,
            match r {
                Ok(sectors) => {
                    let n = old(self).map_type.sector_count();
                    let after = final(self).rest_index@;
                    &&& sectors@.len() == 1
                    &&& laid(sectors@, SectorType::Nebula, old(self).rest_index@, after, n)
                    &&& after.contains(before_place(n, sectors@[0].index)) || after.contains(
                        behind_place(n, sectors@[0].index),
                    )
                    &&& current_nebula_index matches Some(c) ==> {
                        &&& sectors@[0].index == before_place(n, c) ==> after.contains(
                            behind_place(n, c),
                        )
                        &&& sectors@[0].index == behind_place(n, c) ==> after.contains(
                            before_place(n, c),
                        )
                    }
                },
                Err(e) => {
                    &&& same_places(final(self).rest_index@, old(self).rest_index@)
                    &&& e == MapError::NoRestIndex || e == MapError::NoPairIndex || e
                        == MapError::NoNebula
                    &&& e == MapError::NoRestIndex <==> old(self).rest_index@.len() == 0
                    &&& e == MapError::NoPairIndex ==> stuck(
                        old(self).rest_index@,
                        old(self).map_type.sector_count(),
                    )
                },
            },
    {
        let ghost n = self.map_type.sector_count();
        let ghost first = self.rest_index@;
        let mut tried: usize = 0;
        while tried < RAND_TRY_TIMES
            invariant
                self.wf(),
                self.map_type == old(self).map_type,
                self.temp == old(self).temp,
                n == self.map_type.sector_count(),
                first == old(self).rest_index@,
                same_places(self.rest_index@, first),
                tried > 0 ==> first.len() > 0,
                current_nebula_index matches Some(i) ==> 1 <= i <= self.map_type.sector_count(),
            decreases RAND_TRY_TIMES - tried,
        {
            tried += 1;
            let ghost mid = self.rest_index@;
            let (result, others) = match self.try_get_pair_index() {
                Ok(pair) => pair,
                Err(e) => {
                    proof {
                        if first.len() > 0 {
                            assert(first.contains(first[0]));
                            assert(mid.contains(first[0]));
                        }
                        if mid.len() > 0 {
                            assert(mid.contains(mid[0]));
                            assert(first.contains(mid[0]));
                        }
                        if e == MapError::NoPairIndex {
                            let d = choose|d: usize| #[trigger] mid.contains(d) && alone(mid, n, d);
                            assert(first.contains(d) && alone(first, n, d));
                        }
                    }
                    return Err(e);
                },
            };
            let ghost taken = self.rest_index@;
            self.rest_index.push(others);
            let ghost kept = self.rest_index@;
            proof {
                lemma_push_places(taken, others);
                lemma_push_places(kept, result);
                assert(seq![result, others][0] == result && seq![result, others][1] == others);
                assert(mid.contains(result));
                assert(first.contains(result));
                assert(first.len() > 0);
            }
            match current_nebula_index {
                Some(nebula_index) => {
                    let (left, right) = self.adjacent_index(nebula_index);
                    if left == result && !slice_contains(self.rest_index.as_slice(), right) {
                        self.rest_index.push(result);
                        continue ;
                    }
                    if right == result && !slice_contains(self.rest_index.as_slice(), left) {
                        self.rest_index.push(result);
                        continue ;
                    }
                },
                None => {},
            }
            let out = Self::one_sector(result, SectorType::Nebula);
            proof {
                assert(places_of_sectors(out@) =~= seq![result]);
                assert(seq![result][0] == result);
                assert(kept.contains(others));
            }
            return Ok(out);
        }
        Err(MapError::NoNebula)
    }

    /// Draws a free place for a sector of empty space: there is one as
    /// long as a place is free.
    fn generate_space_sector(&mut self) -> (r: Result<Vec<Sector>, MapError>)
        requires
            old(self).wf(),
        ensures
            final(self).wf(),
            final(self).map_type == old(self).map_type,
            final(self).temp == old(self).temp,
            r is Ok <==> old(self).rest_index@.len() > 0,
            match r {
                Ok(sectors) => {
                    &&& sectors@.len() == 1
                    &&& exists|i: int|
                        0 <= i < old(self).rest_index@.len() && #[trigger] old(self).rest_index@[i]
                            == sectors@[0].index && final(self).rest_index@ == old(
                            self,
                        ).rest_index@.remove(i)
                    &&& laid(
                        sectors@,
                        SectorType::Space,
                        old(self).rest_index@,
                        final(self).rest_index@,
                        old(self).map_type.sector_count(),
                    )
                },
                Err(e) => e == MapError::NoRestIndex && final(self).rest_index@ == old(
                    self,
                ).rest_index@,
            },
    {
        match self.get_rest_index() {
            Ok(index) => {
                let out = Self::one_sector(index, SectorType::Space);
                assert(places_of_sectors(out@) =~= seq![index]);
                Ok(out)
            },
            Err(e) => Err(e),
        }
    }

    /// Whether a sector of the stage `k` lies on position `index`.
    fn stage_holds(&self, k: usize, index: usize) -> (r: bool)
        ensures
            r == stage_has(self.temp@, k as int, index),
    {
        if k >= self.temp.len() {
            return false;
        }
        let mut i: usize = 0;
        while i < self.temp[k].len()
            invariant
                k < self.temp@.len(),
                i <= self.temp@[k as int]@.len(),
                forall|j: int| 0 <= j < i ==> (#[trigger] self.temp@[k as int]@[j]).index != index,
            decreases self.temp@[k as int]@.len() - i,
        {
            if self.temp[k][i].index == index {
                return true;
            }
            i += 1;
        }
        false
    }

    /// Finds a place for X: the first free place that has no dwarf planet
    /// beside it and that leaves every nebula a free place beside it.
    fn generate_x_sector(&mut self) -> (r: Result<Vec<Sector>, MapError>)
        requires
            old(self).wf(),
        ensures
            final(self).wf(),
            final(self).map_type == old(self).map_type,
            final(self).temp == old(self).temp,
            match r {
                Ok(sectors) => {
                    let n = old(self).map_type.sector_count();
                    let free = old(self).rest_index@;
                    &&& sectors@.len() == 1
                    &&& laid(sectors@, SectorType::X, free, final(self).rest_index@, n)
                    &&& final(self).rest_index@ == free.filter(differs_from(sectors@[0].index))
                    &&& exists|i: int|
                        0 <= i < free.len() && #[trigger] free[i] == sectors@[0].index && suits_x(
                            old(self).temp@,
                            free,
                            n,
                            free[i],
                        ) && forall|j: int|
                            0 <= j < i ==> !suits_x(old(self).temp@, free, n, #[trigger] free[j])
                },
                Err(e) => {
                    &&& e == MapError::NoX
                    &&& final(self).rest_index@ == old(self).rest_index@
                    &&& forall|j: int|
                        0 <= j < old(self).rest_index@.len() ==> !suits_x(
                            old(self).temp@,
                            old(self).rest_index@,
                            old(self).map_type.sector_count(),
                            #[trigger] old(self).rest_index@[j],
                        )
                },
            },
    {
        let n = self.map_type.sector_count();
        let ghost free = self.rest_index@;
        let mut i: usize = 0;
        while i < self.rest_index.len()
            invariant
                *self == *old(self),
                self.wf(),
                n == self.map_type.sector_count(),
                free == self.rest_index@,
                i <= self.rest_index@.len(),
                forall|j: int| 0 <= j < i ==> !suits_x(self.temp@, free, n, #[trigger] free[j]),
            decreases self.rest_index@.len() - i,
        {
            let index = self.rest_index[i];
            i += 1;
            let (left, right) = self.adjacent_index(index);
            if self.stage_holds(2, left) || self.stage_holds(2, right) {
                continue ;
            }
            let mut valid = true;
            if self.temp.len() > 3 {
                let mut k: usize = 0;
                while valid && k < self.temp[3].len()
                    invariant
                        *self == *old(self),
                        self.wf(),
                        n == self.map_type.sector_count(),
                        free == self.rest_index@,
                        self.temp@.len() > 3,
                        k <= self.temp@[3]@.len(),
                        valid ==> forall|m: int|
                            0 <= m < k ==> nebula_keeps(
                                free,
                                n,
                                (#[trigger] self.temp@[3]@[m]).index,
                                index,
                            ),
                        !valid ==> exists|m: int|
                            0 <= m < self.temp@[3]@.len() && !nebula_keeps(
                                free,
                                n,
                                (#[trigger] self.temp@[3]@[m]).index,
                                index,
                            ),
                    decreases self.temp@[3]@.len() - k, if valid { 1int } else { 0 },
                {
                    let nebula = self.temp[3][k].index;
                    assert(sectors_on_board(self.temp@[3]@, n));
                    let (beside_left, beside_right) = self.adjacent_index(nebula);
                    let left_free = beside_left != index && slice_contains(
                        self.rest_index.as_slice(),
                        beside_left,
                    );
                    let right_free = beside_right != index && slice_contains(
                        self.rest_index.as_slice(),
                        beside_right,
                    );
                    if !left_free && !right_free {
                        assert(!nebula_keeps(free, n, self.temp@[3]@[k as int].index, index));
                        valid = false;
                    } else {
                        k += 1;
                    }
                }
            }
            if !valid {
                continue ;
            }
            proof {
                lemma_filter_on_board(self.rest_index@, index, n);
                lemma_filter_places(free, index);
                assert(free[i - 1] == index);
                assert(suits_x(self.temp@, free, n, index));
            }
            remove_value(&mut self.rest_index, index);
            let out = Self::one_sector(index, SectorType::X);
            proof {
                assert(places_of_sectors(out@) =~= seq![index]);
                assert(seq![index][0] == index);
            }
            return Ok(out);
        }
        Err(MapError::NoX)
    }

    /// Draws a free place with a prime number and takes it.
    fn get_rand_rest_prime_index(&mut self) -> (r: Result<usize, MapError>)
        requires
            old(self).wf(),
        ensures
            final(self).wf(),
            final(self).map_type == old(self).map_type,
            final(self).temp == old(self).temp,
            match r {
                Ok(index) => {
                    &&& 1 <= index <= old(self).map_type.sector_count()
                    &&& is_prime_place(index as int)
                    &&& old(self).rest_index@.contains(index)
                    &&& final(self).rest_index@ == old(self).rest_index@.filter(differs_from(index))
                },
                Err(e) => e == MapError::NoPrimeIndex && final(self).rest_index@ == old(
                    self,
                ).rest_index@,
            },
    {
        let n = self.map_type.sector_count();
        let mut tried: usize = 0;
        while tried < RAND_TRY_TIMES
            invariant
                self.wf(),
                self.map_type == old(self).map_type,
                self.temp == old(self).temp,
                self.rest_index@ == old(self).rest_index@,
                n == self.map_type.sector_count(),
            decreases RAND_TRY_TIMES - tried,
        {
            tried += 1;
            let index = random_usize_inclusive(&mut self.rng, 1, n);
            if is_prime(index) && slice_contains(self.rest_index.as_slice(), index) {
                proof {
                    lemma_filter_on_board(self.rest_index@, index, n);
                }
                remove_value(&mut self.rest_index, index);
                return Ok(index);
            }
        }
        Err(MapError::NoPrimeIndex)
    }

    /// Draws a free place and takes it.
    fn get_rest_index(&mut self) -> (r: Result<usize, MapError>)
        requires
            old(self).wf(),
        ensures
            final(self).wf(),
            final(self).map_type == old(self).map_type,
            final(self).temp == old(self).temp,
            r is Ok <==> old(self).rest_index@.len() > 0,
            match r {
                Ok(index) => {
                    &&& 1 <= index <= old(self).map_type.sector_count()
                    &&& exists|i: int|
                        0 <= i < old(self).rest_index@.len() && #[trigger] old(self).rest_index@[i]
                            == index && final(self).rest_index@ == old(self).rest_index@.remove(i)
                    &&& old(self).rest_index@.contains(index)
                    &&& left_of(final(self).rest_index@, old(self).rest_index@, seq![index])
                },
                Err(e) => e == MapError::NoRestIndex && final(self).rest_index@ == old(
                    self,
                ).rest_index@,
            },
    {
        if self.rest_index.len() == 0 {
            return Err(MapError::NoRestIndex);
        }
        let index = random_usize_below(&mut self.rng, self.rest_index.len());
        let taken = self.rest_index.remove(index);
        proof {
            lemma_remove_places(old(self).rest_index@, index as int);
            assert(old(self).rest_index@[index as int] == taken);
        }
        Ok(taken)
    }

    /// Draws two free places next to each other and takes them.
    fn get_rest_pair_index(&mut self) -> (r: Result<(usize, usize), MapError>)
        requires
            old(self).wf(),
        ensures
            final(self).wf(),
            final(self).map_type == old(self).map_type,
            final(self).temp == old(self).temp,
            match r {
                Ok(pair) => {
                    let n = old(self).map_type.sector_count();
                    &&& 1 <= pair.0 <= n
                    &&& 1 <= pair.1 <= n
                    &&& old(self).rest_index@.contains(pair.0)
                    &&& old(self).rest_index@.contains(pair.1)
                    &&& beside(n, pair.0, pair.1)
                    &&& left_of(
                        final(self).rest_index@,
                        old(self).rest_index@,
                        seq![pair.0, pair.1],
                    )
                },
                Err(e) => {
                    &&& e == MapError::NoPairIndex
                    &&& same_places(final(self).rest_index@, old(self).rest_index@)
                    &&& old(self).rest_index@.len() == 0 || stuck(
                        old(self).rest_index@,
                        old(self).map_type.sector_count(),
                    )
                },
            },
    {
        let ghost n = self.map_type.sector_count();
        let ghost first = self.rest_index@;
        let mut tried: usize = 0;
        while tried < RAND_TRY_TIMES
            invariant
                self.wf(),
                self.map_type == old(self).map_type,
                self.temp == old(self).temp,
                n == self.map_type.sector_count(),
                first == old(self).rest_index@,
                same_places(self.rest_index@, first),
                tried > 0 ==> first.len() == 0 || stuck(first, n),
            decreases RAND_TRY_TIMES - tried,
        {
            tried += 1;
            let ghost mid = self.rest_index@;
            match self.try_get_pair_index() {
                Ok(pair) => {
                    return Ok(pair);
                },
                Err(e) => {
                    proof {
                        if e == MapError::NoRestIndex {
                            if first.len() > 0 {
                                assert(first.contains(first[0]));
                                assert(mid.contains(first[0]));
                            }
                        } else {
                            let d = choose|d: usize| #[trigger] mid.contains(d) && alone(mid, n, d);
                            assert(first.contains(d) && alone(first, n, d));
                        }
                    }
                },
            }
        }
        Err(MapError::NoPairIndex)
    }

    /// Draws a window of `range_len` places whose two ends are free and
    /// that holds `empty_len` free places, and takes the ends and free
    /// places between them drawn at random, `empty_len` in all. They come
    /// in the order of the window.
    fn get_rand_range(&mut self, range_len: usize, empty_len: usize) -> (r: Result<
        Vec<usize>,
        MapError,
    >)
        requires
            old(self).wf(),
            range_len == 6,
            empty_len == 4,
        ensures
            final(self).wf(),
            final(self).map_type == old(self).map_type,
            final(self).temp == old(self).temp,
            match r {
                Ok(range) => window_taken(
                    range@,
                    old(self).rest_index@,
                    final(self).rest_index@,
                    old(self).map_type.sector_count(),
                ),
                Err(e) => e == MapError::NoRange && final(self).rest_index@ == old(
                    self,
                ).rest_index@,
            },
    {
        let n = self.map_type.sector_count();
        let ghost free = self.rest_index@;
        let mut tried: usize = 0;
        while tried < RAND_TRY_TIMES
            invariant
                self.wf(),
                self.map_type == old(self).map_type,
                self.temp == old(self).temp,
                self.rest_index@ == old(self).rest_index@,
                free == self.rest_index@,
                n == self.map_type.sector_count(),
                range_len == 6,
                empty_len == 4,
            decreases RAND_TRY_TIMES - tried,
        {
            tried += 1;
            if self.rest_index.len() == 0 {
                continue ;
            }
            let st = self.rest_index[random_usize_below(&mut self.rng, self.rest_index.len())];
            let ed = (st + range_len - 1) % n;
            if !slice_contains(self.rest_index.as_slice(), ed) {
                continue ;
            }
            assert(free.contains(st));
            let mut range_indexs: Vec<usize> = Vec::new();
            let mut i: usize = 1;
            while i < range_len - 1
                invariant
                    self.wf(),
                    self.map_type == old(self).map_type,
                    self.temp == old(self).temp,
                    free == self.rest_index@,
                    n == self.map_type.sector_count(),
                    range_len == 6,
                    1 <= st <= n,
                    1 <= i <= range_len - 1,
                    all_on_board(range_indexs@, n),
                    forall|k: int|
                        0 <= k < range_indexs@.len() ==> free.contains(#[trigger] range_indexs@[k])
                            && in_window(n, st, range_indexs@[k]),
                decreases range_len - 1 - i,
            {
                let index = (st + i - 1) % n + 1;
                if slice_contains(self.rest_index.as_slice(), index) {
                    assert(in_window(n, st, index)) by {
                        assert(index == ((st + (i as int) - 1) % (n as int)) + 1);
                    }
                    range_indexs.push(index);
                }
                i += 1;
            }
            if range_indexs.len() < empty_len - 2 {
                continue ;
            }
            let mut mids: Vec<usize> = Vec::new();
            while mids.len() < empty_len - 2 && range_indexs.len() > 0
                invariant
                    self.wf(),
                    self.map_type == old(self).map_type,
                    self.temp == old(self).temp,
                    free == self.rest_index@,
                    1 <= st <= n,
                    self.rest_index@.contains(ed),
                    n == self.map_type.sector_count(),
                    empty_len == 4,
                    all_on_board(range_indexs@, n),
                    all_on_board(mids@, n),
                    forall|k: int|
                        0 <= k < range_indexs@.len() ==> free.contains(#[trigger] range_indexs@[k])
                            && in_window(n, st, range_indexs@[k]),
                    forall|k: int|
                        0 <= k < mids@.len() ==> free.contains(#[trigger] mids@[k]) && in_window(
                            n,
                            st,
                            mids@[k],
                        ),
                decreases range_indexs@.len(),
            {
                let index = range_indexs[random_usize_below(&mut self.rng, range_indexs.len())];
                let ghost candidates = range_indexs@;
                proof {
                    lemma_filter_on_board(range_indexs@, index, n);
                    range_indexs@.lemma_filter_len(differs_from(index));
                    lemma_filter_drops(range_indexs@, index);
                    lemma_filter_places(candidates, index);
                }
                remove_value(&mut range_indexs, index);
                proof {
                    assert forall|k: int| 0 <= k < range_indexs@.len() implies free.contains(
                        #[trigger] range_indexs@[k],
                    ) && in_window(n, st, range_indexs@[k]) by {
                        assert(range_indexs@.contains(range_indexs@[k]));
                        assert(candidates.contains(range_indexs@[k]));
                        let w = choose|w: int|
                            0 <= w < candidates.len() && candidates[w] == range_indexs@[k];
                    }
                }
                mids.push(index);
            }
            if mids.len() < empty_len - 2 {
                continue ;
            }
            proof {
                let w = choose|w: int|
                    0 <= w < self.rest_index@.len() && self.rest_index@[w] == ed;
                assert(1 <= ed <= n);
            }
            let first = mids[0];
            let second = mids[1];
            let first_off = (first + n - st) % n;
            let second_off = (second + n - st) % n;
            let mut res: Vec<usize> = Vec::new();
            res.push(st);
            if first_off <= second_off {
                res.push(first);
                res.push(second);
            } else {
                res.push(second);
                res.push(first);
            }
            res.push(ed);
            let mut k: usize = 0;
            assert(res@.take(0) =~= Seq::<usize>::empty());
            while k < res.len()
                invariant
                    self.wf(),
                    self.map_type == old(self).map_type,
                    self.temp == old(self).temp,
                    n == self.map_type.sector_count(),
                    all_on_board(res@, n),
                    k <= res@.len(),
                    self.rest_index@ == without(free, res@.take(k as int)),
                decreases res@.len() - k,
            {
                proof {
                    lemma_filter_on_board(self.rest_index@, res@[k as int], n);
                    assert(res@.take(k + 1).drop_last() =~= res@.take(k as int));
                }
                remove_value(&mut self.rest_index, res[k]);
                k += 1;
            }
            assert(res@.take(k as int) =~= res@);
            return Ok(res);
        }
        Err(MapError::NoRange)
    }

    fn get_rand_bool(&mut self) -> (r: bool)
        ensures
            final(self).rest_index == old(self).rest_index,
            final(self).map_type == old(self).map_type,
            final(self).temp == old(self).temp,
    {
        random_coin(&mut self.rng)
    }

    /// Draws a free place and looks for a free place beside it, on the side
    /// that a coin picks first. Takes both if there is one, none if not.
    fn try_get_pair_index(&mut self) -> (r: Result<(usize, usize), MapError>)
        requires
            old(self).wf(),
        ensures
            final(self).wf(),
            final(self).map_type == old(self).map_type,
            final(self).temp == old(self).temp,
            match r {
                Ok(pair) => {
                    let n = old(self).map_type.sector_count();
                    &&& 1 <= pair.0 <= n
                    &&& 1 <= pair.1 <= n
                    &&& old(self).rest_index@.contains(pair.0)
                    &&& old(self).rest_index@.contains(pair.1)
                    &&& beside(n, pair.0, pair.1)
                    &&& left_of(
                        final(self).rest_index@,
                        old(self).rest_index@,
                        seq![pair.0, pair.1],
                    )
                },
                Err(e) => {
                    &&& same_places(final(self).rest_index@, old(self).rest_index@)
                    &&& e == MapError::NoRestIndex || e == MapError::NoPairIndex
                    &&& e == MapError::NoRestIndex <==> old(self).rest_index@.len() == 0
                    &&& e == MapError::NoPairIndex ==> stuck(
                        old(self).rest_index@,
                        old(self).map_type.sector_count(),
                    )
                },
            },
    {
        let n = self.map_type.sector_count();
        let ghost first = self.rest_index@;
        let index = match self.get_rest_index() {
            Ok(index) => index,
            Err(e) => {
                return Err(e);
            },
        };
        let (left, right) = self.adjacent_index(index);
        let (left, right) = if self.get_rand_bool() {
            (left, right)
        } else {
            (right, left)
        };
        let ghost rest = self.rest_index@;
        if slice_contains(self.rest_index.as_slice(), left) {
            proof {
                lemma_filter_on_board(self.rest_index@, left, n);
                lemma_filter_places(rest, left);
                assert(seq![left, index][0] == left && seq![left, index][1] == index);
            }
            remove_value(&mut self.rest_index, left);
            return Ok((left, index));
        } else if slice_contains(self.rest_index.as_slice(), right) {
            proof {
                lemma_filter_on_board(self.rest_index@, right, n);
                lemma_filter_places(rest, right);
                assert(seq![index, right][0] == index && seq![index, right][1] == right);
            }
            remove_value(&mut self.rest_index, right);
            return Ok((index, right));
        }
        self.rest_index.push(index);
        proof {
            lemma_push_places(rest, index);
            assert(seq![index][0] == index);
            assert(first.contains(index) && alone(first, n, index)) by {
                if first.contains(left) {
                    assert(rest.contains(left));
                }
                if first.contains(right) {
                    assert(rest.contains(right));
                }
            }
        }
        Err(MapError::NoPairIndex)
    }

    /// The two places beside a place.
    fn adjacent_index(&self, from: usize) -> (r: (usize, usize))
        requires
            1 <= from <= self.map_type.sector_count(),
        ensures
            r.0 == prev_index(self.map_type.sector_count() as int, from as int),
            r.1 == next_index(self.map_type.sector_count() as int, from as int),
            1 <= r.0 <= self.map_type.sector_count(),
            1 <= r.1 <= self.map_type.sector_count(),
    {
        let max = self.map_type.sector_count();
        let left = if from == 1 {
            max
        } else {
            from - 1
        };
        let right = if from == max {
            1
        } else {
            from + 1
        };
        (left, right)
    }
}

/// Taking out a value that a list holds makes the list shorter.
proof fn lemma_filter_drops(items: Seq<usize>, x: usize)
    requires
        items.contains(x),
    ensures
        items.filter(differs_from(x)).len() < items.len(),
    decreases items.len(),
{
    reveal(Seq::filter);
    if items.len() > 0 {
        let init = items.drop_last();
        if items.last() == x {
            init.lemma_filter_len(differs_from(x));
        } else {
            let w = choose|w: int| 0 <= w < items.len() && items[w] == x;
            assert(init[w] == x);
            lemma_filter_drops(init, x);
        }
    }
}

impl GameMap {
    /// Draws the map of a game.
    pub fn new(rng: SmallRng, map_type: MapType) -> (r: Result<Self, MapError>)
        ensures
            r matches Ok(map) ==> map.map_type == map_type && map.sectors.wf() && valid_layout(
                map_type,
                map.sectors@,
            ),
            r matches Err(e) ==> e == MapError::OutOfTries || e == MapError::BrokenRules,
    {
        let mut generator = MapGenerator::new(rng, &map_type);
        match generator.generate_sectors() {
            Ok(data) => Ok(Self { map_type, sectors: Sectors { data } }),
            Err(e) => Err(e),
        }
    }
}

} // verus!
