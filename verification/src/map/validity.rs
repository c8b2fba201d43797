use vstd::prelude::*;

use super::clue::{
    check_clue_with_sectors, clue_holds, holds_at, lemma_view_neighbours, Clue, ClueConnection,
    ClueEnum,
};
use super::model::{type_at, MapType, SectorType, Sectors};

verus! {

broadcast use vstd::set::group_set_axioms;

/// Whether a position, counted from 1, has a prime number.
pub open spec fn is_prime_place(p: int) -> bool {
    p == 2 || p == 3 || p == 5 || p == 7 || p == 11 || p == 13 || p == 17
}

/// The positions of a layout that hold type `t`.
pub open spec fn places_of(s: Seq<SectorType>, t: SectorType) -> Set<int> {
    Set::new(|p: int| holds_at(s, p, t))
}

/// How many sectors of a board hold each type.
pub open spec fn wanted_count(map_type: MapType, t: SectorType) -> nat {
    match t {
        SectorType::Comet => 2,
        SectorType::Asteroid => 4,
        SectorType::DwarfPlanet => match map_type {
            MapType::Standard => 1,
            MapType::Expert => 4,
        },
        SectorType::Nebula => 2,
        SectorType::X => 1,
        SectorType::Space => match map_type {
            MapType::Standard => 2,
            MapType::Expert => 5,
        },
    }
}

/// Whether type `t` is held by as many sectors as the board wants.
pub open spec fn has_wanted_count(map_type: MapType, s: Seq<SectorType>, t: SectorType) -> bool {
    places_of(s, t).finite() && places_of(s, t).len() == wanted_count(map_type, t)
}

/// How many steps forward lead from position `start` to position `p`.
pub open spec fn steps_from(n: int, start: int, p: int) -> int {
    if p >= start {
        p - start
    } else {
        p + n - start
    }
}

/// The position `k` steps after `start`, for `k` no more than a turn.
pub open spec fn wrap(n: int, p: int) -> int {
    if p > n {
        p - n
    } else {
        p
    }
}

/// Whether the dwarf planets fill the window of six that begins at `start`:
/// both ends of the window hold one, and none lies outside it.
pub open spec fn window_holds(s: Seq<SectorType>, start: int) -> bool {
    let n = s.len() as int;
    &&& holds_at(s, start, SectorType::DwarfPlanet)
    &&& holds_at(s, wrap(n, start + 5), SectorType::DwarfPlanet)
    &&& forall|p: int| #[trigger]
        holds_at(s, p, SectorType::DwarfPlanet) ==> steps_from(n, start, p) <= 5
}

/// The rules that every layout of a board keeps: each type is held by as
/// many sectors as the board wants; comets lie on prime positions; every
/// asteroid has an asteroid next to it; no dwarf planet has X next to it; on
/// the large board the dwarf planets fill a window of six; every nebula has
/// a `Space` next to it.
pub open spec fn valid_layout(map_type: MapType, s: Seq<SectorType>) -> bool {
    &&& s.len() == map_type.sector_count()
    &&& has_wanted_count(map_type, s, SectorType::Comet)
    &&& has_wanted_count(map_type, s, SectorType::Asteroid)
    &&& has_wanted_count(map_type, s, SectorType::DwarfPlanet)
    &&& has_wanted_count(map_type, s, SectorType::Nebula)
    &&& has_wanted_count(map_type, s, SectorType::X)
    &&& forall|p: int| #[trigger] holds_at(s, p, SectorType::Comet) ==> is_prime_place(p)
    &&& clue_holds(s, SectorType::Asteroid, SectorType::Asteroid, ClueConnection::AllAdjacent)
    &&& clue_holds(s, SectorType::DwarfPlanet, SectorType::X, ClueConnection::NotAdjacent)
    &&& map_type == MapType::Expert ==> exists|start: int| window_holds(s, start)
    &&& clue_holds(s, SectorType::Nebula, SectorType::Space, ClueConnection::AllAdjacent)
}

/// The positions up to `upto` that hold type `t`.
pub open spec fn places_upto(s: Seq<SectorType>, t: SectorType, upto: int) -> Set<int> {
    Set::new(|p: int| holds_at(s, p, t) && p <= upto)
}

/// How many sectors of a board hold type `t`.
pub fn count_type(sectors: &Sectors, t: SectorType) -> (r: usize)
    ensures
        places_of(sectors@, t).finite(),
        r == places_of(sectors@, t).len(),
{
    let n = sectors.data.len();
    let ghost s = sectors@;
    let mut cnt: usize = 0;
    let mut i: usize = 0;
    assert(places_upto(s, t, 0) =~= Set::<int>::empty());
    while i < n
        invariant
            s == sectors@,
            n == s.len(),
            i <= n,
            cnt <= i,
            places_upto(s, t, i as int).finite(),
            cnt == places_upto(s, t, i as int).len(),
        decreases n - i,
    {
        proof {
            lemma_view_neighbours(sectors, i + 1);
        }
        if sectors.data[i].sector_type == t {
            assert(places_upto(s, t, i + 1) =~= places_upto(s, t, i as int).insert(i + 1));
            cnt += 1;
        } else {
            assert(places_upto(s, t, i + 1) =~= places_upto(s, t, i as int));
        }
        i += 1;
    }
    assert(places_upto(s, t, n as int) =~= places_of(s, t));
    cnt
}

/// Whether the dwarf planets fill the window of six that begins at `start`.
fn check_window(sectors: &Sectors, start: usize) -> (r: bool)
    requires
        1 <= start <= sectors@.len(),
        sectors@.len() >= 6,
    ensures
        r == window_holds(sectors@, start as int),
{
    let n = sectors.data.len();
    let ghost s = sectors@;
    proof {
        lemma_view_neighbours(sectors, start as int);
    }
    if sectors.data[start - 1].sector_type != SectorType::DwarfPlanet {
        return false;
    }
    let end = if start > n - 5 {
        start - (n - 5)
    } else {
        start + 5
    };
    proof {
        lemma_view_neighbours(sectors, end as int);
    }
    if sectors.data[end - 1].sector_type != SectorType::DwarfPlanet {
        return false;
    }
    let mut i: usize = 0;
    while i < n
        invariant
            s == sectors@,
            n == s.len(),
            1 <= start <= n,
            i <= n,
            forall|p: int|
                1 <= p <= i && #[trigger] holds_at(s, p, SectorType::DwarfPlanet) ==> steps_from(
                    n as int,
                    start as int,
                    p,
                ) <= 5,
        decreases n - i,
    {
        proof {
            lemma_view_neighbours(sectors, i + 1);
        }
        if sectors.data[i].sector_type == SectorType::DwarfPlanet {
            let steps = if i + 1 >= start {
                i + 1 - start
            } else {
                i + 1 + (n - start)
            };
            if steps > 5 {
                assert(holds_at(s, i + 1, SectorType::DwarfPlanet));
                return false;
            }
        }
        i += 1;
    }
    true
}

/// Whether the dwarf planets of a board fill some window of six.
fn has_window(sectors: &Sectors) -> (r: bool)
    requires
        sectors@.len() >= 6,
    ensures
        r == exists|start: int| window_holds(sectors@, start),
{
    let n = sectors.data.len();
    let ghost s = sectors@;
    let mut start: usize = 0;
    while start < n
        invariant
            s == sectors@,
            n == s.len(),
            n >= 6,
            start <= n,
            forall|q: int| 1 <= q <= start ==> !window_holds(s, q),
        decreases n - start,
    {
        if check_window(sectors, start + 1) {
            return true;
        }
        start += 1;
    }
    assert forall|q: int| !window_holds(s, q) by {
        if window_holds(s, q) {
            assert(holds_at(s, q, SectorType::DwarfPlanet));
        }
    }
    false
}

/// Whether a board keeps the rules of its kind: see `valid_layout`.
pub fn check_sectors_rules(sectors: &Sectors, map_type: &MapType) -> (r: bool)
    requires
        sectors.wf(),
    ensures
        r == valid_layout(*map_type, sectors@),
{
    let n = sectors.data.len();
    let ghost s = sectors@;
    if n != map_type.sector_count() {
        return false;
    }
    let dwarfs: usize = match map_type {
        MapType::Standard => 1,
        MapType::Expert => 4,
    };
    if count_type(sectors, SectorType::Comet) != 2 || count_type(sectors, SectorType::Asteroid)
        != 4 || count_type(sectors, SectorType::DwarfPlanet) != dwarfs || count_type(
        sectors,
        SectorType::Nebula,
    ) != 2 || count_type(sectors, SectorType::X) != 1 {
        return false;
    }
    let mut i: usize = 0;
    while i < n
        invariant
            s == sectors@,
            n == s.len(),
            i <= n,
            forall|p: int|
                1 <= p <= i && #[trigger] holds_at(s, p, SectorType::Comet) ==> is_prime_place(p),
        decreases n - i,
    {
        proof {
            lemma_view_neighbours(sectors, i + 1);
        }
        if sectors.data[i].sector_type == SectorType::Comet {
            let p = i + 1;
            if !(p == 2 || p == 3 || p == 5 || p == 7 || p == 11 || p == 13 || p == 17) {
                assert(holds_at(s, i + 1, SectorType::Comet));
                return false;
            }
        }
        i += 1;
    }
    let asteroids = Clue {
        index: ClueEnum::A,
        subject: SectorType::Asteroid,
        object: SectorType::Asteroid,
        conn: ClueConnection::AllAdjacent,
    };
    let dwarf_planets = Clue {
        index: ClueEnum::A,
        subject: SectorType::DwarfPlanet,
        object: SectorType::X,
        conn: ClueConnection::NotAdjacent,
    };
    let nebulae = Clue {
        index: ClueEnum::A,
        subject: SectorType::Nebula,
        object: SectorType::Space,
        conn: ClueConnection::AllAdjacent,
    };
    if !check_clue_with_sectors(&asteroids, sectors) || !check_clue_with_sectors(
        &dwarf_planets,
        sectors,
    ) || !check_clue_with_sectors(&nebulae, sectors) {
        return false;
    }
    match map_type {
        MapType::Standard => true,
        MapType::Expert => has_window(sectors),
    }
}

} // verus!
