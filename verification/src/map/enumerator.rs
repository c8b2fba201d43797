use itertools::Itertools;
use std::collections::HashMap;
use vstd::prelude::*;

use super::model::{MapType, Sector, SectorType, Sectors};
use super::soundness::lemma_enumeration_is_valid;
use super::validity::valid_layout;

verus! {

broadcast use vstd::seq_lib::group_seq_properties;

/// The place before `p` on a ring of places `0..n`.
pub open spec fn ring_prev(n: usize, p: usize) -> usize {
    if p == 0 {
        (n - 1) as usize
    } else {
        (p - 1) as usize
    }
}

/// The place after `p` on a ring of places `0..n`.
pub open spec fn ring_next(n: usize, p: usize) -> usize {
    if p + 1 >= n {
        0
    } else {
        (p + 1) as usize
    }
}

fn prev_place(n: usize, p: usize) -> (r: usize)
    requires
        p < n,
    ensures
        r == ring_prev(n, p),
        r < n,
{
    if p == 0 {
        n - 1
    } else {
        p - 1
    }
}

fn next_place(n: usize, p: usize) -> (r: usize)
    requires
        p < n,
    ensures
        r == ring_next(n, p),
        r < n,
{
    if p + 1 >= n {
        0
    } else {
        p + 1
    }
}

/// The places `0..n` in rising order.
pub open spec fn places(n: usize) -> Seq<usize> {
    Seq::new(n as nat, |i: int| i as usize)
}

/// Each combination of `cs` with `x` put in front.
pub open spec fn with_first(x: usize, cs: Seq<Seq<usize>>) -> Seq<Seq<usize>> {
    Seq::new(cs.len(), |i: int| seq![x] + cs[i])
}

/// The ways to pick `k` of the items of `s`, each in the order of `s`: first
/// those that take the first item, then those that do not.
pub open spec fn combos(s: Seq<usize>, k: nat) -> Seq<Seq<usize>>
    decreases s.len(),
{
    if k == 0 {
        seq![Seq::<usize>::empty()]
    } else if s.len() == 0 {
        Seq::<Seq<usize>>::empty()
    } else {
        with_first(s[0], combos(s.drop_first(), (k - 1) as nat)) + combos(s.drop_first(), k)
    }
}

/// The ways to pick two of the items of `s`, as pairs.
pub open spec fn pairs(s: Seq<usize>) -> Seq<(usize, usize)> {
    Seq::new(combos(s, 2).len(), |i: int| (combos(s, 2)[i][0], combos(s, 2)[i][1]))
}

/// Whether the items of `s` rise strictly.
pub open spec fn rising(s: Seq<usize>) -> bool {
    forall|i: int, j: int| 0 <= i < j < s.len() ==> s[i] < s[j]
}

/// A combination has `k` items, all of them items of `s`, and rises where `s`
/// does.
pub proof fn lemma_combos_shape(s: Seq<usize>, k: nat, i: int)
    requires
        0 <= i < combos(s, k).len(),
    ensures
        combos(s, k)[i].len() == k,
        forall|j: int| 0 <= j < k ==> s.contains(#[trigger] combos(s, k)[i][j]),
        rising(s) ==> rising(combos(s, k)[i]),
        s.no_duplicates() ==> combos(s, k)[i].no_duplicates(),
    decreases s.len(),
{
    if k == 0 {
    } else if s.len() == 0 {
    } else {
        let t = s.drop_first();
        let with = with_first(s[0], combos(t, (k - 1) as nat));
        if i < with.len() {
            let inner = combos(t, (k - 1) as nat)[i];
            lemma_combos_shape(t, (k - 1) as nat, i);
            let c = combos(s, k)[i];
            assert(c == seq![s[0]] + inner);
            assert forall|j: int| 0 <= j < k implies s.contains(#[trigger] c[j]) by {
                if j == 0 {
                    assert(s[0] == c[0]);
                } else {
                    assert(c[j] == inner[j - 1]);
                    assert(t.contains(inner[j - 1]));
                    let w = choose|w: int| 0 <= w < t.len() && t[w] == inner[j - 1];
                    assert(s[w + 1] == c[j]);
                }
            }
            if rising(s) {
                assert(rising(t));
                assert forall|a: int, b: int| 0 <= a < b < c.len() implies c[a] < c[b] by {
                    assert(c[b] == inner[b - 1]);
                    assert(t.contains(inner[b - 1]));
                    let w = choose|w: int| 0 <= w < t.len() && t[w] == inner[b - 1];
                    assert(s[w + 1] == c[b]);
                    if a == 0 {
                        assert(c[0] == s[0]);
                    } else {
                        assert(c[a] == inner[a - 1]);
                    }
                }
            }
            if s.no_duplicates() {
                assert(t.no_duplicates());
                assert forall|a: int, b: int| 0 <= a < c.len() && 0 <= b < c.len() && a
                    != b implies c[a] != c[b] by {
                    if a == 0 || b == 0 {
                        let other = if a == 0 {
                            b
                        } else {
                            a
                        };
                        assert(c[other] == inner[other - 1]);
                        assert(t.contains(inner[other - 1]));
                        let w = choose|w: int| 0 <= w < t.len() && t[w] == inner[other - 1];
                        assert(s[w + 1] == c[other]);
                        assert(c[0] == s[0]);
                    } else {
                        assert(c[a] == inner[a - 1]);
                        assert(c[b] == inner[b - 1]);
                    }
                }
            }
        } else {
            lemma_combos_shape(t, k, i - with.len());
            let c = combos(s, k)[i];
            assert(c == combos(t, k)[i - with.len()]);
            assert forall|j: int| 0 <= j < k implies s.contains(#[trigger] c[j]) by {
                assert(t.contains(c[j]));
                let w = choose|w: int| 0 <= w < t.len() && t[w] == c[j];
                assert(s[w + 1] == c[j]);
            }
            if rising(s) {
                assert(rising(t));
            }
            if s.no_duplicates() {
                assert(t.no_duplicates());
            }
        }
    }
}

/// `Itertools::combinations` over a list of numbers, collected. It yields
/// the `k`-item combinations of the items, each in the order of the list, the
/// combinations in the order of the places they take: `combos`.
#[verifier::external_body]
pub(crate) fn combinations(items: &Vec<usize>, k: usize) -> (r: Vec<Vec<usize>>)
    ensures
        r@.len() == combos(items@, k as nat).len(),
        forall|i: int| 0 <= i < r@.len() ==> (#[trigger] r@[i])@ == combos(items@, k as nat)[i],
{
    items.iter().copied().combinations(k).collect()
}

/// `Itertools::tuple_combinations` for pairs over a list of numbers,
/// collected. It yields the two-item combinations in the same order as
/// `combinations` does, as tuples: `pairs`.
#[verifier::external_body]
pub(crate) fn tuple_combinations(items: &Vec<usize>) -> (r: Vec<(usize, usize)>)
    ensures
        r@ == pairs(items@),
{
    items.iter().copied().tuple_combinations().collect()
}

/// The views of a list of lists.
pub open spec fn views(v: Seq<Vec<usize>>) -> Seq<Seq<usize>> {
    Seq::new(v.len(), |i: int| v[i]@)
}

/// The views of a list that grew by one are the views before, and the view
/// of the new item.
pub proof fn lemma_views_push(v: Seq<Vec<usize>>, x: Vec<usize>)
    ensures
        views(v.push(x)) == views(v).push(x@),
{
    assert(views(v.push(x)) =~= views(v).push(x@));
}

/// The places, counted from 0, whose numbers counted from 1 are prime.
pub open spec fn prime_places(n: usize) -> Seq<usize> {
    if n == 12 {
        seq![1usize, 2usize, 4usize, 6usize, 10usize]
    } else {
        seq![1usize, 2usize, 4usize, 6usize, 10usize, 12usize, 16usize]
    }
}

/// The four places between the ends of the window of six that begins at
/// `start`.
pub open spec fn window_mids(n: usize, start: usize) -> Seq<usize> {
    seq![
        ((start + 1) % (n as int)) as usize,
        ((start + 2) % (n as int)) as usize,
        ((start + 3) % (n as int)) as usize,
        ((start + 4) % (n as int)) as usize,
    ]
}

/// The dwarf planets of a window of six that begins at `start`: its two
/// ends and two of the four places between them.
pub open spec fn window_choices(n: usize, start: usize) -> Seq<Seq<usize>> {
    let mids = window_mids(n, start);
    let end = ((start + 5) % (n as int)) as usize;
    Seq::new(
        combos(mids, 2).len(),
        |i: int| seq![start, end, combos(mids, 2)[i][0], combos(mids, 2)[i][1]],
    )
}

/// The choices of the windows that begin before `upto`.
pub open spec fn windows_upto(n: usize, upto: usize) -> Seq<Seq<usize>>
    decreases upto,
{
    if upto == 0 {
        Seq::empty()
    } else {
        windows_upto(n, (upto - 1) as usize) + window_choices(n, (upto - 1) as usize)
    }
}

/// First stage: where the dwarf planets may be. On the small board the one
/// dwarf planet may be anywhere; on the large board the four fill a window.
pub open spec fn dwarf_choices(map_type: MapType) -> Seq<Seq<usize>> {
    match map_type {
        MapType::Standard => Seq::new(12, |i: int| seq![i as usize]),
        MapType::Expert => windows_upto(18, 18),
    }
}

/// Whether place `p` is taken by a dwarf planet of `c` or is next to one.
pub open spec fn blocks(n: usize, c: Seq<usize>, p: usize) -> bool {
    c.contains(p) || c.contains(ring_prev(n, p)) || c.contains(ring_next(n, p))
}

/// The test that `x_choices` filters by.
pub open spec fn unblocked(n: usize, c: Seq<usize>) -> spec_fn(usize) -> bool {
    |p: usize| !blocks(n, c, p)
}

/// Second stage: where X may be, given the dwarf planets: on no place of
/// theirs and next to none.
pub open spec fn x_choices(n: usize, c: Seq<usize>) -> Seq<usize> {
    places(n).filter(unblocked(n, c))
}

/// The test that the later stages filter by: the place is not in `taken`.
pub open spec fn untaken(taken: Seq<usize>) -> spec_fn(usize) -> bool {
    |p: usize| !taken.contains(p)
}

/// Third stage: where the two comets may be, given the dwarf planets and X:
/// on two free places with prime numbers.
pub open spec fn comet_choices(n: usize, c: Seq<usize>, f: usize) -> Seq<(usize, usize)> {
    pairs(prime_places(n).filter(untaken(c.push(f))))
}

/// Whether every place of `b` has a neighbour in `b`.
pub open spec fn adjacency_closed(n: usize, b: Seq<usize>) -> bool {
    forall|i: int|
        0 <= i < b.len() ==> b.contains(ring_prev(n, #[trigger] b[i])) || b.contains(
            ring_next(n, b[i]),
        )
}

/// The test that `asteroid_choices` filters by.
pub open spec fn closed_on(n: usize) -> spec_fn(Seq<usize>) -> bool {
    |b: Seq<usize>| adjacency_closed(n, b)
}

/// The places taken after the third stage.
pub open spec fn taken_before_asteroids(c: Seq<usize>, f: usize, a: (usize, usize)) -> Seq<usize> {
    c.push(f).push(a.0).push(a.1)
}

/// Fourth stage: where the four asteroids may be: on free places, each next
/// to another of them.
pub open spec fn asteroid_choices(n: usize, c: Seq<usize>, f: usize, a: (usize, usize)) -> Seq<
    Seq<usize>,
> {
    combos(places(n).filter(untaken(taken_before_asteroids(c, f, a))), 4).filter(closed_on(n))
}

/// The places that the first four stages leave free.
pub open spec fn leftover(n: usize, c: Seq<usize>, f: usize, a: (usize, usize), b: Seq<usize>)
    -> Seq<usize> {
    places(n).filter(untaken(taken_before_asteroids(c, f, a) + b))
}

/// Whether nebula `x` of the pair `d` has a neighbour among the places of
/// `rest` that the pair leaves to `Space`.
pub open spec fn nebula_has_space(n: usize, rest: Seq<usize>, d: (usize, usize), x: usize) -> bool {
    let before = ring_prev(n, x);
    let after = ring_next(n, x);
    (rest.contains(before) && before != d.0 && before != d.1) || (rest.contains(after) && after
        != d.0 && after != d.1)
}

/// The test that `nebula_choices` filters by.
pub open spec fn splits_well(n: usize, rest: Seq<usize>) -> spec_fn((usize, usize)) -> bool {
    |d: (usize, usize)| nebula_has_space(n, rest, d, d.0) && nebula_has_space(n, rest, d, d.1)
}

/// Fifth stage: which two of the places left may be the nebulae, the others
/// being `Space`: each nebula has a `Space` next to it.
pub open spec fn nebula_choices(n: usize, rest: Seq<usize>) -> Seq<(usize, usize)> {
    pairs(rest).filter(splits_well(n, rest))
}

/// What place `p` holds when the five stages have chosen.
pub open spec fn built_type(
    c: Seq<usize>,
    f: usize,
    a: (usize, usize),
    b: Seq<usize>,
    d: (usize, usize),
    p: usize,
) -> SectorType {
    if p == d.0 || p == d.1 {
        SectorType::Nebula
    } else if b.contains(p) {
        SectorType::Asteroid
    } else if p == a.0 || p == a.1 {
        SectorType::Comet
    } else if p == f {
        SectorType::X
    } else if c.contains(p) {
        SectorType::DwarfPlanet
    } else {
        SectorType::Space
    }
}

/// The layout that the five stages have chosen.
pub open spec fn built_layout(
    n: usize,
    c: Seq<usize>,
    f: usize,
    a: (usize, usize),
    b: Seq<usize>,
    d: (usize, usize),
) -> Seq<SectorType> {
    Seq::new(n as nat, |p: int| built_type(c, f, a, b, d, p as usize))
}

/// Whether `items` holds `x`.
fn list_contains(items: &Vec<usize>, x: usize) -> (r: bool)
    ensures
        r == items@.contains(x),
{
    let mut i: usize = 0;
    while i < items.len()
        invariant
            i <= items@.len(),
            forall|j: int| 0 <= j < i ==> items@[j] != x,
        decreases items@.len() - i,
    {
        if items[i] == x {
            return true;
        }
        i += 1;
    }
    false
}

/// The places that hold an item of the list, as a table of flags.
fn flags_of(n: usize, items: &Vec<usize>) -> (r: Vec<bool>)
    ensures
        r@.len() == n,
        forall|p: usize| p < n ==> #[trigger] r@[p as int] == items@.contains(p),
{
    let mut flags: Vec<bool> = Vec::new();
    let mut p: usize = 0;
    while p < n
        invariant
            p <= n,
            flags@.len() == p,
            forall|q: usize| q < p ==> #[trigger] flags@[q as int] == items@.contains(q),
        decreases n - p,
    {
        flags.push(list_contains(items, p));
        p += 1;
    }
    flags
}

/// The places among `0..n` that are not in `taken`.
fn free_places(n: usize, taken: &Vec<usize>) -> (r: Vec<usize>)
    ensures
        r@ == places(n).filter(untaken(taken@)),
        forall|i: int| 0 <= i < r@.len() ==> r@[i] < n,
{
    let mut out: Vec<usize> = Vec::new();
    let mut p: usize = 0;
    assert(places(n).take(0) =~= Seq::<usize>::empty());
    while p < n
        invariant
            p <= n,
            out@ == places(n).take(p as int).filter(untaken(taken@)),
            forall|i: int| 0 <= i < out@.len() ==> out@[i] < p,
        decreases n - p,
    {
        proof {
            assert(places(n).take(p + 1) =~= places(n).take(p as int).push(p));
            places(n).take(p as int).lemma_filter_push(p, untaken(taken@));
        }
        if !list_contains(taken, p) {
            out.push(p);
        }
        p += 1;
    }
    assert(places(n).take(n as int) =~= places(n));
    out
}

pub fn generate_c(map_type: &MapType) -> (r: Vec<Vec<usize>>)
    ensures
        views(r@) == dwarf_choices(*map_type),
{
    let mut out: Vec<Vec<usize>> = Vec::new();
    match map_type {
        MapType::Standard => {
            let mut i: usize = 0;
            while i < 12
                invariant
                    i <= 12,
                    out@.len() == i,
                    forall|j: int| 0 <= j < i ==> (#[trigger] out@[j])@ == seq![j as usize],
                decreases 12 - i,
            {
                let mut one: Vec<usize> = Vec::new();
                one.push(i);
                assert(one@ =~= seq![i]);
                out.push(one);
                i += 1;
            }
            assert(views(out@) =~= dwarf_choices(*map_type));
        },
        MapType::Expert => {
            let cnt: usize = 18;
            let mut start: usize = 0;
            while start < cnt
                invariant
                    cnt == 18,
                    start <= cnt,
                    views(out@) == windows_upto(cnt, start),
                decreases cnt - start,
            {
                let end = (start + 5) % cnt;
                let mut mids: Vec<usize> = Vec::new();
                mids.push((start + 1) % cnt);
                mids.push((start + 2) % cnt);
                mids.push((start + 3) % cnt);
                mids.push((start + 4) % cnt);
                assert(mids@ =~= window_mids(cnt, start));
                let combs = combinations(&mids, 2);
                let ghost before = views(out@);
                let mut k: usize = 0;
                while k < combs.len()
                    invariant
                        cnt == 18,
                        start < cnt,
                        end == ((start + 5) % (cnt as int)) as usize,
                        mids@ == window_mids(cnt, start),
                        k <= combs@.len(),
                        combs@.len() == combos(mids@, 2).len(),
                        forall|i: int|
                            0 <= i < combs@.len() ==> (#[trigger] combs@[i])@ == combos(
                                mids@,
                                2,
                            )[i],
                        views(out@) == before + window_choices(cnt, start).take(k as int),
                    decreases combs@.len() - k,
                {
                    proof {
                        lemma_combos_shape(mids@, 2, k as int);
                    }
                    let comb = &combs[k];
                    let mut one: Vec<usize> = Vec::new();
                    one.push(start);
                    one.push(end);
                    one.push(comb[0]);
                    one.push(comb[1]);
                    assert(window_choices(cnt, start).len() == combos(mids@, 2).len());
                    assert(window_choices(cnt, start)[k as int] == seq![
                        start,
                        end,
                        combos(mids@, 2)[k as int][0],
                        combos(mids@, 2)[k as int][1],
                    ]);
                    assert(one@ =~= window_choices(cnt, start)[k as int]);
                    proof {
                        lemma_views_push(out@, one);
                    }
                    out.push(one);
                    assert(window_choices(cnt, start).take(k + 1) =~= window_choices(
                        cnt,
                        start,
                    ).take(k as int).push(one@));
                    assert(views(out@) =~= before + window_choices(cnt, start).take(k + 1));
                    k += 1;
                }
                assert(window_choices(cnt, start).take(k as int) =~= window_choices(cnt, start));
                start += 1;
            }
        },
    }
    out
}

pub fn generate_f(c: &Vec<usize>, map_type: &MapType) -> (r: Vec<usize>)
    ensures
        r@ == x_choices(map_type.sector_count(), c@),
{
    let cnt = map_type.sector_count();
    let taken = flags_of(cnt, c);
    let mut available: Vec<usize> = Vec::new();
    let mut p: usize = 0;
    assert(places(cnt).take(0) =~= Seq::<usize>::empty());
    while p < cnt
        invariant
            cnt == map_type.sector_count(),
            p <= cnt,
            taken@.len() == cnt,
            forall|q: usize| q < cnt ==> #[trigger] taken@[q as int] == c@.contains(q),
            available@ == places(cnt).take(p as int).filter(unblocked(cnt, c@)),
        decreases cnt - p,
    {
        proof {
            assert(places(cnt).take(p + 1) =~= places(cnt).take(p as int).push(p));
            places(cnt).take(p as int).lemma_filter_push(p, unblocked(cnt, c@));
        }
        if !taken[p] && !taken[prev_place(cnt, p)] && !taken[next_place(cnt, p)] {
            available.push(p);
        }
        p += 1;
    }
    assert(places(cnt).take(cnt as int) =~= places(cnt));
    available
}

pub fn generate_a(c: &Vec<usize>, f: usize, map_type: &MapType) -> (r: Vec<(usize, usize)>)
    ensures
        r@ == comet_choices(map_type.sector_count(), c@, f),
{
    let primes: Vec<usize> = match map_type {
        MapType::Standard => vec![1, 2, 4, 6, 10],
        MapType::Expert => vec![1, 2, 4, 6, 10, 12, 16],
    };
    assert(primes@ =~= prime_places(map_type.sector_count()));
    let mut available: Vec<usize> = Vec::new();
    let mut i: usize = 0;
    assert(primes@.take(0) =~= Seq::<usize>::empty());
    while i < primes.len()
        invariant
            i <= primes@.len(),
            available@ == primes@.take(i as int).filter(untaken(c@.push(f))),
        decreases primes@.len() - i,
    {
        proof {
            assert(primes@.take(i + 1) =~= primes@.take(i as int).push(primes@[i as int]));
            primes@.take(i as int).lemma_filter_push(primes@[i as int], untaken(c@.push(f)));
        }
        let p = primes[i];
        if !list_contains(c, p) && p != f {
            available.push(p);
        }
        i += 1;
    }
    assert(primes@.take(primes@.len() as int) =~= primes@);
    tuple_combinations(&available)
}

/// A copy of a list of places.
fn copy_places(items: &Vec<usize>) -> (r: Vec<usize>)
    ensures
        r@ == items@,
{
    let mut out: Vec<usize> = Vec::new();
    let mut i: usize = 0;
    while i < items.len()
        invariant
            i <= items@.len(),
            out@ == items@.take(i as int),
        decreases items@.len() - i,
    {
        out.push(items[i]);
        i += 1;
    }
    out
}

/// A copy of a list of pairs of places.
fn copy_pairs(items: &Vec<(usize, usize)>) -> (r: Vec<(usize, usize)>)
    ensures
        r@ == items@,
{
    let mut out: Vec<(usize, usize)> = Vec::new();
    let mut i: usize = 0;
    while i < items.len()
        invariant
            i <= items@.len(),
            out@ == items@.take(i as int),
        decreases items@.len() - i,
    {
        out.push(items[i]);
        i += 1;
    }
    out
}

/// Whether two lists hold the same places in the same order.
fn same_places(a: &Vec<usize>, b: &Vec<usize>) -> (r: bool)
    ensures
        r == (a@ == b@),
{
    if a.len() != b.len() {
        return false;
    }
    let mut i: usize = 0;
    while i < a.len()
        invariant
            a@.len() == b@.len(),
            i <= a@.len(),
            forall|j: int| 0 <= j < i ==> a@[j] == b@[j],
        decreases a@.len() - i,
    {
        if a[i] != b[i] {
            return false;
        }
        i += 1;
    }
    assert(a@ =~= b@);
    true
}

/// Whether every place of `b` has a neighbour in `b`.
fn is_adjacency_closed(n: usize, b: &Vec<usize>) -> (r: bool)
    requires
        forall|i: int| 0 <= i < b@.len() ==> b@[i] < n,
    ensures
        r == adjacency_closed(n, b@),
{
    let mut i: usize = 0;
    while i < b.len()
        invariant
            i <= b@.len(),
            forall|j: int| 0 <= j < b@.len() ==> b@[j] < n,
            forall|j: int|
                0 <= j < i ==> b@.contains(ring_prev(n, #[trigger] b@[j])) || b@.contains(
                    ring_next(n, b@[j]),
                ),
        decreases b@.len() - i,
    {
        let x = b[i];
        if !list_contains(b, prev_place(n, x)) && !list_contains(b, next_place(n, x)) {
            return false;
        }
        i += 1;
    }
    true
}

pub fn generate_b(c: &Vec<usize>, f: usize, a: (usize, usize), map_type: &MapType) -> (r: Vec<
    Vec<usize>,
>)
    ensures
        views(r@) == asteroid_choices(map_type.sector_count(), c@, f, a),
{
    let cnt = map_type.sector_count();
    let mut taken = copy_places(c);
    taken.push(f);
    taken.push(a.0);
    taken.push(a.1);
    let available = free_places(cnt, &taken);
    let combs = combinations(&available, 4);
    let ghost all = combos(available@, 4);
    assert(views(combs@) =~= all);
    let mut out: Vec<Vec<usize>> = Vec::new();
    let mut k: usize = 0;
    assert(all.take(0) =~= Seq::<Seq<usize>>::empty());
    assert(views(out@) =~= Seq::<Seq<usize>>::empty());
    while k < combs.len()
        invariant
            cnt == map_type.sector_count(),
            all == combos(available@, 4),
            views(combs@) == all,
            forall|i: int| 0 <= i < available@.len() ==> available@[i] < cnt,
            k <= combs@.len(),
            views(out@) == all.take(k as int).filter(closed_on(cnt)),
        decreases combs@.len() - k,
    {
        proof {
            assert(all.take(k + 1) =~= all.take(k as int).push(all[k as int]));
            all.take(k as int).lemma_filter_push(all[k as int], closed_on(cnt));
            lemma_combos_shape(available@, 4, k as int);
            assert(combs@[k as int]@ == all[k as int]);
        }
        let comb = &combs[k];
        if is_adjacency_closed(cnt, comb) {
            let kept = copy_places(comb);
            proof {
                lemma_views_push(out@, kept);
            }
            out.push(kept);
        }
        k += 1;
    }
    assert(all.take(combs@.len() as int) =~= all);
    out
}

/// Whether nebula `x` of the pair `d` has a `Space` of `rest` next to it.
fn has_space_beside(n: usize, rest: &Vec<usize>, d: (usize, usize), x: usize) -> (r: bool)
    requires
        x < n,
    ensures
        r == nebula_has_space(n, rest@, d, x),
{
    let before = prev_place(n, x);
    let after = next_place(n, x);
    (list_contains(rest, before) && before != d.0 && before != d.1) || (list_contains(rest, after)
        && after != d.0 && after != d.1)
}

/// The fifth stage for one list of places left.
fn nebula_splits(n: usize, rest: &Vec<usize>) -> (r: Vec<(usize, usize)>)
    requires
        forall|i: int| 0 <= i < rest@.len() ==> rest@[i] < n,
    ensures
        r@ == nebula_choices(n, rest@),
{
    let combs = combinations(rest, 2);
    let ghost all = pairs(rest@);
    let mut out: Vec<(usize, usize)> = Vec::new();
    let mut k: usize = 0;
    assert(all.take(0) =~= Seq::<(usize, usize)>::empty());
    while k < combs.len()
        invariant
            all == pairs(rest@),
            combs@.len() == combos(rest@, 2).len(),
            forall|i: int|
                0 <= i < combs@.len() ==> (#[trigger] combs@[i])@ == combos(rest@, 2)[i],
            forall|i: int| 0 <= i < rest@.len() ==> rest@[i] < n,
            k <= combs@.len(),
            out@ == all.take(k as int).filter(splits_well(n, rest@)),
        decreases combs@.len() - k,
    {
        proof {
            assert(all.take(k + 1) =~= all.take(k as int).push(all[k as int]));
            all.take(k as int).lemma_filter_push(all[k as int], splits_well(n, rest@));
            lemma_combos_shape(rest@, 2, k as int);
        }
        let comb = &combs[k];
        let d = (comb[0], comb[1]);
        assert(d == all[k as int]);
        proof {
            assert(rest@.contains(combos(rest@, 2)[k as int][0]));
            assert(rest@.contains(combos(rest@, 2)[k as int][1]));
        }
        if has_space_beside(n, rest, d, d.0) && has_space_beside(n, rest, d, d.1) {
            out.push(d);
        }
        k += 1;
    }
    assert(all.take(combs@.len() as int) =~= all);
    out
}

/// Lays out the board that the five stages have chosen. Places that the
/// stages left free hold `Space`.
pub fn build_sectors(
    n: usize,
    c: &Vec<usize>,
    f: usize,
    a: (usize, usize),
    b: &Vec<usize>,
    d: (usize, usize),
) -> (r: Sectors)
    ensures
        r.wf(),
        r@ == built_layout(n, c@, f, a, b@, d),
{
    let mut res: Vec<Sector> = Vec::new();
    let mut p: usize = 0;
    while p < n
        invariant
            p <= n,
            res@.len() == p,
            forall|q: int|
                0 <= q < p ==> (#[trigger] res@[q]).index == q + 1 && res@[q].sector_type
                    == built_type(c@, f, a, b@, d, q as usize),
        decreases n - p,
    {
        let sector_type = if p == d.0 || p == d.1 {
            SectorType::Nebula
        } else if list_contains(b, p) {
            SectorType::Asteroid
        } else if p == a.0 || p == a.1 {
            SectorType::Comet
        } else if p == f {
            SectorType::X
        } else if list_contains(c, p) {
            SectorType::DwarfPlanet
        } else {
            SectorType::Space
        };
        res.push(Sector { index: p + 1, sector_type });
        p += 1;
    }
    let r = Sectors { data: res };
    assert(r@ =~= built_layout(n, c@, f, a, b@, d));
    r
}

/// One line of the table of the fifth stage: a list of places left, and
/// the pairs of them that may be the nebulae.
pub struct SplitEntry {
    pub positions: Vec<usize>,
    pub splits: Vec<(usize, usize)>,
}

impl SplitEntry {
    /// The line says of its places what the fifth stage says.
    pub open spec fn wf(&self, n: usize) -> bool {
        self.splits@ == nebula_choices(n, self.positions@)
    }
}

/// Whether a table holds a line for every way to leave `k` of the places
/// `0..n` free, in the order of `combos`, and each line says of its places
/// what the fifth stage says.
pub open spec fn table_lines(n: usize, k: nat, lines: Seq<SplitEntry>) -> bool {
    &&& lines.len() == combos(places(n), k).len()
    &&& forall|i: int|
        0 <= i < lines.len() ==> (#[trigger] lines[i]).wf(n) && lines[i].positions@ == combos(
            places(n),
            k,
        )[i]
}

/// The fifth stage worked out for every way to leave `k` of the places
/// `0..n` free.
fn pre_generate_d_e(n: usize, k: usize) -> (r: Vec<SplitEntry>)
    ensures
        table_lines(n, k as nat, r@),
{
    let mut available: Vec<usize> = Vec::new();
    let mut p: usize = 0;
    while p < n
        invariant
            p <= n,
            available@ == places(n).take(p as int),
        decreases n - p,
    {
        available.push(p);
        assert(available@ =~= places(n).take(p + 1));
        p += 1;
    }
    assert(available@ =~= places(n));
    let combs = combinations(&available, k);
    let mut out: Vec<SplitEntry> = Vec::new();
    let mut i: usize = 0;
    while i < combs.len()
        invariant
            i <= combs@.len(),
            available@ == places(n),
            combs@.len() == combos(available@, k as nat).len(),
            forall|j: int|
                0 <= j < combs@.len() ==> (#[trigger] combs@[j])@ == combos(
                    available@,
                    k as nat,
                )[j],
            out@.len() == i,
            forall|j: int|
                0 <= j < out@.len() ==> (#[trigger] out@[j]).wf(n) && out@[j].positions@ == combos(
                    places(n),
                    k as nat,
                )[j],
        decreases combs@.len() - i,
    {
        proof {
            lemma_combos_shape(available@, k as nat, i as int);
        }
        let positions = copy_places(&combs[i]);
        assert forall|j: int| 0 <= j < positions@.len() implies positions@[j] < n by {
            assert(available@.contains(combos(available@, k as nat)[i as int][j]));
        }
        let splits = nebula_splits(n, &positions);
        out.push(SplitEntry { positions, splits });
        i += 1;
    }
    out
}

/// The table of the fifth stage for the small board, where four places are
/// left.
pub fn pre_generate_d_e_standard() -> (r: Vec<SplitEntry>)
    ensures
        table_lines(12, 4, r@),
{
    pre_generate_d_e(12, 4)
}

/// The table of the fifth stage for the large board, where seven places are
/// left.
pub fn pre_generate_d_e_expert() -> (r: Vec<SplitEntry>)
    ensures
        table_lines(18, 7, r@),
{
    pre_generate_d_e(18, 7)
}

/// The number that stands for a list of places in the table: its places
/// read as the digits of a number to the base 32. `None` where a place is
/// no such digit or the number would grow too long.
pub open spec fn key_of(positions: Seq<usize>) -> Option<u64>
    decreases positions.len(),
{
    if positions.len() == 0 {
        Some(0)
    } else {
        match key_of(positions.drop_last()) {
            Some(key) => if positions.last() < 32 && key <= 0xffff_ffff_ffff {
                Some((key * 32 + positions.last()) as u64)
            } else {
                None
            },
            None => None,
        }
    }
}

/// A list has no key if a list that it begins with has none.
proof fn lemma_no_key(positions: Seq<usize>, i: int)
    requires
        0 <= i <= positions.len(),
        key_of(positions.take(i)) is None,
    ensures
        key_of(positions) is None,
    decreases positions.len() - i,
{
    if i < positions.len() {
        assert(positions.take(i + 1).drop_last() =~= positions.take(i));
        lemma_no_key(positions, i + 1);
    } else {
        assert(positions.take(i) =~= positions);
    }
}

/// A number that stands for a list of places in the table: its places read
/// as the digits of a number. `None` where that number would not fit.
fn place_key(positions: &Vec<usize>) -> (r: Option<u64>)
    ensures
        r == key_of(positions@),
{
    let mut key: u64 = 0;
    let mut i: usize = 0;
    assert(positions@.take(0) =~= Seq::<usize>::empty());
    while i < positions.len()
        invariant
            i <= positions@.len(),
            key_of(positions@.take(i as int)) == Some(key),
        decreases positions@.len() - i,
    {
        let p = positions[i];
        assert(positions@.take(i + 1).drop_last() =~= positions@.take(i as int));
        if p >= 32 || key > 0xffff_ffff_ffff {
            proof {
                lemma_no_key(positions@, i + 1);
            }
            return None;
        }
        key = key * 32 + (p as u64);
        i += 1;
    }
    assert(positions@.take(i as int) =~= positions@);
    Some(key)
}

/// Every line of a table says of its places what the fifth stage says.
pub open spec fn table_ok(n: usize, table: Map<u64, SplitEntry>) -> bool {
    forall|k: u64| table.contains_key(k) ==> (#[trigger] table[k]).wf(n)
}

/// Whether a table holds the lines of a list under their keys: every line
/// of the table is a line of the list, under the key of its places, and
/// every line of the list whose places have a key has a line under that
/// key.
pub open spec fn table_of_lines(table: Map<u64, SplitEntry>, lines: Seq<SplitEntry>) -> bool {
    &&& forall|key: u64| #[trigger]
        table.contains_key(key) ==> exists|i: int|
            0 <= i < lines.len() && #[trigger] lines[i] == table[key] && key_of(
                lines[i].positions@,
            ) == Some(key)
    &&& forall|i: int|
        0 <= i < lines.len() && key_of((#[trigger] lines[i]).positions@) is Some
            ==> table.contains_key(key_of(lines[i].positions@)->Some_0)
}

/// Whether a table holds the fifth stage for the ways to leave `k` of the
/// places `0..n` free: every line of it is for one of those ways, under
/// the key of its places, and every such way whose places have a key has
/// a line under that key.
pub open spec fn table_holds(table: Map<u64, SplitEntry>, n: usize, k: nat) -> bool {
    &&& forall|key: u64| #[trigger]
        table.contains_key(key) ==> key_of(table[key].positions@) == Some(key) && combos(
            places(n),
            k,
        ).contains(table[key].positions@)
    &&& forall|i: int|
        0 <= i < combos(places(n), k).len() && key_of(#[trigger] combos(places(n), k)[i]) is Some
            ==> table.contains_key(key_of(combos(places(n), k)[i])->Some_0)
}

/// Puts the lines of a table under their keys.
fn index_table(n: usize, entries: Vec<SplitEntry>) -> (r: HashMap<u64, SplitEntry>)
    requires
        forall|i: int| 0 <= i < entries@.len() ==> (#[trigger] entries@[i]).wf(n),
    ensures
        table_ok(n, r@),
        table_of_lines(r@, entries@),
{
    broadcast use vstd::std_specs::hash::group_hash_axioms;

    let ghost all = entries@;
    let mut entries = entries;
    let mut table: HashMap<u64, SplitEntry> = HashMap::new();
    while entries.len() > 0
        invariant
            entries@.len() <= all.len(),
            entries@ == all.take(entries@.len() as int),
            forall|i: int| 0 <= i < all.len() ==> (#[trigger] all[i]).wf(n),
            table_ok(n, table@),
            forall|key: u64| #[trigger]
                table@.contains_key(key) ==> exists|i: int|
                    0 <= i < all.len() && #[trigger] all[i] == table@[key] && key_of(
                        all[i].positions@,
                    ) == Some(key),
            forall|i: int|
                entries@.len() <= i < all.len() && key_of((#[trigger] all[i]).positions@) is Some
                    ==> table@.contains_key(key_of(all[i].positions@)->Some_0),
        decreases entries@.len(),
    {
        let ghost at = entries@.len() - 1;
        let entry = entries.pop().unwrap();
        assert(entry == all[at]);
        assert(entries@ =~= all.take(at));
        match place_key(&entry.positions) {
            Some(key) => {
                table.insert(key, entry);
            },
            None => {},
        }
    }
    table
}

/// A table of the lines worked out for a board holds the fifth stage for
/// the ways to leave places of the board free.
proof fn lemma_table_holds(table: Map<u64, SplitEntry>, lines: Seq<SplitEntry>, n: usize, k: nat)
    requires
        table_of_lines(table, lines),
        table_lines(n, k, lines),
    ensures
        table_holds(table, n, k),
{
    let ways = combos(places(n), k);
    assert forall|key: u64| #[trigger] table.contains_key(key) implies key_of(
        table[key].positions@,
    ) == Some(key) && ways.contains(table[key].positions@) by {
        let i = choose|i: int|
            0 <= i < lines.len() && #[trigger] lines[i] == table[key] && key_of(
                lines[i].positions@,
            ) == Some(key);
        assert(lines[i].positions@ == ways[i]);
    }
    assert forall|i: int| 0 <= i < ways.len() && key_of(#[trigger] ways[i]) is Some implies 
        table.contains_key(key_of(ways[i])->Some_0) by {
        assert(lines[i].positions@ == ways[i]);
    }
}

/// Enumerates the layouts of a board. It holds, worked out once, the fifth
/// stage for every list of places that the first four can leave.
pub struct MapEnumerator {
    predef_d_e_standard: HashMap<u64, SplitEntry>,
    predef_d_e_expert: HashMap<u64, SplitEntry>,
}

impl MapEnumerator {
    #[verifier::type_invariant]
    spec fn inv(&self) -> bool {
        table_ok(12, self.predef_d_e_standard@) && table_ok(18, self.predef_d_e_expert@)
    }

    /// The table for the small board.
    pub closed spec fn standard_table(&self) -> Map<u64, SplitEntry> {
        self.predef_d_e_standard@
    }

    /// The table for the large board.
    pub closed spec fn expert_table(&self) -> Map<u64, SplitEntry> {
        self.predef_d_e_expert@
    }

    /// Works out the tables of the fifth stage for both boards: for the
    /// small board a line for every four places left, for the large board
    /// one for every seven.
    pub fn new() -> (r: Self)
        ensures
            table_ok(12, r.standard_table()),
            table_ok(18, r.expert_table()),
            table_holds(r.standard_table(), 12, 4),
            table_holds(r.expert_table(), 18, 7),
    {
        let standard = pre_generate_d_e_standard();
        let expert = pre_generate_d_e_expert();
        let ghost standard_lines = standard@;
        let ghost expert_lines = expert@;
        let predef_d_e_standard = index_table(12, standard);
        let predef_d_e_expert = index_table(18, expert);
        proof {
            lemma_table_holds(predef_d_e_standard@, standard_lines, 12, 4);
            lemma_table_holds(predef_d_e_expert@, expert_lines, 18, 7);
        }
        Self { predef_d_e_standard, predef_d_e_expert }
    }

    /// The fifth stage for a list of places left, from the table; worked
    /// out on the spot for a list that the table does not hold.
    fn splits_for(&self, map_type: &MapType, rest: &Vec<usize>) -> (r: Vec<(usize, usize)>)
        requires
            forall|i: int| 0 <= i < rest@.len() ==> rest@[i] < map_type.sector_count(),
        ensures
            r@ == nebula_choices(map_type.sector_count(), rest@),
    {
        broadcast use vstd::std_specs::hash::group_hash_axioms;

        proof {
            use_type_invariant(self);
        }
        let table = match map_type {
            MapType::Standard => &self.predef_d_e_standard,
            MapType::Expert => &self.predef_d_e_expert,
        };
        match place_key(rest) {
            Some(key) => match table.get(&key) {
                Some(entry) => {
                    if same_places(&entry.positions, rest) {
                        return copy_pairs(&entry.splits);
                    }
                },
                None => {},
            },
            None => {},
        }
        nebula_splits(map_type.sector_count(), rest)
    }
}

/// The layouts for one choice of the first four stages: one for each pair
/// of nebulae.
pub open spec fn layouts_of_splits(
    n: usize,
    c: Seq<usize>,
    f: usize,
    a: (usize, usize),
    b: Seq<usize>,
    ds: Seq<(usize, usize)>,
) -> Seq<Seq<SectorType>> {
    Seq::new(ds.len(), |i: int| built_layout(n, c, f, a, b, ds[i]))
}

/// The layouts for one choice of the first three stages and a list of
/// choices of the fourth.
pub open spec fn layouts_of_asteroids(
    n: usize,
    c: Seq<usize>,
    f: usize,
    a: (usize, usize),
    bs: Seq<Seq<usize>>,
) -> Seq<Seq<SectorType>>
    decreases bs.len(),
{
    if bs.len() == 0 {
        Seq::empty()
    } else {
        layouts_of_splits(n, c, f, a, bs[0], nebula_choices(n, leftover(n, c, f, a, bs[0])))
            + layouts_of_asteroids(n, c, f, a, bs.drop_first())
    }
}

/// The layouts for one choice of the first two stages and a list of choices
/// of the third.
pub open spec fn layouts_of_comets(n: usize, c: Seq<usize>, f: usize, pairs: Seq<(usize, usize)>)
    -> Seq<Seq<SectorType>>
    decreases pairs.len(),
{
    if pairs.len() == 0 {
        Seq::empty()
    } else {
        layouts_of_asteroids(n, c, f, pairs[0], asteroid_choices(n, c, f, pairs[0]))
            + layouts_of_comets(n, c, f, pairs.drop_first())
    }
}

/// The layouts for one choice of the first stage and a list of choices of
/// the second.
pub open spec fn layouts_of_xs(n: usize, c: Seq<usize>, fs: Seq<usize>) -> Seq<Seq<SectorType>>
    decreases fs.len(),
{
    if fs.len() == 0 {
        Seq::empty()
    } else {
        layouts_of_comets(n, c, fs[0], comet_choices(n, c, fs[0])) + layouts_of_xs(
            n,
            c,
            fs.drop_first(),
        )
    }
}

/// The layouts for a list of choices of the first stage.
pub open spec fn layouts_of_dwarfs(n: usize, cs: Seq<Seq<usize>>) -> Seq<Seq<SectorType>>
    decreases cs.len(),
{
    if cs.len() == 0 {
        Seq::empty()
    } else {
        layouts_of_xs(n, cs[0], x_choices(n, cs[0])) + layouts_of_dwarfs(n, cs.drop_first())
    }
}

/// Every layout of a board, in the order in which the stages choose: the
/// dwarf planets, then X, the comets, the asteroids, the nebulae.
pub open spec fn enumeration(map_type: MapType) -> Seq<Seq<SectorType>> {
    layouts_of_dwarfs(map_type.sector_count(), dwarf_choices(map_type))
}

/// The layouts of a board, handed out one at a time. Nothing is worked out
/// before it is asked for, so a reader may stop early or only count.
pub struct SectorsIter<'a> {
    source: &'a MapEnumerator,
    map_type: MapType,
    c_list: Vec<Vec<usize>>,
    ci: usize,
    cur_c: Vec<usize>,
    f_list: Vec<usize>,
    fi: usize,
    cur_f: usize,
    a_list: Vec<(usize, usize)>,
    ai: usize,
    cur_a: (usize, usize),
    b_list: Vec<Vec<usize>>,
    bi: usize,
    cur_b: Vec<usize>,
    d_list: Vec<(usize, usize)>,
    di: usize,
    handed: Ghost<nat>,
}

impl<'a> SectorsIter<'a> {
    /// How many layouts have been handed out.
    pub closed spec fn handed_out(&self) -> nat {
        self.handed@
    }

    /// What is still to come is what the enumeration holds after the
    /// layouts that were handed out.
    pub open spec fn wf(&self) -> bool {
        &&& self.handed_out() <= enumeration(self.board()).len()
        &&& self.remaining() == enumeration(self.board()).skip(self.handed_out() as int)
    }

    #[verifier::type_invariant]
    spec fn inv(&self) -> bool {
        &&& self.ci <= self.c_list@.len()
        &&& self.fi <= self.f_list@.len()
        &&& self.ai <= self.a_list@.len()
        &&& self.bi <= self.b_list@.len()
        &&& self.di <= self.d_list@.len()
    }

    /// The board whose layouts are handed out.
    pub closed spec fn board(&self) -> MapType {
        self.map_type
    }

    /// The layouts that are still to come, in their order.
    pub closed spec fn remaining(&self) -> Seq<Seq<SectorType>> {
        let n = self.map_type.sector_count();
        layouts_of_splits(
            n,
            self.cur_c@,
            self.cur_f,
            self.cur_a,
            self.cur_b@,
            self.d_list@.skip(self.di as int),
        ) + layouts_of_asteroids(
            n,
            self.cur_c@,
            self.cur_f,
            self.cur_a,
            views(self.b_list@).skip(self.bi as int),
        ) + layouts_of_comets(n, self.cur_c@, self.cur_f, self.a_list@.skip(self.ai as int))
            + layouts_of_xs(n, self.cur_c@, self.f_list@.skip(self.fi as int)) + layouts_of_dwarfs(
            n,
            views(self.c_list@).skip(self.ci as int),
        )
    }

    /// Where the cursor stands in the lists of the stages, outermost first.
    closed spec fn pending(&self) -> (int, int, int, int, int) {
        (
            self.c_list@.len() - self.ci,
            self.f_list@.len() - self.fi,
            self.a_list@.len() - self.ai,
            self.b_list@.len() - self.bi,
            self.d_list@.len() - self.di,
        )
    }

    /// Whether `before` comes before `self.pending()` in the order that the
    /// cursor moves by.
    closed spec fn moved_on_from(&self, before: (int, int, int, int, int)) -> bool {
        let now = self.pending();
        &&& 0 <= now.0 && 0 <= now.1 && 0 <= now.2 && 0 <= now.3 && 0 <= now.4
        &&& {
            ||| now.0 < before.0
            ||| now.0 == before.0 && now.1 < before.1
            ||| now.0 == before.0 && now.1 == before.1 && now.2 < before.2
            ||| now.0 == before.0 && now.1 == before.1 && now.2 == before.2 && now.3 < before.3
        }
    }

    /// Takes the next choice of asteroids and looks up its pairs of nebulae.
    fn open_asteroids(&mut self)
        requires
            old(self).di == old(self).d_list@.len(),
            old(self).bi < old(self).b_list.len(),
        ensures
            final(self).map_type == old(self).map_type,
            final(self).handed == old(self).handed,
            final(self).remaining() == old(self).remaining(),
            final(self).moved_on_from(old(self).pending()),
    {
        proof {
            use_type_invariant(&*self);
        }
        let n = self.map_type.sector_count();
        let ghost before = self.remaining();
        let ghost ds = self.d_list@.skip(self.di as int);
        let ghost bs = views(self.b_list@).skip(self.bi as int);
        assert(ds =~= Seq::<(usize, usize)>::empty());
        let b = copy_places(&self.b_list[self.bi]);
        let mut taken = copy_places(&self.cur_c);
        taken.push(self.cur_f);
        taken.push(self.cur_a.0);
        taken.push(self.cur_a.1);
        let mut k: usize = 0;
        while k < b.len()
            invariant
                k <= b@.len(),
                taken@ == taken_before_asteroids(self.cur_c@, self.cur_f, self.cur_a) + b@.take(
                    k as int,
                ),
            decreases b@.len() - k,
        {
            taken.push(b[k]);
            assert(b@.take(k + 1) =~= b@.take(k as int).push(b@[k as int]));
            k += 1;
        }
        assert(b@.take(b@.len() as int) =~= b@);
        let rest = free_places(n, &taken);
        let splits = self.source.splits_for(&self.map_type, &rest);
        proof {
            assert(bs[0] == b@);
            assert(bs.drop_first() =~= views(self.b_list@).skip(self.bi + 1));
            assert(splits@.skip(0) =~= splits@);
        }
        self.di = 0;
        self.d_list = splits;
        self.cur_b = b;
        self.bi += 1;
        assert(self.remaining() =~= before);
    }

    /// Takes the next pair of comets and works out its choices of asteroids.
    fn open_comets(&mut self)
        requires
            old(self).di == old(self).d_list@.len(),
            old(self).bi == old(self).b_list@.len(),
            old(self).ai < old(self).a_list.len(),
        ensures
            final(self).map_type == old(self).map_type,
            final(self).handed == old(self).handed,
            final(self).remaining() == old(self).remaining(),
            final(self).moved_on_from(old(self).pending()),
    {
        proof {
            use_type_invariant(&*self);
        }
        let n = self.map_type.sector_count();
        let ghost before = self.remaining();
        let ghost prs = self.a_list@.skip(self.ai as int);
        assert(self.d_list@.skip(self.di as int) =~= Seq::<(usize, usize)>::empty());
        assert(views(self.b_list@).skip(self.bi as int) =~= Seq::<Seq<usize>>::empty());
        let a = self.a_list[self.ai];
        let b_list = generate_b(&self.cur_c, self.cur_f, a, &self.map_type);
        proof {
            assert(prs[0] == a);
            assert(prs.drop_first() =~= self.a_list@.skip(self.ai + 1));
            assert(views(b_list@).skip(0) =~= views(b_list@));
        }
        self.di = 0;
        self.d_list = Vec::new();
        self.bi = 0;
        self.b_list = b_list;
        self.cur_a = a;
        self.ai += 1;
        assert(self.d_list@.skip(0) =~= Seq::<(usize, usize)>::empty());
        assert(self.remaining() =~= before);
    }

    /// Takes the next place of X and works out its pairs of comets.
    fn open_x(&mut self)
        requires
            old(self).di == old(self).d_list@.len(),
            old(self).bi == old(self).b_list@.len(),
            old(self).ai == old(self).a_list@.len(),
            old(self).fi < old(self).f_list.len(),
        ensures
            final(self).map_type == old(self).map_type,
            final(self).handed == old(self).handed,
            final(self).remaining() == old(self).remaining(),
            final(self).moved_on_from(old(self).pending()),
    {
        proof {
            use_type_invariant(&*self);
        }
        let n = self.map_type.sector_count();
        let ghost before = self.remaining();
        let ghost fs = self.f_list@.skip(self.fi as int);
        assert(self.d_list@.skip(self.di as int) =~= Seq::<(usize, usize)>::empty());
        assert(views(self.b_list@).skip(self.bi as int) =~= Seq::<Seq<usize>>::empty());
        assert(self.a_list@.skip(self.ai as int) =~= Seq::<(usize, usize)>::empty());
        let f = self.f_list[self.fi];
        let a_list = generate_a(&self.cur_c, f, &self.map_type);
        proof {
            assert(fs[0] == f);
            assert(fs.drop_first() =~= self.f_list@.skip(self.fi + 1));
            assert(a_list@.skip(0) =~= a_list@);
        }
        self.di = 0;
        self.d_list = Vec::new();
        self.bi = 0;
        self.b_list = Vec::new();
        self.ai = 0;
        self.a_list = a_list;
        self.cur_f = f;
        self.fi += 1;
        assert(self.d_list@.skip(0) =~= Seq::<(usize, usize)>::empty());
        assert(views(self.b_list@).skip(0) =~= Seq::<Seq<usize>>::empty());
        assert(self.remaining() =~= before);
    }

    /// Takes the next choice of dwarf planets and works out its places for X.
    fn open_dwarfs(&mut self)
        requires
            old(self).di == old(self).d_list@.len(),
            old(self).bi == old(self).b_list@.len(),
            old(self).ai == old(self).a_list@.len(),
            old(self).fi == old(self).f_list@.len(),
            old(self).ci < old(self).c_list.len(),
        ensures
            final(self).map_type == old(self).map_type,
            final(self).handed == old(self).handed,
            final(self).remaining() == old(self).remaining(),
            final(self).moved_on_from(old(self).pending()),
    {
        proof {
            use_type_invariant(&*self);
        }
        let n = self.map_type.sector_count();
        let ghost before = self.remaining();
        let ghost cs = views(self.c_list@).skip(self.ci as int);
        assert(self.d_list@.skip(self.di as int) =~= Seq::<(usize, usize)>::empty());
        assert(views(self.b_list@).skip(self.bi as int) =~= Seq::<Seq<usize>>::empty());
        assert(self.a_list@.skip(self.ai as int) =~= Seq::<(usize, usize)>::empty());
        assert(self.f_list@.skip(self.fi as int) =~= Seq::<usize>::empty());
        let c = copy_places(&self.c_list[self.ci]);
        let f_list = generate_f(&c, &self.map_type);
        proof {
            assert(cs[0] == c@);
            assert(cs.drop_first() =~= views(self.c_list@).skip(self.ci + 1));
            assert(f_list@.skip(0) =~= f_list@);
        }
        self.di = 0;
        self.d_list = Vec::new();
        self.bi = 0;
        self.b_list = Vec::new();
        self.ai = 0;
        self.a_list = Vec::new();
        self.fi = 0;
        self.f_list = f_list;
        self.cur_c = c;
        self.ci += 1;
        assert(self.d_list@.skip(0) =~= Seq::<(usize, usize)>::empty());
        assert(views(self.b_list@).skip(0) =~= Seq::<Seq<usize>>::empty());
        assert(self.a_list@.skip(0) =~= Seq::<(usize, usize)>::empty());
        assert(self.remaining() =~= before);
    }

    /// Builds the layout for the next pair of nebulae.
    fn take_layout(&mut self) -> (r: Sectors)
        requires
            old(self).di < old(self).d_list.len(),
        ensures
            final(self).map_type == old(self).map_type,
            final(self).handed@ == old(self).handed@ + 1,
            r.wf(),
            old(self).remaining().len() > 0,
            r@ == old(self).remaining()[0],
            final(self).remaining() == old(self).remaining().drop_first(),
    {
        proof {
            use_type_invariant(&*self);
        }
        let n = self.map_type.sector_count();
        let ghost before = self.remaining();
        let ghost ds = self.d_list@.skip(self.di as int);
        let d = self.d_list[self.di];
        self.di += 1;
        proof {
            self.handed = Ghost((self.handed@ + 1) as nat);
        }
        let sectors = build_sectors(n, &self.cur_c, self.cur_f, self.cur_a, &self.cur_b, d);
        proof {
            let ds2 = self.d_list@.skip(self.di as int);
            assert(ds2 =~= ds.drop_first());
            assert(layouts_of_splits(n, self.cur_c@, self.cur_f, self.cur_a, self.cur_b@, ds)
                =~= seq![sectors@] + layouts_of_splits(
                n,
                self.cur_c@,
                self.cur_f,
                self.cur_a,
                self.cur_b@,
                ds2,
            ));
            assert(self.remaining() =~= before.drop_first());
            assert(before[0] == sectors@);
        }
        sectors
    }

    /// Nothing is left when every list of the cursor is used up.
    proof fn lemma_nothing_left(&self)
        requires
            self.di == self.d_list@.len(),
            self.bi == self.b_list@.len(),
            self.ai == self.a_list@.len(),
            self.fi == self.f_list@.len(),
            self.ci == self.c_list@.len(),
        ensures
            self.remaining().len() == 0,
    {
        assert(self.d_list@.skip(self.di as int) =~= Seq::<(usize, usize)>::empty());
        assert(views(self.b_list@).skip(self.bi as int) =~= Seq::<Seq<usize>>::empty());
        assert(self.a_list@.skip(self.ai as int) =~= Seq::<(usize, usize)>::empty());
        assert(self.f_list@.skip(self.fi as int) =~= Seq::<usize>::empty());
        assert(views(self.c_list@).skip(self.ci as int) =~= Seq::<Seq<usize>>::empty());
    }

    /// Hands out the next layout, or `None` when all have been handed out.
    pub fn next(&mut self) -> (r: Option<Sectors>)
        requires
            old(self).wf(),
        ensures
            final(self).wf(),
            final(self).board() == old(self).board(),
            match r {
                Some(sectors) => {
                    &&& sectors.wf()
                    &&& valid_layout(old(self).board(), sectors@)
                    &&& old(self).remaining().len() > 0
                    &&& sectors@ == old(self).remaining()[0]
                    &&& final(self).remaining() == old(self).remaining().drop_first()
                    &&& final(self).handed_out() == old(self).handed_out() + 1
                },
                None => old(self).remaining().len() == 0 && final(self).remaining().len() == 0
                    && final(self).handed_out() == old(self).handed_out(),
            },
    {
        proof {
            use_type_invariant(&*self);
        }
        loop
            invariant
                self.map_type == old(self).map_type,
                self.handed == old(self).handed,
                old(self).wf(),
                self.remaining() == old(self).remaining(),
                self.ci <= self.c_list@.len(),
                self.fi <= self.f_list@.len(),
                self.ai <= self.a_list@.len(),
                self.bi <= self.b_list@.len(),
                self.di <= self.d_list@.len(),
            decreases
                    self.c_list@.len() - self.ci,
                    self.f_list@.len() - self.fi,
                    self.a_list@.len() - self.ai,
                    self.b_list@.len() - self.bi,
                    self.d_list@.len() - self.di,
        {
            if self.di < self.d_list.len() {
                let sectors = self.take_layout();
                proof {
                    let all = enumeration(self.map_type);
                    let k = old(self).handed@ as int;
                    assert(all.skip(k)[0] == all[k]);
                    assert(all.skip(k).drop_first() =~= all.skip(k + 1));
                    lemma_enumeration_is_valid(self.map_type, k);
                }
                return Some(sectors);
            } else if self.bi < self.b_list.len() {
                self.open_asteroids();
            } else if self.ai < self.a_list.len() {
                self.open_comets();
            } else if self.fi < self.f_list.len() {
                self.open_x();
            } else if self.ci < self.c_list.len() {
                self.open_dwarfs();
            } else {
                proof {
                    self.lemma_nothing_left();
                }
                return None;
            }
        }
    }

    /// Hands out all the layouts that are left and says how many they were;
    /// the largest number there is, where they were more.
    #[verifier::rlimit(30)]
    pub fn count(self) -> (r: usize)
        requires
            self.wf(),
        ensures
            r == self.remaining().len() || (r == usize::MAX && self.remaining().len()
                > usize::MAX),
    {
        let ghost all = self.remaining();
        let mut it = self;
        let mut total: usize = 0;
        let ghost seen: nat = 0;
        loop
            invariant
                it.wf(),
                all == self.remaining(),
                seen + it.remaining().len() == all.len(),
                total == seen || (total == usize::MAX && seen > usize::MAX),
            decreases it.remaining().len(),
        {
            match it.next() {
                Some(_) => {
                    if total < usize::MAX {
                        total += 1;
                    }
                    proof {
                        seen = seen + 1;
                    }
                },
                None => {
                    return total;
                },
            }
        }
    }

    /// Passes over `k` layouts and hands out the one after them, or `None`
    /// where fewer than `k + 1` are left.
    #[verifier::rlimit(30)]
    pub fn nth(&mut self, k: usize) -> (r: Option<Sectors>)
        requires
            old(self).wf(),
        ensures
            final(self).wf(),
            final(self).board() == old(self).board(),
            match r {
                Some(sectors) => {
                    &&& sectors.wf()
                    &&& valid_layout(old(self).board(), sectors@)
                    &&& k < old(self).remaining().len()
                    &&& sectors@ == old(self).remaining()[k as int]
                    &&& final(self).remaining() == old(self).remaining().skip(k + 1)
                },
                None => old(self).remaining().len() <= k && final(self).remaining().len() == 0,
            },
    {
        let mut passed: usize = 0;
        while passed < k
            invariant
                passed <= k,
                self.wf(),
                self.board() == old(self).board(),
                passed <= old(self).remaining().len(),
                self.remaining() == old(self).remaining().skip(passed as int),
            decreases k - passed,
        {
            match self.next() {
                Some(_) => {
                    assert(old(self).remaining().skip(passed as int).drop_first() =~= old(
                        self,
                    ).remaining().skip(passed + 1));
                },
                None => {
                    return None;
                },
            }
            passed += 1;
        }
        let r = self.next();
        proof {
            if r is Some {
                assert(old(self).remaining().skip(passed as int).drop_first() =~= old(
                    self,
                ).remaining().skip(passed + 1));
            }
        }
        r
    }
}

impl MapEnumerator {
    /// The layouts of a board, from the first.
    pub fn gen_sec(&self, map_type: &MapType) -> (r: SectorsIter<'_>)
        ensures
            r.wf(),
            r.board() == *map_type,
            r.handed_out() == 0,
            r.remaining() == enumeration(*map_type),
    {
        let c_list = generate_c(map_type);
        let r = SectorsIter {
            source: self,
            map_type: *map_type,
            c_list,
            ci: 0,
            cur_c: Vec::new(),
            f_list: Vec::new(),
            fi: 0,
            cur_f: 0,
            a_list: Vec::new(),
            ai: 0,
            cur_a: (0, 0),
            b_list: Vec::new(),
            bi: 0,
            cur_b: Vec::new(),
            d_list: Vec::new(),
            di: 0,
            handed: Ghost(0),
        };
        proof {
            assert(r.d_list@.skip(0) =~= Seq::<(usize, usize)>::empty());
            assert(views(r.b_list@).skip(0) =~= Seq::<Seq<usize>>::empty());
            assert(r.a_list@.skip(0) =~= Seq::<(usize, usize)>::empty());
            assert(r.f_list@.skip(0) =~= Seq::<usize>::empty());
            assert(views(r.c_list@).skip(0) =~= views(r.c_list@));
            assert(r.remaining() =~= enumeration(*map_type));
            assert(enumeration(*map_type).skip(0) =~= enumeration(*map_type));
        }
        r
    }
}

} // verus!
