use vstd::prelude::*;

use super::enumerator::{
    asteroid_choices, built_layout, comet_choices, dwarf_choices, enumeration,
    layouts_of_asteroids, layouts_of_comets, layouts_of_dwarfs, layouts_of_splits, layouts_of_xs,
    leftover, nebula_choices, x_choices,
};
use super::model::{MapType, SectorType};

verus! {

/// What the five stages chose for one layout.
pub ghost struct Choice {
    pub c: Seq<usize>,
    pub f: usize,
    pub a: (usize, usize),
    pub b: Seq<usize>,
    pub d: (usize, usize),
}

impl Choice {
    /// Each stage chose one of its choices, given the stages before it.
    pub open spec fn chosen(self, map_type: MapType) -> bool {
        let n = map_type.sector_count();
        &&& dwarf_choices(map_type).contains(self.c)
        &&& x_choices(n, self.c).contains(self.f)
        &&& comet_choices(n, self.c, self.f).contains(self.a)
        &&& asteroid_choices(n, self.c, self.f, self.a).contains(self.b)
        &&& nebula_choices(n, leftover(n, self.c, self.f, self.a, self.b)).contains(self.d)
    }

    /// The layout that the choice makes.
    pub open spec fn layout(self, map_type: MapType) -> Seq<SectorType> {
        built_layout(map_type.sector_count(), self.c, self.f, self.a, self.b, self.d)
    }
}

/// Where a layout of `layouts_of_asteroids` comes from: which of the
/// asteroid choices, and which pair of nebulae.
pub proof fn lemma_origin_asteroids(
    n: usize,
    c: Seq<usize>,
    f: usize,
    a: (usize, usize),
    bs: Seq<Seq<usize>>,
    i: int,
) -> (w: (int, int))
    requires
        0 <= i < layouts_of_asteroids(n, c, f, a, bs).len(),
    ensures
        0 <= w.0 < bs.len(),
        0 <= w.1 < nebula_choices(n, leftover(n, c, f, a, bs[w.0])).len(),
        layouts_of_asteroids(n, c, f, a, bs)[i] == built_layout(
            n,
            c,
            f,
            a,
            bs[w.0],
            nebula_choices(n, leftover(n, c, f, a, bs[w.0]))[w.1],
        ),
    decreases bs.len(),
{
    let first = layouts_of_splits(n, c, f, a, bs[0], nebula_choices(n, leftover(n, c, f, a, bs[0])));
    if i < first.len() {
        (0, i)
    } else {
        let w = lemma_origin_asteroids(n, c, f, a, bs.drop_first(), i - first.len());
        (w.0 + 1, w.1)
    }
}

/// Where a layout of `layouts_of_comets` comes from.
pub proof fn lemma_origin_comets(n: usize, c: Seq<usize>, f: usize, prs: Seq<(usize, usize)>, i: int)
    -> (w: (int, int, int))
    requires
        0 <= i < layouts_of_comets(n, c, f, prs).len(),
    ensures
        0 <= w.0 < prs.len(),
        0 <= w.1 < asteroid_choices(n, c, f, prs[w.0]).len(),
        ({
            let a = prs[w.0];
            let b = asteroid_choices(n, c, f, a)[w.1];
            &&& 0 <= w.2 < nebula_choices(n, leftover(n, c, f, a, b)).len()
            &&& layouts_of_comets(n, c, f, prs)[i] == built_layout(
                n,
                c,
                f,
                a,
                b,
                nebula_choices(n, leftover(n, c, f, a, b))[w.2],
            )
        }),
    decreases prs.len(),
{
    let first = layouts_of_asteroids(n, c, f, prs[0], asteroid_choices(n, c, f, prs[0]));
    if i < first.len() {
        let w = lemma_origin_asteroids(n, c, f, prs[0], asteroid_choices(n, c, f, prs[0]), i);
        (0, w.0, w.1)
    } else {
        let w = lemma_origin_comets(n, c, f, prs.drop_first(), i - first.len());
        (w.0 + 1, w.1, w.2)
    }
}

/// Where a layout of `layouts_of_xs` comes from.
pub proof fn lemma_origin_xs(n: usize, c: Seq<usize>, fs: Seq<usize>, i: int) -> (w: (
    int,
    int,
    int,
    int,
))
    requires
        0 <= i < layouts_of_xs(n, c, fs).len(),
    ensures
        0 <= w.0 < fs.len(),
        0 <= w.1 < comet_choices(n, c, fs[w.0]).len(),
        ({
            let f = fs[w.0];
            let a = comet_choices(n, c, f)[w.1];
            &&& 0 <= w.2 < asteroid_choices(n, c, f, a).len()
            &&& ({
                let b = asteroid_choices(n, c, f, a)[w.2];
                &&& 0 <= w.3 < nebula_choices(n, leftover(n, c, f, a, b)).len()
                &&& layouts_of_xs(n, c, fs)[i] == built_layout(
                    n,
                    c,
                    f,
                    a,
                    b,
                    nebula_choices(n, leftover(n, c, f, a, b))[w.3],
                )
            })
        }),
    decreases fs.len(),
{
    let first = layouts_of_comets(n, c, fs[0], comet_choices(n, c, fs[0]));
    if i < first.len() {
        let w = lemma_origin_comets(n, c, fs[0], comet_choices(n, c, fs[0]), i);
        (0, w.0, w.1, w.2)
    } else {
        let w = lemma_origin_xs(n, c, fs.drop_first(), i - first.len());
        (w.0 + 1, w.1, w.2, w.3)
    }
}

/// Where a layout of `layouts_of_dwarfs` comes from.
pub proof fn lemma_origin_dwarfs(n: usize, cs: Seq<Seq<usize>>, i: int) -> (w: Choice)
    requires
        0 <= i < layouts_of_dwarfs(n, cs).len(),
    ensures
        cs.contains(w.c),
        x_choices(n, w.c).contains(w.f),
        comet_choices(n, w.c, w.f).contains(w.a),
        asteroid_choices(n, w.c, w.f, w.a).contains(w.b),
        nebula_choices(n, leftover(n, w.c, w.f, w.a, w.b)).contains(w.d),
        layouts_of_dwarfs(n, cs)[i] == built_layout(n, w.c, w.f, w.a, w.b, w.d),
    decreases cs.len(),
{
    let first = layouts_of_xs(n, cs[0], x_choices(n, cs[0]));
    if i < first.len() {
        let w = lemma_origin_xs(n, cs[0], x_choices(n, cs[0]), i);
        let c = cs[0];
        let f = x_choices(n, c)[w.0];
        let a = comet_choices(n, c, f)[w.1];
        let b = asteroid_choices(n, c, f, a)[w.2];
        let d = nebula_choices(n, leftover(n, c, f, a, b))[w.3];
        Choice { c, f, a, b, d }
    } else {
        let w = lemma_origin_dwarfs(n, cs.drop_first(), i - first.len());
        let j = choose|j: int| 0 <= j < cs.drop_first().len() && cs.drop_first()[j] == w.c;
        assert(cs[j + 1] == w.c);
        w
    }
}

/// Every layout of the enumeration is the layout of a choice that the five
/// stages can make.
pub proof fn lemma_enumeration_origin(map_type: MapType, i: int) -> (w: Choice)
    requires
        0 <= i < enumeration(map_type).len(),
    ensures
        w.chosen(map_type),
        enumeration(map_type)[i] == w.layout(map_type),
{
    lemma_origin_dwarfs(map_type.sector_count(), dwarf_choices(map_type), i)
}

/// Every layout of the enumeration has a type for each sector of the board.
pub proof fn lemma_enumeration_len(map_type: MapType, i: int)
    requires
        0 <= i < enumeration(map_type).len(),
    ensures
        enumeration(map_type)[i].len() == map_type.sector_count(),
{
    let w = lemma_enumeration_origin(map_type, i);
}

} // verus!
