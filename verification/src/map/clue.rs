use rand::rngs::SmallRng;
use vstd::prelude::*;

use super::model::{
    next_index, opposite_index, pair_distance, prev_index, range_exists, spec_type_name, type_at,
    MapType, Sector, SectorType, Sectors,
};
use crate::random::{random_i32_below, random_i32_inclusive, random_usize_inclusive, seeded_rng};

verus! {

/// The letter under which a clue is handed out: six research clues and up to
/// two clues about X.
#[derive(Debug, PartialEq, Eq, Clone, Copy, Structural)]
pub enum ClueEnum {
    A,
    B,
    C,
    D,
    E,
    F,
    X1,
    X2,
}

/// How the subject of a clue stands to its object.
#[derive(Debug, PartialEq, Eq, Clone, Copy, Structural)]
pub enum ClueConnection {
    /// Every subject has an object next to it.
    AllAdjacent,
    /// At least one subject has an object next to it.
    OneAdjacent,
    /// No subject has an object next to it.
    NotAdjacent,
    /// At least one subject has an object opposite.
    OneOpposite,
    /// No subject has an object opposite.
    NotOpposite,
    /// Every subject has an object within so many steps; with subject and
    /// object the same type, all of them lie in a window of that length.
    AllInRange(usize),
    /// No subject has an object within so many steps.
    NotInRange(usize),
}

/// A statement about the layout: a relation between two sector types.
#[derive(Debug, PartialEq, Eq, Clone, Copy, Structural)]
pub struct Clue {
    pub index: ClueEnum,
    pub subject: SectorType,
    pub object: SectorType,
    pub conn: ClueConnection,
}

/// What players are told of a clue before they research it.
#[derive(Debug, PartialEq, Eq, Clone)]
pub struct ClueSecret {
    pub index: ClueEnum,
    pub secret: String,
}

/// A clue written out.
#[derive(Debug, PartialEq, Eq, Clone)]
pub struct ClueDetail {
    pub index: ClueEnum,
    pub detail: String,
}

/// Whether one of the two neighbours of position `pos` holds `object`.
pub open spec fn adjacent_to(s: Seq<SectorType>, pos: int, object: SectorType) -> bool {
    type_at(s, prev_index(s.len() as int, pos)) == object || type_at(
        s,
        next_index(s.len() as int, pos),
    ) == object
}

/// Whether the position opposite `pos` holds `object`.
pub open spec fn opposite_to(s: Seq<SectorType>, pos: int, object: SectorType) -> bool {
    type_at(s, opposite_index(s.len() as int, pos)) == object
}

/// Whether position `pos` of the layout holds `subject`.
pub open spec fn holds_at(s: Seq<SectorType>, pos: int, subject: SectorType) -> bool {
    1 <= pos <= s.len() && type_at(s, pos) == subject
}

/// Whether the relation `conn` between `subject` and `object` is true of
/// layout `s`.
pub open spec fn clue_holds(
    s: Seq<SectorType>,
    subject: SectorType,
    object: SectorType,
    conn: ClueConnection,
) -> bool {
    match conn {
        ClueConnection::AllAdjacent => forall|p: int| #[trigger]
            holds_at(s, p, subject) ==> adjacent_to(s, p, object),
        ClueConnection::OneAdjacent => exists|p: int| #[trigger]
            holds_at(s, p, subject) && adjacent_to(s, p, object),
        ClueConnection::NotAdjacent => forall|p: int| #[trigger]
            holds_at(s, p, subject) ==> !adjacent_to(s, p, object),
        ClueConnection::OneOpposite => exists|p: int| #[trigger]
            holds_at(s, p, subject) && opposite_to(s, p, object),
        ClueConnection::NotOpposite => forall|p: int| #[trigger]
            holds_at(s, p, subject) ==> !opposite_to(s, p, object),
        ClueConnection::AllInRange(k) => if subject == object {
            forall|a: int, b: int|
                holds_at(s, a, subject) && holds_at(s, b, subject) ==> #[trigger] pair_distance(
                    s.len() as int,
                    a,
                    b,
                ) <= k
        } else {
            forall|p: int| #[trigger]
                holds_at(s, p, subject) ==> range_exists(s, p, object, k as nat)
        },
        ClueConnection::NotInRange(k) => forall|p: int| #[trigger]
            holds_at(s, p, subject) ==> !range_exists(s, p, object, k as nat),
    }
}

/// Whether every clue of the list is true of layout `s`.
pub open spec fn all_clues_hold(s: Seq<SectorType>, clues: Seq<Clue>) -> bool {
    forall|i: int|
        0 <= i < clues.len() ==> clue_holds(
            s,
            (#[trigger] clues[i]).subject,
            clues[i].object,
            clues[i].conn,
        )
}

/// The view of a layout at a position and round it, read off the sectors.
pub proof fn lemma_view_neighbours(sectors: &Sectors, p: int)
    requires
        1 <= p <= sectors@.len(),
    ensures
        type_at(sectors@, p) == sectors.data@[p - 1].sector_type,
        type_at(sectors@, prev_index(sectors@.len() as int, p)) == sectors.data@[prev_index(
            sectors@.len() as int,
            p,
        ) - 1].sector_type,
        type_at(sectors@, next_index(sectors@.len() as int, p)) == sectors.data@[next_index(
            sectors@.len() as int,
            p,
        ) - 1].sector_type,
        type_at(sectors@, opposite_index(sectors@.len() as int, p)) == sectors.data@[opposite_index(
            sectors@.len() as int,
            p,
        ) - 1].sector_type,
{
}

/// Evaluates a clue against a layout.
pub fn check_clue_with_sectors(clue: &Clue, sectors: &Sectors) -> (r: bool)
    requires
        sectors.wf(),
    ensures
        r == clue_holds(sectors@, clue.subject, clue.object, clue.conn),
{
    let n = sectors.data.len();
    let ghost s = sectors@;
    match clue.conn {
        ClueConnection::AllAdjacent => {
            let mut i: usize = 0;
            while i < n
                invariant
                    sectors.wf(),
                    s == sectors@,
                    clue.conn == ClueConnection::AllAdjacent,
                    n == s.len(),
                    i <= n,
                    forall|p: int|
                        1 <= p <= i && #[trigger] holds_at(s, p, clue.subject) ==> adjacent_to(
                            s,
                            p,
                            clue.object,
                        ),
                decreases n - i,
            {
                proof {
                    lemma_view_neighbours(sectors, i + 1);
                }
                if sectors.data[i].sector_type == clue.subject {
                    assert(holds_at(s, i + 1, clue.subject));
                    if sectors.prev(i + 1).sector_type != clue.object && sectors.next(
                        i + 1,
                    ).sector_type != clue.object {
                        return false;
                    }
                }
                i += 1;
            }
            true
        },
        ClueConnection::OneAdjacent => {
            let mut i: usize = 0;
            while i < n
                invariant
                    sectors.wf(),
                    s == sectors@,
                    clue.conn == ClueConnection::OneAdjacent,
                    n == s.len(),
                    i <= n,
                    forall|p: int|
                        1 <= p <= i && #[trigger] holds_at(s, p, clue.subject) ==> !adjacent_to(
                            s,
                            p,
                            clue.object,
                        ),
                decreases n - i,
            {
                proof {
                    lemma_view_neighbours(sectors, i + 1);
                }
                if sectors.data[i].sector_type == clue.subject {
                    if sectors.prev(i + 1).sector_type == clue.object || sectors.next(
                        i + 1,
                    ).sector_type == clue.object {
                        assert(holds_at(s, i + 1, clue.subject));
                        return true;
                    }
                }
                i += 1;
            }
            false
        },
        ClueConnection::NotAdjacent => {
            let mut i: usize = 0;
            while i < n
                invariant
                    sectors.wf(),
                    s == sectors@,
                    clue.conn == ClueConnection::NotAdjacent,
                    n == s.len(),
                    i <= n,
                    forall|p: int|
                        1 <= p <= i && #[trigger] holds_at(s, p, clue.subject) ==> !adjacent_to(
                            s,
                            p,
                            clue.object,
                        ),
                decreases n - i,
            {
                proof {
                    lemma_view_neighbours(sectors, i + 1);
                }
                if sectors.data[i].sector_type == clue.subject {
                    if sectors.prev(i + 1).sector_type == clue.object || sectors.next(
                        i + 1,
                    ).sector_type == clue.object {
                        assert(holds_at(s, i + 1, clue.subject));
                        return false;
                    }
                }
                i += 1;
            }
            true
        },
        ClueConnection::OneOpposite => {
            let mut i: usize = 0;
            while i < n
                invariant
                    sectors.wf(),
                    s == sectors@,
                    clue.conn == ClueConnection::OneOpposite,
                    n == s.len(),
                    i <= n,
                    forall|p: int|
                        1 <= p <= i && #[trigger] holds_at(s, p, clue.subject) ==> !opposite_to(
                            s,
                            p,
                            clue.object,
                        ),
                decreases n - i,
            {
                proof {
                    lemma_view_neighbours(sectors, i + 1);
                }
                if sectors.data[i].sector_type == clue.subject && sectors.opposite(
                    i + 1,
                ).sector_type == clue.object {
                    assert(holds_at(s, i + 1, clue.subject));
                    return true;
                }
                i += 1;
            }
            false
        },
        ClueConnection::NotOpposite => {
            let mut i: usize = 0;
            while i < n
                invariant
                    sectors.wf(),
                    s == sectors@,
                    clue.conn == ClueConnection::NotOpposite,
                    n == s.len(),
                    i <= n,
                    forall|p: int|
                        1 <= p <= i && #[trigger] holds_at(s, p, clue.subject) ==> !opposite_to(
                            s,
                            p,
                            clue.object,
                        ),
                decreases n - i,
            {
                proof {
                    lemma_view_neighbours(sectors, i + 1);
                }
                if sectors.data[i].sector_type == clue.subject && sectors.opposite(
                    i + 1,
                ).sector_type == clue.object {
                    assert(holds_at(s, i + 1, clue.subject));
                    return false;
                }
                i += 1;
            }
            true
        },
        ClueConnection::AllInRange(range) => {
            if clue.subject == clue.object {
                let widest = sectors.check_type_max_distance(&clue.subject);
                widest <= range
            } else {
                let mut i: usize = 0;
                while i < n
                    invariant
                        sectors.wf(),
                        s == sectors@,
                        clue.conn == ClueConnection::AllInRange(range),
                        clue.subject != clue.object,
                        n == s.len(),
                        i <= n,
                        forall|p: int|
                            1 <= p <= i && #[trigger] holds_at(s, p, clue.subject)
                                ==> range_exists(s, p, clue.object, range as nat),
                    decreases n - i,
                {
                    proof {
                        lemma_view_neighbours(sectors, i + 1);
                    }
                    if sectors.data[i].sector_type == clue.subject {
                        if !sectors.check_range_exist(i + 1, &clue.object, range) {
                            assert(holds_at(s, i + 1, clue.subject));
                            return false;
                        }
                    }
                    i += 1;
                }
                true
            }
        },
        ClueConnection::NotInRange(range) => {
            let mut i: usize = 0;
            while i < n
                invariant
                    sectors.wf(),
                    s == sectors@,
                    clue.conn == ClueConnection::NotInRange(range),
                    n == s.len(),
                    i <= n,
                    forall|p: int|
                        1 <= p <= i && #[trigger] holds_at(s, p, clue.subject) ==> !range_exists(
                            s,
                            p,
                            clue.object,
                            range as nat,
                        ),
                decreases n - i,
            {
                proof {
                    lemma_view_neighbours(sectors, i + 1);
                }
                if sectors.data[i].sector_type == clue.subject {
                    if sectors.check_range_exist(i + 1, &clue.object, range) {
                        assert(holds_at(s, i + 1, clue.subject));
                        return false;
                    }
                }
                i += 1;
            }
            true
        },
    }
}

/// The second half of a clue's signature: the object, unless it repeats the
/// subject or is `Space`.
pub open spec fn secret_object(subject: SectorType, object: SectorType) -> Option<SectorType> {
    if object == subject || object == SectorType::Space {
        None
    } else {
        Some(object)
    }
}

/// Whether two pairs of subject and object have one signature.
pub open spec fn same_secret(
    subject_a: SectorType,
    object_a: SectorType,
    subject_b: SectorType,
    object_b: SectorType,
) -> bool {
    subject_a == subject_b && secret_object(subject_a, object_a) == secret_object(
        subject_b,
        object_b,
    )
}

/// The signature as players read it: the subject's name, then a blank and
/// the object's name where the signature has an object.
pub open spec fn spec_secret(subject: SectorType, object: SectorType) -> Seq<char> {
    match secret_object(subject, object) {
        None => spec_type_name(subject),
        Some(o) => spec_type_name(subject) + " "@ + spec_type_name(o),
    }
}

impl Clue {
    /// What players are told of the clue before they research it: the types
    /// it is about, not the relation.
    pub fn as_secret(&self) -> (r: String)
        ensures
            r@ == spec_secret(self.subject, self.object),
    {
        let mut r = self.subject.to_string();
        if self.object == self.subject || self.object == SectorType::Space {
            return r;
        }
        r.append(" ");
        r.append(self.object.to_string().as_str());
        r
    }
}

/// Whether two relations are of one kind, whatever their ranges.
pub open spec fn same_relation(a: ClueConnection, b: ClueConnection) -> bool {
    match (a, b) {
        (ClueConnection::AllAdjacent, ClueConnection::AllAdjacent) => true,
        (ClueConnection::OneAdjacent, ClueConnection::OneAdjacent) => true,
        (ClueConnection::NotAdjacent, ClueConnection::NotAdjacent) => true,
        (ClueConnection::OneOpposite, ClueConnection::OneOpposite) => true,
        (ClueConnection::NotOpposite, ClueConnection::NotOpposite) => true,
        (ClueConnection::AllInRange(_), ClueConnection::AllInRange(_)) => true,
        (ClueConnection::NotInRange(_), ClueConnection::NotInRange(_)) => true,
        _ => false,
    }
}

/// The clues that are never handed out, true or not: they would give the
/// game away, or tell nothing.
pub open spec fn clue_denied(subject: SectorType, object: SectorType, conn: ClueConnection) -> bool {
    match conn {
        ClueConnection::AllAdjacent => (subject == SectorType::Comet && object == SectorType::Comet)
            || (subject == SectorType::Asteroid && object == SectorType::Asteroid) || (subject
            == SectorType::Nebula && object == SectorType::Space),
        ClueConnection::OneAdjacent => subject == object || (subject == SectorType::Nebula
            && object == SectorType::Space),
        ClueConnection::NotAdjacent => subject == object || (subject == SectorType::Nebula
            && object == SectorType::Space) || (subject == SectorType::X && object
            == SectorType::DwarfPlanet),
        ClueConnection::OneOpposite => false,
        ClueConnection::NotOpposite => subject == object,
        ClueConnection::AllInRange(_) => (subject == object && subject == SectorType::DwarfPlanet)
            || (subject == SectorType::Nebula && object == SectorType::Space),
        ClueConnection::NotInRange(_) => subject == object,
    }
}

/// In how many of the clues type `t` occurs, as subject or as object.
pub open spec fn count_mentions(clues: Seq<Clue>, t: SectorType) -> nat
    decreases clues.len(),
{
    if clues.len() == 0 {
        0
    } else {
        count_mentions(clues.drop_last(), t) + if clues.last().subject == t || clues.last().object
            == t {
            1nat
        } else {
            0nat
        }
    }
}

/// In how many of the clues type `t` is the subject.
pub open spec fn count_as_subject(clues: Seq<Clue>, t: SectorType) -> nat
    decreases clues.len(),
{
    if clues.len() == 0 {
        0
    } else {
        count_as_subject(clues.drop_last(), t) + if clues.last().subject == t {
            1nat
        } else {
            0nat
        }
    }
}

/// In how many of the clues type `t` is the object.
pub open spec fn count_as_object(clues: Seq<Clue>, t: SectorType) -> nat
    decreases clues.len(),
{
    if clues.len() == 0 {
        0
    } else {
        count_as_object(clues.drop_last(), t) + if clues.last().object == t {
            1nat
        } else {
            0nat
        }
    }
}

/// Whether a clue may join the clues already chosen. It may not repeat the
/// signature of one of them, nor turn one of them round with the same kind of
/// relation; neither of its types may be worn out; it may not be on the deny
/// list; and it has to be true of the layout.
pub open spec fn clue_acceptable(
    s: Seq<SectorType>,
    clues: Seq<Clue>,
    subject: SectorType,
    object: SectorType,
    conn: ClueConnection,
) -> bool {
    &&& forall|i: int|
        0 <= i < clues.len() ==> !same_secret(
            (#[trigger] clues[i]).subject,
            clues[i].object,
            subject,
            object,
        )
    &&& forall|i: int|
        0 <= i < clues.len() ==> !((#[trigger] clues[i]).subject == object && clues[i].object
            == subject && same_relation(conn, clues[i].conn))
    &&& count_mentions(clues, subject) < 3
    &&& count_as_subject(clues, subject) < 2
    &&& count_as_object(clues, object) < 2
    &&& count_mentions(clues, object) < 3
    &&& !clue_denied(subject, object, conn)
    &&& clue_holds(s, subject, object, conn)
}

/// Whether `conn` and `other` are relations of one kind.
fn is_same_relation(conn: &ClueConnection, other: &ClueConnection) -> (r: bool)
    ensures
        r == same_relation(*conn, *other),
{
    match (conn, other) {
        (ClueConnection::AllAdjacent, ClueConnection::AllAdjacent) => true,
        (ClueConnection::OneAdjacent, ClueConnection::OneAdjacent) => true,
        (ClueConnection::NotAdjacent, ClueConnection::NotAdjacent) => true,
        (ClueConnection::OneOpposite, ClueConnection::OneOpposite) => true,
        (ClueConnection::NotOpposite, ClueConnection::NotOpposite) => true,
        (ClueConnection::AllInRange(_), ClueConnection::AllInRange(_)) => true,
        (ClueConnection::NotInRange(_), ClueConnection::NotInRange(_)) => true,
        _ => false,
    }
}

/// Whether the clue is on the deny list.
fn is_denied(subject: &SectorType, object: &SectorType, conn: &ClueConnection) -> (r: bool)
    ensures
        r == clue_denied(*subject, *object, *conn),
{
    let same = *subject == *object;
    let nebula_space = *subject == SectorType::Nebula && *object == SectorType::Space;
    match conn {
        ClueConnection::AllAdjacent => (same && (*subject == SectorType::Comet || *subject
            == SectorType::Asteroid)) || nebula_space,
        ClueConnection::OneAdjacent => same || nebula_space,
        ClueConnection::NotAdjacent => same || nebula_space || (*subject == SectorType::X
            && *object == SectorType::DwarfPlanet),
        ClueConnection::OneOpposite => false,
        ClueConnection::NotOpposite => same,
        ClueConnection::AllInRange(_) => (same && *subject == SectorType::DwarfPlanet)
            || nebula_space,
        ClueConnection::NotInRange(_) => same,
    }
}

/// The layout in which X has moved to position `pos`, leaving `Space` where
/// it was.
pub open spec fn with_x_at(s: Seq<SectorType>, pos: int) -> Seq<SectorType> {
    Seq::new(
        s.len(),
        |i: int|
            if i == pos - 1 {
                SectorType::X
            } else if s[i] == SectorType::X {
                SectorType::Space
            } else {
                s[i]
            },
    )
}

/// The two clues that every player knows from the rules: X is not next to a
/// dwarf planet, and every nebula is next to a `Space`.
pub open spec fn default_clues() -> Seq<Clue> {
    seq![
        Clue {
            index: ClueEnum::A,
            subject: SectorType::X,
            object: SectorType::DwarfPlanet,
            conn: ClueConnection::NotAdjacent,
        },
        Clue {
            index: ClueEnum::A,
            subject: SectorType::Nebula,
            object: SectorType::Space,
            conn: ClueConnection::AllAdjacent,
        },
    ]
}

/// Whether, for all the clues say, X could as well hide at position `pos`,
/// which in truth holds `Space`.
pub open spec fn x_may_hide_at(
    clues: Seq<Clue>,
    xclues: Seq<Clue>,
    s: Seq<SectorType>,
    pos: int,
) -> bool {
    &&& holds_at(s, pos, SectorType::Space)
    &&& all_clues_hold(with_x_at(s, pos), clues)
    &&& all_clues_hold(with_x_at(s, pos), xclues)
    &&& all_clues_hold(with_x_at(s, pos), default_clues())
}

/// Whether every clue of the list is true of the layout.
pub fn check_all_clues(clues: &[Clue], sectors: &Sectors) -> (r: bool)
    requires
        sectors.wf(),
    ensures
        r == all_clues_hold(sectors@, clues@),
{
    let mut i: usize = 0;
    while i < clues.len()
        invariant
            sectors.wf(),
            i <= clues@.len(),
            forall|j: int|
                0 <= j < i ==> clue_holds(
                    sectors@,
                    (#[trigger] clues@[j]).subject,
                    clues@[j].object,
                    clues@[j].conn,
                ),
        decreases clues@.len() - i,
    {
        if !check_clue_with_sectors(&clues[i], sectors) {
            return false;
        }
        i += 1;
    }
    true
}

/// The layout with X moved to position `pos`.
fn move_x_to(sectors: &Sectors, pos: usize) -> (r: Sectors)
    requires
        sectors.wf(),
        1 <= pos <= sectors@.len(),
    ensures
        r.wf(),
        r@ == with_x_at(sectors@, pos as int),
{
    let mut data: Vec<Sector> = Vec::new();
    let mut i: usize = 0;
    while i < sectors.data.len()
        invariant
            sectors.wf(),
            i <= sectors.data@.len(),
            data@.len() == i,
            forall|j: int|
                0 <= j < i ==> (#[trigger] data@[j]).index == j + 1 && data@[j].sector_type
                    == with_x_at(sectors@, pos as int)[j],
        decreases sectors.data@.len() - i,
    {
        let old_type = sectors.data[i].sector_type;
        let sector_type = if i + 1 == pos {
            SectorType::X
        } else if old_type == SectorType::X {
            SectorType::Space
        } else {
            old_type
        };
        data.push(Sector { index: i + 1, sector_type });
        i += 1;
    }
    let r = Sectors { data };
    assert(r@ =~= with_x_at(sectors@, pos as int));
    r
}

/// The places, other than its own, where X could hide for all the clues
/// say: the positions that hold `Space` and where a layout with X moved there
/// still meets every clue of both lists and the two clues of the rules. They
/// come in rising order. A set of clues about X is good when none is left.
pub fn check_x_space_only(clues: &[Clue], xclues: &[Clue], sectors: &Sectors) -> (r: Vec<usize>)
    requires
        sectors.wf(),
    ensures
        forall|p: usize| r@.contains(p) <==> x_may_hide_at(clues@, xclues@, sectors@, p as int),
        forall|i: int, j: int| 0 <= i < j < r@.len() ==> r@[i] < r@[j],
{
    let defaults: Vec<Clue> = vec![
        Clue {
            index: ClueEnum::A,
            subject: SectorType::X,
            object: SectorType::DwarfPlanet,
            conn: ClueConnection::NotAdjacent,
        },
        Clue {
            index: ClueEnum::A,
            subject: SectorType::Nebula,
            object: SectorType::Space,
            conn: ClueConnection::AllAdjacent,
        },
    ];
    assert(defaults@ =~= default_clues());
    let n = sectors.data.len();
    let mut possible_x: Vec<usize> = Vec::new();
    let mut i: usize = 0;
    while i < n
        invariant
            sectors.wf(),
            n == sectors@.len(),
            i <= n,
            defaults@ == default_clues(),
            forall|p: usize|
                possible_x@.contains(p) <==> (p <= i && x_may_hide_at(
                    clues@,
                    xclues@,
                    sectors@,
                    p as int,
                )),
            forall|a: int, b: int| 0 <= a < b < possible_x@.len() ==> possible_x@[a] < possible_x@[b],
        decreases n - i,
    {
        let ghost before = possible_x@;
        proof {
            lemma_view_neighbours(sectors, i + 1);
        }
        if sectors.data[i].sector_type == SectorType::Space {
            let temp_sectors = move_x_to(sectors, i + 1);
            if check_all_clues(clues, &temp_sectors) && check_all_clues(xclues, &temp_sectors)
                && check_all_clues(defaults.as_slice(), &temp_sectors) {
                possible_x.push(i + 1);
                assert(possible_x@[before.len() as int] == i + 1);
                assert forall|a: int, b: int| 0 <= a < b < possible_x@.len() implies possible_x@[a]
                    < possible_x@[b] by {
                    if b == before.len() {
                        assert(before.contains(before[a]));
                    }
                }
            }
        }
        assert forall|p: usize|
            possible_x@.contains(p) <==> (p <= i + 1 && x_may_hide_at(
                clues@,
                xclues@,
                sectors@,
                p as int,
            )) by {
            if possible_x@.len() == before.len() {
                assert(possible_x@ =~= before);
            } else {
                assert(possible_x@ =~= before.push((i + 1) as usize));
                if before.contains(p) {
                    let k = choose|k: int| 0 <= k < before.len() && before[k] == p;
                    assert(possible_x@[k] == p);
                }
            }
        }
        i += 1;
    }
    possible_x
}

/// Why no set of clues came out.
#[derive(Debug, Clone, Copy, PartialEq, Eq, Structural)]
pub enum ClueError {
    /// A hundred sets of clues about X were tried, and none left X a single
    /// hiding place.
    TooManyAttempts,
    /// The draws allowed for one clue were used up before one was acceptable.
    OutOfDraws,
}

/// Draws allowed for one sector type.
pub const MAX_TYPE_DRAWS: usize = 1000;

/// Draws allowed for one list of clues.
pub const MAX_CLUE_DRAWS: usize = 1000000;

/// Sets of clues about X that are tried.
pub const MAX_X_ATTEMPTS: usize = 100;

/// The sector type that a draw from `0..=5` stands for.
pub open spec fn spec_sector_type_from_roll(roll: int) -> SectorType {
    if roll == 0 {
        SectorType::Comet
    } else if roll == 1 {
        SectorType::Asteroid
    } else if roll == 2 {
        SectorType::DwarfPlanet
    } else if roll == 3 {
        SectorType::Nebula
    } else if roll == 4 {
        SectorType::X
    } else {
        SectorType::Space
    }
}

pub fn sector_type_from_roll(roll: i32) -> (r: SectorType)
    ensures
        r == spec_sector_type_from_roll(roll as int),
{
    match roll {
        0 => SectorType::Comet,
        1 => SectorType::Asteroid,
        2 => SectorType::DwarfPlanet,
        3 => SectorType::Nebula,
        4 => SectorType::X,
        _ => SectorType::Space,
    }
}

/// The relation that a draw from `0..219` stands for. The relations have the
/// weights 100, 10, 16, 10, 12, 7 and 64, in the order of their declaration:
/// nearly half the draws are `AllAdjacent`, more than a quarter
/// `NotInRange`.
pub open spec fn spec_pick_connection(roll: int, all_range: usize, not_range: usize)
    -> ClueConnection {
    if roll < 100 {
        ClueConnection::AllAdjacent
    } else if roll < 110 {
        ClueConnection::OneAdjacent
    } else if roll < 126 {
        ClueConnection::NotAdjacent
    } else if roll < 136 {
        ClueConnection::OneOpposite
    } else if roll < 148 {
        ClueConnection::NotOpposite
    } else if roll < 155 {
        ClueConnection::AllInRange(all_range)
    } else {
        ClueConnection::NotInRange(not_range)
    }
}

/// The weights of the relations, summed.
pub const WEIGHTS_SUM: i32 = 219;

/// Picks the relation for a draw, with the ranges drawn for the two relations
/// that have one.
pub fn pick_connection(roll: i32, all_range: usize, not_range: usize) -> (r: ClueConnection)
    requires
        roll < WEIGHTS_SUM,
    ensures
        r == spec_pick_connection(roll as int, all_range, not_range),
{
    let distributions: [(i32, ClueConnection); 7] = [
        (100, ClueConnection::AllAdjacent),
        (10, ClueConnection::OneAdjacent),
        (16, ClueConnection::NotAdjacent),
        (10, ClueConnection::OneOpposite),
        (12, ClueConnection::NotOpposite),
        (7, ClueConnection::AllInRange(all_range)),
        (64, ClueConnection::NotInRange(not_range)),
    ];
    let mut r: i32 = roll;
    let mut i: usize = 0;
    while i < 6
        invariant
            i <= 6,
            distributions@ == seq![
                (100i32, ClueConnection::AllAdjacent),
                (10i32, ClueConnection::OneAdjacent),
                (16i32, ClueConnection::NotAdjacent),
                (10i32, ClueConnection::OneOpposite),
                (12i32, ClueConnection::NotOpposite),
                (7i32, ClueConnection::AllInRange(all_range)),
                (64i32, ClueConnection::NotInRange(not_range)),
            ],
            roll < WEIGHTS_SUM,
            i == 0 ==> r == roll,
            i == 1 ==> r == roll - 100 && roll >= 100,
            i == 2 ==> r == roll - 110 && roll >= 110,
            i == 3 ==> r == roll - 126 && roll >= 126,
            i == 4 ==> r == roll - 136 && roll >= 136,
            i == 5 ==> r == roll - 148 && roll >= 148,
            i == 6 ==> r == roll - 155 && roll >= 155,
        decreases 6 - i,
    {
        let (weight, conn) = distributions[i];
        if r < weight {
            return conn;
        }
        r -= weight;
        i += 1;
    }
    distributions[6].1
}

/// The ranges that a relation may be drawn with: short ones on the small
/// board and for clues about X.
pub open spec fn conn_in_range(map_type: MapType, is_x: bool, conn: ClueConnection) -> bool {
    let easy = map_type == MapType::Standard || is_x;
    match conn {
        ClueConnection::AllInRange(k) => if easy {
            2 <= k <= 4
        } else {
            4 <= k <= 6
        },
        ClueConnection::NotInRange(k) => if easy {
            3 <= k <= 4
        } else {
            2 <= k <= 3
        },
        _ => true,
    }
}

/// The letter of the `i`-th research clue.
pub open spec fn research_index(i: int) -> ClueEnum {
    if i == 0 {
        ClueEnum::A
    } else if i == 1 {
        ClueEnum::B
    } else if i == 2 {
        ClueEnum::C
    } else if i == 3 {
        ClueEnum::D
    } else if i == 4 {
        ClueEnum::E
    } else {
        ClueEnum::F
    }
}

/// The letter of the `i`-th clue about X.
pub open spec fn x_clue_index(i: int) -> ClueEnum {
    if i == 0 {
        ClueEnum::X1
    } else {
        ClueEnum::X2
    }
}

/// How many clues about X a board has.
pub open spec fn x_clue_count(map_type: MapType) -> nat {
    match map_type {
        MapType::Standard => 1,
        MapType::Expert => 2,
    }
}

/// Each clue of the list was acceptable beside the clues before it.
pub open spec fn chain_acceptable(s: Seq<SectorType>, clues: Seq<Clue>) -> bool {
    forall|i: int|
        0 <= i < clues.len() ==> clue_acceptable(
            s,
            clues.take(i),
            (#[trigger] clues[i]).subject,
            clues[i].object,
            clues[i].conn,
        )
}

/// What holds of the research clues of a game: there are six, lettered A to
/// F, about neither X as subject or object nor `Space` as subject, each
/// acceptable beside those before it.
pub open spec fn research_clues_ok(map_type: MapType, s: Seq<SectorType>, clues: Seq<Clue>)
    -> bool {
    &&& clues.len() == 6
    &&& chain_acceptable(s, clues)
    &&& forall|i: int|
        0 <= i < clues.len() ==> {
            &&& (#[trigger] clues[i]).index == research_index(i)
            &&& clues[i].subject != SectorType::Space
            &&& clues[i].subject != SectorType::X
            &&& clues[i].object != SectorType::X
            &&& conn_in_range(map_type, false, clues[i].conn)
        }
}

/// What holds of the clues about X of a game: one or two by the board, with
/// X as subject, each acceptable beside those before it, and together with
/// the research clues they leave no `Space` where X could hide as well.
pub open spec fn x_clues_ok(
    map_type: MapType,
    s: Seq<SectorType>,
    clues: Seq<Clue>,
    xclues: Seq<Clue>,
) -> bool {
    &&& xclues.len() == x_clue_count(map_type)
    &&& chain_acceptable(s, xclues)
    &&& forall|i: int|
        0 <= i < xclues.len() ==> {
            &&& (#[trigger] xclues[i]).index == x_clue_index(i)
            &&& xclues[i].subject == SectorType::X
            &&& xclues[i].object != SectorType::X
            &&& conn_in_range(map_type, true, xclues[i].conn)
        }
    &&& forall|p: int| !#[trigger] x_may_hide_at(clues, xclues, s, p)
}

/// What a draw of a sector type comes to: the type that the roll stands
/// for, or nothing where that type is not allowed.
pub open spec fn spec_type_step(roll: int, allow_space: bool, allow_x: bool) -> Option<SectorType> {
    let t = spec_sector_type_from_roll(roll);
    if (!allow_space && t == SectorType::Space) || (!allow_x && t == SectorType::X) {
        None
    } else {
        Some(t)
    }
}

/// Decides what a draw of a sector type comes to.
pub fn type_step(roll: i32, allow_space: bool, allow_x: bool) -> (r: Option<SectorType>)
    ensures
        r == spec_type_step(roll as int, allow_space, allow_x),
{
    let t = sector_type_from_roll(roll);
    if !allow_space && t == SectorType::Space {
        return None;
    }
    if !allow_x && t == SectorType::X {
        return None;
    }
    Some(t)
}

/// What is done with a clue that was drawn.
#[derive(Debug, Clone, Copy, PartialEq, Eq, Structural)]
pub enum ClueStep {
    /// The clue joins the clues chosen.
    Keep(Clue),
    /// The clue is dropped and another is drawn.
    Again,
    /// No clue comes out.
    GiveUp(ClueError),
}

/// The letter of the clue that comes next in a list: of a research clue or
/// of a clue about X.
pub open spec fn next_letter(about_x: bool, chosen: int) -> ClueEnum {
    if about_x {
        x_clue_index(chosen)
    } else {
        research_index(chosen)
    }
}

/// What is done with a clue that was drawn for the layout `s` beside the
/// clues chosen. The drawing is given up when `draws` clues were drawn for
/// the list before this one, or when no type came out for subject or
/// object. A clue that is acceptable beside the clues chosen is kept under
/// the next letter; any other is dropped.
pub open spec fn spec_clue_step(
    s: Seq<SectorType>,
    clues: Seq<Clue>,
    about_x: bool,
    draws: usize,
    subject: Option<SectorType>,
    object: Option<SectorType>,
    conn: ClueConnection,
) -> ClueStep {
    if draws >= MAX_CLUE_DRAWS {
        ClueStep::GiveUp(ClueError::OutOfDraws)
    } else {
        match (subject, object) {
            (Some(sub), Some(obj)) => if sub != SectorType::Space && clue_acceptable(
                s,
                clues,
                sub,
                obj,
                conn,
            ) {
                ClueStep::Keep(
                    Clue {
                        index: next_letter(about_x, clues.len() as int),
                        subject: sub,
                        object: obj,
                        conn,
                    },
                )
            } else {
                ClueStep::Again
            },
            _ => ClueStep::GiveUp(ClueError::OutOfDraws),
        }
    }
}

/// What is done with a set of clues about X.
#[derive(Debug, Clone, Copy, PartialEq, Eq, Structural)]
pub enum XSetStep {
    /// The set leaves X a single hiding place: it is the set of the game.
    Keep,
    /// The set leaves X more than one hiding place: another is drawn.
    Again,
    /// Too many sets were drawn: no clues come out.
    GiveUp,
}

/// What is done with the set of clues about X that is the `attempts`th to
/// be drawn and that leaves X the other hiding places `left`.
pub open spec fn spec_x_set_step(attempts: usize, left: Seq<usize>) -> XSetStep {
    if attempts > MAX_X_ATTEMPTS {
        XSetStep::GiveUp
    } else if left.len() == 0 {
        XSetStep::Keep
    } else {
        XSetStep::Again
    }
}

/// Decides what is done with a set of clues about X.
pub fn x_set_step(attempts: usize, left: &Vec<usize>) -> (r: XSetStep)
    ensures
        r == spec_x_set_step(attempts, left@),
{
    if attempts > MAX_X_ATTEMPTS {
        XSetStep::GiveUp
    } else if left.len() == 0 {
        XSetStep::Keep
    } else {
        XSetStep::Again
    }
}

/// What holds of a set of clues about X as it is drawn: one or two by the
/// board, with X as subject, each acceptable beside those before it.
pub open spec fn x_set_drawn(map_type: MapType, s: Seq<SectorType>, xclues: Seq<Clue>) -> bool {
    &&& xclues.len() == x_clue_count(map_type)
    &&& chain_acceptable(s, xclues)
    &&& forall|i: int|
        0 <= i < xclues.len() ==> {
            &&& (#[trigger] xclues[i]).index == x_clue_index(i)
            &&& xclues[i].subject == SectorType::X
            &&& xclues[i].object != SectorType::X
            &&& conn_in_range(map_type, true, xclues[i].conn)
        }
}

/// Whether every set of a list was drawn in order and yet leaves X, beside
/// the research clues, another hiding place.
pub open spec fn all_sets_fail(
    map_type: MapType,
    s: Seq<SectorType>,
    clues: Seq<Clue>,
    sets: Seq<Seq<Clue>>,
) -> bool {
    forall|i: int|
        0 <= i < sets.len() ==> x_set_drawn(map_type, s, #[trigger] sets[i]) && exists|p: int|
            x_may_hide_at(clues, sets[i], s, p)
}

/// Draws the clues of a game for its true layout.
pub struct ClueGenerator {
    seed: u64,
    rng: SmallRng,
    sectors: Sectors,
    map_type: MapType,
}

impl ClueGenerator {
    /// The layout that the clues are about is well formed.
    pub closed spec fn wf(&self) -> bool {
        self.sectors.wf()
    }

    /// The layout that the clues are about.
    pub closed spec fn layout(&self) -> Seq<SectorType> {
        self.sectors@
    }

    /// The board of the game.
    pub closed spec fn board(&self) -> MapType {
        self.map_type
    }

    /// The seed that the generator was made with.
    pub closed spec fn spec_seed(&self) -> u64 {
        self.seed
    }

    pub fn new(seed: u64, sectors: Sectors, map_type: MapType) -> (r: Self)
        requires
            sectors.wf(),
        ensures
            r.wf(),
            r.layout() == sectors@,
            r.board() == map_type,
            r.spec_seed() == seed,
    {
        Self { seed, rng: seeded_rng(seed), sectors, map_type }
    }

    #[verifier::when_used_as_spec(spec_seed)]
    pub fn seed(&self) -> (r: u64)
        ensures
            r == self.spec_seed(),
    {
        self.seed
    }

    /// Draws the six research clues, then sets of clues about X until one
    /// leaves X a single hiding place. Which clues come out is up to the
    /// draws; `type_step`, `clue_step` and `x_set_step` decide what is done
    /// with each draw. What holds of every set that comes out is stated
    /// here, and that the drawing is given up for too many attempts only
    /// after a hundred sets of clues about X failed.
    pub fn generate_clues(&mut self) -> (r: Result<(Vec<Clue>, Vec<Clue>), ClueError>)
        requires
            old(self).wf(),
        ensures
            final(self).wf(),
            final(self).layout() == old(self).layout(),
            final(self).board() == old(self).board(),
            final(self).spec_seed() == old(self).spec_seed(),
            match r {
                Ok((clues, xclues)) => {
                    &&& research_clues_ok(old(self).board(), old(self).layout(), clues@)
                    &&& x_clues_ok(old(self).board(), old(self).layout(), clues@, xclues@)
                },
                Err(e) => e == ClueError::TooManyAttempts ==> exists|
                    clues: Seq<Clue>,
                    sets: Seq<Seq<Clue>>,
                |
                    {
                        &&& research_clues_ok(old(self).board(), old(self).layout(), clues)
                        &&& sets.len() == MAX_X_ATTEMPTS
                        &&& #[trigger] all_sets_fail(
                            old(self).board(),
                            old(self).layout(),
                            clues,
                            sets,
                        )
                    },
            },
    {
        let ghost s = self.sectors@;
        let ghost mt = self.map_type;
        let mut res: Vec<Clue> = Vec::new();
        let mut draws: usize = 0;
        while res.len() < 6
            invariant
                self.sectors@ == s,
                self.map_type == mt,
                s == old(self).sectors@,
                mt == old(self).map_type,
                self.seed == old(self).seed,
                self.sectors.wf(),
                draws <= MAX_CLUE_DRAWS,
                res@.len() <= 6,
                chain_acceptable(s, res@),
                forall|i: int|
                    0 <= i < res@.len() ==> {
                        &&& (#[trigger] res@[i]).index == research_index(i)
                        &&& res@[i].subject != SectorType::Space
                        &&& res@[i].subject != SectorType::X
                        &&& res@[i].object != SectorType::X
                        &&& conn_in_range(mt, false, res@[i].conn)
                    },
            decreases MAX_CLUE_DRAWS - draws,
        {
            let subject = self.get_rand_type(false, false);
            let object = self.get_rand_type(true, false);
            let conn = self.get_rand_conn(false);
            match self.clue_step(res.as_slice(), false, draws, subject, object, conn) {
                ClueStep::Keep(clue) => {
                    let ghost before = res@;
                    res.push(clue);
                    proof {
                        lemma_chain_push(s, before, res@[before.len() as int]);
                    }
                },
                ClueStep::Again => {},
                ClueStep::GiveUp(e) => {
                    return Err(e);
                },
            }
            draws += 1;
        }
        let wanted: usize = match self.map_type {
            MapType::Standard => 1,
            MapType::Expert => 2,
        };
        let mut xres: Vec<Clue> = Vec::new();
        let mut cnt: usize = 0;
        let mut good = false;
        let ghost failed: Seq<Seq<Clue>> = Seq::empty();
        while !good
            invariant
                self.sectors@ == s,
                self.map_type == mt,
                s == old(self).sectors@,
                mt == old(self).map_type,
                self.seed == old(self).seed,
                self.sectors.wf(),
                research_clues_ok(mt, s, res@),
                wanted == x_clue_count(mt),
                cnt <= MAX_X_ATTEMPTS,
                good ==> x_clues_ok(mt, s, res@, xres@),
                !good ==> failed.len() == cnt,
                all_sets_fail(mt, s, res@, failed),
            decreases MAX_X_ATTEMPTS - cnt, if good { 0int } else { 1int },
        {
            xres = Vec::new();
            let mut xdraws: usize = 0;
            while xres.len() < wanted
                invariant
                    self.sectors@ == s,
                    self.map_type == mt,
                    s == old(self).sectors@,
                    mt == old(self).map_type,
                    self.seed == old(self).seed,
                    self.sectors.wf(),
                    wanted == x_clue_count(mt),
                    xdraws <= MAX_CLUE_DRAWS,
                    xres@.len() <= wanted,
                    chain_acceptable(s, xres@),
                    forall|i: int|
                        0 <= i < xres@.len() ==> {
                            &&& (#[trigger] xres@[i]).index == x_clue_index(i)
                            &&& xres@[i].subject == SectorType::X
                            &&& xres@[i].object != SectorType::X
                            &&& conn_in_range(mt, true, xres@[i].conn)
                        },
                decreases MAX_CLUE_DRAWS - xdraws,
            {
                let object = self.get_rand_type(true, false);
                let conn = self.get_rand_conn(true);
                match self.clue_step(
                    xres.as_slice(),
                    true,
                    xdraws,
                    Some(SectorType::X),
                    object,
                    conn,
                ) {
                    ClueStep::Keep(clue) => {
                        let ghost before = xres@;
                        xres.push(clue);
                        proof {
                            lemma_chain_push(s, before, xres@[before.len() as int]);
                        }
                    },
                    ClueStep::Again => {},
                    ClueStep::GiveUp(e) => {
                        return Err(e);
                    },
                }
                xdraws += 1;
            }
            let others = check_x_space_only(res.as_slice(), xres.as_slice(), &self.sectors);
            match x_set_step(cnt + 1, &others) {
                XSetStep::GiveUp => {
                    proof {
                        assert(failed.len() == MAX_X_ATTEMPTS);
                        assert(research_clues_ok(old(self).board(), old(self).layout(), res@));
                        assert(all_sets_fail(
                            old(self).board(),
                            old(self).layout(),
                            res@,
                            failed,
                        ));
                    }
                    return Err(ClueError::TooManyAttempts);
                },
                XSetStep::Keep => {
                    proof {
                        assert forall|p: int| !#[trigger] x_may_hide_at(res@, xres@, s, p) by {
                            if x_may_hide_at(res@, xres@, s, p) {
                                assert(others@.contains(p as usize));
                            }
                        }
                    }
                    good = true;
                },
                XSetStep::Again => {
                    proof {
                        assert(others@.contains(others@[0]));
                        assert(x_may_hide_at(res@, xres@, s, others@[0] as int));
                        let longer = failed.push(xres@);
                        assert forall|i: int| 0 <= i < longer.len() implies x_set_drawn(
                            mt,
                            s,
                            #[trigger] longer[i],
                        ) && exists|p: int| x_may_hide_at(res@, longer[i], s, p) by {
                            if i < failed.len() {
                                assert(longer[i] == failed[i]);
                            }
                        }
                        failed = longer;
                    }
                    cnt += 1;
                },
            }
        }
        Ok((res, xres))
    }

    /// Decides what is done with a clue that was drawn: `spec_clue_step`.
    pub fn clue_step(
        &self,
        clues: &[Clue],
        about_x: bool,
        draws: usize,
        subject: Option<SectorType>,
        object: Option<SectorType>,
        conn: ClueConnection,
    ) -> (r: ClueStep)
        requires
            self.wf(),
        ensures
            r == spec_clue_step(self.layout(), clues@, about_x, draws, subject, object, conn),
    {
        if draws >= MAX_CLUE_DRAWS {
            return ClueStep::GiveUp(ClueError::OutOfDraws);
        }
        let (sub, obj) = match (subject, object) {
            (Some(sub), Some(obj)) => (sub, obj),
            _ => {
                return ClueStep::GiveUp(ClueError::OutOfDraws);
            },
        };
        if sub == SectorType::Space || !self.check_clue(clues, &sub, &obj, &conn) {
            return ClueStep::Again;
        }
        let chosen = clues.len();
        let index = if about_x {
            if chosen == 0 {
                ClueEnum::X1
            } else {
                ClueEnum::X2
            }
        } else if chosen == 0 {
            ClueEnum::A
        } else if chosen == 1 {
            ClueEnum::B
        } else if chosen == 2 {
            ClueEnum::C
        } else if chosen == 3 {
            ClueEnum::D
        } else if chosen == 4 {
            ClueEnum::E
        } else {
            ClueEnum::F
        };
        ClueStep::Keep(Clue { index, subject: sub, object: obj, conn })
    }

    /// Draws sector types until `type_step` lets one pass. `None` after
    /// `MAX_TYPE_DRAWS` draws that did not.
    fn get_rand_type(&mut self, allow_space: bool, allow_x: bool) -> (r: Option<SectorType>)
        ensures
            final(self).sectors == old(self).sectors,
            final(self).map_type == old(self).map_type,
            final(self).seed == old(self).seed,
            r matches Some(t) ==> (allow_space || t != SectorType::Space) && (allow_x || t
                != SectorType::X),
            r matches Some(t) ==> exists|roll: int|
                0 <= roll <= 5 && #[trigger] spec_type_step(roll, allow_space, allow_x) == Some(t),
            allow_space && allow_x ==> r is Some,
    {
        let mut draws: usize = 0;
        while draws < MAX_TYPE_DRAWS
            invariant
                self.sectors == old(self).sectors,
                self.map_type == old(self).map_type,
                self.seed == old(self).seed,
                allow_space && allow_x ==> draws == 0,
            decreases MAX_TYPE_DRAWS - draws,
        {
            draws += 1;
            let roll = random_i32_inclusive(&mut self.rng, 0, 5);
            match type_step(roll, allow_space, allow_x) {
                Some(t) => {
                    assert(spec_type_step(roll as int, allow_space, allow_x) == Some(t));
                    return Some(t);
                },
                None => {},
            }
        }
        None
    }

    /// Draws a relation by the weights of `pick_connection`, with ranges as
    /// `conn_in_range` allows them.
    fn get_rand_conn(&mut self, is_x: bool) -> (r: ClueConnection)
        ensures
            final(self).sectors == old(self).sectors,
            final(self).map_type == old(self).map_type,
            final(self).seed == old(self).seed,
            conn_in_range(old(self).map_type, is_x, r),
            exists|roll: int, all_range: usize, not_range: usize|
                0 <= roll < WEIGHTS_SUM && r == #[trigger] spec_pick_connection(
                    roll,
                    all_range,
                    not_range,
                ) && if old(self).map_type == MapType::Standard || is_x {
                    2 <= all_range <= 4 && 3 <= not_range <= 4
                } else {
                    4 <= all_range <= 6 && 2 <= not_range <= 3
                },
    {
        let easy = matches!(self.map_type, MapType::Standard) || is_x;
        let all_range = if easy {
            random_usize_inclusive(&mut self.rng, 2, 4)
        } else {
            random_usize_inclusive(&mut self.rng, 4, 6)
        };
        let not_range = if easy {
            random_usize_inclusive(&mut self.rng, 3, 4)
        } else {
            random_usize_inclusive(&mut self.rng, 2, 3)
        };
        let roll = random_i32_below(&mut self.rng, WEIGHTS_SUM);
        pick_connection(roll, all_range, not_range)
    }

    /// Whether a clue may join the clues already chosen: see
    /// `clue_acceptable`.
    pub fn check_clue(
        &self,
        clues: &[Clue],
        subject: &SectorType,
        object: &SectorType,
        conn: &ClueConnection,
    ) -> (r: bool)
        requires
            self.wf(),
            *subject != SectorType::Space,
        ensures
            r == clue_acceptable(self.layout(), clues@, *subject, *object, *conn),
    {
        let subject_alone = *object == *subject || *object == SectorType::Space;
        let mut mentions_subject: usize = 0;
        let mut as_subject: usize = 0;
        let mut as_object: usize = 0;
        let mut mentions_object: usize = 0;
        let mut i: usize = 0;
        while i < clues.len()
            invariant
                i <= clues@.len(),
                subject_alone == (secret_object(*subject, *object) is None),
                forall|j: int|
                    0 <= j < i ==> !same_secret(
                        (#[trigger] clues@[j]).subject,
                        clues@[j].object,
                        *subject,
                        *object,
                    ),
                forall|j: int|
                    0 <= j < i ==> !((#[trigger] clues@[j]).subject == *object && clues@[j].object
                        == *subject && same_relation(*conn, clues@[j].conn)),
                mentions_subject == count_mentions(clues@.take(i as int), *subject),
                as_subject == count_as_subject(clues@.take(i as int), *subject),
                as_object == count_as_object(clues@.take(i as int), *object),
                mentions_object == count_mentions(clues@.take(i as int), *object),
                mentions_subject <= i,
                as_subject <= i,
                as_object <= i,
                mentions_object <= i,
            decreases clues@.len() - i,
        {
            let clue = &clues[i];
            let clue_alone = clue.object == clue.subject || clue.object == SectorType::Space;
            let same = clue.subject == *subject && if subject_alone {
                clue_alone
            } else {
                !clue_alone && clue.object == *object
            };
            assert(same == same_secret(clue.subject, clue.object, *subject, *object));
            if same {
                return false;
            }
            if clue.subject == *object && clue.object == *subject && is_same_relation(
                conn,
                &clue.conn,
            ) {
                return false;
            }
            proof {
                assert(clues@.take(i + 1).drop_last() =~= clues@.take(i as int));
                assert(clues@.take(i + 1).last() == clues@[i as int]);
            }
            if clue.subject == *subject || clue.object == *subject {
                mentions_subject += 1;
            }
            if clue.subject == *subject {
                as_subject += 1;
            }
            if clue.object == *object {
                as_object += 1;
            }
            if clue.subject == *object || clue.object == *object {
                mentions_object += 1;
            }
            i += 1;
        }
        assert(clues@.take(i as int) =~= clues@);
        if mentions_subject >= 3 {
            return false;
        }
        if as_subject >= 2 {
            return false;
        }
        if as_object >= 2 {
            return false;
        }
        if mentions_object >= 3 {
            return false;
        }
        if is_denied(subject, object, conn) {
            return false;
        }
        check_clue_with_sectors(
            &Clue { index: ClueEnum::A, subject: *subject, object: *object, conn: *conn },
            &self.sectors,
        )
    }
}

/// A chain stays acceptable when a clue joins that is acceptable beside it.
proof fn lemma_chain_push(s: Seq<SectorType>, clues: Seq<Clue>, clue: Clue)
    requires
        chain_acceptable(s, clues),
        clue_acceptable(s, clues, clue.subject, clue.object, clue.conn),
    ensures
        chain_acceptable(s, clues.push(clue)),
{
    let after = clues.push(clue);
    assert forall|i: int| 0 <= i < after.len() implies clue_acceptable(
        s,
        after.take(i),
        (#[trigger] after[i]).subject,
        after[i].object,
        after[i].conn,
    ) by {
        if i < clues.len() {
            assert(after.take(i) =~= clues.take(i));
            assert(after[i] == clues[i]);
        } else {
            assert(after.take(i) =~= clues);
        }
    }
}

} // verus!
