use vstd::prelude::*;

use super::game_state::{GameStateResp, UserState};
use crate::map::model::MapType;

verus! {

broadcast use vstd::seq_lib::group_seq_properties;

/// What stands at a point of the track.
#[derive(Debug)]
pub enum PointType {
    /// A player, by identity.
    User(String),
    Meeting,
    XClue,
}

/// A point of the track: a player's place, a meeting, or a clue about X.
#[derive(Debug)]
pub struct PointInfo {
    pub kind: PointType,
    pub index: usize,
    pub child_index: usize,
    pub round: usize,
}

impl Clone for PointInfo {
    fn clone(&self) -> (r: Self)
        ensures
            r == *self,
    {
        let kind = match &self.kind {
            PointType::User(id) => PointType::User(id.clone()),
            PointType::Meeting => PointType::Meeting,
            PointType::XClue => PointType::XClue,
        };
        PointInfo { kind, index: self.index, child_index: self.child_index, round: self.round }
    }
}

/// The point where a player stands.
pub open spec fn user_point(user: UserState) -> PointInfo {
    PointInfo {
        kind: PointType::User(user.id),
        index: user.location.index,
        child_index: user.location.child_index,
        round: user.location.round,
    }
}

/// The points where the players of a list stand.
pub open spec fn user_points(users: Seq<UserState>) -> Seq<PointInfo> {
    Seq::new(users.len(), |i: int| user_point(users[i]))
}

/// A meeting on the track.
pub open spec fn meeting_point(at: (usize, usize)) -> PointInfo {
    PointInfo { kind: PointType::Meeting, index: at.0, child_index: at.1, round: 0 }
}

/// A clue about X on the track.
pub open spec fn xclue_point(at: (usize, usize)) -> PointInfo {
    PointInfo { kind: PointType::XClue, index: at.0, child_index: at.1, round: 1 }
}

/// The meetings of a board, along the track.
pub open spec fn meeting_places(map_type: MapType) -> Seq<(usize, usize)> {
    match map_type {
        MapType::Standard => seq![(3usize, 5usize), (6usize, 5usize), (9usize, 5usize), (12usize, 5usize)],
        MapType::Expert => seq![
            (3usize, 5usize),
            (6usize, 5usize),
            (9usize, 5usize),
            (12usize, 5usize),
            (15usize, 5usize),
            (18usize, 5usize),
        ],
    }
}

/// The clues about X of a board, along the track.
pub open spec fn xclue_places(map_type: MapType) -> Seq<(usize, usize)> {
    match map_type {
        MapType::Standard => seq![(10usize, 5usize)],
        MapType::Expert => seq![(7usize, 5usize), (16usize, 5usize)],
    }
}

/// All points of the track of a game: the players, then the meetings, then
/// the clues about X.
pub open spec fn track_points(gs: GameStateResp) -> Seq<PointInfo> {
    user_points(gs.users@) + Seq::new(
        meeting_places(gs.map_type).len(),
        |i: int| meeting_point(meeting_places(gs.map_type)[i]),
    ) + Seq::new(
        xclue_places(gs.map_type).len(),
        |i: int| xclue_point(xclue_places(gs.map_type)[i]),
    )
}

/// Whether point `a` comes later than point `b`: on a later sector, or
/// further back on the same sector; with `by_round`, a later lap comes
/// first of all.
pub open spec fn comes_later(a: PointInfo, b: PointInfo, by_round: bool) -> bool {
    if by_round && a.round != b.round {
        a.round > b.round
    } else if a.index != b.index {
        a.index > b.index
    } else {
        a.child_index > b.child_index
    }
}

/// Where a point is put into a list in order: before the first that comes
/// later, so behind those that come at the same time.
pub open spec fn slot(sorted: Seq<PointInfo>, p: PointInfo, by_round: bool) -> int
    decreases sorted.len(),
{
    if sorted.len() == 0 {
        0
    } else if comes_later(sorted[0], p, by_round) {
        0
    } else {
        1 + slot(sorted.drop_first(), p, by_round)
    }
}

/// The points of a list in order, those that come at the same time in the
/// order they had.
pub open spec fn ordered(points: Seq<PointInfo>, by_round: bool) -> Seq<PointInfo>
    decreases points.len(),
{
    if points.len() == 0 {
        Seq::empty()
    } else {
        let before = ordered(points.drop_last(), by_round);
        before.insert(slot(before, points.last(), by_round), points.last())
    }
}

/// Whether no point of the list comes later than one behind it.
pub open spec fn in_order(points: Seq<PointInfo>, by_round: bool) -> bool {
    forall|i: int, j: int|
        0 <= i < j < points.len() ==> !comes_later(
            #[trigger] points[i],
            #[trigger] points[j],
            by_round,
        )
}

/// The slot of a point lies in the list or at its end; no point before it
/// comes later than the point, and the point at it does.
pub proof fn lemma_slot(sorted: Seq<PointInfo>, p: PointInfo, by_round: bool)
    ensures
        0 <= slot(sorted, p, by_round) <= sorted.len(),
        forall|i: int|
            0 <= i < slot(sorted, p, by_round) ==> !comes_later(
                #[trigger] sorted[i],
                p,
                by_round,
            ),
        slot(sorted, p, by_round) < sorted.len() ==> comes_later(
            sorted[slot(sorted, p, by_round)],
            p,
            by_round,
        ),
    decreases sorted.len(),
{
    if sorted.len() > 0 && !comes_later(sorted[0], p, by_round) {
        lemma_slot(sorted.drop_first(), p, by_round);
        assert forall|i: int| 0 <= i < slot(sorted, p, by_round) implies !comes_later(
            #[trigger] sorted[i],
            p,
            by_round,
        ) by {
            if i > 0 {
                assert(sorted[i] == sorted.drop_first()[i - 1]);
            }
        }
    }
}

/// The points in order are the same points, each as often as before, and
/// none of them comes later than one behind it.
pub proof fn lemma_ordered(points: Seq<PointInfo>, by_round: bool)
    ensures
        ordered(points, by_round).len() == points.len(),
        ordered(points, by_round).to_multiset() == points.to_multiset(),
        in_order(ordered(points, by_round), by_round),
    decreases points.len(),
{
    broadcast use vstd::multiset::group_multiset_axioms;

    if points.len() == 0 {
        assert(ordered(points, by_round) =~= points);
    } else {
        let rest = points.drop_last();
        let p = points.last();
        let before = ordered(rest, by_round);
        let at = slot(before, p, by_round);
        let after = before.insert(at, p);
        lemma_ordered(rest, by_round);
        lemma_slot(before, p, by_round);
        vstd::seq_lib::to_multiset_insert(before, at, p);
        assert(rest.push(p) =~= points);
        vstd::seq_lib::to_multiset_insert(rest, rest.len() as int, p);
        assert(rest.insert(rest.len() as int, p) =~= points);
        assert forall|i: int, j: int| 0 <= i < j < after.len() implies !comes_later(
            #[trigger] after[i],
            #[trigger] after[j],
            by_round,
        ) by {
            if j < at {
                assert(after[i] == before[i] && after[j] == before[j]);
            } else if j == at {
                assert(after[i] == before[i]);
            } else if i < at {
                assert(after[i] == before[i] && after[j] == before[j - 1]);
            } else if i == at {
                assert(after[j] == before[j - 1]);
                assert(comes_later(before[at], p, by_round));
                assert(at <= j - 1);
                if at < j - 1 {
                    assert(!comes_later(before[at], before[j - 1], by_round));
                }
            } else {
                assert(after[i] == before[i - 1] && after[j] == before[j - 1]);
            }
        }
    }
}

impl PointInfo {
    /// The point where a player stands.
    pub fn of_user(user: &UserState) -> (r: Self)
        ensures
            r == user_point(*user),
    {
        PointInfo {
            kind: PointType::User(user.id.clone()),
            index: user.location.index,
            child_index: user.location.child_index,
            round: user.location.round,
        }
    }

    /// Whether `self` comes later than `other`.
    pub fn is_later(&self, other: &PointInfo, by_round: bool) -> (r: bool)
        ensures
            r == comes_later(*self, *other, by_round),
    {
        if by_round && self.round != other.round {
            self.round > other.round
        } else if self.index != other.index {
            self.index > other.index
        } else {
            self.child_index > other.child_index
        }
    }
}

/// Puts the points of a list in order, those that come at the same time in
/// the order they had.
pub fn sort_points(points: &Vec<PointInfo>, by_round: bool) -> (r: Vec<PointInfo>)
    ensures
        r@ == ordered(points@, by_round),
{
    let mut sorted: Vec<PointInfo> = Vec::new();
    let mut i: usize = 0;
    while i < points.len()
        invariant
            i <= points@.len(),
            sorted@ == ordered(points@.take(i as int), by_round),
        decreases points@.len() - i,
    {
        let p = points[i].clone();
        let mut at: usize = 0;
        while at < sorted.len() && !sorted[at].is_later(&p, by_round)
            invariant
                at <= sorted@.len(),
                slot(sorted@, p, by_round) == at + slot(sorted@.skip(at as int), p, by_round),
            decreases sorted@.len() - at,
        {
            assert(sorted@.skip(at as int).drop_first() =~= sorted@.skip(at + 1));
            at += 1;
        }
        assert(points@.take(i + 1).drop_last() =~= points@.take(i as int));
        sorted.insert(at, p);
        i += 1;
    }
    assert(points@.take(i as int) =~= points@);
    sorted
}

/// The players of a game by how far they are along the track, the first
/// first.
pub fn sort_users_points(gs: &GameStateResp) -> (r: Vec<PointInfo>)
    ensures
        r@ == ordered(user_points(gs.users@), true),
{
    let points = points_of_users(&gs.users);
    sort_points(&points, true)
}

fn points_of_users(users: &Vec<UserState>) -> (r: Vec<PointInfo>)
    ensures
        r@ == user_points(users@),
{
    let mut points: Vec<PointInfo> = Vec::new();
    let mut i: usize = 0;
    while i < users.len()
        invariant
            i <= users@.len(),
            points@ == user_points(users@.take(i as int)),
        decreases users@.len() - i,
    {
        points.push(PointInfo::of_user(&users[i]));
        assert(points@ =~= user_points(users@.take(i + 1)));
        i += 1;
    }
    assert(users@.take(i as int) =~= users@);
    points
}

/// Whether the game passes over a point when it looks for the next: the
/// point lies before the window, or it belongs to the first lap and that
/// lap is over.
pub open spec fn passed_over(gs: GameStateResp, p: PointInfo) -> bool {
    p.index < gs.start_index || (gs.round > 1 && p.round == 1)
}

/// The first point of a list that the game does not pass over, or the
/// length of the list.
pub open spec fn first_kept(gs: GameStateResp, points: Seq<PointInfo>) -> int
    decreases points.len(),
{
    if points.len() == 0 {
        0
    } else if !passed_over(gs, points[0]) {
        0
    } else {
        1 + first_kept(gs, points.drop_first())
    }
}

/// The point that is next on the track of a game: the first in order that
/// is not passed over, or with `next_next` the one behind it, round the
/// track. `None` where every point is passed over.
pub open spec fn next_point(gs: GameStateResp, next_next: bool) -> Option<PointInfo> {
    let points = ordered(track_points(gs), false);
    let first = first_kept(gs, points);
    if first >= points.len() {
        None
    } else if next_next {
        Some(
            points[if first + 1 == points.len() {
                0
            } else {
                first + 1
            }],
        )
    } else {
        Some(points[first])
    }
}

/// The first point that is not passed over is a point of the list, or
/// none is.
pub proof fn lemma_first_kept_range(gs: GameStateResp, points: Seq<PointInfo>)
    ensures
        0 <= first_kept(gs, points) <= points.len(),
    decreases points.len(),
{
    if points.len() > 0 && passed_over(gs, points[0]) {
        lemma_first_kept_range(gs, points.drop_first());
    }
}

/// The point that is next is a player's, a meeting or a clue about X of
/// the board.
pub proof fn lemma_next_point_on_track(gs: GameStateResp, next_next: bool)
    ensures
        next_point(gs, next_next) matches Some(p) ==> {
            ||| exists|i: int| 0 <= i < gs.users@.len() && p == user_point(#[trigger] gs.users@[i])
            ||| (p.kind is Meeting && 1 <= p.index <= 18)
            ||| (p.kind is XClue && 1 <= p.index <= 18)
        },
{
    if let Some(p) = next_point(gs, next_next) {
        let track = track_points(gs);
        let points = ordered(track, false);
        lemma_ordered(track, false);
        lemma_first_kept_range(gs, points);
        let first = first_kept(gs, points);
        let at = if next_next && first + 1 < points.len() {
            first + 1
        } else if next_next {
            0
        } else {
            first
        };
        assert(points[at] == p);
        assert(points.contains(p));
        vstd::seq_lib::to_multiset_contains(points, p);
        vstd::seq_lib::to_multiset_contains(track, p);
        let k = choose|k: int| 0 <= k < track.len() && track[k] == p;
        let users = gs.users@.len();
        let meetings = meeting_places(gs.map_type).len();
        if k < users {
            assert(p == user_point(gs.users@[k]));
        } else if k < users + meetings {
            assert(p == meeting_point(meeting_places(gs.map_type)[k - users]));
        } else {
            assert(p == xclue_point(xclue_places(gs.map_type)[k - users - meetings]));
        }
    }
}

/// All points of the track of a game.
fn all_points(gs: &GameStateResp) -> (r: Vec<PointInfo>)
    ensures
        r@ == track_points(*gs),
{
    let mut points = points_of_users(&gs.users);
    let meetings = gs.map_type.meeting_points();
    let xclues = gs.map_type.xclue_points();
    let ghost users = points@;
    assert(meetings@ == meeting_places(gs.map_type));
    assert(xclues@ == xclue_places(gs.map_type));
    let mut i: usize = 0;
    while i < meetings.len()
        invariant
            i <= meetings@.len(),
            points@ == users + Seq::new(i as nat, |k: int| meeting_point(meetings@[k])),
        decreases meetings@.len() - i,
    {
        points.push(
            PointInfo {
                kind: PointType::Meeting,
                index: meetings[i].0,
                child_index: meetings[i].1,
                round: 0,
            },
        );
        assert(points@ =~= users + Seq::new((i + 1) as nat, |k: int| meeting_point(meetings@[k])));
        i += 1;
    }
    let ghost fixed = points@;
    let mut j: usize = 0;
    while j < xclues.len()
        invariant
            j <= xclues@.len(),
            points@ == fixed + Seq::new(j as nat, |k: int| xclue_point(xclues@[k])),
        decreases xclues@.len() - j,
    {
        points.push(
            PointInfo {
                kind: PointType::XClue,
                index: xclues[j].0,
                child_index: xclues[j].1,
                round: 1,
            },
        );
        assert(points@ =~= fixed + Seq::new((j + 1) as nat, |k: int| xclue_point(xclues@[k])));
        j += 1;
    }
    assert(points@ =~= track_points(*gs));
    points
}

/// The point that is next on the track of a game.
pub fn find_next_point(gs: &GameStateResp, next_next: bool) -> (r: Option<PointInfo>)
    ensures
        r == next_point(*gs, next_next),
{
    let unsorted = all_points(gs);
    let points = sort_points(&unsorted, false);
    let mut first: usize = 0;
    while first < points.len() && (points[first].index < gs.start_index || (gs.round > 1
        && points[first].round == 1))
        invariant
            first <= points@.len(),
            first_kept(*gs, points@) == first + first_kept(*gs, points@.skip(first as int)),
        decreases points@.len() - first,
    {
        assert(points@.skip(first as int).drop_first() =~= points@.skip(first + 1));
        first += 1;
    }
    if first >= points.len() {
        return None;
    }
    if next_next {
        let behind: usize = if first + 1 == points.len() {
            0
        } else {
            first + 1
        };
        Some(points[behind].clone())
    } else {
        Some(points[first].clone())
    }
}

/// The window of a game after it was moved to begin at sector `index`: it
/// spans half the board, and a new lap begins where it moves back.
pub open spec fn moved_window(gs: GameStateResp, index: usize) -> GameStateResp {
    let n = gs.map_type.sector_count();
    let end = index + n / 2 - 1;
    GameStateResp {
        round: if index < gs.start_index {
            (gs.round + 1) as usize
        } else {
            gs.round
        },
        start_index: index,
        end_index: if end > n {
            (end - n) as usize
        } else {
            end as usize
        },
        ..gs
    }
}

/// Moves the window of a game to begin at the sector of a point.
pub fn move_window(gs: &mut GameStateResp, point: &PointInfo)
    requires
        old(gs).round < usize::MAX,
        point.index <= usize::MAX - 18,
    ensures
        *final(gs) == moved_window(*old(gs), point.index),
{
    let n = gs.map_type.sector_count();
    if point.index < gs.start_index {
        gs.round += 1;
    }
    gs.start_index = point.index;
    gs.end_index = point.index + n / 2 - 1;
    if gs.end_index > n {
        gs.end_index -= n;
    }
}

} // verus!
