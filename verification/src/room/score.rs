use vstd::prelude::*;

use super::game_state::{
    find_holder, holder_position, same_text, UserResultSummary, UserState, UserTokens,
};
use crate::map::model::{MapType, SectorType, Token};
use crate::operation::OperationResult;

verus! {

broadcast use vstd::seq_lib::group_seq_properties;

/// How many tokens of a list show type `t` and were found right.
pub open spec fn located_count(tokens: Seq<Token>, t: SectorType) -> nat
    decreases tokens.len(),
{
    if tokens.len() == 0 {
        0
    } else {
        located_count(tokens.drop_last(), t) + if tokens.last().sector_type == t
            && tokens.last().spec_is_success_located_any() {
            1nat
        } else {
            0nat
        }
    }
}

/// How many tokens of type `t` a player has that were found right; none
/// for a player without tokens.
pub open spec fn located_by(holders: Seq<UserTokens>, id: Seq<char>, t: SectorType) -> nat {
    let k = holder_position(holders, id);
    if k < holders.len() {
        located_count(holders[k].tokens@, t)
    } else {
        0
    }
}

/// The first token of a list that lies on sector `s` and was found right,
/// or the length of the list.
pub open spec fn found_at(tokens: Seq<Token>, s: usize) -> int
    decreases tokens.len(),
{
    if tokens.len() == 0 {
        0
    } else if tokens[0].secret.sector_index == s && tokens[0].spec_is_success_located_any() {
        0
    } else {
        1 + found_at(tokens.drop_first(), s)
    }
}

/// The find of a player on sector `s`: the first token of the player that
/// lies there and was found right.
pub open spec fn find_on(tokens: Seq<Token>, s: usize) -> Option<Token> {
    if found_at(tokens, s) < tokens.len() {
        Some(tokens[found_at(tokens, s)])
    } else {
        None
    }
}

/// The least distance from its check among the finds of the players on
/// sector `s`; `None` where nobody has a find there.
pub open spec fn earliest(holders: Seq<UserTokens>, s: usize) -> Option<usize>
    decreases holders.len(),
{
    if holders.len() == 0 {
        None
    } else {
        match (find_on(holders.last().tokens@, s), earliest(holders.drop_last(), s)) {
            (Some(t), Some(m)) => Some(
                if t.secret.meeting_index < m {
                    t.secret.meeting_index
                } else {
                    m
                },
            ),
            (Some(t), None) => Some(t.secret.meeting_index),
            (None, rest) => rest,
        }
    }
}

/// Whether a find on sector `s` that is `m` from its check carries the
/// name of player `id`.
pub open spec fn finds_with(holders: Seq<UserTokens>, id: Seq<char>, s: usize, m: usize) -> bool {
    exists|h: int|
        0 <= h < holders.len() && (#[trigger] find_on(holders[h].tokens@, s) matches Some(t)
            && t.secret.meeting_index == m && t.secret.user_id@ == id)
}

/// Whether player `id` was among the first to find sector `s`.
pub open spec fn was_first(holders: Seq<UserTokens>, id: Seq<char>, s: usize) -> bool {
    earliest(holders, s) matches Some(m) && finds_with(holders, id, s, m)
}

/// On how many of the sectors `1..=upto` player `id` was among the first.
pub open spec fn first_count(holders: Seq<UserTokens>, id: Seq<char>, upto: nat) -> nat
    decreases upto,
{
    if upto == 0 {
        0
    } else {
        first_count(holders, id, (upto - 1) as nat) + if was_first(holders, id, upto as usize) {
            1nat
        } else {
            0nat
        }
    }
}

/// What locating X brings: ten to who ends the game, two for each step
/// behind to who locates it afterwards, nothing to the others.
pub open spec fn x_points(last: Option<OperationResult>, terminator_step: int, step: int) -> int {
    match last {
        Some(OperationResult::Locate(true)) => if terminator_step == step {
            10
        } else if terminator_step > step {
            2 * (terminator_step - step)
        } else {
            0
        },
        _ => 0,
    }
}

/// The last answer a player got.
pub open spec fn last_answer(user: UserState) -> Option<OperationResult> {
    if user.moves_result@.len() > 0 {
        Some(user.moves_result@.last())
    } else {
        None
    }
}

/// How far a player has come.
pub open spec fn steps_of(user: UserState) -> int {
    (user.location.round - 1) * user.location.max + user.location.index
}

/// What a player has won: three for a comet, two for an asteroid, four for
/// a dwarf planet on the small board and two on the large, four for a
/// nebula, one for each sector found first, and what locating X brings.
pub open spec fn score(
    map_type: MapType,
    holders: Seq<UserTokens>,
    user: UserState,
    board: nat,
    terminator_step: int,
) -> int {
    let id = user.id@;
    located_by(holders, id, SectorType::DwarfPlanet) * match map_type {
        MapType::Standard => 4int,
        MapType::Expert => 2int,
    } + located_by(holders, id, SectorType::Asteroid) * 2 + located_by(
        holders,
        id,
        SectorType::Comet,
    ) * 3 + located_by(holders, id, SectorType::Nebula) * 4 + first_count(holders, id, board)
        + x_points(last_answer(user), terminator_step, steps_of(user))
}

/// How a player has done in a game that is over.
pub open spec fn summary(
    map_type: MapType,
    holders: Seq<UserTokens>,
    user: UserState,
    board: nat,
    terminator_step: int,
) -> UserResultSummary {
    UserResultSummary {
        id: user.id,
        name: user.name,
        sum: score(map_type, holders, user, board, terminator_step) as usize,
        first: first_count(holders, user.id@, board) as usize,
        comet: located_by(holders, user.id@, SectorType::Comet) as usize,
        asteroid: located_by(holders, user.id@, SectorType::Asteroid) as usize,
        dwarf_planet: located_by(holders, user.id@, SectorType::DwarfPlanet) as usize,
        nebula: located_by(holders, user.id@, SectorType::Nebula) as usize,
        x: x_points(last_answer(user), terminator_step, steps_of(user)) as usize,
        step: steps_of(user) as usize,
    }
}

fn count_located(tokens: &Vec<Token>, t: SectorType) -> (r: usize)
    ensures
        r == located_count(tokens@, t),
        r <= tokens@.len(),
{
    let mut count: usize = 0;
    let mut i: usize = 0;
    while i < tokens.len()
        invariant
            i <= tokens@.len(),
            count <= i,
            count == located_count(tokens@.take(i as int), t),
        decreases tokens@.len() - i,
    {
        assert(tokens@.take(i + 1).drop_last() =~= tokens@.take(i as int));
        if tokens[i].is_success_located(t) {
            count += 1;
        }
        i += 1;
    }
    assert(tokens@.take(i as int) =~= tokens@);
    count
}

fn count_located_by(holders: &Vec<UserTokens>, id: &str, t: SectorType) -> (r: usize)
    ensures
        r == located_by(holders@, id@, t),
{
    let k = find_holder(holders, id);
    if k < holders.len() {
        count_located(&holders[k].tokens, t)
    } else {
        0
    }
}

fn find_found(tokens: &Vec<Token>, s: usize) -> (r: usize)
    ensures
        r == found_at(tokens@, s),
        r <= tokens@.len(),
{
    let mut i: usize = 0;
    while i < tokens.len()
        invariant
            i <= tokens@.len(),
            found_at(tokens@, s) == i + found_at(tokens@.skip(i as int), s),
        decreases tokens@.len() - i,
    {
        assert(tokens@.skip(i as int).drop_first() =~= tokens@.skip(i + 1));
        if tokens[i].secret.sector_index == s && tokens[i].is_success_located_any() {
            return i;
        }
        i += 1;
    }
    i
}

/// Whether player `id` was among the first to find sector `s`.
pub fn found_first(holders: &Vec<UserTokens>, id: &str, s: usize) -> (r: bool)
    ensures
        r == was_first(holders@, id@, s),
{
    let mut least: Option<usize> = None;
    let mut i: usize = 0;
    while i < holders.len()
        invariant
            i <= holders@.len(),
            least == earliest(holders@.take(i as int), s),
        decreases holders@.len() - i,
    {
        assert(holders@.take(i + 1).drop_last() =~= holders@.take(i as int));
        let at = find_found(&holders[i].tokens, s);
        if at < holders[i].tokens.len() {
            let m = holders[i].tokens[at].secret.meeting_index;
            least = match least {
                Some(l) => Some(
                    if m < l {
                        m
                    } else {
                        l
                    },
                ),
                None => Some(m),
            };
        }
        i += 1;
    }
    assert(holders@.take(i as int) =~= holders@);
    let m = match least {
        Some(m) => m,
        None => {
            return false;
        },
    };
    let mut h: usize = 0;
    while h < holders.len()
        invariant
            h <= holders@.len(),
            earliest(holders@, s) == Some(m),
            forall|k: int|
                0 <= k < h ==> !(#[trigger] find_on(holders@[k].tokens@, s) matches Some(t)
                    && t.secret.meeting_index == m && t.secret.user_id@ == id@),
        decreases holders@.len() - h,
    {
        let at = find_found(&holders[h].tokens, s);
        if at < holders[h].tokens.len() && holders[h].tokens[at].secret.meeting_index == m
            && same_text(holders[h].tokens[at].secret.user_id.as_str(), id) {
            assert(find_on(holders@[h as int].tokens@, s) matches Some(t)
                && t.secret.meeting_index == m && t.secret.user_id@ == id@);
            return true;
        }
        h += 1;
    }
    false
}

fn count_first(holders: &Vec<UserTokens>, id: &str, board: usize) -> (r: usize)
    ensures
        r == first_count(holders@, id@, board as nat),
        r <= board,
{
    let mut count: usize = 0;
    let mut s: usize = 0;
    while s < board
        invariant
            s <= board,
            count <= s,
            count == first_count(holders@, id@, s as nat),
        decreases board - s,
    {
        s += 1;
        if found_first(holders, id, s) {
            count += 1;
        }
    }
    count
}

/// How a player has done in a game that is over.
pub fn summary_of(
    map_type: MapType,
    holders: &Vec<UserTokens>,
    user_state: &UserState,
    board: usize,
    terminator_step: usize,
) -> (r: UserResultSummary)
    requires
        user_state.location.round >= 1,
        steps_of(*user_state) <= usize::MAX,
        score(map_type, holders@, *user_state, board as nat, terminator_step as int) <= usize::MAX,
    ensures
        r == summary(map_type, holders@, *user_state, board as nat, terminator_step as int),
{
    let id = user_state.id.as_str();
    let comet = count_located_by(holders, id, SectorType::Comet);
    let asteroid = count_located_by(holders, id, SectorType::Asteroid);
    let dwarf_planet = count_located_by(holders, id, SectorType::DwarfPlanet);
    let nebula = count_located_by(holders, id, SectorType::Nebula);
    let first = count_first(holders, id, board);
    let step = user_state.location.step();
    let answers = user_state.moves_result.len();
    let located = answers > 0 && match user_state.moves_result[answers - 1] {
        OperationResult::Locate(found) => found,
        _ => false,
    };
    let x: usize = if !located {
        0
    } else if terminator_step == step {
        10
    } else if terminator_step > step {
        2 * (terminator_step - step)
    } else {
        0
    };
    let for_dwarfs: usize = match map_type {
        MapType::Standard => dwarf_planet * 4,
        MapType::Expert => dwarf_planet * 2,
    };
    let sum = for_dwarfs + asteroid * 2 + comet * 3 + nebula * 4 + first + x;
    UserResultSummary {
        id: user_state.id.clone(),
        name: user_state.name.clone(),
        sum,
        first,
        comet,
        asteroid,
        dwarf_planet,
        nebula,
        x,
        step,
    }
}

} // verus!
