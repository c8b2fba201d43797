use xplanet::map::SectorType::{Asteroid, Comet, DwarfPlanet, Nebula, Space, X};
use xplanet::map::clue::check_all_clues;
use xplanet::map::{
    check_sectors_rules, ChoiceFilter, Clue, ClueConnection, ClueEnum, GameMap, MapType, Sector,
    Sectors,
};
use xplanet::operation::{Operation, OperationResult, ResearchOperation};
use xplanet::room::ending::rank_results;
use xplanet::room::meeting::{has_ready_token, push_all, revealed_sectors};
use xplanet::room::opening::StartError;
use xplanet::room::turn::sort_points;
use xplanet::room::{
    find_next_point, found_first, move_window, sort_users_points, summary_of, GameStage,
    GameState, GameStateResp, PlayerFilter, PointInfo, PointType, Room, ServerGameState,
    UserLocationSequence, UserResultSummary, UserState, UserTokens,
};
use xplanet::server_state::User;

fn layout() -> GameMap {
    let types = [
        Asteroid, Nebula, Space, Nebula, DwarfPlanet, Space, Comet, Asteroid, Asteroid, X, Comet,
        Asteroid,
    ];
    GameMap {
        map_type: MapType::Standard,
        sectors: Sectors {
            data: types
                .iter()
                .enumerate()
                .map(|(i, t)| Sector { index: i + 1, sector_type: *t })
                .collect(),
        },
    }
}

fn x_clue() -> Clue {
    Clue { index: ClueEnum::X1, subject: X, object: Comet, conn: ClueConnection::OneAdjacent }
}

/// A room of three players in a running game on the small board in which
/// nobody is waited for.
fn table() -> Room {
    let mut gs = GameStateResp::empty();
    let mut user_tokens = Vec::new();
    let mut choices = Vec::new();
    for (i, id) in ["a", "b", "c"].iter().enumerate() {
        let user = User { id: id.to_string(), name: id.to_uppercase() };
        gs.users.push(UserState::placeholder(&user, i + 1));
        user_tokens.push(UserTokens {
            user_id: id.to_string(),
            tokens: MapType::Standard.generate_tokens(id.to_string(), i + 1),
        });
        choices.push(PlayerFilter {
            user_id: id.to_string(),
            filter: ChoiceFilter::new(MapType::Standard, id.to_string()),
        });
    }
    gs.status = GameState::AutoMove;
    let ss = ServerGameState {
        map: layout(),
        research_clues: vec![],
        x_clues: vec![x_clue()],
        user_tokens,
        terminator_location: None,
        revealed_sector_indexs: vec![],
    };
    Room { gs, ss, choices }
}

fn at(room: &mut Room, user: usize, index: usize, child_index: usize, round: usize) {
    room.gs.users[user].location = UserLocationSequence { index, child_index, max: 12, round };
}

fn lay(room: &mut Room, holder: usize, token: usize, sector: usize, meeting_index: usize) {
    let t = &mut room.ss.user_tokens[holder].tokens[token];
    t.placed = true;
    t.secret.sector_index = sector;
    t.secret.meeting_index = meeting_index;
}

fn kind(p: &PointInfo) -> String {
    match &p.kind {
        PointType::User(id) => id.clone(),
        PointType::Meeting => "meeting".to_string(),
        PointType::XClue => "xclue".to_string(),
    }
}

fn point(name: &str, index: usize, child_index: usize, round: usize) -> PointInfo {
    PointInfo { kind: PointType::User(name.to_string()), index, child_index, round }
}

#[test]
fn points_are_put_in_order() {
    let points = vec![
        point("a", 4, 2, 2),
        point("b", 4, 1, 3),
        point("c", 2, 1, 3),
        point("d", 4, 2, 1),
        point("e", 2, 1, 3),
    ];
    let by_sector: Vec<String> = sort_points(&points, false).iter().map(kind).collect();
    assert_eq!(by_sector, ["c", "e", "b", "a", "d"]);
    let by_lap: Vec<String> = sort_points(&points, true).iter().map(kind).collect();
    assert_eq!(by_lap, ["d", "a", "c", "e", "b"]);
    assert!(sort_points(&Vec::new(), true).is_empty());
    assert!(point("a", 4, 2, 2).is_later(&point("b", 4, 1, 3), false));
    assert!(!point("a", 4, 2, 2).is_later(&point("b", 4, 1, 3), true));
    assert!(!point("a", 4, 2, 2).is_later(&point("b", 4, 2, 2), true));
}

#[test]
fn the_next_point_of_the_track() {
    let mut r = table();
    let first = find_next_point(&r.gs, false).unwrap();
    assert_eq!((kind(&first), first.index, first.child_index), ("a".to_string(), 1, 1));
    assert_eq!(kind(&find_next_point(&r.gs, true).unwrap()), "b");
    at(&mut r, 0, 4, 1, 1);
    at(&mut r, 1, 3, 1, 1);
    at(&mut r, 2, 11, 1, 1);
    r.gs.start_index = 2;
    assert_eq!(kind(&find_next_point(&r.gs, false).unwrap()), "b");
    let meeting = find_next_point(&r.gs, true).unwrap();
    assert_eq!((kind(&meeting), meeting.index, meeting.round), ("meeting".to_string(), 3, 0));
    r.gs.start_index = 10;
    assert_eq!(kind(&find_next_point(&r.gs, false).unwrap()), "xclue");
    assert_eq!(kind(&find_next_point(&r.gs, true).unwrap()), "c");
    r.gs.round = 2;
    let past = find_next_point(&r.gs, false).unwrap();
    assert_eq!((kind(&past), past.index), ("meeting".to_string(), 12));
    let round = find_next_point(&r.gs, true).unwrap();
    assert_eq!((kind(&round), round.index), ("b".to_string(), 3));
    r.gs.start_index = 13;
    assert!(find_next_point(&r.gs, false).is_none());
    let users: Vec<String> = sort_users_points(&r.gs).iter().map(kind).collect();
    assert_eq!(users, ["b", "a", "c"]);
    at(&mut r, 1, 3, 1, 2);
    let users: Vec<String> = sort_users_points(&r.gs).iter().map(kind).collect();
    assert_eq!(users, ["a", "c", "b"]);
}

#[test]
fn the_window_follows_the_point() {
    let mut gs = GameStateResp::empty();
    move_window(&mut gs, &point("a", 4, 1, 1));
    assert_eq!((gs.start_index, gs.end_index, gs.round), (4, 9, 1));
    move_window(&mut gs, &point("a", 9, 1, 1));
    assert_eq!((gs.start_index, gs.end_index, gs.round), (9, 2, 1));
    move_window(&mut gs, &point("a", 2, 1, 1));
    assert_eq!((gs.start_index, gs.end_index, gs.round), (2, 7, 2));
    gs.map_type = MapType::Expert;
    move_window(&mut gs, &point("a", 12, 1, 1));
    assert_eq!((gs.start_index, gs.end_index, gs.round), (12, 2, 2));
}

#[test]
fn a_turn_begins() {
    let mut r = table();
    at(&mut r, 0, 4, 1, 1);
    at(&mut r, 1, 2, 1, 1);
    at(&mut r, 2, 11, 1, 1);
    let turn = r.begin_turn();
    assert!(turn.xclue.is_none() && !turn.ended);
    assert_eq!(r.gs.status, GameState::Wait(vec!["b".to_string()]));
    assert_eq!(r.gs.game_stage, GameStage::UserMove);
    assert_eq!(r.gs.hint.as_deref(), Some("B should move"));
    assert_eq!((r.gs.start_index, r.gs.end_index, r.gs.round), (2, 7, 1));

    at(&mut r, 1, 5, 1, 1);
    r.gs.status = GameState::AutoMove;
    let turn = r.begin_turn();
    assert!(turn.xclue.is_none() && !turn.ended);
    assert_eq!(
        r.gs.status,
        GameState::Wait(vec!["a".to_string(), "b".to_string(), "c".to_string()])
    );
    assert_eq!(r.gs.game_stage, GameStage::MeetingProposal);
    assert_eq!(r.gs.hint.as_deref(), Some("Meeting proposal, Everyone should move"));
    assert_eq!((r.gs.start_index, r.gs.end_index), (3, 8));
}

#[test]
fn a_clue_about_x_is_handed_out() {
    let mut r = table();
    at(&mut r, 0, 11, 1, 1);
    at(&mut r, 1, 11, 2, 1);
    at(&mut r, 2, 12, 1, 1);
    r.gs.start_index = 10;
    r.gs.end_index = 3;
    let turn = r.begin_turn();
    assert!(!turn.ended);
    assert_eq!(turn.xclue, Some(x_clue()));
    assert_eq!(r.gs.status, GameState::AutoMove);
    assert_eq!(r.gs.game_stage, GameStage::UserMove);
    assert_eq!(r.gs.hint.as_deref(), Some("X clue time"));
    assert_eq!((r.gs.start_index, r.gs.end_index, r.gs.round), (11, 4, 1));
    for choice in r.choices.iter() {
        assert!(choice.filter.initialized);
        assert!(choice.filter.len() < 4446 && choice.filter.len() > 0);
        assert!(choice.filter.all.iter().all(|c| check_all_clues(&[x_clue()], c)));
    }
}

#[test]
fn a_game_without_points_ends() {
    let mut r = table();
    r.gs.start_index = 13;
    let turn = r.begin_turn();
    assert!(turn.ended && turn.xclue.is_none());
    assert_eq!(r.gs.status, GameState::End);
    assert_eq!(r.gs.hint.as_deref(), Some("No more points"));
    assert_eq!(r.gs.start_index, 13);
}

#[test]
fn a_clue_reaches_every_filter() {
    let mut r = table();
    let clue = Clue {
        index: ClueEnum::A,
        subject: Comet,
        object: Nebula,
        conn: ClueConnection::NotAdjacent,
    };
    r.choices[1].filter.add_operation(
        Operation::Research(ResearchOperation { index: ClueEnum::X1 }),
        OperationResult::Research(x_clue()),
    );
    let before = r.choices[1].filter.len();
    r.tell_filters(&clue);
    assert_eq!(r.choices.len(), 3);
    assert!(r.choices.iter().all(|c| c.filter.initialized));
    assert!(r.choices[1].filter.len() < before);
    assert!(r.choices[0].filter.len() > r.choices[1].filter.len());
    assert!(r.choices[0].filter.all.iter().all(|c| check_all_clues(&[clue], c)));
}

#[test]
fn publishers_are_called_in_the_order_of_the_track() {
    let mut r = table();
    r.gs.game_stage = GameStage::MeetingPublish;
    at(&mut r, 0, 5, 1, 1);
    at(&mut r, 1, 3, 1, 1);
    at(&mut r, 2, 2, 1, 1);
    r.ss.user_tokens[0].tokens[0].placed = true;
    r.ss.user_tokens[1].tokens[3].placed = true;
    assert!(has_ready_token(&r.ss.user_tokens, "a"));
    assert!(!has_ready_token(&r.ss.user_tokens, "c"));
    assert!(!has_ready_token(&r.ss.user_tokens, "zed"));
    assert!(!r.call_publishers());
    assert_eq!(r.gs.status, GameState::Wait(vec!["b".to_string()]));
    assert_eq!(r.gs.hint.as_deref(), Some("B should publish"));
    assert_eq!(r.gs.game_stage, GameStage::MeetingPublish);
    lay(&mut r, 1, 3, 4, 3);
    r.gs.status = GameState::AutoMove;
    assert!(!r.call_publishers());
    assert_eq!(r.gs.status, GameState::Wait(vec!["a".to_string()]));
    assert_eq!(r.ss.user_tokens[1].tokens[3].secret.meeting_index, 3);
}

#[test]
fn a_meeting_moves_the_tokens_on() {
    let mut r = table();
    r.gs.game_stage = GameStage::MeetingPublish;
    lay(&mut r, 0, 0, 7, 3);
    lay(&mut r, 1, 3, 4, 2);
    lay(&mut r, 2, 3, 8, 1);
    r.ss.user_tokens[2].tokens[3].secret.sector_type = Some(Asteroid);
    lay(&mut r, 2, 4, 9, 0);
    r.ss.user_tokens[2].tokens[4].secret.sector_type = Some(Asteroid);
    lay(&mut r, 1, 4, 9, 2);
    assert_eq!(revealed_sectors(&r.ss.user_tokens), [9]);
    assert!(!r.call_publishers());
    let index = |h: usize, t: usize| r.ss.user_tokens[h].tokens[t].secret.meeting_index;
    assert_eq!((index(0, 0), index(1, 3), index(2, 3), index(2, 4), index(1, 4)), (2, 1, 1, 0, 2));
    assert_eq!(r.gs.status, GameState::AutoMove);
    assert_eq!(r.gs.game_stage, GameStage::UserMove);
    assert_eq!(r.gs.hint.as_deref(), Some("Push forward"));
    assert_eq!((r.gs.start_index, r.gs.end_index), (1, 6));

    r.gs.game_stage = GameStage::MeetingPublish;
    assert!(!r.call_publishers());
    assert_eq!((r.gs.status.clone(), r.gs.game_stage), (GameState::AutoMove, GameStage::MeetingCheck));
    assert_eq!(
        r.gs.hint.as_deref(),
        Some("Push forward triggle Meeting check, Wait Checking...")
    );
    assert_eq!(r.ss.user_tokens[1].tokens[3].secret.meeting_index, 0);
    let mut holders = table().ss.user_tokens;
    push_all(&mut holders, &vec![]);
    assert!(holders.iter().all(|h| h.tokens.iter().all(|t| !t.placed)));

    let mut r = table();
    r.gs.game_stage = GameStage::MeetingProposal;
    r.gather_tokens();
    assert_eq!(r.gs.game_stage, GameStage::MeetingPublish);
    assert_eq!(r.gs.hint.as_deref(), Some("Gathering all tokens, ready for Meeting publish"));
}

#[test]
fn a_meeting_checks_the_tokens_that_are_due() {
    let mut r = table();
    r.gs.game_stage = GameStage::MeetingCheck;
    at(&mut r, 0, 5, 1, 1);
    at(&mut r, 1, 5, 2, 1);
    at(&mut r, 2, 6, 1, 1);
    // a comet on 7: right; an asteroid on 2: wrong; an asteroid on 7, not due
    // yet but on a sector that the first round reveals: wrong
    lay(&mut r, 0, 0, 7, 0);
    lay(&mut r, 1, 2, 2, 0);
    lay(&mut r, 2, 2, 7, 2);
    lay(&mut r, 2, 3, 8, 2);
    assert!(!r.check_meeting());
    let t = &r.ss.user_tokens[0].tokens[0];
    assert_eq!((t.secret.sector_type, t.secret.meeting_index), (Some(Comet), 0));
    let t = &r.ss.user_tokens[1].tokens[2];
    assert_eq!((t.secret.sector_type, t.secret.meeting_index), (Some(Asteroid), 4));
    let t = &r.ss.user_tokens[2].tokens[2];
    assert_eq!((t.secret.sector_type, t.secret.meeting_index), (Some(Asteroid), 4));
    let t = &r.ss.user_tokens[2].tokens[3];
    assert_eq!((t.secret.sector_type, t.secret.meeting_index), (None, 2));
    assert_eq!(r.ss.revealed_sector_indexs, [7]);
    let place = |u: usize| {
        let l = r.gs.users[u].location;
        (l.index, l.child_index, l.round)
    };
    assert_eq!((place(0), place(1), place(2)), ((5, 1, 1), (6, 2, 1), (7, 1, 1)));
    assert_eq!((r.gs.status.clone(), r.gs.game_stage), (GameState::AutoMove, GameStage::UserMove));
    assert_eq!(r.gs.hint.as_deref(), Some("Push forward"));
    assert_eq!((r.gs.start_index, r.gs.end_index), (5, 10));
    assert!(r.choices[0].filter.all.is_empty() && !r.choices[0].filter.initialized);
    r.tell_filters(&x_clue());
    assert!(r.choices[0].filter.all.iter().all(|c| c.data[6].sector_type == Comet));
    assert!(r.choices[1].filter.all.iter().all(|c| c.data[1].sector_type != Asteroid));
    assert!(r.choices[2].filter.all.iter().all(|c| c.data[6].sector_type != Asteroid));
    assert!(r.choices[2].filter.all.iter().any(|c| c.data[6].sector_type != Comet));
}

#[test]
fn the_last_moves_and_the_end() {
    let mut r = table();
    r.gs.game_stage = GameStage::LastMove;
    at(&mut r, 0, 5, 1, 2);
    at(&mut r, 1, 3, 1, 2);
    at(&mut r, 2, 11, 1, 1);
    r.gs.users[2].last_move = false;
    assert!(r.call_last_movers());
    assert_eq!(r.gs.status, GameState::Wait(vec!["b".to_string()]));
    assert_eq!(r.gs.hint.as_deref(), Some("B should make last move"));
    r.gs.users[1].last_move = false;
    assert!(r.call_last_movers());
    assert_eq!(r.gs.status, GameState::Wait(vec!["a".to_string()]));
    r.gs.users[0].last_move = false;
    r.gs.status = GameState::AutoMove;
    assert!(!r.call_last_movers());
    assert_eq!(r.gs.status, GameState::AutoMove);

    // a: a comet on 7, found at once, and X located where the game ended
    // b: a comet on 7, found later; an asteroid on 8; a nebula on 2, unshown
    // c: a dwarf planet on 5; an asteroid on 3, wrong
    lay(&mut r, 0, 0, 7, 0);
    r.ss.user_tokens[0].tokens[0].secret.sector_type = Some(Comet);
    lay(&mut r, 1, 0, 7, 1);
    r.ss.user_tokens[1].tokens[0].secret.sector_type = Some(Comet);
    lay(&mut r, 1, 2, 8, 3);
    lay(&mut r, 1, 7, 2, 3);
    lay(&mut r, 2, 6, 5, 2);
    lay(&mut r, 2, 2, 3, 3);
    r.gs.users[0].moves_result.push(OperationResult::Locate(true));
    r.gs.users[1].moves_result.push(OperationResult::Locate(true));
    r.gs.users[2].moves_result.push(OperationResult::Locate(false));
    r.ss.terminator_location = Some(UserLocationSequence { index: 5, child_index: 1, max: 12, round: 2 });
    assert!(found_first(&r.ss.user_tokens, "a", 7));
    assert!(!found_first(&r.ss.user_tokens, "b", 7));
    assert!(!found_first(&r.ss.user_tokens, "a", 8));
    let b = summary_of(MapType::Standard, &r.ss.user_tokens, &r.gs.users[1], 12, 17);
    assert_eq!((b.comet, b.asteroid, b.nebula, b.first, b.x, b.step, b.sum), (1, 0, 0, 0, 4, 15, 7));
    r.finish();
    assert_eq!((r.gs.status.clone(), r.gs.game_stage), (GameState::End, GameStage::GameEnd));
    assert_eq!(r.gs.hint.as_deref(), Some("Game Over!"));
    assert_eq!(r.ss.user_tokens[1].tokens[7].secret.sector_type, Some(Nebula));
    assert_eq!(r.ss.user_tokens[2].tokens[2].secret.meeting_index, 4);
    let results = r.gs.game_result.clone().unwrap();
    let row = |s: &UserResultSummary| {
        (s.id.clone(), s.sum, s.first, s.comet, s.asteroid, s.dwarf_planet, s.nebula, s.x, s.step)
    };
    assert_eq!(row(&results[0]), ("b".to_string(), 15, 2, 1, 1, 0, 1, 4, 15));
    assert_eq!(row(&results[1]), ("a".to_string(), 14, 1, 1, 0, 0, 0, 10, 17));
    assert_eq!(row(&results[2]), ("c".to_string(), 5, 1, 0, 0, 1, 0, 0, 11));
    assert_eq!(results[2].name, "C");
}

#[test]
fn results_are_ranked() {
    let result = |id: &str, sum: usize, first: usize| UserResultSummary {
        id: id.to_string(),
        name: id.to_string(),
        sum,
        first,
        comet: 0,
        asteroid: 0,
        dwarf_planet: 0,
        nebula: 0,
        x: 0,
        step: 0,
    };
    let ranking = rank_results(vec![
        result("a", 5, 1),
        result("b", 7, 0),
        result("c", 5, 2),
        result("d", 5, 1),
        result("e", 9, 0),
    ]);
    let ids: Vec<&str> = ranking.iter().map(|r| r.id.as_str()).collect();
    assert_eq!(ids, ["e", "b", "c", "d", "a"]);
    assert!(rank_results(vec![]).is_empty());
}

#[test]
fn a_game_starts() {
    let mut r = table();
    r.gs.status = GameState::NotStarted;
    r.gs.map_seed = 12;
    r.gs.end_index = 3;
    r.gs.round = 7;
    r.ss = ServerGameState::placeholder();
    r.choices.clear();
    at(&mut r, 0, 5, 1, 2);
    r.seat_players();
    assert_eq!(r.gs.status, GameState::Starting);
    assert_eq!(r.gs.hint.as_deref(), Some("Game is starting"));
    assert_eq!((r.gs.start_index, r.gs.end_index, r.gs.round), (1, 6, 1));
    let mut ids: Vec<String> = r.gs.users.iter().map(|u| u.id.clone()).collect();
    for (i, u) in r.gs.users.iter().enumerate() {
        let l = u.location;
        assert_eq!((l.index, l.child_index, l.max, l.round), (1, i + 1, 12, 1));
        assert_eq!(u.name, u.id.to_uppercase());
    }
    let seats = ids.clone();
    ids.sort();
    assert_eq!(ids, ["a", "b", "c"]);
    assert_eq!(r.deal(), Ok(()));
    assert_eq!(r.gs.status, GameState::AutoMove);
    assert_eq!(r.gs.hint.as_deref(), Some("Game started"));
    assert_eq!(r.ss.map.map_type, MapType::Standard);
    assert!(check_sectors_rules(&r.ss.map.sectors, &MapType::Standard));
    assert_eq!((r.ss.research_clues.len(), r.ss.x_clues.len()), (6, 1));
    assert!(check_all_clues(&r.ss.research_clues, &r.ss.map.sectors));
    assert!(check_all_clues(&r.ss.x_clues, &r.ss.map.sectors));
    assert!(r.ss.terminator_location.is_none() && r.ss.revealed_sector_indexs.is_empty());
    for (i, id) in seats.iter().enumerate() {
        assert_eq!(&r.ss.user_tokens[i].user_id, id);
        assert_eq!(r.ss.user_tokens[i].tokens.len(), 9);
        assert!(r.ss.user_tokens[i].tokens.iter().all(|t| {
            !t.placed && &t.secret.user_id == id && t.secret.user_index == i + 1
        }));
        assert_eq!(&r.choices[i].user_id, id);
        assert!(!r.choices[i].filter.initialized && r.choices[i].filter.len() == 0);
    }
    assert!(r.check_frame());
    assert_ne!(StartError::MapGenerationFailed, StartError::ClueGenerationFailed);
    assert_eq!(r.ss.map.sectors.data.iter().filter(|s| s.sector_type == Space).count(), 2);
}

#[test]
fn the_order_of_the_players_is_drawn() {
    let mut orders: Vec<Vec<String>> = Vec::new();
    for seed in 0..40 {
        let mut r = table();
        r.gs.map_seed = seed;
        r.seat_players();
        let mut ids: Vec<String> = r.gs.users.iter().map(|u| u.id.clone()).collect();
        orders.push(ids.clone());
        ids.sort();
        assert_eq!(ids, ["a", "b", "c"]);
        let mut again = table();
        again.gs.map_seed = seed;
        again.seat_players();
        let same: Vec<String> = again.gs.users.iter().map(|u| u.id.clone()).collect();
        assert_eq!(&same, orders.last().unwrap());
    }
    assert!(orders.iter().any(|o| o != &["a", "b", "c"]));
    orders.sort();
    orders.dedup();
    assert!(orders.len() > 2);
}
