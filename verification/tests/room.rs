use xplanet::map::SectorType::{Asteroid, Comet, Nebula};
use xplanet::map::{Clue, ClueConnection, ClueEnum, MapType, SectorType, Token};
use xplanet::operation::{Operation, ResearchOperation, TargetOperation};
use xplanet::recommendation::{can_research, can_target, is_prime, SectorIndex};
use xplanet::room::lobby::is_bot;
use xplanet::room::{
    EditRoomInfo, GameStage, GameState, GameStateResp, OpError, RoomError, ServerGameState,
    ServerResp, UserLocationSequence, UserState, UserTokens,
};
use xplanet::server_state::User;

fn user(id: &str) -> UserState {
    UserState::placeholder(&User { id: id.to_string(), name: id.to_uppercase() }, 1)
}

#[test]
fn a_fresh_game() {
    let g = GameStateResp::empty();
    assert_eq!(g.id, "");
    assert_eq!(g.status, GameState::NotStarted);
    assert_eq!(g.game_stage, GameStage::UserMove);
    assert!(g.hint.is_none() && g.users.is_empty() && g.game_result.is_none());
    assert_eq!((g.start_index, g.end_index, g.round, g.map_seed), (1, 6, 1, 0));
    assert_eq!(g.map_type, MapType::Standard);
    let g = GameStateResp::new("4711".to_string());
    assert_eq!(g.id, "4711");
    assert!(g.map_seed <= u32::MAX as u64);
}

#[test]
fn waiting_list_is_worked_off() {
    let mut g = GameStateResp::empty();
    assert!(!g.check_waiting_for("a"));
    g.status = GameState::Wait(vec!["a".to_string(), "b".to_string()]);
    assert!(!g.check_waiting_for("c"));
    assert!(g.check_waiting_for("b"));
    assert_eq!(g.status, GameState::Wait(vec!["a".to_string()]));
    assert!(!g.check_waiting_for("b"));
    assert!(g.check_waiting_for("a"));
    assert_eq!(g.status, GameState::AutoMove);
}

#[test]
fn players_move_along_the_track() {
    let mut g = GameStateResp::empty();
    g.users = vec![user("a"), user("b")];
    g.users[1].location = UserLocationSequence::new(4, 1, 12);
    assert_eq!(g.user_move("zed", 3).unwrap_err(), OpError::UserNotFoundInRoom);
    g.user_move("a", 3).unwrap();
    let at = g.users[0].location;
    assert_eq!((at.index, at.child_index, at.round), (4, 2, 1));
    g.user_move("b", 10).unwrap();
    let at = g.users[1].location;
    assert_eq!((at.index, at.child_index, at.round), (2, 1, 2));
    assert!(g.users[0].location.index_lt(&g.users[1].location));
    assert!(!g.users[1].location.index_lt(&g.users[0].location));
    assert!(g.users[0].location.index_le4(&g.users[1].location));
    assert!(!g.users[1].location.index_le4(&g.users[0].location));
    assert_eq!(g.users[1].location.step(), 14);
    assert_eq!(g.users[0].location.step(), 4);
    assert!(g.users[0].location.is_some_sector(&UserLocationSequence::new(4, 3, 18)));
    assert!(!g.users[0].location.is_some_sector(&g.users[1].location));
    let p = UserLocationSequence::placeholder(2, 3);
    assert_eq!((p.index, p.child_index, p.max, p.round), (2, 3, 12, 1));
}

#[test]
fn server_answers() {
    assert!(matches!(ServerResp::auth_success_version(), ServerResp::Version(v) if v == "0.0.6"));
    assert!(matches!(ServerResp::rejoin_room("12".to_string()), ServerResp::RejoinRoom(v) if v == "12"));
}

fn game_with_tokens() -> ServerGameState {
    let mut ss = ServerGameState::placeholder();
    ss.user_tokens.push(UserTokens {
        user_id: "a".to_string(),
        tokens: MapType::Standard.generate_tokens("a".to_string(), 1),
    });
    ss.user_tokens.push(UserTokens {
        user_id: "b".to_string(),
        tokens: MapType::Standard.generate_tokens("b".to_string(), 2),
    });
    ss
}

fn placed(tokens: &[Token]) -> Vec<(usize, SectorType)> {
    tokens.iter().enumerate().filter(|(_, t)| t.placed).map(|(i, t)| (i, t.sector_type)).collect()
}

#[test]
fn tokens_are_laid_down_and_published() {
    let mut ss = game_with_tokens();
    assert_eq!(ss.ready_publish_token("c", &[Comet]).unwrap_err(), OpError::UserNotFoundInRoom);
    // three comets are one too many, and nothing is taken in hand
    assert_eq!(ss.ready_publish_token("a", &[Comet, Comet, Comet]).unwrap_err(), OpError::TokenNotEnough);
    assert!(placed(&ss.user_tokens[0].tokens).is_empty());
    ss.ready_publish_token("a", &[Nebula, Comet]).unwrap();
    assert_eq!(placed(&ss.user_tokens[0].tokens), vec![(0, Comet), (7, Nebula)]);
    assert!(placed(&ss.user_tokens[1].tokens).is_empty());
    assert_eq!(ss.publish_token("a", 5, &Asteroid).unwrap_err(), OpError::TokenNotEnough);
    assert_eq!(ss.publish_token("zed", 5, &Comet).unwrap_err(), OpError::UserNotFoundInRoom);
    ss.publish_token("a", 5, &Comet).unwrap();
    let t = &ss.user_tokens[0].tokens[0];
    assert_eq!((t.secret.sector_index, t.secret.meeting_index), (5, 3));
    assert_eq!(ss.publish_token("a", 6, &Comet).unwrap_err(), OpError::TokenNotEnough);
    ss.last_move_publish_token("b", 9, &Asteroid).unwrap();
    let t = &ss.user_tokens[1].tokens[2];
    assert!(t.placed);
    assert_eq!((t.secret.sector_index, t.secret.meeting_index), (9, 3));
    assert_eq!(
        ss.last_move_publish_token("b", 9, &SectorType::X).unwrap_err(),
        OpError::TokenNotEnough
    );
    assert_eq!(
        ss.last_move_publish_token("zed", 9, &Comet).unwrap_err(),
        OpError::UserNotFoundInRoom
    );
}

#[test]
fn clue_secrets_of_a_game() {
    let mut ss = ServerGameState::placeholder();
    ss.research_clues = vec![
        Clue { index: ClueEnum::A, subject: Comet, object: Nebula, conn: ClueConnection::NotAdjacent },
        Clue { index: ClueEnum::B, subject: Asteroid, object: Asteroid, conn: ClueConnection::AllInRange(5) },
    ];
    ss.x_clues = vec![
        Clue { index: ClueEnum::X1, subject: SectorType::X, object: Comet, conn: ClueConnection::OneAdjacent },
    ];
    let secrets = ss.clue_secret();
    let shown: Vec<_> = secrets.iter().map(|s| (s.index, s.secret.as_str())).collect();
    assert_eq!(
        shown,
        vec![(ClueEnum::A, "彗星 气体云"), (ClueEnum::B, "小行星"), (ClueEnum::X1, "X 彗星")]
    );
}

#[test]
fn sector_index_walks_the_ring() {
    let a = SectorIndex::new(12, 12);
    assert_eq!(a.as_usize(), 12);
    assert_eq!(a.next().as_usize(), 1);
    assert_eq!(a.prev().as_usize(), 11);
    assert_eq!(SectorIndex::new(1, 12).prev().as_usize(), 12);
    assert_eq!(SectorIndex::new(1, 12).next().as_usize(), 2);
    assert_eq!(SectorIndex::new(3, 12).dis(&SectorIndex::new(5, 12)), 3);
    assert_eq!(SectorIndex::new(5, 12).dis(&SectorIndex::new(3, 12)), 3);
    assert_eq!(SectorIndex::new(1, 12).dis(&SectorIndex::new(6, 12)), 6);
    assert_eq!(SectorIndex::new(1, 12).dis(&SectorIndex::new(7, 12)), 7);
    assert_eq!(SectorIndex::new(1, 12).dis(&SectorIndex::new(12, 12)), 2);
    assert_eq!(SectorIndex::new(4, 12).dis(&SectorIndex::new(4, 12)), 1);
}

#[test]
fn what_a_bot_may_do() {
    let mut u = user("bot-1");
    assert!(can_research(&u));
    assert!(can_target(&u));
    u.moves.push(Operation::Target(TargetOperation { index: 1 }));
    u.moves.push(Operation::Research(ResearchOperation { index: ClueEnum::A }));
    assert!(!can_research(&u));
    assert!(can_target(&u));
    u.moves.push(Operation::Target(TargetOperation { index: 2 }));
    assert!(can_research(&u));
    assert!(!can_target(&u));
    let primes: Vec<usize> = (0..20).filter(|p| is_prime(*p)).collect();
    assert_eq!(primes, vec![2, 3, 5, 7, 11, 13, 17]);
}

#[test]
fn players_come_and_go() {
    let mut g = GameStateResp::empty();
    let a = User { id: "a".to_string(), name: "Ann".to_string() };
    assert!(!g.has_user("a"));
    assert!(g.enter(&a));
    assert!(g.has_user("a"));
    assert!(!g.enter(&a));
    assert_eq!(g.users.len(), 1);
    let at = g.users[0].location;
    assert_eq!((at.index, at.child_index, at.max, at.round), (1, 1, 12, 1));
    assert!(g.users[0].name == "Ann" && !g.users[0].ready && g.users[0].last_move);
    assert!(g.enable_bot("4711"));
    assert!(!g.enable_bot("4711"));
    assert_eq!((g.users[1].id.as_str(), g.users[1].name.as_str()), ("bot-4711", "protocol"));
    assert_eq!(g.users[1].location.child_index, 2);
    assert!(is_bot(&g.users[1]) && !is_bot(&g.users[0]));
    for id in ["b", "c"] {
        assert!(g.enter(&User { id: id.to_string(), name: id.to_string() }));
    }
    assert!(!g.enter(&User { id: "d".to_string(), name: "d".to_string() }));
    assert_eq!(g.check_join("d"), Err(RoomError::RoomFull));
    assert_eq!(g.check_join("b"), Ok(true));
    assert!(g.disable_bot());
    assert!(!g.disable_bot());
    let ids: Vec<&str> = g.users.iter().map(|u| u.id.as_str()).collect();
    assert_eq!(ids, ["a", "b", "c"]);
    assert_eq!(g.check_join("d"), Ok(false));
    assert!(!g.enable_bot("1") || g.users.len() == 4);
    assert!(g.leave("b"));
    assert!(!g.leave("b"));
    let ids: Vec<&str> = g.users.iter().map(|u| u.id.as_str()).collect();
    assert_eq!(ids, ["a", "c", "bot-1"]);
    g.status = GameState::AutoMove;
    assert_eq!(g.check_join("d"), Err(RoomError::RoomStarted));
    assert_eq!(g.check_join("c"), Ok(true));
}

#[test]
fn a_room_is_edited_and_its_players_get_ready() {
    let mut g = GameStateResp::empty();
    g.edit(&EditRoomInfo { room_id: "1".to_string(), map_type: MapType::Expert, map_seed: 77 });
    assert_eq!((g.map_type, g.map_seed, g.end_index, g.start_index), (MapType::Expert, 77, 9, 1));
    assert_eq!(g.set_ready("a", true), Err(RoomError::UserNotFoundInRoom));
    g.users = vec![user("a"), user("b")];
    assert_eq!(g.set_ready("b", true), Ok(()));
    assert!(!g.users[0].ready && g.users[1].ready);
    assert_eq!(g.set_ready("b", false), Ok(()));
    assert!(!g.users[1].ready);
}
