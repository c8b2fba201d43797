use xplanet::map::SectorType::{Asteroid, Comet, DwarfPlanet, Nebula, Space, X};
use xplanet::map::{
    ChoiceFilter, Clue, ClueConnection, ClueEnum, GameMap, MapType, Sector, SectorType, Sectors,
};
use xplanet::operation::{
    DoPublishOperation, LocateOperation, Operation, OperationResult, ReadyPublishOperation,
    ResearchOperation, SurveyOperatoin, TargetOperation,
};
use xplanet::recommendation::{RecommendOperation, RecommendOperationResult};
use xplanet::room::{
    GameStage, GameState, GameStateResp, OpError, PlayerFilter, RecommendError, Room,
    ServerGameState, UserLocationSequence, UserState, UserTokens,
};
use xplanet::server_state::User;

fn board(map_type: MapType, types: &[SectorType]) -> GameMap {
    GameMap {
        map_type,
        sectors: Sectors {
            data: types
                .iter()
                .enumerate()
                .map(|(i, t)| Sector { index: i + 1, sector_type: *t })
                .collect(),
        },
    }
}

fn clue_a() -> Clue {
    Clue { index: ClueEnum::A, subject: Comet, object: Nebula, conn: ClueConnection::NotAdjacent }
}

fn clue_b() -> Clue {
    Clue { index: ClueEnum::B, subject: Comet, object: Asteroid, conn: ClueConnection::AllAdjacent }
}

/// A room of two players, `a` and `b`, in a game on the small board that
/// waits for both.
fn room() -> Room {
    let types = [
        Asteroid, Nebula, Space, Nebula, DwarfPlanet, Space, Comet, Asteroid, Asteroid, X, Comet,
        Asteroid,
    ];
    let mut gs = GameStateResp::empty();
    let mut user_tokens = Vec::new();
    let mut choices = Vec::new();
    for (i, id) in ["a", "b"].iter().enumerate() {
        let user = User { id: id.to_string(), name: id.to_uppercase() };
        gs.users.push(UserState::placeholder(&user, i + 1));
        user_tokens.push(UserTokens {
            user_id: id.to_string(),
            tokens: MapType::Standard.generate_tokens(id.to_string(), i + 1),
        });
        choices.push(PlayerFilter {
            user_id: id.to_string(),
            filter: ChoiceFilter::new(MapType::Standard, id.to_string()),
        });
    }
    gs.status = GameState::Wait(vec!["a".to_string(), "b".to_string()]);
    let ss = ServerGameState {
        map: board(MapType::Standard, &types),
        research_clues: vec![clue_a(), clue_b()],
        x_clues: vec![],
        user_tokens,
        terminator_location: None,
        revealed_sector_indexs: vec![],
    };
    Room { gs, ss, choices }
}

fn survey(sector_type: SectorType, start: usize, end: usize) -> Operation {
    Operation::Survey(SurveyOperatoin { sector_type, start, end })
}

fn target(index: usize) -> Operation {
    Operation::Target(TargetOperation { index })
}

fn research(index: ClueEnum) -> Operation {
    Operation::Research(ResearchOperation { index })
}

fn locate(index: usize, pre: SectorType, next: SectorType) -> Operation {
    Operation::Locate(LocateOperation { index, pre_sector_type: pre, next_sector_type: next })
}

/// Two values that are written out alike.
fn expect<T: std::fmt::Debug>(got: T, want: T) {
    assert_eq!(format!("{:?}", got), format!("{:?}", want));
}

fn act(room: &mut Room, id: &str, op: &Operation) -> Result<OperationResult, OpError> {
    assert!(room.check_frame());
    assert!(room.check_operation(op));
    room.handle_action_op(id, op)
}

#[test]
fn a_room_in_order_and_rooms_out_of_order() {
    let r = room();
    assert!(r.check_frame());
    let mut empty = room();
    empty.ss = ServerGameState::placeholder();
    assert!(!empty.check_frame());
    let mut misnumbered = room();
    misnumbered.ss.map.sectors.data[3].index = 5;
    assert!(!misnumbered.check_frame());
    let mut false_clue = room();
    false_clue.ss.research_clues[0].conn = ClueConnection::AllAdjacent;
    assert!(!false_clue.check_frame());
    let mut wide = room();
    wide.gs.end_index = 7;
    assert!(!wide.check_frame());
    wide.gs.end_index = 0;
    assert!(!wide.check_frame());
    let mut crowded = room();
    for id in ["c", "d", "e"] {
        let user = User { id: id.to_string(), name: id.to_string() };
        crowded.gs.users.push(UserState::placeholder(&user, 1));
    }
    assert!(!crowded.check_frame());
    let mut far = room();
    far.gs.users[0].location.index = usize::MAX - 4;
    assert!(!far.check_frame());
    let mut early = room();
    early.ss.terminator_location = Some(UserLocationSequence::new(3, 1, 12));
    early.ss.terminator_location.as_mut().unwrap().round = 0;
    assert!(!early.check_frame());
    early.ss.terminator_location.as_mut().unwrap().round = 1;
    assert!(early.check_frame());
    let mut loose = room();
    loose.ss.user_tokens[1].tokens[2].secret.sector_index = 4;
    assert!(!loose.check_frame());
    loose.ss.user_tokens[1].tokens[2].placed = true;
    assert!(loose.check_frame());
}

#[test]
fn operations_that_cannot_be_worked_off() {
    let r = room();
    assert!(r.check_operation(&survey(Asteroid, 6, 5)));
    assert!(r.check_operation(&locate(12, Space, Space)));
    assert!(!r.check_operation(&locate(0, Space, Space)));
    assert!(!r.check_operation(&locate(13, Space, Space)));
    assert!(r.check_operation(&target(40)));
    let mut large = room();
    large.gs.map_type = MapType::Expert;
    large.gs.end_index = 9;
    large.ss.research_clues.clear();
    large.ss.map = board(MapType::Expert, &[Space; 18]);
    assert!(large.check_frame());
    assert!(!large.check_operation(&survey(Asteroid, 9, 8)));
    assert!(large.check_operation(&survey(X, 9, 8)));
    assert!(large.check_operation(&survey(Asteroid, 9, 9)));
    assert!(large.check_operation(&survey(Asteroid, 1, 9)));
    assert!(large.check_operation(&locate(18, Space, Space)));
}

#[test]
fn only_who_is_waited_for_may_move() {
    let mut r = room();
    r.gs.status = GameState::NotStarted;
    expect(act(&mut r, "a", &target(3)), Err(OpError::NotUsersTurn));
    r.gs.status = GameState::Wait(vec!["b".to_string()]);
    expect(act(&mut r, "a", &target(3)), Err(OpError::NotUsersTurn));
    expect(act(&mut r, "b", &target(3)), Ok(OperationResult::Target(Space)));
    assert_eq!(r.gs.status, GameState::AutoMove);
    expect(act(&mut r, "b", &target(3)), Err(OpError::NotUsersTurn));
}

#[test]
fn each_stage_has_its_operations() {
    let ready = Operation::ReadyPublish(ReadyPublishOperation { sectors: vec![Comet] });
    let publish = Operation::DoPublish(DoPublishOperation { index: 3, sector_type: Comet });
    let mut r = room();
    expect(act(&mut r, "a", &ready), Err(OpError::InvalidMoveInStage));
    expect(act(&mut r, "b", &publish), Err(OpError::InvalidMoveInStage));
    for stage in [GameStage::MeetingProposal, GameStage::MeetingPublish, GameStage::MeetingCheck] {
        let mut r = room();
        r.gs.game_stage = stage;
        expect(act(&mut r, "a", &target(3)), Err(OpError::InvalidMoveInStage));
        expect(act(&mut r, "b", &survey(Asteroid, 1, 6)), Err(OpError::InvalidMoveInStage));
    }
    let mut r = room();
    r.gs.game_stage = GameStage::LastMove;
    expect(act(&mut r, "a", &research(ClueEnum::A)), Err(OpError::InvalidMoveInStage));
    expect(act(&mut r, "b", &ready), Err(OpError::InvalidMoveInStage));
}

#[test]
fn a_survey_is_answered_and_taken_in() {
    let mut r = room();
    let op = survey(Asteroid, 1, 6);
    expect(act(&mut r, "a", &op), Ok(OperationResult::Survey(1)));
    assert_eq!(r.gs.status, GameState::Wait(vec!["b".to_string()]));
    let at = r.gs.users[0].location;
    assert_eq!((at.index, at.round), (4, 1));
    expect(&r.gs.users[0].moves, &vec![op.clone()]);
    expect(&r.gs.users[0].moves_result, &vec![OperationResult::Survey(1)]);
    assert!(r.gs.users[1].moves.is_empty());
    assert_eq!(r.choices[0].filter.len(), 964);
    assert!(!r.choices[1].filter.initialized);
    expect(act(&mut r, "b", &survey(Space, 3, 3)), Ok(OperationResult::Survey(3)));
    let at = r.gs.users[1].location;
    assert_eq!((at.index, at.round), (5, 1));
}

#[test]
fn surveys_that_are_turned_down() {
    let mut r = room();
    expect(act(&mut r, "a", &survey(Asteroid, 7, 8)), Err(OpError::InvalidIndex));
    r = room();
    expect(act(&mut r, "a", &survey(Asteroid, 4, 3)), Err(OpError::InvalidIndex));
    r = room();
    expect(act(&mut r, "a", &survey(Asteroid, 0, 3)), Err(OpError::InvalidIndex));
    r = room();
    expect(act(&mut r, "a", &survey(X, 1, 3)), Err(OpError::InvalidSectorType));
    r = room();
    expect(act(&mut r, "a", &survey(Comet, 1, 5)), Err(OpError::InvalidIndexOfPrime));
    r = room();
    expect(act(&mut r, "a", &survey(Comet, 2, 4)), Err(OpError::InvalidIndexOfPrime));
    r = room();
    expect(act(&mut r, "a", &survey(Comet, 2, 5)), Ok(OperationResult::Survey(0)));
    assert!(r.gs.users[0].moves_result.len() == 1 && r.choices[0].filter.initialized);
    r = room();
    expect(act(&mut r, "a", &survey(X, 7, 8)), Err(OpError::InvalidIndex));
    assert!(r.gs.users[0].moves.is_empty() && !r.choices[0].filter.initialized);
}

#[test]
fn a_player_targets_twice() {
    let mut r = room();
    r.gs.start_index = 7;
    r.gs.end_index = 12;
    expect(act(&mut r, "a", &target(6)), Err(OpError::InvalidIndex));
    r.gs.status = GameState::Wait(vec!["a".to_string()]);
    expect(act(&mut r, "a", &target(10)), Ok(OperationResult::Target(Space)));
    let at = r.gs.users[0].location;
    assert_eq!((at.index, at.round), (5, 1));
    r.gs.status = GameState::Wait(vec!["a".to_string()]);
    expect(act(&mut r, "a", &target(11)), Ok(OperationResult::Target(Comet)));
    r.gs.status = GameState::Wait(vec!["a".to_string()]);
    expect(act(&mut r, "a", &target(12)), Err(OpError::TargetTimeExhausted));
    assert_eq!(r.gs.users[0].moves.len(), 2);
    assert!(r.choices[0].filter.initialized);
    let truth: Vec<SectorType> = r.ss.map.sectors.data.iter().map(|s| s.sector_type).collect();
    assert!(r.choices[0]
        .filter
        .all
        .iter()
        .any(|c| c.data.iter().map(|s| s.sector_type).collect::<Vec<_>>() == truth));
    assert!(r.choices[0].filter.all.iter().all(|c| c.data[10].sector_type == Comet));
}

#[test]
fn a_player_does_not_research_twice_in_a_row() {
    let mut r = room();
    expect(act(&mut r, "a", &research(ClueEnum::C)), Err(OpError::InvalidClue));
    assert_eq!(r.gs.users[0].location.index, 2);
    assert!(r.gs.users[0].moves.is_empty());
    r.gs.status = GameState::Wait(vec!["a".to_string()]);
    expect(
        act(&mut r, "a", &research(ClueEnum::B)),
        Ok(OperationResult::Research(clue_b()))
    );
    let at = r.gs.users[0].location;
    assert_eq!((at.index, at.round), (3, 1));
    r.gs.status = GameState::Wait(vec!["a".to_string()]);
    expect(act(&mut r, "a", &research(ClueEnum::A)), Err(OpError::ResearchContiuously));
    r.gs.status = GameState::Wait(vec!["a".to_string()]);
    expect(act(&mut r, "a", &target(3)), Ok(OperationResult::Target(Space)));
    r.gs.status = GameState::Wait(vec!["a".to_string()]);
    expect(
        act(&mut r, "a", &research(ClueEnum::A)),
        Ok(OperationResult::Research(clue_a()))
    );
    assert_eq!(r.gs.users[0].moves.len(), 3);
}

#[test]
fn x_is_located_and_the_last_moves_begin() {
    let mut r = room();
    expect(act(&mut r, "a", &locate(10, Asteroid, Asteroid)), Ok(OperationResult::Locate(false)));
    assert_eq!(r.gs.game_stage, GameStage::UserMove);
    assert!(r.ss.terminator_location.is_none());
    expect(act(&mut r, "b", &locate(10, Asteroid, Comet)), Ok(OperationResult::Locate(true)));
    assert_eq!(r.gs.game_stage, GameStage::LastMove);
    assert!(r.ss.terminator_location.is_some());
    assert!(r.choices[1].filter.initialized);
    assert!(r.choices[1].filter.all.iter().all(|c| c.data[9].sector_type == X));
    r.gs.status = GameState::Wait(vec!["a".to_string()]);
    r.gs.users[0].can_locate = false;
    expect(act(&mut r, "a", &locate(10, Asteroid, Comet)), Err(OpError::EndGameCanNotLocate));
    r.gs.status = GameState::Wait(vec!["a".to_string()]);
    r.gs.users[0].can_locate = true;
    expect(act(&mut r, "a", &locate(10, Asteroid, Comet)), Ok(OperationResult::Locate(true)));
    assert!(!r.gs.users[0].can_locate);
}

#[test]
fn a_meeting_takes_tokens_in_two_steps() {
    let mut r = room();
    r.gs.game_stage = GameStage::MeetingProposal;
    let three_comets =
        Operation::ReadyPublish(ReadyPublishOperation { sectors: vec![Comet, Comet, Comet] });
    expect(act(&mut r, "a", &three_comets), Err(OpError::TokenNotEnough));
    r.gs.status = GameState::Wait(vec!["a".to_string()]);
    let two = Operation::ReadyPublish(ReadyPublishOperation { sectors: vec![Comet, Nebula] });
    expect(act(&mut r, "a", &two), Ok(OperationResult::ReadyPublish(2)));
    assert_eq!(r.ss.user_tokens[0].tokens.iter().filter(|t| t.placed).count(), 2);
    assert!(r.gs.users[0].moves.is_empty());
    expect(&r.gs.users[0].moves_result, &vec![OperationResult::ReadyPublish(2)]);

    r.gs.game_stage = GameStage::MeetingPublish;
    r.gs.status = GameState::Wait(vec!["a".to_string()]);
    let asteroid = Operation::DoPublish(DoPublishOperation { index: 7, sector_type: Asteroid });
    expect(act(&mut r, "a", &asteroid), Err(OpError::TokenNotEnough));
    r.gs.status = GameState::Wait(vec!["a".to_string()]);
    let comet = Operation::DoPublish(DoPublishOperation { index: 7, sector_type: Comet });
    expect(act(&mut r, "a", &comet), Ok(OperationResult::DoPublish((7, Comet))));
    let laid: Vec<_> =
        r.ss.user_tokens[0].tokens.iter().filter(|t| t.secret.sector_index == 7).collect();
    assert_eq!(laid.len(), 1);
    assert!(laid[0].placed && laid[0].sector_type == Comet && laid[0].secret.meeting_index == 3);
    r.gs.status = GameState::Wait(vec!["a".to_string()]);
    r.ss.revealed_sector_indexs.push(5);
    let revealed = Operation::DoPublish(DoPublishOperation { index: 5, sector_type: Nebula });
    expect(act(&mut r, "a", &revealed), Err(OpError::SectorAlreadyRevealed));
}

#[test]
fn a_player_without_a_filter_is_not_of_the_room() {
    let mut r = room();
    r.choices.remove(0);
    expect(act(&mut r, "a", &target(3)), Err(OpError::UserNotFoundInRoom));
    let mut r = room();
    r.gs.status = GameState::Wait(vec!["zed".to_string()]);
    expect(act(&mut r, "zed", &target(3)), Err(OpError::UserNotFoundInRoom));
    r.gs.status = GameState::Wait(vec!["zed".to_string()]);
    expect(act(&mut r, "zed", &survey(X, 1, 2)), Err(OpError::InvalidSectorType));
}

#[test]
fn what_a_filter_recommends() {
    let mut r = room();
    assert_eq!(
        r.handle_recommend_op("zed", RecommendOperation::Count),
        Err(RecommendError::UserNotFoundInRoom)
    );
    assert_eq!(
        r.handle_recommend_op("a", RecommendOperation::Count),
        Err(RecommendError::NotEnoughData)
    );
    assert_eq!(
        r.handle_recommend_op("a", RecommendOperation::CanLocate),
        Err(RecommendError::NotEnoughData)
    );
    expect(act(&mut r, "a", &survey(Asteroid, 1, 6)), Ok(OperationResult::Survey(1)));
    assert_eq!(
        r.handle_recommend_op("a", RecommendOperation::Count),
        Ok(RecommendOperationResult::Count(964))
    );
    assert_eq!(
        r.handle_recommend_op("a", RecommendOperation::CanLocate),
        Ok(RecommendOperationResult::CanLocate(false))
    );
    assert_eq!(
        r.handle_recommend_op("b", RecommendOperation::Count),
        Err(RecommendError::NotEnoughData)
    );
    expect(act(&mut r, "b", &locate(10, Asteroid, Comet)), Ok(OperationResult::Locate(true)));
    assert_eq!(
        r.handle_recommend_op("b", RecommendOperation::CanLocate),
        Ok(RecommendOperationResult::CanLocate(true))
    );
}
