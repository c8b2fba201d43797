use xplanet::map::{
    in_range, validate_index_in_range, GameMap, MapType, Sector, SectorType, Sectors, Token,
};
use xplanet::map::SectorType::{Asteroid, Comet, DwarfPlanet, Nebula, Space, X};

fn board(types: &[SectorType]) -> Sectors {
    Sectors {
        data: types
            .iter()
            .enumerate()
            .map(|(i, t)| Sector { index: i + 1, sector_type: *t })
            .collect(),
    }
}

#[test]
fn test_validate_index() {
    assert!(validate_index_in_range(1, 9, 3, None, 18));
    assert!(validate_index_in_range(1, 9, 9, None, 18));
    assert!(validate_index_in_range(1, 9, 3, Some(4), 18));
    assert!(!validate_index_in_range(1, 9, 3, Some(2), 18));
    assert!(!validate_index_in_range(1, 9, 10, None, 18));
    assert!(!validate_index_in_range(1, 9, 10, Some(11), 18));
    assert!(!validate_index_in_range(11, 1, 10, None, 18));
    assert!(validate_index_in_range(11, 1, 13, None, 18));
    assert!(validate_index_in_range(11, 1, 13, Some(14), 18));
    assert!(!validate_index_in_range(11, 1, 13, Some(12), 18));
}

#[test]
fn in_range_wraps_round_the_ring() {
    assert!(in_range(11, 1, 12, 12));
    assert!(in_range(11, 1, 1, 12));
    assert!(!in_range(11, 1, 2, 12));
    assert!(in_range(4, 4, 9, 12));
    assert!(!in_range(2, 5, 6, 12));
}

#[test]
fn ring_neighbours_and_opposite() {
    let s = board(&[Comet, Asteroid, Asteroid, Nebula, Space, X]);
    assert_eq!(s.next(6).index, 1);
    assert_eq!(s.next(1).index, 2);
    assert_eq!(s.prev(1).index, 6);
    assert_eq!(s.prev(4).index, 3);
    assert_eq!(s.opposite(1).index, 4);
    assert_eq!(s.opposite(5).index, 2);
    assert_eq!(s.opposite(3).sector_type, X);
}

#[test]
fn range_exist_looks_both_ways_separately() {
    let s = board(&[Comet, Asteroid, Asteroid, Nebula, Space, X, Space, Space]);
    assert!(s.check_range_exist(1, &Nebula, 3));
    assert!(!s.check_range_exist(1, &Nebula, 2));
    assert!(s.check_range_exist(1, &X, 3));
    assert!(!s.check_range_exist(1, &X, 2));
    assert!(!s.check_range_exist(1, &Comet, 3));
    assert!(s.check_range_exist(1, &Comet, 8));
    assert!(!s.check_range_exist(4, &DwarfPlanet, 8));
}

#[test]
fn max_distance_counts_both_ends() {
    let s = board(&[Comet, Asteroid, Asteroid, Nebula, Space, X, Space, Comet]);
    assert_eq!(s.check_type_max_distance(&Comet), 2);
    assert_eq!(s.check_type_max_distance(&Asteroid), 2);
    assert_eq!(s.check_type_max_distance(&X), 1);
    assert_eq!(s.check_type_max_distance(&Space), 3);
    assert_eq!(s.check_type_max_distance(&DwarfPlanet), 0);
}

#[test]
fn survey_counts_x_as_space() {
    let s = board(&[Comet, Asteroid, Asteroid, Nebula, Space, X, Space, Comet]);
    assert_eq!(s.get_range_type_cnt(4, 7, &Space), 3);
    assert_eq!(s.get_range_type_cnt(4, 7, &X), 1);
    assert_eq!(s.get_range_type_cnt(8, 2, &Comet), 2);
    assert_eq!(s.get_range_type_cnt(2, 3, &Asteroid), 2);
    assert_eq!(s.get_range_type_cnt(3, 3, &Asteroid), 2);
}

#[test]
fn map_answers() {
    let map = GameMap {
        map_type: MapType::Standard,
        sectors: board(&[Comet, Asteroid, Asteroid, Nebula, Space, X, Space, Comet]),
    };
    assert_eq!(map.size(), 8);
    assert_eq!(map.survey_sector(4, 7, &Space), 3);
    assert_eq!(map.target_sector(6), Space);
    assert_eq!(map.target_sector(1), Comet);
    assert!(map.locate_x(6, &Space, &Space));
    assert!(!map.locate_x(6, &Space, &Comet));
    assert!(!map.locate_x(5, &Nebula, &X));
    assert!(map.meeting_check(4, &Nebula));
    assert!(!map.meeting_check(6, &Space));
    assert_eq!(GameMap::place_holder().size(), 0);
}

#[test]
fn map_type_tables() {
    assert_eq!(MapType::Standard.sector_count(), 12);
    assert_eq!(MapType::Expert.sector_count(), 18);
    assert_eq!(MapType::Standard.meeting_points(), vec![(3, 5), (6, 5), (9, 5), (12, 5)]);
    assert_eq!(
        MapType::Expert.meeting_points(),
        vec![(3, 5), (6, 5), (9, 5), (12, 5), (15, 5), (18, 5)]
    );
    assert_eq!(MapType::Standard.xclue_points(), vec![(10, 5)]);
    assert_eq!(MapType::Expert.xclue_points(), vec![(7, 5), (16, 5)]);
}

#[test]
fn tokens_are_dealt_by_type() {
    let tokens = MapType::Standard.generate_tokens("u1".to_string(), 2);
    let kinds: Vec<SectorType> = tokens.iter().map(|t| t.sector_type).collect();
    assert_eq!(
        kinds,
        vec![Comet, Comet, Asteroid, Asteroid, Asteroid, Asteroid, DwarfPlanet, Nebula, Nebula]
    );
    assert!(tokens.iter().all(|t| !t.placed && t.secret.user_id == "u1"
        && t.secret.user_index == 2
        && t.secret.sector_index == 0
        && t.secret.meeting_index == 0
        && t.secret.sector_type.is_none()));
    let tokens = MapType::Expert.generate_tokens("u1".to_string(), 1);
    let dwarfs = tokens.iter().filter(|t| t.sector_type == DwarfPlanet).count();
    assert_eq!(tokens.len(), 12);
    assert_eq!(dwarfs, 4);
}

#[test]
fn token_life() {
    let mut t = Token::new(SectorType::Comet, "u1", 1);
    assert!(t.is_not_used(&SectorType::Comet));
    assert!(!t.is_not_used(&SectorType::Nebula));
    assert!(!t.any_ready_published());
    t.set_to_be_placed();
    assert!(t.placed);
    assert!(t.is_ready_published(&SectorType::Comet));
    assert!(!t.is_ready_published(&SectorType::Nebula));
    assert!(t.any_ready_published());
    t.set_published(7);
    assert_eq!(t.secret.sector_index, 7);
    assert_eq!(t.secret.meeting_index, 3);
    assert!(!t.any_ready_checked());
    t.push_at_meeting(&[7]);
    assert_eq!(t.secret.meeting_index, 3);
    t.push_at_meeting(&[1, 2]);
    assert_eq!(t.secret.meeting_index, 2);
    t.push_at_meeting(&[]);
    t.push_at_meeting(&[]);
    assert_eq!(t.secret.meeting_index, 0);
    t.push_at_meeting(&[]);
    assert_eq!(t.secret.meeting_index, 0);
    assert!(t.any_ready_checked());
    assert!(!t.is_revealed_checked());
    assert!(!t.is_success_located_any());
    assert!(t.reveal_in_the_end());
    assert!(!t.reveal_in_the_end());
    assert_eq!(t.secret.sector_type, Some(SectorType::Comet));
    assert!(t.is_revealed_checked());
    assert!(t.is_success_located_any());
    assert!(t.is_success_located(SectorType::Comet));
    assert!(!t.is_success_located(SectorType::Nebula));
    t.secret.meeting_index = 4;
    assert!(!t.is_success_located_any());
}

#[test]
fn sector_type_names() {
    assert_eq!(SectorType::Comet.to_string(), "彗星");
    assert_eq!(SectorType::Asteroid.to_string(), "小行星");
    assert_eq!(SectorType::DwarfPlanet.to_string(), "矮行星");
    assert_eq!(SectorType::Nebula.to_string(), "气体云");
    assert_eq!(SectorType::X.to_string(), "X");
    assert_eq!(SectorType::Space.to_string(), "空域");
}
