use rand::rngs::SmallRng;
use rand::SeedableRng;
use xplanet::map::clue::{pick_connection, sector_type_from_roll};
use xplanet::map::{
    check_clue_with_sectors, check_x_space_only, Clue, ClueConnection, ClueEnum, ClueError,
    ClueGenerator, GameMap, MapType, Sector, SectorType, Sectors,
};

fn signature(c: &Clue) -> String {
    c.as_secret()
}

#[test]
fn clues_of_a_game_differ_and_pin_x() {
    for seed in 0..200 {
        let map = GameMap::new(SmallRng::seed_from_u64(seed), MapType::Standard).unwrap();
        let mut cg = ClueGenerator::new(seed, map.sectors.clone(), MapType::Standard);
        assert_eq!(cg.seed(), seed);
        let Ok((clues, xclues)) = cg.generate_clues() else {
            continue;
        };
        assert_eq!(clues.len(), 6);
        assert_eq!(xclues.len(), 1);
        let letters: Vec<_> = clues.iter().map(|c| c.index).collect();
        assert_eq!(
            letters,
            vec![ClueEnum::A, ClueEnum::B, ClueEnum::C, ClueEnum::D, ClueEnum::E, ClueEnum::F]
        );
        assert_eq!(xclues[0].index, ClueEnum::X1);
        assert_eq!(xclues[0].subject, SectorType::X);
        let mut seen = std::collections::HashSet::new();
        for c in clues.iter().chain(xclues.iter()) {
            assert!(check_clue_with_sectors(c, &map.sectors));
            assert!(seen.insert(signature(c)));
            assert_ne!(c.object, SectorType::X);
            match c.conn {
                ClueConnection::AllInRange(k) => assert!((2..=4).contains(&k)),
                ClueConnection::NotInRange(k) => assert!((3..=4).contains(&k)),
                _ => {}
            }
        }
        for c in clues.iter() {
            assert_ne!(c.subject, SectorType::X);
            assert_ne!(c.subject, SectorType::Space);
        }
        assert!(check_x_space_only(&clues, &xclues, &map.sectors).is_empty());
    }
}

#[test]
fn same_seed_same_clues() {
    let map = GameMap::new(SmallRng::seed_from_u64(3), MapType::Expert).unwrap();
    let a = ClueGenerator::new(11, map.sectors.clone(), MapType::Expert).generate_clues();
    let b = ClueGenerator::new(11, map.sectors.clone(), MapType::Expert).generate_clues();
    assert_eq!(a, b);
}

#[test]
fn x_that_cannot_be_told_from_space() {
    // on a ring of two, X and the space look the same from everywhere
    let s = Sectors {
        data: vec![
            Sector { index: 1, sector_type: SectorType::X },
            Sector { index: 2, sector_type: SectorType::Space },
        ],
    };
    let mut cg = ClueGenerator::new(5, s, MapType::Standard);
    assert_eq!(cg.generate_clues().unwrap_err(), ClueError::TooManyAttempts);
}

#[test]
fn rolls_stand_for_types_and_relations() {
    let types: Vec<_> = (0..=5).map(sector_type_from_roll).collect();
    assert_eq!(
        types,
        vec![
            SectorType::Comet,
            SectorType::Asteroid,
            SectorType::DwarfPlanet,
            SectorType::Nebula,
            SectorType::X,
            SectorType::Space
        ]
    );
    assert_eq!(pick_connection(0, 2, 3), ClueConnection::AllAdjacent);
    assert_eq!(pick_connection(-1, 2, 3), ClueConnection::AllAdjacent);
    assert_eq!(pick_connection(99, 2, 3), ClueConnection::AllAdjacent);
    assert_eq!(pick_connection(100, 2, 3), ClueConnection::OneAdjacent);
    assert_eq!(pick_connection(109, 2, 3), ClueConnection::OneAdjacent);
    assert_eq!(pick_connection(110, 2, 3), ClueConnection::NotAdjacent);
    assert_eq!(pick_connection(125, 2, 3), ClueConnection::NotAdjacent);
    assert_eq!(pick_connection(126, 2, 3), ClueConnection::OneOpposite);
    assert_eq!(pick_connection(135, 2, 3), ClueConnection::OneOpposite);
    assert_eq!(pick_connection(136, 2, 3), ClueConnection::NotOpposite);
    assert_eq!(pick_connection(147, 2, 3), ClueConnection::NotOpposite);
    assert_eq!(pick_connection(148, 2, 3), ClueConnection::AllInRange(2));
    assert_eq!(pick_connection(154, 2, 3), ClueConnection::AllInRange(2));
    assert_eq!(pick_connection(155, 2, 3), ClueConnection::NotInRange(3));
    assert_eq!(pick_connection(218, 2, 3), ClueConnection::NotInRange(3));
    // of 219 draws 100 are AllAdjacent and 64 NotInRange
    let all_adjacent = (0..219).filter(|r| pick_connection(*r, 2, 3) == ClueConnection::AllAdjacent).count();
    let not_in_range = (0..219).filter(|r| pick_connection(*r, 2, 3) == ClueConnection::NotInRange(3)).count();
    assert_eq!((all_adjacent, not_in_range), (100, 64));
}
