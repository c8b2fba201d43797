use rand::rngs::SmallRng;
use rand::{RngCore, SeedableRng};
use std::collections::BTreeMap;
use xplanet::map::{
    check_sectors_rules, check_x_space_only, ClueConnection, ClueGenerator, GameMap, MapEnumerator,
    MapGenerator, MapType, Sectors,
};

#[test]
fn test_generator() {
    for seed in 0..100000 {
        let mut g = MapGenerator::new(SmallRng::seed_from_u64(seed), &MapType::Expert);
        let r = g.generate_sectors();
        assert!(r.is_ok());
        let r = r.unwrap();
        assert!(check_sectors_rules(&Sectors { data: r }, &MapType::Expert));
    }
}

#[test]
fn generator_draws_small_boards_too() {
    for seed in 0..2000 {
        let map = GameMap::new(SmallRng::seed_from_u64(seed), MapType::Standard).unwrap();
        assert_eq!(map.size(), 12);
        assert!(check_sectors_rules(&map.sectors, &MapType::Standard));
        assert!(!check_sectors_rules(&map.sectors, &MapType::Expert));
    }
}

#[test]
fn same_seed_same_map() {
    let a = GameMap::new(SmallRng::seed_from_u64(7), MapType::Expert).unwrap();
    let b = GameMap::new(SmallRng::seed_from_u64(7), MapType::Expert).unwrap();
    let types = |m: &GameMap| m.sectors.data.iter().map(|s| s.sector_type).collect::<Vec<_>>();
    assert_eq!(types(&a), types(&b));
}

#[test]
fn test_clue() {
    let mut sum = 0;
    let mut last_failed_seed = 0;
    let mut clue_type_sum = BTreeMap::new();
    for i in 0..=6 {
        clue_type_sum.insert(i, 0);
    }
    for seed in 0..300 {
        let mut rng = SmallRng::seed_from_u64(seed);
        loop {
            let map = GameMap::new(rng.clone(), MapType::Expert).unwrap();
            let mut cg = ClueGenerator::new(seed, map.sectors.clone(), map.map_type.clone());
            if let Ok((clues, xclues)) = cg.generate_clues() {
                for clue in clues.iter() {
                    let index = match clue.conn {
                        ClueConnection::AllAdjacent => 0,
                        ClueConnection::OneAdjacent => 1,
                        ClueConnection::NotAdjacent => 2,
                        ClueConnection::OneOpposite => 3,
                        ClueConnection::NotOpposite => 4,
                        ClueConnection::AllInRange(_) => 5,
                        ClueConnection::NotInRange(_) => 6,
                    };
                    let count = clue_type_sum.entry(index).or_insert(0);
                    *count += 1;
                }
                assert_eq!(clues.len(), 6);
                assert_eq!(xclues.len(), 2);
                assert!(check_x_space_only(&clues, &xclues, &map.sectors).is_empty());
                break;
            } else {
                println!("failed at seed {}", seed);
                sum += 1;
                last_failed_seed = seed;
                rng.next_u32(); // next seed
            }
        }
    }
    println!("failed sum: {}", sum);
    println!("last failed seed: {}", last_failed_seed);
    for (i, count) in clue_type_sum.iter() {
        println!("clue type {}: {}", i, count);
    }
}

#[test]
fn every_layout_of_the_small_board_keeps_the_rules() {
    let g = MapEnumerator::new();
    let mut it = g.gen_sec(&MapType::Standard);
    let mut seen = 0;
    while let Some(s) = it.next() {
        assert!(check_sectors_rules(&s, &MapType::Standard));
        seen += 1;
    }
    assert_eq!(seen, 4446);
}

#[test]
fn layouts_of_the_large_board_keep_the_rules() {
    let g = MapEnumerator::new();
    let mut it = g.gen_sec(&MapType::Expert);
    let mut seen = 0;
    while let Some(s) = it.nth(97) {
        assert!(check_sectors_rules(&s, &MapType::Expert));
        seen += 1;
    }
    assert_eq!(seen, 1138272 / 98);
}

#[test]
fn every_drawn_map_is_enumerated() {
    let g = MapEnumerator::new();
    let mut all = std::collections::HashSet::new();
    let mut it = g.gen_sec(&MapType::Standard);
    while let Some(s) = it.next() {
        let types: Vec<_> = s.data.iter().map(|x| x.sector_type).collect();
        assert!(all.insert(types));
    }
    for seed in 0..500 {
        let map = GameMap::new(SmallRng::seed_from_u64(seed), MapType::Standard).unwrap();
        let types: Vec<_> = map.sectors.data.iter().map(|x| x.sector_type).collect();
        assert!(all.contains(&types));
    }
}
