use std::collections::{HashMap, HashSet};

use chess_threats::constants::Constants;

#[test]
fn test_get_all_possible_combinations_of_bits_0() {
    let res: Vec<u64> = Constants::get_all_possible_combinations_of_bits(0);
    assert_eq!(res.len(), 1, "There should be exactly 1 item in the vector.");

    let hashset: HashSet<u64> = HashSet::from_iter(res);
    assert!(hashset.contains(&0), "The vector should contain the item 0.");
}

#[test]
fn test_get_all_possible_combinations_of_bits_1() {
    let res: Vec<u64> = Constants::get_all_possible_combinations_of_bits(1);
    assert_eq!(res.len(), 2, "There should be exactly 2 items in the vector.");

    let hashset: HashSet<u64> = HashSet::from_iter(res);
    assert!(hashset.contains(&0), "The vector should contain the item 0.");
    assert!(hashset.contains(&1), "The vector should contain the item 1.");
}

#[test]
fn test_get_all_possible_combinations_of_bits_7() {
    let res: Vec<u64> = Constants::get_all_possible_combinations_of_bits(7);
    assert_eq!(res.len(), 8, "There should be exactly 8 items in the vector.");

    let hashset: HashSet<u64> = HashSet::from_iter(res);
    assert!(hashset.contains(&0), "The vector should contain the item 0.");
    assert!(hashset.contains(&1), "The vector should contain the item 1.");
    assert!(hashset.contains(&2), "The vector should contain the item 2.");
    assert!(hashset.contains(&3), "The vector should contain the item 3.");
    assert!(hashset.contains(&4), "The vector should contain the item 4.");
    assert!(hashset.contains(&5), "The vector should contain the item 5.");
    assert!(hashset.contains(&6), "The vector should contain the item 6.");
    assert!(hashset.contains(&7), "The vector should contain the item 7.");
}

#[test]
fn test_get_all_possible_combinations_of_bits_288() {
    let res: Vec<u64> = Constants::get_all_possible_combinations_of_bits(288);
    assert_eq!(res.len(), 4, "There should be exactly 4 items in the vector.");

    let hashset: HashSet<u64> = HashSet::from_iter(res);
    assert!(hashset.contains(&0), "The vector should contain the item 0.");
    assert!(hashset.contains(&32), "The vector should contain the item 32.");
    assert!(hashset.contains(&256), "The vector should contain the item 256.");
    assert!(hashset.contains(&288), "The vector should contain the item 288.");
}

#[test]
fn test_get_coordinates_from_bit_position() {
    assert_eq!(Constants::get_coordinates_from_bit_position(0), (0, 0), "Bit position 0.");
    assert_eq!(Constants::get_coordinates_from_bit_position(7), (7, 0), "Bit position 7.");
    assert_eq!(Constants::get_coordinates_from_bit_position(14), (6, 1), "Bit position 14.");
    assert_eq!(Constants::get_coordinates_from_bit_position(63), (7, 7), "Bit position 63.");
}

#[test]
fn test_get_bit_position_from_coordinates() {
    assert_eq!(Constants::get_bit_position_from_coordinates(0, 0), 0, "Coordinates (0,0).");
    assert_eq!(Constants::get_bit_position_from_coordinates(7, 0), 7, "Coordinates (7,0).");
    assert_eq!(Constants::get_bit_position_from_coordinates(6, 1), 14, "Coordinates (6,1).");
    assert_eq!(Constants::get_bit_position_from_coordinates(7, 7), 63, "Coordinates (7,7).");
}

#[test]
fn test_coordinate_round_trip_all_squares() {
    for sq in 0..64u64 {
        let (col, row) = Constants::get_coordinates_from_bit_position(sq);
        assert_eq!(Constants::get_bit_position_from_coordinates(col, row), sq);
    }
}

#[test]
fn test_rook_threat_generator() {
    let rook_moves = Constants::get_rook_moves();

    // No other pieces
    assert_eq!(
        Constants::threat_generator(&rook_moves, 0, 0),
        72_340_172_838_076_926,
        "Rook bit position 0, no other pieces."
    );
    assert_eq!(
        Constants::threat_generator(&rook_moves, 7, 0),
        9_259_542_123_273_814_143,
        "Rook bit position 7, no other pieces."
    );
    assert_eq!(
        Constants::threat_generator(&rook_moves, 25, 0),
        144_680_349_887_234_562,
        "Rook bit position 25, no other pieces."
    );

    // Other pieces
    assert_eq!(
        Constants::threat_generator(&rook_moves, 28, 17_592_253_153_280),
        17_664_865_996_816,
        "Rook bit position 28, other pieces."
    );
    assert_eq!(
        Constants::threat_generator(&rook_moves, 4, 4_503_599_627_370_497),
        4_521_260_802_380_015,
        "Rook bit position 4, other pieces."
    );
}

#[test]
fn test_make_rook_threat_hashmap() {
    let table: Vec<HashMap<u64, u64>> = Constants::make_threat_hashmap(&Constants::get_rook_moves());

    // No other pieces
    assert_eq!(
        *table[0].get(&0).unwrap(),
        72_340_172_838_076_926,
        "Rook bit position 0, no other pieces."
    );
    assert_eq!(
        *table[7].get(&0).unwrap(),
        9_259_542_123_273_814_143,
        "Rook bit position 7, no other pieces."
    );
    assert_eq!(
        *table[25].get(&0).unwrap(),
        144_680_349_887_234_562,
        "Rook bit position 25, no other pieces."
    );

    // Other pieces
    assert_eq!(
        *table[28].get(&17_592_253_153_280).unwrap(),
        17_664_865_996_816,
        "Rook bit position 28, other pieces."
    );
    assert_eq!(
        *table[4].get(&4_503_599_627_370_497).unwrap(),
        4_521_260_802_380_015,
        "Rook bit position 4, other pieces."
    );
}

#[test]
fn test_bishop_threat_generator() {
    let bishop_moves = Constants::get_bishop_moves();

    // No other pieces
    assert_eq!(
        Constants::threat_generator(&bishop_moves, 0, 0),
        9_241_421_688_590_303_744,
        "Bishop bit position 0, no other pieces."
    );
    assert_eq!(
        Constants::threat_generator(&bishop_moves, 63, 0),
        18_049_651_735_527_937,
        "Bishop bit position 63, no other pieces."
    );

    // Other pieces
    assert_eq!(
        Constants::threat_generator(&bishop_moves, 12, 67_108_864),
        550_899_286_056,
        "Bishop bit position 12, other pieces."
    );
    assert_eq!(
        Constants::threat_generator(&bishop_moves, 14, 34_368_126_976),
        34_638_659_744,
        "Bishop bit position 14 other pieces."
    );
}

#[test]
fn test_make_bishop_threat_hashmap() {
    let table: Vec<HashMap<u64, u64>> =
        Constants::make_threat_hashmap(&Constants::get_bishop_moves());

    // No other pieces
    assert_eq!(
        *table[0].get(&0).unwrap(),
        9_241_421_688_590_303_744,
        "Bishop bit position 0, no other pieces."
    );
    assert_eq!(
        *table[63].get(&0).unwrap(),
        18_049_651_735_527_937,
        "Bishop bit position 63, no other pieces."
    );

    // Other pieces
    assert_eq!(
        *table[12].get(&67_108_864).unwrap(),
        550_899_286_056,
        "Bishop bit position 12, other pieces."
    );
    assert_eq!(
        *table[14].get(&34_368_126_976).unwrap(),
        34_638_659_744,
        "Bishop bit position 14, other pieces."
    );
}

#[test]
fn test_knight_threat_generator() {
    let knight_moves = Constants::get_knight_moves();

    // No other pieces
    assert_eq!(
        Constants::threat_generator(&knight_moves, 0, 0),
        132_096,
        "Knight bit position 0, no other pieces."
    );
    assert_eq!(
        Constants::threat_generator(&knight_moves, 28, 0),
        44_272_527_353_856,
        "Knight bit position 28, no other pieces."
    );

    // Other pieces
    assert_eq!(
        Constants::threat_generator(&knight_moves, 0, 131_072),
        132_096,
        "Knight bit position 0, other pieces."
    );
    assert_eq!(
        Constants::threat_generator(&knight_moves, 28, 43_980_469_315_584),
        44_272_527_353_856,
        "Knight bit position 28, other pieces."
    );
}

#[test]
fn test_make_knight_threat_hashmap() {
    let table: Vec<HashMap<u64, u64>> =
        Constants::make_threat_hashmap(&Constants::get_knight_moves());

    // No other pieces
    assert_eq!(*table[0].get(&0).unwrap(), 132_096, "Knight bit position 0, no other pieces.");
    assert_eq!(
        *table[28].get(&0).unwrap(),
        44_272_527_353_856,
        "Knight bit position 28, no other pieces."
    );

    // Other pieces
    assert_eq!(
        *table[0].get(&131_072).unwrap(),
        132_096,
        "Knight bit position 0, other pieces."
    );
    assert_eq!(
        *table[28].get(&43_980_469_315_584).unwrap(),
        44_272_527_353_856,
        "Knight bit position 28, other pieces."
    );
}

#[test]
fn test_king_threat_generator() {
    let king_moves = Constants::get_king_moves();

    // No other pieces
    assert_eq!(
        Constants::threat_generator(&king_moves, 0, 0),
        770,
        "King bit position 0, no other pieces."
    );
    assert_eq!(
        Constants::threat_generator(&king_moves, 14, 0),
        14_721_248,
        "King bit position 14, no other pieces."
    );

    // Other pieces
    assert_eq!(
        Constants::threat_generator(&king_moves, 0, 2),
        770,
        "King bit position 0, other pieces."
    );
    assert_eq!(
        Constants::threat_generator(&king_moves, 14, 10_526_720),
        14_721_248,
        "King bit position 0, other pieces."
    );
}

#[test]
fn test_make_king_threat_hashmap() {
    let table: Vec<HashMap<u64, u64>> = Constants::make_threat_hashmap(&Constants::get_king_moves());

    // No other pieces
    assert_eq!(*table[0].get(&0).unwrap(), 770, "King bit position 0, no other pieces.");
    assert_eq!(
        *table[14].get(&0).unwrap(),
        14_721_248,
        "King bit position 14, no other pieces."
    );

    // Other pieces
    assert_eq!(*table[0].get(&2).unwrap(), 770, "King bit position 0, other pieces.");
    assert_eq!(
        *table[14].get(&10_526_720).unwrap(),
        14_721_248,
        "King bit position 0, other pieces."
    );
}

#[test]
fn test_make_attack_mask_hashmap_matches_generator() {
    let rook_moves = Constants::get_rook_moves();
    let masks: HashMap<u64, u64> = Constants::make_attack_mask_hashmap(&rook_moves);
    assert_eq!(masks.len(), 64);
    for sq in 0..64u64 {
        assert_eq!(*masks.get(&sq).unwrap(), Constants::threat_generator(&rook_moves, sq, 0));
    }
}

#[test]
fn test_threat_hashmap_covers_all_subsets() {
    let knight_moves = Constants::get_knight_moves();
    let table: Vec<HashMap<u64, u64>> = Constants::make_threat_hashmap(&knight_moves);
    assert_eq!(table.len(), 64);
    let mask = Constants::threat_generator(&knight_moves, 28, 0);
    let subsets = Constants::get_all_possible_combinations_of_bits(mask);
    assert_eq!(subsets.len(), 1usize << mask.count_ones());
    for subset in subsets {
        assert!(
            table[28].contains_key(&subset),
            "Every subset of the base mask should have a threat entry."
        );
    }
}

#[test]
fn test_board_choose_n_all_combinations_1() {
    let res: Vec<u64> = Constants::board_choose_n_all_combinations(1);

    assert_eq!(res.len(), 64, "Correct length check.");

    let mut res_clone = res.clone();
    res_clone.sort();
    res_clone.dedup();
    assert_eq!(res_clone.len(), res.len(), "No duplicate check");

    for item in res {
        assert_eq!(item.count_ones(), 1, "Correct number of ones check.");
    }
}

#[test]
fn test_board_choose_n_all_combinations_2() {
    let res: Vec<u64> = Constants::board_choose_n_all_combinations(2);

    assert_eq!(res.len(), 2_016, "Correct length check.");

    let mut res_clone = res.clone();
    res_clone.sort();
    res_clone.dedup();
    assert_eq!(res_clone.len(), res.len(), "No duplicate check");

    for item in res {
        assert_eq!(item.count_ones(), 2, "Correct number of ones check.");
    }
}

#[test]
fn test_board_choose_n_all_combinations_3() {
    let res: Vec<u64> = Constants::board_choose_n_all_combinations(3);

    assert_eq!(res.len(), 41_664, "Correct length check.");

    let mut res_clone = res.clone();
    res_clone.sort();
    res_clone.dedup();
    assert_eq!(res_clone.len(), res.len(), "No duplicate check");

    for item in res {
        assert_eq!(item.count_ones(), 3, "Correct number of ones check.");
    }
}

#[test]
fn test_find_bit_positions_from_num() {
    let num = (1 << 10) + (1 << 5) + (1 << 60);
    let res = Constants::find_bit_positions_from_num(num);

    assert_eq!(res.len(), 3, "Should contain 3 items.");
    assert!(res.contains(&10), "Should contain 10.");
    assert!(res.contains(&5), "Should contain 5.");
    assert!(res.contains(&60), "Should contain 60.");
}

#[test]
fn test_find_bit_positions_edge_values() {
    assert!(Constants::find_bit_positions_from_num(0).is_empty());

    let all = Constants::find_bit_positions_from_num(u64::MAX);
    assert_eq!(all.len(), 64);
    for (expected, position) in all.into_iter().enumerate() {
        assert_eq!(position, expected as u64, "Positions come out in increasing order.");
    }
}

#[test]
fn test_make_num_to_bit_positions_hashmap() {
    let hashmap: HashMap<u64, Vec<u64>> = Constants::make_num_to_bit_positions_hashmap(3);

    let num = (1 << 5) + (1 << 8) + (1 << 55);
    let res = hashmap.get(&num).unwrap();

    assert_eq!(res.len(), 3, "Should contain 3 items.");
    assert!(res.contains(&5), "Should contain 5.");
    assert!(res.contains(&8), "Should contain 8.");
    assert!(res.contains(&55), "Should contain 55.");

    assert!(!hashmap.contains_key(&0), "Should not contain 0.");

    let num = (1 << 0) + (1 << 15);
    let res = hashmap.get(&num).unwrap();

    assert_eq!(res.len(), 2, "Should contain 2 items.");
    assert!(res.contains(&0), "Should contain 0.");
    assert!(res.contains(&15), "Should contain 15.");
}
