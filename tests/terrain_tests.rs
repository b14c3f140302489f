use lsystem_scene::terrain::place_pos_on_heightmap;

#[test]
fn no_rounds_stays_put() {
    assert_eq!(place_pos_on_heightmap(&vec![5], 0), (0, 0));
}

#[test]
fn one_round_takes_highest_probe() {
    assert_eq!(place_pos_on_heightmap(&vec![1, 2, 3, 4], 1), (1, 1));
    assert_eq!(place_pos_on_heightmap(&vec![1, 2, 3, 0], 1), (1, 0));
    assert_eq!(place_pos_on_heightmap(&vec![1, 2, 0, 0], 1), (0, 1));
}

#[test]
fn peak_at_start_stays() {
    assert_eq!(place_pos_on_heightmap(&vec![5, 1, 1, 1], 1), (0, 0));
    assert_eq!(place_pos_on_heightmap(&vec![5, 5, 5, 5], 1), (0, 0));
}

#[test]
fn ties_keep_earlier_probe() {
    assert_eq!(place_pos_on_heightmap(&vec![1, 3, 3, 2], 1), (0, 1));
}

#[test]
fn ramp_is_climbed_one_step_per_round() {
    let rounds: u32 = 9;
    let side = rounds as usize + 1;
    let mut h = Vec::new();
    for a in 0..side {
        for b in 0..side {
            h.push((a + b) as u32);
        }
    }
    assert_eq!(place_pos_on_heightmap(&h, rounds), (9, 9));
    let mut flat_x = Vec::new();
    for a in 0..side {
        for b in 0..side {
            flat_x.push((2 * b + side - a) as u32);
        }
    }
    assert_eq!(place_pos_on_heightmap(&flat_x, rounds), (0, 9));
}
