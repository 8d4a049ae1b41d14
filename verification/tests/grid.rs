use boids::boid::Boid;
use boids::config::ConfigError;
use boids::spatial_grid::SpatialGrid;

fn at(x: i32, y: i32) -> Boid {
    Boid { x, y, dx: 0, dy: 0, color: [255, 255, 255, 128] }
}

fn grid(width: i32, height: i32, cell: i32) -> SpatialGrid {
    match SpatialGrid::new(width, height, cell) {
        Ok(g) => g,
        Err(e) => panic!("no grid: {:?}", e),
    }
}

fn bucket(g: &SpatialGrid, column: usize, row: usize) -> Vec<usize> {
    match g.bucket(column, row) {
        Some(items) => items.clone(),
        None => panic!("no cell {} {}", column, row),
    }
}

fn sorted(mut v: Vec<usize>) -> Vec<usize> {
    v.sort();
    v
}

#[test]
fn grid_covers_the_world() {
    let g = grid(64_000, 64_000, 32_000);
    assert_eq!((g.width(), g.height(), g.cell_size()), (2, 2, 32_000));
    let g = grid(65_000, 64_000, 32_000);
    assert_eq!((g.width(), g.height()), (3, 2));
    let g = grid(1, 1, 32_000);
    assert_eq!((g.width(), g.height()), (1, 1));
    let g = grid(1_280_000, 720_000, 32_000);
    assert_eq!((g.width(), g.height()), (40, 23));
}

#[test]
fn new_grid_is_empty() {
    let g = grid(96_000, 64_000, 32_000);
    for row in 0..2 {
        for column in 0..3 {
            assert_eq!(bucket(&g, column, row), Vec::<usize>::new());
        }
    }
    assert!(g.bucket(3, 0).is_none());
    assert!(g.bucket(0, 2).is_none());
}

#[test]
fn grid_refuses_a_world_that_is_not_positive() {
    assert_eq!(SpatialGrid::new(0, 64_000, 32_000).err(), Some(ConfigError::NonPositiveWorld));
    assert_eq!(SpatialGrid::new(64_000, -1, 32_000).err(), Some(ConfigError::NonPositiveWorld));
    assert_eq!(SpatialGrid::new(0, 0, 0).err(), Some(ConfigError::NonPositiveWorld));
}

#[test]
fn grid_refuses_a_cell_size_that_is_not_positive() {
    assert_eq!(SpatialGrid::new(64_000, 64_000, 0).err(), Some(ConfigError::NonPositiveCellSize));
    assert_eq!(
        SpatialGrid::new(64_000, 64_000, -32_000).err(),
        Some(ConfigError::NonPositiveCellSize)
    );
}

#[test]
fn grid_refuses_too_many_cells() {
    assert_eq!(SpatialGrid::new(i32::MAX, i32::MAX, 1).err(), Some(ConfigError::GridTooLarge));
    // 65536 * 65536 cells is one more than allowed, 65536 * 65535 is fine
    // in number but is not built here for its size.
    assert_eq!(SpatialGrid::new(65_536, 65_536, 1).err(), Some(ConfigError::GridTooLarge));
}

#[test]
fn an_agent_outside_the_world_is_filed_in_the_nearest_cell() {
    let mut g = grid(64_000, 64_000, 32_000);
    g.insert(0, &at(70_000, 70_000));
    assert_eq!(bucket(&g, 1, 1), vec![0]);
    g.insert(1, &at(-5, 10_000));
    g.insert(2, &at(10_000, -70_000));
    assert_eq!(bucket(&g, 0, 0), vec![1, 2]);
    g.insert(3, &at(i32::MAX, i32::MIN));
    assert_eq!(bucket(&g, 1, 0), vec![3]);
    g.insert(4, &at(i32::MIN, i32::MAX));
    assert_eq!(bucket(&g, 0, 1), vec![4]);
}

#[test]
fn agents_are_filed_by_cell_in_order() {
    let mut g = grid(96_000, 64_000, 32_000);
    g.insert(0, &at(0, 0));
    g.insert(1, &at(31_999, 31_999));
    g.insert(2, &at(32_000, 0));
    g.insert(3, &at(95_999, 63_999));
    g.insert(4, &at(5, 5));
    assert_eq!(bucket(&g, 0, 0), vec![0, 1, 4]);
    assert_eq!(bucket(&g, 1, 0), vec![2]);
    assert_eq!(bucket(&g, 2, 1), vec![3]);
    assert_eq!(bucket(&g, 2, 0), Vec::<usize>::new());
}

#[test]
fn clear_empties_every_bucket() {
    let mut g = grid(64_000, 64_000, 32_000);
    g.insert(0, &at(0, 0));
    g.insert(1, &at(40_000, 40_000));
    g.clear();
    assert_eq!((g.width(), g.height(), g.cell_size()), (2, 2, 32_000));
    for row in 0..2 {
        for column in 0..2 {
            assert_eq!(bucket(&g, column, row), Vec::<usize>::new());
        }
    }
    g.insert(7, &at(0, 0));
    assert_eq!(bucket(&g, 0, 0), vec![7]);
}

#[test]
fn candidates_come_row_by_row() {
    let mut g = grid(30, 30, 10);
    g.insert(0, &at(25, 25));
    g.insert(1, &at(5, 5));
    g.insert(2, &at(15, 5));
    g.insert(3, &at(5, 15));
    g.insert(4, &at(6, 6));
    g.insert(5, &at(25, 5));
    assert_eq!(g.get_neighbors(&at(15, 15), 10), vec![1, 4, 2, 5, 3, 0]);
}

#[test]
fn a_query_reaches_the_range_in_cells_plus_one() {
    let mut g = grid(100, 10, 10);
    for i in 0..10 {
        g.insert(i, &at(10 * (i as i32) + 5, 5));
    }
    // a range of up to one cell looks two cells each way
    assert_eq!(g.get_neighbors(&at(45, 5), 10), vec![2, 3, 4, 5, 6]);
    assert_eq!(g.get_neighbors(&at(45, 5), 1), vec![2, 3, 4, 5, 6]);
    // a range of no more than zero looks one cell each way
    assert_eq!(g.get_neighbors(&at(45, 5), 0), vec![3, 4, 5]);
    assert_eq!(g.get_neighbors(&at(45, 5), -30), vec![3, 4, 5]);
    assert_eq!(g.get_neighbors(&at(45, 5), 11), vec![1, 2, 3, 4, 5, 6, 7]);
    assert_eq!(g.get_neighbors(&at(45, 5), i32::MAX), vec![0, 1, 2, 3, 4, 5, 6, 7, 8, 9]);
    // at the edge the square is cut off
    assert_eq!(g.get_neighbors(&at(5, 5), 10), vec![0, 1, 2]);
    assert_eq!(g.get_neighbors(&at(95, 5), 10), vec![7, 8, 9]);
}

#[test]
fn a_query_from_outside_looks_from_the_nearest_cell() {
    let mut g = grid(30, 30, 10);
    g.insert(0, &at(35, 5));
    g.insert(1, &at(25, 5));
    assert_eq!(bucket(&g, 2, 0), vec![0, 1]);
    assert_eq!(g.get_neighbors(&at(35, 5), 10), vec![0, 1]);
    assert_eq!(g.get_neighbors(&at(45, 5), 10), vec![0, 1]);
    assert_eq!(g.get_neighbors(&at(-15, 5), 10), vec![0, 1]);
    // with a reach of one cell the far column is not looked at
    assert_eq!(g.get_neighbors(&at(-15, 5), 0), Vec::<usize>::new());
    assert_eq!(g.get_neighbors(&at(45, 5), 0), vec![0, 1]);
}

#[test]
fn agents_far_outside_the_world_find_each_other() {
    let mut g = grid(64_000, 64_000, 32_000);
    g.insert(0, &at(130_000, 10_000));
    g.insert(1, &at(131_000, 10_000));
    assert_eq!(bucket(&g, 1, 0), vec![0, 1]);
    assert_eq!(g.get_neighbors(&at(130_000, 10_000), 32_000), vec![0, 1]);
    assert_eq!(g.get_neighbors(&at(131_000, 10_000), 1000), vec![0, 1]);
    let mut g = grid(30, 30, 10);
    g.insert(0, &at(95, 5));
    g.insert(1, &at(96, 5));
    g.insert(2, &at(i32::MIN, i32::MAX));
    assert_eq!(g.get_neighbors(&at(95, 5), 10), vec![0, 1, 2]);
    assert_eq!(g.get_neighbors(&at(95, 5), 0), vec![0, 1]);
    assert_eq!(g.get_neighbors(&at(5, -95), 10), vec![0, 1, 2]);
    assert_eq!(g.get_neighbors(&at(i32::MIN, i32::MAX), 0), vec![2]);
    assert_eq!(g.get_neighbors(&at(i32::MAX, i32::MIN), 0), vec![0, 1]);
}

#[test]
fn a_rebuild_files_every_agent_exactly_once() {
    let mut g = grid(100, 70, 10);
    let mut flock = Vec::new();
    let mut seed: u32 = 12345;
    for _ in 0..500 {
        seed = seed.wrapping_mul(1_103_515_245).wrapping_add(12345);
        let x = ((seed >> 8) % 140) as i32 - 20;
        seed = seed.wrapping_mul(1_103_515_245).wrapping_add(12345);
        let y = ((seed >> 8) % 110) as i32 - 20;
        flock.push(at(x, y));
    }
    g.clear();
    for (i, b) in flock.iter().enumerate() {
        g.insert(i, b);
    }
    let mut all = Vec::new();
    for row in 0..g.height() {
        for column in 0..g.width() {
            let items = bucket(&g, column, row);
            for &i in &items {
                let cx = (flock[i].x.div_euclid(10)).clamp(0, 9) as usize;
                let cy = (flock[i].y.div_euclid(10)).clamp(0, 6) as usize;
                assert_eq!((cx, cy), (column, row));
            }
            all.extend(items);
        }
    }
    let everyone: Vec<usize> = (0..500).collect();
    assert_eq!(sorted(all), everyone);
}

#[test]
fn a_query_finds_every_agent_in_range() {
    let mut g = grid(100, 70, 10);
    let mut flock = Vec::new();
    let mut seed: u32 = 99;
    for _ in 0..300 {
        seed = seed.wrapping_mul(1_103_515_245).wrapping_add(12345);
        let x = ((seed >> 8) % 400) as i32 - 150;
        seed = seed.wrapping_mul(1_103_515_245).wrapping_add(12345);
        let y = ((seed >> 8) % 300) as i32 - 120;
        flock.push(at(x, y));
    }
    for (i, b) in flock.iter().enumerate() {
        g.insert(i, b);
    }
    for range in [0, 3, 10] {
        for a in &flock {
            let found = g.get_neighbors(a, range);
            let mut seen = found.clone();
            seen.sort();
            seen.dedup();
            assert_eq!(seen.len(), found.len());
            for (j, b) in flock.iter().enumerate() {
                if a.squared_distance(b) <= (range as i128) * (range as i128) {
                    assert!(found.contains(&j));
                }
            }
        }
    }
}
