use sph_fluid::grid::SpatialGrid;

fn domain_grid() -> SpatialGrid {
    SpatialGrid::new(1280, 720, 25)
}

fn sample_points() -> Vec<(i64, i64)> {
    vec![
        (0, 0),
        (10, 5),
        (-630, -350),
        (630, 350),
        (24, 0),
        (25, 0),
        (-1, -1),
        (0, 0),
        (5000, -5000),
        (-5000, 5000),
    ]
}

#[test]
fn new_grid_covers_domain_with_padding() {
    let g = domain_grid();
    assert_eq!(g.cell_size, 25);
    assert_eq!(g.width_cells, 56);
    assert_eq!(g.height_cells, 33);
    assert_eq!(g.offset_x, 690);
    assert_eq!(g.offset_y, 410);
    assert_eq!(g.buckets.len(), 56 * 33);
    assert!(g.buckets.iter().all(|b| b.is_empty()));
    assert!(g.particle_cells.is_empty());
}

#[test]
fn new_grid_rounds_partial_cells_up() {
    let g = SpatialGrid::new(100, 30, 40);
    assert_eq!(g.width_cells, 3 + 4);
    assert_eq!(g.height_cells, 1 + 4);
    assert_eq!(g.offset_x, 50 + 80);
    assert_eq!(g.offset_y, 15 + 80);
}

#[test]
fn cell_coords_floor_and_clamp() {
    let g = domain_grid();
    assert_eq!(g.cell_coords(0, 0), (27, 16));
    assert_eq!(g.cell_coords(9, 14), (27, 16));
    assert_eq!(g.cell_coords(10, 15), (28, 17));
    assert_eq!(g.cell_coords(-690, -410), (0, 0));
    assert_eq!(g.cell_coords(-691, -411), (0, 0));
    assert_eq!(g.cell_coords(-100000, -100000), (0, 0));
    assert_eq!(g.cell_coords(100000, 100000), (55, 32));
    assert_eq!(g.cell_coords(i64::MAX, i64::MIN), (55, 0));
    assert_eq!(g.cell_index(3, 2), 2 * 56 + 3);
    assert_eq!(g.cell_of_point(0, 0), 16 * 56 + 27);
}

#[test]
fn rebuild_puts_every_particle_in_exactly_one_bucket() {
    let mut g = domain_grid();
    let pts = sample_points();
    g.rebuild(&pts);
    let mut seen = vec![0usize; pts.len()];
    for (c, b) in g.buckets.iter().enumerate() {
        for w in b.windows(2) {
            assert!(w[0] < w[1]);
        }
        for &i in b {
            assert!(i < pts.len());
            seen[i] += 1;
            assert_eq!(g.cell_of_point(pts[i].0, pts[i].1), c);
            assert_eq!(g.particle_cells[i], c);
        }
    }
    assert!(seen.iter().all(|&n| n == 1));
    let total: usize = g.buckets.iter().map(|b| b.len()).sum();
    assert_eq!(total, pts.len());
}

#[test]
fn rebuild_groups_shared_cells_in_index_order() {
    let mut g = domain_grid();
    let pts = sample_points();
    g.rebuild(&pts);
    let centre = g.cell_of_point(0, 0);
    assert_eq!(g.buckets[centre], vec![0, 6, 7]);
    assert_eq!(g.buckets[g.cell_of_point(10, 5)], vec![1, 4, 5]);
    assert_eq!(g.buckets[g.cell_of_point(-5000, -5000)], Vec::<usize>::new());
    assert_eq!(g.buckets[g.cell_of_point(-5000, 5000)], vec![9]);
    assert_eq!(g.buckets[g.cell_of_point(5000, -5000)], vec![8]);
}

#[test]
fn rebuild_clears_previous_contents() {
    let mut g = domain_grid();
    g.rebuild(&sample_points());
    let fewer = vec![(100, 100), (-100, -100)];
    g.rebuild(&fewer);
    let total: usize = g.buckets.iter().map(|b| b.len()).sum();
    assert_eq!(total, 2);
    assert_eq!(g.particle_cells.len(), 2);
    assert_eq!(g.buckets[g.cell_of_point(100, 100)], vec![0]);
    assert_eq!(g.buckets[g.cell_of_point(-100, -100)], vec![1]);
}

#[test]
fn rebuild_with_no_particles_leaves_every_bucket_empty() {
    let mut g = domain_grid();
    g.rebuild(&sample_points());
    g.rebuild(&Vec::new());
    assert!(g.buckets.iter().all(|b| b.is_empty()));
    assert!(g.particle_cells.is_empty());
}

#[test]
fn neighbors_contain_every_particle_within_smoothing_radius() {
    let mut g = SpatialGrid::new(1280, 720, 20);
    let mut pts = Vec::new();
    for k in 0..200i64 {
        pts.push(((k * 37) % 600 - 300, (k * 53) % 340 - 170));
    }
    g.rebuild(&pts);
    let h = 20i64;
    for i in 0..pts.len() {
        let near = g.neighbors_near(pts[i].0, pts[i].1);
        for j in 0..pts.len() {
            let dx = pts[i].0 - pts[j].0;
            let dy = pts[i].1 - pts[j].1;
            if dx * dx + dy * dy < h * h {
                assert!(near.contains(&j), "particle {} misses neighbour {}", i, j);
            }
        }
        let mut sorted = near.clone();
        sorted.sort();
        sorted.dedup();
        assert_eq!(sorted.len(), near.len());
    }
}

#[test]
fn neighbors_skip_cells_beyond_the_block() {
    let mut g = domain_grid();
    let pts = vec![(0, 0), (26, 0), (60, 0), (0, -60), (-10, 20)];
    g.rebuild(&pts);
    let near = g.neighbors_near(0, 0);
    assert_eq!(near, vec![0, 1, 4]);
}

#[test]
fn neighbors_at_grid_corner_use_cells_inside_only() {
    let mut g = domain_grid();
    let pts = vec![(-690, -410), (-660, -380), (-640, -360)];
    g.rebuild(&pts);
    assert_eq!(g.neighbors_near(-100000, -100000), vec![0, 1]);
    assert!(g.neighbors_near(100000, 100000).is_empty());
}
