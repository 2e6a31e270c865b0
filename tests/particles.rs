use sph_fluid::particles::ParticleSet;
use sph_fluid::layout::layout_offsets;

#[test]
fn new_set_is_at_rest_with_cleared_fields() {
    let positions = vec![(1.0f32, 2.0f32), (-3.5, 4.25), (0.0, 0.0)];
    let set = ParticleSet::new(positions.clone(), (0.0f32, 0.0f32), 0.0f32);
    assert_eq!(set.len(), 3);
    assert_eq!(set.positions, positions);
    assert_eq!(set.velocities, vec![(0.0, 0.0); 3]);
    assert_eq!(set.forces, vec![(0.0, 0.0); 3]);
    assert_eq!(set.densities, vec![0.0; 3]);
    assert_eq!(set.pressures, vec![0.0; 3]);
}

#[test]
fn reset_replaces_every_array() {
    let mut set = ParticleSet::new(vec![(1i64, 1i64), (2, 2)], (0i64, 0i64), 0i64);
    set.velocities[0] = (5, -5);
    set.forces[1] = (7, 7);
    set.densities[0] = 9;
    set.pressures[1] = -3;
    set.reset(vec![(10, 10), (20, 20)], (0, 0), 0);
    assert_eq!(set.positions, vec![(10, 10), (20, 20)]);
    assert_eq!(set.velocities, vec![(0, 0), (0, 0)]);
    assert_eq!(set.forces, vec![(0, 0), (0, 0)]);
    assert_eq!(set.densities, vec![0, 0]);
    assert_eq!(set.pressures, vec![0, 0]);
}

#[test]
fn reset_to_a_new_count_resizes_all_arrays() {
    let mut set = ParticleSet::new(vec![(1i32, 1i32); 5], (0, 0), 0i32);
    set.reset(vec![(4, 4); 500], (0, 0), 0);
    assert_eq!(set.len(), 500);
    assert_eq!(set.velocities.len(), 500);
    assert_eq!(set.forces.len(), 500);
    assert_eq!(set.densities.len(), 500);
    assert_eq!(set.pressures.len(), 500);
    set.reset(Vec::new(), (0, 0), 0);
    assert_eq!(set.len(), 0);
    assert!(set.velocities.is_empty() && set.pressures.is_empty());
}

#[test]
fn grid_layout_positions_in_a_particle_set() {
    let spacing = 20.0f32;
    let positions: Vec<(f32, f32)> = layout_offsets(100)
        .into_iter()
        .map(|(x, y)| (x as f32 * spacing / 2.0, y as f32 * spacing / 2.0))
        .collect();
    let set = ParticleSet::new(positions, (0.0f32, 0.0f32), 0.0f32);
    assert_eq!(set.len(), 100);
    assert_eq!(set.positions[0], (-90.0, -90.0));
    assert_eq!(set.positions[99], (90.0, 90.0));
    assert_eq!(set.positions[11], (-70.0, -70.0));
    assert!(set.velocities.iter().all(|v| *v == (0.0, 0.0)));
}
