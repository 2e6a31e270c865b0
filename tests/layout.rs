use sph_fluid::layout::{ceil_sqrt, layout_dims, layout_offsets, layout_slots};

#[test]
fn ceil_sqrt_exact_values() {
    assert_eq!(ceil_sqrt(0), 0);
    assert_eq!(ceil_sqrt(1), 1);
    assert_eq!(ceil_sqrt(2), 2);
    assert_eq!(ceil_sqrt(4), 2);
    assert_eq!(ceil_sqrt(5), 3);
    assert_eq!(ceil_sqrt(100), 10);
    assert_eq!(ceil_sqrt(101), 11);
    assert_eq!(ceil_sqrt(4000), 64);
}

#[test]
fn hundred_particles_form_ten_by_ten() {
    assert_eq!(layout_dims(100), (10, 10));
    let slots = layout_slots(100);
    assert_eq!(slots.len(), 100);
    assert_eq!(slots[0], (0, 0));
    assert_eq!(slots[9], (9, 0));
    assert_eq!(slots[10], (0, 1));
    assert_eq!(slots[99], (9, 9));
}

#[test]
fn hundred_particle_layout_is_centred_at_origin() {
    let offsets = layout_offsets(100);
    assert_eq!(offsets.len(), 100);
    assert_eq!(offsets[0], (-9, -9));
    assert_eq!(offsets[1], (-7, -9));
    assert_eq!(offsets[99], (9, 9));
    let sx: i64 = offsets.iter().map(|o| o.0).sum();
    let sy: i64 = offsets.iter().map(|o| o.1).sum();
    assert_eq!((sx, sy), (0, 0));
    for o in &offsets {
        assert!(offsets.contains(&(-o.0, -o.1)));
    }
}

#[test]
fn default_particle_count_layout() {
    assert_eq!(layout_dims(4000), (64, 63));
    let slots = layout_slots(4000);
    assert_eq!(slots[3999], (3999 % 64, 3999 / 64));
    assert_eq!(slots[3999], (31, 62));
}

#[test]
fn partial_last_row_skips_missing_slots() {
    assert_eq!(layout_dims(10), (4, 3));
    let slots = layout_slots(10);
    assert_eq!(slots.len(), 10);
    assert_eq!(slots[8], (0, 2));
    assert_eq!(slots[9], (1, 2));
    let offsets = layout_offsets(10);
    assert_eq!(offsets[0], (-3, -2));
    assert_eq!(offsets[9], (-1, 2));
}

#[test]
fn tiny_layouts() {
    assert_eq!(layout_dims(0), (0, 0));
    assert!(layout_slots(0).is_empty());
    assert!(layout_offsets(0).is_empty());
    assert_eq!(layout_dims(1), (1, 1));
    assert_eq!(layout_offsets(1), vec![(0, 0)]);
    assert_eq!(layout_dims(2), (2, 1));
    assert_eq!(layout_offsets(2), vec![(-1, 0), (1, 0)]);
}
