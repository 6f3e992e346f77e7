use tileworld::light::{create_fade_map_base, create_light_map_base, fill_light_map, FADE_MIN, LIGHT_MAX};

#[test]
fn light_map_base_has_bright_border_and_dark_interior() {
    let m = create_light_map_base(5, 4);
    assert_eq!(m.len(), 20);
    for y in 0..4usize {
        for x in 0..5usize {
            let v = m[x + y * 5];
            if x == 0 || x == 4 || y == 0 || y == 3 {
                assert_eq!(v, LIGHT_MAX);
            } else {
                assert_eq!(v, 0);
            }
        }
    }
}

#[test]
fn fade_map_base_is_all_minimum() {
    let m = create_fade_map_base(6, 3);
    assert_eq!(m.len(), 18);
    for v in &m {
        assert_eq!(*v, FADE_MIN);
    }
}

#[test]
fn center_seed_spreads_to_neighbors_and_diagonals() {
    // A 3x3 open chunk inside a 5x5 window: the center cell seeds at the
    // brightness cap; its four neighbours lose one fade step, the diagonals
    // two.
    let mut light = create_light_map_base(5, 5);
    let fade = create_fade_map_base(5, 5);
    light[12] = LIGHT_MAX;
    fill_light_map(5, &mut light, &fade, vec![12u16]);
    assert_eq!(light[12], 40);
    assert_eq!(light[7], 39);
    assert_eq!(light[11], 39);
    assert_eq!(light[13], 39);
    assert_eq!(light[17], 39);
    assert_eq!(light[6], 38);
    assert_eq!(light[8], 38);
    assert_eq!(light[16], 38);
    assert_eq!(light[18], 38);
}

#[test]
fn propagation_is_idempotent() {
    let mut light = create_light_map_base(7, 7);
    let fade = create_fade_map_base(7, 7);
    light[24] = LIGHT_MAX;
    fill_light_map(7, &mut light, &fade, vec![24u16]);
    let once = light.clone();
    fill_light_map(7, &mut light, &fade, vec![24u16]);
    assert_eq!(light, once);
}

#[test]
fn brightness_never_exceeds_the_seed() {
    let mut light = create_light_map_base(9, 9);
    let fade = create_fade_map_base(9, 9);
    light[40] = 25;
    fill_light_map(9, &mut light, &fade, vec![40u16]);
    for y in 1..8usize {
        for x in 1..8usize {
            let v = light[x + y * 9];
            assert!(v <= LIGHT_MAX);
            if !(x == 0 || x == 8 || y == 0 || y == 8) {
                assert!(v <= 25);
            }
        }
    }
}

#[test]
fn strong_fade_blocks_propagation() {
    let mut light = create_light_map_base(5, 5);
    let mut fade = create_fade_map_base(5, 5);
    for c in fade.iter_mut() {
        *c = 12;
    }
    light[12] = 13;
    fill_light_map(5, &mut light, &fade, vec![12u16]);
    assert_eq!(light[7], 1);
    assert_eq!(light[6], 0);
}
