use chipscraft::level::{Level, GenerationType, SaveType};

fn empty_level(sx: i16, sy: i16, sz: i16) -> Level {
    let mut l = Level::new(String::from("test"));
    l.generate(sx, sy, sz, GenerationType::Empty, 0).unwrap();
    l
}

#[test]
fn generate_rejects_negative_sizes() {
    let mut l = Level::new(String::from("test"));
    let r = l.generate(-1, 16, 16, GenerationType::Empty, 0);
    assert_eq!(r, Err(String::from("impossible size")));
}

#[test]
fn generate_empty_is_all_air() {
    let l = empty_level(8, 8, 8);
    for x in 0..8 {
        for y in 0..8 {
            for z in 0..8 {
                assert_eq!(l.get_block(x, y, z), 0);
            }
        }
    }
}

#[test]
fn generate_flat_layers() {
    let mut l = Level::new(String::from("flat"));
    l.generate(16, 16, 16, GenerationType::Flat, 0).unwrap();
    // floor = 8: lava at 0, stone below 5, dirt below 8, grass at 8, air above
    assert_eq!(l.get_block(3, 0, 3), 10);
    assert_eq!(l.get_block(3, 1, 3), 1);
    assert_eq!(l.get_block(3, 4, 3), 1);
    assert_eq!(l.get_block(3, 5, 3), 3);
    assert_eq!(l.get_block(3, 7, 3), 3);
    assert_eq!(l.get_block(3, 8, 3), 2);
    assert_eq!(l.get_block(3, 9, 3), 0);
    assert_eq!(l.get_block(3, 15, 3), 0);
}

#[test]
fn every_block_byte_stays_catalogued() {
    let mut l = Level::new(String::from("cat"));
    l.generate(16, 16, 16, GenerationType::Flat, 0).unwrap();
    l.set_block(5, 9, 5, 44);
    l.place_block(5, 10, 5, 12);
    l.flood_fill(0, 15, 0, 9);
    for x in 0..16 {
        for y in 0..16 {
            for z in 0..16 {
                assert!(l.get_block(x, y, z) < 50);
            }
        }
    }
}

#[test]
fn slab_on_slab_becomes_double_slab() {
    let mut l = empty_level(16, 16, 16);
    l.set_block(5, 9, 5, 1);
    l.set_block(5, 10, 5, 44);
    // placing the second slab into the cell above the existing one
    let changes = l.place_block(5, 11, 5, 44);
    assert_eq!(changes, vec![(5, 10, 5, 43)]);
    assert_eq!(l.get_block(5, 10, 5), 43);
    assert_eq!(l.get_block(5, 11, 5), 0);
}

#[test]
fn slab_on_stone_stays_a_slab() {
    let mut l = empty_level(16, 16, 16);
    l.set_block(5, 9, 5, 1);
    let changes = l.place_block(5, 10, 5, 44);
    assert_eq!(changes, vec![(5, 10, 5, 44)]);
    assert_eq!(l.get_block(5, 10, 5), 44);
}

#[test]
fn sand_sinks_through_fluid() {
    let mut l = empty_level(16, 16, 16);
    l.set_block(5, 3, 5, 1);
    l.set_block(5, 4, 5, 9);
    // (5,5,5) is air; the sand placed there settles on the stone floor
    let changes = l.place_block(5, 5, 5, 12);
    assert_eq!(changes, vec![(5, 4, 5, 12)]);
    assert_eq!(l.get_block(5, 4, 5), 12);
    assert_eq!(l.get_block(5, 5, 5), 0);
}

#[test]
fn fluid_placed_under_sand_lets_it_fall() {
    let mut l = empty_level(16, 16, 16);
    l.set_block(5, 0, 5, 1);
    l.set_block(5, 5, 5, 12);
    l.set_block(5, 6, 5, 12);
    // breaking the support below the sand column: air is fluid
    let changes = l.place_block(5, 4, 5, 0);
    // the column falls to rest on the stone floor at y=1..2
    assert_eq!(l.get_block(5, 1, 5), 12);
    assert_eq!(l.get_block(5, 2, 5), 12);
    assert_eq!(l.get_block(5, 5, 5), 0);
    assert_eq!(l.get_block(5, 6, 5), 0);
    assert!(changes.contains(&(5, 1, 5, 12)));
    assert!(changes.contains(&(5, 2, 5, 12)));
    assert!(changes.contains(&(5, 5, 5, 0)));
    assert!(changes.contains(&(5, 6, 5, 0)));
}

#[test]
fn flood_fill_replaces_connected_air_only() {
    let mut l = empty_level(4, 2, 4);
    l.set_block(1, 0, 1, 1);
    l.flood_fill(0, 0, 0, 9);
    assert_eq!(l.get_block(1, 0, 1), 1);
    assert_eq!(l.get_block(0, 0, 0), 9);
    assert_eq!(l.get_block(3, 0, 3), 9);
    // water never spreads upward
    assert_eq!(l.get_block(0, 1, 0), 0);
}

#[test]
fn reset_spawn_centers_over_terrain() {
    let mut l = Level::new(String::from("sp"));
    l.generate(16, 16, 16, GenerationType::Flat, 0).unwrap();
    assert_eq!(l.spawn_x, 16 * 16 + 16);
    assert_eq!(l.spawn_z, 16 * 16 + 16);
    // the highest block of the middle column is the grass at y == 8
    assert_eq!(l.spawn_y, 8 * 32 + 61);
}

#[test]
fn max_y_of_empty_column_is_29() {
    let mut l = empty_level(8, 8, 8);
    assert_eq!(l.max_y(3, 3), 29);
}

#[test]
fn is_space_for_tree_wants_air() {
    let mut l = empty_level(16, 16, 16);
    assert!(l.is_space_for_tree(8, 2, 8, 5));
    l.set_block(8, 3, 8, 1);
    assert!(!l.is_space_for_tree(8, 2, 8, 5));
    // out of bounds is no space either
    assert!(!l.is_space_for_tree(0, 2, 8, 5));
}

#[test]
fn grow_tree_builds_trunk_and_leaves() {
    let mut l = empty_level(16, 16, 16);
    let corners = vec![false; 16];
    l.grow_tree(8, 2, 8, 5, &corners);
    // trunk of wood up to one below the top
    for y in 2..6 {
        assert_eq!(l.get_block(8, y, 8), 17);
    }
    // the crown's centre above the trunk is leaves
    assert_eq!(l.get_block(8, 6, 8), 18);
    // a side leaf in the wide layer
    assert_eq!(l.get_block(10, 3, 8), 18);
    // corners were refused by the flags
    assert_eq!(l.get_block(10, 3, 10), 0);
}

#[test]
fn disk_round_trip_preserves_the_level() {
    let mut l = Level::new(String::from("rt"));
    l.generate(8, 8, 8, GenerationType::Flat, 0).unwrap();
    l.set_block(1, 6, 1, 20);
    let bytes = l.get_gzip(SaveType::Disk).unwrap();
    let mut l2 = Level::new(String::from("rt"));
    l2.load(&bytes).unwrap();
    assert_eq!(l2.size_x, l.size_x);
    assert_eq!(l2.size_y, l.size_y);
    assert_eq!(l2.size_z, l.size_z);
    assert_eq!(l2.data, l.data);
    assert_eq!(l2.spawn_x, l.spawn_x);
    assert_eq!(l2.spawn_y, l.spawn_y);
    assert_eq!(l2.spawn_z, l.spawn_z);
}

#[test]
fn load_rejects_garbage() {
    let mut l = Level::new(String::from("bad"));
    assert!(l.load(&vec![1, 2, 3, 4]).is_err());
    assert_eq!(l.size_x, 0);
}
