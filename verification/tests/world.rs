use theta::sim::{spawn_slot, tick_nanos, GameLayer, SPAWN_SLOTS, TICK_HZ};
use theta::terrain::tile::{TileKind, TileLayer};
use theta::worldgen::{hole_seed, lattice_bits, splitmix64, tile_from_noise};

#[test]
fn splitmix64_matches_the_reference_outputs() {
    assert_eq!(splitmix64(0), 0xE220_A839_7B1D_CDAF);
    assert_eq!(splitmix64(1), 0x910A_2DEC_8902_5CC1);
    assert_eq!(splitmix64(42), 0xBDD7_3226_2FEB_6E95);
}

#[test]
fn lattice_values_are_stable() {
    assert_eq!(lattice_bits(42, 0, 0, 0), 4_731_764);
    assert_eq!(lattice_bits(42, -1, 3, 2), 12_242_655);
    assert!(lattice_bits(7, 100, -100, 1) < 1 << 24);
    assert_eq!(hole_seed(42), 0x7E88_A8A8_A80F_6FF3);
}

#[test]
fn a_wall_always_stands_on_floor() {
    for clearing in [false, true] {
        for wall in [false, true] {
            for hole in [false, true] {
                let object = tile_from_noise(TileLayer::Object, clearing, wall, hole);
                let ground = tile_from_noise(TileLayer::Ground, clearing, wall, hole);
                assert!(!(object == TileKind::Wall && ground == TileKind::Empty));
                if clearing {
                    assert_eq!((ground, object), (TileKind::Floor, TileKind::Empty));
                }
            }
        }
    }
    assert_eq!(tile_from_noise(TileLayer::Ground, false, false, true), TileKind::Empty);
    assert_eq!(tile_from_noise(TileLayer::Object, false, true, false), TileKind::Wall);
}

#[test]
fn tick_is_one_sixtieth_of_a_second() {
    assert_eq!(TICK_HZ, 60);
    assert_eq!(tick_nanos(), 16_666_666);
}

#[test]
fn spawn_slots_are_distinct_for_eight_players() {
    let slots: Vec<u32> = (0..SPAWN_SLOTS).map(spawn_slot).collect();
    for (i, a) in slots.iter().enumerate() {
        for b in &slots[i + 1..] {
            assert_ne!(a, b);
        }
    }
    assert_eq!(spawn_slot(8), 0);
    assert_eq!(spawn_slot(13), 5);
}

#[test]
fn the_default_layer_is_reserved() {
    assert_eq!(GameLayer::default(), GameLayer::Default);
}
