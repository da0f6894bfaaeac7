use raycaster::material::dim;
use raycaster::{Axis, MaterialTable, Shades};

#[test]
fn dim_halves_the_colour_and_keeps_the_opacity() {
    assert_eq!(dim([0x5e, 0x48, 0xe8, 0xff]), [0x2f, 0x24, 0x74, 0xff]);
    assert_eq!(dim([255, 1, 0, 7]), [127, 0, 0, 7]);
}

#[test]
fn shades_of_a_colour() {
    assert_eq!(Shades::of([10, 21, 32, 200]), Shades { lit: [10, 21, 32, 200], shadowed: [5, 10, 16, 200] });
}

#[test]
fn new_table_knows_the_built_in_wall() {
    let table = MaterialTable::new();
    assert_eq!(table.shades.len(), 1);
    assert_eq!(table.color(1, Axis::X), [0x5e, 0x48, 0xe8, 0xff]);
    assert_eq!(table.color(1, Axis::Y), [0x2f, 0x24, 0x74, 0xff]);
    assert_ne!(table.color(1, Axis::X), table.color(1, Axis::Y));
}

#[test]
fn unknown_materials_get_the_fallback_colour() {
    let table = MaterialTable::new();
    let fallback = [0xff, 0x00, 0xff, 0xff];
    for id in [0u8, 2, 3, 255] {
        assert_eq!(table.lookup(id), Shades { lit: fallback, shadowed: fallback });
        assert_eq!(table.color(id, Axis::X), fallback);
        assert_eq!(table.color(id, Axis::Y), fallback);
    }
    let none = MaterialTable { shades: vec![] };
    assert_eq!(none.color(1, Axis::X), fallback);
}

#[test]
fn added_materials_get_the_next_id() {
    let mut table = MaterialTable::new();
    table.add([200, 100, 50, 255]);
    table.add([2, 4, 6, 8]);
    assert_eq!(table.shades.len(), 3);
    assert_eq!(table.lookup(1), Shades::of([0x5e, 0x48, 0xe8, 0xff]));
    assert_eq!(table.color(2, Axis::X), [200, 100, 50, 255]);
    assert_eq!(table.color(2, Axis::Y), [100, 50, 25, 255]);
    assert_eq!(table.color(3, Axis::Y), [1, 2, 3, 8]);
    assert_eq!(table.color(4, Axis::Y), [0xff, 0x00, 0xff, 0xff]);
}
