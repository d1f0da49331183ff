use tectonic_generator::color::Color;
use tectonic_generator::grid::Table;

#[test]
fn new_fills_all_cells() {
    let t = Table::new(5u8, 3);
    assert_eq!(t.side(), 3);
    assert_eq!(t.len(), 9);
    let cells = t.iter();
    assert_eq!(cells.len(), 9);
    for v in cells {
        assert_eq!(v, 5);
    }
}

#[test]
fn new_side_zero_is_empty() {
    let t = Table::new(0u8, 0);
    assert_eq!(t.side(), 0);
    assert_eq!(t.len(), 0);
}

#[test]
fn get_set_linear() {
    let mut t = Table::new(0u8, 2);
    t.set(0, 10);
    t.set(3, 40);
    assert_eq!(*t.get(0), 10);
    assert_eq!(*t.get(1), 0);
    assert_eq!(*t.get(2), 0);
    assert_eq!(*t.get(3), 40);
}

#[test]
fn get_set_xy() {
    let mut t = Table::new(0u8, 3);
    t.set_dim(2, 1, 7);
    assert_eq!(*t.get_dim(2, 1), 7);
    assert_eq!(*t.get(2 + 1 * 3), 7);
    t.set(5, 9);
    assert_eq!(*t.get_dim(2, 1), 9);
}

#[test]
fn size_invariant_after_construction_and_grow() {
    let mut t = Table::new(false, 5);
    assert_eq!(t.len(), t.side() * t.side());
    t.grow();
    assert_eq!(t.side(), 10);
    assert_eq!(t.len(), t.side() * t.side());
    t.grow();
    assert_eq!(t.side(), 20);
    assert_eq!(t.len(), t.side() * t.side());
}

#[test]
fn grow_fans_each_cell_into_its_block() {
    let mut t = Table::new(0u8, 2);
    t.set_dim(0, 0, 1);
    t.set_dim(1, 0, 2);
    t.set_dim(0, 1, 3);
    t.set_dim(1, 1, 4);
    t.grow();
    assert_eq!(t.side(), 4);
    for x in 0..2usize {
        for y in 0..2usize {
            let old_value = (1 + x + 2 * y) as u8;
            assert_eq!(*t.get_dim(2 * x, 2 * y), old_value);
            assert_eq!(*t.get_dim(2 * x + 1, 2 * y), old_value);
            assert_eq!(*t.get_dim(2 * x, 2 * y + 1), old_value);
            assert_eq!(*t.get_dim(2 * x + 1, 2 * y + 1), old_value);
        }
    }
}

#[test]
fn grow_maps_every_new_cell_back_to_one_old_cell() {
    let mut t = Table::new(0u16, 3);
    for i in 0..9usize {
        t.set(i, (i * 11) as u16);
    }
    let before = t.clone().export_flat();
    t.grow();
    for nx in 0..6usize {
        for ny in 0..6usize {
            assert_eq!(*t.get_dim(nx, ny), before[nx / 2 + (ny / 2) * 3]);
        }
    }
}

#[test]
fn convert_copy_applies_function_in_order() {
    let mut src = Table::new(false, 2);
    src.set(1, true);
    src.set(2, true);
    let mut dst = Table::new(0u8, 2);
    src.convert_copy(&mut dst, |occupied| if occupied { 1u8 } else { 0u8 });
    assert_eq!(dst.export_flat(), vec![0u8, 1, 1, 0]);
}

#[test]
fn iter_lists_cells_in_linear_order() {
    let mut t = Table::new(0u8, 2);
    t.set(0, 9);
    t.set(1, 8);
    t.set(2, 7);
    t.set(3, 6);
    assert_eq!(t.iter(), vec![9u8, 8, 7, 6]);
}

#[test]
fn export_flat_returns_cells_in_order() {
    let mut t = Table::new(1u8, 2);
    t.set(2, 3);
    assert_eq!(t.export_flat(), vec![1u8, 1, 3, 1]);
}

#[test]
fn clone_is_a_deep_copy() {
    let mut t = Table::new(0u8, 2);
    t.set(0, 42);
    let c = t.clone();
    t.set(0, 7);
    assert_eq!(*c.get(0), 42);
    assert_eq!(*t.get(0), 7);
    assert_eq!(c.side(), 2);
}

#[test]
fn export_pixels_example() {
    let mut t = Table::new(Color::black(), 2);
    t.set(0, Color::red());
    t.set(1, Color::green());
    t.set(2, Color::blue());
    t.set(3, Color::white());
    let bytes = t.export_pixels();
    assert_eq!(
        bytes,
        vec![
            255u8, 0, 0, 255, //
            0, 255, 0, 255, //
            0, 0, 255, 255, //
            255, 255, 255, 255,
        ]
    );
}

#[test]
fn color_channels() {
    let c = Color::new(1, 2, 3, 4);
    assert_eq!((c.r, c.g, c.b, c.a), (1, 2, 3, 4));
    assert_eq!(Color::black(), Color::new(0, 0, 0, 255));
    assert_eq!(Color::white(), Color::new(255, 255, 255, 255));
    assert_ne!(Color::red(), Color::blue());
}
