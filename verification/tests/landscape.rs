use tectonic_generator::color::Color;
use tectonic_generator::grid::Table;
use tectonic_generator::landscape::{LandscapeTick, SeedLandscape};

fn occupied_cells(l: &SeedLandscape) -> Vec<bool> {
    l.occupancy().iter()
}

fn count_occupied(l: &SeedLandscape) -> usize {
    occupied_cells(l).iter().filter(|&&b| b).count()
}

#[test]
fn new_landscape_is_all_free() {
    let l = SeedLandscape::new(4);
    assert_eq!(l.side(), 4);
    assert_eq!(occupied_cells(&l).len(), 16);
    assert_eq!(count_occupied(&l), 0);
}

#[test]
fn seeding_claims_distinct_cells() {
    let mut l = SeedLandscape::new(3);
    for n in 1..=4usize {
        l.propagate(LandscapeTick::Tick);
        assert_eq!(count_occupied(&l), n);
    }
}

#[test]
fn seeding_can_fill_the_whole_grid() {
    let mut l = SeedLandscape::new(2);
    for _ in 0..4 {
        l.propagate(LandscapeTick::Tick);
    }
    assert_eq!(count_occupied(&l), 4);
}

#[test]
fn seeding_a_full_grid_returns_and_changes_nothing() {
    let mut l = SeedLandscape::new(1);
    l.propagate(LandscapeTick::Tick);
    assert_eq!(count_occupied(&l), 1);
    l.propagate(LandscapeTick::Tick);
    assert_eq!(count_occupied(&l), 1);
    assert_eq!(l.side(), 1);
}

#[test]
fn advance_generation_changes_nothing() {
    let mut l = SeedLandscape::new(2);
    l.propagate(LandscapeTick::Tick);
    let before = occupied_cells(&l);
    l.propagate(LandscapeTick::Next);
    assert_eq!(occupied_cells(&l), before);
    assert_eq!(l.side(), 2);
}

#[test]
fn scale_doubles_side_and_fans_out_occupancy() {
    let mut l = SeedLandscape::new(2);
    l.propagate(LandscapeTick::Tick);
    let before = occupied_cells(&l);
    l.propagate(LandscapeTick::Scale);
    assert_eq!(l.side(), 4);
    let after = l.occupancy();
    for nx in 0..4usize {
        for ny in 0..4usize {
            assert_eq!(*after.get_dim(nx, ny), before[nx / 2 + (ny / 2) * 2]);
        }
    }
    assert_eq!(count_occupied(&l), 4);
}

#[test]
fn render_maps_occupied_to_fill_and_free_to_black() {
    let mut l = SeedLandscape::new(3);
    l.propagate(LandscapeTick::Tick);
    l.propagate(LandscapeTick::Tick);
    let occupancy = occupied_cells(&l);
    let mut display = Table::new(Color::black(), 3);
    l.render(&mut display);
    assert_eq!(display.side(), 3);
    let colors = display.export_flat();
    assert_eq!(colors.len(), occupancy.len());
    for (color, occupied) in colors.iter().zip(occupancy.iter()) {
        if *occupied {
            assert_eq!(*color, Color::white());
        } else {
            assert_eq!(*color, Color::black());
        }
    }
}

#[test]
fn end_to_end_scenario() {
    let mut l = SeedLandscape::new(2);
    l.propagate(LandscapeTick::Tick);
    l.propagate(LandscapeTick::Tick);
    assert_eq!(count_occupied(&l), 2);
    let before = occupied_cells(&l);

    l.propagate(LandscapeTick::Scale);
    assert_eq!(l.side(), 4);
    assert_eq!(count_occupied(&l), 8);
    let after = l.occupancy();
    for nx in 0..4usize {
        for ny in 0..4usize {
            assert_eq!(*after.get_dim(nx, ny), before[nx / 2 + (ny / 2) * 2]);
        }
    }

    let mut display = Table::new(Color::black(), 4);
    l.render(&mut display);
    let occupancy = occupied_cells(&l);
    let colors = display.export_flat();
    let fill_count = colors.iter().filter(|&&c| c == Color::white()).count();
    assert_eq!(fill_count, 8);
    for (color, occupied) in colors.iter().zip(occupancy.iter()) {
        let expected = if *occupied { Color::white() } else { Color::black() };
        assert_eq!(*color, expected);
    }
}
