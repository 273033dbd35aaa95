use gridsystem::text::decimal_string;
use gridsystem::Grid;

#[test]
fn test_point_access_scenario() {
    let mut map: Grid<i32> = Grid::new(5, 5);

    assert!(map.set(2, 2, 42).is_ok());
    assert_eq!(map.get(2, 2), Some(&42));

    let result = map.set(10, 10, 42);
    let Err(err) = result else {
        panic!("expected an out-of-bounds error");
    };
    assert!(err.contains("10, 10"));
    assert!(err.contains("5x5"));

    assert_eq!(map.get(10, 10), None);
    assert!(map.get_mut(10, 10).is_none());
}

#[test]
fn test_cell_independence() {
    let mut map: Grid<i32> = Grid::with_value(3, 3, 7);

    if let Some(cell) = map.get_mut(1, 1) {
        *cell = 9;
    }

    assert_eq!(map.get(1, 1), Some(&9));
    assert_eq!(map.get(0, 1), Some(&7));
    assert_eq!(map.get(2, 1), Some(&7));
    assert_eq!(map.get(1, 0), Some(&7));
    assert_eq!(map.get(1, 2), Some(&7));
}

#[test]
fn test_empty_grids() {
    let zero_by_zero: Grid<i32> = Grid::new(0, 0);
    assert_eq!(zero_by_zero.area(), 0);
    assert_eq!(zero_by_zero.get(0, 0), None);
    assert_eq!(zero_by_zero.iter().len(), 0);

    let mut zero_wide: Grid<i32> = Grid::new(0, 4);
    assert_eq!(zero_wide.area(), 0);
    assert_eq!(zero_wide.get(0, 0), None);
    assert!(zero_wide.set(0, 0, 1).is_err());
}

#[test]
fn test_map_identity() {
    let mut map: Grid<i32> = Grid::new(4, 3);
    map.map_inplace(|x, y, _| (x as i32) * 10 + (y as i32));

    let copy = map.map(|_, _, &v| v);
    assert_eq!(copy.width(), map.width());
    assert_eq!(copy.height(), map.height());
    assert_eq!(copy.as_slice(), map.as_slice());
}

#[test]
fn test_map_coordinates() {
    let map: Grid<i32> = Grid::new(10, 10);
    let doubled = map.map(|_, _, &v| v + 5).map(|_, _, &v| v * 2);
    assert_eq!(doubled.get(0, 0), Some(&10));
    assert_eq!(doubled.get(9, 9), Some(&10));
}

#[test]
fn test_map_inplace_coordinates() {
    let mut map: Grid<i32> = Grid::with_value(10, 10, 5);
    map.map_inplace(|x, y, _| (x as i32) + (y as i32));
    assert_eq!(map.get(3, 4), Some(&7));
    assert_eq!(map.get(0, 0), Some(&0));
    assert_eq!(map.get(9, 9), Some(&18));
}

#[test]
fn test_iter_mut_visits_all_cells() {
    let mut map: Grid<i32> = Grid::new(3, 2);
    map.iter_mut(|x, y, _| (x as i32) * 100 + (y as i32));

    assert_eq!(map.get(0, 0), Some(&0));
    assert_eq!(map.get(1, 0), Some(&100));
    assert_eq!(map.get(2, 1), Some(&201));
}

#[test]
fn test_par_map_matches_map() {
    for (w, h) in [(0u16, 0u16), (0, 5), (1, 1), (3, 2), (17, 9)] {
        let mut src: Grid<i64> = Grid::new(w, h);
        src.map_inplace(|x, y, _| (x as i64) + 2 * (y as i64));

        let seq = src.map(|x, y, &v| v * v + (x as i64) - (y as i64));
        let par = src.par_map(|x, y, &v| v * v + (x as i64) - (y as i64));

        assert_eq!(seq.width(), par.width());
        assert_eq!(seq.height(), par.height());
        assert_eq!(seq.as_slice(), par.as_slice());
    }
}

#[test]
fn test_par_map_inplace_matches_map_inplace() {
    for (w, h) in [(0u16, 0u16), (1, 1), (5, 4)] {
        let mut a: Grid<i64> = Grid::new(w, h);
        a.map_inplace(|x, y, _| (x as i64) * 7 + (y as i64));
        let mut b = a.map(|_, _, &v| v);

        a.map_inplace(|_, _, &v| v * 3 - 1);
        b.par_map_inplace(|_, _, &v| v * 3 - 1);

        assert_eq!(a.as_slice(), b.as_slice());
    }
}

#[test]
fn test_large_grid_par_map_matches_map() {
    let mut src: Grid<i32> = Grid::new(4000, 4000);
    src.map_inplace(|x, y, _| (x as i32) + (y as i32));

    let seq = src.map(|_, _, &v| v * v);
    let par = src.par_map(|_, _, &v| v * v);

    for (x, y) in [(0u16, 0u16), (3999, 0), (0, 3999), (3999, 3999), (2000, 2000)] {
        let expected = ((x as i32) + (y as i32)) * ((x as i32) + (y as i32));
        assert_eq!(seq.get(x, y), Some(&expected));
        assert_eq!(par.get(x, y), Some(&expected));
    }
}

#[test]
fn test_slices() {
    let mut map: Grid<u8> = Grid::with_value(2, 2, 1);

    assert_eq!(map.as_slice(), &[1, 1, 1, 1]);

    map.as_mut_slice()[2] = 9;
    assert_eq!(map.get(0, 1), Some(&9));
    assert_eq!(map.as_slice(), &[1, 1, 9, 1]);
}

#[test]
fn test_decimal_rendering() {
    assert_eq!(decimal_string(0), "0");
    assert_eq!(decimal_string(7), "7");
    assert_eq!(decimal_string(10), "10");
    assert_eq!(decimal_string(255), "255");
    assert_eq!(decimal_string(65535), "65535");
}

#[test]
fn test_full_error_message() {
    let mut map: Grid<i32> = Grid::new(5, 5);
    let err = map.set(10, 12, 1).unwrap_err();
    assert_eq!(err, "Coordinates (10, 12) out of bounds (grid is 5x5)");
}
