use chess_game::maths::vec2d::{FillError, GridRect, IndexOutOfBoundsError, Vec2D, Vec2DIterator};

fn points(mut it: Vec2DIterator) -> Vec<(u64, u64)> {
    let mut out = Vec::new();
    while let Some(pt) = it.next() {
        out.push(pt);
    }
    out
}

#[test]
fn global_iter() {
    let vec = Vec2D::new_from_element(0, (7, 6));

    let mut it = vec.iter();
    let mut count = 0;
    while let Some(pt) = it.next() {
        assert!(vec.get(pt).is_some());
        count += 1;
    }
    assert_eq!(count, 42);
}

#[test]
fn clamped_iter() {
    let vec = Vec2D::new_from_element(0, (10, 10));

    assert_eq!(vec.iter(), vec.rect_iter_clamped(GridRect::new(0, 0, 11, 10)));
}

#[test]
fn integrity() {
    // Row-major layout: index 1 is (1, 0), index `width` is (0, 1).
    let mut cells = vec![0; 100];
    cells[1] = 1;
    cells[10] = 2;
    let vec = Vec2D::new_from_vec(cells, (10, 10)).unwrap();

    assert_eq!(vec.get((1, 0)), Some(&1));
    assert_eq!(vec.get((0, 1)), Some(&2));
}

#[test]
fn set_rect_from_elem() {
    let mut vec = Vec2D::new_from_element(0, (10, 10));

    let rect = GridRect::new(6, 4, 3, 4);

    vec.set_rect_from_elem(rect, 1, false).unwrap();

    assert_eq!(vec.get((6, 4)), Some(&1));
    assert_eq!(vec.get((6 + 3 - 1, 4 + 4 - 1)), Some(&1));
    assert_eq!(vec.get((5, 4)), Some(&0));
    assert_eq!(vec.get((9, 4)), Some(&0));
    assert_eq!(vec.elems().iter().filter(|c| **c == 1).count(), 12);
}

#[test]
fn fill_errors() {
    let mut vec = Vec2D::new_from_element(0, (4, 4));

    assert_eq!(vec.set_rect_from_elem(GridRect::new(0, 0, 0, 3), 7, false), Err(FillError::EmptyRect));
    assert_eq!(vec.set_rect_from_elem(GridRect::new(2, 3, 3, 1), 7, false), Err(FillError::OutOfBounds));
    // The cells before the first one outside were written.
    assert_eq!(vec.get((2, 3)), Some(&7));
    assert_eq!(vec.get((3, 3)), Some(&7));

    let mut vec = Vec2D::new_from_element(0, (4, 4));
    assert_eq!(vec.set_rect_from_elem(GridRect::new(2, 2, 4, 4), 5, true), Ok(()));
    assert_eq!(vec.elems().iter().filter(|c| **c == 5).count(), 4);
}

#[test]
fn set_and_get() {
    let mut vec = Vec2D::new_from_element('.', (3, 2));
    assert_eq!(vec.size(), (3, 2));

    assert_eq!(vec.set((2, 1), '#'), Ok('.'));
    assert_eq!(vec.get((2, 1)), Some(&'#'));
    assert_eq!(vec.set((2, 1), '*'), Ok('#'));
    assert_eq!(vec.set((3, 0), '#'), Err(IndexOutOfBoundsError));
    assert_eq!(vec.get((0, 2)), None);

    if let Some(c) = vec.get_mut((0, 0)) {
        *c = '@';
    }
    assert_eq!(vec.elems(), &vec!['@', '.', '.', '.', '.', '*']);
    assert!(vec.get_mut((5, 5)).is_none());
}

#[test]
fn indexes() {
    let vec = Vec2D::new_from_element(0u8, (5, 4));
    assert_eq!(vec.index_from_point((0, 0)), 0);
    assert_eq!(vec.index_from_point((4, 0)), 4);
    assert_eq!(vec.index_from_point((1, 3)), 16);
    assert!(vec.contains_point((4, 3)));
    assert!(!vec.contains_point((5, 0)));
    assert!(!vec.contains_point((0, 4)));
}

#[test]
fn constructors() {
    assert!(Vec2D::new_from_vec(vec![1, 2, 3], (2, 2)).is_none());
    assert!(Vec2D::new_from_vec(vec![1, 2, 3, 4], (2, 2)).is_some());
    assert!(Vec2D::new_from_vec(vec![1u8; 3], (u64::MAX, 2)).is_none());

    let empty: Vec2D<u8> = Vec2D::new_empty();
    assert_eq!(empty.size(), (0, 0));
    assert!(empty.elems().is_empty());
}

#[test]
fn iteration_order() {
    let vec = Vec2D::new_from_element(0, (3, 2));
    assert_eq!(points(vec.iter()), vec![(0, 0), (1, 0), (2, 0), (0, 1), (1, 1), (2, 1)]);

    assert_eq!(points(vec.rect_iter(GridRect::new(1, 1, 2, 2))), vec![(1, 1), (2, 1), (1, 2), (2, 2)]);
    // A rectangle with no row yields nothing once past the first row.
    assert_eq!(points(vec.rect_iter(GridRect::new(1, 1, 2, 0))), vec![]);
    // The clamped iteration stays inside the grid.
    assert_eq!(points(vec.rect_iter_clamped(GridRect::new(1, 1, 5, 5))), vec![(1, 1), (2, 1)]);

    let it = Vec2DIterator::new((4, 7), (5, 7));
    assert_eq!(points(it), vec![(4, 7), (5, 7)]);
}
