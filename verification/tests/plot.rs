use demys::plot::{GridPos, Plot};

#[test]
fn plots_add_subtract_and_transpose() {
    let a = Plot::new(3, 4);
    let b = Plot::new(1, 2);
    assert_eq!(a + b, Plot::new(4, 6));
    assert_eq!(a - b, Plot::new(2, 2));
    assert_eq!(a.transpose(), Plot::new(4, 3));
    assert_eq!(Plot::from((5usize, 6usize)), Plot::new(5, 6));
    assert_eq!(Plot::from((5u16, 6u16)), Plot::new(5, 6));
    let pair: (usize, usize) = a.into();
    assert_eq!(pair, (3, 4));
    assert_eq!(Plot::default(), Plot::new(0, 0));
    assert_eq!(GridPos { row: 1, col: 2 }.transpose(), GridPos { row: 2, col: 1 });
    assert_eq!(GridPos::from((7u16, 8u16)), GridPos { row: 7, col: 8 });
    let small: (u16, u16) = GridPos { row: 7, col: 8 }.into();
    assert_eq!(small, (7, 8));
    assert_eq!(
        GridPos { row: 1, col: 2 } + GridPos { row: 10, col: 20 },
        GridPos { row: 11, col: 22 }
    );
}
