use minesweeper::cells::{Cell, CellType, Status};

#[test]
fn cell_type_is_bomb() {
    assert!(CellType::Bomb.is_bomb());
    assert!(!CellType::Number(3).is_bomb());
}

#[test]
fn cell_type_number() {
    assert_eq!(CellType::Number(4).number(), Some(4));
    assert_eq!(CellType::Number(0).number(), Some(0));
    assert_eq!(CellType::Bomb.number(), None);
}

#[test]
fn status_cycle_order() {
    assert_eq!(Status::Hidden.cycle(), Status::Flag);
    assert_eq!(Status::Flag.cycle(), Status::Question);
    assert_eq!(Status::Question.cycle(), Status::Hidden);
    assert_eq!(Status::Revealed.cycle(), Status::Revealed);
}

#[test]
fn status_cycle_three_times_is_identity() {
    for s in [Status::Hidden, Status::Flag, Status::Question, Status::Revealed] {
        assert_eq!(s.cycle().cycle().cycle(), s);
    }
}

#[test]
fn constructors_are_hidden() {
    let n = Cell::new_number(5);
    assert_eq!(n.cell_type, CellType::Number(5));
    assert_eq!(n.status, Status::Hidden);
    let b = Cell::new_bomb();
    assert_eq!(b.cell_type, CellType::Bomb);
    assert_eq!(b.status, Status::Hidden);
}

#[test]
fn cell_cycle_status_and_predicates() {
    let mut c = Cell::new_number(1);
    assert!(!c.is_flagged() && !c.is_question() && !c.is_revealed());
    c.cycle_status();
    assert!(c.is_flagged());
    c.cycle_status();
    assert!(c.is_question());
    c.cycle_status();
    assert_eq!(c.status, Status::Hidden);
}

#[test]
fn cell_reveal_returns_type_and_stays_revealed() {
    let mut c = Cell::new_bomb();
    assert_eq!(c.reveal_cell(), CellType::Bomb);
    assert!(c.is_revealed());
    assert!(c.is_bomb());
    assert_eq!(c.number_value(), None);
    c.cycle_status();
    assert!(c.is_revealed());
    let mut n = Cell::new_number(2);
    assert_eq!(n.reveal_cell(), CellType::Number(2));
    assert_eq!(n.number_value(), Some(2));
    assert!(!n.is_bomb());
}

#[test]
fn cell_symbols() {
    let mut c = Cell::new_number(0);
    assert_eq!(c.symbol(), '.');
    c.cycle_status();
    assert_eq!(c.symbol(), 'F');
    c.cycle_status();
    assert_eq!(c.symbol(), '?');
    c.reveal_cell();
    assert_eq!(c.symbol(), ' ');
    let mut three = Cell::new_number(3);
    three.reveal_cell();
    assert_eq!(three.symbol(), '3');
    let mut big = Cell::new_number(12);
    big.reveal_cell();
    assert_eq!(big.symbol(), '#');
    let mut b = Cell::new_bomb();
    b.reveal_cell();
    assert_eq!(b.symbol(), 'B');
}
