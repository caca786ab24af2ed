use parbench::life::{Board, LifeParBridge, LifeParIter, LifeSeq};

#[test]
fn new_board_has_the_asked_shape() {
    let board = Board::new(3, 4);
    assert_eq!(board.width(), 3);
    assert_eq!(board.height(), 4);
    assert_eq!(board.cell_count(), 12);
}

#[test]
fn randomizing_keeps_the_shape() {
    let board = Board::new(5, 2).random();
    assert_eq!(board.width(), 5);
    assert_eq!(board.height(), 2);
    assert_eq!(board.cell_count(), 10);
}

#[test]
fn subjects_carry_their_names() {
    assert_eq!(LifeSeq::new().name(), "Life - sequential generation");
    assert_eq!(LifeParIter::new().name(), "Life - parallel iterators generation");
    assert_eq!(LifeParBridge::new().name(), "Life - parallel bridge generation");
}

#[test]
fn setup_prepares_each_subject() {
    let mut seq = LifeSeq::new();
    seq.setup();
    let mut par_iter = LifeParIter::new();
    par_iter.setup();
    let mut par_bridge = LifeParBridge::new();
    par_bridge.setup();
}

#[test]
fn the_run_counter_counts() {
    let mut subject = LifeParIter::new();
    assert_eq!(subject.runs(), 0);
    subject.count_run();
    subject.count_run();
    assert_eq!(subject.runs(), 2);
}
