use bf_machine::automata::{Automata, CELLS_AMOUNT};
use bf_machine::errors::BFParseError;

#[test]
fn fresh_tape_is_zeroed() {
    let mut tape = Automata::new();
    assert_eq!(tape.get(), 0);
    assert!(tape.chars_to_print().is_empty());
    for _ in 0..CELLS_AMOUNT - 1 {
        assert_eq!(tape.rmove(), Ok(()));
        assert_eq!(tape.get(), 0);
    }
}

#[test]
fn tape_has_thirty_thousand_cells() {
    assert_eq!(CELLS_AMOUNT, 30000);
}

#[test]
fn inc_adds_one() {
    let mut tape = Automata::new();
    assert_eq!(tape.inc(), Ok(()));
    assert_eq!(tape.get(), 1);
    assert_eq!(tape.inc(), Ok(()));
    assert_eq!(tape.get(), 2);
}

#[test]
fn dec_takes_one() {
    let mut tape = Automata::new();
    assert_eq!(tape.set(5), Ok(()));
    assert_eq!(tape.dec(), Ok(()));
    assert_eq!(tape.get(), 4);
}

#[test]
fn inc_at_255_overflows() {
    let mut tape = Automata::new();
    assert_eq!(tape.set(254), Ok(()));
    assert_eq!(tape.inc(), Ok(()));
    assert_eq!(tape.get(), 255);
    assert_eq!(tape.inc(), Err(BFParseError::CellMaxConstrOvrfl));
    assert_eq!(tape.get(), 255);
}

#[test]
fn dec_at_zero_underflows() {
    let mut tape = Automata::new();
    assert_eq!(tape.dec(), Err(BFParseError::CellMinConstrOvrfl));
    assert_eq!(tape.get(), 0);
    assert_eq!(tape.inc(), Ok(()));
    assert_eq!(tape.dec(), Ok(()));
    assert_eq!(tape.dec(), Err(BFParseError::CellMinConstrOvrfl));
}

#[test]
fn lmove_at_first_cell_fails() {
    let mut tape = Automata::new();
    assert_eq!(tape.lmove(), Err(BFParseError::CellNegativeIdx));
    assert_eq!(tape.set(7), Ok(()));
    assert_eq!(tape.rmove(), Ok(()));
    assert_eq!(tape.lmove(), Ok(()));
    assert_eq!(tape.get(), 7);
    assert_eq!(tape.lmove(), Err(BFParseError::CellNegativeIdx));
    assert_eq!(tape.get(), 7);
}

#[test]
fn rmove_at_last_cell_fails() {
    let mut tape = Automata::new();
    for _ in 0..CELLS_AMOUNT - 1 {
        assert_eq!(tape.rmove(), Ok(()));
    }
    assert_eq!(tape.set(9), Ok(()));
    assert_eq!(tape.rmove(), Err(BFParseError::CellNoMore));
    assert_eq!(tape.get(), 9);
    assert_eq!(tape.lmove(), Ok(()));
    assert_eq!(tape.rmove(), Ok(()));
    assert_eq!(tape.get(), 9);
}

#[test]
fn moves_select_distinct_cells() {
    let mut tape = Automata::new();
    assert_eq!(tape.set(1), Ok(()));
    assert_eq!(tape.rmove(), Ok(()));
    assert_eq!(tape.set(2), Ok(()));
    assert_eq!(tape.rmove(), Ok(()));
    assert_eq!(tape.get(), 0);
    assert_eq!(tape.lmove(), Ok(()));
    assert_eq!(tape.get(), 2);
    assert_eq!(tape.lmove(), Ok(()));
    assert_eq!(tape.get(), 1);
}

#[test]
fn set_overwrites_the_selected_cell() {
    let mut tape = Automata::new();
    assert_eq!(tape.set(200), Ok(()));
    assert_eq!(tape.get(), 200);
    assert_eq!(tape.set(0), Ok(()));
    assert_eq!(tape.get(), 0);
    assert_eq!(tape.set(255), Ok(()));
    assert_eq!(tape.get(), 255);
}

#[test]
fn out_appends_the_selected_cell() {
    let mut tape = Automata::new();
    assert_eq!(tape.out(), Ok(()));
    assert_eq!(tape.set(65), Ok(()));
    assert_eq!(tape.out(), Ok(()));
    assert_eq!(tape.rmove(), Ok(()));
    assert_eq!(tape.set(255), Ok(()));
    assert_eq!(tape.out(), Ok(()));
    assert_eq!(tape.chars_to_print(), &vec![0u8, 65, 255]);
    assert_eq!(tape.get(), 255);
}

#[test]
fn a_failed_operation_prints_nothing() {
    let mut tape = Automata::new();
    assert_eq!(tape.dec(), Err(BFParseError::CellMinConstrOvrfl));
    assert_eq!(tape.lmove(), Err(BFParseError::CellNegativeIdx));
    assert!(tape.chars_to_print().is_empty());
}
