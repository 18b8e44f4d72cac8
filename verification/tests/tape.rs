use brainfuck_rs::tape::TAPE_SIZE;
use brainfuck_rs::{Cell, Tape};

#[test]
fn fresh_tape_has_one_visited_cell() {
    let tape = Tape::new();
    assert_eq!(TAPE_SIZE, 1000);
    assert_eq!(tape.position(), 0);
    assert_eq!(tape.cell(0), Some(Cell::Value(0)));
    for index in 1..TAPE_SIZE {
        assert_eq!(tape.cell(index), Some(Cell::Untouched));
    }
    assert_eq!(tape.cell(TAPE_SIZE), None);
    assert_eq!(*tape.current_cell(), Cell::Value(0));
    assert_eq!(Tape::default().position(), 0);
}

#[test]
fn moving_left_from_cell_zero_wraps_to_the_last_cell() {
    let mut tape = Tape::new();
    tape <<= 1;
    assert_eq!(tape.position(), TAPE_SIZE - 1);
    assert_eq!(tape.cell(TAPE_SIZE - 1), Some(Cell::Value(0)));
    assert_eq!(tape.cell(TAPE_SIZE - 2), Some(Cell::Untouched));
}

#[test]
fn moving_right_from_the_last_cell_wraps_to_cell_zero() {
    let mut tape = Tape::new();
    tape <<= 1;
    tape >>= 1;
    assert_eq!(tape.position(), 0);
    let mut tape = Tape::new();
    tape >>= TAPE_SIZE - 1;
    assert_eq!(tape.position(), TAPE_SIZE - 1);
    tape >>= 1;
    assert_eq!(tape.position(), 0);
}

#[test]
fn incrementing_255_gives_zero() {
    let mut tape = Tape::new();
    tape += 255;
    assert_eq!(tape.current_cell().value(), 255);
    tape += 1;
    assert_eq!(*tape.current_cell(), Cell::Value(0));
}

#[test]
fn decrementing_zero_gives_255() {
    let mut tape = Tape::new();
    tape -= 1;
    assert_eq!(*tape.current_cell(), Cell::Value(255));
    tape -= 255;
    assert_eq!(*tape.current_cell(), Cell::Value(0));
}

#[test]
fn arithmetic_on_an_untouched_cell_counts_it_as_zero() {
    assert_eq!(Cell::Untouched + 3, Cell::Value(3));
    assert_eq!(Cell::Untouched - 3, Cell::Value(253));
    assert_eq!(Cell::Untouched + 0, Cell::Value(0));
    assert_eq!(Cell::Untouched - 0, Cell::Value(0));
}

#[test]
fn cell_arithmetic_wraps() {
    assert_eq!(Cell::Value(200) + 100, Cell::Value(44));
    assert_eq!(Cell::Value(5) - 10, Cell::Value(251));
    let mut cell = Cell::Value(250);
    cell += 10;
    assert_eq!(cell, Cell::Value(4));
    cell -= 5;
    assert_eq!(cell, Cell::Value(255));
}

#[test]
fn touch_keeps_the_value() {
    let mut cell = Cell::Untouched;
    assert_eq!(cell.value(), 0);
    cell.touch();
    assert_eq!(cell, Cell::Value(0));
    let mut cell = Cell::Value(7);
    cell.touch();
    assert_eq!(cell, Cell::Value(7));
    assert_eq!(cell.value(), 7);
}

#[test]
fn set_value_stores_and_visits() {
    let mut cell = Cell::Untouched;
    cell.set_value(0);
    assert_eq!(cell, Cell::Value(0));
    cell.set_value(9);
    assert_eq!(cell, Cell::Value(9));
    assert_eq!(Cell::default(), Cell::Untouched);
}

#[test]
fn moving_visits_every_cell_on_the_way() {
    let mut tape = Tape::new();
    tape >>= 3;
    assert_eq!(tape.position(), 3);
    for index in 0..=3 {
        assert_eq!(tape.cell(index), Some(Cell::Value(0)));
    }
    assert_eq!(tape.cell(4), Some(Cell::Untouched));
    tape <<= 5;
    assert_eq!(tape.position(), TAPE_SIZE - 2);
    assert_eq!(tape.cell(TAPE_SIZE - 1), Some(Cell::Value(0)));
    assert_eq!(tape.cell(TAPE_SIZE - 2), Some(Cell::Value(0)));
    assert_eq!(tape.cell(TAPE_SIZE - 3), Some(Cell::Untouched));
}

#[test]
fn moving_by_zero_changes_nothing() {
    let mut tape = Tape::new();
    tape >>= 0;
    tape <<= 0;
    assert_eq!(tape.position(), 0);
    assert_eq!(tape.cell(1), Some(Cell::Untouched));
    assert_eq!(tape.cell(TAPE_SIZE - 1), Some(Cell::Untouched));
}

#[test]
fn moving_keeps_values() {
    let mut tape = Tape::new();
    tape += 5;
    tape >>= 2;
    tape += 7;
    tape <<= 2;
    assert_eq!(tape.current_cell().value(), 5);
    assert_eq!(tape.cell(2), Some(Cell::Value(7)));
    tape >>= TAPE_SIZE;
    assert_eq!(tape.position(), 0);
    assert_eq!(tape.current_cell().value(), 5);
    assert_eq!(tape.cell(2), Some(Cell::Value(7)));
}

#[test]
fn a_full_round_visits_all_cells() {
    let mut tape = Tape::new();
    tape >>= TAPE_SIZE;
    assert_eq!(tape.position(), 0);
    for index in 0..TAPE_SIZE {
        assert_eq!(tape.cell(index), Some(Cell::Value(0)));
    }
    let mut tape = Tape::new();
    tape <<= TAPE_SIZE - 1;
    assert_eq!(tape.position(), 1);
    for index in 0..TAPE_SIZE {
        assert_eq!(tape.cell(index), Some(Cell::Value(0)));
    }
}

#[test]
fn long_moves_turn_around_the_ring() {
    let mut tape = Tape::new();
    tape >>= 2_345;
    assert_eq!(tape.position(), 345);
    tape <<= 10_346;
    assert_eq!(tape.position(), 999);
    let mut tape = Tape::new();
    tape >>= usize::MAX;
    assert_eq!(tape.position(), usize::MAX % TAPE_SIZE);
    let mut tape = Tape::new();
    tape <<= usize::MAX;
    assert_eq!(tape.position(), (TAPE_SIZE - usize::MAX % TAPE_SIZE) % TAPE_SIZE);
    assert_eq!(tape.cell(500), Some(Cell::Value(0)));
}

#[test]
fn shift_operators_give_the_moved_tape() {
    let tape = Tape::new() >> 4;
    assert_eq!(tape.position(), 4);
    let tape = tape << 6;
    assert_eq!(tape.position(), TAPE_SIZE - 2);
}

#[test]
fn current_cell_mut_writes_under_the_pointer() {
    let mut tape = Tape::new();
    tape >>= 1;
    tape.current_cell_mut().set_value(42);
    assert_eq!(tape.cell(1), Some(Cell::Value(42)));
    assert_eq!(tape.cell(0), Some(Cell::Value(0)));
    *tape.current_cell_mut() = Cell::Untouched;
    assert_eq!(tape.cell(1), Some(Cell::Untouched));
}

#[test]
fn compact_rendering_leaves_out_trailing_untouched_cells() {
    let tape = Tape::new();
    let rendering = tape.render(false);
    assert_eq!(rendering.entries, vec![0]);
    assert!(rendering.elided);
    let mut tape = Tape::new();
    tape >>= 2;
    tape += 9;
    let rendering = tape.render(false);
    assert_eq!(rendering.entries, vec![0, 0, 9]);
    assert!(rendering.elided);
}

#[test]
fn verbose_rendering_shows_every_cell() {
    let mut tape = Tape::new();
    tape += 3;
    let rendering = tape.render(true);
    assert_eq!(rendering.entries.len(), TAPE_SIZE);
    assert_eq!(rendering.entries[0], 3);
    assert!(rendering.entries[1..].iter().all(|byte| *byte == 0));
    assert!(!rendering.elided);
}

#[test]
fn an_explicit_zero_is_shown_and_an_untouched_cell_is_not() {
    let mut tape = Tape::new();
    tape >>= 1;
    // Cell 1 was visited and holds an explicit zero; cell 2 never was.
    assert_eq!(tape.cell(1).unwrap().value(), tape.cell(2).unwrap().value());
    let rendering = tape.render(false);
    assert_eq!(rendering.entries, vec![0, 0]);
    assert!(rendering.elided);
}

#[test]
fn untouched_cells_before_a_visited_one_are_shown() {
    let mut tape = Tape::new();
    tape >>= 3;
    *tape.current_cell_mut() = Cell::Value(0);
    tape <<= 1;
    *tape.current_cell_mut() = Cell::Untouched;
    let rendering = tape.render(false);
    assert_eq!(rendering.entries, vec![0, 0, 0, 0]);
    assert!(rendering.elided);
}

#[test]
fn a_tape_visited_to_the_end_is_rendered_whole() {
    let mut tape = Tape::new();
    tape <<= 1;
    let rendering = tape.render(false);
    assert_eq!(rendering.entries.len(), TAPE_SIZE);
    assert!(!rendering.elided);
}

#[test]
fn a_tape_with_no_visited_cell_renders_nothing() {
    let mut tape = Tape::new();
    *tape.current_cell_mut() = Cell::Untouched;
    let rendering = tape.render(false);
    assert!(rendering.entries.is_empty());
    assert!(rendering.elided);
}

#[test]
fn clone_copies_cells_and_pointer() {
    let mut tape = Tape::new();
    tape >>= 7;
    tape += 1;
    let copy = tape.clone();
    assert_eq!(copy.position(), 7);
    assert_eq!(copy.cell(7), Some(Cell::Value(1)));
    tape += 1;
    assert_eq!(copy.cell(7), Some(Cell::Value(1)));
}
