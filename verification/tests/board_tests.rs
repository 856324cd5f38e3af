use tik_tak_to_learning::game::Entry::{Computer, Empty, Human};
use tik_tak_to_learning::game::GameState;
use tik_tak_to_learning::model::{inverse, Rotation};
use tik_tak_to_learning::table::StateTable;
use tik_tak_to_learning::{Entry as LibEntry, Game, State};

#[test]
fn encoding_round_trips_every_code() {
    for code in 0..19683 {
        assert_eq!(GameState::from_code(code).to_code(), code);
        assert_eq!(State::from_code(code).to_code(), code);
    }
}

#[test]
fn winner_row_column_and_diagonal() {
    let row = GameState {
        fields: [
            Computer, Computer, Computer, Human, Human, Empty, Empty, Empty, Empty,
        ],
    };
    assert_eq!(row.get_winner(), Some(Computer));

    let column = GameState {
        fields: [
            Human, Computer, Empty, Human, Computer, Empty, Human, Empty, Computer,
        ],
    };
    assert_eq!(column.get_winner(), Some(Human));

    let diagonal = GameState {
        fields: [
            Computer, Human, Human, Empty, Computer, Empty, Empty, Empty, Computer,
        ],
    };
    assert_eq!(diagonal.get_winner(), Some(Computer));

    let open = GameState {
        fields: [
            Computer, Human, Computer, Human, Empty, Computer, Human, Computer, Human,
        ],
    };
    assert_eq!(open.get_winner(), None);

    let blank = GameState { fields: [Empty; 9] };
    assert_eq!(blank.get_winner(), None);
}

#[test]
fn transform_relocates_cells() {
    let state = GameState {
        fields: [
            Computer, Empty, Empty, Empty, Empty, Empty, Empty, Empty, Empty,
        ],
    };
    // a quarter turn to the left carries the top-left corner to the bottom-left
    let turned = state.transform_field(Rotation::Left, false);
    assert_eq!(turned.fields[6], Computer);
    assert_eq!(turned.fields[0], Empty);
    // the flip carries it to the top-right corner instead
    let flipped = state.transform_field(Rotation::NoTurn, true);
    assert_eq!(flipped.fields[2], Computer);
}

#[test]
fn inverse_swaps_left_and_right() {
    assert_eq!(inverse(Rotation::Left), Rotation::Right);
    assert_eq!(inverse(Rotation::Right), Rotation::Left);
    assert_eq!(inverse(Rotation::NoTurn), Rotation::NoTurn);
    assert_eq!(inverse(Rotation::Rot180), Rotation::Rot180);
}

#[test]
fn occupied_count_and_empty_positions() {
    let state = GameState {
        fields: [
            Computer, Empty, Human, Empty, Computer, Empty, Empty, Empty, Human,
        ],
    };
    assert_eq!(state.amount_of_fields_set(), 4);
    assert_eq!(state.empty_field_positions(), vec![1, 3, 5, 6, 7]);
}

#[test]
fn state_table_basics() {
    let mut table = StateTable::new();
    assert_eq!(table.len(), 0);
    assert!(!table.contains_key(5));
    table.insert(5, vec![1, 2]);
    assert_eq!(table.len(), 1);
    assert!(table.contains_key(5));
    assert_eq!(table.get(5), Some(&vec![1, 2]));
    assert_eq!(table.get(6), None);
    table.insert(5, vec![3]);
    assert_eq!(table.len(), 1);
    assert_eq!(table.get(5), Some(&vec![3]));
}

#[test]
fn lib_setup_count_is_pinned() {
    // the same count for either learner mark: the forced-win shortcut changes
    // what a state starts with, not which states are registered
    let game = Game::initial_setup(LibEntry::Cross);
    assert_eq!(game.states.len(), 786);
    let game = Game::initial_setup(LibEntry::Circle);
    assert_eq!(game.states.len(), 786);
}

#[test]
fn lib_available_moves_found_through_flip() {
    let game = Game::initial_setup(LibEntry::Cross);
    let state = State {
        fields: [
            LibEntry::Empty,
            LibEntry::Empty,
            LibEntry::Cross,
            LibEntry::Empty,
            LibEntry::Empty,
            LibEntry::Empty,
            LibEntry::Empty,
            LibEntry::Empty,
            LibEntry::Empty,
        ],
    };
    let (fields, rotation, flip, canon) = game
        .get_available_moves(&state)
        .expect("an image of the state must be registered");
    assert_eq!(rotation, tik_tak_to_learning::Rotation::NoTurn);
    assert!(flip);
    assert_eq!(canon, State::from_code(1));
    assert_eq!(fields, vec![1, 2, 3, 4, 5, 6, 7, 8]);
}

#[test]
fn lib_available_moves_none_for_unregistered() {
    let game = Game::initial_setup(LibEntry::Cross);
    // the empty board has an even number of occupied cells and is never
    // registered, nor is any image of it
    assert!(game.get_available_moves(&State::from_code(0)).is_none());
}
