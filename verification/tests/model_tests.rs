use tik_tak_to_learning::game::{Entry, GameState};
use tik_tak_to_learning::model::{MappedFieldId, Model};

#[test]
fn model_state_setup() {
    let game = Model::initial_setup();
    // this isn't exactly useful
    assert!(game.state_map.len() > 600);
}

#[test]
fn setup_count_is_pinned() {
    // One entry per symmetry class of learner-turn, not-yet-won boards.
    let model = Model::initial_setup();
    assert_eq!(model.state_map.len(), 786);
}

#[test]
fn setup_registers_single_mark_board() {
    // The board with one mark at position 0 (code 1) is the first state the
    // enumeration registers: no winner, one cell occupied, no earlier image.
    let model = Model::initial_setup();
    let actions = model.state_map.get(1).expect("state must be registered");
    assert_eq!(actions, &vec![1, 2, 3, 4, 5, 6, 7, 8]);
}

#[test]
fn setup_prefers_forced_win() {
    // A state where the learner can win at once is registered with that
    // single forced move. Board: X O X / O O X / X . .  (X = learner); the
    // learner completes the right column at position 8.
    let state = GameState {
        fields: [
            Entry::Computer,
            Entry::Human,
            Entry::Computer,
            Entry::Human,
            Entry::Human,
            Entry::Computer,
            Entry::Computer,
            Entry::Empty,
            Entry::Empty,
        ],
    };
    assert_eq!(state.get_winning_move(Entry::Computer), Some(8));
    let model = Model::initial_setup();
    let actions = model.state_map.get(state.to_code()).expect("state must be registered");
    assert_eq!(actions, &vec![8]);
}

#[test]
fn predict_move_identity_frame() {
    // The board with code 1 is stored under its own form, so the first
    // matching transform is the identity and the chosen move maps to itself.
    let model = Model::initial_setup();
    let state = GameState::from_code(1);
    let step = model.predict_move(&state);
    assert_eq!(step.origin_state, state);
    assert_eq!(step.field, step.origin);
    assert!(step.origin >= 1 && step.origin <= 8);
}

#[test]
fn predict_move_flipped_frame() {
    // The board with one mark at position 2 is not a key itself; the first
    // matching transform in the lookup order is the plain flip, whose image
    // has the mark at position 0 (code 1). The canonical choice is mapped
    // back through the inverted rotation with the same flip.
    let model = Model::initial_setup();
    assert!(model.state_map.get(9).is_none());
    let state = GameState {
        fields: [
            Entry::Empty,
            Entry::Empty,
            Entry::Computer,
            Entry::Empty,
            Entry::Empty,
            Entry::Empty,
            Entry::Empty,
            Entry::Empty,
            Entry::Empty,
        ],
    };
    let step = model.predict_move(&state);
    assert_eq!(step.origin_state, GameState::from_code(1));
    assert!(step.origin >= 1 && step.origin <= 8);
    let expected = tik_tak_to_learning::game::transform_id(
        step.origin,
        tik_tak_to_learning::model::inverse(tik_tak_to_learning::model::Rotation::NoTurn),
        true,
    );
    assert_eq!(step.field, expected);
}

#[test]
fn update_win_appends_choice() {
    // After a game that was not lost, the state's candidate list grows by
    // exactly the recorded canonical-frame position, appended at the end.
    let mut model = Model::initial_setup();
    let state = GameState::from_code(1);
    let before = model.state_map.get(1).unwrap().clone();
    let steps = [MappedFieldId {
        field: 4,
        origin: 4,
        origin_state: state,
    }];
    model.update_predictions(&steps, false);
    let after = model.state_map.get(1).unwrap();
    assert_eq!(after.len(), before.len() + 1);
    assert_eq!(*after.last().unwrap(), 4);
    assert_eq!(&after[..before.len()], &before[..]);
}

#[test]
fn update_loss_removes_first_occurrence() {
    let mut model = Model::initial_setup();
    let state = GameState::from_code(1);
    let steps = [MappedFieldId {
        field: 3,
        origin: 3,
        origin_state: state,
    }];
    model.update_predictions(&steps, true);
    let after = model.state_map.get(1).unwrap();
    assert_eq!(after, &vec![1, 2, 4, 5, 6, 7, 8]);
}

#[test]
fn update_loss_missing_value_is_noop() {
    let mut model = Model::initial_setup();
    let state = GameState::from_code(1);
    let before = model.state_map.get(1).unwrap().clone();
    let steps = [MappedFieldId {
        field: 0,
        origin: 0,
        origin_state: state,
    }];
    model.update_predictions(&steps, true);
    assert_eq!(model.state_map.get(1).unwrap(), &before);
}

#[test]
fn update_loss_resets_emptied_list() {
    // Removing the last remaining candidate resets the list to every empty
    // position of the canonical board, in ascending order.
    let mut model = Model::initial_setup();
    let state = GameState::from_code(1);
    let mut steps = Vec::new();
    for origin in 1..=8u8 {
        steps.push(MappedFieldId {
            field: origin,
            origin,
            origin_state: state,
        });
    }
    model.update_predictions(&steps, true);
    // the eighth removal empties the list and triggers the reset
    let after = model.state_map.get(1).unwrap();
    assert_eq!(after, &vec![1, 2, 3, 4, 5, 6, 7, 8]);
}

#[test]
fn update_order_is_earliest_first() {
    let mut model = Model::initial_setup();
    let state = GameState::from_code(1);
    let steps = [
        MappedFieldId {
            field: 7,
            origin: 7,
            origin_state: state,
        },
        MappedFieldId {
            field: 5,
            origin: 5,
            origin_state: state,
        },
    ];
    model.update_predictions(&steps, false);
    let after = model.state_map.get(1).unwrap();
    assert_eq!(after, &vec![1, 2, 3, 4, 5, 6, 7, 8, 7, 5]);
}
