use tik_tak_to_learning::game::rotate_id_180 as rot;
use tik_tak_to_learning::game::rotate_id_left as left;
use tik_tak_to_learning::game::rotate_id_right as right;
use tik_tak_to_learning::game::Entry::{Computer, Empty, Human};
use tik_tak_to_learning::game::{Entry, GameState};

#[test]
fn game_rotate_right() {
    for i in 0..9 {
        assert_eq!(
            i,
            right(right(right(right(i)))),
            "testing rotation right of field #{}",
            i
        );
    }
}

#[test]
fn game_rotate_left() {
    for i in 0..9 {
        assert_eq!(
            i,
            left(left(left(left(i)))),
            "testing rotation left of field #{}",
            i
        );
    }
}

#[test]
fn game_rotate_180() {
    for i in 0..9 {
        assert_eq!(i, rot(rot(i)), "testing 180° rotation of field {}", i);
    }
}

#[test]
fn state_encoding_1() {
    let code = 2;

    let state = GameState {
        fields: [
            Entry::Human,
            Entry::Empty,
            Entry::Empty,
            Entry::Empty,
            Entry::Empty,
            Entry::Empty,
            Entry::Empty,
            Entry::Empty,
            Entry::Empty,
        ],
    };

    assert_eq!(code, state.to_code(),);

    assert_eq!(GameState::from_code(code), state,);
}

#[test]
fn state_encoding_2() {
    let code = 1 + 3 + 2 * 3 * 3;

    let state = GameState {
        fields: [
            Entry::Computer,
            Entry::Computer,
            Entry::Human,
            Entry::Empty,
            Entry::Empty,
            Entry::Empty,
            Entry::Empty,
            Entry::Empty,
            Entry::Empty,
        ],
    };

    assert_eq!(code, state.to_code(),);

    assert_eq!(GameState::from_code(code), state,);
}

#[test]
fn state_encoding_many() {
    let max = 19683 - 1;
    let codes = [
        0usize, 213, max, 554, 2, 345, 23, 4, 325, 43, 6536, 453, 6, 5347, 13575, 765, 537, 6563,
        5234, 9575, 4676,
    ];

    for code in codes {
        let state = GameState::from_code(code);
        let recoded = state.to_code();
        let state = format!("{:?}", state.fields);
        assert_eq!(
            code, recoded,
            "testing state <=> code serialisation of {state}"
        );
    }
}

#[test]
fn game_win_move_none() {
    let state = GameState {
        fields: [
            // 0 1 2
            Empty, Empty, Empty, // 3 4 5
            Empty, Empty, Empty, // 6 7 8
            Empty, Empty, Empty,
        ],
    };

    assert_eq!(state.get_winning_move(Human), None);
    assert_eq!(state.get_winning_move(Computer), None);
}

#[test]
fn game_win_move1() {
    let state = GameState {
        fields: [
            // 0 1 2
            Computer, Computer, Empty, // 3 4 5
            Empty, Human, Empty, // 6 7 8
            Empty, Human, Empty,
        ],
    };

    assert_eq!(state.get_winning_move(Human), None);
    assert_eq!(state.get_winning_move(Computer), Some(2));
}

#[test]
fn game_win_move2() {
    let state = GameState {
        fields: [
            // 0 1 2
            Empty, Computer, Empty, // 3 4 5
            Empty, Empty, Empty, // 6 7 8
            Computer, Empty, Computer,
        ],
    };

    assert_eq!(state.get_winning_move(Human), None);
    assert_eq!(state.get_winning_move(Computer), Some(7));
}

#[test]
fn game_win_move1a() {
    let state = GameState {
        fields: [
            // 0 1 2
            Computer, Computer, Empty, // 3 4 5
            Empty, Empty, Empty, // 6 7 8
            Empty, Human, Empty,
        ],
    };

    assert_eq!(state.get_winning_move(Human), None);
    assert_eq!(state.get_winning_move(Computer), Some(2));
}
