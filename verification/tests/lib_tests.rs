use tik_tak_to_learning::rotate_id_180 as rot;
use tik_tak_to_learning::rotate_id_left as left;
use tik_tak_to_learning::rotate_id_right as right;
use tik_tak_to_learning::Entry::{Circle, Cross, Empty};
use tik_tak_to_learning::{Entry, Game, State};

#[test]
fn lib_rotate_right() {
    for i in 0..9 {
        assert_eq!(
            i,
            right(right(right(right(i)))),
            "testing rotation right of field #{}",
            i
        );
    }
}

#[test]
fn lib_rotate_left() {
    for i in 0..9 {
        assert_eq!(
            i,
            left(left(left(left(i)))),
            "testing rotation left of field #{}",
            i
        );
    }
}

#[test]
fn lib_rotate_180() {
    for i in 0..9 {
        assert_eq!(i, rot(rot(i)), "testing 180° rotation of field {}", i);
    }
}

#[test]
fn state_encoding() {
    // `State::from_code` is defined on codes below `3^9` alone; codes beyond
    // that range have no nine-cell board and are left out.
    let codes = [0usize, 213, 554, 2, 345, 23, 4, 325, 43, 453, 6, 5347, 765, 537, 5234];

    for code in codes {
        let state = State::from_code(code);
        let recoded = state.to_code();
        let state = format!("{:?}", state.fields);
        assert_eq!(
            code, recoded,
            "testing state <=> code serialisation of {state}"
        );
    }
}

#[test]
fn lib_win_move_none() {
    let state = State {
        fields: [
            // 0 1 2
            Empty, Empty, Empty, // 3 4 5
            Empty, Empty, Empty, // 6 7 8
            Empty, Empty, Empty,
        ],
    };

    assert_eq!(state.get_winning_move(Circle), None);
    assert_eq!(state.get_winning_move(Cross), None);
}

#[test]
fn lib_win_move1() {
    let state = State {
        fields: [
            // 0 1 2
            Cross, Cross, Empty, // 3 4 5
            Empty, Circle, Empty, // 6 7 8
            Empty, Circle, Empty,
        ],
    };

    assert_eq!(state.get_winning_move(Circle), None);
    assert_eq!(state.get_winning_move(Cross), Some(2));
}

#[test]
fn lib_win_move2() {
    let state = State {
        fields: [
            // 0 1 2
            Empty, Cross, Empty, // 3 4 5
            Empty, Empty, Empty, // 6 7 8
            Cross, Empty, Cross,
        ],
    };

    assert_eq!(state.get_winning_move(Circle), None);
    assert_eq!(state.get_winning_move(Cross), Some(7));
}

#[test]
fn lib_win_move1a() {
    let state = State {
        fields: [
            // 0 1 2
            Cross, Cross, Empty, // 3 4 5
            Empty, Empty, Empty, // 6 7 8
            Empty, Circle, Empty,
        ],
    };

    assert_eq!(state.get_winning_move(Circle), None);
    assert_eq!(state.get_winning_move(Cross), Some(2));
}

#[test]
fn lib_state_setup() {
    let game = Game::initial_setup(Entry::Cross);
    // this isn't exactly useful
    assert!(game.states.len() > 600);
}
