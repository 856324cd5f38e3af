//! A learning tic-tac-toe player: a table from symmetry-reduced board states
//! to candidate next moves, built by exhaustive enumeration and adjusted by a
//! trial-and-reinforcement rule after each finished game.
//!
//! The crate root holds the standalone `State`/`Game` pair; the `game` and
//! `model` modules hold the board type and the learning model that work
//! together. Both views into the same board mathematics live in `board`.

use vstd::prelude::*;

pub mod board;
pub mod game;
pub mod model;
pub mod table;

use crate::board::{
    board_wf, code_of, count_occupied, count_occupied_upto, decode_of, empty_positions,
    empty_positions_upto, find_from, find_transform, flip_pos, initial_actions, pow3,
    rot_180_pos, rot_left_pos, rot_right_pos, setup_step, setup_table, setup_upto, spec_winner,
    spec_winning_move, transform_board, transform_pos, win_scan, lemma_code_of_bounds,
    lemma_decode_wf, lemma_transform_pos_bijective,
};
use crate::table::StateTable;

verus! {

broadcast use vstd::array::group_array_axioms;

/// A field position, in [0, 9):
/// ```text
///  0  1  2
///  3  4  5
///  6  7  8
/// ```
type FieldId = u8;

/// One cell of the board.
#[derive(Copy, Clone, Debug, Eq, PartialEq, Structural, Hash)]
pub enum Entry {
    Empty,
    Cross,
    Circle,
}

/// The cell's value in the board model: 0 empty, 1 a cross, 2 a circle.
pub open spec fn entry_val(e: Entry) -> int {
    match e {
        Entry::Empty => 0,
        Entry::Cross => 1,
        Entry::Circle => 2,
    }
}

/// A full board: exactly 9 cells, row-major.
#[derive(Copy, Clone, Debug, Eq, PartialEq, Hash)]
pub struct State {
    pub fields: [Entry; 9],
}

impl View for State {
    type V = Seq<int>;

    open spec fn view(&self) -> Seq<int> {
        self.fields@.map_values(|e: Entry| entry_val(e))
    }
}

/// Every board's model is well formed: 9 cells, each 0, 1 or 2.
pub broadcast proof fn lemma_state_wf(s: State)
    ensures
        board_wf(#[trigger] s@),
{
    assert(s.fields@.len() == 9);
}

/// One of the four rotations of the symmetry group; flips are tracked by a
/// separate boolean.
#[derive(Debug, PartialEq, Eq, Clone, Copy)]
pub enum Rotation {
    NoTurn,
    Left,
    Right,
    Rot180,
}

/// The tag of a rotation in the board model.
pub open spec fn rotation_tag(r: Rotation) -> int {
    match r {
        Rotation::NoTurn => 0,
        Rotation::Left => 1,
        Rotation::Right => 2,
        Rotation::Rot180 => 3,
    }
}

/// Field position after a half turn.
pub fn rotate_id_180(f: FieldId) -> (r: FieldId)
    requires
        f < 9,
    ensures
        r < 9,
        r as int == rot_180_pos(f as int),
{
    match f {
        0 => 8,
        1 => 7,
        2 => 6,
        3 => 5,
        4 => 4,
        5 => 3,
        6 => 2,
        7 => 1,
        8 => 0,
        _ => 0,
    }
}

/// Field position after a quarter turn to the left.
pub fn rotate_id_left(f: FieldId) -> (r: FieldId)
    requires
        f < 9,
    ensures
        r < 9,
        r as int == rot_left_pos(f as int),
{
    match f {
        0 => 6,
        1 => 3,
        2 => 0,
        3 => 7,
        4 => 4,
        5 => 1,
        6 => 8,
        7 => 5,
        8 => 2,
        _ => 0,
    }
}

/// Field position after a quarter turn to the right.
pub fn rotate_id_right(f: FieldId) -> (r: FieldId)
    requires
        f < 9,
    ensures
        r < 9,
        r as int == rot_right_pos(f as int),
{
    match f {
        0 => 2,
        1 => 5,
        2 => 8,
        3 => 1,
        4 => 4,
        5 => 7,
        6 => 0,
        7 => 3,
        8 => 6,
        _ => 0,
    }
}

/// Field position after mirroring about the middle column.
pub fn flip_id(f: FieldId) -> (r: FieldId)
    requires
        f < 9,
    ensures
        r < 9,
        r as int == flip_pos(f as int),
{
    match f {
        2 | 5 | 8 => f - 2,
        0 | 3 | 6 => f + 2,
        _ => f,
    }
}

/// Where a field position lands under a transform: the flip, if asked for,
/// is applied before the rotation.
pub fn transform_id(f: FieldId, rotation: Rotation, flip: bool) -> (r: FieldId)
    requires
        f < 9,
    ensures
        r < 9,
        r as int == transform_pos(f as int, rotation_tag(rotation), flip),
{
    let f2: FieldId = if flip {
        flip_id(f)
    } else {
        f
    };
    match rotation {
        Rotation::NoTurn => f2,
        Rotation::Left => rotate_id_left(f2),
        Rotation::Right => rotate_id_right(f2),
        Rotation::Rot180 => rotate_id_180(f2),
    }
}

impl State {
    /// The winning mark, if a row, column or diagonal is complete; rows are
    /// checked first, then columns, then the two diagonals.
    pub fn get_winner(&self) -> (r: Option<Entry>)
        ensures
            (match r {
                Some(e) => spec_winner(self@) == Some(entry_val(e)) && e != Entry::Empty,
                None => spec_winner(self@) is None,
            }),
    {
        if self.fields[0] != Entry::Empty && self.fields[0] == self.fields[1] && self.fields[0]
            == self.fields[2] {
            return Some(self.fields[0]);
        }
        if self.fields[3] != Entry::Empty && self.fields[3] == self.fields[4] && self.fields[3]
            == self.fields[5] {
            return Some(self.fields[3]);
        }
        if self.fields[6] != Entry::Empty && self.fields[6] == self.fields[7] && self.fields[6]
            == self.fields[8] {
            return Some(self.fields[6]);
        }
        if self.fields[0] != Entry::Empty && self.fields[0] == self.fields[3] && self.fields[0]
            == self.fields[6] {
            return Some(self.fields[0]);
        }
        if self.fields[1] != Entry::Empty && self.fields[1] == self.fields[4] && self.fields[1]
            == self.fields[7] {
            return Some(self.fields[1]);
        }
        if self.fields[2] != Entry::Empty && self.fields[2] == self.fields[5] && self.fields[2]
            == self.fields[8] {
            return Some(self.fields[2]);
        }
        // both diagonals run through the middle cell
        if self.fields[4] == Entry::Empty {
            return None;
        }
        if self.fields[0] == self.fields[4] && self.fields[0] == self.fields[8] {
            return Some(self.fields[0]);
        }
        if self.fields[2] == self.fields[4] && self.fields[2] == self.fields[6] {
            return Some(self.fields[2]);
        }
        None
    }

    /// The position the player would need to occupy to win at once: none if
    /// the game is already won, else the lowest empty position whose
    /// occupation completes a line.
    pub fn get_winning_move(&self, player: Entry) -> (r: Option<FieldId>)
        requires
            player != Entry::Empty,
        ensures
            (match r {
                Some(i) => i < 9 && spec_winning_move(self@, entry_val(player)) == Some(i as int),
                None => spec_winning_move(self@, entry_val(player)) is None,
            }),
    {
        if self.get_winner().is_some() {
            return None;
        }
        for i in 0..9usize
            invariant
                spec_winner(self@) is None,
                player != Entry::Empty,
                win_scan(self@, entry_val(player), 0) == win_scan(self@, entry_val(player), i as int),
        {
            if self.fields[i] == Entry::Empty {
                let mut state = *self;
                state.fields[i] = player;
                proof {
                    assert(state@ =~= self@.update(i as int, entry_val(player)));
                }
                if state.get_winner().is_some() {
                    return Some(i as u8);
                }
            }
        }
        None
    }

    /// The board with every cell relocated through the transform.
    pub fn transform(self, rotation: Rotation, flip: bool) -> (r: Self)
        ensures
            r@ == transform_board(self@, rotation_tag(rotation), flip),
    {
        let mut fields: [Entry; 9] = [Entry::Empty; 9];
        for i in 0..9usize
            invariant
                forall|p: int|
                    0 <= p < i ==> fields@[transform_pos(p, rotation_tag(rotation), flip)]
                        == self.fields@[p],
        {
            let new_id = transform_id(i as u8, rotation, flip);
            proof {
                lemma_transform_pos_bijective(rotation_tag(rotation), flip);
            }
            fields[new_id as usize] = self.fields[i];
        }
        let r = State { fields };
        proof {
            lemma_transform_pos_bijective(rotation_tag(rotation), flip);
            assert forall|j: int| 0 <= j < 9 implies r@[j] == transform_board(
                self@,
                rotation_tag(rotation),
                flip,
            )[j] by {
                let p = crate::board::transform_pre_pos(j, rotation_tag(rotation), flip);
                assert(transform_pos(p, rotation_tag(rotation), flip) == j);
                assert(fields@[j] == self.fields@[p]);
            }
            assert(r@ =~= transform_board(self@, rotation_tag(rotation), flip));
        }
        r
    }

    /// The board whose base-3 encoding is `code`, cell 0 as the least
    /// significant digit.
    pub fn from_code(code: usize) -> (r: Self)
        requires
            code < 19683,
        ensures
            r@ == decode_of(code as int, 9),
    {
        let mut fields: [Entry; 9] = [Entry::Empty; 9];
        let mut c: usize = code;
        proof {
            lemma_decode_wf(code as int, 9);
            assert(decode_of(c as int, 9) =~= decode_of(code as int, 9).subrange(0, 9));
        }
        for i in 0..9usize
            invariant
                forall|j: int|
                    0 <= j < i ==> entry_val(#[trigger] fields@[j]) == decode_of(
                        code as int,
                        9,
                    )[j],
                decode_of(c as int, (9 - i) as nat) =~= decode_of(code as int, 9).subrange(
                    i as int,
                    9,
                ),
        {
            let rest: usize = c % 3;
            let ghost c_old = c as int;
            c = c / 3;
            let e = if rest == 0 {
                Entry::Empty
            } else if rest == 1 {
                Entry::Cross
            } else {
                Entry::Circle
            };
            fields[i] = e;
            proof {
                lemma_decode_wf(code as int, 9);
                let full = decode_of(code as int, 9);
                let here = decode_of(c_old, (9 - i) as nat);
                assert(here =~= seq![c_old % 3] + decode_of(c_old / 3, (8 - i) as nat));
                assert(here[0] == c_old % 3);
                assert(full.subrange(i as int, 9)[0] == full[i as int]);
                assert(full[i as int] == c_old % 3);
                assert(entry_val(e) == c_old % 3);
                assert(here.drop_first() =~= decode_of(c as int, (8 - i) as nat));
                assert(full.subrange(i as int, 9).drop_first() =~= full.subrange(i + 1, 9));
                assert(decode_of(c as int, (9 - (i + 1)) as nat) =~= full.subrange(i + 1, 9));
            }
        }
        let r = State { fields };
        proof {
            lemma_decode_wf(code as int, 9);
            assert(r@ =~= decode_of(code as int, 9));
        }
        r
    }

    /// The base-3 encoding of the board, always below `pow3(9)`.
    pub fn to_code(&self) -> (code: usize)
        ensures
            code == code_of(self@),
            code < 19683,
    {
        proof {
            reveal_with_fuel(pow3, 10);
            lemma_state_wf(*self);
            lemma_code_of_bounds(self@);
        }
        let mut acc: usize = 0;
        let mut i: usize = 9;
        proof {
            assert(self@.subrange(9, 9) =~= Seq::<int>::empty());
        }
        while i > 0
            invariant
                i <= 9,
                acc == code_of(self@.subrange(i as int, 9)),
                acc < pow3((9 - i) as nat),
            decreases i,
        {
            i = i - 1;
            let d: usize = match self.fields[i] {
                Entry::Empty => 0,
                Entry::Cross => 1,
                Entry::Circle => 2,
            };
            proof {
                reveal_with_fuel(pow3, 10);
                lemma_state_wf(*self);
                crate::board::lemma_pow3_monotone((8 - i) as nat, 8);
                let suffix = self@.subrange(i as int, 9);
                assert(suffix.drop_first() =~= self@.subrange(i + 1, 9));
                assert(suffix[0] == self@[i as int]);
                assert(d == self@[i as int]);
                lemma_code_of_bounds(suffix);
            }
            acc = acc * 3 + d;
        }
        proof {
            assert(self@.subrange(0, 9) =~= self@);
            reveal_with_fuel(pow3, 10);
        }
        acc
    }

    /// The positions of the empty cells, in ascending order.
    pub fn empty_field_positions(&self) -> (v: Vec<FieldId>)
        ensures
            v@ == empty_positions(self@),
    {
        let mut v: Vec<FieldId> = Vec::new();
        for i in 0..9usize
            invariant
                v@ == empty_positions_upto(self@, i as int),
        {
            if self.fields[i] == Entry::Empty {
                v.push(i as u8);
            }
            proof {
                if self@[i as int] == 0 {
                    assert(empty_positions_upto(self@, i + 1) =~= empty_positions_upto(
                        self@,
                        i as int,
                    ) + seq![i as u8]);
                } else {
                    assert(empty_positions_upto(self@, i + 1) =~= empty_positions_upto(
                        self@,
                        i as int,
                    ));
                }
            }
        }
        v
    }

    /// How many cells of the board are occupied.
    pub fn amount_of_fields_set(&self) -> (n: usize)
        ensures
            n == count_occupied(self@),
    {
        let mut n: usize = 0;
        for i in 0..9usize
            invariant
                n == count_occupied_upto(self@, i as int),
                n <= i,
        {
            if self.fields[i] != Entry::Empty {
                n = n + 1;
            }
        }
        n
    }
}

/// The learned game table: one candidate-move list per canonical state.
pub struct Game {
    /// Mapping of state codes to each state's list of candidate actions.
    pub states: StateTable,
}

impl Game {
    /// The candidate moves of the first transform, in the fixed lookup order,
    /// whose image of `state` is in the table, with that transform and the
    /// matched canonical board.
    pub fn get_available_moves(&self, state: &State) -> (r: Option<
        (Vec<FieldId>, Rotation, bool, State),
    >)
        ensures
            (match r {
                Some((fields, rotation, flip, canon)) => {
                    &&& find_transform(self.states@, state@) == Some(
                        (rotation_tag(rotation), flip),
                    )
                    &&& canon@ == transform_board(state@, rotation_tag(rotation), flip)
                    &&& self.states@.contains_key(code_of(canon@) as usize)
                    &&& fields@ == self.states@[code_of(canon@) as usize]
                },
                None => find_transform(self.states@, state@) is None,
            }),
    {
        let rotations = [Rotation::NoTurn, Rotation::Left, Rotation::Right, Rotation::Rot180];
        for k in 0..8usize
            invariant
                find_transform(self.states@, state@) == find_from(
                    self.states@,
                    state@,
                    k as int,
                ),
                rotations@ =~= seq![Rotation::NoTurn, Rotation::Left, Rotation::Right, Rotation::Rot180],
        {
            let rotation = rotations[k / 2];
            let flip = k % 2 == 1;
            proof {
                assert(rotation_tag(rotation) == crate::board::combo_rot(k as int));
                assert(flip == crate::board::combo_flip(k as int));
            }
            let canon = state.transform(rotation, flip);
            let code = canon.to_code();
            if let Some(fields) = self.states.get(code) {
                let mut owned: Vec<FieldId> = Vec::new();
                for i in 0..fields.len()
                    invariant
                        owned@ == fields@.take(i as int),
                {
                    owned.push(fields[i]);
                    proof {
                        assert(fields@.take(i + 1) =~= fields@.take(i as int).push(
                            fields@[i as int],
                        ));
                    }
                }
                proof {
                    assert(fields@.take(fields@.len() as int) =~= fields@);
                }
                return Some((owned, rotation, flip, canon));
            }
            proof {
                assert(find_from(self.states@, state@, k as int) == find_from(
                    self.states@,
                    state@,
                    k as int + 1,
                ));
            }
        }
        None
    }

    /// Builds the table for the given learner mark: every board code below
    /// `pow3(9)` is decoded and entered under its own code unless an image of
    /// the board is already a key, the board is already won, or an even
    /// number of its cells is occupied; a registered state starts with its
    /// immediately winning move alone if it has one, else with every empty
    /// position.
    pub fn initial_setup(cpu_player: Entry) -> (game: Game)
        requires
            cpu_player != Entry::Empty,
        ensures
            game.states@ == setup_table(entry_val(cpu_player)),
    {
        let mut game = Game { states: StateTable::new() };
        let mut code: usize = 0;
        while code < 19683
            invariant
                code <= 19683,
                cpu_player != Entry::Empty,
                game.states@ == setup_upto(code as int, entry_val(cpu_player)),
            decreases 19683 - code,
        {
            let state = State::from_code(code);
            let ghost before = game.states@;
            let found = game.get_available_moves(&state).is_some();
            if !found && state.get_winner().is_none() && state.amount_of_fields_set() % 2 != 0 {
                let options: Vec<FieldId> = match state.get_winning_move(cpu_player) {
                    Some(field_id) => vec![field_id],
                    None => state.empty_field_positions(),
                };
                proof {
                    assert(options@ == initial_actions(state@, entry_val(cpu_player)));
                }
                game.states.insert(code, options);
            }
            proof {
                assert(game.states@ == setup_step(before, code as int, entry_val(cpu_player)));
            }
            code = code + 1;
        }
        game
    }
}

} // verus!
