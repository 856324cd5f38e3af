//! The learning model: the canonical-state table, move prediction and the
//! reinforcement update.

use vstd::prelude::*;
use crate::board::{
    code_of, find_from, find_transform, initial_actions, inv_rotation_tag, matched_actions,
    setup_step, setup_table, setup_upto, step_update, transform_board, transform_pos, update_all,
    lemma_remove_first_at, lemma_update_all_push,
};
use crate::game::{Entry, FieldId, GameState, entry_val, transform_id};
use crate::table::StateTable;

verus! {

broadcast use crate::game::lemma_game_state_wf;

/// One of the four rotations of the symmetry group; flips are tracked by a
/// separate boolean.
#[derive(Debug, PartialEq, Eq, Clone, Copy)]
pub enum Rotation {
    NoTurn,
    Left,
    Right,
    Rot180,
}

/// The tag of a rotation in the board model.
pub open spec fn rotation_tag(r: Rotation) -> int {
    match r {
        Rotation::NoTurn => 0,
        Rotation::Left => 1,
        Rotation::Right => 2,
        Rotation::Rot180 => 3,
    }
}

/// The rotation that undoes `r`: left and right undo each other, the other
/// two undo themselves.
pub fn inverse(r: Rotation) -> (inv: Rotation)
    ensures
        rotation_tag(inv) == inv_rotation_tag(rotation_tag(r)),
{
    match r {
        Rotation::Left => Rotation::Right,
        Rotation::Right => Rotation::Left,
        x => x,
    }
}

/// The learning model: a table from canonical states to candidate moves.
pub struct Model {
    /// Mapping of state codes to each state's list of candidate actions.
    pub state_map: StateTable,
}

/// One move taken during a game: the canonical state it was resolved from,
/// the position chosen in that canonical frame, and the position mapped back
/// into the actual board's frame.
pub struct MappedFieldId {
    pub field: FieldId,
    pub origin: FieldId,
    pub origin_state: GameState,
}

/// Relies on `rand::random`: one draw from the thread-local generator.
/// Nothing is promised of the value.
#[verifier::external_body]
fn random_u64() -> u64 {
    rand::random::<u64>()
}

/// The view of a recorded move that the update rule works on: the canonical
/// board and the canonical-frame choice.
pub open spec fn step_view(a: MappedFieldId) -> (Seq<int>, u8) {
    (a.origin_state@, a.origin)
}

impl Model {
    /// The first transform, in the fixed lookup order, whose image of `state`
    /// is in the table, with that state's candidate moves and the matched
    /// canonical board.
    pub fn get_state_transformation(&self, state: &GameState) -> (r: Option<
        (Rotation, bool, Vec<FieldId>, GameState),
    >)
        ensures
            (match r {
                Some((rotation, flip, fields, canon)) => {
                    &&& find_transform(self.state_map@, state@) == Some(
                        (rotation_tag(rotation), flip),
                    )
                    &&& canon@ == transform_board(state@, rotation_tag(rotation), flip)
                    &&& self.state_map@.contains_key(code_of(canon@) as usize)
                    &&& fields@ == self.state_map@[code_of(canon@) as usize]
                },
                None => find_transform(self.state_map@, state@) is None,
            }),
    {
        let rotations = [Rotation::NoTurn, Rotation::Left, Rotation::Right, Rotation::Rot180];
        for k in 0..8usize
            invariant
                find_transform(self.state_map@, state@) == find_from(
                    self.state_map@,
                    state@,
                    k as int,
                ),
                rotations@ =~= seq![Rotation::NoTurn, Rotation::Left, Rotation::Right, Rotation::Rot180],
        {
            let rotation = rotations[k / 2];
            let flip = k % 2 == 1;
            proof {
                assert(rotation_tag(rotation) == crate::board::combo_rot(k as int));
                assert(flip == crate::board::combo_flip(k as int));
            }
            let canon = state.transform_field(rotation, flip);
            let code = canon.to_code();
            if let Some(fields) = self.state_map.get(code) {
                let owned = copy_actions(fields);
                return Some((rotation, flip, owned, canon));
            }
            proof {
                assert(find_from(self.state_map@, state@, k as int) == find_from(
                    self.state_map@,
                    state@,
                    k as int + 1,
                ));
            }
        }
        None
    }

    /// Chooses a move for the current board: resolves the board to its
    /// canonical table state, picks one of that state's candidates at random,
    /// and maps the choice back into the board's own frame through the
    /// inverted rotation with the same flip.
    pub fn predict_move(&self, state: &GameState) -> (r: MappedFieldId)
        requires
            find_transform(self.state_map@, state@) is Some,
            matched_actions(self.state_map@, state@).len() > 0,
            forall|i: int|
                0 <= i < matched_actions(self.state_map@, state@).len() ==> #[trigger] matched_actions(
                    self.state_map@,
                    state@,
                )[i] < 9,
        ensures
            (match find_transform(self.state_map@, state@) {
                Some((rot, flip)) => {
                    &&& r.origin_state@ == transform_board(state@, rot, flip)
                    &&& matched_actions(self.state_map@, state@).contains(r.origin)
                    &&& r.origin < 9
                    &&& r.field < 9
                    &&& r.field as int == transform_pos(
                        r.origin as int,
                        inv_rotation_tag(rot),
                        flip,
                    )
                },
                None => false,
            }),
    {
        let found = self.get_state_transformation(state);
        match found {
            Some((rotation, flip, fields, origin_state)) => {
                proof {
                    assert(matched_actions(self.state_map@, state@) == fields@);
                }
                let index = (random_u64() % (fields.len() as u64)) as usize;
                let origin = fields[index];
                proof {
                    assert(fields@.contains(origin));
                }
                let field = transform_id(origin, inverse(rotation), flip);
                MappedFieldId { field, origin, origin_state }
            },
            None => vstd::pervasive::unreached(),
        }
    }

    /// Replays one finished game over the table, earliest move first: on a
    /// win or draw each chosen position is appended to its state's candidate
    /// list; on a loss its first occurrence is removed, and a list emptied by
    /// the removal is reset to every empty position of its board.
    pub fn update_predictions(&mut self, actions: &[MappedFieldId], game_lost: bool)
        requires
            forall|i: int|
                0 <= i < actions@.len() ==> old(self).state_map@.contains_key(
                    code_of(#[trigger] actions@[i].origin_state@) as usize,
                ),
        ensures
            final(self).state_map@ == update_all(
                old(self).state_map@,
                actions@.map_values(|a: MappedFieldId| step_view(a)),
                game_lost,
            ),
    {
        let ghost steps = actions@.map_values(|a: MappedFieldId| step_view(a));
        proof {
            assert(steps.take(0) =~= Seq::<(Seq<int>, u8)>::empty());
        }
        for idx in 0..actions.len()
            invariant
                steps == actions@.map_values(|a: MappedFieldId| step_view(a)),
                self.state_map@ == update_all(old(self).state_map@, steps.take(idx as int), game_lost),
                forall|i: int|
                    0 <= i < actions@.len() ==> old(self).state_map@.contains_key(
                        code_of(#[trigger] actions@[i].origin_state@) as usize,
                    ),
                forall|k: usize|
                    old(self).state_map@.contains_key(k) ==> self.state_map@.contains_key(k),
        {
            let step = &actions[idx];
            let key = step.origin_state.to_code();
            let ghost before = self.state_map@;
            let fields = match self.state_map.get(key) {
                Some(fields) => fields,
                None => vstd::pervasive::unreached(),
            };
            let mut updated = copy_actions(fields);
            if !game_lost {
                updated.push(step.origin);
                self.state_map.insert(key, updated);
            } else {
                let mut j: usize = 0;
                while j < updated.len() && updated[j] != step.origin
                    invariant
                        j <= updated@.len(),
                        forall|jj: int| 0 <= jj < j ==> updated@[jj] != step.origin,
                    decreases updated@.len() - j,
                {
                    j = j + 1;
                }
                if j < updated.len() {
                    updated.remove(j);
                    proof {
                        lemma_remove_first_at(before[key], step.origin, j as int);
                        assert(before[key].contains(step.origin));
                    }
                    if updated.len() == 0 {
                        updated = step.origin_state.empty_field_positions();
                    }
                    self.state_map.insert(key, updated);
                } else {
                    proof {
                        assert(!before[key].contains(step.origin));
                    }
                }
            }
            proof {
                assert(self.state_map@ == step_update(
                    before,
                    step.origin_state@,
                    step.origin,
                    game_lost,
                ));
                assert(steps.take(idx + 1) =~= steps.take(idx as int).push(steps[idx as int]));
                lemma_update_all_push(
                    old(self).state_map@,
                    steps.take(idx as int),
                    steps[idx as int],
                    game_lost,
                );
            }
        }
        proof {
            assert(steps.take(actions@.len() as int) =~= steps);
        }
    }

    /// Builds the table: every board code below `pow3(9)` is decoded and
    /// entered under its own code unless an image of the board is already a
    /// key, the board is already won, or an even number of its cells is
    /// occupied; a registered state starts with its immediately winning move
    /// alone if it has one, else with every empty position.
    pub fn initial_setup() -> (model: Model)
        ensures
            model.state_map@ == setup_table(entry_val(Entry::Computer)),
    {
        let mut model = Model { state_map: StateTable::new() };
        let mut code: usize = 0;
        while code < 19683
            invariant
                code <= 19683,
                model.state_map@ == setup_upto(code as int, entry_val(Entry::Computer)),
            decreases 19683 - code,
        {
            let state = GameState::from_code(code);
            let ghost before = model.state_map@;
            let found = model.get_state_transformation(&state).is_some();
            if !found && state.get_winner().is_none() && state.amount_of_fields_set() % 2 != 0 {
                let options: Vec<FieldId> = match state.get_winning_move(Entry::Computer) {
                    Some(field_id) => vec![field_id],
                    None => state.empty_field_positions(),
                };
                proof {
                    assert(options@ == initial_actions(state@, entry_val(Entry::Computer)));
                }
                model.state_map.insert(code, options);
            }
            proof {
                assert(model.state_map@ == setup_step(
                    before,
                    code as int,
                    entry_val(Entry::Computer),
                ));
            }
            code = code + 1;
        }
        model
    }
}

/// A copy of a candidate list, element for element.
fn copy_actions(fields: &Vec<FieldId>) -> (r: Vec<FieldId>)
    ensures
        r@ == fields@,
{
    let mut r: Vec<FieldId> = Vec::new();
    for i in 0..fields.len()
        invariant
            r@ == fields@.take(i as int),
    {
        r.push(fields[i]);
        proof {
            assert(fields@.take(i + 1) =~= fields@.take(i as int).push(fields@[i as int]));
        }
    }
    proof {
        assert(fields@.take(fields@.len() as int) =~= fields@);
    }
    r
}

} // verus!

