//! Mathematical model of a tic-tac-toe board and of the learning table.
//!
//! A board is a sequence of 9 cell values in row-major order: 0 for an empty
//! cell, 1 for the learning player's mark, 2 for the opponent's mark. The
//! executable cell enums of the crate view into this model, so the encoding,
//! symmetry and learning rules are stated once, here.

use vstd::prelude::*;

verus! {

/// A well-formed board model: 9 cells, each holding 0, 1 or 2.
pub open spec fn board_wf(s: Seq<int>) -> bool {
    &&& s.len() == 9
    &&& forall|i: int| 0 <= i < 9 ==> 0 <= #[trigger] s[i] < 3
}

/// 3 to the power `n`.
pub open spec fn pow3(n: nat) -> int
    decreases n,
{
    if n == 0 {
        1
    } else {
        3 * pow3((n - 1) as nat)
    }
}

pub proof fn lemma_pow3_monotone(a: nat, b: nat)
    requires
        a <= b,
    ensures
        pow3(a) <= pow3(b),
    decreases b,
{
    if a < b {
        lemma_pow3_monotone(a, (b - 1) as nat);
        assert(pow3((b - 1) as nat) > 0) by {
            lemma_pow3_pos((b - 1) as nat);
        }
    }
}

pub proof fn lemma_pow3_pos(n: nat)
    ensures
        pow3(n) > 0,
    decreases n,
{
    if n > 0 {
        lemma_pow3_pos((n - 1) as nat);
    }
}

/// Base-3 value of a cell sequence, cell 0 as the least significant digit.
pub open spec fn code_of(s: Seq<int>) -> int
    decreases s.len(),
{
    if s.len() == 0 {
        0
    } else {
        s[0] + 3 * code_of(s.drop_first())
    }
}

/// The `n`-cell board whose base-3 encoding is `c`.
pub open spec fn decode_of(c: int, n: nat) -> Seq<int>
    decreases n,
{
    if n == 0 {
        Seq::empty()
    } else {
        seq![c % 3] + decode_of(c / 3, (n - 1) as nat)
    }
}

pub proof fn lemma_code_of_bounds(s: Seq<int>)
    requires
        forall|i: int| 0 <= i < s.len() ==> 0 <= #[trigger] s[i] < 3,
    ensures
        0 <= code_of(s) < pow3(s.len()),
    decreases s.len(),
{
    if s.len() > 0 {
        lemma_code_of_bounds(s.drop_first());
    }
}

pub proof fn lemma_decode_wf(c: int, n: nat)
    requires
        0 <= c,
    ensures
        decode_of(c, n).len() == n,
        forall|i: int| 0 <= i < n ==> 0 <= #[trigger] decode_of(c, n)[i] < 3,
    decreases n,
{
    if n > 0 {
        vstd::arithmetic::div_mod::lemma_mod_bound(c, 3);
        vstd::arithmetic::div_mod::lemma_div_pos_is_pos(c, 3);
        lemma_decode_wf(c / 3, (n - 1) as nat);
    }
}

/// Encoding inverts decoding: every code below `pow3(n)` is reproduced.
pub proof fn lemma_encode_decode(c: int, n: nat)
    requires
        0 <= c < pow3(n),
    ensures
        code_of(decode_of(c, n)) == c,
    decreases n,
{
    if n == 0 {
    } else {
        vstd::arithmetic::div_mod::lemma_fundamental_div_mod(c, 3);
        vstd::arithmetic::div_mod::lemma_mod_bound(c, 3);
        vstd::arithmetic::div_mod::lemma_div_pos_is_pos(c, 3);
        assert(c / 3 < pow3((n - 1) as nat)) by {
            let p: int = pow3((n - 1) as nat);
            assert(3 * (c / 3) <= c < 3 * p);
        }
        lemma_encode_decode(c / 3, (n - 1) as nat);
        let s = decode_of(c, n);
        assert(s.drop_first() =~= decode_of(c / 3, (n - 1) as nat));
        assert(s[0] == c % 3);
    }
}

/// Round trip at the board's own size: every code below `pow3(9)` encodes
/// back to itself after decoding.
pub proof fn lemma_code_round_trip(c: int)
    requires
        0 <= c < 19683,
    ensures
        code_of(decode_of(c, 9)) == c,
{
    reveal_with_fuel(pow3, 10);
    lemma_encode_decode(c, 9);
}

/// Decoding inverts encoding: a well-formed cell sequence is reproduced.
pub proof fn lemma_decode_encode(s: Seq<int>)
    requires
        forall|i: int| 0 <= i < s.len() ==> 0 <= #[trigger] s[i] < 3,
    ensures
        decode_of(code_of(s), s.len()) =~= s,
    decreases s.len(),
{
    if s.len() > 0 {
        let rest = s.drop_first();
        lemma_code_of_bounds(rest);
        let c: int = code_of(s);
        assert(c == s[0] + 3 * code_of(rest));
        vstd::arithmetic::div_mod::lemma_fundamental_div_mod_converse(
            c,
            3,
            code_of(rest),
            s[0],
        );
        lemma_decode_encode(rest);
        assert(decode_of(c, s.len()) =~= seq![c % 3] + decode_of(c / 3, (s.len() - 1) as nat));
    }
}

/// Field position after a quarter turn to the left.
pub open spec fn rot_left_pos(p: int) -> int {
    if p == 0 {
        6
    } else if p == 1 {
        3
    } else if p == 2 {
        0
    } else if p == 3 {
        7
    } else if p == 5 {
        1
    } else if p == 6 {
        8
    } else if p == 7 {
        5
    } else if p == 8 {
        2
    } else {
        p
    }
}

/// Field position after a quarter turn to the right.
pub open spec fn rot_right_pos(p: int) -> int {
    if p == 0 {
        2
    } else if p == 1 {
        5
    } else if p == 2 {
        8
    } else if p == 3 {
        1
    } else if p == 5 {
        7
    } else if p == 6 {
        0
    } else if p == 7 {
        3
    } else if p == 8 {
        6
    } else {
        p
    }
}

/// Field position after a half turn.
pub open spec fn rot_180_pos(p: int) -> int {
    if 0 <= p < 9 {
        8 - p
    } else {
        p
    }
}

/// Field position after mirroring the board about its middle column.
pub open spec fn flip_pos(p: int) -> int {
    if p == 2 || p == 5 || p == 8 {
        p - 2
    } else if p == 0 || p == 3 || p == 6 {
        p + 2
    } else {
        p
    }
}

/// The rotation that undoes `rot`: left and right undo each other, the other
/// two undo themselves. Rotations are modelled by a tag: 0 no turn, 1 left,
/// 2 right, 3 half turn.
pub open spec fn inv_rotation_tag(rot: int) -> int {
    if rot == 1 {
        2
    } else if rot == 2 {
        1
    } else {
        rot
    }
}

pub open spec fn apply_rotation_pos(p: int, rot: int) -> int {
    if rot == 1 {
        rot_left_pos(p)
    } else if rot == 2 {
        rot_right_pos(p)
    } else if rot == 3 {
        rot_180_pos(p)
    } else {
        p
    }
}

/// Where a field position lands under a transform: the flip, if asked for, is
/// applied before the rotation.
pub open spec fn transform_pos(p: int, rot: int, flip: bool) -> int {
    let q: int = if flip {
        flip_pos(p)
    } else {
        p
    };
    apply_rotation_pos(q, rot)
}

/// The position that `transform_pos(_, rot, flip)` sends to `j`: undo the
/// rotation, then undo the flip.
pub open spec fn transform_pre_pos(j: int, rot: int, flip: bool) -> int {
    let q: int = apply_rotation_pos(j, inv_rotation_tag(rot));
    if flip {
        flip_pos(q)
    } else {
        q
    }
}

/// The board with every cell relocated through `transform_pos`.
pub open spec fn transform_board(s: Seq<int>, rot: int, flip: bool) -> Seq<int> {
    Seq::new(9, |j: int| s[transform_pre_pos(j, rot, flip)])
}

/// `transform_pos` permutes the nine positions and `transform_pre_pos`
/// undoes it, in both orders of composition.
pub proof fn lemma_transform_pos_bijective(rot: int, flip: bool)
    ensures
        forall|p: int|
            0 <= p < 9 ==> {
                &&& 0 <= #[trigger] transform_pos(p, rot, flip) < 9
                &&& transform_pre_pos(transform_pos(p, rot, flip), rot, flip) == p
            },
        forall|j: int|
            0 <= j < 9 ==> {
                &&& 0 <= #[trigger] transform_pre_pos(j, rot, flip) < 9
                &&& transform_pos(transform_pre_pos(j, rot, flip), rot, flip) == j
            },
{
}

/// Three cells in a row holding the same mark, none of them empty.
pub open spec fn line_win(s: Seq<int>, a: int, b: int, c: int) -> bool {
    s[a] != 0 && s[a] == s[b] && s[a] == s[c]
}

/// The winning mark, if a row, column or diagonal is complete: rows first,
/// then columns, then the two diagonals; the first complete line decides.
pub open spec fn spec_winner(s: Seq<int>) -> Option<int> {
    if line_win(s, 0, 1, 2) {
        Some(s[0])
    } else if line_win(s, 3, 4, 5) {
        Some(s[3])
    } else if line_win(s, 6, 7, 8) {
        Some(s[6])
    } else if line_win(s, 0, 3, 6) {
        Some(s[0])
    } else if line_win(s, 1, 4, 7) {
        Some(s[1])
    } else if line_win(s, 2, 5, 8) {
        Some(s[2])
    } else if line_win(s, 0, 4, 8) {
        Some(s[0])
    } else if line_win(s, 2, 4, 6) {
        Some(s[2])
    } else {
        None
    }
}

/// First empty position at or after `i` where placing `mark` completes a line.
pub open spec fn win_scan(s: Seq<int>, mark: int, i: int) -> Option<int>
    decreases 9 - i,
{
    if i >= 9 {
        None
    } else if s[i] == 0 && spec_winner(s.update(i, mark)) is Some {
        Some(i)
    } else {
        win_scan(s, mark, i + 1)
    }
}

/// The move that wins at once for `mark`: none if the game is already won,
/// else the lowest empty position whose occupation completes a line.
pub open spec fn spec_winning_move(s: Seq<int>, mark: int) -> Option<int> {
    if spec_winner(s) is Some {
        None
    } else {
        win_scan(s, mark, 0)
    }
}

/// How many of the first `k` cells are occupied.
pub open spec fn count_occupied_upto(s: Seq<int>, k: int) -> nat
    decreases k,
{
    if k <= 0 {
        0
    } else {
        count_occupied_upto(s, k - 1) + (if s[k - 1] != 0 {
            1nat
        } else {
            0nat
        })
    }
}

/// How many cells of the board are occupied.
pub open spec fn count_occupied(s: Seq<int>) -> nat {
    count_occupied_upto(s, 9)
}

/// The empty positions among the first `k`, in ascending order.
pub open spec fn empty_positions_upto(s: Seq<int>, k: int) -> Seq<u8>
    decreases k,
{
    if k <= 0 {
        Seq::empty()
    } else {
        empty_positions_upto(s, k - 1) + (if s[k - 1] == 0 {
            seq![(k - 1) as u8]
        } else {
            Seq::empty()
        })
    }
}

/// All empty positions of the board, in ascending order.
pub open spec fn empty_positions(s: Seq<int>) -> Seq<u8> {
    empty_positions_upto(s, 9)
}

/// A board with an empty cell has a nonempty list of empty positions.
pub proof fn lemma_empty_positions_nonempty(s: Seq<int>, i: int)
    requires
        0 <= i < 9,
        s[i] == 0,
    ensures
        empty_positions(s).len() > 0,
{
    lemma_empty_positions_grow(s, i + 1, 9);
}

proof fn lemma_empty_positions_grow(s: Seq<int>, k: int, n: int)
    requires
        0 < k <= n,
        s[k - 1] == 0,
    ensures
        empty_positions_upto(s, n).len() > 0,
    decreases n,
{
    if n > k {
        lemma_empty_positions_grow(s, k, n - 1);
    }
}

/// Applying a quarter turn to the left four times returns every field
/// position to itself.
pub proof fn lemma_rotate_left_four(p: int)
    requires
        0 <= p < 9,
    ensures
        rot_left_pos(rot_left_pos(rot_left_pos(rot_left_pos(p)))) == p,
{
}

/// Applying a quarter turn to the right four times returns every field
/// position to itself.
pub proof fn lemma_rotate_right_four(p: int)
    requires
        0 <= p < 9,
    ensures
        rot_right_pos(rot_right_pos(rot_right_pos(rot_right_pos(p)))) == p,
{
}

/// Applying a half turn twice returns every field position to itself.
pub proof fn lemma_rotate_180_twice(p: int)
    requires
        0 <= p < 9,
    ensures
        rot_180_pos(rot_180_pos(p)) == p,
{
}

/// The learning table: board code, base 3, to the ordered candidate moves of
/// that board.
pub type Table = Map<usize, Seq<u8>>;

/// The transform tried at step `k` of a lookup: rotations in the order
/// no-turn, left, right, half turn, each first without and then with a flip.
pub open spec fn combo_rot(k: int) -> int {
    k / 2
}

pub open spec fn combo_flip(k: int) -> bool {
    k % 2 == 1
}

/// First transform at or after step `k` whose image of `s` is a table key.
pub open spec fn find_from(m: Table, s: Seq<int>, k: int) -> Option<(int, bool)>
    decreases 8 - k,
{
    if k < 0 || k >= 8 {
        None
    } else if m.contains_key(code_of(transform_board(s, combo_rot(k), combo_flip(k))) as usize) {
        Some((combo_rot(k), combo_flip(k)))
    } else {
        find_from(m, s, k + 1)
    }
}

/// The first of the eight transforms, in the fixed lookup order, whose image
/// of `s` is a key of the table.
pub open spec fn find_transform(m: Table, s: Seq<int>) -> Option<(int, bool)> {
    find_from(m, s, 0)
}

/// `l` with the first occurrence of `v` taken out; `l` itself if `v` does not
/// occur.
pub open spec fn remove_first(l: Seq<u8>, v: u8) -> Seq<u8>
    decreases l.len(),
{
    if l.len() == 0 {
        l
    } else if l[0] == v {
        l.drop_first()
    } else {
        seq![l[0]] + remove_first(l.drop_first(), v)
    }
}

/// Removing a value that occurs first at index `i` keeps everything else, in
/// order.
pub proof fn lemma_remove_first_at(l: Seq<u8>, v: u8, i: int)
    requires
        0 <= i < l.len(),
        l[i] == v,
        forall|j: int| 0 <= j < i ==> l[j] != v,
    ensures
        remove_first(l, v) =~= l.subrange(0, i) + l.subrange(i + 1, l.len() as int),
    decreases i,
{
    if i == 0 {
        assert(remove_first(l, v) =~= l.drop_first());
        assert(l.drop_first() =~= l.subrange(0, 0) + l.subrange(1, l.len() as int));
    } else {
        let rest = l.drop_first();
        lemma_remove_first_at(rest, v, i - 1);
        assert(remove_first(l, v) =~= seq![l[0]] + remove_first(rest, v));
        assert(rest.subrange(0, i - 1) =~= l.subrange(1, i));
        assert(rest.subrange(i, rest.len() as int) =~= l.subrange(i + 1, l.len() as int));
    }
}

/// The table after replaying one recorded move: on a win or draw the chosen
/// position is appended to the state's candidates; on a loss its first
/// occurrence is removed, and a list emptied by the removal is reset to every
/// empty position of the state's board.
pub open spec fn step_update(m: Table, state: Seq<int>, chosen: u8, game_lost: bool) -> Table {
    let k: usize = code_of(state) as usize;
    let l: Seq<u8> = m[k];
    if !game_lost {
        m.insert(k, l.push(chosen))
    } else if !l.contains(chosen) {
        m
    } else {
        let l2: Seq<u8> = remove_first(l, chosen);
        if l2.len() == 0 {
            m.insert(k, empty_positions(state))
        } else {
            m.insert(k, l2)
        }
    }
}

/// The table after replaying a whole game's recorded moves, earliest first.
pub open spec fn update_all(m: Table, steps: Seq<(Seq<int>, u8)>, game_lost: bool) -> Table
    decreases steps.len(),
{
    if steps.len() == 0 {
        m
    } else {
        update_all(step_update(m, steps[0].0, steps[0].1, game_lost), steps.drop_first(), game_lost)
    }
}

/// Replaying one more recorded move continues from the table the earlier
/// moves produced.
pub proof fn lemma_update_all_push(
    m: Table,
    steps: Seq<(Seq<int>, u8)>,
    step: (Seq<int>, u8),
    game_lost: bool,
)
    ensures
        update_all(m, steps.push(step), game_lost) == step_update(
            update_all(m, steps, game_lost),
            step.0,
            step.1,
            game_lost,
        ),
    decreases steps.len(),
{
    if steps.len() == 0 {
        assert(steps.push(step).drop_first() =~= Seq::<(Seq<int>, u8)>::empty());
        assert(steps.push(step)[0] == step);
        let m1 = step_update(m, step.0, step.1, game_lost);
        assert(update_all(m, steps.push(step), game_lost) == update_all(
            m1,
            steps.push(step).drop_first(),
            game_lost,
        ));
        assert(update_all(m1, Seq::<(Seq<int>, u8)>::empty(), game_lost) == m1);
        assert(update_all(m, steps, game_lost) == m);
    } else {
        assert(steps.push(step).drop_first() =~= steps.drop_first().push(step));
        assert(steps.push(step)[0] == steps[0]);
        lemma_update_all_push(
            step_update(m, steps[0].0, steps[0].1, game_lost),
            steps.drop_first(),
            step,
            game_lost,
        );
    }
}

/// The candidate list of the state that a lookup on `s` matches.
pub open spec fn matched_actions(m: Table, s: Seq<int>) -> Seq<u8>
    recommends
        find_transform(m, s) is Some,
{
    match find_transform(m, s) {
        Some((rot, flip)) => m[code_of(transform_board(s, rot, flip)) as usize],
        None => Seq::empty(),
    }
}

/// Replaying a one-move game replays that move alone.
pub proof fn lemma_update_all_single(m: Table, state: Seq<int>, chosen: u8, game_lost: bool)
    ensures
        update_all(m, seq![(state, chosen)], game_lost) == step_update(m, state, chosen, game_lost),
{
    let steps = seq![(state, chosen)];
    assert(steps.drop_first() =~= Seq::<(Seq<int>, u8)>::empty());
    assert(steps[0] == (state, chosen));
    let m1 = step_update(m, state, chosen, game_lost);
    assert(update_all(m, steps, game_lost) == update_all(m1, steps.drop_first(), game_lost));
    assert(update_all(m1, Seq::<(Seq<int>, u8)>::empty(), game_lost) == m1);
}

/// After a game that was not lost, the replayed state's candidate list has
/// grown by exactly one entry: the recorded canonical-frame position,
/// appended at the end, with the prior list kept in front of it.
pub proof fn lemma_reinforce_appends(m: Table, state: Seq<int>, chosen: u8)
    requires
        m.contains_key(code_of(state) as usize),
    ensures
        ({
            let k: usize = code_of(state) as usize;
            let l2: Seq<u8> = update_all(m, seq![(state, chosen)], false)[k];
            &&& update_all(m, seq![(state, chosen)], false).contains_key(k)
            &&& l2.len() == m[k].len() + 1
            &&& l2[l2.len() - 1] == chosen
            &&& l2.subrange(0, m[k].len() as int) =~= m[k]
        }),
{
    lemma_update_all_single(m, state, chosen, false);
    let k: usize = code_of(state) as usize;
    assert(m[k].push(chosen).subrange(0, m[k].len() as int) =~= m[k]);
}

/// After a lost game whose replay removes the state's last remaining
/// candidate, the list is reset to exactly the empty positions of that
/// board, in ascending order.
pub proof fn lemma_penalty_resets(m: Table, state: Seq<int>, chosen: u8)
    requires
        m.contains_key(code_of(state) as usize),
        m[code_of(state) as usize].contains(chosen),
        remove_first(m[code_of(state) as usize], chosen).len() == 0,
    ensures
        update_all(m, seq![(state, chosen)], true)[code_of(state) as usize] == empty_positions(
            state,
        ),
{
    lemma_update_all_single(m, state, chosen, true);
}

/// The candidate moves a state starts with: the immediately winning move for
/// the learner alone if there is one, otherwise every empty position.
pub open spec fn initial_actions(s: Seq<int>, cpu: int) -> Seq<u8> {
    match spec_winning_move(s, cpu) {
        Some(f) => seq![f as u8],
        None => empty_positions(s),
    }
}

/// One step of the exhaustive construction: board `c` is entered under its
/// own code unless an image of it is already a key, it is already won, or an
/// even number of its cells is occupied.
pub open spec fn setup_step(m: Table, c: int, cpu: int) -> Table {
    let s: Seq<int> = decode_of(c, 9);
    if find_transform(m, s) is Some {
        m
    } else if spec_winner(s) is Some {
        m
    } else if count_occupied(s) % 2 == 0 {
        m
    } else {
        m.insert(c as usize, initial_actions(s, cpu))
    }
}

/// The table after the construction has processed every code below `c`.
pub open spec fn setup_upto(c: int, cpu: int) -> Table
    decreases c,
{
    if c <= 0 {
        Map::empty()
    } else {
        setup_step(setup_upto(c - 1, cpu), c - 1, cpu)
    }
}

/// The fully built table: every code below `pow3(9)` processed in order.
pub open spec fn setup_table(cpu: int) -> Table {
    setup_upto(19683, cpu)
}

proof fn lemma_setup_upto_keys(c: int, cpu: int)
    requires
        0 <= c <= 19683,
    ensures
        forall|k: usize| #[trigger] setup_upto(c, cpu).contains_key(k) ==> {
            &&& k < c
            &&& spec_winner(decode_of(k as int, 9)) is None
            &&& count_occupied(decode_of(k as int, 9)) % 2 == 1
        },
    decreases c,
{
    if c > 0 {
        lemma_setup_upto_keys(c - 1, cpu);
        let prev = setup_upto(c - 1, cpu);
        let s = decode_of(c - 1, 9);
        assert(setup_upto(c, cpu) == setup_step(prev, c - 1, cpu));
        assert forall|k: usize| #[trigger] setup_upto(c, cpu).contains_key(k) implies {
            &&& k < c
            &&& spec_winner(decode_of(k as int, 9)) is None
            &&& count_occupied(decode_of(k as int, 9)) % 2 == 1
        } by {
            if !prev.contains_key(k) {
                assert(k == (c - 1) as usize);
                assert(spec_winner(s) is None);
                assert(count_occupied(s) % 2 != 0);
            }
        }
    }
}

/// Every key of the built table is the code of its own board, a board that
/// has no winner yet and an odd number of occupied cells: it is always the
/// learning player's turn in a registered state.
pub proof fn lemma_setup_table_keys(cpu: int)
    ensures
        forall|k: usize| #[trigger] setup_table(cpu).contains_key(k) ==> {
            &&& k < 19683
            &&& code_of(decode_of(k as int, 9)) == k
            &&& spec_winner(decode_of(k as int, 9)) is None
            &&& count_occupied(decode_of(k as int, 9)) % 2 == 1
        },
{
    lemma_setup_upto_keys(19683, cpu);
    assert forall|k: usize| #[trigger] setup_table(cpu).contains_key(k) implies code_of(
        decode_of(k as int, 9),
    ) == k by {
        lemma_code_round_trip(k as int);
    }
}

} // verus!

