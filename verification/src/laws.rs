//! General laws of the language, proved once and for all over the semantics:
//! matched cursor moves cancel, cell arithmetic wraps back after 256 steps,
//! and a loop guarded by a zero cell is skipped outright.

use vstd::prelude::*;

use crate::semantics::{cur_cell, in_range, run_node, run_seq, Outcome, State};
use crate::syntax::AstView;
use crate::tape::{cell_add, cursor_add};

verus! {

broadcast use vstd::seq::group_seq_axioms;

/// A program made only of cursor-move pairs with matching counts.
pub open spec fn is_move_pairs(p: Seq<AstView>) -> bool
    decreases p.len(),
{
    if p.len() == 0 {
        true
    } else {
        &&& p.len() >= 2
        &&& (p[0] matches AstView::AddPtr(n) && p[1] == AstView::AddPtr(-n))
        &&& is_move_pairs(p.skip(2))
    }
}

/// The program consists solely of cursor moves.
pub open spec fn all_moves(p: Seq<AstView>) -> bool {
    forall|i: int| 0 <= i < p.len() ==> (#[trigger] p[i]) matches AstView::AddPtr(_)
}

/// The net cursor shift a move-only program asks for.
pub open spec fn move_sum(p: Seq<AstView>) -> int
    decreases p.len(),
{
    if p.len() == 0 {
        0
    } else {
        p[0]->AddPtr_0 + move_sum(p.drop_first())
    }
}

/// Two wrapped moves land where the single summed move does.
pub proof fn lemma_cursor_add_assoc(p: usize, a: int, b: int)
    ensures
        cursor_add(cursor_add(p, a), b) == cursor_add(p, a + b),
{
    let r = usize::MAX + 1;
    vstd::arithmetic::div_mod::lemma_add_mod_noop_right(b, p + a, r);
}

/// A move-only program never fails, spends no fuel, and only shifts the
/// cursor: by its net sum, wrapped at the pointer width.
pub proof fn lemma_moves_shift_cursor(p: Seq<AstView>, st: State, fuel: nat)
    requires
        all_moves(p),
    ensures
        run_seq(p, st, fuel) == Some(
            Outcome::Done(State { pointer: cursor_add(st.pointer, move_sum(p)), ..st }),
        ),
    decreases p.len(),
{
    let r = usize::MAX + 1;
    if p.len() == 0 {
        vstd::arithmetic::div_mod::lemma_small_mod(st.pointer as nat, r as nat);
        assert(State { pointer: cursor_add(st.pointer, move_sum(p)), ..st } =~= st);
    } else {
        let d = p[0]->AddPtr_0;
        let st1 = State { pointer: cursor_add(st.pointer, d), ..st };
        assert(run_node(p[0], st, fuel) == Some(Outcome::Done(st1)));
        assert(all_moves(p.drop_first()));
        lemma_moves_shift_cursor(p.drop_first(), st1, fuel);
        lemma_cursor_add_assoc(st.pointer, d, move_sum(p.drop_first()));
        assert(State { pointer: cursor_add(st1.pointer, move_sum(p.drop_first())), ..st1 } =~= (
        State { pointer: cursor_add(st.pointer, move_sum(p)), ..st }));
    }
}

/// A matched-pairs program consists of moves and sums to zero.
proof fn lemma_move_pairs_sum(p: Seq<AstView>)
    requires
        is_move_pairs(p),
    ensures
        all_moves(p),
        move_sum(p) == 0,
    decreases p.len(),
{
    if p.len() != 0 {
        lemma_move_pairs_sum(p.skip(2));
        assert(p.drop_first()[0] == p[1]);
        assert(p.drop_first().drop_first() =~= p.skip(2));
        assert(move_sum(p.drop_first()) == p[1]->AddPtr_0 + move_sum(p.skip(2)));
        assert forall|i: int| 0 <= i < p.len() implies (#[trigger] p[i]) matches AstView::AddPtr(_) by {
            if i >= 2 {
                assert(p[i] == p.skip(2)[i - 2]);
            }
        }
    }
}

/// For all programs consisting solely of `>`/`<` pairs with matching counts,
/// the whole state — the cursor included — comes back to what it was, under
/// any fuel at all: the wraparound-consistent inverse property.
pub proof fn lemma_move_pairs_return_cursor(p: Seq<AstView>, st: State, fuel: nat)
    requires
        is_move_pairs(p),
    ensures
        run_seq(p, st, fuel) == Some(Outcome::Done(st)),
{
    lemma_move_pairs_sum(p);
    lemma_moves_shift_cursor(p, st, fuel);
    vstd::arithmetic::div_mod::lemma_small_mod(st.pointer as nat, (usize::MAX + 1) as nat);
    assert(State { pointer: cursor_add(st.pointer, move_sum(p)), ..st } =~= st);
}

/// The value of a cell after adding 1 to it, `k` times over.
pub open spec fn inc_times(v: u8, k: nat) -> u8
    decreases k,
{
    if k == 0 {
        v
    } else {
        cell_add(inc_times(v, (k - 1) as nat), 1)
    }
}

/// The value of a cell after subtracting 1 from it, `k` times over.
pub open spec fn dec_times(v: u8, k: nat) -> u8
    decreases k,
{
    if k == 0 {
        v
    } else {
        cell_add(dec_times(v, (k - 1) as nat), -1)
    }
}

/// Iterated single steps land on the modular sum.
proof fn lemma_inc_times_mod(v: u8, k: nat)
    ensures
        inc_times(v, k) == (((v + k) % 256) as u8),
        dec_times(v, k) == (((v - k) % 256) as u8),
    decreases k,
{
    if k == 0 {
        vstd::arithmetic::div_mod::lemma_small_mod(v as nat, 256);
    } else {
        lemma_inc_times_mod(v, (k - 1) as nat);
        vstd::arithmetic::div_mod::lemma_add_mod_noop(v + k - 1, 1, 256);
        vstd::arithmetic::div_mod::lemma_small_mod(1nat, 256);
        vstd::arithmetic::div_mod::lemma_sub_mod_noop(v - (k - 1), 1, 256);
        assert((1int) % 256 == 1);
    }
}

/// For every byte value, incrementing a cell 256 times returns it to that
/// value, and so does decrementing it 256 times: the wraparound law of cell
/// arithmetic.
pub proof fn lemma_cell_wraparound(v: u8)
    ensures
        inc_times(v, 256) == v,
        dec_times(v, 256) == v,
{
    lemma_inc_times_mod(v, 256);
    vstd::arithmetic::div_mod::lemma_mod_multiples_vanish(1, v as int, 256);
    vstd::arithmetic::div_mod::lemma_mod_multiples_vanish(-1, v as int, 256);
    vstd::arithmetic::div_mod::lemma_small_mod(v as nat, 256);
}

/// A loop whose guard cell already holds zero is skipped outright, an empty
/// body included: no output, no input taken, the tape untouched.
pub proof fn lemma_zero_guard_skips_loop(body: Seq<AstView>, st: State, fuel: nat)
    requires
        in_range(st),
        cur_cell(st) == 0,
    ensures
        run_node(AstView::Loop(body), st, fuel) == Some(Outcome::Done(st)),
{
}

} // verus!
