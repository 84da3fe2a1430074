//! Towers of Hanoi.
use vstd::prelude::*;

verus! {

/// One of the three pegs.
#[derive(Clone, Copy, Debug, Eq, PartialEq, Structural)]
pub enum Peg {
    A,
    B,
    C,
}

/// A move between two pegs: (source, destination).
pub type Move = (Peg, Peg);

/// The moves that carry `n` discs from `src` to `dst` by way of `aux`:
/// the top `n - 1` to `aux`, the largest to `dst`, then the `n - 1` on top.
pub open spec fn hanoi_moves(n: nat, src: Peg, aux: Peg, dst: Peg) -> Seq<Move>
    decreases n,
{
    if n == 0 {
        Seq::empty()
    } else {
        hanoi_moves((n - 1) as nat, src, dst, aux).push((src, dst)) + hanoi_moves(
            (n - 1) as nat,
            aux,
            src,
            dst,
        )
    }
}

fn mv(num_discs: u32, moves: &mut Vec<Move>, src: Peg, aux: Peg, dst: Peg)
    ensures
        final(moves)@ == old(moves)@ + hanoi_moves(num_discs as nat, src, aux, dst),
    decreases num_discs,
{
    if num_discs > 0 {
        mv(num_discs - 1, moves, src, dst, aux);
        moves.push((src, dst));
        mv(num_discs - 1, moves, aux, src, dst);
        assert(moves@ =~= old(moves)@ + hanoi_moves(num_discs as nat, src, aux, dst));
    } else {
        assert(moves@ =~= old(moves)@ + hanoi_moves(num_discs as nat, src, aux, dst));
    }
}

/// The moves that carry `num_discs` discs from `src` to `dst`.
pub fn hanoi(num_discs: u32, src: Peg, aux: Peg, dst: Peg) -> (moves: Vec<Move>)
    ensures
        moves@ == hanoi_moves(num_discs as nat, src, aux, dst),
{
    let mut moves: Vec<Move> = Vec::new();
    mv(num_discs, &mut moves, src, aux, dst);
    assert(moves@ =~= hanoi_moves(num_discs as nat, src, aux, dst));
    moves
}

} // verus!
