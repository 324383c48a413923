//! Laws that hold of every position and every move attempt.
use vstd::prelude::*;

use crate::rules::{
    applied, between, count_where, dest_open, illegal_error, king_in_check, king_of, legal_move,
    move_outcome, occupied_count, path_clear, piece_count, side_count, start_position,
};
use crate::error::MoveError;
use crate::pieces::Piece;
use crate::utils::{bishop_reach, file_of, queen_reach, rook_reach};

verus! {

/// A blocked ray: putting any piece `q` on a square `s` strictly between a
/// sliding piece (rook, bishop or queen) on `from` and a square `to` that
/// its lines reach makes the move illegal for that piece's kind.
pub proof fn lemma_ray_blocking(b: Seq<Option<Piece>>, from: int, to: int, s: int, q: Piece)
    requires
        b.len() == 64,
        0 <= from < 64,
        b[from] is Some,
        ({
            let p = b[from]->Some_0;
            ||| p.is_rook() && rook_reach(from, to)
            ||| p.is_bishop() && bishop_reach(from, to)
            ||| p.is_queen() && queen_reach(from, to)
        }),
        between(from, to, s),
    ensures
        move_outcome(b.update(s, Some(q)), from, to) == Err::<Option<Piece>, MoveError>(
            illegal_error(b[from]->Some_0),
        ),
{
    let c = b.update(s, Some(q));
    assert(c[from] == b[from]);
    assert(!path_clear(c, from, to));
}

/// A destination held by a piece of the mover's own colour is refused, for
/// every kind of piece, with the error of that kind.
pub proof fn lemma_same_color_block(b: Seq<Option<Piece>>, from: int, to: int)
    requires
        b.len() == 64,
        0 <= from < 64,
        0 <= to < 64,
        b[from] is Some,
        b[to] is Some,
        b[to]->Some_0.is_white() == b[from]->Some_0.is_white(),
    ensures
        move_outcome(b, from, to) == Err::<Option<Piece>, MoveError>(
            illegal_error(b[from]->Some_0),
        ),
{
    assert(!dest_open(b, from, to));
}

/// A capture: an accepted move onto an enemy piece returns that piece, and
/// the destination then holds the mover.
pub proof fn lemma_capture(b: Seq<Option<Piece>>, from: int, to: int)
    requires
        b.len() == 64,
        0 <= from < 64,
        0 <= to < 64,
        b[from] is Some,
        b[to] is Some,
        b[to]->Some_0.is_white() != b[from]->Some_0.is_white(),
        move_outcome(b, from, to) is Ok,
    ensures
        move_outcome(b, from, to) == Ok::<Option<Piece>, MoveError>(Some(b[to]->Some_0)),
        applied(b, from, to)[to] == b[from],
{
    if from == to {
        assert(!legal_move(b, from, to));
    }
}

/// A move that the piece's rules allow but that leaves the mover's own king
/// attacked is refused with `KingInCheck` (and `move_piece` then leaves the
/// board as it was).
pub proof fn lemma_check_rejection(b: Seq<Option<Piece>>, from: int, to: int)
    requires
        b.len() == 64,
        0 <= from < 64,
        b[from] is Some,
        legal_move(b, from, to),
        king_in_check(applied(b, from, to), b[from]->Some_0.is_white()),
    ensures
        move_outcome(b, from, to) == Err::<Option<Piece>, MoveError>(MoveError::KingInCheck),
{
}

/// Counting the squares of a prefix one square at a time.
proof fn lemma_count_by_prefix(
    s: Seq<Option<Piece>>,
    f: spec_fn(Option<Piece>) -> bool,
    e: spec_fn(int) -> int,
    n: int,
)
    requires
        0 <= n <= s.len(),
        e(0) == 0,
        forall|i: int|
            0 <= i < s.len() ==> #[trigger] e(i + 1) == e(i) + if f(s[i]) {
                1int
            } else {
                0int
            },
    ensures
        count_where(s.take(n), f) == e(n),
    decreases n,
{
    if n == 0 {
        assert(s.take(0).len() == 0);
    } else {
        lemma_count_by_prefix(s, f, e, n - 1);
        assert(s.take(n).drop_last() =~= s.take(n - 1));
        assert(s.take(n).last() == s[n - 1]);
        let i = n - 1;
        assert(e(i + 1) == e(i) + if f(s[i]) {
            1int
        } else {
            0int
        });
    }
}

/// The opening position has 32 pieces, 16 per side, and exactly one king of
/// each colour, the two kings on the same file.
pub proof fn lemma_start_position()
    ensures
        occupied_count(start_position()) == 32,
        side_count(start_position(), true) == 16,
        side_count(start_position(), false) == 16,
        piece_count(start_position(), Piece::WhiteKing) == 1,
        piece_count(start_position(), Piece::BlackKing) == 1,
        forall|i: int, j: int|
            0 <= i < 64 && 0 <= j < 64 && #[trigger] start_position()[i] == Some(king_of(true))
                && #[trigger] start_position()[j] == Some(king_of(false)) ==> file_of(i) == file_of(
                j,
            ),
{
    let s = start_position();
    assert(s.take(64) =~= s);
    lemma_count_by_prefix(
        s,
        |x: Option<Piece>| x is Some,
        |n: int|
            if n <= 16 {
                n
            } else if n <= 48 {
                16
            } else {
                n - 32
            },
        64,
    );
    lemma_count_by_prefix(
        s,
        |x: Option<Piece>| x is Some && x->Some_0.is_white() == true,
        |n: int|
            if n <= 16 {
                n
            } else {
                16
            },
        64,
    );
    lemma_count_by_prefix(
        s,
        |x: Option<Piece>| x is Some && x->Some_0.is_white() == false,
        |n: int|
            if n <= 48 {
                0
            } else {
                n - 48
            },
        64,
    );
    lemma_count_by_prefix(
        s,
        |x: Option<Piece>| x == Some(Piece::WhiteKing),
        |n: int|
            if n <= 4 {
                0
            } else {
                1
            },
        64,
    );
    lemma_count_by_prefix(
        s,
        |x: Option<Piece>| x == Some(Piece::BlackKing),
        |n: int|
            if n <= 60 {
                0
            } else {
                1
            },
        64,
    );
}

} // verus!
