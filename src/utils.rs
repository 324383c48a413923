use vstd::prelude::*;

verus! {

/// Number of squares on the board.
pub const BOARD_SIZE: usize = 64;

/// Capacity of a knight row: one slot per jump offset.
pub const MAX_KNIGHT_MOVES: usize = 8;

/// Capacity of a queen row: the most squares a queen reaches from any square.
pub const MAX_QUEEN_MOVES: usize = 27;

/// Capacity of a king row: one slot per compass direction.
pub const MAX_KING_MOVES: usize = 8;

/// Capacity of a bishop row: the most squares a bishop reaches from any square.
pub const MAX_BISHOP_MOVES: usize = 13;

/// Capacity of a rook row: a rook always reaches exactly this many squares.
pub const MAX_ROOK_MOVES: usize = 14;

/// The rank (row, 0 at the light side's back rank) of a square index.
pub open spec fn rank_of(square: int) -> int {
    square / 8
}

/// The file (column, 0 for file a) of a square index.
pub open spec fn file_of(square: int) -> int {
    square % 8
}

/// The square index of a (rank, file) pair.
pub open spec fn square_at(rank: int, file: int) -> int {
    rank * 8 + file
}

pub open spec fn on_board(rank: int, file: int) -> bool {
    0 <= rank < 8 && 0 <= file < 8
}

pub open spec fn abs(x: int) -> int {
    if x < 0 {
        -x
    } else {
        x
    }
}

/// The signed number of ranks from `from` to `to`.
pub open spec fn rank_delta(from: int, to: int) -> int {
    rank_of(to) - rank_of(from)
}

/// The signed number of files from `from` to `to`.
pub open spec fn file_delta(from: int, to: int) -> int {
    file_of(to) - file_of(from)
}

/// Rank and file of a valid square determine it, and are recovered from it.
pub proof fn lemma_square_coords(rank: int, file: int)
    requires
        on_board(rank, file),
    ensures
        0 <= square_at(rank, file) < 64,
        rank_of(square_at(rank, file)) == rank,
        file_of(square_at(rank, file)) == file,
{
}

/// Convert a square index (0-63) to rank (0-7) and file (0-7) coordinates.
pub fn square_to_coords(square: usize) -> (r: (usize, usize))
    ensures
        r.0 == rank_of(square as int),
        r.1 == file_of(square as int),
{
    let rank = square / 8;
    let file = square % 8;
    (rank, file)
}

/// Convert rank (0-7) and file (0-7) coordinates to a square index (0-63).
pub fn coords_to_square(rank: usize, file: usize) -> (r: usize)
    requires
        rank < 8,
        file < 8,
    ensures
        r == square_at(rank as int, file as int),
        rank_of(r as int) == rank,
        file_of(r as int) == file,
{
    proof {
        lemma_square_coords(rank as int, file as int);
    }
    rank * 8 + file
}

/// `k` taken in the sense of a unit step `d` (-1, 0 or 1).
pub open spec fn scaled(k: int, d: int) -> int {
    if d > 0 {
        k
    } else if d < 0 {
        -k
    } else {
        0
    }
}

/// The square `k` steps away from `square` in direction (`dr`, `df`).
pub open spec fn offset_square(square: int, dr: int, df: int, k: int) -> int {
    square_at(rank_of(square) + scaled(k, dr), file_of(square) + scaled(k, df))
}

/// How many steps fit between coordinate `x` and the edge in direction `d`.
pub open spec fn room(x: int, d: int) -> int {
    if d > 0 {
        7 - x
    } else if d < 0 {
        x
    } else {
        7
    }
}

pub open spec fn min(a: int, b: int) -> int {
    if a <= b {
        a
    } else {
        b
    }
}

/// A direction: one of the eight compass steps.
pub open spec fn is_direction(dr: int, df: int) -> bool {
    -1 <= dr <= 1 && -1 <= df <= 1 && (dr != 0 || df != 0)
}

/// Number of squares a walk from `square` in direction (`dr`, `df`) visits
/// before it would leave the board, capped at `limit`.
pub open spec fn ray_len(square: int, dr: int, df: int, limit: int) -> int {
    min(room(rank_of(square), dr), min(room(file_of(square), df), limit))
}

/// The squares visited by walking from `square` in direction (`dr`, `df`),
/// nearest first, stopping at the edge or after `limit` steps.
pub open spec fn ray(square: int, dr: int, df: int, limit: int) -> Seq<Option<usize>> {
    Seq::new(
        ray_len(square, dr, df, limit) as nat,
        |j: int| Some(offset_square(square, dr, df, j + 1) as usize),
    )
}

/// Append to `row` the squares reached from `square` in direction
/// (`dr`, `df`), nearest first, stopping at the board's edge or after
/// `move_limit` steps.
fn push_to_direction_limited(
    row: &mut Vec<Option<usize>>,
    square: usize,
    dr: i64,
    df: i64,
    move_limit: i64,
)
    requires
        square < 64,
        is_direction(dr as int, df as int),
        move_limit >= 0,
    ensures
        final(row)@ == old(row)@ + ray(square as int, dr as int, df as int, move_limit as int),
{
    let ghost start = old(row)@;
    let ghost len = ray_len(square as int, dr as int, df as int, move_limit as int);
    let rank0: i64 = (square / 8) as i64;
    let file0: i64 = (square % 8) as i64;
    let mut rank: i64 = rank0;
    let mut file: i64 = file0;
    let mut moves: i64 = 0;
    loop
        invariant_except_break
            0 <= moves <= len,
            rank == rank0 + scaled(moves as int, dr as int),
            file == file0 + scaled(moves as int, df as int),
            row@ == start + ray(square as int, dr as int, df as int, move_limit as int).take(
                moves as int,
            ),
        invariant
            rank0 == rank_of(square as int),
            file0 == file_of(square as int),
            0 <= rank0 < 8,
            0 <= file0 < 8,
            is_direction(dr as int, df as int),
            move_limit >= 0,
            len == ray_len(square as int, dr as int, df as int, move_limit as int),
        ensures
            row@ == start + ray(square as int, dr as int, df as int, move_limit as int),
        decreases len - moves,
    {
        let next_rank = rank + dr;
        let next_file = file + df;
        if next_rank < 0 || next_rank >= 8 || next_file < 0 || next_file >= 8 || moves
            >= move_limit {
            assert(moves == len);
            assert(ray(square as int, dr as int, df as int, move_limit as int).take(moves as int)
                =~= ray(square as int, dr as int, df as int, move_limit as int));
            break ;
        }
        rank = next_rank;
        file = next_file;
        assert(rank * 8 + file == offset_square(square as int, dr as int, df as int, moves + 1));
        let ghost before = row@;
        row.push(Some((rank * 8 + file) as usize));
        moves = moves + 1;
        assert(row@ =~= start + ray(square as int, dr as int, df as int, move_limit as int).take(
            moves as int,
        )) by {
            assert(before == start + ray(square as int, dr as int, df as int, move_limit as int).take(
                moves - 1,
            ));
        }
    }
}


/// Append the squares reached from `square` in direction (`dr`, `df`),
/// with no limit but the board's edge.
fn push_to_direction(row: &mut Vec<Option<usize>>, square: usize, dr: i64, df: i64)
    requires
        square < 64,
        is_direction(dr as int, df as int),
    ensures
        final(row)@ == old(row)@ + ray(square as int, dr as int, df as int, 8),
{
    push_to_direction_limited(row, square, dr, df, 8)
}

/// `s` followed by empty slots up to length `cap`.
pub open spec fn padded(s: Seq<Option<usize>>, cap: int) -> Seq<Option<usize>> {
    s + Seq::new((cap - s.len()) as nat, |i: int| None::<usize>)
}

/// Fill `row` with empty slots up to length `cap`.
fn pad_row(row: &mut Vec<Option<usize>>, cap: usize)
    requires
        old(row)@.len() <= cap,
    ensures
        final(row)@ == padded(old(row)@, cap as int),
{
    let ghost start = old(row)@;
    while row.len() < cap
        invariant
            start.len() <= row@.len() <= cap,
            row@ == padded(start, row@.len() as int),
        decreases cap - row@.len(),
    {
        row.push(None);
        assert(row@ =~= padded(start, row@.len() as int));
    }
}

/// The squares a rook walks over from `square`, before padding.
pub open spec fn rook_rays(square: int) -> Seq<Option<usize>> {
    ray(square, -1, 0, 8) + ray(square, 1, 0, 8) + ray(square, 0, -1, 8) + ray(square, 0, 1, 8)
}

/// The squares a bishop walks over from `square`, before padding.
pub open spec fn bishop_rays(square: int) -> Seq<Option<usize>> {
    ray(square, -1, -1, 8) + ray(square, 1, -1, 8) + ray(square, 1, 1, 8) + ray(square, -1, 1, 8)
}

/// The squares reached in each of the eight compass directions from `square`,
/// at most `limit` steps each, before padding.
pub open spec fn compass_rays(square: int, limit: int) -> Seq<Option<usize>> {
    ray(square, -1, 0, limit) + ray(square, 1, 0, limit) + ray(square, 0, -1, limit) + ray(
        square,
        0,
        1,
        limit,
    ) + ray(square, -1, -1, limit) + ray(square, 1, -1, limit) + ray(square, 1, 1, limit) + ray(
        square,
        -1,
        1,
        limit,
    )
}

/// One knight slot: the square at offset (`dr`, `df`) from `square`, if it is
/// on the board.
pub open spec fn jump_slot(square: int, dr: int, df: int) -> Option<usize> {
    let r = rank_of(square) + dr;
    let f = file_of(square) + df;
    if on_board(r, f) {
        Some(square_at(r, f) as usize)
    } else {
        None
    }
}

/// The knight's eight slots from `square`, one per jump, empty where the
/// jump leaves the board.
pub open spec fn knight_slots(square: int) -> Seq<Option<usize>> {
    seq![
        jump_slot(square, -1, -2),
        jump_slot(square, 1, -2),
        jump_slot(square, -2, -1),
        jump_slot(square, 2, -1),
        jump_slot(square, -2, 1),
        jump_slot(square, 2, 1),
        jump_slot(square, -1, 2),
        jump_slot(square, 1, 2),
    ]
}

/// The rook's row of the reach table for `square`.
pub fn rook_row(square: usize) -> (row: Vec<Option<usize>>)
    requires
        square < 64,
    ensures
        row@ == padded(rook_rays(square as int), MAX_ROOK_MOVES as int),
        row@.len() == MAX_ROOK_MOVES,
{
    let mut row: Vec<Option<usize>> = Vec::new();
    push_to_direction(&mut row, square, -1, 0);
    push_to_direction(&mut row, square, 1, 0);
    push_to_direction(&mut row, square, 0, -1);
    push_to_direction(&mut row, square, 0, 1);
    assert(row@ =~= rook_rays(square as int));
    pad_row(&mut row, MAX_ROOK_MOVES);
    row
}

/// The bishop's row of the reach table for `square`.
pub fn bishop_row(square: usize) -> (row: Vec<Option<usize>>)
    requires
        square < 64,
    ensures
        row@ == padded(bishop_rays(square as int), MAX_BISHOP_MOVES as int),
        row@.len() == MAX_BISHOP_MOVES,
{
    let mut row: Vec<Option<usize>> = Vec::new();
    push_to_direction(&mut row, square, -1, -1);
    push_to_direction(&mut row, square, 1, -1);
    push_to_direction(&mut row, square, 1, 1);
    push_to_direction(&mut row, square, -1, 1);
    assert(row@ =~= bishop_rays(square as int));
    pad_row(&mut row, MAX_BISHOP_MOVES);
    row
}

/// Append the walks in all eight compass directions, at most `limit` steps each.
fn push_compass(row: &mut Vec<Option<usize>>, square: usize, limit: i64)
    requires
        square < 64,
        limit >= 0,
    ensures
        final(row)@ == old(row)@ + compass_rays(square as int, limit as int),
{
    let ghost start = old(row)@;
    push_to_direction_limited(row, square, -1, 0, limit);
    push_to_direction_limited(row, square, 1, 0, limit);
    push_to_direction_limited(row, square, 0, -1, limit);
    push_to_direction_limited(row, square, 0, 1, limit);
    push_to_direction_limited(row, square, -1, -1, limit);
    push_to_direction_limited(row, square, 1, -1, limit);
    push_to_direction_limited(row, square, 1, 1, limit);
    push_to_direction_limited(row, square, -1, 1, limit);
    assert(row@ =~= start + compass_rays(square as int, limit as int));
}

/// The queen's row of the reach table for `square`.
pub fn queen_row(square: usize) -> (row: Vec<Option<usize>>)
    requires
        square < 64,
    ensures
        row@ == padded(compass_rays(square as int, 8), MAX_QUEEN_MOVES as int),
        row@.len() == MAX_QUEEN_MOVES,
{
    let mut row: Vec<Option<usize>> = Vec::new();
    push_compass(&mut row, square, 8);
    assert(row@ =~= compass_rays(square as int, 8));
    pad_row(&mut row, MAX_QUEEN_MOVES);
    row
}

/// The king's row of the reach table for `square`.
pub fn king_row(square: usize) -> (row: Vec<Option<usize>>)
    requires
        square < 64,
    ensures
        row@ == padded(compass_rays(square as int, 1), MAX_KING_MOVES as int),
        row@.len() == MAX_KING_MOVES,
{
    let mut row: Vec<Option<usize>> = Vec::new();
    push_compass(&mut row, square, 1);
    assert(row@ =~= compass_rays(square as int, 1));
    pad_row(&mut row, MAX_KING_MOVES);
    row
}

/// Append the knight slot for offset (`dr`, `df`) from `square`.
fn push_jump(row: &mut Vec<Option<usize>>, square: usize, dr: i64, df: i64)
    requires
        square < 64,
        -2 <= dr <= 2,
        -2 <= df <= 2,
    ensures
        final(row)@ == old(row)@.push(jump_slot(square as int, dr as int, df as int)),
{
    let rank = (square / 8) as i64 + dr;
    let file = (square % 8) as i64 + df;
    if rank >= 0 && rank < 8 && file >= 0 && file < 8 {
        row.push(Some((rank * 8 + file) as usize));
    } else {
        row.push(None);
    }
}

/// The knight's row of the reach table for `square`.
pub fn knight_row(square: usize) -> (row: Vec<Option<usize>>)
    requires
        square < 64,
    ensures
        row@ == knight_slots(square as int),
        row@.len() == MAX_KNIGHT_MOVES,
{
    let mut row: Vec<Option<usize>> = Vec::new();
    push_jump(&mut row, square, -1, -2);
    push_jump(&mut row, square, 1, -2);
    push_jump(&mut row, square, -2, -1);
    push_jump(&mut row, square, 2, -1);
    push_jump(&mut row, square, -2, 1);
    push_jump(&mut row, square, 2, 1);
    push_jump(&mut row, square, -1, 2);
    push_jump(&mut row, square, 1, 2);
    assert(row@ =~= knight_slots(square as int));
    row
}


/// `to` is the `k`-th square along direction (`dr`, `df`) from `from`, for
/// some `k` from 1 to `limit`.
pub open spec fn on_ray(from: int, dr: int, df: int, limit: int, to: int) -> bool {
    let k = if abs(rank_delta(from, to)) >= abs(file_delta(from, to)) {
        abs(rank_delta(from, to))
    } else {
        abs(file_delta(from, to))
    };
    &&& 0 <= to < 64
    &&& 1 <= k <= limit
    &&& rank_delta(from, to) == scaled(k, dr)
    &&& file_delta(from, to) == scaled(k, df)
}

/// A rook on `from` reaches `to` on an empty board.
pub open spec fn rook_reach(from: int, to: int) -> bool {
    &&& 0 <= to < 64
    &&& from != to
    &&& (rank_of(from) == rank_of(to) || file_of(from) == file_of(to))
}

/// A bishop on `from` reaches `to` on an empty board.
pub open spec fn bishop_reach(from: int, to: int) -> bool {
    &&& 0 <= to < 64
    &&& from != to
    &&& abs(rank_delta(from, to)) == abs(file_delta(from, to))
}

/// A queen on `from` reaches `to` on an empty board.
pub open spec fn queen_reach(from: int, to: int) -> bool {
    rook_reach(from, to) || bishop_reach(from, to)
}

/// A king on `from` reaches `to`: any neighbouring square.
pub open spec fn king_reach(from: int, to: int) -> bool {
    &&& 0 <= to < 64
    &&& from != to
    &&& abs(rank_delta(from, to)) <= 1
    &&& abs(file_delta(from, to)) <= 1
}

/// A knight on `from` reaches `to`: two squares along one axis and one
/// along the other.
pub open spec fn knight_reach(from: int, to: int) -> bool {
    &&& 0 <= to < 64
    &&& {
        ||| abs(rank_delta(from, to)) == 1 && abs(file_delta(from, to)) == 2
        ||| abs(rank_delta(from, to)) == 2 && abs(file_delta(from, to)) == 1
    }
}

proof fn lemma_contains_concat(a: Seq<Option<usize>>, b: Seq<Option<usize>>, x: Option<usize>)
    ensures
        (a + b).contains(x) <==> a.contains(x) || b.contains(x),
{
    if (a + b).contains(x) {
        let i = choose|i: int| 0 <= i < (a + b).len() && (a + b)[i] == x;
        if i < a.len() {
            assert(a[i] == x);
        } else {
            assert(b[i - a.len()] == x);
        }
    }
    if a.contains(x) {
        let i = choose|i: int| 0 <= i < a.len() && a[i] == x;
        assert((a + b)[i] == x);
    }
    if b.contains(x) {
        let i = choose|i: int| 0 <= i < b.len() && b[i] == x;
        assert((a + b)[i + a.len()] == x);
    }
}

proof fn lemma_padded_contains(s: Seq<Option<usize>>, cap: int, to: usize)
    ensures
        padded(s, cap).contains(Some(to)) <==> s.contains(Some(to)),
{
    lemma_contains_concat(s, Seq::new((cap - s.len()) as nat, |i: int| None::<usize>), Some(to));
}

/// A walk's squares are exactly those lying on its ray within its limit.
proof fn lemma_ray_contains(from: int, dr: int, df: int, limit: int, to: usize)
    requires
        0 <= from < 64,
        is_direction(dr, df),
        limit >= 0,
    ensures
        ray(from, dr, df, limit).contains(Some(to)) <==> on_ray(from, dr, df, limit, to as int),
{
    let r = ray(from, dr, df, limit);
    assert(0 <= rank_of(from) < 8 && 0 <= file_of(from) < 8);
    assert(r.len() == ray_len(from, dr, df, limit));
    if r.contains(Some(to)) {
        let j = choose|j: int| 0 <= j < r.len() && r[j] == Some(to);
        lemma_square_coords(rank_of(from) + scaled(j + 1, dr), file_of(from) + scaled(j + 1, df));
    }
    if on_ray(from, dr, df, limit, to as int) {
        let k = if abs(rank_delta(from, to as int)) >= abs(file_delta(from, to as int)) {
            abs(rank_delta(from, to as int))
        } else {
            abs(file_delta(from, to as int))
        };
        lemma_square_coords(rank_of(to as int), file_of(to as int));
        assert(r[k - 1] == Some(to));
    }
}

/// The rook's row holds exactly the squares a rook reaches.
pub proof fn lemma_rook_row(from: int, to: usize)
    requires
        0 <= from < 64,
    ensures
        padded(rook_rays(from), MAX_ROOK_MOVES as int).contains(Some(to)) <==> rook_reach(
            from,
            to as int,
        ),
{
    lemma_padded_contains(rook_rays(from), MAX_ROOK_MOVES as int, to);
    let x = Some(to);
    lemma_contains_concat(ray(from, -1, 0, 8), ray(from, 1, 0, 8), x);
    lemma_contains_concat(ray(from, -1, 0, 8) + ray(from, 1, 0, 8), ray(from, 0, -1, 8), x);
    lemma_contains_concat(
        ray(from, -1, 0, 8) + ray(from, 1, 0, 8) + ray(from, 0, -1, 8),
        ray(from, 0, 1, 8),
        x,
    );
    lemma_ray_contains(from, -1, 0, 8, to);
    lemma_ray_contains(from, 1, 0, 8, to);
    lemma_ray_contains(from, 0, -1, 8, to);
    lemma_ray_contains(from, 0, 1, 8, to);
}


/// The bishop's row holds exactly the squares a bishop reaches.
pub proof fn lemma_bishop_row(from: int, to: usize)
    requires
        0 <= from < 64,
    ensures
        padded(bishop_rays(from), MAX_BISHOP_MOVES as int).contains(Some(to)) <==> bishop_reach(
            from,
            to as int,
        ),
{
    lemma_padded_contains(bishop_rays(from), MAX_BISHOP_MOVES as int, to);
    let x = Some(to);
    lemma_contains_concat(ray(from, -1, -1, 8), ray(from, 1, -1, 8), x);
    lemma_contains_concat(ray(from, -1, -1, 8) + ray(from, 1, -1, 8), ray(from, 1, 1, 8), x);
    lemma_contains_concat(
        ray(from, -1, -1, 8) + ray(from, 1, -1, 8) + ray(from, 1, 1, 8),
        ray(from, -1, 1, 8),
        x,
    );
    lemma_ray_contains(from, -1, -1, 8, to);
    lemma_ray_contains(from, 1, -1, 8, to);
    lemma_ray_contains(from, 1, 1, 8, to);
    lemma_ray_contains(from, -1, 1, 8, to);
}

proof fn lemma_compass_contains(from: int, limit: int, to: usize)
    requires
        0 <= from < 64,
        limit >= 0,
    ensures
        compass_rays(from, limit).contains(Some(to)) <==> {
            ||| on_ray(from, -1, 0, limit, to as int)
            ||| on_ray(from, 1, 0, limit, to as int)
            ||| on_ray(from, 0, -1, limit, to as int)
            ||| on_ray(from, 0, 1, limit, to as int)
            ||| on_ray(from, -1, -1, limit, to as int)
            ||| on_ray(from, 1, -1, limit, to as int)
            ||| on_ray(from, 1, 1, limit, to as int)
            ||| on_ray(from, -1, 1, limit, to as int)
        },
{
    let x = Some(to);
    let s1 = ray(from, -1, 0, limit);
    let s2 = s1 + ray(from, 1, 0, limit);
    let s3 = s2 + ray(from, 0, -1, limit);
    let s4 = s3 + ray(from, 0, 1, limit);
    let s5 = s4 + ray(from, -1, -1, limit);
    let s6 = s5 + ray(from, 1, -1, limit);
    let s7 = s6 + ray(from, 1, 1, limit);
    lemma_contains_concat(s1, ray(from, 1, 0, limit), x);
    lemma_contains_concat(s2, ray(from, 0, -1, limit), x);
    lemma_contains_concat(s3, ray(from, 0, 1, limit), x);
    lemma_contains_concat(s4, ray(from, -1, -1, limit), x);
    lemma_contains_concat(s5, ray(from, 1, -1, limit), x);
    lemma_contains_concat(s6, ray(from, 1, 1, limit), x);
    lemma_contains_concat(s7, ray(from, -1, 1, limit), x);
    lemma_ray_contains(from, -1, 0, limit, to);
    lemma_ray_contains(from, 1, 0, limit, to);
    lemma_ray_contains(from, 0, -1, limit, to);
    lemma_ray_contains(from, 0, 1, limit, to);
    lemma_ray_contains(from, -1, -1, limit, to);
    lemma_ray_contains(from, 1, -1, limit, to);
    lemma_ray_contains(from, 1, 1, limit, to);
    lemma_ray_contains(from, -1, 1, limit, to);
}

/// The queen's row holds exactly the squares a queen reaches.
pub proof fn lemma_queen_row(from: int, to: usize)
    requires
        0 <= from < 64,
    ensures
        padded(compass_rays(from, 8), MAX_QUEEN_MOVES as int).contains(Some(to)) <==> queen_reach(
            from,
            to as int,
        ),
{
    lemma_padded_contains(compass_rays(from, 8), MAX_QUEEN_MOVES as int, to);
    lemma_compass_contains(from, 8, to);
}

/// The king's row holds exactly the squares a king reaches.
pub proof fn lemma_king_row(from: int, to: usize)
    requires
        0 <= from < 64,
    ensures
        padded(compass_rays(from, 1), MAX_KING_MOVES as int).contains(Some(to)) <==> king_reach(
            from,
            to as int,
        ),
{
    lemma_padded_contains(compass_rays(from, 1), MAX_KING_MOVES as int, to);
    lemma_compass_contains(from, 1, to);
}

/// The knight's row holds exactly the squares a knight reaches.
pub proof fn lemma_knight_row(from: int, to: usize)
    requires
        0 <= from < 64,
    ensures
        knight_slots(from).contains(Some(to)) <==> knight_reach(from, to as int),
{
    let s = knight_slots(from);
    assert(0 <= rank_of(from) < 8 && 0 <= file_of(from) < 8);
    if s.contains(Some(to)) {
        let i = choose|i: int| 0 <= i < s.len() && s[i] == Some(to);
        assert(0 <= i < 8);
        let (dr, df) = if i == 0 {
            (-1int, -2int)
        } else if i == 1 {
            (1, -2)
        } else if i == 2 {
            (-2, -1)
        } else if i == 3 {
            (2, -1)
        } else if i == 4 {
            (-2, 1)
        } else if i == 5 {
            (2, 1)
        } else if i == 6 {
            (-1, 2)
        } else {
            (1, 2)
        };
        assert(s[i] == jump_slot(from, dr, df));
        lemma_square_coords(rank_of(from) + dr, file_of(from) + df);
    }
    if knight_reach(from, to as int) {
        lemma_square_coords(rank_of(to as int), file_of(to as int));
        let dr = rank_delta(from, to as int);
        let df = file_delta(from, to as int);
        let i = if dr == -1 && df == -2 {
            0int
        } else if dr == 1 && df == -2 {
            1
        } else if dr == -2 && df == -1 {
            2
        } else if dr == 2 && df == -1 {
            3
        } else if dr == -2 && df == 1 {
            4
        } else if dr == 2 && df == 1 {
            5
        } else if dr == -1 && df == 2 {
            6
        } else {
            7
        };
        assert(s[i] == Some(to));
    }
}


/// The rook's reach table: for every square, its row, in square order.
pub fn init_rook_table() -> (table: Vec<Vec<Option<usize>>>)
    ensures
        table@.len() == BOARD_SIZE,
        forall|sq: int| 0 <= sq < BOARD_SIZE ==> (#[trigger] table@[sq])@ == padded(rook_rays(sq), MAX_ROOK_MOVES as int),
{
    let mut table: Vec<Vec<Option<usize>>> = Vec::new();
    let mut square: usize = 0;
    while square < BOARD_SIZE
        invariant
            square <= BOARD_SIZE,
            table@.len() == square,
            forall|sq: int| 0 <= sq < square ==> (#[trigger] table@[sq])@ == padded(rook_rays(sq), MAX_ROOK_MOVES as int),
        decreases BOARD_SIZE - square,
    {
        table.push(rook_row(square));
        square += 1;
    }
    table
}

/// The bishop's reach table: for every square, its row, in square order.
pub fn init_bishop_table() -> (table: Vec<Vec<Option<usize>>>)
    ensures
        table@.len() == BOARD_SIZE,
        forall|sq: int| 0 <= sq < BOARD_SIZE ==> (#[trigger] table@[sq])@ == padded(bishop_rays(sq), MAX_BISHOP_MOVES as int),
{
    let mut table: Vec<Vec<Option<usize>>> = Vec::new();
    let mut square: usize = 0;
    while square < BOARD_SIZE
        invariant
            square <= BOARD_SIZE,
            table@.len() == square,
            forall|sq: int| 0 <= sq < square ==> (#[trigger] table@[sq])@ == padded(bishop_rays(sq), MAX_BISHOP_MOVES as int),
        decreases BOARD_SIZE - square,
    {
        table.push(bishop_row(square));
        square += 1;
    }
    table
}

/// The queen's reach table: for every square, its row, in square order.
pub fn init_queen_table() -> (table: Vec<Vec<Option<usize>>>)
    ensures
        table@.len() == BOARD_SIZE,
        forall|sq: int| 0 <= sq < BOARD_SIZE ==> (#[trigger] table@[sq])@ == padded(compass_rays(sq, 8), MAX_QUEEN_MOVES as int),
{
    let mut table: Vec<Vec<Option<usize>>> = Vec::new();
    let mut square: usize = 0;
    while square < BOARD_SIZE
        invariant
            square <= BOARD_SIZE,
            table@.len() == square,
            forall|sq: int| 0 <= sq < square ==> (#[trigger] table@[sq])@ == padded(compass_rays(sq, 8), MAX_QUEEN_MOVES as int),
        decreases BOARD_SIZE - square,
    {
        table.push(queen_row(square));
        square += 1;
    }
    table
}

/// The king's reach table: for every square, its row, in square order.
pub fn init_king_table() -> (table: Vec<Vec<Option<usize>>>)
    ensures
        table@.len() == BOARD_SIZE,
        forall|sq: int| 0 <= sq < BOARD_SIZE ==> (#[trigger] table@[sq])@ == padded(compass_rays(sq, 1), MAX_KING_MOVES as int),
{
    let mut table: Vec<Vec<Option<usize>>> = Vec::new();
    let mut square: usize = 0;
    while square < BOARD_SIZE
        invariant
            square <= BOARD_SIZE,
            table@.len() == square,
            forall|sq: int| 0 <= sq < square ==> (#[trigger] table@[sq])@ == padded(compass_rays(sq, 1), MAX_KING_MOVES as int),
        decreases BOARD_SIZE - square,
    {
        table.push(king_row(square));
        square += 1;
    }
    table
}

/// The knight's reach table: for every square, its row, in square order.
pub fn init_knight_table() -> (table: Vec<Vec<Option<usize>>>)
    ensures
        table@.len() == BOARD_SIZE,
        forall|sq: int| 0 <= sq < BOARD_SIZE ==> (#[trigger] table@[sq])@ == knight_slots(sq),
{
    let mut table: Vec<Vec<Option<usize>>> = Vec::new();
    let mut square: usize = 0;
    while square < BOARD_SIZE
        invariant
            square <= BOARD_SIZE,
            table@.len() == square,
            forall|sq: int| 0 <= sq < square ==> (#[trigger] table@[sq])@ == knight_slots(sq),
        decreases BOARD_SIZE - square,
    {
        table.push(knight_row(square));
        square += 1;
    }
    table
}

} // verus!
