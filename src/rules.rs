//! The rules of movement and legality, stated over a board seen as a
//! sequence of 64 optional pieces, indexed by `row * 8 + column`.

use vstd::prelude::*;

use crate::piece::{Color, Piece, PieceType, opponent};

verus! {

pub open spec fn on_board(r: int, c: int) -> bool {
    0 <= r < 8 && 0 <= c < 8
}

/// The occupant of the square at row `r`, column `c`.
pub open spec fn at(b: Seq<Option<Piece>>, r: int, c: int) -> Option<Piece> {
    b[r * 8 + c]
}

pub open spec fn is_empty(b: Seq<Option<Piece>>, r: int, c: int) -> bool {
    at(b, r, c) is None
}

pub open spec fn holds_color(b: Seq<Option<Piece>>, r: int, c: int, color: Color) -> bool {
    at(b, r, c) matches Some(p) && p.color == color
}

/// A square a piece of `color` may step onto: on the board, and empty or
/// held by an opposing piece.
pub open spec fn open_to(b: Seq<Option<Piece>>, r: int, c: int, color: Color) -> bool {
    on_board(r, c) && !holds_color(b, r, c, color)
}

pub open spec fn king_move(
    b: Seq<Option<Piece>>,
    fr: int,
    fc: int,
    color: Color,
    tr: int,
    tc: int,
) -> bool {
    &&& -1 <= tr - fr <= 1
    &&& -1 <= tc - fc <= 1
    &&& (tr != fr || tc != fc)
    &&& open_to(b, tr, tc, color)
}

pub open spec fn knight_move(
    b: Seq<Option<Piece>>,
    fr: int,
    fc: int,
    color: Color,
    tr: int,
    tc: int,
) -> bool {
    let dr = tr - fr;
    let dc = tc - fc;
    &&& ((dr == 1 || dr == -1) && (dc == 2 || dc == -2)) || ((dr == 2 || dr == -2) && (dc == 1
        || dc == -1))
    &&& open_to(b, tr, tc, color)
}

/// `k` steps of a unit direction component `d` (one of -1, 0, 1).
pub open spec fn scale(k: int, d: int) -> int {
    if d == 0 {
        0
    } else if d > 0 {
        k
    } else {
        -k
    }
}

/// How many steps of direction (`dr`, `dc`) lead from (`fr`, `fc`) towards
/// (`tr`, `tc`), read off the first nonzero component.
pub open spec fn ray_distance(fr: int, fc: int, dr: int, dc: int, tr: int, tc: int) -> int {
    if dr != 0 {
        scale(tr - fr, dr)
    } else {
        scale(tc - fc, dc)
    }
}

/// The square `k` steps along the ray is empty.
pub open spec fn ray_square_empty(
    b: Seq<Option<Piece>>,
    fr: int,
    fc: int,
    dr: int,
    dc: int,
    k: int,
) -> bool {
    is_empty(b, fr + scale(k, dr), fc + scale(k, dc))
}

/// All squares strictly between the start and step `k` of the ray are empty.
pub open spec fn ray_clear(b: Seq<Option<Piece>>, fr: int, fc: int, dr: int, dc: int, k: int) -> bool {
    forall|j: int| 1 <= j < k ==> #[trigger] ray_square_empty(b, fr, fc, dr, dc, j)
}

/// A destination of a sliding piece along direction (`dr`, `dc`): on the
/// ray, on the board, with nothing in between, and not held by the mover.
pub open spec fn slide_move(
    b: Seq<Option<Piece>>,
    fr: int,
    fc: int,
    color: Color,
    dr: int,
    dc: int,
    tr: int,
    tc: int,
) -> bool {
    let k = ray_distance(fr, fc, dr, dc, tr, tc);
    &&& k >= 1
    &&& tr == fr + scale(k, dr)
    &&& tc == fc + scale(k, dc)
    &&& ray_clear(b, fr, fc, dr, dc, k)
    &&& open_to(b, tr, tc, color)
}

pub open spec fn rook_move(
    b: Seq<Option<Piece>>,
    fr: int,
    fc: int,
    color: Color,
    tr: int,
    tc: int,
) -> bool {
    ||| slide_move(b, fr, fc, color, 1, 0, tr, tc)
    ||| slide_move(b, fr, fc, color, -1, 0, tr, tc)
    ||| slide_move(b, fr, fc, color, 0, 1, tr, tc)
    ||| slide_move(b, fr, fc, color, 0, -1, tr, tc)
}

pub open spec fn bishop_move(
    b: Seq<Option<Piece>>,
    fr: int,
    fc: int,
    color: Color,
    tr: int,
    tc: int,
) -> bool {
    ||| slide_move(b, fr, fc, color, 1, 1, tr, tc)
    ||| slide_move(b, fr, fc, color, 1, -1, tr, tc)
    ||| slide_move(b, fr, fc, color, -1, 1, tr, tc)
    ||| slide_move(b, fr, fc, color, -1, -1, tr, tc)
}

pub open spec fn queen_move(
    b: Seq<Option<Piece>>,
    fr: int,
    fc: int,
    color: Color,
    tr: int,
    tc: int,
) -> bool {
    rook_move(b, fr, fc, color, tr, tc) || bishop_move(b, fr, fc, color, tr, tc)
}

/// The row change of one pawn step for `color`.
pub open spec fn pawn_forward(color: Color) -> int {
    match color {
        Color::White => 1,
        Color::Black => -1,
    }
}

/// The row from which a pawn of `color` may advance two squares.
pub open spec fn pawn_start_row(color: Color) -> int {
    match color {
        Color::White => 1,
        Color::Black => 6,
    }
}

/// A pawn destination. The double step asks only that its destination be
/// empty: the square passed over is not examined.
pub open spec fn pawn_move(
    b: Seq<Option<Piece>>,
    fr: int,
    fc: int,
    color: Color,
    tr: int,
    tc: int,
) -> bool {
    let f = pawn_forward(color);
    &&& on_board(tr, tc)
    &&& {
        ||| tr == fr + f && tc == fc && is_empty(b, tr, tc)
        ||| tr == fr + 2 * f && tc == fc && is_empty(b, tr, tc) && fr == pawn_start_row(color)
        ||| tr == fr + f && (tc == fc + 1 || tc == fc - 1) && holds_color(
            b,
            tr,
            tc,
            opponent(color),
        )
    }
}

/// The pseudo-legal destinations of the piece on (`fr`, `fc`), queried for
/// `color`: its movement rule, without regard to the safety of any king.
/// An empty square has none.
pub open spec fn pseudo_legal(
    b: Seq<Option<Piece>>,
    fr: int,
    fc: int,
    color: Color,
    tr: int,
    tc: int,
) -> bool {
    match at(b, fr, fc) {
        None => false,
        Some(p) => match p.piece_type {
            PieceType::King => king_move(b, fr, fc, color, tr, tc),
            PieceType::Knight => knight_move(b, fr, fc, color, tr, tc),
            PieceType::Rook => rook_move(b, fr, fc, color, tr, tc),
            PieceType::Bishop => bishop_move(b, fr, fc, color, tr, tc),
            PieceType::Queen => queen_move(b, fr, fc, color, tr, tc),
            PieceType::Pawn => pawn_move(b, fr, fc, color, tr, tc),
        },
    }
}

/// `moves` lists each pseudo-legal destination exactly once, and nothing else.
pub open spec fn lists_moves(
    moves: Seq<(u32, u32)>,
    b: Seq<Option<Piece>>,
    fr: int,
    fc: int,
    color: Color,
) -> bool {
    &&& moves.no_duplicates()
    &&& forall|t: (u32, u32)|
        #[trigger] moves.contains(t) <==> pseudo_legal(b, fr, fc, color, t.0 as int, t.1 as int)
}

/// The board after the occupant of square `f` is relocated to square `t`,
/// replacing whatever stood there.
pub open spec fn apply_move(b: Seq<Option<Piece>>, f: int, t: int) -> Seq<Option<Piece>> {
    b.update(f, None).update(t, b[f])
}

pub open spec fn king_of(color: Color) -> Piece {
    Piece { color, piece_type: PieceType::King }
}

pub open spec fn has_king(b: Seq<Option<Piece>>, color: Color) -> bool {
    exists|r: int, c: int| on_board(r, c) && #[trigger] at(b, r, c) == Some(king_of(color))
}

/// The piece on (`sr`, `sc`) opposes `color` and reaches, pseudo-legally,
/// a square that holds a king of `color`.
pub open spec fn attacks_king(b: Seq<Option<Piece>>, color: Color, sr: int, sc: int) -> bool {
    &&& holds_color(b, sr, sc, opponent(color))
    &&& exists|tr: int, tc: int|
        on_board(tr, tc) && #[trigger] pseudo_legal(b, sr, sc, opponent(color), tr, tc) && at(
            b,
            tr,
            tc,
        ) == Some(king_of(color))
}

/// Some opposing piece reaches a square that holds a king of `color`.
pub open spec fn king_attacked(b: Seq<Option<Piece>>, color: Color) -> bool {
    exists|sr: int, sc: int| on_board(sr, sc) && #[trigger] attacks_king(b, color, sr, sc)
}

/// A move of the piece on (`fr`, `fc`) by `color` to (`tr`, `tc`) that is
/// pseudo-legal and leaves a king of `color` on the board, none of them
/// attacked.
pub open spec fn legal_move_of(
    b: Seq<Option<Piece>>,
    color: Color,
    fr: int,
    fc: int,
    tr: int,
    tc: int,
) -> bool {
    let after = apply_move(b, fr * 8 + fc, tr * 8 + tc);
    &&& on_board(tr, tc)
    &&& pseudo_legal(b, fr, fc, color, tr, tc)
    &&& has_king(after, color)
    &&& !king_attacked(after, color)
}

/// The piece on (`fr`, `fc`) belongs to `color` and has a legal move.
pub open spec fn can_move_from(b: Seq<Option<Piece>>, color: Color, fr: int, fc: int) -> bool {
    &&& holds_color(b, fr, fc, color)
    &&& exists|tr: int, tc: int| #[trigger] legal_move_of(b, color, fr, fc, tr, tc)
}

/// `color` has at least one legal move.
pub open spec fn has_legal_move(b: Seq<Option<Piece>>, color: Color) -> bool {
    exists|fr: int, fc: int| on_board(fr, fc) && #[trigger] can_move_from(b, color, fr, fc)
}

/// Two answers to one move query name the same destinations, and as many of
/// them: the order is the only thing that may differ.
pub proof fn lemma_move_lists_agree(
    m1: Seq<(u32, u32)>,
    m2: Seq<(u32, u32)>,
    b: Seq<Option<Piece>>,
    fr: int,
    fc: int,
    color: Color,
)
    requires
        lists_moves(m1, b, fr, fc, color),
        lists_moves(m2, b, fr, fc, color),
    ensures
        m1.to_set() == m2.to_set(),
        m1.len() == m2.len(),
{
    assert(m1.to_set() =~= m2.to_set());
    m1.unique_seq_to_set();
    m2.unique_seq_to_set();
}

/// A rook's scan along one direction ends at the first occupied square: no
/// square beyond it is a destination, and the square itself is one when an
/// opposing piece holds it and nothing stands in between.
pub proof fn lemma_rook_scan_stops(
    b: Seq<Option<Piece>>,
    fr: int,
    fc: int,
    color: Color,
    dr: int,
    dc: int,
    k: int,
    beyond: int,
)
    requires
        on_board(fr, fc),
        -1 <= dr <= 1,
        -1 <= dc <= 1,
        (dr == 0) != (dc == 0),
        1 <= k < beyond,
        on_board(fr + scale(k, dr), fc + scale(k, dc)),
        !is_empty(b, fr + scale(k, dr), fc + scale(k, dc)),
    ensures
        !rook_move(b, fr, fc, color, fr + scale(beyond, dr), fc + scale(beyond, dc)),
        ray_clear(b, fr, fc, dr, dc, k) && holds_color(
            b,
            fr + scale(k, dr),
            fc + scale(k, dc),
            opponent(color),
        ) ==> rook_move(b, fr, fc, color, fr + scale(k, dr), fc + scale(k, dc)),
{
    assert(!ray_square_empty(b, fr, fc, dr, dc, k));
}

} // verus!
