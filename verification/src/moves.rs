//! The move generator, the attack oracle and the legality filter.

use vstd::prelude::*;

use crate::pieces::{opposite_color, Color, Piece, PieceType};
use crate::rules::{
    attacked, bishop_dest, can_land, file_of, holds_color, in_check, king_step_dest, knight_dest,
    legal_dest, on_board_rf, pawn_dest, pawn_forward, pawn_start_rank, pseudo_dest,
    pseudo_dest_basic, queen_dest, rank_of, ray_dest, ray_on_board, ray_square, relocated,
    rook_dest, square_at,
};
use crate::state::{GameState, BLACK_KINGSIDE, BLACK_QUEENSIDE, WHITE_KINGSIDE, WHITE_QUEENSIDE};

verus! {

broadcast use vstd::array::group_array_axioms;

/// Like [`ray_dest`], but the step count is bounded by `bound`: the prefix
/// of the ray that a partial scan has already covered.
spec fn ray_dest_upto(
    b: Seq<Option<crate::pieces::Piece>>,
    from: int,
    dr: int,
    df: int,
    to: int,
    c: Color,
    bound: int,
) -> bool {
    exists|k: int|
        {
            &&& 1 <= k <= 7
            &&& k < bound
            &&& to == #[trigger] ray_square(from, dr, df, k)
            &&& ray_on_board(from, dr, df, k)
            &&& forall|j: int| 1 <= j < k ==> b[#[trigger] ray_square(from, dr, df, j)] is None
            &&& can_land(b, to, c)
        }
}

/// Multiplying by a factor that is `-1`, `0` or `1` negates, zeroes or
/// keeps the other factor.
proof fn lemma_unit_mul(d: int, k: int)
    requires
        -1 <= d <= 1,
    ensures
        d == -1 ==> k * d == -k,
        d == 0 ==> k * d == 0,
        d == 1 ==> k * d == k,
{
    assert(d == -1 ==> k * d == -k) by (nonlinear_arith);
    assert(d == 0 ==> k * d == 0) by (nonlinear_arith);
    assert(d == 1 ==> k * d == k) by (nonlinear_arith);
}

/// Once a ray has left the board it never comes back: the coordinate that
/// stepped off keeps moving the same way.
proof fn lemma_ray_stays_off_board(from: int, dr: int, df: int, k: int)
    requires
        0 <= from < 64,
        -1 <= dr <= 1,
        -1 <= df <= 1,
        1 <= k,
        !ray_on_board(from, dr, df, k),
    ensures
        forall|kk: int| kk >= k ==> !ray_on_board(from, dr, df, kk),
{
    assert forall|kk: int| kk >= k implies !ray_on_board(from, dr, df, kk) by {
        lemma_unit_mul(dr, k);
        lemma_unit_mul(dr, kk);
        lemma_unit_mul(df, k);
        lemma_unit_mul(df, kk);
    }
}

/// Membership in a sequence after a push: the old members, plus the new one.
pub(crate) proof fn lemma_push_contains<A>(s: Seq<A>, x: A)
    ensures
        forall|t: A| #[trigger] s.push(x).contains(t) <==> s.contains(t) || t == x,
{
    assert forall|t: A| #[trigger] s.push(x).contains(t) <==> s.contains(t) || t == x by {
        if s.push(x).contains(t) {
            let i = choose|i: int| 0 <= i < s.push(x).len() && s.push(x)[i] == t;
            if i < s.len() {
                assert(s[i] == t);
            }
        }
        if s.contains(t) {
            let i = choose|i: int| 0 <= i < s.len() && s[i] == t;
            assert(s.push(x)[i] == t);
        }
        if t == x {
            assert(s.push(x)[s.len() as int] == x);
        }
    }
}

/// A destination reachable within a step bound is reachable within any
/// larger bound.
proof fn lemma_upto_widen(
    b: Seq<Option<Piece>>,
    from: int,
    dr: int,
    df: int,
    to: int,
    c: Color,
    b1: int,
    b2: int,
)
    requires
        ray_dest_upto(b, from, dr, df, to, c, b1),
        b1 <= b2,
    ensures
        ray_dest_upto(b, from, dr, df, to, c, b2),
{
    let kk = choose|kk: int|
        {
            &&& 1 <= kk <= 7
            &&& kk < b1
            &&& to == #[trigger] ray_square(from, dr, df, kk)
            &&& ray_on_board(from, dr, df, kk)
            &&& forall|j: int| 1 <= j < kk ==> b[#[trigger] ray_square(from, dr, df, j)] is None
            &&& can_land(b, to, c)
        };
    assert(to == ray_square(from, dr, df, kk) && kk < b2);
}

/// A destination reachable within some step bound is a ray destination.
proof fn lemma_upto_is_ray_dest(
    b: Seq<Option<Piece>>,
    from: int,
    dr: int,
    df: int,
    to: int,
    c: Color,
    bound: int,
)
    requires
        ray_dest_upto(b, from, dr, df, to, c, bound),
    ensures
        ray_dest(b, from, dr, df, to, c),
{
    let kk = choose|kk: int|
        {
            &&& 1 <= kk <= 7
            &&& kk < bound
            &&& to == #[trigger] ray_square(from, dr, df, kk)
            &&& ray_on_board(from, dr, df, kk)
            &&& forall|j: int| 1 <= j < kk ==> b[#[trigger] ray_square(from, dr, df, j)] is None
            &&& can_land(b, to, c)
        };
    assert(to == ray_square(from, dr, df, kk));
}

/// Different step counts along one ray land on different squares.
proof fn lemma_ray_square_injective(from: int, dr: int, df: int, k1: int, k2: int)
    requires
        -1 <= dr <= 1,
        -1 <= df <= 1,
        !(dr == 0 && df == 0),
        k1 != k2,
    ensures
        ray_square(from, dr, df, k1) != ray_square(from, dr, df, k2),
{
    lemma_unit_mul(dr, k1);
    lemma_unit_mul(dr, k2);
    lemma_unit_mul(df, k1);
    lemma_unit_mul(df, k2);
}

/// Two rays leaving one square in different directions reach disjoint
/// sets of on-board destinations.
proof fn lemma_distinct_rays_share_no_square(
    b: Seq<Option<Piece>>,
    from: int,
    d1r: int,
    d1f: int,
    d2r: int,
    d2f: int,
    c: Color,
)
    requires
        0 <= from < 64,
        -1 <= d1r <= 1,
        -1 <= d1f <= 1,
        !(d1r == 0 && d1f == 0),
        -1 <= d2r <= 1,
        -1 <= d2f <= 1,
        !(d2r == 0 && d2f == 0),
        !(d1r == d2r && d1f == d2f),
    ensures
        forall|t: int|
            #![trigger ray_dest(b, from, d1r, d1f, t, c)]
            !(ray_dest(b, from, d1r, d1f, t, c) && ray_dest(b, from, d2r, d2f, t, c)),
{
    assert forall|t: int|
        #![trigger ray_dest(b, from, d1r, d1f, t, c)]
        !(ray_dest(b, from, d1r, d1f, t, c) && ray_dest(b, from, d2r, d2f, t, c)) by {
        if ray_dest(b, from, d1r, d1f, t, c) && ray_dest(b, from, d2r, d2f, t, c) {
            let k1 = choose|k1: int|
                {
                    &&& 1 <= k1 <= 7
                    &&& t == #[trigger] ray_square(from, d1r, d1f, k1)
                    &&& ray_on_board(from, d1r, d1f, k1)
                    &&& forall|j: int|
                        1 <= j < k1 ==> b[#[trigger] ray_square(from, d1r, d1f, j)] is None
                    &&& can_land(b, t, c)
                };
            let k2 = choose|k2: int|
                {
                    &&& 1 <= k2 <= 7
                    &&& t == #[trigger] ray_square(from, d2r, d2f, k2)
                    &&& ray_on_board(from, d2r, d2f, k2)
                    &&& forall|j: int|
                        1 <= j < k2 ==> b[#[trigger] ray_square(from, d2r, d2f, j)] is None
                    &&& can_land(b, t, c)
                };
            lemma_unit_mul(d1r, k1);
            lemma_unit_mul(d1f, k1);
            lemma_unit_mul(d2r, k2);
            lemma_unit_mul(d2f, k2);
            assert(false);
        }
    }
}

/// Pushing an element a sequence does not hold keeps it duplicate-free.
pub(crate) proof fn lemma_push_no_duplicates<A>(s: Seq<A>, x: A)
    requires
        s.no_duplicates(),
        !s.contains(x),
    ensures
        s.push(x).no_duplicates(),
{
    assert forall|i: int, j: int|
        0 <= i < s.push(x).len() && 0 <= j < s.push(x).len() && i != j implies s.push(x)[i]
        != s.push(x)[j] by {
        if i < s.len() && j < s.len() {
            assert(s[i] == s.push(x)[i] && s[j] == s.push(x)[j]);
        } else if i < s.len() {
            assert(s.push(x)[i] == s[i] && s.contains(s[i]));
        } else if j < s.len() {
            assert(s.push(x)[j] == s[j] && s.contains(s[j]));
        }
    }
}

/// Linear scan for a square index in a move list.
pub(crate) fn contains_square(v: &Vec<usize>, x: usize) -> (b: bool)
    ensures
        b == v@.contains(x),
{
    let mut i: usize = 0;
    while i < v.len()
        invariant
            i <= v@.len(),
            forall|j: int| 0 <= j < i ==> v@[j] != x,
        decreases v@.len() - i,
    {
        if v[i] == x {
            return true;
        }
        i = i + 1;
    }
    false
}

impl GameState {
    /// Walk one sliding ray from `from` in direction `(dr, df)`, appending
    /// every square reachable along it: empty squares until the first
    /// occupied one, which is included only when it holds an enemy piece.
    fn add_ray(&self, moves: &mut Vec<usize>, from: usize, dr: i8, df: i8, color: Color)
        requires
            from < 64,
            -1 <= dr <= 1,
            -1 <= df <= 1,
            !(dr == 0 && df == 0),
            old(moves)@.no_duplicates(),
            forall|t: usize|
                old(moves)@.contains(t) ==> !ray_dest(
                    self@.board,
                    from as int,
                    dr as int,
                    df as int,
                    t as int,
                    color,
                ),
        ensures
            forall|t: usize|
                #[trigger] final(moves)@.contains(t) <==> old(moves)@.contains(t) || ray_dest(
                    self@.board,
                    from as int,
                    dr as int,
                    df as int,
                    t as int,
                    color,
                ),
            final(moves)@.len() >= old(moves)@.len(),
            forall|i: int| 0 <= i < old(moves)@.len() ==> final(moves)@[i] == old(moves)@[i],
            forall|i: int|
                old(moves)@.len() <= i < final(moves)@.len() ==> ray_dest(
                    self@.board,
                    from as int,
                    dr as int,
                    df as int,
                    #[trigger] final(moves)@[i] as int,
                    color,
                ),
            final(moves)@.no_duplicates(),
    {
        let r: i8 = (from / 8) as i8;
        let f: i8 = (from % 8) as i8;
        let ghost fi = from as int;
        let ghost dri = dr as int;
        let ghost dfi = df as int;
        let ghost b = self@.board;
        let mut nr: i8 = r;
        let mut nf: i8 = f;
        let mut k: i8 = 1;
        let mut blocked = false;
        while k < 8 && !blocked
            invariant
                0 <= r < 8,
                0 <= f < 8,
                r == rank_of(fi),
                f == file_of(fi),
                0 <= fi < 64,
                -1 <= dri <= 1,
                -1 <= dfi <= 1,
                !(dri == 0 && dfi == 0),
                dr == dri,
                df == dfi,
                b == self@.board,
                1 <= k <= 8,
                !blocked ==> {
                    &&& 0 <= nr < 8
                    &&& 0 <= nf < 8
                    &&& nr == rank_of(fi) + (k - 1) * dri
                    &&& nf == file_of(fi) + (k - 1) * dfi
                },
                !blocked ==> forall|j: int|
                    1 <= j < k ==> ray_on_board(fi, dri, dfi, j) && b[#[trigger] ray_square(
                        fi,
                        dri,
                        dfi,
                        j,
                    )] is None,
                forall|t: usize|
                    #[trigger] moves@.contains(t) <==> old(moves)@.contains(t) || ray_dest_upto(
                        b,
                        fi,
                        dri,
                        dfi,
                        t as int,
                        color,
                        k as int,
                    ),
                blocked ==> forall|t: usize|
                    #[trigger] ray_dest(b, fi, dri, dfi, t as int, color) ==> ray_dest_upto(
                        b,
                        fi,
                        dri,
                        dfi,
                        t as int,
                        color,
                        k as int,
                    ),
                moves@.len() >= old(moves)@.len(),
                forall|i: int| 0 <= i < old(moves)@.len() ==> moves@[i] == old(moves)@[i],
                forall|i: int|
                    old(moves)@.len() <= i < moves@.len() ==> ray_dest_upto(
                        b,
                        fi,
                        dri,
                        dfi,
                        #[trigger] moves@[i] as int,
                        color,
                        k as int,
                    ),
                forall|i: int, j: int|
                    old(moves)@.len() <= i < j < moves@.len() ==> moves@[i] != moves@[j],
            decreases 8 - k,
        {
            let r2: i8 = nr + dr;
            let f2: i8 = nf + df;
            proof {
                assert(((k as int) - 1) * dri + dri == (k as int) * dri) by (nonlinear_arith);
                assert(((k as int) - 1) * dfi + dfi == (k as int) * dfi) by (nonlinear_arith);
                assert(r2 == rank_of(fi) + k * dri);
                assert(f2 == file_of(fi) + k * dfi);
            }
            if r2 < 0 || r2 >= 8 || f2 < 0 || f2 >= 8 {
                blocked = true;
                proof {
                    lemma_ray_stays_off_board(fi, dri, dfi, k as int);
                    assert forall|t: usize|
                        #[trigger] ray_dest(b, fi, dri, dfi, t as int, color) implies ray_dest_upto(
                        b,
                        fi,
                        dri,
                        dfi,
                        t as int,
                        color,
                        (k + 1) as int,
                    ) by {
                        let kk = choose|kk: int|
                            {
                                &&& 1 <= kk <= 7
                                &&& t as int == #[trigger] ray_square(fi, dri, dfi, kk)
                                &&& ray_on_board(fi, dri, dfi, kk)
                                &&& forall|j: int|
                                    1 <= j < kk ==> b[#[trigger] ray_square(
                                        fi,
                                        dri,
                                        dfi,
                                        j,
                                    )] is None
                                &&& can_land(b, t as int, color)
                            };
                        assert(kk < k as int);
                    }
                }
            } else {
                let idx: usize = (r2 as usize) * 8 + (f2 as usize);
                proof {
                    assert(idx as int == ray_square(fi, dri, dfi, k as int));
                    assert(ray_on_board(fi, dri, dfi, k as int));
                }
                match self.board[idx] {
                    None => {
                        proof {
                            lemma_push_contains(moves@, idx);
                            assert forall|i: int|
                                old(moves)@.len() <= i < moves@.len() implies moves@[i] != idx by {
                                let kk = choose|kk: int|
                                    {
                                        &&& 1 <= kk <= 7
                                        &&& kk < k as int
                                        &&& moves@[i] as int == #[trigger] ray_square(
                                            fi,
                                            dri,
                                            dfi,
                                            kk,
                                        )
                                        &&& ray_on_board(fi, dri, dfi, kk)
                                        &&& forall|j: int|
                                            1 <= j < kk ==> b[#[trigger] ray_square(
                                                fi,
                                                dri,
                                                dfi,
                                                j,
                                            )] is None
                                        &&& can_land(b, moves@[i] as int, color)
                                    };
                                lemma_ray_square_injective(fi, dri, dfi, kk, k as int);
                            }
                        }
                        moves.push(idx);
                        proof {
                            assert(ray_dest_upto(b, fi, dri, dfi, idx as int, color, (k + 1) as int))
                                by {
                                assert(idx as int == ray_square(fi, dri, dfi, k as int));
                            }
                            assert forall|t: usize|
                                #[trigger] moves@.contains(t) <==> old(moves)@.contains(t)
                                    || ray_dest_upto(
                                    b,
                                    fi,
                                    dri,
                                    dfi,
                                    t as int,
                                    color,
                                    (k + 1) as int,
                                ) by {
                                if t == idx {
                                    assert(ray_dest_upto(
                                        b,
                                        fi,
                                        dri,
                                        dfi,
                                        t as int,
                                        color,
                                        (k + 1) as int,
                                    )) by {
                                        assert(t as int == ray_square(fi, dri, dfi, k as int));
                                    }
                                }
                                if t != idx && ray_dest_upto(
                                    b,
                                    fi,
                                    dri,
                                    dfi,
                                    t as int,
                                    color,
                                    (k + 1) as int,
                                ) {
                                    let kk = choose|kk: int|
                                        {
                                            &&& 1 <= kk <= 7
                                            &&& kk < (k + 1) as int
                                            &&& t as int == #[trigger] ray_square(fi, dri, dfi, kk)
                                            &&& ray_on_board(fi, dri, dfi, kk)
                                            &&& forall|j: int|
                                                1 <= j < kk ==> b[#[trigger] ray_square(
                                                    fi,
                                                    dri,
                                                    dfi,
                                                    j,
                                                )] is None
                                            &&& can_land(b, t as int, color)
                                        };
                                    assert(kk < k as int);
                                    assert(ray_dest_upto(b, fi, dri, dfi, t as int, color, k as int));
                                }
                            }
                        }
                    },
                    Some(p) => {
                        if p.color != color {
                            proof {
                                lemma_push_contains(moves@, idx);
                                assert forall|i: int|
                                    old(moves)@.len() <= i < moves@.len() implies moves@[i]
                                    != idx by {
                                    let kk = choose|kk: int|
                                        {
                                            &&& 1 <= kk <= 7
                                            &&& kk < k as int
                                            &&& moves@[i] as int == #[trigger] ray_square(
                                                fi,
                                                dri,
                                                dfi,
                                                kk,
                                            )
                                            &&& ray_on_board(fi, dri, dfi, kk)
                                            &&& forall|j: int|
                                                1 <= j < kk ==> b[#[trigger] ray_square(
                                                    fi,
                                                    dri,
                                                    dfi,
                                                    j,
                                                )] is None
                                            &&& can_land(b, moves@[i] as int, color)
                                        };
                                    lemma_ray_square_injective(fi, dri, dfi, kk, k as int);
                                }
                            }
                            moves.push(idx);
                            proof {
                                assert(ray_dest_upto(
                                    b,
                                    fi,
                                    dri,
                                    dfi,
                                    idx as int,
                                    color,
                                    (k + 1) as int,
                                )) by {
                                    assert(idx as int == ray_square(fi, dri, dfi, k as int));
                                }
                            }
                        }
                        blocked = true;
                        proof {
                            assert forall|t: usize|
                                #[trigger] ray_dest(b, fi, dri, dfi, t as int, color) implies ray_dest_upto(
                                b,
                                fi,
                                dri,
                                dfi,
                                t as int,
                                color,
                                (k + 1) as int,
                            ) by {
                                let kk = choose|kk: int|
                                    {
                                        &&& 1 <= kk <= 7
                                        &&& t as int == #[trigger] ray_square(fi, dri, dfi, kk)
                                        &&& ray_on_board(fi, dri, dfi, kk)
                                        &&& forall|j: int|
                                            1 <= j < kk ==> b[#[trigger] ray_square(
                                                fi,
                                                dri,
                                                dfi,
                                                j,
                                            )] is None
                                        &&& can_land(b, t as int, color)
                                    };
                                if kk > k as int {
                                    assert(b[ray_square(fi, dri, dfi, k as int)] is None);
                                    assert(false);
                                }
                                if kk == k as int {
                                    assert(t == idx);
                                }
                            }
                            assert forall|t: usize|
                                #[trigger] moves@.contains(t) <==> old(moves)@.contains(t)
                                    || ray_dest_upto(
                                    b,
                                    fi,
                                    dri,
                                    dfi,
                                    t as int,
                                    color,
                                    (k + 1) as int,
                                ) by {
                                if t == idx && p.color != color {
                                    assert(ray_dest_upto(
                                        b,
                                        fi,
                                        dri,
                                        dfi,
                                        t as int,
                                        color,
                                        (k + 1) as int,
                                    )) by {
                                        assert(t as int == ray_square(fi, dri, dfi, k as int));
                                    }
                                }
                                if ray_dest_upto(b, fi, dri, dfi, t as int, color, (k + 1) as int)
                                    && !ray_dest_upto(b, fi, dri, dfi, t as int, color, k as int) {
                                    let kk = choose|kk: int|
                                        {
                                            &&& 1 <= kk <= 7
                                            &&& kk < (k + 1) as int
                                            &&& t as int == #[trigger] ray_square(fi, dri, dfi, kk)
                                            &&& ray_on_board(fi, dri, dfi, kk)
                                            &&& forall|j: int|
                                                1 <= j < kk ==> b[#[trigger] ray_square(
                                                    fi,
                                                    dri,
                                                    dfi,
                                                    j,
                                                )] is None
                                            &&& can_land(b, t as int, color)
                                        };
                                    assert(kk == k as int);
                                    assert(t == idx);
                                    assert(can_land(b, idx as int, color));
                                    assert(p.color != color);
                                }
                            }
                        }
                    },
                }
                nr = r2;
                nf = f2;
            }
            proof {
                assert forall|i: int|
                    old(moves)@.len() <= i < moves@.len() implies ray_dest_upto(
                    b,
                    fi,
                    dri,
                    dfi,
                    #[trigger] moves@[i] as int,
                    color,
                    (k + 1) as int,
                ) by {
                    if ray_dest_upto(b, fi, dri, dfi, moves@[i] as int, color, k as int) {
                        lemma_upto_widen(
                            b,
                            fi,
                            dri,
                            dfi,
                            moves@[i] as int,
                            color,
                            k as int,
                            (k + 1) as int,
                        );
                    }
                }
            }
            k = k + 1;
        }
        proof {
            if !blocked {
                assert forall|t: usize|
                    #[trigger] ray_dest(b, fi, dri, dfi, t as int, color) implies ray_dest_upto(
                    b,
                    fi,
                    dri,
                    dfi,
                    t as int,
                    color,
                    k as int,
                ) by {}
            }
            assert forall|i: int|
                old(moves)@.len() <= i < moves@.len() implies ray_dest(
                b,
                fi,
                dri,
                dfi,
                #[trigger] moves@[i] as int,
                color,
            ) by {
                lemma_upto_is_ray_dest(b, fi, dri, dfi, moves@[i] as int, color, k as int);
            }
            assert forall|i: int, j: int|
                0 <= i < moves@.len() && 0 <= j < moves@.len() && i != j implies moves@[i]
                != moves@[j] by {
                let lo = if i < j {
                    i
                } else {
                    j
                };
                let hi = if i < j {
                    j
                } else {
                    i
                };
                if hi < old(moves)@.len() {
                    assert(moves@[lo] == old(moves)@[lo] && moves@[hi] == old(moves)@[hi]);
                } else if lo < old(moves)@.len() {
                    assert(moves@[lo] == old(moves)@[lo]);
                    assert(old(moves)@.contains(old(moves)@[lo]));
                    assert(ray_dest(b, fi, dri, dfi, moves@[hi] as int, color));
                }
            }
            assert(moves@.no_duplicates());
        }
    }

    /// Destinations of a rook of `color` on `idx`: the four orthogonal rays.
    fn rook_moves(&self, idx: usize, color: Color) -> (moves: Vec<usize>)
        requires
            idx < 64,
        ensures
            forall|t: usize|
                #[trigger] moves@.contains(t) <==> rook_dest(self@.board, idx as int, t as int, color),
            moves@.no_duplicates(),
    {
        let mut moves: Vec<usize> = Vec::new();
        self.add_ray(&mut moves, idx, -1, 0, color);
        proof {
            lemma_distinct_rays_share_no_square(
                self@.board,
                idx as int,
                -1,
                0,
                1,
                0,
                color,
            );
        }
        self.add_ray(&mut moves, idx, 1, 0, color);
        proof {
            lemma_distinct_rays_share_no_square(
                self@.board,
                idx as int,
                -1,
                0,
                0,
                1,
                color,
            );
            lemma_distinct_rays_share_no_square(
                self@.board,
                idx as int,
                1,
                0,
                0,
                1,
                color,
            );
        }
        self.add_ray(&mut moves, idx, 0, 1, color);
        proof {
            lemma_distinct_rays_share_no_square(
                self@.board,
                idx as int,
                -1,
                0,
                0,
                -1,
                color,
            );
            lemma_distinct_rays_share_no_square(
                self@.board,
                idx as int,
                1,
                0,
                0,
                -1,
                color,
            );
            lemma_distinct_rays_share_no_square(
                self@.board,
                idx as int,
                0,
                1,
                0,
                -1,
                color,
            );
        }
        self.add_ray(&mut moves, idx, 0, -1, color);
        moves
    }

    /// Destinations of a bishop of `color` on `idx`: the four diagonal rays.
    fn bishop_moves(&self, idx: usize, color: Color) -> (moves: Vec<usize>)
        requires
            idx < 64,
        ensures
            forall|t: usize|
                #[trigger] moves@.contains(t) <==> bishop_dest(self@.board, idx as int, t as int, color),
            moves@.no_duplicates(),
    {
        let mut moves: Vec<usize> = Vec::new();
        self.add_ray(&mut moves, idx, -1, -1, color);
        proof {
            lemma_distinct_rays_share_no_square(
                self@.board,
                idx as int,
                -1,
                -1,
                -1,
                1,
                color,
            );
        }
        self.add_ray(&mut moves, idx, -1, 1, color);
        proof {
            lemma_distinct_rays_share_no_square(
                self@.board,
                idx as int,
                -1,
                -1,
                1,
                -1,
                color,
            );
            lemma_distinct_rays_share_no_square(
                self@.board,
                idx as int,
                -1,
                1,
                1,
                -1,
                color,
            );
        }
        self.add_ray(&mut moves, idx, 1, -1, color);
        proof {
            lemma_distinct_rays_share_no_square(
                self@.board,
                idx as int,
                -1,
                -1,
                1,
                1,
                color,
            );
            lemma_distinct_rays_share_no_square(
                self@.board,
                idx as int,
                -1,
                1,
                1,
                1,
                color,
            );
            lemma_distinct_rays_share_no_square(
                self@.board,
                idx as int,
                1,
                -1,
                1,
                1,
                color,
            );
        }
        self.add_ray(&mut moves, idx, 1, 1, color);
        moves
    }

    /// Destinations of a queen of `color` on `idx`: all eight rays.
    fn queen_moves(&self, idx: usize, color: Color) -> (moves: Vec<usize>)
        requires
            idx < 64,
        ensures
            forall|t: usize|
                #[trigger] moves@.contains(t) <==> queen_dest(self@.board, idx as int, t as int, color),
            moves@.no_duplicates(),
    {
        let mut moves: Vec<usize> = Vec::new();
        self.add_ray(&mut moves, idx, -1, -1, color);
        proof {
            lemma_distinct_rays_share_no_square(
                self@.board,
                idx as int,
                -1,
                -1,
                -1,
                1,
                color,
            );
        }
        self.add_ray(&mut moves, idx, -1, 1, color);
        proof {
            lemma_distinct_rays_share_no_square(
                self@.board,
                idx as int,
                -1,
                -1,
                1,
                -1,
                color,
            );
            lemma_distinct_rays_share_no_square(
                self@.board,
                idx as int,
                -1,
                1,
                1,
                -1,
                color,
            );
        }
        self.add_ray(&mut moves, idx, 1, -1, color);
        proof {
            lemma_distinct_rays_share_no_square(
                self@.board,
                idx as int,
                -1,
                -1,
                1,
                1,
                color,
            );
            lemma_distinct_rays_share_no_square(
                self@.board,
                idx as int,
                -1,
                1,
                1,
                1,
                color,
            );
            lemma_distinct_rays_share_no_square(
                self@.board,
                idx as int,
                1,
                -1,
                1,
                1,
                color,
            );
        }
        self.add_ray(&mut moves, idx, 1, 1, color);
        proof {
            lemma_distinct_rays_share_no_square(
                self@.board,
                idx as int,
                -1,
                -1,
                -1,
                0,
                color,
            );
            lemma_distinct_rays_share_no_square(
                self@.board,
                idx as int,
                -1,
                1,
                -1,
                0,
                color,
            );
            lemma_distinct_rays_share_no_square(
                self@.board,
                idx as int,
                1,
                -1,
                -1,
                0,
                color,
            );
            lemma_distinct_rays_share_no_square(
                self@.board,
                idx as int,
                1,
                1,
                -1,
                0,
                color,
            );
        }
        self.add_ray(&mut moves, idx, -1, 0, color);
        proof {
            lemma_distinct_rays_share_no_square(
                self@.board,
                idx as int,
                -1,
                -1,
                1,
                0,
                color,
            );
            lemma_distinct_rays_share_no_square(
                self@.board,
                idx as int,
                -1,
                1,
                1,
                0,
                color,
            );
            lemma_distinct_rays_share_no_square(
                self@.board,
                idx as int,
                1,
                -1,
                1,
                0,
                color,
            );
            lemma_distinct_rays_share_no_square(
                self@.board,
                idx as int,
                1,
                1,
                1,
                0,
                color,
            );
            lemma_distinct_rays_share_no_square(
                self@.board,
                idx as int,
                -1,
                0,
                1,
                0,
                color,
            );
        }
        self.add_ray(&mut moves, idx, 1, 0, color);
        proof {
            lemma_distinct_rays_share_no_square(
                self@.board,
                idx as int,
                -1,
                -1,
                0,
                1,
                color,
            );
            lemma_distinct_rays_share_no_square(
                self@.board,
                idx as int,
                -1,
                1,
                0,
                1,
                color,
            );
            lemma_distinct_rays_share_no_square(
                self@.board,
                idx as int,
                1,
                -1,
                0,
                1,
                color,
            );
            lemma_distinct_rays_share_no_square(
                self@.board,
                idx as int,
                1,
                1,
                0,
                1,
                color,
            );
            lemma_distinct_rays_share_no_square(
                self@.board,
                idx as int,
                -1,
                0,
                0,
                1,
                color,
            );
            lemma_distinct_rays_share_no_square(
                self@.board,
                idx as int,
                1,
                0,
                0,
                1,
                color,
            );
        }
        self.add_ray(&mut moves, idx, 0, 1, color);
        proof {
            lemma_distinct_rays_share_no_square(
                self@.board,
                idx as int,
                -1,
                -1,
                0,
                -1,
                color,
            );
            lemma_distinct_rays_share_no_square(
                self@.board,
                idx as int,
                -1,
                1,
                0,
                -1,
                color,
            );
            lemma_distinct_rays_share_no_square(
                self@.board,
                idx as int,
                1,
                -1,
                0,
                -1,
                color,
            );
            lemma_distinct_rays_share_no_square(
                self@.board,
                idx as int,
                1,
                1,
                0,
                -1,
                color,
            );
            lemma_distinct_rays_share_no_square(
                self@.board,
                idx as int,
                -1,
                0,
                0,
                -1,
                color,
            );
            lemma_distinct_rays_share_no_square(
                self@.board,
                idx as int,
                1,
                0,
                0,
                -1,
                color,
            );
            lemma_distinct_rays_share_no_square(
                self@.board,
                idx as int,
                0,
                1,
                0,
                -1,
                color,
            );
        }
        self.add_ray(&mut moves, idx, 0, -1, color);
        moves
    }

    /// Destinations of a knight of `color` on `idx`: its eight fixed jumps.
    #[verifier::rlimit(100)]
    fn knight_moves(&self, idx: usize, color: Color) -> (moves: Vec<usize>)
        requires
            idx < 64,
        ensures
            forall|t: usize|
                #[trigger] moves@.contains(t) <==> knight_dest(self@.board, idx as int, t as int, color),
            moves@.no_duplicates(),
    {
        let mut moves: Vec<usize> = Vec::new();
        let r: i8 = (idx / 8) as i8;
        let f: i8 = (idx % 8) as i8;
        proof {
            assert(r == rank_of(idx as int));
            assert(f == file_of(idx as int));
        }
        self.can_i_land(&mut moves, r - 1, f - 2, color);
        proof {
            assert(moves@.no_duplicates());
        }
        self.can_i_land(&mut moves, r - 2, f - 1, color);
        proof {
            assert(moves@.no_duplicates());
        }
        self.can_i_land(&mut moves, r + 2, f + 1, color);
        proof {
            assert(moves@.no_duplicates());
        }
        self.can_i_land(&mut moves, r + 1, f + 2, color);
        proof {
            assert(moves@.no_duplicates());
        }
        self.can_i_land(&mut moves, r + 1, f - 2, color);
        proof {
            assert(moves@.no_duplicates());
        }
        self.can_i_land(&mut moves, r + 2, f - 1, color);
        proof {
            assert(moves@.no_duplicates());
        }
        self.can_i_land(&mut moves, r - 1, f + 2, color);
        proof {
            assert(moves@.no_duplicates());
        }
        self.can_i_land(&mut moves, r - 2, f + 1, color);
        proof {
            assert(moves@.no_duplicates());
        }
        moves
    }

    /// Single-step destinations of a king of `color` on `idx`: the eight
    /// adjacent squares.  Castling is handled by the caller.
    #[verifier::rlimit(100)]
    fn king_step_moves(&self, idx: usize, color: Color) -> (moves: Vec<usize>)
        requires
            idx < 64,
        ensures
            forall|t: usize|
                #[trigger] moves@.contains(t) <==> king_step_dest(self@.board, idx as int, t as int, color),
            moves@.no_duplicates(),
    {
        let mut moves: Vec<usize> = Vec::new();
        let r: i8 = (idx / 8) as i8;
        let f: i8 = (idx % 8) as i8;
        proof {
            assert(r == rank_of(idx as int));
            assert(f == file_of(idx as int));
        }
        self.can_i_land(&mut moves, r - 1, f - 1, color);
        proof {
            assert(moves@.no_duplicates());
        }
        self.can_i_land(&mut moves, r - 1, f, color);
        proof {
            assert(moves@.no_duplicates());
        }
        self.can_i_land(&mut moves, r - 1, f + 1, color);
        proof {
            assert(moves@.no_duplicates());
        }
        self.can_i_land(&mut moves, r + 1, f, color);
        proof {
            assert(moves@.no_duplicates());
        }
        self.can_i_land(&mut moves, r + 1, f + 1, color);
        proof {
            assert(moves@.no_duplicates());
        }
        self.can_i_land(&mut moves, r, f + 1, color);
        proof {
            assert(moves@.no_duplicates());
        }
        self.can_i_land(&mut moves, r + 1, f - 1, color);
        proof {
            assert(moves@.no_duplicates());
        }
        self.can_i_land(&mut moves, r, f - 1, color);
        proof {
            assert(moves@.no_duplicates());
        }
        moves
    }

    /// Destinations of a pawn of `color` on `idx`: the single and double
    /// advances onto empty squares and the two diagonal captures, ordinary
    /// or en passant.
    #[verifier::rlimit(100)]
    fn pawn_moves(&self, idx: usize, color: Color) -> (moves: Vec<usize>)
        requires
            idx < 64,
        ensures
            forall|t: usize|
                #[trigger] moves@.contains(t) <==> pawn_dest(
                    self@.board,
                    self@.en_passant_target,
                    idx as int,
                    t as int,
                    color,
                ),
            moves@.no_duplicates(),
    {
        let mut moves: Vec<usize> = Vec::new();
        let r: i8 = (idx / 8) as i8;
        let f: i8 = (idx % 8) as i8;
        proof {
            assert(r == rank_of(idx as int));
            assert(f == file_of(idx as int));
        }
        let start_rank: i8 = if color == Color::White {
            1
        } else {
            6
        };
        let forward: i8 = if color == Color::White {
            1
        } else {
            -1
        };
        proof {
            assert(forward as int == pawn_forward(color));
            assert(start_rank as int == pawn_start_rank(color));
        }
        let r1: i8 = r + forward;
        if 0 <= r1 && r1 < 8 {
            let idx1: usize = (r1 as usize) * 8 + (f as usize);
            if self.board[idx1].is_none() {
                proof {
                    assert(!moves@.contains(idx1));
                    lemma_push_contains(moves@, idx1);
                    lemma_push_no_duplicates(moves@, idx1);
                }
                moves.push(idx1);
                if r == start_rank {
                    let r2: i8 = r + 2 * forward;
                    let idx2: usize = (r2 as usize) * 8 + (f as usize);
                    if self.board[idx2].is_none() {
                        proof {
                            assert(!moves@.contains(idx2));
                            lemma_push_contains(moves@, idx2);
                            lemma_push_no_duplicates(moves@, idx2);
                        }
                        moves.push(idx2);
                    }
                }
            }
        }
        let fl: i8 = f - 1;
        if 0 <= r1 && r1 < 8 && 0 <= fl {
            let idx_cap: usize = (r1 as usize) * 8 + (fl as usize);
            let capture = match self.board[idx_cap] {
                Some(target) => target.color != color,
                None => match self.en_passant_target {
                    Some(ep_target) => idx_cap == ep_target,
                    None => false,
                },
            };
            if capture {
                proof {
                    assert(!moves@.contains(idx_cap));
                    lemma_push_contains(moves@, idx_cap);
                    lemma_push_no_duplicates(moves@, idx_cap);
                }
                moves.push(idx_cap);
            }
        }
        let fr: i8 = f + 1;
        if 0 <= r1 && r1 < 8 && fr < 8 {
            let idx_cap: usize = (r1 as usize) * 8 + (fr as usize);
            let capture = match self.board[idx_cap] {
                Some(target) => target.color != color,
                None => match self.en_passant_target {
                    Some(ep_target) => idx_cap == ep_target,
                    None => false,
                },
            };
            if capture {
                proof {
                    assert(!moves@.contains(idx_cap));
                    lemma_push_contains(moves@, idx_cap);
                    lemma_push_no_duplicates(moves@, idx_cap);
                }
                moves.push(idx_cap);
            }
        }
        moves
    }

    /// All pseudo-legal destinations of the piece standing on `idx`:
    /// squares the piece could move to by its movement pattern, ignoring
    /// whether the move would leave its own king in check.  Castling is
    /// considered only when `include_castling` is set; the attack oracle
    /// clears it to avoid generating moves while answering attack queries.
    /// An empty square yields an empty list.
    #[verifier::rlimit(100)]
    pub fn generate_all_moves(&self, idx: usize, include_castling: bool) -> (moves: Vec<usize>)
        requires
            idx < 64,
        ensures
            forall|t: usize|
                #[trigger] moves@.contains(t) <==> pseudo_dest(
                    self@,
                    idx as int,
                    t as int,
                    include_castling,
                ),
            moves@.no_duplicates(),
        decreases (if include_castling {
            2int
        } else {
            0int
        }),
    {
        let mut moves: Vec<usize> = Vec::new();
        let piece = match self.board[idx] {
            Some(p) => p,
            None => {
                return moves;
            },
        };
        match piece.piece_type {
            PieceType::Rook => {
                moves = self.rook_moves(idx, piece.color);
            },
            PieceType::Bishop => {
                moves = self.bishop_moves(idx, piece.color);
            },
            PieceType::Queen => {
                moves = self.queen_moves(idx, piece.color);
            },
            PieceType::Knight => {
                moves = self.knight_moves(idx, piece.color);
            },
            PieceType::King => {
                moves = self.king_step_moves(idx, piece.color);
                if include_castling {
                    if !self.is_square_attacked(idx, piece.color.opposite()) {
                        let (k_mask, q_mask) = if piece.color == Color::White {
                            (WHITE_KINGSIDE, WHITE_QUEENSIDE)
                        } else {
                            (BLACK_KINGSIDE, BLACK_QUEENSIDE)
                        };
                        if self.castling_rights & k_mask != 0 && idx + 2 < 64 {
                            let f_idx = idx + 1;
                            let g_idx = idx + 2;
                            if self.board[f_idx].is_none() && self.board[g_idx].is_none()
                                && !self.is_square_attacked(f_idx, piece.color.opposite())
                                && !self.is_square_attacked(g_idx, piece.color.opposite()) {
                                proof {
                                    assert(!moves@.contains(g_idx));
                                    lemma_push_contains(moves@, g_idx);
                                    lemma_push_no_duplicates(moves@, g_idx);
                                }
                                moves.push(g_idx);
                            }
                        }
                        if self.castling_rights & q_mask != 0 && idx >= 3 {
                            let b_idx = idx - 3;
                            let c_idx = idx - 2;
                            let d_idx = idx - 1;
                            if self.board[b_idx].is_none() && self.board[c_idx].is_none()
                                && self.board[d_idx].is_none() && !self.is_square_attacked(
                                c_idx,
                                piece.color.opposite(),
                            ) && !self.is_square_attacked(d_idx, piece.color.opposite()) {
                                proof {
                                    assert(!moves@.contains(c_idx));
                                    lemma_push_contains(moves@, c_idx);
                                    lemma_push_no_duplicates(moves@, c_idx);
                                }
                                moves.push(c_idx);
                            }
                        }
                    }
                }
            },
            PieceType::Pawn => {
                moves = self.pawn_moves(idx, piece.color);
            },
        }
        moves
    }

    /// True when some piece of `attacker_color` has `square_idx` among its
    /// pseudo-legal destinations, castling excluded.  A read-only scan over
    /// all 64 squares.
    pub fn is_square_attacked(&self, square_idx: usize, attacker_color: Color) -> (b: bool)
        ensures
            b == attacked(self@, square_idx as int, attacker_color),
        decreases 1int,
    {
        let mut i: usize = 0;
        while i < 64
            invariant
                i <= 64,
                forall|j: int|
                    0 <= j < i ==> !(holds_color(self@.board, j, attacker_color)
                        && #[trigger] pseudo_dest_basic(self@, j, square_idx as int)),
            decreases 64 - i,
        {
            if let Some(piece) = self.board[i] {
                if piece.color == attacker_color {
                    let attacker_moves = self.generate_all_moves(i, false);
                    if contains_square(&attacker_moves, square_idx) {
                        return true;
                    }
                }
            }
            i = i + 1;
        }
        false
    }

    /// True when a king of `color` stands on a square attacked by the
    /// opposite color.
    pub fn is_in_check(&self, color: Color) -> (b: bool)
        ensures
            b == in_check(self@, color),
    {
        let mut i: usize = 0;
        while i < 64
            invariant
                i <= 64,
                forall|j: int|
                    0 <= j < i ==> !(self@.board[j] == Some(
                        crate::pieces::Piece { piece_type: PieceType::King, color: color },
                    ) && #[trigger] attacked(self@, j, opposite_color(color))),
            decreases 64 - i,
        {
            if let Some(piece) = self.board[i] {
                if piece.color == color && piece.piece_type == PieceType::King {
                    if self.is_square_attacked(i, color.opposite()) {
                        return true;
                    }
                }
            }
            i = i + 1;
        }
        false
    }

    /// The legal destinations of the piece on `idx`: its pseudo-legal moves,
    /// castling included, each kept only when relocating the piece onto it
    /// leaves the mover's own king out of check on the resulting board.
    /// Each candidate is tested on a full copy of the state.  The result
    /// lists each destination once.
    pub fn generate_valid_moves(&self, idx: usize) -> (valid_moves: Vec<usize>)
        requires
            idx < 64,
        ensures
            forall|t: usize|
                #[trigger] valid_moves@.contains(t) <==> legal_dest(self@, idx as int, t as int),
            valid_moves@.no_duplicates(),
    {
        let pseudo_moves = self.generate_all_moves(idx, true);
        let mover = match self.board[idx] {
            Some(p) => p.color,
            None => self.turn,
        };
        proof {
            if pseudo_moves@.len() > 0 {
                assert(pseudo_moves@.contains(pseudo_moves@[0]));
            }
        }
        let mut valid_moves: Vec<usize> = Vec::new();
        let mut i: usize = 0;
        while i < pseudo_moves.len()
            invariant
                i <= pseudo_moves@.len(),
                idx < 64,
                pseudo_moves@.len() > 0 ==> self@.board[idx as int] is Some && mover
                    == self@.board[idx as int].unwrap().color,
                pseudo_moves@.no_duplicates(),
                forall|t: usize|
                    #[trigger] pseudo_moves@.contains(t) <==> pseudo_dest(
                        self@,
                        idx as int,
                        t as int,
                        true,
                    ),
                valid_moves@.no_duplicates(),
                forall|t: usize|
                    #[trigger] valid_moves@.contains(t) <==> (exists|j: int|
                        0 <= j < i && pseudo_moves@[j] == t) && !in_check(
                        relocated(self@, idx as int, t as int),
                        mover,
                    ),
            decreases pseudo_moves@.len() - i,
        {
            let target = pseudo_moves[i];
            proof {
                assert(pseudo_moves@.contains(target));
            }
            let mut simulation = *self;
            let moved = simulation.board[idx];
            simulation.board[idx] = None;
            simulation.board[target] = moved;
            proof {
                assert(simulation@ == relocated(self@, idx as int, target as int));
            }
            if !simulation.is_in_check(mover) {
                proof {
                    assert(!valid_moves@.contains(target));
                    lemma_push_contains(valid_moves@, target);
                    lemma_push_no_duplicates(valid_moves@, target);
                }
                valid_moves.push(target);
            }
            proof {
                assert forall|t: usize|
                    #[trigger] valid_moves@.contains(t) <==> (exists|j: int|
                        0 <= j < i + 1 && pseudo_moves@[j] == t) && !in_check(
                        relocated(self@, idx as int, t as int),
                        mover,
                    ) by {
                    if (exists|j: int| 0 <= j < i + 1 && pseudo_moves@[j] == t) && !(exists|j: int|
                        0 <= j < i && pseudo_moves@[j] == t) {
                        assert(pseudo_moves@[i as int] == t);
                    }
                    if valid_moves@.contains(t) && !(exists|j: int|
                        0 <= j < i && pseudo_moves@[j] == t) {
                        assert(pseudo_moves@[i as int] == t);
                    }
                }
            }
            i = i + 1;
        }
        proof {
            assert forall|t: usize|
                #[trigger] valid_moves@.contains(t) <==> legal_dest(self@, idx as int, t as int) by {
                assert((exists|j: int| 0 <= j < pseudo_moves@.len() && pseudo_moves@[j] == t)
                    == pseudo_moves@.contains(t));
                if legal_dest(self@, idx as int, t as int) {
                    assert(pseudo_moves@.contains(t));
                }
            }
        }
        valid_moves
    }

    /// Append the square at `(r, f)` when it lies on the board and does not
    /// hold a friendly piece: the landing rule for knights and kings.
    /// Either exactly that square is appended, or the list is untouched.
    fn can_i_land(&self, moves: &mut Vec<usize>, r: i8, f: i8, color: Color)
        ensures
            forall|t: usize|
                #[trigger] final(moves)@.contains(t) <==> old(moves)@.contains(t) || (on_board_rf(
                    r as int,
                    f as int,
                ) && t as int == square_at(r as int, f as int) && can_land(
                    self@.board,
                    t as int,
                    color,
                )),
            on_board_rf(r as int, f as int) && can_land(
                self@.board,
                square_at(r as int, f as int),
                color,
            ) ==> final(moves)@ == old(moves)@.push(square_at(r as int, f as int) as usize),
            !(on_board_rf(r as int, f as int) && can_land(
                self@.board,
                square_at(r as int, f as int),
                color,
            )) ==> final(moves)@ == old(moves)@,
    {
        if 0 <= r && r < 8 && 0 <= f && f < 8 {
            let idx: usize = (r as usize) * 8 + (f as usize);
            let push_it = match self.board[idx] {
                None => true,
                Some(piece) => piece.color != color,
            };
            if push_it {
                proof {
                    lemma_push_contains(moves@, idx);
                }
                moves.push(idx);
            }
        }
    }
}

} // verus!
