use crate::rng::{seeded_u64_draws, std_rng_u64_draws};
use vstd::prelude::*;

verus! {

/// Kind of piece standing on a square; `Null` marks an empty square.
#[derive(Clone, Copy, Debug, PartialEq, Eq, Structural)]
pub enum PieceType {
    Pawn,
    Knight,
    Bishop,
    Rook,
    Queen,
    King,
    Null,
}

#[derive(Clone, Copy, Debug, PartialEq, Eq, Structural)]
pub enum Color {
    White,
    Black,
}

impl Color {
    pub open spec fn spec_flip(self) -> Color {
        match self {
            Color::White => Color::Black,
            Color::Black => Color::White,
        }
    }

    pub fn flip(self) -> (r: Color)
        ensures
            r == self.spec_flip(),
    {
        match self {
            Color::White => Color::Black,
            Color::Black => Color::White,
        }
    }
}

/// What the hasher reads of a move that has just been applied.
#[derive(Clone, Copy, Debug, PartialEq, Eq, Structural)]
pub struct Move {
    pub start_square: u8,
    pub end_square: u8,
    pub piece_moved: PieceType,
    pub piece_captured: PieceType,
    pub promotion: PieceType,
    pub is_en_passant: bool,
    pub is_castling: bool,
}

/// Seed of the key table, fixed so that hashes are reproducible.
pub const ZOBRIST_SEED: u64 = 11122001;

/// Number of keys drawn: the side-to-move key, then 12 * 64 square keys.
pub const ZOBRIST_DRAWS: usize = 769;

pub struct ZobristHashHandler {
    pub table: Vec<Vec<u64>>,
    pub black_to_move: u64,
    pub hash: u64,
}

impl ZobristHashHandler {
    /// 64 squares, each with 12 keys (6 piece types times 2 colors).
    pub open spec fn wf(&self) -> bool {
        &&& self.table@.len() == 64
        &&& forall|s: int| 0 <= s < 64 ==> (#[trigger] self.table@[s])@.len() == 12
    }

    pub open spec fn key(&self, square: int, ind: int) -> u64 {
        self.table@[square]@[ind]
    }
}

/// Draw `k` (counting from 0) of the seeded generator is the side-to-move key for
/// `k == 0`, else the key of square `(k - 1) % 64` and index `(k - 1) / 64`.
pub open spec fn zobrist_from_draws(h: ZobristHashHandler, draws: Seq<u64>) -> bool {
    &&& h.wf()
    &&& h.hash == 0
    &&& h.black_to_move == draws[0]
    &&& forall|s: int, i: int|
        0 <= s < 64 && 0 <= i < 12 ==> #[trigger] h.key(s, i) == draws[1 + i * 64 + s]
}

pub fn init_zobrist() -> (r: ZobristHashHandler)
    ensures
        zobrist_from_draws(r, std_rng_u64_draws(ZOBRIST_SEED, ZOBRIST_DRAWS as nat)),
{
    let draws = seeded_u64_draws(ZOBRIST_SEED, ZOBRIST_DRAWS);
    let black_to_move: u64 = draws[0];
    let mut table: Vec<Vec<u64>> = Vec::new();
    let mut s: usize = 0;
    while s < 64
        invariant
            s <= 64,
            draws@.len() == ZOBRIST_DRAWS,
            table@.len() == s,
            forall|t: int| 0 <= t < s ==> (#[trigger] table@[t])@.len() == 12,
            forall|t: int, i: int|
                0 <= t < s && 0 <= i < 12 ==> #[trigger] table@[t]@[i] == draws@[1 + i * 64 + t],
        decreases 64 - s,
    {
        let mut row: Vec<u64> = Vec::new();
        let mut i: usize = 0;
        while i < 12
            invariant
                i <= 12,
                s < 64,
                draws@.len() == ZOBRIST_DRAWS,
                row@.len() == i,
                forall|j: int| 0 <= j < i ==> #[trigger] row@[j] == draws@[1 + j * 64 + s],
            decreases 12 - i,
        {
            row.push(draws[1 + i * 64 + s]);
            i = i + 1;
        }
        table.push(row);
        s = s + 1;
    }
    ZobristHashHandler { table, black_to_move, hash: 0 }
}

pub open spec fn spec_piece_val(p: PieceType) -> nat {
    match p {
        PieceType::Pawn => 0,
        PieceType::Knight => 1,
        PieceType::Bishop => 2,
        PieceType::Rook => 3,
        PieceType::Queen => 4,
        PieceType::King => 5,
        PieceType::Null => 0,
    }
}

pub open spec fn spec_color_val(c: Color) -> nat {
    match c {
        Color::White => 2,
        Color::Black => 0,
    }
}

/// Column of the key table for a piece of a color.
pub open spec fn spec_get_index(c: Color, p: PieceType) -> nat {
    spec_piece_val(p) + 3 * spec_color_val(c)
}

fn piece_val(p: PieceType) -> (r: usize)
    requires
        p != PieceType::Null,
    ensures
        r == spec_piece_val(p),
{
    match p {
        PieceType::Pawn => 0,
        PieceType::Knight => 1,
        PieceType::Bishop => 2,
        PieceType::Rook => 3,
        PieceType::Queen => 4,
        PieceType::King => 5,
        PieceType::Null => 0,
    }
}

fn color_val(color: Color) -> (r: usize)
    ensures
        r == spec_color_val(color),
{
    match color {
        Color::White => 2,
        Color::Black => 0,
    }
}

fn get_index(color: Color, piece: PieceType) -> (r: usize)
    requires
        piece != PieceType::Null,
    ensures
        r == spec_get_index(color, piece),
        r < 12,
{
    piece_val(piece) + 3 * color_val(color)
}

/// Key contributed by what stands on square `s`: none for an empty square.
pub open spec fn square_key(z: ZobristHashHandler, occupant: (PieceType, Color), s: int) -> u64 {
    if occupant.0 == PieceType::Null {
        0
    } else {
        z.key(s, spec_get_index(occupant.1, occupant.0) as int)
    }
}

/// XOR of the keys of the first `n` squares.
pub open spec fn pieces_hash(z: ZobristHashHandler, squares: Seq<(PieceType, Color)>, n: nat) -> u64
    decreases n,
{
    if n == 0 {
        0
    } else {
        pieces_hash(z, squares, (n - 1) as nat) ^ square_key(z, squares[n - 1], n - 1)
    }
}

pub open spec fn side_key(z: ZobristHashHandler, color_to_move: Color) -> u64 {
    if color_to_move == Color::Black {
        z.black_to_move
    } else {
        0
    }
}

/// The fingerprint of a position, computed from scratch.
pub open spec fn full_hash(
    z: ZobristHashHandler,
    squares: Seq<(PieceType, Color)>,
    color_to_move: Color,
) -> u64 {
    side_key(z, color_to_move) ^ pieces_hash(z, squares, 64)
}

/// A move that the incremental update can handle: on the board, with a piece moved.
pub open spec fn move_is_hashable(mov: Move) -> bool {
    &&& mov.start_square < 64
    &&& mov.end_square < 64
    &&& mov.piece_moved != PieceType::Null
}

/// What the incremental update XORs into the hash for a move played by `mover`.
pub open spec fn move_delta(z: ZobristHashHandler, mov: Move, mover: Color) -> u64 {
    let s = mov.start_square as int;
    let e = mov.end_square as int;
    let captured = if mov.piece_captured != PieceType::Null {
        z.key(e, spec_get_index(mover.spec_flip(), mov.piece_captured) as int)
    } else {
        0
    };
    let promoted = if mov.promotion != PieceType::Null {
        z.key(e, spec_get_index(mover, mov.promotion) as int)
    } else {
        0
    };
    let landed = if mov.promotion == PieceType::Null {
        z.key(e, spec_get_index(mover, mov.piece_moved) as int)
    } else {
        0
    };
    z.black_to_move ^ captured ^ promoted ^ z.key(s, spec_get_index(mover, mov.piece_moved) as int)
        ^ landed
}

pub struct Board {
    pub squares: Vec<(PieceType, Color)>,
    pub color_to_move: Color,
    pub zobrist: ZobristHashHandler,
}

impl Board {
    pub open spec fn wf(&self) -> bool {
        self.squares@.len() == 64 && self.zobrist.wf()
    }

    pub open spec fn spec_full_hash(&self) -> u64 {
        full_hash(self.zobrist, self.squares@, self.color_to_move)
    }

    /// A board over the seeded key table, with its hash computed.
    pub fn new(squares: Vec<(PieceType, Color)>, color_to_move: Color) -> (r: Board)
        requires
            squares@.len() == 64,
        ensures
            r.wf(),
            r.squares@ == squares@,
            r.color_to_move == color_to_move,
            zobrist_from_draws(
                ZobristHashHandler { hash: 0, ..r.zobrist },
                std_rng_u64_draws(ZOBRIST_SEED, ZOBRIST_DRAWS as nat),
            ),
            r.zobrist.hash == r.spec_full_hash(),
    {
        let mut b = Board { squares, color_to_move, zobrist: init_zobrist() };
        b.init_hash();
        b
    }

    pub fn get_piece_on_square(&self, square: u8) -> (r: (PieceType, Color))
        requires
            self.wf(),
            square < 64,
        ensures
            r == self.squares@[square as int],
    {
        self.squares[square as usize]
    }

    /// Recomputes the hash from the side to move and every occupied square.
    pub fn init_hash(&mut self)
        requires
            old(self).wf(),
        ensures
            final(self).squares == old(self).squares,
            final(self).color_to_move == old(self).color_to_move,
            final(self).zobrist.table == old(self).zobrist.table,
            final(self).zobrist.black_to_move == old(self).zobrist.black_to_move,
            final(self).zobrist.hash == final(self).spec_full_hash(),
    {
        let mut hash: u64 = 0;
        if self.color_to_move == Color::Black {
            hash = hash ^ self.zobrist.black_to_move;
        }
        let ghost side = side_key(self.zobrist, self.color_to_move);
        assert(hash == side ^ 0u64) by {
            let b = self.zobrist.black_to_move;
            assert(0u64 ^ b == b) by (bit_vector);
            assert(b ^ 0u64 == b) by (bit_vector);
            assert(0u64 ^ 0u64 == 0u64) by (bit_vector);
        }
        let ghost z0 = self.zobrist;
        let mut square: u8 = 0;
        while square < 64
            invariant
                self.wf(),
                square <= 64,
                side == side_key(self.zobrist, self.color_to_move),
                hash == side ^ pieces_hash(self.zobrist, self.squares@, square as nat),
            decreases 64 - square,
        {
            let temp = self.get_piece_on_square(square);
            let piece = temp.0;
            let ghost prev = pieces_hash(self.zobrist, self.squares@, square as nat);
            let ghost k = square_key(self.zobrist, self.squares@[square as int], square as int);
            if piece != PieceType::Null {
                let color = temp.1;
                let ind = get_index(color, piece);
                hash = hash ^ self.zobrist.table[square as usize][ind];
            }
            proof {
                assert(pieces_hash(self.zobrist, self.squares@, (square + 1) as nat) == prev ^ k);
                if piece == PieceType::Null {
                    assert(prev ^ 0u64 == prev) by (bit_vector);
                }
                lemma_xor_assoc(side, prev, k);
            }
            square = square + 1;
        }
        self.zobrist.hash = hash;
        proof {
            lemma_pieces_hash_same_table(z0, self.zobrist, self.squares@, 64);
        }
    }

    /// Brings the hash up to date after `mov` has been applied to the board.
    /// En passant and castling touch more than two squares: the hash is then
    /// recomputed; for any other move the keys of the two squares and of the
    /// side to move are XORed in.
    pub fn update_hash(&mut self, mov: Move)
        requires
            old(self).wf(),
            mov.is_en_passant || mov.is_castling || move_is_hashable(mov),
        ensures
            final(self).squares == old(self).squares,
            final(self).color_to_move == old(self).color_to_move,
            final(self).zobrist.table == old(self).zobrist.table,
            final(self).zobrist.black_to_move == old(self).zobrist.black_to_move,
            mov.is_en_passant || mov.is_castling ==> final(self).zobrist.hash
                == final(self).spec_full_hash(),
            !(mov.is_en_passant || mov.is_castling) ==> final(self).zobrist.hash
                == old(self).zobrist.hash ^ move_delta(
                old(self).zobrist,
                mov,
                old(self).color_to_move.spec_flip(),
            ),
    {
        if mov.is_en_passant {
            self.init_hash();
            return ;
        }
        if mov.is_castling {
            self.init_hash();
            return ;
        }
        let color_that_played_move = self.color_to_move.flip();
        let e = mov.end_square as usize;
        let s = mov.start_square as usize;
        let h0 = self.zobrist.hash;
        let b = self.zobrist.black_to_move;
        let mut captured: u64 = 0;
        if mov.piece_captured != PieceType::Null {
            let ind_captured = get_index(color_that_played_move.flip(), mov.piece_captured);
            captured = self.zobrist.table[e][ind_captured];
        }
        let ind_moved = get_index(color_that_played_move, mov.piece_moved);
        let mut promoted: u64 = 0;
        if mov.promotion != PieceType::Null {
            let ind_prom = get_index(color_that_played_move, mov.promotion);
            promoted = self.zobrist.table[e][ind_prom];
        }
        let from = self.zobrist.table[s][ind_moved];
        let mut landed: u64 = 0;
        if mov.promotion == PieceType::Null {
            landed = self.zobrist.table[e][ind_moved];
        }
        self.zobrist.hash = h0 ^ b ^ captured ^ promoted ^ from ^ landed;
        assert(h0 ^ b ^ captured ^ promoted ^ from ^ landed == h0 ^ (b ^ captured ^ promoted ^ from
            ^ landed)) by (bit_vector);
    }
}

proof fn lemma_xor_assoc(a: u64, b: u64, c: u64)
    ensures
        (a ^ b) ^ c == a ^ (b ^ c),
{
    assert((a ^ b) ^ c == a ^ (b ^ c)) by (bit_vector);
}

/// Only the key table enters the hash of the squares.
proof fn lemma_pieces_hash_same_table(
    z1: ZobristHashHandler,
    z2: ZobristHashHandler,
    squares: Seq<(PieceType, Color)>,
    n: nat,
)
    requires
        z1.table == z2.table,
    ensures
        pieces_hash(z1, squares, n) == pieces_hash(z2, squares, n),
    decreases n,
{
    if n > 0 {
        lemma_pieces_hash_same_table(z1, z2, squares, (n - 1) as nat);
    }
}

/// Squares that agree on a prefix hash alike over it.
proof fn lemma_pieces_hash_prefix(
    z: ZobristHashHandler,
    a: Seq<(PieceType, Color)>,
    b: Seq<(PieceType, Color)>,
    n: nat,
)
    requires
        n <= a.len(),
        n <= b.len(),
        forall|s: int| 0 <= s < n ==> a[s] == b[s],
    ensures
        pieces_hash(z, a, n) == pieces_hash(z, b, n),
    decreases n,
{
    if n > 0 {
        lemma_pieces_hash_prefix(z, a, b, (n - 1) as nat);
    }
}

/// Changing one square changes the hash by the XOR of its old and new keys.
proof fn lemma_pieces_hash_update(
    z: ZobristHashHandler,
    a: Seq<(PieceType, Color)>,
    i: int,
    v: (PieceType, Color),
    n: nat,
)
    requires
        0 <= i < n <= a.len(),
    ensures
        pieces_hash(z, a.update(i, v), n) == pieces_hash(z, a, n) ^ (square_key(z, a[i], i)
            ^ square_key(z, v, i)),
    decreases n,
{
    let b = a.update(i, v);
    let kb = square_key(z, a[i], i);
    let kv = square_key(z, v, i);
    if n - 1 == i {
        lemma_pieces_hash_prefix(z, a, b, (n - 1) as nat);
        let p = pieces_hash(z, a, (n - 1) as nat);
        assert(p ^ kv == (p ^ kb) ^ (kb ^ kv)) by (bit_vector);
    } else {
        lemma_pieces_hash_update(z, a, i, v, (n - 1) as nat);
        let pa = pieces_hash(z, a, (n - 1) as nat);
        let k = square_key(z, a[n - 1], n - 1);
        let x = kb ^ kv;
        assert(b[n - 1] == a[n - 1]);
        assert((pa ^ x) ^ k == (pa ^ k) ^ x) by (bit_vector);
    }
}

/// The incremental update agrees with a full recompute: if the hash was exact
/// before a move that is neither en passant nor castling, XORing in the move's
/// delta gives the exact hash of the position after it. The position after the
/// move differs from the one before only on the start square, now empty, and on
/// the end square, which holds the mover's piece (or the promoted piece); the
/// end square held the captured piece, of the other color, or nothing.
pub proof fn lemma_incremental_hash_matches_recompute(
    z: ZobristHashHandler,
    before: Seq<(PieceType, Color)>,
    after: Seq<(PieceType, Color)>,
    mov: Move,
    mover: Color,
)
    requires
        z.wf(),
        before.len() == 64,
        after.len() == 64,
        move_is_hashable(mov),
        mov.start_square != mov.end_square,
        before[mov.start_square as int] == (mov.piece_moved, mover),
        before[mov.end_square as int].0 == mov.piece_captured,
        mov.piece_captured != PieceType::Null ==> before[mov.end_square as int].1
            == mover.spec_flip(),
        after[mov.start_square as int].0 == PieceType::Null,
        after[mov.end_square as int] == (if mov.promotion == PieceType::Null {
            (mov.piece_moved, mover)
        } else {
            (mov.promotion, mover)
        }),
        forall|s: int|
            0 <= s < 64 && s != mov.start_square && s != mov.end_square ==> after[s] == before[s],
    ensures
        full_hash(z, before, mover) ^ move_delta(z, mov, mover) == full_hash(
            z,
            after,
            mover.spec_flip(),
        ),
{
    let s = mov.start_square as int;
    let e = mov.end_square as int;
    let mid = before.update(s, after[s]);
    assert(after =~= mid.update(e, after[e]));
    lemma_pieces_hash_update(z, before, s, after[s], 64);
    lemma_pieces_hash_update(z, mid, e, after[e], 64);
    let p = pieces_hash(z, before, 64);
    let ks = square_key(z, before[s], s);
    let ke_old = square_key(z, before[e], e);
    let ke_new = square_key(z, after[e], e);
    assert(square_key(z, after[s], s) == 0);
    assert(mid[e] == before[e]);
    let bt = z.black_to_move;
    let sb = side_key(z, mover);
    let sa = side_key(z, mover.spec_flip());
    assert(sa == sb ^ bt) by {
        assert(0u64 ^ bt == bt) by (bit_vector);
        assert(bt ^ bt == 0u64) by (bit_vector);
    }
    let captured = if mov.piece_captured != PieceType::Null {
        z.key(e, spec_get_index(mover.spec_flip(), mov.piece_captured) as int)
    } else {
        0
    };
    let promoted = if mov.promotion != PieceType::Null {
        z.key(e, spec_get_index(mover, mov.promotion) as int)
    } else {
        0
    };
    let landed = if mov.promotion == PieceType::Null {
        z.key(e, spec_get_index(mover, mov.piece_moved) as int)
    } else {
        0
    };
    assert(ke_old == captured);
    assert(ke_new == promoted ^ landed) by {
        let t = ke_new;
        assert(t ^ 0u64 == t) by (bit_vector);
        assert(0u64 ^ t == t) by (bit_vector);
    }
    assert((sb ^ p) ^ (bt ^ captured ^ promoted ^ ks ^ landed) == (sb ^ bt) ^ ((p ^ (ks ^ 0u64))
        ^ (captured ^ (promoted ^ landed)))) by (bit_vector);
}

/// A move's delta cancels itself: XORing it in a second time, when the move is
/// taken back, restores the hash held before the move.
pub proof fn lemma_hash_unmake_restores(z: ZobristHashHandler, mov: Move, mover: Color, h: u64)
    ensures
        (h ^ move_delta(z, mov, mover)) ^ move_delta(z, mov, mover) == h,
{
    let d = move_delta(z, mov, mover);
    assert((h ^ d) ^ d == h) by (bit_vector);
}

} // verus!
