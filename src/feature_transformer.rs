use crate::leb128::{decode_segment, read_segment, Leb128Error};
use vstd::arithmetic::div_mod::lemma_fundamental_div_mod_converse;
use vstd::prelude::*;

verus! {

pub const TRANSFORMED_FEATURE_DIMENSIONS: usize = 2560;

pub const HALF_DIMENSIONS: usize = 2560;

pub const PSQT_BUCKETS: usize = 8;

/// Rows of the weight matrices: 64 squares, 11 piece planes, 32 king buckets.
pub const INPUT_DIMENSIONS: usize = 22528;

/// Reads a segment of 16-bit values (biases and weights) at `pos`; on success
/// also returns the position after the segment.
pub fn read_leb_128_bias_type(data: &[u8], pos: usize, count: usize) -> (r: Result<
    (Vec<i16>, usize),
    Leb128Error,
>)
    ensures
        match r {
            Ok((v, next)) => decode_segment(data@, pos as int, count as nat, 16) == Ok::<
                (Seq<int>, int),
                Leb128Error,
            >((v@.map_values(|x: i16| x as int), next as int)) && v@.len() == count,
            Err(e) => decode_segment(data@, pos as int, count as nat, 16) == Err::<
                (Seq<int>, int),
                Leb128Error,
            >(e),
        },
{
    match read_segment(data, pos, count, 16) {
        Err(e) => Err(e),
        Ok((wide, next)) => {
            let mut out: Vec<i16> = Vec::new();
            let mut i: usize = 0;
            while i < wide.len()
                invariant
                    i <= wide@.len(),
                    out@.len() == i,
                    forall|j: int| 0 <= j < i ==> (#[trigger] out@[j]) as int == wide@[j] as int,
                    forall|j: int| 0 <= j < wide@.len() ==> -0x8000 <= #[trigger] wide@[j] < 0x8000,
                decreases wide@.len() - i,
            {
                out.push(wide[i] as i16);
                i = i + 1;
            }
            assert(out@.map_values(|x: i16| x as int) =~= wide@.map_values(|x: i64| x as int));
            Ok((out, next))
        },
    }
}

/// Reads a segment of 32-bit values (piece-square weights) at `pos`; on success
/// also returns the position after the segment.
pub fn read_leb_128_psqt_type(data: &[u8], pos: usize, count: usize) -> (r: Result<
    (Vec<i32>, usize),
    Leb128Error,
>)
    ensures
        match r {
            Ok((v, next)) => decode_segment(data@, pos as int, count as nat, 32) == Ok::<
                (Seq<int>, int),
                Leb128Error,
            >((v@.map_values(|x: i32| x as int), next as int)) && v@.len() == count,
            Err(e) => decode_segment(data@, pos as int, count as nat, 32) == Err::<
                (Seq<int>, int),
                Leb128Error,
            >(e),
        },
{
    match read_segment(data, pos, count, 32) {
        Err(e) => Err(e),
        Ok((wide, next)) => {
            let mut out: Vec<i32> = Vec::new();
            let mut i: usize = 0;
            while i < wide.len()
                invariant
                    i <= wide@.len(),
                    out@.len() == i,
                    forall|j: int| 0 <= j < i ==> (#[trigger] out@[j]) as int == wide@[j] as int,
                    forall|j: int|
                        0 <= j < wide@.len() ==> -0x8000_0000 <= #[trigger] wide@[j] < 0x8000_0000,
                decreases wide@.len() - i,
            {
                out.push(wide[i] as i32);
                i = i + 1;
            }
            assert(out@.map_values(|x: i32| x as int) =~= wide@.map_values(|x: i64| x as int));
            Ok((out, next))
        },
    }
}

/// Slot of a feature in the table of precomputed indices.
pub open spec fn spec_linearize(piece_index: int, is_opp: int, piece_square: int, king_square: int) -> int {
    2 * piece_index + is_opp + 11 * (piece_square + king_square * 64)
}

fn linearize(piece_index: usize, is_opp: usize, piece_square: usize, king_square: usize) -> (r: usize)
    requires
        piece_index < 6,
        is_opp < 2,
        piece_square < 64,
        king_square < 64,
    ensures
        r == spec_linearize(piece_index as int, is_opp as int, piece_square as int, king_square as int),
{
    2 * piece_index + is_opp + 11 * (piece_square + king_square * 64)
}

/// Horizontal mirror of a square: file `f` becomes file `7 - f`.
pub open spec fn mirror_square(sq: int) -> int {
    (sq / 8) * 8 + (7 - sq % 8)
}

/// Row of the weight matrices for a piece of kind `piece_index` (0 to 5), of the
/// opponent's side when `is_opp` is 1, on `piece_square`, with the perspective's
/// king on `king_square`. A king on the files a to d is mirrored to the files e
/// to h, and the piece with it, so that 32 king buckets remain.
pub open spec fn spec_make_index(piece_index: int, is_opp: int, piece_square: int, king_square: int) -> int {
    let mirrored = king_square % 8 < 4;
    let king_file = if mirrored { 7 - king_square % 8 } else { king_square % 8 };
    let piece_file = if mirrored { 7 - piece_square % 8 } else { piece_square % 8 };
    let p_idx = piece_index * 2 + is_opp;
    let new_piece_id = (piece_square / 8) * 8 + piece_file;
    let new_king_id = 31 - ((king_square / 8) * 4 + (king_file - 4));
    new_piece_id + p_idx * 64 + new_king_id * 11 * 64
}

pub open spec fn valid_feature(piece_index: int, is_opp: int, piece_square: int, king_square: int) -> bool {
    &&& 0 <= piece_index < 6
    &&& 0 <= is_opp < 2
    &&& 0 <= piece_square < 64
    &&& 0 <= king_square < 64
}

/// The feature row does not change when the king and the piece are both
/// mirrored horizontally.
pub proof fn lemma_make_index_mirror_symmetric(
    piece_index: int,
    is_opp: int,
    piece_square: int,
    king_square: int,
)
    requires
        valid_feature(piece_index, is_opp, piece_square, king_square),
    ensures
        valid_feature(piece_index, is_opp, mirror_square(piece_square), mirror_square(king_square)),
        spec_make_index(piece_index, is_opp, piece_square, king_square) == spec_make_index(
            piece_index,
            is_opp,
            mirror_square(piece_square),
            mirror_square(king_square),
        ),
{
    let mp = mirror_square(piece_square);
    let mk = mirror_square(king_square);
    assert(mp / 8 == piece_square / 8 && mp % 8 == 7 - piece_square % 8);
    assert(mk / 8 == king_square / 8 && mk % 8 == 7 - king_square % 8);
}

fn mirror_file(f: usize) -> (r: usize)
    requires
        f < 8,
    ensures
        r == 7 - f,
{
    assert(f ^ 7 == 7 - f) by (bit_vector)
        requires
            f < 8,
    ;
    f ^ 7
}

pub struct FeatureTransformer {
    pub bias: Vec<i16>,
    pub weights: Vec<Vec<i16>>,
    pub psqt_weights: Vec<Vec<i32>>,
    pub my_acc_stack: Vec<Vec<i16>>,
    pub opp_acc_stack: Vec<Vec<i16>>,
    pub my_psq_acc_stack: Vec<Vec<i32>>,
    pub opp_psq_acc_stack: Vec<Vec<i32>>,
    pub indices: Vec<usize>,
}

/// Size of the table of precomputed indices.
pub const CACHE_MAKE_INDEX_SIZE: usize = 22528;

impl FeatureTransformer {
    /// Parameters of the shapes that the network has.
    pub open spec fn loaded(&self) -> bool {
        &&& self.bias@.len() == HALF_DIMENSIONS
        &&& self.weights@.len() == INPUT_DIMENSIONS
        &&& forall|i: int| 0 <= i < INPUT_DIMENSIONS ==> (#[trigger] self.weights@[i])@.len()
            == HALF_DIMENSIONS
        &&& self.psqt_weights@.len() == INPUT_DIMENSIONS
        &&& forall|i: int| 0 <= i < INPUT_DIMENSIONS ==> (#[trigger] self.psqt_weights@[i])@.len()
            == PSQT_BUCKETS
    }

    /// The four stacks hold one snapshot per ply, each of its full length.
    pub open spec fn stacks_wf(&self) -> bool {
        &&& self.opp_acc_stack@.len() == self.my_acc_stack@.len()
        &&& self.my_psq_acc_stack@.len() == self.my_acc_stack@.len()
        &&& self.opp_psq_acc_stack@.len() == self.my_acc_stack@.len()
        &&& forall|i: int| 0 <= i < self.my_acc_stack@.len() ==> {
            &&& (#[trigger] self.my_acc_stack@[i])@.len() == HALF_DIMENSIONS
            &&& self.opp_acc_stack@[i]@.len() == HALF_DIMENSIONS
            &&& self.my_psq_acc_stack@[i]@.len() == PSQT_BUCKETS
            &&& self.opp_psq_acc_stack@[i]@.len() == PSQT_BUCKETS
        }
    }

    /// A transformer with no parameters, empty stacks and a zeroed index table.
    pub fn new() -> (r: FeatureTransformer)
        ensures
            r.bias@.len() == 0,
            r.weights@.len() == 0,
            r.psqt_weights@.len() == 0,
            r.my_acc_stack@.len() == 0,
            r.opp_acc_stack@.len() == 0,
            r.my_psq_acc_stack@.len() == 0,
            r.opp_psq_acc_stack@.len() == 0,
            r.indices@ == Seq::new(CACHE_MAKE_INDEX_SIZE as nat, |i: int| 0usize),
    {
        let indices: Vec<usize> = vec![0usize; CACHE_MAKE_INDEX_SIZE];
        assert(indices@ =~= Seq::new(CACHE_MAKE_INDEX_SIZE as nat, |i: int| 0usize));
        FeatureTransformer {
            bias: Vec::new(),
            weights: Vec::new(),
            psqt_weights: Vec::new(),
            my_acc_stack: Vec::new(),
            opp_acc_stack: Vec::new(),
            my_psq_acc_stack: Vec::new(),
            opp_psq_acc_stack: Vec::new(),
            indices,
        }
    }

    fn make_index_internal(
        &self,
        piece_index: usize,
        is_opp: usize,
        piece_square: usize,
        king_square: usize,
    ) -> (r: usize)
        requires
            valid_feature(piece_index as int, is_opp as int, piece_square as int, king_square as int),
        ensures
            r == spec_make_index(piece_index as int, is_opp as int, piece_square as int, king_square as int),
    {
        let mut king_file = king_square % 8;
        let king_rank = king_square / 8;
        let mut piece_file = piece_square % 8;
        let piece_rank = piece_square / 8;
        if king_file < 4 {
            king_file = mirror_file(king_file);
            piece_file = mirror_file(piece_file);
        }
        let p_idx = piece_index * 2 + is_opp;
        let new_piece_id = piece_rank * 8 + piece_file;
        let new_king_id = 31 - (king_rank * 4 + (king_file - 4));
        new_piece_id + p_idx * 64 + new_king_id * 11 * 64
    }

    /// Row of the weight matrices for a feature; see `spec_make_index`.
    pub fn make_index(
        &mut self,
        piece_index: usize,
        is_opp: usize,
        piece_square: usize,
        king_square: usize,
    ) -> (r: usize)
        requires
            valid_feature(piece_index as int, is_opp as int, piece_square as int, king_square as int),
        ensures
            r == spec_make_index(piece_index as int, is_opp as int, piece_square as int, king_square as int),
            *final(self) == *old(self),
    {
        self.make_index_internal(piece_index, is_opp, piece_square, king_square)
    }
}

/// The three parameter segments of a weight file, one after another: the biases
/// and the weights (16 bits each), then the piece-square weights (32 bits each).
pub open spec fn decode_network(data: Seq<u8>) -> Result<(Seq<int>, Seq<int>, Seq<int>), Leb128Error> {
    match decode_segment(data, 0, HALF_DIMENSIONS as nat, 16) {
        Err(e) => Err(e),
        Ok((b, after_bias)) => match decode_segment(data, after_bias, (HALF_DIMENSIONS * INPUT_DIMENSIONS) as nat, 16) {
            Err(e) => Err(e),
            Ok((w, after_weights)) => match decode_segment(data, after_weights, (PSQT_BUCKETS * INPUT_DIMENSIONS) as nat, 32) {
                Err(e) => Err(e),
                Ok((q, _)) => Ok((b, w, q)),
            },
        },
    }
}

pub open spec fn add_row(acc: Seq<i16>, row: Seq<i16>) -> Seq<i16> {
    Seq::new(acc.len(), |i: int| vstd::wrapping::i16_specs::wrapping_add(acc[i], row[i]))
}

pub open spec fn sub_row(acc: Seq<i16>, row: Seq<i16>) -> Seq<i16> {
    Seq::new(acc.len(), |i: int| vstd::wrapping::i16_specs::wrapping_sub(acc[i], row[i]))
}

pub open spec fn add_psq_row(acc: Seq<i32>, row: Seq<i32>) -> Seq<i32> {
    Seq::new(acc.len(), |i: int| vstd::wrapping::i32_specs::wrapping_add(acc[i], row[i]))
}

pub open spec fn sub_psq_row(acc: Seq<i32>, row: Seq<i32>) -> Seq<i32> {
    Seq::new(acc.len(), |i: int| vstd::wrapping::i32_specs::wrapping_sub(acc[i], row[i]))
}

/// `acc` with the rows `idx` of `w` added, in order.
pub open spec fn add_rows(acc: Seq<i16>, w: Seq<Vec<i16>>, idx: Seq<usize>) -> Seq<i16>
    decreases idx.len(),
{
    if idx.len() == 0 {
        acc
    } else {
        add_row(add_rows(acc, w, idx.drop_last()), w[idx.last() as int]@)
    }
}

/// `acc` with the rows `idx` of `w` subtracted, in order.
pub open spec fn sub_rows(acc: Seq<i16>, w: Seq<Vec<i16>>, idx: Seq<usize>) -> Seq<i16>
    decreases idx.len(),
{
    if idx.len() == 0 {
        acc
    } else {
        sub_row(sub_rows(acc, w, idx.drop_last()), w[idx.last() as int]@)
    }
}

pub open spec fn add_psq_rows(acc: Seq<i32>, w: Seq<Vec<i32>>, idx: Seq<usize>) -> Seq<i32>
    decreases idx.len(),
{
    if idx.len() == 0 {
        acc
    } else {
        add_psq_row(add_psq_rows(acc, w, idx.drop_last()), w[idx.last() as int]@)
    }
}

pub open spec fn sub_psq_rows(acc: Seq<i32>, w: Seq<Vec<i32>>, idx: Seq<usize>) -> Seq<i32>
    decreases idx.len(),
{
    if idx.len() == 0 {
        acc
    } else {
        sub_psq_row(sub_psq_rows(acc, w, idx.drop_last()), w[idx.last() as int]@)
    }
}

/// An accumulator after a move: the rows of the features that became active
/// added, those of the features that went inactive subtracted.
pub open spec fn next_acc(acc: Seq<i16>, w: Seq<Vec<i16>>, added: Seq<usize>, removed: Seq<usize>) -> Seq<i16> {
    sub_rows(add_rows(acc, w, added), w, removed)
}

pub open spec fn next_psq_acc(acc: Seq<i32>, w: Seq<Vec<i32>>, added: Seq<usize>, removed: Seq<usize>) -> Seq<i32> {
    sub_psq_rows(add_psq_rows(acc, w, added), w, removed)
}

pub open spec fn features_in_range(idx: Seq<usize>) -> bool {
    forall|i: int| 0 <= i < idx.len() ==> #[trigger] idx[i] < INPUT_DIMENSIONS
}

/// Clamp to `[0, 127]`.
pub open spec fn clip(x: int) -> int {
    if x < 0 {
        0
    } else if x > 127 {
        127
    } else {
        x
    }
}

/// The clipped-product activation of a pair of accumulator values.
pub open spec fn clipped_product(a: int, b: int) -> int {
    clip(a) * clip(b) / 128
}

/// Half of `d`, rounded toward zero.
pub open spec fn half_toward_zero(d: int) -> int {
    if d >= 0 {
        d / 2
    } else {
        -((-d) / 2)
    }
}

/// The clipped-product activation lies in `[-127 * 127 / 128, 127 * 127 / 128]`
/// (in fact in `[0, 126]`), and is 0 when either input is at most 0.
pub proof fn lemma_clipped_product_range(a: int, b: int)
    ensures
        -(127 * 127 / 128) <= clipped_product(a, b) <= 127 * 127 / 128,
        0 <= clipped_product(a, b),
        a <= 0 || b <= 0 ==> clipped_product(a, b) == 0,
{
    let ca = clip(a);
    let cb = clip(b);
    assert(0 <= ca * cb <= 127 * 127) by (nonlinear_arith)
        requires
            0 <= ca <= 127,
            0 <= cb <= 127,
    ;
    if a <= 0 || b <= 0 {
        assert(ca * cb == 0) by (nonlinear_arith)
            requires
                ca == 0 || cb == 0,
        ;
    }
}

/// Taking back a move pops the snapshot that making it pushed: the stack is
/// exactly what it was before the move.
pub proof fn lemma_push_pop_restores<T>(stack: Seq<T>, top: T)
    ensures
        stack.push(top).drop_last() == stack,
{
    assert(stack.push(top).drop_last() =~= stack);
}

fn reshape_i16(flat: &Vec<i16>, rows: usize, cols: usize) -> (r: Vec<Vec<i16>>)
    requires
        flat@.len() == rows * cols,
    ensures
        r@.len() == rows,
        forall|i: int| 0 <= i < rows ==> (#[trigger] r@[i])@.len() == cols,
        forall|i: int, j: int| 0 <= i < rows && 0 <= j < cols ==> #[trigger] r@[i]@[j] == flat@[i * cols + j],
{
    let n: usize = flat.len();
    let mut out: Vec<Vec<i16>> = Vec::new();
    let mut i: usize = 0;
    while i < rows
        invariant
            flat@.len() == rows * cols,
            n == flat@.len(),
            i <= rows,
            out@.len() == i,
            forall|a: int| 0 <= a < i ==> (#[trigger] out@[a])@.len() == cols,
            forall|a: int, j: int| 0 <= a < i && 0 <= j < cols ==> #[trigger] out@[a]@[j] == flat@[a * cols + j],
        decreases rows - i,
    {
        let mut row: Vec<i16> = Vec::new();
        let mut j: usize = 0;
        while j < cols
            invariant
                flat@.len() == rows * cols,
                n == flat@.len(),
                i < rows,
                j <= cols,
                row@.len() == j,
                forall|b: int| 0 <= b < j ==> #[trigger] row@[b] == flat@[i * cols + b],
            decreases cols - j,
        {
            assert(i * cols + j < rows * cols) by (nonlinear_arith)
                requires
                    i < rows,
                    j < cols,
            ;
            row.push(flat[i * cols + j]);
            j = j + 1;
        }
        out.push(row);
        i = i + 1;
    }
    out
}

fn reshape_i32(flat: &Vec<i32>, rows: usize, cols: usize) -> (r: Vec<Vec<i32>>)
    requires
        flat@.len() == rows * cols,
    ensures
        r@.len() == rows,
        forall|i: int| 0 <= i < rows ==> (#[trigger] r@[i])@.len() == cols,
        forall|i: int, j: int| 0 <= i < rows && 0 <= j < cols ==> #[trigger] r@[i]@[j] == flat@[i * cols + j],
{
    let n: usize = flat.len();
    let mut out: Vec<Vec<i32>> = Vec::new();
    let mut i: usize = 0;
    while i < rows
        invariant
            flat@.len() == rows * cols,
            n == flat@.len(),
            i <= rows,
            out@.len() == i,
            forall|a: int| 0 <= a < i ==> (#[trigger] out@[a])@.len() == cols,
            forall|a: int, j: int| 0 <= a < i && 0 <= j < cols ==> #[trigger] out@[a]@[j] == flat@[a * cols + j],
        decreases rows - i,
    {
        let mut row: Vec<i32> = Vec::new();
        let mut j: usize = 0;
        while j < cols
            invariant
                flat@.len() == rows * cols,
                n == flat@.len(),
                i < rows,
                j <= cols,
                row@.len() == j,
                forall|b: int| 0 <= b < j ==> #[trigger] row@[b] == flat@[i * cols + b],
            decreases cols - j,
        {
            assert(i * cols + j < rows * cols) by (nonlinear_arith)
                requires
                    i < rows,
                    j < cols,
            ;
            row.push(flat[i * cols + j]);
            j = j + 1;
        }
        out.push(row);
        i = i + 1;
    }
    out
}

/// The feature that slot `ind` of the index table stands for, as
/// `(piece_index, is_opp, piece_square, king_square)`.
pub open spec fn slot_feature(ind: int) -> (int, int, int, int) {
    let a = ind % 11;
    let b = ind / 11;
    (a / 2, a % 2, b % 64, b / 64)
}

proof fn lemma_slot_feature_of_linearize(piece_index: int, is_opp: int, piece_square: int, king_square: int)
    requires
        valid_feature(piece_index, is_opp, piece_square, king_square),
        king_square < 32,
        !(piece_index == 5 && is_opp == 1),
    ensures
        0 <= spec_linearize(piece_index, is_opp, piece_square, king_square) < CACHE_MAKE_INDEX_SIZE,
        slot_feature(spec_linearize(piece_index, is_opp, piece_square, king_square)) == (
            piece_index,
            is_opp,
            piece_square,
            king_square,
        ),
{
    let a = 2 * piece_index + is_opp;
    let b = piece_square + king_square * 64;
    let ind = spec_linearize(piece_index, is_opp, piece_square, king_square);
    lemma_fundamental_div_mod_converse(ind, 11, b, a);
    lemma_fundamental_div_mod_converse(b, 64, king_square, piece_square);
    lemma_fundamental_div_mod_converse(a, 2, piece_index, is_opp);
}

impl FeatureTransformer {
    /// Fills the index table: the slot `linearize(f)` of each feature `f` with a
    /// king on the first 32 squares holds `spec_make_index(f)`.
    pub fn create_indices_for_make(&mut self)
        ensures
            final(self).indices@.len() == CACHE_MAKE_INDEX_SIZE,
            forall|ind: int|
                0 <= ind < CACHE_MAKE_INDEX_SIZE ==> #[trigger] final(self).indices@[ind] == spec_make_index(
                    slot_feature(ind).0,
                    slot_feature(ind).1,
                    slot_feature(ind).2,
                    slot_feature(ind).3,
                ),
            final(self).indices_filled(),
            final(self).bias == old(self).bias,
            final(self).weights == old(self).weights,
            final(self).psqt_weights == old(self).psqt_weights,
            final(self).my_acc_stack == old(self).my_acc_stack,
            final(self).opp_acc_stack == old(self).opp_acc_stack,
            final(self).my_psq_acc_stack == old(self).my_psq_acc_stack,
            final(self).opp_psq_acc_stack == old(self).opp_psq_acc_stack,
    {
        let mut indices: Vec<usize> = Vec::new();
        let mut ind: usize = 0;
        while ind < CACHE_MAKE_INDEX_SIZE
            invariant
                ind <= CACHE_MAKE_INDEX_SIZE,
                indices@.len() == ind,
                forall|j: int|
                    0 <= j < ind ==> #[trigger] indices@[j] == spec_make_index(
                        slot_feature(j).0,
                        slot_feature(j).1,
                        slot_feature(j).2,
                        slot_feature(j).3,
                    ),
            decreases CACHE_MAKE_INDEX_SIZE - ind,
        {
            let a = ind % 11;
            let b = ind / 11;
            let idx = self.make_index_internal(a / 2, a % 2, b % 64, b / 64);
            indices.push(idx);
            ind = ind + 1;
        }
        self.indices = indices;
        proof {
            assert forall|pi: int, o: int, ps: int, ks: int|
                valid_feature(pi, o, ps, ks) && ks < 32 && !(pi == 5 && o == 1) implies #[trigger] self.indices@[spec_linearize(pi, o, ps, ks)]
                    == spec_make_index(pi, o, ps, ks) by {
                lemma_slot_feature_of_linearize(pi, o, ps, ks);
            }
        }
    }

    /// Every feature with a king on the first 32 squares has its row at slot
    /// `linearize` of the index table.
    pub open spec fn indices_filled(&self) -> bool {
        &&& self.indices@.len() == CACHE_MAKE_INDEX_SIZE
        &&& forall|pi: int, o: int, ps: int, ks: int|
            valid_feature(pi, o, ps, ks) && ks < 32 && !(pi == 5 && o == 1) ==> #[trigger] self.indices@[spec_linearize(pi, o, ps, ks)]
                == spec_make_index(pi, o, ps, ks)
    }

    /// The row of a feature, read from the index table.
    pub fn make_index_cached(
        &self,
        piece_index: usize,
        is_opp: usize,
        piece_square: usize,
        king_square: usize,
    ) -> (r: usize)
        requires
            self.indices_filled(),
            valid_feature(piece_index as int, is_opp as int, piece_square as int, king_square as int),
            king_square < 32,
            !(piece_index == 5 && is_opp == 1),
        ensures
            r == spec_make_index(piece_index as int, is_opp as int, piece_square as int, king_square as int),
    {
        proof {
            lemma_slot_feature_of_linearize(piece_index as int, is_opp as int, piece_square as int, king_square as int);
        }
        self.indices[linearize(piece_index, is_opp, piece_square, king_square)]
    }

    /// Loads the network from the bytes of a weight file: three segments, the
    /// flat weights reshaped row-major into one row per input feature.
    pub fn read_parameters(data: &[u8]) -> (r: Result<FeatureTransformer, Leb128Error>)
        ensures
            match r {
                Ok(ft) => {
                    &&& decode_network(data@) is Ok
                    &&& ft.loaded()
                    &&& ft.bias@.map_values(|x: i16| x as int) == decode_network(data@)->Ok_0.0
                    &&& forall|i: int, j: int|
                        0 <= i < INPUT_DIMENSIONS && 0 <= j < HALF_DIMENSIONS ==> #[trigger] ft.weights@[i]@[j] as int
                            == decode_network(data@)->Ok_0.1[i * HALF_DIMENSIONS + j]
                    &&& forall|i: int, j: int|
                        0 <= i < INPUT_DIMENSIONS && 0 <= j < PSQT_BUCKETS ==> #[trigger] ft.psqt_weights@[i]@[j] as int
                            == decode_network(data@)->Ok_0.2[i * PSQT_BUCKETS + j]
                    &&& ft.my_acc_stack@.len() == 0
                    &&& ft.opp_acc_stack@.len() == 0
                    &&& ft.my_psq_acc_stack@.len() == 0
                    &&& ft.opp_psq_acc_stack@.len() == 0
                    &&& ft.indices_filled()
                    &&& forall|ind: int|
                        0 <= ind < CACHE_MAKE_INDEX_SIZE ==> #[trigger] ft.indices@[ind] == spec_make_index(
                            slot_feature(ind).0,
                            slot_feature(ind).1,
                            slot_feature(ind).2,
                            slot_feature(ind).3,
                        )
                },
                Err(e) => decode_network(data@) == Err::<(Seq<int>, Seq<int>, Seq<int>), Leb128Error>(e),
            },
    {
        let (bias, after_bias) = match read_leb_128_bias_type(data, 0, HALF_DIMENSIONS) {
            Ok(x) => x,
            Err(e) => {
                return Err(e);
            },
        };
        let (weights_linear, after_weights) = match read_leb_128_bias_type(
            data,
            after_bias,
            HALF_DIMENSIONS * INPUT_DIMENSIONS,
        ) {
            Ok(x) => x,
            Err(e) => {
                return Err(e);
            },
        };
        let (psqtweight, _end) = match read_leb_128_psqt_type(data, after_weights, PSQT_BUCKETS * INPUT_DIMENSIONS) {
            Ok(x) => x,
            Err(e) => {
                return Err(e);
            },
        };
        assert(weights_linear@.len() == weights_linear@.map_values(|x: i16| x as int).len());
        assert(psqtweight@.len() == psqtweight@.map_values(|x: i32| x as int).len());
        assert(bias@.len() == bias@.map_values(|x: i16| x as int).len());
        let weights = reshape_i16(&weights_linear, INPUT_DIMENSIONS, HALF_DIMENSIONS);
        let psqt_weights = reshape_i32(&psqtweight, INPUT_DIMENSIONS, PSQT_BUCKETS);
        let mut x = FeatureTransformer {
            bias,
            weights,
            psqt_weights,
            my_acc_stack: Vec::new(),
            opp_acc_stack: Vec::new(),
            my_psq_acc_stack: Vec::new(),
            opp_psq_acc_stack: Vec::new(),
            indices: Vec::new(),
        };
        x.create_indices_for_make();
        proof {
            assert forall|i: int, j: int|
                0 <= i < INPUT_DIMENSIONS && 0 <= j < HALF_DIMENSIONS implies #[trigger] x.weights@[i]@[j] as int
                    == decode_network(data@)->Ok_0.1[i * HALF_DIMENSIONS + j] by {
                assert(0 <= i * HALF_DIMENSIONS + j < INPUT_DIMENSIONS * HALF_DIMENSIONS) by (nonlinear_arith)
                    requires
                        0 <= i < INPUT_DIMENSIONS,
                        0 <= j < HALF_DIMENSIONS,
                ;
            }
            assert forall|i: int, j: int|
                0 <= i < INPUT_DIMENSIONS && 0 <= j < PSQT_BUCKETS implies #[trigger] x.psqt_weights@[i]@[j] as int
                    == decode_network(data@)->Ok_0.2[i * PSQT_BUCKETS + j] by {
                assert(0 <= i * PSQT_BUCKETS + j < INPUT_DIMENSIONS * PSQT_BUCKETS) by (nonlinear_arith)
                    requires
                        0 <= i < INPUT_DIMENSIONS,
                        0 <= j < PSQT_BUCKETS,
                ;
            }
        }
        Ok(x)
    }

    /// A copy of the bias vector.
    pub fn get_bias(&self) -> (r: Vec<i16>)
        requires
            self.bias@.len() == TRANSFORMED_FEATURE_DIMENSIONS,
        ensures
            r@ == self.bias@,
    {
        let mut bias: Vec<i16> = Vec::new();
        let mut i: usize = 0;
        while i < TRANSFORMED_FEATURE_DIMENSIONS
            invariant
                self.bias@.len() == TRANSFORMED_FEATURE_DIMENSIONS,
                i <= TRANSFORMED_FEATURE_DIMENSIONS,
                bias@ == self.bias@.subrange(0, i as int),
            decreases TRANSFORMED_FEATURE_DIMENSIONS - i,
        {
            bias.push(self.bias[i]);
            i = i + 1;
            assert(bias@ =~= self.bias@.subrange(0, i as int));
        }
        assert(bias@ =~= self.bias@);
        bias
    }

    /// Adds row `index` of the weights to `acc`, wrapping on overflow.
    pub fn add_to_accumulator(&self, index: usize, acc: &mut Vec<i16>)
        requires
            self.loaded(),
            index < INPUT_DIMENSIONS,
            old(acc)@.len() == HALF_DIMENSIONS,
        ensures
            final(acc)@ == add_row(old(acc)@, self.weights@[index as int]@),
    {
        let ghost a0 = acc@;
        let mut i: usize = 0;
        while i < TRANSFORMED_FEATURE_DIMENSIONS
            invariant
                self.loaded(),
                index < INPUT_DIMENSIONS,
                i <= TRANSFORMED_FEATURE_DIMENSIONS,
                acc@.len() == HALF_DIMENSIONS,
                a0.len() == HALF_DIMENSIONS,
                forall|j: int| 0 <= j < i ==> #[trigger] acc@[j] == vstd::wrapping::i16_specs::wrapping_add(a0[j], self.weights@[index as int]@[j]),
                forall|j: int| i <= j < HALF_DIMENSIONS ==> #[trigger] acc@[j] == a0[j],
            decreases TRANSFORMED_FEATURE_DIMENSIONS - i,
        {
            let v = acc[i].wrapping_add(self.weights[index][i]);
            acc.set(i, v);
            i = i + 1;
        }
        assert(acc@ =~= add_row(a0, self.weights@[index as int]@));
    }

    /// Subtracts row `index` of the weights from `acc`, wrapping on overflow.
    pub fn subtract_from_accumulator(&self, index: usize, acc: &mut Vec<i16>)
        requires
            self.loaded(),
            index < INPUT_DIMENSIONS,
            old(acc)@.len() == HALF_DIMENSIONS,
        ensures
            final(acc)@ == sub_row(old(acc)@, self.weights@[index as int]@),
    {
        let ghost a0 = acc@;
        let mut i: usize = 0;
        while i < TRANSFORMED_FEATURE_DIMENSIONS
            invariant
                self.loaded(),
                index < INPUT_DIMENSIONS,
                i <= TRANSFORMED_FEATURE_DIMENSIONS,
                acc@.len() == HALF_DIMENSIONS,
                a0.len() == HALF_DIMENSIONS,
                forall|j: int| 0 <= j < i ==> #[trigger] acc@[j] == vstd::wrapping::i16_specs::wrapping_sub(a0[j], self.weights@[index as int]@[j]),
                forall|j: int| i <= j < HALF_DIMENSIONS ==> #[trigger] acc@[j] == a0[j],
            decreases TRANSFORMED_FEATURE_DIMENSIONS - i,
        {
            let v = acc[i].wrapping_sub(self.weights[index][i]);
            acc.set(i, v);
            i = i + 1;
        }
        assert(acc@ =~= sub_row(a0, self.weights@[index as int]@));
    }

    /// Adds row `index` of the piece-square weights to `acc`, wrapping on overflow.
    pub fn add_to_accumulator_psq(&self, index: usize, acc: &mut Vec<i32>)
        requires
            self.loaded(),
            index < INPUT_DIMENSIONS,
            old(acc)@.len() == PSQT_BUCKETS,
        ensures
            final(acc)@ == add_psq_row(old(acc)@, self.psqt_weights@[index as int]@),
    {
        let ghost a0 = acc@;
        let mut i: usize = 0;
        while i < PSQT_BUCKETS
            invariant
                self.loaded(),
                index < INPUT_DIMENSIONS,
                i <= PSQT_BUCKETS,
                acc@.len() == PSQT_BUCKETS,
                a0.len() == PSQT_BUCKETS,
                forall|j: int| 0 <= j < i ==> #[trigger] acc@[j] == vstd::wrapping::i32_specs::wrapping_add(a0[j], self.psqt_weights@[index as int]@[j]),
                forall|j: int| i <= j < PSQT_BUCKETS ==> #[trigger] acc@[j] == a0[j],
            decreases PSQT_BUCKETS - i,
        {
            let v = acc[i].wrapping_add(self.psqt_weights[index][i]);
            acc.set(i, v);
            i = i + 1;
        }
        assert(acc@ =~= add_psq_row(a0, self.psqt_weights@[index as int]@));
    }

    /// Subtracts row `index` of the piece-square weights from `acc`, wrapping on overflow.
    pub fn subtract_from_accumulator_psq(&self, index: usize, acc: &mut Vec<i32>)
        requires
            self.loaded(),
            index < INPUT_DIMENSIONS,
            old(acc)@.len() == PSQT_BUCKETS,
        ensures
            final(acc)@ == sub_psq_row(old(acc)@, self.psqt_weights@[index as int]@),
    {
        let ghost a0 = acc@;
        let mut i: usize = 0;
        while i < PSQT_BUCKETS
            invariant
                self.loaded(),
                index < INPUT_DIMENSIONS,
                i <= PSQT_BUCKETS,
                acc@.len() == PSQT_BUCKETS,
                a0.len() == PSQT_BUCKETS,
                forall|j: int| 0 <= j < i ==> #[trigger] acc@[j] == vstd::wrapping::i32_specs::wrapping_sub(a0[j], self.psqt_weights@[index as int]@[j]),
                forall|j: int| i <= j < PSQT_BUCKETS ==> #[trigger] acc@[j] == a0[j],
            decreases PSQT_BUCKETS - i,
        {
            let v = acc[i].wrapping_sub(self.psqt_weights[index][i]);
            acc.set(i, v);
            i = i + 1;
        }
        assert(acc@ =~= sub_psq_row(a0, self.psqt_weights@[index as int]@));
    }
}

impl FeatureTransformer {
    fn next_accumulator(&self, base: &Vec<i16>, added: &Vec<usize>, removed: &Vec<usize>) -> (r: Vec<i16>)
        requires
            self.loaded(),
            base@.len() == HALF_DIMENSIONS,
            features_in_range(added@),
            features_in_range(removed@),
        ensures
            r@ == next_acc(base@, self.weights@, added@, removed@),
            r@.len() == HALF_DIMENSIONS,
    {
        let mut acc = base.clone();
        let mut i: usize = 0;
        while i < added.len()
            invariant
                self.loaded(),
                features_in_range(added@),
                i <= added@.len(),
                acc@ == add_rows(base@, self.weights@, added@.subrange(0, i as int)),
                acc@.len() == HALF_DIMENSIONS,
            decreases added@.len() - i,
        {
            proof {
                assert(added@.subrange(0, i + 1).drop_last() =~= added@.subrange(0, i as int));
            }
            self.add_to_accumulator(added[i], &mut acc);
            i = i + 1;
        }
        assert(added@.subrange(0, added@.len() as int) =~= added@);
        let ghost mid = acc@;
        let mut k: usize = 0;
        while k < removed.len()
            invariant
                self.loaded(),
                features_in_range(removed@),
                k <= removed@.len(),
                acc@ == sub_rows(mid, self.weights@, removed@.subrange(0, k as int)),
                acc@.len() == HALF_DIMENSIONS,
            decreases removed@.len() - k,
        {
            proof {
                assert(removed@.subrange(0, k + 1).drop_last() =~= removed@.subrange(0, k as int));
            }
            self.subtract_from_accumulator(removed[k], &mut acc);
            k = k + 1;
        }
        assert(removed@.subrange(0, removed@.len() as int) =~= removed@);
        acc
    }

    fn next_psq_accumulator(&self, base: &Vec<i32>, added: &Vec<usize>, removed: &Vec<usize>) -> (r: Vec<i32>)
        requires
            self.loaded(),
            base@.len() == PSQT_BUCKETS,
            features_in_range(added@),
            features_in_range(removed@),
        ensures
            r@ == next_psq_acc(base@, self.psqt_weights@, added@, removed@),
            r@.len() == PSQT_BUCKETS,
    {
        let mut acc = base.clone();
        let mut i: usize = 0;
        while i < added.len()
            invariant
                self.loaded(),
                features_in_range(added@),
                i <= added@.len(),
                acc@ == add_psq_rows(base@, self.psqt_weights@, added@.subrange(0, i as int)),
                acc@.len() == PSQT_BUCKETS,
            decreases added@.len() - i,
        {
            proof {
                assert(added@.subrange(0, i + 1).drop_last() =~= added@.subrange(0, i as int));
            }
            self.add_to_accumulator_psq(added[i], &mut acc);
            i = i + 1;
        }
        assert(added@.subrange(0, added@.len() as int) =~= added@);
        let ghost mid = acc@;
        let mut k: usize = 0;
        while k < removed.len()
            invariant
                self.loaded(),
                features_in_range(removed@),
                k <= removed@.len(),
                acc@ == sub_psq_rows(mid, self.psqt_weights@, removed@.subrange(0, k as int)),
                acc@.len() == PSQT_BUCKETS,
            decreases removed@.len() - k,
        {
            proof {
                assert(removed@.subrange(0, k + 1).drop_last() =~= removed@.subrange(0, k as int));
            }
            self.subtract_from_accumulator_psq(removed[k], &mut acc);
            k = k + 1;
        }
        assert(removed@.subrange(0, removed@.len() as int) =~= removed@);
        acc
    }

    /// Starts the stacks of a new position: pushes, for each perspective, the
    /// bias plus the rows of its active features, and the sum of their
    /// piece-square rows.
    pub fn refresh_accumulators(&mut self, my_active: &Vec<usize>, opp_active: &Vec<usize>)
        requires
            old(self).loaded(),
            old(self).stacks_wf(),
            features_in_range(my_active@),
            features_in_range(opp_active@),
        ensures
            final(self).stacks_wf(),
            final(self).bias == old(self).bias,
            final(self).weights == old(self).weights,
            final(self).psqt_weights == old(self).psqt_weights,
            final(self).indices == old(self).indices,
            final(self).my_acc_stack@ == old(self).my_acc_stack@.push(
                final(self).my_acc_stack@.last(),
            ),
            final(self).my_acc_stack@.last()@ == next_acc(old(self).bias@, old(self).weights@, my_active@, seq![]),
            final(self).opp_acc_stack@ == old(self).opp_acc_stack@.push(
                final(self).opp_acc_stack@.last(),
            ),
            final(self).opp_acc_stack@.last()@ == next_acc(old(self).bias@, old(self).weights@, opp_active@, seq![]),
            final(self).my_psq_acc_stack@ == old(self).my_psq_acc_stack@.push(
                final(self).my_psq_acc_stack@.last(),
            ),
            final(self).my_psq_acc_stack@.last()@ == next_psq_acc(Seq::new(PSQT_BUCKETS as nat, |i: int| 0i32), old(self).psqt_weights@, my_active@, seq![]),
            final(self).opp_psq_acc_stack@ == old(self).opp_psq_acc_stack@.push(
                final(self).opp_psq_acc_stack@.last(),
            ),
            final(self).opp_psq_acc_stack@.last()@ == next_psq_acc(Seq::new(PSQT_BUCKETS as nat, |i: int| 0i32), old(self).psqt_weights@, opp_active@, seq![]),
    {
        let none: Vec<usize> = Vec::new();
        let zero: Vec<i32> = vec![0i32; PSQT_BUCKETS];
        assert(zero@ =~= Seq::new(PSQT_BUCKETS as nat, |i: int| 0i32));
        assert(none@ =~= seq![]);
        let bias = self.get_bias();
        let my = self.next_accumulator(&bias, my_active, &none);
        let opp = self.next_accumulator(&bias, opp_active, &none);
        let my_psq = self.next_psq_accumulator(&zero, my_active, &none);
        let opp_psq = self.next_psq_accumulator(&zero, opp_active, &none);
        let ghost before = self.my_acc_stack@.len();
        self.my_acc_stack.push(my);
        self.opp_acc_stack.push(opp);
        self.my_psq_acc_stack.push(my_psq);
        self.opp_psq_acc_stack.push(opp_psq);
        proof {
            assert forall|i: int| 0 <= i < self.my_acc_stack@.len() implies {
                &&& (#[trigger] self.my_acc_stack@[i])@.len() == HALF_DIMENSIONS
                &&& self.opp_acc_stack@[i]@.len() == HALF_DIMENSIONS
                &&& self.my_psq_acc_stack@[i]@.len() == PSQT_BUCKETS
                &&& self.opp_psq_acc_stack@[i]@.len() == PSQT_BUCKETS
            } by {
                if i < before {
                    assert(old(self).my_acc_stack@[i] == self.my_acc_stack@[i]);
                }
            }
        }
    }

    /// Move make: for each perspective, a new snapshot from the top one, with the
    /// rows of the features that became active added and those that went
    /// inactive subtracted, is pushed.
    pub fn push_move_accumulators(
        &mut self,
        my_added: &Vec<usize>,
        my_removed: &Vec<usize>,
        opp_added: &Vec<usize>,
        opp_removed: &Vec<usize>,
    )
        requires
            old(self).loaded(),
            old(self).stacks_wf(),
            old(self).my_acc_stack@.len() > 0,
            features_in_range(my_added@),
            features_in_range(my_removed@),
            features_in_range(opp_added@),
            features_in_range(opp_removed@),
        ensures
            final(self).stacks_wf(),
            final(self).bias == old(self).bias,
            final(self).weights == old(self).weights,
            final(self).psqt_weights == old(self).psqt_weights,
            final(self).indices == old(self).indices,
            final(self).my_acc_stack@ == old(self).my_acc_stack@.push(
                final(self).my_acc_stack@.last(),
            ),
            final(self).my_acc_stack@.last()@ == next_acc(old(self).my_acc_stack@.last()@, old(self).weights@, my_added@, my_removed@),
            final(self).opp_acc_stack@ == old(self).opp_acc_stack@.push(
                final(self).opp_acc_stack@.last(),
            ),
            final(self).opp_acc_stack@.last()@ == next_acc(old(self).opp_acc_stack@.last()@, old(self).weights@, opp_added@, opp_removed@),
            final(self).my_psq_acc_stack@ == old(self).my_psq_acc_stack@.push(
                final(self).my_psq_acc_stack@.last(),
            ),
            final(self).my_psq_acc_stack@.last()@ == next_psq_acc(old(self).my_psq_acc_stack@.last()@, old(self).psqt_weights@, my_added@, my_removed@),
            final(self).opp_psq_acc_stack@ == old(self).opp_psq_acc_stack@.push(
                final(self).opp_psq_acc_stack@.last(),
            ),
            final(self).opp_psq_acc_stack@.last()@ == next_psq_acc(old(self).opp_psq_acc_stack@.last()@, old(self).psqt_weights@, opp_added@, opp_removed@),
    {
        let top = self.my_acc_stack.len() - 1;
        let my = self.next_accumulator(&self.my_acc_stack[top], my_added, my_removed);
        let opp = self.next_accumulator(&self.opp_acc_stack[top], opp_added, opp_removed);
        let my_psq = self.next_psq_accumulator(&self.my_psq_acc_stack[top], my_added, my_removed);
        let opp_psq = self.next_psq_accumulator(&self.opp_psq_acc_stack[top], opp_added, opp_removed);
        let ghost before = self.my_acc_stack@.len();
        self.my_acc_stack.push(my);
        self.opp_acc_stack.push(opp);
        self.my_psq_acc_stack.push(my_psq);
        self.opp_psq_acc_stack.push(opp_psq);
        proof {
            assert forall|i: int| 0 <= i < self.my_acc_stack@.len() implies {
                &&& (#[trigger] self.my_acc_stack@[i])@.len() == HALF_DIMENSIONS
                &&& self.opp_acc_stack@[i]@.len() == HALF_DIMENSIONS
                &&& self.my_psq_acc_stack@[i]@.len() == PSQT_BUCKETS
                &&& self.opp_psq_acc_stack@[i]@.len() == PSQT_BUCKETS
            } by {
                if i < before {
                    assert(old(self).my_acc_stack@[i] == self.my_acc_stack@[i]);
                }
            }
        }
    }

    /// Move unmake: the top snapshot of each stack is dropped.
    pub fn pop_accumulators(&mut self)
        requires
            old(self).stacks_wf(),
            old(self).my_acc_stack@.len() > 0,
        ensures
            final(self).stacks_wf(),
            final(self).bias == old(self).bias,
            final(self).weights == old(self).weights,
            final(self).psqt_weights == old(self).psqt_weights,
            final(self).indices == old(self).indices,
            final(self).my_acc_stack@ == old(self).my_acc_stack@.drop_last(),
            final(self).opp_acc_stack@ == old(self).opp_acc_stack@.drop_last(),
            final(self).my_psq_acc_stack@ == old(self).my_psq_acc_stack@.drop_last(),
            final(self).opp_psq_acc_stack@ == old(self).opp_psq_acc_stack@.drop_last(),
    {
        self.my_acc_stack.pop();
        self.opp_acc_stack.pop();
        self.my_psq_acc_stack.pop();
        self.opp_psq_acc_stack.pop();
    }

    /// Folds the top snapshots into the output of this layer: for each
    /// perspective, `clipped_product` of the entries `i` and `i + 1280` of its
    /// accumulator (own perspective at offset 0, opponent at offset 1280), and
    /// half the difference of the two piece-square sums of `bucket`.
    pub fn transform(&self, bucket: i32) -> (r: (i32, Vec<i8>))
        requires
            self.stacks_wf(),
            self.my_acc_stack@.len() > 0,
            0 <= bucket < PSQT_BUCKETS,
        ensures
            r.1@.len() == HALF_DIMENSIONS,
            forall|i: int|
                0 <= i < HALF_DIMENSIONS / 2 ==> #[trigger] r.1@[i] as int == clipped_product(
                    self.my_acc_stack@.last()@[i] as int,
                    self.my_acc_stack@.last()@[i + HALF_DIMENSIONS / 2] as int,
                ),
            forall|i: int|
                HALF_DIMENSIONS / 2 <= i < HALF_DIMENSIONS ==> #[trigger] r.1@[i] as int == clipped_product(
                    self.opp_acc_stack@.last()@[i - HALF_DIMENSIONS / 2] as int,
                    self.opp_acc_stack@.last()@[i] as int,
                ),
            r.0 as int == half_toward_zero(
                vstd::wrapping::i32_specs::wrapping_sub(
                    self.my_psq_acc_stack@.last()@[bucket as int],
                    self.opp_psq_acc_stack@.last()@[bucket as int],
                ) as int,
            ),
    {
        let top = self.my_acc_stack.len() - 1;
        let my_acc = &self.my_acc_stack[top];
        let opp_acc = &self.opp_acc_stack[top];
        let mut result: Vec<i8> = Vec::new();
        let mut i: usize = 0;
        while i < HALF_DIMENSIONS
            invariant
                i <= HALF_DIMENSIONS,
                my_acc@.len() == HALF_DIMENSIONS,
                opp_acc@.len() == HALF_DIMENSIONS,
                result@.len() == i,
                forall|j: int|
                    0 <= j < i && j < HALF_DIMENSIONS / 2 ==> #[trigger] result@[j] as int == clipped_product(
                        my_acc@[j] as int,
                        my_acc@[j + HALF_DIMENSIONS / 2] as int,
                    ),
                forall|j: int|
                    HALF_DIMENSIONS / 2 <= j < i ==> #[trigger] result@[j] as int == clipped_product(
                        opp_acc@[j - HALF_DIMENSIONS / 2] as int,
                        opp_acc@[j] as int,
                    ),
            decreases HALF_DIMENSIONS - i,
        {
            let (sum0, sum1) = if i < HALF_DIMENSIONS / 2 {
                (my_acc[i], my_acc[i + HALF_DIMENSIONS / 2])
            } else {
                (opp_acc[i - HALF_DIMENSIONS / 2], opp_acc[i])
            };
            let c0: i16 = if sum0 < 0 { 0 } else if sum0 > 127 { 127 } else { sum0 };
            let c1: i16 = if sum1 < 0 { 0 } else if sum1 > 127 { 127 } else { sum1 };
            assert(0 <= c0 * c1 <= 127 * 127) by (nonlinear_arith)
                requires
                    0 <= c0 <= 127,
                    0 <= c1 <= 127,
            ;
            result.push((c0 * c1 / 128) as i8);
            i = i + 1;
        }
        let my_psq = &self.my_psq_acc_stack[top];
        let opp_psq = &self.opp_psq_acc_stack[top];
        let d: i32 = my_psq[bucket as usize].wrapping_sub(opp_psq[bucket as usize]);
        let x: i32 = if d >= 0 {
            d / 2
        } else {
            (-((-(d as i64)) / 2)) as i32
        };
        (x, result)
    }
}

} // verus!
