//! The feed-forward brain: an ordered stack of fixed-point weight matrices.
//! Matrix `k` maps layer `k`'s activations to layer `k + 1`'s; every layer
//! but the last is squashed through the bounded tangent. Weights live in
//! milli-units and are clamped to `WEIGHT_LIMIT`, so no product can leave
//! `i64`.

use vstd::prelude::*;

use crate::fixnum::{round_milli, round_milli_spec, tanh_milli, tanh_milli_spec};
use crate::linalg::{
    dot_spec, lemma_dot_prefix_bound, mat_bounded, mat_vec_mul, mat_wf, vec_bounded,
};
use crate::rng::RandomSource;

verus! {

/// Largest magnitude a weight may take, in milli-units.
pub const WEIGHT_LIMIT: i64 = 2000000;

/// Largest magnitude a brain input may take, in milli-units.
pub const INPUT_LIMIT: i64 = 2100000000;

/// Standard deviation, in milli-units, of a freshly drawn weight.
pub const INIT_WEIGHT_STD: u32 = 1000;

/// The column count matrix `k` must have: the input width for the first
/// matrix, the previous matrix's row count after that.
pub open spec fn fan_in(mats: Seq<Vec<Vec<i64>>>, input: int, k: int) -> int {
    if k == 0 {
        input
    } else {
        mats[k - 1]@.len() as int
    }
}

/// One squashed entry: the inner product read back in milli-units, then
/// passed through the bounded tangent.
pub open spec fn act_spec(p: int) -> int {
    tanh_milli_spec(round_milli_spec(p))
}

/// Activations of the first `k` hidden layers applied to `v`.
pub open spec fn hidden_spec(mats: Seq<Vec<Vec<i64>>>, v: Seq<i64>, k: int) -> Seq<i64>
    decreases k,
{
    if k <= 0 {
        v
    } else {
        let prev = hidden_spec(mats, v, k - 1);
        Seq::new(mats[k - 1]@.len(), |i: int| act_spec(dot_spec(mats[k - 1]@[i]@, prev)) as i64)
    }
}

/// What `feed` returns: all hidden layers squashed, the last layer linear.
pub open spec fn feed_spec(mats: Seq<Vec<Vec<i64>>>, v: Seq<i64>) -> Seq<i64> {
    let last = mats.len() - 1;
    let prev = hidden_spec(mats, v, last);
    Seq::new(mats[last]@.len(), |i: int| round_milli_spec(dot_spec(mats[last]@[i]@, prev)) as i64)
}

/// Same stack shape: as many matrices, with matching row and column
/// counts throughout.
pub open spec fn same_shape(a: Seq<Vec<Vec<i64>>>, b: Seq<Vec<Vec<i64>>>) -> bool {
    &&& a.len() == b.len()
    &&& forall|k: int| 0 <= k < a.len() ==> (#[trigger] a[k])@.len() == b[k]@.len()
    &&& forall|k: int, i: int|
        0 <= k < a.len() && 0 <= i < a[k]@.len() ==> (#[trigger] a[k]@[i])@.len() == b[k]@[i]@.len()
}

/// Every weight of `b` is within `d` of `a`'s, and within `WEIGHT_LIMIT`.
pub open spec fn weights_within(a: Seq<Vec<Vec<i64>>>, b: Seq<Vec<Vec<i64>>>, d: int) -> bool {
    forall|k: int, i: int, j: int|
        0 <= k < a.len() && 0 <= i < a[k]@.len() && 0 <= j < a[k]@[i]@.len() ==> {
            &&& -(WEIGHT_LIMIT as int) <= (#[trigger] b[k]@[i]@[j]) <= WEIGHT_LIMIT as int
            &&& -d <= b[k]@[i]@[j] - a[k]@[i]@[j] <= d
        }
}

/// Same stack shape and the same weight at every position.
pub open spec fn same_weights(a: Seq<Vec<Vec<i64>>>, b: Seq<Vec<Vec<i64>>>) -> bool {
    &&& a.len() == b.len()
    &&& forall|k: int| 0 <= k < a.len() ==> (#[trigger] a[k])@.len() == b[k]@.len()
    &&& forall|k: int, i: int|
        0 <= k < a.len() && 0 <= i < a[k]@.len() ==> (#[trigger] a[k]@[i])@.len() == b[k]@[i]@.len()
    &&& forall|k: int, i: int, j: int|
        0 <= k < a.len() && 0 <= i < a[k]@.len() && 0 <= j < a[k]@[i]@.len()
            ==> #[trigger] a[k]@[i]@[j] == b[k]@[i]@[j]
}

/// Stacks with the same weights have the same hidden activations.
proof fn lemma_same_weights_same_hidden(
    a: Seq<Vec<Vec<i64>>>,
    b: Seq<Vec<Vec<i64>>>,
    v: Seq<i64>,
    k: int,
)
    requires
        same_weights(a, b),
        0 <= k < a.len(),
    ensures
        hidden_spec(a, v, k) == hidden_spec(b, v, k),
    decreases k,
{
    if k > 0 {
        lemma_same_weights_same_hidden(a, b, v, k - 1);
        let prev = hidden_spec(a, v, k - 1);
        assert forall|i: int| 0 <= i < a[k - 1]@.len() implies #[trigger] a[k - 1]@[i]@ == b[k
            - 1]@[i]@ by {
            assert(a[k - 1]@[i]@ =~= b[k - 1]@[i]@);
        }
        assert(hidden_spec(a, v, k) =~= hidden_spec(b, v, k));
    }
}

/// Law: a mutation with zero spread copies the weights exactly, and equal
/// weights give equal inference on every input — so a zero-noise clone
/// behaves identically.
pub proof fn lemma_same_weights_same_feed(
    a: Seq<Vec<Vec<i64>>>,
    b: Seq<Vec<Vec<i64>>>,
    v: Seq<i64>,
)
    requires
        same_weights(a, b),
        a.len() >= 1,
    ensures
        feed_spec(a, v) == feed_spec(b, v),
{
    let last = a.len() - 1;
    lemma_same_weights_same_hidden(a, b, v, last);
    assert forall|i: int| 0 <= i < a[last]@.len() implies #[trigger] a[last]@[i]@
        == b[last]@[i]@ by {
        assert(a[last]@[i]@ =~= b[last]@[i]@);
    }
    assert(feed_spec(a, v) =~= feed_spec(b, v));
}

pub struct NeuralBrain {
    mats: Vec<Vec<Vec<i64>>>,
}

impl NeuralBrain {
    /// Shape soundness: at least one matrix, every matrix rectangular with
    /// the column count its predecessor's row count, no layer wider than
    /// sixty-four, all weights within `WEIGHT_LIMIT`.
    pub closed spec fn view(self) -> Seq<Vec<Vec<i64>>> {
        self.mats@
    }

    pub open spec fn wf(self, input: int, output: int) -> bool {
        &&& 1 <= self.view().len()
        &&& 1 <= input <= 64
        &&& forall|k: int|
            0 <= k < self.view().len() ==> {
                &&& mat_wf(
                    (#[trigger] self.view()[k])@,
                    self.view()[k]@.len() as int,
                    fan_in(self.view(), input, k),
                )
                &&& 1 <= self.view()[k]@.len() <= 64
                &&& mat_bounded(self.view()[k]@, WEIGHT_LIMIT as int)
            }
        &&& self.view()[self.view().len() - 1]@.len() == output
    }

    /// Every weight within `WEIGHT_LIMIT`; implied by `wf`.
    pub open spec fn weights_bounded(self) -> bool {
        forall|k: int|
            0 <= k < self.view().len() ==> mat_bounded((#[trigger] self.view()[k])@, WEIGHT_LIMIT as int)
    }

    /// A brain with every weight drawn independently, roughly standard
    /// normal in milli-units; `shape` lists the hidden layer widths in
    /// order, the output layer following them.
    pub fn new_random(
        input: usize,
        output: usize,
        shape: &Vec<usize>,
        rng: &mut RandomSource,
    ) -> (b: NeuralBrain)
        requires
            1 <= input <= 64,
            1 <= output <= 64,
            forall|k: int| 0 <= k < shape@.len() ==> 1 <= #[trigger] shape@[k] <= 64,
        ensures
            b.wf(input as int, output as int),
            b.view().len() == shape@.len() + 1,
            forall|k: int|
                0 <= k < shape@.len() ==> (#[trigger] b.view()[k])@.len() == shape@[k],
    {
        let mut mats: Vec<Vec<Vec<i64>>> = Vec::new();
        let mut last_size: usize = input;
        let mut k: usize = 0;
        while k < shape.len()
            invariant
                k <= shape@.len(),
                mats@.len() == k,
                1 <= input <= 64,
                forall|j: int| 0 <= j < shape@.len() ==> 1 <= #[trigger] shape@[j] <= 64,
                last_size == fan_in(mats@, input as int, k as int),
                1 <= last_size <= 64,
                forall|j: int|
                    0 <= j < k ==> {
                        &&& mat_wf(
                            (#[trigger] mats@[j])@,
                            mats@[j]@.len() as int,
                            fan_in(mats@, input as int, j),
                        )
                        &&& 1 <= mats@[j]@.len() <= 64
                        &&& mat_bounded(mats@[j]@, WEIGHT_LIMIT as int)
                    },
                forall|j: int| 0 <= j < k ==> (#[trigger] mats@[j])@.len() == shape@[j],
            decreases shape@.len() - k,
        {
            let rows: usize = shape[k];
            let m = random_matrix(rows, last_size, rng);
            mats.push(m);
            last_size = rows;
            k = k + 1;
        }
        let m = random_matrix(output, last_size, rng);
        mats.push(m);
        NeuralBrain { mats }
    }

    /// An independent brain of the same shape, each weight nudged by
    /// bounded zero-mean noise of spread `std` and clamped to
    /// `WEIGHT_LIMIT`; zero spread copies the weights exactly.
    pub fn clone_mutate(&self, std: u32, rng: &mut RandomSource) -> (b: NeuralBrain)
        requires
            std <= 100000,
            self.weights_bounded(),
        ensures
            same_shape(self.view(), b.view()),
            weights_within(self.view(), b.view(), 6 * (std as int)),
            std == 0 ==> same_weights(self.view(), b.view()),
    {
        let mut mats: Vec<Vec<Vec<i64>>> = Vec::new();
        let mut k: usize = 0;
        while k < self.mats.len()
            invariant
                k <= self.mats@.len(),
                mats@.len() == k,
                std <= 100000,
                self.weights_bounded(),
                forall|j: int|
                    0 <= j < k ==> (#[trigger] mats@[j])@.len() == self.mats@[j]@.len(),
                forall|j: int, i: int|
                    0 <= j < k && 0 <= i < self.mats@[j]@.len() ==> (#[trigger] mats@[j]@[i])@.len()
                        == self.mats@[j]@[i]@.len(),
                forall|jj: int, i: int, j: int|
                    0 <= jj < k && 0 <= i < self.mats@[jj]@.len() && 0 <= j
                        < self.mats@[jj]@[i]@.len() ==> {
                        &&& -(WEIGHT_LIMIT as int) <= (#[trigger] mats@[jj]@[i]@[j])
                            <= WEIGHT_LIMIT as int
                        &&& -6 * (std as int) <= mats@[jj]@[i]@[j] - self.mats@[jj]@[i]@[j] <= 6 * (
                        std as int)
                        &&& (std == 0 ==> mats@[jj]@[i]@[j] == self.mats@[jj]@[i]@[j])
                    },
            decreases self.mats@.len() - k,
        {
            proof {
                assert(mat_bounded((self.view()[k as int])@, WEIGHT_LIMIT as int));
            }
            let m = mutate_matrix(&self.mats[k], std, rng);
            mats.push(m);
            k = k + 1;
        }
        NeuralBrain { mats }
    }

    /// Pure inference: `outputs` is overwritten with the stack applied to
    /// `inputs`, exactly `feed_spec` of the weights.
    pub fn feed(&self, inputs: &Vec<i64>, outputs: &mut Vec<i64>)
        requires
            self.wf(inputs@.len() as int, old(outputs)@.len() as int),
            vec_bounded(inputs@, INPUT_LIMIT as int),
        ensures
            final(outputs)@ == feed_spec(self.view(), inputs@),
    {
        let ghost mats = self.mats@;
        let mut buff: Vec<i64> = Vec::new();
        let mut i: usize = 0;
        while i < inputs.len()
            invariant
                i <= inputs@.len(),
                buff@ =~= inputs@.subrange(0, i as int),
            decreases inputs@.len() - i,
        {
            buff.push(inputs[i]);
            i = i + 1;
        }
        assert(buff@ =~= inputs@);

        let mut k: usize = 0;
        while k < self.mats.len() - 1
            invariant
                self.wf(inputs@.len() as int, old(outputs)@.len() as int),
                vec_bounded(inputs@, INPUT_LIMIT as int),
                mats == self.mats@,
                k < mats.len(),
                buff@ == hidden_spec(mats, inputs@, k as int),
                buff@.len() == fan_in(mats, inputs@.len() as int, k as int),
                vec_bounded(buff@, INPUT_LIMIT as int),
            decreases mats.len() - k,
        {
            let prod = mat_vec_mul(&self.mats[k], &buff);
            let mut act: Vec<i64> = Vec::new();
            let mut i: usize = 0;
            while i < prod.len()
                invariant
                    i <= prod@.len(),
                    act@.len() == i,
                    vec_bounded(prod@, (64 * 2000000 * 2100000000) as int),
                    forall|j: int| 0 <= j < i ==> #[trigger] act@[j] == act_spec(prod@[j] as int),
                    forall|j: int| 0 <= j < i ==> -1000 <= #[trigger] act@[j] <= 1000,
                decreases prod@.len() - i,
            {
                let r = round_milli(prod[i]);
                act.push(tanh_milli(r));
                i = i + 1;
            }
            assert(act@ =~= hidden_spec(mats, inputs@, k as int + 1));
            buff = act;
            k = k + 1;
        }

        let prod = mat_vec_mul(&self.mats[k], &buff);
        let mut i: usize = 0;
        while i < prod.len()
            invariant
                i <= prod@.len(),
                outputs@.len() == prod@.len(),
                vec_bounded(prod@, (64 * 2000000 * 2100000000) as int),
                forall|j: int|
                    0 <= j < i ==> #[trigger] outputs@[j] == round_milli_spec(prod@[j] as int),
            decreases prod@.len() - i,
        {
            let r = round_milli(prod[i]);
            outputs.set(i, r);
            i = i + 1;
        }
        assert(outputs@ =~= feed_spec(mats, inputs@));
    }
}

/// A `rows x cols` matrix of fresh, roughly standard-normal weights in
/// milli-units.
fn random_matrix(rows: usize, cols: usize, rng: &mut RandomSource) -> (m: Vec<Vec<i64>>)
    requires
        rows >= 1,
        cols >= 1,
    ensures
        mat_wf(m@, rows as int, cols as int),
        mat_bounded(m@, WEIGHT_LIMIT as int),
{
    let mut m: Vec<Vec<i64>> = Vec::new();
    let mut i: usize = 0;
    while i < rows
        invariant
            i <= rows,
            m@.len() == i,
            forall|r: int| 0 <= r < i ==> (#[trigger] m@[r])@.len() == cols,
            forall|r: int, c: int|
                0 <= r < i && 0 <= c < cols ==> -(WEIGHT_LIMIT as int) <= #[trigger] m@[r]@[c]
                    <= WEIGHT_LIMIT as int,
        decreases rows - i,
    {
        let mut row: Vec<i64> = Vec::new();
        let mut j: usize = 0;
        while j < cols
            invariant
                j <= cols,
                row@.len() == j,
                forall|c: int|
                    0 <= c < j ==> -(WEIGHT_LIMIT as int) <= #[trigger] row@[c]
                        <= WEIGHT_LIMIT as int,
            decreases cols - j,
        {
            row.push(rng.gauss_milli(INIT_WEIGHT_STD));
            j = j + 1;
        }
        m.push(row);
        i = i + 1;
    }
    m
}

/// The matrix with every weight nudged by fresh noise of spread `std` and
/// clamped to `WEIGHT_LIMIT`.
fn mutate_matrix(m: &Vec<Vec<i64>>, std: u32, rng: &mut RandomSource) -> (o: Vec<Vec<i64>>)
    requires
        std <= 100000,
        mat_bounded(m@, WEIGHT_LIMIT as int),
    ensures
        o@.len() == m@.len(),
        forall|i: int| 0 <= i < m@.len() ==> (#[trigger] o@[i])@.len() == m@[i]@.len(),
        forall|i: int, j: int|
            0 <= i < m@.len() && 0 <= j < m@[i]@.len() ==> {
                &&& -(WEIGHT_LIMIT as int) <= (#[trigger] o@[i]@[j]) <= WEIGHT_LIMIT as int
                &&& -6 * (std as int) <= o@[i]@[j] - m@[i]@[j] <= 6 * (std as int)
                &&& (std == 0 ==> o@[i]@[j] == m@[i]@[j])
            },
{
    let mut o: Vec<Vec<i64>> = Vec::new();
    let mut i: usize = 0;
    while i < m.len()
        invariant
            i <= m@.len(),
            o@.len() == i,
            std <= 100000,
            mat_bounded(m@, WEIGHT_LIMIT as int),
            forall|r: int| 0 <= r < i ==> (#[trigger] o@[r])@.len() == m@[r]@.len(),
            forall|r: int, c: int|
                0 <= r < i && 0 <= c < m@[r]@.len() ==> {
                    &&& -(WEIGHT_LIMIT as int) <= (#[trigger] o@[r]@[c]) <= WEIGHT_LIMIT as int
                    &&& -6 * (std as int) <= o@[r]@[c] - m@[r]@[c] <= 6 * (std as int)
                    &&& (std == 0 ==> o@[r]@[c] == m@[r]@[c])
                },
        decreases m@.len() - i,
    {
        let mut row: Vec<i64> = Vec::new();
        let mut j: usize = 0;
        while j < m[i].len()
            invariant
                i < m@.len(),
                j <= m@[i as int]@.len(),
                row@.len() == j,
                std <= 100000,
                mat_bounded(m@, WEIGHT_LIMIT as int),
                forall|c: int|
                    0 <= c < j ==> {
                        &&& -(WEIGHT_LIMIT as int) <= (#[trigger] row@[c]) <= WEIGHT_LIMIT as int
                        &&& -6 * (std as int) <= row@[c] - m@[i as int]@[c] <= 6 * (std as int)
                        &&& (std == 0 ==> row@[c] == m@[i as int]@[c])
                    },
            decreases m@[i as int]@.len() - j,
        {
            let w: i64 = m[i][j];
            let n: i64 = rng.gauss_milli(std);
            let sum: i64 = if w >= 0 && n >= 0 && w > WEIGHT_LIMIT - n {
                WEIGHT_LIMIT
            } else if w <= 0 && n <= 0 && w < -WEIGHT_LIMIT - n {
                -WEIGHT_LIMIT
            } else {
                w + n
            };
            let clamped: i64 = if sum > WEIGHT_LIMIT {
                WEIGHT_LIMIT
            } else if sum < -WEIGHT_LIMIT {
                -WEIGHT_LIMIT
            } else {
                sum
            };
            row.push(clamped);
            j = j + 1;
        }
        o.push(row);
        i = i + 1;
    }
    o
}

} // verus!
