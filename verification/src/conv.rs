use vstd::prelude::*;
use vstd::std_specs::ops::{AddSpec, MulSpec};

use crate::tensor::{is_default, is_sum, products, products_allowed, sum_of_products, Tensor};

verus! {

/// `lo <= p < hi`: position `p` of the zero-padded input falls on the input itself.
pub open spec fn inside(p: int, lo: int, hi: int) -> bool {
    lo <= p < hi
}

/// For `0 <= q <= x / d`, `q * d <= x`.
proof fn lemma_below_quotient(q: int, x: int, d: int)
    requires
        d > 0,
        0 <= x,
        0 <= q <= x / d,
    ensures
        q * d <= x,
{
    vstd::arithmetic::div_mod::lemma_fundamental_div_mod(x, d);
    assert(q * d <= (x / d) * d) by (nonlinear_arith)
        requires
            0 <= q <= x / d,
            d > 0,
    ;
    assert((x / d) * d == d * (x / d)) by (nonlinear_arith);
}

/// 1D convolution over a `(length, channels)` input, one kernel column per
/// channel.
///
/// The kernel is `(kernel_size, in_channels)`; the input is zero-padded by
/// `padding` positions at both ends and the kernel moves `stride` positions at
/// a time.
#[derive(Debug)]
pub struct Conv1D<T> {
    pub kernel: Tensor<T>,
    pub stride: usize,
    pub padding: usize,
}

impl<T> Conv1D<T> {
    /// The output length for an input of length `seq_len`:
    /// `(seq_len + 2 * padding - kernel_size) / stride + 1`.
    pub open spec fn out_len(&self, seq_len: nat) -> nat {
        ((seq_len + 2 * self.padding - self.kernel.nrows()) / (self.stride as int) + 1) as nat
    }

    /// Output position `i` with kernel tap `k` reads input row
    /// `i * stride + k - padding`, when that row exists (otherwise it reads padding).
    pub open spec fn tap_inside(&self, seq_len: nat, i: int, k: int) -> bool {
        inside(i * self.stride + k, self.padding as int, seq_len + self.padding)
    }

    /// Some output position reads an input row through some kernel tap.
    pub open spec fn reads_input(&self, seq_len: nat) -> bool {
        exists|i: int, k: int|
            0 <= i < self.out_len(seq_len) && 0 <= k < self.kernel.nrows() && #[trigger] self.tap_inside(
                seq_len,
                i,
                k,
            )
    }

    /// The pairs (input element, kernel element) that output `(i, c)` adds up,
    /// taking the kernel taps `0 .. k` in order and skipping those that fall on
    /// the padding.
    pub open spec fn pairs_upto(&self, input: &Tensor<T>, i: int, c: int, k: nat) -> Seq<(T, T)>
        decreases k,
    {
        if k == 0 {
            Seq::empty()
        } else {
            let prev = self.pairs_upto(input, i, c, (k - 1) as nat);
            if self.tap_inside(input.nrows(), i, k - 1) {
                prev.push(
                    (
                        input.at(i * self.stride + (k - 1) - self.padding, c),
                        self.kernel.at(k - 1, c),
                    ),
                )
            } else {
                prev
            }
        }
    }

    /// All the pairs (input element, kernel element) that output `(i, c)` adds up.
    pub open spec fn pairs(&self, input: &Tensor<T>, i: int, c: int) -> Seq<(T, T)> {
        self.pairs_upto(input, i, c, self.kernel.nrows())
    }

    /// `forward` accepts `input`: the stride is positive, the padded input is
    /// at least as long as the kernel, the sizes fit in memory, and the kernel
    /// has a column for every input channel whenever some tap reads the input.
    pub open spec fn accepts(&self, input: &Tensor<T>) -> bool {
        &&& self.stride > 0
        &&& input.nrows() + 2 * self.padding <= usize::MAX
        &&& self.kernel.nrows() <= input.nrows() + 2 * self.padding
        &&& self.out_len(input.nrows()) <= usize::MAX
        &&& self.out_len(input.nrows()) * input.ncols() <= usize::MAX
        &&& (input.ncols() > 0 && self.reads_input(input.nrows())) ==> self.kernel.ncols()
            >= input.ncols()
    }
}

impl<T: Default + core::ops::Add<Output = T> + core::ops::Mul<Output = T>> Conv1D<T> {
    /// Every output element of `forward` can be computed by `T`'s `*` and `+`.
    pub open spec fn arithmetic_allowed(&self, input: &Tensor<T>) -> bool {
        forall|i: int, c: int|
            0 <= i < self.out_len(input.nrows()) && 0 <= c < input.ncols() ==> products_allowed(
                #[trigger] self.pairs(input, i, c),
            )
    }
}

impl<T: Copy + Default + core::ops::Add<Output = T> + core::ops::Mul<Output = T>> Conv1D<T> {
    /// Output `(i, c)`: the sum of the products of `pairs(input, i, c)`.
    fn output_at(&self, input: &Tensor<T>, i: usize, c: usize) -> (v: T)
        requires
            self.accepts(input),
            self.arithmetic_allowed(input),
            i < self.out_len(input.nrows()),
            c < input.ncols(),
        ensures
            self.pairs(input, i as int, c as int).len() == 0 ==> is_default(v),
            T::obeys_mul_spec() ==> is_sum(v, products(self.pairs(input, i as int, c as int))),
    {
        let seq_len = input.rows();
        let kernel_size = self.kernel.rows();
        let padding = self.padding;
        let stride = self.stride;
        proof {
            let x = (seq_len + 2 * padding - kernel_size) as int;
            lemma_below_quotient(i as int, x, stride as int);
        }
        let start = i * stride;
        let mut pairs: Vec<(T, T)> = Vec::new();
        let mut k: usize = 0;
        while k < kernel_size
            invariant
                k <= kernel_size,
                seq_len == input.nrows(),
                kernel_size == self.kernel.nrows(),
                padding == self.padding,
                stride == self.stride,
                self.accepts(input),
                i < self.out_len(input.nrows()),
                c < input.ncols(),
                start == i * stride,
                start + kernel_size <= seq_len + 2 * padding,
                pairs@ == self.pairs_upto(input, i as int, c as int, k as nat),
            decreases kernel_size - k,
        {
            let pos = start + k;
            if pos >= padding && pos < seq_len + padding {
                assert(self.tap_inside(input.nrows(), i as int, k as int));
                assert(self.reads_input(input.nrows()));
                let x = input.get(pos - padding, c);
                let w = self.kernel.get(k, c);
                pairs.push((x, w));
            }
            k += 1;
        }
        assert(products_allowed(self.pairs(input, i as int, c as int)));
        sum_of_products(&pairs)
    }

    /// Convolves a `(length, channels)` input; the output is
    /// `(out_len(length), channels)`.
    ///
    /// Output `(i, c)` adds up `input[i * stride + k - padding][c] * kernel[k][c]`
    /// over the taps `k` that fall on the input (taps on the padding add
    /// nothing); it is the default value (zero, for numbers) when no tap does.
    pub fn forward(&self, input: &Tensor<T>) -> (out: Tensor<T>)
        requires
            self.accepts(input),
            self.arithmetic_allowed(input),
        ensures
            out.has_shape(self.out_len(input.nrows()), input.ncols()),
            forall|i: int, c: int|
                0 <= i < self.out_len(input.nrows()) && 0 <= c < input.ncols() ==> {
                    &&& self.pairs(input, i, c).len() == 0 ==> is_default(#[trigger] out.at(i, c))
                    &&& T::obeys_mul_spec() ==> is_sum(out.at(i, c), products(self.pairs(input, i, c)))
                },
    {
        let (seq_len, channels) = input.shape();
        let kernel_size = self.kernel.rows();
        let output_len = (seq_len + 2 * self.padding - kernel_size) / self.stride + 1;
        let f = |i: usize, c: usize| -> (v: T)
            requires
                i < self.out_len(input.nrows()) && c < input.ncols(),
                self.accepts(input),
                self.arithmetic_allowed(input),
            ensures
                self.pairs(input, i as int, c as int).len() == 0 ==> is_default(v),
                T::obeys_mul_spec() ==> is_sum(v, products(self.pairs(input, i as int, c as int))),
            { self.output_at(input, i, c) };
        let out = Tensor::tabulate(output_len, channels, f);
        assert forall|i: int, c: int|
            0 <= i < self.out_len(input.nrows()) && 0 <= c < input.ncols() implies {
            &&& self.pairs(input, i, c).len() == 0 ==> is_default(#[trigger] out.at(i, c))
            &&& T::obeys_mul_spec() ==> is_sum(out.at(i, c), products(self.pairs(input, i, c)))
        } by {
            assert(f.ensures((i as usize, c as usize), out.at(i, c)));
        }
        out
    }
}

/// 2D convolution of a single-channel image with a `(kernel_h, kernel_w)` kernel.
///
/// The image of height `in_h` and width `in_w` is passed flat, as an
/// `(in_h * in_w, 1)` tensor in row-major order; the output comes back the
/// same way. The image is zero-padded by `padding` on every side and the kernel
/// moves `stride` pixels at a time.
#[derive(Debug)]
pub struct Conv2D<T> {
    pub kernel: Tensor<T>,
    pub stride: usize,
    pub padding: usize,
}

impl<T> Conv2D<T> {
    /// The output height: `(in_h + 2 * padding - kernel_h) / stride + 1`.
    pub open spec fn out_h(&self, in_h: nat) -> nat {
        ((in_h + 2 * self.padding - self.kernel.nrows()) / (self.stride as int) + 1) as nat
    }

    /// The output width: `(in_w + 2 * padding - kernel_w) / stride + 1`.
    pub open spec fn out_w(&self, in_w: nat) -> nat {
        ((in_w + 2 * self.padding - self.kernel.ncols()) / (self.stride as int) + 1) as nat
    }

    /// The kernel row of tap `t`, counting taps row by row.
    pub open spec fn tap_row(&self, t: int) -> int {
        t / (self.kernel.ncols() as int)
    }

    /// The kernel column of tap `t`, counting taps row by row.
    pub open spec fn tap_col(&self, t: int) -> int {
        t % (self.kernel.ncols() as int)
    }

    /// Output pixel `(oh, ow)` with tap `t` reads image pixel
    /// `(oh * stride + tap_row(t) - padding, ow * stride + tap_col(t) - padding)`,
    /// when that pixel exists (otherwise it reads padding).
    pub open spec fn tap_inside(&self, in_h: nat, in_w: nat, oh: int, ow: int, t: int) -> bool {
        &&& inside(oh * self.stride + self.tap_row(t), self.padding as int, in_h + self.padding)
        &&& inside(ow * self.stride + self.tap_col(t), self.padding as int, in_w + self.padding)
    }

    /// Some output pixel reads some image pixel.
    pub open spec fn reads_input(&self, in_h: nat, in_w: nat) -> bool {
        exists|oh: int, ow: int, t: int|
            0 <= oh < self.out_h(in_h) && 0 <= ow < self.out_w(in_w) && 0 <= t < self.kernel.nrows()
                * self.kernel.ncols() && #[trigger] self.tap_inside(in_h, in_w, oh, ow, t)
    }

    /// The flat index of the image pixel that output `(oh, ow)` reads with tap `t`.
    pub open spec fn tap_index(&self, in_w: nat, oh: int, ow: int, t: int) -> int {
        (oh * self.stride + self.tap_row(t) - self.padding) * in_w + (ow * self.stride
            + self.tap_col(t) - self.padding)
    }

    /// The pairs (image pixel, kernel element) that output `(oh, ow)` adds up,
    /// over the taps `0 .. t` taken row by row, skipping those on the padding.
    pub open spec fn pairs_upto(
        &self,
        input: &Tensor<T>,
        in_h: nat,
        in_w: nat,
        oh: int,
        ow: int,
        t: nat,
    ) -> Seq<(T, T)>
        decreases t,
    {
        if t == 0 {
            Seq::empty()
        } else {
            let prev = self.pairs_upto(input, in_h, in_w, oh, ow, (t - 1) as nat);
            if self.tap_inside(in_h, in_w, oh, ow, t - 1) {
                prev.push(
                    (
                        input.at(self.tap_index(in_w, oh, ow, t - 1), 0),
                        self.kernel.at(self.tap_row(t - 1), self.tap_col(t - 1)),
                    ),
                )
            } else {
                prev
            }
        }
    }

    /// All the pairs (image pixel, kernel element) that output `(oh, ow)` adds up.
    pub open spec fn pairs(&self, input: &Tensor<T>, in_h: nat, in_w: nat, oh: int, ow: int) -> Seq<
        (T, T),
    > {
        self.pairs_upto(input, in_h, in_w, oh, ow, self.kernel.nrows() * self.kernel.ncols())
    }

    /// `forward` accepts an `in_h × in_w` image in `input`: `input` holds
    /// `in_h * in_w` rows, the stride is positive, the padded image is at
    /// least as large as the kernel, the sizes fit in memory, and `input` has
    /// a column whenever some output pixel reads the image.
    pub open spec fn accepts(&self, input: &Tensor<T>, in_h: nat, in_w: nat) -> bool {
        &&& self.stride > 0
        &&& in_h * in_w <= usize::MAX
        &&& input.nrows() == in_h * in_w
        &&& in_h + 2 * self.padding <= usize::MAX
        &&& in_w + 2 * self.padding <= usize::MAX
        &&& self.kernel.nrows() <= in_h + 2 * self.padding
        &&& self.kernel.ncols() <= in_w + 2 * self.padding
        &&& self.out_h(in_h) <= usize::MAX
        &&& self.out_w(in_w) <= usize::MAX
        &&& self.out_h(in_h) * self.out_w(in_w) <= usize::MAX
        &&& self.reads_input(in_h, in_w) ==> input.ncols() >= 1
    }
}

impl<T: Default + core::ops::Add<Output = T> + core::ops::Mul<Output = T>> Conv2D<T> {
    /// Every output pixel of `forward` can be computed by `T`'s `*` and `+`.
    pub open spec fn arithmetic_allowed(&self, input: &Tensor<T>, in_h: nat, in_w: nat) -> bool {
        forall|oh: int, ow: int|
            0 <= oh < self.out_h(in_h) && 0 <= ow < self.out_w(in_w) ==> products_allowed(
                #[trigger] self.pairs(input, in_h, in_w, oh, ow),
            )
    }
}

impl<T: Copy> Conv2D<T> {
    /// A layer with the given kernel, stride and padding.
    pub fn from_kernel(kernel: Tensor<T>, stride: usize, padding: usize) -> (c: Conv2D<T>)
        ensures
            c.kernel == kernel,
            c.stride == stride,
            c.padding == padding,
    {
        Conv2D { kernel, stride, padding }
    }
}

impl<T: Copy + Default + core::ops::Add<Output = T> + core::ops::Mul<Output = T>> Conv2D<T> {
    /// Output pixel `(oh, ow)`: the sum of the products of its pairs.
    fn output_at(&self, input: &Tensor<T>, in_h: usize, in_w: usize, oh: usize, ow: usize) -> (v:
        T)
        requires
            self.accepts(input, in_h as nat, in_w as nat),
            self.arithmetic_allowed(input, in_h as nat, in_w as nat),
            oh < self.out_h(in_h as nat),
            ow < self.out_w(in_w as nat),
        ensures
            self.pairs(input, in_h as nat, in_w as nat, oh as int, ow as int).len() == 0 ==> is_default(
                v,
            ),
            T::obeys_mul_spec() ==> is_sum(v, products(self.pairs(input, in_h as nat, in_w as nat, oh as int, ow as int))),
    {
        let (kh, kw) = self.kernel.shape();
        let stride = self.stride;
        let padding = self.padding;
        proof {
            lemma_below_quotient(oh as int, (in_h + 2 * padding - kh) as int, stride as int);
            lemma_below_quotient(ow as int, (in_w + 2 * padding - kw) as int, stride as int);
        }
        let base_h = oh * stride;
        let base_w = ow * stride;
        let mut pairs: Vec<(T, T)> = Vec::new();
        let mut ki: usize = 0;
        while ki < kh
            invariant
                ki <= kh,
                kh == self.kernel.nrows(),
                kw == self.kernel.ncols(),
                stride == self.stride,
                padding == self.padding,
                self.accepts(input, in_h as nat, in_w as nat),
                oh < self.out_h(in_h as nat),
                ow < self.out_w(in_w as nat),
                base_h == oh * stride,
                base_w == ow * stride,
                base_h + kh <= in_h + 2 * padding,
                base_w + kw <= in_w + 2 * padding,
                pairs@ == self.pairs_upto(
                    input,
                    in_h as nat,
                    in_w as nat,
                    oh as int,
                    ow as int,
                    (ki * kw) as nat,
                ),
            decreases kh - ki,
        {
            let mut kj: usize = 0;
            while kj < kw
                invariant
                    ki < kh,
                    kj <= kw,
                    kh == self.kernel.nrows(),
                    kw == self.kernel.ncols(),
                    stride == self.stride,
                    padding == self.padding,
                    self.accepts(input, in_h as nat, in_w as nat),
                    oh < self.out_h(in_h as nat),
                    ow < self.out_w(in_w as nat),
                    base_h == oh * stride,
                    base_w == ow * stride,
                    base_h + kh <= in_h + 2 * padding,
                    base_w + kw <= in_w + 2 * padding,
                    pairs@ == self.pairs_upto(
                        input,
                        in_h as nat,
                        in_w as nat,
                        oh as int,
                        ow as int,
                        (ki * kw + kj) as nat,
                    ),
                decreases kw - kj,
            {
                let ghost t: int = ki * kw + kj;
                proof {
                    crate::tensor::lemma_split_index(ki as int, kj as int, kw as int);
                    crate::tensor::lemma_index_in_bounds(ki as int, kj as int, kh as int, kw as int);
                    assert(self.tap_row(t) == ki);
                    assert(self.tap_col(t) == kj);
                }
                let ih = base_h + ki;
                let iw = base_w + kj;
                if ih >= padding && ih < in_h + padding && iw >= padding && iw < in_w + padding {
                    assert(self.tap_inside(in_h as nat, in_w as nat, oh as int, ow as int, t));
                    assert(self.reads_input(in_h as nat, in_w as nat));
                    proof {
                        crate::tensor::lemma_index_in_bounds(
                            (ih - padding) as int,
                            (iw - padding) as int,
                            in_h as int,
                            in_w as int,
                        );
                    }
                    let x = input.get((ih - padding) * in_w + (iw - padding), 0);
                    let w = self.kernel.get(ki, kj);
                    pairs.push((x, w));
                }
                kj += 1;
            }
            proof {
                assert(ki * kw + kw == (ki + 1) * kw) by (nonlinear_arith);
            }
            ki += 1;
        }
        assert(products_allowed(
            self.pairs(input, in_h as nat, in_w as nat, oh as int, ow as int),
        ));
        sum_of_products(&pairs)
    }

    /// Convolves an `in_h × in_w` image given flat in `input`; returns the
    /// output height, the output width and the output image, flat, as an
    /// `(out_h * out_w, 1)` tensor.
    ///
    /// Output pixel `(oh, ow)`, at flat index `oh * out_w + ow`, adds up the
    /// products of the image pixels and kernel elements under the kernel placed
    /// at `(oh * stride - padding, ow * stride - padding)`; taps on the padding
    /// add nothing, and a pixel no tap reaches is the default value (zero, for
    /// numbers).
    pub fn forward(&self, input: &Tensor<T>, in_h: usize, in_w: usize) -> (res: (
        usize,
        usize,
        Tensor<T>,
    ))
        requires
            self.accepts(input, in_h as nat, in_w as nat),
            self.arithmetic_allowed(input, in_h as nat, in_w as nat),
        ensures
            res.0 == self.out_h(in_h as nat),
            res.1 == self.out_w(in_w as nat),
            res.2.has_shape((res.0 * res.1) as nat, 1),
            forall|oh: int, ow: int|
                0 <= oh < res.0 && 0 <= ow < res.1 ==> {
                    &&& self.pairs(input, in_h as nat, in_w as nat, oh, ow).len() == 0 ==> is_default(
                        #[trigger] res.2.at(oh * res.1 + ow, 0),
                    )
                    &&& T::obeys_mul_spec() ==> is_sum(res.2.at(oh * res.1 + ow, 0), products(self.pairs(input, in_h as nat, in_w as nat, oh, ow)))
                },
    {
        let (kh, kw) = self.kernel.shape();
        let out_h = (in_h + 2 * self.padding - kh) / self.stride + 1;
        let out_w = (in_w + 2 * self.padding - kw) / self.stride + 1;
        let f = |r: usize, c: usize| -> (v: T)
            requires
                r < out_h * out_w,
                c < 1,
                out_h == self.out_h(in_h as nat),
                out_w == self.out_w(in_w as nat),
                self.accepts(input, in_h as nat, in_w as nat),
                self.arithmetic_allowed(input, in_h as nat, in_w as nat),
            ensures
                self.pairs(
                    input,
                    in_h as nat,
                    in_w as nat,
                    r as int / out_w as int,
                    r as int % out_w as int,
                ).len() == 0 ==> is_default(v),
                T::obeys_mul_spec() ==> is_sum(v, products(self.pairs(
                            input,
                            in_h as nat,
                            in_w as nat,
                            r as int / out_w as int,
                            r as int % out_w as int,
                        ))),
            {
                proof {
                    vstd::arithmetic::div_mod::lemma_fundamental_div_mod(r as int, out_w as int);
                    assert(r / out_w < out_h) by (nonlinear_arith)
                        requires
                            r as int == out_w * (r / out_w) + r % out_w,
                            0 <= r % out_w,
                            r < out_h * out_w,
                            out_w > 0,
                    ;
                }
                self.output_at(input, in_h, in_w, r / out_w, r % out_w)
            };
        proof {
            assert(out_w > 0);
        }
        let out = Tensor::tabulate(out_h * out_w, 1, f);
        assert forall|oh: int, ow: int| 0 <= oh < out_h && 0 <= ow < out_w implies {
            &&& self.pairs(input, in_h as nat, in_w as nat, oh, ow).len() == 0 ==> is_default(
                #[trigger] out.at(oh * out_w + ow, 0),
            )
            &&& T::obeys_mul_spec() ==> is_sum(out.at(oh * out_w + ow, 0), products(self.pairs(input, in_h as nat, in_w as nat, oh, ow)))
        } by {
            crate::tensor::lemma_split_index(oh, ow, out_w as int);
            crate::tensor::lemma_index_in_bounds(oh, ow, out_h as int, out_w as int);
            let r = oh * out_w + ow;
            assert(f.ensures((r as usize, 0usize), out.at(r, 0)));
        }
        (out_h, out_w, out)
    }
}

/// How a pooling window is reduced to one value.
#[derive(Clone, Copy, Debug, PartialEq, Eq, Structural)]
pub enum PoolType {
    Max,
    Avg,
}

/// 2D pooling over square `pool_size × pool_size` windows that move `stride`
/// pixels at a time, without padding.
///
/// The image of height `in_h` and width `in_w` is passed flat, as an
/// `(in_h * in_w, channels)` tensor in row-major pixel order; each channel is
/// pooled on its own.
#[derive(Clone, Copy, Debug)]
pub struct Pool2D {
    pub pool_size: usize,
    pub stride: usize,
    pub pool_type: PoolType,
}

impl Pool2D {
    /// A pooling layer with the given window size, stride and reduction.
    pub fn new(pool_size: usize, stride: usize, pool_type: PoolType) -> (p: Pool2D)
        ensures
            p.pool_size == pool_size,
            p.stride == stride,
            p.pool_type == pool_type,
    {
        Pool2D { pool_size, stride, pool_type }
    }

    /// The output height: `(in_h - pool_size) / stride + 1`.
    pub open spec fn out_h(&self, in_h: nat) -> nat {
        ((in_h - self.pool_size) / (self.stride as int) + 1) as nat
    }

    /// The output width: `(in_w - pool_size) / stride + 1`.
    pub open spec fn out_w(&self, in_w: nat) -> nat {
        ((in_w - self.pool_size) / (self.stride as int) + 1) as nat
    }

    /// The window of output pixel `(oh, ow)` in channel `c`: the image pixels
    /// `(oh * stride + pi, ow * stride + pj)` for `pi, pj < pool_size`, taken
    /// row by row.
    pub open spec fn window<T>(&self, input: &Tensor<T>, in_w: nat, oh: int, ow: int, c: int) -> Seq<
        T,
    > {
        Seq::new(
            (self.pool_size * self.pool_size) as nat,
            |t: int|
                input.at(
                    (oh * self.stride + t / (self.pool_size as int)) * in_w + (ow * self.stride + t
                        % (self.pool_size as int)),
                    c,
                ),
        )
    }

    /// Pooling accepts an `in_h × in_w` image in `input`: `input` holds
    /// `in_h * in_w` rows, the stride is positive, the window fits in the
    /// image, and the sizes fit in memory.
    pub open spec fn accepts<T>(&self, input: &Tensor<T>, in_h: nat, in_w: nat) -> bool {
        &&& self.stride > 0
        &&& in_h * in_w <= usize::MAX
        &&& input.nrows() == in_h * in_w
        &&& self.pool_size <= in_h
        &&& self.pool_size <= in_w
        &&& self.out_h(in_h) <= usize::MAX
        &&& self.out_w(in_w) <= usize::MAX
        &&& self.out_h(in_h) * self.out_w(in_w) <= usize::MAX
        &&& self.out_h(in_h) * self.out_w(in_w) * input.ncols() <= usize::MAX
    }

    /// The windows that pooling reduces: returns the output height, the output
    /// width, and for output pixel `(oh, ow)` (at flat index `oh * out_w + ow`)
    /// and channel `c` the values of its window, row by row.
    pub fn windows<T: Copy>(&self, input: &Tensor<T>, in_h: usize, in_w: usize) -> (res: (
        usize,
        usize,
        Vec<Vec<Vec<T>>>,
    ))
        requires
            self.accepts(input, in_h as nat, in_w as nat),
        ensures
            res.0 == self.out_h(in_h as nat),
            res.1 == self.out_w(in_w as nat),
            res.2@.len() == res.0 * res.1,
            forall|oh: int, ow: int|
                0 <= oh < res.0 && 0 <= ow < res.1 ==> #[trigger] res.2@[oh * res.1 + ow]@.len()
                    == input.ncols(),
            forall|oh: int, ow: int, c: int|
                0 <= oh < res.0 && 0 <= ow < res.1 && 0 <= c < input.ncols() ==> #[trigger] res.2@[oh
                    * res.1 + ow]@[c]@ == self.window(input, in_w as nat, oh, ow, c),
    {
        let out_h = (in_h - self.pool_size) / self.stride + 1;
        let out_w = (in_w - self.pool_size) / self.stride + 1;
        let channels = input.cols();
        let mut result: Vec<Vec<Vec<T>>> = Vec::new();
        let mut oh: usize = 0;
        while oh < out_h
            invariant
                oh <= out_h,
                out_h == self.out_h(in_h as nat),
                out_w == self.out_w(in_w as nat),
                channels == input.ncols(),
                self.accepts(input, in_h as nat, in_w as nat),
                result@.len() == oh * out_w,
                forall|r: int|
                    0 <= r < result@.len() ==> #[trigger] result@[r]@.len() == channels,
                forall|r: int, c: int|
                    0 <= r < result@.len() && 0 <= c < channels ==> #[trigger] result@[r]@[c]@
                        == self.window(input, in_w as nat, r / (out_w as int), r % (out_w as int), c),
            decreases out_h - oh,
        {
            let mut ow: usize = 0;
            while ow < out_w
                invariant
                    oh < out_h,
                    ow <= out_w,
                    out_h == self.out_h(in_h as nat),
                    out_w == self.out_w(in_w as nat),
                    channels == input.ncols(),
                    self.accepts(input, in_h as nat, in_w as nat),
                    result@.len() == oh * out_w + ow,
                    forall|r: int|
                        0 <= r < result@.len() ==> #[trigger] result@[r]@.len() == channels,
                    forall|r: int, c: int|
                        0 <= r < result@.len() && 0 <= c < channels ==> #[trigger] result@[r]@[c]@
                            == self.window(input, in_w as nat, r / (out_w as int), r % (out_w as int), c),
                decreases out_w - ow,
            {
                let cell = self.cell_windows(input, in_h, in_w, oh, ow);
                proof {
                    crate::tensor::lemma_split_index(oh as int, ow as int, out_w as int);
                }
                result.push(cell);
                ow += 1;
            }
            proof {
                assert(oh * out_w + out_w == (oh + 1) * out_w) by (nonlinear_arith);
            }
            oh += 1;
        }
        assert forall|oh: int, ow: int|
            0 <= oh < out_h && 0 <= ow < out_w implies #[trigger] result@[oh * out_w + ow]@.len()
            == input.ncols() by {
            crate::tensor::lemma_index_in_bounds(oh, ow, out_h as int, out_w as int);
        }
        assert forall|oh: int, ow: int, c: int|
            0 <= oh < out_h && 0 <= ow < out_w && 0 <= c < input.ncols() implies #[trigger] result@[oh
                * out_w + ow]@[c]@ == self.window(input, in_w as nat, oh, ow, c) by {
            crate::tensor::lemma_index_in_bounds(oh, ow, out_h as int, out_w as int);
            crate::tensor::lemma_split_index(oh, ow, out_w as int);
        }
        (out_h, out_w, result)
    }

    /// The windows of output pixel `(oh, ow)`, one per channel.
    fn cell_windows<T: Copy>(&self, input: &Tensor<T>, in_h: usize, in_w: usize, oh: usize, ow: usize) -> (cell: Vec<Vec<T>>)
        requires
            self.accepts(input, in_h as nat, in_w as nat),
            oh < self.out_h(in_h as nat),
            ow < self.out_w(in_w as nat),
        ensures
            cell@.len() == input.ncols(),
            forall|c: int|
                0 <= c < input.ncols() ==> #[trigger] cell@[c]@ == self.window(
                    input,
                    in_w as nat,
                    oh as int,
                    ow as int,
                    c,
                ),
    {
        let channels = input.cols();
        let ps = self.pool_size;
        let stride = self.stride;
        proof {
            lemma_below_quotient(oh as int, (in_h - ps) as int, stride as int);
            lemma_below_quotient(ow as int, (in_w - ps) as int, stride as int);
        }
        let base_h = oh * stride;
        let base_w = ow * stride;
        let mut cell: Vec<Vec<T>> = Vec::new();
        let mut c: usize = 0;
        while c < channels
            invariant
                c <= channels,
                channels == input.ncols(),
                ps == self.pool_size,
                stride == self.stride,
                self.accepts(input, in_h as nat, in_w as nat),
                base_h == oh * stride,
                base_w == ow * stride,
                base_h + ps <= in_h,
                base_w + ps <= in_w,
                cell@.len() == c,
                forall|a: int|
                    0 <= a < c ==> #[trigger] cell@[a]@ == self.window(
                        input,
                        in_w as nat,
                        oh as int,
                        ow as int,
                        a,
                    ),
            decreases channels - c,
        {
            let mut vals: Vec<T> = Vec::new();
            let mut pi: usize = 0;
            while pi < ps
                invariant
                    c < channels,
                    pi <= ps,
                    channels == input.ncols(),
                    ps == self.pool_size,
                    stride == self.stride,
                    self.accepts(input, in_h as nat, in_w as nat),
                    base_h == oh * stride,
                    base_w == ow * stride,
                    base_h + ps <= in_h,
                    base_w + ps <= in_w,
                    vals@.len() == pi * ps,
                    forall|t: int|
                        0 <= t < vals@.len() ==> #[trigger] vals@[t] == self.window(
                            input,
                            in_w as nat,
                            oh as int,
                            ow as int,
                            c as int,
                        )[t],
                decreases ps - pi,
            {
                let mut pj: usize = 0;
                while pj < ps
                    invariant
                        c < channels,
                        pi < ps,
                        pj <= ps,
                        channels == input.ncols(),
                        ps == self.pool_size,
                        stride == self.stride,
                        self.accepts(input, in_h as nat, in_w as nat),
                        base_h == oh * stride,
                        base_w == ow * stride,
                        base_h + ps <= in_h,
                        base_w + ps <= in_w,
                        vals@.len() == pi * ps + pj,
                        forall|t: int|
                            0 <= t < vals@.len() ==> #[trigger] vals@[t] == self.window(
                                input,
                                in_w as nat,
                                oh as int,
                                ow as int,
                                c as int,
                            )[t],
                    decreases ps - pj,
                {
                    let ih = base_h + pi;
                    let iw = base_w + pj;
                    proof {
                        crate::tensor::lemma_index_in_bounds(ih as int, iw as int, in_h as int, in_w as int);
                        crate::tensor::lemma_split_index(pi as int, pj as int, ps as int);
                        crate::tensor::lemma_index_in_bounds(pi as int, pj as int, ps as int, ps as int);
                    }
                    let x = input.get(ih * in_w + iw, c);
                    vals.push(x);
                    pj += 1;
                }
                proof {
                    assert(pi * ps + ps == (pi + 1) * ps) by (nonlinear_arith);
                }
                pi += 1;
            }
            proof {
                assert(vals@ =~= self.window(input, in_w as nat, oh as int, ow as int, c as int));
            }
            cell.push(vals);
            c += 1;
        }
        cell
    }
}

impl<T: Copy> Clone for Conv1D<T> {
    /// A layer with the same kernel, stride and padding.
    fn clone(&self) -> (r: Conv1D<T>)
        ensures
            r.kernel.same_as(&self.kernel),
            r.stride == self.stride,
            r.padding == self.padding,
    {
        Conv1D { kernel: self.kernel.clone(), stride: self.stride, padding: self.padding }
    }
}

impl<T: Copy> Clone for Conv2D<T> {
    /// A layer with the same kernel, stride and padding.
    fn clone(&self) -> (r: Conv2D<T>)
        ensures
            r.kernel.same_as(&self.kernel),
            r.stride == self.stride,
            r.padding == self.padding,
    {
        Conv2D { kernel: self.kernel.clone(), stride: self.stride, padding: self.padding }
    }
}

/// With stride 1 and a kernel of odd size `2 * padding + 1` ("same" padding),
/// a 1D convolution keeps the input length.
pub proof fn law_conv1d_same_padding<T>(conv: &Conv1D<T>, seq_len: nat)
    requires
        conv.stride == 1,
        conv.kernel.nrows() == 2 * conv.padding + 1,
    ensures
        conv.out_len(seq_len) == seq_len,
{
}

/// With stride 1 and a kernel of odd sizes `2 * padding + 1` ("same" padding),
/// a 2D convolution keeps the image size.
pub proof fn law_conv2d_same_padding<T>(conv: &Conv2D<T>, in_h: nat, in_w: nat)
    requires
        conv.stride == 1,
        conv.kernel.nrows() == 2 * conv.padding + 1,
        conv.kernel.ncols() == 2 * conv.padding + 1,
    ensures
        conv.out_h(in_h) == in_h,
        conv.out_w(in_w) == in_w,
{
}

/// Pooling with non-overlapping windows (stride equal to the window size)
/// divides each side of the image by the window size.
pub proof fn law_pool_tiles(pool: &Pool2D, in_h: nat, in_w: nat)
    requires
        pool.stride == pool.pool_size,
        pool.pool_size > 0,
        pool.pool_size <= in_h,
        pool.pool_size <= in_w,
    ensures
        pool.out_h(in_h) == (in_h as int) / (pool.pool_size as int),
        pool.out_w(in_w) == (in_w as int) / (pool.pool_size as int),
{
    let p = pool.pool_size as int;
    vstd::arithmetic::div_mod::lemma_div_plus_one(in_h - p, p);
    vstd::arithmetic::div_mod::lemma_div_plus_one(in_w - p, p);
}

/// A 1D convolution with a single tap, stride 1 and no padding multiplies each
/// input element by the kernel entry of its channel: output `(i, c)` adds up
/// the single product `input[i][c] * kernel[0][c]`.
pub proof fn law_conv1d_pointwise<T: core::ops::Mul<Output = T>>(
    conv: &Conv1D<T>,
    input: &Tensor<T>,
    i: int,
    c: int,
)
    requires
        conv.kernel.nrows() == 1,
        conv.stride == 1,
        conv.padding == 0,
        0 <= i < input.nrows(),
        0 <= c < input.ncols(),
    ensures
        conv.out_len(input.nrows()) == input.nrows(),
        conv.pairs(input, i, c).len() == 1,
        products(conv.pairs(input, i, c)) == seq![input.at(i, c).mul_spec(conv.kernel.at(0, c))],
{
    assert(conv.tap_inside(input.nrows(), i, 0));
    assert(conv.pairs_upto(input, i, c, 0) =~= Seq::empty());
    assert(conv.pairs(input, i, c) =~= seq![(input.at(i, c), conv.kernel.at(0, c))]);
}

/// The first kernel tap that falls on the input, for a window that starts at
/// padded position `start`: taps before `padding - start` read padding.
pub open spec fn first_inside_tap(start: int, padding: int) -> int {
    if padding > start {
        padding - start
    } else {
        0
    }
}

/// One past the last kernel tap (of `ksize`) that falls on an input of length
/// `len`, for a window that starts at padded position `start`.
pub open spec fn end_inside_tap(start: int, padding: int, len: int, ksize: int) -> int {
    if len + padding - start < ksize {
        len + padding - start
    } else {
        ksize
    }
}

/// The number of integers in `lo .. hi`.
pub open spec fn span(lo: int, hi: int) -> nat {
    if hi > lo {
        (hi - lo) as nat
    } else {
        0
    }
}

/// The smaller of `a` and `b`.
pub open spec fn min_int(a: int, b: int) -> int {
    if a < b {
        a
    } else {
        b
    }
}

proof fn lemma_conv1d_taps_upto<T>(conv: &Conv1D<T>, input: &Tensor<T>, i: int, c: int, k: nat)
    requires
        k <= conv.kernel.nrows(),
    ensures
        ({
            let start = i * conv.stride;
            let lo = first_inside_tap(start, conv.padding as int);
            let hi = end_inside_tap(
                start,
                conv.padding as int,
                input.nrows() as int,
                conv.kernel.nrows() as int,
            );
            let ps = conv.pairs_upto(input, i, c, k);
            &&& ps.len() == span(lo, min_int(k as int, hi))
            &&& forall|m: int|
                0 <= m < ps.len() ==> #[trigger] ps[m] == (
                    input.at(start + lo + m - conv.padding, c),
                    conv.kernel.at(lo + m, c),
                )
        }),
    decreases k,
{
    if k > 0 {
        lemma_conv1d_taps_upto(conv, input, i, c, (k - 1) as nat);
    }
}

/// Which elements output `(i, c)` of a 1D convolution multiplies: the kernel
/// taps `k` from `lo` up to (not including) `hi` fall on the input, where `lo`
/// and `hi` cut the window `i * stride - padding ..` to the input; tap `lo + m`
/// pairs input row `i * stride + lo + m - padding` with kernel element
/// `(lo + m, c)`, in increasing order of `m`.
pub proof fn law_conv1d_taps<T>(conv: &Conv1D<T>, input: &Tensor<T>, i: int, c: int)
    ensures
        ({
            let start = i * conv.stride;
            let lo = first_inside_tap(start, conv.padding as int);
            let hi = end_inside_tap(
                start,
                conv.padding as int,
                input.nrows() as int,
                conv.kernel.nrows() as int,
            );
            let ps = conv.pairs(input, i, c);
            &&& ps.len() == span(lo, hi)
            &&& forall|m: int|
                0 <= m < ps.len() ==> #[trigger] ps[m] == (
                    input.at(start + lo + m - conv.padding, c),
                    conv.kernel.at(lo + m, c),
                )
        }),
{
    lemma_conv1d_taps_upto(conv, input, i, c, conv.kernel.nrows());
}

/// The pair (image pixel, kernel element) that output `(oh, ow)` forms with
/// kernel element `(a, b)`: the kernel placed at `(oh * stride - padding,
/// ow * stride - padding)` puts `(a, b)` over image pixel
/// `(oh * stride + a - padding, ow * stride + b - padding)`.
pub open spec fn conv2d_tap_pair<T>(
    conv: &Conv2D<T>,
    input: &Tensor<T>,
    in_w: nat,
    oh: int,
    ow: int,
    a: int,
    b: int,
) -> (T, T) {
    (
        input.at(
            (oh * conv.stride + a - conv.padding) * in_w + (ow * conv.stride + b - conv.padding),
            0,
        ),
        conv.kernel.at(a, b),
    )
}

/// The pairs that kernel row `ki` contributes, for the columns `lo_c .. e`
/// (none when row `ki` falls on the padding).
pub open spec fn conv2d_row_part<T>(
    conv: &Conv2D<T>,
    input: &Tensor<T>,
    in_h: nat,
    in_w: nat,
    oh: int,
    ow: int,
    ki: int,
    e: int,
) -> Seq<(T, T)> {
    let lo_r = first_inside_tap(oh * conv.stride, conv.padding as int);
    let hi_r = end_inside_tap(
        oh * conv.stride,
        conv.padding as int,
        in_h as int,
        conv.kernel.nrows() as int,
    );
    let lo_c = first_inside_tap(ow * conv.stride, conv.padding as int);
    if lo_r <= ki < hi_r {
        Seq::new(span(lo_c, e), |b: int| conv2d_tap_pair(conv, input, in_w, oh, ow, ki, lo_c + b))
    } else {
        Seq::empty()
    }
}

/// The pairs of the kernel rows before `ki`, row by row.
pub open spec fn conv2d_rect<T>(
    conv: &Conv2D<T>,
    input: &Tensor<T>,
    in_h: nat,
    in_w: nat,
    oh: int,
    ow: int,
    ki: int,
) -> Seq<(T, T)> {
    let lo_r = first_inside_tap(oh * conv.stride, conv.padding as int);
    let hi_r = end_inside_tap(
        oh * conv.stride,
        conv.padding as int,
        in_h as int,
        conv.kernel.nrows() as int,
    );
    let lo_c = first_inside_tap(ow * conv.stride, conv.padding as int);
    let hi_c = end_inside_tap(
        ow * conv.stride,
        conv.padding as int,
        in_w as int,
        conv.kernel.ncols() as int,
    );
    let nc = span(lo_c, hi_c);
    Seq::new(
        span(lo_r, min_int(ki, hi_r)) * nc,
        |m: int| conv2d_tap_pair(conv, input, in_w, oh, ow, lo_r + m / (nc as int), lo_c + m % (nc as int)),
    )
}

proof fn lemma_conv2d_row<T>(
    conv: &Conv2D<T>,
    input: &Tensor<T>,
    in_h: nat,
    in_w: nat,
    oh: int,
    ow: int,
    ki: nat,
    kj: nat,
)
    requires
        ki < conv.kernel.nrows(),
        kj <= conv.kernel.ncols(),
        conv.kernel.ncols() > 0,
    ensures
        conv.pairs_upto(input, in_h, in_w, oh, ow, ki * conv.kernel.ncols() + kj) == conv.pairs_upto(
            input,
            in_h,
            in_w,
            oh,
            ow,
            ki * conv.kernel.ncols(),
        ) + conv2d_row_part(
            conv,
            input,
            in_h,
            in_w,
            oh,
            ow,
            ki as int,
            min_int(
                kj as int,
                end_inside_tap(
                    ow * conv.stride,
                    conv.padding as int,
                    in_w as int,
                    conv.kernel.ncols() as int,
                ),
            ),
        ),
    decreases kj,
{
    let kw = conv.kernel.ncols();
    let base = conv.pairs_upto(input, in_h, in_w, oh, ow, ki * kw);
    let hi_c = end_inside_tap(ow * conv.stride, conv.padding as int, in_w as int, kw as int);
    if kj == 0 {
        assert(conv2d_row_part(conv, input, in_h, in_w, oh, ow, ki as int, min_int(0, hi_c))
            =~= Seq::empty());
        assert(base + Seq::<(T, T)>::empty() =~= base);
    } else {
        let k = (kj - 1) as nat;
        lemma_conv2d_row(conv, input, in_h, in_w, oh, ow, ki, k);
        let t: int = (ki * kw + k) as int;
        crate::tensor::lemma_split_index(ki as int, k as int, kw as int);
        assert(conv.tap_row(t) == ki);
        assert(conv.tap_col(t) == k);
        assert(t + 1 == ki * kw + kj);
        let prev = conv2d_row_part(conv, input, in_h, in_w, oh, ow, ki as int, min_int(k as int, hi_c));
        let next = conv2d_row_part(conv, input, in_h, in_w, oh, ow, ki as int, min_int(kj as int, hi_c));
        if conv.tap_inside(in_h, in_w, oh, ow, t) {
            assert(next =~= prev.push(conv2d_tap_pair(conv, input, in_w, oh, ow, ki as int, k as int)));
            assert(base + next =~= (base + prev).push(
                conv2d_tap_pair(conv, input, in_w, oh, ow, ki as int, k as int),
            ));
        } else {
            assert(next =~= prev);
        }
    }
}

proof fn lemma_conv2d_rect<T>(
    conv: &Conv2D<T>,
    input: &Tensor<T>,
    in_h: nat,
    in_w: nat,
    oh: int,
    ow: int,
    ki: nat,
)
    requires
        ki <= conv.kernel.nrows(),
        conv.kernel.ncols() > 0,
    ensures
        conv.pairs_upto(input, in_h, in_w, oh, ow, ki * conv.kernel.ncols()) == conv2d_rect(
            conv,
            input,
            in_h,
            in_w,
            oh,
            ow,
            ki as int,
        ),
    decreases ki,
{
    let kw = conv.kernel.ncols();
    let lo_r = first_inside_tap(oh * conv.stride, conv.padding as int);
    let hi_r = end_inside_tap(
        oh * conv.stride,
        conv.padding as int,
        in_h as int,
        conv.kernel.nrows() as int,
    );
    let lo_c = first_inside_tap(ow * conv.stride, conv.padding as int);
    let hi_c = end_inside_tap(ow * conv.stride, conv.padding as int, in_w as int, kw as int);
    let nc = span(lo_c, hi_c);
    if ki == 0 {
        assert(0 * kw == 0);
        assert(conv2d_rect(conv, input, in_h, in_w, oh, ow, 0) =~= Seq::empty());
    } else {
        let r = (ki - 1) as nat;
        lemma_conv2d_rect(conv, input, in_h, in_w, oh, ow, r);
        lemma_conv2d_row(conv, input, in_h, in_w, oh, ow, r, kw);
        assert(r * kw + kw == ki * kw) by (nonlinear_arith)
            requires
                r + 1 == ki,
        ;
        let prev = conv2d_rect(conv, input, in_h, in_w, oh, ow, r as int);
        let next = conv2d_rect(conv, input, in_h, in_w, oh, ow, ki as int);
        let row = conv2d_row_part(conv, input, in_h, in_w, oh, ow, r as int, min_int(kw as int, hi_c));
        assert(min_int(kw as int, hi_c) == hi_c);
        if lo_r <= r < hi_r {
            let rb = span(lo_r, min_int(r as int, hi_r));
            assert(rb == r - lo_r);
            assert(span(lo_r, min_int(ki as int, hi_r)) == rb + 1);
            assert((rb + 1) * nc == rb * nc + nc) by (nonlinear_arith);
            assert forall|m: int| 0 <= m < next.len() implies #[trigger] next[m] == (prev + row)[m] by {
                if m < rb * nc {
                    assert(next[m] == prev[m]);
                } else {
                    let b = m - rb * nc;
                    crate::tensor::lemma_split_index(rb as int, b, nc as int);
                    assert(m == rb * nc + b);
                    assert(next[m] == row[b]);
                }
            }
            assert(next =~= prev + row);
        } else {
            assert(span(lo_r, min_int(ki as int, hi_r)) == span(lo_r, min_int(r as int, hi_r)));
            assert(row =~= Seq::empty());
            assert(forall|m: int| 0 <= m < next.len() ==> #[trigger] next[m] == prev[m]);
            assert(next =~= prev + row);
        }
    }
}

/// Which pixels output `(oh, ow)` of a 2D convolution multiplies: the kernel
/// rows `lo_r .. hi_r` and columns `lo_c .. hi_c` fall on the image (the
/// window `oh * stride - padding ..`, `ow * stride - padding ..` cut to the
/// image); the pairs come row by row over that rectangle, and the pair at
/// position `a * (hi_c - lo_c) + b` multiplies image pixel
/// `(oh * stride + lo_r + a - padding, ow * stride + lo_c + b - padding)` by
/// kernel element `(lo_r + a, lo_c + b)`.
pub proof fn law_conv2d_taps<T>(
    conv: &Conv2D<T>,
    input: &Tensor<T>,
    in_h: nat,
    in_w: nat,
    oh: int,
    ow: int,
)
    ensures
        ({
            let lo_r = first_inside_tap(oh * conv.stride, conv.padding as int);
            let hi_r = end_inside_tap(
                oh * conv.stride,
                conv.padding as int,
                in_h as int,
                conv.kernel.nrows() as int,
            );
            let lo_c = first_inside_tap(ow * conv.stride, conv.padding as int);
            let hi_c = end_inside_tap(
                ow * conv.stride,
                conv.padding as int,
                in_w as int,
                conv.kernel.ncols() as int,
            );
            let ps = conv.pairs(input, in_h, in_w, oh, ow);
            &&& ps.len() == span(lo_r, hi_r) * span(lo_c, hi_c)
            &&& forall|a: int, b: int|
                0 <= a < span(lo_r, hi_r) && 0 <= b < span(lo_c, hi_c) ==> #[trigger] ps[a * span(
                    lo_c,
                    hi_c,
                ) + b] == (
                    input.at(
                        (oh * conv.stride + lo_r + a - conv.padding) * in_w + (ow * conv.stride
                            + lo_c + b - conv.padding),
                        0,
                    ),
                    conv.kernel.at(lo_r + a, lo_c + b),
                )
        }),
{
    let kh = conv.kernel.nrows();
    let kw = conv.kernel.ncols();
    let lo_r = first_inside_tap(oh * conv.stride, conv.padding as int);
    let hi_r = end_inside_tap(oh * conv.stride, conv.padding as int, in_h as int, kh as int);
    let lo_c = first_inside_tap(ow * conv.stride, conv.padding as int);
    let hi_c = end_inside_tap(ow * conv.stride, conv.padding as int, in_w as int, kw as int);
    let nc = span(lo_c, hi_c);
    let ps = conv.pairs(input, in_h, in_w, oh, ow);
    if kw == 0 {
        assert(kh * kw == 0) by (nonlinear_arith)
            requires
                kw == 0,
        ;
        assert(nc == 0);
        assert(span(lo_r, hi_r) * nc == 0) by (nonlinear_arith)
            requires
                nc == 0,
        ;
    } else {
        lemma_conv2d_rect(conv, input, in_h, in_w, oh, ow, kh);
        assert(min_int(kh as int, hi_r) == hi_r);
        assert forall|a: int, b: int|
            0 <= a < span(lo_r, hi_r) && 0 <= b < nc implies #[trigger] ps[a * nc + b] == (
            input.at(
                (oh * conv.stride + lo_r + a - conv.padding) * in_w + (ow * conv.stride + lo_c + b
                    - conv.padding),
                0,
            ),
            conv.kernel.at(lo_r + a, lo_c + b),
        ) by {
            crate::tensor::lemma_split_index(a, b, nc as int);
            crate::tensor::lemma_index_in_bounds(a, b, span(lo_r, hi_r) as int, nc as int);
        }
    }
}

} // verus!
