//! Fixed-point model of the audio stream. A sample is an `i32` in units of
//! one millionth of full scale, so an amplitude of 1.0 is `SAMPLE_FP_ONE`.
//! Energy comparisons against a threshold `t` are made exactly, without a
//! square root: `rms > t` iff `sum of squares > len * t * t`.
use vstd::arithmetic::div_mod::{lemma_div_is_ordered, lemma_div_multiples_vanish,
    lemma_div_pos_is_pos, lemma_fundamental_div_mod, lemma_mod_bound};
use vstd::arithmetic::mul::lemma_mul_upper_bound;
use vstd::prelude::*;

verus! {

/// Fixed-point value of a full-scale (1.0) sample.
pub const SAMPLE_FP_ONE: i32 = 1_000_000;

/// Largest sample magnitude the gain stage accepts; leaves room for the
/// user gain (a factor of at most 2) inside `i32`.
pub const SAMPLE_FP_MAX: i32 = 1_000_000_000;

/// Sum of the squares of the samples (in squared fixed-point units).
pub open spec fn sum_sq(s: Seq<i32>) -> int
    decreases s.len(),
{
    if s.len() == 0 {
        0
    } else {
        sum_sq(s.subrange(0, s.len() - 1)) + s[s.len() - 1] * s[s.len() - 1]
    }
}

proof fn lemma_sum_sq_bound(s: Seq<i32>)
    ensures
        0 <= sum_sq(s) <= s.len() * 0x4000_0000_0000_0000,
    decreases s.len(),
{
    if s.len() > 0 {
        let t = s.subrange(0, s.len() - 1);
        lemma_sum_sq_bound(t);
        let x = s[s.len() - 1] as int;
        assert(0 <= x * x <= 0x4000_0000_0000_0000) by (nonlinear_arith)
            requires
                -0x8000_0000 <= x <= 0x7fff_ffff,
        ;
        assert(t.len() * 0x4000_0000_0000_0000 + 0x4000_0000_0000_0000 == s.len()
            * 0x4000_0000_0000_0000) by (nonlinear_arith)
            requires
                t.len() + 1 == s.len(),
        ;
    }
}

/// The exact sum of squares of a frame.
pub fn sum_squares(s: &Vec<i32>) -> (r: u128)
    ensures
        r == sum_sq(s@),
{
    let mut r: u128 = 0;
    let mut i: usize = 0;
    while i < s.len()
        invariant
            i <= s.len(),
            r == sum_sq(s@.take(i as int)),
            r <= i * 0x4000_0000_0000_0000,
        decreases s.len() - i,
    {
        let x = s[i] as i64;
        proof {
            assert(0 <= (x as int) * (x as int) <= 0x4000_0000_0000_0000) by (nonlinear_arith)
                requires
                    -0x8000_0000 <= x as int <= 0x7fff_ffff,
            ;
            assert(i * 0x4000_0000_0000_0000 + 0x4000_0000_0000_0000 == (i + 1)
                * 0x4000_0000_0000_0000) by (nonlinear_arith);
            assert((i + 1) * 0x4000_0000_0000_0000 <= 0x1_0000_0000_0000_0000
                * 0x4000_0000_0000_0000) by (nonlinear_arith)
                requires
                    i + 1 <= 0x1_0000_0000_0000_0000,
            ;
        }
        let sq: i64 = x * x;
        r = r + (sq as u128);
        i = i + 1;
        proof {
            assert(s@.take(i as int).subrange(0, i - 1) =~= s@.take(i - 1));
        }
    }
    proof {
        assert(s@.take(s@.len() as int) =~= s@);
    }
    r
}

proof fn lemma_energy_bound_fits(len: int, thr: int)
    requires
        0 <= len < 0x1_0000_0000_0000_0000,
        0 <= thr < 0x1_0000_0000,
    ensures
        0 <= len * thr <= 0xffff_ffff_ffff_ffff * 0xffff_ffff,
        0 <= (len * thr) * thr < 0x1_0000_0000_0000_0000_0000_0000_0000_0000,
        (len * thr) * thr == len * (thr * thr),
{
    lemma_mul_upper_bound(len, 0xffff_ffff_ffff_ffff, thr, 0xffff_ffff);
    assert(len * thr >= 0) by (nonlinear_arith)
        requires
            len >= 0,
            thr >= 0,
    ;
    lemma_mul_upper_bound(len * thr, (0xffff_ffff_ffff_ffff * 0xffff_ffff) as int, thr,
        0xffff_ffff);
    assert((len * thr) * thr >= 0) by (nonlinear_arith)
        requires
            len * thr >= 0,
            thr >= 0,
    ;
    assert((len * thr) * thr == len * (thr * thr)) by (nonlinear_arith);
}

/// Root-mean-square of the frame is strictly below the threshold
/// (an empty frame counts as silent: its RMS is zero).
pub open spec fn frame_is_silent(s: Seq<i32>, thr: u32) -> bool {
    s.len() == 0 || sum_sq(s) < s.len() * (thr * thr)
}

/// Root-mean-square of the frame is strictly above the threshold.
pub open spec fn frame_has_speech(s: Seq<i32>, thr: u32) -> bool {
    sum_sq(s) > s.len() * (thr * thr)
}

/// Decides `rms < thr` exactly on the fixed-point frame.
pub fn is_silent_frame(s: &Vec<i32>, thr: u32) -> (r: bool)
    ensures
        r == frame_is_silent(s@, thr),
{
    if s.len() == 0 {
        return true;
    }
    let n = s.len();
    let sum = sum_squares(s);
    proof {
        lemma_energy_bound_fits(n as int, thr as int);
    }
    let bound: u128 = (n as u128) * (thr as u128) * (thr as u128);
    sum < bound
}

/// Decides `rms > thr` exactly on the fixed-point frame.
pub fn has_speech_frame(s: &Vec<i32>, thr: u32) -> (r: bool)
    ensures
        r == frame_has_speech(s@, thr),
{
    let n = s.len();
    let sum = sum_squares(s);
    proof {
        lemma_energy_bound_fits(n as int, thr as int);
    }
    let bound: u128 = (n as u128) * (thr as u128) * (thr as u128);
    sum > bound
}

/// The mean of the squares of the samples (zero for an empty frame); the
/// quantity whose square root is the frame's RMS.
pub open spec fn mean_sq(s: Seq<i32>) -> int {
    if s.len() == 0 {
        0
    } else {
        sum_sq(s) / s.len() as int
    }
}

/// The mean square of the frame, for the detector's rolling energy buffer.
pub fn mean_square(s: &Vec<i32>) -> (r: u64)
    ensures
        r == mean_sq(s@),
{
    if s.len() == 0 {
        return 0;
    }
    let sum = sum_squares(s);
    proof {
        lemma_sum_sq_bound(s@);
        let n = s@.len() as int;
        lemma_div_pos_is_pos(sum as int, n);
        lemma_mul_upper_bound(n, 0x1_0000_0000_0000_0000, 0x4000_0000_0000_0000,
            0x4000_0000_0000_0000);
        lemma_div_is_ordered(sum as int, n * 0x4000_0000_0000_0000, n);
        lemma_div_multiples_vanish(0x4000_0000_0000_0000, n);
    }
    (sum / (s.len() as u128)) as u64
}

/// Integer division truncating toward zero, as Rust's `/` on machine
/// integers behaves.
pub open spec fn tdiv(a: int, b: int) -> int {
    if a >= 0 {
        a / b
    } else {
        -((-a) / b)
    }
}

proof fn lemma_tdiv_range(sm: int, d: int)
    requires
        0 < d,
        -(d * 0x8000_0000) <= sm <= d * 0x7fff_ffff,
    ensures
        -0x8000_0000 <= tdiv(sm, d) <= 0x7fff_ffff,
        sm >= 0 ==> tdiv(sm, d) == sm / d,
        sm < 0 ==> tdiv(sm, d) == -((-sm) / d),
{
    if sm >= 0 {
        lemma_div_pos_is_pos(sm, d);
        lemma_div_is_ordered(sm, d * 0x7fff_ffff, d);
        lemma_div_multiples_vanish(0x7fff_ffff, d);
    } else {
        lemma_div_pos_is_pos(-sm, d);
        lemma_div_is_ordered(-sm, d * 0x8000_0000, d);
        lemma_div_multiples_vanish(0x8000_0000, d);
    }
}

/// Truncated quotient of a bounded numerator, as `i64` division computes it.
fn tdiv_i64(sum: i64, d: i64) -> (r: i32)
    requires
        1 <= d as int <= 0x1_0000_0000,
        -((d as int) * 0x8000_0000) <= sum as int <= (d as int) * 0x7fff_ffff,
    ensures
        r as int == tdiv(sum as int, d as int),
{
    proof {
        lemma_tdiv_range(sum as int, d as int);
        assert((d as int) * 0x8000_0000 <= 0x1_0000_0000 * 0x8000_0000 && (d as int)
            * 0x7fff_ffff <= 0x1_0000_0000 * 0x7fff_ffff) by (nonlinear_arith)
            requires
                1 <= d as int <= 0x1_0000_0000,
        ;
    }
    if sum >= 0 {
        let q: u64 = (sum as u64) / (d as u64);
        q as i32
    } else {
        let m: u64 = (-(sum as i128)) as u64;
        let q: u64 = m / (d as u64);
        let neg: i64 = -(q as i64);
        neg as i32
    }
}

/// Sum of `s[lo..hi]`.
pub open spec fn sum_range(s: Seq<i32>, lo: int, hi: int) -> int
    decreases hi - lo,
{
    if lo >= hi || lo < 0 || hi > s.len() {
        0
    } else {
        sum_range(s, lo, hi - 1) + s[hi - 1]
    }
}

/// The mono sample for output frame `i`: the truncated average of the
/// `ch` channel samples of that frame.
pub open spec fn downmix_at(s: Seq<i32>, ch: int, i: int) -> int {
    tdiv(sum_range(s, ch * i, ch * i + ch), ch)
}

/// Downmix interleaved multi-channel audio to mono by averaging each frame's
/// channels, exactly as stated by `downmix_at`.
pub fn downmix(s: &Vec<i32>, channels: usize) -> (r: Vec<i32>)
    requires
        1 <= channels <= 65536,
    ensures
        r@.len() == s@.len() as int / channels as int,
        forall|i: int| 0 <= i < r@.len() ==> r@[i] == downmix_at(s@, channels as int, i),
{
    let n = s.len() / channels;
    let mut r: Vec<i32> = Vec::new();
    let mut i: usize = 0;
    proof {
        lemma_fundamental_div_mod(s@.len() as int, channels as int);
        lemma_mod_bound(s@.len() as int, channels as int);
    }
    while i < n
        invariant
            i <= n,
            n == s@.len() as int / channels as int,
            1 <= channels <= 65536,
            channels * n <= s@.len(),
            r@.len() == i,
            forall|k: int| 0 <= k < i ==> r@[k] == downmix_at(s@, channels as int, k),
        decreases n - i,
    {
        proof {
            assert(channels * i + channels <= channels * n) by (nonlinear_arith)
                requires
                    i < n,
                    channels >= 1,
            ;
            assert(channels * i >= 0) by (nonlinear_arith)
                requires
                    channels >= 0,
                    i >= 0,
            ;
        }
        let lo: usize = channels * i;
        let mut sum: i64 = 0;
        let mut j: usize = 0;
        while j < channels
            invariant
                j <= channels <= 65536,
                lo == channels * i,
                lo + channels <= s@.len(),
                sum == sum_range(s@, lo as int, lo + j),
                -((j as int) * 0x8000_0000) <= sum as int <= (j as int) * 0x7fff_ffff,
            decreases channels - j,
        {
            proof {
                assert((j + 1) * 0x8000_0000 == j * 0x8000_0000 + 0x8000_0000
                    && (j + 1) * 0x7fff_ffff == j * 0x7fff_ffff + 0x7fff_ffff)
                    by (nonlinear_arith);
                assert((j + 1) * 0x8000_0000 <= 0x1_0000_0 * 0x8000_0000 && (j + 1)
                    * 0x7fff_ffff <= 0x1_0000_0 * 0x7fff_ffff) by (nonlinear_arith)
                    requires
                        j + 1 <= 0x1_0000_0,
                ;
            }
            sum = sum + (s[lo + j] as i64);
            j = j + 1;
        }
        proof {
            assert((channels as int) * 0x8000_0000 <= 0x1_0000_0 * 0x8000_0000
                && (channels as int) * 0x7fff_ffff <= 0x1_0000_0 * 0x7fff_ffff)
                by (nonlinear_arith)
                requires
                    channels <= 0x1_0000_0,
            ;
        }
        let avg: i32 = tdiv_i64(sum, channels as i64);
        r.push(avg);
        i = i + 1;
    }
    r
}

/// The resampled value at output index `i` under linear interpolation:
/// source position `i * src / dst`, with the fractional part blending the
/// two bracketing source samples.
pub open spec fn resample_at(s: Seq<i32>, src: int, dst: int, i: int) -> int {
    let pos = i * src;
    let idx = pos / dst;
    let f = pos % dst;
    if idx + 1 < s.len() {
        tdiv(s[idx] * (dst - f) + s[idx + 1] * f, dst)
    } else if idx < s.len() {
        s[idx] as int
    } else {
        0
    }
}

/// Linear-interpolation resampling from `src_rate` to `dst_rate`.
/// The output has `floor(len * dst / src)` samples; each is the blend of
/// the two source samples bracketing its exact source position.
pub fn resample(s: &Vec<i32>, src_rate: u32, dst_rate: u32) -> (r: Vec<i32>)
    requires
        1 <= src_rate,
        1 <= dst_rate,
        s@.len() * dst_rate <= src_rate * (usize::MAX as int),
    ensures
        r@.len() == s@.len() as int * dst_rate as int / src_rate as int,
        forall|i: int| 0 <= i < r@.len() ==> r@[i] == resample_at(
            s@,
            src_rate as int,
            dst_rate as int,
            i,
        ),
{
    let n = s.len();
    let src = src_rate as u128;
    let dst = dst_rate as u128;
    proof {
        assert(s@.len() == n);
        let sl = s@.len() as int;
        let srci = src_rate as int;
        let dsti = dst_rate as int;
        assert(sl <= 0xffff_ffff_ffff_ffff);
        lemma_mul_upper_bound(sl, 0xffff_ffff_ffff_ffff, dsti, 0xffff_ffff);
        assert(sl * dsti >= 0) by (nonlinear_arith)
            requires
                sl >= 0,
                dsti >= 0,
        ;
        lemma_div_pos_is_pos(sl * dsti, srci);
        lemma_div_is_ordered(sl * dsti, srci * (usize::MAX as int), srci);
        lemma_div_multiples_vanish(usize::MAX as int, srci);
    }
    let prod: u128 = (s.len() as u128) * dst;
    let out_len_128: u128 = prod / src;
    let out_len: usize = out_len_128 as usize;
    let mut r: Vec<i32> = Vec::new();
    let mut i: usize = 0;
    while i < out_len
        invariant
            i <= out_len,
            out_len == s@.len() as int * dst_rate as int / src_rate as int,
            1 <= src_rate,
            1 <= dst_rate,
            src == src_rate as int,
            dst == dst_rate as int,
            r@.len() == i,
            forall|k: int| 0 <= k < i ==> r@[k] == resample_at(
                s@,
                src_rate as int,
                dst_rate as int,
                k,
            ),
        decreases out_len - i,
    {
        proof {
            assert(i as int <= 0xffff_ffff_ffff_ffff);
            lemma_mul_upper_bound(i as int, 0xffff_ffff_ffff_ffff, src_rate as int, 0xffff_ffff);
            assert((i as int) * (src_rate as int) >= 0) by (nonlinear_arith)
                requires
                    i >= 0,
                    src_rate as int >= 0,
            ;
        }
        let pos: u128 = (i as u128) * src;
        let idx128: u128 = pos / dst;
        let fr128: u128 = pos % dst;
        proof {
            let sl = s@.len() as int;
            let srci = src_rate as int;
            let dsti = dst_rate as int;
            let posi = (i as int) * srci;
            lemma_mod_bound(posi, dsti);
            lemma_div_pos_is_pos(posi, dsti);
            // i < floor(sl*dst/src) implies idx = floor(i*src/dst) < sl
            lemma_fundamental_div_mod(sl * dsti, srci);
            lemma_mod_bound(sl * dsti, srci);
            assert(posi <= (sl * dsti / srci - 1) * srci) by (nonlinear_arith)
                requires
                    i as int <= sl * dsti / srci - 1,
                    srci >= 1,
                    posi == (i as int) * srci,
            ;
            assert((sl * dsti / srci - 1) * srci < sl * dsti) by (nonlinear_arith)
                requires
                    sl * dsti == srci * (sl * dsti / srci) + (sl * dsti) % srci,
                    0 <= (sl * dsti) % srci,
                    srci >= 1,
            ;
            lemma_div_is_ordered(posi, sl * dsti - 1, dsti);
            lemma_fundamental_div_mod(sl * dsti - 1, dsti);
            lemma_mod_bound(sl * dsti - 1, dsti);
            assert((sl * dsti - 1) / dsti <= sl - 1) by (nonlinear_arith)
                requires
                    sl * dsti - 1 == dsti * ((sl * dsti - 1) / dsti) + (sl * dsti - 1) % dsti,
                    0 <= (sl * dsti - 1) % dsti < dsti,
                    dsti >= 1,
                    sl >= 0,
            ;
        }
        let idx: usize = idx128 as usize;
        let fr: i64 = fr128 as i64;
        let d: i64 = dst_rate as i64;
        let v: i32;
        if idx + 1 < s.len() {
            let a: i64 = s[idx] as i64;
            let b: i64 = s[idx + 1] as i64;
            proof {
                let ai = a as int;
                let bi = b as int;
                let fi = fr as int;
                let di = d as int;
                assert(-0x8000_0000_0000_0000 <= ai * (di - fi) <= 0x7fff_ffff_ffff_ffff
                    && -0x8000_0000_0000_0000 <= bi * fi <= 0x7fff_ffff_ffff_ffff && -(di
                    * 0x8000_0000) <= ai * (di - fi) + bi * fi <= di * 0x7fff_ffff && -(di
                    * 0x8000_0000) >= -0x8000_0000_0000_0000 && di * 0x7fff_ffff
                    <= 0x7fff_ffff_ffff_ffff) by (nonlinear_arith)
                    requires
                        -0x8000_0000 <= ai <= 0x7fff_ffff,
                        -0x8000_0000 <= bi <= 0x7fff_ffff,
                        0 <= fi < di,
                        1 <= di <= 0x1_0000_0000,
                ;
            }
            let sm: i64 = a * (d - fr) + b * fr;
            v = tdiv_i64(sm, d);
        } else {
            v = s[idx];
        }
        r.push(v);
        i = i + 1;
    }
    r
}

/// The gained value of one sample: `v * gain / 1000`, truncated toward zero.
pub open spec fn gained(v: int, gain_milli: int) -> int {
    tdiv(v * gain_milli, 1000)
}

/// Apply the user input gain, given in thousandths (1000 = unity, at most
/// 2000 for the configuration surface's 0.0–2.0 range).
pub fn apply_gain(s: &Vec<i32>, gain_milli: u32) -> (r: Vec<i32>)
    requires
        gain_milli <= 2000,
        forall|i: int| 0 <= i < s@.len() ==> -SAMPLE_FP_MAX <= #[trigger] s@[i] <= SAMPLE_FP_MAX,
    ensures
        r@.len() == s@.len(),
        forall|i: int| 0 <= i < r@.len() ==> r@[i] == gained(s@[i] as int, gain_milli as int),
{
    let mut r: Vec<i32> = Vec::new();
    let mut i: usize = 0;
    while i < s.len()
        invariant
            i <= s.len(),
            gain_milli <= 2000,
            forall|k: int| 0 <= k < s@.len() ==> -1_000_000_000 <= #[trigger] s@[k]
                <= 1_000_000_000,
            r@.len() == i,
            forall|k: int| 0 <= k < i ==> r@[k] == gained(s@[k] as int, gain_milli as int),
        decreases s.len() - i,
    {
        let v: i64 = s[i] as i64;
        let g: i64 = gain_milli as i64;
        proof {
            assert(-(1000 * 0x8000_0000) <= (v as int) * (g as int) <= 1000 * 0x7fff_ffff
                && -0x4000_0000_0000_0000 <= (v as int) * (g as int) <= 0x4000_0000_0000_0000)
                by (nonlinear_arith)
                requires
                    -1_000_000_000 <= v as int <= 1_000_000_000,
                    0 <= g as int <= 2000,
            ;
        }
        let out: i32 = tdiv_i64(v * g, 1000);
        r.push(out);
        i = i + 1;
    }
    r
}

} // verus!
