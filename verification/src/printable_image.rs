//! Bitmap-to-raster conversion and the printer's run-length compression.

use vstd::prelude::*;
use crate::error::PtouchError;

verus! {

// ---------------------------------------------------------------------------
// Run-length compression of one raster line.
//
// The byte-oriented scheme encodes a run of at least two identical bytes as a
// control byte holding the two's complement of `-(run_length - 1)` followed by
// the repeated byte, and a stretch without any such run as a control byte
// holding `length - 1` followed by the raw bytes. Scanning is greedy and
// prefers runs.
// ---------------------------------------------------------------------------

/// A repeat run starts at position `p` of `s`: the byte there equals the next.
pub open spec fn starts_run(s: Seq<u8>, p: int) -> bool {
    &&& 0 <= p
    &&& p + 1 < s.len()
    &&& s[p] == s[p + 1]
}

/// How many leading bytes of `s` equal its first byte.
pub open spec fn run_prefix_len(s: Seq<u8>) -> nat
    decreases s.len(),
{
    if s.len() == 0 {
        0
    } else if s.len() == 1 {
        1
    } else if s[1] == s[0] {
        (1 + run_prefix_len(s.skip(1))) as nat
    } else {
        1
    }
}

/// How many bytes the greedy scan takes as a repeat run at the head of `s`:
/// the run prefix capped at 255, or zero when no run starts there.
pub open spec fn spec_run_take(s: Seq<u8>) -> nat {
    if starts_run(s, 0) {
        if run_prefix_len(s) >= 255 {
            255
        } else {
            run_prefix_len(s)
        }
    } else {
        0
    }
}

/// How many bytes the greedy scan takes as a literal stretch at the head of
/// `s`: up to the first position where a repeat run starts, capped at 127.
pub open spec fn lit_prefix_len(s: Seq<u8>) -> nat
    decreases s.len(),
{
    if s.len() == 0 {
        0
    } else if starts_run(s, 0) {
        0
    } else if 1 + lit_prefix_len(s.skip(1)) >= 127 {
        127
    } else {
        (1 + lit_prefix_len(s.skip(1))) as nat
    }
}

/// The compressed form of `s` under the greedy run-length scheme.
pub open spec fn spec_compress(s: Seq<u8>) -> Seq<u8>
    decreases s.len(),
    via spec_compress_decreases
{
    if s.len() == 0 {
        Seq::empty()
    } else if starts_run(s, 0) {
        let l = spec_run_take(s) as int;
        seq![(257 - l) as u8, s[0]] + spec_compress(s.skip(l))
    } else {
        let l = lit_prefix_len(s) as int;
        seq![(l - 1) as u8] + s.take(l) + spec_compress(s.skip(l))
    }
}

#[via_fn]
proof fn spec_compress_decreases(s: Seq<u8>) {
    if s.len() > 0 {
        if starts_run(s, 0) {
            lemma_run_prefix_props(s);
            lemma_run_prefix_lower(s, 2);
        } else {
            lemma_lit_prefix_props(s);
        }
    }
}

/// What a decoder makes of a compressed stream: a control byte at 128 or
/// above repeats the following byte `257 - control` times; one below 128
/// copies the following `control + 1` bytes.
pub open spec fn spec_expand(s: Seq<u8>) -> Seq<u8>
    decreases s.len(),
{
    if s.len() == 0 {
        Seq::empty()
    } else if s[0] >= 128 {
        if s.len() >= 2 {
            Seq::new((257 - s[0]) as nat, |i: int| s[1]) + spec_expand(s.skip(2))
        } else {
            Seq::empty()
        }
    } else {
        let n = s[0] + 1;
        if s.len() >= 1 + n {
            s.subrange(1, 1 + n) + spec_expand(s.skip(1 + n))
        } else {
            s.skip(1)
        }
    }
}

/// 130 identical bytes stand consecutively in `s` starting at position `i`.
pub open spec fn long_run_at(s: Seq<u8>, i: int) -> bool {
    &&& 0 <= i
    &&& i + 130 <= s.len()
    &&& forall|j: int| i <= j < i + 130 ==> #[trigger] s[j] == s[i]
}

/// 130 identical consecutive bytes occur somewhere in `s`. The greedy
/// encoder then emits a run whose control byte is no longer negative as a
/// signed byte, and a sign-driven decoder misreads it.
pub open spec fn spec_has_long_run(s: Seq<u8>) -> bool {
    exists|i: int| long_run_at(s, i)
}

proof fn lemma_run_prefix_props(s: Seq<u8>)
    ensures
        run_prefix_len(s) <= s.len(),
        s.len() > 0 ==> run_prefix_len(s) >= 1,
        forall|j: int| 0 <= j < run_prefix_len(s) ==> #[trigger] s[j] == s[0],
        run_prefix_len(s) < s.len() ==> s[run_prefix_len(s) as int] != s[0],
    decreases s.len(),
{
    if s.len() >= 2 && s[1] == s[0] {
        let t = s.skip(1);
        lemma_run_prefix_props(t);
        assert forall|j: int| #![trigger s[j]] 0 <= j < run_prefix_len(s) implies s[j] == s[0] by {
            if j >= 1 {
                assert(t[j - 1] == s[j]);
                assert(t[j - 1] == t[0]);
            }
        }
        if run_prefix_len(s) < s.len() {
            assert(t[run_prefix_len(t) as int] != t[0]);
            assert(s[run_prefix_len(s) as int] == t[run_prefix_len(t) as int]);
        }
    }
}

proof fn lemma_run_prefix_lower(s: Seq<u8>, n: int)
    requires
        0 <= n <= s.len(),
        forall|j: int| 0 <= j < n ==> #[trigger] s[j] == s[0],
    ensures
        run_prefix_len(s) >= n,
    decreases n,
{
    if n >= 2 {
        let t = s.skip(1);
        assert(s[1] == s[0]);
        assert forall|j: int| #![trigger t[j]] 0 <= j < n - 1 implies t[j] == t[0] by {
            assert(t[j] == s[j + 1]);
            assert(t[0] == s[1]);
        }
        lemma_run_prefix_lower(t, n - 1);
    }
}

proof fn lemma_lit_prefix_props(s: Seq<u8>)
    ensures
        lit_prefix_len(s) <= s.len(),
        lit_prefix_len(s) <= 127,
        s.len() > 0 && !starts_run(s, 0) ==> lit_prefix_len(s) >= 1,
        forall|p: int| 0 <= p < lit_prefix_len(s) ==> !starts_run(s, p),
        lit_prefix_len(s) < s.len() && lit_prefix_len(s) < 127 ==> starts_run(
            s,
            lit_prefix_len(s) as int,
        ),
    decreases s.len(),
{
    if s.len() > 0 && !starts_run(s, 0) {
        let t = s.skip(1);
        lemma_lit_prefix_props(t);
        assert forall|p: int| 0 <= p < lit_prefix_len(s) implies !starts_run(s, p) by {
            if p >= 1 {
                assert(p - 1 < lit_prefix_len(t));
                assert(!starts_run(t, p - 1));
                assert(t[p - 1] == s[p]);
                if p + 1 < s.len() {
                    assert(t[p] == s[p + 1]);
                }
            }
        }
        if lit_prefix_len(s) < s.len() && lit_prefix_len(s) < 127 {
            let l = lit_prefix_len(s) as int;
            assert(starts_run(t, l - 1));
            assert(t[l - 1] == s[l]);
            assert(t[l] == s[l + 1]);
        }
    }
}

proof fn lemma_lit_prefix_char(s: Seq<u8>, n: int)
    requires
        0 <= n <= s.len(),
        n <= 127,
        forall|p: int| 0 <= p < n ==> !starts_run(s, p),
        n == s.len() || n == 127 || starts_run(s, n),
    ensures
        lit_prefix_len(s) == n,
    decreases s.len(),
{
    if s.len() == 0 {
    } else if n == 0 {
        lemma_lit_prefix_props(s);
        if lit_prefix_len(s) > 0 {
            assert(!starts_run(s, 0));
            assert(n == s.len() || n == 127 || starts_run(s, n));
        }
    } else {
        assert(!starts_run(s, 0));
        let t = s.skip(1);
        assert forall|p: int| 0 <= p < n - 1 implies !starts_run(t, p) by {
            assert(!starts_run(s, p + 1));
            assert(t[p] == s[p + 1]);
            if p + 1 < t.len() {
                assert(t[p + 1] == s[p + 2]);
            }
        }
        if n == s.len() {
            lemma_lit_prefix_char(t, n - 1);
        } else if n == 127 {
            lemma_lit_prefix_props(t);
            if lit_prefix_len(t) < n - 1 {
                // below the cap the scan must have stopped at a run start,
                // which the hypothesis rules out
                assert(lit_prefix_len(t) < t.len());
                assert(starts_run(t, lit_prefix_len(t) as int));
                assert(s[lit_prefix_len(t) as int + 1] == t[lit_prefix_len(t) as int]);
                assert(starts_run(s, lit_prefix_len(t) as int + 1));
                assert(false);
            }
        } else {
            assert(starts_run(s, n));
            assert(t[n - 1] == s[n]);
            assert(t[n] == s[n + 1]);
            assert(starts_run(t, n - 1));
            lemma_lit_prefix_char(t, n - 1);
        }
    }
}

/// Returns how many bytes the greedy scan takes as a repeat run at the head
/// of `data`: zero when none starts there, otherwise the run's length, at
/// least 2 and at most 255.
fn take_consecutive_run(data: &[u8]) -> (n: usize)
    ensures
        n == spec_run_take(data@),
{
    proof {
        lemma_run_prefix_props(data@);
    }
    if data.len() < 2 || data[0] != data[1] {
        return 0;
    }
    let first = data[0];
    let mut len: usize = 1;
    while len < data.len() && data[len] == first && len < 255
        invariant
            1 <= len <= data@.len(),
            len <= 255,
            data@.len() >= 2,
            data@[1] == data@[0],
            first == data@[0],
            forall|j: int| 0 <= j < len ==> #[trigger] data@[j] == data@[0],
        decreases data@.len() - len,
    {
        len = len + 1;
    }
    proof {
        lemma_run_prefix_lower(data@, len as int);
        lemma_run_prefix_props(data@);
        if len < data@.len() && data@[len as int] != data@[0] {
            // the run prefix ends exactly here
            assert(run_prefix_len(data@) <= len);
        }
    }
    len
}

/// Returns how many bytes the greedy scan takes as a literal stretch at the
/// head of `data`: up to the first repeat run, at most 127.
fn take_literal_run(data: &[u8]) -> (n: usize)
    ensures
        n == lit_prefix_len(data@),
{
    let mut len: usize = 0;
    while len < data.len() && len < 127
        invariant
            len <= data@.len(),
            len <= 127,
            forall|p: int| 0 <= p < len ==> !starts_run(data@, p),
        decreases data@.len() - len,
    {
        if len + 1 < data.len() && data[len] == data[len + 1] {
            proof {
                lemma_lit_prefix_char(data@, len as int);
            }
            return len;
        }
        len = len + 1;
    }
    proof {
        lemma_lit_prefix_char(data@, len as int);
    }
    len
}

/// Compresses one raster line with the greedy run-length scheme; the result
/// is exactly `spec_compress` of the input, and the call never fails.
pub fn compress_tiff_group4(data: &[u8]) -> (r: Result<Vec<u8>, PtouchError>)
    ensures
        r matches Ok(c) && c@ == spec_compress(data@),
{
    let mut compressed: Vec<u8> = Vec::new();
    let mut pos: usize = 0;
    proof {
        assert(data@.skip(0) =~= data@);
        assert(Seq::<u8>::empty() + spec_compress(data@) =~= spec_compress(data@));
    }
    while pos < data.len()
        invariant
            pos <= data@.len(),
            spec_compress(data@) == compressed@ + spec_compress(data@.skip(pos as int)),
        decreases data@.len() - pos,
    {
        let ghost rest0 = data@.skip(pos as int);
        let rest = vstd::slice::slice_subrange(data, pos, data.len());
        assert(rest@ == rest0);
        let run = take_consecutive_run(rest);
        let ghost old_compressed = compressed@;
        if run > 0 {
            proof {
                lemma_run_prefix_props(rest0);
                lemma_run_prefix_lower(rest0, 2);
            }
            compressed.push((256 - (run - 1)) as u8);
            compressed.push(rest[0]);
            pos = pos + run;
            proof {
                let l = spec_run_take(rest0) as int;
                assert(l == run);
                assert(starts_run(rest0, 0));
                assert(spec_compress(rest0) == seq![(257 - l) as u8, rest0[0]]
                    + spec_compress(rest0.skip(l)));
                vstd::seq_lib::lemma_seq_skip_of_skip(data@, pos as int - run, run as int);
                assert(rest0.skip(l) == data@.skip(pos as int));
                assert(compressed@ == old_compressed + seq![(257 - l) as u8, rest0[0]]);
                assert(spec_compress(data@) == compressed@ + spec_compress(
                    data@.skip(pos as int),
                ));
            }
        } else {
            let lit = take_literal_run(rest);
            proof {
                lemma_lit_prefix_props(rest0);
            }
            compressed.push((lit - 1) as u8);
            let mut k: usize = 0;
            while k < lit
                invariant
                    k <= lit,
                    1 <= lit <= rest@.len(),
                    rest@ == rest0,
                    compressed@ == old_compressed + seq![(lit - 1) as u8] + rest0.take(k as int),
                decreases lit - k,
            {
                compressed.push(rest[k]);
                proof {
                    assert(rest0.take(k + 1) == rest0.take(k as int).push(rest0[k as int]));
                }
                k = k + 1;
            }
            pos = pos + lit;
            proof {
                let l = lit_prefix_len(rest0) as int;
                assert(l == lit);
                assert(rest0.len() > 0 && !starts_run(rest0, 0));
                assert(spec_compress(rest0) == seq![(l - 1) as u8] + rest0.take(l)
                    + spec_compress(rest0.skip(l)));
                vstd::seq_lib::lemma_seq_skip_of_skip(data@, pos as int - lit, lit as int);
                assert(rest0.skip(l) == data@.skip(pos as int));
                assert(compressed@ == old_compressed + (seq![(l - 1) as u8] + rest0.take(l)));
                assert(spec_compress(data@) == compressed@ + spec_compress(
                    data@.skip(pos as int),
                ));
            }
        }
    }
    proof {
        assert(data@.skip(pos as int) =~= Seq::<u8>::empty());
        assert(spec_compress(data@) =~= compressed@);
    }
    Ok(compressed)
}

/// Law: expanding the compressed form reproduces the input exactly, for
/// every byte sequence in which no 130 identical bytes stand consecutively.
///
/// The bound is forced by the encoding itself: the scheme's control byte is
/// read by sign, and a repeat run longer than 129 bytes wraps its control
/// byte into the non-negative range, where a decoder reads a literal
/// record. Raster lines are at most 70 bytes long, so every line this
/// library compresses is covered.
pub proof fn lemma_compress_round_trip(s: Seq<u8>)
    requires
        !spec_has_long_run(s),
    ensures
        spec_expand(spec_compress(s)) == s,
    decreases s.len(),
{
    if s.len() == 0 {
        assert(spec_expand(spec_compress(s)) =~= s);
    } else if starts_run(s, 0) {
        lemma_run_prefix_props(s);
        lemma_run_prefix_lower(s, 2);
        lemma_no_long_run_bounds_run_prefix(s);
        let l = spec_run_take(s) as int;
        assert(l == run_prefix_len(s));
        assert(2 <= l <= 129);
        let c = (257 - l) as u8;
        assert(128 <= c <= 255);
        assert(257 - c == l);
        let rest = s.skip(l);
        let comp = spec_compress(s);
        assert(comp == seq![c, s[0]] + spec_compress(rest));
        lemma_long_run_suffix(s, l);
        lemma_compress_round_trip(rest);
        assert(comp[0] == c && comp[1] == s[0]);
        assert(comp.len() >= 2);
        let rep = Seq::new((257 - c) as nat, |i: int| comp[1]);
        assert(spec_expand(comp) == rep + spec_expand(comp.skip(2)));
        assert(comp.skip(2) =~= spec_compress(rest));
        assert forall|i: int| 0 <= i < l implies rep[i] == #[trigger] s.take(l)[i] by {
            assert(s[i] == s[0]);
        }
        assert(rep =~= s.take(l));
        assert(spec_expand(comp) =~= s.take(l) + s.skip(l));
        assert(s.take(l) + s.skip(l) =~= s);
    } else {
        lemma_lit_prefix_props(s);
        let l = lit_prefix_len(s) as int;
        assert(1 <= l <= 127);
        let c = (l - 1) as u8;
        assert(c < 128);
        assert(c + 1 == l);
        let rest = s.skip(l);
        let comp = spec_compress(s);
        assert(comp == seq![c] + s.take(l) + spec_compress(rest));
        lemma_long_run_suffix(s, l);
        lemma_compress_round_trip(rest);
        assert(comp[0] == c);
        assert(comp.len() >= 1 + l);
        assert(comp.subrange(1, 1 + l) =~= s.take(l));
        assert(comp.skip(1 + l) =~= spec_compress(rest));
        assert(spec_expand(comp) == comp.subrange(1, 1 + l) + spec_expand(comp.skip(1 + l)));
        assert(spec_expand(comp) =~= s.take(l) + s.skip(l));
        assert(s.take(l) + s.skip(l) =~= s);
    }
}

/// When a run starts at the head, the greedy scan takes at least two and
/// at most `min(len, 255)` bytes there.
pub proof fn lemma_run_take_bounds(s: Seq<u8>)
    requires
        starts_run(s, 0),
    ensures
        2 <= spec_run_take(s) <= s.len(),
{
    lemma_run_prefix_props(s);
    lemma_run_prefix_lower(s, 2);
}

/// When no run starts at the head of a nonempty sequence, the greedy scan
/// takes at least one and at most `min(len, 127)` bytes as a literal.
pub proof fn lemma_lit_take_bounds(s: Seq<u8>)
    requires
        s.len() > 0,
        !starts_run(s, 0),
    ensures
        1 <= lit_prefix_len(s) <= s.len(),
{
    lemma_lit_prefix_props(s);
}

proof fn lemma_no_long_run_bounds_run_prefix(s: Seq<u8>)
    requires
        !spec_has_long_run(s),
    ensures
        run_prefix_len(s) <= 129,
{
    lemma_run_prefix_props(s);
    if run_prefix_len(s) >= 130 {
        assert(forall|j: int| 0 <= j < 0 + 130 ==> #[trigger] s[j] == s[0]);
        assert(long_run_at(s, 0));
        assert(spec_has_long_run(s));
    }
}

proof fn lemma_long_run_suffix(s: Seq<u8>, k: int)
    requires
        !spec_has_long_run(s),
        0 <= k <= s.len(),
    ensures
        !spec_has_long_run(s.skip(k)),
{
    let t = s.skip(k);
    if spec_has_long_run(t) {
        let i = choose|i: int| long_run_at(t, i);
        assert(long_run_at(t, i));
        assert forall|j: int| i + k <= j < i + k + 130 implies #[trigger] s[j] == s[i + k] by {
            assert(t[j - k] == t[i]);
            assert(t[i] == s[i + k]);
        }
        assert(long_run_at(s, i + k));
        assert(spec_has_long_run(s));
    }
}

// ---------------------------------------------------------------------------
// Bitmap rasterization: one bit-packed raster line per image column.
// ---------------------------------------------------------------------------

/// The pixel layout of a decoded bitmap.
#[derive(Clone, Copy, Debug, PartialEq, Eq, Structural)]
pub enum ColorKind {
    Grayscale,
    Rgb,
    Rgba,
}

impl ColorKind {
    /// Bytes per pixel under this layout.
    pub open spec fn spec_channels(self) -> nat {
        match self {
            ColorKind::Grayscale => 1,
            ColorKind::Rgb => 3,
            ColorKind::Rgba => 4,
        }
    }

    /// Returns the bytes per pixel under this layout.
    pub fn channels(self) -> (r: usize)
        ensures
            r == self.spec_channels(),
    {
        match self {
            ColorKind::Grayscale => 1,
            ColorKind::Rgb => 3,
            ColorKind::Rgba => 4,
        }
    }
}

/// A decoded pixel buffer: `height` rows of `width` pixels, `channels`
/// bytes each, in row-major order.
#[derive(Clone, Debug)]
pub struct Bitmap {
    pub width: u32,
    pub height: u32,
    pub color: ColorKind,
    pub pixels: Vec<u8>,
}

/// One RGBA channel alpha-composited onto a white background.
pub open spec fn spec_composite(c: u8, a: u8) -> int {
    (c * a + 255 * (255 - a)) / 255
}

/// The 8-bit gray value of pixel `i`: grayscale bytes pass through, RGB
/// pixels take the channel mean, RGBA pixels are composited onto white and
/// then take the channel mean.
pub open spec fn spec_gray_at(color: ColorKind, pixels: Seq<u8>, i: int) -> u8 {
    match color {
        ColorKind::Grayscale => pixels[i],
        ColorKind::Rgb => ((pixels[3 * i] + pixels[3 * i + 1] + pixels[3 * i + 2]) / 3) as u8,
        ColorKind::Rgba => {
            let a = pixels[4 * i + 3];
            ((spec_composite(pixels[4 * i], a) + spec_composite(pixels[4 * i + 1], a)
                + spec_composite(pixels[4 * i + 2], a)) / 3) as u8
        },
    }
}

/// The whole gray buffer of a pixel buffer: one byte per complete pixel.
pub open spec fn spec_gray_seq(color: ColorKind, pixels: Seq<u8>) -> Seq<u8> {
    Seq::new(pixels.len() / color.spec_channels(), |i: int| spec_gray_at(color, pixels, i))
}

proof fn lemma_mul_255(c: u8, a: u8)
    ensures
        0 <= c * a <= 255 * 255,
        c * a <= 255 * a,
{
    vstd::arithmetic::mul::lemma_mul_upper_bound(c as int, 255, a as int, 255);
    vstd::arithmetic::mul::lemma_mul_nonnegative(c as int, a as int);
    vstd::arithmetic::mul::lemma_mul_inequality(c as int, 255, a as int);
}

/// Reduces a pixel buffer to one 8-bit gray value per complete pixel.
fn convert_to_grayscale(pixels: &Vec<u8>, color: ColorKind) -> (r: Vec<u8>)
    ensures
        r@ == spec_gray_seq(color, pixels@),
{
    let ch: usize = color.channels();
    let n: usize = pixels.len() / ch;
    let mut r: Vec<u8> = Vec::new();
    let mut i: usize = 0;
    while i < n
        invariant
            i <= n,
            pixels@.len() <= usize::MAX,
            n == pixels@.len() as int / color.spec_channels() as int,
            ch == color.spec_channels(),
            r@.len() == i,
            forall|j: int| 0 <= j < i ==> r@[j] == spec_gray_at(color, pixels@, j),
        decreases n - i,
    {
        let g: u8 = match color {
            ColorKind::Grayscale => pixels[i],
            ColorKind::Rgb => {
                proof {
                    assert(3 * i + 3 <= 3 * n);
                    assert(3 * n <= pixels@.len());
                }
                let base: usize = 3 * i;
                let sum: u32 = pixels[base] as u32 + pixels[base + 1] as u32
                    + pixels[base + 2] as u32;
                (sum / 3) as u8
            },
            ColorKind::Rgba => {
                proof {
                    assert(4 * i + 4 <= 4 * n);
                    assert(4 * n <= pixels@.len());
                    lemma_mul_255(pixels@[4 * i], pixels@[4 * i + 3]);
                    lemma_mul_255(pixels@[4 * i + 1], pixels@[4 * i + 3]);
                    lemma_mul_255(pixels@[4 * i + 2], pixels@[4 * i + 3]);
                }
                let base: usize = 4 * i;
                let a: u32 = pixels[base + 3] as u32;
                let cr: u32 = (pixels[base] as u32 * a + 255 * (255 - a)) / 255;
                let cg: u32 = (pixels[base + 1] as u32 * a + 255 * (255 - a)) / 255;
                let cb: u32 = (pixels[base + 2] as u32 * a + 255 * (255 - a)) / 255;
                ((cr + cg + cb) / 3) as u8
            },
        };
        r.push(g);
        i = i + 1;
    }
    proof {
        assert(r@ =~= spec_gray_seq(color, pixels@));
    }
    r
}

/// Bit `k` (counting from the least significant end) of byte `b` is set.
pub open spec fn bit_set(b: u8, k: u8) -> bool {
    b & (1u8 << k) != 0
}

/// The bit of `line` that drives pin `p`: bit `7 - p % 8` of byte `p / 8`,
/// MSB-first within each byte.
pub open spec fn line_bit(line: Seq<u8>, p: int) -> bool {
    bit_set(line[p / 8], (7 - (p % 8)) as u8)
}

/// Pin `pin` of column `x` is printed: the pin lies in the printable band,
/// its source row exists in the bitmap, and the gray value there is dark.
pub open spec fn spec_pin_printed(
    gray: Seq<u8>,
    width: nat,
    height: nat,
    ts: crate::tape::TapeSpec,
    x: int,
    pin: int,
) -> bool {
    let margin = (ts.width_dots - ts.inner_dots) / 2;
    let y = pin - ts.right_pins + margin;
    &&& ts.right_pins <= pin < ts.right_pins + ts.inner_dots
    &&& pin < ts.total_pins
    &&& y < height
    &&& y * width + x < gray.len()
    &&& gray[y * width + x] < 127
}

/// `line` is the raster line of column `x`: one byte per eight pins, bit
/// `7 - pin % 8` of byte `pin / 8` set exactly for the printed pins.
pub open spec fn spec_line_ok(
    line: Seq<u8>,
    gray: Seq<u8>,
    width: nat,
    height: nat,
    ts: crate::tape::TapeSpec,
    x: int,
) -> bool {
    &&& line.len() == ts.total_pins as nat / 8
    &&& forall|p: int|
        0 <= p < ts.total_pins ==> #[trigger] line_bit(line, p) == spec_pin_printed(
            gray,
            width,
            height,
            ts,
            x,
            p,
        )
}

proof fn lemma_or_bit(x: u8, i: u8, j: u8)
    requires
        i < 8,
        j < 8,
    ensures
        ((x | (1u8 << i)) & (1u8 << j) != 0) == ((x & (1u8 << j) != 0) || i == j),
{
    assert(((x | (1u8 << i)) & (1u8 << j) != 0) == ((x & (1u8 << j) != 0) || i == j))
        by (bit_vector)
        requires
            i < 8,
            j < 8,
    ;
}

proof fn lemma_zero_bits(j: u8)
    requires
        j < 8,
    ensures
        !bit_set(0u8, j),
{
    assert((0u8 & (1u8 << j)) == 0) by (bit_vector)
        requires
            j < 8,
    ;
}

/// Returns whether column `x` of row `y` exists in the gray buffer and is
/// dark (below the print threshold).
fn column_pixel_dark(gray: &Vec<u8>, width: u32, x: u32, y: u32) -> (r: bool)
    requires
        x < width,
    ensures
        r == (y * width + x < gray@.len() && gray@[y * width + x] < 127),
{
    proof {
        vstd::arithmetic::mul::lemma_mul_upper_bound(
            y as int,
            0xFFFF_FFFF,
            width as int,
            0xFFFF_FFFF,
        );
        vstd::arithmetic::mul::lemma_mul_nonnegative(y as int, width as int);
    }
    let idx: u64 = (y as u64) * (width as u64) + (x as u64);
    if idx < gray.len() as u64 {
        gray[idx as usize] < 127
    } else {
        false
    }
}

/// Builds the raster line of column `x`.
fn rasterize_column(
    gray: &Vec<u8>,
    width: u32,
    height: u32,
    ts: &crate::tape::TapeSpec,
    x: u32,
) -> (line: Vec<u8>)
    requires
        crate::tape::spec_geometry_ok(*ts),
        x < width,
    ensures
        spec_line_ok(line@, gray@, width as nat, height as nat, *ts, x as int),
{
    let bytes_per: usize = (ts.total_pins / 8) as usize;
    let mut line: Vec<u8> = Vec::new();
    let mut i: usize = 0;
    while i < bytes_per
        invariant
            i <= bytes_per,
            line@.len() == i,
            forall|b: int| 0 <= b < i ==> line@[b] == 0u8,
        decreases bytes_per - i,
    {
        line.push(0u8);
        i = i + 1;
    }
    proof {
        assert forall|p: int| 0 <= p < ts.total_pins implies !(#[trigger] line_bit(line@, p)) by {
            assert(0 <= p % 8 < 8);
            assert(0 <= p / 8 < bytes_per);
            lemma_zero_bits((7 - (p % 8)) as u8);
        }
    }
    let margin: u32 = (ts.width_dots - ts.inner_dots) / 2;
    let mut d: u32 = 0;
    while d < ts.inner_dots
        invariant
            crate::tape::spec_geometry_ok(*ts),
            x < width,
            d <= ts.inner_dots,
            margin == (ts.width_dots - ts.inner_dots) / 2,
            line@.len() == ts.total_pins as nat / 8,
            forall|p: int|
                0 <= p < ts.total_pins ==> #[trigger] line_bit(line@, p) == (spec_pin_printed(
                    gray@,
                    width as nat,
                    height as nat,
                    *ts,
                    x as int,
                    p,
                ) && p - ts.right_pins < d),
        decreases ts.inner_dots - d,
    {
        let y: u32 = margin + d;
        if y >= height {
            proof {
                assert forall|p: int| 0 <= p < ts.total_pins implies #[trigger] line_bit(
                    line@,
                    p,
                ) == spec_pin_printed(gray@, width as nat, height as nat, *ts, x as int, p) by {
                    if p - ts.right_pins >= d {
                        assert(p - ts.right_pins + margin >= y);
                    }
                }
            }
            return line;
        }
        let pin: u32 = ts.right_pins + d;
        let ghost pre = line@;
        let ghost p0 = pin as int;
        if pin < ts.total_pins && column_pixel_dark(gray, width, x, y) {
            let byte_idx: usize = (pin / 8) as usize;
            let bit_idx: u8 = 7 - (pin % 8) as u8;
            let old_b: u8 = line[byte_idx];
            line.set(byte_idx, old_b | (1u8 << bit_idx));
            proof {
                assert(spec_pin_printed(gray@, width as nat, height as nat, *ts, x as int, p0));
                assert forall|p: int| 0 <= p < ts.total_pins implies #[trigger] line_bit(line@, p)
                    == (spec_pin_printed(gray@, width as nat, height as nat, *ts, x as int, p)
                    && p - ts.right_pins < d + 1) by {
                    assert(0 <= p % 8 < 8 && 0 <= p0 % 8 < 8);
                    assert(line_bit(pre, p) == (spec_pin_printed(
                        gray@,
                        width as nat,
                        height as nat,
                        *ts,
                        x as int,
                        p,
                    ) && p - ts.right_pins < d));
                    if p / 8 == p0 / 8 {
                        assert(line@[p / 8] == (pre[p0 / 8] | (1u8 << bit_idx)));
                        lemma_or_bit(pre[p0 / 8], bit_idx, (7 - (p % 8)) as u8);
                        if p != p0 {
                            assert(p % 8 != p0 % 8);
                        }
                    } else {
                        assert(line@[p / 8] == pre[p / 8]);
                    }
                }
            }
        } else {
            proof {
                assert(!spec_pin_printed(gray@, width as nat, height as nat, *ts, x as int, p0)
                    || p0 - ts.right_pins < d);
                assert forall|p: int| 0 <= p < ts.total_pins implies #[trigger] line_bit(line@, p)
                    == (spec_pin_printed(gray@, width as nat, height as nat, *ts, x as int, p)
                    && p - ts.right_pins < d + 1) by {
                    if p - ts.right_pins == d {
                        assert(p == p0);
                    }
                }
            }
        }
        d = d + 1;
    }
    proof {
        assert forall|p: int| 0 <= p < ts.total_pins implies #[trigger] line_bit(line@, p)
            == spec_pin_printed(gray@, width as nat, height as nat, *ts, x as int, p) by {
            if p - ts.right_pins >= ts.inner_dots {
                assert(!spec_pin_printed(gray@, width as nat, height as nat, *ts, x as int, p));
            }
        }
    }
    line
}

/// A decoded bitmap paired with the tape geometry it will print on.
pub struct PrintableImage {
    pub bitmap: Bitmap,
    pub tape_spec: crate::tape::TapeSpec,
}

impl PrintableImage {
    /// The bitmap's pixel height equals the tape's full width in dots, and
    /// the geometry is one of the table's.
    pub open spec fn wf(&self) -> bool {
        &&& crate::tape::spec_geometry_ok(self.tape_spec)
        &&& self.bitmap.height == self.tape_spec.width_dots
    }

    /// Pairs a decoded bitmap with a tape geometry. A bitmap whose height
    /// does not equal the tape's full width in dots is rejected: printing
    /// it would shift every column's pin mapping.
    pub fn new(bitmap: Bitmap, tape_spec: crate::tape::TapeSpec) -> (r: Result<
        PrintableImage,
        PtouchError,
    >)
        requires
            crate::tape::spec_geometry_ok(tape_spec),
        ensures
            r is Ok <==> bitmap.height == tape_spec.width_dots,
            r matches Ok(pi) ==> pi.bitmap == bitmap && pi.tape_spec == tape_spec && pi.wf(),
            r matches Err(e) ==> e matches PtouchError::HeightMismatch {
                bitmap_height,
                width_mm,
                width_dots,
            } && bitmap_height == bitmap.height && width_mm == tape_spec.width_mm && width_dots
                == tape_spec.width_dots,
    {
        if bitmap.height != tape_spec.width_dots {
            return Err(
                PtouchError::HeightMismatch {
                    bitmap_height: bitmap.height,
                    width_mm: tape_spec.width_mm,
                    width_dots: tape_spec.width_dots,
                },
            );
        }
        Ok(PrintableImage { bitmap, tape_spec })
    }

    /// Converts the bitmap into one raster line per image column, in
    /// source-image column order. Never fails.
    pub fn to_raster_lines(&self) -> (r: Result<Vec<Vec<u8>>, PtouchError>)
        requires
            crate::tape::spec_geometry_ok(self.tape_spec),
        ensures
            r matches Ok(lines) && lines@.len() == self.bitmap.width && forall|xi: int|
                0 <= xi < lines@.len() ==> spec_line_ok(
                    (#[trigger] lines@[xi])@,
                    spec_gray_seq(self.bitmap.color, self.bitmap.pixels@),
                    self.bitmap.width as nat,
                    self.bitmap.height as nat,
                    self.tape_spec,
                    xi,
                ),
            r matches Ok(lines) ==> lines.deep_view() == spec_raster_lines(
                self.bitmap,
                self.tape_spec,
            ),
    {
        let gray = convert_to_grayscale(&self.bitmap.pixels, self.bitmap.color);
        let mut lines: Vec<Vec<u8>> = Vec::new();
        let mut x: u32 = 0;
        while x < self.bitmap.width
            invariant
                x <= self.bitmap.width,
                crate::tape::spec_geometry_ok(self.tape_spec),
                gray@ == spec_gray_seq(self.bitmap.color, self.bitmap.pixels@),
                lines@.len() == x,
                forall|xi: int|
                    0 <= xi < lines@.len() ==> spec_line_ok(
                        (#[trigger] lines@[xi])@,
                        spec_gray_seq(self.bitmap.color, self.bitmap.pixels@),
                        self.bitmap.width as nat,
                        self.bitmap.height as nat,
                        self.tape_spec,
                        xi,
                    ),
            decreases self.bitmap.width - x,
        {
            let line = rasterize_column(&gray, self.bitmap.width, self.bitmap.height, &self.tape_spec, x);
            lines.push(line);
            x = x + 1;
        }
        proof {
            assert forall|xi: int| 0 <= xi < lines@.len() implies #[trigger] lines.deep_view()[xi]
                == spec_raster_lines(self.bitmap, self.tape_spec)[xi] by {
                lemma_line_ok_unique(
                    lines@[xi]@,
                    spec_gray_seq(self.bitmap.color, self.bitmap.pixels@),
                    self.bitmap.width as nat,
                    self.bitmap.height as nat,
                    self.tape_spec,
                    xi,
                );
            }
            assert(lines.deep_view() =~= spec_raster_lines(self.bitmap, self.tape_spec));
        }
        Ok(lines)
    }

    /// The tape geometry this image will print on.
    pub fn tape_spec(&self) -> (r: &crate::tape::TapeSpec)
        ensures
            *r == self.tape_spec,
    {
        &self.tape_spec
    }
}

proof fn lemma_byte_zero(b: u8)
    requires
        !bit_set(b, 0),
        !bit_set(b, 1),
        !bit_set(b, 2),
        !bit_set(b, 3),
        !bit_set(b, 4),
        !bit_set(b, 5),
        !bit_set(b, 6),
        !bit_set(b, 7),
    ensures
        b == 0,
{
    assert(b == 0) by (bit_vector)
        requires
            b & (1u8 << 0u8) == 0,
            b & (1u8 << 1u8) == 0,
            b & (1u8 << 2u8) == 0,
            b & (1u8 << 3u8) == 0,
            b & (1u8 << 4u8) == 0,
            b & (1u8 << 5u8) == 0,
            b & (1u8 << 6u8) == 0,
            b & (1u8 << 7u8) == 0,
    ;
}

/// Law (blank labels): in a raster line built from a gray buffer with no
/// dark pixel, every byte is zero.
pub proof fn lemma_white_line_blank(
    line: Seq<u8>,
    gray: Seq<u8>,
    width: nat,
    height: nat,
    ts: crate::tape::TapeSpec,
    x: int,
)
    requires
        crate::tape::spec_geometry_ok(ts),
        spec_line_ok(line, gray, width, height, ts, x),
        0 <= x,
        forall|i: int| 0 <= i < gray.len() ==> gray[i] >= 127,
    ensures
        line.len() == ts.total_pins as nat / 8,
        forall|b: int| 0 <= b < line.len() ==> line[b] == 0u8,
{
    assert forall|b: int| 0 <= b < line.len() implies line[b] == 0u8 by {
        assert forall|p: int| b * 8 <= p < b * 8 + 8 implies !(#[trigger] line_bit(line, p)) by {
            assert(p / 8 == b);
            assert(0 <= p < ts.total_pins);
            if spec_pin_printed(gray, width, height, ts, x, p) {
                let margin = (ts.width_dots - ts.inner_dots) / 2 as int;
                let y = p - ts.right_pins + margin;
                vstd::arithmetic::mul::lemma_mul_nonnegative(y, width as int);
                assert(gray[y * width + x] >= 127);
            }
        }
        assert(line_bit(line, b * 8 + 7) == bit_set(line[b], 0));
        assert(line_bit(line, b * 8 + 6) == bit_set(line[b], 1));
        assert(line_bit(line, b * 8 + 5) == bit_set(line[b], 2));
        assert(line_bit(line, b * 8 + 4) == bit_set(line[b], 3));
        assert(line_bit(line, b * 8 + 3) == bit_set(line[b], 4));
        assert(line_bit(line, b * 8 + 2) == bit_set(line[b], 5));
        assert(line_bit(line, b * 8 + 1) == bit_set(line[b], 6));
        assert(line_bit(line, b * 8 + 0) == bit_set(line[b], 7));
        lemma_byte_zero(line[b]);
    }
}

/// Law (full labels): in a raster line built from a bitmap of full tape
/// height whose every pixel is dark, exactly the pins of the printable
/// band are set: those from `right_pins` up to but excluding
/// `right_pins + inner_dots`.
pub proof fn lemma_black_line_band(
    line: Seq<u8>,
    gray: Seq<u8>,
    width: nat,
    height: nat,
    ts: crate::tape::TapeSpec,
    x: int,
)
    requires
        crate::tape::spec_geometry_ok(ts),
        spec_line_ok(line, gray, width, height, ts, x),
        0 <= x < width,
        height == ts.width_dots,
        gray.len() >= width * height,
        forall|i: int| 0 <= i < gray.len() ==> gray[i] < 127,
    ensures
        forall|p: int|
            0 <= p < ts.total_pins ==> #[trigger] line_bit(line, p) == (ts.right_pins <= p
                < ts.right_pins + ts.inner_dots),
{
    assert forall|p: int| 0 <= p < ts.total_pins implies #[trigger] line_bit(line, p) == (
    ts.right_pins <= p < ts.right_pins + ts.inner_dots) by {
        if ts.right_pins <= p < ts.right_pins + ts.inner_dots {
            let margin = (ts.width_dots - ts.inner_dots) / 2 as int;
            let y = p - ts.right_pins + margin;
            assert(margin + ts.inner_dots <= ts.width_dots);
            assert(0 <= y < height);
            vstd::arithmetic::mul::lemma_mul_inequality(y + 1, height as int, width as int);
            vstd::arithmetic::mul::lemma_mul_is_distributive_add_other_way(
                width as int,
                y,
                1,
            );
            vstd::arithmetic::mul::lemma_mul_is_commutative(y + 1, width as int);
            vstd::arithmetic::mul::lemma_mul_is_commutative(y, width as int);
            vstd::arithmetic::mul::lemma_mul_is_commutative(height as int, width as int);
            assert(y * width + x < gray.len());
            assert(spec_pin_printed(gray, width, height, ts, x, p));
        }
    }
}

/// The byte that drives pins `8b` through `8b + 7` of a raster line:
/// pin `8b` at the most significant bit.
pub open spec fn spec_line_byte(
    gray: Seq<u8>,
    width: nat,
    height: nat,
    ts: crate::tape::TapeSpec,
    x: int,
    b: int,
) -> u8 {
    ((if spec_pin_printed(gray, width, height, ts, x, 8 * b) { 128int } else { 0int })
        + (if spec_pin_printed(gray, width, height, ts, x, 8 * b + 1) { 64int } else { 0int })
        + (if spec_pin_printed(gray, width, height, ts, x, 8 * b + 2) { 32int } else { 0int })
        + (if spec_pin_printed(gray, width, height, ts, x, 8 * b + 3) { 16int } else { 0int })
        + (if spec_pin_printed(gray, width, height, ts, x, 8 * b + 4) { 8int } else { 0int })
        + (if spec_pin_printed(gray, width, height, ts, x, 8 * b + 5) { 4int } else { 0int })
        + (if spec_pin_printed(gray, width, height, ts, x, 8 * b + 6) { 2int } else { 0int })
        + (if spec_pin_printed(gray, width, height, ts, x, 8 * b + 7) { 1int } else { 0int }))
        as u8
}

/// The raster line of column `x`, byte by byte.
pub open spec fn spec_raster_line(
    gray: Seq<u8>,
    width: nat,
    height: nat,
    ts: crate::tape::TapeSpec,
    x: int,
) -> Seq<u8> {
    Seq::new(ts.total_pins as nat / 8, |b: int| spec_line_byte(gray, width, height, ts, x, b))
}

/// All raster lines of a bitmap under a tape geometry, in column order.
pub open spec fn spec_raster_lines(bm: Bitmap, ts: crate::tape::TapeSpec) -> Seq<Seq<u8>> {
    Seq::new(
        bm.width as nat,
        |x: int|
            spec_raster_line(
                spec_gray_seq(bm.color, bm.pixels@),
                bm.width as nat,
                bm.height as nat,
                ts,
                x,
            ),
    )
}

proof fn lemma_packed_byte_bits(
    v: u8,
    e0: u8,
    e1: u8,
    e2: u8,
    e3: u8,
    e4: u8,
    e5: u8,
    e6: u8,
    e7: u8,
)
    requires
        e0 <= 1 && e1 <= 1 && e2 <= 1 && e3 <= 1 && e4 <= 1 && e5 <= 1 && e6 <= 1 && e7 <= 1,
        v == 128 * e0 + 64 * e1 + 32 * e2 + 16 * e3 + 8 * e4 + 4 * e5 + 2 * e6 + e7,
    ensures
        bit_set(v, 7) == (e0 == 1),
        bit_set(v, 6) == (e1 == 1),
        bit_set(v, 5) == (e2 == 1),
        bit_set(v, 4) == (e3 == 1),
        bit_set(v, 3) == (e4 == 1),
        bit_set(v, 2) == (e5 == 1),
        bit_set(v, 1) == (e6 == 1),
        bit_set(v, 0) == (e7 == 1),
{
    assert((v & (1u8 << 7u8) != 0) == (e0 == 1) && (v & (1u8 << 6u8) != 0) == (e1 == 1) && (v & (
    1u8 << 5u8) != 0) == (e2 == 1) && (v & (1u8 << 4u8) != 0) == (e3 == 1) && (v & (1u8 << 3u8)
        != 0) == (e4 == 1) && (v & (1u8 << 2u8) != 0) == (e5 == 1) && (v & (1u8 << 1u8) != 0) == (
    e6 == 1) && (v & (1u8 << 0u8) != 0) == (e7 == 1)) by (bit_vector)
        requires
            e0 <= 1 && e1 <= 1 && e2 <= 1 && e3 <= 1 && e4 <= 1 && e5 <= 1 && e6 <= 1 && e7 <= 1,
            v == 128 * e0 + 64 * e1 + 32 * e2 + 16 * e3 + 8 * e4 + 4 * e5 + 2 * e6 + e7,
    ;
}

proof fn lemma_byte_from_bits(a: u8, v: u8)
    requires
        bit_set(a, 0) == bit_set(v, 0),
        bit_set(a, 1) == bit_set(v, 1),
        bit_set(a, 2) == bit_set(v, 2),
        bit_set(a, 3) == bit_set(v, 3),
        bit_set(a, 4) == bit_set(v, 4),
        bit_set(a, 5) == bit_set(v, 5),
        bit_set(a, 6) == bit_set(v, 6),
        bit_set(a, 7) == bit_set(v, 7),
    ensures
        a == v,
{
    assert(a == v) by (bit_vector)
        requires
            (a & (1u8 << 0u8) != 0) == (v & (1u8 << 0u8) != 0),
            (a & (1u8 << 1u8) != 0) == (v & (1u8 << 1u8) != 0),
            (a & (1u8 << 2u8) != 0) == (v & (1u8 << 2u8) != 0),
            (a & (1u8 << 3u8) != 0) == (v & (1u8 << 3u8) != 0),
            (a & (1u8 << 4u8) != 0) == (v & (1u8 << 4u8) != 0),
            (a & (1u8 << 5u8) != 0) == (v & (1u8 << 5u8) != 0),
            (a & (1u8 << 6u8) != 0) == (v & (1u8 << 6u8) != 0),
            (a & (1u8 << 7u8) != 0) == (v & (1u8 << 7u8) != 0),
    ;
}

/// A line that drives each pin per `spec_pin_printed` is, byte for byte,
/// the line `spec_raster_line` constructs.
proof fn lemma_line_ok_unique(
    line: Seq<u8>,
    gray: Seq<u8>,
    width: nat,
    height: nat,
    ts: crate::tape::TapeSpec,
    x: int,
)
    requires
        crate::tape::spec_geometry_ok(ts),
        spec_line_ok(line, gray, width, height, ts, x),
    ensures
        line == spec_raster_line(gray, width, height, ts, x),
{
    let model = spec_raster_line(gray, width, height, ts, x);
    assert forall|b: int| 0 <= b < line.len() implies line[b] == model[b] by {
        let v = spec_line_byte(gray, width, height, ts, x, b);
        let e0: u8 = if spec_pin_printed(gray, width, height, ts, x, 8 * b) { 1 } else { 0 };
        let e1: u8 = if spec_pin_printed(gray, width, height, ts, x, 8 * b + 1) { 1 } else { 0 };
        let e2: u8 = if spec_pin_printed(gray, width, height, ts, x, 8 * b + 2) { 1 } else { 0 };
        let e3: u8 = if spec_pin_printed(gray, width, height, ts, x, 8 * b + 3) { 1 } else { 0 };
        let e4: u8 = if spec_pin_printed(gray, width, height, ts, x, 8 * b + 4) { 1 } else { 0 };
        let e5: u8 = if spec_pin_printed(gray, width, height, ts, x, 8 * b + 5) { 1 } else { 0 };
        let e6: u8 = if spec_pin_printed(gray, width, height, ts, x, 8 * b + 6) { 1 } else { 0 };
        let e7: u8 = if spec_pin_printed(gray, width, height, ts, x, 8 * b + 7) { 1 } else { 0 };
        lemma_packed_byte_bits(v, e0, e1, e2, e3, e4, e5, e6, e7);
        assert forall|j: int| 0 <= j < 8 implies #[trigger] line_bit(line, 8 * b + j)
            == spec_pin_printed(gray, width, height, ts, x, 8 * b + j) by {
            assert(0 <= 8 * b + j < ts.total_pins);
        }
        assert((8 * b + 0) / 8 == b && (8 * b + 1) / 8 == b && (8 * b + 2) / 8 == b && (8 * b + 3)
            / 8 == b && (8 * b + 4) / 8 == b && (8 * b + 5) / 8 == b && (8 * b + 6) / 8 == b && (8
            * b + 7) / 8 == b);
        assert(line_bit(line, 8 * b + 0) == bit_set(line[b], 7));
        assert(line_bit(line, 8 * b + 1) == bit_set(line[b], 6));
        assert(line_bit(line, 8 * b + 2) == bit_set(line[b], 5));
        assert(line_bit(line, 8 * b + 3) == bit_set(line[b], 4));
        assert(line_bit(line, 8 * b + 4) == bit_set(line[b], 3));
        assert(line_bit(line, 8 * b + 5) == bit_set(line[b], 2));
        assert(line_bit(line, 8 * b + 6) == bit_set(line[b], 1));
        assert(line_bit(line, 8 * b + 7) == bit_set(line[b], 0));
        lemma_byte_from_bits(line[b], v);
    }
    assert(line =~= model);
}

} // verus!
