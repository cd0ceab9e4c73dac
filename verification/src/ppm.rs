//! The canvas export formats: the PPM text stream and the raw RGBA buffer.
//!
//! Both work on sample bytes already scaled to the 0..=255 range, three per
//! pixel in row-major order; turning a color channel into such a byte is
//! numeric work that belongs to the caller. The PPM stream is the `P3`
//! header followed by the samples in decimal, separated by single spaces,
//! wrapped so that no line exceeds [`PPM_LINE_LIMIT`] bytes, and closed by a
//! newline.

use vstd::prelude::*;

verus! {

/// Greatest number of bytes on one line of a PPM text stream.
pub const PPM_LINE_LIMIT: usize = 70;

/// ASCII code of the newline byte.
pub const NEWLINE: u8 = 10;

/// ASCII code of the space byte.
pub const SPACE: u8 = 32;

/// The ASCII decimal digits of `n`, most significant first, no sign and no
/// leading zero (except for `n == 0` itself).
pub open spec fn spec_decimal(n: nat) -> Seq<u8>
    decreases n,
{
    if n < 10 {
        seq![(48 + n) as u8]
    } else {
        spec_decimal(n / 10) + seq![(48 + n % 10) as u8]
    }
}

/// Decimal digits are the bytes '0' through '9'; in particular none is a
/// newline or a space. There is always at least one digit.
pub proof fn lemma_decimal_digits(n: nat)
    ensures
        spec_decimal(n).len() >= 1,
        forall|i: int| 0 <= i < spec_decimal(n).len() ==> 48 <= #[trigger] spec_decimal(n)[i] < 58,
    decreases n,
{
    if n >= 10 {
        lemma_decimal_digits(n / 10);
    }
}

/// Powers of ten.
pub open spec fn pow10(k: nat) -> nat
    decreases k,
{
    if k == 0 {
        1
    } else {
        10 * pow10((k - 1) as nat)
    }
}

/// A number below the k-th power of ten has at most k decimal digits.
pub proof fn lemma_decimal_len(n: nat, k: nat)
    requires
        k >= 1,
        n < pow10(k),
    ensures
        spec_decimal(n).len() <= k,
    decreases k,
{
    if n < 10 {
    } else {
        assert(k >= 2) by {
            if k == 1 {
                reveal_with_fuel(pow10, 2);
                assert(pow10(1nat) == 10);
            }
        }
        assert(n / 10 < pow10((k - 1) as nat)) by (nonlinear_arith)
            requires
                n < pow10(k),
                pow10(k) == 10 * pow10((k - 1) as nat),
                n >= 10,
        ;
        lemma_decimal_len(n / 10, (k - 1) as nat);
    }
}

/// Every usize has at most 20 decimal digits.
pub proof fn lemma_decimal_len_usize(n: nat)
    requires
        n <= usize::MAX,
    ensures
        spec_decimal(n).len() <= 20,
{
    assert(pow10(20nat) == 100_000_000_000_000_000_000nat) by {
        reveal_with_fuel(pow10, 21);
    }
    assert(usize::MAX < pow10(20nat));
    lemma_decimal_len(n, 20nat);
}

/// A byte has at most 3 decimal digits.
pub proof fn lemma_decimal_len_byte(n: nat)
    requires
        n <= 255,
    ensures
        spec_decimal(n).len() <= 3,
{
    assert(pow10(3nat) == 1000) by {
        reveal_with_fuel(pow10, 4);
    }
    lemma_decimal_len(n, 3nat);
}

/// Render `n` in ASCII decimal.
pub fn decimal_bytes(n: usize) -> (r: Vec<u8>)
    ensures
        r@ == spec_decimal(n as nat),
{
    let mut rev: Vec<u8> = Vec::new();
    let mut m: usize = n;
    while m >= 10
        invariant
            spec_decimal(n as nat) == spec_decimal(m as nat) + rev@.reverse(),
        decreases m,
    {
        let d: u8 = 48 + (m % 10) as u8;
        proof {
            let ghost old_rev = rev@;
            assert(rev@.push(d).reverse() =~= seq![d] + rev@.reverse());
            assert(spec_decimal(m as nat) == spec_decimal((m / 10) as nat) + seq![d]);
            assert(spec_decimal((m / 10) as nat) + (seq![d] + old_rev.reverse()) =~= (spec_decimal(
                (m / 10) as nat,
            ) + seq![d]) + old_rev.reverse());
        }
        rev.push(d);
        m = m / 10;
    }
    let mut r: Vec<u8> = Vec::new();
    r.push(48 + m as u8);
    assert(r@ =~= spec_decimal(m as nat));
    let mut k: usize = rev.len();
    while k > 0
        invariant
            k <= rev.len(),
            r@ == spec_decimal(m as nat) + rev@.skip(k as int).reverse(),
        decreases k,
    {
        k = k - 1;
        let ghost before = r@;
        r.push(rev[k]);
        proof {
            assert(rev@.skip(k as int) =~= seq![rev@[k as int]] + rev@.skip(k + 1));
            assert(rev@.skip(k as int).reverse() =~= rev@.skip(k + 1).reverse() + seq![
                rev@[k as int],
            ]);
            assert(before.push(rev@[k as int]) =~= spec_decimal(m as nat) + rev@.skip(
                k as int,
            ).reverse());
        }
    }
    proof {
        assert(rev@.skip(0) =~= rev@);
        assert(r@ =~= spec_decimal(n as nat));
    }
    r
}

/// The PPM header: `P3`, the image dimensions, and the greatest sample
/// value, each on a line of its own.
pub open spec fn spec_ppm_header(width: nat, height: nat) -> Seq<u8> {
    seq![80u8, 51u8, 10u8] + spec_decimal(width) + seq![32u8] + spec_decimal(height) + seq![
        10u8,
        50u8,
        53u8,
        53u8,
        10u8,
    ]
}

/// The sample section of a PPM stream: the values in decimal, separated by
/// single spaces, moved to a fresh line whenever a value and its separator
/// would push the current line past the limit. `line` is how many bytes
/// stand on the current line already.
pub open spec fn spec_ppm_body(vals: Seq<u8>, line: nat) -> Seq<u8>
    decreases vals.len(),
{
    if vals.len() == 0 {
        Seq::empty()
    } else {
        let d = spec_decimal(vals[0] as nat);
        if line + d.len() + 1 > PPM_LINE_LIMIT {
            seq![NEWLINE] + d + spec_ppm_body(vals.drop_first(), d.len())
        } else if line > 0 {
            seq![SPACE] + d + spec_ppm_body(vals.drop_first(), line + 1 + d.len())
        } else {
            d + spec_ppm_body(vals.drop_first(), d.len())
        }
    }
}

/// A whole PPM stream: header, samples, and the closing newline.
pub open spec fn spec_ppm(width: nat, height: nat, vals: Seq<u8>) -> Seq<u8> {
    spec_ppm_header(width, height) + spec_ppm_body(vals, 0) + seq![NEWLINE]
}

/// Serialize a canvas's scaled samples as a PPM text stream. `samples` holds
/// three bytes per pixel, row-major.
pub fn ppm_encode(width: usize, height: usize, samples: &Vec<u8>) -> (r: Vec<u8>)
    requires
        samples@.len() == 3 * width * height,
    ensures
        r@ == spec_ppm(width as nat, height as nat, samples@),
{
    let mut r: Vec<u8> = Vec::new();
    r.push(80);
    r.push(51);
    r.push(10);
    let mut wd = decimal_bytes(width);
    r.append(&mut wd);
    r.push(32);
    let mut hd = decimal_bytes(height);
    r.append(&mut hd);
    r.push(10);
    r.push(50);
    r.push(53);
    r.push(53);
    r.push(10);
    proof {
        assert(r@ =~= spec_ppm_header(width as nat, height as nat));
    }
    let ghost header = r@;
    proof {
        assert(samples@.skip(0) =~= samples@);
    }
    let n = samples.len();
    let mut line: usize = 0;
    let mut k: usize = 0;
    while k < n
        invariant
            k <= n,
            n == samples@.len(),
            line <= PPM_LINE_LIMIT,
            r@ + spec_ppm_body(samples@.skip(k as int), line as nat) == header + spec_ppm_body(
                samples@,
                0,
            ),
        decreases n - k,
    {
        let v = samples[k];
        let mut d = decimal_bytes(v as usize);
        proof {
            lemma_decimal_len_byte(v as nat);
            assert(samples@.skip(k as int)[0] == samples@[k as int]);
            assert(samples@.skip(k as int).drop_first() =~= samples@.skip(k + 1));
        }
        let ghost rest = spec_ppm_body(samples@.skip(k + 1), (line + 1 + d@.len()) as nat);
        let ghost rest_fresh = spec_ppm_body(samples@.skip(k + 1), d@.len());
        let ghost r_before = r@;
        let dlen = d.len();
        if line + dlen + 1 > PPM_LINE_LIMIT {
            r.push(NEWLINE);
            r.append(&mut d);
            proof {
                assert(r@ =~= r_before + (seq![NEWLINE] + spec_decimal(v as nat)));
                assert(r@ + rest_fresh =~= r_before + ((seq![NEWLINE] + spec_decimal(v as nat))
                    + rest_fresh));
            }
            line = dlen;
        } else if line > 0 {
            r.push(SPACE);
            r.append(&mut d);
            proof {
                assert(r@ =~= r_before + (seq![SPACE] + spec_decimal(v as nat)));
                assert(r@ + rest =~= r_before + ((seq![SPACE] + spec_decimal(v as nat)) + rest));
            }
            line = line + 1 + dlen;
        } else {
            r.append(&mut d);
            proof {
                assert(r@ =~= r_before + spec_decimal(v as nat));
                assert(r@ + rest_fresh =~= r_before + (spec_decimal(v as nat) + rest_fresh));
            }
            line = dlen;
        }
        k = k + 1;
    }
    proof {
        assert(samples@.skip(n as int) =~= Seq::<u8>::empty());
        assert(r@ =~= header + spec_ppm_body(samples@, 0));
    }
    r.push(NEWLINE);
    proof {
        assert(r@ =~= spec_ppm(width as nat, height as nat, samples@));
    }
    r
}

/// The larger of two line lengths.
pub open spec fn nat_max(a: nat, b: nat) -> nat {
    if a >= b {
        a
    } else {
        b
    }
}

/// The longest newline-free run of bytes in `s`, counting the `cur` bytes
/// that already stand on the line `s` starts on. Every line of `cur`-prefixed
/// `s` is at most this long.
pub open spec fn spec_max_run(s: Seq<u8>, cur: nat) -> nat
    decreases s.len(),
{
    if s.len() == 0 {
        cur
    } else if s[0] == NEWLINE {
        nat_max(cur, spec_max_run(s.drop_first(), 0))
    } else {
        spec_max_run(s.drop_first(), cur + 1)
    }
}

/// A prefix without newlines only lengthens the current line.
pub proof fn lemma_max_run_no_newline(s: Seq<u8>, t: Seq<u8>, cur: nat)
    requires
        forall|i: int| 0 <= i < s.len() ==> #[trigger] s[i] != NEWLINE,
    ensures
        spec_max_run(s + t, cur) == spec_max_run(t, cur + s.len()),
    decreases s.len(),
{
    if s.len() == 0 {
        assert(s + t =~= t);
    } else {
        assert((s + t).drop_first() =~= s.drop_first() + t);
        lemma_max_run_no_newline(s.drop_first(), t, cur + 1);
    }
}

/// A newline finishes the current line and starts an empty one.
pub proof fn lemma_max_run_newline(s: Seq<u8>, cur: nat)
    ensures
        spec_max_run(seq![NEWLINE] + s, cur) == nat_max(cur, spec_max_run(s, 0)),
{
    assert((seq![NEWLINE] + s).drop_first() =~= s);
}

/// No line of the sample section, nor the partial line it starts on, nor the
/// line the closing newline ends, exceeds the limit.
pub proof fn lemma_ppm_body_run(vals: Seq<u8>, line: nat)
    requires
        line <= PPM_LINE_LIMIT,
    ensures
        spec_max_run(spec_ppm_body(vals, line) + seq![NEWLINE], line) <= PPM_LINE_LIMIT,
    decreases vals.len(),
{
    if vals.len() == 0 {
        assert(spec_ppm_body(vals, line) + seq![NEWLINE] =~= seq![NEWLINE]);
        assert(seq![NEWLINE].drop_first() =~= Seq::<u8>::empty());
        lemma_max_run_newline(Seq::<u8>::empty(), line);
        assert(seq![NEWLINE] + Seq::<u8>::empty() =~= seq![NEWLINE]);
        assert(spec_max_run(Seq::<u8>::empty(), 0nat) == 0);
        assert(spec_max_run(spec_ppm_body(vals, line) + seq![NEWLINE], line) <= PPM_LINE_LIMIT);
    } else {
        let d = spec_decimal(vals[0] as nat);
        lemma_decimal_digits(vals[0] as nat);
        lemma_decimal_len_byte(vals[0] as nat);
        let rest = vals.drop_first();
        if line + d.len() + 1 > PPM_LINE_LIMIT {
            let b = spec_ppm_body(rest, d.len());
            lemma_ppm_body_run(rest, d.len());
            assert(spec_ppm_body(vals, line) == seq![NEWLINE] + d + b);
            assert((seq![NEWLINE] + d + b) + seq![NEWLINE] =~= seq![NEWLINE] + (d + (b + seq![
                NEWLINE,
            ])));
            lemma_max_run_newline(d + (b + seq![NEWLINE]), line);
            lemma_max_run_no_newline(d, b + seq![NEWLINE], 0);
            assert(spec_max_run(spec_ppm_body(vals, line) + seq![NEWLINE], line) == nat_max(
                line,
                spec_max_run(b + seq![NEWLINE], d.len()),
            ));
        } else if line > 0 {
            let b = spec_ppm_body(rest, line + 1 + d.len());
            lemma_ppm_body_run(rest, line + 1 + d.len());
            let sd = seq![SPACE] + d;
            assert(spec_ppm_body(vals, line) == seq![SPACE] + d + b);
            assert((seq![SPACE] + d + b) + seq![NEWLINE] =~= sd + (b + seq![NEWLINE]));
            assert(forall|i: int| 0 <= i < sd.len() ==> #[trigger] sd[i] != NEWLINE);
            lemma_max_run_no_newline(sd, b + seq![NEWLINE], line);
            assert(spec_max_run(spec_ppm_body(vals, line) + seq![NEWLINE], line) == spec_max_run(
                b + seq![NEWLINE],
                line + 1 + d.len(),
            ));
        } else {
            let b = spec_ppm_body(rest, d.len());
            lemma_ppm_body_run(rest, d.len());
            assert(spec_ppm_body(vals, line) == d + b);
            assert((d + b) + seq![NEWLINE] =~= d + (b + seq![NEWLINE]));
            lemma_max_run_no_newline(d, b + seq![NEWLINE], line);
            assert(spec_max_run(spec_ppm_body(vals, line) + seq![NEWLINE], line) == spec_max_run(
                b + seq![NEWLINE],
                d.len(),
            ));
        }
    }
}

/// No line of a PPM stream for a canvas of machine-sized dimensions exceeds
/// the limit of 70 bytes.
pub proof fn lemma_ppm_max_line(width: nat, height: nat, vals: Seq<u8>)
    requires
        width <= usize::MAX,
        height <= usize::MAX,
    ensures
        spec_max_run(spec_ppm(width, height, vals), 0) <= PPM_LINE_LIMIT,
{
    let dw = spec_decimal(width);
    let dh = spec_decimal(height);
    lemma_decimal_digits(width);
    lemma_decimal_digits(height);
    lemma_decimal_len_usize(width);
    lemma_decimal_len_usize(height);
    let body = spec_ppm_body(vals, 0);
    let magic = seq![80u8, 51u8];
    let maxval = seq![50u8, 53u8, 53u8];
    let tail5 = maxval + (seq![NEWLINE] + (body + seq![NEWLINE]));
    let dims = dw + seq![32u8] + dh;
    let tail4 = dims + (seq![NEWLINE] + tail5);
    assert(spec_ppm(width, height, vals) =~= magic + (seq![NEWLINE] + tail4));
    assert(forall|i: int| 0 <= i < magic.len() ==> #[trigger] magic[i] != NEWLINE);
    lemma_max_run_no_newline(magic, seq![NEWLINE] + tail4, 0);
    lemma_max_run_newline(tail4, 2);
    assert(forall|i: int| 0 <= i < dims.len() ==> #[trigger] dims[i] != NEWLINE);
    lemma_max_run_no_newline(dims, seq![NEWLINE] + tail5, 0);
    lemma_max_run_newline(tail5, dims.len());
    assert(forall|i: int| 0 <= i < maxval.len() ==> #[trigger] maxval[i] != NEWLINE);
    lemma_max_run_no_newline(maxval, seq![NEWLINE] + (body + seq![NEWLINE]), 0);
    lemma_max_run_newline(body + seq![NEWLINE], 3);
    lemma_ppm_body_run(vals, 0);
    assert(dims.len() <= 41);
}

/// A PPM stream always closes with a newline.
pub proof fn lemma_ppm_ends_in_newline(width: nat, height: nat, vals: Seq<u8>)
    ensures
        spec_ppm(width, height, vals).len() >= 1,
        spec_ppm(width, height, vals).last() == NEWLINE,
{
}

/// Pixel `p` of the RGBA buffer `r` holds pixel `p` of the RGB samples,
/// followed by a fully opaque alpha byte.
pub open spec fn rgba_pixel_matches(samples: Seq<u8>, r: Seq<u8>, p: int) -> bool {
    &&& r[4 * p] == samples[3 * p]
    &&& r[4 * p + 1] == samples[3 * p + 1]
    &&& r[4 * p + 2] == samples[3 * p + 2]
    &&& r[4 * p + 3] == 255
}

/// A raw RGBA byte buffer built from RGB samples: each pixel's three sample
/// bytes are kept and a fully opaque alpha byte is appended.
pub fn rgba_from_samples(samples: &Vec<u8>) -> (r: Vec<u8>)
    requires
        samples@.len() % 3 == 0,
    ensures
        r@.len() == samples@.len() / 3 * 4,
        forall|p: int| 0 <= p < samples@.len() / 3 ==> #[trigger] rgba_pixel_matches(samples@, r@, p),
{
    let n = samples.len();
    let n_pixels = n / 3;
    let mut r: Vec<u8> = Vec::new();
    let mut p: usize = 0;
    while p < n_pixels
        invariant
            p <= n_pixels,
            n == samples@.len(),
            n_pixels == samples@.len() / 3,
            samples@.len() % 3 == 0,
            r@.len() == 4 * p,
            forall|q: int| 0 <= q < p ==> #[trigger] rgba_pixel_matches(samples@, r@, q),
        decreases n_pixels - p,
    {
        assert(3 * (n as int / 3) == n as int);
        assert(3 * p + 2 < n);
        let ghost before = r@;
        r.push(samples[3 * p]);
        r.push(samples[3 * p + 1]);
        r.push(samples[3 * p + 2]);
        r.push(255);
        proof {
            assert forall|q: int| 0 <= q < p + 1 implies rgba_pixel_matches(samples@, r@, q) by {
                if q < p {
                    assert(rgba_pixel_matches(samples@, before, q));
                    assert(4 * q + 3 < before.len());
                } else {
                    assert(r@[4 * q] == samples@[3 * q]);
                }
            }
        }
        p = p + 1;
    }
    r
}

} // verus!
