//! Clipping policies over flat byte buffers.
//!
//! Two-sided clipping clamps every element into `[low, high]`, where each
//! bound is a percentile cutoff or a default (0 below, 255 above) when that
//! side's percentile is absent. Hot-pixel suppression is the one-sided
//! specialization that caps every element at a single high-side cutoff.

use vstd::prelude::*;
use crate::percentile::Percentile;
use crate::percentile::count_below;
use crate::percentile::cutoff_index;
use crate::percentile::cutoff_spec;
use crate::percentile::is_rank;
use crate::percentile::lemma_cutoff_index_in_bounds;
use crate::percentile::lemma_cutoff_index_mono;
use crate::percentile::lemma_rank_exists;
use crate::percentile::lemma_rank_unique;
use crate::percentile::lemma_rank_value_mono;
use crate::percentile::percentile_cutoff;
use crate::percentile::rank_value;

verus! {

/// Failures surfaced by the pixel operations.
#[derive(Debug)]
pub enum PixelsError {
    /// A supplied percentile lies outside `[0, 100]` (or is not a number).
    PercentileOutOfRange,
    /// Both percentiles were supplied with the low one above the high one.
    LowAboveHigh,
    /// An operation that requires pixels was handed an empty buffer.
    EmptyBuffer,
    /// The kernel radius of a median filter was zero.
    InvalidKernelRadius,
    /// The image bytes could not be decoded; holds the decoder diagnostic.
    Decode(String),
    /// The decoded byte count does not match width x height x channels.
    BufferMismatch,
    /// The output image could not be encoded; holds the encoder diagnostic.
    Encode(String),
}

impl PixelsError {
    /// The text that `message` returns for each failure.
    pub open spec fn message_spec(&self) -> Seq<char> {
        match self {
            PixelsError::PercentileOutOfRange => "Percentile must be between 0 and 100"@,
            PixelsError::LowAboveHigh => "low_percentile must be <= high_percentile"@,
            PixelsError::EmptyBuffer => "Pixel buffer must not be empty"@,
            PixelsError::InvalidKernelRadius => "Kernel radius must be positive"@,
            PixelsError::Decode(d) => "Image decode error: "@ + d@,
            PixelsError::BufferMismatch => "Buffer length mismatch"@,
            PixelsError::Encode(d) => "PNG encode error: "@ + d@,
        }
    }

    /// A human-readable description of the failure.
    pub fn message(&self) -> (r: String)
        ensures
            r@ == self.message_spec(),
    {
        broadcast use vstd::string::to_string_from_display_ensures_for_str;

        match self {
            PixelsError::PercentileOutOfRange => "Percentile must be between 0 and 100".to_string(),
            PixelsError::LowAboveHigh => "low_percentile must be <= high_percentile".to_string(),
            PixelsError::EmptyBuffer => "Pixel buffer must not be empty".to_string(),
            PixelsError::InvalidKernelRadius => "Kernel radius must be positive".to_string(),
            PixelsError::Decode(d) => {
                let mut m = "Image decode error: ".to_string();
                m.append(d.as_str());
                m
            },
            PixelsError::BufferMismatch => "Buffer length mismatch".to_string(),
            PixelsError::Encode(d) => {
                let mut m = "PNG encode error: ".to_string();
                m.append(d.as_str());
                m
            },
        }
    }
}

/// One element clamped into `[lo, hi]`.
pub open spec fn clamp_byte(x: u8, lo: u8, hi: u8) -> u8 {
    if x < lo {
        lo
    } else if x > hi {
        hi
    } else {
        x
    }
}

/// One element capped at `c`.
pub open spec fn min_byte(x: u8, c: u8) -> u8 {
    if x < c {
        x
    } else {
        c
    }
}

/// The whole buffer clamped element-wise into `[lo, hi]`, order preserved.
pub open spec fn clip_seq(s: Seq<u8>, lo: u8, hi: u8) -> Seq<u8> {
    s.map_values(|x: u8| clamp_byte(x, lo, hi))
}

/// The whole buffer capped element-wise at `c`, order preserved.
pub open spec fn suppress_seq(s: Seq<u8>, c: u8) -> Seq<u8> {
    s.map_values(|x: u8| min_byte(x, c))
}

/// The effective low bound: the low cutoff, or 0 when there is none.
pub open spec fn low_bound_spec(s: Seq<u8>, low: Option<Percentile>) -> u8 {
    match cutoff_spec(s, low) {
        Option::Some(c) => c,
        Option::None => 0,
    }
}

/// The effective high bound: the high cutoff, or 255 when there is none.
pub open spec fn high_bound_spec(s: Seq<u8>, high: Option<Percentile>) -> u8 {
    match cutoff_spec(s, high) {
        Option::Some(c) => c,
        Option::None => 255,
    }
}

/// A supplied percentile must lie in `[0, 100]`; an absent one is fine.
pub open spec fn supplied_in_range(pct: Option<Percentile>) -> bool {
    match pct {
        Option::Some(p) => p.in_range(),
        Option::None => true,
    }
}

/// Whether the percentile pair is rejected, and why: out-of-range wins over
/// mis-ordering, mirroring the order of the checks at the API boundary.
pub open spec fn percentile_pair_error(low: Option<Percentile>, high: Option<Percentile>) -> Option<
    PixelsError,
> {
    if !supplied_in_range(low) || !supplied_in_range(high) {
        Option::Some(PixelsError::PercentileOutOfRange)
    } else if low is Some && high is Some && !low->Some_0.spec_le(high->Some_0) {
        Option::Some(PixelsError::LowAboveHigh)
    } else {
        Option::None
    }
}

/// Validates a pair of optional percentiles: each supplied one must lie in
/// `[0, 100]`, and when both are supplied the low one must not exceed the
/// high one.
pub fn validate_percentile_pair(low: Option<Percentile>, high: Option<Percentile>) -> (r: Result<
    (),
    PixelsError,
>)
    ensures
        r matches Err(e) ==> Some(e) == percentile_pair_error(low, high),
        r is Ok <==> percentile_pair_error(low, high) is None,
{
    if let Some(p) = &low {
        if !p.check_in_range() {
            return Err(PixelsError::PercentileOutOfRange);
        }
    }
    if let Some(p) = &high {
        if !p.check_in_range() {
            return Err(PixelsError::PercentileOutOfRange);
        }
    }
    if let (Some(lp), Some(hp)) = (&low, &high) {
        if !lp.check_le(hp) {
            return Err(PixelsError::LowAboveHigh);
        }
    }
    Ok(())
}

/// Clips `pixels` element-wise into the bounds selected by the optional
/// percentiles, after validating them.
///
/// With both percentiles absent the buffer is returned unchanged. Otherwise
/// each side's bound is its percentile cutoff over the original buffer, or
/// the extreme byte value when that side is absent; every element is clamped
/// into `[low, high]` in place of its original position.
pub fn clip(pixels: &Vec<u8>, low: Option<Percentile>, high: Option<Percentile>) -> (r: Result<
    Vec<u8>,
    PixelsError,
>)
    ensures
        r matches Err(e) ==> Some(e) == percentile_pair_error(low, high),
        r is Ok <==> percentile_pair_error(low, high) is None,
        r matches Ok(out) ==> out@ == clip_seq(
            pixels@,
            low_bound_spec(pixels@, low),
            high_bound_spec(pixels@, high),
        ),
        (r is Ok && low is None && high is None) ==> r->Ok_0@ == pixels@,
{
    if let Err(e) = validate_percentile_pair(low, high) {
        return Err(e);
    }
    if low.is_none() && high.is_none() {
        let out = pixels.clone();
        proof {
            assert(clip_seq(pixels@, 0, 255) =~= pixels@);
        }
        return Ok(out);
    }
    let low_cutoff = percentile_cutoff(pixels, low);
    let high_cutoff = percentile_cutoff(pixels, high);
    let low_val: u8 = match low_cutoff {
        Some(c) => c,
        None => 0,
    };
    let high_val: u8 = match high_cutoff {
        Some(c) => c,
        None => 255,
    };
    let n = pixels.len();
    let mut out: Vec<u8> = Vec::new();
    let mut i: usize = 0;
    while i < n
        invariant
            n == pixels@.len(),
            i <= n,
            out@.len() == i,
            forall|j: int| 0 <= j < i ==> out@[j] == clamp_byte(pixels@[j], low_val, high_val),
        decreases n - i,
    {
        let x = pixels[i];
        if x < low_val {
            out.push(low_val);
        } else if x > high_val {
            out.push(high_val);
        } else {
            out.push(x);
        }
        i = i + 1;
    }
    proof {
        assert(out@ =~= clip_seq(pixels@, low_val, high_val));
    }
    Ok(out)
}

/// The cutoff that hot-pixel suppression applies: the order statistic of
/// percentile `p` over `s`.
pub open spec fn hot_cutoff_spec(s: Seq<u8>, p: Percentile) -> u8 {
    rank_value(s, cutoff_index(p, s.len() as int))
}

/// The result of hot-pixel suppression: every element capped at the cutoff.
pub open spec fn suppress_spec(s: Seq<u8>, p: Percentile) -> Seq<u8> {
    suppress_seq(s, hot_cutoff_spec(s, p))
}

/// Caps every element of `pixels` at the percentile cutoff for `p`.
///
/// The percentile must lie in `[0, 100]` and the buffer must be non-empty;
/// unlike the cutoff engine's defensive no-cutoff answer, an empty buffer is
/// rejected here because the percentile is mandatory.
pub fn suppress_hot_pixels(pixels: &Vec<u8>, p: Percentile) -> (r: Result<Vec<u8>, PixelsError>)
    ensures
        !p.in_range() ==> (r matches Err(e) && e == PixelsError::PercentileOutOfRange),
        p.in_range() && pixels@.len() == 0 ==> (r matches Err(e) && e == PixelsError::EmptyBuffer),
        r is Ok <==> (p.in_range() && pixels@.len() > 0),
        r matches Ok(out) ==> out@ == suppress_spec(pixels@, p),
{
    if !p.check_in_range() {
        return Err(PixelsError::PercentileOutOfRange);
    }
    let n = pixels.len();
    if n == 0 {
        return Err(PixelsError::EmptyBuffer);
    }
    // the buffer is non-empty and a percentile was supplied, so there is a cutoff
    let cutoff = match percentile_cutoff(pixels, Some(p)) {
        Some(c) => c,
        None => vstd::pervasive::unreached(),
    };
    let mut out: Vec<u8> = Vec::new();
    let mut i: usize = 0;
    while i < n
        invariant
            n == pixels@.len(),
            i <= n,
            out@.len() == i,
            forall|j: int| 0 <= j < i ==> out@[j] == min_byte(pixels@[j], cutoff),
        decreases n - i,
    {
        let x = pixels[i];
        if x < cutoff {
            out.push(x);
        } else {
            out.push(cutoff);
        }
        i = i + 1;
    }
    proof {
        assert(out@ =~= suppress_seq(pixels@, cutoff));
    }
    Ok(out)
}

/// With valid, ordered percentiles the effective bounds are ordered, every
/// clipped element lies within them, and elements already within them are
/// left unchanged.
pub proof fn lemma_clip_bounds(s: Seq<u8>, low: Option<Percentile>, high: Option<Percentile>)
    requires
        supplied_in_range(low),
        supplied_in_range(high),
        low is Some && high is Some ==> low->Some_0.spec_le(high->Some_0),
    ensures
        low_bound_spec(s, low) <= high_bound_spec(s, high),
        forall|i: int|
            0 <= i < s.len() ==> low_bound_spec(s, low) <= #[trigger] clip_seq(
                s,
                low_bound_spec(s, low),
                high_bound_spec(s, high),
            )[i] <= high_bound_spec(s, high),
        forall|i: int|
            0 <= i < s.len() && low_bound_spec(s, low) <= s[i] <= high_bound_spec(s, high)
                ==> #[trigger] clip_seq(s, low_bound_spec(s, low), high_bound_spec(s, high))[i]
                == s[i],
{
    let lo = low_bound_spec(s, low);
    let hi = high_bound_spec(s, high);
    if low is Some && high is Some && s.len() > 0 {
        let pl = low->Some_0;
        let ph = high->Some_0;
        let k1 = cutoff_index(pl, s.len() as int);
        let k2 = cutoff_index(ph, s.len() as int);
        lemma_cutoff_index_in_bounds(pl, s.len() as int);
        lemma_cutoff_index_in_bounds(ph, s.len() as int);
        lemma_cutoff_index_mono(pl, ph, s.len() as int);
        lemma_rank_value_mono(s, k1, k2);
        assert(lo <= hi);
    }
    assert(lo <= hi);
    assert forall|i: int| 0 <= i < s.len() implies lo <= #[trigger] clip_seq(s, lo, hi)[i]
        <= hi by {
        assert(clip_seq(s, lo, hi)[i] == clamp_byte(s[i], lo, hi));
    }
}

/// Every element within the percentile's cutoff stays unchanged, and none
/// rises above it.
pub proof fn lemma_suppress_within_cutoff(s: Seq<u8>, p: Percentile)
    requires
        p.wf(),
        s.len() > 0,
    ensures
        forall|i: int|
            0 <= i < s.len() ==> #[trigger] suppress_spec(s, p)[i] <= hot_cutoff_spec(s, p),
        forall|i: int|
            0 <= i < s.len() && s[i] <= hot_cutoff_spec(s, p) ==> #[trigger] suppress_spec(
                s,
                p,
            )[i] == s[i],
{
    let c = hot_cutoff_spec(s, p);
    assert forall|i: int| 0 <= i < s.len() implies #[trigger] suppress_spec(s, p)[i] <= c by {
        assert(suppress_spec(s, p)[i] == min_byte(s[i], c));
    }
}

/// Capping at `c` does not change how many elements lie below any bound
/// at or beneath `c`.
proof fn lemma_count_below_suppress_le(s: Seq<u8>, c: u8, v: int)
    requires
        v <= c as int,
    ensures
        count_below(suppress_seq(s, c), v) == count_below(s, v),
    decreases s.len(),
{
    if s.len() > 0 {
        lemma_count_below_suppress_le(s.drop_last(), c, v);
        assert(suppress_seq(s, c).drop_last() =~= suppress_seq(s.drop_last(), c));
        assert(suppress_seq(s, c).last() == min_byte(s.last(), c));
    }
}

/// After capping at `c`, every element lies below `c + 1`.
proof fn lemma_count_below_suppress_all(s: Seq<u8>, c: u8)
    ensures
        count_below(suppress_seq(s, c), c as int + 1) == s.len(),
    decreases s.len(),
{
    if s.len() > 0 {
        lemma_count_below_suppress_all(s.drop_last(), c);
        assert(suppress_seq(s, c).drop_last() =~= suppress_seq(s.drop_last(), c));
        assert(suppress_seq(s, c).last() == min_byte(s.last(), c));
    }
}

/// Hot-pixel suppression is idempotent: a second pass with the same
/// percentile finds the same cutoff, under which every element already lies,
/// and changes nothing.
pub proof fn lemma_suppress_idempotent(s: Seq<u8>, p: Percentile)
    requires
        p.wf(),
        s.len() > 0,
    ensures
        suppress_spec(suppress_spec(s, p), p) == suppress_spec(s, p),
{
    let k = cutoff_index(p, s.len() as int);
    lemma_cutoff_index_in_bounds(p, s.len() as int);
    lemma_rank_exists(s, k);
    let c = rank_value(s, k);
    let s2 = suppress_seq(s, c);
    assert(s2.len() == s.len());
    lemma_count_below_suppress_le(s, c, c as int);
    lemma_count_below_suppress_all(s, c);
    assert(is_rank(s2, k, c));
    lemma_rank_exists(s2, k);
    lemma_rank_unique(s2, k, c, rank_value(s2, k));
    assert(hot_cutoff_spec(s2, p) == c);
    assert(suppress_seq(s2, c) =~= s2);
}

} // verus!
