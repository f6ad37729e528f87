use pixelops::clip::clip;
use pixelops::clip::suppress_hot_pixels;
use pixelops::clip::PixelsError;
use pixelops::percentile::percentile_cutoff;
use pixelops::percentile::Percentile;

fn sample_buffer() -> Vec<u8> {
    vec![10, 20, 30, 40, 50]
}

#[test]
fn cutoff_basic_percentile() {
    // index = floor(0.4 * 5) = 2, the third-smallest element
    let buf = sample_buffer();
    let r = percentile_cutoff(&buf, Some(Percentile::whole(40)));
    assert_eq!(r, Some(30));
}

#[test]
fn cutoff_is_order_independent() {
    let buf = vec![50, 10, 40, 20, 30];
    let r = percentile_cutoff(&buf, Some(Percentile::whole(40)));
    assert_eq!(r, Some(30));
}

#[test]
fn cutoff_absent_percentile_is_none() {
    let buf = sample_buffer();
    assert_eq!(percentile_cutoff(&buf, None), None);
}

#[test]
fn cutoff_empty_buffer_is_none() {
    let buf: Vec<u8> = Vec::new();
    assert_eq!(percentile_cutoff(&buf, Some(Percentile::whole(50))), None);
}

#[test]
fn cutoff_zero_returns_minimum() {
    let buf = vec![42, 7, 99, 13];
    assert_eq!(percentile_cutoff(&buf, Some(Percentile::whole(0))), Some(7));
}

#[test]
fn cutoff_hundred_returns_maximum() {
    let buf = vec![42, 7, 99, 13];
    assert_eq!(percentile_cutoff(&buf, Some(Percentile::whole(100))), Some(99));
}

#[test]
fn cutoff_clamps_out_of_range_percentiles() {
    // the engine defensively clamps into [0, 100] rather than rejecting
    let buf = sample_buffer();
    assert_eq!(percentile_cutoff(&buf, Some(Percentile::whole(-5))), Some(10));
    assert_eq!(percentile_cutoff(&buf, Some(Percentile::whole(150))), Some(50));
}

#[test]
fn cutoff_fractional_percentile() {
    // 40.5% of 5 elements: index = floor(0.405 * 5) = 2
    let buf = sample_buffer();
    let r = percentile_cutoff(&buf, Some(Percentile::new(405, 10)));
    assert_eq!(r, Some(30));
}

#[test]
fn cutoff_value_is_present_in_buffer() {
    let buf = vec![9, 4, 250, 4, 17, 123];
    for p in [0i64, 10, 35, 50, 77, 90, 100] {
        let c = percentile_cutoff(&buf, Some(Percentile::whole(p))).unwrap();
        assert!(buf.contains(&c));
    }
}

#[test]
fn clip_identity_when_no_percentiles() {
    let buf = sample_buffer();
    let out = clip(&buf, None, None).unwrap();
    assert_eq!(out, buf);
}

#[test]
fn clip_two_sided_scenario() {
    // low index = floor(0.2 * 5) = 1 -> 20; high index = floor(0.8 * 5) = 4 -> 50
    let buf = sample_buffer();
    let out = clip(&buf, Some(Percentile::whole(20)), Some(Percentile::whole(80))).unwrap();
    assert_eq!(out, vec![20, 20, 30, 40, 50]);
}

#[test]
fn clip_keeps_elements_within_bounds() {
    let buf = vec![0, 255, 10, 200, 30];
    // low cutoff: index floor(0.2 * 5) = 1 -> 10; high: index 4 -> 255
    let out = clip(&buf, Some(Percentile::whole(20)), Some(Percentile::whole(80))).unwrap();
    assert_eq!(out, vec![10, 255, 10, 200, 30]);
    for (x, y) in buf.iter().zip(out.iter()) {
        assert!((10..=255).contains(y));
        if (10..=255).contains(x) {
            assert_eq!(x, y);
        }
    }
}

#[test]
fn clip_low_side_only() {
    let buf = sample_buffer();
    // high bound defaults to 255
    let out = clip(&buf, Some(Percentile::whole(40)), None).unwrap();
    assert_eq!(out, vec![30, 30, 30, 40, 50]);
}

#[test]
fn clip_high_side_only() {
    let buf = sample_buffer();
    // low bound defaults to 0
    let out = clip(&buf, None, Some(Percentile::whole(40))).unwrap();
    assert_eq!(out, vec![10, 20, 30, 30, 30]);
}

#[test]
fn clip_rejects_low_above_high() {
    let buf = sample_buffer();
    let r = clip(&buf, Some(Percentile::whole(60)), Some(Percentile::whole(40)));
    assert!(matches!(r, Err(PixelsError::LowAboveHigh)));
}

#[test]
fn clip_rejects_out_of_range_percentiles() {
    let buf = sample_buffer();
    let r = clip(&buf, Some(Percentile::whole(-5)), None);
    assert!(matches!(r, Err(PixelsError::PercentileOutOfRange)));
    let r = clip(&buf, None, Some(Percentile::whole(150)));
    assert!(matches!(r, Err(PixelsError::PercentileOutOfRange)));
}

#[test]
fn clip_empty_buffer_passes_through() {
    let buf: Vec<u8> = Vec::new();
    let out = clip(&buf, Some(Percentile::whole(20)), Some(Percentile::whole(80))).unwrap();
    assert_eq!(out, Vec::<u8>::new());
}

#[test]
fn suppress_scenario() {
    // index = floor(0.4 * 5) = 2 -> cutoff 30
    let buf = sample_buffer();
    let out = suppress_hot_pixels(&buf, Percentile::whole(40)).unwrap();
    assert_eq!(out, vec![10, 20, 30, 30, 30]);
}

#[test]
fn suppress_output_never_exceeds_cutoff() {
    let buf = vec![200, 3, 255, 90, 90, 14, 255];
    let p = Percentile::whole(60);
    let cutoff = percentile_cutoff(&buf, Some(p)).unwrap();
    let out = suppress_hot_pixels(&buf, p).unwrap();
    assert_eq!(out.len(), buf.len());
    for (x, y) in buf.iter().zip(out.iter()) {
        assert!(*y <= cutoff);
        if *x <= cutoff {
            assert_eq!(x, y);
        }
    }
}

#[test]
fn suppress_is_idempotent() {
    let buf = vec![200, 3, 255, 90, 90, 14, 255, 0, 77];
    let p = Percentile::whole(55);
    let once = suppress_hot_pixels(&buf, p).unwrap();
    let twice = suppress_hot_pixels(&once, p).unwrap();
    assert_eq!(once, twice);
}

#[test]
fn suppress_rejects_empty_buffer() {
    let buf: Vec<u8> = Vec::new();
    let r = suppress_hot_pixels(&buf, Percentile::whole(40));
    assert!(matches!(r, Err(PixelsError::EmptyBuffer)));
}

#[test]
fn suppress_rejects_out_of_range_percentile() {
    let buf = sample_buffer();
    let r = suppress_hot_pixels(&buf, Percentile::whole(150));
    assert!(matches!(r, Err(PixelsError::PercentileOutOfRange)));
    let r = suppress_hot_pixels(&buf, Percentile::whole(-1));
    assert!(matches!(r, Err(PixelsError::PercentileOutOfRange)));
}

#[test]
fn error_messages() {
    assert_eq!(
        PixelsError::PercentileOutOfRange.message(),
        "Percentile must be between 0 and 100"
    );
    assert_eq!(
        PixelsError::LowAboveHigh.message(),
        "low_percentile must be <= high_percentile"
    );
    assert_eq!(PixelsError::EmptyBuffer.message(), "Pixel buffer must not be empty");
    assert_eq!(PixelsError::InvalidKernelRadius.message(), "Kernel radius must be positive");
    assert_eq!(
        PixelsError::Decode("bad header".to_string()).message(),
        "Image decode error: bad header"
    );
    assert_eq!(PixelsError::BufferMismatch.message(), "Buffer length mismatch");
    assert_eq!(
        PixelsError::Encode("zero size".to_string()).message(),
        "PNG encode error: zero size"
    );
}
