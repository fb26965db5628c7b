use std::time::Duration;

use music_terminal_player::time::{format_duration, format_elapsed, progress_bar, Span};

fn span(duration: Duration) -> Span {
    Span::new(duration.as_secs(), duration.subsec_nanos())
}

/// The bar as floating-point arithmetic fills it.
fn float_bar(elapsed: Duration, total: Duration, width: usize) -> String {
    let filled = if total.is_zero() {
        0
    } else {
        ((elapsed.as_secs_f64() / total.as_secs_f64()) * width as f64)
            .round()
            .clamp(0.0, width as f64) as usize
    };
    format!("{}{}", "/".repeat(filled), " ".repeat(width - filled))
}

#[test]
fn bars_agree_with_floating_point_arithmetic() {
    for width in [0, 1, 5, 10, 12, 52] {
        for total in [0u64, 1, 7, 60, 61, 185, 240, 3600] {
            for step in 0..=total * 2 {
                let elapsed = Duration::from_secs(step);
                let total = Duration::from_secs(total);
                assert_eq!(
                    progress_bar(span(elapsed), Some(span(total)), width),
                    float_bar(elapsed, total, width)
                );
            }
        }
        for millis in (0..200_000).step_by(777) {
            let elapsed = Duration::from_millis(millis);
            let total = Duration::from_millis(187_654);
            assert_eq!(
                progress_bar(span(elapsed), Some(span(total)), width),
                float_bar(elapsed, total, width)
            );
        }
    }
    assert_eq!(progress_bar(Span::from_secs(9), None, 4), "    ");
}

#[test]
fn played_times_and_lengths_are_written_out() {
    assert_eq!(format_elapsed(Span::from_secs(0)), "0m 00s");
    assert_eq!(format_elapsed(Span::from_secs(3599)), "59m 59s");
    assert_eq!(format_elapsed(Span::from_secs(3600)), "1h 00m 00s");
    assert_eq!(format_elapsed(Span::from_secs(36_061)), "10h 01m 01s");
    assert_eq!(format_duration(Span::from_secs(5)), "0:05");
    assert_eq!(format_duration(Span::from_secs(3725)), "62:05");
    assert_eq!(format_duration(Span::from_millis(61_999)), "1:01");
}

#[test]
fn spans_add_and_subtract_like_durations() {
    let samples = [
        Duration::ZERO,
        Duration::from_nanos(1),
        Duration::from_millis(999),
        Duration::from_secs(1),
        Duration::new(7, 999_999_999),
        Duration::new(u64::MAX, 1),
        Duration::MAX,
    ];
    for a in samples {
        for b in samples {
            assert_eq!(span(a).plus(span(b)), span(a.saturating_add(b)));
            assert_eq!(span(a).minus(span(b)), span(a.saturating_sub(b)));
            assert_eq!(span(a).shorter_than(span(b)), a < b);
        }
    }
}
