use audio_scrollback::{tick_sequence, RangeError, Step, Tick, Timeline};

#[test]
fn ticks_every_calibration_interval() {
    let ticks = tick_sequence(100, 10, (0, 100)).unwrap();
    let times: Vec<u64> = ticks.iter().map(|t| t.time).collect();
    assert_eq!(times, vec![0, 10, 20, 30, 40, 50, 60, 70, 80, 90, 100]);
    let pixels: Vec<u32> = ticks.iter().map(|t| t.pixel).collect();
    assert_eq!(pixels, vec![0, 10, 20, 30, 40, 50, 60, 70, 80, 90, 100]);
}

#[test]
fn one_tick_per_gridline_when_pixels_are_fine() {
    // 200 pixels over 100 ms: half a millisecond per pixel.
    let ticks = tick_sequence(200, 25, (0, 100)).unwrap();
    assert_eq!(
        ticks,
        vec![
            Tick { pixel: 0, time: 0 },
            Tick { pixel: 50, time: 25 },
            Tick { pixel: 100, time: 50 },
            Tick { pixel: 150, time: 75 },
            Tick { pixel: 200, time: 100 },
        ]
    );
}

#[test]
fn offset_range_marks_first_pixel_past_gridline() {
    // 3 ms per pixel from 7 ms on: the pixels at 10, 22 (past 20), 31 (past 30) ...
    let ticks = tick_sequence(10, 10, (7, 37)).unwrap();
    assert_eq!(
        ticks,
        vec![Tick { pixel: 1, time: 10 }, Tick { pixel: 5, time: 22 }, Tick { pixel: 8, time: 31 }]
    );
}

#[test]
fn zero_width_has_no_ticks() {
    assert_eq!(tick_sequence(0, 10, (0, 100)).unwrap(), vec![]);
}

#[test]
fn zero_calibration_has_no_ticks() {
    assert_eq!(tick_sequence(100, 0, (0, 100)).unwrap(), vec![]);
}

#[test]
fn empty_time_range_is_refused() {
    assert_eq!(tick_sequence(100, 10, (50, 50)), Err(RangeError::InvalidRange));
    assert_eq!(tick_sequence(100, 10, (60, 50)), Err(RangeError::InvalidRange));
}

#[test]
fn stepper_is_lazy_and_restartable() {
    let step = Step { pixel_width: 100, calibration: 50, time_range: (0, 100) };
    for _ in 0..2 {
        let mut it = step.iter();
        assert_eq!(it.next(), Some(Tick { pixel: 0, time: 0 }));
        assert_eq!(it.next(), Some(Tick { pixel: 50, time: 50 }));
        assert_eq!(it.next(), Some(Tick { pixel: 100, time: 100 }));
        assert_eq!(it.next(), None);
        assert_eq!(it.next(), None);
    }
}

#[test]
fn every_fifth_tick_is_major() {
    let t = Timeline::new();
    let majors: Vec<usize> = (0..12).filter(|&n| t.is_major(n)).collect();
    assert_eq!(majors, vec![0, 5, 10]);
}
