use monitor::encoder::{EncoderSettings, Watchdog, WatchdogAction, MAX_RETRIES, STABLE_RUN_SECS};

#[test]
fn encoder_arguments() {
    let s = EncoderSettings::new("rtsp://localhost:8554/display".to_string(), 1920, 1080, 30);
    assert_eq!(s.resolution(), (1920, 1080));
    assert_eq!(
        s.args(),
        vec![
            "-y", "-f", "rawvideo", "-pix_fmt", "bgra", "-s", "1920x1080", "-r", "30", "-i",
            "pipe:0", "-vf", "format=yuv420p", "-vcodec", "libx264", "-preset", "ultrafast",
            "-tune", "zerolatency", "-b:v", "4M", "-g", "30", "-keyint_min", "30", "-fflags",
            "nobuffer", "-f", "rtsp", "-rtsp_transport", "tcp", "rtsp://localhost:8554/display",
        ]
    );
}

#[test]
fn encoder_gop_is_at_least_two() {
    let args = EncoderSettings::new("u".to_string(), 2, 2, 1).args();
    assert_eq!(args[8], "1");
    assert_eq!(args[22], "2");
    assert_eq!(args[24], "2");
}

#[test]
fn watchdog_restarts_five_times_then_gives_up() {
    assert_eq!(MAX_RETRIES, 5);
    let mut w = Watchdog::new();
    for _ in 0..5 {
        assert!(w.on_poll(false, 1) == WatchdogAction::Restart);
    }
    assert!(w.on_poll(false, 1) == WatchdogAction::GiveUp);
}

#[test]
fn watchdog_keeps_polling_while_alive() {
    let mut w = Watchdog::new();
    for t in 0..100 {
        assert!(w.on_poll(true, t) == WatchdogAction::Continue);
    }
}

#[test]
fn stable_run_resets_the_failure_count() {
    let mut w = Watchdog::new();
    for _ in 0..5 {
        assert!(w.on_poll(false, 2) == WatchdogAction::Restart);
    }
    // A long run before the next stop clears the history.
    assert!(w.on_poll(false, STABLE_RUN_SECS + 1) == WatchdogAction::Restart);
    for _ in 0..4 {
        assert!(w.on_poll(false, 0) == WatchdogAction::Restart);
    }
    assert!(w.on_poll(false, 0) == WatchdogAction::GiveUp);
}

#[test]
fn long_alive_run_also_resets_the_failure_count() {
    let mut w = Watchdog::new();
    for _ in 0..5 {
        assert!(w.on_poll(false, 0) == WatchdogAction::Restart);
    }
    assert!(w.on_poll(true, STABLE_RUN_SECS + 5) == WatchdogAction::Continue);
    for _ in 0..5 {
        assert!(w.on_poll(false, 0) == WatchdogAction::Restart);
    }
    assert!(w.on_poll(false, STABLE_RUN_SECS) == WatchdogAction::GiveUp);
}

#[test]
fn watchdog_counts_failures_in_a_row() {
    let mut w = Watchdog::new();
    assert_eq!(w.failure_count(), 0);
    w.on_poll(false, 1);
    w.on_poll(false, 1);
    assert_eq!(w.failure_count(), 2);
    w.on_poll(true, STABLE_RUN_SECS + 1);
    assert_eq!(w.failure_count(), 0);
}
