//! The encoder process's command line and the watchdog that restarts it.
use vstd::prelude::*;
use crate::source::views;
use crate::text::{decimal, owned, u32_to_decimal, writes_decimal, lemma_decimal_writes};

verus! {

/// Restarts in a row, without a stable run in between, before the watchdog gives up.
pub const MAX_RETRIES: u32 = 5;

/// Seconds to wait before restarting the encoder.
pub const RETRY_DELAY_SECS: u64 = 3;

/// A run lasting longer than this many seconds resets the failure count.
pub const STABLE_RUN_SECS: u64 = 30;

/// Settings of the encoder process, which reads raw BGRA frames on its standard input and
/// publishes an H.264 stream over RTSP.
pub struct EncoderSettings {
    pub rtsp_url: String,
    pub width: u32,
    pub height: u32,
    pub fps: u32,
}

/// The group-of-pictures length: the frame rate, but at least 2.
pub open spec fn gop_length(fps: u32) -> u32 {
    if fps > 2 { fps } else { 2 }
}

/// The encoder process's arguments.
pub open spec fn encoder_args(width: u32, height: u32, fps: u32, url: Seq<char>) -> Seq<Seq<char>> {
    let gop = decimal(gop_length(fps) as nat);
    seq![
        "-y"@, "-f"@, "rawvideo"@, "-pix_fmt"@, "bgra"@,
        "-s"@, decimal(width as nat) + "x"@ + decimal(height as nat),
        "-r"@, decimal(fps as nat), "-i"@, "pipe:0"@, "-vf"@, "format=yuv420p"@,
        "-vcodec"@, "libx264"@, "-preset"@, "ultrafast"@, "-tune"@, "zerolatency"@,
        "-b:v"@, "4M"@, "-g"@, gop, "-keyint_min"@, gop, "-fflags"@, "nobuffer"@,
        "-f"@, "rtsp"@, "-rtsp_transport"@, "tcp"@, url,
    ]
}

impl EncoderSettings {
    pub fn new(rtsp_url: String, width: u32, height: u32, fps: u32) -> (s: Self)
        ensures
            s.rtsp_url@ == rtsp_url@,
            s.width == width,
            s.height == height,
            s.fps == fps,
    {
        EncoderSettings { rtsp_url, width, height, fps }
    }

    /// The canvas resolution the encoder expects.
    pub fn resolution(&self) -> (r: (u32, u32))
        ensures
            r == (self.width, self.height),
    {
        (self.width, self.height)
    }

    /// The encoder process's arguments.
    pub fn args(&self) -> (v: Vec<String>)
        ensures
            views(v@) == encoder_args(self.width, self.height, self.fps, self.rtsp_url@),
    {
        let gop: u32 = if self.fps > 2 { self.fps } else { 2 };
        let mut v: Vec<String> = Vec::new();
        v.push(owned("-y"));
        v.push(owned("-f"));
        v.push(owned("rawvideo"));
        v.push(owned("-pix_fmt"));
        v.push(owned("bgra"));
        v.push(owned("-s"));
        let mut size = u32_to_decimal(self.width);
        size.append("x");
        size.append(u32_to_decimal(self.height).as_str());
        v.push(size);
        v.push(owned("-r"));
        v.push(u32_to_decimal(self.fps));
        v.push(owned("-i"));
        v.push(owned("pipe:0"));
        v.push(owned("-vf"));
        v.push(owned("format=yuv420p"));
        v.push(owned("-vcodec"));
        v.push(owned("libx264"));
        v.push(owned("-preset"));
        v.push(owned("ultrafast"));
        v.push(owned("-tune"));
        v.push(owned("zerolatency"));
        v.push(owned("-b:v"));
        v.push(owned("4M"));
        v.push(owned("-g"));
        v.push(u32_to_decimal(gop));
        v.push(owned("-keyint_min"));
        v.push(u32_to_decimal(gop));
        v.push(owned("-fflags"));
        v.push(owned("nobuffer"));
        v.push(owned("-f"));
        v.push(owned("rtsp"));
        v.push(owned("-rtsp_transport"));
        v.push(owned("tcp"));
        v.push(self.rtsp_url.clone());
        assert(views(v@) =~= encoder_args(self.width, self.height, self.fps, self.rtsp_url@));
        v
    }
}

// ---------- Watchdog ----------
/// What the watchdog does after polling the encoder.
#[derive(PartialEq, Eq, Structural)]
pub enum WatchdogAction {
    /// Keep polling.
    Continue,
    /// Restart the encoder, then keep polling.
    Restart,
    /// Stop watching: the encoder failed too often in a row.
    GiveUp,
}

/// The failure count and action after one poll: `alive` tells whether the encoder is still
/// running, `ran_for` how many seconds it has run since it was last (re)started.
pub open spec fn watchdog_step(failures: u32, alive: bool, ran_for: u64) -> (u32, WatchdogAction) {
    let base: u32 = if ran_for > STABLE_RUN_SECS { 0 } else { failures };
    if alive {
        (base, WatchdogAction::Continue)
    } else {
        let next = (base + 1) as u32;
        (next, if next > MAX_RETRIES { WatchdogAction::GiveUp } else { WatchdogAction::Restart })
    }
}

/// The watchdog's memory: how many times in a row the encoder stopped without a stable run.
pub struct Watchdog {
    consecutive_failures: u32,
}

impl Watchdog {
    pub closed spec fn failures(&self) -> u32 {
        self.consecutive_failures
    }

    /// A watchdog that has seen no failure.
    pub fn new() -> (w: Watchdog)
        ensures
            w.failures() == 0,
    {
        Watchdog { consecutive_failures: 0 }
    }

    /// How many failures in a row the watchdog has counted.
    pub fn failure_count(&self) -> (n: u32)
        ensures
            n == self.failures(),
    {
        self.consecutive_failures
    }

    /// Decides what to do after polling the encoder once. Must not be called again after it
    /// answered [`WatchdogAction::GiveUp`].
    pub fn on_poll(&mut self, alive: bool, ran_for_secs: u64) -> (action: WatchdogAction)
        requires
            old(self).failures() <= MAX_RETRIES,
        ensures
            (final(self).failures(), action) == watchdog_step(old(self).failures(), alive, ran_for_secs),
            action != WatchdogAction::GiveUp ==> final(self).failures() <= MAX_RETRIES,
    {
        if ran_for_secs > STABLE_RUN_SECS {
            self.consecutive_failures = 0;
        }
        if alive {
            return WatchdogAction::Continue;
        }
        self.consecutive_failures = self.consecutive_failures + 1;
        if self.consecutive_failures > MAX_RETRIES {
            WatchdogAction::GiveUp
        } else {
            WatchdogAction::Restart
        }
    }
}

/// The failure count and last action after `n` polls in a row that each find the encoder
/// stopped after a short run, starting from `failures`.
pub open spec fn short_failures(failures: u32, n: nat) -> (u32, WatchdogAction)
    decreases n,
{
    if n == 0 {
        (failures, WatchdogAction::Continue)
    } else {
        let (f, _) = short_failures(failures, (n - 1) as nat);
        watchdog_step(f, false, 0)
    }
}

/// Without a stable run in between, the watchdog restarts the encoder at most
/// `MAX_RETRIES` times in a row: from no failures, the first `MAX_RETRIES` stops each lead
/// to a restart and the next one to giving up.
pub proof fn lemma_watchdog_gives_up_after_max_retries(n: nat)
    requires
        1 <= n <= MAX_RETRIES + 1,
    ensures
        short_failures(0, n).0 == n,
        short_failures(0, n).1 == (if n <= MAX_RETRIES { WatchdogAction::Restart } else { WatchdogAction::GiveUp }),
    decreases n,
{
    assert(short_failures(0, 0) == (0u32, WatchdogAction::Continue));
    if n > 1 {
        lemma_watchdog_gives_up_after_max_retries((n - 1) as nat);
    }
    let prev = short_failures(0, (n - 1) as nat);
    assert(short_failures(0, n) == watchdog_step(prev.0, false, 0));
}

/// A run longer than `STABLE_RUN_SECS` clears the failure history: the next stop leads to a
/// restart whatever happened before.
pub proof fn lemma_stable_run_resets(failures: u32, ran_for: u64)
    requires
        ran_for > STABLE_RUN_SECS,
    ensures
        watchdog_step(failures, false, ran_for) == (1u32, WatchdogAction::Restart),
        watchdog_step(failures, true, ran_for) == (0u32, WatchdogAction::Continue),
{
}

/// A poll that finds the encoder alive after a run of at most `STABLE_RUN_SECS` changes
/// nothing: the failure count stays as it was, so an encoder that keeps stopping soon after
/// each restart is still given up on.
pub proof fn lemma_short_alive_run_keeps_count(failures: u32, ran_for: u64)
    requires
        ran_for <= STABLE_RUN_SECS,
    ensures
        watchdog_step(failures, true, ran_for) == (failures, WatchdogAction::Continue),
{
}

/// A poll that finds the encoder stopped after a run of at most `STABLE_RUN_SECS` adds one to
/// the failure count, and gives up exactly when the count then exceeds `MAX_RETRIES`.
pub proof fn lemma_short_run_stop_counts(failures: u32, ran_for: u64)
    requires
        ran_for <= STABLE_RUN_SECS,
        failures <= MAX_RETRIES,
    ensures
        watchdog_step(failures, false, ran_for).0 == failures + 1,
        watchdog_step(failures, false, ran_for).1 == WatchdogAction::GiveUp <==> failures + 1 > MAX_RETRIES,
        watchdog_step(failures, false, ran_for).1 != WatchdogAction::Continue,
{
}

/// The encoder's command line states its input exactly: the frame size as width `x` height,
/// the input frame rate as the configured rate, and a keyframe interval (`-g` and
/// `-keyint_min`) of the frame rate, two at least; the stream goes to the given URL last.
pub proof fn lemma_encoder_rates(width: u32, height: u32, fps: u32, url: Seq<char>)
    ensures
        ({
            let a = encoder_args(width, height, fps, url);
            let gop = if fps >= 2 { fps as int } else { 2 };
            &&& a[5] == "-s"@
            &&& exists|w: Seq<char>, h: Seq<char>| a[6] == w + "x"@ + h
                && writes_decimal(w, width as int) && writes_decimal(h, height as int)
            &&& a[7] == "-r"@
            &&& writes_decimal(a[8], fps as int)
            &&& a[21] == "-g"@
            &&& writes_decimal(a[22], gop)
            &&& a[23] == "-keyint_min"@
            &&& writes_decimal(a[24], gop)
            &&& a.last() == url
        }),
{
    lemma_decimal_writes(width as nat);
    lemma_decimal_writes(height as nat);
    lemma_decimal_writes(fps as nat);
    lemma_decimal_writes(gop_length(fps) as nat);
    let a = encoder_args(width, height, fps, url);
    assert(a[6] == decimal(width as nat) + "x"@ + decimal(height as nat));
}

} // verus!
