//! What a platform backend needs from the library: its settings, the
//! device-broken flag, and the decisions its pull callback makes.

use std::sync::Arc;
use std::sync::atomic::{AtomicBool, Ordering};
use vstd::prelude::*;
use crate::channel::{BufferFull, Sender};
use crate::mixer::{Mixer, mixer_callback};

verus! {

/// Settings of the desktop backend.
#[derive(Clone, Copy, Debug, Default, PartialEq, Eq, Structural)]
pub struct CpalSettings {
    /// Device buffer size in frames; `None` keeps the device's default.
    pub buffer_size: Option<u32>,
}

/// How the low-level backend trades latency for power, passed through.
#[derive(Clone, Copy, Debug, PartialEq, Eq, Structural)]
pub enum PerformanceMode {
    /// No particular preference.
    NoPreference,
    PowerSaving,
    LowLatency,
}

/// What the stream is for, passed through to the low-level backend.
#[derive(Clone, Copy, Debug, PartialEq, Eq, Structural)]
pub enum Usage {
    Media,
    VoiceCommunication,
    VoiceCommunicationSignalling,
    Alarm,
    Notification,
    NotificationRingtone,
    NotificationEvent,
    AssistanceAccessibility,
    AssistanceNavigationGuidance,
    AssistanceSonification,
    Game,
    Assistant,
}

/// Settings of the low-level backend.
#[derive(Clone, Copy, Debug, PartialEq, Eq, Structural)]
pub struct OboeSettings {
    pub buffer_size: Option<u32>,
    pub performance_mode: PerformanceMode,
    pub usage: Usage,
}

impl Default for OboeSettings {
    fn default() -> (r: OboeSettings)
        ensures
            r == (OboeSettings { buffer_size: None, performance_mode: PerformanceMode::NoPreference, usage: Usage::Media }),
    {
        OboeSettings { buffer_size: None, performance_mode: PerformanceMode::NoPreference, usage: Usage::Media }
    }
}

/// The sticky flag a backend raises when its device goes away; the owner
/// reads and clears it.
pub struct BrokenFlag {
    flag: Arc<AtomicBool>,
}

impl BrokenFlag {
    pub fn new() -> Self {
        BrokenFlag { flag: Arc::new(AtomicBool::new(false)) }
    }

    /// Another handle on the same flag.
    pub fn share(&self) -> Self {
        BrokenFlag { flag: Arc::clone(&self.flag) }
    }

    /// Marks the device as gone.
    pub fn raise(&self) {
        self.flag.store(true, Ordering::Relaxed);
    }

    /// Whether the device went away since the last call; clears the flag.
    pub fn consume(&self) -> bool {
        self.flag.fetch_and(false, Ordering::Relaxed)
    }
}

/// The buffer size to ask of the stream: the requested one, but no more
/// than the stream has now.
pub open spec fn buffer_request(requested: u32, current: i32) -> i32 {
    if requested > current {
        current
    } else {
        requested as i32
    }
}

/// The state the low-level backend's pull callback runs on.
pub struct OboeCallback {
    mixer: Mixer,
    latency: Sender<u64>,
    broken: BrokenFlag,
    buffer_size: Option<u32>,
    buffer_size_set: bool,
}

impl OboeCallback {
    pub closed spec fn mixer(&self) -> Mixer {
        self.mixer
    }

    /// The device-broken flag this callback raises.
    pub closed spec fn broken(&self) -> BrokenFlag {
        self.broken
    }

    pub closed spec fn buffer_size(&self) -> Option<u32> {
        self.buffer_size
    }

    /// Whether the buffer size has been asked for already.
    pub closed spec fn buffer_size_set(&self) -> bool {
        self.buffer_size_set
    }

    /// The latency samples handed over so far, in microseconds.
    pub closed spec fn latencies(&self) -> Seq<u64> {
        self.latency.sent()
    }

    pub open spec fn wf(&self) -> bool {
        self.mixer().wf()
    }

    pub fn new(mixer: Mixer, latency: Sender<u64>, broken: BrokenFlag, buffer_size: Option<u32>) -> (r: Self)
        requires
            mixer.wf(),
        ensures
            r.wf(),
            r.mixer() == mixer,
            r.broken() == broken,
            r.buffer_size() == buffer_size,
            !r.buffer_size_set(),
            r.latencies() == latency.sent(),
    {
        OboeCallback { mixer, latency, broken, buffer_size, buffer_size_set: false }
    }

    /// One pull of stereo frames: returns the buffer size to ask of the
    /// stream (once, the first time, when one was requested); records the
    /// latency when the stream knows it (dropping it when the queue is full);
    /// then renders the mixer at the stream's rate into `data`.
    pub fn on_audio_ready(
        &mut self,
        current_buffer_size: i32,
        sample_rate: u32,
        latency_micros: Option<u64>,
        data: &mut [i32],
    ) -> (r: Option<i32>)
        requires
            old(self).wf(),
            sample_rate > 0,
        ensures
            final(self).wf(),
            final(self).buffer_size() == old(self).buffer_size(),
            final(self).broken() == old(self).broken(),
            r == (match old(self).buffer_size() {
                Some(b) if !old(self).buffer_size_set() => Some(buffer_request(b, current_buffer_size)),
                _ => None::<i32>,
            }),
            final(self).buffer_size_set() == (old(self).buffer_size_set() || old(self).buffer_size() is Some),
            final(self).mixer().rate() == sample_rate,
            exists|m: Mixer|
                #![trigger mixer_callback(m, final(self).mixer(), old(data)@, final(data)@, true)]
                m.voices() == old(self).mixer().voices() && m.received() == old(self).mixer().received()
                    && m.capacity() == old(self).mixer().capacity() && m.rate() == sample_rate && mixer_callback(m, final(self).mixer(), old(data)@, final(data)@, true),
            latency_micros is None ==> final(self).latencies() == old(self).latencies(),
            latency_micros matches Some(l) ==> (final(self).latencies() == old(self).latencies().push(l)
                || final(self).latencies() == old(self).latencies()),
    {
        let mut request: Option<i32> = None;
        if let Some(b) = self.buffer_size {
            if !self.buffer_size_set {
                request = Some(if b as i64 > current_buffer_size as i64 {
                    current_buffer_size
                } else {
                    b as i32
                });
                self.buffer_size_set = true;
            }
        }
        if let Some(l) = latency_micros {
            let _dropped: Result<(), BufferFull> = self.latency.push(l);
        }
        self.mixer.set_sample_rate(sample_rate);
        let ghost m = self.mixer;
        self.mixer.render(data, true);
        assert(mixer_callback(m, self.mixer, old(data)@, data@, true));
        request
    }

    /// The stream failed: the device is marked broken.
    pub fn on_error(&self) {
        self.broken.raise();
    }
}

} // verus!
