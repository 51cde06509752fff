//! Recording: when samples are kept, and what becomes of them.
//!
//! The microphone's stream runs for as long as the program does and hands over what
//! it hears; samples are kept only while a recording is on, so that starting and
//! stopping is all that ever changes. What a sample is does not matter here.

use crate::text;
use vstd::prelude::*;
use vstd::string::*;

verus! {

/// Why the microphone could not be used, with what was reported.
#[derive(Debug)]
pub enum MicFailure {
    NoDevice,
    NoConfig(String),
    Format(String),
    Open(String),
    Start(String),
}

pub open spec fn failure_text(f: MicFailure) -> Seq<char> {
    match f {
        MicFailure::NoDevice => "no microphone input device found"@,
        MicFailure::NoConfig(e) => "microphone not available ("@ + e@
            + "). If macOS never prompted, grant Bit Microphone permission in System Settings → Privacy."@,
        MicFailure::Format(f) => "unsupported sample format: "@ + f@,
        MicFailure::Open(e) => "couldn't open microphone ("@ + e@
            + "). Grant Bit Microphone permission in System Settings → Privacy if you haven't."@,
        MicFailure::Start(e) => "couldn't start microphone ("@ + e@ + ")"@,
    }
}

/// What is told of a microphone that could not be used.
pub fn failure_reason(f: &MicFailure) -> (r: String)
    ensures
        r@ == failure_text(*f),
{
    match f {
        MicFailure::NoDevice => "no microphone input device found".to_owned(),
        MicFailure::NoConfig(e) => {
            let mut s = text::joined("microphone not available (", e.as_str());
            s.append(
                "). If macOS never prompted, grant Bit Microphone permission in System Settings → Privacy.",
            );
            s
        },
        MicFailure::Format(f) => text::joined("unsupported sample format: ", f.as_str()),
        MicFailure::Open(e) => {
            let mut s = text::joined("couldn't open microphone (", e.as_str());
            s.append(
                "). Grant Bit Microphone permission in System Settings → Privacy if you haven't.",
            );
            s
        },
        MicFailure::Start(e) => {
            let mut s = text::joined("couldn't start microphone (", e.as_str());
            s.append(")");
            s
        },
    }
}

/// What is recorded, and whether it still is.
pub struct Recorder<S> {
    recording: bool,
    buffer: Vec<S>,
    sample_rate: u32,
    error: Option<String>,
}

/// A recorder: whether it records, what it has kept since the recording began, at
/// which rate, and why the microphone cannot be used, if it cannot.
pub struct RecorderView<S> {
    pub recording: bool,
    pub buffer: Seq<S>,
    pub sample_rate: u32,
    pub error: Option<Seq<char>>,
}

impl<S> View for Recorder<S> {
    type V = RecorderView<S>;

    closed spec fn view(&self) -> RecorderView<S> {
        RecorderView {
            recording: self.recording,
            buffer: self.buffer@,
            sample_rate: self.sample_rate,
            error: text::opt_view(self.error),
        }
    }
}

impl<S> RecorderView<S> {
    /// After a start: recording, and, unless it was recording already, with nothing
    /// kept.
    pub open spec fn started(self) -> Self {
        RecorderView {
            recording: true,
            buffer: if self.recording {
                self.buffer
            } else {
                Seq::empty()
            },
            ..self
        }
    }

    /// After a stop: no longer recording.
    pub open spec fn stopped(self) -> Self {
        RecorderView { recording: false, ..self }
    }

    /// What a stop hands over: what was kept, the first time, and nothing after
    /// that.
    pub open spec fn taken(self) -> Option<(Seq<S>, u32)> {
        if self.recording {
            Some((self.buffer, self.sample_rate))
        } else {
            None
        }
    }

    /// After samples came in: they are kept while recording.
    pub open spec fn captured(self, samples: Seq<S>) -> Self {
        RecorderView {
            buffer: if self.recording {
                self.buffer + samples
            } else {
                self.buffer
            },
            ..self
        }
    }

    /// The most recent samples, at most `window` of them.
    pub open spec fn recent(self, window: int) -> Seq<S> {
        if self.buffer.len() <= window {
            self.buffer
        } else {
            self.buffer.skip(self.buffer.len() - window)
        }
    }
}

impl<S: Copy> Recorder<S> {
    /// A recorder that records nothing yet, with a microphone that may still come up.
    pub fn new() -> (r: Self)
        ensures
            !r@.recording,
            r@.buffer == Seq::<S>::empty(),
            r@.sample_rate == 16_000,
            r@.error is None,
    {
        Recorder { recording: false, buffer: Vec::new(), sample_rate: 16_000, error: None }
    }

    /// The microphone came up with this rate.
    pub fn opened(&mut self, sample_rate: u32)
        ensures
            final(self)@ == (RecorderView { sample_rate, ..old(self)@ }),
    {
        self.sample_rate = sample_rate;
    }

    /// The microphone cannot be used.
    pub fn fail(&mut self, failure: &MicFailure)
        ensures
            final(self)@ == (RecorderView {
                error: Some(failure_text(*failure)),
                ..old(self)@
            }),
    {
        self.error = Some(failure_reason(failure));
    }

    /// Can the microphone be used, as far as is known?
    pub fn available(&self) -> (r: bool)
        ensures
            r == (self@.error is None),
    {
        self.error.is_none()
    }

    /// Why the microphone cannot be used, if it cannot.
    pub fn last_error(&self) -> (r: Option<String>)
        ensures
            text::opt_view(r) == self@.error,
    {
        match &self.error {
            Some(e) => Some(e.clone()),
            None => None,
        }
    }

    pub fn is_recording(&self) -> (r: bool)
        ensures
            r == self@.recording,
    {
        self.recording
    }

    /// Start recording. Once it is on, starting again changes nothing: a key that is
    /// held repeats.
    pub fn start(&mut self)
        ensures
            final(self)@ == old(self)@.started(),
    {
        if !self.recording {
            self.recording = true;
            self.buffer = Vec::new();
        }
    }

    /// Stop recording, and hand over the samples and their rate; nothing where it had
    /// stopped already, so that of two that stop it only one goes on.
    pub fn stop(&mut self) -> (r: Option<(Vec<S>, u32)>)
        ensures
            final(self)@ == old(self)@.stopped(),
            match r {
                Some((samples, rate)) => old(self)@.taken() == Some((samples@, rate)),
                None => old(self)@.taken() is None,
            },
    {
        if self.recording {
            self.recording = false;
            let n = self.buffer.len();
            Some((self.last(n), self.sample_rate))
        } else {
            None
        }
    }

    /// The rate of the samples.
    pub fn sample_rate(&self) -> (r: u32)
        ensures
            r == self@.sample_rate,
    {
        self.sample_rate
    }

    /// Samples come in from the microphone.
    pub fn capture(&mut self, samples: &Vec<S>)
        ensures
            final(self)@ == old(self)@.captured(samples@),
    {
        if self.recording {
            let ghost before = self.buffer@;
            for i in 0..samples.len()
                invariant
                    self.recording,
                    self.buffer@ == before + samples@.take(i as int),
                    self.sample_rate == old(self).sample_rate,
                    self.error == old(self).error,
            {
                self.buffer.push(samples[i]);
                assert(self.buffer@ =~= before + samples@.take(i + 1));
            }
            assert(samples@.take(samples@.len() as int) =~= samples@);
        }
    }

    fn last(&self, n: usize) -> (r: Vec<S>)
        requires
            n <= self@.buffer.len(),
        ensures
            r@ == self@.buffer.skip(self@.buffer.len() - n),
    {
        let mut out: Vec<S> = Vec::new();
        let from = self.buffer.len() - n;
        for i in from..self.buffer.len()
            invariant
                from <= i <= self.buffer@.len(),
                out@ == self.buffer@.subrange(from as int, i as int),
        {
            out.push(self.buffer[i]);
            assert(out@ =~= self.buffer@.subrange(from as int, i + 1));
        }
        out
    }

    /// The most recent samples, at most `window` of them, which tell whether someone
    /// is speaking.
    pub fn recent(&self, window: usize) -> (r: Vec<S>)
        ensures
            r@ == self@.recent(window as int),
    {
        let n = if self.buffer.len() < window {
            self.buffer.len()
        } else {
            window
        };
        assert(self.buffer@.skip(0) =~= self.buffer@);
        self.last(n)
    }
}

/// Starting again while it records keeps what was recorded, and changes nothing at
/// all.
pub proof fn law_starting_is_idempotent<S>(r: RecorderView<S>)
    ensures
        r.started().started() == r.started(),
        r.recording ==> r.started() == r,
{
}

/// Of two stops only the first hands anything over, whatever comes in between them
/// from the microphone.
pub proof fn law_one_stop_wins<S>(r: RecorderView<S>, samples: Seq<S>)
    ensures
        r.stopped().taken() is None,
        r.stopped().captured(samples).taken() is None,
{
}

/// A recording hands over exactly what came in between its start and its stop.
pub proof fn law_recording_is_what_came_in<S>(r: RecorderView<S>, a: Seq<S>, b: Seq<S>)
    requires
        !r.recording,
    ensures
        r.captured(a).started().captured(b).taken() == Some((b, r.sample_rate)),
        r.started().captured(a).captured(b).taken() == Some((a + b, r.sample_rate)),
{
    assert(r.captured(a).started().captured(b).buffer =~= b);
    assert(r.started().captured(a).captured(b).buffer =~= a + b);
}

/// The recent samples are the last that were kept: all of them, or as many as the window
/// holds.
pub proof fn law_recent_samples_are_the_last<S>(r: RecorderView<S>, window: nat)
    ensures
        r.recent(window as int).is_suffix_of(r.buffer),
        r.recent(window as int).len() == (if r.buffer.len() < window {
            r.buffer.len()
        } else {
            window
        }),
{
    let all = r.buffer;
    assert(all.subrange(0, all.len() as int) =~= all);
}

/// While nothing is recorded nothing is kept; and neither starting, stopping nor what
/// comes in changes the rate or what is known of the microphone.
pub proof fn law_only_recordings_are_kept<S>(r: RecorderView<S>, samples: Seq<S>)
    ensures
        !r.recording ==> r.captured(samples) == r,
        r.recording ==> r.captured(samples).taken() == Some((r.buffer + samples, r.sample_rate)),
        r.started().recording,
        !r.stopped().recording,
        r.taken() is Some <==> r.recording,
        r.started().sample_rate == r.sample_rate && r.started().error == r.error,
        r.stopped().sample_rate == r.sample_rate && r.stopped().error == r.error,
        r.captured(samples).sample_rate == r.sample_rate && r.captured(samples).error == r.error,
        r.captured(samples).recording == r.recording,
{
}

/// What is told of a microphone that cannot be used holds all that was reported.
pub proof fn law_failures_are_told(f: MicFailure)
    ensures
        match f {
            MicFailure::NoDevice => failure_text(f).len() > 0,
            MicFailure::NoConfig(e) => text::contained(failure_text(f), e@),
            MicFailure::Format(e) => text::contained(failure_text(f), e@),
            MicFailure::Open(e) => text::contained(failure_text(f), e@),
            MicFailure::Start(e) => text::contained(failure_text(f), e@),
        },
{
    reveal_strlit("no microphone input device found");
    match f {
        MicFailure::NoDevice => {},
        MicFailure::NoConfig(e) => {
            text::law_found_within(
                "microphone not available ("@,
                e@,
                "). If macOS never prompted, grant Bit Microphone permission in System Settings → Privacy."@,
            );
        },
        MicFailure::Format(e) => {
            text::law_found_within("unsupported sample format: "@, e@, Seq::empty());
            assert("unsupported sample format: "@ + e@ + Seq::<char>::empty() =~= failure_text(f));
        },
        MicFailure::Open(e) => {
            text::law_found_within(
                "couldn't open microphone ("@,
                e@,
                "). Grant Bit Microphone permission in System Settings → Privacy if you haven't."@,
            );
        },
        MicFailure::Start(e) => {
            text::law_found_within("couldn't start microphone ("@, e@, ")"@);
        },
    }
}

} // verus!
