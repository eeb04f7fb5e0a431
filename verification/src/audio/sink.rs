//! What an output is opened for, and the sink that only counts.

use vstd::prelude::*;

use crate::bits;
use crate::bits::Single;

verus! {

/// The stream format that a sink was opened for.
#[derive(Clone, Copy, Debug, PartialEq, Eq, Structural)]
pub struct AudioSpec {
    pub rate: u32,
    pub channels: u16,
}

impl AudioSpec {
    /// Samples per second across all channels.
    pub fn samples_per_sec(&self) -> (n: u64)
        ensures
            n == self.rate * self.channels,
    {
        assert(self.rate * self.channels <= 0xffff_ffff * 0xffff) by (nonlinear_arith)
            requires
                0 <= self.rate <= 0xffff_ffff,
                0 <= self.channels <= 0xffff,
        ;
        self.rate as u64 * self.channels as u64
    }
}

/// Consumes samples without a device: it counts them, so that pacing,
/// position and track changes work on a machine that makes no sound.
pub struct NullSink {
    spec: AudioSpec,
    realtime: bool,
    written: u64,
    volume: Single,
}

impl NullSink {
    pub closed spec fn spec_of(&self) -> AudioSpec {
        self.spec
    }

    pub closed spec fn is_paced(&self) -> bool {
        self.realtime
    }

    /// How many samples were handed over so far.
    pub closed spec fn count(&self) -> nat {
        self.written as nat
    }

    pub closed spec fn loudness(&self) -> Single {
        self.volume
    }

    /// A sink whose writes take as long as the sound they stand for.
    pub fn paced(spec: AudioSpec) -> (s: Self)
        ensures
            s.spec_of() == spec,
            s.is_paced(),
            s.count() == 0,
            s.loudness() == bits::single_one(),
    {
        NullSink { spec, realtime: true, written: 0, volume: Single::one() }
    }

    /// A sink that drains as fast as samples come.
    pub fn unpaced(spec: AudioSpec) -> (s: Self)
        ensures
            s.spec_of() == spec,
            !s.is_paced(),
            s.count() == 0,
            s.loudness() == bits::single_one(),
    {
        NullSink { spec, realtime: false, written: 0, volume: Single::one() }
    }

    pub fn spec(&self) -> (s: AudioSpec)
        ensures
            s == self.spec_of(),
    {
        self.spec
    }

    pub fn realtime(&self) -> (r: bool)
        ensures
            r == self.is_paced(),
    {
        self.realtime
    }

    /// Samples handed to this sink so far, over all channels.
    pub fn written_samples(&self) -> (n: u64)
        ensures
            n == self.count(),
    {
        self.written
    }

    /// Takes one buffer of interleaved samples.
    pub fn write<T>(&mut self, samples: &[T])
        requires
            old(self).count() + samples@.len() <= u64::MAX,
        ensures
            final(self).count() == old(self).count() + samples@.len(),
            final(self).spec_of() == old(self).spec_of(),
            final(self).is_paced() == old(self).is_paced(),
            final(self).loudness() == old(self).loudness(),
    {
        self.written = self.written + samples.len() as u64;
    }

    pub fn set_volume(&mut self, volume: Single)
        ensures
            final(self).loudness() == volume.clamped(bits::single_zero(), bits::single_one()),
            final(self).count() == old(self).count(),
            final(self).spec_of() == old(self).spec_of(),
            final(self).is_paced() == old(self).is_paced(),
    {
        self.volume = volume.clamp(Single::zero(), Single::one());
    }

    pub fn volume(&self) -> (v: Single)
        ensures
            v == self.loudness(),
    {
        self.volume
    }
}

/// The output device: the rate that its stream is open at, and whether
/// anything plays through it.
#[derive(Clone, Copy, Debug, PartialEq, Eq, Structural)]
pub struct Output {
    pub rate: Option<u32>,
    pub playing: bool,
}

impl Output {
    pub fn new() -> (o: Self)
        ensures
            o == (Output { rate: None, playing: false }),
    {
        Output { rate: None, playing: false }
    }

    /// Whether the stream has to be opened for that format: only where it is
    /// not open at that rate. It is closed first.
    pub fn begin_open(&mut self, spec: &AudioSpec) -> (open: bool)
        ensures
            open == (old(self).rate != Some(spec.rate)),
            *final(self) == (Output {
                rate: if open {
                    None
                } else {
                    old(self).rate
                },
                ..*old(self)
            }),
    {
        let open = match self.rate {
            Some(rate) => rate != spec.rate,
            None => true,
        };
        if open {
            self.rate = None;
        }
        open
    }

    /// Takes in whether the stream could be opened, and connects to it.
    pub fn finish_open(&mut self, spec: &AudioSpec, opened: Result<(), String>) -> (r: Result<
        (),
        String,
    >)
        ensures
            match opened {
                Ok(_) => r is Ok && *final(self) == (Output {
                    rate: Some(spec.rate),
                    playing: true,
                }),
                Err(e) => {
                    &&& *final(self) == *old(self)
                    &&& r matches Err(m)
                    &&& m@ == "opening the audio output stream (is a device present?): "@ + e@
                },
            },
    {
        match opened {
            Ok(_) => {
                self.rate = Some(spec.rate);
                self.playing = true;
                Ok(())
            },
            Err(e) => {
                let mut m = "opening the audio output stream (is a device present?): ".to_owned();
                m.append(e.as_str());
                Err(m)
            },
        }
    }
}

/// How many seconds of sound an output may hold ahead of its device.
pub const BACKLOG_SECS: u64 = 2;

/// How many samples an output may hold ahead of its device.
pub fn backlog(spec: &AudioSpec) -> (samples: u64)
    ensures
        samples == spec.rate * spec.channels * BACKLOG_SECS,
{
    let n: u64 = spec.samples_per_sec();
    assert(spec.rate * spec.channels <= 0xffff_ffff * 0xffff) by (nonlinear_arith)
        requires
            0 <= spec.rate <= 0xffff_ffff,
            0 <= spec.channels <= 0xffff,
    ;
    n * BACKLOG_SECS
}

/// Whether a writer has to wait for the device to catch up. `queued` is how
/// many samples are ahead of it, where that is known.
pub fn must_wait(queued: Option<u64>, backlog: u64) -> (yes: bool)
    ensures
        yes == (queued is Some && queued->0 > backlog),
{
    match queued {
        Some(n) => n > backlog,
        None => false,
    }
}

} // verus!
