use vstd::prelude::*;
use std::sync::atomic::{AtomicBool, AtomicU32};
use std::sync::Arc;

verus! {

/// Capture settings shared with the capture stream: the target rate and frame size, and the
/// volume (the bits of an `f32`) and mute flag, which the capture task reads on every block.
pub struct AudioCaptureSettings {
    pub target_sample_rate: u32,
    pub frame_size: usize,
    pub volume: Arc<AtomicU32>,
    pub muted: Arc<AtomicBool>,
}

impl AudioCaptureSettings {
    /// Settings with the given rate, frame size, initial volume bits and mute flag.
    pub fn new(target_sample_rate: u32, frame_size: usize, volume_bits: u32, muted: bool) -> (s:
        Self)
        ensures
            s.target_sample_rate == target_sample_rate,
            s.frame_size == frame_size,
    {
        AudioCaptureSettings {
            target_sample_rate,
            frame_size,
            volume: Arc::new(AtomicU32::new(volume_bits)),
            muted: Arc::new(AtomicBool::new(muted)),
        }
    }
}

/// Playback settings shared with the playback stream: the rate of the incoming frames, the
/// frame size, and the volume (the bits of an `f32`) and mute flag, which the output callback
/// reads on every block.
pub struct AudioPlaybackSettings {
    pub source_sample_rate: u32,
    pub frame_size: usize,
    pub volume: Arc<AtomicU32>,
    pub muted: Arc<AtomicBool>,
}

impl AudioPlaybackSettings {
    /// Settings with the given source rate, frame size, initial volume bits and mute flag.
    pub fn new(source_sample_rate: u32, frame_size: usize, volume_bits: u32, muted: bool) -> (s:
        Self)
        ensures
            s.source_sample_rate == source_sample_rate,
            s.frame_size == frame_size,
    {
        AudioPlaybackSettings {
            source_sample_rate,
            frame_size,
            volume: Arc::new(AtomicU32::new(volume_bits)),
            muted: Arc::new(AtomicBool::new(muted)),
        }
    }
}

/// Why a device request was refused.
pub enum ControlError {
    /// `start` while the stream runs.
    AlreadyRunning,
}

/// The device a capture or playback object uses (type `D`) and, while it runs, its stream
/// (type `S`).
pub struct DeviceControl<D, S> {
    device: D,
    stream: Option<S>,
}

impl<D, S> DeviceControl<D, S> {
    /// The device in use.
    pub closed spec fn spec_device(&self) -> D {
        self.device
    }

    /// The running stream, if any.
    pub closed spec fn spec_stream(&self) -> Option<S> {
        self.stream
    }

    /// Idle on `device`.
    pub fn new(device: D) -> (c: Self)
        ensures
            c.spec_device() == device,
            c.spec_stream() is None,
    {
        DeviceControl { device, stream: None }
    }

    /// Whether a stream runs.
    pub fn is_running(&self) -> (b: bool)
        ensures
            b == self.spec_stream() is Some,
    {
        self.stream.is_some()
    }

    /// The device in use.
    pub fn device(&self) -> (d: &D)
        ensures
            *d == self.spec_device(),
    {
        &self.device
    }

    /// The running stream, if any.
    pub fn stream(&self) -> (s: Option<&S>)
        ensures
            match s {
                Some(x) => self.spec_stream() == Some(*x),
                None => self.spec_stream() is None,
            },
    {
        match &self.stream {
            Some(x) => Some(x),
            None => None,
        }
    }

    /// Whether a start may go ahead: refused while a stream runs.
    pub fn check_start(&self) -> (r: Result<(), ControlError>)
        ensures
            r is Err <==> self.spec_stream() is Some,
    {
        if self.stream.is_some() {
            Err(ControlError::AlreadyRunning)
        } else {
            Ok(())
        }
    }

    /// Records the started stream.
    pub fn set_running(&mut self, stream: S)
        requires
            old(self).spec_stream() is None,
        ensures
            final(self).spec_stream() == Some(stream),
            final(self).spec_device() == old(self).spec_device(),
    {
        self.stream = Some(stream);
    }

    /// Stops and drops the running stream. Returns whether one was running; stopping an idle
    /// object changes nothing.
    pub fn stop(&mut self) -> (was_running: bool)
        ensures
            was_running == old(self).spec_stream() is Some,
            final(self).spec_stream() is None,
            final(self).spec_device() == old(self).spec_device(),
    {
        match self.stream.take() {
            Some(_) => true,
            None => false,
        }
    }

    /// Moves to `device`. A running object must bring the stream it already built on the new
    /// device, and keeps running on it; an idle one stays idle. The old stream is dropped.
    pub fn switch_device(&mut self, device: D, new_stream: Option<S>)
        requires
            old(self).spec_stream() is Some <==> new_stream is Some,
        ensures
            final(self).spec_device() == device,
            final(self).spec_stream() == new_stream,
            final(self).spec_stream() is Some <==> old(self).spec_stream() is Some,
    {
        self.stream = new_stream;
        self.device = device;
    }

    /// Ends a device switch given what preparing it gave: the new device and, for a running
    /// object, the stream already built on it, or the error met on the way. On success the
    /// object moves to the new device and keeps running or idle as it was; on an error it keeps
    /// its device and stream and the error is handed back.
    pub fn finish_switch<E>(&mut self, prepared: Result<(D, Option<S>), E>) -> (r: Result<(), E>)
        requires
            prepared matches Ok((_, s)) ==> (old(self).spec_stream() is Some <==> s is Some),
        ensures
            final(self).spec_stream() is Some <==> old(self).spec_stream() is Some,
            match prepared {
                Ok((device, stream)) => {
                    &&& r is Ok
                    &&& final(self).spec_device() == device
                    &&& final(self).spec_stream() == stream
                },
                Err(e) => {
                    &&& r == Err::<(), E>(e)
                    &&& final(self).spec_device() == old(self).spec_device()
                    &&& final(self).spec_stream() == old(self).spec_stream()
                },
            },
    {
        match prepared {
            Ok((device, stream)) => {
                self.switch_device(device, stream);
                Ok(())
            },
            Err(e) => Err(e),
        }
    }
}

/// The device picked by a 1-based menu number among `count` listed devices: its 0-based index,
/// or `None` when the number is out of range.
pub fn device_choice(choice: usize, count: usize) -> (r: Option<usize>)
    ensures
        r == if 1 <= choice <= count { Some((choice - 1) as usize) } else { None::<usize> },
{
    if choice > 0 && choice <= count {
        Some(choice - 1)
    } else {
        None
    }
}

} // verus!
