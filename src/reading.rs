use vstd::prelude::*;

verus! {

/// One energy snapshot of a channel.
///
/// The five measured quantities are 32-bit floats; the library carries each
/// as its IEEE-754 bit pattern, so that the all-zero pattern is `0.0`.
#[derive(Clone, Copy, Debug, PartialEq, Eq, Structural)]
pub struct CTReading {
    pub real_power: u32,
    pub apparent_power: u32,
    pub i_rms: u32,
    pub v_rms: u32,
    pub kwh: u32,
    /// Capture time in milliseconds.
    pub timestamp: u64,
}

/// The all-zero reading that starts every save period.
pub open spec fn zero_reading() -> CTReading {
    CTReading { real_power: 0, apparent_power: 0, i_rms: 0, v_rms: 0, kwh: 0, timestamp: 0 }
}

impl Default for CTReading {
    fn default() -> (r: CTReading)
        ensures
            r == zero_reading(),
    {
        CTReading { real_power: 0, apparent_power: 0, i_rms: 0, v_rms: 0, kwh: 0, timestamp: 0 }
    }
}

impl CTReading {
    /// Clears every field back to zero.
    pub fn reset(&mut self)
        ensures
            *final(self) == zero_reading(),
    {
        self.i_rms = 0;
        self.v_rms = 0;
        self.real_power = 0;
        self.apparent_power = 0;
        self.kwh = 0;
        self.timestamp = 0;
    }
}

/// A metered phase: its identifier and the reading accumulated over the
/// current save period.
#[derive(Clone, Copy, Debug, PartialEq, Eq, Structural)]
pub struct CT {
    pub id: u16,
    pub reading: CTReading,
}

impl CT {
    /// Starts a new save period for this channel.
    pub fn reset(&mut self)
        ensures
            final(self).id == old(self).id,
            final(self).reading == zero_reading(),
    {
        self.reading.reset();
    }
}

} // verus!
