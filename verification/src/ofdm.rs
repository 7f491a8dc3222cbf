use vstd::prelude::*;

verus! {

/// An OFDM modulator configuration: a 2048-point inverse FFT with 104
/// active subcarriers and a 256-sample cyclic prefix. A self-contained
/// primitive kept for a future protocol; the control loop does not use
/// it, and the floating-point transform itself lives with the program
/// around this library.
pub struct OfdmModulator {
    /// The FFT size.
    pub nfft: usize,
    /// The number of occupied positive-frequency bins, starting at bin
    /// one; DC stays unused.
    pub active_bins: usize,
    /// The cyclic prefix length prepended to each symbol.
    pub cp_len: usize,
}

impl OfdmModulator {
    /// Create a modulator with the default 2048-point FFT and 104
    /// active subcarriers.
    pub fn new() -> (r: Self)
        ensures
            r.nfft == 2048,
            r.active_bins == 104,
            r.cp_len == 256,
    {
        OfdmModulator { nfft: 2048, active_bins: 104, cp_len: 256 }
    }

    /// The length of one modulated symbol: the FFT size plus the cyclic
    /// prefix.
    pub fn symbol_len(&self) -> (r: usize)
        requires
            self.nfft + self.cp_len <= usize::MAX,
        ensures
            r == self.nfft + self.cp_len,
    {
        self.nfft + self.cp_len
    }
}

impl Default for OfdmModulator {
    /// The default 2048-point, 104-subcarrier, 256-prefix configuration.
    fn default() -> (r: Self)
        ensures
            r.nfft == 2048,
            r.active_bins == 104,
            r.cp_len == 256,
    {
        OfdmModulator::new()
    }
}

} // verus!
