//! Display-mode decisions of the signal toolbox.
use vstd::prelude::*;

verus! {

/// Which audio channel is passed to the active toolbox algorithm.
#[derive(PartialEq, Eq, Structural, Clone, Copy, Debug)]
pub enum ToolboxSource {
    Raw,
    Hpf,
}

impl ToolboxSource {
    /// Short display name of the channel.
    pub fn label(self) -> (s: &'static str)
        ensures
            self is Raw ==> s@ == "Raw"@,
            self is Hpf ==> s@ == "HPF"@,
    {
        match self {
            ToolboxSource::Raw => "Raw",
            ToolboxSource::Hpf => "HPF",
        }
    }
}

/// Whether levels are shown in engineering units (dBSPL, using the
/// microphone's datasheet calibration) or in raw digital units (dBFS).
#[derive(PartialEq, Eq, Structural, Clone, Copy, Debug)]
pub enum SplMode {
    /// Raw digital values: dBFS, ADC counts.
    Digital,
    /// Calibrated acoustic values: dBSPL.
    Acoustic,
}

impl SplMode {
    /// Y-axis label for level (dB) plots.
    pub fn level_label(self) -> (s: &'static str)
        ensures
            self is Acoustic ==> s@ == "dBSPL"@,
            self is Digital ==> s@ == "dBFS"@,
    {
        match self {
            SplMode::Acoustic => "dBSPL",
            SplMode::Digital => "dBFS",
        }
    }

    /// Short unit suffix for inline text.
    pub fn level_unit(self) -> (s: &'static str)
        ensures
            self is Acoustic ==> s@ == "dBSPL"@,
            self is Digital ==> s@ == "dBFS"@,
    {
        match self {
            SplMode::Acoustic => "dBSPL",
            SplMode::Digital => "dBFS",
        }
    }

    /// True when acoustic calibration is active.
    pub fn is_acoustic(self) -> (b: bool)
        ensures
            b == (self is Acoustic),
    {
        match self {
            SplMode::Acoustic => true,
            SplMode::Digital => false,
        }
    }
}

/// Settings of the power-spectral-density (Welch) view.
pub struct Overview {
    log_freq: bool,
}

impl Overview {
    /// Whether the frequency axis is logarithmic.
    pub closed spec fn spec_log_freq(&self) -> bool {
        self.log_freq
    }

    /// A PSD view with a linear frequency axis.
    pub fn new() -> (o: Self)
        ensures
            !o.spec_log_freq(),
    {
        Overview { log_freq: false }
    }

    /// The view's display name.
    pub fn name(&self) -> (s: &'static str)
        ensures
            s@ == "PSD (Welch)"@,
    {
        "PSD (Welch)"
    }

    /// Whether the frequency axis is logarithmic.
    pub fn log_freq(&self) -> (b: bool)
        ensures
            b == self.spec_log_freq(),
    {
        self.log_freq
    }

    /// Choose a logarithmic (`true`) or linear frequency axis.
    pub fn set_log_freq(&mut self, on: bool)
        ensures
            final(self).spec_log_freq() == on,
    {
        self.log_freq = on;
    }
}

/// The statistics view; it has no settings.
pub struct Statistics;

impl Statistics {
    pub fn new() -> (s: Self) {
        Statistics
    }

    /// The view's display name.
    pub fn name(&self) -> (s: &'static str)
        ensures
            s@ == "Statistics"@,
    {
        "Statistics"
    }
}

} // verus!
