//! Which kind of audio output the player reports.

use vstd::prelude::*;

verus! {

broadcast use vstd::string::group_string_axioms;

/// How the audio reaches the DAC.
#[derive(PartialEq, Eq, Structural, Clone, Copy, Debug)]
pub enum DacMode {
    /// Through the PipeWire (or default) shared endpoint.
    Shared,
    /// Straight to the hardware in the track's own bit depth.
    BitPerfect,
    /// Straight to the hardware, padded to its bit depth.
    Padded,
}

/// Whether the chosen device is the shared desktop endpoint, `default` or
/// `pipewire`.
pub fn is_shared_device(name: &str) -> (b: bool)
    ensures
        b == (name@ == "default"@ || name@ == "pipewire"@),
{
    let n = String::from_str(name);
    let d = String::from_str("default");
    let p = String::from_str("pipewire");
    n == d || n == p
}

/// The output mode shown: shared on the shared endpoint; bit-perfect when
/// the hardware format has the track's bit depth and there are tracks;
/// padded otherwise.
pub fn dac_mode(shared: bool, bps: u32, hw_format: i32, has_tracks: bool) -> (m: DacMode)
    ensures
        m == (if shared {
            DacMode::Shared
        } else if bps == hw_format as u32 && has_tracks {
            DacMode::BitPerfect
        } else {
            DacMode::Padded
        }),
{
    if shared {
        DacMode::Shared
    } else if bps == hw_format as u32 && has_tracks {
        DacMode::BitPerfect
    } else {
        DacMode::Padded
    }
}

} // verus!
