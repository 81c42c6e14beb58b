//! The user's device and format selections, and how they are reconciled
//! against a live device catalog.
//!
//! Selections refer to devices by position in the most recent catalog
//! snapshot; a position is only as fresh as that snapshot, so readers treat
//! an out-of-range position as "no device". Validation of buffer sizes and
//! sample rates is a presentation concern: the state accepts any value.

pub mod codec;

use vstd::prelude::*;
use crate::audio::device::AudioDevice;

verus! {

/// The user's selections: devices by catalog position, desired buffer size
/// in frames, desired sample rate in Hz, the auto-update flag, and the
/// transient (never persisted) text of the last update check.
#[derive(Debug, Clone, PartialEq, Eq)]
pub struct Settings {
    pub auto_update: bool,
    pub buffer_size: u32,
    pub sample_rate: u32,
    pub update_status: Option<String>,
    pub selected_input_device: Option<usize>,
    pub selected_output_device: Option<usize>,
}

/// The categories the settings surface is divided into.
#[derive(Debug, Clone, Copy, PartialEq, Eq, Structural)]
pub enum SettingsCategory {
    Updates,
    Audio,
}

/// The defaults a fresh or unreadable preferences file falls back to.
pub open spec fn spec_default_settings() -> Settings {
    Settings {
        auto_update: false,
        buffer_size: 512,
        sample_rate: 44100,
        update_status: None,
        selected_input_device: None,
        selected_output_device: None,
    }
}

impl Default for Settings {
    /// The documented defaults: no auto-update, 512 frames, 44100 Hz, no
    /// device selected.
    fn default() -> (r: Settings)
        ensures
            r == spec_default_settings(),
    {
        Settings {
            auto_update: false,
            buffer_size: 512,
            sample_rate: 44100,
            update_status: None,
            selected_input_device: None,
            selected_output_device: None,
        }
    }
}

/// The position of the first device in `devices` (searching from `from`)
/// whose name is `name`.
pub open spec fn first_name_match(devices: Seq<AudioDevice>, name: Seq<char>, from: int) -> Option<
    int,
>
    decreases devices.len() - from,
{
    if from < 0 || from >= devices.len() {
        None
    } else if devices[from]@.name == name {
        Some(from)
    } else {
        first_name_match(devices, name, from + 1)
    }
}

/// A found position carries the searched name and nothing before it does;
/// no position means no device of that name.
pub proof fn lemma_first_name_match(devices: Seq<AudioDevice>, name: Seq<char>, from: int)
    requires
        0 <= from <= devices.len(),
    ensures
        match first_name_match(devices, name, from) {
            Some(i) => from <= i < devices.len() && devices[i]@.name == name && forall|k: int|
                from <= k < i ==> (#[trigger] devices[k])@.name != name,
            None => forall|k: int|
                from <= k < devices.len() ==> (#[trigger] devices[k])@.name != name,
        },
    decreases devices.len() - from,
{
    if from < devices.len() && devices[from]@.name != name {
        lemma_first_name_match(devices, name, from + 1);
    }
}

/// The selection that reconciling an unset slot against a catalog yields:
/// the position of the first device named like the default device, if the
/// host names a default and a device of that name stands in the catalog.
pub open spec fn reconciled_selection(
    devices: Seq<AudioDevice>,
    default_device: Option<AudioDevice>,
) -> Option<usize> {
    match default_device {
        Some(d) => match first_name_match(devices, d@.name, 0) {
            Some(i) => Some(i as usize),
            None => None,
        },
        None => None,
    }
}

/// The position of the first device in `devices` named like `target`.
fn find_by_name(devices: &Vec<AudioDevice>, target: &AudioDevice) -> (r: Option<usize>)
    ensures
        match first_name_match(devices@, target@.name, 0) {
            Some(i) => r == Some(i as usize),
            None => r is None,
        },
{
    let mut i: usize = 0;
    while i < devices.len()
        invariant
            0 <= i <= devices@.len(),
            first_name_match(devices@, target@.name, 0) == first_name_match(
                devices@,
                target@.name,
                i as int,
            ),
        decreases devices@.len() - i,
    {
        if devices[i].name_matches(target) {
            return Some(i);
        }
        i += 1;
    }
    None
}

impl Settings {
    /// Fills each still-unset device selection with the position of the
    /// catalog device named like the host's default for that role; a
    /// selection that is already set is never overwritten, and a default
    /// without a matching name leaves the selection unset.
    pub fn reconcile_defaults(
        &mut self,
        input_devices: &Vec<AudioDevice>,
        output_devices: &Vec<AudioDevice>,
        default_input: &Option<AudioDevice>,
        default_output: &Option<AudioDevice>,
    )
        ensures
            final(self).auto_update == old(self).auto_update,
            final(self).buffer_size == old(self).buffer_size,
            final(self).sample_rate == old(self).sample_rate,
            final(self).update_status == old(self).update_status,
            old(self).selected_input_device is Some ==> final(self).selected_input_device == old(
                self,
            ).selected_input_device,
            old(self).selected_input_device is None ==> final(self).selected_input_device
                == reconciled_selection(input_devices@, *default_input),
            old(self).selected_output_device is Some ==> final(self).selected_output_device == old(
                self,
            ).selected_output_device,
            old(self).selected_output_device is None ==> final(self).selected_output_device
                == reconciled_selection(output_devices@, *default_output),
    {
        if self.selected_input_device.is_none() {
            match default_input {
                Some(d) => {
                    self.selected_input_device = find_by_name(input_devices, d);
                },
                None => {},
            }
        }
        if self.selected_output_device.is_none() {
            match default_output {
                Some(d) => {
                    self.selected_output_device = find_by_name(output_devices, d);
                },
                None => {},
            }
        }
    }

    /// Selects the input device at `index` in the current snapshot. No
    /// bounds check is made here: readers of the selection treat an
    /// out-of-range position as "no device".
    pub fn select_input(&mut self, index: usize)
        ensures
            *final(self) == (Settings { selected_input_device: Some(index), ..*old(self) }),
    {
        self.selected_input_device = Some(index);
    }

    /// Selects the output device at `index` in the current snapshot.
    pub fn select_output(&mut self, index: usize)
        ensures
            *final(self) == (Settings { selected_output_device: Some(index), ..*old(self) }),
    {
        self.selected_output_device = Some(index);
    }

    /// Sets the desired buffer size in frames.
    pub fn set_buffer_size(&mut self, frames: u32)
        ensures
            *final(self) == (Settings { buffer_size: frames, ..*old(self) }),
    {
        self.buffer_size = frames;
    }

    /// Sets the desired sample rate in Hz.
    pub fn set_sample_rate(&mut self, hz: u32)
        ensures
            *final(self) == (Settings { sample_rate: hz, ..*old(self) }),
    {
        self.sample_rate = hz;
    }
}

} // verus!
