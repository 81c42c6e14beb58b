//! A single audio device as one catalog snapshot holds it: its name, its
//! role, and the stream-configuration ranges the host advertised for it.

use vstd::prelude::*;
use crate::audio::SupportedConfig;
use crate::audio::config_of_range;
use crate::audio::supported_configs_of;

verus! {

/// Role of a device in the host audio subsystem.
#[derive(Debug, Clone, Copy, PartialEq, Eq, Structural)]
pub enum DeviceType {
    Input,
    Output,
}

impl DeviceType {
    /// Human-readable label of the role.
    pub fn as_str(&self) -> (r: &str)
        ensures
            *self is Input ==> r@ == "Input"@,
            *self is Output ==> r@ == "Output"@,
    {
        match self {
            DeviceType::Input => "Input",
            DeviceType::Output => "Output",
        }
    }
}

/// Buffer-size capability of one configuration range, as the host reports
/// it: a bounded range of frame counts, or no fixed bound.
#[derive(Debug, Clone, Copy, PartialEq, Eq, Structural)]
pub enum BufferRange {
    Range { min: u32, max: u32 },
    Unknown,
}

/// One stream-configuration range as the host advertises it: the highest
/// sample rate of the range and its buffer-size capability.
#[derive(Debug, Clone, Copy, PartialEq, Eq, Structural)]
pub struct ConfigRange {
    pub max_sample_rate: u32,
    pub buffer_size: BufferRange,
}

/// Why a reported device could not become a catalog entry.
#[derive(Debug, Clone, Copy, PartialEq, Eq, Structural)]
pub enum DeviceError {
    /// The host yielded no readable, non-empty name for the device.
    Unnamed,
}

/// Mathematical content of a catalog entry.
pub ghost struct DeviceModel {
    pub name: Seq<char>,
    pub role: DeviceType,
    /// The advertised configuration ranges; `None` when the capability
    /// query itself failed.
    pub configs: Option<Seq<ConfigRange>>,
}

/// One device of a catalog snapshot.
pub struct AudioDevice {
    name: String,
    device_type: DeviceType,
    configs: Option<Vec<ConfigRange>>,
}

impl View for AudioDevice {
    type V = DeviceModel;

    closed spec fn view(&self) -> DeviceModel {
        DeviceModel {
            name: self.name@,
            role: self.device_type,
            configs: match self.configs {
                Some(v) => Some(v@),
                None => None,
            },
        }
    }
}

impl AudioDevice {
    /// A catalog entry always carries a non-empty name.
    pub open spec fn wf(&self) -> bool {
        self@.name.len() > 0
    }

    /// Builds a catalog entry from what the host reported for one device:
    /// its name, if one could be read, and its advertised configuration
    /// ranges, if the capability query succeeded. A device without a
    /// readable, non-empty name yields no entry.
    pub fn new(
        reported_name: Option<String>,
        device_type: DeviceType,
        reported_configs: Option<Vec<ConfigRange>>,
    ) -> (r: Result<AudioDevice, DeviceError>)
        ensures
            match r {
                Ok(d) => {
                    &&& reported_name matches Some(n) && n@.len() > 0 && d@.name == n@
                    &&& d@.role == device_type
                    &&& d@.configs == (match reported_configs {
                        Some(v) => Some(v@),
                        None => None,
                    })
                    &&& d.wf()
                },
                Err(e) => {
                    &&& e == DeviceError::Unnamed
                    &&& match reported_name {
                        Some(n) => n@.len() == 0,
                        None => true,
                    }
                },
            },
    {
        match reported_name {
            Some(name) => {
                if name.as_str().is_empty() {
                    Err(DeviceError::Unnamed)
                } else {
                    Ok(AudioDevice { name, device_type, configs: reported_configs })
                }
            },
            None => Err(DeviceError::Unnamed),
        }
    }

    /// The device's name.
    pub fn name(&self) -> (r: &str)
        ensures
            r@ == self@.name,
    {
        self.name.as_str()
    }

    /// The device's role.
    pub fn device_type(&self) -> (r: &DeviceType)
        ensures
            *r == self@.role,
    {
        &self.device_type
    }

    /// Whether two devices carry the same name; the catalog matches devices
    /// by exact name equality.
    pub fn name_matches(&self, other: &AudioDevice) -> (r: bool)
        ensures
            r == (self@.name == other@.name),
    {
        self.name == other.name
    }

    /// The stream configurations this device supports, derived from the
    /// advertised ranges: each range contributes its highest sample rate,
    /// and its buffer bound when the range reports a usable one. A failed
    /// capability query yields an empty listing.
    pub fn get_supported_configs(&self) -> (r: Vec<SupportedConfig>)
        ensures
            r@ == (match self@.configs {
                Some(ranges) => supported_configs_of(ranges),
                None => Seq::<SupportedConfig>::empty(),
            }),
    {
        match &self.configs {
            None => Vec::new(),
            Some(ranges) => {
                let mut out: Vec<SupportedConfig> = Vec::new();
                let mut i: usize = 0;
                while i < ranges.len()
                    invariant
                        0 <= i <= ranges@.len(),
                        out@.len() == i,
                        forall|k: int| 0 <= k < i ==> out@[k] == config_of_range(ranges@[k]),
                    decreases ranges@.len() - i,
                {
                    let c = ranges[i];
                    let buffer_size: Option<u32> = match c.buffer_size {
                        BufferRange::Range { min: _, max } => if max >= 1 {
                            Some(max)
                        } else {
                            None
                        },
                        BufferRange::Unknown => None,
                    };
                    out.push(SupportedConfig { sample_rate: c.max_sample_rate, buffer_size });
                    i += 1;
                }
                proof {
                    assert(out@ =~= supported_configs_of(self@.configs->Some_0));
                }
                out
            },
        }
    }
}

} // verus!
