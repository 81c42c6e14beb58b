//! The device catalog: what one enumeration of the host audio subsystem
//! reported, and the devices and stream configurations derived from it.
//!
//! The host itself is queried outside this library; one enumeration hands
//! the catalog a [`HostSnapshot`] of plain values. Every failure mode of the
//! host (an unreadable name, a failed capability query, a failed enumeration
//! call) degrades to less data here, never to an error.

pub mod device;

use vstd::prelude::*;
use crate::audio::device::AudioDevice;
use crate::audio::device::ConfigRange;
use crate::audio::device::BufferRange;
use crate::audio::device::DeviceModel;
use crate::audio::device::DeviceType;

verus! {

/// A stream configuration a device can be opened with: a sample rate and,
/// when the host reports a usable bound, the highest buffer size in frames.
#[derive(Debug, Clone, Copy, PartialEq, Eq)]
pub struct SupportedConfig {
    pub sample_rate: u32,
    pub buffer_size: Option<u32>,
}

/// What the host reported for one device during one enumeration: the
/// device's name, if one could be read, and its advertised configuration
/// ranges, if the capability query succeeded. The capability query reads
/// the output-direction table for every device, input devices included;
/// the listing is advisory content, not a stream contract.
pub struct HostDeviceReport {
    pub reported_name: Option<String>,
    pub reported_configs: Option<Vec<ConfigRange>>,
}

/// The result of one enumeration of the host audio subsystem. A role's
/// device list is `None` when the enumeration call for that role failed;
/// a default device is `None` when the host named none.
pub struct HostSnapshot {
    pub input_devices: Option<Vec<HostDeviceReport>>,
    pub output_devices: Option<Vec<HostDeviceReport>>,
    pub default_input: Option<HostDeviceReport>,
    pub default_output: Option<HostDeviceReport>,
}

/// The stream configuration derived from one advertised range: its highest
/// sample rate, and its buffer bound where the range reports a usable one
/// (a bounded range whose maximum is below one frame counts as no bound).
pub open spec fn config_of_range(c: ConfigRange) -> SupportedConfig {
    SupportedConfig {
        sample_rate: c.max_sample_rate,
        buffer_size: match c.buffer_size {
            BufferRange::Range { min, max } => if max >= 1 {
                Some(max)
            } else {
                None
            },
            BufferRange::Unknown => None,
        },
    }
}

/// The configuration listing derived from a sequence of advertised ranges.
pub open spec fn supported_configs_of(ranges: Seq<ConfigRange>) -> Seq<SupportedConfig> {
    ranges.map_values(|c: ConfigRange| config_of_range(c))
}

/// Whether a reported device becomes a catalog entry: it did yield a
/// readable, non-empty name.
pub open spec fn report_kept(rep: HostDeviceReport) -> bool {
    match rep.reported_name {
        Some(n) => n@.len() > 0,
        None => false,
    }
}

/// The catalog entry a kept report yields.
pub open spec fn device_model_of(rep: HostDeviceReport, role: DeviceType) -> DeviceModel {
    DeviceModel {
        name: match rep.reported_name {
            Some(n) => n@,
            None => Seq::empty(),
        },
        role: role,
        configs: match rep.reported_configs {
            Some(v) => Some(v@),
            None => None,
        },
    }
}

/// The catalog derived from one role's reports: every kept report in order,
/// devices without a readable name silently dropped.
pub open spec fn catalog_of(reports: Seq<HostDeviceReport>, role: DeviceType) -> Seq<DeviceModel>
    decreases reports.len(),
{
    if reports.len() == 0 {
        Seq::empty()
    } else {
        let rest = catalog_of(reports.drop_last(), role);
        if report_kept(reports.last()) {
            rest.push(device_model_of(reports.last(), role))
        } else {
            rest
        }
    }
}

/// The reports of one role's enumeration; a failed enumeration call
/// reported no devices.
pub open spec fn reports_or_empty(o: Option<Vec<HostDeviceReport>>) -> Seq<HostDeviceReport> {
    match o {
        Some(v) => v@,
        None => Seq::empty(),
    }
}

/// The default catalog entry derived from the host's default-device report:
/// none when the host named no default or the default is unnamable.
pub open spec fn default_model_of(rep: Option<HostDeviceReport>, role: DeviceType) -> Option<
    DeviceModel,
> {
    match rep {
        Some(r) => if report_kept(r) {
            Some(device_model_of(r, role))
        } else {
            None
        },
        None => None,
    }
}

/// Law: every device of a catalog has a non-empty name.
pub proof fn lemma_catalog_devices_named(reports: Seq<HostDeviceReport>, role: DeviceType)
    ensures
        forall|i: int|
            0 <= i < catalog_of(reports, role).len() ==> (#[trigger] catalog_of(reports, role)[i]).name.len()
                > 0,
    decreases reports.len(),
{
    if reports.len() > 0 {
        lemma_catalog_devices_named(reports.drop_last(), role);
    }
}

/// Law: a configuration listing never carries a buffer size below one frame.
pub proof fn lemma_supported_configs_buffer_positive(ranges: Seq<ConfigRange>)
    ensures
        forall|i: int|
            0 <= i < supported_configs_of(ranges).len() ==> match (#[trigger] supported_configs_of(
                ranges,
            )[i]).buffer_size {
                Some(b) => b >= 1,
                None => true,
            },
{
    assert forall|i: int| 0 <= i < supported_configs_of(ranges).len() implies match (
    #[trigger] supported_configs_of(ranges)[i]).buffer_size {
        Some(b) => b >= 1,
        None => true,
    } by {
        assert(supported_configs_of(ranges)[i] == config_of_range(ranges[i]));
    }
}

/// Copies one report's advertised configuration ranges.
fn clone_configs(c: &Option<Vec<ConfigRange>>) -> (r: Option<Vec<ConfigRange>>)
    ensures
        match *c {
            Some(v) => r matches Some(w) && w@ == v@,
            None => r is None,
        },
{
    match c {
        None => None,
        Some(v) => {
            let mut out: Vec<ConfigRange> = Vec::new();
            let mut i: usize = 0;
            while i < v.len()
                invariant
                    0 <= i <= v@.len(),
                    out@.len() == i,
                    forall|k: int| 0 <= k < i ==> out@[k] == v@[k],
                decreases v@.len() - i,
            {
                out.push(v[i]);
                i += 1;
            }
            proof {
                assert(out@ =~= v@);
            }
            Some(out)
        },
    }
}

/// Builds one role's catalog from the host's reports, dropping every device
/// without a readable, non-empty name.
fn build_devices(reports: &Vec<HostDeviceReport>, role: DeviceType) -> (r: Vec<AudioDevice>)
    ensures
        r@.map_values(|d: AudioDevice| d@) == catalog_of(reports@, role),
{
    let mut out: Vec<AudioDevice> = Vec::new();
    let mut i: usize = 0;
    while i < reports.len()
        invariant
            0 <= i <= reports@.len(),
            out@.map_values(|d: AudioDevice| d@) == catalog_of(
                reports@.subrange(0, i as int),
                role,
            ),
        decreases reports@.len() - i,
    {
        let ghost prefix = reports@.subrange(0, i as int);
        let rep = &reports[i];
        let name: Option<String> = match &rep.reported_name {
            Some(n) => Some(n.clone()),
            None => None,
        };
        match AudioDevice::new(name, role, clone_configs(&rep.reported_configs)) {
            Ok(d) => {
                proof {
                    assert(d@ == device_model_of(reports@[i as int], role));
                    assert(report_kept(reports@[i as int]));
                }
                let ghost before = out@;
                out.push(d);
                proof {
                    assert(out@.map_values(|x: AudioDevice| x@) =~= before.map_values(
                        |x: AudioDevice| x@,
                    ).push(d@));
                }
            },
            Err(_) => {
                proof {
                    assert(!report_kept(reports@[i as int]));
                }
            },
        }
        i += 1;
        proof {
            let ext = reports@.subrange(0, i as int);
            assert(ext.drop_last() =~= prefix);
            assert(ext.last() == reports@[i - 1]);
        }
    }
    proof {
        assert(reports@.subrange(0, reports@.len() as int) =~= reports@);
    }
    out
}

/// Builds the default catalog entry for one role from the host's
/// default-device report.
fn build_default(rep: &Option<HostDeviceReport>, role: DeviceType) -> (r: Option<AudioDevice>)
    ensures
        match r {
            Some(d) => default_model_of(*rep, role) == Some(d@),
            None => default_model_of(*rep, role) is None,
        },
{
    match rep {
        None => None,
        Some(hr) => {
            let name: Option<String> = match &hr.reported_name {
                Some(n) => Some(n.clone()),
                None => None,
            };
            match AudioDevice::new(name, role, clone_configs(&hr.reported_configs)) {
                Ok(d) => Some(d),
                Err(_) => None,
            }
        },
    }
}

/// The device catalog: the devices and defaults derived from one
/// enumeration of the host audio subsystem.
pub struct AudioSystem {
    snapshot: HostSnapshot,
}

impl AudioSystem {
    /// The snapshot this catalog was built from.
    pub closed spec fn spec_snapshot(&self) -> HostSnapshot {
        self.snapshot
    }

    /// Wraps one enumeration's snapshot. Construction itself cannot fail:
    /// every failure of the host is already encoded in the snapshot.
    pub fn new(snapshot: HostSnapshot) -> (r: AudioSystem)
        ensures
            r.spec_snapshot() == snapshot,
    {
        AudioSystem { snapshot }
    }

    /// The input and output devices of this snapshot, in the host's order,
    /// with every unnamable device dropped.
    pub fn get_available_devices(&self) -> (r: (Vec<AudioDevice>, Vec<AudioDevice>))
        ensures
            r.0@.map_values(|d: AudioDevice| d@) == catalog_of(
                reports_or_empty(self.spec_snapshot().input_devices),
                DeviceType::Input,
            ),
            r.1@.map_values(|d: AudioDevice| d@) == catalog_of(
                reports_or_empty(self.spec_snapshot().output_devices),
                DeviceType::Output,
            ),
    {
        let inputs: Vec<AudioDevice> = match &self.snapshot.input_devices {
            Some(reports) => build_devices(reports, DeviceType::Input),
            None => {
                proof {
                    assert(Seq::<AudioDevice>::empty().map_values(|d: AudioDevice| d@)
                        =~= Seq::<DeviceModel>::empty());
                }
                Vec::new()
            },
        };
        let outputs: Vec<AudioDevice> = match &self.snapshot.output_devices {
            Some(reports) => build_devices(reports, DeviceType::Output),
            None => {
                proof {
                    assert(Seq::<AudioDevice>::empty().map_values(|d: AudioDevice| d@)
                        =~= Seq::<DeviceModel>::empty());
                }
                Vec::new()
            },
        };
        (inputs, outputs)
    }

    /// The host's default input and output devices, where the host names a
    /// default that carries a readable, non-empty name.
    pub fn get_default_devices(&self) -> (r: (Option<AudioDevice>, Option<AudioDevice>))
        ensures
            match r.0 {
                Some(d) => default_model_of(self.spec_snapshot().default_input, DeviceType::Input)
                    == Some(d@),
                None => default_model_of(
                    self.spec_snapshot().default_input,
                    DeviceType::Input,
                ) is None,
            },
            match r.1 {
                Some(d) => default_model_of(
                    self.spec_snapshot().default_output,
                    DeviceType::Output,
                ) == Some(d@),
                None => default_model_of(
                    self.spec_snapshot().default_output,
                    DeviceType::Output,
                ) is None,
            },
    {
        let default_input = build_default(&self.snapshot.default_input, DeviceType::Input);
        let default_output = build_default(&self.snapshot.default_output, DeviceType::Output);
        (default_input, default_output)
    }

    /// The stream configurations of one catalog device.
    pub fn get_supported_configs(&self, device: &AudioDevice) -> (r: Vec<SupportedConfig>)
        ensures
            r@ == (match device@.configs {
                Some(ranges) => supported_configs_of(ranges),
                None => Seq::<SupportedConfig>::empty(),
            }),
    {
        device.get_supported_configs()
    }
}

} // verus!
