//! Which devices are offered as volumes, and how their sessions are set up.

use vstd::prelude::*;

use crate::session::{SessionParameters, StorageType};
use crate::text::{
    decimal_digits, decimal_text, law_decimal_text_reads_back, lemma_decimal_digits_are_digits,
};

verus! {

/// The name of the provider.
pub const PROVIDER: &'static str = "qdl";

/// The USB vendor of devices in emergency download mode.
pub const USB_VID_QCOM: u64 = 0x05c6;

/// The USB product of devices in emergency download mode.
pub const USB_PID_EDL: u64 = 0x9008;

/// Why a provider does not start.
#[derive(Clone, Copy, Debug, PartialEq, Eq, Structural)]
pub enum ProviderError {
    /// The storage type in the configuration is not a known one.
    UnknownStorage,
    /// The configuration gives no sector size, and the storage type has no
    /// default one.
    NoSectorSize(StorageType),
}

/// The storage type that the configuration asks for.
#[derive(Clone, Copy, Debug, PartialEq, Eq, Structural)]
pub enum StorageRequest {
    /// None.
    Absent,
    /// One that is not known.
    Unknown,
    /// This one.
    Known(StorageType),
}

impl StorageRequest {
    /// The storage type that is used: eMMC where none is asked for.
    pub open spec fn resolved(self) -> Option<StorageType> {
        match self {
            StorageRequest::Absent => Some(StorageType::Emmc),
            StorageRequest::Unknown => None,
            StorageRequest::Known(t) => Some(t),
        }
    }

    /// The storage type that is used: eMMC where none is asked for.
    pub fn storage(self) -> (r: Result<StorageType, ProviderError>)
        ensures
            match self.resolved() {
                Some(t) => r == Ok::<StorageType, ProviderError>(t),
                None => r == Err::<StorageType, ProviderError>(ProviderError::UnknownStorage),
            },
    {
        match self {
            StorageRequest::Absent => Ok(StorageType::Emmc),
            StorageRequest::Unknown => Err(ProviderError::UnknownStorage),
            StorageRequest::Known(t) => Ok(t),
        }
    }
}

/// The parameters of the sessions of a provider. `default_sector_size` is the
/// common sector size of the storage type that is used, where it has one; it
/// counts where the configuration gives no `sector_size`.
pub fn session_parameters(
    storage: StorageRequest,
    sector_size: Option<usize>,
    default_sector_size: Option<usize>,
) -> (r: Result<SessionParameters, ProviderError>)
    ensures
        r == match (storage.resolved(), sector_size, default_sector_size) {
            (None, _, _) => Err::<SessionParameters, ProviderError>(ProviderError::UnknownStorage),
            (Some(t), Some(n), _) => Ok(SessionParameters { storage: t, sector_size: n }),
            (Some(t), None, Some(n)) => Ok(SessionParameters { storage: t, sector_size: n }),
            (Some(t), None, None) => Err(ProviderError::NoSectorSize(t)),
        },
        storage is Unknown ==> r == Err::<SessionParameters, ProviderError>(
            ProviderError::UnknownStorage,
        ),
        !(storage is Unknown) && (sector_size is Some || default_sector_size is Some) ==> r is Ok,
        r matches Ok(session) ==> {
            &&& session.storage == match storage {
                StorageRequest::Known(t) => t,
                _ => StorageType::Emmc,
            }
            &&& session.sector_size == match sector_size {
                Some(n) => n,
                None => default_sector_size->0,
            }
        },
{
    let storage = match storage.storage() {
        Ok(t) => t,
        Err(e) => return Err(e),
    };
    match sector_size {
        Some(n) => Ok(SessionParameters { storage, sector_size: n }),
        None => match default_sector_size {
            Some(n) => Ok(SessionParameters { storage, sector_size: n }),
            None => Err(ProviderError::NoSectorSize(storage)),
        },
    }
}

/// What the system knows of a USB device; a property that is missing or is no
/// number is `None`.
#[derive(Clone, Copy, Debug, PartialEq, Eq, Structural)]
pub struct UsbDevice {
    pub vendor: Option<u64>,
    pub model: Option<u64>,
    pub busnum: Option<u64>,
    pub devnum: Option<u64>,
}

/// Whether a device is in emergency download mode and can be told apart from
/// others.
pub open spec fn is_candidate(device: UsbDevice) -> bool {
    &&& device.vendor == Some(USB_VID_QCOM)
    &&& device.model == Some(USB_PID_EDL)
    &&& device.busnum is Some
    &&& device.devnum is Some
}

/// The name of the volume of a device.
pub open spec fn volume_name(busnum: u64, devnum: u64) -> Seq<char> {
    "qdl "@ + decimal_digits(busnum as nat) + "/"@ + decimal_digits(devnum as nat)
}

/// The name of the volume of a device, if it is in emergency download mode and
/// can be told apart from others.
pub fn candidate_name(device: &UsbDevice) -> (r: Option<String>)
    ensures
        match r {
            Some(name) => is_candidate(*device) && name@ == volume_name(
                device.busnum->0,
                device.devnum->0,
            ),
            None => !is_candidate(*device),
        },
{
    if device.vendor.is_none() || device.vendor.unwrap() != USB_VID_QCOM || device.model.is_none()
        || device.model.unwrap() != USB_PID_EDL {
        return None;
    }
    let busnum: u64 = match device.busnum {
        Some(n) => n,
        None => return None,
    };
    let devnum: u64 = match device.devnum {
        Some(n) => n,
        None => return None,
    };
    let bus = decimal_text(busnum);
    let dev = decimal_text(devnum);
    Some("qdl ".to_owned().concat(bus.as_str()).concat("/").concat(dev.as_str()))
}

/// What happened to a device.
#[derive(Clone, Copy, Debug, PartialEq, Eq, Structural)]
pub enum DeviceEvent {
    /// It came. `matches` says whether its properties are those that the
    /// configuration asks for.
    Added { device: UsbDevice, matches: bool },
    /// It went.
    Removed,
}

/// What the provider does about a [`DeviceEvent`].
#[derive(Debug)]
pub enum Reaction {
    /// Register a volume of this name, without touching the device.
    Register { name: String },
    /// Nothing.
    Ignore,
    /// Remove what is registered for the device.
    Remove,
}

/// What a [`Reaction`] stands for.
pub enum ReactionModel {
    Register { name: Seq<char> },
    Ignore,
    Remove,
}

impl View for Reaction {
    type V = ReactionModel;

    open spec fn view(&self) -> ReactionModel {
        match self {
            Reaction::Register { name } => ReactionModel::Register { name: name@ },
            Reaction::Ignore => ReactionModel::Ignore,
            Reaction::Remove => ReactionModel::Remove,
        }
    }
}

/// What the provider does about an event.
pub open spec fn reaction_to(event: DeviceEvent) -> ReactionModel {
    match event {
        DeviceEvent::Added { device, matches } => if is_candidate(device) && matches {
            ReactionModel::Register { name: volume_name(device.busnum->0, device.devnum->0) }
        } else {
            ReactionModel::Ignore
        },
        DeviceEvent::Removed => ReactionModel::Remove,
    }
}

/// What the provider does about an event.
pub fn react(event: &DeviceEvent) -> (r: Reaction)
    ensures
        r@ == reaction_to(*event),
{
    match event {
        DeviceEvent::Added { device, matches } => match candidate_name(device) {
            Some(name) => if *matches {
                Reaction::Register { name }
            } else {
                Reaction::Ignore
            },
            None => Reaction::Ignore,
        },
        DeviceEvent::Removed => Reaction::Remove,
    }
}

/// What the provider does about `events`, one after the other.
pub open spec fn reactions(events: Seq<DeviceEvent>) -> Seq<ReactionModel> {
    events.map_values(|e: DeviceEvent| reaction_to(e))
}

/// Each event has one reaction, whatever came before it: one volume is registered
/// for a device that came, is a candidate and matches, none for any other event,
/// and what went is removed.
pub proof fn law_each_event_has_its_reaction(events: Seq<DeviceEvent>, i: int)
    requires
        0 <= i < events.len(),
    ensures
        reactions(events).len() == events.len(),
        reactions(events)[i] is Register <==> (events[i] matches DeviceEvent::Added {
            device,
            matches,
        } && is_candidate(device) && matches),
        reactions(events)[i] is Remove <==> events[i] is Removed,
        reactions(events) == reactions(events.take(i)).push(reaction_to(events[i])) + reactions(
            events.skip(i + 1),
        ),
{
}

/// Devices that sit at different places of the USB have volumes of different
/// names.
pub proof fn law_volume_names_differ(bus1: u64, dev1: u64, bus2: u64, dev2: u64)
    ensures
        volume_name(bus1, dev1) == volume_name(bus2, dev2) ==> bus1 == bus2 && dev1 == dev2,
{
    if volume_name(bus1, dev1) == volume_name(bus2, dev2) {
        lemma_bus_is_no_longer(bus1, dev1, bus2, dev2);
        lemma_bus_is_no_longer(bus2, dev2, bus1, dev1);
        reveal_strlit("qdl ");
        reveal_strlit("/");
        let s = volume_name(bus1, dev1);
        let n = decimal_digits(bus1 as nat).len() as int;
        assert(s.subrange(4, 4 + n) == decimal_digits(bus1 as nat));
        assert(s.subrange(4, 4 + n) == decimal_digits(bus2 as nat));
        assert(s.skip(5 + n) == decimal_digits(dev1 as nat));
        assert(s.skip(5 + n) == decimal_digits(dev2 as nat));
        law_decimal_text_reads_back(bus1 as nat, u64::MAX as nat);
        law_decimal_text_reads_back(bus2 as nat, u64::MAX as nat);
        law_decimal_text_reads_back(dev1 as nat, u64::MAX as nat);
        law_decimal_text_reads_back(dev2 as nat, u64::MAX as nat);
    }
}

proof fn lemma_bus_is_no_longer(bus1: u64, dev1: u64, bus2: u64, dev2: u64)
    requires
        volume_name(bus1, dev1) == volume_name(bus2, dev2),
    ensures
        decimal_digits(bus1 as nat).len() <= decimal_digits(bus2 as nat).len(),
{
    reveal_strlit("qdl ");
    reveal_strlit("/");
    let a = decimal_digits(bus1 as nat);
    let b = decimal_digits(bus2 as nat);
    lemma_decimal_digits_are_digits(bus1 as nat);
    if a.len() > b.len() {
        let s = volume_name(bus1, dev1);
        assert(s[4 + b.len() as int] == a[b.len() as int]);
        assert(volume_name(bus2, dev2)[4 + b.len() as int] == "/"@[0]);
    }
}

/// eMMC is used where no storage type is asked for, and a known one where it is.
pub proof fn law_storage_is_the_one_asked_for(t: StorageType)
    ensures
        StorageRequest::Absent.resolved() == Some(StorageType::Emmc),
        StorageRequest::Unknown.resolved() is None,
        StorageRequest::Known(t).resolved() == Some(t),
{
}

/// A device is one of the provider's exactly if its vendor is 05c6 and its product
/// 9008, both hexadecimal, and the system knows where it sits, wherever that is.
pub proof fn law_which_devices_are_candidates(device: UsbDevice)
    ensures
        is_candidate(device) <==> {
            &&& device.vendor == Some(0x05c6u64)
            &&& device.model == Some(0x9008u64)
            &&& device.busnum is Some
            &&& device.devnum is Some
        },
{
}

/// The name of a volume is `qdl `, the number of the bus, a slash and the number of
/// the device.
pub proof fn law_volume_name_tells_the_place(busnum: u64, devnum: u64)
    ensures
        volume_name(busnum, devnum) == "qdl "@ + decimal_digits(busnum as nat) + "/"@
            + decimal_digits(devnum as nat),
{
}

/// A volume is registered exactly for a device that came, is one of the provider's
/// and matches, under the name of its place. What went is removed. Everything else
/// is left alone.
pub proof fn law_reaction_fits_the_event(event: DeviceEvent)
    ensures
        event is Removed <==> reaction_to(event) is Remove,
        event matches DeviceEvent::Added { device, matches } ==> {
            let ours = device.vendor == Some(0x05c6u64) && device.model == Some(0x9008u64)
                && device.busnum is Some && device.devnum is Some && matches;
            &&& ours ==> reaction_to(event) == (ReactionModel::Register {
                name: volume_name(device.busnum->0, device.devnum->0),
            })
            &&& !ours ==> reaction_to(event) is Ignore
        },
{
}

/// A reaction stands for what it names.
pub proof fn law_reaction_stands_for_its_parts(r: Reaction)
    ensures
        r matches Reaction::Register { name } ==> r@ == (ReactionModel::Register { name: name@ }),
        r is Ignore ==> r@ is Ignore,
        r is Remove ==> r@ is Remove,
{
}

} // verus!
