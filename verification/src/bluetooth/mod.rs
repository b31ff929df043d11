//! Bluetooth devices as the toolbar shows them: the device classes read
//! from a Class of Device value, the device records, and the bookkeeping of
//! the device list.
use vstd::prelude::*;

pub mod classic;
pub mod devices;
pub mod low_energy;
pub mod records;

verus! {

/// Whether a device is a classic or a low-energy one.
#[derive(Debug, Clone, Copy, PartialEq, Eq, Structural)]
pub enum BluetoothDeviceType {
    Classic,
    LowEnergy,
}

/// A change of the device list reported by the system.
#[derive(Debug, Clone)]
pub enum BluetoothManagerEvent {
    DeviceAdded(String, BluetoothDeviceType),
    DeviceUpdated(String, BluetoothDeviceType),
    DeviceRemoved(String, BluetoothDeviceType),
}

/// The user's answer to a pairing request.
#[derive(Debug, Clone)]
pub struct DevicePairingAnswer {
    pub accept: bool,
    pub pin: Option<String>,
    pub username: Option<String>,
    pub password: Option<String>,
    pub address: Option<String>,
}

#[derive(Debug, Clone, Copy, PartialEq, Eq, Structural)]
pub enum BluetoothMajorClass {
    Uncategorized,
    Miscellaneous,
    Computer,
    Phone,
    NetworkAccessPoint,
    AudioVideo,
    Peripheral,
    Imaging,
    Wearable,
    Toy,
    Health,
}

#[derive(Debug, Clone, Copy, PartialEq, Eq, Structural)]
pub enum BluetoothComputerMinor {
    Uncategorized,
    DesktopWorkstation,
    ServerClassComputer,
    Laptop,
    HandheldPcPda,
    PalmSizePcPda,
    WearableComputer,
    Tablet,
}

#[derive(Debug, Clone, Copy, PartialEq, Eq, Structural)]
pub enum BluetoothPhoneMinor {
    Uncategorized,
    Cellular,
    Cordless,
    Smartphone,
    WiredModemOrVoiceGateway,
    CommonIsdnAccess,
}

#[derive(Debug, Clone, Copy, PartialEq, Eq, Structural)]
pub enum BluetoothAudioVideoMinor {
    Uncategorized,
    Headset,
    HandsFree,
    Microphone,
    Loudspeaker,
    Headphones,
    PortableAudio,
    CarAudio,
    SetTopBox,
    HiFiAudioDevice,
    Vcr,
    VideoCamera,
    Camcorder,
    VideoMonitor,
    VideoDisplayAndLoudspeaker,
    VideoConferencing,
    GamingToy,
}

#[derive(Debug, Clone, Copy, PartialEq, Eq, Structural)]
pub enum BluetoothPeripheralMinor {
    Uncategorized,
    Keyboard,
    Pointing,
    ComboKeyboardPointing,
}

#[derive(Debug, Clone, Copy, PartialEq, Eq, Structural)]
pub enum BluetoothPeripheralSubMinor {
    Uncategorized,
    Joystick,
    Gamepad,
    RemoteControl,
    SensingDevice,
    DigitizerTablet,
    CardReader,
    DigitalPen,
    HandheldScanner,
    HandheldGesture,
}

/// The peripheral sub-type of the low four bits of a minor class.
pub open spec fn spec_sub_minor(value: u8) -> BluetoothPeripheralSubMinor {
    if value == 1 {
        BluetoothPeripheralSubMinor::Joystick
    } else if value == 2 {
        BluetoothPeripheralSubMinor::Gamepad
    } else if value == 3 {
        BluetoothPeripheralSubMinor::RemoteControl
    } else if value == 4 {
        BluetoothPeripheralSubMinor::SensingDevice
    } else if value == 5 {
        BluetoothPeripheralSubMinor::DigitizerTablet
    } else if value == 6 {
        BluetoothPeripheralSubMinor::CardReader
    } else if value == 7 {
        BluetoothPeripheralSubMinor::DigitalPen
    } else if value == 8 {
        BluetoothPeripheralSubMinor::HandheldScanner
    } else if value == 9 {
        BluetoothPeripheralSubMinor::HandheldGesture
    } else {
        BluetoothPeripheralSubMinor::Uncategorized
    }
}

impl From<u8> for BluetoothPeripheralSubMinor {
    fn from(value: u8) -> (r: Self) {
        if value == 1 {
            BluetoothPeripheralSubMinor::Joystick
        } else if value == 2 {
            BluetoothPeripheralSubMinor::Gamepad
        } else if value == 3 {
            BluetoothPeripheralSubMinor::RemoteControl
        } else if value == 4 {
            BluetoothPeripheralSubMinor::SensingDevice
        } else if value == 5 {
            BluetoothPeripheralSubMinor::DigitizerTablet
        } else if value == 6 {
            BluetoothPeripheralSubMinor::CardReader
        } else if value == 7 {
            BluetoothPeripheralSubMinor::DigitalPen
        } else if value == 8 {
            BluetoothPeripheralSubMinor::HandheldScanner
        } else if value == 9 {
            BluetoothPeripheralSubMinor::HandheldGesture
        } else {
            BluetoothPeripheralSubMinor::Uncategorized
        }
    }
}

impl vstd::std_specs::convert::FromSpecImpl<u8> for BluetoothPeripheralSubMinor {
    open spec fn obeys_from_spec() -> bool {
        true
    }

    open spec fn from_spec(v: u8) -> BluetoothPeripheralSubMinor {
        spec_sub_minor(v)
    }
}

#[derive(Debug, Clone, Copy, PartialEq, Eq, Structural)]
pub enum BluetoothWearableMinor {
    Uncategorized,
    Wristwatch,
    Pager,
    Jacket,
    Helmet,
    Glasses,
}

/// The device's minor class, read according to its major class.
#[derive(Debug, Clone, Copy, PartialEq, Eq, Structural)]
pub enum BluetoothMinorClass {
    Uncategorized { unused: u8 },
    Computer(BluetoothComputerMinor),
    Phone(BluetoothPhoneMinor),
    AudioVideo(BluetoothAudioVideoMinor),
    Peripheral(BluetoothPeripheralMinor, BluetoothPeripheralSubMinor),
    Wearable(BluetoothWearableMinor),
}

/// The services a device advertises (bits 13 to 23 of its class).
#[derive(Debug, Clone, Copy, PartialEq, Eq, Structural)]
pub enum BluetoothMajorServiceClass {
    LimitedDiscoverableMode,
    Positioning,
    Networking,
    Rendering,
    Capturing,
    ObjectTransfer,
    Audio,
    Telephony,
    Information,
}

/// The bit of a service class within the service field of a class value.
pub open spec fn service_bit(s: BluetoothMajorServiceClass) -> u32 {
    match s {
        BluetoothMajorServiceClass::LimitedDiscoverableMode => 0x0001,
        BluetoothMajorServiceClass::Positioning => 0x0008,
        BluetoothMajorServiceClass::Networking => 0x0010,
        BluetoothMajorServiceClass::Rendering => 0x0020,
        BluetoothMajorServiceClass::Capturing => 0x0040,
        BluetoothMajorServiceClass::ObjectTransfer => 0x0080,
        BluetoothMajorServiceClass::Audio => 0x0100,
        BluetoothMajorServiceClass::Telephony => 0x0200,
        BluetoothMajorServiceClass::Information => 0x0400,
    }
}

impl BluetoothMajorServiceClass {
    /// The bit of this service within the service field.
    pub fn bit(&self) -> (r: u32)
        ensures
            r == service_bit(*self),
    {
        match self {
            BluetoothMajorServiceClass::LimitedDiscoverableMode => 0x0001,
            BluetoothMajorServiceClass::Positioning => 0x0008,
            BluetoothMajorServiceClass::Networking => 0x0010,
            BluetoothMajorServiceClass::Rendering => 0x0020,
            BluetoothMajorServiceClass::Capturing => 0x0040,
            BluetoothMajorServiceClass::ObjectTransfer => 0x0080,
            BluetoothMajorServiceClass::Audio => 0x0100,
            BluetoothMajorServiceClass::Telephony => 0x0200,
            BluetoothMajorServiceClass::Information => 0x0400,
        }
    }
}

/// All service classes in the order a device lists them.
pub open spec fn all_services() -> Seq<BluetoothMajorServiceClass> {
    seq![
        BluetoothMajorServiceClass::LimitedDiscoverableMode,
        BluetoothMajorServiceClass::Positioning,
        BluetoothMajorServiceClass::Networking,
        BluetoothMajorServiceClass::Rendering,
        BluetoothMajorServiceClass::Capturing,
        BluetoothMajorServiceClass::ObjectTransfer,
        BluetoothMajorServiceClass::Audio,
        BluetoothMajorServiceClass::Telephony,
        BluetoothMajorServiceClass::Information,
    ]
}

pub open spec fn has_service(class: u32) -> spec_fn(BluetoothMajorServiceClass) -> bool {
    |s: BluetoothMajorServiceClass| (class >> 13u32) & service_bit(s) != 0
}

/// The services whose bits are set in the class value, in listing order.
pub open spec fn spec_services(class: u32) -> Seq<BluetoothMajorServiceClass> {
    all_services().filter(has_service(class))
}

/// The major class of bits 8 to 12.
pub open spec fn spec_major(class: u32) -> BluetoothMajorClass {
    let v = (class >> 8u32) & 0x1f;
    if v == 0 {
        BluetoothMajorClass::Miscellaneous
    } else if v == 1 {
        BluetoothMajorClass::Computer
    } else if v == 2 {
        BluetoothMajorClass::Phone
    } else if v == 3 {
        BluetoothMajorClass::NetworkAccessPoint
    } else if v == 4 {
        BluetoothMajorClass::AudioVideo
    } else if v == 5 {
        BluetoothMajorClass::Peripheral
    } else if v == 6 {
        BluetoothMajorClass::Imaging
    } else if v == 7 {
        BluetoothMajorClass::Wearable
    } else if v == 8 {
        BluetoothMajorClass::Toy
    } else if v == 9 {
        BluetoothMajorClass::Health
    } else {
        BluetoothMajorClass::Uncategorized
    }
}

/// The six minor-class bits (2 to 7).
pub open spec fn minor_bits(class: u32) -> u8 {
    ((class >> 2u32) & 0x3f) as u8
}

pub open spec fn spec_computer_minor(v: u8) -> BluetoothComputerMinor {
    if v == 1 {
        BluetoothComputerMinor::DesktopWorkstation
    } else if v == 2 {
        BluetoothComputerMinor::ServerClassComputer
    } else if v == 3 {
        BluetoothComputerMinor::Laptop
    } else if v == 4 {
        BluetoothComputerMinor::HandheldPcPda
    } else if v == 5 {
        BluetoothComputerMinor::PalmSizePcPda
    } else if v == 6 {
        BluetoothComputerMinor::WearableComputer
    } else if v == 7 {
        BluetoothComputerMinor::Tablet
    } else {
        BluetoothComputerMinor::Uncategorized
    }
}

pub open spec fn spec_phone_minor(v: u8) -> BluetoothPhoneMinor {
    if v == 1 {
        BluetoothPhoneMinor::Cellular
    } else if v == 2 {
        BluetoothPhoneMinor::Cordless
    } else if v == 3 {
        BluetoothPhoneMinor::Smartphone
    } else if v == 4 {
        BluetoothPhoneMinor::WiredModemOrVoiceGateway
    } else if v == 5 {
        BluetoothPhoneMinor::CommonIsdnAccess
    } else {
        BluetoothPhoneMinor::Uncategorized
    }
}

/// Audio/video minor classes; value 3 is reserved and reads as
/// uncategorized, as does 17.
pub open spec fn spec_av_minor(v: u8) -> BluetoothAudioVideoMinor {
    if v == 1 {
        BluetoothAudioVideoMinor::Headset
    } else if v == 2 {
        BluetoothAudioVideoMinor::HandsFree
    } else if v == 4 {
        BluetoothAudioVideoMinor::Microphone
    } else if v == 5 {
        BluetoothAudioVideoMinor::Loudspeaker
    } else if v == 6 {
        BluetoothAudioVideoMinor::Headphones
    } else if v == 7 {
        BluetoothAudioVideoMinor::PortableAudio
    } else if v == 8 {
        BluetoothAudioVideoMinor::CarAudio
    } else if v == 9 {
        BluetoothAudioVideoMinor::SetTopBox
    } else if v == 10 {
        BluetoothAudioVideoMinor::HiFiAudioDevice
    } else if v == 11 {
        BluetoothAudioVideoMinor::Vcr
    } else if v == 12 {
        BluetoothAudioVideoMinor::VideoCamera
    } else if v == 13 {
        BluetoothAudioVideoMinor::Camcorder
    } else if v == 14 {
        BluetoothAudioVideoMinor::VideoMonitor
    } else if v == 15 {
        BluetoothAudioVideoMinor::VideoDisplayAndLoudspeaker
    } else if v == 16 {
        BluetoothAudioVideoMinor::VideoConferencing
    } else if v == 18 {
        BluetoothAudioVideoMinor::GamingToy
    } else {
        BluetoothAudioVideoMinor::Uncategorized
    }
}

pub open spec fn spec_peripheral_minor(v: u8) -> BluetoothPeripheralMinor {
    let t = v >> 4u8;
    if t == 1 {
        BluetoothPeripheralMinor::Keyboard
    } else if t == 2 {
        BluetoothPeripheralMinor::Pointing
    } else if t == 3 {
        BluetoothPeripheralMinor::ComboKeyboardPointing
    } else {
        BluetoothPeripheralMinor::Uncategorized
    }
}

pub open spec fn spec_wearable_minor(v: u8) -> BluetoothWearableMinor {
    if v == 1 {
        BluetoothWearableMinor::Wristwatch
    } else if v == 2 {
        BluetoothWearableMinor::Pager
    } else if v == 3 {
        BluetoothWearableMinor::Jacket
    } else if v == 4 {
        BluetoothWearableMinor::Helmet
    } else if v == 5 {
        BluetoothWearableMinor::Glasses
    } else {
        BluetoothWearableMinor::Uncategorized
    }
}

/// The minor class, read by the major class; majors without a minor table
/// keep the raw bits.
pub open spec fn spec_minor(class: u32) -> BluetoothMinorClass {
    let v = minor_bits(class);
    match spec_major(class) {
        BluetoothMajorClass::Computer => BluetoothMinorClass::Computer(spec_computer_minor(v)),
        BluetoothMajorClass::Phone => BluetoothMinorClass::Phone(spec_phone_minor(v)),
        BluetoothMajorClass::AudioVideo => BluetoothMinorClass::AudioVideo(spec_av_minor(v)),
        BluetoothMajorClass::Peripheral => BluetoothMinorClass::Peripheral(
            spec_peripheral_minor(v),
            spec_sub_minor(v & 0xf),
        ),
        BluetoothMajorClass::Wearable => BluetoothMinorClass::Wearable(spec_wearable_minor(v)),
        _ => BluetoothMinorClass::Uncategorized { unused: v },
    }
}

fn computer_minor(v: u8) -> (r: BluetoothComputerMinor)
    ensures
        r == spec_computer_minor(v),
{
    match v {
        1 => BluetoothComputerMinor::DesktopWorkstation,
        2 => BluetoothComputerMinor::ServerClassComputer,
        3 => BluetoothComputerMinor::Laptop,
        4 => BluetoothComputerMinor::HandheldPcPda,
        5 => BluetoothComputerMinor::PalmSizePcPda,
        6 => BluetoothComputerMinor::WearableComputer,
        7 => BluetoothComputerMinor::Tablet,
        _ => BluetoothComputerMinor::Uncategorized,
    }
}

fn phone_minor(v: u8) -> (r: BluetoothPhoneMinor)
    ensures
        r == spec_phone_minor(v),
{
    match v {
        1 => BluetoothPhoneMinor::Cellular,
        2 => BluetoothPhoneMinor::Cordless,
        3 => BluetoothPhoneMinor::Smartphone,
        4 => BluetoothPhoneMinor::WiredModemOrVoiceGateway,
        5 => BluetoothPhoneMinor::CommonIsdnAccess,
        _ => BluetoothPhoneMinor::Uncategorized,
    }
}

fn av_minor(v: u8) -> (r: BluetoothAudioVideoMinor)
    ensures
        r == spec_av_minor(v),
{
    match v {
        1 => BluetoothAudioVideoMinor::Headset,
        2 => BluetoothAudioVideoMinor::HandsFree,
        4 => BluetoothAudioVideoMinor::Microphone,
        5 => BluetoothAudioVideoMinor::Loudspeaker,
        6 => BluetoothAudioVideoMinor::Headphones,
        7 => BluetoothAudioVideoMinor::PortableAudio,
        8 => BluetoothAudioVideoMinor::CarAudio,
        9 => BluetoothAudioVideoMinor::SetTopBox,
        10 => BluetoothAudioVideoMinor::HiFiAudioDevice,
        11 => BluetoothAudioVideoMinor::Vcr,
        12 => BluetoothAudioVideoMinor::VideoCamera,
        13 => BluetoothAudioVideoMinor::Camcorder,
        14 => BluetoothAudioVideoMinor::VideoMonitor,
        15 => BluetoothAudioVideoMinor::VideoDisplayAndLoudspeaker,
        16 => BluetoothAudioVideoMinor::VideoConferencing,
        18 => BluetoothAudioVideoMinor::GamingToy,
        _ => BluetoothAudioVideoMinor::Uncategorized,
    }
}

fn peripheral_minor(v: u8) -> (r: BluetoothPeripheralMinor)
    ensures
        r == spec_peripheral_minor(v),
{
    let t = v >> 4u8;
    match t {
        1 => BluetoothPeripheralMinor::Keyboard,
        2 => BluetoothPeripheralMinor::Pointing,
        3 => BluetoothPeripheralMinor::ComboKeyboardPointing,
        _ => BluetoothPeripheralMinor::Uncategorized,
    }
}

fn wearable_minor(v: u8) -> (r: BluetoothWearableMinor)
    ensures
        r == spec_wearable_minor(v),
{
    match v {
        1 => BluetoothWearableMinor::Wristwatch,
        2 => BluetoothWearableMinor::Pager,
        3 => BluetoothWearableMinor::Jacket,
        4 => BluetoothWearableMinor::Helmet,
        5 => BluetoothWearableMinor::Glasses,
        _ => BluetoothWearableMinor::Uncategorized,
    }
}

fn major_class_of(class: u32) -> (r: BluetoothMajorClass)
    ensures
        r == spec_major(class),
{
    let v = (class >> 8u32) & 0x1f;
    match v {
        0 => BluetoothMajorClass::Miscellaneous,
        1 => BluetoothMajorClass::Computer,
        2 => BluetoothMajorClass::Phone,
        3 => BluetoothMajorClass::NetworkAccessPoint,
        4 => BluetoothMajorClass::AudioVideo,
        5 => BluetoothMajorClass::Peripheral,
        6 => BluetoothMajorClass::Imaging,
        7 => BluetoothMajorClass::Wearable,
        8 => BluetoothMajorClass::Toy,
        9 => BluetoothMajorClass::Health,
        _ => BluetoothMajorClass::Uncategorized,
    }
}

fn services_of(class: u32) -> (r: Vec<BluetoothMajorServiceClass>)
    ensures
        r@ == spec_services(class),
{
    let all: Vec<BluetoothMajorServiceClass> = vec![
        BluetoothMajorServiceClass::LimitedDiscoverableMode,
        BluetoothMajorServiceClass::Positioning,
        BluetoothMajorServiceClass::Networking,
        BluetoothMajorServiceClass::Rendering,
        BluetoothMajorServiceClass::Capturing,
        BluetoothMajorServiceClass::ObjectTransfer,
        BluetoothMajorServiceClass::Audio,
        BluetoothMajorServiceClass::Telephony,
        BluetoothMajorServiceClass::Information,
    ];
    assert(all@ == all_services());
    let services = class >> 13u32;
    let mut out: Vec<BluetoothMajorServiceClass> = Vec::new();
    let mut i: usize = 0;
    proof {
        assert(all@.take(0).filter(has_service(class)) =~= seq![]);
    }
    while i < all.len()
        invariant
            i <= all.len(),
            all@ == all_services(),
            services == class >> 13u32,
            out@ == all@.take(i as int).filter(has_service(class)),
        decreases all.len() - i,
    {
        let s = all[i];
        proof {
            assert(all@.take(i + 1) =~= all@.take(i as int).push(s));
            all@.take(i as int).lemma_filter_push(s, has_service(class));
        }
        if services & s.bit() != 0 {
            out.push(s);
        }
        i = i + 1;
    }
    assert(all@.take(all.len() as int) =~= all@);
    out
}

/// Service classes, major class and minor class of a Class of Device
/// value.
pub fn parse_class_of_device(class: u32) -> (r: (
    Vec<BluetoothMajorServiceClass>,
    BluetoothMajorClass,
    BluetoothMinorClass,
))
    ensures
        r.0@ == spec_services(class),
        r.1 == spec_major(class),
        r.2 == spec_minor(class),
{
    let services = services_of(class);
    let major = major_class_of(class);
    let v: u8 = ((class >> 2u32) & 0x3f) as u8;
    let minor = match major {
        BluetoothMajorClass::Computer => BluetoothMinorClass::Computer(computer_minor(v)),
        BluetoothMajorClass::Phone => BluetoothMinorClass::Phone(phone_minor(v)),
        BluetoothMajorClass::AudioVideo => BluetoothMinorClass::AudioVideo(av_minor(v)),
        BluetoothMajorClass::Peripheral => BluetoothMinorClass::Peripheral(
            peripheral_minor(v),
            BluetoothPeripheralSubMinor::from(v & 0xf),
        ),
        BluetoothMajorClass::Wearable => BluetoothMinorClass::Wearable(wearable_minor(v)),
        _ => BluetoothMinorClass::Uncategorized { unused: v },
    };
    (services, major, minor)
}

/// The classes of a device whose class value cannot be read.
pub fn default_device_classes() -> (r: (
    Vec<BluetoothMajorServiceClass>,
    BluetoothMajorClass,
    BluetoothMinorClass,
))
    ensures
        r.0@ == Seq::<BluetoothMajorServiceClass>::empty(),
        r.1 == BluetoothMajorClass::Uncategorized,
        r.2 == (BluetoothMinorClass::Uncategorized { unused: 0 }),
{
    (Vec::new(), BluetoothMajorClass::Uncategorized, BluetoothMinorClass::Uncategorized { unused: 0 })
}

/// Whether Bluetooth is on, as last reported.
pub struct BluetoothEnabledCache {
    pub enabled: bool,
}

pub fn set_cached_bluetooth_enabled(cache: &mut BluetoothEnabledCache, enabled: bool)
    ensures
        final(cache).enabled == enabled,
{
    cache.enabled = enabled;
}

/// What a pairing request needs from the user.
#[derive(Debug, Clone, PartialEq, Eq)]
pub enum DevicePairingNeededAction {
    /// No action the toolbar can offer.
    NotNeeded,
    ConfirmOnly,
    DisplayPin { pin: String },
    ProvidePin,
    ConfirmPinMatch { pin: String },
    ProvidePasswordCredential,
    ProvideAddress,
}

} // verus!
