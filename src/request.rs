use vstd::prelude::*;
use vstd::string::*;
use crate::fields::SetupFields;
use crate::text::{dec, hex_lower, push_dec, push_hex, text};

verus! {

/// The standard requests of a control transfer's setup stage.
#[derive(Copy, Clone, Debug, PartialEq, Eq, Structural)]
pub enum StandardRequest {
    GetStatus,
    ClearFeature,
    SetFeature,
    SetAddress,
    GetDescriptor,
    SetDescriptor,
    GetConfiguration,
    SetConfiguration,
    GetInterface,
    SetInterface,
    SynchFrame,
    Unknown,
}

#[derive(Copy, Clone, Debug, PartialEq, Eq, Structural)]
pub enum DescriptorType {
    Device,
    Configuration,
    String,
    Interface,
    Endpoint,
    DeviceQualifier,
    OtherSpeedConfiguration,
    InterfacePower,
    Unknown,
}

#[derive(Copy, Clone, Debug, PartialEq, Eq, Structural)]
pub enum StandardFeature {
    EndpointHalt,
    DeviceRemoteWakeup,
    TestMode,
    Unknown,
}

pub open spec fn standard_request_of(v: u8) -> StandardRequest {
    if v == 0 { StandardRequest::GetStatus }
    else if v == 1 { StandardRequest::ClearFeature }
    else if v == 3 { StandardRequest::SetFeature }
    else if v == 5 { StandardRequest::SetAddress }
    else if v == 6 { StandardRequest::GetDescriptor }
    else if v == 7 { StandardRequest::SetDescriptor }
    else if v == 8 { StandardRequest::GetConfiguration }
    else if v == 9 { StandardRequest::SetConfiguration }
    else if v == 10 { StandardRequest::GetInterface }
    else if v == 11 { StandardRequest::SetInterface }
    else if v == 12 { StandardRequest::SynchFrame }
    else { StandardRequest::Unknown }
}

pub open spec fn descriptor_type_of(v: u8) -> DescriptorType {
    if v == 1 { DescriptorType::Device }
    else if v == 2 { DescriptorType::Configuration }
    else if v == 3 { DescriptorType::String }
    else if v == 4 { DescriptorType::Interface }
    else if v == 5 { DescriptorType::Endpoint }
    else if v == 6 { DescriptorType::DeviceQualifier }
    else if v == 7 { DescriptorType::OtherSpeedConfiguration }
    else if v == 8 { DescriptorType::InterfacePower }
    else { DescriptorType::Unknown }
}

pub open spec fn standard_feature_of(v: u16) -> StandardFeature {
    if v == 0 { StandardFeature::EndpointHalt }
    else if v == 1 { StandardFeature::DeviceRemoteWakeup }
    else if v == 2 { StandardFeature::TestMode }
    else { StandardFeature::Unknown }
}

pub open spec fn descriptor_name(t: DescriptorType) -> Seq<char> {
    match t {
        DescriptorType::Device => "device"@,
        DescriptorType::Configuration => "configuration"@,
        DescriptorType::String => "string"@,
        DescriptorType::Interface => "interface"@,
        DescriptorType::Endpoint => "endpoint"@,
        DescriptorType::DeviceQualifier => "device qualifier"@,
        DescriptorType::OtherSpeedConfiguration => "other speed configuration"@,
        DescriptorType::InterfacePower => "interface power"@,
        DescriptorType::Unknown => "unknown"@,
    }
}

pub open spec fn feature_name(f: StandardFeature) -> Seq<char> {
    match f {
        StandardFeature::EndpointHalt => "endpoint halt"@,
        StandardFeature::DeviceRemoteWakeup => "device remote wakeup"@,
        StandardFeature::TestMode => "test mode"@,
        StandardFeature::Unknown => "unknown standard feature"@,
    }
}

/// The description of a standard request with the given setup fields.
pub open spec fn request_text(r: StandardRequest, f: SetupFields) -> Seq<char> {
    match r {
        StandardRequest::GetStatus => "Getting status"@,
        StandardRequest::ClearFeature => "Clearing "@ + feature_name(standard_feature_of(f.value)),
        StandardRequest::SetFeature => "Setting "@ + feature_name(standard_feature_of(f.value)),
        StandardRequest::SetAddress => "Setting address to "@ + dec(f.value as nat),
        StandardRequest::GetDescriptor | StandardRequest::SetDescriptor => {
            let t = descriptor_type_of((f.value / 256) as u8);
            (if r == StandardRequest::GetDescriptor { "Getting "@ } else { "Setting "@ })
                + descriptor_name(t) + " descriptor #"@ + dec((f.value % 256) as nat)
                + (if t == DescriptorType::String && f.index > 0 {
                    ", language 0x"@ + hex_lower(f.index as nat, 4)
                } else {
                    Seq::empty()
                })
        },
        StandardRequest::GetConfiguration => "Getting configuration"@,
        StandardRequest::SetConfiguration => "Setting configuration "@ + dec(f.value as nat),
        StandardRequest::GetInterface => "Getting interface "@ + dec(f.index as nat),
        StandardRequest::SetInterface => "Setting interface "@ + dec(f.index as nat) + " to "@
            + dec(f.value as nat),
        StandardRequest::SynchFrame => "Synchronising frame"@,
        StandardRequest::Unknown => "Unknown standard request"@,
    }
}

impl StandardRequest {
    pub fn from_u8(v: u8) -> (r: StandardRequest)
        ensures
            r == standard_request_of(v),
    {
        match v {
            0 => StandardRequest::GetStatus,
            1 => StandardRequest::ClearFeature,
            3 => StandardRequest::SetFeature,
            5 => StandardRequest::SetAddress,
            6 => StandardRequest::GetDescriptor,
            7 => StandardRequest::SetDescriptor,
            8 => StandardRequest::GetConfiguration,
            9 => StandardRequest::SetConfiguration,
            10 => StandardRequest::GetInterface,
            11 => StandardRequest::SetInterface,
            12 => StandardRequest::SynchFrame,
            _ => StandardRequest::Unknown,
        }
    }

    pub fn description(&self, fields: &SetupFields) -> (r: String)
        ensures
            r@ == request_text(*self, *fields),
    {
        match self {
            StandardRequest::GetStatus => text("Getting status"),
            StandardRequest::ClearFeature | StandardRequest::SetFeature => {
                let feature = StandardFeature::from_u16(fields.value);
                let mut s = if *self == StandardRequest::ClearFeature {
                    text("Clearing ")
                } else {
                    text("Setting ")
                };
                s.append(feature.description());
                s
            },
            StandardRequest::SetAddress => {
                let mut s = text("Setting address to ");
                push_dec(&mut s, fields.value as u128);
                s
            },
            StandardRequest::GetDescriptor | StandardRequest::SetDescriptor => {
                let descriptor_type = DescriptorType::from_u8((fields.value / 256) as u8);
                let mut s = if *self == StandardRequest::GetDescriptor {
                    text("Getting ")
                } else {
                    text("Setting ")
                };
                s.append(descriptor_type.description());
                s.append(" descriptor #");
                push_dec(&mut s, (fields.value % 256) as u128);
                if descriptor_type == DescriptorType::String && fields.index > 0 {
                    s.append(", language 0x");
                    push_hex(&mut s, fields.index as u64, 4, true);
                }
                s
            },
            StandardRequest::GetConfiguration => text("Getting configuration"),
            StandardRequest::SetConfiguration => {
                let mut s = text("Setting configuration ");
                push_dec(&mut s, fields.value as u128);
                s
            },
            StandardRequest::GetInterface => {
                let mut s = text("Getting interface ");
                push_dec(&mut s, fields.index as u128);
                s
            },
            StandardRequest::SetInterface => {
                let mut s = text("Setting interface ");
                push_dec(&mut s, fields.index as u128);
                s.append(" to ");
                push_dec(&mut s, fields.value as u128);
                s
            },
            StandardRequest::SynchFrame => text("Synchronising frame"),
            StandardRequest::Unknown => text("Unknown standard request"),
        }
    }
}

impl DescriptorType {
    pub fn from_u8(v: u8) -> (r: DescriptorType)
        ensures
            r == descriptor_type_of(v),
    {
        match v {
            1 => DescriptorType::Device,
            2 => DescriptorType::Configuration,
            3 => DescriptorType::String,
            4 => DescriptorType::Interface,
            5 => DescriptorType::Endpoint,
            6 => DescriptorType::DeviceQualifier,
            7 => DescriptorType::OtherSpeedConfiguration,
            8 => DescriptorType::InterfacePower,
            _ => DescriptorType::Unknown,
        }
    }

    pub fn description(self) -> (r: &'static str)
        ensures
            r@ == descriptor_name(self),
    {
        match self {
            DescriptorType::Device => "device",
            DescriptorType::Configuration => "configuration",
            DescriptorType::String => "string",
            DescriptorType::Interface => "interface",
            DescriptorType::Endpoint => "endpoint",
            DescriptorType::DeviceQualifier => "device qualifier",
            DescriptorType::OtherSpeedConfiguration => "other speed configuration",
            DescriptorType::InterfacePower => "interface power",
            DescriptorType::Unknown => "unknown",
        }
    }
}

impl StandardFeature {
    pub fn from_u16(v: u16) -> (r: StandardFeature)
        ensures
            r == standard_feature_of(v),
    {
        match v {
            0 => StandardFeature::EndpointHalt,
            1 => StandardFeature::DeviceRemoteWakeup,
            2 => StandardFeature::TestMode,
            _ => StandardFeature::Unknown,
        }
    }

    pub fn description(self) -> (r: &'static str)
        ensures
            r@ == feature_name(self),
    {
        match self {
            StandardFeature::EndpointHalt => "endpoint halt",
            StandardFeature::DeviceRemoteWakeup => "device remote wakeup",
            StandardFeature::TestMode => "test mode",
            StandardFeature::Unknown => "unknown standard feature",
        }
    }
}

} // verus!
