//! The tag registry: delimiter tags and value tags of RFC 8010, with the
//! mapping between tag bytes and symbols in both directions.

use vstd::prelude::*;

verus! {

/// A delimiter tag: opens an attribute group, or ends the attribute section.
#[derive(Clone, Copy, Debug, PartialEq, Eq, Structural)]
pub enum DelimiterTag {
    OperationAttributes,
    JobAttributes,
    EndOfAttributes,
    PrinterAttributes,
    UnsupportedAttributes,
    SubscriptionAttributes,
    EventNotificationAttributes,
    ResourceAttributes,
    DocumentAttributes,
    SystemAttributes,
}

impl DelimiterTag {
    /// The wire byte of this delimiter tag.
    pub open spec fn spec_as_u8(self) -> u8 {
        match self {
            DelimiterTag::OperationAttributes => 0x01,
            DelimiterTag::JobAttributes => 0x02,
            DelimiterTag::EndOfAttributes => 0x03,
            DelimiterTag::PrinterAttributes => 0x04,
            DelimiterTag::UnsupportedAttributes => 0x05,
            DelimiterTag::SubscriptionAttributes => 0x06,
            DelimiterTag::EventNotificationAttributes => 0x07,
            DelimiterTag::ResourceAttributes => 0x08,
            DelimiterTag::DocumentAttributes => 0x09,
            DelimiterTag::SystemAttributes => 0x0A,
        }
    }

    /// The delimiter tag a wire byte denotes, if any.
    pub open spec fn spec_from_u8(b: u8) -> Option<DelimiterTag> {
        if b == 0x01 {
            Some(DelimiterTag::OperationAttributes)
        } else if b == 0x02 {
            Some(DelimiterTag::JobAttributes)
        } else if b == 0x03 {
            Some(DelimiterTag::EndOfAttributes)
        } else if b == 0x04 {
            Some(DelimiterTag::PrinterAttributes)
        } else if b == 0x05 {
            Some(DelimiterTag::UnsupportedAttributes)
        } else if b == 0x06 {
            Some(DelimiterTag::SubscriptionAttributes)
        } else if b == 0x07 {
            Some(DelimiterTag::EventNotificationAttributes)
        } else if b == 0x08 {
            Some(DelimiterTag::ResourceAttributes)
        } else if b == 0x09 {
            Some(DelimiterTag::DocumentAttributes)
        } else if b == 0x0A {
            Some(DelimiterTag::SystemAttributes)
        } else {
            None
        }
    }

    /// Convert to the wire byte.
    pub fn as_u8(self) -> (r: u8)
        ensures
            r == self.spec_as_u8(),
    {
        match self {
            DelimiterTag::OperationAttributes => 0x01,
            DelimiterTag::JobAttributes => 0x02,
            DelimiterTag::EndOfAttributes => 0x03,
            DelimiterTag::PrinterAttributes => 0x04,
            DelimiterTag::UnsupportedAttributes => 0x05,
            DelimiterTag::SubscriptionAttributes => 0x06,
            DelimiterTag::EventNotificationAttributes => 0x07,
            DelimiterTag::ResourceAttributes => 0x08,
            DelimiterTag::DocumentAttributes => 0x09,
            DelimiterTag::SystemAttributes => 0x0A,
        }
    }

    /// Convert from a wire byte; `None` outside `0x01..=0x0A`.
    pub fn from_u8(b: u8) -> (r: Option<DelimiterTag>)
        ensures
            r == Self::spec_from_u8(b),
            r is Some <==> 0x01 <= b <= 0x0A,
    {
        match b {
            0x01 => Some(DelimiterTag::OperationAttributes),
            0x02 => Some(DelimiterTag::JobAttributes),
            0x03 => Some(DelimiterTag::EndOfAttributes),
            0x04 => Some(DelimiterTag::PrinterAttributes),
            0x05 => Some(DelimiterTag::UnsupportedAttributes),
            0x06 => Some(DelimiterTag::SubscriptionAttributes),
            0x07 => Some(DelimiterTag::EventNotificationAttributes),
            0x08 => Some(DelimiterTag::ResourceAttributes),
            0x09 => Some(DelimiterTag::DocumentAttributes),
            0x0A => Some(DelimiterTag::SystemAttributes),
            _ => None,
        }
    }
}

/// The round trip from a delimiter tag through its wire byte and back.
pub proof fn lemma_delimiter_tag_roundtrip(t: DelimiterTag)
    ensures
        DelimiterTag::spec_from_u8(t.spec_as_u8()) == Some(t),
{
}

/// A value tag: identifies the type of an attribute value on the wire.
#[derive(Clone, Copy, Debug, PartialEq, Eq, Structural)]
pub enum ValueTag {
    Unsupported,
    Unknown,
    NoValue,
    Integer,
    Boolean,
    Enum,
    OctetStringUnspecified,
    DateTime,
    Resolution,
    RangeOfInteger,
    BegCollection,
    TextWithLanguage,
    NameWithLanguage,
    EndCollection,
    TextWithoutLanguage,
    NameWithoutLanguage,
    Keyword,
    Uri,
    UriScheme,
    Charset,
    NaturalLanguage,
    MimeMediaType,
    MemberAttrName,
}

impl ValueTag {
    /// The wire byte of this value tag.
    pub open spec fn spec_as_u8(self) -> u8 {
        match self {
            ValueTag::Unsupported => 0x10,
            ValueTag::Unknown => 0x12,
            ValueTag::NoValue => 0x13,
            ValueTag::Integer => 0x21,
            ValueTag::Boolean => 0x22,
            ValueTag::Enum => 0x23,
            ValueTag::OctetStringUnspecified => 0x30,
            ValueTag::DateTime => 0x31,
            ValueTag::Resolution => 0x32,
            ValueTag::RangeOfInteger => 0x33,
            ValueTag::BegCollection => 0x34,
            ValueTag::TextWithLanguage => 0x35,
            ValueTag::NameWithLanguage => 0x36,
            ValueTag::EndCollection => 0x37,
            ValueTag::TextWithoutLanguage => 0x41,
            ValueTag::NameWithoutLanguage => 0x42,
            ValueTag::Keyword => 0x44,
            ValueTag::Uri => 0x45,
            ValueTag::UriScheme => 0x46,
            ValueTag::Charset => 0x47,
            ValueTag::NaturalLanguage => 0x48,
            ValueTag::MimeMediaType => 0x49,
            ValueTag::MemberAttrName => 0x4A,
        }
    }

    /// The value tag a wire byte denotes, if any.
    pub open spec fn spec_from_u8(b: u8) -> Option<ValueTag> {
        if b == 0x10 {
            Some(ValueTag::Unsupported)
        } else if b == 0x12 {
            Some(ValueTag::Unknown)
        } else if b == 0x13 {
            Some(ValueTag::NoValue)
        } else if b == 0x21 {
            Some(ValueTag::Integer)
        } else if b == 0x22 {
            Some(ValueTag::Boolean)
        } else if b == 0x23 {
            Some(ValueTag::Enum)
        } else if b == 0x30 {
            Some(ValueTag::OctetStringUnspecified)
        } else if b == 0x31 {
            Some(ValueTag::DateTime)
        } else if b == 0x32 {
            Some(ValueTag::Resolution)
        } else if b == 0x33 {
            Some(ValueTag::RangeOfInteger)
        } else if b == 0x34 {
            Some(ValueTag::BegCollection)
        } else if b == 0x35 {
            Some(ValueTag::TextWithLanguage)
        } else if b == 0x36 {
            Some(ValueTag::NameWithLanguage)
        } else if b == 0x37 {
            Some(ValueTag::EndCollection)
        } else if b == 0x41 {
            Some(ValueTag::TextWithoutLanguage)
        } else if b == 0x42 {
            Some(ValueTag::NameWithoutLanguage)
        } else if b == 0x44 {
            Some(ValueTag::Keyword)
        } else if b == 0x45 {
            Some(ValueTag::Uri)
        } else if b == 0x46 {
            Some(ValueTag::UriScheme)
        } else if b == 0x47 {
            Some(ValueTag::Charset)
        } else if b == 0x48 {
            Some(ValueTag::NaturalLanguage)
        } else if b == 0x49 {
            Some(ValueTag::MimeMediaType)
        } else if b == 0x4A {
            Some(ValueTag::MemberAttrName)
        } else {
            None
        }
    }

    /// Convert to the wire byte.
    pub fn as_u8(self) -> (r: u8)
        ensures
            r == self.spec_as_u8(),
    {
        match self {
            ValueTag::Unsupported => 0x10,
            ValueTag::Unknown => 0x12,
            ValueTag::NoValue => 0x13,
            ValueTag::Integer => 0x21,
            ValueTag::Boolean => 0x22,
            ValueTag::Enum => 0x23,
            ValueTag::OctetStringUnspecified => 0x30,
            ValueTag::DateTime => 0x31,
            ValueTag::Resolution => 0x32,
            ValueTag::RangeOfInteger => 0x33,
            ValueTag::BegCollection => 0x34,
            ValueTag::TextWithLanguage => 0x35,
            ValueTag::NameWithLanguage => 0x36,
            ValueTag::EndCollection => 0x37,
            ValueTag::TextWithoutLanguage => 0x41,
            ValueTag::NameWithoutLanguage => 0x42,
            ValueTag::Keyword => 0x44,
            ValueTag::Uri => 0x45,
            ValueTag::UriScheme => 0x46,
            ValueTag::Charset => 0x47,
            ValueTag::NaturalLanguage => 0x48,
            ValueTag::MimeMediaType => 0x49,
            ValueTag::MemberAttrName => 0x4A,
        }
    }

    /// Convert from a wire byte; `None` for unassigned bytes.
    pub fn from_u8(b: u8) -> (r: Option<ValueTag>)
        ensures
            r == Self::spec_from_u8(b),
    {
        match b {
            0x10 => Some(ValueTag::Unsupported),
            0x12 => Some(ValueTag::Unknown),
            0x13 => Some(ValueTag::NoValue),
            0x21 => Some(ValueTag::Integer),
            0x22 => Some(ValueTag::Boolean),
            0x23 => Some(ValueTag::Enum),
            0x30 => Some(ValueTag::OctetStringUnspecified),
            0x31 => Some(ValueTag::DateTime),
            0x32 => Some(ValueTag::Resolution),
            0x33 => Some(ValueTag::RangeOfInteger),
            0x34 => Some(ValueTag::BegCollection),
            0x35 => Some(ValueTag::TextWithLanguage),
            0x36 => Some(ValueTag::NameWithLanguage),
            0x37 => Some(ValueTag::EndCollection),
            0x41 => Some(ValueTag::TextWithoutLanguage),
            0x42 => Some(ValueTag::NameWithoutLanguage),
            0x44 => Some(ValueTag::Keyword),
            0x45 => Some(ValueTag::Uri),
            0x46 => Some(ValueTag::UriScheme),
            0x47 => Some(ValueTag::Charset),
            0x48 => Some(ValueTag::NaturalLanguage),
            0x49 => Some(ValueTag::MimeMediaType),
            0x4A => Some(ValueTag::MemberAttrName),
            _ => None,
        }
    }
}

/// The round trip from a value tag through its wire byte and back.
pub proof fn lemma_value_tag_roundtrip(t: ValueTag)
    ensures
        ValueTag::spec_from_u8(t.spec_as_u8()) == Some(t),
{
}

} // verus!
