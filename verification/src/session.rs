//! The session description (RFC 8866 Section 5): its fields, and the
//! lookups of the attributes of a session or of a media description.

use crate::attributes::error::{other_error, result_model, AttributeError, AttributeErrorModel};
use crate::attributes::typed::TypedAttribute;
use crate::enums::{
    AddrType, BandwidthType, KeyMethod, MediaType, NetType, ParseEnumError, TransportProto,
};
use crate::net::{
    ip_well_formed, lemma_ip_round_trip, spec_display_ip, spec_parse_ip, AddrParseError, IpAddr,
};
use crate::text::{chars_of, eq_ignore_case, lit, str_eq, str_eq_ignore_case};
use vstd::prelude::*;

verus! {

/// Originator of the session.
///
/// See RFC 8866 Section 5.2.
#[derive(Debug, PartialEq, Eq, Clone)]
pub struct Origin {
    /// User's login on the originating host.
    pub username: Option<String>,
    /// Session ID to make the whole `Origin` unique.
    ///
    /// Must be a numeric string but this is *not* checked.
    pub sess_id: String,
    /// Session version number.
    pub sess_version: u64,
    /// Type of network for this session.
    pub nettype: String,
    /// Type of the `unicast_address`.
    pub addrtype: String,
    /// Address where the session was created.
    pub unicast_address: String,
}

/// Connection data for the session or media.
///
/// See RFC 8866 Section 5.7.
#[derive(Debug, PartialEq, Eq, Clone)]
pub struct Connection {
    /// Type of network for this connection.
    pub nettype: String,
    /// Type of the `connection_address`.
    pub addrtype: String,
    /// Connection address.
    pub connection_address: String,
}

/// Bandwidth information for the session or media.
///
/// See RFC 8866 Section 5.8.
#[derive(Debug, PartialEq, Eq, Clone)]
pub struct Bandwidth {
    /// Bandwidth type, usually "CT" or "AS".
    pub bwtype: String,
    /// Bandwidth.
    pub bandwidth: u64,
}

/// Timing information of the session.
///
/// See RFC 8866 Section 5.9.
#[derive(Debug, PartialEq, Eq, Clone)]
pub struct Time {
    /// Start time of the session in seconds since 1900.
    pub start_time: u64,
    /// Stop time of the session in seconds since 1900.
    pub stop_time: u64,
    /// Repeat times.
    pub repeats: Vec<Repeat>,
}

/// Repeat times for timing information.
///
/// See RFC 8866 Section 5.10.
#[derive(Debug, PartialEq, Eq, Clone)]
pub struct Repeat {
    /// Repeat interval in seconds.
    pub repeat_interval: u64,
    /// Duration of one repeat.
    pub active_duration: u64,
    /// Offsets for the repeats from the `start_time`.
    pub offsets: Vec<u64>,
}

/// Time zone information for the session.
///
/// See RFC 8866 Section 5.11.
#[derive(Debug, PartialEq, Eq, Clone)]
pub struct TimeZone {
    /// Time in seconds since 1900 when the adjustment happens.
    pub adjustment_time: u64,
    /// Amount of the adjustment in seconds.
    pub offset: i64,
}

/// Encryption key for the session or media.
///
/// Obsolete (RFC 8866 Section 5.12): it must not be used, and is kept for
/// legacy descriptions only.
#[derive(Debug, PartialEq, Eq, Clone)]
pub struct Key {
    /// Encryption method that is used.
    pub method: String,
    /// Encryption key or information to obtain the encryption key.
    pub encryption_key: Option<String>,
}

/// Attributes for the session or media.
///
/// See RFC 8866 Section 5.13.
#[derive(Debug, PartialEq, Eq, Clone)]
pub struct Attribute {
    /// Attribute name.
    pub attribute: String,
    /// Attribute value.
    pub value: Option<String>,
}

pub struct AttributeModel {
    pub attribute: Seq<char>,
    pub value: Option<Seq<char>>,
}

impl DeepView for Attribute {
    type V = AttributeModel;

    open spec fn deep_view(&self) -> AttributeModel {
        AttributeModel { attribute: self.attribute@, value: self.value.deep_view() }
    }
}

/// Media description.
///
/// See RFC 8866 Section 5.14.
#[derive(Debug, PartialEq, Eq, Clone)]
pub struct Media {
    /// Media type, e.g. "audio", "video", "text", "application" or "message".
    pub media: String,
    /// Transport port to which the media is sent.
    pub port: u16,
    /// Number of ports starting at `port` used for the media.
    pub num_ports: Option<u16>,
    /// Transport protocol.
    pub proto: String,
    /// Media format description.
    pub fmt: String,
    /// Media title.
    pub media_title: Option<String>,
    /// Connection data for the media.
    pub connections: Vec<Connection>,
    /// Bandwidth information for the media.
    pub bandwidths: Vec<Bandwidth>,
    /// Encryption key for the media.
    pub key: Option<Key>,
    /// Attributes of the media.
    pub attributes: Vec<Attribute>,
}

/// SDP session description.
///
/// See RFC 8866 Section 5.
#[derive(Debug, PartialEq, Eq, Clone)]
pub struct Session {
    /// Originator of the session.
    pub origin: Origin,
    /// Name of the session.
    pub session_name: String,
    /// Session description.
    pub session_description: Option<String>,
    /// URI to additional information about the session.
    pub uri: Option<String>,
    /// E-Mail contacts for the session.
    pub emails: Vec<String>,
    /// Phone contacts for the session.
    pub phones: Vec<String>,
    /// Connection data for the session.
    pub connection: Option<Connection>,
    /// Bandwidth information for the session.
    pub bandwidths: Vec<Bandwidth>,
    /// Timing information for the session.
    pub times: Vec<Time>,
    /// Time zone information for the session.
    pub time_zones: Vec<TimeZone>,
    /// Encryption key for the session.
    pub key: Option<Key>,
    /// Attributes of the session.
    pub attributes: Vec<Attribute>,
    /// Media descriptions for this session.
    pub medias: Vec<Media>,
}

/// Error returned when an attribute is not found.
#[derive(Debug, PartialEq, Eq, Clone, Copy)]
pub struct AttributeNotFoundError;

impl AttributeNotFoundError {
    /// The message of the error.
    pub fn to_string(&self) -> (r: String)
        ensures
            r@ == "Attribute not found"@,
    {
        lit("Attribute not found")
    }
}

// ---------------------------------------------------------------------------
// Attribute lookups
// ---------------------------------------------------------------------------

/// Some attribute is named `name`, with the exact case.
pub open spec fn has_named(a: Seq<AttributeModel>, name: Seq<char>) -> bool {
    exists|i: int| 0 <= i < a.len() && (#[trigger] a[i]).attribute == name
}

/// The index of the first attribute named `name` at or after `k`.
pub open spec fn first_named(a: Seq<AttributeModel>, name: Seq<char>, k: int) -> Option<int>
    decreases a.len() - k,
{
    if k < 0 || k >= a.len() {
        None
    } else if a[k].attribute == name {
        Some(k)
    } else {
        first_named(a, name, k + 1)
    }
}

/// The values of the attributes named `name`, in their order.
pub open spec fn values_named(a: Seq<AttributeModel>, name: Seq<char>) -> Seq<Option<Seq<char>>>
    decreases a.len(),
{
    if a.len() == 0 {
        seq![]
    } else {
        values_named(a.drop_last(), name) + if a.last().attribute == name {
            seq![a.last().value]
        } else {
            seq![]
        }
    }
}

/// What an attribute value reads as: the parse of its text, or an error
/// for an attribute without a value.
pub open spec fn typed_value<T: TypedAttribute>(v: Option<Seq<char>>) -> Result<
    <T as DeepView>::V,
    AttributeErrorModel,
> {
    match v {
        None => Err(
            AttributeErrorModel::Other {
                error: "No value for the attribute"@,
                attr: T::spec_name(),
            },
        ),
        Some(s) => T::spec_parse_value(s),
    }
}

/// The typed values of the attributes whose name is that of `T` up to
/// ASCII case, in their order; an error does not end the list.
pub open spec fn typed_values<T: TypedAttribute>(a: Seq<AttributeModel>) -> Seq<
    Result<<T as DeepView>::V, AttributeErrorModel>,
>
    decreases a.len(),
{
    if a.len() == 0 {
        seq![]
    } else {
        typed_values::<T>(a.drop_last()) + if eq_ignore_case(a.last().attribute, T::spec_name()) {
            seq![typed_value::<T>(a.last().value)]
        } else {
            seq![]
        }
    }
}

pub open spec fn opt_str_view(o: Option<&str>) -> Option<Seq<char>> {
    match o {
        Some(s) => Some(s@),
        None => None,
    }
}

pub open spec fn opt_str_views(v: Seq<Option<&str>>) -> Seq<Option<Seq<char>>> {
    v.map_values(|o: Option<&str>| opt_str_view(o))
}

pub open spec fn result_models<T: DeepView>(v: Seq<Result<T, AttributeError>>) -> Seq<
    Result<T::V, AttributeErrorModel>,
> {
    v.map_values(|r: Result<T, AttributeError>| result_model(&r))
}

fn attrs_has(attrs: &Vec<Attribute>, name: &str) -> (r: bool)
    ensures
        r == has_named(attrs.deep_view(), name@),
{
    let ghost a = attrs.deep_view();
    for j in 0..attrs.len()
        invariant
            a == attrs.deep_view(),
            forall|i: int| 0 <= i < j ==> (#[trigger] a[i]).attribute != name@,
    {
        if str_eq(attrs[j].attribute.as_str(), name) {
            assert(a[j as int].attribute == name@);
            return true;
        }
    }
    false
}

fn attrs_first_value<'a>(attrs: &'a Vec<Attribute>, name: &str) -> (r: Result<
    Option<&'a str>,
    AttributeNotFoundError,
>)
    ensures
        match r {
            Ok(o) => first_named(attrs.deep_view(), name@, 0) matches Some(i) && opt_str_view(o)
                == attrs.deep_view()[i].value,
            Err(_) => first_named(attrs.deep_view(), name@, 0) is None,
        },
{
    let ghost a = attrs.deep_view();
    let mut j: usize = 0;
    while j < attrs.len()
        invariant
            a == attrs.deep_view(),
            j <= attrs@.len(),
            first_named(a, name@, 0) == first_named(a, name@, j as int),
        decreases attrs@.len() - j,
    {
        let at = &attrs[j];
        if str_eq(at.attribute.as_str(), name) {
            return Ok(
                match &at.value {
                    Some(v) => Some(v.as_str()),
                    None => None,
                },
            );
        }
        j = j + 1;
    }
    Err(AttributeNotFoundError)
}

fn attrs_values<'a>(attrs: &'a Vec<Attribute>, name: &str) -> (r: Result<
    Vec<Option<&'a str>>,
    AttributeNotFoundError,
>)
    ensures
        match r {
            Ok(v) => values_named(attrs.deep_view(), name@).len() > 0 && opt_str_views(v@)
                == values_named(attrs.deep_view(), name@),
            Err(_) => values_named(attrs.deep_view(), name@).len() == 0,
        },
{
    let ghost a = attrs.deep_view();
    let mut out: Vec<Option<&'a str>> = Vec::new();
    for j in 0..attrs.len()
        invariant
            a == attrs.deep_view(),
            opt_str_views(out@) =~= values_named(a.take(j as int), name@),
    {
        let ghost before = out@;
        let at = &attrs[j];
        assert(a.take(j + 1).drop_last() =~= a.take(j as int));
        if str_eq(at.attribute.as_str(), name) {
            let v = match &at.value {
                Some(v) => Some(v.as_str()),
                None => None,
            };
            out.push(v);
            assert(opt_str_views(out@) =~= opt_str_views(before).push(opt_str_view(v)));
        }
    }
    assert(a.take(a.len() as int) =~= a);
    if out.len() > 0 {
        Ok(out)
    } else {
        Err(AttributeNotFoundError)
    }
}

fn attrs_typed<T: TypedAttribute>(attrs: &Vec<Attribute>) -> (r: Vec<Result<T, AttributeError>>)
    ensures
        result_models(r@) == typed_values::<T>(attrs.deep_view()),
{
    let ghost a = attrs.deep_view();
    let mut out: Vec<Result<T, AttributeError>> = Vec::new();
    for j in 0..attrs.len()
        invariant
            a == attrs.deep_view(),
            result_models(out@) =~= typed_values::<T>(a.take(j as int)),
    {
        let ghost before = out@;
        let at = &attrs[j];
        assert(a.take(j + 1).drop_last() =~= a.take(j as int));
        if str_eq_ignore_case(at.attribute.as_str(), T::name()) {
            let item: Result<T, AttributeError> = match &at.value {
                None => Err(other_error(&chars_of("No value for the attribute"), T::name())),
                Some(v) => T::parse_value(v.as_str()),
            };
            out.push(item);
            assert(result_models(out@) =~= result_models(before).push(result_model(&item)));
        }
    }
    assert(a.take(a.len() as int) =~= a);
    out
}

impl Media {
    /// Checks if the given attribute exists.
    pub fn has_attribute(&self, name: &str) -> (r: bool)
        ensures
            r == has_named(self.attributes.deep_view(), name@),
    {
        attrs_has(&self.attributes, name)
    }

    /// Gets the first value of the given attribute, if existing.
    pub fn get_first_attribute_value(&self, name: &str) -> (r: Result<
        Option<&str>,
        AttributeNotFoundError,
    >)
        ensures
            match r {
                Ok(o) => first_named(self.attributes.deep_view(), name@, 0) matches Some(i)
                    && opt_str_view(o) == self.attributes.deep_view()[i].value,
                Err(_) => first_named(self.attributes.deep_view(), name@, 0) is None,
            },
    {
        attrs_first_value(&self.attributes, name)
    }

    /// Gets all attribute values of the given name, if existing.
    pub fn get_attribute_values(&self, name: &str) -> (r: Result<
        Vec<Option<&str>>,
        AttributeNotFoundError,
    >)
        ensures
            match r {
                Ok(v) => values_named(self.attributes.deep_view(), name@).len() > 0
                    && opt_str_views(v@) == values_named(self.attributes.deep_view(), name@),
                Err(_) => values_named(self.attributes.deep_view(), name@).len() == 0,
            },
    {
        attrs_values(&self.attributes, name)
    }

    /// Tries to parse the `media` `String` of `self` as `MediaType`
    pub fn try_parse_mediatype(&self) -> (r: Result<MediaType, ParseEnumError>)
        ensures
            match r {
                Ok(v) => MediaType::spec_from(self.media@) == Some(v),
                Err(ParseEnumError::Invalid(e)) => MediaType::spec_from(self.media@) is None
                    && e@ == self.media@,
            },
    {
        MediaType::from_str(self.media.as_str())
    }

    /// Sets the `media` `String` of `self` from the specified `MediaType`
    pub fn set_from_mediatype(&mut self, media: MediaType)
        ensures
            final(self).media@ == media.spec_str(),
            final(self).port == old(self).port,
            final(self).num_ports == old(self).num_ports,
            final(self).proto == old(self).proto,
            final(self).fmt == old(self).fmt,
            final(self).media_title == old(self).media_title,
            final(self).connections == old(self).connections,
            final(self).bandwidths == old(self).bandwidths,
            final(self).key == old(self).key,
            final(self).attributes == old(self).attributes,
    {
        self.media = media.to_string();
    }

    /// Tries to parse the `proto` `String` of `self` as `TransportProto`
    pub fn try_parse_transport_proto(&self) -> (r: Result<TransportProto, ParseEnumError>)
        ensures
            match r {
                Ok(v) => TransportProto::spec_from(self.proto@) == Some(v),
                Err(ParseEnumError::Invalid(e)) => TransportProto::spec_from(self.proto@) is None
                    && e@ == self.proto@,
            },
    {
        TransportProto::from_str(self.proto.as_str())
    }

    /// Sets the `proto` `String` of `self` from the specified `TransportProto`
    pub fn set_from_transport_proto(&mut self, proto: TransportProto)
        ensures
            final(self).proto@ == proto.spec_str(),
            final(self).media == old(self).media,
            final(self).port == old(self).port,
            final(self).num_ports == old(self).num_ports,
            final(self).fmt == old(self).fmt,
            final(self).media_title == old(self).media_title,
            final(self).connections == old(self).connections,
            final(self).bandwidths == old(self).bandwidths,
            final(self).key == old(self).key,
            final(self).attributes == old(self).attributes,
    {
        self.proto = proto.to_string();
    }

    /// Constructs a `MediaType` from a string
    pub fn try_mediatype(&self) -> (r: Result<MediaType, ParseEnumError>)
        ensures
            match r {
                Ok(v) => MediaType::spec_from(self.media@) == Some(v),
                Err(ParseEnumError::Invalid(e)) => MediaType::spec_from(self.media@) is None
                    && e@ == self.media@,
            },
    {
        MediaType::from_str(self.media.as_str())
    }

    /// The values of all attributes whose name is that of `T` up to ASCII
    /// case, each read as a `T`, in their order. An attribute that does not
    /// read gives an error item and the list goes on.
    pub fn attributes_typed<T: TypedAttribute>(&self) -> (r: Vec<Result<T, AttributeError>>)
        ensures
            result_models(r@) == typed_values::<T>(self.attributes.deep_view()),
    {
        attrs_typed::<T>(&self.attributes)
    }
}

impl Session {
    /// Checks if the given attribute exists.
    pub fn has_attribute(&self, name: &str) -> (r: bool)
        ensures
            r == has_named(self.attributes.deep_view(), name@),
    {
        attrs_has(&self.attributes, name)
    }

    /// Gets the first value of the given attribute, if existing.
    pub fn get_first_attribute_value(&self, name: &str) -> (r: Result<
        Option<&str>,
        AttributeNotFoundError,
    >)
        ensures
            match r {
                Ok(o) => first_named(self.attributes.deep_view(), name@, 0) matches Some(i)
                    && opt_str_view(o) == self.attributes.deep_view()[i].value,
                Err(_) => first_named(self.attributes.deep_view(), name@, 0) is None,
            },
    {
        attrs_first_value(&self.attributes, name)
    }

    /// Gets all attribute values of the given name, if existing.
    pub fn get_attribute_values(&self, name: &str) -> (r: Result<
        Vec<Option<&str>>,
        AttributeNotFoundError,
    >)
        ensures
            match r {
                Ok(v) => values_named(self.attributes.deep_view(), name@).len() > 0
                    && opt_str_views(v@) == values_named(self.attributes.deep_view(), name@),
                Err(_) => values_named(self.attributes.deep_view(), name@).len() == 0,
            },
    {
        attrs_values(&self.attributes, name)
    }

    /// The values of all attributes whose name is that of `T` up to ASCII
    /// case, each read as a `T`, in their order. An attribute that does not
    /// read gives an error item and the list goes on.
    pub fn attributes_typed<T: TypedAttribute>(&self) -> (r: Vec<Result<T, AttributeError>>)
        ensures
            result_models(r@) == typed_values::<T>(self.attributes.deep_view()),
    {
        attrs_typed::<T>(&self.attributes)
    }
}

impl Origin {
    /// Tries to parse the `addrtype` `String` of `self` as `AddrType`
    pub fn try_parse_addrtype(&self) -> (r: Result<AddrType, ParseEnumError>)
        ensures
            match r {
                Ok(v) => AddrType::spec_from(self.addrtype@) == Some(v),
                Err(ParseEnumError::Invalid(e)) => AddrType::spec_from(self.addrtype@) is None
                    && e@ == self.addrtype@,
            },
    {
        AddrType::from_str(self.addrtype.as_str())
    }

    /// Sets the `addrtype` `String` of `self` from the specified `AddrType`
    pub fn set_from_addrtype(&mut self, addrtype: AddrType)
        ensures
            final(self).addrtype@ == addrtype.spec_str(),
            final(self).username == old(self).username,
            final(self).sess_id == old(self).sess_id,
            final(self).sess_version == old(self).sess_version,
            final(self).nettype == old(self).nettype,
            final(self).unicast_address == old(self).unicast_address,
    {
        self.addrtype = addrtype.to_string();
    }

    /// Tries to parse the `nettype` `String` of `self` as `NetType`
    pub fn try_parse_nettype(&self) -> (r: Result<NetType, ParseEnumError>)
        ensures
            match r {
                Ok(v) => NetType::spec_from(self.nettype@) == Some(v),
                Err(ParseEnumError::Invalid(e)) => NetType::spec_from(self.nettype@) is None
                    && e@ == self.nettype@,
            },
    {
        NetType::from_str(self.nettype.as_str())
    }

    /// Sets the `nettype` `String` of `self` from the specified `NetType`
    pub fn set_from_nettype(&mut self, nettype: NetType)
        ensures
            final(self).nettype@ == nettype.spec_str(),
            final(self).username == old(self).username,
            final(self).sess_id == old(self).sess_id,
            final(self).sess_version == old(self).sess_version,
            final(self).addrtype == old(self).addrtype,
            final(self).unicast_address == old(self).unicast_address,
    {
        self.nettype = nettype.to_string();
    }

    /// Tries to parse the `unicast_address` `String` of `self` as `IpAddr`
    pub fn try_parse_unicast_address(&self) -> (r: Result<IpAddr, AddrParseError>)
        ensures
            match r {
                Ok(a) => spec_parse_ip(self.unicast_address@) == Some(a.deep_view()),
                Err(_) => spec_parse_ip(self.unicast_address@) is None,
            },
    {
        IpAddr::from_str(self.unicast_address.as_str())
    }

    /// Sets the `unicast_address` `String` of `self` from the specified `IpAddr`
    pub fn set_unicast_address(&mut self, unicast_address: IpAddr)
        ensures
            final(self).unicast_address@ == spec_display_ip(unicast_address.deep_view()),
            final(self).username == old(self).username,
            final(self).sess_id == old(self).sess_id,
            final(self).sess_version == old(self).sess_version,
            final(self).nettype == old(self).nettype,
            final(self).addrtype == old(self).addrtype,
    {
        self.unicast_address = unicast_address.to_string();
    }
}

impl Connection {
    /// Tries to parse the `addrtype` `String` of `self` as `AddrType`
    pub fn try_parse_addrtype(&self) -> (r: Result<AddrType, ParseEnumError>)
        ensures
            match r {
                Ok(v) => AddrType::spec_from(self.addrtype@) == Some(v),
                Err(ParseEnumError::Invalid(e)) => AddrType::spec_from(self.addrtype@) is None
                    && e@ == self.addrtype@,
            },
    {
        AddrType::from_str(self.addrtype.as_str())
    }

    /// Sets the `addrtype` `String` of `self` from the specified `AddrType`
    pub fn set_from_addrtype(&mut self, addrtype: AddrType)
        ensures
            final(self).addrtype@ == addrtype.spec_str(),
            final(self).nettype == old(self).nettype,
            final(self).connection_address == old(self).connection_address,
    {
        self.addrtype = addrtype.to_string();
    }

    /// Tries to parse the `nettype` `String` of `self` as `NetType`
    pub fn try_parse_nettype(&self) -> (r: Result<NetType, ParseEnumError>)
        ensures
            match r {
                Ok(v) => NetType::spec_from(self.nettype@) == Some(v),
                Err(ParseEnumError::Invalid(e)) => NetType::spec_from(self.nettype@) is None
                    && e@ == self.nettype@,
            },
    {
        NetType::from_str(self.nettype.as_str())
    }

    /// Sets the `nettype` `String` of `self` from the specified `NetType`
    pub fn set_from_nettype(&mut self, nettype: NetType)
        ensures
            final(self).nettype@ == nettype.spec_str(),
            final(self).addrtype == old(self).addrtype,
            final(self).connection_address == old(self).connection_address,
    {
        self.nettype = nettype.to_string();
    }

    /// Tries to parse the `connection_address` `String` of `self` as `IpAddr`
    pub fn try_parse_connection_address(&self) -> (r: Result<IpAddr, AddrParseError>)
        ensures
            match r {
                Ok(a) => spec_parse_ip(self.connection_address@) == Some(a.deep_view()),
                Err(_) => spec_parse_ip(self.connection_address@) is None,
            },
    {
        IpAddr::from_str(self.connection_address.as_str())
    }

    /// Sets the `connection_address` `String` of `self` from the specified `IpAddr`
    pub fn set_connection_address(&mut self, connection_address: IpAddr)
        ensures
            final(self).connection_address@ == spec_display_ip(connection_address.deep_view()),
            final(self).nettype == old(self).nettype,
            final(self).addrtype == old(self).addrtype,
    {
        self.connection_address = connection_address.to_string();
    }
}

impl Bandwidth {
    /// Tries to parse the `bwtype` `String` of `self` as `BandwidthType`
    pub fn try_parse_bwtype(&self) -> (r: Result<BandwidthType, ParseEnumError>)
        ensures
            match r {
                Ok(v) => BandwidthType::spec_from(self.bwtype@) == Some(v),
                Err(ParseEnumError::Invalid(e)) => BandwidthType::spec_from(self.bwtype@) is None
                    && e@ == self.bwtype@,
            },
    {
        BandwidthType::from_str(self.bwtype.as_str())
    }

    /// Sets the `bwtype` `String` of `self` from the specified `BandwidthType`
    pub fn set_from_bwtype(&mut self, bwtype: BandwidthType)
        ensures
            final(self).bwtype@ == bwtype.spec_str(),
            final(self).bandwidth == old(self).bandwidth,
    {
        self.bwtype = bwtype.to_string();
    }
}

impl Key {
    /// Tries to parse the `method` `String` of `self` as `KeyMethod`
    pub fn try_parse_keymethod(&self) -> (r: Result<KeyMethod, ParseEnumError>)
        ensures
            match r {
                Ok(v) => KeyMethod::spec_from(self.method@) == Some(v),
                Err(ParseEnumError::Invalid(e)) => KeyMethod::spec_from(self.method@) is None
                    && e@ == self.method@,
            },
    {
        KeyMethod::from_str(self.method.as_str())
    }

    /// Sets the `method` `String` of `self` from the specified `KeyMethod`
    pub fn set_from_keymethod(&mut self, method: KeyMethod)
        ensures
            final(self).method@ == method.spec_str(),
            final(self).encryption_key == old(self).encryption_key,
    {
        self.method = method.to_string();
    }
}

// ---------------------------------------------------------------------------
// Laws of the attribute lookups
// ---------------------------------------------------------------------------

proof fn lemma_first_named(a: Seq<AttributeModel>, name: Seq<char>, k: int)
    requires
        0 <= k,
    ensures
        first_named(a, name, k) matches Some(i) ==> k <= i < a.len() && a[i].attribute == name
            && forall|j: int| k <= j < i ==> (#[trigger] a[j]).attribute != name,
        first_named(a, name, k) is None ==> forall|j: int|
            k <= j < a.len() ==> (#[trigger] a[j]).attribute != name,
    decreases a.len() - k,
{
    if k < a.len() && a[k].attribute != name {
        lemma_first_named(a, name, k + 1);
    }
}

proof fn lemma_values_named(a: Seq<AttributeModel>, name: Seq<char>)
    ensures
        values_named(a, name).len() > 0 <==> has_named(a, name),
        has_named(a, name) ==> values_named(a, name)[0] == a[first_named(a, name, 0)->0].value,
    decreases a.len(),
{
    lemma_first_named(a, name, 0);
    if a.len() > 0 {
        let init = a.drop_last();
        lemma_values_named(init, name);
        lemma_first_named(init, name, 0);
        if has_named(init, name) {
            let i = choose|i: int| 0 <= i < init.len() && (#[trigger] init[i]).attribute == name;
            assert(a[i] == init[i]);
            assert(first_named(a, name, 0) == first_named(init, name, 0)) by {
                let f = first_named(init, name, 0)->0;
                assert(a[f] == init[f]);
                assert forall|j: int| 0 <= j < f implies (#[trigger] a[j]).attribute != name by {
                    assert(a[j] == init[j]);
                }
                lemma_first_is(a, name, f);
            }
        } else {
            assert forall|j: int| 0 <= j < init.len() implies (#[trigger] a[j]).attribute
                != name by {
                assert(a[j] == init[j]);
                if a[j].attribute == name {
                    assert(init[j].attribute == name);
                }
            }
            if a.last().attribute == name {
                assert(has_named(a, name)) by {
                    assert(a[a.len() - 1].attribute == name);
                }
                lemma_first_is(a, name, a.len() - 1);
            } else {
                assert(!has_named(a, name));
            }
        }
    }
}

proof fn lemma_first_is(a: Seq<AttributeModel>, name: Seq<char>, i: int)
    requires
        0 <= i < a.len(),
        a[i].attribute == name,
        forall|j: int| 0 <= j < i ==> (#[trigger] a[j]).attribute != name,
    ensures
        first_named(a, name, 0) == Some(i),
{
    lemma_first_named(a, name, 0);
    match first_named(a, name, 0) {
        Some(f) => {
            if f < i {
                assert(a[f].attribute != name);
            }
            if f > i {
                assert(a[i].attribute != name);
            }
        },
        None => {
            assert(a[i].attribute != name);
        },
    }
}

/// The three attribute lookups agree: an attribute named `name` exists
/// exactly when the first-value lookup finds one and exactly when the
/// all-values lookup finds at least one, and the first of all the values is
/// the first value.
pub proof fn lemma_lookups_agree(a: Seq<AttributeModel>, name: Seq<char>)
    ensures
        has_named(a, name) <==> first_named(a, name, 0) is Some,
        has_named(a, name) <==> values_named(a, name).len() > 0,
        has_named(a, name) ==> values_named(a, name)[0] == a[first_named(a, name, 0)->0].value,
{
    lemma_first_named(a, name, 0);
    lemma_values_named(a, name);
    if let Some(i) = first_named(a, name, 0) {
        assert(a[i].attribute == name);
    }
}

/// An attribute written from a well-formed typed value reads back as that
/// value: appending it to any attribute list appends `Ok` of the value to
/// the typed values of the list.
pub proof fn lemma_typed_value_written<T: TypedAttribute>(
    a: Seq<AttributeModel>,
    v: <T as DeepView>::V,
)
    requires
        T::spec_value_wf(v),
    ensures
        typed_values::<T>(
            a.push(AttributeModel { attribute: T::spec_name(), value: Some(T::spec_value_text(v)) }),
        ) == typed_values::<T>(a).push(Ok(v)),
{
    let x = AttributeModel { attribute: T::spec_name(), value: Some(T::spec_value_text(v)) };
    T::lemma_value_round_trip(v);
    crate::text::lemma_eq_ignore_case_refl(T::spec_name());
    assert(a.push(x).drop_last() =~= a);
    assert(typed_values::<T>(a) + seq![typed_value::<T>(x.value)] =~= typed_values::<T>(a).push(
        Ok(v),
    ));
}

/// Attributes whose name differs from that of `T` beyond ASCII case do not
/// show in the typed values.
pub proof fn lemma_typed_values_other_name<T: TypedAttribute>(
    a: Seq<AttributeModel>,
    x: AttributeModel,
)
    requires
        !eq_ignore_case(x.attribute, T::spec_name()),
    ensures
        typed_values::<T>(a.push(x)) == typed_values::<T>(a),
{
    assert(a.push(x).drop_last() =~= a);
    assert(typed_values::<T>(a) + Seq::<Result<<T as DeepView>::V, AttributeErrorModel>>::empty()
        =~= typed_values::<T>(a));
}

/// Setting an address field from an address and reading the field back
/// gives the address: the text written for an address reads as it.
pub proof fn lemma_address_set_then_parse(a: IpAddr)
    ensures
        spec_parse_ip(spec_display_ip(a.deep_view())) == Some(a.deep_view()),
{
    assert(ip_well_formed(a.deep_view()));
    lemma_ip_round_trip(a.deep_view());
}

} // verus!
