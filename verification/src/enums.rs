//! The enumerations of the session-level fields: network, address,
//! bandwidth and key types, media types and transport protocols.

use crate::text::{
    chars_of, eq_ignore_case, has_no, eq_ignore_case_lit, eq_lit, lemma_eq_ignore_case_trans_iff,
    lemma_ne_ignore_case, lit, push_str, push_string, string_of,
};
use vstd::prelude::*;

verus! {

/// Errors while parsing strings to Enum
#[derive(Debug, PartialEq, Eq, Clone)]
pub enum ParseEnumError {
    Invalid(String),
}

impl ParseEnumError {
    /// The message of the error.
    pub fn to_string(&self) -> (r: String)
        ensures
            match self {
                ParseEnumError::Invalid(s) => r@ == "Failed to parse "@ + s@ + " as an enum type"@,
            },
    {
        match self {
            ParseEnumError::Invalid(s) => {
                let mut out: Vec<char> = Vec::new();
                push_str(&mut out, "Failed to parse ");
                push_string(&mut out, s);
                push_str(&mut out, " as an enum type");
                string_of(&out)
            },
        }
    }
}


/// Type of network of the originator or a connection of the session.
///
/// See RFC 8866 Sections 5.2, 5.7 and 8.2.6.
#[derive(Debug, PartialEq, Eq, Clone, Copy)]
pub enum NetType {
    /// Internet
    In,
    /// Telephone Network
    Tn,
    /// ATM Bearer Connection
    Atm,
    /// Public Switched Telephone Network
    Pstn,
}

impl NetType {
    /// The canonical name of the value.
    pub open spec fn spec_str(self) -> Seq<char> {
        match self {
            NetType::In => "IN"@,
            NetType::Tn => "TN"@,
            NetType::Atm => "ATM"@,
            NetType::Pstn => "PSTN"@,
        }
    }

    /// The value that `s` names, in any ASCII case.
    pub open spec fn spec_from(s: Seq<char>) -> Option<NetType> {
        if eq_ignore_case(s, "IN"@) {
            Some(NetType::In)
        } else if eq_ignore_case(s, "TN"@) {
            Some(NetType::Tn)
        } else if eq_ignore_case(s, "ATM"@) {
            Some(NetType::Atm)
        } else if eq_ignore_case(s, "PSTN"@) {
            Some(NetType::Pstn)
        } else {
            None
        }
    }

    pub fn as_str(&self) -> (r: &'static str)
        ensures
            r@ == self.spec_str(),
    {
        match self {
            NetType::In => "IN",
            NetType::Tn => "TN",
            NetType::Atm => "ATM",
            NetType::Pstn => "PSTN",
        }
    }

    pub fn to_string(&self) -> (r: String)
        ensures
            r@ == self.spec_str(),
    {
        lit(self.as_str())
    }

    pub fn from_chars(s: &Vec<char>) -> (r: Option<NetType>)
        ensures
            r == Self::spec_from(s@),
    {
        if eq_ignore_case_lit(s, "IN") {
            Some(NetType::In)
        } else if eq_ignore_case_lit(s, "TN") {
            Some(NetType::Tn)
        } else if eq_ignore_case_lit(s, "ATM") {
            Some(NetType::Atm)
        } else if eq_ignore_case_lit(s, "PSTN") {
            Some(NetType::Pstn)
        } else {
            None
        }
    }

    pub fn from_str(s: &str) -> (r: Result<NetType, ParseEnumError>)
        ensures
            match r {
                Ok(v) => Self::spec_from(s@) == Some(v),
                Err(ParseEnumError::Invalid(e)) => Self::spec_from(s@) is None && e@ == s@,
            },
    {
        match Self::from_chars(&chars_of(s)) {
            Some(v) => Ok(v),
            None => Err(ParseEnumError::Invalid(lit(s))),
        }
    }
}

/// Reading back the name of a value gives that value.
pub proof fn lemma_net_type_round_trip(v: NetType)
    ensures
        NetType::spec_from(v.spec_str()) == Some(v),
{
    reveal_strlit("IN");
    reveal_strlit("TN");
    reveal_strlit("ATM");
    reveal_strlit("PSTN");
    match v {
        NetType::In => {  },
        NetType::Tn => { lemma_ne_ignore_case("TN"@, "IN"@, 0); },
        NetType::Atm => {  },
        NetType::Pstn => {  },
    }
}

/// The canonical names hold no space.
pub proof fn lemma_net_type_no_space(v: NetType)
    ensures
        has_no(v.spec_str(), ' '),
{
    reveal_strlit("IN");
    reveal_strlit("TN");
    reveal_strlit("ATM");
    reveal_strlit("PSTN");
}

/// Names that are equal up to ASCII case name the same value.
pub proof fn lemma_net_type_case_insensitive(s: Seq<char>, t: Seq<char>)
    requires
        eq_ignore_case(s, t),
    ensures
        NetType::spec_from(s) == NetType::spec_from(t),
{
    lemma_eq_ignore_case_trans_iff(s, t, "IN"@);
    lemma_eq_ignore_case_trans_iff(s, t, "TN"@);
    lemma_eq_ignore_case_trans_iff(s, t, "ATM"@);
    lemma_eq_ignore_case_trans_iff(s, t, "PSTN"@);
}

/// Type of address of the originator or a connection of the session
///
/// See RFC 8866 Sections 5.2 and 5.7.
#[derive(Debug, PartialEq, Eq, Clone, Copy)]
pub enum AddrType {
    /// IPv4 address
    Ip4,
    /// IPv6 address
    Ip6,
}

impl AddrType {
    /// The canonical name of the value.
    pub open spec fn spec_str(self) -> Seq<char> {
        match self {
            AddrType::Ip4 => "IP4"@,
            AddrType::Ip6 => "IP6"@,
        }
    }

    /// The value that `s` names, in any ASCII case.
    pub open spec fn spec_from(s: Seq<char>) -> Option<AddrType> {
        if eq_ignore_case(s, "IP4"@) {
            Some(AddrType::Ip4)
        } else if eq_ignore_case(s, "IP6"@) {
            Some(AddrType::Ip6)
        } else {
            None
        }
    }

    pub fn as_str(&self) -> (r: &'static str)
        ensures
            r@ == self.spec_str(),
    {
        match self {
            AddrType::Ip4 => "IP4",
            AddrType::Ip6 => "IP6",
        }
    }

    pub fn to_string(&self) -> (r: String)
        ensures
            r@ == self.spec_str(),
    {
        lit(self.as_str())
    }

    pub fn from_chars(s: &Vec<char>) -> (r: Option<AddrType>)
        ensures
            r == Self::spec_from(s@),
    {
        if eq_ignore_case_lit(s, "IP4") {
            Some(AddrType::Ip4)
        } else if eq_ignore_case_lit(s, "IP6") {
            Some(AddrType::Ip6)
        } else {
            None
        }
    }

    pub fn from_str(s: &str) -> (r: Result<AddrType, ParseEnumError>)
        ensures
            match r {
                Ok(v) => Self::spec_from(s@) == Some(v),
                Err(ParseEnumError::Invalid(e)) => Self::spec_from(s@) is None && e@ == s@,
            },
    {
        match Self::from_chars(&chars_of(s)) {
            Some(v) => Ok(v),
            None => Err(ParseEnumError::Invalid(lit(s))),
        }
    }
}

/// Reading back the name of a value gives that value.
pub proof fn lemma_addr_type_round_trip(v: AddrType)
    ensures
        AddrType::spec_from(v.spec_str()) == Some(v),
{
    reveal_strlit("IP4");
    reveal_strlit("IP6");
    match v {
        AddrType::Ip4 => {  },
        AddrType::Ip6 => { lemma_ne_ignore_case("IP6"@, "IP4"@, 2); },
    }
}

/// The canonical names hold no space.
pub proof fn lemma_addr_type_no_space(v: AddrType)
    ensures
        has_no(v.spec_str(), ' '),
{
    reveal_strlit("IP4");
    reveal_strlit("IP6");
}

/// Names that are equal up to ASCII case name the same value.
pub proof fn lemma_addr_type_case_insensitive(s: Seq<char>, t: Seq<char>)
    requires
        eq_ignore_case(s, t),
    ensures
        AddrType::spec_from(s) == AddrType::spec_from(t),
{
    lemma_eq_ignore_case_trans_iff(s, t, "IP4"@);
    lemma_eq_ignore_case_trans_iff(s, t, "IP6"@);
}

/// Type of the Bandwidth value.
///
/// See RFC 8866 Section 5.8.
#[derive(Debug, PartialEq, Eq, Clone, Copy)]
pub enum BandwidthType {
    /// Application Specific maximum bandwidth
    As,
    /// Conference total - maximum bandwith a session will use
    Ct,
    /// Bandwidth assigned for RTCP reports by active senders (RFC 3890 Section 1.1.3)
    Rr,
    /// Bandwidth assigned for RTCP reports by active receivers (RFC 3890 Section 1.1.3)
    Rs,
}

impl BandwidthType {
    /// The canonical name of the value.
    pub open spec fn spec_str(self) -> Seq<char> {
        match self {
            BandwidthType::As => "AS"@,
            BandwidthType::Ct => "CT"@,
            BandwidthType::Rr => "RR"@,
            BandwidthType::Rs => "RS"@,
        }
    }

    /// The value that `s` names, in any ASCII case.
    pub open spec fn spec_from(s: Seq<char>) -> Option<BandwidthType> {
        if eq_ignore_case(s, "AS"@) {
            Some(BandwidthType::As)
        } else if eq_ignore_case(s, "CT"@) {
            Some(BandwidthType::Ct)
        } else if eq_ignore_case(s, "RR"@) {
            Some(BandwidthType::Rr)
        } else if eq_ignore_case(s, "RS"@) {
            Some(BandwidthType::Rs)
        } else {
            None
        }
    }

    pub fn as_str(&self) -> (r: &'static str)
        ensures
            r@ == self.spec_str(),
    {
        match self {
            BandwidthType::As => "AS",
            BandwidthType::Ct => "CT",
            BandwidthType::Rr => "RR",
            BandwidthType::Rs => "RS",
        }
    }

    pub fn to_string(&self) -> (r: String)
        ensures
            r@ == self.spec_str(),
    {
        lit(self.as_str())
    }

    pub fn from_chars(s: &Vec<char>) -> (r: Option<BandwidthType>)
        ensures
            r == Self::spec_from(s@),
    {
        if eq_ignore_case_lit(s, "AS") {
            Some(BandwidthType::As)
        } else if eq_ignore_case_lit(s, "CT") {
            Some(BandwidthType::Ct)
        } else if eq_ignore_case_lit(s, "RR") {
            Some(BandwidthType::Rr)
        } else if eq_ignore_case_lit(s, "RS") {
            Some(BandwidthType::Rs)
        } else {
            None
        }
    }

    pub fn from_str(s: &str) -> (r: Result<BandwidthType, ParseEnumError>)
        ensures
            match r {
                Ok(v) => Self::spec_from(s@) == Some(v),
                Err(ParseEnumError::Invalid(e)) => Self::spec_from(s@) is None && e@ == s@,
            },
    {
        match Self::from_chars(&chars_of(s)) {
            Some(v) => Ok(v),
            None => Err(ParseEnumError::Invalid(lit(s))),
        }
    }
}

/// Reading back the name of a value gives that value.
pub proof fn lemma_bandwidth_type_round_trip(v: BandwidthType)
    ensures
        BandwidthType::spec_from(v.spec_str()) == Some(v),
{
    reveal_strlit("AS");
    reveal_strlit("CT");
    reveal_strlit("RR");
    reveal_strlit("RS");
    match v {
        BandwidthType::As => {  },
        BandwidthType::Ct => { lemma_ne_ignore_case("CT"@, "AS"@, 0); },
        BandwidthType::Rr => { lemma_ne_ignore_case("RR"@, "AS"@, 0); lemma_ne_ignore_case("RR"@, "CT"@, 0); },
        BandwidthType::Rs => { lemma_ne_ignore_case("RS"@, "AS"@, 0); lemma_ne_ignore_case("RS"@, "CT"@, 0); lemma_ne_ignore_case("RS"@, "RR"@, 1); },
    }
}

/// Names that are equal up to ASCII case name the same value.
pub proof fn lemma_bandwidth_type_case_insensitive(s: Seq<char>, t: Seq<char>)
    requires
        eq_ignore_case(s, t),
    ensures
        BandwidthType::spec_from(s) == BandwidthType::spec_from(t),
{
    lemma_eq_ignore_case_trans_iff(s, t, "AS"@);
    lemma_eq_ignore_case_trans_iff(s, t, "CT"@);
    lemma_eq_ignore_case_trans_iff(s, t, "RR"@);
    lemma_eq_ignore_case_trans_iff(s, t, "RS"@);
}

/// Method of encryption (obsolete, kept for legacy descriptions; RFC 8866 Section 5.12).
///
/// The names are case-sensitive.
#[derive(Debug, PartialEq, Eq, Clone, Copy)]
pub enum KeyMethod {
    /// Untransformed
    Clear,
    /// Base64 encoded
    Base64,
    /// URI to obtain the key
    Uri,
    /// User should be prompted for the key
    Prompt,
}

impl KeyMethod {
    /// The canonical name of the value.
    pub open spec fn spec_str(self) -> Seq<char> {
        match self {
            KeyMethod::Clear => "clear"@,
            KeyMethod::Base64 => "base64"@,
            KeyMethod::Uri => "uri"@,
            KeyMethod::Prompt => "prompt"@,
        }
    }

    /// The value that `s` names, with the exact case.
    pub open spec fn spec_from(s: Seq<char>) -> Option<KeyMethod> {
        if s == "clear"@ {
            Some(KeyMethod::Clear)
        } else if s == "base64"@ {
            Some(KeyMethod::Base64)
        } else if s == "uri"@ {
            Some(KeyMethod::Uri)
        } else if s == "prompt"@ {
            Some(KeyMethod::Prompt)
        } else {
            None
        }
    }

    pub fn as_str(&self) -> (r: &'static str)
        ensures
            r@ == self.spec_str(),
    {
        match self {
            KeyMethod::Clear => "clear",
            KeyMethod::Base64 => "base64",
            KeyMethod::Uri => "uri",
            KeyMethod::Prompt => "prompt",
        }
    }

    pub fn to_string(&self) -> (r: String)
        ensures
            r@ == self.spec_str(),
    {
        lit(self.as_str())
    }

    pub fn from_chars(s: &Vec<char>) -> (r: Option<KeyMethod>)
        ensures
            r == Self::spec_from(s@),
    {
        if eq_lit(s, "clear") {
            Some(KeyMethod::Clear)
        } else if eq_lit(s, "base64") {
            Some(KeyMethod::Base64)
        } else if eq_lit(s, "uri") {
            Some(KeyMethod::Uri)
        } else if eq_lit(s, "prompt") {
            Some(KeyMethod::Prompt)
        } else {
            None
        }
    }

    pub fn from_str(s: &str) -> (r: Result<KeyMethod, ParseEnumError>)
        ensures
            match r {
                Ok(v) => Self::spec_from(s@) == Some(v),
                Err(ParseEnumError::Invalid(e)) => Self::spec_from(s@) is None && e@ == s@,
            },
    {
        match Self::from_chars(&chars_of(s)) {
            Some(v) => Ok(v),
            None => Err(ParseEnumError::Invalid(lit(s))),
        }
    }
}

/// Reading back the name of a value gives that value.
pub proof fn lemma_key_method_round_trip(v: KeyMethod)
    ensures
        KeyMethod::spec_from(v.spec_str()) == Some(v),
{
    reveal_strlit("clear");
    reveal_strlit("base64");
    reveal_strlit("uri");
    reveal_strlit("prompt");
    match v {
        KeyMethod::Clear => { assert(KeyMethod::spec_from("clear"@) == Some(KeyMethod::Clear)); },
        KeyMethod::Base64 => { assert("base64"@.len() != "clear"@.len()); assert(KeyMethod::spec_from("base64"@) == Some(KeyMethod::Base64)); },
        KeyMethod::Uri => { assert("uri"@.len() != "clear"@.len()); assert("uri"@.len() != "base64"@.len()); assert(KeyMethod::spec_from("uri"@) == Some(KeyMethod::Uri)); },
        KeyMethod::Prompt => { assert("prompt"@.len() != "clear"@.len()); assert("prompt"@[0] != "base64"@[0]); assert("prompt"@.len() != "uri"@.len()); assert(KeyMethod::spec_from("prompt"@) == Some(KeyMethod::Prompt)); },
    }
}

/// Key methods are read with their exact case: only the canonical name of a
/// value reads as that value.
pub proof fn lemma_key_method_case_sensitive(s: Seq<char>, v: KeyMethod)
    requires
        KeyMethod::spec_from(s) == Some(v),
    ensures
        s == v.spec_str(),
{
}

/// The media type
///
/// See RFC 8866 Section 5.14.
#[derive(Debug, PartialEq, Eq, Clone, Copy)]
pub enum MediaType {
    /// Audio type
    Audio,
    /// Video type
    Video,
    /// Text type
    Text,
    /// Application type
    Application,
    /// Message type
    Message,
    /// Image type (RFC 6466)
    Image,
}

impl MediaType {
    /// The canonical name of the value.
    pub open spec fn spec_str(self) -> Seq<char> {
        match self {
            MediaType::Audio => "audio"@,
            MediaType::Video => "video"@,
            MediaType::Text => "text"@,
            MediaType::Application => "application"@,
            MediaType::Message => "message"@,
            MediaType::Image => "image"@,
        }
    }

    /// The value that `s` names, in any ASCII case.
    pub open spec fn spec_from(s: Seq<char>) -> Option<MediaType> {
        if eq_ignore_case(s, "audio"@) {
            Some(MediaType::Audio)
        } else if eq_ignore_case(s, "video"@) {
            Some(MediaType::Video)
        } else if eq_ignore_case(s, "text"@) {
            Some(MediaType::Text)
        } else if eq_ignore_case(s, "application"@) {
            Some(MediaType::Application)
        } else if eq_ignore_case(s, "message"@) {
            Some(MediaType::Message)
        } else if eq_ignore_case(s, "image"@) {
            Some(MediaType::Image)
        } else {
            None
        }
    }

    pub fn as_str(&self) -> (r: &'static str)
        ensures
            r@ == self.spec_str(),
    {
        match self {
            MediaType::Audio => "audio",
            MediaType::Video => "video",
            MediaType::Text => "text",
            MediaType::Application => "application",
            MediaType::Message => "message",
            MediaType::Image => "image",
        }
    }

    pub fn to_string(&self) -> (r: String)
        ensures
            r@ == self.spec_str(),
    {
        lit(self.as_str())
    }

    pub fn from_chars(s: &Vec<char>) -> (r: Option<MediaType>)
        ensures
            r == Self::spec_from(s@),
    {
        if eq_ignore_case_lit(s, "audio") {
            Some(MediaType::Audio)
        } else if eq_ignore_case_lit(s, "video") {
            Some(MediaType::Video)
        } else if eq_ignore_case_lit(s, "text") {
            Some(MediaType::Text)
        } else if eq_ignore_case_lit(s, "application") {
            Some(MediaType::Application)
        } else if eq_ignore_case_lit(s, "message") {
            Some(MediaType::Message)
        } else if eq_ignore_case_lit(s, "image") {
            Some(MediaType::Image)
        } else {
            None
        }
    }

    pub fn from_str(s: &str) -> (r: Result<MediaType, ParseEnumError>)
        ensures
            match r {
                Ok(v) => Self::spec_from(s@) == Some(v),
                Err(ParseEnumError::Invalid(e)) => Self::spec_from(s@) is None && e@ == s@,
            },
    {
        match Self::from_chars(&chars_of(s)) {
            Some(v) => Ok(v),
            None => Err(ParseEnumError::Invalid(lit(s))),
        }
    }
}

/// Reading back the name of a value gives that value.
pub proof fn lemma_media_type_round_trip(v: MediaType)
    ensures
        MediaType::spec_from(v.spec_str()) == Some(v),
{
    reveal_strlit("audio");
    reveal_strlit("video");
    reveal_strlit("text");
    reveal_strlit("application");
    reveal_strlit("message");
    reveal_strlit("image");
    match v {
        MediaType::Audio => {  },
        MediaType::Video => { lemma_ne_ignore_case("video"@, "audio"@, 0); },
        MediaType::Text => {  },
        MediaType::Application => {  },
        MediaType::Message => {  },
        MediaType::Image => { lemma_ne_ignore_case("image"@, "audio"@, 0); lemma_ne_ignore_case("image"@, "video"@, 0); },
    }
}

/// Names that are equal up to ASCII case name the same value.
pub proof fn lemma_media_type_case_insensitive(s: Seq<char>, t: Seq<char>)
    requires
        eq_ignore_case(s, t),
    ensures
        MediaType::spec_from(s) == MediaType::spec_from(t),
{
    lemma_eq_ignore_case_trans_iff(s, t, "audio"@);
    lemma_eq_ignore_case_trans_iff(s, t, "video"@);
    lemma_eq_ignore_case_trans_iff(s, t, "text"@);
    lemma_eq_ignore_case_trans_iff(s, t, "application"@);
    lemma_eq_ignore_case_trans_iff(s, t, "message"@);
    lemma_eq_ignore_case_trans_iff(s, t, "image"@);
}

/// Transport Protocol for the media
///
/// See RFC 8866 Section 5.14. The names are case-insensitive; the canonical
/// form writes "udp" in lower case and the others in upper case.
#[derive(Debug, PartialEq, Eq, Clone, Copy)]
pub enum TransportProto {
    /// Direct UDP
    Udp,
    /// RTP over UDP
    RtpAvp,
    /// Secure RTP over UDP
    RtpSavp,
    /// Secure RTP over UDP with RTCP-based feedback
    RtpSavpf,
}

impl TransportProto {
    /// The canonical name of the value.
    pub open spec fn spec_str(self) -> Seq<char> {
        match self {
            TransportProto::Udp => "udp"@,
            TransportProto::RtpAvp => "RTP/AVP"@,
            TransportProto::RtpSavp => "RTP/SAVP"@,
            TransportProto::RtpSavpf => "RTP/SAVPF"@,
        }
    }

    /// The value that `s` names, in any ASCII case.
    pub open spec fn spec_from(s: Seq<char>) -> Option<TransportProto> {
        if eq_ignore_case(s, "udp"@) {
            Some(TransportProto::Udp)
        } else if eq_ignore_case(s, "RTP/AVP"@) {
            Some(TransportProto::RtpAvp)
        } else if eq_ignore_case(s, "RTP/SAVP"@) {
            Some(TransportProto::RtpSavp)
        } else if eq_ignore_case(s, "RTP/SAVPF"@) {
            Some(TransportProto::RtpSavpf)
        } else {
            None
        }
    }

    pub fn as_str(&self) -> (r: &'static str)
        ensures
            r@ == self.spec_str(),
    {
        match self {
            TransportProto::Udp => "udp",
            TransportProto::RtpAvp => "RTP/AVP",
            TransportProto::RtpSavp => "RTP/SAVP",
            TransportProto::RtpSavpf => "RTP/SAVPF",
        }
    }

    pub fn to_string(&self) -> (r: String)
        ensures
            r@ == self.spec_str(),
    {
        lit(self.as_str())
    }

    pub fn from_chars(s: &Vec<char>) -> (r: Option<TransportProto>)
        ensures
            r == Self::spec_from(s@),
    {
        if eq_ignore_case_lit(s, "udp") {
            Some(TransportProto::Udp)
        } else if eq_ignore_case_lit(s, "RTP/AVP") {
            Some(TransportProto::RtpAvp)
        } else if eq_ignore_case_lit(s, "RTP/SAVP") {
            Some(TransportProto::RtpSavp)
        } else if eq_ignore_case_lit(s, "RTP/SAVPF") {
            Some(TransportProto::RtpSavpf)
        } else {
            None
        }
    }

    pub fn from_str(s: &str) -> (r: Result<TransportProto, ParseEnumError>)
        ensures
            match r {
                Ok(v) => Self::spec_from(s@) == Some(v),
                Err(ParseEnumError::Invalid(e)) => Self::spec_from(s@) is None && e@ == s@,
            },
    {
        match Self::from_chars(&chars_of(s)) {
            Some(v) => Ok(v),
            None => Err(ParseEnumError::Invalid(lit(s))),
        }
    }
}

/// Reading back the name of a value gives that value.
pub proof fn lemma_transport_proto_round_trip(v: TransportProto)
    ensures
        TransportProto::spec_from(v.spec_str()) == Some(v),
{
    reveal_strlit("udp");
    reveal_strlit("RTP/AVP");
    reveal_strlit("RTP/SAVP");
    reveal_strlit("RTP/SAVPF");
    match v {
        TransportProto::Udp => {  },
        TransportProto::RtpAvp => {  },
        TransportProto::RtpSavp => {  },
        TransportProto::RtpSavpf => {  },
    }
}

/// Names that are equal up to ASCII case name the same value.
pub proof fn lemma_transport_proto_case_insensitive(s: Seq<char>, t: Seq<char>)
    requires
        eq_ignore_case(s, t),
    ensures
        TransportProto::spec_from(s) == TransportProto::spec_from(t),
{
    lemma_eq_ignore_case_trans_iff(s, t, "udp"@);
    lemma_eq_ignore_case_trans_iff(s, t, "RTP/AVP"@);
    lemma_eq_ignore_case_trans_iff(s, t, "RTP/SAVP"@);
    lemma_eq_ignore_case_trans_iff(s, t, "RTP/SAVPF"@);
}

impl std::str::FromStr for NetType {
    type Err = ParseEnumError;

    fn from_str(s: &str) -> (r: Result<NetType, ParseEnumError>)
        ensures
            match r {
                Ok(v) => NetType::spec_from(s@) == Some(v),
                Err(ParseEnumError::Invalid(e)) => NetType::spec_from(s@) is None && e@ == s@,
            },
    {
        NetType::from_str(s)
    }
}

impl std::str::FromStr for AddrType {
    type Err = ParseEnumError;

    fn from_str(s: &str) -> (r: Result<AddrType, ParseEnumError>)
        ensures
            match r {
                Ok(v) => AddrType::spec_from(s@) == Some(v),
                Err(ParseEnumError::Invalid(e)) => AddrType::spec_from(s@) is None && e@ == s@,
            },
    {
        AddrType::from_str(s)
    }
}

impl std::str::FromStr for BandwidthType {
    type Err = ParseEnumError;

    fn from_str(s: &str) -> (r: Result<BandwidthType, ParseEnumError>)
        ensures
            match r {
                Ok(v) => BandwidthType::spec_from(s@) == Some(v),
                Err(ParseEnumError::Invalid(e)) => BandwidthType::spec_from(s@) is None && e@ == s@,
            },
    {
        BandwidthType::from_str(s)
    }
}

impl std::str::FromStr for KeyMethod {
    type Err = ParseEnumError;

    fn from_str(s: &str) -> (r: Result<KeyMethod, ParseEnumError>)
        ensures
            match r {
                Ok(v) => KeyMethod::spec_from(s@) == Some(v),
                Err(ParseEnumError::Invalid(e)) => KeyMethod::spec_from(s@) is None && e@ == s@,
            },
    {
        KeyMethod::from_str(s)
    }
}

impl std::str::FromStr for MediaType {
    type Err = ParseEnumError;

    fn from_str(s: &str) -> (r: Result<MediaType, ParseEnumError>)
        ensures
            match r {
                Ok(v) => MediaType::spec_from(s@) == Some(v),
                Err(ParseEnumError::Invalid(e)) => MediaType::spec_from(s@) is None && e@ == s@,
            },
    {
        MediaType::from_str(s)
    }
}

impl std::str::FromStr for TransportProto {
    type Err = ParseEnumError;

    fn from_str(s: &str) -> (r: Result<TransportProto, ParseEnumError>)
        ensures
            match r {
                Ok(v) => TransportProto::spec_from(s@) == Some(v),
                Err(ParseEnumError::Invalid(e)) => TransportProto::spec_from(s@) is None && e@ == s@,
            },
    {
        TransportProto::from_str(s)
    }
}

/// Each value is read from its own name, in any ASCII case, and written as that name.
pub proof fn lemma_net_type_names(t: Seq<char>)
    ensures
        (NetType::spec_from(t) == Some(NetType::In)) <==> eq_ignore_case(t, "IN"@),
        (NetType::spec_from(t) == Some(NetType::Tn)) <==> eq_ignore_case(t, "TN"@),
        (NetType::spec_from(t) == Some(NetType::Atm)) <==> eq_ignore_case(t, "ATM"@),
        (NetType::spec_from(t) == Some(NetType::Pstn)) <==> eq_ignore_case(t, "PSTN"@),
        NetType::In.spec_str() == "IN"@,
        NetType::Tn.spec_str() == "TN"@,
        NetType::Atm.spec_str() == "ATM"@,
        NetType::Pstn.spec_str() == "PSTN"@,
{
    reveal_strlit("IN");
    reveal_strlit("TN");
    reveal_strlit("ATM");
    reveal_strlit("PSTN");
    lemma_ne_ignore_case("IN"@, "TN"@, 0);
    assert("IN"@.len() != "ATM"@.len());
    assert("IN"@.len() != "PSTN"@.len());
    lemma_ne_ignore_case("TN"@, "IN"@, 0);
    assert("TN"@.len() != "ATM"@.len());
    assert("TN"@.len() != "PSTN"@.len());
    assert("ATM"@.len() != "IN"@.len());
    assert("ATM"@.len() != "TN"@.len());
    assert("ATM"@.len() != "PSTN"@.len());
    assert("PSTN"@.len() != "IN"@.len());
    assert("PSTN"@.len() != "TN"@.len());
    assert("PSTN"@.len() != "ATM"@.len());
    if eq_ignore_case(t, "IN"@) {
        lemma_eq_ignore_case_trans_iff(t, "IN"@, "TN"@);
        lemma_eq_ignore_case_trans_iff(t, "IN"@, "ATM"@);
        lemma_eq_ignore_case_trans_iff(t, "IN"@, "PSTN"@);
    }
    if eq_ignore_case(t, "TN"@) {
        lemma_eq_ignore_case_trans_iff(t, "TN"@, "IN"@);
        lemma_eq_ignore_case_trans_iff(t, "TN"@, "ATM"@);
        lemma_eq_ignore_case_trans_iff(t, "TN"@, "PSTN"@);
    }
    if eq_ignore_case(t, "ATM"@) {
        lemma_eq_ignore_case_trans_iff(t, "ATM"@, "IN"@);
        lemma_eq_ignore_case_trans_iff(t, "ATM"@, "TN"@);
        lemma_eq_ignore_case_trans_iff(t, "ATM"@, "PSTN"@);
    }
    if eq_ignore_case(t, "PSTN"@) {
        lemma_eq_ignore_case_trans_iff(t, "PSTN"@, "IN"@);
        lemma_eq_ignore_case_trans_iff(t, "PSTN"@, "TN"@);
        lemma_eq_ignore_case_trans_iff(t, "PSTN"@, "ATM"@);
    }
}

/// Each value is read from its own name, in any ASCII case, and written as that name.
pub proof fn lemma_addr_type_names(t: Seq<char>)
    ensures
        (AddrType::spec_from(t) == Some(AddrType::Ip4)) <==> eq_ignore_case(t, "IP4"@),
        (AddrType::spec_from(t) == Some(AddrType::Ip6)) <==> eq_ignore_case(t, "IP6"@),
        AddrType::Ip4.spec_str() == "IP4"@,
        AddrType::Ip6.spec_str() == "IP6"@,
{
    reveal_strlit("IP4");
    reveal_strlit("IP6");
    lemma_ne_ignore_case("IP4"@, "IP6"@, 2);
    lemma_ne_ignore_case("IP6"@, "IP4"@, 2);
    if eq_ignore_case(t, "IP4"@) {
        lemma_eq_ignore_case_trans_iff(t, "IP4"@, "IP6"@);
    }
    if eq_ignore_case(t, "IP6"@) {
        lemma_eq_ignore_case_trans_iff(t, "IP6"@, "IP4"@);
    }
}

/// Each value is read from its own name, in any ASCII case, and written as that name.
pub proof fn lemma_bandwidth_type_names(t: Seq<char>)
    ensures
        (BandwidthType::spec_from(t) == Some(BandwidthType::As)) <==> eq_ignore_case(t, "AS"@),
        (BandwidthType::spec_from(t) == Some(BandwidthType::Ct)) <==> eq_ignore_case(t, "CT"@),
        (BandwidthType::spec_from(t) == Some(BandwidthType::Rr)) <==> eq_ignore_case(t, "RR"@),
        (BandwidthType::spec_from(t) == Some(BandwidthType::Rs)) <==> eq_ignore_case(t, "RS"@),
        BandwidthType::As.spec_str() == "AS"@,
        BandwidthType::Ct.spec_str() == "CT"@,
        BandwidthType::Rr.spec_str() == "RR"@,
        BandwidthType::Rs.spec_str() == "RS"@,
{
    reveal_strlit("AS");
    reveal_strlit("CT");
    reveal_strlit("RR");
    reveal_strlit("RS");
    lemma_ne_ignore_case("AS"@, "CT"@, 0);
    lemma_ne_ignore_case("AS"@, "RR"@, 0);
    lemma_ne_ignore_case("AS"@, "RS"@, 0);
    lemma_ne_ignore_case("CT"@, "AS"@, 0);
    lemma_ne_ignore_case("CT"@, "RR"@, 0);
    lemma_ne_ignore_case("CT"@, "RS"@, 0);
    lemma_ne_ignore_case("RR"@, "AS"@, 0);
    lemma_ne_ignore_case("RR"@, "CT"@, 0);
    lemma_ne_ignore_case("RR"@, "RS"@, 1);
    lemma_ne_ignore_case("RS"@, "AS"@, 0);
    lemma_ne_ignore_case("RS"@, "CT"@, 0);
    lemma_ne_ignore_case("RS"@, "RR"@, 1);
    if eq_ignore_case(t, "AS"@) {
        lemma_eq_ignore_case_trans_iff(t, "AS"@, "CT"@);
        lemma_eq_ignore_case_trans_iff(t, "AS"@, "RR"@);
        lemma_eq_ignore_case_trans_iff(t, "AS"@, "RS"@);
    }
    if eq_ignore_case(t, "CT"@) {
        lemma_eq_ignore_case_trans_iff(t, "CT"@, "AS"@);
        lemma_eq_ignore_case_trans_iff(t, "CT"@, "RR"@);
        lemma_eq_ignore_case_trans_iff(t, "CT"@, "RS"@);
    }
    if eq_ignore_case(t, "RR"@) {
        lemma_eq_ignore_case_trans_iff(t, "RR"@, "AS"@);
        lemma_eq_ignore_case_trans_iff(t, "RR"@, "CT"@);
        lemma_eq_ignore_case_trans_iff(t, "RR"@, "RS"@);
    }
    if eq_ignore_case(t, "RS"@) {
        lemma_eq_ignore_case_trans_iff(t, "RS"@, "AS"@);
        lemma_eq_ignore_case_trans_iff(t, "RS"@, "CT"@);
        lemma_eq_ignore_case_trans_iff(t, "RS"@, "RR"@);
    }
}

/// Each value is read from its own name, with its exact case, and written as that name.
pub proof fn lemma_key_method_names(t: Seq<char>)
    ensures
        (KeyMethod::spec_from(t) == Some(KeyMethod::Clear)) <==> t == "clear"@,
        (KeyMethod::spec_from(t) == Some(KeyMethod::Base64)) <==> t == "base64"@,
        (KeyMethod::spec_from(t) == Some(KeyMethod::Uri)) <==> t == "uri"@,
        (KeyMethod::spec_from(t) == Some(KeyMethod::Prompt)) <==> t == "prompt"@,
        KeyMethod::Clear.spec_str() == "clear"@,
        KeyMethod::Base64.spec_str() == "base64"@,
        KeyMethod::Uri.spec_str() == "uri"@,
        KeyMethod::Prompt.spec_str() == "prompt"@,
{
    reveal_strlit("clear");
    reveal_strlit("base64");
    reveal_strlit("uri");
    reveal_strlit("prompt");
    assert("clear"@.len() != "base64"@.len());
    assert("clear"@.len() != "uri"@.len());
    assert("clear"@.len() != "prompt"@.len());
    assert("base64"@.len() != "clear"@.len());
    assert("base64"@.len() != "uri"@.len());
    assert("base64"@[0] != "prompt"@[0]);
    assert("uri"@.len() != "clear"@.len());
    assert("uri"@.len() != "base64"@.len());
    assert("uri"@.len() != "prompt"@.len());
    assert("prompt"@.len() != "clear"@.len());
    assert("prompt"@[0] != "base64"@[0]);
    assert("prompt"@.len() != "uri"@.len());
}

/// Each value is read from its own name, in any ASCII case, and written as that name.
pub proof fn lemma_media_type_names(t: Seq<char>)
    ensures
        (MediaType::spec_from(t) == Some(MediaType::Audio)) <==> eq_ignore_case(t, "audio"@),
        (MediaType::spec_from(t) == Some(MediaType::Video)) <==> eq_ignore_case(t, "video"@),
        (MediaType::spec_from(t) == Some(MediaType::Text)) <==> eq_ignore_case(t, "text"@),
        (MediaType::spec_from(t) == Some(MediaType::Application)) <==> eq_ignore_case(t, "application"@),
        (MediaType::spec_from(t) == Some(MediaType::Message)) <==> eq_ignore_case(t, "message"@),
        (MediaType::spec_from(t) == Some(MediaType::Image)) <==> eq_ignore_case(t, "image"@),
        MediaType::Audio.spec_str() == "audio"@,
        MediaType::Video.spec_str() == "video"@,
        MediaType::Text.spec_str() == "text"@,
        MediaType::Application.spec_str() == "application"@,
        MediaType::Message.spec_str() == "message"@,
        MediaType::Image.spec_str() == "image"@,
{
    reveal_strlit("audio");
    reveal_strlit("video");
    reveal_strlit("text");
    reveal_strlit("application");
    reveal_strlit("message");
    reveal_strlit("image");
    lemma_ne_ignore_case("audio"@, "video"@, 0);
    assert("audio"@.len() != "text"@.len());
    assert("audio"@.len() != "application"@.len());
    assert("audio"@.len() != "message"@.len());
    lemma_ne_ignore_case("audio"@, "image"@, 0);
    lemma_ne_ignore_case("video"@, "audio"@, 0);
    assert("video"@.len() != "text"@.len());
    assert("video"@.len() != "application"@.len());
    assert("video"@.len() != "message"@.len());
    lemma_ne_ignore_case("video"@, "image"@, 0);
    assert("text"@.len() != "audio"@.len());
    assert("text"@.len() != "video"@.len());
    assert("text"@.len() != "application"@.len());
    assert("text"@.len() != "message"@.len());
    assert("text"@.len() != "image"@.len());
    assert("application"@.len() != "audio"@.len());
    assert("application"@.len() != "video"@.len());
    assert("application"@.len() != "text"@.len());
    assert("application"@.len() != "message"@.len());
    assert("application"@.len() != "image"@.len());
    assert("message"@.len() != "audio"@.len());
    assert("message"@.len() != "video"@.len());
    assert("message"@.len() != "text"@.len());
    assert("message"@.len() != "application"@.len());
    assert("message"@.len() != "image"@.len());
    lemma_ne_ignore_case("image"@, "audio"@, 0);
    lemma_ne_ignore_case("image"@, "video"@, 0);
    assert("image"@.len() != "text"@.len());
    assert("image"@.len() != "application"@.len());
    assert("image"@.len() != "message"@.len());
    if eq_ignore_case(t, "audio"@) {
        lemma_eq_ignore_case_trans_iff(t, "audio"@, "video"@);
        lemma_eq_ignore_case_trans_iff(t, "audio"@, "text"@);
        lemma_eq_ignore_case_trans_iff(t, "audio"@, "application"@);
        lemma_eq_ignore_case_trans_iff(t, "audio"@, "message"@);
        lemma_eq_ignore_case_trans_iff(t, "audio"@, "image"@);
    }
    if eq_ignore_case(t, "video"@) {
        lemma_eq_ignore_case_trans_iff(t, "video"@, "audio"@);
        lemma_eq_ignore_case_trans_iff(t, "video"@, "text"@);
        lemma_eq_ignore_case_trans_iff(t, "video"@, "application"@);
        lemma_eq_ignore_case_trans_iff(t, "video"@, "message"@);
        lemma_eq_ignore_case_trans_iff(t, "video"@, "image"@);
    }
    if eq_ignore_case(t, "text"@) {
        lemma_eq_ignore_case_trans_iff(t, "text"@, "audio"@);
        lemma_eq_ignore_case_trans_iff(t, "text"@, "video"@);
        lemma_eq_ignore_case_trans_iff(t, "text"@, "application"@);
        lemma_eq_ignore_case_trans_iff(t, "text"@, "message"@);
        lemma_eq_ignore_case_trans_iff(t, "text"@, "image"@);
    }
    if eq_ignore_case(t, "application"@) {
        lemma_eq_ignore_case_trans_iff(t, "application"@, "audio"@);
        lemma_eq_ignore_case_trans_iff(t, "application"@, "video"@);
        lemma_eq_ignore_case_trans_iff(t, "application"@, "text"@);
        lemma_eq_ignore_case_trans_iff(t, "application"@, "message"@);
        lemma_eq_ignore_case_trans_iff(t, "application"@, "image"@);
    }
    if eq_ignore_case(t, "message"@) {
        lemma_eq_ignore_case_trans_iff(t, "message"@, "audio"@);
        lemma_eq_ignore_case_trans_iff(t, "message"@, "video"@);
        lemma_eq_ignore_case_trans_iff(t, "message"@, "text"@);
        lemma_eq_ignore_case_trans_iff(t, "message"@, "application"@);
        lemma_eq_ignore_case_trans_iff(t, "message"@, "image"@);
    }
    if eq_ignore_case(t, "image"@) {
        lemma_eq_ignore_case_trans_iff(t, "image"@, "audio"@);
        lemma_eq_ignore_case_trans_iff(t, "image"@, "video"@);
        lemma_eq_ignore_case_trans_iff(t, "image"@, "text"@);
        lemma_eq_ignore_case_trans_iff(t, "image"@, "application"@);
        lemma_eq_ignore_case_trans_iff(t, "image"@, "message"@);
    }
}

/// Each value is read from its own name, in any ASCII case, and written as that name.
pub proof fn lemma_transport_proto_names(t: Seq<char>)
    ensures
        (TransportProto::spec_from(t) == Some(TransportProto::Udp)) <==> eq_ignore_case(t, "udp"@),
        (TransportProto::spec_from(t) == Some(TransportProto::RtpAvp)) <==> eq_ignore_case(t, "RTP/AVP"@),
        (TransportProto::spec_from(t) == Some(TransportProto::RtpSavp)) <==> eq_ignore_case(t, "RTP/SAVP"@),
        (TransportProto::spec_from(t) == Some(TransportProto::RtpSavpf)) <==> eq_ignore_case(t, "RTP/SAVPF"@),
        TransportProto::Udp.spec_str() == "udp"@,
        TransportProto::RtpAvp.spec_str() == "RTP/AVP"@,
        TransportProto::RtpSavp.spec_str() == "RTP/SAVP"@,
        TransportProto::RtpSavpf.spec_str() == "RTP/SAVPF"@,
{
    reveal_strlit("udp");
    reveal_strlit("RTP/AVP");
    reveal_strlit("RTP/SAVP");
    reveal_strlit("RTP/SAVPF");
    assert("udp"@.len() != "RTP/AVP"@.len());
    assert("udp"@.len() != "RTP/SAVP"@.len());
    assert("udp"@.len() != "RTP/SAVPF"@.len());
    assert("RTP/AVP"@.len() != "udp"@.len());
    assert("RTP/AVP"@.len() != "RTP/SAVP"@.len());
    assert("RTP/AVP"@.len() != "RTP/SAVPF"@.len());
    assert("RTP/SAVP"@.len() != "udp"@.len());
    assert("RTP/SAVP"@.len() != "RTP/AVP"@.len());
    assert("RTP/SAVP"@.len() != "RTP/SAVPF"@.len());
    assert("RTP/SAVPF"@.len() != "udp"@.len());
    assert("RTP/SAVPF"@.len() != "RTP/AVP"@.len());
    assert("RTP/SAVPF"@.len() != "RTP/SAVP"@.len());
    if eq_ignore_case(t, "udp"@) {
        lemma_eq_ignore_case_trans_iff(t, "udp"@, "RTP/AVP"@);
        lemma_eq_ignore_case_trans_iff(t, "udp"@, "RTP/SAVP"@);
        lemma_eq_ignore_case_trans_iff(t, "udp"@, "RTP/SAVPF"@);
    }
    if eq_ignore_case(t, "RTP/AVP"@) {
        lemma_eq_ignore_case_trans_iff(t, "RTP/AVP"@, "udp"@);
        lemma_eq_ignore_case_trans_iff(t, "RTP/AVP"@, "RTP/SAVP"@);
        lemma_eq_ignore_case_trans_iff(t, "RTP/AVP"@, "RTP/SAVPF"@);
    }
    if eq_ignore_case(t, "RTP/SAVP"@) {
        lemma_eq_ignore_case_trans_iff(t, "RTP/SAVP"@, "udp"@);
        lemma_eq_ignore_case_trans_iff(t, "RTP/SAVP"@, "RTP/AVP"@);
        lemma_eq_ignore_case_trans_iff(t, "RTP/SAVP"@, "RTP/SAVPF"@);
    }
    if eq_ignore_case(t, "RTP/SAVPF"@) {
        lemma_eq_ignore_case_trans_iff(t, "RTP/SAVPF"@, "udp"@);
        lemma_eq_ignore_case_trans_iff(t, "RTP/SAVPF"@, "RTP/AVP"@);
        lemma_eq_ignore_case_trans_iff(t, "RTP/SAVPF"@, "RTP/SAVP"@);
    }
}

} // verus!
