//! Session Description Protocol (RFC 8866) types: the session description,
//! the enumerations of its fields, and the typed attributes with their
//! parsers and textual forms.
//!
//! Every parser and writer here is verified against a specification over
//! character sequences, and the laws that tie them together (reading back
//! what was written gives the value back) are proved.
//!
//! Limitations: network addresses, phone numbers, e-mail addresses and
//! various other fields are kept as plain strings, not read according to the
//! SDP grammar; only UTF-8 text is handled.

pub mod attributes;
pub mod enums;
pub mod net;
pub mod session;
pub mod text;

pub use attributes::{
    AttributeError, Candidate, CandidateAddress, CandidateType, Crypto, CryptoSuite, Direction,
    ExtMap, FecOrder, Fingerprint, Fmtp, FmtpParam, Group, GroupSemantics, HashFunc, Rtcp, RtcpFb,
    RtcpFbAck, RtcpFbCcm, RtcpFbNack, RtcpFbPt, RtcpFbVal, RtpMap, Setup, SrtpKeyParam,
    SrtpSessionParam, Ssrc, SsrcAttribute, SsrcGroup, TypedAttribute,
};
pub use enums::{
    AddrType, BandwidthType, KeyMethod, MediaType, NetType, ParseEnumError, TransportProto,
};
pub use net::{AddrParseError, IpAddr, Ipv4Addr, Ipv6Addr};
pub use session::{
    Attribute, AttributeNotFoundError, Bandwidth, Connection, Key, Media, Origin, Repeat, Session,
    Time, TimeZone,
};
