//! Typed media and session attributes (`a=` lines): their parsers, their
//! textual forms and the laws that tie the two together.

pub mod candidate;
pub mod crypto;
pub mod error;
pub mod extmap;
pub mod fingerprint;
pub mod fmtp;
pub mod group;
pub mod rtcp;
pub mod rtcpfb;
pub mod rtpmap;
pub mod setup;
pub mod ssrc;
pub mod typed;

pub use candidate::{
    Candidate, CandidateAddress, CandidateAddressModel, CandidateModel, CandidateType,
    CandidateTypeModel,
};
pub use crypto::{
    Crypto, CryptoModel, CryptoSuite, CryptoSuiteModel, FecOrder, SrtpKeyParam, SrtpKeyParamModel,
    SrtpSessionParam, SrtpSessionParamModel,
};
pub use error::{AttributeError, AttributeErrorModel};
pub use extmap::{Direction, ExtMap, ExtMapModel};
pub use fingerprint::{Fingerprint, FingerprintModel, HashFunc, HashFuncModel};
pub use fmtp::{Fmtp, FmtpModel, FmtpParam, FmtpParamModel};
pub use group::{
    Group, GroupModel, GroupSemantics, GroupSemanticsModel, SsrcGroup, SsrcGroupModel,
};
pub use rtcp::{Rtcp, RtcpModel};
pub use rtcpfb::{
    RtcpFb, RtcpFbAck, RtcpFbAckModel, RtcpFbCcm, RtcpFbCcmModel, RtcpFbModel, RtcpFbNack,
    RtcpFbNackModel, RtcpFbPt, RtcpFbVal, RtcpFbValModel,
};
pub use rtpmap::{RtpMap, RtpMapModel};
pub use setup::Setup;
pub use ssrc::{Ssrc, SsrcAttribute, SsrcAttributeModel, SsrcModel};
pub use typed::TypedAttribute;
