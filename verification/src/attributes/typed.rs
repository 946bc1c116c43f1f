//! Typed attributes: the attribute types that a media or session attribute
//! value can be read as, each under its attribute name.

use crate::attributes::error::{result_model, AttributeError, AttributeErrorModel};
use crate::attributes::candidate::{Candidate, CandidateModel, lemma_candidate_round_trip};
use crate::attributes::crypto::{Crypto, CryptoModel, lemma_crypto_round_trip};
use crate::attributes::extmap::{ExtMap, ExtMapModel, lemma_extmap_round_trip};
use crate::attributes::fingerprint::{Fingerprint, FingerprintModel, lemma_fingerprint_round_trip};
use crate::attributes::fmtp::{Fmtp, FmtpModel, lemma_fmtp_round_trip};
use crate::attributes::group::{Group, GroupModel, SsrcGroup, SsrcGroupModel, lemma_group_round_trip, lemma_ssrc_group_round_trip};
use crate::attributes::rtcp::{Rtcp, RtcpModel, lemma_rtcp_round_trip};
use crate::attributes::rtcpfb::{RtcpFb, RtcpFbModel, lemma_rtcpfb_round_trip};
use crate::attributes::rtpmap::{RtpMap, RtpMapModel, lemma_rtpmap_round_trip};
use crate::attributes::ssrc::{Ssrc, SsrcModel, lemma_ssrc_round_trip};
use crate::attributes::setup::{lemma_setup_round_trip, Setup};
use vstd::prelude::*;

verus! {

/// An attribute value type, read from and written as the value of the
/// attributes of its name.
pub trait TypedAttribute: Sized + DeepView {
    /// The attribute name.
    spec fn spec_name() -> Seq<char>;

    /// What the text of a value reads as.
    spec fn spec_parse_value(s: Seq<char>) -> Result<<Self as DeepView>::V, AttributeErrorModel>;

    /// The text written for a value.
    spec fn spec_value_text(v: <Self as DeepView>::V) -> Seq<char>;

    /// The values whose text reads back as themselves.
    spec fn spec_value_wf(v: <Self as DeepView>::V) -> bool;

    fn name() -> (r: &'static str)
        ensures
            r@ == Self::spec_name(),
    ;

    fn parse_value(s: &str) -> (r: Result<Self, AttributeError>)
        ensures
            result_model(&r) == Self::spec_parse_value(s@),
    ;

    fn value_text(&self) -> (r: String)
        ensures
            r@ == Self::spec_value_text(self.deep_view()),
    ;

    /// Reading back the text of a well-formed value gives the value.
    proof fn lemma_value_round_trip(v: <Self as DeepView>::V)
        requires
            Self::spec_value_wf(v),
        ensures
            Self::spec_parse_value(Self::spec_value_text(v)) == Ok::<
                <Self as DeepView>::V,
                AttributeErrorModel,
            >(v),
    ;
}

impl TypedAttribute for RtpMap {
    open spec fn spec_name() -> Seq<char> {
        "rtpmap"@
    }

    open spec fn spec_parse_value(s: Seq<char>) -> Result<RtpMapModel, AttributeErrorModel> {
        RtpMapModel::spec_parse(s)
    }

    open spec fn spec_value_text(v: RtpMapModel) -> Seq<char> {
        v.spec_display()
    }

    open spec fn spec_value_wf(v: RtpMapModel) -> bool {
        v.well_formed()
    }

    fn name() -> (r: &'static str) {
        "rtpmap"
    }

    fn parse_value(s: &str) -> (r: Result<RtpMap, AttributeError>) {
        RtpMap::from_str(s)
    }

    fn value_text(&self) -> (r: String) {
        self.to_string()
    }

    proof fn lemma_value_round_trip(v: RtpMapModel) {
        lemma_rtpmap_round_trip(v);
    }
}

impl TypedAttribute for Fmtp {
    open spec fn spec_name() -> Seq<char> {
        "fmtp"@
    }

    open spec fn spec_parse_value(s: Seq<char>) -> Result<FmtpModel, AttributeErrorModel> {
        FmtpModel::spec_parse(s)
    }

    open spec fn spec_value_text(v: FmtpModel) -> Seq<char> {
        v.spec_display()
    }

    open spec fn spec_value_wf(v: FmtpModel) -> bool {
        v.well_formed()
    }

    fn name() -> (r: &'static str) {
        "fmtp"
    }

    fn parse_value(s: &str) -> (r: Result<Fmtp, AttributeError>) {
        Fmtp::from_str(s)
    }

    fn value_text(&self) -> (r: String) {
        self.to_string()
    }

    proof fn lemma_value_round_trip(v: FmtpModel) {
        lemma_fmtp_round_trip(v);
    }
}

impl TypedAttribute for Rtcp {
    open spec fn spec_name() -> Seq<char> {
        "rtcp"@
    }

    open spec fn spec_parse_value(s: Seq<char>) -> Result<RtcpModel, AttributeErrorModel> {
        RtcpModel::spec_parse(s)
    }

    open spec fn spec_value_text(v: RtcpModel) -> Seq<char> {
        v.spec_display()
    }

    open spec fn spec_value_wf(v: RtcpModel) -> bool {
        v.well_formed()
    }

    fn name() -> (r: &'static str) {
        "rtcp"
    }

    fn parse_value(s: &str) -> (r: Result<Rtcp, AttributeError>) {
        Rtcp::from_str(s)
    }

    fn value_text(&self) -> (r: String) {
        self.to_string()
    }

    proof fn lemma_value_round_trip(v: RtcpModel) {
        lemma_rtcp_round_trip(v);
    }
}

impl TypedAttribute for RtcpFb {
    open spec fn spec_name() -> Seq<char> {
        "rtcp-fb"@
    }

    open spec fn spec_parse_value(s: Seq<char>) -> Result<RtcpFbModel, AttributeErrorModel> {
        RtcpFbModel::spec_parse(s)
    }

    open spec fn spec_value_text(v: RtcpFbModel) -> Seq<char> {
        v.spec_display()
    }

    open spec fn spec_value_wf(v: RtcpFbModel) -> bool {
        v.well_formed()
    }

    fn name() -> (r: &'static str) {
        "rtcp-fb"
    }

    fn parse_value(s: &str) -> (r: Result<RtcpFb, AttributeError>) {
        RtcpFb::from_str(s)
    }

    fn value_text(&self) -> (r: String) {
        self.to_string()
    }

    proof fn lemma_value_round_trip(v: RtcpFbModel) {
        lemma_rtcpfb_round_trip(v);
    }
}

impl TypedAttribute for ExtMap {
    open spec fn spec_name() -> Seq<char> {
        "extmap"@
    }

    open spec fn spec_parse_value(s: Seq<char>) -> Result<ExtMapModel, AttributeErrorModel> {
        ExtMapModel::spec_parse(s)
    }

    open spec fn spec_value_text(v: ExtMapModel) -> Seq<char> {
        v.spec_display()
    }

    open spec fn spec_value_wf(v: ExtMapModel) -> bool {
        v.well_formed()
    }

    fn name() -> (r: &'static str) {
        "extmap"
    }

    fn parse_value(s: &str) -> (r: Result<ExtMap, AttributeError>) {
        ExtMap::from_str(s)
    }

    fn value_text(&self) -> (r: String) {
        self.to_string()
    }

    proof fn lemma_value_round_trip(v: ExtMapModel) {
        lemma_extmap_round_trip(v);
    }
}

impl TypedAttribute for Fingerprint {
    open spec fn spec_name() -> Seq<char> {
        "fingerprint"@
    }

    open spec fn spec_parse_value(s: Seq<char>) -> Result<FingerprintModel, AttributeErrorModel> {
        FingerprintModel::spec_parse(s)
    }

    open spec fn spec_value_text(v: FingerprintModel) -> Seq<char> {
        v.spec_display()
    }

    open spec fn spec_value_wf(v: FingerprintModel) -> bool {
        v.well_formed()
    }

    fn name() -> (r: &'static str) {
        "fingerprint"
    }

    fn parse_value(s: &str) -> (r: Result<Fingerprint, AttributeError>) {
        Fingerprint::from_str(s)
    }

    fn value_text(&self) -> (r: String) {
        self.to_string()
    }

    proof fn lemma_value_round_trip(v: FingerprintModel) {
        lemma_fingerprint_round_trip(v);
    }
}

impl TypedAttribute for Group {
    open spec fn spec_name() -> Seq<char> {
        "group"@
    }

    open spec fn spec_parse_value(s: Seq<char>) -> Result<GroupModel, AttributeErrorModel> {
        GroupModel::spec_parse(s)
    }

    open spec fn spec_value_text(v: GroupModel) -> Seq<char> {
        v.spec_display()
    }

    open spec fn spec_value_wf(v: GroupModel) -> bool {
        v.well_formed()
    }

    fn name() -> (r: &'static str) {
        "group"
    }

    fn parse_value(s: &str) -> (r: Result<Group, AttributeError>) {
        Group::from_str(s)
    }

    fn value_text(&self) -> (r: String) {
        self.to_string()
    }

    proof fn lemma_value_round_trip(v: GroupModel) {
        lemma_group_round_trip(v);
    }
}

impl TypedAttribute for Ssrc {
    open spec fn spec_name() -> Seq<char> {
        "ssrc"@
    }

    open spec fn spec_parse_value(s: Seq<char>) -> Result<SsrcModel, AttributeErrorModel> {
        SsrcModel::spec_parse(s)
    }

    open spec fn spec_value_text(v: SsrcModel) -> Seq<char> {
        v.spec_display()
    }

    open spec fn spec_value_wf(v: SsrcModel) -> bool {
        v.well_formed()
    }

    fn name() -> (r: &'static str) {
        "ssrc"
    }

    fn parse_value(s: &str) -> (r: Result<Ssrc, AttributeError>) {
        Ssrc::from_str(s)
    }

    fn value_text(&self) -> (r: String) {
        self.to_string()
    }

    proof fn lemma_value_round_trip(v: SsrcModel) {
        lemma_ssrc_round_trip(v);
    }
}

impl TypedAttribute for SsrcGroup {
    open spec fn spec_name() -> Seq<char> {
        "ssrc-group"@
    }

    open spec fn spec_parse_value(s: Seq<char>) -> Result<SsrcGroupModel, AttributeErrorModel> {
        SsrcGroupModel::spec_parse(s)
    }

    open spec fn spec_value_text(v: SsrcGroupModel) -> Seq<char> {
        v.spec_display()
    }

    open spec fn spec_value_wf(v: SsrcGroupModel) -> bool {
        v.well_formed()
    }

    fn name() -> (r: &'static str) {
        "ssrc-group"
    }

    fn parse_value(s: &str) -> (r: Result<SsrcGroup, AttributeError>) {
        SsrcGroup::from_str(s)
    }

    fn value_text(&self) -> (r: String) {
        self.to_string()
    }

    proof fn lemma_value_round_trip(v: SsrcGroupModel) {
        lemma_ssrc_group_round_trip(v);
    }
}

impl TypedAttribute for Crypto {
    open spec fn spec_name() -> Seq<char> {
        "crypto"@
    }

    open spec fn spec_parse_value(s: Seq<char>) -> Result<CryptoModel, AttributeErrorModel> {
        CryptoModel::spec_parse(s)
    }

    open spec fn spec_value_text(v: CryptoModel) -> Seq<char> {
        v.spec_display()
    }

    open spec fn spec_value_wf(v: CryptoModel) -> bool {
        v.well_formed()
    }

    fn name() -> (r: &'static str) {
        "crypto"
    }

    fn parse_value(s: &str) -> (r: Result<Crypto, AttributeError>) {
        Crypto::from_str(s)
    }

    fn value_text(&self) -> (r: String) {
        self.to_string()
    }

    proof fn lemma_value_round_trip(v: CryptoModel) {
        lemma_crypto_round_trip(v);
    }
}

impl TypedAttribute for Candidate {
    open spec fn spec_name() -> Seq<char> {
        "candidate"@
    }

    open spec fn spec_parse_value(s: Seq<char>) -> Result<CandidateModel, AttributeErrorModel> {
        CandidateModel::spec_parse(s)
    }

    open spec fn spec_value_text(v: CandidateModel) -> Seq<char> {
        v.spec_display()
    }

    open spec fn spec_value_wf(v: CandidateModel) -> bool {
        v.well_formed()
    }

    fn name() -> (r: &'static str) {
        "candidate"
    }

    fn parse_value(s: &str) -> (r: Result<Candidate, AttributeError>) {
        Candidate::from_str(s)
    }

    fn value_text(&self) -> (r: String) {
        self.to_string()
    }

    proof fn lemma_value_round_trip(v: CandidateModel) {
        lemma_candidate_round_trip(v);
    }
}

impl TypedAttribute for Setup {
    open spec fn spec_name() -> Seq<char> {
        "setup"@
    }

    open spec fn spec_parse_value(s: Seq<char>) -> Result<Setup, AttributeErrorModel> {
        Setup::spec_parse(s)
    }

    open spec fn spec_value_text(v: Setup) -> Seq<char> {
        v.spec_str()
    }

    open spec fn spec_value_wf(v: Setup) -> bool {
        true
    }

    fn name() -> (r: &'static str) {
        "setup"
    }

    fn parse_value(s: &str) -> (r: Result<Setup, AttributeError>) {
        Setup::from_str(s)
    }

    fn value_text(&self) -> (r: String) {
        self.to_string()
    }

    proof fn lemma_value_round_trip(v: Setup) {
        lemma_setup_round_trip(v);
    }
}

} // verus!
