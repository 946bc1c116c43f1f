//! The `rtcp-fb` attribute (RFC 4585 Section 4.2, RFC 5104 Section 7.1,
//! RFC 6679 Section 6.2, RFC 8888 Section 6).

use crate::attributes::error::{
    invalid_value, other_error, out_of_range, param_not_found, result_model, AttributeError,
    AttributeErrorModel,
};
use crate::text::{
    lemma_split_pieces,
    chars_of, decimal, eq_lit, has_no, join, join_chars, lemma_decimal_has_no, lemma_parse_decimal,
    lemma_split_join, lemma_split_len, parse_uint, parse_uint_chars, push_decimal, split,
    split_chars, string_of, views,
};
use vstd::prelude::*;

verus! {

/// RTCP Positive feedback values
///
/// See RFC 4585 Section 4.2.
#[derive(Debug, PartialEq, Clone)]
pub enum RtcpFbAck {
    /// Reference Picture Selection Indication
    Rpsi,
    /// Application layer feedback
    App(Option<String>),
    /// Congestion Control Feedback (RFC 8888 Section 6)
    Ccfb,
    /// Other Ack types
    Other(String),
}

/// RTCP Negative feedback values
///
/// See RFC 4585 Section 4.2.
#[derive(Debug, PartialEq, Clone)]
pub enum RtcpFbNack {
    /// Picture Loss Indication
    Pli,
    /// Slice Loss Indication
    Sli,
    /// Reference Picture Selection Indication
    Rpsi,
    /// Application layer feedback
    App(Option<String>),
    /// Explicit Congestion Notification (RFC 6679 Section 6.2)
    Ecn,
    /// Other Nack types
    Other(String),
}

/// Codec Control using RTCP feedback messages
///
/// See RFC 5104 Section 7.1.
#[derive(Debug, PartialEq, Clone)]
pub enum RtcpFbCcm {
    /// Full Intra Request
    Fir,
    /// Temporary Maximum Media Stream Bit Rate
    Tmmbr(Option<String>),
    /// Temporal-Spatial Trade-off
    Tstr,
    /// Video Back Channel Messages
    Vbcm(Vec<u8>),
    /// Other messages (for future commands/Indications)
    Other(String),
}

/// Types of RTCP feedback values
#[derive(Debug, PartialEq, Clone)]
pub enum RtcpFbVal {
    /// Positive Acknowledgement
    Ack(Option<RtcpFbAck>),
    /// Negative Acknowledgement
    Nack(Option<RtcpFbNack>),
    /// Minimum interval between two Regular RTCP packets in milliseconds
    TrrInt(u64),
    /// Codec Control messages
    Ccm(RtcpFbCcm),
    /// Others Rtcp Fb types
    Other(String),
}

/// Payload format for which feedback messages may be used,
#[derive(Debug, PartialEq, Eq, Clone, Copy)]
pub enum RtcpFbPt {
    /// Fixed payload format
    Fmt(u8),
    /// Applies to all formats
    Wildcard,
}

/// RTCP Feedback Capability
///
/// See RFC 4585 Section 4.2.
#[derive(Debug, PartialEq, Clone)]
pub struct RtcpFb {
    /// Payload format for which feedback messages may be used,
    pub pt: RtcpFbPt,
    /// RTCP Feedback value
    pub val: RtcpFbVal,
}

pub enum RtcpFbAckModel {
    Rpsi,
    App(Option<Seq<char>>),
    Ccfb,
    Other(Seq<char>),
}

pub enum RtcpFbNackModel {
    Pli,
    Sli,
    Rpsi,
    App(Option<Seq<char>>),
    Ecn,
    Other(Seq<char>),
}

pub enum RtcpFbCcmModel {
    Fir,
    Tmmbr(Option<Seq<char>>),
    Tstr,
    Vbcm(Seq<u8>),
    Other(Seq<char>),
}

pub enum RtcpFbValModel {
    Ack(Option<RtcpFbAckModel>),
    Nack(Option<RtcpFbNackModel>),
    TrrInt(u64),
    Ccm(RtcpFbCcmModel),
    Other(Seq<char>),
}

pub struct RtcpFbModel {
    pub pt: RtcpFbPt,
    pub val: RtcpFbValModel,
}

impl DeepView for RtcpFbAck {
    type V = RtcpFbAckModel;

    open spec fn deep_view(&self) -> RtcpFbAckModel {
        match self {
            RtcpFbAck::Rpsi => RtcpFbAckModel::Rpsi,
            RtcpFbAck::App(a) => RtcpFbAckModel::App(a.deep_view()),
            RtcpFbAck::Ccfb => RtcpFbAckModel::Ccfb,
            RtcpFbAck::Other(o) => RtcpFbAckModel::Other(o@),
        }
    }
}

impl DeepView for RtcpFbNack {
    type V = RtcpFbNackModel;

    open spec fn deep_view(&self) -> RtcpFbNackModel {
        match self {
            RtcpFbNack::Pli => RtcpFbNackModel::Pli,
            RtcpFbNack::Sli => RtcpFbNackModel::Sli,
            RtcpFbNack::Rpsi => RtcpFbNackModel::Rpsi,
            RtcpFbNack::App(a) => RtcpFbNackModel::App(a.deep_view()),
            RtcpFbNack::Ecn => RtcpFbNackModel::Ecn,
            RtcpFbNack::Other(o) => RtcpFbNackModel::Other(o@),
        }
    }
}

impl DeepView for RtcpFbCcm {
    type V = RtcpFbCcmModel;

    open spec fn deep_view(&self) -> RtcpFbCcmModel {
        match self {
            RtcpFbCcm::Fir => RtcpFbCcmModel::Fir,
            RtcpFbCcm::Tmmbr(a) => RtcpFbCcmModel::Tmmbr(a.deep_view()),
            RtcpFbCcm::Tstr => RtcpFbCcmModel::Tstr,
            RtcpFbCcm::Vbcm(v) => RtcpFbCcmModel::Vbcm(v@),
            RtcpFbCcm::Other(o) => RtcpFbCcmModel::Other(o@),
        }
    }
}

impl DeepView for RtcpFbVal {
    type V = RtcpFbValModel;

    open spec fn deep_view(&self) -> RtcpFbValModel {
        match self {
            RtcpFbVal::Ack(a) => RtcpFbValModel::Ack(
                match a {
                    Some(x) => Some(x.deep_view()),
                    None => None,
                },
            ),
            RtcpFbVal::Nack(a) => RtcpFbValModel::Nack(
                match a {
                    Some(x) => Some(x.deep_view()),
                    None => None,
                },
            ),
            RtcpFbVal::TrrInt(t) => RtcpFbValModel::TrrInt(*t),
            RtcpFbVal::Ccm(c) => RtcpFbValModel::Ccm(c.deep_view()),
            RtcpFbVal::Other(o) => RtcpFbValModel::Other(o@),
        }
    }
}

impl DeepView for RtcpFb {
    type V = RtcpFbModel;

    open spec fn deep_view(&self) -> RtcpFbModel {
        RtcpFbModel { pt: self.pt, val: self.val.deep_view() }
    }
}

// ---------------------------------------------------------------------------
// Grammar
// ---------------------------------------------------------------------------

/// The token `i[k]`, when there is one.
pub open spec fn opt_token(i: Seq<Seq<char>>, k: int) -> Option<Seq<char>> {
    if k < i.len() {
        Some(i[k])
    } else {
        None
    }
}

/// The bytes of the tokens `i[k..]`, or the first token that is no byte.
pub open spec fn parse_bytes(i: Seq<Seq<char>>, k: int) -> Result<Seq<u8>, Seq<char>>
    decreases i.len() - k,
{
    if k < 0 || k >= i.len() {
        Ok(seq![])
    } else {
        match parse_uint(i[k], 255) {
            None => Err(i[k]),
            Some(b) => match parse_bytes(i, k + 1) {
                Ok(r) => Ok(seq![b as u8] + r),
                Err(e) => Err(e),
            },
        }
    }
}

pub open spec fn fb_err(param: Seq<char>, val: Seq<char>) -> AttributeErrorModel {
    AttributeErrorModel::InvalidParamValue { param, val, attr: "rtcp-fb"@ }
}

/// The feedback value of the tokens `i[1..]`, `pt` being the payload format.
pub open spec fn parse_val(i: Seq<Seq<char>>, pt: RtcpFbPt) -> Result<
    RtcpFbValModel,
    AttributeErrorModel,
> {
    let val = i[1];
    if val == "ack"@ {
        if i.len() >= 3 {
            let a = i[2];
            if a == "rpsi"@ {
                Ok(RtcpFbValModel::Ack(Some(RtcpFbAckModel::Rpsi)))
            } else if a == "app"@ {
                Ok(RtcpFbValModel::Ack(Some(RtcpFbAckModel::App(opt_token(i, 3)))))
            } else if a == "ccfb"@ {
                match pt {
                    RtcpFbPt::Fmt(p) => Err(
                        fb_err("Payload type"@, decimal(p as nat) + "(expected wildcard (*))"@),
                    ),
                    RtcpFbPt::Wildcard => Ok(RtcpFbValModel::Ack(Some(RtcpFbAckModel::Ccfb))),
                }
            } else {
                Ok(RtcpFbValModel::Ack(Some(RtcpFbAckModel::Other(a))))
            }
        } else {
            Ok(RtcpFbValModel::Ack(None))
        }
    } else if val == "nack"@ {
        if i.len() >= 3 {
            let a = i[2];
            Ok(
                RtcpFbValModel::Nack(
                    Some(
                        if a == "pli"@ {
                            RtcpFbNackModel::Pli
                        } else if a == "sli"@ {
                            RtcpFbNackModel::Sli
                        } else if a == "rpsi"@ {
                            RtcpFbNackModel::Rpsi
                        } else if a == "app"@ {
                            RtcpFbNackModel::App(opt_token(i, 3))
                        } else if a == "ecn"@ {
                            RtcpFbNackModel::Ecn
                        } else {
                            RtcpFbNackModel::Other(a)
                        },
                    ),
                ),
            )
        } else {
            Ok(RtcpFbValModel::Nack(None))
        }
    } else if val == "trr-int"@ {
        if i.len() >= 3 {
            match parse_uint(i[2], 0xffff_ffff_ffff_ffff) {
                None => Err(fb_err("trr-int"@, i[2])),
                Some(t) => Ok(RtcpFbValModel::TrrInt(t as u64)),
            }
        } else {
            Err(AttributeErrorModel::Other { error: "No trr-int value"@, attr: "rtcp-fb"@ })
        }
    } else if val == "ccm"@ {
        if i.len() >= 3 {
            let c = i[2];
            if c == "fir"@ {
                Ok(RtcpFbValModel::Ccm(RtcpFbCcmModel::Fir))
            } else if c == "tmmbr"@ {
                Ok(RtcpFbValModel::Ccm(RtcpFbCcmModel::Tmmbr(opt_token(i, 3))))
            } else if c == "tstr"@ {
                Ok(RtcpFbValModel::Ccm(RtcpFbCcmModel::Tstr))
            } else if c == "vbcm"@ {
                match parse_bytes(i, 3) {
                    Ok(b) => Ok(RtcpFbValModel::Ccm(RtcpFbCcmModel::Vbcm(b))),
                    Err(t) => Err(fb_err("vbcm"@, t)),
                }
            } else {
                Ok(RtcpFbValModel::Ccm(RtcpFbCcmModel::Other(c)))
            }
        } else {
            Err(AttributeErrorModel::ParamNotFound { param: "Ccm param"@, attr: "rtcp-fb"@ })
        }
    } else {
        Ok(RtcpFbValModel::Other(val))
    }
}

/// The tokens that a feedback value is written as.
pub open spec fn val_tokens(v: RtcpFbValModel) -> Seq<Seq<char>> {
    match v {
        RtcpFbValModel::Ack(a) => seq!["ack"@] + match a {
            None => seq![],
            Some(RtcpFbAckModel::Rpsi) => seq!["rpsi"@],
            Some(RtcpFbAckModel::Ccfb) => seq!["ccfb"@],
            Some(RtcpFbAckModel::App(None)) => seq!["app"@],
            Some(RtcpFbAckModel::App(Some(p))) => seq!["app"@, p],
            Some(RtcpFbAckModel::Other(o)) => seq![o],
        },
        RtcpFbValModel::Nack(a) => seq!["nack"@] + match a {
            None => seq![],
            Some(RtcpFbNackModel::Pli) => seq!["pli"@],
            Some(RtcpFbNackModel::Sli) => seq!["sli"@],
            Some(RtcpFbNackModel::Rpsi) => seq!["rpsi"@],
            Some(RtcpFbNackModel::Ecn) => seq!["ecn"@],
            Some(RtcpFbNackModel::App(None)) => seq!["app"@],
            Some(RtcpFbNackModel::App(Some(p))) => seq!["app"@, p],
            Some(RtcpFbNackModel::Other(o)) => seq![o],
        },
        RtcpFbValModel::TrrInt(t) => seq!["trr-int"@, decimal(t as nat)],
        RtcpFbValModel::Ccm(c) => seq!["ccm"@] + match c {
            RtcpFbCcmModel::Fir => seq!["fir"@],
            RtcpFbCcmModel::Tstr => seq!["tstr"@],
            RtcpFbCcmModel::Tmmbr(None) => seq!["tmmbr"@],
            RtcpFbCcmModel::Tmmbr(Some(p)) => seq!["tmmbr"@, p],
            RtcpFbCcmModel::Vbcm(b) => seq!["vbcm"@] + b.map_values(|x: u8| decimal(x as nat)),
            RtcpFbCcmModel::Other(o) => seq![o],
        },
        RtcpFbValModel::Other(o) => seq![o],
    }
}

pub open spec fn pt_text(pt: RtcpFbPt) -> Seq<char> {
    match pt {
        RtcpFbPt::Fmt(p) => decimal(p as nat),
        RtcpFbPt::Wildcard => "*"@,
    }
}

impl RtcpFbValModel {
    pub open spec fn spec_display(self) -> Seq<char> {
        join(val_tokens(self), ' ')
    }

    /// The values that the textual form carries unchanged, after the payload
    /// format `pt`: parameters without spaces, unknown values that are not
    /// known words, and congestion control feedback only for all formats.
    pub open spec fn well_formed(self, pt: RtcpFbPt) -> bool {
        match self {
            RtcpFbValModel::Ack(Some(RtcpFbAckModel::App(Some(p)))) => has_no(p, ' '),
            RtcpFbValModel::Ack(Some(RtcpFbAckModel::Other(o))) => has_no(o, ' ') && o != "rpsi"@
                && o != "app"@ && o != "ccfb"@,
            RtcpFbValModel::Ack(Some(RtcpFbAckModel::Ccfb)) => pt == RtcpFbPt::Wildcard,
            RtcpFbValModel::Nack(Some(RtcpFbNackModel::App(Some(p)))) => has_no(p, ' '),
            RtcpFbValModel::Nack(Some(RtcpFbNackModel::Other(o))) => has_no(o, ' ') && o != "pli"@
                && o != "sli"@ && o != "rpsi"@ && o != "app"@ && o != "ecn"@,
            RtcpFbValModel::Ccm(RtcpFbCcmModel::Tmmbr(Some(p))) => has_no(p, ' '),
            RtcpFbValModel::Ccm(RtcpFbCcmModel::Other(o)) => has_no(o, ' ') && o != "fir"@ && o
                != "tmmbr"@ && o != "tstr"@ && o != "vbcm"@,
            RtcpFbValModel::Other(o) => has_no(o, ' ') && o != "ack"@ && o != "nack"@ && o
                != "trr-int"@ && o != "ccm"@,
            _ => true,
        }
    }
}

impl RtcpFbModel {
    /// `<payload format or *> <feedback value> [<parameters>...]`, separated
    /// by single spaces.
    pub open spec fn spec_parse(s: Seq<char>) -> Result<RtcpFbModel, AttributeErrorModel> {
        let i = split(s, ' ');
        let pt = match parse_uint(i[0], 255) {
            Some(p) => Some(RtcpFbPt::Fmt(p as u8)),
            None => if i[0] == "*"@ {
                Some(RtcpFbPt::Wildcard)
            } else {
                None
            },
        };
        match pt {
            None => Err(fb_err("Payload format"@, i[0])),
            Some(pt) => if i.len() < 2 {
                Err(
                    AttributeErrorModel::ParamNotFound {
                        param: "Rtcp feedback value"@,
                        attr: "rtcp-fb"@,
                    },
                )
            } else {
                match parse_val(i, pt) {
                    Ok(val) => Ok(RtcpFbModel { pt, val }),
                    Err(e) => Err(e),
                }
            },
        }
    }

    pub open spec fn tokens(self) -> Seq<Seq<char>> {
        seq![pt_text(self.pt)] + val_tokens(self.val)
    }

    pub open spec fn spec_display(self) -> Seq<char> {
        join(self.tokens(), ' ')
    }

    pub open spec fn well_formed(self) -> bool {
        self.val.well_formed(self.pt)
    }
}

// ---------------------------------------------------------------------------
// Parsing
// ---------------------------------------------------------------------------

fn opt_token_string(i: &Vec<Vec<char>>, k: usize) -> (r: Option<String>)
    ensures
        r.deep_view() == opt_token(views(i@), k as int),
{
    if k < i.len() {
        Some(string_of(&i[k]))
    } else {
        None
    }
}

fn parse_bytes_chars(i: &Vec<Vec<char>>, k: usize) -> (r: Result<Vec<u8>, Vec<char>>)
    ensures
        match r {
            Ok(b) => parse_bytes(views(i@), k as int) == Ok::<Seq<u8>, Seq<char>>(b@),
            Err(t) => parse_bytes(views(i@), k as int) == Err::<Seq<u8>, Seq<char>>(t@),
        },
{
    let mut out: Vec<u8> = Vec::new();
    let mut j: usize = k;
    let n: usize = i.len();
    while j < n
        invariant
            n == i@.len(),
            k <= j || n <= k,
            parse_bytes(views(i@), k as int) == match parse_bytes(views(i@), j as int) {
                Ok(r) => Ok(out@ + r),
                Err(e) => Err(e),
            },
        decreases n - j,
    {
        match parse_uint_chars(&i[j], 255) {
            None => {
                let mut t: Vec<char> = Vec::new();
                crate::text::push_chars(&mut t, &i[j]);
                return Err(t);
            },
            Some(b) => {
                let ghost before = out@;
                out.push(b as u8);
                proof {
                    match parse_bytes(views(i@), j + 1) {
                        Ok(r) => {
                            assert(before + (seq![b as u8] + r) =~= out@ + r);
                        },
                        Err(e) => {},
                    }
                }
            },
        }
        j = j + 1;
    }
    assert(out@ + Seq::<u8>::empty() =~= out@);
    Ok(out)
}

fn ccfb_error(p: u8) -> (e: AttributeError)
    ensures
        e.deep_view() == fb_err("Payload type"@, decimal(p as nat) + "(expected wildcard (*))"@),
{
    out_of_range("Payload type", p as u64, "(expected wildcard (*))", "rtcp-fb")
}

fn parse_val_chars(i: &Vec<Vec<char>>, pt: RtcpFbPt) -> (r: Result<RtcpFbVal, AttributeError>)
    requires
        i@.len() >= 2,
    ensures
        result_model(&r) == parse_val(views(i@), pt),
{
    let n: usize = i.len();
    let val = &i[1];
    if eq_lit(val, "ack") {
        if n >= 3 {
            let a = &i[2];
            if eq_lit(a, "rpsi") {
                Ok(RtcpFbVal::Ack(Some(RtcpFbAck::Rpsi)))
            } else if eq_lit(a, "app") {
                Ok(RtcpFbVal::Ack(Some(RtcpFbAck::App(opt_token_string(i, 3)))))
            } else if eq_lit(a, "ccfb") {
                match pt {
                    RtcpFbPt::Fmt(p) => Err(ccfb_error(p)),
                    RtcpFbPt::Wildcard => Ok(RtcpFbVal::Ack(Some(RtcpFbAck::Ccfb))),
                }
            } else {
                Ok(RtcpFbVal::Ack(Some(RtcpFbAck::Other(string_of(a)))))
            }
        } else {
            Ok(RtcpFbVal::Ack(None))
        }
    } else if eq_lit(val, "nack") {
        if n >= 3 {
            let a = &i[2];
            let nack = if eq_lit(a, "pli") {
                RtcpFbNack::Pli
            } else if eq_lit(a, "sli") {
                RtcpFbNack::Sli
            } else if eq_lit(a, "rpsi") {
                RtcpFbNack::Rpsi
            } else if eq_lit(a, "app") {
                RtcpFbNack::App(opt_token_string(i, 3))
            } else if eq_lit(a, "ecn") {
                RtcpFbNack::Ecn
            } else {
                RtcpFbNack::Other(string_of(a))
            };
            Ok(RtcpFbVal::Nack(Some(nack)))
        } else {
            Ok(RtcpFbVal::Nack(None))
        }
    } else if eq_lit(val, "trr-int") {
        if n >= 3 {
            match parse_uint_chars(&i[2], 0xffff_ffff_ffff_ffff) {
                None => Err(invalid_value("trr-int", &i[2], "rtcp-fb")),
                Some(t) => Ok(RtcpFbVal::TrrInt(t)),
            }
        } else {
            Err(other_error(&chars_of("No trr-int value"), "rtcp-fb"))
        }
    } else if eq_lit(val, "ccm") {
        if n >= 3 {
            let c = &i[2];
            if eq_lit(c, "fir") {
                Ok(RtcpFbVal::Ccm(RtcpFbCcm::Fir))
            } else if eq_lit(c, "tmmbr") {
                Ok(RtcpFbVal::Ccm(RtcpFbCcm::Tmmbr(opt_token_string(i, 3))))
            } else if eq_lit(c, "tstr") {
                Ok(RtcpFbVal::Ccm(RtcpFbCcm::Tstr))
            } else if eq_lit(c, "vbcm") {
                match parse_bytes_chars(i, 3) {
                    Ok(b) => Ok(RtcpFbVal::Ccm(RtcpFbCcm::Vbcm(b))),
                    Err(t) => Err(invalid_value("vbcm", &t, "rtcp-fb")),
                }
            } else {
                Ok(RtcpFbVal::Ccm(RtcpFbCcm::Other(string_of(c))))
            }
        } else {
            Err(param_not_found("Ccm param", "rtcp-fb"))
        }
    } else {
        Ok(RtcpFbVal::Other(string_of(val)))
    }
}

impl RtcpFb {
    pub fn from_chars(s: &Vec<char>) -> (r: Result<RtcpFb, AttributeError>)
        ensures
            result_model(&r) == RtcpFbModel::spec_parse(s@),
    {
        let i = split_chars(s, ' ');
        proof {
            lemma_split_len(s@, ' ');
        }
        let pt = match parse_uint_chars(&i[0], 255) {
            Some(p) => RtcpFbPt::Fmt(p as u8),
            None => if eq_lit(&i[0], "*") {
                RtcpFbPt::Wildcard
            } else {
                return Err(invalid_value("Payload format", &i[0], "rtcp-fb"));
            },
        };
        if i.len() < 2 {
            return Err(param_not_found("Rtcp feedback value", "rtcp-fb"));
        }
        let val = parse_val_chars(&i, pt)?;
        Ok(RtcpFb { pt, val })
    }

    pub fn from_str(s: &str) -> (r: Result<RtcpFb, AttributeError>)
        ensures
            result_model(&r) == RtcpFbModel::spec_parse(s@),
    {
        Self::from_chars(&chars_of(s))
    }

    pub fn to_string(&self) -> (r: String)
        ensures
            r@ == self.deep_view().spec_display(),
    {
        let mut t: Vec<Vec<char>> = Vec::new();
        match self.pt {
            RtcpFbPt::Wildcard => t.push(chars_of("*")),
            RtcpFbPt::Fmt(p) => {
                let mut d: Vec<char> = Vec::new();
                push_decimal(&mut d, p as u64);
                t.push(d);
            },
        }
        push_val_tokens(&mut t, &self.val);
        assert(views(t@) =~= self.deep_view().tokens());
        string_of(&join_chars(&t, ' '))
    }
}

impl RtcpFbVal {
    pub fn to_string(&self) -> (r: String)
        ensures
            r@ == self.deep_view().spec_display(),
    {
        let mut t: Vec<Vec<char>> = Vec::new();
        push_val_tokens(&mut t, self);
        assert(views(t@) =~= val_tokens(self.deep_view()));
        string_of(&join_chars(&t, ' '))
    }
}

/// Appends the tokens of a feedback value.
fn push_val_tokens(t: &mut Vec<Vec<char>>, v: &RtcpFbVal)
    ensures
        views(final(t)@) == views(old(t)@) + val_tokens(v.deep_view()),
{
    let ghost start = views(t@);
    match v {
        RtcpFbVal::Ack(a) => {
            t.push(chars_of("ack"));
            match a {
                None => {},
                Some(RtcpFbAck::Rpsi) => t.push(chars_of("rpsi")),
                Some(RtcpFbAck::Ccfb) => t.push(chars_of("ccfb")),
                Some(RtcpFbAck::App(p)) => {
                    t.push(chars_of("app"));
                    if let Some(p) = p {
                        t.push(chars_of(p.as_str()));
                    }
                },
                Some(RtcpFbAck::Other(o)) => t.push(chars_of(o.as_str())),
            }
        },
        RtcpFbVal::Nack(a) => {
            t.push(chars_of("nack"));
            match a {
                None => {},
                Some(RtcpFbNack::Pli) => t.push(chars_of("pli")),
                Some(RtcpFbNack::Sli) => t.push(chars_of("sli")),
                Some(RtcpFbNack::Rpsi) => t.push(chars_of("rpsi")),
                Some(RtcpFbNack::Ecn) => t.push(chars_of("ecn")),
                Some(RtcpFbNack::App(p)) => {
                    t.push(chars_of("app"));
                    if let Some(p) = p {
                        t.push(chars_of(p.as_str()));
                    }
                },
                Some(RtcpFbNack::Other(o)) => t.push(chars_of(o.as_str())),
            }
        },
        RtcpFbVal::TrrInt(x) => {
            t.push(chars_of("trr-int"));
            let mut d: Vec<char> = Vec::new();
            push_decimal(&mut d, *x);
            t.push(d);
        },
        RtcpFbVal::Ccm(c) => {
            t.push(chars_of("ccm"));
            match c {
                RtcpFbCcm::Fir => t.push(chars_of("fir")),
                RtcpFbCcm::Tstr => t.push(chars_of("tstr")),
                RtcpFbCcm::Tmmbr(p) => {
                    t.push(chars_of("tmmbr"));
                    if let Some(p) = p {
                        t.push(chars_of(p.as_str()));
                    }
                },
                RtcpFbCcm::Vbcm(b) => {
                    t.push(chars_of("vbcm"));
                    let ghost mid = views(t@);
                    for j in 0..b.len()
                        invariant
                            views(t@) == mid + b@.take(j as int).map_values(
                                |x: u8| decimal(x as nat),
                            ),
                    {
                        let mut d: Vec<char> = Vec::new();
                        push_decimal(&mut d, b[j] as u64);
                        let ghost before = t@;
                        t.push(d);
                        assert(views(t@) =~= views(before).push(d@));
                        assert(b@.take(j + 1).map_values(|x: u8| decimal(x as nat)) =~= b@.take(
                            j as int,
                        ).map_values(|x: u8| decimal(x as nat)).push(decimal(b@[j as int] as nat)));
                    }
                    assert(b@.take(b@.len() as int) =~= b@);
                },
                RtcpFbCcm::Other(o) => t.push(chars_of(o.as_str())),
            }
        },
        RtcpFbVal::Other(o) => t.push(chars_of(o.as_str())),
    }
    assert(views(t@) =~= start + val_tokens(v.deep_view()));
}

impl std::str::FromStr for RtcpFb {
    type Err = AttributeError;

    fn from_str(s: &str) -> (r: Result<RtcpFb, AttributeError>)
        ensures
            result_model(&r) == RtcpFbModel::spec_parse(s@),
    {
        RtcpFb::from_str(s)
    }
}

// ---------------------------------------------------------------------------
// Reading back the textual forms
// ---------------------------------------------------------------------------

proof fn lemma_val_tokens_no_space(v: RtcpFbValModel, pt: RtcpFbPt)
    requires
        v.well_formed(pt),
    ensures
        forall|k: int| 0 <= k < val_tokens(v).len() ==> has_no(#[trigger] val_tokens(v)[k], ' '),
{
    reveal_strlit("ack");
    reveal_strlit("nack");
    reveal_strlit("trr-int");
    reveal_strlit("ccm");
    reveal_strlit("rpsi");
    reveal_strlit("app");
    reveal_strlit("ccfb");
    reveal_strlit("pli");
    reveal_strlit("sli");
    reveal_strlit("ecn");
    reveal_strlit("fir");
    reveal_strlit("tmmbr");
    reveal_strlit("tstr");
    reveal_strlit("vbcm");
    let t = val_tokens(v);
    match v {
        RtcpFbValModel::TrrInt(x) => {
            lemma_decimal_has_no(x as nat, ' ');
        },
        RtcpFbValModel::Ccm(RtcpFbCcmModel::Vbcm(b)) => {
            assert forall|k: int| 0 <= k < t.len() implies has_no(#[trigger] t[k], ' ') by {
                if k >= 2 {
                    lemma_decimal_has_no(b[k - 2] as nat, ' ');
                }
            }
        },
        _ => {},
    }
}

proof fn lemma_parse_bytes_round_trip(i: Seq<Seq<char>>, k: int, b: Seq<u8>)
    requires
        0 <= k,
        i.len() == k + b.len(),
        forall|j: int| 0 <= j < b.len() ==> i[k + j] == decimal(#[trigger] b[j] as nat),
    ensures
        parse_bytes(i, k) == Ok::<Seq<u8>, Seq<char>>(b),
    decreases b.len(),
{
    if b.len() > 0 {
        let rest = b.drop_first();
        assert forall|j: int| 0 <= j < rest.len() implies i[k + 1 + j] == decimal(
            #[trigger] rest[j] as nat,
        ) by {
            assert(rest[j] == b[j + 1]);
        }
        lemma_parse_bytes_round_trip(i, k + 1, rest);
        assert(i[k] == decimal(b[0] as nat));
        lemma_parse_decimal(b[0] as nat, 255);
        assert(seq![b[0]] + rest =~= b);
    } else {
        assert(b =~= Seq::<u8>::empty());
    }
}

#[verifier::rlimit(40)]
proof fn lemma_parse_val_round_trip(i: Seq<Seq<char>>, pt: RtcpFbPt, v: RtcpFbValModel)
    requires
        v.well_formed(pt),
        i == seq![pt_text(pt)] + val_tokens(v),
    ensures
        parse_val(i, pt) == Ok::<RtcpFbValModel, AttributeErrorModel>(v),
{
    reveal_strlit("ack");
    reveal_strlit("nack");
    reveal_strlit("trr-int");
    reveal_strlit("ccm");
    reveal_strlit("rpsi");
    reveal_strlit("app");
    reveal_strlit("ccfb");
    reveal_strlit("pli");
    reveal_strlit("sli");
    reveal_strlit("ecn");
    reveal_strlit("fir");
    reveal_strlit("tmmbr");
    reveal_strlit("tstr");
    reveal_strlit("vbcm");
    assert("ack"@.len() != "nack"@.len() && "ack"@.len() != "trr-int"@.len());
    assert("nack"@.len() != "ccm"@.len() && "nack"@.len() != "trr-int"@.len());
    assert("trr-int"@.len() != "ccm"@.len());
    assert("nack"@[0] != "ack"@[0]);
    assert("ccm"@[0] != "ack"@[0]);
    assert("rpsi"@.len() != "app"@.len() && "rpsi"@[0] != "ccfb"@[0]);
    assert("app"@.len() != "ccfb"@.len());
    assert("pli"@[0] != "sli"@[0] && "pli"@[0] != "app"@[0] && "pli"@[0] != "ecn"@[0]);
    assert("sli"@[0] != "app"@[0] && "sli"@[0] != "ecn"@[0] && "app"@[0] != "ecn"@[0]);
    assert("rpsi"@.len() != "pli"@.len() && "rpsi"@.len() != "sli"@.len());
    assert("rpsi"@.len() != "ecn"@.len() && "rpsi"@.len() != "app"@.len());
    assert("fir"@.len() != "tmmbr"@.len() && "fir"@.len() != "tstr"@.len());
    assert("fir"@.len() != "vbcm"@.len() && "tmmbr"@.len() != "tstr"@.len());
    assert("tmmbr"@.len() != "vbcm"@.len() && "tstr"@[0] != "vbcm"@[0]);
    assert(i[1] == val_tokens(v)[0]);
    match v {
        RtcpFbValModel::Ccm(RtcpFbCcmModel::Vbcm(b)) => {
            assert forall|j: int| 0 <= j < b.len() implies i[3 + j] == decimal(
                #[trigger] b[j] as nat,
            ) by {}
            lemma_parse_bytes_round_trip(i, 3, b);
        },
        RtcpFbValModel::TrrInt(x) => {
            lemma_parse_decimal(x as nat, 0xffff_ffff_ffff_ffff);
        },
        _ => {},
    }
}

/// Reading back the textual form of a well-formed `rtcp-fb` value gives the value.
pub proof fn lemma_rtcpfb_round_trip(v: RtcpFbModel)
    requires
        v.well_formed(),
    ensures
        RtcpFbModel::spec_parse(v.spec_display()) == Ok::<RtcpFbModel, AttributeErrorModel>(v),
{
    reveal_strlit("*");
    lemma_val_tokens_no_space(v.val, v.pt);
    let t = v.tokens();
    match v.pt {
        RtcpFbPt::Fmt(p) => {
            lemma_decimal_has_no(p as nat, ' ');
            lemma_parse_decimal(p as nat, 255);
        },
        RtcpFbPt::Wildcard => {
            assert(!crate::text::all_digits("*"@)) by {
                assert(!crate::text::is_digit("*"@[0]));
            }
        },
    }
    assert forall|k: int| 0 <= k < t.len() implies has_no(#[trigger] t[k], ' ') by {
        if k > 0 {
            assert(t[k] == val_tokens(v.val)[k - 1]);
        }
    }
    lemma_split_join(t, ' ');
    lemma_parse_val_round_trip(t, v.pt, v.val);
}

/// The textual form of an `rtcp-fb` value read from text reads back as the
/// same value.
pub proof fn lemma_rtcpfb_canonical(s: Seq<char>)
    ensures
        RtcpFbModel::spec_parse(s) matches Ok(v) ==> RtcpFbModel::spec_parse(v.spec_display())
            == Ok::<RtcpFbModel, AttributeErrorModel>(v),
{
    if let Ok(v) = RtcpFbModel::spec_parse(s) {
        let i = split(s, ' ');
        lemma_split_pieces(s, ' ');
        assert(has_no(i[1], ' '));
        if i.len() >= 3 {
            assert(has_no(i[2], ' '));
        }
        if i.len() >= 4 {
            assert(has_no(i[3], ' '));
        }
        assert(v.well_formed());
        lemma_rtcpfb_round_trip(v);
    }
}

/// The feedback value is of the family that its first word names, and an
/// unknown first word is kept as it is.
pub proof fn lemma_feedback_families(i: Seq<Seq<char>>, pt: RtcpFbPt)
    requires
        i.len() >= 2,
    ensures
        parse_val(i, pt) matches Ok(RtcpFbValModel::Ack(_)) ==> i[1] == "ack"@,
        parse_val(i, pt) matches Ok(RtcpFbValModel::Nack(_)) ==> i[1] == "nack"@,
        parse_val(i, pt) matches Ok(RtcpFbValModel::TrrInt(_)) ==> i[1] == "trr-int"@,
        parse_val(i, pt) matches Ok(RtcpFbValModel::Ccm(_)) ==> i[1] == "ccm"@,
        parse_val(i, pt) matches Ok(RtcpFbValModel::Other(o)) ==> o == i[1] && i[1] != "ack"@ && i[1]
            != "nack"@ && i[1] != "trr-int"@ && i[1] != "ccm"@,
        i[1] == "ack"@ && i.len() == 2 ==> parse_val(i, pt) == Ok::<RtcpFbValModel, AttributeErrorModel>(RtcpFbValModel::Ack(None)),
        i[1] == "nack"@ && i.len() == 2 ==> parse_val(i, pt) == Ok::<RtcpFbValModel, AttributeErrorModel>(RtcpFbValModel::Nack(None)),
        i[1] == "trr-int"@ && i.len() >= 3 ==> (parse_uint(i[2], 0xffff_ffff_ffff_ffff) matches Some(n)
            ==> parse_val(i, pt) == Ok::<RtcpFbValModel, AttributeErrorModel>(RtcpFbValModel::TrrInt(n as u64))),
        i[1] != "ack"@ && i[1] != "nack"@ && i[1] != "trr-int"@ && i[1] != "ccm"@ ==> parse_val(i, pt) == Ok::<RtcpFbValModel, AttributeErrorModel>(
            RtcpFbValModel::Other(i[1]),
        ),
{
    reveal_strlit("ack");
    reveal_strlit("nack");
    reveal_strlit("trr-int");
    reveal_strlit("ccm");
    reveal_strlit("rpsi");
    reveal_strlit("app");
    reveal_strlit("ccfb");
    reveal_strlit("pli");
    reveal_strlit("sli");
    reveal_strlit("ecn");
    reveal_strlit("fir");
    reveal_strlit("tmmbr");
    reveal_strlit("tstr");
    reveal_strlit("vbcm");
    assert("ack"@.len() != "nack"@.len());
    assert("ack"@.len() != "trr-int"@.len());
    assert("ack"@[0] != "ccm"@[0]);
    assert("nack"@.len() != "trr-int"@.len());
    assert("nack"@.len() != "ccm"@.len());
    assert("trr-int"@.len() != "ccm"@.len());
}

/// Each registered positive acknowledgement is read from its own word.
pub proof fn lemma_ack_names(i: Seq<Seq<char>>, pt: RtcpFbPt)
    requires
        i.len() >= 2,
    ensures
        i[1] == "ack"@ && i.len() >= 3 ==> ((parse_val(i, pt) == Ok::<RtcpFbValModel, AttributeErrorModel>(RtcpFbValModel::Ack(Some(RtcpFbAckModel::Rpsi)))) <==> (i[2] == "rpsi"@)),
        i[1] == "ack"@ && i.len() >= 3 ==> ((parse_val(i, pt) == Ok::<RtcpFbValModel, AttributeErrorModel>(RtcpFbValModel::Ack(Some(RtcpFbAckModel::App(opt_token(i, 3)))))) <==> (i[2] == "app"@)),
        i[1] == "ack"@ && i.len() >= 3 ==> ((parse_val(i, pt) == Ok::<RtcpFbValModel, AttributeErrorModel>(RtcpFbValModel::Ack(Some(RtcpFbAckModel::Ccfb)))) <==> (i[2] == "ccfb"@ && pt == RtcpFbPt::Wildcard)),
{
    reveal_strlit("ack");
    reveal_strlit("nack");
    reveal_strlit("trr-int");
    reveal_strlit("ccm");
    reveal_strlit("rpsi");
    reveal_strlit("app");
    reveal_strlit("ccfb");
    reveal_strlit("pli");
    reveal_strlit("sli");
    reveal_strlit("ecn");
    reveal_strlit("fir");
    reveal_strlit("tmmbr");
    reveal_strlit("tstr");
    reveal_strlit("vbcm");
    assert("ack"@.len() != "nack"@.len());
    assert("ack"@.len() != "trr-int"@.len());
    assert("ack"@[0] != "ccm"@[0]);
    assert("nack"@.len() != "trr-int"@.len());
    assert("nack"@.len() != "ccm"@.len());
    assert("trr-int"@.len() != "ccm"@.len());
    assert("rpsi"@.len() != "app"@.len());
    assert("rpsi"@[0] != "ccfb"@[0]);
    assert("app"@.len() != "ccfb"@.len());
}

/// Each registered negative acknowledgement is read from its own word.
pub proof fn lemma_nack_names(i: Seq<Seq<char>>, pt: RtcpFbPt)
    requires
        i.len() >= 2,
    ensures
        i[1] == "nack"@ && i.len() >= 3 ==> ((parse_val(i, pt) == Ok::<RtcpFbValModel, AttributeErrorModel>(RtcpFbValModel::Nack(Some(RtcpFbNackModel::Pli)))) <==> (i[2] == "pli"@)),
        i[1] == "nack"@ && i.len() >= 3 ==> ((parse_val(i, pt) == Ok::<RtcpFbValModel, AttributeErrorModel>(RtcpFbValModel::Nack(Some(RtcpFbNackModel::Sli)))) <==> (i[2] == "sli"@)),
        i[1] == "nack"@ && i.len() >= 3 ==> ((parse_val(i, pt) == Ok::<RtcpFbValModel, AttributeErrorModel>(RtcpFbValModel::Nack(Some(RtcpFbNackModel::Rpsi)))) <==> (i[2] == "rpsi"@)),
        i[1] == "nack"@ && i.len() >= 3 ==> ((parse_val(i, pt) == Ok::<RtcpFbValModel, AttributeErrorModel>(RtcpFbValModel::Nack(Some(RtcpFbNackModel::App(opt_token(i, 3)))))) <==> (i[2] == "app"@)),
        i[1] == "nack"@ && i.len() >= 3 ==> ((parse_val(i, pt) == Ok::<RtcpFbValModel, AttributeErrorModel>(RtcpFbValModel::Nack(Some(RtcpFbNackModel::Ecn)))) <==> (i[2] == "ecn"@)),
{
    reveal_strlit("ack");
    reveal_strlit("nack");
    reveal_strlit("trr-int");
    reveal_strlit("ccm");
    reveal_strlit("rpsi");
    reveal_strlit("app");
    reveal_strlit("ccfb");
    reveal_strlit("pli");
    reveal_strlit("sli");
    reveal_strlit("ecn");
    reveal_strlit("fir");
    reveal_strlit("tmmbr");
    reveal_strlit("tstr");
    reveal_strlit("vbcm");
    assert("ack"@.len() != "nack"@.len());
    assert("ack"@.len() != "trr-int"@.len());
    assert("ack"@[0] != "ccm"@[0]);
    assert("nack"@.len() != "trr-int"@.len());
    assert("nack"@.len() != "ccm"@.len());
    assert("trr-int"@.len() != "ccm"@.len());
    assert("pli"@[0] != "sli"@[0]);
    assert("pli"@.len() != "rpsi"@.len());
    assert("pli"@[0] != "app"@[0]);
    assert("pli"@[0] != "ecn"@[0]);
    assert("sli"@.len() != "rpsi"@.len());
    assert("sli"@[0] != "app"@[0]);
    assert("sli"@[0] != "ecn"@[0]);
    assert("rpsi"@.len() != "app"@.len());
    assert("rpsi"@.len() != "ecn"@.len());
    assert("app"@[0] != "ecn"@[0]);
}

/// Each registered codec control message is read from its own word.
pub proof fn lemma_ccm_names(i: Seq<Seq<char>>, pt: RtcpFbPt)
    requires
        i.len() >= 2,
    ensures
        i[1] == "ccm"@ && i.len() >= 3 ==> ((parse_val(i, pt) == Ok::<RtcpFbValModel, AttributeErrorModel>(RtcpFbValModel::Ccm(RtcpFbCcmModel::Fir))) <==> (i[2] == "fir"@)),
        i[1] == "ccm"@ && i.len() >= 3 ==> ((parse_val(i, pt) == Ok::<RtcpFbValModel, AttributeErrorModel>(RtcpFbValModel::Ccm(RtcpFbCcmModel::Tmmbr(opt_token(i, 3))))) <==> (i[2] == "tmmbr"@)),
        i[1] == "ccm"@ && i.len() >= 3 ==> ((parse_val(i, pt) == Ok::<RtcpFbValModel, AttributeErrorModel>(RtcpFbValModel::Ccm(RtcpFbCcmModel::Tstr))) <==> (i[2] == "tstr"@)),
{
    reveal_strlit("ack");
    reveal_strlit("nack");
    reveal_strlit("trr-int");
    reveal_strlit("ccm");
    reveal_strlit("rpsi");
    reveal_strlit("app");
    reveal_strlit("ccfb");
    reveal_strlit("pli");
    reveal_strlit("sli");
    reveal_strlit("ecn");
    reveal_strlit("fir");
    reveal_strlit("tmmbr");
    reveal_strlit("tstr");
    reveal_strlit("vbcm");
    assert("ack"@.len() != "nack"@.len());
    assert("ack"@.len() != "trr-int"@.len());
    assert("ack"@[0] != "ccm"@[0]);
    assert("nack"@.len() != "trr-int"@.len());
    assert("nack"@.len() != "ccm"@.len());
    assert("trr-int"@.len() != "ccm"@.len());
    assert("fir"@.len() != "tmmbr"@.len());
    assert("fir"@.len() != "tstr"@.len());
    assert("tmmbr"@.len() != "tstr"@.len());
}

/// A video back channel message is read from the word `vbcm` alone.
pub proof fn lemma_vbcm_name(i: Seq<Seq<char>>, pt: RtcpFbPt)
    requires
        i.len() >= 2,
    ensures
        parse_val(i, pt) matches Ok(RtcpFbValModel::Ccm(RtcpFbCcmModel::Vbcm(_))) ==> i[1] == "ccm"@ && i[2]
            == "vbcm"@,
        i[1] == "ccm"@ && i.len() >= 3 && i[2] == "vbcm"@ ==> (parse_bytes(i, 3) matches Ok(b) ==> parse_val(i, pt)
            == Ok::<RtcpFbValModel, AttributeErrorModel>(RtcpFbValModel::Ccm(RtcpFbCcmModel::Vbcm(b)))),
{
    reveal_strlit("ack");
    reveal_strlit("nack");
    reveal_strlit("trr-int");
    reveal_strlit("ccm");
    reveal_strlit("rpsi");
    reveal_strlit("app");
    reveal_strlit("ccfb");
    reveal_strlit("pli");
    reveal_strlit("sli");
    reveal_strlit("ecn");
    reveal_strlit("fir");
    reveal_strlit("tmmbr");
    reveal_strlit("tstr");
    reveal_strlit("vbcm");
    assert("ack"@.len() != "nack"@.len());
    assert("ack"@.len() != "trr-int"@.len());
    assert("ack"@[0] != "ccm"@[0]);
    assert("nack"@.len() != "trr-int"@.len());
    assert("nack"@.len() != "ccm"@.len());
    assert("trr-int"@.len() != "ccm"@.len());
    assert("fir"@.len() != "tmmbr"@.len());
    assert("fir"@.len() != "tstr"@.len());
    assert("fir"@.len() != "vbcm"@.len());
    assert("tmmbr"@.len() != "tstr"@.len());
    assert("tmmbr"@.len() != "vbcm"@.len());
    assert("tstr"@[0] != "vbcm"@[0]);
}

/// Each feedback value is written as the words that name it, then its
/// parameters.
pub proof fn lemma_feedback_texts(p: Seq<char>, n: u64, b: Seq<u8>)
    ensures
        val_tokens(RtcpFbValModel::Ack(None)) == seq!["ack"@],
        val_tokens(RtcpFbValModel::Ack(Some(RtcpFbAckModel::Rpsi))) == seq!["ack"@, "rpsi"@],
        val_tokens(RtcpFbValModel::Ack(Some(RtcpFbAckModel::Ccfb))) == seq!["ack"@, "ccfb"@],
        val_tokens(RtcpFbValModel::Ack(Some(RtcpFbAckModel::App(None)))) == seq!["ack"@, "app"@],
        val_tokens(RtcpFbValModel::Ack(Some(RtcpFbAckModel::App(Some(p))))) == seq!["ack"@, "app"@, p],
        val_tokens(RtcpFbValModel::Ack(Some(RtcpFbAckModel::Other(p)))) == seq!["ack"@, p],
        val_tokens(RtcpFbValModel::Nack(None)) == seq!["nack"@],
        val_tokens(RtcpFbValModel::Nack(Some(RtcpFbNackModel::Pli))) == seq!["nack"@, "pli"@],
        val_tokens(RtcpFbValModel::Nack(Some(RtcpFbNackModel::Sli))) == seq!["nack"@, "sli"@],
        val_tokens(RtcpFbValModel::Nack(Some(RtcpFbNackModel::Rpsi))) == seq!["nack"@, "rpsi"@],
        val_tokens(RtcpFbValModel::Nack(Some(RtcpFbNackModel::Ecn))) == seq!["nack"@, "ecn"@],
        val_tokens(RtcpFbValModel::Nack(Some(RtcpFbNackModel::App(None)))) == seq!["nack"@, "app"@],
        val_tokens(RtcpFbValModel::Nack(Some(RtcpFbNackModel::App(Some(p))))) == seq!["nack"@, "app"@, p],
        val_tokens(RtcpFbValModel::Nack(Some(RtcpFbNackModel::Other(p)))) == seq!["nack"@, p],
        val_tokens(RtcpFbValModel::TrrInt(n)) == seq!["trr-int"@, decimal(n as nat)],
        val_tokens(RtcpFbValModel::Ccm(RtcpFbCcmModel::Fir)) == seq!["ccm"@, "fir"@],
        val_tokens(RtcpFbValModel::Ccm(RtcpFbCcmModel::Tstr)) == seq!["ccm"@, "tstr"@],
        val_tokens(RtcpFbValModel::Ccm(RtcpFbCcmModel::Tmmbr(None))) == seq!["ccm"@, "tmmbr"@],
        val_tokens(RtcpFbValModel::Ccm(RtcpFbCcmModel::Tmmbr(Some(p)))) == seq!["ccm"@, "tmmbr"@, p],
        val_tokens(RtcpFbValModel::Ccm(RtcpFbCcmModel::Vbcm(b))) == seq!["ccm"@, "vbcm"@] + b.map_values(|x: u8| decimal(x as nat)),
        val_tokens(RtcpFbValModel::Ccm(RtcpFbCcmModel::Other(p))) == seq!["ccm"@, p],
        val_tokens(RtcpFbValModel::Other(p)) == seq![p],
{
    assert(seq!["ack"@] + seq![p] =~= seq!["ack"@, p]);
}

} // verus!
