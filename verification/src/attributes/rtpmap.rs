//! The `rtpmap` attribute (RFC 8866 Section 6.6).

use crate::attributes::error::{
    invalid_value, out_of_range, param_not_found, result_model, unsupported_format, AttributeError,
    AttributeErrorModel,
};
use crate::text::{
    lemma_splitn_pieces,
    chars_of, decimal, has_no, lemma_decimal_has_no, lemma_parse_decimal, lemma_split_cons,
    lemma_split_single, lemma_splitn_len, parse_uint, parse_uint_chars, push_decimal, push_string,
    split_once, split_once_chars, splitn, splitn_chars, string_of,
};
use vstd::prelude::*;

verus! {

/// RtpMap Attribute
///
/// See RFC 8866 Section 6.6.
#[derive(Debug, Clone, PartialEq)]
pub struct RtpMap {
    /// Payload type, a numerical value between 0 and 127
    pub payload_type: u8,
    /// Name of the encoding
    pub encoding_name: String,
    /// Clock rate
    pub clock_rate: u32,
    /// Encoding parameters.
    ///
    /// Currently used only for audio channel count
    pub encoding_params: Option<String>,
}

pub struct RtpMapModel {
    pub payload_type: u8,
    pub encoding_name: Seq<char>,
    pub clock_rate: u32,
    pub encoding_params: Option<Seq<char>>,
}

impl DeepView for RtpMap {
    type V = RtpMapModel;

    open spec fn deep_view(&self) -> RtpMapModel {
        RtpMapModel {
            payload_type: self.payload_type,
            encoding_name: self.encoding_name@,
            clock_rate: self.clock_rate,
            encoding_params: self.encoding_params.deep_view(),
        }
    }
}

impl RtpMapModel {
    /// `<payload type> <encoding name>/<clock rate>[/<encoding parameters>]`
    pub open spec fn spec_parse(s: Seq<char>) -> Result<RtpMapModel, AttributeErrorModel> {
        match split_once(s, ' ') {
            None => Err(AttributeErrorModel::UnsupportedFormat { val: s, attr: "rtpmap"@ }),
            Some((pt, rest)) => match parse_uint(pt, 255) {
                None => Err(
                    AttributeErrorModel::InvalidParamValue {
                        param: "Payload type"@,
                        val: pt,
                        attr: "rtpmap"@,
                    },
                ),
                Some(p) => if p > 127 {
                    Err(
                        AttributeErrorModel::InvalidParamValue {
                            param: "Payload type"@,
                            val: decimal(p) + "(expected 0-127)"@,
                            attr: "rtpmap"@,
                        },
                    )
                } else {
                    let parts = splitn(rest, 3, '/');
                    if parts.len() < 2 {
                        Err(
                            AttributeErrorModel::ParamNotFound {
                                param: "Clock rate"@,
                                attr: "rtpmap"@,
                            },
                        )
                    } else {
                        match parse_uint(parts[1], 0xffff_ffff) {
                            None => Err(
                                AttributeErrorModel::InvalidParamValue {
                                    param: "Clock rate"@,
                                    val: parts[1],
                                    attr: "rtpmap"@,
                                },
                            ),
                            Some(clock_rate) => Ok(
                                RtpMapModel {
                                    payload_type: p as u8,
                                    encoding_name: parts[0],
                                    clock_rate: clock_rate as u32,
                                    encoding_params: if parts.len() > 2 {
                                        Some(parts[2])
                                    } else {
                                        None
                                    },
                                },
                            ),
                        }
                    }
                }
            },
        }
    }

    pub open spec fn spec_display(self) -> Seq<char> {
        decimal(self.payload_type as nat) + seq![' '] + self.encoding_name + seq!['/'] + decimal(
            self.clock_rate as nat,
        ) + match self.encoding_params {
            Some(p) => seq!['/'] + p,
            None => seq![],
        }
    }

    /// The values that the textual form carries unchanged.
    pub open spec fn well_formed(self) -> bool {
        self.payload_type <= 127 && has_no(self.encoding_name, '/')
    }
}

impl RtpMap {
    pub fn from_chars(s: &Vec<char>) -> (r: Result<RtpMap, AttributeError>)
        ensures
            result_model(&r) == RtpMapModel::spec_parse(s@),
    {
        let (pt, rest) = match split_once_chars(s, ' ') {
            None => return Err(unsupported_format(s, "rtpmap")),
            Some(x) => x,
        };
        let p = match parse_uint_chars(&pt, 255) {
            None => return Err(invalid_value("Payload type", &pt, "rtpmap")),
            Some(p) => p,
        };
        if p > 127 {
            return Err(out_of_range("Payload type", p, "(expected 0-127)", "rtpmap"));
        }
        let parts = splitn_chars(&rest, 3, '/');
        proof {
            lemma_splitn_len(rest@, 3, '/');
        }
        if parts.len() < 2 {
            return Err(param_not_found("Clock rate", "rtpmap"));
        }
        let clock_rate = match parse_uint_chars(&parts[1], 0xffff_ffff) {
            None => return Err(invalid_value("Clock rate", &parts[1], "rtpmap")),
            Some(c) => c,
        };
        let encoding_params = if parts.len() > 2 {
            Some(string_of(&parts[2]))
        } else {
            None
        };
        Ok(
            RtpMap {
                payload_type: p as u8,
                encoding_name: string_of(&parts[0]),
                clock_rate: clock_rate as u32,
                encoding_params,
            },
        )
    }

    pub fn from_str(s: &str) -> (r: Result<RtpMap, AttributeError>)
        ensures
            result_model(&r) == RtpMapModel::spec_parse(s@),
    {
        Self::from_chars(&chars_of(s))
    }

    pub fn to_string(&self) -> (r: String)
        ensures
            r@ == self.deep_view().spec_display(),
    {
        let mut out: Vec<char> = Vec::new();
        push_decimal(&mut out, self.payload_type as u64);
        out.push(' ');
        push_string(&mut out, &self.encoding_name);
        out.push('/');
        push_decimal(&mut out, self.clock_rate as u64);
        let ghost before = out@;
        match &self.encoding_params {
            Some(p) => {
                out.push('/');
                push_string(&mut out, p);
            },
            None => {},
        }
        assert(out@ =~= self.deep_view().spec_display());
        string_of(&out)
    }
}

impl std::str::FromStr for RtpMap {
    type Err = AttributeError;

    fn from_str(s: &str) -> (r: Result<RtpMap, AttributeError>)
        ensures
            result_model(&r) == RtpMapModel::spec_parse(s@),
    {
        RtpMap::from_str(s)
    }
}

/// Reading back the textual form of a well-formed `rtpmap` value gives the value.
pub proof fn lemma_rtpmap_round_trip(v: RtpMapModel)
    requires
        v.well_formed(),
    ensures
        RtpMapModel::spec_parse(v.spec_display()) == Ok::<RtpMapModel, AttributeErrorModel>(v),
{
    let pt = decimal(v.payload_type as nat);
    let cr = decimal(v.clock_rate as nat);
    let tail = match v.encoding_params {
        Some(p) => seq!['/'] + p,
        None => seq![],
    };
    let rest = v.encoding_name + seq!['/'] + (cr + tail);
    assert(v.spec_display() =~= pt + seq![' '] + rest);
    lemma_decimal_has_no(v.payload_type as nat, ' ');
    lemma_split_cons(pt, ' ', rest);
    lemma_parse_decimal(v.payload_type as nat, 255);
    lemma_split_cons(v.encoding_name, '/', cr + tail);
    lemma_decimal_has_no(v.clock_rate as nat, '/');
    match v.encoding_params {
        Some(p) => {
            assert(cr + tail =~= cr + seq!['/'] + p);
            lemma_split_cons(cr, '/', p);
            assert(splitn(p, 1, '/') == seq![p]);
            assert(splitn(rest, 3, '/') =~= seq![v.encoding_name, cr, p]);
        },
        None => {
            assert(cr + tail =~= cr);
            lemma_split_single(cr, '/');
            assert(splitn(rest, 3, '/') =~= seq![v.encoding_name, cr]);
        },
    }
    lemma_parse_decimal(v.clock_rate as nat, 0xffff_ffff);
}

/// The textual form of an `rtpmap` value read from text reads back as the
/// same value.
pub proof fn lemma_rtpmap_canonical(s: Seq<char>)
    ensures
        RtpMapModel::spec_parse(s) matches Ok(v) ==> RtpMapModel::spec_parse(v.spec_display())
            == Ok::<RtpMapModel, AttributeErrorModel>(v),
{
    if let Ok(v) = RtpMapModel::spec_parse(s) {
        if let Some((pt, rest)) = split_once(s, ' ') {
            lemma_splitn_pieces(rest, 3, '/');
            lemma_splitn_len(rest, 3, '/');
            assert(has_no(splitn(rest, 3, '/')[0], '/'));
        }
        lemma_rtpmap_round_trip(v);
    }
}

} // verus!
