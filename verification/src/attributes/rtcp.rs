//! The `rtcp` attribute (RFC 3605 Section 2.1).

use crate::attributes::error::{
    invalid_value, param_not_found, result_model, trailing_item, AttributeError,
    AttributeErrorModel,
};
use crate::enums::{lemma_addr_type_no_space, lemma_addr_type_round_trip, lemma_net_type_no_space,
    lemma_net_type_round_trip, AddrType, NetType};
use crate::net::{
    ip_well_formed, lemma_ip_round_trip, lemma_parsed_ip_well_formed, parse_ip_chars, push_ip, spec_display_ip, spec_parse_ip,
    IpAddr, IpAddrModel,
};
use crate::text::{
    chars_of, decimal, lemma_decimal_has_no, lemma_parse_decimal, lemma_split_cons,
    lemma_split_single, lemma_split_len, parse_uint, parse_uint_chars, push_decimal, push_str,
    split, split_chars, string_of,
};
use vstd::prelude::*;

verus! {

/// RTCP port number and address
///
/// To be used if not algorithmically derived from the RTP port described in
/// the media line. See RFC 3605 Section 2.1.
#[derive(Debug, Clone, PartialEq)]
pub struct Rtcp {
    /// Port used for the media stream
    pub port: u16,
    /// Network Type
    pub nettype: NetType,
    /// Address type
    pub addrtype: AddrType,
    /// IP Address, unicast or multicast
    pub connection_address: IpAddr,
}

pub struct RtcpModel {
    pub port: u16,
    pub nettype: NetType,
    pub addrtype: AddrType,
    pub connection_address: IpAddrModel,
}

impl DeepView for Rtcp {
    type V = RtcpModel;

    open spec fn deep_view(&self) -> RtcpModel {
        RtcpModel {
            port: self.port,
            nettype: self.nettype,
            addrtype: self.addrtype,
            connection_address: self.connection_address.deep_view(),
        }
    }
}

impl RtcpModel {
    /// `<port> <nettype> <addrtype> <connection-address>`
    pub open spec fn spec_parse(s: Seq<char>) -> Result<RtcpModel, AttributeErrorModel> {
        let i = split(s, ' ');
        match parse_uint(i[0], 0xffff) {
            None => Err(
                AttributeErrorModel::InvalidParamValue { param: "Port"@, val: i[0], attr: "rtcp"@ },
            ),
            Some(port) => if i.len() < 2 {
                Err(AttributeErrorModel::ParamNotFound { param: "Network type"@, attr: "rtcp"@ })
            } else {
                match NetType::spec_from(i[1]) {
                    None => Err(
                        AttributeErrorModel::InvalidParamValue {
                            param: "Network type"@,
                            val: i[1],
                            attr: "rtcp"@,
                        },
                    ),
                    Some(nettype) => if i.len() < 3 {
                        Err(
                            AttributeErrorModel::ParamNotFound {
                                param: "Address type"@,
                                attr: "rtcp"@,
                            },
                        )
                    } else {
                        match AddrType::spec_from(i[2]) {
                            None => Err(
                                AttributeErrorModel::InvalidParamValue {
                                    param: "Address type"@,
                                    val: i[2],
                                    attr: "rtcp"@,
                                },
                            ),
                            Some(addrtype) => if i.len() < 4 {
                                Err(
                                    AttributeErrorModel::ParamNotFound {
                                        param: "Connection address"@,
                                        attr: "rtcp"@,
                                    },
                                )
                            } else {
                                match spec_parse_ip(i[3]) {
                                    None => Err(
                                        AttributeErrorModel::InvalidParamValue {
                                            param: "Connection address"@,
                                            val: i[3],
                                            attr: "rtcp"@,
                                        },
                                    ),
                                    Some(a) => if i.len() > 4 {
                                        Err(
                                            AttributeErrorModel::UnexpectedTrailingItem {
                                                val: i[4],
                                                attr: "rtcp"@,
                                            },
                                        )
                                    } else {
                                        Ok(
                                            RtcpModel {
                                                port: port as u16,
                                                nettype,
                                                addrtype,
                                                connection_address: a,
                                            },
                                        )
                                    },
                                }
                            },
                        }
                    },
                }
            },
        }
    }

    pub open spec fn spec_display(self) -> Seq<char> {
        decimal(self.port as nat) + seq![' '] + self.nettype.spec_str() + seq![' ']
            + self.addrtype.spec_str() + seq![' '] + spec_display_ip(self.connection_address)
    }

    pub open spec fn well_formed(self) -> bool {
        ip_well_formed(self.connection_address)
    }
}

impl Rtcp {
    pub fn from_chars(s: &Vec<char>) -> (r: Result<Rtcp, AttributeError>)
        ensures
            result_model(&r) == RtcpModel::spec_parse(s@),
    {
        let i = split_chars(s, ' ');
        proof {
            lemma_split_len(s@, ' ');
        }
        let port = match parse_uint_chars(&i[0], 0xffff) {
            None => return Err(invalid_value("Port", &i[0], "rtcp")),
            Some(p) => p,
        };
        if i.len() < 2 {
            return Err(param_not_found("Network type", "rtcp"));
        }
        let nettype = match NetType::from_chars(&i[1]) {
            None => return Err(invalid_value("Network type", &i[1], "rtcp")),
            Some(n) => n,
        };
        if i.len() < 3 {
            return Err(param_not_found("Address type", "rtcp"));
        }
        let addrtype = match AddrType::from_chars(&i[2]) {
            None => return Err(invalid_value("Address type", &i[2], "rtcp")),
            Some(a) => a,
        };
        if i.len() < 4 {
            return Err(param_not_found("Connection address", "rtcp"));
        }
        let connection_address = match parse_ip_chars(&i[3]) {
            None => return Err(invalid_value("Connection address", &i[3], "rtcp")),
            Some(a) => a,
        };
        if i.len() > 4 {
            return Err(trailing_item(&i[4], "rtcp"));
        }
        Ok(Rtcp { port: port as u16, nettype, addrtype, connection_address })
    }

    pub fn from_str(s: &str) -> (r: Result<Rtcp, AttributeError>)
        ensures
            result_model(&r) == RtcpModel::spec_parse(s@),
    {
        Self::from_chars(&chars_of(s))
    }

    pub fn to_string(&self) -> (r: String)
        ensures
            r@ == self.deep_view().spec_display(),
    {
        let mut out: Vec<char> = Vec::new();
        push_decimal(&mut out, self.port as u64);
        out.push(' ');
        push_str(&mut out, self.nettype.as_str());
        out.push(' ');
        push_str(&mut out, self.addrtype.as_str());
        out.push(' ');
        push_ip(&mut out, &self.connection_address);
        assert(out@ =~= self.deep_view().spec_display());
        string_of(&out)
    }
}

impl std::str::FromStr for Rtcp {
    type Err = AttributeError;

    fn from_str(s: &str) -> (r: Result<Rtcp, AttributeError>)
        ensures
            result_model(&r) == RtcpModel::spec_parse(s@),
    {
        Rtcp::from_str(s)
    }
}

/// Reading back the textual form of an `rtcp` value gives the value.
pub proof fn lemma_rtcp_round_trip(v: RtcpModel)
    requires
        v.well_formed(),
    ensures
        RtcpModel::spec_parse(v.spec_display()) == Ok::<RtcpModel, AttributeErrorModel>(v),
{
    let p = decimal(v.port as nat);
    let n = v.nettype.spec_str();
    let a = v.addrtype.spec_str();
    let ip = spec_display_ip(v.connection_address);
    assert(v.spec_display() =~= p + seq![' '] + (n + seq![' '] + (a + seq![' '] + ip)));
    lemma_decimal_has_no(v.port as nat, ' ');
    lemma_net_type_no_space(v.nettype);
    lemma_addr_type_no_space(v.addrtype);
    lemma_ip_round_trip(v.connection_address);
    lemma_split_cons(p, ' ', n + seq![' '] + (a + seq![' '] + ip));
    lemma_split_cons(n, ' ', a + seq![' '] + ip);
    lemma_split_cons(a, ' ', ip);
    lemma_split_single(ip, ' ');
    assert(split(v.spec_display(), ' ') =~= seq![p, n, a, ip]);
    lemma_rtcp_parse_pieces(v, p, n, a, ip);
}

proof fn lemma_rtcp_parse_pieces(
    v: RtcpModel,
    p: Seq<char>,
    n: Seq<char>,
    a: Seq<char>,
    ip: Seq<char>,
)
    requires
        split(v.spec_display(), ' ') == seq![p, n, a, ip],
        p == decimal(v.port as nat),
        n == v.nettype.spec_str(),
        a == v.addrtype.spec_str(),
        spec_parse_ip(ip) == Some(v.connection_address),
    ensures
        RtcpModel::spec_parse(v.spec_display()) == Ok::<RtcpModel, AttributeErrorModel>(v),
{
    let i = split(v.spec_display(), ' ');
    assert(i[0] == p && i[1] == n && i[2] == a && i[3] == ip);
    lemma_parse_decimal(v.port as nat, 0xffff);
    lemma_net_type_round_trip(v.nettype);
    lemma_addr_type_round_trip(v.addrtype);
}

/// The textual form of an `rtcp` value read from text reads back as the same
/// value.
pub proof fn lemma_rtcp_canonical(s: Seq<char>)
    ensures
        RtcpModel::spec_parse(s) matches Ok(v) ==> RtcpModel::spec_parse(v.spec_display())
            == Ok::<RtcpModel, AttributeErrorModel>(v),
{
    if let Ok(v) = RtcpModel::spec_parse(s) {
        lemma_parsed_ip_well_formed(split(s, ' ')[3]);
        lemma_rtcp_round_trip(v);
    }
}

} // verus!
