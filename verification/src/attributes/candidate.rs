//! The `candidate` attribute of ICE (RFC 8839 Section 5.1).

use crate::attributes::error::{
    invalid_value, other_error, param_not_found, result_model, AttributeError, AttributeErrorModel,
};
use crate::net::{
    ip_well_formed, lemma_ip_round_trip, lemma_parsed_ip_well_formed, parse_ip_chars, push_ip, spec_display_ip, spec_parse_ip,
    IpAddr, IpAddrModel,
};
use crate::text::{
    lemma_split_pieces,
    lemma_eq_ignore_case_trans_iff,
    chars_of, decimal, eq_ignore_case, eq_ignore_case_lit, has_no, join, join_chars,
    lemma_decimal_has_no, lemma_eq_ignore_case_refl, lemma_ne_ignore_case, lemma_parse_decimal,
    lemma_split_join, lemma_split_len, parse_uint, parse_uint_chars, push_decimal, push_str,
    split, split_chars, string_of, views,
};
use vstd::prelude::*;

verus! {

#[derive(Debug, PartialEq, Clone)]
pub enum CandidateType {
    /// Host
    Host,
    /// Server-reflexive
    Srflx,
    /// Peer-reflexive
    Prflx,
    /// Relay
    Relay,
    /// Unknown type
    Other(String),
}

pub enum CandidateTypeModel {
    Host,
    Srflx,
    Prflx,
    Relay,
    Other(Seq<char>),
}

impl DeepView for CandidateType {
    type V = CandidateTypeModel;

    open spec fn deep_view(&self) -> CandidateTypeModel {
        match self {
            CandidateType::Host => CandidateTypeModel::Host,
            CandidateType::Srflx => CandidateTypeModel::Srflx,
            CandidateType::Prflx => CandidateTypeModel::Prflx,
            CandidateType::Relay => CandidateTypeModel::Relay,
            CandidateType::Other(s) => CandidateTypeModel::Other(s@),
        }
    }
}

/// Candidate connection address type
///
/// Can be IPv4, IPv6 or a FQDN
#[derive(Debug, PartialEq, Clone)]
pub enum CandidateAddress {
    IpAddr(IpAddr),
    FQDN(String),
}

pub enum CandidateAddressModel {
    IpAddr(IpAddrModel),
    FQDN(Seq<char>),
}

impl DeepView for CandidateAddress {
    type V = CandidateAddressModel;

    open spec fn deep_view(&self) -> CandidateAddressModel {
        match self {
            CandidateAddress::IpAddr(a) => CandidateAddressModel::IpAddr(a.deep_view()),
            CandidateAddress::FQDN(s) => CandidateAddressModel::FQDN(s@),
        }
    }
}

/// ICE Candidate attribute of the media
///
/// See RFC 8839 Section 5.1.
#[derive(Debug, PartialEq, Clone)]
pub struct Candidate {
    /// Arbitrary string used in the freezing algorithm to group similar candidates
    /// (RFC 8445 Section 5.1.1.3)
    pub foundation: String,
    /// Identifies the specific component of the data stream
    /// 1 for RTP and 2 for RTCP
    pub component_id: u32,
    /// Transport protocol of the candidate
    pub transport: String,
    /// Candidate's priority
    pub priority: u64,
    /// IP address of the candidate
    /// IPv4, IPv6 addresses and FQDN allowed
    pub address: CandidateAddress,
    /// Port of the candidate
    pub port: u16,
    /// Type of the candidate
    pub typ: CandidateType,
    /// Address related to the candidate
    /// Required for srflx, prflx and relay type candidates
    pub rel_addr: Option<IpAddr>,
    /// Port related to the candidate
    /// Required for srflx, prflx and relay type candidates
    pub rel_port: Option<u16>,
    /// Extensions
    pub extensions: Vec<(String, String)>,
}

pub struct CandidateModel {
    pub foundation: Seq<char>,
    pub component_id: u32,
    pub transport: Seq<char>,
    pub priority: u64,
    pub address: CandidateAddressModel,
    pub port: u16,
    pub typ: CandidateTypeModel,
    pub rel_addr: Option<IpAddrModel>,
    pub rel_port: Option<u16>,
    pub extensions: Seq<(Seq<char>, Seq<char>)>,
}

pub open spec fn opt_ip_model(a: Option<IpAddr>) -> Option<IpAddrModel> {
    match a {
        Some(x) => Some(x.deep_view()),
        None => None,
    }
}

impl DeepView for Candidate {
    type V = CandidateModel;

    open spec fn deep_view(&self) -> CandidateModel {
        CandidateModel {
            foundation: self.foundation@,
            component_id: self.component_id,
            transport: self.transport@,
            priority: self.priority,
            address: self.address.deep_view(),
            port: self.port,
            typ: self.typ.deep_view(),
            rel_addr: opt_ip_model(self.rel_addr),
            rel_port: self.rel_port,
            extensions: self.extensions.deep_view(),
        }
    }
}

/// The candidate type named by `t`, in any ASCII case.
pub open spec fn type_from(t: Seq<char>) -> CandidateTypeModel {
    if eq_ignore_case(t, "host"@) {
        CandidateTypeModel::Host
    } else if eq_ignore_case(t, "srflx"@) {
        CandidateTypeModel::Srflx
    } else if eq_ignore_case(t, "prflx"@) {
        CandidateTypeModel::Prflx
    } else if eq_ignore_case(t, "relay"@) {
        CandidateTypeModel::Relay
    } else {
        CandidateTypeModel::Other(t)
    }
}

pub open spec fn type_text(t: CandidateTypeModel) -> Seq<char> {
    match t {
        CandidateTypeModel::Host => "host"@,
        CandidateTypeModel::Srflx => "srflx"@,
        CandidateTypeModel::Prflx => "prflx"@,
        CandidateTypeModel::Relay => "relay"@,
        CandidateTypeModel::Other(o) => o,
    }
}

/// An address that reads as an IP address is one; any other text is a name.
pub open spec fn address_from(a: Seq<char>) -> CandidateAddressModel {
    match spec_parse_ip(a) {
        Some(x) => CandidateAddressModel::IpAddr(x),
        None => CandidateAddressModel::FQDN(a),
    }
}

pub open spec fn address_text(a: CandidateAddressModel) -> Seq<char> {
    match a {
        CandidateAddressModel::IpAddr(x) => spec_display_ip(x),
        CandidateAddressModel::FQDN(f) => f,
    }
}

/// What the pairs after the candidate type set: the related address, the
/// related port and the extensions.
pub type CandidateTail = (Option<IpAddrModel>, Option<u16>, Seq<(Seq<char>, Seq<char>)>);

/// Reads the key-value pairs `i[k..]`: `raddr` and `rport` (in any ASCII
/// case) set the related address and port, the last one winning; every
/// other key is an extension.
pub open spec fn parse_tail(i: Seq<Seq<char>>, k: int, acc: CandidateTail) -> Result<
    CandidateTail,
    AttributeErrorModel,
>
    decreases i.len() - k,
{
    if k < 0 || k >= i.len() {
        Ok(acc)
    } else {
        let key = i[k];
        if eq_ignore_case(key, "raddr"@) {
            if k + 1 >= i.len() {
                Err(
                    AttributeErrorModel::ParamNotFound {
                        param: "Relative address"@,
                        attr: "candidate"@,
                    },
                )
            } else {
                match spec_parse_ip(i[k + 1]) {
                    Some(a) => parse_tail(i, k + 2, (Some(a), acc.1, acc.2)),
                    None => Err(
                        AttributeErrorModel::InvalidParamValue {
                            param: "Relative address"@,
                            val: i[k + 1],
                            attr: "candidate"@,
                        },
                    ),
                }
            }
        } else if eq_ignore_case(key, "rport"@) {
            if k + 1 >= i.len() {
                Err(
                    AttributeErrorModel::ParamNotFound {
                        param: "Relative port"@,
                        attr: "candidate"@,
                    },
                )
            } else {
                match parse_uint(i[k + 1], 0xffff) {
                    Some(p) => parse_tail(i, k + 2, (acc.0, Some(p as u16), acc.2)),
                    None => Err(
                        AttributeErrorModel::InvalidParamValue {
                            param: "Relative port"@,
                            val: i[k + 1],
                            attr: "candidate"@,
                        },
                    ),
                }
            }
        } else {
            if k + 1 >= i.len() {
                Err(
                    AttributeErrorModel::Other {
                        error: "No val for the extension "@ + key,
                        attr: "candidate"@,
                    },
                )
            } else {
                parse_tail(i, k + 2, (acc.0, acc.1, acc.2.push((key, i[k + 1]))))
            }
        }
    }
}

pub open spec fn not_found(param: Seq<char>) -> AttributeErrorModel {
    AttributeErrorModel::ParamNotFound { param, attr: "candidate"@ }
}

pub open spec fn invalid(param: Seq<char>, val: Seq<char>) -> AttributeErrorModel {
    AttributeErrorModel::InvalidParamValue { param, val, attr: "candidate"@ }
}

/// The extensions as alternating keys and values.
pub open spec fn ext_tokens(e: Seq<(Seq<char>, Seq<char>)>) -> Seq<Seq<char>> {
    Seq::new(
        2 * e.len(),
        |t: int|
            if t % 2 == 0 {
                e[t / 2].0
            } else {
                e[t / 2].1
            },
    )
}

impl CandidateModel {
    /// `<foundation> <component-id> <transport> <priority> <address> <port>
    /// typ <type>` followed by key-value pairs, all separated by single spaces.
    pub open spec fn spec_parse(s: Seq<char>) -> Result<CandidateModel, AttributeErrorModel> {
        let i = split(s, ' ');
        if i.len() < 2 {
            Err(not_found("Component id"@))
        } else {
            match parse_uint(i[1], 0xffff_ffff) {
                None => Err(invalid("Component id"@, i[1])),
                Some(component_id) => if i.len() < 3 {
                    Err(not_found("Transport"@))
                } else if i.len() < 4 {
                    Err(not_found("Priority"@))
                } else {
                    match parse_uint(i[3], 0xffff_ffff_ffff_ffff) {
                        None => Err(invalid("Priority"@, i[3])),
                        Some(priority) => if i.len() < 5 {
                            Err(not_found("Address"@))
                        } else if i.len() < 6 {
                            Err(not_found("Port"@))
                        } else {
                            match parse_uint(i[5], 0xffff) {
                                None => Err(invalid("Port"@, i[5])),
                                Some(port) => if i.len() < 7 || !eq_ignore_case(i[6], "typ"@) {
                                    Err(not_found("'typ' string"@))
                                } else if i.len() < 8 {
                                    Err(not_found("Candidate type"@))
                                } else {
                                    match parse_tail(i, 8, (None, None, seq![])) {
                                        Err(e) => Err(e),
                                        Ok(t) => Ok(
                                            CandidateModel {
                                                foundation: i[0],
                                                component_id: component_id as u32,
                                                transport: i[2],
                                                priority: priority as u64,
                                                address: address_from(i[4]),
                                                port: port as u16,
                                                typ: type_from(i[7]),
                                                rel_addr: t.0,
                                                rel_port: t.1,
                                                extensions: t.2,
                                            },
                                        ),
                                    }
                                },
                            }
                        },
                    }
                },
            }
        }
    }

    /// The tokens of the textual form.
    pub open spec fn tokens(self) -> Seq<Seq<char>> {
        seq![
            self.foundation,
            decimal(self.component_id as nat),
            self.transport,
            decimal(self.priority as nat),
            address_text(self.address),
            decimal(self.port as nat),
            "typ"@,
            type_text(self.typ),
        ] + match self.rel_addr {
            Some(a) => seq!["raddr"@, spec_display_ip(a)],
            None => seq![],
        } + match self.rel_port {
            Some(p) => seq!["rport"@, decimal(p as nat)],
            None => seq![],
        } + ext_tokens(self.extensions)
    }

    pub open spec fn spec_display(self) -> Seq<char> {
        join(self.tokens(), ' ')
    }

    /// The values that the textual form carries unchanged: no spaces inside
    /// the tokens, a name that does not read as an IP address, an unknown
    /// type and extension keys that do not read as known words.
    pub open spec fn well_formed(self) -> bool {
        &&& has_no(self.foundation, ' ')
        &&& has_no(self.transport, ' ')
        &&& match self.address {
            CandidateAddressModel::IpAddr(a) => ip_well_formed(a),
            CandidateAddressModel::FQDN(f) => has_no(f, ' ') && spec_parse_ip(f) is None,
        }
        &&& match self.typ {
            CandidateTypeModel::Other(t) => has_no(t, ' ') && !eq_ignore_case(t, "host"@)
                && !eq_ignore_case(t, "srflx"@) && !eq_ignore_case(t, "prflx"@) && !eq_ignore_case(
                t,
                "relay"@,
            ),
            _ => true,
        }
        &&& match self.rel_addr {
            Some(a) => ip_well_formed(a),
            None => true,
        }
        &&& forall|j: int|
            0 <= j < self.extensions.len() ==> {
                &&& has_no(#[trigger] self.extensions[j].0, ' ')
                &&& has_no(self.extensions[j].1, ' ')
                &&& !eq_ignore_case(self.extensions[j].0, "raddr"@)
                &&& !eq_ignore_case(self.extensions[j].0, "rport"@)
            }
    }
}

fn type_from_chars(t: &Vec<char>) -> (r: CandidateType)
    ensures
        r.deep_view() == type_from(t@),
{
    if eq_ignore_case_lit(t, "host") {
        CandidateType::Host
    } else if eq_ignore_case_lit(t, "srflx") {
        CandidateType::Srflx
    } else if eq_ignore_case_lit(t, "prflx") {
        CandidateType::Prflx
    } else if eq_ignore_case_lit(t, "relay") {
        CandidateType::Relay
    } else {
        CandidateType::Other(string_of(t))
    }
}

fn no_val_error(key: &Vec<char>) -> (e: AttributeError)
    ensures
        e.deep_view() == (AttributeErrorModel::Other {
            error: "No val for the extension "@ + key@,
            attr: "candidate"@,
        }),
{
    let mut m: Vec<char> = Vec::new();
    push_str(&mut m, "No val for the extension ");
    crate::text::push_chars(&mut m, key);
    other_error(&m, "candidate")
}

proof fn lemma_ext_tokens_push(e: Seq<(Seq<char>, Seq<char>)>, j: int)
    requires
        0 <= j < e.len(),
    ensures
        ext_tokens(e.take(j + 1)) == ext_tokens(e.take(j)).push(e[j].0).push(e[j].1),
{
    let a = ext_tokens(e.take(j + 1));
    let b = ext_tokens(e.take(j)).push(e[j].0).push(e[j].1);
    assert forall|t: int| 0 <= t < a.len() implies a[t] == b[t] by {
        if t < 2 * j {
            assert(e.take(j + 1)[t / 2] == e.take(j)[t / 2]);
        } else if t == 2 * j {
            assert(t / 2 == j);
        } else {
            assert(t / 2 == j);
        }
    }
    assert(a =~= b);
}

impl Candidate {
    #[verifier::loop_isolation(false)]
    pub fn from_chars(s: &Vec<char>) -> (r: Result<Candidate, AttributeError>)
        ensures
            result_model(&r) == CandidateModel::spec_parse(s@),
    {
        let i = split_chars(s, ' ');
        proof {
            lemma_split_len(s@, ' ');
        }
        let n: usize = i.len();
        if n < 2 {
            return Err(param_not_found("Component id", "candidate"));
        }
        let component_id = match parse_uint_chars(&i[1], 0xffff_ffff) {
            None => return Err(invalid_value("Component id", &i[1], "candidate")),
            Some(c) => c,
        };
        if n < 3 {
            return Err(param_not_found("Transport", "candidate"));
        }
        if n < 4 {
            return Err(param_not_found("Priority", "candidate"));
        }
        let priority = match parse_uint_chars(&i[3], 0xffff_ffff_ffff_ffff) {
            None => return Err(invalid_value("Priority", &i[3], "candidate")),
            Some(p) => p,
        };
        if n < 5 {
            return Err(param_not_found("Address", "candidate"));
        }
        let address = match parse_ip_chars(&i[4]) {
            Some(a) => CandidateAddress::IpAddr(a),
            None => CandidateAddress::FQDN(string_of(&i[4])),
        };
        if n < 6 {
            return Err(param_not_found("Port", "candidate"));
        }
        let port = match parse_uint_chars(&i[5], 0xffff) {
            None => return Err(invalid_value("Port", &i[5], "candidate")),
            Some(p) => p,
        };
        if n < 7 || !eq_ignore_case_lit(&i[6], "typ") {
            return Err(param_not_found("'typ' string", "candidate"));
        }
        if n < 8 {
            return Err(param_not_found("Candidate type", "candidate"));
        }
        let typ = type_from_chars(&i[7]);
        let mut rel_addr: Option<IpAddr> = None;
        let mut rel_port: Option<u16> = None;
        let mut extensions: Vec<(String, String)> = Vec::new();
        let ghost start: CandidateTail = (None, None, seq![]);
        assert(extensions.deep_view() =~= Seq::<(Seq<char>, Seq<char>)>::empty());
        let mut k: usize = 8;
        while k < n
            invariant
                n == i@.len(),
                8 <= k,
                parse_tail(views(i@), 8, start) == parse_tail(
                    views(i@),
                    k as int,
                    (opt_ip_model(rel_addr), rel_port, extensions.deep_view()),
                ),
            decreases n - k,
        {
            let key = &i[k];
            if eq_ignore_case_lit(key, "raddr") {
                if k + 1 >= n {
                    return Err(param_not_found("Relative address", "candidate"));
                }
                match parse_ip_chars(&i[k + 1]) {
                    Some(a) => {
                        rel_addr = Some(a);
                    },
                    None => return Err(invalid_value("Relative address", &i[k + 1], "candidate")),
                }
            } else if eq_ignore_case_lit(key, "rport") {
                if k + 1 >= n {
                    return Err(param_not_found("Relative port", "candidate"));
                }
                match parse_uint_chars(&i[k + 1], 0xffff) {
                    Some(p) => {
                        rel_port = Some(p as u16);
                    },
                    None => return Err(invalid_value("Relative port", &i[k + 1], "candidate")),
                }
            } else {
                if k + 1 >= n {
                    return Err(no_val_error(key));
                }
                let ghost before = extensions.deep_view();
                extensions.push((string_of(key), string_of(&i[k + 1])));
                assert(extensions.deep_view() =~= before.push((key@, i@[k + 1]@)));
            }
            k = k + 2;
        }
        let r = Candidate {
            foundation: string_of(&i[0]),
            component_id: component_id as u32,
            transport: string_of(&i[2]),
            priority,
            address,
            port: port as u16,
            typ,
            rel_addr,
            rel_port,
            extensions,
        };
        Ok(r)
    }

    pub fn from_str(s: &str) -> (r: Result<Candidate, AttributeError>)
        ensures
            result_model(&r) == CandidateModel::spec_parse(s@),
    {
        Self::from_chars(&chars_of(s))
    }

    pub fn to_string(&self) -> (r: String)
        ensures
            r@ == self.deep_view().spec_display(),
    {
        let mut t: Vec<Vec<char>> = Vec::new();
        t.push(chars_of(self.foundation.as_str()));
        t.push(decimal_chars(self.component_id as u64));
        t.push(chars_of(self.transport.as_str()));
        t.push(decimal_chars(self.priority));
        let addr = match &self.address {
            CandidateAddress::IpAddr(a) => {
                let mut v: Vec<char> = Vec::new();
                push_ip(&mut v, a);
                v
            },
            CandidateAddress::FQDN(d) => chars_of(d.as_str()),
        };
        t.push(addr);
        t.push(decimal_chars(self.port as u64));
        t.push(chars_of("typ"));
        let typ = match &self.typ {
            CandidateType::Host => chars_of("host"),
            CandidateType::Srflx => chars_of("srflx"),
            CandidateType::Prflx => chars_of("prflx"),
            CandidateType::Relay => chars_of("relay"),
            CandidateType::Other(o) => chars_of(o.as_str()),
        };
        t.push(typ);
        let ghost m = self.deep_view();
        let ghost head = views(t@);
        if let Some(a) = &self.rel_addr {
            t.push(chars_of("raddr"));
            let mut v: Vec<char> = Vec::new();
            push_ip(&mut v, a);
            t.push(v);
        }
        if let Some(p) = self.rel_port {
            t.push(chars_of("rport"));
            t.push(decimal_chars(p as u64));
        }
        let ghost mid = views(t@);
        assert(mid =~= m.tokens().take(mid.len() as int));
        let ghost e = m.extensions;
        assert(ext_tokens(e.take(0)) =~= Seq::<Seq<char>>::empty());
        assert(mid + ext_tokens(e.take(0)) =~= mid);
        for j in 0..self.extensions.len()
            invariant
                e == self.extensions.deep_view(),
                views(t@) == mid + ext_tokens(e.take(j as int)),
        {
            let (key, val) = &self.extensions[j];
            assert(e[j as int] == (key@, val@));
            let ghost before = t@;
            t.push(chars_of(key.as_str()));
            t.push(chars_of(val.as_str()));
            assert(views(t@) =~= views(before).push(key@).push(val@));
            proof {
                lemma_ext_tokens_push(e, j as int);
            }
            assert(views(t@) =~= mid + ext_tokens(e.take(j + 1)));
        }
        assert(e.take(e.len() as int) =~= e);
        assert(views(t@) =~= m.tokens());
        string_of(&join_chars(&t, ' '))
    }
}

fn decimal_chars(n: u64) -> (r: Vec<char>)
    ensures
        r@ == decimal(n as nat),
{
    let mut v: Vec<char> = Vec::new();
    push_decimal(&mut v, n);
    v
}

impl std::str::FromStr for Candidate {
    type Err = AttributeError;

    fn from_str(s: &str) -> (r: Result<Candidate, AttributeError>)
        ensures
            result_model(&r) == CandidateModel::spec_parse(s@),
    {
        Candidate::from_str(s)
    }
}

proof fn lemma_type_round_trip(t: CandidateTypeModel)
    requires
        t matches CandidateTypeModel::Other(o) ==> !eq_ignore_case(o, "host"@) && !eq_ignore_case(
            o,
            "srflx"@,
        ) && !eq_ignore_case(o, "prflx"@) && !eq_ignore_case(o, "relay"@),
    ensures
        type_from(type_text(t)) == t,
{
    reveal_strlit("host");
    reveal_strlit("srflx");
    reveal_strlit("prflx");
    reveal_strlit("relay");
    match t {
        CandidateTypeModel::Host => {},
        CandidateTypeModel::Srflx => {
            lemma_ne_ignore_case("srflx"@, "host"@, 0);
        },
        CandidateTypeModel::Prflx => {
            lemma_ne_ignore_case("prflx"@, "host"@, 0);
            lemma_ne_ignore_case("prflx"@, "srflx"@, 0);
        },
        CandidateTypeModel::Relay => {
            lemma_ne_ignore_case("relay"@, "host"@, 0);
            lemma_ne_ignore_case("relay"@, "srflx"@, 0);
            lemma_ne_ignore_case("relay"@, "prflx"@, 0);
        },
        CandidateTypeModel::Other(o) => {},
    }
}

proof fn lemma_tokens_no_space(v: CandidateModel)
    requires
        v.well_formed(),
    ensures
        forall|i: int| 0 <= i < v.tokens().len() ==> has_no(#[trigger] v.tokens()[i], ' '),
        v.tokens().len() >= 8,
{
    reveal_strlit("typ");
    reveal_strlit("host");
    reveal_strlit("srflx");
    reveal_strlit("prflx");
    reveal_strlit("relay");
    reveal_strlit("raddr");
    reveal_strlit("rport");
    lemma_decimal_has_no(v.component_id as nat, ' ');
    lemma_decimal_has_no(v.priority as nat, ' ');
    lemma_decimal_has_no(v.port as nat, ' ');
    if let CandidateAddressModel::IpAddr(a) = v.address {
        lemma_ip_round_trip(a);
    }
    if let Some(a) = v.rel_addr {
        lemma_ip_round_trip(a);
    }
    if let Some(p) = v.rel_port {
        lemma_decimal_has_no(p as nat, ' ');
    }
    let t = v.tokens();
    let e = ext_tokens(v.extensions);
    assert forall|i: int| 0 <= i < e.len() implies has_no(#[trigger] e[i], ' ') by {
        assert(has_no(v.extensions[i / 2].0, ' '));
    }
    assert forall|i: int| 0 <= i < t.len() implies has_no(#[trigger] t[i], ' ') by {
        let r = match v.rel_addr {
            Some(a) => seq!["raddr"@, spec_display_ip(a)],
            None => seq![],
        };
        let p = match v.rel_port {
            Some(p) => seq!["rport"@, decimal(p as nat)],
            None => seq![],
        };
        if i >= 8 + r.len() + p.len() {
            assert(t[i] == e[i - 8 - r.len() - p.len()]);
        }
    }
}

/// The extension pairs read back, given what precedes them.
proof fn lemma_tail_exts(
    toks: Seq<Seq<char>>,
    base: int,
    ra: Option<IpAddrModel>,
    rp: Option<u16>,
    e: Seq<(Seq<char>, Seq<char>)>,
    j: int,
)
    requires
        0 <= base,
        0 <= j <= e.len(),
        toks.len() == base + 2 * e.len(),
        forall|t: int| 0 <= t < 2 * e.len() ==> toks[base + t] == #[trigger] ext_tokens(e)[t],
        forall|j2: int|
            0 <= j2 < e.len() ==> !eq_ignore_case(#[trigger] e[j2].0, "raddr"@) && !eq_ignore_case(
                e[j2].0,
                "rport"@,
            ),
    ensures
        parse_tail(toks, base + 2 * j, (ra, rp, e.take(j))) == Ok::<
            CandidateTail,
            AttributeErrorModel,
        >((ra, rp, e)),
    decreases e.len() - j,
{
    if j == e.len() {
        assert(e.take(j) =~= e);
    } else {
        assert(ext_tokens(e)[2 * j] == e[j].0);
        assert(ext_tokens(e)[2 * j + 1] == e[j].1);
        assert(toks[base + 2 * j] == e[j].0);
        assert(toks[base + 2 * j + 1] == e[j].1);
        assert(e.take(j).push((e[j].0, e[j].1)) =~= e.take(j + 1));
        lemma_tail_exts(toks, base, ra, rp, e, j + 1);
    }
}

proof fn lemma_tail_round_trip(v: CandidateModel)
    requires
        v.well_formed(),
    ensures
        parse_tail(v.tokens(), 8, (None, None, seq![])) == Ok::<CandidateTail, AttributeErrorModel>(
            (v.rel_addr, v.rel_port, v.extensions),
        ),
{
    reveal_strlit("raddr");
    reveal_strlit("rport");
    lemma_ne_ignore_case("rport"@, "raddr"@, 1);
    lemma_eq_ignore_case_refl("raddr"@);
    lemma_eq_ignore_case_refl("rport"@);
    let toks = v.tokens();
    let r = match v.rel_addr {
        Some(a) => seq!["raddr"@, spec_display_ip(a)],
        None => seq![],
    };
    let p = match v.rel_port {
        Some(p) => seq!["rport"@, decimal(p as nat)],
        None => seq![],
    };
    let e = v.extensions;
    let base: int = 8 + r.len() as int + p.len() as int;
    assert forall|t: int| 0 <= t < 2 * e.len() implies toks[base + t] == #[trigger] ext_tokens(
        e,
    )[t] by {}
    assert forall|j2: int| 0 <= j2 < e.len() implies !eq_ignore_case(#[trigger] e[j2].0, "raddr"@)
        && !eq_ignore_case(e[j2].0, "rport"@) by {}
    lemma_tail_exts(toks, base, v.rel_addr, v.rel_port, e, 0);
    assert(e.take(0) =~= Seq::<(Seq<char>, Seq<char>)>::empty());
    let k1: int = 8 + r.len() as int;
    if let Some(pp) = v.rel_port {
        assert(toks[k1] == "rport"@);
        assert(toks[k1 + 1] == decimal(pp as nat));
        lemma_parse_decimal(pp as nat, 0xffff);
    }
    if let Some(a) = v.rel_addr {
        assert(toks[8] == "raddr"@);
        assert(toks[9] == spec_display_ip(a));
        lemma_ip_round_trip(a);
    }
}

/// Reading back the textual form of a well-formed candidate gives the candidate.
pub proof fn lemma_candidate_round_trip(v: CandidateModel)
    requires
        v.well_formed(),
    ensures
        CandidateModel::spec_parse(v.spec_display()) == Ok::<CandidateModel, AttributeErrorModel>(
            v,
        ),
{
    lemma_tokens_no_space(v);
    lemma_split_join(v.tokens(), ' ');
    lemma_tail_round_trip(v);
    let i = v.tokens();
    lemma_parse_decimal(v.component_id as nat, 0xffff_ffff);
    lemma_parse_decimal(v.priority as nat, 0xffff_ffff_ffff_ffff);
    lemma_parse_decimal(v.port as nat, 0xffff);
    lemma_eq_ignore_case_refl("typ"@);
    lemma_type_round_trip(v.typ);
    match v.address {
        CandidateAddressModel::IpAddr(a) => {
            lemma_ip_round_trip(a);
        },
        CandidateAddressModel::FQDN(f) => {},
    }
    assert(address_from(i[4]) == v.address);
}

/// Candidate type names equal up to ASCII case read as the same registered type.
pub proof fn lemma_candidate_type_case_insensitive(s: Seq<char>, t: Seq<char>)
    requires
        eq_ignore_case(s, t),
        !(type_from(s) is Other),
    ensures
        type_from(s) == type_from(t),
{
    lemma_eq_ignore_case_trans_iff(s, t, "host"@);
    lemma_eq_ignore_case_trans_iff(s, t, "srflx"@);
    lemma_eq_ignore_case_trans_iff(s, t, "prflx"@);
    lemma_eq_ignore_case_trans_iff(s, t, "relay"@);
}

/// What the pairs after the candidate type set, as the textual form can
/// carry them back.
pub open spec fn tail_wf(t: CandidateTail) -> bool {
    &&& (t.0 matches Some(a) ==> ip_well_formed(a))
    &&& forall|j: int|
        0 <= j < t.2.len() ==> {
            &&& has_no(#[trigger] t.2[j].0, ' ')
            &&& has_no(t.2[j].1, ' ')
            &&& !eq_ignore_case(t.2[j].0, "raddr"@)
            &&& !eq_ignore_case(t.2[j].0, "rport"@)
        }
}

proof fn lemma_tail_parsed(i: Seq<Seq<char>>, k: int, acc: CandidateTail)
    requires
        0 <= k,
        forall|j: int| 0 <= j < i.len() ==> has_no(#[trigger] i[j], ' '),
        tail_wf(acc),
    ensures
        parse_tail(i, k, acc) matches Ok(t) ==> tail_wf(t),
    decreases i.len() - k,
{
    if k < i.len() {
        let key = i[k];
        if k + 1 < i.len() {
            if eq_ignore_case(key, "raddr"@) {
                lemma_parsed_ip_well_formed(i[k + 1]);
                if let Some(a) = spec_parse_ip(i[k + 1]) {
                    assert(ip_well_formed(a));
                    let next: CandidateTail = (Some(a), acc.1, acc.2);
                    assert(next.2 == acc.2);
                    assert(tail_wf(next));
                    lemma_tail_parsed(i, k + 2, next);
                }
            } else if eq_ignore_case(key, "rport"@) {
                if let Some(p) = parse_uint(i[k + 1], 0xffff) {
                    let next: CandidateTail = (acc.0, Some(p as u16), acc.2);
                    assert(next.2 == acc.2);
                    assert(tail_wf(next));
                    lemma_tail_parsed(i, k + 2, next);
                }
            } else {
                let e = acc.2.push((key, i[k + 1]));
                assert forall|j: int| 0 <= j < e.len() implies {
                    &&& has_no(#[trigger] e[j].0, ' ')
                    &&& has_no(e[j].1, ' ')
                    &&& !eq_ignore_case(e[j].0, "raddr"@)
                    &&& !eq_ignore_case(e[j].0, "rport"@)
                } by {
                    if j < acc.2.len() {
                        assert(e[j] == acc.2[j]);
                    } else {
                        assert(e[j] == (key, i[k + 1]));
                        assert(has_no(i[k], ' ') && has_no(i[k + 1], ' '));
                    }
                }
                let next: CandidateTail = (acc.0, acc.1, e);
                assert(next.2 == e);
                assert(tail_wf(next));
                lemma_tail_parsed(i, k + 2, next);
            }
        }
    }
}

/// The textual form of a `candidate` value read from text reads back as the
/// same value.
pub proof fn lemma_candidate_canonical(s: Seq<char>)
    ensures
        CandidateModel::spec_parse(s) matches Ok(v) ==> CandidateModel::spec_parse(
            v.spec_display(),
        ) == Ok::<CandidateModel, AttributeErrorModel>(v),
{
    if let Ok(v) = CandidateModel::spec_parse(s) {
        let i = split(s, ' ');
        lemma_split_pieces(s, ' ');
        assert(has_no(i[0], ' ') && has_no(i[2], ' ') && has_no(i[4], ' ') && has_no(i[7], ' '));
        lemma_parsed_ip_well_formed(i[4]);
        let start: CandidateTail = (None, None, seq![]);
        assert(tail_wf(start));
        lemma_tail_parsed(i, 8, start);
        let t = parse_tail(i, 8, start)->Ok_0;
        assert(tail_wf(t));
        assert(v.rel_addr == t.0 && v.extensions == t.2);
        assert(has_no(v.foundation, ' '));
        assert(has_no(v.transport, ' '));
        assert(match v.address {
            CandidateAddressModel::IpAddr(a) => ip_well_formed(a),
            CandidateAddressModel::FQDN(f) => has_no(f, ' ') && spec_parse_ip(f) is None,
        });
        assert(match v.typ {
            CandidateTypeModel::Other(x) => has_no(x, ' ') && !eq_ignore_case(x, "host"@)
                && !eq_ignore_case(x, "srflx"@) && !eq_ignore_case(x, "prflx"@)
                && !eq_ignore_case(x, "relay"@),
            _ => true,
        });
        assert(v.well_formed());
        lemma_candidate_round_trip(v);
    }
}

/// Each registered candidate type is read from its own name, in any ASCII case, and written as that name.
pub proof fn lemma_candidate_type_names(t: Seq<char>)
    ensures
        (type_from(t) == CandidateTypeModel::Host) <==> eq_ignore_case(t, "host"@),
        (type_from(t) == CandidateTypeModel::Srflx) <==> eq_ignore_case(t, "srflx"@),
        (type_from(t) == CandidateTypeModel::Prflx) <==> eq_ignore_case(t, "prflx"@),
        (type_from(t) == CandidateTypeModel::Relay) <==> eq_ignore_case(t, "relay"@),
        type_text(CandidateTypeModel::Host) == "host"@,
        type_text(CandidateTypeModel::Srflx) == "srflx"@,
        type_text(CandidateTypeModel::Prflx) == "prflx"@,
        type_text(CandidateTypeModel::Relay) == "relay"@,
{
    reveal_strlit("host");
    reveal_strlit("srflx");
    reveal_strlit("prflx");
    reveal_strlit("relay");
    assert("host"@.len() != "srflx"@.len());
    assert("host"@.len() != "prflx"@.len());
    assert("host"@.len() != "relay"@.len());
    assert("srflx"@.len() != "host"@.len());
    lemma_ne_ignore_case("srflx"@, "prflx"@, 0);
    lemma_ne_ignore_case("srflx"@, "relay"@, 0);
    assert("prflx"@.len() != "host"@.len());
    lemma_ne_ignore_case("prflx"@, "srflx"@, 0);
    lemma_ne_ignore_case("prflx"@, "relay"@, 0);
    assert("relay"@.len() != "host"@.len());
    lemma_ne_ignore_case("relay"@, "srflx"@, 0);
    lemma_ne_ignore_case("relay"@, "prflx"@, 0);
    if eq_ignore_case(t, "host"@) {
        lemma_eq_ignore_case_trans_iff(t, "host"@, "srflx"@);
        lemma_eq_ignore_case_trans_iff(t, "host"@, "prflx"@);
        lemma_eq_ignore_case_trans_iff(t, "host"@, "relay"@);
    }
    if eq_ignore_case(t, "srflx"@) {
        lemma_eq_ignore_case_trans_iff(t, "srflx"@, "host"@);
        lemma_eq_ignore_case_trans_iff(t, "srflx"@, "prflx"@);
        lemma_eq_ignore_case_trans_iff(t, "srflx"@, "relay"@);
    }
    if eq_ignore_case(t, "prflx"@) {
        lemma_eq_ignore_case_trans_iff(t, "prflx"@, "host"@);
        lemma_eq_ignore_case_trans_iff(t, "prflx"@, "srflx"@);
        lemma_eq_ignore_case_trans_iff(t, "prflx"@, "relay"@);
    }
    if eq_ignore_case(t, "relay"@) {
        lemma_eq_ignore_case_trans_iff(t, "relay"@, "host"@);
        lemma_eq_ignore_case_trans_iff(t, "relay"@, "srflx"@);
        lemma_eq_ignore_case_trans_iff(t, "relay"@, "prflx"@);
    }
}

/// A pair keyed `raddr` (in any ASCII case) sets the related address, one
/// keyed `rport` the related port, and any other pair is kept as an
/// extension.
pub proof fn lemma_candidate_pair_keys(i: Seq<Seq<char>>, k: int, acc: CandidateTail)
    requires
        0 <= k,
        i.len() == k + 2,
    ensures
        eq_ignore_case(i[k], "raddr"@) ==> (spec_parse_ip(i[k + 1]) matches Some(a)
            ==> parse_tail(i, k, acc) == Ok::<CandidateTail, AttributeErrorModel>(
            (Some(a), acc.1, acc.2),
        )),
        eq_ignore_case(i[k], "rport"@) ==> (parse_uint(i[k + 1], 0xffff) matches Some(p)
            ==> parse_tail(i, k, acc) == Ok::<CandidateTail, AttributeErrorModel>(
            (acc.0, Some(p as u16), acc.2),
        )),
        !eq_ignore_case(i[k], "raddr"@) && !eq_ignore_case(i[k], "rport"@) ==> parse_tail(i, k, acc)
            == Ok::<CandidateTail, AttributeErrorModel>((acc.0, acc.1, acc.2.push((i[k], i[k + 1])))),
{
    reveal_strlit("raddr");
    reveal_strlit("rport");
    if let Some(a) = spec_parse_ip(i[k + 1]) {
        let x: CandidateTail = (Some(a), acc.1, acc.2);
        assert(parse_tail(i, k + 2, x) == Ok::<CandidateTail, AttributeErrorModel>(x));
    }
    if let Some(p) = parse_uint(i[k + 1], 0xffff) {
        let x: CandidateTail = (acc.0, Some(p as u16), acc.2);
        assert(parse_tail(i, k + 2, x) == Ok::<CandidateTail, AttributeErrorModel>(x));
    }
    let x: CandidateTail = (acc.0, acc.1, acc.2.push((i[k], i[k + 1])));
    assert(parse_tail(i, k + 2, x) == Ok::<CandidateTail, AttributeErrorModel>(x));
    if eq_ignore_case(i[k], "rport"@) {
        lemma_eq_ignore_case_trans_iff(i[k], "rport"@, "raddr"@);
        lemma_ne_ignore_case("rport"@, "raddr"@, 1);
    }
}

/// The textual form names the candidate type after the word `typ`, and the
/// related address and port after the words `raddr` and `rport`.
pub proof fn lemma_candidate_keywords(v: CandidateModel)
    ensures
        v.tokens()[6] == "typ"@,
        v.tokens()[7] == type_text(v.typ),
        v.rel_addr matches Some(a) ==> v.tokens()[8] == "raddr"@ && v.tokens()[9]
            == spec_display_ip(a),
        v.rel_addr is None ==> (v.rel_port matches Some(p) ==> v.tokens()[8] == "rport"@
            && v.tokens()[9] == decimal(p as nat)),
        v.rel_addr is Some ==> (v.rel_port matches Some(p) ==> v.tokens()[10] == "rport"@
            && v.tokens()[11] == decimal(p as nat)),
{
}

} // verus!
