//! The media direction attributes (RFC 8866 Section 6.7) and the `extmap`
//! attribute (RFC 8285 Section 8).

use crate::attributes::error::{
    invalid_value, param_not_found, result_model, AttributeError, AttributeErrorModel,
};
use crate::enums::ParseEnumError;
use crate::text::{
    lemma_splitn_pieces,
    chars_of, decimal, eq_ignore_case, eq_ignore_case_lit, has_no, lemma_decimal_has_no,
    lemma_eq_ignore_case_trans_iff, lemma_ne_ignore_case, lemma_parse_decimal, lemma_split_cons,
    lemma_split_len, lemma_split_single, lemma_splitn_len, lit, parse_uint, parse_uint_chars,
    push_decimal, push_str, push_string, split, split_chars, splitn, splitn_chars, string_of,
};
use vstd::prelude::*;

verus! {

/// Media Direction Attributes
///
/// See RFC 8866 Section 6.7.
#[derive(Debug, PartialEq, Eq, Clone, Copy)]
pub enum Direction {
    /// Send only
    SendOnly,
    /// Receive only
    RecvOnly,
    /// Send and receive
    SendRecv,
    /// Neither send nor receive
    Inactive,
}

impl Direction {
    /// The canonical name of the value.
    pub open spec fn spec_str(self) -> Seq<char> {
        match self {
            Direction::SendOnly => "sendonly"@,
            Direction::RecvOnly => "recvonly"@,
            Direction::SendRecv => "sendrecv"@,
            Direction::Inactive => "inactive"@,
        }
    }

    /// The value that `s` names, in any ASCII case.
    pub open spec fn spec_from(s: Seq<char>) -> Option<Direction> {
        if eq_ignore_case(s, "sendonly"@) {
            Some(Direction::SendOnly)
        } else if eq_ignore_case(s, "recvonly"@) {
            Some(Direction::RecvOnly)
        } else if eq_ignore_case(s, "sendrecv"@) {
            Some(Direction::SendRecv)
        } else if eq_ignore_case(s, "inactive"@) {
            Some(Direction::Inactive)
        } else {
            None
        }
    }

    pub fn as_str(&self) -> (r: &'static str)
        ensures
            r@ == self.spec_str(),
    {
        match self {
            Direction::SendOnly => "sendonly",
            Direction::RecvOnly => "recvonly",
            Direction::SendRecv => "sendrecv",
            Direction::Inactive => "inactive",
        }
    }

    pub fn to_string(&self) -> (r: String)
        ensures
            r@ == self.spec_str(),
    {
        lit(self.as_str())
    }

    pub fn from_chars(s: &Vec<char>) -> (r: Option<Direction>)
        ensures
            r == Self::spec_from(s@),
    {
        if eq_ignore_case_lit(s, "sendonly") {
            Some(Direction::SendOnly)
        } else if eq_ignore_case_lit(s, "recvonly") {
            Some(Direction::RecvOnly)
        } else if eq_ignore_case_lit(s, "sendrecv") {
            Some(Direction::SendRecv)
        } else if eq_ignore_case_lit(s, "inactive") {
            Some(Direction::Inactive)
        } else {
            None
        }
    }

    pub fn from_str(s: &str) -> (r: Result<Direction, ParseEnumError>)
        ensures
            match r {
                Ok(v) => Self::spec_from(s@) == Some(v),
                Err(ParseEnumError::Invalid(e)) => Self::spec_from(s@) is None && e@ == s@,
            },
    {
        match Self::from_chars(&chars_of(s)) {
            Some(v) => Ok(v),
            None => Err(ParseEnumError::Invalid(lit(s))),
        }
    }
}

/// Reading back the name of a value gives that value.
pub proof fn lemma_direction_round_trip(v: Direction)
    ensures
        Direction::spec_from(v.spec_str()) == Some(v),
{
    reveal_strlit("sendonly");
    reveal_strlit("recvonly");
    reveal_strlit("sendrecv");
    reveal_strlit("inactive");
    match v {
        Direction::SendOnly => {  },
        Direction::RecvOnly => { lemma_ne_ignore_case("recvonly"@, "sendonly"@, 0); },
        Direction::SendRecv => { lemma_ne_ignore_case("sendrecv"@, "sendonly"@, 4); lemma_ne_ignore_case("sendrecv"@, "recvonly"@, 0); },
        Direction::Inactive => { lemma_ne_ignore_case("inactive"@, "sendonly"@, 0); lemma_ne_ignore_case("inactive"@, "recvonly"@, 0); lemma_ne_ignore_case("inactive"@, "sendrecv"@, 0); },
    }
}

/// The canonical names hold no space and no `/`.
pub proof fn lemma_direction_no_separator(v: Direction)
    ensures
        has_no(v.spec_str(), ' '),
        has_no(v.spec_str(), '/'),
{
    reveal_strlit("sendonly");
    reveal_strlit("recvonly");
    reveal_strlit("sendrecv");
    reveal_strlit("inactive");
}

/// Names that are equal up to ASCII case name the same value.
pub proof fn lemma_direction_case_insensitive(s: Seq<char>, t: Seq<char>)
    requires
        eq_ignore_case(s, t),
    ensures
        Direction::spec_from(s) == Direction::spec_from(t),
{
    lemma_eq_ignore_case_trans_iff(s, t, "sendonly"@);
    lemma_eq_ignore_case_trans_iff(s, t, "recvonly"@);
    lemma_eq_ignore_case_trans_iff(s, t, "sendrecv"@);
    lemma_eq_ignore_case_trans_iff(s, t, "inactive"@);
}

impl std::str::FromStr for Direction {
    type Err = ParseEnumError;

    fn from_str(s: &str) -> (r: Result<Direction, ParseEnumError>)
        ensures
            match r {
                Ok(v) => Direction::spec_from(s@) == Some(v),
                Err(ParseEnumError::Invalid(e)) => Direction::spec_from(s@) is None && e@ == s@,
            },
    {
        Direction::from_str(s)
    }
}

/// RTP header extensions map
///
/// See RFC 8285 Section 8.
#[derive(Debug, Clone, PartialEq)]
pub struct ExtMap {
    /// The local identifier (ID) of this extension
    pub id: u8,
    /// Direction
    pub direction: Option<Direction>,
    /// The format and meaning of the extension
    pub uri: String,
    /// Extension attributes
    pub attributes: Option<String>,
}

pub struct ExtMapModel {
    pub id: u8,
    pub direction: Option<Direction>,
    pub uri: Seq<char>,
    pub attributes: Option<Seq<char>>,
}

impl DeepView for ExtMap {
    type V = ExtMapModel;

    open spec fn deep_view(&self) -> ExtMapModel {
        ExtMapModel {
            id: self.id,
            direction: self.direction,
            uri: self.uri@,
            attributes: self.attributes.deep_view(),
        }
    }
}

impl ExtMapModel {
    /// `<id>[/<direction>] <uri>[ <attributes>]`; the attributes are the
    /// rest of the text, spaces included. The direction is read before the id,
    /// and only the piece after the first `/` is read as one.
    pub open spec fn spec_parse(s: Seq<char>) -> Result<ExtMapModel, AttributeErrorModel> {
        let i = splitn(s, 3, ' ');
        let d = split(i[0], '/');
        let dir: Result<Option<Direction>, AttributeErrorModel> = if d.len() >= 2 {
            match Direction::spec_from(d[1]) {
                Some(x) => Ok(Some(x)),
                None => Err(
                    AttributeErrorModel::InvalidParamValue {
                        param: "Direction"@,
                        val: d[1],
                        attr: "extmap"@,
                    },
                ),
            }
        } else {
            Ok(None)
        };
        match dir {
            Err(e) => Err(e),
            Ok(direction) => match parse_uint(d[0], 255) {
                None => Err(
                    AttributeErrorModel::InvalidParamValue { param: "Id"@, val: d[0], attr: "extmap"@ },
                ),
                Some(id) => if i.len() < 2 {
                    Err(AttributeErrorModel::ParamNotFound { param: "URI"@, attr: "extmap"@ })
                } else {
                    Ok(
                        ExtMapModel {
                            id: id as u8,
                            direction,
                            uri: i[1],
                            attributes: if i.len() >= 3 {
                                Some(i[2])
                            } else {
                                None
                            },
                        },
                    )
                },
            },
        }
    }

    pub open spec fn spec_display(self) -> Seq<char> {
        decimal(self.id as nat) + match self.direction {
            Some(d) => seq!['/'] + d.spec_str(),
            None => seq![],
        } + seq![' '] + self.uri + match self.attributes {
            Some(a) => seq![' '] + a,
            None => seq![],
        }
    }

    /// Values whose textual form reads back as themselves: a URI without spaces.
    pub open spec fn well_formed(self) -> bool {
        has_no(self.uri, ' ')
    }
}

impl ExtMap {
    pub fn from_chars(s: &Vec<char>) -> (r: Result<ExtMap, AttributeError>)
        ensures
            result_model(&r) == ExtMapModel::spec_parse(s@),
    {
        let i = splitn_chars(s, 3, ' ');
        proof {
            lemma_splitn_len(s@, 3, ' ');
        }
        let d = split_chars(&i[0], '/');
        proof {
            lemma_split_len(i@[0]@, '/');
        }
        let direction = if d.len() >= 2 {
            match Direction::from_chars(&d[1]) {
                Some(x) => Some(x),
                None => return Err(invalid_value("Direction", &d[1], "extmap")),
            }
        } else {
            None
        };
        let id = match parse_uint_chars(&d[0], 255) {
            None => return Err(invalid_value("Id", &d[0], "extmap")),
            Some(n) => n as u8,
        };
        if i.len() < 2 {
            return Err(param_not_found("URI", "extmap"));
        }
        let attributes = if i.len() >= 3 {
            Some(string_of(&i[2]))
        } else {
            None
        };
        Ok(ExtMap { id, direction, uri: string_of(&i[1]), attributes })
    }

    pub fn from_str(s: &str) -> (r: Result<ExtMap, AttributeError>)
        ensures
            result_model(&r) == ExtMapModel::spec_parse(s@),
    {
        Self::from_chars(&chars_of(s))
    }

    pub fn to_string(&self) -> (r: String)
        ensures
            r@ == self.deep_view().spec_display(),
    {
        let mut out: Vec<char> = Vec::new();
        push_decimal(&mut out, self.id as u64);
        if let Some(d) = &self.direction {
            out.push('/');
            push_str(&mut out, d.as_str());
        }
        out.push(' ');
        push_string(&mut out, &self.uri);
        if let Some(a) = &self.attributes {
            out.push(' ');
            push_string(&mut out, a);
        }
        assert(out@ =~= self.deep_view().spec_display());
        string_of(&out)
    }
}

impl std::str::FromStr for ExtMap {
    type Err = AttributeError;

    fn from_str(s: &str) -> (r: Result<ExtMap, AttributeError>)
        ensures
            result_model(&r) == ExtMapModel::spec_parse(s@),
    {
        ExtMap::from_str(s)
    }
}

/// Reading back the textual form of a well-formed `extmap` value gives the value.
pub proof fn lemma_extmap_round_trip(v: ExtMapModel)
    requires
        v.well_formed(),
    ensures
        ExtMapModel::spec_parse(v.spec_display()) == Ok::<ExtMapModel, AttributeErrorModel>(v),
{
    let n = decimal(v.id as nat);
    let head = n + match v.direction {
        Some(d) => seq!['/'] + d.spec_str(),
        None => seq![],
    };
    let tail = match v.attributes {
        Some(a) => seq![' '] + a,
        None => seq![],
    };
    assert(v.spec_display() =~= head + seq![' '] + (v.uri + tail));
    lemma_decimal_has_no(v.id as nat, ' ');
    lemma_decimal_has_no(v.id as nat, '/');
    let dd = match v.direction {
        Some(d) => seq![n, d.spec_str()],
        None => seq![n],
    };
    match v.direction {
        Some(d) => {
            lemma_direction_no_separator(d);
            lemma_split_cons(n, '/', d.spec_str());
            lemma_split_single(d.spec_str(), '/');
            assert(head =~= n + seq!['/'] + d.spec_str());
            assert(split(head, '/') =~= dd);
            assert(has_no(head, ' '));
        },
        None => {
            assert(head =~= n);
            lemma_split_single(n, '/');
        },
    }
    lemma_split_cons(head, ' ', v.uri + tail);
    let pieces = match v.attributes {
        Some(a) => seq![head, v.uri, a],
        None => seq![head, v.uri],
    };
    match v.attributes {
        Some(a) => {
            assert(v.uri + tail =~= v.uri + seq![' '] + a);
            lemma_split_cons(v.uri, ' ', a);
            assert(splitn(v.uri + seq![' '] + a, 2, ' ') == seq![v.uri] + splitn(a, 1, ' '));
            assert(splitn(head + seq![' '] + (v.uri + tail), 3, ' ') == seq![head] + splitn(
                v.uri + tail,
                2,
                ' ',
            ));
        },
        None => {
            assert(v.uri + tail =~= v.uri);
            lemma_split_single(v.uri, ' ');
        },
    }
    assert(splitn(v.spec_display(), 3, ' ') =~= pieces);
    lemma_extmap_parse_pieces(v, pieces, dd);
}

proof fn lemma_extmap_parse_pieces(v: ExtMapModel, i: Seq<Seq<char>>, d: Seq<Seq<char>>)
    requires
        splitn(v.spec_display(), 3, ' ') == i,
        split(i[0], '/') == d,
        d[0] == decimal(v.id as nat),
        d.len() == (if v.direction is Some { 2int } else { 1int }),
        v.direction matches Some(x) ==> d[1] == x.spec_str(),
        i.len() == (if v.attributes is Some { 3int } else { 2int }),
        i[1] == v.uri,
        v.attributes matches Some(a) ==> i[2] == a,
    ensures
        ExtMapModel::spec_parse(v.spec_display()) == Ok::<ExtMapModel, AttributeErrorModel>(v),
{
    lemma_parse_decimal(v.id as nat, 255);
    if let Some(x) = v.direction {
        lemma_direction_round_trip(x);
    }
}

/// The textual form of an `extmap` value read from text reads back as the
/// same value.
pub proof fn lemma_extmap_canonical(s: Seq<char>)
    ensures
        ExtMapModel::spec_parse(s) matches Ok(v) ==> ExtMapModel::spec_parse(v.spec_display())
            == Ok::<ExtMapModel, AttributeErrorModel>(v),
{
    if let Ok(v) = ExtMapModel::spec_parse(s) {
        lemma_splitn_pieces(s, 3, ' ');
        lemma_splitn_len(s, 3, ' ');
        let i = splitn(s, 3, ' ');
        assert(v.uri == i[1]);
        assert(has_no(i[1], ' '));
        lemma_extmap_round_trip(v);
    }
}

/// Each direction is read from its own name, in any ASCII case, and written as that name.
pub proof fn lemma_direction_names(t: Seq<char>)
    ensures
        (Direction::spec_from(t) == Some(Direction::SendOnly)) <==> eq_ignore_case(t, "sendonly"@),
        (Direction::spec_from(t) == Some(Direction::RecvOnly)) <==> eq_ignore_case(t, "recvonly"@),
        (Direction::spec_from(t) == Some(Direction::SendRecv)) <==> eq_ignore_case(t, "sendrecv"@),
        (Direction::spec_from(t) == Some(Direction::Inactive)) <==> eq_ignore_case(t, "inactive"@),
        Direction::SendOnly.spec_str() == "sendonly"@,
        Direction::RecvOnly.spec_str() == "recvonly"@,
        Direction::SendRecv.spec_str() == "sendrecv"@,
        Direction::Inactive.spec_str() == "inactive"@,
{
    reveal_strlit("sendonly");
    reveal_strlit("recvonly");
    reveal_strlit("sendrecv");
    reveal_strlit("inactive");
    lemma_ne_ignore_case("sendonly"@, "recvonly"@, 0);
    lemma_ne_ignore_case("sendonly"@, "sendrecv"@, 4);
    lemma_ne_ignore_case("sendonly"@, "inactive"@, 0);
    lemma_ne_ignore_case("recvonly"@, "sendonly"@, 0);
    lemma_ne_ignore_case("recvonly"@, "sendrecv"@, 0);
    lemma_ne_ignore_case("recvonly"@, "inactive"@, 0);
    lemma_ne_ignore_case("sendrecv"@, "sendonly"@, 4);
    lemma_ne_ignore_case("sendrecv"@, "recvonly"@, 0);
    lemma_ne_ignore_case("sendrecv"@, "inactive"@, 0);
    lemma_ne_ignore_case("inactive"@, "sendonly"@, 0);
    lemma_ne_ignore_case("inactive"@, "recvonly"@, 0);
    lemma_ne_ignore_case("inactive"@, "sendrecv"@, 0);
    if eq_ignore_case(t, "sendonly"@) {
        lemma_eq_ignore_case_trans_iff(t, "sendonly"@, "recvonly"@);
        lemma_eq_ignore_case_trans_iff(t, "sendonly"@, "sendrecv"@);
        lemma_eq_ignore_case_trans_iff(t, "sendonly"@, "inactive"@);
    }
    if eq_ignore_case(t, "recvonly"@) {
        lemma_eq_ignore_case_trans_iff(t, "recvonly"@, "sendonly"@);
        lemma_eq_ignore_case_trans_iff(t, "recvonly"@, "sendrecv"@);
        lemma_eq_ignore_case_trans_iff(t, "recvonly"@, "inactive"@);
    }
    if eq_ignore_case(t, "sendrecv"@) {
        lemma_eq_ignore_case_trans_iff(t, "sendrecv"@, "sendonly"@);
        lemma_eq_ignore_case_trans_iff(t, "sendrecv"@, "recvonly"@);
        lemma_eq_ignore_case_trans_iff(t, "sendrecv"@, "inactive"@);
    }
    if eq_ignore_case(t, "inactive"@) {
        lemma_eq_ignore_case_trans_iff(t, "inactive"@, "sendonly"@);
        lemma_eq_ignore_case_trans_iff(t, "inactive"@, "recvonly"@);
        lemma_eq_ignore_case_trans_iff(t, "inactive"@, "sendrecv"@);
    }
}

} // verus!
