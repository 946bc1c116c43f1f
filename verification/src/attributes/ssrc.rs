//! The `ssrc` attribute (RFC 5576 Section 4.1).

use crate::attributes::error::{
    invalid_value, param_not_found, result_model, AttributeError, AttributeErrorModel,
};
use crate::text::{
    lemma_split_once_pieces,
    lemma_eq_ignore_case_trans_iff,
    chars_of, decimal, eq_ignore_case, eq_ignore_case_lit, has_no, lemma_decimal_has_no,
    lemma_eq_ignore_case_refl, lemma_ne_ignore_case, lemma_parse_decimal, lemma_split_cons,
    lemma_split_single, parse_uint, parse_uint_chars, push_decimal, push_str, push_string,
    split_once, split_once_chars, string_of,
};
use vstd::prelude::*;

verus! {

/// Source attribute types.
#[derive(Debug, Clone, PartialEq)]
pub enum SsrcAttribute {
    /// RFC 5576 Section 6.1
    Cname,
    /// RFC 5576 Section 6.2
    PreviousSsrc,
    /// RFC 5576 Section 6.3
    Fmtp,
    /// RFC 5576 Section 6.4
    Other(String),
}

pub enum SsrcAttributeModel {
    Cname,
    PreviousSsrc,
    Fmtp,
    Other(Seq<char>),
}

impl DeepView for SsrcAttribute {
    type V = SsrcAttributeModel;

    open spec fn deep_view(&self) -> SsrcAttributeModel {
        match self {
            SsrcAttribute::Cname => SsrcAttributeModel::Cname,
            SsrcAttribute::PreviousSsrc => SsrcAttributeModel::PreviousSsrc,
            SsrcAttribute::Fmtp => SsrcAttributeModel::Fmtp,
            SsrcAttribute::Other(o) => SsrcAttributeModel::Other(o@),
        }
    }
}

/// SSRC media attribute.
///
/// See RFC 5576 Section 4.1.
#[derive(Debug, Clone, PartialEq)]
pub struct Ssrc {
    pub ssrc_id: u32,
    pub attribute: SsrcAttribute,
    pub value: Option<String>,
}

pub struct SsrcModel {
    pub ssrc_id: u32,
    pub attribute: SsrcAttributeModel,
    pub value: Option<Seq<char>>,
}

impl DeepView for Ssrc {
    type V = SsrcModel;

    open spec fn deep_view(&self) -> SsrcModel {
        SsrcModel {
            ssrc_id: self.ssrc_id,
            attribute: self.attribute.deep_view(),
            value: self.value.deep_view(),
        }
    }
}

/// The registered attribute names in any ASCII case; any other name is kept.
pub open spec fn ssrc_attribute_from(t: Seq<char>) -> SsrcAttributeModel {
    if eq_ignore_case(t, "cname"@) {
        SsrcAttributeModel::Cname
    } else if eq_ignore_case(t, "previous-ssrc"@) {
        SsrcAttributeModel::PreviousSsrc
    } else if eq_ignore_case(t, "fmtp"@) {
        SsrcAttributeModel::Fmtp
    } else {
        SsrcAttributeModel::Other(t)
    }
}

pub open spec fn ssrc_attribute_text(a: SsrcAttributeModel) -> Seq<char> {
    match a {
        SsrcAttributeModel::Cname => "cname"@,
        SsrcAttributeModel::PreviousSsrc => "previous-ssrc"@,
        SsrcAttributeModel::Fmtp => "fmtp"@,
        SsrcAttributeModel::Other(o) => o,
    }
}

impl SsrcModel {
    /// `<ssrc-id> <attribute>[:<value>]`; the value is the rest of the text.
    pub open spec fn spec_parse(s: Seq<char>) -> Result<SsrcModel, AttributeErrorModel> {
        match split_once(s, ' ') {
            None => Err(AttributeErrorModel::ParamNotFound { param: "Ssrc id"@, attr: "ssrc"@ }),
            Some((id, rest)) => match parse_uint(id, 0xffff_ffff) {
                None => Err(
                    AttributeErrorModel::InvalidParamValue {
                        param: "Ssrc id"@,
                        val: id,
                        attr: "ssrc"@,
                    },
                ),
                Some(n) => match split_once(rest, ':') {
                    Some((a, v)) => Ok(
                        SsrcModel {
                            ssrc_id: n as u32,
                            attribute: ssrc_attribute_from(a),
                            value: Some(v),
                        },
                    ),
                    None => Ok(
                        SsrcModel {
                            ssrc_id: n as u32,
                            attribute: ssrc_attribute_from(rest),
                            value: None,
                        },
                    ),
                },
            },
        }
    }

    pub open spec fn spec_display(self) -> Seq<char> {
        decimal(self.ssrc_id as nat) + seq![' '] + ssrc_attribute_text(self.attribute)
            + match self.value {
            Some(v) => seq![':'] + v,
            None => seq![],
        }
    }

    /// Values whose textual form reads back as themselves: a registered
    /// attribute, or a name without `:` that no registered name matches up
    /// to case.
    pub open spec fn well_formed(self) -> bool {
        match self.attribute {
            SsrcAttributeModel::Other(o) => {
                &&& has_no(o, ':')
                &&& !eq_ignore_case(o, "cname"@)
                &&& !eq_ignore_case(o, "previous-ssrc"@)
                &&& !eq_ignore_case(o, "fmtp"@)
            },
            _ => true,
        }
    }
}

fn ssrc_attribute_chars(t: &Vec<char>) -> (r: SsrcAttribute)
    ensures
        r.deep_view() == ssrc_attribute_from(t@),
{
    if eq_ignore_case_lit(t, "cname") {
        SsrcAttribute::Cname
    } else if eq_ignore_case_lit(t, "previous-ssrc") {
        SsrcAttribute::PreviousSsrc
    } else if eq_ignore_case_lit(t, "fmtp") {
        SsrcAttribute::Fmtp
    } else {
        SsrcAttribute::Other(string_of(t))
    }
}

impl Ssrc {
    pub fn from_chars(s: &Vec<char>) -> (r: Result<Ssrc, AttributeError>)
        ensures
            result_model(&r) == SsrcModel::spec_parse(s@),
    {
        let (id, rest) = match split_once_chars(s, ' ') {
            None => return Err(param_not_found("Ssrc id", "ssrc")),
            Some(x) => x,
        };
        let ssrc_id = match parse_uint_chars(&id, 0xffff_ffff) {
            None => return Err(invalid_value("Ssrc id", &id, "ssrc")),
            Some(n) => n as u32,
        };
        match split_once_chars(&rest, ':') {
            Some((a, v)) => Ok(
                Ssrc { ssrc_id, attribute: ssrc_attribute_chars(&a), value: Some(string_of(&v)) },
            ),
            None => Ok(Ssrc { ssrc_id, attribute: ssrc_attribute_chars(&rest), value: None }),
        }
    }

    pub fn from_str(s: &str) -> (r: Result<Ssrc, AttributeError>)
        ensures
            result_model(&r) == SsrcModel::spec_parse(s@),
    {
        Self::from_chars(&chars_of(s))
    }

    pub fn to_string(&self) -> (r: String)
        ensures
            r@ == self.deep_view().spec_display(),
    {
        let mut out: Vec<char> = Vec::new();
        push_decimal(&mut out, self.ssrc_id as u64);
        out.push(' ');
        match &self.attribute {
            SsrcAttribute::Cname => push_str(&mut out, "cname"),
            SsrcAttribute::PreviousSsrc => push_str(&mut out, "previous-ssrc"),
            SsrcAttribute::Fmtp => push_str(&mut out, "fmtp"),
            SsrcAttribute::Other(o) => push_string(&mut out, o),
        }
        if let Some(v) = &self.value {
            out.push(':');
            push_string(&mut out, v);
        }
        assert(out@ =~= self.deep_view().spec_display());
        string_of(&out)
    }
}

impl std::str::FromStr for Ssrc {
    type Err = AttributeError;

    fn from_str(s: &str) -> (r: Result<Ssrc, AttributeError>)
        ensures
            result_model(&r) == SsrcModel::spec_parse(s@),
    {
        Ssrc::from_str(s)
    }
}

/// Reading back the textual form of a well-formed `ssrc` value gives the value.
pub proof fn lemma_ssrc_round_trip(v: SsrcModel)
    requires
        v.well_formed(),
    ensures
        SsrcModel::spec_parse(v.spec_display()) == Ok::<SsrcModel, AttributeErrorModel>(v),
{
    reveal_strlit("cname");
    reveal_strlit("previous-ssrc");
    reveal_strlit("fmtp");
    let d = decimal(v.ssrc_id as nat);
    let a = ssrc_attribute_text(v.attribute);
    let tail = match v.value {
        Some(x) => seq![':'] + x,
        None => seq![],
    };
    assert(v.spec_display() =~= d + seq![' '] + (a + tail));
    lemma_decimal_has_no(v.ssrc_id as nat, ' ');
    lemma_split_cons(d, ' ', a + tail);
    lemma_parse_decimal(v.ssrc_id as nat, 0xffff_ffff);
    lemma_eq_ignore_case_refl(a);
    assert(has_no(a, ':'));
    match v.value {
        Some(x) => {
            assert(a + tail =~= a + seq![':'] + x);
            lemma_split_cons(a, ':', x);
        },
        None => {
            assert(a + tail =~= a);
            lemma_split_single(a, ':');
        },
    }
    if v.attribute is Fmtp {
        lemma_ne_ignore_case("fmtp"@, "cname"@, 0);
    }
}

/// Attribute names equal up to ASCII case read as the same registered source attribute.
pub proof fn lemma_ssrc_attribute_case_insensitive(s: Seq<char>, t: Seq<char>)
    requires
        eq_ignore_case(s, t),
        !(ssrc_attribute_from(s) is Other),
    ensures
        ssrc_attribute_from(s) == ssrc_attribute_from(t),
{
    lemma_eq_ignore_case_trans_iff(s, t, "cname"@);
    lemma_eq_ignore_case_trans_iff(s, t, "previous-ssrc"@);
    lemma_eq_ignore_case_trans_iff(s, t, "fmtp"@);
}

/// The textual form of an `ssrc` value read from text reads back as the same
/// value.
pub proof fn lemma_ssrc_canonical(s: Seq<char>)
    ensures
        SsrcModel::spec_parse(s) matches Ok(v) ==> SsrcModel::spec_parse(v.spec_display())
            == Ok::<SsrcModel, AttributeErrorModel>(v),
{
    if let Ok(v) = SsrcModel::spec_parse(s) {
        if let Some((id, rest)) = split_once(s, ' ') {
            lemma_split_once_pieces(rest, ':');
        }
        lemma_ssrc_round_trip(v);
    }
}

/// Each registered source attribute is read from its own name, in any ASCII case, and written as that name.
pub proof fn lemma_ssrc_attribute_names(t: Seq<char>)
    ensures
        (ssrc_attribute_from(t) == SsrcAttributeModel::Cname) <==> eq_ignore_case(t, "cname"@),
        (ssrc_attribute_from(t) == SsrcAttributeModel::PreviousSsrc) <==> eq_ignore_case(t, "previous-ssrc"@),
        (ssrc_attribute_from(t) == SsrcAttributeModel::Fmtp) <==> eq_ignore_case(t, "fmtp"@),
        ssrc_attribute_text(SsrcAttributeModel::Cname) == "cname"@,
        ssrc_attribute_text(SsrcAttributeModel::PreviousSsrc) == "previous-ssrc"@,
        ssrc_attribute_text(SsrcAttributeModel::Fmtp) == "fmtp"@,
{
    reveal_strlit("cname");
    reveal_strlit("previous-ssrc");
    reveal_strlit("fmtp");
    assert("cname"@.len() != "previous-ssrc"@.len());
    assert("cname"@.len() != "fmtp"@.len());
    assert("previous-ssrc"@.len() != "cname"@.len());
    assert("previous-ssrc"@.len() != "fmtp"@.len());
    assert("fmtp"@.len() != "cname"@.len());
    assert("fmtp"@.len() != "previous-ssrc"@.len());
    if eq_ignore_case(t, "cname"@) {
        lemma_eq_ignore_case_trans_iff(t, "cname"@, "previous-ssrc"@);
        lemma_eq_ignore_case_trans_iff(t, "cname"@, "fmtp"@);
    }
    if eq_ignore_case(t, "previous-ssrc"@) {
        lemma_eq_ignore_case_trans_iff(t, "previous-ssrc"@, "cname"@);
        lemma_eq_ignore_case_trans_iff(t, "previous-ssrc"@, "fmtp"@);
    }
    if eq_ignore_case(t, "fmtp"@) {
        lemma_eq_ignore_case_trans_iff(t, "fmtp"@, "cname"@);
        lemma_eq_ignore_case_trans_iff(t, "fmtp"@, "previous-ssrc"@);
    }
}

} // verus!
