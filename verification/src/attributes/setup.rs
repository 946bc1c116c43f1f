//! The `setup` attribute (RFC 4145 Section 4).

use crate::attributes::error::{other_error, result_model, AttributeError, AttributeErrorModel};
use crate::text::{
    chars_of, eq_ignore_case, eq_ignore_case_lit, lemma_eq_ignore_case_refl,
    lemma_eq_ignore_case_trans_iff, lemma_ne_ignore_case, lit, push_str,
};
use vstd::prelude::*;

verus! {

/// Setup attribute for the session or media.
///
/// See RFC 4145 Section 4.
#[derive(Debug, Clone, Copy, PartialEq, Eq)]
pub enum Setup {
    /// Initiator of the connection.
    Active,
    /// Acceptor of the connection.
    Passive,
    /// Act as either initiator or acceptor of the connection.
    ActPass,
    /// Do not establish a connection.
    HoldConn,
}

impl DeepView for Setup {
    type V = Setup;

    open spec fn deep_view(&self) -> Setup {
        *self
    }
}

impl Setup {
    /// The canonical name of the value.
    pub open spec fn spec_str(self) -> Seq<char> {
        match self {
            Setup::Active => "active"@,
            Setup::Passive => "passive"@,
            Setup::ActPass => "actpass"@,
            Setup::HoldConn => "holdconn"@,
        }
    }

    /// The value that `s` names, in any ASCII case.
    pub open spec fn spec_from(s: Seq<char>) -> Option<Setup> {
        if eq_ignore_case(s, "active"@) {
            Some(Setup::Active)
        } else if eq_ignore_case(s, "passive"@) {
            Some(Setup::Passive)
        } else if eq_ignore_case(s, "actpass"@) {
            Some(Setup::ActPass)
        } else if eq_ignore_case(s, "holdconn"@) {
            Some(Setup::HoldConn)
        } else {
            None
        }
    }

    /// A known name in any ASCII case; any other text is refused.
    pub open spec fn spec_parse(s: Seq<char>) -> Result<Setup, AttributeErrorModel> {
        match Self::spec_from(s) {
            Some(v) => Ok(v),
            None => Err(
                AttributeErrorModel::Other { error: "Invalid Setup value "@ + s, attr: "setup"@ },
            ),
        }
    }

    pub fn from_str(s: &str) -> (r: Result<Setup, AttributeError>)
        ensures
            result_model(&r) == Setup::spec_parse(s@),
    {
        let c = chars_of(s);
        if eq_ignore_case_lit(&c, "active") {
            Ok(Setup::Active)
        } else if eq_ignore_case_lit(&c, "passive") {
            Ok(Setup::Passive)
        } else if eq_ignore_case_lit(&c, "actpass") {
            Ok(Setup::ActPass)
        } else if eq_ignore_case_lit(&c, "holdconn") {
            Ok(Setup::HoldConn)
        } else {
            let mut m: Vec<char> = Vec::new();
            push_str(&mut m, "Invalid Setup value ");
            push_str(&mut m, s);
            Err(other_error(&m, "setup"))
        }
    }

    pub fn as_str(&self) -> (r: &'static str)
        ensures
            r@ == self.spec_str(),
    {
        match self {
            Setup::Active => "active",
            Setup::Passive => "passive",
            Setup::ActPass => "actpass",
            Setup::HoldConn => "holdconn",
        }
    }

    pub fn to_string(&self) -> (r: String)
        ensures
            r@ == self.spec_str(),
    {
        lit(self.as_str())
    }
}

impl std::str::FromStr for Setup {
    type Err = AttributeError;

    fn from_str(s: &str) -> (r: Result<Setup, AttributeError>)
        ensures
            result_model(&r) == Setup::spec_parse(s@),
    {
        Setup::from_str(s)
    }
}

/// Reading back the name of a value gives that value.
pub proof fn lemma_setup_round_trip(v: Setup)
    ensures
        Setup::spec_parse(v.spec_str()) == Ok::<Setup, AttributeErrorModel>(v),
{
    reveal_strlit("active");
    reveal_strlit("passive");
    reveal_strlit("actpass");
    reveal_strlit("holdconn");
    lemma_eq_ignore_case_refl(v.spec_str());
    match v {
        Setup::Active => {},
        Setup::Passive => {
            lemma_ne_ignore_case("passive"@, "active"@, 0);
        },
        Setup::ActPass => {
            lemma_ne_ignore_case("actpass"@, "passive"@, 0);
        },
        Setup::HoldConn => {
            lemma_ne_ignore_case("holdconn"@, "passive"@, 0);
        },
    }
}

/// Names equal up to ASCII case give the same value.
pub proof fn lemma_setup_case_insensitive(s: Seq<char>, t: Seq<char>)
    requires
        eq_ignore_case(s, t),
    ensures
        Setup::spec_from(s) == Setup::spec_from(t),
{
    lemma_eq_ignore_case_trans_iff(s, t, "active"@);
    lemma_eq_ignore_case_trans_iff(s, t, "passive"@);
    lemma_eq_ignore_case_trans_iff(s, t, "actpass"@);
    lemma_eq_ignore_case_trans_iff(s, t, "holdconn"@);
}

/// The name of a value read from text reads back as the same value.
pub proof fn lemma_setup_canonical(s: Seq<char>)
    ensures
        Setup::spec_parse(s) matches Ok(v) ==> Setup::spec_parse(v.spec_str()) == Ok::<
            Setup,
            AttributeErrorModel,
        >(v),
{
    if let Ok(v) = Setup::spec_parse(s) {
        lemma_setup_round_trip(v);
    }
}

/// Each setup value is read from its own name, in any ASCII case, and written as that name.
pub proof fn lemma_setup_names(t: Seq<char>)
    ensures
        (Setup::spec_from(t) == Some(Setup::Active)) <==> eq_ignore_case(t, "active"@),
        (Setup::spec_from(t) == Some(Setup::Passive)) <==> eq_ignore_case(t, "passive"@),
        (Setup::spec_from(t) == Some(Setup::ActPass)) <==> eq_ignore_case(t, "actpass"@),
        (Setup::spec_from(t) == Some(Setup::HoldConn)) <==> eq_ignore_case(t, "holdconn"@),
        Setup::Active.spec_str() == "active"@,
        Setup::Passive.spec_str() == "passive"@,
        Setup::ActPass.spec_str() == "actpass"@,
        Setup::HoldConn.spec_str() == "holdconn"@,
{
    reveal_strlit("active");
    reveal_strlit("passive");
    reveal_strlit("actpass");
    reveal_strlit("holdconn");
    assert("active"@.len() != "passive"@.len());
    assert("active"@.len() != "actpass"@.len());
    assert("active"@.len() != "holdconn"@.len());
    assert("passive"@.len() != "active"@.len());
    lemma_ne_ignore_case("passive"@, "actpass"@, 0);
    assert("passive"@.len() != "holdconn"@.len());
    assert("actpass"@.len() != "active"@.len());
    lemma_ne_ignore_case("actpass"@, "passive"@, 0);
    assert("actpass"@.len() != "holdconn"@.len());
    assert("holdconn"@.len() != "active"@.len());
    assert("holdconn"@.len() != "passive"@.len());
    assert("holdconn"@.len() != "actpass"@.len());
    if eq_ignore_case(t, "active"@) {
        lemma_eq_ignore_case_trans_iff(t, "active"@, "passive"@);
        lemma_eq_ignore_case_trans_iff(t, "active"@, "actpass"@);
        lemma_eq_ignore_case_trans_iff(t, "active"@, "holdconn"@);
    }
    if eq_ignore_case(t, "passive"@) {
        lemma_eq_ignore_case_trans_iff(t, "passive"@, "active"@);
        lemma_eq_ignore_case_trans_iff(t, "passive"@, "actpass"@);
        lemma_eq_ignore_case_trans_iff(t, "passive"@, "holdconn"@);
    }
    if eq_ignore_case(t, "actpass"@) {
        lemma_eq_ignore_case_trans_iff(t, "actpass"@, "active"@);
        lemma_eq_ignore_case_trans_iff(t, "actpass"@, "passive"@);
        lemma_eq_ignore_case_trans_iff(t, "actpass"@, "holdconn"@);
    }
    if eq_ignore_case(t, "holdconn"@) {
        lemma_eq_ignore_case_trans_iff(t, "holdconn"@, "active"@);
        lemma_eq_ignore_case_trans_iff(t, "holdconn"@, "passive"@);
        lemma_eq_ignore_case_trans_iff(t, "holdconn"@, "actpass"@);
    }
}

} // verus!
