//! The `fmtp` attribute (RFC 8866 Section 6.15).

use crate::attributes::error::{
    invalid_value, result_model, unsupported_format, AttributeError, AttributeErrorModel,
};
use crate::text::{
    lemma_find,
    lemma_split_once_pieces,
    lemma_split_len,
    lemma_split_pieces,
    chars_of, decimal, has_no, join, lemma_decimal, lemma_decimal_has_no, lemma_join_last,
    lemma_join_push, lemma_parse_decimal, lemma_split_cons, lemma_split_join, lemma_split_single,
    lemma_trim_end_one, parse_uint, parse_uint_chars, push_decimal, push_string, split,
    split_chars, split_once, split_once_chars, string_of, trim_end, trim_end_chars, views,
};
use vstd::prelude::*;

verus! {

/// Format specific parameters
#[derive(Debug, Clone, PartialEq)]
pub struct FmtpParam {
    pub param: String,
    pub val: Option<String>,
}

pub struct FmtpParamModel {
    pub param: Seq<char>,
    pub val: Option<Seq<char>>,
}

impl DeepView for FmtpParam {
    type V = FmtpParamModel;

    open spec fn deep_view(&self) -> FmtpParamModel {
        FmtpParamModel { param: self.param@, val: self.val.deep_view() }
    }
}

/// Format Parameters
///
/// See RFC 8866 Section 6.15.
#[derive(Debug, Clone, PartialEq)]
pub struct Fmtp {
    /// Payload format
    pub fmt: u8,
    /// Format specific parameters: `;`-separated, each a `key=value` pair
    /// or a single parameter
    pub format_specific_params: Vec<FmtpParam>,
}

pub struct FmtpModel {
    pub fmt: u8,
    pub format_specific_params: Seq<FmtpParamModel>,
}

impl DeepView for Fmtp {
    type V = FmtpModel;

    open spec fn deep_view(&self) -> FmtpModel {
        FmtpModel { fmt: self.fmt, format_specific_params: self.format_specific_params.deep_view() }
    }
}

/// One parameter: `key=value` split at its first `=`, or a bare parameter.
pub open spec fn param_from(t: Seq<char>) -> FmtpParamModel {
    match split_once(t, '=') {
        Some((k, v)) => FmtpParamModel { param: k, val: Some(v) },
        None => FmtpParamModel { param: t, val: None },
    }
}

pub open spec fn params_from(ts: Seq<Seq<char>>) -> Seq<FmtpParamModel> {
    ts.map_values(|t: Seq<char>| param_from(t))
}

/// The textual form of one parameter.
pub open spec fn param_text(p: FmtpParamModel) -> Seq<char> {
    p.param + match p.val {
        Some(v) => seq!['='] + v,
        None => seq![],
    }
}

pub open spec fn param_texts(ps: Seq<FmtpParamModel>) -> Seq<Seq<char>> {
    ps.map_values(|p: FmtpParamModel| param_text(p))
}

/// Each parameter's text followed by `;`.
pub open spec fn terminated(ps: Seq<FmtpParamModel>) -> Seq<char>
    decreases ps.len(),
{
    if ps.len() == 0 {
        seq![]
    } else {
        terminated(ps.drop_last()) + param_text(ps.last()) + seq![';']
    }
}

impl FmtpModel {
    /// `<format> <param>[;<param>...]`
    pub open spec fn spec_parse(s: Seq<char>) -> Result<FmtpModel, AttributeErrorModel> {
        match split_once(s, ' ') {
            None => Err(AttributeErrorModel::UnsupportedFormat { val: s, attr: "fmtp"@ }),
            Some((f, rest)) => match parse_uint(f, 255) {
                None => Err(
                    AttributeErrorModel::InvalidParamValue { param: "fmtp"@, val: f, attr: "fmtp"@ },
                ),
                Some(n) => Ok(
                    FmtpModel { fmt: n as u8, format_specific_params: params_from(split(rest, ';')) },
                ),
            },
        }
    }

    /// The format, a space, each parameter followed by `;`, with the
    /// trailing `;`s removed.
    pub open spec fn spec_display(self) -> Seq<char> {
        trim_end(decimal(self.fmt as nat) + seq![' '] + terminated(self.format_specific_params), ';')
    }

    /// Values whose textual form reads back as themselves: at least one
    /// parameter; names without `;` or `=`; values without `;`; and a last
    /// parameter with some text unless it is the only one.
    pub open spec fn well_formed(self) -> bool {
        let ps = self.format_specific_params;
        &&& ps.len() > 0
        &&& forall|i: int|
            0 <= i < ps.len() ==> {
                &&& has_no((#[trigger] ps[i]).param, ';')
                &&& has_no(ps[i].param, '=')
                &&& match ps[i].val {
                    Some(v) => has_no(v, ';'),
                    None => true,
                }
            }
        &&& (ps.len() == 1 || param_text(ps.last()).len() > 0)
    }
}

fn param_from_chars(t: &Vec<char>) -> (r: FmtpParam)
    ensures
        r.deep_view() == param_from(t@),
{
    match split_once_chars(t, '=') {
        Some((k, v)) => FmtpParam { param: string_of(&k), val: Some(string_of(&v)) },
        None => FmtpParam { param: string_of(t), val: None },
    }
}

impl Fmtp {
    pub fn from_chars(s: &Vec<char>) -> (r: Result<Fmtp, AttributeError>)
        ensures
            result_model(&r) == FmtpModel::spec_parse(s@),
    {
        let (f, rest) = match split_once_chars(s, ' ') {
            None => return Err(unsupported_format(s, "fmtp")),
            Some(x) => x,
        };
        let fmt = match parse_uint_chars(&f, 255) {
            None => return Err(invalid_value("fmtp", &f, "fmtp")),
            Some(n) => n as u8,
        };
        let pieces = split_chars(&rest, ';');
        let mut params: Vec<FmtpParam> = Vec::new();
        for j in 0..pieces.len()
            invariant
                params.deep_view() =~= params_from(views(pieces@).take(j as int)),
        {
            let p = param_from_chars(&pieces[j]);
            let ghost before = params.deep_view();
            params.push(p);
            assert(params.deep_view() =~= before.push(p.deep_view()));
            assert(params_from(views(pieces@).take(j + 1)) =~= params_from(
                views(pieces@).take(j as int),
            ).push(param_from(pieces@[j as int]@)));
        }
        assert(views(pieces@).take(pieces@.len() as int) =~= views(pieces@));
        Ok(Fmtp { fmt, format_specific_params: params })
    }

    pub fn from_str(s: &str) -> (r: Result<Fmtp, AttributeError>)
        ensures
            result_model(&r) == FmtpModel::spec_parse(s@),
    {
        Self::from_chars(&chars_of(s))
    }

    pub fn to_string(&self) -> (r: String)
        ensures
            r@ == self.deep_view().spec_display(),
    {
        let mut out: Vec<char> = Vec::new();
        push_decimal(&mut out, self.fmt as u64);
        out.push(' ');
        let ghost head = out@;
        assert(head =~= decimal(self.fmt as nat) + seq![' ']);
        let ghost ps = self.format_specific_params.deep_view();
        for j in 0..self.format_specific_params.len()
            invariant
                ps == self.format_specific_params.deep_view(),
                out@ == head + terminated(ps.take(j as int)),
        {
            let p = &self.format_specific_params[j];
            let ghost before = out@;
            push_string(&mut out, &p.param);
            if let Some(v) = &p.val {
                out.push('=');
                push_string(&mut out, v);
            }
            out.push(';');
            assert(ps.take(j + 1).drop_last() =~= ps.take(j as int));
            assert(out@ =~= before + param_text(ps[j as int]) + seq![';']);
        }
        assert(ps.take(ps.len() as int) =~= ps);
        string_of(&trim_end_chars(&out, ';'))
    }
}

impl std::str::FromStr for Fmtp {
    type Err = AttributeError;

    fn from_str(s: &str) -> (r: Result<Fmtp, AttributeError>)
        ensures
            result_model(&r) == FmtpModel::spec_parse(s@),
    {
        Fmtp::from_str(s)
    }
}

proof fn lemma_terminated(ps: Seq<FmtpParamModel>)
    requires
        ps.len() > 0,
    ensures
        terminated(ps) == join(param_texts(ps), ';') + seq![';'],
    decreases ps.len(),
{
    let init = ps.drop_last();
    if init.len() == 0 {
        assert(param_texts(ps) =~= seq![param_text(ps.last())]);
        assert(terminated(init) =~= Seq::<char>::empty());
    } else {
        lemma_terminated(init);
        lemma_join_push(param_texts(init), param_text(ps.last()), ';');
        assert(param_texts(init).push(param_text(ps.last())) =~= param_texts(ps));
    }
}

proof fn lemma_param_round_trip(p: FmtpParamModel)
    requires
        has_no(p.param, ';'),
        has_no(p.param, '='),
        p.val matches Some(v) ==> has_no(v, ';'),
    ensures
        param_from(param_text(p)) == p,
        has_no(param_text(p), ';'),
{
    match p.val {
        Some(v) => {
            assert(param_text(p) =~= p.param + seq!['='] + v);
            lemma_split_cons(p.param, '=', v);
            assert(has_no(param_text(p), ';'));
        },
        None => {
            assert(param_text(p) =~= p.param);
            lemma_split_single(p.param, '=');
        },
    }
}

/// Reading back the textual form of a well-formed `fmtp` value gives the value.
pub proof fn lemma_fmtp_round_trip(v: FmtpModel)
    requires
        v.well_formed(),
    ensures
        FmtpModel::spec_parse(v.spec_display()) == Ok::<FmtpModel, AttributeErrorModel>(v),
{
    let ps = v.format_specific_params;
    let t = param_texts(ps);
    let d = decimal(v.fmt as nat);
    let j = join(t, ';');
    assert forall|i: int| 0 <= i < ps.len() implies param_from(#[trigger] t[i]) == ps[i]
        && has_no(t[i], ';') by {
        lemma_param_round_trip(ps[i]);
    }
    lemma_terminated(ps);
    let a = d + seq![' '] + j;
    assert(d + seq![' '] + terminated(ps) =~= a + seq![';']);
    lemma_decimal(v.fmt as nat);
    if t.last().len() > 0 {
        lemma_join_last(t, ';');
        assert(a.last() == j.last());
    } else {
        assert(t.len() == 1);
        assert(j =~= Seq::<char>::empty());
        assert(a.last() == ' ');
    }
    lemma_trim_end_one(a, ';');
    lemma_decimal_has_no(v.fmt as nat, ' ');
    lemma_split_cons(d, ' ', j);
    lemma_parse_decimal(v.fmt as nat, 255);
    lemma_split_join(t, ';');
    assert(params_from(t) =~= ps);
}

/// The textual form of an `fmtp` value read from text reads back as the same
/// value, unless the text ends with an empty parameter after another one.
pub proof fn lemma_fmtp_canonical(s: Seq<char>)
    ensures
        FmtpModel::spec_parse(s) matches Ok(v) ==> (v.format_specific_params.len() == 1
            || param_text(v.format_specific_params.last()).len() > 0)
            ==> FmtpModel::spec_parse(v.spec_display()) == Ok::<FmtpModel, AttributeErrorModel>(v),
{
    if let Ok(v) = FmtpModel::spec_parse(s) {
        if let Some((f, rest)) = split_once(s, ' ') {
            let t = split(rest, ';');
            lemma_split_pieces(rest, ';');
            lemma_split_len(rest, ';');
            let ps = v.format_specific_params;
            assert(ps == params_from(t));
            assert forall|i: int| 0 <= i < ps.len() implies {
                &&& has_no((#[trigger] ps[i]).param, ';')
                &&& has_no(ps[i].param, '=')
                &&& match ps[i].val {
                    Some(x) => has_no(x, ';'),
                    None => true,
                }
            } by {
                assert(ps[i] == param_from(t[i]));
                assert(has_no(t[i], ';'));
                lemma_split_once_pieces(t[i], '=');
                lemma_find(t[i], '=');
            }
            if ps.len() == 1 || param_text(ps.last()).len() > 0 {
                lemma_fmtp_round_trip(v);
            }
        }
    }
}

} // verus!
