//! The `group` attribute (RFC 5888 Section 5) and the `ssrc-group` attribute
//! (RFC 5576 Section 4.2), which share their grouping semantics.

use crate::attributes::error::{
    invalid_value, param_not_found, result_model, AttributeError, AttributeErrorModel,
};
use crate::text::{
    lemma_split_pieces,
    lemma_eq_ignore_case_trans_iff,
    chars_of, decimal, eq_ignore_case, eq_ignore_case_lit, has_no, join, join_chars,
    lemma_decimal_has_no, lemma_eq_ignore_case_refl, lemma_ne_ignore_case, lemma_parse_decimal,
    lemma_split_join, lemma_split_len, parse_uint, parse_uint_chars, push_decimal, split,
    split_chars, string_of, views,
};
use vstd::prelude::*;

verus! {

#[derive(Debug, Clone, PartialEq)]
pub enum GroupSemantics {
    /// Lip Synchronization (RFC 5888 Section 7)
    LS,
    /// Flow Identification (RFC 5888 Section 8)
    FID,
    /// Single Reservation Flow (RFC 3524 Section 2)
    SRF,
    /// Alternative Network Address Types (RFC 4091 Section 3)
    ANAT,
    /// Forward Error Correction (RFC 4756 Section 4)
    FEC,
    /// Decoding Dependency (RFC 5583 Section 5.2.1)
    DDP,
    /// Other Semantics
    Other(String),
}

pub enum GroupSemanticsModel {
    LS,
    FID,
    SRF,
    ANAT,
    FEC,
    DDP,
    Other(Seq<char>),
}

impl DeepView for GroupSemantics {
    type V = GroupSemanticsModel;

    open spec fn deep_view(&self) -> GroupSemanticsModel {
        match self {
            GroupSemantics::LS => GroupSemanticsModel::LS,
            GroupSemantics::FID => GroupSemanticsModel::FID,
            GroupSemantics::SRF => GroupSemanticsModel::SRF,
            GroupSemantics::ANAT => GroupSemanticsModel::ANAT,
            GroupSemantics::FEC => GroupSemanticsModel::FEC,
            GroupSemantics::DDP => GroupSemanticsModel::DDP,
            GroupSemantics::Other(s) => GroupSemanticsModel::Other(s@),
        }
    }
}

/// Semantics that read back as themselves from a `group` attribute: the
/// registered ones, and names without spaces that no registered name
/// matches up to case.
pub open spec fn semantics_wf(g: GroupSemanticsModel) -> bool {
    match g {
        GroupSemanticsModel::Other(o) => {
            &&& has_no(o, ' ')
            &&& !eq_ignore_case(o, "LS"@)
            &&& !eq_ignore_case(o, "FID"@)
            &&& !eq_ignore_case(o, "SRF"@)
            &&& !eq_ignore_case(o, "ANAT"@)
            &&& !eq_ignore_case(o, "FEC"@)
            &&& !eq_ignore_case(o, "DDP"@)
        },
        _ => true,
    }
}

/// The name of a semantics.
pub open spec fn semantics_text(g: GroupSemanticsModel) -> Seq<char> {
    match g {
        GroupSemanticsModel::LS => "LS"@,
        GroupSemanticsModel::FID => "FID"@,
        GroupSemanticsModel::SRF => "SRF"@,
        GroupSemanticsModel::ANAT => "ANAT"@,
        GroupSemanticsModel::FEC => "FEC"@,
        GroupSemanticsModel::DDP => "DDP"@,
        GroupSemanticsModel::Other(o) => o,
    }
}

/// The semantics of a `group` attribute: the registered names in any
/// ASCII case, any other text kept as it is.
pub open spec fn group_semantics_from(t: Seq<char>) -> GroupSemanticsModel {
    if eq_ignore_case(t, "LS"@) {
        GroupSemanticsModel::LS
    } else if eq_ignore_case(t, "FID"@) {
        GroupSemanticsModel::FID
    } else if eq_ignore_case(t, "SRF"@) {
        GroupSemanticsModel::SRF
    } else if eq_ignore_case(t, "ANAT"@) {
        GroupSemanticsModel::ANAT
    } else if eq_ignore_case(t, "FEC"@) {
        GroupSemanticsModel::FEC
    } else if eq_ignore_case(t, "DDP"@) {
        GroupSemanticsModel::DDP
    } else {
        GroupSemanticsModel::Other(t)
    }
}

/// The semantics of an `ssrc-group` attribute: `FEC` and `FID` in any ASCII
/// case, any other text (the other registered names included) kept as it is.
pub open spec fn ssrc_semantics_from(t: Seq<char>) -> GroupSemanticsModel {
    if eq_ignore_case(t, "FEC"@) {
        GroupSemanticsModel::FEC
    } else if eq_ignore_case(t, "FID"@) {
        GroupSemanticsModel::FID
    } else {
        GroupSemanticsModel::Other(t)
    }
}

fn semantics_chars(g: &GroupSemantics) -> (r: Vec<char>)
    ensures
        r@ == semantics_text(g.deep_view()),
{
    match g {
        GroupSemantics::LS => chars_of("LS"),
        GroupSemantics::FID => chars_of("FID"),
        GroupSemantics::SRF => chars_of("SRF"),
        GroupSemantics::ANAT => chars_of("ANAT"),
        GroupSemantics::FEC => chars_of("FEC"),
        GroupSemantics::DDP => chars_of("DDP"),
        GroupSemantics::Other(o) => chars_of(o.as_str()),
    }
}

fn group_semantics_chars(t: &Vec<char>) -> (r: GroupSemantics)
    ensures
        r.deep_view() == group_semantics_from(t@),
{
    if eq_ignore_case_lit(t, "LS") {
        GroupSemantics::LS
    } else if eq_ignore_case_lit(t, "FID") {
        GroupSemantics::FID
    } else if eq_ignore_case_lit(t, "SRF") {
        GroupSemantics::SRF
    } else if eq_ignore_case_lit(t, "ANAT") {
        GroupSemantics::ANAT
    } else if eq_ignore_case_lit(t, "FEC") {
        GroupSemantics::FEC
    } else if eq_ignore_case_lit(t, "DDP") {
        GroupSemantics::DDP
    } else {
        GroupSemantics::Other(string_of(t))
    }
}

fn ssrc_semantics_chars(t: &Vec<char>) -> (r: GroupSemantics)
    ensures
        r.deep_view() == ssrc_semantics_from(t@),
{
    if eq_ignore_case_lit(t, "FEC") {
        GroupSemantics::FEC
    } else if eq_ignore_case_lit(t, "FID") {
        GroupSemantics::FID
    } else {
        GroupSemantics::Other(string_of(t))
    }
}

/// Group Attribute
///
/// See RFC 5888 Section 5.
#[derive(Debug, Clone, PartialEq)]
pub struct Group {
    pub semantics: GroupSemantics,
    pub mid_tags: Vec<String>,
}

pub struct GroupModel {
    pub semantics: GroupSemanticsModel,
    pub mid_tags: Seq<Seq<char>>,
}

impl DeepView for Group {
    type V = GroupModel;

    open spec fn deep_view(&self) -> GroupModel {
        GroupModel { semantics: self.semantics.deep_view(), mid_tags: self.mid_tags.deep_view() }
    }
}

impl GroupModel {
    /// `<semantics> <mid>[ <mid>...]`, every piece between spaces kept.
    pub open spec fn spec_parse(s: Seq<char>) -> Result<GroupModel, AttributeErrorModel> {
        let i = split(s, ' ');
        if i.len() < 2 {
            Err(
                AttributeErrorModel::ParamNotFound {
                    param: "Media identification tags"@,
                    attr: "group"@,
                },
            )
        } else {
            Ok(GroupModel { semantics: group_semantics_from(i[0]), mid_tags: i.skip(1) })
        }
    }

    pub open spec fn spec_display(self) -> Seq<char> {
        join(seq![semantics_text(self.semantics)] + self.mid_tags, ' ')
    }

    /// Values whose textual form reads back as themselves: at least one tag,
    /// no spaces in the tags, and semantics that read back as themselves.
    pub open spec fn well_formed(self) -> bool {
        &&& self.mid_tags.len() > 0
        &&& forall|i: int| 0 <= i < self.mid_tags.len() ==> has_no(#[trigger] self.mid_tags[i], ' ')
        &&& semantics_wf(self.semantics)
    }
}

impl Group {
    pub fn from_chars(s: &Vec<char>) -> (r: Result<Group, AttributeError>)
        ensures
            result_model(&r) == GroupModel::spec_parse(s@),
    {
        let i = split_chars(s, ' ');
        proof {
            lemma_split_len(s@, ' ');
        }
        if i.len() < 2 {
            return Err(param_not_found("Media identification tags", "group"));
        }
        let semantics = group_semantics_chars(&i[0]);
        let mut mid_tags: Vec<String> = Vec::new();
        for j in 1..i.len()
            invariant
                1 <= j <= i@.len(),
                mid_tags.deep_view() =~= views(i@).subrange(1, j as int),
        {
            let t = string_of(&i[j]);
            let ghost before = mid_tags.deep_view();
            mid_tags.push(t);
            assert(mid_tags.deep_view() =~= before.push(t@));
        }
        Ok(Group { semantics, mid_tags })
    }

    pub fn from_str(s: &str) -> (r: Result<Group, AttributeError>)
        ensures
            result_model(&r) == GroupModel::spec_parse(s@),
    {
        Self::from_chars(&chars_of(s))
    }

    pub fn to_string(&self) -> (r: String)
        ensures
            r@ == self.deep_view().spec_display(),
    {
        let mut t: Vec<Vec<char>> = Vec::new();
        t.push(semantics_chars(&self.semantics));
        let ghost m = self.mid_tags.deep_view();
        for j in 0..self.mid_tags.len()
            invariant
                m == self.mid_tags.deep_view(),
                views(t@) =~= seq![semantics_text(self.semantics.deep_view())] + m.take(j as int),
        {
            let ghost before = t@;
            t.push(chars_of(self.mid_tags[j].as_str()));
            assert(views(t@) =~= views(before).push(m[j as int]));
        }
        assert(m.take(m.len() as int) =~= m);
        string_of(&join_chars(&t, ' '))
    }
}

impl std::str::FromStr for Group {
    type Err = AttributeError;

    fn from_str(s: &str) -> (r: Result<Group, AttributeError>)
        ensures
            result_model(&r) == GroupModel::spec_parse(s@),
    {
        Group::from_str(s)
    }
}

/// SSRC group attribute
///
/// See RFC 5576 Section 4.2.
#[derive(Debug, PartialEq, Clone)]
pub struct SsrcGroup {
    pub semantics: GroupSemantics,
    pub ssrc_ids: Vec<u32>,
}

pub struct SsrcGroupModel {
    pub semantics: GroupSemanticsModel,
    pub ssrc_ids: Seq<u32>,
}

impl DeepView for SsrcGroup {
    type V = SsrcGroupModel;

    open spec fn deep_view(&self) -> SsrcGroupModel {
        SsrcGroupModel { semantics: self.semantics.deep_view(), ssrc_ids: self.ssrc_ids@ }
    }
}

/// The SSRC ids `t[k..]`, or the error of the first that is not a `u32`.
pub open spec fn parse_ssrc_ids(t: Seq<Seq<char>>, k: int) -> Result<Seq<u32>, AttributeErrorModel>
    decreases t.len() - k,
{
    if k < 0 || k >= t.len() {
        Ok(seq![])
    } else {
        match parse_uint(t[k], 0xffff_ffff) {
            None => Err(
                AttributeErrorModel::InvalidParamValue {
                    param: "Ssrc id"@,
                    val: t[k],
                    attr: "ssrc-group"@,
                },
            ),
            Some(id) => match parse_ssrc_ids(t, k + 1) {
                Err(e) => Err(e),
                Ok(r) => Ok(seq![id as u32] + r),
            },
        }
    }
}

pub open spec fn id_texts(ids: Seq<u32>) -> Seq<Seq<char>> {
    ids.map_values(|id: u32| decimal(id as nat))
}

impl SsrcGroupModel {
    /// `<semantics>[ <ssrc-id>...]`
    pub open spec fn spec_parse(s: Seq<char>) -> Result<SsrcGroupModel, AttributeErrorModel> {
        let i = split(s, ' ');
        match parse_ssrc_ids(i, 1) {
            Err(e) => Err(e),
            Ok(ids) => Ok(SsrcGroupModel { semantics: ssrc_semantics_from(i[0]), ssrc_ids: ids }),
        }
    }

    pub open spec fn spec_display(self) -> Seq<char> {
        join(seq![semantics_text(self.semantics)] + id_texts(self.ssrc_ids), ' ')
    }

    /// Values whose textual form reads back as themselves: `FEC`, `FID`, or
    /// semantics named without spaces and by no name that reads as `FEC`
    /// or `FID`.
    pub open spec fn well_formed(self) -> bool {
        match self.semantics {
            GroupSemanticsModel::FEC => true,
            GroupSemanticsModel::FID => true,
            GroupSemanticsModel::Other(o) => {
                &&& has_no(o, ' ')
                &&& !eq_ignore_case(o, "FEC"@)
                &&& !eq_ignore_case(o, "FID"@)
            },
            _ => false,
        }
    }
}

impl SsrcGroup {
    #[verifier::loop_isolation(false)]
    pub fn from_chars(s: &Vec<char>) -> (r: Result<SsrcGroup, AttributeError>)
        ensures
            match r {
                Ok(v) => SsrcGroupModel::spec_parse(s@) == Ok::<
                    SsrcGroupModel,
                    AttributeErrorModel,
                >(v.deep_view()),
                Err(e) => SsrcGroupModel::spec_parse(s@) == Err::<
                    SsrcGroupModel,
                    AttributeErrorModel,
                >(e.deep_view()),
            },
    {
        let i = split_chars(s, ' ');
        proof {
            lemma_split_len(s@, ' ');
        }
        let semantics = ssrc_semantics_chars(&i[0]);
        let mut ssrc_ids: Vec<u32> = Vec::new();
        let n: usize = i.len();
        for j in 1..n
            invariant
                n == i@.len(),
                parse_ssrc_ids(views(i@), 1) == match parse_ssrc_ids(views(i@), j as int) {
                    Ok(r) => Ok(ssrc_ids@ + r),
                    Err(e) => Err(e),
                },
        {
            let id = match parse_uint_chars(&i[j], 0xffff_ffff) {
                None => return Err(invalid_value("Ssrc id", &i[j], "ssrc-group")),
                Some(x) => x as u32,
            };
            let ghost before = ssrc_ids@;
            ssrc_ids.push(id);
            proof {
                match parse_ssrc_ids(views(i@), j + 1) {
                    Ok(r) => {
                        assert(before + (seq![id] + r) =~= ssrc_ids@ + r);
                    },
                    Err(e) => {},
                }
            }
        }
        assert(ssrc_ids@ + Seq::<u32>::empty() =~= ssrc_ids@);
        Ok(SsrcGroup { semantics, ssrc_ids })
    }

    pub fn from_str(s: &str) -> (r: Result<SsrcGroup, AttributeError>)
        ensures
            result_model(&r) == SsrcGroupModel::spec_parse(s@),
    {
        Self::from_chars(&chars_of(s))
    }

    pub fn to_string(&self) -> (r: String)
        ensures
            r@ == self.deep_view().spec_display(),
    {
        let mut t: Vec<Vec<char>> = Vec::new();
        t.push(semantics_chars(&self.semantics));
        let ghost m = id_texts(self.ssrc_ids@);
        for j in 0..self.ssrc_ids.len()
            invariant
                m == id_texts(self.ssrc_ids@),
                views(t@) =~= seq![semantics_text(self.semantics.deep_view())] + m.take(j as int),
        {
            let mut d: Vec<char> = Vec::new();
            push_decimal(&mut d, self.ssrc_ids[j] as u64);
            let ghost before = t@;
            t.push(d);
            assert(views(t@) =~= views(before).push(m[j as int]));
        }
        assert(m.take(m.len() as int) =~= m);
        string_of(&join_chars(&t, ' '))
    }
}

impl std::str::FromStr for SsrcGroup {
    type Err = AttributeError;

    fn from_str(s: &str) -> (r: Result<SsrcGroup, AttributeError>)
        ensures
            result_model(&r) == SsrcGroupModel::spec_parse(s@),
    {
        SsrcGroup::from_str(s)
    }
}

proof fn lemma_group_semantics_round_trip(g: GroupSemanticsModel)
    requires
        semantics_wf(g),
    ensures
        group_semantics_from(semantics_text(g)) == g,
        has_no(semantics_text(g), ' '),
{
    reveal_strlit("LS");
    reveal_strlit("FID");
    reveal_strlit("SRF");
    reveal_strlit("ANAT");
    reveal_strlit("FEC");
    reveal_strlit("DDP");
    lemma_eq_ignore_case_refl(semantics_text(g));
    match g {
        GroupSemanticsModel::SRF => {
            lemma_ne_ignore_case("SRF"@, "FID"@, 0);
        },
        GroupSemanticsModel::FEC => {
            lemma_ne_ignore_case("FEC"@, "FID"@, 1);
            lemma_ne_ignore_case("FEC"@, "SRF"@, 0);
        },
        GroupSemanticsModel::DDP => {
            lemma_ne_ignore_case("DDP"@, "FID"@, 0);
            lemma_ne_ignore_case("DDP"@, "SRF"@, 0);
            lemma_ne_ignore_case("DDP"@, "FEC"@, 0);
        },
        _ => {},
    }
}

/// Reading back the textual form of a well-formed `group` value gives the value.
pub proof fn lemma_group_round_trip(v: GroupModel)
    requires
        v.well_formed(),
    ensures
        GroupModel::spec_parse(v.spec_display()) == Ok::<GroupModel, AttributeErrorModel>(v),
{
    lemma_group_semantics_round_trip(v.semantics);
    let p = seq![semantics_text(v.semantics)] + v.mid_tags;
    assert forall|i: int| 0 <= i < p.len() implies has_no(#[trigger] p[i], ' ') by {
        if i > 0 {
            assert(p[i] == v.mid_tags[i - 1]);
        }
    }
    lemma_split_join(p, ' ');
    assert(p.skip(1) =~= v.mid_tags);
}

proof fn lemma_parse_ssrc_ids_from(t: Seq<Seq<char>>, ids: Seq<u32>, k: int)
    requires
        1 <= k <= t.len(),
        t.len() == ids.len() + 1,
        forall|j: int| 0 <= j < ids.len() ==> t[j + 1] == decimal(#[trigger] ids[j] as nat),
    ensures
        parse_ssrc_ids(t, k) == Ok::<Seq<u32>, AttributeErrorModel>(ids.skip(k - 1)),
    decreases t.len() - k,
{
    if k < t.len() {
        lemma_parse_ssrc_ids_from(t, ids, k + 1);
        assert(t[k] == decimal(ids[k - 1] as nat));
        lemma_parse_decimal(ids[k - 1] as nat, 0xffff_ffff);
        assert(seq![ids[k - 1]] + ids.skip(k) =~= ids.skip(k - 1));
    } else {
        assert(ids.skip(k - 1) =~= Seq::<u32>::empty());
    }
}

/// Reading back the textual form of a well-formed `ssrc-group` value gives
/// the value.
pub proof fn lemma_ssrc_group_round_trip(v: SsrcGroupModel)
    requires
        v.well_formed(),
    ensures
        SsrcGroupModel::spec_parse(v.spec_display()) == Ok::<SsrcGroupModel, AttributeErrorModel>(
            v,
        ),
{
    reveal_strlit("FEC");
    reveal_strlit("FID");
    let sem = semantics_text(v.semantics);
    lemma_eq_ignore_case_refl(sem);
    if v.semantics is FID {
        lemma_ne_ignore_case("FID"@, "FEC"@, 1);
    }
    let ids = id_texts(v.ssrc_ids);
    let p = seq![sem] + ids;
    assert forall|i: int| 0 <= i < p.len() implies has_no(#[trigger] p[i], ' ') by {
        if i > 0 {
            assert(p[i] == ids[i - 1]);
            lemma_decimal_has_no(v.ssrc_ids[i - 1] as nat, ' ');
        }
    }
    lemma_split_join(p, ' ');
    assert forall|j: int| 0 <= j < v.ssrc_ids.len() implies p[j + 1] == decimal(
        #[trigger] v.ssrc_ids[j] as nat,
    ) by {
        assert(p[j + 1] == ids[j]);
    }
    lemma_parse_ssrc_ids_from(p, v.ssrc_ids, 1);
    assert(v.ssrc_ids.skip(0) =~= v.ssrc_ids);
}

/// Semantics names equal up to ASCII case read as the same registered `group` semantics.
pub proof fn lemma_group_semantics_case_insensitive(s: Seq<char>, t: Seq<char>)
    requires
        eq_ignore_case(s, t),
        !(group_semantics_from(s) is Other),
    ensures
        group_semantics_from(s) == group_semantics_from(t),
{
    lemma_eq_ignore_case_trans_iff(s, t, "LS"@);
    lemma_eq_ignore_case_trans_iff(s, t, "FID"@);
    lemma_eq_ignore_case_trans_iff(s, t, "SRF"@);
    lemma_eq_ignore_case_trans_iff(s, t, "ANAT"@);
    lemma_eq_ignore_case_trans_iff(s, t, "FEC"@);
    lemma_eq_ignore_case_trans_iff(s, t, "DDP"@);
}

/// Semantics names equal up to ASCII case read as the same `ssrc-group` semantics, `FEC` or `FID`.
pub proof fn lemma_ssrc_semantics_case_insensitive(s: Seq<char>, t: Seq<char>)
    requires
        eq_ignore_case(s, t),
        !(ssrc_semantics_from(s) is Other),
    ensures
        ssrc_semantics_from(s) == ssrc_semantics_from(t),
{
    lemma_eq_ignore_case_trans_iff(s, t, "FEC"@);
    lemma_eq_ignore_case_trans_iff(s, t, "FID"@);
}

/// The textual form of a `group` value read from text reads back as the same
/// value.
pub proof fn lemma_group_canonical(s: Seq<char>)
    ensures
        GroupModel::spec_parse(s) matches Ok(v) ==> GroupModel::spec_parse(v.spec_display())
            == Ok::<GroupModel, AttributeErrorModel>(v),
{
    if let Ok(v) = GroupModel::spec_parse(s) {
        let i = split(s, ' ');
        lemma_split_pieces(s, ' ');
        assert(has_no(i[0], ' '));
        assert forall|j: int| 0 <= j < v.mid_tags.len() implies has_no(
            #[trigger] v.mid_tags[j],
            ' ',
        ) by {
            assert(v.mid_tags[j] == i[j + 1]);
        }
        lemma_group_round_trip(v);
    }
}

/// The textual form of an `ssrc-group` value read from text reads back as
/// the same value.
pub proof fn lemma_ssrc_group_canonical(s: Seq<char>)
    ensures
        SsrcGroupModel::spec_parse(s) matches Ok(v) ==> SsrcGroupModel::spec_parse(
            v.spec_display(),
        ) == Ok::<SsrcGroupModel, AttributeErrorModel>(v),
{
    if let Ok(v) = SsrcGroupModel::spec_parse(s) {
        let i = split(s, ' ');
        lemma_split_pieces(s, ' ');
        lemma_split_len(s, ' ');
        assert(has_no(i[0], ' '));
        lemma_ssrc_group_round_trip(v);
    }
}

/// Each registered `group` semantics is read from its own name, in any ASCII case, and written as that name.
pub proof fn lemma_group_semantics_names(t: Seq<char>)
    ensures
        (group_semantics_from(t) == GroupSemanticsModel::LS) <==> eq_ignore_case(t, "LS"@),
        (group_semantics_from(t) == GroupSemanticsModel::FID) <==> eq_ignore_case(t, "FID"@),
        (group_semantics_from(t) == GroupSemanticsModel::SRF) <==> eq_ignore_case(t, "SRF"@),
        (group_semantics_from(t) == GroupSemanticsModel::ANAT) <==> eq_ignore_case(t, "ANAT"@),
        (group_semantics_from(t) == GroupSemanticsModel::FEC) <==> eq_ignore_case(t, "FEC"@),
        (group_semantics_from(t) == GroupSemanticsModel::DDP) <==> eq_ignore_case(t, "DDP"@),
        semantics_text(GroupSemanticsModel::LS) == "LS"@,
        semantics_text(GroupSemanticsModel::FID) == "FID"@,
        semantics_text(GroupSemanticsModel::SRF) == "SRF"@,
        semantics_text(GroupSemanticsModel::ANAT) == "ANAT"@,
        semantics_text(GroupSemanticsModel::FEC) == "FEC"@,
        semantics_text(GroupSemanticsModel::DDP) == "DDP"@,
{
    reveal_strlit("LS");
    reveal_strlit("FID");
    reveal_strlit("SRF");
    reveal_strlit("ANAT");
    reveal_strlit("FEC");
    reveal_strlit("DDP");
    assert("LS"@.len() != "FID"@.len());
    assert("LS"@.len() != "SRF"@.len());
    assert("LS"@.len() != "ANAT"@.len());
    assert("LS"@.len() != "FEC"@.len());
    assert("LS"@.len() != "DDP"@.len());
    assert("FID"@.len() != "LS"@.len());
    lemma_ne_ignore_case("FID"@, "SRF"@, 0);
    assert("FID"@.len() != "ANAT"@.len());
    lemma_ne_ignore_case("FID"@, "FEC"@, 1);
    lemma_ne_ignore_case("FID"@, "DDP"@, 0);
    assert("SRF"@.len() != "LS"@.len());
    lemma_ne_ignore_case("SRF"@, "FID"@, 0);
    assert("SRF"@.len() != "ANAT"@.len());
    lemma_ne_ignore_case("SRF"@, "FEC"@, 0);
    lemma_ne_ignore_case("SRF"@, "DDP"@, 0);
    assert("ANAT"@.len() != "LS"@.len());
    assert("ANAT"@.len() != "FID"@.len());
    assert("ANAT"@.len() != "SRF"@.len());
    assert("ANAT"@.len() != "FEC"@.len());
    assert("ANAT"@.len() != "DDP"@.len());
    assert("FEC"@.len() != "LS"@.len());
    lemma_ne_ignore_case("FEC"@, "FID"@, 1);
    lemma_ne_ignore_case("FEC"@, "SRF"@, 0);
    assert("FEC"@.len() != "ANAT"@.len());
    lemma_ne_ignore_case("FEC"@, "DDP"@, 0);
    assert("DDP"@.len() != "LS"@.len());
    lemma_ne_ignore_case("DDP"@, "FID"@, 0);
    lemma_ne_ignore_case("DDP"@, "SRF"@, 0);
    assert("DDP"@.len() != "ANAT"@.len());
    lemma_ne_ignore_case("DDP"@, "FEC"@, 0);
    if eq_ignore_case(t, "LS"@) {
        lemma_eq_ignore_case_trans_iff(t, "LS"@, "FID"@);
        lemma_eq_ignore_case_trans_iff(t, "LS"@, "SRF"@);
        lemma_eq_ignore_case_trans_iff(t, "LS"@, "ANAT"@);
        lemma_eq_ignore_case_trans_iff(t, "LS"@, "FEC"@);
        lemma_eq_ignore_case_trans_iff(t, "LS"@, "DDP"@);
    }
    if eq_ignore_case(t, "FID"@) {
        lemma_eq_ignore_case_trans_iff(t, "FID"@, "LS"@);
        lemma_eq_ignore_case_trans_iff(t, "FID"@, "SRF"@);
        lemma_eq_ignore_case_trans_iff(t, "FID"@, "ANAT"@);
        lemma_eq_ignore_case_trans_iff(t, "FID"@, "FEC"@);
        lemma_eq_ignore_case_trans_iff(t, "FID"@, "DDP"@);
    }
    if eq_ignore_case(t, "SRF"@) {
        lemma_eq_ignore_case_trans_iff(t, "SRF"@, "LS"@);
        lemma_eq_ignore_case_trans_iff(t, "SRF"@, "FID"@);
        lemma_eq_ignore_case_trans_iff(t, "SRF"@, "ANAT"@);
        lemma_eq_ignore_case_trans_iff(t, "SRF"@, "FEC"@);
        lemma_eq_ignore_case_trans_iff(t, "SRF"@, "DDP"@);
    }
    if eq_ignore_case(t, "ANAT"@) {
        lemma_eq_ignore_case_trans_iff(t, "ANAT"@, "LS"@);
        lemma_eq_ignore_case_trans_iff(t, "ANAT"@, "FID"@);
        lemma_eq_ignore_case_trans_iff(t, "ANAT"@, "SRF"@);
        lemma_eq_ignore_case_trans_iff(t, "ANAT"@, "FEC"@);
        lemma_eq_ignore_case_trans_iff(t, "ANAT"@, "DDP"@);
    }
    if eq_ignore_case(t, "FEC"@) {
        lemma_eq_ignore_case_trans_iff(t, "FEC"@, "LS"@);
        lemma_eq_ignore_case_trans_iff(t, "FEC"@, "FID"@);
        lemma_eq_ignore_case_trans_iff(t, "FEC"@, "SRF"@);
        lemma_eq_ignore_case_trans_iff(t, "FEC"@, "ANAT"@);
        lemma_eq_ignore_case_trans_iff(t, "FEC"@, "DDP"@);
    }
    if eq_ignore_case(t, "DDP"@) {
        lemma_eq_ignore_case_trans_iff(t, "DDP"@, "LS"@);
        lemma_eq_ignore_case_trans_iff(t, "DDP"@, "FID"@);
        lemma_eq_ignore_case_trans_iff(t, "DDP"@, "SRF"@);
        lemma_eq_ignore_case_trans_iff(t, "DDP"@, "ANAT"@);
        lemma_eq_ignore_case_trans_iff(t, "DDP"@, "FEC"@);
    }
}

/// `FEC` and `FID` are read as those semantics in an `ssrc-group`, in any ASCII case.
pub proof fn lemma_ssrc_semantics_names(t: Seq<char>)
    ensures
        (ssrc_semantics_from(t) == GroupSemanticsModel::FEC) <==> eq_ignore_case(t, "FEC"@),
        (ssrc_semantics_from(t) == GroupSemanticsModel::FID) <==> eq_ignore_case(t, "FID"@),
        semantics_text(GroupSemanticsModel::FEC) == "FEC"@,
        semantics_text(GroupSemanticsModel::FID) == "FID"@,
{
    reveal_strlit("FEC");
    reveal_strlit("FID");
    lemma_ne_ignore_case("FEC"@, "FID"@, 1);
    lemma_ne_ignore_case("FID"@, "FEC"@, 1);
    if eq_ignore_case(t, "FEC"@) {
        lemma_eq_ignore_case_trans_iff(t, "FEC"@, "FID"@);
    }
    if eq_ignore_case(t, "FID"@) {
        lemma_eq_ignore_case_trans_iff(t, "FID"@, "FEC"@);
    }
}

} // verus!
