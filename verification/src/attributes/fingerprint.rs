//! The `fingerprint` attribute (RFC 8122 Section 5).

use crate::attributes::error::{
    invalid_value, param_not_found, result_model, AttributeError, AttributeErrorModel,
};
use crate::text::{
    lemma_splitn_pieces,
    lemma_eq_ignore_case_trans_iff,
    all_hex, chars_of, eq_ignore_case, eq_ignore_case_lit, has_no, hex_byte_upper,
    hex_digit_upper, hex_val, is_hex_digit, join, join_chars, lemma_eq_ignore_case_refl,
    lemma_ne_ignore_case, lemma_split_cons, lemma_split_join, lemma_split_len, lemma_splitn_len,
    push_chars, push_hex_byte_upper, push_str, push_string, split, split_chars, splitn,
    splitn_chars, string_of, views,
};
use vstd::prelude::*;

verus! {

#[verifier::external_type_specification]
#[verifier::external_body]
pub struct ExFromHexError(hex::FromHexError);

/// Text that `hex::decode` accepts: an even number of ASCII hexadecimal
/// digits, in either case.
pub open spec fn hex_decodes(s: Seq<char>) -> bool {
    all_hex(s) && s.len() % 2 == 0
}

/// The bytes of such a text: one per pair of digits, the first digit the
/// high half.
pub open spec fn hex_bytes(s: Seq<char>) -> Seq<u8> {
    Seq::new(s.len() / 2, |i: int| (hex_val(s[2 * i]) * 16 + hex_val(s[2 * i + 1])) as u8)
}

/// `hex::decode` (hex 0.4) on the UTF-8 bytes of `s`. As its source reads,
/// it returns `Ok` exactly when the byte length is even and every byte is an
/// ASCII hexadecimal digit, which for a `str` is the same as `hex_decodes`
/// of its characters, and then gives one byte per pair of digits, the first
/// digit the high half. Which error it returns otherwise is not stated.
#[verifier::external_body]
fn hex_decode(s: &str) -> (r: Result<Vec<u8>, hex::FromHexError>)
    ensures
        r is Ok <==> hex_decodes(s@),
        r matches Ok(v) ==> v@ == hex_bytes(s@),
{
    hex::decode(s)
}

#[derive(Debug, Clone, PartialEq)]
pub enum HashFunc {
    SHA1,
    SHA224,
    SHA256,
    SHA384,
    SHA512,
    MD5,
    MD2,
    Other(String),
}

pub enum HashFuncModel {
    SHA1,
    SHA224,
    SHA256,
    SHA384,
    SHA512,
    MD5,
    MD2,
    Other(Seq<char>),
}

impl DeepView for HashFunc {
    type V = HashFuncModel;

    open spec fn deep_view(&self) -> HashFuncModel {
        match self {
            HashFunc::SHA1 => HashFuncModel::SHA1,
            HashFunc::SHA224 => HashFuncModel::SHA224,
            HashFunc::SHA256 => HashFuncModel::SHA256,
            HashFunc::SHA384 => HashFuncModel::SHA384,
            HashFunc::SHA512 => HashFuncModel::SHA512,
            HashFunc::MD5 => HashFuncModel::MD5,
            HashFunc::MD2 => HashFuncModel::MD2,
            HashFunc::Other(o) => HashFuncModel::Other(o@),
        }
    }
}

/// The registered hash function names in any ASCII case; any other name is kept.
pub open spec fn hash_func_from(t: Seq<char>) -> HashFuncModel {
    if eq_ignore_case(t, "sha-1"@) {
        HashFuncModel::SHA1
    } else if eq_ignore_case(t, "sha-224"@) {
        HashFuncModel::SHA224
    } else if eq_ignore_case(t, "sha-256"@) {
        HashFuncModel::SHA256
    } else if eq_ignore_case(t, "sha-384"@) {
        HashFuncModel::SHA384
    } else if eq_ignore_case(t, "sha-512"@) {
        HashFuncModel::SHA512
    } else if eq_ignore_case(t, "md-5"@) {
        HashFuncModel::MD5
    } else if eq_ignore_case(t, "md-2"@) {
        HashFuncModel::MD2
    } else {
        HashFuncModel::Other(t)
    }
}

/// Hash functions that read back as themselves: the registered ones, and
/// names without spaces that no registered name matches up to case.
pub open spec fn hash_func_wf(h: HashFuncModel) -> bool {
    match h {
        HashFuncModel::Other(o) => {
            &&& has_no(o, ' ')
            &&& !eq_ignore_case(o, "sha-1"@)
            &&& !eq_ignore_case(o, "sha-224"@)
            &&& !eq_ignore_case(o, "sha-256"@)
            &&& !eq_ignore_case(o, "sha-384"@)
            &&& !eq_ignore_case(o, "sha-512"@)
            &&& !eq_ignore_case(o, "md-5"@)
            &&& !eq_ignore_case(o, "md-2"@)
        },
        _ => true,
    }
}

pub open spec fn hash_func_text(h: HashFuncModel) -> Seq<char> {
    match h {
        HashFuncModel::SHA1 => "sha-1"@,
        HashFuncModel::SHA224 => "sha-224"@,
        HashFuncModel::SHA256 => "sha-256"@,
        HashFuncModel::SHA384 => "sha-384"@,
        HashFuncModel::SHA512 => "sha-512"@,
        HashFuncModel::MD5 => "md-5"@,
        HashFuncModel::MD2 => "md-2"@,
        HashFuncModel::Other(o) => o,
    }
}

/// Fingerprint Attribute
///
/// See RFC 8122 Section 5.
#[derive(Debug, Clone, PartialEq)]
pub struct Fingerprint {
    /// Name of hash function used
    pub hash_func: HashFunc,
    /// Hash value
    pub fingerprint: Vec<u8>,
}

pub struct FingerprintModel {
    pub hash_func: HashFuncModel,
    pub fingerprint: Seq<u8>,
}

impl DeepView for Fingerprint {
    type V = FingerprintModel;

    open spec fn deep_view(&self) -> FingerprintModel {
        FingerprintModel { hash_func: self.hash_func.deep_view(), fingerprint: self.fingerprint@ }
    }
}

/// The bytes of the `:`-separated pieces `p[k..]`, each decoded as
/// hexadecimal, or the error of the first piece that does not decode.
pub open spec fn decode_pieces(p: Seq<Seq<char>>, k: int) -> Result<Seq<u8>, AttributeErrorModel>
    decreases p.len() - k,
{
    if k < 0 || k >= p.len() {
        Ok(seq![])
    } else if hex_decodes(p[k]) {
        match decode_pieces(p, k + 1) {
            Ok(r) => Ok(hex_bytes(p[k]) + r),
            Err(e) => Err(e),
        }
    } else {
        Err(
            AttributeErrorModel::InvalidParamValue {
                param: "Hash function"@,
                val: p[k],
                attr: "fingerprint"@,
            },
        )
    }
}

pub open spec fn byte_texts(b: Seq<u8>) -> Seq<Seq<char>> {
    b.map_values(|x: u8| hex_byte_upper(x))
}

impl FingerprintModel {
    /// `<hash function> <hash value>`, the hash value made of `:`-separated
    /// pieces of hexadecimal digits.
    pub open spec fn spec_parse(s: Seq<char>) -> Result<FingerprintModel, AttributeErrorModel> {
        let i = splitn(s, 2, ' ');
        if i.len() < 2 {
            Err(AttributeErrorModel::ParamNotFound { param: "Hash value"@, attr: "fingerprint"@ })
        } else {
            match decode_pieces(split(i[1], ':'), 0) {
                Err(e) => Err(e),
                Ok(b) => Ok(FingerprintModel { hash_func: hash_func_from(i[0]), fingerprint: b }),
            }
        }
    }

    /// The hash function, then the bytes as two upper-case hexadecimal
    /// digits each, the first after a space and the others after a `:`.
    pub open spec fn spec_display(self) -> Seq<char> {
        hash_func_text(self.hash_func) + if self.fingerprint.len() > 0 {
            seq![' '] + join(byte_texts(self.fingerprint), ':')
        } else {
            seq![]
        }
    }

    /// Values whose textual form reads back as themselves: at least one
    /// byte, and a hash function that reads back as itself.
    pub open spec fn well_formed(self) -> bool {
        &&& self.fingerprint.len() > 0
        &&& hash_func_wf(self.hash_func)
    }
}

fn hash_func_chars(t: &Vec<char>) -> (r: HashFunc)
    ensures
        r.deep_view() == hash_func_from(t@),
{
    if eq_ignore_case_lit(t, "sha-1") {
        HashFunc::SHA1
    } else if eq_ignore_case_lit(t, "sha-224") {
        HashFunc::SHA224
    } else if eq_ignore_case_lit(t, "sha-256") {
        HashFunc::SHA256
    } else if eq_ignore_case_lit(t, "sha-384") {
        HashFunc::SHA384
    } else if eq_ignore_case_lit(t, "sha-512") {
        HashFunc::SHA512
    } else if eq_ignore_case_lit(t, "md-5") {
        HashFunc::MD5
    } else if eq_ignore_case_lit(t, "md-2") {
        HashFunc::MD2
    } else {
        HashFunc::Other(string_of(t))
    }
}

impl Fingerprint {
    #[verifier::loop_isolation(false)]
    pub fn from_chars(s: &Vec<char>) -> (r: Result<Fingerprint, AttributeError>)
        ensures
            result_model(&r) == FingerprintModel::spec_parse(s@),
    {
        let i = splitn_chars(s, 2, ' ');
        proof {
            lemma_splitn_len(s@, 2, ' ');
        }
        let hash_func = hash_func_chars(&i[0]);
        if i.len() < 2 {
            return Err(param_not_found("Hash value", "fingerprint"));
        }
        let p = split_chars(&i[1], ':');
        let mut fingerprint: Vec<u8> = Vec::new();
        let n: usize = p.len();
        for j in 0..n
            invariant
                n == p@.len(),
                decode_pieces(views(p@), 0) == match decode_pieces(views(p@), j as int) {
                    Ok(r) => Ok(fingerprint@ + r),
                    Err(e) => Err(e),
                },
        {
            let t = string_of(&p[j]);
            match hex_decode(t.as_str()) {
                Err(_) => return Err(invalid_value("Hash function", &p[j], "fingerprint")),
                Ok(b) => {
                    let mut b = b;
                    let ghost before = fingerprint@;
                    let ghost bytes = b@;
                    fingerprint.append(&mut b);
                    proof {
                        match decode_pieces(views(p@), j + 1) {
                            Ok(r) => {
                                assert(before + (bytes + r) =~= fingerprint@ + r);
                            },
                            Err(e) => {},
                        }
                    }
                },
            }
        }
        assert(fingerprint@ + Seq::<u8>::empty() =~= fingerprint@);
        Ok(Fingerprint { hash_func, fingerprint })
    }

    pub fn from_str(s: &str) -> (r: Result<Fingerprint, AttributeError>)
        ensures
            result_model(&r) == FingerprintModel::spec_parse(s@),
    {
        Self::from_chars(&chars_of(s))
    }

    pub fn to_string(&self) -> (r: String)
        ensures
            r@ == self.deep_view().spec_display(),
    {
        let mut out: Vec<char> = Vec::new();
        match &self.hash_func {
            HashFunc::SHA1 => push_str(&mut out, "sha-1"),
            HashFunc::SHA224 => push_str(&mut out, "sha-224"),
            HashFunc::SHA256 => push_str(&mut out, "sha-256"),
            HashFunc::SHA384 => push_str(&mut out, "sha-384"),
            HashFunc::SHA512 => push_str(&mut out, "sha-512"),
            HashFunc::MD5 => push_str(&mut out, "md-5"),
            HashFunc::MD2 => push_str(&mut out, "md-2"),
            HashFunc::Other(o) => push_string(&mut out, o),
        }
        if self.fingerprint.len() > 0 {
            let mut t: Vec<Vec<char>> = Vec::new();
            let ghost m = byte_texts(self.fingerprint@);
            for j in 0..self.fingerprint.len()
                invariant
                    m == byte_texts(self.fingerprint@),
                    views(t@) =~= m.take(j as int),
            {
                let mut d: Vec<char> = Vec::new();
                push_hex_byte_upper(&mut d, self.fingerprint[j]);
                let ghost before = t@;
                t.push(d);
                assert(views(t@) =~= views(before).push(m[j as int]));
            }
            assert(m.take(m.len() as int) =~= m);
            out.push(' ');
            push_chars(&mut out, &join_chars(&t, ':'));
        }
        assert(out@ =~= self.deep_view().spec_display());
        string_of(&out)
    }
}

impl std::str::FromStr for Fingerprint {
    type Err = AttributeError;

    fn from_str(s: &str) -> (r: Result<Fingerprint, AttributeError>)
        ensures
            result_model(&r) == FingerprintModel::spec_parse(s@),
    {
        Fingerprint::from_str(s)
    }
}

proof fn lemma_hex_digit_upper(d: nat)
    requires
        d < 16,
    ensures
        is_hex_digit(hex_digit_upper(d)),
        hex_val(hex_digit_upper(d)) == d,
        hex_digit_upper(d) != ':',
        hex_digit_upper(d) != ' ',
{
}

proof fn lemma_byte_text(b: u8)
    ensures
        hex_decodes(hex_byte_upper(b)),
        hex_bytes(hex_byte_upper(b)) == seq![b],
        has_no(hex_byte_upper(b), ':'),
{
    let t = hex_byte_upper(b);
    lemma_hex_digit_upper((b / 16) as nat);
    lemma_hex_digit_upper((b % 16) as nat);
    assert((b / 16) * 16 + b % 16 == b);
    assert(hex_bytes(t) =~= seq![b]);
}

proof fn lemma_decode_pieces_from(b: Seq<u8>, k: int)
    requires
        0 <= k <= b.len(),
    ensures
        decode_pieces(byte_texts(b), k) == Ok::<Seq<u8>, AttributeErrorModel>(b.skip(k)),
    decreases b.len() - k,
{
    if k < b.len() {
        lemma_decode_pieces_from(b, k + 1);
        lemma_byte_text(b[k]);
        assert(byte_texts(b)[k] == hex_byte_upper(b[k]));
        assert(seq![b[k]] + b.skip(k + 1) =~= b.skip(k));
    } else {
        assert(b.skip(k) =~= Seq::<u8>::empty());
    }
}

proof fn lemma_hash_func_round_trip(h: HashFuncModel)
    requires
        hash_func_wf(h),
    ensures
        hash_func_from(hash_func_text(h)) == h,
        has_no(hash_func_text(h), ' '),
{
    reveal_strlit("sha-1");
    reveal_strlit("sha-224");
    reveal_strlit("sha-256");
    reveal_strlit("sha-384");
    reveal_strlit("sha-512");
    reveal_strlit("md-5");
    reveal_strlit("md-2");
    lemma_eq_ignore_case_refl(hash_func_text(h));
    match h {
        HashFuncModel::SHA256 => {
            lemma_ne_ignore_case("sha-256"@, "sha-224"@, 5);
        },
        HashFuncModel::SHA384 => {
            lemma_ne_ignore_case("sha-384"@, "sha-224"@, 4);
            lemma_ne_ignore_case("sha-384"@, "sha-256"@, 4);
        },
        HashFuncModel::SHA512 => {
            lemma_ne_ignore_case("sha-512"@, "sha-224"@, 4);
            lemma_ne_ignore_case("sha-512"@, "sha-256"@, 4);
            lemma_ne_ignore_case("sha-512"@, "sha-384"@, 4);
        },
        HashFuncModel::MD2 => {
            lemma_ne_ignore_case("md-2"@, "md-5"@, 3);
        },
        _ => {},
    }
}

/// Reading back the textual form of a well-formed `fingerprint` value gives
/// the value.
pub proof fn lemma_fingerprint_round_trip(v: FingerprintModel)
    requires
        v.well_formed(),
    ensures
        FingerprintModel::spec_parse(v.spec_display()) == Ok::<FingerprintModel, AttributeErrorModel>(
            v,
        ),
{
    lemma_hash_func_round_trip(v.hash_func);
    let name = hash_func_text(v.hash_func);
    let t = byte_texts(v.fingerprint);
    let j = join(t, ':');
    assert(v.spec_display() =~= name + seq![' '] + j);
    lemma_split_cons(name, ' ', j);
    assert(splitn(v.spec_display(), 2, ' ') == seq![name] + splitn(j, 1, ' '));
    assert(splitn(v.spec_display(), 2, ' ') =~= seq![name, j]);
    assert forall|i: int| 0 <= i < t.len() implies has_no(#[trigger] t[i], ':') by {
        lemma_byte_text(v.fingerprint[i]);
    }
    lemma_split_join(t, ':');
    lemma_decode_pieces_from(v.fingerprint, 0);
    assert(v.fingerprint.skip(0) =~= v.fingerprint);
}

/// Hash function names equal up to ASCII case read as the same registered hash function.
pub proof fn lemma_hash_func_case_insensitive(s: Seq<char>, t: Seq<char>)
    requires
        eq_ignore_case(s, t),
        !(hash_func_from(s) is Other),
    ensures
        hash_func_from(s) == hash_func_from(t),
{
    lemma_eq_ignore_case_trans_iff(s, t, "sha-1"@);
    lemma_eq_ignore_case_trans_iff(s, t, "sha-224"@);
    lemma_eq_ignore_case_trans_iff(s, t, "sha-256"@);
    lemma_eq_ignore_case_trans_iff(s, t, "sha-384"@);
    lemma_eq_ignore_case_trans_iff(s, t, "sha-512"@);
    lemma_eq_ignore_case_trans_iff(s, t, "md-5"@);
    lemma_eq_ignore_case_trans_iff(s, t, "md-2"@);
}

/// The textual form of a `fingerprint` value read from text reads back as
/// the same value, when the hash value read holds at least one byte.
pub proof fn lemma_fingerprint_canonical(s: Seq<char>)
    ensures
        FingerprintModel::spec_parse(s) matches Ok(v) ==> v.fingerprint.len() > 0
            ==> FingerprintModel::spec_parse(v.spec_display()) == Ok::<
            FingerprintModel,
            AttributeErrorModel,
        >(v),
{
    if let Ok(v) = FingerprintModel::spec_parse(s) {
        if v.fingerprint.len() > 0 {
            lemma_splitn_pieces(s, 2, ' ');
            assert(has_no(splitn(s, 2, ' ')[0], ' '));
            lemma_fingerprint_round_trip(v);
        }
    }
}

/// Each registered hash function is read from its own name, in any ASCII case, and written as that name.
pub proof fn lemma_hash_func_names(t: Seq<char>)
    ensures
        (hash_func_from(t) == HashFuncModel::SHA1) <==> eq_ignore_case(t, "sha-1"@),
        (hash_func_from(t) == HashFuncModel::SHA224) <==> eq_ignore_case(t, "sha-224"@),
        (hash_func_from(t) == HashFuncModel::SHA256) <==> eq_ignore_case(t, "sha-256"@),
        (hash_func_from(t) == HashFuncModel::SHA384) <==> eq_ignore_case(t, "sha-384"@),
        (hash_func_from(t) == HashFuncModel::SHA512) <==> eq_ignore_case(t, "sha-512"@),
        (hash_func_from(t) == HashFuncModel::MD5) <==> eq_ignore_case(t, "md-5"@),
        (hash_func_from(t) == HashFuncModel::MD2) <==> eq_ignore_case(t, "md-2"@),
        hash_func_text(HashFuncModel::SHA1) == "sha-1"@,
        hash_func_text(HashFuncModel::SHA224) == "sha-224"@,
        hash_func_text(HashFuncModel::SHA256) == "sha-256"@,
        hash_func_text(HashFuncModel::SHA384) == "sha-384"@,
        hash_func_text(HashFuncModel::SHA512) == "sha-512"@,
        hash_func_text(HashFuncModel::MD5) == "md-5"@,
        hash_func_text(HashFuncModel::MD2) == "md-2"@,
{
    reveal_strlit("sha-1");
    reveal_strlit("sha-224");
    reveal_strlit("sha-256");
    reveal_strlit("sha-384");
    reveal_strlit("sha-512");
    reveal_strlit("md-5");
    reveal_strlit("md-2");
    assert("sha-1"@.len() != "sha-224"@.len());
    assert("sha-1"@.len() != "sha-256"@.len());
    assert("sha-1"@.len() != "sha-384"@.len());
    assert("sha-1"@.len() != "sha-512"@.len());
    assert("sha-1"@.len() != "md-5"@.len());
    assert("sha-1"@.len() != "md-2"@.len());
    assert("sha-224"@.len() != "sha-1"@.len());
    lemma_ne_ignore_case("sha-224"@, "sha-256"@, 5);
    lemma_ne_ignore_case("sha-224"@, "sha-384"@, 4);
    lemma_ne_ignore_case("sha-224"@, "sha-512"@, 4);
    assert("sha-224"@.len() != "md-5"@.len());
    assert("sha-224"@.len() != "md-2"@.len());
    assert("sha-256"@.len() != "sha-1"@.len());
    lemma_ne_ignore_case("sha-256"@, "sha-224"@, 5);
    lemma_ne_ignore_case("sha-256"@, "sha-384"@, 4);
    lemma_ne_ignore_case("sha-256"@, "sha-512"@, 4);
    assert("sha-256"@.len() != "md-5"@.len());
    assert("sha-256"@.len() != "md-2"@.len());
    assert("sha-384"@.len() != "sha-1"@.len());
    lemma_ne_ignore_case("sha-384"@, "sha-224"@, 4);
    lemma_ne_ignore_case("sha-384"@, "sha-256"@, 4);
    lemma_ne_ignore_case("sha-384"@, "sha-512"@, 4);
    assert("sha-384"@.len() != "md-5"@.len());
    assert("sha-384"@.len() != "md-2"@.len());
    assert("sha-512"@.len() != "sha-1"@.len());
    lemma_ne_ignore_case("sha-512"@, "sha-224"@, 4);
    lemma_ne_ignore_case("sha-512"@, "sha-256"@, 4);
    lemma_ne_ignore_case("sha-512"@, "sha-384"@, 4);
    assert("sha-512"@.len() != "md-5"@.len());
    assert("sha-512"@.len() != "md-2"@.len());
    assert("md-5"@.len() != "sha-1"@.len());
    assert("md-5"@.len() != "sha-224"@.len());
    assert("md-5"@.len() != "sha-256"@.len());
    assert("md-5"@.len() != "sha-384"@.len());
    assert("md-5"@.len() != "sha-512"@.len());
    lemma_ne_ignore_case("md-5"@, "md-2"@, 3);
    assert("md-2"@.len() != "sha-1"@.len());
    assert("md-2"@.len() != "sha-224"@.len());
    assert("md-2"@.len() != "sha-256"@.len());
    assert("md-2"@.len() != "sha-384"@.len());
    assert("md-2"@.len() != "sha-512"@.len());
    lemma_ne_ignore_case("md-2"@, "md-5"@, 3);
    if eq_ignore_case(t, "sha-1"@) {
        lemma_eq_ignore_case_trans_iff(t, "sha-1"@, "sha-224"@);
        lemma_eq_ignore_case_trans_iff(t, "sha-1"@, "sha-256"@);
        lemma_eq_ignore_case_trans_iff(t, "sha-1"@, "sha-384"@);
        lemma_eq_ignore_case_trans_iff(t, "sha-1"@, "sha-512"@);
        lemma_eq_ignore_case_trans_iff(t, "sha-1"@, "md-5"@);
        lemma_eq_ignore_case_trans_iff(t, "sha-1"@, "md-2"@);
    }
    if eq_ignore_case(t, "sha-224"@) {
        lemma_eq_ignore_case_trans_iff(t, "sha-224"@, "sha-1"@);
        lemma_eq_ignore_case_trans_iff(t, "sha-224"@, "sha-256"@);
        lemma_eq_ignore_case_trans_iff(t, "sha-224"@, "sha-384"@);
        lemma_eq_ignore_case_trans_iff(t, "sha-224"@, "sha-512"@);
        lemma_eq_ignore_case_trans_iff(t, "sha-224"@, "md-5"@);
        lemma_eq_ignore_case_trans_iff(t, "sha-224"@, "md-2"@);
    }
    if eq_ignore_case(t, "sha-256"@) {
        lemma_eq_ignore_case_trans_iff(t, "sha-256"@, "sha-1"@);
        lemma_eq_ignore_case_trans_iff(t, "sha-256"@, "sha-224"@);
        lemma_eq_ignore_case_trans_iff(t, "sha-256"@, "sha-384"@);
        lemma_eq_ignore_case_trans_iff(t, "sha-256"@, "sha-512"@);
        lemma_eq_ignore_case_trans_iff(t, "sha-256"@, "md-5"@);
        lemma_eq_ignore_case_trans_iff(t, "sha-256"@, "md-2"@);
    }
    if eq_ignore_case(t, "sha-384"@) {
        lemma_eq_ignore_case_trans_iff(t, "sha-384"@, "sha-1"@);
        lemma_eq_ignore_case_trans_iff(t, "sha-384"@, "sha-224"@);
        lemma_eq_ignore_case_trans_iff(t, "sha-384"@, "sha-256"@);
        lemma_eq_ignore_case_trans_iff(t, "sha-384"@, "sha-512"@);
        lemma_eq_ignore_case_trans_iff(t, "sha-384"@, "md-5"@);
        lemma_eq_ignore_case_trans_iff(t, "sha-384"@, "md-2"@);
    }
    if eq_ignore_case(t, "sha-512"@) {
        lemma_eq_ignore_case_trans_iff(t, "sha-512"@, "sha-1"@);
        lemma_eq_ignore_case_trans_iff(t, "sha-512"@, "sha-224"@);
        lemma_eq_ignore_case_trans_iff(t, "sha-512"@, "sha-256"@);
        lemma_eq_ignore_case_trans_iff(t, "sha-512"@, "sha-384"@);
        lemma_eq_ignore_case_trans_iff(t, "sha-512"@, "md-5"@);
        lemma_eq_ignore_case_trans_iff(t, "sha-512"@, "md-2"@);
    }
    if eq_ignore_case(t, "md-5"@) {
        lemma_eq_ignore_case_trans_iff(t, "md-5"@, "sha-1"@);
        lemma_eq_ignore_case_trans_iff(t, "md-5"@, "sha-224"@);
        lemma_eq_ignore_case_trans_iff(t, "md-5"@, "sha-256"@);
        lemma_eq_ignore_case_trans_iff(t, "md-5"@, "sha-384"@);
        lemma_eq_ignore_case_trans_iff(t, "md-5"@, "sha-512"@);
        lemma_eq_ignore_case_trans_iff(t, "md-5"@, "md-2"@);
    }
    if eq_ignore_case(t, "md-2"@) {
        lemma_eq_ignore_case_trans_iff(t, "md-2"@, "sha-1"@);
        lemma_eq_ignore_case_trans_iff(t, "md-2"@, "sha-224"@);
        lemma_eq_ignore_case_trans_iff(t, "md-2"@, "sha-256"@);
        lemma_eq_ignore_case_trans_iff(t, "md-2"@, "sha-384"@);
        lemma_eq_ignore_case_trans_iff(t, "md-2"@, "sha-512"@);
        lemma_eq_ignore_case_trans_iff(t, "md-2"@, "md-5"@);
    }
}

} // verus!
