//! The `crypto` attribute of SDP security descriptions (RFC 4568).

use crate::attributes::error::{
    invalid_value, out_of_range, param_not_found, result_model, trailing_item, AttributeError,
    AttributeErrorModel,
};
use crate::text::{
    lemma_split_len,
    lemma_split_pieces_keep,
    lemma_split_pieces,
    lemma_eq_ignore_case_trans_iff,
    chars_of, decimal, is_digit, lemma_decimal, lemma_decimal_has_no, lemma_eq_ignore_case_refl,
    lemma_has_no_concat, lemma_join_has_no, lemma_ne_ignore_case, lemma_parse_decimal, lemma_split_join, lemma_split_cons, lemma_split_single, eq_ignore_case, eq_ignore_case_lit, eq_lit, has_no, join, join_chars,
    lower_char, parse_uint, parse_uint_chars, push_chars, push_decimal, push_str, split,
    split_chars, split_once, split_once_chars, string_of, strip_prefix, strip_prefix_lit, subvec,
    to_upper, upper, views,
};
use vstd::prelude::*;

verus! {

/// SRTP Key parameter
///
/// See RFC 4568 Section 6.1.
#[derive(Debug, PartialEq, Clone)]
pub struct SrtpKeyParam {
    /// Concatenated key and salt, base64 encoded
    pub key_and_salt: String,
    /// Master key lifetime (max number of SRTP or SRTCP packets using this master key)
    pub lifetime: Option<u32>,
    /// MKI (Master Key Identifier) and length of the MKI field in SRTP packets
    pub mki_and_length: Option<(u32, u32)>,
}

pub struct SrtpKeyParamModel {
    pub key_and_salt: Seq<char>,
    pub lifetime: Option<u32>,
    pub mki_and_length: Option<(u32, u32)>,
}

impl DeepView for SrtpKeyParam {
    type V = SrtpKeyParamModel;

    open spec fn deep_view(&self) -> SrtpKeyParamModel {
        SrtpKeyParamModel {
            key_and_salt: self.key_and_salt@,
            lifetime: self.lifetime,
            mki_and_length: self.mki_and_length,
        }
    }
}

/// `2^e`.
pub open spec fn pow2(e: nat) -> nat
    decreases e,
{
    if e == 0 {
        1
    } else {
        2 * pow2((e - 1) as nat)
    }
}

/// The exponent of `n` when `n` is a power of two.
pub open spec fn log2_exact(n: nat) -> Option<nat>
    decreases n,
{
    if n == 1 {
        Some(0)
    } else if n >= 2 && n % 2 == 0 {
        match log2_exact(n / 2) {
            Some(e) => Some(e + 1),
            None => None,
        }
    } else {
        None
    }
}

pub open spec fn key_err(param: Seq<char>, val: Seq<char>) -> AttributeErrorModel {
    AttributeErrorModel::InvalidParamValue { param, val, attr: "crypto"@ }
}

/// The MKI and its length, `<mki>:<length>`, `t` being the whole token.
pub open spec fn parse_mki(m: Seq<char>, l: Seq<char>, t: Seq<char>) -> Result<
    (u32, u32),
    AttributeErrorModel,
> {
    match parse_uint(m, 0xffff_ffff) {
        None => Err(key_err("MKI"@, t)),
        Some(mki) => match parse_uint(l, 0xffff_ffff) {
            None => Err(key_err("Length"@, t)),
            Some(len) => Ok((mki as u32, len as u32)),
        },
    }
}

/// A lifetime: `2^<exponent>` with an exponent below 32, or a number.
pub open spec fn parse_lifetime(t: Seq<char>) -> Result<u32, AttributeErrorModel> {
    match strip_prefix(t, "2^"@) {
        Some(e) => match parse_uint(e, 0xffff_ffff) {
            None => Err(key_err("Lifetime"@, t)),
            Some(exp) => if exp >= 32 {
                Err(key_err("Lifetime"@, decimal(exp) + "(expected 0-32)"@))
            } else {
                Ok(pow2(exp) as u32)
            },
        },
        None => match parse_uint(t, 0xffff_ffff) {
            None => Err(key_err("Lifetime"@, t)),
            Some(l) => Ok(l as u32),
        },
    }
}

/// The lifetime, the MKI and the number of `|`-separated pieces they took.
pub open spec fn parse_key_extras(k: Seq<Seq<char>>) -> Result<
    (Option<u32>, Option<(u32, u32)>, int),
    AttributeErrorModel,
> {
    if k.len() < 2 {
        Ok((None, None, 1))
    } else {
        let next = k[1];
        match split_once(next, ':') {
            Some((m, l)) => match parse_mki(m, l, next) {
                Ok(x) => Ok((None, Some(x), 2)),
                Err(e) => Err(e),
            },
            None => match parse_lifetime(next) {
                Err(e) => Err(e),
                Ok(lifetime) => if k.len() < 3 {
                    Ok((Some(lifetime), None, 2))
                } else {
                    let m = k[2];
                    match split_once(m, ':') {
                        None => Err(
                            AttributeErrorModel::ParamNotFound {
                                param: "MKI and Length"@,
                                attr: "crypto"@,
                            },
                        ),
                        Some((a, b)) => match parse_mki(a, b, m) {
                            Ok(x) => Ok((Some(lifetime), Some(x), 3)),
                            Err(e) => Err(e),
                        },
                    }
                },
            },
        }
    }
}

impl SrtpKeyParamModel {
    /// `inline:<key and salt>[|<lifetime>][|<mki>:<length>]`, the method
    /// name in any ASCII case.
    pub open spec fn spec_parse(s: Seq<char>) -> Result<SrtpKeyParamModel, AttributeErrorModel> {
        let k = split(s, '|');
        let first = k[0];
        if first.len() >= 7 && eq_ignore_case(first.take(7), "inline:"@) {
            match parse_key_extras(k) {
                Err(e) => Err(e),
                Ok((lifetime, mki_and_length, used)) => match mki_and_length {
                    Some((_, len)) if !(1 <= len && len <= 128) => Err(
                        key_err("MKI length"@, decimal(len as nat)),
                    ),
                    _ => if k.len() > used {
                        Err(
                            AttributeErrorModel::UnexpectedTrailingItem {
                                val: k[used],
                                attr: "crypto"@,
                            },
                        )
                    } else {
                        Ok(
                            SrtpKeyParamModel {
                                key_and_salt: first.skip(7),
                                lifetime,
                                mki_and_length,
                            },
                        )
                    },
                },
            }
        } else {
            Err(key_err("Strp Key and Salt"@, first))
        }
    }

    pub open spec fn spec_display(self) -> Seq<char> {
        "inline:"@ + self.key_and_salt + match self.lifetime {
            Some(l) => seq!['|'] + lifetime_text(l),
            None => seq![],
        } + match self.mki_and_length {
            Some((m, l)) => seq!['|'] + mki_text(m, l),
            None => seq![],
        }
    }

    /// Values whose textual form reads back as themselves: a key without
    /// `|`, and an MKI length in `1..=128`.
    pub open spec fn well_formed(self) -> bool {
        &&& has_no(self.key_and_salt, '|')
        &&& match self.mki_and_length {
            Some((_, l)) => 1 <= l && l <= 128,
            None => true,
        }
    }
}

/// A lifetime as written: `2^<exponent>` for a power of two, else decimal.
pub open spec fn lifetime_text(l: u32) -> Seq<char> {
    match log2_exact(l as nat) {
        Some(e) => "2^"@ + decimal(e),
        None => decimal(l as nat),
    }
}

/// An MKI and its length as written: `<mki>:<length>`.
pub open spec fn mki_text(m: u32, l: u32) -> Seq<char> {
    decimal(m as nat) + seq![':'] + decimal(l as nat)
}

// ---------------------------------------------------------------------------
// Executable key parameters
// ---------------------------------------------------------------------------

fn parse_mki_chars(m: &Vec<char>, l: &Vec<char>, t: &Vec<char>) -> (r: Result<
    (u32, u32),
    AttributeError,
>)
    ensures
        match r {
            Ok(x) => parse_mki(m@, l@, t@) == Ok::<(u32, u32), AttributeErrorModel>(x),
            Err(e) => parse_mki(m@, l@, t@) == Err::<(u32, u32), AttributeErrorModel>(
                e.deep_view(),
            ),
        },
{
    let mki = match parse_uint_chars(m, 0xffff_ffff) {
        None => return Err(invalid_value("MKI", t, "crypto")),
        Some(x) => x,
    };
    let len = match parse_uint_chars(l, 0xffff_ffff) {
        None => return Err(invalid_value("Length", t, "crypto")),
        Some(x) => x,
    };
    Ok((mki as u32, len as u32))
}

fn pow2_u32(e: u64) -> (r: u32)
    requires
        e < 32,
    ensures
        r as nat == pow2(e as nat),
{
    let mut r: u32 = 1;
    let mut i: u64 = 0;
    while i < e
        invariant
            i <= e < 32,
            r as nat == pow2(i as nat),
            pow2(i as nat) <= 0x8000_0000,
        decreases e - i,
    {
        proof {
            lemma_pow2_bound(i as nat + 1);
        }
        r = r * 2;
        i = i + 1;
    }
    r
}

proof fn lemma_pow2_bound(e: nat)
    requires
        e < 32,
    ensures
        pow2(e) <= 0x8000_0000,
        pow2(e) >= 1,
    decreases e,
{
    if e > 0 {
        lemma_pow2_bound((e - 1) as nat);
        if e == 31 {
            assert(pow2(30) == 0x4000_0000) by {
                lemma_pow2_value(30);
            }
        } else {
            lemma_pow2_mono((e - 1) as nat, 30);
            assert(pow2(30) == 0x4000_0000) by {
                lemma_pow2_value(30);
            }
        }
    }
}

proof fn lemma_pow2_value(e: nat)
    requires
        e == 30,
    ensures
        pow2(e) == 0x4000_0000,
{
    reveal_with_fuel(pow2, 31);
}

proof fn lemma_pow2_32()
    ensures
        pow2(32) == 0x1_0000_0000,
{
    reveal_with_fuel(pow2, 33);
}

proof fn lemma_pow2_mono(a: nat, b: nat)
    requires
        a <= b,
    ensures
        pow2(a) <= pow2(b),
    decreases b - a,
{
    if a < b {
        lemma_pow2_mono(a, (b - 1) as nat);
    }
}

fn parse_lifetime_chars(t: &Vec<char>) -> (r: Result<u32, AttributeError>)
    ensures
        match r {
            Ok(x) => parse_lifetime(t@) == Ok::<u32, AttributeErrorModel>(x),
            Err(e) => parse_lifetime(t@) == Err::<u32, AttributeErrorModel>(e.deep_view()),
        },
{
    match strip_prefix_lit(t, "2^") {
        Some(e) => match parse_uint_chars(&e, 0xffff_ffff) {
            None => Err(invalid_value("Lifetime", t, "crypto")),
            Some(exp) => if exp >= 32 {
                Err(out_of_range("Lifetime", exp, "(expected 0-32)", "crypto"))
            } else {
                Ok(pow2_u32(exp))
            },
        },
        None => match parse_uint_chars(t, 0xffff_ffff) {
            None => Err(invalid_value("Lifetime", t, "crypto")),
            Some(l) => Ok(l as u32),
        },
    }
}

fn parse_key_extras_chars(k: &Vec<Vec<char>>) -> (r: Result<
    (Option<u32>, Option<(u32, u32)>, usize),
    AttributeError,
>)
    ensures
        match r {
            Ok((a, b, c)) => parse_key_extras(views(k@)) == Ok::<
                (Option<u32>, Option<(u32, u32)>, int),
                AttributeErrorModel,
            >((a, b, c as int)),
            Err(e) => parse_key_extras(views(k@)) == Err::<
                (Option<u32>, Option<(u32, u32)>, int),
                AttributeErrorModel,
            >(e.deep_view()),
        },
{
    if k.len() < 2 {
        return Ok((None, None, 1));
    }
    let next = &k[1];
    match split_once_chars(next, ':') {
        Some((m, l)) => match parse_mki_chars(&m, &l, next) {
            Ok(x) => Ok((None, Some(x), 2)),
            Err(e) => Err(e),
        },
        None => {
            let lifetime = parse_lifetime_chars(next)?;
            if k.len() < 3 {
                return Ok((Some(lifetime), None, 2));
            }
            let m = &k[2];
            match split_once_chars(m, ':') {
                None => Err(param_not_found("MKI and Length", "crypto")),
                Some((a, b)) => match parse_mki_chars(&a, &b, m) {
                    Ok(x) => Ok((Some(lifetime), Some(x), 3)),
                    Err(e) => Err(e),
                },
            }
        },
    }
}

fn log2_exact_u32(n: u32) -> (r: Option<u64>)
    ensures
        match r {
            Some(e) => log2_exact(n as nat) == Some(e as nat),
            None => log2_exact(n as nat) is None,
        },
{
    let mut m: u32 = n;
    let mut e: u64 = 0;
    assert(pow2(0) == 1);
    assert((n as nat) * 1 == n as nat);
    while m >= 2 && m % 2 == 0
        invariant
            e < 32,
            n == 0 ==> m == 0,
            n == 0 || m >= 1,
            n > 0 ==> (m as nat) * pow2(e as nat) == n as nat,
            log2_exact(n as nat) == match log2_exact(m as nat) {
                Some(x) => Some((x + e) as nat),
                None => None,
            },
        decreases m,
    {
        let ghost old_m = m;
        m = m / 2;
        proof {
            if n > 0 {
                assert((m as nat) * pow2((e + 1) as nat) == n as nat) by (nonlinear_arith)
                    requires
                        old_m as nat * pow2(e as nat) == n as nat,
                        old_m == 2 * m,
                        pow2((e + 1) as nat) == 2 * pow2(e as nat),
                ;
                assert(pow2((e + 1) as nat) <= n as nat) by (nonlinear_arith)
                    requires
                        (m as nat) * pow2((e + 1) as nat) == n as nat,
                        m >= 1,
                ;
                if e + 1 >= 32 {
                    lemma_pow2_mono(32, (e + 1) as nat);
                    lemma_pow2_32();
                }
            }
        }
        e = e + 1;
    }
    if m == 1 {
        Some(e)
    } else {
        None
    }
}

impl SrtpKeyParam {
    pub fn from_chars(s: &Vec<char>) -> (r: Result<SrtpKeyParam, AttributeError>)
        ensures
            result_model(&r) == SrtpKeyParamModel::spec_parse(s@),
    {
        let k = split_chars(s, '|');
        proof {
            crate::text::lemma_split_len(s@, '|');
        }
        let first = &k[0];
        if first.len() < 7 {
            return Err(invalid_value("Strp Key and Salt", first, "crypto"));
        }
        let method = subvec(first, 0, 7);
        assert(method@ =~= first@.take(7));
        if !eq_ignore_case_lit(&method, "inline:") {
            return Err(invalid_value("Strp Key and Salt", first, "crypto"));
        }
        let (lifetime, mki_and_length, used) = parse_key_extras_chars(&k)?;
        if let Some((_, len)) = mki_and_length {
            if !(1 <= len && len <= 128) {
                let mut v: Vec<char> = Vec::new();
                push_decimal(&mut v, len as u64);
                return Err(invalid_value("MKI length", &v, "crypto"));
            }
        }
        if k.len() > used {
            return Err(trailing_item(&k[used], "crypto"));
        }
        let key = subvec(first, 7, first.len());
        assert(key@ =~= first@.skip(7));
        Ok(SrtpKeyParam { key_and_salt: string_of(&key), lifetime, mki_and_length })
    }

    pub fn from_str(s: &str) -> (r: Result<SrtpKeyParam, AttributeError>)
        ensures
            result_model(&r) == SrtpKeyParamModel::spec_parse(s@),
    {
        Self::from_chars(&chars_of(s))
    }

    /// Appends the textual form.
    pub fn push_text(&self, out: &mut Vec<char>)
        ensures
            final(out)@ == old(out)@ + self.deep_view().spec_display(),
    {
        let ghost start = out@;
        push_str(out, "inline:");
        push_str(out, self.key_and_salt.as_str());
        let ghost mid = out@;
        if let Some(l) = self.lifetime {
            match log2_exact_u32(l) {
                Some(e) => {
                    out.push('|');
                    push_str(out, "2^");
                    push_decimal(out, e);
                },
                None => {
                    out.push('|');
                    push_decimal(out, l as u64);
                },
            }
        }
        let ghost mid2 = out@;
        if let Some((m, l)) = self.mki_and_length {
            out.push('|');
            push_decimal(out, m as u64);
            out.push(':');
            push_decimal(out, l as u64);
        }
        assert(out@ =~= start + self.deep_view().spec_display());
    }

    pub fn to_string(&self) -> (r: String)
        ensures
            r@ == self.deep_view().spec_display(),
    {
        let mut out: Vec<char> = Vec::new();
        self.push_text(&mut out);
        string_of(&out)
    }
}

// ---------------------------------------------------------------------------
// Crypto attribute
// ---------------------------------------------------------------------------

/// Crypto suites of the IANA registry (RFC 4568 Section 10.3.2).
///
/// `F8_128_HMAC_SHA1_32` appears in the grammar of RFC 4568 Section 9.2 but
/// was never registered, so it is read as `Other`.
#[derive(Debug, PartialEq, Clone)]
pub enum CryptoSuite {
    /// AES_CM_128_HMAC_SHA1_80
    AesCm128HmacSha1_80,
    /// AES_CM_128_HMAC_SHA1_32
    AesCm128HmacSha1_32,
    /// F8_128_HMAC_SHA1_80
    F8_128HmacSha1_80,
    /// Other Crypto Suite
    Other(String),
}

pub enum CryptoSuiteModel {
    AesCm128HmacSha1_80,
    AesCm128HmacSha1_32,
    F8_128HmacSha1_80,
    Other(Seq<char>),
}

impl DeepView for CryptoSuite {
    type V = CryptoSuiteModel;

    open spec fn deep_view(&self) -> CryptoSuiteModel {
        match self {
            CryptoSuite::AesCm128HmacSha1_80 => CryptoSuiteModel::AesCm128HmacSha1_80,
            CryptoSuite::AesCm128HmacSha1_32 => CryptoSuiteModel::AesCm128HmacSha1_32,
            CryptoSuite::F8_128HmacSha1_80 => CryptoSuiteModel::F8_128HmacSha1_80,
            CryptoSuite::Other(o) => CryptoSuiteModel::Other(o@),
        }
    }
}

/// Signals whether FEC is applied before or after SRTP processing
///
/// See RFC 4568 Section 6.3.5.
#[derive(Debug, PartialEq, Eq, Clone, Copy)]
pub enum FecOrder {
    /// FEC is applied before SRTP processing
    FecSrtp,
    /// FEC is applied after SRTP processing
    SrtpFec,
}

/// SRTP session parameters
///
/// See RFC 4568 Section 6.3.
#[derive(Debug, PartialEq, Clone)]
pub enum SrtpSessionParam {
    /// Key Derivation Rate (RFC 4568 Section 6.3.1)
    Kdr(u8),
    /// Signals that the SRTP packets are without encryption (RFC 4568 Section 6.3.2)
    UnencryptedSrtp,
    /// Signals that the SRTCP packets are without encryption (RFC 4568 Section 6.3.2)
    UnencryptedSrtcp,
    /// Signals that the SRTP packets are not authenticated; not recommended (RFC 4568 Section 6.3.3)
    UnauthenticatedSrtp,
    /// Signals whether FEC is applied before or after SRTP processing (RFC 4568 Section 6.3.4)
    FecOrder(FecOrder),
    /// Signals the use of separate master key(s) for forward error correction (RFC 4568 Section 6.3.5)
    FecKey(Vec<SrtpKeyParam>),
    /// Window Size Hint - provides a hint for how big the SRTP Window size should be (RFC 4568 Section 6.3.6)
    Wsh(u8),
    /// Unknown parameter
    Extension(String),
}

pub enum SrtpSessionParamModel {
    Kdr(u8),
    UnencryptedSrtp,
    UnencryptedSrtcp,
    UnauthenticatedSrtp,
    FecOrder(FecOrder),
    FecKey(Seq<SrtpKeyParamModel>),
    Wsh(u8),
    Extension(Seq<char>),
}

impl DeepView for SrtpSessionParam {
    type V = SrtpSessionParamModel;

    open spec fn deep_view(&self) -> SrtpSessionParamModel {
        match self {
            SrtpSessionParam::Kdr(v) => SrtpSessionParamModel::Kdr(*v),
            SrtpSessionParam::UnencryptedSrtp => SrtpSessionParamModel::UnencryptedSrtp,
            SrtpSessionParam::UnencryptedSrtcp => SrtpSessionParamModel::UnencryptedSrtcp,
            SrtpSessionParam::UnauthenticatedSrtp => SrtpSessionParamModel::UnauthenticatedSrtp,
            SrtpSessionParam::FecOrder(f) => SrtpSessionParamModel::FecOrder(*f),
            SrtpSessionParam::FecKey(k) => SrtpSessionParamModel::FecKey(k.deep_view()),
            SrtpSessionParam::Wsh(v) => SrtpSessionParamModel::Wsh(*v),
            SrtpSessionParam::Extension(e) => SrtpSessionParamModel::Extension(e@),
        }
    }
}

/// Cryptographic information for the media
///
/// See RFC 4568 Section 4.
#[derive(Debug, PartialEq, Clone)]
pub struct Crypto {
    pub tag: u32,
    pub crypto_suite: CryptoSuite,
    pub key_params: Vec<SrtpKeyParam>,
    pub session_params: Vec<SrtpSessionParam>,
}

pub struct CryptoModel {
    pub tag: u32,
    pub crypto_suite: CryptoSuiteModel,
    pub key_params: Seq<SrtpKeyParamModel>,
    pub session_params: Seq<SrtpSessionParamModel>,
}

impl DeepView for Crypto {
    type V = CryptoModel;

    open spec fn deep_view(&self) -> CryptoModel {
        CryptoModel {
            tag: self.tag,
            crypto_suite: self.crypto_suite.deep_view(),
            key_params: self.key_params.deep_view(),
            session_params: self.session_params.deep_view(),
        }
    }
}

pub open spec fn suite_from(t: Seq<char>) -> CryptoSuiteModel {
    if eq_ignore_case(t, "AES_CM_128_HMAC_SHA1_32"@) {
        CryptoSuiteModel::AesCm128HmacSha1_32
    } else if eq_ignore_case(t, "F8_128_HMAC_SHA1_80"@) {
        CryptoSuiteModel::F8_128HmacSha1_80
    } else if eq_ignore_case(t, "AES_CM_128_HMAC_SHA1_80"@) {
        CryptoSuiteModel::AesCm128HmacSha1_80
    } else {
        CryptoSuiteModel::Other(t)
    }
}

pub open spec fn suite_text(c: CryptoSuiteModel) -> Seq<char> {
    match c {
        CryptoSuiteModel::AesCm128HmacSha1_80 => "AES_CM_128_HMAC_SHA1_80"@,
        CryptoSuiteModel::AesCm128HmacSha1_32 => "AES_CM_128_HMAC_SHA1_32"@,
        CryptoSuiteModel::F8_128HmacSha1_80 => "F8_128_HMAC_SHA1_80"@,
        CryptoSuiteModel::Other(o) => o,
    }
}

/// The key parameters `ps[k..]`, or the error of the first that does not read.
pub open spec fn parse_key_params(ps: Seq<Seq<char>>, k: int) -> Result<
    Seq<SrtpKeyParamModel>,
    AttributeErrorModel,
>
    decreases ps.len() - k,
{
    if k < 0 || k >= ps.len() {
        Ok(seq![])
    } else {
        match SrtpKeyParamModel::spec_parse(ps[k]) {
            Err(e) => Err(e),
            Ok(p) => match parse_key_params(ps, k + 1) {
                Err(e) => Err(e),
                Ok(r) => Ok(seq![p] + r),
            },
        }
    }
}

/// One session parameter; its name, and every value but that of `FEC_KEY`,
/// are read in upper case.
pub open spec fn session_param(t: Seq<char>) -> Result<SrtpSessionParamModel, AttributeErrorModel> {
    let u = upper(t);
    match strip_prefix(u, "KDR="@) {
        Some(v) => match parse_uint(v, 255) {
            None => Err(key_err("KDR"@, v)),
            Some(x) => if x > 24 {
                Err(key_err("KDR"@, decimal(x) + "(expected range 0..24)"@))
            } else {
                Ok(SrtpSessionParamModel::Kdr(x as u8))
            },
        },
        None => if u == "UNENCRYPTED_SRTCP"@ {
            Ok(SrtpSessionParamModel::UnencryptedSrtcp)
        } else if u == "UNENCRYPTED_SRTP"@ {
            Ok(SrtpSessionParamModel::UnencryptedSrtp)
        } else if u == "UNAUTHENTICATED_SRTP"@ {
            Ok(SrtpSessionParamModel::UnauthenticatedSrtp)
        } else {
            match strip_prefix(u, "FEC_ORDER="@) {
                Some(f) => if eq_ignore_case(f, "FEC_SRTP"@) {
                    Ok(SrtpSessionParamModel::FecOrder(FecOrder::FecSrtp))
                } else if eq_ignore_case(f, "SRTP_FEC"@) {
                    Ok(SrtpSessionParamModel::FecOrder(FecOrder::SrtpFec))
                } else {
                    Err(key_err("FEC order"@, u))
                },
                None => match strip_prefix(u, "FEC_KEY="@) {
                    Some(_) => match parse_key_params(split(t.skip(8), ';'), 0) {
                        Ok(k) => Ok(SrtpSessionParamModel::FecKey(k)),
                        Err(e) => Err(e),
                    },
                    None => match strip_prefix(u, "WSH="@) {
                        Some(v) => match parse_uint(v, 255) {
                            None => Err(key_err("WSH"@, v)),
                            Some(x) => if x < 64 {
                                Err(key_err("WSH"@, decimal(x)))
                            } else {
                                Ok(SrtpSessionParamModel::Wsh(x as u8))
                            },
                        },
                        None => Ok(SrtpSessionParamModel::Extension(u)),
                    },
                },
            }
        },
    }
}

/// The session parameters `i[k..]`, or the error of the first that does not read.
pub open spec fn parse_session_params(i: Seq<Seq<char>>, k: int) -> Result<
    Seq<SrtpSessionParamModel>,
    AttributeErrorModel,
>
    decreases i.len() - k,
{
    if k < 0 || k >= i.len() {
        Ok(seq![])
    } else {
        match session_param(i[k]) {
            Err(e) => Err(e),
            Ok(p) => match parse_session_params(i, k + 1) {
                Err(e) => Err(e),
                Ok(r) => Ok(seq![p] + r),
            },
        }
    }
}

pub open spec fn key_texts(k: Seq<SrtpKeyParamModel>) -> Seq<Seq<char>> {
    k.map_values(|p: SrtpKeyParamModel| p.spec_display())
}

pub open spec fn fec_order_text(o: FecOrder) -> Seq<char> {
    match o {
        FecOrder::FecSrtp => "FEC_SRTP"@,
        FecOrder::SrtpFec => "SRTP_FEC"@,
    }
}

pub open spec fn session_text(p: SrtpSessionParamModel) -> Seq<char> {
    match p {
        SrtpSessionParamModel::Kdr(v) => "KDR="@ + decimal(v as nat),
        SrtpSessionParamModel::UnencryptedSrtp => "UNENCRYPTED_SRTP"@,
        SrtpSessionParamModel::UnencryptedSrtcp => "UNENCRYPTED_SRTCP"@,
        SrtpSessionParamModel::UnauthenticatedSrtp => "UNAUTHENTICATED_SRTP"@,
        SrtpSessionParamModel::FecOrder(o) => "FEC_ORDER="@ + fec_order_text(o),
        SrtpSessionParamModel::FecKey(k) => if k.len() > 0 {
            "FEC_KEY="@ + join(key_texts(k), ';')
        } else {
            "FEC_KEY"@
        },
        SrtpSessionParamModel::Wsh(v) => "WSH="@ + decimal(v as nat),
        SrtpSessionParamModel::Extension(e) => e,
    }
}

impl CryptoModel {
    /// `<tag> <crypto-suite> <key-params> [<session-param>...]`, the key
    /// parameters separated by `;`.
    pub open spec fn spec_parse(s: Seq<char>) -> Result<CryptoModel, AttributeErrorModel> {
        let i = split(s, ' ');
        match parse_uint(i[0], 0xffff_ffff) {
            None => Err(key_err("Tag"@, i[0])),
            Some(tag) => if i.len() < 2 {
                Err(AttributeErrorModel::ParamNotFound { param: "CryptoSuite"@, attr: "crypto"@ })
            } else if i.len() < 3 {
                Err(AttributeErrorModel::ParamNotFound { param: "Key params"@, attr: "crypto"@ })
            } else {
                match parse_key_params(split(i[2], ';'), 0) {
                    Err(e) => Err(e),
                    Ok(key_params) => match parse_session_params(i, 3) {
                        Err(e) => Err(e),
                        Ok(session_params) => Ok(
                            CryptoModel {
                                tag: tag as u32,
                                crypto_suite: suite_from(i[1]),
                                key_params,
                                session_params,
                            },
                        ),
                    },
                }
            },
        }
    }

    pub open spec fn tokens(self) -> Seq<Seq<char>> {
        seq![decimal(self.tag as nat), suite_text(self.crypto_suite)] + (if self.key_params.len()
            > 0 {
            seq![join(key_texts(self.key_params), ';')]
        } else {
            seq![]
        }) + self.session_params.map_values(|p: SrtpSessionParamModel| session_text(p))
    }

    pub open spec fn spec_display(self) -> Seq<char> {
        join(self.tokens(), ' ')
    }
}

fn parse_key_params_chars(ps: &Vec<Vec<char>>) -> (r: Result<Vec<SrtpKeyParam>, AttributeError>)
    ensures
        match r {
            Ok(v) => parse_key_params(views(ps@), 0) == Ok::<
                Seq<SrtpKeyParamModel>,
                AttributeErrorModel,
            >(v.deep_view()),
            Err(e) => parse_key_params(views(ps@), 0) == Err::<
                Seq<SrtpKeyParamModel>,
                AttributeErrorModel,
            >(e.deep_view()),
        },
{
    let mut out: Vec<SrtpKeyParam> = Vec::new();
    let n: usize = ps.len();
    for j in 0..n
        invariant
            n == ps@.len(),
            parse_key_params(views(ps@), 0) == match parse_key_params(views(ps@), j as int) {
                Ok(r) => Ok(out.deep_view() + r),
                Err(e) => Err(e),
            },
    {
        let p = SrtpKeyParam::from_chars(&ps[j])?;
        let ghost before = out.deep_view();
        out.push(p);
        assert(out.deep_view() =~= before.push(p.deep_view()));
        proof {
            match parse_key_params(views(ps@), j + 1) {
                Ok(r) => {
                    assert(before + (seq![p.deep_view()] + r) =~= out.deep_view() + r);
                },
                Err(e) => {},
            }
        }
    }
    assert(out.deep_view() + Seq::<SrtpKeyParamModel>::empty() =~= out.deep_view());
    Ok(out)
}

fn session_param_chars(t: &Vec<char>) -> (r: Result<SrtpSessionParam, AttributeError>)
    ensures
        result_model(&r) == session_param(t@),
{
    let u = to_upper(t);
    if let Some(v) = strip_prefix_lit(&u, "KDR=") {
        return match parse_uint_chars(&v, 255) {
            None => Err(invalid_value("KDR", &v, "crypto")),
            Some(x) => if x > 24 {
                Err(out_of_range("KDR", x, "(expected range 0..24)", "crypto"))
            } else {
                Ok(SrtpSessionParam::Kdr(x as u8))
            },
        };
    }
    if eq_lit(&u, "UNENCRYPTED_SRTCP") {
        return Ok(SrtpSessionParam::UnencryptedSrtcp);
    }
    if eq_lit(&u, "UNENCRYPTED_SRTP") {
        return Ok(SrtpSessionParam::UnencryptedSrtp);
    }
    if eq_lit(&u, "UNAUTHENTICATED_SRTP") {
        return Ok(SrtpSessionParam::UnauthenticatedSrtp);
    }
    if let Some(f) = strip_prefix_lit(&u, "FEC_ORDER=") {
        return if eq_ignore_case_lit(&f, "FEC_SRTP") {
            Ok(SrtpSessionParam::FecOrder(FecOrder::FecSrtp))
        } else if eq_ignore_case_lit(&f, "SRTP_FEC") {
            Ok(SrtpSessionParam::FecOrder(FecOrder::SrtpFec))
        } else {
            Err(invalid_value("FEC order", &u, "crypto"))
        };
    }
    if let Some(_) = strip_prefix_lit(&u, "FEC_KEY=") {
        proof {
            reveal_strlit("FEC_KEY=");
        }
        let rest = subvec(t, 8, t.len());
        assert(rest@ =~= t@.skip(8));
        let ks = parse_key_params_chars(&split_chars(&rest, ';'))?;
        return Ok(SrtpSessionParam::FecKey(ks));
    }
    if let Some(v) = strip_prefix_lit(&u, "WSH=") {
        return match parse_uint_chars(&v, 255) {
            None => Err(invalid_value("WSH", &v, "crypto")),
            Some(x) => if x < 64 {
                let mut d: Vec<char> = Vec::new();
                push_decimal(&mut d, x);
                Err(invalid_value("WSH", &d, "crypto"))
            } else {
                Ok(SrtpSessionParam::Wsh(x as u8))
            },
        };
    }
    Ok(SrtpSessionParam::Extension(string_of(&u)))
}

fn suite_from_chars(t: &Vec<char>) -> (r: CryptoSuite)
    ensures
        r.deep_view() == suite_from(t@),
{
    if eq_ignore_case_lit(t, "AES_CM_128_HMAC_SHA1_32") {
        CryptoSuite::AesCm128HmacSha1_32
    } else if eq_ignore_case_lit(t, "F8_128_HMAC_SHA1_80") {
        CryptoSuite::F8_128HmacSha1_80
    } else if eq_ignore_case_lit(t, "AES_CM_128_HMAC_SHA1_80") {
        CryptoSuite::AesCm128HmacSha1_80
    } else {
        CryptoSuite::Other(string_of(t))
    }
}

impl Crypto {
    #[verifier::loop_isolation(false)]
    pub fn from_chars(s: &Vec<char>) -> (r: Result<Crypto, AttributeError>)
        ensures
            result_model(&r) == CryptoModel::spec_parse(s@),
    {
        let i = split_chars(s, ' ');
        proof {
            crate::text::lemma_split_len(s@, ' ');
        }
        let tag = match parse_uint_chars(&i[0], 0xffff_ffff) {
            None => return Err(invalid_value("Tag", &i[0], "crypto")),
            Some(t) => t,
        };
        if i.len() < 2 {
            return Err(param_not_found("CryptoSuite", "crypto"));
        }
        if i.len() < 3 {
            return Err(param_not_found("Key params", "crypto"));
        }
        let key_params = parse_key_params_chars(&split_chars(&i[2], ';'))?;
        let mut session_params: Vec<SrtpSessionParam> = Vec::new();
        let n: usize = i.len();
        for j in 3..n
            invariant
                n == i@.len(),
                parse_session_params(views(i@), 3) == match parse_session_params(
                    views(i@),
                    j as int,
                ) {
                    Ok(r) => Ok(session_params.deep_view() + r),
                    Err(e) => Err(e),
                },
        {
            let p = session_param_chars(&i[j])?;
            let ghost before = session_params.deep_view();
            session_params.push(p);
            assert(session_params.deep_view() =~= before.push(p.deep_view()));
            proof {
                match parse_session_params(views(i@), j + 1) {
                    Ok(r) => {
                        assert(before + (seq![p.deep_view()] + r) =~= session_params.deep_view()
                            + r);
                    },
                    Err(e) => {},
                }
            }
        }
        assert(session_params.deep_view() + Seq::<SrtpSessionParamModel>::empty()
            =~= session_params.deep_view());
        Ok(
            Crypto {
                tag: tag as u32,
                crypto_suite: suite_from_chars(&i[1]),
                key_params,
                session_params,
            },
        )
    }

    pub fn from_str(s: &str) -> (r: Result<Crypto, AttributeError>)
        ensures
            result_model(&r) == CryptoModel::spec_parse(s@),
    {
        Self::from_chars(&chars_of(s))
    }

    pub fn to_string(&self) -> (r: String)
        ensures
            r@ == self.deep_view().spec_display(),
    {
        let mut t: Vec<Vec<char>> = Vec::new();
        let mut d: Vec<char> = Vec::new();
        push_decimal(&mut d, self.tag as u64);
        t.push(d);
        let suite = match &self.crypto_suite {
            CryptoSuite::AesCm128HmacSha1_80 => chars_of("AES_CM_128_HMAC_SHA1_80"),
            CryptoSuite::AesCm128HmacSha1_32 => chars_of("AES_CM_128_HMAC_SHA1_32"),
            CryptoSuite::F8_128HmacSha1_80 => chars_of("F8_128_HMAC_SHA1_80"),
            CryptoSuite::Other(o) => chars_of(o.as_str()),
        };
        t.push(suite);
        if self.key_params.len() > 0 {
            t.push(join_chars(&key_text_vec(&self.key_params), ';'));
        }
        let ghost m = self.deep_view();
        let ghost head = views(t@);
        let ghost st = m.session_params.map_values(|p: SrtpSessionParamModel| session_text(p));
        assert(st.take(0) =~= Seq::<Seq<char>>::empty());
        assert(head + st.take(0) =~= head);
        for j in 0..self.session_params.len()
            invariant
                st == self.session_params.deep_view().map_values(
                    |p: SrtpSessionParamModel| session_text(p),
                ),
                views(t@) == head + st.take(j as int),
        {
            let ghost before = t@;
            t.push(session_text_chars(&self.session_params[j]));
            assert(views(t@) =~= views(before).push(st[j as int]));
            assert(st.take(j + 1) =~= st.take(j as int).push(st[j as int]));
        }
        assert(st.take(st.len() as int) =~= st);
        assert(views(t@) =~= m.tokens());
        string_of(&join_chars(&t, ' '))
    }
}

/// The textual forms of key parameters.
fn key_text_vec(k: &Vec<SrtpKeyParam>) -> (r: Vec<Vec<char>>)
    ensures
        views(r@) == key_texts(k.deep_view()),
{
    let mut r: Vec<Vec<char>> = Vec::new();
    for j in 0..k.len()
        invariant
            views(r@) =~= key_texts(k.deep_view()).take(j as int),
    {
        let mut v: Vec<char> = Vec::new();
        k[j].push_text(&mut v);
        let ghost before = r@;
        r.push(v);
        assert(views(r@) =~= views(before).push(v@));
    }
    assert(key_texts(k.deep_view()).take(k@.len() as int) =~= key_texts(k.deep_view()));
    r
}

fn session_text_chars(p: &SrtpSessionParam) -> (r: Vec<char>)
    ensures
        r@ == session_text(p.deep_view()),
{
    let mut out: Vec<char> = Vec::new();
    match p {
        SrtpSessionParam::Kdr(v) => {
            push_str(&mut out, "KDR=");
            push_decimal(&mut out, *v as u64);
        },
        SrtpSessionParam::UnencryptedSrtp => push_str(&mut out, "UNENCRYPTED_SRTP"),
        SrtpSessionParam::UnencryptedSrtcp => push_str(&mut out, "UNENCRYPTED_SRTCP"),
        SrtpSessionParam::UnauthenticatedSrtp => push_str(&mut out, "UNAUTHENTICATED_SRTP"),
        SrtpSessionParam::FecOrder(o) => {
            push_str(&mut out, "FEC_ORDER=");
            match o {
                FecOrder::FecSrtp => push_str(&mut out, "FEC_SRTP"),
                FecOrder::SrtpFec => push_str(&mut out, "SRTP_FEC"),
            }
        },
        SrtpSessionParam::FecKey(k) => {
            if k.len() > 0 {
                push_str(&mut out, "FEC_KEY=");
                push_chars(&mut out, &join_chars(&key_text_vec(k), ';'));
            } else {
                push_str(&mut out, "FEC_KEY");
            }
        },
        SrtpSessionParam::Wsh(v) => {
            push_str(&mut out, "WSH=");
            push_decimal(&mut out, *v as u64);
        },
        SrtpSessionParam::Extension(e) => push_str(&mut out, e.as_str()),
    }
    assert(out@ =~= session_text(p.deep_view()));
    out
}

impl std::str::FromStr for Crypto {
    type Err = AttributeError;

    fn from_str(s: &str) -> (r: Result<Crypto, AttributeError>)
        ensures
            result_model(&r) == CryptoModel::spec_parse(s@),
    {
        Crypto::from_str(s)
    }
}

impl std::str::FromStr for SrtpKeyParam {
    type Err = AttributeError;

    fn from_str(s: &str) -> (r: Result<SrtpKeyParam, AttributeError>)
        ensures
            result_model(&r) == SrtpKeyParamModel::spec_parse(s@),
    {
        SrtpKeyParam::from_str(s)
    }
}

// ---------------------------------------------------------------------------
// Reading back the textual forms
// ---------------------------------------------------------------------------

proof fn lemma_log2_exact(n: nat)
    ensures
        log2_exact(n) matches Some(e) ==> pow2(e) == n,
    decreases n,
{
    if n >= 2 && n % 2 == 0 {
        lemma_log2_exact(n / 2);
    }
}

/// A character that none of the number forms of a key parameter holds.
pub open spec fn key_free_char(c: char) -> bool {
    !is_digit(c) && c != '|' && c != ':' && c != '^'
}

proof fn lemma_lifetime_text(l: u32, c: char)
    requires
        key_free_char(c),
    ensures
        parse_lifetime(lifetime_text(l)) == Ok::<u32, AttributeErrorModel>(l),
        has_no(lifetime_text(l), c),
        has_no(lifetime_text(l), '|'),
        has_no(lifetime_text(l), ':'),
{
    reveal_strlit("2^");
    lemma_log2_exact(l as nat);
    match log2_exact(l as nat) {
        Some(e) => {
            if e >= 32 {
                lemma_pow2_mono(32, e);
                lemma_pow2_32();
            }
            let t = lifetime_text(l);
            assert(t.take(2) =~= "2^"@);
            assert(t.skip(2) =~= decimal(e));
            lemma_parse_decimal(e, 0xffff_ffff);
            lemma_decimal_has_no(e, c);
            lemma_decimal_has_no(e, '|');
            lemma_decimal_has_no(e, ':');
            lemma_has_no_concat("2^"@, decimal(e), c);
            lemma_has_no_concat("2^"@, decimal(e), '|');
            lemma_has_no_concat("2^"@, decimal(e), ':');
        },
        None => {
            let t = decimal(l as nat);
            lemma_decimal(l as nat);
            if t.len() >= 2 {
                assert(is_digit(t[1]));
                assert(t.take(2)[1] != "2^"@[1]);
            }
            lemma_parse_decimal(l as nat, 0xffff_ffff);
            lemma_decimal_has_no(l as nat, c);
            lemma_decimal_has_no(l as nat, '|');
            lemma_decimal_has_no(l as nat, ':');
        },
    }
}

proof fn lemma_mki_text(m: u32, l: u32, c: char)
    requires
        key_free_char(c),
    ensures
        split_once(mki_text(m, l), ':') == Some((decimal(m as nat), decimal(l as nat))),
        parse_mki(decimal(m as nat), decimal(l as nat), mki_text(m, l)) == Ok::<
            (u32, u32),
            AttributeErrorModel,
        >((m, l)),
        has_no(mki_text(m, l), c),
        has_no(mki_text(m, l), '|'),
{
    lemma_decimal_has_no(m as nat, ':');
    lemma_split_cons(decimal(m as nat), ':', decimal(l as nat));
    lemma_parse_decimal(m as nat, 0xffff_ffff);
    lemma_parse_decimal(l as nat, 0xffff_ffff);
    lemma_decimal_has_no(m as nat, c);
    lemma_decimal_has_no(l as nat, c);
    lemma_decimal_has_no(m as nat, '|');
    lemma_decimal_has_no(l as nat, '|');
    lemma_has_no_concat(decimal(m as nat), seq![':'], c);
    lemma_has_no_concat(decimal(m as nat) + seq![':'], decimal(l as nat), c);
    lemma_has_no_concat(decimal(m as nat), seq![':'], '|');
    lemma_has_no_concat(decimal(m as nat) + seq![':'], decimal(l as nat), '|');
}

/// The pieces that the textual form of a key parameter splits into at `|`.
pub open spec fn key_pieces(p: SrtpKeyParamModel) -> Seq<Seq<char>> {
    seq!["inline:"@ + p.key_and_salt] + match p.lifetime {
        Some(l) => seq![lifetime_text(l)],
        None => seq![],
    } + match p.mki_and_length {
        Some((m, l)) => seq![mki_text(m, l)],
        None => seq![],
    }
}

proof fn lemma_key_split(p: SrtpKeyParamModel)
    requires
        p.well_formed(),
    ensures
        split(p.spec_display(), '|') == key_pieces(p),
{
    let first = "inline:"@ + p.key_and_salt;
    reveal_strlit("inline:");
    assert(has_no("inline:"@, '|'));
    lemma_has_no_concat("inline:"@, p.key_and_salt, '|');
    let d = p.spec_display();
    match (p.lifetime, p.mki_and_length) {
        (None, None) => {
            assert(d =~= first);
            lemma_split_single(first, '|');
            assert(key_pieces(p) =~= seq![first]);
        },
        (Some(l), None) => {
            lemma_lifetime_text(l, ' ');
            let lt = lifetime_text(l);
            assert(d =~= first + seq!['|'] + lt);
            lemma_split_cons(first, '|', lt);
            lemma_split_single(lt, '|');
            assert(key_pieces(p) =~= seq![first, lt]);
        },
        (None, Some((m, n))) => {
            lemma_mki_text(m, n, ' ');
            let mt = mki_text(m, n);
            assert(d =~= first + seq!['|'] + mt);
            lemma_split_cons(first, '|', mt);
            lemma_split_single(mt, '|');
            assert(key_pieces(p) =~= seq![first, mt]);
        },
        (Some(l), Some((m, n))) => {
            lemma_lifetime_text(l, ' ');
            lemma_mki_text(m, n, ' ');
            let lt = lifetime_text(l);
            let mt = mki_text(m, n);
            assert(d =~= first + seq!['|'] + (lt + seq!['|'] + mt));
            lemma_split_cons(first, '|', lt + seq!['|'] + mt);
            lemma_split_cons(lt, '|', mt);
            lemma_split_single(mt, '|');
            assert(key_pieces(p) =~= seq![first, lt, mt]);
        },
    }
}

proof fn lemma_key_extras(p: SrtpKeyParamModel)
    requires
        p.well_formed(),
    ensures
        parse_key_extras(key_pieces(p)) == Ok::<
            (Option<u32>, Option<(u32, u32)>, int),
            AttributeErrorModel,
        >((p.lifetime, p.mki_and_length, key_pieces(p).len() as int)),
{
    let k = key_pieces(p);
    match (p.lifetime, p.mki_and_length) {
        (None, None) => {
            assert(k.len() == 1);
        },
        (Some(l), None) => {
            lemma_lifetime_text(l, ' ');
            lemma_split_single(lifetime_text(l), ':');
            assert(k[1] == lifetime_text(l));
        },
        (None, Some((m, n))) => {
            lemma_mki_text(m, n, ' ');
            assert(k[1] == mki_text(m, n));
        },
        (Some(l), Some((m, n))) => {
            lemma_lifetime_text(l, ' ');
            lemma_split_single(lifetime_text(l), ':');
            lemma_mki_text(m, n, ' ');
            assert(k[1] == lifetime_text(l));
            assert(k[2] == mki_text(m, n));
        },
    }
}

/// Reading back the textual form of a well-formed key parameter gives it back.
pub proof fn lemma_srtp_key_param_round_trip(p: SrtpKeyParamModel)
    requires
        p.well_formed(),
    ensures
        SrtpKeyParamModel::spec_parse(p.spec_display()) == Ok::<
            SrtpKeyParamModel,
            AttributeErrorModel,
        >(p),
{
    lemma_key_split(p);
    lemma_key_extras(p);
    let k = key_pieces(p);
    let first = "inline:"@ + p.key_and_salt;
    reveal_strlit("inline:");
    assert(k[0] == first);
    assert(first.take(7) =~= "inline:"@);
    lemma_eq_ignore_case_refl("inline:"@);
    assert(first.skip(7) =~= p.key_and_salt);
}

/// The textual form of a key parameter holds a `c` only where its key does.
pub proof fn lemma_key_text_has_no(p: SrtpKeyParamModel, c: char)
    requires
        key_free_char(c),
        has_no(p.key_and_salt, c),
        !"inline:"@.contains(c),
    ensures
        has_no(p.spec_display(), c),
{
    let first = "inline:"@ + p.key_and_salt;
    assert(has_no("inline:"@, c));
    lemma_has_no_concat("inline:"@, p.key_and_salt, c);
    let a = match p.lifetime {
        Some(l) => seq!['|'] + lifetime_text(l),
        None => seq![],
    };
    let b = match p.mki_and_length {
        Some((m, l)) => seq!['|'] + mki_text(m, l),
        None => seq![],
    };
    match p.lifetime {
        Some(l) => {
            lemma_lifetime_text(l, c);
            lemma_has_no_concat(seq!['|'], lifetime_text(l), c);
        },
        None => {},
    }
    match p.mki_and_length {
        Some((m, l)) => {
            lemma_mki_text(m, l, c);
            lemma_has_no_concat(seq!['|'], mki_text(m, l), c);
        },
        None => {},
    }
    lemma_has_no_concat(first, a, c);
    lemma_has_no_concat(first + a, b, c);
}

/// Key parameter lists whose textual form reads back as themselves: at
/// least one key, and keys that hold no `;` and no space.
pub open spec fn key_list_wf(ks: Seq<SrtpKeyParamModel>) -> bool {
    &&& ks.len() > 0
    &&& forall|i: int|
        0 <= i < ks.len() ==> {
            &&& (#[trigger] ks[i]).well_formed()
            &&& has_no(ks[i].key_and_salt, ';')
            &&& has_no(ks[i].key_and_salt, ' ')
        }
}

proof fn lemma_parse_key_params_from(ks: Seq<SrtpKeyParamModel>, k: int)
    requires
        0 <= k <= ks.len(),
        forall|i: int| 0 <= i < ks.len() ==> (#[trigger] ks[i]).well_formed(),
    ensures
        parse_key_params(key_texts(ks), k) == Ok::<Seq<SrtpKeyParamModel>, AttributeErrorModel>(
            ks.skip(k),
        ),
    decreases ks.len() - k,
{
    if k < ks.len() {
        lemma_parse_key_params_from(ks, k + 1);
        lemma_srtp_key_param_round_trip(ks[k]);
        assert(key_texts(ks)[k] == ks[k].spec_display());
        assert(seq![ks[k]] + ks.skip(k + 1) =~= ks.skip(k));
    } else {
        assert(ks.skip(k) =~= Seq::<SrtpKeyParamModel>::empty());
    }
}

/// Reading back a list of key parameters joined with `;` gives the list.
pub proof fn lemma_key_list_round_trip(ks: Seq<SrtpKeyParamModel>)
    requires
        key_list_wf(ks),
    ensures
        parse_key_params(split(join(key_texts(ks), ';'), ';'), 0) == Ok::<
            Seq<SrtpKeyParamModel>,
            AttributeErrorModel,
        >(ks),
        has_no(join(key_texts(ks), ';'), ' '),
{
    let t = key_texts(ks);
    reveal_strlit("inline:");
    assert(!"inline:"@.contains(';'));
    assert(!"inline:"@.contains(' '));
    assert forall|i: int| 0 <= i < t.len() implies has_no(#[trigger] t[i], ';') && has_no(
        t[i],
        ' ',
    ) by {
        lemma_key_text_has_no(ks[i], ';');
        lemma_key_text_has_no(ks[i], ' ');
    }
    lemma_split_join(t, ';');
    lemma_join_has_no(t, ';', ' ');
    lemma_parse_key_params_from(ks, 0);
    assert(ks.skip(0) =~= ks);
}

/// Text without ASCII lower-case letters.
pub open spec fn no_lower(s: Seq<char>) -> bool {
    forall|i: int| 0 <= i < s.len() ==> !('a' <= #[trigger] s[i] && s[i] <= 'z')
}

proof fn lemma_upper_fixed(s: Seq<char>)
    requires
        no_lower(s),
    ensures
        upper(s) == s,
{
    assert(upper(s) =~= s);
}

proof fn lemma_no_lower_concat(a: Seq<char>, b: Seq<char>)
    requires
        no_lower(a),
        no_lower(b),
    ensures
        no_lower(a + b),
{
    assert forall|i: int| 0 <= i < (a + b).len() implies !('a' <= #[trigger] (a + b)[i] && (a
        + b)[i] <= 'z') by {
        if i < a.len() {
            assert((a + b)[i] == a[i]);
        } else {
            assert((a + b)[i] == b[i - a.len()]);
        }
    }
}

proof fn lemma_decimal_no_lower(n: nat)
    ensures
        no_lower(decimal(n)),
{
    lemma_decimal(n);
}

/// Extension parameters that read back as themselves: upper case, without
/// spaces, and not in the form of a known parameter.
pub open spec fn extension_wf(e: Seq<char>) -> bool {
    &&& has_no(e, ' ')
    &&& upper(e) == e
    &&& strip_prefix(e, "KDR="@) is None
    &&& e != "UNENCRYPTED_SRTCP"@
    &&& e != "UNENCRYPTED_SRTP"@
    &&& e != "UNAUTHENTICATED_SRTP"@
    &&& strip_prefix(e, "FEC_ORDER="@) is None
    &&& strip_prefix(e, "FEC_KEY="@) is None
    &&& strip_prefix(e, "WSH="@) is None
}

/// Session parameters whose textual form reads back as themselves.
pub open spec fn session_wf(p: SrtpSessionParamModel) -> bool {
    match p {
        SrtpSessionParamModel::Kdr(v) => v <= 24,
        SrtpSessionParamModel::Wsh(v) => v >= 64,
        SrtpSessionParamModel::FecKey(k) => key_list_wf(k),
        SrtpSessionParamModel::Extension(e) => extension_wf(e),
        _ => true,
    }
}

proof fn lemma_kdr_text(v: u8)
    requires
        v <= 24,
    ensures
        session_param(session_text(SrtpSessionParamModel::Kdr(v))) == Ok::<
            SrtpSessionParamModel,
            AttributeErrorModel,
        >(SrtpSessionParamModel::Kdr(v)),
        has_no(session_text(SrtpSessionParamModel::Kdr(v)), ' '),
{
    let d = decimal(v as nat);
    let t = "KDR="@ + d;
    reveal_strlit("KDR=");
    assert(no_lower("KDR="@));
    lemma_decimal_no_lower(v as nat);
    lemma_no_lower_concat("KDR="@, d);
    lemma_upper_fixed(t);
    assert(t.take(4) =~= "KDR="@);
    assert(t.skip(4) =~= d);
    lemma_parse_decimal(v as nat, 255);
    lemma_decimal_has_no(v as nat, ' ');
    lemma_has_no_concat("KDR="@, d, ' ');
}

proof fn lemma_wsh_text(v: u8)
    requires
        v >= 64,
    ensures
        session_param(session_text(SrtpSessionParamModel::Wsh(v))) == Ok::<
            SrtpSessionParamModel,
            AttributeErrorModel,
        >(SrtpSessionParamModel::Wsh(v)),
        has_no(session_text(SrtpSessionParamModel::Wsh(v)), ' '),
{
    let d = decimal(v as nat);
    let t = "WSH="@ + d;
    reveal_strlit("WSH=");
    reveal_strlit("KDR=");
    reveal_strlit("UNENCRYPTED_SRTCP");
    reveal_strlit("UNENCRYPTED_SRTP");
    reveal_strlit("UNAUTHENTICATED_SRTP");
    reveal_strlit("FEC_ORDER=");
    reveal_strlit("FEC_KEY=");
    assert(no_lower("WSH="@));
    lemma_decimal_no_lower(v as nat);
    lemma_no_lower_concat("WSH="@, d);
    lemma_upper_fixed(t);
    assert(t[0] == 'W');
    assert(t.take(4)[0] != "KDR="@[0]);
    assert(t != "UNENCRYPTED_SRTCP"@ && t != "UNENCRYPTED_SRTP"@ && t != "UNAUTHENTICATED_SRTP"@)
        by {
        assert(t[0] != "UNENCRYPTED_SRTP"@[0]);
    }
    if t.len() >= 10 {
        assert(t.take(10)[0] != "FEC_ORDER="@[0]);
    }
    if t.len() >= 8 {
        assert(t.take(8)[0] != "FEC_KEY="@[0]);
    }
    assert(t.take(4) =~= "WSH="@);
    assert(t.skip(4) =~= d);
    lemma_parse_decimal(v as nat, 255);
    lemma_decimal_has_no(v as nat, ' ');
    lemma_has_no_concat("WSH="@, d, ' ');
}

proof fn lemma_flag_texts()
    ensures
        session_param(session_text(SrtpSessionParamModel::UnencryptedSrtp)) == Ok::<
            SrtpSessionParamModel,
            AttributeErrorModel,
        >(SrtpSessionParamModel::UnencryptedSrtp),
        session_param(session_text(SrtpSessionParamModel::UnencryptedSrtcp)) == Ok::<
            SrtpSessionParamModel,
            AttributeErrorModel,
        >(SrtpSessionParamModel::UnencryptedSrtcp),
        session_param(session_text(SrtpSessionParamModel::UnauthenticatedSrtp)) == Ok::<
            SrtpSessionParamModel,
            AttributeErrorModel,
        >(SrtpSessionParamModel::UnauthenticatedSrtp),
        has_no("UNENCRYPTED_SRTP"@, ' '),
        has_no("UNENCRYPTED_SRTCP"@, ' '),
        has_no("UNAUTHENTICATED_SRTP"@, ' '),
{
    reveal_strlit("KDR=");
    reveal_strlit("UNENCRYPTED_SRTCP");
    reveal_strlit("UNENCRYPTED_SRTP");
    reveal_strlit("UNAUTHENTICATED_SRTP");
    let a = "UNENCRYPTED_SRTP"@;
    let b = "UNENCRYPTED_SRTCP"@;
    let c = "UNAUTHENTICATED_SRTP"@;
    assert(no_lower(a));
    assert(no_lower(b));
    assert(no_lower(c));
    lemma_upper_fixed(a);
    lemma_upper_fixed(b);
    lemma_upper_fixed(c);
    assert(a.take(4)[0] != "KDR="@[0]);
    assert(b.take(4)[0] != "KDR="@[0]);
    assert(c.take(4)[0] != "KDR="@[0]);
    assert(a.len() != b.len());
    assert(c.len() != b.len() && c.len() != a.len());
}

proof fn lemma_fec_order_text(o: FecOrder)
    ensures
        session_param(session_text(SrtpSessionParamModel::FecOrder(o))) == Ok::<
            SrtpSessionParamModel,
            AttributeErrorModel,
        >(SrtpSessionParamModel::FecOrder(o)),
        has_no(session_text(SrtpSessionParamModel::FecOrder(o)), ' '),
{
    reveal_strlit("KDR=");
    reveal_strlit("UNENCRYPTED_SRTCP");
    reveal_strlit("UNENCRYPTED_SRTP");
    reveal_strlit("UNAUTHENTICATED_SRTP");
    reveal_strlit("FEC_ORDER=");
    reveal_strlit("FEC_SRTP");
    reveal_strlit("SRTP_FEC");
    let f = fec_order_text(o);
    let t = "FEC_ORDER="@ + f;
    assert(no_lower("FEC_ORDER="@));
    assert(no_lower(f));
    lemma_no_lower_concat("FEC_ORDER="@, f);
    lemma_upper_fixed(t);
    assert(t[0] == 'F');
    assert(t.take(4)[0] != "KDR="@[0]);
    assert(t != "UNENCRYPTED_SRTCP"@ && t != "UNENCRYPTED_SRTP"@ && t != "UNAUTHENTICATED_SRTP"@)
        by {
        assert(t[0] != "UNENCRYPTED_SRTP"@[0]);
    }
    assert(t.take(10) =~= "FEC_ORDER="@);
    assert(t.skip(10) =~= f);
    lemma_eq_ignore_case_refl(f);
    if o == FecOrder::SrtpFec {
        lemma_ne_ignore_case(f, "FEC_SRTP"@, 0);
    }
    assert(has_no("FEC_ORDER="@, ' '));
    assert(has_no(f, ' '));
    lemma_has_no_concat("FEC_ORDER="@, f, ' ');
}

proof fn lemma_fec_key_text(k: Seq<SrtpKeyParamModel>)
    requires
        key_list_wf(k),
    ensures
        session_param(session_text(SrtpSessionParamModel::FecKey(k))) == Ok::<
            SrtpSessionParamModel,
            AttributeErrorModel,
        >(SrtpSessionParamModel::FecKey(k)),
        has_no(session_text(SrtpSessionParamModel::FecKey(k)), ' '),
{
    reveal_strlit("KDR=");
    reveal_strlit("UNENCRYPTED_SRTCP");
    reveal_strlit("UNENCRYPTED_SRTP");
    reveal_strlit("UNAUTHENTICATED_SRTP");
    reveal_strlit("FEC_ORDER=");
    reveal_strlit("FEC_KEY=");
    let j = join(key_texts(k), ';');
    let t = "FEC_KEY="@ + j;
    let u = upper(t);
    assert(no_lower("FEC_KEY="@));
    assert(u.take(8) =~= "FEC_KEY="@);
    assert(u[0] == 'F');
    assert(u.take(4)[0] != "KDR="@[0]);
    assert(u != "UNENCRYPTED_SRTCP"@ && u != "UNENCRYPTED_SRTP"@ && u != "UNAUTHENTICATED_SRTP"@)
        by {
        assert(u[0] != "UNENCRYPTED_SRTP"@[0]);
    }
    if u.len() >= 10 {
        assert(u.take(10)[4] != "FEC_ORDER="@[4]);
    }
    assert(t.skip(8) =~= j);
    lemma_key_list_round_trip(k);
    assert(has_no("FEC_KEY="@, ' '));
    lemma_has_no_concat("FEC_KEY="@, j, ' ');
}

/// Reading back the textual form of a session parameter gives it back.
pub proof fn lemma_session_param_round_trip(p: SrtpSessionParamModel)
    requires
        session_wf(p),
    ensures
        session_param(session_text(p)) == Ok::<SrtpSessionParamModel, AttributeErrorModel>(p),
        has_no(session_text(p), ' '),
{
    lemma_flag_texts();
    match p {
        SrtpSessionParamModel::Kdr(v) => lemma_kdr_text(v),
        SrtpSessionParamModel::Wsh(v) => lemma_wsh_text(v),
        SrtpSessionParamModel::FecOrder(o) => lemma_fec_order_text(o),
        SrtpSessionParamModel::FecKey(k) => lemma_fec_key_text(k),
        _ => {},
    }
}

/// Crypto suites that read back as themselves: a suite of the registry, or
/// another name without spaces that no name of the registry matches up to case.
pub open spec fn suite_wf(c: CryptoSuiteModel) -> bool {
    match c {
        CryptoSuiteModel::Other(o) => {
            &&& has_no(o, ' ')
            &&& !eq_ignore_case(o, "AES_CM_128_HMAC_SHA1_32"@)
            &&& !eq_ignore_case(o, "F8_128_HMAC_SHA1_80"@)
            &&& !eq_ignore_case(o, "AES_CM_128_HMAC_SHA1_80"@)
        },
        _ => true,
    }
}

impl CryptoModel {
    /// Values whose textual form reads back as themselves.
    pub open spec fn well_formed(self) -> bool {
        &&& suite_wf(self.crypto_suite)
        &&& key_list_wf(self.key_params)
        &&& forall|i: int|
            0 <= i < self.session_params.len() ==> session_wf(#[trigger] self.session_params[i])
    }
}

proof fn lemma_suite_round_trip(c: CryptoSuiteModel)
    requires
        suite_wf(c),
    ensures
        suite_from(suite_text(c)) == c,
        has_no(suite_text(c), ' '),
{
    reveal_strlit("AES_CM_128_HMAC_SHA1_32");
    reveal_strlit("F8_128_HMAC_SHA1_80");
    reveal_strlit("AES_CM_128_HMAC_SHA1_80");
    let a32 = "AES_CM_128_HMAC_SHA1_32"@;
    let f80 = "F8_128_HMAC_SHA1_80"@;
    let a80 = "AES_CM_128_HMAC_SHA1_80"@;
    lemma_eq_ignore_case_refl(a32);
    lemma_eq_ignore_case_refl(f80);
    lemma_eq_ignore_case_refl(a80);
    assert(a80.len() != f80.len());
    assert(a32.len() != f80.len());
    lemma_ne_ignore_case(a80, a32, 21);
    assert(has_no(a32, ' '));
    assert(has_no(f80, ' '));
    assert(has_no(a80, ' '));
}

proof fn lemma_parse_session_params_from(
    t: Seq<Seq<char>>,
    sp: Seq<SrtpSessionParamModel>,
    k: int,
)
    requires
        3 <= k <= t.len(),
        t.len() == sp.len() + 3,
        forall|j: int| 0 <= j < sp.len() ==> t[j + 3] == session_text(#[trigger] sp[j]),
        forall|j: int| 0 <= j < sp.len() ==> session_wf(#[trigger] sp[j]),
    ensures
        parse_session_params(t, k) == Ok::<Seq<SrtpSessionParamModel>, AttributeErrorModel>(
            sp.skip(k - 3),
        ),
    decreases t.len() - k,
{
    if k < t.len() {
        lemma_parse_session_params_from(t, sp, k + 1);
        let p = sp[k - 3];
        lemma_session_param_round_trip(p);
        assert(t[k] == session_text(p));
        assert(seq![p] + sp.skip(k + 1 - 3) =~= sp.skip(k - 3));
    } else {
        assert(sp.skip(k - 3) =~= Seq::<SrtpSessionParamModel>::empty());
    }
}

/// Reading back the textual form of a well-formed `crypto` value gives the value.
pub proof fn lemma_crypto_round_trip(v: CryptoModel)
    requires
        v.well_formed(),
    ensures
        CryptoModel::spec_parse(v.spec_display()) == Ok::<CryptoModel, AttributeErrorModel>(v),
{
    let t = v.tokens();
    let sp = v.session_params;
    let kt = join(key_texts(v.key_params), ';');
    let st = sp.map_values(|p: SrtpSessionParamModel| session_text(p));
    assert(t =~= seq![decimal(v.tag as nat), suite_text(v.crypto_suite), kt] + st);
    lemma_suite_round_trip(v.crypto_suite);
    lemma_key_list_round_trip(v.key_params);
    lemma_decimal_has_no(v.tag as nat, ' ');
    assert forall|j: int| 0 <= j < sp.len() implies has_no(#[trigger] st[j], ' ') by {
        lemma_session_param_round_trip(sp[j]);
    }
    assert forall|i: int| 0 <= i < t.len() implies has_no(#[trigger] t[i], ' ') by {
        if i >= 3 {
            assert(t[i] == st[i - 3]);
        }
    }
    lemma_split_join(t, ' ');
    assert forall|j: int| 0 <= j < sp.len() implies t[j + 3] == session_text(#[trigger] sp[j]) by {
        assert(t[j + 3] == st[j]);
    }
    lemma_parse_session_params_from(t, sp, 3);
    assert(sp.skip(0) =~= sp);
    lemma_parse_decimal(v.tag as nat, 0xffff_ffff);
}

/// Crypto suite names equal up to ASCII case read as the same registered suite.
pub proof fn lemma_suite_case_insensitive(s: Seq<char>, t: Seq<char>)
    requires
        eq_ignore_case(s, t),
        !(suite_from(s) is Other),
    ensures
        suite_from(s) == suite_from(t),
{
    lemma_eq_ignore_case_trans_iff(s, t, "AES_CM_128_HMAC_SHA1_32"@);
    lemma_eq_ignore_case_trans_iff(s, t, "F8_128_HMAC_SHA1_80"@);
    lemma_eq_ignore_case_trans_iff(s, t, "AES_CM_128_HMAC_SHA1_80"@);
}

// ---------------------------------------------------------------------------
// Values read from text are well-formed
// ---------------------------------------------------------------------------

proof fn lemma_key_param_parsed(t: Seq<char>)
    ensures
        SrtpKeyParamModel::spec_parse(t) matches Ok(p) ==> {
            &&& p.well_formed()
            &&& has_no(t, ';') ==> has_no(p.key_and_salt, ';')
            &&& has_no(t, ' ') ==> has_no(p.key_and_salt, ' ')
        },
{
    if let Ok(p) = SrtpKeyParamModel::spec_parse(t) {
        let k = split(t, '|');
        lemma_split_pieces(t, '|');
        lemma_split_len(t, '|');
        assert(has_no(k[0], '|'));
        if has_no(t, ';') {
            lemma_split_pieces_keep(t, '|', ';');
            assert(has_no(k[0], ';'));
        }
        if has_no(t, ' ') {
            lemma_split_pieces_keep(t, '|', ' ');
            assert(has_no(k[0], ' '));
        }
    }
}

/// The textual form of a key parameter read from text reads back as the
/// same key parameter.
pub proof fn lemma_srtp_key_param_canonical(s: Seq<char>)
    ensures
        SrtpKeyParamModel::spec_parse(s) matches Ok(v) ==> SrtpKeyParamModel::spec_parse(
            v.spec_display(),
        ) == Ok::<SrtpKeyParamModel, AttributeErrorModel>(v),
{
    lemma_key_param_parsed(s);
    if let Ok(v) = SrtpKeyParamModel::spec_parse(s) {
        lemma_srtp_key_param_round_trip(v);
    }
}

proof fn lemma_key_params_parsed(ps: Seq<Seq<char>>, k: int)
    requires
        0 <= k <= ps.len(),
        forall|j: int| 0 <= j < ps.len() ==> has_no(#[trigger] ps[j], ';') && has_no(ps[j], ' '),
    ensures
        parse_key_params(ps, k) matches Ok(r) ==> {
            &&& r.len() == ps.len() - k
            &&& forall|j: int|
                0 <= j < r.len() ==> {
                    &&& (#[trigger] r[j]).well_formed()
                    &&& has_no(r[j].key_and_salt, ';')
                    &&& has_no(r[j].key_and_salt, ' ')
                }
        },
    decreases ps.len() - k,
{
    if k < ps.len() {
        lemma_key_params_parsed(ps, k + 1);
        lemma_key_param_parsed(ps[k]);
        if let Ok(r) = parse_key_params(ps, k) {
            let p = SrtpKeyParamModel::spec_parse(ps[k])->Ok_0;
            let rest = parse_key_params(ps, k + 1)->Ok_0;
            assert(r == seq![p] + rest);
            assert forall|j: int| 0 <= j < r.len() implies {
                &&& (#[trigger] r[j]).well_formed()
                &&& has_no(r[j].key_and_salt, ';')
                &&& has_no(r[j].key_and_salt, ' ')
            } by {
                if j > 0 {
                    assert(r[j] == rest[j - 1]);
                }
            }
        }
    }
}

/// The key parameters read from `;`-separated text without spaces are a
/// list that reads back as itself.
proof fn lemma_key_list_parsed(t: Seq<char>)
    requires
        has_no(t, ' '),
    ensures
        parse_key_params(split(t, ';'), 0) matches Ok(r) ==> key_list_wf(r),
{
    let ps = split(t, ';');
    lemma_split_pieces(t, ';');
    lemma_split_pieces_keep(t, ';', ' ');
    lemma_split_len(t, ';');
    lemma_key_params_parsed(ps, 0);
}

proof fn lemma_upper_no_space(t: Seq<char>)
    requires
        has_no(t, ' '),
    ensures
        has_no(upper(t), ' '),
        upper(upper(t)) == upper(t),
{
    assert(upper(upper(t)) =~= upper(t));
}

proof fn lemma_session_param_parsed(t: Seq<char>)
    requires
        has_no(t, ' '),
    ensures
        session_param(t) matches Ok(p) ==> session_wf(p),
{
    lemma_upper_no_space(t);
    reveal_strlit("FEC_KEY=");
    let u = upper(t);
    assert(u.len() == t.len());
    if t.len() >= 8 {
        lemma_key_list_parsed(t.skip(8));
    }
    match session_param(t) {
        Ok(SrtpSessionParamModel::FecKey(k)) => {
            assert(strip_prefix(u, "FEC_KEY="@) is Some);
        },
        Ok(SrtpSessionParamModel::Extension(e)) => {
            assert(e == u);
            assert(extension_wf(u));
        },
        _ => {},
    }
}

proof fn lemma_session_params_parsed(i: Seq<Seq<char>>, k: int)
    requires
        0 <= k <= i.len(),
        forall|j: int| 0 <= j < i.len() ==> has_no(#[trigger] i[j], ' '),
    ensures
        parse_session_params(i, k) matches Ok(r) ==> forall|j: int|
            0 <= j < r.len() ==> session_wf(#[trigger] r[j]),
    decreases i.len() - k,
{
    if k < i.len() {
        lemma_session_params_parsed(i, k + 1);
        lemma_session_param_parsed(i[k]);
        if let Ok(r) = parse_session_params(i, k) {
            let p = session_param(i[k])->Ok_0;
            let rest = parse_session_params(i, k + 1)->Ok_0;
            assert(r == seq![p] + rest);
            assert forall|j: int| 0 <= j < r.len() implies session_wf(#[trigger] r[j]) by {
                if j > 0 {
                    assert(r[j] == rest[j - 1]);
                }
            }
        }
    }
}

/// The textual form of a `crypto` value read from text reads back as the
/// same value.
pub proof fn lemma_crypto_canonical(s: Seq<char>)
    ensures
        CryptoModel::spec_parse(s) matches Ok(v) ==> CryptoModel::spec_parse(v.spec_display())
            == Ok::<CryptoModel, AttributeErrorModel>(v),
{
    if let Ok(v) = CryptoModel::spec_parse(s) {
        let i = split(s, ' ');
        lemma_split_pieces(s, ' ');
        assert(has_no(i[1], ' '));
        assert(has_no(i[2], ' '));
        lemma_key_list_parsed(i[2]);
        lemma_session_params_parsed(i, 3);
        assert(v.well_formed());
        lemma_crypto_round_trip(v);
    }
}

/// Each registered crypto suite is read from its own name, in any ASCII case, and written as that name.
pub proof fn lemma_suite_names(t: Seq<char>)
    ensures
        (suite_from(t) == CryptoSuiteModel::AesCm128HmacSha1_80) <==> eq_ignore_case(t, "AES_CM_128_HMAC_SHA1_80"@),
        (suite_from(t) == CryptoSuiteModel::AesCm128HmacSha1_32) <==> eq_ignore_case(t, "AES_CM_128_HMAC_SHA1_32"@),
        (suite_from(t) == CryptoSuiteModel::F8_128HmacSha1_80) <==> eq_ignore_case(t, "F8_128_HMAC_SHA1_80"@),
        suite_text(CryptoSuiteModel::AesCm128HmacSha1_80) == "AES_CM_128_HMAC_SHA1_80"@,
        suite_text(CryptoSuiteModel::AesCm128HmacSha1_32) == "AES_CM_128_HMAC_SHA1_32"@,
        suite_text(CryptoSuiteModel::F8_128HmacSha1_80) == "F8_128_HMAC_SHA1_80"@,
{
    reveal_strlit("AES_CM_128_HMAC_SHA1_80");
    reveal_strlit("AES_CM_128_HMAC_SHA1_32");
    reveal_strlit("F8_128_HMAC_SHA1_80");
    lemma_ne_ignore_case("AES_CM_128_HMAC_SHA1_80"@, "AES_CM_128_HMAC_SHA1_32"@, 21);
    assert("AES_CM_128_HMAC_SHA1_80"@.len() != "F8_128_HMAC_SHA1_80"@.len());
    lemma_ne_ignore_case("AES_CM_128_HMAC_SHA1_32"@, "AES_CM_128_HMAC_SHA1_80"@, 21);
    assert("AES_CM_128_HMAC_SHA1_32"@.len() != "F8_128_HMAC_SHA1_80"@.len());
    assert("F8_128_HMAC_SHA1_80"@.len() != "AES_CM_128_HMAC_SHA1_80"@.len());
    assert("F8_128_HMAC_SHA1_80"@.len() != "AES_CM_128_HMAC_SHA1_32"@.len());
    if eq_ignore_case(t, "AES_CM_128_HMAC_SHA1_80"@) {
        lemma_eq_ignore_case_trans_iff(t, "AES_CM_128_HMAC_SHA1_80"@, "AES_CM_128_HMAC_SHA1_32"@);
        lemma_eq_ignore_case_trans_iff(t, "AES_CM_128_HMAC_SHA1_80"@, "F8_128_HMAC_SHA1_80"@);
    }
    if eq_ignore_case(t, "AES_CM_128_HMAC_SHA1_32"@) {
        lemma_eq_ignore_case_trans_iff(t, "AES_CM_128_HMAC_SHA1_32"@, "AES_CM_128_HMAC_SHA1_80"@);
        lemma_eq_ignore_case_trans_iff(t, "AES_CM_128_HMAC_SHA1_32"@, "F8_128_HMAC_SHA1_80"@);
    }
    if eq_ignore_case(t, "F8_128_HMAC_SHA1_80"@) {
        lemma_eq_ignore_case_trans_iff(t, "F8_128_HMAC_SHA1_80"@, "AES_CM_128_HMAC_SHA1_80"@);
        lemma_eq_ignore_case_trans_iff(t, "F8_128_HMAC_SHA1_80"@, "AES_CM_128_HMAC_SHA1_32"@);
    }
}

/// Each registered session parameter is read from its own name, the name
/// in any ASCII case.
pub proof fn lemma_session_param_names(t: Seq<char>)
    ensures
        (session_param(t) == Ok::<SrtpSessionParamModel, AttributeErrorModel>(SrtpSessionParamModel::UnencryptedSrtp)) <==> upper(t) == "UNENCRYPTED_SRTP"@,
        (session_param(t) == Ok::<SrtpSessionParamModel, AttributeErrorModel>(SrtpSessionParamModel::UnencryptedSrtcp)) <==> upper(t) == "UNENCRYPTED_SRTCP"@,
        (session_param(t) == Ok::<SrtpSessionParamModel, AttributeErrorModel>(SrtpSessionParamModel::UnauthenticatedSrtp)) <==> upper(t)
            == "UNAUTHENTICATED_SRTP"@,
        (session_param(t) == Ok::<SrtpSessionParamModel, AttributeErrorModel>(SrtpSessionParamModel::FecOrder(FecOrder::FecSrtp))) <==> (strip_prefix(
            upper(t),
            "FEC_ORDER="@,
        ) matches Some(f) && eq_ignore_case(f, "FEC_SRTP"@)),
        (session_param(t) == Ok::<SrtpSessionParamModel, AttributeErrorModel>(SrtpSessionParamModel::FecOrder(FecOrder::SrtpFec))) <==> (strip_prefix(
            upper(t),
            "FEC_ORDER="@,
        ) matches Some(f) && eq_ignore_case(f, "SRTP_FEC"@)),
        session_param(t) matches Ok(SrtpSessionParamModel::Kdr(_)) ==> strip_prefix(upper(t), "KDR="@) is Some,
        session_param(t) matches Ok(SrtpSessionParamModel::Wsh(_)) ==> strip_prefix(upper(t), "WSH="@) is Some,
        session_param(t) matches Ok(SrtpSessionParamModel::FecKey(_)) ==> strip_prefix(upper(t), "FEC_KEY="@) is Some,
{
    reveal_strlit("KDR=");
    reveal_strlit("UNENCRYPTED_SRTCP");
    reveal_strlit("UNENCRYPTED_SRTP");
    reveal_strlit("UNAUTHENTICATED_SRTP");
    reveal_strlit("FEC_ORDER=");
    reveal_strlit("FEC_KEY=");
    reveal_strlit("WSH=");
    reveal_strlit("FEC_SRTP");
    reveal_strlit("SRTP_FEC");
    let u = upper(t);
    if u.len() >= 4 && u.take(4) == "KDR="@ {
        assert(u.take(4)[0] == 'K');
    }
    if u == "UNENCRYPTED_SRTP"@ || u == "UNENCRYPTED_SRTCP"@ || u == "UNAUTHENTICATED_SRTP"@ {
        assert(u[0] == 'U');
        assert(u.len() < 4 || u.take(4)[0] != "KDR="@[0]);
    }
    if u.len() >= 10 && u.take(10) == "FEC_ORDER="@ {
        assert(u.take(10)[0] == 'F');
        assert(u.take(4)[0] != "KDR="@[0]);
        assert(u[0] != "UNENCRYPTED_SRTP"@[0]);
        let f = u.skip(10);
        if eq_ignore_case(f, "FEC_SRTP"@) {
            lemma_eq_ignore_case_trans_iff(f, "FEC_SRTP"@, "SRTP_FEC"@);
            lemma_ne_ignore_case("FEC_SRTP"@, "SRTP_FEC"@, 0);
        }
    }
    assert("UNENCRYPTED_SRTP"@.len() != "UNENCRYPTED_SRTCP"@.len());
    assert("UNAUTHENTICATED_SRTP"@.len() != "UNENCRYPTED_SRTCP"@.len());
    assert("UNAUTHENTICATED_SRTP"@.len() != "UNENCRYPTED_SRTP"@.len());
}

/// Each session parameter is written as its own name, with its value.
pub proof fn lemma_session_param_texts(v: u8, k: Seq<SrtpKeyParamModel>, e: Seq<char>)
    ensures
        session_text(SrtpSessionParamModel::Kdr(v)) == "KDR="@ + decimal(v as nat),
        session_text(SrtpSessionParamModel::Wsh(v)) == "WSH="@ + decimal(v as nat),
        session_text(SrtpSessionParamModel::UnencryptedSrtp) == "UNENCRYPTED_SRTP"@,
        session_text(SrtpSessionParamModel::UnencryptedSrtcp) == "UNENCRYPTED_SRTCP"@,
        session_text(SrtpSessionParamModel::UnauthenticatedSrtp) == "UNAUTHENTICATED_SRTP"@,
        session_text(SrtpSessionParamModel::FecOrder(FecOrder::FecSrtp)) == "FEC_ORDER=FEC_SRTP"@,
        session_text(SrtpSessionParamModel::FecOrder(FecOrder::SrtpFec)) == "FEC_ORDER=SRTP_FEC"@,
        k.len() > 0 ==> session_text(SrtpSessionParamModel::FecKey(k)) == "FEC_KEY="@ + join(key_texts(k), ';'),
        session_text(SrtpSessionParamModel::Extension(e)) == e,
{
    reveal_strlit("FEC_ORDER=");
    reveal_strlit("FEC_SRTP");
    reveal_strlit("SRTP_FEC");
    reveal_strlit("FEC_ORDER=FEC_SRTP");
    reveal_strlit("FEC_ORDER=SRTP_FEC");
    assert("FEC_ORDER="@ + "FEC_SRTP"@ =~= "FEC_ORDER=FEC_SRTP"@);
    assert("FEC_ORDER="@ + "SRTP_FEC"@ =~= "FEC_ORDER=SRTP_FEC"@);
}

} // verus!
