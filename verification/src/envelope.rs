use vstd::prelude::*;

use crate::dep_tree::DepRequest;
use crate::dep_tree::ReqModel;
use crate::dep_tree::reqs_view;
use crate::dep_tree::spec_from_name_version;
use crate::errors::ServerError;
use crate::kvlist::kv_view;
use crate::kvlist::map_get;
use crate::kvlist::map_put;
use crate::kvlist::lemma_key_index;
use crate::kvlist::spec_get;
use crate::kvlist::spec_put;
use crate::specifier::parse_package_specifier_no_validation;
use crate::specifier::spec_parse_specifier;
use crate::textutil::split_char;
use crate::textutil::spec_dec;
use crate::textutil::str_split_char;
use crate::textutil::str_substring;
use crate::textutil::u64_to_dec;
use vstd::string::StrSliceExecFns;
use vstd::string::StringExecFns;

verus! {

/// The highest request-specifier version this service understands.
pub const LATEST_VERSION: u64 = 5;

/// How long a successful package or module response may be cached.
pub const PACKAGE_TTL_SECONDS: u64 = 31536000;

/// How long a successful resolve response may be cached.
pub const RESOLVE_TTL_SECONDS: u64 = 3600;

/// How long an error response may be cached.
pub const ERROR_TTL_SECONDS: u64 = 300;

/// What base64 encoding of bytes yields, standard alphabet with padding.
pub uninterp spec fn b64_encode(b: Seq<u8>) -> Seq<char>;

/// What base64 decoding of a string yields, when the string is well-formed
/// base64.
pub uninterp spec fn b64_decode(s: Seq<char>) -> Option<Seq<u8>>;

/// What reading bytes as UTF-8 yields, when they are valid UTF-8.
pub uninterp spec fn utf8_of(b: Seq<u8>) -> Option<Seq<char>>;

/// Relies on base64_simd's STANDARD codec (standard alphabet, padded):
/// encoding is deterministic in the bytes, and its documentation promises
/// that decoding an encoded string returns the original bytes.
#[verifier::external_body]
pub fn encode_base64(bytes: &Vec<u8>) -> (r: String)
    ensures
        r@ == b64_encode(bytes@),
        b64_decode(r@) == Some(bytes@),
{
    base64_simd::STANDARD.encode_to_string(bytes)
}

/// Relies on base64_simd's STANDARD codec: decoding succeeds exactly on
/// well-formed base64 and is deterministic in the string.
#[verifier::external_body]
pub fn decode_base64_bytes(part: &str) -> (r: Option<Vec<u8>>)
    ensures
        r is Some <==> b64_decode(part@) is Some,
        r matches Some(b) ==> b64_decode(part@) == Some(b@),
{
    match base64_simd::STANDARD.decode_to_vec(part.as_bytes()) {
        Ok(v) => Some(v),
        Err(_) => None,
    }
}

/// Relies on String::from_utf8: succeeds exactly on valid UTF-8 and is
/// deterministic in the bytes.
#[verifier::external_body]
fn bytes_to_utf8(bytes: Vec<u8>) -> (r: Option<String>)
    ensures
        r is Some <==> utf8_of(bytes@) is Some,
        r matches Some(s) ==> utf8_of(bytes@) == Some(s@),
{
    match String::from_utf8(bytes) {
        Ok(s) => Some(s),
        Err(_) => None,
    }
}

/// Round trip: a base64 encoding decodes back to the bytes it encodes, so
/// re-encoding a decoded request string reproduces the encoded string. The
/// result is never `None`.
pub fn base64_round_trip(bytes: &Vec<u8>) -> (r: Option<Vec<u8>>)
    ensures
        r matches Some(b) && b@ == bytes@,
{
    let encoded = encode_base64(bytes);
    match decode_base64_bytes(encoded.as_str()) {
        Some(decoded) => Some(decoded),
        None => None,
    }
}

/// What decoding a request path segment yields: the base64 bytes read as
/// UTF-8.
pub open spec fn spec_decode_base64(s: Seq<char>) -> Option<Seq<char>> {
    match b64_decode(s) {
        Some(b) => utf8_of(b),
        None => None,
    }
}

/// Decode a base64 path segment into text.
pub fn decode_base64(part: &str) -> (r: Result<String, ServerError>)
    ensures
        match r {
            Ok(s) => spec_decode_base64(part@) == Some(s@),
            Err(e) => spec_decode_base64(part@) is None && e is Base64DecodingError,
        },
{
    match decode_base64_bytes(part) {
        Some(bytes) => match bytes_to_utf8(bytes) {
            Some(s) => Ok(s),
            None => Err(ServerError::Base64DecodingError),
        },
        None => Err(ServerError::Base64DecodingError),
    }
}

/// The numeric reading of one character, or -1.
pub open spec fn digit_of(c: char) -> int {
    if c == '0' {
        0
    } else if c == '1' {
        1
    } else if c == '2' {
        2
    } else if c == '3' {
        3
    } else if c == '4' {
        4
    } else if c == '5' {
        5
    } else if c == '6' {
        6
    } else if c == '7' {
        7
    } else if c == '8' {
        8
    } else if c == '9' {
        9
    } else {
        -1
    }
}

/// Whether `c` is a decimal digit.
pub open spec fn is_dec_digit(c: char) -> bool {
    digit_of(c) >= 0
}

/// The numeric reading of one character, executably.
fn char_to_digit(c: char) -> (r: Option<u64>)
    ensures
        r is Some <==> is_dec_digit(c),
        r matches Some(d) ==> d == digit_of(c),
{
    if c == '0' {
        Some(0)
    } else if c == '1' {
        Some(1)
    } else if c == '2' {
        Some(2)
    } else if c == '3' {
        Some(3)
    } else if c == '4' {
        Some(4)
    } else if c == '5' {
        Some(5)
    } else if c == '6' {
        Some(6)
    } else if c == '7' {
        Some(7)
    } else if c == '8' {
        Some(8)
    } else if c == '9' {
        Some(9)
    } else {
        None
    }
}

/// The decimal value of a digit string.
pub open spec fn digits_value(ds: Seq<char>) -> int
    decreases ds.len(),
{
    if ds.len() == 0 {
        0
    } else {
        digits_value(ds.drop_last()) * 10 + digit_of(ds.last())
    }
}

/// The decimal value of a digit string, saturated at 1000; enough to
/// compare against any supported version number.
pub open spec fn digits_value_cap(ds: Seq<char>) -> int
    decreases ds.len(),
{
    if ds.len() == 0 {
        0
    } else {
        let v = digits_value_cap(ds.drop_last()) * 10 + digit_of(ds.last());
        if v >= 1000 {
            1000
        } else {
            v
        }
    }
}

/// For digit strings the saturated value is the value, cut off at 1000.
pub proof fn lemma_digits_cap(ds: Seq<char>)
    requires
        forall|j: int| 0 <= j < ds.len() ==> is_dec_digit(#[trigger] ds[j]),
    ensures
        digits_value(ds) >= 0,
        digits_value_cap(ds) == if digits_value(ds) >= 1000 {
            1000int
        } else {
            digits_value(ds)
        },
    decreases ds.len(),
{
    if ds.len() > 0 {
        assert forall|j: int| 0 <= j < ds.drop_last().len() implies is_dec_digit(
            #[trigger] ds.drop_last()[j],
        ) by {
            assert(ds.drop_last()[j] == ds[j]);
        }
        lemma_digits_cap(ds.drop_last());
        assert(is_dec_digit(ds.last()));
    }
}

/// How many leading characters of `s` are decimal digits.
pub open spec fn leading_digits(s: Seq<char>) -> int
    decreases s.len(),
{
    if s.len() > 0 && is_dec_digit(s[0]) {
        1 + leading_digits(s.drop_first())
    } else {
        0
    }
}

/// Leading digits up to the first non-digit.
pub proof fn lemma_leading_digits_at(s: Seq<char>, i: int)
    requires
        0 <= i <= s.len(),
        forall|j: int| 0 <= j < i ==> is_dec_digit(#[trigger] s[j]),
        i < s.len() ==> !is_dec_digit(s[i]),
    ensures
        leading_digits(s) == i,
    decreases i,
{
    if i == 0 {
    } else {
        let rest = s.drop_first();
        assert forall|j: int| 0 <= j < i - 1 implies is_dec_digit(#[trigger] rest[j]) by {
            assert(rest[j] == s[j + 1]);
        }
        if i - 1 < rest.len() {
            assert(rest[i - 1] == s[i]);
        }
        lemma_leading_digits_at(rest, i - 1);
    }
}

/// How a decoded specifier splits into a version prefix `N(payload)`: one
/// or more digits, an opening parenthesis, any payload, and a closing
/// parenthesis as the final character. Absent that shape there is no
/// prefix.
pub open spec fn spec_version_prefix(s: Seq<char>) -> Option<(int, Seq<char>)> {
    let d = leading_digits(s);
    if 1 <= d && d < s.len() && s[d] == '(' && s.len() >= d + 2 && s.last() == ')' {
        Some((digits_value(s.take(d)), s.subrange(d + 1, s.len() - 1)))
    } else {
        None
    }
}

/// How a decoded request specifier reads: a well-formed version prefix up
/// to the supported maximum is stripped, a higher version is rejected, and
/// a specifier without a prefix is version 1 as it stands.
pub open spec fn spec_read_specifier(s: Seq<char>) -> Result<(int, Seq<char>), ServerError> {
    match spec_version_prefix(s) {
        Some(p) => if p.0 > LATEST_VERSION {
            Result::Err(ServerError::InvalidCDNVersion)
        } else {
            Result::Ok((p.0, p.1))
        },
        None => Result::Ok((1, s)),
    }
}

/// Decode a request path segment and strip its version prefix.
pub fn decode_req_part(part: &str) -> (r: Result<(u64, String), ServerError>)
    ensures
        match r {
            Ok(p) => match spec_decode_base64(part@) {
                Some(s) => spec_read_specifier(s) == Result::<(int, Seq<char>), ServerError>::Ok(
                    (p.0 as int, p.1@),
                ),
                None => false,
            },
            Err(e) => match spec_decode_base64(part@) {
                Some(s) => e is InvalidCDNVersion && spec_read_specifier(s)
                    == Result::<(int, Seq<char>), ServerError>::Err(
                    ServerError::InvalidCDNVersion,
                ),
                None => e is Base64DecodingError,
            },
        },
{
    let decoded = decode_base64(part)?;
    let s = decoded.as_str();
    let n = s.unicode_len();
    let mut d: usize = 0;
    let mut value: u64 = 0;
    while d < n && char_to_digit(s.get_char(d)).is_some()
        invariant
            d <= n,
            n == s@.len(),
            value <= 1000,
            forall|j: int| 0 <= j < d ==> is_dec_digit(#[trigger] s@[j]),
            value == digits_value_cap(s@.take(d as int)),
        decreases n - d,
    {
        let dig = match char_to_digit(s.get_char(d)) {
            Some(x) => x,
            None => 0,
        };
        proof {
            assert(s@.take(d + 1).drop_last() =~= s@.take(d as int));
            assert(s@.take(d + 1).last() == s@[d as int]);
        }
        value = value * 10 + dig;
        if value >= 1000 {
            value = 1000;
        }
        d = d + 1;
    }
    proof {
        lemma_leading_digits_at(s@, d as int);
    }
    if d >= 1 && d < n && s.get_char(d) == '(' && n - d >= 2 && s.get_char(n - 1) == ')' {
        proof {
            assert(s@.last() == s@[n - 1]);
            assert forall|j: int| 0 <= j < s@.take(d as int).len() implies is_dec_digit(
                #[trigger] s@.take(d as int)[j],
            ) by {
                assert(s@.take(d as int)[j] == s@[j]);
            }
            lemma_digits_cap(s@.take(d as int));
        }
        if value > 5 {
            return Err(ServerError::InvalidCDNVersion);
        }
        let payload = str_substring(s, d + 1, n - 1);
        Ok((value, payload))
    } else {
        proof {
            if d < n {
                assert(!is_dec_digit(s@[d as int]));
            }
            if n >= 1 {
                assert(s@.last() == s@[n - 1]);
            }
        }
        Ok((1, decoded))
    }
}

/// How a response body is encoded.
#[derive(PartialEq, Eq, Structural, Debug)]
pub enum ResponseFormat {
    Json,
    MsgPack,
}

/// The encoding for a specifier version: JSON up to version 4, MessagePack
/// from version 5 on.
pub fn response_format(version: u64) -> (r: ResponseFormat)
    ensures
        (r == ResponseFormat::MsgPack) == (version >= 5),
{
    if version >= 5 {
        ResponseFormat::MsgPack
    } else {
        ResponseFormat::Json
    }
}

/// The content type a format is served under. MessagePack is deliberately
/// labelled as JavaScript: the CDN in front compresses only that type, and
/// coercing compression is worth the mislabel.
pub open spec fn spec_content_type(f: ResponseFormat) -> Seq<char> {
    match f {
        ResponseFormat::Json => "application/json"@,
        ResponseFormat::MsgPack => "application/javascript"@,
    }
}

/// The content-type header value for a response format.
pub fn content_type_for(f: &ResponseFormat) -> (r: String)
    ensures
        r@ == spec_content_type(*f),
{
    match f {
        ResponseFormat::Json => String::from_str("application/json"),
        ResponseFormat::MsgPack => String::from_str("application/javascript"),
    }
}

/// A cache-control header value for a time to live in seconds.
pub fn cache_control_value(ttl: u64) -> (r: String)
    ensures
        r@ == "public, max-age="@ + spec_dec(ttl),
{
    let mut s = String::from_str("public, max-age=");
    let digits = u64_to_dec(ttl);
    s.append(digits.as_str());
    s
}

/// A response under construction: its body bytes, its status, and its
/// headers. Serialization of bodies happens outside the library.
pub struct CustomReply {
    pub body: Vec<u8>,
    pub status: u16,
    pub headers: Vec<(String, String)>,
}

impl CustomReply {
    /// An empty OK response.
    pub fn new(body: Vec<u8>) -> (r: CustomReply)
        ensures
            r.body@ == body@,
            r.status == 200,
            r.headers@.len() == 0,
    {
        CustomReply { body, status: 200, headers: Vec::new() }
    }

    /// Set a header, replacing an earlier value under the same name.
    pub fn add_header(&mut self, name: &str, value: &str)
        ensures
            kv_view(final(self).headers@) == spec_put(
                kv_view(old(self).headers@),
                name@,
                value@,
            ),
            final(self).body@ == old(self).body@,
            final(self).status == old(self).status,
    {
        let name_string = crate::textutil::str_to_string(name);
        let value_string = crate::textutil::str_to_string(value);
        map_put(&mut self.headers, name_string, value_string);
    }

    /// Replace the status code.
    pub fn set_status(&mut self, status: u16)
        ensures
            final(self).status == status,
            final(self).body@ == old(self).body@,
            final(self).headers == old(self).headers,
    {
        self.status = status;
    }
}

/// Build the requests of a `deps` query: the decoded query is
/// semicolon-separated `name@range` specifiers.
pub open spec fn build_query(parts: Seq<Seq<char>>, acc: Seq<ReqModel>) -> Option<Seq<ReqModel>>
    decreases parts.len(),
{
    if parts.len() == 0 {
        Some(acc)
    } else {
        match spec_parse_specifier(parts[0]) {
            Some(nv) => match spec_from_name_version(nv.0, nv.1) {
                Some(req) => build_query(parts.drop_first(), acc.push(req)),
                None => None,
            },
            None => None,
        }
    }
}

/// What a decoded `deps` query means as a request list.
pub open spec fn spec_parse_query(q: Seq<char>) -> Option<Seq<ReqModel>> {
    build_query(split_char(q, ';'), Seq::empty())
}

/// Parse a decoded `deps` query into dependency requests.
pub fn parse_query(query: &str) -> (r: Result<Vec<DepRequest>, ServerError>)
    ensures
        match r {
            Ok(reqs) => spec_parse_query(query@) == Some(reqs_view(reqs@)),
            Err(e) => spec_parse_query(query@) is None && e is InvalidPackageSpecifier,
        },
{
    let mut parts = str_split_char(query, ';');
    let mut out: Vec<DepRequest> = Vec::new();
    let ghost all = parts@.map_values(|p: String| p@);
    proof {
        assert(reqs_view(out@) =~= Seq::<ReqModel>::empty());
    }
    while parts.len() > 0
        invariant
            spec_parse_query(query@) == build_query(
                parts@.map_values(|p: String| p@),
                reqs_view(out@),
            ),
        decreases parts.len(),
    {
        let ghost pm = parts@.map_values(|p: String| p@);
        let part = parts.remove(0);
        proof {
            assert(parts@.map_values(|p: String| p@) =~= pm.drop_first());
            assert(pm[0] == part@);
        }
        let parsed = match parse_package_specifier_no_validation(part.as_str()) {
            Ok(p) => p,
            Err(e) => {
                return Err(e);
            },
        };
        let (name, version) = parsed;
        match DepRequest::from_name_version(name, version) {
            Ok(req) => {
                let ghost pre = reqs_view(out@);
                out.push(req);
                proof {
                    assert(reqs_view(out@) =~= pre.push(req@));
                }
            },
            Err(e) => {
                return Err(e);
            },
        }
    }
    proof {
        assert(parts@.map_values(|p: String| p@) =~= Seq::<Seq<char>>::empty());
    }
    Ok(out)
}

/// Copy each dist-tag alias into the resolution map: an alias whose target
/// key is resolved gains an entry under the alias key with the target's
/// version.
pub open spec fn spec_expand_aliases(
    res: Seq<(Seq<char>, Seq<char>)>,
    aliases: Seq<(Seq<char>, Seq<char>)>,
) -> Seq<(Seq<char>, Seq<char>)>
    decreases aliases.len(),
{
    if aliases.len() == 0 {
        res
    } else {
        let step = match spec_get(res, aliases[0].1) {
            Some(v) => spec_put(res, aliases[0].0, v),
            None => res,
        };
        spec_expand_aliases(step, aliases.drop_first())
    }
}

/// Expand alias entries into the resolution map.
pub fn expand_aliases(resolutions: &mut Vec<(String, String)>, aliases: &Vec<(String, String)>)
    ensures
        kv_view(final(resolutions)@) == spec_expand_aliases(
            kv_view(old(resolutions)@),
            kv_view(aliases@),
        ),
{
    let ghost am = kv_view(aliases@);
    let n = aliases.len();
    let mut i: usize = 0;
    proof {
        assert(am.skip(0) =~= am);
    }
    while i < n
        invariant
            i <= n,
            n == aliases@.len(),
            am == kv_view(aliases@),
            am.len() == n,
            forall|j: int| 0 <= j < n ==> am[j] == (aliases@[j].0@, aliases@[j].1@),
            spec_expand_aliases(kv_view(old(resolutions)@), am) == spec_expand_aliases(
                kv_view(resolutions@),
                am.skip(i as int),
            ),
        decreases n - i,
    {
        let ghost pre = kv_view(resolutions@);
        let target = map_get(resolutions, aliases[i].1.as_str());
        let found = match target {
            Some(v) => Some(v.clone()),
            None => None,
        };
        proof {
            assert(am.skip(i as int).drop_first() =~= am.skip(i + 1));
            assert(am.skip(i as int)[0] == am[i as int]);
            lemma_key_index(pre, am[i as int].1);
        }
        match found {
            Some(v) => {
                let key = crate::textutil::str_to_string(aliases[i].0.as_str());
                map_put(resolutions, key, v);
            },
            None => {},
        }
        i = i + 1;
    }
    proof {
        assert(am.skip(n as int) =~= Seq::<(Seq<char>, Seq<char>)>::empty());
    }
}

} // verus!
