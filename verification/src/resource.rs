//! Resource URIs: `<type>::[<options>::]<url>` strings that actions use
//! to source bytes, resolved into inline payloads or external downloads,
//! and the integrity check on fetched content.

use vstd::prelude::*;

verus! {

use crate::control::spec_find_char;
use crate::control::lemma_find_char;
use crate::errors::AprilError;
use crate::strutil::str_eq_chars;
use vstd::string::StrSliceExecFns;
use vstd::string::StringExecFns;
use vstd::string::StringSliceAdditionalSpecFns;
use vstd::utf8::encode_utf8;

/// A resolved resource: bytes carried inline by a `data:` URL, or an
/// external URL with its declared digest.
#[derive(Debug, PartialEq)]
pub enum AprilResourceType {
    Inline { content: Vec<u8> },
    External { url: String, sha256: String },
}

/// The mathematical shape of a resolved resource.
pub enum SpecResource {
    Inline(Seq<u8>),
    External(Seq<char>, Seq<char>),
}

impl View for AprilResourceType {
    type V = SpecResource;

    open spec fn view(&self) -> SpecResource {
        match self {
            AprilResourceType::Inline { content } => SpecResource::Inline(content@),
            AprilResourceType::External { url, sha256 } => SpecResource::External(url@, sha256@),
        }
    }
}

// ---------------------------------------------------------------------
// Trusted views of the outside crates
// ---------------------------------------------------------------------
/// Whether the string parses as an absolute URL.
pub uninterp spec fn url_parse_ok(s: Seq<char>) -> bool;

/// The scheme of a parseable URL, in ASCII lowercase.
pub uninterp spec fn url_scheme(s: Seq<char>) -> Seq<char>;

/// The path part of a parseable URL.
pub uninterp spec fn url_path(s: Seq<char>) -> Seq<char>;

/// Relies on `url::Url::parse`, `Url::scheme` and `Url::path`: whether
/// the string is a valid absolute URL and, if so, its scheme and path.
#[verifier::external_body]
fn parse_url_scheme_path(s: &str) -> (r: Option<(String, String)>)
    ensures
        r is Some <==> url_parse_ok(s@),
        match r {
            Some(p) => p.0@ == url_scheme(s@) && p.1@ == url_path(s@),
            None => true,
        },
{
    match url::Url::parse(s) {
        Ok(u) => Some((u.scheme().to_string(), u.path().to_string())),
        Err(_) => None,
    }
}

/// What the standard base64 alphabet (with padding) decodes a string to,
/// if it decodes at all.
pub uninterp spec fn b64_standard_decoded(s: Seq<char>) -> Option<Seq<u8>>;

/// Relies on base64's `STANDARD` engine `decode`: the decoded payload of
/// a standard-alphabet base64 string, a function of the input alone.
#[verifier::external_body]
fn base64_decode_standard(s: &str) -> (r: Option<Vec<u8>>)
    ensures
        r is Some <==> b64_standard_decoded(s@) is Some,
        match r {
            Some(v) => b64_standard_decoded(s@) == Some(v@),
            None => true,
        },
{
    base64::Engine::decode(&base64::engine::general_purpose::STANDARD, s).ok()
}

/// The value of an ASCII hex digit, or -1.
pub open spec fn spec_hex_val(c: u8) -> int {
    if 0x30 <= c && c <= 0x39 {
        c - 0x30
    } else if 0x61 <= c && c <= 0x66 {
        c - 0x61 + 10
    } else if 0x41 <= c && c <= 0x46 {
        c - 0x41 + 10
    } else {
        -1
    }
}

/// Percent-decoding: each `%` followed by two hex digits becomes the byte
/// they spell; anything else passes through unchanged.
pub open spec fn spec_percent_decode(s: Seq<u8>) -> Seq<u8>
    decreases s.len(),
{
    if s.len() == 0 {
        Seq::empty()
    } else if s[0] == 0x25 && s.len() >= 3 && spec_hex_val(s[1]) >= 0 && spec_hex_val(s[2])
        >= 0 {
        seq![(spec_hex_val(s[1]) * 16 + spec_hex_val(s[2])) as u8] + spec_percent_decode(
            s.skip(3),
        )
    } else {
        seq![s[0]] + spec_percent_decode(s.skip(1))
    }
}

/// Relies on `percent_encoding::percent_decode`: replaces each `%XY` hex
/// escape by its byte and passes every other byte through.
#[verifier::external_body]
fn percent_decode_bytes(s: &[u8]) -> (r: Vec<u8>)
    ensures
        r@ == spec_percent_decode(s@),
{
    percent_encoding::percent_decode(s).collect()
}

/// The SHA-256 digest of a byte string: 32 bytes, a function of the input
/// alone.
pub uninterp spec fn sha256_of(data: Seq<u8>) -> Seq<u8>;

/// Relies on `sha2::Sha256` (`Digest::new`, `update`, `finalize`): the
/// SHA-256 digest of the bytes.
#[verifier::external_body]
fn sha256_digest(data: &[u8]) -> (r: Vec<u8>)
    ensures
        r@ == sha256_of(data@),
        r@.len() == 32,
{
    let mut h = <sha2::Sha256 as sha2::Digest>::new();
    sha2::Digest::update(&mut h, data);
    sha2::Digest::finalize(h).to_vec()
}

/// The lowercase hex character of a value below sixteen.
pub open spec fn spec_hex_digit_char(d: int) -> char {
    if d == 0 {
        '0'
    } else if d == 1 {
        '1'
    } else if d == 2 {
        '2'
    } else if d == 3 {
        '3'
    } else if d == 4 {
        '4'
    } else if d == 5 {
        '5'
    } else if d == 6 {
        '6'
    } else if d == 7 {
        '7'
    } else if d == 8 {
        '8'
    } else if d == 9 {
        '9'
    } else if d == 10 {
        'a'
    } else if d == 11 {
        'b'
    } else if d == 12 {
        'c'
    } else if d == 13 {
        'd'
    } else if d == 14 {
        'e'
    } else {
        'f'
    }
}

/// Hex encoding: two lowercase digits per byte.
pub open spec fn spec_hex_encode(data: Seq<u8>) -> Seq<char>
    decreases data.len(),
{
    if data.len() == 0 {
        Seq::empty()
    } else {
        seq![
            spec_hex_digit_char(data[0] as int / 16),
            spec_hex_digit_char(data[0] as int % 16),
        ] + spec_hex_encode(data.skip(1))
    }
}

/// Relies on `hex::encode`: two lowercase hex digits for each byte.
#[verifier::external_body]
fn hex_encode_bytes(data: &[u8]) -> (r: String)
    ensures
        r@ == spec_hex_encode(data@),
{
    hex::encode(data)
}

// ---------------------------------------------------------------------
// URI resolution
// ---------------------------------------------------------------------
/// The index of the first `::` in the string, or its length if none.
pub open spec fn spec_find_dcolon(s: Seq<char>) -> int
    decreases s.len(),
{
    if s.len() < 2 {
        s.len() as int
    } else if s[0] == ':' && s[1] == ':' {
        0
    } else {
        1 + spec_find_dcolon(s.skip(1))
    }
}

proof fn lemma_find_dcolon(s: Seq<char>)
    ensures
        0 <= spec_find_dcolon(s) <= s.len(),
        spec_find_dcolon(s) + 2 <= s.len() || spec_find_dcolon(s) == s.len(),
        spec_find_dcolon(s) + 2 <= s.len() ==> s[spec_find_dcolon(s)] == ':' && s[
            spec_find_dcolon(s) + 1] == ':',
        forall|m: int|
            0 <= m < spec_find_dcolon(s) && m + 2 <= s.len() ==> !((#[trigger] s[m]) == ':'
                && s[m + 1] == ':'),
    decreases s.len(),
{
    if s.len() >= 2 && !(s[0] == ':' && s[1] == ':') {
        lemma_find_dcolon(s.skip(1));
        let r = spec_find_dcolon(s);
        assert forall|m: int|
            0 <= m < r && m + 2 <= s.len() implies !((#[trigger] s[m]) == ':' && s[m + 1]
            == ':') by {
            if m > 0 {
                assert(s[m] == s.skip(1)[m - 1]);
                assert(s[m + 1] == s.skip(1)[m]);
            }
        }
        if r + 2 <= s.len() {
            assert(s[r] == s.skip(1)[r - 1]);
            assert(s[r + 1] == s.skip(1)[r]);
        }
    } else if s.len() < 2 {
    }
}

/// The hex value after the last `=` of a `sha256=` option.
pub open spec fn spec_after_last_eq(o: Seq<char>) -> Seq<char>
    decreases o.len(),
{
    if o.len() == 0 {
        o
    } else if o.last() == '=' {
        Seq::empty()
    } else {
        let r = spec_after_last_eq(o.drop_last());
        if r.len() == o.len() - 1 {
            o
        } else {
            r.push(o.last())
        }
    }
}

/// Whether an option starts with `sha256=`.
pub open spec fn spec_is_sha_option(o: Seq<char>) -> bool {
    o.len() >= 7 && o.take(7) == "sha256="@
}

/// The digest declared by an option list: options split on `;`, the last
/// `sha256=` option wins, its value the text after its last `=`.
pub open spec fn spec_options_sha(opts: Seq<char>) -> Option<Seq<char>>
    decreases opts.len(),
        via spec_options_sha_decreases
{
    let i = spec_find_char(opts, ';');
    let head = if i == opts.len() {
        opts
    } else {
        opts.take(i)
    };
    let here: Option<Seq<char>> = if spec_is_sha_option(head) {
        Some(spec_after_last_eq(head))
    } else {
        None
    };
    if i == opts.len() {
        here
    } else {
        match spec_options_sha(opts.skip(i + 1)) {
            Some(v) => Some(v),
            None => here,
        }
    }
}

#[via_fn]
proof fn spec_options_sha_decreases(opts: Seq<char>) {
    lemma_find_char(opts, ';');
}

/// What resolving a resource URI ends in.
pub enum SpecResolve {
    External(Seq<char>, Seq<char>),
    Inline(Seq<u8>),
    BadUri,
    BadType(Seq<char>),
    BadUrl(Seq<char>),
    NoSha(Seq<char>),
    BadData(Seq<char>),
    BadBase64(Seq<char>),
    BadScheme(Seq<char>),
}

/// Resolve a resource URI: split on `::` into type, optional options and
/// URL; the type must be `file`; `http(s)` URLs must declare a `sha256=`
/// digest and resolve to an external resource; `data:` URLs carry their
/// payload after the first comma, base64-decoded when the metadata ends
/// in `base64`, percent-decoded otherwise.
pub open spec fn spec_resolve(uri: Seq<char>) -> SpecResolve {
    let i1 = spec_find_dcolon(uri);
    if i1 == uri.len() {
        SpecResolve::BadUri
    } else {
        let ty = uri.take(i1);
        let rest = uri.skip(i1 + 2);
        let i2 = spec_find_dcolon(rest);
        let url = if i2 == rest.len() {
            rest
        } else {
            rest.skip(i2 + 2)
        };
        let sha: Option<Seq<char>> = if i2 == rest.len() {
            None
        } else {
            spec_options_sha(rest.take(i2))
        };
        if ty != "file"@ {
            SpecResolve::BadType(ty)
        } else if !url_parse_ok(url) {
            SpecResolve::BadUrl(url)
        } else {
            let sch = url_scheme(url);
            if sch == "http"@ || sch == "https"@ {
                match sha {
                    None => SpecResolve::NoSha(url),
                    Some(h) => SpecResolve::External(url, h),
                }
            } else if sch == "data"@ {
                let p = url_path(url);
                let ci = spec_find_char(p, ',');
                if ci == p.len() {
                    SpecResolve::BadData(url)
                } else {
                    let payload = p.skip(ci + 1);
                    if ci > 6 && p.subrange(ci - 6, ci) == "base64"@ {
                        match b64_standard_decoded(payload) {
                            None => SpecResolve::BadBase64(url),
                            Some(v) => SpecResolve::Inline(v),
                        }
                    } else {
                        SpecResolve::Inline(spec_percent_decode(encode_utf8(payload)))
                    }
                }
            } else {
                SpecResolve::BadScheme(url)
            }
        }
    }
}

/// Find the first `::` from `start` on.
fn find_dcolon_from(s: &str, start: usize) -> (r: usize)
    requires
        start <= s@.len(),
    ensures
        r - start == spec_find_dcolon(s@.skip(start as int)),
        start <= r <= s@.len(),
        r - start != s@.len() - start ==> r + 2 <= s@.len(),
{
    let n = s.unicode_len();
    let ghost rem = s@.skip(start as int);
    proof {
        lemma_find_dcolon(rem);
    }
    let mut k = start;
    while k < n && k + 1 < n && !(s.get_char(k) == ':' && s.get_char(k + 1) == ':')
        invariant
            n == s@.len(),
            start <= k <= n,
            forall|m: int|
                start <= m < k && m + 2 <= n ==> !((#[trigger] s@[m]) == ':' && s@[m + 1]
                    == ':'),
        decreases n - k,
    {
        k = k + 1;
    }
    proof {
        assert(forall|m: int|
            0 <= m < k - start && m + 2 <= rem.len() ==> (#[trigger] rem[m]) == s@[start + m]
                && rem[m + 1] == s@[start + m + 1]);
        if k + 1 < n {
            assert(rem[k - start] == s@[k as int] && rem[k - start + 1] == s@[k as int + 1]);
            assert(spec_find_dcolon(rem) == k - start) by {
                lemma_find_dcolon(rem);
                if spec_find_dcolon(rem) < k - start {
                    assert(!(rem[spec_find_dcolon(rem)] == ':' && rem[spec_find_dcolon(rem) + 1]
                        == ':'));
                }
            }
        } else {
            assert(spec_find_dcolon(rem) == rem.len()) by {
                lemma_find_dcolon(rem);
                if spec_find_dcolon(rem) + 2 <= rem.len() {
                    assert(!(rem[spec_find_dcolon(rem)] == ':' && rem[spec_find_dcolon(rem) + 1]
                        == ':'));
                }
            }
        }
    }
    if k < n && k + 1 < n {
        k
    } else {
        n
    }
}

/// The digest option of an option list, if any: the last `sha256=` option
/// wins and its value is the text after its last `=`.
fn options_sha(opts: &str) -> (r: Option<String>)
    ensures
        r is Some <==> spec_options_sha(opts@) is Some,
        match r {
            Some(v) => spec_options_sha(opts@) == Some(v@),
            None => true,
        },
    {
    let n = opts.unicode_len();
    let mut found: Option<String> = None;
    let mut pos: usize = 0;
    proof {
        assert(opts@.skip(0) =~= opts@);
    }
    loop
        invariant_except_break
            n == opts@.len(),
            pos <= n,
            spec_options_sha(opts@) == match spec_options_sha(opts@.skip(pos as int)) {
                Some(v) => Some(v),
                None => match found {
                    Some(f) => Some(f@),
                    None => None,
                },
            },
        ensures
            spec_options_sha(opts@) == match found {
                Some(f) => Some(f@),
                None => None::<Seq<char>>,
            },
        decreases n - pos,
    {
        let ghost rem = opts@.skip(pos as int);
        proof {
            lemma_find_char(rem, ';');
        }
        let mut cend: usize = pos;
        while cend < n && opts.get_char(cend) != ';'
            invariant
                n == opts@.len(),
                pos <= cend <= n,
                forall|m: int| pos <= m < cend ==> opts@[m] != ';',
            decreases n - cend,
        {
            cend = cend + 1;
        }
        proof {
            assert(forall|m: int|
                0 <= m < cend - pos ==> rem[m] == opts@[pos + m] && rem[m] != ';');
            if cend < n {
                assert(rem[cend - pos] == ';');
                if spec_find_char(rem, ';') < cend - pos {
                    assert(rem[spec_find_char(rem, ';')] != ';');
                }
                assert(spec_find_char(rem, ';') == cend - pos);
            } else {
                if spec_find_char(rem, ';') < rem.len() {
                    assert(rem[spec_find_char(rem, ';')] != ';');
                }
                assert(spec_find_char(rem, ';') == rem.len());
            }
        }
        let head = opts.substring_char(pos, cend);
        let ghost head_seq = if cend < n {
            rem.take(cend - pos)
        } else {
            rem
        };
        proof {
            assert(head@ =~= head_seq);
        }
        // Does this option start with `sha256=`?
        let is_sha = head.unicode_len() >= 7 && str_eq_chars(head.substring_char(0, 7), "sha256=");
        proof {
            if head@.len() >= 7 {
                assert(head@.subrange(0, 7) =~= head@.take(7));
            }
        }
        if is_sha {
            // Take the text after the last `=`; the prefix guarantees one
            // at index six.
            let hl = head.unicode_len();
            proof {
                reveal_strlit("sha256=");
                assert(head@.take(7) == "sha256="@);
                assert(head@.take(7)[6] == head@[6]);
                assert(head@[6] == '=');
            }
            let mut last_eq: usize = 6;
            let mut j: usize = 7;
            while j < hl
                invariant
                    hl == head@.len(),
                    hl >= 7,
                    6 <= last_eq < j <= hl,
                    head@[last_eq as int] == '=',
                    forall|m: int| last_eq < m < j ==> head@[m] != '=',
                decreases hl - j,
            {
                if head.get_char(j) == '=' {
                    last_eq = j;
                }
                j = j + 1;
            }
            let val = head.substring_char(last_eq + 1, hl).to_owned();
            proof {
                lemma_after_last_eq(head@, last_eq as int);
                assert(val@ =~= head@.subrange(last_eq as int + 1, hl as int));
            }
            found = Some(val);
        }
        if cend >= n {
            proof {
                assert(spec_options_sha(rem) == (if spec_is_sha_option(head_seq) {
                    Some(spec_after_last_eq(head_seq))
                } else {
                    None::<Seq<char>>
                }));
            }
            break ;
        }
        proof {
            assert(rem.skip(cend - pos + 1) =~= opts@.skip(cend as int + 1));
        }
        pos = cend + 1;
    }
    found
}

/// The text after the last `=` is the suffix after the last `=` index.
proof fn lemma_after_last_eq(o: Seq<char>, last: int)
    requires
        0 <= last < o.len(),
        o[last] == '=',
        forall|m: int| last < m < o.len() ==> o[m] != '=',
    ensures
        spec_after_last_eq(o) == o.subrange(last + 1, o.len() as int),
    decreases o.len(),
{
    if o.len() > 0 {
        if o.last() == '=' {
            assert(last == o.len() - 1);
            assert(spec_after_last_eq(o) =~= o.subrange(last + 1, o.len() as int));
        } else {
            assert(last < o.len() - 1);
            lemma_after_last_eq(o.drop_last(), last);
            lemma_after_last_eq_short(o.drop_last());
            assert(spec_after_last_eq(o.drop_last()) == o.drop_last().subrange(
                last + 1,
                o.len() - 1,
            ));
            assert(spec_after_last_eq(o.drop_last()).len() < o.len() - 1 || last + 1 == 0);
            assert(spec_after_last_eq(o) =~= o.subrange(last + 1, o.len() as int));
        }
    }
}

/// The suffix after a `=` is shorter than the whole, unless there is no
/// `=` at all.
proof fn lemma_after_last_eq_short(o: Seq<char>)
    ensures
        spec_after_last_eq(o).len() == o.len() ==> forall|m: int|
            0 <= m < o.len() ==> o[m] != '=',
        spec_after_last_eq(o).len() <= o.len(),
    decreases o.len(),
{
    if o.len() > 0 && o.last() != '=' {
        lemma_after_last_eq_short(o.drop_last());
        if spec_after_last_eq(o).len() == o.len() {
            assert forall|m: int| 0 <= m < o.len() implies o[m] != '=' by {
                if m < o.len() - 1 {
                    assert(o.drop_last()[m] == o[m]);
                }
            }
        }
    }
}

/// Resolve a resource URI into an inline payload or an external URL with
/// its declared digest.
pub fn resolve_resource_uri(uri: &str) -> (r: Result<AprilResourceType, AprilError>)
    ensures
        match spec_resolve(uri@) {
            SpecResolve::External(u, h) => r matches Ok(res) && res@ == SpecResource::External(
                u,
                h,
            ),
            SpecResolve::Inline(v) => r matches Ok(res) && res@ == SpecResource::Inline(v),
            SpecResolve::BadUri => r matches Err(AprilError::InvalidResourceUri(x)) && x@ == uri@,
            SpecResolve::BadType(t) => r matches Err(AprilError::UnsupportedResourceType(x)) && x@
                == t,
            SpecResolve::BadUrl(u) => r matches Err(AprilError::InvalidUrl(x)) && x@ == u,
            SpecResolve::NoSha(u) => r matches Err(AprilError::MissingSha256(x)) && x@ == u,
            SpecResolve::BadData(u) => r matches Err(AprilError::InvalidDataUri(x)) && x@ == u,
            SpecResolve::BadBase64(u) => r matches Err(AprilError::InvalidBase64(x)) && x@ == u,
            SpecResolve::BadScheme(u) => r matches Err(AprilError::UnsupportedScheme(x)) && x@
                == u,
        },
{
    let n = uri.unicode_len();
    let i1 = find_dcolon_from(uri, 0);
    proof {
        assert(uri@.skip(0) =~= uri@);
    }
    if i1 >= n {
        return Err(AprilError::InvalidResourceUri(uri.to_owned()));
    }
    let ty = uri.substring_char(0, i1);
    proof {
        assert(ty@ =~= uri@.take(i1 as int));
    }
    let i2 = find_dcolon_from(uri, i1 + 2);
    let ghost rest = uri@.skip(i1 as int + 2);
    let url_start = if i2 >= n {
        i1 + 2
    } else {
        i2 + 2
    };
    let url = uri.substring_char(url_start, n);
    proof {
        if i2 >= n {
            assert(url@ =~= rest);
        } else {
            assert(url@ =~= rest.skip(i2 - (i1 + 2) + 2));
        }
    }
    let sha: Option<String> = if i2 >= n {
        None
    } else {
        let opts = uri.substring_char(i1 + 2, i2);
        proof {
            assert(opts@ =~= rest.take(i2 - (i1 + 2)));
        }
        options_sha(opts)
    };
    if !str_eq_chars(ty, "file") {
        return Err(AprilError::UnsupportedResourceType(ty.to_owned()));
    }
    let parsed = match parse_url_scheme_path(url) {
        Some(p) => p,
        None => {
            return Err(AprilError::InvalidUrl(url.to_owned()));
        },
    };
    let scheme = parsed.0;
    let path = parsed.1;
    if str_eq_chars(scheme.as_str(), "http") || str_eq_chars(scheme.as_str(), "https") {
        match sha {
            None => Err(AprilError::MissingSha256(url.to_owned())),
            Some(h) => Ok(AprilResourceType::External { url: url.to_owned(), sha256: h }),
        }
    } else if str_eq_chars(scheme.as_str(), "data") {
        let pl = path.as_str().unicode_len();
        let ghost pseq = path@;
        proof {
            lemma_find_char(pseq, ',');
        }
        let mut ci: usize = 0;
        while ci < pl && path.as_str().get_char(ci) != ','
            invariant
                pl == path@.len(),
                ci <= pl,
                forall|m: int| 0 <= m < ci ==> path@[m] != ',',
            decreases pl - ci,
        {
            ci = ci + 1;
        }
        proof {
            if ci < pl {
                if spec_find_char(pseq, ',') < ci {
                    assert(pseq[spec_find_char(pseq, ',')] != ',');
                }
                assert(spec_find_char(pseq, ',') == ci);
            } else {
                if spec_find_char(pseq, ',') < pseq.len() {
                    assert(pseq[spec_find_char(pseq, ',')] != ',');
                }
                assert(spec_find_char(pseq, ',') == pseq.len());
            }
        }
        if ci >= pl {
            return Err(AprilError::InvalidDataUri(url.to_owned()));
        }
        let payload = path.as_str().substring_char(ci + 1, pl);
        proof {
            assert(payload@ =~= pseq.skip(ci + 1));
        }
        let is64 = ci > 6 && str_eq_chars(path.as_str().substring_char(ci - 6, ci), "base64");
        if is64 {
            match base64_decode_standard(payload) {
                None => Err(AprilError::InvalidBase64(url.to_owned())),
                Some(v) => Ok(AprilResourceType::Inline { content: v }),
            }
        } else {
            let content = percent_decode_bytes(payload.as_bytes());
            Ok(AprilResourceType::Inline { content })
        }
    } else {
        Err(AprilError::UnsupportedScheme(url.to_owned()))
    }
}

/// Compare fetched content against its declared SHA-256: the digest of
/// the bytes, rendered in lowercase hex, must equal the declared string
/// exactly.  The comparison looks at every character rather than stopping
/// at the first difference.
pub fn check_content_digest(content: &[u8], url: &str, expected_sha256_hex: &str) -> (r: Result<
    (),
    AprilError,
>)
    ensures
        r is Ok <==> spec_hex_encode(sha256_of(content@)) == expected_sha256_hex@,
        match r {
            Ok(()) => true,
            Err(e) => e matches AprilError::Sha256Mismatch { url: u, expected, actual } && u@
                == url@ && expected@ == expected_sha256_hex@ && actual@ == spec_hex_encode(
                sha256_of(content@),
            ),
        },
{
    let digest = sha256_digest(content);
    let actual = hex_encode_bytes(digest.as_slice());
    let al = actual.as_str().unicode_len();
    let el = expected_sha256_hex.unicode_len();
    let mut same = al == el;
    let mut i: usize = 0;
    let limit = if al < el {
        al
    } else {
        el
    };
    while i < limit
        invariant
            al == actual@.len(),
            el == expected_sha256_hex@.len(),
            limit == if al < el {
                al
            } else {
                el
            },
            i <= limit,
            same == (al == el && forall|k: int|
                0 <= k < i ==> actual@[k] == expected_sha256_hex@[k]),
        decreases limit - i,
    {
        let ca = actual.as_str().get_char(i);
        let ce = expected_sha256_hex.get_char(i);
        same = same && ca == ce;
        i = i + 1;
    }
    proof {
        if same {
            assert(actual@ =~= expected_sha256_hex@);
        }
    }
    if same {
        Ok(())
    } else {
        Err(
            AprilError::Sha256Mismatch {
                url: url.to_owned(),
                expected: expected_sha256_hex.to_owned(),
                actual,
            },
        )
    }
}

} // verus!
