use vstd::prelude::*;
use vstd::string::*;

use crate::names::strings_view;

verus! {

/// The value of a string of decimal digits.
pub open spec fn digits_value(s: Seq<char>) -> int
    decreases s.len(),
{
    if s.len() == 0 {
        0
    } else {
        digits_value(s.drop_last()) * 10 + (s.last() as int - '0' as int)
    }
}

/// Whether every character of `s` is a decimal digit.
pub open spec fn all_digits(s: Seq<char>) -> bool {
    forall|i: int| 0 <= i < s.len() ==> '0' <= #[trigger] s[i] <= '9'
}

/// The unsigned 64-bit number that `s` writes in decimal, with an optional
/// leading `+`; none where `s` writes no such number or one that is too
/// large.
pub open spec fn decimal_value(s: Seq<char>) -> Option<u64> {
    let d = if s.len() > 0 && s[0] == '+' {
        s.subrange(1, s.len() as int)
    } else {
        s
    };
    if d.len() > 0 && all_digits(d) && digits_value(d) <= u64::MAX {
        Some(digits_value(d) as u64)
    } else {
        None
    }
}

/// A link forwarded by the link handler to the running manager.
#[derive(Debug)]
pub struct UrlMessage {
    pub url: String,
    pub scheme: String,
    /// Seconds since the Unix epoch when the link was captured.
    pub timestamp: u64,
}

/// A file of a mod of the remote service, as named by an `nxm` link.
#[derive(Debug, PartialEq, Eq)]
pub struct NxmLink {
    pub game: String,
    pub mod_id: u64,
    pub file_id: u64,
}

/// A number read from a link segment, zero where it is no number.
pub open spec fn id_of(segment: Seq<char>) -> u64 {
    match decimal_value(segment) {
        Some(v) => v,
        None => 0,
    }
}

/// Whether a link with the given scheme and path segments names a mod file:
/// the scheme is `nxm`, the path is `mods/<mod id>/files/<file id>`, and both
/// ids are positive numbers.
pub open spec fn names_mod_file(scheme: Seq<char>, segments: Seq<Seq<char>>) -> bool {
    &&& scheme == "nxm"@
    &&& segments.len() == 4
    &&& segments[0] == "mods"@
    &&& segments[2] == "files"@
    &&& id_of(segments[1]) > 0
    &&& id_of(segments[3]) > 0
}

proof fn lemma_digits_value_grows(s: Seq<char>, k: int)
    requires
        0 <= k <= s.len(),
        all_digits(s),
    ensures
        digits_value(s.subrange(0, k)) <= digits_value(s),
        0 <= digits_value(s.subrange(0, k)),
    decreases s.len() - k,
{
    if k < s.len() {
        lemma_digits_value_grows(s, k + 1);
        let t = s.subrange(0, k + 1);
        assert(t.drop_last() =~= s.subrange(0, k));
        assert('0' <= t.last() <= '9');
        let v = digits_value(s.subrange(0, k));
        assert(v * 10 >= v) by (nonlinear_arith)
            requires
                v >= 0,
        ;
    } else {
        assert(s.subrange(0, k) =~= s);
        lemma_digits_value_nonneg(s);
    }
}

proof fn lemma_digits_value_nonneg(s: Seq<char>)
    requires
        all_digits(s),
    ensures
        digits_value(s) >= 0,
    decreases s.len(),
{
    if s.len() > 0 {
        let t = s.drop_last();
        assert(all_digits(t)) by {
            assert forall|i: int| 0 <= i < t.len() implies '0' <= #[trigger] t[i] <= '9' by {
                assert(t[i] == s[i]);
            }
        }
        lemma_digits_value_nonneg(t);
        assert('0' <= s.last() <= '9');
        let v = digits_value(t);
        assert(v * 10 >= 0) by (nonlinear_arith)
            requires
                v >= 0,
        ;
    }
}

/// Reads an unsigned 64-bit number written in decimal (see
/// [`decimal_value`]).
pub fn parse_u64(s: &str) -> (r: Option<u64>)
    ensures
        r == decimal_value(s@),
{
    let n = s.unicode_len();
    let mut start: usize = 0;
    if n > 0 && s.get_char(0) == '+' {
        start = 1;
    }
    let ghost d = s@.subrange(start as int, n as int);
    assert(d == if s@.len() > 0 && s@[0] == '+' {
        s@.subrange(1, s@.len() as int)
    } else {
        s@
    }) by {
        if start == 0 {
            assert(d =~= s@);
        }
    }
    if start == n {
        return None;
    }
    let mut value: u64 = 0;
    let mut i: usize = start;
    assert(d.subrange(0, 0) =~= Seq::<char>::empty());
    while i < n
        invariant
            start <= i <= n,
            start < n,
            n == s@.len(),
            d == s@.subrange(start as int, n as int),
            decimal_value(s@) == if d.len() > 0 && all_digits(d) && digits_value(d) <= u64::MAX {
                Some(digits_value(d) as u64)
            } else {
                None
            },
            all_digits(d.subrange(0, i - start)),
            value as int == digits_value(d.subrange(0, i - start)),
        decreases n - i,
    {
        let c = s.get_char(i);
        let ghost next = d.subrange(0, i - start + 1);
        assert(next.drop_last() =~= d.subrange(0, i - start));
        assert(next.last() == c);
        if c < '0' || c > '9' {
            assert(!all_digits(d)) by {
                assert(d[i - start] == c);
            }
            return None;
        }
        let digit = (c as u32 - '0' as u32) as u64;
        if value > 1844674407370955161 || (value == 1844674407370955161 && digit > 5) {
            assert(digits_value(next) > u64::MAX) by (nonlinear_arith)
                requires
                    digits_value(next) == value * 10 + digit,
                    value > 1844674407370955161 || (value == 1844674407370955161 && digit > 5),
            ;
            proof {
                if all_digits(d) {
                    lemma_digits_value_grows(d, i - start + 1);
                }
            }
            return None;
        }
        assert(value * 10 + digit <= u64::MAX) by (nonlinear_arith)
            requires
                value <= 1844674407370955161,
                value < 1844674407370955161 || digit <= 5,
                digit <= 9,
        ;
        value = value * 10 + digit;
        assert(all_digits(next)) by {
            assert forall|j: int| 0 <= j < next.len() implies '0' <= #[trigger] next[j] <= '9' by {
                if j < next.len() - 1 {
                    assert(next[j] == d.subrange(0, i - start)[j]);
                }
            }
        }
        i = i + 1;
    }
    assert(d.subrange(0, i - start) =~= d);
    Some(value)
}

/// Whether the link handler accepts links of the scheme `scheme`.
pub fn is_supported_scheme(scheme: &str) -> (r: bool)
    ensures
        r == (scheme@ == "nxm"@ || scheme@ == "nexusmods"@),
{
    let s = String::from_str(scheme);
    let nxm = String::from_str("nxm");
    let nexusmods = String::from_str("nexusmods");
    s == nxm || s == nexusmods
}

/// The mod file that a link with the given scheme, host and path segments
/// names: the host is the game (empty where there is none).
pub fn nxm_link(scheme: &str, host: Option<String>, segments: &Vec<String>) -> (r: Option<NxmLink>)
    ensures
        r is Some <==> names_mod_file(scheme@, strings_view(segments@)),
        r matches Some(link) ==> {
            &&& link.game@ == match host {
                Some(h) => h@,
                None => Seq::empty(),
            }
            &&& link.mod_id == id_of(segments@[1]@)
            &&& link.file_id == id_of(segments@[3]@)
        },
{
    proof {
        reveal_strlit("nxm");
        reveal_strlit("mods");
        reveal_strlit("files");
    }
    let ghost segs = strings_view(segments@);
    if String::from_str(scheme) != String::from_str("nxm") || segments.len() != 4 {
        return None;
    }
    assert(segs[0] == segments@[0]@ && segs[1] == segments@[1]@);
    assert(segs[2] == segments@[2]@ && segs[3] == segments@[3]@);
    if segments[0] != String::from_str("mods") || segments[2] != String::from_str("files") {
        return None;
    }
    let mod_id = match parse_u64(segments[1].as_str()) {
        Some(v) => v,
        None => 0,
    };
    let file_id = match parse_u64(segments[3].as_str()) {
        Some(v) => v,
        None => 0,
    };
    if mod_id == 0 || file_id == 0 {
        return None;
    }
    let game = match host {
        Some(h) => h,
        None => String::new(),
    };
    Some(NxmLink { game, mod_id, file_id })
}

#[verifier::external_type_specification]
#[verifier::external_body]
pub struct ExUrl(url::Url);

/// Relies on `url::Url::parse`: the URL that `input` writes, where it is a
/// valid absolute URL.
#[verifier::external_body]
fn parse_url(input: &str) -> (r: Option<url::Url>) {
    url::Url::parse(input).ok()
}

/// Relies on `url::Url::scheme`: the URL's scheme, without its `:`.
#[verifier::external_body]
fn url_scheme(u: &url::Url) -> (r: String) {
    u.scheme().to_string()
}

/// Relies on `url::Url::host_str`: the URL's host, where it has one.
#[verifier::external_body]
fn url_host(u: &url::Url) -> (r: Option<String>) {
    u.host_str().map(|h| h.to_string())
}

/// Relies on `url::Url::path_segments`: the `/`-separated segments of the
/// URL's path, where the path starts with `/`.
#[verifier::external_body]
fn url_path_segments(u: &url::Url) -> (r: Option<Vec<String>>) {
    u.path_segments().map(|c| c.map(|s| s.to_string()).collect())
}

/// The mod file that the link `url` names (see [`nxm_link`]): none where
/// `url` is no URL, or no `nxm` link to a mod file.
pub fn parse_nxm_url(url: &str) -> (r: Option<NxmLink>)
    ensures
        r matches Some(link) ==> link.mod_id > 0 && link.file_id > 0,
{
    let parsed = match parse_url(url) {
        Some(u) => u,
        None => return None,
    };
    let scheme = url_scheme(&parsed);
    let host = url_host(&parsed);
    let segments = match url_path_segments(&parsed) {
        Some(s) => s,
        None => Vec::new(),
    };
    let r = nxm_link(scheme.as_str(), host, &segments);
    proof {
        if r is Some {
            assert(strings_view(segments@)[1] == segments@[1]@);
            assert(strings_view(segments@)[3] == segments@[3]@);
        }
    }
    r
}

} // verus!
