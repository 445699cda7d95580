//! Recognising JMComic inputs: explicit `jm:<id>` ids, album / chapter URLs
//! and image CDN links, and JMComic host names.
use vstd::prelude::*;

use crate::text::{
    all_digits, ascii_lower, chars_to_string, concat_chars, contains_chars, contains_seq,
    copy_range, decimal, digit_char, digit_value, digits_value, eq_chars, has_prefix, is_ascii_digit, is_digit, parse_i64,
    signed_decimal, spec_parse_i64, starts_with, str_chars, to_ascii_lower, trim, trim_chars,
};

verus! {

/// What a JMComic input names: an album (a whole comic) or one chapter.
#[derive(Debug, Clone, Copy, PartialEq, Eq, Structural)]
pub enum JmTarget {
    Album(i64),
    Chapter(i64),
}

// ---------------------------------------------------------------------------
// URLs, as parsed by the `url` crate
// ---------------------------------------------------------------------------

/// The parts of a parsed URL that the target rules read.
#[derive(Debug)]
pub struct UrlParts {
    /// The whole URL, serialized.
    pub serialization: String,
    /// The host, if the URL has one.
    pub host: Option<String>,
    /// The `/`-separated path segments, if the URL can be a base.
    pub path_segments: Option<Vec<String>>,
    /// The percent-decoded `key=value` pairs of the query string.
    pub query_pairs: Vec<(String, String)>,
}

/// The mathematical content of [`UrlParts`].
pub struct UrlView {
    pub serialization: Seq<char>,
    pub host: Option<Seq<char>>,
    pub path_segments: Option<Seq<Seq<char>>>,
    pub query_pairs: Seq<(Seq<char>, Seq<char>)>,
}

impl View for UrlParts {
    type V = UrlView;

    open spec fn view(&self) -> UrlView {
        UrlView {
            serialization: self.serialization@,
            host: match self.host {
                Some(h) => Some(h@),
                None => None,
            },
            path_segments: match self.path_segments {
                Some(v) => Some(v@.map_values(|s: String| s@)),
                None => None,
            },
            query_pairs: self.query_pairs@.map_values(|p: (String, String)| (p.0@, p.1@)),
        }
    }
}

/// What `url::Url::parse` yields for an input, seen through [`UrlParts`]
/// (`None` where it reports an error).
pub uninterp spec fn spec_url_parse(input: Seq<char>) -> Option<UrlView>;

/// Parses `input` with `url::Url::parse` and reads back `as_str`,
/// `host_str`, `path_segments` and `query_pairs`. The contract claims only
/// that the result is a function of the input (named [`spec_url_parse`]).
#[verifier::external_body]
fn parse_url(input: &str) -> (res: Option<UrlParts>)
    ensures
        match res {
            Some(u) => spec_url_parse(input@) == Some(u@),
            None => spec_url_parse(input@) is None,
        },
{
    let url = url::Url::parse(input).ok()?;
    Some(UrlParts {
        serialization: url.as_str().to_string(),
        host: url.host_str().map(|h| h.to_string()),
        path_segments: url.path_segments().map(|s| s.map(|p| p.to_string()).collect()),
        query_pairs: url.query_pairs().map(|(k, v)| (k.into_owned(), v.into_owned())).collect(),
    })
}

/// Parses a URL given as characters.
pub fn parse_url_chars(input: &[char]) -> (res: Option<UrlParts>)
    ensures
        match res {
            Some(u) => spec_url_parse(input@) == Some(u@),
            None => spec_url_parse(input@) is None,
        },
{
    let s = chars_to_string(input);
    parse_url(s.as_str())
}

/// The input made into a URL: kept when it has a scheme separator, otherwise
/// read as an `https` address.
pub open spec fn normalize_url(t: Seq<char>) -> Seq<char> {
    if contains_seq(t, "://"@) {
        t
    } else {
        "https://"@ + t
    }
}

/// `t` with `https://` put in front unless it already has `://`.
pub fn normalize_url_chars(t: &[char]) -> (res: Vec<char>)
    ensures
        res@ == normalize_url(t@),
{
    let sep = str_chars("://");
    if contains_chars(t, &sep) {
        copy_range(t, 0, t.len())
    } else {
        let scheme = str_chars("https://");
        concat_chars(&scheme, t)
    }
}

// ---------------------------------------------------------------------------
// JMComic host names
// ---------------------------------------------------------------------------

/// A host name in which one of the JMComic markers occurs.
pub open spec fn host_has_jm_marker(host: Seq<char>) -> bool {
    ||| contains_seq(host, "jmcomic"@)
    ||| contains_seq(host, "jm-comic"@)
    ||| contains_seq(host, "18comic"@)
    ||| contains_seq(host, "jmapiproxy"@)
    ||| contains_seq(host, "cdnzack"@)
    ||| contains_seq(host, "cdnhth"@)
    ||| contains_seq(host, "cdnbea"@)
}

/// Whether a (lower-case) host holds a JMComic marker.
pub fn has_jm_marker(host: &[char]) -> (b: bool)
    ensures
        b == host_has_jm_marker(host@),
{
    contains_chars(host, &str_chars("jmcomic")) || contains_chars(host, &str_chars("jm-comic"))
        || contains_chars(host, &str_chars("18comic")) || contains_chars(
        host,
        &str_chars("jmapiproxy"),
    ) || contains_chars(host, &str_chars("cdnzack")) || contains_chars(
        host,
        &str_chars("cdnhth"),
    ) || contains_chars(host, &str_chars("cdnbea"))
}

/// The host of a parsed URL, or the empty string.
pub open spec fn host_or_empty(u: UrlView) -> Seq<char> {
    match u.host {
        Some(h) => h,
        None => Seq::empty(),
    }
}

/// Whether `input` names a JMComic host: trimmed and non-empty, made into a
/// URL, parsed, and a marker occurs in its lower-cased host.
pub open spec fn spec_looks_like_jm_domain(input: Seq<char>) -> bool {
    let t = trim(input);
    &&& t.len() > 0
    &&& match spec_url_parse(normalize_url(t)) {
        Some(u) => host_has_jm_marker(ascii_lower(host_or_empty(u))),
        None => false,
    }
}

/// Whether the characters name a JMComic host.
pub fn jm_domain_chars(input: &[char]) -> (b: bool)
    ensures
        b == spec_looks_like_jm_domain(input@),
{
    let trimmed = trim_chars(input);
    if trimmed.len() == 0 {
        return false;
    }
    let normalized = normalize_url_chars(&trimmed);
    match parse_url_chars(&normalized) {
        None => false,
        Some(url) => {
            let host = match &url.host {
                Some(h) => str_chars(h.as_str()),
                None => Vec::new(),
            };
            proof {
                assert(host@ == host_or_empty(url@));
            }
            let lower = to_ascii_lower(&host);
            has_jm_marker(&lower)
        },
    }
}

/// Whether `input` (a host name or a URL) belongs to JMComic.
pub fn looks_like_jm_domain(input: &str) -> (b: bool)
    ensures
        b == spec_looks_like_jm_domain(input@),
{
    jm_domain_chars(&str_chars(input))
}

// ---------------------------------------------------------------------------
// Ids
// ---------------------------------------------------------------------------

/// A non-empty string of ASCII digits denoting a positive `i64`.
pub open spec fn spec_parse_positive_i64(s: Seq<char>) -> Option<i64> {
    if s.len() > 0 && all_digits(s) && 0 < digits_value(s) <= i64::MAX {
        Some(digits_value(s) as i64)
    } else {
        None
    }
}

/// Parses a positive id made of ASCII digits only.
pub fn parse_positive_i64(value: &[char]) -> (res: Option<i64>)
    ensures
        res == spec_parse_positive_i64(value@),
{
    if value.len() == 0 {
        return None;
    }
    let mut i: usize = 0;
    while i < value.len()
        invariant
            i <= value@.len(),
            forall|k: int| 0 <= k < i ==> #[trigger] is_digit(value@[k]),
        decreases value.len() - i,
    {
        if !is_ascii_digit(value[i]) {
            return None;
        }
        i += 1;
    }
    assert(all_digits(value@));
    assert(is_digit(value@[0]));
    match parse_i64(value) {
        Some(id) => {
            if id > 0 {
                Some(id)
            } else {
                None
            }
        },
        None => None,
    }
}

/// Law: parsing the decimal rendering of an `i64` gives it back.
pub proof fn lemma_parse_i64_of_decimal(n: i64)
    ensures
        spec_parse_i64(signed_decimal(n as int)) == Some(n),
{
    if n < 0 {
        let m = (-n) as nat;
        lemma_decimal_digits(m);
        let s = signed_decimal(n as int);
        assert(s.drop_first() =~= decimal(m));
        assert(s[0] == '-');
    } else {
        lemma_decimal_digits(n as nat);
        let s = signed_decimal(n as int);
        assert(is_digit(s[0]));
    }
}

/// Lemma: a decimal representation consists of digits and denotes its number.
pub proof fn lemma_decimal_digits(n: nat)
    ensures
        decimal(n).len() > 0,
        all_digits(decimal(n)),
        digits_value(decimal(n)) == n,
    decreases n,
{
    let c = digit_char(n % 10);
    assert(c as u32 == 48 + n % 10);
    assert(digit_value(c) == n % 10);
    if n < 10 {
        let d = decimal(n);
        assert(d.drop_last() =~= Seq::<char>::empty());
        assert(d.last() == c);
        assert(digits_value(d) == digits_value(d.drop_last()) * 10 + digit_value(d.last()));
    } else {
        lemma_decimal_digits(n / 10);
        let d = decimal(n);
        assert(d.drop_last() =~= decimal(n / 10));
        assert(d.last() == c);
        assert(digits_value(d) == digits_value(d.drop_last()) * 10 + digit_value(d.last()));
        assert forall|i: int| 0 <= i < d.len() implies #[trigger] is_digit(d[i]) by {
            if i < d.len() - 1 {
                assert(d[i] == decimal(n / 10)[i]);
            }
        }
    }
}

// ---------------------------------------------------------------------------
// Targets
// ---------------------------------------------------------------------------

/// The id given in an explicit `jm:<id>` or `jm<id>` form (already lower case).
pub open spec fn explicit_id(lower: Seq<char>) -> Option<i64> {
    if starts_with(lower, "jm:"@) {
        spec_parse_positive_i64(lower.subrange(3, lower.len() as int))
    } else if starts_with(lower, "jm"@) {
        spec_parse_positive_i64(lower.subrange(2, lower.len() as int))
    } else {
        None
    }
}

/// Path-segment keys that introduce an album id.
pub open spec fn is_album_segment(key: Seq<char>) -> bool {
    key == "album"@ || key == "albums"@
}

/// Path-segment keys that introduce a chapter id.
pub open spec fn is_chapter_segment(key: Seq<char>) -> bool {
    key == "photo"@ || key == "chapter"@ || key == "photos"@
}

/// Query keys that carry an album id.
pub open spec fn is_album_query(key: Seq<char>) -> bool {
    key == "album"@ || key == "aid"@ || key == "album_id"@
}

/// Query keys that carry a chapter id.
pub open spec fn is_chapter_query(key: Seq<char>) -> bool {
    key == "chapter"@ || key == "chapter_id"@ || key == "photo"@
}

/// The first pair of adjacent path segments, from index `i` on, in which an
/// album or chapter key is followed by a positive id.
pub open spec fn segment_pair_target(segs: Seq<Seq<char>>, i: int) -> Option<JmTarget>
    decreases segs.len() - i,
{
    if i < 0 || i + 1 >= segs.len() {
        None
    } else {
        let key = ascii_lower(segs[i]);
        let id = spec_parse_positive_i64(segs[i + 1]);
        if is_album_segment(key) && id is Some {
            Some(JmTarget::Album(id->0))
        } else if is_chapter_segment(key) && id is Some {
            Some(JmTarget::Chapter(id->0))
        } else {
            segment_pair_target(segs, i + 1)
        }
    }
}

/// The first query pair, from index `i` on, whose key names an album or a
/// chapter and whose value is a positive id.
pub open spec fn query_target(pairs: Seq<(Seq<char>, Seq<char>)>, i: int) -> Option<JmTarget>
    decreases pairs.len() - i,
{
    if i < 0 || i >= pairs.len() {
        None
    } else {
        let key = ascii_lower(pairs[i].0);
        let id = spec_parse_positive_i64(pairs[i].1);
        if is_album_query(key) && id is Some {
            Some(JmTarget::Album(id->0))
        } else if is_chapter_query(key) && id is Some {
            Some(JmTarget::Chapter(id->0))
        } else {
            query_target(pairs, i + 1)
        }
    }
}

/// The first path segment, from index `i` on, that is a positive id.
pub open spec fn first_id_segment(segs: Seq<Seq<char>>, i: int) -> Option<i64>
    decreases segs.len() - i,
{
    if i < 0 || i >= segs.len() {
        None
    } else if spec_parse_positive_i64(segs[i]) is Some {
        spec_parse_positive_i64(segs[i])
    } else {
        first_id_segment(segs, i + 1)
    }
}

/// The path segments of a parsed URL, or none.
pub open spec fn segments_or_empty(u: UrlView) -> Seq<Seq<char>> {
    match u.path_segments {
        Some(s) => s,
        None => Seq::empty(),
    }
}

/// What a parsed JMComic URL names: an album or chapter key followed by an
/// id in the path, else an id in the query, else the first numeric path
/// segment as an album.
pub open spec fn url_target(u: UrlView) -> Option<JmTarget> {
    let segs = segments_or_empty(u);
    match segment_pair_target(segs, 0) {
        Some(t) => Some(t),
        None => match query_target(u.query_pairs, 0) {
            Some(t) => Some(t),
            None => match first_id_segment(segs, 0) {
                Some(id) => Some(JmTarget::Album(id)),
                None => None,
            },
        },
    }
}

/// What an input names on JMComic: an explicit `jm:<id>` / `jm<id>` (any
/// case) is an album; otherwise the input, made into a URL, must parse and
/// have a JMComic host, and [`url_target`] decides.
pub open spec fn spec_parse_jm_target(input: Seq<char>) -> Option<JmTarget> {
    let t = trim(input);
    match explicit_id(ascii_lower(t)) {
        Some(id) => Some(JmTarget::Album(id)),
        None => match spec_url_parse(normalize_url(t)) {
            None => None,
            Some(u) => if spec_looks_like_jm_domain(u.serialization) {
                url_target(u)
            } else {
                None
            },
        },
    }
}

/// The id of an explicit `jm:<id>` or `jm<id>` input.
fn explicit_id_chars(lower: &[char]) -> (res: Option<i64>)
    ensures
        res == explicit_id(lower@),
{
    if has_prefix(lower, &str_chars("jm:")) {
        proof {
            reveal_strlit("jm:");
        }
        parse_positive_i64(&copy_range(lower, 3, lower.len()))
    } else if has_prefix(lower, &str_chars("jm")) {
        proof {
            reveal_strlit("jm");
        }
        parse_positive_i64(&copy_range(lower, 2, lower.len()))
    } else {
        None
    }
}

/// The characters of segment `i`.
fn segment_chars(segs: &Vec<String>, i: usize) -> (res: Vec<char>)
    requires
        i < segs@.len(),
    ensures
        res@ == segs@[i as int]@,
{
    str_chars(segs[i].as_str())
}

/// Whether `key` is one of the album path keys.
fn album_segment_key(key: &[char]) -> (b: bool)
    ensures
        b == is_album_segment(key@),
{
    eq_chars(key, &str_chars("album")) || eq_chars(key, &str_chars("albums"))
}

/// Whether `key` is one of the chapter path keys.
fn chapter_segment_key(key: &[char]) -> (b: bool)
    ensures
        b == is_chapter_segment(key@),
{
    eq_chars(key, &str_chars("photo")) || eq_chars(key, &str_chars("chapter")) || eq_chars(
        key,
        &str_chars("photos"),
    )
}

/// Whether `key` is one of the album query keys.
fn album_query_key(key: &[char]) -> (b: bool)
    ensures
        b == is_album_query(key@),
{
    eq_chars(key, &str_chars("album")) || eq_chars(key, &str_chars("aid")) || eq_chars(
        key,
        &str_chars("album_id"),
    )
}

/// Whether `key` is one of the chapter query keys.
fn chapter_query_key(key: &[char]) -> (b: bool)
    ensures
        b == is_chapter_query(key@),
{
    eq_chars(key, &str_chars("chapter")) || eq_chars(key, &str_chars("chapter_id")) || eq_chars(
        key,
        &str_chars("photo"),
    )
}

/// The target named by adjacent path segments.
fn find_segment_pair_target(segs: &Vec<String>) -> (res: Option<JmTarget>)
    ensures
        res == segment_pair_target(segs@.map_values(|s: String| s@), 0),
{
    let ghost sv = segs@.map_values(|s: String| s@);
    let mut i: usize = 0;
    while i < segs.len() && segs.len() - i > 1
        invariant
            sv == segs@.map_values(|s: String| s@),
            segment_pair_target(sv, 0) == segment_pair_target(sv, i as int),
        decreases segs.len() - i,
    {
        let key = to_ascii_lower(&segment_chars(segs, i));
        let id = parse_positive_i64(&segment_chars(segs, i + 1));
        if album_segment_key(&key) && id.is_some() {
            return Some(JmTarget::Album(id.unwrap()));
        }
        if chapter_segment_key(&key) && id.is_some() {
            return Some(JmTarget::Chapter(id.unwrap()));
        }
        i += 1;
    }
    None
}

/// The target named by a query pair.
fn find_query_target(pairs: &Vec<(String, String)>) -> (res: Option<JmTarget>)
    ensures
        res == query_target(pairs@.map_values(|p: (String, String)| (p.0@, p.1@)), 0),
{
    let ghost pv = pairs@.map_values(|p: (String, String)| (p.0@, p.1@));
    let mut i: usize = 0;
    while i < pairs.len()
        invariant
            pv == pairs@.map_values(|p: (String, String)| (p.0@, p.1@)),
            query_target(pv, 0) == query_target(pv, i as int),
        decreases pairs.len() - i,
    {
        let key = to_ascii_lower(&str_chars(pairs[i].0.as_str()));
        let id = parse_positive_i64(&str_chars(pairs[i].1.as_str()));
        if album_query_key(&key) && id.is_some() {
            return Some(JmTarget::Album(id.unwrap()));
        }
        if chapter_query_key(&key) && id.is_some() {
            return Some(JmTarget::Chapter(id.unwrap()));
        }
        i += 1;
    }
    None
}

/// The first path segment that is a positive id.
fn find_id_segment(segs: &Vec<String>) -> (res: Option<i64>)
    ensures
        res == first_id_segment(segs@.map_values(|s: String| s@), 0),
{
    let ghost sv = segs@.map_values(|s: String| s@);
    let mut i: usize = 0;
    while i < segs.len()
        invariant
            sv == segs@.map_values(|s: String| s@),
            first_id_segment(sv, 0) == first_id_segment(sv, i as int),
        decreases segs.len() - i,
    {
        let id = parse_positive_i64(&segment_chars(segs, i));
        if id.is_some() {
            return id;
        }
        i += 1;
    }
    None
}

/// What a parsed URL names, by [`url_target`].
pub fn target_of_url(url: &UrlParts) -> (res: Option<JmTarget>)
    ensures
        res == url_target(url@),
{
    let empty: Vec<String> = Vec::new();
    let segs = match &url.path_segments {
        Some(s) => s,
        None => &empty,
    };
    proof {
        assert(segs@.map_values(|s: String| s@) =~= segments_or_empty(url@));
    }
    if let Some(t) = find_segment_pair_target(segs) {
        return Some(t);
    }
    if let Some(t) = find_query_target(&url.query_pairs) {
        return Some(t);
    }
    match find_id_segment(segs) {
        Some(id) => Some(JmTarget::Album(id)),
        None => None,
    }
}

/// Parses a JMComic input (explicit id, album / chapter page URL, or image
/// CDN link) into the album or chapter it names; `None` when the input is
/// not a JMComic target.
pub fn parse_jm_target(input: &str) -> (res: Option<JmTarget>)
    ensures
        res == spec_parse_jm_target(input@),
{
    let chars = str_chars(input);
    let trimmed = trim_chars(&chars);
    let lower = to_ascii_lower(&trimmed);
    if let Some(id) = explicit_id_chars(&lower) {
        return Some(JmTarget::Album(id));
    }
    let normalized = normalize_url_chars(&trimmed);
    let url = match parse_url_chars(&normalized) {
        Some(u) => u,
        None => return None,
    };
    if !jm_domain_chars(&str_chars(url.serialization.as_str())) {
        return None;
    }
    target_of_url(&url)
}

/// Whether `input` is something the JMComic downloader can fetch.
pub fn looks_like_jm_target(input: &str) -> (b: bool)
    ensures
        b == spec_parse_jm_target(input@) is Some,
{
    parse_jm_target(input).is_some()
}

/// Law: an explicit id, written `jm:<id>` or `JM<id>` with a positive id in
/// decimal, names that album.
pub proof fn lemma_explicit_ids_name_albums(id: i64)
    requires
        id > 0,
    ensures
        spec_parse_jm_target("jm:"@ + decimal(id as nat)) == Some(JmTarget::Album(id)),
        spec_parse_jm_target("JM"@ + decimal(id as nat)) == Some(JmTarget::Album(id)),
{
    reveal_strlit("jm:");
    reveal_strlit("JM");
    reveal_strlit("jm");
    let d = decimal(id as nat);
    lemma_decimal_digits(id as nat);
    assert(spec_parse_positive_i64(d) == Some(id));
    // `jm:<id>`
    let s1 = "jm:"@ + d;
    assert(s1[0] == 'j');
    assert(s1.last() == d.last());
    assert(is_digit(d[d.len() - 1]));
    assert(trim(s1) == s1);
    assert(ascii_lower(s1) =~= s1) by {
        assert forall|i: int| 0 <= i < s1.len() implies #[trigger] ascii_lower(s1)[i] == s1[i] by {
            if i >= 3 {
                assert(is_digit(d[i - 3]));
            }
        }
    }
    assert(starts_with(s1, "jm:"@));
    assert(s1.subrange(3, s1.len() as int) =~= d);
    // `JM<id>`
    let s2 = "JM"@ + d;
    let l2 = "jm"@ + d;
    assert(s2[0] == 'J');
    assert(s2.last() == d.last());
    assert(trim(s2) == s2);
    assert(ascii_lower(s2) =~= l2) by {
        assert forall|i: int| 0 <= i < s2.len() implies #[trigger] ascii_lower(s2)[i] == l2[i] by {
            if i >= 2 {
                assert(is_digit(d[i - 2]));
            }
        }
    }
    assert(is_digit(l2[2]));
    assert(!starts_with(l2, "jm:"@)) by {
        assert("jm:"@[2] == ':');
        assert(l2[0int + 2] != "jm:"@[2]);
    }
    assert(starts_with(l2, "jm"@));
    assert(l2.subrange(2, l2.len() as int) =~= d);
}

/// Law: a plain number is never read as an explicit `jm` id, so it names a
/// JMComic target only through a URL whose host is a JMComic host.
pub proof fn lemma_plain_numbers_need_jm_host(input: Seq<char>)
    requires
        all_digits(input),
    ensures
        explicit_id(ascii_lower(trim(input))) is None,
        spec_parse_jm_target(input) is Some ==> (spec_url_parse(normalize_url(trim(input))) matches Some(
            u,
        ) && spec_looks_like_jm_domain(u.serialization)),
{
    reveal_strlit("jm:");
    reveal_strlit("jm");
    let t = trim(input);
    crate::text::lemma_trim_is_subrange(input);
    let (a, b) = choose|a: int, b: int|
        0 <= a <= b <= input.len() && #[trigger] trim(input) == input.subrange(a, b);
    let l = ascii_lower(t);
    if l.len() >= 2 {
        assert(is_digit(input[a]));
        assert(l[0] == t[0]);
        assert("jm"@[0] == 'j');
        assert(l[0int + 0] != "jm"@[0]);
        assert("jm:"@[0] == 'j');
        assert(l[0int + 0] != "jm:"@[0]);
    }
}

/// Law: apart from an explicit `jm` id, an input names a target only when
/// it parses as a URL whose serialization is a JMComic host; an input whose
/// URL is not on a JMComic host names nothing.
pub proof fn lemma_targets_need_jm_host(input: Seq<char>)
    ensures
        spec_parse_jm_target(input) is Some && explicit_id(ascii_lower(trim(input))) is None ==> (
        spec_url_parse(normalize_url(trim(input))) matches Some(u) && spec_looks_like_jm_domain(
            u.serialization,
        )),
        explicit_id(ascii_lower(trim(input))) is None && (spec_url_parse(normalize_url(trim(input)))
            matches Some(u) && !spec_looks_like_jm_domain(u.serialization)) ==> spec_parse_jm_target(
            input,
        ) is None,
{
}

} // verus!
