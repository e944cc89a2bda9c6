//! Management tokens: the two canonical-string generations and the HMAC-SHA1
//! signature over them.

use vstd::prelude::*;
use vstd::utf8::{decode_utf8, encode_utf8, valid_utf8};

use crate::text::{chars_eq, chars_of, text_eq, matches_at, matches_at_exec, slice_chars, string_of};

verus! {

/// What HMAC-SHA1 gives for a key and a message.
pub uninterp spec fn hmac_sha1_of(key: Seq<u8>, message: Seq<u8>) -> Seq<u8>;

/// The URL-safe base64 text (with padding) of some bytes.
pub uninterp spec fn base64_url_of(data: Seq<u8>) -> Seq<char>;

/// The path, query and host of a URL text, where it parses as a URL.
pub uninterp spec fn url_parts_of(s: Seq<char>) -> Option<(Seq<char>, Option<Seq<char>>, Option<Seq<char>>)>;

/// The Unicode upper case of a text.
pub uninterp spec fn upper_of(s: Seq<char>) -> Seq<char>;

/// The text of some bytes, each invalid UTF-8 sequence replaced by U+FFFD.
pub uninterp spec fn lossy_text_of(b: Seq<u8>) -> Seq<char>;

/// Relies on `hmac_sha1::hmac_sha1`, which returns a 20-byte digest.
#[verifier::external_body]
fn hmac_sha1(key: &[u8], message: &[u8]) -> (r: Vec<u8>)
    ensures
        r@ == hmac_sha1_of(key@, message@),
        r@.len() == 20,
{
    hmac_sha1::hmac_sha1(key, message).to_vec()
}

/// Relies on base64's `Engine::encode_string` with the `BASE64_URL_SAFE` engine.
#[verifier::external_body]
fn base64_url(data: &[u8]) -> (r: String)
    ensures
        r@ == base64_url_of(data@),
{
    let mut buf = String::new();
    base64::Engine::encode_string(&base64::prelude::BASE64_URL_SAFE, data, &mut buf);
    buf
}

/// A URL's parts as plain text.
pub struct UrlParts {
    pub path: String,
    pub query: Option<String>,
    pub host: Option<String>,
}

pub open spec fn opt_text(s: Option<String>) -> Option<Seq<char>> {
    match s {
        Some(t) => Some(t@),
        None => None,
    }
}

pub open spec fn opt_str(s: Option<&str>) -> Option<Seq<char>> {
    match s {
        Some(t) => Some(t@),
        None => None,
    }
}

pub open spec fn opt_bytes(b: Option<&[u8]>) -> Option<Seq<u8>> {
    match b {
        Some(t) => Some(t@),
        None => None,
    }
}

/// Relies on `reqwest::Url::parse` and its `path`, `query` and `host_str`.
#[verifier::external_body]
fn split_url(s: &str) -> (r: Option<UrlParts>)
    ensures
        match r {
            Some(p) => url_parts_of(s@) == Some((p.path@, opt_text(p.query), opt_text(p.host))),
            None => url_parts_of(s@) is None,
        },
{
    match reqwest::Url::parse(s) {
        Ok(u) => Some(
            UrlParts {
                path: u.path().to_string(),
                query: u.query().map(|q| q.to_string()),
                host: u.host_str().map(|h| h.to_string()),
            },
        ),
        Err(_) => None,
    }
}

/// Relies on `str::to_uppercase`.
#[verifier::external_body]
pub(crate) fn upper(s: &str) -> (r: String)
    ensures
        r@ == upper_of(s@),
{
    s.to_uppercase()
}

/// Relies on `String::from_utf8_lossy`, which leaves valid UTF-8 as it is.
#[verifier::external_body]
fn lossy_text(b: &[u8]) -> (r: String)
    ensures
        r@ == lossy_text_of(b@),
        valid_utf8(b@) ==> r@ == decode_utf8(b@),
{
    String::from_utf8_lossy(b).into_owned()
}

/// Appends the characters of `s` to `v`.
pub fn push_text(v: &mut Vec<char>, s: &str)
    ensures
        final(v)@ == old(v)@ + s@,
{
    let t = chars_of(s);
    let ghost v0 = v@;
    let mut i: usize = 0;
    while i < t.len()
        invariant
            i <= t.len(),
            v@ == v0 + t@.take(i as int),
        decreases t.len() - i,
    {
        v.push(t[i]);
        i = i + 1;
        assert(v@ =~= v0 + t@.take(i as int));
    }
    assert(t@.take(i as int) =~= t@);
}

/// Appends `s` to `v`.
pub fn push_chars(v: &mut Vec<char>, s: &Vec<char>)
    ensures
        final(v)@ == old(v)@ + s@,
{
    let ghost v0 = v@;
    let mut i: usize = 0;
    while i < s.len()
        invariant
            i <= s.len(),
            v@ == v0 + s@.take(i as int),
        decreases s.len() - i,
    {
        v.push(s[i]);
        i = i + 1;
        assert(v@ =~= v0 + s@.take(i as int));
    }
    assert(s@.take(i as int) =~= s@);
}

/// The signing generation, and the authorization scheme it goes with.
#[derive(Debug, Clone, Copy, PartialEq, Eq, Structural)]
pub enum SignMethod {
    Method1,
    Method2,
}

/// Why a request could not be signed.
#[derive(Debug, Clone, Copy, PartialEq, Eq, Structural)]
pub enum SignError {
    /// The URL does not parse.
    BadUrl,
    /// The URL names no host, which the second generation signs.
    NoHost,
    /// A vendor header's value holds a byte that is not visible ASCII or tab.
    BadHeaderValue,
}

/// The account credential that signs requests.
pub struct ManageTokenGenerator {
    access_key: String,
    secret_key: String,
}

/// `path` followed by `?query` where there is a query.
pub open spec fn with_query(path: Seq<char>, query: Option<Seq<char>>) -> Seq<char> {
    match query {
        Some(q) => path + "?"@ + q,
        None => path,
    }
}

/// The body as the first generation signs it: only a non-empty form body.
pub open spec fn v1_body(content_type: Option<Seq<char>>, body: Option<Seq<u8>>) -> Seq<char> {
    if content_type == Some("application/x-www-form-urlencoded"@) && body is Some && body->0.len()
        > 0 {
        lossy_text_of(body->0)
    } else {
        seq![]
    }
}

/// The canonical string of the first generation.
pub open spec fn v1_canonical(
    path: Seq<char>,
    query: Option<Seq<char>>,
    content_type: Option<Seq<char>>,
    body: Option<Seq<u8>>,
) -> Seq<char> {
    with_query(path, query) + "\n"@ + v1_body(content_type, body)
}

/// The token for a canonical string: the access key, a colon, and the
/// URL-safe base64 of the HMAC-SHA1 of the string under the secret key.
pub open spec fn token_text(access_key: Seq<char>, secret_key: Seq<char>, canonical: Seq<char>) -> Seq<char> {
    access_key + ":"@ + base64_url_of(hmac_sha1_of(encode_utf8(secret_key), encode_utf8(canonical)))
}

/// The prefix that marks a vendor header, in lower case; names carry it in any case.
pub open spec fn vendor_prefix() -> Seq<char> {
    seq!['x', '-', 'q', 'i', 'n', 'i', 'u', '-']
}

/// Whether `c` is `l`, or `l` is a lower-case ASCII letter and `c` its upper case.
pub open spec fn same_letter(c: char, l: char) -> bool {
    c == l || ('a' <= l && l <= 'z' && (c as u32) as int + 32 == (l as u32) as int)
}

/// Whether a header name carries the vendor prefix, in any case.
pub open spec fn is_vendor(name: Seq<char>) -> bool {
    name.len() >= 8 && forall|i: int| 0 <= i < 8 ==> same_letter(#[trigger] name[i], vendor_prefix()[i])
}

/// Whether a header value is what `HeaderValue::to_str` accepts: visible ASCII or tab.
pub open spec fn header_value_ok(v: Seq<char>) -> bool {
    forall|i: int| 0 <= i < v.len() ==> (#[trigger] v[i] == '\t' || (' ' <= v[i] && v[i] <= '~'))
}

/// Whether `a` comes strictly before `b` in lexicographic order.
pub open spec fn lex_lt(a: Seq<char>, b: Seq<char>) -> bool
    decreases a.len(),
{
    if a.len() == 0 {
        b.len() > 0
    } else if b.len() == 0 {
        false
    } else if a[0] != b[0] {
        (a[0] as u32) < (b[0] as u32)
    } else {
        lex_lt(a.drop_first(), b.drop_first())
    }
}

/// The vendor headers in order, each as its name without the prefix and its value.
pub open spec fn vendor_pairs(h: Seq<(Seq<char>, Seq<char>)>) -> Seq<(Seq<char>, Seq<char>)>
    decreases h.len(),
{
    if h.len() == 0 {
        seq![]
    } else {
        let prev = vendor_pairs(h.drop_last());
        let n = h.last().0;
        if is_vendor(n) {
            prev.push((n.subrange(8, n.len() as int), h.last().1))
        } else {
            prev
        }
    }
}

/// The order of entries: by name, then by value, lexicographically.
pub open spec fn pair_lt(a: (Seq<char>, Seq<char>), b: (Seq<char>, Seq<char>)) -> bool {
    lex_lt(a.0, b.0) || (a.0 == b.0 && lex_lt(a.1, b.1))
}

/// How many leading entries of `acc` come before `e`.
pub open spec fn insert_pos(acc: Seq<(Seq<char>, Seq<char>)>, e: (Seq<char>, Seq<char>)) -> int
    decreases acc.len(),
{
    if acc.len() == 0 || !pair_lt(acc[0], e) {
        0
    } else {
        1 + insert_pos(acc.drop_first(), e)
    }
}

/// `acc` with `e` put in before the first entry that does not come before it.
pub open spec fn insert_entry(acc: Seq<(Seq<char>, Seq<char>)>, e: (Seq<char>, Seq<char>)) -> Seq<
    (Seq<char>, Seq<char>),
> {
    acc.insert(insert_pos(acc, e), e)
}

/// Entries put in order one by one.
pub open spec fn sort_entries(p: Seq<(Seq<char>, Seq<char>)>) -> Seq<(Seq<char>, Seq<char>)>
    decreases p.len(),
{
    if p.len() == 0 {
        seq![]
    } else {
        insert_entry(sort_entries(p.drop_last()), p.last())
    }
}

/// Every vendor header, prefix stripped, in order of name, then value.
pub open spec fn vendor_entries(h: Seq<(Seq<char>, Seq<char>)>) -> Seq<(Seq<char>, Seq<char>)> {
    sort_entries(vendor_pairs(h))
}

/// Whether every vendor header's value is acceptable.
pub open spec fn vendor_values_ok(h: Seq<(Seq<char>, Seq<char>)>) -> bool {
    forall|i: int| 0 <= i < vendor_pairs(h).len() ==> header_value_ok((#[trigger] vendor_pairs(h)[i]).1)
}

/// The lines `\n<name>: <value>` of some entries.
pub open spec fn header_lines(e: Seq<(Seq<char>, Seq<char>)>) -> Seq<char>
    decreases e.len(),
{
    if e.len() == 0 {
        seq![]
    } else {
        header_lines(e.drop_last()) + "\n"@ + e.last().0 + ": "@ + e.last().1
    }
}

/// The body as the second generation signs it: any body but an octet stream.
pub open spec fn v2_body(content_type: Option<Seq<char>>, body: Option<Seq<u8>>) -> Seq<char> {
    if content_type != Some("application/octet-stream"@) && body is Some {
        lossy_text_of(body->0)
    } else {
        seq![]
    }
}

/// The canonical string of the second generation.
pub open spec fn v2_canonical(
    method: Seq<char>,
    path: Seq<char>,
    query: Option<Seq<char>>,
    host: Seq<char>,
    content_type: Option<Seq<char>>,
    headers: Seq<(Seq<char>, Seq<char>)>,
    body: Option<Seq<u8>>,
) -> Seq<char> {
    let ct_line = match content_type {
        Some(t) => "\nContent-Type: "@ + t,
        None => seq![],
    };
    upper_of(method) + " "@ + with_query(path, query) + "\nHost: "@ + host + ct_line + header_lines(
        vendor_entries(headers),
    ) + "\n\n"@ + v2_body(content_type, body)
}

/// The views of header pairs.
pub open spec fn header_views(h: Seq<(String, String)>) -> Seq<(Seq<char>, Seq<char>)> {
    h.map_values(|p: (String, String)| (p.0@, p.1@))
}

/// The views of name/value entries.
pub open spec fn entry_views(e: Seq<(Vec<char>, Vec<char>)>) -> Seq<(Seq<char>, Seq<char>)> {
    e.map_values(|p: (Vec<char>, Vec<char>)| (p.0@, p.1@))
}

/// The first generation's canonical string of a request.
pub open spec fn v1_canonical_of(url: Seq<char>, content_type: Option<Seq<char>>, body: Option<Seq<u8>>) -> Result<Seq<char>, SignError> {
    match url_parts_of(url) {
        None => Err(SignError::BadUrl),
        Some(parts) => Ok(v1_canonical(parts.0, parts.1, content_type, body)),
    }
}

/// The second generation's canonical string of a request.
pub open spec fn v2_canonical_of(
    method: Seq<char>,
    url: Seq<char>,
    headers: Seq<(Seq<char>, Seq<char>)>,
    content_type: Option<Seq<char>>,
    body: Option<Seq<u8>>,
) -> Result<Seq<char>, SignError> {
    match url_parts_of(url) {
        None => Err(SignError::BadUrl),
        Some(parts) => if parts.2 is None {
            Err(SignError::NoHost)
        } else if !vendor_values_ok(headers) {
            Err(SignError::BadHeaderValue)
        } else {
            Ok(v2_canonical(method, parts.0, parts.1, parts.2->0, content_type, headers, body))
        },
    }
}

/// The token of a canonical string, or the error that stopped it.
pub open spec fn signed(access_key: Seq<char>, secret_key: Seq<char>, canonical: Result<Seq<char>, SignError>) -> Result<Seq<char>, SignError> {
    match canonical {
        Ok(c) => Ok(token_text(access_key, secret_key, c)),
        Err(e) => Err(e),
    }
}

/// What the first generation gives for a credential and a request.
pub open spec fn v1_result(
    access_key: Seq<char>,
    secret_key: Seq<char>,
    url: Seq<char>,
    content_type: Option<Seq<char>>,
    body: Option<Seq<u8>>,
) -> Result<Seq<char>, SignError> {
    signed(access_key, secret_key, v1_canonical_of(url, content_type, body))
}

/// What the second generation gives for a credential and a request.
pub open spec fn v2_result(
    access_key: Seq<char>,
    secret_key: Seq<char>,
    method: Seq<char>,
    url: Seq<char>,
    headers: Seq<(Seq<char>, Seq<char>)>,
    content_type: Option<Seq<char>>,
    body: Option<Seq<u8>>,
) -> Result<Seq<char>, SignError> {
    signed(access_key, secret_key, v2_canonical_of(method, url, headers, content_type, body))
}

pub open spec fn result_view(r: Result<String, SignError>) -> Result<Seq<char>, SignError> {
    match r {
        Ok(s) => Ok(s@),
        Err(e) => Err(e),
    }
}


/// Whether `a` comes strictly before `b` in lexicographic order.
pub fn chars_lt(a: &Vec<char>, b: &Vec<char>) -> (r: bool)
    ensures
        r == lex_lt(a@, b@),
{
    let mut i: usize = 0;
    assert(a@.skip(0) =~= a@);
    assert(b@.skip(0) =~= b@);
    while i < a.len() && i < b.len() && a[i] == b[i]
        invariant
            i <= a.len(),
            i <= b.len(),
            lex_lt(a@, b@) == lex_lt(a@.skip(i as int), b@.skip(i as int)),
        decreases a.len() - i,
    {
        assert(a@.skip(i as int).drop_first() =~= a@.skip(i + 1));
        assert(b@.skip(i as int).drop_first() =~= b@.skip(i + 1));
        i = i + 1;
    }
    if i == a.len() {
        b.len() > i
    } else if i == b.len() {
        false
    } else {
        (a[i] as u32) < (b[i] as u32)
    }
}

/// Whether entry `a` comes before `(name, value)`.
fn pair_lt_exec(a: &(Vec<char>, Vec<char>), name: &Vec<char>, value: &Vec<char>) -> (r: bool)
    ensures
        r == pair_lt((a.0@, a.1@), (name@, value@)),
{
    chars_lt(&a.0, name) || (chars_eq(&a.0, name) && chars_lt(&a.1, value))
}

proof fn lemma_insert_pos_bounds(acc: Seq<(Seq<char>, Seq<char>)>, e: (Seq<char>, Seq<char>))
    ensures
        0 <= insert_pos(acc, e) <= acc.len(),
        forall|i: int| 0 <= i < insert_pos(acc, e) ==> pair_lt(#[trigger] acc[i], e),
        insert_pos(acc, e) < acc.len() ==> !pair_lt(acc[insert_pos(acc, e)], e),
    decreases acc.len(),
{
    if acc.len() > 0 && pair_lt(acc[0], e) {
        lemma_insert_pos_bounds(acc.drop_first(), e);
        assert forall|i: int| 0 <= i < insert_pos(acc, e) implies pair_lt(#[trigger] acc[i], e) by {
            if i > 0 {
                assert(acc[i] == acc.drop_first()[i - 1]);
            }
        }
    }
}

/// Puts an entry into the entries `acc` as [`insert_entry`] says.
fn insert_entry_exec(acc: &mut Vec<(Vec<char>, Vec<char>)>, e: (Vec<char>, Vec<char>))
    ensures
        entry_views(final(acc)@) == insert_entry(entry_views(old(acc)@), (e.0@, e.1@)),
{
    let ghost e0 = entry_views(acc@);
    let ghost x = (e.0@, e.1@);
    let mut p: usize = 0;
    assert(e0.skip(0) =~= e0);
    while p < acc.len() && pair_lt_exec(&acc[p], &e.0, &e.1)
        invariant
            p <= acc.len(),
            e0 == entry_views(acc@),
            e0 == entry_views(old(acc)@),
            x == (e.0@, e.1@),
            insert_pos(e0, x) == p + insert_pos(e0.skip(p as int), x),
        decreases acc.len() - p,
    {
        assert(e0.skip(p as int)[0] == e0[p as int]);
        assert(e0.skip(p as int).drop_first() =~= e0.skip(p + 1));
        p = p + 1;
    }
    proof {
        if p < acc.len() {
            assert(e0.skip(p as int)[0] == e0[p as int]);
        }
        assert(insert_pos(e0.skip(p as int), x) == 0);
    }
    acc.insert(p, e);
    assert(entry_views(acc@) =~= e0.insert(p as int, x));
}

/// Whether a header value is visible ASCII or tab throughout.
fn header_value_ok_exec(v: &Vec<char>) -> (r: bool)
    ensures
        r == header_value_ok(v@),
{
    let mut i: usize = 0;
    while i < v.len()
        invariant
            i <= v.len(),
            forall|j: int| 0 <= j < i ==> (#[trigger] v@[j] == '\t' || (' ' <= v@[j] && v@[j] <= '~')),
        decreases v.len() - i,
    {
        let c = v[i];
        if !(c == '\t' || (' ' <= c && c <= '~')) {
            assert(!(v@[i as int] == '\t' || (' ' <= v@[i as int] && v@[i as int] <= '~')));
            return false;
        }
        i = i + 1;
    }
    true
}

/// Whether a header name carries the vendor prefix, in any case.
fn is_vendor_exec(name: &Vec<char>) -> (r: bool)
    ensures
        r == is_vendor(name@),
{
    let prefix: Vec<char> = vec!['x', '-', 'q', 'i', 'n', 'i', 'u', '-'];
    assert(prefix@ =~= vendor_prefix());
    if name.len() < 8 {
        return false;
    }
    let mut i: usize = 0;
    while i < 8
        invariant
            i <= 8,
            name.len() >= 8,
            prefix@ == vendor_prefix(),
            forall|j: int| 0 <= j < i ==> same_letter(#[trigger] name@[j], vendor_prefix()[j]),
        decreases 8 - i,
    {
        let c = name[i];
        let l = prefix[i];
        let same = c == l || ('a' <= l && l <= 'z' && (c as u32) == (l as u32) - 32);
        assert(same == same_letter(name@[i as int], vendor_prefix()[i as int]));
        if !same {
            assert(!same_letter(name@[i as int], vendor_prefix()[i as int]));
            return false;
        }
        i = i + 1;
    }
    true
}

proof fn lemma_vendor_pairs_prefix(h: Seq<(Seq<char>, Seq<char>)>, k: int)
    requires
        0 <= k <= h.len(),
    ensures
        vendor_pairs(h.take(k)).len() <= vendor_pairs(h).len(),
        forall|j: int|
            0 <= j < vendor_pairs(h.take(k)).len() ==> #[trigger] vendor_pairs(h.take(k))[j]
                == vendor_pairs(h)[j],
    decreases h.len() - k,
{
    if k == h.len() {
        assert(h.take(k) =~= h);
    } else {
        lemma_vendor_pairs_prefix(h, k + 1);
        assert(h.take(k + 1).drop_last() =~= h.take(k));
        assert forall|j: int| 0 <= j < vendor_pairs(h.take(k)).len() implies #[trigger] vendor_pairs(
            h.take(k),
        )[j] == vendor_pairs(h)[j] by {
            assert(vendor_pairs(h.take(k))[j] == vendor_pairs(h.take(k + 1))[j]);
        }
    }
}

/// Every vendor header of a request, prefix stripped and in order of name,
/// then value; or the error for a vendor header whose value is not acceptable.
fn collect_vendor(headers: &Vec<(String, String)>) -> (r: Result<Vec<(Vec<char>, Vec<char>)>, SignError>)
    ensures
        match r {
            Ok(e) => vendor_values_ok(header_views(headers@)) && entry_views(e@) == vendor_entries(
                header_views(headers@),
            ),
            Err(e) => !vendor_values_ok(header_views(headers@)) && e == SignError::BadHeaderValue,
        },
{
    let ghost hv = header_views(headers@);
    let mut acc: Vec<(Vec<char>, Vec<char>)> = Vec::new();
    let mut i: usize = 0;
    assert(hv.take(0) =~= Seq::<(Seq<char>, Seq<char>)>::empty());
    assert(entry_views(acc@) =~= sort_entries(vendor_pairs(hv.take(0))));
    while i < headers.len()
        invariant
            i <= headers.len(),
            hv == header_views(headers@),
            entry_views(acc@) == sort_entries(vendor_pairs(hv.take(i as int))),
            forall|j: int|
                0 <= j < vendor_pairs(hv.take(i as int)).len() ==> header_value_ok(
                    (#[trigger] vendor_pairs(hv.take(i as int))[j]).1,
                ),
        decreases headers.len() - i,
    {
        let name = chars_of(headers[i].0.as_str());
        let value = chars_of(headers[i].1.as_str());
        proof {
            assert(hv[i as int] == (name@, value@));
            assert(hv.take(i + 1).drop_last() =~= hv.take(i as int));
            assert(hv.take(i + 1).last() == hv[i as int]);
        }
        if is_vendor_exec(&name) {
            let ghost vp = vendor_pairs(hv.take(i + 1));
            if !header_value_ok_exec(&value) {
                proof {
                    lemma_vendor_pairs_prefix(hv, i + 1);
                    assert(vp[vp.len() - 1] == vendor_pairs(hv)[vp.len() - 1]);
                }
                return Err(SignError::BadHeaderValue);
            }
            let stripped = slice_chars(&name, 8, name.len());
            proof {
                assert(vp == vendor_pairs(hv.take(i as int)).push((stripped@, value@)));
                assert(vp.drop_last() == vendor_pairs(hv.take(i as int)));
            }
            insert_entry_exec(&mut acc, (stripped, value));
        }
        i = i + 1;
    }
    proof {
        assert(hv.take(i as int) =~= hv);
    }
    Ok(acc)
}

/// Appends the lines `\n<name>: <value>` of the entries `e` to `v`.
fn push_header_lines(v: &mut Vec<char>, e: &Vec<(Vec<char>, Vec<char>)>)
    ensures
        final(v)@ == old(v)@ + header_lines(entry_views(e@)),
{
    let ghost v0 = v@;
    let ghost ev = entry_views(e@);
    let mut i: usize = 0;
    assert(ev.take(0) =~= Seq::<(Seq<char>, Seq<char>)>::empty());
    assert(v@ =~= v0 + header_lines(ev.take(0)));
    while i < e.len()
        invariant
            i <= e.len(),
            ev == entry_views(e@),
            v@ == v0 + header_lines(ev.take(i as int)),
        decreases e.len() - i,
    {
        push_text(v, "\n");
        push_chars(v, &e[i].0);
        push_text(v, ": ");
        push_chars(v, &e[i].1);
        proof {
            assert(ev.take(i + 1).drop_last() =~= ev.take(i as int));
            assert(ev.take(i + 1).last() == (e@[i as int].0@, e@[i as int].1@));
            assert(v@ =~= v0 + header_lines(ev.take(i + 1)));
        }
        i = i + 1;
    }
    assert(ev.take(i as int) =~= ev);
}


impl View for ManageTokenGenerator {
    /// The access key and the secret key.
    type V = (Seq<char>, Seq<char>);

    closed spec fn view(&self) -> (Seq<char>, Seq<char>) {
        (self.access_key@, self.secret_key@)
    }
}

impl ManageTokenGenerator {
    pub fn new(access_key: String, secret_key: String) -> (r: Self)
        ensures
            r@ == (access_key@, secret_key@),
    {
        ManageTokenGenerator { access_key, secret_key }
    }

    /// The token for a canonical string.
    fn sign(&self, canonical: &str) -> (r: String)
        ensures
            r@ == token_text(self@.0, self@.1, canonical@),
    {
        let mac = hmac_sha1(self.secret_key.as_str().as_bytes(), canonical.as_bytes());
        let encoded = base64_url(mac.as_slice());
        let mut out = chars_of(self.access_key.as_str());
        push_text(&mut out, ":");
        push_text(&mut out, encoded.as_str());
        string_of(out.as_slice())
    }

    /// Signs a request with the first generation.
    pub fn generate_v1(&self, url: &str, content_type: Option<&str>, body: Option<&[u8]>) -> (r:
        Result<String, SignError>)
        ensures
            result_view(r) == v1_result(self@.0, self@.1, url@, opt_str(content_type), opt_bytes(body)),
    {
        match canonical_v1(url, content_type, body) {
            Ok(c) => Ok(self.sign(c.as_str())),
            Err(e) => Err(e),
        }
    }

    /// Signs a request with the second generation.
    pub fn generate_v2(
        &self,
        method: &str,
        url: &str,
        headers: &Vec<(String, String)>,
        content_type: Option<&str>,
        body: Option<&[u8]>,
    ) -> (r: Result<String, SignError>)
        ensures
            result_view(r) == v2_result(
                self@.0,
                self@.1,
                method@,
                url@,
                header_views(headers@),
                opt_str(content_type),
                opt_bytes(body),
            ),
    {
        match canonical_v2(method, url, headers, content_type, body) {
            Ok(c) => Ok(self.sign(c.as_str())),
            Err(e) => Err(e),
        }
    }
}

/// The first generation's canonical string: `path[?query]\n`, then the body
/// where it is a non-empty form.
pub fn canonical_v1(url: &str, content_type: Option<&str>, body: Option<&[u8]>) -> (r: Result<String, SignError>)
    ensures
        result_view(r) == v1_canonical_of(url@, opt_str(content_type), opt_bytes(body)),
{
    let parts = match split_url(url) {
        Some(p) => p,
        None => return Err(SignError::BadUrl),
    };
    let mut canonical = chars_of(parts.path.as_str());
    if let Some(q) = &parts.query {
        push_text(&mut canonical, "?");
        push_text(&mut canonical, q.as_str());
    }
    push_text(&mut canonical, "\n");
    let ghost prefix = canonical@;
    let form = match content_type {
        Some(t) => text_eq(t, "application/x-www-form-urlencoded"),
        None => false,
    };
    if form {
        if let Some(b) = body {
            if b.len() > 0 {
                let t = lossy_text(b);
                push_text(&mut canonical, t.as_str());
            }
        }
    }
    proof {
        assert(prefix == with_query(parts.path@, opt_text(parts.query)) + "\n"@);
        assert(canonical@ =~= v1_canonical(parts.path@, opt_text(parts.query), opt_str(content_type), opt_bytes(body)));
    }
    Ok(string_of(canonical.as_slice()))
}

/// The second generation's canonical string: `METHOD path[?query]`, the host,
/// the content type if any, every vendor header in order of name then value,
/// a blank line, then the body unless it is an octet stream.
pub fn canonical_v2(
    method: &str,
    url: &str,
    headers: &Vec<(String, String)>,
    content_type: Option<&str>,
    body: Option<&[u8]>,
) -> (r: Result<String, SignError>)
    ensures
        result_view(r) == v2_canonical_of(
            method@,
            url@,
            header_views(headers@),
            opt_str(content_type),
            opt_bytes(body),
        ),
{
    let parts = match split_url(url) {
        Some(p) => p,
        None => return Err(SignError::BadUrl),
    };
    let host = match &parts.host {
        Some(h) => h,
        None => return Err(SignError::NoHost),
    };
    let entries = match collect_vendor(headers) {
        Ok(e) => e,
        Err(e) => return Err(e),
    };
    let m = upper(method);
    let mut canonical = chars_of(m.as_str());
    push_text(&mut canonical, " ");
    push_text(&mut canonical, parts.path.as_str());
    if let Some(q) = &parts.query {
        push_text(&mut canonical, "?");
        push_text(&mut canonical, q.as_str());
    }
    push_text(&mut canonical, "\nHost: ");
    push_text(&mut canonical, host.as_str());
    let ghost c1 = canonical@;
    if let Some(t) = content_type {
        push_text(&mut canonical, "\nContent-Type: ");
        push_text(&mut canonical, t);
    }
    let ghost c2 = canonical@;
    push_header_lines(&mut canonical, &entries);
    push_text(&mut canonical, "\n\n");
    let ghost c3 = canonical@;
    let octet = match content_type {
        Some(t) => text_eq(t, "application/octet-stream"),
        None => false,
    };
    if !octet {
        if let Some(b) = body {
            let t = lossy_text(b);
            push_text(&mut canonical, t.as_str());
        }
    }
    proof {
        let ct_line = match opt_str(content_type) {
            Some(t) => "\nContent-Type: "@ + t,
            None => seq![],
        };
        assert(c1 =~= upper_of(method@) + " "@ + with_query(parts.path@, opt_text(parts.query))
            + "\nHost: "@ + host@);
        assert(c2 =~= c1 + ct_line);
        assert(canonical@ =~= c3 + v2_body(opt_str(content_type), opt_bytes(body)));
        assert(canonical@ =~= v2_canonical(
            method@,
            parts.path@,
            opt_text(parts.query),
            host@,
            opt_str(content_type),
            header_views(headers@),
            opt_bytes(body),
        ));
    }
    Ok(string_of(canonical.as_slice()))
}

/// Signing is a function of the credential and the request: two tokens made
/// from equal inputs are equal, for either generation.
pub proof fn lemma_signing_deterministic(
    g1: ManageTokenGenerator,
    g2: ManageTokenGenerator,
    method: Seq<char>,
    url: Seq<char>,
    headers: Seq<(Seq<char>, Seq<char>)>,
    content_type: Option<Seq<char>>,
    body: Option<Seq<u8>>,
    r1: Result<String, SignError>,
    r2: Result<String, SignError>,
    generation: SignMethod,
)
    requires
        g1@ == g2@,
        generation == SignMethod::Method1 ==> result_view(r1) == v1_result(g1@.0, g1@.1, url, content_type, body)
            && result_view(r2) == v1_result(g2@.0, g2@.1, url, content_type, body),
        generation == SignMethod::Method2 ==> result_view(r1) == v2_result(
            g1@.0,
            g1@.1,
            method,
            url,
            headers,
            content_type,
            body,
        ) && result_view(r2) == v2_result(g2@.0, g2@.1, method, url, headers, content_type, body),
    ensures
        result_view(r1) == result_view(r2),
{
}


proof fn lemma_lex_transitive(a: Seq<char>, b: Seq<char>, c: Seq<char>)
    requires
        lex_lt(a, b),
        lex_lt(b, c),
    ensures
        lex_lt(a, c),
    decreases a.len(),
{
    if a.len() > 0 && b.len() > 0 && c.len() > 0 && a[0] == b[0] && b[0] == c[0] {
        lemma_lex_transitive(a.drop_first(), b.drop_first(), c.drop_first());
    }
}

proof fn lemma_lex_total(a: Seq<char>, b: Seq<char>)
    requires
        a != b,
    ensures
        lex_lt(a, b) || lex_lt(b, a),
    decreases a.len(),
{
    if a.len() > 0 && b.len() > 0 && a[0] == b[0] {
        if a.drop_first() == b.drop_first() {
            assert(a =~= seq![a[0]] + a.drop_first());
            assert(b =~= seq![b[0]] + b.drop_first());
        }
        lemma_lex_total(a.drop_first(), b.drop_first());
    } else if a.len() == 0 && b.len() == 0 {
        assert(a =~= b);
    } else if a.len() > 0 && b.len() > 0 {
        vstd::utf8::char_u32_cast(a[0], a[0] as u32);
        vstd::utf8::char_u32_cast(b[0], b[0] as u32);
    }
}


proof fn lemma_lex_irreflexive(a: Seq<char>)
    ensures
        !lex_lt(a, a),
    decreases a.len(),
{
    if a.len() > 0 {
        lemma_lex_irreflexive(a.drop_first());
    }
}

proof fn lemma_pair_irreflexive(a: (Seq<char>, Seq<char>))
    ensures
        !pair_lt(a, a),
{
    lemma_lex_irreflexive(a.0);
    lemma_lex_irreflexive(a.1);
}

proof fn lemma_pair_transitive(a: (Seq<char>, Seq<char>), b: (Seq<char>, Seq<char>), c: (Seq<char>, Seq<char>))
    requires
        pair_lt(a, b),
        pair_lt(b, c),
    ensures
        pair_lt(a, c),
{
    if lex_lt(a.0, b.0) && lex_lt(b.0, c.0) {
        lemma_lex_transitive(a.0, b.0, c.0);
    } else if a.0 == b.0 && b.0 == c.0 {
        lemma_lex_transitive(a.1, b.1, c.1);
    }
}

proof fn lemma_pair_total(a: (Seq<char>, Seq<char>), b: (Seq<char>, Seq<char>))
    requires
        a != b,
    ensures
        pair_lt(a, b) || pair_lt(b, a),
{
    if a.0 != b.0 {
        lemma_lex_total(a.0, b.0);
    } else {
        lemma_lex_total(a.1, b.1);
    }
}

/// Whether no entry comes before one ahead of it.
pub open spec fn entries_sorted(s: Seq<(Seq<char>, Seq<char>)>) -> bool {
    forall|i: int, j: int| 0 <= i < j < s.len() ==> !pair_lt(#[trigger] s[j], #[trigger] s[i])
}

proof fn lemma_insert_entry_sorted(acc: Seq<(Seq<char>, Seq<char>)>, e: (Seq<char>, Seq<char>))
    requires
        entries_sorted(acc),
    ensures
        entries_sorted(insert_entry(acc, e)),
{
    lemma_insert_pos_bounds(acc, e);
    let p = insert_pos(acc, e);
    let r = insert_entry(acc, e);
    assert forall|i: int, j: int| 0 <= i < j < r.len() implies !pair_lt(#[trigger] r[j], #[trigger] r[i]) by {
        if j < p {
            assert(r[i] == acc[i] && r[j] == acc[j]);
        } else if j == p {
            assert(r[i] == acc[i] && r[j] == e);
            assert(pair_lt(acc[i], e));
            if pair_lt(e, acc[i]) {
                lemma_pair_transitive(acc[i], e, acc[i]);
                lemma_pair_irreflexive(acc[i]);
            }
        } else if i == p {
            assert(r[i] == e && r[j] == acc[j - 1]);
            if pair_lt(acc[j - 1], e) {
                if j - 1 > p {
                    assert(!pair_lt(acc[j - 1], acc[p]));
                    if acc[p] != acc[j - 1] {
                        lemma_pair_total(acc[p], acc[j - 1]);
                        lemma_pair_transitive(acc[p], acc[j - 1], e);
                    }
                }
            }
        } else if i < p {
            assert(r[i] == acc[i] && r[j] == acc[j - 1]);
        } else {
            assert(r[i] == acc[i - 1] && r[j] == acc[j - 1]);
        }
    }
}

proof fn lemma_sort_entries(p: Seq<(Seq<char>, Seq<char>)>)
    ensures
        entries_sorted(sort_entries(p)),
        sort_entries(p).to_multiset() == p.to_multiset(),
    decreases p.len(),
{
    broadcast use vstd::seq_lib::group_to_multiset_ensures;

    if p.len() == 0 {
        assert(p =~= Seq::<(Seq<char>, Seq<char>)>::empty());
    } else {
        let prev = sort_entries(p.drop_last());
        lemma_sort_entries(p.drop_last());
        lemma_insert_entry_sorted(prev, p.last());
        lemma_insert_pos_bounds(prev, p.last());
        vstd::seq_lib::to_multiset_insert(prev, insert_pos(prev, p.last()), p.last());
        assert(p =~= p.drop_last().push(p.last()));
        vstd::seq_lib::to_multiset_build(p.drop_last(), p.last());
    }
}

proof fn lemma_sorted_unique(s1: Seq<(Seq<char>, Seq<char>)>, s2: Seq<(Seq<char>, Seq<char>)>)
    requires
        entries_sorted(s1),
        entries_sorted(s2),
        s1.to_multiset() == s2.to_multiset(),
    ensures
        s1 == s2,
    decreases s1.len(),
{
    broadcast use vstd::seq_lib::group_to_multiset_ensures;

    vstd::seq_lib::to_multiset_len(s1);
    vstd::seq_lib::to_multiset_len(s2);
    if s1.len() == 0 {
        assert(s1 =~= s2);
    } else {
        vstd::seq_lib::to_multiset_contains(s2, s1[0]);
        vstd::seq_lib::to_multiset_contains(s1, s1[0]);
        assert(s1.contains(s1[0]));
        let j = choose|j: int| 0 <= j < s2.len() && s2[j] == s1[0];
        vstd::seq_lib::to_multiset_contains(s1, s2[0]);
        vstd::seq_lib::to_multiset_contains(s2, s2[0]);
        assert(s2.contains(s2[0]));
        let k = choose|k: int| 0 <= k < s1.len() && s1[k] == s2[0];
        if s1[0] != s2[0] {
            lemma_pair_total(s1[0], s2[0]);
            if j > 0 {
                assert(!pair_lt(s2[j], s2[0]));
            }
            if k > 0 {
                assert(!pair_lt(s1[k], s1[0]));
            }
            if j == 0 || k == 0 {
                lemma_pair_irreflexive(s1[0]);
                lemma_pair_irreflexive(s2[0]);
            }
        }
        vstd::seq_lib::to_multiset_remove(s1, 0);
        vstd::seq_lib::to_multiset_remove(s2, 0);
        assert(s1.remove(0) =~= s1.drop_first());
        assert(s2.remove(0) =~= s2.drop_first());
        assert forall|a: int, b: int| 0 <= a < b < s1.drop_first().len() implies !pair_lt(
            #[trigger] s1.drop_first()[b],
            #[trigger] s1.drop_first()[a],
        ) by {
            assert(s1.drop_first()[a] == s1[a + 1] && s1.drop_first()[b] == s1[b + 1]);
        }
        assert forall|a: int, b: int| 0 <= a < b < s2.drop_first().len() implies !pair_lt(
            #[trigger] s2.drop_first()[b],
            #[trigger] s2.drop_first()[a],
        ) by {
            assert(s2.drop_first()[a] == s2[a + 1] && s2.drop_first()[b] == s2[b + 1]);
        }
        lemma_sorted_unique(s1.drop_first(), s2.drop_first());
        assert(s1 =~= seq![s1[0]] + s1.drop_first());
        assert(s2 =~= seq![s2[0]] + s2.drop_first());
    }
}

/// The second generation signs the vendor headers as a collection: two
/// requests whose vendor headers are the same (name, value) pairs, in any
/// order and among any other headers, have the same canonical string and so
/// the same token.
pub proof fn lemma_vendor_order_free(
    h1: Seq<(Seq<char>, Seq<char>)>,
    h2: Seq<(Seq<char>, Seq<char>)>,
    method: Seq<char>,
    url: Seq<char>,
    content_type: Option<Seq<char>>,
    body: Option<Seq<u8>>,
)
    requires
        vendor_pairs(h1).to_multiset() == vendor_pairs(h2).to_multiset(),
    ensures
        vendor_entries(h1) == vendor_entries(h2),
        v2_canonical_of(method, url, h1, content_type, body) == v2_canonical_of(
            method,
            url,
            h2,
            content_type,
            body,
        ),
        forall|ak: Seq<char>, sk: Seq<char>|
            #[trigger] v2_result(ak, sk, method, url, h1, content_type, body) == v2_result(
                ak,
                sk,
                method,
                url,
                h2,
                content_type,
                body,
            ),
{
    broadcast use vstd::seq_lib::group_to_multiset_ensures;

    let p1 = vendor_pairs(h1);
    let p2 = vendor_pairs(h2);
    lemma_sort_entries(p1);
    lemma_sort_entries(p2);
    lemma_sorted_unique(sort_entries(p1), sort_entries(p2));
    if vendor_values_ok(h1) {
        assert forall|j: int| 0 <= j < p2.len() implies header_value_ok((#[trigger] p2[j]).1) by {
            vstd::seq_lib::to_multiset_contains(p2, p2[j]);
            assert(p2.contains(p2[j]));
            vstd::seq_lib::to_multiset_contains(p1, p2[j]);
            let k = choose|k: int| 0 <= k < p1.len() && p1[k] == p2[j];
        }
    }
    if vendor_values_ok(h2) {
        assert forall|j: int| 0 <= j < p1.len() implies header_value_ok((#[trigger] p1[j]).1) by {
            vstd::seq_lib::to_multiset_contains(p1, p1[j]);
            assert(p1.contains(p1[j]));
            vstd::seq_lib::to_multiset_contains(p2, p1[j]);
            let k = choose|k: int| 0 <= k < p2.len() && p2[k] == p1[j];
        }
    }
    assert(vendor_values_ok(h1) == vendor_values_ok(h2));
}

} // verus!
