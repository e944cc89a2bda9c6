//! Access-log retrieval: the descriptors of a day's log objects, the day
//! range of a multi-day fetch, the content-addressed cache of downloaded
//! objects, decoding an object into lines, and filtering lines.

use vstd::prelude::*;
use vstd::multiset::Multiset;
use vstd::utf8::{decode_utf8, valid_utf8};

use crate::dates::{day_number, day_number_of, day_text, day_text_of};
use crate::text::{
    chars_of, contains, has_substring, matches_at, split, split_by, string_of, text_eq, views,
};
use crate::token::push_text;

verus! {

/// One downloadable log object of one day and domain; the checksum keys the cache.
#[derive(Debug, Clone)]
pub struct LogData {
    pub name: String,
    pub size: i64,
    pub mtime: i64,
    pub url: String,
    pub md5: String,
}

/// The catalog of one day: for each domain that has logs, its objects.
#[derive(Debug)]
pub struct LogResponse {
    pub code: Option<i32>,
    pub error: String,
    pub data: Option<Vec<(String, Vec<LogData>)>>,
}

/// Errors of a multi-day fetch.
#[derive(Debug, Clone, Copy, PartialEq, Eq, Structural)]
pub enum FetchError {
    /// A date is not `YYYY-MM-DD`, or a day in the range cannot be written.
    BadDate,
    /// The first day comes after the last.
    StartAfterEnd,
    /// The range spans more than the longest allowed number of days.
    SpanTooLong,
    /// An object is not a single gzip member of UTF-8 lines.
    Decode,
}

/// The longest range of days one fetch may span.
pub const MAX_SPAN_DAYS: u64 = 30;

/// How many object downloads may be in flight at once; more overloads the origin.
pub const MAX_DOWNLOADS_IN_FLIGHT: usize = 25;

/// The objects that a catalog lists for `domain`; none where the domain is absent.
pub fn descriptors_for<'a>(resp: &'a LogResponse, domain: &str) -> (r: &'a [LogData])
    ensures
        resp.data is None ==> r@.len() == 0,
        resp.data is Some ==> {
            let d = resp.data->0@;
            ||| exists|i: int|
                0 <= i < d.len() && (#[trigger] d[i]).0@ == domain@ && r@ == d[i].1@ && forall|j: int|
                    0 <= j < i ==> (#[trigger] d[j]).0@ != domain@
            ||| r@.len() == 0 && forall|i: int| 0 <= i < d.len() ==> (#[trigger] d[i]).0@ != domain@
        },
{
    match &resp.data {
        None => &[],
        Some(d) => {
            let mut i: usize = 0;
            while i < d.len()
                invariant
                    i <= d.len(),
                    resp.data == Some(*d),
                    forall|j: int| 0 <= j < i ==> (#[trigger] d@[j]).0@ != domain@,
                decreases d.len() - i,
            {
                if text_eq(d[i].0.as_str(), domain) {
                    let r = d[i].1.as_slice();
                    assert(0 <= i < d.len() && (d@[i as int]).0@ == domain@ && r@ == d@[i as int].1@
                        && forall|j: int| 0 <= j < i ==> (#[trigger] d@[j]).0@ != domain@);
                    assert(resp.data->0@[i as int].0@ == domain@ && r@ == resp.data->0@[i as int].1@);
                    return r;
                }
                i = i + 1;
            }
            &[]
        },
    }
}

/// The date `i` days after day `s`, where it can be written.
pub open spec fn nth_day_text(s: i64, i: int) -> Option<Seq<char>> {
    day_text_of((s + i) as i64)
}

/// The error of the inclusive range of day numbers `start..=end`, if any.
pub open spec fn range_error(start: Option<i64>, end: Option<i64>) -> Option<FetchError> {
    if start is None || end is None {
        Some(FetchError::BadDate)
    } else if start->0 > end->0 {
        Some(FetchError::StartAfterEnd)
    } else if end->0 - start->0 + 1 > MAX_SPAN_DAYS {
        Some(FetchError::SpanTooLong)
    } else {
        None
    }
}

/// The days of a fetch from `start_date` to `end_date`, both `YYYY-MM-DD` and
/// inclusive, as dates, first to last. An empty or reversed range, or one of
/// more than thirty days, is refused before anything is fetched.
pub fn plan_days(start_date: &str, end_date: &str) -> (r: Result<Vec<String>, FetchError>)
    ensures
        match r {
            Ok(days) => {
                let s = day_number_of(start_date@)->0;
                &&& range_error(day_number_of(start_date@), day_number_of(end_date@)) is None
                &&& days.len() == day_number_of(end_date@)->0 - s + 1
                &&& forall|i: int| 0 <= i < days.len() ==> nth_day_text(s, i) == Some((#[trigger] days@[i])@)
            },
            Err(e) => match range_error(day_number_of(start_date@), day_number_of(end_date@)) {
                Some(f) => e == f,
                None => e == FetchError::BadDate && exists|i: int|
                    0 <= i <= day_number_of(end_date@)->0 - day_number_of(start_date@)->0
                        && #[trigger] nth_day_text(day_number_of(start_date@)->0, i) is None,
            },
        },
{
    let s = match day_number(start_date) {
        Some(n) => n,
        None => return Err(FetchError::BadDate),
    };
    let e = match day_number(end_date) {
        Some(n) => n,
        None => return Err(FetchError::BadDate),
    };
    if s > e {
        return Err(FetchError::StartAfterEnd);
    }
    let span = (e - s + 1) as u64;
    if span > MAX_SPAN_DAYS {
        return Err(FetchError::SpanTooLong);
    }
    let mut days: Vec<String> = Vec::new();
    let mut i: u64 = 0;
    while i < span
        invariant
            day_number_of(start_date@) == Some(s),
            day_number_of(end_date@) == Some(e),
            i32::MIN <= s <= e <= i32::MAX,
            span == e - s + 1,
            range_error(day_number_of(start_date@), day_number_of(end_date@)) is None,
            i <= span,
            days.len() == i,
            forall|j: int| 0 <= j < i ==> nth_day_text(s, j) == Some((#[trigger] days@[j])@),
        decreases span - i,
    {
        match day_text(s + i as i64) {
            Some(t) => days.push(t),
            None => {
                assert(nth_day_text(s, i as int) is None);
                return Err(FetchError::BadDate);
            },
        }
        i = i + 1;
    }
    Ok(days)
}


/// The directory that holds the cached bytes of a checksum, whatever the
/// object's name.
pub open spec fn cache_dir_of(checksum: Seq<char>) -> Seq<char> {
    "/tmp/qiniu/"@ + checksum
}

/// Where a log object's bytes are cached: in its checksum's directory, under
/// the last segment of its object name.
pub open spec fn cache_entry_path_of(checksum: Seq<char>, name: Seq<char>) -> Seq<char> {
    cache_dir_of(checksum) + "/"@ + split(name, seq!['/']).last()
}

/// The directory that holds the cached bytes of a checksum.
pub fn cache_dir(checksum: &str) -> (r: String)
    ensures
        r@ == cache_dir_of(checksum@),
{
    let mut out: Vec<char> = Vec::new();
    push_text(&mut out, "/tmp/qiniu/");
    push_text(&mut out, checksum);
    string_of(out.as_slice())
}

/// The last `/`-separated segment of `name`.
pub fn last_segment(name: &str) -> (r: Vec<char>)
    ensures
        r@ == split(name@, seq!['/']).last(),
{
    let s = chars_of(name);
    let slash: Vec<char> = vec!['/'];
    assert(slash@ =~= seq!['/']);
    let pieces = split_by(&s, &slash);
    proof {
        crate::text::lemma_split_nonempty(s@, slash@);
        assert(views(pieces@)[pieces.len() - 1] == pieces@[pieces.len() - 1]@);
    }
    let last = &pieces[pieces.len() - 1];
    crate::text::slice_chars(last, 0, last.len())
}

/// Where the cache keeps a log object's bytes.
pub fn cache_entry_path(checksum: &str, name: &str) -> (r: String)
    ensures
        r@ == cache_entry_path_of(checksum@, name@),
{
    let mut out: Vec<char> = Vec::new();
    push_text(&mut out, "/tmp/qiniu/");
    push_text(&mut out, checksum);
    push_text(&mut out, "/");
    let last = last_segment(name);
    crate::token::push_chars(&mut out, &last);
    proof {
        assert(out@ =~= cache_entry_path_of(checksum@, name@));
    }
    string_of(out.as_slice())
}

/// A content-addressed store of downloaded log objects, keyed by checksum.
pub struct FetchCache {
    entries: Vec<(String, Vec<u8>)>,
}

/// The checksum-to-bytes map that a list of stored entries makes; a later
/// entry of a checksum stands over an earlier one.
pub open spec fn map_of(e: Seq<(String, Vec<u8>)>) -> Map<Seq<char>, Seq<u8>>
    decreases e.len(),
{
    if e.len() == 0 {
        Map::empty()
    } else {
        map_of(e.drop_last()).insert(e.last().0@, e.last().1@)
    }
}

proof fn lemma_map_of_found(e: Seq<(String, Vec<u8>)>, k: Seq<char>, p: int)
    requires
        0 <= p < e.len(),
        e[p].0@ == k,
        forall|j: int| p < j < e.len() ==> (#[trigger] e[j]).0@ != k,
    ensures
        map_of(e).contains_key(k),
        map_of(e)[k] == e[p].1@,
    decreases e.len(),
{
    if p < e.len() - 1 {
        assert forall|j: int| p < j < e.drop_last().len() implies (#[trigger] e.drop_last()[j]).0@ != k by {
            assert(e.drop_last()[j] == e[j]);
        }
        lemma_map_of_found(e.drop_last(), k, p);
    }
}

proof fn lemma_map_of_absent(e: Seq<(String, Vec<u8>)>, k: Seq<char>)
    requires
        forall|j: int| 0 <= j < e.len() ==> (#[trigger] e[j]).0@ != k,
    ensures
        !map_of(e).contains_key(k),
    decreases e.len(),
{
    if e.len() > 0 {
        assert forall|j: int| 0 <= j < e.drop_last().len() implies (#[trigger] e.drop_last()[j]).0@ != k by {
            assert(e.drop_last()[j] == e[j]);
        }
        lemma_map_of_absent(e.drop_last(), k);
    }
}

impl View for FetchCache {
    type V = Map<Seq<char>, Seq<u8>>;

    closed spec fn view(&self) -> Map<Seq<char>, Seq<u8>> {
        map_of(self.entries@)
    }
}

impl FetchCache {
    /// An empty cache.
    pub fn new() -> (r: Self)
        ensures
            r@ == Map::<Seq<char>, Seq<u8>>::empty(),
    {
        FetchCache { entries: Vec::new() }
    }

    /// The bytes stored under `checksum`, if any.
    pub fn get(&self, checksum: &str) -> (r: Option<&Vec<u8>>)
        ensures
            match r {
                Some(b) => self@.contains_key(checksum@) && self@[checksum@] == b@,
                None => !self@.contains_key(checksum@),
            },
    {
        let mut i: usize = self.entries.len();
        while i > 0
            invariant
                i <= self.entries.len(),
                forall|j: int| i <= j < self.entries.len() ==> (#[trigger] self.entries@[j]).0@ != checksum@,
            decreases i,
        {
            i = i - 1;
            if text_eq(self.entries[i].0.as_str(), checksum) {
                proof {
                    lemma_map_of_found(self.entries@, checksum@, i as int);
                }
                return Some(&self.entries[i].1);
            }
        }
        proof {
            lemma_map_of_absent(self.entries@, checksum@);
        }
        None
    }

    /// One fetch of an object through the cache. On a hit it yields the
    /// stored bytes and ignores `downloaded`. On a miss it yields `None`
    /// while nothing was downloaded, so the caller downloads only then and
    /// calls again; given the download, it stores it and yields it.
    pub fn fetch(&mut self, checksum: &str, downloaded: Option<Vec<u8>>) -> (r: Option<Vec<u8>>)
        ensures
            old(self)@.contains_key(checksum@) || downloaded is Some ==> (r matches Some(v) && v@
                == fetched_content(old(self)@, checksum@, download_view(downloaded))),
            old(self)@.contains_key(checksum@) || downloaded is Some ==> final(self)@ == after_fetch(
                old(self)@,
                checksum@,
                download_view(downloaded),
            ),
            !old(self)@.contains_key(checksum@) && downloaded is None ==> r is None && final(self)@
                == old(self)@,
    {
        match self.get(checksum) {
            Some(b) => {
                let c = copy_bytes(b);
                Some(c)
            },
            None => match downloaded {
                Some(b) => {
                    let c = copy_bytes(&b);
                    self.put(checksum.to_owned(), b);
                    Some(c)
                },
                None => None,
            },
        }
    }

    /// Stores `bytes` under `checksum`.
    pub fn put(&mut self, checksum: String, bytes: Vec<u8>)
        ensures
            final(self)@ == old(self)@.insert(checksum@, bytes@),
    {
        let ghost e0 = self.entries@;
        self.entries.push((checksum, bytes));
        proof {
            assert(self.entries@.drop_last() =~= e0);
        }
    }
}

/// The bytes of a download, if one was made.
pub open spec fn download_view(d: Option<Vec<u8>>) -> Seq<u8> {
    match d {
        Some(b) => b@,
        None => seq![],
    }
}

/// The bytes a fetch through the cache yields: the stored bytes on a hit,
/// else the bytes it downloaded.
pub open spec fn fetched_content(m: Map<Seq<char>, Seq<u8>>, checksum: Seq<char>, downloaded: Seq<u8>) -> Seq<u8> {
    if m.contains_key(checksum) {
        m[checksum]
    } else {
        downloaded
    }
}

/// The cache after a fetch: a miss stores what was downloaded.
pub open spec fn after_fetch(m: Map<Seq<char>, Seq<u8>>, checksum: Seq<char>, downloaded: Seq<u8>) -> Map<Seq<char>, Seq<u8>> {
    if m.contains_key(checksum) {
        m
    } else {
        m.insert(checksum, downloaded)
    }
}

/// Fetching the same checksum twice through [`FetchCache::fetch`] downloads
/// at most once: after the first fetch, with whatever it downloaded, the
/// second is a hit, needs no download, yields the same bytes as the first,
/// and leaves the cache as it was.
pub proof fn lemma_cache_idempotent(
    m: Map<Seq<char>, Seq<u8>>,
    checksum: Seq<char>,
    first: Seq<u8>,
    second: Seq<u8>,
)
    ensures
        after_fetch(m, checksum, first).contains_key(checksum),
        fetched_content(after_fetch(m, checksum, first), checksum, second) == fetched_content(
            m,
            checksum,
            first,
        ),
        after_fetch(after_fetch(m, checksum, first), checksum, second) == after_fetch(
            m,
            checksum,
            first,
        ),
{
}


/// The content of the gzip member that some bytes hold, where they hold one.
pub uninterp spec fn gunzip_of(b: Seq<u8>) -> Option<Seq<u8>>;

/// Relies on flate2's `read::GzDecoder`, read to the end: the decompressed
/// content of the first gzip member, or an error for a malformed stream.
#[verifier::external_body]
fn gunzip(b: &[u8]) -> (r: Option<Vec<u8>>)
    ensures
        match r {
            Some(v) => gunzip_of(b@) == Some(v@),
            None => gunzip_of(b@) is None,
        },
{
    let mut out = Vec::new();
    match std::io::Read::read_to_end(&mut flate2::read::GzDecoder::new(b), &mut out) {
        Ok(_) => Some(out),
        Err(_) => None,
    }
}

/// Relies on `String::from_utf8`, which fails exactly on bytes that are not UTF-8.
#[verifier::external_body]
fn utf8_string(b: Vec<u8>) -> (r: Option<String>)
    ensures
        match r {
            Some(s) => valid_utf8(b@) && s@ == decode_utf8(b@),
            None => !valid_utf8(b@),
        },
{
    String::from_utf8(b).ok()
}

/// A line without the carriage return that ended it, if any.
pub open spec fn strip_cr(l: Seq<u8>) -> Seq<u8> {
    if l.len() > 0 && l.last() == 13u8 {
        l.drop_last()
    } else {
        l
    }
}

/// The finished lines and the line in progress after reading `i` bytes of `b`.
pub open spec fn scan_lines(b: Seq<u8>, i: int) -> (Seq<Seq<u8>>, Seq<u8>)
    decreases i,
{
    if i <= 0 {
        (seq![], seq![])
    } else {
        let prev = scan_lines(b, i - 1);
        if b[i - 1] == 10u8 {
            (prev.0.push(strip_cr(prev.1)), seq![])
        } else {
            (prev.0, prev.1.push(b[i - 1]))
        }
    }
}

/// The lines of some bytes as `BufRead::lines` reads them: cut at each
/// newline, which goes, with a carriage return before it; a last line without
/// a newline counts where it is not empty.
pub open spec fn lines_of(b: Seq<u8>) -> Seq<Seq<u8>> {
    let st = scan_lines(b, b.len() as int);
    if st.1.len() > 0 {
        st.0.push(st.1)
    } else {
        st.0
    }
}

/// The byte views of a sequence of byte vectors.
pub open spec fn byte_views(v: Seq<Vec<u8>>) -> Seq<Seq<u8>> {
    v.map_values(|x: Vec<u8>| x@)
}

/// Cuts some bytes into lines, as [`lines_of`] says.
pub fn byte_lines(b: &[u8]) -> (r: Vec<Vec<u8>>)
    ensures
        byte_views(r@) == lines_of(b@),
{
    let mut done: Vec<Vec<u8>> = Vec::new();
    let mut cur: Vec<u8> = Vec::new();
    let mut i: usize = 0;
    while i < b.len()
        invariant
            i <= b.len(),
            byte_views(done@) == scan_lines(b@, i as int).0,
            cur@ == scan_lines(b@, i as int).1,
        decreases b.len() - i,
    {
        if b[i] == 10u8 {
            let mut line = cur;
            if line.len() > 0 && line[line.len() - 1] == 13u8 {
                line.pop();
            }
            assert(line@ =~= strip_cr(scan_lines(b@, i as int).1));
            let ghost d0 = done@;
            done.push(line);
            assert(byte_views(done@) =~= byte_views(d0).push(line@));
            cur = Vec::new();
            assert(cur@ =~= Seq::<u8>::empty());
        } else {
            cur.push(b[i]);
        }
        i = i + 1;
    }
    if cur.len() > 0 {
        let ghost d0 = done@;
        let ghost c0 = cur@;
        done.push(cur);
        assert(byte_views(done@) =~= byte_views(d0).push(c0));
    }
    done
}

/// The text lines of a decompressed object, where every line is UTF-8.
pub open spec fn text_lines_of(content: Seq<u8>) -> Option<Seq<Seq<char>>> {
    let ls = lines_of(content);
    if forall|i: int| 0 <= i < ls.len() ==> valid_utf8(#[trigger] ls[i]) {
        Some(ls.map_values(|l: Seq<u8>| decode_utf8(l)))
    } else {
        None
    }
}

/// The character views of a sequence of strings.
pub open spec fn string_views(v: Seq<String>) -> Seq<Seq<char>> {
    v.map_values(|x: String| x@)
}

/// The lines of a downloaded log object: a single gzip member holding UTF-8
/// lines. A malformed stream or a line that is not UTF-8 fails this object.
pub fn decode_object(bytes: &[u8]) -> (r: Result<Vec<String>, FetchError>)
    ensures
        match r {
            Ok(lines) => gunzip_of(bytes@) is Some && text_lines_of(gunzip_of(bytes@)->0) == Some(
                string_views(lines@),
            ),
            Err(e) => e == FetchError::Decode && (gunzip_of(bytes@) is None || text_lines_of(
                gunzip_of(bytes@)->0,
            ) is None),
        },
{
    let content = match gunzip(bytes) {
        Some(c) => c,
        None => return Err(FetchError::Decode),
    };
    let raw = byte_lines(content.as_slice());
    let ghost ls = lines_of(content@);
    let mut out: Vec<String> = Vec::new();
    let mut i: usize = 0;
    while i < raw.len()
        invariant
            i <= raw.len(),
            byte_views(raw@) == ls,
            ls == lines_of(content@),
            gunzip_of(bytes@) == Some(content@),
            out.len() == i,
            forall|j: int| 0 <= j < i ==> valid_utf8(#[trigger] ls[j]),
            forall|j: int| 0 <= j < i ==> (#[trigger] out@[j])@ == decode_utf8(ls[j]),
        decreases raw.len() - i,
    {
        let line = crate::log::copy_bytes(&raw[i]);
        assert(ls[i as int] == raw@[i as int]@);
        match utf8_string(line) {
            Some(t) => out.push(t),
            None => return Err(FetchError::Decode),
        }
        i = i + 1;
    }
    proof {
        assert(string_views(out@) =~= ls.map_values(|l: Seq<u8>| decode_utf8(l)));
    }
    Ok(out)
}

/// A copy of some bytes.
fn copy_bytes(b: &Vec<u8>) -> (r: Vec<u8>)
    ensures
        r@ == b@,
{
    let mut r: Vec<u8> = Vec::new();
    let mut i: usize = 0;
    while i < b.len()
        invariant
            i <= b.len(),
            r@ == b@.take(i as int),
        decreases b.len() - i,
    {
        r.push(b[i]);
        i = i + 1;
        assert(r@ =~= b@.take(i as int));
    }
    assert(b@.take(i as int) =~= b@);
    r
}

/// The concatenation of some groups of lines, in order.
pub open spec fn concat_lines(parts: Seq<Seq<String>>) -> Seq<String>
    decreases parts.len(),
{
    if parts.len() == 0 {
        seq![]
    } else {
        concat_lines(parts.drop_last()) + parts.last()
    }
}

/// Merges the lines of several objects into one sequence, object by object.
pub fn merge_lines(parts: &Vec<Vec<String>>) -> (r: Vec<String>)
    ensures
        r@ == concat_lines(parts@.map_values(|p: Vec<String>| p@)),
{
    let ghost pv = parts@.map_values(|p: Vec<String>| p@);
    let mut out: Vec<String> = Vec::new();
    let mut i: usize = 0;
    assert(out@ =~= concat_lines(pv.take(0)));
    while i < parts.len()
        invariant
            i <= parts.len(),
            pv == parts@.map_values(|p: Vec<String>| p@),
            out@ == concat_lines(pv.take(i as int)),
        decreases parts.len() - i,
    {
        let ghost o0 = out@;
        let g = &parts[i];
        let mut j: usize = 0;
        while j < g.len()
            invariant
                j <= g.len(),
                out@ == o0 + g@.take(j as int),
            decreases g.len() - j,
        {
            out.push(g[j].clone());
            j = j + 1;
            assert(out@ =~= o0 + g@.take(j as int));
        }
        proof {
            assert(g@.take(j as int) =~= g@);
            assert(pv.take(i + 1).drop_last() =~= pv.take(i as int));
            assert(pv[i as int] == g@);
        }
        i = i + 1;
    }
    assert(pv.take(i as int) =~= pv);
    out
}

/// What a filter word asks of a line: with the `!!` mark, that the line lacks
/// the rest of the word; without it, that the line holds the word.
pub open spec fn predicate_of(word: Seq<char>) -> (bool, Seq<char>) {
    if matches_at(word, seq!['!', '!'], 0) {
        (true, word.subrange(2, word.len() as int))
    } else {
        (false, word)
    }
}

/// Whether a line meets every predicate `(exclude, needle)`.
pub open spec fn line_ok(line: Seq<char>, preds: Seq<(bool, Seq<char>)>) -> bool {
    forall|i: int|
        0 <= i < preds.len() ==> if (#[trigger] preds[i]).0 {
            !has_substring(line, preds[i].1)
        } else {
            has_substring(line, preds[i].1)
        }
}

/// The lines that meet every predicate, in order.
pub open spec fn selected(lines: Seq<Seq<char>>, preds: Seq<(bool, Seq<char>)>) -> Seq<Seq<char>>
    decreases lines.len(),
{
    if lines.len() == 0 {
        seq![]
    } else {
        let prev = selected(lines.drop_last(), preds);
        if line_ok(lines.last(), preds) {
            prev.push(lines.last())
        } else {
            prev
        }
    }
}

/// An ordered list of include and exclude substring predicates over log lines.
pub struct LogFilter {
    preds: Vec<(bool, Vec<char>)>,
}

impl View for LogFilter {
    type V = Seq<(bool, Seq<char>)>;

    closed spec fn view(&self) -> Seq<(bool, Seq<char>)> {
        self.preds@.map_values(|p: (bool, Vec<char>)| (p.0, p.1@))
    }
}

impl LogFilter {
    /// The filter of some words; a word that starts with `!!` excludes.
    pub fn new(words: &Vec<String>) -> (r: Self)
        ensures
            r@ == string_views(words@).map_values(|w: Seq<char>| predicate_of(w)),
    {
        let mark: Vec<char> = vec!['!', '!'];
        assert(mark@ =~= seq!['!', '!']);
        let mut preds: Vec<(bool, Vec<char>)> = Vec::new();
        let mut i: usize = 0;
        while i < words.len()
            invariant
                i <= words.len(),
                mark@ == seq!['!', '!'],
                preds@.map_values(|p: (bool, Vec<char>)| (p.0, p.1@)) =~= string_views(
                    words@,
                ).take(i as int).map_values(|w: Seq<char>| predicate_of(w)),
            decreases words.len() - i,
        {
            let w = chars_of(words[i].as_str());
            let ghost p0 = preds@;
            let ghost wv = w@;
            if crate::text::matches_at_exec(&w, &mark, 0) {
                let rest = crate::text::slice_chars(&w, 2, w.len());
                assert(predicate_of(wv) == (true, rest@));
                preds.push((true, rest));
            } else {
                assert(predicate_of(wv) == (false, wv));
                preds.push((false, w));
            }
            proof {
                assert(preds@.map_values(|p: (bool, Vec<char>)| (p.0, p.1@)) =~= p0.map_values(
                    |p: (bool, Vec<char>)| (p.0, p.1@),
                ).push(predicate_of(wv)));
                assert(string_views(words@)[i as int] == words@[i as int]@);
                assert(string_views(words@).take(i + 1) =~= string_views(words@).take(i as int).push(
                    words@[i as int]@,
                ));
            }
            i = i + 1;
        }
        proof {
            assert(string_views(words@).take(i as int) =~= string_views(words@));
        }
        LogFilter { preds }
    }

    /// Whether `line` meets every predicate.
    pub fn matches(&self, line: &str) -> (r: bool)
        ensures
            r == line_ok(line@, self@),
    {
        let l = chars_of(line);
        let mut i: usize = 0;
        while i < self.preds.len()
            invariant
                i <= self.preds.len(),
                l@ == line@,
                forall|j: int|
                    0 <= j < i ==> if (#[trigger] self@[j]).0 {
                        !has_substring(line@, self@[j].1)
                    } else {
                        has_substring(line@, self@[j].1)
                    },
            decreases self.preds.len() - i,
        {
            let found = contains(&l, &self.preds[i].1);
            if self.preds[i].0 == found {
                assert(self@[i as int] == (self.preds@[i as int].0, self.preds@[i as int].1@));
                return false;
            }
            i = i + 1;
        }
        true
    }

    /// The lines that meet every predicate, in order, for writing out.
    pub fn select(&self, lines: &Vec<String>) -> (r: Vec<String>)
        ensures
            string_views(r@) == selected(string_views(lines@), self@),
    {
        let mut out: Vec<String> = Vec::new();
        let mut i: usize = 0;
        assert(string_views(out@) =~= selected(string_views(lines@).take(0), self@));
        while i < lines.len()
            invariant
                i <= lines.len(),
                string_views(out@) == selected(string_views(lines@).take(i as int), self@),
            decreases lines.len() - i,
        {
            proof {
                assert(string_views(lines@).take(i + 1).drop_last() =~= string_views(lines@).take(
                    i as int,
                ));
                assert(string_views(lines@).take(i + 1).last() == lines@[i as int]@);
            }
            if self.matches(lines[i].as_str()) {
                let ghost o0 = out@;
                out.push(lines[i].clone());
                assert(string_views(out@) =~= string_views(o0).push(lines@[i as int]@));
            }
            i = i + 1;
        }
        assert(string_views(lines@).take(i as int) =~= string_views(lines@));
        out
    }

    /// How many lines meet every predicate, for printing as they stream.
    pub fn count(&self, lines: &Vec<String>) -> (r: usize)
        ensures
            r == selected(string_views(lines@), self@).len(),
    {
        let mut n: usize = 0;
        let mut i: usize = 0;
        while i < lines.len()
            invariant
                i <= lines.len(),
                n <= i,
                n == selected(string_views(lines@).take(i as int), self@).len(),
            decreases lines.len() - i,
        {
            proof {
                assert(string_views(lines@).take(i + 1).drop_last() =~= string_views(lines@).take(
                    i as int,
                ));
                assert(string_views(lines@).take(i + 1).last() == lines@[i as int]@);
            }
            if self.matches(lines[i].as_str()) {
                n = n + 1;
            }
            i = i + 1;
        }
        assert(string_views(lines@).take(i as int) =~= string_views(lines@));
        n
    }
}

/// The file that a filtered export goes to: `<domain>.<first word>-<start>-<end>.log`.
pub open spec fn export_file_name_of(domain: Seq<char>, word: Seq<char>, start: Seq<char>, end: Seq<char>) -> Seq<char> {
    domain + "."@ + word + "-"@ + start + "-"@ + end + ".log"@
}

/// The file that a filtered export goes to; the first filter word names it.
pub fn export_file_name(domain: &str, words: &Vec<String>, start_date: &str, end_date: &str) -> (r: Option<String>)
    ensures
        words.len() == 0 ==> r is None,
        words.len() > 0 ==> (r matches Some(n) && n@ == export_file_name_of(
            domain@,
            words@[0]@,
            start_date@,
            end_date@,
        )),
{
    if words.len() == 0 {
        return None;
    }
    let mut out: Vec<char> = Vec::new();
    push_text(&mut out, domain);
    push_text(&mut out, ".");
    push_text(&mut out, words[0].as_str());
    push_text(&mut out, "-");
    push_text(&mut out, start_date);
    push_text(&mut out, "-");
    push_text(&mut out, end_date);
    push_text(&mut out, ".log");
    assert(out@ =~= export_file_name_of(domain@, words@[0]@, start_date@, end_date@));
    Some(string_of(out.as_slice()))
}

/// The lines joined by newlines, as an export file holds them.
pub open spec fn joined_lines(lines: Seq<Seq<char>>) -> Seq<char>
    decreases lines.len(),
{
    if lines.len() == 0 {
        seq![]
    } else if lines.len() == 1 {
        lines[0]
    } else {
        joined_lines(lines.drop_last()) + "\n"@ + lines.last()
    }
}

/// The lines joined by newlines.
pub fn join_lines(lines: &Vec<String>) -> (r: String)
    ensures
        r@ == joined_lines(string_views(lines@)),
{
    let mut out: Vec<char> = Vec::new();
    let mut i: usize = 0;
    assert(out@ =~= joined_lines(string_views(lines@).take(0)));
    while i < lines.len()
        invariant
            i <= lines.len(),
            out@ == joined_lines(string_views(lines@).take(i as int)),
        decreases lines.len() - i,
    {
        proof {
            assert(string_views(lines@).take(i + 1).drop_last() =~= string_views(lines@).take(i as int));
            assert(string_views(lines@).take(i + 1).last() == lines@[i as int]@);
        }
        if i > 0 {
            push_text(&mut out, "\n");
        } else {
            assert(string_views(lines@).take(1)[0] == lines@[0]@);
            assert(out@ =~= Seq::<char>::empty());
        }
        push_text(&mut out, lines[i].as_str());
        assert(out@ =~= joined_lines(string_views(lines@).take(i + 1)));
        i = i + 1;
    }
    assert(string_views(lines@).take(i as int) =~= string_views(lines@));
    string_of(out.as_slice())
}

/// Whether `c` is white space as `char::is_whitespace` says (Unicode White_Space).
pub open spec fn is_ws(c: char) -> bool {
    ('\u{9}' <= c && c <= '\u{d}') || c == ' ' || c == '\u{85}' || c == '\u{a0}' || c == '\u{1680}'
        || ('\u{2000}' <= c && c <= '\u{200a}') || c == '\u{2028}' || c == '\u{2029}' || c
        == '\u{202f}' || c == '\u{205f}' || c == '\u{3000}'
}

pub open spec fn trim_start(s: Seq<char>) -> Seq<char>
    decreases s.len(),
{
    if s.len() > 0 && is_ws(s[0]) {
        trim_start(s.drop_first())
    } else {
        s
    }
}

pub open spec fn trim_end(s: Seq<char>) -> Seq<char>
    decreases s.len(),
{
    if s.len() > 0 && is_ws(s.last()) {
        trim_end(s.drop_last())
    } else {
        s
    }
}

/// `s` without leading and trailing white space, as `str::trim` gives it.
pub open spec fn trimmed(s: Seq<char>) -> Seq<char> {
    trim_end(trim_start(s))
}

fn is_ws_exec(c: char) -> (r: bool)
    ensures
        r == is_ws(c),
{
    ('\u{9}' <= c && c <= '\u{d}') || c == ' ' || c == '\u{85}' || c == '\u{a0}' || c == '\u{1680}'
        || ('\u{2000}' <= c && c <= '\u{200a}') || c == '\u{2028}' || c == '\u{2029}' || c
        == '\u{202f}' || c == '\u{205f}' || c == '\u{3000}'
}

/// `s` without leading and trailing white space.
pub fn trim(s: &Vec<char>) -> (r: Vec<char>)
    ensures
        r@ == trimmed(s@),
{
    let mut a: usize = 0;
    assert(s@.skip(0) =~= s@);
    while a < s.len() && is_ws_exec(s[a])
        invariant
            a <= s.len(),
            trim_start(s@) == trim_start(s@.skip(a as int)),
        decreases s.len() - a,
    {
        assert(s@.skip(a as int).drop_first() =~= s@.skip(a + 1));
        a = a + 1;
    }
    let mut b: usize = s.len();
    let ghost t = s@.skip(a as int);
    assert(t.take(t.len() as int) =~= t);
    while b > a && is_ws_exec(s[b - 1])
        invariant
            a <= b <= s.len(),
            t == s@.skip(a as int),
            trim_start(s@) == t,
            trim_end(t) == trim_end(t.take(b - a)),
        decreases b,
    {
        assert(t.take(b - a).drop_last() =~= t.take(b - 1 - a));
        b = b - 1;
    }
    assert(t.take(b - a) =~= s@.subrange(a as int, b as int));
    crate::text::slice_chars(s, a, b)
}

/// The requested URL of an access-log line: the second word of its first
/// quoted part, or nothing where there is none.
pub open spec fn record_url(record: Seq<char>) -> Seq<char> {
    let q = split(record, seq!['"']);
    if q.len() < 2 {
        seq![]
    } else {
        let w = split(q[1], seq![' ']);
        if w.len() < 2 {
            seq![]
        } else {
            w[1]
        }
    }
}

/// The requested URL of an access-log line, as [`record_url`] says.
pub fn url_of_record(record: &Vec<char>) -> (r: Vec<char>)
    ensures
        r@ == record_url(record@),
{
    let quote: Vec<char> = vec!['"'];
    let space: Vec<char> = vec![' '];
    assert(quote@ =~= seq!['"']);
    assert(space@ =~= seq![' ']);
    let q = split_by(record, &quote);
    if q.len() < 2 {
        return Vec::new();
    }
    assert(views(q@)[1] == q@[1]@);
    let w = split_by(&q[1], &space);
    if w.len() < 2 {
        return Vec::new();
    }
    assert(views(w@)[1] == w@[1]@);
    crate::text::slice_chars(&w[1], 0, w[1].len())
}

/// Whether a log line counts toward `ip`'s URLs: after trimming it starts with
/// the IP and names a URL.
pub open spec fn counts_for(record: Seq<char>, ip: Seq<char>) -> bool {
    matches_at(trimmed(record), ip, 0) && record_url(trimmed(record)).len() > 0
}

/// The URLs that `ip` requested, one per counted line, in order.
pub open spec fn ip_urls(records: Seq<Seq<char>>, ip: Seq<char>) -> Seq<Seq<char>>
    decreases records.len(),
{
    if records.len() == 0 {
        seq![]
    } else {
        let prev = ip_urls(records.drop_last(), ip);
        if counts_for(records.last(), ip) {
            prev.push(record_url(trimmed(records.last())))
        } else {
            prev
        }
    }
}

/// The index of the entry whose key is `s`, if any.
fn find_key(e: &Vec<(String, usize)>, s: &String) -> (r: Option<usize>)
    ensures
        r matches Some(k) ==> k < e.len() && e@[k as int].0@ == s@,
        r is None ==> forall|j: int| 0 <= j < e.len() ==> (#[trigger] e@[j]).0@ != s@,
{
    let mut k: usize = 0;
    while k < e.len()
        invariant
            k <= e.len(),
            forall|j: int| 0 <= j < k ==> (#[trigger] e@[j]).0@ != s@,
        decreases e.len() - k,
    {
        if e[k].0 == *s {
            return Some(k);
        }
        k = k + 1;
    }
    None
}

/// How often `ip` requested each URL over some log lines: each URL once, with
/// the number of lines that request it.
pub fn url_counts(records: &Vec<String>, ip: &str) -> (r: Vec<(String, usize)>)
    ensures
        forall|a: int, b: int| 0 <= a < b < r.len() ==> (#[trigger] r@[a]).0@ != (#[trigger] r@[b]).0@,
        forall|k: int|
            0 <= k < r.len() ==> (#[trigger] r@[k]).1 == ip_urls(string_views(records@), ip@).to_multiset().count(
                r@[k].0@,
            ),
        forall|k: int| 0 <= k < r.len() ==> (#[trigger] r@[k]).1 > 0,
        forall|u: Seq<char>|
            #[trigger] ip_urls(string_views(records@), ip@).to_multiset().count(u) > 0 ==> exists|k: int|
                0 <= k < r.len() && (#[trigger] r@[k]).0@ == u,
{
    broadcast use vstd::seq_lib::group_to_multiset_ensures;

    let ipc = chars_of(ip);
    let mut e: Vec<(String, usize)> = Vec::new();
    let mut i: usize = 0;
    let ghost rv = string_views(records@);
    assert(ip_urls(rv.take(0), ip@) =~= Seq::<Seq<char>>::empty());
    while i < records.len()
        invariant
            i <= records.len(),
            rv == string_views(records@),
            ipc@ == ip@,
            forall|a: int, b: int| 0 <= a < b < e.len() ==> (#[trigger] e@[a]).0@ != (#[trigger] e@[b]).0@,
            forall|k: int| 0 <= k < e.len() ==> (#[trigger] e@[k]).1 <= i,
            forall|k: int| 0 <= k < e.len() ==> (#[trigger] e@[k]).1 > 0,
            forall|k: int|
                0 <= k < e.len() ==> (#[trigger] e@[k]).1 == ip_urls(rv.take(i as int), ip@).to_multiset().count(
                    e@[k].0@,
                ),
            forall|u: Seq<char>|
                #[trigger] ip_urls(rv.take(i as int), ip@).to_multiset().count(u) > 0 ==> exists|k: int|
                    0 <= k < e.len() && (#[trigger] e@[k]).0@ == u,
        decreases records.len() - i,
    {
        let ghost h0 = ip_urls(rv.take(i as int), ip@);
        proof {
            assert(rv.take(i + 1).drop_last() =~= rv.take(i as int));
            assert(rv.take(i + 1).last() == records@[i as int]@);
        }
        let t = trim(&chars_of(records[i].as_str()));
        let counted = crate::text::matches_at_exec(&t, &ipc, 0);
        if !counted {
            assert(ip_urls(rv.take(i + 1), ip@) == h0);
            i = i + 1;
            continue;
        }
        let u = url_of_record(&t);
        if u.len() == 0 {
            assert(ip_urls(rv.take(i + 1), ip@) == h0);
            i = i + 1;
            continue;
        }
        let us = string_of(u.as_slice());
        proof {
            assert(ip_urls(rv.take(i + 1), ip@) == h0.push(us@));
            vstd::seq_lib::to_multiset_build(h0, us@);
        }
        let ghost e0 = e@;
        if let Some(k) = find_key(&e, &us) {
            let c = e[k].1;
            let key = e[k].0.clone();
            e.set(k, (key, c + 1));
            proof {
                assert forall|a: int, b: int| 0 <= a < b < e.len() implies (#[trigger] e@[a]).0@ != (
                #[trigger] e@[b]).0@ by {
                    assert(e@[a].0@ == e0[a].0@);
                    assert(e@[b].0@ == e0[b].0@);
                }
                assert forall|j: int| 0 <= j < e.len() implies (#[trigger] e@[j]).1 == ip_urls(
                    rv.take(i + 1),
                    ip@,
                ).to_multiset().count(e@[j].0@) by {
                    if j != k {
                        assert(e@[j] == e0[j]);
                    }
                }
                assert forall|v: Seq<char>| #[trigger] ip_urls(rv.take(i + 1), ip@).to_multiset().count(v)
                    > 0 implies exists|j: int| 0 <= j < e.len() && (#[trigger] e@[j]).0@ == v by {
                    if v != us@ {
                        assert(h0.to_multiset().count(v) > 0);
                        let j = choose|j: int| 0 <= j < e0.len() && (#[trigger] e0[j]).0@ == v;
                        assert(e@[j].0@ == e0[j].0@);
                    } else {
                        assert(e@[k as int].0@ == v);
                    }
                }
            }
        } else {
            proof {
                if h0.to_multiset().count(us@) > 0 {
                    let j = choose|j: int| 0 <= j < e0.len() && (#[trigger] e0[j]).0@ == us@;
                }
            }
            e.push((us, 1));
            proof {
                assert forall|a: int, b: int| 0 <= a < b < e.len() implies (#[trigger] e@[a]).0@ != (
                #[trigger] e@[b]).0@ by {
                    assert(e@[a] == e0[a]);
                    if b < e0.len() {
                        assert(e@[b] == e0[b]);
                    }
                }
                assert forall|j: int| 0 <= j < e.len() implies (#[trigger] e@[j]).1 == ip_urls(
                    rv.take(i + 1),
                    ip@,
                ).to_multiset().count(e@[j].0@) by {
                    if j < e0.len() {
                        assert(e@[j] == e0[j]);
                    }
                }
                assert forall|v: Seq<char>| #[trigger] ip_urls(rv.take(i + 1), ip@).to_multiset().count(v)
                    > 0 implies exists|j: int| 0 <= j < e.len() && (#[trigger] e@[j]).0@ == v by {
                    if v != us@ {
                        assert(h0.to_multiset().count(v) > 0);
                        let j = choose|j: int| 0 <= j < e0.len() && (#[trigger] e0[j]).0@ == v;
                        assert(e@[j] == e0[j]);
                    } else {
                        assert(e@[e0.len() as int].0@ == v);
                    }
                }
            }
        }
        i = i + 1;
    }
    assert(rv.take(i as int) =~= rv);
    e
}

/// How many of `n` listed objects one download takes: the limit (1000 where
/// none is given), none for a limit below one.
pub open spec fn download_count_of(n: int, limit: Option<i32>) -> int {
    let l = match limit {
        Some(v) => v as int,
        None => 1000,
    };
    if l <= 0 {
        0
    } else if l < n {
        l
    } else {
        n
    }
}

/// How many of `n` listed objects one download takes.
pub fn download_count(n: usize, limit: Option<i32>) -> (r: usize)
    ensures
        r == download_count_of(n as int, limit),
{
    let l: i32 = match limit {
        Some(v) => v,
        None => 1000,
    };
    if l <= 0 {
        0
    } else if (l as usize) < n {
        l as usize
    } else {
        n
    }
}

/// The path that unpacking a `.gz` file writes: the path without that suffix.
pub open spec fn unzipped_path_of(path: Seq<char>) -> Option<Seq<char>> {
    if path.len() >= 3 && path.subrange(path.len() - 3, path.len() as int) == ".gz"@ {
        Some(path.subrange(0, path.len() - 3))
    } else {
        None
    }
}

/// The path that unpacking a `.gz` file writes; `None` for another file.
pub fn unzipped_path(path: &str) -> (r: Option<String>)
    ensures
        match r {
            Some(p) => unzipped_path_of(path@) == Some(p@),
            None => unzipped_path_of(path@) is None,
        },
{
    let p = chars_of(path);
    let suffix = chars_of(".gz");
    if p.len() < 3 || suffix.len() != 3 {
        proof {
            if p.len() >= 3 {
                assert(p@.subrange(p.len() - 3, p.len() as int).len() != suffix@.len());
            }
        }
        return None;
    }
    if crate::text::matches_at_exec(&p, &suffix, p.len() - 3) {
        let stem = crate::text::slice_chars(&p, 0, p.len() - 3);
        Some(string_of(stem.as_slice()))
    } else {
        None
    }
}

/// Whether counted entries run from the highest count down.
pub open spec fn by_count_desc(v: Seq<(String, usize)>) -> bool {
    forall|a: int, b: int| 0 <= a < b < v.len() ==> (#[trigger] v[a]).1 >= (#[trigger] v[b]).1
}

/// The counted entries reordered from the highest count down.
pub fn sort_by_count(v: Vec<(String, usize)>) -> (r: Vec<(String, usize)>)
    ensures
        r@.to_multiset() == v@.to_multiset(),
        by_count_desc(r@),
{
    broadcast use vstd::seq_lib::group_to_multiset_ensures;

    let ghost orig = v@;
    let mut rest = v;
    let mut out: Vec<(String, usize)> = Vec::new();
    assert(out@.to_multiset() =~= Multiset::<(String, usize)>::empty());
    while rest.len() > 0
        invariant
            by_count_desc(out@),
            out@.to_multiset().add(rest@.to_multiset()) == orig.to_multiset(),
        decreases rest.len(),
    {
        let ghost r0 = rest@;
        let x = rest.pop().unwrap();
        proof {
            assert(r0 =~= rest@.push(x));
            vstd::seq_lib::to_multiset_build(rest@, x);
        }
        let mut p: usize = 0;
        while p < out.len() && out[p].1 >= x.1
            invariant
                p <= out.len(),
                forall|j: int| 0 <= j < p ==> (#[trigger] out@[j]).1 >= x.1,
            decreases out.len() - p,
        {
            p = p + 1;
        }
        let ghost o0 = out@;
        out.insert(p, x);
        proof {
            vstd::seq_lib::to_multiset_insert(o0, p as int, x);
            assert forall|a: int, b: int| 0 <= a < b < out.len() implies (#[trigger] out@[a]).1 >= (
            #[trigger] out@[b]).1 by {
                if b < p {
                    assert(out@[a] == o0[a] && out@[b] == o0[b]);
                } else if b == p {
                    assert(out@[a] == o0[a]);
                } else if a < p {
                    assert(out@[a] == o0[a] && out@[b] == o0[b - 1]);
                    assert(o0[p as int].1 < x.1);
                    if b - 1 > p {
                        assert(o0[p as int].1 >= o0[b - 1].1);
                    }
                } else if a == p {
                    assert(out@[b] == o0[b - 1]);
                    assert(o0[p as int].1 < x.1);
                    if b - 1 > p {
                        assert(o0[p as int].1 >= o0[b - 1].1);
                    }
                } else {
                    assert(out@[a] == o0[a - 1] && out@[b] == o0[b - 1]);
                }
            }
            assert(out@.to_multiset().add(rest@.to_multiset()) =~= o0.to_multiset().add(r0.to_multiset()));
        }
    }
    assert(rest@.to_multiset() =~= Multiset::<(String, usize)>::empty());
    assert(out@.to_multiset().add(rest@.to_multiset()) =~= out@.to_multiset());
    out
}

} // verus!
