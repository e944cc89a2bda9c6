//! IP diagnosis policies: a small expression language of threshold clauses
//! over time windows, joined by AND or OR, evaluated against per-clause
//! rankings of source IPs.

use vstd::prelude::*;

use crate::analysis::{FilterType, TopIpData};
use crate::dates::{day_number, day_number_of, day_text, day_text_of};
use crate::text::{
    chars_eq, chars_of, contains, has_substring, i64_of, parse_i64, split, split_by, views,
};

verus! {

/// One threshold test: the metric, the number of days the window spans
/// (ending on the evaluation day), and the threshold (in MB for traffic).
#[derive(Debug, Clone, Copy, PartialEq, Eq, Structural)]
pub struct PolicyClause {
    pub kind: FilterType,
    pub window_days: i64,
    pub threshold: i64,
}

/// How the IP sets of two clauses combine.
#[derive(Debug, Clone, Copy, PartialEq, Eq, Structural)]
pub enum JoinMode {
    And,
    Or,
}

/// A parsed policy: one or two clauses and their join.
#[derive(Debug)]
pub struct Policy {
    pub clauses: Vec<PolicyClause>,
    pub join: JoinMode,
}

/// Configuration errors of a policy, all found before any lookup is made.
#[derive(Debug, Clone, Copy, PartialEq, Eq, Structural)]
pub enum PolicyError {
    /// The policy text is empty.
    Missing,
    /// The policy holds more than two clauses.
    TooManyClauses,
    /// A clause is not `T|C:<days>:<threshold>` with at least one day.
    MalformedClause,
    /// The evaluation day is not a `YYYY-MM-DD` date.
    BadDate,
    /// A clause's window starts before the first representable day.
    WindowOutOfRange,
}

pub open spec fn or_mark() -> Seq<char> {
    seq!['|', '|']
}

pub open spec fn and_mark() -> Seq<char> {
    seq!['&', '&']
}

pub open spec fn field_mark() -> Seq<char> {
    seq![':']
}

/// The clause texts of the OR-segments `segs`, each cut at its ANDs, in order.
pub open spec fn clause_texts(segs: Seq<Seq<char>>) -> Seq<Seq<char>>
    decreases segs.len(),
{
    if segs.len() == 0 {
        seq![]
    } else {
        clause_texts(segs.drop_last()) + split(segs.last(), and_mark())
    }
}

/// The clause texts of a policy.
pub open spec fn policy_clause_texts(p: Seq<char>) -> Seq<Seq<char>> {
    clause_texts(split(p, or_mark()))
}

/// The metric that a clause's first field names.
pub open spec fn kind_of(f: Seq<char>) -> Option<FilterType> {
    if f == seq!['T'] {
        Some(FilterType::Traffic)
    } else if f == seq!['C'] {
        Some(FilterType::ReqCount)
    } else {
        None
    }
}

/// The clause that `t` spells, `kind:days:threshold`, if it is well formed.
pub open spec fn clause_of(t: Seq<char>) -> Option<PolicyClause> {
    let f = split(t, field_mark());
    if f.len() != 3 {
        None
    } else if kind_of(f[0]) is Some && i64_of(f[1]) is Some && i64_of(f[2]) is Some
        && i64_of(f[1])->0 >= 1 {
        Some(
            PolicyClause {
                kind: kind_of(f[0])->0,
                window_days: i64_of(f[1])->0,
                threshold: i64_of(f[2])->0,
            },
        )
    } else {
        None
    }
}

/// The configuration error of a policy text, if it has one.
pub open spec fn policy_error_of(p: Seq<char>) -> Option<PolicyError> {
    let texts = policy_clause_texts(p);
    if p.len() == 0 {
        Some(PolicyError::Missing)
    } else if texts.len() > 2 {
        Some(PolicyError::TooManyClauses)
    } else if exists|i: int| 0 <= i < texts.len() && clause_of(#[trigger] texts[i]) is None {
        Some(PolicyError::MalformedClause)
    } else {
        None
    }
}

/// The clauses of a well-formed policy text.
pub open spec fn policy_clauses(p: Seq<char>) -> Seq<PolicyClause> {
    policy_clause_texts(p).map_values(|t: Seq<char>| clause_of(t)->0)
}

/// The join of a policy text: OR where it holds the OR delimiter.
pub open spec fn join_of(p: Seq<char>) -> JoinMode {
    if has_substring(p, or_mark()) {
        JoinMode::Or
    } else {
        JoinMode::And
    }
}

/// A policy's shape: one or two clauses, each over at least one day.
pub open spec fn policy_wf(p: &Policy) -> bool {
    &&& 1 <= p.clauses.len() <= 2
    &&& forall|i: int| 0 <= i < p.clauses.len() ==> p.clauses@[i].window_days >= 1
}

proof fn lemma_clause_texts_len(segs: Seq<Seq<char>>)
    requires
        segs.len() >= 1,
    ensures
        clause_texts(segs).len() >= 1,
    decreases segs.len(),
{
    crate::text::lemma_split_nonempty(segs.last(), and_mark());
    if segs.len() > 1 {
        lemma_clause_texts_len(segs.drop_last());
    }
}

/// Reads one clause, `T|C:<days>:<threshold>`.
fn parse_clause(t: &Vec<char>) -> (r: Option<PolicyClause>)
    ensures
        r == clause_of(t@),
{
    let colon: Vec<char> = vec![':'];
    assert(colon@ =~= field_mark());
    let f = split_by(t, &colon);
    if f.len() != 3 {
        return None;
    }
    proof {
        assert(views(f@)[0] == f@[0]@);
        assert(views(f@)[1] == f@[1]@);
        assert(views(f@)[2] == f@[2]@);
    }
    let traffic: Vec<char> = vec!['T'];
    let count: Vec<char> = vec!['C'];
    assert(traffic@ =~= seq!['T']);
    assert(count@ =~= seq!['C']);
    let kind = if chars_eq(&f[0], &traffic) {
        FilterType::Traffic
    } else if chars_eq(&f[0], &count) {
        FilterType::ReqCount
    } else {
        return None;
    };
    let days = match parse_i64(&f[1]) {
        Some(d) => d,
        None => return None,
    };
    let threshold = match parse_i64(&f[2]) {
        Some(v) => v,
        None => return None,
    };
    if days < 1 {
        return None;
    }
    Some(PolicyClause { kind, window_days: days, threshold })
}

/// Parses a policy: clauses `T|C:<days>:<threshold>` joined by `&&` or `||`,
/// at most two in all; the join is OR where `||` occurs.
pub fn parse_policy(text: &str) -> (r: Result<Policy, PolicyError>)
    ensures
        match r {
            Ok(p) => policy_error_of(text@) is None && p.clauses@ == policy_clauses(text@)
                && p.join == join_of(text@) && policy_wf(&p),
            Err(e) => policy_error_of(text@) == Some(e),
        },
{
    let s = chars_of(text);
    if s.len() == 0 {
        return Err(PolicyError::Missing);
    }
    let or: Vec<char> = vec!['|', '|'];
    let and: Vec<char> = vec!['&', '&'];
    assert(or@ =~= or_mark());
    assert(and@ =~= and_mark());
    let segs = split_by(&s, &or);
    let mut texts: Vec<Vec<char>> = Vec::new();
    let mut i: usize = 0;
    while i < segs.len()
        invariant
            i <= segs.len(),
            and@ == and_mark(),
            views(texts@) == clause_texts(views(segs@).take(i as int)),
        decreases segs.len() - i,
    {
        let pieces = split_by(&segs[i], &and);
        let ghost before = texts@;
        let mut k: usize = 0;
        while k < pieces.len()
            invariant
                k <= pieces.len(),
                views(texts@) == views(before) + views(pieces@).take(k as int),
            decreases pieces.len() - k,
        {
            let piece = crate::text::slice_chars(&pieces[k], 0, pieces[k].len());
            assert(piece@ =~= pieces@[k as int]@);
            let ghost t0 = texts@;
            texts.push(piece);
            proof {
                assert(views(texts@) =~= views(t0) + seq![piece@]);
                assert(views(pieces@).take(k + 1) =~= views(pieces@).take(k as int) + seq![pieces@[k as int]@]);
                assert(views(texts@) =~= views(before) + views(pieces@).take(k + 1));
            }
            k = k + 1;
        }
        proof {
            assert(views(pieces@).take(k as int) =~= views(pieces@));
            assert(views(segs@).take(i + 1).drop_last() =~= views(segs@).take(i as int));
            assert(views(segs@).take(i + 1).last() == segs@[i as int]@);
        }
        i = i + 1;
    }
    proof {
        assert(views(segs@).take(i as int) =~= views(segs@));
        assert(views(texts@) == policy_clause_texts(s@));
    }
    if texts.len() > 2 {
        return Err(PolicyError::TooManyClauses);
    }
    let mut clauses: Vec<PolicyClause> = Vec::new();
    let mut j: usize = 0;
    while j < texts.len()
        invariant
            j <= texts.len() <= 2,
            views(texts@) == policy_clause_texts(s@),
            s@ == text@,
            s.len() > 0,
            clauses.len() == j,
            forall|q: int| 0 <= q < j ==> clause_of(texts@[q]@) == Some(#[trigger] clauses@[q]),
        decreases texts.len() - j,
    {
        match parse_clause(&texts[j]) {
            Some(c) => clauses.push(c),
            None => {
                proof {
                    assert(views(texts@)[j as int] == texts@[j as int]@);
                    assert(clause_of(policy_clause_texts(text@)[j as int]) is None);
                    assert(text@.len() > 0);
                    assert(policy_clause_texts(text@).len() <= 2);
                    assert(policy_error_of(text@) == Some(PolicyError::MalformedClause));
                }
                return Err(PolicyError::MalformedClause);
            },
        }
        j = j + 1;
    }
    proof {
        crate::text::lemma_split_nonempty(s@, or_mark());
        lemma_clause_texts_len(split(s@, or_mark()));
        assert forall|q: int| 0 <= q < views(texts@).len() implies clause_of(
            #[trigger] views(texts@)[q],
        ) is Some by {
            assert(views(texts@)[q] == texts@[q]@);
            assert(clause_of(texts@[q]@) == Some(clauses@[q]));
        }
        assert(clauses@ =~= policy_clauses(s@));
    }
    let join = if contains(&s, &or) {
        JoinMode::Or
    } else {
        JoinMode::And
    };
    Ok(Policy { clauses, join })
}


/// One analytics lookup that evaluating a clause needs: the metric and the
/// window, both ends inclusive.
#[derive(Debug)]
pub struct MetricQuery {
    pub kind: FilterType,
    pub start_date: String,
    pub end_date: String,
}

/// The first day of a window of `days` days that ends on day `end`.
pub open spec fn window_start(end: int, days: int) -> int {
    end - (days - 1)
}

/// Whether the window of clause `c` ending on day `end` cannot be written as a date.
pub open spec fn window_unrepresentable(end: i64, c: PolicyClause) -> bool {
    let st = window_start(end as int, c.window_days as int);
    st < i64::MIN || day_text_of(st as i64) is None
}

/// The lookups for `policy` evaluated on the day `end_date` (`YYYY-MM-DD`):
/// one per clause, in clause order, each over that clause's window.
pub fn plan_queries(policy: &Policy, end_date: &str) -> (r: Result<Vec<MetricQuery>, PolicyError>)
    requires
        policy_wf(policy),
    ensures
        match r {
            Ok(q) => {
                &&& day_number_of(end_date@) is Some
                &&& q.len() == policy.clauses.len()
                &&& forall|i: int|
                    0 <= i < q.len() ==> {
                        let c = #[trigger] policy.clauses@[i];
                        let st = window_start(day_number_of(end_date@)->0 as int, c.window_days as int);
                        &&& !window_unrepresentable(day_number_of(end_date@)->0, c)
                        &&& q@[i].kind == c.kind
                        &&& q@[i].end_date@ == end_date@
                        &&& day_text_of(st as i64) == Some(q@[i].start_date@)
                    }
            },
            Err(e) => {
                ||| day_number_of(end_date@) is None && e == PolicyError::BadDate
                ||| day_number_of(end_date@) is Some && e == PolicyError::WindowOutOfRange
                    && exists|i: int|
                    0 <= i < policy.clauses.len() && window_unrepresentable(
                        day_number_of(end_date@)->0,
                        #[trigger] policy.clauses@[i],
                    )
            },
        },
{
    let end = match day_number(end_date) {
        Some(n) => n,
        None => return Err(PolicyError::BadDate),
    };
    let mut q: Vec<MetricQuery> = Vec::new();
    let mut i: usize = 0;
    while i < policy.clauses.len()
        invariant
            policy_wf(policy),
            day_number_of(end_date@) == Some(end),
            i32::MIN <= end <= i32::MAX,
            i <= policy.clauses.len(),
            q.len() == i,
            forall|j: int|
                0 <= j < i ==> {
                    let c = #[trigger] policy.clauses@[j];
                    let st = window_start(end as int, c.window_days as int);
                    &&& !window_unrepresentable(end, c)
                    &&& q@[j].kind == c.kind
                    &&& q@[j].end_date@ == end_date@
                    &&& day_text_of(st as i64) == Some(q@[j].start_date@)
                },
        decreases policy.clauses.len() - i,
    {
        let c = policy.clauses[i];
        let st: i128 = end as i128 - (c.window_days as i128 - 1);
        if st < i64::MIN as i128 {
            assert(window_unrepresentable(end, policy.clauses@[i as int]));
            return Err(PolicyError::WindowOutOfRange);
        }
        let start_date = match day_text(st as i64) {
            Some(t) => t,
            None => {
                assert(window_unrepresentable(end, policy.clauses@[i as int]));
                return Err(PolicyError::WindowOutOfRange);
            },
        };
        q.push(MetricQuery { kind: c.kind, start_date, end_date: end_date.to_owned() });
        i = i + 1;
    }
    Ok(q)
}

/// The characters of each string in a set.
pub open spec fn string_set(v: Seq<String>) -> Set<Seq<char>> {
    Set::new(|s: Seq<char>| exists|i: int| 0 <= i < v.len() && (#[trigger] v[i])@ == s)
}

/// No two strings of `v` hold the same characters.
pub open spec fn distinct_strings(v: Seq<String>) -> bool {
    forall|i: int, j: int| 0 <= i < j < v.len() ==> (#[trigger] v[i])@ != (#[trigger] v[j])@
}

/// The IPs of a ranking.
pub open spec fn ips_of(d: TopIpData) -> Seq<String> {
    match d.ips {
        Some(v) => v@,
        None => seq![],
    }
}

/// The series of a ranking that a metric reads.
pub open spec fn metric_of(kind: FilterType, d: TopIpData) -> Seq<i64> {
    let s = match kind {
        FilterType::ReqCount => d.count,
        FilterType::Traffic => d.traffic,
    };
    match s {
        Some(v) => v@,
        None => seq![],
    }
}

/// Whether `value` reaches the clause's threshold; traffic thresholds are in MB.
pub open spec fn meets(kind: FilterType, value: i64, threshold: i64) -> bool {
    match kind {
        FilterType::ReqCount => value >= threshold,
        FilterType::Traffic => value >= threshold * 1048576,
    }
}

/// The IPs that clause `c` flags in a ranking; no data flags none.
pub open spec fn hit_set(c: PolicyClause, data: Option<TopIpData>) -> Set<Seq<char>> {
    match data {
        None => Set::empty(),
        Some(d) => Set::new(
            |ip: Seq<char>|
                exists|i: int|
                    0 <= i < ips_of(d).len() && i < metric_of(c.kind, d).len() && (
                    #[trigger] ips_of(d)[i])@ == ip && meets(
                        c.kind,
                        metric_of(c.kind, d)[i],
                        c.threshold,
                    ),
        ),
    }
}

/// The IPs that a policy flags, given the ranking each clause's lookup returned.
pub open spec fn diagnosed(
    clauses: Seq<PolicyClause>,
    join: JoinMode,
    results: Seq<Option<TopIpData>>,
) -> Set<Seq<char>> {
    if clauses.len() == 1 {
        hit_set(clauses[0], results[0])
    } else if join == JoinMode::And {
        hit_set(clauses[0], results[0]).intersect(hit_set(clauses[1], results[1]))
    } else {
        hit_set(clauses[0], results[0]).union(hit_set(clauses[1], results[1]))
    }
}

/// Whether some string of `v` holds the characters of `s`.
pub fn contains_string(v: &Vec<String>, s: &String) -> (r: bool)
    ensures
        r == exists|i: int| 0 <= i < v.len() && (#[trigger] v@[i])@ == s@,
{
    let mut i: usize = 0;
    while i < v.len()
        invariant
            i <= v.len(),
            forall|j: int| 0 <= j < i ==> (#[trigger] v@[j])@ != s@,
        decreases v.len() - i,
    {
        if v[i] == *s {
            return true;
        }
        i = i + 1;
    }
    false
}

/// The IPs among the first `n` entries of a ranking whose value meets the threshold.
pub open spec fn flagged_prefix(
    ips: Seq<String>,
    values: Seq<i64>,
    kind: FilterType,
    threshold: i64,
    n: int,
) -> Set<Seq<char>> {
    Set::new(
        |ip: Seq<char>|
            exists|j: int|
                0 <= j < n && j < ips.len() && j < values.len() && (#[trigger] ips[j])@ == ip
                    && meets(kind, values[j], threshold),
    )
}

proof fn lemma_string_set_push(v: Seq<String>, x: String)
    ensures
        string_set(v.push(x)) == string_set(v).insert(x@),
{
    assert forall|s: Seq<char>| #[trigger] string_set(v.push(x)).contains(s) == string_set(v).insert(x@).contains(s) by {
        if string_set(v).contains(s) {
            let i = choose|i: int| 0 <= i < v.len() && (#[trigger] v[i])@ == s;
            assert(v.push(x)[i] == v[i]);
        }
        if s == x@ {
            assert(v.push(x)[v.len() as int] == x);
        }
        if string_set(v.push(x)).contains(s) {
            let i = choose|i: int| 0 <= i < v.len() + 1 && (#[trigger] v.push(x)[i])@ == s;
            if i < v.len() {
                assert(v.push(x)[i] == v[i]);
            }
        }
    }
    assert(string_set(v.push(x)) =~= string_set(v).insert(x@));
}

proof fn lemma_flagged_step(ips: Seq<String>, values: Seq<i64>, kind: FilterType, threshold: i64, n: int)
    requires
        0 <= n < ips.len(),
        n < values.len(),
    ensures
        flagged_prefix(ips, values, kind, threshold, n + 1) == if meets(kind, values[n], threshold) {
            flagged_prefix(ips, values, kind, threshold, n).insert(ips[n]@)
        } else {
            flagged_prefix(ips, values, kind, threshold, n)
        },
{
    let a = flagged_prefix(ips, values, kind, threshold, n + 1);
    let b = flagged_prefix(ips, values, kind, threshold, n);
    assert forall|ip: Seq<char>| #[trigger] a.contains(ip) == (b.contains(ip) || (ip == ips[n]@
        && meets(kind, values[n], threshold))) by {
        if a.contains(ip) {
            let j = choose|j: int|
                0 <= j < n + 1 && j < ips.len() && j < values.len() && (#[trigger] ips[j])@ == ip
                    && meets(kind, values[j], threshold);
            if j < n {
                assert(b.contains(ip));
            }
        }
        if ip == ips[n]@ && meets(kind, values[n], threshold) {
            assert(a.contains(ip));
        }
    }
    if meets(kind, values[n], threshold) {
        assert(a =~= b.insert(ips[n]@));
    } else {
        assert(a =~= b);
    }
}

/// The IPs that clause `c` flags in the ranking `data`, each once.
pub fn clause_hits(c: &PolicyClause, data: &Option<TopIpData>) -> (r: Vec<String>)
    ensures
        string_set(r@) == hit_set(*c, *data),
        distinct_strings(r@),
{
    let mut r: Vec<String> = Vec::new();
    match data {
        None => {
            assert(string_set(r@) =~= Set::empty());
            r
        },
        Some(d) => {
            let empty_ips: Vec<String> = Vec::new();
            let empty_values: Vec<i64> = Vec::new();
            let ips = match &d.ips {
                Some(v) => v,
                None => &empty_ips,
            };
            let values = match c.kind {
                FilterType::ReqCount => match &d.count {
                    Some(v) => v,
                    None => &empty_values,
                },
                FilterType::Traffic => match &d.traffic {
                    Some(v) => v,
                    None => &empty_values,
                },
            };
            assert(ips@ == ips_of(*d));
            assert(values@ == metric_of(c.kind, *d));
            let n = if ips.len() < values.len() {
                ips.len()
            } else {
                values.len()
            };
            assert(string_set(r@) =~= flagged_prefix(ips@, values@, c.kind, c.threshold, 0));
            let mut i: usize = 0;
            while i < n
                invariant
                    n <= ips.len(),
                    n <= values.len(),
                    i <= n,
                    distinct_strings(r@),
                    string_set(r@) == flagged_prefix(ips@, values@, c.kind, c.threshold, i as int),
                decreases n - i,
            {
                let v = values[i];
                let hit = match c.kind {
                    FilterType::ReqCount => v >= c.threshold,
                    FilterType::Traffic => v as i128 >= c.threshold as i128 * 1048576,
                };
                assert(hit == meets(c.kind, values@[i as int], c.threshold));
                proof {
                    lemma_flagged_step(ips@, values@, c.kind, c.threshold, i as int);
                }
                if hit {
                    if !contains_string(&r, &ips[i]) {
                        let ghost r0 = r@;
                        let x = ips[i].clone();
                        r.push(x);
                        proof {
                            lemma_string_set_push(r0, x);
                            assert(r@ == r0.push(x));
                            assert forall|a: int, b: int| 0 <= a < b < r.len() implies (#[trigger] r@[a])@
                                != (#[trigger] r@[b])@ by {
                                if b == r0.len() {
                                    assert(r@[a] == r0[a]);
                                    assert(string_set(r0).contains(r0[a]@));
                                } else {
                                    assert(r@[a] == r0[a]);
                                    assert(r@[b] == r0[b]);
                                }
                            }
                        }
                    } else {
                        proof {
                            assert(string_set(r@).contains(ips@[i as int]@));
                            assert(string_set(r@).insert(ips@[i as int]@) =~= string_set(r@));
                        }
                    }
                }
                i = i + 1;
            }
            proof {
                assert forall|ip: Seq<char>| #[trigger] hit_set(*c, *data).contains(ip)
                    == flagged_prefix(ips@, values@, c.kind, c.threshold, n as int).contains(ip) by {
                    if hit_set(*c, *data).contains(ip) {
                        let j = choose|j: int| 0 <= j < ips_of(*d).len() && j < metric_of(c.kind, *d).len()
                            && (#[trigger] ips_of(*d)[j])@ == ip && meets(c.kind, metric_of(c.kind, *d)[j], c.threshold);
                        assert(ips@[j]@ == ip);
                    }
                    if flagged_prefix(ips@, values@, c.kind, c.threshold, n as int).contains(ip) {
                        let j = choose|j: int|
                            0 <= j < n && j < ips@.len() && j < values@.len() && (#[trigger] ips@[j])@ == ip
                                && meets(c.kind, values@[j], c.threshold);
                        assert(ips_of(*d)[j]@ == ip);
                    }
                }
                assert(string_set(r@) =~= hit_set(*c, *data));
            }
            r
        },
    }
}

/// Adds `x` to the set `r` unless it is there already.
fn push_new(r: &mut Vec<String>, x: &String)
    requires
        distinct_strings(old(r)@),
    ensures
        string_set(final(r)@) == string_set(old(r)@).insert(x@),
        distinct_strings(final(r)@),
{
    if contains_string(r, x) {
        assert(string_set(r@).contains(x@));
        assert(string_set(r@).insert(x@) =~= string_set(r@));
    } else {
        let ghost r0 = r@;
        let y = x.clone();
        r.push(y);
        proof {
            lemma_string_set_push(r0, y);
            assert forall|a: int, b: int| 0 <= a < b < r.len() implies (#[trigger] r@[a])@ != (
            #[trigger] r@[b])@ by {
                assert(r@[a] == r0[a]);
                if b < r0.len() {
                    assert(r@[b] == r0[b]);
                }
            }
        }
    }
}

/// The IPs present in both `a` and `b`, each once.
pub fn intersect_ips(a: &Vec<String>, b: &Vec<String>) -> (r: Vec<String>)
    ensures
        string_set(r@) == string_set(a@).intersect(string_set(b@)),
        distinct_strings(r@),
{
    let mut r: Vec<String> = Vec::new();
    let mut i: usize = 0;
    assert(string_set(r@) =~= string_set(a@.take(0)).intersect(string_set(b@)));
    while i < a.len()
        invariant
            i <= a.len(),
            distinct_strings(r@),
            string_set(r@) == string_set(a@.take(i as int)).intersect(string_set(b@)),
        decreases a.len() - i,
    {
        proof {
            assert(a@.take(i + 1) =~= a@.take(i as int).push(a@[i as int]));
            lemma_string_set_push(a@.take(i as int), a@[i as int]);
        }
        if contains_string(b, &a[i]) {
            push_new(&mut r, &a[i]);
            assert(string_set(r@) =~= string_set(a@.take(i + 1)).intersect(string_set(b@)));
        } else {
            assert(!string_set(b@).contains(a@[i as int]@));
            assert(string_set(r@) =~= string_set(a@.take(i + 1)).intersect(string_set(b@)));
        }
        i = i + 1;
    }
    assert(a@.take(i as int) =~= a@);
    r
}

/// The IPs present in `a` or in `b`, each once.
pub fn union_ips(a: &Vec<String>, b: &Vec<String>) -> (r: Vec<String>)
    ensures
        string_set(r@) == string_set(a@).union(string_set(b@)),
        distinct_strings(r@),
{
    let mut r: Vec<String> = Vec::new();
    let mut i: usize = 0;
    assert(string_set(r@) =~= string_set(a@.take(0)));
    while i < a.len()
        invariant
            i <= a.len(),
            distinct_strings(r@),
            string_set(r@) == string_set(a@.take(i as int)),
        decreases a.len() - i,
    {
        proof {
            assert(a@.take(i + 1) =~= a@.take(i as int).push(a@[i as int]));
            lemma_string_set_push(a@.take(i as int), a@[i as int]);
        }
        push_new(&mut r, &a[i]);
        i = i + 1;
    }
    assert(a@.take(i as int) =~= a@);
    let mut k: usize = 0;
    assert(string_set(b@.take(0)) =~= Set::empty());
    assert(string_set(r@) =~= string_set(a@).union(string_set(b@.take(0))));
    while k < b.len()
        invariant
            k <= b.len(),
            distinct_strings(r@),
            string_set(r@) == string_set(a@).union(string_set(b@.take(k as int))),
        decreases b.len() - k,
    {
        proof {
            assert(b@.take(k + 1) =~= b@.take(k as int).push(b@[k as int]));
            lemma_string_set_push(b@.take(k as int), b@[k as int]);
        }
        push_new(&mut r, &b[k]);
        assert(string_set(r@) =~= string_set(a@).union(string_set(b@.take(k + 1))));
        k = k + 1;
    }
    assert(b@.take(k as int) =~= b@);
    r
}

/// The IPs that `policy` flags, given the ranking that each clause's lookup
/// returned (`None` where the lookup had no data), each once.
pub fn evaluate(policy: &Policy, results: &Vec<Option<TopIpData>>) -> (r: Vec<String>)
    requires
        policy_wf(policy),
        results.len() == policy.clauses.len(),
    ensures
        string_set(r@) == diagnosed(policy.clauses@, policy.join, results@),
        distinct_strings(r@),
{
    let first = clause_hits(&policy.clauses[0], &results[0]);
    if policy.clauses.len() == 1 {
        return first;
    }
    let second = clause_hits(&policy.clauses[1], &results[1]);
    match policy.join {
        JoinMode::And => intersect_ips(&first, &second),
        JoinMode::Or => union_ips(&first, &second),
    }
}

/// Everything a diagnosis needs before its first lookup: the parsed policy
/// and its lookups for the day `end_date`. A malformed policy fails here, so
/// no lookup is ever made for it.
pub fn plan_diagnosis(policy_text: &str, end_date: &str) -> (r: Result<(Policy, Vec<MetricQuery>), PolicyError>)
    ensures
        policy_error_of(policy_text@) is Some ==> r == Err::<(Policy, Vec<MetricQuery>), PolicyError>(
            policy_error_of(policy_text@)->0,
        ),
        r matches Ok((p, q)) ==> {
            &&& policy_error_of(policy_text@) is None
            &&& p.clauses@ == policy_clauses(policy_text@)
            &&& p.join == join_of(policy_text@)
            &&& policy_wf(&p)
            &&& q.len() == p.clauses.len()
            &&& day_number_of(end_date@) is Some
            &&& forall|i: int|
                0 <= i < q.len() ==> {
                    let c = #[trigger] p.clauses@[i];
                    &&& q@[i].kind == c.kind
                    &&& q@[i].end_date@ == end_date@
                    &&& day_text_of(
                        window_start(day_number_of(end_date@)->0 as int, c.window_days as int) as i64,
                    ) == Some(q@[i].start_date@)
                }
        },
        policy_error_of(policy_text@) is None && r is Err ==> {
            ||| r->Err_0 == PolicyError::BadDate && day_number_of(end_date@) is None
            ||| r->Err_0 == PolicyError::WindowOutOfRange && day_number_of(end_date@) is Some
                && exists|i: int|
                0 <= i < policy_clauses(policy_text@).len() && window_unrepresentable(
                    day_number_of(end_date@)->0,
                    #[trigger] policy_clauses(policy_text@)[i],
                )
        },
{
    let policy = match parse_policy(policy_text) {
        Ok(p) => p,
        Err(e) => return Err(e),
    };
    match plan_queries(&policy, end_date) {
        Ok(q) => Ok((policy, q)),
        Err(e) => Err(e),
    }
}

} // verus!
