//! Request-count and traffic series of the analysis endpoints, and the
//! five-minute alerts raised on them.

use vstd::prelude::*;

use crate::text::{chars_of, string_of};
use crate::token::{chars_lt, lex_lt, push_chars, push_text};

verus! {

/// A request-count series.
#[derive(Debug, Clone)]
pub struct ReqCountData {
    pub points: Vec<String>,
    pub req_count: Vec<i64>,
}

/// Response of the request-count endpoint.
#[derive(Debug, Clone)]
pub struct ReqCountResponse {
    pub code: i32,
    pub error: String,
    pub data: Option<ReqCountData>,
}

/// Request body of the request-count endpoint.
#[derive(Debug, Clone)]
pub struct ReqCountParam {
    pub domains: Vec<String>,
    pub freq: String,
    pub region: String,
    pub start_date: String,
    pub end_date: String,
}

/// A domain's billed traffic in bytes, inside and outside China.
#[derive(Debug, Clone)]
pub struct DomainTraffic {
    pub china: Option<Vec<i64>>,
    pub oversea: Option<Vec<i64>>,
}

/// Response of the billed-traffic endpoint: the points, and each domain's series.
#[derive(Debug, Clone)]
pub struct ChargeTrafficResponse {
    pub code: Option<i32>,
    pub error: String,
    pub time: Option<Vec<String>>,
    pub data: Option<Vec<(String, DomainTraffic)>>,
}

/// How many of the latest busy points an alert looks back over.
pub const ALERT_LOOKBACK: usize = 5;

/// Whether a point is shown: one later than `now` is left out while empty.
pub open spec fn point_live(now: Seq<char>, point: Seq<char>, value: int) -> bool {
    !(lex_lt(now, point) && value == 0)
}

/// The indices of the first `k` points that are shown, in order.
pub open spec fn live_upto(points: Seq<String>, values: Seq<int>, now: Seq<char>, k: int) -> Seq<int>
    decreases k,
{
    if k <= 0 {
        seq![]
    } else {
        let prev = live_upto(points, values, now, k - 1);
        if point_live(now, points[k - 1]@, values[k - 1]) {
            prev.push(k - 1)
        } else {
            prev
        }
    }
}

/// The indices of the points of a series that are shown, in order; the
/// series runs as far as both its points and its values do.
pub fn live_points(points: &Vec<String>, values: &Vec<i128>, now: &str) -> (r: Vec<usize>)
    ensures
        r@.map_values(|i: usize| i as int) == live_upto(
            points@,
            values@.map_values(|v: i128| v as int),
            now@,
            if points.len() < values.len() { points.len() as int } else { values.len() as int },
        ),
{
    let n = if points.len() < values.len() {
        points.len()
    } else {
        values.len()
    };
    let ghost vs = values@.map_values(|v: i128| v as int);
    let nowc = chars_of(now);
    let mut r: Vec<usize> = Vec::new();
    let mut i: usize = 0;
    while i < n
        invariant
            n <= points.len(),
            n <= values.len(),
            i <= n,
            nowc@ == now@,
            vs == values@.map_values(|v: i128| v as int),
            r@.map_values(|i: usize| i as int) == live_upto(points@, vs, now@, i as int),
        decreases n - i,
    {
        let p = chars_of(points[i].as_str());
        let later = chars_lt(&nowc, &p);
        let ghost r0 = r@;
        if !(later && values[i] == 0) {
            r.push(i);
            assert(r@.map_values(|i: usize| i as int) =~= r0.map_values(|i: usize| i as int).push(i as int));
        }
        i = i + 1;
    }
    r
}

/// The positions among the last few of `values` (at most [`ALERT_LOOKBACK`])
/// whose value reaches `threshold`, in order.
pub open spec fn alerts_of(values: Seq<i128>, threshold: i128) -> Seq<int> {
    let start = if values.len() > ALERT_LOOKBACK { values.len() - ALERT_LOOKBACK } else { 0 };
    Seq::new((values.len() - start) as nat, |j: int| start + j).filter(reaches(values, threshold))
}

/// Whether the value at a position reaches the threshold.
pub open spec fn reaches(values: Seq<i128>, threshold: i128) -> spec_fn(int) -> bool {
    |i: int| values[i] >= threshold
}

/// The positions among the latest values that reach the alert threshold.
pub fn recent_alerts(values: &Vec<i128>, threshold: i128) -> (r: Vec<usize>)
    ensures
        r@.map_values(|i: usize| i as int) == alerts_of(values@, threshold),
{
    let start = if values.len() > ALERT_LOOKBACK {
        values.len() - ALERT_LOOKBACK
    } else {
        0
    };
    let ghost all = Seq::new((values.len() - start) as nat, |j: int| start + j);
    let mut r: Vec<usize> = Vec::new();
    let mut i: usize = start;
    assert(all.take(0) =~= Seq::<int>::empty());
    proof {
        reveal(Seq::filter);
    }
    while i < values.len()
        invariant
            start <= i <= values.len(),
            all == Seq::new((values.len() - start) as nat, |j: int| start + j),
            r@.map_values(|i: usize| i as int) == all.take(i - start).filter(reaches(values@, threshold)),
        decreases values.len() - i,
    {
        proof {
            reveal(Seq::filter);
            assert(all.take(i + 1 - start).drop_last() =~= all.take(i - start));
            assert(all.take(i + 1 - start).last() == i as int);
        }
        let ghost r0 = r@;
        if values[i] >= threshold {
            r.push(i);
            assert(r@.map_values(|i: usize| i as int) =~= r0.map_values(|i: usize| i as int).push(i as int));
            assert(all.take(i + 1 - start).filter(reaches(values@, threshold)) == all.take(i - start).filter(
                reaches(values@, threshold),
            ).push(i as int));
        } else {
            assert(all.take(i + 1 - start).filter(reaches(values@, threshold)) == all.take(i - start).filter(
                reaches(values@, threshold),
            ));
        }
        i = i + 1;
    }
    assert(all.take(i - start) =~= all);
    r
}


/// The sum of `values` at the positions `rows`.
pub open spec fn total_at(values: Seq<i64>, rows: Seq<usize>) -> int
    decreases rows.len(),
{
    if rows.len() == 0 {
        0
    } else {
        total_at(values, rows.drop_last()) + values[rows.last() as int] as int
    }
}

/// The sum of a series at some of its positions.
pub fn series_total(values: &Vec<i64>, rows: &Vec<usize>) -> (r: i128)
    requires
        forall|k: int| 0 <= k < rows.len() ==> (#[trigger] rows@[k]) < values.len(),
    ensures
        r == total_at(values@, rows@),
{
    let mut acc: i128 = 0;
    let mut k: usize = 0;
    while k < rows.len()
        invariant
            k <= rows.len(),
            forall|j: int| 0 <= j < rows.len() ==> (#[trigger] rows@[j]) < values.len(),
            acc == total_at(values@, rows@.take(k as int)),
            -(k as int) * 0x8000_0000_0000_0000 <= acc <= (k as int) * 0x8000_0000_0000_0000,
        decreases rows.len() - k,
    {
        proof {
            assert(rows@.take(k + 1).drop_last() =~= rows@.take(k as int));
        }
        let v = values[rows[k]];
        assert(-(k as int) * 0x8000_0000_0000_0000 - 0x8000_0000_0000_0000 <= acc + v <= (k as int)
            * 0x8000_0000_0000_0000 + 0x8000_0000_0000_0000);
        assert((k as int) * 0x8000_0000_0000_0000 + 0x8000_0000_0000_0000 < 0x7fff_ffff_ffff_ffff_ffff_ffff_ffff_ffff) by (nonlinear_arith)
            requires
                k < rows.len(),
                rows.len() <= usize::MAX,
        ;
        acc = acc + v as i128;
        k = k + 1;
    }
    assert(rows@.take(k as int) =~= rows@);
    acc
}

/// The value of a series at a point, 0 where the series stops short.
pub open spec fn value_at(s: Option<Vec<i64>>, i: int) -> int {
    match s {
        Some(v) => if 0 <= i < v.len() {
            v@[i] as int
        } else {
            0
        },
        None => 0,
    }
}

fn value_at_exec(s: &Option<Vec<i64>>, i: usize) -> (r: i64)
    ensures
        r as int == value_at(*s, i as int),
{
    match s {
        Some(v) => if i < v.len() {
            v[i]
        } else {
            0
        },
        None => 0,
    }
}

/// A domain's traffic in bytes at each of `n` points, inside and outside China together.
pub fn traffic_points(t: &DomainTraffic, n: usize) -> (r: Vec<i128>)
    ensures
        r.len() == n,
        forall|i: int| 0 <= i < n ==> (#[trigger] r@[i]) as int == value_at(t.china, i) + value_at(t.oversea, i),
{
    let mut r: Vec<i128> = Vec::new();
    let mut i: usize = 0;
    while i < n
        invariant
            i <= n,
            r.len() == i,
            forall|j: int| 0 <= j < i ==> (#[trigger] r@[j]) as int == value_at(t.china, j) + value_at(t.oversea, j),
        decreases n - i,
    {
        let c = value_at_exec(&t.china, i);
        let o = value_at_exec(&t.oversea, i);
        r.push(c as i128 + o as i128);
        i = i + 1;
    }
    r
}

/// A request-count series widened, point by point.
pub fn count_points(data: &ReqCountData) -> (r: Vec<i128>)
    ensures
        r.len() == data.req_count.len(),
        forall|i: int| 0 <= i < r.len() ==> (#[trigger] r@[i]) as int == data.req_count@[i] as int,
{
    let mut r: Vec<i128> = Vec::new();
    let mut i: usize = 0;
    while i < data.req_count.len()
        invariant
            i <= data.req_count.len(),
            r.len() == i,
            forall|j: int| 0 <= j < i ==> (#[trigger] r@[j]) as int == data.req_count@[j] as int,
        decreases data.req_count.len() - i,
    {
        r.push(data.req_count[i] as i128);
        i = i + 1;
    }
    r
}

/// The shown points whose value is above zero, and their values, in order.
pub fn busy_points(values: &Vec<i128>, live: &Vec<usize>) -> (r: (Vec<usize>, Vec<i128>))
    requires
        forall|k: int| 0 <= k < live.len() ==> (#[trigger] live@[k]) < values.len(),
    ensures
        r.0.len() == r.1.len(),
        r.0@ == live@.filter(|i: usize| values@[i as int] > 0),
        forall|k: int| 0 <= k < r.0.len() ==> (#[trigger] r.1@[k]) == values@[r.0@[k] as int],
{
    let mut idx: Vec<usize> = Vec::new();
    let mut vals: Vec<i128> = Vec::new();
    let mut k: usize = 0;
    proof {
        reveal(Seq::filter);
        assert(live@.take(0) =~= Seq::<usize>::empty());
    }
    while k < live.len()
        invariant
            k <= live.len(),
            forall|j: int| 0 <= j < live.len() ==> (#[trigger] live@[j]) < values.len(),
            idx.len() == vals.len(),
            idx@ == live@.take(k as int).filter(|i: usize| values@[i as int] > 0),
            forall|j: int| 0 <= j < idx.len() ==> (#[trigger] vals@[j]) == values@[idx@[j] as int],
        decreases live.len() - k,
    {
        proof {
            reveal(Seq::filter);
            assert(live@.take(k + 1).drop_last() =~= live@.take(k as int));
            assert(live@.take(k + 1).last() == live@[k as int]);
        }
        let i = live[k];
        if values[i] > 0 {
            idx.push(i);
            vals.push(values[i]);
        }
        k = k + 1;
    }
    assert(live@.take(k as int) =~= live@);
    (idx, vals)
}


/// The decimal digit character of `d`.
pub open spec fn digit_char(d: int) -> char {
    if d == 0 {
        '0'
    } else if d == 1 {
        '1'
    } else if d == 2 {
        '2'
    } else if d == 3 {
        '3'
    } else if d == 4 {
        '4'
    } else if d == 5 {
        '5'
    } else if d == 6 {
        '6'
    } else if d == 7 {
        '7'
    } else if d == 8 {
        '8'
    } else {
        '9'
    }
}

/// The decimal digits of a natural number, without leading zeros.
pub open spec fn decimal_text(n: nat) -> Seq<char>
    decreases n,
{
    if n < 10 {
        seq![digit_char(n as int)]
    } else {
        decimal_text(n / 10) + seq![digit_char((n % 10) as int)]
    }
}

/// The decimal text of an integer, as `Display` writes it.
pub open spec fn int_text(n: int) -> Seq<char> {
    if n < 0 {
        seq!['-'] + decimal_text((-n) as nat)
    } else {
        decimal_text(n as nat)
    }
}

fn digit_exec(d: u128) -> (r: char)
    requires
        d < 10,
    ensures
        r == digit_char(d as int),
{
    if d == 0 {
        '0'
    } else if d == 1 {
        '1'
    } else if d == 2 {
        '2'
    } else if d == 3 {
        '3'
    } else if d == 4 {
        '4'
    } else if d == 5 {
        '5'
    } else if d == 6 {
        '6'
    } else if d == 7 {
        '7'
    } else if d == 8 {
        '8'
    } else {
        '9'
    }
}

fn push_decimal(out: &mut Vec<char>, m: u128)
    ensures
        final(out)@ == old(out)@ + decimal_text(m as nat),
    decreases m,
{
    if m >= 10 {
        push_decimal(out, m / 10);
    }
    out.push(digit_exec(m % 10));
    assert(out@ =~= old(out)@ + decimal_text(m as nat));
}

/// Appends the decimal text of `n` to `out`.
pub fn push_int(out: &mut Vec<char>, n: i128)
    ensures
        final(out)@ == old(out)@ + int_text(n as int),
{
    if n < 0 {
        out.push('-');
        let m: u128 = ((-(n + 1)) as u128) + 1;
        push_decimal(out, m);
        assert(final(out)@ =~= old(out)@ + int_text(n as int)) by {
            assert(m as int == -(n as int));
        }
    } else {
        push_decimal(out, n as u128);
    }
}

/// The alert text for a five-minute request count over the threshold.
pub open spec fn count_alert_text(domains: Seq<char>, point: Seq<char>, count: int, threshold: int) -> Seq<char> {
    "## 🚨七牛CDN流量告警\n\n域名`"@ + domains + "`在`"@ + point + "` 5分钟内的请求次数为`"@ + int_text(count)
        + "`次, 超过告警值`"@ + int_text(threshold) + "`次，请留意！"@
}

/// The alert text for a five-minute request count over the threshold.
pub fn count_alert_message(domains: &str, point: &str, count: i128, threshold: i128) -> (r: String)
    ensures
        r@ == count_alert_text(domains@, point@, count as int, threshold as int),
{
    let mut out: Vec<char> = Vec::new();
    push_text(&mut out, "## 🚨七牛CDN流量告警\n\n域名`");
    push_text(&mut out, domains);
    push_text(&mut out, "`在`");
    push_text(&mut out, point);
    push_text(&mut out, "` 5分钟内的请求次数为`");
    push_int(&mut out, count);
    push_text(&mut out, "`次, 超过告警值`");
    push_int(&mut out, threshold);
    push_text(&mut out, "`次，请留意！");
    assert(out@ =~= count_alert_text(domains@, point@, count as int, threshold as int));
    string_of(out.as_slice())
}

/// `s` without its spaces.
pub open spec fn without_spaces(s: Seq<char>) -> Seq<char>
    decreases s.len(),
{
    if s.len() == 0 {
        seq![]
    } else if s.last() == ' ' {
        without_spaces(s.drop_last())
    } else {
        without_spaces(s.drop_last()).push(s.last())
    }
}

/// The marker file that records a sent request-count alert, so that it is
/// sent once: `/tmp/qiniu/monitor/count/<domains><point><count>`, spaces removed.
pub open spec fn count_mark_path_of(domains: Seq<char>, point: Seq<char>, count: int) -> Seq<char> {
    without_spaces("/tmp/qiniu/monitor/count/"@ + domains + point + int_text(count))
}

/// The marker file that records a sent request-count alert.
pub fn count_mark_path(domains: &str, point: &str, count: i128) -> (r: String)
    ensures
        r@ == count_mark_path_of(domains@, point@, count as int),
{
    let mut raw: Vec<char> = Vec::new();
    push_text(&mut raw, "/tmp/qiniu/monitor/count/");
    push_text(&mut raw, domains);
    push_text(&mut raw, point);
    push_int(&mut raw, count);
    let mut out: Vec<char> = Vec::new();
    let mut i: usize = 0;
    assert(raw@.take(0) =~= Seq::<char>::empty());
    while i < raw.len()
        invariant
            i <= raw.len(),
            out@ == without_spaces(raw@.take(i as int)),
        decreases raw.len() - i,
    {
        assert(raw@.take(i + 1).drop_last() =~= raw@.take(i as int));
        if raw[i] != ' ' {
            out.push(raw[i]);
        }
        i = i + 1;
    }
    assert(raw@.take(i as int) =~= raw@);
    assert(raw@ =~= "/tmp/qiniu/monitor/count/"@ + domains@ + point@ + int_text(count as int));
    string_of(out.as_slice())
}


/// A domain's traffic in a billed-traffic response; none where it is absent.
pub fn traffic_of<'a>(resp: &'a ChargeTrafficResponse, domain: &str) -> (r: Option<&'a DomainTraffic>)
    ensures
        resp.data is None ==> r is None,
        resp.data is Some ==> {
            let d = resp.data->0@;
            ||| exists|i: int|
                0 <= i < d.len() && (#[trigger] d[i]).0@ == domain@ && r == Some(&d[i].1) && forall|j: int|
                    0 <= j < i ==> (#[trigger] d[j]).0@ != domain@
            ||| r is None && forall|i: int| 0 <= i < d.len() ==> (#[trigger] d[i]).0@ != domain@
        },
{
    match &resp.data {
        None => None,
        Some(d) => {
            let mut i: usize = 0;
            while i < d.len()
                invariant
                    i <= d.len(),
                    resp.data == Some(*d),
                    forall|j: int| 0 <= j < i ==> (#[trigger] d@[j]).0@ != domain@,
                decreases d.len() - i,
            {
                if crate::text::text_eq(d[i].0.as_str(), domain) {
                    let r = &d[i].1;
                    assert(resp.data->0@[i as int].0@ == domain@ && r == &resp.data->0@[i as int].1);
                    return Some(r);
                }
                i = i + 1;
            }
            None
        },
    }
}

} // verus!
