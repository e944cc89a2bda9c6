//! Small helpers: column widths, region and carrier names, domain selection
//! and the chat-robot notification.

use vstd::prelude::*;

use crate::log::string_views;
use crate::text::{chars_eq, chars_of, split, split_by, string_of, text_eq, views};
use crate::token::push_text;

verus! {

/// The byte length of a string.
pub open spec fn byte_len(s: String) -> nat {
    (vstd::utf8::encode_utf8(s@).len() as usize) as nat
}

/// The greatest byte length among some strings, 0 for none.
pub open spec fn max_byte_len(v: Seq<String>) -> nat
    decreases v.len(),
{
    if v.len() == 0 {
        0
    } else {
        let m = max_byte_len(v.drop_last());
        let l = byte_len(v.last());
        if l > m {
            l
        } else {
            m
        }
    }
}

/// How many items a limit admits: a negative limit admits all of them.
pub open spec fn limited(n: int, limit: i32) -> int {
    if limit < 0 || limit as int > n {
        n
    } else {
        limit as int
    }
}

/// The width of a column: the greatest byte length among the first `limit` items.
pub fn max_length(data: &Vec<String>, limit: i32) -> (r: usize)
    ensures
        r == max_byte_len(data@.take(limited(data.len() as int, limit))),
{
    let n: usize = if limit < 0 || limit as usize > data.len() {
        data.len()
    } else {
        limit as usize
    };
    let mut length: usize = 0;
    let mut i: usize = 0;
    while i < n
        invariant
            n <= data.len(),
            n == limited(data.len() as int, limit),
            i <= n,
            length == max_byte_len(data@.take(i as int)),
        decreases n - i,
    {
        let t = data[i].as_str();
        let l = t.len();
        assert(t@ == data@[i as int]@);
        assert(l == byte_len(data@[i as int]));
        proof {
            assert(data@.take(i + 1).drop_last() =~= data@.take(i as int));
            assert(data@.take(i + 1).last() == data@[i as int]);
        }
        if length < l {
            length = l;
        }
        i = i + 1;
    }
    length
}

/// The name that `names` gives the first of `codes` equal to `code`, else `default`.
pub open spec fn name_for(codes: Seq<Seq<char>>, names: Seq<Seq<char>>, code: Seq<char>, default: Seq<char>) -> Seq<char>
    decreases codes.len(),
{
    if codes.len() == 0 || names.len() == 0 {
        default
    } else if codes[0] == code {
        names[0]
    } else {
        name_for(codes.drop_first(), names.drop_first(), code, default)
    }
}

pub open spec fn str_views(v: Seq<&'static str>) -> Seq<Seq<char>> {
    v.map_values(|s: &'static str| s@)
}

fn lookup_name(codes: &Vec<&'static str>, names: &Vec<&'static str>, code: &str, default: &'static str) -> (r: &'static str)
    requires
        codes.len() == names.len(),
    ensures
        r@ == name_for(str_views(codes@), str_views(names@), code@, default@),
{
    let mut i: usize = 0;
    assert(str_views(codes@).skip(0) =~= str_views(codes@));
    assert(str_views(names@).skip(0) =~= str_views(names@));
    while i < codes.len()
        invariant
            codes.len() == names.len(),
            i <= codes.len(),
            name_for(str_views(codes@), str_views(names@), code@, default@) == name_for(
                str_views(codes@).skip(i as int),
                str_views(names@).skip(i as int),
                code@,
                default@,
            ),
        decreases codes.len() - i,
    {
        assert(str_views(codes@).skip(i as int)[0] == codes@[i as int]@);
        assert(str_views(names@).skip(i as int)[0] == names@[i as int]@);
        if text_eq(codes[i], code) {
            return names[i];
        }
        assert(str_views(codes@).skip(i as int).drop_first() =~= str_views(codes@).skip(i + 1));
        assert(str_views(names@).skip(i as int).drop_first() =~= str_views(names@).skip(i + 1));
        i = i + 1;
    }
    default
}

/// Region codes.
pub open spec fn region_code_seq() -> Seq<Seq<char>> {
    seq![
        "china"@,
        "global"@,
        "oversea"@,
        "shandong"@,
        "jiangsu"@,
        "zhejiang"@,
        "anhui"@,
        "shanghai"@,
        "fujian"@,
        "jiangxi"@,
        "guangdong"@,
        "guangxi"@,
        "hainan"@,
        "henan"@,
        "hunan"@,
        "hubei"@,
        "beijing"@,
        "tianjin"@,
        "hebei"@,
        "shanxi"@,
        "neimenggu"@,
        "ningxia"@,
        "qinghai"@,
        "gansu"@,
        "shaanxi"@,
        "sichuan"@,
        "guizhou"@,
        "xinjiang"@,
        "yunnan"@,
        "chongqing"@,
        "xizang"@,
        "liaoning"@,
        "jilin"@,
        "heilongjiang"@,
        "hongkong"@,
        "macau"@,
        "taiwan"@,
        "unknown"@
    ]
}

/// Region display names.
pub open spec fn region_name_seq() -> Seq<Seq<char>> {
    seq![
        "中国"@,
        "全球"@,
        "海外"@,
        "山东"@,
        "江苏"@,
        "浙江"@,
        "安徽"@,
        "上海"@,
        "福建"@,
        "江西"@,
        "广东"@,
        "广西"@,
        "海南"@,
        "河南"@,
        "湖南"@,
        "湖北"@,
        "北京"@,
        "天津"@,
        "河北"@,
        "山西"@,
        "内蒙古"@,
        "宁夏"@,
        "青海"@,
        "甘肃"@,
        "陕西"@,
        "四川"@,
        "贵州"@,
        "新疆"@,
        "云南"@,
        "重庆"@,
        "西藏"@,
        "辽宁"@,
        "吉林"@,
        "黑龙江"@,
        "香港"@,
        "澳门"@,
        "台湾"@,
        "未知地区"@
    ]
}

/// Carrier codes.
pub open spec fn isp_code_seq() -> Seq<Seq<char>> {
    seq![
        "all"@,
        "telecom"@,
        "unicom"@,
        "mobile"@,
        "drpeng"@,
        "tietong"@,
        "cernet"@,
        "others"@
    ]
}

/// Carrier display names.
pub open spec fn isp_name_seq() -> Seq<Seq<char>> {
    seq![
        "全部"@,
        "电信"@,
        "联通"@,
        "移动"@,
        "鹏博士"@,
        "铁通"@,
        "教育网"@,
        "其他"@
    ]
}

/// Region codes of the analysis endpoints.
pub fn region_codes() -> (r: Vec<&'static str>)
    ensures
        str_views(r@) == region_code_seq(),
{
    let r = vec![
        "china", "global", "oversea", "shandong", "jiangsu", "zhejiang", "anhui", "shanghai",
        "fujian", "jiangxi", "guangdong", "guangxi", "hainan", "henan", "hunan", "hubei",
        "beijing", "tianjin", "hebei", "shanxi", "neimenggu", "ningxia", "qinghai", "gansu",
        "shaanxi", "sichuan", "guizhou", "xinjiang", "yunnan", "chongqing", "xizang", "liaoning",
        "jilin", "heilongjiang", "hongkong", "macau", "taiwan", "unknown",
    ];
    assert(str_views(r@) =~= region_code_seq());
    r
}

/// Display names of the regions, index by index with [`region_codes`].
pub fn region_names() -> (r: Vec<&'static str>)
    ensures
        str_views(r@) == region_name_seq(),
{
    let r = vec![
        "中国", "全球", "海外", "山东", "江苏", "浙江", "安徽", "上海", "福建", "江西", "广东",
        "广西", "海南", "河南", "湖南", "湖北", "北京", "天津", "河北", "山西", "内蒙古", "宁夏",
        "青海", "甘肃", "陕西", "四川", "贵州", "新疆", "云南", "重庆", "西藏", "辽宁", "吉林",
        "黑龙江", "香港", "澳门", "台湾", "未知地区",
    ];
    assert(str_views(r@) =~= region_name_seq());
    r
}

/// Carrier codes of the analysis endpoints.
pub fn isp_codes() -> (r: Vec<&'static str>)
    ensures
        str_views(r@) == isp_code_seq(),
{
    let r = vec!["all", "telecom", "unicom", "mobile", "drpeng", "tietong", "cernet", "others"];
    assert(str_views(r@) =~= isp_code_seq());
    r
}

/// Display names of the carriers, index by index with [`isp_codes`].
pub fn isp_names() -> (r: Vec<&'static str>)
    ensures
        str_views(r@) == isp_name_seq(),
{
    let r = vec!["全部", "电信", "联通", "移动", "鹏博士", "铁通", "教育网", "其他"];
    assert(str_views(r@) =~= isp_name_seq());
    r
}

/// The display name of a region code; unknown codes name the unknown region.
pub fn get_region_name_from_code(region_code: &str) -> (r: &'static str)
    ensures
        r@ == name_for(region_code_seq(), region_name_seq(), region_code@, "未知地区"@),
{
    let codes = region_codes();
    let names = region_names();
    lookup_name(&codes, &names, region_code, "未知地区")
}

/// The display name of a carrier code; unknown codes name "others".
pub fn get_isp_name_from_code(isp_code: &str) -> (r: &'static str)
    ensures
        r@ == name_for(isp_code_seq(), isp_name_seq(), isp_code@, "其他"@),
{
    let codes = isp_codes();
    let names = isp_names();
    lookup_name(&codes, &names, isp_code, "其他")
}


/// A group chat robot that receives notifications by webhook.
#[derive(Debug, Clone)]
pub struct QyRobot {
    pub url: Option<String>,
}

/// A markdown message for the chat robot.
#[derive(Debug, Clone)]
pub struct QyMsg {
    pub msgtype: String,
    pub markdown: Vec<(String, String)>,
}

impl QyRobot {
    pub fn new(url: String) -> (r: Self)
        ensures
            r.url matches Some(u) && u@ == url@,
    {
        QyRobot { url: Some(url) }
    }

    /// The message body that posts `content` as markdown.
    pub fn markdown_message(content: &str) -> (r: QyMsg)
        ensures
            r.msgtype@ == "markdown"@,
            r.markdown@.len() == 1,
            r.markdown@[0].0@ == "content"@,
            r.markdown@[0].1@ == content@,
    {
        let mut markdown: Vec<(String, String)> = Vec::new();
        markdown.push(("content".to_owned(), content.to_owned()));
        QyMsg { msgtype: "markdown".to_owned(), markdown }
    }
}

/// Whether some piece equals `s`.
fn has_piece(pieces: &Vec<Vec<char>>, s: &Vec<char>) -> (r: bool)
    ensures
        r == views(pieces@).contains(s@),
{
    let mut i: usize = 0;
    while i < pieces.len()
        invariant
            i <= pieces.len(),
            forall|j: int| 0 <= j < i ==> (#[trigger] pieces@[j])@ != s@,
        decreases pieces.len() - i,
    {
        if chars_eq(&pieces[i], s) {
            assert(views(pieces@)[i as int] == s@);
            return true;
        }
        i = i + 1;
    }
    proof {
        if views(pieces@).contains(s@) {
            let k = choose|k: int| 0 <= k < views(pieces@).len() && views(pieces@)[k] == s@;
            assert(pieces@[k]@ == s@);
        }
    }
    false
}

/// The candidates that the comma-separated `exclude` list does not name, in order.
pub open spec fn not_excluded(candidates: Seq<Seq<char>>, exclude: Seq<char>) -> Seq<Seq<char>> {
    candidates.filter(|c: Seq<char>| !split(exclude, seq![',']).contains(c))
}

/// The domains to work on: the comma-separated `domains` where given, else
/// the account's `listed` domains; less those that `exclude` names.
pub fn select_domains(exclude: Option<&str>, domains: Option<&str>, listed: &Vec<String>) -> (r: Vec<String>)
    ensures
        string_views(r@) == not_excluded(
            match domains {
                Some(d) => split(d@, seq![',']),
                None => string_views(listed@),
            },
            match exclude {
                Some(e) => e@,
                None => seq![],
            },
        ),
{
    let comma: Vec<char> = vec![','];
    assert(comma@ =~= seq![',']);
    let ex_text: Vec<char> = match exclude {
        Some(e) => chars_of(e),
        None => Vec::new(),
    };
    let ex = split_by(&ex_text, &comma);
    let candidates: Vec<String> = match domains {
        Some(d) => {
            let pieces = split_by(&chars_of(d), &comma);
            let mut c: Vec<String> = Vec::new();
            let mut i: usize = 0;
            while i < pieces.len()
                invariant
                    i <= pieces.len(),
                    string_views(c@) == views(pieces@).take(i as int),
                decreases pieces.len() - i,
            {
                let ghost c0 = c@;
                let x = string_of(pieces[i].as_slice());
                c.push(x);
                assert(string_views(c@) =~= string_views(c0).push(x@));
                assert(views(pieces@).take(i + 1) =~= views(pieces@).take(i as int).push(pieces@[i as int]@));
                assert(string_views(c@) =~= views(pieces@).take(i + 1));
                i = i + 1;
            }
            assert(views(pieces@).take(i as int) =~= views(pieces@));
            c
        },
        None => {
            let mut c: Vec<String> = Vec::new();
            let mut i: usize = 0;
            while i < listed.len()
                invariant
                    i <= listed.len(),
                    string_views(c@) == string_views(listed@).take(i as int),
                decreases listed.len() - i,
            {
                let ghost c0 = c@;
                let x = listed[i].clone();
                c.push(x);
                assert(string_views(c@) =~= string_views(c0).push(x@));
                assert(string_views(listed@).take(i + 1) =~= string_views(listed@).take(i as int).push(listed@[i as int]@));
                assert(string_views(c@) =~= string_views(listed@).take(i + 1));
                i = i + 1;
            }
            assert(string_views(listed@).take(i as int) =~= string_views(listed@));
            c
        },
    };
    let ghost cv = string_views(candidates@);
    let mut out: Vec<String> = Vec::new();
    let mut i: usize = 0;
    assert(string_views(out@) =~= cv.take(0).filter(|c: Seq<char>| !views(ex@).contains(c)));
    while i < candidates.len()
        invariant
            i <= candidates.len(),
            cv == string_views(candidates@),
            string_views(out@) == cv.take(i as int).filter(|c: Seq<char>| !views(ex@).contains(c)),
        decreases candidates.len() - i,
    {
        proof {
            assert(cv.take(i + 1).drop_last() =~= cv.take(i as int));
            assert(cv.take(i + 1).last() == candidates@[i as int]@);
            reveal(Seq::filter);
            assert(cv.take(i + 1) =~= cv.take(i as int).push(candidates@[i as int]@));
        }
        let name = chars_of(candidates[i].as_str());
        if !has_piece(&ex, &name) {
            let ghost o0 = out@;
            out.push(candidates[i].clone());
            assert(string_views(out@) =~= string_views(o0).push(candidates@[i as int]@));
        }
        i = i + 1;
    }
    assert(cv.take(i as int) =~= cv);
    assert(ex_text@ == match exclude {
        Some(e) => e@,
        None => seq![],
    });
    out
}

} // verus!
