//! Domain settings: IP access lists, referer and HTTPS settings, and the
//! domain list, as the domain endpoints exchange them.

use vstd::prelude::*;

use crate::log::string_views;
use crate::policy::contains_string;
use crate::text::{split, split_text, string_of, text_eq};

verus! {

/// A plain result body: a code and an error message.
#[derive(Debug, Clone)]
pub struct Response {
    pub code: Option<i32>,
    pub error: Option<String>,
}

/// Request body that sets a domain's IP access list.
#[derive(Debug, Clone)]
pub struct IpACLParam {
    pub ip_acltype: String,
    pub ip_aclvalues: Vec<String>,
}

/// The kind of an IP access list; `Blank` turns it off.
#[derive(Debug, Clone, Copy, PartialEq, Eq, Structural)]
pub enum IpACLType {
    White,
    Black,
    Blank,
}

impl IpACLType {
    /// The name the domain endpoints use for the kind.
    pub fn as_str(&self) -> (r: &'static str)
        ensures
            r@ == acl_type_name(*self),
    {
        match self {
            IpACLType::White => "white",
            IpACLType::Black => "black",
            IpACLType::Blank => "",
        }
    }
}

pub open spec fn acl_type_name(t: IpACLType) -> Seq<char> {
    match t {
        IpACLType::White => "white"@,
        IpACLType::Black => "black"@,
        IpACLType::Blank => ""@,
    }
}

/// The request body that sets an access list of kind `t` to `values`.
pub fn acl_param(t: IpACLType, values: Vec<String>) -> (r: IpACLParam)
    ensures
        r.ip_acltype@ == acl_type_name(t),
        r.ip_aclvalues@ == values@,
{
    IpACLParam { ip_acltype: t.as_str().to_owned(), ip_aclvalues: values }
}

/// A domain's IP access list.
#[derive(Debug, Clone)]
pub struct IpACL {
    pub ip_acltype: String,
    pub ip_aclvalues: Vec<String>,
}

/// A domain's referer access list.
#[derive(Debug, Clone)]
pub struct Referer {
    pub referer_type: String,
    pub referer_values: Vec<String>,
    pub null_referer: bool,
}

/// A domain's HTTPS settings.
#[derive(Debug, Clone)]
pub struct Https {
    pub cert_id: String,
    pub force_https: bool,
    pub http2_enable: bool,
}

/// A domain's settings.
#[derive(Debug, Clone)]
pub struct DomainInfoResponse {
    pub code: Option<i32>,
    pub error: Option<String>,
    pub name: Option<String>,
    pub cname: Option<String>,
    pub ip_acl: Option<IpACL>,
    pub referer: Option<Referer>,
    pub create_at: Option<String>,
    pub modify_at: Option<String>,
    pub register_no: Option<String>,
    pub https: Option<Https>,
}

/// One domain of the account's domain list.
#[derive(Debug, Clone)]
pub struct DomainListInner {
    pub name: String,
    pub type_: String,
    pub cname: Option<String>,
    pub protocol: Option<String>,
    pub operation_type: Option<String>,
    pub operating_state: Option<String>,
    pub create_at: String,
    pub modify_at: String,
}

/// The account's domain list.
#[derive(Debug, Clone)]
pub struct DomainListResponse {
    pub marker: String,
    pub domains: Vec<DomainListInner>,
}


/// Why an access-list change was refused.
#[derive(Debug, Clone, Copy, PartialEq, Eq, Structural)]
pub enum AclError {
    /// Not exactly one of black, white and close was asked for.
    ConflictingModes,
    /// A black or white list was asked for without IPs.
    NoIps,
    /// Appending needs the online list, and the domain has none.
    NoOnlineAcl,
    /// IPs were to be removed from a list of the other kind.
    ModeMismatch,
}

/// What to send for an access-list change.
#[derive(Debug)]
pub enum AclUpdate {
    /// The online list already holds what was asked: send nothing.
    Unchanged,
    /// Set the list to this kind and these values.
    Apply { kind: IpACLType, values: Vec<String> },
}

/// Whether a requested IP asks for a removal: it is written `d<ip>`.
pub open spec fn is_removal(ip: Seq<char>) -> bool {
    ip.len() > 0 && ip[0] == 'd'
}

/// The requested IPs that are not removals, in order.
pub open spec fn additions_of(list: Seq<Seq<char>>) -> Seq<Seq<char>>
    decreases list.len(),
{
    if list.len() == 0 {
        seq![]
    } else if is_removal(list.last()) {
        additions_of(list.drop_last())
    } else {
        additions_of(list.drop_last()).push(list.last())
    }
}

/// The requested removals, in order.
pub open spec fn removals_of(list: Seq<Seq<char>>) -> Seq<Seq<char>>
    decreases list.len(),
{
    if list.len() == 0 {
        seq![]
    } else if is_removal(list.last()) {
        removals_of(list.drop_last()).push(list.last())
    } else {
        removals_of(list.drop_last())
    }
}

/// The additions followed by each online IP that is neither there already
/// nor removed.
pub open spec fn merged(additions: Seq<Seq<char>>, removals: Seq<Seq<char>>, online: Seq<Seq<char>>) -> Seq<Seq<char>>
    decreases online.len(),
{
    if online.len() == 0 {
        additions
    } else {
        let prev = merged(additions, removals, online.drop_last());
        let o = online.last();
        if prev.contains(o) || removals.contains(seq!['d'] + o) {
            prev
        } else {
            prev.push(o)
        }
    }
}

/// The kind that the flags ask for.
pub open spec fn requested_kind(black: bool, white: bool) -> IpACLType {
    if white {
        IpACLType::White
    } else if black {
        IpACLType::Black
    } else {
        IpACLType::Blank
    }
}

/// The kind to send for some values: a list with none turns the list off.
pub open spec fn kind_for(kind: IpACLType, values: Seq<Seq<char>>) -> IpACLType {
    if values.len() == 0 {
        IpACLType::Blank
    } else {
        kind
    }
}

pub open spec fn update_view(u: AclUpdate) -> Option<(IpACLType, Seq<Seq<char>>)> {
    match u {
        AclUpdate::Unchanged => None,
        AclUpdate::Apply { kind, values } => Some((kind, string_views(values@))),
    }
}

/// The change that a request makes to a domain's IP list: `ips` is a comma
/// list where `d<ip>` removes; with `rewrite` the list is replaced, else it
/// is merged into the online list `online` (kind and values).
pub open spec fn acl_plan(
    black: bool,
    white: bool,
    close: bool,
    ips: Seq<char>,
    rewrite: bool,
    online: Option<(Seq<char>, Seq<Seq<char>>)>,
) -> Result<Option<(IpACLType, Seq<Seq<char>>)>, AclError> {
    let n = (if black { 1int } else { 0 }) + (if white { 1int } else { 0 }) + (if close { 1int } else { 0 });
    let kind = requested_kind(black, white);
    let list = split(ips, seq![',']);
    if n != 1 {
        Err(AclError::ConflictingModes)
    } else if (white || black) && ips.len() == 0 {
        Err(AclError::NoIps)
    } else if close {
        Ok(Some((IpACLType::Blank, seq![])))
    } else if rewrite {
        Ok(Some((kind, list)))
    } else if online is None {
        Err(AclError::NoOnlineAcl)
    } else {
        let (otype, ovalues) = online->0;
        let adds = additions_of(list);
        let rems = removals_of(list);
        if (otype == "white"@ && white) || (otype == "black"@ && black) {
            let m = merged(adds, rems, ovalues);
            if m.len() > 0 && forall|i: int| 0 <= i < m.len() ==> ovalues.contains(#[trigger] m[i]) {
                Ok(None)
            } else {
                Ok(Some((kind_for(kind, m), m)))
            }
        } else if rems.len() > 0 {
            Err(AclError::ModeMismatch)
        } else {
            Ok(Some((kind_for(kind, adds), adds)))
        }
    }
}

pub open spec fn online_view(online: Option<&IpACL>) -> Option<(Seq<char>, Seq<Seq<char>>)> {
    match online {
        Some(a) => Some((a.ip_acltype@, string_views(a.ip_aclvalues@))),
        None => None,
    }
}

pub open spec fn plan_view(r: Result<AclUpdate, AclError>) -> Result<Option<(IpACLType, Seq<Seq<char>>)>, AclError> {
    match r {
        Ok(u) => Ok(update_view(u)),
        Err(e) => Err(e),
    }
}

/// Splits requested IPs into additions and removals, in order.
fn partition_ips(list: &Vec<String>) -> (r: (Vec<String>, Vec<String>))
    ensures
        string_views(r.0@) == additions_of(string_views(list@)),
        string_views(r.1@) == removals_of(string_views(list@)),
{
    let mut adds: Vec<String> = Vec::new();
    let mut rems: Vec<String> = Vec::new();
    let ghost lv = string_views(list@);
    let mut i: usize = 0;
    assert(string_views(adds@) =~= additions_of(lv.take(0)));
    assert(string_views(rems@) =~= removals_of(lv.take(0)));
    while i < list.len()
        invariant
            i <= list.len(),
            lv == string_views(list@),
            string_views(adds@) == additions_of(lv.take(i as int)),
            string_views(rems@) == removals_of(lv.take(i as int)),
        decreases list.len() - i,
    {
        proof {
            assert(lv.take(i + 1).drop_last() =~= lv.take(i as int));
            assert(lv.take(i + 1).last() == list@[i as int]@);
        }
        let cs = crate::text::chars_of(list[i].as_str());
        let ghost a0 = adds@;
        let ghost r0 = rems@;
        if cs.len() > 0 && cs[0] == 'd' {
            rems.push(list[i].clone());
            assert(string_views(rems@) =~= string_views(r0).push(list@[i as int]@));
        } else {
            adds.push(list[i].clone());
            assert(string_views(adds@) =~= string_views(a0).push(list@[i as int]@));
        }
        i = i + 1;
    }
    assert(lv.take(i as int) =~= lv);
    (adds, rems)
}

proof fn lemma_contains_views(v: Seq<String>, s: Seq<char>)
    ensures
        string_views(v).contains(s) == exists|i: int| 0 <= i < v.len() && (#[trigger] v[i])@ == s,
{
    if string_views(v).contains(s) {
        let i = choose|i: int| 0 <= i < string_views(v).len() && string_views(v)[i] == s;
        assert(v[i]@ == s);
    }
    if exists|i: int| 0 <= i < v.len() && (#[trigger] v[i])@ == s {
        let i = choose|i: int| 0 <= i < v.len() && (#[trigger] v[i])@ == s;
        assert(string_views(v)[i] == s);
    }
}

/// Decides the access-list change of a request, as [`acl_plan`] says.
pub fn plan_acl(
    black: bool,
    white: bool,
    close: bool,
    ips: &str,
    rewrite: bool,
    online: Option<&IpACL>,
) -> (r: Result<AclUpdate, AclError>)
    ensures
        plan_view(r) == acl_plan(black, white, close, ips@, rewrite, online_view(online)),
{
    let n: u8 = (if black { 1 } else { 0 }) + (if white { 1 } else { 0 }) + (if close { 1 } else { 0 });
    if n != 1 {
        return Err(AclError::ConflictingModes);
    }
    if (white || black) && ips.is_empty() {
        return Err(AclError::NoIps);
    }
    if close {
        let values: Vec<String> = Vec::new();
        assert(string_views(values@) =~= Seq::<Seq<char>>::empty());
        return Ok(AclUpdate::Apply { kind: IpACLType::Blank, values });
    }
    let kind = if white {
        IpACLType::White
    } else {
        IpACLType::Black
    };
    let list = split_text(ips, ',');
    assert(string_views(list@) == split(ips@, seq![',']));
    if rewrite {
        return Ok(AclUpdate::Apply { kind, values: list });
    }
    let acl = match online {
        Some(a) => a,
        None => return Err(AclError::NoOnlineAcl),
    };
    let (adds, rems) = partition_ips(&list);
    let same_kind = (text_eq(acl.ip_acltype.as_str(), "white") && white) || (text_eq(
        acl.ip_acltype.as_str(),
        "black",
    ) && black);
    if same_kind {
        let ghost ov = string_views(acl.ip_aclvalues@);
        let mut m = adds;
        let mut i: usize = 0;
        assert(ov.take(0) =~= Seq::<Seq<char>>::empty());
        while i < acl.ip_aclvalues.len()
            invariant
                i <= acl.ip_aclvalues.len(),
                ov == string_views(acl.ip_aclvalues@),
                string_views(m@) == merged(additions_of(string_views(list@)), string_views(rems@), ov.take(i as int)),
                string_views(rems@) == removals_of(string_views(list@)),
            decreases acl.ip_aclvalues.len() - i,
        {
            let o = &acl.ip_aclvalues[i];
            proof {
                assert(ov.take(i + 1).drop_last() =~= ov.take(i as int));
                assert(ov.take(i + 1).last() == o@);
            }
            let mut dv: Vec<char> = vec!['d'];
            crate::token::push_text(&mut dv, o.as_str());
            let dname = string_of(dv.as_slice());
            assert(dname@ =~= seq!['d'] + o@);
            let in_m = contains_string(&m, o);
            let removed = contains_string(&rems, &dname);
            proof {
                lemma_contains_views(m@, o@);
                lemma_contains_views(rems@, dname@);
            }
            if !in_m && !removed {
                let ghost m0 = m@;
                m.push(o.clone());
                assert(string_views(m@) =~= string_views(m0).push(o@));
            }
            i = i + 1;
        }
        assert(ov.take(i as int) =~= ov);
        let mut all_online = true;
        let mut k: usize = 0;
        while k < m.len()
            invariant
                k <= m.len(),
                all_online == forall|j: int| 0 <= j < k ==> string_views(acl.ip_aclvalues@).contains(
                    #[trigger] string_views(m@)[j],
                ),
            decreases m.len() - k,
        {
            let c = contains_string(&acl.ip_aclvalues, &m[k]);
            proof {
                lemma_contains_views(acl.ip_aclvalues@, m@[k as int]@);
                assert(string_views(m@)[k as int] == m@[k as int]@);
            }
            all_online = all_online && c;
            k = k + 1;
        }
        if all_online && m.len() > 0 {
            return Ok(AclUpdate::Unchanged);
        }
        let kind = if m.len() == 0 {
            IpACLType::Blank
        } else {
            kind
        };
        return Ok(AclUpdate::Apply { kind, values: m });
    }
    if rems.len() > 0 {
        return Err(AclError::ModeMismatch);
    }
    let kind = if adds.len() == 0 {
        IpACLType::Blank
    } else {
        kind
    };
    Ok(AclUpdate::Apply { kind, values: adds })
}


/// Items joined by a separator.
pub open spec fn joined_by(items: Seq<Seq<char>>, sep: Seq<char>) -> Seq<char>
    decreases items.len(),
{
    if items.len() == 0 {
        seq![]
    } else if items.len() == 1 {
        items[0]
    } else {
        joined_by(items.drop_last(), sep) + sep + items.last()
    }
}

/// The name of the blacklist mode: overwrite unless appending was configured.
pub open spec fn mode_name(rewrite: Option<bool>) -> Seq<char> {
    if rewrite == Some(false) {
        "追加"@
    } else {
        "覆盖"@
    }
}

/// The notification text of a blacklist change.
pub open spec fn diagnosis_message_of(domain: Seq<char>, rewrite: Option<bool>, ips: Seq<Seq<char>>) -> Seq<char> {
    "## 🔔七牛云CDN IP黑/白名单修改\n\n`"@ + domain + "`采用`"@ + mode_name(rewrite) + "`模式添加了以下IP到黑名单:\n\n- "@
        + joined_by(ips, "\n\n- "@) + "\n\n> `d`开头表示移除\n\n🚀🚀🚀"@
}

/// The notification text of a blacklist change for the chat robot.
pub fn diagnosis_message(domain: &str, rewrite: Option<bool>, ips: &Vec<String>) -> (r: String)
    ensures
        r@ == diagnosis_message_of(domain@, rewrite, string_views(ips@)),
{
    let mut out: Vec<char> = Vec::new();
    crate::token::push_text(&mut out, "## 🔔七牛云CDN IP黑/白名单修改\n\n`");
    crate::token::push_text(&mut out, domain);
    crate::token::push_text(&mut out, "`采用`");
    if rewrite == Some(false) {
        crate::token::push_text(&mut out, "追加");
    } else {
        crate::token::push_text(&mut out, "覆盖");
    }
    crate::token::push_text(&mut out, "`模式添加了以下IP到黑名单:\n\n- ");
    let ghost head = out@;
    let ghost iv = string_views(ips@);
    let mut i: usize = 0;
    assert(out@ =~= head + joined_by(iv.take(0), "\n\n- "@));
    while i < ips.len()
        invariant
            i <= ips.len(),
            iv == string_views(ips@),
            out@ == head + joined_by(iv.take(i as int), "\n\n- "@),
        decreases ips.len() - i,
    {
        proof {
            assert(iv.take(i + 1).drop_last() =~= iv.take(i as int));
            assert(iv.take(i + 1).last() == ips@[i as int]@);
        }
        if i > 0 {
            crate::token::push_text(&mut out, "\n\n- ");
        } else {
            assert(iv.take(1)[0] == ips@[0]@);
        }
        crate::token::push_text(&mut out, ips[i].as_str());
        assert(out@ =~= head + joined_by(iv.take(i + 1), "\n\n- "@));
        i = i + 1;
    }
    assert(iv.take(i as int) =~= iv);
    crate::token::push_text(&mut out, "\n\n> `d`开头表示移除\n\n🚀🚀🚀");
    assert(out@ =~= diagnosis_message_of(domain@, rewrite, string_views(ips@)));
    string_of(out.as_slice())
}

} // verus!
