//! Management client library for a CDN account: request signing, access-log
//! retrieval planning and filtering, and IP diagnosis policies.

use vstd::prelude::*;

pub mod analysis;
pub mod config;
pub mod dates;
pub mod domain;
pub mod log;
pub mod monitor;
pub mod policy;
pub mod text;
pub mod token;
pub mod utils;

use crate::config::Config;
use crate::text::text_eq;
use crate::token::{
    opt_bytes, opt_str, push_text, result_view, v1_result, v2_result, header_views,
    ManageTokenGenerator, SignError, SignMethod,
};

verus! {

/// The groups of functions of the management API.
#[derive(Debug, Clone, Copy, PartialEq, Eq, Structural)]
pub enum SubFunctionEnum {
    Traffic,
    Refresh,
    Log,
    Domain,
    Prefetch,
    AnalysisTop,
    AnalysisStatus,
    AnalysisIsp,
    AnalysisHitmiss,
    AnalysisCount,
}

impl SubFunctionEnum {
    /// The signing generation of the group: the second for logs, refresh and prefetch.
    pub fn get_sign_method(&self) -> (r: SignMethod)
        ensures
            r == sign_method_of(*self),
    {
        match self {
            SubFunctionEnum::Log | SubFunctionEnum::Refresh | SubFunctionEnum::Prefetch => {
                SignMethod::Method2
            },
            _ => SignMethod::Method1,
        }
    }

    /// The API host of the group.
    pub fn get_host(&self) -> (r: &'static str)
        ensures
            r@ == host_of(*self),
    {
        if *self == SubFunctionEnum::Domain {
            "api.qiniu.com"
        } else {
            "fusion.qiniuapi.com"
        }
    }
}

pub open spec fn sign_method_of(f: SubFunctionEnum) -> SignMethod {
    match f {
        SubFunctionEnum::Log | SubFunctionEnum::Refresh | SubFunctionEnum::Prefetch => {
            SignMethod::Method2
        },
        _ => SignMethod::Method1,
    }
}

pub open spec fn host_of(f: SubFunctionEnum) -> Seq<char> {
    if f == SubFunctionEnum::Domain {
        "api.qiniu.com"@
    } else {
        "fusion.qiniuapi.com"@
    }
}

/// The error body of the management API.
#[derive(Debug)]
pub struct BaseResponse {
    pub code: i32,
    pub error: String,
}

/// HTTP methods the client sends.
#[derive(Debug, Clone, Copy, PartialEq, Eq, Structural)]
pub enum HttpMethod {
    Get,
    Post,
    Put,
}

/// A client of one group of functions, holding the credential.
pub struct Client {
    access_key: String,
    secret_key: String,
    host: String,
    sign_method: SignMethod,
    debug: bool,
    domain_dir: bool,
}

/// The value of the `Authorization` header: the scheme of the generation, a
/// space, and the token.
pub open spec fn authorization_of(method: SignMethod, token: Result<Seq<char>, SignError>) -> Result<
    Seq<char>,
    SignError,
> {
    match token {
        Ok(t) => Ok(
            match method {
                SignMethod::Method1 => "QBox "@ + t,
                SignMethod::Method2 => "Qiniu "@ + t,
            },
        ),
        Err(e) => Err(e),
    }
}

impl Client {
    /// The credential: access key and secret key.
    pub closed spec fn credential(&self) -> (Seq<char>, Seq<char>) {
        (self.access_key@, self.secret_key@)
    }

    /// The signing generation this client uses.
    pub closed spec fn method(&self) -> SignMethod {
        self.sign_method
    }

    /// The API host this client calls.
    pub closed spec fn host_spec(&self) -> Seq<char> {
        self.host@
    }

    /// Whether requests and responses are echoed.
    pub closed spec fn debug_spec(&self) -> bool {
        self.debug
    }

    /// Whether downloaded logs go to a directory of their domain.
    pub closed spec fn domain_dir_spec(&self) -> bool {
        self.domain_dir
    }

    pub fn new(config: &Config, sub_func: SubFunctionEnum) -> (r: Self)
        ensures
            r.credential() == (config.cdn.access_key@, config.cdn.secret_key@),
            r.method() == sign_method_of(sub_func),
            r.host_spec() == host_of(sub_func),
            r.debug_spec() == (config.debug == Some(true)),
            r.domain_dir_spec() == (config.download_log_domain_dir != Some(false)),
    {
        Client {
            access_key: config.cdn.access_key.clone(),
            secret_key: config.cdn.secret_key.clone(),
            host: sub_func.get_host().to_owned(),
            sign_method: sub_func.get_sign_method(),
            debug: match config.debug {
                Some(d) => d,
                None => false,
            },
            domain_dir: match config.download_log_domain_dir {
                Some(d) => d,
                None => true,
            },
        }
    }

    /// The API host this client calls.
    pub fn host(&self) -> (r: &str)
        ensures
            r@ == self.host_spec(),
    {
        self.host.as_str()
    }

    /// Whether requests and responses are to be echoed; off unless configured.
    pub fn debug(&self) -> (r: bool)
        ensures
            r == self.debug_spec(),
    {
        self.debug
    }

    /// Whether downloaded logs go to a directory of their domain; on unless configured off.
    pub fn domain_dir(&self) -> (r: bool)
        ensures
            r == self.domain_dir_spec(),
    {
        self.domain_dir
    }

    /// The `Authorization` header value of a request, signed with this client's generation.
    pub fn authorization(
        &self,
        method: &str,
        url: &str,
        headers: &Vec<(String, String)>,
        content_type: Option<&str>,
        body: Option<&[u8]>,
    ) -> (r: Result<String, SignError>)
        ensures
            result_view(r) == authorization_of(
                self.method(),
                match self.method() {
                    SignMethod::Method1 => v1_result(
                        self.credential().0,
                        self.credential().1,
                        url@,
                        opt_str(content_type),
                        opt_bytes(body),
                    ),
                    SignMethod::Method2 => v2_result(
                        self.credential().0,
                        self.credential().1,
                        method@,
                        url@,
                        header_views(headers@),
                        opt_str(content_type),
                        opt_bytes(body),
                    ),
                },
            ),
    {
        let generator = ManageTokenGenerator::new(self.access_key.clone(), self.secret_key.clone());
        let token = match self.sign_method {
            SignMethod::Method1 => generator.generate_v1(url, content_type, body),
            SignMethod::Method2 => generator.generate_v2(method, url, headers, content_type, body),
        };
        match token {
            Ok(t) => {
                let mut out: Vec<char> = Vec::new();
                match self.sign_method {
                    SignMethod::Method1 => push_text(&mut out, "QBox "),
                    SignMethod::Method2 => push_text(&mut out, "Qiniu "),
                }
                push_text(&mut out, t.as_str());
                Ok(crate::text::string_of(out.as_slice()))
            },
            Err(e) => Err(e),
        }
    }
}

/// The method that a name denotes, in any case.
pub open spec fn http_method_of(upper: Seq<char>) -> Option<HttpMethod> {
    if upper == "GET"@ {
        Some(HttpMethod::Get)
    } else if upper == "POST"@ {
        Some(HttpMethod::Post)
    } else if upper == "PUT"@ {
        Some(HttpMethod::Put)
    } else {
        None
    }
}

/// Reads a method name, in any case; `None` for a method the client does not send.
pub fn parse_method(name: &str) -> (r: Option<HttpMethod>)
    ensures
        r == http_method_of(crate::token::upper_of(name@)),
{
    let u = crate::token::upper(name);
    if text_eq(u.as_str(), "GET") {
        Some(HttpMethod::Get)
    } else if text_eq(u.as_str(), "POST") {
        Some(HttpMethod::Post)
    } else if text_eq(u.as_str(), "PUT") {
        Some(HttpMethod::Put)
    } else {
        None
    }
}

} // verus!
