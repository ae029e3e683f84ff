use vstd::prelude::*;

use crate::extensions::Extensions;
use crate::headers::{first_match, fold_lines, HeaderTable};
use crate::text::{all_dec_digits, char_pos, dec_value, find_char, parse_u64, str_eq};

verus! {

/// A protocol version as a (major, minor, patch) triple.
#[derive(Clone, Copy, PartialEq, Eq, Structural, Debug)]
pub struct Version {
    pub major: u64,
    pub minor: u64,
    pub patch: u64,
}

pub fn ver(major: u64, minor: u64) -> (v: Version)
    ensures
        v == (Version { major, minor, patch: 0 }),
{
    Version { major, minor, patch: 0 }
}

/// The transport's version tag for an inbound request.
#[derive(Clone, Copy, PartialEq, Eq, Structural, Debug)]
pub enum HttpVersion {
    Http09,
    Http10,
    Http11,
    Http20,
}

/// The closed set of methods of the neutral contract.  An extension
/// token has no variant here on purpose: mapping one must fail.
#[derive(Clone, Copy, PartialEq, Eq, Structural, Debug)]
pub enum Method {
    Connect,
    Delete,
    Get,
    Head,
    Options,
    Patch,
    Post,
    Put,
    Trace,
}

/// Which entry point of the transport produced the connection.
#[derive(Clone, Copy, PartialEq, Eq, Structural, Debug)]
pub enum Scheme {
    Http,
    Https,
}

/// Why an inbound request was rejected before the handler was invoked.
#[derive(Clone, Debug, PartialEq, Eq)]
pub enum BridgeError {
    /// The transport delivered a method token outside the closed set.
    UnsupportedMethod(String),
    /// The request target is not in absolute-path form.
    UnsupportedUriForm(String),
    /// The mandatory `Host` header is missing.
    MissingHost,
}

pub open spec fn spec_version_pair(h: HttpVersion) -> Version {
    match h {
        HttpVersion::Http09 => Version { major: 0, minor: 9, patch: 0 },
        HttpVersion::Http10 => Version { major: 1, minor: 0, patch: 0 },
        HttpVersion::Http11 => Version { major: 1, minor: 1, patch: 0 },
        HttpVersion::Http20 => Version { major: 2, minor: 0, patch: 0 },
    }
}

/// The fallible mapping from a transport method token to the closed
/// method set.
pub open spec fn method_of_token(t: Seq<char>) -> Option<Method> {
    if t == "CONNECT"@ {
        Some(Method::Connect)
    } else if t == "DELETE"@ {
        Some(Method::Delete)
    } else if t == "GET"@ {
        Some(Method::Get)
    } else if t == "HEAD"@ {
        Some(Method::Head)
    } else if t == "OPTIONS"@ {
        Some(Method::Options)
    } else if t == "PATCH"@ {
        Some(Method::Patch)
    } else if t == "POST"@ {
        Some(Method::Post)
    } else if t == "PUT"@ {
        Some(Method::Put)
    } else if t == "TRACE"@ {
        Some(Method::Trace)
    } else {
        None
    }
}

/// Map a transport method token to the closed method set; an unmapped
/// token is reported, never defaulted.
pub fn method_from_token(token: &str) -> (r: Result<Method, BridgeError>)
    ensures
        match r {
            Ok(m) => method_of_token(token@) == Some(m),
            Err(e) => {
                &&& method_of_token(token@) is None
                &&& e matches BridgeError::UnsupportedMethod(t) && t@ == token@
            },
        },
{
    if str_eq(token, "CONNECT") {
        Ok(Method::Connect)
    } else if str_eq(token, "DELETE") {
        Ok(Method::Delete)
    } else if str_eq(token, "GET") {
        Ok(Method::Get)
    } else if str_eq(token, "HEAD") {
        Ok(Method::Head)
    } else if str_eq(token, "OPTIONS") {
        Ok(Method::Options)
    } else if str_eq(token, "PATCH") {
        Ok(Method::Patch)
    } else if str_eq(token, "POST") {
        Ok(Method::Post)
    } else if str_eq(token, "PUT") {
        Ok(Method::Put)
    } else if str_eq(token, "TRACE") {
        Ok(Method::Trace)
    } else {
        Err(BridgeError::UnsupportedMethod(token.to_owned()))
    }
}

/// Method-mapping totality: each of the nine supported tokens maps to
/// its own variant, with no loss and no default.
pub proof fn lemma_method_mapping_total()
    ensures
        method_of_token("CONNECT"@) == Some(Method::Connect),
        method_of_token("DELETE"@) == Some(Method::Delete),
        method_of_token("GET"@) == Some(Method::Get),
        method_of_token("HEAD"@) == Some(Method::Head),
        method_of_token("OPTIONS"@) == Some(Method::Options),
        method_of_token("PATCH"@) == Some(Method::Patch),
        method_of_token("POST"@) == Some(Method::Post),
        method_of_token("PUT"@) == Some(Method::Put),
        method_of_token("TRACE"@) == Some(Method::Trace),
{
    reveal_strlit("CONNECT");
    reveal_strlit("DELETE");
    reveal_strlit("GET");
    reveal_strlit("HEAD");
    reveal_strlit("OPTIONS");
    reveal_strlit("PATCH");
    reveal_strlit("POST");
    reveal_strlit("PUT");
    reveal_strlit("TRACE");
    assert("CONNECT"@.len() == 7);
    assert("DELETE"@.len() == 6);
    assert("GET"@.len() == 3);
    assert("HEAD"@.len() == 4);
    assert("OPTIONS"@.len() == 7);
    assert("PATCH"@.len() == 5);
    assert("POST"@.len() == 4);
    assert("PUT"@.len() == 3);
    assert("TRACE"@.len() == 5);
    assert("CONNECT"@[0] == 'C' && "OPTIONS"@[0] == 'O');
    assert("GET"@[0] == 'G' && "PUT"@[0] == 'P');
    assert("HEAD"@[0] == 'H' && "POST"@[0] == 'P');
    assert("PATCH"@[0] == 'P' && "TRACE"@[0] == 'T');
}

/// The target is in absolute-path form: it begins with a slash.  The
/// other request-target forms (authority, asterisk, absolute-URI) do
/// not, and are unsupported.
pub open spec fn is_absolute_path(t: Seq<char>) -> bool {
    t.len() > 0 && t[0] == '/'
}

/// The part of the target before the first `?`.
pub open spec fn path_of(t: Seq<char>) -> Seq<char> {
    if char_pos(t, '?') == -1 {
        t
    } else {
        t.take(char_pos(t, '?'))
    }
}

/// The part of the target after the first `?`, if a `?` is present; a
/// trailing bare `?` yields an empty query, not an absent one.
pub open spec fn query_of(t: Seq<char>) -> Option<Seq<char>> {
    if char_pos(t, '?') == -1 {
        None
    } else {
        Some(t.skip(char_pos(t, '?') + 1))
    }
}

/// The host name within a `Host` header value: a bracketed address
/// literal is kept through its closing bracket; otherwise everything
/// before the first `:` (which starts the port) is the name.
pub open spec fn hostname_of(v: Seq<char>) -> Seq<char> {
    if v.len() > 0 && v[0] == '[' {
        if char_pos(v, ']') == -1 {
            v
        } else {
            v.take(char_pos(v, ']') + 1)
        }
    } else {
        if char_pos(v, ':') == -1 {
            v
        } else {
            v.take(char_pos(v, ':'))
        }
    }
}

/// The host name a header table yields: the first value stored for the
/// `Host` header, with any port stripped; empty if there is none.
pub open spec fn spec_host_value(t: Seq<(Seq<char>, Seq<Seq<char>>)>) -> Seq<char> {
    let i = first_match(t, "Host"@);
    if i == -1 || t[i].1.len() == 0 {
        Seq::empty()
    } else {
        hostname_of(t[i].1[0])
    }
}

/// The content length a header table yields: the first value stored for
/// `Content-Length`, if it is a well-formed decimal that fits in 64
/// bits; absent otherwise.
pub open spec fn spec_content_length(t: Seq<(Seq<char>, Seq<Seq<char>>)>) -> Option<u64> {
    let i = first_match(t, "Content-Length"@);
    if i == -1 || t[i].1.len() == 0 {
        None
    } else {
        let v = t[i].1[0];
        if v.len() > 0 && all_dec_digits(v) && dec_value(v) <= u64::MAX {
            Some(dec_value(v) as u64)
        } else {
            None
        }
    }
}

fn hostname_from_value(v: &str) -> (r: String)
    ensures
        r@ == hostname_of(v@),
{
    let n = v.unicode_len();
    if n > 0 && v.get_char(0) == '[' {
        match find_char(v, ']') {
            Some(i) => {
                let h = v.substring_char(0, i + 1);
                proof {
                    assert(h@ =~= v@.take(char_pos(v@, ']') + 1));
                }
                h.to_owned()
            },
            None => v.to_owned(),
        }
    } else {
        match find_char(v, ':') {
            Some(i) => {
                let h = v.substring_char(0, i);
                proof {
                    assert(h@ =~= v@.take(char_pos(v@, ':')));
                }
                h.to_owned()
            },
            None => v.to_owned(),
        }
    }
}

/// One inbound transport request, adapted to the neutral contract: the
/// transport's plain data, the folded header table, and a fresh
/// extension map, all owned for the connection's duration.
pub struct Request {
    version: HttpVersion,
    method: Method,
    scheme: Scheme,
    host: String,
    target: String,
    remote_addr: String,
    headers: HeaderTable,
    extensions: Extensions,
}

impl Request {
    pub closed spec fn spec_version(&self) -> HttpVersion {
        self.version
    }

    pub closed spec fn spec_method(&self) -> Method {
        self.method
    }

    pub closed spec fn spec_scheme(&self) -> Scheme {
        self.scheme
    }

    pub closed spec fn spec_host(&self) -> Seq<char> {
        self.host@
    }

    pub closed spec fn spec_target(&self) -> Seq<char> {
        self.target@
    }

    pub closed spec fn spec_remote_addr(&self) -> Seq<char> {
        self.remote_addr@
    }

    pub closed spec fn spec_headers(&self) -> Seq<(Seq<char>, Seq<Seq<char>>)> {
        self.headers@
    }

    pub closed spec fn spec_extensions(&self) -> Map<u64, Seq<u8>> {
        self.extensions@
    }

    /// Adapt one inbound request.  The method token, the target form and
    /// the mandatory `Host` header are checked here, in that order,
    /// before any handler can be invoked; the header table is folded
    /// from the raw lines as received.
    pub fn new(
        version: HttpVersion,
        method_token: &str,
        target: String,
        scheme: Scheme,
        remote_addr: String,
        raw_lines: &Vec<(String, String)>,
    ) -> (r: Result<Request, BridgeError>)
        ensures
            match r {
                Ok(req) => {
                    &&& method_of_token(method_token@) == Some(req.spec_method())
                    &&& is_absolute_path(target@)
                    &&& req.spec_version() == version
                    &&& req.spec_scheme() == scheme
                    &&& req.spec_target() == target@
                    &&& req.spec_remote_addr() == remote_addr@
                    &&& req.spec_headers() == fold_lines(raw_lines.deep_view())
                    &&& first_match(fold_lines(raw_lines.deep_view()), "Host"@) != -1
                    &&& req.spec_host() == spec_host_value(fold_lines(raw_lines.deep_view()))
                    &&& req.spec_extensions() == Map::<u64, Seq<u8>>::empty()
                },
                Err(e) => match e {
                    BridgeError::UnsupportedMethod(t) => {
                        &&& method_of_token(method_token@) is None
                        &&& t@ == method_token@
                    },
                    BridgeError::UnsupportedUriForm(t) => {
                        &&& method_of_token(method_token@) is Some
                        &&& !is_absolute_path(target@)
                        &&& t@ == target@
                    },
                    BridgeError::MissingHost => {
                        &&& method_of_token(method_token@) is Some
                        &&& is_absolute_path(target@)
                        &&& first_match(fold_lines(raw_lines.deep_view()), "Host"@) == -1
                    },
                },
            },
    {
        let method = match method_from_token(method_token) {
            Ok(m) => m,
            Err(e) => {
                return Err(e);
            },
        };
        if !(target.as_str().unicode_len() > 0 && target.as_str().get_char(0) == '/') {
            return Err(BridgeError::UnsupportedUriForm(target));
        }
        let headers = HeaderTable::from_lines(raw_lines);
        let host = match headers.find_raw("Host") {
            Some(vs) => {
                if vs.len() == 0 {
                    String::new()
                } else {
                    proof {
                        assert(vs.deep_view()[0] == vs@[0]@);
                    }
                    hostname_from_value(vs[0].as_str())
                }
            },
            None => {
                return Err(BridgeError::MissingHost);
            },
        };
        Ok(
            Request {
                version,
                method,
                scheme,
                host,
                target,
                remote_addr,
                headers,
                extensions: Extensions::new(),
            },
        )
    }

    /// The transport's version tag as a (major, minor) pair.
    pub fn http_version(&self) -> (v: Version)
        ensures
            v == spec_version_pair(self.spec_version()),
    {
        match self.version {
            HttpVersion::Http09 => ver(0, 9),
            HttpVersion::Http10 => ver(1, 0),
            HttpVersion::Http11 => ver(1, 1),
            HttpVersion::Http20 => ver(2, 0),
        }
    }

    /// The fixed version of the neutral contract this adapter presents.
    pub fn conduit_version(&self) -> (v: Version)
        ensures
            v == (Version { major: 0, minor: 1, patch: 0 }),
    {
        ver(0, 1)
    }

    pub fn method(&self) -> (m: Method)
        ensures
            m == self.spec_method(),
    {
        self.method
    }

    /// Fixed at construction from the entry point that produced the
    /// connection; never inferred from headers.
    pub fn scheme(&self) -> (s: Scheme)
        ensures
            s == self.spec_scheme(),
    {
        self.scheme
    }

    /// The name from the mandatory `Host` header, port stripped.
    pub fn host(&self) -> (h: &str)
        ensures
            h@ == self.spec_host(),
    {
        self.host.as_str()
    }

    /// This design never places the application under a virtual root.
    pub fn virtual_root(&self) -> (r: Option<&str>)
        ensures
            r is None,
    {
        None
    }

    /// The request target up to (excluding) the first `?`.
    pub fn path(&self) -> (p: &str)
        ensures
            p@ == path_of(self.spec_target()),
    {
        match find_char(self.target.as_str(), '?') {
            Some(q) => {
                let p = self.target.as_str().substring_char(0, q);
                proof {
                    assert(p@ =~= path_of(self.spec_target()));
                }
                p
            },
            None => self.target.as_str(),
        }
    }

    /// The request target after the first `?`, if one is present.
    pub fn query_string(&self) -> (r: Option<&str>)
        ensures
            match r {
                Some(q) => query_of(self.spec_target()) == Some(q@),
                None => query_of(self.spec_target()) is None,
            },
    {
        match find_char(self.target.as_str(), '?') {
            Some(q) => {
                let n = self.target.as_str().unicode_len();
                let s = self.target.as_str().substring_char(q + 1, n);
                proof {
                    assert(s@ =~= self.spec_target().skip(char_pos(self.spec_target(), '?') + 1));
                }
                Some(s)
            },
            None => None,
        }
    }

    /// The transport-reported peer address, unchanged.
    pub fn remote_addr(&self) -> (a: &str)
        ensures
            a@ == self.spec_remote_addr(),
    {
        self.remote_addr.as_str()
    }

    /// The first `Content-Length` value, when it is a well-formed
    /// decimal; bodies of unknown length report no length here.
    pub fn content_length(&self) -> (r: Option<u64>)
        ensures
            r == spec_content_length(self.spec_headers()),
    {
        match self.headers.find_raw("Content-Length") {
            Some(vs) => {
                if vs.len() == 0 {
                    None
                } else {
                    proof {
                        assert(vs.deep_view()[0] == vs@[0]@);
                    }
                    parse_u64(vs[0].as_str())
                }
            },
            None => None,
        }
    }

    /// The header table folded at construction.
    pub fn headers(&self) -> (h: &HeaderTable)
        ensures
            h@ == self.spec_headers(),
    {
        &self.headers
    }

    /// Read access to the per-request extension map.
    pub fn extensions(&self) -> (e: &Extensions)
        ensures
            e@ == self.spec_extensions(),
    {
        &self.extensions
    }

    /// Write access to the per-request extension map; everything else
    /// about the request stays as it is.
    pub fn mut_extensions(&mut self) -> (e: &mut Extensions)
        ensures
            (*e)@ == old(self).spec_extensions(),
            final(self).spec_extensions() == (*final(e))@,
            final(self).spec_version() == old(self).spec_version(),
            final(self).spec_method() == old(self).spec_method(),
            final(self).spec_scheme() == old(self).spec_scheme(),
            final(self).spec_host() == old(self).spec_host(),
            final(self).spec_target() == old(self).spec_target(),
            final(self).spec_remote_addr() == old(self).spec_remote_addr(),
            final(self).spec_headers() == old(self).spec_headers(),
    {
        &mut self.extensions
    }
}

} // verus!
