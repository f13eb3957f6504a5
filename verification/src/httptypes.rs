//! Basic HTTP vocabulary shared by the whole library: methods, schemes,
//! redirect codes, and the plain response value the rule interpreter
//! produces.

use vstd::prelude::*;

verus! {

/// The request methods the gateway can match on.
#[derive(Debug, Clone, Copy, PartialEq, Eq, Structural)]
pub enum HttpMethod {
    Get,
    Post,
    Put,
    Patch,
    Delete,
    Head,
    Options,
}

impl HttpMethod {
    /// The canonical upper-case name of the method.
    pub fn name(&self) -> (r: &'static str)
        ensures
            r@ == self.spec_name(),
    {
        proof {
            reveal_strlit("GET");
            reveal_strlit("POST");
            reveal_strlit("PUT");
            reveal_strlit("PATCH");
            reveal_strlit("DELETE");
            reveal_strlit("HEAD");
            reveal_strlit("OPTIONS");
        }
        match self {
            HttpMethod::Get => "GET",
            HttpMethod::Post => "POST",
            HttpMethod::Put => "PUT",
            HttpMethod::Patch => "PATCH",
            HttpMethod::Delete => "DELETE",
            HttpMethod::Head => "HEAD",
            HttpMethod::Options => "OPTIONS",
        }
    }

    pub open spec fn spec_name(self) -> Seq<char> {
        match self {
            HttpMethod::Get => "GET"@,
            HttpMethod::Post => "POST"@,
            HttpMethod::Put => "PUT"@,
            HttpMethod::Patch => "PATCH"@,
            HttpMethod::Delete => "DELETE"@,
            HttpMethod::Head => "HEAD"@,
            HttpMethod::Options => "OPTIONS"@,
        }
    }
}

/// URL scheme of a target or a rewritten request.
#[derive(Debug, Clone, Copy, PartialEq, Eq, Structural)]
pub enum Scheme {
    Http,
    Https,
}

impl Scheme {
    /// The scheme's lower-case name.
    pub fn name(&self) -> (r: &'static str)
        ensures
            r@ == self.spec_name(),
    {
        match self {
            Scheme::Http => "http",
            Scheme::Https => "https",
        }
    }

    pub open spec fn spec_name(self) -> Seq<char> {
        match self {
            Scheme::Http => "http"@,
            Scheme::Https => "https"@,
        }
    }
}

/// The host header value for a forward target: the port is dropped
/// when it is the scheme's default.
pub fn format_host(host: &str, port: u16, scheme: Scheme) -> (r: String)
    ensures
        (scheme == Scheme::Http && port == 80) || (scheme == Scheme::Https && port == 443)
            ==> r@ == host@,
        !((scheme == Scheme::Http && port == 80) || (scheme == Scheme::Https && port == 443))
            ==> r@ == host@ + ":"@ + crate::strutil::dec_str(port as nat),
{
    let default_port = match scheme {
        Scheme::Http => port == 80,
        Scheme::Https => port == 443,
    };
    if default_port {
        host.to_owned()
    } else {
        let mut out = host.to_owned();
        out.append(":");
        let d = crate::strutil::u16_dec(port);
        out.append(d.as_str());
        out
    }
}

/// A plain HTTP response value: what the rule interpreter produces.
#[derive(Debug, Clone)]
pub struct HttpResponse {
    pub status: u16,
    pub headers: Vec<(String, String)>,
    pub body: String,
}

/// Mathematical image of a response.
pub struct RespModel {
    pub status: u16,
    pub headers: Seq<(Seq<char>, Seq<char>)>,
    pub body: Seq<char>,
}

impl HttpResponse {
    pub open spec fn model(&self) -> RespModel {
        RespModel { status: self.status, headers: self.headers.deep_view(), body: self.body@ }
    }
}

/// The error response for a status and a short message: no headers,
/// the message as body.
pub fn make_error_resp(status: u16, msg: &str) -> (r: HttpResponse)
    ensures
        r.model().status == status,
        r.model().headers == Seq::<(Seq<char>, Seq<char>)>::empty(),
        r.model().body == msg@,
{
    let r = HttpResponse { status, headers: Vec::new(), body: msg.to_owned() };
    proof {
        assert(r.model().headers =~= Seq::<(Seq<char>, Seq<char>)>::empty());
    }
    r
}

} // verus!
