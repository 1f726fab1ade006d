use vstd::prelude::*;
use vstd::string::*;
use vstd::utf8::*;

use crate::preamble::{preamble_bytes, IncomingResult, Preamble, PreambleView};
use crate::suggestion::{PacEngine, ProxySuggestion, SuggestionView};
use crate::text::{find_char, find_from, lemma_find_from_found, parse_port, port_value, starts_with_chars};
use crate::wpad::{opt_view, ProxyResolver};

verus! {

/// The parts of an absolute URI that routing reads.
pub struct UriParts {
    pub scheme: String,
    pub host: Option<String>,
    pub port: Option<u16>,
    pub path: Option<String>,
    pub query: Option<String>,
}

/// Scheme, host, port, path and query of `s`, when it parses as a URI.
pub uninterp spec fn uri_parse(s: Seq<char>) -> Option<
    (Seq<char>, Option<Seq<char>>, Option<u16>, Option<Seq<char>>, Option<Seq<char>>),
>;

pub open spec fn uri_parts_view(r: Option<UriParts>) -> Option<
    (Seq<char>, Option<Seq<char>>, Option<u16>, Option<Seq<char>>, Option<Seq<char>>),
> {
    match r {
        Some(u) => Some((u.scheme@, opt_view(u.host), u.port, opt_view(u.path), opt_view(u.query))),
        None => None,
    }
}

/// Relies on uri::Uri::new: whether a text parses, and the parts it yields,
/// depend on the text alone.
#[verifier::external_body]
fn parse_uri(s: &str) -> (r: Option<UriParts>)
    ensures
        uri_parts_view(r) == uri_parse(s@),
{
    match uri::Uri::new(s) {
        Ok(u) => Some(
            UriParts { scheme: u.scheme, host: u.host, port: u.port, path: u.path, query: u.query },
        ),
        Err(_) => None,
    }
}

/// Why a connection cannot be routed.
#[derive(Debug, Clone, Copy, PartialEq, Eq, Structural)]
pub enum ConnectionError {
    /// A `CONNECT` target that is not `host:port`.
    BadConnectTarget,
    /// A request URI that is not absolute, or has no host.
    BadUri,
}

/// Where a request is headed, and what the script is asked about.
#[derive(Debug)]
pub struct Destination {
    /// The URL handed to the script.
    pub url: String,
    pub host: String,
    pub port: u16,
    /// The request target to send to an origin server; none for a tunnel.
    pub origin_form: Option<String>,
}

pub struct DestinationView {
    pub url: Seq<char>,
    pub host: Seq<char>,
    pub port: u16,
    pub origin_form: Option<Seq<char>>,
}

impl View for Destination {
    type V = DestinationView;

    open spec fn view(&self) -> DestinationView {
        DestinationView {
            url: self.url@,
            host: self.host@,
            port: self.port,
            origin_form: opt_view(self.origin_form),
        }
    }
}

pub open spec fn connect_word() -> Seq<char> {
    seq!['C', 'O', 'N', 'N', 'E', 'C', 'T']
}

pub open spec fn https_word() -> Seq<char> {
    seq!['h', 't', 't', 'p', 's']
}

/// The host and port of a `CONNECT` target `host:port`; the host is not
/// empty and the port is decimal digits that fit in 16 bits.
pub open spec fn connect_target(uri: Seq<char>) -> Option<(Seq<char>, u16)> {
    match find_from(uri, seq![':'], 0) {
        Some(i) => match port_value(uri.skip(i + 1)) {
            Some(p) => if i > 0 {
                Some((uri.take(i), p))
            } else {
                None
            },
            None => None,
        },
        None => None,
    }
}

/// Path and query as an origin server expects them: the path, `/` when
/// there is none, then `?` and the query when there is one.
pub open spec fn origin_form_of(path: Option<Seq<char>>, query: Option<Seq<char>>) -> Seq<char> {
    (match path {
        Some(p) => p,
        None => seq!['/'],
    }) + (match query {
        Some(q) => seq!['?'] + q,
        None => Seq::<char>::empty(),
    })
}

/// The port that a scheme implies: 443 for `https`, 80 otherwise.
pub open spec fn default_port(scheme: Seq<char>) -> u16 {
    if scheme == https_word() {
        443
    } else {
        80
    }
}

/// Where the request of preamble `p` is headed.
pub open spec fn destination_spec(p: PreambleView) -> Result<DestinationView, ConnectionError> {
    if p.method == connect_word() {
        match connect_target(p.uri) {
            Some((h, port)) => Ok(DestinationView { url: h, host: h, port, origin_form: None }),
            None => Err(ConnectionError::BadConnectTarget),
        }
    } else {
        match uri_parse(p.uri) {
            Some((scheme, host, port, path, query)) => match host {
                Some(h) => Ok(
                    DestinationView {
                        url: p.uri,
                        host: h,
                        port: match port {
                            Some(n) => n,
                            None => default_port(scheme),
                        },
                        origin_form: Some(origin_form_of(path, query)),
                    },
                ),
                None => Err(ConnectionError::BadUri),
            },
            None => Err(ConnectionError::BadUri),
        }
    }
}

pub open spec fn destination_view(r: Result<Destination, ConnectionError>) -> Result<
    DestinationView,
    ConnectionError,
> {
    match r {
        Ok(d) => Ok(d@),
        Err(e) => Err(e),
    }
}

/// Where the request of `preamble` is headed: a `CONNECT` names `host:port`;
/// any other method carries an absolute URI.
pub fn destination_of(preamble: &Preamble) -> (r: Result<Destination, ConnectionError>)
    ensures
        destination_view(r) == destination_spec(preamble@),
{
    let connect = vec!['C', 'O', 'N', 'N', 'E', 'C', 'T'];
    let method = preamble.method.as_str();
    let is_connect = method.unicode_len() == 7 && starts_with_chars(method, &connect);
    assert(is_connect == (preamble@.method == connect_word())) by {
        if method@.len() == 7 {
            assert(method@.take(7) =~= method@);
        }
    }
    let uri = preamble.uri.as_str();
    if is_connect {
        let n = uri.unicode_len();
        match find_char(uri, ':', 0) {
            None => Err(ConnectionError::BadConnectTarget),
            Some(i) => {
                proof {
                    lemma_find_from_found(uri@, seq![':'], 0);
                }
                assert(i < n);
                match parse_port(uri, i + 1) {
                    None => Err(ConnectionError::BadConnectTarget),
                    Some(port) => {
                        if i == 0 {
                            return Err(ConnectionError::BadConnectTarget);
                        }
                        let host = uri.substring_char(0, i).to_owned();
                        let url = uri.substring_char(0, i).to_owned();
                        assert(host@ =~= uri@.take(i as int));
                        Ok(Destination { url, host, port, origin_form: None })
                    },
                }
            },
        }
    } else {
        match parse_uri(uri) {
            None => Err(ConnectionError::BadUri),
            Some(parts) => {
                let host = match parts.host {
                    Some(h) => h,
                    None => {
                        return Err(ConnectionError::BadUri);
                    },
                };
                let port = match parts.port {
                    Some(p) => p,
                    None => {
                        let https = vec!['h', 't', 't', 'p', 's'];
                        let scheme = parts.scheme.as_str();
                        let is_https = scheme.unicode_len() == 5 && starts_with_chars(
                            scheme,
                            &https,
                        );
                        assert(is_https == (scheme@ == https_word())) by {
                            if scheme@.len() == 5 {
                                assert(scheme@.take(5) =~= scheme@);
                            }
                        }
                        if is_https {
                            443
                        } else {
                            80
                        }
                    },
                };
                let mut origin = match parts.path {
                    Some(p) => p,
                    None => "/".to_owned(),
                };
                proof {
                    reveal_strlit("/");
                    reveal_strlit("?");
                }
                match &parts.query {
                    Some(q) => {
                        origin.append("?");
                        origin.append(q.as_str());
                    },
                    None => {},
                }
                assert(origin@ =~= origin_form_of(opt_view(parts.path), opt_view(parts.query)));
                let url = preamble.uri.clone();
                Ok(Destination { url, host, port, origin_form: Some(origin) })
            },
        }
    }
}

/// What to do with a connection: where to connect, what to send upstream
/// first, and what to answer downstream before the two are spliced.
#[derive(Debug)]
pub struct ConnectionPlan {
    pub upstream_host: String,
    pub upstream_port: u16,
    pub to_upstream: Vec<u8>,
    pub to_downstream: Vec<u8>,
}

pub struct PlanView {
    pub upstream_host: Seq<char>,
    pub upstream_port: u16,
    pub to_upstream: Seq<u8>,
    pub to_downstream: Seq<u8>,
}

impl View for ConnectionPlan {
    type V = PlanView;

    open spec fn view(&self) -> PlanView {
        PlanView {
            upstream_host: self.upstream_host@,
            upstream_port: self.upstream_port,
            to_upstream: self.to_upstream@,
            to_downstream: self.to_downstream@,
        }
    }
}

/// The answer that opens a tunnel.
pub open spec fn tunnel_established() -> Seq<u8> {
    encode_utf8("HTTP/1.1 200 OK\r\n\r\n"@)
}

/// The page sent to a client whose request cannot be forwarded.
pub open spec fn could_not_connect() -> Seq<u8> {
    encode_utf8("<h1>Could not connect</h1>"@)
}

/// The port of an upstream proxy that names none.
pub open spec fn default_proxy_port() -> u16 {
    3128
}

/// The plan for a request with preamble `p`, the bytes `buffered` after it,
/// destination `d`, and suggestion `s`:
/// - direct tunnel: connect to the destination, send nothing, answer `200 OK`;
/// - direct request: connect to the destination and send the preamble with
///   its target in origin form, then the buffered bytes;
/// - through a proxy: connect to it (port 3128 when it names none) and send
///   the preamble as it came, then the buffered bytes.
pub open spec fn plan_spec(
    p: PreambleView,
    buffered: Seq<u8>,
    d: DestinationView,
    s: SuggestionView,
) -> PlanView {
    match s {
        SuggestionView::Direct => match d.origin_form {
            None => PlanView {
                upstream_host: d.host,
                upstream_port: d.port,
                to_upstream: Seq::<u8>::empty(),
                to_downstream: tunnel_established(),
            },
            Some(o) => PlanView {
                upstream_host: d.host,
                upstream_port: d.port,
                to_upstream: preamble_bytes(PreambleView { uri: o, ..p }) + buffered,
                to_downstream: Seq::<u8>::empty(),
            },
        },
        SuggestionView::Proxy(h, port) => PlanView {
            upstream_host: h,
            upstream_port: match port {
                Some(n) => n,
                None => default_proxy_port(),
            },
            to_upstream: preamble_bytes(p) + buffered,
            to_downstream: Seq::<u8>::empty(),
        },
    }
}

fn bytes_of(s: &str) -> (r: Vec<u8>)
    ensures
        r@ == encode_utf8(s@),
{
    let mut v: Vec<u8> = Vec::new();
    v.extend_from_slice(s.as_bytes());
    assert(v@ =~= encode_utf8(s@));
    v
}

/// The page sent to a client whose request cannot be forwarded.
pub fn error_page() -> (r: Vec<u8>)
    ensures
        r@ == could_not_connect(),
{
    bytes_of("<h1>Could not connect</h1>")
}

/// Decides how to serve a request, given where it is headed and what the
/// resolver suggested.
pub fn plan_connection(incoming: IncomingResult, dest: Destination, suggestion: &ProxySuggestion) -> (r:
    ConnectionPlan)
    ensures
        r@ == plan_spec(incoming.preamble@, incoming.buffered@, dest@, suggestion@),
{
    let IncomingResult { preamble, buffered } = incoming;
    let ghost p = preamble@;
    match suggestion {
        ProxySuggestion::Direct => match dest.origin_form {
            None => ConnectionPlan {
                upstream_host: dest.host,
                upstream_port: dest.port,
                to_upstream: Vec::new(),
                to_downstream: bytes_of("HTTP/1.1 200 OK\r\n\r\n"),
            },
            Some(origin) => {
                let Preamble { method, uri: _, http_version, headers } = preamble;
                let rewritten = Preamble { method, uri: origin, http_version, headers };
                assert(rewritten@ == PreambleView { uri: rewritten@.uri, ..p });
                let mut out = rewritten.write();
                let mut rest = buffered;
                out.append(&mut rest);
                ConnectionPlan {
                    upstream_host: dest.host,
                    upstream_port: dest.port,
                    to_upstream: out,
                    to_downstream: Vec::new(),
                }
            },
        },
        ProxySuggestion::Proxy { host, port } => {
            let mut out = preamble.write();
            let mut rest = buffered;
            out.append(&mut rest);
            let upstream_port = match port {
                Some(n) => *n,
                None => 3128,
            };
            ConnectionPlan {
                upstream_host: host.clone(),
                upstream_port,
                to_upstream: out,
                to_downstream: Vec::new(),
            }
        },
    }
}

/// Routes a request whose preamble has been read: finds its destination,
/// asks the resolver, and plans the connection. Fails exactly when the
/// destination cannot be read; otherwise the plan follows the resolver's
/// suggestion, which is the static one when the behaviour is static.
pub fn process_preamble<E: PacEngine>(
    incoming: IncomingResult,
    resolver: &ProxyResolver,
    engine: &E,
) -> (r: Result<ConnectionPlan, ConnectionError>)
    requires
        resolver.wf(),
    ensures
        match destination_spec(incoming.preamble@) {
            Err(e) => r == Err::<ConnectionPlan, ConnectionError>(e),
            Ok(d) => r is Ok && exists|s: SuggestionView|
                {
                    &&& r->Ok_0@ == #[trigger] plan_spec(
                        incoming.preamble@,
                        incoming.buffered@,
                        d,
                        s,
                    )
                    &&& resolver.behavior() is Static ==> s == resolver.behavior()->Static_0
                    &&& resolver.flags().force_proxy is Some ==> s
                        == resolver.flags().force_proxy->Some_0@
                },
        },
{
    let dest = match destination_of(&incoming.preamble) {
        Ok(d) => d,
        Err(e) => return Err(e),
    };
    let suggestion = resolver.find_proxy(engine, dest.url.as_str(), dest.host.as_str());
    let ghost d = dest@;
    let ghost p = incoming.preamble@;
    let ghost b = incoming.buffered@;
    let plan = plan_connection(incoming, dest, &suggestion);
    assert(plan@ == plan_spec(p, b, d, suggestion@));
    Ok(plan)
}

} // verus!
