use pac4cli::handler::{destination_of, error_page, plan_connection, process_preamble, ConnectionError};
use pac4cli::preamble::{sniff_incoming_connection, IncomingResult, Preamble};
use pac4cli::suggestion::{PacEngine, ProxySuggestion};
use pac4cli::wpad::{Options, ProxyResolutionBehavior, ProxyResolver};

struct Answer(&'static str);

impl PacEngine for Answer {
    fn find_proxy(&self, _url: &str, _host: &str) -> String {
        self.0.to_string()
    }
}

fn incoming(data: &[u8]) -> IncomingResult {
    sniff_incoming_connection(&data.to_vec(), false).unwrap().unwrap()
}

fn resolver(behavior: ProxyResolutionBehavior) -> ProxyResolver {
    let mut r = ProxyResolver::load(Options { port: 3128, force_proxy: None, wpad_url: None, systemd: false });
    r.install(behavior);
    r
}

fn preamble(method: &str, uri: &str) -> Preamble {
    Preamble { method: method.to_string(), uri: uri.to_string(), http_version: "HTTP/1.1".to_string(), headers: vec![] }
}

#[test]
fn connect_direct_answers_200_and_sends_nothing_upstream() {
    let r = resolver(ProxyResolutionBehavior::Static(ProxySuggestion::Direct));
    let plan = process_preamble(incoming(b"CONNECT example.com:443 HTTP/1.1\r\n\r\n"), &r, &Answer("DIRECT")).unwrap();
    assert_eq!(plan.upstream_host, "example.com");
    assert_eq!(plan.upstream_port, 443);
    assert!(plan.to_upstream.is_empty());
    assert_eq!(plan.to_downstream, b"HTTP/1.1 200 OK\r\n\r\n".to_vec());
}

#[test]
fn http_direct_rewrites_to_origin_form() {
    let r = resolver(ProxyResolutionBehavior::Static(ProxySuggestion::Direct));
    let data = b"GET http://example.com/a?b=1 HTTP/1.1\r\nHost: example.com\r\n\r\nBODY";
    let plan = process_preamble(incoming(data), &r, &Answer("DIRECT")).unwrap();
    assert_eq!(plan.upstream_host, "example.com");
    assert_eq!(plan.upstream_port, 80);
    assert_eq!(plan.to_upstream, b"GET /a?b=1 HTTP/1.1\r\nHost: example.com\r\n\r\nBODY".to_vec());
    assert!(plan.to_downstream.is_empty());
}

#[test]
fn http_through_proxy_keeps_absolute_form() {
    let r = resolver(ProxyResolutionBehavior::WPAD("script".to_string()));
    let data = b"GET http://example.com/a?b=1 HTTP/1.1\r\nHost: example.com\r\n\r\nBODY";
    let plan = process_preamble(incoming(data), &r, &Answer("PROXY up")).unwrap();
    assert_eq!(plan.upstream_host, "up");
    assert_eq!(plan.upstream_port, 3128);
    assert_eq!(plan.to_upstream, data.to_vec());
    assert!(plan.to_downstream.is_empty());
}

#[test]
fn connect_through_proxy_forwards_the_request() {
    let r = resolver(ProxyResolutionBehavior::Static(ProxySuggestion::Proxy { host: "up".to_string(), port: Some(8080) }));
    let data = b"CONNECT example.com:443 HTTP/1.1\r\n\r\nhello";
    let plan = process_preamble(incoming(data), &r, &Answer("DIRECT")).unwrap();
    assert_eq!(plan.upstream_host, "up");
    assert_eq!(plan.upstream_port, 8080);
    assert_eq!(plan.to_upstream, data.to_vec());
    assert!(plan.to_downstream.is_empty());
}

#[test]
fn destination_defaults_and_paths() {
    let d = destination_of(&preamble("GET", "https://secure.example")).unwrap();
    assert_eq!(d.host, "secure.example");
    assert_eq!(d.port, 443);
    assert_eq!(d.origin_form, Some("/".to_string()));
    assert_eq!(d.url, "https://secure.example");
    let d = destination_of(&preamble("GET", "http://h:8080/p/q.html")).unwrap();
    assert_eq!(d.port, 8080);
    assert_eq!(d.origin_form, Some("/p/q.html".to_string()));
    let d = destination_of(&preamble("CONNECT", "h.example:8443")).unwrap();
    assert_eq!((d.host.as_str(), d.port, d.url.as_str()), ("h.example", 8443, "h.example"));
    assert_eq!(d.origin_form, None);
}

#[test]
fn bad_targets_are_connection_errors() {
    assert_eq!(destination_of(&preamble("CONNECT", "example.com")).unwrap_err(), ConnectionError::BadConnectTarget);
    assert_eq!(destination_of(&preamble("CONNECT", "example.com:")).unwrap_err(), ConnectionError::BadConnectTarget);
    assert_eq!(destination_of(&preamble("CONNECT", ":443")).unwrap_err(), ConnectionError::BadConnectTarget);
    assert_eq!(destination_of(&preamble("CONNECT", "h:1:2")).unwrap_err(), ConnectionError::BadConnectTarget);
    assert_eq!(destination_of(&preamble("GET", "/relative")).unwrap_err(), ConnectionError::BadUri);
    assert!(destination_of(&preamble("connect", "example.com:443")).unwrap().origin_form.is_some());
    let r = resolver(ProxyResolutionBehavior::Static(ProxySuggestion::Direct));
    let res = process_preamble(incoming(b"GET not-a-uri HTTP/1.1\r\n\r\n"), &r, &Answer("DIRECT"));
    assert_eq!(res.unwrap_err(), ConnectionError::BadUri);
}

#[test]
fn error_page_text() {
    assert_eq!(error_page(), b"<h1>Could not connect</h1>".to_vec());
}

#[test]
fn plan_for_direct_request_uses_destination_port() {
    let inc = incoming(b"GET http://example.com:81/ HTTP/1.1\r\n\r\n");
    let d = destination_of(&inc.preamble).unwrap();
    let plan = plan_connection(inc, d, &ProxySuggestion::Direct);
    assert_eq!(plan.upstream_port, 81);
    assert_eq!(plan.to_upstream, b"GET / HTTP/1.1\r\n\r\n".to_vec());
}
