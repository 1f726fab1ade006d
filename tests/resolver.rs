use pac4cli::suggestion::{find_proxy_suggestions, first_suggestion, PacEngine, ProxySuggestion};
use pac4cli::wpad::{
    first_working_script, get_wpad_urls, FetchOutcome, Options, ProxyResolutionBehavior, ProxyResolver,
    ReloadAction, ReloadEvent, WPADInfo,
};

struct Answer(&'static str);

impl PacEngine for Answer {
    fn find_proxy(&self, _url: &str, _host: &str) -> String {
        self.0.to_string()
    }
}

fn proxy(host: &str, port: Option<u16>) -> ProxySuggestion {
    ProxySuggestion::Proxy { host: host.to_string(), port }
}

fn options(force_proxy: Option<ProxySuggestion>, wpad_url: Option<&str>) -> Options {
    Options { port: 3128, force_proxy, wpad_url: wpad_url.map(String::from), systemd: false }
}

#[test]
fn suggestion_parsing() {
    assert_eq!(ProxySuggestion::parse("DIRECT"), ProxySuggestion::Direct);
    assert_eq!(ProxySuggestion::parse("PROXY h"), proxy("h", None));
    assert_eq!(ProxySuggestion::parse("PROXY h:7"), proxy("h", Some(7)));
    assert_eq!(ProxySuggestion::parse("GARBAGE"), ProxySuggestion::Direct);
}

#[test]
fn suggestion_parsing_edge_cases() {
    assert_eq!(ProxySuggestion::parse("direct"), ProxySuggestion::Direct);
    assert_eq!(ProxySuggestion::parse("PROXY proxy.corp:65535"), proxy("proxy.corp", Some(65535)));
    assert_eq!(ProxySuggestion::parse("PROXY h:65536"), ProxySuggestion::Direct);
    assert_eq!(ProxySuggestion::parse("PROXY h:x"), ProxySuggestion::Direct);
    assert_eq!(ProxySuggestion::parse("PROXY h:"), ProxySuggestion::Direct);
    assert_eq!(ProxySuggestion::parse("PROXY "), proxy("", None));
    assert_eq!(ProxySuggestion::parse("PROXYh"), ProxySuggestion::Direct);
    assert_eq!(ProxySuggestion::parse(""), ProxySuggestion::Direct);
    assert_ne!(proxy("a", Some(1)), proxy("a", Some(2)));
    assert_ne!(proxy("a", None), ProxySuggestion::Direct);
}

#[test]
fn answer_is_split_on_semicolons() {
    let all = find_proxy_suggestions("PROXY a:1;DIRECT;PROXY b");
    assert_eq!(all, vec![proxy("a", Some(1)), ProxySuggestion::Direct, proxy("b", None)]);
    assert_eq!(find_proxy_suggestions(""), vec![ProxySuggestion::Direct]);
    assert_eq!(first_suggestion("PROXY a:1; DIRECT"), proxy("a", Some(1)));
    assert_eq!(first_suggestion("DIRECT"), ProxySuggestion::Direct);
}

#[test]
fn wpad_urls_from_search_domains() {
    let info = WPADInfo { wpad_option: None, domains: vec!["a".to_string(), "b".to_string()] };
    assert_eq!(get_wpad_urls(&info), vec!["http://wpad.a/wpad.dat".to_string(), "http://wpad.b/wpad.dat".to_string()]);
}

#[test]
fn wpad_url_from_dhcp_option_wins() {
    let info = WPADInfo {
        wpad_option: Some("http://conf/proxy.pac".to_string()),
        domains: vec!["a".to_string()],
    };
    assert_eq!(get_wpad_urls(&info), vec!["http://conf/proxy.pac".to_string()]);
    let empty = WPADInfo { wpad_option: None, domains: vec![] };
    assert!(get_wpad_urls(&empty).is_empty());
}

fn response(status: u16, body: &str) -> FetchOutcome {
    FetchOutcome::Response { status, body: Some(body.to_string()) }
}

#[test]
fn first_ok_response_is_the_script() {
    let outcomes = vec![response(404, "no"), response(500, "err"), response(200, "X"), response(200, "Y")];
    assert_eq!(first_working_script(&outcomes), Some("X".to_string()));
}

#[test]
fn failures_and_non_text_bodies_are_skipped() {
    let outcomes = vec![
        FetchOutcome::Failed,
        FetchOutcome::Response { status: 200, body: None },
        response(200, "Z"),
    ];
    assert_eq!(first_working_script(&outcomes), Some("Z".to_string()));
    assert_eq!(first_working_script(&vec![FetchOutcome::Failed, response(301, "")]), None);
    assert_eq!(first_working_script(&vec![]), None);
}

#[test]
fn options_take_config_url_only_as_fallback() {
    let cli = options(None, Some("http://cli/wpad.dat"));
    let merged = Options::load(&cli, Some("http://file/wpad.dat".to_string()));
    assert_eq!(merged.wpad_url, Some("http://cli/wpad.dat".to_string()));
    let bare = options(Some(ProxySuggestion::Direct), None);
    let merged = Options::load(&bare, Some("http://file/wpad.dat".to_string()));
    assert_eq!(merged.wpad_url, Some("http://file/wpad.dat".to_string()));
    assert_eq!(merged.force_proxy, Some(ProxySuggestion::Direct));
    assert_eq!(merged.port, 3128);
}

fn installed(action: ReloadAction) -> ProxyResolutionBehavior {
    match action {
        ReloadAction::Install(b) => b,
        other => panic!("expected an install, got {:?}", other),
    }
}

#[test]
fn forced_proxy_wins_whatever_is_discovered() {
    let forced = proxy("corp", Some(8080));
    let mut r = ProxyResolver::load(options(Some(forced.clone()), Some("http://x/wpad.dat")));
    let engine = Answer("DIRECT");
    assert_eq!(r.find_proxy(&engine, "http://a/", "a"), forced);
    let events = vec![
        ReloadEvent::Begin,
        ReloadEvent::EnvironmentFailed,
        ReloadEvent::ScriptFetched(None),
        ReloadEvent::ScriptParsed { script: "function FindProxyForURL(u, h) { return \"DIRECT\"; }".to_string(), accepted: true },
    ];
    for e in events {
        match installed(r.reload_step(e)) {
            ProxyResolutionBehavior::Static(s) => assert_eq!(s, forced),
            other => panic!("unexpected {:?}", other),
        }
    }
    r.install(ProxyResolutionBehavior::WPAD("script".to_string()));
    assert_eq!(r.find_proxy(&engine, "http://a/", "a"), forced);
}

#[test]
fn reload_walks_discovery_to_a_loaded_script() {
    let mut r = ProxyResolver::load(options(None, None));
    let engine = Answer("PROXY up:3128; DIRECT");
    assert_eq!(r.find_proxy(&engine, "http://a/", "a"), ProxySuggestion::Direct);
    assert!(matches!(r.reload_step(ReloadEvent::Begin), ReloadAction::QueryEnvironment));
    let info = WPADInfo { wpad_option: None, domains: vec!["corp".to_string()] };
    match r.reload_step(ReloadEvent::EnvironmentFound(info)) {
        ReloadAction::Fetch(urls) => assert_eq!(urls, vec!["http://wpad.corp/wpad.dat".to_string()]),
        other => panic!("unexpected {:?}", other),
    }
    match r.reload_step(ReloadEvent::ScriptFetched(Some("S".to_string()))) {
        ReloadAction::Parse(s) => assert_eq!(s, "S"),
        other => panic!("unexpected {:?}", other),
    }
    let b = installed(r.reload_step(ReloadEvent::ScriptParsed { script: "S".to_string(), accepted: true }));
    r.install(b);
    assert_eq!(r.find_proxy(&engine, "http://a/", "a"), proxy("up", Some(3128)));
}

#[test]
fn configured_url_skips_the_environment() {
    let r = ProxyResolver::load(options(None, Some("http://conf/wpad.dat")));
    match r.reload_step(ReloadEvent::Begin) {
        ReloadAction::Fetch(urls) => assert_eq!(urls, vec!["http://conf/wpad.dat".to_string()]),
        other => panic!("unexpected {:?}", other),
    }
}

#[test]
fn failed_discovery_or_parse_falls_back_to_direct() {
    let r = ProxyResolver::load(options(None, None));
    for e in vec![
        ReloadEvent::EnvironmentFailed,
        ReloadEvent::ScriptFetched(None),
        ReloadEvent::ScriptParsed { script: "bad".to_string(), accepted: false },
    ] {
        match installed(r.reload_step(e)) {
            ProxyResolutionBehavior::Static(s) => assert_eq!(s, ProxySuggestion::Direct),
            other => panic!("unexpected {:?}", other),
        }
    }
}

#[test]
fn discovery_with_no_candidates_goes_direct() {
    let mut r = ProxyResolver::load(options(None, None));
    r.install(ProxyResolutionBehavior::WPAD("old".to_string()));
    let info = WPADInfo { wpad_option: None, domains: vec![] };
    let urls = match r.reload_step(ReloadEvent::EnvironmentFound(info)) {
        ReloadAction::Fetch(urls) => urls,
        other => panic!("unexpected {:?}", other),
    };
    assert!(urls.is_empty());
    let outcomes: Vec<FetchOutcome> = Vec::new();
    let script = first_working_script(&outcomes);
    assert_eq!(script, None);
    let b = installed(r.reload_step(ReloadEvent::ScriptFetched(script)));
    r.install(b);
    assert_eq!(r.find_proxy(&Answer("PROXY never:1"), "http://example.com/", "example.com"), ProxySuggestion::Direct);
}

#[test]
fn installed_behaviour_is_seen_by_later_lookups() {
    let mut r = ProxyResolver::load(options(None, None));
    let engine = Answer("PROXY new:9");
    assert_eq!(r.find_proxy(&engine, "u", "h"), ProxySuggestion::Direct);
    r.install(ProxyResolutionBehavior::WPAD("new script".to_string()));
    assert_eq!(r.find_proxy(&engine, "u", "h"), proxy("new", Some(9)));
    r.install(ProxyResolutionBehavior::Static(proxy("s", None)));
    assert_eq!(r.find_proxy(&engine, "u", "h"), proxy("s", None));
}
