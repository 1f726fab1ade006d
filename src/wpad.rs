use vstd::prelude::*;
use vstd::string::*;

use crate::suggestion::{first_suggestion, suggestions_of, PacEngine, ProxySuggestion, SuggestionView};

verus! {

/// What the network environment says about proxy discovery: the DHCP
/// option that names a script, and the DNS search domains.
#[derive(Debug, Clone)]
pub struct WPADInfo {
    pub wpad_option: Option<String>,
    pub domains: Vec<String>,
}

pub open spec fn opt_view(o: Option<String>) -> Option<Seq<char>> {
    match o {
        Some(s) => Some(s@),
        None => None,
    }
}

/// The conventional script location for a search domain:
/// `http://wpad.<domain>/wpad.dat`.
pub open spec fn wpad_url_for(domain: Seq<char>) -> Seq<char> {
    "http://wpad."@ + domain + "/wpad.dat"@
}

/// The script locations to try, in order: the DHCP option alone when it is
/// set, else one per search domain.
pub open spec fn wpad_candidates(option: Option<Seq<char>>, domains: Seq<Seq<char>>) -> Seq<
    Seq<char>,
> {
    match option {
        Some(u) => seq![u],
        None => domains.map_values(|d: Seq<char>| wpad_url_for(d)),
    }
}

pub open spec fn info_candidates(info: WPADInfo) -> Seq<Seq<char>> {
    wpad_candidates(opt_view(info.wpad_option), info.domains@.map_values(|d: String| d@))
}

pub open spec fn strings_view(v: Seq<String>) -> Seq<Seq<char>> {
    v.map_values(|s: String| s@)
}

/// The script locations that `info` points to.
pub fn get_wpad_urls(info: &WPADInfo) -> (r: Vec<String>)
    ensures
        strings_view(r@) == info_candidates(*info),
{
    match &info.wpad_option {
        Some(u) => {
            let urls = vec![u.clone()];
            assert(strings_view(urls@) =~= info_candidates(*info));
            urls
        },
        None => {
            let ghost ds = info.domains@.map_values(|d: String| d@);
            let mut urls: Vec<String> = Vec::new();
            let mut i: usize = 0;
            while i < info.domains.len()
                invariant
                    i <= info.domains@.len(),
                    info.wpad_option is None,
                    ds == info.domains@.map_values(|d: String| d@),
                    strings_view(urls@) == ds.take(i as int).map_values(
                        |d: Seq<char>| wpad_url_for(d),
                    ),
                decreases info.domains@.len() - i,
            {
                let mut url = "http://wpad.".to_owned();
                url.append(info.domains[i].as_str());
                url.append("/wpad.dat");
                let ghost before = strings_view(urls@);
                urls.push(url);
                assert(strings_view(urls@) =~= before.push(url@));
                assert(ds.take(i + 1) =~= ds.take(i as int).push(ds[i as int]));
                assert(ds.take(i + 1).map_values(|d: Seq<char>| wpad_url_for(d)) =~= ds.take(
                    i as int,
                ).map_values(|d: Seq<char>| wpad_url_for(d)).push(wpad_url_for(ds[i as int])));
                i += 1;
            }
            assert(ds.take(ds.len() as int) =~= ds);
            urls
        },
    }
}

/// Discovery by domain yields one location per domain, in order; a DHCP
/// option yields itself alone.
pub proof fn lemma_wpad_candidates(a: Seq<char>, b: Seq<char>, u: Seq<char>, ds: Seq<Seq<char>>)
    ensures
        wpad_candidates(None, seq![a, b]) == seq![wpad_url_for(a), wpad_url_for(b)],
        wpad_candidates(Some(u), ds) == seq![u],
        wpad_candidates(None, Seq::<Seq<char>>::empty()) == Seq::<Seq<char>>::empty(),
{
    assert(wpad_candidates(None, seq![a, b]) =~= seq![wpad_url_for(a), wpad_url_for(b)]);
    assert(wpad_candidates(None, Seq::<Seq<char>>::empty()) =~= Seq::<Seq<char>>::empty());
}

/// What fetching one script location gave.
#[derive(Debug, Clone)]
pub enum FetchOutcome {
    /// The server answered with `status`; `body` is its text, when it was text.
    Response { status: u16, body: Option<String> },
    /// No answer: the name did not resolve, the connection failed or timed out.
    Failed,
}

/// The script that one fetch delivered: the text of a `200 OK` answer.
pub open spec fn script_of(o: FetchOutcome) -> Option<Seq<char>> {
    match o {
        FetchOutcome::Response { status, body } => if status == 200 {
            opt_view(body)
        } else {
            None
        },
        FetchOutcome::Failed => None,
    }
}

/// The script of the first fetch, in order, that delivered one.
pub open spec fn first_working(os: Seq<FetchOutcome>) -> Option<Seq<char>>
    decreases os.len(),
{
    if os.len() == 0 {
        None
    } else {
        match script_of(os[0]) {
            Some(s) => Some(s),
            None => first_working(os.drop_first()),
        }
    }
}

/// Picks the script from the outcomes of fetching the candidate locations in
/// order: the body of the first `200 OK` answer that is text, else nothing.
pub fn first_working_script(outcomes: &Vec<FetchOutcome>) -> (r: Option<String>)
    ensures
        opt_view(r) == first_working(outcomes@),
{
    let mut i: usize = 0;
    assert(outcomes@.skip(0) =~= outcomes@);
    while i < outcomes.len()
        invariant
            i <= outcomes@.len(),
            first_working(outcomes@) == first_working(outcomes@.skip(i as int)),
        decreases outcomes@.len() - i,
    {
        let ghost rest = outcomes@.skip(i as int);
        assert(rest[0] == outcomes@[i as int]);
        assert(rest.drop_first() =~= outcomes@.skip(i + 1));
        match &outcomes[i] {
            FetchOutcome::Response { status, body } => {
                if *status == 200 {
                    match body {
                        Some(text) => {
                            return Some(text.clone());
                        },
                        None => {},
                    }
                }
            },
            FetchOutcome::Failed => {},
        }
        i += 1;
    }
    assert(outcomes@.skip(i as int).len() == 0);
    None
}

/// How the resolver answers: always with one suggestion, or by asking the
/// loaded script, whose text is kept.
#[derive(Debug, Clone)]
pub enum ProxyResolutionBehavior {
    Static(ProxySuggestion),
    WPAD(String),
}

pub enum BehaviorView {
    Static(SuggestionView),
    Wpad(Seq<char>),
}

impl View for ProxyResolutionBehavior {
    type V = BehaviorView;

    open spec fn view(&self) -> BehaviorView {
        match self {
            ProxyResolutionBehavior::Static(s) => BehaviorView::Static(s@),
            ProxyResolutionBehavior::WPAD(t) => BehaviorView::Wpad(t@),
        }
    }
}

/// The settings that the resolver works from.
#[derive(Debug, Clone)]
pub struct Options {
    pub port: u16,
    /// A suggestion to follow always; no discovery takes place.
    pub force_proxy: Option<ProxySuggestion>,
    /// The script location to use instead of discovering one.
    pub wpad_url: Option<String>,
    pub systemd: bool,
}

impl Options {
    /// The settings from the command line, with the configuration file's
    /// script location as a fallback when the command line names none.
    pub fn load(flags: &Options, config_wpad_url: Option<String>) -> (r: Options)
        ensures
            r.port == flags.port,
            r.systemd == flags.systemd,
            match (r.force_proxy, flags.force_proxy) {
                (Some(a), Some(b)) => a@ == b@,
                (None, None) => true,
                _ => false,
            },
            opt_view(r.wpad_url) == match flags.wpad_url {
                Some(u) => Some(u@),
                None => opt_view(config_wpad_url),
            },
    {
        let force_proxy = match &flags.force_proxy {
            Some(s) => Some(s.duplicate()),
            None => None,
        };
        let wpad_url = match &flags.wpad_url {
            Some(u) => Some(u.clone()),
            None => config_wpad_url,
        };
        Options { port: flags.port, force_proxy, wpad_url, systemd: flags.systemd }
    }
}

/// What happened since the last step of a reload.
#[derive(Debug)]
pub enum ReloadEvent {
    /// A reload begins.
    Begin,
    /// The network environment answered.
    EnvironmentFound(WPADInfo),
    /// The network environment could not be asked.
    EnvironmentFailed,
    /// The candidate locations were fetched, with this result.
    ScriptFetched(Option<String>),
    /// The engine was handed `script`, and accepted it or not.
    ScriptParsed { script: String, accepted: bool },
}

/// What a reload does next.
#[derive(Debug)]
pub enum ReloadAction {
    /// Ask the network environment for its discovery information.
    QueryEnvironment,
    /// Fetch these locations in order, up to the first that delivers a script.
    Fetch(Vec<String>),
    /// Hand this script to the engine.
    Parse(String),
    /// Replace the behaviour with this one; the reload is over.
    Install(ProxyResolutionBehavior),
}

/// The shared answer to "where does this request go".
pub struct ProxyResolver {
    flags: Options,
    behavior: ProxyResolutionBehavior,
}

impl ProxyResolver {
    /// A forced proxy is the behaviour, whatever else happens.
    pub closed spec fn wf(&self) -> bool {
        match self.flags.force_proxy {
            Some(s) => self.behavior@ == BehaviorView::Static(s@),
            None => true,
        }
    }

    pub closed spec fn flags(&self) -> Options {
        self.flags
    }

    pub closed spec fn behavior(&self) -> BehaviorView {
        self.behavior@
    }

    /// A resolver before discovery: it follows the forced proxy, or goes
    /// direct until a reload installs something else.
    pub fn load(flags: Options) -> (r: ProxyResolver)
        ensures
            r.wf(),
            r.flags() == flags,
            r.behavior() == match flags.force_proxy {
                Some(s) => BehaviorView::Static(s@),
                None => BehaviorView::Static(SuggestionView::Direct),
            },
    {
        let initial = match &flags.force_proxy {
            Some(s) => s.duplicate(),
            None => ProxySuggestion::Direct,
        };
        ProxyResolver { flags, behavior: ProxyResolutionBehavior::Static(initial) }
    }

    /// The next step of a reload, given what the last one brought.
    pub fn reload_step(&self, event: ReloadEvent) -> (r: ReloadAction)
        ensures
            match self.flags().force_proxy {
                Some(s) => r is Install && r->Install_0@ == BehaviorView::Static(s@),
                None => match event {
                    ReloadEvent::Begin => match self.flags().wpad_url {
                        Some(u) => r is Fetch && strings_view(r->Fetch_0@) == seq![u@],
                        None => r is QueryEnvironment,
                    },
                    ReloadEvent::EnvironmentFound(info) => r is Fetch && strings_view(
                        r->Fetch_0@,
                    ) == info_candidates(info),
                    ReloadEvent::EnvironmentFailed => r is Install && r->Install_0@
                        == BehaviorView::Static(SuggestionView::Direct),
                    ReloadEvent::ScriptFetched(script) => match script {
                        Some(t) => r is Parse && r->Parse_0@ == t@,
                        None => r is Install && r->Install_0@ == BehaviorView::Static(
                            SuggestionView::Direct,
                        ),
                    },
                    ReloadEvent::ScriptParsed { script, accepted } => r is Install
                        && r->Install_0@ == if accepted {
                        BehaviorView::Wpad(script@)
                    } else {
                        BehaviorView::Static(SuggestionView::Direct)
                    },
                },
            },
    {
        if let Some(s) = &self.flags.force_proxy {
            return ReloadAction::Install(ProxyResolutionBehavior::Static(s.duplicate()));
        }
        match event {
            ReloadEvent::Begin => match &self.flags.wpad_url {
                Some(u) => {
                    let urls = vec![u.clone()];
                    assert(strings_view(urls@) =~= seq![u@]);
                    ReloadAction::Fetch(urls)
                },
                None => ReloadAction::QueryEnvironment,
            },
            ReloadEvent::EnvironmentFound(info) => ReloadAction::Fetch(get_wpad_urls(&info)),
            ReloadEvent::EnvironmentFailed => ReloadAction::Install(
                ProxyResolutionBehavior::Static(ProxySuggestion::Direct),
            ),
            ReloadEvent::ScriptFetched(script) => match script {
                Some(t) => ReloadAction::Parse(t),
                None => ReloadAction::Install(
                    ProxyResolutionBehavior::Static(ProxySuggestion::Direct),
                ),
            },
            ReloadEvent::ScriptParsed { script, accepted } => {
                if accepted {
                    ReloadAction::Install(ProxyResolutionBehavior::WPAD(script))
                } else {
                    ReloadAction::Install(ProxyResolutionBehavior::Static(ProxySuggestion::Direct))
                }
            },
        }
    }

    /// Replaces the behaviour in one step; a forced proxy stays in place.
    pub fn install(&mut self, behavior: ProxyResolutionBehavior)
        requires
            old(self).wf(),
        ensures
            final(self).wf(),
            final(self).flags() == old(self).flags(),
            old(self).flags().force_proxy is None ==> final(self).behavior() == behavior@,
            old(self).flags().force_proxy is Some ==> final(self).behavior() == old(
                self,
            ).behavior(),
    {
        if self.flags.force_proxy.is_none() {
            self.behavior = behavior;
        }
    }

    /// Where a request for `url` on `host` goes. A static behaviour answers
    /// itself, so a forced proxy always wins; a loaded script is asked, and
    /// the first suggestion of its answer is followed.
    pub fn find_proxy<E: PacEngine>(&self, engine: &E, url: &str, host: &str) -> (r:
        ProxySuggestion)
        requires
            self.wf(),
        ensures
            self.behavior() is Static ==> r@ == self.behavior()->Static_0,
            self.flags().force_proxy is Some ==> r@ == self.flags().force_proxy->Some_0@,
            self.behavior() is Wpad ==> exists|answer: Seq<char>|
                r@ == #[trigger] suggestions_of(answer)[0],
    {
        match &self.behavior {
            ProxyResolutionBehavior::Static(s) => s.duplicate(),
            ProxyResolutionBehavior::WPAD(_) => {
                let answer = engine.find_proxy(url, host);
                let r = first_suggestion(answer.as_str());
                assert(r@ == suggestions_of(answer@)[0]);
                r
            },
        }
    }
}

} // verus!
