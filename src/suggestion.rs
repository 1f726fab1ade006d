use vstd::prelude::*;
use vstd::string::*;

use crate::text::{starts_with_chars, find_char, find_from, lemma_find_from_skip, lemma_split_last, lemma_split_nonempty, lemma_split_step, parse_port, port_value, split_by, split_char};

verus! {

/// Where a request should go: straight to its destination, or through the
/// proxy at `host` (on `port`, when one is named).
#[derive(Debug, Clone)]
pub enum ProxySuggestion {
    Direct,
    Proxy { host: String, port: Option<u16> },
}

/// The mathematical value of a `ProxySuggestion`.
pub enum SuggestionView {
    Direct,
    Proxy(Seq<char>, Option<u16>),
}

impl View for ProxySuggestion {
    type V = SuggestionView;

    open spec fn view(&self) -> SuggestionView {
        match self {
            ProxySuggestion::Direct => SuggestionView::Direct,
            ProxySuggestion::Proxy { host, port } => SuggestionView::Proxy(host@, *port),
        }
    }
}

impl PartialEq for ProxySuggestion {
    fn eq(&self, o: &ProxySuggestion) -> (r: bool) {
        match self {
            ProxySuggestion::Direct => match o {
                ProxySuggestion::Direct => true,
                ProxySuggestion::Proxy { .. } => false,
            },
            ProxySuggestion::Proxy { host: h1, port: p1 } => match o {
                ProxySuggestion::Direct => false,
                ProxySuggestion::Proxy { host: h2, port: p2 } => {
                    let same_port = match p1 {
                        Some(a) => match p2 {
                            Some(b) => *a == *b,
                            None => false,
                        },
                        None => p2.is_none(),
                    };
                    same_port && h1.eq(h2)
                },
            },
        }
    }
}

impl vstd::std_specs::cmp::PartialEqSpecImpl for ProxySuggestion {
    open spec fn obeys_eq_spec() -> bool {
        true
    }

    open spec fn eq_spec(&self, o: &ProxySuggestion) -> bool {
        self@ == o@
    }
}

/// The word by which a script asks for a direct connection.
pub open spec fn direct_word() -> Seq<char> {
    seq!['D', 'I', 'R', 'E', 'C', 'T']
}

/// The prefix of a script's answer that names an upstream proxy.
pub open spec fn proxy_prefix() -> Seq<char> {
    seq!['P', 'R', 'O', 'X', 'Y', ' ']
}

/// What one token of a script's answer asks for: `DIRECT`, `PROXY host` or
/// `PROXY host:port`; anything else, a malformed port included, falls back
/// to a direct connection.
pub open spec fn suggestion_of(s: Seq<char>) -> SuggestionView {
    if s == direct_word() {
        SuggestionView::Direct
    } else if s.len() >= 6 && s.take(6) == proxy_prefix() {
        let rest = s.skip(6);
        match find_from(rest, seq![':'], 0) {
            None => SuggestionView::Proxy(rest, None),
            Some(i) => match port_value(rest.skip(i + 1)) {
                Some(p) => SuggestionView::Proxy(rest.take(i), Some(p)),
                None => SuggestionView::Direct,
            },
        }
    } else {
        SuggestionView::Direct
    }
}

/// The tokens of a script's answer, which are separated by `;`.
pub open spec fn answer_tokens(answer: Seq<char>) -> Seq<Seq<char>> {
    split_by(answer, seq![';'])
}

/// What a whole answer asks for, token by token.
pub open spec fn suggestions_of(answer: Seq<char>) -> Seq<SuggestionView> {
    answer_tokens(answer).map_values(|t: Seq<char>| suggestion_of(t))
}

impl ProxySuggestion {
    /// A copy that equals `self`.
    pub fn duplicate(&self) -> (r: ProxySuggestion)
        ensures
            r@ == self@,
    {
        match self {
            ProxySuggestion::Direct => ProxySuggestion::Direct,
            ProxySuggestion::Proxy { host, port } => ProxySuggestion::Proxy {
                host: host.clone(),
                port: *port,
            },
        }
    }

    /// Reads one token of a script's answer.
    pub fn parse(s: &str) -> (r: ProxySuggestion)
        ensures
            r@ == suggestion_of(s@),
    {
        let n = s.unicode_len();
        let direct = vec!['D', 'I', 'R', 'E', 'C', 'T'];
        assert(direct@ == direct_word());
        if n == 6 && starts_with_chars(s, &direct) {
            assert(s@.take(6) =~= s@);
            return ProxySuggestion::Direct;
        }
        assert(n == 6 ==> s@.take(6) =~= s@);
        let prefix = vec!['P', 'R', 'O', 'X', 'Y', ' '];
        assert(prefix@ == proxy_prefix());
        if !starts_with_chars(s, &prefix) {
            return ProxySuggestion::Direct;
        }
        let ghost rest = s@.skip(6);
        proof {
            lemma_find_from_skip(s@, seq![':'], 6, 0);
        }
        match find_char(s, ':', 6) {
            None => {
                let host = s.substring_char(6, n).to_owned();
                assert(host@ =~= rest);
                ProxySuggestion::Proxy { host, port: None }
            },
            Some(i) => {
                proof {
                    crate::text::lemma_find_from_found(s@, seq![':'], 6);
                }
                assert(s@.skip(i + 1) =~= rest.skip(i - 6 + 1));
                match parse_port(s, i + 1) {
                    Some(p) => {
                        let host = s.substring_char(6, i).to_owned();
                        assert(host@ =~= rest.take(i - 6));
                        ProxySuggestion::Proxy { host, port: Some(p) }
                    },
                    None => ProxySuggestion::Direct,
                }
            },
        }
    }
}

/// The proxy auto-configuration engine, with a script loaded.
pub trait PacEngine {
    /// The answer of the script's `FindProxyForURL(url, host)`: tokens
    /// separated by `;`.
    fn find_proxy(&self, url: &str, host: &str) -> String;
}

/// Every suggestion of a script's answer, in order.
pub fn find_proxy_suggestions(answer: &str) -> (r: Vec<ProxySuggestion>)
    ensures
        r@.map_values(|s: ProxySuggestion| s@) == suggestions_of(answer@),
        r@.len() >= 1,
{
    let tokens = split_char(answer, ';');
    proof {
        lemma_split_nonempty(answer@, seq![';']);
    }
    let ghost pieces = tokens@.map_values(|p: String| p@);
    let mut out: Vec<ProxySuggestion> = Vec::new();
    let mut i: usize = 0;
    while i < tokens.len()
        invariant
            i <= tokens@.len(),
            pieces == tokens@.map_values(|p: String| p@),
            pieces == answer_tokens(answer@),
            out@.len() == i,
            forall|j: int| 0 <= j < i ==> (#[trigger] out@[j])@ == suggestion_of(pieces[j]),
        decreases tokens@.len() - i,
    {
        let s = ProxySuggestion::parse(tokens[i].as_str());
        out.push(s);
        i += 1;
    }
    assert(out@.map_values(|s: ProxySuggestion| s@) =~= suggestions_of(answer@));
    out
}

/// The first suggestion of a script's answer: the one that is followed.
pub fn first_suggestion(answer: &str) -> (r: ProxySuggestion)
    ensures
        r@ == suggestions_of(answer@)[0],
{
    let ghost sep = seq![';'];
    proof {
        lemma_split_nonempty(answer@, sep);
        assert(answer@.skip(0) =~= answer@);
    }
    let n = answer.unicode_len();
    let end = match find_char(answer, ';', 0) {
        Some(i) => {
            proof {
                lemma_split_step(answer@, sep, 0, i as int);
            }
            i
        },
        None => {
            proof {
                lemma_split_last(answer@, sep, 0);
            }
            assert(answer@.subrange(0, n as int) =~= answer@);
            n
        },
    };
    let token = answer.substring_char(0, end);
    ProxySuggestion::parse(token)
}

} // verus!
