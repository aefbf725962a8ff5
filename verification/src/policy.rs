//! The frontier-admission policy: which discovered links may be queued.

use crate::text::{contains, has_prefix, has_substring, starts_with};
use vstd::prelude::*;

verus! {

/// What a discovered link must satisfy to be queued, and how it is labelled.
#[derive(Debug, Clone)]
pub struct AdmissionPolicy {
    /// A link must hold at least one of these domain or path markers.
    pub allowed: Vec<String>,
    /// A link may hold none of these markers of administrative pages.
    pub denied: Vec<String>,
    /// The source label given to every admitted link.
    pub label: String,
    /// How many links of one page are considered, counted from its first.
    pub fanout: usize,
}

/// A policy as the contracts see it.
pub struct PolicyView {
    pub allowed: Seq<Seq<char>>,
    pub denied: Seq<Seq<char>>,
    pub label: Seq<char>,
    pub fanout: nat,
}

impl View for AdmissionPolicy {
    type V = PolicyView;

    open spec fn view(&self) -> PolicyView {
        PolicyView {
            allowed: self.allowed.deep_view(),
            denied: self.denied.deep_view(),
            label: self.label@,
            fanout: self.fanout as nat,
        }
    }
}

/// `url` names its scheme as HTTP or HTTPS.
pub open spec fn has_web_scheme(url: Seq<char>) -> bool {
    has_prefix(url, "http://"@) || has_prefix(url, "https://"@)
}

/// `url` holds at least one of `markers`.
pub open spec fn mentions_any(url: Seq<char>, markers: Seq<Seq<char>>) -> bool {
    exists|i: int| 0 <= i < markers.len() && has_substring(url, #[trigger] markers[i])
}

/// The policy admits `url`: an HTTP or HTTPS URL that is in scope and is no
/// administrative page.
pub open spec fn admits(policy: PolicyView, url: Seq<char>) -> bool {
    &&& has_web_scheme(url)
    &&& mentions_any(url, policy.allowed)
    &&& !mentions_any(url, policy.denied)
}

/// The policy of this deployment: articles of the two seed sites, without
/// special, file, category, template, help and talk pages; thirty links a
/// page, all labelled `Wikipedia`.
pub open spec fn standard_policy() -> PolicyView {
    PolicyView {
        allowed: seq!["wikipedia.org/wiki"@, "histrf.ru"@],
        denied: seq!["Special:"@, "File:"@, "Category:"@, "Template:"@, "Help:"@, "Talk:"@],
        label: "Wikipedia"@,
        fanout: 30,
    }
}

/// Whether `url` holds at least one of `markers`.
pub fn holds_any(url: &str, markers: &Vec<String>) -> (found: bool)
    ensures
        found == mentions_any(url@, markers.deep_view()),
{
    let mut i: usize = 0;
    while i < markers.len()
        invariant
            i <= markers.len(),
            forall|k: int| 0 <= k < i ==> !has_substring(url@, #[trigger] markers.deep_view()[k]),
        decreases markers.len() - i,
    {
        if contains(url, markers[i].as_str()) {
            assert(has_substring(url@, markers.deep_view()[i as int]));
            return true;
        }
        i += 1;
    }
    false
}

impl AdmissionPolicy {
    /// The policy of this deployment.
    pub fn standard() -> (policy: AdmissionPolicy)
        ensures
            policy@ == standard_policy(),
    {
        let allowed: Vec<String> = vec!["wikipedia.org/wiki".to_owned(), "histrf.ru".to_owned()];
        let denied: Vec<String> = vec![
            "Special:".to_owned(),
            "File:".to_owned(),
            "Category:".to_owned(),
            "Template:".to_owned(),
            "Help:".to_owned(),
            "Talk:".to_owned(),
        ];
        let policy = AdmissionPolicy {
            allowed,
            denied,
            label: "Wikipedia".to_owned(),
            fanout: 30,
        };
        assert(policy@.allowed =~= standard_policy().allowed);
        assert(policy@.denied =~= standard_policy().denied);
        policy
    }

    /// Whether a discovered link may be queued.
    pub fn admits(&self, url: &str) -> (admitted: bool)
        ensures
            admitted == admits(self@, url@),
    {
        (starts_with(url, "http://") || starts_with(url, "https://")) && holds_any(
            url,
            &self.allowed,
        ) && !holds_any(url, &self.denied)
    }
}

/// No link that holds a denied marker is admitted, whatever else it holds.
pub proof fn lemma_denied_marker_excludes(policy: PolicyView, url: Seq<char>, marker: int)
    requires
        0 <= marker < policy.denied.len(),
        has_substring(url, policy.denied[marker]),
    ensures
        !admits(policy, url),
{
}

} // verus!
