//! Version discovery and capability negotiation with clients.
use vstd::prelude::*;

use crate::text::{is_substring, same_text};

verus! {

/// The oldest client version the daemon accepts.
pub const MIN_CLIENT_VERSION: &'static str = "0.1.0";

/// Whether `semver::Version::parse` accepts a text.
pub uninterp spec fn semver_valid(s: Seq<char>) -> bool;

/// Whether the version a text parses to is at least (by `semver`'s
/// ordering of `Version`) the one another text parses to.
pub uninterp spec fn semver_at_least(version: Seq<char>, min: Seq<char>) -> bool;

/// Calls `semver::Version::parse` on both texts and, when both parse,
/// compares the versions with `>=`; false when either does not parse. The
/// parse and the ordering are named by `semver_valid` and
/// `semver_at_least`.
#[verifier::external_body]
pub fn version_satisfies_min(version: &str, min_version: &str) -> (r: bool)
    ensures
        r == (semver_valid(version@) && semver_valid(min_version@) && semver_at_least(version@, min_version@)),
{
    match (semver::Version::parse(version), semver::Version::parse(min_version)) {
        (Ok(v), Ok(m)) => v >= m,
        _ => false,
    }
}

/// What `regex::Regex::new(pattern)` and then `captures(text)` give for
/// group 1: `None` when the pattern does not compile, `Some(None)` when
/// nothing matches or group 1 takes no part in the leftmost match, else the
/// text of group 1 there.
pub uninterp spec fn regex_group1(pattern: Seq<char>, text: Seq<char>) -> Option<Option<Seq<char>>>;

/// Compiles `pattern` with `regex::Regex::new` and returns group 1 of the
/// leftmost match in `text` (`captures`, then `get(1)`); `None` when the
/// pattern does not compile. The result is named by `regex_group1`; a
/// captured group is a part of the text.
#[verifier::external_body]
fn regex_first_capture(pattern: &str, text: &str) -> (r: Option<Option<String>>)
    ensures
        match r {
            None => regex_group1(pattern@, text@) is None,
            Some(None) => regex_group1(pattern@, text@) == Some(None::<Seq<char>>),
            Some(Some(c)) => regex_group1(pattern@, text@) == Some(Some(c@)) && is_substring(c@, text@),
        },
{
    match regex::Regex::new(pattern) {
        Ok(re) => Some(re.captures(text).and_then(|c| c.get(1)).map(|m| m.as_str().to_owned())),
        Err(_) => None,
    }
}

/// The pattern of a version number in a `--version` output: `v` and three
/// dot-separated numbers, the numbers captured.
pub open spec fn version_pattern() -> Seq<char> {
    "v(\\d+\\.\\d+\\.\\d+)"@
}

/// The view of an optional text.
pub open spec fn opt_text(o: Option<String>) -> Option<Seq<char>> {
    match o {
        Some(s) => Some(s@),
        None => None,
    }
}

/// Extracts a version number (e.g. `1.0.22`) from the agent CLI's version
/// output: the numbers that `version_pattern` captures at its leftmost
/// match, which lie in the output.
pub fn parse_version(output: &str) -> (r: Option<String>)
    ensures
        opt_text(r) == match regex_group1(version_pattern(), output@) {
            Some(c) => c,
            None => None,
        },
        r matches Some(v) ==> is_substring(v@, output@),
{
    match regex_first_capture("v(\\d+\\.\\d+\\.\\d+)", output) {
        Some(c) => c,
        None => None,
    }
}

/// The features a client may ask for.
pub open spec fn feature_supported(f: Seq<char>) -> bool {
    f == "streaming"@ || f == "worktrees"@ || f == "plugins"@ || f == "session_grants"@ || f == "e2e_encryption"@
}

/// Whether a requested feature is supported.
pub fn is_feature_supported(feature: &str) -> (r: bool)
    ensures
        r == feature_supported(feature@),
{
    same_text(feature, "streaming") || same_text(feature, "worktrees") || same_text(feature, "plugins") || same_text(
        feature,
        "session_grants",
    ) || same_text(feature, "e2e_encryption")
}

/// The supported features among those requested, in order.
pub open spec fn granted(fs: Seq<Seq<char>>) -> Seq<Seq<char>>
    decreases fs.len(),
{
    if fs.len() == 0 {
        Seq::empty()
    } else if feature_supported(fs.last()) {
        granted(fs.drop_last()).push(fs.last())
    } else {
        granted(fs.drop_last())
    }
}

/// A warning for each unsupported requested feature, in order.
pub open spec fn unsupported_warnings(fs: Seq<Seq<char>>) -> Seq<Seq<char>>
    decreases fs.len(),
{
    if fs.len() == 0 {
        Seq::empty()
    } else if feature_supported(fs.last()) {
        unsupported_warnings(fs.drop_last())
    } else {
        unsupported_warnings(fs.drop_last()).push("Unsupported feature: "@ + fs.last())
    }
}

/// The client version is acceptable: unstated, or at least the minimum.
pub open spec fn client_accepted(version: Seq<char>) -> bool {
    version.len() == 0 || (semver_valid(version) && semver_valid("0.1.0"@) && semver_at_least(version, "0.1.0"@))
}

/// The result of negotiating with a client.
#[derive(Debug)]
pub struct Negotiation {
    pub accepted: bool,
    /// Empty when accepted.
    pub rejection_reason: String,
    pub granted_features: Vec<String>,
    pub warnings: Vec<String>,
}

/// Negotiates with a client: grants the supported requested features and
/// warns of the others; accepts a client that states no version (with a
/// warning) or one at least the minimum version, and rejects an older or
/// unreadable version with a reason.
pub fn negotiate(requested_features: &Vec<String>, client_version: &str) -> (r: Negotiation)
    ensures
        r.granted_features.deep_view() == granted(requested_features.deep_view()),
        r.warnings.deep_view() == unsupported_warnings(requested_features.deep_view()) + if client_version@.len()
            == 0 {
            seq!["Client version not specified; cannot verify compatibility"@]
        } else {
            Seq::empty()
        },
        r.accepted == client_accepted(client_version@),
        r.rejection_reason@ == if r.accepted {
            Seq::empty()
        } else {
            "Client version "@ + client_version@ + " is below minimum required version "@ + "0.1.0"@
        },
{
    let ghost fs = requested_features.deep_view();
    let mut granted_features: Vec<String> = Vec::new();
    let mut warnings: Vec<String> = Vec::new();
    let mut i: usize = 0;
    while i < requested_features.len()
        invariant
            i <= requested_features.len(),
            fs == requested_features.deep_view(),
            granted_features.deep_view() == granted(fs.take(i as int)),
            warnings.deep_view() == unsupported_warnings(fs.take(i as int)),
        decreases requested_features.len() - i,
    {
        assert(fs.take(i as int + 1).drop_last() =~= fs.take(i as int));
        assert(fs.take(i as int + 1).last() == requested_features[i as int]@);
        let f = &requested_features[i];
        if is_feature_supported(f.as_str()) {
            let ghost before = granted_features.deep_view();
            granted_features.push(f.clone());
            assert(granted_features.deep_view() =~= before.push(f@));
        } else {
            let ghost before = warnings.deep_view();
            let mut w = "Unsupported feature: ".to_owned();
            w.append(f.as_str());
            warnings.push(w);
            assert(warnings.deep_view() =~= before.push("Unsupported feature: "@ + f@));
        }
        i = i + 1;
    }
    assert(fs.take(i as int) =~= fs);
    let ghost before = warnings.deep_view();
    let (accepted, rejection_reason) = if client_version.is_empty() {
        warnings.push("Client version not specified; cannot verify compatibility".to_owned());
        assert(warnings.deep_view() =~= before + seq!["Client version not specified; cannot verify compatibility"@]);
        (true, String::new())
    } else if !version_satisfies_min(client_version, MIN_CLIENT_VERSION) {
        let mut reason = "Client version ".to_owned();
        reason.append(client_version);
        reason.append(" is below minimum required version ");
        reason.append(MIN_CLIENT_VERSION);
        (false, reason)
    } else {
        (true, String::new())
    };
    proof {
        if client_version@.len() > 0 {
            assert(warnings.deep_view() =~= before + Seq::<Seq<char>>::empty());
        }
    }
    Negotiation { accepted, rejection_reason, granted_features, warnings }
}

/// The version service's configuration: its feature flags, one entry per
/// flag.
#[derive(Debug)]
pub struct VersionServiceImpl {
    feature_flags: Vec<(String, bool)>,
}

/// The value of flag `name`, false when unset.
pub open spec fn flag_value(flags: Seq<(Seq<char>, bool)>, name: Seq<char>) -> bool
    decreases flags.len(),
{
    if flags.len() == 0 {
        false
    } else if flags[0].0 == name {
        flags[0].1
    } else {
        flag_value(flags.drop_first(), name)
    }
}

/// The names of the flags that are on, in order.
pub open spec fn enabled_names(flags: Seq<(Seq<char>, bool)>) -> Seq<Seq<char>>
    decreases flags.len(),
{
    if flags.len() == 0 {
        Seq::empty()
    } else if flags.last().1 {
        enabled_names(flags.drop_last()).push(flags.last().0)
    } else {
        enabled_names(flags.drop_last())
    }
}

impl VersionServiceImpl {
    /// The feature flags.
    pub closed spec fn flags(&self) -> Seq<(Seq<char>, bool)> {
        self.feature_flags.deep_view()
    }

    pub fn new(feature_flags: Vec<(String, bool)>) -> (r: Self)
        ensures
            r.flags() == feature_flags.deep_view(),
    {
        VersionServiceImpl { feature_flags }
    }

    /// The flags that are on, which the version report lists as features.
    pub fn enabled_features(&self) -> (r: Vec<String>)
        ensures
            r.deep_view() == enabled_names(self.flags()),
    {
        let ghost fl = self.flags();
        let mut r: Vec<String> = Vec::new();
        let mut i: usize = 0;
        while i < self.feature_flags.len()
            invariant
                i <= self.feature_flags.len(),
                fl == self.flags(),
                r.deep_view() == enabled_names(fl.take(i as int)),
            decreases self.feature_flags.len() - i,
        {
            assert(fl.take(i as int + 1).drop_last() =~= fl.take(i as int));
            let (name, on) = (&self.feature_flags[i].0, self.feature_flags[i].1);
            if on {
                let ghost before = r.deep_view();
                r.push(name.clone());
                assert(r.deep_view() =~= before.push(name@));
            }
            i = i + 1;
        }
        assert(fl.take(i as int) =~= fl);
        r
    }

    /// Whether subagents are enabled: the `subagents` flag, false when unset.
    pub fn subagents_enabled(&self) -> (r: bool)
        ensures
            r == flag_value(self.flags(), "subagents"@),
    {
        let ghost fl = self.flags();
        let mut i: usize = 0;
        assert(fl.skip(0) =~= fl);
        while i < self.feature_flags.len()
            invariant
                i <= self.feature_flags.len(),
                fl == self.flags(),
                flag_value(fl, "subagents"@) == flag_value(fl.skip(i as int), "subagents"@),
            decreases self.feature_flags.len() - i,
        {
            assert(fl.skip(i as int).drop_first() =~= fl.skip(i as int + 1));
            if same_text(self.feature_flags[i].0.as_str(), "subagents") {
                return self.feature_flags[i].1;
            }
            i = i + 1;
        }
        false
    }
}

} // verus!
