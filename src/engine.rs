//! The matching engine: validates a configuration and walks its rules for each client.
//!
//! A region rule needs a geolocation lookup, which is network work done by the caller. The
//! engine therefore evaluates in steps: it stops at a region rule that needs a lookup, and
//! resumes from there once the caller hands it the country that the lookup gave.
use vstd::prelude::*;
use crate::ip::{IpAddress, lemma_ipv4_len};
use crate::rule::{
    TrafficMatcher, TrafficMatchRule, ImageInfo, ImageInfoSelectStrategy, exact_matches,
    masked_matches, cidr_matches, match_ipv4_exact, match_ipv4_masked, match_ipv4_cidr,
};

verus! {

broadcast use lemma_ipv4_len;

/// The configuration that an engine is built from.
#[derive(Debug, Clone)]
pub struct Config {
    /// The rules, first match wins.
    pub traffic_matchers: Vec<TrafficMatcher>,
    /// Whether region rules may look up where an address is; absent means no.
    pub ip_info_enable: Option<bool>,
    /// The credential for the geolocation service.
    pub ip_info_token: Option<String>,
    /// The address that the server listens on.
    pub listen_addr: String,
}

/// Why a configuration cannot be used.
#[derive(Debug, Clone, Copy, PartialEq, Eq, Structural)]
pub enum ConfigError {
    /// Geolocation is enabled but no token is given.
    MissingToken,
    /// The rule at this position has a prefix length above 32.
    PrefixTooLong(usize),
    /// The rule at this position picks at random from no images.
    EmptyImageSet(usize),
}

/// Where an evaluation stands.
#[derive(Debug, Clone, Copy, PartialEq, Eq, Structural)]
pub enum Evaluation {
    /// The rule at this position matched.
    Matched(usize),
    /// No rule matched.
    NoMatch,
    /// The rule at this position is a region rule: the country of the address is needed.
    NeedsCountry(usize),
}

/// What is wrong with the matcher at position `i`, if anything.
pub open spec fn matcher_problem(m: TrafficMatcher, i: int) -> Option<ConfigError> {
    if m.0 matches TrafficMatchRule::Ipv4Cidr(_, p) && p > 32 {
        Some(ConfigError::PrefixTooLong(i as usize))
    } else if !m.1.wf() {
        Some(ConfigError::EmptyImageSet(i as usize))
    } else {
        None
    }
}

/// The problem of the first faulty matcher at or after `start`.
pub open spec fn first_problem(rules: Seq<TrafficMatcher>, start: int) -> Option<ConfigError>
    decreases rules.len() - start,
{
    if start < 0 || start >= rules.len() {
        None
    } else if matcher_problem(rules[start], start) is Some {
        matcher_problem(rules[start], start)
    } else {
        first_problem(rules, start + 1)
    }
}

/// What is wrong with a configuration, if anything: a missing token first, then the first
/// faulty rule.
pub open spec fn config_problem(c: Config) -> Option<ConfigError> {
    if c.ip_info_enable == Some(true) && c.ip_info_token is None {
        Some(ConfigError::MissingToken)
    } else {
        first_problem(c.traffic_matchers@, 0)
    }
}

/// Whether each matcher of `rules` can be used.
pub open spec fn rules_wf(rules: Seq<TrafficMatcher>) -> bool {
    forall|i: int| 0 <= i < rules.len() ==> (#[trigger] matcher_problem(rules[i], i)) is None
}

/// Whether `rule` matches `ip`, or `None` where only a geolocation lookup can tell.
pub open spec fn rule_outcome(rule: TrafficMatchRule, ip: IpAddress, geo_enabled: bool) -> Option<bool> {
    match ip {
        IpAddress::V4(a) => match rule {
            TrafficMatchRule::Ipv4Exact(b) => Some(exact_matches(a@, b@)),
            TrafficMatchRule::Ipv4Masked { ip: b, mask } => Some(masked_matches(a@, b@, mask@)),
            TrafficMatchRule::Ipv4Cidr(b, p) => Some(cidr_matches(a@, b@, p)),
            TrafficMatchRule::Region(_) => if geo_enabled { None } else { Some(false) },
            TrafficMatchRule::Ipv4Default => Some(true),
            TrafficMatchRule::Ipv6Default => Some(false),
            TrafficMatchRule::Default => Some(true),
        },
        IpAddress::V6(_) => match rule {
            TrafficMatchRule::Region(_) => if geo_enabled { None } else { Some(false) },
            TrafficMatchRule::Ipv6Default => Some(true),
            TrafficMatchRule::Default => Some(true),
            _ => Some(false),
        },
    }
}

/// Walks `rules` from `start`: the first rule that matches, or the first that needs a lookup.
pub open spec fn scan(rules: Seq<TrafficMatcher>, ip: IpAddress, geo_enabled: bool, start: int) -> Evaluation
    decreases rules.len() - start,
{
    if start < 0 || start >= rules.len() {
        Evaluation::NoMatch
    } else {
        match rule_outcome(rules[start].0, ip, geo_enabled) {
            Some(true) => Evaluation::Matched(start as usize),
            None => Evaluation::NeedsCountry(start as usize),
            Some(false) => scan(rules, ip, geo_enabled, start + 1),
        }
    }
}

/// Whether a lookup's answer is the expected country code; a failed lookup is not.
pub open spec fn country_matches(expected: Seq<char>, found: Option<Seq<char>>) -> bool {
    found == Some(expected)
}

/// Whether `rule` matches `ip`, or `None` where only a geolocation lookup can tell.
fn evaluate_rule(rule: &TrafficMatchRule, ip: &IpAddress, geo_enabled: bool) -> (r: Option<bool>)
    requires
        !(rule matches TrafficMatchRule::Ipv4Cidr(_, p) && p > 32),
    ensures
        r == rule_outcome(*rule, *ip, geo_enabled),
{
    match ip {
        IpAddress::V4(a) => match rule {
            TrafficMatchRule::Ipv4Exact(b) => Some(match_ipv4_exact(a, b)),
            TrafficMatchRule::Ipv4Masked { ip: b, mask } => Some(match_ipv4_masked(a, b, mask)),
            TrafficMatchRule::Ipv4Cidr(b, p) => Some(match_ipv4_cidr(a, b, *p)),
            TrafficMatchRule::Region(_) => if geo_enabled { None } else { Some(false) },
            TrafficMatchRule::Ipv4Default => Some(true),
            TrafficMatchRule::Ipv6Default => Some(false),
            TrafficMatchRule::Default => Some(true),
        },
        IpAddress::V6(_) => match rule {
            TrafficMatchRule::Region(_) => if geo_enabled { None } else { Some(false) },
            TrafficMatchRule::Ipv6Default => Some(true),
            TrafficMatchRule::Default => Some(true),
            _ => Some(false),
        },
    }
}

/// Whether a lookup's answer is the expected country code; a failed lookup is not.
pub fn match_region(expected: &String, found: &Option<String>) -> (r: bool)
    ensures
        r == country_matches(expected@, match found { Some(c) => Some(c@), None => None }),
{
    match found {
        Some(c) => c.eq(expected),
        None => false,
    }
}

/// With geolocation disabled a region rule never matches, whatever the address and the
/// country code: evaluation never stops for a lookup and never settles on a region rule.
pub proof fn lemma_region_without_geolocation(
    rules: Seq<TrafficMatcher>,
    ip: IpAddress,
    code: String,
    start: int,
)
    requires
        rules.len() <= usize::MAX,
    ensures
        rule_outcome(TrafficMatchRule::Region(code), ip, false) == Some(false),
        !(scan(rules, ip, false, start) is NeedsCountry),
        scan(rules, ip, false, start) matches Evaluation::Matched(i) ==> !(rules[i as int].0 is Region),
    decreases rules.len() - start,
{
    if 0 <= start < rules.len() {
        lemma_region_without_geolocation(rules, ip, code, start + 1);
    }
}

/// An empty rule list matches no address.
pub proof fn lemma_no_rules_no_match(ip: IpAddress, geo_enabled: bool)
    ensures
        scan(Seq::<TrafficMatcher>::empty(), ip, geo_enabled, 0) == Evaluation::NoMatch,
{
}

/// The first match wins: the rule that evaluation settles on matches, and every rule before
/// it, from `start` on, does not.
pub proof fn lemma_first_match_wins(rules: Seq<TrafficMatcher>, ip: IpAddress, geo_enabled: bool, start: int)
    requires
        0 <= start,
        rules.len() <= usize::MAX,
    ensures
        scan(rules, ip, geo_enabled, start) matches Evaluation::Matched(i) ==> {
            &&& start <= i < rules.len()
            &&& rule_outcome(rules[i as int].0, ip, geo_enabled) == Some(true)
            &&& forall|j: int| start <= j < i ==> rule_outcome(#[trigger] rules[j].0, ip, geo_enabled) == Some(false)
        },
    decreases rules.len() - start,
{
    if start < rules.len() {
        lemma_first_match_wins(rules, ip, geo_enabled, start + 1);
    }
}

/// The view of an optional string.
pub open spec fn opt_view(o: Option<String>) -> Option<Seq<char>> {
    match o {
        Some(c) => Some(c@),
        None => None,
    }
}

/// What is wrong with the matcher at position `i`, if anything.
fn check_matcher(m: &TrafficMatcher, i: usize) -> (r: Option<ConfigError>)
    ensures
        r == matcher_problem(*m, i as int),
{
    if let TrafficMatchRule::Ipv4Cidr(_, p) = &m.0 {
        if *p > 32 {
            return Some(ConfigError::PrefixTooLong(i));
        }
    }
    match &m.1 {
        ImageInfoSelectStrategy::Random(images) => {
            if images.len() == 0 {
                Some(ConfigError::EmptyImageSet(i))
            } else {
                None
            }
        },
        ImageInfoSelectStrategy::FixToOne(_) => None,
    }
}

/// A validated rule list together with the geolocation settings.
#[derive(Debug, Clone)]
pub struct TrafficEngine {
    rules: Vec<TrafficMatcher>,
    geo_enabled: bool,
    token: String,
}

/// Checks a configuration and builds the engine that serves it.
pub fn generate_match_fn(config: Config) -> (r: Result<TrafficEngine, ConfigError>)
    ensures
        match r {
            Ok(e) => {
                &&& config_problem(config) is None
                &&& e.wf()
                &&& e.rules() == config.traffic_matchers@
                &&& e.geo_enabled() == (config.ip_info_enable == Some(true))
                &&& e.token() == match config.ip_info_token {
                    Some(t) => t@,
                    None => Seq::<char>::empty(),
                }
            },
            Err(err) => config_problem(config) == Some(err),
        },
{
    let enabled = match config.ip_info_enable {
        Some(b) => b,
        None => false,
    };
    if enabled && config.ip_info_token.is_none() {
        return Err(ConfigError::MissingToken);
    }
    let ghost rules = config.traffic_matchers@;
    let mut i: usize = 0;
    while i < config.traffic_matchers.len()
        invariant
            rules == config.traffic_matchers@,
            !(config.ip_info_enable == Some(true) && config.ip_info_token is None),
            i <= rules.len(),
            first_problem(rules, 0) == first_problem(rules, i as int),
            forall|k: int| 0 <= k < i ==> (#[trigger] matcher_problem(rules[k], k)) is None,
        decreases rules.len() - i,
    {
        if let Some(e) = check_matcher(&config.traffic_matchers[i], i) {
            assert(first_problem(rules, i as int) == Some(e));
            return Err(e);
        }
        i = i + 1;
    }
    let token = match config.ip_info_token {
        Some(t) => t,
        None => String::new(),
    };
    Ok(TrafficEngine { rules: config.traffic_matchers, geo_enabled: enabled, token })
}

impl TrafficEngine {
    /// The rules, in the order in which they are tried.
    pub closed spec fn rules(&self) -> Seq<TrafficMatcher> {
        self.rules@
    }

    /// Whether region rules may look up where an address is.
    pub closed spec fn geo_enabled(&self) -> bool {
        self.geo_enabled
    }

    /// The credential for the geolocation service; empty where none was given.
    pub closed spec fn token(&self) -> Seq<char> {
        self.token@
    }

    /// Every rule can be used.
    pub closed spec fn wf(&self) -> bool {
        rules_wf(self.rules@)
    }

    /// Whether region rules may look up where an address is.
    pub fn geolocation_enabled(&self) -> (r: bool)
        ensures
            r == self.geo_enabled(),
    {
        self.geo_enabled
    }

    /// The credential for the geolocation service.
    pub fn geolocation_token(&self) -> (r: &String)
        ensures
            r@ == self.token(),
    {
        &self.token
    }

    /// The number of rules.
    pub fn rule_count(&self) -> (r: usize)
        ensures
            r == self.rules().len(),
    {
        self.rules.len()
    }

    /// Tries the rules from position `start` on, and stops at the first that matches or
    /// that needs the country of the address.
    pub fn evaluate_from(&self, ip: &IpAddress, start: usize) -> (r: Evaluation)
        requires
            self.wf(),
            start <= self.rules().len(),
        ensures
            r == scan(self.rules(), *ip, self.geo_enabled(), start as int),
    {
        let mut i = start;
        while i < self.rules.len()
            invariant
                self.wf(),
                start <= i <= self.rules@.len(),
                scan(self.rules@, *ip, self.geo_enabled, start as int) == scan(
                    self.rules@,
                    *ip,
                    self.geo_enabled,
                    i as int,
                ),
            decreases self.rules@.len() - i,
        {
            assert(matcher_problem(self.rules@[i as int], i as int) is None);
            match evaluate_rule(&self.rules[i].0, ip, self.geo_enabled) {
                Some(true) => return Evaluation::Matched(i),
                None => return Evaluation::NeedsCountry(i),
                Some(false) => {},
            }
            i = i + 1;
        }
        Evaluation::NoMatch
    }

    /// Goes on after the lookup that the region rule at `at` asked for: the rule matches
    /// where the lookup gave its country code, else the rules after it are tried.
    pub fn resume_with_country(&self, ip: &IpAddress, at: usize, country: &Option<String>) -> (r: Evaluation)
        requires
            self.wf(),
            at < self.rules().len(),
            self.rules()[at as int].0 is Region,
        ensures
            r == (if self.rules()[at as int].0 matches TrafficMatchRule::Region(code)
                && country_matches(code@, opt_view(*country)) {
                Evaluation::Matched(at)
            } else {
                scan(self.rules(), *ip, self.geo_enabled(), at + 1)
            }),
    {
        if let TrafficMatchRule::Region(code) = &self.rules[at].0 {
            if match_region(code, country) {
                return Evaluation::Matched(at);
            }
        }
        let n = self.rules.len();
        self.evaluate_from(ip, at + 1)
    }

    /// The image for the rule at `at`, picked by that rule's strategy.
    pub fn select_image(&self, at: usize) -> (r: ImageInfo)
        requires
            self.wf(),
            at < self.rules().len(),
        ensures
            self.rules()[at as int].1.may_give(r),
    {
        assert(matcher_problem(self.rules@[at as int], at as int) is None);
        self.rules[at].1.select()
    }
}

} // verus!
