//! Matching rules, the images they lead to, and how an image is chosen.
use vstd::prelude::*;
use crate::ip::{
    Ipv4, masked, to_u32, prefix_mask, octets_of, lemma_ipv4_len, lemma_pack_and, lemma_pack_injective,
    lemma_pack_octets,
};

verus! {

broadcast use lemma_ipv4_len;

/// Where an image is found: a local file, or a URL to redirect the client to.
#[derive(Debug, Clone)]
pub enum ImageInfo {
    Path(String),
    Url(String),
}

impl PartialEq for ImageInfo {
    fn eq(&self, other: &ImageInfo) -> (r: bool) {
        match self {
            ImageInfo::Path(a) => match other {
                ImageInfo::Path(b) => a.eq(b),
                ImageInfo::Url(_) => false,
            },
            ImageInfo::Url(a) => match other {
                ImageInfo::Url(b) => a.eq(b),
                ImageInfo::Path(_) => false,
            },
        }
    }
}

impl vstd::std_specs::cmp::PartialEqSpecImpl for ImageInfo {
    open spec fn obeys_eq_spec() -> bool {
        true
    }

    open spec fn eq_spec(&self, other: &ImageInfo) -> bool {
        match (self, other) {
            (ImageInfo::Path(a), ImageInfo::Path(b)) => a@ == b@,
            (ImageInfo::Url(a), ImageInfo::Url(b)) => a@ == b@,
            _ => false,
        }
    }
}

impl ImageInfo {
    /// A copy of this image reference.
    pub fn duplicate(&self) -> (r: ImageInfo)
        ensures
            r == *self,
    {
        match self {
            ImageInfo::Path(p) => ImageInfo::Path(p.clone()),
            ImageInfo::Url(u) => ImageInfo::Url(u.clone()),
        }
    }
}

/// Relies on rand::rng and rand::Rng::random_range: an index drawn from `0..n`, so below `n`.
#[verifier::external_body]
fn random_index(n: usize) -> (r: usize)
    requires
        n > 0,
    ensures
        r < n,
{
    let mut rng = rand::rng();
    rand::Rng::random_range(&mut rng, 0..n)
}

/// One of `images`, drawn uniformly at random.
pub fn random_select(images: &Vec<ImageInfo>) -> (r: ImageInfo)
    requires
        images@.len() > 0,
    ensures
        exists|i: int| 0 <= i < images@.len() && r == images@[i],
{
    let index = random_index(images.len());
    images[index].duplicate()
}

/// A condition on the client's address.
#[derive(Debug, Clone)]
pub enum TrafficMatchRule {
    /// The address is exactly this one.
    Ipv4Exact(Ipv4),
    /// The address agrees with `ip` on every bit that `mask` sets.
    Ipv4Masked { ip: Ipv4, mask: Ipv4 },
    /// The address agrees with the given one on the leading bits whose count is given.
    Ipv4Cidr(Ipv4, u8),
    /// Geolocation places the address in the country with this code.
    Region(String),
    /// Any IPv4 address.
    Ipv4Default,
    /// Any IPv6 address.
    Ipv6Default,
    /// Any address.
    Default,
}

/// How the image is picked once a rule has matched.
#[derive(Debug, Clone)]
pub enum ImageInfoSelectStrategy {
    /// Always this image.
    FixToOne(ImageInfo),
    /// One of these, drawn uniformly at random each time.
    Random(Vec<ImageInfo>),
}

impl ImageInfoSelectStrategy {
    /// A random choice needs at least one image.
    pub open spec fn wf(&self) -> bool {
        match self {
            ImageInfoSelectStrategy::Random(images) => images@.len() > 0,
            ImageInfoSelectStrategy::FixToOne(_) => true,
        }
    }

    /// Whether `r` is an image that this strategy may give.
    pub open spec fn may_give(&self, r: ImageInfo) -> bool {
        match self {
            ImageInfoSelectStrategy::FixToOne(info) => r == info,
            ImageInfoSelectStrategy::Random(images) => exists|i: int|
                0 <= i < images@.len() && r == images@[i],
        }
    }

    /// A random choice among the images that the configured strings name, in their order.
    pub fn random_from_strings(items: &Vec<String>) -> (r: Self)
        ensures
            r matches ImageInfoSelectStrategy::Random(images) && images@.len() == items@.len()
                && forall|i: int| 0 <= i < items@.len() ==> #[trigger] images@[i] == image_of(items@[i]),
    {
        let mut images: Vec<ImageInfo> = Vec::new();
        let mut i: usize = 0;
        while i < items.len()
            invariant
                i <= items@.len(),
                images@.len() == i,
                forall|k: int| 0 <= k < i ==> #[trigger] images@[k] == image_of(items@[k]),
            decreases items@.len() - i,
        {
            images.push(parse_image_info(items[i].clone()));
            i = i + 1;
        }
        ImageInfoSelectStrategy::Random(images)
    }

    /// Picks the image: the fixed one, or a random one of the list.
    pub fn select(&self) -> (r: ImageInfo)
        requires
            self.wf(),
        ensures
            self.may_give(r),
    {
        match self {
            ImageInfoSelectStrategy::FixToOne(info) => info.duplicate(),
            ImageInfoSelectStrategy::Random(images) => random_select(images),
        }
    }
}

/// A rule and the strategy that picks the image when it matches.
#[derive(Debug, Clone)]
pub struct TrafficMatcher(pub TrafficMatchRule, pub ImageInfoSelectStrategy);

/// The characters of `http://`.
pub open spec fn http_scheme() -> Seq<char> {
    seq!['h', 't', 't', 'p', ':', '/', '/']
}

/// The characters of `https://`.
pub open spec fn https_scheme() -> Seq<char> {
    seq!['h', 't', 't', 'p', 's', ':', '/', '/']
}

/// Whether `s` starts with `p`.
pub open spec fn has_prefix_spec(s: Seq<char>, p: Seq<char>) -> bool {
    p.len() <= s.len() && s.take(p.len() as int) == p
}

/// Whether a configured image string names a URL rather than a file.
pub open spec fn is_url(s: Seq<char>) -> bool {
    has_prefix_spec(s, http_scheme()) || has_prefix_spec(s, https_scheme())
}

/// Whether `s` starts with `p`.
fn has_prefix(s: &str, p: &str) -> (r: bool)
    ensures
        r == has_prefix_spec(s@, p@),
{
    let n = s.unicode_len();
    let m = p.unicode_len();
    if m > n {
        return false;
    }
    let mut i: usize = 0;
    while i < m
        invariant
            m <= n,
            n == s@.len(),
            m == p@.len(),
            i <= m,
            forall|k: int| 0 <= k < i ==> s@[k] == p@[k],
        decreases m - i,
    {
        if s.get_char(i) != p.get_char(i) {
            assert(s@.take(m as int)[i as int] != p@[i as int]);
            return false;
        }
        i = i + 1;
    }
    assert(s@.take(m as int) =~= p@);
    true
}

/// The image that a configured string names.
pub open spec fn image_of(s: String) -> ImageInfo {
    if is_url(s@) {
        ImageInfo::Url(s)
    } else {
        ImageInfo::Path(s)
    }
}

/// Classifies a configured image string: one that starts with `http://` or `https://` is a
/// URL, anything else a file path.
pub fn parse_image_info(s: String) -> (r: ImageInfo)
    ensures
        r == image_of(s),
{
    proof {
        reveal_strlit("http://");
        reveal_strlit("https://");
    }
    assert("http://"@ =~= http_scheme());
    assert("https://"@ =~= https_scheme());
    if has_prefix(s.as_str(), "http://") {
        ImageInfo::Url(s)
    } else if has_prefix(s.as_str(), "https://") {
        ImageInfo::Url(s)
    } else {
        ImageInfo::Path(s)
    }
}

/// Whether `ip` is the address `rule`.
pub open spec fn exact_matches(ip: Seq<u8>, rule: Seq<u8>) -> bool {
    ip == rule
}

/// Whether `ip` and `rule` agree on every bit that `mask` sets.
pub open spec fn masked_matches(ip: Seq<u8>, rule: Seq<u8>, mask: Seq<u8>) -> bool {
    masked(ip, mask) == masked(rule, mask)
}

/// Whether `ip` and `rule` agree on their leading `cidr` bits.
pub open spec fn cidr_matches(ip: Seq<u8>, rule: Seq<u8>, cidr: u8) -> bool {
    to_u32(ip) & prefix_mask(cidr as u32) == to_u32(rule) & prefix_mask(cidr as u32)
}

/// Whether `ip` is the address `rule`.
pub fn match_ipv4_exact(ip: &Ipv4, rule: &Ipv4) -> (r: bool)
    ensures
        r == exact_matches(ip@, rule@),
{
    ip == rule
}

/// Whether `ip` and `rule` agree on every bit that `mask` sets.
pub fn match_ipv4_masked(ip: &Ipv4, rule: &Ipv4, mask: &Ipv4) -> (r: bool)
    ensures
        r == masked_matches(ip@, rule@, mask@),
{
    let ip_octets = ip.to_octets();
    let rule_octets = rule.to_octets();
    let mask_octets = mask.to_octets();
    let mut i: usize = 0;
    while i < 4
        invariant
            i <= 4,
            ip_octets@ == ip@,
            rule_octets@ == rule@,
            mask_octets@ == mask@,
            forall|k: int| 0 <= k < i ==> ip@[k] & mask@[k] == rule@[k] & mask@[k],
        decreases 4 - i,
    {
        if ip_octets[i] & mask_octets[i] != rule_octets[i] & mask_octets[i] {
            assert(masked(ip@, mask@)[i as int] != masked(rule@, mask@)[i as int]);
            return false;
        }
        i = i + 1;
    }
    assert(masked(ip@, mask@) =~= masked(rule@, mask@));
    true
}

/// Whether `ip` and `rule` agree on their leading `cidr` bits.
pub fn match_ipv4_cidr(ip: &Ipv4, rule: &Ipv4, cidr: u8) -> (r: bool)
    requires
        cidr <= 32,
    ensures
        r == cidr_matches(ip@, rule@, cidr),
{
    let ip_int = ip.to_u32();
    let rule_int = rule.to_u32();
    let mask: u32 = if cidr == 0 {
        0
    } else {
        (!0u32) << (32 - cidr as u32)
    };
    (ip_int & mask) == (rule_int & mask)
}

/// An address matches itself exactly, and matches no other address exactly.
pub proof fn lemma_exact_match_is_equality(a: Ipv4, b: Ipv4)
    ensures
        exact_matches(a@, a@),
        a@ != b@ ==> !exact_matches(a@, b@),
{
}

/// A prefix of length zero matches every address; a prefix of length 32 matches exactly
/// when an exact rule would.
pub proof fn lemma_cidr_extremes(ip: Ipv4, rule: Ipv4)
    ensures
        cidr_matches(ip@, rule@, 0),
        cidr_matches(ip@, rule@, 32) == exact_matches(ip@, rule@),
{
    let x = to_u32(ip@);
    let y = to_u32(rule@);
    assert(x & 0u32 == y & 0u32) by (bit_vector);
    assert(x & ((!0u32) << 0u32) == x && y & ((!0u32) << 0u32) == y) by (bit_vector);
    assert(prefix_mask(32) == (!0u32) << 0u32);
    lemma_pack_injective(ip@[0], ip@[1], ip@[2], ip@[3], rule@[0], rule@[1], rule@[2], rule@[3]);
    if x == y {
        assert(ip@ =~= rule@);
    }
}

/// Matching under the octets of the mask of a prefix length is the same as matching on
/// that prefix length.
pub proof fn lemma_masked_agrees_with_cidr(ip: Ipv4, rule: Ipv4, cidr: u8)
    requires
        cidr <= 32,
    ensures
        masked_matches(ip@, rule@, octets_of(prefix_mask(cidr as u32))) == cidr_matches(ip@, rule@, cidr),
{
    let big = prefix_mask(cidr as u32);
    let m = octets_of(big);
    lemma_pack_octets(big);
    lemma_pack_and(
        ip@[0], ip@[1], ip@[2], ip@[3], rule@[0], rule@[1], rule@[2], rule@[3], m[0], m[1], m[2], m[3],
    );
    if masked_matches(ip@, rule@, m) {
        assert(masked(ip@, m)[0] == masked(rule@, m)[0]);
        assert(masked(ip@, m)[1] == masked(rule@, m)[1]);
        assert(masked(ip@, m)[2] == masked(rule@, m)[2]);
        assert(masked(ip@, m)[3] == masked(rule@, m)[3]);
    }
    if cidr_matches(ip@, rule@, cidr) {
        assert(masked(ip@, m) =~= masked(rule@, m));
    }
}

} // verus!
