//! IPv4 addresses as four octets, with masking, prefix masks, parsing and printing.
use vstd::prelude::*;

verus! {

/// An IPv4 address, stored as its four octets in network order.
#[derive(Clone, Copy, Debug)]
pub struct Ipv4 {
    address: [u8; 4],
}

impl PartialEq for Ipv4 {
    fn eq(&self, other: &Ipv4) -> (r: bool) {
        let r = self.address[0] == other.address[0] && self.address[1] == other.address[1]
            && self.address[2] == other.address[2] && self.address[3] == other.address[3];
        assert(r ==> self.address@ =~= other.address@);
        r
    }
}

impl vstd::std_specs::cmp::PartialEqSpecImpl for Ipv4 {
    open spec fn obeys_eq_spec() -> bool {
        true
    }

    open spec fn eq_spec(&self, other: &Ipv4) -> bool {
        self@ == other@
    }
}

impl View for Ipv4 {
    type V = Seq<u8>;

    closed spec fn view(&self) -> Seq<u8> {
        self.address@
    }
}

/// Every address has four octets.
pub broadcast proof fn lemma_ipv4_len(a: Ipv4)
    ensures
        #[trigger] a@.len() == 4,
{
}

/// A client address of either family.
#[derive(Clone, Copy, Debug)]
pub enum IpAddress {
    V4(Ipv4),
    /// An IPv6 address as its sixteen octets in network order.
    V6([u8; 16]),
}

/// The octets of `a` under `m`, octet by octet.
pub open spec fn masked(a: Seq<u8>, m: Seq<u8>) -> Seq<u8> {
    Seq::new(4, |i: int| a[i] & m[i])
}

/// The big-endian 32-bit integer of four octets.
pub open spec fn pack(a0: u8, a1: u8, a2: u8, a3: u8) -> u32 {
    ((a0 as u32) << 24u32) | ((a1 as u32) << 16u32) | ((a2 as u32) << 8u32) | (a3 as u32)
}

/// The big-endian 32-bit integer of an address.
pub open spec fn to_u32(a: Seq<u8>) -> u32 {
    pack(a[0], a[1], a[2], a[3])
}

/// The mask whose top `p` bits are set.
pub open spec fn prefix_mask(p: u32) -> u32 {
    if p == 0 {
        0
    } else {
        (!0u32) << ((32 - p) as u32)
    }
}

/// The four octets of a 32-bit integer, most significant first.
pub open spec fn octets_of(m: u32) -> Seq<u8> {
    seq![(m >> 24u32) as u8, (m >> 16u32) as u8, (m >> 8u32) as u8, m as u8]
}

/// Packing the four octets of `m` gives back `m`.
pub proof fn lemma_pack_octets(m: u32)
    ensures
        pack((m >> 24u32) as u8, (m >> 16u32) as u8, (m >> 8u32) as u8, m as u8) == m,
{
    assert(((((m >> 24u32) as u8) as u32) << 24u32) | ((((m >> 16u32) as u8) as u32) << 16u32)
        | ((((m >> 8u32) as u8) as u32) << 8u32) | ((m as u8) as u32) == m) by (bit_vector);
}

/// Two packed addresses agree under a packed mask exactly when they agree octet by octet.
pub proof fn lemma_pack_and(x0: u8, x1: u8, x2: u8, x3: u8, y0: u8, y1: u8, y2: u8, y3: u8, m0: u8, m1: u8, m2: u8, m3: u8)
    ensures
        ((pack(x0, x1, x2, x3) & pack(m0, m1, m2, m3)) == (pack(y0, y1, y2, y3) & pack(m0, m1, m2, m3)))
            == (x0 & m0 == y0 & m0 && x1 & m1 == y1 & m1 && x2 & m2 == y2 & m2 && x3 & m3 == y3 & m3),
{
    assert((((((x0 as u32) << 24u32) | ((x1 as u32) << 16u32) | ((x2 as u32) << 8u32) | (x3 as u32))
        & (((m0 as u32) << 24u32) | ((m1 as u32) << 16u32) | ((m2 as u32) << 8u32) | (m3 as u32)))
        == ((((y0 as u32) << 24u32) | ((y1 as u32) << 16u32) | ((y2 as u32) << 8u32) | (y3 as u32))
        & (((m0 as u32) << 24u32) | ((m1 as u32) << 16u32) | ((m2 as u32) << 8u32) | (m3 as u32))))
        == (x0 & m0 == y0 & m0 && x1 & m1 == y1 & m1 && x2 & m2 == y2 & m2 && x3 & m3 == y3 & m3))
        by (bit_vector);
}

/// Packing is one to one.
pub proof fn lemma_pack_injective(x0: u8, x1: u8, x2: u8, x3: u8, y0: u8, y1: u8, y2: u8, y3: u8)
    ensures
        (pack(x0, x1, x2, x3) == pack(y0, y1, y2, y3)) == (x0 == y0 && x1 == y1 && x2 == y2 && x3 == y3),
{
    assert(((((x0 as u32) << 24u32) | ((x1 as u32) << 16u32) | ((x2 as u32) << 8u32) | (x3 as u32))
        == (((y0 as u32) << 24u32) | ((y1 as u32) << 16u32) | ((y2 as u32) << 8u32) | (y3 as u32)))
        == (x0 == y0 && x1 == y1 && x2 == y2 && x3 == y3)) by (bit_vector);
}

/// The pieces of `s` between dots, in order; a string without dots is one piece.
pub open spec fn split_dots(s: Seq<char>) -> Seq<Seq<char>>
    decreases s.len(),
{
    if s.len() == 0 {
        seq![Seq::<char>::empty()]
    } else {
        let p = split_dots(s.drop_last());
        if s.last() == '.' {
            p.push(Seq::<char>::empty())
        } else {
            p.update(p.len() - 1, p.last().push(s.last()))
        }
    }
}

/// Whether `c` is a decimal digit.
pub open spec fn is_digit(c: char) -> bool {
    '0' <= c && c <= '9'
}

/// Whether every character of `d` is a decimal digit.
pub open spec fn all_digits(d: Seq<char>) -> bool {
    forall|i: int| 0 <= i < d.len() ==> is_digit(#[trigger] d[i])
}

/// The number that a string of decimal digits denotes.
pub open spec fn digits_value(t: Seq<char>) -> nat
    decreases t.len(),
{
    if t.len() == 0 {
        0
    } else {
        10 * digits_value(t.drop_last()) + ((t.last() as u32 - '0' as u32) as nat)
    }
}

/// The octet that `t` denotes: an optional `+`, then at least one decimal digit, with a
/// value of at most 255.
pub open spec fn octet_literal(t: Seq<char>) -> Option<u8> {
    let d = if t.len() > 0 && t[0] == '+' {
        t.drop_first()
    } else {
        t
    };
    if d.len() > 0 && all_digits(d) && digits_value(d) <= 255 {
        Some(digits_value(d) as u8)
    } else {
        None
    }
}

/// The address that `s` writes: at most four dot-separated octets, the missing ones zero.
pub open spec fn parse_ipv4(s: Seq<char>) -> Option<Seq<u8>> {
    let p = split_dots(s);
    if p.len() <= 4 && (forall|k: int| 0 <= k < p.len() ==> (#[trigger] octet_literal(p[k])) is Some) {
        Some(Seq::new(4, |i: int| if i < p.len() { octet_literal(p[i])->0 } else { 0 }))
    } else {
        None
    }
}

/// There is always at least one piece.
pub proof fn lemma_split_dots_nonempty(s: Seq<char>)
    ensures
        split_dots(s).len() >= 1,
    decreases s.len(),
{
    if s.len() > 0 {
        lemma_split_dots_nonempty(s.drop_last());
    }
}

/// The pieces of a prefix, but its last, are pieces of the whole string.
pub proof fn lemma_split_dots_prefix(s: Seq<char>, i: int)
    requires
        0 <= i <= s.len(),
    ensures
        split_dots(s).len() >= split_dots(s.take(i)).len(),
        forall|k: int| 0 <= k < split_dots(s.take(i)).len() - 1 ==> #[trigger] split_dots(s)[k]
            == split_dots(s.take(i))[k],
    decreases s.len(),
{
    if i < s.len() {
        let t = s.drop_last();
        assert(t.take(i) =~= s.take(i));
        lemma_split_dots_prefix(t, i);
        lemma_split_dots_nonempty(t);
    } else {
        assert(s.take(i) =~= s);
    }
}

/// Extending a string by one character extends or ends its last piece.
pub proof fn lemma_split_dots_step(s: Seq<char>, i: int)
    requires
        0 <= i < s.len(),
    ensures
        s.take(i + 1).drop_last() == s.take(i),
        s.take(i + 1).last() == s[i],
{
    assert(s.take(i + 1).drop_last() =~= s.take(i));
}

/// Parses the octet written in `s` between character positions `lo` and `hi`.
fn parse_octet(s: &str, lo: usize, hi: usize) -> (r: Option<u8>)
    requires
        lo <= hi <= s@.len(),
    ensures
        r == octet_literal(s@.subrange(lo as int, hi as int)),
{
    let ghost t = s@.subrange(lo as int, hi as int);
    let mut start = lo;
    if lo < hi && s.get_char(lo) == '+' {
        start = lo + 1;
    }
    let ghost d = s@.subrange(start as int, hi as int);
    assert(d =~= (if t.len() > 0 && t[0] == '+' { t.drop_first() } else { t }));
    if start == hi {
        return None;
    }
    let mut v: u32 = 0;
    let mut j = start;
    while j < hi
        invariant
            lo <= start <= j <= hi <= s@.len(),
            d == s@.subrange(start as int, hi as int),
            t == s@.subrange(lo as int, hi as int),
            d == (if t.len() > 0 && t[0] == '+' { t.drop_first() } else { t }),
            v <= 256,
            forall|k: int| start <= k < j ==> is_digit(#[trigger] s@[k]),
            v == if digits_value(s@.subrange(start as int, j as int)) < 256 {
                digits_value(s@.subrange(start as int, j as int))
            } else {
                256
            },
        decreases hi - j,
    {
        let c = s.get_char(j);
        if !('0' <= c && c <= '9') {
            assert(!is_digit(d[j - start]));
            return None;
        }
        let ghost old_value = digits_value(s@.subrange(start as int, j as int));
        let ghost u = s@.subrange(start as int, j + 1);
        assert(u.drop_last() =~= s@.subrange(start as int, j as int));
        assert(u.last() == c);
        let dv = c as u32 - '0' as u32;
        assert(digits_value(u) == 10 * old_value + dv);
        v = v * 10 + dv;
        if v > 255 {
            v = 256;
        }
        assert(v == if digits_value(u) < 256 { digits_value(u) } else { 256 }) by (nonlinear_arith)
            requires
                digits_value(u) == 10 * old_value + dv,
                dv <= 9,
                v == if 10 * (if old_value < 256 { old_value } else { 256 }) + dv > 255 { 256 } else {
                    10 * (if old_value < 256 { old_value } else { 256 }) + dv
                },
        ;
        j = j + 1;
    }
    assert(s@.subrange(start as int, j as int) =~= d);
    if v <= 255 {
        Some(v as u8)
    } else {
        None
    }
}

/// The character of a decimal digit.
pub open spec fn digit_char(d: nat) -> char {
    seq!['0', '1', '2', '3', '4', '5', '6', '7', '8', '9'][d as int]
}

/// The decimal digits of `n`, without leading zeros.
pub open spec fn decimal(n: nat) -> Seq<char>
    decreases n,
{
    if n < 10 {
        seq![digit_char(n)]
    } else {
        decimal(n / 10).push(digit_char(n % 10))
    }
}

/// The dotted-decimal text of an address.
pub open spec fn dotted(a: Seq<u8>) -> Seq<char> {
    decimal(a[0] as nat) + seq!['.'] + decimal(a[1] as nat) + seq!['.'] + decimal(a[2] as nat)
        + seq!['.'] + decimal(a[3] as nat)
}

/// The one-character text of a decimal digit.
fn digit_str(d: u8) -> (r: &'static str)
    requires
        d < 10,
    ensures
        r@ == seq![digit_char(d as nat)],
{
    proof {
        reveal_strlit("0");
        reveal_strlit("1");
        reveal_strlit("2");
        reveal_strlit("3");
        reveal_strlit("4");
        reveal_strlit("5");
        reveal_strlit("6");
        reveal_strlit("7");
        reveal_strlit("8");
        reveal_strlit("9");
    }
    let r = match d {
        0 => "0",
        1 => "1",
        2 => "2",
        3 => "3",
        4 => "4",
        5 => "5",
        6 => "6",
        7 => "7",
        8 => "8",
        _ => "9",
    };
    assert(r@ =~= seq![digit_char(d as nat)]);
    r
}

/// Appends the decimal digits of `v` to `out`.
fn push_decimal(out: &mut String, v: u8)
    ensures
        final(out)@ == old(out)@ + decimal(v as nat),
{
    let ghost start = out@;
    if v >= 100 {
        out.append(digit_str(v / 100));
    }
    if v >= 10 {
        out.append(digit_str((v / 10) % 10));
    }
    out.append(digit_str(v % 10));
    proof {
        let n = v as nat;
        if n >= 100 {
            let m = n / 10;
            assert(m / 10 == n / 100 && n / 100 < 10 && m >= 10);
            assert(decimal(m / 10) == seq![digit_char(m / 10)]);
            assert(decimal(m) == decimal(m / 10).push(digit_char(m % 10)));
            assert(decimal(n) == decimal(m).push(digit_char(n % 10)));
            assert(out@ =~= start + decimal(n));
        } else if n >= 10 {
            assert(n / 10 < 10 && (n / 10) % 10 == n / 10);
            assert(decimal(n / 10) == seq![digit_char(n / 10)]);
            assert(decimal(n) == decimal(n / 10).push(digit_char(n % 10)));
            assert(out@ =~= start + decimal(n));
        } else {
            assert(out@ =~= start + decimal(n));
        }
    }
}

impl Ipv4 {
    /// The address with the given octets.
    pub fn new(addr: [u8; 4]) -> (r: Self)
        ensures
            r@ == addr@,
    {
        Ipv4 { address: addr }
    }

    /// The octets of the address, each and-ed with the octet of `mask` at the same place.
    pub fn mask(&self, mask: &[u8; 4]) -> (r: [u8; 4])
        ensures
            r@ == masked(self@, mask@),
    {
        let r = [
            self.address[0] & mask[0],
            self.address[1] & mask[1],
            self.address[2] & mask[2],
            self.address[3] & mask[3],
        ];
        assert(r@ =~= masked(self@, mask@));
        r
    }

    /// Whether `a` and `b` agree on every bit that `mask` sets.
    pub fn compare(a: &Self, b: &Self, mask: &[u8; 4]) -> (r: bool)
        ensures
            r == (masked(a@, mask@) == masked(b@, mask@)),
    {
        let a_masked = a.mask(mask);
        let b_masked = b.mask(mask);
        let r = a_masked[0] == b_masked[0] && a_masked[1] == b_masked[1] && a_masked[2]
            == b_masked[2] && a_masked[3] == b_masked[3];
        assert(r ==> a_masked@ =~= b_masked@);
        r
    }

    /// Reads an address written as dot-separated decimal octets. Fewer than four octets leave
    /// the rest zero; more than four, or an octet that is not a number up to 255, give `None`.
    pub fn from_string(ip_str: &str) -> (r: Option<Self>)
        ensures
            match r {
                Some(a) => parse_ipv4(ip_str@) == Some(a@),
                None => parse_ipv4(ip_str@) is None,
            },
    {
        let ghost s = ip_str@;
        let n = ip_str.unicode_len();
        let mut result: [u8; 4] = [0; 4];
        let mut count: usize = 0;
        let mut start: usize = 0;
        let mut i: usize = 0;
        assert(s.take(0) =~= Seq::<char>::empty());
        while i < n
            invariant
                s == ip_str@,
                n == s.len(),
                start <= i <= n,
                count <= 3,
                split_dots(s.take(i as int)).len() == count + 1,
                split_dots(s.take(i as int)).last() == s.subrange(start as int, i as int),
                forall|k: int| 0 <= k < count ==> octet_literal(#[trigger] split_dots(s.take(i as int))[k]) == Some(result[k]),
                forall|k: int| count <= k < 4 ==> result[k] == 0,
            decreases n - i,
        {
            let ghost p = split_dots(s.take(i as int));
            proof {
                lemma_split_dots_step(s, i as int);
            }
            if ip_str.get_char(i) == '.' {
                proof {
                    lemma_split_dots_prefix(s, i + 1);
                }
                if count == 3 {
                    return None;
                }
                match parse_octet(ip_str, start, i) {
                    None => {
                        assert(split_dots(s)[count as int] == p[count as int]);
                        return None;
                    },
                    Some(v) => {
                        result[count] = v;
                    },
                }
                count = count + 1;
                start = i + 1;
            } else {
                assert(s.subrange(start as int, i + 1) =~= s.subrange(start as int, i as int).push(s[i as int]));
            }
            i = i + 1;
        }
        assert(s.take(n as int) =~= s);
        match parse_octet(ip_str, start, n) {
            None => {
                assert(octet_literal(split_dots(s)[count as int]) is None);
                None
            },
            Some(v) => {
                result[count] = v;
                let r = Ipv4::new(result);
                assert(r@ =~= parse_ipv4(s)->0);
                Some(r)
            },
        }
    }

    /// The address in dotted-decimal form, such as `192.168.1.1`.
    pub fn to_string(&self) -> (r: String)
        ensures
            r@ == dotted(self@),
    {
        proof {
            reveal_strlit(".");
        }
        let mut r = String::new();
        push_decimal(&mut r, self.address[0]);
        r.append(".");
        push_decimal(&mut r, self.address[1]);
        r.append(".");
        push_decimal(&mut r, self.address[2]);
        r.append(".");
        push_decimal(&mut r, self.address[3]);
        assert(r@ =~= dotted(self@));
        r
    }

    /// The four octets of the address.
    pub fn to_octets(&self) -> (r: [u8; 4])
        ensures
            r@ == self@,
    {
        self.address
    }

    /// The address as a big-endian 32-bit integer.
    pub fn to_u32(&self) -> (r: u32)
        ensures
            r == to_u32(self@),
    {
        ((self.address[0] as u32) << 24u32) | ((self.address[1] as u32) << 16u32) | ((
        self.address[2] as u32) << 8u32) | (self.address[3] as u32)
    }

    /// The octets of the mask whose top `cidr` bits are set.
    pub fn cidr_to_mask(cidr: u8) -> (r: [u8; 4])
        requires
            cidr <= 32,
        ensures
            r@ == octets_of(prefix_mask(cidr as u32)),
    {
        let m: u32 = if cidr == 0 {
            0
        } else {
            (!0u32) << (32 - cidr as u32)
        };
        let r = [(m >> 24u32) as u8, (m >> 16u32) as u8, (m >> 8u32) as u8, m as u8];
        assert(r@ =~= octets_of(prefix_mask(cidr as u32)));
        r
    }
}

} // verus!
