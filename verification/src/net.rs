//! Plain-value model of IP addresses and CIDR blocks.
//!
//! An address is held as its numeric value (IPv4 addresses occupy the low 32
//! bits), so that network containment is pure bit arithmetic and can be
//! verified.  Only the textual CIDR parser is delegated to the `ipnet` crate.

use vstd::prelude::*;

verus! {

/// An IP address: the numeric value of the address, and its family.
#[derive(Clone, Copy, Debug, PartialEq, Eq, Structural)]
pub struct IpAddress {
    /// Numeric value; an IPv4 address occupies the low 32 bits.
    pub bits: u128,
    /// True for IPv4, false for IPv6.
    pub v4: bool,
}

/// A CIDR block: an address, a prefix length, and the family.
#[derive(Clone, Copy, Debug, PartialEq, Eq, Structural)]
pub struct Cidr {
    /// Numeric value of the address as written (host bits are kept).
    pub bits: u128,
    /// Prefix length; at most 32 for IPv4 and 128 for IPv6.
    pub prefix: u8,
    /// True for IPv4, false for IPv6.
    pub v4: bool,
}

impl IpAddress {
    /// A well-formed IPv4 address fits in 32 bits.
    pub open spec fn wf(self) -> bool {
        self.v4 ==> self.bits < 0x1_0000_0000u128
    }

    /// The /32 or /128 block holding exactly this address.
    pub open spec fn spec_host_cidr(self) -> Cidr {
        Cidr { bits: self.bits, prefix: if self.v4 { 32u8 } else { 128u8 }, v4: self.v4 }
    }

    /// The /32 or /128 block holding exactly this address.
    pub fn host_cidr(self) -> (r: Cidr)
        ensures
            r == self.spec_host_cidr(),
    {
        if self.v4 {
            Cidr { bits: self.bits, prefix: 32, v4: true }
        } else {
            Cidr { bits: self.bits, prefix: 128, v4: false }
        }
    }
}

impl Cidr {
    /// Prefix lengths are bounded by the family's width, and an IPv4 block
    /// fits in 32 bits.
    pub open spec fn wf(self) -> bool {
        &&& self.v4 ==> self.bits < 0x1_0000_0000u128 && self.prefix <= 32
        &&& !self.v4 ==> self.prefix <= 128
    }

    /// The number of host bits below the prefix.
    pub open spec fn spec_shift(self) -> u128 {
        ((if self.v4 { 32int } else { 128int }) - self.prefix as int) as u128
    }

    /// Whether the block contains the address: same family, and the prefix
    /// bits agree.
    pub open spec fn spec_contains(self, ip: IpAddress) -> bool {
        &&& self.v4 == ip.v4
        &&& (self.prefix == 0 || (ip.bits >> self.spec_shift()) == (self.bits >> self.spec_shift()))
    }

    /// Whether the block contains the address.
    pub fn contains(&self, ip: &IpAddress) -> (r: bool)
        requires
            self.wf(),
        ensures
            r == self.spec_contains(*ip),
    {
        if self.v4 != ip.v4 {
            false
        } else if self.prefix == 0 {
            true
        } else {
            let width: u8 = if self.v4 { 32 } else { 128 };
            let shift: u8 = width - self.prefix;
            (ip.bits >> shift as u128) == (self.bits >> shift as u128)
        }
    }

    /// The network address: the block's address with the host bits cleared.
    pub open spec fn spec_network(self) -> u128 {
        if self.prefix == 0 {
            0u128
        } else {
            (self.bits >> self.spec_shift()) << self.spec_shift()
        }
    }

    /// The first usable host address of the block, as a kubelet address is
    /// derived from a pod CIDR: the address after the IPv4 network address
    /// (when the block has distinct network and broadcast addresses), else
    /// the network address itself.
    pub open spec fn spec_first_host(self) -> IpAddress {
        if self.v4 && self.prefix <= 30 {
            IpAddress { bits: (self.spec_network() + 1) as u128, v4: true }
        } else {
            IpAddress { bits: self.spec_network(), v4: self.v4 }
        }
    }

    /// The first usable host address of the block.
    pub fn first_host(&self) -> (r: IpAddress)
        requires
            self.wf(),
        ensures
            r == self.spec_first_host(),
            r.wf(),
    {
        let network: u128 = if self.prefix == 0 {
            0
        } else {
            let width: u8 = if self.v4 { 32 } else { 128 };
            let shift: u8 = width - self.prefix;
            (self.bits >> shift as u128) << shift as u128
        };
        if self.v4 && self.prefix <= 30 {
            proof {
                lemma_v4_network_bounded(*self);
            }
            IpAddress { bits: network + 1, v4: true }
        } else {
            proof {
                if self.v4 {
                    lemma_v4_network_bounded(*self);
                }
            }
            IpAddress { bits: network, v4: self.v4 }
        }
    }
}

/// The network address of a well-formed IPv4 block is a multiple of the host
/// stride and leaves room for the following address.
proof fn lemma_v4_network_bounded(c: Cidr)
    requires
        c.wf(),
        c.v4,
    ensures
        c.spec_network() < 0x1_0000_0000u128,
        c.prefix <= 30 ==> c.spec_network() + 1 < 0x1_0000_0000u128,
{
    if c.prefix != 0 {
        let s: u128 = c.spec_shift();
        let bits: u128 = c.bits;
        assert(((bits >> s) << s) <= bits && (2 <= s ==> ((bits >> s) << s) + 1
            < 0x1_0000_0000u128)) by (bit_vector)
            requires
                bits < 0x1_0000_0000u128,
                s < 32u128,
        ;
    }
}

/// A client network: a block and a list of excluded blocks.  An address is
/// inside the network when the block contains it and no exclusion does.
#[derive(Debug, PartialEq, Eq)]
pub struct ClientNetwork {
    pub net: Cidr,
    pub except: Vec<Cidr>,
}

impl Clone for ClientNetwork {
    /// A clone carries the same block and exclusions.
    fn clone(&self) -> (r: Self)
        ensures
            r@ == self@,
    {
        let except = self.except.clone();
        assert(except@ =~= self.except@);
        ClientNetwork { net: self.net, except }
    }
}

/// View of a client network: the block and the excluded blocks.
#[verifier::ext_equal]
pub struct ClientNetworkView {
    pub net: Cidr,
    pub except: Seq<Cidr>,
}

impl View for ClientNetwork {
    type V = ClientNetworkView;

    open spec fn view(&self) -> ClientNetworkView {
        ClientNetworkView { net: self.net, except: self.except@ }
    }
}

impl DeepView for ClientNetwork {
    type V = ClientNetworkView;

    open spec fn deep_view(&self) -> ClientNetworkView {
        self.view()
    }
}

impl ClientNetworkView {
    pub open spec fn wf(self) -> bool {
        &&& self.net.wf()
        &&& forall|i: int| 0 <= i < self.except.len() ==> (#[trigger] self.except[i]).wf()
    }

    /// Membership: inside the block and outside every exclusion.
    pub open spec fn spec_contains(self, ip: IpAddress) -> bool {
        &&& self.net.spec_contains(ip)
        &&& !exists|i: int|
            0 <= i < self.except.len() && (#[trigger] self.except[i]).spec_contains(ip)
    }
}

impl ClientNetwork {
    pub open spec fn wf(self) -> bool {
        &&& self.net.wf()
        &&& forall|i: int| 0 <= i < self.except@.len() ==> (#[trigger] self.except@[i]).wf()
    }

    /// Whether the address is inside the network: inside the block and
    /// outside every exclusion.
    pub fn contains(&self, ip: &IpAddress) -> (r: bool)
        requires
            self.wf(),
        ensures
            r == self@.spec_contains(*ip),
    {
        if !self.net.contains(ip) {
            return false;
        }
        let mut i: usize = 0;
        while i < self.except.len()
            invariant
                i <= self.except@.len(),
                self.wf(),
                forall|j: int| 0 <= j < i ==> !(#[trigger] self.except@[j]).spec_contains(*ip),
            decreases self.except@.len() - i,
        {
            if self.except[i].contains(ip) {
                assert(self@.except[i as int].spec_contains(*ip));
                return false;
            }
            i += 1;
        }
        true
    }

    /// The network holding every address of the family: 0.0.0.0/0 or ::/0.
    pub fn any(v4: bool) -> (r: ClientNetwork)
        ensures
            r.wf(),
            r@.net == (Cidr { bits: 0u128, prefix: 0u8, v4: v4 }),
            r@.except =~= Seq::<Cidr>::empty(),
    {
        ClientNetwork { net: Cidr { bits: 0, prefix: 0, v4 }, except: Vec::new() }
    }

    /// The network holding exactly one address.
    pub fn from_address(ip: IpAddress) -> (r: ClientNetwork)
        requires
            ip.wf(),
        ensures
            r.wf(),
            r@.net == ip.spec_host_cidr(),
            r@.except =~= Seq::<Cidr>::empty(),
    {
        ClientNetwork { net: ip.host_cidr(), except: Vec::new() }
    }
}

/// A network whose view is well-formed is well-formed.
pub proof fn lemma_network_wf_from_view(n: ClientNetwork)
    requires
        n@.wf(),
    ensures
        n.wf(),
{
    assert forall|i: int| 0 <= i < n.except@.len() implies (#[trigger] n.except@[i]).wf() by {
        assert(n@.except[i].wf());
    }
}

/// The block holding exactly an address contains that address.
pub proof fn lemma_host_cidr_contains(ip: IpAddress)
    requires
        ip.wf(),
    ensures
        ip.spec_host_cidr().spec_contains(ip),
{
}

/// Excluding an address wins over the block: a network whose exclusions hold
/// the address never contains it, whatever its block.
pub proof fn lemma_exclusion_wins(n: ClientNetworkView, a: IpAddress, i: int)
    requires
        0 <= i < n.except.len(),
        n.except[i].spec_contains(a),
    ensures
        !n.spec_contains(a),
{
}

/// Against the all-addresses block, membership is exactly "no exclusion
/// covers the address" (for addresses of the block's family).
pub proof fn lemma_any_net_contains(n: ClientNetworkView, a: IpAddress)
    requires
        n.net.prefix == 0,
        n.net.v4 == a.v4,
    ensures
        n.spec_contains(a) <==> !exists|i: int|
            0 <= i < n.except.len() && (#[trigger] n.except[i]).spec_contains(a),
{
}

/// The name of what `ipnet`'s CIDR parser returns for a string, a function of
/// the characters alone.
pub uninterp spec fn parsed_cidr(s: Seq<char>) -> Option<Cidr>;

/// Relies on `ipnet::IpNet`'s `FromStr`: parses `"addr/len"` in either
/// family; the result depends on the characters alone, and a parsed prefix
/// length never exceeds the family's width.
#[verifier::external_body]
pub(crate) fn parse_cidr(s: &str) -> (r: Option<Cidr>)
    ensures
        r == parsed_cidr(s@),
        r is Some ==> r->Some_0.wf(),
{
    match s.parse::<ipnet::IpNet>() {
        Ok(ipnet::IpNet::V4(n)) => Some(
            Cidr { bits: u32::from(n.addr()) as u128, prefix: n.prefix_len(), v4: true },
        ),
        Ok(ipnet::IpNet::V6(n)) => Some(
            Cidr { bits: u128::from(n.addr()), prefix: n.prefix_len(), v4: false },
        ),
        Err(_) => None,
    }
}

} // verus!
