//! IP addresses and networks as plain numbers, with the arithmetic of
//! `ipnet`: network and broadcast addresses, containment, host ranges.
use vstd::arithmetic::power2::{pow2, lemma_pow2_adds, lemma_pow2_pos, lemma2_to64};
use vstd::prelude::*;

verus! {

/// An IPv4 or IPv6 address, by its numeric value.
#[derive(Clone, Copy, Debug, PartialEq, Eq, Structural)]
pub enum IpAddress {
    V4(u32),
    V6(u128),
}

/// An IP network: an address and a prefix length, as `ipnet::IpNet` holds
/// them (the address keeps its host bits).
#[derive(Clone, Copy, Debug, PartialEq, Eq, Structural)]
pub struct IpNet {
    pub addr: IpAddress,
    pub prefix: u8,
}

impl IpAddress {
    /// The number of bits of the address family.
    pub open spec fn bits(self) -> nat {
        match self {
            IpAddress::V4(_) => 32,
            IpAddress::V6(_) => 128,
        }
    }

    pub open spec fn value(self) -> nat {
        match self {
            IpAddress::V4(a) => a as nat,
            IpAddress::V6(a) => a as nat,
        }
    }

    pub open spec fn same_family(self, other: IpAddress) -> bool {
        self.is_v4() == other.is_v4()
    }

    pub open spec fn is_v4(self) -> bool {
        self is V4
    }

    pub fn is_ipv4(&self) -> (r: bool)
        ensures
            r == self.is_v4(),
    {
        match self {
            IpAddress::V4(_) => true,
            IpAddress::V6(_) => false,
        }
    }

    pub fn numeric(&self) -> (r: u128)
        ensures
            r == self.value(),
    {
        match self {
            IpAddress::V4(a) => *a as u128,
            IpAddress::V6(a) => *a,
        }
    }
}

/// `pow2(32)` and `pow2(128)` as numbers.
pub proof fn lemma_family_sizes()
    ensures
        pow2(32) == 0x1_0000_0000,
        pow2(128) == 0x1_0000_0000_0000_0000_0000_0000_0000_0000,
{
    lemma2_to64();
    lemma_pow2_adds(64, 64);
}

pub proof fn lemma_value_bound(a: IpAddress)
    ensures
        a.value() < pow2(a.bits()),
{
    lemma_family_sizes();
}

impl IpNet {
    /// The number of host bits; a prefix beyond the family's width leaves none.
    pub open spec fn host_bits(self) -> nat {
        if self.prefix as nat >= self.addr.bits() {
            0
        } else {
            (self.addr.bits() - self.prefix as nat) as nat
        }
    }

    /// The number of addresses of the network.
    pub open spec fn block(self) -> nat {
        pow2(self.host_bits())
    }

    /// The first address of the network (`network()` of `ipnet`).
    pub open spec fn network(self) -> nat {
        (self.addr.value() - self.addr.value() % self.block()) as nat
    }

    /// The last address of the network (`broadcast()` of `ipnet`).
    pub open spec fn broadcast(self) -> nat {
        (self.network() + self.block() - 1) as nat
    }

    /// `ipnet`'s `contains` on two networks: same family, and the range of
    /// `other` lies within that of `self`.
    pub open spec fn contains_net(self, other: IpNet) -> bool {
        &&& self.addr.same_family(other.addr)
        &&& self.network() <= other.network()
        &&& other.broadcast() <= self.broadcast()
    }

    /// A prefix length that `ipnet` accepts for the family.
    pub open spec fn valid_prefix(self) -> bool {
        self.prefix as nat <= self.addr.bits()
    }

    /// `IpNet::new`: the network of `addr` with prefix `prefix`, if the
    /// prefix fits the family.
    pub fn new(addr: IpAddress, prefix: u8) -> (r: Option<IpNet>)
        ensures
            r == (if (IpNet { addr, prefix }).valid_prefix() {
                Some(IpNet { addr, prefix })
            } else {
                None
            }),
    {
        let max: u8 = match addr {
            IpAddress::V4(_) => 32,
            IpAddress::V6(_) => 128,
        };
        if prefix <= max {
            Some(IpNet { addr, prefix })
        } else {
            None
        }
    }

    pub fn addr(&self) -> (r: IpAddress)
        ensures
            r == self.addr,
    {
        self.addr
    }

    pub fn prefix_len(&self) -> (r: u8)
        ensures
            r == self.prefix,
    {
        self.prefix
    }

    /// The network and broadcast addresses.
    pub fn bounds(&self) -> (r: (u128, u128))
        ensures
            r.0 == self.network(),
            r.1 == self.broadcast(),
    {
        let bits: u32 = match self.addr {
            IpAddress::V4(_) => 32,
            IpAddress::V6(_) => 128,
        };
        let hb: u32 = if self.prefix as u32 >= bits {
            0
        } else {
            bits - self.prefix as u32
        };
        let v = self.addr.numeric();
        proof {
            lemma_value_bound(self.addr);
            lemma_family_sizes();
        }
        if hb == 128 {
            proof {
                assert(self.block() == pow2(128));
                vstd::arithmetic::div_mod::lemma_small_mod(v as nat, pow2(128));
            }
            (0, 0xffff_ffff_ffff_ffff_ffff_ffff_ffff_ffffu128)
        } else {
            let b = pow2_u128(hb);
            proof {
                lemma_pow2_pos(hb as nat);
                lemma_network_fits(v as nat, hb as nat, self.addr.bits());
                assert(self.block() == b);
            }
            let net = v - v % b;
            (net, net + (b - 1))
        }
    }

    /// `ipnet`'s `contains` on two networks.
    pub fn contains(&self, other: &IpNet) -> (r: bool)
        ensures
            r == self.contains_net(*other),
    {
        if self.addr.is_ipv4() != other.addr.is_ipv4() {
            return false;
        }
        let (a0, a1) = self.bounds();
        let (b0, b1) = other.bounds();
        a0 <= b0 && b1 <= a1
    }
}

/// `2^k` for `k < 128`.
pub fn pow2_u128(k: u32) -> (r: u128)
    requires
        k < 128,
    ensures
        r == pow2(k as nat),
{
    let mut r: u128 = 1;
    let mut i: u32 = 0;
    proof {
        vstd::arithmetic::power2::lemma_pow2(0);
        vstd::arithmetic::power::lemma_pow0(2);
        lemma_family_sizes();
    }
    while i < k
        invariant
            i <= k < 128,
            r == pow2(i as nat),
            pow2(128) == 0x1_0000_0000_0000_0000_0000_0000_0000_0000,
        decreases k - i,
    {
        proof {
            vstd::arithmetic::power2::lemma_pow2_unfold((i + 1) as nat);
            vstd::arithmetic::power2::lemma_pow2_strictly_increases((i + 1) as nat, 128);
        }
        r = r * 2;
        i = i + 1;
    }
    r
}

/// With `v < 2^bits` and `hb < bits`, the network `v - v % 2^hb` and its
/// last address stay below `2^bits`.
pub proof fn lemma_network_fits(v: nat, hb: nat, bits: nat)
    requires
        v < pow2(bits),
        hb <= bits,
    ensures
        (v - v % pow2(hb)) + pow2(hb) <= pow2(bits),
        v % pow2(hb) <= v,
{
    let b = pow2(hb);
    let p = pow2((bits - hb) as nat);
    lemma_pow2_pos(hb);
    lemma_pow2_pos((bits - hb) as nat);
    lemma_pow2_adds((bits - hb) as nat, hb);
    assert(pow2(bits) == p * b);
    let q = (v as int) / (b as int);
    let r = (v as int) % (b as int);
    vstd::arithmetic::div_mod::lemma_fundamental_div_mod(v as int, b as int);
    vstd::arithmetic::div_mod::lemma_mod_bound(v as int, b as int);
    assert(v == b * q + r);
    assert(0 <= r < b);
    assert(q >= 0) by {
        vstd::arithmetic::div_mod::lemma_div_pos_is_pos(v as int, b as int);
    }
    assert(q < p) by (nonlinear_arith)
        requires
            v == b * q + r,
            0 <= r,
            v < p * b,
            b > 0,
    ;
    assert((q + 1) * b <= p * b) by (nonlinear_arith)
        requires
            q < p,
            b > 0,
    ;
    assert((v - r) + b == (q + 1) * b) by (nonlinear_arith)
        requires
            v == b * q + r,
    ;
}

/// Containment of networks is reflexive.
pub proof fn lemma_contains_reflexive(a: IpNet)
    ensures
        a.contains_net(a),
{
}

/// Containment of networks is transitive.
pub proof fn lemma_contains_transitive(a: IpNet, b: IpNet, c: IpNet)
    requires
        a.contains_net(b),
        b.contains_net(c),
    ensures
        a.contains_net(c),
{
}

} // verus!
