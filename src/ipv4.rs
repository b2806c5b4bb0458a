//! IPv4 addresses as 32-bit integers, networks in CIDR form, and the
//! dotted-decimal text of an address.

use vstd::arithmetic::power2::pow2;
use vstd::bits::{lemma_u64_pow2_no_overflow, lemma_u64_shl_is_mul};
use vstd::prelude::*;

verus! {

/// Number of addresses in a network whose prefix is `len` bits long.
pub open spec fn block_size(len: nat) -> nat {
    pow2((32 - len) as nat)
}

/// An IPv4 network: a network address with all host bits clear, and a
/// prefix length of at most 32 bits.
pub struct Ipv4Net {
    network: u32,
    prefix_len: u8,
}

impl Ipv4Net {
    #[verifier::type_invariant]
    pub closed spec fn well_formed(self) -> bool {
        &&& self.prefix_len <= 32
        &&& self.network as nat % block_size(self.prefix_len as nat) == 0
    }

    pub closed spec fn spec_network(self) -> u32 {
        self.network
    }

    pub closed spec fn spec_prefix_len(self) -> u8 {
        self.prefix_len
    }

    /// Whether `addr` lies in the network, its first (network) and last
    /// (broadcast) addresses included.
    pub open spec fn spec_contains(self, addr: u32) -> bool {
        self.spec_network() <= addr < self.spec_network() + block_size(
            self.spec_prefix_len() as nat,
        )
    }

    /// The network `network/prefix_len`; `None` where the prefix is longer
    /// than 32 bits or a host bit of `network` is set.
    pub fn new(network: u32, prefix_len: u8) -> (r: Option<Ipv4Net>)
        ensures
            r is None <==> (prefix_len > 32 || network as nat % block_size(prefix_len as nat)
                != 0),
            r matches Some(n) ==> n.spec_network() == network && n.spec_prefix_len()
                == prefix_len,
    {
        if prefix_len > 32 {
            return None;
        }
        let block = block_of(prefix_len);
        if network as u64 % block != 0 {
            None
        } else {
            Some(Ipv4Net { network, prefix_len })
        }
    }

    pub fn network(&self) -> (r: u32)
        ensures
            r == self.spec_network(),
    {
        self.network
    }

    pub fn prefix_len(&self) -> (r: u8)
        ensures
            r == self.spec_prefix_len(),
            r <= 32,
    {
        proof {
            use_type_invariant(self);
        }
        self.prefix_len
    }

    /// Whether `addr` lies in this network.
    pub fn contains(&self, addr: u32) -> (r: bool)
        ensures
            r == self.spec_contains(addr),
    {
        proof {
            use_type_invariant(self);
        }
        let block = block_of(self.prefix_len);
        let net = self.network as u64;
        net <= addr as u64 && (addr as u64) < net + block
    }
}

fn block_of(prefix_len: u8) -> (r: u64)
    requires
        prefix_len <= 32,
    ensures
        r as nat == block_size(prefix_len as nat),
        1 <= r <= 0x1_0000_0000,
{
    let shift: u64 = 32 - prefix_len as u64;
    proof {
        lemma_u64_pow2_no_overflow(shift as nat);
        lemma_u64_shl_is_mul(1, shift);
        vstd::arithmetic::power2::lemma_pow2_pos(shift as nat);
        if shift < 32 {
            vstd::arithmetic::power2::lemma_pow2_strictly_increases(shift as nat, 32);
        }
        vstd::arithmetic::power2::lemma2_to64();
    }
    1u64 << shift
}

/// The decimal digit `d` as a character.
pub open spec fn digit_char(d: nat) -> char {
    if d == 0 {
        '0'
    } else if d == 1 {
        '1'
    } else if d == 2 {
        '2'
    } else if d == 3 {
        '3'
    } else if d == 4 {
        '4'
    } else if d == 5 {
        '5'
    } else if d == 6 {
        '6'
    } else if d == 7 {
        '7'
    } else if d == 8 {
        '8'
    } else {
        '9'
    }
}

/// Decimal text of `n`, without leading zeros.
pub open spec fn decimal(n: nat) -> Seq<char>
    decreases n,
{
    if n < 10 {
        seq![digit_char(n)]
    } else {
        decimal(n / 10).push(digit_char(n % 10))
    }
}

/// Dotted-decimal text of an address, most significant octet first.
pub open spec fn dotted(addr: u32) -> Seq<char> {
    let a = addr as nat;
    decimal(a / 0x100_0000) + seq!['.'] + decimal((a / 0x1_0000) % 256) + seq!['.']
        + decimal((a / 0x100) % 256) + seq!['.'] + decimal(a % 256)
}

fn digit_text(d: u8) -> (r: &'static str)
    requires
        d < 10,
    ensures
        r@ == seq![digit_char(d as nat)],
{
    if d == 0 {
        proof { reveal_strlit("0"); }
        "0"
    } else if d == 1 {
        proof { reveal_strlit("1"); }
        "1"
    } else if d == 2 {
        proof { reveal_strlit("2"); }
        "2"
    } else if d == 3 {
        proof { reveal_strlit("3"); }
        "3"
    } else if d == 4 {
        proof { reveal_strlit("4"); }
        "4"
    } else if d == 5 {
        proof { reveal_strlit("5"); }
        "5"
    } else if d == 6 {
        proof { reveal_strlit("6"); }
        "6"
    } else if d == 7 {
        proof { reveal_strlit("7"); }
        "7"
    } else if d == 8 {
        proof { reveal_strlit("8"); }
        "8"
    } else {
        proof { reveal_strlit("9"); }
        "9"
    }
}

fn push_decimal(s: &mut String, n: u8)
    ensures
        final(s)@ == old(s)@ + decimal(n as nat),
{
    let ghost start = s@;
    if n >= 100 {
        s.append(digit_text(n / 100));
        s.append(digit_text((n / 10) % 10));
        s.append(digit_text(n % 10));
        proof {
            let q = (n / 10) as nat;
            assert(q / 10 == (n / 100) as nat);
            assert(q >= 10);
            assert(decimal(q) == decimal(q / 10).push(digit_char(q % 10)));
            assert(decimal(q / 10) == seq![digit_char(q / 10)]);
            assert(decimal(n as nat) == decimal(q).push(digit_char((n % 10) as nat)));
        }
    } else if n >= 10 {
        s.append(digit_text(n / 10));
        s.append(digit_text(n % 10));
        proof {
            let q = (n / 10) as nat;
            assert(decimal(q) == seq![digit_char(q)]);
            assert(decimal(n as nat) == decimal(q).push(digit_char((n % 10) as nat)));
        }
    } else {
        s.append(digit_text(n));
    }
    assert(s@ =~= start + decimal(n as nat));
}

/// The dotted-decimal text of `addr`, as in `10.0.0.5`.
pub fn ipv4_text(addr: u32) -> (r: String)
    ensures
        r@ == dotted(addr),
{
    proof {
        reveal_strlit(".");
    }
    let mut s = String::new();
    push_decimal(&mut s, (addr / 0x100_0000) as u8);
    s.append(".");
    push_decimal(&mut s, ((addr / 0x1_0000) % 256) as u8);
    s.append(".");
    push_decimal(&mut s, ((addr / 0x100) % 256) as u8);
    s.append(".");
    push_decimal(&mut s, (addr % 256) as u8);
    assert(s@ =~= dotted(addr));
    s
}

} // verus!
