//! The textual forms of IP addresses: what `IpAddr`'s `FromStr` accepts and
//! what its `Display` writes.
use crate::net::{IpAddress, IpNet, pow2_u128, lemma_family_sizes};
use crate::text::{append_string, dec_string, fmt_dec, fmt_hex, hex_string, join, join_strings, push_char, views, all_digits, all_hex, chars_of, dec_value, find_char, find_from, hex_string_value, hex_value, hex_value_exec, is_digit, is_digit_exec, lemma_dec_value_bound, split_on};
use vstd::arithmetic::power2::pow2;
use vstd::prelude::*;

verus! {

// ---------------------------------------------------------------------------
// Reading
// ---------------------------------------------------------------------------

/// A decimal octet: one to three ASCII digits, no leading zero unless the
/// octet is a lone `0`, value at most 255.
pub open spec fn octet(p: Seq<char>) -> Option<nat> {
    if 1 <= p.len() <= 3 && all_digits(p) && !(p.len() > 1 && p[0] == '0') && dec_value(p)
        <= 255 {
        Some(dec_value(p))
    } else {
        None
    }
}

/// An IPv4 address in dotted decimal: exactly four octets.
pub open spec fn parse_ipv4(s: Seq<char>) -> Option<u32> {
    let parts = split_on(s, '.');
    if parts.len() == 4 && octet(parts[0]) is Some && octet(parts[1]) is Some && octet(
        parts[2],
    ) is Some && octet(parts[3]) is Some {
        Some(
            (octet(parts[0]).unwrap() * 0x100_0000 + octet(parts[1]).unwrap() * 0x1_0000
                + octet(parts[2]).unwrap() * 0x100 + octet(parts[3]).unwrap()) as u32,
        )
    } else {
        None
    }
}

/// A group of an IPv6 address: one to four hexadecimal digits.
pub open spec fn hex_group(p: Seq<char>) -> Option<nat> {
    if 1 <= p.len() <= 4 && all_hex(p) {
        Some(hex_string_value(p))
    } else {
        None
    }
}

/// The 16-bit groups of a `:`-separated list of pieces. With `v4_tail`, the
/// last piece may be a dotted IPv4 address, which stands for two groups.
pub open spec fn groups_of(parts: Seq<Seq<char>>, v4_tail: bool) -> Option<Seq<nat>>
    decreases parts.len(),
{
    if parts.len() == 0 {
        Some(Seq::empty())
    } else if parts.len() == 1 {
        match hex_group(parts[0]) {
            Some(g) => Some(seq![g]),
            None => {
                if v4_tail {
                    match parse_ipv4(parts[0]) {
                        Some(x) => Some(seq![x as nat / 0x1_0000, x as nat % 0x1_0000]),
                        None => None,
                    }
                } else {
                    None
                }
            },
        }
    } else {
        match hex_group(parts[0]) {
            Some(g) => match groups_of(parts.drop_first(), v4_tail) {
                Some(r) => Some(seq![g] + r),
                None => None,
            },
            None => None,
        }
    }
}

/// The groups of a piece of an IPv6 address between its ends and `::`.
pub open spec fn groups_text(s: Seq<char>, v4_tail: bool) -> Option<Seq<nat>> {
    if s.len() == 0 {
        Some(Seq::empty())
    } else {
        groups_of(split_on(s, ':'), v4_tail)
    }
}

/// The number whose base-65536 digits are `g`, most significant first.
pub open spec fn groups_value(g: Seq<nat>) -> nat
    decreases g.len(),
{
    if g.len() == 0 {
        0
    } else {
        groups_value(g.drop_last()) * 0x1_0000 + g.last()
    }
}

pub open spec fn zeros(n: nat) -> Seq<nat> {
    Seq::new(n, |i: int| 0nat)
}

pub open spec fn double_colon() -> Seq<char> {
    seq![':', ':']
}

/// An IPv6 address: eight groups, or groups before and after the first
/// `::`, which stands for one or more zero groups. Only the last groups may
/// be written as an IPv4 address, and not before `::`.
pub open spec fn parse_ipv6(s: Seq<char>) -> Option<u128> {
    match find_from(s, double_colon(), 0) {
        None => match groups_text(s, true) {
            Some(g) => {
                if g.len() == 8 {
                    Some(groups_value(g) as u128)
                } else {
                    None
                }
            },
            None => None,
        },
        Some(k) => match groups_text(s.take(k), false) {
            Some(h) => match groups_text(s.skip(k + 2), true) {
                Some(t) => {
                    if h.len() + t.len() <= 7 {
                        Some(groups_value(h + zeros((8 - h.len() - t.len()) as nat) + t) as u128)
                    } else {
                        None
                    }
                },
                None => None,
            },
            None => None,
        },
    }
}

/// No IP address is written as the empty text.
pub proof fn lemma_parse_ip_empty(s: Seq<char>)
    requires
        s.len() == 0,
    ensures
        parse_ip(s) is None,
{
    assert(find_char(s, '.') is None);
    assert(split_on(s, '.') =~= seq![s]);
    assert(find_from(s, double_colon(), 0) is None);
    assert(groups_text(s, true) == Some(Seq::<nat>::empty()));
}

/// What `str::parse::<IpAddr>` gives.
pub open spec fn parse_ip(s: Seq<char>) -> Option<IpAddress> {
    match parse_ipv4(s) {
        Some(a) => Some(IpAddress::V4(a)),
        None => match parse_ipv6(s) {
            Some(a) => Some(IpAddress::V6(a)),
            None => None,
        },
    }
}

pub open spec fn parts_view(v: Seq<Vec<char>>) -> Seq<Seq<char>> {
    v.map_values(|p: Vec<char>| p@)
}

// ---------------------------------------------------------------------------
// Lemmas on the sequence operations
// ---------------------------------------------------------------------------

pub proof fn lemma_find_char_found(s: Seq<char>, c: char, j: int)
    requires
        0 <= j < s.len(),
        s[j] == c,
        forall|k: int| 0 <= k < j ==> s[k] != c,
    ensures
        find_char(s, c) == Some(j),
    decreases j,
{
    if j > 0 {
        lemma_find_char_found(s.drop_first(), c, j - 1);
    }
}

pub proof fn lemma_find_char_none(s: Seq<char>, c: char)
    requires
        forall|k: int| 0 <= k < s.len() ==> s[k] != c,
    ensures
        find_char(s, c) is None,
    decreases s.len(),
{
    if s.len() > 0 {
        lemma_find_char_none(s.drop_first(), c);
    }
}

pub proof fn lemma_find_char_range(s: Seq<char>, c: char)
    ensures
        match find_char(s, c) {
            Some(i) => 0 <= i < s.len() && s[i] == c,
            None => true,
        },
    decreases s.len(),
{
    if s.len() > 0 {
        lemma_find_char_range(s.drop_first(), c);
    }
}

// ---------------------------------------------------------------------------
// Executable reading
// ---------------------------------------------------------------------------

pub fn sub_vec(v: &Vec<char>, from: usize, to: usize) -> (r: Vec<char>)
    requires
        from <= to <= v@.len(),
    ensures
        r@ == v@.subrange(from as int, to as int),
{
    let mut r: Vec<char> = Vec::new();
    let mut i = from;
    while i < to
        invariant
            from <= i <= to <= v@.len(),
            r@ == v@.subrange(from as int, i as int),
        decreases to - i,
    {
        r.push(v[i]);
        i = i + 1;
        assert(r@ =~= v@.subrange(from as int, i as int));
    }
    r
}

/// `split_on` of the characters of `v` from `start` on.
fn split_from(v: &Vec<char>, start: usize, c: char) -> (r: Vec<Vec<char>>)
    requires
        start <= v@.len(),
    ensures
        parts_view(r@) == split_on(v@.skip(start as int), c),
    decreases v@.len() - start,
{
    let ghost s = v@.skip(start as int);
    let mut j = start;
    while j < v.len()
        invariant
            start <= j <= v@.len(),
            s == v@.skip(start as int),
            forall|k: int| start <= k < j ==> v@[k] != c,
        ensures
            start <= j <= v@.len(),
            forall|k: int| start <= k < j ==> v@[k] != c,
            j < v@.len() ==> v@[j as int] == c,
        decreases v@.len() - j,
    {
        if v[j] == c {
            break;
        }
        j = j + 1;
    }
    let piece = sub_vec(v, start, j);
    if j < v.len() {
        proof {
            assert forall|k: int| 0 <= k < j - start implies s[k] != c by {
                assert(s[k] == v@[start + k]);
            }
            lemma_find_char_found(s, c, j - start);
            assert(s.take(j - start) =~= v@.subrange(start as int, j as int));
            assert(s.skip(j - start + 1) =~= v@.skip(j + 1));
        }
        let rest = split_from(v, j + 1, c);
        let mut r: Vec<Vec<char>> = Vec::new();
        r.push(piece);
        let mut rest = rest;
        r.append(&mut rest);
        proof {
            assert(parts_view(r@) =~= seq![s.take(j - start)] + split_on(s.skip(j - start + 1), c));
        }
        r
    } else {
        proof {
            assert forall|k: int| 0 <= k < s.len() implies s[k] != c by {
                assert(s[k] == v@[start + k]);
            }
            lemma_find_char_none(s, c);
            assert(s =~= v@.subrange(start as int, j as int));
        }
        let mut r: Vec<Vec<char>> = Vec::new();
        r.push(piece);
        proof {
            assert(parts_view(r@) =~= seq![s]);
        }
        r
    }
}

pub fn split_chars(v: &Vec<char>, c: char) -> (r: Vec<Vec<char>>)
    ensures
        parts_view(r@) == split_on(v@, c),
{
    let r = split_from(v, 0, c);
    assert(v@.skip(0) =~= v@);
    r
}

/// The value of a string of decimal digits of length at most 9.
fn dec_value_exec(p: &Vec<char>) -> (r: u32)
    requires
        all_digits(p@),
        p@.len() <= 3,
    ensures
        r == dec_value(p@),
{
    let mut r: u32 = 0;
    let mut i: usize = 0;
    proof {
        reveal_with_fuel(vstd::arithmetic::power::pow, 1);
    }
    while i < p.len()
        invariant
            i <= p@.len() <= 3,
            all_digits(p@),
            r == dec_value(p@.take(i as int)),
            r < vstd::arithmetic::power::pow(10, i as nat),
        decreases p@.len() - i,
    {
        proof {
            assert(is_digit(p@[i as int]));
            assert(p@.take(i + 1).drop_last() =~= p@.take(i as int));
            reveal_with_fuel(vstd::arithmetic::power::pow, 4);
        }
        let d = p[i] as u32 - '0' as u32;
        r = r * 10 + d;
        i = i + 1;
    }
    assert(p@.take(p@.len() as int) =~= p@);
    r
}

fn all_digits_exec(p: &Vec<char>) -> (r: bool)
    ensures
        r == all_digits(p@),
{
    let mut i: usize = 0;
    while i < p.len()
        invariant
            i <= p@.len(),
            forall|k: int| 0 <= k < i ==> is_digit(#[trigger] p@[k]),
        decreases p@.len() - i,
    {
        if !is_digit_exec(p[i]) {
            return false;
        }
        i = i + 1;
    }
    true
}

fn octet_exec(p: &Vec<char>) -> (r: Option<u32>)
    ensures
        match octet(p@) {
            Some(v) => r == Some(v as u32),
            None => r is None,
        },
{
    if p.len() < 1 || p.len() > 3 || !all_digits_exec(p) {
        return None;
    }
    if p.len() > 1 && p[0] == '0' {
        return None;
    }
    let v = dec_value_exec(p);
    if v <= 255 {
        Some(v)
    } else {
        None
    }
}

pub fn parse_ipv4_chars(s: &Vec<char>) -> (r: Option<u32>)
    ensures
        r == parse_ipv4(s@),
{
    let parts = split_chars(s, '.');
    let ghost pv = parts_view(parts@);
    if parts.len() != 4 {
        return None;
    }
    assert(pv[0] == parts@[0]@ && pv[1] == parts@[1]@ && pv[2] == parts@[2]@ && pv[3]
        == parts@[3]@);
    let a = octet_exec(&parts[0]);
    let b = octet_exec(&parts[1]);
    let c = octet_exec(&parts[2]);
    let d = octet_exec(&parts[3]);
    match (a, b, c, d) {
        (Some(a), Some(b), Some(c), Some(d)) => Some(a * 0x100_0000 + b * 0x1_0000 + c * 0x100 + d),
        _ => None,
    }
}

fn hex_group_exec(p: &Vec<char>) -> (r: Option<u32>)
    ensures
        match hex_group(p@) {
            Some(v) => r == Some(v as u32) && v < 0x1_0000,
            None => r is None,
        },
{
    if p.len() < 1 || p.len() > 4 {
        return None;
    }
    let mut r: u32 = 0;
    let mut i: usize = 0;
    proof {
        reveal_with_fuel(vstd::arithmetic::power::pow, 1);
    }
    while i < p.len()
        invariant
            i <= p@.len() <= 4,
            forall|k: int| 0 <= k < i ==> (#[trigger] hex_value(p@[k])) is Some,
            r == hex_string_value(p@.take(i as int)),
            r < vstd::arithmetic::power::pow(16, i as nat),
        decreases p@.len() - i,
    {
        match hex_value_exec(p[i]) {
            None => {
                return None;
            },
            Some(d) => {
                proof {
                    assert(p@.take(i + 1).drop_last() =~= p@.take(i as int));
                    reveal_with_fuel(vstd::arithmetic::power::pow, 5);
                    let q = vstd::arithmetic::power::pow(16, i as nat);
                    assert(r * 16 + d < q * 16) by (nonlinear_arith)
                        requires
                            r < q,
                            d < 16,
                    ;
                }
                r = r * 16 + d;
                i = i + 1;
            },
        }
    }
    proof {
        assert(p@.take(p@.len() as int) =~= p@);
        reveal_with_fuel(vstd::arithmetic::power::pow, 5);
    }
    Some(r)
}

pub open spec fn small_groups(g: Seq<nat>) -> bool {
    forall|i: int| 0 <= i < g.len() ==> #[trigger] g[i] < 0x1_0000
}

pub open spec fn groups_view(v: Seq<u32>) -> Seq<nat> {
    v.map_values(|x: u32| x as nat)
}

/// The groups of a list of pieces.
fn groups_of_exec(parts: &Vec<Vec<char>>, v4_tail: bool) -> (r: Option<Vec<u32>>)
    ensures
        match groups_of(parts_view(parts@), v4_tail) {
            Some(g) => r is Some && groups_view(r->0@) == g && small_groups(g),
            None => r is None,
        },
{
    let ghost pv = parts_view(parts@);
    let mut acc: Vec<u32> = Vec::new();
    if parts.len() == 0 {
        assert(groups_view(acc@) =~= Seq::<nat>::empty());
        return Some(acc);
    }
    let n = parts.len();
    let mut i: usize = 0;
    proof {
        assert(pv.skip(0) =~= pv);
        assert(groups_view(acc@) =~= Seq::<nat>::empty());
        match groups_of(pv, v4_tail) {
            Some(t) => {
                assert(groups_view(acc@) + t =~= t);
            },
            None => {},
        }
    }
    while i + 1 < n
        invariant
            n == parts@.len() >= 1,
            i < n,
            pv == parts_view(parts@),
            small_groups(groups_view(acc@)),
            groups_of(pv, v4_tail) == match groups_of(pv.skip(i as int), v4_tail) {
                Some(t) => Some(groups_view(acc@) + t),
                None => None,
            },
        decreases n - i,
    {
        let ghost rest = pv.skip(i as int);
        assert(rest[0] == parts@[i as int]@);
        assert(rest.drop_first() =~= pv.skip(i + 1));
        match hex_group_exec(&parts[i]) {
            None => {
                return None;
            },
            Some(g) => {
                let ghost before = groups_view(acc@);
                acc.push(g);
                proof {
                    assert(groups_view(acc@) =~= before.push(g as nat));
                    match groups_of(pv.skip(i + 1), v4_tail) {
                        Some(t) => {
                            assert(before + (seq![g as nat] + t) =~= before.push(g as nat) + t);
                        },
                        None => {},
                    }
                }
                i = i + 1;
            },
        }
    }
    let ghost last = pv.skip(i as int);
    assert(last.len() == 1);
    assert(last[0] == parts@[i as int]@);
    let ghost before = groups_view(acc@);
    match hex_group_exec(&parts[i]) {
        Some(g) => {
            acc.push(g);
            assert(groups_view(acc@) =~= before + seq![g as nat]);
            Some(acc)
        },
        None => {
            if !v4_tail {
                return None;
            }
            match parse_ipv4_chars(&parts[i]) {
                Some(x) => {
                    acc.push(x / 0x1_0000);
                    acc.push(x % 0x1_0000);
                    assert(groups_view(acc@) =~= before + seq![
                        x as nat / 0x1_0000,
                        x as nat % 0x1_0000,
                    ]);
                    Some(acc)
                },
                None => None,
            }
        },
    }
}

fn groups_text_exec(s: &Vec<char>, v4_tail: bool) -> (r: Option<Vec<u32>>)
    ensures
        match groups_text(s@, v4_tail) {
            Some(g) => r is Some && groups_view(r->0@) == g && small_groups(g),
            None => r is None,
        },
{
    if s.len() == 0 {
        let r: Vec<u32> = Vec::new();
        assert(groups_view(r@) =~= Seq::<nat>::empty());
        return Some(r);
    }
    let parts = split_chars(s, ':');
    groups_of_exec(&parts, v4_tail)
}

pub proof fn lemma_groups_value_bound(g: Seq<nat>)
    requires
        small_groups(g),
    ensures
        groups_value(g) < pow2(16 * g.len()),
    decreases g.len(),
{
    vstd::arithmetic::power2::lemma_pow2_pos(16 * g.len());
    if g.len() > 0 {
        let t = g.drop_last();
        assert(small_groups(t)) by {
            assert forall|i: int| 0 <= i < t.len() implies #[trigger] t[i] < 0x1_0000 by {
                assert(t[i] == g[i]);
            }
        }
        lemma_groups_value_bound(t);
        vstd::arithmetic::power2::lemma_pow2_adds(16 * t.len(), 16);
        vstd::arithmetic::power2::lemma2_to64();
        let a = groups_value(t);
        let p = pow2(16 * t.len());
        assert(g.last() < 0x1_0000);
        let l = g.last();
        assert(a * 0x1_0000 + l < p * 0x1_0000) by (nonlinear_arith)
            requires
                a < p,
                l < 0x1_0000,
        ;
        assert(16 * g.len() == 16 * t.len() + 16);
    }
}

/// The number whose base-65536 digits are the eight groups `g`.
fn groups_value_exec(g: &Vec<u32>) -> (r: u128)
    requires
        g@.len() == 8,
        small_groups(groups_view(g@)),
    ensures
        r == groups_value(groups_view(g@)),
{
    let ghost gv = groups_view(g@);
    let mut r: u128 = 0;
    let mut i: usize = 0;
    proof {
        lemma_family_sizes();
    }
    while i < 8
        invariant
            i <= 8,
            g@.len() == 8,
            gv == groups_view(g@),
            small_groups(gv),
            r == groups_value(gv.take(i as int)),
            pow2(128) == 0x1_0000_0000_0000_0000_0000_0000_0000_0000,
        decreases 8 - i,
    {
        proof {
            let t = gv.take(i + 1);
            assert(t.drop_last() =~= gv.take(i as int));
            assert(small_groups(t)) by {
                assert forall|k: int| 0 <= k < t.len() implies #[trigger] t[k] < 0x1_0000 by {
                    assert(t[k] == gv[k]);
                }
            }
            lemma_groups_value_bound(t);
            if i + 1 < 8 {
                vstd::arithmetic::power2::lemma_pow2_strictly_increases(16 * (i + 1) as nat, 128);
            }
            assert(gv[i as int] == g@[i as int] as nat);
        }
        r = r * 0x1_0000 + g[i] as u128;
        i = i + 1;
    }
    assert(gv.take(8) =~= gv);
    r
}

fn find_double_colon(s: &Vec<char>) -> (r: Option<usize>)
    ensures
        r matches Some(k) ==> find_from(s@, double_colon(), 0) == Some(k as int) && k + 2
            <= s@.len(),
        r is None ==> find_from(s@, double_colon(), 0) is None,
{
    let mut j: usize = 0;
    while j < s.len()
        invariant
            j <= s@.len(),
            find_from(s@, double_colon(), 0) == find_from(s@, double_colon(), j as int),
        decreases s@.len() - j,
    {
        if j + 1 < s.len() {
            assert(s@.subrange(j as int, j + 2) =~= seq![s@[j as int], s@[j + 1]]);
            if s[j] == ':' && s[j + 1] == ':' {
                return Some(j);
            }
        }
        j = j + 1;
    }
    None
}

pub fn parse_ipv6_chars(s: &Vec<char>) -> (r: Option<u128>)
    ensures
        r == parse_ipv6(s@),
{
    let found = find_double_colon(s);
    match found {
        None => match groups_text_exec(s, true) {
            Some(g) => {
                if g.len() == 8 {
                    Some(groups_value_exec(&g))
                } else {
                    None
                }
            },
            None => None,
        },
        Some(k) => {
            let n = s.len();
            assert(k + 2 <= n);
            let head = sub_vec(s, 0, k);
            let tail = sub_vec(s, k + 2, n);
            assert(head@ =~= s@.take(k as int));
            assert(tail@ =~= s@.skip(k + 2));
            match groups_text_exec(&head, false) {
                None => None,
                Some(h) => match groups_text_exec(&tail, true) {
                    None => None,
                    Some(t) => {
                        if h.len() > 7 || t.len() > 7 - h.len() {
                            return None;
                        }
                        let ghost hv = groups_view(h@);
                        let ghost tv = groups_view(t@);
                        let fill = 8 - h.len() - t.len();
                        let mut all = h;
                        let mut f: usize = 0;
                        while f < fill
                            invariant
                                f <= fill,
                                groups_view(all@) == hv + zeros(f as nat),
                            decreases fill - f,
                        {
                            let ghost prev = groups_view(all@);
                            all.push(0);
                            proof {
                                assert(groups_view(all@) =~= prev.push(0nat));
                                assert(prev.push(0nat) =~= hv + zeros((f + 1) as nat));
                            }
                            f = f + 1;
                        }
                        let mut t = t;
                        all.append(&mut t);
                        proof {
                            let gv = groups_view(all@);
                            assert(gv =~= hv + zeros(fill as nat) + tv);
                            assert(small_groups(gv)) by {
                                assert forall|k: int| 0 <= k < gv.len() implies #[trigger] gv[k]
                                    < 0x1_0000 by {
                                    if k < hv.len() {
                                        assert(gv[k] == hv[k]);
                                    } else if k < hv.len() + fill {
                                        assert(gv[k] == 0);
                                    } else {
                                        assert(gv[k] == tv[k - hv.len() - fill]);
                                    }
                                }
                            }
                        }
                        Some(groups_value_exec(&all))
                    },
                },
            }
        },
    }
}

/// `str::parse::<IpAddr>`.
pub fn parse_ip_chars(s: &Vec<char>) -> (r: Option<IpAddress>)
    ensures
        r == parse_ip(s@),
{
    match parse_ipv4_chars(s) {
        Some(a) => Some(IpAddress::V4(a)),
        None => match parse_ipv6_chars(s) {
            Some(a) => Some(IpAddress::V6(a)),
            None => None,
        },
    }
}

pub fn parse_ip_addr(s: &str) -> (r: Option<IpAddress>)
    ensures
        r == parse_ip(s@),
{
    let v = chars_of(s);
    parse_ip_chars(&v)
}

// ---------------------------------------------------------------------------
// Writing
// ---------------------------------------------------------------------------

/// Dotted decimal, as `Ipv4Addr`'s `Display` writes it.
pub open spec fn ipv4_text(a: u32) -> Seq<char> {
    dec_string(a as nat / 0x100_0000) + seq!['.'] + dec_string(a as nat / 0x1_0000 % 0x100)
        + seq!['.'] + dec_string(a as nat / 0x100 % 0x100) + seq!['.'] + dec_string(
        a as nat % 0x100,
    )
}

/// The `i`-th 16-bit group of an IPv6 address, most significant first.
pub open spec fn segment(a: u128, i: int) -> nat {
    (a as nat / pow2((16 * (7 - i)) as nat)) % 0x1_0000
}

pub open spec fn segments(a: u128) -> Seq<nat> {
    Seq::new(8, |i: int| segment(a, i))
}

/// Groups in lowercase hexadecimal, separated by `:`.
pub open spec fn hex_join(g: Seq<nat>) -> Seq<char> {
    join(g.map_values(|x: nat| hex_string(x)), seq![':'])
}

/// The first longest run of zero groups from `i` on, given the run under way
/// (`cur_start`, `cur_len`) and the best found so far: a start and a length.
pub open spec fn zero_run(
    g: Seq<nat>,
    i: int,
    cur_start: int,
    cur_len: int,
    best_start: int,
    best_len: int,
) -> (int, int)
    decreases g.len() - i,
{
    if i < 0 || i >= g.len() {
        (best_start, best_len)
    } else if g[i] == 0 {
        let cs = if cur_len == 0 {
            i
        } else {
            cur_start
        };
        let cl = cur_len + 1;
        if cl > best_len {
            zero_run(g, i + 1, cs, cl, cs, cl)
        } else {
            zero_run(g, i + 1, cs, cl, best_start, best_len)
        }
    } else {
        zero_run(g, i + 1, 0, 0, best_start, best_len)
    }
}

/// An IPv4-mapped address (`::ffff:a.b.c.d`).
pub open spec fn is_v4_mapped(g: Seq<nat>) -> bool {
    g[0] == 0 && g[1] == 0 && g[2] == 0 && g[3] == 0 && g[4] == 0 && g[5] == 0xffff
}

/// The text that `Ipv6Addr`'s `Display` writes: an IPv4-mapped address as
/// `::ffff:` and dotted decimal; otherwise lowercase hexadecimal groups with
/// the first longest run of two or more zero groups written as `::`.
pub open spec fn ipv6_text(a: u128) -> Seq<char> {
    let g = segments(a);
    if is_v4_mapped(g) {
        seq![':', ':', 'f', 'f', 'f', 'f', ':'] + ipv4_text((a as nat % 0x1_0000_0000) as u32)
    } else {
        let (st, len) = zero_run(g, 0, 0, 0, 0, 0);
        if len > 1 {
            hex_join(g.take(st)) + seq![':', ':'] + hex_join(g.skip(st + len))
        } else {
            hex_join(g)
        }
    }
}

pub open spec fn ip_text(a: IpAddress) -> Seq<char> {
    match a {
        IpAddress::V4(x) => ipv4_text(x),
        IpAddress::V6(x) => ipv6_text(x),
    }
}

/// `address/prefix`, as `IpNet`'s `Display` writes it.
pub open spec fn net_text(n: IpNet) -> Seq<char> {
    ip_text(n.addr) + seq!['/'] + dec_string(n.prefix as nat)
}

pub fn fmt_ipv4(a: u32) -> (r: String)
    ensures
        r@ == ipv4_text(a),
{
    let mut r = fmt_dec((a / 0x100_0000) as u64);
    push_char(&mut r, '.');
    let t = fmt_dec((a / 0x1_0000 % 0x100) as u64);
    append_string(&mut r, &t);
    push_char(&mut r, '.');
    let t = fmt_dec((a / 0x100 % 0x100) as u64);
    append_string(&mut r, &t);
    push_char(&mut r, '.');
    let t = fmt_dec((a % 0x100) as u64);
    append_string(&mut r, &t);
    r
}

fn segments_exec(a: u128) -> (r: Vec<u32>)
    ensures
        r@.len() == 8,
        forall|i: int| 0 <= i < 8 ==> r@[i] as nat == #[trigger] segment(a, i),
{
    let mut r: Vec<u32> = Vec::new();
    let mut i: usize = 0;
    while i < 8
        invariant
            i <= 8,
            r@.len() == i,
            forall|k: int| 0 <= k < i ==> r@[k] as nat == #[trigger] segment(a, k),
        decreases 8 - i,
    {
        let p = pow2_u128(16 * (7 - i as u32));
        proof {
            vstd::arithmetic::power2::lemma_pow2_pos((16 * (7 - i)) as nat);
        }
        let seg = (a / p) % 0x1_0000;
        r.push(seg as u32);
        i = i + 1;
    }
    r
}

/// The hexadecimal numerals of `g[from..to]`.
fn hex_strings(g: &Vec<u32>, from: usize, to: usize) -> (r: Vec<String>)
    requires
        from <= to <= g@.len(),
    ensures
        views(r@) == groups_view(g@).subrange(from as int, to as int).map_values(
            |x: nat| hex_string(x),
        ),
{
    let mut r: Vec<String> = Vec::new();
    let mut i = from;
    while i < to
        invariant
            from <= i <= to <= g@.len(),
            views(r@) == groups_view(g@).subrange(from as int, i as int).map_values(
                |x: nat| hex_string(x),
            ),
        decreases to - i,
    {
        let h = fmt_hex(g[i] as u64);
        let ghost prev = r@;
        r.push(h);
        proof {
            assert(views(r@) =~= views(prev).push(h@));
            assert(groups_view(g@).subrange(from as int, i + 1).map_values(|x: nat| hex_string(x))
                =~= groups_view(g@).subrange(from as int, i as int).map_values(
                |x: nat| hex_string(x),
            ).push(hex_string(g@[i as int] as nat)));
        }
        i = i + 1;
    }
    r
}

pub fn fmt_ipv6(a: u128) -> (r: String)
    ensures
        r@ == ipv6_text(a),
{
    let g = segments_exec(a);
    let ghost gs = segments(a);
    proof {
        assert(groups_view(g@) =~= gs);
    }
    if g[0] == 0 && g[1] == 0 && g[2] == 0 && g[3] == 0 && g[4] == 0 && g[5] == 0xffff {
        let mut r = String::new();
        push_char(&mut r, ':');
        push_char(&mut r, ':');
        push_char(&mut r, 'f');
        push_char(&mut r, 'f');
        push_char(&mut r, 'f');
        push_char(&mut r, 'f');
        push_char(&mut r, ':');
        let t = fmt_ipv4((a % 0x1_0000_0000) as u32);
        append_string(&mut r, &t);
        assert(r@ =~= ipv6_text(a));
        return r;
    }
    assert(gs[0] == g@[0] as nat && gs[1] == g@[1] as nat && gs[2] == g@[2] as nat && gs[3]
        == g@[3] as nat && gs[4] == g@[4] as nat && gs[5] == g@[5] as nat);
    assert(!is_v4_mapped(gs));
    let mut i: usize = 0;
    let mut cs: usize = 0;
    let mut cl: usize = 0;
    let mut bs: usize = 0;
    let mut bl: usize = 0;
    while i < 8
        invariant
            i <= 8,
            g@.len() == 8,
            groups_view(g@) == gs,
            cs + cl <= i,
            bs + bl <= i,
            zero_run(gs, 0, 0, 0, 0, 0) == zero_run(
                gs,
                i as int,
                cs as int,
                cl as int,
                bs as int,
                bl as int,
            ),
        decreases 8 - i,
    {
        assert(gs[i as int] == g@[i as int] as nat);
        if g[i] == 0 {
            if cl == 0 {
                cs = i;
            }
            cl = cl + 1;
            if cl > bl {
                bs = cs;
                bl = cl;
            }
        } else {
            cs = 0;
            cl = 0;
        }
        i = i + 1;
    }
    let ghost (st, len) = zero_run(gs, 0, 0, 0, 0, 0);
    assert(st == bs && len == bl);
    if bl > 1 {
        let head = hex_strings(&g, 0, bs);
        let tail = hex_strings(&g, bs + bl, 8);
        let mut r = join_strings(&head, ":");
        push_char(&mut r, ':');
        push_char(&mut r, ':');
        let t = join_strings(&tail, ":");
        append_string(&mut r, &t);
        proof {
            reveal_strlit(":");
            assert(":"@ =~= seq![':']);
            assert(gs.subrange(0, bs as int) =~= gs.take(bs as int));
            assert(gs.subrange(bs + bl, 8) =~= gs.skip(bs + bl));
            assert(head@.len() == bs);
            assert(join(views(head@), ":"@) == hex_join(gs.take(bs as int)));
            assert(join(views(tail@), ":"@) == hex_join(gs.skip(bs + bl)));
            assert(r@ =~= ipv6_text(a));
        }
        r
    } else {
        let all = hex_strings(&g, 0, 8);
        let r = join_strings(&all, ":");
        proof {
            reveal_strlit(":");
            assert(":"@ =~= seq![':']);
            assert(gs.subrange(0, 8) =~= gs);
        }
        r
    }
}

pub fn fmt_ip(a: &IpAddress) -> (r: String)
    ensures
        r@ == ip_text(*a),
{
    match a {
        IpAddress::V4(x) => fmt_ipv4(*x),
        IpAddress::V6(x) => fmt_ipv6(*x),
    }
}

/// `IpNet`'s `to_string`.
pub fn fmt_net(n: &IpNet) -> (r: String)
    ensures
        r@ == net_text(*n),
{
    let mut r = fmt_ip(&n.addr);
    push_char(&mut r, '/');
    let t = fmt_dec(n.prefix as u64);
    append_string(&mut r, &t);
    r
}

} // verus!
