//! Colon-hexadecimal notation of IPv6 addresses.
//!
//! An address is written as eight groups of up to four hexadecimal digits
//! with a colon between each two. One run of zero groups may be left out,
//! which leaves two colons in a row, and the last two groups may be written
//! as an IPv4 address in dotted-quad notation.

use crate::inet::{Ipv4Addr, Ipv6Addr};
use crate::ipv4_text::{ipv4_of_text, ipv4_text, parse_ipv4, push_ipv4};
use crate::numeral::{all_hex_digits, hex_text, hex_value, parse_hex_group, push_hex};
use crate::text::{join, split, split_chars, texts};
use vstd::prelude::*;

verus! {

/// `s` is the numeral of a group: one to four hexadecimal digits.
pub open spec fn is_hex_group(s: Seq<char>) -> bool {
    1 <= s.len() <= 4 && all_hex_digits(s)
}

/// Every piece of `p` is the numeral of a group.
pub open spec fn all_hex_groups(p: Seq<Seq<char>>) -> bool {
    forall|i: int| 0 <= i < p.len() ==> is_hex_group(#[trigger] p[i])
}

/// The groups that the numerals `p` stand for.
pub open spec fn hex_values(p: Seq<Seq<char>>) -> Seq<u16> {
    Seq::new(p.len(), |i: int| hex_value(p[i]) as u16)
}

/// The two groups that hold the IPv4 address `a`.
pub open spec fn embedded_groups(a: Ipv4Addr) -> Seq<u16> {
    seq![
        (a.octets[0] * 256 + a.octets[1]) as u16,
        (a.octets[2] * 256 + a.octets[3]) as u16,
    ]
}

/// The IPv4 address that the last two of the eight groups `g` hold.
pub open spec fn embedded_ipv4(g: Seq<u16>) -> Ipv4Addr {
    Ipv4Addr {
        octets: [(g[6] / 256) as u8, (g[6] % 256) as u8, (g[7] / 256) as u8, (g[7] % 256) as u8],
    }
}

/// The groups that the list `s` denotes, if it denotes any: group numerals
/// with a colon between each two, where the last piece may instead be an
/// IPv4 address in dotted-quad notation, which stands for two groups.
pub open spec fn groups_of_list(s: Seq<char>) -> Option<Seq<u16>> {
    let p = split(s, ':');
    if !all_hex_groups(p.drop_last()) {
        None
    } else if is_hex_group(p.last()) {
        Some(hex_values(p))
    } else {
        match ipv4_of_text(p.last()) {
            Some(a) => Some(hex_values(p.drop_last()) + embedded_groups(a)),
            None => None,
        }
    }
}

/// The groups written before two colons in a row: none for the empty text,
/// else a list of group numerals.
pub open spec fn groups_before_gap(s: Seq<char>) -> Option<Seq<u16>> {
    if s.len() == 0 {
        Some(Seq::<u16>::empty())
    } else if all_hex_groups(split(s, ':')) {
        Some(hex_values(split(s, ':')))
    } else {
        None
    }
}

/// The groups written after two colons in a row: none for the empty text,
/// else a list as `groups_of_list` reads it.
pub open spec fn groups_after_gap(s: Seq<char>) -> Option<Seq<u16>> {
    if s.len() == 0 {
        Some(Seq::<u16>::empty())
    } else {
        groups_of_list(s)
    }
}

/// Two colons in a row stand at index `k` of `s`.
pub open spec fn gap_at(s: Seq<char>, k: int) -> bool {
    0 <= k && k + 1 < s.len() && s[k] == ':' && s[k + 1] == ':'
}

/// Two colons in a row stand somewhere in `s`.
pub open spec fn has_gap(s: Seq<char>) -> bool {
    exists|k: int| gap_at(s, k)
}

/// Two colons in a row stand at index `k` of `s` and nowhere before.
pub open spec fn is_first_gap(s: Seq<char>, k: int) -> bool {
    gap_at(s, k) && forall|j: int| j < k ==> !gap_at(s, j)
}

/// The first index of `s` at which two colons in a row stand.
pub open spec fn first_gap(s: Seq<char>) -> int {
    choose|k: int| is_first_gap(s, k)
}

/// `n` zero groups.
pub open spec fn zero_groups(n: int) -> Seq<u16> {
    Seq::new(n as nat, |i: int| 0u16)
}

/// The eight groups that `s` denotes, if it denotes an address. Without two
/// colons in a row, `s` is a list of eight groups. Otherwise the lists
/// before and after the first two colons in a row hold at most seven groups,
/// and zero groups stand between them.
pub open spec fn groups_of_text(s: Seq<char>) -> Option<Seq<u16>> {
    if has_gap(s) {
        let k = first_gap(s);
        match (
            groups_before_gap(s.subrange(0, k)),
            groups_after_gap(s.subrange(k + 2, s.len() as int)),
        ) {
            (Some(h), Some(t)) => if h.len() + t.len() <= 7 {
                Some(h + zero_groups(8 - h.len() - t.len()) + t)
            } else {
                None
            },
            _ => None,
        }
    } else {
        match groups_of_list(s) {
            Some(g) => if g.len() == 8 {
                Some(g)
            } else {
                None
            },
            None => None,
        }
    }
}

/// The address with the eight groups `g`.
pub open spec fn ipv6_of_groups(g: Seq<u16>) -> Ipv6Addr {
    Ipv6Addr { segments: [g[0], g[1], g[2], g[3], g[4], g[5], g[6], g[7]] }
}

/// The address that `s` denotes in colon-hexadecimal notation, if it
/// denotes one.
pub open spec fn ipv6_of_text(s: Seq<char>) -> Option<Ipv6Addr> {
    match groups_of_text(s) {
        Some(g) => Some(ipv6_of_groups(g)),
        None => None,
    }
}

/// Two colons in a row that stand at `k` and nowhere before are the first.
pub proof fn lemma_first_gap(s: Seq<char>, k: int)
    requires
        is_first_gap(s, k),
    ensures
        has_gap(s),
        first_gap(s) == k,
{
}

/// Reads the first `n` pieces of `parts` as group numerals.
fn parse_hex_groups(parts: &Vec<Vec<char>>, n: usize) -> (r: Option<Vec<u16>>)
    requires
        n <= parts@.len(),
    ensures
        r is Some == all_hex_groups(texts(parts@).take(n as int)),
        r matches Some(v) ==> v@ == hex_values(texts(parts@).take(n as int)),
{
    let mut out: Vec<u16> = Vec::new();
    let mut i: usize = 0;
    while i < n
        invariant
            i <= n <= parts@.len(),
            all_hex_groups(texts(parts@).take(i as int)),
            out@ == hex_values(texts(parts@).take(i as int)),
        decreases n - i,
    {
        match parse_hex_group(parts[i].as_slice()) {
            Some(v) => {
                out.push(v);
            },
            None => {
                proof {
                    let all = texts(parts@).take(n as int);
                    assert(all[i as int] == parts@[i as int]@);
                }
                return None;
            },
        }
        i += 1;
    }
    Some(out)
}

/// Reads `s` as a list of groups whose last piece may be an IPv4 address.
fn parse_group_list(s: &[char]) -> (r: Option<Vec<u16>>)
    ensures
        r is Some == groups_of_list(s@) is Some,
        r matches Some(v) ==> v@ == groups_of_list(s@)->0,
{
    let parts = split_chars(s, ':');
    let n = parts.len() - 1;
    let mut out = match parse_hex_groups(&parts, n) {
        Some(v) => v,
        None => { return None; },
    };
    let last = parts[n].as_slice();
    match parse_hex_group(last) {
        Some(v) => {
            out.push(v);
            Some(out)
        },
        None => match parse_ipv4(last) {
            Some(a) => {
                out.push(a.octets[0] as u16 * 256 + a.octets[1] as u16);
                out.push(a.octets[2] as u16 * 256 + a.octets[3] as u16);
                Some(out)
            },
            None => None,
        },
    }
}

/// Reads `s` as the groups before two colons in a row.
fn parse_groups_before_gap(s: &[char]) -> (r: Option<Vec<u16>>)
    ensures
        r is Some == groups_before_gap(s@) is Some,
        r matches Some(v) ==> v@ == groups_before_gap(s@)->0,
{
    if s.len() == 0 {
        return Some(Vec::new());
    }
    let parts = split_chars(s, ':');
    proof {
        assert(texts(parts@).take(parts@.len() as int) =~= split(s@, ':'));
    }
    parse_hex_groups(&parts, parts.len())
}

/// Reads `s` as the groups after two colons in a row.
fn parse_groups_after_gap(s: &[char]) -> (r: Option<Vec<u16>>)
    ensures
        r is Some == groups_after_gap(s@) is Some,
        r matches Some(v) ==> v@ == groups_after_gap(s@)->0,
{
    if s.len() == 0 {
        return Some(Vec::new());
    }
    parse_group_list(s)
}

/// Reads `s` as an address in colon-hexadecimal notation.
pub fn parse_ipv6(s: &[char]) -> (r: Option<Ipv6Addr>)
    ensures
        r == ipv6_of_text(s@),
{
    let mut k: usize = 0;
    while s.len() - k >= 2 && !(s[k] == ':' && s[k + 1] == ':')
        invariant
            k <= s.len(),
            forall|j: int| j < k ==> !gap_at(s@, j),
        decreases s.len() - k,
    {
        k += 1;
    }
    let groups = if s.len() - k >= 2 {
        proof {
            lemma_first_gap(s@, k as int);
        }
        let head = match parse_groups_before_gap(&s[0..k]) {
            Some(v) => v,
            None => { return None; },
        };
        let tail = match parse_groups_after_gap(&s[k + 2..s.len()]) {
            Some(v) => v,
            None => { return None; },
        };
        if head.len() > 7 || tail.len() > 7 - head.len() {
            return None;
        }
        let fill = 8 - head.len() - tail.len();
        let mut g = head;
        let mut i: usize = 0;
        while i < fill
            invariant
                i <= fill,
                g@ == head@ + zero_groups(i as int),
            decreases fill - i,
        {
            g.push(0);
            i += 1;
        }
        let mut j: usize = 0;
        while j < tail.len()
            invariant
                j <= tail@.len(),
                g@ == head@ + zero_groups(fill as int) + tail@.take(j as int),
            decreases tail.len() - j,
        {
            g.push(tail[j]);
            j += 1;
        }
        g
    } else {
        let g = match parse_group_list(s) {
            Some(v) => v,
            None => { return None; },
        };
        if g.len() != 8 {
            return None;
        }
        g
    };
    let r = Ipv6Addr {
        segments: [
            groups[0],
            groups[1],
            groups[2],
            groups[3],
            groups[4],
            groups[5],
            groups[6],
            groups[7],
        ],
    };
    Some(r)
}

/// The number of zero groups in a row that start at index `i` of `g`.
pub open spec fn zero_run_len(g: Seq<u16>, i: int) -> nat
    decreases g.len() - i,
{
    if 0 <= i < g.len() && g[i] == 0 {
        1 + zero_run_len(g, i + 1)
    } else {
        0
    }
}

/// Start and length of the longest run of zero groups among those that
/// start before index `n` of `g`; of several longest runs, the first.
pub open spec fn longest_zero_run_before(g: Seq<u16>, n: int) -> (int, nat)
    decreases n,
{
    if n <= 0 {
        (0int, 0nat)
    } else {
        let best = longest_zero_run_before(g, n - 1);
        let here = zero_run_len(g, n - 1);
        if here > best.1 {
            (n - 1, here)
        } else {
            best
        }
    }
}

/// Start and length of the first longest run of zero groups in `g`.
pub open spec fn longest_zero_run(g: Seq<u16>) -> (int, nat) {
    longest_zero_run_before(g, g.len() as int)
}

/// The eight groups `g` hold an IPv4 address behind the prefix
/// `0:0:0:0:0:ffff`.
pub open spec fn is_ipv4_mapped(g: Seq<u16>) -> bool {
    g[0] == 0 && g[1] == 0 && g[2] == 0 && g[3] == 0 && g[4] == 0 && g[5] == 0xffff
}

/// The numerals of the groups `g`.
pub open spec fn hex_texts(g: Seq<u16>) -> Seq<Seq<char>> {
    Seq::new(g.len(), |i: int| hex_text(g[i] as nat))
}

/// The numerals of the groups `g` with a colon between each two.
pub open spec fn group_list_text(g: Seq<u16>) -> Seq<char> {
    join(hex_texts(g), ':')
}

/// The canonical notation of the eight groups `g`. Groups that hold an IPv4
/// address behind `0:0:0:0:0:ffff` are written as `::ffff:` and that address
/// in dotted-quad notation. Otherwise the first longest run of zero groups
/// is left out if it has two groups or more.
pub open spec fn groups_text(g: Seq<u16>) -> Seq<char> {
    if is_ipv4_mapped(g) {
        seq![':', ':', 'f', 'f', 'f', 'f', ':'] + ipv4_text(embedded_ipv4(g))
    } else {
        let run = longest_zero_run(g);
        if run.1 >= 2 {
            group_list_text(g.subrange(0, run.0)) + seq![':', ':'] + group_list_text(
                g.subrange(run.0 + run.1, 8),
            )
        } else {
            group_list_text(g)
        }
    }
}

/// The canonical notation of `a`.
pub open spec fn ipv6_text(a: Ipv6Addr) -> Seq<char> {
    groups_text(a.segments@)
}

/// A run of zero groups ends within `g` and holds zero groups only.
pub proof fn lemma_zero_run_len(g: Seq<u16>, i: int)
    requires
        0 <= i <= g.len(),
    ensures
        i + zero_run_len(g, i) <= g.len(),
        forall|j: int| i <= j < i + zero_run_len(g, i) ==> g[j] == 0,
        i + zero_run_len(g, i) < g.len() ==> g[i + zero_run_len(g, i)] != 0,
    decreases g.len() - i,
{
    if i < g.len() && g[i] == 0 {
        lemma_zero_run_len(g, i + 1);
    }
}

/// What `longest_zero_run_before` picks: a run that is as long as any that
/// starts before `n`, and longer than any that starts before it.
pub proof fn lemma_longest_zero_run_before(g: Seq<u16>, n: int)
    requires
        0 <= n <= g.len(),
    ensures
        ({
            let run = longest_zero_run_before(g, n);
            &&& 0 <= run.0 <= n
            &&& run.0 + run.1 <= g.len()
            &&& run.1 == 0 || run.1 == zero_run_len(g, run.0)
            &&& forall|j: int| run.0 <= j < run.0 + run.1 ==> g[j] == 0
            &&& forall|i: int| 0 <= i < n ==> zero_run_len(g, i) <= run.1
            &&& forall|i: int| 0 <= i < run.0 ==> zero_run_len(g, i) < run.1
        }),
    decreases n,
{
    if n > 0 {
        lemma_longest_zero_run_before(g, n - 1);
        lemma_zero_run_len(g, n - 1);
    }
}

/// Counts the zero groups in a row that start at index `i`.
fn zero_run(g: &[u16; 8], i: usize) -> (n: usize)
    requires
        i <= 8,
    ensures
        n == zero_run_len(g@, i as int),
        i + n <= 8,
{
    let mut j: usize = i;
    while j < 8 && g[j] == 0
        invariant
            i <= j <= 8,
            zero_run_len(g@, i as int) == (j - i) + zero_run_len(g@, j as int),
        decreases 8 - j,
    {
        j += 1;
    }
    j - i
}

/// Finds the first longest run of zero groups.
fn find_longest_zero_run(g: &[u16; 8]) -> (r: (usize, usize))
    ensures
        (r.0 as int, r.1 as nat) == longest_zero_run(g@),
        r.0 + r.1 <= 8,
{
    let mut best: (usize, usize) = (0, 0);
    let mut i: usize = 0;
    while i < 8
        invariant
            i <= 8,
            (best.0 as int, best.1 as nat) == longest_zero_run_before(g@, i as int),
            best.0 + best.1 <= 8,
        decreases 8 - i,
    {
        let here = zero_run(g, i);
        if here > best.1 {
            best = (i, here);
        }
        i += 1;
    }
    best
}

/// Appends the numerals of the groups `g[from..to]` with a colon between
/// each two.
fn push_group_list(out: &mut String, g: &[u16; 8], from: usize, to: usize)
    requires
        from <= to <= 8,
    ensures
        final(out)@ == old(out)@ + group_list_text(g@.subrange(from as int, to as int)),
{
    let ghost list = g@.subrange(from as int, to as int);
    let mut i: usize = from;
    while i < to
        invariant
            from <= i <= to <= 8,
            list == g@.subrange(from as int, to as int),
            out@ == old(out)@ + join(hex_texts(list).take(i - from), ':'),
        decreases to - i,
    {
        let ghost before = hex_texts(list).take(i - from);
        let ghost now = hex_texts(list).take(i - from + 1);
        proof {
            assert(now.drop_last() =~= before);
        }
        if i > from {
            out.push(':');
        }
        push_hex(out, g[i]);
        i += 1;
    }
    proof {
        assert(hex_texts(list).take(to - from) =~= hex_texts(list));
    }
}

/// Appends the canonical notation of `a` to `out`.
pub fn push_ipv6(out: &mut String, a: &Ipv6Addr)
    ensures
        final(out)@ == old(out)@ + ipv6_text(*a),
{
    let g = &a.segments;
    if g[0] == 0 && g[1] == 0 && g[2] == 0 && g[3] == 0 && g[4] == 0 && g[5] == 0xffff {
        out.push(':');
        out.push(':');
        out.push('f');
        out.push('f');
        out.push('f');
        out.push('f');
        out.push(':');
        let v4 = Ipv4Addr {
            octets: [(g[6] / 256) as u8, (g[6] % 256) as u8, (g[7] / 256) as u8, (g[7] % 256) as u8],
        };
        push_ipv4(out, &v4);
    } else {
        let run = find_longest_zero_run(g);
        if run.1 >= 2 {
            push_group_list(out, g, 0, run.0);
            out.push(':');
            out.push(':');
            push_group_list(out, g, run.0 + run.1, 8);
            proof {
                assert(out@ =~= old(out)@ + (group_list_text(g@.subrange(0, run.0 as int))
                    + seq![':', ':'] + group_list_text(g@.subrange(run.0 + run.1, 8))));
            }
        } else {
            push_group_list(out, g, 0, 8);
            proof {
                assert(g@.subrange(0, 8) =~= g@);
            }
        }
    }
}

} // verus!
