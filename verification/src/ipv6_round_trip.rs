//! The canonical notation of an IPv6 address is read back as that address.

use crate::inet::{Ipv4Addr, Ipv6Addr};
use crate::ipv4_text::{ipv4_text, lemma_ipv4_text_chars, lemma_ipv4_text_round_trip};
use crate::ipv6_text::{
    all_hex_groups, embedded_groups, embedded_ipv4, gap_at, group_list_text, groups_after_gap,
    groups_before_gap, groups_of_list, groups_of_text, groups_text, hex_texts,
    hex_values, ipv6_of_groups, ipv6_of_text, ipv6_text, is_first_gap, is_hex_group,
    is_ipv4_mapped, lemma_first_gap, lemma_longest_zero_run_before, longest_zero_run,
    zero_groups,
};
use crate::numeral::{hex_value, is_hex_digit, lemma_hex_text};
use crate::text::{
    join, lemma_join_chars, lemma_split_append, lemma_split_join, lemma_split_whole,
    none_contains, split,
};
use vstd::prelude::*;

verus! {

/// Pieces without a colon and with a character each, joined by colons,
/// neither start nor end with a colon, and no two colons stand in a row.
pub proof fn lemma_join_no_gap(p: Seq<Seq<char>>)
    requires
        p.len() >= 1,
        none_contains(p, ':'),
        forall|i: int| 0 <= i < p.len() ==> (#[trigger] p[i]).len() >= 1,
    ensures
        join(p, ':').len() >= 1,
        join(p, ':')[0] != ':',
        join(p, ':').last() != ':',
        forall|k: int| !gap_at(join(p, ':'), k),
    decreases p.len(),
{
    let t = join(p, ':');
    if p.len() > 1 {
        let init = p.drop_last();
        lemma_join_no_gap(init);
        let h = join(init, ':');
        assert forall|k: int| !gap_at(t, k) by {
            if 0 <= k && k + 1 < t.len() {
                if k + 1 < h.len() {
                    assert(!gap_at(h, k));
                }
            }
        }
    }
}

/// The list text of at least one group splits into the numerals of the
/// groups, which stand for them, and holds no two colons in a row.
pub proof fn lemma_group_list_text(g: Seq<u16>)
    requires
        g.len() >= 1,
    ensures
        split(group_list_text(g), ':') == hex_texts(g),
        all_hex_groups(hex_texts(g)),
        hex_values(hex_texts(g)) == g,
        group_list_text(g).len() >= 1,
        group_list_text(g)[0] != ':',
        group_list_text(g).last() != ':',
        forall|k: int| !gap_at(group_list_text(g), k),
{
    let p = hex_texts(g);
    assert forall|i: int| 0 <= i < p.len() implies is_hex_group(#[trigger] p[i]) && hex_value(
        p[i],
    ) == g[i] by {
        lemma_hex_text(g[i] as nat);
    }
    lemma_split_join(p, ':');
    lemma_join_no_gap(p);
}

/// A list of at least one group is read as its groups, before two colons
/// in a row and after them.
pub proof fn lemma_group_list_read(g: Seq<u16>)
    requires
        g.len() >= 1,
    ensures
        groups_of_list(group_list_text(g)) == Some(g),
        groups_before_gap(group_list_text(g)) == Some(g),
        groups_after_gap(group_list_text(g)) == Some(g),
{
    lemma_group_list_text(g);
}

/// The text `::ffff:` before an IPv4 address in dotted-quad notation is read
/// as five zero groups, `ffff` and the two groups that hold the address.
pub proof fn lemma_mapped_text_read(v4: Ipv4Addr)
    ensures
        groups_of_text(seq![':', ':', 'f', 'f', 'f', 'f', ':'] + ipv4_text(v4)) == Some(
            zero_groups(5) + seq![0xffffu16] + embedded_groups(v4),
        ),
{
    let ffff = seq!['f', 'f', 'f', 'f'];
    let quad = ipv4_text(v4);
    let tail = ffff.push(':') + quad;
    let t = seq![':', ':', 'f', 'f', 'f', 'f', ':'] + quad;
    lemma_ipv4_text_chars(v4);
    lemma_ipv4_text_round_trip(v4);
    assert(t =~= seq![':', ':'] + tail);
    assert(is_first_gap(t, 0));
    assert(t.subrange(2, t.len() as int) =~= tail);
    lemma_split_whole(ffff, ':');
    assert forall|j: int| 0 <= j < quad.len() implies quad[j] != ':' by {
        let c = quad[j];
        assert(c == '.' || ('0' <= c && c <= '9'));
    }
    lemma_split_append(ffff, quad, ':');
    let p = split(tail, ':');
    assert(p.drop_last() =~= seq![ffff]);
    assert(p.last() == quad);
    assert(is_hex_group(ffff));
    assert(hex_value(ffff) == 0xffff) by {
        reveal_with_fuel(hex_value, 5);
        assert(ffff.drop_last() =~= seq!['f', 'f', 'f']);
        assert(ffff.drop_last().drop_last() =~= seq!['f', 'f']);
        assert(ffff.drop_last().drop_last().drop_last() =~= seq!['f']);
    }
    assert(Seq::<u16>::empty() + zero_groups(5) + (seq![0xffffu16] + embedded_groups(v4))
        =~= zero_groups(5) + seq![0xffffu16] + embedded_groups(v4));
}

/// Two lists with two colons between them are read as the groups of the
/// first list, zero groups, and the groups of the second list.
pub proof fn lemma_gap_text_read(h: Seq<u16>, tl: Seq<u16>)
    requires
        h.len() + tl.len() <= 7,
    ensures
        groups_of_text(group_list_text(h) + seq![':', ':'] + group_list_text(tl)) == Some(
            h + zero_groups(8 - h.len() - tl.len()) + tl,
        ),
{
    let ht = group_list_text(h);
    let tt = group_list_text(tl);
    let t = ht + seq![':', ':'] + tt;
    if h.len() > 0 {
        lemma_group_list_text(h);
    }
    if tl.len() > 0 {
        lemma_group_list_read(tl);
    } else {
        assert(tl =~= Seq::<u16>::empty());
    }
    let k = ht.len() as int;
    assert forall|j: int| j < k implies !gap_at(t, j) by {
        if 0 <= j {
            if j + 1 < k {
                assert(!gap_at(ht, j));
            } else {
                assert(t[j] == ht[k - 1]);
            }
        }
    }
    lemma_first_gap(t, k);
    assert(t.subrange(0, k) =~= ht);
    assert(t.subrange(k + 2, t.len() as int) =~= tt);
}

/// A list of eight groups is read as those groups.
pub proof fn lemma_full_text_read(g: Seq<u16>)
    requires
        g.len() == 8,
    ensures
        groups_of_text(group_list_text(g)) == Some(g),
{
    lemma_group_list_text(g);
}

/// `c` is a hexadecimal digit, a colon or a dot.
pub open spec fn is_ipv6_text_char(c: char) -> bool {
    is_hex_digit(c) || c == ':' || c == '.'
}

/// The list text of groups holds hexadecimal digits and colons only.
pub proof fn lemma_group_list_text_chars(g: Seq<u16>)
    ensures
        forall|j: int|
            0 <= j < group_list_text(g).len() ==> is_ipv6_text_char(
                #[trigger] group_list_text(g)[j],
            ),
{
    let p = hex_texts(g);
    let ok = |c: char| is_ipv6_text_char(c);
    assert forall|i: int, j: int| 0 <= i < p.len() && 0 <= j < p[i].len() implies ok(
        #[trigger] p[i][j],
    ) by {
        lemma_hex_text(g[i] as nat);
    }
    lemma_join_chars(p, ':', ok);
}

/// The canonical notation of eight groups holds hexadecimal digits, colons
/// and dots only.
pub proof fn lemma_groups_text_chars(g: Seq<u16>)
    requires
        g.len() == 8,
    ensures
        forall|j: int|
            0 <= j < groups_text(g).len() ==> is_ipv6_text_char(#[trigger] groups_text(g)[j]),
{
    let t = groups_text(g);
    if is_ipv4_mapped(g) {
        let quad = ipv4_text(embedded_ipv4(g));
        lemma_ipv4_text_chars(embedded_ipv4(g));
        assert forall|j: int| 0 <= j < t.len() implies is_ipv6_text_char(#[trigger] t[j]) by {
            if j >= 7 {
                let c = quad[j - 7];
                assert(t[j] == c);
                assert(c == '.' || ('0' <= c && c <= '9'));
            }
        }
    } else {
        let run = longest_zero_run(g);
        if run.1 >= 2 {
            let ht = group_list_text(g.subrange(0, run.0));
            let tt = group_list_text(g.subrange(run.0 + run.1, 8));
            lemma_group_list_text_chars(g.subrange(0, run.0));
            lemma_group_list_text_chars(g.subrange(run.0 + run.1, 8));
            assert forall|j: int| 0 <= j < t.len() implies is_ipv6_text_char(#[trigger] t[j]) by {
                if j < ht.len() {
                    assert(t[j] == ht[j]);
                } else if j >= ht.len() + 2 {
                    assert(t[j] == tt[j - ht.len() - 2]);
                }
            }
        } else {
            lemma_group_list_text_chars(g);
        }
    }
}

/// Reading the canonical notation of eight groups gives the groups back.
pub proof fn lemma_groups_text_read(g: Seq<u16>)
    requires
        g.len() == 8,
    ensures
        groups_of_text(groups_text(g)) == Some(g),
{
    if is_ipv4_mapped(g) {
        let v4 = embedded_ipv4(g);
        lemma_mapped_text_read(v4);
    } else {
        let run = longest_zero_run(g);
        lemma_longest_zero_run_before(g, 8);
        if run.1 >= 2 {
            let h = g.subrange(0, run.0);
            let tl = g.subrange(run.0 + run.1, 8);
            lemma_gap_text_read(h, tl);
        } else {
            lemma_full_text_read(g);
        }
    }
}

/// Reading the canonical notation of an address gives the address back.
pub proof fn lemma_ipv6_text_round_trip(a: Ipv6Addr)
    ensures
        ipv6_of_text(ipv6_text(a)) == Some(a),
{
    lemma_groups_text_read(a.segments@);
    assert(ipv6_of_groups(a.segments@).segments =~= a.segments);
}

} // verus!
