//! Dotted-quad notation of IPv4 addresses.

use crate::inet::Ipv4Addr;
use crate::numeral::{
    dec_text, dec_value, is_dec_numeral, lemma_dec_text, parse_dec, push_dec,
};
use crate::text::{join, lemma_split_join, split, split_chars};
use vstd::prelude::*;

verus! {

/// `s` is the decimal numeral of an octet: one to three digits, no leading
/// zero before another digit, and a value of at most 255.
pub open spec fn is_octet_text(s: Seq<char>) -> bool {
    &&& 1 <= s.len() <= 3
    &&& (s.len() > 1 ==> s[0] != '0')
    &&& is_dec_numeral(s, 255)
}

/// The address that `s` denotes in dotted-quad notation, if it denotes one:
/// four octet numerals with a dot between each two.
pub open spec fn ipv4_of_text(s: Seq<char>) -> Option<Ipv4Addr> {
    let p = split(s, '.');
    if p.len() == 4 && is_octet_text(p[0]) && is_octet_text(p[1]) && is_octet_text(p[2])
        && is_octet_text(p[3]) {
        Some(
            Ipv4Addr {
                octets: [
                    dec_value(p[0]) as u8,
                    dec_value(p[1]) as u8,
                    dec_value(p[2]) as u8,
                    dec_value(p[3]) as u8,
                ],
            },
        )
    } else {
        None
    }
}

/// The numerals of the four octets of `a`.
pub open spec fn octet_texts(a: Ipv4Addr) -> Seq<Seq<char>> {
    seq![
        dec_text(a.octets[0] as nat),
        dec_text(a.octets[1] as nat),
        dec_text(a.octets[2] as nat),
        dec_text(a.octets[3] as nat),
    ]
}

/// The dotted-quad notation of `a`.
pub open spec fn ipv4_text(a: Ipv4Addr) -> Seq<char> {
    join(octet_texts(a), '.')
}

/// The numeral of an octet is an octet numeral that stands for it.
pub proof fn lemma_octet_text(v: u8)
    ensures
        is_octet_text(dec_text(v as nat)),
        dec_value(dec_text(v as nat)) == v,
{
    lemma_dec_text(v as nat);
}

/// Joining four pieces with a separator writes them out with three
/// separators.
pub proof fn lemma_join_four(p: Seq<Seq<char>>, sep: char)
    requires
        p.len() == 4,
    ensures
        join(p, sep) == p[0].push(sep) + p[1] + seq![sep] + p[2] + seq![sep] + p[3],
{
    let three = p.drop_last();
    let two = three.drop_last();
    let one = two.drop_last();
    assert(join(one, sep) == p[0]);
    assert(join(three, sep) == join(two, sep).push(sep) + three.last());
}

/// Reading the notation of an address gives the address back.
pub proof fn lemma_ipv4_text_round_trip(a: Ipv4Addr)
    ensures
        ipv4_of_text(ipv4_text(a)) == Some(a),
{
    let p = octet_texts(a);
    lemma_octet_text(a.octets[0]);
    lemma_octet_text(a.octets[1]);
    lemma_octet_text(a.octets[2]);
    lemma_octet_text(a.octets[3]);
    lemma_split_join(p, '.');
    let b = ipv4_of_text(ipv4_text(a))->0;
    assert(b.octets =~= a.octets);
}

/// The notation of an address holds digits and dots only.
pub proof fn lemma_ipv4_text_chars(a: Ipv4Addr)
    ensures
        forall|i: int|
            0 <= i < ipv4_text(a).len() ==> {
                let c = #[trigger] ipv4_text(a)[i];
                c == '.' || ('0' <= c && c <= '9')
            },
        ipv4_text(a).len() >= 7,
        ipv4_text(a)[0] != '.',
{
    let p = octet_texts(a);
    lemma_octet_text(a.octets[0]);
    lemma_octet_text(a.octets[1]);
    lemma_octet_text(a.octets[2]);
    lemma_octet_text(a.octets[3]);
    lemma_join_four(p, '.');
    let t = ipv4_text(a);
    assert forall|i: int| 0 <= i < t.len() implies {
        let c = #[trigger] t[i];
        c == '.' || ('0' <= c && c <= '9')
    } by {}
}

/// Reads `s` as the numeral of an octet.
pub fn parse_octet(s: &[char]) -> (r: Option<u8>)
    ensures
        r == (if is_octet_text(s@) {
            Some(dec_value(s@) as u8)
        } else {
            None
        }),
{
    if s.len() == 0 || s.len() > 3 {
        return None;
    }
    if s.len() > 1 && s[0] == '0' {
        return None;
    }
    match parse_dec(s, 255) {
        Some(v) => Some(v as u8),
        None => None,
    }
}

/// Reads `s` as an address in dotted-quad notation.
pub fn parse_ipv4(s: &[char]) -> (r: Option<Ipv4Addr>)
    ensures
        r == ipv4_of_text(s@),
{
    let parts = split_chars(s, '.');
    if parts.len() != 4 {
        return None;
    }
    let a = match parse_octet(parts[0].as_slice()) {
        Some(v) => v,
        None => { return None; },
    };
    let b = match parse_octet(parts[1].as_slice()) {
        Some(v) => v,
        None => { return None; },
    };
    let c = match parse_octet(parts[2].as_slice()) {
        Some(v) => v,
        None => { return None; },
    };
    let d = match parse_octet(parts[3].as_slice()) {
        Some(v) => v,
        None => { return None; },
    };
    let r = Ipv4Addr { octets: [a, b, c, d] };
    Some(r)
}

/// Appends the dotted-quad notation of `a` to `out`.
pub fn push_ipv4(out: &mut String, a: &Ipv4Addr)
    ensures
        final(out)@ == old(out)@ + ipv4_text(*a),
{
    proof {
        lemma_join_four(octet_texts(*a), '.');
    }
    push_dec(out, a.octets[0] as u32);
    out.push('.');
    push_dec(out, a.octets[1] as u32);
    out.push('.');
    push_dec(out, a.octets[2] as u32);
    out.push('.');
    push_dec(out, a.octets[3] as u32);
    proof {
        let p = octet_texts(*a);
        assert(out@ =~= old(out)@ + (p[0].push('.') + p[1] + seq!['.'] + p[2] + seq!['.']
            + p[3]));
    }
}

} // verus!
