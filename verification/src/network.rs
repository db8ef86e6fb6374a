//! Network addresses and the address ranges that webhook senders are held against.

use vstd::prelude::*;

verus! {

use crate::listing::concat;
use crate::text::{
    all_white, bare, is_white, join, joined, law_lines_end_at_line_feeds,
    law_trimming_takes_the_space_off_the_ends, lines, split_lines, trimmed, views,
    without_final_return,
};
use crate::validation::{trim_texts, trimmed_texts};

/// An address of one of the two families, as a number.
#[derive(Debug, Clone, Copy, PartialEq, Eq, Structural)]
pub enum PeerAddress {
    V4(u32),
    V6(u128),
}

/// A range of addresses: those that agree with `addr` in its first `prefix` bits.
#[allow(inconsistent_fields)]
#[derive(Debug, Clone, Copy, PartialEq, Eq, Structural)]
pub enum Cidr {
    V4 { addr: u32, prefix: u8 },
    V6 { addr: u128, prefix: u8 },
}

impl Cidr {
    /// No more bits are fixed than an address has.
    pub open spec fn wf(self) -> bool {
        match self {
            Cidr::V4 { prefix, .. } => prefix <= 32,
            Cidr::V6 { prefix, .. } => prefix <= 128,
        }
    }

    /// Whether the address lies in the range: same family, same first bits.
    pub open spec fn covers(self, peer: PeerAddress) -> bool {
        match (self, peer) {
            (Cidr::V4 { addr, prefix }, PeerAddress::V4(ip)) => prefix == 0 || addr >> ((32
                - prefix) as u32) == ip >> ((32 - prefix) as u32),
            (Cidr::V6 { addr, prefix }, PeerAddress::V6(ip)) => prefix == 0 || addr >> ((128
                - prefix) as u128) == ip >> ((128 - prefix) as u128),
            _ => false,
        }
    }
}

/// What `ipnet::IpNet` reads from a text such as `10.0.0.0/8`; nothing for an invalid text.
pub uninterp spec fn parsed_cidr(text: Seq<char>) -> Option<Cidr>;

/// `ipnet::IpNet::from_str`: reads an address and a prefix length. A range that was read never
/// fixes more bits than an address has.
#[verifier::external_body]
pub(crate) fn parse_cidr(text: &str) -> (r: Option<Cidr>)
    ensures
        r == parsed_cidr(text@),
        r matches Some(range) ==> range.wf(),
{
    match text.parse::<ipnet::IpNet>() {
        Ok(ipnet::IpNet::V4(net)) => Some(
            Cidr::V4 { addr: u32::from(net.addr()), prefix: net.prefix_len() },
        ),
        Ok(ipnet::IpNet::V6(net)) => Some(
            Cidr::V6 { addr: u128::from(net.addr()), prefix: net.prefix_len() },
        ),
        Err(_) => None,
    }
}

/// `ipnet::IpNet::contains`: whether an address lies in a range. An address of the other family
/// never does; otherwise the first bits decide, as many as the prefix says.
#[verifier::external_body]
fn range_contains(range: Cidr, peer: PeerAddress) -> (r: bool)
    requires
        range.wf(),
    ensures
        r == range.covers(peer),
{
    let net = match range {
        Cidr::V4 { addr, prefix } => ipnet::Ipv4Net::new(addr.into(), prefix).map(ipnet::IpNet::V4),
        Cidr::V6 { addr, prefix } => ipnet::Ipv6Net::new(addr.into(), prefix).map(ipnet::IpNet::V6),
    };
    let host = match peer {
        PeerAddress::V4(ip) => ipnet::Ipv4Net::new(ip.into(), 32).map(ipnet::IpNet::V4),
        PeerAddress::V6(ip) => ipnet::Ipv6Net::new(ip.into(), 128).map(ipnet::IpNet::V6),
    };
    net.unwrap().contains(&host.unwrap().addr())
}

/// A range as `ipnet::IpNet` writes it, such as `10.0.0.0/8`.
pub uninterp spec fn cidr_text(range: Cidr) -> Seq<char>;

/// `ipnet::IpNet`'s `to_string`: the address and the prefix length. The text is a function of the
/// range; how an address is written is not stated.
#[verifier::external_body]
fn write_cidr(range: Cidr) -> (r: String)
    requires
        range.wf(),
    ensures
        r@ == cidr_text(range),
{
    match range {
        Cidr::V4 { addr, prefix } => ipnet::Ipv4Net::new(addr.into(), prefix).unwrap().to_string(),
        Cidr::V6 { addr, prefix } => ipnet::Ipv6Net::new(addr.into(), prefix).unwrap().to_string(),
    }
}

pub open spec fn cidr_texts(ranges: Seq<Cidr>) -> Seq<Seq<char>> {
    Seq::new(ranges.len(), |i: int| cidr_text(ranges[i]))
}

/// The ranges in writing, with commas between them.
pub fn render_cidrs(ranges: &Vec<Cidr>) -> (r: String)
    requires
        ranges_wf(ranges@),
    ensures
        r@ == joined(cidr_texts(ranges@), ", "@),
{
    let mut texts: Vec<String> = Vec::new();
    let mut i: usize = 0;
    while i < ranges.len()
        invariant
            i <= ranges@.len(),
            ranges_wf(ranges@),
            texts@.len() == i,
            forall|j: int| 0 <= j < i ==> (#[trigger] texts@[j])@ == cidr_text(ranges@[j]),
        decreases ranges@.len() - i,
    {
        texts.push(write_cidr(ranges[i]));
        i += 1;
    }
    assert(views(texts@) =~= cidr_texts(ranges@));
    join(&texts, ", ")
}

pub open spec fn ranges_wf(ranges: Seq<Cidr>) -> bool {
    forall|i: int| 0 <= i < ranges.len() ==> (#[trigger] ranges[i]).wf()
}

/// Whether one of the ranges holds the address.
pub open spec fn covered(ranges: Seq<Cidr>, peer: PeerAddress) -> bool {
    exists|i: int| 0 <= i < ranges.len() && (#[trigger] ranges[i]).covers(peer)
}

fn any_range_contains(ranges: &Vec<Cidr>, peer: PeerAddress) -> (r: bool)
    requires
        ranges_wf(ranges@),
    ensures
        r == covered(ranges@, peer),
{
    let mut i: usize = 0;
    while i < ranges.len()
        invariant
            i <= ranges@.len(),
            ranges_wf(ranges@),
            forall|j: int| 0 <= j < i ==> !(#[trigger] ranges@[j]).covers(peer),
        decreases ranges@.len() - i,
    {
        if range_contains(ranges[i], peer) {
            return true;
        }
        i += 1;
    }
    false
}

pub fn is_cloudflare_ip(peer: PeerAddress, cloudflare_ip_ranges: &Vec<Cidr>) -> (r: bool)
    requires
        ranges_wf(cloudflare_ip_ranges@),
    ensures
        r == covered(cloudflare_ip_ranges@, peer),
{
    any_range_contains(cloudflare_ip_ranges, peer)
}

pub fn is_trusted_proxy_ip(peer: PeerAddress, trusted_proxy_cidrs: &Vec<Cidr>) -> (r: bool)
    requires
        ranges_wf(trusted_proxy_cidrs@),
    ensures
        r == covered(trusted_proxy_cidrs@, peer),
{
    any_range_contains(trusted_proxy_cidrs, peer)
}

/// The ranges that the texts denote, up to the first that denotes none.
pub open spec fn readable_ranges(texts: Seq<Seq<char>>) -> Seq<Cidr>
    decreases texts.len(),
{
    if texts.len() == 0 || parsed_cidr(texts.first()) is None {
        Seq::empty()
    } else {
        seq![parsed_cidr(texts.first())->0] + readable_ranges(texts.drop_first())
    }
}

/// Reads every text as a range, or gives the index of the first that is none.
fn parse_ranges(texts: &Vec<String>) -> (r: Result<Vec<Cidr>, usize>)
    ensures
        match r {
            Ok(ranges) => ranges@ == readable_ranges(views(texts@)) && ranges@.len()
                == texts@.len() && ranges_wf(ranges@),
            Err(at) => at < texts@.len() && at == readable_ranges(views(texts@)).len(),
        },
{
    let ghost all = views(texts@);
    let mut ranges: Vec<Cidr> = Vec::new();
    let mut i: usize = 0;
    assert(all.skip(0) == all);
    assert(ranges@ + readable_ranges(all) =~= readable_ranges(all));
    while i < texts.len()
        invariant
            i <= texts@.len(),
            all == views(texts@),
            ranges@.len() == i,
            ranges_wf(ranges@),
            readable_ranges(all) == ranges@ + readable_ranges(all.skip(i as int)),
        decreases texts@.len() - i,
    {
        assert(all.skip(i as int).drop_first() == all.skip(i + 1));
        assert(all.skip(i as int).first() == texts@[i as int]@);
        match parse_cidr(texts[i].as_str()) {
            Some(range) => {
                let ghost before = ranges@;
                ranges.push(range);
                assert(ranges@ + readable_ranges(all.skip(i + 1)) =~= before + (seq![range]
                    + readable_ranges(all.skip(i + 1))));
            },
            None => {
                assert(readable_ranges(all.skip(i as int)).len() == 0);
                return Err(i);
            },
        }
        i += 1;
    }
    assert(all.skip(i as int).len() == 0);
    assert(ranges@ + readable_ranges(all.skip(i as int)) =~= ranges@);
    Ok(ranges)
}

/// The ranges of the proxies that may forward webhook requests.
pub fn parse_trusted_proxy_cidrs(cidrs: &Vec<String>) -> (r: Result<Vec<Cidr>, String>)
    ensures
        r is Ok <==> readable_ranges(views(cidrs@)).len() == cidrs@.len(),
        match r {
            Ok(ranges) => ranges@ == readable_ranges(views(cidrs@)) && ranges_wf(ranges@),
            Err(message) => message@ == "invalid trusted proxy CIDR "@ + views(
                cidrs@,
            )[readable_ranges(views(cidrs@)).len() as int],
        },
{
    match parse_ranges(cidrs) {
        Ok(ranges) => Ok(ranges),
        Err(at) => Err(concat("invalid trusted proxy CIDR ", cidrs[at].as_str())),
    }
}

/// The trimmed lines of a published list, without the empty ones.
pub open spec fn listed_ranges(body: Seq<char>) -> Seq<Seq<char>> {
    trimmed_texts(lines(body))
}

/// The ranges of a published list with one range to a line.
pub fn parse_cloudflare_ranges(body: &str, url: &str) -> (r: Result<Vec<Cidr>, String>)
    ensures
        r is Ok <==> readable_ranges(listed_ranges(body@)).len() == listed_ranges(body@).len(),
        match r {
            Ok(ranges) => ranges@ == readable_ranges(listed_ranges(body@)) && ranges_wf(ranges@),
            Err(message) => message@ == "invalid Cloudflare IP range '"@ + listed_ranges(
                body@,
            )[readable_ranges(listed_ranges(body@)).len() as int] + "' from "@ + url@,
        },
{
    let listed = trim_texts(&split_lines(body));
    assert(views(listed@).len() == listed@.len());
    match parse_ranges(&listed) {
        Ok(ranges) => Ok(ranges),
        Err(at) => {
            let mut message = concat("invalid Cloudflare IP range '", listed[at].as_str());
            message.append("' from ");
            message.append(url);
            Err(message)
        },
    }
}

/// The ranges of both published lists; no range at all is an error.
pub fn combine_cloudflare_ranges(v4: Vec<Cidr>, v6: Vec<Cidr>) -> (r: Result<Vec<Cidr>, String>)
    ensures
        r is Ok <==> v4@.len() + v6@.len() > 0,
        match r {
            Ok(ranges) => ranges@ == v4@ + v6@,
            Err(message) => message@ == "Cloudflare IP range list is empty"@,
        },
{
    let mut all = v4;
    let mut more = v6;
    all.append(&mut more);
    if all.len() == 0 {
        Err("Cloudflare IP range list is empty".to_owned())
    } else {
        Ok(all)
    }
}

/// A range holds its own address and nothing of the other family. With no fixed bits it holds every
/// address of its family, and with all bits fixed its own alone.
pub proof fn law_range_holds_its_family(addr: u32, prefix: u8, ip: u32, wide: u128, other: u128)
    requires
        prefix <= 32,
    ensures
        (Cidr::V4 { addr, prefix }).covers(PeerAddress::V4(addr)),
        !(Cidr::V4 { addr, prefix }).covers(PeerAddress::V6(wide)),
        (Cidr::V4 { addr, prefix: 0 }).covers(PeerAddress::V4(ip)),
        (Cidr::V4 { addr, prefix: 32 }).covers(PeerAddress::V4(ip)) <==> ip == addr,
        !(Cidr::V6 { addr: wide, prefix: 128 }).covers(PeerAddress::V4(ip)),
        (Cidr::V6 { addr: wide, prefix: 128 }).covers(PeerAddress::V6(other)) <==> other == wide,
{
    assert(addr >> 0u32 == addr) by (bit_vector);
    assert(ip >> 0u32 == ip) by (bit_vector);
    assert(wide >> 0u128 == wide) by (bit_vector);
    assert(other >> 0u128 == other) by (bit_vector);
}

/// Where every text is a range, each is read in its place; the first that is none ends the list.
pub proof fn law_ranges_are_read_in_order(texts: Seq<Seq<char>>, i: int)
    ensures
        readable_ranges(texts).len() <= texts.len(),
        0 <= i < readable_ranges(texts).len() ==> parsed_cidr(texts[i]) == Some(
            readable_ranges(texts)[i],
        ),
        readable_ranges(texts).len() < texts.len() ==> parsed_cidr(
            texts[readable_ranges(texts).len() as int],
        ) is None,
    decreases texts.len(),
{
    if texts.len() > 0 && parsed_cidr(texts.first()) is Some {
        law_ranges_are_read_in_order(texts.drop_first(), i - 1);
    }
}

/// A published list gives a range for each line that is not blank, without the space around it.
pub proof fn law_each_line_lists_a_range(
    lead: Seq<char>,
    range: Seq<char>,
    trail: Seq<char>,
    rest: Seq<char>,
)
    requires
        all_white(lead),
        bare(range),
        all_white(trail),
        !(lead + range + trail).contains('\n'),
    ensures
        listed_ranges((lead + range + trail).push('\n') + rest) == (if range.len() == 0 {
            Seq::empty()
        } else {
            seq![range]
        }) + listed_ranges(rest),
{
    let line = lead + range + trail;
    law_lines_end_at_line_feeds(line, rest);
    let shown = without_final_return(line);
    assert(trimmed(shown) == range) by {
        if line.len() > 0 && line.last() == '\r' {
            if trail.len() > 0 {
                let shorter = trail.drop_last();
                assert(all_white(shorter)) by {
                    assert forall|k: int| 0 <= k < shorter.len() implies is_white(
                        #[trigger] shorter[k],
                    ) by {
                        assert(shorter[k] == trail[k]);
                    }
                }
                law_trimming_takes_the_space_off_the_ends(lead, range, shorter);
                assert(lead + range + shorter =~= shown);
            } else if range.len() > 0 {
                assert(line.last() == range.last());
            } else {
                let shorter = lead.drop_last();
                assert(all_white(shorter)) by {
                    assert forall|k: int| 0 <= k < shorter.len() implies is_white(
                        #[trigger] shorter[k],
                    ) by {
                        assert(shorter[k] == lead[k]);
                    }
                }
                law_trimming_takes_the_space_off_the_ends(shorter, range, trail);
                assert(shorter + range + trail =~= shown);
            }
        } else {
            law_trimming_takes_the_space_off_the_ends(lead, range, trail);
        }
    }
    lemma_trimmed_texts_from_the_front(shown, lines(rest));
}

proof fn lemma_trimmed_texts_from_the_front(first: Seq<char>, others: Seq<Seq<char>>)
    ensures
        trimmed_texts(seq![first] + others) == (if trimmed(first).len() == 0 {
            Seq::empty()
        } else {
            seq![trimmed(first)]
        }) + trimmed_texts(others),
    decreases others.len(),
{
    let all = seq![first] + others;
    if others.len() == 0 {
        assert(all.drop_last() =~= Seq::<Seq<char>>::empty());
        reveal_with_fuel(trimmed_texts, 2);
        assert(all =~= seq![first]);
    } else {
        lemma_trimmed_texts_from_the_front(first, others.drop_last());
        assert(all.drop_last() =~= seq![first] + others.drop_last());
        assert(all.last() == others.last());
    }
    assert(trimmed_texts(all) =~= (if trimmed(first).len() == 0 {
        Seq::empty()
    } else {
        seq![trimmed(first)]
    }) + trimmed_texts(others));
}

} // verus!
