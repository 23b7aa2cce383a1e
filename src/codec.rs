//! The binary record of a feed: protocol-buffer wire format with fields in
//! ascending number order. A feed is field 1 (title, text), field 2 (version,
//! varint) and field 3 (each link, a nested record). A link is fields 1 to 5
//! (id, title, url, date, summary), 6 (each tag) and 7 (via), all text. Empty
//! text and a zero version are left out.
//!
//! Decoding is strict: a field this schema does not know, or a field out of
//! order, makes the record invalid. Every upsert rewrites the whole record,
//! so a field skipped on reading would be dropped on the next write; refusing
//! such a record keeps a newer writer's data from being lost silently. What
//! the `version` field means is left to callers.
use vstd::prelude::*;

use vstd::utf8::*;

use crate::model::{links_view, strings_view, Feed, FeedV, Link, LinkV};

verus! {

pub const FEED_TITLE: u8 = 0x0a;
pub const FEED_VERSION: u8 = 0x10;
pub const FEED_LINK: u8 = 0x1a;
pub const LINK_ID: u8 = 0x0a;
pub const LINK_TITLE: u8 = 0x12;
pub const LINK_URL: u8 = 0x1a;
pub const LINK_DATE: u8 = 0x22;
pub const LINK_SUMMARY: u8 = 0x2a;
pub const LINK_TAG: u8 = 0x32;
pub const LINK_VIA: u8 = 0x3a;

// ---- encoding ----

/// Base-128 encoding of `n`, least significant group first, the high bit
/// set on every byte but the last.
pub open spec fn varint(n: nat) -> Seq<u8>
    decreases n,
{
    if n < 128 {
        seq![n as u8]
    } else {
        seq![(n % 128 + 128) as u8] + varint(n / 128)
    }
}

/// A length-delimited text field: tag, byte length, UTF-8 bytes.
pub open spec fn enc_text(tag: u8, s: Seq<char>) -> Seq<u8> {
    seq![tag] + varint(encode_utf8(s).len()) + encode_utf8(s)
}

/// A text field that is left out when empty.
pub open spec fn enc_opt_text(tag: u8, s: Seq<char>) -> Seq<u8> {
    if s.len() == 0 {
        Seq::empty()
    } else {
        enc_text(tag, s)
    }
}

/// One tag field for each tag, in order.
pub open spec fn enc_tags(ts: Seq<Seq<char>>) -> Seq<u8>
    decreases ts.len(),
{
    if ts.len() == 0 {
        Seq::empty()
    } else {
        enc_text(LINK_TAG, ts[0]) + enc_tags(ts.drop_first())
    }
}

#[verifier::opaque]
/// The record of a link.
pub open spec fn enc_link(l: LinkV) -> Seq<u8> {
    enc_opt_text(LINK_ID, l.id) + enc_opt_text(LINK_TITLE, l.title) + enc_opt_text(LINK_URL, l.url)
        + enc_opt_text(LINK_DATE, l.date) + enc_opt_text(LINK_SUMMARY, l.summary) + enc_tags(
        l.tags,
    ) + enc_opt_text(LINK_VIA, l.via)
}

/// The version field, left out when zero.
pub open spec fn enc_version(v: u32) -> Seq<u8> {
    if v == 0 {
        Seq::empty()
    } else {
        seq![FEED_VERSION] + varint(v as nat)
    }
}

/// One link field, holding the link's record, for each link in order.
pub open spec fn enc_links(ls: Seq<LinkV>) -> Seq<u8>
    decreases ls.len(),
{
    if ls.len() == 0 {
        Seq::empty()
    } else {
        seq![FEED_LINK] + varint(enc_link(ls[0]).len()) + enc_link(ls[0]) + enc_links(
            ls.drop_first(),
        )
    }
}

/// The record of a feed.
pub open spec fn enc_feed(f: FeedV) -> Seq<u8> {
    enc_opt_text(FEED_TITLE, f.title) + enc_version(f.version) + enc_links(f.links)
}

// ---- decoding ----

/// A varint of at most `k` bytes at the front of `b`, and what follows it.
pub open spec fn read_varint_k(b: Seq<u8>, k: nat) -> Option<(nat, Seq<u8>)>
    decreases k,
{
    if k == 0 || b.len() == 0 {
        None
    } else if b[0] < 128 {
        Some((b[0] as nat, b.drop_first()))
    } else {
        match read_varint_k(b.drop_first(), (k - 1) as nat) {
            Some((v, rest)) => Some(((b[0] - 128) as nat + 128 * v, rest)),
            None => None,
        }
    }
}

/// A varint of at most ten bytes whose value fits in 64 bits.
pub open spec fn read_varint(b: Seq<u8>) -> Option<(nat, Seq<u8>)> {
    match read_varint_k(b, 10) {
        Some((v, rest)) => if v <= u64::MAX {
            Some((v, rest))
        } else {
            None
        },
        None => None,
    }
}

/// A byte length and that many bytes of valid UTF-8, read as text.
pub open spec fn read_text(b: Seq<u8>) -> Option<(Seq<char>, Seq<u8>)> {
    match read_varint(b) {
        Some((n, rest)) => if n <= rest.len() && valid_utf8(rest.take(n as int)) {
            Some((decode_utf8(rest.take(n as int)), rest.skip(n as int)))
        } else {
            None
        },
        None => None,
    }
}

/// The text field `tag` if `b` starts with it, else empty text.
pub open spec fn read_opt_text(tag: u8, b: Seq<u8>) -> Option<(Seq<char>, Seq<u8>)> {
    if b.len() > 0 && b[0] == tag {
        read_text(b.drop_first())
    } else {
        Some((Seq::empty(), b))
    }
}

/// The tag fields at the front of `b`.
pub open spec fn read_tags(b: Seq<u8>) -> Option<(Seq<Seq<char>>, Seq<u8>)>
    decreases b.len(),
{
    if b.len() > 0 && b[0] == LINK_TAG {
        match read_text(b.drop_first()) {
            Some((t, rest)) => if rest.len() < b.len() {
                match read_tags(rest) {
                    Some((ts, tail)) => Some((seq![t] + ts, tail)),
                    None => None,
                }
            } else {
                None
            },
            None => None,
        }
    } else {
        Some((Seq::empty(), b))
    }
}

/// The link whose record is exactly `b`.
#[verifier::opaque]
pub open spec fn read_link(b: Seq<u8>) -> Option<LinkV> {
    match read_opt_text(LINK_ID, b) {
        None => None,
        Some((id, b1)) => match read_opt_text(LINK_TITLE, b1) {
            None => None,
            Some((title, b2)) => match read_opt_text(LINK_URL, b2) {
                None => None,
                Some((url, b3)) => match read_opt_text(LINK_DATE, b3) {
                    None => None,
                    Some((date, b4)) => match read_opt_text(LINK_SUMMARY, b4) {
                        None => None,
                        Some((summary, b5)) => match read_tags(b5) {
                            None => None,
                            Some((tags, b6)) => match read_opt_text(LINK_VIA, b6) {
                                None => None,
                                Some((via, b7)) => if b7.len() == 0 {
                                    Some(LinkV { id, title, url, date, summary, tags, via })
                                } else {
                                    None
                                },
                            },
                        },
                    },
                },
            },
        },
    }
}

/// The version field if `b` starts with it, else version 0.
pub open spec fn read_version(b: Seq<u8>) -> Option<(u32, Seq<u8>)> {
    if b.len() > 0 && b[0] == FEED_VERSION {
        match read_varint(b.drop_first()) {
            Some((v, rest)) => if v <= u32::MAX {
                Some((v as u32, rest))
            } else {
                None
            },
            None => None,
        }
    } else {
        Some((0, b))
    }
}

/// The link fields that make up all of `b`.
pub open spec fn read_links(b: Seq<u8>) -> Option<Seq<LinkV>>
    decreases b.len(),
{
    if b.len() == 0 {
        Some(Seq::empty())
    } else if b[0] == FEED_LINK {
        match read_varint(b.drop_first()) {
            Some((n, rest)) => if n <= rest.len() && rest.skip(n as int).len() < b.len() {
                match read_link(rest.take(n as int)) {
                    Some(l) => match read_links(rest.skip(n as int)) {
                        Some(ls) => Some(seq![l] + ls),
                        None => None,
                    },
                    None => None,
                }
            } else {
                None
            },
            None => None,
        }
    } else {
        None
    }
}

/// The feed whose record is exactly `b`, if any.
pub open spec fn record_feed(b: Seq<u8>) -> Option<FeedV> {
    match read_opt_text(FEED_TITLE, b) {
        None => None,
        Some((title, b1)) => match read_version(b1) {
            None => None,
            Some((version, b2)) => match read_links(b2) {
                None => None,
                Some(links) => Some(FeedV { title, version, links }),
            },
        },
    }
}

// ---- decoding what was encoded ----

/// `128` to the power `k`.
pub open spec fn pow128(k: nat) -> nat
    decreases k,
{
    if k == 0 {
        1
    } else {
        128 * pow128((k - 1) as nat)
    }
}

proof fn lemma_read_varint_k(n: nat, rest: Seq<u8>, k: nat)
    requires
        1 <= k,
        n < pow128(k),
    ensures
        read_varint_k(varint(n) + rest, k) == Some((n, rest)),
    decreases k,
{
    let b = varint(n) + rest;
    if n < 128 {
        assert(b.drop_first() =~= rest);
    } else {
        let p = pow128((k - 1) as nat);
        if k == 1 {
            assert(pow128(0) == 1);
        }
        assert(n / 128 < p) by (nonlinear_arith)
            requires
                n < 128 * p,
        ;
        lemma_read_varint_k(n / 128, rest, (k - 1) as nat);
        assert(b.drop_first() =~= varint(n / 128) + rest);
    }
}

/// A varint of a 64-bit value reads back as that value.
pub proof fn lemma_read_varint(n: nat, rest: Seq<u8>)
    requires
        n <= u64::MAX,
    ensures
        read_varint(varint(n) + rest) == Some((n, rest)),
{
    reveal_with_fuel(pow128, 11);
    assert(pow128(10) == 1180591620717411303424nat);
    lemma_read_varint_k(n, rest, 10);
}

proof fn lemma_read_text(s: Seq<char>, rest: Seq<u8>)
    requires
        encode_utf8(s).len() <= u64::MAX,
    ensures
        read_text(varint(encode_utf8(s).len()) + encode_utf8(s) + rest) == Some((s, rest)),
{
    let u = encode_utf8(s);
    let b = varint(u.len()) + u + rest;
    assert(b =~= varint(u.len()) + (u + rest));
    lemma_read_varint(u.len(), u + rest);
    assert((u + rest).take(u.len() as int) =~= u);
    assert((u + rest).skip(u.len() as int) =~= rest);
    encode_utf8_valid_utf8(s);
    encode_utf8_decode_utf8(s);
}

/// `b` is empty or starts with a byte above `t`.
pub open spec fn starts_above(b: Seq<u8>, t: u8) -> bool {
    b.len() == 0 || b[0] > t
}

proof fn lemma_opt_text_above(tag: u8, s: Seq<char>, x: Seq<u8>, t: u8)
    requires
        tag > t,
        starts_above(x, t),
    ensures
        starts_above(enc_opt_text(tag, s) + x, t),
{
    if s.len() == 0 {
        assert(enc_opt_text(tag, s) + x =~= x);
    }
}

proof fn lemma_tags_above(ts: Seq<Seq<char>>, x: Seq<u8>, t: u8)
    requires
        LINK_TAG > t,
        starts_above(x, t),
    ensures
        starts_above(enc_tags(ts) + x, t),
{
    if ts.len() == 0 {
        assert(enc_tags(ts) + x =~= x);
    }
}

proof fn lemma_read_opt_text(tag: u8, s: Seq<char>, rest: Seq<u8>)
    requires
        enc_opt_text(tag, s).len() <= u64::MAX,
        starts_above(rest, tag),
    ensures
        read_opt_text(tag, enc_opt_text(tag, s) + rest) == Some((s, rest)),
{
    if s.len() == 0 {
        assert(enc_opt_text(tag, s) + rest =~= rest);
    } else {
        let b = enc_opt_text(tag, s) + rest;
        let u = encode_utf8(s);
        assert(b.drop_first() =~= varint(u.len()) + u + rest);
        lemma_read_text(s, rest);
    }
}

proof fn lemma_read_tags(ts: Seq<Seq<char>>, rest: Seq<u8>)
    requires
        enc_tags(ts).len() <= u64::MAX,
        starts_above(rest, LINK_TAG),
    ensures
        read_tags(enc_tags(ts) + rest) == Some((ts, rest)),
    decreases ts.len(),
{
    let b = enc_tags(ts) + rest;
    if ts.len() == 0 {
        assert(b =~= rest);
    } else {
        let u = encode_utf8(ts[0]);
        let tail = enc_tags(ts.drop_first()) + rest;
        assert(b.drop_first() =~= varint(u.len()) + u + tail);
        lemma_read_text(ts[0], tail);
        lemma_read_tags(ts.drop_first(), rest);
        assert(seq![ts[0]] + ts.drop_first() =~= ts);
    }
}

/// The parts of a link record from each field on.
pub open spec fn link_suffixes(l: LinkV) -> Seq<Seq<u8>> {
    let s7 = enc_opt_text(LINK_VIA, l.via);
    let s6 = enc_tags(l.tags) + s7;
    let s5 = enc_opt_text(LINK_SUMMARY, l.summary) + s6;
    let s4 = enc_opt_text(LINK_DATE, l.date) + s5;
    let s3 = enc_opt_text(LINK_URL, l.url) + s4;
    let s2 = enc_opt_text(LINK_TITLE, l.title) + s3;
    seq![s2, s3, s4, s5, s6, s7]
}

proof fn lemma_link_suffixes_above(l: LinkV)
    ensures
        starts_above(link_suffixes(l)[0], LINK_ID),
        starts_above(link_suffixes(l)[1], LINK_TITLE),
        starts_above(link_suffixes(l)[2], LINK_URL),
        starts_above(link_suffixes(l)[3], LINK_DATE),
        starts_above(link_suffixes(l)[4], LINK_SUMMARY),
        starts_above(link_suffixes(l)[5], LINK_TAG),
{
    let e: Seq<u8> = Seq::empty();
    let sf = link_suffixes(l);
    assert(sf[5] == enc_opt_text(LINK_VIA, l.via) + e);
    let ts: Seq<u8> = seq![LINK_ID, LINK_TITLE, LINK_URL, LINK_DATE, LINK_SUMMARY, LINK_TAG];
    assert forall|k: int| 0 <= k < 6 implies starts_above(#[trigger] sf[k], ts[k]) by {
        let t = ts[k];
        lemma_opt_text_above(LINK_VIA, l.via, e, t);
        if k <= 4 {
            lemma_tags_above(l.tags, sf[5], t);
        }
        if k <= 3 {
            lemma_opt_text_above(LINK_SUMMARY, l.summary, sf[4], t);
        }
        if k <= 2 {
            lemma_opt_text_above(LINK_DATE, l.date, sf[3], t);
        }
        if k <= 1 {
            lemma_opt_text_above(LINK_URL, l.url, sf[2], t);
        }
        if k == 0 {
            lemma_opt_text_above(LINK_TITLE, l.title, sf[1], t);
        }
    }
    assert(starts_above(sf[0], ts[0]));
    assert(starts_above(sf[1], ts[1]));
    assert(starts_above(sf[2], ts[2]));
    assert(starts_above(sf[3], ts[3]));
    assert(starts_above(sf[4], ts[4]));
    assert(starts_above(sf[5], ts[5]));
}

proof fn lemma_read_link(l: LinkV)
    requires
        enc_link(l).len() <= u64::MAX,
    ensures
        read_link(enc_link(l)) == Some(l),
{
    let e: Seq<u8> = Seq::empty();
    let sf = link_suffixes(l);
    let (s2, s3, s4, s5, s6, s7) = (sf[0], sf[1], sf[2], sf[3], sf[4], sf[5]);
    let s1 = enc_opt_text(LINK_ID, l.id) + s2;
    assert(s1 =~= enc_link(l)) by {
        reveal(enc_link);
    }
    assert(s7 + e =~= s7);
    lemma_link_suffixes_above(l);
    lemma_read_opt_text(LINK_ID, l.id, s2);
    lemma_read_opt_text(LINK_TITLE, l.title, s3);
    lemma_read_opt_text(LINK_URL, l.url, s4);
    lemma_read_opt_text(LINK_DATE, l.date, s5);
    lemma_read_opt_text(LINK_SUMMARY, l.summary, s6);
    lemma_read_tags(l.tags, s7);
    lemma_read_opt_text(LINK_VIA, l.via, e);
    let r1 = read_opt_text(LINK_ID, s1);
    let r2 = read_opt_text(LINK_TITLE, s2);
    let r3 = read_opt_text(LINK_URL, s3);
    let r4 = read_opt_text(LINK_DATE, s4);
    let r5 = read_opt_text(LINK_SUMMARY, s5);
    let r6 = read_tags(s6);
    let r7 = read_opt_text(LINK_VIA, s7);
    assert(r1 == Some((l.id, s2)));
    assert(r2 == Some((l.title, s3)));
    assert(r3 == Some((l.url, s4)));
    assert(r4 == Some((l.date, s5)));
    assert(r5 == Some((l.summary, s6)));
    assert(r6 == Some((l.tags, s7)));
    assert(r7 == Some((l.via, e)));
    assert(read_link(s1) == Some(l)) by {
        reveal(read_link);
    }
}

proof fn lemma_read_links(ls: Seq<LinkV>)
    requires
        enc_links(ls).len() <= u64::MAX,
    ensures
        read_links(enc_links(ls)) == Some(ls),
    decreases ls.len(),
{
    if ls.len() > 0 {
        let b = enc_links(ls);
        let e = enc_link(ls[0]);
        let tail = enc_links(ls.drop_first());
        assert(b.drop_first() =~= varint(e.len()) + (e + tail));
        lemma_read_varint(e.len(), e + tail);
        assert((e + tail).take(e.len() as int) =~= e);
        assert((e + tail).skip(e.len() as int) =~= tail);
        lemma_read_link(ls[0]);
        lemma_read_links(ls.drop_first());
        assert(seq![ls[0]] + ls.drop_first() =~= ls);
    }
}

/// Decoding the record of a feed gives back that feed: every feed whose
/// record fits in 64-bit lengths round-trips exactly.
pub proof fn lemma_decode_encode(f: FeedV)
    requires
        enc_feed(f).len() <= u64::MAX,
    ensures
        record_feed(enc_feed(f)) == Some(f),
{
    let b2 = enc_links(f.links);
    let b1 = enc_version(f.version) + b2;
    assert(enc_feed(f) =~= enc_opt_text(FEED_TITLE, f.title) + b1);
    assert(starts_above(b2, FEED_VERSION));
    if f.version == 0 {
        assert(b1 =~= b2);
    } else {
        assert(b1.drop_first() =~= varint(f.version as nat) + b2);
        lemma_read_varint(f.version as nat, b2);
    }
    assert(read_version(b1) == Some((f.version, b2)));
    lemma_read_opt_text(FEED_TITLE, f.title, b1);
    lemma_read_links(f.links);
}

// ---- the encoder ----

proof fn lemma_enc_tags_push(ts: Seq<Seq<char>>, t: Seq<char>)
    ensures
        enc_tags(ts.push(t)) == enc_tags(ts) + enc_text(LINK_TAG, t),
    decreases ts.len(),
{
    if ts.len() == 0 {
        assert(ts.push(t).drop_first() =~= ts);
        assert(enc_tags(ts.push(t)) =~= enc_text(LINK_TAG, t) + enc_tags(ts));
    } else {
        assert(ts.push(t).drop_first() =~= ts.drop_first().push(t));
        lemma_enc_tags_push(ts.drop_first(), t);
        assert(enc_tags(ts.push(t)) =~= enc_tags(ts) + enc_text(LINK_TAG, t));
    }
}

proof fn lemma_enc_links_push(ls: Seq<LinkV>, l: LinkV)
    ensures
        enc_links(ls.push(l)) == enc_links(ls) + (seq![FEED_LINK] + varint(enc_link(l).len())
            + enc_link(l)),
    decreases ls.len(),
{
    let one = seq![FEED_LINK] + varint(enc_link(l).len()) + enc_link(l);
    if ls.len() == 0 {
        assert(ls.push(l).drop_first() =~= ls);
        assert(enc_links(ls.push(l)) =~= one + enc_links(ls));
    } else {
        assert(ls.push(l).drop_first() =~= ls.drop_first().push(l));
        lemma_enc_links_push(ls.drop_first(), l);
        assert(enc_links(ls.push(l)) =~= enc_links(ls) + one);
    }
}

fn put_varint(out: &mut Vec<u8>, n: u64)
    ensures
        final(out)@ == old(out)@ + varint(n as nat),
{
    let mut m: u64 = n;
    while m >= 128
        invariant
            old(out)@ + varint(n as nat) == out@ + varint(m as nat),
        decreases m,
    {
        let ghost before = out@;
        out.push((m % 128 + 128) as u8);
        assert(before + varint(m as nat) =~= out@ + varint((m / 128) as nat));
        m = m / 128;
    }
    let ghost before = out@;
    out.push(m as u8);
    assert(before + varint(m as nat) =~= out@);
}

fn put_bytes(out: &mut Vec<u8>, bytes: &[u8])
    ensures
        final(out)@ == old(out)@ + bytes@,
{
    let mut i: usize = 0;
    while i < bytes.len()
        invariant
            i <= bytes@.len(),
            out@ == old(out)@ + bytes@.take(i as int),
        decreases bytes.len() - i,
    {
        out.push(bytes[i]);
        assert(bytes@.take(i + 1) =~= bytes@.take(i as int).push(bytes@[i as int]));
        i = i + 1;
    }
    assert(bytes@.take(bytes@.len() as int) =~= bytes@);
}

fn put_text(out: &mut Vec<u8>, tag: u8, s: &String)
    ensures
        final(out)@ == old(out)@ + enc_text(tag, s@),
{
    let bytes = s.as_str().as_bytes();
    out.push(tag);
    put_varint(out, bytes.len() as u64);
    put_bytes(out, bytes);
    assert(out@ =~= old(out)@ + enc_text(tag, s@));
}

fn put_opt_text(out: &mut Vec<u8>, tag: u8, s: &String)
    ensures
        final(out)@ == old(out)@ + enc_opt_text(tag, s@),
{
    if s.as_str().is_empty() {
        assert(out@ =~= old(out)@ + enc_opt_text(tag, s@));
    } else {
        put_text(out, tag, s);
    }
}

fn encode_link(l: &Link) -> (r: Vec<u8>)
    ensures
        r@ == enc_link(l@),
{
    let mut out: Vec<u8> = Vec::new();
    put_opt_text(&mut out, LINK_ID, &l.id);
    put_opt_text(&mut out, LINK_TITLE, &l.title);
    put_opt_text(&mut out, LINK_URL, &l.url);
    put_opt_text(&mut out, LINK_DATE, &l.date);
    put_opt_text(&mut out, LINK_SUMMARY, &l.summary);
    let ghost head = out@;
    let ghost tv = strings_view(l.tags@);
    let mut i: usize = 0;
    while i < l.tags.len()
        invariant
            i <= l.tags@.len(),
            tv == strings_view(l.tags@),
            out@ == head + enc_tags(tv.take(i as int)),
        decreases l.tags.len() - i,
    {
        put_text(&mut out, LINK_TAG, &l.tags[i]);
        proof {
            assert(tv.take(i + 1) =~= tv.take(i as int).push(tv[i as int]));
            lemma_enc_tags_push(tv.take(i as int), tv[i as int]);
        }
        i = i + 1;
    }
    assert(tv.take(tv.len() as int) =~= tv);
    put_opt_text(&mut out, LINK_VIA, &l.via);
    proof {
        reveal(enc_link);
        assert(out@ =~= enc_link(l@));
    }
    out
}

/// The record of `feed`.
pub fn encode_feed(feed: &Feed) -> (r: Vec<u8>)
    ensures
        r@ == enc_feed(feed@),
{
    let mut out: Vec<u8> = Vec::new();
    put_opt_text(&mut out, FEED_TITLE, &feed.title);
    if feed.version != 0 {
        out.push(FEED_VERSION);
        put_varint(&mut out, feed.version as u64);
    }
    assert(out@ =~= enc_opt_text(FEED_TITLE, feed.title@) + enc_version(feed.version));
    let ghost head = out@;
    let ghost lv = links_view(feed.links@);
    let mut i: usize = 0;
    while i < feed.links.len()
        invariant
            i <= feed.links@.len(),
            lv == links_view(feed.links@),
            out@ == head + enc_links(lv.take(i as int)),
        decreases feed.links.len() - i,
    {
        let rec = encode_link(&feed.links[i]);
        out.push(FEED_LINK);
        put_varint(&mut out, rec.len() as u64);
        put_bytes(&mut out, rec.as_slice());
        proof {
            assert(lv.take(i + 1) =~= lv.take(i as int).push(lv[i as int]));
            lemma_enc_links_push(lv.take(i as int), lv[i as int]);
        }
        i = i + 1;
    }
    assert(lv.take(lv.len() as int) =~= lv);
    assert(out@ =~= enc_feed(feed@));
    out
}

// ---- the decoder ----

/// The bytes are not the record of a feed: truncated, out of order, or
/// otherwise malformed.
#[derive(Clone, Copy, Debug, PartialEq, Eq)]
pub struct DecodeError;

/// Relies on `String::from_utf8`: succeeds exactly when the bytes are valid
/// UTF-8, and the string then holds those bytes.
#[verifier::external_body]
fn string_from_utf8(v: Vec<u8>) -> (r: Option<String>)
    ensures
        r is Some <==> valid_utf8(v@),
        r matches Some(s) ==> encode_utf8(s@) == v@,
{
    String::from_utf8(v).ok()
}

fn get_varint_k(b: &[u8], pos: usize, end: usize, k: usize) -> (r: Option<(u64, usize)>)
    requires
        pos <= end <= b@.len(),
        k <= 10,
    ensures
        match read_varint_k(b@.subrange(pos as int, end as int), k as nat) {
            Some((v, rest)) => if v <= u64::MAX {
                r matches Some((x, q)) && x == v && pos < q <= end && rest == b@.subrange(
                    q as int,
                    end as int,
                )
            } else {
                r is None
            },
            None => r is None,
        },
    decreases k,
{
    let ghost sub = b@.subrange(pos as int, end as int);
    if k == 0 || pos >= end {
        return None;
    }
    let byte = b[pos];
    assert(sub[0] == byte);
    assert(sub.drop_first() =~= b@.subrange(pos + 1, end as int));
    if byte < 128 {
        return Some((byte as u64, pos + 1));
    }
    match get_varint_k(b, pos + 1, end, k - 1) {
        None => None,
        Some((v, q)) => {
            if v >= 0x200_0000_0000_0000 {
                None
            } else {
                Some(((byte - 128) as u64 + 128 * v, q))
            }
        },
    }
}

fn get_varint(b: &[u8], pos: usize, end: usize) -> (r: Option<(u64, usize)>)
    requires
        pos <= end <= b@.len(),
    ensures
        match read_varint(b@.subrange(pos as int, end as int)) {
            Some((v, rest)) => r matches Some((x, q)) && x == v && pos < q <= end && rest
                == b@.subrange(q as int, end as int),
            None => r is None,
        },
{
    get_varint_k(b, pos, end, 10)
}

fn get_text(b: &[u8], pos: usize, end: usize) -> (r: Option<(String, usize)>)
    requires
        pos <= end <= b@.len(),
    ensures
        match read_text(b@.subrange(pos as int, end as int)) {
            Some((s, rest)) => r matches Some((t, q)) && t@ == s && pos < q <= end && rest
                == b@.subrange(q as int, end as int),
            None => r is None,
        },
{
    let (n, q) = match get_varint(b, pos, end) {
        Some(x) => x,
        None => return None,
    };
    let ghost rest = b@.subrange(q as int, end as int);
    if n > (end - q) as u64 {
        return None;
    }
    let stop = q + n as usize;
    let mut v: Vec<u8> = Vec::new();
    let mut i: usize = q;
    while i < stop
        invariant
            q <= i <= stop <= end <= b@.len(),
            v@ == b@.subrange(q as int, i as int),
        decreases stop - i,
    {
        v.push(b[i]);
        assert(b@.subrange(q as int, i + 1) =~= b@.subrange(q as int, i as int).push(b@[i as int]));
        i = i + 1;
    }
    assert(rest.take(n as int) =~= v@);
    assert(rest.skip(n as int) =~= b@.subrange(stop as int, end as int));
    match string_from_utf8(v) {
        Some(s) => {
            proof {
                encode_utf8_decode_utf8(s@);
            }
            Some((s, stop))
        },
        None => None,
    }
}

fn get_opt_text(b: &[u8], tag: u8, pos: usize, end: usize) -> (r: Option<(String, usize)>)
    requires
        pos <= end <= b@.len(),
    ensures
        match read_opt_text(tag, b@.subrange(pos as int, end as int)) {
            Some((s, rest)) => r matches Some((t, q)) && t@ == s && pos <= q <= end && rest
                == b@.subrange(q as int, end as int),
            None => r is None,
        },
{
    if pos < end && b[pos] == tag {
        assert(b@.subrange(pos as int, end as int).drop_first() =~= b@.subrange(pos + 1, end as int));
        get_text(b, pos + 1, end)
    } else {
        Some((String::new(), pos))
    }
}

fn get_tags(b: &[u8], pos: usize, end: usize) -> (r: Option<(Vec<String>, usize)>)
    requires
        pos <= end <= b@.len(),
    ensures
        match read_tags(b@.subrange(pos as int, end as int)) {
            Some((ts, rest)) => r matches Some((v, q)) && strings_view(v@) == ts && pos <= q <= end
                && rest == b@.subrange(q as int, end as int),
            None => r is None,
        },
{
    let mut acc: Vec<String> = Vec::new();
    let mut p: usize = pos;
    while p < end && b[p] == LINK_TAG
        invariant
            pos <= p <= end <= b@.len(),
            read_tags(b@.subrange(pos as int, end as int)) == match read_tags(
                b@.subrange(p as int, end as int),
            ) {
                Some((ts, rest)) => Some((strings_view(acc@) + ts, rest)),
                None => None,
            },
        decreases end - p,
    {
        let ghost sub = b@.subrange(p as int, end as int);
        assert(sub.drop_first() =~= b@.subrange(p + 1, end as int));
        match get_text(b, p + 1, end) {
            None => return None,
            Some((t, q)) => {
                let ghost before = acc@;
                acc.push(t);
                proof {
                    match read_tags(b@.subrange(q as int, end as int)) {
                        Some((ts, rest)) => {
                            assert(strings_view(acc@) + ts =~= strings_view(before) + (seq![t@]
                                + ts));
                        },
                        None => {},
                    }
                }
                p = q;
            },
        }
    }
    assert(strings_view(acc@) + Seq::<Seq<char>>::empty() =~= strings_view(acc@));
    Some((acc, p))
}

#[verifier::rlimit(40)]
fn get_link(b: &[u8], pos: usize, end: usize) -> (r: Option<Link>)
    requires
        pos <= end <= b@.len(),
    ensures
        match read_link(b@.subrange(pos as int, end as int)) {
            Some(l) => r matches Some(x) && x@ == l,
            None => r is None,
        },
{
    proof {
        reveal(read_link);
    }
    let (id, after_id) = match get_opt_text(b, LINK_ID, pos, end) {
        Some(x) => x,
        None => return None,
    };
    let (title, after_title) = match get_opt_text(b, LINK_TITLE, after_id, end) {
        Some(x) => x,
        None => return None,
    };
    let (url, after_url) = match get_opt_text(b, LINK_URL, after_title, end) {
        Some(x) => x,
        None => return None,
    };
    let (date, after_date) = match get_opt_text(b, LINK_DATE, after_url, end) {
        Some(x) => x,
        None => return None,
    };
    let (summary, after_summary) = match get_opt_text(b, LINK_SUMMARY, after_date, end) {
        Some(x) => x,
        None => return None,
    };
    let (tags, after_tags) = match get_tags(b, after_summary, end) {
        Some(x) => x,
        None => return None,
    };
    let (via, after_via) = match get_opt_text(b, LINK_VIA, after_tags, end) {
        Some(x) => x,
        None => return None,
    };
    if after_via != end {
        return None;
    }
    Some(Link { id, title, url, date, summary, tags, via })
}

fn get_version(b: &[u8], pos: usize, end: usize) -> (r: Option<(u32, usize)>)
    requires
        pos <= end <= b@.len(),
    ensures
        match read_version(b@.subrange(pos as int, end as int)) {
            Some((v, rest)) => r matches Some((x, q)) && x == v && pos <= q <= end && rest
                == b@.subrange(q as int, end as int),
            None => r is None,
        },
{
    if pos < end && b[pos] == FEED_VERSION {
        assert(b@.subrange(pos as int, end as int).drop_first() =~= b@.subrange(pos + 1, end as int));
        match get_varint(b, pos + 1, end) {
            Some((v, q)) => {
                if v > u32::MAX as u64 {
                    None
                } else {
                    Some((v as u32, q))
                }
            },
            None => None,
        }
    } else {
        Some((0, pos))
    }
}

fn get_links(b: &[u8], pos: usize, end: usize) -> (r: Option<Vec<Link>>)
    requires
        pos <= end <= b@.len(),
    ensures
        match read_links(b@.subrange(pos as int, end as int)) {
            Some(ls) => r matches Some(v) && links_view(v@) == ls,
            None => r is None,
        },
{
    let mut acc: Vec<Link> = Vec::new();
    let mut p: usize = pos;
    while p < end
        invariant
            pos <= p <= end <= b@.len(),
            read_links(b@.subrange(pos as int, end as int)) == match read_links(
                b@.subrange(p as int, end as int),
            ) {
                Some(ls) => Some(links_view(acc@) + ls),
                None => None,
            },
        decreases end - p,
    {
        let ghost sub = b@.subrange(p as int, end as int);
        if b[p] != FEED_LINK {
            return None;
        }
        assert(sub.drop_first() =~= b@.subrange(p + 1, end as int));
        let (n, q) = match get_varint(b, p + 1, end) {
            Some(x) => x,
            None => return None,
        };
        let ghost rest = b@.subrange(q as int, end as int);
        if n > (end - q) as u64 {
            return None;
        }
        let stop = q + n as usize;
        assert(rest.take(n as int) =~= b@.subrange(q as int, stop as int));
        assert(rest.skip(n as int) =~= b@.subrange(stop as int, end as int));
        let l = match get_link(b, q, stop) {
            Some(l) => l,
            None => return None,
        };
        let ghost before = acc@;
        acc.push(l);
        proof {
            match read_links(b@.subrange(stop as int, end as int)) {
                Some(ls) => {
                    assert(links_view(acc@) + ls =~= links_view(before) + (seq![l@] + ls));
                },
                None => {},
            }
        }
        p = stop;
    }
    assert(b@.subrange(p as int, end as int).len() == 0);
    assert(links_view(acc@) + Seq::<LinkV>::empty() =~= links_view(acc@));
    Some(acc)
}

/// The feed whose record is `bytes`; an error when `bytes` is no such record.
pub fn decode_feed(bytes: &[u8]) -> (r: Result<Feed, DecodeError>)
    ensures
        match record_feed(bytes@) {
            Some(f) => r matches Ok(x) && x@ == f,
            None => r is Err,
        },
{
    let end = bytes.len();
    assert(bytes@.subrange(0, end as int) =~= bytes@);
    let (title, after_title) = match get_opt_text(bytes, FEED_TITLE, 0, end) {
        Some(x) => x,
        None => return Err(DecodeError),
    };
    let (version, after_version) = match get_version(bytes, after_title, end) {
        Some(x) => x,
        None => return Err(DecodeError),
    };
    match get_links(bytes, after_version, end) {
        Some(links) => Ok(Feed { title, version, links }),
        None => Err(DecodeError),
    }
}

} // verus!
