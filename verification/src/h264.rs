//! H.264 framing: splitting Annex-B / AVCC byte streams into NAL units,
//! ordering parameter sets before slices, summarising access units, and
//! reading the negotiated payload type and SSRC out of an SDP.
use vstd::prelude::*;

use crate::scan::{digit_prefix_len, digit_run, parse_u32, parse_u8, parse_unsigned, split_lines, split_ws, text_lines, views, ws_words};
use crate::text::{
    chars_of, copy_range, eq_ignore_case, eq_ignore_case_lit, eq_lit, find_char, first_char,
    has_char, has_prefix, starts_with_lit, trim, trim_chars,
};

verus! {

/// The byte contents of a list of NAL slices.
pub open spec fn nal_views(v: Seq<&[u8]>) -> Seq<Seq<u8>> {
    v.map_values(|s: &[u8]| s@)
}

/// `nal_unit_type` of a (non-empty) NAL: the low five bits of its first byte.
pub open spec fn nal_type(n: Seq<u8>) -> u8 {
    n[0] & 0x1f
}

/// The non-empty NALs of a given type, in order.
pub open spec fn nals_of_type(ns: Seq<Seq<u8>>, t: u8) -> Seq<Seq<u8>>
    decreases ns.len(),
{
    if ns.len() == 0 {
        seq![]
    } else {
        let rest = nals_of_type(ns.drop_last(), t);
        let n = ns.last();
        if n.len() > 0 && nal_type(n) == t {
            rest.push(n)
        } else {
            rest
        }
    }
}

/// The non-empty NALs that are neither SPS (7) nor PPS (8), in order.
pub open spec fn other_nals(ns: Seq<Seq<u8>>) -> Seq<Seq<u8>>
    decreases ns.len(),
{
    if ns.len() == 0 {
        seq![]
    } else {
        let rest = other_nals(ns.drop_last());
        let n = ns.last();
        if n.len() > 0 && nal_type(n) != 7 && nal_type(n) != 8 {
            rest.push(n)
        } else {
            rest
        }
    }
}

/// The non-empty NALs, in order.
pub open spec fn nonempty_nals(ns: Seq<Seq<u8>>) -> Seq<Seq<u8>>
    decreases ns.len(),
{
    if ns.len() == 0 {
        seq![]
    } else {
        let rest = nonempty_nals(ns.drop_last());
        if ns.last().len() > 0 {
            rest.push(ns.last())
        } else {
            rest
        }
    }
}

/// Some non-empty NAL has the given type.
pub open spec fn has_type(ns: Seq<Seq<u8>>, t: u8) -> bool {
    exists|i: int| 0 <= i < ns.len() && ns[i].len() > 0 && nal_type(#[trigger] ns[i]) == t
}

/// The order NALs are sent in: every SPS, then every PPS, then the rest,
/// each group in its input order; empty NALs are dropped.
pub open spec fn spec_reordered(ns: Seq<Seq<u8>>) -> Seq<Seq<u8>> {
    nals_of_type(ns, 7) + nals_of_type(ns, 8) + other_nals(ns)
}

/// The cache after a frame: its last SPS (or PPS) when it has one.
pub open spec fn spec_cached(ns: Seq<Seq<u8>>, t: u8, before: Option<Seq<u8>>) -> Option<Seq<u8>> {
    let found = nals_of_type(ns, t);
    if found.len() > 0 {
        Some(found.last())
    } else {
        before
    }
}

pub open spec fn opt_view(o: Option<Vec<u8>>) -> Option<Seq<u8>> {
    match o {
        Some(v) => Some(v@),
        None => None,
    }
}

/// Puts SPS (type 7) and PPS (type 8) NALs before the others, as decoders
/// need them ahead of an IDR, and caches the latest SPS and PPS for
/// re-injection. Also reports whether an IDR slice (type 5) is present.
pub fn reorder_and_cache_sps_pps<'a>(
    nalus: Vec<&'a [u8]>,
    cached_sps: &mut Option<Vec<u8>>,
    cached_pps: &mut Option<Vec<u8>>,
) -> (r: (Vec<&'a [u8]>, bool))
    ensures
        nal_views(r.0@) == spec_reordered(nal_views(nalus@)),
        r.1 == has_type(nal_views(nalus@), 5),
        opt_view(*final(cached_sps)) == spec_cached(nal_views(nalus@), 7, opt_view(*old(cached_sps))),
        opt_view(*final(cached_pps)) == spec_cached(nal_views(nalus@), 8, opt_view(*old(cached_pps))),
{
    let ghost all = nal_views(nalus@);
    let mut sps: Vec<&'a [u8]> = Vec::new();
    let mut pps: Vec<&'a [u8]> = Vec::new();
    let mut others: Vec<&'a [u8]> = Vec::new();
    let mut has_idr = false;
    let mut i: usize = 0;
    while i < nalus.len()
        invariant
            i <= nalus@.len(),
            all == nal_views(nalus@),
            nal_views(sps@) == nals_of_type(all.subrange(0, i as int), 7),
            nal_views(pps@) == nals_of_type(all.subrange(0, i as int), 8),
            nal_views(others@) == other_nals(all.subrange(0, i as int)),
            has_idr == has_type(all.subrange(0, i as int), 5),
            opt_view(*cached_sps) == spec_cached(all.subrange(0, i as int), 7, opt_view(*old(cached_sps))),
            opt_view(*cached_pps) == spec_cached(all.subrange(0, i as int), 8, opt_view(*old(cached_pps))),
        decreases nalus@.len() - i,
    {
        let nal = nalus[i];
        let ghost pre = all.subrange(0, i as int);
        let ghost cur = all.subrange(0, i + 1);
        assert(cur.drop_last() =~= pre);
        assert(cur.last() == nal@);
        if nal.len() > 0 {
            let t = nal[0] & 0x1f;
            assert(t == nal_type(nal@));
            if t == 5 {
                has_idr = true;
                others.push(nal);
                assert(has_type(cur, 5)) by {
                    assert(cur[i as int] == nal@);
                }
            } else {
                assert(has_type(cur, 5) == has_type(pre, 5)) by {
                    if has_type(cur, 5) {
                        let k = choose|k: int| 0 <= k < cur.len() && cur[k].len() > 0 && nal_type(#[trigger] cur[k]) == 5;
                        if k < i {
                            assert(pre[k] == cur[k]);
                        }
                    }
                    if has_type(pre, 5) {
                        let k = choose|k: int| 0 <= k < pre.len() && pre[k].len() > 0 && nal_type(#[trigger] pre[k]) == 5;
                        assert(pre[k] == cur[k]);
                    }
                }
                if t == 7 {
                    *cached_sps = Some(vstd::slice::slice_to_vec(nal));
                    sps.push(nal);
                } else if t == 8 {
                    *cached_pps = Some(vstd::slice::slice_to_vec(nal));
                    pps.push(nal);
                } else {
                    others.push(nal);
                }
            }
        } else {
            assert(has_type(cur, 5) == has_type(pre, 5)) by {
                if has_type(cur, 5) {
                    let k = choose|k: int| 0 <= k < cur.len() && cur[k].len() > 0 && nal_type(#[trigger] cur[k]) == 5;
                    if k < i {
                        assert(pre[k] == cur[k]);
                    }
                }
                if has_type(pre, 5) {
                    let k = choose|k: int| 0 <= k < pre.len() && pre[k].len() > 0 && nal_type(#[trigger] pre[k]) == 5;
                    assert(pre[k] == cur[k]);
                }
            }
        }
        assert(nal_views(sps@) =~= nals_of_type(cur, 7));
        assert(nal_views(pps@) =~= nals_of_type(cur, 8));
        assert(nal_views(others@) =~= other_nals(cur));
        i += 1;
    }
    assert(all.subrange(0, nalus@.len() as int) =~= all);
    let mut ordered: Vec<&'a [u8]> = Vec::new();
    append_nals(&mut ordered, &sps);
    append_nals(&mut ordered, &pps);
    append_nals(&mut ordered, &others);
    assert(nal_views(ordered@) =~= spec_reordered(all));
    (ordered, has_idr)
}

fn append_nals<'a>(dst: &mut Vec<&'a [u8]>, src: &Vec<&'a [u8]>)
    ensures
        nal_views(final(dst)@) == nal_views(old(dst)@) + nal_views(src@),
{
    let ghost start = nal_views(dst@);
    let mut i: usize = 0;
    while i < src.len()
        invariant
            i <= src@.len(),
            nal_views(dst@) == start + nal_views(src@).subrange(0, i as int),
        decreases src@.len() - i,
    {
        let ghost before = dst@;
        dst.push(src[i]);
        assert(dst@ == before.push(src@[i as int]));
        assert(nal_views(dst@) =~= nal_views(before).push(src@[i as int]@));
        assert(nal_views(dst@) =~= start + nal_views(src@).subrange(0, i + 1));
        i += 1;
    }
    assert(nal_views(src@).subrange(0, src@.len() as int) =~= nal_views(src@));
}


/// Length of the Annex-B start code at `j` (`00 00 01` or `00 00 00 01`), 0 if
/// none; a code is only recognised with at least four bytes left from `j`.
pub open spec fn start_code_len(d: Seq<u8>, j: int) -> nat {
    if 0 <= j && j + 3 < d.len() && d[j] == 0 && d[j + 1] == 0 {
        if d[j + 2] == 1 {
            3
        } else if d[j + 2] == 0 && d[j + 3] == 1 {
            4
        } else {
            0
        }
    } else {
        0
    }
}

/// The first start code at or after `from`, with its length.
pub open spec fn next_start_code(d: Seq<u8>, from: int) -> Option<(int, nat)>
    decreases d.len() - from,
{
    if from < 0 || from + 3 >= d.len() {
        None
    } else if start_code_len(d, from) > 0 {
        Some((from, start_code_len(d, from)))
    } else {
        next_start_code(d, from + 1)
    }
}

pub proof fn lemma_next_start_code(d: Seq<u8>, from: int)
    ensures
        match next_start_code(d, from) {
            Some((p, l)) => {
                &&& from <= p
                &&& p + 3 < d.len()
                &&& l == start_code_len(d, p)
                &&& (l == 3 || l == 4)
                &&& forall|k: int| from <= k < p ==> start_code_len(d, k) == 0
            },
            None => from >= 0 ==> forall|k: int| from <= k ==> start_code_len(d, k) == 0,
        },
    decreases d.len() - from,
{
    if from < 0 || from + 3 >= d.len() {
    } else if start_code_len(d, from) > 0 {
    } else {
        lemma_next_start_code(d, from + 1);
    }
}

/// NALs delimited by start codes, scanning from the start code found at or
/// after `i`; a NAL runs to the next start code or to the end, empty ones dropped.
pub open spec fn annexb_from(d: Seq<u8>, i: int) -> Seq<Seq<u8>>
    decreases d.len() - i,
{
    match next_start_code(d, i) {
        None => seq![],
        Some((p, l)) => {
            proof {
                lemma_next_start_code(d, i);
                lemma_next_start_code(d, p + l);
            }
            let s = p + l;
            match next_start_code(d, s) {
                Some((q, _)) => (if q > s {
                    seq![d.subrange(s, q)]
                } else {
                    seq![]
                }) + annexb_from(d, q),
                None => if s < d.len() {
                    seq![d.subrange(s, d.len() as int)]
                } else {
                    seq![]
                },
            }
        },
    }
}

/// Big-endian 32-bit length at `o`.
pub open spec fn be32(d: Seq<u8>, o: int) -> nat {
    (d[o] as nat) * 0x100_0000 + (d[o + 1] as nat) * 0x1_0000 + (d[o + 2] as nat) * 0x100 + (d[o
        + 3] as nat)
}

/// AVCC reading from `off`: 4-byte big-endian lengths each followed by that
/// many bytes; `None` as soon as a length is zero or runs past the end.
pub open spec fn avcc_from(d: Seq<u8>, off: int) -> Option<Seq<Seq<u8>>>
    decreases d.len() - off,
{
    if off < 0 || off + 4 > d.len() {
        Some(seq![])
    } else {
        let size = be32(d, off);
        let o = off + 4;
        if size == 0 || o + size > d.len() {
            None
        } else {
            match avcc_from(d, o + size) {
                Some(rest) => Some(seq![d.subrange(o, o + size)] + rest),
                None => None,
            }
        }
    }
}

/// NAL units of an encoded frame: Annex-B start codes first; if that finds
/// none in non-empty input, AVCC length prefixes; if those do not parse into
/// at least one NAL, the whole input as a single NAL.
pub open spec fn spec_split_nalus(d: Seq<u8>) -> Seq<Seq<u8>> {
    let a = annexb_from(d, 0);
    if a.len() > 0 || d.len() == 0 {
        a
    } else {
        match avcc_from(d, 0) {
            Some(v) => if v.len() > 0 {
                v
            } else {
                seq![d]
            },
            None => seq![d],
        }
    }
}

fn find_start_code(data: &[u8], from: usize) -> (r: Option<(usize, usize)>)
    ensures
        match r {
            Some((p, l)) => next_start_code(data@, from as int) == Some((p as int, l as nat)),
            None => next_start_code(data@, from as int) is None,
        },
{
    let len = data.len();
    let mut j = from;
    while j < len && len - j > 3
        invariant
            from <= j,
            len == data@.len(),
            next_start_code(data@, from as int) == next_start_code(data@, j as int),
        decreases len - j,
    {
        if data[j] == 0 && data[j + 1] == 0 {
            if data[j + 2] == 1 {
                return Some((j, 3));
            }
            if data[j + 2] == 0 && data[j + 3] == 1 {
                return Some((j, 4));
            }
        }
        j += 1;
    }
    None
}

fn avcc_length(data: &[u8], o: usize) -> (r: u64)
    requires
        o + 4 <= data@.len(),
    ensures
        r as nat == be32(data@, o as int),
{
    (data[o] as u64) * 0x100_0000 + (data[o + 1] as u64) * 0x1_0000 + (data[o + 2] as u64) * 0x100
        + (data[o + 3] as u64)
}

/// Splits an Annex-B (start codes `00 00 01` / `00 00 00 01`) or AVCC
/// (4-byte big-endian length prefixes) stream into NAL units, without their
/// start codes or length prefixes.
pub fn split_annexb_nalus(data: &[u8]) -> (r: Vec<&[u8]>)
    ensures
        nal_views(r@) == spec_split_nalus(data@),
{
    let ghost d = data@;
    let len = data.len();
    let mut nalus: Vec<&[u8]> = Vec::new();
    let mut i: usize = 0;
    let mut done = false;
    while !done
        invariant
            len == d.len(),
            d == data@,
            i <= len,
            done ==> nal_views(nalus@) == annexb_from(d, 0),
            !done ==> nal_views(nalus@) + annexb_from(d, i as int) == annexb_from(d, 0),
        decreases (if done {
            0
        } else {
            len - i + 1
        }),
    {
        match find_start_code(data, i) {
            None => {
                assert(nal_views(nalus@) + Seq::<Seq<u8>>::empty() =~= nal_views(nalus@));
                done = true;
            },
            Some((p, l)) => {
                proof {
                    lemma_next_start_code(d, i as int);
                    lemma_next_start_code(d, (p + l) as int);
                }
                let s = p + l;
                let ghost before = nal_views(nalus@);
                match find_start_code(data, s) {
                    Some((q, _)) => {
                        if q > s {
                            nalus.push(&data[s..q]);
                            assert(nal_views(nalus@) =~= before + seq![d.subrange(s as int, q as int)]);
                        } else {
                            assert(nal_views(nalus@) =~= before + Seq::<Seq<u8>>::empty());
                        }
                        i = q;
                    },
                    None => {
                        if s < len {
                            nalus.push(&data[s..len]);
                            assert(nal_views(nalus@) =~= before + seq![d.subrange(s as int, len as int)]);
                        } else {
                            assert(nal_views(nalus@) =~= before + Seq::<Seq<u8>>::empty());
                        }
                        done = true;
                    },
                }
            },
        }
    }
    if nalus.len() == 0 && len > 0 {
        let mut offset: usize = 0;
        let mut failed = false;
        let mut finished = false;
        while !finished
            invariant
                len == d.len(),
                d == data@,
                offset <= len,
                failed ==> finished && avcc_from(d, 0) is None && nalus@.len() == 0,
                finished && !failed ==> avcc_from(d, 0) == Some(nal_views(nalus@)),
                !finished ==> match avcc_from(d, offset as int) {
                    Some(rest) => avcc_from(d, 0) == Some(nal_views(nalus@) + rest),
                    None => avcc_from(d, 0) is None,
                },
            decreases (if finished {
                0
            } else {
                len - offset + 1
            }),
        {
            if len - offset < 4 {
                assert(nal_views(nalus@) + Seq::<Seq<u8>>::empty() =~= nal_views(nalus@));
                finished = true;
            } else {
                let size = avcc_length(data, offset);
                let o = offset + 4;
                if size == 0 || size > (len - o) as u64 {
                    nalus.clear();
                    failed = true;
                    finished = true;
                } else {
                    let end = o + size as usize;
                    let ghost before = nal_views(nalus@);
                    nalus.push(&data[o..end]);
                    assert(nal_views(nalus@) =~= before.push(d.subrange(o as int, end as int)));
                    proof {
                        match avcc_from(d, end as int) {
                            Some(rest) => {
                                assert(before + (seq![d.subrange(o as int, end as int)] + rest)
                                    =~= nal_views(nalus@) + rest);
                            },
                            None => {},
                        }
                    }
                    offset = end;
                }
            }
        }
        if nalus.len() == 0 {
            nalus.push(data);
            assert(nal_views(nalus@) =~= seq![d]);
        }
    }
    nalus
}


/// The H.264 payload type one SDP line maps: an `a=rtpmap:` line (trimmed)
/// whose second field is `H264/90000` (codec in any ASCII case) and whose
/// first field is a number that fits 8 bits; `None` for any other line.
pub open spec fn rtpmap_line(line: Seq<char>) -> Option<u8> {
    let l = trim(line);
    if !has_prefix(l, "a=rtpmap:"@) {
        None
    } else {
        let w = ws_words(l.subrange("a=rtpmap:"@.len() as int, l.len() as int));
        if w.len() < 2 {
            None
        } else if !has_char(w[1], '/') {
            None
        } else {
            let slash = first_char(w[1], '/');
            let codec = w[1].subrange(0, slash);
            let clock = w[1].subrange(slash + 1, w[1].len() as int);
            if eq_ignore_case(codec, "H264"@) && clock == "90000"@ {
                match parse_unsigned(w[0], u8::MAX as nat) {
                    Some(pt) => Some(pt as u8),
                    None => None,
                }
            } else {
                None
            }
        }
    }
}

/// The payload type of the first line that maps H.264 at 90 kHz.
pub open spec fn first_payload_type(lines: Seq<Seq<char>>) -> Option<u8>
    decreases lines.len(),
{
    if lines.len() == 0 {
        None
    } else {
        match rtpmap_line(lines[0]) {
            None => first_payload_type(lines.drop_first()),
            Some(pt) => Some(pt),
        }
    }
}

fn rtpmap_line_exec(line: &[char]) -> (r: Option<u8>)
    ensures
        r == rtpmap_line(line@),
{
    let l = trim_chars(line);
    if !starts_with_lit(l.as_slice(), "a=rtpmap:") {
        return None;
    }
    let plen = chars_of("a=rtpmap:").len();
    let rest = copy_range(l.as_slice(), plen, l.len());
    let w = split_ws(rest.as_slice());
    if w.len() < 2 {
        return None;
    }
    assert(views(w@)[0] == w@[0]@);
    assert(views(w@)[1] == w@[1]@);
    let codec_str = w[1].as_slice();
    let clen = codec_str.len();
    let slash = match find_char(codec_str, '/') {
        Some(p) => p,
        None => return None,
    };
    let codec = copy_range(codec_str, 0, slash);
    let clock = copy_range(codec_str, slash + 1, clen);
    if eq_ignore_case_lit(codec.as_slice(), "H264") && eq_lit(clock.as_slice(), "90000") {
        parse_u8(w[0].as_slice())
    } else {
        None
    }
}

/// The RTP payload type negotiated for H264 at 90 kHz in an SDP: that of
/// the first line mapping it, `None` when no line does.
pub fn parse_h264_payload_type_from_sdp(sdp: &str) -> (r: Option<u8>)
    ensures
        r == first_payload_type(text_lines(sdp@)),
{
    let c = chars_of(sdp);
    let lines = split_lines(c.as_slice());
    let ghost all = text_lines(sdp@);
    assert(all.subrange(0, all.len() as int) =~= all);
    let mut i: usize = 0;
    while i < lines.len()
        invariant
            i <= lines@.len(),
            views(lines@) == all,
            all == text_lines(sdp@),
            first_payload_type(all) == first_payload_type(all.subrange(i as int, all.len() as int)),
        decreases lines@.len() - i,
    {
        let ghost rest = all.subrange(i as int, all.len() as int);
        assert(all.len() == lines@.len());
        assert(rest.len() > 0);
        assert(rest[0] == lines@[i as int]@);
        assert(rest.drop_first() =~= all.subrange(i + 1, all.len() as int));
        let outcome = rtpmap_line_exec(lines[i].as_slice());
        assert(outcome == rtpmap_line(rest[0]));
        match outcome {
            Some(pt) => {
                assert(first_payload_type(rest) == Some(pt));
                return Some(pt);
            },
            None => {},
        }
        i += 1;
    }
    None
}

/// What one SDP line says of the SSRC: the number leading an `a=ssrc:`
/// value when it is non-zero and fits 32 bits; `None` to go on.
pub open spec fn ssrc_line(line: Seq<char>) -> Option<u32> {
    let l = trim(line);
    if !has_prefix(l, "a=ssrc:"@) {
        None
    } else {
        let rest = l.subrange("a=ssrc:"@.len() as int, l.len() as int);
        let n = digit_run(rest);
        if n == 0 {
            None
        } else {
            match parse_unsigned(rest.subrange(0, n as int), u32::MAX as nat) {
                Some(v) => if v != 0 {
                    Some(v as u32)
                } else {
                    None
                },
                None => None,
            }
        }
    }
}

/// The SSRC given by the first line that gives one.
pub open spec fn first_ssrc(lines: Seq<Seq<char>>) -> Option<u32>
    decreases lines.len(),
{
    if lines.len() == 0 {
        None
    } else {
        match ssrc_line(lines[0]) {
            None => first_ssrc(lines.drop_first()),
            Some(v) => Some(v),
        }
    }
}

fn ssrc_line_exec(line: &[char]) -> (r: Option<u32>)
    ensures
        r == ssrc_line(line@),
{
    let l = trim_chars(line);
    if !starts_with_lit(l.as_slice(), "a=ssrc:") {
        return None;
    }
    let plen = chars_of("a=ssrc:").len();
    let rest = copy_range(l.as_slice(), plen, l.len());
    let n = digit_prefix_len(rest.as_slice());
    if n == 0 {
        return None;
    }
    let num = copy_range(rest.as_slice(), 0, n);
    match parse_u32(num.as_slice()) {
        Some(v) => if v != 0 {
            Some(v)
        } else {
            None
        },
        None => None,
    }
}

/// The first non-zero SSRC announced by an `a=ssrc:` line of an SDP.
pub fn parse_first_ssrc_from_sdp(sdp: &str) -> (r: Option<u32>)
    ensures
        r == first_ssrc(text_lines(sdp@)),
{
    let c = chars_of(sdp);
    let lines = split_lines(c.as_slice());
    let ghost all = text_lines(sdp@);
    assert(all.subrange(0, all.len() as int) =~= all);
    let mut i: usize = 0;
    while i < lines.len()
        invariant
            i <= lines@.len(),
            views(lines@) == all,
            all == text_lines(sdp@),
            first_ssrc(all) == first_ssrc(all.subrange(i as int, all.len() as int)),
        decreases lines@.len() - i,
    {
        let ghost rest = all.subrange(i as int, all.len() as int);
        assert(all.len() == lines@.len());
        assert(rest.len() > 0);
        assert(rest[0] == lines@[i as int]@);
        assert(rest.drop_first() =~= all.subrange(i + 1, all.len() as int));
        let outcome = ssrc_line_exec(lines[i].as_slice());
        assert(outcome == ssrc_line(rest[0]));
        match outcome {
            Some(v) => {
                assert(first_ssrc(rest) == Some(v));
                return Some(v);
            },
            None => {},
        }
        i += 1;
    }
    None
}

/// Counts and flags of an access unit's NALs.
#[derive(Clone, Copy, Debug, Default)]
pub struct NalSummary {
    pub nalus: usize,
    pub has_sps: bool,
    pub has_pps: bool,
    pub has_idr: bool,
}

/// The summary of a list of NALs: how many there are, and whether a
/// non-empty one is an SPS, a PPS, an IDR slice.
pub fn summarize_nalus(nalus: &[&[u8]]) -> (r: NalSummary)
    ensures
        r.nalus == nalus@.len(),
        r.has_sps == has_type(nal_views(nalus@), 7),
        r.has_pps == has_type(nal_views(nalus@), 8),
        r.has_idr == has_type(nal_views(nalus@), 5),
{
    let ghost all = nal_views(nalus@);
    let mut summary = NalSummary { nalus: nalus.len(), has_sps: false, has_pps: false, has_idr: false };
    let mut i: usize = 0;
    while i < nalus.len()
        invariant
            i <= nalus@.len(),
            all == nal_views(nalus@),
            summary.nalus == nalus@.len(),
            summary.has_sps == (exists|k: int| 0 <= k < i && all[k].len() > 0 && nal_type(#[trigger] all[k]) == 7),
            summary.has_pps == (exists|k: int| 0 <= k < i && all[k].len() > 0 && nal_type(#[trigger] all[k]) == 8),
            summary.has_idr == (exists|k: int| 0 <= k < i && all[k].len() > 0 && nal_type(#[trigger] all[k]) == 5),
        decreases nalus@.len() - i,
    {
        let nal = nalus[i];
        assert(all[i as int] == nal@);
        if nal.len() > 0 {
            let t = nal[0] & 0x1f;
            if t == 5 {
                summary.has_idr = true;
            } else if t == 7 {
                summary.has_sps = true;
            } else if t == 8 {
                summary.has_pps = true;
            }
        }
        i += 1;
    }
    summary
}


/// One encoded H.264 access unit (Annex B) and whether it is a keyframe.
#[derive(Debug)]
pub struct EncodedAccessUnit {
    pub data: Vec<u8>,
    pub keyframe: bool,
}

impl Clone for EncodedAccessUnit {
    /// A copy with the same bytes and keyframe flag.
    fn clone(&self) -> (r: Self)
        ensures
            r.data@ == self.data@,
            r.keyframe == self.keyframe,
    {
        let data = self.data.clone();
        assert(data@ =~= self.data@);
        EncodedAccessUnit { data, keyframe: self.keyframe }
    }
}


// ---------------------------------------------------------------------------
// Laws
// ---------------------------------------------------------------------------

proof fn lemma_has_type_push(ns: Seq<Seq<u8>>, n: Seq<u8>, t: u8)
    ensures
        has_type(ns.push(n), t) == (has_type(ns, t) || (n.len() > 0 && nal_type(n) == t)),
{
    let m = ns.push(n);
    if has_type(ns, t) {
        let i = choose|i: int| 0 <= i < ns.len() && ns[i].len() > 0 && nal_type(#[trigger] ns[i]) == t;
        assert(m[i] == ns[i]);
    }
    if n.len() > 0 && nal_type(n) == t {
        assert(m[ns.len() as int] == n);
    }
    if has_type(m, t) {
        let i = choose|i: int| 0 <= i < m.len() && m[i].len() > 0 && nal_type(#[trigger] m[i]) == t;
        if i < ns.len() {
            assert(m[i] == ns[i]);
        }
    }
}

proof fn lemma_has_type_concat(a: Seq<Seq<u8>>, b: Seq<Seq<u8>>, t: u8)
    ensures
        has_type(a + b, t) == (has_type(a, t) || has_type(b, t)),
    decreases b.len(),
{
    if b.len() == 0 {
        assert(a + b =~= a);
        assert(!has_type(b, t));
    } else {
        lemma_has_type_concat(a, b.drop_last(), t);
        assert(a + b =~= (a + b.drop_last()).push(b.last()));
        lemma_has_type_push(a + b.drop_last(), b.last(), t);
        assert(b =~= b.drop_last().push(b.last()));
        lemma_has_type_push(b.drop_last(), b.last(), t);
    }
}

proof fn lemma_has_type_of_kind(ns: Seq<Seq<u8>>, k: u8, t: u8)
    ensures
        has_type(nals_of_type(ns, k), t) == (t == k && has_type(ns, k)),
    decreases ns.len(),
{
    if ns.len() == 0 {
        assert(!has_type(nals_of_type(ns, k), t));
        assert(!has_type(ns, k));
    } else {
        let p = ns.drop_last();
        let n = ns.last();
        lemma_has_type_of_kind(p, k, t);
        assert(ns =~= p.push(n));
        lemma_has_type_push(p, n, k);
        if n.len() > 0 && nal_type(n) == k {
            lemma_has_type_push(nals_of_type(p, k), n, t);
        }
    }
}

proof fn lemma_has_type_of_others(ns: Seq<Seq<u8>>, t: u8)
    ensures
        has_type(other_nals(ns), t) == (t != 7 && t != 8 && has_type(ns, t)),
    decreases ns.len(),
{
    if ns.len() == 0 {
        assert(!has_type(other_nals(ns), t));
        assert(!has_type(ns, t));
    } else {
        let p = ns.drop_last();
        let n = ns.last();
        lemma_has_type_of_others(p, t);
        assert(ns =~= p.push(n));
        lemma_has_type_push(p, n, t);
        if n.len() > 0 && nal_type(n) != 7 && nal_type(n) != 8 {
            lemma_has_type_push(other_nals(p), n, t);
        }
    }
}

/// Reordering keeps the kinds of NAL present: the reordered frame has a
/// NAL of a given type exactly when the input has one (so its summary is
/// the same, an IDR included).
pub proof fn law_reorder_keeps_nal_types(ns: Seq<Seq<u8>>, t: u8)
    ensures
        has_type(spec_reordered(ns), t) == has_type(ns, t),
{
    lemma_has_type_concat(nals_of_type(ns, 7) + nals_of_type(ns, 8), other_nals(ns), t);
    lemma_has_type_concat(nals_of_type(ns, 7), nals_of_type(ns, 8), t);
    lemma_has_type_of_kind(ns, 7, t);
    lemma_has_type_of_kind(ns, 8, t);
    lemma_has_type_of_others(ns, t);
}

proof fn lemma_nals_of_type_members(ns: Seq<Seq<u8>>, t: u8)
    ensures
        forall|k: int|
            0 <= k < nals_of_type(ns, t).len() ==> (#[trigger] nals_of_type(ns, t)[k]).len() > 0
                && nal_type(nals_of_type(ns, t)[k]) == t,
    decreases ns.len(),
{
    if ns.len() > 0 {
        lemma_nals_of_type_members(ns.drop_last(), t);
        let rest = nals_of_type(ns.drop_last(), t);
        let n = ns.last();
        if n.len() > 0 && nal_type(n) == t {
            assert forall|k: int| 0 <= k < rest.push(n).len() implies (#[trigger] rest.push(n)[k]).len() > 0
                && nal_type(rest.push(n)[k]) == t by {
                if k < rest.len() {
                    assert(rest.push(n)[k] == rest[k]);
                }
            }
        }
    }
}

proof fn lemma_other_nals_members(ns: Seq<Seq<u8>>)
    ensures
        forall|k: int|
            0 <= k < other_nals(ns).len() ==> (#[trigger] other_nals(ns)[k]).len() > 0 && nal_type(
                other_nals(ns)[k],
            ) != 7 && nal_type(other_nals(ns)[k]) != 8,
    decreases ns.len(),
{
    if ns.len() > 0 {
        lemma_other_nals_members(ns.drop_last());
        let rest = other_nals(ns.drop_last());
        let n = ns.last();
        if n.len() > 0 && nal_type(n) != 7 && nal_type(n) != 8 {
            assert forall|k: int| 0 <= k < rest.push(n).len() implies (#[trigger] rest.push(n)[k]).len() > 0
                && nal_type(rest.push(n)[k]) != 7 && nal_type(rest.push(n)[k]) != 8 by {
                if k < rest.len() {
                    assert(rest.push(n)[k] == rest[k]);
                }
            }
        }
    }
}

/// A NAL is a parameter set: a sequence (7) or picture (8) parameter set.
pub open spec fn is_parameter_set(n: Seq<u8>) -> bool {
    n.len() > 0 && (nal_type(n) == 7 || nal_type(n) == 8)
}

/// In a reordered frame the parameter sets lead: a NAL is an SPS or PPS
/// exactly when it stands before all the other NALs, so a decoder has them
/// before any IDR slice.
pub proof fn law_parameter_sets_lead(ns: Seq<Seq<u8>>)
    ensures
        forall|k: int|
            0 <= k < spec_reordered(ns).len() ==> (is_parameter_set(#[trigger] spec_reordered(ns)[k])
                <==> k < nals_of_type(ns, 7).len() + nals_of_type(ns, 8).len()),
{
    lemma_nals_of_type_members(ns, 7);
    lemma_nals_of_type_members(ns, 8);
    lemma_other_nals_members(ns);
    let a = nals_of_type(ns, 7);
    let b = nals_of_type(ns, 8);
    let c = other_nals(ns);
    let out = spec_reordered(ns);
    assert forall|k: int| 0 <= k < out.len() implies (is_parameter_set(#[trigger] out[k]) <==> k < a.len() + b.len()) by {
        if k < a.len() {
            assert(out[k] == a[k]);
        } else if k < a.len() + b.len() {
            assert(out[k] == b[k - a.len()]);
        } else {
            assert(out[k] == c[k - a.len() - b.len()]);
        }
    }
}

proof fn lemma_reorder_counts(ns: Seq<Seq<u8>>)
    ensures
        nals_of_type(ns, 7).len() + nals_of_type(ns, 8).len() + other_nals(ns).len() == nonempty_nals(ns).len(),
    decreases ns.len(),
{
    if ns.len() > 0 {
        lemma_reorder_counts(ns.drop_last());
    }
}

/// Reordering drops only empty NALs: it yields as many NALs as the input
/// has non-empty ones.
pub proof fn law_reorder_keeps_count(ns: Seq<Seq<u8>>)
    ensures
        spec_reordered(ns).len() == nonempty_nals(ns).len(),
{
    lemma_reorder_counts(ns);
}

proof fn lemma_annexb_nonempty(d: Seq<u8>, i: int)
    ensures
        forall|k: int| 0 <= k < annexb_from(d, i).len() ==> (#[trigger] annexb_from(d, i)[k]).len() > 0,
    decreases d.len() - i,
{
    match next_start_code(d, i) {
        None => {},
        Some((p, l)) => {
            lemma_next_start_code(d, i);
            lemma_next_start_code(d, p + l);
            let s = p + l;
            match next_start_code(d, s) {
                Some((q, _)) => {
                    lemma_annexb_nonempty(d, q);
                    let head: Seq<Seq<u8>> = if q > s {
                        seq![d.subrange(s, q)]
                    } else {
                        seq![]
                    };
                    let rest = annexb_from(d, q);
                    assert forall|k: int| 0 <= k < (head + rest).len() implies (#[trigger] (head + rest)[k]).len() > 0 by {
                        if k >= head.len() {
                            assert((head + rest)[k] == rest[k - head.len()]);
                        }
                    }
                },
                None => {},
            }
        },
    }
}

proof fn lemma_avcc_nonempty(d: Seq<u8>, off: int)
    ensures
        avcc_from(d, off) matches Some(v) ==> forall|k: int| 0 <= k < v.len() ==> (#[trigger] v[k]).len() > 0,
    decreases d.len() - off,
{
    if !(off < 0 || off + 4 > d.len()) {
        let size = be32(d, off);
        let o = off + 4;
        if !(size == 0 || o + size > d.len()) {
            lemma_avcc_nonempty(d, o + size);
            match avcc_from(d, o + size) {
                Some(rest) => {
                    let v = seq![d.subrange(o, o + size)] + rest;
                    assert forall|k: int| 0 <= k < v.len() implies (#[trigger] v[k]).len() > 0 by {
                        if k >= 1 {
                            assert(v[k] == rest[k - 1]);
                        }
                    }
                },
                None => {},
            }
        }
    }
}

/// Splitting never yields an empty NAL, yields nothing for empty input,
/// and at least one NAL for non-empty input.
pub proof fn law_split_yields_nonempty_nals(d: Seq<u8>)
    ensures
        forall|k: int| 0 <= k < spec_split_nalus(d).len() ==> (#[trigger] spec_split_nalus(d)[k]).len() > 0,
        d.len() == 0 <==> spec_split_nalus(d).len() == 0,
{
    lemma_annexb_nonempty(d, 0);
    lemma_avcc_nonempty(d, 0);
    if d.len() == 0 {
        assert(next_start_code(d, 0) is None) by {
            lemma_next_start_code(d, 0);
        }
    }
}

/// The payload type read from an SDP is that of its first H.264/90000
/// mapping line: `None` exactly when no line maps H.264, and otherwise the
/// payload type of the first line that does, whatever lines come after.
pub proof fn law_payload_type_from_first_mapping_line(lines: Seq<Seq<char>>)
    ensures
        first_payload_type(lines) is None <==> forall|k: int|
            0 <= k < lines.len() ==> #[trigger] rtpmap_line(lines[k]) is None,
        forall|k: int|
            0 <= k < lines.len() && #[trigger] rtpmap_line(lines[k]) is Some && (forall|j: int|
                0 <= j < k ==> rtpmap_line(lines[j]) is None) ==> first_payload_type(lines) == rtpmap_line(
                lines[k],
            ),
    decreases lines.len(),
{
    if lines.len() > 0 {
        let rest = lines.drop_first();
        law_payload_type_from_first_mapping_line(rest);
        assert forall|k: int| 1 <= k < lines.len() implies #[trigger] rtpmap_line(lines[k]) == rtpmap_line(
            rest[k - 1],
        ) by {}
        if rtpmap_line(lines[0]) is None {
            assert forall|k: int|
                0 <= k < lines.len() && #[trigger] rtpmap_line(lines[k]) is Some && (forall|j: int|
                    0 <= j < k ==> rtpmap_line(lines[j]) is None) implies first_payload_type(lines)
                == rtpmap_line(lines[k]) by {
                assert(k >= 1);
                assert(rtpmap_line(rest[k - 1]) is Some);
                assert forall|j: int| 0 <= j < k - 1 implies rtpmap_line(rest[j]) is None by {
                    assert(rtpmap_line(lines[j + 1]) is None);
                }
            }
            if first_payload_type(lines) is None {
                assert forall|k: int| 0 <= k < lines.len() implies #[trigger] rtpmap_line(lines[k]) is None by {
                    if k >= 1 {
                        assert(rtpmap_line(rest[k - 1]) is None);
                    }
                }
            } else {
                let w = choose|k: int| 0 <= k < rest.len() && #[trigger] rtpmap_line(rest[k]) is Some;
                assert(rtpmap_line(lines[w + 1]) is Some);
            }
        }
    }
}

/// The SSRC read from an SDP is that of its first line that gives one:
/// `None` exactly when no line gives a non-zero SSRC, and otherwise the SSRC
/// of the first line that does.
pub proof fn law_ssrc_from_first_giving_line(lines: Seq<Seq<char>>)
    ensures
        first_ssrc(lines) is None <==> forall|k: int| 0 <= k < lines.len() ==> #[trigger] ssrc_line(lines[k]) is None,
        forall|k: int|
            0 <= k < lines.len() && #[trigger] ssrc_line(lines[k]) is Some && (forall|j: int|
                0 <= j < k ==> ssrc_line(lines[j]) is None) ==> first_ssrc(lines) == ssrc_line(lines[k]),
        first_ssrc(lines) != Some(0u32),
    decreases lines.len(),
{
    if lines.len() > 0 {
        let rest = lines.drop_first();
        law_ssrc_from_first_giving_line(rest);
        assert forall|k: int| 1 <= k < lines.len() implies #[trigger] ssrc_line(lines[k]) == ssrc_line(rest[k - 1]) by {}
        if ssrc_line(lines[0]) is None {
            assert forall|k: int|
                0 <= k < lines.len() && #[trigger] ssrc_line(lines[k]) is Some && (forall|j: int|
                    0 <= j < k ==> ssrc_line(lines[j]) is None) implies first_ssrc(lines) == ssrc_line(
                lines[k],
            ) by {
                assert(k >= 1);
                assert(ssrc_line(rest[k - 1]) is Some);
                assert forall|j: int| 0 <= j < k - 1 implies ssrc_line(rest[j]) is None by {
                    assert(ssrc_line(lines[j + 1]) is None);
                }
            }
            if first_ssrc(lines) is None {
                assert forall|k: int| 0 <= k < lines.len() implies #[trigger] ssrc_line(lines[k]) is None by {
                    if k >= 1 {
                        assert(ssrc_line(rest[k - 1]) is None);
                    }
                }
            } else {
                let w = choose|k: int| 0 <= k < rest.len() && #[trigger] ssrc_line(rest[k]) is Some;
                assert(ssrc_line(lines[w + 1]) is Some);
            }
        }
    }
}

proof fn lemma_nals_of_type_is_filter(ns: Seq<Seq<u8>>, t: u8)
    ensures
        nals_of_type(ns, t) == ns.filter(|n: Seq<u8>| n.len() > 0 && nal_type(n) == t),
    decreases ns.len(),
{
    reveal(Seq::filter);
    if ns.len() > 0 {
        lemma_nals_of_type_is_filter(ns.drop_last(), t);
    }
}

proof fn lemma_other_nals_is_filter(ns: Seq<Seq<u8>>)
    ensures
        other_nals(ns) == ns.filter(|n: Seq<u8>| n.len() > 0 && nal_type(n) != 7 && nal_type(n) != 8),
    decreases ns.len(),
{
    reveal(Seq::filter);
    if ns.len() > 0 {
        lemma_other_nals_is_filter(ns.drop_last());
    }
}

/// Reordering is three filters of the input, in input order each: the
/// non-empty SPS NALs, then the non-empty PPS NALs, then every other
/// non-empty NAL; the cache keeps the last SPS (or PPS) when the frame has
/// one, else what it held.
pub proof fn law_reorder_is_three_filters(ns: Seq<Seq<u8>>, before: Option<Seq<u8>>)
    ensures
        spec_reordered(ns) == ns.filter(|n: Seq<u8>| n.len() > 0 && nal_type(n) == 7) + ns.filter(
            |n: Seq<u8>| n.len() > 0 && nal_type(n) == 8,
        ) + ns.filter(|n: Seq<u8>| n.len() > 0 && nal_type(n) != 7 && nal_type(n) != 8),
        spec_cached(ns, 7, before) == {
            let f = ns.filter(|n: Seq<u8>| n.len() > 0 && nal_type(n) == 7);
            if f.len() > 0 { Some(f.last()) } else { before }
        },
        spec_cached(ns, 8, before) == {
            let f = ns.filter(|n: Seq<u8>| n.len() > 0 && nal_type(n) == 8);
            if f.len() > 0 { Some(f.last()) } else { before }
        },
{
    lemma_nals_of_type_is_filter(ns, 7);
    lemma_nals_of_type_is_filter(ns, 8);
    lemma_other_nals_is_filter(ns);
}

/// An Annex-B start code: `00 00 01` or `00 00 00 01`.
pub open spec fn is_start_code(sc: Seq<u8>) -> bool {
    sc == seq![0u8, 0u8, 1u8] || sc == seq![0u8, 0u8, 0u8, 1u8]
}

/// A NAL that Annex-B framing keeps intact: non-empty, last byte not zero,
/// and no `00 00 00` or `00 00 01` inside it.
pub open spec fn framable_nal(n: Seq<u8>) -> bool {
    &&& n.len() > 0
    &&& n.last() != 0
    &&& forall|j: int|
        0 <= j && j + 2 < n.len() ==> !(#[trigger] n[j] == 0 && n[j + 1] == 0 && (n[j + 2] == 0 || n[j + 2]
            == 1))
}

/// The stream that writes each NAL of `ns` after the start code of the same
/// index in `scs`.
pub open spec fn annexb_frame(scs: Seq<Seq<u8>>, ns: Seq<Seq<u8>>) -> Seq<u8>
    decreases ns.len(),
{
    if ns.len() == 0 || scs.len() == 0 {
        seq![]
    } else {
        scs[0] + ns[0] + annexb_frame(scs.drop_first(), ns.drop_first())
    }
}

proof fn lemma_skip_no_codes(d: Seq<u8>, from: int, to: int)
    requires
        0 <= from <= to,
        forall|k: int| from <= k < to ==> #[trigger] start_code_len(d, k) == 0,
    ensures
        next_start_code(d, from) == next_start_code(d, to),
    decreases to - from,
{
    if from < to && from + 3 < d.len() {
        assert(start_code_len(d, from) == 0);
        lemma_skip_no_codes(d, from + 1, to);
    }
}

#[verifier::spinoff_prover]
proof fn lemma_framed_from(d: Seq<u8>, o: int, scs: Seq<Seq<u8>>, ns: Seq<Seq<u8>>)
    requires
        0 <= o <= d.len(),
        d.subrange(o, d.len() as int) == annexb_frame(scs, ns),
        scs.len() == ns.len(),
        ns.len() >= 1,
        forall|i: int| 0 <= i < ns.len() ==> is_start_code(#[trigger] scs[i]) && framable_nal(ns[i]),
    ensures
        start_code_len(d, o) == scs[0].len(),
        annexb_from(d, o) == ns,
    decreases ns.len(),
{
    let sc = scs[0];
    let n = ns[0];
    let rs = scs.drop_first();
    let rn = ns.drop_first();
    let rest = annexb_frame(rs, rn);
    let f = annexb_frame(scs, ns);
    assert(is_start_code(sc) && framable_nal(n));
    assert(f == sc + n + rest);
    let a = sc.len() as int;
    let m = n.len() as int;
    let s = o + a;
    let q = s + m;
    assert(d.len() == o + a + m + rest.len());
    assert forall|t: int| 0 <= t < a implies #[trigger] d[o + t] == sc[t] by {
        assert(d.subrange(o, d.len() as int)[t] == f[t]);
    }
    assert forall|t: int| 0 <= t < m implies #[trigger] d[s + t] == n[t] by {
        assert(d.subrange(o, d.len() as int)[a + t] == f[a + t]);
    }
    assert(d[o + 0] == sc[0] && d[o + 1] == sc[1] && d[o + 2] == sc[2]);
    assert(d[o] == sc[0]);
    if a == 4 {
        assert(d[o + 3] == sc[3]);
    }
    assert(start_code_len(d, o) == a);
    assert forall|k: int| s <= k < q implies #[trigger] start_code_len(d, k) == 0 by {
        let t = k - s;
        assert(d[s + t] == n[t]);
        if t + 2 < m {
            assert(d[s + (t + 1)] == n[t + 1]);
            assert(d[s + (t + 2)] == n[t + 2]);
            assert(!(n[t] == 0 && n[t + 1] == 0 && (n[t + 2] == 0 || n[t + 2] == 1)));
        } else if t + 1 < m {
            assert(d[s + (t + 1)] == n[t + 1]);
            assert(n[t + 1] == n.last());
        } else {
            assert(n[t] == n.last());
        }
    }
    lemma_next_start_code(d, o);
    assert(next_start_code(d, o) == Some((o, a as nat)));
    if ns.len() > 1 {
        assert(d.subrange(q, d.len() as int) =~= rest) by {
            assert forall|t: int| 0 <= t < rest.len() implies d.subrange(q, d.len() as int)[t] == rest[t] by {
                assert(d.subrange(o, d.len() as int)[a + m + t] == f[a + m + t]);
            }
        }
        assert forall|i: int| 0 <= i < rn.len() implies is_start_code(#[trigger] rs[i]) && framable_nal(rn[i]) by {
            assert(rs[i] == scs[i + 1] && rn[i] == ns[i + 1]);
            assert(is_start_code(scs[i + 1]) && framable_nal(ns[i + 1]));
        }
        lemma_framed_from(d, q, rs, rn);
        lemma_skip_no_codes(d, s, q);
        assert(rs[0].len() > 0);
        assert(next_start_code(d, q) == Some((q, rs[0].len())));
        assert forall|t: int| 0 <= t < m implies d.subrange(s, q)[t] == n[t] by {
            assert(d[s + t] == n[t]);
        }
        assert(d.subrange(s, q) =~= n);
        assert(ns =~= seq![n] + rn);
    } else {
        assert(rest.len() == 0);
        lemma_skip_no_codes(d, s, q);
        assert(next_start_code(d, q) is None);
        assert forall|t: int| 0 <= t < m implies d.subrange(s, d.len() as int)[t] == n[t] by {
            assert(d[s + t] == n[t]);
        }
        assert(d.subrange(s, d.len() as int) =~= n);
        assert(ns =~= seq![n]);
    }
}

/// Annex-B splitting undoes Annex-B framing: a stream made of start codes,
/// each followed by a NAL that framing keeps intact, splits into exactly
/// those NALs, in order, start codes excluded.
pub proof fn law_split_recovers_framed_nals(scs: Seq<Seq<u8>>, ns: Seq<Seq<u8>>)
    requires
        scs.len() == ns.len(),
        ns.len() >= 1,
        forall|i: int| 0 <= i < ns.len() ==> is_start_code(#[trigger] scs[i]) && framable_nal(ns[i]),
    ensures
        spec_split_nalus(annexb_frame(scs, ns)) == ns,
{
    let d = annexb_frame(scs, ns);
    assert(d.subrange(0, d.len() as int) =~= d);
    assert forall|i: int| 0 <= i < ns.len() implies is_start_code(#[trigger] scs[i]) && framable_nal(ns[i]) by {}
    lemma_framed_from(d, 0, scs, ns);
}

/// The per-packet header fields of one NAL sent as `total` RTP fragments.
#[derive(Clone, Copy, Debug, PartialEq, Eq, Structural)]
pub struct RtpFragmentHeader {
    pub sequence_number: u16,
    pub marker: bool,
}

/// The headers of the fragments of one NAL: consecutive sequence numbers
/// from `first_seq` (wrapping at 65 536), and the marker bit on the last
/// fragment of the frame's last NAL only.
pub fn rtp_fragment_headers(total: usize, is_last_in_frame: bool, first_seq: u16) -> (r: Vec<RtpFragmentHeader>)
    ensures
        r@.len() == total,
        forall|i: int|
            0 <= i < total ==> (#[trigger] r@[i]).sequence_number == (first_seq + i) % 65536 && r@[i].marker
                == (is_last_in_frame && i == total - 1),
{
    let mut out: Vec<RtpFragmentHeader> = Vec::new();
    let mut seq: u16 = first_seq;
    let mut i: usize = 0;
    while i < total
        invariant
            i <= total,
            out@.len() == i,
            seq == (first_seq + i) % 65536,
            forall|j: int|
                0 <= j < i ==> (#[trigger] out@[j]).sequence_number == (first_seq + j) % 65536
                    && out@[j].marker == (is_last_in_frame && j == total - 1),
        decreases total - i,
    {
        let marker = is_last_in_frame && i + 1 == total;
        out.push(RtpFragmentHeader { sequence_number: seq, marker });
        seq = seq.wrapping_add(1);
        assert(seq == (first_seq + i + 1) % 65536) by (nonlinear_arith)
            requires
                seq == (if (first_seq + i) % 65536 + 1 > u16::MAX { (first_seq + i) % 65536 + 1 - 65536 } else { (first_seq + i) % 65536 + 1 }),
                i >= 0,
        ;
        i += 1;
    }
    out
}

/// The 90 kHz RTP timestamp of a frame captured `elapsed_nanos` after the
/// stream started: the tick count, its product held at `u128::MAX`, cut to
/// its low 32 bits.
pub open spec fn rtp_timestamp_90khz(elapsed_nanos: u128) -> u32 {
    let ticks: u128 = if elapsed_nanos * 90_000 > u128::MAX {
        u128::MAX / 1_000_000_000
    } else {
        ((elapsed_nanos * 90_000) as u128) / 1_000_000_000
    };
    ticks as u32
}

/// The 90 kHz RTP timestamp of a frame (see `rtp_timestamp_90khz`).
pub fn rtp_timestamp_from_elapsed(elapsed_nanos: u128) -> (r: u32)
    ensures
        r == rtp_timestamp_90khz(elapsed_nanos),
{
    let product: u128 = match elapsed_nanos.checked_mul(90_000) {
        Some(p) => p,
        None => u128::MAX,
    };
    let ticks: u128 = product / 1_000_000_000;
    ticks as u32
}

/// Whether a frame is encoded as a keyframe: the first frame, every
/// `2 × target_fps` frames (a target of 0 counts as 1), or when an IDR was
/// requested (a picture-loss or intra-frame request from the viewer).
pub fn keyframe_due(frame_counter: u64, target_fps: u32, idr_hint: bool) -> (r: bool)
    ensures
        r == (frame_counter == 1 || (frame_counter as int) % (2 * (if target_fps == 0 {
            1
        } else {
            target_fps as int
        })) == 0 || idr_hint),
{
    let fps: u64 = if target_fps == 0 {
        1
    } else {
        target_fps as u64
    };
    let interval: u64 = fps * 2;
    frame_counter == 1 || frame_counter % interval == 0 || idr_hint
}

/// The RTP timestamp a frame is sent with: the clock's reading, or one tick
/// after the previous frame's (wrapping) when the clock did not move ahead.
pub fn next_frame_timestamp(now_ts: u32, last_ts: u32) -> (r: u32)
    ensures
        r == if now_ts <= last_ts {
            ((last_ts + 1) % 0x1_0000_0000) as u32
        } else {
            now_ts
        },
{
    if now_ts <= last_ts {
        last_ts.wrapping_add(1)
    } else {
        now_ts
    }
}

/// What a screen sender knows of the negotiated stream: the H.264 payload
/// type and the SSRC once the SDP gave them, the SSRC in use, and the RTP
/// timestamp of the last frame sent.
#[derive(Clone, Copy, Debug, PartialEq, Eq, Structural)]
pub struct RtpSendState {
    pub payload_type: Option<u8>,
    pub negotiated_ssrc: Option<u32>,
    pub stream_ssrc: u32,
    pub last_ts: u32,
}

/// What a screen sender does with an encoded frame.
#[derive(Clone, Copy, Debug, PartialEq, Eq, Structural)]
pub enum RtpSendAction {
    /// The connection or track is not ready: wait, keep everything.
    WaitNotReady,
    /// Send the frame's NALs with this payload type, SSRC and timestamp.
    Send { payload_type: u8, ssrc: u32, timestamp: u32 },
}

impl RtpSendState {
    /// Nothing negotiated yet, no frame sent.
    pub fn new() -> (r: Self)
        ensures
            r == (RtpSendState { payload_type: None, negotiated_ssrc: None, stream_ssrc: 0, last_ts: 0 }),
    {
        RtpSendState { payload_type: None, negotiated_ssrc: None, stream_ssrc: 0, last_ts: 0 }
    }
}

/// One encoded frame: when the stream is ready, the payload type is the one
/// known, else the one the SDP gives now (96 while neither is known); the
/// SSRC is the one negotiated, else the SDP's now, else `fallback_ssrc`;
/// the timestamp moves ahead of the last one.
pub open spec fn rtp_send_step(
    s: RtpSendState,
    ready: bool,
    sdp_payload_type: Option<u8>,
    sdp_ssrc: Option<u32>,
    fallback_ssrc: u32,
    now_ts: u32,
) -> (RtpSendState, RtpSendAction) {
    if !ready {
        (s, RtpSendAction::WaitNotReady)
    } else {
        let pt = if s.payload_type is Some { s.payload_type } else { sdp_payload_type };
        let (neg, ssrc) = if s.negotiated_ssrc is Some {
            (s.negotiated_ssrc, s.stream_ssrc)
        } else {
            (sdp_ssrc, match sdp_ssrc { Some(v) => v, None => fallback_ssrc })
        };
        let ts = if now_ts <= s.last_ts { ((s.last_ts + 1) % 0x1_0000_0000) as u32 } else { now_ts };
        (
            RtpSendState { payload_type: pt, negotiated_ssrc: neg, stream_ssrc: ssrc, last_ts: ts },
            RtpSendAction::Send { payload_type: match pt { Some(p) => p, None => 96 }, ssrc, timestamp: ts },
        )
    }
}

/// See `rtp_send_step`. The SDP values and the fallback SSRC are only read
/// while still unknown, so callers may pass anything once they are known.
pub fn rtp_sender_step(
    s: &mut RtpSendState,
    ready: bool,
    sdp_payload_type: Option<u8>,
    sdp_ssrc: Option<u32>,
    fallback_ssrc: u32,
    now_ts: u32,
) -> (a: RtpSendAction)
    ensures
        (*final(s), a) == rtp_send_step(*old(s), ready, sdp_payload_type, sdp_ssrc, fallback_ssrc, now_ts),
{
    if !ready {
        return RtpSendAction::WaitNotReady;
    }
    if s.payload_type.is_none() {
        s.payload_type = sdp_payload_type;
    }
    if s.negotiated_ssrc.is_none() {
        s.negotiated_ssrc = sdp_ssrc;
        s.stream_ssrc = match sdp_ssrc {
            Some(v) => v,
            None => fallback_ssrc,
        };
    }
    let ts = next_frame_timestamp(now_ts, s.last_ts);
    s.last_ts = ts;
    let payload_type = match s.payload_type {
        Some(p) => p,
        None => 96,
    };
    RtpSendAction::Send { payload_type, ssrc: s.stream_ssrc, timestamp: ts }
}

/// A screen sender keeps what it negotiated: once known, the payload type
/// and the SSRC never change, and every frame sent gets a timestamp after
/// the previous one (one tick after it when the clock did not move ahead,
/// wrapping only from `u32::MAX` to 0).
pub proof fn law_rtp_sender_keeps_negotiation(
    s: RtpSendState,
    ready: bool,
    sdp_payload_type: Option<u8>,
    sdp_ssrc: Option<u32>,
    fallback_ssrc: u32,
    now_ts: u32,
)
    ensures
        ({
            let (n, a) = rtp_send_step(s, ready, sdp_payload_type, sdp_ssrc, fallback_ssrc, now_ts);
            &&& s.payload_type is Some ==> n.payload_type == s.payload_type
            &&& s.negotiated_ssrc is Some ==> n.negotiated_ssrc == s.negotiated_ssrc && n.stream_ssrc == s.stream_ssrc
            &&& a matches RtpSendAction::Send { timestamp, .. } ==> (timestamp > s.last_ts || (s.last_ts
                == u32::MAX && timestamp == 0))
        }),
{
}

/// What a capture loop holds: the size of the last captured frame, sent
/// again when no new frame comes, and the frames delivered so far.
#[derive(Clone, Copy, Debug, PartialEq, Eq)]
pub struct CaptureLoopState {
    pub last_capture: Option<(usize, usize)>,
    pub frame_counter: u64,
}

/// What one turn of a capture loop gave.
#[derive(Clone, Copy, Debug, PartialEq, Eq, Structural)]
pub enum CaptureTurn {
    /// The viewer paused the frames.
    Paused,
    /// The connection or track is not ready.
    NotReady,
    /// A new frame of this size.
    Captured { width: usize, height: usize },
    /// No new frame.
    NoFrame,
    /// The capture failed.
    Failed,
}

/// What a capture loop does next.
#[derive(Clone, Copy, Debug, PartialEq, Eq, Structural)]
pub enum CaptureAction {
    /// Wait while paused (and restart the pacing from now).
    WaitPaused,
    /// Wait for the stream.
    WaitNotReady,
    /// Wait briefly for a first frame.
    WaitForFrame,
    /// Wait after a failed capture.
    WaitAfterError,
    /// Hand a frame of this size on, numbered `frame_counter`; `reused`
    /// when it is the last frame again.
    Deliver { width: usize, height: usize, reused: bool, frame_counter: u64 },
}

/// One turn: a new frame is delivered and remembered; without one the last
/// frame is delivered again, if there is one; frames are counted (the count
/// stops at `u64::MAX`).
pub open spec fn capture_step(s: CaptureLoopState, t: CaptureTurn) -> (CaptureLoopState, CaptureAction) {
    let count = if s.frame_counter == u64::MAX { u64::MAX } else { (s.frame_counter + 1) as u64 };
    match t {
        CaptureTurn::Paused => (s, CaptureAction::WaitPaused),
        CaptureTurn::NotReady => (s, CaptureAction::WaitNotReady),
        CaptureTurn::Failed => (s, CaptureAction::WaitAfterError),
        CaptureTurn::Captured { width, height } => (
            CaptureLoopState { last_capture: Some((width, height)), frame_counter: count },
            CaptureAction::Deliver { width, height, reused: false, frame_counter: count },
        ),
        CaptureTurn::NoFrame => match s.last_capture {
            Some((w, h)) => (
                CaptureLoopState { last_capture: s.last_capture, frame_counter: count },
                CaptureAction::Deliver { width: w, height: h, reused: true, frame_counter: count },
            ),
            None => (s, CaptureAction::WaitForFrame),
        },
    }
}

/// See `capture_step`.
pub fn capture_loop_step(s: &mut CaptureLoopState, t: CaptureTurn) -> (a: CaptureAction)
    ensures
        (*final(s), a) == capture_step(*old(s), t),
{
    match t {
        CaptureTurn::Paused => CaptureAction::WaitPaused,
        CaptureTurn::NotReady => CaptureAction::WaitNotReady,
        CaptureTurn::Failed => CaptureAction::WaitAfterError,
        CaptureTurn::Captured { width, height } => {
            s.last_capture = Some((width, height));
            s.frame_counter = s.frame_counter.saturating_add(1);
            CaptureAction::Deliver { width, height, reused: false, frame_counter: s.frame_counter }
        },
        CaptureTurn::NoFrame => match s.last_capture {
            Some((w, h)) => {
                s.frame_counter = s.frame_counter.saturating_add(1);
                CaptureAction::Deliver { width: w, height: h, reused: true, frame_counter: s.frame_counter }
            },
            None => CaptureAction::WaitForFrame,
        },
    }
}

/// The cached parameter sets sent ahead of an IDR frame's NALs: the cached
/// SPS when the frame has none, then the cached PPS when it has none;
/// nothing for a frame without IDR.
pub open spec fn parameter_prefix(
    has_idr: bool,
    has_sps: bool,
    has_pps: bool,
    cached_sps: Option<Seq<u8>>,
    cached_pps: Option<Seq<u8>>,
) -> Seq<Seq<u8>> {
    if has_idr {
        (if !has_sps && cached_sps is Some {
            seq![cached_sps->0]
        } else {
            seq![]
        }) + (if !has_pps && cached_pps is Some {
            seq![cached_pps->0]
        } else {
            seq![]
        })
    } else {
        seq![]
    }
}

/// The sends for the NALs of a frame, in order, skipping empty ones; a NAL
/// at position `base + j + 1 == total` closes the frame.
pub open spec fn nal_sends(nals: Seq<Seq<u8>>, base: int, total: int) -> Seq<(Seq<u8>, bool)>
    decreases nals.len(),
{
    if nals.len() == 0 {
        seq![]
    } else {
        let rest = nal_sends(nals.drop_last(), base, total);
        let n = nals.last();
        if n.len() > 0 {
            rest.push((n, base + nals.len() == total))
        } else {
            rest
        }
    }
}

/// What is sent for a frame: the parameter prefix, then the non-empty
/// NALs, each with whether it is the frame's last (counting every prefix
/// entry and every NAL, so with no empty NAL only the final entry is last).
pub open spec fn send_plan(prefix: Seq<Seq<u8>>, nals: Seq<Seq<u8>>) -> Seq<(Seq<u8>, bool)> {
    let total = prefix.len() + nals.len();
    Seq::new(prefix.len(), |k: int| (prefix[k], k + 1 == total)) + nal_sends(nals, prefix.len() as int, total as int)
}

/// The plain view of a send list.
pub open spec fn sends_view(v: Seq<(Vec<u8>, bool)>) -> Seq<(Seq<u8>, bool)> {
    v.map_values(|e: (Vec<u8>, bool)| (e.0@, e.1))
}

/// What a sender emits for one encoded unit: on an IDR frame the cached SPS
/// and PPS it lacks come first, then its non-empty NALs in order; the entry
/// that ends the frame is flagged.
pub fn frame_send_plan(
    nalus: &Vec<&[u8]>,
    has_idr: bool,
    summary: &NalSummary,
    cached_sps: &Option<Vec<u8>>,
    cached_pps: &Option<Vec<u8>>,
) -> (r: Vec<(Vec<u8>, bool)>)
    ensures
        sends_view(r@) == send_plan(
            parameter_prefix(has_idr, summary.has_sps, summary.has_pps, opt_view(*cached_sps), opt_view(*cached_pps)),
            nal_views(nalus@),
        ),
{
    let ghost nals = nal_views(nalus@);
    let mut prefix: Vec<Vec<u8>> = Vec::new();
    if has_idr {
        if !summary.has_sps {
            if let Some(sps) = cached_sps {
                prefix.push(vstd::slice::slice_to_vec(sps.as_slice()));
            }
        }
        if !summary.has_pps {
            if let Some(pps) = cached_pps {
                prefix.push(vstd::slice::slice_to_vec(pps.as_slice()));
            }
        }
    }
    let ghost pre = parameter_prefix(has_idr, summary.has_sps, summary.has_pps, opt_view(*cached_sps), opt_view(*cached_pps));
    assert(prefix@.map_values(|v: Vec<u8>| v@) =~= pre);
    let plen = prefix.len();
    let n = nalus.len();
    let ghost total: int = plen + n;
    let mut out: Vec<(Vec<u8>, bool)> = Vec::new();
    let mut k: usize = 0;
    while k < plen
        invariant
            k <= plen,
            plen == prefix@.len(),
            plen == pre.len(),
            n == nalus@.len(),
            total == plen + n,
            prefix@.map_values(|v: Vec<u8>| v@) == pre,
            sends_view(out@) == Seq::new(k as nat, |i: int| (pre[i], i + 1 == total)),
        decreases plen - k,
    {
        let bytes = vstd::slice::slice_to_vec(prefix[k].as_slice());
        let last = k + 1 == plen && n == 0;
        let ghost before = sends_view(out@);
        assert(pre[k as int] == prefix@[k as int]@);
        assert(bytes@ == pre[k as int]);
        assert(last == (k + 1 == total));
        out.push((bytes, last));
        assert(sends_view(out@) =~= before.push((pre[k as int], k + 1 == total)));
        assert(sends_view(out@) =~= Seq::new((k + 1) as nat, |i: int| (pre[i], i + 1 == total)));
        k += 1;
    }
    let ghost head = sends_view(out@);
    assert(nals.take(0) =~= Seq::<Seq<u8>>::empty());
    let mut j: usize = 0;
    while j < n
        invariant
            j <= n,
            n == nalus@.len(),
            nals == nal_views(nalus@),
            total == plen + n,
            sends_view(out@) == head + nal_sends(nals.take(j as int), plen as int, total),
        decreases n - j,
    {
        let nal = nalus[j];
        let ghost before = sends_view(out@);
        assert(nals.take(j + 1).drop_last() =~= nals.take(j as int));
        assert(nals.take(j + 1).last() == nal@);
        if nal.len() > 0 {
            let last = j + 1 == n;
            assert(last == (plen + (j + 1) == total));
            out.push((vstd::slice::slice_to_vec(nal), last));
            assert(sends_view(out@) =~= before.push((nal@, plen + (j + 1) == total)));
            assert(head + nal_sends(nals.take(j as int), plen as int, total).push((nal@, plen + (j + 1) == total))
                =~= head + nal_sends(nals.take(j + 1), plen as int, total));
        }
        j += 1;
    }
    assert(nals.take(n as int) =~= nals);
    assert(head =~= Seq::new(pre.len(), |i: int| (pre[i], i + 1 == pre.len() + nals.len())));
    out
}

} // verus!
