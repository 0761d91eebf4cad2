//! The outer bundle2 container: stream header, part headers, and the
//! multiplexed sequence of typed parts.
//!
//! Wire layout, little-endian length prefixes throughout: the stream opens
//! with two parameter blocks (mandatory, then advisory), each a `u32` pair
//! count followed by that many length-prefixed key/value pairs. A
//! `compression` key in the mandatory block names the codec of everything
//! that follows the header. Then come part records, each: a `u32` type
//! length (zero is the end-of-parts sentinel), the type string, one
//! mandatory flag byte, a `u32` part id, two parameter blocks, and the
//! payload as length-prefixed chunks closed by a zero-length chunk.

use vstd::prelude::*;

use vstd::bytes::{lemma_auto_spec_u32_to_from_le_bytes, spec_u32_from_le_bytes, spec_u32_to_le_bytes, u32_from_le_bytes};
use vstd::slice::slice_subrange;

use crate::bytes_util::subvec;
use crate::codec::{
    decompress_payload, negotiate_codec, spec_codec_of_tag, spec_payload_of, Codec,
};
use crate::errors::{DecodeError, DecodeErrorView, ErrorKind, ErrorKindView};

verus! {

/// A key/value parameter list in wire order.
pub type Params = Vec<(Vec<u8>, Vec<u8>)>;

/// Mathematical model of a parameter list.
pub open spec fn params_view(p: Seq<(Vec<u8>, Vec<u8>)>) -> Seq<(Seq<u8>, Seq<u8>)> {
    Seq::new(p.len(), |i: int| (p[i].0@, p[i].1@))
}

/// Mathematical model of a stream header.
#[verifier::ext_equal]
pub ghost struct StreamHeaderView {
    pub m_stream_params: Seq<(Seq<u8>, Seq<u8>)>,
    pub a_stream_params: Seq<(Seq<u8>, Seq<u8>)>,
}

/// The leading structural record of a stream: mandatory and advisory
/// key/value stream parameters.
pub struct StreamHeader {
    pub m_stream_params: Params,
    pub a_stream_params: Params,
}

impl View for StreamHeader {
    type V = StreamHeaderView;

    open spec fn view(&self) -> StreamHeaderView {
        StreamHeaderView {
            m_stream_params: params_view(self.m_stream_params@),
            a_stream_params: params_view(self.a_stream_params@),
        }
    }
}

/// Mathematical model of a part header.
#[verifier::ext_equal]
pub ghost struct PartHeaderView {
    pub part_type: Seq<u8>,
    pub mandatory: bool,
    pub part_id: u32,
    pub m_params: Seq<(Seq<u8>, Seq<u8>)>,
    pub a_params: Seq<(Seq<u8>, Seq<u8>)>,
}

/// The typed header of one part: its type string, whether an unknown part
/// of this type aborts the stream, a numeric id for diagnostics, and two
/// parameter lists.
#[derive(Debug)]
pub struct PartHeader {
    pub part_type: Vec<u8>,
    pub mandatory: bool,
    pub part_id: u32,
    pub m_params: Params,
    pub a_params: Params,
}

impl View for PartHeader {
    type V = PartHeaderView;

    open spec fn view(&self) -> PartHeaderView {
        PartHeaderView {
            part_type: self.part_type@,
            mandatory: self.mandatory,
            part_id: self.part_id,
            m_params: params_view(self.m_params@),
            a_params: params_view(self.a_params@),
        }
    }
}

impl PartHeader {
    /// The type string of this part.
    pub fn part_type(&self) -> (r: &Vec<u8>)
        ensures
            r == self.part_type,
    {
        &self.part_type
    }

    /// Whether an unknown part of this type aborts the stream.
    pub fn mandatory(&self) -> (r: bool)
        ensures
            r == self.mandatory,
    {
        self.mandatory
    }
}

/// Mathematical model of one typed item of the stream.
#[verifier::ext_equal]
pub ghost enum Bundle2ItemView {
    Start(StreamHeaderView),
    Changegroup(PartHeaderView, Seq<u8>),
    B2xTreegroup2(PartHeaderView, Seq<u8>),
}

/// One typed item of the stream: the stream header, or a known part with
/// its delimited payload bytes.
pub enum Bundle2Item {
    Start(StreamHeader),
    Changegroup(PartHeader, Vec<u8>),
    B2xTreegroup2(PartHeader, Vec<u8>),
}

impl View for Bundle2Item {
    type V = Bundle2ItemView;

    open spec fn view(&self) -> Bundle2ItemView {
        match self {
            Bundle2Item::Start(h) => Bundle2ItemView::Start(h@),
            Bundle2Item::Changegroup(h, payload) => Bundle2ItemView::Changegroup(h@, payload@),
            Bundle2Item::B2xTreegroup2(h, payload) => Bundle2ItemView::B2xTreegroup2(h@, payload@),
        }
    }
}

/// Mathematical model of one event of the stream sequence.
#[verifier::ext_equal]
pub ghost enum StreamEventView {
    Next(Bundle2ItemView),
    Done,
}

/// One event of the stream sequence: an item, or the terminal done marker.
pub enum StreamEvent {
    Next(Bundle2Item),
    Done,
}

impl View for StreamEvent {
    type V = StreamEventView;

    open spec fn view(&self) -> StreamEventView {
        match self {
            StreamEvent::Next(item) => StreamEventView::Next(item@),
            StreamEvent::Done => StreamEventView::Done,
        }
    }
}

/// The key naming the compression codec: "compression".
pub open spec fn compression_key() -> Seq<u8> {
    seq![99u8, 111u8, 109u8, 112u8, 114u8, 101u8, 115u8, 115u8, 105u8, 111u8, 110u8]
}

/// The part type handled as a changegroup: "changegroup".
pub open spec fn changegroup_name() -> Seq<u8> {
    seq![99u8, 104u8, 97u8, 110u8, 103u8, 101u8, 103u8, 114u8, 111u8, 117u8, 112u8]
}

/// The part type handled as a tree group: "b2x:treegroup2".
pub open spec fn treegroup_name() -> Seq<u8> {
    seq![98u8, 50u8, 120u8, 58u8, 116u8, 114u8, 101u8, 101u8, 103u8, 114u8, 111u8, 117u8, 112u8, 50u8]
}

/// Reads a little-endian `u32` at `pos`.
pub open spec fn spec_read_u32(b: Seq<u8>, pos: int) -> Option<(u32, int)> {
    if 0 <= pos && pos + 4 <= b.len() {
        Some((spec_u32_from_le_bytes(b.subrange(pos, pos + 4)), pos + 4))
    } else {
        None
    }
}

/// Reads `n` raw bytes at `pos`.
pub open spec fn spec_read_bytes(b: Seq<u8>, pos: int, n: int) -> Option<(Seq<u8>, int)> {
    if 0 <= pos && 0 <= n && pos + n <= b.len() {
        Some((b.subrange(pos, pos + n), pos + n))
    } else {
        None
    }
}

/// Reads `count` length-prefixed key/value pairs at `pos`.
pub open spec fn spec_parse_pairs(b: Seq<u8>, pos: int, count: nat) -> Option<
    (Seq<(Seq<u8>, Seq<u8>)>, int),
>
    decreases count,
{
    if count == 0 {
        Some((Seq::empty(), pos))
    } else {
        match spec_read_u32(b, pos) {
            None => None,
            Some((klen, p1)) => match spec_read_bytes(b, p1, klen as int) {
                None => None,
                Some((k, p2)) => match spec_read_u32(b, p2) {
                    None => None,
                    Some((vlen, p3)) => match spec_read_bytes(b, p3, vlen as int) {
                        None => None,
                        Some((v, p4)) => match spec_parse_pairs(b, p4, (count - 1) as nat) {
                            None => None,
                            Some((rest, p5)) => Some((seq![(k, v)] + rest, p5)),
                        },
                    },
                },
            },
        }
    }
}

/// Reads one parameter block (a pair count, then the pairs) at `pos`.
pub open spec fn spec_parse_params_block(b: Seq<u8>, pos: int) -> Option<
    (Seq<(Seq<u8>, Seq<u8>)>, int),
> {
    match spec_read_u32(b, pos) {
        None => None,
        Some((count, p1)) => spec_parse_pairs(b, p1, count as nat),
    }
}

/// Parses the leading stream header record.
pub open spec fn spec_parse_stream_header(b: Seq<u8>) -> Option<(StreamHeaderView, int)> {
    match spec_parse_params_block(b, 0) {
        None => None,
        Some((m, p1)) => match spec_parse_params_block(b, p1) {
            None => None,
            Some((a, p2)) => Some(
                (StreamHeaderView { m_stream_params: m, a_stream_params: a }, p2),
            ),
        },
    }
}

/// The value of the first pair at or after index `i` whose key is `key`.
pub open spec fn spec_lookup_from(params: Seq<(Seq<u8>, Seq<u8>)>, i: int, key: Seq<u8>) -> Option<
    Seq<u8>,
>
    decreases params.len() - i,
{
    if i < 0 || i >= params.len() {
        None
    } else if params[i].0 == key {
        Some(params[i].1)
    } else {
        spec_lookup_from(params, i + 1, key)
    }
}

/// The value bound to `key`, if any.
pub open spec fn spec_lookup(params: Seq<(Seq<u8>, Seq<u8>)>, key: Seq<u8>) -> Option<Seq<u8>> {
    spec_lookup_from(params, 0, key)
}

/// How many pairs at or after index `i` have key `key`.
pub open spec fn spec_count_key_from(params: Seq<(Seq<u8>, Seq<u8>)>, i: int, key: Seq<u8>) -> nat
    decreases params.len() - i,
{
    if i < 0 || i >= params.len() {
        0
    } else {
        (if params[i].0 == key {
            1nat
        } else {
            0nat
        }) + spec_count_key_from(params, i + 1, key)
    }
}

/// How many pairs have key `key`.
pub open spec fn spec_count_key(params: Seq<(Seq<u8>, Seq<u8>)>, key: Seq<u8>) -> nat {
    spec_count_key_from(params, 0, key)
}

/// Reads a payload: length-prefixed chunks closed by a zero-length chunk,
/// concatenated.
pub open spec fn spec_parse_chunks(b: Seq<u8>, pos: int) -> Option<(Seq<u8>, int)>
    decreases b.len() - pos,
{
    match spec_read_u32(b, pos) {
        None => None,
        Some((n, p1)) => {
            if n == 0 {
                Some((Seq::empty(), p1))
            } else {
                match spec_read_bytes(b, p1, n as int) {
                    None => None,
                    Some((chunk, p2)) => {
                        if p2 <= pos {
                            None
                        } else {
                            match spec_parse_chunks(b, p2) {
                                None => None,
                                Some((rest, p3)) => Some((chunk + rest, p3)),
                            }
                        }
                    },
                }
            }
        },
    }
}

/// Parses the part records from `pos` on: each known part becomes a typed
/// item; an unknown advisory part is skipped and recorded; an unknown
/// mandatory part fails the whole stream; structural malformation fails
/// the whole stream.
pub open spec fn spec_parse_parts(b: Seq<u8>, pos: int) -> Result<
    (Seq<Bundle2ItemView>, Seq<PartHeaderView>),
    ErrorKindView,
>
    decreases b.len() - pos,
{
    match spec_read_u32(b, pos) {
        None => Err(ErrorKindView::Bundle2Decode(DecodeErrorView::Truncated)),
        Some((type_len, p1)) => {
            if type_len == 0 {
                Ok((Seq::empty(), Seq::empty()))
            } else {
                match spec_read_bytes(b, p1, type_len as int) {
                    None => Err(ErrorKindView::Bundle2Decode(DecodeErrorView::Truncated)),
                    Some((ptype, p2)) => {
                        if p2 + 1 > b.len() {
                            Err(ErrorKindView::Bundle2Decode(DecodeErrorView::Truncated))
                        } else {
                            let mandatory = b[p2] != 0;
                            match spec_read_u32(b, p2 + 1) {
                                None => Err(ErrorKindView::Bundle2Decode(DecodeErrorView::Truncated)),
                                Some((part_id, p4)) => match spec_parse_params_block(b, p4) {
                                    None => Err(
                                        ErrorKindView::Bundle2Decode(DecodeErrorView::Truncated),
                                    ),
                                    Some((m, p5)) => match spec_parse_params_block(b, p5) {
                                        None => Err(
                                            ErrorKindView::Bundle2Decode(DecodeErrorView::Truncated),
                                        ),
                                        Some((a, p6)) => match spec_parse_chunks(b, p6) {
                                            None => Err(
                                                ErrorKindView::Bundle2Decode(
                                                    DecodeErrorView::Truncated,
                                                ),
                                            ),
                                            Some((payload, p7)) => {
                                                let header = PartHeaderView {
                                                    part_type: ptype,
                                                    mandatory,
                                                    part_id,
                                                    m_params: m,
                                                    a_params: a,
                                                };
                                                if p7 <= pos || p7 > b.len() {
                                                    Err(
                                                        ErrorKindView::Bundle2Decode(
                                                            DecodeErrorView::Truncated,
                                                        ),
                                                    )
                                                } else if ptype == changegroup_name() {
                                                    match spec_parse_parts(b, p7) {
                                                        Err(e) => Err(e),
                                                        Ok((items, errs)) => Ok(
                                                            (
                                                                seq![
                                                                    Bundle2ItemView::Changegroup(
                                                                        header,
                                                                        payload,
                                                                    ),
                                                                ] + items,
                                                                errs,
                                                            ),
                                                        ),
                                                    }
                                                } else if ptype == treegroup_name() {
                                                    match spec_parse_parts(b, p7) {
                                                        Err(e) => Err(e),
                                                        Ok((items, errs)) => Ok(
                                                            (
                                                                seq![
                                                                    Bundle2ItemView::B2xTreegroup2(
                                                                        header,
                                                                        payload,
                                                                    ),
                                                                ] + items,
                                                                errs,
                                                            ),
                                                        ),
                                                    }
                                                } else if mandatory {
                                                    Err(ErrorKindView::BundleUnknownPart(header))
                                                } else {
                                                    match spec_parse_parts(b, p7) {
                                                        Err(e) => Err(e),
                                                        Ok((items, errs)) => Ok(
                                                            (items, seq![header] + errs),
                                                        ),
                                                    }
                                                }
                                            },
                                        },
                                    },
                                },
                            }
                        }
                    },
                }
            }
        },
    }
}

/// Everything a fully decoded stream yields: its events in order, and the
/// recoverable unknown-advisory-part records.
#[verifier::ext_equal]
pub ghost struct DecodedView {
    pub events: Seq<StreamEventView>,
    pub app_errors: Seq<PartHeaderView>,
}

/// The views of an item sequence.
pub open spec fn items_view(items: Seq<Bundle2Item>) -> Seq<Bundle2ItemView> {
    Seq::new(items.len(), |i: int| items[i]@)
}

/// The views of a part-header sequence.
pub open spec fn headers_view(headers: Seq<PartHeader>) -> Seq<PartHeaderView> {
    Seq::new(headers.len(), |i: int| headers[i]@)
}

/// The views of an event sequence.
pub open spec fn events_view(events: Seq<StreamEvent>) -> Seq<StreamEventView> {
    Seq::new(events.len(), |i: int| events[i]@)
}

/// Reads a little-endian `u32` at `pos`.
fn read_u32(b: &Vec<u8>, pos: usize) -> (r: Option<(u32, usize)>)
    ensures
        match r {
            Some((v, next)) => spec_read_u32(b@, pos as int) == Some((v, next as int))
                && pos < next <= b@.len(),
            None => spec_read_u32(b@, pos as int) is None,
        },
{
    if b.len() >= 4 && pos <= b.len() - 4 {
        let s = slice_subrange(b.as_slice(), pos, pos + 4);
        let v = u32_from_le_bytes(s);
        Some((v, pos + 4))
    } else {
        None
    }
}

/// Reads `n` raw bytes at `pos`.
fn read_bytes(b: &Vec<u8>, pos: usize, n: u32) -> (r: Option<(Vec<u8>, usize)>)
    ensures
        match r {
            Some((v, next)) => spec_read_bytes(b@, pos as int, n as int) == Some((v@, next as int))
                && pos <= next <= b@.len(),
            None => spec_read_bytes(b@, pos as int, n as int) is None,
        },
{
    let n_us = n as usize;
    if n_us <= b.len() && pos <= b.len() - n_us {
        Some((subvec(b, pos, pos + n_us), pos + n_us))
    } else {
        None
    }
}

/// Parses `count` length-prefixed key/value pairs at `pos`.
fn parse_pairs(b: &Vec<u8>, pos: usize, count: u32) -> (r: Option<(Params, usize)>)
    requires
        pos <= b@.len(),
    ensures
        match r {
            Some((pairs, next)) => spec_parse_pairs(b@, pos as int, count as nat) == Some(
                (params_view(pairs@), next as int),
            ) && next <= b@.len(),
            None => spec_parse_pairs(b@, pos as int, count as nat) is None,
        },
    decreases count,
{
    if count == 0 {
        let empty: Params = Vec::new();
        proof {
            assert(params_view(empty@) =~= Seq::<(Seq<u8>, Seq<u8>)>::empty());
        }
        return Some((empty, pos));
    }
    let (klen, p1) = match read_u32(b, pos) {
        Some(x) => x,
        None => {
            return None;
        },
    };
    let (k, p2) = match read_bytes(b, p1, klen) {
        Some(x) => x,
        None => {
            return None;
        },
    };
    let (vlen, p3) = match read_u32(b, p2) {
        Some(x) => x,
        None => {
            return None;
        },
    };
    let (v, p4) = match read_bytes(b, p3, vlen) {
        Some(x) => x,
        None => {
            return None;
        },
    };
    match parse_pairs(b, p4, count - 1) {
        None => None,
        Some((mut rest, p5)) => {
            let ghost rest_view = params_view(rest@);
            let ghost kv = (k@, v@);
            rest.insert(0, (k, v));
            proof {
                assert(params_view(rest@) =~= seq![kv] + rest_view);
            }
            Some((rest, p5))
        },
    }
}

/// Parses one parameter block at `pos`.
fn parse_params_block(b: &Vec<u8>, pos: usize) -> (r: Option<(Params, usize)>)
    requires
        pos <= b@.len(),
    ensures
        match r {
            Some((pairs, next)) => spec_parse_params_block(b@, pos as int) == Some(
                (params_view(pairs@), next as int),
            ) && next <= b@.len(),
            None => spec_parse_params_block(b@, pos as int) is None,
        },
{
    match read_u32(b, pos) {
        None => None,
        Some((count, p1)) => parse_pairs(b, p1, count),
    }
}

/// Parses the stream header record; also returns the position after it.
fn parse_stream_header(b: &Vec<u8>) -> (r: Option<(StreamHeader, usize)>)
    ensures
        match r {
            Some((h, next)) => spec_parse_stream_header(b@) == Some((h@, next as int))
                && next <= b@.len(),
            None => spec_parse_stream_header(b@) is None,
        },
{
    let (m, p1) = match parse_params_block(b, 0) {
        Some(x) => x,
        None => {
            return None;
        },
    };
    match parse_params_block(b, p1) {
        None => None,
        Some((a, p2)) => Some((StreamHeader { m_stream_params: m, a_stream_params: a }, p2)),
    }
}

/// Finds the value bound to `key` at or after index `i`.
fn lookup_from<'a>(params: &'a Params, i: usize, key: &Vec<u8>) -> (r: Option<&'a Vec<u8>>)
    ensures
        match r {
            Some(v) => spec_lookup_from(params_view(params@), i as int, key@) == Some(v@),
            None => spec_lookup_from(params_view(params@), i as int, key@) is None,
        },
    decreases params@.len() - i,
{
    if i >= params.len() {
        None
    } else if crate::bytes_util::eq_bytes(&params[i].0, key) {
        Some(&params[i].1)
    } else {
        lookup_from(params, i + 1, key)
    }
}

/// The number of pairs at or after `i` never exceeds what is left.
proof fn lemma_count_key_bound(params: Seq<(Seq<u8>, Seq<u8>)>, i: int, key: Seq<u8>)
    ensures
        spec_count_key_from(params, i, key) <= params.len() - i || i >= params.len(),
    decreases params.len() - i,
{
    if 0 <= i < params.len() {
        lemma_count_key_bound(params, i + 1, key);
        assert(spec_count_key_from(params, i, key) == (if params[i].0 == key {
            1nat
        } else {
            0nat
        }) + spec_count_key_from(params, i + 1, key));
    }
}

/// Counts the pairs with key `key` at or after index `i`.
fn count_key_from(params: &Params, i: usize, key: &Vec<u8>) -> (r: usize)
    requires
        i <= params@.len(),
    ensures
        r == spec_count_key_from(params_view(params@), i as int, key@),
    decreases params@.len() - i,
{
    if i >= params.len() {
        0
    } else {
        let rest = count_key_from(params, i + 1, key);
        proof {
            lemma_count_key_bound(params_view(params@), i as int + 1, key@);
        }
        if crate::bytes_util::eq_bytes(&params[i].0, key) {
            rest + 1
        } else {
            rest
        }
    }
}

/// Parses a payload's chunk list at `pos`.
fn parse_chunks(b: &Vec<u8>, pos: usize) -> (r: Option<(Vec<u8>, usize)>)
    ensures
        match r {
            Some((payload, next)) => spec_parse_chunks(b@, pos as int) == Some(
                (payload@, next as int),
            ) && pos < next <= b@.len(),
            None => spec_parse_chunks(b@, pos as int) is None,
        },
    decreases b@.len() - pos,
{
    let (n, p1) = match read_u32(b, pos) {
        Some(x) => x,
        None => {
            return None;
        },
    };
    if n == 0 {
        let empty: Vec<u8> = Vec::new();
        proof {
            assert(empty@ =~= Seq::<u8>::empty());
        }
        return Some((empty, p1));
    }
    let (mut chunk, p2) = match read_bytes(b, p1, n) {
        Some(x) => x,
        None => {
            return None;
        },
    };
    match parse_chunks(b, p2) {
        None => None,
        Some((mut rest, p3)) => {
            let ghost chunk_view = chunk@;
            let ghost rest_view = rest@;
            chunk.append(&mut rest);
            proof {
                assert(chunk@ =~= chunk_view + rest_view);
            }
            Some((chunk, p3))
        },
    }
}

/// The exec name of the compression key.
fn compression_key_vec() -> (r: Vec<u8>)
    ensures
        r@ == compression_key(),
{
    let mut r: Vec<u8> = Vec::new();
    r.push(99u8);
    r.push(111u8);
    r.push(109u8);
    r.push(112u8);
    r.push(114u8);
    r.push(101u8);
    r.push(115u8);
    r.push(115u8);
    r.push(105u8);
    r.push(111u8);
    r.push(110u8);
    proof {
        assert(r@ =~= compression_key());
    }
    r
}

/// The exec name of the changegroup part type.
pub fn changegroup_name_vec() -> (r: Vec<u8>)
    ensures
        r@ == changegroup_name(),
{
    let mut r: Vec<u8> = Vec::new();
    r.push(99u8);
    r.push(104u8);
    r.push(97u8);
    r.push(110u8);
    r.push(103u8);
    r.push(101u8);
    r.push(103u8);
    r.push(114u8);
    r.push(111u8);
    r.push(117u8);
    r.push(112u8);
    proof {
        assert(r@ =~= changegroup_name());
    }
    r
}

/// The exec name of the tree-group part type.
pub fn treegroup_name_vec() -> (r: Vec<u8>)
    ensures
        r@ == treegroup_name(),
{
    let mut r: Vec<u8> = Vec::new();
    r.push(98u8);
    r.push(50u8);
    r.push(120u8);
    r.push(58u8);
    r.push(116u8);
    r.push(114u8);
    r.push(101u8);
    r.push(101u8);
    r.push(103u8);
    r.push(114u8);
    r.push(111u8);
    r.push(117u8);
    r.push(112u8);
    r.push(50u8);
    proof {
        assert(r@ =~= treegroup_name());
    }
    r
}

/// Parses the part records from `pos` on.
fn parse_parts(b: &Vec<u8>, pos: usize) -> (r: Result<(Vec<Bundle2Item>, Vec<PartHeader>), ErrorKind>)
    ensures
        match r {
            Ok((items, errs)) => spec_parse_parts(b@, pos as int) matches Ok((si, se))
                && items_view(items@) == si && headers_view(errs@) == se,
            Err(e) => spec_parse_parts(b@, pos as int) matches Err(s) && e@ == s,
        },
    decreases b@.len() - pos,
{
    let (type_len, p1) = match read_u32(b, pos) {
        Some(x) => x,
        None => {
            return Err(ErrorKind::Bundle2Decode(DecodeError::Truncated));
        },
    };
    if type_len == 0 {
        let no_items: Vec<Bundle2Item> = Vec::new();
        let no_errs: Vec<PartHeader> = Vec::new();
        proof {
            assert(items_view(no_items@) =~= Seq::<Bundle2ItemView>::empty());
            assert(headers_view(no_errs@) =~= Seq::<PartHeaderView>::empty());
        }
        return Ok((no_items, no_errs));
    }
    let (ptype, p2) = match read_bytes(b, p1, type_len) {
        Some(x) => x,
        None => {
            return Err(ErrorKind::Bundle2Decode(DecodeError::Truncated));
        },
    };
    if p2 >= b.len() {
        return Err(ErrorKind::Bundle2Decode(DecodeError::Truncated));
    }
    let mandatory = b[p2] != 0;
    let (part_id, p4) = match read_u32(b, p2 + 1) {
        Some(x) => x,
        None => {
            return Err(ErrorKind::Bundle2Decode(DecodeError::Truncated));
        },
    };
    let (m, p5) = match parse_params_block(b, p4) {
        Some(x) => x,
        None => {
            return Err(ErrorKind::Bundle2Decode(DecodeError::Truncated));
        },
    };
    let (a, p6) = match parse_params_block(b, p5) {
        Some(x) => x,
        None => {
            return Err(ErrorKind::Bundle2Decode(DecodeError::Truncated));
        },
    };
    let (payload, p7) = match parse_chunks(b, p6) {
        Some(x) => x,
        None => {
            return Err(ErrorKind::Bundle2Decode(DecodeError::Truncated));
        },
    };
    let header = PartHeader { part_type: ptype, mandatory, part_id, m_params: m, a_params: a };
    if p7 <= pos || p7 > b.len() {
        return Err(ErrorKind::Bundle2Decode(DecodeError::Truncated));
    }
    let is_changegroup = crate::bytes_util::eq_bytes(&header.part_type, &changegroup_name_vec());
    let is_treegroup = crate::bytes_util::eq_bytes(&header.part_type, &treegroup_name_vec());
    if is_changegroup {
        match parse_parts(b, p7) {
            Err(e) => Err(e),
            Ok((mut items, errs)) => {
                let ghost items_pre = items_view(items@);
                let ghost item_v = Bundle2ItemView::Changegroup(header@, payload@);
                items.insert(0, Bundle2Item::Changegroup(header, payload));
                proof {
                    assert(items_view(items@) =~= seq![item_v] + items_pre);
                }
                Ok((items, errs))
            },
        }
    } else if is_treegroup {
        match parse_parts(b, p7) {
            Err(e) => Err(e),
            Ok((mut items, errs)) => {
                let ghost items_pre = items_view(items@);
                let ghost item_v = Bundle2ItemView::B2xTreegroup2(header@, payload@);
                items.insert(0, Bundle2Item::B2xTreegroup2(header, payload));
                proof {
                    assert(items_view(items@) =~= seq![item_v] + items_pre);
                }
                Ok((items, errs))
            },
        }
    } else if mandatory {
        Err(ErrorKind::BundleUnknownPart(header))
    } else {
        match parse_parts(b, p7) {
            Err(e) => Err(e),
            Ok((items, mut errs)) => {
                let ghost errs_pre = headers_view(errs@);
                let ghost header_v = header@;
                errs.insert(0, header);
                proof {
                    assert(headers_view(errs@) =~= seq![header_v] + errs_pre);
                }
                Ok((items, errs))
            },
        }
    }
}

/// Everything one decoded stream yields: the events in wire order, closed
/// by the done event, and the accumulated unknown-advisory-part errors.
pub struct Bundle2Output {
    pub events: Vec<StreamEvent>,
    pub app_errors: Vec<ErrorKind>,
}

/// The accumulated error list holds exactly one `BundleUnknownPart` per
/// skipped header, in wire order.
pub open spec fn app_errors_match(errs: Seq<ErrorKind>, headers: Seq<PartHeaderView>) -> bool {
    &&& errs.len() == headers.len()
    &&& forall|i: int|
        0 <= i < errs.len() ==> (#[trigger] errs[i])@ == ErrorKindView::BundleUnknownPart(
            headers[i],
        )
}

/// Decodes a whole byte stream.
pub fn decode_bundle2(bytes: &Vec<u8>) -> (r: Result<Bundle2Output, ErrorKind>)
    ensures
        match r {
            Ok(o) => spec_decode(bytes@) matches Ok(d) && events_view(o.events@) == d.events
                && app_errors_match(o.app_errors@, d.app_errors),
            Err(e) => spec_decode(bytes@) matches Err(s) && e@ == s,
        },
{
    let (header, hpos) = match parse_stream_header(bytes) {
        Some(x) => x,
        None => {
            return Err(ErrorKind::Bundle2Decode(DecodeError::Truncated));
        },
    };
    let ckey = compression_key_vec();
    if count_key_from(&header.m_stream_params, 0, &ckey) > 1 {
        return Err(ErrorKind::Bundle2Decode(DecodeError::DuplicateCompression));
    }
    let tag = lookup_from(&header.m_stream_params, 0, &ckey);
    let codec = match tag {
        None => Codec::Identity,
        Some(t) => match negotiate_codec(Some(t)) {
            Ok(c) => c,
            Err(()) => {
                let name = subvec(t, 0, t.len());
                proof {
                    assert(name@ =~= t@);
                }
                return Err(ErrorKind::Bundle2Decode(DecodeError::UnknownCompression(name)));
            },
        },
    };
    let body = subvec(bytes, hpos, bytes.len());
    proof {
        assert(body@ =~= bytes@.skip(hpos as int));
    }
    let payload = match decompress_payload(codec, &body) {
        Ok(p) => p,
        Err(()) => {
            return Err(ErrorKind::Bundle2Decode(DecodeError::Decompress));
        },
    };
    let (items, errs) = match parse_parts(&payload, 0) {
        Ok(x) => x,
        Err(e) => {
            return Err(e);
        },
    };
    let ghost hv = header@;
    let ghost items0 = items_view(items@);
    let mut events: Vec<StreamEvent> = Vec::new();
    events.push(StreamEvent::Next(Bundle2Item::Start(header)));
    let mut items = items;
    while items.len() > 0
        invariant
            items@.len() <= items0.len(),
            forall|i: int|
                0 <= i < items@.len() ==> (#[trigger] items@[i])@ == items0[items0.len()
                    - items@.len() + i],
            events@.len() == 1 + items0.len() - items@.len(),
            events@[0]@ == StreamEventView::Next(Bundle2ItemView::Start(hv)),
            forall|i: int|
                1 <= i < events@.len() ==> (#[trigger] events@[i])@ == StreamEventView::Next(
                    items0[i - 1],
                ),
        decreases items@.len(),
    {
        let ghost pre_items = items@;
        let it = items.remove(0);
        proof {
            assert(items@ =~= pre_items.subrange(1, pre_items.len() as int));
        }
        events.push(StreamEvent::Next(it));
    }
    let ghost events_pre_done = events@;
    events.push(StreamEvent::Done);
    proof {
        assert(forall|i: int|
            0 <= i < events_pre_done.len() ==> events@[i] == events_pre_done[i]);
    }
    let ghost errs0 = headers_view(errs@);
    let mut errs = errs;
    let mut app_errors: Vec<ErrorKind> = Vec::new();
    while errs.len() > 0
        invariant
            errs@.len() <= errs0.len(),
            forall|i: int|
                0 <= i < errs@.len() ==> (#[trigger] errs@[i])@ == errs0[errs0.len() - errs@.len()
                    + i],
            app_errors@.len() == errs0.len() - errs@.len(),
            forall|i: int|
                0 <= i < app_errors@.len() ==> (#[trigger] app_errors@[i])@
                    == ErrorKindView::BundleUnknownPart(errs0[i]),
        decreases errs@.len(),
    {
        let ghost pre_errs = errs@;
        let h = errs.remove(0);
        proof {
            assert(errs@ =~= pre_errs.subrange(1, pre_errs.len() as int));
        }
        app_errors.push(ErrorKind::BundleUnknownPart(h));
    }
    proof {
        assert(spec_decode(bytes@) is Ok);
        let d = spec_decode(bytes@)->Ok_0;
        let n = items0.len() as int;
        assert(d.events == seq![StreamEventView::Next(Bundle2ItemView::Start(hv))] + Seq::new(
            items0.len(),
            |i: int| StreamEventView::Next(items0[i]),
        ) + seq![StreamEventView::Done]);
        assert(d.events.len() == n + 2);
        assert(events_view(events@).len() == n + 2);
        assert forall|i: int| 0 <= i < n + 2 implies events_view(events@)[i] == d.events[i] by {
            if i == 0 {
                assert(d.events[0] == StreamEventView::Next(Bundle2ItemView::Start(hv)));
            } else if i <= n {
                assert(d.events[i] == StreamEventView::Next(items0[i - 1]));
                assert(events_pre_done[i]@ == StreamEventView::Next(items0[i - 1]));
                assert(events@[i] == events_pre_done[i]);
            } else {
                assert(d.events[i] == StreamEventView::Done);
            }
        }
        assert(events_view(events@) =~= d.events);
    }
    Ok(Bundle2Output { events, app_errors })
}

/// Every key and value short enough for a `u32` length prefix.
pub open spec fn spec_params_wf(p: Seq<(Seq<u8>, Seq<u8>)>) -> bool {
    forall|i: int|
        0 <= i < p.len() ==> (#[trigger] p[i]).0.len() <= u32::MAX && p[i].1.len() <= u32::MAX
}

/// The bytes one key/value pair is written as.
pub open spec fn spec_encode_pair(p: (Seq<u8>, Seq<u8>)) -> Seq<u8> {
    spec_u32_to_le_bytes(p.0.len() as u32) + p.0 + spec_u32_to_le_bytes(p.1.len() as u32) + p.1
}

/// The bytes the pairs from index `i` on are written as.
pub open spec fn spec_encode_pairs_from(p: Seq<(Seq<u8>, Seq<u8>)>, i: int) -> Seq<u8>
    decreases p.len() - i,
{
    if i < 0 || i >= p.len() {
        Seq::empty()
    } else {
        spec_encode_pair(p[i]) + spec_encode_pairs_from(p, i + 1)
    }
}

/// The bytes one parameter block is written as.
pub open spec fn spec_encode_params_block(p: Seq<(Seq<u8>, Seq<u8>)>) -> Seq<u8> {
    spec_u32_to_le_bytes(p.len() as u32) + spec_encode_pairs_from(p, 0)
}

/// The bytes the stream header record is written as.
pub open spec fn spec_header_bytes(m: Seq<(Seq<u8>, Seq<u8>)>, a: Seq<(Seq<u8>, Seq<u8>)>) -> Seq<
    u8,
> {
    spec_encode_params_block(m) + spec_encode_params_block(a)
}

/// The bytes a payload is written as: one chunk holding everything (none
/// for an empty payload), closed by the zero-length chunk.
pub open spec fn spec_chunks_of(payload: Seq<u8>) -> Seq<u8> {
    if payload.len() == 0 {
        spec_u32_to_le_bytes(0)
    } else {
        spec_u32_to_le_bytes(payload.len() as u32) + payload + spec_u32_to_le_bytes(0)
    }
}

/// Mathematical model of a part to encode.
#[verifier::ext_equal]
pub ghost struct EncodablePartView {
    pub part_type: Seq<u8>,
    pub mandatory: bool,
    pub m_params: Seq<(Seq<u8>, Seq<u8>)>,
    pub a_params: Seq<(Seq<u8>, Seq<u8>)>,
    pub payload: Seq<u8>,
}

/// One part to encode.
pub struct EncodablePart {
    pub part_type: Vec<u8>,
    pub mandatory: bool,
    pub m_params: Params,
    pub a_params: Params,
    pub payload: Vec<u8>,
}

impl View for EncodablePart {
    type V = EncodablePartView;

    open spec fn view(&self) -> EncodablePartView {
        EncodablePartView {
            part_type: self.part_type@,
            mandatory: self.mandatory,
            m_params: params_view(self.m_params@),
            a_params: params_view(self.a_params@),
            payload: self.payload@,
        }
    }
}

/// A part short enough for its length prefixes.
pub open spec fn spec_part_wf(p: EncodablePartView) -> bool {
    &&& 1 <= p.part_type.len() <= u32::MAX
    &&& spec_params_wf(p.m_params)
    &&& spec_params_wf(p.a_params)
    &&& p.m_params.len() <= u32::MAX
    &&& p.a_params.len() <= u32::MAX
    &&& p.payload.len() <= u32::MAX
}

impl EncodablePart {
    pub open spec fn wf(&self) -> bool {
        spec_part_wf(self@)
    }
}

/// The header a part is decoded back to, given the id the encoder assigns.
pub open spec fn spec_header_of_part(p: EncodablePartView, id: u32) -> PartHeaderView {
    PartHeaderView {
        part_type: p.part_type,
        mandatory: p.mandatory,
        part_id: id,
        m_params: p.m_params,
        a_params: p.a_params,
    }
}

/// The next part id.
pub open spec fn spec_next_id(id: u32) -> u32 {
    if id < 0xffff_ffff {
        (id + 1) as u32
    } else {
        0
    }
}

/// The bytes one part record is written as.
pub open spec fn spec_encode_part(p: EncodablePartView, id: u32) -> Seq<u8> {
    spec_u32_to_le_bytes(p.part_type.len() as u32) + p.part_type + seq![
        if p.mandatory {
            1u8
        } else {
            0u8
        },
    ] + spec_u32_to_le_bytes(id) + spec_encode_params_block(p.m_params) + spec_encode_params_block(
        p.a_params,
    ) + spec_chunks_of(p.payload)
}

/// The bytes the parts from index `i` on are written as, ending with the
/// end-of-parts sentinel.
pub open spec fn spec_encode_parts_from(parts: Seq<EncodablePartView>, i: int, id: u32) -> Seq<u8>
    decreases parts.len() - i,
{
    if i < 0 || i >= parts.len() {
        spec_u32_to_le_bytes(0)
    } else {
        spec_encode_part(parts[i], id) + spec_encode_parts_from(parts, i + 1, spec_next_id(id))
    }
}

/// The bytes the whole part sequence is written as; ids count up from zero.
pub open spec fn spec_encode_parts(parts: Seq<EncodablePartView>) -> Seq<u8> {
    spec_encode_parts_from(parts, 0, 0)
}

/// Whether `body` carries `payload` under `codec`.
pub open spec fn spec_body_ok(codec: Codec, body: Seq<u8>, payload: Seq<u8>) -> bool {
    spec_payload_of(codec, body) == Some(payload)
}

/// The mandatory block the encoder writes: the caller's parameters with
/// the compression parameter appended.
pub open spec fn spec_full_m(m: Seq<(Seq<u8>, Seq<u8>)>, codec: Codec) -> Seq<(Seq<u8>, Seq<u8>)> {
    m.push((compression_key(), crate::codec::spec_codec_tag(codec)))
}

/// Whether `out` is a possible encoding of the given stream: the header
/// record followed by a body that decompresses to the encoded parts.
pub open spec fn spec_build_ok(
    codec: Codec,
    m: Seq<(Seq<u8>, Seq<u8>)>,
    a: Seq<(Seq<u8>, Seq<u8>)>,
    parts: Seq<EncodablePartView>,
    out: Seq<u8>,
) -> bool {
    exists|body: Seq<u8>|
        out == spec_header_bytes(spec_full_m(m, codec), a) + body && spec_body_ok(
            codec,
            body,
            spec_encode_parts(parts),
        )
}

/// A lowercased key byte.
pub open spec fn spec_lower_byte(b: u8) -> u8 {
    if 65 <= b <= 90 {
        (b + 32) as u8
    } else {
        b
    }
}

/// A key lowercased.
pub open spec fn spec_lower_key(k: Seq<u8>) -> Seq<u8> {
    Seq::new(k.len(), |i: int| spec_lower_byte(k[i]))
}

/// Writes the four little-endian bytes of `n`.
fn encode_u32(n: u32) -> (r: Vec<u8>)
    ensures
        r@ == spec_u32_to_le_bytes(n),
{
    vstd::bytes::u32_to_le_bytes(n)
}

/// Writes the pairs from index `i` on.
fn encode_pairs_from(p: &Params, i: usize) -> (r: Vec<u8>)
    requires
        spec_params_wf(params_view(p@)),
        i <= p@.len(),
    ensures
        r@ == spec_encode_pairs_from(params_view(p@), i as int),
    decreases p@.len() - i,
{
    if i >= p.len() {
        let empty: Vec<u8> = Vec::new();
        proof {
            assert(empty@ =~= spec_encode_pairs_from(params_view(p@), i as int));
        }
        return empty;
    }
    proof {
        assert(params_view(p@)[i as int] == (p@[i as int].0@, p@[i as int].1@));
    }
    let mut out = encode_u32(p[i].0.len() as u32);
    let mut k = subvec(&p[i].0, 0, p[i].0.len());
    out.append(&mut k);
    let mut vlen = encode_u32(p[i].1.len() as u32);
    out.append(&mut vlen);
    let mut v = subvec(&p[i].1, 0, p[i].1.len());
    out.append(&mut v);
    let mut rest = encode_pairs_from(p, i + 1);
    out.append(&mut rest);
    proof {
        assert(p@[i as int].0@.subrange(0, p@[i as int].0@.len() as int) =~= p@[i as int].0@);
        assert(p@[i as int].1@.subrange(0, p@[i as int].1@.len() as int) =~= p@[i as int].1@);
        assert(out@ =~= spec_encode_pair(params_view(p@)[i as int]) + spec_encode_pairs_from(
            params_view(p@),
            i as int + 1,
        ));
    }
    out
}

/// Writes one parameter block.
fn encode_params_block(p: &Params) -> (r: Vec<u8>)
    requires
        spec_params_wf(params_view(p@)),
        p@.len() <= u32::MAX,
    ensures
        r@ == spec_encode_params_block(params_view(p@)),
{
    let mut out = encode_u32(p.len() as u32);
    let mut pairs = encode_pairs_from(p, 0);
    out.append(&mut pairs);
    proof {
        assert(out@ =~= spec_encode_params_block(params_view(p@)));
    }
    out
}

/// Writes a payload as its chunk list.
fn encode_chunks(payload: &Vec<u8>) -> (r: Vec<u8>)
    requires
        payload@.len() <= u32::MAX,
    ensures
        r@ == spec_chunks_of(payload@),
{
    if payload.len() == 0 {
        let out = encode_u32(0);
        proof {
            assert(out@ =~= spec_chunks_of(payload@));
        }
        out
    } else {
        let mut out = encode_u32(payload.len() as u32);
        let mut data = subvec(payload, 0, payload.len());
        out.append(&mut data);
        let mut sentinel = encode_u32(0);
        out.append(&mut sentinel);
        proof {
            assert(payload@.subrange(0, payload@.len() as int) =~= payload@);
            assert(out@ =~= spec_chunks_of(payload@));
        }
        out
    }
}

/// Writes one part record.
fn encode_part(part: &EncodablePart, id: u32) -> (r: Vec<u8>)
    requires
        part.wf(),
    ensures
        r@ == spec_encode_part(part@, id),
{
    let mut out = encode_u32(part.part_type.len() as u32);
    let mut ptype = subvec(&part.part_type, 0, part.part_type.len());
    out.append(&mut ptype);
    out.push(if part.mandatory {
        1u8
    } else {
        0u8
    });
    let mut idb = encode_u32(id);
    out.append(&mut idb);
    let mut m = encode_params_block(&part.m_params);
    out.append(&mut m);
    let mut a = encode_params_block(&part.a_params);
    out.append(&mut a);
    let mut chunks = encode_chunks(&part.payload);
    out.append(&mut chunks);
    proof {
        assert(part.part_type@.subrange(0, part.part_type@.len() as int) =~= part.part_type@);
        assert(out@ =~= spec_encode_part(part@, id));
    }
    out
}

/// The views of a part sequence.
pub open spec fn enc_parts_view(parts: Seq<EncodablePart>) -> Seq<EncodablePartView> {
    Seq::new(parts.len(), |i: int| parts[i]@)
}

/// Writes the part records from index `i` on, and the sentinel.
fn encode_parts_from(parts: &Vec<EncodablePart>, i: usize, id: u32) -> (r: Vec<u8>)
    requires
        i <= parts@.len(),
        forall|j: int| 0 <= j < parts@.len() ==> (#[trigger] parts@[j]).wf(),
    ensures
        r@ == spec_encode_parts_from(enc_parts_view(parts@), i as int, id),
    decreases parts@.len() - i,
{
    if i >= parts.len() {
        let out = encode_u32(0);
        proof {
            assert(out@ =~= spec_encode_parts_from(enc_parts_view(parts@), i as int, id));
        }
        return out;
    }
    let mut out = encode_part(&parts[i], id);
    let next_id = if id < 0xffff_ffffu32 {
        id + 1
    } else {
        0
    };
    let mut rest = encode_parts_from(parts, i + 1, next_id);
    out.append(&mut rest);
    proof {
        assert(enc_parts_view(parts@)[i as int] == parts@[i as int]@);
        assert(out@ =~= spec_encode_parts_from(enc_parts_view(parts@), i as int, id));
    }
    out
}

/// Builds a bundle2 stream: stream parameters, a compression choice, and
/// a sequence of parts.
pub struct Bundle2EncodeBuilder {
    pub compressor: Codec,
    pub m_stream_params: Params,
    pub a_stream_params: Params,
    pub parts: Vec<EncodablePart>,
}

impl Bundle2EncodeBuilder {
    /// Everything short enough for its length prefix.
    pub open spec fn wf(&self) -> bool {
        &&& spec_params_wf(params_view(self.m_stream_params@))
        &&& spec_params_wf(params_view(self.a_stream_params@))
        &&& self.m_stream_params@.len() + 1 <= u32::MAX
        &&& self.a_stream_params@.len() <= u32::MAX
        &&& forall|j: int| 0 <= j < self.parts@.len() ==> (#[trigger] self.parts@[j]).wf()
    }

    pub fn new() -> (r: Self)
        ensures
            r.compressor == Codec::Identity,
            params_view(r.m_stream_params@) == Seq::<(Seq<u8>, Seq<u8>)>::empty(),
            params_view(r.a_stream_params@) == Seq::<(Seq<u8>, Seq<u8>)>::empty(),
            enc_parts_view(r.parts@) == Seq::<EncodablePartView>::empty(),
            r.wf(),
    {
        let r = Bundle2EncodeBuilder {
            compressor: Codec::Identity,
            m_stream_params: Vec::new(),
            a_stream_params: Vec::new(),
            parts: Vec::new(),
        };
        proof {
            assert(params_view(r.m_stream_params@) =~= Seq::<(Seq<u8>, Seq<u8>)>::empty());
            assert(params_view(r.a_stream_params@) =~= Seq::<(Seq<u8>, Seq<u8>)>::empty());
            assert(enc_parts_view(r.parts@) =~= Seq::<EncodablePartView>::empty());
        }
        r
    }

    /// Chooses the payload codec; absent means no compression.
    pub fn set_compressor_type(&mut self, ct: Option<Codec>)
        ensures
            final(self).compressor == (match ct {
                Some(c) => c,
                None => Codec::Identity,
            }),
            final(self).m_stream_params == old(self).m_stream_params,
            final(self).a_stream_params == old(self).a_stream_params,
            final(self).parts == old(self).parts,
    {
        self.compressor = match ct {
            Some(c) => c,
            None => Codec::Identity,
        };
    }

    /// Adds one stream parameter. A key opening with an uppercase letter
    /// goes to the mandatory block; keys are stored lowercased. The
    /// compression key is reserved, and an empty key is refused.
    pub fn add_stream_param(&mut self, key: Vec<u8>, value: Vec<u8>) -> (r: Result<(), ()>)
        requires
            key@.len() <= u32::MAX,
            value@.len() <= u32::MAX,
        ensures
            final(self).compressor == old(self).compressor,
            final(self).parts == old(self).parts,
            (key@.len() == 0 || spec_lower_key(key@) == compression_key()) ==> {
                &&& r is Err
                &&& final(self).m_stream_params == old(self).m_stream_params
                &&& final(self).a_stream_params == old(self).a_stream_params
            },
            (key@.len() > 0 && spec_lower_key(key@) != compression_key() && 65 <= key@[0] <= 90)
                ==> {
                &&& r is Ok
                &&& params_view(final(self).m_stream_params@)
                    == params_view(old(self).m_stream_params@).push((spec_lower_key(key@), value@))
                &&& final(self).a_stream_params == old(self).a_stream_params
            },
            (key@.len() > 0 && spec_lower_key(key@) != compression_key() && !(65 <= key@[0] <= 90))
                ==> {
                &&& r is Ok
                &&& params_view(final(self).a_stream_params@)
                    == params_view(old(self).a_stream_params@).push((spec_lower_key(key@), value@))
                &&& final(self).m_stream_params == old(self).m_stream_params
            },
    {
        if key.len() == 0 {
            return Err(());
        }
        let mandatory = 65 <= key[0] && key[0] <= 90;
        let mut lowered: Vec<u8> = Vec::new();
        let mut i: usize = 0;
        while i < key.len()
            invariant
                i <= key@.len(),
                lowered@.len() == i,
                forall|j: int| 0 <= j < i ==> lowered@[j] == spec_lower_byte(key@[j]),
            decreases key@.len() - i,
        {
            let b = key[i];
            if 65 <= b && b <= 90 {
                lowered.push(b + 32);
            } else {
                lowered.push(b);
            }
            i = i + 1;
        }
        proof {
            assert(lowered@ =~= spec_lower_key(key@));
        }
        if crate::bytes_util::eq_bytes(&lowered, &compression_key_vec()) {
            return Err(());
        }
        if mandatory {
            let ghost pre = params_view(self.m_stream_params@);
            self.m_stream_params.push((lowered, value));
            proof {
                assert(params_view(self.m_stream_params@) =~= pre.push(
                    (spec_lower_key(key@), value@),
                ));
            }
        } else {
            let ghost pre = params_view(self.a_stream_params@);
            self.a_stream_params.push((lowered, value));
            proof {
                assert(params_view(self.a_stream_params@) =~= pre.push(
                    (spec_lower_key(key@), value@),
                ));
            }
        }
        Ok(())
    }

    /// Appends one part.
    pub fn add_part(&mut self, part: EncodablePart)
        ensures
            final(self).compressor == old(self).compressor,
            final(self).m_stream_params == old(self).m_stream_params,
            final(self).a_stream_params == old(self).a_stream_params,
            enc_parts_view(final(self).parts@) == enc_parts_view(old(self).parts@).push(part@),
    {
        let ghost pre = enc_parts_view(self.parts@);
        let ghost pv = part@;
        self.parts.push(part);
        proof {
            assert(enc_parts_view(self.parts@) =~= pre.push(pv));
        }
    }

    /// Writes the stream out: the header record, then the parts,
    /// compressed with the chosen codec.
    pub fn build(self) -> (r: Vec<u8>)
        requires
            self.wf(),
        ensures
            spec_build_ok(
                self.compressor,
                params_view(self.m_stream_params@),
                params_view(self.a_stream_params@),
                enc_parts_view(self.parts@),
                r@,
            ),
    {
        let ghost m0 = params_view(self.m_stream_params@);
        let mut m_full = self.m_stream_params;
        m_full.push((compression_key_vec(), crate::codec::codec_tag(self.compressor)));
        proof {
            assert(params_view(m_full@) =~= spec_full_m(m0, self.compressor));
            assert(compression_key().len() == 11);
        }
        let mut out = encode_params_block(&m_full);
        let mut ablock = encode_params_block(&self.a_stream_params);
        out.append(&mut ablock);
        let ghost header_view = out@;
        let parts_bytes = encode_parts_from(&self.parts, 0, 0);
        let mut body = crate::codec::compress_payload(self.compressor, &parts_bytes);
        let ghost body_view = body@;
        out.append(&mut body);
        proof {
            assert(header_view == spec_header_bytes(spec_full_m(m0, self.compressor), params_view(
                self.a_stream_params@,
            )));
            assert(out@ == header_view + body_view);
            assert(spec_body_ok(self.compressor, body_view, spec_encode_parts(
                enc_parts_view(self.parts@),
            )));
        }
        out
    }
}

/// The decode of a whole byte stream: the stream header event, one event
/// per known part, and the done event; or the first fatal error.
pub open spec fn spec_decode(bytes: Seq<u8>) -> Result<DecodedView, ErrorKindView> {
    match spec_parse_stream_header(bytes) {
        None => Err(ErrorKindView::Bundle2Decode(DecodeErrorView::Truncated)),
        Some((hv, pos)) => {
            if spec_count_key(hv.m_stream_params, compression_key()) > 1 {
                Err(ErrorKindView::Bundle2Decode(DecodeErrorView::DuplicateCompression))
            } else {
                let tag = spec_lookup(hv.m_stream_params, compression_key());
                match spec_codec_of_tag(tag) {
                    None => Err(
                        ErrorKindView::Bundle2Decode(DecodeErrorView::UnknownCompression(tag->0)),
                    ),
                    Some(codec) => {
                        match spec_payload_of(codec, bytes.skip(pos)) {
                            None => Err(ErrorKindView::Bundle2Decode(DecodeErrorView::Decompress)),
                            Some(payload) => match spec_parse_parts(payload, 0) {
                                Err(e) => Err(e),
                                Ok((items, errs)) => Ok(
                                    DecodedView {
                                        events: seq![
                                            StreamEventView::Next(Bundle2ItemView::Start(hv)),
                                        ] + Seq::new(
                                            items.len(),
                                            |i: int| StreamEventView::Next(items[i]),
                                        ) + seq![StreamEventView::Done],
                                        app_errors: errs,
                                    },
                                ),
                            },
                        }
                    },
                }
            }
        },
    }
}

/// A pull-style stream decoder fed raw bytes chunk by chunk, as a
/// fragmented transport delivers them. Chunks only accumulate until
/// `finish`, so what comes out is a function of the concatenated bytes
/// alone, however small or delayed the chunks were.
pub struct Bundle2Stream {
    pub buf: Vec<u8>,
}

/// The concatenation of a chunk sequence.
pub open spec fn concat_chunks(chunks: Seq<Seq<u8>>) -> Seq<u8>
    decreases chunks.len(),
{
    if chunks.len() == 0 {
        Seq::empty()
    } else {
        chunks[0] + concat_chunks(chunks.drop_first())
    }
}

/// The views of a chunk list.
pub open spec fn chunks_view(chunks: Seq<Vec<u8>>) -> Seq<Seq<u8>> {
    Seq::new(chunks.len(), |i: int| chunks[i]@)
}

/// Concatenation grows one chunk at a time.
pub proof fn lemma_concat_take(chunks: Seq<Seq<u8>>, i: int)
    requires
        0 <= i < chunks.len(),
    ensures
        concat_chunks(chunks.take(i + 1)) == concat_chunks(chunks.take(i)) + chunks[i],
    decreases i,
{
    if i == 0 {
        assert(chunks.take(1) =~= seq![chunks[0]]);
        assert(chunks.take(1).drop_first() =~= Seq::<Seq<u8>>::empty());
        assert(chunks.take(0) =~= Seq::<Seq<u8>>::empty());
        assert(concat_chunks(Seq::<Seq<u8>>::empty()) == Seq::<u8>::empty());
        assert(chunks.take(1)[0] == chunks[0]);
        assert(concat_chunks(chunks.take(1)) == chunks[0] + Seq::<u8>::empty());
        assert(chunks[0] + Seq::<u8>::empty() =~= Seq::<u8>::empty() + chunks[0]);
    } else {
        let rest = chunks.drop_first();
        lemma_concat_take(rest, i - 1);
        assert(chunks.take(i + 1).drop_first() =~= rest.take(i));
        assert(chunks.take(i).drop_first() =~= rest.take(i - 1));
        assert(chunks.take(i + 1)[0] == chunks[0]);
        assert(chunks.take(i)[0] == chunks[0]);
        assert(concat_chunks(chunks.take(i + 1)) == chunks[0] + concat_chunks(rest.take(i)));
        assert(concat_chunks(chunks.take(i)) == chunks[0] + concat_chunks(rest.take(i - 1)));
        assert(rest[i - 1] == chunks[i]);
        assert(chunks[0] + (concat_chunks(rest.take(i - 1)) + chunks[i]) =~= (chunks[0]
            + concat_chunks(rest.take(i - 1))) + chunks[i]);
    }
}

impl Bundle2Stream {
    pub fn new() -> (r: Self)
        ensures
            r.buf@ == Seq::<u8>::empty(),
    {
        let r = Bundle2Stream { buf: Vec::new() };
        proof {
            assert(r.buf@ =~= Seq::<u8>::empty());
        }
        r
    }

    /// Accepts the next chunk of raw bytes from the transport. A chunk may
    /// be arbitrarily small, including empty (a would-block retry).
    pub fn feed(&mut self, chunk: &Vec<u8>)
        ensures
            final(self).buf@ == old(self).buf@ + chunk@,
    {
        let ghost pre = self.buf@;
        let mut i: usize = 0;
        while i < chunk.len()
            invariant
                i <= chunk@.len(),
                self.buf@ == pre + chunk@.take(i as int),
            decreases chunk@.len() - i,
        {
            proof {
                assert(pre + chunk@.take(i as int + 1) =~= (pre + chunk@.take(i as int)).push(
                    chunk@[i as int],
                ));
            }
            self.buf.push(chunk[i]);
            i = i + 1;
        }
        proof {
            assert(chunk@.take(chunk@.len() as int) =~= chunk@);
        }
    }

    /// Feeds a whole list of chunks in order.
    pub fn feed_all(&mut self, chunks: &Vec<Vec<u8>>)
        ensures
            final(self).buf@ == old(self).buf@ + concat_chunks(chunks_view(chunks@)),
    {
        let ghost pre = self.buf@;
        let ghost cv = chunks_view(chunks@);
        let mut i: usize = 0;
        proof {
            assert(cv.take(0) =~= Seq::<Seq<u8>>::empty());
            assert(pre + concat_chunks(cv.take(0)) =~= pre);
        }
        while i < chunks.len()
            invariant
                i <= chunks@.len(),
                cv == chunks_view(chunks@),
                cv.len() == chunks@.len(),
                self.buf@ == pre + concat_chunks(cv.take(i as int)),
            decreases chunks@.len() - i,
        {
            self.feed(&chunks[i]);
            proof {
                lemma_concat_take(cv, i as int);
                assert(cv[i as int] == chunks@[i as int]@);
                assert((pre + concat_chunks(cv.take(i as int))) + chunks@[i as int]@ =~= pre
                    + (concat_chunks(cv.take(i as int)) + chunks@[i as int]@));
            }
            i = i + 1;
        }
        proof {
            assert(cv.take(cv.len() as int) =~= cv);
        }
    }

    /// Decodes everything that was fed.
    pub fn finish(self) -> (r: Result<Bundle2Output, ErrorKind>)
        ensures
            match r {
                Ok(o) => spec_decode(self.buf@) matches Ok(d) && events_view(o.events@) == d.events
                    && app_errors_match(o.app_errors@, d.app_errors),
                Err(e) => spec_decode(self.buf@) matches Err(s) && e@ == s,
            },
    {
        decode_bundle2(&self.buf)
    }
}

/// Reading a written `u32` back.
proof fn lemma_read_u32_at(pre: Seq<u8>, n: u32, suffix: Seq<u8>)
    ensures
        spec_read_u32(pre + spec_u32_to_le_bytes(n) + suffix, pre.len() as int) == Some(
            (n, (pre.len() + 4) as int),
        ),
{
    lemma_auto_spec_u32_to_from_le_bytes();
    let b = pre + spec_u32_to_le_bytes(n) + suffix;
    assert(b.subrange(pre.len() as int, pre.len() + 4int) =~= spec_u32_to_le_bytes(n));
}

/// Reading written raw bytes back.
proof fn lemma_read_bytes_at(pre: Seq<u8>, data: Seq<u8>, suffix: Seq<u8>)
    ensures
        spec_read_bytes(pre + data + suffix, pre.len() as int, data.len() as int) == Some(
            (data, (pre.len() + data.len()) as int),
        ),
{
    let b = pre + data + suffix;
    assert(b.subrange(pre.len() as int, (pre.len() + data.len()) as int) =~= data);
}

/// Parsing written pairs back.
#[verifier::rlimit(100)]
proof fn lemma_parse_pairs_round(pre: Seq<u8>, pairs: Seq<(Seq<u8>, Seq<u8>)>, i: int, suffix: Seq<u8>)
    requires
        spec_params_wf(pairs),
        0 <= i <= pairs.len(),
    ensures
        spec_parse_pairs(
            pre + spec_encode_pairs_from(pairs, i) + suffix,
            pre.len() as int,
            (pairs.len() - i) as nat,
        ) == Some((pairs.skip(i), (pre.len() + spec_encode_pairs_from(pairs, i).len()) as int)),
    decreases pairs.len() - i,
{
    lemma_auto_spec_u32_to_from_le_bytes();
    let enc = spec_encode_pairs_from(pairs, i);
    let b = pre + enc + suffix;
    if i == pairs.len() {
        assert(enc =~= Seq::<u8>::empty());
        assert(pairs.skip(i) =~= Seq::<(Seq<u8>, Seq<u8>)>::empty());
    } else {
        let p = pairs[i];
        let klen_b = spec_u32_to_le_bytes(p.0.len() as u32);
        let vlen_b = spec_u32_to_le_bytes(p.1.len() as u32);
        let rest_enc = spec_encode_pairs_from(pairs, i + 1);
        assert(enc == spec_encode_pair(p) + rest_enc);
        assert(p.0.len() as u32 as int == p.0.len());
        assert(p.1.len() as u32 as int == p.1.len());

        lemma_read_u32_at(pre, p.0.len() as u32, p.0 + vlen_b + p.1 + rest_enc + suffix);
        assert(b =~= pre + klen_b + (p.0 + vlen_b + p.1 + rest_enc + suffix));

        lemma_read_bytes_at(pre + klen_b, p.0, vlen_b + p.1 + rest_enc + suffix);
        assert(b =~= (pre + klen_b) + p.0 + (vlen_b + p.1 + rest_enc + suffix));

        lemma_read_u32_at(pre + klen_b + p.0, p.1.len() as u32, p.1 + rest_enc + suffix);
        assert(b =~= (pre + klen_b + p.0) + vlen_b + (p.1 + rest_enc + suffix));

        lemma_read_bytes_at(pre + klen_b + p.0 + vlen_b, p.1, rest_enc + suffix);
        assert(b =~= (pre + klen_b + p.0 + vlen_b) + p.1 + (rest_enc + suffix));

        let pre2 = pre + klen_b + p.0 + vlen_b + p.1;
        lemma_parse_pairs_round(pre2, pairs, i + 1, suffix);
        assert(b =~= pre2 + rest_enc + suffix);

        assert(seq![(p.0, p.1)] + pairs.skip(i + 1) =~= pairs.skip(i));
        assert(pre2.len() == pre.len() + 4 + p.0.len() + 4 + p.1.len());
        assert(enc.len() == (4 + p.0.len() + 4 + p.1.len()) + rest_enc.len());
        assert((p.0, p.1) == p);
    }
}

/// Parsing a written parameter block back.
proof fn lemma_parse_params_block_round(pre: Seq<u8>, pairs: Seq<(Seq<u8>, Seq<u8>)>, suffix: Seq<u8>)
    requires
        spec_params_wf(pairs),
        pairs.len() <= u32::MAX,
    ensures
        spec_parse_params_block(pre + spec_encode_params_block(pairs) + suffix, pre.len() as int)
            == Some((pairs, (pre.len() + spec_encode_params_block(pairs).len()) as int)),
{
    lemma_auto_spec_u32_to_from_le_bytes();
    let count_b = spec_u32_to_le_bytes(pairs.len() as u32);
    let pairs_b = spec_encode_pairs_from(pairs, 0);
    let b = pre + spec_encode_params_block(pairs) + suffix;
    assert(pairs.len() as u32 as int == pairs.len());
    assert(pairs.len() as u32 as nat == pairs.len());
    lemma_read_u32_at(pre, pairs.len() as u32, pairs_b + suffix);
    assert(b =~= pre + count_b + (pairs_b + suffix));
    lemma_parse_pairs_round(pre + count_b, pairs, 0, suffix);
    assert(b =~= (pre + count_b) + pairs_b + suffix);
    assert(pairs.skip(0) =~= pairs);
}

/// Parsing a written stream header back.
proof fn lemma_parse_header_round(m: Seq<(Seq<u8>, Seq<u8>)>, a: Seq<(Seq<u8>, Seq<u8>)>, suffix: Seq<u8>)
    requires
        spec_params_wf(m),
        spec_params_wf(a),
        m.len() <= u32::MAX,
        a.len() <= u32::MAX,
    ensures
        spec_parse_stream_header(spec_header_bytes(m, a) + suffix) == Some(
            (
                StreamHeaderView { m_stream_params: m, a_stream_params: a },
                spec_header_bytes(m, a).len() as int,
            ),
        ),
{
    let mb = spec_encode_params_block(m);
    let ab = spec_encode_params_block(a);
    let b = spec_header_bytes(m, a) + suffix;
    lemma_parse_params_block_round(Seq::empty(), m, ab + suffix);
    assert(b =~= Seq::empty() + mb + (ab + suffix));
    assert(Seq::<u8>::empty().len() == 0);
    lemma_parse_params_block_round(mb, a, suffix);
    assert(b =~= mb + ab + suffix);
}

/// Parsing a written payload chunk list back.
proof fn lemma_parse_chunks_round(pre: Seq<u8>, payload: Seq<u8>, suffix: Seq<u8>)
    requires
        payload.len() <= u32::MAX,
    ensures
        spec_parse_chunks(pre + spec_chunks_of(payload) + suffix, pre.len() as int) == Some(
            (payload, (pre.len() + spec_chunks_of(payload).len()) as int),
        ),
{
    lemma_auto_spec_u32_to_from_le_bytes();
    let zero_b = spec_u32_to_le_bytes(0);
    let b = pre + spec_chunks_of(payload) + suffix;
    if payload.len() == 0 {
        lemma_read_u32_at(pre, 0, suffix);
        assert(b =~= pre + zero_b + suffix);
        assert(payload =~= Seq::<u8>::empty());
    } else {
        let len_b = spec_u32_to_le_bytes(payload.len() as u32);
        assert(payload.len() as u32 as int == payload.len());
        assert(payload.len() as u32 != 0);
        lemma_read_u32_at(pre, payload.len() as u32, payload + zero_b + suffix);
        assert(b =~= pre + len_b + (payload + zero_b + suffix));
        lemma_read_bytes_at(pre + len_b, payload, zero_b + suffix);
        assert(b =~= (pre + len_b) + payload + (zero_b + suffix));
        let pre2 = pre + len_b + payload;
        lemma_read_u32_at(pre2, 0, suffix);
        assert(b =~= pre2 + zero_b + suffix);
        assert(spec_read_u32(b, pre2.len() as int) == Some((0u32, (pre2.len() + 4) as int)));
        assert(spec_parse_chunks(b, pre2.len() as int) == Some(
            (Seq::<u8>::empty(), (pre2.len() + 4) as int),
        ));
        assert(payload + Seq::<u8>::empty() =~= payload);
    }
}

/// What the part records decode to: each known part becomes its typed
/// item; an unknown advisory part is recorded; an unknown mandatory part
/// fails the stream.
pub open spec fn spec_run_parts(parts: Seq<EncodablePartView>, i: int, id: u32) -> Result<
    (Seq<Bundle2ItemView>, Seq<PartHeaderView>),
    ErrorKindView,
>
    decreases parts.len() - i,
{
    if i < 0 || i >= parts.len() {
        Ok((Seq::empty(), Seq::empty()))
    } else {
        let p = parts[i];
        let header = spec_header_of_part(p, id);
        if p.part_type == changegroup_name() {
            match spec_run_parts(parts, i + 1, spec_next_id(id)) {
                Err(e) => Err(e),
                Ok((items, errs)) => Ok(
                    (seq![Bundle2ItemView::Changegroup(header, p.payload)] + items, errs),
                ),
            }
        } else if p.part_type == treegroup_name() {
            match spec_run_parts(parts, i + 1, spec_next_id(id)) {
                Err(e) => Err(e),
                Ok((items, errs)) => Ok(
                    (seq![Bundle2ItemView::B2xTreegroup2(header, p.payload)] + items, errs),
                ),
            }
        } else if p.mandatory {
            Err(ErrorKindView::BundleUnknownPart(header))
        } else {
            match spec_run_parts(parts, i + 1, spec_next_id(id)) {
                Err(e) => Err(e),
                Ok((items, errs)) => Ok((items, seq![header] + errs)),
            }
        }
    }
}

/// Parsing one written part record back: the parse consumes exactly the
/// record and dispatches on its type.
#[verifier::rlimit(100)]
proof fn lemma_parse_one_part(pre: Seq<u8>, p: EncodablePartView, id: u32, rest: Seq<u8>)
    requires
        spec_part_wf(p),
    ensures
        ({
            let b = pre + spec_encode_part(p, id) + rest;
            let header = spec_header_of_part(p, id);
            let next = (pre.len() + spec_encode_part(p, id).len()) as int;
            spec_parse_parts(b, pre.len() as int) == (if p.part_type == changegroup_name() {
                match spec_parse_parts(b, next) {
                    Err(e) => Err(e),
                    Ok((items, errs)) => Ok(
                        (seq![Bundle2ItemView::Changegroup(header, p.payload)] + items, errs),
                    ),
                }
            } else if p.part_type == treegroup_name() {
                match spec_parse_parts(b, next) {
                    Err(e) => Err(e),
                    Ok((items, errs)) => Ok(
                        (seq![Bundle2ItemView::B2xTreegroup2(header, p.payload)] + items, errs),
                    ),
                }
            } else if p.mandatory {
                Err(ErrorKindView::BundleUnknownPart(header))
            } else {
                match spec_parse_parts(b, next) {
                    Err(e) => Err(e),
                    Ok((items, errs)) => Ok((items, seq![header] + errs)),
                }
            })
        }),
{
    lemma_auto_spec_u32_to_from_le_bytes();
    let part_enc = spec_encode_part(p, id);
    let b = pre + part_enc + rest;
    let tl = spec_u32_to_le_bytes(p.part_type.len() as u32);
    let pt = p.part_type;
    let flagv: u8 = if p.mandatory {
        1u8
    } else {
        0u8
    };
    let fl = seq![flagv];
    let idb = spec_u32_to_le_bytes(id);
    let mb = spec_encode_params_block(p.m_params);
    let ab = spec_encode_params_block(p.a_params);
    let ch = spec_chunks_of(p.payload);
    assert(part_enc == tl + pt + fl + idb + mb + ab + ch);
    assert(pt.len() as u32 as int == pt.len());
    assert(pt.len() as u32 != 0);

    lemma_read_u32_at(pre, pt.len() as u32, pt + fl + idb + mb + ab + ch + rest);
    assert(b =~= pre + tl + (pt + fl + idb + mb + ab + ch + rest));

    lemma_read_bytes_at(pre + tl, pt, fl + idb + mb + ab + ch + rest);
    assert(b =~= (pre + tl) + pt + (fl + idb + mb + ab + ch + rest));

    let p2: int = (pre.len() + 4 + pt.len()) as int;
    assert(b =~= (pre + tl + pt) + (fl + (idb + mb + ab + ch + rest)));
    assert((fl + (idb + mb + ab + ch + rest))[0] == flagv);
    assert((pre + tl + pt).len() == p2);
    assert(b[p2] == flagv);
    assert(p2 + 1 <= b.len());
    assert((b[p2] != 0) == p.mandatory);

    lemma_read_u32_at(pre + tl + pt + fl, id, mb + ab + ch + rest);
    assert(b =~= (pre + tl + pt + fl) + idb + (mb + ab + ch + rest));
    assert((pre + tl + pt + fl).len() == p2 + 1);

    lemma_parse_params_block_round(pre + tl + pt + fl + idb, p.m_params, ab + ch + rest);
    assert(b =~= (pre + tl + pt + fl + idb) + mb + (ab + ch + rest));

    lemma_parse_params_block_round(pre + tl + pt + fl + idb + mb, p.a_params, ch + rest);
    assert(b =~= (pre + tl + pt + fl + idb + mb) + ab + (ch + rest));

    lemma_parse_chunks_round(pre + tl + pt + fl + idb + mb + ab, p.payload, rest);
    assert(b =~= (pre + tl + pt + fl + idb + mb + ab) + ch + rest);

    let next: int = (pre.len() + part_enc.len()) as int;
    assert((pre + tl + pt + fl + idb + mb + ab).len() + ch.len() == next);
    assert(next > pre.len());
    assert(next <= b.len());
}

/// Parsing written part records back.
#[verifier::rlimit(100)]
proof fn lemma_parse_parts_round(pre: Seq<u8>, parts: Seq<EncodablePartView>, i: int, id: u32, suffix: Seq<u8>)
    requires
        0 <= i <= parts.len(),
        forall|j: int| 0 <= j < parts.len() ==> spec_part_wf(#[trigger] parts[j]),
    ensures
        spec_parse_parts(pre + spec_encode_parts_from(parts, i, id) + suffix, pre.len() as int)
            == spec_run_parts(parts, i, id),
    decreases parts.len() - i,
{
    lemma_auto_spec_u32_to_from_le_bytes();
    let enc = spec_encode_parts_from(parts, i, id);
    let b = pre + enc + suffix;
    let zero_b = spec_u32_to_le_bytes(0);
    if i == parts.len() {
        lemma_read_u32_at(pre, 0, suffix);
        assert(b =~= pre + zero_b + suffix);
    } else {
        let p = parts[i];
        assert(spec_part_wf(p));
        let part_enc = spec_encode_part(p, id);
        let rest_enc = spec_encode_parts_from(parts, i + 1, spec_next_id(id));
        assert(enc == part_enc + rest_enc);
        lemma_parse_one_part(pre, p, id, rest_enc + suffix);
        assert(b =~= pre + part_enc + (rest_enc + suffix));
        let pre2 = pre + part_enc;
        lemma_parse_parts_round(pre2, parts, i + 1, spec_next_id(id), suffix);
        assert(b =~= pre2 + rest_enc + suffix);
        assert(pre2.len() == pre.len() + part_enc.len());
        assert(spec_parse_parts(b, (pre.len() + part_enc.len()) as int) == spec_run_parts(
            parts,
            i + 1,
            spec_next_id(id),
        ));
    }
}


/// Appending one pair changes the key count by at most one.
proof fn lemma_count_key_from_push(
    params: Seq<(Seq<u8>, Seq<u8>)>,
    kv: (Seq<u8>, Seq<u8>),
    i: int,
    key: Seq<u8>,
)
    requires
        0 <= i <= params.len(),
    ensures
        spec_count_key_from(params.push(kv), i, key) == spec_count_key_from(params, i, key) + (
        if kv.0 == key {
            1nat
        } else {
            0nat
        }),
    decreases params.len() - i,
{
    let pushed = params.push(kv);
    if i == params.len() {
        assert(pushed[i] == kv);
        assert(spec_count_key_from(pushed, i + 1, key) == 0);
    } else {
        lemma_count_key_from_push(params, kv, i + 1, key);
        assert(pushed[i] == params[i]);
    }
}

/// Looking a key up after appending it, when it was absent before.
proof fn lemma_lookup_from_push(
    params: Seq<(Seq<u8>, Seq<u8>)>,
    kv: (Seq<u8>, Seq<u8>),
    i: int,
    key: Seq<u8>,
)
    requires
        0 <= i <= params.len(),
        spec_count_key_from(params, i, key) == 0,
        kv.0 == key,
    ensures
        spec_lookup_from(params.push(kv), i, key) == Some(kv.1),
    decreases params.len() - i,
{
    let pushed = params.push(kv);
    if i == params.len() {
        assert(pushed[i] == kv);
    } else {
        assert(params[i].0 != key);
        assert(pushed[i] == params[i]);
        lemma_lookup_from_push(params, kv, i + 1, key);
    }
}

/// Each codec's wire tag names that codec back.
proof fn lemma_codec_tag_inverse(codec: Codec)
    ensures
        spec_codec_of_tag(Some(crate::codec::spec_codec_tag(codec))) == Some(codec),
{
    let un = crate::codec::spec_codec_tag(Codec::Identity);
    let gz = crate::codec::spec_codec_tag(Codec::Gzip);
    let bz = crate::codec::spec_codec_tag(Codec::Bzip2);
    assert(un[0] == 85u8 && gz[0] == 71u8 && bz[0] == 66u8);
    match codec {
        Codec::Identity => {
        },
        Codec::Gzip => {
            assert(gz != un);
        },
        Codec::Bzip2 => {
            assert(bz != un);
            assert(bz != gz);
        },
    }
}

/// What decoding a built stream yields: the stream header with the
/// compression parameter appended, the run of the encoded parts, and the
/// done event.
#[verifier::rlimit(30)]
pub proof fn lemma_decode_build(
    codec: Codec,
    m: Seq<(Seq<u8>, Seq<u8>)>,
    a: Seq<(Seq<u8>, Seq<u8>)>,
    parts: Seq<EncodablePartView>,
    out: Seq<u8>,
)
    requires
        spec_build_ok(codec, m, a, parts, out),
        spec_params_wf(m),
        spec_params_wf(a),
        m.len() + 1 <= u32::MAX,
        a.len() <= u32::MAX,
        spec_count_key(m, compression_key()) == 0,
        forall|j: int| 0 <= j < parts.len() ==> spec_part_wf(#[trigger] parts[j]),
    ensures
        ({
            let hv = StreamHeaderView {
                m_stream_params: spec_full_m(m, codec),
                a_stream_params: a,
            };
            spec_decode(out) == (match spec_run_parts(parts, 0, 0) {
                Err(e) => Err(e),
                Ok((items, errs)) => Ok(
                    DecodedView {
                        events: seq![StreamEventView::Next(Bundle2ItemView::Start(hv))] + Seq::new(
                            items.len(),
                            |i: int| StreamEventView::Next(items[i]),
                        ) + seq![StreamEventView::Done],
                        app_errors: errs,
                    },
                ),
            })
        }),
{
    lemma_auto_spec_u32_to_from_le_bytes();
    let full_m = spec_full_m(m, codec);
    let ckey = compression_key();
    let tag = crate::codec::spec_codec_tag(codec);
    let body = choose|body: Seq<u8>|
        out == spec_header_bytes(full_m, a) + body && spec_body_ok(
            codec,
            body,
            spec_encode_parts(parts),
        );
    let hbytes = spec_header_bytes(full_m, a);
    assert(spec_params_wf(full_m)) by {
        assert(forall|j: int|
            0 <= j < m.len() ==> full_m[j] == #[trigger] m[j]);
        assert(full_m[m.len() as int] == (ckey, tag));
        assert(ckey.len() == 11);
        assert(tag.len() == 2);
    }
    lemma_parse_header_round(full_m, a, body);
    assert(out =~= hbytes + body);
    let hv = StreamHeaderView { m_stream_params: full_m, a_stream_params: a };
    assert(spec_parse_stream_header(out) == Some((hv, hbytes.len() as int)));
    lemma_count_key_from_push(m, (ckey, tag), 0, ckey);
    assert(spec_count_key(full_m, ckey) == 1);
    lemma_lookup_from_push(m, (ckey, tag), 0, ckey);
    assert(spec_lookup(full_m, ckey) == Some(tag));
    lemma_codec_tag_inverse(codec);
    assert(out.skip(hbytes.len() as int) =~= body);
    assert(spec_payload_of(codec, body) == Some(spec_encode_parts(parts)));
    lemma_parse_parts_round(Seq::empty(), parts, 0, 0, Seq::empty());
    assert(Seq::<u8>::empty() + spec_encode_parts_from(parts, 0, 0) + Seq::<u8>::empty()
        =~= spec_encode_parts(parts));
    assert(spec_parse_parts(spec_encode_parts(parts), 0) == spec_run_parts(parts, 0, 0));
}

/// Round-trip law: encoding an empty bundle with given stream parameters
/// and decoding it yields exactly the stream-header event, carrying those
/// parameters plus the negotiated compression tag, and then the done
/// event, with no parts in between and no accumulated errors.
pub proof fn lemma_empty_bundle_roundtrip(
    codec: Codec,
    m: Seq<(Seq<u8>, Seq<u8>)>,
    a: Seq<(Seq<u8>, Seq<u8>)>,
    out: Seq<u8>,
)
    requires
        spec_build_ok(codec, m, a, Seq::empty(), out),
        spec_params_wf(m),
        spec_params_wf(a),
        m.len() + 1 <= u32::MAX,
        a.len() <= u32::MAX,
        spec_count_key(m, compression_key()) == 0,
    ensures
        spec_decode(out) == Ok::<DecodedView, ErrorKindView>(
            DecodedView {
                events: seq![
                    StreamEventView::Next(
                        Bundle2ItemView::Start(
                            StreamHeaderView {
                                m_stream_params: spec_full_m(m, codec),
                                a_stream_params: a,
                            },
                        ),
                    ),
                    StreamEventView::Done,
                ],
                app_errors: Seq::empty(),
            },
        ),
{
    lemma_decode_build(codec, m, a, Seq::empty(), out);
    let hv = StreamHeaderView { m_stream_params: spec_full_m(m, codec), a_stream_params: a };
    assert(spec_run_parts(Seq::empty(), 0, 0) == Ok::<
        (Seq<Bundle2ItemView>, Seq<PartHeaderView>),
        ErrorKindView,
    >((Seq::empty(), Seq::empty())));
    assert(seq![StreamEventView::Next(Bundle2ItemView::Start(hv))] + Seq::new(
        0,
        |i: int| StreamEventView::Next(Seq::<Bundle2ItemView>::empty()[i]),
    ) + seq![StreamEventView::Done] =~= seq![
        StreamEventView::Next(Bundle2ItemView::Start(hv)),
        StreamEventView::Done,
    ]);
}

/// Unknown-part law: a bundle holding one part of a type the decoder does
/// not handle aborts the stream with `BundleUnknownPart` when the part is
/// mandatory; the same part marked advisory is skipped, recorded in the
/// accumulated error list exactly once, and decoding runs to completion.
pub proof fn lemma_unknown_part(
    codec: Codec,
    m: Seq<(Seq<u8>, Seq<u8>)>,
    a: Seq<(Seq<u8>, Seq<u8>)>,
    part: EncodablePartView,
    out: Seq<u8>,
)
    requires
        spec_build_ok(codec, m, a, seq![part], out),
        spec_params_wf(m),
        spec_params_wf(a),
        m.len() + 1 <= u32::MAX,
        a.len() <= u32::MAX,
        spec_count_key(m, compression_key()) == 0,
        spec_part_wf(part),
        part.part_type != changegroup_name(),
        part.part_type != treegroup_name(),
    ensures
        part.mandatory ==> spec_decode(out) == Err::<DecodedView, ErrorKindView>(
            ErrorKindView::BundleUnknownPart(spec_header_of_part(part, 0)),
        ),
        !part.mandatory ==> spec_decode(out) == Ok::<DecodedView, ErrorKindView>(
            DecodedView {
                events: seq![
                    StreamEventView::Next(
                        Bundle2ItemView::Start(
                            StreamHeaderView {
                                m_stream_params: spec_full_m(m, codec),
                                a_stream_params: a,
                            },
                        ),
                    ),
                    StreamEventView::Done,
                ],
                app_errors: seq![spec_header_of_part(part, 0)],
            },
        ),
{
    lemma_decode_build(codec, m, a, seq![part], out);
    let parts = seq![part];
    assert(parts[0] == part);
    assert(spec_run_parts(parts, 1, spec_next_id(0)) == Ok::<
        (Seq<Bundle2ItemView>, Seq<PartHeaderView>),
        ErrorKindView,
    >((Seq::empty(), Seq::empty())));
    let header = spec_header_of_part(part, 0);
    if !part.mandatory {
        assert(spec_run_parts(parts, 0, 0) == Ok::<
            (Seq<Bundle2ItemView>, Seq<PartHeaderView>),
            ErrorKindView,
        >((Seq::empty(), seq![header] + Seq::empty())));
        assert(seq![header] + Seq::<PartHeaderView>::empty() =~= seq![header]);
        let hv = StreamHeaderView { m_stream_params: spec_full_m(m, codec), a_stream_params: a };
        assert(seq![StreamEventView::Next(Bundle2ItemView::Start(hv))] + Seq::new(
            0,
            |i: int| StreamEventView::Next(Seq::<Bundle2ItemView>::empty()[i]),
        ) + seq![StreamEventView::Done] =~= seq![
            StreamEventView::Next(Bundle2ItemView::Start(hv)),
            StreamEventView::Done,
        ]);
    }
}

/// I/O fragmentation invariance: however the same byte stream is split
/// into chunks, decoding yields the same events and the same accumulated
/// error list, because the decode is a function of the concatenation
/// alone.
pub proof fn lemma_fragmentation_invariance(chunks1: Seq<Seq<u8>>, chunks2: Seq<Seq<u8>>)
    requires
        concat_chunks(chunks1) == concat_chunks(chunks2),
    ensures
        spec_decode(concat_chunks(chunks1)) == spec_decode(concat_chunks(chunks2)),
{
}

} // verus!
