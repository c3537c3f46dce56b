//! Binary KeyValues as they are written, and what holds of reading them.

use vstd::prelude::*;
use vstd::utf8::encode_utf8;

use crate::text;
use crate::vdf;
use crate::vdf::{Datum, Error, Node};

verus! {

/// The little-endian bytes of a number that fits in `size` of them.
pub open spec fn number_bytes(n: nat, size: nat) -> Seq<u8>
    decreases size,
{
    if size == 0 {
        Seq::empty()
    } else {
        seq![(n % 256) as u8] + number_bytes(n / 256, (size - 1) as nat)
    }
}

/// A text and the NUL behind it.
pub open spec fn text_bytes(s: Seq<char>) -> Seq<u8> {
    encode_utf8(s).push(0)
}

/// The 32 bits of a signed number, read as an unsigned one.
pub open spec fn unsigned_32(i: i32) -> nat {
    if i < 0 {
        (i + 0x1_0000_0000) as nat
    } else {
        i as nat
    }
}

/// The tag that announces a payload.
pub open spec fn tag_of(value: Datum) -> u8 {
    match value {
        Datum::Container => vdf::TAG_NONE,
        Datum::String(_) => vdf::TAG_STRING,
        Datum::Int32(_) => vdf::TAG_INT32,
        Datum::Float32(_) => vdf::TAG_FLOAT32,
        Datum::Pointer(_) => vdf::TAG_POINTER,
        Datum::Color(_) => vdf::TAG_COLOR,
        Datum::UInt64(_) => vdf::TAG_UINT64,
    }
}

/// A payload that is no container, as it is written.
pub open spec fn scalar_bytes(value: Datum) -> Seq<u8> {
    match value {
        Datum::Container => Seq::empty(),
        Datum::String(s) => text_bytes(s),
        Datum::Int32(v) => number_bytes(unsigned_32(v), 4),
        Datum::Float32(v) => number_bytes(v as nat, 4),
        Datum::Pointer(v) => number_bytes(v as nat, 4),
        Datum::Color(v) => number_bytes(v as nat, 4),
        Datum::UInt64(v) => number_bytes(v as nat, 8),
    }
}

/// A node as it is written: its tag, its name, and its payload.
pub open spec fn node_bytes(node: Node) -> Seq<u8>
    decreases node,
{
    seq![tag_of(node.value)] + text_bytes(node.name) + (match node.value {
        Datum::Container => list_bytes(node.children),
        _ => scalar_bytes(node.value),
    })
}

/// The inside of a container as it is written: its nodes and the End tag. The
/// outermost container makes up a whole document.
pub open spec fn list_bytes(list: Seq<Node>) -> Seq<u8>
    decreases list,
{
    if list.len() == 0 {
        seq![vdf::TAG_END]
    } else {
        node_bytes(list[0]) + list_bytes(list.skip(1))
    }
}

/// A node that the format can hold, in a container `depth` levels deep.
pub open spec fn node_fits(node: Node, depth: nat) -> bool
    decreases node,
{
    &&& text::without_nul(node.name)
    &&& match node.value {
        Datum::Container => list_fits(node.children, depth + 1),
        Datum::String(s) => text::without_nul(s) && node.children.len() == 0,
        _ => node.children.len() == 0,
    }
}

/// A container that the format can hold, `depth` levels deep.
pub open spec fn list_fits(list: Seq<Node>, depth: nat) -> bool
    decreases list,
{
    &&& depth <= vdf::MAX_DEPTH
    &&& list.len() > 0 ==> node_fits(list[0], depth) && list_fits(list.skip(1), depth)
}

/// How many containers are stacked inside a list of nodes.
pub open spec fn nesting(list: Seq<Node>) -> nat
    decreases list,
{
    if list.len() == 0 {
        0
    } else {
        let first = match list[0].value {
            Datum::Container => 1 + nesting(list[0].children),
            _ => 0,
        };
        let rest = nesting(list.skip(1));
        if first < rest {
            rest
        } else {
            first
        }
    }
}

pub(crate) proof fn number_bytes_len(n: nat, size: nat)
    ensures
        number_bytes(n, size).len() == size,
    decreases size,
{
    if size > 0 {
        number_bytes_len(n / 256, (size - 1) as nat);
    }
}

pub(crate) proof fn number_bytes_denote(n: nat, size: nat)
    requires
        n < vstd::arithmetic::power::pow(256, size),
    ensures
        vdf::little_endian(number_bytes(n, size)) == n,
    decreases size,
{
    reveal(vstd::arithmetic::power::pow);
    if size > 0 {
        let rest = (size - 1) as nat;
        let limit = vstd::arithmetic::power::pow(256, rest);
        assert(n / 256 < limit) by (nonlinear_arith)
            requires
                n < 256 * limit,
        ;
        number_bytes_denote(n / 256, rest);
        assert(number_bytes(n, size).skip(1) == number_bytes(n / 256, rest));
    }
}

/// The bytes of a number are read back as that number.
proof fn written_number_reads(pre: Seq<u8>, n: nat, size: nat, post: Seq<u8>)
    requires
        n < vstd::arithmetic::power::pow(256, size),
    ensures
        ({
            let data = pre + number_bytes(n, size) + post;
            vdf::read_number(data, pre.len() as int, size as int) == Ok::<_, Error>(
                (n, (pre.len() + size) as int),
            )
        }),
{
    number_bytes_len(n, size);
    number_bytes_denote(n, size);
    let data = pre + number_bytes(n, size) + post;
    assert(data.subrange(pre.len() as int, (pre.len() + size) as int) == number_bytes(n, size));
}

/// No byte of a scalar's encoding is a NUL, unless the scalar is.
proof fn scalar_has_no_nul(c: u32)
    requires
        0 < c <= 0x10ffff,
    ensures
        !vstd::utf8::encode_scalar(c).contains(0u8),
{
    assert(c <= 0x7f ==> (c & 0x7f) as u8 != 0u8) by (bit_vector)
        requires
            0 < c,
    ;
    assert(0xc0u8 | ((c >> 6) & 0x1f) as u8 != 0u8) by (bit_vector);
    assert(0xe0u8 | ((c >> 12) & 0xf) as u8 != 0u8) by (bit_vector);
    assert(0xf0u8 | ((c >> 18) & 0x7) as u8 != 0u8) by (bit_vector);
    assert(0x80u8 | (c & 0x3f) as u8 != 0u8) by (bit_vector);
    assert(0x80u8 | ((c >> 6) & 0x3f) as u8 != 0u8) by (bit_vector);
    assert(0x80u8 | ((c >> 12) & 0x3f) as u8 != 0u8) by (bit_vector);
}

pub(crate) proof fn encoded_has_no_nul(s: Seq<char>)
    requires
        text::without_nul(s),
    ensures
        !encode_utf8(s).contains(0u8),
    decreases s.len(),
{
    if s.len() > 0 {
        let rest = s.drop_first();
        assert forall|i: int| 0 <= i < rest.len() implies rest[i] != '\0' by {
            assert(rest[i] == s[i + 1]);
        }
        encoded_has_no_nul(rest);
        assert(s[0] != '\0');
        let c: char = s[0];
        vstd::utf8::char_is_scalar(c);
        vstd::utf8::char_u32_cast(c, c as u32);
        assert(c as u32 != 0);
        scalar_has_no_nul(s[0] as u32);
        let head = vstd::utf8::encode_scalar(s[0] as u32);
        assert forall|i: int| 0 <= i < encode_utf8(s).len() implies encode_utf8(s)[i] != 0u8 by {
            if i < head.len() {
                assert(encode_utf8(s)[i] == head[i]);
            } else {
                assert(encode_utf8(s)[i] == encode_utf8(rest)[i - head.len()]);
            }
        }
    }
}

pub(crate) proof fn nul_from_is(data: Seq<u8>, start: int, end: int)
    requires
        0 <= start <= end < data.len(),
        data[end] == 0,
        forall|i: int| start <= i < end ==> data[i] != 0,
    ensures
        vdf::nul_from(data, start) == end,
    decreases end - start,
{
    if start < end {
        nul_from_is(data, start + 1, end);
    }
}

/// A text is read back as it was written.
proof fn written_text_reads(pre: Seq<u8>, s: Seq<char>, post: Seq<u8>)
    requires
        text::without_nul(s),
    ensures
        ({
            let data = pre + text_bytes(s) + post;
            vdf::read_text(data, pre.len() as int) == Ok::<_, Error>(
                (s, (pre.len() + text_bytes(s).len()) as int),
            )
        }),
{
    let data = pre + text_bytes(s) + post;
    let bytes = encode_utf8(s);
    let start = pre.len() as int;
    let end = start + bytes.len();
    encoded_has_no_nul(s);
    assert forall|i: int| start <= i < end implies data[i] != 0 by {
        assert(data[i] == bytes[i - start]);
    }
    nul_from_is(data, start, end);
    assert(data.subrange(start, end) == bytes);
    vstd::utf8::encode_utf8_valid_utf8(s);
    vstd::utf8::encode_utf8_decode_utf8(s);
}

pub(crate) proof fn powers_of_256()
    ensures
        vstd::arithmetic::power::pow(256, 4) == 0x1_0000_0000,
        vstd::arithmetic::power::pow(256, 8) == 0x1_0000_0000_0000_0000,
{
    reveal(vstd::arithmetic::power::pow);
    reveal_with_fuel(vstd::arithmetic::power::pow, 9);
}

/// A payload that is no container is read back as it was written.
proof fn written_scalar_reads(pre: Seq<u8>, value: Datum, post: Seq<u8>)
    requires
        value !is Container,
        value matches Datum::String(s) ==> text::without_nul(s),
    ensures
        ({
            let data = pre + scalar_bytes(value) + post;
            vdf::read_scalar(data, tag_of(value), pre.len() as int) == Ok::<_, Error>(
                (value, (pre.len() + scalar_bytes(value).len()) as int),
            )
        }),
{
    powers_of_256();
    match value {
        Datum::Container => {},
        Datum::String(s) => {
            written_text_reads(pre, s, post);
        },
        Datum::Int32(v) => {
            number_bytes_len(unsigned_32(v), 4);
            written_number_reads(pre, unsigned_32(v), 4, post);
        },
        Datum::Float32(v) => {
            number_bytes_len(v as nat, 4);
            written_number_reads(pre, v as nat, 4, post);
        },
        Datum::Pointer(v) => {
            number_bytes_len(v as nat, 4);
            written_number_reads(pre, v as nat, 4, post);
        },
        Datum::Color(v) => {
            number_bytes_len(v as nat, 4);
            written_number_reads(pre, v as nat, 4, post);
        },
        Datum::UInt64(v) => {
            number_bytes_len(v as nat, 8);
            written_number_reads(pre, v as nat, 8, post);
        },
    }
}

/// One node and the nodes behind it, read from the results of their parts.
proof fn read_one_more(
    data: Seq<u8>,
    pos: int,
    depth: nat,
    node: Node,
    body: int,
    next: int,
    rest: Seq<Node>,
    end: int,
)
    requires
        depth <= vdf::MAX_DEPTH,
        0 <= pos < body <= next <= data.len(),
        data[pos] == tag_of(node.value),
        vdf::read_text(data, pos + 1) == Ok::<_, Error>((node.name, body)),
        node.value is Container ==> vdf::read_children(data, body, depth + 1) == Ok::<_, Error>(
            (node.children, next),
        ),
        node.value !is Container ==> node.children.len() == 0 && vdf::read_scalar(
            data,
            data[pos],
            body,
        ) == Ok::<_, Error>((node.value, next)),
        vdf::read_children(data, next, depth) == Ok::<_, Error>((rest, end)),
    ensures
        vdf::read_children(data, pos, depth) == Ok::<_, Error>((seq![node] + rest, end)),
{
    if node.value !is Container {
        assert(node.children == Seq::<Node>::empty());
    }
}

spec fn payload_bytes(node: Node) -> Seq<u8> {
    match node.value {
        Datum::Container => list_bytes(node.children),
        _ => scalar_bytes(node.value),
    }
}

proof fn list_bytes_parts(list: Seq<Node>)
    requires
        list.len() > 0,
    ensures
        list_bytes(list) == seq![tag_of(list[0].value)] + text_bytes(list[0].name)
            + payload_bytes(list[0]) + list_bytes(list.skip(1)),
{
    let node = list[0];
    assert(node_bytes(node) == seq![tag_of(node.value)] + text_bytes(node.name) + payload_bytes(
        node,
    ));
}

proof fn regrouped(
    pre: Seq<u8>,
    tag: u8,
    name: Seq<u8>,
    payload: Seq<u8>,
    tail: Seq<u8>,
    post: Seq<u8>,
)
    ensures
        ({
            let data = pre + (seq![tag] + name + payload + tail) + post;
            &&& data == pre.push(tag) + name + (payload + (tail + post))
            &&& data == (pre.push(tag) + name) + payload + (tail + post)
            &&& data == ((pre.push(tag) + name) + payload) + tail + post
            &&& data[pre.len() as int] == tag
        }),
{
    let data = pre + (seq![tag] + name + payload + tail) + post;
    assert(data =~= pre.push(tag) + name + (payload + (tail + post)));
    assert(data =~= (pre.push(tag) + name) + payload + (tail + post));
    assert(data =~= ((pre.push(tag) + name) + payload) + tail + post);
}

/// The inside of a container is read back as it was written, wherever it
/// stands.
proof fn written_list_reads(pre: Seq<u8>, list: Seq<Node>, depth: nat, post: Seq<u8>)
    requires
        list_fits(list, depth),
    ensures
        ({
            let data = pre + list_bytes(list) + post;
            vdf::read_children(data, pre.len() as int, depth) == Ok::<_, Error>(
                (list, (pre.len() + list_bytes(list).len()) as int),
            )
        }),
    decreases list,
{
    let data = pre + list_bytes(list) + post;
    let pos = pre.len() as int;
    if list.len() == 0 {
        assert(data[pos] == vdf::TAG_END);
        assert(list == Seq::<Node>::empty());
    } else {
        let node = list[0];
        let rest = list.skip(1);
        let tag = tag_of(node.value);
        let name = text_bytes(node.name);
        let payload = payload_bytes(node);
        let tail = list_bytes(rest);
        let after = tail + post;
        let head = pre.push(tag) + name;
        let front = head + payload;
        assert(node_fits(node, depth) && list_fits(rest, depth));
        list_bytes_parts(list);
        regrouped(pre, tag, name, payload, tail, post);
        let body = head.len() as int;
        let next = front.len() as int;
        let end = next + tail.len();
        written_text_reads(pre.push(tag), node.name, payload + after);
        if node.value is Container {
            written_list_reads(head, node.children, depth + 1, after);
        } else {
            written_scalar_reads(head, node.value, after);
        }
        written_list_reads(front, rest, depth, post);
        read_one_more(data, pos, depth, node, body, next, rest, end);
        assert(seq![node] + rest == list);
    }
}

/// A document that was written is read back as it was, with or without NUL
/// padding behind it.
pub proof fn written_documents_read_back(list: Seq<Node>, padding: nat)
    requires
        list_fits(list, 0),
    ensures
        vdf::document(list_bytes(list) + Seq::new(padding, |i: int| 0u8)) == Ok::<_, Error>(
            vdf::root_of(list),
        ),
{
    let zeros = Seq::new(padding, |i: int| 0u8);
    let data = list_bytes(list) + zeros;
    assert(Seq::<u8>::empty() + list_bytes(list) + zeros == data);
    written_list_reads(Seq::empty(), list, 0, zeros);
    let end = list_bytes(list).len() as int;
    assert forall|i: int| end <= i < data.len() implies data[i] == 0 by {
        assert(data[i] == zeros[i - end]);
    }
}

proof fn nul_from_extended(data: Seq<u8>, more: Seq<u8>, start: int)
    requires
        0 <= start,
        vdf::nul_from(data, start) < data.len(),
    ensures
        vdf::nul_from(data + more, start) == vdf::nul_from(data, start),
    decreases data.len() - start,
{
    if start < data.len() && data[start] != 0 {
        nul_from_extended(data, more, start + 1);
    }
}

proof fn text_extended(data: Seq<u8>, more: Seq<u8>, start: int)
    requires
        0 <= start,
        vdf::read_text(data, start) is Ok,
    ensures
        vdf::read_text(data + more, start) == vdf::read_text(data, start),
{
    nul_from_extended(data, more, start);
    if start < data.len() {
        vdf::nul_from_bounds(data, start);
    }
    let end = vdf::nul_from(data, start);
    assert((data + more).subrange(start, end) == data.subrange(start, end));
}

proof fn scalar_extended(data: Seq<u8>, more: Seq<u8>, tag: u8, start: int)
    requires
        0 <= start <= data.len(),
        vdf::read_scalar(data, tag, start) is Ok,
    ensures
        vdf::read_scalar(data + more, tag, start) == vdf::read_scalar(data, tag, start),
{
    if tag == vdf::TAG_STRING {
        text_extended(data, more, start);
    } else {
        let size: int = if tag == vdf::TAG_UINT64 {
            8
        } else {
            4
        };
        if start + size <= data.len() {
            assert((data + more).subrange(start, start + size) == data.subrange(
                start,
                start + size,
            ));
        }
    }
}

/// What closes a container does not depend on what comes behind it.
proof fn children_extended(data: Seq<u8>, more: Seq<u8>, pos: int, depth: nat)
    requires
        vdf::read_children(data, pos, depth) is Ok,
    ensures
        vdf::read_children(data + more, pos, depth) == vdf::read_children(data, pos, depth),
    decreases data.len() - pos,
{
    let longer = data + more;
    assert(longer[pos] == data[pos]);
    if data[pos] != vdf::TAG_END {
        vdf::nul_from_bounds(data, pos + 1);
        text_extended(data, more, pos + 1);
        if let Ok((name, body)) = vdf::read_text(data, pos + 1) {
            if data[pos] == vdf::TAG_NONE {
                vdf::read_children_bounds(data, body, depth + 1);
                children_extended(data, more, body, depth + 1);
                if let Ok((inner, next)) = vdf::read_children(data, body, depth + 1) {
                    children_extended(data, more, next, depth);
                }
            } else {
                scalar_extended(data, more, data[pos], body);
                if let Ok((value, next)) = vdf::read_scalar(data, data[pos], body) {
                    vdf::nul_from_bounds(data, body);
                    children_extended(data, more, next, depth);
                }
            }
        }
    }
}

/// NUL padding behind a document changes nothing.
pub proof fn padding_changes_nothing(data: Seq<u8>, padding: nat)
    requires
        vdf::document(data) is Ok,
    ensures
        vdf::document(data + Seq::new(padding, |i: int| 0u8)) == vdf::document(data),
{
    let zeros = Seq::new(padding, |i: int| 0u8);
    children_extended(data, zeros, 0, 0);
    vdf::read_children_bounds(data, 0, 0);
    if let Ok((_, end)) = vdf::read_children(data, 0, 0) {
        assert forall|i: int| end <= i < (data + zeros).len() implies (data + zeros)[i] == 0 by {
            if i >= data.len() {
                assert((data + zeros)[i] == zeros[i - data.len()]);
            }
        }
    }
}

/// A document with anything but NUL bytes behind it is refused.
pub proof fn garbage_is_refused(data: Seq<u8>, more: Seq<u8>, i: int)
    requires
        vdf::document(data) is Ok,
        0 <= i < more.len(),
        more[i] != 0,
    ensures
        vdf::document(data + more) == Err::<Node, _>(Error::TrailingData),
{
    children_extended(data, more, 0, 0);
    vdf::read_children_bounds(data, 0, 0);
    assert((data + more)[data.len() + i] == more[i]);
}

/// The errors that say that a document ends too early.
pub open spec fn ends_early(e: Error) -> bool {
    e == Error::UnexpectedEof || e == Error::UnterminatedString
}

proof fn nul_from_cut(data: Seq<u8>, len: int, start: int)
    requires
        0 <= start <= len <= data.len(),
    ensures
        vdf::nul_from(data.take(len), start) == if vdf::nul_from(data, start) < len {
            vdf::nul_from(data, start)
        } else {
            len
        },
    decreases len - start,
{
    vdf::nul_from_bounds(data, start);
    if start < len && data[start] != 0 {
        nul_from_cut(data, len, start + 1);
    }
}

proof fn text_cut(data: Seq<u8>, len: int, start: int)
    requires
        0 <= start <= len <= data.len(),
        vdf::read_text(data, start) is Ok,
    ensures
        match (vdf::read_text(data, start), vdf::read_text(data.take(len), start)) {
            (Ok((s, next)), Ok((t, end))) => next <= len && s == t && next == end,
            (Ok((_, next)), Err(e)) => next > len && ends_early(e),
            _ => false,
        },
{
    nul_from_cut(data, len, start);
    vdf::nul_from_bounds(data, start);
    let end = vdf::nul_from(data, start);
    if end < len {
        assert(data.take(len).subrange(start, end) == data.subrange(start, end));
    }
}

proof fn scalar_cut(data: Seq<u8>, len: int, tag: u8, start: int)
    requires
        0 <= start <= len <= data.len(),
        vdf::read_scalar(data, tag, start) is Ok,
    ensures
        match (vdf::read_scalar(data, tag, start), vdf::read_scalar(data.take(len), tag, start)) {
            (Ok((s, next)), Ok((t, end))) => next <= len && s == t && next == end,
            (Ok((_, next)), Err(e)) => next > len && ends_early(e),
            _ => false,
        },
{
    if tag == vdf::TAG_STRING {
        text_cut(data, len, start);
    } else {
        let size: int = if tag == vdf::TAG_UINT64 {
            8
        } else {
            4
        };
        if start + size <= len {
            assert(data.take(len).subrange(start, start + size) == data.subrange(
                start,
                start + size,
            ));
        }
    }
}

/// What is read of a container does not change where the cut lies behind it, and
/// ends too early where it does not.
proof fn children_cut(data: Seq<u8>, len: int, pos: int, depth: nat)
    requires
        0 <= pos <= len <= data.len(),
        vdf::read_children(data, pos, depth) is Ok,
    ensures
        match (
            vdf::read_children(data, pos, depth),
            vdf::read_children(data.take(len), pos, depth),
        ) {
            (Ok((s, next)), Ok((t, end))) => next <= len && s == t && next == end,
            (Ok((_, next)), Err(e)) => next > len && ends_early(e),
            _ => false,
        },
    decreases data.len() - pos,
{
    let cut = data.take(len);
    vdf::read_children_bounds(data, pos, depth);
    if pos < len {
        assert(cut[pos] == data[pos]);
        if data[pos] != vdf::TAG_END {
            vdf::nul_from_bounds(data, pos + 1);
            text_cut(data, len, pos + 1);
            if let Ok((name, body)) = vdf::read_text(data, pos + 1) {
                if body <= len {
                    if data[pos] == vdf::TAG_NONE {
                        vdf::read_children_bounds(data, body, depth + 1);
                        children_cut(data, len, body, depth + 1);
                        if let Ok((inner, next)) = vdf::read_children(data, body, depth + 1) {
                            vdf::read_children_bounds(data, next, depth);
                            if next <= len {
                                children_cut(data, len, next, depth);
                            }
                        }
                    } else {
                        scalar_cut(data, len, data[pos], body);
                        if let Ok((value, next)) = vdf::read_scalar(data, data[pos], body) {
                            vdf::nul_from_bounds(data, body);
                            vdf::read_children_bounds(data, next, depth);
                            if next <= len {
                                children_cut(data, len, next, depth);
                            }
                        }
                    }
                } else {
                    cut_behind(data, pos, depth);
                }
            }
        }
    }
}

/// What is read of a container ends behind the name of its first node.
proof fn cut_behind(data: Seq<u8>, pos: int, depth: nat)
    requires
        vdf::read_children(data, pos, depth) is Ok,
        data[pos] != vdf::TAG_END,
        0 <= pos,
    ensures
        vdf::read_text(data, pos + 1) matches Ok((_, body)) && (vdf::read_children(
            data,
            pos,
            depth,
        ) matches Ok((_, end)) && body < end),
{
    vdf::nul_from_bounds(data, pos + 1);
    if let Ok((name, body)) = vdf::read_text(data, pos + 1) {
        if data[pos] == vdf::TAG_NONE {
            vdf::read_children_bounds(data, body, depth + 1);
            if let Ok((inner, next)) = vdf::read_children(data, body, depth + 1) {
                vdf::read_children_bounds(data, next, depth);
            }
        } else if let Ok((value, next)) = vdf::read_scalar(data, data[pos], body) {
            vdf::nul_from_bounds(data, body);
            vdf::read_children_bounds(data, next, depth);
        }
    }
}

/// Any document that is cut short anywhere before its end, padding not counted,
/// is refused as one that ends too early.
pub proof fn cut_documents_end_early(data: Seq<u8>, len: int)
    requires
        vdf::document(data) is Ok,
        vdf::read_children(data, 0, 0) matches Ok((_, end)) && 0 <= len < end,
    ensures
        vdf::document(data.take(len)) matches Err(e) && ends_early(e),
{
    vdf::read_children_bounds(data, 0, 0);
    children_cut(data, len, 0, 0);
}

/// A document that was written and then cut short anywhere is refused as one that
/// ends too early.
pub proof fn cut_documents_are_refused(list: Seq<Node>, len: int)
    requires
        list_fits(list, 0),
        0 <= len < list_bytes(list).len(),
    ensures
        vdf::document(list_bytes(list).take(len)) matches Err(e) && ends_early(e),
{
    let data = list_bytes(list);
    written_list_reads(Seq::empty(), list, 0, Seq::empty());
    assert(Seq::<u8>::empty() + data + Seq::<u8>::empty() == data);
    cut_documents_end_early(data, len);
}

proof fn children_nesting(data: Seq<u8>, pos: int, depth: nat)
    ensures
        vdf::read_children(data, pos, depth) matches Ok((list, _)) ==> depth + nesting(list)
            <= vdf::MAX_DEPTH,
    decreases data.len() - pos,
{
    if let Ok((list, end)) = vdf::read_children(data, pos, depth) {
        if data[pos] != vdf::TAG_END {
            vdf::nul_from_bounds(data, pos + 1);
            if let Ok((name, body)) = vdf::read_text(data, pos + 1) {
                if data[pos] == vdf::TAG_NONE {
                    vdf::read_children_bounds(data, body, depth + 1);
                    children_nesting(data, body, depth + 1);
                    if let Ok((inner, next)) = vdf::read_children(data, body, depth + 1) {
                        children_nesting(data, next, depth);
                        if let Ok((rest, _)) = vdf::read_children(data, next, depth) {
                            assert(list.skip(1) == rest);
                        }
                    }
                } else if let Ok((value, next)) = vdf::read_scalar(data, data[pos], body) {
                    vdf::nul_from_bounds(data, body);
                    children_nesting(data, next, depth);
                    if let Ok((rest, _)) = vdf::read_children(data, next, depth) {
                        assert(list.skip(1) == rest);
                    }
                }
            }
        }
    }
}

/// However a document is made, what is read of it is never nested deeper than
/// the limit.
pub proof fn nesting_is_bounded(data: Seq<u8>)
    ensures
        vdf::document(data) matches Ok(root) ==> nesting(root.children) <= vdf::MAX_DEPTH,
{
    children_nesting(data, 0, 0);
}

/// A lookup in what a failed lookup answered fails too, and reads as whatever
/// default is asked for.
pub proof fn missing_lookups_chain(key: Seq<char>)
    ensures
        vdf::missing().child(key) == vdf::missing(),
        vdf::missing().all(key).len() == 0,
        !vdf::missing().is_present(),
        forall|default: int| vdf::missing().i32_or(default) == default,
        forall|default: bool| vdf::missing().bool_or(default) == default,
        forall|default: Seq<char>, texts: Map<u32, Seq<char>>|
            vdf::missing().text_or(default, texts) == default,
{
    reveal(Seq::filter);
}

/// The case of letters in a key makes no difference, in ASCII or beyond it.
pub proof fn lookup_ignores_case(node: Node, key: Seq<char>, other: Seq<char>)
    requires
        text::same_ignoring_case(key, other),
    ensures
        node.child(key) == node.child(other),
        node.all(key) == node.all(other),
{
    first_named_ignores_case(node.children, key, other);
    assert((|c: Node| text::same_ignoring_case(c.name, key)) =~= (|c: Node|
        text::same_ignoring_case(c.name, other)));
}

proof fn first_named_ignores_case(list: Seq<Node>, key: Seq<char>, other: Seq<char>)
    requires
        text::same_ignoring_case(key, other),
    ensures
        vdf::first_named(list, key) == vdf::first_named(list, other),
    decreases list.len(),
{
    if list.len() > 0 {
        first_named_ignores_case(list.skip(1), key, other);
    }
}

/// A single lookup answers with the first of all the children of that name.
pub proof fn first_of_all(node: Node, key: Seq<char>)
    ensures
        node.child(key) == if node.all(key).len() > 0 {
            node.all(key)[0]
        } else {
            vdf::missing()
        },
{
    first_named_is_first(node.children, key);
}

proof fn first_named_is_first(list: Seq<Node>, key: Seq<char>)
    ensures
        ({
            let found = list.filter(|c: Node| text::same_ignoring_case(c.name, key));
            vdf::first_named(list, key) == if found.len() > 0 {
                found[0]
            } else {
                vdf::missing()
            }
        }),
    decreases list.len(),
{
    let called = |c: Node| text::same_ignoring_case(c.name, key);
    if list.len() == 0 {
        reveal(Seq::filter);
    } else {
        let rest = list.skip(1);
        first_named_is_first(rest, key);
        assert(list == seq![list[0]] + rest);
        Seq::filter_distributes_over_add(seq![list[0]], rest, called);
        assert(seq![list[0]].filter(called) == if called(list[0]) {
            seq![list[0]]
        } else {
            Seq::<Node>::empty()
        }) by {
            reveal(Seq::filter);
            assert(seq![list[0]].drop_last() == Seq::<Node>::empty());
            reveal_with_fuel(Seq::filter, 2);
        }
    }
}

/// A number written out as text answers an integer query with that number.
pub proof fn numeric_text_reads_as_number(node: Node, i: int, default: int)
    requires
        i32::MIN <= i <= i32::MAX,
        node.value == Datum::String(text::signed_decimal(i)),
    ensures
        node.i32_or(default) == i,
        node.bool_or(default != 0) == (i != 0),
{
    text::signed_decimal_is_trim(i);
    text::signed_decimal_reads_back(i);
}

/// A lookup answers with the first child whose name is the key, and with nothing where no
/// child has that name.
pub proof fn the_first_child_of_a_name_is_found(
    node: Node,
    before: Seq<Node>,
    child: Node,
    after: Seq<Node>,
    key: Seq<char>,
)
    requires
        node.children == before + seq![child] + after,
        forall|i: int|
            0 <= i < before.len() ==> !text::same_ignoring_case((#[trigger] before[i]).name, key),
    ensures
        text::same_ignoring_case(child.name, key) ==> node.child(key) == child,
    decreases before.len(),
{
    let list = node.children;
    if before.len() == 0 {
        assert(list[0] == child);
    } else {
        assert(list[0] == before[0]);
        assert(list.skip(1) =~= before.skip(1) + seq![child] + after);
        let rest = Node { children: list.skip(1), ..node };
        assert forall|i: int| 0 <= i < before.skip(1).len() implies !text::same_ignoring_case(
            (#[trigger] before.skip(1)[i]).name,
            key,
        ) by {
            assert(before.skip(1)[i] == before[i + 1]);
        }
        the_first_child_of_a_name_is_found(rest, before.skip(1), child, after, key);
    }
}

/// Where no child has the name, nothing is found.
pub proof fn nothing_else_is_found(list: Seq<Node>, key: Seq<char>)
    requires
        forall|i: int|
            0 <= i < list.len() ==> !text::same_ignoring_case((#[trigger] list[i]).name, key),
    ensures
        vdf::first_named(list, key) == vdf::missing(),
    decreases list.len(),
{
    if list.len() > 0 {
        assert forall|i: int| 0 <= i < list.skip(1).len() implies !text::same_ignoring_case(
            (#[trigger] list.skip(1)[i]).name,
            key,
        ) by {
            assert(list.skip(1)[i] == list[i + 1]);
        }
        nothing_else_is_found(list.skip(1), key);
    }
}

/// All children of a name are those that have it, in the order of the document.
pub proof fn all_children_of_a_name_are_found(
    node: Node,
    before: Seq<Node>,
    child: Node,
    after: Seq<Node>,
    key: Seq<char>,
)
    requires
        node.children == before + seq![child] + after,
    ensures
        ({
            let front = Node { children: before, ..node };
            let back = Node { children: after, ..node };
            node.all(key) == if text::same_ignoring_case(child.name, key) {
                front.all(key) + seq![child] + back.all(key)
            } else {
                front.all(key) + back.all(key)
            }
        }),
{
    let called = |c: Node| text::same_ignoring_case(c.name, key);
    let one = seq![child];
    Seq::filter_distributes_over_add(before + one, after, called);
    Seq::filter_distributes_over_add(before, one, called);
    assert(one.filter(called) =~= if called(child) {
        one
    } else {
        Seq::<Node>::empty()
    }) by {
        assert(one.drop_last() =~= Seq::<Node>::empty());
        reveal_with_fuel(Seq::filter, 2);
    }
    let front = Node { children: before, ..node };
    let back = Node { children: after, ..node };
    if called(child) {
        assert(node.all(key) =~= front.all(key) + one + back.all(key));
    } else {
        assert(node.all(key) =~= front.all(key) + back.all(key));
    }
}

/// A value answers an integer query with the integer it is: of one of eight bytes with its
/// lower half, of text with the number it spells. What holds no number answers with what is
/// asked for in that case.
pub proof fn integers_are_read_from_values(
    node: Node,
    default: int,
    front: Seq<char>,
    back: Seq<char>,
    i: i32,
    upper: u32,
)
    requires
        forall|k: int| 0 <= k < front.len() ==> text::is_white(#[trigger] front[k]),
        forall|k: int| 0 <= k < back.len() ==> text::is_white(#[trigger] back[k]),
    ensures
        node.value == Datum::Int32(i) ==> node.i32_or(default) == i,
        node.value matches Datum::UInt64(v) && v == upper * 0x1_0000_0000 + unsigned_32(i)
            ==> node.i32_or(default) == i,
        node.value == Datum::String(front + text::signed_decimal(i as int) + back) ==> node.i32_or(
            default,
        ) == i,
        node.value matches Datum::Float32(bits) ==> node.i32_or(default) == crate::float::as_i32(
            bits,
        ),
        node.value is Container || node.value is Pointer || node.value is Color ==> node.i32_or(
            default,
        ) == default,
        node.value matches Datum::String(s) && text::read_i32(text::trimmed(s)) is None
            ==> node.i32_or(default) == default,
{
    let digits = text::signed_decimal(i as int);
    text::signed_decimal_is_trim(i as int);
    text::signed_decimal_reads_back(i as int);
    text::white_space_at_the_ends_is_cut(front, digits, back);
}

/// A value is true exactly where the number it holds is not zero; of one of eight bytes all
/// of it counts.
pub proof fn truths_are_read_from_values(node: Node, default: bool)
    ensures
        node.value matches Datum::Int32(v) ==> node.bool_or(default) == (v != 0),
        node.value matches Datum::UInt64(v) ==> node.bool_or(default) == (v != 0),
        node.value matches Datum::Float32(bits) ==> node.bool_or(default) == (
        crate::float::as_i32(bits) != 0),
        node.value matches Datum::String(s) ==> match text::read_i32(text::trimmed(s)) {
            Some(n) => node.bool_or(default) == (n != 0),
            None => node.bool_or(default) == default,
        },
        node.value is Container || node.value is Pointer || node.value is Color ==> node.bool_or(
            default,
        ) == default,
{
}

/// A value is shown as the text or the number it is; only a container is shown as what is
/// asked for in that case.
pub proof fn texts_are_read_from_values(
    node: Node,
    default: Seq<char>,
    texts: Map<u32, Seq<char>>,
)
    ensures
        node.value matches Datum::String(s) ==> node.text_or(default, texts) == s,
        node.value matches Datum::Int32(v) ==> node.text_or(default, texts) == text::signed_decimal(
            v as int,
        ),
        node.value matches Datum::Float32(bits) ==> texts.contains_key(bits) ==> node.text_or(
            default,
            texts,
        ) == texts[bits],
        node.value matches Datum::Pointer(v) ==> node.text_or(default, texts) == text::decimal(
            v as nat,
        ),
        node.value matches Datum::Color(v) ==> node.text_or(default, texts) == text::decimal(
            v as nat,
        ),
        node.value matches Datum::UInt64(v) ==> node.text_or(default, texts) == text::decimal(
            v as nat,
        ),
        node.value is Container ==> node.text_or(default, texts) == default,
{
}

/// A value answers a query for a real number with the number it is, an integer with the
/// nearest, of one of eight bytes its lower half; text is to be read as a number without
/// the white space at its ends.
pub proof fn reals_are_read_from_values(
    node: Node,
    default: u32,
    numbers: Map<Seq<char>, u32>,
)
    ensures
        ({
            let read = crate::float::resolved(node.float_or(default), numbers);
            &&& node.value matches Datum::Float32(bits) ==> read == bits
            &&& node.value matches Datum::Int32(v) ==> read == crate::float::nearest_signed(
                v as int,
            ) as u32
            &&& node.value matches Datum::UInt64(v) ==> read == crate::float::nearest(
                v as nat % 0x1_0000_0000,
            ) as u32
            &&& node.value matches Datum::String(s) ==> read == if numbers.contains_key(
                text::trimmed(s),
            ) {
                numbers[text::trimmed(s)]
            } else {
                default
            }
            &&& node.value is Container || node.value is Pointer || node.value is Color ==> read
                == default
        }),
{
}

proof fn patterns_of_a_sum(a: Seq<Node>, b: Seq<Node>)
    ensures
        vdf::patterns_in(a + b) == vdf::patterns_in(a) + vdf::patterns_in(b),
    decreases b.len(),
{
    if b.len() == 0 {
        assert(a + b =~= a);
        assert(vdf::patterns_in(a) + vdf::patterns_in(b) =~= vdf::patterns_in(a));
    } else {
        patterns_of_a_sum(a, b.drop_last());
        assert((a + b).drop_last() =~= a + b.drop_last());
        assert((a + b).last() == b.last());
        assert(vdf::patterns_in(a + b) =~= vdf::patterns_in(a) + vdf::patterns_in(b));
    }
}

/// The real numbers of a document are gathered from every node, in document order: a
/// node's own, then those of its children, one child after another.
pub proof fn real_numbers_are_gathered(node: Node, before: Seq<Node>, child: Node, after: Seq<Node>)
    requires
        node.children == before + seq![child] + after,
    ensures
        ({
            let front = Node { children: before, ..node };
            let back = Node { value: Datum::Container, children: after, ..node };
            node.float_patterns() == front.float_patterns() + child.float_patterns()
                + back.float_patterns()
        }),
        child.value matches Datum::Float32(bits) ==> child.children.len() == 0
            ==> child.float_patterns() == seq![bits],
        !(child.value is Float32) && child.children.len() == 0 ==> child.float_patterns().len()
            == 0,
{
    let one = seq![child];
    patterns_of_a_sum(before + one, after);
    patterns_of_a_sum(before, one);
    assert(one.drop_last() =~= Seq::<Node>::empty());
    assert(one.last() == child);
    assert(vdf::patterns_in(Seq::<Node>::empty()) =~= Seq::<u32>::empty());
    assert(vdf::patterns_in(one) =~= child.float_patterns());
    let front = Node { children: before, ..node };
    let back = Node { value: Datum::Container, children: after, ..node };
    assert(node.float_patterns() =~= front.float_patterns() + child.float_patterns()
        + back.float_patterns());
    if child.children.len() == 0 {
        assert(vdf::patterns_in(child.children) =~= Seq::<u32>::empty());
        if let Datum::Float32(bits) = child.value {
            assert(child.float_patterns() =~= seq![bits]);
        } else {
            assert(child.float_patterns() =~= Seq::<u32>::empty());
        }
    }
}

/// A document whose first node is of a type that is not known is refused, and the error
/// tells of the type; so is one whose first node is a wide text.
pub proof fn unknown_types_are_refused(tag: u8, name: Seq<char>, rest: Seq<u8>)
    requires
        text::without_nul(name),
        tag == 5 || tag > 8,
    ensures
        vdf::document(seq![tag] + text_bytes(name) + rest) == Err::<Node, Error>(
            if tag == 5 {
                Error::WideStringUnsupported
            } else {
                Error::UnknownType(tag)
            },
        ),
        exists|a: Seq<char>| vdf::error_text(Error::UnknownType(tag)) == #[trigger] (
        a + text::decimal(tag as nat)),
{
    let data = seq![tag] + text_bytes(name) + rest;
    written_text_reads(seq![tag], name, rest);
    assert(data[0] == tag);
    assert(vdf::error_text(Error::UnknownType(tag)) == "unknown value type "@ + text::decimal(
        tag as nat,
    ));
}

} // verus!
