//! Parser for Steam's binary KeyValues (VDF) format.
//!
//! It reads the `UserGameStatsSchema_<appid>.bin` files that Steam caches under
//! `<steam>/appcache/stats/`, which are the only source of achievement and stat
//! *metadata* (display names, descriptions, icons, permission bits). The Steam
//! client interface itself only exposes stat and achievement *values*.
//!
//! Wire format, one node at a time:
//!
//! ```text
//! u8   type tag
//! if tag == End (8): the current container ends here
//! cstr name (NUL-terminated UTF-8)
//! then, depending on tag:
//!   None     (0) -> nested children, terminated by an End tag
//!   String   (1) -> cstr value
//!   Int32    (2) -> i32 little-endian
//!   Float32  (3) -> binary32 little-endian
//!   Pointer  (4) -> u32 little-endian
//!   WideString(5)-> unsupported, rejected
//!   Color    (6) -> u32 little-endian
//!   UInt64   (7) -> u64 little-endian
//! ```

use vstd::prelude::*;
use vstd::slice::slice_subrange;

use crate::float;
use crate::float::{FloatModel, FloatTexts, FloatValue};
use crate::text;

verus! {

pub const TAG_NONE: u8 = 0;

pub const TAG_STRING: u8 = 1;

pub const TAG_INT32: u8 = 2;

pub const TAG_FLOAT32: u8 = 3;

pub const TAG_POINTER: u8 = 4;

pub const TAG_WIDE_STRING: u8 = 5;

pub const TAG_COLOR: u8 = 6;

pub const TAG_UINT64: u8 = 7;

pub const TAG_END: u8 = 8;

/// Schema files nest maybe four or five levels deep in practice. This bound
/// exists purely so a corrupt file cannot drive the recursive parser into a
/// stack overflow.
pub const MAX_DEPTH: usize = 64;

/// The payload of a node.
#[derive(Debug, PartialEq)]
pub enum Value {
    /// A container node; the payload lives in [`KeyValue::children`].
    Container,
    String(String),
    Int32(i32),
    /// A real number by its bit pattern.
    Float32(u32),
    Pointer(u32),
    Color(u32),
    UInt64(u64),
}

/// One node of a document.
#[derive(Debug, PartialEq)]
pub struct KeyValue {
    pub name: String,
    pub value: Value,
    pub children: Vec<KeyValue>,
}

/// Why a document was rejected.
#[derive(Debug, Clone, PartialEq, Eq)]
pub enum Error {
    UnexpectedEof,
    UnknownType(u8),
    WideStringUnsupported,
    /// A NUL-terminated string ran off the end of the buffer.
    UnterminatedString,
    InvalidUtf8,
    /// The outermost container was closed but bytes remained.
    TrailingData,
    /// Nesting exceeded [`MAX_DEPTH`]; the file is malformed or hostile.
    DepthLimitExceeded,
}

/// What a [`Value`] says.
pub enum Datum {
    Container,
    String(Seq<char>),
    Int32(i32),
    Float32(u32),
    Pointer(u32),
    Color(u32),
    UInt64(u64),
}

/// What a [`KeyValue`] says.
pub struct Node {
    pub name: Seq<char>,
    pub value: Datum,
    pub children: Seq<Node>,
}

impl View for Value {
    type V = Datum;

    open spec fn view(&self) -> Datum {
        match *self {
            Value::Container => Datum::Container,
            Value::String(s) => Datum::String(s@),
            Value::Int32(v) => Datum::Int32(v),
            Value::Float32(v) => Datum::Float32(v),
            Value::Pointer(v) => Datum::Pointer(v),
            Value::Color(v) => Datum::Color(v),
            Value::UInt64(v) => Datum::UInt64(v),
        }
    }
}

impl KeyValue {
    /// The node and everything below it.
    pub open spec fn node(self) -> Node
        decreases self,
    {
        Node {
            name: self.name@,
            value: self.value@,
            children: Seq::new(
                self.children@.len(),
                |i: int|
                    if 0 <= i < self.children@.len() {
                        self.children@[i].node()
                    } else {
                        arbitrary()
                    },
            ),
        }
    }
}

impl View for KeyValue {
    type V = Node;

    open spec fn view(&self) -> Node {
        self.node()
    }
}

/// What a list of nodes says.
pub open spec fn nodes(list: Seq<KeyValue>) -> Seq<Node> {
    list.map_values(|kv: KeyValue| kv@)
}

impl Clone for Value {
    fn clone(&self) -> (r: Self)
        ensures
            r@ == self@,
    {
        match self {
            Value::Container => Value::Container,
            Value::String(s) => Value::String(s.clone()),
            Value::Int32(v) => Value::Int32(*v),
            Value::Float32(v) => Value::Float32(*v),
            Value::Pointer(v) => Value::Pointer(*v),
            Value::Color(v) => Value::Color(*v),
            Value::UInt64(v) => Value::UInt64(*v),
        }
    }
}

impl Clone for KeyValue {
    fn clone(&self) -> (r: Self)
        ensures
            r@ == self@,
        decreases *self,
    {
        let mut children: Vec<KeyValue> = Vec::new();
        for i in 0..self.children.len()
            invariant
                children@.len() == i,
                forall|k: int| 0 <= k < i ==> (#[trigger] children@[k])@ == self.children@[k]@,
        {
            children.push(self.children[i].clone());
        }
        let r = KeyValue { name: self.name.clone(), value: self.value.clone(), children };
        assert(r@.children =~= self@.children);
        r
    }
}

/// What an [`Error`] says in words.
pub open spec fn error_text(e: Error) -> Seq<char> {
    match e {
        Error::UnexpectedEof => "unexpected end of input"@,
        Error::UnknownType(t) => "unknown value type "@ + text::decimal(t as nat),
        Error::WideStringUnsupported => "wide strings are unsupported"@,
        Error::UnterminatedString => "unterminated string"@,
        Error::InvalidUtf8 => "invalid UTF-8 in string"@,
        Error::TrailingData => "trailing data after root container"@,
        Error::DepthLimitExceeded => "nesting depth limit exceeded"@,
    }
}

impl Error {
    /// The error in words.
    pub fn message(&self) -> (r: String)
        ensures
            r@ == error_text(*self),
    {
        match self {
            Error::UnexpectedEof => "unexpected end of input".to_owned(),
            Error::UnknownType(t) => {
                let mut s = "unknown value type ".to_owned();
                text::push_decimal(&mut s, *t as u64);
                s
            },
            Error::WideStringUnsupported => "wide strings are unsupported".to_owned(),
            Error::UnterminatedString => "unterminated string".to_owned(),
            Error::InvalidUtf8 => "invalid UTF-8 in string".to_owned(),
            Error::TrailingData => "trailing data after root container".to_owned(),
            Error::DepthLimitExceeded => "nesting depth limit exceeded".to_owned(),
        }
    }
}

/// The first position at or after `start` that holds a NUL, or the end.
pub open spec fn nul_from(data: Seq<u8>, start: int) -> int
    decreases data.len() - start,
{
    if start < 0 || start >= data.len() {
        data.len() as int
    } else if data[start] == 0 {
        start
    } else {
        nul_from(data, start + 1)
    }
}

/// Reads a NUL-terminated text; with it, the position behind the NUL.
pub open spec fn read_text(data: Seq<u8>, start: int) -> Result<(Seq<char>, int), Error> {
    let end = nul_from(data, start);
    if end >= data.len() {
        Err(Error::UnterminatedString)
    } else {
        Ok((text::text_of_bytes(data.subrange(start, end)), end + 1))
    }
}

/// The number that little-endian bytes denote.
pub open spec fn little_endian(bytes: Seq<u8>) -> nat
    decreases bytes.len(),
{
    if bytes.len() == 0 {
        0
    } else {
        bytes[0] as nat + 256 * little_endian(bytes.skip(1))
    }
}

/// The signed reading of 32 bits.
pub open spec fn signed_32(n: nat) -> int {
    if n < 0x8000_0000 {
        n as int
    } else {
        n - 0x1_0000_0000
    }
}

/// Reads an unsigned number of `size` bytes; with it, the position behind it.
pub open spec fn read_number(data: Seq<u8>, start: int, size: int) -> Result<(nat, int), Error> {
    if start + size > data.len() {
        Err(Error::UnexpectedEof)
    } else {
        Ok((little_endian(data.subrange(start, start + size)), start + size))
    }
}

/// Reads the payload of a node that is no container.
pub open spec fn read_scalar(data: Seq<u8>, tag: u8, start: int) -> Result<(Datum, int), Error> {
    if tag == TAG_STRING {
        match read_text(data, start) {
            Ok((s, next)) => Ok((Datum::String(s), next)),
            Err(e) => Err(e),
        }
    } else if tag == TAG_INT32 {
        match read_number(data, start, 4) {
            Ok((n, next)) => Ok((Datum::Int32(signed_32(n) as i32), next)),
            Err(e) => Err(e),
        }
    } else if tag == TAG_FLOAT32 {
        match read_number(data, start, 4) {
            Ok((n, next)) => Ok((Datum::Float32(n as u32), next)),
            Err(e) => Err(e),
        }
    } else if tag == TAG_POINTER {
        match read_number(data, start, 4) {
            Ok((n, next)) => Ok((Datum::Pointer(n as u32), next)),
            Err(e) => Err(e),
        }
    } else if tag == TAG_COLOR {
        match read_number(data, start, 4) {
            Ok((n, next)) => Ok((Datum::Color(n as u32), next)),
            Err(e) => Err(e),
        }
    } else if tag == TAG_UINT64 {
        match read_number(data, start, 8) {
            Ok((n, next)) => Ok((Datum::UInt64(n as u64), next)),
            Err(e) => Err(e),
        }
    } else if tag == TAG_WIDE_STRING {
        Err(Error::WideStringUnsupported)
    } else {
        Err(Error::UnknownType(tag))
    }
}

/// Reads nodes up to and with the End tag that closes their container, which
/// lies `depth` levels deep; with them, the position behind the tag.
///
/// What is read always ends behind where it began; the tests of that only make
/// plain that the reading comes to an end.
pub open spec fn read_children(data: Seq<u8>, pos: int, depth: nat) -> Result<
    (Seq<Node>, int),
    Error,
>
    decreases data.len() - pos,
{
    if depth > MAX_DEPTH {
        Err(Error::DepthLimitExceeded)
    } else if pos < 0 || pos >= data.len() {
        Err(Error::UnexpectedEof)
    } else if data[pos] == TAG_END {
        Ok((Seq::empty(), pos + 1))
    } else {
        match read_text(data, pos + 1) {
            Err(e) => Err(e),
            Ok((name, body)) => {
                let payload = if body <= pos {
                    Err(Error::UnexpectedEof)
                } else if data[pos] == TAG_NONE {
                    match read_children(data, body, depth + 1) {
                        Ok((inner, next)) => Ok((Datum::Container, inner, next)),
                        Err(e) => Err(e),
                    }
                } else {
                    match read_scalar(data, data[pos], body) {
                        Ok((value, next)) => Ok((value, Seq::<Node>::empty(), next)),
                        Err(e) => Err(e),
                    }
                };
                match payload {
                    Err(e) => Err(e),
                    Ok((value, inner, next)) => if next <= pos || next > data.len() {
                        Err(Error::UnexpectedEof)
                    } else {
                        match read_children(data, next, depth) {
                            Err(e) => Err(e),
                            Ok((rest, end)) => Ok(
                                (seq![Node { name, value, children: inner }] + rest, end),
                            ),
                        }
                    },
                }
            },
        }
    }
}

/// The root that a document's outermost nodes hang off.
pub open spec fn root_of(children: Seq<Node>) -> Node {
    Node { name: "<root>"@, value: Datum::Container, children }
}

/// What a document says.
///
/// Bytes behind the outermost container are an error unless they are NUL
/// padding, which some cached files carry.
pub open spec fn document(data: Seq<u8>) -> Result<Node, Error> {
    match read_children(data, 0, 0) {
        Err(e) => Err(e),
        Ok((children, end)) => if exists|i: int| end <= i < data.len() && data[i] != 0 {
            Err(Error::TrailingData)
        } else {
            Ok(root_of(children))
        },
    }
}

pub(crate) proof fn nul_from_bounds(data: Seq<u8>, start: int)
    requires
        0 <= start <= data.len(),
    ensures
        start <= nul_from(data, start) <= data.len(),
        nul_from(data, start) < data.len() ==> data[nul_from(data, start)] == 0,
        forall|i: int| start <= i < nul_from(data, start) ==> data[i] != 0,
    decreases data.len() - start,
{
    if start < data.len() && data[start] != 0 {
        nul_from_bounds(data, start + 1);
    }
}

/// Reading nodes moves on and stays inside the data.
pub(crate) proof fn read_children_bounds(data: Seq<u8>, pos: int, depth: nat)
    ensures
        read_children(data, pos, depth) matches Ok((_, end)) ==> pos < end <= data.len(),
    decreases data.len() - pos,
{
    if depth <= MAX_DEPTH && 0 <= pos < data.len() && data[pos] != TAG_END {
        nul_from_bounds(data, pos + 1);
        if let Ok((name, body)) = read_text(data, pos + 1) {
            if data[pos] == TAG_NONE {
                read_children_bounds(data, body, depth + 1);
                if let Ok((inner, next)) = read_children(data, body, depth + 1) {
                    read_children_bounds(data, next, depth);
                }
            } else if let Ok((value, next)) = read_scalar(data, data[pos], body) {
                nul_from_bounds(data, body);
                read_children_bounds(data, next, depth);
            }
        }
    }
}

/// A place in some bytes that are read from front to back.
pub struct Cursor<'a> {
    pub data: &'a [u8],
    pub pos: usize,
}

impl<'a> Cursor<'a> {
    /// The place lies in the bytes or right behind them.
    pub open spec fn valid(self) -> bool {
        self.pos <= self.data@.len()
    }

    /// The cursor stands at `pos` of the same data.
    pub open spec fn moved_to(self, old: Cursor<'a>, pos: int) -> bool {
        self.data == old.data && self.pos == pos
    }

    /// The next byte.
    pub fn u8(&mut self) -> (r: Result<u8, Error>)
        requires
            old(self).valid(),
        ensures
            final(self).valid(),
            match r {
                Ok(b) => old(self).pos < old(self).data@.len() && b
                    == old(self).data@[old(self).pos as int] && final(self).moved_to(
                    *old(self),
                    old(self).pos + 1,
                ),
                Err(e) => old(self).pos == old(self).data@.len() && e == Error::UnexpectedEof && final(self).moved_to(
                    *old(self),
                    old(self).pos as int,
                ),
            },
    {
        if self.pos >= self.data.len() {
            return Err(Error::UnexpectedEof);
        }
        let b = self.data[self.pos];
        self.pos = self.pos + 1;
        Ok(b)
    }

    /// The next `n` bytes.
    pub fn take(&mut self, n: usize) -> (r: Result<&'a [u8], Error>)
        requires
            old(self).valid(),
        ensures
            final(self).valid(),
            match r {
                Ok(b) => old(self).pos + n <= old(self).data@.len() && b@
                    == old(self).data@.subrange(old(self).pos as int, old(self).pos + n)
                    && final(self).moved_to(*old(self), old(self).pos + n),
                Err(e) => old(self).pos + n > old(self).data@.len() && e == Error::UnexpectedEof && final(self).moved_to(
                    *old(self),
                    old(self).pos as int,
                ),
            },
    {
        if n > self.data.len() - self.pos {
            return Err(Error::UnexpectedEof);
        }
        let b = slice_subrange(self.data, self.pos, self.pos + n);
        self.pos = self.pos + n;
        Ok(b)
    }

    /// The next four bytes as an unsigned number.
    pub fn u32(&mut self) -> (r: Result<u32, Error>)
        requires
            old(self).valid(),
        ensures
            final(self).valid(),
            match read_number(old(self).data@, old(self).pos as int, 4) {
                Ok((n, next)) => r == Ok::<u32, Error>(n as u32) && n <= u32::MAX
                    && final(self).moved_to(*old(self), next),
                Err(e) => r == Err::<u32, Error>(e) && final(self).moved_to(
                    *old(self),
                    old(self).pos as int,
                ),
            },
    {
        let b = self.take(4)?;
        proof {
            reveal_with_fuel(little_endian, 5);
            assert(b@.skip(1).skip(1) == b@.skip(2));
            assert(b@.skip(2).skip(1) == b@.skip(3));
            assert(b@.skip(3).skip(1) == b@.skip(4));
        }
        Ok(b[0] as u32 + 0x100 * (b[1] as u32) + 0x1_0000 * (b[2] as u32) + 0x100_0000 * (
        b[3] as u32))
    }

    /// The next four bytes as a signed number.
    pub fn i32(&mut self) -> (r: Result<i32, Error>)
        requires
            old(self).valid(),
        ensures
            final(self).valid(),
            match read_number(old(self).data@, old(self).pos as int, 4) {
                Ok((n, next)) => r == Ok::<i32, Error>(signed_32(n) as i32) && final(self).moved_to(
                    *old(self),
                    next,
                ),
                Err(e) => r == Err::<i32, Error>(e) && final(self).moved_to(
                    *old(self),
                    old(self).pos as int,
                ),
            },
    {
        let n = self.u32()?;
        Ok(as_signed(n))
    }

    /// The next eight bytes as an unsigned number.
    pub fn u64(&mut self) -> (r: Result<u64, Error>)
        requires
            old(self).valid(),
        ensures
            final(self).valid(),
            match read_number(old(self).data@, old(self).pos as int, 8) {
                Ok((n, next)) => r == Ok::<u64, Error>(n as u64) && n <= u64::MAX
                    && final(self).moved_to(*old(self), next),
                Err(e) => r == Err::<u64, Error>(e) && final(self).moved_to(
                    *old(self),
                    old(self).pos as int,
                ),
            },
    {
        let b = self.take(8)?;
        let mut n: u64 = 0;
        let mut i: usize = 8;
        assert(b@.skip(8) == Seq::<u8>::empty());
        while i > 0
            invariant
                i <= 8,
                b@.len() == 8,
                n == little_endian(b@.skip(i as int)),
                i == 8 ==> n < 1,
                i == 7 ==> n < 0x100,
                i == 6 ==> n < 0x1_0000,
                i == 5 ==> n < 0x100_0000,
                i == 4 ==> n < 0x1_0000_0000,
                i == 3 ==> n < 0x100_0000_0000,
                i == 2 ==> n < 0x1_0000_0000_0000,
                i == 1 ==> n < 0x100_0000_0000_0000,
            decreases i,
        {
            i = i - 1;
            assert(b@.skip(i as int).skip(1) == b@.skip(i + 1));
            n = b[i] as u64 + 0x100 * n;
        }
        assert(b@.skip(0) == b@);
        Ok(n)
    }

    /// NUL-terminated UTF-8. Steam occasionally emits text that is not strictly
    /// valid UTF-8 in localized display strings; it is salvaged rather than
    /// failing the whole schema.
    pub fn cstr(&mut self) -> (r: Result<String, Error>)
        requires
            old(self).valid(),
        ensures
            final(self).valid(),
            match read_text(old(self).data@, old(self).pos as int) {
                Ok((s, next)) => r matches Ok(t) && t@ == s && final(self).moved_to(
                    *old(self),
                    next,
                ),
                Err(e) => r matches Err(f) && e == f && final(self).moved_to(
                    *old(self),
                    old(self).pos as int,
                ),
            },
    {
        let start = self.pos;
        let mut end = start;
        while end < self.data.len() && self.data[end] != 0
            invariant
                start <= end <= self.data@.len(),
                nul_from(self.data@, start as int) == nul_from(self.data@, end as int),
                *self == *old(self),
            decreases self.data@.len() - end,
        {
            end = end + 1;
        }
        if end >= self.data.len() {
            return Err(Error::UnterminatedString);
        }
        let s = text::lossy_text(slice_subrange(self.data, start, end));
        self.pos = end + 1;
        Ok(s)
    }

    /// Whether nothing is left to read.
    pub fn at_end(&self) -> (r: bool)
        ensures
            r == (self.pos >= self.data@.len()),
    {
        self.pos >= self.data.len()
    }
}

/// The signed reading of 32 bits.
fn as_signed(n: u32) -> (r: i32)
    ensures
        r == signed_32(n as nat),
{
    if n < 0x8000_0000 {
        n as i32
    } else {
        (n as i64 - 0x1_0000_0000) as i32
    }
}

fn parse_children(cursor: &mut Cursor<'_>, depth: usize) -> (r: Result<Vec<KeyValue>, Error>)
    requires
        old(cursor).valid(),
        depth <= MAX_DEPTH + 1,
    ensures
        final(cursor).valid(),
        match read_children(old(cursor).data@, old(cursor).pos as int, depth as nat) {
            Ok((list, end)) => r matches Ok(children) && nodes(children@) == list
                && final(cursor).moved_to(*old(cursor), end),
            Err(e) => r matches Err(f) && e == f,
        },
    decreases MAX_DEPTH + 1 - depth,
{
    if depth > MAX_DEPTH {
        return Err(Error::DepthLimitExceeded);
    }
    let mut children: Vec<KeyValue> = Vec::new();
    let ghost data = cursor.data@;
    let ghost start = cursor.pos as int;
    assert(nodes(children@) == Seq::<Node>::empty());
    loop
        invariant
            cursor.valid(),
            depth <= MAX_DEPTH,
            data == cursor.data@,
            cursor.data == old(cursor).data,
            start == old(cursor).pos,
            read_children(data, start, depth as nat) == (match read_children(
                data,
                cursor.pos as int,
                depth as nat,
            ) {
                Ok((rest, end)) => Ok::<_, Error>((nodes(children@) + rest, end)),
                Err(e) => Err(e),
            }),
        decreases data.len() - cursor.pos,
    {
        let ghost pos = cursor.pos as int;
        let tag = cursor.u8()?;
        if tag == TAG_END {
            assert(nodes(children@) + Seq::<Node>::empty() == nodes(children@));
            return Ok(children);
        }
        proof {
            nul_from_bounds(data, pos + 1);
        }
        let name = cursor.cstr()?;
        let ghost body = cursor.pos as int;
        proof {
            nul_from_bounds(data, body);
            read_children_bounds(data, body, (depth + 1) as nat);
        }
        let (value, nested): (Value, Vec<KeyValue>) = match tag {
            TAG_NONE => (Value::Container, parse_children(cursor, depth + 1)?),
            TAG_STRING => (Value::String(cursor.cstr()?), Vec::new()),
            TAG_INT32 => (Value::Int32(cursor.i32()?), Vec::new()),
            TAG_FLOAT32 => (Value::Float32(cursor.u32()?), Vec::new()),
            TAG_POINTER => (Value::Pointer(cursor.u32()?), Vec::new()),
            TAG_COLOR => (Value::Color(cursor.u32()?), Vec::new()),
            TAG_UINT64 => (Value::UInt64(cursor.u64()?), Vec::new()),
            TAG_WIDE_STRING => {
                return Err(Error::WideStringUnsupported);
            },
            other => {
                return Err(Error::UnknownType(other));
            },
        };
        let ghost before = children@;
        let child = KeyValue { name, value, children: nested };
        let ghost node = child@;
        children.push(child);
        proof {
            assert(node.children == nodes(nested@));
            assert(tag != TAG_NONE ==> node.children == Seq::<Node>::empty());
            assert(read_children(data, pos, depth as nat) == (match read_children(
                data,
                cursor.pos as int,
                depth as nat,
            ) {
                Ok((rest, end)) => Ok::<_, Error>((seq![node] + rest, end)),
                Err(e) => Err(e),
            }));
            assert(nodes(children@) == nodes(before).push(node));
            if let Ok((rest, end)) = read_children(data, cursor.pos as int, depth as nat) {
                assert(nodes(before) + (seq![node] + rest) == nodes(children@) + rest);
            }
        }
    }
}

/// Parse a complete binary KeyValues document.
///
/// The returned root is a synthetic container named `<root>`; a schema file's
/// real content is its single child, keyed by the app ID as a decimal string.
pub fn parse(data: &[u8]) -> (r: Result<KeyValue, Error>)
    ensures
        match document(data@) {
            Ok(node) => r matches Ok(kv) && kv@ == node,
            Err(e) => r matches Err(f) && e == f,
        },
{
    let mut cursor = Cursor { data, pos: 0 };
    let children = parse_children(&mut cursor, 0)?;
    if !cursor.at_end() {
        let mut i = cursor.pos;
        while i < data.len()
            invariant
                cursor.pos <= i <= data@.len(),
                read_children(data@, 0, 0) == Ok::<_, Error>(
                    (nodes(children@), cursor.pos as int),
                ),
                forall|k: int| cursor.pos <= k < i ==> data@[k] == 0,
            decreases data@.len() - i,
        {
            if data[i] != 0 {
                return Err(Error::TrailingData);
            }
            i = i + 1;
        }
    }
    let root = KeyValue { name: "<root>".to_owned(), value: Value::Container, children };
    assert(root@.children == nodes(children@));
    Ok(root)
}

/// What a lookup that finds nothing answers: an empty node.
pub open spec fn missing() -> Node {
    Node { name: Seq::empty(), value: Datum::Container, children: Seq::empty() }
}

/// The first node of a list whose name is `key`, whatever the case of its
/// letters; an empty node where there is none.
pub open spec fn first_named(list: Seq<Node>, key: Seq<char>) -> Node
    decreases list.len(),
{
    if list.len() == 0 {
        missing()
    } else if text::same_ignoring_case(list[0].name, key) {
        list[0]
    } else {
        first_named(list.skip(1), key)
    }
}

/// The bit patterns of the real numbers in a list of nodes, in document order.
pub open spec fn patterns_in(list: Seq<Node>) -> Seq<u32>
    decreases list,
{
    if list.len() == 0 {
        Seq::empty()
    } else {
        patterns_in(list.drop_last()) + list.last().float_patterns()
    }
}

impl Node {
    /// The first child called `key`.
    pub open spec fn child(self, key: Seq<char>) -> Node {
        first_named(self.children, key)
    }

    /// Every child called `key`, in order.
    pub open spec fn all(self, key: Seq<char>) -> Seq<Node> {
        self.children.filter(|c: Node| text::same_ignoring_case(c.name, key))
    }

    /// The node came from a document: what a failed lookup answers has no name.
    pub open spec fn is_present(self) -> bool {
        self.name.len() > 0
    }

    /// The value as text, `default` standing in for a container's.
    pub open spec fn text_or(self, default: Seq<char>, texts: Map<u32, Seq<char>>) -> Seq<char> {
        match self.value {
            Datum::String(s) => s,
            Datum::Int32(v) => text::signed_decimal(v as int),
            Datum::Float32(bits) => float::text_of(texts, bits),
            Datum::Pointer(v) => text::decimal(v as nat),
            Datum::Color(v) => text::decimal(v as nat),
            Datum::UInt64(v) => text::decimal(v as nat),
            Datum::Container => default,
        }
    }

    /// The value as an `i32`. Text is read as a number, a real number loses its
    /// fraction, and of a `u64` the low half is taken.
    pub open spec fn i32_or(self, default: int) -> int {
        match self.value {
            Datum::String(s) => match text::read_i32(text::trimmed(s)) {
                Some(n) => n,
                None => default,
            },
            Datum::Int32(v) => v as int,
            Datum::Float32(bits) => float::as_i32(bits),
            Datum::UInt64(v) => signed_32(v as nat % 0x1_0000_0000),
            _ => default,
        }
    }

    /// The value as a real number.
    pub open spec fn float_or(self, default: u32) -> FloatModel {
        match self.value {
            Datum::String(s) => FloatModel::Text { text: text::trimmed(s), fallback: default },
            Datum::Int32(v) => FloatModel::Bits(float::nearest_signed(v as int) as u32),
            Datum::Float32(bits) => FloatModel::Bits(bits),
            Datum::UInt64(v) => FloatModel::Bits(
                float::nearest(v as nat % 0x1_0000_0000) as u32,
            ),
            _ => FloatModel::Bits(default),
        }
    }

    /// The value as a truth value: whether the number it holds is not zero.
    pub open spec fn bool_or(self, default: bool) -> bool {
        match self.value {
            Datum::String(s) => match text::read_i32(text::trimmed(s)) {
                Some(n) => n != 0,
                None => default,
            },
            Datum::Int32(v) => v != 0,
            Datum::Float32(bits) => float::as_i32(bits) != 0,
            Datum::UInt64(v) => v != 0,
            _ => default,
        }
    }

    /// The bit patterns of the real numbers in this node and below it, in
    /// document order.
    pub open spec fn float_patterns(self) -> Seq<u32>
        decreases self,
    {
        (match self.value {
            Datum::Float32(bits) => seq![bits],
            _ => Seq::empty(),
        }) + patterns_in(self.children)
    }
}

/// What looking a child up came to: the child, or nothing.
///
/// Lookups answer with this so that chained access such as
/// `kv.get("display").get("name")` never fails: a lookup in nothing finds
/// nothing, and nothing reads as an empty node.
#[derive(Clone, Copy)]
pub struct Lookup<'a> {
    pub found: Option<&'a KeyValue>,
}

impl<'a> View for Lookup<'a> {
    type V = Node;

    open spec fn view(&self) -> Node {
        match self.found {
            Some(kv) => kv@,
            None => missing(),
        }
    }
}

/// What a list of references to nodes says.
pub open spec fn referenced(list: Seq<&KeyValue>) -> Seq<Node> {
    list.map_values(|kv: &KeyValue| kv@)
}

impl KeyValue {
    /// Case-insensitive child lookup, by the rules of Unicode and in no language
    /// in particular. Answers with an empty node when the child is absent so
    /// accesses can be chained.
    pub fn get(&self, key: &str) -> (r: Lookup<'_>)
        ensures
            r@ == self@.child(key@),
    {
        let ghost list = self@.children;
        assert(list.skip(0) == list);
        for i in 0..self.children.len()
            invariant
                list == self@.children,
                first_named(list, key@) == first_named(list.skip(i as int), key@),
        {
            if text::eq_ignore_case(self.children[i].name.as_str(), key) {
                return Lookup { found: Some(&self.children[i]) };
            }
            assert(list.skip(i as int).skip(1) == list.skip(i + 1));
        }
        Lookup { found: None }
    }

    /// All children whose name matches, case-insensitively. The achievement
    /// block of a schema repeats the key `bits`, so a single-result lookup
    /// would drop achievements.
    pub fn get_all(&self, key: &str) -> (r: Vec<&KeyValue>)
        ensures
            referenced(r@) == self@.all(key@),
    {
        let ghost list = self@.children;
        let ghost called = |c: Node| text::same_ignoring_case(c.name, key@);
        let mut r: Vec<&KeyValue> = Vec::new();
        assert(list.take(0).filter(called) == Seq::<Node>::empty()) by {
            reveal(Seq::filter);
        }
        for i in 0..self.children.len()
            invariant
                list == self@.children,
                called == |c: Node| text::same_ignoring_case(c.name, key@),
                referenced(r@) == list.take(i as int).filter(called),
        {
            proof {
                assert(list.take(i + 1) == list.take(i as int).push(list[i as int]));
                list.take(i as int).lemma_filter_push(list[i as int], called);
            }
            let child = &self.children[i];
            let ghost before = r@;
            if text::eq_ignore_case(child.name.as_str(), key) {
                r.push(child);
                assert(referenced(r@) == referenced(before).push(child@));
            }
        }
        assert(list.take(list.len() as int) == list);
        r
    }

    /// True when this node came from a document rather than from a failed
    /// lookup. A container node is valid; only the answer to a failed lookup
    /// and empty names are not.
    pub fn is_valid(&self) -> (r: bool)
        ensures
            r == self@.is_present(),
    {
        !self.name.as_str().is_empty()
    }

    /// Whether the node holds children rather than a value.
    pub fn is_container(&self) -> (r: bool)
        ensures
            r == (self@.value == Datum::Container),
    {
        match &self.value {
            Value::Container => true,
            _ => false,
        }
    }

    /// The text of a string node.
    pub fn as_str(&self) -> (r: Option<&str>)
        ensures
            match self@.value {
                Datum::String(s) => r matches Some(t) && t@ == s,
                _ => r is None,
            },
    {
        match &self.value {
            Value::String(s) => Some(s.as_str()),
            _ => None,
        }
    }

    /// String coercion. Non-string scalars stringify; the text of a real number
    /// is the one that `texts` holds.
    pub fn as_string_or(&self, default: &str, texts: &FloatTexts) -> (r: String)
        ensures
            r@ == self@.text_or(default@, texts@),
    {
        match &self.value {
            Value::String(s) => s.clone(),
            Value::Int32(v) => text::signed_text(*v),
            Value::Float32(bits) => texts.text(*bits),
            Value::Pointer(v) => text::decimal_text(*v as u64),
            Value::Color(v) => text::decimal_text(*v as u64),
            Value::UInt64(v) => text::decimal_text(*v),
            Value::Container => default.to_owned(),
        }
    }

    /// Integer coercion. A string node is read as a decimal number, a real
    /// number truncates toward zero, and of a `u64` the low half is taken.
    pub fn as_i32_or(&self, default: i32) -> (r: i32)
        ensures
            r == self@.i32_or(default as int),
    {
        match &self.value {
            Value::String(s) => match text::parse_i32(text::trim(s.as_str()).as_str()) {
                Some(n) => n,
                None => default,
            },
            Value::Int32(v) => *v,
            Value::Float32(bits) => float::truncate(*bits),
            Value::UInt64(v) => as_signed((*v % 0x1_0000_0000) as u32),
            _ => default,
        }
    }

    /// Real-number coercion.
    pub fn as_f32_or(&self, default: u32) -> (r: FloatValue)
        ensures
            r@ == self@.float_or(default),
    {
        match &self.value {
            Value::String(s) => FloatValue::Text { text: text::trim(s.as_str()), fallback: default },
            Value::Int32(v) => FloatValue::Bits(float::from_signed(*v)),
            Value::Float32(bits) => FloatValue::Bits(*bits),
            Value::UInt64(v) => FloatValue::Bits(
                float::from_unsigned((*v % 0x1_0000_0000) as u32),
            ),
            _ => FloatValue::Bits(default),
        }
    }

    /// Boolean coercion: whether the number the node holds is not zero.
    pub fn as_bool_or(&self, default: bool) -> (r: bool)
        ensures
            r == self@.bool_or(default),
    {
        match &self.value {
            Value::String(s) => match text::parse_i32(text::trim(s.as_str()).as_str()) {
                Some(n) => n != 0,
                None => default,
            },
            Value::Int32(v) => *v != 0,
            Value::Float32(bits) => float::truncate(*bits) != 0,
            Value::UInt64(v) => *v != 0,
            _ => default,
        }
    }

    fn push_float_bits(&self, out: &mut Vec<u32>)
        ensures
            final(out)@ == old(out)@ + self@.float_patterns(),
        decreases *self,
    {
        let ghost before = out@;
        if let Value::Float32(bits) = &self.value {
            out.push(*bits);
        }
        let ghost own = out@;
        let ghost list = self@.children;
        assert(patterns_in(list.take(0)) == Seq::<u32>::empty());
        for i in 0..self.children.len()
            invariant
                list == self@.children,
                out@ == own + patterns_in(list.take(i as int)),
        {
            proof {
                assert(list.take(i + 1).drop_last() == list.take(i as int));
            }
            self.children[i].push_float_bits(out);
        }
        assert(list.take(list.len() as int) == list);
        assert(out@ =~= before + self@.float_patterns());
    }

    /// The bit patterns of every real number in this node and below it, in
    /// document order: those whose texts a caller enters in a [`FloatTexts`].
    pub fn float_bits(&self) -> (r: Vec<u32>)
        ensures
            r@ == self@.float_patterns(),
    {
        let mut out: Vec<u32> = Vec::new();
        self.push_float_bits(&mut out);
        out
    }
}

impl<'a> Lookup<'a> {
    /// Looks a child up in what was found.
    pub fn get(self, key: &str) -> (r: Lookup<'a>)
        ensures
            r@ == self@.child(key@),
    {
        match self.found {
            Some(kv) => kv.get(key),
            None => Lookup { found: None },
        }
    }

    /// Every child of that name in what was found.
    pub fn get_all(self, key: &str) -> (r: Vec<&'a KeyValue>)
        ensures
            referenced(r@) == self@.all(key@),
    {
        match self.found {
            Some(kv) => kv.get_all(key),
            None => {
                reveal(Seq::filter);
                Vec::new()
            },
        }
    }

    /// Whether a node with a name was found.
    pub fn is_valid(self) -> (r: bool)
        ensures
            r == self@.is_present(),
    {
        match self.found {
            Some(kv) => kv.is_valid(),
            None => false,
        }
    }

    /// Whether what was found holds children rather than a value.
    pub fn is_container(self) -> (r: bool)
        ensures
            r == (self@.value == Datum::Container),
    {
        match self.found {
            Some(kv) => kv.is_container(),
            None => true,
        }
    }

    /// The text of a string node.
    pub fn as_str(self) -> (r: Option<&'a str>)
        ensures
            match self@.value {
                Datum::String(s) => r matches Some(t) && t@ == s,
                _ => r is None,
            },
    {
        match self.found {
            Some(kv) => kv.as_str(),
            None => None,
        }
    }

    /// String coercion.
    pub fn as_string_or(self, default: &str, texts: &FloatTexts) -> (r: String)
        ensures
            r@ == self@.text_or(default@, texts@),
    {
        match self.found {
            Some(kv) => kv.as_string_or(default, texts),
            None => default.to_owned(),
        }
    }

    /// Integer coercion.
    pub fn as_i32_or(self, default: i32) -> (r: i32)
        ensures
            r == self@.i32_or(default as int),
    {
        match self.found {
            Some(kv) => kv.as_i32_or(default),
            None => default,
        }
    }

    /// Real-number coercion.
    pub fn as_f32_or(self, default: u32) -> (r: FloatValue)
        ensures
            r@ == self@.float_or(default),
    {
        match self.found {
            Some(kv) => kv.as_f32_or(default),
            None => FloatValue::Bits(default),
        }
    }

    /// Boolean coercion.
    pub fn as_bool_or(self, default: bool) -> (r: bool)
        ensures
            r == self@.bool_or(default),
    {
        match self.found {
            Some(kv) => kv.as_bool_or(default),
            None => default,
        }
    }
}

} // verus!
