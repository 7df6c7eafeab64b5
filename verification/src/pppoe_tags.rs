//! PPPoE discovery tags (RFC 2516, section 5): type-length-value records.
use vstd::prelude::*;

use crate::bytes::{be16, be16_value, be32, be32_value, copy_range, push_all, push_be16, push_be32, read_be16, read_be32};

verus! {

pub const TAG_SERVICE_NAME: u16 = 0x0101;
pub const TAG_AC_NAME: u16 = 0x0102;
pub const TAG_HOST_UNIQ: u16 = 0x0103;
pub const TAG_AC_COOKIE: u16 = 0x0104;

/// One PPPoE discovery tag.
#[derive(Debug, Clone)]
pub enum PPPoETag {
    ServiceName(Vec<u8>),
    AcName(Vec<u8>),
    /// A Host-Uniq whose value is four bytes, read as a big-endian number.
    HostUniq(u32),
    AcCookie(Vec<u8>),
    /// Any other tag, with its type and raw value.
    Other(u16, Vec<u8>),
}

/// The abstract content of a tag.
pub enum TagValue {
    ServiceName(Seq<u8>),
    AcName(Seq<u8>),
    HostUniq(u32),
    AcCookie(Seq<u8>),
    Other(u16, Seq<u8>),
}

impl View for PPPoETag {
    type V = TagValue;

    open spec fn view(&self) -> TagValue {
        match self {
            PPPoETag::ServiceName(v) => TagValue::ServiceName(v@),
            PPPoETag::AcName(v) => TagValue::AcName(v@),
            PPPoETag::HostUniq(x) => TagValue::HostUniq(*x),
            PPPoETag::AcCookie(v) => TagValue::AcCookie(v@),
            PPPoETag::Other(t, v) => TagValue::Other(*t, v@),
        }
    }
}

/// The type field and value bytes of a tag.
pub open spec fn tag_type_and_value(t: TagValue) -> (u16, Seq<u8>) {
    match t {
        TagValue::ServiceName(v) => (TAG_SERVICE_NAME, v),
        TagValue::AcName(v) => (TAG_AC_NAME, v),
        TagValue::HostUniq(x) => (TAG_HOST_UNIQ, be32(x)),
        TagValue::AcCookie(v) => (TAG_AC_COOKIE, v),
        TagValue::Other(ty, v) => (ty, v),
    }
}

/// The wire bytes of a tag: type, length (wrapping like `as u16`), value.
pub open spec fn tag_wire(t: TagValue) -> Seq<u8> {
    let (ty, v) = tag_type_and_value(t);
    be16(ty) + be16((v.len() % 65536) as u16) + v
}

/// The tag that a record with type `ty` and value `v` is read as.
pub open spec fn classify_tag(ty: u16, v: Seq<u8>) -> TagValue {
    if ty == TAG_SERVICE_NAME {
        TagValue::ServiceName(v)
    } else if ty == TAG_AC_NAME {
        TagValue::AcName(v)
    } else if ty == TAG_HOST_UNIQ && v.len() == 4 {
        TagValue::HostUniq(be32_value(v[0], v[1], v[2], v[3]))
    } else if ty == TAG_AC_COOKIE {
        TagValue::AcCookie(v)
    } else {
        TagValue::Other(ty, v)
    }
}

/// The tags held in `d`, read front to back; reading stops at the first
/// record that is truncated.
pub open spec fn parse_tags(d: Seq<u8>) -> Seq<TagValue>
    decreases d.len(),
{
    if d.len() < 4 {
        seq![]
    } else {
        let n = be16_value(d[2], d[3]) as int;
        if 4 + n > d.len() {
            seq![]
        } else {
            seq![classify_tag(be16_value(d[0], d[1]), d.subrange(4, 4 + n))] + parse_tags(
                d.subrange(4 + n, d.len() as int),
            )
        }
    }
}

/// A tag that reads back as itself: its value fits the length field and an
/// `Other` tag does not carry a type (and length) that reading would name.
pub open spec fn tag_is_canonical(t: TagValue) -> bool {
    &&& tag_type_and_value(t).1.len() <= u16::MAX
    &&& t matches TagValue::Other(ty, v) ==> {
        &&& ty != TAG_SERVICE_NAME
        &&& ty != TAG_AC_NAME
        &&& ty != TAG_AC_COOKIE
        &&& !(ty == TAG_HOST_UNIQ && v.len() == 4)
    }
}

impl PPPoETag {
    /// The wire bytes of this tag (type, length, value).
    pub fn decode_options(&self) -> (r: Vec<u8>)
        ensures
            r@ == tag_wire(self@),
    {
        let mut r: Vec<u8> = Vec::new();
        match self {
            PPPoETag::ServiceName(v) => {
                push_be16(&mut r, TAG_SERVICE_NAME);
                push_be16(&mut r, (v.len() % 65536) as u16);
                push_all(&mut r, v.as_slice());
            },
            PPPoETag::AcName(v) => {
                push_be16(&mut r, TAG_AC_NAME);
                push_be16(&mut r, (v.len() % 65536) as u16);
                push_all(&mut r, v.as_slice());
            },
            PPPoETag::HostUniq(x) => {
                push_be16(&mut r, TAG_HOST_UNIQ);
                push_be16(&mut r, 4);
                push_be32(&mut r, *x);
            },
            PPPoETag::AcCookie(v) => {
                push_be16(&mut r, TAG_AC_COOKIE);
                push_be16(&mut r, (v.len() % 65536) as u16);
                push_all(&mut r, v.as_slice());
            },
            PPPoETag::Other(t, v) => {
                push_be16(&mut r, *t);
                push_be16(&mut r, (v.len() % 65536) as u16);
                push_all(&mut r, v.as_slice());
            },
        }
        r
    }

    fn from_record(ty: u16, v: Vec<u8>) -> (r: PPPoETag)
        ensures
            r@ == classify_tag(ty, v@),
    {
        if ty == TAG_SERVICE_NAME {
            PPPoETag::ServiceName(v)
        } else if ty == TAG_AC_NAME {
            PPPoETag::AcName(v)
        } else if ty == TAG_HOST_UNIQ && v.len() == 4 {
            PPPoETag::HostUniq(read_be32(v.as_slice(), 0))
        } else if ty == TAG_AC_COOKIE {
            PPPoETag::AcCookie(v)
        } else {
            PPPoETag::Other(ty, v)
        }
    }

    /// Reads the tags held in `data`, stopping at the first truncated record.
    pub fn from_bytes(data: &[u8]) -> (r: Vec<PPPoETag>)
        ensures
            r@.map_values(|t: PPPoETag| t@) == parse_tags(data@),
    {
        let mut r: Vec<PPPoETag> = Vec::new();
        let mut pos: usize = 0;
        assert(data@.subrange(0, data@.len() as int) =~= data@);
        while data.len() - pos >= 4
            invariant
                pos <= data@.len(),
                r@.map_values(|t: PPPoETag| t@) + parse_tags(data@.subrange(pos as int, data@.len() as int))
                    == parse_tags(data@),
            decreases data@.len() - pos,
        {
            let ghost rest = data@.subrange(pos as int, data@.len() as int);
            let ty = read_be16(data, pos);
            let n = read_be16(data, pos + 2) as usize;
            assert(rest[0] == data@[pos as int] && rest[1] == data@[pos + 1]);
            assert(rest[2] == data@[pos + 2] && rest[3] == data@[pos + 3]);
            if n > data.len() - pos - 4 {
                assert(parse_tags(rest) =~= seq![]);
                assert(r@.map_values(|t: PPPoETag| t@) =~= parse_tags(data@));
                return r;
            }
            let v = copy_range(data, pos + 4, pos + 4 + n);
            assert(v@ =~= rest.subrange(4, 4 + n as int));
            let tag = Self::from_record(ty, v);
            let ghost before = r@.map_values(|t: PPPoETag| t@);
            r.push(tag);
            assert(r@.map_values(|t: PPPoETag| t@) =~= before.push(tag@));
            assert(rest.subrange(4 + n as int, rest.len() as int) =~= data@.subrange(
                (pos + 4 + n) as int,
                data@.len() as int,
            ));
            pos = pos + 4 + n;
            assert(r@.map_values(|t: PPPoETag| t@) + parse_tags(
                data@.subrange(pos as int, data@.len() as int),
            ) =~= parse_tags(data@));
        }
        assert(parse_tags(data@.subrange(pos as int, data@.len() as int)) =~= seq![]);
        assert(r@.map_values(|t: PPPoETag| t@) =~= parse_tags(data@));
        r
    }
}

/// A canonical tag written in front of other bytes reads back as itself,
/// followed by the tags of the remaining bytes.
pub proof fn lemma_tag_write_then_read(t: TagValue, rest: Seq<u8>)
    requires
        tag_is_canonical(t),
    ensures
        parse_tags(tag_wire(t) + rest) == seq![t] + parse_tags(rest),
{
    let (ty, v) = tag_type_and_value(t);
    let d = tag_wire(t) + rest;
    crate::bytes::lemma_be16_roundtrip(ty);
    crate::bytes::lemma_be16_roundtrip((v.len() % 65536) as u16);
    assert(d[0] == be16(ty)[0] && d[1] == be16(ty)[1]);
    assert(d[2] == be16((v.len() % 65536) as u16)[0] && d[3] == be16((v.len() % 65536) as u16)[1]);
    assert(d.subrange(4, 4 + v.len() as int) =~= v);
    assert(d.subrange(4 + v.len() as int, d.len() as int) =~= rest);
    if let TagValue::HostUniq(x) = t {
        crate::bytes::lemma_be32_roundtrip(x);
    }
    assert(classify_tag(ty, v) == t);
}

} // verus!
