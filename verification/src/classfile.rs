//! A minimal JVM classfile reader: just enough structure (access flags,
//! constant pool, fields, attributes and annotations) to answer "is this an
//! enum, and if so what are its members and markers".

use vstd::prelude::*;
use vstd::string::StringExecFns;
use vstd::utf8::{valid_utf8, decode_utf8};
use crate::errors::ClassfileError;

verus! {

/// What the extractor learned about one enum classfile.
#[derive(Debug, PartialEq, Eq)]
pub struct EnumInfo {
    /// Fully-qualified internal name, slash-separated (`com/foo/Bar`).
    pub class_name: String,
    /// Declared enum constant names, in classfile field declaration order.
    pub members: Vec<String>,
    /// Whether the class carries the tracked marker annotation.
    pub avro_generated: bool,
}

/// The mathematical shape of an [`EnumInfo`].
pub struct EnumInfoView {
    pub class_name: Seq<char>,
    pub members: Seq<Seq<char>>,
    pub avro_generated: bool,
}

impl View for EnumInfo {
    type V = EnumInfoView;

    open spec fn view(&self) -> EnumInfoView {
        EnumInfoView {
            class_name: self.class_name@,
            members: self.members@.map_values(|m: String| m@),
            avro_generated: self.avro_generated,
        }
    }
}

/// The class access flag marking an enum type.
pub const ACC_ENUM: u16 = 0x4000;

/// The field access flags that an enum constant must all carry:
/// public, static and final.
pub const ENUM_MEMBER_FLAGS: u16 = 0x0019;

/// The descriptor of the tracked marker annotation type.
pub open spec fn marker_descriptor() -> Seq<char> {
    "Lorg/apache/avro/specific/AvroGenerated;"@
}

/// The field descriptor denoting "an instance of the class named `name`".
pub open spec fn self_descriptor(name: Seq<char>) -> Seq<char> {
    "L"@ + name + ";"@
}

/// The big-endian 16-bit integer at `pos`; meaningful when `pos + 2 <= b.len()`.
pub open spec fn su16(b: Seq<u8>, pos: int) -> u16 {
    (b[pos] * 256 + b[pos + 1]) as u16
}

/// The big-endian 32-bit integer at `pos`; meaningful when `pos + 4 <= b.len()`.
pub open spec fn su32(b: Seq<u8>, pos: int) -> u32 {
    (b[pos] * 16777216 + b[pos + 1] * 65536 + b[pos + 2] * 256 + b[pos + 3]) as u32
}

/// One constant-pool slot, reduced to what the extractor reads: text
/// constants, class references, and everything else.
pub enum CpEntry {
    Utf8(Vec<u8>),
    ClassRef(u16),
    Other,
}

/// The mathematical shape of a [`CpEntry`].
pub enum CpEntryView {
    Utf8(Seq<u8>),
    ClassRef(int),
    Other,
}

impl View for CpEntry {
    type V = CpEntryView;

    open spec fn view(&self) -> CpEntryView {
        match self {
            CpEntry::Utf8(v) => CpEntryView::Utf8(v@),
            CpEntry::ClassRef(i) => CpEntryView::ClassRef(*i as int),
            CpEntry::Other => CpEntryView::Other,
        }
    }
}

/// The text constant at pool index `idx` (pool indices are 1-based).
pub open spec fn pool_utf8(pool: Seq<CpEntryView>, idx: int) -> Result<
    Seq<u8>,
    ClassfileError,
> {
    if 1 <= idx && idx <= pool.len() {
        match pool[idx - 1] {
            CpEntryView::Utf8(s) => Ok(s),
            _ => Err(ClassfileError::BadPoolIndex),
        }
    } else {
        Err(ClassfileError::BadPoolIndex)
    }
}

/// The name index of the class constant at pool index `idx`.
pub open spec fn pool_class(pool: Seq<CpEntryView>, idx: int) -> Result<
    int,
    ClassfileError,
> {
    if 1 <= idx && idx <= pool.len() {
        match pool[idx - 1] {
            CpEntryView::ClassRef(n) => Ok(n),
            _ => Err(ClassfileError::BadPoolIndex),
        }
    } else {
        Err(ClassfileError::BadPoolIndex)
    }
}

/// Parse `remaining` constant-pool slots starting at `pos`, yielding the
/// slots and the position just past the pool. A wide constant (long or
/// double) takes two slots.
pub open spec fn parse_cp_items(b: Seq<u8>, pos: int, remaining: nat) -> Result<
    (Seq<CpEntryView>, int),
    ClassfileError,
>
    decreases remaining,
{
    if remaining == 0 {
        Ok((Seq::empty(), pos))
    } else if pos + 1 > b.len() {
        Err(ClassfileError::Truncated)
    } else {
        let tag = b[pos];
        if tag == 1 {
            if pos + 3 > b.len() {
                Err(ClassfileError::Truncated)
            } else {
                let l = su16(b, pos + 1) as int;
                if pos + 3 + l > b.len() {
                    Err(ClassfileError::Truncated)
                } else {
                    match parse_cp_items(b, pos + 3 + l, (remaining - 1) as nat) {
                        Ok((rest, end)) => Ok(
                            (
                                seq![CpEntryView::Utf8(b.subrange(pos + 3, pos + 3 + l))]
                                    + rest,
                                end,
                            ),
                        ),
                        Err(e) => Err(e),
                    }
                }
            }
        } else if tag == 7 {
            if pos + 3 > b.len() {
                Err(ClassfileError::Truncated)
            } else {
                match parse_cp_items(b, pos + 3, (remaining - 1) as nat) {
                    Ok((rest, end)) => Ok(
                        (seq![CpEntryView::ClassRef(su16(b, pos + 1) as int)] + rest, end),
                    ),
                    Err(e) => Err(e),
                }
            }
        } else if tag == 8 || tag == 16 || tag == 19 || tag == 20 {
            if pos + 3 > b.len() {
                Err(ClassfileError::Truncated)
            } else {
                match parse_cp_items(b, pos + 3, (remaining - 1) as nat) {
                    Ok((rest, end)) => Ok((seq![CpEntryView::Other] + rest, end)),
                    Err(e) => Err(e),
                }
            }
        } else if tag == 3 || tag == 4 || tag == 9 || tag == 10 || tag == 11 || tag == 12
            || tag == 17 || tag == 18 {
            if pos + 5 > b.len() {
                Err(ClassfileError::Truncated)
            } else {
                match parse_cp_items(b, pos + 5, (remaining - 1) as nat) {
                    Ok((rest, end)) => Ok((seq![CpEntryView::Other] + rest, end)),
                    Err(e) => Err(e),
                }
            }
        } else if tag == 15 {
            if pos + 4 > b.len() {
                Err(ClassfileError::Truncated)
            } else {
                match parse_cp_items(b, pos + 4, (remaining - 1) as nat) {
                    Ok((rest, end)) => Ok((seq![CpEntryView::Other] + rest, end)),
                    Err(e) => Err(e),
                }
            }
        } else if tag == 5 || tag == 6 {
            if remaining < 2 {
                Err(ClassfileError::Truncated)
            } else if pos + 9 > b.len() {
                Err(ClassfileError::Truncated)
            } else {
                match parse_cp_items(b, pos + 9, (remaining - 2) as nat) {
                    Ok((rest, end)) => Ok(
                        (seq![CpEntryView::Other, CpEntryView::Other] + rest, end),
                    ),
                    Err(e) => Err(e),
                }
            }
        } else {
            Err(ClassfileError::UnknownPoolTag)
        }
    }
}

/// Skip `count` attributes (each: a name index, a length, and that many
/// content bytes) starting at `pos`, yielding the position just past them.
pub open spec fn skip_attrs(b: Seq<u8>, pos: int, count: nat) -> Result<
    int,
    ClassfileError,
>
    decreases count,
{
    if count == 0 {
        Ok(pos)
    } else if pos + 6 > b.len() {
        Err(ClassfileError::Truncated)
    } else {
        let l = su32(b, pos + 2) as int;
        if pos + 6 + l > b.len() {
            Err(ClassfileError::Truncated)
        } else {
            skip_attrs(b, pos + 6 + l, (count - 1) as nat)
        }
    }
}

/// Does `desc` denote an instance of the class named `name`? True iff the
/// descriptor bytes decode to `L<name>;`.
pub open spec fn desc_matches(desc: Seq<u8>, name: Seq<char>) -> bool {
    valid_utf8(desc) && decode_utf8(desc) == self_descriptor(name)
}

/// Walk `count` declared fields starting at `pos`. A field counts as an enum
/// constant iff its access flags include public, static and final, and its
/// descriptor equals the self-type descriptor of the class named `name`.
/// Yields the matching field names in declaration order, and the position
/// just past the field section.
pub open spec fn parse_fields(
    b: Seq<u8>,
    pos: int,
    count: nat,
    pool: Seq<CpEntryView>,
    name: Seq<char>,
) -> Result<(Seq<Seq<char>>, int), ClassfileError>
    decreases count,
{
    if count == 0 {
        Ok((Seq::empty(), pos))
    } else if pos + 8 > b.len() {
        Err(ClassfileError::Truncated)
    } else {
        let flags = su16(b, pos);
        let name_idx = su16(b, pos + 2) as int;
        let desc_idx = su16(b, pos + 4) as int;
        let attr_count = su16(b, pos + 6) as nat;
        match skip_attrs(b, pos + 8, attr_count) {
            Err(e) => Err(e),
            Ok(fend) => {
                if flags & ENUM_MEMBER_FLAGS == ENUM_MEMBER_FLAGS {
                    match pool_utf8(pool, name_idx) {
                        Err(e) => Err(e),
                        Ok(nb) => match pool_utf8(pool, desc_idx) {
                            Err(e) => Err(e),
                            Ok(db) => {
                                if desc_matches(db, name) {
                                    if !valid_utf8(nb) {
                                        Err(ClassfileError::BadUtf8)
                                    } else {
                                        match parse_fields(
                                            b,
                                            fend,
                                            (count - 1) as nat,
                                            pool,
                                            name,
                                        ) {
                                            Ok((rest, end)) => Ok(
                                                (seq![decode_utf8(nb)] + rest, end),
                                            ),
                                            Err(e) => Err(e),
                                        }
                                    }
                                } else {
                                    parse_fields(b, fend, (count - 1) as nat, pool, name)
                                }
                            },
                        },
                    }
                } else {
                    parse_fields(b, fend, (count - 1) as nat, pool, name)
                }
            },
        }
    }
}

/// Skip `count` member declarations (fields or methods: six header bytes,
/// an attribute count, and the attributes) starting at `pos`.
pub open spec fn skip_members(b: Seq<u8>, pos: int, count: nat) -> Result<
    int,
    ClassfileError,
>
    decreases count,
{
    if count == 0 {
        Ok(pos)
    } else if pos + 8 > b.len() {
        Err(ClassfileError::Truncated)
    } else {
        let attr_count = su16(b, pos + 6) as nat;
        match skip_attrs(b, pos + 8, attr_count) {
            Err(e) => Err(e),
            Ok(mend) => skip_members(b, mend, (count - 1) as nat),
        }
    }
}

/// Skip one annotation element value starting at `pos`, staying inside
/// `[pos, end)`; yields the position just past it.
pub open spec fn skip_element_value(b: Seq<u8>, pos: int, end: int) -> Result<
    int,
    ClassfileError,
>
    decreases end - pos, 0int,
{
    if pos >= end {
        Err(ClassfileError::Truncated)
    } else {
        let tag = b[pos];
        if tag == 64 {
            // a nested annotation
            skip_annotation(b, pos + 1, end)
        } else if tag == 91 {
            // an array of element values
            if pos + 3 > end {
                Err(ClassfileError::Truncated)
            } else {
                skip_element_values(b, pos + 3, end, su16(b, pos + 1) as int)
            }
        } else if tag == 101 {
            // an enum constant: type index and constant index
            if pos + 5 > end {
                Err(ClassfileError::Truncated)
            } else {
                Ok(pos + 5)
            }
        } else if tag == 66 || tag == 67 || tag == 68 || tag == 70 || tag == 73
            || tag == 74 || tag == 83 || tag == 90 || tag == 115 || tag == 99 {
            // a primitive constant, a string, or a class reference
            if pos + 3 > end {
                Err(ClassfileError::Truncated)
            } else {
                Ok(pos + 3)
            }
        } else {
            Err(ClassfileError::MalformedAttribute)
        }
    }
}

/// Skip one annotation (type index, pair count, pairs) starting at `pos`.
pub open spec fn skip_annotation(b: Seq<u8>, pos: int, end: int) -> Result<
    int,
    ClassfileError,
>
    decreases end - pos, 0int,
{
    if pos + 4 > end {
        Err(ClassfileError::Truncated)
    } else {
        skip_element_pairs(b, pos + 4, end, su16(b, pos + 2) as int)
    }
}

/// Skip `count` element-value pairs (element name index and value) starting
/// at `pos`.
pub open spec fn skip_element_pairs(b: Seq<u8>, pos: int, end: int, count: int) -> Result<
    int,
    ClassfileError,
>
    decreases end - pos, 1int,
{
    if count <= 0 {
        Ok(pos)
    } else if pos + 2 > end {
        Err(ClassfileError::Truncated)
    } else {
        match skip_element_value(b, pos + 2, end) {
            Err(e) => Err(e),
            Ok(p2) => {
                if p2 <= pos || p2 > end {
                    Err(ClassfileError::Truncated)
                } else {
                    skip_element_pairs(b, p2, end, count - 1)
                }
            },
        }
    }
}

/// Skip `count` element values starting at `pos`.
pub open spec fn skip_element_values(b: Seq<u8>, pos: int, end: int, count: int) -> Result<
    int,
    ClassfileError,
>
    decreases end - pos, 1int,
{
    if count <= 0 {
        Ok(pos)
    } else {
        match skip_element_value(b, pos, end) {
            Err(e) => Err(e),
            Ok(p2) => {
                if p2 <= pos || p2 > end {
                    Err(ClassfileError::Truncated)
                } else {
                    skip_element_values(b, p2, end, count - 1)
                }
            },
        }
    }
}

/// Walk `count` annotations starting at `pos`, resolving each annotation's
/// type descriptor through the pool; yields the decoded descriptors in order
/// and the position just past the annotations.
pub open spec fn parse_annotations(
    b: Seq<u8>,
    pos: int,
    end: int,
    count: int,
    pool: Seq<CpEntryView>,
) -> Result<(Seq<Seq<char>>, int), ClassfileError>
    decreases end - pos, 2int,
{
    if count <= 0 {
        Ok((Seq::empty(), pos))
    } else if pos + 4 > end {
        Err(ClassfileError::Truncated)
    } else {
        let type_idx = su16(b, pos) as int;
        match skip_element_pairs(b, pos + 4, end, su16(b, pos + 2) as int) {
            Err(e) => Err(e),
            Ok(p2) => {
                if p2 <= pos || p2 > end {
                    Err(ClassfileError::Truncated)
                } else {
                    match pool_utf8(pool, type_idx) {
                        Err(e) => Err(e),
                        Ok(tb) => {
                            if !valid_utf8(tb) {
                                Err(ClassfileError::BadUtf8)
                            } else {
                                match parse_annotations(b, p2, end, count - 1, pool) {
                                    Ok((rest, e2)) => Ok(
                                        (seq![decode_utf8(tb)] + rest, e2),
                                    ),
                                    Err(e) => Err(e),
                                }
                            }
                        },
                    }
                }
            },
        }
    }
}

/// Is `nb` the name of a runtime-visible or runtime-invisible annotations
/// attribute? Both visibilities count.
pub open spec fn is_annotations_attr(nb: Seq<u8>) -> bool {
    valid_utf8(nb) && (decode_utf8(nb) == "RuntimeVisibleAnnotations"@
        || decode_utf8(nb) == "RuntimeInvisibleAnnotations"@)
}

/// Walk `count` class attributes starting at `pos`, collecting the decoded
/// type descriptors of every annotation held by an annotations attribute of
/// either visibility, in order; other attributes are skipped by length.
pub open spec fn parse_class_attrs(
    b: Seq<u8>,
    pos: int,
    count: nat,
    pool: Seq<CpEntryView>,
) -> Result<(Seq<Seq<char>>, int), ClassfileError>
    decreases count,
{
    if count == 0 {
        Ok((Seq::empty(), pos))
    } else if pos + 6 > b.len() {
        Err(ClassfileError::Truncated)
    } else {
        let name_idx = su16(b, pos) as int;
        let l = su32(b, pos + 2) as int;
        if pos + 6 + l > b.len() {
            Err(ClassfileError::Truncated)
        } else {
            match pool_utf8(pool, name_idx) {
                Err(e) => Err(e),
                Ok(nb) => {
                    if is_annotations_attr(nb) {
                        let end = pos + 6 + l;
                        if pos + 8 > end {
                            Err(ClassfileError::Truncated)
                        } else {
                            match parse_annotations(
                                b,
                                pos + 8,
                                end,
                                su16(b, pos + 6) as int,
                                pool,
                            ) {
                                Err(e) => Err(e),
                                Ok((types, _)) => match parse_class_attrs(
                                    b,
                                    pos + 6 + l,
                                    (count - 1) as nat,
                                    pool,
                                ) {
                                    Ok((rest, e2)) => Ok((types + rest, e2)),
                                    Err(e) => Err(e),
                                },
                            }
                        }
                    } else {
                        parse_class_attrs(b, pos + 6 + l, (count - 1) as nat, pool)
                    }
                },
            }
        }
    }
}

/// What extracting from the classfile bytes `b` yields: `Ok(None)` for a
/// well-formed-enough non-enum class, `Ok(Some(info))` for an enum, and the
/// first error the reader runs into otherwise. The member rule and the
/// marker rule are those of [`parse_fields`] and [`parse_class_attrs`].
pub open spec fn spec_extract(b: Seq<u8>) -> Result<Option<EnumInfoView>, ClassfileError> {
    if b.len() < 10 {
        Err(ClassfileError::Truncated)
    } else if !(b[0] == 0xca && b[1] == 0xfe && b[2] == 0xba && b[3] == 0xbe) {
        Err(ClassfileError::BadMagic)
    } else {
        let cpc = su16(b, 8) as int;
        if cpc < 1 {
            Err(ClassfileError::Truncated)
        } else {
            match parse_cp_items(b, 10, (cpc - 1) as nat) {
                Err(e) => Err(e),
                Ok((pool, p0)) => {
                    if p0 + 2 > b.len() {
                        Err(ClassfileError::Truncated)
                    } else if su16(b, p0) & ACC_ENUM == 0 {
                        Ok(None)
                    } else if p0 + 8 > b.len() {
                        Err(ClassfileError::Truncated)
                    } else {
                        match pool_class(pool, su16(b, p0 + 2) as int) {
                            Err(e) => Err(e),
                            Ok(name_idx) => match pool_utf8(pool, name_idx) {
                                Err(e) => Err(e),
                                Ok(nb) => {
                                    if !valid_utf8(nb) {
                                        Err(ClassfileError::BadUtf8)
                                    } else {
                                        spec_extract_members(b, p0, decode_utf8(nb), pool)
                                    }
                                },
                            },
                        }
                    }
                },
            }
        }
    }
}

/// The tail of [`spec_extract`]: from the interface table onward, for the
/// enum class named `name`.
pub open spec fn spec_extract_members(
    b: Seq<u8>,
    p0: int,
    name: Seq<char>,
    pool: Seq<CpEntryView>,
) -> Result<Option<EnumInfoView>, ClassfileError> {
    let fpos = p0 + 8 + 2 * (su16(b, p0 + 6) as int);
    if fpos + 2 > b.len() {
        Err(ClassfileError::Truncated)
    } else {
        match parse_fields(b, fpos + 2, su16(b, fpos) as nat, pool, name) {
            Err(e) => Err(e),
            Ok((members, mpos)) => {
                if mpos + 2 > b.len() {
                    Err(ClassfileError::Truncated)
                } else {
                    match skip_members(b, mpos + 2, su16(b, mpos) as nat) {
                        Err(e) => Err(e),
                        Ok(apos) => {
                            if apos + 2 > b.len() {
                                Err(ClassfileError::Truncated)
                            } else {
                                match parse_class_attrs(
                                    b,
                                    apos + 2,
                                    su16(b, apos) as nat,
                                    pool,
                                ) {
                                    Err(e) => Err(e),
                                    Ok((types, _)) => Ok(
                                        Some(
                                            EnumInfoView {
                                                class_name: name,
                                                members: members,
                                                avro_generated: types.contains(
                                                    marker_descriptor(),
                                                ),
                                            },
                                        ),
                                    ),
                                }
                            }
                        },
                    }
                }
            },
        }
    }
}

fn read_u16(b: &Vec<u8>, pos: usize) -> (r: u16)
    requires
        pos + 2 <= b@.len(),
    ensures
        r == su16(b@, pos as int),
{
    let whole_len: usize = b.len();
    (b[pos] as u16) * 256 + (b[pos + 1] as u16)
}

fn read_u32(b: &Vec<u8>, pos: usize) -> (r: u32)
    requires
        pos + 4 <= b@.len(),
    ensures
        r == su32(b@, pos as int),
{
    let whole_len: usize = b.len();
    (b[pos] as u32) * 16777216 + (b[pos + 1] as u32) * 65536 + (b[pos + 2] as u32) * 256
        + (b[pos + 3] as u32)
}

/// Relies on std's `String::from_utf8`: it succeeds exactly on valid UTF-8
/// input and yields the string those bytes encode.
#[verifier::external_body]
pub(crate) fn bytes_to_string(v: &Vec<u8>) -> (r: Option<String>)
    ensures
        r matches Some(s) ==> valid_utf8(v@) && s@ == decode_utf8(v@),
        r is None ==> !valid_utf8(v@),
{
    String::from_utf8(v.clone()).ok()
}

fn copy_range(b: &Vec<u8>, start: usize, len: usize) -> (r: Vec<u8>)
    requires
        start + len <= b@.len(),
    ensures
        r@ == b@.subrange(start as int, start as int + len as int),
{
    let whole_len: usize = b.len();
    vstd::slice::slice_to_vec(vstd::slice::slice_subrange(b.as_slice(), start, start + len))
}

/// The view of an executable constant pool.
pub open spec fn pool_view(pool: Seq<CpEntry>) -> Seq<CpEntryView> {
    pool.map_values(|e: CpEntry| e@)
}

/// The loop invariant of the constant-pool parser: finishing the parse from
/// the current state yields the same outcome as the whole parse.
spec fn cp_inv(
    b: Seq<u8>,
    start: int,
    count: nat,
    poolv: Seq<CpEntryView>,
    pos: int,
    rem: nat,
) -> bool {
    match parse_cp_items(b, pos, rem) {
        Ok((rest, end)) => parse_cp_items(b, start, count) == Ok::<_, ClassfileError>(
            (poolv + rest, end),
        ),
        Err(e) => parse_cp_items(b, start, count) == Err::<(Seq<CpEntryView>, int), _>(e),
    }
}

proof fn cp_inv_step(
    b: Seq<u8>,
    start: int,
    count: nat,
    poolv: Seq<CpEntryView>,
    pos: int,
    rem: nat,
    entries: Seq<CpEntryView>,
    pos2: int,
    rem2: nat,
)
    requires
        cp_inv(b, start, count, poolv, pos, rem),
        parse_cp_items(b, pos2, rem2) matches Ok((rest, end)) ==> parse_cp_items(
            b,
            pos,
            rem,
        ) == Ok::<_, ClassfileError>((entries + rest, end)),
        parse_cp_items(b, pos2, rem2) matches Err(e) ==> parse_cp_items(b, pos, rem)
            == Err::<(Seq<CpEntryView>, int), _>(e),
    ensures
        cp_inv(b, start, count, poolv + entries, pos2, rem2),
{
    match parse_cp_items(b, pos2, rem2) {
        Ok((rest, end)) => {
            assert(poolv + (entries + rest) =~= (poolv + entries) + rest);
        },
        Err(e) => {},
    }
}

#[verifier::rlimit(50)]
fn parse_cp(b: &Vec<u8>, start: usize, count: u16) -> (r: Result<
    (Vec<CpEntry>, usize),
    ClassfileError,
>)
    requires
        start <= b@.len(),
    ensures
        (match parse_cp_items(b@, start as int, count as nat) {
            Ok((poolv, end)) => r matches Ok(p) && pool_view(p.0@) == poolv && p.1 as int
                == end && p.1 <= b@.len(),
            Err(e) => r matches Err(e2) && e2 == e,
        }),
{
    let mut pool: Vec<CpEntry> = Vec::new();
    let mut pos: usize = start;
    let mut rem: u16 = count;
    proof {
        assert(pool_view(pool@) =~= Seq::<CpEntryView>::empty());
        assert(Seq::<CpEntryView>::empty() + Seq::<CpEntryView>::empty()
            =~= Seq::<CpEntryView>::empty());
        match parse_cp_items(b@, start as int, count as nat) {
            Ok((rest, end)) => {
                assert(Seq::<CpEntryView>::empty() + rest =~= rest);
            },
            Err(e) => {},
        }
    }
    while rem > 0
        invariant
            pos <= b@.len(),
            cp_inv(b@, start as int, count as nat, pool_view(pool@), pos as int, rem as nat),
        decreases rem,
    {
        let ghost poolv0 = pool_view(pool@);
        let ghost pos0 = pos as int;
        let ghost rem0 = rem as nat;
        if b.len() - pos < 1 {
            return Err(ClassfileError::Truncated);
        }
        let tag = b[pos];
        if tag == 1 {
            if b.len() - pos < 3 {
                return Err(ClassfileError::Truncated);
            }
            let l = read_u16(b, pos + 1) as usize;
            if b.len() - (pos + 3) < l {
                return Err(ClassfileError::Truncated);
            }
            let s = copy_range(b, pos + 3, l);
            let ghost ev = CpEntryView::Utf8(s@);
            pool.push(CpEntry::Utf8(s));
            pos = pos + 3 + l;
            rem = rem - 1;
            proof {
                assert(pool_view(pool@) =~= poolv0 + seq![ev]);
                cp_inv_step(
                    b@, start as int, count as nat, poolv0, pos0, rem0,
                    seq![ev], pos as int, rem as nat,
                );
            }
        } else if tag == 7 {
            if b.len() - pos < 3 {
                return Err(ClassfileError::Truncated);
            }
            let ni = read_u16(b, pos + 1);
            let ghost ev = CpEntryView::ClassRef(ni as int);
            pool.push(CpEntry::ClassRef(ni));
            pos = pos + 3;
            rem = rem - 1;
            proof {
                assert(pool_view(pool@) =~= poolv0 + seq![ev]);
                cp_inv_step(
                    b@, start as int, count as nat, poolv0, pos0, rem0,
                    seq![ev], pos as int, rem as nat,
                );
            }
        } else if tag == 8 || tag == 16 || tag == 19 || tag == 20 {
            if b.len() - pos < 3 {
                return Err(ClassfileError::Truncated);
            }
            pool.push(CpEntry::Other);
            pos = pos + 3;
            rem = rem - 1;
            proof {
                assert(pool_view(pool@) =~= poolv0 + seq![CpEntryView::Other]);
                cp_inv_step(
                    b@, start as int, count as nat, poolv0, pos0, rem0,
                    seq![CpEntryView::Other], pos as int, rem as nat,
                );
            }
        } else if tag == 3 || tag == 4 || tag == 9 || tag == 10 || tag == 11 || tag == 12
            || tag == 17 || tag == 18 {
            if b.len() - pos < 5 {
                return Err(ClassfileError::Truncated);
            }
            pool.push(CpEntry::Other);
            pos = pos + 5;
            rem = rem - 1;
            proof {
                assert(pool_view(pool@) =~= poolv0 + seq![CpEntryView::Other]);
                cp_inv_step(
                    b@, start as int, count as nat, poolv0, pos0, rem0,
                    seq![CpEntryView::Other], pos as int, rem as nat,
                );
            }
        } else if tag == 15 {
            if b.len() - pos < 4 {
                return Err(ClassfileError::Truncated);
            }
            pool.push(CpEntry::Other);
            pos = pos + 4;
            rem = rem - 1;
            proof {
                assert(pool_view(pool@) =~= poolv0 + seq![CpEntryView::Other]);
                cp_inv_step(
                    b@, start as int, count as nat, poolv0, pos0, rem0,
                    seq![CpEntryView::Other], pos as int, rem as nat,
                );
            }
        } else if tag == 5 || tag == 6 {
            if rem < 2 {
                return Err(ClassfileError::Truncated);
            }
            if b.len() - pos < 9 {
                return Err(ClassfileError::Truncated);
            }
            pool.push(CpEntry::Other);
            pool.push(CpEntry::Other);
            pos = pos + 9;
            rem = rem - 2;
            proof {
                assert(pool_view(pool@) =~= poolv0
                    + seq![CpEntryView::Other, CpEntryView::Other]);
                cp_inv_step(
                    b@, start as int, count as nat, poolv0, pos0, rem0,
                    seq![CpEntryView::Other, CpEntryView::Other], pos as int, rem as nat,
                );
            }
        } else {
            return Err(ClassfileError::UnknownPoolTag);
        }
    }
    proof {
        match parse_cp_items(b@, start as int, count as nat) {
            Ok((poolv, end)) => {
                assert(pool_view(pool@) + Seq::<CpEntryView>::empty() =~= pool_view(pool@));
            },
            Err(e) => {},
        }
    }
    Ok((pool, pos))
}

/// The text constant at 1-based pool index `idx`.
fn pool_utf8_at<'a>(pool: &'a Vec<CpEntry>, idx: u16) -> (r: Result<
    &'a Vec<u8>,
    ClassfileError,
>)
    ensures
        (match pool_utf8(pool_view(pool@), idx as int) {
            Ok(s) => r matches Ok(v) && v@ == s,
            Err(e) => r matches Err(e2) && e2 == e,
        }),
{
    if idx >= 1 && (idx as usize) <= pool.len() {
        match &pool[(idx - 1) as usize] {
            CpEntry::Utf8(v) => Ok(v),
            _ => Err(ClassfileError::BadPoolIndex),
        }
    } else {
        Err(ClassfileError::BadPoolIndex)
    }
}

/// The name index of the class constant at 1-based pool index `idx`.
fn pool_class_at(pool: &Vec<CpEntry>, idx: u16) -> (r: Result<u16, ClassfileError>)
    ensures
        (match pool_class(pool_view(pool@), idx as int) {
            Ok(n) => r matches Ok(n2) && n2 as int == n,
            Err(e) => r matches Err(e2) && e2 == e,
        }),
{
    if idx >= 1 && (idx as usize) <= pool.len() {
        match &pool[(idx - 1) as usize] {
            CpEntry::ClassRef(n) => Ok(*n),
            _ => Err(ClassfileError::BadPoolIndex),
        }
    } else {
        Err(ClassfileError::BadPoolIndex)
    }
}

fn skip_attrs_x(b: &Vec<u8>, start: usize, count: u16) -> (r: Result<usize, ClassfileError>)
    requires
        start <= b@.len(),
    ensures
        (match skip_attrs(b@, start as int, count as nat) {
            Ok(end) => r matches Ok(p) && p as int == end && p <= b@.len(),
            Err(e) => r matches Err(e2) && e2 == e,
        }),
{
    let mut pos: usize = start;
    let mut rem: u16 = count;
    while rem > 0
        invariant
            pos <= b@.len(),
            (match skip_attrs(b@, pos as int, rem as nat) {
                Ok(end) => skip_attrs(b@, start as int, count as nat) == Ok::<
                    _,
                    ClassfileError,
                >(end),
                Err(e) => skip_attrs(b@, start as int, count as nat) == Err::<int, _>(e),
            }),
        decreases rem,
    {
        if b.len() - pos < 6 {
            return Err(ClassfileError::Truncated);
        }
        let l = read_u32(b, pos + 2) as usize;
        if b.len() - (pos + 6) < l {
            return Err(ClassfileError::Truncated);
        }
        pos = pos + 6 + l;
        rem = rem - 1;
    }
    Ok(pos)
}

fn skip_members_x(b: &Vec<u8>, start: usize, count: u16) -> (r: Result<usize, ClassfileError>)
    requires
        start <= b@.len(),
    ensures
        (match skip_members(b@, start as int, count as nat) {
            Ok(end) => r matches Ok(p) && p as int == end && p <= b@.len(),
            Err(e) => r matches Err(e2) && e2 == e,
        }),
{
    let mut pos: usize = start;
    let mut rem: u16 = count;
    while rem > 0
        invariant
            pos <= b@.len(),
            (match skip_members(b@, pos as int, rem as nat) {
                Ok(end) => skip_members(b@, start as int, count as nat) == Ok::<
                    _,
                    ClassfileError,
                >(end),
                Err(e) => skip_members(b@, start as int, count as nat) == Err::<int, _>(e),
            }),
        decreases rem,
    {
        if b.len() - pos < 8 {
            return Err(ClassfileError::Truncated);
        }
        let ac = read_u16(b, pos + 6);
        match skip_attrs_x(b, pos + 8, ac) {
            Err(e) => {
                return Err(e);
            },
            Ok(mend) => {
                pos = mend;
                rem = rem - 1;
            },
        }
    }
    Ok(pos)
}

/// The loop invariant of the field walker: finishing the walk from the
/// current state yields the same outcome as the whole walk.
spec fn fields_inv(
    b: Seq<u8>,
    start: int,
    count: nat,
    pool: Seq<CpEntryView>,
    name: Seq<char>,
    mv: Seq<Seq<char>>,
    pos: int,
    rem: nat,
) -> bool {
    match parse_fields(b, pos, rem, pool, name) {
        Ok((rest, end)) => parse_fields(b, start, count, pool, name) == Ok::<
            _,
            ClassfileError,
        >((mv + rest, end)),
        Err(e) => parse_fields(b, start, count, pool, name) == Err::<
            (Seq<Seq<char>>, int),
            _,
        >(e),
    }
}

/// The members gathered so far, as a sequence of character sequences.
pub open spec fn members_view(members: Seq<String>) -> Seq<Seq<char>> {
    members.map_values(|s: String| s@)
}

#[verifier::rlimit(50)]
fn parse_fields_x(
    b: &Vec<u8>,
    start: usize,
    count: u16,
    pool: &Vec<CpEntry>,
    expected: &String,
    Ghost(name): Ghost<Seq<char>>,
) -> (r: Result<(Vec<String>, usize), ClassfileError>)
    requires
        start <= b@.len(),
        expected@ == self_descriptor(name),
    ensures
        (match parse_fields(b@, start as int, count as nat, pool_view(pool@), name) {
            Ok((members, end)) => r matches Ok(p) && members_view(p.0@) == members
                && p.1 as int == end && p.1 <= b@.len(),
            Err(e) => r matches Err(e2) && e2 == e,
        }),
{
    let ghost poolv = pool_view(pool@);
    let mut members: Vec<String> = Vec::new();
    let mut pos: usize = start;
    let mut rem: u16 = count;
    proof {
        assert(members_view(members@) =~= Seq::<Seq<char>>::empty());
        match parse_fields(b@, start as int, count as nat, poolv, name) {
            Ok((rest, end)) => {
                assert(Seq::<Seq<char>>::empty() + rest =~= rest);
            },
            Err(e) => {},
        }
    }
    while rem > 0
        invariant
            pos <= b@.len(),
            poolv == pool_view(pool@),
            expected@ == self_descriptor(name),
            fields_inv(
                b@, start as int, count as nat, poolv, name,
                members_view(members@), pos as int, rem as nat,
            ),
        decreases rem,
    {
        let ghost mv0 = members_view(members@);
        let ghost pos0 = pos as int;
        let ghost rem0 = rem as nat;
        let ghost mut got: Seq<Seq<char>> = Seq::empty();
        if b.len() - pos < 8 {
            return Err(ClassfileError::Truncated);
        }
        let flags = read_u16(b, pos);
        let ni = read_u16(b, pos + 2);
        let di = read_u16(b, pos + 4);
        let ac = read_u16(b, pos + 6);
        let fend = match skip_attrs_x(b, pos + 8, ac) {
            Err(e) => {
                return Err(e);
            },
            Ok(p) => p,
        };
        if flags & ENUM_MEMBER_FLAGS == ENUM_MEMBER_FLAGS {
            let nb = match pool_utf8_at(pool, ni) {
                Err(e) => {
                    return Err(e);
                },
                Ok(v) => v,
            };
            let db = match pool_utf8_at(pool, di) {
                Err(e) => {
                    return Err(e);
                },
                Ok(v) => v,
            };
            let matches_self = match bytes_to_string(db) {
                None => false,
                Some(ds) => ds == *expected,
            };
            assert(matches_self == desc_matches(db@, name));
            if matches_self {
                match bytes_to_string(nb) {
                    None => {
                        return Err(ClassfileError::BadUtf8);
                    },
                    Some(fname) => {
                        let ghost fv = fname@;
                        members.push(fname);
                        proof {
                            got = seq![fv];
                            assert(members_view(members@) =~= mv0 + got);
                        }
                    },
                }
            }
        }
        pos = fend;
        rem = rem - 1;
        proof {
            assert(members_view(members@) =~= mv0 + got);
            match parse_fields(b@, pos as int, rem as nat, poolv, name) {
                Ok((rest, end)) => {
                    if got.len() == 0 {
                        assert(got + rest =~= rest);
                    }
                    assert(parse_fields(b@, pos0, rem0, poolv, name) == Ok::<
                        _,
                        ClassfileError,
                    >((got + rest, end)));
                    assert(mv0 + (got + rest) =~= (mv0 + got) + rest);
                },
                Err(e) => {
                    assert(parse_fields(b@, pos0, rem0, poolv, name) == Err::<
                        (Seq<Seq<char>>, int),
                        _,
                    >(e));
                },
            }
        }
    }
    proof {
        match parse_fields(b@, start as int, count as nat, poolv, name) {
            Ok((membersv, end)) => {
                assert(members_view(members@) + Seq::<Seq<char>>::empty() =~= members_view(
                    members@,
                ));
            },
            Err(e) => {},
        }
    }
    Ok((members, pos))
}

/// A sequence holds `m` iff one of its two halves does.
proof fn lemma_concat_contains(a: Seq<Seq<char>>, b: Seq<Seq<char>>, m: Seq<char>)
    ensures
        (a + b).contains(m) <==> (a.contains(m) || b.contains(m)),
{
    if a.contains(m) {
        let i = choose|i: int| 0 <= i < a.len() && a[i] == m;
        assert((a + b)[i] == m);
    }
    if b.contains(m) {
        let i = choose|i: int| 0 <= i < b.len() && b[i] == m;
        assert((a + b)[a.len() + i] == m);
    }
    if (a + b).contains(m) {
        let i = choose|i: int| 0 <= i < (a + b).len() && (a + b)[i] == m;
        if i < a.len() {
            assert(a[i] == m);
        } else {
            assert(b[i - a.len()] == m);
        }
    }
}

fn ev_skip(b: &Vec<u8>, pos: usize, end: usize) -> (r: Result<usize, ClassfileError>)
    requires
        pos <= end <= b@.len(),
    ensures
        (match skip_element_value(b@, pos as int, end as int) {
            Ok(p) => r matches Ok(p2) && p2 as int == p && pos < p2 <= end,
            Err(e) => r matches Err(e2) && e2 == e,
        }),
    decreases end - pos, 0int,
{
    if pos >= end {
        return Err(ClassfileError::Truncated);
    }
    let tag = b[pos];
    if tag == 64 {
        ann_skip(b, pos + 1, end)
    } else if tag == 91 {
        if end - pos < 3 {
            return Err(ClassfileError::Truncated);
        }
        let n = read_u16(b, pos + 1);
        evs_skip(b, pos + 3, end, n)
    } else if tag == 101 {
        if end - pos < 5 {
            return Err(ClassfileError::Truncated);
        }
        Ok(pos + 5)
    } else if tag == 66 || tag == 67 || tag == 68 || tag == 70 || tag == 73 || tag == 74
        || tag == 83 || tag == 90 || tag == 115 || tag == 99 {
        if end - pos < 3 {
            return Err(ClassfileError::Truncated);
        }
        Ok(pos + 3)
    } else {
        Err(ClassfileError::MalformedAttribute)
    }
}

fn ann_skip(b: &Vec<u8>, pos: usize, end: usize) -> (r: Result<usize, ClassfileError>)
    requires
        pos <= end <= b@.len(),
    ensures
        (match skip_annotation(b@, pos as int, end as int) {
            Ok(p) => r matches Ok(p2) && p2 as int == p && pos < p2 <= end,
            Err(e) => r matches Err(e2) && e2 == e,
        }),
    decreases end - pos, 0int,
{
    if end - pos < 4 {
        return Err(ClassfileError::Truncated);
    }
    let n = read_u16(b, pos + 2);
    pairs_skip(b, pos + 4, end, n)
}

fn pairs_skip(b: &Vec<u8>, pos: usize, end: usize, count: u16) -> (r: Result<
    usize,
    ClassfileError,
>)
    requires
        pos <= end <= b@.len(),
    ensures
        (match skip_element_pairs(b@, pos as int, end as int, count as int) {
            Ok(p) => r matches Ok(p2) && p2 as int == p && pos <= p2 <= end,
            Err(e) => r matches Err(e2) && e2 == e,
        }),
    decreases end - pos, 1int,
{
    if count == 0 {
        return Ok(pos);
    }
    if end - pos < 2 {
        return Err(ClassfileError::Truncated);
    }
    match ev_skip(b, pos + 2, end) {
        Err(e) => Err(e),
        Ok(p2) => pairs_skip(b, p2, end, count - 1),
    }
}

fn evs_skip(b: &Vec<u8>, pos: usize, end: usize, count: u16) -> (r: Result<
    usize,
    ClassfileError,
>)
    requires
        pos <= end <= b@.len(),
    ensures
        (match skip_element_values(b@, pos as int, end as int, count as int) {
            Ok(p) => r matches Ok(p2) && p2 as int == p && pos <= p2 <= end,
            Err(e) => r matches Err(e2) && e2 == e,
        }),
    decreases end - pos, 1int,
{
    if count == 0 {
        return Ok(pos);
    }
    match ev_skip(b, pos, end) {
        Err(e) => Err(e),
        Ok(p2) => evs_skip(b, p2, end, count - 1),
    }
}

#[verifier::rlimit(50)]
fn annos_scan(
    b: &Vec<u8>,
    start: usize,
    end: usize,
    count: u16,
    pool: &Vec<CpEntry>,
    marker: &String,
) -> (r: Result<(bool, usize), ClassfileError>)
    requires
        start <= end <= b@.len(),
        marker@ == marker_descriptor(),
    ensures
        (match parse_annotations(
            b@,
            start as int,
            end as int,
            count as int,
            pool_view(pool@),
        ) {
            Ok((types, p)) => r matches Ok(fp) && fp.0 == types.contains(marker_descriptor())
                && fp.1 as int == p && fp.1 <= end,
            Err(e) => r matches Err(e2) && e2 == e,
        }),
{
    let ghost poolv = pool_view(pool@);
    let mut pos: usize = start;
    let mut rem: u16 = count;
    let mut found: bool = false;
    let ghost mut tacc: Seq<Seq<char>> = Seq::empty();
    proof {
        match parse_annotations(b@, start as int, end as int, count as int, poolv) {
            Ok((rest, p)) => {
                assert(Seq::<Seq<char>>::empty() + rest =~= rest);
            },
            Err(e) => {},
        }
    }
    while rem > 0
        invariant
            start <= pos <= end <= b@.len(),
            marker@ == marker_descriptor(),
            poolv == pool_view(pool@),
            found == tacc.contains(marker_descriptor()),
            (match parse_annotations(b@, pos as int, end as int, rem as int, poolv) {
                Ok((rest, p)) => parse_annotations(
                    b@,
                    start as int,
                    end as int,
                    count as int,
                    poolv,
                ) == Ok::<_, ClassfileError>((tacc + rest, p)),
                Err(e) => parse_annotations(
                    b@,
                    start as int,
                    end as int,
                    count as int,
                    poolv,
                ) == Err::<(Seq<Seq<char>>, int), _>(e),
            }),
        decreases rem,
    {
        let ghost tacc0 = tacc;
        let ghost pos0 = pos as int;
        let ghost rem0 = rem as int;
        if end - pos < 4 {
            return Err(ClassfileError::Truncated);
        }
        let ti = read_u16(b, pos);
        let np = read_u16(b, pos + 2);
        let p2 = match pairs_skip(b, pos + 4, end, np) {
            Err(e) => {
                return Err(e);
            },
            Ok(p) => p,
        };
        let tb = match pool_utf8_at(pool, ti) {
            Err(e) => {
                return Err(e);
            },
            Ok(v) => v,
        };
        let t = match bytes_to_string(tb) {
            None => {
                return Err(ClassfileError::BadUtf8);
            },
            Some(t) => t,
        };
        let hit = t == *marker;
        found = found || hit;
        pos = p2;
        rem = rem - 1;
        proof {
            let x = decode_utf8(tb@);
            tacc = tacc0.push(x);
            assert(tacc =~= tacc0 + seq![x]);
            lemma_concat_contains(tacc0, seq![x], marker_descriptor());
            assert(seq![x].contains(marker_descriptor()) <==> x == marker_descriptor()) by {
                if seq![x].contains(marker_descriptor()) {
                    let i = choose|i: int|
                        0 <= i < seq![x].len() && seq![x][i] == marker_descriptor();
                    assert(seq![x][i] == x);
                } else {
                }
                assert(seq![x][0] == x);
            }
            match parse_annotations(b@, pos as int, end as int, rem as int, poolv) {
                Ok((rest, p)) => {
                    assert(parse_annotations(b@, pos0, end as int, rem0, poolv) == Ok::<
                        _,
                        ClassfileError,
                    >((seq![x] + rest, p)));
                    assert(tacc0 + (seq![x] + rest) =~= (tacc0 + seq![x]) + rest);
                },
                Err(e) => {
                    assert(parse_annotations(b@, pos0, end as int, rem0, poolv) == Err::<
                        (Seq<Seq<char>>, int),
                        _,
                    >(e));
                },
            }
        }
    }
    proof {
        match parse_annotations(b@, start as int, end as int, count as int, poolv) {
            Ok((types, p)) => {
                assert(tacc + Seq::<Seq<char>>::empty() =~= tacc);
            },
            Err(e) => {},
        }
    }
    Ok((found, pos))
}

#[verifier::rlimit(80)]
fn class_attrs_scan(
    b: &Vec<u8>,
    start: usize,
    count: u16,
    pool: &Vec<CpEntry>,
    marker: &String,
) -> (r: Result<bool, ClassfileError>)
    requires
        start <= b@.len(),
        marker@ == marker_descriptor(),
    ensures
        (match parse_class_attrs(b@, start as int, count as nat, pool_view(pool@)) {
            Ok((types, p)) => r matches Ok(f) && f == types.contains(marker_descriptor()),
            Err(e) => r matches Err(e2) && e2 == e,
        }),
{
    let ghost poolv = pool_view(pool@);
    let vis: String = "RuntimeVisibleAnnotations".to_owned();
    let invis: String = "RuntimeInvisibleAnnotations".to_owned();
    let mut pos: usize = start;
    let mut rem: u16 = count;
    let mut found: bool = false;
    let ghost mut tacc: Seq<Seq<char>> = Seq::empty();
    proof {
        match parse_class_attrs(b@, start as int, count as nat, poolv) {
            Ok((rest, p)) => {
                assert(Seq::<Seq<char>>::empty() + rest =~= rest);
            },
            Err(e) => {},
        }
    }
    while rem > 0
        invariant
            start <= pos <= b@.len(),
            marker@ == marker_descriptor(),
            vis@ == "RuntimeVisibleAnnotations"@,
            invis@ == "RuntimeInvisibleAnnotations"@,
            poolv == pool_view(pool@),
            found == tacc.contains(marker_descriptor()),
            (match parse_class_attrs(b@, pos as int, rem as nat, poolv) {
                Ok((rest, p)) => parse_class_attrs(b@, start as int, count as nat, poolv)
                    == Ok::<_, ClassfileError>((tacc + rest, p)),
                Err(e) => parse_class_attrs(b@, start as int, count as nat, poolv)
                    == Err::<(Seq<Seq<char>>, int), _>(e),
            }),
        decreases rem,
    {
        let ghost tacc0 = tacc;
        let ghost pos0 = pos as int;
        let ghost rem0 = rem as nat;
        if b.len() - pos < 6 {
            return Err(ClassfileError::Truncated);
        }
        let ni = read_u16(b, pos);
        let l = read_u32(b, pos + 2) as usize;
        if b.len() - (pos + 6) < l {
            return Err(ClassfileError::Truncated);
        }
        let nb = match pool_utf8_at(pool, ni) {
            Err(e) => {
                return Err(e);
            },
            Ok(v) => v,
        };
        let is_anno = match bytes_to_string(nb) {
            None => false,
            Some(s) => s == vis || s == invis,
        };
        assert(is_anno == is_annotations_attr(nb@));
        let ghost mut got: Seq<Seq<char>> = Seq::empty();
        if is_anno {
            let aend = pos + 6 + l;
            if l < 2 {
                return Err(ClassfileError::Truncated);
            }
            let num = read_u16(b, pos + 6);
            let sub = match annos_scan(b, pos + 8, aend, num, pool, marker) {
                Err(e) => {
                    return Err(e);
                },
                Ok(fp) => fp,
            };
            proof {
                got = (match parse_annotations(
                    b@,
                    pos as int + 8,
                    aend as int,
                    num as int,
                    poolv,
                ) {
                    Ok((t, _)) => t,
                    Err(_) => Seq::<Seq<char>>::empty(),
                });
            }
            found = found || sub.0;
        }
        pos = pos + 6 + l;
        rem = rem - 1;
        proof {
            tacc = tacc0 + got;
            lemma_concat_contains(tacc0, got, marker_descriptor());
            match parse_class_attrs(b@, pos as int, rem as nat, poolv) {
                Ok((rest, p)) => {
                    if got.len() == 0 && !is_annotations_attr(nb@) {
                        assert(got + rest =~= rest);
                    }
                    assert(parse_class_attrs(b@, pos0, rem0, poolv) == Ok::<
                        _,
                        ClassfileError,
                    >((got + rest, p)));
                    assert(tacc0 + (got + rest) =~= (tacc0 + got) + rest);
                },
                Err(e) => {
                    assert(parse_class_attrs(b@, pos0, rem0, poolv) == Err::<
                        (Seq<Seq<char>>, int),
                        _,
                    >(e));
                },
            }
        }
    }
    proof {
        match parse_class_attrs(b@, start as int, count as nat, poolv) {
            Ok((types, p)) => {
                assert(tacc + Seq::<Seq<char>>::empty() =~= tacc);
            },
            Err(e) => {},
        }
    }
    Ok(found)
}

/// Determine whether `bytes` is an enum classfile, and if so extract its
/// name, its constant members and its marker, exactly as [`spec_extract`]
/// says: `Ok(None)` when the enum access flag is clear, `Ok(Some(..))` for an
/// enum, and the first reader error otherwise.
#[verifier::rlimit(80)]
pub fn extract_if_enum(bytes: &Vec<u8>) -> (r: Result<Option<EnumInfo>, ClassfileError>)
    ensures
        (match spec_extract(bytes@) {
            Ok(Some(iv)) => r matches Ok(o) && o matches Some(info) && info@ == iv,
            Ok(None) => r matches Ok(o) && o is None,
            Err(e) => r matches Err(e2) && e2 == e,
        }),
{
    let n = bytes.len();
    if n < 10 {
        return Err(ClassfileError::Truncated);
    }
    if !(bytes[0] == 0xca && bytes[1] == 0xfe && bytes[2] == 0xba && bytes[3] == 0xbe) {
        return Err(ClassfileError::BadMagic);
    }
    let cpc = read_u16(bytes, 8);
    if cpc < 1 {
        return Err(ClassfileError::Truncated);
    }
    let (pool, p0) = match parse_cp(bytes, 10, cpc - 1) {
        Err(e) => {
            return Err(e);
        },
        Ok(p) => p,
    };
    if bytes.len() - p0 < 2 {
        return Err(ClassfileError::Truncated);
    }
    let flags = read_u16(bytes, p0);
    if flags & ACC_ENUM == 0 {
        return Ok(None);
    }
    if bytes.len() - p0 < 8 {
        return Err(ClassfileError::Truncated);
    }
    let this_idx = read_u16(bytes, p0 + 2);
    let name_idx = match pool_class_at(&pool, this_idx) {
        Err(e) => {
            return Err(e);
        },
        Ok(i) => i,
    };
    let name = {
        let nb = match pool_utf8_at(&pool, name_idx) {
            Err(e) => {
                return Err(e);
            },
            Ok(v) => v,
        };
        match bytes_to_string(nb) {
            None => {
                return Err(ClassfileError::BadUtf8);
            },
            Some(s) => s,
        }
    };
    let ic = read_u16(bytes, p0 + 6) as usize;
    if bytes.len() - (p0 + 8) < 2 * ic + 2 {
        return Err(ClassfileError::Truncated);
    }
    let fpos = p0 + 8 + 2 * ic;
    let fc = read_u16(bytes, fpos);
    let mut expected: String = "L".to_owned();
    expected.append(name.as_str());
    expected.append(";");
    assert(expected@ == self_descriptor(name@));
    let (members, mpos) = match parse_fields_x(
        bytes,
        fpos + 2,
        fc,
        &pool,
        &expected,
        Ghost(name@),
    ) {
        Err(e) => {
            return Err(e);
        },
        Ok(p) => p,
    };
    if bytes.len() - mpos < 2 {
        return Err(ClassfileError::Truncated);
    }
    let mc = read_u16(bytes, mpos);
    let apos = match skip_members_x(bytes, mpos + 2, mc) {
        Err(e) => {
            return Err(e);
        },
        Ok(p) => p,
    };
    if bytes.len() - apos < 2 {
        return Err(ClassfileError::Truncated);
    }
    let ac = read_u16(bytes, apos);
    let marker: String = "Lorg/apache/avro/specific/AvroGenerated;".to_owned();
    let found = match class_attrs_scan(bytes, apos + 2, ac, &pool, &marker) {
        Err(e) => {
            return Err(e);
        },
        Ok(f) => f,
    };
    Ok(Some(EnumInfo { class_name: name, members, avro_generated: found }))
}

/// A field whose descriptor begins with the array marker `[` never counts
/// as an enum constant, whatever the class name: an array descriptor cannot
/// equal a self-type descriptor `L<name>;`. This is the rule that keeps a
/// synthetic values-array field out of the member list.
pub proof fn lemma_array_descriptor_is_no_self_type(desc: Seq<u8>, name: Seq<char>)
    requires
        desc.len() > 0,
        desc[0] == 0x5b,
    ensures
        !desc_matches(desc, name),
{
    if valid_utf8(desc) {
        assert(vstd::utf8::is_leading_byte_width_1(0x5b));
        assert(0x5bu8 & 0x7f == 0x5b) by (bit_vector);
        assert(vstd::utf8::decode_first_scalar(desc) == 0x5b);
        assert(decode_utf8(desc)[0] == 0x5b as u32 as char);
        reveal_strlit("L");
        assert(self_descriptor(name).len() > 0);
        assert(self_descriptor(name)[0] == 'L');
        assert(0x5b as u32 as char != 'L');
        assert(decode_utf8(desc) != self_descriptor(name));
    }
}

/// The decoded type descriptors of every annotation the class's annotations
/// attributes hold, both visibilities combined, in order; empty where the
/// reader fails. The walk is the one [`spec_extract_members`] makes.
pub open spec fn spec_extract_annotations(
    b: Seq<u8>,
    p0: int,
    name: Seq<char>,
    pool: Seq<CpEntryView>,
) -> Seq<Seq<char>> {
    let fpos = p0 + 8 + 2 * (su16(b, p0 + 6) as int);
    if fpos + 2 > b.len() {
        Seq::empty()
    } else {
        match parse_fields(b, fpos + 2, su16(b, fpos) as nat, pool, name) {
            Err(e) => Seq::empty(),
            Ok((members, mpos)) => {
                if mpos + 2 > b.len() {
                    Seq::empty()
                } else {
                    match skip_members(b, mpos + 2, su16(b, mpos) as nat) {
                        Err(e) => Seq::empty(),
                        Ok(apos) => {
                            if apos + 2 > b.len() {
                                Seq::empty()
                            } else {
                                match parse_class_attrs(b, apos + 2, su16(b, apos) as nat, pool) {
                                    Err(e) => Seq::empty(),
                                    Ok((types, p)) => types,
                                }
                            }
                        },
                    }
                }
            },
        }
    }
}

/// Marker detection: an extracted enum's marker flag is true iff the tracked
/// descriptor occurs among the annotations of the class's runtime-visible
/// and runtime-invisible annotations attributes combined (the walk collects
/// both visibilities into one sequence), and false when it is absent from
/// both.
pub proof fn lemma_marker_either_visibility(
    b: Seq<u8>,
    p0: int,
    name: Seq<char>,
    pool: Seq<CpEntryView>,
    info: EnumInfoView,
)
    requires
        spec_extract_members(b, p0, name, pool) == Ok::<Option<EnumInfoView>, ClassfileError>(
            Some(info),
        ),
    ensures
        info.avro_generated <==> spec_extract_annotations(b, p0, name, pool).contains(
            marker_descriptor(),
        ),
{
}

/// A classfile whose access flags lack the enum bit extracts to "not an
/// enum" without any error, whatever the rest of its bytes hold: nothing
/// past the flags is read.
pub proof fn lemma_non_enum_never_fails(b: Seq<u8>, pool: Seq<CpEntryView>, p0: int)
    requires
        b.len() >= 10,
        b[0] == 0xca && b[1] == 0xfe && b[2] == 0xba && b[3] == 0xbe,
        su16(b, 8) >= 1,
        parse_cp_items(b, 10, (su16(b, 8) - 1) as nat) == Ok::<_, ClassfileError>(
            (pool, p0),
        ),
        p0 + 2 <= b.len(),
        su16(b, p0) & ACC_ENUM == 0,
    ensures
        spec_extract(b) == Ok::<Option<EnumInfoView>, ClassfileError>(None),
{
}

} // verus!
