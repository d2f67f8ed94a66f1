//! Record decoding.  A LeafTable cell holds `[payload_size varint][rowid
//! varint][record body]`; the record body holds `[header_size varint]
//! [serial_type varint]...[field]...`.  The serial types in the header say
//! how wide each field is and how to read it.

use vstd::prelude::*;
use vstd::slice::slice_to_vec;
use vstd::utf8::{decode_utf8, valid_utf8};

use crate::bigendian::{be_signed, read_be_int};
use crate::db_response::{row_model, RType, RVal};
use crate::errors::DbError;
use crate::types::{varint_complete, varint_value, varint_width, Varint};

verus! {

/// A record field's on-disk type, decoded from a serial-type number.
#[derive(Clone, Copy, Debug, PartialEq, Eq, Structural)]
pub enum ColSerialType {
    Null,
    Vu8,
    Vu16,
    Vu24,
    Vu32,
    Vu48,
    Vu64,
    Vf64,
    V0,
    V1,
    Variable,
    Blob(usize),
    Str(usize),
}

/// The serial-type numbering: 0 is NULL; 1 to 6 are signed integers of
/// widths 1, 2, 3, 4, 6 and 8; 7 is an 8-byte float; 8 and 9 are the
/// literals 0 and 1; 10 and 11 are reserved; from 12 up, even numbers are
/// BLOBs of length `(n - 12) / 2` and odd numbers are text of length
/// `(n - 13) / 2`.
pub open spec fn serial_type_of(n: int) -> ColSerialType {
    if n == 0 {
        ColSerialType::Null
    } else if n == 1 {
        ColSerialType::Vu8
    } else if n == 2 {
        ColSerialType::Vu16
    } else if n == 3 {
        ColSerialType::Vu24
    } else if n == 4 {
        ColSerialType::Vu32
    } else if n == 5 {
        ColSerialType::Vu48
    } else if n == 6 {
        ColSerialType::Vu64
    } else if n == 7 {
        ColSerialType::Vf64
    } else if n == 8 {
        ColSerialType::V0
    } else if n == 9 {
        ColSerialType::V1
    } else if n == 10 || n == 11 {
        ColSerialType::Variable
    } else if n % 2 == 0 {
        ColSerialType::Blob(((n - 12) / 2) as usize)
    } else {
        ColSerialType::Str(((n - 13) / 2) as usize)
    }
}

/// How many payload bytes a field of this serial type occupies.
pub open spec fn serial_size(t: ColSerialType) -> nat {
    match t {
        ColSerialType::Null => 0,
        ColSerialType::Vu8 => 1,
        ColSerialType::Vu16 => 2,
        ColSerialType::Vu24 => 3,
        ColSerialType::Vu32 => 4,
        ColSerialType::Vu48 => 6,
        ColSerialType::Vu64 => 8,
        ColSerialType::Vf64 => 8,
        ColSerialType::V0 => 0,
        ColSerialType::V1 => 0,
        ColSerialType::Variable => 0,
        ColSerialType::Blob(n) => n as nat,
        ColSerialType::Str(n) => n as nat,
    }
}

impl ColSerialType {
    /// Classify a serial-type number.
    pub fn new(serial_type: usize) -> (r: ColSerialType)
        ensures
            r == serial_type_of(serial_type as int),
    {
        match serial_type {
            0 => ColSerialType::Null,
            1 => ColSerialType::Vu8,
            2 => ColSerialType::Vu16,
            3 => ColSerialType::Vu24,
            4 => ColSerialType::Vu32,
            5 => ColSerialType::Vu48,
            6 => ColSerialType::Vu64,
            7 => ColSerialType::Vf64,
            8 => ColSerialType::V0,
            9 => ColSerialType::V1,
            10 | 11 => ColSerialType::Variable,
            _ => {
                if serial_type % 2 == 0 {
                    ColSerialType::Blob((serial_type - 12) / 2)
                } else {
                    ColSerialType::Str((serial_type - 13) / 2)
                }
            },
        }
    }

    /// The field width for a usable serial type; reserved types have no
    /// width.
    pub fn size(&self) -> (r: usize)
        requires
            !(*self matches ColSerialType::Variable),
        ensures
            r == serial_size(*self),
    {
        match *self {
            ColSerialType::Null => 0,
            ColSerialType::Vu8 => 1,
            ColSerialType::Vu16 => 2,
            ColSerialType::Vu24 => 3,
            ColSerialType::Vu32 => 4,
            ColSerialType::Vu48 => 6,
            ColSerialType::Vu64 => 8,
            ColSerialType::Vf64 => 8,
            ColSerialType::V0 => 0,
            ColSerialType::V1 => 0,
            ColSerialType::Variable => 0,
            ColSerialType::Blob(size) => size,
            ColSerialType::Str(size) => size,
        }
    }
}

/// The serial types read from a record header region `s`, scanning varints
/// from `offset` until the cursor lands exactly on `end` (the declared
/// header size).  `None` when a varint starts past the input, is truncated,
/// negative or oversized, or when the cursor overshoots `end`.
pub open spec fn parse_serial_types(s: Seq<u8>, offset: int, end: int) -> Option<
    Seq<ColSerialType>,
>
    decreases end - offset,
{
    if offset >= end {
        if offset == end {
            Some(Seq::empty())
        } else {
            None
        }
    } else if offset < 0 || offset >= s.len() {
        None
    } else {
        let rest = s.subrange(offset, s.len() as int);
        let w = varint_width(rest);
        let v = varint_value(rest);
        if !varint_complete(rest) || w == 0 || offset + w > end || v < 0 || v > usize::MAX {
            None
        } else {
            match parse_serial_types(s, offset + w, end) {
                Some(ts) => Some(seq![serial_type_of(v as int)] + ts),
                None => None,
            }
        }
    }
}

/// The value of one field of serial type `t` read at `pos`, or the error
/// that reading it raises.
pub open spec fn decode_field(s: Seq<u8>, pos: int, t: ColSerialType) -> Result<RVal, DbError> {
    if pos < 0 || pos + serial_size(t) > s.len() {
        Err(DbError::FormatCorruption)
    } else {
        match t {
            ColSerialType::Null => Ok(RVal::Null),
            ColSerialType::Vu8 => Ok(RVal::Num(be_signed(s, pos, 1) as i64)),
            ColSerialType::Vu16 => Ok(RVal::Num(be_signed(s, pos, 2) as i64)),
            ColSerialType::Vu24 => Ok(RVal::Num(be_signed(s, pos, 3) as i64)),
            ColSerialType::Vu32 => Ok(RVal::Num(be_signed(s, pos, 4) as i64)),
            ColSerialType::Vu48 => Err(DbError::Unsupported),
            ColSerialType::Vu64 => Ok(RVal::Num(be_signed(s, pos, 8) as i64)),
            ColSerialType::Vf64 => Err(DbError::Unsupported),
            ColSerialType::V0 => Ok(RVal::Num(0)),
            ColSerialType::V1 => Ok(RVal::Num(1)),
            ColSerialType::Variable => Err(DbError::FormatCorruption),
            ColSerialType::Blob(n) => Ok(RVal::Blob(s.subrange(pos, pos + n))),
            ColSerialType::Str(n) => {
                let bytes = s.subrange(pos, pos + n);
                if valid_utf8(bytes) {
                    Ok(RVal::Str(decode_utf8(bytes)))
                } else {
                    Err(DbError::FormatCorruption)
                }
            },
        }
    }
}

/// The values of the fields with serial types `ts`, read consecutively from
/// `pos`, or the first error raised.
pub open spec fn decode_fields(s: Seq<u8>, pos: int, ts: Seq<ColSerialType>) -> Result<
    Seq<RVal>,
    DbError,
>
    decreases ts.len(),
{
    if ts.len() == 0 {
        Ok(Seq::empty())
    } else {
        match decode_field(s, pos, ts[0]) {
            Err(e) => Err(e),
            Ok(v) => match decode_fields(s, pos + serial_size(ts[0]), ts.drop_first()) {
                Err(e) => Err(e),
                Ok(rest) => Ok(seq![v] + rest),
            },
        }
    }
}

/// The record header: its declared size in bytes (which counts the size
/// varint itself) and the serial types of the record's fields.
pub struct RecordHeader {
    pub size: usize,
    pub col_serial_types: Vec<ColSerialType>,
}

impl RecordHeader {
    /// Parse the record header at the start of `buffer`: the header-size
    /// varint, then serial-type varints until the cursor reaches exactly
    /// that size.
    #[verifier::loop_isolation(false)]
    pub fn new(buffer: &[u8]) -> (r: Result<RecordHeader, DbError>)
        ensures
            ({
                let hw = varint_width(buffer@);
                let hv = varint_value(buffer@);
                match r {
                    Ok(h) => {
                        &&& varint_complete(buffer@)
                        &&& 0 <= hv <= usize::MAX
                        &&& h.size == hv
                        &&& h.size <= buffer@.len()
                        &&& parse_serial_types(buffer@, hw as int, hv as int) == Some(
                            h.col_serial_types@,
                        )
                    },
                    Err(e) => {
                        &&& e == DbError::FormatCorruption
                        &&& (!varint_complete(buffer@) || hv < 0 || hv > usize::MAX
                            || parse_serial_types(buffer@, hw as int, hv as int) is None)
                    },
                }
            }),
    {
        let blen: usize = buffer.len();
        let hsize = match Varint::new(buffer) {
            Ok(v) => v,
            Err(e) => {
                return Err(e);
            },
        };
        if hsize.varint < 0 {
            return Err(DbError::FormatCorruption);
        }
        let end: usize = match usize::try_from(hsize.varint) {
            Ok(v) => v,
            Err(_) => {
                return Err(DbError::FormatCorruption);
            },
        };
        let ghost s = buffer@;
        let ghost e = end as int;
        let mut offset: usize = hsize.size;
        let mut types: Vec<ColSerialType> = Vec::new();
        proof {
            match parse_serial_types(s, offset as int, e) {
                Some(ts) => {
                    assert(types@ + ts =~= ts);
                },
                None => {},
            }
        }
        while offset < end
            invariant
                offset <= blen,
                blen == s.len(),
                e == end,
                end <= usize::MAX,
                parse_serial_types(s, varint_width(s) as int, e) == match parse_serial_types(
                    s,
                    offset as int,
                    e,
                ) {
                    Some(ts) => Some(types@ + ts),
                    None => None::<Seq<ColSerialType>>,
                },
            decreases e - offset,
        {
            if offset >= blen {
                return Err(DbError::FormatCorruption);
            }
            let sub = &buffer[offset..blen];
            let v = match Varint::new(sub) {
                Ok(v) => v,
                Err(_) => {
                    return Err(DbError::FormatCorruption);
                },
            };
            if v.varint < 0 {
                return Err(DbError::FormatCorruption);
            }
            let st: usize = match usize::try_from(v.varint) {
                Ok(u) => u,
                Err(_) => {
                    return Err(DbError::FormatCorruption);
                },
            };
            let new_off = offset + v.size;
            if new_off > end {
                return Err(DbError::FormatCorruption);
            }
            let ghost old_types = types@;
            types.push(ColSerialType::new(st));
            proof {
                let rest = s.subrange(offset as int, s.len() as int);
                let stype = serial_type_of(varint_value(rest) as int);
                assert(sub@ == rest);
                assert(types@ == old_types.push(stype));
                match parse_serial_types(s, offset + varint_width(rest), e) {
                    Some(ts2) => {
                        assert(parse_serial_types(s, offset as int, e) == Some(
                            seq![stype] + ts2,
                        ));
                        assert(old_types + (seq![stype] + ts2) =~= types@ + ts2);
                    },
                    None => {
                        assert(parse_serial_types(s, offset as int, e) is None);
                    },
                }
            }
            offset = new_off;
        }
        if offset > end {
            return Err(DbError::FormatCorruption);
        }
        proof {
            assert(parse_serial_types(s, offset as int, e) == Some(
                Seq::<ColSerialType>::empty(),
            ));
            assert(types@ + Seq::<ColSerialType>::empty() =~= types@);
        }
        Ok(RecordHeader { size: end, col_serial_types: types })
    }
}

/// The mathematical model of a fully decoded record.
pub struct RecordModel {
    pub payload_size: i64,
    pub rowid: i64,
    pub header_size: int,
    pub types: Seq<ColSerialType>,
    pub fields: Seq<RVal>,
}

/// The complete decoding of the cell at the start of `s`: payload-size and
/// rowid varints, the record header, then one value per serial type.
pub open spec fn record_parse(s: Seq<u8>) -> Result<RecordModel, DbError> {
    let w0 = varint_width(s);
    let v0 = varint_value(s);
    let rest1 = s.subrange(w0 as int, s.len() as int);
    let w1 = varint_width(rest1);
    let v1 = varint_value(rest1);
    let hstart = w0 + w1;
    let hs = s.subrange(hstart as int, s.len() as int);
    let hw = varint_width(hs);
    let hv = varint_value(hs);
    if !varint_complete(s) || !varint_complete(rest1) {
        Err(DbError::FormatCorruption)
    } else if !varint_complete(hs) || hv < 0 || hv > usize::MAX {
        Err(DbError::FormatCorruption)
    } else {
        match parse_serial_types(hs, hw as int, hv as int) {
            None => Err(DbError::FormatCorruption),
            Some(ts) => match decode_fields(s, hstart + hv, ts) {
                Err(e) => Err(e),
                Ok(fs) => Ok(
                    RecordModel {
                        payload_size: v0,
                        rowid: v1,
                        header_size: hv as int,
                        types: ts,
                        fields: fs,
                    },
                ),
            },
        }
    }
}

/// How a decoded [`Record`] realises a [`RecordModel`]: same sizes, same
/// serial types, and field values with the model's meaning.
pub open spec fn record_matches(rec: Record, m: RecordModel) -> bool {
    &&& rec.payload_size == m.payload_size
    &&& rec.rowid == m.rowid
    &&& rec.header.size == m.header_size
    &&& rec.header.col_serial_types@ == m.types
    &&& row_model(rec.fields@) == m.fields
    &&& rec.fields@.len() == rec.header.col_serial_types@.len()
}

/// A decoded record: the cell's payload size and rowid, the record header,
/// and the decoded field values in on-disk order.
pub struct Record {
    pub payload_size: i64,
    pub rowid: i64,
    pub header: RecordHeader,
    pub fields: Vec<RType>,
}

impl Record {
    /// Decode the LeafTable cell at the start of `buffer`.  The number of
    /// decoded fields always equals the number of serial types in the
    /// record header.
    #[verifier::loop_isolation(false)]
    pub fn new(buffer: &[u8]) -> (r: Result<Record, DbError>)
        ensures
            ({
                match r {
                    Ok(rec) => record_parse(buffer@) matches Ok(m) && record_matches(rec, m),
                    Err(e) => record_parse(buffer@) matches Err(me) && me == e,
                }
            }),
    {
        let ghost s = buffer@;
        let blen: usize = buffer.len();
        let cell_size = match Varint::new(buffer) {
            Ok(v) => v,
            Err(e) => {
                return Err(e);
            },
        };
        let rsub = &buffer[cell_size.size..blen];
        let rowid = match Varint::new(rsub) {
            Ok(v) => v,
            Err(e) => {
                return Err(e);
            },
        };
        let buffer_start = cell_size.size + rowid.size;
        let hsub = &buffer[buffer_start..blen];
        let header = match RecordHeader::new(hsub) {
            Ok(h) => h,
            Err(e) => {
                return Err(e);
            },
        };
        let record_start = buffer_start + header.size;
        let ghost ts = header.col_serial_types@;
        let n = header.col_serial_types.len();
        let mut fields: Vec<RType> = Vec::new();
        let mut pos: usize = record_start;
        let mut i: usize = 0;
        proof {
            assert(ts.skip(0) =~= ts);
            match decode_fields(s, pos as int, ts) {
                Ok(rest) => {
                    assert(row_model(fields@).len() == 0);
                    assert(row_model(fields@) + rest =~= rest);
                },
                Err(_) => {},
            }
        }
        while i < n
            invariant
                i <= n,
                n == ts.len(),
                fields@.len() == i,
                blen == s.len(),
                record_start <= blen,
                pos <= blen,
                header.col_serial_types@ == ts,
                decode_fields(s, record_start as int, ts) == match decode_fields(
                    s,
                    pos as int,
                    ts.skip(i as int),
                ) {
                    Ok(rest) => Ok::<Seq<RVal>, DbError>(row_model(fields@) + rest),
                    Err(e) => Err::<Seq<RVal>, DbError>(e),
                },
            decreases n - i,
        {
            let t = header.col_serial_types[i];
            proof {
                assert(ts.skip(i as int)[0] == ts[i as int]);
                assert(ts.skip(i as int).drop_first() =~= ts.skip(i as int + 1));
            }
            let (val, new_pos) = match Record::from_col_serial_type(&t, buffer, pos) {
                Ok(p) => p,
                Err(e) => {
                    return Err(e);
                },
            };
            let ghost old_fields = fields@;
            fields.push(val);
            proof {
                assert(fields@ == old_fields.push(val));
                assert(row_model(fields@) =~= row_model(old_fields) + seq![val@]);
                match decode_fields(s, new_pos as int, ts.skip(i as int + 1)) {
                    Ok(rest) => {
                        assert(decode_fields(s, pos as int, ts.skip(i as int)) == Ok::<
                            Seq<RVal>,
                            DbError,
                        >(seq![val@] + rest));
                        assert(row_model(old_fields) + (seq![val@] + rest) =~= row_model(
                            fields@,
                        ) + rest);
                    },
                    Err(_) => {},
                }
            }
            pos = new_pos;
            i += 1;
        }
        proof {
            assert(ts.skip(n as int) =~= Seq::<ColSerialType>::empty());
            assert(decode_fields(s, pos as int, Seq::<ColSerialType>::empty()) == Ok::<
                Seq<RVal>,
                DbError,
            >(Seq::empty()));
            assert(row_model(fields@) + Seq::<RVal>::empty() =~= row_model(fields@));
        }
        Ok(
            Record {
                payload_size: cell_size.varint,
                rowid: rowid.varint,
                header,
                fields,
            },
        )
    }

    /// Read one field of serial type `serial_type` at `pos`, returning the
    /// value and the position just past it.
    pub fn from_col_serial_type(
        serial_type: &ColSerialType,
        buffer: &[u8],
        pos: usize,
    ) -> (r: Result<(RType, usize), DbError>)
        ensures
            ({
                match decode_field(buffer@, pos as int, *serial_type) {
                    Ok(v) => {
                        &&& r matches Ok(p)
                        &&& p.0@ == v
                        &&& p.1 == pos + serial_size(*serial_type)
                    },
                    Err(e) => r matches Err(e2) && e2 == e,
                }
            }),
    {
        let blen: usize = buffer.len();
        if let ColSerialType::Variable = serial_type {
            return Err(DbError::FormatCorruption);
        }
        let size = serial_type.size();
        if size > blen || pos > blen - size {
            return Err(DbError::FormatCorruption);
        }
        match *serial_type {
            ColSerialType::Null => Ok((RType::Null, pos)),
            ColSerialType::Vu8 => Ok((RType::Num(read_be_int(buffer, pos, 1)), pos + 1)),
            ColSerialType::Vu16 => Ok((RType::Num(read_be_int(buffer, pos, 2)), pos + 2)),
            ColSerialType::Vu24 => Ok((RType::Num(read_be_int(buffer, pos, 3)), pos + 3)),
            ColSerialType::Vu32 => Ok((RType::Num(read_be_int(buffer, pos, 4)), pos + 4)),
            ColSerialType::Vu48 => {
                let v = match Record::get_i48(buffer, pos) {
                    Ok(v) => v,
                    Err(e) => {
                        return Err(e);
                    },
                };
                Ok((RType::Num(v), pos + 6))
            },
            ColSerialType::Vu64 => Ok((RType::Num(read_be_int(buffer, pos, 8)), pos + 8)),
            ColSerialType::Vf64 => Err(DbError::Unsupported),
            ColSerialType::V0 => Ok((RType::Num(0), pos)),
            ColSerialType::V1 => Ok((RType::Num(1), pos)),
            ColSerialType::Variable => Err(DbError::FormatCorruption),
            ColSerialType::Blob(n) => {
                let bytes = slice_to_vec(&buffer[pos..pos + n]);
                Ok((RType::Blob(bytes), pos + n))
            },
            ColSerialType::Str(n) => {
                let bytes = slice_to_vec(&buffer[pos..pos + n]);
                match string_from_utf8(bytes) {
                    Some(text) => Ok((RType::Str(text), pos + n)),
                    None => Err(DbError::FormatCorruption),
                }
            },
        }
    }

    /// The 6-byte integer form: recognised but deliberately not read, a
    /// conformance gap the engine reports rather than guessing at.
    pub fn get_i48(_buffer: &[u8], _pos: usize) -> (r: Result<i64, DbError>)
        ensures
            r == Err::<i64, DbError>(DbError::Unsupported),
    {
        Err(DbError::Unsupported)
    }

    /// Move all field values out of the record.
    pub fn take_fields(&mut self) -> (r: Vec<RType>)
        ensures
            r@ == old(self).fields@,
            final(self).fields@.len() == 0,
            final(self).payload_size == old(self).payload_size,
            final(self).rowid == old(self).rowid,
    {
        let mut out: Vec<RType> = Vec::new();
        core::mem::swap(&mut self.fields, &mut out);
        out
    }

    /// Move the first remaining field value out of the record.
    pub fn take_field(&mut self) -> (r: RType)
        requires
            old(self).fields@.len() > 0,
        ensures
            r == old(self).fields@[0],
            final(self).fields@ == old(self).fields@.drop_first(),
    {
        self.fields.remove(0)
    }

    /// A copy of the field at `index`, in on-disk order.
    pub fn get_col(&self, index: usize) -> (r: RType)
        requires
            index < self.fields@.len(),
        ensures
            r@ == self.fields@[index as int]@,
    {
        self.fields[index].duplicate()
    }
}

/// Relies on `String::from_utf8`: it accepts exactly the byte sequences
/// that are valid UTF-8 and decodes them without change.
#[verifier::external_body]
fn string_from_utf8(bytes: Vec<u8>) -> (r: Option<String>)
    ensures
        match r {
            Some(text) => valid_utf8(bytes@) && text@ == decode_utf8(bytes@),
            None => !valid_utf8(bytes@),
        },
{
    match String::from_utf8(bytes) {
        Ok(text) => Some(text),
        Err(_) => None,
    }
}

} // verus!
