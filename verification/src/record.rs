//! Resource records: the entries of the answer, authority and additional
//! sections.

use crate::error::DnsError;
use crate::name::{bytes_result, decode_name, decode_name_spec, encode_name_spec, DomainName};
use crate::question::{TYPE_A, TYPE_CNAME, TYPE_NS};
use crate::wire::{
    be16, be32, copy_range, push_bytes, push_u16, push_u32, read_u16, read_u32, u16_at, u32_at,
};
use vstd::prelude::*;

verus! {

/// The bytes of a record between its name and its data: type, class,
/// time to live and data length.
pub const RECORD_FIXED_LEN: usize = 10;

/// The longest data a record can carry.
pub const MAX_DATA_LEN: usize = 0xffff;

/// An IPv4 address, first octet first.
#[derive(Clone, Copy, Debug, PartialEq, Eq, Structural)]
pub struct Ipv4Address(pub u8, pub u8, pub u8, pub u8);

impl Ipv4Address {
    /// The four octets in order.
    pub open spec fn octets(self) -> Seq<u8> {
        seq![self.0, self.1, self.2, self.3]
    }
}

/// What a record carries, read as its type says: an address for type A, a
/// name for the types NS and CNAME, and the bare bytes for every other type.
#[derive(Clone, Debug, PartialEq, Eq)]
pub enum RecordData {
    Address(Ipv4Address),
    Name(DomainName),
    Raw(Vec<u8>),
}

/// Record data as a value of the model.
pub enum DataModel {
    Address(Ipv4Address),
    Name(Seq<Seq<u8>>),
    Raw(Seq<u8>),
}

impl View for RecordData {
    type V = DataModel;

    open spec fn view(&self) -> DataModel {
        match self {
            RecordData::Address(a) => DataModel::Address(*a),
            RecordData::Name(n) => DataModel::Name(n@),
            RecordData::Raw(b) => DataModel::Raw(b@),
        }
    }
}

/// One resource record. The length of the data is not kept: it follows from
/// the data.
#[derive(Clone, Debug, PartialEq, Eq)]
pub struct ResourceRecord {
    pub name: DomainName,
    pub type_: u16,
    pub class: u16,
    pub ttl: u32,
    pub data: RecordData,
}

/// A resource record as a value of the model.
pub struct RecordModel {
    pub name: Seq<Seq<u8>>,
    pub type_: u16,
    pub class: u16,
    pub ttl: u32,
    pub data: DataModel,
}

impl View for ResourceRecord {
    type V = RecordModel;

    open spec fn view(&self) -> RecordModel {
        RecordModel {
            name: self.name@,
            type_: self.type_,
            class: self.class,
            ttl: self.ttl,
            data: self.data@,
        }
    }
}

/// Whether the data is of the kind that the type asks for.
pub open spec fn data_fits(type_: u16, data: DataModel) -> bool {
    match data {
        DataModel::Address(_) => type_ == TYPE_A,
        DataModel::Name(_) => type_ == TYPE_NS || type_ == TYPE_CNAME,
        DataModel::Raw(_) => type_ != TYPE_A && type_ != TYPE_NS && type_ != TYPE_CNAME,
    }
}

/// The wire form of record data: the four octets, the uncompressed name, or
/// the bytes as they are.
pub open spec fn data_wire(data: DataModel) -> Result<Seq<u8>, DnsError> {
    match data {
        DataModel::Address(a) => Ok(a.octets()),
        DataModel::Name(n) => encode_name_spec(n),
        DataModel::Raw(b) => Ok(b),
    }
}

/// The wire form of a record: name, type, class, time to live, data length
/// and data. Fails as encoding the name does; else with `MalformedRecord`
/// if the data is not of the kind its type asks for; else as encoding the
/// data does; else with `MalformedRecord` if the data is longer than 65535
/// bytes.
pub open spec fn record_wire(r: RecordModel) -> Result<Seq<u8>, DnsError> {
    match encode_name_spec(r.name) {
        Err(e) => Err(e),
        Ok(name) => if !data_fits(r.type_, r.data) {
            Err(DnsError::MalformedRecord)
        } else {
            match data_wire(r.data) {
                Err(e) => Err(e),
                Ok(data) => if data.len() > MAX_DATA_LEN {
                    Err(DnsError::MalformedRecord)
                } else {
                    Ok(
                        name + be16(r.type_) + be16(r.class) + be32(r.ttl) + be16(data.len() as u16)
                            + data,
                    )
                },
            }
        },
    }
}

/// The data of a record of type `type_` whose `len` data bytes start at
/// `pos`. Fails with `TruncatedMessage` if the buffer ends before the data
/// does. For type A the length must be 4; for NS and CNAME a name must
/// decode at `pos` and end with the data: otherwise `MalformedRecord`. A
/// name that fails to decode fails the data with the same reason.
pub open spec fn data_at(buf: Seq<u8>, pos: int, len: int, type_: u16) -> Result<
    DataModel,
    DnsError,
> {
    if pos + len > buf.len() {
        Err(DnsError::TruncatedMessage)
    } else if type_ == TYPE_A {
        if len != 4 {
            Err(DnsError::MalformedRecord)
        } else {
            Ok(DataModel::Address(Ipv4Address(buf[pos], buf[pos + 1], buf[pos + 2], buf[pos + 3])))
        }
    } else if type_ == TYPE_NS || type_ == TYPE_CNAME {
        match decode_name_spec(buf, pos) {
            Err(e) => Err(e),
            Ok((name, end)) => if end != pos + len {
                Err(DnsError::MalformedRecord)
            } else {
                Ok(DataModel::Name(name))
            },
        }
    } else {
        Ok(DataModel::Raw(buf.subrange(pos, pos + len)))
    }
}

/// The record that stands at `pos` of `buf`, and the offset behind it.
/// Fails as decoding the name does; with `TruncatedMessage` if the buffer
/// ends before the ten bytes behind the name or before the data does; and
/// as reading the data does.
pub open spec fn record_at(buf: Seq<u8>, pos: int) -> Result<(RecordModel, int), DnsError> {
    match decode_name_spec(buf, pos) {
        Err(e) => Err(e),
        Ok((name, fixed)) => if fixed + RECORD_FIXED_LEN > buf.len() {
            Err(DnsError::TruncatedMessage)
        } else {
            let type_ = u16_at(buf, fixed);
            let len = u16_at(buf, fixed + 8) as int;
            let start = fixed + RECORD_FIXED_LEN;
            if start + len > buf.len() {
                Err(DnsError::TruncatedMessage)
            } else {
                match data_at(buf, start, len, type_) {
                    Err(e) => Err(e),
                    Ok(data) => Ok(
                        (
                            RecordModel {
                                name,
                                type_,
                                class: u16_at(buf, fixed + 2),
                                ttl: u32_at(buf, fixed + 4),
                                data,
                            },
                            start + len,
                        ),
                    ),
                }
            }
        },
    }
}

impl RecordData {
    /// A copy of the data.
    pub fn duplicate(&self) -> (copy: RecordData)
        ensures
            copy@ == self@,
    {
        match self {
            RecordData::Address(a) => RecordData::Address(*a),
            RecordData::Name(n) => RecordData::Name(n.duplicate()),
            RecordData::Raw(b) => RecordData::Raw(b.clone()),
        }
    }

    /// Whether the data is of the kind that `type_` asks for.
    pub fn fits(&self, type_: u16) -> (ok: bool)
        ensures
            ok == data_fits(type_, self@),
    {
        match self {
            RecordData::Address(_) => type_ == TYPE_A,
            RecordData::Name(_) => type_ == TYPE_NS || type_ == TYPE_CNAME,
            RecordData::Raw(_) => type_ != TYPE_A && type_ != TYPE_NS && type_ != TYPE_CNAME,
        }
    }

    /// The wire form of the data. Fails with `InvalidLabel` or `NameTooLong`
    /// where the data is a name and encoding it does.
    pub fn to_bytes(&self) -> (r: Result<Vec<u8>, DnsError>)
        ensures
            bytes_result(r) == data_wire(self@),
    {
        match self {
            RecordData::Address(a) => {
                let mut out: Vec<u8> = Vec::new();
                out.push(a.0);
                out.push(a.1);
                out.push(a.2);
                out.push(a.3);
                assert(out@ =~= a.octets());
                Ok(out)
            },
            RecordData::Name(n) => n.encode(),
            RecordData::Raw(b) => {
                let mut out: Vec<u8> = Vec::new();
                push_bytes(&mut out, b);
                assert(out@ =~= b@);
                Ok(out)
            },
        }
    }

    /// Reads the data of a record of type `type_` whose `len` data bytes
    /// start at `pos` of `buf`.
    pub fn decode(buf: &[u8], pos: usize, len: usize, type_: u16) -> (r: Result<
        RecordData,
        DnsError,
    >)
        ensures
            match r {
                Ok(data) => data_at(buf@, pos as int, len as int, type_) == Ok::<
                    DataModel,
                    DnsError,
                >(data@),
                Err(e) => data_at(buf@, pos as int, len as int, type_) == Err::<
                    DataModel,
                    DnsError,
                >(e),
            },
    {
        if pos > buf.len() || len > buf.len() - pos {
            return Err(DnsError::TruncatedMessage);
        }
        if type_ == TYPE_A {
            if len != 4 {
                return Err(DnsError::MalformedRecord);
            }
            Ok(
                RecordData::Address(
                    Ipv4Address(buf[pos], buf[pos + 1], buf[pos + 2], buf[pos + 3]),
                ),
            )
        } else if type_ == TYPE_NS || type_ == TYPE_CNAME {
            match decode_name(buf, pos) {
                Err(e) => Err(e),
                Ok((name, consumed)) => {
                    if consumed != len {
                        return Err(DnsError::MalformedRecord);
                    }
                    Ok(RecordData::Name(name))
                },
            }
        } else {
            Ok(RecordData::Raw(copy_range(buf, pos, len)))
        }
    }
}

impl ResourceRecord {
    /// The wire form of the record. Fails with `InvalidLabel` or
    /// `NameTooLong` where encoding a name does, and with `MalformedRecord`
    /// if the data is not of the kind the type asks for or is longer than
    /// 65535 bytes.
    pub fn to_bytes(&self) -> (r: Result<Vec<u8>, DnsError>)
        ensures
            bytes_result(r) == record_wire(self@),
    {
        let mut out = match self.name.encode() {
            Err(e) => {
                return Err(e);
            },
            Ok(bytes) => bytes,
        };
        if !self.data.fits(self.type_) {
            return Err(DnsError::MalformedRecord);
        }
        let data = match self.data.to_bytes() {
            Err(e) => {
                return Err(e);
            },
            Ok(bytes) => bytes,
        };
        if data.len() > MAX_DATA_LEN {
            return Err(DnsError::MalformedRecord);
        }
        push_u16(&mut out, self.type_);
        push_u16(&mut out, self.class);
        push_u32(&mut out, self.ttl);
        push_u16(&mut out, data.len() as u16);
        push_bytes(&mut out, &data);
        Ok(out)
    }

    /// Reads the record at `pos` of `buf`; gives it with the number of bytes
    /// it takes there.
    pub fn decode(buf: &[u8], pos: usize) -> (r: Result<(ResourceRecord, usize), DnsError>)
        ensures
            match r {
                Ok((record, consumed)) => record_at(buf@, pos as int) == Ok::<
                    (RecordModel, int),
                    DnsError,
                >((record@, pos + consumed)) && 0 < consumed && pos + consumed <= buf@.len(),
                Err(e) => record_at(buf@, pos as int) == Err::<(RecordModel, int), DnsError>(e),
            },
    {
        let total = buf.len();
        let (name, name_len) = match decode_name(buf, pos) {
            Err(e) => {
                return Err(e);
            },
            Ok(found) => found,
        };
        let fixed = pos + name_len;
        if total - fixed < RECORD_FIXED_LEN {
            return Err(DnsError::TruncatedMessage);
        }
        let type_ = read_u16(buf, fixed);
        let class = read_u16(buf, fixed + 2);
        let ttl = read_u32(buf, fixed + 4);
        let len = read_u16(buf, fixed + 8) as usize;
        let start = fixed + RECORD_FIXED_LEN;
        if total - start < len {
            return Err(DnsError::TruncatedMessage);
        }
        match RecordData::decode(buf, start, len, type_) {
            Err(e) => Err(e),
            Ok(data) => Ok(
                (ResourceRecord { name, type_, class, ttl, data }, name_len + RECORD_FIXED_LEN + len),
            ),
        }
    }
}

} // verus!
