//! A bounds-checked cursor over a byte buffer, and decoders for the
//! offset-based table layout that the manifest body is written in.
use crate::error::Error;
use vstd::prelude::*;
use vstd::slice::slice_subrange;
use vstd::utf8::{decode_utf8, valid_utf8};

verus! {

/// Little-endian unsigned 16-bit value of the two bytes at `i`.
pub open spec fn u16_le(d: Seq<u8>, i: int) -> int {
    d[i] as int + d[i + 1] as int * 0x100
}

/// Little-endian unsigned 32-bit value of the four bytes at `i`.
pub open spec fn u32_le(d: Seq<u8>, i: int) -> int {
    u16_le(d, i) + u16_le(d, i + 2) * 0x1_0000
}

/// Little-endian unsigned 64-bit value of the eight bytes at `i`.
pub open spec fn u64_le(d: Seq<u8>, i: int) -> int {
    u32_le(d, i) + u32_le(d, i + 4) * 0x1_0000_0000
}

/// Two's complement reading of a 16-bit unsigned value.
pub open spec fn signed16(u: int) -> int {
    if u >= 0x8000 { u - 0x1_0000 } else { u }
}

/// Two's complement reading of a 32-bit unsigned value.
pub open spec fn signed32(u: int) -> int {
    if u >= 0x8000_0000 { u - 0x1_0000_0000 } else { u }
}

/// Two's complement reading of a 64-bit unsigned value.
pub open spec fn signed64(u: int) -> int {
    if u >= 0x8000_0000_0000_0000 { u - 0x1_0000_0000_0000_0000 } else { u }
}

/// Whether `w` bytes can be read at `i`.
pub open spec fn fits(d: Seq<u8>, i: int, w: int) -> bool {
    0 <= i && i + w <= d.len()
}

/// What the signed relative offset stored at `i` points to: `None` when it
/// cannot be read or leaves the buffer, `Some(None)` when it is null.
pub open spec fn deref_at(d: Seq<u8>, i: int) -> Option<Option<int>> {
    if fits(d, i, 4) {
        let delta = signed32(u32_le(d, i));
        if delta == 0 {
            Some(None)
        } else if 0 <= i + delta <= d.len() {
            Some(Some(i + delta))
        } else {
            None
        }
    } else {
        None
    }
}

/// Why the relative offset stored at `i` cannot be followed, when it cannot.
pub open spec fn deref_error(d: Seq<u8>, i: int) -> Error {
    if !fits(d, i, 4) {
        Error::ReadNum
    } else if signed32(u32_le(d, i)) < 0 {
        Error::RelativeUnderflow
    } else {
        Error::RelativeOverflow
    }
}

/// Why the table whose reference is stored at `i` cannot be decoded, or
/// `None` when it can.
pub open spec fn table_error(d: Seq<u8>, i: int) -> Option<Error> {
    match deref_at(d, i) {
        None => Some(deref_error(d, i)),
        Some(None) => Some(Error::NullTable),
        Some(Some(rec)) => {
            if !fits(d, rec, 4) {
                Some(Error::ReadNum)
            } else {
                let back = signed32(u32_le(d, rec));
                let vt = rec - back;
                if back == 0 {
                    Some(Error::NullVtable)
                } else if back > rec {
                    Some(Error::RelativeUnderflow)
                } else if vt > d.len() {
                    Some(Error::OffsetOverflow)
                } else if !fits(d, vt, 2) {
                    Some(Error::ReadNum)
                } else if u16_le(d, vt) < 4 {
                    Some(Error::VtableTooSmall)
                } else if vt + 4 > d.len() {
                    Some(Error::OffsetOverflow)
                } else if vt + 4 + 2 * ((u16_le(d, vt) - 4) / 2) > d.len() {
                    Some(Error::ReadNum)
                } else {
                    None
                }
            }
        },
    }
}

/// The table whose reference is stored at `i`: the position of its record and
/// its field offsets, or `None` when the layout is broken.
pub open spec fn table_at(d: Seq<u8>, i: int) -> Option<(int, Seq<u16>)> {
    match deref_at(d, i) {
        Some(Some(rec)) => {
            if fits(d, rec, 4) {
                let back = signed32(u32_le(d, rec));
                let vt = rec - back;
                if back != 0 && 0 <= vt && vt + 4 <= d.len() && u16_le(d, vt) >= 4 {
                    let n = (u16_le(d, vt) - 4) / 2;
                    if vt + 4 + 2 * n <= d.len() {
                        Some((rec, Seq::new(n as nat, |k: int| u16_le(d, vt + 4 + 2 * k) as u16)))
                    } else {
                        None
                    }
                } else {
                    None
                }
            } else {
                None
            }
        },
        _ => None,
    }
}

/// Where field `k` of the table `t` is stored: `Some(None)` when absent,
/// `None` when its offset leaves the buffer.
pub open spec fn field_at(d: Seq<u8>, t: (int, Seq<u16>), k: int) -> Option<Option<int>> {
    if k < 0 || k >= t.1.len() || t.1[k] == 0 {
        Some(None)
    } else if t.0 + t.1[k] <= d.len() {
        Some(Some(t.0 + t.1[k]))
    } else {
        None
    }
}

/// The value of field `k` of table `t`, with the default for an absent field.
pub open spec fn field_or_default<T: ReadPtr>(d: Seq<u8>, t: (int, Seq<u16>), k: int) -> Option<
    T::Model,
> {
    match field_at(d, t, k) {
        None => None,
        Some(None) => Some(T::default_model()),
        Some(Some(p)) => T::spec_read(d, p),
    }
}

/// A position in an immutable byte buffer.
#[derive(Clone, Copy)]
pub struct Ptr<'a> {
    pub data: &'a [u8],
    pub index: usize,
}

/// A decoded table: the cursor at its record and its per-field offsets.
pub struct Table<'a> {
    pub offset: Ptr<'a>,
    pub fields: Vec<u16>,
}

/// A kind of value that can be decoded from a position in a buffer.
pub trait ReadPtr: Sized {
    /// The mathematical value that a decoded value stands for.
    type Model;

    spec fn model(&self) -> Self::Model;

    /// Width of the slot that holds one value of this kind in a vector.
    spec fn spec_size() -> nat;

    /// The value stored at `i`, or `None` when it cannot be decoded.
    spec fn spec_read(d: Seq<u8>, i: int) -> Option<Self::Model>;

    /// The value an absent field stands for.
    spec fn default_model() -> Self::Model;

    /// The error that decoding at `i` gives, where the layout at `i` itself
    /// already decides it (`None` where it does not).
    spec fn spec_error(d: Seq<u8>, i: int) -> Option<Error>;

    fn size() -> (r: usize)
        ensures
            r == Self::spec_size(),
            1 <= r <= 8,
    ;

    fn default_value() -> (r: Self)
        ensures
            r.model() == Self::default_model(),
    ;

    fn from_ptr(p: Ptr<'_>) -> (r: Result<Self, Error>)
        requires
            p.wf(),
        ensures
            match r {
                Ok(v) => Self::spec_read(p.data@, p.index as int) == Some(v.model()),
                Err(_) => Self::spec_read(p.data@, p.index as int) is None,
            },
            Self::spec_error(p.data@, p.index as int) matches Some(e) ==> r == Err::<Self, Error>(e),
    ;
}

impl<'a> Ptr<'a> {
    pub open spec fn wf(&self) -> bool {
        self.index <= self.data@.len()
    }

    pub fn new(data: &'a [u8], index: usize) -> (r: Result<Self, Error>)
        ensures
            match r {
                Ok(p) => p.data == data && p.index == index && p.wf(),
                Err(e) => index > data@.len() && e == Error::IndexOutOfRange,
            },
    {
        if index > data.len() {
            Err(Error::IndexOutOfRange)
        } else {
            Ok(Ptr { data, index })
        }
    }

    /// Decodes a value of kind `T` at this position.
    pub fn get<T: ReadPtr>(self) -> (r: Result<T, Error>)
        requires
            self.wf(),
        ensures
            match r {
                Ok(v) => T::spec_read(self.data@, self.index as int) == Some(v.model()),
                Err(_) => T::spec_read(self.data@, self.index as int) is None,
            },
    {
        T::from_ptr(self)
    }

    /// Moves by a signed delta; a zero delta is the null outcome.
    pub fn add_relative(self, relative: isize) -> (r: Result<Option<Self>, Error>)
        requires
            self.wf(),
        ensures
            match r {
                Ok(None) => relative == 0,
                Ok(Some(q)) => relative != 0 && q.data == self.data && q.index == self.index
                    + relative && q.wf(),
                Err(e) => relative != 0 && !(0 <= self.index + relative <= self.data@.len()) && e == (
                if relative < 0 {
                    Error::RelativeUnderflow
                } else {
                    Error::RelativeOverflow
                }),
            },
    {
        let data = self.data;
        let index = self.index;
        if relative < 0 {
            let back = (-(relative + 1)) as usize;
            if back >= index {
                Err(Error::RelativeUnderflow)
            } else {
                Ok(Some(Ptr { data, index: index - back - 1 }))
            }
        } else if relative > 0 {
            if relative as usize > data.len() - index {
                Err(Error::RelativeOverflow)
            } else {
                Ok(Some(Ptr { data, index: index + relative as usize }))
            }
        } else {
            Ok(None)
        }
    }

    /// Moves forward by `offset` bytes.
    pub fn add_offset(self, offset: usize) -> (r: Result<Self, Error>)
        requires
            self.wf(),
        ensures
            match r {
                Ok(q) => q.data == self.data && q.index == self.index + offset && q.wf(),
                Err(e) => self.index + offset > self.data@.len() && e == Error::OffsetOverflow,
            },
    {
        if offset > self.data.len() - self.index {
            Err(Error::OffsetOverflow)
        } else {
            Ok(Ptr { data: self.data, index: self.index + offset })
        }
    }

    /// Follows the signed relative offset stored at this position.
    pub fn read_relative(self) -> (r: Result<Option<Self>, Error>)
        requires
            self.wf(),
        ensures
            match r {
                Ok(None) => deref_at(self.data@, self.index as int) == Some(None::<int>),
                Ok(Some(q)) => deref_at(self.data@, self.index as int) == Some(Some(q.index as int))
                    && q.data == self.data && q.wf(),
                Err(e) => deref_at(self.data@, self.index as int) is None && e == deref_error(
                    self.data@,
                    self.index as int,
                ),
            },
    {
        let relative = read_i32(self)?;
        self.add_relative(relative as isize)
    }
}

/// Reads the little-endian `u16` at `p`.
fn read_u16(p: Ptr<'_>) -> (r: Result<u16, Error>)
    requires
        p.wf(),
    ensures
        match r {
            Ok(v) => fits(p.data@, p.index as int, 2) && v == u16_le(p.data@, p.index as int),
            Err(e) => !fits(p.data@, p.index as int, 2) && e == Error::ReadNum,
        },
{
    if p.data.len() - p.index >= 2 {
        let i = p.index;
        Ok(p.data[i] as u16 + p.data[i + 1] as u16 * 0x100)
    } else {
        Err(Error::ReadNum)
    }
}

/// Reads the little-endian `u32` at `p`.
fn read_u32(p: Ptr<'_>) -> (r: Result<u32, Error>)
    requires
        p.wf(),
    ensures
        match r {
            Ok(v) => fits(p.data@, p.index as int, 4) && v == u32_le(p.data@, p.index as int),
            Err(e) => !fits(p.data@, p.index as int, 4) && e == Error::ReadNum,
        },
{
    if p.data.len() - p.index >= 4 {
        let i = p.index;
        let lo = p.data[i] as u32 + p.data[i + 1] as u32 * 0x100;
        let hi = p.data[i + 2] as u32 + p.data[i + 3] as u32 * 0x100;
        Ok(lo + hi * 0x1_0000)
    } else {
        Err(Error::ReadNum)
    }
}

/// Reads the little-endian `u64` at `p`.
fn read_u64(p: Ptr<'_>) -> (r: Result<u64, Error>)
    requires
        p.wf(),
    ensures
        match r {
            Ok(v) => fits(p.data@, p.index as int, 8) && v == u64_le(p.data@, p.index as int),
            Err(e) => !fits(p.data@, p.index as int, 8) && e == Error::ReadNum,
        },
{
    if p.data.len() - p.index >= 8 {
        let lo = read_u32(p)?;
        let hi = read_u32(Ptr { data: p.data, index: p.index + 4 })?;
        Ok(lo as u64 + hi as u64 * 0x1_0000_0000)
    } else {
        Err(Error::ReadNum)
    }
}

/// Reads the little-endian two's complement `i32` at `p`.
fn read_i32(p: Ptr<'_>) -> (r: Result<i32, Error>)
    requires
        p.wf(),
    ensures
        match r {
            Ok(v) => fits(p.data@, p.index as int, 4) && v == signed32(
                u32_le(p.data@, p.index as int),
            ),
            Err(e) => !fits(p.data@, p.index as int, 4) && e == Error::ReadNum,
        },
{
    let u = read_u32(p)?;
    if u >= 0x8000_0000 {
        Ok(((u - 0x8000_0000) as i32) - 0x7fff_ffff - 1)
    } else {
        Ok(u as i32)
    }
}


/// Two's complement reading of an 8-bit unsigned value.
pub open spec fn signed8(u: int) -> int {
    if u >= 0x80 { u - 0x100 } else { u }
}

/// Reads the byte at `p`.
fn read_u8(p: Ptr<'_>) -> (r: Result<u8, Error>)
    requires
        p.wf(),
    ensures
        match r {
            Ok(v) => fits(p.data@, p.index as int, 1) && v == p.data@[p.index as int],
            Err(e) => !fits(p.data@, p.index as int, 1) && e == Error::ReadNum,
        },
{
    if p.data.len() - p.index >= 1 {
        Ok(p.data[p.index])
    } else {
        Err(Error::ReadNum)
    }
}

/// Reads the two's complement `i8` at `p`.
fn read_i8(p: Ptr<'_>) -> (r: Result<i8, Error>)
    requires
        p.wf(),
    ensures
        match r {
            Ok(v) => fits(p.data@, p.index as int, 1) && v == signed8(p.data@[p.index as int] as int),
            Err(e) => !fits(p.data@, p.index as int, 1) && e == Error::ReadNum,
        },
{
    let u = read_u8(p)?;
    if u >= 0x80 {
        Ok(((u - 0x80) as i8) - 0x7f - 1)
    } else {
        Ok(u as i8)
    }
}

/// Reads the little-endian two's complement `i16` at `p`.
fn read_i16(p: Ptr<'_>) -> (r: Result<i16, Error>)
    requires
        p.wf(),
    ensures
        match r {
            Ok(v) => fits(p.data@, p.index as int, 2) && v == signed16(u16_le(p.data@, p.index as int)),
            Err(e) => !fits(p.data@, p.index as int, 2) && e == Error::ReadNum,
        },
{
    let u = read_u16(p)?;
    if u >= 0x8000 {
        Ok(((u - 0x8000) as i16) - 0x7fff - 1)
    } else {
        Ok(u as i16)
    }
}

/// Reads the little-endian two's complement `i64` at `p`.
fn read_i64(p: Ptr<'_>) -> (r: Result<i64, Error>)
    requires
        p.wf(),
    ensures
        match r {
            Ok(v) => fits(p.data@, p.index as int, 8) && v == signed64(u64_le(p.data@, p.index as int)),
            Err(e) => !fits(p.data@, p.index as int, 8) && e == Error::ReadNum,
        },
{
    let u = read_u64(p)?;
    if u >= 0x8000_0000_0000_0000 {
        Ok(((u - 0x8000_0000_0000_0000) as i64) - 0x7fff_ffff_ffff_ffff - 1)
    } else {
        Ok(u as i64)
    }
}

impl ReadPtr for bool {
    type Model = bool;

    open spec fn model(&self) -> bool {
        *self
    }

    open spec fn spec_size() -> nat {
        1
    }

    open spec fn spec_read(d: Seq<u8>, i: int) -> Option<bool> {
        if fits(d, i, 1) {
            Some(d[i] != 0)
        } else {
            None
        }
    }

    open spec fn spec_error(d: Seq<u8>, i: int) -> Option<Error> {
        if fits(d, i, 1) {
            None
        } else {
            Some(Error::ReadNum)
        }
    }

    open spec fn default_model() -> bool {
        false
    }

    fn size() -> (r: usize) {
        1
    }

    fn default_value() -> (r: bool) {
        false
    }

    fn from_ptr(p: Ptr<'_>) -> (r: Result<bool, Error>) {
        let b = read_u8(p)?;
        Ok(b != 0)
    }
}

impl ReadPtr for u8 {
    type Model = u8;

    open spec fn model(&self) -> u8 {
        *self
    }

    open spec fn spec_size() -> nat {
        1
    }

    open spec fn spec_read(d: Seq<u8>, i: int) -> Option<u8> {
        if fits(d, i, 1) {
            Some(d[i] as u8)
        } else {
            None
        }
    }

    open spec fn spec_error(d: Seq<u8>, i: int) -> Option<Error> {
        if fits(d, i, 1) {
            None
        } else {
            Some(Error::ReadNum)
        }
    }

    open spec fn default_model() -> u8 {
        0
    }

    fn size() -> (r: usize) {
        1
    }

    fn default_value() -> (r: u8) {
        0
    }

    fn from_ptr(p: Ptr<'_>) -> (r: Result<u8, Error>) {
        read_u8(p)
    }
}

impl ReadPtr for i8 {
    type Model = i8;

    open spec fn model(&self) -> i8 {
        *self
    }

    open spec fn spec_size() -> nat {
        1
    }

    open spec fn spec_read(d: Seq<u8>, i: int) -> Option<i8> {
        if fits(d, i, 1) {
            Some(signed8(d[i] as int) as i8)
        } else {
            None
        }
    }

    open spec fn spec_error(d: Seq<u8>, i: int) -> Option<Error> {
        if fits(d, i, 1) {
            None
        } else {
            Some(Error::ReadNum)
        }
    }

    open spec fn default_model() -> i8 {
        0
    }

    fn size() -> (r: usize) {
        1
    }

    fn default_value() -> (r: i8) {
        0
    }

    fn from_ptr(p: Ptr<'_>) -> (r: Result<i8, Error>) {
        read_i8(p)
    }
}

impl ReadPtr for u16 {
    type Model = u16;

    open spec fn model(&self) -> u16 {
        *self
    }

    open spec fn spec_size() -> nat {
        2
    }

    open spec fn spec_read(d: Seq<u8>, i: int) -> Option<u16> {
        if fits(d, i, 2) {
            Some(u16_le(d, i) as u16)
        } else {
            None
        }
    }

    open spec fn spec_error(d: Seq<u8>, i: int) -> Option<Error> {
        if fits(d, i, 2) {
            None
        } else {
            Some(Error::ReadNum)
        }
    }

    open spec fn default_model() -> u16 {
        0
    }

    fn size() -> (r: usize) {
        2
    }

    fn default_value() -> (r: u16) {
        0
    }

    fn from_ptr(p: Ptr<'_>) -> (r: Result<u16, Error>) {
        read_u16(p)
    }
}

impl ReadPtr for i16 {
    type Model = i16;

    open spec fn model(&self) -> i16 {
        *self
    }

    open spec fn spec_size() -> nat {
        2
    }

    open spec fn spec_read(d: Seq<u8>, i: int) -> Option<i16> {
        if fits(d, i, 2) {
            Some(signed16(u16_le(d, i)) as i16)
        } else {
            None
        }
    }

    open spec fn spec_error(d: Seq<u8>, i: int) -> Option<Error> {
        if fits(d, i, 2) {
            None
        } else {
            Some(Error::ReadNum)
        }
    }

    open spec fn default_model() -> i16 {
        0
    }

    fn size() -> (r: usize) {
        2
    }

    fn default_value() -> (r: i16) {
        0
    }

    fn from_ptr(p: Ptr<'_>) -> (r: Result<i16, Error>) {
        read_i16(p)
    }
}

impl ReadPtr for u32 {
    type Model = u32;

    open spec fn model(&self) -> u32 {
        *self
    }

    open spec fn spec_size() -> nat {
        4
    }

    open spec fn spec_read(d: Seq<u8>, i: int) -> Option<u32> {
        if fits(d, i, 4) {
            Some(u32_le(d, i) as u32)
        } else {
            None
        }
    }

    open spec fn spec_error(d: Seq<u8>, i: int) -> Option<Error> {
        if fits(d, i, 4) {
            None
        } else {
            Some(Error::ReadNum)
        }
    }

    open spec fn default_model() -> u32 {
        0
    }

    fn size() -> (r: usize) {
        4
    }

    fn default_value() -> (r: u32) {
        0
    }

    fn from_ptr(p: Ptr<'_>) -> (r: Result<u32, Error>) {
        read_u32(p)
    }
}

impl ReadPtr for i32 {
    type Model = i32;

    open spec fn model(&self) -> i32 {
        *self
    }

    open spec fn spec_size() -> nat {
        4
    }

    open spec fn spec_read(d: Seq<u8>, i: int) -> Option<i32> {
        if fits(d, i, 4) {
            Some(signed32(u32_le(d, i)) as i32)
        } else {
            None
        }
    }

    open spec fn spec_error(d: Seq<u8>, i: int) -> Option<Error> {
        if fits(d, i, 4) {
            None
        } else {
            Some(Error::ReadNum)
        }
    }

    open spec fn default_model() -> i32 {
        0
    }

    fn size() -> (r: usize) {
        4
    }

    fn default_value() -> (r: i32) {
        0
    }

    fn from_ptr(p: Ptr<'_>) -> (r: Result<i32, Error>) {
        read_i32(p)
    }
}

impl ReadPtr for u64 {
    type Model = u64;

    open spec fn model(&self) -> u64 {
        *self
    }

    open spec fn spec_size() -> nat {
        8
    }

    open spec fn spec_read(d: Seq<u8>, i: int) -> Option<u64> {
        if fits(d, i, 8) {
            Some(u64_le(d, i) as u64)
        } else {
            None
        }
    }

    open spec fn spec_error(d: Seq<u8>, i: int) -> Option<Error> {
        if fits(d, i, 8) {
            None
        } else {
            Some(Error::ReadNum)
        }
    }

    open spec fn default_model() -> u64 {
        0
    }

    fn size() -> (r: usize) {
        8
    }

    fn default_value() -> (r: u64) {
        0
    }

    fn from_ptr(p: Ptr<'_>) -> (r: Result<u64, Error>) {
        read_u64(p)
    }
}

impl ReadPtr for i64 {
    type Model = i64;

    open spec fn model(&self) -> i64 {
        *self
    }

    open spec fn spec_size() -> nat {
        8
    }

    open spec fn spec_read(d: Seq<u8>, i: int) -> Option<i64> {
        if fits(d, i, 8) {
            Some(signed64(u64_le(d, i)) as i64)
        } else {
            None
        }
    }

    open spec fn spec_error(d: Seq<u8>, i: int) -> Option<Error> {
        if fits(d, i, 8) {
            None
        } else {
            Some(Error::ReadNum)
        }
    }

    open spec fn default_model() -> i64 {
        0
    }

    fn size() -> (r: usize) {
        8
    }

    fn default_value() -> (r: i64) {
        0
    }

    fn from_ptr(p: Ptr<'_>) -> (r: Result<i64, Error>) {
        read_i64(p)
    }
}

/// The `j`-th element of a vector of `T` whose elements start at `base`.
pub open spec fn elem_at<T: ReadPtr>(d: Seq<u8>, base: int, j: int) -> Option<T::Model> {
    T::spec_read(d, base + j * T::spec_size())
}

/// What field `k` of table `t` holds: `None` when its offset is broken,
/// `Some(None)` when it is absent, `Some(Some(None))` when it cannot be decoded.
pub open spec fn field_value<T: ReadPtr>(d: Seq<u8>, t: (int, Seq<u16>), k: int) -> Option<
    Option<Option<T::Model>>,
> {
    match field_at(d, t, k) {
        None => None,
        Some(None) => Some(None),
        Some(Some(p)) => Some(Some(T::spec_read(d, p))),
    }
}

/// Relies on `std::str::from_utf8`: it accepts exactly the well-formed UTF-8
/// byte sequences, and the `str` it returns holds their decoded characters.
#[verifier::external_body]
fn utf8_to_string(b: &[u8]) -> (r: Option<String>)
    ensures
        match r {
            Some(s) => valid_utf8(b@) && s@ == decode_utf8(b@),
            None => !valid_utf8(b@),
        },
{
    match std::str::from_utf8(b) {
        Ok(s) => Some(s.to_string()),
        Err(_) => None,
    }
}

impl<'a> Table<'a> {
    pub open spec fn model(&self) -> (int, Seq<u16>) {
        (self.offset.index as int, self.fields@)
    }

    pub open spec fn wf(&self) -> bool {
        self.offset.wf()
    }

    /// Decodes the table whose reference is stored at `p`.
    #[verifier::loop_isolation(false)]
    pub fn from_ptr(p: Ptr<'a>) -> (r: Result<Self, Error>)
        requires
            p.wf(),
        ensures
            match r {
                Ok(t) => table_at(p.data@, p.index as int) == Some(t.model()) && t.offset.data
                    == p.data && t.wf(),
                Err(e) => table_at(p.data@, p.index as int) is None && table_error(
                    p.data@,
                    p.index as int,
                ) == Some(e),
            },
            table_error(p.data@, p.index as int) matches Some(e) ==> r == Err::<Table, Error>(e),
    {
        let ghost d = p.data@;
        let rec = match p.read_relative()? {
            Some(q) => q,
            None => return Err(Error::NullTable),
        };
        let back = read_i32(rec)?;
        // The record's first word points back to its vtable.
        let vt = if back == 0 {
            return Err(Error::NullVtable);
        } else if back > 0 {
            if back as usize > rec.index {
                return Err(Error::RelativeUnderflow);
            }
            Ptr { data: rec.data, index: rec.index - back as usize }
        } else {
            rec.add_offset((-(back + 1)) as usize + 1)?
        };
        let vsize = read_u16(vt)?;
        if vsize < 4 {
            return Err(Error::VtableTooSmall);
        }
        let mut cur = vt.add_offset(4)?;
        let n = (vsize - 4) / 2;
        let mut fields: Vec<u16> = Vec::new();
        let mut k: u16 = 0;
        while k < n
            invariant
                cur.data == p.data,
                cur.wf(),
                vt.index + 4 <= d.len(),
                k <= n,
                cur.index == vt.index + 4 + 2 * k,
                fields@ =~= Seq::new(k as nat, |j: int| u16_le(d, vt.index + 4 + 2 * j) as u16),
            decreases n - k,
        {
            let f = read_u16(cur)?;
            fields.push(f);
            cur = cur.add_offset(2)?;
            k = k + 1;
        }
        Ok(Table { offset: rec, fields })
    }

    /// Where field `index` is stored, or `None` when it is absent.
    pub fn get_ptr(&self, index: usize) -> (r: Result<Option<Ptr<'a>>, Error>)
        requires
            self.wf(),
        ensures
            match r {
                Ok(None) => field_at(self.offset.data@, self.model(), index as int) == Some(
                    None::<int>,
                ),
                Ok(Some(q)) => field_at(self.offset.data@, self.model(), index as int) == Some(
                    Some(q.index as int),
                ) && q.data == self.offset.data && q.wf(),
                Err(e) => field_at(self.offset.data@, self.model(), index as int) is None && e
                    == Error::OffsetOverflow,
            },
    {
        if index >= self.fields.len() {
            Ok(None)
        } else {
            let offset = self.fields[index] as usize;
            if offset == 0 {
                Ok(None)
            } else {
                Ok(Some(self.offset.add_offset(offset)?))
            }
        }
    }

    /// The value of field `index`, or `None` when it is absent.
    pub fn get<T: ReadPtr>(&self, index: usize) -> (r: Result<Option<T>, Error>)
        requires
            self.wf(),
        ensures
            match r {
                Ok(None) => field_value::<T>(self.offset.data@, self.model(), index as int)
                    == Some(None::<Option<T::Model>>),
                Ok(Some(v)) => field_value::<T>(self.offset.data@, self.model(), index as int)
                    == Some(Some(Some(v.model()))),
                Err(_) => field_value::<T>(self.offset.data@, self.model(), index as int) is None
                    || field_value::<T>(self.offset.data@, self.model(), index as int) == Some(
                    Some(None::<T::Model>),
                ),
            },
            field_at(self.offset.data@, self.model(), index as int) is None ==> r == Err::<Option<T>, Error>(
                Error::OffsetOverflow,
            ),
            forall|p: int|
                field_at(self.offset.data@, self.model(), index as int) == Some(Some(p))
                    && #[trigger] T::spec_error(self.offset.data@, p) is Some ==> r == Err::<
                    Option<T>,
                    Error,
                >(T::spec_error(self.offset.data@, p)->0),
    {
        match self.get_ptr(index)? {
            Some(ptr) => Ok(Some(T::from_ptr(ptr)?)),
            None => Ok(None),
        }
    }

    /// The value of field `index`, or the kind's default when it is absent.
    pub fn get_or_default<T: ReadPtr>(&self, index: usize) -> (r: Result<T, Error>)
        requires
            self.wf(),
        ensures
            match r {
                Ok(v) => field_or_default::<T>(self.offset.data@, self.model(), index as int)
                    == Some(v.model()),
                Err(_) => field_or_default::<T>(self.offset.data@, self.model(), index as int) is None,
            },
            field_at(self.offset.data@, self.model(), index as int) is None ==> r == Err::<T, Error>(
                Error::OffsetOverflow,
            ),
            forall|p: int|
                field_at(self.offset.data@, self.model(), index as int) == Some(Some(p))
                    && #[trigger] T::spec_error(self.offset.data@, p) is Some ==> r == Err::<
                    T,
                    Error,
                >(T::spec_error(self.offset.data@, p)->0),
    {
        match self.get_ptr(index)? {
            Some(ptr) => T::from_ptr(ptr),
            None => Ok(T::default_value()),
        }
    }

    /// The value of field `index`, which must be present.
    pub fn get_or_error<T: ReadPtr>(&self, index: usize) -> (r: Result<T, Error>)
        requires
            self.wf(),
        ensures
            match r {
                Ok(v) => field_value::<T>(self.offset.data@, self.model(), index as int) == Some(
                    Some(Some(v.model())),
                ),
                Err(_) => !(field_value::<T>(self.offset.data@, self.model(), index as int) matches Some(
                    Some(Some(_)),
                )),
            },
            field_at(self.offset.data@, self.model(), index as int) is None ==> r == Err::<T, Error>(
                Error::OffsetOverflow,
            ),
            forall|p: int|
                field_at(self.offset.data@, self.model(), index as int) == Some(Some(p))
                    && #[trigger] T::spec_error(self.offset.data@, p) is Some ==> r == Err::<
                    T,
                    Error,
                >(T::spec_error(self.offset.data@, p)->0),
            field_at(self.offset.data@, self.model(), index as int) == Some(None::<int>) ==> r == Err::<
                T,
                Error,
            >(Error::NullField),
    {
        match self.get_ptr(index)? {
            Some(ptr) => T::from_ptr(ptr),
            None => Err(Error::NullField),
        }
    }
}

impl ReadPtr for String {
    type Model = Seq<char>;

    open spec fn model(&self) -> Seq<char> {
        self@
    }

    open spec fn spec_size() -> nat {
        4
    }

    open spec fn spec_read(d: Seq<u8>, i: int) -> Option<Seq<char>> {
        match deref_at(d, i) {
            None => None,
            Some(None) => Some(Seq::empty()),
            Some(Some(t)) => {
                if fits(d, t, 4) && t + 4 + u32_le(d, t) <= d.len() && valid_utf8(
                    d.subrange(t + 4, t + 4 + u32_le(d, t)),
                ) {
                    Some(decode_utf8(d.subrange(t + 4, t + 4 + u32_le(d, t))))
                } else {
                    None
                }
            },
        }
    }

    open spec fn spec_error(d: Seq<u8>, i: int) -> Option<Error> {
        match deref_at(d, i) {
            None => Some(deref_error(d, i)),
            Some(None) => None,
            Some(Some(t)) => {
                if !fits(d, t, 4) {
                    Some(Error::ReadNum)
                } else if t + 4 + u32_le(d, t) > d.len() {
                    Some(Error::StrData)
                } else if !valid_utf8(d.subrange(t + 4, t + 4 + u32_le(d, t))) {
                    Some(Error::StrEncoding)
                } else {
                    None
                }
            },
        }
    }

    open spec fn default_model() -> Seq<char> {
        Seq::empty()
    }

    fn size() -> (r: usize) {
        4
    }

    fn default_value() -> (r: String) {
        String::new()
    }

    fn from_ptr(p: Ptr<'_>) -> (r: Result<String, Error>) {
        let q = match p.read_relative()? {
            Some(q) => q,
            None => return Ok(String::new()),
        };
        let size32 = read_u32(q)?;
        let size = size32 as usize;
        let data = q.data;
        let index = q.add_offset(4)?.index;
        if data.len() - index >= size {
            match utf8_to_string(slice_subrange(data, index, index + size)) {
                Some(s) => Ok(s),
                None => Err(Error::StrEncoding),
            }
        } else {
            Err(Error::StrData)
        }
    }
}

impl<T: ReadPtr> ReadPtr for Vec<T> {
    type Model = Seq<T::Model>;

    open spec fn model(&self) -> Seq<T::Model> {
        self@.map_values(|x: T| x.model())
    }

    open spec fn spec_size() -> nat {
        4
    }

    open spec fn spec_read(d: Seq<u8>, i: int) -> Option<Seq<T::Model>> {
        match deref_at(d, i) {
            None => None,
            Some(None) => Some(Seq::empty()),
            Some(Some(t)) => {
                let n = u32_le(d, t);
                if fits(d, t, 4) && n * T::spec_size() <= d.len() - (t + 4) && forall|j: int|
                    0 <= j < n ==> (#[trigger] elem_at::<T>(d, t + 4, j)) is Some {
                    Some(Seq::new(n as nat, |j: int| elem_at::<T>(d, t + 4, j)->0))
                } else {
                    None
                }
            },
        }
    }

    open spec fn spec_error(d: Seq<u8>, i: int) -> Option<Error> {
        match deref_at(d, i) {
            None => Some(deref_error(d, i)),
            Some(None) => None,
            Some(Some(t)) => {
                if !fits(d, t, 4) {
                    Some(Error::ReadNum)
                } else if u32_le(d, t) * T::spec_size() > d.len() - (t + 4) {
                    Some(Error::VectorStorage)
                } else {
                    None
                }
            },
        }
    }

    open spec fn default_model() -> Seq<T::Model> {
        Seq::empty()
    }

    fn size() -> (r: usize) {
        4
    }

    fn default_value() -> (r: Vec<T>) {
        let v: Vec<T> = Vec::new();
        assert(v.model() =~= Seq::<T::Model>::empty());
        v
    }

    #[verifier::loop_isolation(false)]
    fn from_ptr(p: Ptr<'_>) -> (r: Result<Vec<T>, Error>) {
        let ghost d = p.data@;
        let q = match p.read_relative()? {
            Some(q) => q,
            None => {
                let v: Vec<T> = Vec::new();
                assert(v.model() =~= Seq::<T::Model>::empty());
                return Ok(v);
            },
        };
        let n = read_u32(q)?;
        let mut cur = q.add_offset(4)?;
        let sz = T::size();
        let ghost base = q.index + 4;
        assert((n as u64) * (sz as u64) <= 0xffff_ffff * 8) by (nonlinear_arith)
            requires
                sz <= 8,
        ;
        if (n as u64) * (sz as u64) > (cur.data.len() - cur.index) as u64 {
            return Err(Error::VectorStorage);
        }
        let mut results: Vec<T> = Vec::new();
        let mut j: u32 = 0;
        while j < n
            invariant
                cur.data == p.data,
                cur.wf(),
                j <= n,
                n == u32_le(d, q.index as int),
                n * sz <= d.len() - base,
                sz == T::spec_size(),
                cur.index == base + j * sz,
                results@.len() == j,
                forall|k: int| 0 <= k < j ==> Some(#[trigger] results@[k].model()) == elem_at::<T>(d, base, k),
            decreases n - j,
        {
            let v = match T::from_ptr(cur) {
                Ok(v) => v,
                Err(e) => {
                    assert(elem_at::<T>(d, base, j as int) is None);
                    return Err(e);
                },
            };
            results.push(v);
            assert((j + 1) * sz == j * sz + sz && (j + 1) * sz <= n * sz) by (nonlinear_arith)
                requires j < n;
            cur = cur.add_offset(sz)?;
            j = j + 1;
        }
        assert forall|k: int| 0 <= k < n implies (#[trigger] elem_at::<T>(d, base, k)) is Some by {
            assert(Some(results@[k].model()) == elem_at::<T>(d, base, k));
        }
        assert(results.model() =~= Seq::new(n as nat, |k: int| elem_at::<T>(d, base, k)->0));
        Ok(results)
    }
}

} // verus!
