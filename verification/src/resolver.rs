//! Typed reads from a memory image: little-endian integers, pointer chains and bounded
//! strings. Every step is checked, and the first step that fails ends the read.

use vstd::prelude::*;
use crate::image::{AccessError, ImageView, lemma_read_len, MemoryImage};
use crate::model::IntWidth;

verus! {

/// The error of a pointer that is null where it had to be followed.
pub open spec fn null_fault() -> AccessError {
    AccessError::OutOfRange { addr: 0, len: 0 }
}

/// The error of an address sum, from `base`, that leaves the address space.
pub open spec fn overflow_fault(base: u64) -> AccessError {
    AccessError::OutOfRange { addr: base, len: 0 }
}

/// The address `off` bytes behind `base`.
pub open spec fn offset_addr(base: u64, off: u64) -> Result<u64, AccessError> {
    if base + off <= u64::MAX {
        Ok((base + off) as u64)
    } else {
        Err(overflow_fault(base))
    }
}

pub fn offset_address(base: u64, off: u64) -> (addr: Result<u64, AccessError>)
    ensures
        addr == offset_addr(base, off),
{
    if off <= u64::MAX - base {
        Ok(base + off)
    } else {
        Err(AccessError::OutOfRange { addr: base, len: 0 })
    }
}

/// The number that two bytes spell, lowest byte first.
pub open spec fn le_u16(b: Seq<u8>) -> u16 {
    (b[0] as int + b[1] as int * 0x100) as u16
}

/// The number that four bytes spell, lowest byte first.
pub open spec fn le_u32(b: Seq<u8>) -> u32 {
    (b[0] as int + b[1] as int * 0x100 + b[2] as int * 0x1_0000 + b[3] as int * 0x100_0000) as u32
}

/// The number that eight bytes spell, lowest byte first.
pub open spec fn le_u64(b: Seq<u8>) -> u64 {
    (b[0] as int + b[1] as int * 0x100 + b[2] as int * 0x1_0000 + b[3] as int * 0x100_0000 + b[4] as int
        * 0x1_0000_0000 + b[5] as int * 0x100_0000_0000 + b[6] as int * 0x1_0000_0000_0000 + b[7] as int
        * 0x100_0000_0000_0000) as u64
}

pub open spec fn u8_at(image: ImageView, addr: u64) -> Result<u8, AccessError> {
    match image.read(addr, 1) {
        Ok(b) => Ok(b[0]),
        Err(e) => Err(e),
    }
}

pub open spec fn u16_at(image: ImageView, addr: u64) -> Result<u16, AccessError> {
    match image.read(addr, 2) {
        Ok(b) => Ok(le_u16(b)),
        Err(e) => Err(e),
    }
}

pub open spec fn u32_at(image: ImageView, addr: u64) -> Result<u32, AccessError> {
    match image.read(addr, 4) {
        Ok(b) => Ok(le_u32(b)),
        Err(e) => Err(e),
    }
}

pub open spec fn u64_at(image: ImageView, addr: u64) -> Result<u64, AccessError> {
    match image.read(addr, 8) {
        Ok(b) => Ok(le_u64(b)),
        Err(e) => Err(e),
    }
}

/// The pointer stored at `addr`.
pub open spec fn ptr_at(image: ImageView, addr: u64) -> Result<u64, AccessError> {
    u64_at(image, addr)
}

/// The signed integer of `width` bytes stored at `addr`.
pub open spec fn int_at(image: ImageView, addr: u64, width: IntWidth) -> Result<i64, AccessError> {
    match width {
        IntWidth::One => match u8_at(image, addr) {
            Ok(v) => Ok((if v >= 0x80 { v - 0x100 } else { v as int }) as i64),
            Err(e) => Err(e),
        },
        IntWidth::Two => match u16_at(image, addr) {
            Ok(v) => Ok((if v >= 0x8000 { v - 0x1_0000 } else { v as int }) as i64),
            Err(e) => Err(e),
        },
        IntWidth::Four => match u32_at(image, addr) {
            Ok(v) => Ok((if v >= 0x8000_0000 { v - 0x1_0000_0000 } else { v as int }) as i64),
            Err(e) => Err(e),
        },
        IntWidth::Eight => match u64_at(image, addr) {
            Ok(v) => Ok(
                (if v >= 0x8000_0000_0000_0000 {
                    v - 0x1_0000_0000_0000_0000
                } else {
                    v as int
                }) as i64,
            ),
            Err(e) => Err(e),
        },
    }
}

/// A signed integer that was read fits the width at which it was read.
pub proof fn lemma_int_at_fits(image: ImageView, addr: u64, width: IntWidth)
    ensures
        int_at(image, addr, width) matches Ok(v) ==> width.holds(v as int),
{
}

pub fn read_u8(image: &MemoryImage, addr: u64) -> (value: Result<u8, AccessError>)
    ensures
        value == u8_at(image@, addr),
{
    proof {
        lemma_read_len(image@, addr, 1);
    }
    match image.read(addr, 1) {
        Ok(b) => Ok(b[0]),
        Err(e) => Err(e),
    }
}

pub fn read_u16(image: &MemoryImage, addr: u64) -> (value: Result<u16, AccessError>)
    ensures
        value == u16_at(image@, addr),
{
    proof {
        lemma_read_len(image@, addr, 2);
    }
    match image.read(addr, 2) {
        Ok(b) => Ok(b[0] as u16 + b[1] as u16 * 0x100),
        Err(e) => Err(e),
    }
}

pub fn read_u32(image: &MemoryImage, addr: u64) -> (value: Result<u32, AccessError>)
    ensures
        value == u32_at(image@, addr),
{
    proof {
        lemma_read_len(image@, addr, 4);
    }
    match image.read(addr, 4) {
        Ok(b) => Ok(
            b[0] as u32 + b[1] as u32 * 0x100 + b[2] as u32 * 0x1_0000 + b[3] as u32 * 0x100_0000,
        ),
        Err(e) => Err(e),
    }
}

pub fn read_u64(image: &MemoryImage, addr: u64) -> (value: Result<u64, AccessError>)
    ensures
        value == u64_at(image@, addr),
{
    proof {
        lemma_read_len(image@, addr, 8);
    }
    match image.read(addr, 8) {
        Ok(b) => Ok(
            b[0] as u64 + b[1] as u64 * 0x100 + b[2] as u64 * 0x1_0000 + b[3] as u64 * 0x100_0000
                + b[4] as u64 * 0x1_0000_0000 + b[5] as u64 * 0x100_0000_0000 + b[6] as u64
                * 0x1_0000_0000_0000 + b[7] as u64 * 0x100_0000_0000_0000,
        ),
        Err(e) => Err(e),
    }
}

pub fn read_ptr(image: &MemoryImage, addr: u64) -> (value: Result<u64, AccessError>)
    ensures
        value == ptr_at(image@, addr),
{
    read_u64(image, addr)
}

/// Reads the signed integer of `width` bytes at `addr`.
pub fn read_int(image: &MemoryImage, addr: u64, width: IntWidth) -> (value: Result<
    i64,
    AccessError,
>)
    ensures
        value == int_at(image@, addr, width),
        value matches Ok(v) ==> width.holds(v as int),
{
    match width {
        IntWidth::One => match read_u8(image, addr) {
            Ok(v) => Ok(if v >= 0x80 { v as i64 - 0x100 } else { v as i64 }),
            Err(e) => Err(e),
        },
        IntWidth::Two => match read_u16(image, addr) {
            Ok(v) => Ok(if v >= 0x8000 { v as i64 - 0x1_0000 } else { v as i64 }),
            Err(e) => Err(e),
        },
        IntWidth::Four => match read_u32(image, addr) {
            Ok(v) => Ok(if v >= 0x8000_0000 { v as i64 - 0x1_0000_0000 } else { v as i64 }),
            Err(e) => Err(e),
        },
        IntWidth::Eight => match read_u64(image, addr) {
            Ok(v) => Ok(
                if v >= 0x8000_0000_0000_0000 {
                    (v - 0x8000_0000_0000_0000) as i64 - 0x4000_0000_0000_0000
                        - 0x4000_0000_0000_0000
                } else {
                    v as i64
                },
            ),
            Err(e) => Err(e),
        },
    }
}

/// A result with its value seen through its view.
pub open spec fn view_ok<T: View, E>(r: Result<T, E>) -> Result<T::V, E> {
    match r {
        Ok(value) => Ok(value@),
        Err(e) => Err(e),
    }
}

/// The byte stored `off` bytes behind `base`.
pub open spec fn u8_behind(image: ImageView, base: u64, off: u64) -> Result<u8, AccessError> {
    match offset_addr(base, off) {
        Ok(addr) => u8_at(image, addr),
        Err(e) => Err(e),
    }
}

/// The signed integer of `width` bytes stored `off` bytes behind `base`.
pub open spec fn int_behind(image: ImageView, base: u64, off: u64, width: IntWidth) -> Result<
    i64,
    AccessError,
> {
    match offset_addr(base, off) {
        Ok(addr) => int_at(image, addr, width),
        Err(e) => Err(e),
    }
}

pub fn read_u8_behind(image: &MemoryImage, base: u64, off: u64) -> (value: Result<u8, AccessError>)
    ensures
        value == u8_behind(image@, base, off),
{
    match offset_address(base, off) {
        Ok(addr) => read_u8(image, addr),
        Err(e) => Err(e),
    }
}

pub fn read_int_behind(image: &MemoryImage, base: u64, off: u64, width: IntWidth) -> (value:
    Result<i64, AccessError>)
    ensures
        value == int_behind(image@, base, off, width),
        value matches Ok(v) ==> width.holds(v as int),
{
    match offset_address(base, off) {
        Ok(addr) => read_int(image, addr, width),
        Err(e) => Err(e),
    }
}

/// The 32-bit number stored `off` bytes behind `base`.
pub open spec fn u32_behind(image: ImageView, base: u64, off: u64) -> Result<u32, AccessError> {
    match offset_addr(base, off) {
        Ok(addr) => u32_at(image, addr),
        Err(e) => Err(e),
    }
}

/// The 64-bit number stored `off` bytes behind `base`.
pub open spec fn u64_behind(image: ImageView, base: u64, off: u64) -> Result<u64, AccessError> {
    match offset_addr(base, off) {
        Ok(addr) => u64_at(image, addr),
        Err(e) => Err(e),
    }
}

pub fn read_u32_behind(image: &MemoryImage, base: u64, off: u64) -> (value: Result<
    u32,
    AccessError,
>)
    ensures
        value == u32_behind(image@, base, off),
{
    match offset_address(base, off) {
        Ok(addr) => read_u32(image, addr),
        Err(e) => Err(e),
    }
}

pub fn read_u64_behind(image: &MemoryImage, base: u64, off: u64) -> (value: Result<
    u64,
    AccessError,
>)
    ensures
        value == u64_behind(image@, base, off),
{
    match offset_address(base, off) {
        Ok(addr) => read_u64(image, addr),
        Err(e) => Err(e),
    }
}

/// One hop of a pointer chain: the pointer stored `off` bytes behind `cur`, which may not be
/// null.
pub open spec fn hop(image: ImageView, cur: u64, off: u64) -> Result<u64, AccessError> {
    if cur == 0 {
        Err(null_fault())
    } else {
        u64_behind(image, cur, off)
    }
}

/// Where the chain of `offsets`, from the `i`-th on, leads from `cur`.
pub open spec fn follow_from(image: ImageView, cur: u64, offsets: Seq<u64>, i: int) -> Result<
    u64,
    AccessError,
>
    decreases offsets.len() - i,
{
    if i < 0 || i >= offsets.len() {
        Ok(cur)
    } else {
        match hop(image, cur, offsets[i]) {
            Ok(next) => follow_from(image, next, offsets, i + 1),
            Err(e) => Err(e),
        }
    }
}

/// Where the chain of `offsets` leads from `base`: each hop adds its offset to the current
/// address and reads the pointer stored there. The chain ends at the first hop that starts
/// from null or cannot be read.
pub open spec fn follow_spec(image: ImageView, base: u64, offsets: Seq<u64>) -> Result<
    u64,
    AccessError,
> {
    follow_from(image, base, offsets, 0)
}

/// Follows the chain of `offsets` from `base`.
pub fn follow(image: &MemoryImage, base: u64, offsets: &[u64]) -> (addr: Result<u64, AccessError>)
    ensures
        addr == follow_spec(image@, base, offsets@),
{
    let mut cur = base;
    let mut i: usize = 0;
    while i < offsets.len()
        invariant
            i <= offsets@.len(),
            follow_from(image@, cur, offsets@, i as int) == follow_spec(image@, base, offsets@),
        decreases offsets@.len() - i,
    {
        if cur == 0 {
            return Err(AccessError::OutOfRange { addr: 0, len: 0 });
        }
        match read_u64_behind(image, cur, offsets[i]) {
            Ok(next) => {
                cur = next;
            },
            Err(e) => {
                return Err(e);
            },
        }
        i += 1;
    }
    Ok(cur)
}

/// The bytes from the `i`-th behind `addr` up to the first zero byte, or up to the `max`-th
/// byte where no zero comes before it.
pub open spec fn cstring_from(image: ImageView, addr: u64, max: nat, i: nat) -> Result<
    Seq<u8>,
    AccessError,
>
    decreases max - i,
{
    if i >= max {
        Ok(Seq::empty())
    } else if addr + i > u64::MAX {
        Err(overflow_fault(addr))
    } else {
        match u8_at(image, (addr + i) as u64) {
            Err(e) => Err(e),
            Ok(b) => if b == 0 {
                Ok(Seq::empty())
            } else {
                match cstring_from(image, addr, max, i + 1) {
                    Ok(rest) => Ok(seq![b] + rest),
                    Err(e) => Err(e),
                }
            },
        }
    }
}

/// The zero-terminated string at `addr`, cut off after `max` bytes.
pub open spec fn cstring(image: ImageView, addr: u64, max: nat) -> Result<Seq<u8>, AccessError> {
    cstring_from(image, addr, max, 0)
}

/// A string that was read is at most `max` bytes long and holds no zero byte.
pub proof fn lemma_cstring_bound(image: ImageView, addr: u64, max: nat, i: nat)
    ensures
        cstring_from(image, addr, max, i) matches Ok(text) ==> {
            &&& i + text.len() <= max || (text.len() == 0 && i >= max)
            &&& forall|k: int| 0 <= k < text.len() ==> text[k] != 0
        },
    decreases max - i,
{
    if i < max && addr + i <= u64::MAX {
        lemma_cstring_bound(image, addr, max, i + 1);
    }
}

pub open spec fn prepend(head: Seq<u8>, tail: Result<Seq<u8>, AccessError>) -> Result<
    Seq<u8>,
    AccessError,
> {
    match tail {
        Ok(rest) => Ok(head + rest),
        Err(e) => Err(e),
    }
}

/// Reads the zero-terminated string at `addr`, cut off after `max` bytes.
pub fn read_cstring(image: &MemoryImage, addr: u64, max: usize) -> (text: Result<
    Vec<u8>,
    AccessError,
>)
    ensures
        view_ok(text) == cstring(image@, addr, max as nat),
{
    let mut text: Vec<u8> = Vec::new();
    let mut i: usize = 0;
    assert(prepend(text@, cstring_from(image@, addr, max as nat, 0)) == cstring(
        image@,
        addr,
        max as nat,
    )) by {
        match cstring_from(image@, addr, max as nat, 0) {
            Ok(rest) => assert(text@ + rest =~= rest),
            Err(_) => {},
        }
    }
    while i < max
        invariant
            i <= max,
            prepend(text@, cstring_from(image@, addr, max as nat, i as nat)) == cstring(
                image@,
                addr,
                max as nat,
            ),
        decreases max - i,
    {
        if i as u64 > u64::MAX - addr {
            return Err(AccessError::OutOfRange { addr, len: 0 });
        }
        match read_u8(image, addr + i as u64) {
            Err(e) => {
                return Err(e);
            },
            Ok(b) => {
                if b == 0 {
                    assert(text@ + Seq::<u8>::empty() =~= text@);
                    return Ok(text);
                }
                let ghost before = text@;
                text.push(b);
                proof {
                    match cstring_from(image@, addr, max as nat, (i + 1) as nat) {
                        Ok(rest) => assert(before + (seq![b] + rest) =~= text@ + rest),
                        Err(_) => {},
                    }
                }
            },
        }
        i += 1;
    }
    assert(text@ + Seq::<u8>::empty() =~= text@);
    Ok(text)
}

/// The string whose address is stored `off` bytes behind `base`.
pub open spec fn text_behind(image: ImageView, base: u64, off: u64, max: nat) -> Result<
    Seq<u8>,
    AccessError,
> {
    match u64_behind(image, base, off) {
        Err(e) => Err(e),
        Ok(p) => if p == 0 {
            Err(null_fault())
        } else {
            cstring(image, p, max)
        },
    }
}

/// Reads the string whose address is stored `off` bytes behind `base`.
pub fn read_text_behind(image: &MemoryImage, base: u64, off: u64, max: usize) -> (text: Result<
    Vec<u8>,
    AccessError,
>)
    ensures
        view_ok(text) == text_behind(image@, base, off, max as nat),
{
    match read_u64_behind(image, base, off) {
        Err(e) => Err(e),
        Ok(p) => {
            if p == 0 {
                Err(AccessError::OutOfRange { addr: 0, len: 0 })
            } else {
                read_cstring(image, p, max)
            }
        },
    }
}

} // verus!
