//! The schema walker: decodes the reflection tables of each planned module into the model.
//!
//! A root table is a count and a pointer to that many descriptor pointers. A descriptor is a
//! record of fixed layout (a class, an enum or a named offset); classes and enums point to a
//! run of field or member records. All integers are little-endian, all pointers eight bytes.
//!
//! What cannot be read is recorded as a gap and skipped: a bad record never takes its
//! siblings or its owner with it.

use vstd::prelude::*;
use crate::image::{AccessError, ImageView, MemoryImage, ModuleRecord, ModuleRecordView};
use crate::model::{
    Class, class_names, ClassView, Enum, enum_names, EnumMember, EnumView, Field, field_views,
    FieldView, IntWidth, MemberView, ModelError, ModelView, Module, module_names, ModuleView,
    Offset, offset_names, OffsetView, opt_bytes, SchemaModel
};
use crate::named::{find_named, names_of};
use crate::resolver::{
    follow, follow_spec, int_behind, lemma_int_at_fits, null_fault, offset_addr, offset_address,
    overflow_fault, ptr_at, read_int_behind, read_ptr, read_text_behind, read_u32_behind,
    read_u64_behind, read_u8_behind, text_behind, u32_behind, u64_behind, u8_behind, view_ok
};
use crate::text::copy_bytes;

verus! {

/// No string read from the target is longer than this; longer ones are cut off.
pub const MAX_STRING_LEN: usize = 256;

/// No table and no record run is taken to hold more entries than this.
pub const MAX_ENTRIES: u32 = 0x1_0000;

/// How many bytes a pointer takes.
pub const POINTER_SIZE: u64 = 0x8;

/// A root table: where its count of descriptors stands, a 32-bit number.
pub const TABLE_COUNT_AT: u64 = 0x0;

/// A root table: where the pointer to its run of descriptor pointers stands.
pub const TABLE_ENTRIES_AT: u64 = 0x8;

/// A class descriptor: where the pointer to its name stands.
pub const CLASS_NAME_AT: u64 = 0x0;

/// A class descriptor: where the class's size stands, a 32-bit number.
pub const CLASS_SIZE_AT: u64 = 0x8;

/// A class descriptor: where its count of fields stands, a 32-bit number.
pub const CLASS_FIELD_COUNT_AT: u64 = 0xc;

/// A class descriptor: where the pointer to its run of field records stands.
pub const CLASS_FIELDS_AT: u64 = 0x10;

/// A class descriptor: where the pointer to the parent's descriptor stands, or null.
pub const CLASS_PARENT_AT: u64 = 0x18;

/// How many bytes lie between two field records.
pub const FIELD_STRIDE: u64 = 0x18;

/// A field record: where the pointer to its name stands.
pub const FIELD_NAME_AT: u64 = 0x0;

/// A field record: where the pointer to the name of its type stands, or null.
pub const FIELD_TYPE_AT: u64 = 0x8;

/// A field record: where the field's offset stands, a 32-bit number.
pub const FIELD_OFFSET_AT: u64 = 0x10;

/// An enum descriptor: where the pointer to its name stands.
pub const ENUM_NAME_AT: u64 = 0x0;

/// An enum descriptor: where the width of its integer stands, one byte.
pub const ENUM_WIDTH_AT: u64 = 0x8;

/// An enum descriptor: where its count of members stands, a 32-bit number.
pub const ENUM_MEMBER_COUNT_AT: u64 = 0xc;

/// An enum descriptor: where the pointer to its run of member records stands.
pub const ENUM_MEMBERS_AT: u64 = 0x10;

/// How many bytes lie between two member records.
pub const MEMBER_STRIDE: u64 = 0x10;

/// A member record: where the pointer to its name stands.
pub const MEMBER_NAME_AT: u64 = 0x0;

/// A member record: where the member's value stands, as wide as the enum's integer.
pub const MEMBER_VALUE_AT: u64 = 0x8;

/// An offset record: where the pointer to its name stands.
pub const OFFSET_NAME_AT: u64 = 0x0;

/// An offset record: where the offset's value stands, a 64-bit number.
pub const OFFSET_VALUE_AT: u64 = 0x8;

/// An offset record: where the pointer to its comment stands, or null.
pub const OFFSET_COMMENT_AT: u64 = 0x10;

/// What a gap is about.
#[derive(Clone, Copy, PartialEq, Eq, Debug, Structural)]
pub enum GapScope {
    Module,
    Table,
    Class,
    Enum,
    Offset,
    Field,
    Member,
}

/// Why a step of the walk could not be completed.
#[derive(Clone, Copy, PartialEq, Eq, Debug, Structural)]
pub enum GapCause {
    /// The target has no module of the planned name.
    ModuleMissing,
    /// The module does not export the symbol that anchors a table.
    SymbolMissing,
    /// The owner already holds an entry of that name.
    DuplicateName,
    /// A count is larger than `MAX_ENTRIES`.
    TooManyEntries,
    /// An enum's width is not 1, 2, 4 or 8.
    InvalidWidth,
    /// An enum member's value does not fit the enum's width.
    ValueOutOfRange,
    /// A read failed, or a pointer that had to be followed was null.
    Access(AccessError),
}

/// A step of the walk that could not be completed. `module` is the position of the module in
/// the plan.
#[derive(Clone, Copy, PartialEq, Eq, Debug, Structural)]
pub struct ResolutionGap {
    pub module: usize,
    pub scope: GapScope,
    pub cause: GapCause,
}

pub open spec fn gap(module: usize, scope: GapScope, cause: GapCause) -> ResolutionGap {
    ResolutionGap { module, scope, cause }
}

pub open spec fn cause_of(e: ModelError) -> GapCause {
    match e {
        ModelError::DuplicateName => GapCause::DuplicateName,
        ModelError::ValueOutOfRange => GapCause::ValueOutOfRange,
    }
}

/// The text whose address is stored `off` bytes behind `base`, where it can be read.
pub open spec fn optional_text(image: ImageView, base: u64, off: u64) -> Option<Seq<u8>> {
    match text_behind(image, base, off, MAX_STRING_LEN as nat) {
        Ok(text) => Some(text),
        Err(_) => None,
    }
}

fn read_optional_text(image: &MemoryImage, base: u64, off: u64) -> (text: Option<Vec<u8>>)
    ensures
        opt_bytes(text) == optional_text(image@, base, off),
{
    match read_text_behind(image, base, off, MAX_STRING_LEN) {
        Ok(text) => Some(text),
        Err(_) => None,
    }
}

/// The address of the `i`-th record of a run of records `stride` bytes apart.
pub open spec fn record_addr(base: u64, stride: u64, i: nat) -> Result<u64, AccessError> {
    if stride * i <= u64::MAX {
        offset_addr(base, (stride * i) as u64)
    } else {
        Err(overflow_fault(base))
    }
}

fn record_address(base: u64, stride: u64, i: u32) -> (addr: Result<u64, AccessError>)
    requires
        stride <= 0x100,
    ensures
        addr == record_addr(base, stride, i as nat),
{
    assert(stride * i <= 0x100 * 0x1_0000_0000) by (nonlinear_arith)
        requires
            stride <= 0x100,
            i <= 0xffff_ffff,
    ;
    offset_address(base, stride * (i as u64))
}

/// The field record at `addr`: its name and offset must be readable, its type need not be.
pub open spec fn field_at(image: ImageView, addr: u64) -> Result<FieldView, AccessError> {
    match text_behind(image, addr, FIELD_NAME_AT, MAX_STRING_LEN as nat) {
        Err(e) => Err(e),
        Ok(name) => match u32_behind(image, addr, FIELD_OFFSET_AT) {
            Err(e) => Err(e),
            Ok(offset) => Ok(
                FieldView {
                    name,
                    offset: offset as u64,
                    declared_type: optional_text(image, addr, FIELD_TYPE_AT),
                },
            ),
        },
    }
}

/// The `i`-th field record of the run at `base`.
pub open spec fn field_record(image: ImageView, base: u64, i: nat) -> Result<
    FieldView,
    AccessError,
> {
    match record_addr(base, FIELD_STRIDE, i) {
        Err(e) => Err(e),
        Ok(addr) => field_at(image, addr),
    }
}

/// The fields that the first `n` records of the run at `base` give, and a gap for each record
/// that gives none.
pub open spec fn fields_upto(image: ImageView, m: usize, base: u64, n: nat) -> (
    Seq<FieldView>,
    Seq<ResolutionGap>,
)
    decreases n,
{
    if n == 0 {
        (Seq::empty(), Seq::empty())
    } else {
        let (fields, gaps) = fields_upto(image, m, base, (n - 1) as nat);
        match field_record(image, base, (n - 1) as nat) {
            Ok(field) => (fields.push(field), gaps),
            Err(e) => (fields, gaps.push(gap(m, GapScope::Field, GapCause::Access(e)))),
        }
    }
}

/// Decodes the field record at `addr`.
pub fn read_field(image: &MemoryImage, addr: u64) -> (field: Result<Field, AccessError>)
    ensures
        view_ok(field) == field_at(image@, addr),
{
    let name = match read_text_behind(image, addr, FIELD_NAME_AT, MAX_STRING_LEN) {
        Ok(name) => name,
        Err(e) => {
            return Err(e);
        },
    };
    let offset = match read_u32_behind(image, addr, FIELD_OFFSET_AT) {
        Ok(offset) => offset,
        Err(e) => {
            return Err(e);
        },
    };
    let declared_type = read_optional_text(image, addr, FIELD_TYPE_AT);
    Ok(Field { name, offset: offset as u64, declared_type })
}

/// Decodes the first `n` field records of the run at `base`.
pub fn read_fields(image: &MemoryImage, m: usize, base: u64, n: u32) -> (found: (
    Vec<Field>,
    Vec<ResolutionGap>,
))
    ensures
        field_views(found.0@) == fields_upto(image@, m, base, n as nat).0,
        found.1@ == fields_upto(image@, m, base, n as nat).1,
{
    let mut fields: Vec<Field> = Vec::new();
    let mut gaps: Vec<ResolutionGap> = Vec::new();
    let mut i: u32 = 0;
    assert(field_views(fields@) =~= Seq::empty());
    while i < n
        invariant
            i <= n,
            field_views(fields@) == fields_upto(image@, m, base, i as nat).0,
            gaps@ == fields_upto(image@, m, base, i as nat).1,
        decreases n - i,
    {
        let record = match record_address(base, FIELD_STRIDE, i) {
            Ok(addr) => read_field(image, addr),
            Err(e) => Err(e),
        };
        let ghost before = field_views(fields@);
        match record {
            Ok(field) => {
                fields.push(field);
                assert(field_views(fields@) =~= before.push(field@));
            },
            Err(e) => {
                gaps.push(
                    ResolutionGap { module: m, scope: GapScope::Field, cause: GapCause::Access(e) },
                );
            },
        }
        i += 1;
    }
    (fields, gaps)
}

/// The fixed part of a class descriptor.
pub struct ClassHeader {
    pub name: Vec<u8>,
    pub size: u32,
    pub field_count: u32,
    pub fields: u64,
    pub parent: u64,
}

pub struct ClassHeaderView {
    pub name: Seq<u8>,
    pub size: u32,
    pub field_count: u32,
    pub fields: u64,
    pub parent: u64,
}

impl View for ClassHeader {
    type V = ClassHeaderView;

    open spec fn view(&self) -> ClassHeaderView {
        ClassHeaderView {
            name: self.name@,
            size: self.size,
            field_count: self.field_count,
            fields: self.fields,
            parent: self.parent,
        }
    }
}

/// What a count and the pointer to its records must meet: the count is bounded, and the
/// pointer is not null where there are records.
pub open spec fn run_check(count: u32, records: u64) -> Result<(), GapCause> {
    if count > MAX_ENTRIES {
        Err(GapCause::TooManyEntries)
    } else if count > 0 && records == 0 {
        Err(GapCause::Access(null_fault()))
    } else {
        Ok(())
    }
}

fn check_run(count: u32, records: u64) -> (ok: Result<(), GapCause>)
    ensures
        ok == run_check(count, records),
{
    if count > MAX_ENTRIES {
        Err(GapCause::TooManyEntries)
    } else if count > 0 && records == 0 {
        Err(GapCause::Access(AccessError::OutOfRange { addr: 0, len: 0 }))
    } else {
        Ok(())
    }
}

/// The header of the class descriptor at `addr`.
pub open spec fn class_header(image: ImageView, addr: u64) -> Result<ClassHeaderView, GapCause> {
    match text_behind(image, addr, CLASS_NAME_AT, MAX_STRING_LEN as nat) {
        Err(e) => Err(GapCause::Access(e)),
        Ok(name) => match u32_behind(image, addr, CLASS_SIZE_AT) {
            Err(e) => Err(GapCause::Access(e)),
            Ok(size) => match u32_behind(image, addr, CLASS_FIELD_COUNT_AT) {
                Err(e) => Err(GapCause::Access(e)),
                Ok(field_count) => match u64_behind(image, addr, CLASS_FIELDS_AT) {
                    Err(e) => Err(GapCause::Access(e)),
                    Ok(fields) => match u64_behind(image, addr, CLASS_PARENT_AT) {
                        Err(e) => Err(GapCause::Access(e)),
                        Ok(parent) => match run_check(field_count, fields) {
                            Err(c) => Err(c),
                            Ok(_) => Ok(
                                ClassHeaderView { name, size, field_count, fields, parent },
                            ),
                        },
                    },
                },
            },
        },
    }
}

/// Decodes the header of the class descriptor at `addr`.
pub fn read_class_header(image: &MemoryImage, addr: u64) -> (header: Result<
    ClassHeader,
    GapCause,
>)
    ensures
        view_ok(header) == class_header(image@, addr),
{
    let name = match read_text_behind(image, addr, CLASS_NAME_AT, MAX_STRING_LEN) {
        Ok(v) => v,
        Err(e) => {
            return Err(GapCause::Access(e));
        },
    };
    let size = match read_u32_behind(image, addr, CLASS_SIZE_AT) {
        Ok(v) => v,
        Err(e) => {
            return Err(GapCause::Access(e));
        },
    };
    let field_count = match read_u32_behind(image, addr, CLASS_FIELD_COUNT_AT) {
        Ok(v) => v,
        Err(e) => {
            return Err(GapCause::Access(e));
        },
    };
    let fields = match read_u64_behind(image, addr, CLASS_FIELDS_AT) {
        Ok(v) => v,
        Err(e) => {
            return Err(GapCause::Access(e));
        },
    };
    let parent = match read_u64_behind(image, addr, CLASS_PARENT_AT) {
        Ok(v) => v,
        Err(e) => {
            return Err(GapCause::Access(e));
        },
    };
    match check_run(field_count, fields) {
        Err(c) => Err(c),
        Ok(_) => Ok(ClassHeader { name, size, field_count, fields, parent }),
    }
}

/// The name of the class whose descriptor `parent` points to. A parent that cannot be read
/// is left out and recorded.
pub open spec fn parent_name(image: ImageView, m: usize, parent: u64) -> (
    Option<Seq<u8>>,
    Seq<ResolutionGap>,
) {
    if parent == 0 {
        (None, Seq::empty())
    } else {
        match text_behind(image, parent, CLASS_NAME_AT, MAX_STRING_LEN as nat) {
            Ok(name) => (Some(name), Seq::empty()),
            Err(e) => (None, seq![gap(m, GapScope::Class, GapCause::Access(e))]),
        }
    }
}

/// The class whose descriptor is at `addr`, and the gaps met inside it. The class is given
/// whenever its header can be read.
pub open spec fn class_at(image: ImageView, m: usize, addr: u64) -> Result<
    (ClassView, Seq<ResolutionGap>),
    GapCause,
> {
    match class_header(image, addr) {
        Err(c) => Err(c),
        Ok(h) => {
            let (parent, parent_gaps) = parent_name(image, m, h.parent);
            let (fields, field_gaps) = fields_upto(image, m, h.fields, h.field_count as nat);
            Ok(
                (
                    ClassView { name: h.name, size: h.size as u64, parent, fields },
                    parent_gaps + field_gaps,
                ),
            )
        },
    }
}

/// Decodes the class whose descriptor is at `addr`.
pub fn read_class(image: &MemoryImage, m: usize, addr: u64) -> (found: Result<
    (Class, Vec<ResolutionGap>),
    GapCause,
>)
    ensures
        match found {
            Ok((class, gaps)) => class_at(image@, m, addr) == Ok::<
                (ClassView, Seq<ResolutionGap>),
                GapCause,
            >((class@, gaps@)),
            Err(c) => class_at(image@, m, addr) == Err::<
                (ClassView, Seq<ResolutionGap>),
                GapCause,
            >(c),
        },
{
    let header = match read_class_header(image, addr) {
        Ok(h) => h,
        Err(c) => {
            return Err(c);
        },
    };
    let mut gaps: Vec<ResolutionGap> = Vec::new();
    let parent = if header.parent == 0 {
        None
    } else {
        match read_text_behind(image, header.parent, CLASS_NAME_AT, MAX_STRING_LEN) {
            Ok(name) => Some(name),
            Err(e) => {
                gaps.push(
                    ResolutionGap { module: m, scope: GapScope::Class, cause: GapCause::Access(e) },
                );
                None
            },
        }
    };
    assert(gaps@ =~= parent_name(image@, m, header.parent).1);
    let (fields, mut field_gaps) = read_fields(image, m, header.fields, header.field_count);
    gaps.append(&mut field_gaps);
    Ok((Class { name: header.name, size: header.size as u64, parent, fields }, gaps))
}

/// The member record at `addr` of an enum of the given width.
pub open spec fn member_at(image: ImageView, addr: u64, width: IntWidth) -> Result<
    MemberView,
    AccessError,
> {
    match text_behind(image, addr, MEMBER_NAME_AT, MAX_STRING_LEN as nat) {
        Err(e) => Err(e),
        Ok(name) => match int_behind(image, addr, MEMBER_VALUE_AT, width) {
            Err(e) => Err(e),
            Ok(value) => Ok(MemberView { name, value }),
        },
    }
}

/// The `i`-th member record of the run at `base`.
pub open spec fn member_record(image: ImageView, base: u64, i: nat, width: IntWidth) -> Result<
    MemberView,
    AccessError,
> {
    match record_addr(base, MEMBER_STRIDE, i) {
        Err(e) => Err(e),
        Ok(addr) => member_at(image, addr, width),
    }
}

/// `start` with the members that the first `n` records of the run at `base` give, and a gap
/// for each record that gives none or that the enum refuses.
pub open spec fn members_upto(image: ImageView, m: usize, base: u64, n: nat, start: EnumView)
    -> (EnumView, Seq<ResolutionGap>)
    decreases n,
{
    if n == 0 {
        (start, Seq::empty())
    } else {
        let (e, gaps) = members_upto(image, m, base, (n - 1) as nat, start);
        match member_record(image, base, (n - 1) as nat, start.width) {
            Err(a) => (e, gaps.push(gap(m, GapScope::Member, GapCause::Access(a)))),
            Ok(member) => match e.admits(member) {
                Ok(_) => (e.with_member(member), gaps),
                Err(refusal) => (e, gaps.push(gap(m, GapScope::Member, cause_of(refusal)))),
            },
        }
    }
}

/// A member record that can be decoded is refused by its enum only for its name: its value
/// always fits the width at which it was read.
pub proof fn lemma_member_fits(image: ImageView, base: u64, i: nat, e: EnumView)
    ensures
        member_record(image, base, i, e.width) matches Ok(member) ==> e.admits(member)
            != Err::<(), ModelError>(ModelError::ValueOutOfRange),
{
    match record_addr(base, MEMBER_STRIDE, i) {
        Err(_) => {},
        Ok(addr) => match offset_addr(addr, MEMBER_VALUE_AT) {
            Err(_) => {},
            Ok(at) => lemma_int_at_fits(image, at, e.width),
        },
    }
}

/// Reading members leaves the enum's name and width as they were.
proof fn lemma_members_keep_head(
    image: ImageView,
    m: usize,
    base: u64,
    n: nat,
    start: EnumView,
)
    ensures
        members_upto(image, m, base, n, start).0.name == start.name,
        members_upto(image, m, base, n, start).0.width == start.width,
    decreases n,
{
    if n > 0 {
        lemma_members_keep_head(image, m, base, (n - 1) as nat, start);
    }
}

/// Decodes the member record at `addr`.
pub fn read_member(image: &MemoryImage, addr: u64, width: IntWidth) -> (member: Result<
    EnumMember,
    AccessError,
>)
    ensures
        view_ok(member) == member_at(image@, addr, width),
{
    let name = match read_text_behind(image, addr, MEMBER_NAME_AT, MAX_STRING_LEN) {
        Ok(v) => v,
        Err(e) => {
            return Err(e);
        },
    };
    match read_int_behind(image, addr, MEMBER_VALUE_AT, width) {
        Ok(value) => Ok(EnumMember { name, value }),
        Err(e) => Err(e),
    }
}

fn cause_from(e: ModelError) -> (cause: GapCause)
    ensures
        cause == cause_of(e),
{
    match e {
        ModelError::DuplicateName => GapCause::DuplicateName,
        ModelError::ValueOutOfRange => GapCause::ValueOutOfRange,
    }
}

/// Decodes the first `n` member records of the run at `base` into `e`.
pub fn read_members(image: &MemoryImage, m: usize, base: u64, n: u32, e: &mut Enum) -> (gaps:
    Vec<ResolutionGap>)
    ensures
        final(e)@ == members_upto(image@, m, base, n as nat, old(e)@).0,
        gaps@ == members_upto(image@, m, base, n as nat, old(e)@).1,
{
    let ghost start = e@;
    let width = e.width();
    let mut gaps: Vec<ResolutionGap> = Vec::new();
    let mut i: u32 = 0;
    while i < n
        invariant
            i <= n,
            width == start.width,
            e@ == members_upto(image@, m, base, i as nat, start).0,
            gaps@ == members_upto(image@, m, base, i as nat, start).1,
        decreases n - i,
    {
        let record = match record_address(base, MEMBER_STRIDE, i) {
            Ok(addr) => read_member(image, addr, width),
            Err(a) => Err(a),
        };
        match record {
            Err(a) => {
                gaps.push(
                    ResolutionGap { module: m, scope: GapScope::Member, cause: GapCause::Access(a) },
                );
            },
            Ok(member) => {
                match e.add_member(member) {
                    Ok(_) => {},
                    Err(refusal) => {
                        gaps.push(
                            ResolutionGap {
                                module: m,
                                scope: GapScope::Member,
                                cause: cause_from(refusal),
                            },
                        );
                    },
                }
            },
        }
        i += 1;
    }
    gaps
}

/// The fixed part of an enum descriptor.
pub struct EnumHeader {
    pub name: Vec<u8>,
    pub width: IntWidth,
    pub member_count: u32,
    pub members: u64,
}

pub struct EnumHeaderView {
    pub name: Seq<u8>,
    pub width: IntWidth,
    pub member_count: u32,
    pub members: u64,
}

impl View for EnumHeader {
    type V = EnumHeaderView;

    open spec fn view(&self) -> EnumHeaderView {
        EnumHeaderView {
            name: self.name@,
            width: self.width,
            member_count: self.member_count,
            members: self.members,
        }
    }
}

/// The header of the enum descriptor at `addr`.
pub open spec fn enum_header(image: ImageView, addr: u64) -> Result<EnumHeaderView, GapCause> {
    match text_behind(image, addr, ENUM_NAME_AT, MAX_STRING_LEN as nat) {
        Err(e) => Err(GapCause::Access(e)),
        Ok(name) => match u8_behind(image, addr, ENUM_WIDTH_AT) {
            Err(e) => Err(GapCause::Access(e)),
            Ok(len) => match IntWidth::of_len(len as nat) {
                None => Err(GapCause::InvalidWidth),
                Some(width) => match u32_behind(image, addr, ENUM_MEMBER_COUNT_AT) {
                    Err(e) => Err(GapCause::Access(e)),
                    Ok(member_count) => match u64_behind(image, addr, ENUM_MEMBERS_AT) {
                        Err(e) => Err(GapCause::Access(e)),
                        Ok(members) => match run_check(member_count, members) {
                            Err(c) => Err(c),
                            Ok(_) => Ok(EnumHeaderView { name, width, member_count, members }),
                        },
                    },
                },
            },
        },
    }
}

/// Decodes the header of the enum descriptor at `addr`.
pub fn read_enum_header(image: &MemoryImage, addr: u64) -> (header: Result<EnumHeader, GapCause>)
    ensures
        view_ok(header) == enum_header(image@, addr),
{
    let name = match read_text_behind(image, addr, ENUM_NAME_AT, MAX_STRING_LEN) {
        Ok(v) => v,
        Err(e) => {
            return Err(GapCause::Access(e));
        },
    };
    let len = match read_u8_behind(image, addr, ENUM_WIDTH_AT) {
        Ok(v) => v,
        Err(e) => {
            return Err(GapCause::Access(e));
        },
    };
    let width = match IntWidth::from_len(len) {
        Some(w) => w,
        None => {
            return Err(GapCause::InvalidWidth);
        },
    };
    let member_count = match read_u32_behind(image, addr, ENUM_MEMBER_COUNT_AT) {
        Ok(v) => v,
        Err(e) => {
            return Err(GapCause::Access(e));
        },
    };
    let members = match read_u64_behind(image, addr, ENUM_MEMBERS_AT) {
        Ok(v) => v,
        Err(e) => {
            return Err(GapCause::Access(e));
        },
    };
    match check_run(member_count, members) {
        Err(c) => Err(c),
        Ok(_) => Ok(EnumHeader { name, width, member_count, members }),
    }
}

/// The enum whose descriptor is at `addr`, and the gaps met inside it. The enum is given
/// whenever its header can be read.
pub open spec fn enum_at(image: ImageView, m: usize, addr: u64) -> Result<
    (EnumView, Seq<ResolutionGap>),
    GapCause,
> {
    match enum_header(image, addr) {
        Err(c) => Err(c),
        Ok(h) => Ok(
            members_upto(
                image,
                m,
                h.members,
                h.member_count as nat,
                EnumView { name: h.name, width: h.width, members: Seq::empty() },
            ),
        ),
    }
}

/// Decodes the enum whose descriptor is at `addr`.
pub fn read_enum(image: &MemoryImage, m: usize, addr: u64) -> (found: Result<
    (Enum, Vec<ResolutionGap>),
    GapCause,
>)
    ensures
        match found {
            Ok((e, gaps)) => enum_at(image@, m, addr) == Ok::<
                (EnumView, Seq<ResolutionGap>),
                GapCause,
            >((e@, gaps@)),
            Err(c) => enum_at(image@, m, addr) == Err::<(EnumView, Seq<ResolutionGap>), GapCause>(
                c,
            ),
        },
{
    let header = match read_enum_header(image, addr) {
        Ok(h) => h,
        Err(c) => {
            return Err(c);
        },
    };
    let mut e = Enum::new(header.name, header.width);
    let gaps = read_members(image, m, header.members, header.member_count, &mut e);
    Ok((e, gaps))
}

/// The offset record at `addr`: its name and value must be readable, its comment need not be.
pub open spec fn offset_at(image: ImageView, addr: u64) -> Result<OffsetView, AccessError> {
    match text_behind(image, addr, OFFSET_NAME_AT, MAX_STRING_LEN as nat) {
        Err(e) => Err(e),
        Ok(name) => match u64_behind(image, addr, OFFSET_VALUE_AT) {
            Err(e) => Err(e),
            Ok(value) => Ok(
                OffsetView { name, value, comment: optional_text(image, addr, OFFSET_COMMENT_AT) },
            ),
        },
    }
}

/// Decodes the offset record at `addr`.
pub fn read_offset(image: &MemoryImage, addr: u64) -> (offset: Result<Offset, AccessError>)
    ensures
        view_ok(offset) == offset_at(image@, addr),
{
    let name = match read_text_behind(image, addr, OFFSET_NAME_AT, MAX_STRING_LEN) {
        Ok(v) => v,
        Err(e) => {
            return Err(e);
        },
    };
    let value = match read_u64_behind(image, addr, OFFSET_VALUE_AT) {
        Ok(v) => v,
        Err(e) => {
            return Err(e);
        },
    };
    let comment = read_optional_text(image, addr, OFFSET_COMMENT_AT);
    Ok(Offset { name, value, comment })
}

/// What the descriptors of a root table describe.
#[derive(Clone, Copy, PartialEq, Eq, Debug, Structural)]
pub enum TableKind {
    Classes,
    Enums,
    Offsets,
}

impl TableKind {
    pub open spec fn scope(self) -> GapScope {
        match self {
            TableKind::Classes => GapScope::Class,
            TableKind::Enums => GapScope::Enum,
            TableKind::Offsets => GapScope::Offset,
        }
    }

    pub fn entry_scope(self) -> (scope: GapScope)
        ensures
            scope == self.scope(),
    {
        match self {
            TableKind::Classes => GapScope::Class,
            TableKind::Enums => GapScope::Enum,
            TableKind::Offsets => GapScope::Offset,
        }
    }
}

/// The `i`-th descriptor pointer of the run at `entries`, which may not be null.
pub open spec fn entry_ptr(image: ImageView, entries: u64, i: nat) -> Result<u64, AccessError> {
    match record_addr(entries, POINTER_SIZE, i) {
        Err(e) => Err(e),
        Ok(addr) => match ptr_at(image, addr) {
            Err(e) => Err(e),
            Ok(p) => if p == 0 {
                Err(null_fault())
            } else {
                Ok(p)
            },
        },
    }
}

fn read_entry_ptr(image: &MemoryImage, entries: u64, i: u32) -> (p: Result<u64, AccessError>)
    ensures
        p == entry_ptr(image@, entries, i as nat),
{
    match record_address(entries, POINTER_SIZE, i) {
        Err(e) => Err(e),
        Ok(addr) => match read_ptr(image, addr) {
            Err(e) => Err(e),
            Ok(p) => if p == 0 {
                Err(AccessError::OutOfRange { addr: 0, len: 0 })
            } else {
                Ok(p)
            },
        },
    }
}

/// `module` after the descriptor at `p` was decoded and added, and the gaps met on the way.
/// An entry whose name the module already holds is dropped.
pub open spec fn entry_step(image: ImageView, m: usize, kind: TableKind, p: u64, module:
    ModuleView) -> (ModuleView, Seq<ResolutionGap>) {
    match kind {
        TableKind::Classes => match class_at(image, m, p) {
            Err(c) => (module, seq![gap(m, GapScope::Class, c)]),
            Ok((class, gaps)) => if class_names(module.classes).contains(class.name) {
                (module, gaps.push(gap(m, GapScope::Class, GapCause::DuplicateName)))
            } else {
                (module.with_class(class), gaps)
            },
        },
        TableKind::Enums => match enum_at(image, m, p) {
            Err(c) => (module, seq![gap(m, GapScope::Enum, c)]),
            Ok((e, gaps)) => if enum_names(module.enums).contains(e.name) {
                (module, gaps.push(gap(m, GapScope::Enum, GapCause::DuplicateName)))
            } else {
                (module.with_enum(e), gaps)
            },
        },
        TableKind::Offsets => match offset_at(image, p) {
            Err(e) => (module, seq![gap(m, GapScope::Offset, GapCause::Access(e))]),
            Ok(offset) => if offset_names(module.offsets).contains(offset.name) {
                (module, seq![gap(m, GapScope::Offset, GapCause::DuplicateName)])
            } else {
                (module.with_offset(offset), Seq::empty())
            },
        },
    }
}

/// Decodes the descriptor at `p` and adds what it describes to `module`.
pub fn walk_entry(image: &MemoryImage, m: usize, kind: TableKind, p: u64, module: &mut Module)
    -> (gaps: Vec<ResolutionGap>)
    ensures
        final(module)@ == entry_step(image@, m, kind, p, old(module)@).0,
        gaps@ == entry_step(image@, m, kind, p, old(module)@).1,
{
    let mut gaps: Vec<ResolutionGap> = Vec::new();
    match kind {
        TableKind::Classes => match read_class(image, m, p) {
            Err(c) => {
                gaps.push(ResolutionGap { module: m, scope: GapScope::Class, cause: c });
            },
            Ok((class, mut inner)) => {
                gaps.append(&mut inner);
                if module.add_class(class).is_err() {
                    gaps.push(
                        ResolutionGap {
                            module: m,
                            scope: GapScope::Class,
                            cause: GapCause::DuplicateName,
                        },
                    );
                }
            },
        },
        TableKind::Enums => match read_enum(image, m, p) {
            Err(c) => {
                gaps.push(ResolutionGap { module: m, scope: GapScope::Enum, cause: c });
            },
            Ok((e, mut inner)) => {
                gaps.append(&mut inner);
                if module.add_enum(e).is_err() {
                    gaps.push(
                        ResolutionGap {
                            module: m,
                            scope: GapScope::Enum,
                            cause: GapCause::DuplicateName,
                        },
                    );
                }
            },
        },
        TableKind::Offsets => match read_offset(image, p) {
            Err(e) => {
                gaps.push(
                    ResolutionGap { module: m, scope: GapScope::Offset, cause: GapCause::Access(e) },
                );
            },
            Ok(offset) => {
                if module.add_offset(offset).is_err() {
                    gaps.push(
                        ResolutionGap {
                            module: m,
                            scope: GapScope::Offset,
                            cause: GapCause::DuplicateName,
                        },
                    );
                }
            },
        },
    }
    gaps
}

/// `start` after the first `n` descriptors of the run at `entries` were taken in, and the
/// gaps met on the way.
pub open spec fn entries_upto(
    image: ImageView,
    m: usize,
    kind: TableKind,
    entries: u64,
    n: nat,
    start: ModuleView,
) -> (ModuleView, Seq<ResolutionGap>)
    decreases n,
{
    if n == 0 {
        (start, Seq::empty())
    } else {
        let (module, gaps) = entries_upto(image, m, kind, entries, (n - 1) as nat, start);
        match entry_ptr(image, entries, (n - 1) as nat) {
            Err(e) => (module, gaps.push(gap(m, kind.scope(), GapCause::Access(e)))),
            Ok(p) => {
                let (next, inner) = entry_step(image, m, kind, p, module);
                (next, gaps + inner)
            },
        }
    }
}

/// Takes the first `n` descriptors of the run at `entries` into `module`.
pub fn walk_entries(
    image: &MemoryImage,
    m: usize,
    kind: TableKind,
    entries: u64,
    n: u32,
    module: &mut Module,
) -> (gaps: Vec<ResolutionGap>)
    ensures
        final(module)@ == entries_upto(image@, m, kind, entries, n as nat, old(module)@).0,
        gaps@ == entries_upto(image@, m, kind, entries, n as nat, old(module)@).1,
{
    let ghost start = module@;
    let mut gaps: Vec<ResolutionGap> = Vec::new();
    let mut i: u32 = 0;
    while i < n
        invariant
            i <= n,
            module@ == entries_upto(image@, m, kind, entries, i as nat, start).0,
            gaps@ == entries_upto(image@, m, kind, entries, i as nat, start).1,
        decreases n - i,
    {
        match read_entry_ptr(image, entries, i) {
            Err(e) => {
                gaps.push(
                    ResolutionGap { module: m, scope: kind.entry_scope(), cause: GapCause::Access(e) },
                );
            },
            Ok(p) => {
                let mut inner = walk_entry(image, m, kind, p, module);
                gaps.append(&mut inner);
            },
        }
        i += 1;
    }
    gaps
}

/// Where a root table is looked for.
#[derive(Debug)]
pub enum Anchor {
    /// At the address of a symbol that the module exports.
    Export(Vec<u8>),
    /// At a fixed distance from the module's base.
    Relative(u64),
}

pub enum AnchorView {
    Export(Seq<u8>),
    Relative(u64),
}

impl View for Anchor {
    type V = AnchorView;

    open spec fn view(&self) -> AnchorView {
        match *self {
            Anchor::Export(symbol) => AnchorView::Export(symbol@),
            Anchor::Relative(off) => AnchorView::Relative(off),
        }
    }
}

/// A root table of a module: what it holds, where it is anchored, and the pointer chain that
/// leads from the anchor to the table.
#[derive(Debug)]
pub struct RootTable {
    pub kind: TableKind,
    pub anchor: Anchor,
    pub hops: Vec<u64>,
}

pub struct RootTableView {
    pub kind: TableKind,
    pub anchor: AnchorView,
    pub hops: Seq<u64>,
}

impl View for RootTable {
    type V = RootTableView;

    open spec fn view(&self) -> RootTableView {
        RootTableView { kind: self.kind, anchor: self.anchor@, hops: self.hops@ }
    }
}

pub open spec fn table_views(tables: Seq<RootTable>) -> Seq<RootTableView> {
    Seq::new(tables.len(), |i: int| tables[i]@)
}

/// A module to walk: its name and its root tables.
#[derive(Debug)]
pub struct ModulePlan {
    pub name: Vec<u8>,
    pub tables: Vec<RootTable>,
}

pub struct ModulePlanView {
    pub name: Seq<u8>,
    pub tables: Seq<RootTableView>,
}

impl View for ModulePlan {
    type V = ModulePlanView;

    open spec fn view(&self) -> ModulePlanView {
        ModulePlanView { name: self.name@, tables: table_views(self.tables@) }
    }
}

pub open spec fn plan_views(plans: Seq<ModulePlan>) -> Seq<ModulePlanView> {
    Seq::new(plans.len(), |i: int| plans[i]@)
}

/// The address of a table's anchor.
pub open spec fn anchor_addr(record: ModuleRecordView, anchor: AnchorView) -> Result<
    u64,
    GapCause,
> {
    match anchor {
        AnchorView::Export(symbol) => match record.export(symbol) {
            Some(addr) => Ok(addr),
            None => Err(GapCause::SymbolMissing),
        },
        AnchorView::Relative(off) => match offset_addr(record.base, off) {
            Ok(addr) => Ok(addr),
            Err(e) => Err(GapCause::Access(e)),
        },
    }
}

/// The address of a root table: the end of its pointer chain, which may not be null.
pub open spec fn table_addr(image: ImageView, record: ModuleRecordView, table: RootTableView)
    -> Result<u64, GapCause> {
    match anchor_addr(record, table.anchor) {
        Err(c) => Err(c),
        Ok(anchor) => match follow_spec(image, anchor, table.hops) {
            Err(e) => Err(GapCause::Access(e)),
            Ok(addr) => if addr == 0 {
                Err(GapCause::Access(null_fault()))
            } else {
                Ok(addr)
            },
        },
    }
}

/// Finds the address of a root table.
pub fn locate_table(image: &MemoryImage, record: &ModuleRecord, table: &RootTable) -> (addr:
    Result<u64, GapCause>)
    ensures
        addr == table_addr(image@, record@, table@),
{
    let anchor = match &table.anchor {
        Anchor::Export(symbol) => match record.export(symbol.as_slice()) {
            Some(addr) => addr,
            None => {
                return Err(GapCause::SymbolMissing);
            },
        },
        Anchor::Relative(off) => match offset_address(record.base, *off) {
            Ok(addr) => addr,
            Err(e) => {
                return Err(GapCause::Access(e));
            },
        },
    };
    match follow(image, anchor, table.hops.as_slice()) {
        Err(e) => Err(GapCause::Access(e)),
        Ok(addr) => if addr == 0 {
            Err(GapCause::Access(AccessError::OutOfRange { addr: 0, len: 0 }))
        } else {
            Ok(addr)
        },
    }
}

/// The count and the descriptor run of the root table at `addr`.
pub open spec fn table_header(image: ImageView, addr: u64) -> Result<(u32, u64), GapCause> {
    match u32_behind(image, addr, TABLE_COUNT_AT) {
        Err(e) => Err(GapCause::Access(e)),
        Ok(count) => match u64_behind(image, addr, TABLE_ENTRIES_AT) {
            Err(e) => Err(GapCause::Access(e)),
            Ok(entries) => match run_check(count, entries) {
                Err(c) => Err(c),
                Ok(_) => Ok((count, entries)),
            },
        },
    }
}

/// Decodes the header of the root table at `addr`.
pub fn read_table_header(image: &MemoryImage, addr: u64) -> (header: Result<(u32, u64), GapCause>)
    ensures
        header == table_header(image@, addr),
{
    let count = match read_u32_behind(image, addr, TABLE_COUNT_AT) {
        Ok(v) => v,
        Err(e) => {
            return Err(GapCause::Access(e));
        },
    };
    let entries = match read_u64_behind(image, addr, TABLE_ENTRIES_AT) {
        Ok(v) => v,
        Err(e) => {
            return Err(GapCause::Access(e));
        },
    };
    match check_run(count, entries) {
        Err(c) => Err(c),
        Ok(_) => Ok((count, entries)),
    }
}

/// `module` after one root table was walked. A table that cannot be found or whose header
/// cannot be read is one gap, and leaves the module as it was.
pub open spec fn table_step(
    image: ImageView,
    m: usize,
    record: ModuleRecordView,
    table: RootTableView,
    module: ModuleView,
) -> (ModuleView, Seq<ResolutionGap>) {
    match table_addr(image, record, table) {
        Err(c) => (module, seq![gap(m, GapScope::Table, c)]),
        Ok(addr) => match table_header(image, addr) {
            Err(c) => (module, seq![gap(m, GapScope::Table, c)]),
            Ok((count, entries)) => entries_upto(
                image,
                m,
                table.kind,
                entries,
                count as nat,
                module,
            ),
        },
    }
}

/// Walks one root table into `module`.
pub fn walk_table(
    image: &MemoryImage,
    m: usize,
    record: &ModuleRecord,
    table: &RootTable,
    module: &mut Module,
) -> (gaps: Vec<ResolutionGap>)
    ensures
        final(module)@ == table_step(image@, m, record@, table@, old(module)@).0,
        gaps@ == table_step(image@, m, record@, table@, old(module)@).1,
{
    let found = match locate_table(image, record, table) {
        Err(c) => Err(c),
        Ok(addr) => read_table_header(image, addr),
    };
    match found {
        Err(c) => {
            let mut gaps: Vec<ResolutionGap> = Vec::new();
            gaps.push(ResolutionGap { module: m, scope: GapScope::Table, cause: c });
            gaps
        },
        Ok((count, entries)) => walk_entries(image, m, table.kind, entries, count, module),
    }
}

/// `start` after the first `n` of `tables` were walked, and the gaps met on the way.
pub open spec fn tables_upto(
    image: ImageView,
    m: usize,
    record: ModuleRecordView,
    tables: Seq<RootTableView>,
    n: nat,
    start: ModuleView,
) -> (ModuleView, Seq<ResolutionGap>)
    decreases n,
{
    if n == 0 {
        (start, Seq::empty())
    } else {
        let (module, gaps) = tables_upto(image, m, record, tables, (n - 1) as nat, start);
        let (next, inner) = table_step(image, m, record, tables[n - 1], module);
        (next, gaps + inner)
    }
}

/// The module that walking `plan` in the module `record` gives, and the gaps met on the way.
pub open spec fn module_walk(
    image: ImageView,
    m: usize,
    record: ModuleRecordView,
    plan: ModulePlanView,
) -> (ModuleView, Seq<ResolutionGap>) {
    tables_upto(image, m, record, plan.tables, plan.tables.len(), ModuleView::empty(plan.name))
}

/// Walks all root tables of `plan` in the module `record`.
pub fn walk_module(image: &MemoryImage, m: usize, record: &ModuleRecord, plan: &ModulePlan)
    -> (found: (Module, Vec<ResolutionGap>))
    ensures
        found.0@ == module_walk(image@, m, record@, plan@).0,
        found.1@ == module_walk(image@, m, record@, plan@).1,
{
    let mut module = Module::new(copy_bytes(plan.name.as_slice()));
    let ghost start = module@;
    let mut gaps: Vec<ResolutionGap> = Vec::new();
    let mut i: usize = 0;
    while i < plan.tables.len()
        invariant
            i <= plan.tables@.len(),
            start == ModuleView::empty(plan@.name),
            module@ == tables_upto(image@, m, record@, plan@.tables, i as nat, start).0,
            gaps@ == tables_upto(image@, m, record@, plan@.tables, i as nat, start).1,
        decreases plan.tables@.len() - i,
    {
        let mut inner = walk_table(image, m, record, &plan.tables[i], &mut module);
        gaps.append(&mut inner);
        i += 1;
    }
    (module, gaps)
}

/// The modules that the first `n` of `plans` give, and the gaps met on the way. A planned
/// module that the target does not have, or whose name was walked before, is one gap and no
/// module.
pub open spec fn modules_upto(image: ImageView, plans: Seq<ModulePlanView>, n: nat) -> (
    Seq<ModuleView>,
    Seq<ResolutionGap>,
)
    decreases n,
{
    if n == 0 {
        (Seq::empty(), Seq::empty())
    } else {
        let (modules, gaps) = modules_upto(image, plans, (n - 1) as nat);
        let plan = plans[n - 1];
        let m = (n - 1) as usize;
        if module_names(modules).contains(plan.name) {
            (modules, gaps.push(gap(m, GapScope::Module, GapCause::DuplicateName)))
        } else {
            match image.find_module(plan.name) {
                None => (modules, gaps.push(gap(m, GapScope::Module, GapCause::ModuleMissing))),
                Some(record) => {
                    let (module, inner) = module_walk(image, m, record, plan);
                    (modules.push(module), gaps + inner)
                },
            }
        }
    }
}

/// Walking tables leaves the module's name as it was.
pub proof fn lemma_walk_keeps_name(
    image: ImageView,
    m: usize,
    record: ModuleRecordView,
    tables: Seq<RootTableView>,
    n: nat,
    start: ModuleView,
)
    ensures
        tables_upto(image, m, record, tables, n, start).0.name == start.name,
    decreases n,
{
    if n > 0 {
        lemma_walk_keeps_name(image, m, record, tables, (n - 1) as nat, start);
        let before = tables_upto(image, m, record, tables, (n - 1) as nat, start).0;
        let table = tables[n - 1];
        match table_addr(image, record, table) {
            Err(_) => {},
            Ok(addr) => match table_header(image, addr) {
                Err(_) => {},
                Ok((count, entries)) => {
                    lemma_entries_keep_name(image, m, table.kind, entries, count as nat, before);
                },
            },
        }
    }
}

/// Taking descriptors in leaves the module's name as it was.
pub proof fn lemma_entries_keep_name(
    image: ImageView,
    m: usize,
    kind: TableKind,
    entries: u64,
    n: nat,
    start: ModuleView,
)
    ensures
        entries_upto(image, m, kind, entries, n, start).0.name == start.name,
    decreases n,
{
    if n > 0 {
        lemma_entries_keep_name(image, m, kind, entries, (n - 1) as nat, start);
    }
}

/// Why a walk gave nothing at all.
#[derive(Clone, Copy, PartialEq, Eq, Debug, Structural)]
pub enum WalkError {
    /// The target could not be reached.
    PortUnavailable,
}

/// What a walk gives: the model, and every step that could not be completed.
#[derive(Debug)]
pub struct WalkOutcome {
    pub model: SchemaModel,
    pub gaps: Vec<ResolutionGap>,
}

pub struct WalkView {
    pub model: ModelView,
    pub gaps: Seq<ResolutionGap>,
}

impl View for WalkOutcome {
    type V = WalkView;

    open spec fn view(&self) -> WalkView {
        WalkView { model: self.model@, gaps: self.gaps@ }
    }
}

/// What walking `plans` over `image` gives. Only a target that cannot be reached makes the
/// walk fail; everything narrower is a gap.
pub open spec fn walk_spec(image: ImageView, plans: Seq<ModulePlanView>) -> Result<
    WalkView,
    WalkError,
> {
    if !image.available {
        Err(WalkError::PortUnavailable)
    } else {
        let (modules, gaps) = modules_upto(image, plans, plans.len());
        Ok(WalkView { model: ModelView { modules }, gaps })
    }
}

/// Walks every planned module, in the order of the plan.
pub fn walk(image: &MemoryImage, plans: &Vec<ModulePlan>) -> (outcome: Result<
    WalkOutcome,
    WalkError,
>)
    ensures
        view_ok(outcome) == walk_spec(image@, plan_views(plans@)),
        outcome matches Ok(o) ==> o@.model.wf(),
{
    if !image.available {
        return Err(WalkError::PortUnavailable);
    }
    let ghost views = plan_views(plans@);
    let mut model = SchemaModel::new();
    let mut gaps: Vec<ResolutionGap> = Vec::new();
    let mut i: usize = 0;
    while i < plans.len()
        invariant
            i <= plans@.len(),
            views == plan_views(plans@),
            model@.wf(),
            model@.modules == modules_upto(image@, views, i as nat).0,
            gaps@ == modules_upto(image@, views, i as nat).1,
        decreases plans@.len() - i,
    {
        let plan = &plans[i];
        assert(views[i as int] == plan@);
        let known = {
            let modules = model.modules();
            assert(names_of(modules@) =~= module_names(model@.modules));
            find_named(modules, plan.name.as_slice()).is_some()
        };
        if known {
            gaps.push(
                ResolutionGap {
                    module: i,
                    scope: GapScope::Module,
                    cause: GapCause::DuplicateName,
                },
            );
        } else {
            match image.find_module(plan.name.as_slice()) {
                None => {
                    gaps.push(
                        ResolutionGap {
                            module: i,
                            scope: GapScope::Module,
                            cause: GapCause::ModuleMissing,
                        },
                    );
                },
                Some(record) => {
                    let (module, mut inner) = walk_module(image, i, record, plan);
                    proof {
                        lemma_walk_keeps_name(
                            image@,
                            i,
                            record@,
                            plan@.tables,
                            plan@.tables.len(),
                            ModuleView::empty(plan@.name),
                        );
                    }
                    gaps.append(&mut inner);
                    let added = model.add_module(module);
                    assert(added is Ok);
                },
            }
        }
        i += 1;
    }
    Ok(WalkOutcome { model, gaps })
}

impl ModuleView {
    /// Whether `later` holds everything that this module holds, in the same places: what was
    /// resolved is still there, and what is new stands behind it.
    pub open spec fn kept_in(self, later: ModuleView) -> bool {
        &&& later.name == self.name
        &&& self.classes.is_prefix_of(later.classes)
        &&& self.enums.is_prefix_of(later.enums)
        &&& self.offsets.is_prefix_of(later.offsets)
    }
}

/// Taking a descriptor in removes nothing from the module, whether the descriptor can be
/// decoded or not.
pub proof fn lemma_entry_keeps(image: ImageView, m: usize, kind: TableKind, p: u64, module:
    ModuleView)
    ensures
        module.kept_in(entry_step(image, m, kind, p, module).0),
{
    let later = entry_step(image, m, kind, p, module).0;
    assert(module.classes =~= later.classes.subrange(0, module.classes.len() as int));
    assert(module.enums =~= later.enums.subrange(0, module.enums.len() as int));
    assert(module.offsets =~= later.offsets.subrange(0, module.offsets.len() as int));
}

proof fn lemma_kept_trans(a: ModuleView, b: ModuleView, c: ModuleView)
    requires
        a.kept_in(b),
        b.kept_in(c),
    ensures
        a.kept_in(c),
{
    assert(a.classes =~= c.classes.subrange(0, a.classes.len() as int));
    assert(a.enums =~= c.enums.subrange(0, a.enums.len() as int));
    assert(a.offsets =~= c.offsets.subrange(0, a.offsets.len() as int));
}

proof fn lemma_kept_self(a: ModuleView)
    ensures
        a.kept_in(a),
{
    assert(a.classes =~= a.classes.subrange(0, a.classes.len() as int));
    assert(a.enums =~= a.enums.subrange(0, a.enums.len() as int));
    assert(a.offsets =~= a.offsets.subrange(0, a.offsets.len() as int));
}

/// Walking descriptors removes nothing from the module: gaps never take away what was
/// resolved before them.
pub proof fn lemma_entries_keep(
    image: ImageView,
    m: usize,
    kind: TableKind,
    entries: u64,
    n: nat,
    start: ModuleView,
)
    ensures
        start.kept_in(entries_upto(image, m, kind, entries, n, start).0),
    decreases n,
{
    if n == 0 {
        lemma_kept_self(start);
    } else {
        lemma_entries_keep(image, m, kind, entries, (n - 1) as nat, start);
        let before = entries_upto(image, m, kind, entries, (n - 1) as nat, start).0;
        match entry_ptr(image, entries, (n - 1) as nat) {
            Err(_) => {},
            Ok(p) => {
                lemma_entry_keeps(image, m, kind, p, before);
                lemma_kept_trans(start, before, entry_step(image, m, kind, p, before).0);
            },
        }
    }
}

/// Walking tables removes nothing from the module: a table that cannot be found or read
/// leaves the module as it was, and every other table only adds to it.
pub proof fn lemma_tables_keep(
    image: ImageView,
    m: usize,
    record: ModuleRecordView,
    tables: Seq<RootTableView>,
    n: nat,
    start: ModuleView,
)
    ensures
        start.kept_in(tables_upto(image, m, record, tables, n, start).0),
    decreases n,
{
    if n == 0 {
        lemma_kept_self(start);
    } else {
        lemma_tables_keep(image, m, record, tables, (n - 1) as nat, start);
        let before = tables_upto(image, m, record, tables, (n - 1) as nat, start).0;
        let table = tables[n - 1];
        let after = table_step(image, m, record, table, before).0;
        match table_addr(image, record, table) {
            Err(_) => {},
            Ok(addr) => match table_header(image, addr) {
                Err(_) => {},
                Ok((count, entries)) => {
                    lemma_entries_keep(image, m, table.kind, entries, count as nat, before);
                },
            },
        }
        if after == before {
            lemma_kept_self(before);
        }
        lemma_kept_trans(start, before, after);
    }
}

/// Walking more planned modules removes no module from the model.
pub proof fn lemma_modules_keep(image: ImageView, plans: Seq<ModulePlanView>, n: nat, more: nat)
    requires
        n <= more,
    ensures
        modules_upto(image, plans, n).0.is_prefix_of(modules_upto(image, plans, more).0),
    decreases more,
{
    let short = modules_upto(image, plans, n).0;
    if n == more {
        assert(short =~= short.subrange(0, short.len() as int));
    } else {
        lemma_modules_keep(image, plans, n, (more - 1) as nat);
        let before = modules_upto(image, plans, (more - 1) as nat).0;
        let after = modules_upto(image, plans, more).0;
        assert(before =~= after.subrange(0, before.len() as int));
        assert(short =~= after.subrange(0, short.len() as int));
    }
}

/// Every field record is accounted for: it gave a field or it gave a gap.
pub proof fn lemma_fields_accounted(image: ImageView, m: usize, base: u64, n: nat)
    ensures
        fields_upto(image, m, base, n).0.len() + fields_upto(image, m, base, n).1.len() == n,
    decreases n,
{
    if n > 0 {
        lemma_fields_accounted(image, m, base, (n - 1) as nat);
    }
}

/// Fields found among the first records stay found, in their places, when more records are
/// read.
pub proof fn lemma_fields_grow(image: ImageView, m: usize, base: u64, n: nat, more: nat)
    requires
        n <= more,
    ensures
        fields_upto(image, m, base, n).0.len() <= fields_upto(image, m, base, more).0.len(),
        fields_upto(image, m, base, n).0 == fields_upto(image, m, base, more).0.take(
            fields_upto(image, m, base, n).0.len() as int,
        ),
    decreases more,
{
    let short = fields_upto(image, m, base, n).0;
    if n == more {
        assert(short =~= short.take(short.len() as int));
    } else {
        lemma_fields_grow(image, m, base, n, (more - 1) as nat);
        let before = fields_upto(image, m, base, (more - 1) as nat).0;
        let after = fields_upto(image, m, base, more).0;
        assert(before.take(short.len() as int) =~= after.take(short.len() as int));
    }
}

/// A field record that can be decoded gives a field of the class, whatever the other records
/// of the run hold.
pub proof fn lemma_field_kept(image: ImageView, m: usize, base: u64, n: nat, i: nat)
    requires
        i < n,
        field_record(image, base, i) is Ok,
    ensures
        fields_upto(image, m, base, n).0.contains(field_record(image, base, i)->Ok_0),
    decreases n,
{
    let field = field_record(image, base, i)->Ok_0;
    let before = fields_upto(image, m, base, (n - 1) as nat).0;
    let after = fields_upto(image, m, base, n).0;
    if i == n - 1 {
        assert(after == before.push(field));
        assert(after[before.len() as int] == field);
    } else {
        lemma_field_kept(image, m, base, (n - 1) as nat, i);
        let k = choose|k: int| 0 <= k < before.len() && before[k] == field;
        lemma_fields_grow(image, m, base, (n - 1) as nat, n);
        assert(after.take(before.len() as int)[k] == after[k]);
    }
}

/// A class whose header can be read is decoded under its name, and holds every field whose
/// record can be decoded: a record that cannot be decoded costs neither the class nor the
/// other fields.
pub proof fn lemma_class_survives_bad_fields(image: ImageView, m: usize, addr: u64, i: nat)
    requires
        class_header(image, addr) is Ok,
        i < class_header(image, addr)->Ok_0.field_count,
        field_record(image, class_header(image, addr)->Ok_0.fields, i) is Ok,
    ensures
        class_at(image, m, addr) is Ok,
        class_at(image, m, addr)->Ok_0.0.name == class_header(image, addr)->Ok_0.name,
        class_at(image, m, addr)->Ok_0.0.fields.contains(
            field_record(image, class_header(image, addr)->Ok_0.fields, i)->Ok_0,
        ),
{
    let h = class_header(image, addr)->Ok_0;
    lemma_field_kept(image, m, h.fields, h.field_count as nat, i);
}

/// An enum whose header can be read is decoded under the name and with the width that the
/// header gives, whatever its member records hold.
pub proof fn lemma_enum_survives_bad_members(image: ImageView, m: usize, addr: u64)
    requires
        enum_header(image, addr) is Ok,
    ensures
        enum_at(image, m, addr) is Ok,
        enum_at(image, m, addr)->Ok_0.0.name == enum_header(image, addr)->Ok_0.name,
        enum_at(image, m, addr)->Ok_0.0.width == enum_header(image, addr)->Ok_0.width,
{
    let h = enum_header(image, addr)->Ok_0;
    lemma_members_keep_head(
        image,
        m,
        h.members,
        h.member_count as nat,
        EnumView { name: h.name, width: h.width, members: Seq::empty() },
    );
}

/// Every module of the model bears the name of a plan that was walked.
pub proof fn lemma_modules_are_planned(image: ImageView, plans: Seq<ModulePlanView>, n: nat)
    requires
        n <= plans.len(),
    ensures
        modules_upto(image, plans, n).0.len() <= n,
        forall|k: int|
            0 <= k < modules_upto(image, plans, n).0.len() ==> exists|j: int|
                0 <= j < n && (#[trigger] plans[j]).name == (#[trigger] modules_upto(
                    image,
                    plans,
                    n,
                ).0[k]).name,
    decreases n,
{
    if n > 0 {
        lemma_modules_are_planned(image, plans, (n - 1) as nat);
        let before = modules_upto(image, plans, (n - 1) as nat).0;
        let after = modules_upto(image, plans, n).0;
        let plan = plans[n - 1];
        assert forall|k: int| 0 <= k < after.len() implies exists|j: int|
            0 <= j < n && (#[trigger] plans[j]).name == (#[trigger] after[k]).name by {
            if k < before.len() {
                assert(after[k] == before[k]);
                let j = choose|j: int| 0 <= j < n - 1 && (#[trigger] plans[j]).name == before[k].name;
                assert(0 <= j < n && plans[j].name == after[k].name);
            } else {
                let record = image.find_module(plan.name)->0;
                lemma_walk_keeps_name(
                    image,
                    (n - 1) as usize,
                    record,
                    plan.tables,
                    plan.tables.len(),
                    ModuleView::empty(plan.name),
                );
                assert(plans[n - 1].name == after[k].name);
            }
        }
    }
}

/// A planned module that the target has is in the model, whatever became of the other
/// planned modules: a module that is missing costs one gap and nothing else. Where no
/// earlier plan bears the same name, the module in the model is what walking that plan gives.
pub proof fn lemma_found_module_is_walked(
    image: ImageView,
    plans: Seq<ModulePlanView>,
    n: nat,
    i: int,
)
    requires
        0 <= i < n <= plans.len(),
        image.find_module(plans[i].name) is Some,
    ensures
        module_names(modules_upto(image, plans, n).0).contains(plans[i].name),
        (forall|j: int| 0 <= j < i ==> (#[trigger] plans[j]).name != plans[i].name)
            ==> modules_upto(image, plans, n).0.contains(
            module_walk(image, i as usize, image.find_module(plans[i].name)->0, plans[i]).0,
        ),
    decreases n,
{
    let before = modules_upto(image, plans, (n - 1) as nat).0;
    let after = modules_upto(image, plans, n).0;
    let name = plans[i].name;
    let record = image.find_module(name)->0;
    let walked = module_walk(image, i as usize, record, plans[i]).0;
    let first = forall|j: int| 0 <= j < i ==> (#[trigger] plans[j]).name != name;
    if i == n - 1 {
        lemma_walk_keeps_name(
            image,
            i as usize,
            record,
            plans[i].tables,
            plans[i].tables.len(),
            ModuleView::empty(name),
        );
        if module_names(before).contains(name) {
            let k = choose|k: int| 0 <= k < before.len() && module_names(before)[k] == name;
            assert(module_names(after)[k] == name);
            if first {
                lemma_modules_are_planned(image, plans, (n - 1) as nat);
                assert(before[k].name == name);
                let j = choose|j: int|
                    0 <= j < n - 1 && (#[trigger] plans[j]).name == before[k].name;
                assert(plans[j].name != name);
            }
        } else {
            assert(after == before.push(walked));
            assert(after[before.len() as int] == walked);
            assert(module_names(after)[before.len() as int] == name);
        }
    } else {
        lemma_found_module_is_walked(image, plans, (n - 1) as nat, i);
        let k = choose|k: int| 0 <= k < before.len() && module_names(before)[k] == name;
        assert(after.len() >= before.len() && after[k] == before[k]);
        assert(module_names(after)[k] == name);
        if first {
            let w = choose|w: int| 0 <= w < before.len() && before[w] == walked;
            assert(after[w] == walked);
        }
    }
}

} // verus!
