//! The recovered schema: modules that own classes, enums and named offsets.
//!
//! A model is built once and only read afterwards. Each exec type has a view made of
//! sequences, and the containers keep their names unique: the view of every value that can be
//! built through this module is well-formed.

use vstd::prelude::*;
use crate::named::{distinct, find_named, Named, names_of};

verus! {

/// How many bytes an enum's underlying integer takes.
#[derive(Clone, Copy, PartialEq, Eq, Debug, Structural)]
pub enum IntWidth {
    One,
    Two,
    Four,
    Eight,
}

impl IntWidth {
    pub open spec fn byte_len(self) -> nat {
        match self {
            IntWidth::One => 1,
            IntWidth::Two => 2,
            IntWidth::Four => 4,
            IntWidth::Eight => 8,
        }
    }

    /// Whether a signed integer of this width can hold `v`.
    pub open spec fn holds(self, v: int) -> bool {
        match self {
            IntWidth::One => -0x80 <= v < 0x80,
            IntWidth::Two => -0x8000 <= v < 0x8000,
            IntWidth::Four => -0x8000_0000 <= v < 0x8000_0000,
            IntWidth::Eight => -0x8000_0000_0000_0000 <= v < 0x8000_0000_0000_0000,
        }
    }

    /// The width of `n` bytes, where there is one.
    pub open spec fn of_len(n: nat) -> Option<IntWidth> {
        if n == 1 {
            Some(IntWidth::One)
        } else if n == 2 {
            Some(IntWidth::Two)
        } else if n == 4 {
            Some(IntWidth::Four)
        } else if n == 8 {
            Some(IntWidth::Eight)
        } else {
            None
        }
    }

    pub fn from_len(n: u8) -> (width: Option<IntWidth>)
        ensures
            width == Self::of_len(n as nat),
    {
        if n == 1 {
            Some(IntWidth::One)
        } else if n == 2 {
            Some(IntWidth::Two)
        } else if n == 4 {
            Some(IntWidth::Four)
        } else if n == 8 {
            Some(IntWidth::Eight)
        } else {
            None
        }
    }

    pub fn len(self) -> (n: u8)
        ensures
            n == self.byte_len(),
    {
        match self {
            IntWidth::One => 1,
            IntWidth::Two => 2,
            IntWidth::Four => 4,
            IntWidth::Eight => 8,
        }
    }

    pub fn fits(self, v: i64) -> (ok: bool)
        ensures
            ok == self.holds(v as int),
    {
        match self {
            IntWidth::One => -0x80 <= v && v < 0x80,
            IntWidth::Two => -0x8000 <= v && v < 0x8000,
            IntWidth::Four => -0x8000_0000 <= v && v < 0x8000_0000,
            IntWidth::Eight => true,
        }
    }
}

/// Why a container refused an entry.
#[derive(Clone, Copy, PartialEq, Eq, Debug, Structural)]
pub enum ModelError {
    /// The container already holds an entry of that name.
    DuplicateName,
    /// The enum's width cannot hold the member's value.
    ValueOutOfRange,
}

pub open spec fn opt_bytes(o: Option<Vec<u8>>) -> Option<Seq<u8>> {
    match o {
        Some(bytes) => Some(bytes@),
        None => None,
    }
}

/// A field of a class.
#[derive(Debug)]
pub struct Field {
    pub name: Vec<u8>,
    /// Where the field starts, in bytes from the start of the class.
    pub offset: u64,
    /// The declared type as the target spells it, where it could be read.
    pub declared_type: Option<Vec<u8>>,
}

pub struct FieldView {
    pub name: Seq<u8>,
    pub offset: u64,
    pub declared_type: Option<Seq<u8>>,
}

impl View for Field {
    type V = FieldView;

    open spec fn view(&self) -> FieldView {
        FieldView { name: self.name@, offset: self.offset, declared_type: opt_bytes(self.declared_type) }
    }
}

impl Named for Field {
    open spec fn name_bytes(&self) -> Seq<u8> {
        self.name@
    }

    fn name(&self) -> (name: &Vec<u8>) {
        &self.name
    }
}

pub open spec fn field_views(fields: Seq<Field>) -> Seq<FieldView> {
    Seq::new(fields.len(), |i: int| fields[i]@)
}

/// A class: its fields stand in the order in which the target declares them.
#[derive(Debug)]
pub struct Class {
    pub name: Vec<u8>,
    /// The size of an instance, in bytes.
    pub size: u64,
    /// The parent class, by name. The parent itself is looked up in the owning module, and
    /// may be absent from it.
    pub parent: Option<Vec<u8>>,
    pub fields: Vec<Field>,
}

pub struct ClassView {
    pub name: Seq<u8>,
    pub size: u64,
    pub parent: Option<Seq<u8>>,
    pub fields: Seq<FieldView>,
}

impl View for Class {
    type V = ClassView;

    open spec fn view(&self) -> ClassView {
        ClassView {
            name: self.name@,
            size: self.size,
            parent: opt_bytes(self.parent),
            fields: field_views(self.fields@),
        }
    }
}

impl Named for Class {
    open spec fn name_bytes(&self) -> Seq<u8> {
        self.name@
    }

    fn name(&self) -> (name: &Vec<u8>) {
        &self.name
    }
}

pub open spec fn class_views(classes: Seq<Class>) -> Seq<ClassView> {
    Seq::new(classes.len(), |i: int| classes[i]@)
}

pub open spec fn class_names(classes: Seq<ClassView>) -> Seq<Seq<u8>> {
    Seq::new(classes.len(), |i: int| classes[i].name)
}

pub open spec fn field_names(fields: Seq<FieldView>) -> Seq<Seq<u8>> {
    Seq::new(fields.len(), |i: int| fields[i].name)
}

/// A member of an enum.
#[derive(Debug)]
pub struct EnumMember {
    pub name: Vec<u8>,
    pub value: i64,
}

pub struct MemberView {
    pub name: Seq<u8>,
    pub value: i64,
}

impl View for EnumMember {
    type V = MemberView;

    open spec fn view(&self) -> MemberView {
        MemberView { name: self.name@, value: self.value }
    }
}

impl Named for EnumMember {
    open spec fn name_bytes(&self) -> Seq<u8> {
        self.name@
    }

    fn name(&self) -> (name: &Vec<u8>) {
        &self.name
    }
}

pub open spec fn member_views(members: Seq<EnumMember>) -> Seq<MemberView> {
    Seq::new(members.len(), |i: int| members[i]@)
}

pub open spec fn member_names(members: Seq<MemberView>) -> Seq<Seq<u8>> {
    Seq::new(members.len(), |i: int| members[i].name)
}

pub struct EnumView {
    pub name: Seq<u8>,
    pub width: IntWidth,
    pub members: Seq<MemberView>,
}

impl EnumView {
    /// Member names are unique, and the width holds every value.
    pub open spec fn wf(self) -> bool {
        &&& distinct(member_names(self.members))
        &&& forall|i: int|
            0 <= i < self.members.len() ==> self.width.holds(
                (#[trigger] self.members[i]).value as int,
            )
    }

    /// Whether the enum takes `member`, and why not.
    pub open spec fn admits(self, member: MemberView) -> Result<(), ModelError> {
        if member_names(self.members).contains(member.name) {
            Err(ModelError::DuplicateName)
        } else if !self.width.holds(member.value as int) {
            Err(ModelError::ValueOutOfRange)
        } else {
            Ok(())
        }
    }

    pub open spec fn with_member(self, member: MemberView) -> EnumView {
        EnumView { members: self.members.push(member), ..self }
    }
}

/// An enum: its members stand in the order in which the target declares them.
#[derive(Debug)]
pub struct Enum {
    name: Vec<u8>,
    width: IntWidth,
    members: Vec<EnumMember>,
}

impl View for Enum {
    type V = EnumView;

    closed spec fn view(&self) -> EnumView {
        EnumView { name: self.name@, width: self.width, members: member_views(self.members@) }
    }
}

impl Named for Enum {
    open spec fn name_bytes(&self) -> Seq<u8> {
        self@.name
    }

    fn name(&self) -> (name: &Vec<u8>) {
        &self.name
    }
}

impl Enum {
    #[verifier::type_invariant]
    spec fn inv(&self) -> bool {
        self@.wf()
    }

    /// An enum without members.
    pub fn new(name: Vec<u8>, width: IntWidth) -> (e: Enum)
        ensures
            e@ == (EnumView { name: name@, width, members: Seq::empty() }),
            e@.wf(),
    {
        let e = Enum { name, width, members: Vec::new() };
        assert(e@.members =~= Seq::empty());
        e
    }

    pub fn width(&self) -> (width: IntWidth)
        ensures
            width == self@.width,
    {
        self.width
    }

    pub fn members(&self) -> (members: &Vec<EnumMember>)
        ensures
            member_views(members@) == self@.members,
            self@.wf(),
    {
        proof {
            use_type_invariant(self);
        }
        &self.members
    }

    /// Adds `member` behind the others, unless its name is taken or its value does not fit.
    pub fn add_member(&mut self, member: EnumMember) -> (added: Result<(), ModelError>)
        ensures
            added == old(self)@.admits(member@),
            added is Ok ==> final(self)@ == old(self)@.with_member(member@),
            added is Err ==> final(self)@ == old(self)@,
            final(self)@.wf(),
    {
        proof {
            use_type_invariant(&*self);
        }
        assert(names_of(self.members@) =~= member_names(self@.members));
        if find_named(&self.members, member.name.as_slice()).is_some() {
            return Err(ModelError::DuplicateName);
        }
        if !self.width.fits(member.value) {
            return Err(ModelError::ValueOutOfRange);
        }
        let ghost before = self@;
        let mut members: Vec<EnumMember> = Vec::new();
        assert(member_views(members@) =~= Seq::empty());
        core::mem::swap(&mut self.members, &mut members);
        members.push(member);
        proof {
            let after = member_views(members@);
            assert(after =~= before.members.push(member@));
            assert(member_names(after) =~= member_names(before.members).push(member@.name));
            lemma_distinct_push(member_names(before.members), member@.name);
            assert forall|i: int| 0 <= i < after.len() implies self.width.holds(
                (#[trigger] after[i]).value as int,
            ) by {
                if i < before.members.len() {
                    assert(after[i] == before.members[i]);
                }
            }
        }
        core::mem::swap(&mut self.members, &mut members);
        Ok(())
    }
}

pub open spec fn enum_views(enums: Seq<Enum>) -> Seq<EnumView> {
    Seq::new(enums.len(), |i: int| enums[i]@)
}

pub open spec fn enum_names(enums: Seq<EnumView>) -> Seq<Seq<u8>> {
    Seq::new(enums.len(), |i: int| enums[i].name)
}

/// A named number found in a module.
#[derive(Debug)]
pub struct Offset {
    pub name: Vec<u8>,
    pub value: u64,
    /// A note for the reader, such as the symbol the number came from.
    pub comment: Option<Vec<u8>>,
}

pub struct OffsetView {
    pub name: Seq<u8>,
    pub value: u64,
    pub comment: Option<Seq<u8>>,
}

impl View for Offset {
    type V = OffsetView;

    open spec fn view(&self) -> OffsetView {
        OffsetView { name: self.name@, value: self.value, comment: opt_bytes(self.comment) }
    }
}

impl Named for Offset {
    open spec fn name_bytes(&self) -> Seq<u8> {
        self.name@
    }

    fn name(&self) -> (name: &Vec<u8>) {
        &self.name
    }
}

pub open spec fn offset_views(offsets: Seq<Offset>) -> Seq<OffsetView> {
    Seq::new(offsets.len(), |i: int| offsets[i]@)
}

pub open spec fn offset_names(offsets: Seq<OffsetView>) -> Seq<Seq<u8>> {
    Seq::new(offsets.len(), |i: int| offsets[i].name)
}

pub struct ModuleView {
    pub name: Seq<u8>,
    pub classes: Seq<ClassView>,
    pub enums: Seq<EnumView>,
    pub offsets: Seq<OffsetView>,
}

impl ModuleView {
    /// Classes, enums and offsets each have unique names, and every enum is well-formed.
    pub open spec fn wf(self) -> bool {
        &&& distinct(class_names(self.classes))
        &&& distinct(enum_names(self.enums))
        &&& distinct(offset_names(self.offsets))
        &&& forall|i: int| 0 <= i < self.enums.len() ==> (#[trigger] self.enums[i]).wf()
    }

    pub open spec fn empty(name: Seq<u8>) -> ModuleView {
        ModuleView { name, classes: Seq::empty(), enums: Seq::empty(), offsets: Seq::empty() }
    }

    pub open spec fn with_class(self, class: ClassView) -> ModuleView {
        ModuleView { classes: self.classes.push(class), ..self }
    }

    pub open spec fn with_enum(self, e: EnumView) -> ModuleView {
        ModuleView { enums: self.enums.push(e), ..self }
    }

    pub open spec fn with_offset(self, offset: OffsetView) -> ModuleView {
        ModuleView { offsets: self.offsets.push(offset), ..self }
    }

    /// How many classes, enums and offsets the module holds.
    pub open spec fn entry_count(self) -> nat {
        self.classes.len() + self.enums.len() + self.offsets.len()
    }
}

/// A module of the target: a named region that owns classes, enums and offsets, each kind with
/// names of its own.
#[derive(Debug)]
pub struct Module {
    name: Vec<u8>,
    classes: Vec<Class>,
    enums: Vec<Enum>,
    offsets: Vec<Offset>,
}

impl View for Module {
    type V = ModuleView;

    closed spec fn view(&self) -> ModuleView {
        ModuleView {
            name: self.name@,
            classes: class_views(self.classes@),
            enums: enum_views(self.enums@),
            offsets: offset_views(self.offsets@),
        }
    }
}

impl Named for Module {
    open spec fn name_bytes(&self) -> Seq<u8> {
        self@.name
    }

    fn name(&self) -> (name: &Vec<u8>) {
        &self.name
    }
}

proof fn lemma_distinct_push(names: Seq<Seq<u8>>, name: Seq<u8>)
    requires
        distinct(names),
        !names.contains(name),
    ensures
        distinct(names.push(name)),
{
    let longer = names.push(name);
    assert forall|i: int, j: int| 0 <= i < j < longer.len() implies longer[i] != longer[j] by {
        assert(longer[i] == names[i]);
        if j < names.len() {
            assert(longer[j] == names[j]);
        }
    }
}

impl Module {
    #[verifier::type_invariant]
    spec fn inv(&self) -> bool {
        self@.wf()
    }

    /// A module that holds nothing yet.
    pub fn new(name: Vec<u8>) -> (m: Module)
        ensures
            m@ == ModuleView::empty(name@),
            m@.wf(),
    {
        let m = Module { name, classes: Vec::new(), enums: Vec::new(), offsets: Vec::new() };
        assert(m@.classes =~= Seq::empty());
        assert(m@.enums =~= Seq::empty());
        assert(m@.offsets =~= Seq::empty());
        m
    }

    pub fn classes(&self) -> (classes: &Vec<Class>)
        ensures
            class_views(classes@) == self@.classes,
            self@.wf(),
    {
        proof {
            use_type_invariant(self);
        }
        &self.classes
    }

    pub fn enums(&self) -> (enums: &Vec<Enum>)
        ensures
            enum_views(enums@) == self@.enums,
            self@.wf(),
    {
        proof {
            use_type_invariant(self);
        }
        &self.enums
    }

    pub fn offsets(&self) -> (offsets: &Vec<Offset>)
        ensures
            offset_views(offsets@) == self@.offsets,
            self@.wf(),
    {
        proof {
            use_type_invariant(self);
        }
        &self.offsets
    }

    /// How many classes, enums and offsets the module holds, or `usize::MAX` where the count
    /// is larger than that.
    pub fn entry_count(&self) -> (n: usize)
        ensures
            n == if self@.entry_count() <= usize::MAX {
                self@.entry_count()
            } else {
                usize::MAX as nat
            },
    {
        self.classes.len().saturating_add(self.enums.len()).saturating_add(self.offsets.len())
    }

    /// Adds `class` behind the others, unless the module has a class of that name.
    pub fn add_class(&mut self, class: Class) -> (added: Result<(), ModelError>)
        ensures
            added is Ok <==> !class_names(old(self)@.classes).contains(class@.name),
            added is Ok ==> final(self)@ == old(self)@.with_class(class@),
            added is Err ==> added == Err::<(), ModelError>(ModelError::DuplicateName)
                && final(self)@ == old(self)@,
            final(self)@.wf(),
    {
        proof {
            use_type_invariant(&*self);
        }
        assert(names_of(self.classes@) =~= class_names(self@.classes));
        if find_named(&self.classes, class.name.as_slice()).is_some() {
            return Err(ModelError::DuplicateName);
        }
        let ghost before = self@;
        let mut classes: Vec<Class> = Vec::new();
        assert(class_views(classes@) =~= Seq::empty());
        core::mem::swap(&mut self.classes, &mut classes);
        classes.push(class);
        proof {
            let after = class_views(classes@);
            assert(after =~= before.classes.push(class@));
            assert(class_names(after) =~= class_names(before.classes).push(class@.name));
            lemma_distinct_push(class_names(before.classes), class@.name);
        }
        core::mem::swap(&mut self.classes, &mut classes);
        Ok(())
    }

    /// Adds `e` behind the other enums, unless the module has an enum of that name.
    pub fn add_enum(&mut self, e: Enum) -> (added: Result<(), ModelError>)
        ensures
            added is Ok <==> !enum_names(old(self)@.enums).contains(e@.name),
            added is Ok ==> final(self)@ == old(self)@.with_enum(e@),
            added is Err ==> added == Err::<(), ModelError>(ModelError::DuplicateName)
                && final(self)@ == old(self)@,
            final(self)@.wf(),
    {
        proof {
            use_type_invariant(&*self);
            use_type_invariant(&e);
        }
        assert(names_of(self.enums@) =~= enum_names(self@.enums));
        if find_named(&self.enums, e.name.as_slice()).is_some() {
            return Err(ModelError::DuplicateName);
        }
        let ghost before = self@;
        let mut enums: Vec<Enum> = Vec::new();
        assert(enum_views(enums@) =~= Seq::empty());
        core::mem::swap(&mut self.enums, &mut enums);
        enums.push(e);
        proof {
            let after = enum_views(enums@);
            assert(after =~= before.enums.push(e@));
            assert(enum_names(after) =~= enum_names(before.enums).push(e@.name));
            lemma_distinct_push(enum_names(before.enums), e@.name);
            assert forall|i: int| 0 <= i < after.len() implies (#[trigger] after[i]).wf() by {
                if i < before.enums.len() {
                    assert(after[i] == before.enums[i]);
                }
            }
        }
        core::mem::swap(&mut self.enums, &mut enums);
        Ok(())
    }

    /// Adds `offset` behind the others, unless the module has an offset of that name.
    pub fn add_offset(&mut self, offset: Offset) -> (added: Result<(), ModelError>)
        ensures
            added is Ok <==> !offset_names(old(self)@.offsets).contains(offset@.name),
            added is Ok ==> final(self)@ == old(self)@.with_offset(offset@),
            added is Err ==> added == Err::<(), ModelError>(ModelError::DuplicateName)
                && final(self)@ == old(self)@,
            final(self)@.wf(),
    {
        proof {
            use_type_invariant(&*self);
        }
        assert(names_of(self.offsets@) =~= offset_names(self@.offsets));
        if find_named(&self.offsets, offset.name.as_slice()).is_some() {
            return Err(ModelError::DuplicateName);
        }
        let ghost before = self@;
        let mut offsets: Vec<Offset> = Vec::new();
        assert(offset_views(offsets@) =~= Seq::empty());
        core::mem::swap(&mut self.offsets, &mut offsets);
        offsets.push(offset);
        proof {
            let after = offset_views(offsets@);
            assert(after =~= before.offsets.push(offset@));
            assert(offset_names(after) =~= offset_names(before.offsets).push(offset@.name));
            lemma_distinct_push(offset_names(before.offsets), offset@.name);
        }
        core::mem::swap(&mut self.offsets, &mut offsets);
        Ok(())
    }

    /// The class that `class` names as its parent, where this module holds it.
    pub fn parent_of(&self, class: &Class) -> (parent: Option<&Class>)
        ensures
            match parent {
                Some(p) => class@.parent == Some(p@.name) && self@.classes.contains(p@),
                None => class@.parent is None || !class_names(self@.classes).contains(
                    class@.parent->0,
                ),
            },
    {
        assert(names_of(self.classes@) =~= class_names(self@.classes));
        match &class.parent {
            None => None,
            Some(name) => match find_named(&self.classes, name.as_slice()) {
                None => None,
                Some(i) => {
                    assert(self@.classes[i as int] == self.classes@[i as int]@);
                    Some(&self.classes[i])
                },
            },
        }
    }
}

pub open spec fn module_views(modules: Seq<Module>) -> Seq<ModuleView> {
    Seq::new(modules.len(), |i: int| modules[i]@)
}

pub open spec fn module_names(modules: Seq<ModuleView>) -> Seq<Seq<u8>> {
    Seq::new(modules.len(), |i: int| modules[i].name)
}

pub struct ModelView {
    pub modules: Seq<ModuleView>,
}

impl ModelView {
    /// Module names are unique, and every module is well-formed.
    pub open spec fn wf(self) -> bool {
        &&& distinct(module_names(self.modules))
        &&& forall|i: int| 0 <= i < self.modules.len() ==> (#[trigger] self.modules[i]).wf()
    }

    pub open spec fn with_module(self, module: ModuleView) -> ModelView {
        ModelView { modules: self.modules.push(module) }
    }
}

/// The whole schema: the modules in the order in which they were found.
#[derive(Debug)]
pub struct SchemaModel {
    modules: Vec<Module>,
}

impl View for SchemaModel {
    type V = ModelView;

    closed spec fn view(&self) -> ModelView {
        ModelView { modules: module_views(self.modules@) }
    }
}

impl SchemaModel {
    #[verifier::type_invariant]
    spec fn inv(&self) -> bool {
        self@.wf()
    }

    /// A model without modules.
    pub fn new() -> (model: SchemaModel)
        ensures
            model@.modules == Seq::<ModuleView>::empty(),
            model@.wf(),
    {
        let model = SchemaModel { modules: Vec::new() };
        assert(model@.modules =~= Seq::empty());
        model
    }

    pub fn modules(&self) -> (modules: &Vec<Module>)
        ensures
            module_views(modules@) == self@.modules,
            self@.wf(),
    {
        proof {
            use_type_invariant(self);
        }
        &self.modules
    }

    /// Adds `module` behind the others, unless the model has a module of that name.
    pub fn add_module(&mut self, module: Module) -> (added: Result<(), ModelError>)
        ensures
            added is Ok <==> !module_names(old(self)@.modules).contains(module@.name),
            added is Ok ==> final(self)@ == old(self)@.with_module(module@),
            added is Err ==> added == Err::<(), ModelError>(ModelError::DuplicateName)
                && final(self)@ == old(self)@,
            final(self)@.wf(),
    {
        proof {
            use_type_invariant(&*self);
            use_type_invariant(&module);
        }
        assert(names_of(self.modules@) =~= module_names(self@.modules));
        if find_named(&self.modules, module.name.as_slice()).is_some() {
            return Err(ModelError::DuplicateName);
        }
        let ghost before = self@;
        let mut modules: Vec<Module> = Vec::new();
        assert(module_views(modules@) =~= Seq::empty());
        core::mem::swap(&mut self.modules, &mut modules);
        modules.push(module);
        proof {
            let after = module_views(modules@);
            assert(after =~= before.modules.push(module@));
            assert(module_names(after) =~= module_names(before.modules).push(module@.name));
            lemma_distinct_push(module_names(before.modules), module@.name);
            assert forall|i: int| 0 <= i < after.len() implies (#[trigger] after[i]).wf() by {
                if i < before.modules.len() {
                    assert(after[i] == before.modules[i]);
                }
            }
        }
        core::mem::swap(&mut self.modules, &mut modules);
        Ok(())
    }
}

} // verus!
