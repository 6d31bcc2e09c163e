//! Source text without nesting: one file per module, one constant per line. Every class,
//! field, enum, member and offset of the module becomes a constant; all constants of a
//! module share one scope, so they share one container when identifiers are handed out.

use vstd::prelude::*;
use crate::ident::{assign_idents, byte_rows, lemma_unique_idents_len, unique_idents};
use crate::model::{
    Class, class_views, ClassView, Enum, enum_views, EnumView, field_views, FieldView,
    member_views, MemberView, ModelView, Module, module_names, module_views, ModuleView,
    offset_views, OffsetView, opt_bytes, SchemaModel
};
use crate::named::{collect_names, Named, names_of};
use crate::render::{file_views, FileView, OutputFile};
use crate::render::nested::{plain, push_plain};
use crate::text::{
    copy_bytes, decimal, hex, hex_padded, join, lemma_join_occurs, lemma_occurs_head,
    lemma_occurs_self, lemma_occurs_tail, lit, occurs_in, push_bytes, push_decimal, push_hex,
    push_hex_padded, push_signed_decimal, push_str, signed_decimal
};

verus! {

/// What a constant says of the model.
#[derive(Clone, Copy, PartialEq, Eq, Debug, Structural)]
pub enum Constant {
    /// The size of a class, in bytes.
    ClassSize(u64),
    /// Where a field starts in its class.
    FieldOffset(u64),
    /// How many bytes the integer of an enum takes.
    EnumWidth(u8),
    /// The value of an enum member.
    MemberValue(i64),
    /// A named offset.
    Address(u64),
}

/// A constant to declare: the name it is made from, what it says, and a note for the reader.
#[derive(Debug)]
pub struct Entry {
    pub name: Vec<u8>,
    pub constant: Constant,
    pub note: Option<Vec<u8>>,
}

pub struct EntryView {
    pub name: Seq<u8>,
    pub constant: Constant,
    pub note: Option<Seq<u8>>,
}

impl View for Entry {
    type V = EntryView;

    open spec fn view(&self) -> EntryView {
        EntryView { name: self.name@, constant: self.constant, note: opt_bytes(self.note) }
    }
}

impl Named for Entry {
    open spec fn name_bytes(&self) -> Seq<u8> {
        self.name@
    }

    fn name(&self) -> (name: &Vec<u8>) {
        &self.name
    }
}

pub open spec fn entry_views(entries: Seq<Entry>) -> Seq<EntryView> {
    Seq::new(entries.len(), |i: int| entries[i]@)
}

pub open spec fn entry_names(entries: Seq<EntryView>) -> Seq<Seq<u8>> {
    Seq::new(entries.len(), |i: int| entries[i].name)
}

/// The name of what belongs to an owner: the owner's name, two colons, the own name.
pub open spec fn scoped(owner: Seq<u8>, name: Seq<u8>) -> Seq<u8> {
    owner + lit("::") + name
}

fn scoped_name(owner: &[u8], name: &[u8]) -> (full: Vec<u8>)
    ensures
        full@ == scoped(owner@, name@),
{
    let mut full = copy_bytes(owner);
    push_str(&mut full, "::");
    push_bytes(&mut full, name);
    full
}

pub open spec fn class_entry(class: ClassView) -> EntryView {
    EntryView {
        name: class.name,
        constant: Constant::ClassSize(class.size),
        note: class.parent,
    }
}

pub open spec fn field_entry(class: ClassView, field: FieldView) -> EntryView {
    EntryView {
        name: scoped(class.name, field.name),
        constant: Constant::FieldOffset(field.offset),
        note: field.declared_type,
    }
}

pub open spec fn enum_entry(e: EnumView) -> EntryView {
    EntryView { name: e.name, constant: Constant::EnumWidth(e.width.byte_len() as u8), note: None }
}

pub open spec fn member_entry(e: EnumView, member: MemberView) -> EntryView {
    EntryView {
        name: scoped(e.name, member.name),
        constant: Constant::MemberValue(member.value),
        note: None,
    }
}

pub open spec fn offset_entry(offset: OffsetView) -> EntryView {
    EntryView {
        name: offset.name,
        constant: Constant::Address(offset.value),
        note: offset.comment,
    }
}

/// The constants of a class: the class itself, then its fields in their order.
pub open spec fn class_block(class: ClassView) -> Seq<EntryView> {
    seq![class_entry(class)] + Seq::new(
        class.fields.len(),
        |k: int| field_entry(class, class.fields[k]),
    )
}

/// The constants of an enum: the enum itself, then its members in their order.
pub open spec fn enum_block(e: EnumView) -> Seq<EntryView> {
    seq![enum_entry(e)] + Seq::new(e.members.len(), |k: int| member_entry(e, e.members[k]))
}

/// The constants of the first `n` classes.
pub open spec fn class_blocks(classes: Seq<ClassView>, n: nat) -> Seq<EntryView>
    decreases n,
{
    if n == 0 {
        Seq::empty()
    } else {
        class_blocks(classes, (n - 1) as nat) + class_block(classes[n - 1])
    }
}

/// The constants of the first `n` enums.
pub open spec fn enum_blocks(enums: Seq<EnumView>, n: nat) -> Seq<EntryView>
    decreases n,
{
    if n == 0 {
        Seq::empty()
    } else {
        enum_blocks(enums, (n - 1) as nat) + enum_block(enums[n - 1])
    }
}

/// The constants of the offsets.
pub open spec fn offset_entries(offsets: Seq<OffsetView>) -> Seq<EntryView> {
    Seq::new(offsets.len(), |k: int| offset_entry(offsets[k]))
}

/// The constants of a module: those of its classes, then of its enums, then its offsets.
pub open spec fn flat_entries(module: ModuleView) -> Seq<EntryView> {
    class_blocks(module.classes, module.classes.len()) + enum_blocks(
        module.enums,
        module.enums.len(),
    ) + offset_entries(module.offsets)
}

fn push_class_block(entries: &mut Vec<Entry>, class: &Class)
    ensures
        entry_views(final(entries)@) == entry_views(old(entries)@) + class_block(class@),
{
    let ghost before = entry_views(entries@);
    let parent = match &class.parent {
        Some(p) => Some(copy_bytes(p.as_slice())),
        None => None,
    };
    entries.push(
        Entry {
            name: copy_bytes(class.name.as_slice()),
            constant: Constant::ClassSize(class.size),
            note: parent,
        },
    );
    let ghost fields = field_views(class.fields@);
    assert(entry_views(entries@) =~= before + seq![class_entry(class@)]);
    let mut k: usize = 0;
    while k < class.fields.len()
        invariant
            k <= class.fields@.len(),
            fields == field_views(class.fields@),
            entry_views(entries@) == before + seq![class_entry(class@)] + Seq::new(
                k as nat,
                |i: int| field_entry(class@, fields[i]),
            ),
        decreases class.fields@.len() - k,
    {
        let field = &class.fields[k];
        let declared = match &field.declared_type {
            Some(t) => Some(copy_bytes(t.as_slice())),
            None => None,
        };
        let ghost so_far = entry_views(entries@);
        entries.push(
            Entry {
                name: scoped_name(class.name.as_slice(), field.name.as_slice()),
                constant: Constant::FieldOffset(field.offset),
                note: declared,
            },
        );
        assert(entry_views(entries@) =~= so_far.push(field_entry(class@, fields[k as int])));
        assert(entry_views(entries@) =~= before + seq![class_entry(class@)] + Seq::new(
            (k + 1) as nat,
            |i: int| field_entry(class@, fields[i]),
        ));
        k += 1;
    }
    assert(entry_views(entries@) =~= before + class_block(class@));
}

fn push_enum_block(entries: &mut Vec<Entry>, e: &Enum)
    ensures
        entry_views(final(entries)@) == entry_views(old(entries)@) + enum_block(e@),
{
    let ghost before = entry_views(entries@);
    let members = e.members();
    entries.push(
        Entry {
            name: copy_bytes(e.name().as_slice()),
            constant: Constant::EnumWidth(e.width().len()),
            note: None,
        },
    );
    let ghost views = member_views(members@);
    assert(entry_views(entries@) =~= before + seq![enum_entry(e@)]);
    let mut k: usize = 0;
    while k < members.len()
        invariant
            k <= members@.len(),
            views == member_views(members@),
            views == e@.members,
            entry_views(entries@) == before + seq![enum_entry(e@)] + Seq::new(
                k as nat,
                |i: int| member_entry(e@, views[i]),
            ),
        decreases members@.len() - k,
    {
        let member = &members[k];
        let ghost so_far = entry_views(entries@);
        entries.push(
            Entry {
                name: scoped_name(e.name().as_slice(), member.name.as_slice()),
                constant: Constant::MemberValue(member.value),
                note: None,
            },
        );
        assert(entry_views(entries@) =~= so_far.push(member_entry(e@, views[k as int])));
        assert(entry_views(entries@) =~= before + seq![enum_entry(e@)] + Seq::new(
            (k + 1) as nat,
            |i: int| member_entry(e@, views[i]),
        ));
        k += 1;
    }
    assert(entry_views(entries@) =~= before + enum_block(e@));
}

/// Lists the constants of a module.
pub fn entries_of(module: &Module) -> (entries: Vec<Entry>)
    ensures
        entry_views(entries@) == flat_entries(module@),
{
    let classes = module.classes();
    let enums = module.enums();
    let offsets = module.offsets();
    let ghost view = module@;
    let mut entries: Vec<Entry> = Vec::new();
    assert(entry_views(entries@) =~= class_blocks(view.classes, 0));
    let mut i: usize = 0;
    while i < classes.len()
        invariant
            i <= classes@.len(),
            class_views(classes@) == view.classes,
            entry_views(entries@) == class_blocks(view.classes, i as nat),
        decreases classes@.len() - i,
    {
        assert(view.classes[i as int] == classes@[i as int]@);
        push_class_block(&mut entries, &classes[i]);
        i += 1;
    }
    let ghost classes_done = entry_views(entries@);
    assert(entry_views(entries@) =~= classes_done + enum_blocks(view.enums, 0));
    let mut j: usize = 0;
    while j < enums.len()
        invariant
            j <= enums@.len(),
            enum_views(enums@) == view.enums,
            entry_views(entries@) == classes_done + enum_blocks(view.enums, j as nat),
        decreases enums@.len() - j,
    {
        assert(view.enums[j as int] == enums@[j as int]@);
        let ghost so_far = enum_blocks(view.enums, j as nat);
        push_enum_block(&mut entries, &enums[j]);
        assert(entry_views(entries@) =~= classes_done + (so_far + enum_block(enums@[j as int]@)));
        j += 1;
    }
    let ghost enums_done = entry_views(entries@);
    let mut k: usize = 0;
    while k < offsets.len()
        invariant
            k <= offsets@.len(),
            offset_views(offsets@) == view.offsets,
            entry_views(entries@) == enums_done + Seq::new(
                k as nat,
                |n: int| offset_entry(view.offsets[n]),
            ),
        decreases offsets@.len() - k,
    {
        let offset = &offsets[k];
        let comment = match &offset.comment {
            Some(c) => Some(copy_bytes(c.as_slice())),
            None => None,
        };
        let ghost so_far = entry_views(entries@);
        assert(view.offsets[k as int] == offsets@[k as int]@);
        entries.push(
            Entry {
                name: copy_bytes(offset.name.as_slice()),
                constant: Constant::Address(offset.value),
                note: comment,
            },
        );
        assert(entry_views(entries@) =~= so_far.push(offset_entry(view.offsets[k as int])));
        assert(entry_views(entries@) =~= enums_done + Seq::new(
            (k + 1) as nat,
            |n: int| offset_entry(view.offsets[n]),
        ));
        k += 1;
    }
    assert(entry_views(entries@) =~= flat_entries(view));
    entries
}

impl Constant {
    /// The type of the constant in the emitted text.
    pub open spec fn type_word(self) -> &'static str {
        match self {
            Constant::MemberValue(_) => "i64",
            Constant::Address(_) => "u64",
            _ => "usize",
        }
    }

    /// What kind of entry the constant stands for.
    pub open spec fn kind_word(self) -> &'static str {
        match self {
            Constant::ClassSize(_) => "class",
            Constant::FieldOffset(_) => "field",
            Constant::EnumWidth(_) => "enum",
            Constant::MemberValue(_) => "member",
            Constant::Address(_) => "offset",
        }
    }

    /// The value of the constant in the emitted text: sizes and field offsets in
    /// hexadecimal, named offsets in hexadecimal of sixteen digits, enum widths and member
    /// values in decimal.
    pub open spec fn value_text(self) -> Seq<u8> {
        match self {
            Constant::ClassSize(v) => lit("0x") + hex(v as nat),
            Constant::FieldOffset(v) => lit("0x") + hex(v as nat),
            Constant::EnumWidth(w) => decimal(w as nat),
            Constant::MemberValue(v) => signed_decimal(v as int),
            Constant::Address(v) => lit("0x") + hex_padded(v as nat, 16),
        }
    }

    fn type_label(self) -> (word: &'static str)
        ensures
            word == self.type_word(),
    {
        match self {
            Constant::MemberValue(_) => "i64",
            Constant::Address(_) => "u64",
            _ => "usize",
        }
    }

    fn kind_name(self) -> (word: &'static str)
        ensures
            word == self.kind_word(),
    {
        match self {
            Constant::ClassSize(_) => "class",
            Constant::FieldOffset(_) => "field",
            Constant::EnumWidth(_) => "enum",
            Constant::MemberValue(_) => "member",
            Constant::Address(_) => "offset",
        }
    }

    fn value_of(self) -> (text: Vec<u8>)
        ensures
            text@ == self.value_text(),
    {
        let mut text: Vec<u8> = Vec::new();
        match self {
            Constant::ClassSize(v) => {
                push_str(&mut text, "0x");
                push_hex(&mut text, v);
            },
            Constant::FieldOffset(v) => {
                push_str(&mut text, "0x");
                push_hex(&mut text, v);
            },
            Constant::EnumWidth(w) => {
                push_decimal(&mut text, w as u64);
            },
            Constant::MemberValue(v) => {
                push_signed_decimal(&mut text, v);
            },
            Constant::Address(v) => {
                push_str(&mut text, "0x");
                push_hex_padded(&mut text, v, 16);
            },
        }
        assert(text@ =~= self.value_text());
        text
    }
}

/// The comment behind a constant: the kind of entry, and the note where there is one.
pub open spec fn flat_note(constant: Constant, note: Option<Seq<u8>>) -> Seq<u8> {
    lit(" // ") + lit(constant.kind_word()) + match note {
        Some(t) => lit(" : ") + plain(t),
        None => Seq::empty(),
    }
}

/// The line that declares a constant under the identifier `ident`.
pub open spec fn flat_line(entry: EntryView, ident: Seq<u8>) -> Seq<u8> {
    lit("pub const ") + ident + lit(": ") + lit(entry.constant.type_word()) + lit(" = ")
        + entry.constant.value_text() + lit(";") + flat_note(entry.constant, entry.note) + lit(
        "\n",
    )
}

fn flat_line_of(entry: &Entry, ident: &[u8]) -> (line: Vec<u8>)
    ensures
        line@ == flat_line(entry@, ident@),
{
    let mut note: Vec<u8> = Vec::new();
    push_str(&mut note, " // ");
    push_str(&mut note, entry.constant.kind_name());
    match &entry.note {
        Some(t) => {
            let mut piece: Vec<u8> = Vec::new();
            push_str(&mut piece, " : ");
            push_plain(&mut piece, t.as_slice());
            assert(piece@ =~= lit(" : ") + plain(t@));
            push_bytes(&mut note, piece.as_slice());
        },
        None => {},
    }
    assert(note@ =~= flat_note(entry.constant, opt_bytes(entry.note)));
    let value = entry.constant.value_of();
    let mut line: Vec<u8> = Vec::new();
    push_str(&mut line, "pub const ");
    push_bytes(&mut line, ident);
    push_str(&mut line, ": ");
    push_str(&mut line, entry.constant.type_label());
    push_str(&mut line, " = ");
    push_bytes(&mut line, value.as_slice());
    push_str(&mut line, ";");
    push_bytes(&mut line, note.as_slice());
    push_str(&mut line, "\n");
    assert(line@ =~= flat_line(entry@, ident@));
    line
}

/// The identifiers of a module's constants, in the order of `flat_entries`.
pub open spec fn flat_idents(module: ModuleView) -> Seq<Seq<u8>> {
    unique_idents(entry_names(flat_entries(module)))
}

pub open spec fn flat_part(entries: Seq<EntryView>, idents: Seq<Seq<u8>>) -> spec_fn(int) -> Seq<
    u8,
> {
    |k: int| flat_line(entries[k], idents[k])
}

/// The lines of a module's constants.
pub open spec fn flat_body(module: ModuleView) -> Seq<u8> {
    join(flat_entries(module).len(), flat_part(flat_entries(module), flat_idents(module)))
}

/// The file of a module: a comment with the module's name, then the module's constants.
#[verifier::opaque]
pub open spec fn flat_text(module: ModuleView) -> Seq<u8> {
    lit("// ") + plain(module.name) + lit("\n") + flat_body(module)
}

/// Renders the file of one module.
pub fn flat_file(module: &Module) -> (text: Vec<u8>)
    ensures
        text@ == flat_text(module@),
{
    let entries = entries_of(module);
    let names = collect_names(&entries);
    let idents = assign_idents(&names);
    let ghost views = entry_views(entries@);
    let ghost part = flat_part(views, byte_rows(idents@));
    proof {
        assert(names_of(entries@) =~= entry_names(views));
        lemma_unique_idents_len(entry_names(views));
    }
    let mut body: Vec<u8> = Vec::new();
    assert(body@ =~= join(0, part));
    let mut i: usize = 0;
    while i < entries.len()
        invariant
            i <= entries@.len(),
            views == entry_views(entries@),
            idents@.len() == entries@.len(),
            part == flat_part(views, byte_rows(idents@)),
            body@ == join(i as nat, part),
        decreases entries@.len() - i,
    {
        let line = flat_line_of(&entries[i], idents[i].as_slice());
        push_bytes(&mut body, line.as_slice());
        proof {
            assert(line@ == part(i as int));
            assert(join((i + 1) as nat, part) == join(i as nat, part) + part(i as int));
        }
        i += 1;
    }
    let mut text: Vec<u8> = Vec::new();
    push_str(&mut text, "// ");
    push_plain(&mut text, module.name().as_slice());
    push_str(&mut text, "\n");
    push_bytes(&mut text, body.as_slice());
    assert(text@ =~= flat_text(module@)) by {
        reveal(flat_text);
    }
    text
}

/// The file of the `k`-th module of a model.
pub open spec fn flat_file_of(model: ModelView, k: int) -> FileView {
    FileView {
        path: unique_idents(module_names(model.modules))[k] + lit(".rs"),
        content: flat_text(model.modules[k]),
    }
}

/// The files of a model as flat constants: one per module, in the model's order.
pub open spec fn flat_files(model: ModelView) -> Seq<FileView> {
    Seq::new(model.modules.len(), |k: int| flat_file_of(model, k))
}

/// Renders a model as flat constants.
pub fn render_flat(model: &SchemaModel) -> (files: Vec<OutputFile>)
    ensures
        file_views(files@) == flat_files(model@),
{
    let modules = model.modules();
    let names = collect_names(modules);
    let idents = assign_idents(&names);
    proof {
        assert(names_of(modules@) =~= module_names(model@.modules));
        lemma_unique_idents_len(module_names(model@.modules));
    }
    let mut files: Vec<OutputFile> = Vec::new();
    let mut i: usize = 0;
    while i < modules.len()
        invariant
            i <= modules@.len(),
            module_views(modules@) == model@.modules,
            byte_rows(idents@) == unique_idents(module_names(model@.modules)),
            idents@.len() == modules@.len(),
            files@.len() == i,
            forall|k: int| 0 <= k < i ==> files@[k]@ == flat_file_of(model@, k),
        decreases modules@.len() - i,
    {
        let mut path = copy_bytes(idents[i].as_slice());
        push_str(&mut path, ".rs");
        let content = flat_file(&modules[i]);
        proof {
            assert(model@.modules[i as int] == modules@[i as int]@);
            assert(byte_rows(idents@)[i as int] == idents@[i as int]@);
        }
        files.push(OutputFile { path, content });
        i += 1;
    }
    assert(file_views(files@) =~= flat_files(model@));
    files
}

/// Where the constants of the class at position `c` start among the constants of the
/// classes.
pub open spec fn class_start(classes: Seq<ClassView>, c: int) -> int
    decreases c,
{
    if c <= 0 {
        0
    } else {
        class_start(classes, c - 1) + 1 + classes[c - 1].fields.len()
    }
}

/// Where the constants of the enum at position `e` start among the constants of the enums.
pub open spec fn enum_start(enums: Seq<EnumView>, e: int) -> int
    decreases e,
{
    if e <= 0 {
        0
    } else {
        enum_start(enums, e - 1) + 1 + enums[e - 1].members.len()
    }
}

/// The constants of the classes hold, for each class, the class at its start and each field
/// behind it.
pub proof fn lemma_class_blocks(classes: Seq<ClassView>, n: nat, c: int)
    requires
        0 <= c < n <= classes.len(),
    ensures
        class_blocks(classes, n).len() == class_start(classes, n as int),
        0 <= class_start(classes, c),
        class_start(classes, c) + 1 + classes[c].fields.len() <= class_blocks(classes, n).len(),
        class_blocks(classes, n)[class_start(classes, c)] == class_entry(classes[c]),
        forall|f: int|
            0 <= f < classes[c].fields.len() ==> #[trigger] class_blocks(classes, n)[class_start(
                classes,
                c,
            ) + 1 + f] == field_entry(classes[c], classes[c].fields[f]),
    decreases n,
{
    lemma_class_blocks_len(classes, (n - 1) as nat);
    lemma_class_start_nonneg(classes, c);
    let before = class_blocks(classes, (n - 1) as nat);
    let block = class_block(classes[n - 1]);
    let all = class_blocks(classes, n);
    assert(all == before + block);
    if c == n - 1 {
        let start = class_start(classes, c);
        assert(all[start] == block[0]);
        assert forall|f: int| 0 <= f < classes[c].fields.len() implies #[trigger] all[start + 1
            + f] == field_entry(classes[c], classes[c].fields[f]) by {
            assert(all[start + 1 + f] == block[1 + f]);
        }
    } else {
        lemma_class_blocks(classes, (n - 1) as nat, c);
        let start = class_start(classes, c);
        assert(all[start] == before[start]);
        assert forall|f: int| 0 <= f < classes[c].fields.len() implies #[trigger] all[start + 1
            + f] == field_entry(classes[c], classes[c].fields[f]) by {
            assert(all[start + 1 + f] == before[start + 1 + f]);
        }
    }
}

proof fn lemma_class_blocks_len(classes: Seq<ClassView>, n: nat)
    ensures
        class_blocks(classes, n).len() == class_start(classes, n as int),
    decreases n,
{
    if n > 0 {
        lemma_class_blocks_len(classes, (n - 1) as nat);
    }
}

proof fn lemma_class_start_nonneg(classes: Seq<ClassView>, c: int)
    ensures
        0 <= class_start(classes, c),
    decreases c,
{
    if c > 0 {
        lemma_class_start_nonneg(classes, c - 1);
    }
}

/// The constants of the enums hold, for each enum, the enum at its start and each member
/// behind it.
pub proof fn lemma_enum_blocks(enums: Seq<EnumView>, n: nat, e: int)
    requires
        0 <= e < n <= enums.len(),
    ensures
        enum_blocks(enums, n).len() == enum_start(enums, n as int),
        0 <= enum_start(enums, e),
        enum_start(enums, e) + 1 + enums[e].members.len() <= enum_blocks(enums, n).len(),
        enum_blocks(enums, n)[enum_start(enums, e)] == enum_entry(enums[e]),
        forall|k: int|
            0 <= k < enums[e].members.len() ==> #[trigger] enum_blocks(enums, n)[enum_start(
                enums,
                e,
            ) + 1 + k] == member_entry(enums[e], enums[e].members[k]),
    decreases n,
{
    lemma_enum_blocks_len(enums, (n - 1) as nat);
    lemma_enum_start_nonneg(enums, e);
    let before = enum_blocks(enums, (n - 1) as nat);
    let block = enum_block(enums[n - 1]);
    let all = enum_blocks(enums, n);
    assert(all == before + block);
    if e == n - 1 {
        let start = enum_start(enums, e);
        assert(all[start] == block[0]);
        assert forall|k: int| 0 <= k < enums[e].members.len() implies #[trigger] all[start + 1
            + k] == member_entry(enums[e], enums[e].members[k]) by {
            assert(all[start + 1 + k] == block[1 + k]);
        }
    } else {
        lemma_enum_blocks(enums, (n - 1) as nat, e);
        let start = enum_start(enums, e);
        assert(all[start] == before[start]);
        assert forall|k: int| 0 <= k < enums[e].members.len() implies #[trigger] all[start + 1
            + k] == member_entry(enums[e], enums[e].members[k]) by {
            assert(all[start + 1 + k] == before[start + 1 + k]);
        }
    }
}

proof fn lemma_enum_blocks_len(enums: Seq<EnumView>, n: nat)
    ensures
        enum_blocks(enums, n).len() == enum_start(enums, n as int),
    decreases n,
{
    if n > 0 {
        lemma_enum_blocks_len(enums, (n - 1) as nat);
    }
}

proof fn lemma_enum_start_nonneg(enums: Seq<EnumView>, e: int)
    ensures
        0 <= enum_start(enums, e),
    decreases e,
{
    if e > 0 {
        lemma_enum_start_nonneg(enums, e - 1);
    }
}

/// The position of a class among the constants of its module.
pub open spec fn class_slot(module: ModuleView, c: int) -> int {
    class_start(module.classes, c)
}

/// The position of a field among the constants of its module.
pub open spec fn field_slot(module: ModuleView, c: int, f: int) -> int {
    class_start(module.classes, c) + 1 + f
}

/// The position of an enum among the constants of its module.
pub open spec fn enum_slot(module: ModuleView, e: int) -> int {
    class_start(module.classes, module.classes.len() as int) + enum_start(module.enums, e)
}

/// The position of a member among the constants of its module.
pub open spec fn member_slot(module: ModuleView, e: int, k: int) -> int {
    enum_slot(module, e) + 1 + k
}

/// The position of an offset among the constants of its module.
pub open spec fn offset_slot(module: ModuleView, o: int) -> int {
    class_start(module.classes, module.classes.len() as int) + enum_start(
        module.enums,
        module.enums.len() as int,
    ) + o
}

/// Every class, field, enum, member and offset of a module has its constant, at its slot.
pub proof fn lemma_flat_entries(module: ModuleView)
    ensures
        forall|c: int|
            0 <= c < module.classes.len() ==> 0 <= #[trigger] class_slot(module, c)
                < flat_entries(module).len() && flat_entries(module)[class_slot(module, c)]
                == class_entry(module.classes[c]),
        forall|c: int, f: int|
            0 <= c < module.classes.len() && 0 <= f < module.classes[c].fields.len() ==> 0
                <= #[trigger] field_slot(module, c, f) < flat_entries(module).len()
                && flat_entries(module)[field_slot(module, c, f)] == field_entry(
                module.classes[c],
                module.classes[c].fields[f],
            ),
        forall|e: int|
            0 <= e < module.enums.len() ==> 0 <= #[trigger] enum_slot(module, e) < flat_entries(
                module,
            ).len() && flat_entries(module)[enum_slot(module, e)] == enum_entry(module.enums[e]),
        forall|e: int, k: int|
            0 <= e < module.enums.len() && 0 <= k < module.enums[e].members.len() ==> 0
                <= #[trigger] member_slot(module, e, k) < flat_entries(module).len()
                && flat_entries(module)[member_slot(module, e, k)] == member_entry(
                module.enums[e],
                module.enums[e].members[k],
            ),
        forall|o: int|
            0 <= o < module.offsets.len() ==> 0 <= #[trigger] offset_slot(module, o)
                < flat_entries(module).len() && flat_entries(module)[offset_slot(module, o)]
                == offset_entry(module.offsets[o]),
{
    let cb = class_blocks(module.classes, module.classes.len());
    let eb = enum_blocks(module.enums, module.enums.len());
    let ob = offset_entries(module.offsets);
    let all = flat_entries(module);
    lemma_class_blocks_len(module.classes, module.classes.len());
    lemma_enum_blocks_len(module.enums, module.enums.len());
    assert forall|c: int| 0 <= c < module.classes.len() implies 0 <= #[trigger] class_slot(
        module,
        c,
    ) < all.len() && all[class_slot(module, c)] == class_entry(module.classes[c]) by {
        lemma_class_blocks(module.classes, module.classes.len(), c);
        assert(all[class_slot(module, c)] == cb[class_slot(module, c)]);
    }
    assert forall|c: int, f: int|
        0 <= c < module.classes.len() && 0 <= f < module.classes[c].fields.len() implies 0
        <= #[trigger] field_slot(module, c, f) < all.len() && all[field_slot(module, c, f)]
        == field_entry(module.classes[c], module.classes[c].fields[f]) by {
        lemma_class_blocks(module.classes, module.classes.len(), c);
        let at = field_slot(module, c, f);
        assert(cb[class_start(module.classes, c) + 1 + f] == field_entry(
            module.classes[c],
            module.classes[c].fields[f],
        ));
        assert(all[at] == cb[at]);
    }
    assert forall|e: int| 0 <= e < module.enums.len() implies 0 <= #[trigger] enum_slot(module, e)
        < all.len() && all[enum_slot(module, e)] == enum_entry(module.enums[e]) by {
        lemma_enum_blocks(module.enums, module.enums.len(), e);
        assert(all[enum_slot(module, e)] == eb[enum_start(module.enums, e)]);
    }
    assert forall|e: int, k: int|
        0 <= e < module.enums.len() && 0 <= k < module.enums[e].members.len() implies 0
        <= #[trigger] member_slot(module, e, k) < all.len() && all[member_slot(module, e, k)]
        == member_entry(module.enums[e], module.enums[e].members[k]) by {
        lemma_enum_blocks(module.enums, module.enums.len(), e);
        let inner = enum_start(module.enums, e) + 1 + k;
        assert(eb[enum_start(module.enums, e) + 1 + k] == member_entry(
            module.enums[e],
            module.enums[e].members[k],
        ));
        assert(all[member_slot(module, e, k)] == eb[inner]);
    }
    assert forall|o: int| 0 <= o < module.offsets.len() implies 0 <= #[trigger] offset_slot(
        module,
        o,
    ) < all.len() && all[offset_slot(module, o)] == offset_entry(module.offsets[o]) by {
        assert(all[offset_slot(module, o)] == ob[o]);
    }
}

/// The file of a module names the module, in its first line.
pub proof fn lemma_flat_text_names(module: ModuleView)
    ensures
        occurs_in(plain(module.name), flat_text(module)),
{
    broadcast use lemma_occurs_head, lemma_occurs_tail;

    reveal(flat_text);
    lemma_occurs_self(plain(module.name));
}

/// The file of a module holds the line of each of its constants, and each line holds the
/// constant's identifier.
pub proof fn lemma_flat_text_holds(module: ModuleView, at: int)
    requires
        0 <= at < flat_entries(module).len(),
    ensures
        occurs_in(flat_line(flat_entries(module)[at], flat_idents(module)[at]), flat_text(module)),
        occurs_in(
            flat_idents(module)[at],
            flat_line(flat_entries(module)[at], flat_idents(module)[at]),
        ),
{
    broadcast use lemma_occurs_head, lemma_occurs_tail;

    reveal(flat_text);
    let part = flat_part(flat_entries(module), flat_idents(module));
    lemma_occurs_self(part(at));
    lemma_join_occurs(flat_entries(module).len(), part, at, part(at));
    lemma_occurs_self(flat_idents(module)[at]);
}

} // verus!
