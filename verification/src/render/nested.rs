//! Source text that mirrors the model's containment: one file per module, a scope per module
//! and per class, a constant per field and offset, an enumeration per enum.
//!
//! The two nested formats differ only in their keywords, which a `Syntax` holds. Classes,
//! enums and offsets of a module share one scope in the emitted text, so they share one
//! container when identifiers are handed out.

use vstd::prelude::*;
use crate::ident::{assign_idents, byte_rows, lemma_unique_idents_len, unique_idents};
use crate::model::{
    Class, class_names, class_views, ClassView, Enum, enum_names, enum_views, EnumMember, EnumView,
    Field, field_names, field_views, FieldView, IntWidth, member_names, member_views, MemberView,
    ModelView, Module, module_names, module_views, ModuleView, Offset, offset_names, offset_views,
    OffsetView, opt_bytes, SchemaModel
};
use crate::named::{collect_names, Named, names_of};
use crate::render::{file_views, FileView, OutputFile};
use crate::text::{
    copy_bytes, hex, hex_padded, indent, join, lemma_join_occurs, lemma_occurs_head,
    lemma_occurs_self, lemma_occurs_tail, lit, occurs_in, push_bytes, push_hex, push_hex_padded,
    push_indent, push_signed_decimal, push_str, signed_decimal
};

verus! {

/// The keywords of one code format.
#[derive(Clone, Copy, Debug)]
pub struct Syntax {
    /// What follows a module's identifier in its file's name.
    pub extension: &'static str,
    /// What every file starts with.
    pub preamble: &'static str,
    /// What opens the scope of a module or a class, before its identifier.
    pub scope_open: &'static str,
    /// What stands before the identifier of a constant.
    pub constant_open: &'static str,
    /// What opens an enum, before its identifier; what follows the identifier, by width; and
    /// what closes the enum.
    pub enum_open: &'static str,
    pub enum_head_one: &'static str,
    pub enum_head_two: &'static str,
    pub enum_head_four: &'static str,
    pub enum_head_eight: &'static str,
    pub enum_close: &'static str,
}

pub open spec fn hpp_syntax() -> Syntax {
    Syntax {
        extension: ".hpp",
        preamble: "#pragma once\n\n#include <cstddef>\n#include <cstdint>\n\n",
        scope_open: "namespace ",
        constant_open: "constexpr std::ptrdiff_t ",
        enum_open: "enum class ",
        enum_head_one: " : std::int8_t {",
        enum_head_two: " : std::int16_t {",
        enum_head_four: " : std::int32_t {",
        enum_head_eight: " : std::int64_t {",
        enum_close: "};",
    }
}

pub open spec fn cs_syntax() -> Syntax {
    Syntax {
        extension: ".cs",
        preamble: "",
        scope_open: "public static class ",
        constant_open: "public const nint ",
        enum_open: "public enum ",
        enum_head_one: " : sbyte {",
        enum_head_two: " : short {",
        enum_head_four: " : int {",
        enum_head_eight: " : long {",
        enum_close: "}",
    }
}

pub fn hpp() -> (syn: Syntax)
    ensures
        syn == hpp_syntax(),
{
    Syntax {
        extension: ".hpp",
        preamble: "#pragma once\n\n#include <cstddef>\n#include <cstdint>\n\n",
        scope_open: "namespace ",
        constant_open: "constexpr std::ptrdiff_t ",
        enum_open: "enum class ",
        enum_head_one: " : std::int8_t {",
        enum_head_two: " : std::int16_t {",
        enum_head_four: " : std::int32_t {",
        enum_head_eight: " : std::int64_t {",
        enum_close: "};",
    }
}

pub fn cs() -> (syn: Syntax)
    ensures
        syn == cs_syntax(),
{
    Syntax {
        extension: ".cs",
        preamble: "",
        scope_open: "public static class ",
        constant_open: "public const nint ",
        enum_open: "public enum ",
        enum_head_one: " : sbyte {",
        enum_head_two: " : short {",
        enum_head_four: " : int {",
        enum_head_eight: " : long {",
        enum_close: "}",
    }
}

impl Syntax {
    /// What follows an enum's identifier, for an enum of the given width.
    pub open spec fn enum_head(self, width: IntWidth) -> &'static str {
        match width {
            IntWidth::One => self.enum_head_one,
            IntWidth::Two => self.enum_head_two,
            IntWidth::Four => self.enum_head_four,
            IntWidth::Eight => self.enum_head_eight,
        }
    }

    pub fn head_for(&self, width: IntWidth) -> (head: &'static str)
        ensures
            head == self.enum_head(width),
    {
        match width {
            IntWidth::One => self.enum_head_one,
            IntWidth::Two => self.enum_head_two,
            IntWidth::Four => self.enum_head_four,
            IntWidth::Eight => self.enum_head_eight,
        }
    }
}

/// `b` where it can stand in a one-line comment, a question mark where it cannot.
pub open spec fn plain_byte(b: u8) -> u8 {
    if 0x20 <= b <= 0x7e && b != 0x5c {
        b
    } else {
        0x3f
    }
}

/// `text` made fit for a one-line comment: printable ASCII without backslashes.
pub open spec fn plain(text: Seq<u8>) -> Seq<u8> {
    Seq::new(text.len(), |i: int| plain_byte(text[i]))
}

pub fn push_plain(out: &mut Vec<u8>, text: &[u8])
    ensures
        final(out)@ == old(out)@ + plain(text@),
{
    let mut i: usize = 0;
    while i < text.len()
        invariant
            i <= text@.len(),
            out@ == old(out)@ + plain(text@).subrange(0, i as int),
        decreases text@.len() - i,
    {
        let b = text[i];
        if 0x20 <= b && b <= 0x7e && b != 0x5c {
            out.push(b);
        } else {
            out.push(0x3f);
        }
        i += 1;
        assert(out@ =~= old(out)@ + plain(text@).subrange(0, i as int));
    }
    assert(plain(text@).subrange(0, i as int) =~= plain(text@));
}

/// The comment behind a declaration, where there is something to say.
pub open spec fn note(text: Option<Seq<u8>>) -> Seq<u8> {
    match text {
        Some(t) => lit(" // ") + plain(t),
        None => Seq::empty(),
    }
}

pub fn push_note(out: &mut Vec<u8>, text: &Option<Vec<u8>>)
    ensures
        final(out)@ == old(out)@ + note(opt_bytes(*text)),
{
    match text {
        Some(t) => {
            let mut piece: Vec<u8> = Vec::new();
            push_str(&mut piece, " // ");
            push_plain(&mut piece, t.as_slice());
            assert(piece@ =~= note(opt_bytes(*text)));
            push_bytes(out, piece.as_slice());
        },
        None => {
            assert(out@ =~= old(out)@ + Seq::<u8>::empty());
        },
    }
}

/// The line that declares a field, inside its class.
pub open spec fn field_line(syn: Syntax, width: nat, field: FieldView, ident: Seq<u8>) -> Seq<u8> {
    indent(width, 2) + lit(syn.constant_open) + ident + lit(" = ") + lit("0x") + hex(
        field.offset as nat,
    ) + lit(";") + note(field.declared_type) + lit("\n")
}

pub open spec fn field_part(syn: Syntax, width: nat, fields: Seq<FieldView>, idents: Seq<Seq<u8>>)
    -> spec_fn(int) -> Seq<u8> {
    |k: int| field_line(syn, width, fields[k], idents[k])
}

/// The lines of a class's fields, in their order, each under its identifier.
pub open spec fn fields_text(syn: Syntax, width: nat, fields: Seq<FieldView>) -> Seq<u8> {
    join(fields.len(), field_part(syn, width, fields, unique_idents(field_names(fields))))
}

fn field_line_of(syn: &Syntax, width: usize, field: &Field, ident: &[u8]) -> (line: Vec<u8>)
    ensures
        line@ == field_line(*syn, width as nat, field@, ident@),
{
    let mut line: Vec<u8> = Vec::new();
    push_indent(&mut line, width, 2);
    push_str(&mut line, syn.constant_open);
    push_bytes(&mut line, ident);
    push_str(&mut line, " = ");
    push_str(&mut line, "0x");
    push_hex(&mut line, field.offset);
    push_str(&mut line, ";");
    push_note(&mut line, &field.declared_type);
    push_str(&mut line, "\n");
    assert(line@ =~= field_line(*syn, width as nat, field@, ident@));
    line
}

fn push_fields(out: &mut Vec<u8>, syn: &Syntax, width: usize, fields: &Vec<Field>)
    ensures
        final(out)@ == old(out)@ + fields_text(*syn, width as nat, field_views(fields@)),
{
    let names = collect_names(fields);
    let idents = assign_idents(&names);
    let ghost views = field_views(fields@);
    let ghost part = field_part(*syn, width as nat, views, byte_rows(idents@));
    proof {
        assert(names_of(fields@) =~= field_names(views));
        lemma_unique_idents_len(field_names(views));
        assert(out@ =~= old(out)@ + join(0, part));
    }
    let mut i: usize = 0;
    while i < fields.len()
        invariant
            i <= fields@.len(),
            views == field_views(fields@),
            idents@.len() == fields@.len(),
            part == field_part(*syn, width as nat, views, byte_rows(idents@)),
            out@ == old(out)@ + join(i as nat, part),
        decreases fields@.len() - i,
    {
        let line = field_line_of(syn, width, &fields[i], idents[i].as_slice());
        push_bytes(out, line.as_slice());
        proof {
            assert(line@ == part(i as int));
            assert(join((i + 1) as nat, part) == join(i as nat, part) + part(i as int));
            assert(out@ =~= old(out)@ + join((i + 1) as nat, part));
        }
        i += 1;
    }
}

/// What follows a class's opening brace: its size, and its parent where it has one.
pub open spec fn class_note(class: ClassView) -> Seq<u8> {
    lit(" // size 0x") + hex(class.size as nat) + match class.parent {
        Some(p) => lit(", parent ") + plain(p),
        None => Seq::empty(),
    }
}

/// The scope of a class: its opening line, its fields, its closing line.
pub open spec fn class_text(syn: Syntax, width: nat, class: ClassView, ident: Seq<u8>) -> Seq<u8> {
    indent(width, 1) + lit(syn.scope_open) + ident + lit(" {") + class_note(class) + lit("\n")
        + fields_text(syn, width, class.fields) + indent(width, 1) + lit("}\n")
}

fn class_text_of(syn: &Syntax, width: usize, class: &Class, ident: &[u8]) -> (text: Vec<u8>)
    ensures
        text@ == class_text(*syn, width as nat, class@, ident@),
{
    let mut note: Vec<u8> = Vec::new();
    push_str(&mut note, " // size 0x");
    push_hex(&mut note, class.size);
    match &class.parent {
        Some(p) => {
            let mut piece: Vec<u8> = Vec::new();
            push_str(&mut piece, ", parent ");
            push_plain(&mut piece, p.as_slice());
            assert(piece@ =~= lit(", parent ") + plain(p@));
            push_bytes(&mut note, piece.as_slice());
        },
        None => {},
    }
    assert(note@ =~= class_note(class@));
    let mut text: Vec<u8> = Vec::new();
    push_indent(&mut text, width, 1);
    push_str(&mut text, syn.scope_open);
    push_bytes(&mut text, ident);
    push_str(&mut text, " {");
    push_bytes(&mut text, note.as_slice());
    push_str(&mut text, "\n");
    push_fields(&mut text, syn, width, &class.fields);
    push_indent(&mut text, width, 1);
    push_str(&mut text, "}\n");
    assert(text@ =~= class_text(*syn, width as nat, class@, ident@));
    text
}

/// The line that declares a member, inside its enum.
pub open spec fn member_line(syn: Syntax, width: nat, member: MemberView, ident: Seq<u8>) -> Seq<
    u8,
> {
    indent(width, 2) + ident + lit(" = ") + signed_decimal(
        member.value as int,
    ) + lit(",\n")
}

pub open spec fn member_part(
    syn: Syntax,
    width: nat,
    members: Seq<MemberView>,
    idents: Seq<Seq<u8>>,
) -> spec_fn(int) -> Seq<u8> {
    |k: int| member_line(syn, width, members[k], idents[k])
}

/// The lines of an enum's members, in their order, each under its identifier.
pub open spec fn members_text(syn: Syntax, width: nat, members: Seq<MemberView>) -> Seq<u8> {
    join(members.len(), member_part(syn, width, members, unique_idents(member_names(members))))
}

fn member_line_of(syn: &Syntax, width: usize, member: &EnumMember, ident: &[u8]) -> (line: Vec<
    u8,
>)
    ensures
        line@ == member_line(*syn, width as nat, member@, ident@),
{
    let mut line: Vec<u8> = Vec::new();
    push_indent(&mut line, width, 2);
    push_bytes(&mut line, ident);
    push_str(&mut line, " = ");
    push_signed_decimal(&mut line, member.value);
    push_str(&mut line, ",\n");
    assert(line@ =~= member_line(*syn, width as nat, member@, ident@));
    line
}

fn push_members(out: &mut Vec<u8>, syn: &Syntax, width: usize, members: &Vec<EnumMember>)
    ensures
        final(out)@ == old(out)@ + members_text(*syn, width as nat, member_views(members@)),
{
    let names = collect_names(members);
    let idents = assign_idents(&names);
    let ghost views = member_views(members@);
    let ghost part = member_part(*syn, width as nat, views, byte_rows(idents@));
    proof {
        assert(names_of(members@) =~= member_names(views));
        lemma_unique_idents_len(member_names(views));
        assert(out@ =~= old(out)@ + join(0, part));
    }
    let mut i: usize = 0;
    while i < members.len()
        invariant
            i <= members@.len(),
            views == member_views(members@),
            idents@.len() == members@.len(),
            part == member_part(*syn, width as nat, views, byte_rows(idents@)),
            out@ == old(out)@ + join(i as nat, part),
        decreases members@.len() - i,
    {
        let line = member_line_of(syn, width, &members[i], idents[i].as_slice());
        push_bytes(out, line.as_slice());
        proof {
            assert(line@ == part(i as int));
            assert(join((i + 1) as nat, part) == join(i as nat, part) + part(i as int));
            assert(out@ =~= old(out)@ + join((i + 1) as nat, part));
        }
        i += 1;
    }
}

/// An enum: its opening line, its members, its closing line.
pub open spec fn enum_text(syn: Syntax, width: nat, e: EnumView, ident: Seq<u8>) -> Seq<u8> {
    indent(width, 1) + lit(syn.enum_open) + ident + lit(syn.enum_head(e.width)) + lit("\n")
        + members_text(syn, width, e.members) + indent(width, 1) + lit(syn.enum_close) + lit("\n")
}

fn enum_text_of(syn: &Syntax, width: usize, e: &Enum, ident: &[u8]) -> (text: Vec<u8>)
    ensures
        text@ == enum_text(*syn, width as nat, e@, ident@),
{
    let mut text: Vec<u8> = Vec::new();
    push_indent(&mut text, width, 1);
    push_str(&mut text, syn.enum_open);
    push_bytes(&mut text, ident);
    push_str(&mut text, syn.head_for(e.width()));
    push_str(&mut text, "\n");
    push_members(&mut text, syn, width, e.members());
    push_indent(&mut text, width, 1);
    push_str(&mut text, syn.enum_close);
    push_str(&mut text, "\n");
    assert(text@ =~= enum_text(*syn, width as nat, e@, ident@));
    text
}

/// The line that declares a named offset, inside its module.
pub open spec fn offset_line(syn: Syntax, width: nat, offset: OffsetView, ident: Seq<u8>) -> Seq<
    u8,
> {
    indent(width, 1) + lit(syn.constant_open) + ident + lit(" = ") + lit("0x")
        + hex_padded(offset.value as nat, 16) + lit(";") + note(offset.comment) + lit("\n")
}

fn offset_line_of(syn: &Syntax, width: usize, offset: &Offset, ident: &[u8]) -> (line: Vec<u8>)
    ensures
        line@ == offset_line(*syn, width as nat, offset@, ident@),
{
    let mut line: Vec<u8> = Vec::new();
    push_indent(&mut line, width, 1);
    push_str(&mut line, syn.constant_open);
    push_bytes(&mut line, ident);
    push_str(&mut line, " = ");
    push_str(&mut line, "0x");
    push_hex_padded(&mut line, offset.value, 16);
    push_str(&mut line, ";");
    push_note(&mut line, &offset.comment);
    push_str(&mut line, "\n");
    assert(line@ =~= offset_line(*syn, width as nat, offset@, ident@));
    line
}

/// The names that share a module's scope: its classes, then its enums, then its offsets.
pub open spec fn scope_names(module: ModuleView) -> Seq<Seq<u8>> {
    class_names(module.classes) + enum_names(module.enums) + offset_names(module.offsets)
}

/// The identifiers of a module's entries, in the order of `scope_names`.
pub open spec fn scope_idents(module: ModuleView) -> Seq<Seq<u8>> {
    unique_idents(scope_names(module))
}

pub open spec fn class_part(syn: Syntax, width: nat, module: ModuleView, idents: Seq<Seq<u8>>)
    -> spec_fn(int) -> Seq<u8> {
    |k: int| class_text(syn, width, module.classes[k], idents[k])
}

pub open spec fn enum_part(syn: Syntax, width: nat, module: ModuleView, idents: Seq<Seq<u8>>)
    -> spec_fn(int) -> Seq<u8> {
    |k: int| enum_text(syn, width, module.enums[k], idents[module.classes.len() + k])
}

pub open spec fn offset_part(syn: Syntax, width: nat, module: ModuleView, idents: Seq<Seq<u8>>)
    -> spec_fn(int) -> Seq<u8> {
    |k: int|
        offset_line(
            syn,
            width,
            module.offsets[k],
            idents[module.classes.len() + module.enums.len() + k],
        )
}

/// What stands between a module's braces: its classes, then its enums, then its offsets.
pub open spec fn module_body(syn: Syntax, width: nat, module: ModuleView) -> Seq<u8> {
    let idents = scope_idents(module);
    join(module.classes.len(), class_part(syn, width, module, idents)) + join(
        module.enums.len(),
        enum_part(syn, width, module, idents),
    ) + join(module.offsets.len(), offset_part(syn, width, module, idents))
}

/// The file of a module: the preamble, and the module's scope around its body.
#[verifier::opaque]
pub open spec fn module_text(syn: Syntax, width: nat, module: ModuleView, ident: Seq<u8>) -> Seq<
    u8,
> {
    lit(syn.preamble) + lit(syn.scope_open) + ident + lit(" {") + note(Some(module.name)) + lit(
        "\n",
    ) + module_body(syn, width, module) + lit("}\n")
}

fn push_module_body(out: &mut Vec<u8>, syn: &Syntax, width: usize, module: &Module)
    ensures
        final(out)@ == old(out)@ + module_body(*syn, width as nat, module@),
{
    let classes = module.classes();
    let enums = module.enums();
    let offsets = module.offsets();
    let mut names = collect_names(classes);
    let mut more = collect_names(enums);
    let mut rest = collect_names(offsets);
    names.append(&mut more);
    names.append(&mut rest);
    let ghost view = module@;
    proof {
        assert(names_of(classes@) =~= class_names(view.classes));
        assert(names_of(enums@) =~= enum_names(view.enums));
        assert(names_of(offsets@) =~= offset_names(view.offsets));
        assert(byte_rows(names@) =~= scope_names(view));
        lemma_unique_idents_len(scope_names(view));
    }
    let idents = assign_idents(&names);
    let total = idents.len();
    let ghost rows = byte_rows(idents@);
    let ghost class_p = class_part(*syn, width as nat, view, rows);
    let ghost enum_p = enum_part(*syn, width as nat, view, rows);
    let ghost offset_p = offset_part(*syn, width as nat, view, rows);
    let mut body: Vec<u8> = Vec::new();
    assert(body@ =~= join(0, class_p));
    let mut i: usize = 0;
    while i < classes.len()
        invariant
            i <= classes@.len(),
            class_views(classes@) == view.classes,
            rows == byte_rows(idents@),
            total == idents@.len(),
            total == view.classes.len() + view.enums.len() + view.offsets.len(),
            class_p == class_part(*syn, width as nat, view, rows),
            body@ == join(i as nat, class_p),
        decreases classes@.len() - i,
    {
        let text = class_text_of(syn, width, &classes[i], idents[i].as_slice());
        push_bytes(&mut body, text.as_slice());
        proof {
            assert(view.classes[i as int] == classes@[i as int]@);
            assert(text@ == class_p(i as int));
            assert(join((i + 1) as nat, class_p) == join(i as nat, class_p) + class_p(i as int));
        }
        i += 1;
    }
    let ghost classes_done = body@;
    assert(body@ =~= classes_done + join(0, enum_p));
    let mut j: usize = 0;
    while j < enums.len()
        invariant
            j <= enums@.len(),
            classes@.len() == view.classes.len(),
            enums@.len() == view.enums.len(),
            enum_views(enums@) == view.enums,
            rows == byte_rows(idents@),
            total == idents@.len(),
            total == view.classes.len() + view.enums.len() + view.offsets.len(),
            enum_p == enum_part(*syn, width as nat, view, rows),
            body@ == classes_done + join(j as nat, enum_p),
        decreases enums@.len() - j,
    {
        let text = enum_text_of(syn, width, &enums[j], idents[classes.len() + j].as_slice());
        push_bytes(&mut body, text.as_slice());
        proof {
            assert(view.enums[j as int] == enums@[j as int]@);
            assert(text@ == enum_p(j as int));
            assert(join((j + 1) as nat, enum_p) == join(j as nat, enum_p) + enum_p(j as int));
            assert(body@ =~= classes_done + join((j + 1) as nat, enum_p));
        }
        j += 1;
    }
    let ghost enums_done = body@;
    assert(body@ =~= enums_done + join(0, offset_p));
    let mut k: usize = 0;
    while k < offsets.len()
        invariant
            k <= offsets@.len(),
            classes@.len() == view.classes.len(),
            enums@.len() == view.enums.len(),
            offsets@.len() == view.offsets.len(),
            offset_views(offsets@) == view.offsets,
            rows == byte_rows(idents@),
            total == idents@.len(),
            total == view.classes.len() + view.enums.len() + view.offsets.len(),
            offset_p == offset_part(*syn, width as nat, view, rows),
            body@ == enums_done + join(k as nat, offset_p),
        decreases offsets@.len() - k,
    {
        let line = offset_line_of(
            syn,
            width,
            &offsets[k],
            idents[classes.len() + enums.len() + k].as_slice(),
        );
        push_bytes(&mut body, line.as_slice());
        proof {
            assert(view.offsets[k as int] == offsets@[k as int]@);
            assert(line@ == offset_p(k as int));
            assert(join((k + 1) as nat, offset_p) == join(k as nat, offset_p) + offset_p(
                k as int,
            ));
            assert(body@ =~= enums_done + join((k + 1) as nat, offset_p));
        }
        k += 1;
    }
    assert(body@ == module_body(*syn, width as nat, view));
    push_bytes(out, body.as_slice());
}

/// Renders the file of one module under the identifier `ident`.
pub fn module_file(syn: &Syntax, width: usize, module: &Module, ident: &[u8]) -> (text: Vec<u8>)
    ensures
        text@ == module_text(*syn, width as nat, module@, ident@),
{
    let mut text: Vec<u8> = Vec::new();
    push_str(&mut text, syn.preamble);
    push_str(&mut text, syn.scope_open);
    push_bytes(&mut text, ident);
    push_str(&mut text, " {");
    let name = Some(copy_bytes(module.name().as_slice()));
    push_note(&mut text, &name);
    push_str(&mut text, "\n");
    push_module_body(&mut text, syn, width, module);
    push_str(&mut text, "}\n");
    assert(text@ =~= module_text(*syn, width as nat, module@, ident@)) by {
        reveal(module_text);
    }
    text
}

/// The file of the `k`-th module of a model.
pub open spec fn nested_file(syn: Syntax, width: nat, model: ModelView, k: int) -> FileView {
    let ident = unique_idents(module_names(model.modules))[k];
    FileView {
        path: ident + lit(syn.extension),
        content: module_text(syn, width, model.modules[k], ident),
    }
}

/// The files of a model in a code format: one per module, in the model's order.
pub open spec fn nested_files(syn: Syntax, width: nat, model: ModelView) -> Seq<FileView> {
    Seq::new(model.modules.len(), |k: int| nested_file(syn, width, model, k))
}

/// Renders a model in a code format.
pub fn render_nested(syn: &Syntax, width: usize, model: &SchemaModel) -> (files: Vec<OutputFile>)
    ensures
        file_views(files@) == nested_files(*syn, width as nat, model@),
{
    let modules = model.modules();
    let names = collect_names(modules);
    let idents = assign_idents(&names);
    proof {
        assert(names_of(modules@) =~= module_names(model@.modules));
        lemma_unique_idents_len(module_names(model@.modules));
    }
    let mut files: Vec<OutputFile> = Vec::new();
    let mut i: usize = 0;
    while i < modules.len()
        invariant
            i <= modules@.len(),
            module_views(modules@) == model@.modules,
            byte_rows(idents@) == unique_idents(module_names(model@.modules)),
            idents@.len() == modules@.len(),
            files@.len() == i,
            forall|k: int| 0 <= k < i ==> files@[k]@ == nested_file(*syn, width as nat, model@, k),
        decreases modules@.len() - i,
    {
        let ident = idents[i].as_slice();
        let mut path = copy_bytes(ident);
        push_str(&mut path, syn.extension);
        let content = module_file(syn, width, &modules[i], ident);
        proof {
            assert(model@.modules[i as int] == modules@[i as int]@);
            assert(byte_rows(idents@)[i as int] == ident@);
        }
        files.push(OutputFile { path, content });
        i += 1;
    }
    assert(file_views(files@) =~= nested_files(*syn, width as nat, model@));
    files
}

/// The line of a field holds the field's identifier.
pub proof fn lemma_field_line_names(syn: Syntax, width: nat, field: FieldView, ident: Seq<u8>)
    ensures
        occurs_in(ident, field_line(syn, width, field, ident)),
{
    broadcast use lemma_occurs_head, lemma_occurs_tail;

    lemma_occurs_self(ident);
}

/// The line of a member holds the member's identifier.
pub proof fn lemma_member_line_names(syn: Syntax, width: nat, member: MemberView, ident: Seq<u8>)
    ensures
        occurs_in(ident, member_line(syn, width, member, ident)),
{
    broadcast use lemma_occurs_head, lemma_occurs_tail;

    lemma_occurs_self(ident);
}

/// The line of an offset holds the offset's identifier.
pub proof fn lemma_offset_line_names(syn: Syntax, width: nat, offset: OffsetView, ident: Seq<u8>)
    ensures
        occurs_in(ident, offset_line(syn, width, offset, ident)),
{
    broadcast use lemma_occurs_head, lemma_occurs_tail;

    lemma_occurs_self(ident);
}

/// The scope of a class holds the line of each of its fields.
pub proof fn lemma_class_text_holds(
    syn: Syntax,
    width: nat,
    class: ClassView,
    ident: Seq<u8>,
    f: int,
)
    requires
        0 <= f < class.fields.len(),
    ensures
        occurs_in(
            field_line(syn, width, class.fields[f], unique_idents(field_names(class.fields))[f]),
            class_text(syn, width, class, ident),
        ),
{
    broadcast use lemma_occurs_head, lemma_occurs_tail;

    let part = field_part(syn, width, class.fields, unique_idents(field_names(class.fields)));
    lemma_occurs_self(part(f));
    lemma_join_occurs(class.fields.len(), part, f, part(f));
}

/// The scope of a class holds the class's identifier.
pub proof fn lemma_class_text_names(syn: Syntax, width: nat, class: ClassView, ident: Seq<u8>)
    ensures
        occurs_in(ident, class_text(syn, width, class, ident)),
{
    broadcast use lemma_occurs_head, lemma_occurs_tail;

    lemma_occurs_self(ident);
}

/// The text of an enum holds the enum's identifier.
pub proof fn lemma_enum_text_names(syn: Syntax, width: nat, e: EnumView, ident: Seq<u8>)
    ensures
        occurs_in(ident, enum_text(syn, width, e, ident)),
{
    broadcast use lemma_occurs_head, lemma_occurs_tail;

    lemma_occurs_self(ident);
}

/// The text of an enum holds the line of each of its members.
pub proof fn lemma_enum_text_holds(syn: Syntax, width: nat, e: EnumView, ident: Seq<u8>, k: int)
    requires
        0 <= k < e.members.len(),
    ensures
        occurs_in(
            member_line(syn, width, e.members[k], unique_idents(member_names(e.members))[k]),
            enum_text(syn, width, e, ident),
        ),
{
    broadcast use lemma_occurs_head, lemma_occurs_tail;

    let part = member_part(syn, width, e.members, unique_idents(member_names(e.members)));
    lemma_occurs_self(part(k));
    lemma_join_occurs(e.members.len(), part, k, part(k));
}

/// The body of a module holds the scope of each of its classes.
pub proof fn lemma_body_holds_class(syn: Syntax, width: nat, module: ModuleView, c: int)
    requires
        0 <= c < module.classes.len(),
    ensures
        occurs_in(
            class_text(syn, width, module.classes[c], scope_idents(module)[c]),
            module_body(syn, width, module),
        ),
{
    broadcast use lemma_occurs_head, lemma_occurs_tail;

    let part = class_part(syn, width, module, scope_idents(module));
    lemma_occurs_self(part(c));
    lemma_join_occurs(module.classes.len(), part, c, part(c));
}

/// The body of a module holds the text of each of its enums.
pub proof fn lemma_body_holds_enum(syn: Syntax, width: nat, module: ModuleView, e: int)
    requires
        0 <= e < module.enums.len(),
    ensures
        occurs_in(
            enum_text(
                syn,
                width,
                module.enums[e],
                scope_idents(module)[module.classes.len() + e],
            ),
            module_body(syn, width, module),
        ),
{
    broadcast use lemma_occurs_head, lemma_occurs_tail;

    let part = enum_part(syn, width, module, scope_idents(module));
    lemma_occurs_self(part(e));
    lemma_join_occurs(module.enums.len(), part, e, part(e));
}

/// The body of a module holds the line of each of its offsets.
pub proof fn lemma_body_holds_offset(syn: Syntax, width: nat, module: ModuleView, o: int)
    requires
        0 <= o < module.offsets.len(),
    ensures
        occurs_in(
            offset_line(
                syn,
                width,
                module.offsets[o],
                scope_idents(module)[module.classes.len() + module.enums.len() + o],
            ),
            module_body(syn, width, module),
        ),
{
    broadcast use lemma_occurs_head, lemma_occurs_tail;

    let part = offset_part(syn, width, module, scope_idents(module));
    lemma_occurs_self(part(o));
    lemma_join_occurs(module.offsets.len(), part, o, part(o));
}

/// The file of a module holds the module's identifier and the module's body.
pub proof fn lemma_module_text_holds(syn: Syntax, width: nat, module: ModuleView, ident: Seq<u8>)
    ensures
        occurs_in(ident, module_text(syn, width, module, ident)),
        occurs_in(module_body(syn, width, module), module_text(syn, width, module, ident)),
{
    broadcast use lemma_occurs_head, lemma_occurs_tail;

    reveal(module_text);
    lemma_occurs_self(ident);
    lemma_occurs_self(module_body(syn, width, module));
}

} // verus!
