//! One JSON document that mirrors the model's tree: modules hold classes, enums and offsets,
//! classes hold fields, enums hold members. Names stand as they were found, escaped; numbers
//! stand in decimal.

use vstd::prelude::*;
use crate::model::{
    Class, class_views, ClassView, Enum, enum_views, EnumMember, EnumView, Field, field_views,
    FieldView, member_views, MemberView, ModelView, Module, module_views, ModuleView, Offset,
    offset_views, OffsetView, opt_bytes, SchemaModel
};
use crate::named::Named;
use crate::render::{file_views, FileView, OutputFile};
use crate::text::{
    decimal, hex_padded, indent, join, lemma_join_occurs, lemma_occurs_head, lemma_occurs_self,
    lemma_occurs_tail, lit, occurs_in, push_bytes, push_decimal, push_hex_padded, push_indent,
    push_signed_decimal, push_str, signed_decimal
};

verus! {

/// How one byte of a name stands inside a JSON string: quotes and backslashes behind a
/// backslash, bytes outside printable ASCII as `\u00` and two hexadecimal digits.
pub open spec fn escape_byte(b: u8) -> Seq<u8> {
    if b == 0x22 {
        lit("\\\"")
    } else if b == 0x5c {
        lit("\\\\")
    } else if b < 0x20 || b >= 0x7f {
        lit("\\u00") + hex_padded(b as nat, 2)
    } else {
        seq![b]
    }
}

pub open spec fn escape_part(text: Seq<u8>) -> spec_fn(int) -> Seq<u8> {
    |k: int| escape_byte(text[k])
}

/// `text` with every byte escaped.
pub open spec fn escaped(text: Seq<u8>) -> Seq<u8> {
    join(text.len(), escape_part(text))
}

/// `text` as a JSON string.
pub open spec fn json_string(text: Seq<u8>) -> Seq<u8> {
    lit("\"") + escaped(text) + lit("\"")
}

/// `text` as a JSON string, or `null`.
pub open spec fn json_optional(text: Option<Seq<u8>>) -> Seq<u8> {
    match text {
        Some(t) => json_string(t),
        None => lit("null"),
    }
}

/// The start of an object's entry: the indentation, the key in quotes, a colon.
pub open spec fn key(width: nat, depth: nat, name: &str) -> Seq<u8> {
    indent(width, depth) + lit("\"") + lit(name) + lit("\": ")
}

/// What stands before the `k`-th element of a list.
pub open spec fn separator(k: int) -> Seq<u8> {
    if k > 0 {
        lit(",\n")
    } else {
        lit("\n")
    }
}

pub open spec fn listed(part: spec_fn(int) -> Seq<u8>) -> spec_fn(int) -> Seq<u8> {
    |k: int| separator(k) + part(k)
}

/// A JSON list of `n` elements, one per line, closed at `depth`.
pub open spec fn json_list(n: nat, part: spec_fn(int) -> Seq<u8>, width: nat, depth: nat) -> Seq<
    u8,
> {
    lit("[") + join(n, listed(part)) + lit("\n") + indent(width, depth) + lit("]")
}

/// Appending the separator and the next element to a list under construction gives the list
/// with one element more.
proof fn lemma_list_step(head: Seq<u8>, n: nat, part: spec_fn(int) -> Seq<u8>, text: Seq<u8>)
    requires
        text == part(n as int),
    ensures
        ((head + join(n, listed(part))) + separator(n as int)) + text == head + join(
            n + 1,
            listed(part),
        ),
{
    let item = listed(part);
    let sep = separator(n as int);
    let done = join(n, item);
    assert(join(n + 1, item) == done + item(n as int));
    assert(item(n as int) == sep + text);
    assert(((head + done) + sep) + text =~= head + (done + (sep + text)));
}

/// A list under construction with no element yet is its opening bracket.
proof fn lemma_list_open(list: Seq<u8>, part: spec_fn(int) -> Seq<u8>)
    requires
        list == Seq::<u8>::empty() + lit("["),
    ensures
        list == lit("[") + join(0, listed(part)),
{
    assert(list =~= lit("[") + join(0, listed(part)));
}

/// A list under construction, closed, is the list.
proof fn lemma_list_closed(list: Seq<u8>, n: nat, part: spec_fn(int) -> Seq<u8>, width: nat, depth: nat)
    requires
        list == lit("[") + join(n, listed(part)) + lit("\n") + indent(width, depth) + lit("]"),
    ensures
        list == json_list(n, part, width, depth),
{
}

fn push_escaped(out: &mut Vec<u8>, text: &[u8])
    ensures
        final(out)@ == old(out)@ + escaped(text@),
{
    let ghost part = escape_part(text@);
    assert(out@ =~= old(out)@ + join(0, part));
    let mut i: usize = 0;
    while i < text.len()
        invariant
            i <= text@.len(),
            part == escape_part(text@),
            out@ == old(out)@ + join(i as nat, part),
        decreases text@.len() - i,
    {
        let b = text[i];
        let mut piece: Vec<u8> = Vec::new();
        if b == 0x22 {
            push_str(&mut piece, "\\\"");
        } else if b == 0x5c {
            push_str(&mut piece, "\\\\");
        } else if b < 0x20 || b >= 0x7f {
            push_str(&mut piece, "\\u00");
            push_hex_padded(&mut piece, b as u64, 2);
        } else {
            piece.push(b);
        }
        assert(piece@ =~= escape_byte(b));
        push_bytes(out, piece.as_slice());
        proof {
            assert(join((i + 1) as nat, part) == join(i as nat, part) + part(i as int));
            assert(out@ =~= old(out)@ + join((i + 1) as nat, part));
        }
        i += 1;
    }
}

fn push_json_string(out: &mut Vec<u8>, text: &[u8])
    ensures
        final(out)@ == old(out)@ + json_string(text@),
{
    let mut piece: Vec<u8> = Vec::new();
    push_str(&mut piece, "\"");
    push_escaped(&mut piece, text);
    push_str(&mut piece, "\"");
    assert(piece@ =~= json_string(text@));
    push_bytes(out, piece.as_slice());
}

fn push_json_optional(out: &mut Vec<u8>, text: &Option<Vec<u8>>)
    ensures
        final(out)@ == old(out)@ + json_optional(opt_bytes(*text)),
{
    match text {
        Some(t) => push_json_string(out, t.as_slice()),
        None => push_str(out, "null"),
    }
}

fn push_key(out: &mut Vec<u8>, width: usize, depth: usize, name: &str)
    ensures
        final(out)@ == old(out)@ + key(width as nat, depth as nat, name),
{
    let mut piece: Vec<u8> = Vec::new();
    push_indent(&mut piece, width, depth);
    push_str(&mut piece, "\"");
    push_str(&mut piece, name);
    push_str(&mut piece, "\": ");
    assert(piece@ =~= key(width as nat, depth as nat, name));
    push_bytes(out, piece.as_slice());
}

fn push_separator(out: &mut Vec<u8>, k: usize)
    ensures
        final(out)@ == old(out)@ + separator(k as int),
{
    if k > 0 {
        push_str(out, ",\n");
    } else {
        push_str(out, "\n");
    }
}

/// Closes a list whose elements stand in `list` behind the opening bracket.
fn close_list(list: &mut Vec<u8>, width: usize, depth: usize)
    ensures
        final(list)@ == old(list)@ + lit("\n") + indent(width as nat, depth as nat) + lit("]"),
{
    push_str(list, "\n");
    push_indent(list, width, depth);
    push_str(list, "]");
}

/// A field as a JSON object on one line.
pub open spec fn field_json(width: nat, field: FieldView) -> Seq<u8> {
    indent(width, 6) + lit("{ \"name\": ") + json_string(field.name) + lit(", \"offset\": ")
        + decimal(field.offset as nat) + lit(", \"type\": ") + json_optional(field.declared_type)
        + lit(" }")
}

pub open spec fn field_json_part(width: nat, fields: Seq<FieldView>) -> spec_fn(int) -> Seq<u8> {
    |k: int| field_json(width, fields[k])
}

fn field_json_of(width: usize, field: &Field) -> (text: Vec<u8>)
    ensures
        text@ == field_json(width as nat, field@),
{
    let mut text: Vec<u8> = Vec::new();
    push_indent(&mut text, width, 6);
    push_str(&mut text, "{ \"name\": ");
    push_json_string(&mut text, field.name.as_slice());
    push_str(&mut text, ", \"offset\": ");
    push_decimal(&mut text, field.offset);
    push_str(&mut text, ", \"type\": ");
    push_json_optional(&mut text, &field.declared_type);
    push_str(&mut text, " }");
    assert(text@ =~= field_json(width as nat, field@));
    text
}

fn field_list_of(width: usize, fields: &Vec<Field>) -> (list: Vec<u8>)
    ensures
        list@ == json_list(
            fields@.len(),
            field_json_part(width as nat, field_views(fields@)),
            width as nat,
            5,
        ),
{
    let ghost part = field_json_part(width as nat, field_views(fields@));
    let ghost item = listed(part);
    let mut list: Vec<u8> = Vec::new();
    push_str(&mut list, "[");
    proof {
        lemma_list_open(list@, part);
    }
    let mut i: usize = 0;
    while i < fields.len()
        invariant
            i <= fields@.len(),
            part == field_json_part(width as nat, field_views(fields@)),
            item == listed(part),
            list@ == lit("[") + join(i as nat, item),
        decreases fields@.len() - i,
    {
        let text = field_json_of(width, &fields[i]);
        push_separator(&mut list, i);
        push_bytes(&mut list, text.as_slice());
        proof {
            lemma_list_step(lit("["), i as nat, part, text@);
        }
        i += 1;
    }
    let ghost count = i as nat;
    close_list(&mut list, width, 5);
    proof {
        lemma_list_closed(list@, count, part, width as nat, 5);
    }
    list
}

/// A class as a JSON object.
pub open spec fn class_json(width: nat, class: ClassView) -> Seq<u8> {
    indent(width, 4) + lit("{\n") + key(width, 5, "name") + json_string(class.name) + lit(",\n")
        + key(width, 5, "size") + decimal(class.size as nat) + lit(",\n") + key(
        width,
        5,
        "parent",
    ) + json_optional(class.parent) + lit(",\n") + key(width, 5, "fields") + json_list(
        class.fields.len(),
        field_json_part(width, class.fields),
        width,
        5,
    ) + lit("\n") + indent(width, 4) + lit("}")
}

pub open spec fn class_json_part(width: nat, classes: Seq<ClassView>) -> spec_fn(int) -> Seq<u8> {
    |k: int| class_json(width, classes[k])
}

fn class_json_of(width: usize, class: &Class) -> (text: Vec<u8>)
    ensures
        text@ == class_json(width as nat, class@),
{
    let mut text: Vec<u8> = Vec::new();
    push_indent(&mut text, width, 4);
    push_str(&mut text, "{\n");
    push_key(&mut text, width, 5, "name");
    push_json_string(&mut text, class.name.as_slice());
    push_str(&mut text, ",\n");
    push_key(&mut text, width, 5, "size");
    push_decimal(&mut text, class.size);
    push_str(&mut text, ",\n");
    push_key(&mut text, width, 5, "parent");
    push_json_optional(&mut text, &class.parent);
    push_str(&mut text, ",\n");
    push_key(&mut text, width, 5, "fields");
    let list = field_list_of(width, &class.fields);
    push_bytes(&mut text, list.as_slice());
    push_str(&mut text, "\n");
    push_indent(&mut text, width, 4);
    push_str(&mut text, "}");
    assert(text@ =~= class_json(width as nat, class@));
    text
}

fn class_list_of(width: usize, classes: &Vec<Class>) -> (list: Vec<u8>)
    ensures
        list@ == json_list(
            classes@.len(),
            class_json_part(width as nat, class_views(classes@)),
            width as nat,
            3,
        ),
{
    let ghost part = class_json_part(width as nat, class_views(classes@));
    let ghost item = listed(part);
    let mut list: Vec<u8> = Vec::new();
    push_str(&mut list, "[");
    proof {
        lemma_list_open(list@, part);
    }
    let mut i: usize = 0;
    while i < classes.len()
        invariant
            i <= classes@.len(),
            part == class_json_part(width as nat, class_views(classes@)),
            item == listed(part),
            list@ == lit("[") + join(i as nat, item),
        decreases classes@.len() - i,
    {
        let text = class_json_of(width, &classes[i]);
        push_separator(&mut list, i);
        push_bytes(&mut list, text.as_slice());
        proof {
            lemma_list_step(lit("["), i as nat, part, text@);
        }
        i += 1;
    }
    let ghost count = i as nat;
    close_list(&mut list, width, 3);
    proof {
        lemma_list_closed(list@, count, part, width as nat, 3);
    }
    list
}

/// A member as a JSON object on one line.
pub open spec fn member_json(width: nat, member: MemberView) -> Seq<u8> {
    indent(width, 6) + lit("{ \"name\": ") + json_string(member.name) + lit(", \"value\": ")
        + signed_decimal(member.value as int) + lit(" }")
}

pub open spec fn member_json_part(width: nat, members: Seq<MemberView>) -> spec_fn(int) -> Seq<
    u8,
> {
    |k: int| member_json(width, members[k])
}

fn member_json_of(width: usize, member: &EnumMember) -> (text: Vec<u8>)
    ensures
        text@ == member_json(width as nat, member@),
{
    let mut text: Vec<u8> = Vec::new();
    push_indent(&mut text, width, 6);
    push_str(&mut text, "{ \"name\": ");
    push_json_string(&mut text, member.name.as_slice());
    push_str(&mut text, ", \"value\": ");
    push_signed_decimal(&mut text, member.value);
    push_str(&mut text, " }");
    assert(text@ =~= member_json(width as nat, member@));
    text
}

fn member_list_of(width: usize, members: &Vec<EnumMember>) -> (list: Vec<u8>)
    ensures
        list@ == json_list(
            members@.len(),
            member_json_part(width as nat, member_views(members@)),
            width as nat,
            5,
        ),
{
    let ghost part = member_json_part(width as nat, member_views(members@));
    let ghost item = listed(part);
    let mut list: Vec<u8> = Vec::new();
    push_str(&mut list, "[");
    proof {
        lemma_list_open(list@, part);
    }
    let mut i: usize = 0;
    while i < members.len()
        invariant
            i <= members@.len(),
            part == member_json_part(width as nat, member_views(members@)),
            item == listed(part),
            list@ == lit("[") + join(i as nat, item),
        decreases members@.len() - i,
    {
        let text = member_json_of(width, &members[i]);
        push_separator(&mut list, i);
        push_bytes(&mut list, text.as_slice());
        proof {
            lemma_list_step(lit("["), i as nat, part, text@);
        }
        i += 1;
    }
    let ghost count = i as nat;
    close_list(&mut list, width, 5);
    proof {
        lemma_list_closed(list@, count, part, width as nat, 5);
    }
    list
}

/// An enum as a JSON object.
pub open spec fn enum_json(width: nat, e: EnumView) -> Seq<u8> {
    indent(width, 4) + lit("{\n") + key(width, 5, "name") + json_string(e.name) + lit(",\n") + key(
        width,
        5,
        "width",
    ) + decimal(e.width.byte_len()) + lit(",\n") + key(width, 5, "members") + json_list(
        e.members.len(),
        member_json_part(width, e.members),
        width,
        5,
    ) + lit("\n") + indent(width, 4) + lit("}")
}

pub open spec fn enum_json_part(width: nat, enums: Seq<EnumView>) -> spec_fn(int) -> Seq<u8> {
    |k: int| enum_json(width, enums[k])
}

fn enum_json_of(width: usize, e: &Enum) -> (text: Vec<u8>)
    ensures
        text@ == enum_json(width as nat, e@),
{
    let mut text: Vec<u8> = Vec::new();
    push_indent(&mut text, width, 4);
    push_str(&mut text, "{\n");
    push_key(&mut text, width, 5, "name");
    push_json_string(&mut text, e.name().as_slice());
    push_str(&mut text, ",\n");
    push_key(&mut text, width, 5, "width");
    push_decimal(&mut text, e.width().len() as u64);
    push_str(&mut text, ",\n");
    push_key(&mut text, width, 5, "members");
    let members = e.members();
    let list = member_list_of(width, members);
    push_bytes(&mut text, list.as_slice());
    push_str(&mut text, "\n");
    push_indent(&mut text, width, 4);
    push_str(&mut text, "}");
    assert(text@ =~= enum_json(width as nat, e@));
    text
}

fn enum_list_of(width: usize, enums: &Vec<Enum>) -> (list: Vec<u8>)
    ensures
        list@ == json_list(
            enums@.len(),
            enum_json_part(width as nat, enum_views(enums@)),
            width as nat,
            3,
        ),
{
    let ghost part = enum_json_part(width as nat, enum_views(enums@));
    let ghost item = listed(part);
    let mut list: Vec<u8> = Vec::new();
    push_str(&mut list, "[");
    proof {
        lemma_list_open(list@, part);
    }
    let mut i: usize = 0;
    while i < enums.len()
        invariant
            i <= enums@.len(),
            part == enum_json_part(width as nat, enum_views(enums@)),
            item == listed(part),
            list@ == lit("[") + join(i as nat, item),
        decreases enums@.len() - i,
    {
        let text = enum_json_of(width, &enums[i]);
        push_separator(&mut list, i);
        push_bytes(&mut list, text.as_slice());
        proof {
            lemma_list_step(lit("["), i as nat, part, text@);
        }
        i += 1;
    }
    let ghost count = i as nat;
    close_list(&mut list, width, 3);
    proof {
        lemma_list_closed(list@, count, part, width as nat, 3);
    }
    list
}

/// A named offset as a JSON object on one line.
pub open spec fn offset_json(width: nat, offset: OffsetView) -> Seq<u8> {
    indent(width, 4) + lit("{ \"name\": ") + json_string(offset.name) + lit(", \"value\": ")
        + decimal(offset.value as nat) + lit(", \"comment\": ") + json_optional(offset.comment)
        + lit(" }")
}

pub open spec fn offset_json_part(width: nat, offsets: Seq<OffsetView>) -> spec_fn(int) -> Seq<
    u8,
> {
    |k: int| offset_json(width, offsets[k])
}

fn offset_json_of(width: usize, offset: &Offset) -> (text: Vec<u8>)
    ensures
        text@ == offset_json(width as nat, offset@),
{
    let mut text: Vec<u8> = Vec::new();
    push_indent(&mut text, width, 4);
    push_str(&mut text, "{ \"name\": ");
    push_json_string(&mut text, offset.name.as_slice());
    push_str(&mut text, ", \"value\": ");
    push_decimal(&mut text, offset.value);
    push_str(&mut text, ", \"comment\": ");
    push_json_optional(&mut text, &offset.comment);
    push_str(&mut text, " }");
    assert(text@ =~= offset_json(width as nat, offset@));
    text
}

fn offset_list_of(width: usize, offsets: &Vec<Offset>) -> (list: Vec<u8>)
    ensures
        list@ == json_list(
            offsets@.len(),
            offset_json_part(width as nat, offset_views(offsets@)),
            width as nat,
            3,
        ),
{
    let ghost part = offset_json_part(width as nat, offset_views(offsets@));
    let ghost item = listed(part);
    let mut list: Vec<u8> = Vec::new();
    push_str(&mut list, "[");
    proof {
        lemma_list_open(list@, part);
    }
    let mut i: usize = 0;
    while i < offsets.len()
        invariant
            i <= offsets@.len(),
            part == offset_json_part(width as nat, offset_views(offsets@)),
            item == listed(part),
            list@ == lit("[") + join(i as nat, item),
        decreases offsets@.len() - i,
    {
        let text = offset_json_of(width, &offsets[i]);
        push_separator(&mut list, i);
        push_bytes(&mut list, text.as_slice());
        proof {
            lemma_list_step(lit("["), i as nat, part, text@);
        }
        i += 1;
    }
    let ghost count = i as nat;
    close_list(&mut list, width, 3);
    proof {
        lemma_list_closed(list@, count, part, width as nat, 3);
    }
    list
}

/// A module as a JSON object.
#[verifier::opaque]
pub open spec fn module_json(width: nat, module: ModuleView) -> Seq<u8> {
    indent(width, 2) + lit("{\n") + key(width, 3, "name") + json_string(module.name) + lit(",\n")
        + key(width, 3, "classes") + json_list(
        module.classes.len(),
        class_json_part(width, module.classes),
        width,
        3,
    ) + lit(",\n") + key(width, 3, "enums") + json_list(
        module.enums.len(),
        enum_json_part(width, module.enums),
        width,
        3,
    ) + lit(",\n") + key(width, 3, "offsets") + json_list(
        module.offsets.len(),
        offset_json_part(width, module.offsets),
        width,
        3,
    ) + lit("\n") + indent(width, 2) + lit("}")
}

pub open spec fn module_json_part(width: nat, modules: Seq<ModuleView>) -> spec_fn(int) -> Seq<
    u8,
> {
    |k: int| module_json(width, modules[k])
}

fn module_json_of(width: usize, module: &Module) -> (text: Vec<u8>)
    ensures
        text@ == module_json(width as nat, module@),
{
    let mut text: Vec<u8> = Vec::new();
    push_indent(&mut text, width, 2);
    push_str(&mut text, "{\n");
    push_key(&mut text, width, 3, "name");
    push_json_string(&mut text, module.name().as_slice());
    push_str(&mut text, ",\n");
    push_key(&mut text, width, 3, "classes");
    let classes = class_list_of(width, module.classes());
    push_bytes(&mut text, classes.as_slice());
    push_str(&mut text, ",\n");
    push_key(&mut text, width, 3, "enums");
    let enums = enum_list_of(width, module.enums());
    push_bytes(&mut text, enums.as_slice());
    push_str(&mut text, ",\n");
    push_key(&mut text, width, 3, "offsets");
    let offsets = offset_list_of(width, module.offsets());
    push_bytes(&mut text, offsets.as_slice());
    push_str(&mut text, "\n");
    push_indent(&mut text, width, 2);
    push_str(&mut text, "}");
    assert(text@ =~= module_json(width as nat, module@)) by {
        reveal(module_json);
    }
    text
}

/// The whole model as a JSON document.
#[verifier::opaque]
pub open spec fn document(width: nat, model: ModelView) -> Seq<u8> {
    lit("{\n") + key(width, 1, "modules") + json_list(
        model.modules.len(),
        module_json_part(width, model.modules),
        width,
        1,
    ) + lit("\n}\n")
}

fn module_list_of(width: usize, modules: &Vec<Module>) -> (list: Vec<u8>)
    ensures
        list@ == json_list(
            modules@.len(),
            module_json_part(width as nat, module_views(modules@)),
            width as nat,
            1,
        ),
{
    let ghost part = module_json_part(width as nat, module_views(modules@));
    let ghost item = listed(part);
    let mut list: Vec<u8> = Vec::new();
    push_str(&mut list, "[");
    proof {
        lemma_list_open(list@, part);
    }
    let mut i: usize = 0;
    while i < modules.len()
        invariant
            i <= modules@.len(),
            part == module_json_part(width as nat, module_views(modules@)),
            item == listed(part),
            list@ == lit("[") + join(i as nat, item),
        decreases modules@.len() - i,
    {
        let text = module_json_of(width, &modules[i]);
        push_separator(&mut list, i);
        push_bytes(&mut list, text.as_slice());
        proof {
            lemma_list_step(lit("["), i as nat, part, text@);
        }
        i += 1;
    }
    let ghost count = i as nat;
    close_list(&mut list, width, 1);
    proof {
        lemma_list_closed(list@, count, part, width as nat, 1);
    }
    list
}

/// Renders the model as a JSON document.
pub fn document_of(width: usize, model: &SchemaModel) -> (text: Vec<u8>)
    ensures
        text@ == document(width as nat, model@),
{
    let list = module_list_of(width, model.modules());
    let mut text: Vec<u8> = Vec::new();
    push_str(&mut text, "{\n");
    push_key(&mut text, width, 1, "modules");
    push_bytes(&mut text, list.as_slice());
    push_str(&mut text, "\n}\n");
    assert(text@ =~= document(width as nat, model@)) by {
        reveal(document);
    }
    text
}

/// The files of a model in JSON: the one document.
pub open spec fn json_files(width: nat, model: ModelView) -> Seq<FileView> {
    seq![FileView { path: lit("schema.json"), content: document(width, model) }]
}

/// Renders a model in JSON.
pub fn render_json(width: usize, model: &SchemaModel) -> (files: Vec<OutputFile>)
    ensures
        file_views(files@) == json_files(width as nat, model@),
{
    let mut path: Vec<u8> = Vec::new();
    push_str(&mut path, "schema.json");
    assert(path@ =~= lit("schema.json"));
    let content = document_of(width, model);
    let mut files: Vec<OutputFile> = Vec::new();
    files.push(OutputFile { path, content });
    assert(file_views(files@) =~= json_files(width as nat, model@));
    files
}

/// A list holds each of its elements.
pub proof fn lemma_list_holds(
    n: nat,
    part: spec_fn(int) -> Seq<u8>,
    width: nat,
    depth: nat,
    k: int,
)
    requires
        0 <= k < n,
    ensures
        occurs_in(part(k), json_list(n, part, width, depth)),
{
    broadcast use lemma_occurs_head, lemma_occurs_tail;

    let item = listed(part);
    lemma_occurs_self(part(k));
    assert(occurs_in(part(k), item(k)));
    lemma_join_occurs(n, item, k, part(k));
}

/// The object of a field holds the field's name.
pub proof fn lemma_field_json_names(width: nat, field: FieldView)
    ensures
        occurs_in(json_string(field.name), field_json(width, field)),
{
    broadcast use lemma_occurs_head, lemma_occurs_tail;

    lemma_occurs_self(json_string(field.name));
}

/// The object of a member holds the member's name.
pub proof fn lemma_member_json_names(width: nat, member: MemberView)
    ensures
        occurs_in(json_string(member.name), member_json(width, member)),
{
    broadcast use lemma_occurs_head, lemma_occurs_tail;

    lemma_occurs_self(json_string(member.name));
}

/// The object of an offset holds the offset's name.
pub proof fn lemma_offset_json_names(width: nat, offset: OffsetView)
    ensures
        occurs_in(json_string(offset.name), offset_json(width, offset)),
{
    broadcast use lemma_occurs_head, lemma_occurs_tail;

    lemma_occurs_self(json_string(offset.name));
}

/// The object of a class holds the class's name.
pub proof fn lemma_class_json_names(width: nat, class: ClassView)
    ensures
        occurs_in(json_string(class.name), class_json(width, class)),
{
    broadcast use lemma_occurs_head, lemma_occurs_tail;

    lemma_occurs_self(json_string(class.name));
}

/// The object of a class holds the object of each of its fields.
pub proof fn lemma_class_json_holds(width: nat, class: ClassView, f: int)
    requires
        0 <= f < class.fields.len(),
    ensures
        occurs_in(field_json(width, class.fields[f]), class_json(width, class)),
{
    broadcast use lemma_occurs_head, lemma_occurs_tail;

    lemma_list_holds(class.fields.len(), field_json_part(width, class.fields), width, 5, f);
}

/// The object of an enum holds the enum's name.
pub proof fn lemma_enum_json_names(width: nat, e: EnumView)
    ensures
        occurs_in(json_string(e.name), enum_json(width, e)),
{
    broadcast use lemma_occurs_head, lemma_occurs_tail;

    lemma_occurs_self(json_string(e.name));
}

/// The object of an enum holds the object of each of its members.
pub proof fn lemma_enum_json_holds(width: nat, e: EnumView, k: int)
    requires
        0 <= k < e.members.len(),
    ensures
        occurs_in(member_json(width, e.members[k]), enum_json(width, e)),
{
    broadcast use lemma_occurs_head, lemma_occurs_tail;

    lemma_list_holds(e.members.len(), member_json_part(width, e.members), width, 5, k);
}

/// The object of a module holds the module's name.
pub proof fn lemma_module_json_names(width: nat, module: ModuleView)
    ensures
        occurs_in(json_string(module.name), module_json(width, module)),
{
    broadcast use lemma_occurs_head, lemma_occurs_tail;

    reveal(module_json);
    lemma_occurs_self(json_string(module.name));
}

/// The object of a module holds the object of each of its classes.
pub proof fn lemma_module_json_holds_class(width: nat, module: ModuleView, c: int)
    requires
        0 <= c < module.classes.len(),
    ensures
        occurs_in(class_json(width, module.classes[c]), module_json(width, module)),
{
    broadcast use lemma_occurs_head, lemma_occurs_tail;

    reveal(module_json);
    lemma_list_holds(module.classes.len(), class_json_part(width, module.classes), width, 3, c);
}

/// The object of a module holds the object of each of its enums.
pub proof fn lemma_module_json_holds_enum(width: nat, module: ModuleView, e: int)
    requires
        0 <= e < module.enums.len(),
    ensures
        occurs_in(enum_json(width, module.enums[e]), module_json(width, module)),
{
    broadcast use lemma_occurs_head, lemma_occurs_tail;

    reveal(module_json);
    lemma_list_holds(module.enums.len(), enum_json_part(width, module.enums), width, 3, e);
}

/// The object of a module holds the object of each of its offsets.
pub proof fn lemma_module_json_holds_offset(width: nat, module: ModuleView, o: int)
    requires
        0 <= o < module.offsets.len(),
    ensures
        occurs_in(offset_json(width, module.offsets[o]), module_json(width, module)),
{
    broadcast use lemma_occurs_head, lemma_occurs_tail;

    reveal(module_json);
    lemma_list_holds(module.offsets.len(), offset_json_part(width, module.offsets), width, 3, o);
}

/// The document holds the object of each module.
pub proof fn lemma_document_holds(width: nat, model: ModelView, m: int)
    requires
        0 <= m < model.modules.len(),
    ensures
        occurs_in(module_json(width, model.modules[m]), document(width, model)),
{
    broadcast use lemma_occurs_head, lemma_occurs_tail;

    reveal(document);
    lemma_list_holds(model.modules.len(), module_json_part(width, model.modules), width, 1, m);
}

} // verus!
