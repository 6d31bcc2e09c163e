//! The renderers: each format turns a model into files, reading nothing but the model and
//! the indent width. The formats are a closed set; a configuration activates some of them.

use vstd::prelude::*;
use crate::ident::{byte_rows, unique_idents};
use crate::model::{field_names, member_names, ModelView, module_names, ModuleView, SchemaModel};
use crate::render::flat::{
    class_slot, enum_slot, field_slot, flat_entries, flat_files, flat_idents, flat_line, flat_text,
    lemma_flat_entries, lemma_flat_text_holds, lemma_flat_text_names, member_slot, offset_slot,
    render_flat
};
use crate::render::json::{
    class_json, document, enum_json, field_json, json_files, json_string, lemma_class_json_holds,
    lemma_class_json_names, lemma_document_holds, lemma_enum_json_holds, lemma_enum_json_names,
    lemma_field_json_names, lemma_member_json_names, lemma_module_json_holds_class,
    lemma_module_json_holds_enum, lemma_module_json_holds_offset, lemma_module_json_names,
    lemma_offset_json_names, member_json, module_json, offset_json, render_json
};
use crate::render::nested::{
    class_text, cs, cs_syntax, enum_text, field_line, hpp, hpp_syntax, lemma_body_holds_class,
    lemma_body_holds_enum, lemma_body_holds_offset, lemma_class_text_holds, lemma_class_text_names,
    lemma_enum_text_holds, lemma_enum_text_names, lemma_field_line_names, lemma_member_line_names,
    lemma_module_text_holds, lemma_offset_line_names, member_line, module_body, module_text,
    nested_file, nested_files, offset_line, plain, render_nested, scope_idents, Syntax
};
use crate::resolver::view_ok;
use crate::text::{bytes_eq, lemma_occurs_self, lemma_occurs_trans, lit, occurs_in};

pub mod flat;
pub mod json;
pub mod nested;
pub mod paths;

verus! {

/// A file to write: its path below the destination directory, and its bytes.
#[derive(Debug)]
pub struct OutputFile {
    pub path: Vec<u8>,
    pub content: Vec<u8>,
}

pub struct FileView {
    pub path: Seq<u8>,
    pub content: Seq<u8>,
}

impl View for OutputFile {
    type V = FileView;

    open spec fn view(&self) -> FileView {
        FileView { path: self.path@, content: self.content@ }
    }
}

pub open spec fn file_views(files: Seq<OutputFile>) -> Seq<FileView> {
    Seq::new(files.len(), |i: int| files[i]@)
}

/// How a format lays the model out.
pub enum Layout {
    /// A file per module, with scopes that mirror what the module holds.
    Nested(Syntax),
    /// One document that mirrors the whole tree.
    Document,
    /// A file per module, with one constant per line.
    Flat,
}

/// An output format.
#[derive(Clone, Copy, PartialEq, Eq, Debug, Structural)]
pub enum Format {
    /// C# static classes.
    Cs,
    /// A C++ header of namespaces.
    Hpp,
    /// One JSON document.
    Json,
    /// Rust constants, without nesting.
    Rs,
}

impl Format {
    /// The format that `tag` names. A C++ header goes by `hpp` and by `header`.
    pub open spec fn of_tag(tag: Seq<u8>) -> Option<Format> {
        if tag == lit("cs") {
            Some(Format::Cs)
        } else if tag == lit("hpp") || tag == lit("header") {
            Some(Format::Hpp)
        } else if tag == lit("json") {
            Some(Format::Json)
        } else if tag == lit("rs") {
            Some(Format::Rs)
        } else {
            None
        }
    }

    /// The format that `tag` names.
    pub fn parse(tag: &[u8]) -> (format: Option<Format>)
        ensures
            format == Self::of_tag(tag@),
    {
        if bytes_eq(tag, "cs".as_bytes()) {
            Some(Format::Cs)
        } else if bytes_eq(tag, "hpp".as_bytes()) || bytes_eq(tag, "header".as_bytes()) {
            Some(Format::Hpp)
        } else if bytes_eq(tag, "json".as_bytes()) {
            Some(Format::Json)
        } else if bytes_eq(tag, "rs".as_bytes()) {
            Some(Format::Rs)
        } else {
            None
        }
    }

    /// The tag that names the format.
    pub open spec fn tag_text(self) -> &'static str {
        match self {
            Format::Cs => "cs",
            Format::Hpp => "hpp",
            Format::Json => "json",
            Format::Rs => "rs",
        }
    }

    /// The tag that names the format.
    pub fn tag(self) -> (tag: &'static str)
        ensures
            tag == self.tag_text(),
    {
        match self {
            Format::Cs => "cs",
            Format::Hpp => "hpp",
            Format::Json => "json",
            Format::Rs => "rs",
        }
    }

    /// How the format lays the model out.
    pub open spec fn layout(self) -> Layout {
        match self {
            Format::Cs => Layout::Nested(cs_syntax()),
            Format::Hpp => Layout::Nested(hpp_syntax()),
            Format::Json => Layout::Document,
            Format::Rs => Layout::Flat,
        }
    }

    /// The position, among the files of this format, of the file that holds the module at
    /// position `m`: a code format has a file per module, JSON has one file for all.
    pub open spec fn home(self, m: int) -> int {
        match self {
            Format::Json => 0,
            _ => m,
        }
    }
}

/// The tag of a format names that format.
pub proof fn lemma_tag_names_format(format: Format)
    ensures
        Format::of_tag(lit(format.tag_text())) == Some(format),
{
    broadcast use vstd::string::is_ascii_spec_bytes;

    reveal_strlit("cs");
    reveal_strlit("hpp");
    reveal_strlit("header");
    reveal_strlit("json");
    reveal_strlit("rs");
    assert(vstd::string::is_ascii("cs"));
    assert(vstd::string::is_ascii("hpp"));
    assert(vstd::string::is_ascii("header"));
    assert(vstd::string::is_ascii("json"));
    assert(vstd::string::is_ascii("rs"));
    assert(lit("cs").len() == 2 && lit("cs")[0] == 0x63);
    assert(lit("hpp").len() == 3);
    assert(lit("header").len() == 6);
    assert(lit("json").len() == 4);
    assert(lit("rs").len() == 2 && lit("rs")[0] == 0x72);
}

/// The files of a model in a format.
pub open spec fn files_of(format: Format, width: nat, model: ModelView) -> Seq<FileView> {
    match format.layout() {
        Layout::Nested(syn) => nested_files(syn, width, model),
        Layout::Document => json_files(width, model),
        Layout::Flat => flat_files(model),
    }
}

/// Renders a model in a format, at `width` spaces per level of nesting.
pub fn render(format: Format, width: usize, model: &SchemaModel) -> (files: Vec<OutputFile>)
    ensures
        file_views(files@) == files_of(format, width as nat, model@),
{
    match format {
        Format::Cs => render_nested(&cs(), width, model),
        Format::Hpp => render_nested(&hpp(), width, model),
        Format::Json => render_json(width, model),
        Format::Rs => render_flat(model),
    }
}

/// A set of formats.
#[derive(Clone, Copy, PartialEq, Eq, Debug, Structural)]
pub struct FormatSet {
    pub cs: bool,
    pub hpp: bool,
    pub json: bool,
    pub rs: bool,
}

impl FormatSet {
    pub open spec fn empty() -> FormatSet {
        FormatSet { cs: false, hpp: false, json: false, rs: false }
    }

    pub open spec fn has(self, format: Format) -> bool {
        match format {
            Format::Cs => self.cs,
            Format::Hpp => self.hpp,
            Format::Json => self.json,
            Format::Rs => self.rs,
        }
    }

    pub open spec fn with(self, format: Format) -> FormatSet {
        match format {
            Format::Cs => FormatSet { cs: true, ..self },
            Format::Hpp => FormatSet { hpp: true, ..self },
            Format::Json => FormatSet { json: true, ..self },
            Format::Rs => FormatSet { rs: true, ..self },
        }
    }

    pub fn none() -> (set: FormatSet)
        ensures
            set == Self::empty(),
    {
        FormatSet { cs: false, hpp: false, json: false, rs: false }
    }

    pub fn contains(self, format: Format) -> (held: bool)
        ensures
            held == self.has(format),
    {
        match format {
            Format::Cs => self.cs,
            Format::Hpp => self.hpp,
            Format::Json => self.json,
            Format::Rs => self.rs,
        }
    }

    pub fn insert(self, format: Format) -> (set: FormatSet)
        ensures
            set == self.with(format),
    {
        match format {
            Format::Cs => FormatSet { cs: true, ..self },
            Format::Hpp => FormatSet { hpp: true, ..self },
            Format::Json => FormatSet { json: true, ..self },
            Format::Rs => FormatSet { rs: true, ..self },
        }
    }
}

/// Why a configuration was refused.
#[derive(Clone, Copy, PartialEq, Eq, Debug, Structural)]
pub enum ConfigError {
    /// The indent width is zero.
    ZeroIndent,
    /// The tag at `position` names no format.
    UnknownFormat { position: usize },
}

/// The set of the formats that the first `n` of `tags` name, or the first tag among them
/// that names none.
pub open spec fn formats_upto(tags: Seq<Seq<u8>>, n: nat) -> Result<FormatSet, ConfigError>
    decreases n,
{
    if n == 0 {
        Ok(FormatSet::empty())
    } else {
        match formats_upto(tags, (n - 1) as nat) {
            Err(e) => Err(e),
            Ok(set) => match Format::of_tag(tags[n - 1]) {
                Some(format) => Ok(set.with(format)),
                None => Err(ConfigError::UnknownFormat { position: (n - 1) as usize }),
            },
        }
    }
}

pub struct ConfigView {
    pub indent_width: nat,
    pub root_directory: Seq<u8>,
    pub formats: FormatSet,
}

/// The configuration that a request asks for, where it asks for a legal one: the indent
/// width is positive and every tag names a format.
pub open spec fn config_of(tags: Seq<Seq<u8>>, indent_width: nat, root_directory: Seq<u8>)
    -> Result<ConfigView, ConfigError> {
    if indent_width == 0 {
        Err(ConfigError::ZeroIndent)
    } else {
        match formats_upto(tags, tags.len()) {
            Err(e) => Err(e),
            Ok(formats) => Ok(ConfigView { indent_width, root_directory, formats }),
        }
    }
}

/// How to render: the indent width, which is positive; the destination directory; and the
/// formats to render.
#[derive(Debug)]
pub struct RenderConfig {
    indent_width: usize,
    root_directory: Vec<u8>,
    formats: FormatSet,
}

impl View for RenderConfig {
    type V = ConfigView;

    closed spec fn view(&self) -> ConfigView {
        ConfigView {
            indent_width: self.indent_width as nat,
            root_directory: self.root_directory@,
            formats: self.formats,
        }
    }
}

impl RenderConfig {
    #[verifier::type_invariant]
    spec fn inv(&self) -> bool {
        self.indent_width > 0
    }

    /// Checks a request and makes the configuration that it asks for.
    pub fn new(tags: &Vec<Vec<u8>>, indent_width: usize, root_directory: Vec<u8>) -> (config:
        Result<RenderConfig, ConfigError>)
        ensures
            view_ok(config) == config_of(
                byte_rows(tags@),
                indent_width as nat,
                root_directory@,
            ),
    {
        if indent_width == 0 {
            return Err(ConfigError::ZeroIndent);
        }
        let ghost rows = byte_rows(tags@);
        let mut formats = FormatSet::none();
        let mut i: usize = 0;
        while i < tags.len()
            invariant
                i <= tags@.len(),
                indent_width > 0,
                rows == byte_rows(tags@),
                formats_upto(rows, i as nat) == Ok::<FormatSet, ConfigError>(formats),
            decreases tags@.len() - i,
        {
            match Format::parse(tags[i].as_slice()) {
                Some(format) => {
                    assert(rows[i as int] == tags@[i as int]@);
                    formats = formats.insert(format);
                },
                None => {
                    proof {
                        assert(rows[i as int] == tags@[i as int]@);
                        assert(formats_upto(rows, (i + 1) as nat) is Err);
                        lemma_formats_fail(rows, (i + 1) as nat, tags@.len() as nat);
                    }
                    return Err(ConfigError::UnknownFormat { position: i });
                },
            }
            i += 1;
        }
        Ok(RenderConfig { indent_width, root_directory, formats })
    }

    pub fn indent_width(&self) -> (width: usize)
        ensures
            width == self@.indent_width,
            width > 0,
    {
        proof {
            use_type_invariant(self);
        }
        self.indent_width
    }

    pub fn root_directory(&self) -> (root: &Vec<u8>)
        ensures
            root@ == self@.root_directory,
    {
        &self.root_directory
    }

    pub fn formats(&self) -> (formats: FormatSet)
        ensures
            formats == self@.formats,
    {
        self.formats
    }
}

/// Once a tag has been refused, more tags change nothing.
proof fn lemma_formats_fail(tags: Seq<Seq<u8>>, n: nat, more: nat)
    requires
        n <= more,
        formats_upto(tags, n) is Err,
    ensures
        formats_upto(tags, more) == formats_upto(tags, n),
    decreases more,
{
    if n < more {
        lemma_formats_fail(tags, n, (more - 1) as nat);
    }
}

/// Where one of the first `n` tags names no format, the tags are refused, and the error
/// points at the first such tag.
pub proof fn lemma_formats_refuse(tags: Seq<Seq<u8>>, n: nat, at: int)
    requires
        0 <= at < n <= tags.len() <= usize::MAX,
        Format::of_tag(tags[at]) is None,
    ensures
        formats_upto(tags, n) matches Err(ConfigError::UnknownFormat { position }) && position
            <= at && Format::of_tag(tags[position as int]) is None,
    decreases n,
{
    if at < n - 1 {
        lemma_formats_refuse(tags, (n - 1) as nat, at);
    } else {
        match formats_upto(tags, (n - 1) as nat) {
            Ok(_) => {},
            Err(_) => {
                lemma_formats_point(tags, (n - 1) as nat);
            },
        }
    }
}

/// An error of `formats_upto` points at a tag, among those read, that names no format.
pub proof fn lemma_formats_point(tags: Seq<Seq<u8>>, n: nat)
    requires
        n <= tags.len() <= usize::MAX,
        formats_upto(tags, n) is Err,
    ensures
        formats_upto(tags, n) matches Err(ConfigError::UnknownFormat { position }) && position
            < n && Format::of_tag(tags[position as int]) is None,
    decreases n,
{
    if n > 0 {
        if formats_upto(tags, (n - 1) as nat) is Err {
            lemma_formats_point(tags, (n - 1) as nat);
        }
    }
}

/// The files of a format where the set holds it, no files where it does not.
pub open spec fn selected(set: FormatSet, format: Format, width: nat, model: ModelView) -> Seq<
    FileView,
> {
    if set.has(format) {
        files_of(format, width, model)
    } else {
        Seq::empty()
    }
}

/// The files of every configured format, in the order C#, C++, JSON, Rust.
pub open spec fn all_files(config: ConfigView, model: ModelView) -> Seq<FileView> {
    selected(config.formats, Format::Cs, config.indent_width, model) + selected(
        config.formats,
        Format::Hpp,
        config.indent_width,
        model,
    ) + selected(config.formats, Format::Json, config.indent_width, model) + selected(
        config.formats,
        Format::Rs,
        config.indent_width,
        model,
    )
}

fn render_selected(config: &RenderConfig, format: Format, model: &SchemaModel) -> (files: Vec<
    OutputFile,
>)
    ensures
        file_views(files@) == selected(config@.formats, format, config@.indent_width, model@),
{
    if config.formats().contains(format) {
        render(format, config.indent_width(), model)
    } else {
        let files: Vec<OutputFile> = Vec::new();
        assert(file_views(files@) =~= Seq::empty());
        files
    }
}

/// Renders a model in every configured format.
pub fn render_all(model: &SchemaModel, config: &RenderConfig) -> (files: Vec<OutputFile>)
    ensures
        file_views(files@) == all_files(config@, model@),
{
    let mut files = render_selected(config, Format::Cs, model);
    let mut hpp = render_selected(config, Format::Hpp, model);
    let mut json = render_selected(config, Format::Json, model);
    let mut rs = render_selected(config, Format::Rs, model);
    let ghost a = files@;
    let ghost b = hpp@;
    let ghost c = json@;
    let ghost d = rs@;
    files.append(&mut hpp);
    files.append(&mut json);
    files.append(&mut rs);
    assert(file_views(files@) =~= file_views(a) + file_views(b) + file_views(c) + file_views(d));
    files
}

/// Rendering reads nothing but the model and the configuration: equal models under equal
/// configurations give the same files, byte for byte.
pub proof fn lemma_render_deterministic(
    first: ModelView,
    second: ModelView,
    config: ConfigView,
    again: ConfigView,
)
    requires
        first == second,
        config == again,
    ensures
        all_files(config, first) == all_files(again, second),
{
}

/// The files of a configured format are among the files of the configuration.
pub proof fn lemma_selected_kept(config: ConfigView, format: Format, model: ModelView, i: int)
    requires
        config.formats.has(format),
        0 <= i < files_of(format, config.indent_width, model).len(),
    ensures
        all_files(config, model).contains(files_of(format, config.indent_width, model)[i]),
{
    let w = config.indent_width;
    let a = selected(config.formats, Format::Cs, w, model);
    let b = selected(config.formats, Format::Hpp, w, model);
    let c = selected(config.formats, Format::Json, w, model);
    let d = selected(config.formats, Format::Rs, w, model);
    let all = all_files(config, model);
    match format {
        Format::Cs => assert(all[i] == a[i]),
        Format::Hpp => assert(all[a.len() + i] == b[i]),
        Format::Json => assert(all[a.len() + b.len() + i] == c[i]),
        Format::Rs => assert(all[a.len() + b.len() + c.len() + i] == d[i]),
    }
}

/// The file that holds a module in a configured format is among the files of the run.
pub proof fn lemma_home_is_written(config: ConfigView, format: Format, model: ModelView, m: int)
    requires
        config.formats.has(format),
        0 <= m < model.modules.len(),
    ensures
        exists|i: int|
            0 <= i < all_files(config, model).len() && (#[trigger] all_files(
                config,
                model,
            )[i]).content == home_content(format, config.indent_width, model, m),
{
    let files = files_of(format, config.indent_width, model);
    let at = format.home(m);
    lemma_selected_kept(config, format, model, at);
    let all = all_files(config, model);
    let i = choose|i: int| 0 <= i < all.len() && all[i] == files[at];
    assert(all[i].content == home_content(format, config.indent_width, model, m));
}

/// How a format declares the module at position `m`: by the module's file, or in JSON by the
/// module's object.
pub open spec fn module_decl(format: Format, width: nat, model: ModelView, m: int) -> Seq<u8> {
    match format.layout() {
        Layout::Nested(syn) => nested_file(syn, width, model, m).content,
        Layout::Document => module_json(width, model.modules[m]),
        Layout::Flat => flat_text(model.modules[m]),
    }
}

/// How a format spells the name of the module at position `m`: a nested format by the
/// module's identifier, JSON by the name as a string, the flat format by the name in a
/// comment.
pub open spec fn module_label(format: Format, model: ModelView, m: int) -> Seq<u8> {
    match format.layout() {
        Layout::Nested(_) => unique_idents(module_names(model.modules))[m],
        Layout::Document => json_string(model.modules[m].name),
        Layout::Flat => plain(model.modules[m].name),
    }
}

/// The line of the constant at position `at` of a module, in the flat format.
pub open spec fn flat_decl(module: ModuleView, at: int) -> Seq<u8> {
    flat_line(flat_entries(module)[at], flat_idents(module)[at])
}

/// How a format declares the class at position `c` of the module at position `m`.
pub open spec fn class_decl(format: Format, width: nat, model: ModelView, m: int, c: int) -> Seq<
    u8,
> {
    let module = model.modules[m];
    match format.layout() {
        Layout::Nested(syn) => class_text(syn, width, module.classes[c], scope_idents(module)[c]),
        Layout::Document => class_json(width, module.classes[c]),
        Layout::Flat => flat_decl(module, class_slot(module, c)),
    }
}

/// How a format spells the name of a class: a code format by the identifier, JSON by the
/// name as a string.
pub open spec fn class_label(format: Format, model: ModelView, m: int, c: int) -> Seq<u8> {
    let module = model.modules[m];
    match format.layout() {
        Layout::Nested(_) => scope_idents(module)[c],
        Layout::Document => json_string(module.classes[c].name),
        Layout::Flat => flat_idents(module)[class_slot(module, c)],
    }
}

/// How a format declares the field at position `f` of a class.
pub open spec fn field_decl(format: Format, width: nat, model: ModelView, m: int, c: int, f: int)
    -> Seq<u8> {
    let module = model.modules[m];
    let class = module.classes[c];
    match format.layout() {
        Layout::Nested(syn) => field_line(
            syn,
            width,
            class.fields[f],
            unique_idents(field_names(class.fields))[f],
        ),
        Layout::Document => field_json(width, class.fields[f]),
        Layout::Flat => flat_decl(module, field_slot(module, c, f)),
    }
}

pub open spec fn field_label(format: Format, model: ModelView, m: int, c: int, f: int) -> Seq<u8> {
    let module = model.modules[m];
    let class = module.classes[c];
    match format.layout() {
        Layout::Nested(_) => unique_idents(field_names(class.fields))[f],
        Layout::Document => json_string(class.fields[f].name),
        Layout::Flat => flat_idents(module)[field_slot(module, c, f)],
    }
}

/// How a format declares the enum at position `e` of the module at position `m`.
pub open spec fn enum_decl(format: Format, width: nat, model: ModelView, m: int, e: int) -> Seq<
    u8,
> {
    let module = model.modules[m];
    match format.layout() {
        Layout::Nested(syn) => enum_text(
            syn,
            width,
            module.enums[e],
            scope_idents(module)[module.classes.len() + e],
        ),
        Layout::Document => enum_json(width, module.enums[e]),
        Layout::Flat => flat_decl(module, enum_slot(module, e)),
    }
}

pub open spec fn enum_label(format: Format, model: ModelView, m: int, e: int) -> Seq<u8> {
    let module = model.modules[m];
    match format.layout() {
        Layout::Nested(_) => scope_idents(module)[module.classes.len() + e],
        Layout::Document => json_string(module.enums[e].name),
        Layout::Flat => flat_idents(module)[enum_slot(module, e)],
    }
}

/// How a format declares the member at position `k` of an enum.
pub open spec fn member_decl(format: Format, width: nat, model: ModelView, m: int, e: int, k: int)
    -> Seq<u8> {
    let module = model.modules[m];
    let members = module.enums[e].members;
    match format.layout() {
        Layout::Nested(syn) => member_line(
            syn,
            width,
            members[k],
            unique_idents(member_names(members))[k],
        ),
        Layout::Document => member_json(width, members[k]),
        Layout::Flat => flat_decl(module, member_slot(module, e, k)),
    }
}

pub open spec fn member_label(format: Format, model: ModelView, m: int, e: int, k: int) -> Seq<
    u8,
> {
    let module = model.modules[m];
    let members = module.enums[e].members;
    match format.layout() {
        Layout::Nested(_) => unique_idents(member_names(members))[k],
        Layout::Document => json_string(members[k].name),
        Layout::Flat => flat_idents(module)[member_slot(module, e, k)],
    }
}

/// How a format declares the offset at position `o` of the module at position `m`.
pub open spec fn offset_decl(format: Format, width: nat, model: ModelView, m: int, o: int) -> Seq<
    u8,
> {
    let module = model.modules[m];
    match format.layout() {
        Layout::Nested(syn) => offset_line(
            syn,
            width,
            module.offsets[o],
            scope_idents(module)[module.classes.len() + module.enums.len() + o],
        ),
        Layout::Document => offset_json(width, module.offsets[o]),
        Layout::Flat => flat_decl(module, offset_slot(module, o)),
    }
}

pub open spec fn offset_label(format: Format, model: ModelView, m: int, o: int) -> Seq<u8> {
    let module = model.modules[m];
    match format.layout() {
        Layout::Nested(_) => scope_idents(module)[module.classes.len() + module.enums.len() + o],
        Layout::Document => json_string(module.offsets[o].name),
        Layout::Flat => flat_idents(module)[offset_slot(module, o)],
    }
}

/// The content of the file that holds the module at position `m`.
pub open spec fn home_content(format: Format, width: nat, model: ModelView, m: int) -> Seq<u8> {
    files_of(format, width, model)[format.home(m)].content
}

/// No format drops a module: every module of the model is declared, under its name as the
/// format spells it, in the module's file.
pub proof fn lemma_module_rendered(format: Format, width: nat, model: ModelView, m: int)
    requires
        0 <= m < model.modules.len(),
    ensures
        0 <= format.home(m) < files_of(format, width, model).len(),
        occurs_in(module_decl(format, width, model, m), home_content(format, width, model, m)),
        occurs_in(module_label(format, model, m), module_decl(format, width, model, m)),
{
    match format.layout() {
        Layout::Nested(syn) => {
            let ident = unique_idents(module_names(model.modules))[m];
            lemma_occurs_self(nested_file(syn, width, model, m).content);
            lemma_module_text_holds(syn, width, model.modules[m], ident);
        },
        Layout::Document => {
            lemma_document_holds(width, model, m);
            lemma_module_json_names(width, model.modules[m]);
        },
        Layout::Flat => {
            lemma_occurs_self(flat_text(model.modules[m]));
            lemma_flat_text_names(model.modules[m]);
        },
    }
}

/// No format drops a class: every class of the model is declared, under its name as the
/// format spells it, in its module's file.
pub proof fn lemma_class_rendered(format: Format, width: nat, model: ModelView, m: int, c: int)
    requires
        0 <= m < model.modules.len(),
        0 <= c < model.modules[m].classes.len(),
    ensures
        occurs_in(class_decl(format, width, model, m, c), home_content(format, width, model, m)),
        occurs_in(class_label(format, model, m, c), class_decl(format, width, model, m, c)),
{
    let module = model.modules[m];
    let decl = class_decl(format, width, model, m, c);
    lemma_module_rendered(format, width, model, m);
    match format.layout() {
        Layout::Nested(syn) => {
            let ident = unique_idents(module_names(model.modules))[m];
            lemma_body_holds_class(syn, width, module, c);
            lemma_module_text_holds(syn, width, module, ident);
            lemma_occurs_trans(
                decl,
                module_body(syn, width, module),
                module_text(syn, width, module, ident),
            );
            lemma_class_text_names(syn, width, module.classes[c], scope_idents(module)[c]);
        },
        Layout::Document => {
            lemma_module_json_holds_class(width, module, c);
            lemma_occurs_trans(decl, module_json(width, module), document(width, model));
            lemma_class_json_names(width, module.classes[c]);
        },
        Layout::Flat => {
            lemma_flat_entries(module);
            lemma_flat_text_holds(module, class_slot(module, c));
        },
    }
}

/// No format drops a field: every field of the model is declared, under its name as the
/// format spells it, in its module's file.
pub proof fn lemma_field_rendered(
    format: Format,
    width: nat,
    model: ModelView,
    m: int,
    c: int,
    f: int,
)
    requires
        0 <= m < model.modules.len(),
        0 <= c < model.modules[m].classes.len(),
        0 <= f < model.modules[m].classes[c].fields.len(),
    ensures
        occurs_in(
            field_decl(format, width, model, m, c, f),
            home_content(format, width, model, m),
        ),
        occurs_in(field_label(format, model, m, c, f), field_decl(format, width, model, m, c, f)),
{
    let module = model.modules[m];
    let class = module.classes[c];
    let decl = field_decl(format, width, model, m, c, f);
    lemma_class_rendered(format, width, model, m, c);
    match format.layout() {
        Layout::Nested(syn) => {
            lemma_class_text_holds(syn, width, class, scope_idents(module)[c], f);
            lemma_field_line_names(
                syn,
                width,
                class.fields[f],
                unique_idents(field_names(class.fields))[f],
            );
        },
        Layout::Document => {
            lemma_class_json_holds(width, class, f);
            lemma_field_json_names(width, class.fields[f]);
        },
        Layout::Flat => {
            lemma_flat_entries(module);
            lemma_flat_text_holds(module, field_slot(module, c, f));
        },
    }
    if !(format.layout() is Flat) {
        lemma_occurs_trans(
            decl,
            class_decl(format, width, model, m, c),
            home_content(format, width, model, m),
        );
    }
}

/// No format drops an enum: every enum of the model is declared, under its name as the
/// format spells it, in its module's file.
pub proof fn lemma_enum_rendered(format: Format, width: nat, model: ModelView, m: int, e: int)
    requires
        0 <= m < model.modules.len(),
        0 <= e < model.modules[m].enums.len(),
    ensures
        occurs_in(enum_decl(format, width, model, m, e), home_content(format, width, model, m)),
        occurs_in(enum_label(format, model, m, e), enum_decl(format, width, model, m, e)),
{
    let module = model.modules[m];
    let decl = enum_decl(format, width, model, m, e);
    lemma_module_rendered(format, width, model, m);
    match format.layout() {
        Layout::Nested(syn) => {
            let ident = unique_idents(module_names(model.modules))[m];
            lemma_body_holds_enum(syn, width, module, e);
            lemma_module_text_holds(syn, width, module, ident);
            lemma_occurs_trans(
                decl,
                module_body(syn, width, module),
                module_text(syn, width, module, ident),
            );
            lemma_enum_text_names(
                syn,
                width,
                module.enums[e],
                scope_idents(module)[module.classes.len() + e],
            );
        },
        Layout::Document => {
            lemma_module_json_holds_enum(width, module, e);
            lemma_occurs_trans(decl, module_json(width, module), document(width, model));
            lemma_enum_json_names(width, module.enums[e]);
        },
        Layout::Flat => {
            lemma_flat_entries(module);
            lemma_flat_text_holds(module, enum_slot(module, e));
        },
    }
}

/// No format drops a member: every member of every enum is declared, under its name as the
/// format spells it, in its module's file.
pub proof fn lemma_member_rendered(
    format: Format,
    width: nat,
    model: ModelView,
    m: int,
    e: int,
    k: int,
)
    requires
        0 <= m < model.modules.len(),
        0 <= e < model.modules[m].enums.len(),
        0 <= k < model.modules[m].enums[e].members.len(),
    ensures
        occurs_in(
            member_decl(format, width, model, m, e, k),
            home_content(format, width, model, m),
        ),
        occurs_in(
            member_label(format, model, m, e, k),
            member_decl(format, width, model, m, e, k),
        ),
{
    let module = model.modules[m];
    let en = module.enums[e];
    let decl = member_decl(format, width, model, m, e, k);
    lemma_enum_rendered(format, width, model, m, e);
    match format.layout() {
        Layout::Nested(syn) => {
            lemma_enum_text_holds(
                syn,
                width,
                en,
                scope_idents(module)[module.classes.len() + e],
                k,
            );
            lemma_member_line_names(
                syn,
                width,
                en.members[k],
                unique_idents(member_names(en.members))[k],
            );
        },
        Layout::Document => {
            lemma_enum_json_holds(width, en, k);
            lemma_member_json_names(width, en.members[k]);
        },
        Layout::Flat => {
            lemma_flat_entries(module);
            lemma_flat_text_holds(module, member_slot(module, e, k));
        },
    }
    if !(format.layout() is Flat) {
        lemma_occurs_trans(
            decl,
            enum_decl(format, width, model, m, e),
            home_content(format, width, model, m),
        );
    }
}

/// No format drops an offset: every named offset of the model is declared, under its name as
/// the format spells it, in its module's file.
pub proof fn lemma_offset_rendered(format: Format, width: nat, model: ModelView, m: int, o: int)
    requires
        0 <= m < model.modules.len(),
        0 <= o < model.modules[m].offsets.len(),
    ensures
        occurs_in(offset_decl(format, width, model, m, o), home_content(format, width, model, m)),
        occurs_in(offset_label(format, model, m, o), offset_decl(format, width, model, m, o)),
{
    let module = model.modules[m];
    let decl = offset_decl(format, width, model, m, o);
    lemma_module_rendered(format, width, model, m);
    match format.layout() {
        Layout::Nested(syn) => {
            let ident = unique_idents(module_names(model.modules))[m];
            lemma_body_holds_offset(syn, width, module, o);
            lemma_module_text_holds(syn, width, module, ident);
            lemma_occurs_trans(
                decl,
                module_body(syn, width, module),
                module_text(syn, width, module, ident),
            );
            lemma_offset_line_names(
                syn,
                width,
                module.offsets[o],
                scope_idents(module)[module.classes.len() + module.enums.len() + o],
            );
        },
        Layout::Document => {
            lemma_module_json_holds_offset(width, module, o);
            lemma_occurs_trans(decl, module_json(width, module), document(width, model));
            lemma_offset_json_names(width, module.offsets[o]);
        },
        Layout::Flat => {
            lemma_flat_entries(module);
            lemma_flat_text_holds(module, offset_slot(module, o));
        },
    }
}

} // verus!
