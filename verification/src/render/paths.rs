//! Where the files of a run go: no two files of one run share a path, whatever the formats
//! and whatever the names in the model.
//!
//! Within a code format, the files of two modules differ in the module's identifier. Across
//! formats, paths differ in their last two bytes.

use vstd::prelude::*;
use crate::ident::{lemma_unique_idents_distinct, unique_idents};
use crate::model::{ModelView, module_names};
use crate::render::{all_files, ConfigView, files_of, FileView, Format, FormatSet, selected};
use crate::render::flat::flat_files;
use crate::render::nested::{cs_syntax, hpp_syntax, nested_files};
use crate::text::lit;

verus! {

/// No two of `files` share a path.
pub open spec fn paths_distinct(files: Seq<FileView>) -> bool {
    forall|i: int, j: int| 0 <= i < j < files.len() ==> files[i].path != files[j].path
}

/// The last two bytes of a path.
pub open spec fn ending(path: Seq<u8>) -> (u8, u8) {
    (path[path.len() - 2], path[path.len() - 1])
}

/// The last two bytes of every path of a format.
pub open spec fn ending_of(format: Format) -> (u8, u8) {
    match format {
        Format::Cs => (0x63, 0x73),
        Format::Hpp => (0x70, 0x70),
        Format::Json => (0x6f, 0x6e),
        Format::Rs => (0x72, 0x73),
    }
}

/// Every path of `files` is at least two bytes long and ends as one of `endings`.
pub open spec fn end_among(files: Seq<FileView>, endings: Set<(u8, u8)>) -> bool {
    forall|i: int|
        0 <= i < files.len() ==> (#[trigger] files[i]).path.len() >= 2 && endings.contains(
            ending(files[i].path),
        )
}

proof fn lemma_extension_endings()
    ensures
        lit(".cs").len() == 3 && ending(lit(".cs")) == ending_of(Format::Cs),
        lit(".hpp").len() == 4 && ending(lit(".hpp")) == ending_of(Format::Hpp),
        lit(".rs").len() == 3 && ending(lit(".rs")) == ending_of(Format::Rs),
        lit("schema.json").len() == 11 && ending(lit("schema.json")) == ending_of(Format::Json),
{
    broadcast use vstd::string::is_ascii_spec_bytes;

    reveal_strlit(".cs");
    reveal_strlit(".hpp");
    reveal_strlit(".rs");
    reveal_strlit("schema.json");
    assert(vstd::string::is_ascii(".cs"));
    assert(vstd::string::is_ascii(".hpp"));
    assert(vstd::string::is_ascii(".rs"));
    assert(vstd::string::is_ascii("schema.json"));
    assert(lit(".cs").len() == 3 && lit(".cs")[1] == 0x63 && lit(".cs")[2] == 0x73);
    assert(lit(".hpp").len() == 4 && lit(".hpp")[2] == 0x70 && lit(".hpp")[3] == 0x70);
    assert(lit(".rs").len() == 3 && lit(".rs")[1] == 0x72 && lit(".rs")[2] == 0x73);
    assert(lit("schema.json").len() == 11 && lit("schema.json")[9] == 0x6f && lit(
        "schema.json",
    )[10] == 0x6e);
}

/// Files that are named by the identifiers of `names`, with `ext` behind each, have distinct
/// paths, which end as `ext` ends.
proof fn lemma_ident_paths(files: Seq<FileView>, names: Seq<Seq<u8>>, ext: Seq<u8>)
    requires
        ext.len() >= 2,
        files.len() == names.len(),
        forall|i: int|
            0 <= i < files.len() ==> (#[trigger] files[i]).path == unique_idents(names)[i] + ext,
    ensures
        paths_distinct(files),
        end_among(files, set![ending(ext)]),
{
    let idents = unique_idents(names);
    lemma_unique_idents_distinct(names);
    assert forall|i: int, j: int| 0 <= i < j < files.len() implies files[i].path
        != files[j].path by {
        let a = idents[i];
        let b = idents[j];
        assert(files[i].path == a + ext);
        assert(files[j].path == b + ext);
        if a + ext == b + ext {
            assert((a + ext).subrange(0, a.len() as int) =~= a);
            assert((b + ext).subrange(0, b.len() as int) =~= b);
            assert(a.len() == b.len());
        }
    }
    assert forall|i: int| 0 <= i < files.len() implies (#[trigger] files[i]).path.len() >= 2
        && set![ending(ext)].contains(ending(files[i].path)) by {
        let a = idents[i];
        assert(files[i].path == a + ext);
    }
}

/// The files of a format have distinct paths, which end as the format's paths end.
pub proof fn lemma_format_paths(format: Format, width: nat, model: ModelView)
    ensures
        paths_distinct(files_of(format, width, model)),
        end_among(files_of(format, width, model), set![ending_of(format)]),
{
    lemma_extension_endings();
    let names = module_names(model.modules);
    match format {
        Format::Cs => lemma_ident_paths(
            nested_files(cs_syntax(), width, model),
            names,
            lit(".cs"),
        ),
        Format::Hpp => lemma_ident_paths(
            nested_files(hpp_syntax(), width, model),
            names,
            lit(".hpp"),
        ),
        Format::Rs => lemma_ident_paths(flat_files(model), names, lit(".rs")),
        Format::Json => {},
    }
}

/// Two lists of files with distinct paths, whose paths end differently, make one list of
/// files with distinct paths.
proof fn lemma_joined_paths(
    first: Seq<FileView>,
    second: Seq<FileView>,
    a: Set<(u8, u8)>,
    b: Set<(u8, u8)>,
)
    requires
        paths_distinct(first),
        paths_distinct(second),
        end_among(first, a),
        end_among(second, b),
        a.disjoint(b),
    ensures
        paths_distinct(first + second),
        end_among(first + second, a.union(b)),
{
    let all = first + second;
    assert forall|i: int, j: int| 0 <= i < j < all.len() implies all[i].path != all[j].path by {
        if j < first.len() {
            assert(all[i] == first[i] && all[j] == first[j]);
        } else if i >= first.len() {
            assert(all[i] == second[i - first.len()] && all[j] == second[j - first.len()]);
        } else {
            assert(all[i] == first[i] && all[j] == second[j - first.len()]);
            assert(a.contains(ending(all[i].path)));
            assert(b.contains(ending(all[j].path)));
        }
    }
    assert forall|i: int| 0 <= i < all.len() implies (#[trigger] all[i]).path.len() >= 2
        && a.union(b).contains(ending(all[i].path)) by {
        if i < first.len() {
            assert(all[i] == first[i]);
        } else {
            assert(all[i] == second[i - first.len()]);
        }
    }
}

proof fn lemma_selected_paths(set: FormatSet, format: Format, width: nat, model:
    ModelView)
    ensures
        paths_distinct(selected(set, format, width, model)),
        end_among(selected(set, format, width, model), set![ending_of(format)]),
{
    lemma_format_paths(format, width, model);
}

/// No two files of one run share a path.
pub proof fn lemma_paths_distinct(config: ConfigView, model: ModelView)
    ensures
        paths_distinct(all_files(config, model)),
{
    let w = config.indent_width;
    let set = config.formats;
    let a = selected(set, Format::Cs, w, model);
    let b = selected(set, Format::Hpp, w, model);
    let c = selected(set, Format::Json, w, model);
    let d = selected(set, Format::Rs, w, model);
    let ea = set![ending_of(Format::Cs)];
    let eb = set![ending_of(Format::Hpp)];
    let ec = set![ending_of(Format::Json)];
    let ed = set![ending_of(Format::Rs)];
    lemma_selected_paths(set, Format::Cs, w, model);
    lemma_selected_paths(set, Format::Hpp, w, model);
    lemma_selected_paths(set, Format::Json, w, model);
    lemma_selected_paths(set, Format::Rs, w, model);
    lemma_joined_paths(a, b, ea, eb);
    lemma_joined_paths(a + b, c, ea.union(eb), ec);
    lemma_joined_paths(a + b + c, d, ea.union(eb).union(ec), ed);
}

} // verus!
