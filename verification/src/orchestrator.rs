//! One run: check the request, walk the image once, render the one model in every requested
//! format, and say per planned module how much was resolved.

use vstd::prelude::*;
use crate::ident::byte_rows;
use crate::image::{ImageView, MemoryImage};
use crate::model::{ModelView, module_names, module_views, SchemaModel};
use crate::named::{find_named, first_named, names_of};
use crate::render::{
    all_files, config_of, ConfigError, file_views, FileView, Format, home_content,
    lemma_formats_refuse, lemma_home_is_written, lemma_module_rendered, module_decl, module_label,
    OutputFile, render_all, RenderConfig
};
use crate::resolver::view_ok;
use crate::text::{copy_bytes, lemma_occurs_trans, occurs_in, push_bytes};
use crate::walker::{
    lemma_found_module_is_walked, ModulePlan, ModulePlanView, plan_views, ResolutionGap, walk,
    walk_spec, WalkError
};

verus! {

/// The byte that parts the directories of a path.
pub const SEPARATOR: u8 = 0x2f;

/// `path` below the directory `root`.
pub open spec fn join_path(root: Seq<u8>, path: Seq<u8>) -> Seq<u8> {
    if root.len() == 0 {
        path
    } else if root.last() == SEPARATOR {
        root + path
    } else {
        root + seq![SEPARATOR] + path
    }
}

/// Where a file with the relative path `path` goes below `root`.
pub fn destination(root: &[u8], path: &[u8]) -> (full: Vec<u8>)
    ensures
        full@ == join_path(root@, path@),
{
    let mut full = copy_bytes(root);
    if root.len() > 0 && root[root.len() - 1] != SEPARATOR {
        full.push(SEPARATOR);
    }
    push_bytes(&mut full, path);
    assert(full@ =~= join_path(root@, path@));
    full
}

/// Where each of `files` goes below `root`, in their order.
pub open spec fn destinations(root: Seq<u8>, files: Seq<FileView>) -> Seq<Seq<u8>> {
    Seq::new(files.len(), |i: int| join_path(root, files[i].path))
}

fn destinations_of(root: &[u8], files: &Vec<OutputFile>) -> (paths: Vec<Vec<u8>>)
    ensures
        byte_rows(paths@) == destinations(root@, file_views(files@)),
{
    let mut paths: Vec<Vec<u8>> = Vec::new();
    let mut i: usize = 0;
    while i < files.len()
        invariant
            i <= files@.len(),
            paths@.len() == i,
            forall|k: int| 0 <= k < i ==> paths@[k]@ == join_path(root@, files@[k]@.path),
        decreases files@.len() - i,
    {
        paths.push(destination(root, files[i].path.as_slice()));
        i += 1;
    }
    assert(byte_rows(paths@) =~= destinations(root@, file_views(files@)));
    paths
}

/// How many of the first `n` gaps were met under the module at position `m` of the plan.
pub open spec fn gaps_upto(gaps: Seq<ResolutionGap>, m: usize, n: nat) -> nat
    decreases n,
{
    if n == 0 {
        0
    } else {
        gaps_upto(gaps, m, (n - 1) as nat) + if gaps[n - 1].module == m {
            1nat
        } else {
            0nat
        }
    }
}

/// How many gaps were met under the module at position `m` of the plan.
pub open spec fn gap_count(gaps: Seq<ResolutionGap>, m: usize) -> nat {
    gaps_upto(gaps, m, gaps.len())
}

fn count_gaps(gaps: &Vec<ResolutionGap>, m: usize) -> (count: usize)
    ensures
        count == gap_count(gaps@, m),
{
    let mut count: usize = 0;
    let mut i: usize = 0;
    while i < gaps.len()
        invariant
            i <= gaps@.len(),
            count <= i,
            count == gaps_upto(gaps@, m, i as nat),
        decreases gaps@.len() - i,
    {
        if gaps[i].module == m {
            count += 1;
        }
        i += 1;
    }
    count
}

/// `n`, or the largest `usize` where `n` is larger than that.
pub open spec fn clamp(n: nat) -> nat {
    if n <= usize::MAX {
        n
    } else {
        usize::MAX as nat
    }
}

/// How many classes, enums and offsets the model holds under the module called `name`.
pub open spec fn resolved_count(model: ModelView, name: Seq<u8>) -> nat {
    match first_named(module_names(model.modules), name) {
        Some(i) => clamp(model.modules[i].entry_count()),
        None => 0,
    }
}

/// What became of one planned module.
#[derive(Debug)]
pub struct ModuleSummary {
    pub name: Vec<u8>,
    /// How many classes, enums and offsets were resolved.
    pub resolved: usize,
    /// How many steps could not be completed.
    pub gaps: usize,
}

pub struct SummaryView {
    pub name: Seq<u8>,
    pub resolved: nat,
    pub gaps: nat,
}

impl View for ModuleSummary {
    type V = SummaryView;

    open spec fn view(&self) -> SummaryView {
        SummaryView { name: self.name@, resolved: self.resolved as nat, gaps: self.gaps as nat }
    }
}

pub open spec fn summary_views(summaries: Seq<ModuleSummary>) -> Seq<SummaryView> {
    Seq::new(summaries.len(), |i: int| summaries[i]@)
}

/// What became of the planned module at position `m`.
pub open spec fn summary_of(
    plans: Seq<ModulePlanView>,
    model: ModelView,
    gaps: Seq<ResolutionGap>,
    m: int,
) -> SummaryView {
    SummaryView {
        name: plans[m].name,
        resolved: resolved_count(model, plans[m].name),
        gaps: gap_count(gaps, m as usize),
    }
}

/// What became of each planned module, in the order of the plan.
pub open spec fn summaries(
    plans: Seq<ModulePlanView>,
    model: ModelView,
    gaps: Seq<ResolutionGap>,
) -> Seq<SummaryView> {
    Seq::new(plans.len(), |m: int| summary_of(plans, model, gaps, m))
}

/// Says, per planned module, how many entries were resolved and how many gaps were met.
pub fn summarize(plans: &Vec<ModulePlan>, model: &SchemaModel, gaps: &Vec<ResolutionGap>)
    -> (report: Vec<ModuleSummary>)
    ensures
        summary_views(report@) == summaries(plan_views(plans@), model@, gaps@),
{
    let modules = model.modules();
    assert(names_of(modules@) =~= module_names(model@.modules));
    let mut report: Vec<ModuleSummary> = Vec::new();
    let mut m: usize = 0;
    while m < plans.len()
        invariant
            m <= plans@.len(),
            module_views(modules@) == model@.modules,
            names_of(modules@) == module_names(model@.modules),
            report@.len() == m,
            forall|k: int|
                0 <= k < m ==> report@[k]@ == summary_of(plan_views(plans@), model@, gaps@, k),
        decreases plans@.len() - m,
    {
        let plan = &plans[m];
        let resolved = match find_named(modules, plan.name.as_slice()) {
            Some(i) => {
                assert(model@.modules[i as int] == modules@[i as int]@);
                modules[i].entry_count()
            },
            None => 0,
        };
        let count = count_gaps(gaps, m);
        assert(plan_views(plans@)[m as int] == plan@);
        report.push(
            ModuleSummary { name: copy_bytes(plan.name.as_slice()), resolved, gaps: count },
        );
        m += 1;
    }
    assert(summary_views(report@) =~= summaries(plan_views(plans@), model@, gaps@));
    report
}

/// Why a run gave nothing.
#[derive(Clone, Copy, PartialEq, Eq, Debug, Structural)]
pub enum RunError {
    /// The request was refused before the target was touched.
    Config(ConfigError),
    /// The target could not be reached.
    PortUnavailable,
}

/// What a run gives.
#[derive(Debug)]
pub struct RunReport {
    /// The files to write, with their paths below the destination directory.
    pub files: Vec<OutputFile>,
    /// Where each file goes, the destination directory included.
    pub destinations: Vec<Vec<u8>>,
    /// What became of each planned module.
    pub summary: Vec<ModuleSummary>,
    /// Every step of the walk that could not be completed.
    pub gaps: Vec<ResolutionGap>,
}

pub struct ReportView {
    pub files: Seq<FileView>,
    pub destinations: Seq<Seq<u8>>,
    pub summary: Seq<SummaryView>,
    pub gaps: Seq<ResolutionGap>,
}

impl View for RunReport {
    type V = ReportView;

    open spec fn view(&self) -> ReportView {
        ReportView {
            files: file_views(self.files@),
            destinations: byte_rows(self.destinations@),
            summary: summary_views(self.summary@),
            gaps: self.gaps@,
        }
    }
}

/// What a run gives: a request that is not legal is refused first, a target that cannot be
/// reached fails the run, and everything else gives the files of the one model that the walk
/// recovered, with the summary and the gaps.
pub open spec fn run_spec(
    image: ImageView,
    plans: Seq<ModulePlanView>,
    tags: Seq<Seq<u8>>,
    indent_width: nat,
    root_directory: Seq<u8>,
) -> Result<ReportView, RunError> {
    match config_of(tags, indent_width, root_directory) {
        Err(e) => Err(RunError::Config(e)),
        Ok(config) => match walk_spec(image, plans) {
            Err(_) => Err(RunError::PortUnavailable),
            Ok(found) => {
                let files = all_files(config, found.model);
                Ok(
                    ReportView {
                        files,
                        destinations: destinations(root_directory, files),
                        summary: summaries(plans, found.model, found.gaps),
                        gaps: found.gaps,
                    },
                )
            },
        },
    }
}

/// Runs the pipeline once over `image`.
pub fn run(
    image: &MemoryImage,
    plans: &Vec<ModulePlan>,
    tags: &Vec<Vec<u8>>,
    indent_width: usize,
    root_directory: Vec<u8>,
) -> (report: Result<RunReport, RunError>)
    ensures
        view_ok(report) == run_spec(
            image@,
            plan_views(plans@),
            byte_rows(tags@),
            indent_width as nat,
            root_directory@,
        ),
{
    let config = match RenderConfig::new(tags, indent_width, root_directory) {
        Ok(config) => config,
        Err(e) => {
            return Err(RunError::Config(e));
        },
    };
    let found = match walk(image, plans) {
        Ok(found) => found,
        Err(WalkError::PortUnavailable) => {
            return Err(RunError::PortUnavailable);
        },
    };
    let files = render_all(&found.model, &config);
    let destinations = destinations_of(config.root_directory().as_slice(), &files);
    let summary = summarize(plans, &found.model, &found.gaps);
    Ok(RunReport { files, destinations, summary, gaps: found.gaps })
}

/// An indent width of zero is refused, whatever else is asked and whatever the target holds.
pub proof fn lemma_zero_indent_refused(
    image: ImageView,
    plans: Seq<ModulePlanView>,
    tags: Seq<Seq<u8>>,
    root_directory: Seq<u8>,
)
    ensures
        run_spec(image, plans, tags, 0, root_directory) == Err::<ReportView, RunError>(
            RunError::Config(ConfigError::ZeroIndent),
        ),
{
}

/// A tag that names no format is refused, whatever the target holds: the run gives an error
/// that points at such a tag, and no file.
pub proof fn lemma_unknown_format_refused(
    image: ImageView,
    plans: Seq<ModulePlanView>,
    tags: Seq<Seq<u8>>,
    indent_width: nat,
    root_directory: Seq<u8>,
    at: int,
)
    requires
        indent_width > 0,
        0 <= at < tags.len() <= usize::MAX,
        Format::of_tag(tags[at]) is None,
    ensures
        run_spec(image, plans, tags, indent_width, root_directory) matches Err(
            RunError::Config(ConfigError::UnknownFormat { position }),
        ) && position <= at && Format::of_tag(tags[position as int]) is None,
{
    lemma_formats_refuse(tags, tags.len(), at);
}

/// Whether one of `files` holds `label`.
pub open spec fn mentioned(files: Seq<FileView>, label: Seq<u8>) -> bool {
    exists|f: int| 0 <= f < files.len() && occurs_in(label, (#[trigger] files[f]).content)
}

/// A planned module that the target has is in every requested format's output, whatever
/// became of the other planned modules: one of the files of the run names it as the format
/// spells it.
pub proof fn lemma_found_module_is_rendered(
    image: ImageView,
    plans: Seq<ModulePlanView>,
    tags: Seq<Seq<u8>>,
    indent_width: nat,
    root_directory: Seq<u8>,
    at: int,
    format: Format,
)
    requires
        image.available,
        config_of(tags, indent_width, root_directory) is Ok,
        config_of(tags, indent_width, root_directory)->Ok_0.formats.has(format),
        0 <= at < plans.len(),
        image.find_module(plans[at].name) is Some,
    ensures
        run_spec(image, plans, tags, indent_width, root_directory) is Ok,
        walk_spec(image, plans) is Ok,
        exists|m: int|
            0 <= m < walk_spec(image, plans)->Ok_0.model.modules.len() && (#[trigger] walk_spec(
                image,
                plans,
            )->Ok_0.model.modules[m]).name == plans[at].name && mentioned(
                run_spec(image, plans, tags, indent_width, root_directory)->Ok_0.files,
                module_label(format, walk_spec(image, plans)->Ok_0.model, m),
            ),
{
    let config = config_of(tags, indent_width, root_directory)->Ok_0;
    let model = walk_spec(image, plans)->Ok_0.model;
    let report = run_spec(image, plans, tags, indent_width, root_directory)->Ok_0;
    lemma_found_module_is_walked(image, plans, plans.len(), at);
    let names = module_names(model.modules);
    let m = choose|m: int| 0 <= m < names.len() && names[m] == plans[at].name;
    lemma_module_rendered(format, indent_width, model, m);
    lemma_home_is_written(config, format, model, m);
    let f = choose|f: int|
        0 <= f < all_files(config, model).len() && (#[trigger] all_files(config, model)[f]).content
            == home_content(format, indent_width, model, m);
    lemma_occurs_trans(
        module_label(format, model, m),
        module_decl(format, indent_width, model, m),
        home_content(format, indent_width, model, m),
    );
    assert(report.files[f].content == home_content(format, indent_width, model, m));
    assert(mentioned(report.files, module_label(format, model, m)));
    assert(model.modules[m].name == names[m]);
}

} // verus!
