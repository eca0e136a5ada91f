//! The prompt assembler: a loaded registry, and what a caller needs to render
//! a prompt from it.
//!
//! The assembler reads no file. It says which files a prompt is made of
//! ([`PromptAssembler::render_prompt`]); the caller reads them and hands
//! their contents to [`crate::placeholder::render_sequence`], or their data
//! to [`crate::data::template_context`].

use vstd::prelude::*;
use vstd::string::StringExecFns;
use indexmap::IndexMap;
use crate::config::load_config;
use crate::config::load_outcome;
use crate::config::Config;
use crate::config::ConfigFile;
use crate::config::ConfigLoad;
use crate::config::ConfigLoadView;
use crate::config::OverrideFiles;
use crate::data::StructuredData;
use crate::data::StructuredDataView;
use crate::issue::ConfigIssue;
use crate::issue::LoadConfigError;
use crate::model::PromptKind;
use crate::model::PromptKindView;
use crate::model::PromptSpec;
use crate::model::PromptSpecView;
use crate::path::is_absolute;
use crate::path::join_path;
use crate::path::joined_path;
use crate::path::path_is_absolute;
use crate::path::HomeDirectoryView;
use crate::placeholder::PlaceholderError;
use crate::placeholder::PlaceholderFault;
use crate::registry::distinct_names;
use crate::registry::get_prompt;
use crate::registry::lemma_position_in_view;
use crate::registry::lemma_position_of;
use crate::registry::lookup;
use crate::registry::no_prompts;
use crate::registry::prompt_at;
use crate::registry::prompt_count;
use crate::registry::registry_entries;
use crate::registry::registry_view;
use crate::text::ascending;
use crate::text::copy_text;
use crate::text::sort_texts;

verus! {

/// One fragment of a sequence prompt: its name in the configuration and the
/// path of its file.
#[derive(Debug, Clone, PartialEq, Eq)]
pub struct FragmentFile {
    pub file: String,
    pub path: String,
}

pub struct FragmentFileView {
    pub file: Seq<char>,
    pub path: Seq<char>,
}

impl View for FragmentFile {
    type V = FragmentFileView;

    open spec fn view(&self) -> FragmentFileView {
        FragmentFileView { file: self.file@, path: self.path@ }
    }
}

impl DeepView for FragmentFile {
    type V = FragmentFileView;

    open spec fn deep_view(&self) -> FragmentFileView {
        self@
    }
}

/// The work that renders a prompt.
#[derive(Debug, Clone, PartialEq, Eq)]
pub enum RenderPlan {
    /// Read the fragments in order, expand each and join them.
    Sequence { fragments: Vec<FragmentFile> },
    /// Render `template`, looked up under `base`, with the content of `data`.
    Template { base: String, template: String, data: StructuredData },
}

pub enum RenderPlanView {
    Sequence { fragments: Seq<FragmentFileView> },
    Template { base: Seq<char>, template: Seq<char>, data: StructuredDataView },
}

impl View for RenderPlan {
    type V = RenderPlanView;

    open spec fn view(&self) -> RenderPlanView {
        match self {
            RenderPlan::Sequence { fragments } => RenderPlanView::Sequence {
                fragments: fragments.deep_view(),
            },
            RenderPlan::Template { base, template, data } => RenderPlanView::Template {
                base: base@,
                template: template@,
                data: data@,
            },
        }
    }
}

/// Why a prompt could not be rendered.
#[derive(Debug, Clone, PartialEq, Eq)]
pub enum RenderError {
    /// The registry has no prompt of this name.
    UnknownPrompt { name: String },
    /// A data file was given for a sequence prompt.
    DataNotAccepted { name: String },
    /// No data file was given for a template prompt.
    DataRequired { name: String },
    /// The prompt has no directory to look its files up in.
    MissingPromptPath { is_template: bool },
    /// A fragment has a fault in its placeholders.
    Placeholder(PlaceholderError),
    /// A fragment file could not be read.
    FragmentUnreadable { file: String, name: String, reason: String },
    /// The template engine does not find the template.
    TemplateNotFound { name: String, template: String, reason: String },
    /// The data file could not be read or parsed.
    DataUnreadable { path: String, name: String, reason: String },
    /// The template engine failed to render the template.
    TemplateFailed { template: String, name: String, reason: String },
}

pub enum RenderErrorView {
    UnknownPrompt { name: Seq<char> },
    DataNotAccepted { name: Seq<char> },
    DataRequired { name: Seq<char> },
    MissingPromptPath { is_template: bool },
    Placeholder(PlaceholderFault),
    FragmentUnreadable { file: Seq<char>, name: Seq<char>, reason: Seq<char> },
    TemplateNotFound { name: Seq<char>, template: Seq<char>, reason: Seq<char> },
    DataUnreadable { path: Seq<char>, name: Seq<char>, reason: Seq<char> },
    TemplateFailed { template: Seq<char>, name: Seq<char>, reason: Seq<char> },
}

impl View for RenderError {
    type V = RenderErrorView;

    open spec fn view(&self) -> RenderErrorView {
        match self {
            RenderError::UnknownPrompt { name } => RenderErrorView::UnknownPrompt { name: name@ },
            RenderError::DataNotAccepted { name } => RenderErrorView::DataNotAccepted {
                name: name@,
            },
            RenderError::DataRequired { name } => RenderErrorView::DataRequired { name: name@ },
            RenderError::MissingPromptPath { is_template } => RenderErrorView::MissingPromptPath {
                is_template: *is_template,
            },
            RenderError::Placeholder(error) => RenderErrorView::Placeholder(error@),
            RenderError::FragmentUnreadable { file, name, reason } =>
                RenderErrorView::FragmentUnreadable { file: file@, name: name@, reason: reason@ },
            RenderError::TemplateNotFound { name, template, reason } =>
                RenderErrorView::TemplateNotFound {
                    name: name@,
                    template: template@,
                    reason: reason@,
                },
            RenderError::DataUnreadable { path, name, reason } => RenderErrorView::DataUnreadable {
                path: path@,
                name: name@,
                reason: reason@,
            },
            RenderError::TemplateFailed { template, name, reason } =>
                RenderErrorView::TemplateFailed {
                    template: template@,
                    name: name@,
                    reason: reason@,
                },
        }
    }
}

impl RenderErrorView {
    /// The sentence that reports this error.
    pub open spec fn message(self) -> Seq<char> {
        match self {
            RenderErrorView::UnknownPrompt { name } => "unknown prompt: "@ + name,
            RenderErrorView::DataNotAccepted { name } => "prompt '"@ + name
                + "' does not accept structured data"@,
            RenderErrorView::DataRequired { name } => "prompt '"@ + name
                + "' requires a data file for structured context"@,
            RenderErrorView::MissingPromptPath { is_template } => if is_template {
                "template prompt missing prompt_path"@
            } else {
                "sequence prompt missing prompt_path"@
            },
            RenderErrorView::Placeholder(fault) => fault.message(),
            RenderErrorView::FragmentUnreadable { file, name, reason } =>
                "failed to read fragment '"@ + file + "' for prompt '"@ + name + "'"@,
            RenderErrorView::TemplateNotFound { name, template, reason } => "prompt '"@ + name
                + "' template '"@ + template + "' not found"@,
            RenderErrorView::DataUnreadable { path, name, reason } => "failed to load data file "@
                + path + " for prompt '"@ + name + "'"@,
            RenderErrorView::TemplateFailed { template, name, reason } => "rendering template '"@
                + template + "' for prompt '"@ + name + "'"@,
        }
    }
}

impl RenderError {
    /// The sentence that reports this error; the `reason` of a failure
    /// outside this crate is not part of it.
    pub fn message(&self) -> (text: String)
        ensures
            text@ == self@.message(),
    {
        match self {
            RenderError::UnknownPrompt { name } => {
                let mut text = String::from_str("unknown prompt: ");
                text.append(name.as_str());
                text
            },
            RenderError::DataNotAccepted { name } => {
                let mut text = String::from_str("prompt '");
                text.append(name.as_str());
                text.append("' does not accept structured data");
                text
            },
            RenderError::DataRequired { name } => {
                let mut text = String::from_str("prompt '");
                text.append(name.as_str());
                text.append("' requires a data file for structured context");
                text
            },
            RenderError::MissingPromptPath { is_template } => {
                if *is_template {
                    String::from_str("template prompt missing prompt_path")
                } else {
                    String::from_str("sequence prompt missing prompt_path")
                }
            },
            RenderError::Placeholder(error) => error.message(),
            RenderError::FragmentUnreadable { file, name, reason } => {
                let mut text = String::from_str("failed to read fragment '");
                text.append(file.as_str());
                text.append("' for prompt '");
                text.append(name.as_str());
                text.append("'");
                text
            },
            RenderError::TemplateNotFound { name, template, reason } => {
                let mut text = String::from_str("prompt '");
                text.append(name.as_str());
                text.append("' template '");
                text.append(template.as_str());
                text.append("' not found");
                text
            },
            RenderError::DataUnreadable { path, name, reason } => {
                let mut text = String::from_str("failed to load data file ");
                text.append(path.as_str());
                text.append(" for prompt '");
                text.append(name.as_str());
                text.append("'");
                text
            },
            RenderError::TemplateFailed { template, name, reason } => {
                let mut text = String::from_str("rendering template '");
                text.append(template.as_str());
                text.append("' for prompt '");
                text.append(name.as_str());
                text.append("'");
                text
            },
        }
    }
}

/// The fragments of a sequence prompt whose files are looked up under `base`.
pub open spec fn fragments_under(base: Seq<char>, files: Seq<Seq<char>>) -> Seq<FragmentFileView> {
    Seq::new(
        files.len(),
        |i: int| FragmentFileView { file: files[i], path: joined_path(base, files[i]) },
    )
}

/// The work that renders the prompt `name` of `prompts`, or why there is
/// none. The checks come in this order: the name, the data against the kind
/// of the prompt, the directory of the prompt.
pub open spec fn render_plan(
    prompts: Seq<(Seq<char>, PromptSpecView)>,
    name: Seq<char>,
    data: Option<StructuredDataView>,
) -> Result<RenderPlanView, RenderErrorView> {
    match lookup(prompts, name) {
        None => Err(RenderErrorView::UnknownPrompt { name }),
        Some(spec) => match spec.kind {
            PromptKindView::Sequence { files } => if data is Some {
                Err(RenderErrorView::DataNotAccepted { name })
            } else {
                match spec.base_directory() {
                    None => Err(RenderErrorView::MissingPromptPath { is_template: false }),
                    Some(base) => Ok(
                        RenderPlanView::Sequence { fragments: fragments_under(base, files) },
                    ),
                }
            },
            PromptKindView::Template { template } => match data {
                None => Err(RenderErrorView::DataRequired { name }),
                Some(data) => match spec.base_directory() {
                    None => Err(RenderErrorView::MissingPromptPath { is_template: true }),
                    Some(base) => Ok(RenderPlanView::Template { base, template, data }),
                },
            },
        },
    }
}

/// The view of what [`PromptAssembler::render_prompt`] returns.
pub open spec fn plan_view(outcome: Result<RenderPlan, RenderError>) -> Result<
    RenderPlanView,
    RenderErrorView,
> {
    match outcome {
        Ok(plan) => Ok(plan@),
        Err(error) => Err(error@),
    }
}

/// Why raw parts could not be assembled.
#[derive(Debug, Clone, PartialEq, Eq)]
pub enum PartsError {
    /// No part was named.
    NoParts,
    /// None of the places where the part may lie holds a file.
    MissingPart { name: String },
    /// The part's file could not be read.
    Unreadable { name: String, path: String, reason: String },
}

pub enum PartsErrorView {
    NoParts,
    MissingPart { name: Seq<char> },
    Unreadable { name: Seq<char>, path: Seq<char>, reason: Seq<char> },
}

impl View for PartsError {
    type V = PartsErrorView;

    open spec fn view(&self) -> PartsErrorView {
        match self {
            PartsError::NoParts => PartsErrorView::NoParts,
            PartsError::MissingPart { name } => PartsErrorView::MissingPart { name: name@ },
            PartsError::Unreadable { name, path, reason } => PartsErrorView::Unreadable {
                name: name@,
                path: path@,
                reason: reason@,
            },
        }
    }
}

impl PartsErrorView {
    /// The sentence that reports this error.
    pub open spec fn message(self) -> Seq<char> {
        match self {
            PartsErrorView::NoParts => "no parts provided"@,
            PartsErrorView::MissingPart { name } => "missing part '"@ + name + "'"@,
            PartsErrorView::Unreadable { name, path, reason } => "failed to read part '"@ + name
                + "' at "@ + path,
        }
    }
}

impl PartsError {
    /// The sentence that reports this error.
    pub fn message(&self) -> (text: String)
        ensures
            text@ == self@.message(),
    {
        match self {
            PartsError::NoParts => String::from_str("no parts provided"),
            PartsError::MissingPart { name } => {
                let mut text = String::from_str("missing part '");
                text.append(name.as_str());
                text.append("'");
                text
            },
            PartsError::Unreadable { name, path, reason } => {
                let mut text = String::from_str("failed to read part '");
                text.append(name.as_str());
                text.append("' at ");
                text.append(path.as_str());
                text
            },
        }
    }
}

/// The places where the part `raw` may lie, in the order in which they are
/// tried: the path itself where it is absolute; else under the working
/// directory, then under the default prompt directory.
pub open spec fn part_places(
    default_prompt_path: Option<Seq<char>>,
    working_dir: Seq<char>,
    raw: Seq<char>,
) -> Seq<Seq<char>> {
    if path_is_absolute(raw) {
        seq![raw]
    } else {
        match default_prompt_path {
            Some(base) => seq![joined_path(working_dir, raw), joined_path(base, raw)],
            None => seq![joined_path(working_dir, raw)],
        }
    }
}

/// The first of `places` that exists, where `exists[i]` says whether
/// `places[i]` does.
pub open spec fn first_existing(places: Seq<Seq<char>>, exists: Seq<bool>) -> Option<Seq<char>>
    decreases places.len(),
{
    if places.len() == 0 || exists.len() == 0 {
        None
    } else if exists[0] {
        Some(places[0])
    } else {
        first_existing(places.skip(1), exists.skip(1))
    }
}

/// The texts one after the other.
pub open spec fn concatenation(texts: Seq<Seq<char>>) -> Seq<char>
    decreases texts.len(),
{
    if texts.len() == 0 {
        Seq::empty()
    } else {
        concatenation(texts.drop_last()) + texts.last()
    }
}

/// The names of the entries, in their order.
pub open spec fn entry_names<V>(entries: Seq<(Seq<char>, V)>) -> Seq<Seq<char>> {
    Seq::new(entries.len(), |i: int| entries[i].0)
}

/// A loaded registry with the warnings of its load.
#[derive(Debug, Clone)]
pub struct PromptAssembler {
    config: Config,
    warnings: Vec<ConfigIssue>,
}

impl View for PromptAssembler {
    type V = ConfigLoadView;

    closed spec fn view(&self) -> ConfigLoadView {
        ConfigLoadView { config: self.config@, warnings: self.warnings.deep_view() }
    }
}

impl PromptAssembler {
    /// The assembler of a finished load.
    pub fn from_load(load: ConfigLoad) -> (assembler: Self)
        ensures
            assembler@ == load@,
    {
        PromptAssembler { config: load.config, warnings: load.warnings }
    }

    /// Loads the configuration directory `root` from files that were read and
    /// parsed already, and keeps the diagnostics of a failure.
    ///
    /// The user's home directory is asked of the system once; the outcome is
    /// that of [`load_outcome`] for whatever the system answers.
    pub fn load_with_diagnostics(root: &str, base: Option<ConfigFile>, overrides: OverrideFiles) -> (outcome:
        Result<Self, LoadConfigError>)
        ensures
            exists|home: HomeDirectoryView|
                #[trigger] load_outcome(root@, home, base.deep_view(), overrides@) == match outcome {
                    Ok(assembler) => Ok::<ConfigLoadView, crate::issue::LoadConfigErrorView>(
                        assembler@,
                    ),
                    Err(error) => Err(error@),
                },
    {
        match load_config(root, base, overrides) {
            Ok(load) => Ok(PromptAssembler::from_load(load)),
            Err(error) => Err(error),
        }
    }

    /// Loads the configuration directory `root` from files that were read and
    /// parsed already.
    pub fn from_directory(root: &str, base: Option<ConfigFile>, overrides: OverrideFiles) -> (outcome:
        Result<Self, LoadConfigError>)
        ensures
            exists|home: HomeDirectoryView|
                #[trigger] load_outcome(root@, home, base.deep_view(), overrides@) == match outcome {
                    Ok(assembler) => Ok::<ConfigLoadView, crate::issue::LoadConfigErrorView>(
                        assembler@,
                    ),
                    Err(error) => Err(error@),
                },
    {
        PromptAssembler::load_with_diagnostics(root, base, overrides)
    }

    /// Decides how the prompt `name` is rendered, before any file is read.
    ///
    /// For a sequence prompt the plan lists the fragment files; their
    /// contents go to [`crate::placeholder::render_sequence`] together with the
    /// arguments. For a template prompt it names the template, its directory
    /// and the data file; the parsed data goes to
    /// [`crate::data::template_context`].
    pub fn render_prompt(&self, name: &str, data: Option<StructuredData>) -> (outcome: Result<
        RenderPlan,
        RenderError,
    >)
        ensures
            plan_view(outcome) == render_plan(self@.config.prompts, name@, data.deep_view()),
    {
        proof {
            lemma_lookup_view(registry_entries(self.config.prompts), name@);
        }
        let spec = match get_prompt(&self.config.prompts, name) {
            Some(spec) => spec,
            None => {
                return Err(RenderError::UnknownPrompt { name: copy_text(name) });
            },
        };
        match &spec.kind {
            PromptKind::Sequence { files } => {
                if data.is_some() {
                    return Err(RenderError::DataNotAccepted { name: copy_text(name) });
                }
                let base = match Self::resolve_prompt_path(spec) {
                    Some(base) => base,
                    None => {
                        return Err(RenderError::MissingPromptPath { is_template: false });
                    },
                };
                let mut fragments: Vec<FragmentFile> = Vec::new();
                let mut i: usize = 0;
                let ghost expected = fragments_under(base@, files.deep_view());
                while i < files.len()
                    invariant
                        i <= files@.len(),
                        expected == fragments_under(base@, files.deep_view()),
                        fragments@.len() == i,
                        forall|k: int| 0 <= k < i ==> (#[trigger] fragments@[k])@ == expected[k],
                    decreases files@.len() - i,
                {
                    let file = &files[i];
                    fragments.push(
                        FragmentFile {
                            file: file.clone(),
                            path: join_path(base.as_str(), file.as_str()),
                        },
                    );
                    i += 1;
                }
                assert(fragments.deep_view() =~= expected);
                Ok(RenderPlan::Sequence { fragments })
            },
            PromptKind::Template { template } => {
                let data = match data {
                    Some(data) => data,
                    None => {
                        return Err(RenderError::DataRequired { name: copy_text(name) });
                    },
                };
                let base = match Self::resolve_prompt_path(spec) {
                    Some(base) => base,
                    None => {
                        return Err(RenderError::MissingPromptPath { is_template: true });
                    },
                };
                Ok(RenderPlan::Template { base, template: template.clone(), data })
            },
        }
    }

    /// The names of the prompts in ascending order, each with its kind. Where
    /// the registry holds no name twice, as that of every load does, neither
    /// does the listing.
    #[must_use]
    pub fn available_prompts(&self) -> (listed: Vec<(String, PromptKind)>)
        ensures
            listed@.len() == self@.config.prompts.len(),
            distinct_names(self@.config.prompts) ==> entry_names(
                listed.deep_view(),
            ).no_duplicates(),
            ascending(entry_names(listed.deep_view())),
            entry_names(listed.deep_view()).to_multiset() == entry_names(
                self@.config.prompts,
            ).to_multiset(),
            forall|i: int|
                0 <= i < listed@.len() ==> (lookup(
                    self@.config.prompts,
                    (#[trigger] listed@[i]).0@,
                ) matches Some(spec) && spec.kind == listed@[i].1@),
    {
        let registry = &self.config.prompts;
        let ghost entries = registry_entries(*registry);
        let count = prompt_count(registry);
        let mut names: Vec<String> = Vec::new();
        let mut i: usize = 0;
        while i < count
            invariant
                i <= count,
                count == entries.len(),
                entries == registry_entries(*registry),
                names@.len() == i,
                forall|k: int| 0 <= k < i ==> (#[trigger] names@[k])@ == entries[k].0,
            decreases count - i,
        {
            match prompt_at(registry, i) {
                Some(pair) => {
                    names.push(pair.0.clone());
                },
                None => {
                    assert(false);
                },
            }
            i += 1;
        }
        assert(names.deep_view() =~= entry_names(entries));
        assert(entry_names(entries) =~= entry_names(self@.config.prompts));
        let sorted = sort_texts(&names);
        let ghost sorted_names = sorted.deep_view();
        let mut listed: Vec<(String, PromptKind)> = Vec::new();
        let mut j: usize = 0;
        proof {
            sorted_names.to_multiset_ensures();
            entry_names(entries).to_multiset_ensures();
        }
        while j < sorted.len()
            invariant
                j <= sorted@.len(),
                sorted_names == sorted.deep_view(),
                entries == registry_entries(self.config.prompts),
                sorted_names.to_multiset() == entry_names(entries).to_multiset(),
                listed@.len() == j,
                forall|k: int| 0 <= k < j ==> (#[trigger] listed@[k]).0@ == sorted_names[k],
                forall|k: int|
                    0 <= k < j ==> (lookup(
                        self@.config.prompts,
                        (#[trigger] listed@[k]).0@,
                    ) matches Some(spec) && spec.kind == listed@[k].1@),
            decreases sorted@.len() - j,
        {
            let name = &sorted[j];
            proof {
                sorted_names.to_multiset_ensures();
                entry_names(entries).to_multiset_ensures();
                assert(sorted_names[j as int] == name@);
                assert(sorted_names.contains(name@));
                assert(sorted_names.to_multiset().count(name@) > 0);
                assert(entry_names(entries).to_multiset().count(name@) > 0);
                assert(entry_names(entries).contains(name@));
                let at = choose|at: int|
                    0 <= at < entry_names(entries).len() && entry_names(entries)[at] == name@;
                assert(entries[at].0 == name@);
                lemma_position_of(entries, name@);
                lemma_lookup_view(entries, name@);
            }
            match get_prompt(&self.config.prompts, name.as_str()) {
                Some(spec) => {
                    listed.push((name.clone(), spec.kind.clone()));
                },
                None => {
                    assert(false);
                },
            }
            j += 1;
        }
        assert(entry_names(listed.deep_view()) =~= sorted_names);
        proof {
            let given = entry_names(self@.config.prompts);
            if distinct_names(self@.config.prompts) {
                assert forall|a: int, b: int|
                    0 <= a < given.len() && 0 <= b < given.len() && a != b implies given[a]
                    != given[b] by {
                    if a < b {
                        assert(self@.config.prompts[a].0 != self@.config.prompts[b].0);
                    } else {
                        assert(self@.config.prompts[b].0 != self@.config.prompts[a].0);
                    }
                }
                given.lemma_multiset_has_no_duplicates();
                sorted_names.lemma_multiset_has_no_duplicates_conv();
            }
        }
        listed
    }

    /// The registry: each prompt name with its definition, in the order in
    /// which the names were first defined.
    #[must_use]
    pub fn prompt_specs(&self) -> (registry: &IndexMap<String, PromptSpec>)
        ensures
            registry_view(*registry) == self@.config.prompts,
    {
        &self.config.prompts
    }

    /// The definition of the prompt `name`, if there is one.
    #[must_use]
    pub fn prompt_spec(&self, name: &str) -> (found: Option<&PromptSpec>)
        ensures
            match lookup(self@.config.prompts, name@) {
                Some(spec) => found is Some && found->0@ == spec,
                None => found is None,
            },
    {
        proof {
            lemma_lookup_view(registry_entries(self.config.prompts), name@);
        }
        get_prompt(&self.config.prompts, name)
    }

    /// Whether the registry holds a prompt.
    #[must_use]
    pub fn has_prompts(&self) -> (any: bool)
        ensures
            any == (self@.config.prompts.len() > 0),
    {
        !no_prompts(&self.config.prompts)
    }

    /// The directory that the files of a prompt are looked up in: its own
    /// `prompt_path` where it has one, else the default directory that was in
    /// force where it was defined.
    fn resolve_prompt_path(spec: &PromptSpec) -> (base: Option<String>)
        ensures
            base.deep_view() == spec@.base_directory(),
    {
        match &spec.prompt_path_override {
            Some(path) => Some(path.clone()),
            None => match &spec.inherited_prompt_path {
                Some(path) => Some(path.clone()),
                None => None,
            },
        }
    }

    /// The kind of the prompt `name`, if there is such a prompt.
    #[must_use]
    pub fn prompt_kind(&self, name: &str) -> (found: Option<&PromptKind>)
        ensures
            match lookup(self@.config.prompts, name@) {
                Some(spec) => found is Some && found->0@ == spec.kind,
                None => found is None,
            },
    {
        proof {
            lemma_lookup_view(registry_entries(self.config.prompts), name@);
        }
        match get_prompt(&self.config.prompts, name) {
            Some(spec) => Some(&spec.kind),
            None => None,
        }
    }

    /// The warnings of the load.
    #[must_use]
    pub fn config_warnings(&self) -> (warnings: &[ConfigIssue])
        ensures
            warnings.deep_view() == self@.warnings,
    {
        let warnings = self.warnings.as_slice();
        assert(warnings.deep_view() =~= self.warnings.deep_view());
        warnings
    }

    /// The default prompt directory of the configuration.
    #[must_use]
    pub fn default_prompt_path(&self) -> (path: &Option<String>)
        ensures
            path.deep_view() == self@.config.default_prompt_path,
    {
        &self.config.default_prompt_path
    }

    /// The places where the raw part `raw` may lie, in the order in which
    /// they are to be tried.
    pub fn part_candidates(&self, working_dir: &str, raw: &str) -> (places: Vec<String>)
        ensures
            places.deep_view() == part_places(self@.config.default_prompt_path, working_dir@, raw@),
    {
        let mut places: Vec<String> = Vec::new();
        if is_absolute(raw) {
            places.push(copy_text(raw));
            assert(places.deep_view() =~= seq![raw@]);
        } else {
            places.push(join_path(working_dir, raw));
            match &self.config.default_prompt_path {
                Some(base) => {
                    places.push(join_path(base.as_str(), raw));
                    assert(places.deep_view() =~= seq![
                        joined_path(working_dir@, raw@),
                        joined_path(base@, raw@),
                    ]);
                },
                None => {
                    assert(places.deep_view() =~= seq![joined_path(working_dir@, raw@)]);
                },
            }
        }
        places
    }

    /// Picks the file of the raw part `raw`: the first of its places that
    /// exists, where `exists[i]` says whether `places[i]` does.
    pub fn resolve_part_path(raw: &str, places: &Vec<String>, exists: &[bool]) -> (outcome: Result<
        String,
        PartsError,
    >)
        ensures
            match first_existing(places.deep_view(), exists@) {
                Some(path) => outcome is Ok && outcome->Ok_0@ == path,
                None => outcome is Err && outcome->Err_0@ == (PartsErrorView::MissingPart {
                    name: raw@,
                }),
            },
    {
        let mut i: usize = 0;
        let ghost all = places.deep_view();
        assert(all.skip(0) =~= all && exists@.skip(0) =~= exists@);
        while i < places.len() && i < exists.len()
            invariant
                i <= places@.len(),
                i <= exists@.len(),
                all == places.deep_view(),
                first_existing(all, exists@) == first_existing(
                    all.skip(i as int),
                    exists@.skip(i as int),
                ),
            decreases places@.len() - i,
        {
            proof {
                assert(all.skip(i as int)[0] == places@[i as int]@);
                assert(exists@.skip(i as int)[0] == exists@[i as int]);
                assert(all.skip(i as int).skip(1) =~= all.skip(i + 1));
                assert(exists@.skip(i as int).skip(1) =~= exists@.skip(i + 1));
            }
            if exists[i] {
                return Ok(places[i].clone());
            }
            i += 1;
        }
        Err(PartsError::MissingPart { name: copy_text(raw) })
    }

    /// Joins the contents of raw parts, which take no placeholder
    /// substitution. At least one part must be named.
    pub fn assemble_parts(&self, part_names: &[String], contents: &[String]) -> (outcome: Result<
        String,
        PartsError,
    >)
        ensures
            part_names@.len() == 0 ==> outcome == Err::<String, PartsError>(PartsError::NoParts),
            part_names@.len() > 0 ==> outcome is Ok && outcome->Ok_0@ == concatenation(
                contents.deep_view(),
            ),
    {
        if part_names.len() == 0 {
            return Err(PartsError::NoParts);
        }
        let mut output = String::new();
        let mut i: usize = 0;
        let ghost all = contents.deep_view();
        assert(all.take(0) =~= Seq::<Seq<char>>::empty());
        while i < contents.len()
            invariant
                i <= contents@.len(),
                all == contents.deep_view(),
                output@ == concatenation(all.take(i as int)),
            decreases contents@.len() - i,
        {
            proof {
                assert(all.take(i + 1).drop_last() =~= all.take(i as int));
                assert(all.take(i + 1).last() == contents@[i as int]@);
            }
            output.append(contents[i].as_str());
            i += 1;
        }
        assert(all.take(i as int) =~= all);
        Ok(output)
    }
}

/// A template prompt is not rendered without a data file: whatever else
/// holds of it, the call is refused, and the refusal is decided on the
/// registry alone.
pub proof fn lemma_template_needs_data(prompts: Seq<(Seq<char>, PromptSpecView)>, name: Seq<char>)
    requires
        lookup(prompts, name) matches Some(spec) && spec.kind is Template,
    ensures
        render_plan(prompts, name, None) == Err::<RenderPlanView, RenderErrorView>(
            RenderErrorView::DataRequired { name },
        ),
{
}

/// Looking a name up among the views of the entries gives the view of what
/// looking it up among the entries gives.
pub proof fn lemma_lookup_view(entries: Seq<(Seq<char>, PromptSpec)>, name: Seq<char>)
    ensures
        lookup(crate::registry::entries_view(entries), name) == match lookup(entries, name) {
            Some(spec) => Some(spec@),
            None => None,
        },
{
    lemma_position_in_view(entries, name);
    lemma_position_of(entries, name);
}

} // verus!
