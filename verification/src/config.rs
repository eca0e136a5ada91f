//! Merging configuration files into one registry.
//!
//! A load folds the base file and then the override files, in the order of
//! their paths, into a registry and two lists of issues. [`load_outcome`] is
//! what the load returns; [`with_file`] and [`with_prompt`] are its steps.
//! Nothing is read here: a file comes as a [`ConfigFile`], parsed or with the
//! reason why it could not be.

use vstd::prelude::*;
use vstd::string::StringExecFns;
use indexmap::IndexMap;
use std::time::SystemTime;
use crate::builder::build_prompt_spec;
use crate::builder::invalid_prompt;
use crate::builder::override_resolution;
use crate::builder::prompt_outcome;
use crate::issue::ConfigDiagnostics;
use crate::issue::ConfigDiagnosticsView;
use crate::issue::ConfigIssue;
use crate::issue::ConfigIssueCode;
use crate::issue::ConfigIssueView;
use crate::issue::LoadConfigError;
use crate::issue::LoadConfigErrorView;
use crate::model::PromptSource;
use crate::model::PromptSourceView;
use crate::model::PromptSpec;
use crate::model::PromptSpecView;
use crate::path::join_path;
use crate::path::joined_path;
use crate::path::resolve_path;
use crate::path::resolved_path;
use crate::path::HomeDirectory;
use crate::path::HomeDirectoryView;
use crate::path::ResolutionError;
use crate::raw::RawFile;
use crate::raw::RawFileView;
use crate::raw::RawPrompt;
use crate::raw::RawPromptView;
use crate::registry::empty_registry;
use crate::registry::insert_prompt;
use crate::registry::inserted;
use crate::registry::lemma_inserted_view;
use crate::registry::lookup;
use crate::registry::registry_entries;
use crate::registry::registry_view;
use crate::text::ascending;
use crate::text::copy_text;
use crate::text::lemma_bytes_le_total;
use crate::text::lemma_bytes_le_transitive;
use crate::text::text_le;
use crate::text::text_precedes;
use vstd::utf8::encode_utf8;

verus! {

/// What reading and parsing one configuration file gave.
#[derive(Debug, Clone, PartialEq, Eq)]
pub enum FileContent {
    /// The file could not be read; `source` says why.
    Unreadable { source: String },
    /// The file was read and is no valid configuration; `message` is the
    /// parser's report.
    Malformed { message: String },
    /// The file's definitions.
    Parsed(RawFile),
}

pub enum FileContentView {
    Unreadable { source: Seq<char> },
    Malformed { message: Seq<char> },
    Parsed(RawFileView),
}

impl View for FileContent {
    type V = FileContentView;

    open spec fn view(&self) -> FileContentView {
        match self {
            FileContent::Unreadable { source } => FileContentView::Unreadable { source: source@ },
            FileContent::Malformed { message } => FileContentView::Malformed { message: message@ },
            FileContent::Parsed(raw) => FileContentView::Parsed(raw@),
        }
    }
}

/// One configuration file as the load sees it.
#[derive(Debug, Clone)]
pub struct ConfigFile {
    pub path: String,
    pub last_modified: Option<SystemTime>,
    pub content: FileContent,
}

pub struct ConfigFileView {
    pub path: Seq<char>,
    pub last_modified: Option<SystemTime>,
    pub content: FileContentView,
}

impl View for ConfigFile {
    type V = ConfigFileView;

    open spec fn view(&self) -> ConfigFileView {
        ConfigFileView {
            path: self.path@,
            last_modified: self.last_modified,
            content: self.content@,
        }
    }
}

impl DeepView for ConfigFile {
    type V = ConfigFileView;

    open spec fn deep_view(&self) -> ConfigFileView {
        self@
    }
}

/// The override files of a configuration directory.
#[derive(Debug, Clone)]
pub enum OverrideFiles {
    /// The directory of override files does not exist.
    Absent,
    /// The directory could not be listed; `source` says why.
    Unreadable { source: String },
    /// The issues met while listing the directory, and its configuration
    /// files.
    Listed { issues: Vec<ConfigIssue>, files: Vec<ConfigFile> },
}

pub enum OverrideFilesView {
    Absent,
    Unreadable { source: Seq<char> },
    Listed { issues: Seq<ConfigIssueView>, files: Seq<ConfigFileView> },
}

impl View for OverrideFiles {
    type V = OverrideFilesView;

    open spec fn view(&self) -> OverrideFilesView {
        match self {
            OverrideFiles::Absent => OverrideFilesView::Absent,
            OverrideFiles::Unreadable { source } => OverrideFilesView::Unreadable {
                source: source@,
            },
            OverrideFiles::Listed { issues, files } => OverrideFilesView::Listed {
                issues: issues.deep_view(),
                files: files.deep_view(),
            },
        }
    }
}

/// A loaded configuration.
#[derive(Debug, Clone)]
pub struct Config {
    pub root: String,
    pub default_prompt_path: Option<String>,
    pub prompts: IndexMap<String, PromptSpec>,
}

pub struct ConfigView {
    pub root: Seq<char>,
    pub default_prompt_path: Option<Seq<char>>,
    pub prompts: Seq<(Seq<char>, PromptSpecView)>,
}

impl View for Config {
    type V = ConfigView;

    open spec fn view(&self) -> ConfigView {
        ConfigView {
            root: self.root@,
            default_prompt_path: self.default_prompt_path.deep_view(),
            prompts: registry_view(self.prompts),
        }
    }
}

/// A successful load: the configuration and the warnings met on the way.
#[derive(Debug, Clone)]
pub struct ConfigLoad {
    pub config: Config,
    pub warnings: Vec<ConfigIssue>,
}

pub struct ConfigLoadView {
    pub config: ConfigView,
    pub warnings: Seq<ConfigIssueView>,
}

impl View for ConfigLoad {
    type V = ConfigLoadView;

    open spec fn view(&self) -> ConfigLoadView {
        ConfigLoadView { config: self.config@, warnings: self.warnings.deep_view() }
    }
}

/// The paths of `files`, in their order.
pub open spec fn file_paths(files: Seq<ConfigFileView>) -> Seq<Seq<char>> {
    Seq::new(files.len(), |i: int| files[i].path)
}

/// The place at which a file with the path `path` is put among files whose
/// paths are `paths`: behind the last file whose path does not come after
/// `path`.
pub open spec fn insertion_place(paths: Seq<Seq<char>>, path: Seq<char>) -> int
    decreases paths.len(),
{
    if paths.len() == 0 {
        0
    } else if text_le(paths.last(), path) {
        paths.len() as int
    } else {
        insertion_place(paths.drop_last(), path)
    }
}

/// `files` in the order in which override files apply: ascending by path,
/// as strings compare; files of one path keep their order.
pub open spec fn in_path_order(files: Seq<ConfigFileView>) -> Seq<ConfigFileView>
    decreases files.len(),
{
    if files.len() == 0 {
        Seq::empty()
    } else {
        let earlier = in_path_order(files.drop_last());
        earlier.insert(insertion_place(file_paths(earlier), files.last().path), files.last())
    }
}

/// The state of a load between two files.
pub struct MergeView {
    pub prompts: Seq<(Seq<char>, PromptSpecView)>,
    pub default_prompt_path: Option<Seq<char>>,
    pub warnings: Seq<ConfigIssueView>,
    pub errors: Seq<ConfigIssueView>,
}

/// The state that the four accumulators of a load stand for.
pub open spec fn merge_view(
    prompts: IndexMap<String, PromptSpec>,
    default_prompt_path: Option<String>,
    warnings: Vec<ConfigIssue>,
    errors: Vec<ConfigIssue>,
) -> MergeView {
    MergeView {
        prompts: registry_view(prompts),
        default_prompt_path: default_prompt_path.deep_view(),
        warnings: warnings.deep_view(),
        errors: errors.deep_view(),
    }
}

/// The state in which a load starts: no prompt, `root` as default directory.
pub open spec fn initial_state(root: Seq<char>) -> MergeView {
    MergeView {
        prompts: Seq::empty(),
        default_prompt_path: Some(root),
        warnings: Seq::empty(),
        errors: Seq::empty(),
    }
}

/// The warning for a definition in the file `path` that replaces the one
/// from the file `earlier`.
pub open spec fn override_warning(path: Seq<char>, name: Seq<char>, earlier: Seq<char>) -> ConfigIssueView {
    ConfigIssueView {
        code: ConfigIssueCode::Override,
        message: "prompt '"@ + name + "' overrides definition from "@ + earlier,
        path,
        line: None,
    }
}

/// The issue for a file that is no valid configuration.
pub open spec fn parse_error(path: Seq<char>, message: Seq<char>) -> ConfigIssueView {
    ConfigIssueView { code: ConfigIssueCode::ParseError, message, path, line: None }
}

/// The issue for a file whose top-level `prompt_path` cannot be resolved.
pub open spec fn unresolved_path(
    path: Seq<char>,
    prompt_path: Seq<char>,
    error: ResolutionError,
) -> ConfigIssueView {
    invalid_prompt(path, "invalid prompt_path '"@ + prompt_path + "': "@ + error.reason())
}

/// The state after the definition `raw` of `name`, found in `source`.
///
/// A valid definition enters the registry, with a warning where it replaces
/// an earlier one; an invalid one adds its issue to the errors and leaves the
/// registry as it was.
pub open spec fn with_prompt(
    state: MergeView,
    root: Seq<char>,
    home: HomeDirectoryView,
    source: PromptSourceView,
    name: Seq<char>,
    raw: RawPromptView,
) -> MergeView {
    match prompt_outcome(
        name,
        raw,
        source,
        state.default_prompt_path,
        override_resolution(root, raw.prompt_path, home),
    ) {
        Ok(spec) => MergeView {
            prompts: inserted(state.prompts, name, spec),
            warnings: match lookup(state.prompts, name) {
                Some(previous) => state.warnings.push(
                    override_warning(source.path, name, previous.metadata.source.path),
                ),
                None => state.warnings,
            },
            ..state
        },
        Err(issue) => MergeView { errors: state.errors.push(issue), ..state },
    }
}

/// The state after the definitions of one file, in the file's order.
pub open spec fn with_prompts(
    state: MergeView,
    root: Seq<char>,
    home: HomeDirectoryView,
    source: PromptSourceView,
    definitions: Seq<(Seq<char>, RawPromptView)>,
) -> MergeView
    decreases definitions.len(),
{
    if definitions.len() == 0 {
        state
    } else {
        with_prompt(
            with_prompts(state, root, home, source, definitions.drop_last()),
            root,
            home,
            source,
            definitions.last().0,
            definitions.last().1,
        )
    }
}

/// The state in which the definitions of a file are folded in: that before
/// the file, with the file's `prompt_path` as default directory where it has
/// one that resolves. A `prompt_path` that does not resolve adds one
/// `invalid_prompt` and leaves the default directory as it was.
pub open spec fn with_default(
    state: MergeView,
    root: Seq<char>,
    home: HomeDirectoryView,
    path: Seq<char>,
    prompt_path: Option<Seq<char>>,
) -> MergeView {
    match prompt_path {
        None => state,
        Some(prompt_path) => match resolved_path(root, prompt_path, home) {
            Ok(directory) => MergeView { default_prompt_path: Some(directory), ..state },
            Err(error) => MergeView {
                errors: state.errors.push(unresolved_path(path, prompt_path, error)),
                ..state
            },
        },
    }
}

/// The state after one file, or the error that ends the load.
///
/// An unreadable file ends the load. A malformed file adds one
/// `parse_error`. Of a parsed file the `prompt_path` comes first, then its
/// definitions in their order, each of them checked whatever became of the
/// `prompt_path` and of the definitions before it.
pub open spec fn with_file(
    state: MergeView,
    root: Seq<char>,
    home: HomeDirectoryView,
    file: ConfigFileView,
) -> Result<MergeView, LoadConfigErrorView> {
    match file.content {
        FileContentView::Unreadable { source } => Err(
            LoadConfigErrorView::Io { path: file.path, source },
        ),
        FileContentView::Malformed { message } => Ok(
            MergeView { errors: state.errors.push(parse_error(file.path, message)), ..state },
        ),
        FileContentView::Parsed(raw) => {
            let source = PromptSourceView { path: file.path, last_modified: file.last_modified };
            Ok(
                with_prompts(
                    with_default(state, root, home, file.path, raw.prompt_path),
                    root,
                    home,
                    source,
                    raw.prompt,
                ),
            )
        },
    }
}

/// The state after the files, in order, or the error of the first file that
/// ends the load.
pub open spec fn with_files(
    state: MergeView,
    root: Seq<char>,
    home: HomeDirectoryView,
    files: Seq<ConfigFileView>,
) -> Result<MergeView, LoadConfigErrorView>
    decreases files.len(),
{
    if files.len() == 0 {
        Ok(state)
    } else {
        match with_files(state, root, home, files.drop_last()) {
            Ok(earlier) => with_file(earlier, root, home, files.last()),
            Err(error) => Err(error),
        }
    }
}

/// What a load returns once every file is folded in: the configuration if
/// there is no error, else every issue found.
pub open spec fn concluded(root: Seq<char>, state: MergeView) -> Result<
    ConfigLoadView,
    LoadConfigErrorView,
> {
    if state.errors.len() == 0 {
        Ok(
            ConfigLoadView {
                config: ConfigView {
                    root,
                    default_prompt_path: state.default_prompt_path,
                    prompts: state.prompts,
                },
                warnings: state.warnings,
            },
        )
    } else {
        Err(
            LoadConfigErrorView::Invalid {
                diagnostics: ConfigDiagnosticsView {
                    errors: state.errors,
                    warnings: state.warnings,
                },
            },
        )
    }
}

/// The base file as a sequence of none or one file.
pub open spec fn base_files(base: Option<ConfigFileView>) -> Seq<ConfigFileView> {
    match base {
        Some(file) => seq![file],
        None => Seq::empty(),
    }
}

/// The name of the base file under the configuration root.
pub open spec fn base_file_name() -> Seq<char> {
    "config.toml"@
}

/// The name of the directory of override files under the configuration root.
pub open spec fn override_directory_name() -> Seq<char> {
    "conf.d"@
}

/// What loading `base` and then `overrides` under `root` returns.
pub open spec fn load_outcome(
    root: Seq<char>,
    home: HomeDirectoryView,
    base: Option<ConfigFileView>,
    overrides: OverrideFilesView,
) -> Result<ConfigLoadView, LoadConfigErrorView> {
    match with_files(initial_state(root), root, home, base_files(base)) {
        Err(error) => Err(error),
        Ok(after_base) => match overrides {
            OverrideFilesView::Absent => concluded(root, after_base),
            OverrideFilesView::Unreadable { source } => Err(
                LoadConfigErrorView::ReadDir {
                    path: joined_path(root, override_directory_name()),
                    source,
                },
            ),
            OverrideFilesView::Listed { issues, files } => match with_files(
                MergeView { errors: after_base.errors + issues, ..after_base },
                root,
                home,
                in_path_order(files),
            ) {
                Err(error) => Err(error),
                Ok(after_all) => concluded(root, after_all),
            },
        },
    }
}

/// The view of what a load returns.
pub open spec fn load_view(outcome: Result<ConfigLoad, LoadConfigError>) -> Result<
    ConfigLoadView,
    LoadConfigErrorView,
> {
    match outcome {
        Ok(load) => Ok(load@),
        Err(error) => Err(error@),
    }
}

/// The path of the base file of the configuration directory `root`.
pub fn base_config_path(root: &str) -> (path: String)
    ensures
        path@ == joined_path(root@, base_file_name()),
{
    join_path(root, "config.toml")
}

/// The path of the directory of override files under `root`.
pub fn override_directory(root: &str) -> (path: String)
    ensures
        path@ == joined_path(root@, override_directory_name()),
{
    join_path(root, "conf.d")
}

/// Folds one definition into the accumulators of a load.
pub fn register_prompt(
    root: &str,
    home: &HomeDirectory,
    source: &PromptSource,
    name: String,
    prompt: RawPrompt,
    prompts: &mut IndexMap<String, PromptSpec>,
    default_prompt_path: &Option<String>,
    warnings: &mut Vec<ConfigIssue>,
    errors: &mut Vec<ConfigIssue>,
)
    ensures
        merge_view(*final(prompts), *default_prompt_path, *final(warnings), *final(errors))
            == with_prompt(
            merge_view(*old(prompts), *default_prompt_path, *old(warnings), *old(errors)),
            root@,
            home@,
            source@,
            name@,
            prompt@,
        ),
{
    let ghost entries = registry_entries(*prompts);
    let ghost warned = warnings.deep_view();
    let ghost failed = errors.deep_view();
    match build_prompt_spec(root, home, default_prompt_path, name.as_str(), prompt, source) {
        Ok(spec) => {
            proof {
                lemma_inserted_view(entries, name@, spec);
            }
            let mut message = String::from_str("prompt '");
            message.append(name.as_str());
            message.append("' overrides definition from ");
            match insert_prompt(prompts, name, spec) {
                Some(previous) => {
                    message.append(previous.metadata.source.path.as_str());
                    warnings.push(
                        ConfigIssue::new(
                            ConfigIssueCode::Override,
                            source.path.clone(),
                            None,
                            message,
                        ),
                    );
                    assert(warnings.deep_view() =~= warned.push(warnings@[warned.len() as int]@));
                },
                None => {},
            }
        },
        Err(issue) => {
            errors.push(issue);
            assert(errors.deep_view() =~= failed.push(issue@));
        },
    }
}

/// Folds one file into the accumulators of a load.
///
/// An unreadable file is the one failure; the accumulators then keep their
/// values.
pub fn process_config_file(
    root: &str,
    home: &HomeDirectory,
    file: ConfigFile,
    prompts: &mut IndexMap<String, PromptSpec>,
    default_prompt_path: &mut Option<String>,
    warnings: &mut Vec<ConfigIssue>,
    errors: &mut Vec<ConfigIssue>,
) -> (outcome: Result<(), LoadConfigError>)
    ensures
        match with_file(
            merge_view(*old(prompts), *old(default_prompt_path), *old(warnings), *old(errors)),
            root@,
            home@,
            file@,
        ) {
            Ok(after) => outcome is Ok && merge_view(
                *final(prompts),
                *final(default_prompt_path),
                *final(warnings),
                *final(errors),
            ) == after,
            Err(error) => outcome is Err && outcome->Err_0@ == error && merge_view(
                *final(prompts),
                *final(default_prompt_path),
                *final(warnings),
                *final(errors),
            ) == merge_view(
                *old(prompts),
                *old(default_prompt_path),
                *old(warnings),
                *old(errors),
            ),
        },
{
    let ghost failed = errors.deep_view();
    let ConfigFile { path, last_modified, content } = file;
    let raw = match content {
        FileContent::Unreadable { source } => {
            return Err(LoadConfigError::Io { path, source });
        },
        FileContent::Malformed { message } => {
            let issue = ConfigIssue::new(ConfigIssueCode::ParseError, path, None, message);
            errors.push(issue);
            assert(errors.deep_view() =~= failed.push(issue@));
            return Ok(());
        },
        FileContent::Parsed(raw) => raw,
    };
    let RawFile { prompt_path, prompt } = raw;
    match prompt_path {
        Some(path_text) => {
            match resolve_path(root, path_text.as_str(), home) {
                Ok(resolved) => {
                    *default_prompt_path = Some(resolved);
                },
                Err(error) => {
                    let mut message = String::from_str("invalid prompt_path '");
                    message.append(path_text.as_str());
                    message.append("': ");
                    let reason = error.message();
                    message.append(reason.as_str());
                    let issue = ConfigIssue::new(
                        ConfigIssueCode::InvalidPrompt,
                        path.clone(),
                        None,
                        message,
                    );
                    errors.push(issue);
                    assert(errors.deep_view() =~= failed.push(issue@));
                },
            }
        },
        None => {},
    }
    let source = PromptSource { path, last_modified };
    let ghost definitions = prompt.deep_view();
    let ghost items = prompt@;
    let ghost start = merge_view(*prompts, *default_prompt_path, *warnings, *errors);
    assert(definitions.take(0) =~= Seq::<(Seq<char>, RawPromptView)>::empty());
    for entry in it: prompt
        invariant
            it.seq() == items,
            definitions.len() == items.len(),
            forall|k: int| 0 <= k < items.len() ==> definitions[k] == (#[trigger] items[k]).deep_view(),
            merge_view(*prompts, *default_prompt_path, *warnings, *errors) == with_prompts(
                start,
                root@,
                home@,
                source@,
                definitions.take(it.index() as int),
            ),
    {
        let (name, definition) = entry;
        proof {
            let next = definitions.take(it.index() + 1);
            assert(next.drop_last() =~= definitions.take(it.index() as int));
            assert(next.last() == (name@, definition@));
        }
        register_prompt(
            root,
            home,
            &source,
            name,
            definition,
            prompts,
            default_prompt_path,
            warnings,
            errors,
        );
    }
    assert(definitions.take(items.len() as int) =~= definitions);
    Ok(())
}

proof fn lemma_error_stops_files(
    state: MergeView,
    root: Seq<char>,
    home: HomeDirectoryView,
    files: Seq<ConfigFileView>,
    upto: int,
)
    requires
        0 <= upto <= files.len(),
        with_files(state, root, home, files.take(upto)) is Err,
    ensures
        with_files(state, root, home, files) == with_files(state, root, home, files.take(upto)),
    decreases files.len() - upto,
{
    if upto < files.len() {
        assert(files.take(upto + 1).drop_last() =~= files.take(upto));
        lemma_error_stops_files(state, root, home, files, upto + 1);
    } else {
        assert(files.take(upto) =~= files);
    }
}

/// Folds `files`, in order, into the accumulators of a load, up to the first
/// unreadable file. Where there is one, the accumulators hold what the files
/// before it have left.
pub fn process_config_files(
    root: &str,
    home: &HomeDirectory,
    files: Vec<ConfigFile>,
    prompts: &mut IndexMap<String, PromptSpec>,
    default_prompt_path: &mut Option<String>,
    warnings: &mut Vec<ConfigIssue>,
    errors: &mut Vec<ConfigIssue>,
) -> (outcome: Result<(), LoadConfigError>)
    ensures
        match with_files(
            merge_view(*old(prompts), *old(default_prompt_path), *old(warnings), *old(errors)),
            root@,
            home@,
            files.deep_view(),
        ) {
            Ok(after) => outcome is Ok && merge_view(
                *final(prompts),
                *final(default_prompt_path),
                *final(warnings),
                *final(errors),
            ) == after,
            Err(error) => outcome is Err && outcome->Err_0@ == error && exists|done: int|
                0 <= done < files@.len() && #[trigger] with_files(
                    merge_view(
                        *old(prompts),
                        *old(default_prompt_path),
                        *old(warnings),
                        *old(errors),
                    ),
                    root@,
                    home@,
                    files.deep_view().take(done),
                ) == Ok::<MergeView, LoadConfigErrorView>(
                    merge_view(
                        *final(prompts),
                        *final(default_prompt_path),
                        *final(warnings),
                        *final(errors),
                    ),
                ),
        },
{
    let ghost all = files.deep_view();
    let ghost items = files@;
    let ghost start = merge_view(*prompts, *default_prompt_path, *warnings, *errors);
    assert(all.take(0) =~= Seq::<ConfigFileView>::empty());
    for file in it: files
        invariant
            it.seq() == items,
            all == files.deep_view(),
            start == merge_view(
                *old(prompts),
                *old(default_prompt_path),
                *old(warnings),
                *old(errors),
            ),
            all.len() == items.len(),
            forall|k: int| 0 <= k < items.len() ==> all[k] == (#[trigger] items[k])@,
            with_files(start, root@, home@, all.take(it.index() as int)) == Ok::<
                MergeView,
                LoadConfigErrorView,
            >(merge_view(*prompts, *default_prompt_path, *warnings, *errors)),
    {
        proof {
            let next = all.take(it.index() + 1);
            assert(next.drop_last() =~= all.take(it.index() as int));
            assert(next.last() == file@);
        }
        match process_config_file(root, home, file, prompts, default_prompt_path, warnings, errors) {
            Ok(()) => {},
            Err(error) => {
                proof {
                    lemma_error_stops_files(start, root@, home@, all, it.index() + 1);
                }
                return Err(error);
            },
        }
    }
    assert(all.take(items.len() as int) =~= all);
    Ok(())
}

/// Where [`insertion_place`] puts a file: every file from there on comes
/// after it, and the file before that place does not.
pub proof fn lemma_insertion_place(paths: Seq<Seq<char>>, path: Seq<char>)
    ensures
        0 <= insertion_place(paths, path) <= paths.len(),
        insertion_place(paths, path) > 0 ==> text_le(
            paths[insertion_place(paths, path) - 1],
            path,
        ),
        forall|k: int|
            insertion_place(paths, path) <= k < paths.len() ==> !text_le(#[trigger] paths[k], path),
    decreases paths.len(),
{
    if paths.len() > 0 && !text_le(paths.last(), path) {
        let shorter = paths.drop_last();
        lemma_insertion_place(shorter, path);
        let place = insertion_place(shorter, path);
        if place > 0 {
            assert(shorter[place - 1] == paths[place - 1]);
        }
        assert forall|k: int| place <= k < paths.len() implies !text_le(
            #[trigger] paths[k],
            path,
        ) by {
            if k < shorter.len() {
                assert(shorter[k] == paths[k]);
            }
        }
    }
}

/// The place behind which no path comes before or at `path`, and in front
/// of which the last path does, is the insertion place.
proof fn lemma_insertion_place_is(paths: Seq<Seq<char>>, path: Seq<char>, place: int)
    requires
        0 <= place <= paths.len(),
        place > 0 ==> text_le(paths[place - 1], path),
        forall|k: int| place <= k < paths.len() ==> !text_le(#[trigger] paths[k], path),
    ensures
        insertion_place(paths, path) == place,
    decreases paths.len(),
{
    if paths.len() > 0 {
        if place == paths.len() {
            assert(text_le(paths.last(), path));
        } else {
            assert(!text_le(paths[paths.len() - 1], path));
            let shorter = paths.drop_last();
            if place > 0 {
                assert(shorter[place - 1] == paths[place - 1]);
            }
            assert forall|k: int| place <= k < shorter.len() implies !text_le(
                #[trigger] shorter[k],
                path,
            ) by {
                assert(shorter[k] == paths[k]);
            }
            lemma_insertion_place_is(shorter, path, place);
        }
    }
}

/// [`in_path_order`] sorts: its paths ascend, and it holds the files it was
/// given, each as often as it was given.
pub proof fn lemma_path_order(files: Seq<ConfigFileView>)
    ensures
        ascending(file_paths(in_path_order(files))),
        in_path_order(files).len() == files.len(),
        in_path_order(files).to_multiset() == files.to_multiset(),
    decreases files.len(),
{
    if files.len() > 0 {
        let front = files.drop_last();
        let file = files.last();
        let earlier = in_path_order(front);
        let paths = file_paths(earlier);
        let place = insertion_place(paths, file.path);
        let sorted = in_path_order(files);
        lemma_path_order(front);
        lemma_insertion_place(paths, file.path);
        let after = file_paths(sorted);
        assert forall|a: int, b: int| 0 <= a < b < after.len() implies text_le(
            after[a],
            after[b],
        ) by {
            if b < place {
                assert(after[a] == paths[a] && after[b] == paths[b]);
            } else if b == place {
                assert(after[a] == paths[a]);
                if a < place - 1 {
                    assert(text_le(paths[a], paths[place - 1]));
                    lemma_bytes_le_transitive(
                        encode_utf8(paths[a]),
                        encode_utf8(paths[place - 1]),
                        encode_utf8(file.path),
                    );
                }
            } else if a == place {
                assert(after[b] == paths[b - 1]);
                assert(!text_le(paths[b - 1], file.path));
                lemma_bytes_le_total(encode_utf8(paths[b - 1]), encode_utf8(file.path));
            } else if a < place {
                assert(after[a] == paths[a] && after[b] == paths[b - 1]);
                assert(text_le(paths[a], paths[b - 1]));
            } else {
                assert(after[a] == paths[a - 1] && after[b] == paths[b - 1]);
                assert(text_le(paths[a - 1], paths[b - 1]));
            }
        }
        assert(sorted.remove(place) =~= earlier);
        sorted.to_multiset_ensures();
        front.to_multiset_ensures();
        assert(files =~= front.push(file));
        assert(sorted[place] == file);
        assert(sorted.contains(file));
        assert(sorted.to_multiset() =~= earlier.to_multiset().insert(file));
    } else {
        assert(files =~= Seq::<ConfigFileView>::empty());
    }
}

/// Puts override files in the order in which they apply.
pub fn sort_files(files: Vec<ConfigFile>) -> (sorted: Vec<ConfigFile>)
    ensures
        sorted.deep_view() == in_path_order(files.deep_view()),
{
    let mut sorted: Vec<ConfigFile> = Vec::new();
    let ghost all = files.deep_view();
    let ghost items = files@;
    proof {
        assert(all.take(0) =~= Seq::<ConfigFileView>::empty());
        assert(sorted.deep_view() =~= Seq::<ConfigFileView>::empty());
    }
    for file in it: files
        invariant
            it.seq() == items,
            all.len() == items.len(),
            forall|k: int| 0 <= k < items.len() ==> all[k] == (#[trigger] items[k])@,
            sorted.deep_view() == in_path_order(all.take(it.index() as int)),
    {
        let ghost before = sorted.deep_view();
        let ghost paths = file_paths(before);
        let mut place = sorted.len();
        while place > 0 && !text_precedes(sorted[place - 1].path.as_str(), file.path.as_str())
            invariant
                place <= sorted@.len(),
                before == sorted.deep_view(),
                paths == file_paths(before),
                forall|k: int| place <= k < paths.len() ==> !text_le(#[trigger] paths[k], file.path@),
            decreases place,
        {
            assert(paths[place - 1] == sorted@[place - 1].path@);
            place -= 1;
        }
        proof {
            if place > 0 {
                assert(paths[place - 1] == sorted@[place - 1].path@);
            }
            lemma_insertion_place_is(paths, file.path@, place as int);
            let next = all.take(it.index() + 1);
            assert(next.drop_last() =~= all.take(it.index() as int));
            assert(next.last() == file@);
        }
        sorted.insert(place, file);
        assert(sorted.deep_view() =~= before.insert(place as int, file@));
    }
    assert(all.take(items.len() as int) =~= all);
    assert(all =~= files.deep_view());
    sorted
}

/// Loads a configuration from files that were read and parsed already,
/// with `home` as the user's home directory.
///
/// `base` is the base file, if the directory has one; `overrides` stands for
/// the directory of override files, whose files apply in the order of their
/// paths, in whatever order they are given.
pub fn load_config_in(
    root: &str,
    home: &HomeDirectory,
    base: Option<ConfigFile>,
    overrides: OverrideFiles,
) -> (outcome: Result<ConfigLoad, LoadConfigError>)
    ensures
        load_view(outcome) == load_outcome(root@, home@, base.deep_view(), overrides@),
{
    let mut prompts = empty_registry();
    let mut default_prompt_path: Option<String> = Some(copy_text(root));
    let mut warnings: Vec<ConfigIssue> = Vec::new();
    let mut errors: Vec<ConfigIssue> = Vec::new();
    proof {
        assert(registry_view(prompts) =~= Seq::<(Seq<char>, PromptSpecView)>::empty());
        assert(warnings.deep_view() =~= Seq::<ConfigIssueView>::empty());
        assert(errors.deep_view() =~= Seq::<ConfigIssueView>::empty());
    }
    let ghost start = initial_state(root@);
    assert(merge_view(prompts, default_prompt_path, warnings, errors) == start);
    match base {
        Some(file) => {
            proof {
                let files = seq![file@];
                assert(files.drop_last() =~= Seq::<ConfigFileView>::empty());
                assert(files.last() == file@);
                assert(base_files(base.deep_view()) == files);
                assert(with_files(start, root@, home@, files.drop_last()) == Ok::<
                    MergeView,
                    LoadConfigErrorView,
                >(start));
                assert(with_files(start, root@, home@, files) == with_file(
                    start,
                    root@,
                    home@,
                    file@,
                ));
            }
            match process_config_file(
                root,
                home,
                file,
                &mut prompts,
                &mut default_prompt_path,
                &mut warnings,
                &mut errors,
            ) {
                Ok(()) => {},
                Err(error) => {
                    return Err(error);
                },
            }
        },
        None => {},
    }
    let ghost after_base = merge_view(prompts, default_prompt_path, warnings, errors);
    assert(with_files(start, root@, home@, base_files(base.deep_view())) == Ok::<
        MergeView,
        LoadConfigErrorView,
    >(after_base));
    match overrides {
        OverrideFiles::Absent => {},
        OverrideFiles::Unreadable { source } => {
            return Err(LoadConfigError::ReadDir { path: override_directory(root), source });
        },
        OverrideFiles::Listed { issues, files } => {
            let mut issues = issues;
            let ghost listed = issues.deep_view();
            let ghost failed = errors.deep_view();
            errors.append(&mut issues);
            assert(errors.deep_view() =~= failed + listed);
            match process_config_files(
                root,
                home,
                sort_files(files),
                &mut prompts,
                &mut default_prompt_path,
                &mut warnings,
                &mut errors,
            ) {
                Ok(()) => {},
                Err(error) => {
                    return Err(error);
                },
            }
        },
    }
    if errors.len() == 0 {
        Ok(
            ConfigLoad {
                config: Config { root: copy_text(root), default_prompt_path, prompts },
                warnings,
            },
        )
    } else {
        Err(LoadConfigError::Invalid { diagnostics: ConfigDiagnostics { errors, warnings } })
    }
}

/// Loads a configuration from files that were read and parsed already.
///
/// The user's home directory is asked of the system once; the load is that
/// of [`load_config_in`] for whatever the system answers.
pub fn load_config(root: &str, base: Option<ConfigFile>, overrides: OverrideFiles) -> (outcome:
    Result<ConfigLoad, LoadConfigError>)
    ensures
        exists|home: HomeDirectoryView|
            load_view(outcome) == #[trigger] load_outcome(
                root@,
                home,
                base.deep_view(),
                overrides@,
            ),
{
    let home = HomeDirectory::current();
    load_config_in(root, &home, base, overrides)
}

} // verus!
