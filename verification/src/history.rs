//! What a load leaves in the registry and in the warnings, said in terms of
//! the definitions that the files hold.
//!
//! The load itself is a fold from the first file to the last. The theorems
//! here read it from the other end: a name has the entry of the last file
//! that defines it, and every definition after a name's first one is warned
//! of.

use vstd::prelude::*;
use crate::builder::override_resolution;
use crate::builder::prompt_outcome;
use crate::config::base_files;
use crate::config::in_path_order;
use crate::config::initial_state;
use crate::config::load_outcome;
use crate::config::override_warning;
use crate::config::with_default;
use crate::config::with_file;
use crate::config::with_files;
use crate::config::with_prompt;
use crate::config::with_prompts;
use crate::config::ConfigFileView;
use crate::config::FileContentView;
use crate::issue::LoadConfigErrorView;
use crate::config::MergeView;
use crate::config::OverrideFilesView;
use crate::issue::ConfigIssueCode;
use crate::issue::ConfigIssueView;
use crate::model::PromptSourceView;
use crate::model::PromptSpecView;
use crate::path::resolved_path;
use crate::path::HomeDirectoryView;
use crate::raw::RawPromptView;
use crate::registry::distinct_names;
use crate::registry::inserted;
use crate::registry::lemma_inserted_distinct;
use crate::registry::lemma_lookup_inserted;
use crate::registry::lookup;
use crate::text::text_le;

verus! {

/// Whether `longer` starts with `issues`.
pub open spec fn extends(longer: Seq<ConfigIssueView>, issues: Seq<ConfigIssueView>) -> bool {
    issues.len() <= longer.len() && forall|k: int|
        0 <= k < issues.len() ==> #[trigger] longer[k] == issues[k]
}

/// What the definition `raw` of `name` becomes in a file `source`, where
/// `inherited` is the default directory in force.
pub open spec fn definition_outcome(
    inherited: Option<Seq<char>>,
    root: Seq<char>,
    home: HomeDirectoryView,
    source: PromptSourceView,
    name: Seq<char>,
    raw: RawPromptView,
) -> Result<PromptSpecView, ConfigIssueView> {
    prompt_outcome(name, raw, source, inherited, override_resolution(root, raw.prompt_path, home))
}

/// The last definition of `name` among the definitions of one file.
pub open spec fn last_definition(definitions: Seq<(Seq<char>, RawPromptView)>, name: Seq<char>) -> Option<
    RawPromptView,
>
    decreases definitions.len(),
{
    if definitions.len() == 0 {
        None
    } else if definitions.last().0 == name {
        Some(definitions.last().1)
    } else {
        last_definition(definitions.drop_last(), name)
    }
}

/// How often the definitions of one file define `name`.
pub open spec fn times_in(definitions: Seq<(Seq<char>, RawPromptView)>, name: Seq<char>) -> nat
    decreases definitions.len(),
{
    if definitions.len() == 0 {
        0
    } else {
        times_in(definitions.drop_last(), name) + if definitions.last().0 == name {
            1nat
        } else {
            0nat
        }
    }
}

/// Whether `issue` warns that a definition of `name` replaced an earlier one.
pub open spec fn warns_of(issue: ConfigIssueView, name: Seq<char>) -> bool {
    exists|path: Seq<char>, earlier: Seq<char>|
        issue == #[trigger] override_warning(path, name, earlier)
}

/// Whether one of `warnings` warns that a definition of `name` replaced an
/// earlier one.
pub open spec fn warned(warnings: Seq<ConfigIssueView>, name: Seq<char>) -> bool {
    exists|k: int| 0 <= k < warnings.len() && warns_of(#[trigger] warnings[k], name)
}

/// Whether every warning from place `from` on is an `override`.
pub open spec fn overrides_from(warnings: Seq<ConfigIssueView>, from: int) -> bool {
    forall|k: int|
        from <= k < warnings.len() ==> (#[trigger] warnings[k]).code == ConfigIssueCode::Override
}

proof fn lemma_extends_transitive(
    a: Seq<ConfigIssueView>,
    b: Seq<ConfigIssueView>,
    c: Seq<ConfigIssueView>,
)
    requires
        extends(b, a),
        extends(c, b),
    ensures
        extends(c, a),
{
    assert forall|k: int| 0 <= k < a.len() implies #[trigger] c[k] == a[k] by {
        assert(b[k] == a[k]);
        assert(c[k] == b[k]);
    }
}

proof fn lemma_warned_extends(
    longer: Seq<ConfigIssueView>,
    warnings: Seq<ConfigIssueView>,
    name: Seq<char>,
)
    requires
        extends(longer, warnings),
        warned(warnings, name),
    ensures
        warned(longer, name),
{
    let k = choose|k: int| 0 <= k < warnings.len() && warns_of(#[trigger] warnings[k], name);
    assert(longer[k] == warnings[k]);
}

/// What one definition does to the state of a load.
pub proof fn lemma_definition_folded(
    state: MergeView,
    root: Seq<char>,
    home: HomeDirectoryView,
    source: PromptSourceView,
    name: Seq<char>,
    raw: RawPromptView,
)
    ensures
        ({
            let after = with_prompt(state, root, home, source, name, raw);
            &&& after.default_prompt_path == state.default_prompt_path
            &&& extends(after.errors, state.errors)
            &&& extends(after.warnings, state.warnings)
            &&& distinct_names(state.prompts) ==> distinct_names(after.prompts)
            &&& overrides_from(state.warnings, 0) ==> overrides_from(after.warnings, 0)
            &&& match definition_outcome(state.default_prompt_path, root, home, source, name, raw) {
                Ok(spec) => {
                    &&& after.errors == state.errors
                    &&& after.prompts == inserted(state.prompts, name, spec)
                    &&& after.warnings.len() + after.prompts.len() == state.warnings.len()
                        + state.prompts.len() + 1
                    &&& lookup(state.prompts, name) is Some ==> warned(after.warnings, name)
                },
                Err(issue) => {
                    &&& after.errors == state.errors.push(issue)
                    &&& after.prompts == state.prompts
                    &&& after.warnings == state.warnings
                },
            }
        }),
{
    let after = with_prompt(state, root, home, source, name, raw);
    match definition_outcome(state.default_prompt_path, root, home, source, name, raw) {
        Ok(spec) => {
            lemma_lookup_inserted(state.prompts, name, spec, name);
            if distinct_names(state.prompts) {
                lemma_inserted_distinct(state.prompts, name, spec);
            }
            match lookup(state.prompts, name) {
                Some(previous) => {
                    let warning = override_warning(
                        source.path,
                        name,
                        previous.metadata.source.path,
                    );
                    assert(after.warnings == state.warnings.push(warning));
                    assert(after.warnings[state.warnings.len() as int] == warning);
                    assert(warns_of(after.warnings[state.warnings.len() as int], name));
                },
                None => {},
            }
        },
        Err(issue) => {},
    }
}

/// What the definitions of one file do to the state of a load.
///
/// Where no definition fails, each of them is valid, `name` has the entry of
/// its last definition, and there is one warning for each definition that
/// did not add a name.
pub proof fn lemma_definitions_folded(
    state: MergeView,
    root: Seq<char>,
    home: HomeDirectoryView,
    source: PromptSourceView,
    definitions: Seq<(Seq<char>, RawPromptView)>,
    name: Seq<char>,
)
    ensures
        ({
            let after = with_prompts(state, root, home, source, definitions);
            let inherited = state.default_prompt_path;
            &&& after.default_prompt_path == inherited
            &&& extends(after.errors, state.errors)
            &&& extends(after.warnings, state.warnings)
            &&& distinct_names(state.prompts) ==> distinct_names(after.prompts)
            &&& overrides_from(state.warnings, 0) ==> overrides_from(after.warnings, 0)
            &&& after.errors.len() == state.errors.len() ==> {
                &&& forall|d: int|
                    0 <= d < definitions.len() ==> definition_outcome(
                        inherited,
                        root,
                        home,
                        source,
                        (#[trigger] definitions[d]).0,
                        definitions[d].1,
                    ) is Ok
                &&& lookup(after.prompts, name) == match last_definition(definitions, name) {
                    Some(raw) => Some(
                        definition_outcome(inherited, root, home, source, name, raw)->Ok_0,
                    ),
                    None => lookup(state.prompts, name),
                }
                &&& after.warnings.len() + after.prompts.len() == state.warnings.len()
                    + state.prompts.len() + definitions.len()
                &&& (lookup(state.prompts, name) is Some && times_in(definitions, name) >= 1)
                    || times_in(definitions, name) >= 2 ==> warned(after.warnings, name)
                &&& times_in(definitions, name) >= 1 ==> last_definition(definitions, name) is Some
            }
        }),
    decreases definitions.len(),
{
    if definitions.len() > 0 {
        let earlier = definitions.drop_last();
        let last = definitions.last();
        let mid = with_prompts(state, root, home, source, earlier);
        let after = with_prompts(state, root, home, source, definitions);
        lemma_definitions_folded(state, root, home, source, earlier, name);
        lemma_definition_folded(mid, root, home, source, last.0, last.1);
        lemma_extends_transitive(state.errors, mid.errors, after.errors);
        lemma_extends_transitive(state.warnings, mid.warnings, after.warnings);
        if after.errors.len() == state.errors.len() {
            let inherited = state.default_prompt_path;
            assert(mid.errors.len() == state.errors.len());
            let outcome = definition_outcome(inherited, root, home, source, last.0, last.1);
            assert(outcome is Ok);
            assert forall|d: int| 0 <= d < definitions.len() implies definition_outcome(
                inherited,
                root,
                home,
                source,
                (#[trigger] definitions[d]).0,
                definitions[d].1,
            ) is Ok by {
                if d < earlier.len() {
                    assert(earlier[d] == definitions[d]);
                }
            }
            lemma_lookup_inserted(mid.prompts, last.0, outcome->Ok_0, name);
            if warned(mid.warnings, name) {
                lemma_warned_extends(after.warnings, mid.warnings, name);
            }
        }
    }
}

/// A definition that is not valid leaves its issue among the errors.
pub proof fn lemma_invalid_definition_is_reported(
    state: MergeView,
    root: Seq<char>,
    home: HomeDirectoryView,
    source: PromptSourceView,
    definitions: Seq<(Seq<char>, RawPromptView)>,
    place: int,
)
    requires
        0 <= place < definitions.len(),
        definition_outcome(
            state.default_prompt_path,
            root,
            home,
            source,
            definitions[place].0,
            definitions[place].1,
        ) is Err,
    ensures
        with_prompts(state, root, home, source, definitions).errors.contains(
            definition_outcome(
                state.default_prompt_path,
                root,
                home,
                source,
                definitions[place].0,
                definitions[place].1,
            )->Err_0,
        ),
    decreases definitions.len(),
{
    let earlier = definitions.drop_last();
    let last = definitions.last();
    let mid = with_prompts(state, root, home, source, earlier);
    let after = with_prompts(state, root, home, source, definitions);
    let issue = definition_outcome(
        state.default_prompt_path,
        root,
        home,
        source,
        definitions[place].0,
        definitions[place].1,
    )->Err_0;
    lemma_definitions_folded(state, root, home, source, earlier, last.0);
    lemma_definition_folded(mid, root, home, source, last.0, last.1);
    if place == definitions.len() - 1 {
        assert(after.errors == mid.errors.push(issue));
        assert(after.errors[mid.errors.len() as int] == issue);
    } else {
        assert(earlier[place] == definitions[place]);
        lemma_invalid_definition_is_reported(state, root, home, source, earlier, place);
        let k = choose|k: int| 0 <= k < mid.errors.len() && mid.errors[k] == issue;
        assert(after.errors[k] == mid.errors[k]);
    }
}

/// A name that a file defines has a last definition there.
pub proof fn lemma_defined_has_last(definitions: Seq<(Seq<char>, RawPromptView)>, name: Seq<char>)
    ensures
        times_in(definitions, name) >= 1 <==> last_definition(definitions, name) is Some,
    decreases definitions.len(),
{
    if definitions.len() > 0 {
        lemma_defined_has_last(definitions.drop_last(), name);
    }
}

/// The definitions that a file holds; none where it could not be parsed.
pub open spec fn file_definitions(file: ConfigFileView) -> Seq<(Seq<char>, RawPromptView)> {
    match file.content {
        FileContentView::Parsed(raw) => raw.prompt,
        _ => Seq::empty(),
    }
}

/// The source that the definitions of a file carry.
pub open spec fn file_source(file: ConfigFileView) -> PromptSourceView {
    PromptSourceView { path: file.path, last_modified: file.last_modified }
}

/// The default directory in force for the definitions of `file`, where it
/// was `before` ahead of the file: the file's own `prompt_path` if it has
/// one that resolves.
pub open spec fn default_with(
    before: Option<Seq<char>>,
    root: Seq<char>,
    home: HomeDirectoryView,
    file: ConfigFileView,
) -> Option<Seq<char>> {
    match file.content {
        FileContentView::Parsed(raw) => match raw.prompt_path {
            Some(prompt_path) => match resolved_path(root, prompt_path, home) {
                Ok(directory) => Some(directory),
                Err(_) => before,
            },
            None => before,
        },
        _ => before,
    }
}

/// Whether `file` raises no issue ahead of its definitions: it was parsed,
/// and its `prompt_path`, if it has one, resolves.
pub open spec fn opens_cleanly(root: Seq<char>, home: HomeDirectoryView, file: ConfigFileView) -> bool {
    match file.content {
        FileContentView::Parsed(raw) => match raw.prompt_path {
            Some(prompt_path) => resolved_path(root, prompt_path, home) is Ok,
            None => true,
        },
        _ => false,
    }
}

/// Whether `file` defines `name`.
pub open spec fn defines(file: ConfigFileView, name: Seq<char>) -> bool {
    times_in(file_definitions(file), name) >= 1
}

/// The entry that `file` gives `name`, where `inherited` is the default
/// directory in force for the file: what the file's last definition of the
/// name becomes.
pub open spec fn file_entry(
    inherited: Option<Seq<char>>,
    root: Seq<char>,
    home: HomeDirectoryView,
    file: ConfigFileView,
    name: Seq<char>,
) -> PromptSpecView {
    definition_outcome(
        inherited,
        root,
        home,
        file_source(file),
        name,
        last_definition(file_definitions(file), name)->0,
    )->Ok_0
}

/// What one file does to the state of a load that goes on after it.
pub proof fn lemma_file_folded(
    state: MergeView,
    root: Seq<char>,
    home: HomeDirectoryView,
    file: ConfigFileView,
    name: Seq<char>,
)
    requires
        with_file(state, root, home, file) is Ok,
    ensures
        ({
            let after = with_file(state, root, home, file)->Ok_0;
            let inherited = default_with(state.default_prompt_path, root, home, file);
            &&& extends(after.errors, state.errors)
            &&& extends(after.warnings, state.warnings)
            &&& distinct_names(state.prompts) ==> distinct_names(after.prompts)
            &&& overrides_from(state.warnings, 0) ==> overrides_from(after.warnings, 0)
            &&& after.errors.len() == state.errors.len() ==> {
                &&& opens_cleanly(root, home, file)
                &&& after.default_prompt_path == inherited
                &&& forall|d: int|
                    0 <= d < file_definitions(file).len() ==> definition_outcome(
                        inherited,
                        root,
                        home,
                        file_source(file),
                        (#[trigger] file_definitions(file)[d]).0,
                        file_definitions(file)[d].1,
                    ) is Ok
                &&& lookup(after.prompts, name) == if defines(file, name) {
                    Some(file_entry(inherited, root, home, file, name))
                } else {
                    lookup(state.prompts, name)
                }
                &&& after.warnings.len() + after.prompts.len() == state.warnings.len()
                    + state.prompts.len() + file_definitions(file).len()
                &&& (lookup(state.prompts, name) is Some && defines(file, name)) || times_in(
                    file_definitions(file),
                    name,
                ) >= 2 ==> warned(after.warnings, name)
            }
        }),
{
    let after = with_file(state, root, home, file)->Ok_0;
    lemma_defined_has_last(file_definitions(file), name);
    match file.content {
        FileContentView::Parsed(raw) => {
            let source = file_source(file);
            let opened = with_default(state, root, home, file.path, raw.prompt_path);
            lemma_definitions_folded(opened, root, home, source, raw.prompt, name);
            lemma_extends_transitive(state.errors, opened.errors, after.errors);
        },
        FileContentView::Malformed { message } => {
            assert(after.errors.len() == state.errors.len() + 1);
        },
        FileContentView::Unreadable { source } => {},
    }
}

/// The default directory in force after `files`, where it was `start`
/// ahead of them.
pub open spec fn default_through(
    start: Option<Seq<char>>,
    root: Seq<char>,
    home: HomeDirectoryView,
    files: Seq<ConfigFileView>,
) -> Option<Seq<char>>
    decreases files.len(),
{
    if files.len() == 0 {
        start
    } else {
        default_with(default_through(start, root, home, files.drop_last()), root, home, files.last())
    }
}

/// The place of the last of `files` that defines `name`.
pub open spec fn last_definer(files: Seq<ConfigFileView>, name: Seq<char>) -> Option<int>
    decreases files.len(),
{
    if files.len() == 0 {
        None
    } else if defines(files.last(), name) {
        Some(files.len() - 1)
    } else {
        last_definer(files.drop_last(), name)
    }
}

/// How often `files` define `name`.
pub open spec fn times_defined(files: Seq<ConfigFileView>, name: Seq<char>) -> nat
    decreases files.len(),
{
    if files.len() == 0 {
        0
    } else {
        times_defined(files.drop_last(), name) + times_in(file_definitions(files.last()), name)
    }
}

/// How many definitions `files` hold.
pub open spec fn definition_count(files: Seq<ConfigFileView>) -> nat
    decreases files.len(),
{
    if files.len() == 0 {
        0
    } else {
        definition_count(files.drop_last()) + file_definitions(files.last()).len()
    }
}

/// The entry that the file at `place` gives `name`, with the default
/// directory that is in force there when the load starts from `start`.
pub open spec fn entry_from(
    start: Option<Seq<char>>,
    root: Seq<char>,
    home: HomeDirectoryView,
    files: Seq<ConfigFileView>,
    place: int,
    name: Seq<char>,
) -> PromptSpecView {
    file_entry(
        default_through(start, root, home, files.take(place + 1)),
        root,
        home,
        files[place],
        name,
    )
}

/// What the definition at place `d` of the file at place `k` becomes, with
/// the default directory that is in force there when the load starts from
/// `start`.
pub open spec fn definition_at(
    start: Option<Seq<char>>,
    root: Seq<char>,
    home: HomeDirectoryView,
    files: Seq<ConfigFileView>,
    k: int,
    d: int,
) -> Result<PromptSpecView, ConfigIssueView> {
    definition_outcome(
        default_through(start, root, home, files.take(k + 1)),
        root,
        home,
        file_source(files[k]),
        file_definitions(files[k])[d].0,
        file_definitions(files[k])[d].1,
    )
}

/// [`last_definer`] finds the last file that defines the name: no later
/// file defines it; and it finds none only where no file defines the name.
pub proof fn lemma_last_definer(files: Seq<ConfigFileView>, name: Seq<char>)
    ensures
        match last_definer(files, name) {
            Some(place) => 0 <= place < files.len() && defines(files[place], name) && forall|
                later: int,
            |
                place < later < files.len() ==> !defines(#[trigger] files[later], name),
            None => forall|k: int| 0 <= k < files.len() ==> !defines(#[trigger] files[k], name),
        },
        times_defined(files, name) >= 1 <==> last_definer(files, name) is Some,
    decreases files.len(),
{
    if files.len() > 0 {
        let front = files.drop_last();
        lemma_last_definer(front, name);
        if !defines(files.last(), name) {
            match last_definer(front, name) {
                Some(place) => {
                    assert(front[place] == files[place]);
                    assert forall|later: int| place < later < files.len() implies !defines(
                        #[trigger] files[later],
                        name,
                    ) by {
                        if later < front.len() {
                            assert(front[later] == files[later]);
                        }
                    }
                },
                None => {
                    assert forall|k: int| 0 <= k < files.len() implies !defines(
                        #[trigger] files[k],
                        name,
                    ) by {
                        if k < front.len() {
                            assert(front[k] == files[k]);
                        }
                    }
                },
            }
        }
    }
}

/// What a run of files does to the state of a load that goes on after them.
///
/// Where none of them adds an error, `name` has the entry of the last file
/// that defines it, there is one warning for each definition that did not
/// add a name, and a name defined a second time is warned of.
pub proof fn lemma_files_folded(
    state: MergeView,
    root: Seq<char>,
    home: HomeDirectoryView,
    files: Seq<ConfigFileView>,
    name: Seq<char>,
)
    requires
        with_files(state, root, home, files) is Ok,
    ensures
        ({
            let after = with_files(state, root, home, files)->Ok_0;
            &&& extends(after.errors, state.errors)
            &&& extends(after.warnings, state.warnings)
            &&& distinct_names(state.prompts) ==> distinct_names(after.prompts)
            &&& overrides_from(state.warnings, 0) ==> overrides_from(after.warnings, 0)
            &&& after.errors.len() == state.errors.len() ==> {
                &&& forall|k: int|
                    0 <= k < files.len() ==> opens_cleanly(root, home, #[trigger] files[k])
                &&& forall|k: int, d: int|
                    0 <= k < files.len() && 0 <= d < file_definitions(files[k]).len()
                        ==> #[trigger] definition_at(
                        state.default_prompt_path,
                        root,
                        home,
                        files,
                        k,
                        d,
                    ) is Ok
                &&& after.default_prompt_path == default_through(
                    state.default_prompt_path,
                    root,
                    home,
                    files,
                )
                &&& lookup(after.prompts, name) == match last_definer(files, name) {
                    Some(place) => Some(
                        entry_from(state.default_prompt_path, root, home, files, place, name),
                    ),
                    None => lookup(state.prompts, name),
                }
                &&& after.warnings.len() + after.prompts.len() == state.warnings.len()
                    + state.prompts.len() + definition_count(files)
                &&& (lookup(state.prompts, name) is Some && times_defined(files, name) >= 1)
                    || times_defined(files, name) >= 2 ==> warned(after.warnings, name)
            }
        }),
    decreases files.len(),
{
    if files.len() > 0 {
        let front = files.drop_last();
        let last = files.last();
        let mid = with_files(state, root, home, front)->Ok_0;
        let after = with_files(state, root, home, files)->Ok_0;
        lemma_files_folded(state, root, home, front, name);
        lemma_file_folded(mid, root, home, last, name);
        lemma_extends_transitive(state.errors, mid.errors, after.errors);
        lemma_extends_transitive(state.warnings, mid.warnings, after.warnings);
        lemma_last_definer(front, name);
        if after.errors.len() == state.errors.len() {
            assert(mid.errors.len() == state.errors.len());
            assert forall|k: int| 0 <= k < files.len() implies opens_cleanly(
                root,
                home,
                #[trigger] files[k],
            ) by {
                if k < front.len() {
                    assert(front[k] == files[k]);
                }
            }
            assert(files.take(files.len() as int) =~= files);
            assert forall|k: int, d: int|
                0 <= k < files.len() && 0 <= d < file_definitions(files[k]).len() implies (
            #[trigger] definition_at(state.default_prompt_path, root, home, files, k, d)) is Ok by {
                if k < front.len() {
                    assert(front[k] == files[k]);
                    assert(front.take(k + 1) =~= files.take(k + 1));
                    assert(definition_at(state.default_prompt_path, root, home, front, k, d) is Ok);
                } else {
                    assert(file_definitions(last)[d] == file_definitions(last)[d]);
                }
            }
            match last_definer(front, name) {
                Some(place) => {
                    assert(front.take(place + 1) =~= files.take(place + 1));
                    assert(front[place] == files[place]);
                },
                None => {},
            }
            if warned(mid.warnings, name) {
                lemma_warned_extends(after.warnings, mid.warnings, name);
            }
        }
    }
}

/// Folding two runs of files one after the other is folding their
/// concatenation.
pub proof fn lemma_files_appended(
    state: MergeView,
    root: Seq<char>,
    home: HomeDirectoryView,
    first: Seq<ConfigFileView>,
    second: Seq<ConfigFileView>,
)
    ensures
        with_files(state, root, home, first + second) == match with_files(
            state,
            root,
            home,
            first,
        ) {
            Ok(mid) => with_files(mid, root, home, second),
            Err(error) => Err(error),
        },
    decreases second.len(),
{
    if second.len() == 0 {
        assert(first + second =~= first);
    } else {
        assert((first + second).drop_last() =~= first + second.drop_last());
        assert((first + second).last() == second.last());
        lemma_files_appended(state, root, home, first, second.drop_last());
    }
}

/// The override files of a load in the order in which they apply; none
/// where the directory is absent.
pub open spec fn override_files(overrides: OverrideFilesView) -> Seq<ConfigFileView> {
    match overrides {
        OverrideFilesView::Listed { issues, files } => in_path_order(files),
        _ => Seq::empty(),
    }
}

/// The issues met while listing the override files.
pub open spec fn override_issues(overrides: OverrideFilesView) -> Seq<ConfigIssueView> {
    match overrides {
        OverrideFilesView::Listed { issues, files } => issues,
        _ => Seq::empty(),
    }
}

/// The files of a load in the order in which they apply: the base file,
/// then the override files.
pub open spec fn load_files(base: Option<ConfigFileView>, overrides: OverrideFilesView) -> Seq<
    ConfigFileView,
> {
    base_files(base) + override_files(overrides)
}

/// The files of a load as they were given: the base file, then the override
/// files in the order of the listing.
pub open spec fn given_files(base: Option<ConfigFileView>, overrides: OverrideFilesView) -> Seq<
    ConfigFileView,
> {
    base_files(base) + match overrides {
        OverrideFilesView::Listed { issues, files } => files,
        _ => Seq::empty(),
    }
}

/// The files that apply are the files that were given: each file of the
/// one sequence is at some place of the other.
pub proof fn lemma_applied_files_are_given(
    base: Option<ConfigFileView>,
    overrides: OverrideFilesView,
    place: int,
)
    ensures
        0 <= place < given_files(base, overrides).len() ==> load_files(base, overrides).contains(
            given_files(base, overrides)[place],
        ),
        0 <= place < load_files(base, overrides).len() ==> given_files(base, overrides).contains(
            load_files(base, overrides)[place],
        ),
        load_files(base, overrides).len() == given_files(base, overrides).len(),
{
    let first = base_files(base);
    let given = given_files(base, overrides);
    let applied = load_files(base, overrides);
    match overrides {
        OverrideFilesView::Listed { issues, files } => {
            let sorted = in_path_order(files);
            crate::config::lemma_path_order(files);
            sorted.to_multiset_ensures();
            files.to_multiset_ensures();
            if 0 <= place < given.len() {
                if place < first.len() {
                    assert(applied[place] == given[place]);
                } else {
                    let file = files[place - first.len()];
                    assert(files.contains(file));
                    assert(files.to_multiset().count(file) > 0);
                    assert(sorted.to_multiset().count(file) > 0);
                    assert(sorted.contains(file));
                    let at = choose|at: int| 0 <= at < sorted.len() && sorted[at] == file;
                    assert(applied[first.len() + at] == file);
                }
            }
            if 0 <= place < applied.len() {
                if place < first.len() {
                    assert(given[place] == applied[place]);
                } else {
                    let file = sorted[place - first.len()];
                    assert(sorted.contains(file));
                    assert(sorted.to_multiset().count(file) > 0);
                    assert(files.to_multiset().count(file) > 0);
                    assert(files.contains(file));
                    let at = choose|at: int| 0 <= at < files.len() && files[at] == file;
                    assert(given[first.len() + at] == file);
                }
            }
        },
        _ => {
            assert(applied =~= given);
        },
    }
}

/// A load that succeeds is the fold of its files from the initial state, and
/// none of them added an error.
pub proof fn lemma_load_is_fold(
    root: Seq<char>,
    home: HomeDirectoryView,
    base: Option<ConfigFileView>,
    overrides: OverrideFilesView,
)
    requires
        load_outcome(root, home, base, overrides) is Ok,
    ensures
        ({
            let load = load_outcome(root, home, base, overrides)->Ok_0;
            let folded = with_files(initial_state(root), root, home, load_files(base, overrides));
            &&& folded is Ok
            &&& folded->Ok_0.errors.len() == 0
            &&& folded->Ok_0.prompts == load.config.prompts
            &&& folded->Ok_0.warnings == load.warnings
            &&& folded->Ok_0.default_prompt_path == load.config.default_prompt_path
            &&& load.config.root == root
        }),
{
    let start = initial_state(root);
    let first = base_files(base);
    let second = override_files(overrides);
    let after_base = with_files(start, root, home, first)->Ok_0;
    lemma_files_appended(start, root, home, first, second);
    match overrides {
        OverrideFilesView::Listed { issues, files } => {
            let resumed = MergeView { errors: after_base.errors + issues, ..after_base };
            lemma_files_folded(resumed, root, home, second, Seq::empty());
            assert(issues.len() == 0);
            assert(after_base.errors + issues =~= after_base.errors);
            assert(resumed == after_base);
        },
        _ => {
            assert(with_files(after_base, root, home, second) == Ok::<
                MergeView,
                LoadConfigErrorView,
            >(after_base));
        },
    }
}

/// The registry of a load that succeeds holds each name once, and each name
/// with the entry that the last file defining it gives it: a later
/// definition replaces an earlier one, and a name that no file defines is
/// not there.
///
/// The override files apply in the order of their paths: the last file that
/// defines a name is, of the override files that define it, the one whose
/// path comes last as strings compare.
pub proof fn lemma_last_definition_wins(
    root: Seq<char>,
    home: HomeDirectoryView,
    base: Option<ConfigFileView>,
    overrides: OverrideFilesView,
    name: Seq<char>,
)
    requires
        load_outcome(root, home, base, overrides) is Ok,
    ensures
        ({
            let load = load_outcome(root, home, base, overrides)->Ok_0;
            let files = load_files(base, overrides);
            let first_override = base_files(base).len() as int;
            &&& distinct_names(load.config.prompts)
            &&& match last_definer(files, name) {
                Some(place) => {
                    &&& lookup(load.config.prompts, name) == Some(
                        entry_from(Some(root), root, home, files, place, name),
                    )
                    &&& forall|other: int|
                        0 <= other < files.len() && defines(#[trigger] files[other], name)
                            ==> other <= place
                    &&& forall|other: int|
                        first_override <= other < files.len() && defines(
                            #[trigger] files[other],
                            name,
                        ) ==> text_le(files[other].path, files[place].path)
                },
                None => lookup(load.config.prompts, name) is None,
            }
        }),
{
    let files = load_files(base, overrides);
    let first_override = base_files(base).len() as int;
    lemma_load_is_fold(root, home, base, overrides);
    lemma_files_folded(initial_state(root), root, home, files, name);
    lemma_last_definer(files, name);
    match last_definer(files, name) {
        Some(place) => {
            let applied = override_files(overrides);
            let paths = crate::config::file_paths(applied);
            match overrides {
                OverrideFilesView::Listed { issues, files: given } => {
                    crate::config::lemma_path_order(given);
                },
                _ => {},
            }
            assert forall|other: int|
                first_override <= other < files.len() && defines(
                    #[trigger] files[other],
                    name,
                ) implies text_le(files[other].path, files[place].path) by {
                assert(files[other] == applied[other - first_override]);
                assert(files[place] == applied[place - first_override]);
                if other < place {
                    assert(text_le(paths[other - first_override], paths[place - first_override]));
                } else {
                    crate::text::lemma_bytes_le_total(
                        vstd::utf8::encode_utf8(files[place].path),
                        vstd::utf8::encode_utf8(files[place].path),
                    );
                }
            }
        },
        None => {},
    }
}

/// A load that succeeds warns once for each definition that replaced an
/// earlier one: there are as many warnings as definitions beyond the names in
/// the registry, each of them is an `override`, and a name that is defined
/// more than once has a warning of its own.
pub proof fn lemma_redefinitions_are_warned(
    root: Seq<char>,
    home: HomeDirectoryView,
    base: Option<ConfigFileView>,
    overrides: OverrideFilesView,
    name: Seq<char>,
)
    requires
        load_outcome(root, home, base, overrides) is Ok,
    ensures
        ({
            let load = load_outcome(root, home, base, overrides)->Ok_0;
            let files = load_files(base, overrides);
            &&& load.warnings.len() + load.config.prompts.len() == definition_count(files)
            &&& overrides_from(load.warnings, 0)
            &&& times_defined(files, name) >= 2 ==> warned(load.warnings, name)
        }),
{
    lemma_load_is_fold(root, home, base, overrides);
    lemma_files_folded(initial_state(root), root, home, load_files(base, overrides), name);
}

/// Whether one of `errors` is of class `invalid_prompt` and at the file
/// `path`.
pub open spec fn reports_invalid_prompt(errors: Seq<ConfigIssueView>, path: Seq<char>) -> bool {
    exists|k: int|
        0 <= k < errors.len() && (#[trigger] errors[k]).code == ConfigIssueCode::InvalidPrompt
            && errors[k].path == path
}

proof fn lemma_report_extends(
    longer: Seq<ConfigIssueView>,
    errors: Seq<ConfigIssueView>,
    path: Seq<char>,
)
    requires
        extends(longer, errors),
        reports_invalid_prompt(errors, path),
    ensures
        reports_invalid_prompt(longer, path),
{
    let k = choose|k: int|
        0 <= k < errors.len() && (#[trigger] errors[k]).code == ConfigIssueCode::InvalidPrompt
            && errors[k].path == path;
    assert(longer[k] == errors[k]);
}

/// Whether the definition is one that declares both a fragment list and a
/// template, or neither.
pub open spec fn kind_is_ambiguous(raw: RawPromptView) -> bool {
    raw.prompts is Some <==> raw.template is Some
}

proof fn lemma_ambiguous_reported_in_file(
    state: MergeView,
    root: Seq<char>,
    home: HomeDirectoryView,
    file: ConfigFileView,
    d: int,
)
    requires
        with_file(state, root, home, file) is Ok,
        0 <= d < file_definitions(file).len(),
        kind_is_ambiguous(file_definitions(file)[d].1),
    ensures
        reports_invalid_prompt(with_file(state, root, home, file)->Ok_0.errors, file.path),
{
    let after = with_file(state, root, home, file)->Ok_0;
    let source = file_source(file);
    let definitions = file_definitions(file);
    match file.content {
        FileContentView::Parsed(raw) => {
            let opened = with_default(state, root, home, file.path, raw.prompt_path);
            crate::builder::lemma_kind_must_be_one_of_two(
                definitions[d].0,
                definitions[d].1,
                source,
                opened.default_prompt_path,
                override_resolution(root, definitions[d].1.prompt_path, home),
            );
            lemma_invalid_definition_is_reported(opened, root, home, source, definitions, d);
            let issue = definition_outcome(
                opened.default_prompt_path,
                root,
                home,
                source,
                definitions[d].0,
                definitions[d].1,
            )->Err_0;
            let k = choose|k: int| 0 <= k < after.errors.len() && after.errors[k] == issue;
            assert(after.errors[k].code == ConfigIssueCode::InvalidPrompt && after.errors[k].path
                == file.path);
        },
        _ => {},
    }
}

proof fn lemma_ambiguous_reported_in_files(
    state: MergeView,
    root: Seq<char>,
    home: HomeDirectoryView,
    files: Seq<ConfigFileView>,
    place: int,
    d: int,
)
    requires
        with_files(state, root, home, files) is Ok,
        0 <= place < files.len(),
        0 <= d < file_definitions(files[place]).len(),
        kind_is_ambiguous(file_definitions(files[place])[d].1),
    ensures
        reports_invalid_prompt(with_files(state, root, home, files)->Ok_0.errors, files[place].path),
    decreases files.len(),
{
    let front = files.drop_last();
    let mid = with_files(state, root, home, front)->Ok_0;
    let after = with_files(state, root, home, files)->Ok_0;
    if place == files.len() - 1 {
        lemma_ambiguous_reported_in_file(mid, root, home, files.last(), d);
    } else {
        assert(front[place] == files[place]);
        lemma_ambiguous_reported_in_files(state, root, home, front, place, d);
        lemma_file_folded(mid, root, home, files.last(), Seq::empty());
        lemma_report_extends(after.errors, mid.errors, files[place].path);
    }
}

/// The one error that ends a fold of files is a file that could not be read.
pub proof fn lemma_fold_ends_on_unreadable(
    state: MergeView,
    root: Seq<char>,
    home: HomeDirectoryView,
    files: Seq<ConfigFileView>,
)
    ensures
        with_files(state, root, home, files) matches Err(error) ==> error is Io,
    decreases files.len(),
{
    if files.len() > 0 {
        lemma_fold_ends_on_unreadable(state, root, home, files.drop_last());
    }
}

/// Whether no file of `files` is one that could not be read.
pub open spec fn all_readable(files: Seq<ConfigFileView>) -> bool {
    forall|k: int| 0 <= k < files.len() ==> !((#[trigger] files[k]).content is Unreadable)
}

/// Files that could all be read are folded to the end.
pub proof fn lemma_readable_files_fold(
    state: MergeView,
    root: Seq<char>,
    home: HomeDirectoryView,
    files: Seq<ConfigFileView>,
)
    requires
        all_readable(files),
    ensures
        with_files(state, root, home, files) is Ok,
    decreases files.len(),
{
    if files.len() > 0 {
        let front = files.drop_last();
        assert forall|k: int| 0 <= k < front.len() implies !((#[trigger] front[k]).content
            is Unreadable) by {
            assert(front[k] == files[k]);
        }
        lemma_readable_files_fold(state, root, home, front);
        assert(!(files[files.len() - 1].content is Unreadable));
    }
}

/// A load with a definition that declares both a fragment list and a
/// template, or neither, fails. Where it fails with diagnostics, one of the
/// errors is of class `invalid_prompt` and at the file that holds the
/// definition; and it fails so wherever every file could be read and the
/// override files could be listed. No registry comes back, so no name of
/// that file or of another reaches the caller. (The definition itself leaves
/// the registry of the fold untouched: see [`lemma_definition_folded`].)
pub proof fn lemma_ambiguous_definition_fails_load(
    root: Seq<char>,
    home: HomeDirectoryView,
    base: Option<ConfigFileView>,
    overrides: OverrideFilesView,
    place: int,
    d: int,
)
    requires
        0 <= place < given_files(base, overrides).len(),
        0 <= d < file_definitions(given_files(base, overrides)[place]).len(),
        kind_is_ambiguous(file_definitions(given_files(base, overrides)[place])[d].1),
    ensures
        load_outcome(root, home, base, overrides) is Err,
        load_outcome(root, home, base, overrides) matches Err(
            LoadConfigErrorView::Invalid { diagnostics },
        ) ==> reports_invalid_prompt(
            diagnostics.errors,
            given_files(base, overrides)[place].path,
        ),
        all_readable(given_files(base, overrides)) && !(overrides is Unreadable)
            ==> load_outcome(root, home, base, overrides) is Err && load_outcome(
            root,
            home,
            base,
            overrides,
        )->Err_0 is Invalid,
{
    let files = load_files(base, overrides);
    let given = given_files(base, overrides);
    let start = initial_state(root);
    let first = base_files(base);
    let outcome = load_outcome(root, home, base, overrides);
    lemma_applied_files_are_given(base, overrides, place);
    let given_place = place;
    let place = choose|at: int|
        0 <= at < files.len() && files[at] == given_files(base, overrides)[given_place];
    if all_readable(given) && !(overrides is Unreadable) {
        assert forall|k: int| 0 <= k < files.len() implies !((#[trigger] files[k]).content
            is Unreadable) by {
            lemma_applied_files_are_given(base, overrides, k);
            let at = choose|at: int| 0 <= at < given.len() && given[at] == files[k];
            assert(!(given[at].content is Unreadable));
        }
        assert forall|k: int| 0 <= k < first.len() implies !((#[trigger] first[k]).content
            is Unreadable) by {
            assert(first[k] == files[k]);
        }
        lemma_readable_files_fold(start, root, home, first);
        let after_base = with_files(start, root, home, first)->Ok_0;
        let second = override_files(overrides);
        assert forall|k: int| 0 <= k < second.len() implies !((#[trigger] second[k]).content
            is Unreadable) by {
            assert(second[k] == files[first.len() + k]);
        }
        lemma_readable_files_fold(
            MergeView { errors: after_base.errors + override_issues(overrides), ..after_base },
            root,
            home,
            second,
        );
    }
    if outcome is Ok {
        lemma_load_is_fold(root, home, base, overrides);
        lemma_files_folded(start, root, home, files, Seq::empty());
        assert(definition_at(start.default_prompt_path, root, home, files, place, d) is Ok);
        crate::builder::lemma_kind_must_be_one_of_two(
            file_definitions(files[place])[d].0,
            file_definitions(files[place])[d].1,
            file_source(files[place]),
            default_through(start.default_prompt_path, root, home, files.take(place + 1)),
            override_resolution(root, file_definitions(files[place])[d].1.prompt_path, home),
        );
    }
    match outcome {
        Err(LoadConfigErrorView::Invalid { diagnostics }) => {
            let after_base = with_files(start, root, home, first)->Ok_0;
            lemma_fold_ends_on_unreadable(start, root, home, first);
            lemma_fold_ends_on_unreadable(
                MergeView { errors: after_base.errors + override_issues(overrides), ..after_base },
                root,
                home,
                override_files(overrides),
            );
            if place < first.len() {
                assert(first[place] == files[place]);
                lemma_ambiguous_reported_in_files(start, root, home, first, place, d);
            }
            match overrides {
                OverrideFilesView::Listed { issues, files: given } => {
                    let listed = override_files(overrides);
                    let resumed = MergeView { errors: after_base.errors + issues, ..after_base };
                    let after_all = with_files(resumed, root, home, listed)->Ok_0;
                    if place < first.len() {
                        assert(extends(resumed.errors, after_base.errors));
                        lemma_report_extends(resumed.errors, after_base.errors, files[place].path);
                        lemma_files_folded(resumed, root, home, listed, Seq::empty());
                        lemma_report_extends(after_all.errors, resumed.errors, files[place].path);
                    } else {
                        assert(listed[place - first.len()] == files[place]);
                        lemma_ambiguous_reported_in_files(
                            resumed,
                            root,
                            home,
                            listed,
                            place - first.len(),
                            d,
                        );
                    }
                },
                _ => {
                    assert(files =~= first);
                },
            }
        },
        _ => {},
    }
}

proof fn lemma_files_without_definitions(
    state: MergeView,
    root: Seq<char>,
    home: HomeDirectoryView,
    files: Seq<ConfigFileView>,
)
    requires
        forall|k: int|
            0 <= k < files.len() ==> opens_cleanly(root, home, #[trigger] files[k])
                && file_definitions(files[k]).len() == 0,
    ensures
        with_files(state, root, home, files) == Ok::<MergeView, LoadConfigErrorView>(
            MergeView {
                default_prompt_path: default_through(state.default_prompt_path, root, home, files),
                ..state
            },
        ),
    decreases files.len(),
{
    if files.len() > 0 {
        let front = files.drop_last();
        assert forall|k: int| 0 <= k < front.len() implies opens_cleanly(
            root,
            home,
            #[trigger] front[k],
        ) && file_definitions(front[k]).len() == 0 by {
            assert(front[k] == files[k]);
        }
        lemma_files_without_definitions(state, root, home, front);
        let last = files.last();
        assert(opens_cleanly(root, home, last) && file_definitions(last).len() == 0);
    }
}

/// A configuration without a prompt definition loads, and its registry is
/// empty: where every file was parsed, holds no definition and has at most a
/// `prompt_path` that resolves, and listing the override files raised no
/// issue, the load succeeds without a prompt and without a warning.
pub proof fn lemma_load_without_definitions(
    root: Seq<char>,
    home: HomeDirectoryView,
    base: Option<ConfigFileView>,
    overrides: OverrideFilesView,
)
    requires
        !(overrides is Unreadable),
        overrides matches OverrideFilesView::Listed { issues, files } ==> issues.len() == 0,
        forall|k: int|
            0 <= k < given_files(base, overrides).len() ==> opens_cleanly(
                root,
                home,
                #[trigger] given_files(base, overrides)[k],
            ) && file_definitions(given_files(base, overrides)[k]).len() == 0,
    ensures
        load_outcome(root, home, base, overrides) is Ok,
        load_outcome(root, home, base, overrides)->Ok_0.config.prompts.len() == 0,
        load_outcome(root, home, base, overrides)->Ok_0.warnings.len() == 0,
{
    let files = load_files(base, overrides);
    let given = given_files(base, overrides);
    let start = initial_state(root);
    let first = base_files(base);
    assert forall|k: int| 0 <= k < files.len() implies opens_cleanly(
        root,
        home,
        #[trigger] files[k],
    ) && file_definitions(files[k]).len() == 0 by {
        lemma_applied_files_are_given(base, overrides, k);
        let at = choose|at: int| 0 <= at < given.len() && given[at] == files[k];
        assert(opens_cleanly(root, home, given[at]));
    }
    assert forall|k: int| 0 <= k < first.len() implies opens_cleanly(
        root,
        home,
        #[trigger] first[k],
    ) && file_definitions(first[k]).len() == 0 by {
        assert(first[k] == files[k]);
    }
    lemma_files_without_definitions(start, root, home, first);
    let after_base = with_files(start, root, home, first)->Ok_0;
    match overrides {
        OverrideFilesView::Listed { issues, files: given } => {
            let listed = override_files(overrides);
            let resumed = MergeView { errors: after_base.errors + issues, ..after_base };
            assert forall|k: int| 0 <= k < listed.len() implies opens_cleanly(
                root,
                home,
                #[trigger] listed[k],
            ) && file_definitions(listed[k]).len() == 0 by {
                assert(listed[k] == files[first.len() + k]);
            }
            lemma_files_without_definitions(resumed, root, home, listed);
        },
        _ => {},
    }
}

/// A place where a name is defined: the file and the name.
pub struct Site {
    pub path: Seq<char>,
    pub name: Seq<char>,
}

/// A definition that replaces an earlier one: the file that holds it, the
/// name, and the file of the definition that it replaces.
pub struct Redefinition {
    pub path: Seq<char>,
    pub name: Seq<char>,
    pub replaced: Seq<char>,
}

/// The sites of the definitions of one file, in the file's order.
pub open spec fn file_sites(file: ConfigFileView) -> Seq<Site> {
    Seq::new(
        file_definitions(file).len(),
        |d: int| Site { path: file.path, name: file_definitions(file)[d].0 },
    )
}

/// The sites of the definitions of `files`, in the order in which a load
/// meets them.
pub open spec fn sites_of(files: Seq<ConfigFileView>) -> Seq<Site>
    decreases files.len(),
{
    if files.len() == 0 {
        Seq::empty()
    } else {
        sites_of(files.drop_last()) + file_sites(files.last())
    }
}

/// The file of the last of `sites` that defines `name`.
pub open spec fn last_site(sites: Seq<Site>, name: Seq<char>) -> Option<Seq<char>>
    decreases sites.len(),
{
    if sites.len() == 0 {
        None
    } else if sites.last().name == name {
        Some(sites.last().path)
    } else {
        last_site(sites.drop_last(), name)
    }
}

/// How many of `sites` define `name`.
pub open spec fn times_at(sites: Seq<Site>, name: Seq<char>) -> nat
    decreases sites.len(),
{
    if sites.len() == 0 {
        0
    } else {
        times_at(sites.drop_last(), name) + if sites.last().name == name {
            1nat
        } else {
            0nat
        }
    }
}

/// The redefinitions among `sites`, in their order: each site whose name an
/// earlier site defines, with the file of the last such site.
pub open spec fn redefinitions(sites: Seq<Site>) -> Seq<Redefinition>
    decreases sites.len(),
{
    if sites.len() == 0 {
        Seq::empty()
    } else {
        let earlier = redefinitions(sites.drop_last());
        let site = sites.last();
        match last_site(sites.drop_last(), site.name) {
            Some(replaced) => earlier.push(
                Redefinition { path: site.path, name: site.name, replaced },
            ),
            None => earlier,
        }
    }
}

/// How many of `redefined` are redefinitions of `name`.
pub open spec fn redefinitions_of(redefined: Seq<Redefinition>, name: Seq<char>) -> nat
    decreases redefined.len(),
{
    if redefined.len() == 0 {
        0
    } else {
        redefinitions_of(redefined.drop_last(), name) + if redefined.last().name == name {
            1nat
        } else {
            0nat
        }
    }
}

/// The warnings for `redefined`, one for each: an `override` at the file
/// of the redefinition, without a line, that names the prompt and the file
/// of the definition that was replaced.
pub open spec fn override_warnings(redefined: Seq<Redefinition>) -> Seq<ConfigIssueView> {
    Seq::new(
        redefined.len(),
        |i: int| override_warning(redefined[i].path, redefined[i].name, redefined[i].replaced),
    )
}

/// Whether the registry `prompts` holds, for every name, the definition of
/// the last of `sites` that defines the name, and no other name.
pub open spec fn follows_sites(prompts: Seq<(Seq<char>, PromptSpecView)>, sites: Seq<Site>) -> bool {
    forall|name: Seq<char>|
        match #[trigger] lookup(prompts, name) {
            Some(spec) => last_site(sites, name) == Some(spec.metadata.source.path),
            None => last_site(sites, name) is None,
        }
}

/// A name that is defined k times, k at least 1, is redefined k - 1 times;
/// a name that is not defined is not redefined.
pub proof fn lemma_redefinitions_counted(sites: Seq<Site>, name: Seq<char>)
    ensures
        last_site(sites, name) is Some <==> times_at(sites, name) >= 1,
        redefinitions_of(redefinitions(sites), name) == if times_at(sites, name) == 0 {
            0int
        } else {
            times_at(sites, name) - 1
        },
    decreases sites.len(),
{
    if sites.len() > 0 {
        let site = sites.last();
        lemma_redefinitions_counted(sites.drop_last(), name);
        lemma_redefinitions_counted(sites.drop_last(), site.name);
        let earlier = redefinitions(sites.drop_last());
        match last_site(sites.drop_last(), site.name) {
            Some(replaced) => {
                let all = redefinitions(sites);
                assert(all.drop_last() =~= earlier);
                assert(all.last().name == site.name);
            },
            None => {},
        }
    }
}

/// The sites of `files` define a name as often as the files do.
pub proof fn lemma_sites_counted(files: Seq<ConfigFileView>, name: Seq<char>)
    ensures
        times_at(sites_of(files), name) == times_defined(files, name),
    decreases files.len(),
{
    if files.len() > 0 {
        lemma_sites_counted(files.drop_last(), name);
        lemma_file_sites_counted(sites_of(files.drop_last()), files.last(), file_definitions(
            files.last(),
        ).len() as int, name);
        assert(file_sites(files.last()).take(file_definitions(files.last()).len() as int)
            =~= file_sites(files.last()));
        assert(file_definitions(files.last()).take(file_definitions(files.last()).len() as int)
            =~= file_definitions(files.last()));
    }
}

proof fn lemma_file_sites_counted(before: Seq<Site>, file: ConfigFileView, upto: int, name: Seq<char>)
    requires
        0 <= upto <= file_definitions(file).len(),
    ensures
        times_at(before + file_sites(file).take(upto), name) == times_at(before, name) + times_in(
            file_definitions(file).take(upto),
            name,
        ),
    decreases upto,
{
    let sites = before + file_sites(file).take(upto);
    if upto == 0 {
        assert(sites =~= before);
        assert(file_definitions(file).take(upto) =~= Seq::<(Seq<char>, RawPromptView)>::empty());
    } else {
        lemma_file_sites_counted(before, file, upto - 1, name);
        assert(sites.drop_last() =~= before + file_sites(file).take(upto - 1));
        assert(sites.last().name == file_definitions(file)[upto - 1].0);
        assert(file_definitions(file).take(upto).drop_last() =~= file_definitions(file).take(
            upto - 1,
        ));
        assert(file_definitions(file).take(upto).last() == file_definitions(file)[upto - 1]);
    }
}

proof fn lemma_definitions_traced(
    state: MergeView,
    root: Seq<char>,
    home: HomeDirectoryView,
    file: ConfigFileView,
    upto: int,
    before: Seq<Site>,
)
    requires
        0 <= upto <= file_definitions(file).len(),
        follows_sites(state.prompts, before),
        state.warnings == override_warnings(redefinitions(before)),
        with_prompts(
            state,
            root,
            home,
            file_source(file),
            file_definitions(file).take(upto),
        ).errors.len() == state.errors.len(),
    ensures
        ({
            let after = with_prompts(
                state,
                root,
                home,
                file_source(file),
                file_definitions(file).take(upto),
            );
            let sites = before + file_sites(file).take(upto);
            &&& follows_sites(after.prompts, sites)
            &&& after.warnings == override_warnings(redefinitions(sites))
        }),
    decreases upto,
{
    let source = file_source(file);
    let definitions = file_definitions(file).take(upto);
    let sites = before + file_sites(file).take(upto);
    if upto == 0 {
        assert(sites =~= before);
        assert(definitions =~= Seq::<(Seq<char>, RawPromptView)>::empty());
    } else {
        let earlier = file_definitions(file).take(upto - 1);
        let last = file_definitions(file)[upto - 1];
        assert(definitions.drop_last() =~= earlier);
        assert(definitions.last() == last);
        let mid = with_prompts(state, root, home, source, earlier);
        let after = with_prompts(state, root, home, source, definitions);
        lemma_definitions_folded(state, root, home, source, earlier, last.0);
        lemma_definition_folded(mid, root, home, source, last.0, last.1);
        assert(mid.errors.len() == state.errors.len());
        lemma_definitions_traced(state, root, home, file, upto - 1, before);
        let sites_mid = before + file_sites(file).take(upto - 1);
        assert(sites.drop_last() =~= sites_mid);
        assert(sites.last() == (Site { path: file.path, name: last.0 }));
        let outcome = definition_outcome(mid.default_prompt_path, root, home, source, last.0, last.1);
        assert(outcome is Ok);
        let spec = outcome->Ok_0;
        assert(spec.metadata.source.path == file.path);
        assert forall|name: Seq<char>|
            match #[trigger] lookup(after.prompts, name) {
                Some(found) => last_site(sites, name) == Some(found.metadata.source.path),
                None => last_site(sites, name) is None,
            } by {
            lemma_lookup_inserted(mid.prompts, last.0, spec, name);
            if name != last.0 {
                assert(lookup(after.prompts, name) == lookup(mid.prompts, name));
            }
        }
        let known = redefinitions(sites_mid);
        match lookup(mid.prompts, last.0) {
            Some(previous) => {
                assert(last_site(sites_mid, last.0) == Some(previous.metadata.source.path));
                let expected = override_warnings(redefinitions(sites));
                assert(redefinitions(sites) == known.push(
                    Redefinition {
                        path: file.path,
                        name: last.0,
                        replaced: previous.metadata.source.path,
                    },
                ));
                assert(after.warnings =~= expected);
            },
            None => {
                assert(last_site(sites_mid, last.0) is None);
                assert(redefinitions(sites) == known);
            },
        }
    }
}

proof fn lemma_files_traced(
    state: MergeView,
    root: Seq<char>,
    home: HomeDirectoryView,
    files: Seq<ConfigFileView>,
    before: Seq<Site>,
)
    requires
        with_files(state, root, home, files) is Ok,
        with_files(state, root, home, files)->Ok_0.errors.len() == state.errors.len(),
        follows_sites(state.prompts, before),
        state.warnings == override_warnings(redefinitions(before)),
    ensures
        follows_sites(with_files(state, root, home, files)->Ok_0.prompts, before + sites_of(files)),
        with_files(state, root, home, files)->Ok_0.warnings == override_warnings(
            redefinitions(before + sites_of(files)),
        ),
    decreases files.len(),
{
    if files.len() == 0 {
        assert(before + sites_of(files) =~= before);
    } else {
        let front = files.drop_last();
        let file = files.last();
        let mid = with_files(state, root, home, front)->Ok_0;
        let after = with_files(state, root, home, files)->Ok_0;
        lemma_files_folded(state, root, home, front, Seq::empty());
        lemma_file_folded(mid, root, home, file, Seq::empty());
        assert(mid.errors.len() == state.errors.len());
        lemma_files_traced(state, root, home, front, before);
        let sites_mid = before + sites_of(front);
        match file.content {
            FileContentView::Parsed(raw) => {
                let opened = with_default(mid, root, home, file.path, raw.prompt_path);
                let count = file_definitions(file).len() as int;
                assert(file_definitions(file).take(count) =~= file_definitions(file));
                assert(file_sites(file).take(count) =~= file_sites(file));
                lemma_definitions_folded(
                    opened,
                    root,
                    home,
                    file_source(file),
                    raw.prompt,
                    Seq::empty(),
                );
                assert(opened.errors.len() == mid.errors.len());
                lemma_definitions_traced(opened, root, home, file, count, sites_mid);
                assert(before + sites_of(files) =~= sites_mid + file_sites(file));
            },
            _ => {},
        }
    }
}

/// The warnings of a load that succeeds are those of the redefinitions, in
/// the order in which the load meets them: one `override` for each
/// definition of a name that an earlier definition has defined, at the file
/// of the later definition, naming the prompt and the file of the definition
/// that it replaces; and no other warning. A name that is defined k times
/// is redefined k - 1 times.
pub proof fn lemma_warnings_are_the_redefinitions(
    root: Seq<char>,
    home: HomeDirectoryView,
    base: Option<ConfigFileView>,
    overrides: OverrideFilesView,
    name: Seq<char>,
)
    requires
        load_outcome(root, home, base, overrides) is Ok,
    ensures
        ({
            let load = load_outcome(root, home, base, overrides)->Ok_0;
            let files = load_files(base, overrides);
            let redefined = redefinitions(sites_of(files));
            &&& load.warnings == override_warnings(redefined)
            &&& follows_sites(load.config.prompts, sites_of(files))
            &&& redefinitions_of(redefined, name) == if times_defined(files, name) == 0 {
                0int
            } else {
                times_defined(files, name) - 1
            }
        }),
{
    let files = load_files(base, overrides);
    let start = initial_state(root);
    lemma_load_is_fold(root, home, base, overrides);
    assert(override_warnings(redefinitions(Seq::<Site>::empty())) =~= start.warnings);
    assert forall|any: Seq<char>|
        match #[trigger] lookup(start.prompts, any) {
            Some(spec) => last_site(Seq::<Site>::empty(), any) == Some(spec.metadata.source.path),
            None => last_site(Seq::<Site>::empty(), any) is None,
        } by {}
    lemma_files_traced(start, root, home, files, Seq::empty());
    assert(Seq::<Site>::empty() + sites_of(files) =~= sites_of(files));
    lemma_redefinitions_counted(sites_of(files), name);
    lemma_sites_counted(files, name);
}

} // verus!
