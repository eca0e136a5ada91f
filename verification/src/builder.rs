//! Validation of one prompt definition.
//!
//! [`prompt_outcome`] says what a definition becomes: a [`PromptSpec`], or the
//! first issue that the checks meet: an empty fragment list, the path, the
//! kind, the variables.

use vstd::prelude::*;
use vstd::string::StringExecFns;
use crate::issue::ConfigIssue;
use crate::issue::ConfigIssueCode;
use crate::issue::ConfigIssueView;
use crate::model::PromptKind;
use crate::model::PromptKindView;
use crate::model::PromptMetadata;
use crate::model::PromptMetadataView;
use crate::model::PromptSource;
use crate::model::PromptSourceView;
use crate::model::PromptSpec;
use crate::model::PromptSpecView;
use crate::model::PromptVariable;
use crate::model::PromptVariableKind;
use crate::model::PromptVariableView;
use crate::path::resolve_path;
use crate::path::resolved_path;
use crate::path::HomeDirectory;
use crate::path::HomeDirectoryView;
use crate::path::ResolutionError;
use crate::raw::RawPrompt;
use crate::raw::RawPromptVar;
use crate::raw::RawPromptVarView;
use crate::raw::RawPromptView;
use crate::text::copy_optional_text;
use crate::text::same_text;

verus! {

/// The variable kind that a keyword names.
pub open spec fn kind_of_keyword(keyword: Seq<char>) -> Option<PromptVariableKind> {
    if keyword == "string"@ {
        Some(PromptVariableKind::String)
    } else if keyword == "path"@ {
        Some(PromptVariableKind::Path)
    } else if keyword == "number"@ {
        Some(PromptVariableKind::Number)
    } else if keyword == "boolean"@ {
        Some(PromptVariableKind::Boolean)
    } else {
        None
    }
}

/// Reads the keyword of a variable kind.
pub fn parse_var_kind(raw: &str) -> (kind: Option<PromptVariableKind>)
    ensures
        kind == kind_of_keyword(raw@),
{
    if same_text(raw, "string") {
        Some(PromptVariableKind::String)
    } else if same_text(raw, "path") {
        Some(PromptVariableKind::Path)
    } else if same_text(raw, "number") {
        Some(PromptVariableKind::Number)
    } else if same_text(raw, "boolean") {
        Some(PromptVariableKind::Boolean)
    } else {
        None
    }
}

/// Every kind is read back from its own keyword.
pub proof fn lemma_keyword_names_its_kind(kind: PromptVariableKind)
    ensures
        kind_of_keyword(kind.keyword()) == Some(kind),
{
    reveal_strlit("string");
    reveal_strlit("path");
    reveal_strlit("number");
    reveal_strlit("boolean");
    assert("string"@.len() == 6 && "path"@.len() == 4 && "number"@.len() == 6 && "boolean"@.len()
        == 7);
    assert("string"@[0] == 's' && "number"@[0] == 'n');
}

/// An issue of class `invalid_prompt` without a line number.
pub open spec fn invalid_prompt(path: Seq<char>, message: Seq<char>) -> ConfigIssueView {
    ConfigIssueView { code: ConfigIssueCode::InvalidPrompt, message, path, line: None }
}

/// The issue for a variable name that a prompt declares a second time.
pub open spec fn duplicate_var(path: Seq<char>, name: Seq<char>) -> ConfigIssueView {
    ConfigIssueView {
        code: ConfigIssueCode::DuplicateVar,
        message: "var '"@ + name + "' declared twice"@,
        path,
        line: None,
    }
}

/// The issue for a variable whose type keyword names no kind.
pub open spec fn unknown_var_type(
    path: Seq<char>,
    keyword: Seq<char>,
    prompt_name: Seq<char>,
) -> ConfigIssueView {
    invalid_prompt(
        path,
        "unknown var type '"@ + keyword + "' for prompt '"@ + prompt_name + "'"@,
    )
}

/// The type keyword of a variable: `string` where it declares none.
pub open spec fn declared_keyword(raw: RawPromptVarView) -> Seq<char> {
    match raw.kind {
        Some(keyword) => keyword,
        None => "string"@,
    }
}

/// Whether one of `vars` has the name `name`.
pub open spec fn declares(vars: Seq<RawPromptVarView>, name: Seq<char>) -> bool {
    exists|k: int| 0 <= k < vars.len() && (#[trigger] vars[k]).name == name
}

/// The variables of a prompt, or the issue of the first declaration that
/// repeats a name or has an unknown type.
pub open spec fn parsed_vars(
    prompt_name: Seq<char>,
    vars: Seq<RawPromptVarView>,
    path: Seq<char>,
) -> Result<Seq<PromptVariableView>, ConfigIssueView>
    decreases vars.len(),
{
    if vars.len() == 0 {
        Ok(Seq::empty())
    } else {
        let raw = vars.last();
        match parsed_vars(prompt_name, vars.drop_last(), path) {
            Err(issue) => Err(issue),
            Ok(earlier) => if declares(vars.drop_last(), raw.name) {
                Err(duplicate_var(path, raw.name))
            } else {
                match kind_of_keyword(declared_keyword(raw)) {
                    None => Err(unknown_var_type(path, declared_keyword(raw), prompt_name)),
                    Some(kind) => Ok(
                        earlier.push(
                            PromptVariableView {
                                name: raw.name,
                                required: raw.required,
                                kind,
                                description: raw.description,
                            },
                        ),
                    ),
                }
            },
        }
    }
}

/// The view of what [`parse_prompt_vars`] returns.
pub open spec fn vars_view(outcome: Result<Vec<PromptVariable>, ConfigIssue>) -> Result<
    Seq<PromptVariableView>,
    ConfigIssueView,
> {
    match outcome {
        Ok(vars) => Ok(vars.deep_view()),
        Err(issue) => Err(issue@),
    }
}

proof fn lemma_issue_stops_vars(
    prompt_name: Seq<char>,
    vars: Seq<RawPromptVarView>,
    path: Seq<char>,
    upto: int,
)
    requires
        0 <= upto <= vars.len(),
        parsed_vars(prompt_name, vars.take(upto), path) is Err,
    ensures
        parsed_vars(prompt_name, vars, path) == parsed_vars(prompt_name, vars.take(upto), path),
    decreases vars.len() - upto,
{
    if upto < vars.len() {
        assert(vars.take(upto + 1).drop_last() =~= vars.take(upto));
        lemma_issue_stops_vars(prompt_name, vars, path, upto + 1);
    } else {
        assert(vars.take(upto) =~= vars);
    }
}

/// Checks the variable declarations of a prompt, in order.
pub fn parse_prompt_vars(prompt_name: &str, vars: Vec<RawPromptVar>, source: &PromptSource) -> (outcome:
    Result<Vec<PromptVariable>, ConfigIssue>)
    ensures
        vars_view(outcome) == parsed_vars(prompt_name@, vars.deep_view(), source.path@),
{
    let mut parsed: Vec<PromptVariable> = Vec::new();
    let ghost raws = vars.deep_view();
    let mut i: usize = 0;
    assert(raws.take(0) =~= Seq::<RawPromptVarView>::empty());
    assert(parsed.deep_view() =~= Seq::<PromptVariableView>::empty());
    while i < vars.len()
        invariant
            i <= vars@.len(),
            raws == vars.deep_view(),
            parsed@.len() == i,
            parsed_vars(prompt_name@, raws.take(i as int), source.path@) == Ok::<
                Seq<PromptVariableView>,
                ConfigIssueView,
            >(parsed.deep_view()),
            forall|k: int| 0 <= k < i ==> (#[trigger] parsed@[k]).name@ == raws[k].name,
        decreases vars@.len() - i,
    {
        let raw = &vars[i];
        let ghost earlier = raws.take(i as int);
        proof {
            assert(raws[i as int] == raw@);
            assert(raws.take(i + 1).drop_last() =~= earlier);
            assert(raws.take(i + 1).last() == raw@);
        }
        let mut seen = false;
        let mut j: usize = 0;
        while j < parsed.len()
            invariant
                j <= parsed@.len(),
                parsed@.len() == i,
                i < raws.len(),
                earlier == raws.take(i as int),
                forall|k: int| 0 <= k < i ==> (#[trigger] parsed@[k]).name@ == raws[k].name,
                seen == declares(earlier.take(j as int), raw.name@),
            decreases parsed@.len() - j,
        {
            let same = same_text(parsed[j].name.as_str(), raw.name.as_str());
            proof {
                let shorter = earlier.take(j as int);
                let longer = earlier.take(j + 1);
                assert(longer[j as int].name == parsed@[j as int].name@);
                if same || seen {
                    if seen {
                        let k = choose|k: int|
                            0 <= k < shorter.len() && (#[trigger] shorter[k]).name == raw.name@;
                        assert(longer[k] == shorter[k]);
                    }
                    assert(declares(longer, raw.name@));
                } else {
                    assert forall|k: int| 0 <= k < longer.len() implies (#[trigger] longer[k]).name
                        != raw.name@ by {
                        if k < j {
                            assert(shorter[k] == longer[k]);
                        }
                    }
                }
            }
            if same {
                seen = true;
            }
            j += 1;
        }
        assert(earlier.take(j as int) =~= earlier);
        if seen {
            let mut message = String::from_str("var '");
            message.append(raw.name.as_str());
            message.append("' declared twice");
            proof {
                lemma_issue_stops_vars(prompt_name@, raws, source.path@, i + 1);
            }
            return Err(
                ConfigIssue::new(ConfigIssueCode::DuplicateVar, source.path.clone(), None, message),
            );
        }
        let keyword = match &raw.kind {
            Some(keyword) => keyword.as_str(),
            None => "string",
        };
        let kind = match parse_var_kind(keyword) {
            Some(kind) => kind,
            None => {
                let mut message = String::from_str("unknown var type '");
                message.append(keyword);
                message.append("' for prompt '");
                message.append(prompt_name);
                message.append("'");
                proof {
                    lemma_issue_stops_vars(prompt_name@, raws, source.path@, i + 1);
                }
                return Err(
                    ConfigIssue::new(
                        ConfigIssueCode::InvalidPrompt,
                        source.path.clone(),
                        None,
                        message,
                    ),
                );
            },
        };
        let ghost before = parsed.deep_view();
        parsed.push(
            PromptVariable {
                name: raw.name.clone(),
                required: raw.required,
                kind,
                description: copy_optional_text(&raw.description),
            },
        );
        proof {
            assert(parsed.deep_view() =~= before.push(parsed@[i as int]@));
        }
        i += 1;
    }
    assert(raws.take(i as int) =~= raws);
    Ok(parsed)
}

/// Two variables of one name make the declarations invalid: no list of
/// variables comes out of them.
pub proof fn lemma_repeated_name_is_rejected(
    prompt_name: Seq<char>,
    vars: Seq<RawPromptVarView>,
    path: Seq<char>,
    first: int,
    second: int,
)
    requires
        0 <= first < second < vars.len(),
        vars[first].name == vars[second].name,
    ensures
        parsed_vars(prompt_name, vars, path) is Err,
    decreases vars.len(),
{
    let earlier = vars.drop_last();
    if second == vars.len() - 1 {
        assert(earlier[first] == vars[first]);
        assert(declares(earlier, vars.last().name));
    } else {
        assert(earlier[first] == vars[first] && earlier[second] == vars[second]);
        lemma_repeated_name_is_rejected(prompt_name, earlier, path, first, second);
    }
}

/// The first repeated name is reported as a `duplicate_var`: where the
/// declarations before a variable are valid and one of them has its name, the
/// outcome is the issue for that name.
pub proof fn lemma_first_repeated_name_is_reported(
    prompt_name: Seq<char>,
    vars: Seq<RawPromptVarView>,
    path: Seq<char>,
    place: int,
)
    requires
        0 <= place < vars.len(),
        parsed_vars(prompt_name, vars.take(place), path) is Ok,
        declares(vars.take(place), vars[place].name),
    ensures
        parsed_vars(prompt_name, vars, path) == Err::<Seq<PromptVariableView>, ConfigIssueView>(
            duplicate_var(path, vars[place].name),
        ),
{
    let upto = vars.take(place + 1);
    assert(upto.drop_last() =~= vars.take(place));
    assert(upto.last() == vars[place]);
    lemma_issue_stops_vars(prompt_name, vars, path, place + 1);
}

/// Whether the `prompts` key is there and lists no fragment.
pub open spec fn lists_no_fragment(prompts: Option<Seq<Seq<char>>>) -> bool {
    prompts matches Some(files) && files.len() == 0
}

/// What the `prompts` and `template` keys of a definition make it: a
/// sequence must have a fragment, whatever else is declared, and exactly one
/// of the two keys must be there.
pub open spec fn declared_kind(prompts: Option<Seq<Seq<char>>>, template: Option<Seq<char>>) -> Result<
    PromptKindView,
    Seq<char>,
> {
    match prompts {
        Some(files) => if files.len() == 0 {
            Err("prompt sequence cannot be empty"@)
        } else if template is Some {
            Err("prompts and template are exclusive options"@)
        } else {
            Ok(PromptKindView::Sequence { files })
        },
        None => match template {
            Some(template) => Ok(PromptKindView::Template { template }),
            None => Err("prompt must define either 'prompts' or 'template'"@),
        },
    }
}

/// The issue for a prompt whose own `prompt_path` cannot be resolved.
pub open spec fn unresolved_override(
    path: Seq<char>,
    prompt_name: Seq<char>,
    prompt_path: Seq<char>,
    error: ResolutionError,
) -> ConfigIssueView {
    invalid_prompt(
        path,
        "prompt '"@ + prompt_name + "' has invalid prompt_path '"@ + prompt_path + "': "@
            + error.reason(),
    )
}

/// The text of an optional key, empty where the key is absent.
pub open spec fn text_or_empty(text: Option<Seq<char>>) -> Seq<char> {
    match text {
        Some(text) => text,
        None => Seq::empty(),
    }
}

/// What the definition `raw` of the prompt `prompt_name` becomes.
///
/// `resolved` is the outcome of resolving the definition's own `prompt_path`,
/// where it has one; `inherited` is the default directory in force where the
/// prompt is defined. The checks come in this order, and the first that
/// fails gives the issue: the fragment list, if there is one, is not empty;
/// the definition's own `prompt_path` resolves; exactly one of fragment list
/// and template is declared; the variables are valid.
pub open spec fn prompt_outcome(
    prompt_name: Seq<char>,
    raw: RawPromptView,
    source: PromptSourceView,
    inherited: Option<Seq<char>>,
    resolved: Option<Result<Seq<char>, ResolutionError>>,
) -> Result<PromptSpecView, ConfigIssueView> {
    if lists_no_fragment(raw.prompts) {
        Err(invalid_prompt(source.path, "prompt sequence cannot be empty"@))
    } else {
        match resolved {
            Some(Err(error)) => Err(
                unresolved_override(source.path, prompt_name, text_or_empty(raw.prompt_path), error),
            ),
            _ => match declared_kind(raw.prompts, raw.template) {
                Err(message) => Err(invalid_prompt(source.path, message)),
                Ok(kind) => match parsed_vars(prompt_name, raw.vars, source.path) {
                    Err(issue) => Err(issue),
                    Ok(vars) => Ok(
                        PromptSpecView {
                            prompt_path_override: match resolved {
                                Some(Ok(path)) => Some(path),
                                _ => None,
                            },
                            inherited_prompt_path: inherited,
                            kind,
                            metadata: PromptMetadataView {
                                description: raw.description,
                                tags: raw.tags,
                                vars,
                                stdin_supported: raw.stdin_supported,
                                source,
                            },
                        },
                    ),
                },
            },
        }
    }
}

/// The view of what building a prompt returns.
pub open spec fn built_view(outcome: Result<PromptSpec, ConfigIssue>) -> Result<
    PromptSpecView,
    ConfigIssueView,
> {
    match outcome {
        Ok(spec) => Ok(spec@),
        Err(issue) => Err(issue@),
    }
}

/// The view of a resolution's outcome, where there was a path to resolve.
pub open spec fn optional_resolution_view(resolved: Option<Result<String, ResolutionError>>) -> Option<
    Result<Seq<char>, ResolutionError>,
> {
    match resolved {
        Some(Ok(path)) => Some(Ok(path@)),
        Some(Err(error)) => Some(Err(error)),
        None => None,
    }
}

/// Validates one definition whose own `prompt_path` has been resolved to
/// `resolved` already.
pub fn validate_prompt(
    prompt_name: &str,
    prompt: RawPrompt,
    source: &PromptSource,
    inherited: Option<String>,
    resolved: Option<Result<String, ResolutionError>>,
) -> (outcome: Result<PromptSpec, ConfigIssue>)
    ensures
        built_view(outcome) == prompt_outcome(
            prompt_name@,
            prompt@,
            source@,
            inherited.deep_view(),
            optional_resolution_view(resolved),
        ),
{
    let empty = match &prompt.prompts {
        Some(files) => files.len() == 0,
        None => false,
    };
    if empty {
        assert(prompt.prompts->0.deep_view().len() == 0);
        return Err(
            ConfigIssue::new(
                ConfigIssueCode::InvalidPrompt,
                source.path.clone(),
                None,
                String::from_str("prompt sequence cannot be empty"),
            ),
        );
    }
    assert(prompt.prompts matches Some(files) ==> files.deep_view().len() == files@.len());
    let prompt_path_override = match resolved {
        Some(Err(error)) => {
            let mut message = String::from_str("prompt '");
            message.append(prompt_name);
            message.append("' has invalid prompt_path '");
            match &prompt.prompt_path {
                Some(path) => {
                    message.append(path.as_str());
                },
                None => {
                    assert(message@ + Seq::<char>::empty() =~= message@);
                },
            }
            message.append("': ");
            let reason = error.message();
            message.append(reason.as_str());
            return Err(
                ConfigIssue::new(ConfigIssueCode::InvalidPrompt, source.path.clone(), None, message),
            );
        },
        Some(Ok(path)) => Some(path),
        None => None,
    };
    let kind = match (prompt.prompts, prompt.template) {
        (Some(files), None) => PromptKind::Sequence { files },
        (None, Some(template)) => PromptKind::Template { template },
        (Some(_), Some(_)) => {
            return Err(
                ConfigIssue::new(
                    ConfigIssueCode::InvalidPrompt,
                    source.path.clone(),
                    None,
                    String::from_str("prompts and template are exclusive options"),
                ),
            );
        },
        (None, None) => {
            return Err(
                ConfigIssue::new(
                    ConfigIssueCode::InvalidPrompt,
                    source.path.clone(),
                    None,
                    String::from_str("prompt must define either 'prompts' or 'template'"),
                ),
            );
        },
    };
    let vars = match parse_prompt_vars(prompt_name, prompt.vars, source) {
        Ok(vars) => vars,
        Err(issue) => {
            return Err(issue);
        },
    };
    let metadata = PromptMetadata {
        description: prompt.description,
        tags: prompt.tags,
        vars,
        stdin_supported: prompt.stdin_supported,
        source: source.clone(),
    };
    Ok(PromptSpec { prompt_path_override, inherited_prompt_path: inherited, kind, metadata })
}

/// The outcome of resolving a definition's own `prompt_path`, where it has one.
pub open spec fn override_resolution(
    root: Seq<char>,
    prompt_path: Option<Seq<char>>,
    home: HomeDirectoryView,
) -> Option<Result<Seq<char>, ResolutionError>> {
    match prompt_path {
        Some(path) => Some(resolved_path(root, path, home)),
        None => None,
    }
}

/// Builds the registry entry for one definition found in the file `source`.
///
/// The definition's own `prompt_path` is resolved against `root` and `home`;
/// every other rule is that of [`validate_prompt`].
pub fn build_prompt_spec(
    root: &str,
    home: &HomeDirectory,
    inherited: &Option<String>,
    prompt_name: &str,
    prompt: RawPrompt,
    source: &PromptSource,
) -> (outcome: Result<PromptSpec, ConfigIssue>)
    ensures
        built_view(outcome) == prompt_outcome(
            prompt_name@,
            prompt@,
            source@,
            inherited.deep_view(),
            override_resolution(root@, prompt@.prompt_path, home@),
        ),
{
    let resolved = match &prompt.prompt_path {
        Some(path) => Some(resolve_path(root, path.as_str(), home)),
        None => None,
    };
    validate_prompt(prompt_name, prompt, source, copy_optional_text(inherited), resolved)
}

/// A definition that declares both a fragment list and a template, or
/// neither, is invalid, whatever else it holds: its outcome is an issue of
/// class `invalid_prompt` at the file that holds the definition.
pub proof fn lemma_kind_must_be_one_of_two(
    prompt_name: Seq<char>,
    raw: RawPromptView,
    source: PromptSourceView,
    inherited: Option<Seq<char>>,
    resolved: Option<Result<Seq<char>, ResolutionError>>,
)
    requires
        raw.prompts is Some <==> raw.template is Some,
    ensures
        prompt_outcome(prompt_name, raw, source, inherited, resolved) is Err,
        prompt_outcome(prompt_name, raw, source, inherited, resolved)->Err_0.code
            == ConfigIssueCode::InvalidPrompt,
        prompt_outcome(prompt_name, raw, source, inherited, resolved)->Err_0.path == source.path,
{
}

/// A fragment list without a fragment is rejected with the message that a
/// sequence cannot be empty: this is the outcome of every definition that
/// has an empty fragment list, whatever else it declares.
pub proof fn lemma_empty_sequence_is_rejected(
    prompt_name: Seq<char>,
    raw: RawPromptView,
    source: PromptSourceView,
    inherited: Option<Seq<char>>,
    resolved: Option<Result<Seq<char>, ResolutionError>>,
)
    requires
        raw.prompts matches Some(files) && files.len() == 0,
    ensures
        prompt_outcome(prompt_name, raw, source, inherited, resolved) == Err::<
            PromptSpecView,
            ConfigIssueView,
        >(invalid_prompt(source.path, "prompt sequence cannot be empty"@)),
        declared_kind(raw.prompts, raw.template) == Err::<PromptKindView, Seq<char>>(
            "prompt sequence cannot be empty"@,
        ),
{
}

} // verus!
