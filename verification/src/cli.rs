//! The decisions of the command line front end: how the arguments of a
//! call are arranged for a prompt, what a data file argument refers to, and
//! the lines in which a prompt is described.
//!
//! Nothing here reads input or prints; the front end does both and asks this
//! module what to do.

use vstd::prelude::*;
use vstd::string::StringExecFns;
use vstd::string::StrSliceExecFns;
use crate::assembler::PromptAssembler;
use crate::data::StructuredData;
use crate::data::StructuredDataView;
use crate::issue::LoadConfigError;
use crate::model::PromptKind;
use crate::model::PromptSpec;
use crate::model::PromptSpecView;
use crate::model::PromptVariable;
use crate::model::PromptVariableView;
use crate::path::extension_of;
use crate::path::path_extension;
use crate::text::chars_of;
use crate::text::copy_text;
use crate::text::same_text;
use crate::text::text_between;

verus! {

/// Why the front end turns a call down.
#[derive(Debug, Clone, PartialEq, Eq)]
pub enum CliError {
    /// The configuration defines no prompt.
    NoPrompts,
    /// The call names no prompt.
    PromptNameRequired,
    /// The registry has no prompt of this name.
    UnknownPrompt { prompt: String },
    /// The first argument of a sequence prompt names a data file.
    DataNotAccepted { prompt: String },
    /// A template prompt was called without a data file.
    DataFileRequired { prompt: String },
    /// The data file is neither JSON nor TOML by its extension.
    BadDataFormat,
}

pub enum CliErrorView {
    NoPrompts,
    PromptNameRequired,
    UnknownPrompt { prompt: Seq<char> },
    DataNotAccepted { prompt: Seq<char> },
    DataFileRequired { prompt: Seq<char> },
    BadDataFormat,
}

impl View for CliError {
    type V = CliErrorView;

    open spec fn view(&self) -> CliErrorView {
        match self {
            CliError::NoPrompts => CliErrorView::NoPrompts,
            CliError::PromptNameRequired => CliErrorView::PromptNameRequired,
            CliError::UnknownPrompt { prompt } => CliErrorView::UnknownPrompt { prompt: prompt@ },
            CliError::DataNotAccepted { prompt } => CliErrorView::DataNotAccepted {
                prompt: prompt@,
            },
            CliError::DataFileRequired { prompt } => CliErrorView::DataFileRequired {
                prompt: prompt@,
            },
            CliError::BadDataFormat => CliErrorView::BadDataFormat,
        }
    }
}

impl CliErrorView {
    /// The sentence that reports this error.
    pub open spec fn message(self) -> Seq<char> {
        match self {
            CliErrorView::NoPrompts =>
                "no prompts defined; ensure config.toml exists with prompt entries"@,
            CliErrorView::PromptNameRequired => "prompt name is required"@,
            CliErrorView::UnknownPrompt { prompt } => "unknown prompt: "@ + prompt,
            CliErrorView::DataNotAccepted { prompt } => "prompt '"@ + prompt
                + "' does not accept structured data"@,
            CliErrorView::DataFileRequired { prompt } => "prompt '"@ + prompt
                + "' requires a data file (JSON or TOML)"@,
            CliErrorView::BadDataFormat => "data file must use JSON or TOML format"@,
        }
    }
}

impl CliError {
    /// The sentence that reports this error.
    pub fn message(&self) -> (text: String)
        ensures
            text@ == self@.message(),
    {
        match self {
            CliError::NoPrompts => String::from_str(
                "no prompts defined; ensure config.toml exists with prompt entries",
            ),
            CliError::PromptNameRequired => String::from_str("prompt name is required"),
            CliError::UnknownPrompt { prompt } => {
                let mut text = String::from_str("unknown prompt: ");
                text.append(prompt.as_str());
                text
            },
            CliError::DataNotAccepted { prompt } => {
                let mut text = String::from_str("prompt '");
                text.append(prompt.as_str());
                text.append("' does not accept structured data");
                text
            },
            CliError::DataFileRequired { prompt } => {
                let mut text = String::from_str("prompt '");
                text.append(prompt.as_str());
                text.append("' requires a data file (JSON or TOML)");
                text
            },
            CliError::BadDataFormat => String::from_str("data file must use JSON or TOML format"),
        }
    }
}

/// `c` in lower case where it is one of `A` to `Z`, else `c`.
pub open spec fn lowered(c: char) -> char {
    if 'A' <= c && c <= 'Z' {
        ((c as u8) + 32) as char
    } else {
        c
    }
}

/// `text` with its letters `A` to `Z` in lower case.
pub open spec fn ascii_lowercase(text: Seq<char>) -> Seq<char> {
    Seq::new(text.len(), |i: int| lowered(text[i]))
}

/// `text` with its letters `A` to `Z` in lower case.
pub fn to_ascii_lowercase(text: &str) -> (lower: String)
    ensures
        lower@ == ascii_lowercase(text@),
{
    let chars = chars_of(text);
    let mut lower = String::new();
    let mut i: usize = 0;
    while i < chars.len()
        invariant
            i <= chars@.len(),
            chars@ == text@,
            lower@ == ascii_lowercase(text@).take(i as int),
        decreases chars@.len() - i,
    {
        let c = chars[i];
        let l = if c >= 'A' && c <= 'Z' {
            ((c as u8) + 32) as char
        } else {
            c
        };
        lower.push(l);
        assert(ascii_lowercase(text@).take(i + 1) =~= ascii_lowercase(text@).take(i as int).push(
            l,
        ));
        i += 1;
    }
    assert(ascii_lowercase(text@).take(i as int) =~= ascii_lowercase(text@));
    lower
}

/// What a data file argument refers to, given the extension of its path:
/// JSON or TOML by the extension in any case of letters, else nothing.
pub open spec fn data_reference_of(raw: Seq<char>, extension: Option<Seq<char>>) -> Option<
    StructuredDataView,
> {
    match extension {
        Some(extension) => if ascii_lowercase(extension) == "json"@ {
            Some(StructuredDataView::Json(raw))
        } else if ascii_lowercase(extension) == "toml"@ {
            Some(StructuredDataView::Toml(raw))
        } else {
            None
        },
        None => None,
    }
}

/// What the data file argument `raw` refers to, where `extension` is the
/// extension of its path.
pub fn data_reference(raw: &str, extension: &Option<String>) -> (data: Option<StructuredData>)
    ensures
        data.deep_view() == data_reference_of(raw@, extension.deep_view()),
{
    match extension {
        Some(extension) => {
            let lower = to_ascii_lowercase(extension.as_str());
            if same_text(lower.as_str(), "json") {
                Some(StructuredData::Json(copy_text(raw)))
            } else if same_text(lower.as_str(), "toml") {
                Some(StructuredData::Toml(copy_text(raw)))
            } else {
                None
            }
        },
        None => None,
    }
}

/// Whether `value` names a data file by its extension.
pub fn looks_like_data_file(value: &str) -> (data: bool)
    ensures
        data == data_reference_of(value@, path_extension(value@)) is Some,
{
    let extension = extension_of(value);
    data_reference(value, &extension).is_some()
}

/// Reads the data file argument of a template prompt.
pub fn parse_data_argument(raw: &str) -> (outcome: Result<StructuredData, CliError>)
    ensures
        match data_reference_of(raw@, path_extension(raw@)) {
            Some(data) => outcome is Ok && outcome->Ok_0@ == data,
            None => outcome == Err::<StructuredData, CliError>(CliError::BadDataFormat),
        },
{
    let extension = extension_of(raw);
    match data_reference(raw, &extension) {
        Some(data) => Ok(data),
        None => Err(CliError::BadDataFormat),
    }
}

/// How a prompt is called once its arguments are arranged.
#[derive(Debug, Clone, PartialEq, Eq)]
pub enum Invocation {
    /// A sequence prompt with its positional arguments.
    Sequence { args: Vec<String> },
    /// A template prompt with its data file and its positional arguments.
    Template { data: StructuredData, args: Vec<String> },
}

pub enum InvocationView {
    Sequence { args: Seq<Seq<char>> },
    Template { data: StructuredDataView, args: Seq<Seq<char>> },
}

impl View for Invocation {
    type V = InvocationView;

    open spec fn view(&self) -> InvocationView {
        match self {
            Invocation::Sequence { args } => InvocationView::Sequence { args: args.deep_view() },
            Invocation::Template { data, args } => InvocationView::Template {
                data: data@,
                args: args.deep_view(),
            },
        }
    }
}

/// The arguments with the piped text, if there is one, in front.
pub open spec fn with_piped(args: Seq<Seq<char>>, piped: Option<Seq<char>>) -> Seq<Seq<char>> {
    match piped {
        Some(text) => seq![text] + args,
        None => args,
    }
}

/// How the prompt `prompt` is called with the arguments `args` of the
/// command line and the text `piped` on standard input.
///
/// A sequence prompt takes the piped text as its first argument and refuses
/// a first argument that names a data file. A template prompt takes its
/// first argument as data file and the piped text as first argument after it.
pub open spec fn invocation_of(
    prompt: Seq<char>,
    template: bool,
    args: Seq<Seq<char>>,
    piped: Option<Seq<char>>,
) -> Result<InvocationView, CliErrorView> {
    if template {
        if args.len() == 0 {
            Err(CliErrorView::DataFileRequired { prompt })
        } else {
            match data_reference_of(args[0], path_extension(args[0])) {
                None => Err(CliErrorView::BadDataFormat),
                Some(data) => Ok(
                    InvocationView::Template { data, args: with_piped(args.skip(1), piped) },
                ),
            }
        }
    } else {
        let positional = with_piped(args, piped);
        if positional.len() > 0 && data_reference_of(
            positional[0],
            path_extension(positional[0]),
        ) is Some {
            Err(CliErrorView::DataNotAccepted { prompt })
        } else {
            Ok(InvocationView::Sequence { args: positional })
        }
    }
}

/// The view of what [`prepare_invocation`] returns.
pub open spec fn invocation_view(outcome: Result<Invocation, CliError>) -> Result<
    InvocationView,
    CliErrorView,
> {
    match outcome {
        Ok(invocation) => Ok(invocation@),
        Err(error) => Err(error@),
    }
}

/// Arranges the arguments of a call for a prompt of the kind `kind`.
pub fn prepare_invocation(prompt: &str, kind: &PromptKind, args: Vec<String>, piped: Option<String>) -> (outcome:
    Result<Invocation, CliError>)
    ensures
        invocation_view(outcome) == invocation_of(
            prompt@,
            kind@ is Template,
            args.deep_view(),
            piped.deep_view(),
        ),
{
    let ghost given = args.deep_view();
    let mut args = args;
    match kind {
        PromptKind::Sequence { files } => {
            match piped {
                Some(text) => {
                    args.insert(0, text);
                    assert(args.deep_view() =~= seq![text@] + given);
                },
                None => {},
            }
            if args.len() > 0 && looks_like_data_file(args[0].as_str()) {
                assert(args.deep_view()[0] == args@[0]@);
                return Err(CliError::DataNotAccepted { prompt: copy_text(prompt) });
            }
            assert(args@.len() > 0 ==> args.deep_view()[0] == args@[0]@);
            Ok(Invocation::Sequence { args })
        },
        PromptKind::Template { template } => {
            if args.len() == 0 {
                return Err(CliError::DataFileRequired { prompt: copy_text(prompt) });
            }
            let first = args.remove(0);
            assert(given[0] == first@);
            assert(args.deep_view() =~= given.skip(1));
            let data = match parse_data_argument(first.as_str()) {
                Ok(data) => data,
                Err(error) => {
                    return Err(error);
                },
            };
            match piped {
                Some(text) => {
                    args.insert(0, text);
                    assert(args.deep_view() =~= seq![text@] + given.skip(1));
                },
                None => {},
            }
            Ok(Invocation::Template { data, args })
        },
    }
}

/// The argument that a piped text stands for: nothing where the text is
/// empty; else the text without one line break at its end, and without the
/// carriage return before that line break.
pub open spec fn piped_argument_of(buffer: Seq<char>) -> Option<Seq<char>> {
    if buffer.len() == 0 {
        None
    } else if buffer.last() == '\n' {
        let line = buffer.drop_last();
        if line.len() > 0 && line.last() == '\r' {
            Some(line.drop_last())
        } else {
            Some(line)
        }
    } else {
        Some(buffer)
    }
}

/// The argument that the text read from standard input stands for.
pub fn piped_argument(buffer: &str) -> (argument: Option<String>)
    ensures
        argument.deep_view() == piped_argument_of(buffer@),
{
    let chars = chars_of(buffer);
    let len = chars.len();
    if len == 0 {
        return None;
    }
    let mut end = len;
    if chars[end - 1] == '\n' {
        end -= 1;
        if end > 0 && chars[end - 1] == '\r' {
            end -= 1;
        }
    }
    let argument = text_between(&chars, 0, end);
    proof {
        let text = buffer@;
        assert(text.subrange(0, len as int) =~= text);
        assert(text.subrange(0, len - 1) =~= text.drop_last());
        if len >= 2 {
            assert(text.subrange(0, len - 2) =~= text.drop_last().drop_last());
        }
    }
    Some(argument)
}

/// The release tag for a version: the version itself where it starts with
/// `v`, else the version after a `v`.
pub open spec fn release_tag_of(version: Seq<char>) -> Seq<char> {
    if version.len() > 0 && version[0] == 'v' {
        version
    } else {
        seq!['v'] + version
    }
}

/// The release tag that a version given on the command line names.
pub fn release_tag(version: &str) -> (tag: String)
    ensures
        tag@ == release_tag_of(version@),
{
    let len = version.unicode_len();
    if len > 0 && version.get_char(0) == 'v' {
        copy_text(version)
    } else {
        let mut tag = String::new();
        tag.push('v');
        tag.append(version);
        assert(tag@ =~= seq!['v'] + version@);
        tag
    }
}

/// Whether a prompt takes the text on standard input as an argument: what
/// its definition says, and for a definition that says nothing, whether it
/// is a sequence.
pub open spec fn stdin_supported(spec: PromptSpecView) -> bool {
    match spec.metadata.stdin_supported {
        Some(supported) => supported,
        None => spec.kind is Sequence,
    }
}

/// Whether a prompt takes the text on standard input as an argument.
pub fn effective_stdin_supported(spec: &PromptSpec) -> (supported: bool)
    ensures
        supported == stdin_supported(spec@),
{
    match spec.metadata.stdin_supported {
        Some(supported) => supported,
        None => match &spec.kind {
            PromptKind::Sequence { files } => true,
            PromptKind::Template { template } => false,
        },
    }
}

/// Refuses to go on where the configuration defines no prompt.
pub fn ensure_prompts_available(assembler: &PromptAssembler) -> (outcome: Result<(), CliError>)
    ensures
        assembler@.config.prompts.len() > 0 ==> outcome is Ok,
        assembler@.config.prompts.len() == 0 ==> outcome == Err::<(), CliError>(
            CliError::NoPrompts,
        ),
{
    if assembler.has_prompts() {
        Ok(())
    } else {
        Err(CliError::NoPrompts)
    }
}

/// The exit status for a load that failed: 2 for an invalid configuration,
/// 127 for a file or directory that could not be read.
pub fn load_exit_code(error: &LoadConfigError) -> (code: u8)
    ensures
        code == if error@ is Invalid {
            2u8
        } else {
            127u8
        },
{
    match error {
        LoadConfigError::Invalid { diagnostics } => 2,
        LoadConfigError::Io { path, source } => 127,
        LoadConfigError::ReadDir { path, source } => 127,
    }
}

/// The texts one after the other, with `separator` between two of them.
pub open spec fn joined(texts: Seq<Seq<char>>, separator: Seq<char>) -> Seq<char>
    decreases texts.len(),
{
    if texts.len() == 0 {
        Seq::empty()
    } else if texts.len() == 1 {
        texts[0]
    } else {
        joined(texts.drop_last(), separator) + separator + texts.last()
    }
}

/// The texts one after the other, with `separator` between two of them.
pub fn join_texts(texts: &Vec<String>, separator: &str) -> (text: String)
    ensures
        text@ == joined(texts.deep_view(), separator@),
{
    let mut text = String::new();
    let mut i: usize = 0;
    let ghost all = texts.deep_view();
    assert(all.take(0) =~= Seq::<Seq<char>>::empty());
    while i < texts.len()
        invariant
            i <= texts@.len(),
            all == texts.deep_view(),
            text@ == joined(all.take(i as int), separator@),
        decreases texts@.len() - i,
    {
        proof {
            let next = all.take(i + 1);
            assert(next.drop_last() =~= all.take(i as int));
            assert(next.last() == texts@[i as int]@);
            if i == 0 {
                assert(next[0] == texts@[0]@);
                assert(Seq::<char>::empty() + texts@[0]@ =~= texts@[0]@);
            }
        }
        if i > 0 {
            text.append(separator);
        }
        text.append(texts[i].as_str());
        i += 1;
    }
    assert(all.take(i as int) =~= all);
    text
}

/// The line that describes one variable of a prompt.
pub open spec fn variable_line(var: PromptVariableView) -> Seq<char> {
    let head = "  - "@ + var.name + " ("@ + var.kind.keyword() + ")"@;
    let marked = if var.required {
        head + " [required]"@
    } else {
        head
    };
    match var.description {
        Some(description) => marked + " \u{2014} "@ + description,
        None => marked,
    }
}

/// The lines that describe the variables of a prompt: none where it has no
/// variable, else a heading and one line for each.
pub open spec fn variable_lines(vars: Seq<PromptVariableView>) -> Seq<Seq<char>> {
    if vars.len() == 0 {
        Seq::empty()
    } else {
        seq!["vars:"@] + Seq::new(vars.len(), |i: int| variable_line(vars[i]))
    }
}

/// The line for an optional text after a label; none where there is no text.
pub open spec fn optional_line(label: Seq<char>, text: Option<Seq<char>>) -> Seq<Seq<char>> {
    match text {
        Some(text) => seq![label + text],
        None => Seq::empty(),
    }
}

/// The lines in which the prompt `name` is described to a reader;
/// `last_modified` is the time of its source as the front end writes it.
pub open spec fn prompt_lines(
    name: Seq<char>,
    spec: PromptSpecView,
    last_modified: Option<Seq<char>>,
) -> Seq<Seq<char>> {
    seq![
        "name: "@ + name,
        if spec.kind is Sequence {
            "kind: sequence"@
        } else {
            "kind: template"@
        },
    ] + optional_line("description: "@, spec.metadata.description) + (if spec.metadata.tags.len()
        == 0 {
        Seq::empty()
    } else {
        seq!["tags: "@ + joined(spec.metadata.tags, ", "@)]
    }) + seq![
        if stdin_supported(spec) {
            "stdin supported: yes"@
        } else {
            "stdin supported: no"@
        },
    ] + optional_line("last modified: "@, last_modified) + seq![
        "source: "@ + spec.metadata.source.path,
    ] + variable_lines(spec.metadata.vars)
}

fn labelled(label: &str, text: &str) -> (line: String)
    ensures
        line@ == label@ + text@,
{
    let mut line = String::from_str(label);
    line.append(text);
    line
}

fn describe_variable(var: &PromptVariable) -> (line: String)
    ensures
        line@ == variable_line(var@),
{
    let mut line = String::from_str("  - ");
    line.append(var.name.as_str());
    line.append(" (");
    line.append(var.kind.as_str());
    line.append(")");
    if var.required {
        line.append(" [required]");
    }
    match &var.description {
        Some(description) => {
            line.append(" \u{2014} ");
            line.append(description.as_str());
        },
        None => {},
    }
    line
}

/// Describes the prompt `name` to a reader, line by line.
pub fn describe_prompt(name: &str, spec: &PromptSpec, last_modified: Option<&str>) -> (lines: Vec<
    String,
>)
    ensures
        lines.deep_view() == prompt_lines(
            name@,
            spec@,
            match last_modified {
                Some(time) => Some(time@),
                None => None,
            },
        ),
{
    let mut lines: Vec<String> = Vec::new();
    lines.push(labelled("name: ", name));
    match &spec.kind {
        PromptKind::Sequence { files } => lines.push(String::from_str("kind: sequence")),
        PromptKind::Template { template } => lines.push(String::from_str("kind: template")),
    }
    match &spec.metadata.description {
        Some(description) => lines.push(labelled("description: ", description.as_str())),
        None => {},
    }
    if spec.metadata.tags.len() > 0 {
        let tags = join_texts(&spec.metadata.tags, ", ");
        lines.push(labelled("tags: ", tags.as_str()));
    }
    if effective_stdin_supported(spec) {
        lines.push(String::from_str("stdin supported: yes"));
    } else {
        lines.push(String::from_str("stdin supported: no"));
    }
    match last_modified {
        Some(time) => lines.push(labelled("last modified: ", time)),
        None => {},
    }
    lines.push(labelled("source: ", spec.metadata.source.path.as_str()));
    let ghost head = lines.deep_view();
    let vars = &spec.metadata.vars;
    if vars.len() > 0 {
        lines.push(String::from_str("vars:"));
        let ghost start = lines.deep_view();
        assert(start =~= head + seq!["vars:"@]);
        let mut i: usize = 0;
        while i < vars.len()
            invariant
                i <= vars@.len(),
                lines@.len() == start.len() + i,
                forall|k: int| 0 <= k < start.len() ==> (#[trigger] lines@[k])@ == start[k],
                forall|k: int|
                    start.len() <= k < lines@.len() ==> (#[trigger] lines@[k])@ == variable_line(
                        vars@[k - start.len()]@,
                    ),
            decreases vars@.len() - i,
        {
            lines.push(describe_variable(&vars[i]));
            i += 1;
        }
        proof {
            let described = variable_lines(vars.deep_view());
            let target = head + described;
            assert(described.len() == vars@.len() + 1);
            assert forall|k: int| 0 <= k < target.len() implies lines.deep_view()[k]
                == target[k] by {
                if k < start.len() {
                    assert(lines@[k]@ == start[k]);
                } else {
                    assert(lines@[k]@ == variable_line(vars@[k - start.len()]@));
                    assert(described[k - head.len()] == variable_line(
                        vars.deep_view()[k - head.len() - 1],
                    ));
                }
            }
            assert(lines.deep_view() =~= target);
        }
    } else {
        assert(head + variable_lines(vars.deep_view()) =~= head);
    }
    lines
}

/// The lines that follow a completion script, so that the shell can offer
/// the prompt names: for a shell with variables, the names in one; for
/// another shell, the names in a comment; nothing where there is no prompt.
pub open spec fn completion_footer_of(with_variable: bool, prompts: Seq<Seq<char>>) -> Option<
    Seq<char>,
> {
    if prompts.len() == 0 {
        None
    } else if with_variable {
        Some(
            "\n# prompt-assembler dynamic prompt list\n_pa_prompt_list=\""@ + joined(prompts, " "@)
                + "\"\n"@,
        )
    } else {
        Some("\n# prompts: "@ + joined(prompts, " "@) + "\n"@)
    }
}

/// The text to write after a completion script.
pub fn completion_footer(with_variable: bool, prompts: &Vec<String>) -> (footer: Option<String>)
    ensures
        footer.deep_view() == completion_footer_of(with_variable, prompts.deep_view()),
{
    if prompts.len() == 0 {
        assert(prompts.deep_view().len() == 0);
        return None;
    }
    assert(prompts.deep_view().len() == prompts@.len());
    let names = join_texts(prompts, " ");
    if with_variable {
        let mut text = String::from_str(
            "\n# prompt-assembler dynamic prompt list\n_pa_prompt_list=\"",
        );
        text.append(names.as_str());
        text.append("\"\n");
        Some(text)
    } else {
        let mut text = String::from_str("\n# prompts: ");
        text.append(names.as_str());
        text.append("\n");
        Some(text)
    }
}

} // verus!
