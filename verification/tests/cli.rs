use prompt_assembler::cli::completion_footer;
use prompt_assembler::cli::describe_prompt;
use prompt_assembler::cli::effective_stdin_supported;
use prompt_assembler::cli::ensure_prompts_available;
use prompt_assembler::cli::join_texts;
use prompt_assembler::cli::looks_like_data_file;
use prompt_assembler::cli::parse_data_argument;
use prompt_assembler::cli::piped_argument;
use prompt_assembler::cli::prepare_invocation;
use prompt_assembler::cli::release_tag;
use prompt_assembler::cli::to_ascii_lowercase;
use prompt_assembler::cli::CliError;
use prompt_assembler::cli::Invocation;
use prompt_assembler::placeholder::render_sequence;
use prompt_assembler::OverrideFiles;
use prompt_assembler::PromptAssembler;
use prompt_assembler::PromptKind;
use prompt_assembler::PromptMetadata;
use prompt_assembler::PromptSource;
use prompt_assembler::PromptSpec;
use prompt_assembler::PromptVariable;
use prompt_assembler::PromptVariableKind;
use prompt_assembler::StructuredData;

fn texts(values: &[&str]) -> Vec<String> {
    values.iter().map(|value| value.to_string()).collect()
}

fn sequence_kind() -> PromptKind {
    PromptKind::Sequence { files: texts(&["echo.md"]) }
}

fn template_kind() -> PromptKind {
    PromptKind::Template { template: "tmpl.j2".to_string() }
}

fn spec(kind: PromptKind, stdin_supported: Option<bool>) -> PromptSpec {
    PromptSpec {
        prompt_path_override: None,
        inherited_prompt_path: Some("/etc/prompts".to_string()),
        kind,
        metadata: PromptMetadata {
            description: None,
            tags: Vec::new(),
            vars: Vec::new(),
            stdin_supported,
            source: PromptSource {
                path: "/etc/prompts/config.toml".to_string(),
                last_modified: None,
            },
        },
    }
}

#[test]
fn parts_command_succeeds_with_no_prompts_defined() {
    let assembler = PromptAssembler::from_directory(
        "/home/ada/.config/prompt-assembler",
        None,
        OverrideFiles::Absent,
    )
    .expect("load");
    let files = texts(&["local.md"]);
    let places = assembler.part_candidates("/work", &files[0]);
    let path = PromptAssembler::resolve_part_path(&files[0], &places, &[true, false]).unwrap();
    assert_eq!(path, "/work/local.md");

    let output = assembler.assemble_parts(&files, &texts(&["Local only\n"])).unwrap();

    assert!(output.contains("Local only"));
}

#[test]
fn list_command_errors_when_no_prompts_defined() {
    let assembler = PromptAssembler::from_directory(
        "/home/ada/.config/prompt-assembler",
        None,
        OverrideFiles::Absent,
    )
    .expect("load");

    let outcome = ensure_prompts_available(&assembler);

    assert_eq!(outcome, Err(CliError::NoPrompts));
    assert!(outcome.unwrap_err().message().contains("no prompts defined"));
}

#[test]
fn stdin_provides_first_argument() {
    let piped = piped_argument("piped text\n");
    assert_eq!(piped, Some("piped text".to_string()));

    let invocation = prepare_invocation("echo", &sequence_kind(), Vec::new(), piped).unwrap();
    assert_eq!(invocation, Invocation::Sequence { args: texts(&["piped text"]) });

    let Invocation::Sequence { args } = invocation else { unreachable!() };
    let rendered = render_sequence(&texts(&["Echo {0}\n"]), &args).unwrap();
    assert!(rendered.contains("Echo piped text"));
}

#[test]
fn errors_when_template_missing_data_cli() {
    let outcome = prepare_invocation("tmpl", &template_kind(), Vec::new(), None);

    assert_eq!(outcome, Err(CliError::DataFileRequired { prompt: "tmpl".to_string() }));
    let message = outcome.unwrap_err().message();
    assert!(message.contains("data file"));
    assert_eq!(message, "prompt 'tmpl' requires a data file (JSON or TOML)");
}

#[test]
fn errors_when_sequence_prompt_passed_data_file_cli() {
    let args = texts(&["/library/data.toml"]);

    let outcome = prepare_invocation("seq", &sequence_kind(), args, None);

    assert_eq!(outcome, Err(CliError::DataNotAccepted { prompt: "seq".to_string() }));
    assert!(outcome.unwrap_err().message().contains("structured data"));
}

#[test]
fn a_template_call_takes_its_first_argument_as_data() {
    let args = texts(&["vars.JSON", "one", "two"]);

    let invocation =
        prepare_invocation("note", &template_kind(), args, Some("piped".to_string())).unwrap();

    assert_eq!(
        invocation,
        Invocation::Template {
            data: StructuredData::Json("vars.JSON".to_string()),
            args: texts(&["piped", "one", "two"]),
        }
    );
}

#[test]
fn a_template_call_refuses_other_data_formats() {
    let outcome = prepare_invocation("note", &template_kind(), texts(&["vars.yaml"]), None);
    assert_eq!(outcome, Err(CliError::BadDataFormat));
    assert_eq!(outcome.unwrap_err().message(), "data file must use JSON or TOML format");
}

#[test]
fn data_files_are_known_by_their_extension() {
    assert!(looks_like_data_file("vars.json"));
    assert!(looks_like_data_file("dir/vars.Toml"));
    assert!(!looks_like_data_file("vars.yaml"));
    assert!(!looks_like_data_file("json"));
    assert!(!looks_like_data_file(".json"));
    assert!(!looks_like_data_file("World"));
    assert_eq!(parse_data_argument("a/b.toml"), Ok(StructuredData::Toml("a/b.toml".to_string())));
    assert_eq!(parse_data_argument("a/b.JSON"), Ok(StructuredData::Json("a/b.JSON".to_string())));
    assert_eq!(parse_data_argument("a/b"), Err(CliError::BadDataFormat));
    assert_eq!(StructuredData::Toml("a/b.toml".to_string()).path(), "a/b.toml");
}

#[test]
fn only_ascii_letters_are_lowered() {
    assert_eq!(to_ascii_lowercase("JSON"), "json");
    assert_eq!(to_ascii_lowercase("ToMl-9_É"), "toml-9_É");
    assert_eq!(to_ascii_lowercase("AZ@[az`{"), "az@[az`{");
}

#[test]
fn piped_text_loses_one_line_ending() {
    assert_eq!(piped_argument(""), None);
    assert_eq!(piped_argument("\n"), Some(String::new()));
    assert_eq!(piped_argument("text"), Some("text".to_string()));
    assert_eq!(piped_argument("text\r\n"), Some("text".to_string()));
    assert_eq!(piped_argument("text\n\n"), Some("text\n".to_string()));
    assert_eq!(piped_argument("text\r"), Some("text\r".to_string()));
    assert_eq!(piped_argument("text\r\r\n"), Some("text\r".to_string()));
}

#[test]
fn a_release_tag_starts_with_v() {
    assert_eq!(release_tag("1.2.3"), "v1.2.3");
    assert_eq!(release_tag("v1.2.3"), "v1.2.3");
    assert_eq!(release_tag(""), "v");
}

#[test]
fn stdin_support_follows_the_kind_unless_declared() {
    assert!(effective_stdin_supported(&spec(sequence_kind(), None)));
    assert!(!effective_stdin_supported(&spec(template_kind(), None)));
    assert!(!effective_stdin_supported(&spec(sequence_kind(), Some(false))));
    assert!(effective_stdin_supported(&spec(template_kind(), Some(true))));
}

#[test]
fn texts_are_joined_with_a_separator() {
    assert_eq!(join_texts(&texts(&[]), ", "), "");
    assert_eq!(join_texts(&texts(&["one"]), ", "), "one");
    assert_eq!(join_texts(&texts(&["one", "two", "three"]), ", "), "one, two, three");
}

#[test]
fn a_prompt_is_described_line_by_line() {
    let mut described = spec(sequence_kind(), None);
    described.metadata.description = Some("Echo prompt".to_string());
    described.metadata.tags = texts(&["alpha", "test"]);
    described.metadata.vars = vec![
        PromptVariable {
            name: "input".to_string(),
            required: true,
            kind: PromptVariableKind::Path,
            description: Some("Input file".to_string()),
        },
        PromptVariable {
            name: "count".to_string(),
            required: false,
            kind: PromptVariableKind::Number,
            description: None,
        },
    ];

    let lines = describe_prompt("echo", &described, Some("2024-05-01T10:00:00Z"));

    assert_eq!(
        lines,
        vec![
            "name: echo",
            "kind: sequence",
            "description: Echo prompt",
            "tags: alpha, test",
            "stdin supported: yes",
            "last modified: 2024-05-01T10:00:00Z",
            "source: /etc/prompts/config.toml",
            "vars:",
            "  - input (path) [required] \u{2014} Input file",
            "  - count (number)",
        ]
    );

    let plain = describe_prompt("tmpl", &spec(template_kind(), None), None);
    assert_eq!(
        plain,
        vec![
            "name: tmpl",
            "kind: template",
            "stdin supported: no",
            "source: /etc/prompts/config.toml",
        ]
    );
}

#[test]
fn completions_list_the_prompt_names() {
    let prompts = texts(&["alpha", "extra"]);
    assert_eq!(
        completion_footer(true, &prompts),
        Some("\n# prompt-assembler dynamic prompt list\n_pa_prompt_list=\"alpha extra\"\n".to_string())
    );
    assert_eq!(completion_footer(false, &prompts), Some("\n# prompts: alpha extra\n".to_string()));
    assert_eq!(completion_footer(true, &texts(&[])), None);
}

#[test]
fn variable_kinds_have_their_keywords() {
    let kinds = [
        (PromptVariableKind::String, "string"),
        (PromptVariableKind::Path, "path"),
        (PromptVariableKind::Number, "number"),
        (PromptVariableKind::Boolean, "boolean"),
    ];
    for (kind, keyword) in kinds {
        assert_eq!(kind.as_str(), keyword);
        assert_eq!(prompt_assembler::builder::parse_var_kind(keyword), Some(kind));
    }
    assert_eq!(prompt_assembler::builder::parse_var_kind("String"), None);
    assert_eq!(prompt_assembler::builder::parse_var_kind(""), None);
}
