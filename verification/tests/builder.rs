use indexmap::IndexMap;
use prompt_assembler::builder::build_prompt_spec;
use prompt_assembler::builder::parse_prompt_vars;
use prompt_assembler::builder::validate_prompt;
use prompt_assembler::cli::CliError;
use prompt_assembler::config::process_config_file;
use prompt_assembler::config::register_prompt;
use prompt_assembler::config::sort_files;
use prompt_assembler::Config;
use prompt_assembler::ConfigFile;
use prompt_assembler::ConfigIssue;
use prompt_assembler::ConfigIssueCode;
use prompt_assembler::ConfigLoad;
use prompt_assembler::FileContent;
use prompt_assembler::HomeDirectory;
use prompt_assembler::LoadConfigError;
use prompt_assembler::PartsError;
use prompt_assembler::PromptAssembler;
use prompt_assembler::PromptKind;
use prompt_assembler::PromptMetadata;
use prompt_assembler::PromptSource;
use prompt_assembler::PromptSpec;
use prompt_assembler::PromptVariable;
use prompt_assembler::PromptVariableKind;
use prompt_assembler::RawFile;
use prompt_assembler::RawPrompt;
use prompt_assembler::RawPromptVar;
use prompt_assembler::RenderError;
use prompt_assembler::ResolutionError;

fn strings(values: &[&str]) -> Vec<String> {
    values.iter().map(|value| value.to_string()).collect()
}

fn source() -> PromptSource {
    PromptSource { path: "/cfg/config.toml".to_string(), last_modified: None }
}

fn home_directory() -> HomeDirectory {
    HomeDirectory::Found("/home/ada".to_string())
}

fn raw_sequence(files: &[&str]) -> RawPrompt {
    RawPrompt {
        prompt_path: None,
        prompts: Some(strings(files)),
        template: None,
        description: None,
        tags: Vec::new(),
        vars: Vec::new(),
        stdin_supported: None,
    }
}

fn raw_var(name: &str, kind: Option<&str>) -> RawPromptVar {
    RawPromptVar {
        name: name.to_string(),
        required: false,
        kind: kind.map(str::to_string),
        description: None,
    }
}

fn invalid(message: &str) -> ConfigIssue {
    ConfigIssue {
        code: ConfigIssueCode::InvalidPrompt,
        message: message.to_string(),
        path: "/cfg/config.toml".to_string(),
        line: None,
    }
}

fn pathless(kind: PromptKind) -> PromptSpec {
    PromptSpec {
        prompt_path_override: None,
        inherited_prompt_path: None,
        kind,
        metadata: PromptMetadata {
            description: None,
            tags: Vec::new(),
            vars: Vec::new(),
            stdin_supported: None,
            source: source(),
        },
    }
}

#[test]
fn variables_are_checked_in_their_order() {
    let vars = vec![
        raw_var("first", None),
        raw_var("second", Some("boolean")),
        raw_var("third", Some("number")),
    ];
    let parsed = parse_prompt_vars("demo", vars, &source()).expect("valid variables");
    let kinds: Vec<(&str, PromptVariableKind)> =
        parsed.iter().map(|var| (var.name.as_str(), var.kind)).collect();
    assert_eq!(
        kinds,
        vec![
            ("first", PromptVariableKind::String),
            ("second", PromptVariableKind::Boolean),
            ("third", PromptVariableKind::Number),
        ]
    );

    let repeated_after_unknown =
        vec![raw_var("a", Some("colour")), raw_var("b", None), raw_var("b", None)];
    assert_eq!(
        parse_prompt_vars("demo", repeated_after_unknown, &source()),
        Err(invalid("unknown var type 'colour' for prompt 'demo'"))
    );

    let unknown_after_repeated =
        vec![raw_var("b", None), raw_var("b", Some("colour")), raw_var("c", Some("shade"))];
    assert_eq!(
        parse_prompt_vars("demo", unknown_after_repeated, &source()),
        Err(ConfigIssue {
            code: ConfigIssueCode::DuplicateVar,
            message: "var 'b' declared twice".to_string(),
            path: "/cfg/config.toml".to_string(),
            line: None,
        })
    );
    assert_eq!(parse_prompt_vars("demo", Vec::new(), &source()), Ok(Vec::new()));
}

#[test]
fn a_definition_is_checked_in_a_fixed_order() {
    let everything_wrong = RawPrompt {
        prompt_path: Some("~/mine".to_string()),
        template: Some("t.j2".to_string()),
        vars: vec![raw_var("x", None), raw_var("x", None)],
        ..raw_sequence(&[])
    };
    let outcome = build_prompt_spec(
        "/cfg",
        &HomeDirectory::Unavailable,
        &None,
        "demo",
        everything_wrong,
        &source(),
    );
    assert_eq!(outcome.unwrap_err(), invalid("prompt sequence cannot be empty"));

    let path_kind_and_variables = RawPrompt {
        prompt_path: Some("~/mine".to_string()),
        template: Some("t.j2".to_string()),
        vars: vec![raw_var("x", None), raw_var("x", None)],
        ..raw_sequence(&["a.md"])
    };
    let outcome = build_prompt_spec(
        "/cfg",
        &HomeDirectory::Unavailable,
        &None,
        "demo",
        path_kind_and_variables.clone(),
        &source(),
    );
    assert_eq!(
        outcome.unwrap_err(),
        invalid(
            "prompt 'demo' has invalid prompt_path '~/mine': cannot resolve '~' without home directory"
        )
    );

    let outcome = build_prompt_spec(
        "/cfg",
        &home_directory(),
        &None,
        "demo",
        path_kind_and_variables,
        &source(),
    );
    assert_eq!(outcome.unwrap_err(), invalid("prompts and template are exclusive options"));

    let variables_only =
        RawPrompt { vars: vec![raw_var("x", None), raw_var("x", None)], ..raw_sequence(&["a.md"]) };
    let outcome =
        build_prompt_spec("/cfg", &home_directory(), &None, "demo", variables_only, &source());
    assert_eq!(outcome.unwrap_err().code, ConfigIssueCode::DuplicateVar);
}

#[test]
fn an_empty_fragment_list_beside_a_template_cannot_be_empty() {
    let raw = RawPrompt { template: Some("t.j2".to_string()), ..raw_sequence(&[]) };
    let outcome = build_prompt_spec("/cfg", &home_directory(), &None, "demo", raw, &source());
    let issue = outcome.unwrap_err();
    assert_eq!(issue.code, ConfigIssueCode::InvalidPrompt);
    assert!(issue.message.contains("cannot be empty"));
    assert_eq!(issue, invalid("prompt sequence cannot be empty"));
}

#[test]
fn a_valid_definition_becomes_a_registry_entry() {
    let raw = RawPrompt {
        prompt_path: Some("mine".to_string()),
        description: Some("Demo".to_string()),
        tags: strings(&["a", "b"]),
        vars: vec![RawPromptVar {
            name: "input".to_string(),
            required: true,
            kind: Some("path".to_string()),
            description: Some("Input file".to_string()),
        }],
        stdin_supported: Some(false),
        ..raw_sequence(&["one.md", "two.md"])
    };
    let spec = build_prompt_spec(
        "/cfg",
        &home_directory(),
        &Some("/cfg/default".to_string()),
        "demo",
        raw,
        &source(),
    )
    .expect("valid definition");

    assert_eq!(spec.prompt_path_override.as_deref(), Some("/cfg/mine"));
    assert_eq!(spec.inherited_prompt_path.as_deref(), Some("/cfg/default"));
    assert_eq!(spec.kind, PromptKind::Sequence { files: strings(&["one.md", "two.md"]) });
    assert_eq!(spec.metadata.description.as_deref(), Some("Demo"));
    assert_eq!(spec.metadata.tags, strings(&["a", "b"]));
    assert_eq!(
        spec.metadata.vars,
        vec![PromptVariable {
            name: "input".to_string(),
            required: true,
            kind: PromptVariableKind::Path,
            description: Some("Input file".to_string()),
        }]
    );
    assert_eq!(spec.metadata.stdin_supported, Some(false));
    assert_eq!(spec.metadata.source.path, "/cfg/config.toml");
}

#[test]
fn a_resolution_is_taken_as_it_is_handed_over() {
    let resolved = validate_prompt(
        "demo",
        raw_sequence(&["a.md"]),
        &source(),
        None,
        Some(Ok("/elsewhere".to_string())),
    )
    .expect("valid definition");
    assert_eq!(resolved.prompt_path_override.as_deref(), Some("/elsewhere"));
    assert_eq!(resolved.inherited_prompt_path, None);

    let failed = validate_prompt(
        "demo",
        RawPrompt { prompt_path: Some("~/x".to_string()), ..raw_sequence(&["a.md"]) },
        &source(),
        None,
        Some(Err(ResolutionError::HomeNotUtf8)),
    );
    assert_eq!(
        failed.unwrap_err(),
        invalid("prompt 'demo' has invalid prompt_path '~/x': home directory is not valid UTF-8")
    );
}

#[test]
fn a_definition_is_folded_into_the_accumulators() {
    let mut prompts = IndexMap::new();
    let mut warnings = Vec::new();
    let mut errors = Vec::new();
    let default = Some("/cfg".to_string());

    register_prompt(
        "/cfg",
        &home_directory(),
        &source(),
        "demo".to_string(),
        raw_sequence(&["a.md"]),
        &mut prompts,
        &default,
        &mut warnings,
        &mut errors,
    );
    assert_eq!(prompts.len(), 1);
    assert!(warnings.is_empty() && errors.is_empty());

    let later = PromptSource { path: "/cfg/conf.d/10.toml".to_string(), last_modified: None };
    register_prompt(
        "/cfg",
        &home_directory(),
        &later,
        "demo".to_string(),
        raw_sequence(&["b.md"]),
        &mut prompts,
        &default,
        &mut warnings,
        &mut errors,
    );
    assert_eq!(prompts.len(), 1);
    assert_eq!(prompts["demo"].kind, PromptKind::Sequence { files: strings(&["b.md"]) });
    assert_eq!(
        warnings,
        vec![ConfigIssue {
            code: ConfigIssueCode::Override,
            message: "prompt 'demo' overrides definition from /cfg/config.toml".to_string(),
            path: "/cfg/conf.d/10.toml".to_string(),
            line: None,
        }]
    );

    register_prompt(
        "/cfg",
        &home_directory(),
        &later,
        "demo".to_string(),
        raw_sequence(&[]),
        &mut prompts,
        &default,
        &mut warnings,
        &mut errors,
    );
    assert_eq!(prompts["demo"].kind, PromptKind::Sequence { files: strings(&["b.md"]) });
    assert_eq!(warnings.len(), 1);
    assert_eq!(errors.len(), 1);
    assert_eq!(errors[0].message, "prompt sequence cannot be empty");
    assert_eq!(errors[0].path, "/cfg/conf.d/10.toml");
}

#[test]
fn a_file_is_folded_into_the_accumulators() {
    let mut prompts = IndexMap::new();
    let mut default = Some("/cfg".to_string());
    let mut warnings = Vec::new();
    let mut errors = Vec::new();

    let file = ConfigFile {
        path: "/cfg/config.toml".to_string(),
        last_modified: None,
        content: FileContent::Parsed(RawFile {
            prompt_path: Some("/library".to_string()),
            prompt: vec![
                ("one".to_string(), raw_sequence(&["1.md"])),
                ("two".to_string(), raw_sequence(&["2.md"])),
            ],
        }),
    };
    let outcome = process_config_file(
        "/cfg",
        &home_directory(),
        file,
        &mut prompts,
        &mut default,
        &mut warnings,
        &mut errors,
    );
    assert_eq!(outcome, Ok(()));
    assert_eq!(default.as_deref(), Some("/library"));
    let names: Vec<&String> = prompts.keys().collect();
    assert_eq!(names, vec!["one", "two"]);
    assert_eq!(prompts["one"].inherited_prompt_path.as_deref(), Some("/library"));

    let unreadable = ConfigFile {
        path: "/cfg/conf.d/10.toml".to_string(),
        last_modified: None,
        content: FileContent::Unreadable { source: "gone".to_string() },
    };
    let outcome = process_config_file(
        "/cfg",
        &home_directory(),
        unreadable,
        &mut prompts,
        &mut default,
        &mut warnings,
        &mut errors,
    );
    assert_eq!(
        outcome,
        Err(LoadConfigError::Io { path: "/cfg/conf.d/10.toml".to_string(), source: "gone".to_string() })
    );
    assert_eq!(prompts.len(), 2);
    assert_eq!(default.as_deref(), Some("/library"));
}

#[test]
fn override_files_are_put_in_the_order_of_their_paths() {
    let file = |path: &str, mark: &str| ConfigFile {
        path: path.to_string(),
        last_modified: None,
        content: FileContent::Malformed { message: mark.to_string() },
    };
    let sorted = sort_files(vec![
        file("/c/20.toml", "first 20"),
        file("/c/10.toml", "ten"),
        file("/c/20.toml", "second 20"),
        file("/c/05.toml", "five"),
        file("/c/100.toml", "hundred"),
    ]);
    let order: Vec<(&str, &FileContent)> =
        sorted.iter().map(|file| (file.path.as_str(), &file.content)).collect();
    assert_eq!(
        order,
        vec![
            ("/c/05.toml", &FileContent::Malformed { message: "five".to_string() }),
            ("/c/10.toml", &FileContent::Malformed { message: "ten".to_string() }),
            ("/c/100.toml", &FileContent::Malformed { message: "hundred".to_string() }),
            ("/c/20.toml", &FileContent::Malformed { message: "first 20".to_string() }),
            ("/c/20.toml", &FileContent::Malformed { message: "second 20".to_string() }),
        ]
    );
}

#[test]
fn a_prompt_without_a_directory_cannot_be_rendered() {
    let mut prompts = IndexMap::new();
    prompts.insert("seq".to_string(), pathless(PromptKind::Sequence { files: strings(&["a.md"]) }));
    prompts
        .insert("tpl".to_string(), pathless(PromptKind::Template { template: "t.j2".to_string() }));
    let assembler = PromptAssembler::from_load(ConfigLoad {
        config: Config { root: "/cfg".to_string(), default_prompt_path: None, prompts },
        warnings: Vec::new(),
    });

    let sequence = assembler.render_prompt("seq", None);
    assert_eq!(sequence, Err(RenderError::MissingPromptPath { is_template: false }));
    assert_eq!(sequence.unwrap_err().message(), "sequence prompt missing prompt_path");

    let data = prompt_assembler::StructuredData::Json("d.json".to_string());
    let template = assembler.render_prompt("tpl", Some(data));
    assert_eq!(template, Err(RenderError::MissingPromptPath { is_template: true }));
    assert_eq!(template.unwrap_err().message(), "template prompt missing prompt_path");

    assert_eq!(assembler.part_candidates("/work", "part.md"), vec!["/work/part.md"]);
}

#[test]
fn failures_outside_the_library_have_their_sentences() {
    let reason = "No such file or directory".to_string();
    assert_eq!(
        RenderError::FragmentUnreadable {
            file: "intro.md".to_string(),
            name: "ticket".to_string(),
            reason: reason.clone(),
        }
        .message(),
        "failed to read fragment 'intro.md' for prompt 'ticket'"
    );
    assert_eq!(
        RenderError::TemplateNotFound {
            name: "greeting".to_string(),
            template: "greet.j2".to_string(),
            reason: reason.clone(),
        }
        .message(),
        "prompt 'greeting' template 'greet.j2' not found"
    );
    assert_eq!(
        RenderError::DataUnreadable {
            path: "/d/vars.json".to_string(),
            name: "greeting".to_string(),
            reason: reason.clone(),
        }
        .message(),
        "failed to load data file /d/vars.json for prompt 'greeting'"
    );
    assert_eq!(
        RenderError::TemplateFailed {
            template: "greet.j2".to_string(),
            name: "greeting".to_string(),
            reason: reason.clone(),
        }
        .message(),
        "rendering template 'greet.j2' for prompt 'greeting'"
    );
    assert_eq!(
        PartsError::Unreadable {
            name: "part.md".to_string(),
            path: "/work/part.md".to_string(),
            reason,
        }
        .message(),
        "failed to read part 'part.md' at /work/part.md"
    );
    assert_eq!(CliError::PromptNameRequired.message(), "prompt name is required");
    assert_eq!(
        CliError::UnknownPrompt { prompt: "nope".to_string() }.message(),
        "unknown prompt: nope"
    );
    assert_eq!(
        LoadConfigError::Invalid {
            diagnostics: prompt_assembler::ConfigDiagnostics {
                errors: Vec::new(),
                warnings: Vec::new(),
            },
        }
        .message(),
        "configuration is invalid"
    );
}

#[test]
fn an_issue_with_a_line_is_described_with_it() {
    let issue = ConfigIssue::new(
        ConfigIssueCode::ParseError,
        "/cfg/config.toml".to_string(),
        Some(1204),
        "expected `=`".to_string(),
    );
    assert_eq!(issue.describe(), "/cfg/config.toml:1204: expected `=`");
    assert_eq!(issue.code.as_str(), "parse_error");
    assert_eq!(ConfigIssueCode::Override.as_str(), "override");
    assert_eq!(ConfigIssueCode::InvalidPrompt.as_str(), "invalid_prompt");
    assert_eq!(ConfigIssueCode::DuplicateVar.as_str(), "duplicate_var");
}

#[test]
fn a_file_with_an_unresolved_default_still_has_its_prompts_checked() {
    let mut prompts = IndexMap::new();
    let mut default = Some("/cfg".to_string());
    let mut warnings = Vec::new();
    let mut errors = Vec::new();
    let bad = RawPrompt { template: Some("t.j2".to_string()), ..raw_sequence(&["a.md"]) };
    let file = ConfigFile {
        path: "/cfg/config.toml".to_string(),
        last_modified: None,
        content: FileContent::Parsed(RawFile {
            prompt_path: Some("~/library".to_string()),
            prompt: vec![
                ("bad".to_string(), bad),
                ("good".to_string(), raw_sequence(&["g.md"])),
            ],
        }),
    };

    let outcome = process_config_file(
        "/cfg",
        &HomeDirectory::Unavailable,
        file,
        &mut prompts,
        &mut default,
        &mut warnings,
        &mut errors,
    );

    assert_eq!(outcome, Ok(()));
    assert_eq!(default.as_deref(), Some("/cfg"));
    assert_eq!(
        errors,
        vec![
            invalid("invalid prompt_path '~/library': cannot resolve '~' without home directory"),
            invalid("prompts and template are exclusive options"),
        ]
    );
    let names: Vec<&String> = prompts.keys().collect();
    assert_eq!(names, vec!["good"]);
    assert_eq!(prompts["good"].inherited_prompt_path.as_deref(), Some("/cfg"));
    assert!(warnings.is_empty());
}
