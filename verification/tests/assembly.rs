use prompt_assembler::config::load_config_in;
use prompt_assembler::data::template_context;
use prompt_assembler::overrides::plan_overrides;
use prompt_assembler::placeholder::append_fragment;
use prompt_assembler::ConfigFile;
use prompt_assembler::ConfigIssueCode;
use prompt_assembler::DataEntry;
use prompt_assembler::DataValue;
use prompt_assembler::DirectoryEntry;
use prompt_assembler::FileContent;
use prompt_assembler::HomeDirectory;
use prompt_assembler::LoadConfigError;
use prompt_assembler::OverrideFiles;
use prompt_assembler::PartsError;
use prompt_assembler::PromptAssembler;
use prompt_assembler::PromptKind;
use prompt_assembler::RawFile;
use prompt_assembler::RawPrompt;
use prompt_assembler::RawPromptVar;
use prompt_assembler::RenderError;
use prompt_assembler::RenderPlan;
use prompt_assembler::StructuredData;

const ROOT: &str = "/etc/prompts";
const LIBRARY: &str = "/etc/prompts/library";

/// The files of a test: paths with their contents.
type Disk = Vec<(String, String)>;

fn texts(values: &[&str]) -> Vec<String> {
    values.iter().map(|value| value.to_string()).collect()
}

fn read(disk: &Disk, path: &str) -> Option<String> {
    disk.iter().find(|(name, _)| name == path).map(|(_, content)| content.clone())
}

fn write_file(disk: &mut Disk, dir: &str, relative: &str, contents: &str) {
    disk.push((format!("{dir}/{relative}"), contents.to_string()));
}

fn bare_prompt() -> RawPrompt {
    RawPrompt {
        prompt_path: None,
        prompts: None,
        template: None,
        description: None,
        tags: Vec::new(),
        vars: Vec::new(),
        stdin_supported: None,
    }
}

fn sequence(files: &[&str]) -> RawPrompt {
    RawPrompt { prompts: Some(texts(files)), ..bare_prompt() }
}

fn template(name: &str) -> RawPrompt {
    RawPrompt { template: Some(name.to_string()), ..bare_prompt() }
}

fn var(name: &str, required: bool) -> RawPromptVar {
    RawPromptVar { name: name.to_string(), required, kind: None, description: None }
}

fn parsed(path: &str, prompt_path: Option<&str>, prompts: Vec<(&str, RawPrompt)>) -> ConfigFile {
    ConfigFile {
        path: path.to_string(),
        last_modified: None,
        content: FileContent::Parsed(RawFile {
            prompt_path: prompt_path.map(str::to_string),
            prompt: prompts.into_iter().map(|(name, raw)| (name.to_string(), raw)).collect(),
        }),
    }
}

fn base(prompt_path: Option<&str>, prompts: Vec<(&str, RawPrompt)>) -> Option<ConfigFile> {
    Some(parsed("/etc/prompts/config.toml", prompt_path, prompts))
}

/// The override files in the order that the listing of their directory gives them.
fn listed(files: Vec<ConfigFile>) -> OverrideFiles {
    let entries: Vec<DirectoryEntry> =
        files.iter().map(|file| DirectoryEntry::named(file.path.clone())).collect();
    let plan = plan_overrides("/etc/prompts/conf.d", &entries);
    let mut remaining = files;
    let mut ordered = Vec::new();
    for path in &plan.files {
        let place = remaining.iter().position(|file| &file.path == path).unwrap();
        ordered.push(remaining.remove(place));
    }
    OverrideFiles::Listed { issues: plan.issues, files: ordered }
}

fn home() -> HomeDirectory {
    HomeDirectory::Found("/home/ada".to_string())
}

fn to_json(value: DataValue) -> serde_json::Value {
    match value {
        DataValue::Null => serde_json::Value::Null,
        DataValue::Bool(flag) => serde_json::Value::Bool(flag),
        DataValue::Integer(number) => serde_json::Value::from(number),
        DataValue::Unsigned(number) => serde_json::Value::from(number),
        DataValue::Float { bits } => serde_json::Value::from(f64::from_bits(bits)),
        DataValue::Text(text) => serde_json::Value::String(text),
        DataValue::List(items) => {
            serde_json::Value::Array(items.into_iter().map(to_json).collect())
        }
        DataValue::Table(entries) => {
            let mut map = serde_json::Map::new();
            for DataEntry { key, value } in entries {
                map.insert(key, to_json(value));
            }
            serde_json::Value::Object(map)
        }
    }
}

fn from_json(value: serde_json::Value) -> DataValue {
    match value {
        serde_json::Value::Null => DataValue::Null,
        serde_json::Value::Bool(flag) => DataValue::Bool(flag),
        serde_json::Value::Number(number) => {
            if let Some(unsigned) = number.as_u64() {
                DataValue::Unsigned(unsigned)
            } else if let Some(integer) = number.as_i64() {
                DataValue::Integer(integer)
            } else {
                DataValue::Float { bits: number.as_f64().unwrap_or(0.0).to_bits() }
            }
        }
        serde_json::Value::String(text) => DataValue::Text(text),
        serde_json::Value::Array(items) => {
            DataValue::List(items.into_iter().map(from_json).collect())
        }
        serde_json::Value::Object(map) => DataValue::Table(
            map.into_iter().map(|(key, value)| DataEntry { key, value: from_json(value) }).collect(),
        ),
    }
}

fn load_data(disk: &Disk, data: &StructuredData) -> Result<DataValue, String> {
    let content = read(disk, data.path()).ok_or_else(|| format!("failed to open {}", data.path()))?;
    match data {
        StructuredData::Json(path) => serde_json::from_str::<serde_json::Value>(&content)
            .map(from_json)
            .map_err(|error| format!("failed to parse JSON data from {path}: {error}")),
        StructuredData::Toml(path) => {
            let value = toml::from_str::<toml::Value>(&content)
                .map_err(|error| format!("failed to parse TOML data from {path}: {error}"))?;
            serde_json::to_value(value)
                .map(from_json)
                .map_err(|error| format!("failed to convert TOML to JSON: {error}"))
        }
    }
}

/// Renders a prompt the way a front end does: the library plans and
/// computes, the files come from `disk`.
fn render_prompt(
    assembler: &PromptAssembler,
    disk: &Disk,
    name: &str,
    args: &[String],
    data: Option<StructuredData>,
) -> Result<String, RenderError> {
    match assembler.render_prompt(name, data)? {
        RenderPlan::Sequence { fragments } => {
            let mut rendered = String::new();
            for fragment in fragments {
                let content = read(disk, &fragment.path).ok_or_else(|| {
                    RenderError::FragmentUnreadable {
                        file: fragment.file.clone(),
                        name: name.to_string(),
                        reason: format!("failed to open {}", fragment.path),
                    }
                })?;
                append_fragment(&mut rendered, &content, args).map_err(RenderError::Placeholder)?;
            }
            Ok(rendered)
        }
        RenderPlan::Template { base, template, data } => {
            let mut env = minijinja::Environment::new();
            env.set_keep_trailing_newline(true);
            env.set_undefined_behavior(minijinja::UndefinedBehavior::Lenient);
            let source = read(disk, &format!("{base}/{template}")).ok_or_else(|| {
                RenderError::TemplateNotFound {
                    name: name.to_string(),
                    template: template.clone(),
                    reason: "template not found".to_string(),
                }
            })?;
            env.add_template_owned(template.clone(), source).map_err(|error| {
                RenderError::TemplateNotFound {
                    name: name.to_string(),
                    template: template.clone(),
                    reason: error.to_string(),
                }
            })?;
            let root = load_data(disk, &data).map_err(|reason| RenderError::DataUnreadable {
                path: data.path().to_string(),
                name: name.to_string(),
                reason,
            })?;
            let context = to_json(DataValue::Table(template_context(root, args)));
            env.get_template(&template)
                .and_then(|loaded| loaded.render(minijinja::Value::from_serialize(&context)))
                .map_err(|error| RenderError::TemplateFailed {
                    template,
                    name: name.to_string(),
                    reason: error.to_string(),
                })
        }
    }
}

fn invalid_diagnostics(error: LoadConfigError) -> prompt_assembler::ConfigDiagnostics {
    match error {
        LoadConfigError::Invalid { diagnostics } => diagnostics,
        other => panic!("unexpected error: {}", other.message()),
    }
}

#[test]
fn lists_prompts_from_base_and_conf_d() {
    let mut disk = Disk::new();
    let assembler = PromptAssembler::from_directory(
        ROOT,
        base(Some(LIBRARY), vec![("alpha", sequence(&["a.md"]))]),
        listed(vec![parsed(
            "/etc/prompts/conf.d/10-beta.toml",
            None,
            vec![("beta", sequence(&["b.md"]))],
        )]),
    )
    .expect("load assembler");
    write_file(&mut disk, LIBRARY, "a.md", "Alpha\n");
    write_file(&mut disk, LIBRARY, "b.md", "Beta\n");

    let names: Vec<String> =
        assembler.available_prompts().into_iter().map(|(name, _)| name).collect();

    assert_eq!(names, vec!["alpha", "beta"]);
}

#[test]
fn renders_sequence_prompt_with_arguments() {
    let mut disk = Disk::new();
    let assembler = PromptAssembler::from_directory(
        ROOT,
        base(Some(LIBRARY), vec![("ticket", sequence(&["intro.md", "details.md"]))]),
        OverrideFiles::Absent,
    )
    .expect("load assembler");
    write_file(&mut disk, LIBRARY, "intro.md", "Ticket {0}\n");
    write_file(&mut disk, LIBRARY, "details.md", "Details {{ {1} }}\n");

    let rendered =
        render_prompt(&assembler, &disk, "ticket", &texts(&["ABC-123", "Check logs"]), None)
            .expect("render prompt");

    assert_eq!(rendered, "Ticket ABC-123\nDetails { Check logs }\n");
}

#[test]
fn renders_template_prompt_with_json_data() {
    let mut disk = Disk::new();
    let assembler = PromptAssembler::from_directory(
        ROOT,
        base(Some(LIBRARY), vec![("greeting", template("greet.j2"))]),
        OverrideFiles::Absent,
    )
    .expect("load assembler");
    write_file(&mut disk, LIBRARY, "greet.j2", "Hello {{ name }}!\n");
    write_file(&mut disk, LIBRARY, "data.json", r#"{"name": "World"}"#);
    let data_path = format!("{LIBRARY}/data.json");

    let rendered =
        render_prompt(&assembler, &disk, "greeting", &[], Some(StructuredData::Json(data_path)))
            .expect("render template");

    assert_eq!(rendered, "Hello World!\n");
}

#[test]
fn renders_template_prompt_with_toml_data() {
    let mut disk = Disk::new();
    let assembler = PromptAssembler::from_directory(
        ROOT,
        base(Some(LIBRARY), vec![("system", template("system.j2"))]),
        OverrideFiles::Absent,
    )
    .expect("load assembler");
    write_file(&mut disk, LIBRARY, "system.j2", "Role: {{ role }}\n");
    write_file(&mut disk, LIBRARY, "data.toml", "role = \"admin\"\n");
    let data_path = format!("{LIBRARY}/data.toml");

    let rendered =
        render_prompt(&assembler, &disk, "system", &[], Some(StructuredData::Toml(data_path)))
            .expect("render template");

    assert_eq!(rendered, "Role: admin\n");
}

#[test]
fn fails_when_arguments_missing() {
    let mut disk = Disk::new();
    let assembler = PromptAssembler::from_directory(
        ROOT,
        base(Some(LIBRARY), vec![("partial", sequence(&["only.md"]))]),
        OverrideFiles::Absent,
    )
    .expect("load assembler");
    write_file(&mut disk, LIBRARY, "only.md", "Value {0} and {1}\n");

    let err = render_prompt(&assembler, &disk, "partial", &texts(&["one"]), None)
        .expect_err("expected missing argument error");

    assert!(err.message().contains("missing argument"));
    assert_eq!(err.message(), "missing argument for placeholder {1}");
}

#[test]
fn prompt_path_override_applies_per_prompt() {
    let mut disk = Disk::new();
    let shared_dir = "/etc/prompts/shared";
    let overrides_dir = "/etc/prompts/overrides";
    let assembler = PromptAssembler::from_directory(
        ROOT,
        base(
            Some(shared_dir),
            vec![
                ("base", sequence(&["base.md"])),
                (
                    "override",
                    RawPrompt {
                        prompt_path: Some(overrides_dir.to_string()),
                        ..sequence(&["special.md"])
                    },
                ),
            ],
        ),
        OverrideFiles::Absent,
    )
    .expect("load assembler");
    write_file(&mut disk, shared_dir, "base.md", "BASE\n");
    write_file(&mut disk, overrides_dir, "special.md", "OVERRIDE\n");

    let base = render_prompt(&assembler, &disk, "base", &[], None).expect("render base");
    let special = render_prompt(&assembler, &disk, "override", &[], None).expect("render override");

    assert_eq!(base, "BASE\n");
    assert_eq!(special, "OVERRIDE\n");
}

#[test]
fn loads_without_prompt_definitions() {
    let mut disk = Disk::new();
    let assembler = PromptAssembler::from_directory(ROOT, None, OverrideFiles::Absent)
        .expect("load assembler without prompts");

    assert!(!assembler.has_prompts());

    write_file(&mut disk, ROOT, "standalone.md", "standalone content\n");

    let names = texts(&["standalone.md"]);
    let mut contents = Vec::new();
    for name in &names {
        let places = assembler.part_candidates(ROOT, name);
        let exists: Vec<bool> = places.iter().map(|place| read(&disk, place).is_some()).collect();
        let path = PromptAssembler::resolve_part_path(name, &places, &exists)
            .expect("assemble parts without prompt definitions");
        contents.push(read(&disk, &path).unwrap());
    }
    let assembled_parts = assembler
        .assemble_parts(&names, &contents)
        .expect("assemble parts without prompt definitions");

    assert_eq!(assembled_parts, "standalone content\n");
}

#[test]
fn default_prompt_path_is_config_directory() {
    let mut disk = Disk::new();
    let assembler = PromptAssembler::from_directory(
        ROOT,
        base(None, vec![("default", sequence(&["default.md"]))]),
        OverrideFiles::Absent,
    )
    .expect("load assembler");
    write_file(&mut disk, ROOT, "default.md", "Default\n");

    let rendered =
        render_prompt(&assembler, &disk, "default", &[], None).expect("render default prompt");

    assert_eq!(rendered, "Default\n");
}

#[test]
fn reports_missing_prompt() {
    let mut disk = Disk::new();
    let assembler = PromptAssembler::from_directory(
        ROOT,
        base(Some(LIBRARY), vec![("alpha", sequence(&["a.md"]))]),
        OverrideFiles::Absent,
    )
    .expect("load assembler");
    write_file(&mut disk, LIBRARY, "a.md", "A\n");

    let err = render_prompt(&assembler, &disk, "missing", &[], None)
        .expect_err("prompt should be missing");

    assert!(err.message().contains("unknown prompt"));
    assert_eq!(err, RenderError::UnknownPrompt { name: "missing".to_string() });
}

#[test]
fn config_errors_when_prompt_defines_sequence_and_template() {
    let invalid =
        RawPrompt { template: Some("bad.j2".to_string()), ..sequence(&["a.md"]) };
    let err = PromptAssembler::from_directory(
        ROOT,
        base(Some("~/.config/pa/"), vec![("invalid", invalid)]),
        OverrideFiles::Absent,
    )
    .expect_err("config should fail");

    let diagnostics = invalid_diagnostics(err);
    assert!(diagnostics.errors.iter().any(|issue| issue.message.contains("exclusive")));
}

#[test]
fn config_errors_when_prompt_sequence_is_empty() {
    let err = PromptAssembler::from_directory(
        ROOT,
        base(Some("~/.config/pa/"), vec![("empty", sequence(&[]))]),
        OverrideFiles::Absent,
    )
    .expect_err("config should fail");

    let diagnostics = invalid_diagnostics(err);
    assert!(diagnostics
        .errors
        .iter()
        .any(|issue| issue.message.contains("prompt sequence cannot be empty")));
}

#[test]
fn later_conf_d_entries_override_base_definition() {
    let mut disk = Disk::new();
    let assembler = PromptAssembler::from_directory(
        ROOT,
        base(Some(LIBRARY), vec![("note", sequence(&["base.md"]))]),
        listed(vec![parsed(
            "/etc/prompts/conf.d/20-override.toml",
            None,
            vec![("note", template("note.j2"))],
        )]),
    )
    .expect("load assembler");
    write_file(&mut disk, LIBRARY, "base.md", "Base\n");
    write_file(&mut disk, LIBRARY, "note.j2", "Override {{ value }}\n");
    write_file(&mut disk, LIBRARY, "data.json", r#"{"value": "yes"}"#);
    let data_path = format!("{LIBRARY}/data.json");

    let rendered =
        render_prompt(&assembler, &disk, "note", &[], Some(StructuredData::Json(data_path)))
            .expect("render template");

    assert_eq!(rendered, "Override yes\n");
}

#[test]
fn config_errors_on_unknown_prompt_key() {
    let report = "unknown field `unexpected`, expected one of `prompt_path`, `prompts`, \
                  `template`, `description`, `tags`, `vars`, `stdin`";
    let err = PromptAssembler::from_directory(
        ROOT,
        Some(ConfigFile {
            path: "/etc/prompts/config.toml".to_string(),
            last_modified: None,
            content: FileContent::Malformed { message: report.to_string() },
        }),
        OverrideFiles::Absent,
    )
    .expect_err("unknown key should fail");

    let diagnostics = invalid_diagnostics(err);
    assert!(diagnostics.errors.iter().any(|issue| issue.message.contains("unexpected")));
    assert_eq!(diagnostics.errors[0].code, ConfigIssueCode::ParseError);
    assert_eq!(diagnostics.errors[0].line, None);
}

#[test]
fn errors_on_non_sequential_placeholder_index() {
    let mut disk = Disk::new();
    let assembler = PromptAssembler::from_directory(
        ROOT,
        base(Some(LIBRARY), vec![("skip", sequence(&["skip.md"]))]),
        OverrideFiles::Absent,
    )
    .expect("load assembler");
    write_file(&mut disk, LIBRARY, "skip.md", "First {0}, third {2}\n");

    let err = render_prompt(&assembler, &disk, "skip", &texts(&["one"]), None)
        .expect_err("missing {1} should error");

    assert!(err.message().contains("placeholder"));
}

#[test]
fn errors_on_placeholder_index_above_nine() {
    let mut disk = Disk::new();
    let assembler = PromptAssembler::from_directory(
        ROOT,
        base(Some(LIBRARY), vec![("ten", sequence(&["ten.md"]))]),
        OverrideFiles::Absent,
    )
    .expect("load assembler");
    write_file(&mut disk, LIBRARY, "ten.md", "Value {10}\n");

    let err = render_prompt(&assembler, &disk, "ten", &texts(&["one"]), None)
        .expect_err("placeholder above nine should fail");

    assert!(err.message().contains("up to 9"));
}

#[test]
fn errors_when_prompt_fragment_missing() {
    let disk = Disk::new();
    let assembler = PromptAssembler::from_directory(
        ROOT,
        base(Some(LIBRARY), vec![("missing", sequence(&["missing.md"]))]),
        OverrideFiles::Absent,
    )
    .expect("load assembler");

    let err = render_prompt(&assembler, &disk, "missing", &[], None)
        .expect_err("missing file should error");

    assert!(err.message().contains("missing.md"));
}

#[test]
fn errors_when_data_file_missing() {
    let mut disk = Disk::new();
    let assembler = PromptAssembler::from_directory(
        ROOT,
        base(Some(LIBRARY), vec![("template", template("tpl.j2"))]),
        OverrideFiles::Absent,
    )
    .expect("load assembler");
    write_file(&mut disk, LIBRARY, "tpl.j2", "{{ value }}\n");
    let data_path = format!("{LIBRARY}/missing.json");

    let err =
        render_prompt(&assembler, &disk, "template", &[], Some(StructuredData::Json(data_path)))
            .expect_err("missing data file should error");

    assert!(err.message().contains("missing.json"));
}

#[test]
fn errors_when_data_given_for_sequence_prompt() {
    let mut disk = Disk::new();
    let assembler = PromptAssembler::from_directory(
        ROOT,
        base(Some(LIBRARY), vec![("sequence", sequence(&["seq.md"]))]),
        OverrideFiles::Absent,
    )
    .expect("load assembler");
    write_file(&mut disk, LIBRARY, "seq.md", "Only text\n");
    write_file(&mut disk, LIBRARY, "vars.json", "{}");
    let data_path = format!("{LIBRARY}/vars.json");

    let err =
        render_prompt(&assembler, &disk, "sequence", &[], Some(StructuredData::Json(data_path)))
            .expect_err("sequence prompt should reject data");

    assert!(err.message().contains("does not accept structured data"));
}

#[test]
fn errors_when_template_prompt_missing_data() {
    let mut disk = Disk::new();
    let assembler = PromptAssembler::from_directory(
        ROOT,
        base(Some(LIBRARY), vec![("template", template("should-need-data.j2"))]),
        OverrideFiles::Absent,
    )
    .expect("load assembler");
    write_file(&mut disk, LIBRARY, "should-need-data.j2", "{{ value }}\n");

    let err = render_prompt(&assembler, &disk, "template", &[], None)
        .expect_err("template without data should error");

    assert!(err.message().contains("data file"));
    assert_eq!(err, RenderError::DataRequired { name: "template".to_string() });
}

#[test]
fn a_template_prompt_without_data_fails_before_any_file_is_planned() {
    let assembler = PromptAssembler::from_directory(
        ROOT,
        base(Some(LIBRARY), vec![("template", template("absent.j2"))]),
        OverrideFiles::Absent,
    )
    .expect("load assembler");

    let outcome = assembler.render_prompt("template", None);

    assert_eq!(outcome, Err(RenderError::DataRequired { name: "template".to_string() }));
    assert_eq!(
        outcome.unwrap_err().message(),
        "prompt 'template' requires a data file for structured context"
    );
}

#[test]
fn an_undefined_template_variable_renders_as_nothing() {
    let mut disk = Disk::new();
    let assembler = PromptAssembler::from_directory(
        ROOT,
        base(Some(LIBRARY), vec![("greeting", template("greet.j2"))]),
        OverrideFiles::Absent,
    )
    .expect("load assembler");
    write_file(&mut disk, LIBRARY, "greet.j2", "Hello {{ name }}!");
    write_file(&mut disk, LIBRARY, "data.json", r#"{"issue": "network"}"#);
    let data_path = format!("{LIBRARY}/data.json");

    let rendered =
        render_prompt(&assembler, &disk, "greeting", &[], Some(StructuredData::Json(data_path)))
            .expect("render template");

    assert_eq!(rendered, "Hello !");
}

#[test]
fn the_last_file_in_path_order_defines_a_prompt() {
    let load = load_config_in(
        ROOT,
        &home(),
        base(None, vec![("note", sequence(&["base.md"])), ("other", sequence(&["o.md"]))]),
        OverrideFiles::Listed {
            issues: Vec::new(),
            files: vec![
                parsed("/etc/prompts/conf.d/20-b.toml", None, vec![("note", sequence(&["b.md"]))]),
                parsed("/etc/prompts/conf.d/10-a.toml", None, vec![("note", sequence(&["a.md"]))]),
            ],
        },
    )
    .expect("load");

    let names: Vec<&String> = load.config.prompts.keys().collect();
    assert_eq!(names, vec!["note", "other"]);
    let note = &load.config.prompts["note"];
    assert_eq!(note.kind, PromptKind::Sequence { files: texts(&["b.md"]) });
    assert_eq!(note.metadata.source.path, "/etc/prompts/conf.d/20-b.toml");

    let warnings: Vec<(ConfigIssueCode, &str, &str)> = load
        .warnings
        .iter()
        .map(|issue| (issue.code, issue.path.as_str(), issue.message.as_str()))
        .collect();
    assert_eq!(
        warnings,
        vec![
            (
                ConfigIssueCode::Override,
                "/etc/prompts/conf.d/10-a.toml",
                "prompt 'note' overrides definition from /etc/prompts/config.toml"
            ),
            (
                ConfigIssueCode::Override,
                "/etc/prompts/conf.d/20-b.toml",
                "prompt 'note' overrides definition from /etc/prompts/conf.d/10-a.toml"
            ),
        ]
    );
}

#[test]
fn a_default_directory_applies_to_the_prompts_defined_after_it() {
    let load = load_config_in(
        ROOT,
        &home(),
        base(Some("first"), vec![("early", sequence(&["e.md"]))]),
        listed(vec![parsed(
            "/etc/prompts/conf.d/10-late.toml",
            Some("~/second"),
            vec![("late", sequence(&["l.md"]))],
        )]),
    )
    .expect("load");
    let assembler = PromptAssembler::from_load(load);

    assert_eq!(assembler.default_prompt_path(), &Some("/home/ada/second".to_string()));
    match assembler.render_prompt("early", None).expect("plan") {
        RenderPlan::Sequence { fragments } => {
            assert_eq!(fragments[0].path, "/etc/prompts/first/e.md");
            assert_eq!(fragments[0].file, "e.md");
        }
        other => panic!("unexpected plan: {other:?}"),
    }
    match assembler.render_prompt("late", None).expect("plan") {
        RenderPlan::Sequence { fragments } => {
            assert_eq!(fragments[0].path, "/home/ada/second/l.md");
        }
        other => panic!("unexpected plan: {other:?}"),
    }
}

#[test]
fn two_variables_of_one_name_give_one_duplicate_var_error() {
    let problem = RawPrompt {
        vars: vec![var("seed", true), var("seed", false)],
        ..sequence(&["problem.md"])
    };
    let err = load_config_in(
        ROOT,
        &home(),
        base(None, vec![("problem", problem), ("override", sequence(&["one.md"]))]),
        listed(vec![parsed(
            "/etc/prompts/conf.d/40-override.toml",
            None,
            vec![("override", sequence(&["two.md"]))],
        )]),
    )
    .expect_err("load should fail");

    assert_eq!(prompt_assembler::cli::load_exit_code(&err), 2);
    let diagnostics = invalid_diagnostics(err);
    assert_eq!(diagnostics.errors.len(), 1);
    assert_eq!(diagnostics.errors[0].code, ConfigIssueCode::DuplicateVar);
    assert_eq!(diagnostics.errors[0].code.as_str(), "duplicate_var");
    assert_eq!(diagnostics.errors[0].message, "var 'seed' declared twice");
    assert_eq!(diagnostics.errors[0].path, "/etc/prompts/config.toml");
    assert_eq!(diagnostics.warnings.len(), 1);
    assert_eq!(diagnostics.warnings[0].code.as_str(), "override");
    assert_eq!(
        diagnostics.errors[0].describe(),
        "/etc/prompts/config.toml: var 'seed' declared twice"
    );
}

#[test]
fn a_prompt_with_neither_fragments_nor_template_is_invalid() {
    let err = load_config_in(
        ROOT,
        &home(),
        base(None, vec![("good", sequence(&["a.md"])), ("hollow", bare_prompt())]),
        OverrideFiles::Absent,
    )
    .expect_err("load should fail");

    let diagnostics = invalid_diagnostics(err);
    assert_eq!(diagnostics.errors.len(), 1);
    assert_eq!(diagnostics.errors[0].code, ConfigIssueCode::InvalidPrompt);
    assert_eq!(
        diagnostics.errors[0].message,
        "prompt must define either 'prompts' or 'template'"
    );
}

#[test]
fn an_unknown_variable_type_is_invalid() {
    let typed = RawPrompt {
        vars: vec![RawPromptVar { kind: Some("colour".to_string()), ..var("shade", false) }],
        ..sequence(&["a.md"])
    };
    let err = load_config_in(ROOT, &home(), base(None, vec![("paint", typed)]), OverrideFiles::Absent)
        .expect_err("load should fail");

    let diagnostics = invalid_diagnostics(err);
    assert_eq!(diagnostics.errors[0].code, ConfigIssueCode::InvalidPrompt);
    assert_eq!(diagnostics.errors[0].message, "unknown var type 'colour' for prompt 'paint'");
}

#[test]
fn variables_keep_their_declared_types() {
    let typed = RawPrompt {
        vars: vec![
            RawPromptVar {
                kind: Some("path".to_string()),
                description: Some("Input file".to_string()),
                ..var("input", true)
            },
            var("note", false),
        ],
        ..sequence(&["a.md"])
    };
    let load = load_config_in(ROOT, &home(), base(None, vec![("alpha", typed)]), OverrideFiles::Absent)
        .expect("load");

    let vars = &load.config.prompts["alpha"].metadata.vars;
    assert_eq!(vars.len(), 2);
    assert_eq!(vars[0].kind.as_str(), "path");
    assert!(vars[0].required);
    assert_eq!(vars[0].description.as_deref(), Some("Input file"));
    assert_eq!(vars[1].kind.as_str(), "string");
    assert!(!vars[1].required);
}

#[test]
fn a_home_relative_path_needs_a_home_directory() {
    let err = load_config_in(
        ROOT,
        &HomeDirectory::Unavailable,
        base(Some("~/prompts"), vec![("alpha", sequence(&["a.md"]))]),
        OverrideFiles::Absent,
    )
    .expect_err("load should fail");

    let diagnostics = invalid_diagnostics(err);
    assert_eq!(diagnostics.errors.len(), 1);
    assert_eq!(diagnostics.errors[0].code, ConfigIssueCode::InvalidPrompt);
    assert_eq!(
        diagnostics.errors[0].message,
        "invalid prompt_path '~/prompts': cannot resolve '~' without home directory"
    );

    let own = RawPrompt { prompt_path: Some("~/mine".to_string()), ..sequence(&["a.md"]) };
    let err = load_config_in(
        ROOT,
        &HomeDirectory::NotUtf8,
        base(None, vec![("alpha", own)]),
        OverrideFiles::Absent,
    )
    .expect_err("load should fail");
    let diagnostics = invalid_diagnostics(err);
    assert_eq!(
        diagnostics.errors[0].message,
        "prompt 'alpha' has invalid prompt_path '~/mine': home directory is not valid UTF-8"
    );
}

#[test]
fn an_unreadable_file_ends_the_load() {
    let unreadable = ConfigFile {
        path: "/etc/prompts/conf.d/10-locked.toml".to_string(),
        last_modified: None,
        content: FileContent::Unreadable { source: "permission denied".to_string() },
    };
    let broken = RawPrompt { template: Some("t.j2".to_string()), ..sequence(&["a.md"]) };
    let err = load_config_in(
        ROOT,
        &home(),
        base(None, vec![("broken", broken)]),
        OverrideFiles::Listed { issues: Vec::new(), files: vec![unreadable] },
    )
    .expect_err("load should fail");

    assert_eq!(
        err,
        LoadConfigError::Io {
            path: "/etc/prompts/conf.d/10-locked.toml".to_string(),
            source: "permission denied".to_string(),
        }
    );
    assert_eq!(
        err.message(),
        "failed to read configuration file /etc/prompts/conf.d/10-locked.toml: permission denied"
    );
    assert_eq!(prompt_assembler::cli::load_exit_code(&err), 127);
}

#[test]
fn an_unlistable_override_directory_ends_the_load() {
    let err = load_config_in(
        ROOT,
        &home(),
        base(None, vec![("alpha", sequence(&["a.md"]))]),
        OverrideFiles::Unreadable { source: "not a directory".to_string() },
    )
    .expect_err("load should fail");

    assert_eq!(
        err,
        LoadConfigError::ReadDir {
            path: "/etc/prompts/conf.d".to_string(),
            source: "not a directory".to_string(),
        }
    );
    assert_eq!(
        err.message(),
        "failed to enumerate configuration directory /etc/prompts/conf.d: not a directory"
    );
}

#[test]
fn a_missing_part_is_reported_by_name() {
    let assembler =
        PromptAssembler::from_directory(ROOT, None, OverrideFiles::Absent).expect("load");
    let places = assembler.part_candidates("/work", "missing.md");
    assert_eq!(places, vec!["/work/missing.md", "/etc/prompts/missing.md"]);

    let outcome = PromptAssembler::resolve_part_path("missing.md", &places, &[false, false]);
    assert_eq!(outcome, Err(PartsError::MissingPart { name: "missing.md".to_string() }));
    assert_eq!(outcome.unwrap_err().message(), "missing part 'missing.md'");

    let second = PromptAssembler::resolve_part_path("missing.md", &places, &[false, true]);
    assert_eq!(second, Ok("/etc/prompts/missing.md".to_string()));

    let absolute = assembler.part_candidates("/work", "/abs/part.md");
    assert_eq!(absolute, vec!["/abs/part.md"]);
}

#[test]
fn parts_are_joined_without_substitution() {
    let assembler =
        PromptAssembler::from_directory(ROOT, None, OverrideFiles::Absent).expect("load");
    let names = texts(&["local.md", "library.md"]);
    let contents = texts(&["Local holds {0}\n", "Library keeps {0}\n"]);

    assert_eq!(
        assembler.assemble_parts(&names, &contents),
        Ok("Local holds {0}\nLibrary keeps {0}\n".to_string())
    );
    let none = assembler.assemble_parts(&[], &[]);
    assert_eq!(none, Err(PartsError::NoParts));
    assert_eq!(none.unwrap_err().message(), "no parts provided");
}

#[test]
fn a_root_value_that_is_no_mapping_goes_under_value() {
    let context = template_context(DataValue::Text("plain".to_string()), &texts(&["a", "b"]));
    assert_eq!(
        context,
        vec![
            DataEntry { key: "value".to_string(), value: DataValue::Text("plain".to_string()) },
            DataEntry {
                key: "_args".to_string(),
                value: DataValue::List(vec![
                    DataValue::Text("a".to_string()),
                    DataValue::Text("b".to_string()),
                ]),
            },
        ]
    );

    let mapping = DataValue::Table(vec![DataEntry {
        key: "name".to_string(),
        value: DataValue::Unsigned(7),
    }]);
    assert_eq!(
        template_context(mapping, &[]),
        vec![DataEntry { key: "name".to_string(), value: DataValue::Unsigned(7) }]
    );
}

#[test]
fn arguments_reach_a_template_under_their_key() {
    let mut disk = Disk::new();
    let assembler = PromptAssembler::from_directory(
        ROOT,
        base(Some(LIBRARY), vec![("args", template("args.j2"))]),
        OverrideFiles::Absent,
    )
    .expect("load assembler");
    write_file(&mut disk, LIBRARY, "args.j2", "{{ _args[1] }} {{ value }} {{ _args|length }}\n");
    write_file(&mut disk, LIBRARY, "data.json", "42");
    let data_path = format!("{LIBRARY}/data.json");

    let rendered = render_prompt(
        &assembler,
        &disk,
        "args",
        &texts(&["first", "second"]),
        Some(StructuredData::Json(data_path)),
    )
    .expect("render template");

    assert_eq!(rendered, "second 42 2\n");
}

#[test]
fn the_assembler_answers_for_its_registry() {
    let described = RawPrompt {
        description: Some("Alpha prompt".to_string()),
        tags: texts(&["alpha", "test"]),
        stdin_supported: Some(true),
        ..sequence(&["alpha.md"])
    };
    let load = load_config_in(
        ROOT,
        &home(),
        base(None, vec![("zeta", template("z.j2")), ("alpha", described)]),
        OverrideFiles::Listed {
            issues: Vec::new(),
            files: vec![parsed(
                "/etc/prompts/conf.d/20-beta.toml",
                None,
                vec![("zeta", template("late.j2"))],
            )],
        },
    )
    .expect("load");
    let assembler = PromptAssembler::from_load(load);

    assert!(assembler.has_prompts());
    let order: Vec<&String> = assembler.prompt_specs().keys().collect();
    assert_eq!(order, vec!["zeta", "alpha"]);
    assert_eq!(
        assembler.available_prompts(),
        vec![
            ("alpha".to_string(), PromptKind::Sequence { files: texts(&["alpha.md"]) }),
            ("zeta".to_string(), PromptKind::Template { template: "late.j2".to_string() }),
        ]
    );

    let alpha = assembler.prompt_spec("alpha").expect("alpha is defined");
    assert_eq!(alpha.metadata.description.as_deref(), Some("Alpha prompt"));
    assert_eq!(alpha.metadata.tags, texts(&["alpha", "test"]));
    assert_eq!(alpha.metadata.stdin_supported, Some(true));
    assert_eq!(alpha.metadata.source.path, "/etc/prompts/config.toml");
    assert_eq!(alpha.prompt_path_override, None);
    assert_eq!(alpha.inherited_prompt_path.as_deref(), Some(ROOT));
    assert!(assembler.prompt_spec("beta").is_none());

    assert_eq!(
        assembler.prompt_kind("zeta"),
        Some(&PromptKind::Template { template: "late.j2".to_string() })
    );
    assert_eq!(assembler.prompt_kind("Zeta"), None);

    let warnings = assembler.config_warnings();
    assert_eq!(warnings.len(), 1);
    assert_eq!(warnings[0].path, "/etc/prompts/conf.d/20-beta.toml");
    assert_eq!(
        warnings[0].message,
        "prompt 'zeta' overrides definition from /etc/prompts/config.toml"
    );
}

#[test]
fn a_file_that_redefines_a_name_warns_of_itself() {
    let load = load_config_in(
        ROOT,
        &home(),
        base(None, vec![("twice", sequence(&["one.md"])), ("twice", sequence(&["two.md"]))]),
        OverrideFiles::Absent,
    )
    .expect("load");

    assert_eq!(load.config.prompts.len(), 1);
    assert_eq!(load.config.prompts["twice"].kind, PromptKind::Sequence { files: texts(&["two.md"]) });
    assert_eq!(load.warnings.len(), 1);
    assert_eq!(
        load.warnings[0].message,
        "prompt 'twice' overrides definition from /etc/prompts/config.toml"
    );
}

#[test]
fn an_unresolved_default_skips_the_default_and_nothing_else() {
    let both = RawPrompt { template: Some("t.j2".to_string()), ..sequence(&["a.md"]) };
    let err = load_config_in(
        ROOT,
        &HomeDirectory::Unavailable,
        base(Some("~/lib"), vec![("bad", both), ("fine", sequence(&["a.md"]))]),
        OverrideFiles::Listed {
            issues: Vec::new(),
            files: vec![parsed(
                "/etc/prompts/conf.d/10-more.toml",
                None,
                vec![("hollow", bare_prompt())],
            )],
        },
    )
    .expect_err("load should fail");

    let diagnostics = invalid_diagnostics(err);
    let found: Vec<(ConfigIssueCode, &str, &str)> = diagnostics
        .errors
        .iter()
        .map(|issue| (issue.code, issue.path.as_str(), issue.message.as_str()))
        .collect();
    assert_eq!(
        found,
        vec![
            (
                ConfigIssueCode::InvalidPrompt,
                "/etc/prompts/config.toml",
                "invalid prompt_path '~/lib': cannot resolve '~' without home directory"
            ),
            (
                ConfigIssueCode::InvalidPrompt,
                "/etc/prompts/config.toml",
                "prompts and template are exclusive options"
            ),
            (
                ConfigIssueCode::InvalidPrompt,
                "/etc/prompts/conf.d/10-more.toml",
                "prompt must define either 'prompts' or 'template'"
            ),
        ]
    );
}

#[test]
fn a_name_defined_three_times_is_warned_of_twice() {
    let load = load_config_in(
        ROOT,
        &home(),
        base(None, vec![("n", sequence(&["0.md"])), ("m", sequence(&["m.md"]))]),
        OverrideFiles::Listed {
            issues: Vec::new(),
            files: vec![
                parsed("/etc/prompts/conf.d/30.toml", None, vec![("n", sequence(&["3.md"]))]),
                parsed(
                    "/etc/prompts/conf.d/10.toml",
                    None,
                    vec![("other", sequence(&["o.md"])), ("n", sequence(&["1.md"]))],
                ),
            ],
        },
    )
    .expect("load");

    let warnings: Vec<(ConfigIssueCode, &str, Option<u32>, &str)> = load
        .warnings
        .iter()
        .map(|issue| (issue.code, issue.path.as_str(), issue.line, issue.message.as_str()))
        .collect();
    assert_eq!(
        warnings,
        vec![
            (
                ConfigIssueCode::Override,
                "/etc/prompts/conf.d/10.toml",
                None,
                "prompt 'n' overrides definition from /etc/prompts/config.toml"
            ),
            (
                ConfigIssueCode::Override,
                "/etc/prompts/conf.d/30.toml",
                None,
                "prompt 'n' overrides definition from /etc/prompts/conf.d/10.toml"
            ),
        ]
    );
    assert_eq!(load.config.prompts.len(), 3);
}

#[test]
fn listing_issues_come_between_the_base_file_and_the_override_files() {
    let entries = vec![
        DirectoryEntry::unreadable("interrupted".to_string()),
        DirectoryEntry::named("/etc/prompts/conf.d/10-more.toml".to_string()),
    ];
    let plan = plan_overrides("/etc/prompts/conf.d", &entries);
    assert_eq!(plan.files, vec!["/etc/prompts/conf.d/10-more.toml"]);

    let err = load_config_in(
        ROOT,
        &home(),
        base(None, vec![("first", bare_prompt())]),
        OverrideFiles::Listed {
            issues: plan.issues,
            files: vec![ConfigFile {
                path: plan.files[0].clone(),
                last_modified: None,
                content: FileContent::Malformed { message: "expected `=`".to_string() },
            }],
        },
    )
    .expect_err("load should fail");

    let diagnostics = invalid_diagnostics(err);
    let found: Vec<(ConfigIssueCode, &str)> =
        diagnostics.errors.iter().map(|issue| (issue.code, issue.message.as_str())).collect();
    assert_eq!(
        found,
        vec![
            (ConfigIssueCode::InvalidPrompt, "prompt must define either 'prompts' or 'template'"),
            (
                ConfigIssueCode::ParseError,
                "failed to read entry in /etc/prompts/conf.d: interrupted"
            ),
            (ConfigIssueCode::ParseError, "expected `=`"),
        ]
    );
}
