//! Layered prompt configuration and prompt rendering, with machine-checked
//! contracts.
//!
//! A configuration directory holds a base file and override files that define
//! named prompts. [`config`] merges them into one registry and collects every
//! issue on the way; [`history`] proves what the registry then holds.
//! [`placeholder`] expands the positional placeholders of text fragments, and
//! [`assembler`] says what rendering a prompt takes. The crate opens no file:
//! its callers read, and hand over what they read.

pub mod assembler;
pub mod builder;
pub mod cli;
pub mod config;
pub mod data;
pub mod history;
pub mod issue;
pub mod model;
pub mod overrides;
pub mod path;
pub mod placeholder;
pub mod raw;
pub mod registry;
pub mod text;

pub use assembler::FragmentFile;
pub use assembler::PartsError;
pub use assembler::PromptAssembler;
pub use assembler::RenderError;
pub use assembler::RenderPlan;
pub use config::Config;
pub use config::ConfigFile;
pub use config::ConfigLoad;
pub use config::FileContent;
pub use config::OverrideFiles;
pub use data::DataEntry;
pub use data::DataValue;
pub use data::StructuredData;
pub use issue::ConfigDiagnostics;
pub use issue::ConfigIssue;
pub use issue::ConfigIssueCode;
pub use issue::LoadConfigError;
pub use model::PromptKind;
pub use model::PromptMetadata;
pub use model::PromptSource;
pub use model::PromptSpec;
pub use model::PromptVariable;
pub use model::PromptVariableKind;
pub use overrides::DirectoryEntry;
pub use overrides::OverridePlan;
pub use path::HomeDirectory;
pub use path::ResolutionError;
pub use placeholder::PlaceholderError;
pub use raw::RawFile;
pub use raw::RawPrompt;
pub use raw::RawPromptVar;
