//! Diagnostics of a configuration load.

use vstd::prelude::*;
use vstd::string::StringExecFns;
use crate::text::decimal_digits;
use crate::text::decimal_text;

verus! {

/// The class of a diagnostic.
#[derive(Debug, Clone, Copy, PartialEq, Eq, Structural)]
pub enum ConfigIssueCode {
    DuplicateVar,
    Override,
    InvalidPrompt,
    ParseError,
}

impl ConfigIssueCode {
    /// The stable name of this class.
    pub open spec fn label(self) -> Seq<char> {
        match self {
            ConfigIssueCode::DuplicateVar => "duplicate_var"@,
            ConfigIssueCode::Override => "override"@,
            ConfigIssueCode::InvalidPrompt => "invalid_prompt"@,
            ConfigIssueCode::ParseError => "parse_error"@,
        }
    }

    #[must_use]
    pub fn as_str(&self) -> (text: &'static str)
        ensures
            text@ == self.label(),
    {
        match self {
            ConfigIssueCode::DuplicateVar => "duplicate_var",
            ConfigIssueCode::Override => "override",
            ConfigIssueCode::InvalidPrompt => "invalid_prompt",
            ConfigIssueCode::ParseError => "parse_error",
        }
    }
}

/// One problem found while loading configuration files.
#[derive(Debug, Clone, PartialEq, Eq)]
pub struct ConfigIssue {
    pub code: ConfigIssueCode,
    pub message: String,
    pub path: String,
    pub line: Option<u32>,
}

pub struct ConfigIssueView {
    pub code: ConfigIssueCode,
    pub message: Seq<char>,
    pub path: Seq<char>,
    pub line: Option<u32>,
}

impl View for ConfigIssue {
    type V = ConfigIssueView;

    open spec fn view(&self) -> ConfigIssueView {
        ConfigIssueView {
            code: self.code,
            message: self.message@,
            path: self.path@,
            line: self.line,
        }
    }
}

impl DeepView for ConfigIssue {
    type V = ConfigIssueView;

    open spec fn deep_view(&self) -> ConfigIssueView {
        self@
    }
}

impl ConfigIssueView {
    /// The issue on one line: the file, the line where it is known, the message.
    pub open spec fn description(self) -> Seq<char> {
        match self.line {
            Some(line) => self.path + ":"@ + decimal_digits(line as nat) + ": "@ + self.message,
            None => self.path + ": "@ + self.message,
        }
    }
}

impl ConfigIssue {
    pub fn new(code: ConfigIssueCode, path: String, line: Option<u32>, message: String) -> (issue:
        Self)
        ensures
            issue@ == (ConfigIssueView { code, message: message@, path: path@, line }),
    {
        ConfigIssue { code, message, path, line }
    }

    /// The issue on one line, as a report prints it.
    pub fn describe(&self) -> (text: String)
        ensures
            text@ == self@.description(),
    {
        let mut text = self.path.clone();
        match self.line {
            Some(line) => {
                text.append(":");
                let number = decimal_text(line as u64);
                text.append(number.as_str());
            },
            None => {},
        }
        text.append(": ");
        text.append(self.message.as_str());
        text
    }
}

/// The issues of a load: errors make it fail, warnings do not.
#[derive(Debug, Clone, PartialEq, Eq)]
pub struct ConfigDiagnostics {
    pub errors: Vec<ConfigIssue>,
    pub warnings: Vec<ConfigIssue>,
}

pub struct ConfigDiagnosticsView {
    pub errors: Seq<ConfigIssueView>,
    pub warnings: Seq<ConfigIssueView>,
}

impl View for ConfigDiagnostics {
    type V = ConfigDiagnosticsView;

    open spec fn view(&self) -> ConfigDiagnosticsView {
        ConfigDiagnosticsView {
            errors: self.errors.deep_view(),
            warnings: self.warnings.deep_view(),
        }
    }
}

/// Why a load produced no registry.
#[derive(Debug, Clone, PartialEq, Eq)]
pub enum LoadConfigError {
    /// The directory of override files could not be listed.
    ReadDir { path: String, source: String },
    /// At least one file holds an invalid definition.
    Invalid { diagnostics: ConfigDiagnostics },
    /// A configuration file could not be read.
    Io { path: String, source: String },
}

pub enum LoadConfigErrorView {
    ReadDir { path: Seq<char>, source: Seq<char> },
    Invalid { diagnostics: ConfigDiagnosticsView },
    Io { path: Seq<char>, source: Seq<char> },
}

impl View for LoadConfigError {
    type V = LoadConfigErrorView;

    open spec fn view(&self) -> LoadConfigErrorView {
        match self {
            LoadConfigError::ReadDir { path, source } => LoadConfigErrorView::ReadDir {
                path: path@,
                source: source@,
            },
            LoadConfigError::Invalid { diagnostics } => LoadConfigErrorView::Invalid {
                diagnostics: diagnostics@,
            },
            LoadConfigError::Io { path, source } => LoadConfigErrorView::Io {
                path: path@,
                source: source@,
            },
        }
    }
}

impl LoadConfigErrorView {
    /// The sentence that reports this error.
    pub open spec fn message(self) -> Seq<char> {
        match self {
            LoadConfigErrorView::ReadDir { path, source } =>
                "failed to enumerate configuration directory "@ + path + ": "@ + source,
            LoadConfigErrorView::Invalid { diagnostics } => "configuration is invalid"@,
            LoadConfigErrorView::Io { path, source } => "failed to read configuration file "@ + path
                + ": "@ + source,
        }
    }
}

impl LoadConfigError {
    /// The sentence that reports this error.
    pub fn message(&self) -> (text: String)
        ensures
            text@ == self@.message(),
    {
        match self {
            LoadConfigError::ReadDir { path, source } => {
                let mut text = String::from_str("failed to enumerate configuration directory ");
                text.append(path.as_str());
                text.append(": ");
                text.append(source.as_str());
                text
            },
            LoadConfigError::Invalid { diagnostics } => String::from_str(
                "configuration is invalid",
            ),
            LoadConfigError::Io { path, source } => {
                let mut text = String::from_str("failed to read configuration file ");
                text.append(path.as_str());
                text.append(": ");
                text.append(source.as_str());
                text
            },
        }
    }
}

} // verus!
