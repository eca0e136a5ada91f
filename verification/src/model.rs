//! The prompt registry's data: prompt definitions and their metadata.
//!
//! Every type has a view (`@`) that replaces its strings and vectors by
//! sequences; the contracts of this crate are stated over those views.

use vstd::prelude::*;
use std::time::SystemTime;
use crate::text::copy_texts;

verus! {

/// `std::time::SystemTime`: a point in time as the operating system reports
/// it. It is carried from a file to its prompts and never looked into.
#[verifier::external_type_specification]
#[verifier::external_body]
pub struct ExSystemTime(std::time::SystemTime);

/// The declared type of a prompt variable.
#[derive(Debug, Clone, Copy, PartialEq, Eq, Structural)]
pub enum PromptVariableKind {
    String,
    Path,
    Number,
    Boolean,
}

impl PromptVariableKind {
    /// The keyword that names this kind in a configuration file.
    pub open spec fn keyword(self) -> Seq<char> {
        match self {
            PromptVariableKind::String => "string"@,
            PromptVariableKind::Path => "path"@,
            PromptVariableKind::Number => "number"@,
            PromptVariableKind::Boolean => "boolean"@,
        }
    }

    #[must_use]
    pub fn as_str(&self) -> (text: &'static str)
        ensures
            text@ == self.keyword(),
    {
        match self {
            PromptVariableKind::String => "string",
            PromptVariableKind::Path => "path",
            PromptVariableKind::Number => "number",
            PromptVariableKind::Boolean => "boolean",
        }
    }
}

/// A variable that a prompt declares. It documents the prompt and takes no
/// part in rendering.
#[derive(Debug, Clone, PartialEq, Eq)]
pub struct PromptVariable {
    pub name: String,
    pub required: bool,
    pub kind: PromptVariableKind,
    pub description: Option<String>,
}

pub struct PromptVariableView {
    pub name: Seq<char>,
    pub required: bool,
    pub kind: PromptVariableKind,
    pub description: Option<Seq<char>>,
}

impl View for PromptVariable {
    type V = PromptVariableView;

    open spec fn view(&self) -> PromptVariableView {
        PromptVariableView {
            name: self.name@,
            required: self.required,
            kind: self.kind,
            description: self.description.deep_view(),
        }
    }
}

impl DeepView for PromptVariable {
    type V = PromptVariableView;

    open spec fn deep_view(&self) -> PromptVariableView {
        self@
    }
}

/// What a prompt is made of: fragment files in order, or one template.
#[derive(Debug, PartialEq, Eq)]
pub enum PromptKind {
    Sequence { files: Vec<String> },
    Template { template: String },
}

pub enum PromptKindView {
    Sequence { files: Seq<Seq<char>> },
    Template { template: Seq<char> },
}

impl View for PromptKind {
    type V = PromptKindView;

    open spec fn view(&self) -> PromptKindView {
        match self {
            PromptKind::Sequence { files } => PromptKindView::Sequence { files: files.deep_view() },
            PromptKind::Template { template } => PromptKindView::Template { template: template@ },
        }
    }
}

impl DeepView for PromptKind {
    type V = PromptKindView;

    open spec fn deep_view(&self) -> PromptKindView {
        self@
    }
}

impl Clone for PromptKind {
    fn clone(&self) -> (copy: Self)
        ensures
            copy@ == self@,
    {
        match self {
            PromptKind::Sequence { files } => PromptKind::Sequence { files: copy_texts(files) },
            PromptKind::Template { template } => PromptKind::Template {
                template: template.clone(),
            },
        }
    }
}

/// Where a prompt was defined.
#[derive(Debug)]
pub struct PromptSource {
    pub path: String,
    pub last_modified: Option<SystemTime>,
}

pub struct PromptSourceView {
    pub path: Seq<char>,
    pub last_modified: Option<SystemTime>,
}

impl View for PromptSource {
    type V = PromptSourceView;

    open spec fn view(&self) -> PromptSourceView {
        PromptSourceView { path: self.path@, last_modified: self.last_modified }
    }
}

impl DeepView for PromptSource {
    type V = PromptSourceView;

    open spec fn deep_view(&self) -> PromptSourceView {
        self@
    }
}

impl Clone for PromptSource {
    fn clone(&self) -> (copy: Self)
        ensures
            copy@ == self@,
    {
        PromptSource { path: self.path.clone(), last_modified: self.last_modified }
    }
}

/// What a prompt says about itself.
#[derive(Debug, Clone)]
pub struct PromptMetadata {
    pub description: Option<String>,
    pub tags: Vec<String>,
    pub vars: Vec<PromptVariable>,
    pub stdin_supported: Option<bool>,
    pub source: PromptSource,
}

pub struct PromptMetadataView {
    pub description: Option<Seq<char>>,
    pub tags: Seq<Seq<char>>,
    pub vars: Seq<PromptVariableView>,
    pub stdin_supported: Option<bool>,
    pub source: PromptSourceView,
}

impl View for PromptMetadata {
    type V = PromptMetadataView;

    open spec fn view(&self) -> PromptMetadataView {
        PromptMetadataView {
            description: self.description.deep_view(),
            tags: self.tags.deep_view(),
            vars: self.vars.deep_view(),
            stdin_supported: self.stdin_supported,
            source: self.source@,
        }
    }
}

impl DeepView for PromptMetadata {
    type V = PromptMetadataView;

    open spec fn deep_view(&self) -> PromptMetadataView {
        self@
    }
}

/// One prompt's resolved definition.
///
/// A prompt is rendered from `prompt_path_override` where it has one, else
/// from `inherited_prompt_path`, the default directory that was in force
/// where the prompt was defined.
#[derive(Debug, Clone)]
pub struct PromptSpec {
    pub prompt_path_override: Option<String>,
    pub inherited_prompt_path: Option<String>,
    pub kind: PromptKind,
    pub metadata: PromptMetadata,
}

pub struct PromptSpecView {
    pub prompt_path_override: Option<Seq<char>>,
    pub inherited_prompt_path: Option<Seq<char>>,
    pub kind: PromptKindView,
    pub metadata: PromptMetadataView,
}

impl View for PromptSpec {
    type V = PromptSpecView;

    open spec fn view(&self) -> PromptSpecView {
        PromptSpecView {
            prompt_path_override: self.prompt_path_override.deep_view(),
            inherited_prompt_path: self.inherited_prompt_path.deep_view(),
            kind: self.kind@,
            metadata: self.metadata@,
        }
    }
}

impl DeepView for PromptSpec {
    type V = PromptSpecView;

    open spec fn deep_view(&self) -> PromptSpecView {
        self@
    }
}

impl PromptSpecView {
    /// The directory that the prompt's files are looked up in, if it has one.
    pub open spec fn base_directory(self) -> Option<Seq<char>> {
        match self.prompt_path_override {
            Some(path) => Some(path),
            None => self.inherited_prompt_path,
        }
    }
}

} // verus!
