//! A configuration file as it was parsed, before any rule is applied.

use vstd::prelude::*;

verus! {

/// A variable as a file declares it.
#[derive(Debug, Clone, PartialEq, Eq)]
pub struct RawPromptVar {
    pub name: String,
    pub required: bool,
    /// The `type` key; `string` where the file has none.
    pub kind: Option<String>,
    pub description: Option<String>,
}

pub struct RawPromptVarView {
    pub name: Seq<char>,
    pub required: bool,
    pub kind: Option<Seq<char>>,
    pub description: Option<Seq<char>>,
}

impl View for RawPromptVar {
    type V = RawPromptVarView;

    open spec fn view(&self) -> RawPromptVarView {
        RawPromptVarView {
            name: self.name@,
            required: self.required,
            kind: self.kind.deep_view(),
            description: self.description.deep_view(),
        }
    }
}

impl DeepView for RawPromptVar {
    type V = RawPromptVarView;

    open spec fn deep_view(&self) -> RawPromptVarView {
        self@
    }
}

/// A prompt as a file defines it.
#[derive(Debug, Clone, PartialEq, Eq)]
pub struct RawPrompt {
    pub prompt_path: Option<String>,
    /// The `prompts` key: the fragment files of a sequence.
    pub prompts: Option<Vec<String>>,
    pub template: Option<String>,
    pub description: Option<String>,
    pub tags: Vec<String>,
    pub vars: Vec<RawPromptVar>,
    /// The `stdin` key.
    pub stdin_supported: Option<bool>,
}

pub struct RawPromptView {
    pub prompt_path: Option<Seq<char>>,
    pub prompts: Option<Seq<Seq<char>>>,
    pub template: Option<Seq<char>>,
    pub description: Option<Seq<char>>,
    pub tags: Seq<Seq<char>>,
    pub vars: Seq<RawPromptVarView>,
    pub stdin_supported: Option<bool>,
}

impl View for RawPrompt {
    type V = RawPromptView;

    open spec fn view(&self) -> RawPromptView {
        RawPromptView {
            prompt_path: self.prompt_path.deep_view(),
            prompts: self.prompts.deep_view(),
            template: self.template.deep_view(),
            description: self.description.deep_view(),
            tags: self.tags.deep_view(),
            vars: self.vars.deep_view(),
            stdin_supported: self.stdin_supported,
        }
    }
}

impl DeepView for RawPrompt {
    type V = RawPromptView;

    open spec fn deep_view(&self) -> RawPromptView {
        self@
    }
}

/// The content of one configuration file: an optional default directory and
/// the prompts in the order in which the file defines them.
#[derive(Debug, Clone, PartialEq, Eq)]
pub struct RawFile {
    pub prompt_path: Option<String>,
    pub prompt: Vec<(String, RawPrompt)>,
}

pub struct RawFileView {
    pub prompt_path: Option<Seq<char>>,
    pub prompt: Seq<(Seq<char>, RawPromptView)>,
}

impl View for RawFile {
    type V = RawFileView;

    open spec fn view(&self) -> RawFileView {
        RawFileView { prompt_path: self.prompt_path.deep_view(), prompt: self.prompt.deep_view() }
    }
}

impl DeepView for RawFile {
    type V = RawFileView;

    open spec fn deep_view(&self) -> RawFileView {
        self@
    }
}

} // verus!
