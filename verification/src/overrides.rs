//! The directory of override files: which of its entries are configuration
//! files, and in which order they apply.

use vstd::prelude::*;
use vstd::string::StringExecFns;
use crate::issue::ConfigIssue;
use crate::issue::ConfigIssueCode;
use crate::issue::ConfigIssueView;
use crate::path::extension_of;
use crate::path::path_extension;
use crate::text::ascending;
use crate::text::same_text;
use crate::text::sort_texts;

verus! {

/// One entry of a directory listing.
#[derive(Debug, Clone, PartialEq, Eq)]
pub enum DirectoryEntry {
    /// The listing failed at this entry; `reason` says why.
    Unreadable { reason: String },
    /// An entry with the extension of its path. `utf8` is false where the
    /// path had to be made valid UTF-8 to be written down.
    Found { path: String, extension: Option<String>, utf8: bool },
}

pub enum DirectoryEntryView {
    Unreadable { reason: Seq<char> },
    Found { path: Seq<char>, extension: Option<Seq<char>>, utf8: bool },
}

impl View for DirectoryEntry {
    type V = DirectoryEntryView;

    open spec fn view(&self) -> DirectoryEntryView {
        match self {
            DirectoryEntry::Unreadable { reason } => DirectoryEntryView::Unreadable {
                reason: reason@,
            },
            DirectoryEntry::Found { path, extension, utf8 } => DirectoryEntryView::Found {
                path: path@,
                extension: extension.deep_view(),
                utf8: *utf8,
            },
        }
    }
}

impl DeepView for DirectoryEntry {
    type V = DirectoryEntryView;

    open spec fn deep_view(&self) -> DirectoryEntryView {
        self@
    }
}

impl DirectoryEntry {
    /// The entry for a failure of the listing.
    pub fn unreadable(reason: String) -> (entry: DirectoryEntry)
        ensures
            entry@ == (DirectoryEntryView::Unreadable { reason: reason@ }),
    {
        DirectoryEntry::Unreadable { reason }
    }

    /// The entry for a path that is valid UTF-8.
    pub fn named(path: String) -> (entry: DirectoryEntry)
        ensures
            entry@ == (DirectoryEntryView::Found {
                path: path@,
                extension: path_extension(path@),
                utf8: true,
            }),
    {
        let extension = extension_of(path.as_str());
        DirectoryEntry::Found { path, extension, utf8: true }
    }

    /// The entry for a path that is not valid UTF-8, written with a
    /// replacement for what could not be decoded.
    pub fn undecodable(lossy_path: String) -> (entry: DirectoryEntry)
        ensures
            entry@ == (DirectoryEntryView::Found {
                path: lossy_path@,
                extension: path_extension(lossy_path@),
                utf8: false,
            }),
    {
        let extension = extension_of(lossy_path.as_str());
        DirectoryEntry::Found { path: lossy_path, extension, utf8: false }
    }
}

/// Whether an extension is that of a configuration file.
pub open spec fn is_config_extension(extension: Option<Seq<char>>) -> bool {
    extension == Some("toml"@)
}

/// The issue for an entry at which the listing of `directory` failed.
pub open spec fn unreadable_entry(directory: Seq<char>, reason: Seq<char>) -> ConfigIssueView {
    ConfigIssueView {
        code: ConfigIssueCode::ParseError,
        message: "failed to read entry in "@ + directory + ": "@ + reason,
        path: directory,
        line: None,
    }
}

/// The issue for a configuration file whose path is not valid UTF-8.
pub open spec fn undecodable_entry(directory: Seq<char>) -> ConfigIssueView {
    ConfigIssueView {
        code: ConfigIssueCode::ParseError,
        message: "configuration paths must be valid UTF-8"@,
        path: directory,
        line: None,
    }
}

/// The issue that one entry raises, if it raises one.
pub open spec fn entry_issue(directory: Seq<char>, entry: DirectoryEntryView) -> Option<
    ConfigIssueView,
> {
    match entry {
        DirectoryEntryView::Unreadable { reason } => Some(unreadable_entry(directory, reason)),
        DirectoryEntryView::Found { path, extension, utf8 } => if is_config_extension(extension)
            && !utf8 {
            Some(undecodable_entry(directory))
        } else {
            None
        },
    }
}

/// The path of an entry that is a configuration file.
pub open spec fn entry_file(entry: DirectoryEntryView) -> Option<Seq<char>> {
    match entry {
        DirectoryEntryView::Found { path, extension, utf8 } => if is_config_extension(extension)
            && utf8 {
            Some(path)
        } else {
            None
        },
        DirectoryEntryView::Unreadable { reason } => None,
    }
}

/// The issues of a listing, in the order of its entries.
pub open spec fn listing_issues(directory: Seq<char>, entries: Seq<DirectoryEntryView>) -> Seq<
    ConfigIssueView,
>
    decreases entries.len(),
{
    if entries.len() == 0 {
        Seq::empty()
    } else {
        let earlier = listing_issues(directory, entries.drop_last());
        match entry_issue(directory, entries.last()) {
            Some(issue) => earlier.push(issue),
            None => earlier,
        }
    }
}

/// The configuration files of a listing, in the order of its entries.
pub open spec fn listed_files(entries: Seq<DirectoryEntryView>) -> Seq<Seq<char>>
    decreases entries.len(),
{
    if entries.len() == 0 {
        Seq::empty()
    } else {
        let earlier = listed_files(entries.drop_last());
        match entry_file(entries.last()) {
            Some(path) => earlier.push(path),
            None => earlier,
        }
    }
}

/// What a directory of override files asks of a load.
#[derive(Debug, Clone, PartialEq, Eq)]
pub struct OverridePlan {
    /// The issues that the listing raises, in the order of its entries.
    pub issues: Vec<ConfigIssue>,
    /// The configuration files, in the order in which they apply.
    pub files: Vec<String>,
}

/// Picks the configuration files out of the listing of `directory` and puts
/// them in the order in which they apply: ascending by path, as strings
/// compare.
pub fn plan_overrides(directory: &str, entries: &Vec<DirectoryEntry>) -> (plan: OverridePlan)
    ensures
        plan.issues.deep_view() == listing_issues(directory@, entries.deep_view()),
        ascending(plan.files.deep_view()),
        plan.files.deep_view().to_multiset() == listed_files(entries.deep_view()).to_multiset(),
{
    let mut issues: Vec<ConfigIssue> = Vec::new();
    let mut files: Vec<String> = Vec::new();
    let ghost listing = entries.deep_view();
    let mut i: usize = 0;
    proof {
        assert(listing.take(0) =~= Seq::<DirectoryEntryView>::empty());
        assert(issues.deep_view() =~= Seq::<ConfigIssueView>::empty());
        assert(files.deep_view() =~= Seq::<Seq<char>>::empty());
    }
    while i < entries.len()
        invariant
            i <= entries@.len(),
            listing == entries.deep_view(),
            issues.deep_view() == listing_issues(directory@, listing.take(i as int)),
            files.deep_view() == listed_files(listing.take(i as int)),
        decreases entries@.len() - i,
    {
        let ghost raised = issues.deep_view();
        let ghost picked = files.deep_view();
        proof {
            assert(listing.take(i + 1).drop_last() =~= listing.take(i as int));
            assert(listing.take(i + 1).last() == entries@[i as int]@);
        }
        match &entries[i] {
            DirectoryEntry::Unreadable { reason } => {
                let mut message = String::from_str("failed to read entry in ");
                message.append(directory);
                message.append(": ");
                message.append(reason.as_str());
                let issue = ConfigIssue::new(
                    ConfigIssueCode::ParseError,
                    String::from_str(directory),
                    None,
                    message,
                );
                issues.push(issue);
                assert(issues.deep_view() =~= raised.push(issue@));
            },
            DirectoryEntry::Found { path, extension, utf8 } => {
                let config = match extension {
                    Some(extension) => same_text(extension.as_str(), "toml"),
                    None => false,
                };
                if config {
                    if *utf8 {
                        files.push(path.clone());
                        assert(files.deep_view() =~= picked.push(path@));
                    } else {
                        let issue = ConfigIssue::new(
                            ConfigIssueCode::ParseError,
                            String::from_str(directory),
                            None,
                            String::from_str("configuration paths must be valid UTF-8"),
                        );
                        issues.push(issue);
                        assert(issues.deep_view() =~= raised.push(issue@));
                    }
                }
            },
        }
        i += 1;
    }
    assert(listing.take(i as int) =~= listing);
    let sorted = sort_texts(&files);
    OverridePlan { issues, files: sorted }
}

} // verus!
