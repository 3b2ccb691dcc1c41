//! The command-line configuration and the paths it derives.

use vstd::prelude::*;

use crate::text::{i64_to_decimal, join_path, path_join, signed_decimal};

verus! {

/// CLI configuration parsed from command line arguments.
#[derive(Debug)]
pub struct CliConfig {
    /// Path to the Twitter archive folder containing `tweets.js`, `direct-messages.js`, etc.
    pub archive_folder: String,
    /// Output directory (defaults to a timestamped folder in the archive directory).
    pub output_dir: Option<String>,
    /// Run in non-interactive mode (no prompts).
    pub non_interactive: bool,
}

/// The default output folder: a child of the archive folder named after the screen name and
/// the run timestamp.
pub open spec fn default_output_dir(archive_folder: Seq<char>, screen_name: Seq<char>, timestamp: int) -> Seq<
    char,
> {
    join_path(archive_folder, "output_"@ + screen_name + "_"@ + signed_decimal(timestamp))
}

/// The two places an archive file may be: the archive folder itself, then its `data` folder.
pub open spec fn archive_file_candidates(archive_folder: Seq<char>, file_name: Seq<char>) -> (Seq<
    char,
>, Seq<char>) {
    (join_path(archive_folder, file_name), join_path(join_path(archive_folder, "data"@), file_name))
}

impl CliConfig {
    /// Get the output directory: the configured one, or the default for the screen name and
    /// timestamp.
    pub fn get_output_dir(&self, screen_name: &str, timestamp: i64) -> (dir: String)
        ensures
            dir@ == match self.output_dir {
                Some(d) => d@,
                None => default_output_dir(self.archive_folder@, screen_name@, timestamp as int),
            },
    {
        match &self.output_dir {
            Some(dir) => dir.clone(),
            None => {
                let mut name = "output_".to_owned();
                name.append(screen_name);
                name.append("_");
                let stamp = i64_to_decimal(timestamp);
                name.append(stamp.as_str());
                path_join(self.archive_folder.as_str(), name.as_str())
            },
        }
    }

    /// The two places an archive file may be: the archive folder itself, then its `data`
    /// folder.
    pub fn archive_file_candidates(&self, file_name: &str) -> (candidates: (String, String))
        ensures
            (candidates.0@, candidates.1@) == archive_file_candidates(self.archive_folder@, file_name@),
    {
        let root = path_join(self.archive_folder.as_str(), file_name);
        let data = path_join(self.archive_folder.as_str(), "data");
        let nested = path_join(data.as_str(), file_name);
        (root, nested)
    }
}

impl CliConfig {
    /// The path of `tweets.js`, given which of its two candidates exist: the first that does,
    /// else the one in the archive folder itself.
    pub fn tweets_file(&self, root_exists: bool, nested_exists: bool) -> (path: String)
        ensures
            path@ == if !root_exists && nested_exists {
                archive_file_candidates(self.archive_folder@, "tweets.js"@).1
            } else {
                archive_file_candidates(self.archive_folder@, "tweets.js"@).0
            },
    {
        let candidates = self.archive_file_candidates("tweets.js");
        let fallback = candidates.0.clone();
        match choose_archive_file(candidates, root_exists, nested_exists) {
            Some(found) => found,
            None => fallback,
        }
    }

    /// The path of `direct-messages.js`, given which of its two candidates exist.
    pub fn dms_file(&self, root_exists: bool, nested_exists: bool) -> (path: Option<String>)
        ensures
            match path {
                Some(p) => (root_exists && p@ == archive_file_candidates(
                    self.archive_folder@,
                    "direct-messages.js"@,
                ).0) || (!root_exists && nested_exists && p@ == archive_file_candidates(
                    self.archive_folder@,
                    "direct-messages.js"@,
                ).1),
                None => !root_exists && !nested_exists,
            },
    {
        let candidates = self.archive_file_candidates("direct-messages.js");
        choose_archive_file(candidates, root_exists, nested_exists)
    }

    /// The path of `direct-message-headers.js`, given which of its two candidates exist.
    pub fn dm_headers_file(&self, root_exists: bool, nested_exists: bool) -> (path: Option<
        String,
    >)
        ensures
            match path {
                Some(p) => (root_exists && p@ == archive_file_candidates(
                    self.archive_folder@,
                    "direct-message-headers.js"@,
                ).0) || (!root_exists && nested_exists && p@ == archive_file_candidates(
                    self.archive_folder@,
                    "direct-message-headers.js"@,
                ).1),
                None => !root_exists && !nested_exists,
            },
    {
        let candidates = self.archive_file_candidates("direct-message-headers.js");
        choose_archive_file(candidates, root_exists, nested_exists)
    }
}

/// Picks where an archive file is: the archive folder first, then its `data` folder, given
/// which of the two candidates exist.
pub fn choose_archive_file(
    candidates: (String, String),
    root_exists: bool,
    nested_exists: bool,
) -> (found: Option<String>)
    ensures
        found == if root_exists {
            Some(candidates.0)
        } else if nested_exists {
            Some(candidates.1)
        } else {
            None::<String>
        },
{
    let (root, nested) = candidates;
    if root_exists {
        Some(root)
    } else if nested_exists {
        Some(nested)
    } else {
        None
    }
}

} // verus!
