//! APT repository files: the abstract file record, its error and info types,
//! and the suite-name helpers used when checking configured suites.

use vstd::prelude::*;
use vstd::string::StrSliceExecFns;
use vstd::string::StringExecFns;

use crate::apt_repository::{APTRepository, APTRepositoryFileType};

verus! {

/// Represents an abstract APT repository file.
#[derive(Debug, Clone)]
pub struct APTRepositoryFile {
    /// The path to the file. If None, `content` must be set directly.
    pub path: Option<String>,
    /// The type of the file.
    pub file_type: APTRepositoryFileType,
    /// List of repositories in the file.
    pub repositories: Vec<APTRepository>,
    /// The file content, if already read.
    pub content: Option<String>,
    /// Digest of the original contents.
    pub digest: Option<[u8; 32]>,
}

/// Error type for problems with APT repository files.
#[derive(Debug, Clone)]
pub struct APTRepositoryFileError {
    /// The path to the problematic file.
    pub path: String,
    /// The error message.
    pub error: String,
}

impl APTRepositoryFileError {
    /// The error spelled out, with the path it concerns.
    pub fn to_message(&self) -> (r: String)
        ensures
            r@ == "error for '"@ + self.path@ + "' - "@ + self.error@,
    {
        let mut s = String::new();
        s.append("error for '");
        s.append(self.path.as_str());
        s.append("' - ");
        s.append(self.error.as_str());
        s
    }
}

/// Additional information for a repository.
#[derive(Debug, Clone, PartialEq, Eq, PartialOrd, Ord)]
pub struct APTRepositoryInfo {
    /// Path to the defining file.
    pub path: String,
    /// Index of the associated repository within the file (starting from 0).
    pub index: usize,
    /// The property from which the info originates (e.g. "Suites")
    pub property: Option<String>,
    /// Info kind (e.g. "warning")
    pub kind: String,
    /// Info message
    pub message: String,
}

impl APTRepositoryFile {
    /// Creates a file record holding the given content directly, with no
    /// path, no repositories and no digest yet.
    pub fn with_content(content: String, content_type: APTRepositoryFileType) -> (r: Self)
        ensures
            r.file_type == content_type,
            r.content matches Some(c) && c == content,
            r.path is None,
            r.repositories@.len() == 0,
            r.digest is None,
    {
        Self {
            file_type: content_type,
            content: Some(content),
            path: None,
            repositories: Vec::new(),
            digest: None,
        }
    }

    /// Create an `APTRepositoryFileError` for this file: the given message,
    /// under the file's path (or an empty path when the record has none).
    pub fn err(&self, error: String) -> (r: APTRepositoryFileError)
        ensures
            r.error == error,
            self.path matches Some(p) ==> r.path@ == p@,
            self.path is None ==> r.path@ == Seq::<char>::empty(),
    {
        let path = match &self.path {
            Some(p) => p.clone(),
            None => String::new(),
        };
        APTRepositoryFileError { path, error }
    }
}

/// The position where the suite name ends and its variant begins: the first
/// `-` or `/`, or the whole length when neither occurs.
pub open spec fn spec_suite_split_at(suite: Seq<char>) -> int
    decreases suite.len(),
{
    if suite.len() == 0 {
        0
    } else if suite[0] == '-' || suite[0] == '/' {
        0
    } else {
        1 + spec_suite_split_at(suite.skip(1))
    }
}

/// What [`spec_suite_split_at`] promises: a position within the name, at a
/// `-` or `/` when in range, with neither before it.
pub proof fn lemma_suite_split_at(suite: Seq<char>)
    ensures
        0 <= spec_suite_split_at(suite) <= suite.len(),
        spec_suite_split_at(suite) < suite.len() ==> (suite[spec_suite_split_at(suite)] == '-'
            || suite[spec_suite_split_at(suite)] == '/'),
        forall|j: int|
            0 <= j < spec_suite_split_at(suite) ==> (suite[j] != '-' && suite[j] != '/'),
    decreases suite.len(),
{
    if suite.len() > 0 && suite[0] != '-' && suite[0] != '/' {
        lemma_suite_split_at(suite.skip(1));
        let f = spec_suite_split_at(suite);
        assert forall|j: int| 0 <= j < f implies (suite[j] != '-' && suite[j] != '/') by {
            if j > 0 {
                assert(suite.skip(1)[j - 1] == suite[j]);
            }
        }
        if f < suite.len() {
            assert(suite.skip(1)[f - 1] == suite[f]);
        }
    }
}

/// Splits the suite into its base part and variant.
/// Does not expect the base part to contain either `-` or `/`.
pub fn suite_variant<'a>(suite: &'a str) -> (r: (&'a str, &'a str))
    ensures
        r.0@ == suite@.take(spec_suite_split_at(suite@)),
        r.1@ == suite@.skip(spec_suite_split_at(suite@)),
{
    let n = suite.unicode_len();
    let mut i: usize = 0;
    while i < n && suite.get_char(i) != '-' && suite.get_char(i) != '/'
        invariant
            0 <= i <= n,
            n == suite@.len(),
            forall|j: int| 0 <= j < i ==> (suite@[j] != '-' && suite@[j] != '/'),
        decreases n - i,
    {
        i += 1;
    }
    proof {
        lemma_suite_split_at(suite@);
        assert(spec_suite_split_at(suite@) == i);
        assert(suite@.take(i as int) =~= suite@.subrange(0, i as int));
        assert(suite@.skip(i as int) =~= suite@.subrange(i as int, n as int));
    }
    (suite.substring_char(0, i), suite.substring_char(i, n))
}

} // verus!
