//! APT repository descriptions: the repository record, its consistency
//! checks, origin detection, and rendering in one-line and stanza formats.

use vstd::prelude::*;
use vstd::string::StrSliceExecFns;
use vstd::string::StringExecFns;

use vstd::pervasive::VecAdditionalExecFns;

use crate::digits::{str_eq, string_push};

verus! {

/// The format of an APT repository file.
#[derive(Debug, Copy, Clone, PartialEq, Eq, Structural)]
pub enum APTRepositoryFileType {
    /// One-line-style format
    List,
    /// DEB822-style format
    Sources,
}

impl APTRepositoryFileType {
    /// The lower-case name of the file type, as file extensions use it.
    pub fn as_str(&self) -> (r: &'static str)
        ensures
            *self == APTRepositoryFileType::List ==> r@ == "list"@,
            *self == APTRepositoryFileType::Sources ==> r@ == "sources"@,
    {
        match self {
            APTRepositoryFileType::List => "list",
            APTRepositoryFileType::Sources => "sources",
        }
    }
}

/// The kind of packages a repository carries.
#[derive(Debug, Copy, Clone, PartialEq, Eq, Structural)]
pub enum APTRepositoryPackageType {
    /// Debian package
    Deb,
    /// Debian source package
    DebSrc,
}

impl APTRepositoryPackageType {
    /// The name of the package type, as the one-line format writes it.
    pub fn as_str(&self) -> (r: &'static str)
        ensures
            *self == APTRepositoryPackageType::Deb ==> r@ == "deb"@,
            *self == APTRepositoryPackageType::DebSrc ==> r@ == "deb-src"@,
    {
        match self {
            APTRepositoryPackageType::Deb => "deb",
            APTRepositoryPackageType::DebSrc => "deb-src",
        }
    }
}

/// Additional options for an APT repository.
/// Used for both single- and multi-value options.
#[derive(Debug, Clone)]
pub struct APTRepositoryOption {
    /// Option key.
    pub key: String,
    /// Option value(s).
    pub values: Vec<String>,
}

/// Describes an APT repository.
#[derive(Debug, Clone)]
pub struct APTRepository {
    /// List of package types.
    pub types: Vec<APTRepositoryPackageType>,
    /// List of repository URIs.
    pub uris: Vec<String>,
    /// List of package distributions.
    pub suites: Vec<String>,
    /// List of repository components.
    pub components: Vec<String>,
    /// Additional options.
    pub options: Vec<APTRepositoryOption>,
    /// Associated comment.
    pub comment: String,
    /// Format of the defining file.
    pub file_type: APTRepositoryFileType,
    /// Whether the repository is enabled or not.
    pub enabled: bool,
}

/// Why a repository fails its consistency check or cannot be rendered.
#[derive(Debug, Copy, Clone, PartialEq, Eq, Structural)]
pub enum RepoError {
    /// No package type is configured.
    MissingPackageTypes,
    /// No URI is configured.
    MissingUris,
    /// No suite is configured.
    MissingSuites,
    /// A URI lacks a colon or is shorter than three bytes.
    InvalidUri,
    /// A non-absolute suite is configured but no component.
    MissingComponents,
    /// An absolute suite (ending in a slash) does not allow components.
    SuiteForbidsComponents,
    /// A one-line-format repository lists more than one package type.
    MultiplePackageTypes,
    /// A one-line-format repository lists more than one URI.
    MultipleUris,
    /// A one-line-format repository lists more than one suite.
    MultipleSuites,
    /// The repository's file type does not match the requested format.
    WrongFileType,
}

/// Whether a URI passes the basic check: it holds a colon and is at least
/// three bytes long.
pub open spec fn spec_uri_ok(uri: Seq<char>, uri_bytes: usize) -> bool {
    uri.contains(':') && uri_bytes >= 3
}

/// Whether a suite is absolute: it ends with a slash.
pub open spec fn spec_suite_absolute(suite: Seq<char>) -> bool {
    suite.len() > 0 && suite.last() == '/'
}

impl APTRepository {
    /// Creates an empty repository.
    pub fn new(file_type: APTRepositoryFileType) -> (r: Self)
        ensures
            r.types@.len() == 0,
            r.uris@.len() == 0,
            r.suites@.len() == 0,
            r.components@.len() == 0,
            r.options@.len() == 0,
            r.comment@.len() == 0,
            r.file_type == file_type,
            r.enabled == true,
    {
        Self {
            types: Vec::new(),
            uris: Vec::new(),
            suites: Vec::new(),
            components: Vec::new(),
            options: Vec::new(),
            comment: String::new(),
            file_type,
            enabled: true,
        }
    }

    /// Changes the `enabled` flag, and, for DEB822-style repositories, brings
    /// the `Enabled` option in line: the first existing `Enabled` option gets
    /// the value `true`/`false`, and one is appended when none exists.
    #[verifier::loop_isolation(false)]
    pub fn set_enabled(&mut self, enabled: bool)
        ensures
            final(self).enabled == enabled,
            final(self).types == old(self).types,
            final(self).uris == old(self).uris,
            final(self).suites == old(self).suites,
            final(self).components == old(self).components,
            final(self).comment == old(self).comment,
            final(self).file_type == old(self).file_type,
            old(self).file_type != APTRepositoryFileType::Sources ==> final(self).options
                == old(self).options,
            old(self).file_type == APTRepositoryFileType::Sources ==> ({
                let opts = old(self).options@;
                let value: Seq<char> = if enabled {
                    "true"@
                } else {
                    "false"@
                };
                if exists|i: int| 0 <= i < opts.len() && opts[i].key@ == "Enabled"@ {
                    exists|i: int|
                        {
                            &&& 0 <= i < opts.len()
                            &&& opts[i].key@ == "Enabled"@
                            &&& (forall|j: int|
                                0 <= j < i ==> opts[j].key@ != "Enabled"@)
                            &&& final(self).options@.len() == opts.len()
                            &&& (forall|j: int|
                                0 <= j < opts.len() && j != i ==> final(self).options@[j]
                                    == opts[j])
                            &&& final(self).options@[i].key == opts[i].key
                            &&& final(self).options@[i].values@.len() == 1
                            &&& final(self).options@[i].values@[0]@ == value
                        }
                } else {
                    &&& final(self).options@.len() == opts.len() + 1
                    &&& (forall|j: int| 0 <= j < opts.len() ==> final(self).options@[j] == opts[j])
                    &&& final(self).options@[opts.len() as int].key@ == "Enabled"@
                    &&& final(self).options@[opts.len() as int].values@.len() == 1
                    &&& final(self).options@[opts.len() as int].values@[0]@ == value
                }
            }),
    {
        self.enabled = enabled;

        if self.file_type == APTRepositoryFileType::Sources {
            let enabled_string = if enabled {
                "true".to_owned()
            } else {
                "false".to_owned()
            };
            let count = self.options.len();
            let mut k: usize = 0;
            while k < count
                invariant
                    0 <= k <= count,
                    count == self.options@.len(),
                    self.options@ == old(self).options@,
                    forall|j: int| 0 <= j < k ==> self.options@[j].key@ != "Enabled"@,
                    enabled_string@ == if enabled {
                        "true"@
                    } else {
                        "false"@
                    },
                    self.enabled == enabled,
                    self.types == old(self).types,
                    self.uris == old(self).uris,
                    self.suites == old(self).suites,
                    self.components == old(self).components,
                    self.comment == old(self).comment,
                    self.file_type == old(self).file_type,
                decreases count - k,
            {
                if str_eq(self.options[k].key.as_str(), "Enabled") {
                    let mut values: Vec<String> = Vec::new();
                    values.push(enabled_string);
                    let key = self.options[k].key.clone();
                    self.options.set(k, APTRepositoryOption { key, values });
                    return ;
                }
                k += 1;
            }
            self.options.push(APTRepositoryOption { key: "Enabled".to_owned(), values: {
                let mut values: Vec<String> = Vec::new();
                values.push(enabled_string);
                values
            } });
        }
    }

    /// Makes sure that all basic properties of a repository are present and
    /// not obviously invalid: at least one package type, URI and suite; every
    /// URI with a colon and at least three bytes; components exactly for
    /// non-absolute suites; and at most one package type, URI and suite in
    /// the one-line format.
    #[verifier::loop_isolation(false)]
    pub fn basic_check(&self) -> (r: Result<(), RepoError>)
        ensures
            r matches Err(e) ==> match e {
                RepoError::MissingPackageTypes => self.types@.len() == 0,
                RepoError::MissingUris => self.types@.len() > 0 && self.uris@.len() == 0,
                RepoError::MissingSuites => self.types@.len() > 0 && self.uris@.len() > 0
                    && self.suites@.len() == 0,
                RepoError::InvalidUri => self.types@.len() > 0 && self.uris@.len() > 0
                    && self.suites@.len() > 0 && exists|i: int|
                    0 <= i < self.uris@.len() && !spec_uri_ok(
                        self.uris@[i]@,
                        self.uris@[i].spec_bytes_len(),
                    ),
                RepoError::MissingComponents => (forall|i: int|
                    0 <= i < self.uris@.len() ==> spec_uri_ok(
                        self.uris@[i]@,
                        self.uris@[i].spec_bytes_len(),
                    )) && exists|i: int|
                    0 <= i < self.suites@.len() && !spec_suite_absolute(self.suites@[i]@)
                        && self.components@.len() == 0,
                RepoError::SuiteForbidsComponents => (forall|i: int|
                    0 <= i < self.uris@.len() ==> spec_uri_ok(
                        self.uris@[i]@,
                        self.uris@[i].spec_bytes_len(),
                    )) && exists|i: int|
                    0 <= i < self.suites@.len() && spec_suite_absolute(self.suites@[i]@)
                        && self.components@.len() > 0,
                RepoError::MultiplePackageTypes => self.file_type == APTRepositoryFileType::List
                    && self.types@.len() > 1,
                RepoError::MultipleUris => self.file_type == APTRepositoryFileType::List
                    && self.types@.len() == 1 && self.uris@.len() > 1,
                RepoError::MultipleSuites => self.file_type == APTRepositoryFileType::List
                    && self.types@.len() == 1 && self.uris@.len() == 1 && self.suites@.len() > 1,
                _ => false,
            },
            r is Ok <==> ({
                &&& self.types@.len() > 0
                &&& self.uris@.len() > 0
                &&& self.suites@.len() > 0
                &&& (forall|i: int|
                    0 <= i < self.uris@.len() ==> spec_uri_ok(
                        self.uris@[i]@,
                        self.uris@[i].spec_bytes_len(),
                    ))
                &&& (forall|i: int|
                    0 <= i < self.suites@.len() ==> (spec_suite_absolute(self.suites@[i]@)
                        || self.components@.len() > 0))
                &&& (forall|i: int|
                    0 <= i < self.suites@.len() ==> !(spec_suite_absolute(self.suites@[i]@)
                        && self.components@.len() > 0))
                &&& (self.file_type == APTRepositoryFileType::List ==> self.types@.len() <= 1
                    && self.uris@.len() <= 1 && self.suites@.len() <= 1)
            }),
    {
        if self.types.len() == 0 {
            return Err(RepoError::MissingPackageTypes);
        }
        if self.uris.len() == 0 {
            return Err(RepoError::MissingUris);
        }
        if self.suites.len() == 0 {
            return Err(RepoError::MissingSuites);
        }

        let mut i: usize = 0;
        while i < self.uris.len()
            invariant
                0 <= i <= self.uris@.len(),
                forall|j: int|
                    0 <= j < i ==> spec_uri_ok(self.uris@[j]@, self.uris@[j].spec_bytes_len()),
            decreases self.uris@.len() - i,
        {
            let uri = &self.uris[i];
            if !str_contains_char(uri.as_str(), ':') || uri.as_str().len() < 3 {
                proof {
                    assert(!spec_uri_ok(self.uris@[i as int]@, self.uris@[i as int].spec_bytes_len()));
                }
                return Err(RepoError::InvalidUri);
            }
            i += 1;
        }

        let mut i: usize = 0;
        while i < self.suites.len()
            invariant
                0 <= i <= self.suites@.len(),
                forall|j: int|
                    0 <= j < i ==> (spec_suite_absolute(self.suites@[j]@) || self.components@.len()
                        > 0),
                forall|j: int|
                    0 <= j < i ==> !(spec_suite_absolute(self.suites@[j]@) && self.components@.len()
                        > 0),
            decreases self.suites@.len() - i,
        {
            let absolute = str_ends_with_char(self.suites[i].as_str(), '/');
            if !absolute && self.components.len() == 0 {
                return Err(RepoError::MissingComponents);
            } else if absolute && self.components.len() > 0 {
                return Err(RepoError::SuiteForbidsComponents);
            }
            i += 1;
        }

        if self.file_type == APTRepositoryFileType::List {
            if self.types.len() > 1 {
                return Err(RepoError::MultiplePackageTypes);
            }
            if self.uris.len() > 1 {
                return Err(RepoError::MultipleUris);
            }
            if self.suites.len() > 1 {
                return Err(RepoError::MultipleSuites);
            }
        }

        Ok(())
    }
}

/// The index of the first occurrence of `x`, or the length when absent.
pub open spec fn spec_find<A>(s: Seq<A>, x: A) -> int
    decreases s.len(),
{
    if s.len() == 0 {
        0
    } else if s[0] == x {
        0
    } else {
        1 + spec_find(s.skip(1), x)
    }
}

/// What [`spec_find`] promises: a position within the sequence, holding `x`
/// when it is in range, with nothing equal to `x` before it.
pub proof fn lemma_find<A>(s: Seq<A>, x: A)
    ensures
        0 <= spec_find(s, x) <= s.len(),
        spec_find(s, x) < s.len() ==> s[spec_find(s, x)] == x,
        forall|j: int| 0 <= j < spec_find(s, x) ==> s[j] != x,
    decreases s.len(),
{
    if s.len() > 0 && s[0] != x {
        lemma_find(s.skip(1), x);
        let f = spec_find(s, x);
        assert forall|j: int| 0 <= j < f implies s[j] != x by {
            if j > 0 {
                assert(s.skip(1)[j - 1] == s[j]);
            }
        }
        if f < s.len() {
            assert(s.skip(1)[f - 1] == s[f]);
        }
    }
}

/// Scans `s` between `from` and `to` for the first occurrence of `c`,
/// returning where it stands (or `to` when absent), pinned to [`spec_find`].
pub(crate) fn find_char_in(s: &str, from: usize, to: usize, c: char) -> (r: usize)
    requires
        from <= to <= s@.len(),
    ensures
        from <= r <= to,
        spec_find(s@.subrange(from as int, to as int), c) == r - from,
        r < to ==> s@[r as int] == c,
        forall|k: int| from <= k < r ==> s@[k] != c,
{
    let mut j = from;
    while j < to && s.get_char(j) != c
        invariant
            from <= j <= to <= s@.len(),
            forall|k: int| from <= k < j ==> s@[k] != c,
        decreases to - j,
    {
        j += 1;
    }
    proof {
        let sub = s@.subrange(from as int, to as int);
        lemma_find(sub, c);
        assert(forall|k: int| 0 <= k < j - from ==> sub[k] != c);
        if j < to {
            assert(sub[j - from] == c);
        }
        assert(spec_find(sub, c) == j - from);
    }
    j
}

/// The host part of a URI: what stands after `http://` or `https://`, up to
/// the first slash, with any user-information part (up to an `@`) and any
/// port (after a `:`) removed; `None` for any other scheme.
pub open spec fn spec_host_from_uri(uri: Seq<char>) -> Option<Seq<char>> {
    if uri.len() < 4 || uri[0] != 'h' || uri[1] != 't' || uri[2] != 't' || uri[3] != 'p' {
        Option::None
    } else {
        let rest = uri.skip(4);
        let rest2 = if rest.len() > 0 && rest[0] == 's' {
            rest.skip(1)
        } else {
            rest
        };
        if rest2.len() < 3 || rest2[0] != ':' || rest2[1] != '/' || rest2[2] != '/' {
            Option::None
        } else {
            let host0 = rest2.skip(3);
            let host1 = host0.take(spec_find(host0, '/'));
            let host2 = if spec_find(host1, '@') < host1.len() {
                host1.skip(spec_find(host1, '@') + 1)
            } else {
                host1
            };
            let host3 = host2.take(spec_find(host2, ':'));
            Option::Some(host3)
        }
    }
}

/// Get the host part from a given URI.
#[verifier::loop_isolation(false)]
#[verifier::rlimit(60)]
pub fn host_from_uri<'a>(uri: &'a str) -> (r: Option<&'a str>)
    ensures
        match r {
            Option::Some(host) => spec_host_from_uri(uri@) == Option::Some(host@),
            Option::None => spec_host_from_uri(uri@) is None,
        },
{
    let n = uri.unicode_len();
    if n < 4 || uri.get_char(0) != 'h' || uri.get_char(1) != 't' || uri.get_char(2) != 't'
        || uri.get_char(3) != 'p' {
        return None;
    }

    let mut pos: usize = 4;
    if pos < n && uri.get_char(pos) == 's' {
        pos += 1;
    }
    let ghost rest2 = if uri@.skip(4).len() > 0 && uri@.skip(4)[0] == 's' {
        uri@.skip(4).skip(1)
    } else {
        uri@.skip(4)
    };
    proof {
        if uri@.skip(4).len() > 0 && uri@.skip(4)[0] == 's' {
            assert(uri@.skip(4).skip(1) =~= uri@.skip(5));
        }
        assert(rest2 =~= uri@.skip(pos as int));
    }

    if n < pos + 3 || uri.get_char(pos) != ':' || uri.get_char(pos + 1) != '/' || uri.get_char(
        pos + 2,
    ) != '/' {
        return None;
    }

    let a0 = pos + 3;
    let ghost host0 = rest2.skip(3);
    proof {
        assert(host0 =~= uri@.subrange(a0 as int, n as int));
    }

    // cut at the first slash
    let b1 = find_char_in(uri, a0, n, '/');
    let ghost host1 = host0.take(spec_find(host0, '/'));
    proof {
        assert(spec_find(host0, '/') == b1 - a0);
        assert(host1 =~= uri@.subrange(a0 as int, b1 as int));
    }

    // skip past the user information, if any
    let at = find_char_in(uri, a0, b1, '@');
    let a1: usize = if at < b1 {
        at + 1
    } else {
        a0
    };
    let ghost host2 = if spec_find(host1, '@') < host1.len() {
        host1.skip(spec_find(host1, '@') + 1)
    } else {
        host1
    };
    proof {
        assert(uri@.subrange(a0 as int, b1 as int) =~= host1);
        assert(spec_find(host1, '@') == at - a0);
        assert(host2 =~= uri@.subrange(a1 as int, b1 as int));
    }

    // cut at the first colon
    let b2 = find_char_in(uri, a1, b1, ':');
    proof {
        assert(uri@.subrange(a1 as int, b1 as int) =~= host2);
        assert(spec_find(host2, ':') == b2 - a1);
        assert(host2.take(spec_find(host2, ':')) =~= uri@.subrange(a1 as int, b2 as int));
    }

    Some(uri.substring_char(a1, b2))
}

/// Whether a host is an official one, and the origin it stands for:
/// `proxmox.com` and its subdomains are `Proxmox`, `debian.org` and its
/// subdomains `Debian`.
pub open spec fn spec_origin_of_host(host: Seq<char>) -> Option<Seq<char>> {
    if host == "proxmox.com"@ || (host.len() >= ".proxmox.com"@.len() && host.skip(
        host.len() - ".proxmox.com"@.len(),
    ) == ".proxmox.com"@) {
        Option::Some("Proxmox"@)
    } else if host == "debian.org"@ || (host.len() >= ".debian.org"@.len() && host.skip(
        host.len() - ".debian.org"@.len(),
    ) == ".debian.org"@) {
        Option::Some("Debian"@)
    } else {
        Option::None
    }
}

/// The origin a single URI witnesses, if any.
pub open spec fn spec_origin_of_uri(uri: Seq<char>) -> Option<Seq<char>> {
    match spec_host_from_uri(uri) {
        Option::None => Option::None,
        Option::Some(host) => spec_origin_of_host(host),
    }
}

/// Whether one string slice ends with another.
fn str_ends_with(s: &str, suffix: &str) -> (r: bool)
    ensures
        r == (s@.len() >= suffix@.len() && s@.skip(s@.len() - suffix@.len()) == suffix@),
{
    let n = s.unicode_len();
    let m = suffix.unicode_len();
    if n < m {
        return false;
    }
    let mut j: usize = 0;
    while j < m
        invariant
            0 <= j <= m <= n,
            n == s@.len(),
            m == suffix@.len(),
            forall|k: int| 0 <= k < j ==> s@[n - m + k] == suffix@[k],
        decreases m - j,
    {
        if s.get_char(n - m + j) != suffix.get_char(j) {
            proof {
                assert(s@.skip(n as int - m as int)[j as int] != suffix@[j as int]);
            }
            return false;
        }
        j += 1;
    }
    proof {
        assert(s@.skip(n as int - m as int) =~= suffix@);
    }
    true
}

impl APTRepository {
    /// Guess the origin from the repository's URIs: the first URI whose host
    /// is an official Proxmox or Debian one decides.
    #[verifier::loop_isolation(false)]
    pub fn origin_from_uris(&self) -> (r: Option<String>)
        ensures
            match r {
                Option::Some(origin) => exists|i: int|
                    {
                        &&& 0 <= i < self.uris@.len()
                        &&& spec_origin_of_uri(self.uris@[i]@) == Option::Some(origin@)
                        &&& (forall|j: int|
                            0 <= j < i ==> spec_origin_of_uri(self.uris@[j]@) is None)
                    },
                Option::None => forall|i: int|
                    0 <= i < self.uris@.len() ==> spec_origin_of_uri(self.uris@[i]@) is None,
            },
    {
        let count = self.uris.len();
        let mut i: usize = 0;
        while i < count
            invariant
                0 <= i <= count,
                count == self.uris@.len(),
                forall|j: int| 0 <= j < i ==> spec_origin_of_uri(self.uris@[j]@) is None,
            decreases count - i,
        {
            let uri = &self.uris[i];
            if let Some(host) = host_from_uri(uri.as_str()) {
                if str_eq(host, "proxmox.com") || str_ends_with(host, ".proxmox.com") {
                    return Some("Proxmox".to_owned());
                }
                if str_eq(host, "debian.org") || str_ends_with(host, ".debian.org") {
                    return Some("Debian".to_owned());
                }
            }
            i += 1;
        }
        None
    }
}

/// A line of the comment with a carriage return before the line feed
/// stripped, as the line-splitting of the comment strips it.
pub open spec fn spec_strip_cr(line: Seq<char>) -> Seq<char> {
    if line.len() > 0 && line.last() == '\r' {
        line.drop_last()
    } else {
        line
    }
}

/// The comment rendered as `#`-prefixed lines: scanning from position `i`
/// with `cur` the partial line read so far, each line becomes `#`, the line,
/// and a line feed; an empty final line is dropped.
pub open spec fn spec_comment_from(c: Seq<char>, i: int, cur: Seq<char>) -> Seq<char>
    decreases c.len() - i,
{
    if i < 0 || i >= c.len() {
        if cur.len() > 0 {
            seq!['#'] + cur + seq!['\n']
        } else {
            Seq::empty()
        }
    } else if c[i] == '\n' {
        seq!['#'] + spec_strip_cr(cur) + seq!['\n'] + spec_comment_from(c, i + 1, Seq::empty())
    } else {
        spec_comment_from(c, i + 1, cur.push(c[i]))
    }
}

/// The whole comment as `#`-prefixed lines.
pub open spec fn spec_comment_block(c: Seq<char>) -> Seq<char> {
    spec_comment_from(c, 0, Seq::empty())
}

/// Values joined with a separator.
pub open spec fn spec_join(vs: Seq<Seq<char>>, sep: Seq<char>) -> Seq<char>
    decreases vs.len(),
{
    if vs.len() == 0 {
        Seq::empty()
    } else if vs.len() == 1 {
        vs[0]
    } else {
        vs[0] + sep + spec_join(vs.skip(1), sep)
    }
}

/// Joining one more value appends the separator (after at least one value)
/// and the value.
proof fn lemma_join_snoc(vs: Seq<Seq<char>>, sep: Seq<char>, v: Seq<char>)
    ensures
        spec_join(vs.push(v), sep) == if vs.len() == 0 {
            v
        } else {
            spec_join(vs, sep) + sep + v
        },
    decreases vs.len(),
{
    if vs.len() == 0 {
        assert(vs.push(v).len() == 1);
        assert(vs.push(v)[0] == v);
    } else {
        assert(vs.push(v).skip(1) =~= vs.skip(1).push(v));
        lemma_join_snoc(vs.skip(1), sep, v);
        if vs.len() == 1 {
            assert(vs.push(v)[0] == vs[0]);
            assert(spec_join(vs.skip(1).push(v), sep) == v);
            assert(spec_join(vs, sep) == vs[0]);
            assert(spec_join(vs.push(v), sep) =~= spec_join(vs, sep) + sep + v);
        } else {
            assert(vs.push(v)[0] == vs[0]);
            assert(spec_join(vs.push(v), sep) =~= spec_join(vs, sep) + sep + v);
        }
    }
}

/// Appends the values, joined with the separator, to `out`.
#[verifier::loop_isolation(false)]
fn push_join(out: &mut String, values: &Vec<String>, sep: &str)
    ensures
        final(out)@ == old(out)@ + spec_join(values@.map_values(|v: String| v@), sep@),
{
    let ghost vs = values@.map_values(|v: String| v@);
    let count = values.len();
    let mut k: usize = 0;
    proof {
        assert(vs.take(0) =~= Seq::<Seq<char>>::empty());
        assert(out@ =~= old(out)@ + spec_join(vs.take(0), sep@));
    }
    while k < count
        invariant
            0 <= k <= count,
            count == values@.len(),
            out@ == old(out)@ + spec_join(vs.take(k as int), sep@),
        decreases count - k,
    {
        if k > 0 {
            out.append(sep);
        }
        out.append(values[k].as_str());
        proof {
            lemma_join_snoc(vs.take(k as int), sep@, vs[k as int]);
            assert(vs.take(k as int).push(vs[k as int]) =~= vs.take(k as int + 1));
        }
        k += 1;
    }
    proof {
        assert(vs.take(count as int) =~= vs);
    }
}

/// Appends the comment as `#`-prefixed lines to `out`.
#[verifier::loop_isolation(false)]
#[verifier::rlimit(50)]
fn push_comment_lines(out: &mut String, comment: &str)
    ensures
        final(out)@ == old(out)@ + spec_comment_block(comment@),
{
    let n = comment.unicode_len();
    let mut i: usize = 0;
    let mut start: usize = 0;
    proof {
        assert(comment@.subrange(0, 0) =~= Seq::<char>::empty());
        assert(old(out)@ + spec_comment_block(comment@) =~= out@ + spec_comment_from(
            comment@,
            0,
            comment@.subrange(0, 0),
        ));
    }
    while i < n
        invariant
            0 <= start <= i <= n,
            n == comment@.len(),
            forall|j: int| start <= j < i ==> comment@[j] != '\n',
            old(out)@ + spec_comment_block(comment@) == out@ + spec_comment_from(
                comment@,
                i as int,
                comment@.subrange(start as int, i as int),
            ),
        decreases n - i,
    {
        let c = comment.get_char(i);
        if c == '\n' {
            let end: usize = if i > start && comment.get_char(i - 1) == '\r' {
                i - 1
            } else {
                i
            };
            proof {
                assert(spec_strip_cr(comment@.subrange(start as int, i as int)) =~= comment@
                    .subrange(start as int, end as int));
            }
            string_push(out, '#');
            let line = comment.substring_char(start, end);
            out.append(line);
            string_push(out, '\n');
            proof {
                assert(old(out)@ + spec_comment_block(comment@) =~= out@ + spec_comment_from(
                    comment@,
                    i as int + 1,
                    Seq::empty(),
                ));
                assert(comment@.subrange(i as int + 1, i as int + 1) =~= Seq::<char>::empty());
            }
            start = i + 1;
        } else {
            proof {
                assert(comment@.subrange(start as int, i as int).push(comment@[i as int])
                    =~= comment@.subrange(start as int, i as int + 1));
            }
        }
        i += 1;
    }
    if start < n {
        string_push(out, '#');
        let line = comment.substring_char(start, n);
        out.append(line);
        string_push(out, '\n');
        proof {
            assert(old(out)@ + spec_comment_block(comment@) =~= out@);
        }
    } else {
        proof {
            assert(comment@.subrange(start as int, n as int).len() == 0);
            assert(old(out)@ + spec_comment_block(comment@) =~= out@);
        }
    }
}

/// The ASCII whitespace characters that force quoting in the one-line format.
pub open spec fn spec_is_ascii_ws(c: char) -> bool {
    c == ' ' || c == '\t' || c == '\n' || c == '\r' || c == '\u{c}'
}

/// The string with every double quote removed.
pub open spec fn spec_without_quotes(s: Seq<char>) -> Seq<char>
    decreases s.len(),
{
    if s.len() == 0 {
        s
    } else {
        let rest = spec_without_quotes(s.drop_last());
        if s.last() != '"' {
            rest.push(s.last())
        } else {
            rest
        }
    }
}

/// Whether the one-line format must quote the string: it holds ASCII
/// whitespace that no `[...]` group encloses. `wait` says whether the scan at
/// position `i` stands inside a bracket group.
pub open spec fn spec_needs_quotes(t: Seq<char>, i: int, wait: bool) -> bool
    decreases t.len() - i,
{
    if i < 0 || i >= t.len() {
        false
    } else if wait {
        if t[i] == ']' {
            spec_needs_quotes(t, i + 1, false)
        } else {
            spec_needs_quotes(t, i + 1, true)
        }
    } else if spec_is_ascii_ws(t[i]) {
        true
    } else if t[i] == '[' {
        spec_needs_quotes(t, i + 1, true)
    } else {
        spec_needs_quotes(t, i + 1, false)
    }
}

/// The string as the one-line format writes it: double quotes removed, and
/// the whole string surrounded by double quotes when it holds unbracketed
/// ASCII whitespace.
pub open spec fn spec_quoted(s: Seq<char>) -> Seq<char> {
    let t = spec_without_quotes(s);
    if spec_needs_quotes(t, 0, false) {
        seq!['"'] + t + seq!['"']
    } else {
        t
    }
}

/// Strips existing double quotes from the string first, and then adds double
/// quotes at the beginning and end if there is an ASCII whitespace in the
/// `string`, which is not escaped by `[]`.
#[verifier::loop_isolation(false)]
pub fn quote_for_one_line(string: &str) -> (r: String)
    ensures
        r@ == spec_quoted(string@),
{
    let n = string.unicode_len();
    let mut t = String::new();
    let mut i: usize = 0;
    while i < n
        invariant
            0 <= i <= n,
            n == string@.len(),
            t@ == spec_without_quotes(string@.take(i as int)),
        decreases n - i,
    {
        let c = string.get_char(i);
        proof {
            assert(string@.take(i as int + 1).drop_last() =~= string@.take(i as int));
            assert(string@.take(i as int + 1).last() == string@[i as int]);
        }
        if c != '"' {
            string_push(&mut t, c);
        }
        i += 1;
    }
    proof {
        assert(string@.take(n as int) =~= string@);
    }

    let m = t.as_str().unicode_len();
    let mut j: usize = 0;
    let mut wait = false;
    let mut needs = false;
    while j < m && !needs
        invariant
            0 <= j <= m,
            m == t@.len(),
            needs ==> spec_needs_quotes(t@, 0, false),
            !needs ==> spec_needs_quotes(t@, 0, false) == spec_needs_quotes(t@, j as int, wait),
        decreases m - j,
    {
        let c = t.as_str().get_char(j);
        if wait {
            if c == ']' {
                wait = false;
            }
        } else if c == ' ' || c == '\t' || c == '\n' || c == '\r' || c == '\u{c}' {
            needs = true;
        } else if c == '[' {
            wait = true;
        }
        j += 1;
    }

    if needs {
        let mut r = String::new();
        string_push(&mut r, '"');
        r.append(t.as_str());
        string_push(&mut r, '"');
        proof {
            assert(r@ =~= seq!['"'] + t@ + seq!['"']);
        }
        r
    } else {
        t
    }
}

/// The name of a package type, as the repository formats write it.
pub open spec fn spec_type_name(t: APTRepositoryPackageType) -> Seq<char> {
    if t == APTRepositoryPackageType::Deb {
        "deb"@
    } else {
        "deb-src"@
    }
}

/// An option as `key=value,value,...`, the form the one-line format quotes.
pub open spec fn spec_option_text(o: APTRepositoryOption) -> Seq<char> {
    o.key@ + "="@ + spec_join(o.values@.map_values(|v: String| v@), ","@)
}

/// The options of a one-line repository from index `k` on, each quoted and
/// followed by a space.
pub open spec fn spec_options_one_line_from(opts: Seq<APTRepositoryOption>, k: int) -> Seq<char>
    decreases opts.len() - k,
{
    if k < 0 || k >= opts.len() {
        Seq::empty()
    } else {
        spec_quoted(spec_option_text(opts[k])) + " "@ + spec_options_one_line_from(opts, k + 1)
    }
}

/// The whole option group of a one-line repository, or nothing when there
/// are no options.
pub open spec fn spec_options_block(opts: Seq<APTRepositoryOption>) -> Seq<char> {
    if opts.len() == 0 {
        Seq::empty()
    } else {
        "[ "@ + spec_options_one_line_from(opts, 0) + "] "@
    }
}

/// A repository in the one-line format: the comment as `#` lines, `# ` when
/// disabled, the package type, the bracketed options, the quoted URI, suite
/// and components, and a blank line.
pub open spec fn spec_render_one_line(repo: APTRepository) -> Seq<char> {
    spec_comment_block(repo.comment@) + (if repo.enabled {
        Seq::<char>::empty()
    } else {
        "# "@
    }) + spec_type_name(repo.types@[0]) + " "@ + spec_options_block(repo.options@) + spec_quoted(
        repo.uris@[0]@,
    ) + " "@ + spec_quoted(repo.suites@[0]@) + " "@ + spec_join(
        repo.components@.map_values(|c: String| spec_quoted(c@)),
        " "@,
    ) + "\n"@ + "\n"@
}

/// The package types of a stanza from index `k` on, each preceded by a
/// space.
pub open spec fn spec_types_stanza_from(
    types: Seq<APTRepositoryPackageType>,
    k: int,
) -> Seq<char>
    decreases types.len() - k,
{
    if k < 0 || k >= types.len() {
        Seq::empty()
    } else {
        " "@ + spec_type_name(types[k]) + spec_types_stanza_from(types, k + 1)
    }
}

/// The options of a stanza from index `k` on, one `Key: values` line each.
pub open spec fn spec_options_stanza_from(opts: Seq<APTRepositoryOption>, k: int) -> Seq<char>
    decreases opts.len() - k,
{
    if k < 0 || k >= opts.len() {
        Seq::empty()
    } else {
        opts[k].key@ + ": "@ + spec_join(opts[k].values@.map_values(|v: String| v@), " "@) + "\n"@
            + spec_options_stanza_from(opts, k + 1)
    }
}

/// A repository as a DEB822 stanza: the comment as `#` lines, the `Types`,
/// `URIs`, `Suites` and (when present) `Components` lines, the option lines,
/// and a blank line.
pub open spec fn spec_render_stanza(repo: APTRepository) -> Seq<char> {
    spec_comment_block(repo.comment@) + "Types:"@ + spec_types_stanza_from(repo.types@, 0) + "\n"@
        + "URIs: "@ + spec_join(repo.uris@.map_values(|v: String| v@), " "@) + "\n"@ + "Suites: "@
        + spec_join(repo.suites@.map_values(|v: String| v@), " "@) + "\n"@ + (if repo.components@
        .len() > 0 {
        "Components: "@ + spec_join(repo.components@.map_values(|v: String| v@), " "@) + "\n"@
    } else {
        Seq::<char>::empty()
    }) + spec_options_stanza_from(repo.options@, 0) + "\n"@
}

/// Writes a repository in one-line format followed by a blank line, into
/// `out`.
///
/// Expects a one-line-format repository whose `basic_check()` was successful.
#[verifier::loop_isolation(false)]
#[verifier::rlimit(100)]
#[verifier::spinoff_prover]
pub fn write_one_line(repo: &APTRepository, out: &mut String) -> (r: Result<(), RepoError>)
    requires
        repo.file_type == APTRepositoryFileType::List ==> repo.types@.len() > 0 && repo.uris@.len()
            > 0 && repo.suites@.len() > 0,
    ensures
        r is Ok <==> repo.file_type == APTRepositoryFileType::List,
        r matches Err(e) ==> e == RepoError::WrongFileType && *final(out) == *old(out),
        r is Ok ==> final(out)@ == old(out)@ + spec_render_one_line(*repo),
{
    if repo.file_type != APTRepositoryFileType::List {
        return Err(RepoError::WrongFileType);
    }

    push_comment_lines(out, repo.comment.as_str());

    if !repo.enabled {
        out.append("# ");
    }

    out.append(repo.types[0].as_str());
    out.append(" ");

    if repo.options.len() > 0 {
        out.append("[ ");
        let ghost base = out@;
        let count = repo.options.len();
        let mut k: usize = 0;
        while k < count
            invariant
                0 <= k <= count,
                count == repo.options@.len(),
                out@ + spec_options_one_line_from(repo.options@, k as int) == base
                    + spec_options_one_line_from(repo.options@, 0),
            decreases count - k,
        {
            let option = &repo.options[k];
            let mut text = String::new();
            text.append(option.key.as_str());
            text.append("=");
            push_join(&mut text, &option.values, ",");
            let quoted = quote_for_one_line(text.as_str());
            out.append(quoted.as_str());
            out.append(" ");
            proof {
                assert(text@ =~= spec_option_text(repo.options@[k as int]));
                assert(out@ + spec_options_one_line_from(repo.options@, k as int + 1) =~= base
                    + spec_options_one_line_from(repo.options@, 0));
            }
            k += 1;
        }
        out.append("] ");
    }

    let quoted_uri = quote_for_one_line(repo.uris[0].as_str());
    out.append(quoted_uri.as_str());
    out.append(" ");

    let quoted_suite = quote_for_one_line(repo.suites[0].as_str());
    out.append(quoted_suite.as_str());
    out.append(" ");

    let mut quoted_components: Vec<String> = Vec::new();
    let count = repo.components.len();
    let mut k: usize = 0;
    while k < count
        invariant
            0 <= k <= count,
            count == repo.components@.len(),
            quoted_components@.map_values(|v: String| v@) == repo.components@.map_values(
                |c: String| spec_quoted(c@),
            ).take(k as int),
        decreases count - k,
    {
        let q = quote_for_one_line(repo.components[k].as_str());
        quoted_components.push(q);
        proof {
            assert(quoted_components@.map_values(|v: String| v@) =~= repo.components@.map_values(
                |c: String| spec_quoted(c@),
            ).take(k as int + 1));
        }
        k += 1;
    }
    proof {
        assert(repo.components@.map_values(|c: String| spec_quoted(c@)).take(count as int)
            =~= repo.components@.map_values(|c: String| spec_quoted(c@)));
    }
    push_join(out, &quoted_components, " ");

    out.append("\n");
    out.append("\n");

    proof {
        assert(final(out)@ =~= old(out)@ + spec_render_one_line(*repo));
    }
    Ok(())
}

/// Writes a single stanza followed by a blank line, into `out`.
///
/// Expects a DEB822-format repository.
#[verifier::loop_isolation(false)]
#[verifier::rlimit(100)]
#[verifier::spinoff_prover]
pub fn write_stanza(repo: &APTRepository, out: &mut String) -> (r: Result<(), RepoError>)
    ensures
        r is Ok <==> repo.file_type == APTRepositoryFileType::Sources,
        r matches Err(e) ==> e == RepoError::WrongFileType && *final(out) == *old(out),
        r is Ok ==> final(out)@ == old(out)@ + spec_render_stanza(*repo),
{
    if repo.file_type != APTRepositoryFileType::Sources {
        return Err(RepoError::WrongFileType);
    }

    push_comment_lines(out, repo.comment.as_str());

    out.append("Types:");
    let ghost base_types = out@;
    let count = repo.types.len();
    let mut k: usize = 0;
    while k < count
        invariant
            0 <= k <= count,
            count == repo.types@.len(),
            out@ + spec_types_stanza_from(repo.types@, k as int) == base_types
                + spec_types_stanza_from(repo.types@, 0),
        decreases count - k,
    {
        out.append(" ");
        out.append(repo.types[k].as_str());
        proof {
            assert(out@ + spec_types_stanza_from(repo.types@, k as int + 1) =~= base_types
                + spec_types_stanza_from(repo.types@, 0));
        }
        k += 1;
    }
    out.append("\n");

    out.append("URIs: ");
    push_join(out, &repo.uris, " ");
    out.append("\n");

    out.append("Suites: ");
    push_join(out, &repo.suites, " ");
    out.append("\n");

    if repo.components.len() > 0 {
        out.append("Components: ");
        push_join(out, &repo.components, " ");
        out.append("\n");
    }

    let ghost base_opts = out@;
    let count = repo.options.len();
    let mut k: usize = 0;
    while k < count
        invariant
            0 <= k <= count,
            count == repo.options@.len(),
            out@ + spec_options_stanza_from(repo.options@, k as int) == base_opts
                + spec_options_stanza_from(repo.options@, 0),
        decreases count - k,
    {
        let option = &repo.options[k];
        out.append(option.key.as_str());
        out.append(": ");
        push_join(out, &option.values, " ");
        out.append("\n");
        proof {
            assert(out@ + spec_options_stanza_from(repo.options@, k as int + 1) =~= base_opts
                + spec_options_stanza_from(repo.options@, 0));
        }
        k += 1;
    }

    out.append("\n");

    proof {
        assert(final(out)@ =~= old(out)@ + spec_render_stanza(*repo));
    }
    Ok(())
}

impl APTRepository {
    /// Writes a repository in the corresponding format followed by a blank,
    /// into `out`.
    ///
    /// Expects that `basic_check()` for the repository was successful.
    pub fn write(&self, out: &mut String) -> (r: Result<(), RepoError>)
        requires
            self.file_type == APTRepositoryFileType::List ==> self.types@.len() > 0
                && self.uris@.len() > 0 && self.suites@.len() > 0,
        ensures
            r is Ok,
            self.file_type == APTRepositoryFileType::List ==> final(out)@ == old(out)@
                + spec_render_one_line(*self),
            self.file_type == APTRepositoryFileType::Sources ==> final(out)@ == old(out)@
                + spec_render_stanza(*self),
    {
        match self.file_type {
            APTRepositoryFileType::List => write_one_line(self, out),
            APTRepositoryFileType::Sources => write_stanza(self, out),
        }
    }
}

/// The ASCII byte of one lowercase hex digit.
pub open spec fn spec_hex_digit(d: int) -> u8 {
    if d < 10 {
        (0x30 + d) as u8
    } else {
        (0x57 + d) as u8
    }
}

/// Whether a filename byte must be percent-encoded: control characters and
/// space, non-ASCII bytes and DEL, and APT's set of special characters.
pub open spec fn spec_needs_uri_encoding(b: u8) -> bool {
    ||| b <= 0x20
    ||| b >= 0x7F
    ||| b == 0x5C || b == 0x7C || b == 0x7B || b == 0x7D || b == 0x5B || b == 0x5D || b == 0x3C
        || b == 0x3E || b == 0x22 || b == 0x5E || b == 0x7E || b == 0x5F || b == 0x3D || b == 0x21
        || b == 0x40 || b == 0x23 || b == 0x24 || b == 0x25 || b == 0x26 || b == 0x2A
}

/// One byte of the encoded filename: `%xx` with lowercase hex digits for the
/// encoded set, `_` for a slash, the byte itself otherwise.
pub open spec fn spec_encode_uri_byte(b: u8) -> Seq<u8> {
    if spec_needs_uri_encoding(b) {
        seq![0x25u8, spec_hex_digit((b / 16) as int), spec_hex_digit((b % 16) as int)]
    } else if b == 0x2F {
        seq![0x5Fu8]
    } else {
        seq![b]
    }
}

/// The bytes of the encoded filename.
pub open spec fn spec_encode_uri_bytes(s: Seq<u8>) -> Seq<u8>
    decreases s.len(),
{
    if s.len() == 0 {
        Seq::empty()
    } else {
        spec_encode_uri_byte(s[0]) + spec_encode_uri_bytes(s.skip(1))
    }
}

/// Every byte of the encoded filename is ASCII.
proof fn lemma_encode_uri_ascii(s: Seq<u8>)
    ensures
        forall|i: int|
            0 <= i < spec_encode_uri_bytes(s).len() ==> spec_encode_uri_bytes(s)[i] < 0x80,
    decreases s.len(),
{
    if s.len() > 0 {
        lemma_encode_uri_ascii(s.skip(1));
        let head = spec_encode_uri_byte(s[0]);
        let whole = spec_encode_uri_bytes(s);
        assert forall|i: int| 0 <= i < whole.len() implies whole[i] < 0x80 by {
            if i < head.len() {
                assert(whole[i] == head[i]);
            } else {
                assert(whole[i] == spec_encode_uri_bytes(s.skip(1))[i - head.len()]);
            }
        }
    }
}

/// The position of the first `://`, or the whole length when absent.
pub open spec fn spec_find_scheme_sep(b: Seq<u8>) -> int
    decreases b.len(),
{
    if b.len() < 3 {
        b.len() as int
    } else if b[0] == 0x3A && b[1] == 0x2F && b[2] == 0x2F {
        0
    } else {
        1 + spec_find_scheme_sep(b.skip(1))
    }
}

/// What [`spec_find_scheme_sep`] promises: when it is three before the end
/// or earlier, `://` stands there and nowhere before; otherwise it is the
/// whole length and `://` occurs nowhere.
pub proof fn lemma_find_scheme_sep(b: Seq<u8>)
    ensures
        0 <= spec_find_scheme_sep(b) <= b.len(),
        spec_find_scheme_sep(b) + 3 <= b.len() ==> (b[spec_find_scheme_sep(b)] == 0x3A
            && b[spec_find_scheme_sep(b) + 1] == 0x2F && b[spec_find_scheme_sep(b) + 2] == 0x2F),
        forall|j: int|
            0 <= j < spec_find_scheme_sep(b) && j + 3 <= b.len() ==> !(#[trigger] b[j] == 0x3A
                && b[j + 1] == 0x2F && b[j + 2] == 0x2F),
        spec_find_scheme_sep(b) + 3 > b.len() ==> spec_find_scheme_sep(b) == b.len(),
    decreases b.len(),
{
    if b.len() >= 3 && !(b[0] == 0x3A && b[1] == 0x2F && b[2] == 0x2F) {
        lemma_find_scheme_sep(b.skip(1));
        let f = spec_find_scheme_sep(b);
        assert forall|j: int|
            0 <= j < f && j + 3 <= b.len() implies !(#[trigger] b[j] == 0x3A && b[j + 1] == 0x2F
            && b[j + 2] == 0x2F) by {
            if j > 0 {
                assert(b.skip(1)[j - 1] == b[j]);
                assert(b.skip(1)[j] == b[j + 1]);
                assert(b.skip(1)[j + 1] == b[j + 2]);
            }
        }
        if f + 3 <= b.len() {
            assert(b.skip(1)[f - 1] == b[f]);
            assert(b.skip(1)[f] == b[f + 1]);
            assert(b.skip(1)[f + 1] == b[f + 2]);
        }
    }
}

/// Whether the URI bytes start with `http://` or `https://`.
pub open spec fn spec_is_http_uri(b: Seq<u8>) -> bool {
    ||| (b.len() >= 7 && b[0] == 0x68 && b[1] == 0x74 && b[2] == 0x74 && b[3] == 0x70 && b[4]
        == 0x3A && b[5] == 0x2F && b[6] == 0x2F)
    ||| (b.len() >= 8 && b[0] == 0x68 && b[1] == 0x74 && b[2] == 0x74 && b[3] == 0x70 && b[4]
        == 0x73 && b[5] == 0x3A && b[6] == 0x2F && b[7] == 0x2F)
}

/// The part of the URI that the cache filename encodes: what follows the
/// first `://`; for `http`/`https` URIs with what follows the first `@`
/// removed up to and including it; and one trailing slash stripped.
pub open spec fn spec_uri_filename_input(b: Seq<u8>) -> Seq<u8> {
    let f = spec_find_scheme_sep(b);
    let after = if f + 3 <= b.len() {
        b.skip(f + 3)
    } else {
        b
    };
    let after2 = if spec_is_http_uri(b) && spec_find(after, 0x40u8) < after.len() {
        after.skip(spec_find(after, 0x40u8) + 1)
    } else {
        after
    };
    if after2.len() > 0 && after2.last() == 0x2F {
        after2.drop_last()
    } else {
        after2
    }
}

/// Appends the coding of one byte to the output.
fn push_encoded_byte(out: &mut Vec<u8>, x: u8)
    ensures
        final(out)@ == old(out)@ + spec_encode_uri_byte(x),
{
    if x <= 0x20 || x >= 0x7F || x == 0x5C || x == 0x7C || x == 0x7B || x == 0x7D || x == 0x5B
        || x == 0x5D || x == 0x3C || x == 0x3E || x == 0x22 || x == 0x5E || x == 0x7E || x == 0x5F
        || x == 0x3D || x == 0x21 || x == 0x40 || x == 0x23 || x == 0x24 || x == 0x25 || x == 0x26
        || x == 0x2A {
        out.push(0x25);
        let hi = x / 16;
        let lo = x % 16;
        out.push(
            if hi < 10 {
                0x30 + hi
            } else {
                0x57 + hi
            },
        );
        out.push(
            if lo < 10 {
                0x30 + lo
            } else {
                0x57 + lo
            },
        );
    } else if x == 0x2F {
        out.push(0x5F);
    } else {
        out.push(x);
    }
    proof {
        assert(final(out)@ =~= old(out)@ + spec_encode_uri_byte(x));
    }
}

/// Encodes the bytes between `from` and `to`.
fn encode_uri_range(bytes: &Vec<u8>, from: usize, to: usize) -> (out: Vec<u8>)
    requires
        from <= to <= bytes@.len(),
    ensures
        out@ == spec_encode_uri_bytes(bytes@.subrange(from as int, to as int)),
{
    let ghost trimmed = bytes@.subrange(from as int, to as int);
    let mut out: Vec<u8> = Vec::new();
    let mut i: usize = from;
    proof {
        assert(trimmed.skip(0) =~= trimmed);
        assert(spec_encode_uri_bytes(trimmed) =~= out@ + spec_encode_uri_bytes(trimmed.skip(0)));
    }
    while i < to
        invariant
            from <= i <= to <= bytes@.len(),
            trimmed == bytes@.subrange(from as int, to as int),
            spec_encode_uri_bytes(trimmed) == out@ + spec_encode_uri_bytes(
                trimmed.skip(i - from),
            ),
        decreases to - i,
    {
        let x = bytes[i];
        proof {
            assert(trimmed.skip(i - from)[0] == x);
            assert(trimmed.skip(i - from).skip(1) =~= trimmed.skip(i + 1 - from));
        }
        push_encoded_byte(&mut out, x);
        proof {
            assert(spec_encode_uri_bytes(trimmed) =~= out@ + spec_encode_uri_bytes(
                trimmed.skip(i + 1 - from),
            ));
        }
        i += 1;
    }
    proof {
        assert(trimmed.skip(to - from).len() == 0);
        assert(out@ =~= spec_encode_uri_bytes(trimmed));
    }
    out
}

/// See APT's URItoFileName: drops the scheme and any user information, strips
/// one trailing slash, percent-encodes special bytes with lowercase hex, and
/// replaces every remaining slash with an underscore.
#[verifier::loop_isolation(false)]
#[verifier::rlimit(100)]
#[verifier::spinoff_prover]
pub fn uri_to_filename(uri: &str) -> (r: String)
    ensures
        r@ == spec_encode_uri_bytes(
            spec_uri_filename_input(vstd::utf8::encode_utf8(uri@)),
        ).map_values(|b: u8| b as char),
{
    let bytes = uri.as_bytes_vec();
    let n = bytes.len();
    let ghost b = bytes@;

    // find the first `://`
    let mut start: usize = 0;
    if n >= 3 {
        let mut f: usize = 0;
        while f <= n - 3 && !(bytes[f] == 0x3A && bytes[f + 1] == 0x2F && bytes[f + 2] == 0x2F)
            invariant
                n >= 3,
                n == b.len(),
                0 <= f <= n - 2,
                forall|j: int|
                    0 <= j < f && j + 3 <= n ==> !(#[trigger] b[j] == 0x3A && b[j + 1] == 0x2F
                        && b[j + 2] == 0x2F),
            decreases n - f,
        {
            f += 1;
        }
        proof {
            lemma_find_scheme_sep(b);
        }
        if f <= n - 3 {
            proof {
                assert(spec_find_scheme_sep(b) == f);
            }
            start = f + 3;
        } else {
            proof {
                assert(spec_find_scheme_sep(b) == n);
            }
        }
    } else {
        proof {
            lemma_find_scheme_sep(b);
        }
    }
    let ghost after = if spec_find_scheme_sep(b) + 3 <= b.len() {
        b.skip(spec_find_scheme_sep(b) + 3)
    } else {
        b
    };
    proof {
        assert(after =~= b.subrange(start as int, n as int));
    }

    // for http/https, skip past the user information, if any
    let is_http = (n >= 7 && bytes[0] == 0x68 && bytes[1] == 0x74 && bytes[2] == 0x74 && bytes[3]
        == 0x70 && bytes[4] == 0x3A && bytes[5] == 0x2F && bytes[6] == 0x2F) || (n >= 8 && bytes[0]
        == 0x68 && bytes[1] == 0x74 && bytes[2] == 0x74 && bytes[3] == 0x70 && bytes[4] == 0x73
        && bytes[5] == 0x3A && bytes[6] == 0x2F && bytes[7] == 0x2F);
    proof {
        assert(is_http == spec_is_http_uri(b));
    }

    let mut start2: usize = start;
    if is_http {
        let mut at: usize = start;
        while at < n && bytes[at] != 0x40
            invariant
                start <= at <= n,
                forall|j: int| start <= j < at ==> b[j] != 0x40,
            decreases n - at,
        {
            at += 1;
        }
        proof {
            lemma_find(after, 0x40u8);
            assert(forall|j: int| 0 <= j < at - start ==> after[j] != 0x40);
            if at < n {
                assert(after[at - start] == 0x40);
            }
            assert(spec_find(after, 0x40u8) == at - start);
        }
        if at < n {
            start2 = at + 1;
        }
    }
    let ghost after2 = if spec_is_http_uri(b) && spec_find(after, 0x40u8) < after.len() {
        after.skip(spec_find(after, 0x40u8) + 1)
    } else {
        after
    };
    proof {
        assert(after2 =~= b.subrange(start2 as int, n as int));
    }

    // strip one trailing slash
    let end: usize = if start2 < n && bytes[n - 1] == 0x2F {
        n - 1
    } else {
        n
    };
    let ghost trimmed = spec_uri_filename_input(b);
    proof {
        if after2.len() > 0 && after2.last() == 0x2F {
            assert(after2.drop_last() =~= b.subrange(start2 as int, end as int));
        }
        assert(trimmed =~= b.subrange(start2 as int, end as int));
    }

    let out = encode_uri_range(&bytes, start2, end);
    proof {
        lemma_encode_uri_ascii(trimmed);
    }

    crate::digits::string_from_ascii(out)
}

/// The byte length of a string, as a spec value.
pub trait SpecBytesLen {
    /// The length of the string's UTF-8 coding, as the machine sees it.
    spec fn spec_bytes_len(&self) -> usize;
}

impl SpecBytesLen for String {
    open spec fn spec_bytes_len(&self) -> usize {
        vstd::utf8::encode_utf8(self@).len() as usize
    }
}

/// Whether a string slice holds a character.
pub fn str_contains_char(s: &str, c: char) -> (r: bool)
    ensures
        r == s@.contains(c),
{
    let n = s.unicode_len();
    let mut i: usize = 0;
    while i < n
        invariant
            0 <= i <= n,
            n == s@.len(),
            forall|j: int| 0 <= j < i ==> s@[j] != c,
        decreases n - i,
    {
        if s.get_char(i) == c {
            assert(s@.contains(c));
            return true;
        }
        i += 1;
    }
    assert(!s@.contains(c));
    false
}

/// Whether a string slice ends with a character.
pub fn str_ends_with_char(s: &str, c: char) -> (r: bool)
    ensures
        r == (s@.len() > 0 && s@.last() == c),
{
    let n = s.unicode_len();
    if n == 0 {
        false
    } else {
        s.get_char(n - 1) == c
    }
}

} // verus!
