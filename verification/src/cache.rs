//! Where the cache keeps the Markdown of each page, and what a cache read
//! means.
use vstd::prelude::*;
use crate::error::AppError;
use crate::pdf::opt_view;
use crate::text::{chars_of, push_str, starts_with, string_from_chars, to_string};

verus! {

/// `name` joined to the directory `dir` as `PathBuf::push` does on Unix: an
/// absolute `name` replaces `dir`; otherwise a `'/'` separates them unless
/// `dir` is empty or already ends with one.
pub open spec fn spec_join_path(dir: Seq<char>, name: Seq<char>) -> Seq<char> {
    if name.len() > 0 && name[0] == '/' {
        name
    } else if dir.len() == 0 || dir.last() == '/' {
        dir + name
    } else {
        dir + seq!['/'] + name
    }
}

/// `name` joined to the directory `dir` (see [`spec_join_path`]).
pub fn join_path(dir: &str, name: &str) -> (r: String)
    ensures
        r@ == spec_join_path(dir@, name@),
{
    let d = chars_of(dir);
    let n = chars_of(name);
    if n.len() > 0 && n[0] == '/' {
        return to_string(name);
    }
    let mut out = d;
    if out.len() > 0 && out[out.len() - 1] != '/' {
        out.push('/');
    }
    push_str(&mut out, name);
    proof {
        assert(out@ =~= spec_join_path(dir@, name@));
    }
    string_from_chars(out.as_slice())
}

/// The page cache: enabled or not, and the directory of its files.
pub struct Cache {
    enabled: bool,
    root: String,
}

/// What reading a cache file gave.
pub enum CacheRead {
    /// The file's text.
    Found(String),
    /// There is no such file.
    NotFound,
    /// Reading failed with this message.
    Failed(String),
}

/// The file of the page with hash `hash` in cache `c`: `<hash>.md` in the
/// cache directory, where the cache is used.
pub open spec fn cache_file(c: Cache, hash: Seq<char>) -> Option<Seq<char>> {
    if c.is_enabled() {
        Some(spec_join_path(c.root_dir(), hash + ".md"@))
    } else {
        None
    }
}

/// The files after saving `markdown` for the page with hash `hash`: its
/// cache file holds the text, where the cache is used.
pub open spec fn files_after_save(
    c: Cache,
    hash: Seq<char>,
    markdown: Seq<char>,
    files: Map<Seq<char>, Seq<char>>,
) -> Map<Seq<char>, Seq<char>> {
    match cache_file(c, hash) {
        Some(p) => files.insert(p, markdown),
        None => files,
    }
}

/// What loading the page with hash `hash` gives among `files`: the text of
/// its cache file where there is one and the cache is used.
pub open spec fn cached_text(c: Cache, hash: Seq<char>, files: Map<Seq<char>, Seq<char>>) -> Option<
    Seq<char>,
> {
    match cache_file(c, hash) {
        Some(p) => if files.contains_key(p) {
            Some(files[p])
        } else {
            None
        },
        None => None,
    }
}

impl Cache {
    /// Whether the cache is used.
    pub closed spec fn is_enabled(&self) -> bool {
        self.enabled
    }

    /// The directory of the cache files.
    pub closed spec fn root_dir(&self) -> Seq<char> {
        self.root@
    }

    /// The cache: when enabled, the `pages` directory under the platform's
    /// cache directory for the application, and the cache-directory error
    /// when the platform has none; when disabled, an unused directory under
    /// the temporary directory.
    pub fn new(enabled: bool, project_cache_dir: Option<&str>, temp_dir: &str) -> (r: Result<
        Cache,
        AppError,
    >)
        ensures
            enabled ==> match project_cache_dir {
                Some(dir) => r matches Ok(c) && c.is_enabled() && c.root_dir() == spec_join_path(
                    dir@,
                    "pages"@,
                ),
                None => r matches Err(AppError::CacheDirUnavailable),
            },
            !enabled ==> (r matches Ok(c) && !c.is_enabled() && c.root_dir() == spec_join_path(
                temp_dir@,
                "pdf-ocr-disabled-cache"@,
            )),
    {
        if enabled {
            match project_cache_dir {
                Some(dir) => Ok(Cache { enabled, root: join_path(dir, "pages") }),
                None => Err(AppError::CacheDirUnavailable),
            }
        } else {
            Ok(Cache { enabled, root: join_path(temp_dir, "pdf-ocr-disabled-cache") })
        }
    }

    /// Whether the cache is used.
    pub fn enabled(&self) -> (b: bool)
        ensures
            b == self.is_enabled(),
    {
        self.enabled
    }

    /// The directory of the cache files.
    pub fn root(&self) -> (r: String)
        ensures
            r@ == self.root_dir(),
    {
        to_string(self.root.as_str())
    }

    /// The file that holds the Markdown of the page with hash `hash`:
    /// `<hash>.md` in the cache directory.
    pub fn path_for(&self, hash: &str) -> (r: String)
        ensures
            r@ == spec_join_path(self.root_dir(), hash@ + ".md"@),
    {
        let mut name = chars_of(hash);
        push_str(&mut name, ".md");
        let n = string_from_chars(name.as_slice());
        join_path(self.root.as_str(), n.as_str())
    }

    /// The file to read for the page with hash `hash`, or none when the
    /// cache is disabled.
    pub fn load_path(&self, hash: &str) -> (r: Option<String>)
        ensures
            opt_view(r) == cache_file(*self, hash@),
            !self.is_enabled() ==> r is None,
            self.is_enabled() ==> (r matches Some(p) && p@ == spec_join_path(
                self.root_dir(),
                hash@ + ".md"@,
            )),
    {
        if self.enabled {
            Some(self.path_for(hash))
        } else {
            None
        }
    }

    /// The file to write for the page with hash `hash`, or none when the
    /// cache is disabled.
    pub fn save_path(&self, hash: &str) -> (r: Option<String>)
        ensures
            opt_view(r) == cache_file(*self, hash@),
            !self.is_enabled() ==> r is None,
            self.is_enabled() ==> (r matches Some(p) && p@ == spec_join_path(
                self.root_dir(),
                hash@ + ".md"@,
            )),
    {
        self.load_path(hash)
    }

    /// What a cache read means: the cached Markdown, a miss when the file
    /// does not exist, or an I/O error.
    pub fn read_result(read: CacheRead) -> (r: Result<Option<String>, AppError>)
        ensures
            match read {
                CacheRead::Found(text) => r == Ok::<Option<String>, AppError>(Some(text)),
                CacheRead::NotFound => r == Ok::<Option<String>, AppError>(None),
                CacheRead::Failed(m) => r == Err::<Option<String>, AppError>(AppError::Io(m)),
            },
    {
        match read {
            CacheRead::Found(text) => Ok(Some(text)),
            CacheRead::NotFound => Ok(None),
            CacheRead::Failed(m) => Err(AppError::Io(m)),
        }
    }
}

/// Pages with different hashes never share a cache file: `path_for` gives
/// different files for different hashes that do not start with `'/'`.
pub proof fn law_cache_files_distinct(root: Seq<char>, h1: Seq<char>, h2: Seq<char>)
    requires
        h1 != h2,
        !starts_with(h1, seq!['/']),
        !starts_with(h2, seq!['/']),
    ensures
        spec_join_path(root, h1 + ".md"@) != spec_join_path(root, h2 + ".md"@),
{
    let n1 = h1 + ".md"@;
    let n2 = h2 + ".md"@;
    reveal_strlit(".md");
    if n1.len() > 0 && n1[0] == '/' {
        if h1.len() > 0 {
            assert(h1.take(1) =~= seq!['/']);
        } else {
            assert(n1[0] == '.');
        }
    }
    if n2.len() > 0 && n2[0] == '/' {
        if h2.len() > 0 {
            assert(h2.take(1) =~= seq!['/']);
        } else {
            assert(n2[0] == '.');
        }
    }
    let p1 = spec_join_path(root, n1);
    let p2 = spec_join_path(root, n2);
    if p1 == p2 {
        let pre = if root.len() == 0 || root.last() == '/' {
            root
        } else {
            root + seq!['/']
        };
        assert(p1 =~= pre + n1);
        assert(p2 =~= pre + n2);
        assert(n1 =~= p1.skip(pre.len() as int));
        assert(n2 =~= p2.skip(pre.len() as int));
        assert(h1 =~= n1.take(n1.len() - 3));
        assert(h2 =~= n2.take(n2.len() - 3));
    }
}

/// A used cache gives back what was saved for a page, also after other
/// pages were saved: loading hash `hash` after saving `markdown` for it,
/// and then `other_markdown` for another hash, gives `markdown`.
pub proof fn law_cache_round_trip(
    c: Cache,
    hash: Seq<char>,
    markdown: Seq<char>,
    other: Seq<char>,
    other_markdown: Seq<char>,
    files: Map<Seq<char>, Seq<char>>,
)
    requires
        c.is_enabled(),
        hash != other,
        !starts_with(hash, seq!['/']),
        !starts_with(other, seq!['/']),
    ensures
        cached_text(c, hash, files_after_save(c, hash, markdown, files)) == Some(markdown),
        cached_text(
            c,
            hash,
            files_after_save(c, other, other_markdown, files_after_save(c, hash, markdown, files)),
        ) == Some(markdown),
{
    law_cache_files_distinct(c.root_dir(), hash, other);
}

} // verus!
