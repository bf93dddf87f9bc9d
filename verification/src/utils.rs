//! Decisions about which files to collect, and statistics about collected
//! files. Paths reach these functions as the file name (the last component
//! of the path, empty where the path has none).

use vstd::prelude::*;
use vstd::string::*;

use crate::format::{digits, to_decimal};
use crate::source::SourceFile;
use crate::text::{
    chars_eq, chars_of, contains_chars, contains_seq, count_lines, line_count, lowercase, str_eq,
    to_lowercase,
};

verus! {

/// Index of the last `.` among the first `n` characters, if any.
pub open spec fn last_dot(name: Seq<char>, n: int) -> Option<int>
    decreases n,
{
    if n <= 0 {
        None
    } else if name[n - 1] == '.' {
        Some(n - 1)
    } else {
        last_dot(name, n - 1)
    }
}

/// The extension of a file name, as `std::path::Path::extension` finds it:
/// the text after the last `.`, unless the name is `..`, has no `.`, or has
/// its only `.` in front.
pub open spec fn extension_of(name: Seq<char>) -> Option<Seq<char>> {
    if name == ".."@ {
        None
    } else {
        match last_dot(name, name.len() as int) {
            Some(i) => if i > 0 {
                Some(name.subrange(i + 1, name.len() as int))
            } else {
                None
            },
            None => None,
        }
    }
}

proof fn lemma_last_dot(name: Seq<char>, n: int)
    requires
        0 <= n <= name.len(),
    ensures
        last_dot(name, n) matches Some(i) ==> 0 <= i < n && name[i] == '.',
    decreases n,
{
    if n > 0 {
        lemma_last_dot(name, n - 1);
    }
}

/// Where the extension of a file name starts, if it has one.
fn extension_start(name: &[char]) -> (r: Option<usize>)
    ensures
        r matches Some(j) ==> j <= name@.len() && extension_of(name@) == Some(
            name@.subrange(j as int, name@.len() as int),
        ),
        r is None ==> extension_of(name@) is None,
{
    let dots = chars_of("..");
    proof {
        reveal_strlit("..");
    }
    if chars_eq(name, dots.as_slice()) {
        return None;
    }
    assert(name@ != ".."@);
    let mut n = name.len();
    while n > 0
        invariant
            n <= name@.len(),
            name@ != ".."@,
            last_dot(name@, name@.len() as int) == last_dot(name@, n as int),
        decreases n,
    {
        if name[n - 1] == '.' {
            proof {
                lemma_last_dot_from(name@, n as int, name@.len() as int);
            }
            if n - 1 > 0 {
                assert(last_dot(name@, name@.len() as int) == Some(n - 1));
                return Some(n);
            } else {
                return None;
            }
        }
        n = n - 1;
    }
    None
}

/// Past a `.`, the last one is found no earlier.
proof fn lemma_last_dot_from(name: Seq<char>, n: int, m: int)
    requires
        0 < n <= m <= name.len(),
        name[n - 1] == '.',
        last_dot(name, m) == last_dot(name, n),
    ensures
        last_dot(name, m) == Some(n - 1),
{
}

/// Whether the characters of `name` from `start` on spell `text`.
fn tail_is(name: &[char], start: usize, text: &str) -> (r: bool)
    requires
        start <= name@.len(),
    ensures
        r == (name@.subrange(start as int, name@.len() as int) == text@),
{
    let t = chars_of(text);
    let name_len = name.len();
    if name_len - start != t.len() {
        return false;
    }
    let mut i: usize = 0;
    while i < t.len()
        invariant
            start <= name@.len(),
            name_len == name@.len(),
            name@.len() - start == t@.len(),
            t@ == text@,
            i <= t@.len(),
            forall|j: int| 0 <= j < i ==> name@[start + j] == t@[j],
        decreases t@.len() - i,
    {
        if name[start + i] != t[i] {
            proof {
                assert(name@.subrange(start as int, name@.len() as int)[i as int] != text@[i as int]);
            }
            return false;
        }
        i = i + 1;
    }
    proof {
        assert(name@.subrange(start as int, name@.len() as int) =~= text@);
    }
    true
}

/// Whether a file is collected: with no extensions given, every file is;
/// otherwise a file whose extension is one of them.
pub open spec fn includes_file(name: Seq<char>, extensions: Seq<&str>) -> bool {
    extensions.len() == 0 || (extension_of(name) matches Some(e) && exists|i: int|
        0 <= i < extensions.len() && #[trigger] extensions[i]@ == e)
}

/// Check if a file should be included based on extensions.
pub fn should_include_file(name: &str, extensions: &[&str]) -> (r: bool)
    ensures
        r == includes_file(name@, extensions@),
{
    if extensions.len() == 0 {
        return true;
    }
    let chars = chars_of(name);
    match extension_start(chars.as_slice()) {
        None => false,
        Some(start) => {
            let mut i: usize = 0;
            while i < extensions.len()
                invariant
                    i <= extensions@.len(),
                    start <= chars@.len(),
                    chars@ == name@,
                    extension_of(name@) == Some(chars@.subrange(start as int, chars@.len() as int)),
                    forall|j: int|
                        0 <= j < i ==> #[trigger] extensions@[j]@ != chars@.subrange(
                            start as int,
                            chars@.len() as int,
                        ),
                decreases extensions@.len() - i,
            {
                if tail_is(chars.as_slice(), start, extensions[i]) {
                    return true;
                }
                i = i + 1;
            }
            false
        },
    }
}

/// The language of a file extension.
pub open spec fn language_for(e: Option<Seq<char>>) -> Seq<char> {
    match e {
        None => "unknown"@,
        Some(e) => if e == "py"@ || e == "pyi"@ || e == "pyw"@ {
            "python"@
        } else if e == "js"@ || e == "jsx"@ {
            "javascript"@
        } else if e == "ts"@ || e == "tsx"@ {
            "typescript"@
        } else if e == "rs"@ {
            "rust"@
        } else if e == "java"@ {
            "java"@
        } else if e == "go"@ {
            "go"@
        } else if e == "c"@ {
            "c"@
        } else if e == "cpp"@ || e == "cc"@ || e == "cxx"@ {
            "cpp"@
        } else if e == "h"@ || e == "hpp"@ {
            "header"@
        } else {
            "unknown"@
        },
    }
}

/// Detect the language of a file based on its extension.
pub fn detect_language(name: &str) -> (r: String)
    ensures
        r@ == language_for(extension_of(name@)),
{
    let chars = chars_of(name);
    let start = match extension_start(chars.as_slice()) {
        None => {
            return "unknown".to_owned();
        },
        Some(start) => start,
    };
    let c = chars.as_slice();
    let language = if tail_is(c, start, "py") || tail_is(c, start, "pyi") || tail_is(c, start, "pyw") {
        "python"
    } else if tail_is(c, start, "js") || tail_is(c, start, "jsx") {
        "javascript"
    } else if tail_is(c, start, "ts") || tail_is(c, start, "tsx") {
        "typescript"
    } else if tail_is(c, start, "rs") {
        "rust"
    } else if tail_is(c, start, "java") {
        "java"
    } else if tail_is(c, start, "go") {
        "go"
    } else if tail_is(c, start, "c") {
        "c"
    } else if tail_is(c, start, "cpp") || tail_is(c, start, "cc") || tail_is(c, start, "cxx") {
        "cpp"
    } else if tail_is(c, start, "h") || tail_is(c, start, "hpp") {
        "header"
    } else {
        "unknown"
    };
    language.to_owned()
}

/// Check if a file name is hidden (starts with `.`).
pub fn is_hidden(name: &str) -> (r: bool)
    ensures
        r == (name@.len() > 0 && name@[0] == '.'),
{
    let chars = chars_of(name);
    chars.len() > 0 && chars[0] == '.'
}

/// Check if a file is a test file ("test" in its lower-cased name).
pub fn is_test_file(name: &str) -> (r: bool)
    ensures
        r == contains_seq(lowercase(name@), "test"@),
{
    let lowered = to_lowercase(name);
    let hay = chars_of(lowered.as_str());
    let needle = chars_of("test");
    contains_chars(hay.as_slice(), needle.as_slice())
}

/// The directories that collection never descends into.
pub open spec fn skipped_directories() -> Seq<Seq<char>> {
    seq![
        "node_modules"@,
        "target"@,
        "build"@,
        "dist"@,
        ".git"@,
        ".svn"@,
        ".hg"@,
        "__pycache__"@,
        ".pytest_cache"@,
        ".mypy_cache"@,
        "venv"@,
        "env"@,
        ".venv"@,
        ".env"@,
        "vendor"@,
        ".idea"@,
        ".vscode"@,
    ]
}

fn skip_dirs() -> (r: Vec<&'static str>)
    ensures
        r@.map_values(|s: &str| s@) == skipped_directories(),
{
    let r = vec![
        "node_modules",
        "target",
        "build",
        "dist",
        ".git",
        ".svn",
        ".hg",
        "__pycache__",
        ".pytest_cache",
        ".mypy_cache",
        "venv",
        "env",
        ".venv",
        ".env",
        "vendor",
        ".idea",
        ".vscode",
    ];
    proof {
        assert(r@.map_values(|s: &str| s@) =~= skipped_directories());
    }
    r
}

/// Check if a directory should be skipped.
pub fn should_skip_directory(name: &str) -> (r: bool)
    ensures
        r == skipped_directories().contains(name@),
{
    let dirs = skip_dirs();
    let ghost names = dirs@.map_values(|s: &str| s@);
    let mut i: usize = 0;
    while i < dirs.len()
        invariant
            i <= dirs@.len(),
            names == dirs@.map_values(|s: &str| s@),
            names == skipped_directories(),
            forall|j: int| 0 <= j < i ==> #[trigger] names[j] != name@,
        decreases dirs@.len() - i,
    {
        if str_eq(dirs[i], name) {
            proof {
                assert(names[i as int] == name@);
            }
            return true;
        }
        proof {
            assert(names[i as int] == dirs@[i as int]@);
        }
        i = i + 1;
    }
    false
}

/// Whether a file met during collection is read: its extension is wanted,
/// and, when test files are excluded, it is not a test file.
pub fn accepts_file(name: &str, extensions: &[&str], exclude_tests: bool) -> (r: bool)
    ensures
        r == (includes_file(name@, extensions@) && !(exclude_tests && contains_seq(
            lowercase(name@),
            "test"@,
        ))),
{
    if !should_include_file(name, extensions) {
        return false;
    }
    if exclude_tests && is_test_file(name) {
        return false;
    }
    true
}

/// Whether a directory entry is visited during collection: it is neither
/// hidden nor one of the skipped directories.
pub fn visits_entry(name: &str) -> (r: bool)
    ensures
        r == (!(name@.len() > 0 && name@[0] == '.') && !skipped_directories().contains(name@)),
{
    !is_hidden(name) && !should_skip_directory(name)
}

/// What a path met while collecting files turned out to be.
#[derive(Debug, Clone, Copy, PartialEq, Eq, Structural)]
pub enum EntryKind {
    File,
    Directory,
    /// Neither a file nor a directory (it does not exist, or is of another
    /// kind).
    Other,
}

/// What collection does with a path it meets.
#[derive(Debug, Clone, Copy, PartialEq, Eq, Structural)]
pub enum CollectAction {
    /// Read the file and collect it.
    Read,
    /// Collect the directory's entries, recursively.
    Descend,
    /// Pass over it.
    Skip,
    /// Stop: the path does not exist.
    Missing,
}

/// What collection does with a path: a path given by the caller is read if
/// it is a file that is accepted, walked if it is a directory, and missing
/// otherwise; an entry met inside a directory is passed over if it is
/// hidden or a skipped directory name, and otherwise walked if it is a
/// directory, read if it is an accepted file, and passed over if not.
pub open spec fn collect_action_spec(
    name: Seq<char>,
    kind: EntryKind,
    given: bool,
    extensions: Seq<&str>,
    exclude_tests: bool,
) -> CollectAction {
    let accepted = includes_file(name, extensions) && !(exclude_tests && contains_seq(
        lowercase(name),
        "test"@,
    ));
    if !given && ((name.len() > 0 && name[0] == '.') || skipped_directories().contains(name)) {
        CollectAction::Skip
    } else {
        match kind {
            EntryKind::Directory => CollectAction::Descend,
            EntryKind::File => if accepted {
                CollectAction::Read
            } else {
                CollectAction::Skip
            },
            EntryKind::Other => if given {
                CollectAction::Missing
            } else {
                CollectAction::Skip
            },
        }
    }
}

/// The step of file collection: what to do with a path whose file name is
/// `name` and which is of the given kind, `given` telling whether the
/// caller named it or it was met inside a directory.
pub fn collect_action(
    name: &str,
    kind: EntryKind,
    given: bool,
    extensions: &[&str],
    exclude_tests: bool,
) -> (r: CollectAction)
    ensures
        r == collect_action_spec(name@, kind, given, extensions@, exclude_tests),
{
    if !given && !visits_entry(name) {
        return CollectAction::Skip;
    }
    match kind {
        EntryKind::Directory => CollectAction::Descend,
        EntryKind::File => if accepts_file(name, extensions, exclude_tests) {
            CollectAction::Read
        } else {
            CollectAction::Skip
        },
        EntryKind::Other => if given {
            CollectAction::Missing
        } else {
            CollectAction::Skip
        },
    }
}

impl SourceFile {
    /// A copy of this file with equal fields.
    pub fn duplicate(&self) -> (r: Self)
        ensures
            r == *self,
    {
        SourceFile {
            path: self.path.clone(),
            content: self.content.clone(),
            language: self.language.clone(),
        }
    }
}

/// The files of the given language, in order.
pub open spec fn files_in_language(files: Seq<SourceFile>, language: Seq<char>) -> Seq<SourceFile>
    decreases files.len(),
{
    if files.len() == 0 {
        files
    } else {
        let rest = files_in_language(files.drop_last(), language);
        if files.last().language@ == language {
            rest.push(files.last())
        } else {
            rest
        }
    }
}

/// Filter files by language.
pub fn filter_by_language(files: Vec<SourceFile>, language: &str) -> (r: Vec<SourceFile>)
    ensures
        r@ == files_in_language(files@, language@),
{
    let mut kept: Vec<SourceFile> = Vec::new();
    let mut i: usize = 0;
    while i < files.len()
        invariant
            i <= files@.len(),
            kept@ == files_in_language(files@.take(i as int), language@),
        decreases files@.len() - i,
    {
        proof {
            assert(files@.take(i as int + 1).drop_last() =~= files@.take(i as int));
            assert(files@.take(i as int + 1).last() == files@[i as int]);
        }
        if str_eq(files[i].language.as_str(), language) {
            kept.push(files[i].duplicate());
        }
        i = i + 1;
    }
    proof {
        assert(files@.take(i as int) =~= files@);
    }
    kept
}

/// Counts per language, in order of first insertion (a map from language
/// to count).
#[derive(Debug, Clone)]
pub struct LanguageCounts {
    entries: Vec<(String, usize)>,
}

/// The entries by their contents.
pub open spec fn entry_views(entries: Seq<(String, usize)>) -> Seq<(Seq<char>, usize)> {
    entries.map_values(|e: (String, usize)| (e.0@, e.1))
}

/// Index of the first entry for a language, if any.
pub open spec fn entry_index(entries: Seq<(Seq<char>, usize)>, language: Seq<char>, n: int) -> Option<int>
    decreases n,
{
    if n <= 0 {
        None
    } else {
        match entry_index(entries, language, n - 1) {
            Some(i) => Some(i),
            None => if entries[n - 1].0 == language {
                Some(n - 1)
            } else {
                None
            },
        }
    }
}

proof fn lemma_entry_index(entries: Seq<(Seq<char>, usize)>, language: Seq<char>, n: int)
    requires
        0 <= n <= entries.len(),
    ensures
        entry_index(entries, language, n) matches Some(i) ==> 0 <= i < n && entries[i].0 == language,
        entry_index(entries, language, n) is None ==> forall|j: int|
            0 <= j < n ==> #[trigger] entries[j].0 != language,
    decreases n,
{
    if n > 0 {
        lemma_entry_index(entries, language, n - 1);
    }
}

proof fn lemma_entry_index_extends(entries: Seq<(Seq<char>, usize)>, language: Seq<char>, n: int, m: int)
    requires
        0 <= n <= m,
        entry_index(entries, language, n) is Some,
    ensures
        entry_index(entries, language, m) == entry_index(entries, language, n),
    decreases m - n,
{
    if m > n {
        lemma_entry_index_extends(entries, language, n, m - 1);
    }
}

/// The entries after setting the count of a language: its entry is
/// updated, or a new entry is appended.
pub open spec fn set_count(entries: Seq<(Seq<char>, usize)>, language: Seq<char>, count: usize) -> Seq<
    (Seq<char>, usize),
> {
    match entry_index(entries, language, entries.len() as int) {
        Some(i) => entries.update(i, (language, count)),
        None => entries.push((language, count)),
    }
}

/// The count of a language, if it has one.
pub open spec fn count_of(entries: Seq<(Seq<char>, usize)>, language: Seq<char>) -> Option<usize> {
    match entry_index(entries, language, entries.len() as int) {
        Some(i) => Some(entries[i].1),
        None => None,
    }
}

impl LanguageCounts {
    /// The language and count of every entry, in order.
    pub closed spec fn view_entries(&self) -> Seq<(Seq<char>, usize)> {
        entry_views(self.entries@)
    }

    pub fn new() -> (r: Self)
        ensures
            r.view_entries() == Seq::<(Seq<char>, usize)>::empty(),
    {
        let r = LanguageCounts { entries: Vec::new() };
        proof {
            assert(r.view_entries() =~= Seq::<(Seq<char>, usize)>::empty());
        }
        r
    }

    fn find(&self, language: &str) -> (r: Option<usize>)
        ensures
            r matches Some(i) ==> entry_index(self.view_entries(), language@, self.view_entries().len() as int)
                == Some(i as int) && i < self.view_entries().len(),
            r is None ==> entry_index(self.view_entries(), language@, self.view_entries().len() as int) is None,
    {
        let ghost v = self.view_entries();
        let mut i: usize = 0;
        while i < self.entries.len()
            invariant
                i <= self.entries@.len(),
                v == self.view_entries(),
                v.len() == self.entries@.len(),
                entry_index(v, language@, i as int) is None,
            decreases self.entries@.len() - i,
        {
            proof {
                assert(v[i as int] == (self.entries@[i as int].0@, self.entries@[i as int].1));
            }
            if str_eq(self.entries[i].0.as_str(), language) {
                proof {
                    lemma_entry_index_extends(v, language@, i as int + 1, v.len() as int);
                }
                return Some(i);
            }
            i = i + 1;
        }
        None
    }

    /// The count of a language, if it has one.
    pub fn get(&self, language: &str) -> (r: Option<usize>)
        ensures
            r == count_of(self.view_entries(), language@),
    {
        match self.find(language) {
            Some(i) => {
                proof {
                    assert(self.view_entries()[i as int].1 == self.entries@[i as int].1);
                }
                Some(self.entries[i].1)
            },
            None => None,
        }
    }

    /// Sets the count of a language, returning the count it had.
    pub fn insert(&mut self, language: String, count: usize) -> (r: Option<usize>)
        ensures
            final(self).view_entries() == set_count(old(self).view_entries(), language@, count),
            r == count_of(old(self).view_entries(), language@),
    {
        let ghost lang = language@;
        match self.find(language.as_str()) {
            Some(i) => {
                let previous = self.entries[i].1;
                proof {
                    assert(self.view_entries()[i as int].1 == previous);
                }
                let mut entry = (language, count);
                let ghost old_entries = self.entries@;
                self.entries.set_and_swap(i, &mut entry);
                proof {
                    assert(self.view_entries() =~= entry_views(old_entries).update(i as int, (lang, count)));
                }
                Some(previous)
            },
            None => {
                let ghost old_entries = self.entries@;
                self.entries.push((language, count));
                proof {
                    assert(self.view_entries() =~= entry_views(old_entries).push((lang, count)));
                }
                None
            },
        }
    }

    /// Adds one to the count of a language (which starts at zero).
    pub fn increment(&mut self, language: &String)
        requires
            count_of(old(self).view_entries(), language@) matches Some(c) ==> c < usize::MAX,
        ensures
            final(self).view_entries() == set_count(
                old(self).view_entries(),
                language@,
                (match count_of(old(self).view_entries(), language@) {
                    Some(c) => c + 1,
                    None => 1,
                }) as usize,
            ),
    {
        let current = match self.get(language.as_str()) {
            Some(c) => c,
            None => 0,
        };
        self.insert(language.clone(), current + 1);
    }

    pub fn is_empty(&self) -> (r: bool)
        ensures
            r == (self.view_entries().len() == 0),
    {
        self.entries.len() == 0
    }

    pub fn len(&self) -> (r: usize)
        ensures
            r == self.view_entries().len(),
    {
        self.entries.len()
    }
}

/// Statistics about collected files.
#[derive(Debug, Clone)]
pub struct FileStats {
    pub total_files: usize,
    pub total_bytes: usize,
    pub total_lines: usize,
    pub by_language: LanguageCounts,
}

impl Default for FileStats {
    fn default() -> (r: Self)
        ensures
            r.total_files == 0,
            r.total_bytes == 0,
            r.total_lines == 0,
            r.by_language.view_entries() == Seq::<(Seq<char>, usize)>::empty(),
    {
        FileStats { total_files: 0, total_bytes: 0, total_lines: 0, by_language: LanguageCounts::new() }
    }
}

/// Bytes of the texts of the first `n` files.
pub open spec fn bytes_total(files: Seq<SourceFile>, n: int) -> int
    decreases n,
{
    if n <= 0 {
        0
    } else {
        bytes_total(files, n - 1) + encode_utf8_len(files[n - 1])
    }
}

/// Bytes of a file's text.
pub open spec fn encode_utf8_len(f: SourceFile) -> int {
    vstd::utf8::encode_utf8(f.content@).len() as int
}

/// Lines of the texts of the first `n` files.
pub open spec fn lines_total(files: Seq<SourceFile>, n: int) -> int
    decreases n,
{
    if n <= 0 {
        0
    } else {
        lines_total(files, n - 1) + line_count(vstd::utf8::encode_utf8(files[n - 1].content@))
    }
}

/// Files per language among the first `n` files, in order of first
/// occurrence.
pub open spec fn language_tally(files: Seq<SourceFile>, n: int) -> Seq<(Seq<char>, usize)>
    decreases n,
{
    if n <= 0 {
        Seq::<(Seq<char>, usize)>::empty()
    } else {
        let t = language_tally(files, n - 1);
        let l = files[n - 1].language@;
        set_count(
            t,
            l,
            (match count_of(t, l) {
                Some(c) => c + 1,
                None => 1,
            }) as usize,
        )
    }
}

proof fn lemma_totals_monotone(files: Seq<SourceFile>, n: int)
    requires
        0 <= n <= files.len(),
    ensures
        0 <= lines_total(files, n) <= bytes_total(files, n),
        bytes_total(files, n) <= bytes_total(files, files.len() as int),
    decreases files.len() - n,
{
    if n < files.len() {
        lemma_totals_monotone(files, n + 1);
    }
    lemma_lines_le_bytes(files, n);
}

proof fn lemma_lines_le_bytes(files: Seq<SourceFile>, n: int)
    requires
        0 <= n <= files.len(),
    ensures
        0 <= lines_total(files, n) <= bytes_total(files, n),
    decreases n,
{
    if n > 0 {
        lemma_lines_le_bytes(files, n - 1);
        crate::text::lemma_line_count_bound(vstd::utf8::encode_utf8(files[n - 1].content@));
    }
}

/// Every count in the tally of the first `n` files is at most `n`.
proof fn lemma_tally_bound(files: Seq<SourceFile>, n: int)
    requires
        0 <= n <= files.len(),
    ensures
        forall|i: int|
            0 <= i < language_tally(files, n).len() ==> #[trigger] language_tally(files, n)[i].1 <= n,
    decreases n,
{
    if n > 0 {
        lemma_tally_bound(files, n - 1);
        let t = language_tally(files, n - 1);
        let l = files[n - 1].language@;
        lemma_entry_index(t, l, t.len() as int);
    }
}

/// Entries with the same languages at the first `n` positions find a
/// language at the same index.
proof fn lemma_entry_index_same_keys(
    a: Seq<(Seq<char>, usize)>,
    b: Seq<(Seq<char>, usize)>,
    language: Seq<char>,
    n: int,
)
    requires
        0 <= n <= a.len(),
        n <= b.len(),
        forall|j: int| 0 <= j < n ==> #[trigger] a[j].0 == b[j].0,
    ensures
        entry_index(a, language, n) == entry_index(b, language, n),
    decreases n,
{
    if n > 0 {
        lemma_entry_index_same_keys(a, b, language, n - 1);
    }
}

/// Setting the count of a language gives it that count and leaves the
/// counts of the other languages as they were.
proof fn lemma_set_count(
    t: Seq<(Seq<char>, usize)>,
    language: Seq<char>,
    count: usize,
    other: Seq<char>,
)
    ensures
        count_of(set_count(t, language, count), language) == Some(count),
        other != language ==> count_of(set_count(t, language, count), other) == count_of(t, other),
{
    let n = t.len() as int;
    lemma_entry_index(t, language, n);
    lemma_entry_index(t, other, n);
    match entry_index(t, language, n) {
        Some(i) => {
            let u = t.update(i, (language, count));
            lemma_entry_index_same_keys(t, u, language, n);
            lemma_entry_index_same_keys(t, u, other, n);
        },
        None => {
            let u = t.push((language, count));
            lemma_entry_index_same_keys(t, u, language, n);
            lemma_entry_index_same_keys(t, u, other, n);
            if entry_index(t, other, n) is Some {
                lemma_entry_index_extends(u, other, n, n + 1);
            }
        },
    }
}

/// The statistics count each language's files: among the first `n` files,
/// a language has as its count the number of files that
/// `filter_by_language` keeps for it, and no count when it keeps none.
pub proof fn lemma_tally_counts_files(files: Seq<SourceFile>, n: int, language: Seq<char>)
    requires
        0 <= n <= files.len(),
        files.len() <= usize::MAX,
    ensures
        count_of(language_tally(files, n), language) == (if files_in_language(
            files.take(n),
            language,
        ).len() > 0 {
            Some(files_in_language(files.take(n), language).len() as usize)
        } else {
            None
        }),
    decreases n,
{
    if n > 0 {
        lemma_tally_counts_files(files, n - 1, language);
        lemma_tally_bound(files, n - 1);
        let t = language_tally(files, n - 1);
        let l = files[n - 1].language@;
        assert(files.take(n).drop_last() =~= files.take(n - 1));
        assert(files.take(n).last() == files[n - 1]);
        lemma_entry_index(t, l, t.len() as int);
        let c = (match count_of(t, l) {
            Some(c) => c + 1,
            None => 1,
        }) as usize;
        lemma_set_count(t, l, c, language);
        lemma_files_in_language_len(files.take(n - 1), language);
    }
}

proof fn lemma_files_in_language_len(files: Seq<SourceFile>, language: Seq<char>)
    ensures
        files_in_language(files, language).len() <= files.len(),
    decreases files.len(),
{
    if files.len() > 0 {
        lemma_files_in_language_len(files.drop_last(), language);
    }
}

/// Every file kept by `filter_by_language` has the language, and every file
/// of the language is kept.
pub proof fn lemma_files_in_language_exact(files: Seq<SourceFile>, language: Seq<char>)
    ensures
        forall|i: int|
            0 <= i < files_in_language(files, language).len() ==> (#[trigger] files_in_language(
                files,
                language,
            )[i]).language@ == language && files.contains(files_in_language(files, language)[i]),
        forall|i: int|
            0 <= i < files.len() && (#[trigger] files[i]).language@ == language ==> files_in_language(
                files,
                language,
            ).contains(files[i]),
    decreases files.len(),
{
    if files.len() > 0 {
        let p = files.drop_last();
        lemma_files_in_language_exact(p, language);
        let r = files_in_language(p, language);
        assert forall|i: int| 0 <= i < files_in_language(files, language).len() implies (#[trigger] files_in_language(
            files,
            language,
        )[i]).language@ == language && files.contains(files_in_language(files, language)[i]) by {
            if i < r.len() {
                assert(files_in_language(files, language)[i] == r[i]);
                let k = choose|k: int| 0 <= k < p.len() && p[k] == r[i];
                assert(files[k] == p[k]);
            } else {
                assert(files[files.len() - 1] == files.last());
            }
        }
        assert forall|i: int| 0 <= i < files.len() && (#[trigger] files[i]).language@ == language implies files_in_language(
            files,
            language,
        ).contains(files[i]) by {
            if i < files.len() - 1 {
                assert(p[i] == files[i]);
                let k = choose|k: int| 0 <= k < r.len() && r[k] == p[i];
                assert(files_in_language(files, language)[k] == r[k]);
            } else {
                let f = files_in_language(files, language);
                assert(f[f.len() - 1] == files[i]);
            }
        }
    }
}

/// Get statistics about collected files: how many, their bytes and lines,
/// and how many per language.
pub fn file_statistics(files: &[SourceFile]) -> (r: FileStats)
    requires
        bytes_total(files@, files@.len() as int) <= usize::MAX,
    ensures
        r.total_files == files@.len(),
        r.total_bytes == bytes_total(files@, files@.len() as int),
        r.total_lines == lines_total(files@, files@.len() as int),
        r.by_language.view_entries() == language_tally(files@, files@.len() as int),
{
    let mut stats = FileStats::default();
    stats.total_files = files.len();
    let mut i: usize = 0;
    while i < files.len()
        invariant
            i <= files@.len(),
            bytes_total(files@, files@.len() as int) <= usize::MAX,
            stats.total_files == files@.len(),
            stats.total_bytes == bytes_total(files@, i as int),
            stats.total_lines == lines_total(files@, i as int),
            stats.by_language.view_entries() == language_tally(files@, i as int),
        decreases files@.len() - i,
    {
        let file = &files[i];
        proof {
            lemma_totals_monotone(files@, i as int + 1);
            lemma_tally_bound(files@, i as int);
            let t = language_tally(files@, i as int);
            lemma_entry_index(t, file.language@, t.len() as int);
        }
        let content = file.content.as_str();
        stats.total_bytes = stats.total_bytes + content.len();
        stats.total_lines = stats.total_lines + count_lines(content);
        stats.by_language.increment(&file.language);
        i = i + 1;
    }
    stats
}

/// The parts joined by a comma and a space.
pub open spec fn join_comma(parts: Seq<Seq<char>>) -> Seq<char>
    decreases parts.len(),
{
    if parts.len() == 0 {
        Seq::<char>::empty()
    } else if parts.len() == 1 {
        parts[0]
    } else {
        join_comma(parts.drop_last()) + ", "@ + parts.last()
    }
}

fn join_strings(parts: &Vec<String>) -> (r: String)
    ensures
        r@ == join_comma(parts@.map_values(|p: String| p@)),
{
    let ghost views = parts@.map_values(|p: String| p@);
    let mut r = String::new();
    let mut i: usize = 0;
    while i < parts.len()
        invariant
            i <= parts@.len(),
            views == parts@.map_values(|p: String| p@),
            r@ == join_comma(views.take(i as int)),
        decreases parts@.len() - i,
    {
        proof {
            assert(views.take(i as int + 1).drop_last() =~= views.take(i as int));
            assert(views.take(i as int + 1).last() == parts@[i as int]@);
        }
        if i > 0 {
            r.append(", ");
        } else {
            proof {
                assert(r@ =~= Seq::<char>::empty());
            }
        }
        r.append(parts[i].as_str());
        proof {
            if i == 0 {
                assert(r@ =~= parts@[0]@);
            }
        }
        i = i + 1;
    }
    proof {
        assert(views.take(i as int) =~= views);
    }
    r
}

/// `x` inserted into `s` after every entry whose count is at least its
/// count.
pub open spec fn insert_by_count(s: Seq<(Seq<char>, usize)>, x: (Seq<char>, usize)) -> Seq<
    (Seq<char>, usize),
>
    decreases s.len(),
{
    if s.len() == 0 || !(s.last().1 < x.1) {
        s.push(x)
    } else {
        insert_by_count(s.drop_last(), x).push(s.last())
    }
}

/// The entries sorted by count, largest first; entries with equal counts
/// keep their order.
pub open spec fn sort_by_count(s: Seq<(Seq<char>, usize)>) -> Seq<(Seq<char>, usize)>
    decreases s.len(),
{
    if s.len() == 0 {
        s
    } else {
        insert_by_count(sort_by_count(s.drop_last()), s.last())
    }
}

proof fn lemma_insert_by_count_at(s: Seq<(Seq<char>, usize)>, x: (Seq<char>, usize), p: int)
    requires
        0 <= p <= s.len(),
        p == 0 || !(s[p - 1].1 < x.1),
        forall|q: int| p <= q < s.len() ==> #[trigger] s[q].1 < x.1,
    ensures
        insert_by_count(s, x) == s.insert(p, x),
    decreases s.len(),
{
    if s.len() == 0 {
        assert(s.insert(p, x) =~= s.push(x));
    } else if !(s.last().1 < x.1) {
        if p < s.len() {
            assert(s[s.len() - 1].1 < x.1);
        }
        assert(s.insert(p, x) =~= s.push(x));
    } else {
        let d = s.drop_last();
        assert forall|q: int| p <= q < d.len() implies #[trigger] d[q].1 < x.1 by {
            assert(d[q] == s[q]);
        }
        if p > 0 {
            assert(d[p - 1] == s[p - 1]);
        }
        lemma_insert_by_count_at(d, x, p);
        assert(d.insert(p, x).push(s.last()) =~= s.insert(p, x));
    }
}

/// How a language is listed: its name, a colon, and its count.
pub open spec fn entry_text(e: (Seq<char>, usize)) -> Seq<char> {
    e.0 + ": "@ + digits(e.1 as nat, 10)
}

/// The summary line of the statistics: files, lines and bytes, then the
/// languages by count (largest first), when there are any.
pub open spec fn summary_text(
    total_files: usize,
    total_lines: usize,
    total_bytes: usize,
    entries: Seq<(Seq<char>, usize)>,
) -> Seq<char> {
    let base = seq![
        digits(total_files as nat, 10) + " files"@,
        digits(total_lines as nat, 10) + " lines"@,
        digits(total_bytes as nat, 10) + " bytes"@,
    ];
    if entries.len() == 0 {
        join_comma(base)
    } else {
        join_comma(
            base.push(
                "Languages: "@ + join_comma(
                    sort_by_count(entries).map_values(|e: (Seq<char>, usize)| entry_text(e)),
                ),
            ),
        )
    }
}

impl FileStats {
    /// A one-line summary: files, lines, bytes and languages.
    pub fn summary(&self) -> (r: String)
        ensures
            r@ == summary_text(
                self.total_files,
                self.total_lines,
                self.total_bytes,
                self.by_language.view_entries(),
            ),
    {
        let mut parts: Vec<String> = Vec::new();
        let mut files_part = to_decimal(self.total_files);
        files_part.append(" files");
        parts.push(files_part);
        let mut lines_part = to_decimal(self.total_lines);
        lines_part.append(" lines");
        parts.push(lines_part);
        let mut bytes_part = to_decimal(self.total_bytes);
        bytes_part.append(" bytes");
        parts.push(bytes_part);
        let ghost base = parts@.map_values(|p: String| p@);
        proof {
            assert(base =~= seq![
                digits(self.total_files as nat, 10) + " files"@,
                digits(self.total_lines as nat, 10) + " lines"@,
                digits(self.total_bytes as nat, 10) + " bytes"@,
            ]);
        }
        if !self.by_language.is_empty() {
            let entries = &self.by_language.entries;
            let ghost ev = self.by_language.view_entries();
            // Sort by count, largest first (stable).
            let mut sorted: Vec<(String, usize)> = Vec::new();
            let mut i: usize = 0;
            while i < entries.len()
                invariant
                    i <= entries@.len(),
                    ev == entry_views(entries@),
                    entry_views(sorted@) == sort_by_count(ev.take(i as int)),
                decreases entries@.len() - i,
            {
                let x = (entries[i].0.clone(), entries[i].1);
                let ghost xv = (x.0@, x.1);
                proof {
                    assert(ev[i as int] == xv);
                }
                let mut p = sorted.len();
                while p > 0 && sorted[p - 1].1 < x.1
                    invariant
                        p <= sorted@.len(),
                        forall|q: int| p <= q < sorted@.len() ==> #[trigger] sorted@[q].1 < x.1,
                    decreases p,
                {
                    p = p - 1;
                }
                proof {
                    let sv = entry_views(sorted@);
                    assert forall|q: int| p <= q < sv.len() implies #[trigger] sv[q].1 < xv.1 by {
                        assert(sv[q].1 == sorted@[q].1);
                    }
                    if p > 0 {
                        assert(sv[p - 1].1 == sorted@[p - 1].1);
                    }
                    lemma_insert_by_count_at(sv, xv, p as int);
                    let t = ev.take(i as int + 1);
                    assert(t.drop_last() =~= ev.take(i as int));
                    assert(t.last() == xv);
                }
                let ghost before = sorted@;
                sorted.insert(p, x);
                proof {
                    assert(entry_views(sorted@) =~= entry_views(before).insert(p as int, xv));
                }
                i = i + 1;
            }
            proof {
                assert(ev.take(i as int) =~= ev);
            }
            let mut listed: Vec<String> = Vec::new();
            let mut k: usize = 0;
            while k < sorted.len()
                invariant
                    k <= sorted@.len(),
                    listed@.len() == k,
                    forall|j: int|
                        #![trigger listed@[j]]
                        0 <= j < k ==> listed@[j]@ == entry_text(entry_views(sorted@)[j]),
                decreases sorted@.len() - k,
            {
                let mut text = sorted[k].0.clone();
                text.append(": ");
                let count = to_decimal(sorted[k].1);
                text.append(count.as_str());
                listed.push(text);
                k = k + 1;
            }
            let languages = join_strings(&listed);
            proof {
                assert(listed@.map_values(|p: String| p@) =~= sort_by_count(ev).map_values(
                    |e: (Seq<char>, usize)| entry_text(e),
                ));
            }
            let mut last_part = "Languages: ".to_owned();
            last_part.append(languages.as_str());
            parts.push(last_part);
            proof {
                assert(parts@.map_values(|p: String| p@) =~= base.push(
                    "Languages: "@ + join_comma(
                        sort_by_count(ev).map_values(|e: (Seq<char>, usize)| entry_text(e)),
                    ),
                ));
            }
        }
        join_strings(&parts)
    }
}

} // verus!


