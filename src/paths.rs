//! Repository-relative paths as git reports them: file extensions, the
//! doc/code split and the built-in extension table.

use vstd::prelude::*;
use crate::foreign::{lower_of, lowercase};

verus! {

/// Index of the last occurrence of `c` in `s`, or -1.
pub open spec fn last_index_of(s: Seq<char>, c: char) -> int
    decreases s.len(),
{
    if s.len() == 0 {
        -1
    } else if s.last() == c {
        s.len() - 1
    } else {
        last_index_of(s.drop_last(), c)
    }
}

/// The final component of a slash-separated path.
pub open spec fn file_name_of(path: Seq<char>) -> Seq<char> {
    path.subrange(last_index_of(path, '/') + 1, path.len() as int)
}

/// The extension of a path: what follows the last dot of its final
/// component, where that dot is not the component's first character
/// (`.gitignore` has none) and the component is not `..`. For the relative
/// paths that git prints (no trailing slash, no `.` component) this is what
/// `std::path::Path::extension` gives.
pub open spec fn extension_of(path: Seq<char>) -> Option<Seq<char>> {
    let name = file_name_of(path);
    let d = last_index_of(name, '.');
    if d <= 0 || name == seq!['.', '.'] {
        None
    } else {
        Some(name.subrange(d + 1, name.len() as int))
    }
}

/// The doc that the built-in table assigns to a lower-cased extension.
pub open spec fn default_doc_for(ext: Seq<char>) -> Option<Seq<char>> {
    if ext == "rs"@ || ext == "py"@ {
        Some("specs/ARCHITECTURE.md"@)
    } else if ext == "ts"@ || ext == "tsx"@ || ext == "js"@ || ext == "jsx"@ {
        Some("docs/README.md"@)
    } else {
        None
    }
}

/// The doc that the built-in table assigns to a path, by its extension.
pub open spec fn default_doc_of(path: Seq<char>) -> Option<Seq<char>> {
    match extension_of(path) {
        Some(ext) => default_doc_for(lower_of(ext)),
        None => None,
    }
}

/// Whether a path's extension is one of `exts`, compared case-insensitively.
pub open spec fn is_doc_path(path: Seq<char>, exts: Seq<String>) -> bool {
    match extension_of(path) {
        Some(ext) => exists|i: int| 0 <= i < exts.len() && #[trigger] lower_of(exts[i]@) == lower_of(ext),
        None => false,
    }
}

proof fn lemma_last_index_bounds(s: Seq<char>, c: char)
    ensures
        -1 <= last_index_of(s, c) < s.len(),
        last_index_of(s, c) >= 0 ==> s[last_index_of(s, c)] == c,
    decreases s.len(),
{
    if s.len() > 0 && s.last() != c {
        lemma_last_index_bounds(s.drop_last(), c);
    }
}

/// Position of the last `c` in `s`.
fn last_index(s: &str, c: char) -> (r: Option<usize>)
    ensures
        match r {
            Some(i) => i as int == last_index_of(s@, c),
            None => last_index_of(s@, c) == -1,
        },
{
    let n = s.unicode_len();
    let mut found: Option<usize> = None;
    let mut i: usize = 0;
    while i < n
        invariant
            n == s@.len(),
            i <= n,
            match found {
                Some(k) => k as int == last_index_of(s@.subrange(0, i as int), c),
                None => last_index_of(s@.subrange(0, i as int), c) == -1,
            },
        decreases n - i,
    {
        let ch = s.get_char(i);
        assert(s@.subrange(0, i as int + 1).drop_last() == s@.subrange(0, i as int));
        if ch == c {
            found = Some(i);
        }
        i = i + 1;
    }
    assert(s@.subrange(0, n as int) == s@);
    found
}

/// The extension of `path`, as `extension_of` describes it.
pub fn file_extension(path: &str) -> (r: Option<String>)
    ensures
        match r {
            Some(e) => extension_of(path@) == Some(e@),
            None => extension_of(path@) is None,
        },
{
    proof {
        lemma_last_index_bounds(path@, '/');
    }
    let n = path.unicode_len();
    let start: usize = match last_index(path, '/') {
        Some(k) => k + 1,
        None => 0,
    };
    let name = path.substring_char(start, n);
    assert(name@ == file_name_of(path@));
    proof {
        lemma_last_index_bounds(name@, '.');
    }
    let m = name.unicode_len();
    match last_index(name, '.') {
        None => None,
        Some(d) => {
            if d == 0 {
                return None;
            }
            if m == 2 && d == 1 && name.get_char(0) == '.' {
                assert(name@ == seq!['.', '.']);
                return None;
            }
            assert(name@ != seq!['.', '.']) by {
                if name@ == seq!['.', '.'] {
                    assert(name@[0] == '.');
                }
            }
            Some(String::from_str(name.substring_char(d + 1, m)))
        },
    }
}

/// The doc that the built-in table assigns to an already lower-cased
/// extension: `rs` and `py` to the architecture spec, `ts`, `tsx`, `js`
/// and `jsx` to the README.
pub fn default_doc_for_extension(ext: &str) -> (r: Option<String>)
    ensures
        match r {
            Some(d) => default_doc_for(ext@) == Some(d@),
            None => default_doc_for(ext@) is None,
        },
{
    let e = String::from_str(ext);
    let arch = String::from_str("specs/ARCHITECTURE.md");
    let readme = String::from_str("docs/README.md");
    if e == String::from_str("rs") || e == String::from_str("py") {
        Some(arch)
    } else if e == String::from_str("ts") || e == String::from_str("tsx") || e == String::from_str(
        "js",
    ) || e == String::from_str("jsx") {
        Some(readme)
    } else {
        None
    }
}

/// The doc that the built-in table assigns to `path`, by its lower-cased
/// extension; `None` for a path without one or with an extension outside
/// the table.
pub fn get_default_doc_for_file(path: &str) -> (r: Option<String>)
    ensures
        match r {
            Some(d) => default_doc_of(path@) == Some(d@),
            None => default_doc_of(path@) is None,
        },
{
    match file_extension(path) {
        None => None,
        Some(ext) => {
            let lower = lowercase(ext.as_str());
            default_doc_for_extension(lower.as_str())
        },
    }
}

/// Whether `path` is a documentation file: its extension equals one of
/// `doc_extensions` once both are lower-cased. A path without an extension
/// is code.
pub fn is_doc_file(path: &str, doc_extensions: &Vec<String>) -> (r: bool)
    ensures
        r == is_doc_path(path@, doc_extensions@),
{
    match file_extension(path) {
        None => false,
        Some(ext) => {
            let lower = lowercase(ext.as_str());
            let mut i: usize = 0;
            while i < doc_extensions.len()
                invariant
                    i <= doc_extensions@.len(),
                    lower@ == lower_of(ext@),
                    extension_of(path@) == Some(ext@),
                    forall|j: int| 0 <= j < i ==> #[trigger] lower_of(doc_extensions@[j]@) != lower@,
                decreases doc_extensions@.len() - i,
            {
                let e = lowercase(doc_extensions[i].as_str());
                if e == lower {
                    return true;
                }
                i = i + 1;
            }
            false
        },
    }
}

/// Splits changed paths into code files and doc files, each in the order
/// given.
pub fn classify(changed: &Vec<String>, doc_extensions: &Vec<String>) -> (r: (Vec<String>, Vec<String>))
    ensures
        r.0@ == changed@.filter(|p: String| !is_doc_path(p@, doc_extensions@)),
        r.1@ == changed@.filter(|p: String| is_doc_path(p@, doc_extensions@)),
{
    let mut code: Vec<String> = Vec::new();
    let mut docs: Vec<String> = Vec::new();
    let mut i: usize = 0;
    while i < changed.len()
        invariant
            i <= changed@.len(),
            code@ == changed@.subrange(0, i as int).filter(|p: String| !is_doc_path(p@, doc_extensions@)),
            docs@ == changed@.subrange(0, i as int).filter(|p: String| is_doc_path(p@, doc_extensions@)),
        decreases changed@.len() - i,
    {
        let p = &changed[i];
        assert(changed@.subrange(0, i as int + 1).drop_last() == changed@.subrange(0, i as int));
        reveal(Seq::filter);
        if is_doc_file(p.as_str(), doc_extensions) {
            docs.push(p.clone());
        } else {
            code.push(p.clone());
        }
        i = i + 1;
    }
    assert(changed@.subrange(0, i as int) == changed@);
    (code, docs)
}

} // verus!
