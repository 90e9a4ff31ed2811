//! The detection engine: which docs a set of changed code files should have
//! updated, by three rules of fixed priority, reconciled against the docs
//! that the same commit did touch.

use vstd::prelude::*;
use crate::foreign::{glob_match_of, matches_glob_pattern, regex_match_of, regex_matches};
use crate::paths::{default_doc_of, get_default_doc_for_file};

verus! {

/// The rule recorded as the primary cause of a debt, highest priority first.
#[derive(Clone, Copy, Debug, PartialEq, Eq, Structural)]
pub enum DetectionRule {
    /// An author-declared mapping from a code glob to a doc.
    Config,
    /// A regular expression found in a code file's content.
    Reference,
    /// The built-in table of defaults by file extension.
    Pattern,
}

/// The name under which a rule is stored and shown.
pub open spec fn rule_name(rule: DetectionRule) -> Seq<char> {
    match rule {
        DetectionRule::Config => "config"@,
        DetectionRule::Reference => "reference"@,
        DetectionRule::Pattern => "pattern"@,
    }
}

impl DetectionRule {
    /// The rule's stored name: `config`, `reference` or `pattern`.
    pub fn as_str(&self) -> (r: &'static str)
        ensures
            r@ == rule_name(*self),
    {
        match self {
            DetectionRule::Config => "config",
            DetectionRule::Reference => "reference",
            DetectionRule::Pattern => "pattern",
        }
    }

    /// The rule stored under `name`, if any.
    pub fn from_name(name: &str) -> (r: Option<DetectionRule>)
        ensures
            forall|rule: DetectionRule| r == Some(rule) <==> rule_name(rule) == name@,
    {
        proof {
            reveal_strlit("config");
            reveal_strlit("reference");
            reveal_strlit("pattern");
            assert("config"@.len() == 6 && "reference"@.len() == 9 && "pattern"@.len() == 7);
            assert("config"@ != "reference"@ && "config"@ != "pattern"@ && "reference"@ != "pattern"@);
        }
        let n = String::from_str(name);
        if n == String::from_str("config") {
            Some(DetectionRule::Config)
        } else if n == String::from_str("reference") {
            Some(DetectionRule::Reference)
        } else if n == String::from_str("pattern") {
            Some(DetectionRule::Pattern)
        } else {
            None
        }
    }
}

/// A configured mapping: code files matching the glob `code` require `doc`.
#[derive(Clone, Debug)]
pub struct DocMapping {
    pub code: String,
    pub doc: String,
}

/// A configured reference pattern: code whose content matches the regular
/// expression `pattern` requires `doc`.
#[derive(Clone, Debug)]
pub struct ReferencePattern {
    pub pattern: String,
    pub doc: String,
}

/// The configured rules of a project.
#[derive(Clone, Debug)]
pub struct DocRules {
    pub mappings: Vec<DocMapping>,
    pub reference_patterns: Vec<ReferencePattern>,
}

/// A changed code file with its content, `None` where it could not be read.
#[derive(Clone, Debug)]
pub struct CodeFile {
    pub path: String,
    pub content: Option<String>,
}

/// Outstanding debt: the docs still expected and the primary rule.
#[derive(Clone, Debug)]
pub struct Detection {
    pub expected_docs: Vec<String>,
    pub rule: DetectionRule,
}

/// Whether some string of `v` has the view `d`.
pub open spec fn has_doc(v: Seq<String>, d: Seq<char>) -> bool {
    exists|k: int| 0 <= k < v.len() && #[trigger] v[k]@ == d
}

/// No two strings of `v` have the same view.
pub open spec fn distinct_docs(v: Seq<String>) -> bool {
    forall|a: int, b: int| 0 <= a < b < v.len() ==> #[trigger] v[a]@ != #[trigger] v[b]@
}

/// Some code file matches the mapping's glob.
pub open spec fn mapping_applies(files: Seq<CodeFile>, m: DocMapping) -> bool {
    exists|i: int| 0 <= i < files.len() && glob_match_of(m.code@, #[trigger] files[i].path@)
}

/// The content of a file, where it was read, matches `pattern`.
pub open spec fn content_matches(f: CodeFile, pattern: Seq<char>) -> bool {
    match f.content {
        Some(t) => regex_match_of(pattern, t@),
        None => false,
    }
}

/// Some readable code file's content matches the reference pattern.
pub open spec fn pattern_applies(files: Seq<CodeFile>, p: ReferencePattern) -> bool {
    exists|i: int| 0 <= i < files.len() && content_matches(#[trigger] files[i], p.pattern@)
}

/// Rule `config` fires: some mapping applies.
pub open spec fn config_fires(files: Seq<CodeFile>, rules: DocRules) -> bool {
    exists|j: int| 0 <= j < rules.mappings@.len() && #[trigger] mapping_applies(files, rules.mappings@[j])
}

/// Rule `reference` fires: some reference pattern applies.
pub open spec fn reference_fires(files: Seq<CodeFile>, rules: DocRules) -> bool {
    exists|j: int|
        0 <= j < rules.reference_patterns@.len() && #[trigger] pattern_applies(files, rules.reference_patterns@[j])
}

/// Rule `pattern` fires: the built-in table knows some code file.
pub open spec fn pattern_fires(files: Seq<CodeFile>) -> bool {
    exists|i: int| 0 <= i < files.len() && (#[trigger] default_doc_of(files[i].path@)) is Some
}

/// `d` is required by some applying mapping.
pub open spec fn mapping_doc(files: Seq<CodeFile>, rules: DocRules, d: Seq<char>) -> bool {
    exists|j: int|
        0 <= j < rules.mappings@.len() && #[trigger] mapping_applies(files, rules.mappings@[j])
            && rules.mappings@[j].doc@ == d
}

/// `d` is required by some applying reference pattern.
pub open spec fn reference_doc(files: Seq<CodeFile>, rules: DocRules, d: Seq<char>) -> bool {
    exists|j: int|
        0 <= j < rules.reference_patterns@.len() && #[trigger] pattern_applies(
            files,
            rules.reference_patterns@[j],
        ) && rules.reference_patterns@[j].doc@ == d
}

/// `d` is the built-in default of some code file.
pub open spec fn default_doc(files: Seq<CodeFile>, d: Seq<char>) -> bool {
    exists|i: int| 0 <= i < files.len() && #[trigger] default_doc_of(files[i].path@) == Some(d)
}

/// `d` is required by one of the three rules.
pub open spec fn candidate_doc(files: Seq<CodeFile>, rules: DocRules, d: Seq<char>) -> bool {
    mapping_doc(files, rules, d) || reference_doc(files, rules, d) || default_doc(files, d)
}

/// `d` is required and the commit did not touch it.
pub open spec fn expected_doc(
    files: Seq<CodeFile>,
    doc_files: Seq<String>,
    rules: DocRules,
    d: Seq<char>,
) -> bool {
    candidate_doc(files, rules, d) && !has_doc(doc_files, d)
}

/// The primary rule: `config` if it fired, else `reference` if it fired,
/// else `pattern`.
pub open spec fn primary_rule(files: Seq<CodeFile>, rules: DocRules) -> DetectionRule {
    if config_fires(files, rules) {
        DetectionRule::Config
    } else if reference_fires(files, rules) {
        DetectionRule::Reference
    } else {
        DetectionRule::Pattern
    }
}

/// Some doc is still expected.
pub open spec fn has_debt(files: Seq<CodeFile>, doc_files: Seq<String>, rules: DocRules) -> bool {
    exists|d: Seq<char>| #[trigger] expected_doc(files, doc_files, rules, d)
}

proof fn lemma_has_doc_push(v: Seq<String>, s: String, d: Seq<char>)
    ensures
        has_doc(v.push(s), d) <==> (has_doc(v, d) || s@ == d),
{
    let w = v.push(s);
    if has_doc(v, d) {
        let k = choose|k: int| 0 <= k < v.len() && #[trigger] v[k]@ == d;
        assert(w[k] == v[k]);
    }
    if s@ == d {
        assert(w[v.len() as int] == s);
    }
    if has_doc(w, d) {
        let k = choose|k: int| 0 <= k < w.len() && #[trigger] w[k]@ == d;
        if k < v.len() {
            assert(w[k] == v[k]);
        }
    }
}

/// Whether some string of `v` equals `s`.
fn contains_doc(v: &Vec<String>, s: &String) -> (r: bool)
    ensures
        r == has_doc(v@, s@),
{
    let mut k: usize = 0;
    while k < v.len()
        invariant
            k <= v@.len(),
            forall|j: int| 0 <= j < k ==> #[trigger] v@[j]@ != s@,
        decreases v@.len() - k,
    {
        if v[k] == *s {
            return true;
        }
        k = k + 1;
    }
    false
}

/// Whether some code file matches the mapping's glob.
fn any_file_matches_glob(files: &Vec<CodeFile>, m: &DocMapping) -> (r: bool)
    ensures
        r == mapping_applies(files@, *m),
{
    let mut i: usize = 0;
    while i < files.len()
        invariant
            i <= files@.len(),
            forall|k: int| 0 <= k < i ==> !glob_match_of(m.code@, #[trigger] files@[k].path@),
        decreases files@.len() - i,
    {
        if matches_glob_pattern(files[i].path.as_str(), m.code.as_str()) {
            return true;
        }
        i = i + 1;
    }
    false
}

/// Whether some readable code file's content matches the pattern.
fn any_content_matches(files: &Vec<CodeFile>, p: &ReferencePattern) -> (r: bool)
    ensures
        r == pattern_applies(files@, *p),
{
    let mut i: usize = 0;
    while i < files.len()
        invariant
            i <= files@.len(),
            forall|k: int| 0 <= k < i ==> !content_matches(#[trigger] files@[k], p.pattern@),
        decreases files@.len() - i,
    {
        match &files[i].content {
            Some(t) => {
                if regex_matches(p.pattern.as_str(), t.as_str()) {
                    return true;
                }
            },
            None => {},
        }
        i = i + 1;
    }
    false
}


spec fn has_doc_upto(v: Seq<String>, n: int, d: Seq<char>) -> bool {
    exists|k: int| 0 <= k < n && #[trigger] v[k]@ == d
}

spec fn mapping_doc_upto(files: Seq<CodeFile>, maps: Seq<DocMapping>, n: int, d: Seq<char>) -> bool {
    exists|j: int| 0 <= j < n && #[trigger] mapping_applies(files, maps[j]) && maps[j].doc@ == d
}

spec fn config_fires_upto(files: Seq<CodeFile>, maps: Seq<DocMapping>, n: int) -> bool {
    exists|j: int| 0 <= j < n && #[trigger] mapping_applies(files, maps[j])
}

spec fn reference_doc_upto(
    files: Seq<CodeFile>,
    pats: Seq<ReferencePattern>,
    n: int,
    d: Seq<char>,
) -> bool {
    exists|j: int| 0 <= j < n && #[trigger] pattern_applies(files, pats[j]) && pats[j].doc@ == d
}

spec fn reference_fires_upto(files: Seq<CodeFile>, pats: Seq<ReferencePattern>, n: int) -> bool {
    exists|j: int| 0 <= j < n && #[trigger] pattern_applies(files, pats[j])
}

spec fn default_doc_upto(files: Seq<CodeFile>, n: int, d: Seq<char>) -> bool {
    exists|i: int| 0 <= i < n && #[trigger] default_doc_of(files[i].path@) == Some(d)
}

spec fn pattern_fires_upto(files: Seq<CodeFile>, n: int) -> bool {
    exists|i: int| 0 <= i < n && (#[trigger] default_doc_of(files[i].path@)) is Some
}

/// Appends the doc of every mapping that some code file matches; returns
/// whether any did.
fn collect_mapping_docs(files: &Vec<CodeFile>, rules: &DocRules, out: &mut Vec<String>) -> (fired: bool)
    ensures
        fired == config_fires(files@, *rules),
        forall|d: Seq<char>|
            #[trigger] has_doc(final(out)@, d) <==> (has_doc(old(out)@, d) || mapping_doc(files@, *rules, d)),
{
    let ghost start = out@;
    let ghost maps = rules.mappings@;
    let mut fired = false;
    let mut j: usize = 0;
    while j < rules.mappings.len()
        invariant
            maps == rules.mappings@,
            j <= maps.len(),
            fired == config_fires_upto(files@, maps, j as int),
            forall|d: Seq<char>|
                #[trigger] has_doc(out@, d) <==> (has_doc(start, d) || mapping_doc_upto(files@, maps, j as int, d)),
        decreases maps.len() - j,
    {
        let m = &rules.mappings[j];
        let applies = any_file_matches_glob(files, m);
        let ghost before = out@;
        if applies {
            out.push(m.doc.clone());
            fired = true;
        }
        proof {
            assert forall|d: Seq<char>|
                #[trigger] has_doc(out@, d) <==> (has_doc(start, d) || mapping_doc_upto(files@, maps, j + 1, d)) by {
                if applies {
                    lemma_has_doc_push(before, m.doc, d);
                }
                if mapping_doc_upto(files@, maps, j + 1, d) {
                    let w = choose|w: int| 0 <= w < j + 1 && #[trigger] mapping_applies(files@, maps[w]) && maps[w].doc@ == d;
                    if w < j {
                        assert(mapping_doc_upto(files@, maps, j as int, d));
                    }
                }
                if mapping_doc_upto(files@, maps, j as int, d) {
                    let w = choose|w: int| 0 <= w < j && #[trigger] mapping_applies(files@, maps[w]) && maps[w].doc@ == d;
                    assert(mapping_doc_upto(files@, maps, j + 1, d));
                }
            }
            if config_fires_upto(files@, maps, j + 1) {
                let w = choose|w: int| 0 <= w < j + 1 && #[trigger] mapping_applies(files@, maps[w]);
                if w < j {
                    assert(config_fires_upto(files@, maps, j as int));
                }
            }
            if config_fires_upto(files@, maps, j as int) {
                let w = choose|w: int| 0 <= w < j && #[trigger] mapping_applies(files@, maps[w]);
                assert(config_fires_upto(files@, maps, j + 1));
            }
            if applies {
                assert(mapping_applies(files@, maps[j as int]));
            }
        }
        j = j + 1;
    }
    fired
}

/// Appends the doc of every reference pattern that some readable code
/// file's content matches; returns whether any did.
fn collect_reference_docs(files: &Vec<CodeFile>, rules: &DocRules, out: &mut Vec<String>) -> (fired: bool)
    ensures
        fired == reference_fires(files@, *rules),
        forall|d: Seq<char>|
            #[trigger] has_doc(final(out)@, d) <==> (has_doc(old(out)@, d) || reference_doc(files@, *rules, d)),
{
    let ghost start = out@;
    let ghost pats = rules.reference_patterns@;
    let mut fired = false;
    let mut j: usize = 0;
    while j < rules.reference_patterns.len()
        invariant
            pats == rules.reference_patterns@,
            j <= pats.len(),
            fired == reference_fires_upto(files@, pats, j as int),
            forall|d: Seq<char>|
                #[trigger] has_doc(out@, d) <==> (has_doc(start, d) || reference_doc_upto(files@, pats, j as int, d)),
        decreases pats.len() - j,
    {
        let p = &rules.reference_patterns[j];
        let applies = any_content_matches(files, p);
        let ghost before = out@;
        if applies {
            out.push(p.doc.clone());
            fired = true;
        }
        proof {
            assert forall|d: Seq<char>|
                #[trigger] has_doc(out@, d) <==> (has_doc(start, d) || reference_doc_upto(files@, pats, j + 1, d)) by {
                if applies {
                    lemma_has_doc_push(before, p.doc, d);
                }
                if reference_doc_upto(files@, pats, j + 1, d) {
                    let w = choose|w: int| 0 <= w < j + 1 && #[trigger] pattern_applies(files@, pats[w]) && pats[w].doc@ == d;
                    if w < j {
                        assert(reference_doc_upto(files@, pats, j as int, d));
                    }
                }
                if reference_doc_upto(files@, pats, j as int, d) {
                    let w = choose|w: int| 0 <= w < j && #[trigger] pattern_applies(files@, pats[w]) && pats[w].doc@ == d;
                    assert(reference_doc_upto(files@, pats, j + 1, d));
                }
            }
            if reference_fires_upto(files@, pats, j + 1) {
                let w = choose|w: int| 0 <= w < j + 1 && #[trigger] pattern_applies(files@, pats[w]);
                if w < j {
                    assert(reference_fires_upto(files@, pats, j as int));
                }
            }
            if reference_fires_upto(files@, pats, j as int) {
                let w = choose|w: int| 0 <= w < j && #[trigger] pattern_applies(files@, pats[w]);
                assert(reference_fires_upto(files@, pats, j + 1));
            }
            if applies {
                assert(pattern_applies(files@, pats[j as int]));
            }
        }
        j = j + 1;
    }
    fired
}

/// Appends the built-in default doc of every code file that has one;
/// returns whether any had.
fn collect_default_docs(files: &Vec<CodeFile>, out: &mut Vec<String>) -> (fired: bool)
    ensures
        fired == pattern_fires(files@),
        forall|d: Seq<char>|
            #[trigger] has_doc(final(out)@, d) <==> (has_doc(old(out)@, d) || default_doc(files@, d)),
{
    let ghost start = out@;
    let mut fired = false;
    let mut i: usize = 0;
    while i < files.len()
        invariant
            i <= files@.len(),
            fired == pattern_fires_upto(files@, i as int),
            forall|d: Seq<char>|
                #[trigger] has_doc(out@, d) <==> (has_doc(start, d) || default_doc_upto(files@, i as int, d)),
        decreases files@.len() - i,
    {
        let found = get_default_doc_for_file(files[i].path.as_str());
        let ghost before = out@;
        let ghost found_view: Option<Seq<char>> = if found is Some {
            Some(found->0@)
        } else {
            None
        };
        assert(default_doc_of(files@[i as int].path@) == found_view);
        match found {
            Some(doc) => {
                proof {
                    assert forall|d: Seq<char>|
                        #[trigger] has_doc(before.push(doc), d) <==> (has_doc(before, d) || doc@ == d) by {
                        lemma_has_doc_push(before, doc, d);
                    }
                }
                out.push(doc);
                fired = true;
            },
            None => {},
        }
        proof {
            assert forall|d: Seq<char>|
                #[trigger] has_doc(out@, d) <==> (has_doc(start, d) || default_doc_upto(files@, i + 1, d)) by {
                if default_doc_upto(files@, i + 1, d) {
                    let w = choose|w: int| 0 <= w < i + 1 && #[trigger] default_doc_of(files@[w].path@) == Some(d);
                    if w < i {
                        assert(default_doc_upto(files@, i as int, d));
                    }
                }
                if default_doc_upto(files@, i as int, d) {
                    let w = choose|w: int| 0 <= w < i && #[trigger] default_doc_of(files@[w].path@) == Some(d);
                    assert(default_doc_upto(files@, i + 1, d));
                }
                if found_view == Some(d) {
                    assert(default_doc_upto(files@, i + 1, d));
                }
            }
            if pattern_fires_upto(files@, i + 1) {
                let w = choose|w: int| 0 <= w < i + 1 && (#[trigger] default_doc_of(files@[w].path@)) is Some;
                if w < i {
                    assert(pattern_fires_upto(files@, i as int));
                }
            }
            if pattern_fires_upto(files@, i as int) {
                let w = choose|w: int| 0 <= w < i && (#[trigger] default_doc_of(files@[w].path@)) is Some;
                assert(pattern_fires_upto(files@, i + 1));
            }
        }
        i = i + 1;
    }
    fired
}

/// The docs of `cands`, without repeats, leaving out those of `touched`.
fn reconcile(cands: &Vec<String>, touched: &Vec<String>) -> (r: Vec<String>)
    ensures
        distinct_docs(r@),
        forall|d: Seq<char>| #[trigger] has_doc(r@, d) <==> (has_doc(cands@, d) && !has_doc(touched@, d)),
{
    let mut out: Vec<String> = Vec::new();
    let mut k: usize = 0;
    while k < cands.len()
        invariant
            k <= cands@.len(),
            distinct_docs(out@),
            forall|d: Seq<char>|
                #[trigger] has_doc(out@, d) <==> (has_doc_upto(cands@, k as int, d) && !has_doc(touched@, d)),
        decreases cands@.len() - k,
    {
        let c = &cands[k];
        let skip = contains_doc(touched, c) || contains_doc(&out, c);
        let ghost before = out@;
        if !skip {
            out.push(c.clone());
        }
        proof {
            assert forall|d: Seq<char>|
                #[trigger] has_doc(out@, d) <==> (has_doc_upto(cands@, k + 1, d) && !has_doc(touched@, d)) by {
                if !skip {
                    lemma_has_doc_push(before, *c, d);
                }
                if has_doc_upto(cands@, k + 1, d) {
                    let w = choose|w: int| 0 <= w < k + 1 && #[trigger] cands@[w]@ == d;
                    if w < k {
                        assert(has_doc_upto(cands@, k as int, d));
                    }
                }
                if has_doc_upto(cands@, k as int, d) {
                    let w = choose|w: int| 0 <= w < k && #[trigger] cands@[w]@ == d;
                    assert(has_doc_upto(cands@, k + 1, d));
                }
                if c@ == d {
                    assert(has_doc_upto(cands@, k + 1, d));
                }
            }
            if !skip {
                assert forall|a: int, b: int| 0 <= a < b < out@.len() implies #[trigger] out@[a]@ != #[trigger] out@[b]@ by {
                    if b == before.len() {
                        assert(before[a]@ != c@);
                    } else {
                        assert(before[a] == out@[a] && before[b] == out@[b]);
                    }
                }
            }
        }
        k = k + 1;
    }
    out
}

/// Runs the three rules over the changed code files and drops the docs that
/// the commit touched. `None` when no doc remains expected; otherwise the
/// expected docs, each once, and the primary rule by fixed priority among
/// the rules that fired.
pub fn detect(code_files: &Vec<CodeFile>, doc_files: &Vec<String>, rules: &DocRules) -> (r: Option<
    Detection,
>)
    ensures
        r is None <==> !has_debt(code_files@, doc_files@, *rules),
        r matches Some(det) ==> {
            &&& det.rule == primary_rule(code_files@, *rules)
            &&& distinct_docs(det.expected_docs@)
            &&& forall|d: Seq<char>|
                #[trigger] has_doc(det.expected_docs@, d) <==> expected_doc(code_files@, doc_files@, *rules, d)
        },
{
    let mut cands: Vec<String> = Vec::new();
    let config = collect_mapping_docs(code_files, rules, &mut cands);
    let reference = collect_reference_docs(code_files, rules, &mut cands);
    let pattern = collect_default_docs(code_files, &mut cands);
    let expected = reconcile(&cands, doc_files);
    assert(forall|d: Seq<char>|
        #[trigger] has_doc(cands@, d) <==> candidate_doc(code_files@, *rules, d));
    if expected.len() == 0 {
        assert forall|d: Seq<char>| !#[trigger] expected_doc(code_files@, doc_files@, *rules, d) by {
            assert(!has_doc(expected@, d));
        }
        return None;
    }
    assert(has_doc(expected@, expected@[0]@));
    assert(expected_doc(code_files@, doc_files@, *rules, expected@[0]@));
    let rule = if config {
        DetectionRule::Config
    } else if reference {
        DetectionRule::Reference
    } else {
        DetectionRule::Pattern
    };
    Some(Detection { expected_docs: expected, rule })
}

/// Both sequences hold the same elements, in whatever order and number.
pub open spec fn same_elements<T>(a: Seq<T>, b: Seq<T>) -> bool {
    forall|x: T| a.contains(x) <==> b.contains(x)
}

proof fn lemma_applies_transfer(files1: Seq<CodeFile>, files2: Seq<CodeFile>)
    requires
        same_elements(files1, files2),
    ensures
        forall|m: DocMapping| #[trigger] mapping_applies(files1, m) ==> mapping_applies(files2, m),
        forall|p: ReferencePattern| #[trigger] pattern_applies(files1, p) ==> pattern_applies(files2, p),
        forall|d: Seq<char>| #[trigger] default_doc(files1, d) ==> default_doc(files2, d),
        pattern_fires(files1) ==> pattern_fires(files2),
{
    assert forall|m: DocMapping| #[trigger] mapping_applies(files1, m) implies mapping_applies(files2, m) by {
        let i = choose|i: int| 0 <= i < files1.len() && glob_match_of(m.code@, #[trigger] files1[i].path@);
        assert(files1.contains(files1[i]));
        let k = choose|k: int| 0 <= k < files2.len() && files2[k] == files1[i];
        assert(glob_match_of(m.code@, files2[k].path@));
    }
    assert forall|p: ReferencePattern| #[trigger] pattern_applies(files1, p) implies pattern_applies(files2, p) by {
        let i = choose|i: int| 0 <= i < files1.len() && content_matches(#[trigger] files1[i], p.pattern@);
        assert(files1.contains(files1[i]));
        let k = choose|k: int| 0 <= k < files2.len() && files2[k] == files1[i];
        assert(content_matches(files2[k], p.pattern@));
    }
    assert forall|d: Seq<char>| #[trigger] default_doc(files1, d) implies default_doc(files2, d) by {
        let i = choose|i: int| 0 <= i < files1.len() && #[trigger] default_doc_of(files1[i].path@) == Some(d);
        assert(files1.contains(files1[i]));
        let k = choose|k: int| 0 <= k < files2.len() && files2[k] == files1[i];
        assert(default_doc_of(files2[k].path@) == Some(d));
    }
    if pattern_fires(files1) {
        let i = choose|i: int| 0 <= i < files1.len() && (#[trigger] default_doc_of(files1[i].path@)) is Some;
        assert(files1.contains(files1[i]));
        let k = choose|k: int| 0 <= k < files2.len() && files2[k] == files1[i];
        assert(default_doc_of(files2[k].path@) is Some);
    }
}

proof fn lemma_detection_transfer(
    files1: Seq<CodeFile>,
    files2: Seq<CodeFile>,
    docs1: Seq<String>,
    docs2: Seq<String>,
    rules1: DocRules,
    rules2: DocRules,
)
    requires
        same_elements(files1, files2),
        same_elements(docs1, docs2),
        same_elements(rules1.mappings@, rules2.mappings@),
        same_elements(rules1.reference_patterns@, rules2.reference_patterns@),
    ensures
        forall|d: Seq<char>| #[trigger] expected_doc(files1, docs1, rules1, d) ==> expected_doc(files2, docs2, rules2, d),
        config_fires(files1, rules1) ==> config_fires(files2, rules2),
        reference_fires(files1, rules1) ==> reference_fires(files2, rules2),
        pattern_fires(files1) ==> pattern_fires(files2),
{
    lemma_applies_transfer(files1, files2);
    let maps1 = rules1.mappings@;
    let maps2 = rules2.mappings@;
    let pats1 = rules1.reference_patterns@;
    let pats2 = rules2.reference_patterns@;
    assert forall|d: Seq<char>| #[trigger] expected_doc(files1, docs1, rules1, d) implies expected_doc(files2, docs2, rules2, d) by {
        if mapping_doc(files1, rules1, d) {
            let j = choose|j: int| 0 <= j < maps1.len() && #[trigger] mapping_applies(files1, maps1[j]) && maps1[j].doc@ == d;
            assert(maps1.contains(maps1[j]));
            let k = choose|k: int| 0 <= k < maps2.len() && maps2[k] == maps1[j];
            assert(mapping_applies(files2, maps2[k]));
        }
        if reference_doc(files1, rules1, d) {
            let j = choose|j: int| 0 <= j < pats1.len() && #[trigger] pattern_applies(files1, pats1[j]) && pats1[j].doc@ == d;
            assert(pats1.contains(pats1[j]));
            let k = choose|k: int| 0 <= k < pats2.len() && pats2[k] == pats1[j];
            assert(pattern_applies(files2, pats2[k]));
        }
        if has_doc(docs2, d) {
            let k = choose|k: int| 0 <= k < docs2.len() && #[trigger] docs2[k]@ == d;
            assert(docs2.contains(docs2[k]));
            let q = choose|q: int| 0 <= q < docs1.len() && docs1[q] == docs2[k];
            assert(docs1[q]@ == d);
        }
    }
    if config_fires(files1, rules1) {
        let j = choose|j: int| 0 <= j < maps1.len() && #[trigger] mapping_applies(files1, maps1[j]);
        assert(maps1.contains(maps1[j]));
        let k = choose|k: int| 0 <= k < maps2.len() && maps2[k] == maps1[j];
        assert(mapping_applies(files2, maps2[k]));
    }
    if reference_fires(files1, rules1) {
        let j = choose|j: int| 0 <= j < pats1.len() && #[trigger] pattern_applies(files1, pats1[j]);
        assert(pats1.contains(pats1[j]));
        let k = choose|k: int| 0 <= k < pats2.len() && pats2[k] == pats1[j];
        assert(pattern_applies(files2, pats2[k]));
    }
}

/// Detection does not depend on order: inputs that hold the same code
/// files, touched docs, mappings and reference patterns, in any order or
/// number of repeats, expect the same docs, have debt alike and give the
/// same primary rule.
pub proof fn law_detection_order_independent(
    files1: Seq<CodeFile>,
    files2: Seq<CodeFile>,
    docs1: Seq<String>,
    docs2: Seq<String>,
    rules1: DocRules,
    rules2: DocRules,
)
    requires
        same_elements(files1, files2),
        same_elements(docs1, docs2),
        same_elements(rules1.mappings@, rules2.mappings@),
        same_elements(rules1.reference_patterns@, rules2.reference_patterns@),
    ensures
        forall|d: Seq<char>| #[trigger]
            expected_doc(files1, docs1, rules1, d) == expected_doc(files2, docs2, rules2, d),
        has_debt(files1, docs1, rules1) == has_debt(files2, docs2, rules2),
        primary_rule(files1, rules1) == primary_rule(files2, rules2),
{
    lemma_detection_transfer(files1, files2, docs1, docs2, rules1, rules2);
    lemma_detection_transfer(files2, files1, docs2, docs1, rules2, rules1);
    if has_debt(files1, docs1, rules1) {
        let d = choose|d: Seq<char>| #[trigger] expected_doc(files1, docs1, rules1, d);
        assert(expected_doc(files2, docs2, rules2, d));
    }
    if has_debt(files2, docs2, rules2) {
        let d = choose|d: Seq<char>| #[trigger] expected_doc(files2, docs2, rules2, d);
        assert(expected_doc(files1, docs1, rules1, d));
    }
}

/// A configured mapping outranks the other rules: whenever some code file
/// matches a mapping, the primary rule is `config`, whatever the built-in
/// table or the reference patterns say of the same files.
pub proof fn law_mapping_has_priority(files: Seq<CodeFile>, rules: DocRules, i: int, j: int)
    requires
        0 <= i < files.len(),
        0 <= j < rules.mappings@.len(),
        glob_match_of(rules.mappings@[j].code@, files[i].path@),
    ensures
        primary_rule(files, rules) == DetectionRule::Config,
{
    assert(mapping_applies(files, rules.mappings@[j]));
}

/// A doc touched by the commit is never expected of it; so where every doc
/// that the rules require was touched, there is no debt.
pub proof fn law_touched_docs_settle_debt(files: Seq<CodeFile>, doc_files: Seq<String>, rules: DocRules)
    ensures
        forall|d: Seq<char>| #[trigger] has_doc(doc_files, d) ==> !expected_doc(files, doc_files, rules, d),
        (forall|d: Seq<char>| #[trigger] candidate_doc(files, rules, d) ==> has_doc(doc_files, d))
            ==> !has_debt(files, doc_files, rules),
{
}

} // verus!
