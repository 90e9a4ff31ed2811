//! Reading what git prints: the lines of its output, the last commit's id
//! and subject, and the paths a commit changed.

use vstd::prelude::*;

verus! {

/// Index of the first `c` in `s`, or -1.
pub open spec fn first_index_of(s: Seq<char>, c: char) -> int
    decreases s.len(),
{
    if s.len() == 0 {
        -1
    } else if s[0] == c {
        0
    } else {
        let r = first_index_of(s.drop_first(), c);
        if r < 0 {
            -1
        } else {
            r + 1
        }
    }
}

/// A line without its line break: a `\r` before the `\n` goes too.
pub open spec fn strip_cr(line: Seq<char>) -> Seq<char> {
    if line.len() > 0 && line.last() == '\r' {
        line.drop_last()
    } else {
        line
    }
}

/// The lines of a text, as `str::lines` gives them: split at each `\n`,
/// a `\r` before it dropped, and no empty line after a final `\n`.
pub open spec fn lines_of(s: Seq<char>) -> Seq<Seq<char>>
    decreases s.len(),
{
    let i = first_index_of(s, '\n');
    if s.len() == 0 {
        Seq::empty()
    } else if 0 <= i < s.len() {
        seq![strip_cr(s.subrange(0, i))] + lines_of(s.subrange(i + 1, s.len() as int))
    } else {
        seq![s]
    }
}

proof fn lemma_first_index(s: Seq<char>, c: char, p: int)
    requires
        0 <= p < s.len(),
        s[p] == c,
        forall|k: int| 0 <= k < p ==> s[k] != c,
    ensures
        first_index_of(s, c) == p,
    decreases s.len(),
{
    if p > 0 {
        assert forall|k: int| 0 <= k < p - 1 implies s.drop_first()[k] != c by {
            assert(s.drop_first()[k] == s[k + 1]);
        }
        lemma_first_index(s.drop_first(), c, p - 1);
    }
}

proof fn lemma_no_index(s: Seq<char>, c: char)
    requires
        forall|k: int| 0 <= k < s.len() ==> s[k] != c,
    ensures
        first_index_of(s, c) == -1,
    decreases s.len(),
{
    if s.len() > 0 {
        assert forall|k: int| 0 <= k < s.len() - 1 implies s.drop_first()[k] != c by {
            assert(s.drop_first()[k] == s[k + 1]);
        }
        lemma_no_index(s.drop_first(), c);
    }
}

fn line_between(s: &str, from: usize, to: usize) -> (r: String)
    requires
        from <= to <= s@.len(),
    ensures
        r@ == strip_cr(s@.subrange(from as int, to as int)),
{
    if to > from && s.get_char(to - 1) == '\r' {
        let r = String::from_str(s.substring_char(from, to - 1));
        assert(r@ =~= s@.subrange(from as int, to as int).drop_last());
        r
    } else {
        String::from_str(s.substring_char(from, to))
    }
}

/// The lines of `s`, as `lines_of` describes them.
pub fn split_lines(s: &str) -> (r: Vec<String>)
    ensures
        r@.map_values(|l: String| l@) == lines_of(s@),
{
    let n = s.unicode_len();
    let mut out: Vec<String> = Vec::new();
    let mut start: usize = 0;
    let mut i: usize = 0;
    assert(s@.subrange(0, n as int) =~= s@);
    assert(out@.map_values(|l: String| l@) =~= Seq::<Seq<char>>::empty());
    while i < n
        invariant
            n == s@.len(),
            start <= i <= n,
            forall|k: int| start <= k < i ==> s@[k] != '\n',
            out@.map_values(|l: String| l@) + lines_of(s@.subrange(start as int, n as int)) == lines_of(s@),
        decreases n - i,
    {
        if s.get_char(i) == '\n' {
            let ghost rest = s@.subrange(start as int, n as int);
            proof {
                assert forall|k: int| 0 <= k < i - start implies rest[k] != '\n' by {
                    assert(rest[k] == s@[start + k]);
                }
                lemma_first_index(rest, '\n', i - start);
                assert(rest.subrange(0, i - start) =~= s@.subrange(start as int, i as int));
                assert(rest.subrange(i - start + 1, rest.len() as int) =~= s@.subrange(i + 1, n as int));
            }
            let line = line_between(s, start, i);
            let ghost prev = out@.map_values(|l: String| l@);
            out.push(line);
            assert(out@.map_values(|l: String| l@) =~= prev.push(line@));
            assert(lines_of(rest) == seq![line@] + lines_of(s@.subrange(i + 1, n as int)));
            assert(prev + lines_of(rest) =~= prev.push(line@) + lines_of(s@.subrange(i + 1, n as int)));
            start = i + 1;
        }
        i = i + 1;
    }
    if start < n {
        let ghost rest = s@.subrange(start as int, n as int);
        proof {
            assert forall|k: int| 0 <= k < rest.len() implies rest[k] != '\n' by {
                assert(rest[k] == s@[start + k]);
            }
            lemma_no_index(rest, '\n');
        }
        let line = String::from_str(s.substring_char(start, n));
        let ghost prev = out@.map_values(|l: String| l@);
        out.push(line);
        assert(out@.map_values(|l: String| l@) =~= prev.push(rest));
        assert(prev + lines_of(rest) =~= prev.push(rest));
    } else {
        assert(out@.map_values(|l: String| l@) =~= out@.map_values(|l: String| l@) + lines_of(
            s@.subrange(start as int, n as int),
        ));
    }
    out
}

/// The last commit from the output of `git log -1 --format=%H%n%s`: its id
/// on the first line and its subject on the second, empty where the output
/// has one line only; `None` where the output has no line.
pub fn parse_last_commit(stdout: &str) -> (r: Option<(String, String)>)
    ensures
        lines_of(stdout@).len() == 0 <==> r is None,
        r matches Some((sha, subject)) ==> {
            &&& sha@ == lines_of(stdout@)[0]
            &&& subject@ == if lines_of(stdout@).len() > 1 {
                lines_of(stdout@)[1]
            } else {
                Seq::<char>::empty()
            }
        },
{
    let lines = split_lines(stdout);
    assert(lines@.len() == lines_of(stdout@).len());
    if lines.len() == 0 {
        return None;
    }
    assert(lines@[0]@ == lines_of(stdout@)[0]);
    let sha = lines[0].clone();
    let subject = if lines.len() > 1 {
        assert(lines@[1]@ == lines_of(stdout@)[1]);
        lines[1].clone()
    } else {
        String::new()
    };
    Some((sha, subject))
}

/// The changed paths from the output of `git diff-tree --name-only`, one
/// per line, in the order printed.
pub fn parse_changed_files(stdout: &str) -> (r: Vec<String>)
    ensures
        r@.map_values(|l: String| l@) == lines_of(stdout@),
{
    split_lines(stdout)
}

} // verus!
