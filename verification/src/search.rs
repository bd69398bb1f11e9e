//! The line filter: split a text corpus into lines and keep those that
//! contain a literal substring query, verbatim or up to ASCII case.

use vstd::prelude::*;

verus! {

/// A literal substring query together with its case-sensitivity mode.
/// With `case_sensitive` false, query and candidate line are compared
/// after both are folded to lower case; the returned lines always keep
/// their original casing.
pub struct SearchConfig {
    pub query: String,
    pub case_sensitive: bool,
}

impl SearchConfig {
    /// Builds a configuration from a query and a case-sensitivity flag.
    pub fn new(query: String, case_sensitive: bool) -> (c: SearchConfig)
        ensures
            c.query@ == query@,
            c.case_sensitive == case_sensitive,
    {
        SearchConfig { query, case_sensitive }
    }
}

/// The lower-case counterpart of a character: ASCII letters are folded,
/// every other character is left alone.
pub open spec fn lower_char(c: char) -> char {
    if 'A' <= c && c <= 'Z' {
        ((c as u8) + 32) as char
    } else {
        c
    }
}

/// A character sequence folded to lower case, character by character.
pub open spec fn lower_seq(s: Seq<char>) -> Seq<char> {
    s.map_values(|c: char| lower_char(c))
}

/// The sequence a comparison actually looks at: the text itself when the
/// search is case-sensitive, its lower-case folding when it is not.
pub open spec fn fold_case(s: Seq<char>, case_sensitive: bool) -> Seq<char> {
    if case_sensitive {
        s
    } else {
        lower_seq(s)
    }
}

/// `needle` occurs in `hay` starting exactly at position `i`.
pub open spec fn contains_at(hay: Seq<char>, needle: Seq<char>, i: int) -> bool {
    &&& 0 <= i
    &&& i + needle.len() <= hay.len()
    &&& hay.subrange(i, i + needle.len()) == needle
}

/// `needle` occurs somewhere in `hay` as a contiguous subsequence.
pub open spec fn contains_seq(hay: Seq<char>, needle: Seq<char>) -> bool {
    exists|i: int| contains_at(hay, needle, i)
}

/// A line matches the query: the query occurs in the line, with both
/// folded to lower case when the search is case-insensitive.
pub open spec fn line_matches(line: Seq<char>, query: Seq<char>, case_sensitive: bool) -> bool {
    contains_seq(fold_case(line, case_sensitive), fold_case(query, case_sensitive))
}

/// The fields produced by splitting `s` at every newline character: the
/// delimiters themselves are dropped, and a field stands on each side of
/// every delimiter, so a trailing newline leaves a final empty field and
/// the empty text has one empty field.
pub open spec fn newline_fields(s: Seq<char>) -> Seq<Seq<char>>
    decreases s.len(),
{
    if s.len() == 0 {
        seq![Seq::<char>::empty()]
    } else if s.last() == '\n' {
        newline_fields(s.drop_last()).push(Seq::<char>::empty())
    } else {
        let fields = newline_fields(s.drop_last());
        fields.drop_last().push(fields.last().push(s.last()))
    }
}

/// The lines of a corpus: the newline fields, except that a trailing
/// newline does not open a final empty line, and the empty corpus has no
/// lines at all.
pub open spec fn lines_of(s: Seq<char>) -> Seq<Seq<char>> {
    if s.len() == 0 {
        Seq::<Seq<char>>::empty()
    } else if s.last() == '\n' {
        newline_fields(s).drop_last()
    } else {
        newline_fields(s)
    }
}

/// Splits a corpus into its lines, in order, without their terminators.
pub fn split_lines(corpus: &str) -> (lines: Vec<String>)
    ensures
        lines@.map_values(|l: String| l@) == lines_of(corpus@),
{
    let n = corpus.unicode_len();
    let mut lines: Vec<String> = Vec::new();
    let mut start: usize = 0;
    let mut i: usize = 0;
    proof {
        assert(corpus@.take(0) =~= Seq::<char>::empty());
        assert(corpus@.subrange(0, 0) =~= Seq::<char>::empty());
        assert(lines@.map_values(|l: String| l@) =~= Seq::<Seq<char>>::empty());
        assert(Seq::<Seq<char>>::empty().push(Seq::<char>::empty()) =~= seq![
            Seq::<char>::empty(),
        ]);
    }
    while i < n
        invariant
            start <= i <= n,
            n == corpus@.len(),
            newline_fields(corpus@.take(i as int)) == lines@.map_values(|l: String| l@).push(
                corpus@.subrange(start as int, i as int),
            ),
            forall|k: int| start <= k < i ==> corpus@[k] != '\n',
            start > 0 ==> corpus@[start - 1] == '\n',
        decreases n - i,
    {
        let ghost prefix = corpus@.take(i as int);
        let ghost views = lines@.map_values(|l: String| l@);
        let c = corpus.get_char(i);
        proof {
            assert(corpus@.take(i + 1).drop_last() =~= prefix);
            assert(corpus@.take(i + 1).last() == corpus@[i as int]);
        }
        if c == '\n' {
            let line = corpus.substring_char(start, i);
            lines.push(line.to_owned());
            proof {
                assert(newline_fields(corpus@.take(i + 1)) == newline_fields(prefix).push(
                    Seq::<char>::empty(),
                ));
                assert(lines@.map_values(|l: String| l@) =~= views.push(
                    corpus@.subrange(start as int, i as int),
                ));
                assert(corpus@.subrange(i + 1, i + 1) =~= Seq::<char>::empty());
            }
            start = i + 1;
        } else {
            proof {
                let fields = newline_fields(prefix);
                assert(fields.drop_last() =~= views);
                assert(fields.last() == corpus@.subrange(start as int, i as int));
                assert(corpus@.subrange(start as int, i as int).push(corpus@[i as int])
                    =~= corpus@.subrange(start as int, i + 1));
            }
        }
        i += 1;
    }
    proof {
        assert(corpus@.take(n as int) =~= corpus@);
    }
    if start < n {
        let line = corpus.substring_char(start, n);
        lines.push(line.to_owned());
        proof {
            assert(corpus@.last() == corpus@[n - 1] && corpus@[n - 1] != '\n');
            assert(lines@.map_values(|l: String| l@) =~= newline_fields(corpus@));
        }
    } else {
        proof {
            let views = lines@.map_values(|l: String| l@);
            assert(corpus@.subrange(start as int, n as int) =~= Seq::<char>::empty());
            if n == 0 {
                assert(views.push(Seq::<char>::empty()) =~= seq![Seq::<char>::empty()]);
                assert(views =~= Seq::<Seq<char>>::empty());
            } else {
                assert(corpus@.last() == '\n');
                assert(newline_fields(corpus@).drop_last() =~= views);
            }
        }
    }
    lines
}

/// Folds one character to lower case.
fn lower_char_exec(c: char) -> (r: char)
    ensures
        r == lower_char(c),
{
    if 'A' <= c && c <= 'Z' {
        ((c as u8) + 32) as char
    } else {
        c
    }
}

/// Decides whether the characters of `line` and `query` agree, under the
/// chosen case folding, on the whole of `query` laid at offset `i`.
fn match_at(line: &str, query: &str, i: usize, case_sensitive: bool) -> (r: bool)
    requires
        i + query@.len() <= line@.len(),
        line@.len() <= usize::MAX,
    ensures
        r == contains_at(
            fold_case(line@, case_sensitive),
            fold_case(query@, case_sensitive),
            i as int,
        ),
{
    let ghost hay = fold_case(line@, case_sensitive);
    let ghost needle = fold_case(query@, case_sensitive);
    let qlen = query.unicode_len();
    let mut j: usize = 0;
    while j < qlen
        invariant
            j <= qlen,
            qlen == query@.len(),
            i + qlen <= line@.len(),
            line@.len() <= usize::MAX,
            hay == fold_case(line@, case_sensitive),
            needle == fold_case(query@, case_sensitive),
            hay.len() == line@.len(),
            needle.len() == query@.len(),
            forall|k: int| 0 <= k < j ==> hay[i + k] == needle[k],
        decreases qlen - j,
    {
        let lc = line.get_char(i + j);
        let qc = query.get_char(j);
        let lf = if case_sensitive { lc } else { lower_char_exec(lc) };
        let qf = if case_sensitive { qc } else { lower_char_exec(qc) };
        if lf != qf {
            proof {
                assert(hay[i + j] != needle[j as int]);
                assert(hay.subrange(i as int, i + needle.len()) != needle) by {
                    if hay.subrange(i as int, i + needle.len()) == needle {
                        assert(hay.subrange(i as int, i + needle.len())[j as int] == hay[
                            i + j
                        ]);
                    }
                }
            }
            return false;
        }
        j += 1;
    }
    proof {
        assert(hay.subrange(i as int, i + needle.len()) =~= needle);
    }
    true
}

/// Decides whether `line` contains `query`, verbatim when `case_sensitive`
/// holds and up to ASCII case otherwise.
pub fn line_contains(line: &str, query: &str, case_sensitive: bool) -> (r: bool)
    ensures
        r == line_matches(line@, query@, case_sensitive),
{
    let ghost hay = fold_case(line@, case_sensitive);
    let ghost needle = fold_case(query@, case_sensitive);
    let llen = line.unicode_len();
    let qlen = query.unicode_len();
    if qlen > llen {
        proof {
            assert(forall|i: int| !contains_at(hay, needle, i));
        }
        return false;
    }
    if qlen == 0 {
        proof {
            assert(fold_case(query@, case_sensitive) =~= hay.subrange(0, 0));
            assert(contains_at(hay, needle, 0));
        }
        return true;
    }
    let mut i: usize = 0;
    while i <= llen - qlen
        invariant
            1 <= qlen <= llen,
            i <= llen - qlen + 1,
            llen == line@.len(),
            qlen == query@.len(),
            hay == fold_case(line@, case_sensitive),
            needle == fold_case(query@, case_sensitive),
            hay.len() == line@.len(),
            needle.len() == query@.len(),
            forall|i2: int| 0 <= i2 < i ==> !contains_at(hay, needle, i2),
        decreases llen - qlen + 1 - i,
    {
        if match_at(line, query, i, case_sensitive) {
            return true;
        }
        i += 1;
    }
    proof {
        assert(forall|i2: int| i2 > llen - qlen ==> !contains_at(hay, needle, i2));
    }
    false
}

/// What a search returns: the lines of the corpus that match the query,
/// kept in corpus order and with their original text.
pub open spec fn search_spec(corpus: Seq<char>, query: Seq<char>, case_sensitive: bool) -> Seq<
    Seq<char>,
> {
    lines_of(corpus).filter(|l: Seq<char>| line_matches(l, query, case_sensitive))
}

/// Returns the lines of `corpus` that contain `config.query`, in corpus
/// order, each with its original casing.
pub fn search(corpus: &str, config: &SearchConfig) -> (result: Vec<String>)
    ensures
        result@.map_values(|l: String| l@) == search_spec(
            corpus@,
            config.query@,
            config.case_sensitive,
        ),
{
    let lines = split_lines(corpus);
    let ghost line_views = lines@.map_values(|l: String| l@);
    let ghost pred = |l: Seq<char>| line_matches(l, config.query@, config.case_sensitive);
    let mut result: Vec<String> = Vec::new();
    let n = lines.len();
    proof {
        assert(line_views.take(0) =~= Seq::<Seq<char>>::empty());
        reveal(Seq::filter);
        assert(result@.map_values(|l: String| l@) =~= Seq::<Seq<char>>::empty());
    }
    let mut idx: usize = 0;
    while idx < n
        invariant
            idx <= n,
            n == lines@.len(),
            line_views == lines@.map_values(|l: String| l@),
            pred == (|l: Seq<char>| line_matches(l, config.query@, config.case_sensitive)),
            result@.map_values(|l: String| l@) == line_views.take(idx as int).filter(pred),
        decreases n - idx,
    {
        let ghost taken = line_views.take(idx as int);
        let matched = line_contains(
            lines[idx].as_str(),
            config.query.as_str(),
            config.case_sensitive,
        );
        proof {
            assert(line_views.take(idx + 1) =~= taken + seq![line_views[idx as int]]);
            Seq::filter_distributes_over_add(taken, seq![line_views[idx as int]], pred);
            reveal_with_fuel(Seq::filter, 2);
            let single = seq![line_views[idx as int]];
            assert(single.drop_last() =~= Seq::<Seq<char>>::empty());
            assert(single.last() == line_views[idx as int]);
            assert(Seq::<Seq<char>>::empty().filter(pred).push(line_views[idx as int]) =~= single);
            assert(single.filter(pred) == if pred(line_views[idx as int]) {
                single
            } else {
                Seq::<Seq<char>>::empty()
            });
        }
        if matched {
            result.push(lines[idx].clone());
            proof {
                assert(result@.map_values(|l: String| l@) =~= taken.filter(pred) + seq![
                    line_views[idx as int],
                ]);
            }
        } else {
            proof {
                assert(taken.filter(pred) + Seq::<Seq<char>>::empty() =~= taken.filter(pred));
            }
        }
        idx += 1;
    }
    proof {
        assert(line_views.take(n as int) =~= line_views);
    }
    result
}

} // verus!
