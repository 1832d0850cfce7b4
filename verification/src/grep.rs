use vstd::prelude::*;

use crate::modules::command::string_views;
use crate::text::{concat_str, string_of};

verus! {

broadcast use vstd::string::group_string_axioms;

#[verifier::external_type_specification]
#[verifier::external_body]
pub struct ExRegex(regex::Regex);

#[verifier::external_type_specification]
#[verifier::external_body]
pub struct ExRegexError(regex::Error);

/// Whether the `regex` crate accepts `pattern` as a regular expression with
/// case-insensitive matching set as given.
pub uninterp spec fn regex_compiles(pattern: Seq<char>, case_insensitive: bool) -> bool;

/// Whether the regular expression `pattern`, compiled by the `regex` crate with
/// case-insensitive matching set as given, matches somewhere in `haystack`.
pub uninterp spec fn regex_finds(pattern: Seq<char>, case_insensitive: bool, haystack: Seq<char>) -> bool;

/// The text (`Display`) of the error that the `regex` crate gives when
/// `pattern`, with case-insensitive matching set as given, does not compile.
pub uninterp spec fn regex_error_message(pattern: Seq<char>, case_insensitive: bool) -> Seq<char>;

/// A `regex::Error` together with the pattern and the flag whose build gave
/// it. Only `compile_regex` makes one, so the three fields always belong
/// together.
pub struct CompileError {
    error: regex::Error,
    pattern: Ghost<Seq<char>>,
    case_insensitive: Ghost<bool>,
}

/// The message of the error in `e`, through the `Display` impl of
/// `regex::Error`. Claimed: it is `regex_error_message` of the pattern and
/// flag whose build gave the error.
#[verifier::external_body]
fn regex_error_text(e: &CompileError) -> (s: String)
    ensures
        s@ == regex_error_message(e.pattern@, e.case_insensitive@),
{
    e.error.to_string()
}

/// A compiled regular expression together with the pattern and the flag it
/// was compiled from. Only `compile_regex` makes one, so the three fields
/// always belong together.
pub struct Matcher {
    regex: regex::Regex,
    pattern: Ghost<Seq<char>>,
    case_insensitive: Ghost<bool>,
}

/// Compiles `pattern` with `regex::RegexBuilder` (`new`, then
/// `case_insensitive`, then `build`) and keeps the regex together with the
/// pattern and flag it was built from. Claimed: the build succeeds exactly
/// when `regex_compiles` holds of the pattern and the flag, and the matcher
/// records that pattern and flag; a failure records them next to the error.
/// Together with `regex_is_match` and `regex_error_text`, this is the one
/// place where a recorded pattern is tied to a regex or an error.
#[verifier::external_body]
fn compile_regex(pattern: &str, case_insensitive: bool) -> (r: Result<Matcher, CompileError>)
    ensures
        r is Ok <==> regex_compiles(pattern@, case_insensitive),
        r matches Ok(m) ==> m.pattern@ == pattern@ && m.case_insensitive@ == case_insensitive,
        r matches Err(e) ==> e.pattern@ == pattern@ && e.case_insensitive@ == case_insensitive,
{
    match regex::RegexBuilder::new(pattern).case_insensitive(case_insensitive).build() {
        Ok(regex) => Ok(Matcher { regex, pattern: Ghost(pattern@), case_insensitive: Ghost(case_insensitive) }),
        Err(error) => Err(CompileError { error, pattern: Ghost(pattern@), case_insensitive: Ghost(case_insensitive) }),
    }
}

/// `regex::Regex::is_match` on the regex of `m`. Claimed: the result is
/// `regex_finds` of the pattern and flag that `compile_regex` built the regex
/// of `m` from, and of the haystack.
#[verifier::external_body]
fn regex_is_match(m: &Matcher, haystack: &str) -> (r: bool)
    ensures
        r == regex_finds(m.pattern@, m.case_insensitive@, haystack@),
{
    m.regex.is_match(haystack)
}

impl Matcher {
    /// The pattern this matcher was compiled from.
    pub closed spec fn pattern(&self) -> Seq<char> {
        self.pattern@
    }

    /// Whether this matcher ignores case.
    pub closed spec fn ignores_case(&self) -> bool {
        self.case_insensitive@
    }

    /// Compiles `pattern`; on failure, the message of the `regex` crate.
    pub fn compile(pattern: &str, case_insensitive: bool) -> (r: Result<Matcher, String>)
        ensures
            r is Ok <==> regex_compiles(pattern@, case_insensitive),
            r matches Ok(m) ==> m.pattern() == pattern@ && m.ignores_case() == case_insensitive,
            r matches Err(t) ==> t@ == regex_error_message(pattern@, case_insensitive),
    {
        match compile_regex(pattern, case_insensitive) {
            Ok(m) => Ok(m),
            Err(e) => Err(regex_error_text(&e)),
        }
    }

    /// Whether the expression matches somewhere in `haystack`.
    pub fn is_match(&self, haystack: &str) -> (r: bool)
        ensures
            r == regex_finds(self.pattern(), self.ignores_case(), haystack@),
    {
        regex_is_match(self, haystack)
    }
}

/// The expression that grep compiles: with `-w` the pattern is wrapped in
/// word boundaries, `\b(?:PATTERN)\b`.
pub open spec fn grep_regex(pattern: Seq<char>, word_regexp: bool) -> Seq<char> {
    if word_regexp {
        "\\b(?:"@ + pattern + ")\\b"@
    } else {
        pattern
    }
}

/// The start of the message for a pattern that does not compile.
pub open spec fn invalid_pattern_prefix(pattern: Seq<char>) -> Seq<char> {
    "Invalid regex pattern '"@ + pattern + "': "@
}

/// The smaller of two integers.
pub open spec fn min_int(a: int, b: int) -> int {
    if a <= b {
        a
    } else {
        b
    }
}

/// Scans for the end of a block of output, from position `j` with the block
/// currently ending before `end`: each match at `j` inside the block pushes
/// the end to `c` lines after it (at most to the last line).
pub open spec fn block_end_from(ms: Seq<bool>, c: int, j: int, end: int) -> int
    decreases ms.len() - j,
{
    if j < 0 || j >= end || j >= ms.len() {
        end
    } else {
        block_end_from(ms, c, j + 1, if ms[j] { min_int(j + c + 1, ms.len() as int) } else { end })
    }
}

/// The end (exclusive) of the block of output that starts at the matching line
/// `i`: the block takes `c` lines after each match in it.
pub open spec fn block_end(ms: Seq<bool>, c: int, i: int) -> int {
    block_end_from(ms, c, i + 1, min_int(i + c + 1, ms.len() as int))
}

/// The block end lies between its first bound and the number of lines.
pub proof fn lemma_block_end_from_bounds(ms: Seq<bool>, c: int, j: int, end: int)
    requires
        c >= 0,
        end <= ms.len(),
        end <= j + c,
    ensures
        end <= block_end_from(ms, c, j, end) <= ms.len(),
    decreases ms.len() - j,
{
    if !(j < 0 || j >= end || j >= ms.len()) {
        let e2 = if ms[j] { min_int(j + c + 1, ms.len() as int) } else { end };
        lemma_block_end_from_bounds(ms, c, j + 1, e2);
    }
}

/// What grep prints of lines whose match flags are `ms`, from line `i` on,
/// with `c` lines of trailing context: `Some(k)` stands for line `k` and
/// `None` for the separator `--`, which follows every block that does not end
/// at the last line.
pub open spec fn context_from(ms: Seq<bool>, c: int, i: int) -> Seq<Option<int>>
    decreases ms.len() - i,
{
    if i < 0 || i >= ms.len() || c < 0 {
        Seq::empty()
    } else if ms[i] {
        let e = block_end(ms, c, i);
        proof {
            lemma_block_end_from_bounds(ms, c, i + 1, min_int(i + c + 1, ms.len() as int));
        }
        Seq::new((e - i) as nat, |k: int| Some(i + k)) + (if e < ms.len() {
            seq![None]
        } else {
            Seq::empty()
        }) + context_from(ms, c, e)
    } else {
        context_from(ms, c, i + 1)
    }
}

/// The matching lines from line `i` on.
pub open spec fn matches_from(ms: Seq<bool>, i: int) -> Seq<Option<int>>
    decreases ms.len() - i,
{
    if i < 0 || i >= ms.len() {
        Seq::empty()
    } else if ms[i] {
        seq![Some(i)] + matches_from(ms, i + 1)
    } else {
        matches_from(ms, i + 1)
    }
}

/// What grep prints with `c` lines of trailing context: without context
/// just the matching lines, with it the blocks of `context_from`.
pub open spec fn selected_lines(ms: Seq<bool>, c: int) -> Seq<Option<int>> {
    if c == 0 {
        matches_from(ms, 0)
    } else {
        context_from(ms, c, 0)
    }
}

/// The integer view of a selection.
pub open spec fn selection_view(v: Seq<Option<usize>>) -> Seq<Option<int>> {
    v.map_values(|o: Option<usize>| match o {
        Some(k) => Some(k as int),
        None => None,
    })
}

/// Chooses the lines to print, as `selected_lines` says: `Some(k)` for line
/// `k`, `None` for a separator.
pub fn select_lines(ms: &Vec<bool>, c: usize) -> (r: Vec<Option<usize>>)
    ensures
        selection_view(r@) == selected_lines(ms@, c as int),
{
    let n = ms.len();
    let mut out: Vec<Option<usize>> = Vec::new();
    let mut i: usize = 0;
    assert(selection_view(out@) =~= Seq::<Option<int>>::empty());
    if c == 0 {
        while i < n
            invariant
                i <= n,
                n == ms@.len(),
                matches_from(ms@, 0) == selection_view(out@) + matches_from(ms@, i as int),
            decreases n - i,
        {
            let ghost before = selection_view(out@);
            if ms[i] {
                out.push(Some(i));
                assert(selection_view(out@) =~= before + seq![Some(i as int)]);
                assert(before + (seq![Some(i as int)] + matches_from(ms@, i + 1)) =~= selection_view(out@)
                    + matches_from(ms@, i + 1));
            }
            i = i + 1;
        }
        assert(selection_view(out@) + Seq::<Option<int>>::empty() =~= selection_view(out@));
        return out;
    }
    while i < n
        invariant
            i <= n,
            n == ms@.len(),
            c > 0,
            context_from(ms@, c as int, 0) == selection_view(out@) + context_from(ms@, c as int, i as int),
        decreases n - i,
    {
        let ghost before = selection_view(out@);
        if ms[i] {
            let mut end: usize = if c < n - i { i + c + 1 } else { n };
            let mut j: usize = i + 1;
            proof {
                lemma_block_end_from_bounds(ms@, c as int, i + 1, end as int);
            }
            while j < n && j < end
                invariant
                    i < j,
                    j <= n,
                    end <= n,
                    n == ms@.len(),
                    end <= j + c,
                    block_end(ms@, c as int, i as int) == block_end_from(ms@, c as int, j as int, end as int),
                decreases n - j,
            {
                if ms[j] {
                    end = if c < n - j { j + c + 1 } else { n };
                }
                j = j + 1;
            }
            let ghost e = end as int;
            proof {
                lemma_block_end_from_bounds(ms@, c as int, i + 1, min_int(i + c + 1, n as int));
            }
            let ghost mid = selection_view(out@);
            let mut k = i;
            while k < end
                invariant
                    i <= k <= end <= n,
                    selection_view(out@) == mid + Seq::new((k - i) as nat, |t: int| Some(i + t)),
                decreases end - k,
            {
                let ghost prev = selection_view(out@);
                out.push(Some(k));
                assert(selection_view(out@) =~= mid + Seq::new((k + 1 - i) as nat, |t: int| Some(i + t))) by {
                    assert(selection_view(out@) =~= prev.push(Some(k as int)));
                }
                k = k + 1;
            }
            let ghost blocks = selection_view(out@);
            if end < n {
                out.push(None);
                assert(selection_view(out@) =~= blocks.push(None));
            }
            assert(selection_view(out@) =~= before + (Seq::new((e - i) as nat, |t: int| Some(i + t)) + (
            if e < n {
                seq![None]
            } else {
                Seq::empty()
            })));
            assert(before + (Seq::new((e - i) as nat, |t: int| Some(i + t)) + (if e < n {
                seq![None]
            } else {
                Seq::empty()
            }) + context_from(ms@, c as int, e)) =~= selection_view(out@) + context_from(ms@, c as int, e));
            i = end;
        } else {
            i = i + 1;
        }
    }
    assert(selection_view(out@) + Seq::<Option<int>>::empty() =~= selection_view(out@));
    out
}

/// How a line is printed: with `name:` in front when grep searches several
/// files and the line comes from the file `name`.
pub open spec fn printed_line(names_files: bool, content: Seq<char>, filename: Option<Seq<char>>) -> Seq<
    char,
> {
    match filename {
        Some(f) => if names_files {
            f + seq![':'] + content
        } else {
            content
        },
        None => content,
    }
}

/// What grep prints for the lines `lines`: the selected lines, each as
/// `printed_line` says, and `--` for each separator.
pub open spec fn grep_output(
    lines: Seq<Seq<char>>,
    ms: Seq<bool>,
    c: int,
    names_files: bool,
    filename: Option<Seq<char>>,
) -> Seq<Seq<char>> {
    selected_lines(ms, c).map_values(|o: Option<int>| match o {
        Some(k) => printed_line(names_files, lines[k], filename),
        None => seq!['-', '-'],
    })
}

/// The view of an optional string slice.
pub open spec fn opt_str_view(o: Option<&str>) -> Option<Seq<char>> {
    match o {
        Some(s) => Some(s@),
        None => None,
    }
}

/// Every entry of a selection names a line below `n`.
proof fn lemma_selection_in_range(ms: Seq<bool>, c: int)
    ensures
        forall|k: int|
            0 <= k < selected_lines(ms, c).len() ==> match #[trigger] selected_lines(ms, c)[k] {
                Some(j) => 0 <= j < ms.len(),
                None => true,
            },
{
    if c == 0 {
        lemma_matches_from_range(ms, 0);
    } else {
        lemma_context_from_range(ms, c, 0);
    }
}

proof fn lemma_matches_from_range(ms: Seq<bool>, i: int)
    ensures
        forall|k: int|
            0 <= k < matches_from(ms, i).len() ==> match #[trigger] matches_from(ms, i)[k] {
                Some(j) => i <= j < ms.len(),
                None => true,
            },
    decreases ms.len() - i,
{
    if !(i < 0 || i >= ms.len()) {
        lemma_matches_from_range(ms, i + 1);
        if ms[i] {
            let r = matches_from(ms, i + 1);
            assert forall|k: int| 0 <= k < matches_from(ms, i).len() implies match #[trigger] matches_from(
                ms,
                i,
            )[k] {
                Some(j) => i <= j < ms.len(),
                None => true,
            } by {
                if k > 0 {
                    assert(matches_from(ms, i)[k] == r[k - 1]);
                }
            }
        }
    }
}

proof fn lemma_context_from_range(ms: Seq<bool>, c: int, i: int)
    ensures
        forall|k: int|
            0 <= k < context_from(ms, c, i).len() ==> match #[trigger] context_from(ms, c, i)[k] {
                Some(j) => i <= j < ms.len(),
                None => true,
            },
    decreases ms.len() - i,
{
    if !(i < 0 || i >= ms.len() || c < 0) {
        if ms[i] {
            let e = block_end(ms, c, i);
            lemma_block_end_from_bounds(ms, c, i + 1, min_int(i + c + 1, ms.len() as int));
            lemma_context_from_range(ms, c, e);
        } else {
            lemma_context_from_range(ms, c, i + 1);
        }
    }
}

/// Line `j` is within `c` lines after a matching line at or after `i`.
pub open spec fn covered(ms: Seq<bool>, c: int, i: int, j: int) -> bool {
    exists|m: int| i <= m < ms.len() && #[trigger] ms[m] && m <= j <= m + c
}

/// Line `j` is printed somewhere in the selection `s`.
pub open spec fn appears(s: Seq<Option<int>>, j: int) -> bool {
    exists|k: int| 0 <= k < s.len() && s[k] == Some(j)
}

/// The printed lines of `s` come in strictly increasing order.
pub open spec fn increasing(s: Seq<Option<int>>) -> bool {
    forall|k1: int, k2: int|
        0 <= k1 < k2 < s.len() && #[trigger] s[k1] is Some && #[trigger] s[k2] is Some ==> s[k1]->0
            < s[k2]->0
}

/// Every printed line of `s` lies in `[lo, hi)`.
pub open spec fn lines_within(s: Seq<Option<int>>, lo: int, hi: int) -> bool {
    forall|k: int| 0 <= k < s.len() && #[trigger] s[k] is Some ==> lo <= s[k]->0 < hi
}

/// Line `x` is within `c` lines after a match at a line in `[lo, hi)`.
pub open spec fn covered_between(ms: Seq<bool>, c: int, lo: int, hi: int, x: int) -> bool {
    exists|m: int| lo <= m < hi && #[trigger] ms[m] && m <= x <= m + c
}

/// Scanning a block keeps two facts: every line before the block end is
/// within `c` lines after a match of the block, and each match of the block
/// has all its `c` context lines inside it (or the block reaches the last
/// line).
proof fn lemma_block_cover(ms: Seq<bool>, c: int, i: int, j: int, end: int)
    requires
        c >= 0,
        0 <= i < j,
        end <= ms.len(),
        end <= j + c,
        forall|x: int| i <= x < end ==> #[trigger] covered_between(ms, c, i, j, x),
        forall|m: int| i <= m < j && #[trigger] ms[m] ==> m + c + 1 <= end || end == ms.len(),
    ensures
        ({
            let e = block_end_from(ms, c, j, end);
            &&& forall|x: int| i <= x < e ==> #[trigger] covered_between(ms, c, i, e, x)
            &&& forall|m: int| i <= m < e && #[trigger] ms[m] ==> m + c + 1 <= e || e == ms.len()
        }),
    decreases ms.len() - j,
{
    if j < 0 || j >= end || j >= ms.len() {
        assert forall|x: int| i <= x < end implies #[trigger] covered_between(ms, c, i, end, x) by {
            assert(covered_between(ms, c, i, j, x));
            let m = choose|m: int| i <= m < j && #[trigger] ms[m] && m <= x <= m + c;
            assert(i <= m < end && ms[m] && m <= x <= m + c);
        }
        assert forall|m: int| i <= m < end && #[trigger] ms[m] implies m + c + 1 <= end || end == ms.len() by {
            assert(m < j);
        }
    } else {
        let ne = if ms[j] { min_int(j + c + 1, ms.len() as int) } else { end };
        assert(end <= ne);
        assert forall|x: int| i <= x < ne implies #[trigger] covered_between(ms, c, i, j + 1, x) by {
            if x < end {
                assert(covered_between(ms, c, i, j, x));
                let m = choose|m: int| i <= m < j && #[trigger] ms[m] && m <= x <= m + c;
                assert(i <= m < j + 1 && ms[m] && m <= x <= m + c);
            } else {
                assert(i <= j < j + 1 && ms[j] && j <= x <= j + c);
            }
        }
        assert forall|m: int| i <= m < j + 1 && #[trigger] ms[m] implies m + c + 1 <= ne || ne == ms.len() by {
            if m < j {
                assert(m + c + 1 <= end || end == ms.len());
            }
        }
        lemma_block_cover(ms, c, i, j + 1, ne);
        assert(block_end_from(ms, c, j, end) == block_end_from(ms, c, j + 1, ne));
    }
}

/// The selection from line `i` on prints exactly the lines at or after `i`
/// that lie within `c` lines after a match at or after `i`, in increasing
/// order.
proof fn lemma_context_from_lines(ms: Seq<bool>, c: int, i: int)
    requires
        c > 0,
        0 <= i,
    ensures
        forall|j: int| appears(context_from(ms, c, i), j) <==> (i <= j < ms.len() && covered(ms, c, i, j)),
        increasing(context_from(ms, c, i)),
        lines_within(context_from(ms, c, i), i, ms.len() as int),
    decreases ms.len() - i,
{
    let cf = context_from(ms, c, i);
    if i >= ms.len() {
        assert forall|j: int| appears(cf, j) <==> (i <= j < ms.len() && covered(ms, c, i, j)) by {}
    } else if ms[i] {
        let e = block_end(ms, c, i);
        let end0 = min_int(i + c + 1, ms.len() as int);
        lemma_block_end_from_bounds(ms, c, i + 1, end0);
        assert forall|x: int| i <= x < end0 implies #[trigger] covered_between(ms, c, i, i + 1, x) by {
            assert(i <= i < i + 1 && ms[i] && i <= x <= i + c);
        }
        lemma_block_cover(ms, c, i, i + 1, end0);
        lemma_context_from_lines(ms, c, e);
        let block = Seq::new((e - i) as nat, |k: int| Some(i + k));
        let sep: Seq<Option<int>> = if e < ms.len() { seq![None] } else { Seq::empty() };
        let rest = context_from(ms, c, e);
        assert(cf == block + sep + rest);
        let head = block + sep;
        assert forall|j: int| appears(cf, j) <==> (i <= j < ms.len() && covered(ms, c, i, j)) by {
            if appears(cf, j) {
                let k = choose|k: int| 0 <= k < cf.len() && cf[k] == Some(j);
                if k < block.len() {
                    assert(block[k] == Some(i + k));
                    assert(i <= j < e);
                    assert(covered_between(ms, c, i, e, j));
                    let m = choose|m: int| i <= m < e && #[trigger] ms[m] && m <= j <= m + c;
                    assert(i <= m < ms.len() && ms[m] && m <= j <= m + c);
                } else if k < head.len() {
                    assert(head[k] is None);
                } else {
                    assert(rest[k - head.len()] == Some(j));
                    assert(appears(rest, j));
                    assert(covered(ms, c, e, j));
                    let m = choose|m: int| e <= m < ms.len() && #[trigger] ms[m] && m <= j <= m + c;
                    assert(i <= m < ms.len() && ms[m] && m <= j <= m + c);
                }
            }
            if i <= j < ms.len() && covered(ms, c, i, j) {
                if j < e {
                    assert(cf[j - i] == Some(j));
                } else {
                    let m = choose|m: int| i <= m < ms.len() && #[trigger] ms[m] && m <= j <= m + c;
                    if m < e {
                        assert(m + c + 1 <= e || e == ms.len());
                    }
                    assert(e <= m < ms.len() && ms[m] && m <= j <= m + c);
                    assert(covered(ms, c, e, j));
                    assert(appears(rest, j));
                    let k = choose|k: int| 0 <= k < rest.len() && rest[k] == Some(j);
                    assert(cf[head.len() + k] == Some(j));
                }
            }
        }
        assert forall|k1: int, k2: int|
            0 <= k1 < k2 < cf.len() && #[trigger] cf[k1] is Some && #[trigger] cf[k2] is Some implies cf[k1]->0
            < cf[k2]->0 by {
            if k2 < block.len() {
                assert(cf[k1] == Some(i + k1) && cf[k2] == Some(i + k2));
            } else if k2 >= head.len() {
                assert(cf[k2] == rest[k2 - head.len()]);
                assert(rest[k2 - head.len()] is Some);
                if k1 >= head.len() {
                    assert(cf[k1] == rest[k1 - head.len()]);
                    assert(rest[k1 - head.len()] is Some);
                } else {
                    assert(k1 < block.len());
                    assert(cf[k1] == Some(i + k1));
                }
            } else {
                assert(head[k2] is None);
            }
        }
        assert forall|k: int| 0 <= k < cf.len() && #[trigger] cf[k] is Some implies i <= cf[k]->0 < ms.len() by {
            if k < block.len() {
                assert(cf[k] == Some(i + k));
            } else if k >= head.len() {
                assert(cf[k] == rest[k - head.len()]);
                assert(rest[k - head.len()] is Some);
            } else {
                assert(head[k] is None);
            }
        }
    } else {
        lemma_context_from_lines(ms, c, i + 1);
        assert forall|j: int| appears(cf, j) <==> (i <= j < ms.len() && covered(ms, c, i, j)) by {
            if covered(ms, c, i, j) {
                let m = choose|m: int| i <= m < ms.len() && #[trigger] ms[m] && m <= j <= m + c;
                assert(m != i);
                assert(covered(ms, c, i + 1, j));
            }
            if covered(ms, c, i + 1, j) {
                let m = choose|m: int| i + 1 <= m < ms.len() && #[trigger] ms[m] && m <= j <= m + c;
                assert(covered(ms, c, i, j));
            }
        }
    }
}

/// With `-A c` (`c > 0`), grep prints exactly the lines that lie within `c`
/// lines after a matching line, each once and in input order.
pub proof fn law_context_lines(ms: Seq<bool>, c: int)
    requires
        c > 0,
    ensures
        forall|j: int|
            #![trigger appears(selected_lines(ms, c), j)]
            appears(selected_lines(ms, c), j) <==> (0 <= j < ms.len() && exists|m: int|
                0 <= m < ms.len() && #[trigger] ms[m] && m <= j <= m + c),
        increasing(selected_lines(ms, c)),
{
    lemma_context_from_lines(ms, c, 0);
    assert forall|j: int|
        appears(selected_lines(ms, c), j) <==> (0 <= j < ms.len() && exists|m: int|
            0 <= m < ms.len() && #[trigger] ms[m] && m <= j <= m + c) by {
        assert(covered(ms, c, 0, j) == exists|m: int| 0 <= m < ms.len() && #[trigger] ms[m] && m <= j <= m + c);
    }
}

proof fn lemma_matches_from_lines(ms: Seq<bool>, i: int)
    requires
        0 <= i,
    ensures
        forall|j: int| appears(matches_from(ms, i), j) <==> (i <= j < ms.len() && ms[j]),
        increasing(matches_from(ms, i)),
        lines_within(matches_from(ms, i), i, ms.len() as int),
    decreases ms.len() - i,
{
    let mf = matches_from(ms, i);
    if i < ms.len() {
        lemma_matches_from_lines(ms, i + 1);
        let rest = matches_from(ms, i + 1);
        if ms[i] {
            assert(mf == seq![Some(i)] + rest);
            assert forall|j: int| appears(mf, j) <==> (i <= j < ms.len() && ms[j]) by {
                if appears(mf, j) {
                    let k = choose|k: int| 0 <= k < mf.len() && mf[k] == Some(j);
                    if k > 0 {
                        assert(rest[k - 1] == Some(j));
                        assert(appears(rest, j));
                    }
                }
                if i <= j < ms.len() && ms[j] {
                    if j == i {
                        assert(mf[0] == Some(i));
                    } else {
                        assert(appears(rest, j));
                        let k = choose|k: int| 0 <= k < rest.len() && rest[k] == Some(j);
                        assert(mf[k + 1] == Some(j));
                    }
                }
            }
            assert forall|k1: int, k2: int|
                0 <= k1 < k2 < mf.len() && #[trigger] mf[k1] is Some && #[trigger] mf[k2] is Some implies mf[k1]->0
                < mf[k2]->0 by {
                assert(mf[k2] == rest[k2 - 1]);
                assert(rest[k2 - 1] is Some);
                if k1 > 0 {
                    assert(mf[k1] == rest[k1 - 1]);
                    assert(rest[k1 - 1] is Some);
                }
            }
            assert forall|k: int| 0 <= k < mf.len() && #[trigger] mf[k] is Some implies i <= mf[k]->0 < ms.len() by {
                if k > 0 {
                    assert(mf[k] == rest[k - 1]);
                    assert(rest[k - 1] is Some);
                }
            }
        } else {
            assert forall|j: int| appears(mf, j) <==> (i <= j < ms.len() && ms[j]) by {}
        }
    }
}

/// Without trailing context grep prints exactly the matching lines, each once
/// and in input order, with no separators.
pub proof fn law_matching_lines(ms: Seq<bool>)
    ensures
        forall|j: int|
            #![trigger appears(selected_lines(ms, 0), j)]
            #![trigger ms[j]]
            appears(selected_lines(ms, 0), j) <==> (0 <= j < ms.len() && ms[j]),
        increasing(selected_lines(ms, 0)),
        forall|k: int| 0 <= k < selected_lines(ms, 0).len() ==> #[trigger] selected_lines(ms, 0)[k] is Some,
{
    lemma_matches_from_lines(ms, 0);
    lemma_matches_from_some(ms, 0);
}

proof fn lemma_matches_from_some(ms: Seq<bool>, i: int)
    ensures
        forall|k: int| 0 <= k < matches_from(ms, i).len() ==> #[trigger] matches_from(ms, i)[k] is Some,
    decreases ms.len() - i,
{
    if !(i < 0 || i >= ms.len()) {
        lemma_matches_from_some(ms, i + 1);
        if ms[i] {
            let rest = matches_from(ms, i + 1);
            assert forall|k: int| 0 <= k < matches_from(ms, i).len() implies #[trigger] matches_from(ms, i)[k] is Some by {
                if k > 0 {
                    assert(matches_from(ms, i)[k] == rest[k - 1]);
                }
            }
        }
    }
}

/// When several files are searched, every printed line of the file `f`,
/// matching line or trailing-context line alike, is `f:` followed by the
/// line; each separator is `--`; with one file, or on standard input, a line
/// is printed as it is.
pub proof fn law_every_printed_line_named(
    lines: Seq<Seq<char>>,
    ms: Seq<bool>,
    c: int,
    f: Seq<char>,
)
    requires
        lines.len() == ms.len(),
        c >= 0,
    ensures
        grep_output(lines, ms, c, true, Some(f)).len() == selected_lines(ms, c).len(),
        forall|k: int|
            0 <= k < selected_lines(ms, c).len() && (#[trigger] selected_lines(ms, c)[k]) is Some ==> ({
                let j = selected_lines(ms, c)[k]->0;
                &&& grep_output(lines, ms, c, true, Some(f))[k] == f + seq![':'] + lines[j]
                &&& grep_output(lines, ms, c, false, Some(f))[k] == lines[j]
                &&& grep_output(lines, ms, c, true, None)[k] == lines[j]
            }),
        forall|k: int|
            0 <= k < selected_lines(ms, c).len() && #[trigger] selected_lines(ms, c)[k] is None
                ==> grep_output(lines, ms, c, true, Some(f))[k] == seq!['-', '-'],
{
}

/// One input line and whether it matched.
pub struct MatchResult {
    pub content: String,
    pub is_match: bool,
}

impl MatchResult {
    /// A line with its match flag; the line number is not kept.
    pub fn new(line_number: usize, content: String, is_match: bool) -> (r: Self)
        ensures
            r.content@ == content@,
            r.is_match == is_match,
    {
        MatchResult { content, is_match }
    }
}

/// The search of one grep invocation: the compiled expression, the number of
/// lines of trailing context, and whether lines get their file name in front.
pub struct GrepEngine {
    matcher: Matcher,
    after_context: Option<usize>,
    multiple_files: bool,
}

impl GrepEngine {
    /// The expression this engine searches with.
    pub closed spec fn regex(&self) -> Seq<char> {
        self.matcher.pattern()
    }

    /// Whether this engine ignores case.
    pub closed spec fn ignores_case(&self) -> bool {
        self.matcher.ignores_case()
    }

    /// The number of trailing context lines asked for (`-A`).
    pub closed spec fn context_lines(&self) -> Option<usize> {
        self.after_context
    }

    /// Whether output lines carry their file name.
    pub closed spec fn names_files(&self) -> bool {
        self.multiple_files
    }

    /// Sets up a search for `pattern`, wrapped in word boundaries when
    /// `word_regexp` holds; fails with a message when the expression does not
    /// compile.
    pub fn new(
        pattern: &str,
        word_regexp: bool,
        ignore_case: bool,
        after_context: Option<usize>,
        multiple_files: bool,
    ) -> (r: Result<Self, String>)
        ensures
            r is Ok <==> regex_compiles(grep_regex(pattern@, word_regexp), ignore_case),
            r matches Ok(e) ==> e.regex() == grep_regex(pattern@, word_regexp) && e.ignores_case()
                == ignore_case && e.context_lines() == after_context && e.names_files()
                == multiple_files,
            r matches Err(m) ==> m@ == invalid_pattern_prefix(pattern@) + regex_error_message(
                grep_regex(pattern@, word_regexp),
                ignore_case,
            ),
    {
        let regex_pattern = if word_regexp {
            let head = concat_str("\\b(?:", pattern);
            concat_str(head.as_str(), ")\\b")
        } else {
            String::from_str(pattern)
        };
        match Matcher::compile(regex_pattern.as_str(), ignore_case) {
            Ok(matcher) => Ok(GrepEngine { matcher, after_context, multiple_files }),
            Err(text) => {
                let a = concat_str("Invalid regex pattern '", pattern);
                let b = concat_str(a.as_str(), "': ");
                Err(concat_str(b.as_str(), text.as_str()))
            },
        }
    }

    /// Sets up grep for its command-line arguments: an empty pattern is
    /// refused; lines get their file name in front when more than one file is
    /// searched.
    pub fn from_args(
        pattern: &str,
        word_regexp: bool,
        ignore_case: bool,
        after_context: Option<usize>,
        file_count: usize,
    ) -> (r: Result<Self, String>)
        ensures
            pattern@.len() == 0 ==> (r matches Err(m) && m@ == "empty pattern not allowed"@),
            pattern@.len() > 0 ==> (r is Ok <==> regex_compiles(grep_regex(pattern@, word_regexp), ignore_case)),
            pattern@.len() > 0 ==> (r matches Ok(e) ==> e.regex() == grep_regex(pattern@, word_regexp)
                && e.ignores_case() == ignore_case && e.context_lines() == after_context
                && e.names_files() == (file_count > 1)),
            pattern@.len() > 0 ==> (r matches Err(m) ==> m@ == invalid_pattern_prefix(pattern@)
                + regex_error_message(grep_regex(pattern@, word_regexp), ignore_case)),
    {
        let v = crate::text::chars_of(pattern);
        if v.len() == 0 {
            return Err(String::from_str("empty pattern not allowed"));
        }
        GrepEngine::new(pattern, word_regexp, ignore_case, after_context, file_count > 1)
    }

    /// Whether `line` matches.
    pub fn is_match(&self, line: &str) -> (r: bool)
        ensures
            r == regex_finds(self.regex(), self.ignores_case(), line@),
    {
        self.matcher.is_match(line)
    }

    /// The text printed for a line `content` of the file `filename`.
    pub fn line_text(&self, content: &str, filename: Option<&str>) -> (s: String)
        ensures
            s@ == printed_line(self.names_files(), content@, opt_str_view(filename)),
    {
        match filename {
            Some(f) => if self.multiple_files {
                let head = concat_str(f, ":");
                proof {
                    reveal_strlit(":");
                }
                concat_str(head.as_str(), content)
            } else {
                String::from_str(content)
            },
            None => String::from_str(content),
        }
    }

    /// What grep prints for the lines `lines` of the file `filename` (`None`
    /// for standard input).
    pub fn process_lines(&self, lines: Vec<String>, filename: Option<&str>) -> (r: Vec<String>)
        ensures
            string_views(r@) == grep_output(
                string_views(lines@),
                lines@.map_values(|l: String| regex_finds(self.regex(), self.ignores_case(), l@)),
                match self.context_lines() {
                    Some(c) => c as int,
                    None => 0,
                },
                self.names_files(),
                opt_str_view(filename),
            ),
    {
        let ghost lv = string_views(lines@);
        let ghost msv = lines@.map_values(|l: String| regex_finds(self.regex(), self.ignores_case(), l@));
        let ghost lines_seq = lines@;
        let marked = self.mark_lines(lines);
        let mut flags: Vec<bool> = Vec::new();
        let n = marked.len();
        assert forall|j: int| 0 <= j < n implies #[trigger] marked@[j].is_match == msv[j] by {
            assert(marked@[j].is_match == regex_finds(self.regex(), self.ignores_case(), lines_seq[j]@));
        }
        assert forall|j: int| 0 <= j < n implies #[trigger] marked@[j].content@ == lv[j] by {
            assert(marked@[j].content@ == lines_seq[j]@);
        }
        let mut i: usize = 0;
        while i < n
            invariant
                i <= n,
                n == marked@.len(),
                flags@.len() == i,
                msv.len() == n,
                forall|j: int| 0 <= j < n ==> #[trigger] marked@[j].is_match == msv[j],
                forall|j: int| 0 <= j < i ==> #[trigger] flags@[j] == marked@[j].is_match,
            decreases n - i,
        {
            flags.push(marked[i].is_match);
            i = i + 1;
        }
        assert(flags@ =~= msv);
        let c: usize = match self.after_context {
            Some(c) => c,
            None => 0,
        };
        let sel = select_lines(&flags, c);
        let ghost sv = selection_view(sel@);
        proof {
            lemma_selection_in_range(flags@, c as int);
        }
        let mut out: Vec<String> = Vec::new();
        let m = sel.len();
        let mut k: usize = 0;
        let ghost full = grep_output(lv, msv, c as int, self.names_files(), opt_str_view(filename));
        while k < m
            invariant
                k <= m,
                m == sel@.len(),
                sv == selection_view(sel@),
                sv == selected_lines(flags@, c as int),
                flags@ == msv,
                flags@.len() == n,
                n == marked@.len(),
                n == lv.len(),
                forall|j: int| 0 <= j < n ==> #[trigger] marked@[j].content@ == lv[j],
                forall|t: int|
                    0 <= t < sv.len() ==> match #[trigger] sv[t] {
                        Some(j) => 0 <= j < flags@.len(),
                        None => true,
                    },
                full == grep_output(lv, msv, c as int, self.names_files(), opt_str_view(filename)),
                full.len() == m,
                out@.len() == k,
                forall|t: int| 0 <= t < k ==> #[trigger] out@[t]@ == full[t],
            decreases m - k,
        {
            assert(sv[k as int] == match sel@[k as int] {
                Some(j) => Some(j as int),
                None => None,
            });
            match sel[k] {
                Some(j) => {
                    assert(sv[k as int] == Some(j as int));
                    let text = self.line_text(marked[j].content.as_str(), filename);
                    assert(full[k as int] == printed_line(self.names_files(), lv[j as int], opt_str_view(filename)));
                    out.push(text);
                },
                None => {
                    let bar: [char; 2] = ['-', '-'];
                    let text = string_of(&bar);
                    assert(text@ =~= seq!['-', '-']);
                    assert(full[k as int] == seq!['-', '-']);
                    out.push(text);
                },
            }
            k = k + 1;
        }
        assert(string_views(out@) =~= full);
        out
    }

    /// Marks each line with whether it matches.
    pub fn mark_lines(&self, lines: Vec<String>) -> (r: Vec<MatchResult>)
        ensures
            r@.len() == lines@.len(),
            forall|i: int|
                #![trigger r@[i]]
                0 <= i < r@.len() ==> r@[i].content@ == lines@[i]@ && r@[i].is_match == regex_finds(
                    self.regex(),
                    self.ignores_case(),
                    lines@[i]@,
                ),
    {
        let ghost lv = lines@;
        let mut r: Vec<MatchResult> = Vec::new();
        let mut line_number: usize = 0;
        let count = lines.len();
        for line in it: lines
            invariant
                lv == it.seq(),
                count == lv.len(),
                r@.len() == it.index(),
                line_number == it.index(),
                forall|i: int|
                    #![trigger r@[i]]
                    0 <= i < r@.len() ==> r@[i].content@ == lv[i]@ && r@[i].is_match == regex_finds(
                        self.regex(),
                        self.ignores_case(),
                        lv[i]@,
                    ),
        {
            let is_match = self.is_match(line.as_str());
            assert(line_number < count);
            line_number = line_number + 1;
            r.push(MatchResult::new(line_number, line, is_match));
        }
        r
    }
}

} // verus!
