use vstd::prelude::*;

use crate::modules::command::string_views;
use crate::modules::environment::Environment;
use crate::modules::input::errors::{CliError, Result};
use crate::modules::input::quote_handler::{word_views, Word};
use crate::text::string_of;

verus! {

/// A character that may start a variable name.
pub open spec fn is_name_start(c: char) -> bool {
    ('a' <= c && c <= 'z') || ('A' <= c && c <= 'Z') || c == '_'
}

/// A character that may continue a variable name.
pub open spec fn is_name_char(c: char) -> bool {
    is_name_start(c) || ('0' <= c && c <= '9')
}

/// The length of the leading run of substitutable name characters of `w`.
pub open spec fn name_run(w: Seq<(char, bool)>) -> nat
    decreases w.len(),
{
    if w.len() > 0 && w[0].1 && is_name_char(w[0].0) {
        1 + name_run(w.skip(1))
    } else {
        0
    }
}

/// The characters of a word, without their flags.
pub open spec fn plain_chars(w: Seq<(char, bool)>) -> Seq<char> {
    w.map_values(|p: (char, bool)| p.0)
}

/// The value of the variable `name`; an unset variable is empty.
pub open spec fn var_value(env: Map<Seq<char>, Seq<char>>, name: Seq<char>) -> Seq<char> {
    if env.contains_key(name) {
        env[name]
    } else {
        Seq::empty()
    }
}

/// `pre` in front of an optional text.
pub open spec fn prepend(pre: Seq<char>, o: Option<Seq<char>>) -> Option<Seq<char>> {
    match o {
        Some(r) => Some(pre + r),
        None => None,
    }
}

/// The text of the word `w` with its variables substituted from `env`: a
/// substitutable `$NAME` (longest run of name characters) or `${NAME}` is
/// replaced by the value of `NAME`; any other `$` stays. A `${` that is not a
/// name closed by `}` makes the word fail.
pub open spec fn expand_word(env: Map<Seq<char>, Seq<char>>, w: Seq<(char, bool)>) -> Option<
    Seq<char>,
>
    decreases w.len(),
{
    if w.len() == 0 {
        Some(Seq::empty())
    } else if w[0] == ('$', true) && w.len() > 1 && w[1] == ('{', true) {
        let k = name_run(w.skip(2)) as int;
        if k > 0 && is_name_start(w[2].0) && w.len() > 2 + k && w[2 + k] == ('}', true) {
            prepend(var_value(env, plain_chars(w.subrange(2, 2 + k))), expand_word(env, w.skip(3 + k)))
        } else {
            None
        }
    } else if w[0] == ('$', true) && w.len() > 1 && w[1].1 && is_name_start(w[1].0) {
        let k = name_run(w.skip(1)) as int;
        proof {
            lemma_name_run_bound(w.skip(1));
        }
        prepend(var_value(env, plain_chars(w.subrange(1, 1 + k))), expand_word(env, w.skip(1 + k)))
    } else {
        prepend(seq![w[0].0], expand_word(env, w.skip(1)))
    }
}

/// A word none of whose characters may substitute is its own text.
pub proof fn lemma_literal_word(env: Map<Seq<char>, Seq<char>>, w: Seq<(char, bool)>)
    requires
        forall|k: int| 0 <= k < w.len() ==> !(#[trigger] w[k]).1,
    ensures
        expand_word(env, w) == Some(plain_chars(w)),
    decreases w.len(),
{
    if w.len() > 0 {
        assert(!w[0].1);
        assert forall|k: int| 0 <= k < w.skip(1).len() implies !(#[trigger] w.skip(1)[k]).1 by {
            assert(w.skip(1)[k] == w[k + 1]);
        }
        lemma_literal_word(env, w.skip(1));
        assert(seq![w[0].0] + plain_chars(w.skip(1)) =~= plain_chars(w));
    } else {
        assert(plain_chars(w) =~= Seq::<char>::empty());
    }
}

/// A word with no `$` in it is its own text.
pub proof fn lemma_word_without_dollar(env: Map<Seq<char>, Seq<char>>, w: Seq<(char, bool)>)
    requires
        forall|k: int| 0 <= k < w.len() ==> (#[trigger] w[k]).0 != '$',
    ensures
        expand_word(env, w) == Some(plain_chars(w)),
    decreases w.len(),
{
    if w.len() > 0 {
        assert(w[0].0 != '$');
        assert forall|k: int| 0 <= k < w.skip(1).len() implies (#[trigger] w.skip(1)[k]).0 != '$' by {
            assert(w.skip(1)[k] == w[k + 1]);
        }
        lemma_word_without_dollar(env, w.skip(1));
        assert(seq![w[0].0] + plain_chars(w.skip(1)) =~= plain_chars(w));
    } else {
        assert(plain_chars(w) =~= Seq::<char>::empty());
    }
}

/// The characters of `t`, each one substitutable.
pub open spec fn substitutable(t: Seq<char>) -> Seq<(char, bool)> {
    t.map_values(|c: char| (c, true))
}

proof fn lemma_name_run_all(t: Seq<char>)
    requires
        forall|k: int| 0 <= k < t.len() ==> is_name_char(#[trigger] t[k]),
    ensures
        name_run(substitutable(t)) == t.len(),
    decreases t.len(),
{
    if t.len() > 0 {
        let w = substitutable(t);
        assert(w.skip(1) =~= substitutable(t.skip(1)));
        assert forall|k: int| 0 <= k < t.skip(1).len() implies is_name_char(#[trigger] t.skip(1)[k]) by {
            assert(t.skip(1)[k] == t[k + 1]);
        }
        assert(is_name_char(t[0]));
        lemma_name_run_all(t.skip(1));
    }
}

/// `$NAME`, with all of it substitutable and `NAME` a variable name, is the
/// value of the variable (empty when it is not set).
pub proof fn law_variable_substituted(env: Map<Seq<char>, Seq<char>>, name: Seq<char>)
    requires
        name.len() > 0,
        is_name_start(name[0]),
        forall|k: int| 0 <= k < name.len() ==> is_name_char(#[trigger] name[k]),
    ensures
        expand_word(env, seq![('$', true)] + substitutable(name)) == Some(var_value(env, name)),
{
    let w = seq![('$', true)] + substitutable(name);
    assert(w.skip(1) =~= substitutable(name));
    lemma_name_run_all(name);
    let k = name.len() as int;
    assert(w[1] == (name[0], true));
    assert(plain_chars(w.subrange(1, 1 + k)) =~= name);
    assert(w.skip(1 + k) =~= Seq::<(char, bool)>::empty());
    assert(expand_word(env, Seq::<(char, bool)>::empty()) == Some(Seq::<char>::empty()));
    assert(w[1] != ('{', true));
    assert(var_value(env, name) + Seq::<char>::empty() =~= var_value(env, name));
}

/// `${NAME}`, with all of it substitutable and `NAME` a variable name, is the
/// value of the variable, the same text as `$NAME` gives: empty when the
/// variable is not set or set to the empty text.
pub proof fn law_braced_variable_substituted(env: Map<Seq<char>, Seq<char>>, name: Seq<char>)
    requires
        name.len() > 0,
        is_name_start(name[0]),
        forall|k: int| 0 <= k < name.len() ==> is_name_char(#[trigger] name[k]),
    ensures
        expand_word(env, seq![('$', true), ('{', true)] + substitutable(name) + seq![('}', true)]) == Some(
            var_value(env, name),
        ),
        expand_word(env, seq![('$', true), ('{', true)] + substitutable(name) + seq![('}', true)])
            == expand_word(env, seq![('$', true)] + substitutable(name)),
        env.contains_key(name) ==> expand_word(
            env,
            seq![('$', true), ('{', true)] + substitutable(name) + seq![('}', true)],
        ) == Some(env[name]),
        !env.contains_key(name) ==> expand_word(
            env,
            seq![('$', true), ('{', true)] + substitutable(name) + seq![('}', true)],
        ) == Some(Seq::<char>::empty()),
{
    let w = seq![('$', true), ('{', true)] + substitutable(name) + seq![('}', true)];
    let k = name.len() as int;
    assert(w.skip(2) =~= substitutable(name) + seq![('}', true)]);
    lemma_name_run_closed(name);
    assert(w[0] == ('$', true));
    assert(w[1] == ('{', true));
    assert(w[2] == (name[0], true));
    assert(w[2 + k] == ('}', true));
    assert(plain_chars(w.subrange(2, 2 + k)) =~= name);
    assert(w.skip(3 + k) =~= Seq::<(char, bool)>::empty());
    assert(expand_word(env, Seq::<(char, bool)>::empty()) == Some(Seq::<char>::empty()));
    assert(var_value(env, name) + Seq::<char>::empty() =~= var_value(env, name));
    law_variable_substituted(env, name);
}

/// The run of name characters of `NAME}` stops at the brace.
proof fn lemma_name_run_closed(t: Seq<char>)
    requires
        forall|k: int| 0 <= k < t.len() ==> is_name_char(#[trigger] t[k]),
    ensures
        name_run(substitutable(t) + seq![('}', true)]) == t.len(),
    decreases t.len(),
{
    let w = substitutable(t) + seq![('}', true)];
    if t.len() == 0 {
        assert(w =~= seq![('}', true)]);
        assert(!is_name_char('}'));
    } else {
        assert(w[0] == (t[0], true));
        assert(is_name_char(t[0]));
        assert(w.skip(1) =~= substitutable(t.skip(1)) + seq![('}', true)]);
        assert forall|k: int| 0 <= k < t.skip(1).len() implies is_name_char(#[trigger] t.skip(1)[k]) by {
            assert(t.skip(1)[k] == t[k + 1]);
        }
        lemma_name_run_closed(t.skip(1));
    }
}

/// The texts of all words, or `None` when one fails.
pub open spec fn expand_all(env: Map<Seq<char>, Seq<char>>, ws: Seq<Seq<(char, bool)>>) -> Option<
    Seq<Seq<char>>,
>
    decreases ws.len(),
{
    if ws.len() == 0 {
        Some(Seq::empty())
    } else {
        match expand_all(env, ws.drop_last()) {
            Some(ts) => match expand_word(env, ws.last()) {
                Some(t) => Some(ts.push(t)),
                None => None,
            },
            None => None,
        }
    }
}

/// A run of name characters is no longer than the word.
pub proof fn lemma_name_run_bound(w: Seq<(char, bool)>)
    ensures
        name_run(w) <= w.len(),
    decreases w.len(),
{
    if w.len() > 0 && w[0].1 && is_name_char(w[0].0) {
        lemma_name_run_bound(w.skip(1));
    }
}

/// Length of the run of substitutable name characters of `w` from `start`.
fn name_run_at(w: &Word, start: usize) -> (k: usize)
    requires
        start <= w@.len(),
    ensures
        k == name_run(w@.skip(start as int)),
        start + k <= w@.len(),
{
    let n = w.len();
    let mut j = start;
    proof {
        lemma_name_run_bound(w@.skip(start as int));
    }
    while j < n && w[j].1 && ('a' <= w[j].0 && w[j].0 <= 'z' || 'A' <= w[j].0 && w[j].0 <= 'Z' || w[j].0
        == '_' || '0' <= w[j].0 && w[j].0 <= '9')
        invariant
            start <= j <= n,
            n == w@.len(),
            name_run(w@.skip(start as int)) == (j - start) + name_run(w@.skip(j as int)),
        decreases n - j,
    {
        assert(w@.skip(j as int).skip(1) =~= w@.skip(j + 1));
        j = j + 1;
    }
    proof {
        lemma_name_run_bound(w@.skip(j as int));
    }
    j - start
}

/// Substitutes environment variables in words.
#[derive(Clone, Copy)]
pub struct Expander;

impl Default for Expander {
    fn default() -> (e: Self)
        ensures
            e == Expander,
    {
        Expander
    }
}

impl Expander {
    /// The text of one word with its variables substituted, or `None` for a
    /// malformed `${`.
    pub fn expand_word(&self, env: &Environment, w: &Word) -> (r: Option<String>)
        ensures
            match r {
                Some(t) => expand_word(env@, w@) == Some(t@),
                None => expand_word(env@, w@) is None,
            },
    {
        let n = w.len();
        let mut out: Vec<char> = Vec::new();
        let mut i: usize = 0;
        assert(w@.skip(0) =~= w@);
        assert(out@ + Seq::<char>::empty() =~= out@);
        while i < n
            invariant
                i <= n,
                n == w@.len(),
                expand_word(env@, w@) == prepend(out@, expand_word(env@, w@.skip(i as int))),
            decreases n - i,
        {
            let ghost rest = w@.skip(i as int);
            assert(rest[0] == w@[i as int]);
            if i + 1 < n {
                assert(rest[1] == w@[i + 1]);
            }
            let ghost before = out@;
            if w[i].0 == '$' && w[i].1 && i + 1 < n && w[i + 1].0 == '{' && w[i + 1].1 {
                let k = name_run_at(w, i + 2);
                assert(rest.skip(2) =~= w@.skip(i + 2));
                if k > 0 && i + 2 + k < n && w[i + 2 + k].0 == '}' && w[i + 2 + k].1 && ('a' <= w[i + 2].0
                    && w[i + 2].0 <= 'z' || 'A' <= w[i + 2].0 && w[i + 2].0 <= 'Z' || w[i + 2].0 == '_') {
                    assert(rest[2] == w@[i + 2]);
                    assert(rest[2 + k] == w@[i + 2 + k]);
                    let value = lookup(env, w, i + 2, i + 2 + k);
                    assert(rest.subrange(2, 2 + k as int) =~= w@.subrange(i + 2, i + 2 + k));
                    assert(rest.skip(3 + k as int) =~= w@.skip(i + 3 + k));
                    append_chars(&mut out, &value);
                    i = i + 3 + k;
                } else {
                    if k > 0 {
                        assert(rest[2] == w@[i + 2]);
                    }
                    if i + 2 + k < n {
                        assert(rest[2 + k] == w@[i + 2 + k]);
                    }
                    return None;
                }
            } else if w[i].0 == '$' && w[i].1 && i + 1 < n && w[i + 1].1 && ('a' <= w[i + 1].0 && w[i
                + 1].0 <= 'z' || 'A' <= w[i + 1].0 && w[i + 1].0 <= 'Z' || w[i + 1].0 == '_') {
                let k = name_run_at(w, i + 1);
                assert(rest.skip(1) =~= w@.skip(i + 1));
                let value = lookup(env, w, i + 1, i + 1 + k);
                assert(rest.subrange(1, 1 + k as int) =~= w@.subrange(i + 1, i + 1 + k));
                assert(rest.skip(1 + k as int) =~= w@.skip(i + 1 + k));
                append_chars(&mut out, &value);
                i = i + 1 + k;
            } else {
                assert(rest.skip(1) =~= w@.skip(i + 1));
                out.push(w[i].0);
                assert(out@ =~= before + seq![w@[i as int].0]);
                i = i + 1;
            }
            proof {
                match expand_word(env@, w@.skip(i as int)) {
                    Some(r) => {
                        assert(before + (out@.subrange(before.len() as int, out@.len() as int) + r)
                            =~= out@ + r);
                    },
                    None => {},
                }
            }
        }
        assert(w@.skip(n as int) =~= Seq::<(char, bool)>::empty());
        assert(out@ + Seq::<char>::empty() =~= out@);
        Some(string_of(out.as_slice()))
    }

    /// The texts of all words with their variables substituted; a malformed
    /// `${` in any word is an error.
    pub fn expand_tokens(&self, env: &Environment, tokens: Vec<Word>) -> (r: Result<Vec<String>>)
        ensures
            match r {
                Ok(ts) => expand_all(env@, word_views(tokens@)) == Some(string_views(ts@)),
                Err(e) => expand_all(env@, word_views(tokens@)) is None && e == CliError::BadSubstitution,
            },
    {
        let ghost wv = word_views(tokens@);
        let mut out: Vec<String> = Vec::new();
        let n = tokens.len();
        let mut i: usize = 0;
        assert(wv.take(0) =~= Seq::<Seq<(char, bool)>>::empty());
        assert(string_views(out@) =~= Seq::<Seq<char>>::empty());
        while i < n
            invariant
                i <= n,
                n == tokens@.len(),
                wv == word_views(tokens@),
                expand_all(env@, wv.take(i as int)) == Some(string_views(out@)),
            decreases n - i,
        {
            assert(wv.take(i + 1).drop_last() =~= wv.take(i as int));
            assert(wv.take(i + 1).last() == tokens@[i as int]@);
            match self.expand_word(env, &tokens[i]) {
                Some(t) => {
                    let ghost before = string_views(out@);
                    out.push(t);
                    assert(string_views(out@) =~= before.push(out@.last()@));
                },
                None => {
                    proof {
                        lemma_expand_all_fails(env@, wv, i as int + 1);
                    }
                    return Err(CliError::BadSubstitution);
                },
            }
            i = i + 1;
        }
        assert(wv.take(n as int) =~= wv);
        Ok(out)
    }
}

/// Once a prefix of the words fails, every longer prefix fails too.
proof fn lemma_expand_all_fails(env: Map<Seq<char>, Seq<char>>, wv: Seq<Seq<(char, bool)>>, k: int)
    requires
        0 < k <= wv.len(),
        expand_all(env, wv.take(k)) is None,
    ensures
        expand_all(env, wv) is None,
    decreases wv.len() - k,
{
    if k < wv.len() {
        assert(wv.take(k + 1).drop_last() =~= wv.take(k));
        lemma_expand_all_fails(env, wv, k + 1);
    } else {
        assert(wv.take(k) =~= wv);
    }
}

/// The value of the variable whose name is `w[from..to]`, empty when unset.
fn lookup(env: &Environment, w: &Word, from: usize, to: usize) -> (v: Vec<char>)
    requires
        from <= to <= w@.len(),
    ensures
        v@ == var_value(env@, plain_chars(w@.subrange(from as int, to as int))),
{
    let mut name: Vec<char> = Vec::new();
    let mut j = from;
    while j < to
        invariant
            from <= j <= to <= w@.len(),
            name@ == plain_chars(w@.subrange(from as int, j as int)),
        decreases to - j,
    {
        name.push(w[j].0);
        assert(plain_chars(w@.subrange(from as int, j + 1)) =~= plain_chars(
            w@.subrange(from as int, j as int),
        ).push(w@[j as int].0));
        j = j + 1;
    }
    let key = string_of(name.as_slice());
    match env.get(key.as_str()) {
        Some(value) => crate::text::chars_of(value),
        None => Vec::new(),
    }
}

/// Appends the characters of `src` to `dst`.
fn append_chars(dst: &mut Vec<char>, src: &Vec<char>)
    ensures
        final(dst)@ == old(dst)@ + src@,
{
    let n = src.len();
    let mut i: usize = 0;
    while i < n
        invariant
            i <= n,
            n == src@.len(),
            dst@ == old(dst)@ + src@.take(i as int),
        decreases n - i,
    {
        dst.push(src[i]);
        assert(src@.take(i + 1) =~= src@.take(i as int).push(src@[i as int]));
        i = i + 1;
    }
    assert(src@.take(n as int) =~= src@);
}

} // verus!
