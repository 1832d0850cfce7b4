use vstd::prelude::*;

use crate::modules::command::string_views;
use crate::modules::input::errors::{CliError, Result};
use crate::modules::input::expander::{
    expand_word,
    is_name_char,
    is_name_start,
    law_variable_substituted,
    lemma_literal_word,
    plain_chars,
    substitutable,
    var_value,
};
use crate::modules::input::tokenizer::LexMode;
use crate::text::chars_of;

verus! {

/// A word after quote removal: each character with whether it was written
/// outside single quotes and unescaped, so that `$` in it may start a
/// variable substitution and it may belong to a variable name.
pub type Word = Vec<(char, bool)>;

/// Removes the quotes and escapes of the rest `s` of a raw word, appending
/// to `acc`. Outside quotes a backslash makes the next character literal;
/// single quotes make everything literal; inside double quotes a backslash
/// makes a following `"`, `\` or `$` literal and is kept before any other
/// character. `None` when a quote is left open.
pub open spec fn unquote(s: Seq<char>, mode: LexMode, acc: Seq<(char, bool)>) -> Option<
    Seq<(char, bool)>,
>
    decreases s.len(),
{
    if s.len() == 0 {
        if mode == LexMode::Plain {
            Some(acc)
        } else {
            None
        }
    } else {
        let c = s[0];
        match mode {
            LexMode::Plain => if c == '\'' {
                unquote(s.skip(1), LexMode::Single, acc)
            } else if c == '"' {
                unquote(s.skip(1), LexMode::Double, acc)
            } else if c == '\\' && s.len() > 1 {
                unquote(s.skip(2), LexMode::Plain, acc.push((s[1], false)))
            } else if c == '\\' {
                unquote(s.skip(1), LexMode::Plain, acc.push((c, false)))
            } else {
                unquote(s.skip(1), LexMode::Plain, acc.push((c, true)))
            },
            LexMode::Single => if c == '\'' {
                unquote(s.skip(1), LexMode::Plain, acc)
            } else {
                unquote(s.skip(1), LexMode::Single, acc.push((c, false)))
            },
            LexMode::Double => if c == '"' {
                unquote(s.skip(1), LexMode::Plain, acc)
            } else if c == '\\' && s.len() > 1 && (s[1] == '"' || s[1] == '\\' || s[1] == '$') {
                unquote(s.skip(2), LexMode::Double, acc.push((s[1], false)))
            } else {
                unquote(s.skip(1), LexMode::Double, acc.push((c, true)))
            },
        }
    }
}

/// The characters of `t`, all literal.
pub open spec fn literal(t: Seq<char>) -> Seq<(char, bool)> {
    t.map_values(|c: char| (c, false))
}

proof fn lemma_unquote_single(t: Seq<char>, acc: Seq<(char, bool)>)
    requires
        forall|k: int| 0 <= k < t.len() ==> #[trigger] t[k] != '\'',
    ensures
        unquote(t + seq!['\''], LexMode::Single, acc) == Some(acc + literal(t)),
    decreases t.len(),
{
    let s = t + seq!['\''];
    if t.len() == 0 {
        assert(s =~= seq!['\'']);
        assert(s[0] == '\'');
        assert(s.skip(1) =~= Seq::<char>::empty());
        assert(unquote(s.skip(1), LexMode::Plain, acc) == Some(acc));
        assert(acc + literal(t) =~= acc);
    } else {
        assert(s[0] == t[0]);
        assert(t[0] != '\'');
        assert(s.skip(1) =~= t.skip(1) + seq!['\'']);
        assert forall|k: int| 0 <= k < t.skip(1).len() implies #[trigger] t.skip(1)[k] != '\'' by {
            assert(t.skip(1)[k] == t[k + 1]);
        }
        lemma_unquote_single(t.skip(1), acc.push((t[0], false)));
        assert(acc.push((t[0], false)) + literal(t.skip(1)) =~= acc + literal(t));
    }
}

/// Text in single quotes is taken literally: the raw word `'t'` (with no
/// single quote inside `t`) becomes `t` with no variable substituted, under
/// any environment.
pub proof fn law_single_quotes_literal(env: Map<Seq<char>, Seq<char>>, t: Seq<char>)
    requires
        forall|k: int| 0 <= k < t.len() ==> #[trigger] t[k] != '\'',
    ensures
        unquote(seq!['\''] + t + seq!['\''], LexMode::Plain, Seq::empty()) == Some(literal(t)),
        expand_word(env, literal(t)) == Some(t),
{
    let s = seq!['\''] + t + seq!['\''];
    assert(s.skip(1) =~= t + seq!['\'']);
    lemma_unquote_single(t, Seq::empty());
    assert(Seq::<(char, bool)>::empty() + literal(t) =~= literal(t));
    lemma_literal_word(env, literal(t));
    assert(plain_chars(literal(t)) =~= t);
}

proof fn lemma_unquote_name_chars(t: Seq<char>, rest: Seq<char>, mode: LexMode, acc: Seq<(char, bool)>)
    requires
        mode == LexMode::Plain || mode == LexMode::Double,
        forall|k: int| 0 <= k < t.len() ==> is_name_char(#[trigger] t[k]),
    ensures
        unquote(t + rest, mode, acc) == unquote(rest, mode, acc + substitutable(t)),
    decreases t.len(),
{
    if t.len() == 0 {
        assert(t + rest =~= rest);
        assert(acc + substitutable(t) =~= acc);
    } else {
        let s = t + rest;
        assert(s[0] == t[0]);
        assert(is_name_char(t[0]));
        assert(s.skip(1) =~= t.skip(1) + rest);
        assert forall|k: int| 0 <= k < t.skip(1).len() implies is_name_char(#[trigger] t.skip(1)[k]) by {
            assert(t.skip(1)[k] == t[k + 1]);
        }
        lemma_unquote_name_chars(t.skip(1), rest, mode, acc.push((t[0], true)));
        assert(acc.push((t[0], true)) + substitutable(t.skip(1)) =~= acc + substitutable(t));
    }
}

/// Variables are substituted outside quotes and inside double quotes: the raw
/// words `$NAME` and `"$NAME"` (with `NAME` a variable name) both become the
/// value of the variable, empty when it is not set.
pub proof fn law_variables_substituted(env: Map<Seq<char>, Seq<char>>, name: Seq<char>)
    requires
        name.len() > 0,
        is_name_start(name[0]),
        forall|k: int| 0 <= k < name.len() ==> is_name_char(#[trigger] name[k]),
    ensures
        unquote(seq!['$'] + name, LexMode::Plain, Seq::empty()) == Some(seq![('$', true)] + substitutable(name)),
        unquote(seq!['"', '$'] + name + seq!['"'], LexMode::Plain, Seq::empty()) == Some(
            seq![('$', true)] + substitutable(name),
        ),
        expand_word(env, seq![('$', true)] + substitutable(name)) == Some(var_value(env, name)),
{
    let e: Seq<(char, bool)> = Seq::empty();
    let one = seq![('$', true)];
    let plain = seq!['$'] + name;
    assert(plain[0] == '$');
    assert(plain.skip(1) =~= name + Seq::<char>::empty());
    lemma_unquote_name_chars(name, Seq::empty(), LexMode::Plain, e.push(('$', true)));
    assert(e.push(('$', true)) =~= one);
    let quoted = seq!['"', '$'] + name + seq!['"'];
    assert(quoted[0] == '"');
    assert(quoted.skip(1)[0] == '$');
    assert(quoted.skip(1).skip(1) =~= name + seq!['"']);
    lemma_unquote_name_chars(name, seq!['"'], LexMode::Double, one);
    let closing = seq!['"'];
    let acc = one + substitutable(name);
    assert(closing[0] == '"');
    assert(closing.skip(1) =~= Seq::<char>::empty());
    assert(unquote(Seq::<char>::empty(), LexMode::Plain, acc) == Some(acc));
    assert(unquote(closing, LexMode::Double, acc) == Some(acc));
    assert(unquote(name + closing, LexMode::Double, one) == Some(acc));
    assert(unquote(quoted.skip(1).skip(1), LexMode::Double, one) == Some(acc));
    assert(unquote(quoted.skip(1), LexMode::Double, e) == unquote(quoted.skip(1).skip(1), LexMode::Double, e.push(('$', true))));
    assert(unquote(quoted, LexMode::Plain, e) == unquote(quoted.skip(1), LexMode::Double, e));
    law_variable_substituted(env, name);
}

/// Outside quotes, characters other than quotes and backslashes are kept,
/// each one substitutable.
pub(crate) proof fn lemma_unquote_plain_run(w: Seq<char>, rest: Seq<char>, acc: Seq<(char, bool)>)
    requires
        forall|k: int| 0 <= k < w.len() ==> #[trigger] w[k] != '\'' && w[k] != '"' && w[k] != '\\',
    ensures
        unquote(w + rest, LexMode::Plain, acc) == unquote(rest, LexMode::Plain, acc + substitutable(w)),
    decreases w.len(),
{
    if w.len() == 0 {
        assert(w + rest =~= rest);
        assert(acc + substitutable(w) =~= acc);
    } else {
        let s = w + rest;
        assert(s[0] == w[0]);
        assert(s.skip(1) =~= w.skip(1) + rest);
        assert forall|k: int| 0 <= k < w.skip(1).len() implies #[trigger] w.skip(1)[k] != '\'' && w.skip(1)[k]
            != '"' && w.skip(1)[k] != '\\' by {
            assert(w.skip(1)[k] == w[k + 1]);
        }
        lemma_unquote_plain_run(w.skip(1), rest, acc.push((w[0], true)));
        assert(acc.push((w[0], true)) + substitutable(w.skip(1)) =~= acc + substitutable(w));
    }
}

/// Inside double quotes, text without `"` and backslashes is kept, each
/// character substitutable; a single quote there is an ordinary character.
pub(crate) proof fn lemma_unquote_double_run(t: Seq<char>, rest: Seq<char>, acc: Seq<(char, bool)>)
    requires
        forall|k: int| 0 <= k < t.len() ==> #[trigger] t[k] != '"' && t[k] != '\\',
    ensures
        unquote(t + rest, LexMode::Double, acc) == unquote(rest, LexMode::Double, acc + substitutable(t)),
    decreases t.len(),
{
    if t.len() == 0 {
        assert(t + rest =~= rest);
        assert(acc + substitutable(t) =~= acc);
    } else {
        let s = t + rest;
        assert(s[0] == t[0]);
        assert(s.skip(1) =~= t.skip(1) + rest);
        assert forall|k: int| 0 <= k < t.skip(1).len() implies #[trigger] t.skip(1)[k] != '"' && t.skip(1)[k]
            != '\\' by {
            assert(t.skip(1)[k] == t[k + 1]);
        }
        lemma_unquote_double_run(t.skip(1), rest, acc.push((t[0], true)));
        assert(acc.push((t[0], true)) + substitutable(t.skip(1)) =~= acc + substitutable(t));
    }
}

/// The raw word `"t"`, with no `"` or backslash in `t`, is `t` with every
/// character substitutable, single quotes included.
pub proof fn law_double_quotes_removed(t: Seq<char>)
    requires
        forall|k: int| 0 <= k < t.len() ==> #[trigger] t[k] != '"' && t[k] != '\\',
    ensures
        unquote(seq!['"'] + t + seq!['"'], LexMode::Plain, Seq::empty()) == Some(substitutable(t)),
{
    let e = Seq::<(char, bool)>::empty();
    let s = seq!['"'] + t + seq!['"'];
    assert(s[0] == '"');
    assert(s.skip(1) =~= t + seq!['"']);
    lemma_unquote_double_run(t, seq!['"'], e);
    assert(e + substitutable(t) =~= substitutable(t));
    let last = seq!['"'];
    assert(last[0] == '"');
    assert(last.skip(1) =~= Seq::<char>::empty());
    assert(unquote(last, LexMode::Double, substitutable(t)) == unquote(
        Seq::<char>::empty(),
        LexMode::Plain,
        substitutable(t),
    ));
}

/// The words of `raw` after quote removal, or `None` when one of them leaves
/// a quote open.
pub open spec fn unquoted_all(raw: Seq<Seq<char>>) -> Option<Seq<Seq<(char, bool)>>>
    decreases raw.len(),
{
    if raw.len() == 0 {
        Some(Seq::empty())
    } else {
        match unquoted_all(raw.drop_last()) {
            Some(ws) => match unquote(raw.last(), LexMode::Plain, Seq::empty()) {
                Some(w) => Some(ws.push(w)),
                None => None,
            },
            None => None,
        }
    }
}

/// The views of a list of words.
pub open spec fn word_views(ws: Seq<Word>) -> Seq<Seq<(char, bool)>> {
    ws.map_values(|w: Word| w@)
}

/// Removes quotes and escapes from raw words.
pub struct QuoteHandler;

impl QuoteHandler {
    /// Removes the quotes and escapes of one raw word.
    pub fn handle_word(raw: &str) -> (r: Option<Word>)
        ensures
            match r {
                Some(w) => unquote(raw@, LexMode::Plain, Seq::empty()) == Some(w@),
                None => unquote(raw@, LexMode::Plain, Seq::empty()) is None,
            },
    {
        let s = chars_of(raw);
        let n = s.len();
        let mut i: usize = 0;
        let mut mode = LexMode::Plain;
        let mut acc: Word = Vec::new();
        assert(s@.skip(0) =~= s@);
        while i < n
            invariant
                i <= n,
                n == s@.len(),
                s@ == raw@,
                unquote(raw@, LexMode::Plain, Seq::empty()) == unquote(s@.skip(i as int), mode, acc@),
            decreases n - i,
        {
            let ghost rest = s@.skip(i as int);
            assert(rest[0] == s@[i as int]);
            assert(rest.skip(1) =~= s@.skip(i + 1));
            if i + 1 < n {
                assert(rest[1] == s@[i + 1]);
                assert(rest.skip(2) =~= s@.skip(i + 2));
            }
            let c = s[i];
            match mode {
                LexMode::Plain => {
                    if c == '\'' {
                        mode = LexMode::Single;
                        i = i + 1;
                    } else if c == '"' {
                        mode = LexMode::Double;
                        i = i + 1;
                    } else if c == '\\' && i + 1 < n {
                        acc.push((s[i + 1], false));
                        i = i + 2;
                    } else if c == '\\' {
                        acc.push((c, false));
                        i = i + 1;
                    } else {
                        acc.push((c, true));
                        i = i + 1;
                    }
                },
                LexMode::Single => {
                    if c == '\'' {
                        mode = LexMode::Plain;
                    } else {
                        acc.push((c, false));
                    }
                    i = i + 1;
                },
                LexMode::Double => {
                    if c == '"' {
                        mode = LexMode::Plain;
                        i = i + 1;
                    } else if c == '\\' && i + 1 < n && (s[i + 1] == '"' || s[i + 1] == '\\' || s[i
                        + 1] == '$') {
                        acc.push((s[i + 1], false));
                        i = i + 2;
                    } else {
                        acc.push((c, true));
                        i = i + 1;
                    }
                },
            }
        }
        assert(s@.skip(i as int) =~= Seq::<char>::empty());
        if mode == LexMode::Plain {
            Some(acc)
        } else {
            None
        }
    }

    /// Removes the quotes and escapes of every raw word; an open quote in any
    /// of them is an error.
    pub fn handle(raw: &Vec<String>) -> (r: Result<Vec<Word>>)
        ensures
            match r {
                Ok(ws) => unquoted_all(string_views(raw@)) == Some(word_views(ws@)),
                Err(e) => unquoted_all(string_views(raw@)) is None && e == CliError::UnclosedQuote,
            },
    {
        let ghost rv = string_views(raw@);
        let mut out: Vec<Word> = Vec::new();
        let n = raw.len();
        let mut i: usize = 0;
        assert(rv.take(0) =~= Seq::<Seq<char>>::empty());
        assert(word_views(out@) =~= Seq::<Seq<(char, bool)>>::empty());
        while i < n
            invariant
                i <= n,
                n == raw@.len(),
                rv == string_views(raw@),
                unquoted_all(rv.take(i as int)) == Some(word_views(out@)),
            decreases n - i,
        {
            assert(rv.take(i + 1).drop_last() =~= rv.take(i as int));
            assert(rv.take(i + 1).last() == raw@[i as int]@);
            match QuoteHandler::handle_word(raw[i].as_str()) {
                Some(w) => {
                    let ghost before = word_views(out@);
                    out.push(w);
                    assert(word_views(out@) =~= before.push(out@.last()@));
                },
                None => {
                    proof {
                        lemma_unquoted_all_fails(rv, i as int + 1);
                    }
                    return Err(CliError::UnclosedQuote);
                },
            }
            i = i + 1;
        }
        assert(rv.take(n as int) =~= rv);
        Ok(out)
    }
}

/// Once a prefix of the words fails, every longer prefix fails too.
proof fn lemma_unquoted_all_fails(rv: Seq<Seq<char>>, k: int)
    requires
        0 < k <= rv.len(),
        unquoted_all(rv.take(k)) is None,
    ensures
        unquoted_all(rv) is None,
    decreases rv.len() - k,
{
    if k < rv.len() {
        assert(rv.take(k + 1).drop_last() =~= rv.take(k));
        lemma_unquoted_all_fails(rv, k + 1);
    } else {
        assert(rv.take(k) =~= rv);
    }
}

} // verus!
