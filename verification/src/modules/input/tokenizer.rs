use vstd::prelude::*;

use crate::modules::command::string_views;
use crate::modules::input::errors::{CliError, Result};
use crate::text::{chars_of, string_of};

verus! {

/// Characters that separate words outside quotes.
pub open spec fn is_blank(c: char) -> bool {
    c == ' ' || c == '\t' || c == '\n' || c == '\r'
}

/// Where the lexer stands: outside quotes, inside single quotes or inside
/// double quotes.
#[derive(PartialEq, Eq, Structural, Clone, Copy)]
pub enum LexMode {
    Plain,
    Single,
    Double,
}

/// The words `toks` with the word under construction `cur` closed, if any.
pub open spec fn flush(toks: Seq<Seq<char>>, cur: Seq<char>) -> Seq<Seq<char>> {
    if cur.len() == 0 {
        toks
    } else {
        toks.push(cur)
    }
}

/// Splits the rest `s` of a command line into raw words, given the words
/// `toks` already found and the word `cur` being read. Blanks outside quotes
/// separate words; an unquoted `|` is a word of its own; quotes and
/// backslash escapes stay in the words as written, and a quoted or escaped
/// blank or `|` does not separate. `None` when a quote is left open.
pub open spec fn lex(s: Seq<char>, mode: LexMode, cur: Seq<char>, toks: Seq<Seq<char>>) -> Option<
    Seq<Seq<char>>,
>
    decreases s.len(),
{
    if s.len() == 0 {
        if mode == LexMode::Plain {
            Some(flush(toks, cur))
        } else {
            None
        }
    } else {
        let c = s[0];
        match mode {
            LexMode::Plain => if is_blank(c) {
                lex(s.skip(1), LexMode::Plain, Seq::empty(), flush(toks, cur))
            } else if c == '|' {
                lex(s.skip(1), LexMode::Plain, Seq::empty(), flush(toks, cur).push(seq!['|']))
            } else if c == '\\' && s.len() > 1 {
                lex(s.skip(2), LexMode::Plain, cur.push(c).push(s[1]), toks)
            } else if c == '\'' {
                lex(s.skip(1), LexMode::Single, cur.push(c), toks)
            } else if c == '"' {
                lex(s.skip(1), LexMode::Double, cur.push(c), toks)
            } else {
                lex(s.skip(1), LexMode::Plain, cur.push(c), toks)
            },
            LexMode::Single => lex(
                s.skip(1),
                if c == '\'' {
                    LexMode::Plain
                } else {
                    LexMode::Single
                },
                cur.push(c),
                toks,
            ),
            LexMode::Double => if c == '\\' && s.len() > 1 {
                lex(s.skip(2), LexMode::Double, cur.push(c).push(s[1]), toks)
            } else {
                lex(
                    s.skip(1),
                    if c == '"' {
                        LexMode::Plain
                    } else {
                        LexMode::Double
                    },
                    cur.push(c),
                    toks,
                )
            },
        }
    }
}

/// The raw words of a whole command line.
pub open spec fn tokenized(line: Seq<char>) -> Option<Seq<Seq<char>>> {
    lex(line, LexMode::Plain, Seq::empty(), Seq::empty())
}

/// A character that the lexer keeps in the current word outside quotes
/// without doing anything else.
pub open spec fn is_word_char(c: char) -> bool {
    !is_blank(c) && c != '|' && c != '\\' && c != '\'' && c != '"'
}

/// Outside quotes, a run of ordinary characters joins the current word.
pub(crate) proof fn lemma_lex_plain_run(w: Seq<char>, rest: Seq<char>, cur: Seq<char>, toks: Seq<Seq<char>>)
    requires
        forall|k: int| 0 <= k < w.len() ==> is_word_char(#[trigger] w[k]),
    ensures
        lex(w + rest, LexMode::Plain, cur, toks) == lex(rest, LexMode::Plain, cur + w, toks),
    decreases w.len(),
{
    if w.len() == 0 {
        assert(w + rest =~= rest);
        assert(cur + w =~= cur);
    } else {
        let s = w + rest;
        assert(s[0] == w[0]);
        assert(is_word_char(w[0]));
        assert(s.skip(1) =~= w.skip(1) + rest);
        assert forall|k: int| 0 <= k < w.skip(1).len() implies is_word_char(#[trigger] w.skip(1)[k]) by {
            assert(w.skip(1)[k] == w[k + 1]);
        }
        lemma_lex_plain_run(w.skip(1), rest, cur.push(w[0]), toks);
        assert(cur.push(w[0]) + w.skip(1) =~= cur + w);
    }
}

/// Inside double quotes, text without `"` and `\` joins the current word as
/// it is; a single quote there is an ordinary character.
pub(crate) proof fn lemma_lex_double_run(t: Seq<char>, rest: Seq<char>, cur: Seq<char>, toks: Seq<Seq<char>>)
    requires
        forall|k: int| 0 <= k < t.len() ==> #[trigger] t[k] != '"' && t[k] != '\\',
    ensures
        lex(t + rest, LexMode::Double, cur, toks) == lex(rest, LexMode::Double, cur + t, toks),
    decreases t.len(),
{
    if t.len() == 0 {
        assert(t + rest =~= rest);
        assert(cur + t =~= cur);
    } else {
        let s = t + rest;
        assert(s[0] == t[0]);
        assert(t[0] != '"' && t[0] != '\\');
        assert(s.skip(1) =~= t.skip(1) + rest);
        assert forall|k: int| 0 <= k < t.skip(1).len() implies #[trigger] t.skip(1)[k] != '"' && t.skip(1)[k]
            != '\\' by {
            assert(t.skip(1)[k] == t[k + 1]);
        }
        lemma_lex_double_run(t.skip(1), rest, cur.push(t[0]), toks);
        assert(cur.push(t[0]) + t.skip(1) =~= cur + t);
    }
}

/// A command word followed by a double-quoted text `t` (without `"` or `\`
/// in it) is two words: the command and the quoted text with its quotes.
/// A single quote, a blank or a `|` inside the double quotes neither opens a
/// quote nor separates words.
pub proof fn law_double_quoted_word(w: Seq<char>, t: Seq<char>)
    requires
        w.len() > 0,
        forall|k: int| 0 <= k < w.len() ==> is_word_char(#[trigger] w[k]),
        forall|k: int| 0 <= k < t.len() ==> #[trigger] t[k] != '"' && t[k] != '\\',
    ensures
        tokenized(w + seq![' ', '"'] + t + seq!['"']) == Some(seq![w, seq!['"'] + t + seq!['"']]),
{
    let e = Seq::<char>::empty();
    let none = Seq::<Seq<char>>::empty();
    let line = w + seq![' ', '"'] + t + seq!['"'];
    let r1 = seq![' ', '"'] + t + seq!['"'];
    let r2 = seq!['"'] + t + seq!['"'];
    let r3 = t + seq!['"'];
    let last = seq!['"'];
    let q = seq!['"'] + t;
    assert(line =~= w + r1);
    lemma_lex_plain_run(w, r1, e, none);
    assert(e + w =~= w);
    assert(lex(line, LexMode::Plain, e, none) == lex(r1, LexMode::Plain, w, none));
    assert(r1[0] == ' ');
    assert(r1.skip(1) =~= r2);
    assert(flush(none, w) =~= seq![w]);
    assert(lex(r1, LexMode::Plain, w, none) == lex(r2, LexMode::Plain, e, seq![w]));
    assert(r2[0] == '"');
    assert(r2.skip(1) =~= r3);
    assert(e.push('"') =~= seq!['"']);
    assert(lex(r2, LexMode::Plain, e, seq![w]) == lex(r3, LexMode::Double, seq!['"'], seq![w]));
    lemma_lex_double_run(t, last, seq!['"'], seq![w]);
    assert(lex(r3, LexMode::Double, seq!['"'], seq![w]) == lex(last, LexMode::Double, q, seq![w]));
    assert(last[0] == '"');
    assert(last.skip(1) =~= e);
    assert(lex(last, LexMode::Double, q, seq![w]) == lex(e, LexMode::Plain, q.push('"'), seq![w]));
    assert(q.push('"') =~= seq!['"'] + t + seq!['"']);
    assert(q.push('"').len() > 0);
    assert(lex(e, LexMode::Plain, q.push('"'), seq![w]) == Some(seq![w].push(q.push('"'))));
    assert(seq![w].push(q.push('"')) =~= seq![w, seq!['"'] + t + seq!['"']]);
}

/// Splits a command line into raw words.
pub struct Tokenizer;

impl Tokenizer {
    /// Splits `line` into raw words as `tokenized` says; an open quote is an
    /// error.
    pub fn tokenize(line: &str) -> (r: Result<Vec<String>>)
        ensures
            match r {
                Ok(t) => tokenized(line@) == Some(string_views(t@)),
                Err(e) => tokenized(line@) is None && e == CliError::UnclosedQuote,
            },
    {
        let s = chars_of(line);
        let n = s.len();
        let mut i: usize = 0;
        let mut mode = LexMode::Plain;
        let mut cur: Vec<char> = Vec::new();
        let mut toks: Vec<String> = Vec::new();
        assert(s@.skip(0) =~= s@);
        assert(string_views(toks@) =~= Seq::<Seq<char>>::empty());
        while i < n
            invariant
                i <= n,
                n == s@.len(),
                s@ == line@,
                tokenized(line@) == lex(s@.skip(i as int), mode, cur@, string_views(toks@)),
            decreases n - i,
        {
            let ghost rest = s@.skip(i as int);
            let ghost tv = string_views(toks@);
            assert(rest[0] == s@[i as int]);
            assert(rest.skip(1) =~= s@.skip(i + 1));
            let c = s[i];
            if i + 1 < n {
                assert(rest[1] == s@[i + 1]);
                assert(rest.skip(2) =~= s@.skip(i + 2));
            }
            match mode {
                LexMode::Plain => {
                    if c == ' ' || c == '\t' || c == '\n' || c == '\r' || c == '|' {
                        if cur.len() > 0 {
                            let w = string_of(cur.as_slice());
                            toks.push(w);
                            assert(string_views(toks@) =~= flush(tv, cur@));
                        } else {
                            assert(string_views(toks@) =~= flush(tv, cur@));
                        }
                        cur = Vec::new();
                        if c == '|' {
                            let bar: [char; 1] = ['|'];
                            let w = string_of(&bar);
                            assert(w@ =~= seq!['|']);
                            let ghost tv2 = string_views(toks@);
                            toks.push(w);
                            assert(string_views(toks@) =~= tv2.push(seq!['|']));
                        }
                        i = i + 1;
                    } else if c == '\\' && i + 1 < n {
                        cur.push(c);
                        cur.push(s[i + 1]);
                        i = i + 2;
                    } else if c == '\'' {
                        cur.push(c);
                        mode = LexMode::Single;
                        i = i + 1;
                    } else if c == '"' {
                        cur.push(c);
                        mode = LexMode::Double;
                        i = i + 1;
                    } else {
                        cur.push(c);
                        i = i + 1;
                    }
                },
                LexMode::Single => {
                    cur.push(c);
                    if c == '\'' {
                        mode = LexMode::Plain;
                    }
                    i = i + 1;
                },
                LexMode::Double => {
                    if c == '\\' && i + 1 < n {
                        cur.push(c);
                        cur.push(s[i + 1]);
                        i = i + 2;
                    } else {
                        cur.push(c);
                        if c == '"' {
                            mode = LexMode::Plain;
                        }
                        i = i + 1;
                    }
                },
            }
        }
        assert(s@.skip(i as int) =~= Seq::<char>::empty());
        if mode != LexMode::Plain {
            return Err(CliError::UnclosedQuote);
        }
        let ghost tv = string_views(toks@);
        if cur.len() > 0 {
            let w = string_of(cur.as_slice());
            toks.push(w);
        }
        assert(string_views(toks@) =~= flush(tv, cur@));
        Ok(toks)
    }
}

} // verus!
