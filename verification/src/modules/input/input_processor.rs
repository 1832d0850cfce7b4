use vstd::prelude::*;

use crate::modules::command::{opt_view, plain_command, string_views, Command, CommandView};
use crate::modules::environment::Environment;
use crate::modules::input::errors::{CliError, Result};
use crate::modules::input::expander::{
    expand_all,
    expand_word,
    lemma_word_without_dollar,
    plain_chars,
    substitutable,
    Expander,
};
use crate::modules::input::quote_handler::{
    law_double_quotes_removed,
    lemma_unquote_plain_run,
    unquote,
    unquoted_all,
    QuoteHandler,
};
use crate::modules::input::tokenizer::{is_word_char, law_double_quoted_word, tokenized, LexMode, Tokenizer};
use crate::text::chars_of;

verus! {

/// An ASCII decimal digit.
pub open spec fn is_digit(c: char) -> bool {
    '0' <= c && c <= '9'
}

/// The value of a sequence of decimal digits, most significant first.
pub open spec fn digits_value(s: Seq<char>) -> nat
    decreases s.len(),
{
    if s.len() == 0 {
        0
    } else {
        digits_value(s.drop_last()) * 10 + ((s.last() as int - '0' as int) as nat)
    }
}

/// The text after an optional leading `+`.
pub open spec fn unsigned_part(s: Seq<char>) -> Seq<char> {
    if s.len() > 0 && s[0] == '+' {
        s.skip(1)
    } else {
        s
    }
}

/// Every character is a decimal digit.
pub open spec fn all_digits(d: Seq<char>) -> bool {
    forall|i: int| 0 <= i < d.len() ==> is_digit(#[trigger] d[i])
}

/// What `str::parse::<u32>` gives: an optional `+` followed by at least one
/// decimal digit, whose value fits in a `u32`.
pub open spec fn parse_u32(s: Seq<char>) -> Option<u32> {
    let d = unsigned_part(s);
    if d.len() > 0 && all_digits(d) && digits_value(d) <= u32::MAX {
        Some(digits_value(d) as u32)
    } else {
        None
    }
}

/// A prefix of digits is worth no more than the whole.
proof fn lemma_digits_value_prefix(s: Seq<char>, k: int)
    requires
        0 <= k <= s.len(),
        forall|i: int| 0 <= i < s.len() ==> is_digit(#[trigger] s[i]),
    ensures
        digits_value(s.take(k)) <= digits_value(s),
    decreases s.len(),
{
    if k < s.len() {
        assert(s.drop_last().take(k) =~= s.take(k));
        lemma_digits_value_prefix(s.drop_last(), k);
    } else {
        assert(s.take(k) =~= s);
    }
}

/// Reads a `u32` written in decimal, as `str::parse::<u32>` does.
pub fn parse_number(s: &[char]) -> (r: Option<u32>)
    ensures
        r == parse_u32(s@),
{
    let n = s.len();
    let start: usize = if n > 0 && s[0] == '+' { 1 } else { 0 };
    let ghost d = unsigned_part(s@);
    assert(d =~= s@.skip(start as int));
    if start == n {
        return None;
    }
    let mut value: u64 = 0;
    let mut i = start;
    while i < n
        invariant
            start <= i <= n,
            n == s@.len(),
            d == s@.skip(start as int),
            d == unsigned_part(s@),
            value == digits_value(d.take(i - start)),
            value <= u32::MAX,
            forall|j: int| 0 <= j < i - start ==> is_digit(#[trigger] d[j]),
        decreases n - i,
    {
        let c = s[i];
        if !('0' <= c && c <= '9') {
            assert(!is_digit(d[i - start]));
            return None;
        }
        let ghost k = i - start;
        assert(d.take(k + 1).drop_last() =~= d.take(k));
        let digit = (c as u64) - ('0' as u64);
        let next = value * 10 + digit;
        assert(next == digits_value(d.take(k + 1)));
        if next > 0xffff_ffffu64 {
            proof {
                if all_digits(d) {
                    lemma_digits_value_prefix(d, k + 1);
                }
            }
            return None;
        }
        value = next;
        i = i + 1;
    }
    assert(d.take(n - start) =~= d);
    Some(value as u32)
}

/// What `parse_fd_redirect` recognises: a descriptor number followed by `>>`
/// (append) or `>` (overwrite).
pub open spec fn fd_redirect(s: Seq<char>) -> Option<(u32, bool)> {
    if s.len() >= 2 && s[s.len() - 1] == '>' && s[s.len() - 2] == '>' {
        match parse_u32(s.take(s.len() - 2)) {
            Some(fd) => Some((fd, true)),
            None => None,
        }
    } else if s.len() >= 1 && s[s.len() - 1] == '>' {
        match parse_u32(s.take(s.len() - 1)) {
            Some(fd) => Some((fd, false)),
            None => None,
        }
    } else {
        None
    }
}

/// Parses descriptor redirections such as `2>`, `3>>` or `1>`: the descriptor
/// number and whether the redirection appends.
pub fn parse_fd_redirect(s: &str) -> (r: Option<(u32, bool)>)
    ensures
        r == fd_redirect(s@),
{
    let v = chars_of(s);
    let n = v.len();
    if n >= 2 && v[n - 1] == '>' && v[n - 2] == '>' {
        let head = slice_prefix(&v, n - 2);
        match parse_number(head.as_slice()) {
            Some(fd) => Some((fd, true)),
            None => None,
        }
    } else if n >= 1 && v[n - 1] == '>' {
        let head = slice_prefix(&v, n - 1);
        match parse_number(head.as_slice()) {
            Some(fd) => Some((fd, false)),
            None => None,
        }
    } else {
        None
    }
}

/// The first `k` characters of `v`.
fn slice_prefix(v: &Vec<char>, k: usize) -> (r: Vec<char>)
    requires
        k <= v@.len(),
    ensures
        r@ == v@.take(k as int),
{
    let mut r: Vec<char> = Vec::new();
    let mut i: usize = 0;
    while i < k
        invariant
            i <= k <= v@.len(),
            r@ == v@.take(i as int),
        decreases k - i,
    {
        r.push(v[i]);
        assert(v@.take(i + 1) =~= v@.take(i as int).push(v@[i as int]));
        i = i + 1;
    }
    r
}

/// What a word of a command does to the command that it belongs to.
#[derive(PartialEq, Eq, Structural)]
pub enum PieceRole {
    /// An argument of the command.
    Argument,
    /// Standard input comes from the next word.
    Input,
    /// Standard output goes to the next word, appending when the flag holds.
    Output(bool),
    /// Standard error goes to the next word, appending when the flag holds.
    Error(bool),
    /// A redirection of another descriptor: it and the next word stay arguments.
    OtherDescriptor,
}

/// The role of the word `p`.
pub open spec fn piece_role(p: Seq<char>) -> PieceRole {
    if p == seq!['<'] || p == seq!['0', '<'] {
        PieceRole::Input
    } else if p == seq!['>'] || p == seq!['1', '>'] {
        PieceRole::Output(false)
    } else if p == seq!['>', '>'] || p == seq!['1', '>', '>'] {
        PieceRole::Output(true)
    } else if p == seq!['2', '>'] {
        PieceRole::Error(false)
    } else if p == seq!['2', '>', '>'] {
        PieceRole::Error(true)
    } else {
        match fd_redirect(p) {
            Some((fd, append)) => if fd == 0 && !append {
                PieceRole::Input
            } else if fd == 1 {
                PieceRole::Output(append)
            } else if fd == 2 {
                PieceRole::Error(append)
            } else {
                PieceRole::OtherDescriptor
            },
            None => PieceRole::Argument,
        }
    }
}

/// Whether the characters of `v` are those of `w`.
fn chars_are(v: &Vec<char>, w: &[char]) -> (r: bool)
    ensures
        r == (v@ == w@),
{
    if v.len() != w.len() {
        return false;
    }
    let n = v.len();
    let mut i: usize = 0;
    while i < n
        invariant
            n == v@.len(),
            n == w@.len(),
            i <= n,
            forall|j: int| 0 <= j < i ==> v@[j] == w@[j],
        decreases n - i,
    {
        if v[i] != w[i] {
            assert(v@[i as int] != w@[i as int]);
            return false;
        }
        i = i + 1;
    }
    assert(v@ =~= w@);
    true
}

/// Tells what the word `p` does to its command.
pub fn role_of(p: &str) -> (r: PieceRole)
    ensures
        r == piece_role(p@),
{
    let v = chars_of(p);
    let lt: [char; 1] = ['<'];
    let zero_lt: [char; 2] = ['0', '<'];
    let gt: [char; 1] = ['>'];
    let one_gt: [char; 2] = ['1', '>'];
    let gtgt: [char; 2] = ['>', '>'];
    let one_gtgt: [char; 3] = ['1', '>', '>'];
    let two_gt: [char; 2] = ['2', '>'];
    let two_gtgt: [char; 3] = ['2', '>', '>'];
    assert(lt@ =~= seq!['<']);
    assert(zero_lt@ =~= seq!['0', '<']);
    assert(gt@ =~= seq!['>']);
    assert(one_gt@ =~= seq!['1', '>']);
    assert(gtgt@ =~= seq!['>', '>']);
    assert(one_gtgt@ =~= seq!['1', '>', '>']);
    assert(two_gt@ =~= seq!['2', '>']);
    assert(two_gtgt@ =~= seq!['2', '>', '>']);
    if chars_are(&v, &lt) || chars_are(&v, &zero_lt) {
        PieceRole::Input
    } else if chars_are(&v, &gt) || chars_are(&v, &one_gt) {
        PieceRole::Output(false)
    } else if chars_are(&v, &gtgt) || chars_are(&v, &one_gtgt) {
        PieceRole::Output(true)
    } else if chars_are(&v, &two_gt) {
        PieceRole::Error(false)
    } else if chars_are(&v, &two_gtgt) {
        PieceRole::Error(true)
    } else {
        match parse_fd_redirect(p) {
            Some((fd, append)) => if fd == 0 && !append {
                PieceRole::Input
            } else if fd == 1 {
                PieceRole::Output(append)
            } else if fd == 2 {
                PieceRole::Error(append)
            } else {
                PieceRole::OtherDescriptor
            },
            None => PieceRole::Argument,
        }
    }
}

/// Applies the words `rest` to the command `acc` from left to right: a
/// redirection takes the word after it (or nothing at the end) as its file,
/// and a later redirection of a stream replaces an earlier one.
pub open spec fn scan_pieces(rest: Seq<Seq<char>>, acc: CommandView) -> CommandView
    decreases rest.len(),
{
    if rest.len() == 0 {
        acc
    } else {
        let p = rest[0];
        let target = if rest.len() > 1 { Some(rest[1]) } else { None };
        let after = if rest.len() > 1 { rest.skip(2) } else { rest.skip(1) };
        match piece_role(p) {
            PieceRole::Argument => scan_pieces(rest.skip(1), CommandView { args: acc.args.push(p), ..acc }),
            PieceRole::Input => scan_pieces(after, CommandView { stdin: target, ..acc }),
            PieceRole::Output(a) => scan_pieces(
                after,
                CommandView { stdout: target, append_stdout: a, ..acc },
            ),
            PieceRole::Error(a) => scan_pieces(
                after,
                CommandView { stderr: target, append_stderr: a, ..acc },
            ),
            PieceRole::OtherDescriptor => scan_pieces(
                after,
                CommandView {
                    args: match target {
                        Some(t) => acc.args.push(p).push(t),
                        None => acc.args.push(p),
                    },
                    ..acc
                },
            ),
        }
    }
}

proof fn lemma_scan_arguments(rest: Seq<Seq<char>>, acc: CommandView)
    requires
        forall|k: int| 0 <= k < rest.len() ==> piece_role(#[trigger] rest[k]) == PieceRole::Argument,
    ensures
        scan_pieces(rest, acc) == (CommandView { args: acc.args + rest, ..acc }),
    decreases rest.len(),
{
    if rest.len() == 0 {
        assert(acc.args + rest =~= acc.args);
    } else {
        assert(piece_role(rest[0]) == PieceRole::Argument);
        let next = CommandView { args: acc.args.push(rest[0]), ..acc };
        assert forall|k: int| 0 <= k < rest.skip(1).len() implies piece_role(#[trigger] rest.skip(1)[k])
            == PieceRole::Argument by {
            assert(rest.skip(1)[k] == rest[k + 1]);
        }
        lemma_scan_arguments(rest.skip(1), next);
        assert(acc.args.push(rest[0]) + rest.skip(1) =~= acc.args + rest);
    }
}

/// A command written without redirections is its first word applied to the
/// other words as arguments, in order, with all three streams left alone.
pub proof fn law_plain_command_words(pieces: Seq<Seq<char>>)
    requires
        pieces.len() > 0,
        forall|k: int| 1 <= k < pieces.len() ==> piece_role(#[trigger] pieces[k]) == PieceRole::Argument,
    ensures
        produced(pieces) == Ok::<CommandView, CliError>(plain_command(pieces[0], pieces.skip(1))),
{
    assert forall|k: int| 0 <= k < pieces.skip(1).len() implies piece_role(#[trigger] pieces.skip(1)[k])
        == PieceRole::Argument by {
        assert(pieces.skip(1)[k] == pieces[k + 1]);
    }
    lemma_scan_arguments(pieces.skip(1), plain_command(pieces[0], Seq::empty()));
    assert(Seq::<Seq<char>>::empty() + pieces.skip(1) =~= pieces.skip(1));
}

/// Arguments first, then the rest: the arguments are taken in order and the
/// rest is scanned from there.
proof fn lemma_scan_arguments_then(args: Seq<Seq<char>>, tail: Seq<Seq<char>>, acc: CommandView)
    requires
        forall|k: int| 0 <= k < args.len() ==> piece_role(#[trigger] args[k]) == PieceRole::Argument,
    ensures
        scan_pieces(args + tail, acc) == scan_pieces(tail, CommandView { args: acc.args + args, ..acc }),
    decreases args.len(),
{
    if args.len() == 0 {
        assert(args + tail =~= tail);
        assert(acc.args + args =~= acc.args);
    } else {
        let s = args + tail;
        assert(s[0] == args[0]);
        assert(piece_role(args[0]) == PieceRole::Argument);
        assert(s.skip(1) =~= args.skip(1) + tail);
        assert forall|k: int| 0 <= k < args.skip(1).len() implies piece_role(#[trigger] args.skip(1)[k])
            == PieceRole::Argument by {
            assert(args.skip(1)[k] == args[k + 1]);
        }
        let next = CommandView { args: acc.args.push(args[0]), ..acc };
        lemma_scan_arguments_then(args.skip(1), tail, next);
        assert(acc.args.push(args[0]) + args.skip(1) =~= acc.args + args);
    }
}

/// The roles of the redirection operators as they are written.
proof fn lemma_operator_roles()
    ensures
        piece_role(seq!['<']) == PieceRole::Input,
        piece_role(seq!['0', '<']) == PieceRole::Input,
        piece_role(seq!['>']) == PieceRole::Output(false),
        piece_role(seq!['1', '>']) == PieceRole::Output(false),
        piece_role(seq!['>', '>']) == PieceRole::Output(true),
        piece_role(seq!['1', '>', '>']) == PieceRole::Output(true),
        piece_role(seq!['2', '>']) == PieceRole::Error(false),
        piece_role(seq!['2', '>', '>']) == PieceRole::Error(true),
{
    assert(seq!['<'].len() == 1 && seq!['>'].len() == 1);
    assert(seq!['0', '<'].len() == 2 && seq!['1', '>'].len() == 2 && seq!['>', '>'].len() == 2);
    assert(seq!['2', '>'].len() == 2 && seq!['1', '>', '>'].len() == 3 && seq!['2', '>', '>'].len() == 3);
    assert(seq!['<'][0] == '<');
    assert(seq!['>'][0] == '>');
    assert(seq!['0', '<'][0] == '0');
    assert(seq!['1', '>'][0] == '1');
    assert(seq!['>', '>'][0] == '>');
    assert(seq!['2', '>'][0] == '2');
    assert(seq!['1', '>', '>'][0] == '1');
    assert(seq!['2', '>', '>'][0] == '2');
    assert(seq!['>', '>'][1] == '>');
    assert(seq!['0', '<'][1] == '<');
    assert(seq!['1', '>'][1] == '>');
    assert(seq!['2', '>'][1] == '>');
    assert(seq!['1', '>', '>'][1] == '>');
    assert(seq!['2', '>', '>'][1] == '>');
}

/// A command whose words end in one redirection `op f`: the command keeps its
/// name and arguments and gets `f` for the stream that `op` names.
proof fn lemma_one_redirection(name: Seq<char>, args: Seq<Seq<char>>, op: Seq<char>, f: Seq<char>)
    requires
        forall|k: int| 0 <= k < args.len() ==> piece_role(#[trigger] args[k]) == PieceRole::Argument,
        piece_role(op) != PieceRole::Argument,
        piece_role(op) != PieceRole::OtherDescriptor,
    ensures
        produced(seq![name] + args + seq![op, f]) == Ok::<CommandView, CliError>(
            match piece_role(op) {
                PieceRole::Input => CommandView { stdin: Some(f), ..plain_command(name, args) },
                PieceRole::Output(a) => CommandView {
                    stdout: Some(f),
                    append_stdout: a,
                    ..plain_command(name, args)
                },
                PieceRole::Error(a) => CommandView {
                    stderr: Some(f),
                    append_stderr: a,
                    ..plain_command(name, args)
                },
                _ => plain_command(name, args),
            },
        ),
{
    let pieces = seq![name] + args + seq![op, f];
    let tail = seq![op, f];
    assert(pieces[0] == name);
    assert(pieces.skip(1) =~= args + tail);
    lemma_scan_arguments_then(args, tail, plain_command(name, Seq::empty()));
    assert(Seq::<Seq<char>>::empty() + args =~= args);
    let acc = plain_command(name, args);
    assert((CommandView { args: plain_command(name, Seq::empty()).args + args, ..plain_command(name, Seq::empty()) })
        == acc);
    assert(tail[0] == op);
    assert(tail[1] == f);
    assert(tail.skip(2) =~= Seq::<Seq<char>>::empty());
    reveal_with_fuel(scan_pieces, 2);
}

/// Each redirection operator sends its stream to the word after it: `<` and
/// `0<` standard input; `>` and `1>` standard output, overwriting; `>>` and
/// `1>>` standard output, appending; `2>` standard error, overwriting; `2>>`
/// standard error, appending. Name, arguments and the other streams stay as
/// they were.
pub proof fn law_redirection_operators(name: Seq<char>, args: Seq<Seq<char>>, f: Seq<char>)
    requires
        forall|k: int| 0 <= k < args.len() ==> piece_role(#[trigger] args[k]) == PieceRole::Argument,
    ensures
        produced(seq![name] + args + seq![seq!['<'], f]) == Ok::<CommandView, CliError>(
            CommandView { name, args, stdin: Some(f), stdout: None, append_stdout: false, stderr: None, append_stderr: false },
        ),
        produced(seq![name] + args + seq![seq!['0', '<'], f]) == Ok::<CommandView, CliError>(
            CommandView { name, args, stdin: Some(f), stdout: None, append_stdout: false, stderr: None, append_stderr: false },
        ),
        produced(seq![name] + args + seq![seq!['>'], f]) == Ok::<CommandView, CliError>(
            CommandView { name, args, stdin: None, stdout: Some(f), append_stdout: false, stderr: None, append_stderr: false },
        ),
        produced(seq![name] + args + seq![seq!['1', '>'], f]) == Ok::<CommandView, CliError>(
            CommandView { name, args, stdin: None, stdout: Some(f), append_stdout: false, stderr: None, append_stderr: false },
        ),
        produced(seq![name] + args + seq![seq!['>', '>'], f]) == Ok::<CommandView, CliError>(
            CommandView { name, args, stdin: None, stdout: Some(f), append_stdout: true, stderr: None, append_stderr: false },
        ),
        produced(seq![name] + args + seq![seq!['1', '>', '>'], f]) == Ok::<CommandView, CliError>(
            CommandView { name, args, stdin: None, stdout: Some(f), append_stdout: true, stderr: None, append_stderr: false },
        ),
        produced(seq![name] + args + seq![seq!['2', '>'], f]) == Ok::<CommandView, CliError>(
            CommandView { name, args, stdin: None, stdout: None, append_stdout: false, stderr: Some(f), append_stderr: false },
        ),
        produced(seq![name] + args + seq![seq!['2', '>', '>'], f]) == Ok::<CommandView, CliError>(
            CommandView { name, args, stdin: None, stdout: None, append_stdout: false, stderr: Some(f), append_stderr: true },
        ),
{
    lemma_operator_roles();
    lemma_one_redirection(name, args, seq!['<'], f);
    lemma_one_redirection(name, args, seq!['0', '<'], f);
    lemma_one_redirection(name, args, seq!['>'], f);
    lemma_one_redirection(name, args, seq!['1', '>'], f);
    lemma_one_redirection(name, args, seq!['>', '>'], f);
    lemma_one_redirection(name, args, seq!['1', '>', '>'], f);
    lemma_one_redirection(name, args, seq!['2', '>'], f);
    lemma_one_redirection(name, args, seq!['2', '>', '>'], f);
}

/// A redirection `op x` in front of the rest `tail`: the stream that `op`
/// names gets `x`, and scanning goes on with `tail`.
proof fn lemma_redirection_then(op: Seq<char>, x: Seq<char>, tail: Seq<Seq<char>>, acc: CommandView)
    requires
        piece_role(op) != PieceRole::Argument,
        piece_role(op) != PieceRole::OtherDescriptor,
    ensures
        scan_pieces(seq![op, x] + tail, acc) == scan_pieces(
            tail,
            match piece_role(op) {
                PieceRole::Input => CommandView { stdin: Some(x), ..acc },
                PieceRole::Output(a) => CommandView { stdout: Some(x), append_stdout: a, ..acc },
                PieceRole::Error(a) => CommandView { stderr: Some(x), append_stderr: a, ..acc },
                _ => acc,
            },
        ),
{
    let rest = seq![op, x] + tail;
    assert(rest[0] == op);
    assert(rest[1] == x);
    assert(rest.skip(2) =~= tail);
}

/// Of two redirections of standard error, the later one decides both the file
/// and whether it appends (`2>>`) or overwrites (`2>`); a redirection of
/// standard output before them is kept with its own append flag.
pub proof fn law_last_stderr_redirection_wins(
    name: Seq<char>,
    args: Seq<Seq<char>>,
    first: Seq<char>,
    second: Seq<char>,
    out_op: Seq<char>,
    o: Seq<char>,
    f: Seq<char>,
    g: Seq<char>,
)
    requires
        forall|k: int| 0 <= k < args.len() ==> piece_role(#[trigger] args[k]) == PieceRole::Argument,
        first == seq!['2', '>'] || first == seq!['2', '>', '>'],
        second == seq!['2', '>'] || second == seq!['2', '>', '>'],
        out_op == seq!['>'] || out_op == seq!['>', '>'],
    ensures
        produced(seq![name] + args + seq![first, f, second, g]) == Ok::<CommandView, CliError>(
            CommandView {
                name,
                args,
                stdin: None,
                stdout: None,
                append_stdout: false,
                stderr: Some(g),
                append_stderr: second == seq!['2', '>', '>'],
            },
        ),
        produced(seq![name] + args + seq![out_op, o, second, g]) == Ok::<CommandView, CliError>(
            CommandView {
                name,
                args,
                stdin: None,
                stdout: Some(o),
                append_stdout: out_op == seq!['>', '>'],
                stderr: Some(g),
                append_stderr: second == seq!['2', '>', '>'],
            },
        ),
{
    lemma_operator_roles();
    assert(seq!['2', '>'] != seq!['2', '>', '>']) by {
        assert(seq!['2', '>'].len() != seq!['2', '>', '>'].len());
    }
    assert(seq!['>'] != seq!['>', '>']) by {
        assert(seq!['>'].len() != seq!['>', '>'].len());
    }
    let base = plain_command(name, Seq::empty());
    let acc = plain_command(name, args);
    assert(Seq::<Seq<char>>::empty() + args =~= args);
    assert((CommandView { args: base.args + args, ..base }) == acc);
    let last = seq![second, g];
    let empty = Seq::<Seq<char>>::empty();
    assert(last =~= seq![second, g] + empty);
    let t1 = seq![first, f] + last;
    let t2 = seq![out_op, o] + last;
    assert(t1 =~= seq![first, f, second, g]);
    assert(t2 =~= seq![out_op, o, second, g]);
    assert((seq![name] + args + seq![first, f, second, g]).skip(1) =~= args + t1);
    assert((seq![name] + args + seq![out_op, o, second, g]).skip(1) =~= args + t2);
    lemma_scan_arguments_then(args, t1, base);
    lemma_scan_arguments_then(args, t2, base);
    lemma_redirection_then(first, f, last, acc);
    lemma_redirection_then(out_op, o, last, acc);
    let a1 = CommandView { stderr: Some(f), append_stderr: first == seq!['2', '>', '>'], ..acc };
    let a2 = CommandView { stdout: Some(o), append_stdout: out_op == seq!['>', '>'], ..acc };
    lemma_redirection_then(second, g, empty, a1);
    lemma_redirection_then(second, g, empty, a2);
}

/// The command that the words `pieces` make: the first word names the program,
/// the others are arguments and redirections.
pub open spec fn produced(pieces: Seq<Seq<char>>) -> core::result::Result<CommandView, CliError> {
    if pieces.len() == 0 {
        Err(CliError::EmptyCommand)
    } else {
        Ok(scan_pieces(pieces.skip(1), plain_command(pieces[0], Seq::empty())))
    }
}

/// The view of a parse result.
pub open spec fn command_result_view(r: Result<Command>) -> core::result::Result<CommandView, CliError> {
    match r {
        Ok(c) => Ok(c@),
        Err(e) => Err(e),
    }
}

/// Turns the words of one command into a `Command` with its redirections.
pub struct CommandProducer;

impl CommandProducer {
    /// Makes a command of its words: the first names the program; `<`/`0<`,
    /// `>`/`1>`, `>>`/`1>>`, `2>` and `2>>` (and the same with any spelling of
    /// the descriptor number) redirect a stream to the word after them; every
    /// other word is an argument. An empty list is an error.
    pub fn produce_command(pieces: Vec<String>) -> (r: Result<Command>)
        ensures
            command_result_view(r) == produced(string_views(pieces@)),
    {
        let ghost v = string_views(pieces@);
        let n = pieces.len();
        if n == 0 {
            return Err(CliError::EmptyCommand);
        }
        let name = pieces[0].clone();
        let mut args: Vec<String> = Vec::new();
        let mut stdin: Option<String> = None;
        let mut stdout: Option<String> = None;
        let mut append_stdout = false;
        let mut stderr: Option<String> = None;
        let mut append_stderr = false;
        let mut i: usize = 1;
        assert(string_views(args@) =~= Seq::<Seq<char>>::empty());
        while i < n
            invariant
                1 <= i <= n,
                n == pieces@.len(),
                v == string_views(pieces@),
                scan_pieces(v.skip(1), plain_command(v[0], Seq::empty())) == scan_pieces(
                    v.skip(i as int),
                    CommandView {
                        name: name@,
                        args: string_views(args@),
                        stdin: opt_view(stdin),
                        stdout: opt_view(stdout),
                        append_stdout,
                        stderr: opt_view(stderr),
                        append_stderr,
                    },
                ),
            decreases n - i,
        {
            let ghost rest = v.skip(i as int);
            let ghost acc = CommandView {
                name: name@,
                args: string_views(args@),
                stdin: opt_view(stdin),
                stdout: opt_view(stdout),
                append_stdout,
                stderr: opt_view(stderr),
                append_stderr,
            };
            assert(rest[0] == pieces@[i as int]@);
            let p = pieces[i].clone();
            let target: Option<String> = if i + 1 < n {
                Some(pieces[i + 1].clone())
            } else {
                None
            };
            assert(opt_view(target) == (if rest.len() > 1 { Some(rest[1]) } else { None }));
            let next: usize = if i + 1 < n { i + 2 } else { i + 1 };
            assert(v.skip(next as int) =~= (if rest.len() > 1 { rest.skip(2) } else { rest.skip(1) }));
            assert(v.skip(i + 1) =~= rest.skip(1));
            match role_of(p.as_str()) {
                PieceRole::Argument => {
                    args.push(p);
                    assert(string_views(args@) =~= acc.args.push(p@));
                    i = i + 1;
                },
                PieceRole::Input => {
                    stdin = target;
                    i = next;
                },
                PieceRole::Output(a) => {
                    stdout = target;
                    append_stdout = a;
                    i = next;
                },
                PieceRole::Error(a) => {
                    stderr = target;
                    append_stderr = a;
                    i = next;
                },
                PieceRole::OtherDescriptor => {
                    args.push(p);
                    match target {
                        Some(t) => {
                            let ghost tv = t@;
                            args.push(t);
                            assert(string_views(args@) =~= acc.args.push(p@).push(tv));
                        },
                        None => {
                            assert(string_views(args@) =~= acc.args.push(p@));
                        },
                    }
                    i = next;
                },
            }
        }
        assert(v.skip(n as int) =~= Seq::<Seq<char>>::empty());
        let cmd = Command::new(name, args);
        let cmd = Command {
            stdin,
            stdout,
            append_stdout,
            stderr,
            append_stderr,
            ..cmd
        };
        Ok(cmd)
    }
}

/// Splits the rest `raw` of a word list at the words `|`, given the words
/// `cur` of the command being collected and the commands `out` already
/// closed. A trailing empty command is dropped; any other stays, empty or not.
pub open spec fn split_pipes_from(
    raw: Seq<Seq<char>>,
    cur: Seq<Seq<char>>,
    out: Seq<Seq<Seq<char>>>,
) -> Seq<Seq<Seq<char>>>
    decreases raw.len(),
{
    if raw.len() == 0 {
        if cur.len() == 0 {
            out
        } else {
            out.push(cur)
        }
    } else if raw[0] == seq!['|'] {
        split_pipes_from(raw.skip(1), Seq::empty(), out.push(cur))
    } else {
        split_pipes_from(raw.skip(1), cur.push(raw[0]), out)
    }
}

/// The commands of a word list separated by `|` words.
pub open spec fn split_pipes(raw: Seq<Seq<char>>) -> Seq<Seq<Seq<char>>> {
    split_pipes_from(raw, Seq::empty(), Seq::empty())
}

/// The commands `parts` written back as one word list, with a `|` word
/// between each two.
pub open spec fn join_parts(parts: Seq<Seq<Seq<char>>>) -> Seq<Seq<char>>
    decreases parts.len(),
{
    if parts.len() == 0 {
        Seq::empty()
    } else if parts.len() == 1 {
        parts[0]
    } else {
        parts[0] + seq![seq!['|']] + join_parts(parts.skip(1))
    }
}

/// No word of any part is `|`.
pub open spec fn parts_without_bars(parts: Seq<Seq<Seq<char>>>) -> bool {
    forall|i: int, k: int| 0 <= i < parts.len() && 0 <= k < parts[i].len() ==> #[trigger] parts[i][k] != seq!['|']
}

proof fn lemma_split_prefix(raw: Seq<Seq<char>>, cur: Seq<Seq<char>>, out: Seq<Seq<Seq<char>>>)
    ensures
        split_pipes_from(raw, cur, out) == out + split_pipes_from(raw, cur, Seq::empty()),
    decreases raw.len(),
{
    if raw.len() == 0 {
        if cur.len() == 0 {
            assert(out + Seq::<Seq<Seq<char>>>::empty() =~= out);
        } else {
            assert(out.push(cur) =~= out + Seq::<Seq<Seq<char>>>::empty().push(cur));
        }
    } else if raw[0] == seq!['|'] {
        lemma_split_prefix(raw.skip(1), Seq::empty(), out.push(cur));
        lemma_split_prefix(raw.skip(1), Seq::empty(), Seq::<Seq<Seq<char>>>::empty().push(cur));
        assert(out.push(cur) + split_pipes_from(raw.skip(1), Seq::empty(), Seq::empty()) =~= out + (Seq::<
            Seq<Seq<char>>,
        >::empty().push(cur) + split_pipes_from(raw.skip(1), Seq::empty(), Seq::empty())));
    } else {
        lemma_split_prefix(raw.skip(1), cur.push(raw[0]), out);
        lemma_split_prefix(raw.skip(1), cur.push(raw[0]), Seq::empty());
    }
}

proof fn lemma_split_nonempty(raw: Seq<Seq<char>>, cur: Seq<Seq<char>>)
    requires
        raw.len() > 0 || cur.len() > 0,
    ensures
        split_pipes_from(raw, cur, Seq::empty()).len() > 0,
    decreases raw.len(),
{
    if raw.len() > 0 {
        if raw[0] == seq!['|'] {
            lemma_split_prefix(raw.skip(1), Seq::empty(), Seq::<Seq<Seq<char>>>::empty().push(cur));
        } else {
            lemma_split_nonempty(raw.skip(1), cur.push(raw[0]));
        }
    }
}

proof fn lemma_join_split(raw: Seq<Seq<char>>, cur: Seq<Seq<char>>)
    requires
        forall|k: int| 0 <= k < cur.len() ==> #[trigger] cur[k] != seq!['|'],
    ensures
        parts_without_bars(split_pipes_from(raw, cur, Seq::empty())),
        if raw.len() > 0 && raw.last() == seq!['|'] {
            join_parts(split_pipes_from(raw, cur, Seq::empty())) + seq![seq!['|']] == cur + raw
        } else {
            join_parts(split_pipes_from(raw, cur, Seq::empty())) == cur + raw
        },
    decreases raw.len(),
{
    let p = split_pipes_from(raw, cur, Seq::empty());
    if raw.len() == 0 {
        assert(cur + raw =~= cur);
        if cur.len() > 0 {
            assert(p =~= seq![cur]);
        }
    } else if raw[0] == seq!['|'] {
        let rest = raw.skip(1);
        let q = split_pipes_from(rest, Seq::empty(), Seq::empty());
        lemma_split_prefix(rest, Seq::empty(), Seq::<Seq<Seq<char>>>::empty().push(cur));
        assert(p =~= seq![cur] + q);
        lemma_join_split(rest, Seq::empty());
        assert(Seq::<Seq<char>>::empty() + rest =~= rest);
        assert(parts_without_bars(p)) by {
            assert forall|i: int, k: int| 0 <= i < p.len() && 0 <= k < p[i].len() implies #[trigger] p[i][k]
                != seq!['|'] by {
                if i > 0 {
                    assert(p[i] == q[i - 1]);
                }
            }
        }
        if rest.len() == 0 {
            assert(q.len() == 0);
            assert(p =~= seq![cur]);
            assert(raw =~= seq![seq!['|']]);
            assert(cur + raw =~= cur + seq![seq!['|']]);
        } else {
            lemma_split_nonempty(rest, Seq::empty());
            assert(p.skip(1) =~= q);
            assert(join_parts(p) == cur + seq![seq!['|']] + join_parts(q));
            assert(raw =~= seq![seq!['|']] + rest);
            assert(raw.last() == rest.last());
            if rest.last() == seq!['|'] {
                assert(cur + seq![seq!['|']] + join_parts(q) + seq![seq!['|']] =~= cur + (seq![seq!['|']] + (
                join_parts(q) + seq![seq!['|']])));
            } else {
                assert(cur + seq![seq!['|']] + join_parts(q) =~= cur + (seq![seq!['|']] + join_parts(q)));
            }
        }
    } else {
        let rest = raw.skip(1);
        let c2 = cur.push(raw[0]);
        assert forall|k: int| 0 <= k < c2.len() implies #[trigger] c2[k] != seq!['|'] by {
            if k < cur.len() {
                assert(c2[k] == cur[k]);
            }
        }
        lemma_join_split(rest, c2);
        assert(c2 + rest =~= cur + raw);
        if rest.len() > 0 {
            assert(raw.last() == rest.last());
        }
    }
}

/// Splitting at unquoted `|` words loses nothing and adds nothing: no
/// command holds a `|` word, and the commands joined back with `|` between
/// them are the word list itself (but for a final `|`, which ends the last
/// command without starting another).
pub proof fn law_pipes_split(raw: Seq<Seq<char>>)
    ensures
        parts_without_bars(split_pipes(raw)),
        if raw.len() > 0 && raw.last() == seq!['|'] {
            join_parts(split_pipes(raw)) + seq![seq!['|']] == raw
        } else {
            join_parts(split_pipes(raw)) == raw
        },
{
    lemma_join_split(raw, Seq::empty());
    assert(Seq::<Seq<char>>::empty() + raw =~= raw);
}

/// The views of a list of word lists.
pub open spec fn parts_views(p: Seq<Vec<String>>) -> Seq<Seq<Seq<char>>> {
    p.map_values(|v: Vec<String>| string_views(v@))
}

/// Splits already tokenized words into commands at the words `|`; a `|` is a
/// word of its own only when it was written outside quotes.
pub fn split_on_pipes_tokens(raw: &[String]) -> (out: Vec<Vec<String>>)
    ensures
        parts_views(out@) == split_pipes(string_views(raw@)),
{
    let ghost rv = string_views(raw@);
    let mut out: Vec<Vec<String>> = Vec::new();
    let mut cur: Vec<String> = Vec::new();
    let n = raw.len();
    let mut i: usize = 0;
    let bar: [char; 1] = ['|'];
    assert(bar@ =~= seq!['|']);
    assert(rv.skip(0) =~= rv);
    assert(string_views(cur@) =~= Seq::<Seq<char>>::empty());
    assert(parts_views(out@) =~= Seq::<Seq<Seq<char>>>::empty());
    while i < n
        invariant
            i <= n,
            n == raw@.len(),
            rv == string_views(raw@),
            bar@ == seq!['|'],
            split_pipes(rv) == split_pipes_from(rv.skip(i as int), string_views(cur@), parts_views(out@)),
        decreases n - i,
    {
        let ghost rest = rv.skip(i as int);
        assert(rest[0] == raw@[i as int]@);
        assert(rest.skip(1) =~= rv.skip(i + 1));
        let t = chars_of(raw[i].as_str());
        if chars_are(&t, &bar) {
            let ghost before = parts_views(out@);
            let ghost cv = string_views(cur@);
            let done = cur;
            cur = Vec::new();
            out.push(done);
            assert(parts_views(out@) =~= before.push(cv));
            assert(string_views(cur@) =~= Seq::<Seq<char>>::empty());
        } else {
            let ghost cv = string_views(cur@);
            cur.push(raw[i].clone());
            assert(string_views(cur@) =~= cv.push(raw@[i as int]@));
        }
        i = i + 1;
    }
    assert(rv.skip(n as int) =~= Seq::<Seq<char>>::empty());
    if cur.len() > 0 {
        let ghost before = parts_views(out@);
        let ghost cv = string_views(cur@);
        out.push(cur);
        assert(parts_views(out@) =~= before.push(cv));
    }
    out
}

/// The command that one part of a pipeline makes: quotes removed, variables
/// of `env` substituted, then words turned into a command.
pub open spec fn build_command(env: Map<Seq<char>, Seq<char>>, part: Seq<Seq<char>>) -> core::result::Result<
    CommandView,
    CliError,
> {
    match unquoted_all(part) {
        None => Err(CliError::UnclosedQuote),
        Some(ws) => match expand_all(env, ws) {
            None => Err(CliError::BadSubstitution),
            Some(pieces) => produced(pieces),
        },
    }
}

/// The commands of all parts, or the error of the first part that fails.
pub open spec fn build_commands(env: Map<Seq<char>, Seq<char>>, parts: Seq<Seq<Seq<char>>>) -> core::result::Result<
    Seq<CommandView>,
    CliError,
>
    decreases parts.len(),
{
    if parts.len() == 0 {
        Ok(Seq::empty())
    } else {
        match build_commands(env, parts.drop_last()) {
            Err(e) => Err(e),
            Ok(cs) => match build_command(env, parts.last()) {
                Ok(c) => Ok(cs.push(c)),
                Err(e) => Err(e),
            },
        }
    }
}

/// What a command line means under the environment `env`: the commands of its
/// pipeline, or why it cannot be parsed.
pub open spec fn processed(env: Map<Seq<char>, Seq<char>>, line: Seq<char>) -> core::result::Result<
    Seq<CommandView>,
    CliError,
> {
    match tokenized(line) {
        None => Err(CliError::UnclosedQuote),
        Some(raw) => build_commands(env, split_pipes(raw)),
    }
}

/// A command followed by a double-quoted argument: `w "t"`, where `t` holds no
/// `"`, backslash or `$` (a single quote, blanks and `|` are allowed) and is
/// no redirection operator, is the one command `w` with the one argument `t`,
/// under any environment.
pub proof fn law_double_quoted_argument(env: Map<Seq<char>, Seq<char>>, w: Seq<char>, t: Seq<char>)
    requires
        w.len() > 0,
        forall|k: int| 0 <= k < w.len() ==> is_word_char(#[trigger] w[k]) && w[k] != '$',
        forall|k: int| 0 <= k < t.len() ==> #[trigger] t[k] != '"' && t[k] != '\\' && t[k] != '$',
        piece_role(t) == PieceRole::Argument,
    ensures
        processed(env, w + seq![' ', '"'] + t + seq!['"']) == Ok::<Seq<CommandView>, CliError>(
            seq![plain_command(w, seq![t])],
        ),
{
    let q = seq!['"'] + t + seq!['"'];
    let raw = seq![w, q];
    law_double_quoted_word(w, t);
    // The two words form one command.
    assert(w != seq!['|']) by {
        assert(is_word_char(w[0]));
        if w == seq!['|'] {
            assert(w[0] == '|');
        }
    }
    assert(q != seq!['|']) by {
        assert(q[0] == '"');
        if q == seq!['|'] {
            assert(seq!['|'][0] == '|');
        }
    }
    let e1 = Seq::<Seq<char>>::empty();
    let e2 = Seq::<Seq<Seq<char>>>::empty();
    assert(raw[0] == w && raw[1] == q);
    assert(raw.skip(1) =~= seq![q]);
    assert(seq![q].skip(1) =~= e1);
    assert(e1.push(w) =~= seq![w]);
    assert(seq![w].push(q) =~= raw);
    assert(split_pipes_from(seq![q], seq![w], e2) == split_pipes_from(e1, raw, e2));
    assert(split_pipes(raw) == e2.push(raw));
    let parts = e2.push(raw);
    assert(parts.drop_last() =~= e2);
    assert(parts.last() == raw);
    // Quote removal.
    let ew = Seq::<(char, bool)>::empty();
    assert forall|k: int| 0 <= k < w.len() implies #[trigger] w[k] != '\'' && w[k] != '"' && w[k] != '\\' by {
        assert(is_word_char(w[k]));
    }
    lemma_unquote_plain_run(w, Seq::empty(), ew);
    assert(w + Seq::<char>::empty() =~= w);
    assert(ew + substitutable(w) =~= substitutable(w));
    law_double_quotes_removed(t);
    assert(raw.drop_last() =~= seq![w]);
    assert(seq![w].drop_last() =~= e1);
    let ws = seq![substitutable(w), substitutable(t)];
    assert(unquote(Seq::<char>::empty(), LexMode::Plain, substitutable(w)) == Some(substitutable(w)));
    assert(unquote(w, LexMode::Plain, ew) == Some(substitutable(w)));
    assert(unquoted_all(e1) == Some(Seq::<Seq<(char, bool)>>::empty()));
    assert(seq![w].last() == w);
    assert(raw.last() == q);
    assert(unquoted_all(seq![w]) == Some(Seq::<Seq<(char, bool)>>::empty().push(substitutable(w))));
    assert(Seq::<Seq<(char, bool)>>::empty().push(substitutable(w)).push(substitutable(t)) =~= ws);
    assert(unquoted_all(raw) == Some(ws));
    // Expansion leaves both words as they are.
    assert forall|k: int| 0 <= k < substitutable(w).len() implies (#[trigger] substitutable(w)[k]).0 != '$' by {}
    assert forall|k: int| 0 <= k < substitutable(t).len() implies (#[trigger] substitutable(t)[k]).0 != '$' by {}
    lemma_word_without_dollar(env, substitutable(w));
    lemma_word_without_dollar(env, substitutable(t));
    assert(plain_chars(substitutable(w)) =~= w);
    assert(plain_chars(substitutable(t)) =~= t);
    assert(ws.drop_last() =~= seq![substitutable(w)]);
    assert(seq![substitutable(w)].drop_last() =~= Seq::<Seq<(char, bool)>>::empty());
    assert(expand_all(env, Seq::<Seq<(char, bool)>>::empty()) == Some(e1));
    assert(seq![substitutable(w)].last() == substitutable(w));
    assert(ws.last() == substitutable(t));
    assert(expand_all(env, seq![substitutable(w)]) == Some(e1.push(w)));
    assert(e1.push(w).push(t) =~= seq![w, t]);
    assert(expand_all(env, ws) == Some(seq![w, t]));
    // The words make the command.
    let words = seq![w, t];
    assert forall|k: int| 1 <= k < words.len() implies piece_role(#[trigger] words[k]) == PieceRole::Argument by {
        assert(words[1] == t);
    }
    law_plain_command_words(words);
    assert(words[0] == w);
    assert(words.skip(1) =~= seq![t]);
    assert(build_command(env, raw) == Ok::<CommandView, CliError>(plain_command(w, seq![t])));
    assert(build_commands(env, e2) == Ok::<Seq<CommandView>, CliError>(Seq::empty()));
    assert(Seq::<CommandView>::empty().push(plain_command(w, seq![t])) =~= seq![plain_command(w, seq![t])]);
}

/// The views of a list of commands.
pub open spec fn commands_views(cs: Seq<Command>) -> Seq<CommandView> {
    cs.map_values(|c: Command| c@)
}

/// The view of a pipeline parse result.
pub open spec fn commands_result_view(r: Result<Vec<Command>>) -> core::result::Result<
    Seq<CommandView>,
    CliError,
> {
    match r {
        Ok(cs) => Ok(commands_views(cs@)),
        Err(e) => Err(e),
    }
}

/// Once a prefix of the parts fails, every longer prefix fails the same way.
proof fn lemma_build_commands_fails(
    env: Map<Seq<char>, Seq<char>>,
    parts: Seq<Seq<Seq<char>>>,
    k: int,
    e: CliError,
)
    requires
        0 < k <= parts.len(),
        build_commands(env, parts.take(k)) == Err::<Seq<CommandView>, CliError>(e),
    ensures
        build_commands(env, parts) == Err::<Seq<CommandView>, CliError>(e),
    decreases parts.len() - k,
{
    if k < parts.len() {
        assert(parts.take(k + 1).drop_last() =~= parts.take(k));
        lemma_build_commands_fails(env, parts, k + 1, e);
    } else {
        assert(parts.take(k) =~= parts);
    }
}

/// Builds `InputProcessor` values.
pub struct InputProcessorBuilder {}

impl InputProcessorBuilder {
    /// A builder with the default configuration.
    pub fn new() -> (b: Self)
        ensures
            b == (InputProcessorBuilder {}),
    {
        InputProcessorBuilder {  }
    }

    /// The processor that this builder describes: the default one.
    pub fn build(self) -> (p: InputProcessor)
        ensures
            p == InputProcessor::default_processor(),
    {
        InputProcessor { expander: Expander }
    }
}

impl Default for InputProcessorBuilder {
    fn default() -> (b: Self)
        ensures
            b == (InputProcessorBuilder {}),
    {
        Self::new()
    }
}

/// Parses command lines into pipelines of commands: splits into words,
/// splits at unquoted `|`, removes quotes, substitutes variables and reads
/// the redirections of each command.
#[derive(Clone, Copy)]
pub struct InputProcessor {
    expander: Expander,
}

impl InputProcessor {
    /// The processor with the default configuration: variable substitution
    /// by the standard expander.
    pub closed spec fn default_processor() -> InputProcessor {
        InputProcessor { expander: Expander }
    }

    /// The commands of the pipeline written on `line`, with the variables of
    /// `env_vars` substituted, as `processed` says.
    pub fn process(&self, line: &str, env_vars: &Environment) -> (r: Result<Vec<Command>>)
        ensures
            commands_result_view(r) == processed(env_vars@, line@),
    {
        let raw = Tokenizer::tokenize(line)?;
        let parts = split_on_pipes_tokens(raw.as_slice());
        let ghost pv = parts_views(parts@);
        let ghost env = env_vars@;
        let mut cmds: Vec<Command> = Vec::new();
        let n = parts.len();
        let mut i: usize = 0;
        assert(pv.take(0) =~= Seq::<Seq<Seq<char>>>::empty());
        assert(commands_views(cmds@) =~= Seq::<CommandView>::empty());
        while i < n
            invariant
                i <= n,
                n == parts@.len(),
                pv == parts_views(parts@),
                processed(env, line@) == build_commands(env, pv),
                env == env_vars@,
                build_commands(env, pv.take(i as int)) == Ok::<Seq<CommandView>, CliError>(
                    commands_views(cmds@),
                ),
            decreases n - i,
        {
            assert(pv.take(i + 1).drop_last() =~= pv.take(i as int));
            assert(pv.take(i + 1).last() == string_views(parts@[i as int]@));
            let step = self.build_one(&parts[i], env_vars);
            match step {
                Ok(c) => {
                    let ghost before = commands_views(cmds@);
                    cmds.push(c);
                    assert(commands_views(cmds@) =~= before.push(cmds@.last()@));
                },
                Err(e) => {
                    proof {
                        lemma_build_commands_fails(env, pv, i as int + 1, e);
                    }
                    return Err(e);
                },
            }
            i = i + 1;
        }
        assert(pv.take(n as int) =~= pv);
        Ok(cmds)
    }

    /// The command that one part of a pipeline makes.
    fn build_one(&self, part: &Vec<String>, env_vars: &Environment) -> (r: Result<Command>)
        ensures
            command_result_view(r) == build_command(env_vars@, string_views(part@)),
    {
        let tokens = QuoteHandler::handle(part)?;
        let pieces = self.expander.expand_tokens(env_vars, tokens)?;
        CommandProducer::produce_command(pieces)
    }
}

} // verus!
