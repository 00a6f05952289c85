use vstd::prelude::*;

use crate::text::{char_vec, string_from_chars};

verus! {

// ---------------------------------------------------------------------------
// Quoting
// ---------------------------------------------------------------------------

/// Characters that force an argument to be wrapped in double quotes.
pub open spec fn forces_quotes(c: char) -> bool {
    c == ' ' || c == '\t' || c == '\n' || c == '\r' || c == '"'
}

/// An argument is passed as-is only when it is non-empty and holds none of
/// the characters of `forces_quotes`.
pub open spec fn needs_quoting(s: Seq<char>) -> bool {
    s.len() == 0 || exists|i: int| 0 <= i < s.len() && forces_quotes(#[trigger] s[i])
}

/// `n` backslashes.
pub open spec fn backslashes(n: nat) -> Seq<char> {
    Seq::new(n, |i: int| '\\')
}

/// The inside of a quoted argument for `s`, where `pending` backslashes that
/// precede `s` have been read but not yet written.  A run of backslashes is
/// doubled (and one more is added) when a double quote follows it, doubled when
/// it ends the argument (the closing quote follows), and kept as it is otherwise.
pub open spec fn escape_quoted(s: Seq<char>, pending: nat) -> Seq<char>
    decreases s.len(),
{
    if s.len() == 0 {
        backslashes(2 * pending)
    } else if s[0] == '\\' {
        escape_quoted(s.drop_first(), pending + 1)
    } else if s[0] == '"' {
        backslashes(2 * pending + 1) + seq!['"'] + escape_quoted(s.drop_first(), 0)
    } else {
        backslashes(pending) + seq![s[0]] + escape_quoted(s.drop_first(), 0)
    }
}

/// The form in which one argument is written on a Windows command line.
pub open spec fn quote_arg(s: Seq<char>) -> Seq<char> {
    if needs_quoting(s) {
        seq!['"'] + escape_quoted(s, 0) + seq!['"']
    } else {
        s
    }
}

/// The quoted arguments, separated by single spaces.
pub open spec fn join_quoted(args: Seq<Seq<char>>) -> Seq<char>
    decreases args.len(),
{
    if args.len() == 0 {
        Seq::empty()
    } else if args.len() == 1 {
        quote_arg(args[0])
    } else {
        join_quoted(args.drop_last()) + seq![' '] + quote_arg(args.last())
    }
}

/// The views of a list of owned strings.
pub open spec fn string_views(args: Seq<String>) -> Seq<Seq<char>> {
    args.map_values(|a: String| a@)
}

// ---------------------------------------------------------------------------
// How Windows splits a command line into arguments
// ---------------------------------------------------------------------------

/// Space and tab separate arguments outside double quotes.
pub open spec fn is_separator(c: char) -> bool {
    c == ' ' || c == '\t'
}

/// Reads one argument from the front of `s` by the Microsoft C runtime rules:
/// backslashes are literal unless a double quote follows them; `2n` backslashes
/// and a double quote give `n` backslashes and toggle quoting; `2n + 1`
/// backslashes and a double quote give `n` backslashes and a literal quote;
/// outside quotes a space or tab ends the argument.  `quoted` tells whether the
/// reader is inside quotes and `slashes` how many backslashes were read and not
/// yet written.  The result is the argument and what is left of `s`.
pub open spec fn read_arg(s: Seq<char>, quoted: bool, slashes: nat) -> (Seq<char>, Seq<char>)
    decreases s.len(),
{
    if s.len() == 0 {
        (backslashes(slashes), s)
    } else if s[0] == '\\' {
        read_arg(s.drop_first(), quoted, slashes + 1)
    } else if s[0] == '"' {
        if slashes % 2 == 1 {
            let r = read_arg(s.drop_first(), quoted, 0);
            (backslashes(slashes / 2) + seq!['"'] + r.0, r.1)
        } else {
            let r = read_arg(s.drop_first(), !quoted, 0);
            (backslashes(slashes / 2) + r.0, r.1)
        }
    } else if !quoted && is_separator(s[0]) {
        (backslashes(slashes), s)
    } else {
        let r = read_arg(s.drop_first(), quoted, 0);
        (backslashes(slashes) + seq![s[0]] + r.0, r.1)
    }
}

/// What `read_arg` leaves is a suffix of its input, and a strictly shorter one
/// unless the input is empty or starts with a separator outside quotes.
pub proof fn lemma_read_arg_rest(s: Seq<char>, quoted: bool, slashes: nat)
    ensures
        read_arg(s, quoted, slashes).1.len() <= s.len(),
        read_arg(s, quoted, slashes).1 =~= s.skip(s.len() - read_arg(s, quoted, slashes).1.len()),
        s.len() > 0 && !(!quoted && is_separator(s[0])) ==> read_arg(s, quoted, slashes).1.len()
            < s.len(),
    decreases s.len(),
{
    if s.len() == 0 {
    } else {
        let rest = s.drop_first();
        if s[0] == '\\' {
            lemma_read_arg_rest(rest, quoted, slashes + 1);
        } else if s[0] == '"' {
            if slashes % 2 == 1 {
                lemma_read_arg_rest(rest, quoted, 0);
            } else {
                lemma_read_arg_rest(rest, !quoted, 0);
            }
        } else if !quoted && is_separator(s[0]) {
        } else {
            lemma_read_arg_rest(rest, quoted, 0);
        }
        let r = read_arg(s, quoted, slashes).1;
        if r.len() < s.len() {
            assert(r =~= rest.skip(rest.len() - r.len()));
            assert(rest.skip(rest.len() - r.len()) =~= s.skip(s.len() - r.len()));
        }
    }
}

/// The arguments of a command line: separators between arguments are skipped,
/// and each argument is read with `read_arg`.
pub open spec fn split_command_line(s: Seq<char>) -> Seq<Seq<char>>
    decreases s.len(),
{
    if s.len() == 0 {
        Seq::empty()
    } else if is_separator(s[0]) {
        split_command_line(s.drop_first())
    } else {
        proof {
            lemma_read_arg_rest(s, false, 0);
        }
        let r = read_arg(s, false, 0);
        seq![r.0] + split_command_line(r.1)
    }
}

// ---------------------------------------------------------------------------
// Executable quoting
// ---------------------------------------------------------------------------

fn push_backslashes(out: &mut Vec<char>, n: usize)
    ensures
        final(out)@ == old(out)@ + backslashes(n as nat),
{
    let mut k: usize = 0;
    while k < n
        invariant
            k <= n,
            out@ == old(out)@ + backslashes(k as nat),
        decreases n - k,
    {
        out.push('\\');
        k += 1;
        assert(out@ =~= old(out)@ + backslashes(k as nat));
    }
}

fn has_quote_forcing_char(chars: &Vec<char>) -> (found: bool)
    ensures
        found == exists|i: int| 0 <= i < chars@.len() && forces_quotes(#[trigger] chars@[i]),
{
    let mut i: usize = 0;
    while i < chars.len()
        invariant
            i <= chars@.len(),
            forall|j: int| 0 <= j < i ==> !forces_quotes(#[trigger] chars@[j]),
        decreases chars@.len() - i,
    {
        let c = chars[i];
        if c == ' ' || c == '\t' || c == '\n' || c == '\r' || c == '"' {
            return true;
        }
        i += 1;
    }
    false
}

/// Quotes one argument for a Windows command line: an argument that is
/// non-empty and holds no space, tab, line break or double quote is passed
/// unchanged; any other is wrapped in double quotes with its quotes and the
/// backslashes before them escaped.
pub fn quote_windows_arg(arg: &str) -> (quoted: String)
    ensures
        quoted@ == quote_arg(arg@),
        (arg@.len() > 0 && forall|i: int|
            0 <= i < arg@.len() ==> #[trigger] arg@[i] != ' ' && arg@[i] != '\t' && arg@[i] != '\n'
                && arg@[i] != '\r' && arg@[i] != '"') ==> quoted@ == arg@,
        !(arg@.len() > 0 && forall|i: int|
            0 <= i < arg@.len() ==> #[trigger] arg@[i] != ' ' && arg@[i] != '\t' && arg@[i] != '\n'
                && arg@[i] != '\r' && arg@[i] != '"') ==> quoted@.len() >= 2 && quoted@[0] == '"'
            && quoted@.last() == '"',
{
    proof {
        lemma_quote_shape(arg@);
    }
    let chars = char_vec(arg);
    if chars.len() != 0 && !has_quote_forcing_char(&chars) {
        return arg.to_owned();
    }
    let ghost s = chars@;
    let mut out: Vec<char> = Vec::new();
    out.push('"');
    let mut pending: usize = 0;
    let mut i: usize = 0;
    assert(s.skip(0) =~= s);
    while i < chars.len()
        invariant
            s == chars@,
            i <= s.len(),
            pending <= i,
            seq!['"'] + escape_quoted(s, 0) == out@ + escape_quoted(s.skip(i as int), pending as nat),
        decreases s.len() - i,
    {
        let ch = chars[i];
        let ghost before = out@;
        assert(s.skip(i as int).drop_first() =~= s.skip(i + 1));
        assert(s.skip(i as int)[0] == ch);
        if ch == '\\' {
            pending += 1;
        } else if ch == '"' {
            push_backslashes(&mut out, pending);
            push_backslashes(&mut out, pending);
            out.push('\\');
            out.push('"');
            assert(out@ =~= before + backslashes((2 * pending + 1) as nat) + seq!['"']);
            pending = 0;
        } else {
            push_backslashes(&mut out, pending);
            out.push(ch);
            pending = 0;
        }
        i += 1;
    }
    push_backslashes(&mut out, pending);
    push_backslashes(&mut out, pending);
    out.push('"');
    assert(s.skip(i as int) =~= Seq::<char>::empty());
    assert(backslashes(pending as nat) + backslashes(pending as nat) =~= backslashes(
        2 * pending as nat,
    ));
    assert(out@ =~= seq!['"'] + escape_quoted(s, 0) + seq!['"']);
    string_from_chars(&out)
}

/// An argument is kept as it is exactly when it is non-empty and holds no
/// space, tab, line feed, carriage return or double quote; any other argument
/// is written between double quotes.
pub proof fn lemma_quote_shape(s: Seq<char>)
    ensures
        (s.len() > 0 && forall|i: int|
            0 <= i < s.len() ==> #[trigger] s[i] != ' ' && s[i] != '\t' && s[i] != '\n' && s[i]
                != '\r' && s[i] != '"') ==> quote_arg(s) == s,
        !(s.len() > 0 && forall|i: int|
            0 <= i < s.len() ==> #[trigger] s[i] != ' ' && s[i] != '\t' && s[i] != '\n' && s[i]
                != '\r' && s[i] != '"') ==> quote_arg(s).len() >= 2 && quote_arg(s)[0] == '"'
            && quote_arg(s).last() == '"',
{
    if s.len() > 0 && forall|i: int|
        0 <= i < s.len() ==> #[trigger] s[i] != ' ' && s[i] != '\t' && s[i] != '\n' && s[i] != '\r'
            && s[i] != '"' {
        assert(!needs_quoting(s));
    } else {
        if s.len() > 0 {
            let i = choose|i: int|
                0 <= i < s.len() && !(#[trigger] s[i] != ' ' && s[i] != '\t' && s[i] != '\n' && s[i]
                    != '\r' && s[i] != '"');
            assert(forces_quotes(s[i]));
        }
        assert(needs_quoting(s));
    }
}

/// The command-line parameters for `args`: each argument quoted with
/// `quote_windows_arg`, separated by single spaces.
pub fn quoted_parameters(args: &[String]) -> (params: String)
    ensures
        params@ == join_quoted(string_views(args@)),
{
    let ghost views = string_views(args@);
    let mut params = String::new();
    let mut i: usize = 0;
    while i < args.len()
        invariant
            i <= args@.len(),
            views == string_views(args@),
            params@ == join_quoted(views.take(i as int)),
        decreases args@.len() - i,
    {
        let q = quote_windows_arg(args[i].as_str());
        assert(views.take(i + 1).drop_last() =~= views.take(i as int));
        assert(views.take(i + 1).last() == args@[i as int]@);
        if i == 0 {
            params.append(q.as_str());
            assert(params@ =~= join_quoted(views.take(1)));
        } else {
            let space = " ";
            proof {
                reveal_strlit(" ");
            }
            params.append(space);
            params.append(q.as_str());
        }
        i += 1;
    }
    assert(views.take(args@.len() as int) =~= views);
    params
}

// ---------------------------------------------------------------------------
// Round trip: Windows reads back exactly the arguments that were quoted
// ---------------------------------------------------------------------------

/// Backslashes are only counted until something other than a backslash comes.
proof fn lemma_read_backslashes(k: nat, r: Seq<char>, quoted: bool, m: nat)
    ensures
        read_arg(backslashes(k) + r, quoted, m) == read_arg(r, quoted, m + k),
    decreases k,
{
    if k > 0 {
        let s = backslashes(k) + r;
        assert(s[0] == '\\');
        assert(s.drop_first() =~= backslashes((k - 1) as nat) + r);
        lemma_read_backslashes((k - 1) as nat, r, quoted, m + 1);
    } else {
        assert(backslashes(0) + r =~= r);
    }
}

/// Inside quotes, the escaped form of `s` followed by the closing quote reads
/// back as `s`, with the `pending` backslashes in front.
proof fn lemma_read_escaped(s: Seq<char>, pending: nat, tail: Seq<char>)
    requires
        tail.len() == 0 || is_separator(tail[0]),
    ensures
        read_arg(escape_quoted(s, pending) + seq!['"'] + tail, true, 0) == (
            backslashes(pending) + s,
            tail,
        ),
    decreases s.len(),
{
    let close = seq!['"'] + tail;
    if s.len() == 0 {
        assert(escape_quoted(s, pending) + seq!['"'] + tail =~= backslashes(2 * pending) + close);
        lemma_read_backslashes(2 * pending, close, true, 0);
        assert(close[0] == '"');
        assert(close.drop_first() =~= tail);
        let r = read_arg(tail, false, 0);
        assert(r == (backslashes(0), tail));
        assert(backslashes(pending) + r.0 =~= backslashes(pending) + s);
    } else {
        let c = s[0];
        let rest = s.drop_first();
        if c == '\\' {
            lemma_read_escaped(rest, pending + 1, tail);
            assert(backslashes(pending + 1) + rest =~= backslashes(pending) + s);
        } else if c == '"' {
            let x = escape_quoted(rest, 0) + seq!['"'] + tail;
            assert(escape_quoted(s, pending) + seq!['"'] + tail =~= backslashes(2 * pending + 1) + (
            seq!['"'] + x));
            lemma_read_backslashes(2 * pending + 1, seq!['"'] + x, true, 0);
            assert((seq!['"'] + x).drop_first() =~= x);
            lemma_read_escaped(rest, 0, tail);
            assert(backslashes(0) + rest =~= rest);
            assert(backslashes(pending) + seq!['"'] + rest =~= backslashes(pending) + s);
        } else {
            let x = escape_quoted(rest, 0) + seq!['"'] + tail;
            assert(escape_quoted(s, pending) + seq!['"'] + tail =~= backslashes(pending) + (seq![c]
                + x));
            lemma_read_backslashes(pending, seq![c] + x, true, 0);
            assert((seq![c] + x).drop_first() =~= x);
            lemma_read_escaped(rest, 0, tail);
            assert(backslashes(0) + rest =~= rest);
            assert(backslashes(pending) + seq![c] + rest =~= backslashes(pending) + s);
        }
    }
}

/// Outside quotes, an argument free of separators and double quotes reads back
/// as itself, after the `k` backslashes read before it.
proof fn lemma_read_plain(s: Seq<char>, k: nat, tail: Seq<char>)
    requires
        forall|i: int| 0 <= i < s.len() ==> !forces_quotes(#[trigger] s[i]),
        tail.len() == 0 || is_separator(tail[0]),
    ensures
        read_arg(s + tail, false, k) == (backslashes(k) + s, tail),
    decreases s.len(),
{
    let input = s + tail;
    if s.len() == 0 {
        assert(input =~= tail);
        assert(backslashes(k) + s =~= backslashes(k));
    } else {
        let c = s[0];
        let rest = s.drop_first();
        assert(input[0] == c);
        assert(input.drop_first() =~= rest + tail);
        assert(!forces_quotes(s[0]));
        if c == '\\' {
            lemma_read_plain(rest, k + 1, tail);
            assert(backslashes(k + 1) + rest =~= backslashes(k) + s);
        } else {
            lemma_read_plain(rest, 0, tail);
            assert(backslashes(0) + rest =~= rest);
            assert(backslashes(k) + seq![c] + rest =~= backslashes(k) + s);
        }
    }
}

/// A quoted argument, followed by nothing or by a separator, reads back as the
/// argument it was made from, and the reader stops right after it.
pub proof fn lemma_quote_arg_reads_back(arg: Seq<char>, tail: Seq<char>)
    requires
        tail.len() == 0 || is_separator(tail[0]),
    ensures
        read_arg(quote_arg(arg) + tail, false, 0) == (arg, tail),
        quote_arg(arg).len() > 0,
        !is_separator(quote_arg(arg)[0]),
{
    if needs_quoting(arg) {
        let input = quote_arg(arg) + tail;
        let x = escape_quoted(arg, 0) + seq!['"'] + tail;
        assert(input =~= seq!['"'] + x);
        assert(input.drop_first() =~= x);
        lemma_read_escaped(arg, 0, tail);
        assert(backslashes(0) + arg =~= arg);
        assert(backslashes(0) + read_arg(x, true, 0).0 =~= arg);
    } else {
        assert(forall|i: int| 0 <= i < arg.len() ==> !forces_quotes(#[trigger] arg[i]));
        lemma_read_plain(arg, 0, tail);
        assert(backslashes(0) + arg =~= arg);
        assert(!forces_quotes(arg[0]));
    }
}

/// Splitting off the first argument of a joined list.
proof fn lemma_join_quoted_front(args: Seq<Seq<char>>)
    requires
        args.len() >= 2,
    ensures
        join_quoted(args) =~= quote_arg(args[0]) + seq![' '] + join_quoted(args.drop_first()),
    decreases args.len(),
{
    let front = args.drop_first();
    if args.len() == 2 {
        assert(args.drop_last() =~= seq![args[0]]);
        assert(front =~= seq![args[1]]);
        assert(join_quoted(args.drop_last()) == quote_arg(args[0]));
        assert(join_quoted(front) == quote_arg(args[1]));
    } else {
        lemma_join_quoted_front(args.drop_last());
        assert(args.drop_last().drop_first() =~= front.drop_last());
        assert(front.last() == args.last());
        assert(args.drop_last()[0] == args[0]);
        assert(join_quoted(front) == join_quoted(front.drop_last()) + seq![' '] + quote_arg(
            front.last(),
        ));
    }
}

/// Quoting a list of arguments and joining them with spaces is undone by the
/// way Windows splits a command line: the split gives back exactly the list.
pub proof fn lemma_split_join_quoted(args: Seq<Seq<char>>)
    ensures
        split_command_line(join_quoted(args)) == args,
    decreases args.len(),
{
    if args.len() == 0 {
        assert(split_command_line(join_quoted(args)) =~= args);
    } else if args.len() == 1 {
        let j = join_quoted(args);
        lemma_quote_arg_reads_back(args[0], Seq::empty());
        assert(quote_arg(args[0]) + Seq::<char>::empty() =~= j);
        assert(split_command_line(Seq::<char>::empty()) =~= Seq::<Seq<char>>::empty());
        assert(split_command_line(j) =~= args);
    } else {
        let j = join_quoted(args);
        let rest = join_quoted(args.drop_first());
        lemma_join_quoted_front(args);
        let tail = seq![' '] + rest;
        lemma_quote_arg_reads_back(args[0], tail);
        assert(quote_arg(args[0]) + tail =~= j);
        assert(j[0] == quote_arg(args[0])[0]);
        assert(tail.drop_first() =~= rest);
        lemma_split_join_quoted(args.drop_first());
        assert(split_command_line(tail) == split_command_line(rest));
        assert(split_command_line(j) =~= seq![args[0]] + args.drop_first());
        assert(seq![args[0]] + args.drop_first() =~= args);
    }
}

} // verus!
