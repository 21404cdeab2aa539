//! The command line of a relaunched process: each argument quoted the way
//! Windows programs split their command line again.
use vstd::prelude::*;

use crate::text::{chars_of, join_strings, join_with, push_char, string_views};

verus! {

/// `n` backslashes.
pub open spec fn backslashes(n: nat) -> Seq<char> {
    Seq::new(n, |i: int| '\\')
}

/// A character that makes an argument need quotes.
pub open spec fn needs_quote_char(c: char) -> bool {
    c == ' ' || c == '\t' || c == '"'
}

/// The argument holds a space, a tab or a double quote.
pub open spec fn needs_quotes(s: Seq<char>) -> bool {
    exists|i: int| 0 <= i < s.len() && needs_quote_char(#[trigger] s[i])
}

/// The quoted text of `s` so far, and the backslashes read but not yet
/// written: a run of backslashes is written once the next character shows
/// whether it stands before a double quote (then doubled, plus one to escape
/// the quote) or not (then as it is).
pub open spec fn quote_state(s: Seq<char>) -> (Seq<char>, nat)
    decreases s.len(),
{
    if s.len() == 0 {
        (Seq::empty(), 0)
    } else {
        let (out, b) = quote_state(s.drop_last());
        let c = s.last();
        if c == '\\' {
            (out, b + 1)
        } else if c == '"' {
            (out + backslashes(2 * b + 1) + seq!['"'], 0)
        } else {
            (out + backslashes(b) + seq![c], 0)
        }
    }
}

/// The argument as written on a command line: unchanged where it holds no
/// space, tab or double quote; otherwise in double quotes, with each double
/// quote escaped and the backslashes before a double quote (or before the
/// closing one) doubled.
pub open spec fn quoted(s: Seq<char>) -> Seq<char> {
    if !needs_quotes(s) {
        s
    } else {
        let (out, b) = quote_state(s);
        seq!['"'] + out + backslashes(2 * b) + seq!['"']
    }
}

fn push_backslashes(out: &mut String, n: usize)
    ensures
        final(out)@ == old(out)@ + backslashes(n as nat),
{
    let mut k: usize = 0;
    while k < n
        invariant
            k <= n,
            out@ == old(out)@ + backslashes(k as nat),
        decreases n - k,
    {
        push_char(out, '\\');
        assert(backslashes((k + 1) as nat) =~= backslashes(k as nat).push('\\'));
        k += 1;
    }
}

/// The argument quoted for a Windows command line.
pub fn quote_windows_arg(arg: &str) -> (q: String)
    ensures
        q@ == quoted(arg@),
{
    let chars = chars_of(arg);
    let mut special = false;
    let mut i: usize = 0;
    while i < chars.len()
        invariant
            i <= chars.len(),
            chars@ == arg@,
            special <==> exists|j: int| 0 <= j < i && needs_quote_char(#[trigger] chars@[j]),
        decreases chars.len() - i,
    {
        let c = chars[i];
        if c == ' ' || c == '\t' || c == '"' {
            special = true;
        }
        i += 1;
    }
    if !special {
        let mut same = String::new();
        let mut k: usize = 0;
        while k < chars.len()
            invariant
                k <= chars.len(),
                same@ == chars@.take(k as int),
            decreases chars.len() - k,
        {
            push_char(&mut same, chars[k]);
            assert(chars@.take(k + 1) =~= chars@.take(k as int).push(chars@[k as int]));
            k += 1;
        }
        assert(chars@.take(chars.len() as int) =~= chars@);
        return same;
    }
    let mut out = String::new();
    push_char(&mut out, '"');
    let mut pending: usize = 0;
    let mut k: usize = 0;
    assert(chars@.take(0) =~= Seq::<char>::empty());
    while k < chars.len()
        invariant
            k <= chars.len(),
            pending <= k,
            out@ == seq!['"'] + quote_state(chars@.take(k as int)).0,
            pending == quote_state(chars@.take(k as int)).1,
        decreases chars.len() - k,
    {
        let c = chars[k];
        let ghost before = out@;
        assert(chars@.take(k + 1).drop_last() =~= chars@.take(k as int));
        if c == '\\' {
            pending += 1;
        } else if c == '"' {
            push_backslashes(&mut out, pending);
            push_backslashes(&mut out, pending);
            push_char(&mut out, '\\');
            push_char(&mut out, '"');
            assert(backslashes(pending as nat) + backslashes(pending as nat) + seq!['\\']
                =~= backslashes((2 * pending + 1) as nat));
            assert(out@ =~= before + backslashes((2 * pending + 1) as nat) + seq!['"']);
            pending = 0;
        } else {
            push_backslashes(&mut out, pending);
            push_char(&mut out, c);
            assert(out@ =~= before + backslashes(pending as nat) + seq![c]);
            pending = 0;
        }
        k += 1;
    }
    assert(chars@.take(chars.len() as int) =~= chars@);
    let ghost body = out@;
    push_backslashes(&mut out, pending);
    push_backslashes(&mut out, pending);
    push_char(&mut out, '"');
    assert(backslashes(pending as nat) + backslashes(pending as nat) =~= backslashes(
        (2 * pending) as nat,
    ));
    assert(out@ =~= body + backslashes((2 * pending) as nat) + seq!['"']);
    out
}

/// The arguments quoted and joined with single spaces.
pub fn join_windows_args(args: &Vec<String>) -> (line: String)
    ensures
        line@ == join_with(string_views(args@).map_values(|a: Seq<char>| quoted(a)), seq![' ']),
{
    let mut parts: Vec<String> = Vec::new();
    let mut i: usize = 0;
    while i < args.len()
        invariant
            i <= args.len(),
            string_views(parts@) =~= string_views(args@).take(i as int).map_values(
                |a: Seq<char>| quoted(a),
            ),
        decreases args.len() - i,
    {
        let q = quote_windows_arg(args[i].as_str());
        let ghost old_parts = parts@;
        parts.push(q);
        assert(string_views(parts@) =~= string_views(old_parts).push(q@));
        assert(string_views(args@).take(i + 1) =~= string_views(args@).take(i as int).push(
            args@[i as int]@,
        ));
        i += 1;
    }
    assert(string_views(args@).take(args.len() as int) =~= string_views(args@));
    let sep = " ";
    proof {
        reveal_strlit(" ");
    }
    assert(sep@ =~= seq![' ']);
    join_strings(&parts, sep)
}

/// The arguments read from a command line by the Windows rules. A run of
/// backslashes followed by a double quote gives half of them (rounded down),
/// and the quote is a literal one when the run is odd, else it opens or
/// closes a quoted part; backslashes not followed by a double quote are kept
/// as they are; spaces and tabs outside quotes end an argument, and several
/// of them in a row separate only once. `quoting` tells whether a quoted part
/// is open, `pending` how many backslashes were read but not yet given,
/// `current` the argument read so far and `started` whether one is begun.
pub open spec fn split_arguments(
    line: Seq<char>,
    quoting: bool,
    pending: nat,
    current: Seq<char>,
    started: bool,
) -> Seq<Seq<char>>
    decreases line.len(),
{
    if line.len() == 0 {
        if started {
            seq![current + backslashes(pending)]
        } else {
            Seq::empty()
        }
    } else {
        let c = line[0];
        let rest = line.drop_first();
        if c == '\\' {
            split_arguments(rest, quoting, pending + 1, current, true)
        } else if c == '"' {
            if pending % 2 == 1 {
                split_arguments(rest, quoting, 0, current + backslashes(pending / 2) + seq!['"'], true)
            } else {
                split_arguments(rest, !quoting, 0, current + backslashes(pending / 2), true)
            }
        } else if (c == ' ' || c == '\t') && !quoting {
            if started {
                seq![current + backslashes(pending)] + split_arguments(rest, false, 0, Seq::empty(), false)
            } else {
                split_arguments(rest, false, 0, Seq::empty(), false)
            }
        } else {
            split_arguments(rest, quoting, 0, current + backslashes(pending) + seq![c], true)
        }
    }
}

/// The arguments read from a whole command line.
pub open spec fn command_line_arguments(line: Seq<char>) -> Seq<Seq<char>> {
    split_arguments(line, false, 0, Seq::empty(), false)
}

/// Reading a run of backslashes only adds them to the pending ones.
proof fn lemma_split_backslashes(
    k: nat,
    t: Seq<char>,
    quoting: bool,
    pending: nat,
    current: Seq<char>,
)
    ensures
        split_arguments(backslashes(k) + t, quoting, pending, current, true) == split_arguments(
            t,
            quoting,
            pending + k,
            current,
            true,
        ),
    decreases k,
{
    if k > 0 {
        let line = backslashes(k) + t;
        assert(line[0] == '\\');
        assert(line.drop_first() =~= backslashes((k - 1) as nat) + t);
        lemma_split_backslashes((k - 1) as nat, t, quoting, pending + 1, current);
    } else {
        assert(backslashes(0) + t =~= t);
    }
}

/// Inside quotes, the quoted text of `s` adds to the argument `s` without the
/// backslashes still pending at its end.
proof fn lemma_split_quote_state(s: Seq<char>, t: Seq<char>, current: Seq<char>)
    ensures
        split_arguments(quote_state(s).0 + t, true, 0, current, true) == split_arguments(
            t,
            true,
            0,
            current + s.take(s.len() - quote_state(s).1),
            true,
        ),
        quote_state(s).1 <= s.len(),
        s.skip(s.len() - quote_state(s).1) == backslashes(quote_state(s).1),
    decreases s.len(),
{
    if s.len() == 0 {
        assert(Seq::<char>::empty() + t =~= t);
        assert(current + s.take(0) =~= current);
        assert(s.skip(0) =~= backslashes(0));
    } else {
        let init = s.drop_last();
        let c = s.last();
        let (out0, b0) = quote_state(init);
        let cur0 = current + init.take(init.len() - b0);
        assert(init.take(init.len() - b0) + backslashes(b0) =~= init) by {
            lemma_split_quote_state(init, t, current);
            assert(init =~= init.take(init.len() - b0) + init.skip(init.len() - b0));
        }
        if c == '\\' {
            lemma_split_quote_state(init, t, current);
            assert(s.take(s.len() - (b0 + 1)) =~= init.take(init.len() - b0));
            assert(s.skip(s.len() - (b0 + 1)) =~= init.skip(init.len() - b0).push('\\'));
            assert(backslashes(b0).push('\\') =~= backslashes(b0 + 1));
        } else if c == '"' {
            let after = seq!['"'] + t;
            let tail = backslashes(2 * b0 + 1) + after;
            lemma_split_quote_state(init, tail, current);
            assert(out0 + backslashes(2 * b0 + 1) + seq!['"'] + t =~= out0 + tail);
            lemma_split_backslashes(2 * b0 + 1, after, true, 0, cur0);
            assert(after[0] == '"');
            assert(after.drop_first() =~= t);
            assert((0 + (2 * b0 + 1)) as nat / 2 == b0);
            assert(s.take(s.len() - 0) =~= init.push('"'));
            assert(s.skip(s.len() - 0) =~= backslashes(0));
            assert(cur0 + backslashes(b0) + seq!['"'] =~= current + s.take(s.len() - 0));
        } else {
            let after = seq![c] + t;
            let tail = backslashes(b0) + after;
            lemma_split_quote_state(init, tail, current);
            assert(out0 + backslashes(b0) + seq![c] + t =~= out0 + tail);
            lemma_split_backslashes(b0, after, true, 0, cur0);
            assert(after[0] == c);
            assert(after.drop_first() =~= t);
            assert(s.take(s.len() - 0) =~= init.push(c));
            assert(s.skip(s.len() - 0) =~= backslashes(0));
            assert(cur0 + backslashes(b0) + seq![c] =~= current + s.take(s.len() - 0));
        }
    }
}

/// What follows an argument on a command line: nothing, or a space and more.
pub open spec fn ends_argument(t: Seq<char>) -> bool {
    t.len() == 0 || t[0] == ' '
}

/// The arguments read once an argument `a` is complete and `t` follows it.
pub open spec fn arguments_after(a: Seq<char>, t: Seq<char>) -> Seq<Seq<char>> {
    if t.len() == 0 {
        seq![a]
    } else {
        seq![a] + command_line_arguments(t.drop_first())
    }
}

/// At the end of an argument, outside quotes, a space or the end of the line
/// completes it.
proof fn lemma_split_end(t: Seq<char>, pending: nat, current: Seq<char>)
    requires
        ends_argument(t),
    ensures
        split_arguments(t, false, pending, current, true) == arguments_after(
            current + backslashes(pending),
            t,
        ),
{
}

/// Text without spaces, tabs or double quotes adds to the argument as it is.
proof fn lemma_split_plain(a: Seq<char>, t: Seq<char>, pending: nat, current: Seq<char>, started: bool)
    requires
        !needs_quotes(a),
        ends_argument(t),
        started || a.len() > 0,
    ensures
        split_arguments(a + t, false, pending, current, started) == arguments_after(
            current + backslashes(pending) + a,
            t,
        ),
    decreases a.len(),
{
    if a.len() == 0 {
        assert(a + t =~= t);
        lemma_split_end(t, pending, current);
        assert(current + backslashes(pending) + a =~= current + backslashes(pending));
    } else {
        let rest = a.drop_first();
        let line = a + t;
        assert(line[0] == a[0]);
        assert(line.drop_first() =~= rest + t);
        assert(!needs_quote_char(a[0]));
        assert(!needs_quotes(rest)) by {
            if needs_quotes(rest) {
                let i = choose|i: int| 0 <= i < rest.len() && needs_quote_char(#[trigger] rest[i]);
                assert(rest[i] == a[i + 1]);
            }
        }
        if a[0] == '\\' {
            lemma_split_plain(rest, t, pending + 1, current, true);
            assert(current + backslashes(pending + 1) + rest =~= current + backslashes(pending) + a);
        } else {
            let cur1 = current + backslashes(pending) + seq![a[0]];
            lemma_split_plain(rest, t, 0, cur1, true);
            assert(cur1 + backslashes(0) + rest =~= current + backslashes(pending) + a);
        }
    }
}

/// A quoted argument is read as one whole argument equal to the original,
/// when a space or the end of the line follows it.
proof fn lemma_split_quoted(a: Seq<char>, t: Seq<char>)
    requires
        a.len() > 0,
        ends_argument(t),
    ensures
        split_arguments(quoted(a) + t, false, 0, Seq::empty(), false) == arguments_after(a, t),
{
    if !needs_quotes(a) {
        lemma_split_plain(a, t, 0, Seq::empty(), false);
        assert(Seq::<char>::empty() + backslashes(0) + a =~= a);
    } else {
        let (out, b) = quote_state(a);
        let close = seq!['"'] + t;
        let body = out + (backslashes(2 * b) + close);
        let line = seq!['"'] + out + backslashes(2 * b) + seq!['"'] + t;
        assert(quoted(a) + t =~= line);
        assert(line[0] == '"');
        assert(line.drop_first() =~= body);
        assert(Seq::<char>::empty() + backslashes(0) =~= Seq::<char>::empty());
        lemma_split_quote_state(a, backslashes(2 * b) + close, Seq::empty());
        let cur = Seq::<char>::empty() + a.take(a.len() - b);
        lemma_split_backslashes(2 * b, close, true, 0, cur);
        assert(close[0] == '"');
        assert(close.drop_first() =~= t);
        assert((0 + 2 * b) as nat / 2 == b);
        lemma_split_end(t, 0, cur + backslashes(b));
        assert(a =~= a.take(a.len() - b) + a.skip(a.len() - b));
        assert(cur + backslashes(b) + backslashes(0) =~= a);
    }
}

/// A non-empty argument written for a Windows command line is read back as
/// exactly one argument, equal to it.
pub proof fn lemma_quoted_reads_back(arg: Seq<char>)
    requires
        arg.len() > 0,
    ensures
        command_line_arguments(quoted(arg)) == seq![arg],
{
    lemma_split_quoted(arg, Seq::empty());
    assert(quoted(arg) + Seq::<char>::empty() =~= quoted(arg));
}

proof fn lemma_join_front(parts: Seq<Seq<char>>, sep: Seq<char>)
    requires
        parts.len() >= 2,
    ensures
        join_with(parts, sep) == parts[0] + sep + join_with(parts.drop_first(), sep),
    decreases parts.len(),
{
    let init = parts.drop_last();
    let tail = parts.drop_first();
    assert(join_with(parts, sep) == join_with(init, sep) + sep + parts.last());
    if parts.len() > 2 {
        lemma_join_front(init, sep);
        assert(init.drop_first() =~= tail.drop_last());
        assert(tail.last() == parts.last());
        assert(init[0] == parts[0]);
        assert(join_with(tail, sep) == join_with(tail.drop_last(), sep) + sep + tail.last());
        assert(join_with(parts, sep) =~= parts[0] + sep + join_with(tail, sep));
    } else {
        assert(init.len() == 1);
        assert(tail.len() == 1);
        assert(join_with(init, sep) == init[0]);
        assert(join_with(tail, sep) == tail[0]);
        assert(init[0] == parts[0]);
        assert(tail[0] == parts.last());
    }
}

/// Non-empty arguments quoted and joined with single spaces are read back as
/// the same arguments, in order: the relaunched process receives the
/// arguments it was given.
pub proof fn lemma_joined_arguments_read_back(args: Seq<Seq<char>>)
    requires
        forall|i: int| 0 <= i < args.len() ==> (#[trigger] args[i]).len() > 0,
    ensures
        command_line_arguments(join_with(args.map_values(|a: Seq<char>| quoted(a)), seq![' ']))
            == args,
    decreases args.len(),
{
    let q = args.map_values(|a: Seq<char>| quoted(a));
    if args.len() == 0 {
        assert(join_with(q, seq![' ']) =~= Seq::<char>::empty());
        assert(command_line_arguments(Seq::<char>::empty()) =~= args);
    } else if args.len() == 1 {
        assert(args[0].len() > 0);
        assert(join_with(q, seq![' ']) == q[0]);
        lemma_quoted_reads_back(args[0]);
        assert(seq![args[0]] =~= args);
    } else {
        let rest = args.drop_first();
        assert forall|i: int| 0 <= i < rest.len() implies (#[trigger] rest[i]).len() > 0 by {
            assert(rest[i] == args[i + 1]);
        }
        lemma_joined_arguments_read_back(rest);
        let qr = rest.map_values(|a: Seq<char>| quoted(a));
        assert(q.drop_first() =~= qr);
        lemma_join_front(q, seq![' ']);
        let t = seq![' '] + join_with(qr, seq![' ']);
        assert(join_with(q, seq![' ']) =~= q[0] + t);
        assert(t[0] == ' ');
        assert(t.drop_first() =~= join_with(qr, seq![' ']));
        assert(args[0].len() > 0);
        lemma_split_quoted(args[0], t);
        assert(seq![args[0]] + rest =~= args);
    }
}

} // verus!
