//! Shell command history: parsing history files, recording commands, and
//! finding suggestions and search results.

use std::collections::VecDeque;
use vstd::prelude::*;

use crate::seqs::{dedup, is_prefix, keep_last, opt_view, rev, take_at_most, views};
use crate::text::{
    chars_are_subsequence, chars_contain, chars_have_token_prefix, contains, has_token_prefix,
    is_subsequence, spec_to_lowercase, str_to_lowercase,
    chars_start_with, starts_with, str_chars, string_from_chars, trim, trim_bounds, trimmed_nonempty,
    trimmed_string,
};

verus! {

/// How many commands a terminal session remembers.
pub const SESSION_HISTORY_LIMIT: usize = 256;

/// How many commands are kept from a shell history file.
pub const PERSISTED_HISTORY_LIMIT: usize = 512;

/// The layout of a shell history file.
#[derive(Clone, Copy, Debug, PartialEq, Eq, Structural)]
pub enum ShellHistoryFormat {
    /// One command per line.
    Bash,
    /// Zsh extended history: `: <time>:<duration>;<command>` per line.
    Zsh,
}

/// The command that a history line records: `command` trimmed, unless that is empty.
pub open spec fn normalized(command: Seq<char>) -> Option<Seq<char>> {
    trimmed_nonempty(command)
}

/// Trims `command` and rejects it when nothing is left.
pub fn normalize_history_command(command: &str) -> (r: Option<String>)
    ensures
        opt_view(r) == normalized(command@),
{
    let v = str_chars(command);
    assert(v@.subrange(0, v@.len() as int) =~= v@);
    trimmed_string(&v, 0, v.len())
}

// ---------------------------------------------------------------------------
// Lines of a text, as `str::lines` splits them.

/// `line` without one trailing carriage return.
pub open spec fn strip_cr(line: Seq<char>) -> Seq<char> {
    if line.len() > 0 && line.last() == '\r' {
        line.drop_last()
    } else {
        line
    }
}

/// The lines of `s`, when `cur` has already been read of the current line.
/// A line ends at `\n` (a `\r` just before it is dropped); a last line without
/// `\n` counts when it is not empty.
pub open spec fn lines_from(s: Seq<char>, cur: Seq<char>) -> Seq<Seq<char>>
    decreases s.len(),
{
    if s.len() == 0 {
        if cur.len() == 0 {
            seq![]
        } else {
            seq![cur]
        }
    } else if s[0] == '\n' {
        seq![strip_cr(cur)] + lines_from(s.drop_first(), seq![])
    } else {
        lines_from(s.drop_first(), cur.push(s[0]))
    }
}

/// The lines of `s`, as `str::lines` yields them.
pub open spec fn text_lines(s: Seq<char>) -> Seq<Seq<char>> {
    lines_from(s, seq![])
}

/// The lines of `text`, as `str::lines` yields them.
pub fn split_lines(text: &str) -> (r: Vec<String>)
    ensures
        views(r@) == text_lines(text@),
{
    let v = str_chars(text);
    let mut out: Vec<String> = Vec::new();
    let mut start: usize = 0;
    let mut i: usize = 0;
    assert(v@.skip(0) =~= v@);
    assert(v@.subrange(0, 0) =~= Seq::<char>::empty());
    while i < v.len()
        invariant
            start <= i <= v.len(),
            v@ == text@,
            text_lines(text@) == views(out@) + lines_from(
                v@.skip(i as int),
                v@.subrange(start as int, i as int),
            ),
        decreases v.len() - i,
    {
        let ghost cur = v@.subrange(start as int, i as int);
        let ghost rest = v@.skip(i as int);
        assert(rest.drop_first() =~= v@.skip(i + 1));
        if v[i] == '\n' {
            let end = if i > start && v[i - 1] == '\r' {
                i - 1
            } else {
                i
            };
            assert(v@.subrange(start as int, end as int) =~= strip_cr(cur));
            let ghost before = out@;
            out.push(string_from_chars(&v, start, end));
            let ghost tail = lines_from(v@.skip(i + 1), seq![]);
            assert(lines_from(rest, cur) == seq![strip_cr(cur)] + tail);
            assert(views(out@) =~= views(before).push(strip_cr(cur)));
            assert(views(before) + (seq![strip_cr(cur)] + tail) =~= views(out@) + tail);
            start = i + 1;
            assert(v@.subrange(start as int, i + 1) =~= Seq::<char>::empty());
        } else {
            assert(cur.push(v@[i as int]) =~= v@.subrange(start as int, i + 1));
        }
        i += 1;
    }
    let ghost cur = v@.subrange(start as int, i as int);
    let ghost before = out@;
    assert(v@.skip(i as int) =~= Seq::<char>::empty());
    if start < i {
        out.push(string_from_chars(&v, start, i));
        assert(views(out@) =~= views(before) + seq![cur]);
    } else {
        assert(cur =~= Seq::<char>::empty());
        assert(views(out@) =~= views(before) + Seq::<Seq<char>>::empty());
    }
    out
}

/// What follows the first `c` in `s`, if `c` occurs.
pub open spec fn after_first(s: Seq<char>, c: char) -> Option<Seq<char>>
    decreases s.len(),
{
    if s.len() == 0 {
        None
    } else if s[0] == c {
        Some(s.drop_first())
    } else {
        after_first(s.drop_first(), c)
    }
}

/// The command that one line of a history file records.
pub open spec fn history_entry(line: Seq<char>, format: ShellHistoryFormat) -> Option<Seq<char>> {
    match format {
        ShellHistoryFormat::Bash => normalized(line),
        ShellHistoryFormat::Zsh => match after_first(line, ';') {
            Some(command) => normalized(command),
            None => normalized(line),
        },
    }
}

/// The value of `o` as a sequence of zero or one elements.
pub open spec fn opt_seq<A>(o: Option<A>) -> Seq<A> {
    match o {
        Some(x) => seq![x],
        None => seq![],
    }
}

/// The commands that `lines` record, in order.
pub open spec fn history_entries(lines: Seq<Seq<char>>, format: ShellHistoryFormat) -> Seq<
    Seq<char>,
>
    decreases lines.len(),
{
    if lines.len() == 0 {
        seq![]
    } else {
        history_entries(lines.drop_last(), format) + opt_seq(
            history_entry(lines.last(), format),
        )
    }
}

/// The commands of a history file's text.
pub open spec fn parsed_history(contents: Seq<char>, format: ShellHistoryFormat) -> Seq<
    Seq<char>,
> {
    history_entries(text_lines(contents), format)
}

proof fn lemma_history_entries_append(
    a: Seq<Seq<char>>,
    b: Seq<Seq<char>>,
    format: ShellHistoryFormat,
)
    ensures
        history_entries(a + b, format) == history_entries(a, format) + history_entries(
            b,
            format,
        ),
    decreases b.len(),
{
    if b.len() == 0 {
        assert(a + b =~= a);
        assert(history_entries(a, format) + history_entries(b, format) =~= history_entries(
            a,
            format,
        ));
    } else {
        lemma_history_entries_append(a, b.drop_last(), format);
        assert((a + b).drop_last() =~= a + b.drop_last());
        assert((a + b).last() == b.last());
        assert(history_entries(a + b, format) =~= history_entries(a, format) + history_entries(
            b,
            format,
        ));
    }
}

proof fn lemma_history_entries_single(line: Seq<char>, format: ShellHistoryFormat)
    ensures
        history_entries(seq![line], format) == opt_seq(history_entry(line, format)),
{
    assert(seq![line].drop_last() =~= Seq::<Seq<char>>::empty());
    assert(history_entries(Seq::<Seq<char>>::empty(), format) =~= Seq::<Seq<char>>::empty());
    assert(Seq::<Seq<char>>::empty() + opt_seq(history_entry(line, format)) =~= opt_seq(
        history_entry(line, format),
    ));
}

pub(crate) proof fn lemma_after_first(s: Seq<char>, c: char, j: int)
    requires
        0 <= j <= s.len(),
        forall|k: int| 0 <= k < j ==> s[k] != c,
        j < s.len() ==> s[j] == c,
    ensures
        after_first(s, c) == (if j < s.len() {
            Some(s.subrange(j + 1, s.len() as int))
        } else {
            None::<Seq<char>>
        }),
    decreases j,
{
    if j == 0 {
        if s.len() > 0 {
            assert(s.drop_first() =~= s.subrange(1, s.len() as int));
        }
    } else {
        lemma_after_first(s.drop_first(), c, j - 1);
        if j < s.len() {
            assert(s.drop_first().subrange(j, s.len() - 1) =~= s.subrange(j + 1, s.len() as int));
        }
    }
}

proof fn lemma_one_line(s: Seq<char>, cur: Seq<char>)
    requires
        forall|k: int| 0 <= k < s.len() ==> s[k] != '\n',
    ensures
        lines_from(s.push('\n'), cur) == seq![strip_cr(cur + s)],
    decreases s.len(),
{
    if s.len() == 0 {
        assert(cur + s =~= cur);
        assert(s.push('\n').drop_first() =~= Seq::<char>::empty());
        assert(s.push('\n')[0] == '\n');
        assert(lines_from(Seq::<char>::empty(), Seq::<char>::empty()) =~= Seq::<Seq<char>>::empty());
        assert(seq![strip_cr(cur)] + Seq::<Seq<char>>::empty() =~= seq![strip_cr(cur)]);
    } else {
        assert(s.push('\n')[0] == s[0]);
        assert(s.push('\n').drop_first() =~= s.drop_first().push('\n'));
        assert forall|k: int| 0 <= k < s.drop_first().len() implies s.drop_first()[k] != '\n' by {
            assert(s.drop_first()[k] == s[k + 1]);
        }
        assert(s.push('\n').len() > 0 && s.push('\n')[0] != '\n');
        lemma_one_line(s.drop_first(), cur.push(s[0]));
        assert(cur.push(s[0]) + s.drop_first() =~= cur + s);
    }
}

/// A zsh extended history line `<header>;<command>`, where the header (`: <time>:<duration>`)
/// holds no `;`, records the command trimmed, whatever `;` the command itself holds; a
/// blank command records nothing. A history file of that one line holds just that.
pub proof fn lemma_zsh_line_records_text_after_first_semicolon(header: Seq<char>, command: Seq<char>)
    requires
        forall|k: int| 0 <= k < header.len() ==> header[k] != ';' && header[k] != '\n',
        forall|k: int| 0 <= k < command.len() ==> command[k] != '\n',
        command.len() > 0 ==> command.last() != '\r',
    ensures
        history_entry(header + seq![';'] + command, ShellHistoryFormat::Zsh) == (if trim(command).len() == 0 {
            None
        } else {
            Some(trim(command))
        }),
        parsed_history(header + seq![';'] + command + seq!['\n'], ShellHistoryFormat::Zsh) == (if trim(
            command,
        ).len() == 0 {
            Seq::<Seq<char>>::empty()
        } else {
            seq![trim(command)]
        }),
{
    let line = header + seq![';'] + command;
    let h = header.len() as int;
    assert forall|k: int| 0 <= k < h implies line[k] != ';' by {
        assert(line[k] == header[k]);
    }
    assert(line[h] == ';');
    lemma_after_first(line, ';', h);
    assert(line.subrange(h + 1, line.len() as int) =~= command);
    assert forall|k: int| 0 <= k < line.len() implies line[k] != '\n' by {
        if k < h {
            assert(line[k] == header[k]);
        } else if k > h {
            assert(line[k] == command[k - h - 1]);
        }
    }
    lemma_one_line(line, seq![]);
    assert(Seq::<char>::empty() + line =~= line);
    assert(line + seq!['\n'] =~= line.push('\n'));
    if command.len() > 0 {
        assert(line.last() == command.last());
    }
    assert(strip_cr(line) == line);
    lemma_history_entries_single(line, ShellHistoryFormat::Zsh);
}

/// A bash history line records itself, trimmed; a blank line records nothing.
pub proof fn lemma_bash_line_records_itself(line: Seq<char>)
    ensures
        history_entry(line, ShellHistoryFormat::Bash) == (if trim(line).len() == 0 {
            None
        } else {
            Some(trim(line))
        }),
{
}

/// The command that `v[lo..hi]`, one line of a history file, records.
fn entry_of_line(v: &Vec<char>, lo: usize, hi: usize, format: ShellHistoryFormat) -> (r: Option<
    String,
>)
    requires
        lo <= hi <= v.len(),
    ensures
        opt_view(r) == history_entry(v@.subrange(lo as int, hi as int), format),
{
    match format {
        ShellHistoryFormat::Bash => trimmed_string(v, lo, hi),
        ShellHistoryFormat::Zsh => {
            let ghost line = v@.subrange(lo as int, hi as int);
            let mut j = lo;
            while j < hi && v[j] != ';'
                invariant
                    lo <= j <= hi <= v.len(),
                    line == v@.subrange(lo as int, hi as int),
                    forall|k: int| lo <= k < j ==> v@[k] != ';',
                decreases hi - j,
            {
                j += 1;
            }
            proof {
                lemma_after_first(line, ';', j - lo);
            }
            if j < hi {
                assert(line.subrange(j - lo + 1, line.len() as int) =~= v@.subrange(
                    j + 1,
                    hi as int,
                ));
                trimmed_string(v, j + 1, hi)
            } else {
                trimmed_string(v, lo, hi)
            }
        },
    }
}

/// The commands that a shell history file records, one per non-blank line.
pub fn parse_shell_history(contents: &str, format: ShellHistoryFormat) -> (r: Vec<String>)
    ensures
        views(r@) == parsed_history(contents@, format),
{
    let v = str_chars(contents);
    let mut out: Vec<String> = Vec::new();
    let mut start: usize = 0;
    let mut i: usize = 0;
    assert(v@.skip(0) =~= v@);
    assert(v@.subrange(0, 0) =~= Seq::<char>::empty());
    while i < v.len()
        invariant
            start <= i <= v.len(),
            v@ == contents@,
            parsed_history(contents@, format) == views(out@) + history_entries(
                lines_from(v@.skip(i as int), v@.subrange(start as int, i as int)),
                format,
            ),
        decreases v.len() - i,
    {
        let ghost cur = v@.subrange(start as int, i as int);
        let ghost rest = v@.skip(i as int);
        assert(rest.drop_first() =~= v@.skip(i + 1));
        if v[i] == '\n' {
            let end = if i > start && v[i - 1] == '\r' {
                i - 1
            } else {
                i
            };
            assert(v@.subrange(start as int, end as int) =~= strip_cr(cur));
            let entry = entry_of_line(&v, start, end, format);
            proof {
                let tail = lines_from(v@.skip(i + 1), seq![]);
                assert(lines_from(rest, cur) == seq![strip_cr(cur)] + tail);
                lemma_history_entries_append(seq![strip_cr(cur)], tail, format);
                lemma_history_entries_single(strip_cr(cur), format);
                assert(history_entries(seq![strip_cr(cur)], format) =~= opt_seq(
                    history_entry(strip_cr(cur), format),
                ));
            }
            let ghost before = out@;
            match entry {
                Some(e) => {
                    out.push(e);
                },
                None => {},
            }
            assert(views(out@) =~= views(before) + opt_seq(history_entry(strip_cr(cur), format)));
            start = i + 1;
            assert(v@.subrange(start as int, i + 1) =~= Seq::<char>::empty());
        } else {
            assert(cur.push(v@[i as int]) =~= v@.subrange(start as int, i + 1));
        }
        i += 1;
    }
    let ghost cur = v@.subrange(start as int, i as int);
    let ghost before = out@;
    if start < i {
        let entry = entry_of_line(&v, start, i, format);
        proof {
            lemma_history_entries_single(cur, format);
        }
        match entry {
            Some(e) => {
                out.push(e);
            },
            None => {},
        }
        assert(views(out@) =~= views(before) + opt_seq(history_entry(cur, format)));
    }
    assert(v@.skip(i as int) =~= Seq::<char>::empty());
    proof {
        if start == i {
            assert(cur =~= Seq::<char>::empty());
            assert(history_entries(Seq::<Seq<char>>::empty(), format) =~= Seq::<Seq<char>>::empty());
            assert(views(out@) =~= views(before) + Seq::<Seq<char>>::empty());
        }
    }
    assert(views(out@) =~= views(before) + history_entries(
        lines_from(v@.skip(i as int), cur),
        format,
    ));
    out
}


// ---------------------------------------------------------------------------
// Recording commands.

/// The history after `command` was recorded into `entries` with at most `limit` entries kept.
pub open spec fn pushed_history(entries: Seq<Seq<char>>, command: Seq<char>, limit: usize) -> Seq<
    Seq<char>,
> {
    match normalized(command) {
        None => entries,
        Some(c) => if entries.len() > 0 && entries.last() == c {
            entries
        } else {
            keep_last(entries.push(c), max_one(limit) as nat)
        },
    }
}

/// `limit`, but at least one.
pub open spec fn max_one(limit: usize) -> usize {
    if limit == 0 {
        1
    } else {
        limit
    }
}

/// Records `command` at the end of `entries`, unless it is blank or repeats the
/// last entry, and then drops the oldest entries beyond `limit` (at least one is kept).
/// Returns whether the command was recorded.
pub fn push_history_entry(entries: &mut VecDeque<String>, command: &str, limit: usize) -> (r: bool)
    ensures
        views(final(entries)@) == pushed_history(views(old(entries)@), command@, limit),
        r == (normalized(command@) matches Some(c) && !(old(entries)@.len() > 0
            && old(entries)@.last()@ == c)),
{
    let command = match normalize_history_command(command) {
        Some(c) => c,
        None => {
            return false;
        },
    };
    let n = entries.len();
    if n > 0 && entries[n - 1] == command {
        assert(views(old(entries)@).last() == old(entries)@.last()@);
        return false;
    }
    let ghost pushed = views(old(entries)@).push(command@);
    entries.push_back(command);
    assert(views(entries@) =~= pushed);
    let bound = if limit < 1 {
        1
    } else {
        limit
    };
    let ghost mut dropped: int = 0;
    while entries.len() > bound
        invariant
            bound == max_one(limit),
            0 <= dropped <= pushed.len(),
            views(entries@) == pushed.subrange(dropped, pushed.len() as int),
            dropped > 0 ==> entries@.len() >= bound,
            entries@.len() == pushed.len() - dropped,
        decreases entries@.len(),
    {
        let ghost before = entries@;
        let _ = entries.pop_front();
        proof {
            assert(entries@ =~= before.subrange(1, before.len() as int));
            assert(views(entries@) =~= views(before).subrange(1, before.len() as int));
            assert(views(entries@) =~= pushed.subrange(dropped + 1, pushed.len() as int));
            dropped = dropped + 1;
        }
    }
    proof {
        if dropped == 0 {
            assert(pushed.subrange(0, pushed.len() as int) =~= pushed);
        }
    }
    true
}

// ---------------------------------------------------------------------------
// Suggestions and search.

/// The commands that are looked at for suggestions, most recent first: the session's,
/// then the history file's.
pub open spec fn history_candidates(session: Seq<String>, persisted: Seq<String>) -> Seq<Seq<char>> {
    rev(views(session)) + rev(views(persisted))
}

/// The elements of `s` that start with `p`, in order.
pub open spec fn with_prefix(s: Seq<Seq<char>>, p: Seq<char>) -> Seq<Seq<char>>
    decreases s.len(),
{
    if s.len() == 0 {
        s
    } else {
        with_prefix(s.drop_last(), p) + (if starts_with(s.last(), p) {
            seq![s.last()]
        } else {
            seq![]
        })
    }
}

/// The suggestions for `prefix`: the distinct candidates that start with the trimmed
/// prefix, most recent first, at most `max_one(limit)` of them; none for a blank prefix.
pub open spec fn suggestions(candidates: Seq<Seq<char>>, prefix: Seq<char>, limit: usize) -> Seq<
    Seq<char>,
> {
    if trim(prefix).len() == 0 {
        seq![]
    } else {
        take_at_most(dedup(with_prefix(candidates, trim(prefix))), max_one(limit) as nat)
    }
}

proof fn lemma_dedup_with_prefix_grows(s: Seq<Seq<char>>, p: Seq<char>, j: int, n: int)
    requires
        0 <= j <= n <= s.len(),
    ensures
        is_prefix(
            dedup(with_prefix(s.subrange(0, j), p)),
            dedup(with_prefix(s.subrange(0, n), p)),
        ),
    decreases n - j,
{
    if j == n {
        assert(dedup(with_prefix(s.subrange(0, j), p)).subrange(
            0,
            dedup(with_prefix(s.subrange(0, j), p)).len() as int,
        ) =~= dedup(with_prefix(s.subrange(0, j), p)));
    } else {
        lemma_dedup_with_prefix_grows(s, p, j, n - 1);
        let a = s.subrange(0, n - 1);
        let b = s.subrange(0, n);
        assert(b.drop_last() =~= a);
        let wa = with_prefix(a, p);
        let wb = with_prefix(b, p);
        if starts_with(b.last(), p) {
            assert(wb =~= wa.push(b.last()));
            assert(wb.drop_last() =~= wa);
        } else {
            assert(wb =~= wa);
        }
        let d0 = dedup(with_prefix(s.subrange(0, j), p));
        let da = dedup(wa);
        let db = dedup(wb);
        assert(is_prefix(da, db)) by {
            if db != da {
                assert(db =~= da.push(b.last()));
                assert(db.subrange(0, da.len() as int) =~= da);
            } else {
                assert(db.subrange(0, da.len() as int) =~= da);
            }
        }
        assert(db.subrange(0, d0.len() as int) =~= da.subrange(0, d0.len() as int));
    }
}

/// Whether `v` holds a string equal to `s`.
fn holds_string(v: &Vec<String>, s: &String) -> (b: bool)
    ensures
        b == views(v@).contains(s@),
{
    let mut i: usize = 0;
    while i < v.len()
        invariant
            i <= v.len(),
            forall|k: int| 0 <= k < i ==> v@[k]@ != s@,
        decreases v.len() - i,
    {
        if v[i] == *s {
            assert(views(v@)[i as int] == s@);
            return true;
        }
        i += 1;
    }
    proof {
        if views(v@).contains(s@) {
            let k = choose|k: int| 0 <= k < views(v@).len() && views(v@)[k] == s@;
            assert(v@[k]@ == s@);
        }
    }
    false
}

/// Copies of the candidates, most recent first.
fn candidate_list(session: &VecDeque<String>, persisted: &[String]) -> (r: Vec<String>)
    ensures
        views(r@) == history_candidates(session@, persisted@),
{
    let mut r: Vec<String> = Vec::new();
    let mut i = session.len();
    while i > 0
        invariant
            i <= session@.len(),
            views(r@) =~= rev(views(session@)).subrange(0, session@.len() - i),
        decreases i,
    {
        i -= 1;
        let ghost before = r@;
        r.push(session[i].clone());
        assert(views(r@) =~= views(before).push(session@[i as int]@));
    }
    let ghost k = r@.len();
    let mut j = persisted.len();
    while j > 0
        invariant
            j <= persisted@.len(),
            k == session@.len(),
            r@.len() == k + persisted@.len() - j,
            views(r@) =~= rev(views(session@)) + rev(views(persisted@)).subrange(
                0,
                persisted@.len() - j,
            ),
        decreases j,
    {
        j -= 1;
        let ghost before = r@;
        r.push(persisted[j].clone());
        assert(views(r@) =~= views(before).push(persisted@[j as int]@));
    }
    r
}

/// Suggestions for the command line `prefix`: distinct commands that start with the
/// trimmed prefix, from the session history (most recent first) and then the history
/// file (most recent first), at most `limit` of them (at least one); none for a blank prefix.
pub fn collect_history_suggestions(
    session: &VecDeque<String>,
    persisted: &[String],
    prefix: &str,
    limit: usize,
) -> (r: Vec<String>)
    ensures
        views(r@) == suggestions(history_candidates(session@, persisted@), prefix@, limit),
{
    let bound = if limit < 1 {
        1
    } else {
        limit
    };
    let pv = str_chars(prefix);
    assert(pv@.subrange(0, pv@.len() as int) =~= pv@);
    let (a, b) = trim_bounds(&pv, 0, pv.len());
    if a == b {
        return Vec::new();
    }
    let trimmed = string_from_chars(&pv, a, b);
    let tv = str_chars(trimmed.as_str());
    let cands = candidate_list(session, persisted);
    let ghost cs = views(cands@);
    let mut matches: Vec<String> = Vec::new();
    let mut i: usize = 0;
    assert(cs.subrange(0, 0) =~= Seq::<Seq<char>>::empty());
    while i < cands.len()
        invariant
            i <= cands.len(),
            cs == views(cands@),
            cs == history_candidates(session@, persisted@),
            tv@ == trim(prefix@),
            tv@.len() > 0,
            bound == max_one(limit),
            views(matches@) == dedup(with_prefix(cs.subrange(0, i as int), tv@)),
            matches@.len() < bound,
        decreases cands.len() - i,
    {
        let ghost before = cs.subrange(0, i as int);
        let ghost after = cs.subrange(0, i + 1);
        assert(after.drop_last() =~= before);
        assert(after.last() == cands@[i as int]@);
        let cv = str_chars(cands[i].as_str());
        if chars_start_with(&cv, &tv) {
            assert(with_prefix(after, tv@) =~= with_prefix(before, tv@).push(cands@[i as int]@));
            assert(with_prefix(after, tv@).drop_last() =~= with_prefix(before, tv@));
            if !holds_string(&matches, &cands[i]) {
                let ghost mb = matches@;
                matches.push(cands[i].clone());
                assert(views(matches@) =~= views(mb).push(cands@[i as int]@));
                assert(views(matches@) =~= dedup(with_prefix(after, tv@)));
                if matches.len() >= bound {
                    proof {
                        lemma_dedup_with_prefix_grows(cs, tv@, i + 1, cs.len() as int);
                        assert(cs.subrange(0, cs.len() as int) =~= cs);
                        let whole = dedup(with_prefix(cs, tv@));
                        assert(matches@.len() == bound);
                        assert(whole.subrange(0, bound as int) =~= views(matches@));
                        assert(take_at_most(whole, bound as nat) =~= views(matches@));
                        assert(trim(prefix@).len() != 0);
                    }
                    return matches;
                }
            }
        } else {
            assert(with_prefix(after, tv@) =~= with_prefix(before, tv@));
        }
        i += 1;
    }
    assert(cs.subrange(0, cs.len() as int) =~= cs);
    matches
}


/// How well `command` matches `query`: 0 when it starts with the query, 1 when one of
/// its words does, 2 when it contains it, 3 when it holds the query's characters in
/// order, and no rank otherwise.
pub open spec fn search_rank(command: Seq<char>, query: Seq<char>) -> Option<u8> {
    if starts_with(command, query) {
        Some(0)
    } else if has_token_prefix(command, query) {
        Some(1)
    } else if contains(command, query) {
        Some(2)
    } else if is_subsequence(query, command) {
        Some(3)
    } else {
        None
    }
}

/// The rank of `command` for `query`.
pub fn history_search_rank(command: &str, query: &str) -> (r: Option<u8>)
    ensures
        r == search_rank(command@, query@),
{
    let c = str_chars(command);
    let q = str_chars(query);
    if chars_start_with(&c, &q) {
        Some(0)
    } else if chars_have_token_prefix(&c, &q) {
        Some(1)
    } else if chars_contain(&c, &q) {
        Some(2)
    } else if chars_are_subsequence(&q, &c) {
        Some(3)
    } else {
        None
    }
}

/// The ranks of `lowered` commands for `query`.
pub open spec fn ranks_of(lowered: Seq<Seq<char>>, query: Seq<char>) -> Seq<Option<u8>> {
    Seq::new(lowered.len(), |i: int| search_rank(lowered[i], query))
}

/// The commands whose rank is `rank`, in order.
pub open spec fn rank_bucket(commands: Seq<Seq<char>>, ranks: Seq<Option<u8>>, rank: u8) -> Seq<
    Seq<char>,
>
    decreases commands.len(),
{
    if commands.len() == 0 || ranks.len() != commands.len() {
        seq![]
    } else {
        rank_bucket(commands.drop_last(), ranks.drop_last(), rank) + (if ranks.last() == Some(
            rank,
        ) {
            seq![commands.last()]
        } else {
            seq![]
        })
    }
}

/// The ranked commands with a rank below `upto`, ordered by rank and then by position.
pub open spec fn ranked_below(commands: Seq<Seq<char>>, ranks: Seq<Option<u8>>, upto: u8) -> Seq<
    Seq<char>,
>
    decreases upto,
{
    if upto == 0 {
        seq![]
    } else {
        ranked_below(commands, ranks, (upto - 1) as u8) + rank_bucket(
            commands,
            ranks,
            (upto - 1) as u8,
        )
    }
}

/// The commands that have a rank, sorted by rank and then by position (most recent first);
/// this is the order that a stable sort on the key (rank, position) produces.
pub open spec fn ranked(commands: Seq<Seq<char>>, ranks: Seq<Option<u8>>) -> Seq<Seq<char>> {
    ranked_below(commands, ranks, 4)
}

/// The search results for the already lowercased `lowered_query`: the `commands` whose
/// lowercased forms (`lowered_commands`, position by position) match it, best rank first
/// and most recent first within a rank, at most `limit` of them (at least one).
pub fn rank_history_commands(
    commands: &Vec<String>,
    lowered_commands: &Vec<String>,
    lowered_query: &str,
    limit: usize,
) -> (r: Vec<String>)
    requires
        commands.len() == lowered_commands.len(),
    ensures
        views(r@) == take_at_most(
            ranked(views(commands@), ranks_of(views(lowered_commands@), lowered_query@)),
            max_one(limit) as nat,
        ),
{
    let ghost cmds = views(commands@);
    let ghost rk = ranks_of(views(lowered_commands@), lowered_query@);
    let n = commands.len();
    let mut ranks: Vec<Option<u8>> = Vec::new();
    let mut i: usize = 0;
    while i < n
        invariant
            i <= n,
            n == commands.len(),
            n == lowered_commands.len(),
            rk == ranks_of(views(lowered_commands@), lowered_query@),
            ranks@ == rk.subrange(0, i as int),
        decreases n - i,
    {
        let r = history_search_rank(lowered_commands[i].as_str(), lowered_query);
        ranks.push(r);
        assert(ranks@ =~= rk.subrange(0, i + 1));
        i += 1;
    }
    assert(ranks@ =~= rk);
    let mut out: Vec<String> = Vec::new();
    let mut rank: u8 = 0;
    while rank < 4
        invariant
            rank <= 4,
            n == commands.len(),
            cmds == views(commands@),
            ranks@ == rk,
            rk.len() == n,
            views(out@) == ranked_below(cmds, rk, rank),
        decreases 4 - rank,
    {
        let mut j: usize = 0;
        assert(cmds.subrange(0, 0) =~= Seq::<Seq<char>>::empty());
        assert(views(out@) =~= ranked_below(cmds, rk, rank) + rank_bucket(
            cmds.subrange(0, 0),
            rk.subrange(0, 0),
            rank,
        ));
        while j < n
            invariant
                j <= n,
                rank < 4,
                n == commands.len(),
                cmds == views(commands@),
                ranks@ == rk,
                rk.len() == n,
                views(out@) == ranked_below(cmds, rk, rank) + rank_bucket(
                    cmds.subrange(0, j as int),
                    rk.subrange(0, j as int),
                    rank,
                ),
            decreases n - j,
        {
            let ghost before = out@;
            assert(cmds.subrange(0, j + 1).drop_last() =~= cmds.subrange(0, j as int));
            assert(rk.subrange(0, j + 1).drop_last() =~= rk.subrange(0, j as int));
            if ranks[j] == Some(rank) {
                out.push(commands[j].clone());
                assert(views(out@) =~= views(before).push(cmds[j as int]));
            }
            assert(views(out@) =~= ranked_below(cmds, rk, rank) + rank_bucket(
                cmds.subrange(0, j + 1),
                rk.subrange(0, j + 1),
                rank,
            ));
            j += 1;
        }
        assert(cmds.subrange(0, n as int) =~= cmds);
        assert(rk.subrange(0, n as int) =~= rk);
        rank += 1;
    }
    let bound = if limit < 1 {
        1
    } else {
        limit
    };
    let ghost full = views(out@);
    out.truncate(bound);
    assert(views(out@) =~= take_at_most(full, bound as nat));
    out
}

/// The distinct candidates, most recent first.
pub open spec fn unique_history(session: Seq<String>, persisted: Seq<String>) -> Seq<Seq<char>> {
    dedup(history_candidates(session, persisted))
}

/// The distinct commands of both histories, most recent first.
fn collect_unique_history_commands(session: &VecDeque<String>, persisted: &[String]) -> (r: Vec<
    String,
>)
    ensures
        views(r@) == unique_history(session@, persisted@),
{
    let cands = candidate_list(session, persisted);
    let ghost cs = views(cands@);
    let mut out: Vec<String> = Vec::new();
    let mut i: usize = 0;
    assert(cs.subrange(0, 0) =~= Seq::<Seq<char>>::empty());
    while i < cands.len()
        invariant
            i <= cands.len(),
            cs == views(cands@),
            views(out@) == dedup(cs.subrange(0, i as int)),
        decreases cands.len() - i,
    {
        assert(cs.subrange(0, i + 1).drop_last() =~= cs.subrange(0, i as int));
        if !holds_string(&out, &cands[i]) {
            let ghost before = out@;
            out.push(cands[i].clone());
            assert(views(out@) =~= views(before).push(cs[i as int]));
        }
        i += 1;
    }
    assert(cs.subrange(0, cs.len() as int) =~= cs);
    out
}

/// The search results for `query`: with a blank query, the distinct commands most
/// recent first; otherwise those whose lowercase form matches the trimmed, lowercased
/// query, best rank first; at most `limit` of them (at least one).
pub open spec fn search_results(session: Seq<String>, persisted: Seq<String>, query: Seq<char>, limit: usize) -> Seq<Seq<char>> {
    let u = unique_history(session, persisted);
    if trim(query).len() == 0 {
        take_at_most(u, max_one(limit) as nat)
    } else {
        take_at_most(
            ranked(u, ranks_of(u.map_values(|c: Seq<char>| spec_to_lowercase(c)), spec_to_lowercase(trim(query)))),
            max_one(limit) as nat,
        )
    }
}

/// Searches both histories for `query` (see `search_results`).
pub fn collect_history_search_results(
    session: &VecDeque<String>,
    persisted: &[String],
    query: &str,
    limit: usize,
) -> (r: Vec<String>)
    ensures
        views(r@) == search_results(session@, persisted@, query@, limit),
{
    let commands = collect_unique_history_commands(session, persisted);
    let qv = str_chars(query);
    assert(qv@.subrange(0, qv@.len() as int) =~= qv@);
    let (a, b) = trim_bounds(&qv, 0, qv.len());
    let bound = if limit < 1 {
        1
    } else {
        limit
    };
    if a == b {
        let mut out = commands;
        let ghost full = views(out@);
        out.truncate(bound);
        assert(views(out@) =~= take_at_most(full, bound as nat));
        return out;
    }
    let trimmed = string_from_chars(&qv, a, b);
    let lowered_query = str_to_lowercase(trimmed.as_str());
    let mut lowered: Vec<String> = Vec::new();
    let mut i: usize = 0;
    let ghost u = views(commands@);
    while i < commands.len()
        invariant
            i <= commands.len(),
            u == views(commands@),
            views(lowered@) == u.map_values(|c: Seq<char>| spec_to_lowercase(c)).subrange(0, i as int),
        decreases commands.len() - i,
    {
        let l = str_to_lowercase(commands[i].as_str());
        let ghost before = lowered@;
        lowered.push(l);
        assert(views(lowered@) =~= views(before).push(spec_to_lowercase(u[i as int])));
        assert(views(lowered@) =~= u.map_values(|c: Seq<char>| spec_to_lowercase(c)).subrange(0, i + 1));
        i += 1;
    }
    assert(views(lowered@) =~= u.map_values(|c: Seq<char>| spec_to_lowercase(c)));
    rank_history_commands(&commands, &lowered, lowered_query.as_str(), limit)
}

// ---------------------------------------------------------------------------
// Properties of the history.

/// No two neighbouring entries of `s` are equal.
pub open spec fn no_adjacent_repeats(s: Seq<Seq<char>>) -> bool {
    forall|i: int| 0 <= i < s.len() - 1 ==> #[trigger] s[i] != s[i + 1]
}

/// Recording a command keeps a history within its limit and free of repeated
/// neighbours, and a recorded command becomes the newest entry, trimmed.
pub proof fn lemma_recorded_history_stays_bounded(entries: Seq<Seq<char>>, command: Seq<char>, limit: usize)
    requires
        entries.len() <= max_one(limit),
        no_adjacent_repeats(entries),
    ensures
        pushed_history(entries, command, limit).len() <= max_one(limit),
        no_adjacent_repeats(pushed_history(entries, command, limit)),
        normalized(command) matches Some(c) ==> pushed_history(entries, command, limit).last() == c,
{
    match normalized(command) {
        None => {},
        Some(c) => {
            if !(entries.len() > 0 && entries.last() == c) {
                let p = entries.push(c);
                assert forall|i: int| 0 <= i < p.len() - 1 implies #[trigger] p[i] != p[i + 1] by {
                    if i + 1 < entries.len() {
                        assert(entries[i] != entries[i + 1]);
                    }
                }
                let r = keep_last(p, max_one(limit) as nat);
                if p.len() > max_one(limit) {
                    let d = p.len() - max_one(limit);
                    assert forall|i: int| 0 <= i < r.len() - 1 implies #[trigger] r[i] != r[i + 1] by {
                        assert(r[i] == p[i + d] && r[i + 1] == p[i + d + 1]);
                    }
                }
            }
        },
    }
}

proof fn lemma_with_prefix_members(s: Seq<Seq<char>>, p: Seq<char>)
    ensures
        forall|i: int|
            0 <= i < with_prefix(s, p).len() ==> starts_with(#[trigger] with_prefix(s, p)[i], p)
                && s.contains(with_prefix(s, p)[i]),
    decreases s.len(),
{
    if s.len() > 0 {
        lemma_with_prefix_members(s.drop_last(), p);
        let w = with_prefix(s.drop_last(), p);
        assert forall|i: int| 0 <= i < with_prefix(s, p).len() implies starts_with(
            #[trigger] with_prefix(s, p)[i],
            p,
        ) && s.contains(with_prefix(s, p)[i]) by {
            if i < w.len() {
                assert(with_prefix(s, p)[i] == w[i]);
                let k = choose|k: int| 0 <= k < s.drop_last().len() && s.drop_last()[k] == w[i];
                assert(s[k] == w[i]);
            } else {
                assert(with_prefix(s, p)[i] == s.last());
                assert(s[s.len() - 1] == s.last());
            }
        }
    }
}

proof fn lemma_dedup_members<A>(s: Seq<A>)
    ensures
        forall|i: int, j: int| 0 <= i < j < dedup(s).len() ==> dedup(s)[i] != dedup(s)[j],
        forall|i: int| 0 <= i < dedup(s).len() ==> s.contains(#[trigger] dedup(s)[i]),
    decreases s.len(),
{
    if s.len() > 0 {
        lemma_dedup_members(s.drop_last());
        let d = dedup(s.drop_last());
        assert forall|i: int| 0 <= i < dedup(s).len() implies s.contains(#[trigger] dedup(s)[i]) by {
            if i < d.len() {
                assert(dedup(s)[i] == d[i]);
                let k = choose|k: int| 0 <= k < s.drop_last().len() && s.drop_last()[k] == d[i];
                assert(s[k] == d[i]);
            } else {
                assert(s[s.len() - 1] == s.last());
            }
        }
        assert forall|i: int, j: int| 0 <= i < j < dedup(s).len() implies dedup(s)[i] != dedup(s)[j] by {
            if j >= d.len() {
                assert(!d.contains(s.last()));
                assert(dedup(s)[i] == d[i]);
            }
        }
    }
}

/// Suggestions are distinct candidates that start with the trimmed prefix, at most
/// `limit` of them (at least one).
pub proof fn lemma_suggestions_are_distinct_matches(candidates: Seq<Seq<char>>, prefix: Seq<char>, limit: usize)
    ensures
        suggestions(candidates, prefix, limit).len() <= max_one(limit),
        forall|i: int|
            0 <= i < suggestions(candidates, prefix, limit).len() ==> starts_with(
                #[trigger] suggestions(candidates, prefix, limit)[i],
                trim(prefix),
            ) && candidates.contains(suggestions(candidates, prefix, limit)[i]),
        forall|i: int, j: int|
            0 <= i < j < suggestions(candidates, prefix, limit).len() ==> suggestions(
                candidates,
                prefix,
                limit,
            )[i] != suggestions(candidates, prefix, limit)[j],
{
    if trim(prefix).len() > 0 {
        let w = with_prefix(candidates, trim(prefix));
        let d = dedup(w);
        lemma_with_prefix_members(candidates, trim(prefix));
        lemma_dedup_members(w);
        let r = suggestions(candidates, prefix, limit);
        assert forall|i: int| 0 <= i < r.len() implies starts_with(#[trigger] r[i], trim(prefix))
            && candidates.contains(r[i]) by {
            assert(r[i] == d[i]);
            let k = choose|k: int| 0 <= k < w.len() && w[k] == d[i];
            assert(starts_with(w[k], trim(prefix)) && candidates.contains(w[k]));
        }
        assert forall|i: int, j: int| 0 <= i < j < r.len() implies r[i] != r[j] by {
            assert(r[i] == d[i] && r[j] == d[j]);
        }
    }
}

proof fn lemma_bucket_members(commands: Seq<Seq<char>>, ranks: Seq<Option<u8>>, rank: u8)
    ensures
        forall|i: int|
            0 <= i < rank_bucket(commands, ranks, rank).len() ==> exists|k: int|
                0 <= k < commands.len() && k < ranks.len() && commands[k] == #[trigger] rank_bucket(
                    commands,
                    ranks,
                    rank,
                )[i] && ranks[k] == Some(rank),
    decreases commands.len(),
{
    if commands.len() > 0 && ranks.len() == commands.len() {
        let b0 = rank_bucket(commands.drop_last(), ranks.drop_last(), rank);
        lemma_bucket_members(commands.drop_last(), ranks.drop_last(), rank);
        let b = rank_bucket(commands, ranks, rank);
        assert forall|i: int| 0 <= i < b.len() implies exists|k: int|
            0 <= k < commands.len() && k < ranks.len() && commands[k] == #[trigger] b[i] && ranks[k]
                == Some(rank) by {
            if i < b0.len() {
                assert(b[i] == b0[i]);
                let k = choose|k: int|
                    0 <= k < commands.drop_last().len() && k < ranks.drop_last().len()
                        && commands.drop_last()[k] == #[trigger] b0[i] && ranks.drop_last()[k] == Some(rank);
                assert(commands[k] == b[i] && ranks[k] == Some(rank));
            } else {
                let k = commands.len() - 1;
                assert(commands[k] == b[i] && ranks[k] == Some(rank));
            }
        }
    }
}

/// The rank of `command` for the lowercased query `lowered_query`, 4 when it has none.
pub open spec fn rank_value(command: Seq<char>, lowered_query: Seq<char>) -> int {
    match search_rank(spec_to_lowercase(command), lowered_query) {
        Some(r) => r as int,
        None => 4,
    }
}

proof fn lemma_ranked_below_order(u: Seq<Seq<char>>, q: Seq<char>, upto: u8)
    requires
        upto <= 4,
    ensures
        ({
            let r = ranked_below(u, ranks_of(u.map_values(|c: Seq<char>| spec_to_lowercase(c)), q), upto);
            &&& forall|i: int| 0 <= i < r.len() ==> u.contains(#[trigger] r[i]) && rank_value(r[i], q) < upto
            &&& forall|i: int, j: int| 0 <= i < j < r.len() ==> rank_value(#[trigger] r[i], q) <= rank_value(#[trigger] r[j], q)
        }),
    decreases upto,
{
    let lowered = u.map_values(|c: Seq<char>| spec_to_lowercase(c));
    let ranks = ranks_of(lowered, q);
    if upto > 0 {
        let prev = ranked_below(u, ranks, (upto - 1) as u8);
        let bucket = rank_bucket(u, ranks, (upto - 1) as u8);
        lemma_ranked_below_order(u, q, (upto - 1) as u8);
        lemma_bucket_members(u, ranks, (upto - 1) as u8);
        let r = ranked_below(u, ranks, upto);
        assert(r == prev + bucket);
        assert forall|i: int| 0 <= i < bucket.len() implies u.contains(#[trigger] bucket[i])
            && rank_value(bucket[i], q) == upto - 1 by {
            let k = choose|k: int|
                0 <= k < u.len() && k < ranks.len() && u[k] == #[trigger] bucket[i] && ranks[k] == Some(
                    (upto - 1) as u8,
                );
            assert(ranks[k] == search_rank(lowered[k], q));
            assert(lowered[k] == spec_to_lowercase(u[k]));
        }
        assert forall|i: int| 0 <= i < r.len() implies u.contains(#[trigger] r[i]) && rank_value(r[i], q)
            < upto by {
            if i < prev.len() {
                assert(r[i] == prev[i]);
            } else {
                assert(r[i] == bucket[i - prev.len()]);
            }
        }
        assert forall|i: int, j: int| 0 <= i < j < r.len() implies rank_value(#[trigger] r[i], q)
            <= rank_value(#[trigger] r[j], q) by {
            if j < prev.len() {
                assert(r[i] == prev[i] && r[j] == prev[j]);
            } else if i < prev.len() {
                assert(r[i] == prev[i] && r[j] == bucket[j - prev.len()]);
            } else {
                assert(r[i] == bucket[i - prev.len()] && r[j] == bucket[j - prev.len()]);
            }
        }
    }
}

/// Search results are commands of the histories. For a query that is not blank, each
/// of them matches it (compared in lowercase), and they come best rank first: prefix
/// matches, then word-prefix matches, then substring matches, then subsequence matches.
pub proof fn lemma_search_results_by_rank(session: Seq<String>, persisted: Seq<String>, query: Seq<char>, limit: usize)
    ensures
        ({
            let r = search_results(session, persisted, query, limit);
            let q = spec_to_lowercase(trim(query));
            &&& r.len() <= max_one(limit)
            &&& forall|i: int| 0 <= i < r.len() ==> history_candidates(session, persisted).contains(#[trigger] r[i])
            &&& trim(query).len() > 0 ==> forall|i: int| 0 <= i < r.len() ==> (#[trigger] search_rank(
                spec_to_lowercase(r[i]),
                q,
            )) is Some
            &&& trim(query).len() > 0 ==> forall|i: int, j: int|
                0 <= i < j < r.len() ==> rank_value(#[trigger] r[i], q) <= rank_value(#[trigger] r[j], q)
        }),
{
    let u = unique_history(session, persisted);
    let c = history_candidates(session, persisted);
    lemma_dedup_members(c);
    let r = search_results(session, persisted, query, limit);
    if trim(query).len() == 0 {
        assert forall|i: int| 0 <= i < r.len() implies c.contains(#[trigger] r[i]) by {
            assert(r[i] == u[i]);
        }
    } else {
        let q = spec_to_lowercase(trim(query));
        lemma_ranked_below_order(u, q, 4);
        let full = ranked(u, ranks_of(u.map_values(|x: Seq<char>| spec_to_lowercase(x)), q));
        assert forall|i: int| 0 <= i < r.len() implies c.contains(#[trigger] r[i]) && search_rank(
            spec_to_lowercase(r[i]),
            q,
        ) is Some by {
            assert(r[i] == full[i]);
            assert(u.contains(full[i]));
            let k = choose|k: int| 0 <= k < u.len() && u[k] == full[i];
            assert(c.contains(u[k]));
            assert(rank_value(full[i], q) < 4);
        }
        assert forall|i: int, j: int| 0 <= i < j < r.len() implies rank_value(#[trigger] r[i], q)
            <= rank_value(#[trigger] r[j], q) by {
            assert(r[i] == full[i] && r[j] == full[j]);
        }
    }
}

proof fn lemma_bucket_distinct(commands: Seq<Seq<char>>, ranks: Seq<Option<u8>>, rank: u8)
    requires
        forall|i: int, j: int| 0 <= i < j < commands.len() ==> commands[i] != commands[j],
    ensures
        forall|i: int, j: int|
            0 <= i < j < rank_bucket(commands, ranks, rank).len() ==> rank_bucket(commands, ranks, rank)[i]
                != rank_bucket(commands, ranks, rank)[j],
    decreases commands.len(),
{
    if commands.len() > 0 && ranks.len() == commands.len() {
        let c0 = commands.drop_last();
        let r0 = ranks.drop_last();
        assert forall|i: int, j: int| 0 <= i < j < c0.len() implies c0[i] != c0[j] by {
            assert(c0[i] == commands[i] && c0[j] == commands[j]);
        }
        lemma_bucket_distinct(c0, r0, rank);
        lemma_bucket_members(c0, r0, rank);
        let b0 = rank_bucket(c0, r0, rank);
        let b = rank_bucket(commands, ranks, rank);
        assert forall|i: int, j: int| 0 <= i < j < b.len() implies b[i] != b[j] by {
            assert(b[i] == b0[i]);
            if j < b0.len() {
                assert(b[j] == b0[j]);
            } else {
                assert(b[j] == commands.last());
                let k = choose|k: int|
                    0 <= k < c0.len() && k < r0.len() && c0[k] == #[trigger] b0[i] && r0[k] == Some(rank);
                assert(commands[k] == b0[i]);
                assert(commands[k] != commands[commands.len() - 1]);
            }
        }
    }
}

proof fn lemma_ranked_below_distinct(u: Seq<Seq<char>>, q: Seq<char>, upto: u8)
    requires
        upto <= 4,
        forall|i: int, j: int| 0 <= i < j < u.len() ==> u[i] != u[j],
    ensures
        ({
            let r = ranked_below(u, ranks_of(u.map_values(|c: Seq<char>| spec_to_lowercase(c)), q), upto);
            forall|i: int, j: int| 0 <= i < j < r.len() ==> r[i] != r[j]
        }),
    decreases upto,
{
    let lowered = u.map_values(|c: Seq<char>| spec_to_lowercase(c));
    let ranks = ranks_of(lowered, q);
    if upto > 0 {
        let prev = ranked_below(u, ranks, (upto - 1) as u8);
        let bucket = rank_bucket(u, ranks, (upto - 1) as u8);
        lemma_ranked_below_distinct(u, q, (upto - 1) as u8);
        lemma_ranked_below_order(u, q, (upto - 1) as u8);
        lemma_bucket_distinct(u, ranks, (upto - 1) as u8);
        lemma_bucket_members(u, ranks, (upto - 1) as u8);
        let r = ranked_below(u, ranks, upto);
        assert(r == prev + bucket);
        assert forall|i: int| 0 <= i < bucket.len() implies rank_value(#[trigger] bucket[i], q) == upto - 1 by {
            let k = choose|k: int|
                0 <= k < u.len() && k < ranks.len() && u[k] == #[trigger] bucket[i] && ranks[k] == Some(
                    (upto - 1) as u8,
                );
            assert(ranks[k] == search_rank(lowered[k], q));
            assert(lowered[k] == spec_to_lowercase(u[k]));
        }
        assert forall|i: int, j: int| 0 <= i < j < r.len() implies r[i] != r[j] by {
            if j < prev.len() {
                assert(r[i] == prev[i] && r[j] == prev[j]);
            } else if i < prev.len() {
                assert(r[i] == prev[i] && r[j] == bucket[j - prev.len()]);
                assert(rank_value(prev[i], q) < upto - 1);
                assert(rank_value(bucket[j - prev.len()], q) == upto - 1);
            } else {
                assert(r[i] == bucket[i - prev.len()] && r[j] == bucket[j - prev.len()]);
            }
        }
    }
}

/// Search results never repeat a command: a command that the session and the history
/// file both hold, or that either holds twice, comes back at most once.
pub proof fn lemma_search_results_are_distinct(session: Seq<String>, persisted: Seq<String>, query: Seq<char>, limit: usize)
    ensures
        forall|i: int, j: int|
            0 <= i < j < search_results(session, persisted, query, limit).len() ==> search_results(
                session,
                persisted,
                query,
                limit,
            )[i] != search_results(session, persisted, query, limit)[j],
{
    let u = unique_history(session, persisted);
    lemma_dedup_members(history_candidates(session, persisted));
    let r = search_results(session, persisted, query, limit);
    if trim(query).len() == 0 {
        assert forall|i: int, j: int| 0 <= i < j < r.len() implies r[i] != r[j] by {
            assert(r[i] == u[i] && r[j] == u[j]);
        }
    } else {
        let q = spec_to_lowercase(trim(query));
        lemma_ranked_below_distinct(u, q, 4);
        let full = ranked(u, ranks_of(u.map_values(|x: Seq<char>| spec_to_lowercase(x)), q));
        assert forall|i: int, j: int| 0 <= i < j < r.len() implies r[i] != r[j] by {
            assert(r[i] == full[i] && r[j] == full[j]);
        }
    }
}

} // verus!
