//! Installing the shell integration script on an SSH host: quoting for `sh`, the
//! setup script and command, and the decisions taken while the setup command runs.

use vstd::prelude::*;

use crate::text::{concat_str, copy_str, str_chars, string_push, string_push_str};

verus! {

/// `s` with every `c` replaced by `with`, as `str::replace` with a `char` pattern gives it.
pub open spec fn replace_char(s: Seq<char>, c: char, with: Seq<char>) -> Seq<char>
    decreases s.len(),
{
    if s.len() == 0 {
        seq![]
    } else {
        replace_char(s.drop_last(), c, with) + if s.last() == c {
            with
        } else {
            seq![s.last()]
        }
    }
}

/// `s` with every `c` replaced by `with`.
pub fn replace_char_with(s: &str, c: char, with: &str) -> (r: String)
    ensures
        r@ == replace_char(s@, c, with@),
{
    let v = str_chars(s);
    let mut r = String::new();
    let mut i: usize = 0;
    while i < v.len()
        invariant
            i <= v@.len(),
            v@ == s@,
            r@ == replace_char(v@.subrange(0, i as int), c, with@),
        decreases v@.len() - i,
    {
        assert(v@.subrange(0, i + 1).drop_last() =~= v@.subrange(0, i as int));
        if v[i] == c {
            string_push_str(&mut r, with);
        } else {
            string_push(&mut r, v[i]);
            assert(r@ =~= replace_char(v@.subrange(0, i as int), c, with@) + seq![v@[i as int]]);
        }
        i += 1;
    }
    assert(v@.subrange(0, i as int) =~= s@);
    r
}

/// What a single quote inside single quotes becomes: close, a double-quoted `'`, reopen.
pub const QUOTED_SINGLE_QUOTE: &'static str = "'\"'\"'";

/// `s` as one `sh` word in single quotes.
pub open spec fn single_quoted(s: Seq<char>) -> Seq<char> {
    "'"@ + replace_char(s, '\'', QUOTED_SINGLE_QUOTE@) + "'"@
}

/// `input` as one `sh` word in single quotes.
pub fn shell_single_quote(input: &str) -> (r: String)
    ensures
        r@ == single_quoted(input@),
{
    let inner = replace_char_with(input, '\'', QUOTED_SINGLE_QUOTE);
    let mut r = concat_str("'", inner.as_str());
    string_push_str(&mut r, "'");
    r
}

/// `s` made safe inside double quotes: `\` doubled, then `"` escaped.
pub open spec fn double_escaped(s: Seq<char>) -> Seq<char> {
    replace_char(replace_char(s, '\\', "\\\\"@), '"', "\\\""@)
}

/// `input` escaped for use between double quotes in `sh`.
pub fn shell_double_quote(input: &str) -> (r: String)
    ensures
        r@ == double_escaped(input@),
{
    let escaped = replace_char_with(input, '\\', "\\\\");
    replace_char_with(escaped.as_str(), '"', "\\\"")
}

/// Where `sh` is while it removes the quotes of a word: outside quotes, inside single
/// quotes, inside double quotes, or just after a backslash inside double quotes.
#[derive(Clone, Copy, Debug, PartialEq, Eq)]
pub enum QuoteState {
    Outside,
    Single,
    Double,
    DoubleEscape,
}

/// One character of quote removal, for words made of quoted parts only: unquoted
/// characters and the expansions of double quotes (`$`, backquote) are outside this
/// reading and give `None`.
pub open spec fn unquote_step(st: Option<(QuoteState, Seq<char>)>, c: char) -> Option<(QuoteState, Seq<char>)> {
    match st {
        None => None,
        Some((q, out)) => match q {
            QuoteState::Outside => if c == '\'' {
                Some((QuoteState::Single, out))
            } else if c == '"' {
                Some((QuoteState::Double, out))
            } else {
                None
            },
            QuoteState::Single => if c == '\'' {
                Some((QuoteState::Outside, out))
            } else {
                Some((QuoteState::Single, out.push(c)))
            },
            QuoteState::Double => if c == '"' {
                Some((QuoteState::Outside, out))
            } else if c == '\\' {
                Some((QuoteState::DoubleEscape, out))
            } else if c == '$' || c == '`' {
                None
            } else {
                Some((QuoteState::Double, out.push(c)))
            },
            QuoteState::DoubleEscape => if c == '\\' || c == '"' || c == '$' || c == '`' {
                Some((QuoteState::Double, out.push(c)))
            } else if c == '\n' {
                Some((QuoteState::Double, out))
            } else {
                Some((QuoteState::Double, out.push('\\').push(c)))
            },
        },
    }
}

/// Quote removal of `w`, continuing from `st`.
pub open spec fn unquote_from(st: Option<(QuoteState, Seq<char>)>, w: Seq<char>) -> Option<(QuoteState, Seq<char>)>
    decreases w.len(),
{
    if w.len() == 0 {
        st
    } else {
        unquote_step(unquote_from(st, w.drop_last()), w.last())
    }
}

/// The text that `sh` reads from the quoted word `w`, if `w` ends outside quotes.
pub open spec fn unquoted(w: Seq<char>) -> Option<Seq<char>> {
    match unquote_from(Some((QuoteState::Outside, seq![])), w) {
        Some((QuoteState::Outside, out)) => Some(out),
        _ => None,
    }
}

proof fn lemma_unquote_concat(st: Option<(QuoteState, Seq<char>)>, a: Seq<char>, b: Seq<char>)
    ensures
        unquote_from(st, a + b) == unquote_from(unquote_from(st, a), b),
    decreases b.len(),
{
    if b.len() == 0 {
        assert(a + b =~= a);
    } else {
        lemma_unquote_concat(st, a, b.drop_last());
        assert((a + b).drop_last() =~= a + b.drop_last());
        assert((a + b).last() == b.last());
    }
}

proof fn lemma_unquote_single_body(out: Seq<char>, s: Seq<char>)
    ensures
        unquote_from(Some((QuoteState::Single, out)), replace_char(s, '\'', QUOTED_SINGLE_QUOTE@))
            == Some((QuoteState::Single, out + s)),
    decreases s.len(),
{
    let q = QUOTED_SINGLE_QUOTE@;
    if s.len() == 0 {
        assert(out + s =~= out);
    } else {
        let init = s.drop_last();
        let c = s.last();
        lemma_unquote_single_body(out, init);
        let piece = if c == '\'' {
            q
        } else {
            seq![c]
        };
        lemma_unquote_concat(Some((QuoteState::Single, out)), replace_char(init, '\'', q), piece);
        if c == '\'' {
            reveal_strlit("'\"'\"'");
            assert(q =~= seq!['\'', '"', '\'', '"', '\'']);
            let st = Some((QuoteState::Single, out + init));
            assert(q.drop_last().drop_last().drop_last().drop_last() =~= seq!['\'']);
            assert(q.drop_last().drop_last().drop_last() =~= seq!['\'', '"']);
            assert(q.drop_last().drop_last() =~= seq!['\'', '"', '\'']);
            assert(q.drop_last() =~= seq!['\'', '"', '\'', '"']);
            assert(seq!['\''].drop_last() =~= Seq::<char>::empty());
            assert(unquote_from(st, Seq::<char>::empty()) == st);
            assert(unquote_from(st, seq!['\'']) == Some((QuoteState::Outside, out + init)));
            assert(unquote_from(st, seq!['\'', '"']) == Some((QuoteState::Double, out + init)));
            assert(unquote_from(st, seq!['\'', '"', '\'']) == Some((QuoteState::Double, (out + init).push('\''))));
            assert(unquote_from(st, seq!['\'', '"', '\'', '"']) == Some((QuoteState::Outside, (out + init).push('\''))));
            assert(unquote_from(st, q) == Some((QuoteState::Single, (out + init).push('\''))));
        } else {
            assert(seq![c].drop_last() =~= Seq::<char>::empty());
            let st = Some((QuoteState::Single, out + init));
            assert(unquote_from(st, Seq::<char>::empty()) == st);
            assert(unquote_from(st, seq![c]) == Some((QuoteState::Single, (out + init).push(c))));
        }
        assert((out + init).push(c) =~= out + s);
    }
}

/// What `sh` reads from a word that `shell_single_quote` made is the text that was
/// quoted, whatever it holds.
pub proof fn lemma_single_quoted_reads_back(s: Seq<char>)
    ensures
        unquoted(single_quoted(s)) == Some(s),
{
    let start = Some((QuoteState::Outside, Seq::<char>::empty()));
    let body = replace_char(s, '\'', QUOTED_SINGLE_QUOTE@);
    reveal_strlit("'");
    assert("'"@ =~= seq!['\'']);
    assert(seq!['\''].drop_last() =~= Seq::<char>::empty());
    assert(unquote_from(start, Seq::<char>::empty()) == start);
    lemma_unquote_concat(start, "'"@ + body, "'"@);
    lemma_unquote_concat(start, "'"@, body);
    assert(unquote_from(start, "'"@) == Some((QuoteState::Single, Seq::<char>::empty())));
    lemma_unquote_single_body(Seq::<char>::empty(), s);
    assert(Seq::<char>::empty() + s =~= s);
    let inside = Some((QuoteState::Single, s));
    assert(unquote_from(start, "'"@ + body) == inside);
    assert(unquote_from(inside, Seq::<char>::empty()) == inside);
    assert(unquote_from(inside, seq!['\'']) == Some((QuoteState::Outside, s)));
    assert(unquote_from(start, single_quoted(s)) == Some((QuoteState::Outside, s)));
}

proof fn lemma_replace_concat(a: Seq<char>, b: Seq<char>, c: char, with: Seq<char>)
    ensures
        replace_char(a + b, c, with) == replace_char(a, c, with) + replace_char(b, c, with),
    decreases b.len(),
{
    if b.len() == 0 {
        assert(a + b =~= a);
        assert(replace_char(a, c, with) + replace_char(b, c, with) =~= replace_char(a, c, with));
    } else {
        lemma_replace_concat(a, b.drop_last(), c, with);
        assert((a + b).drop_last() =~= a + b.drop_last());
        assert((a + b).last() == b.last());
        assert(replace_char(a + b, c, with) =~= replace_char(a, c, with) + replace_char(b, c, with));
    }
}

/// What `shell_double_quote` makes of one character.
pub open spec fn escaped_char(c: char) -> Seq<char> {
    if c == '\\' {
        "\\\\"@
    } else if c == '"' {
        "\\\""@
    } else {
        seq![c]
    }
}

proof fn lemma_double_escaped_last(s: Seq<char>)
    requires
        s.len() > 0,
    ensures
        double_escaped(s) == double_escaped(s.drop_last()) + escaped_char(s.last()),
{
    let c = s.last();
    let init = s.drop_last();
    let p1 = if c == '\\' {
        "\\\\"@
    } else {
        seq![c]
    };
    assert(replace_char(s, '\\', "\\\\"@) == replace_char(init, '\\', "\\\\"@) + p1);
    lemma_replace_concat(replace_char(init, '\\', "\\\\"@), p1, '"', "\\\""@);
    reveal_strlit("\\\\");
    reveal_strlit("\\\"");
    if c == '\\' {
        assert(p1 =~= seq!['\\', '\\']);
        assert(p1.drop_last() =~= seq!['\\']);
        assert(seq!['\\'].drop_last() =~= Seq::<char>::empty());
        assert(replace_char(Seq::<char>::empty(), '"', "\\\""@) =~= Seq::<char>::empty());
        assert(replace_char(seq!['\\'], '"', "\\\""@) =~= seq!['\\']);
        assert(replace_char(p1, '"', "\\\""@) =~= p1);
    } else {
        assert(seq![c].drop_last() =~= Seq::<char>::empty());
        assert(replace_char(Seq::<char>::empty(), '"', "\\\""@) =~= Seq::<char>::empty());
        assert(replace_char(seq![c], '"', "\\\""@) =~= escaped_char(c));
    }
}

proof fn lemma_unquote_double_body(out: Seq<char>, s: Seq<char>)
    requires
        forall|k: int| 0 <= k < s.len() ==> s[k] != '$' && s[k] != '`',
    ensures
        unquote_from(Some((QuoteState::Double, out)), double_escaped(s)) == Some((QuoteState::Double, out + s)),
    decreases s.len(),
{
    if s.len() == 0 {
        assert(out + s =~= out);
        assert(double_escaped(s) =~= Seq::<char>::empty());
    } else {
        let init = s.drop_last();
        let c = s.last();
        assert(forall|k: int| 0 <= k < init.len() ==> init[k] == s[k]);
        lemma_unquote_double_body(out, init);
        lemma_double_escaped_last(s);
        let st0 = Some((QuoteState::Double, out));
        lemma_unquote_concat(st0, double_escaped(init), escaped_char(c));
        let st = Some((QuoteState::Double, out + init));
        reveal_strlit("\\\\");
        reveal_strlit("\\\"");
        assert(unquote_from(st, Seq::<char>::empty()) == st);
        if c == '\\' || c == '"' {
            let p = escaped_char(c);
            assert(p =~= seq!['\\', c]);
            assert(p.drop_last() =~= seq!['\\']);
            assert(seq!['\\'].drop_last() =~= Seq::<char>::empty());
            assert(unquote_from(st, seq!['\\']) == Some((QuoteState::DoubleEscape, out + init)));
            assert(unquote_from(st, p) == Some((QuoteState::Double, (out + init).push(c))));
        } else {
            assert(seq![c].drop_last() =~= Seq::<char>::empty());
            assert(c != '$' && c != '`');
            assert(unquote_from(st, seq![c]) == Some((QuoteState::Double, (out + init).push(c))));
        }
        assert((out + init).push(c) =~= out + s);
    }
}

/// What `sh` reads from text that `shell_double_quote` escaped, put between double
/// quotes, is the text that was escaped, as long as it holds no `$` or backquote,
/// which `sh` expands there on purpose.
pub proof fn lemma_double_quoted_reads_back(s: Seq<char>)
    requires
        forall|k: int| 0 <= k < s.len() ==> s[k] != '$' && s[k] != '`',
    ensures
        unquoted("\""@ + double_escaped(s) + "\""@) == Some(s),
{
    let start = Some((QuoteState::Outside, Seq::<char>::empty()));
    let body = double_escaped(s);
    reveal_strlit("\"");
    assert("\""@ =~= seq!['"']);
    assert(seq!['"'].drop_last() =~= Seq::<char>::empty());
    assert(unquote_from(start, Seq::<char>::empty()) == start);
    lemma_unquote_concat(start, "\""@ + body, "\""@);
    lemma_unquote_concat(start, "\""@, body);
    assert(unquote_from(start, "\""@) == Some((QuoteState::Double, Seq::<char>::empty())));
    lemma_unquote_double_body(Seq::<char>::empty(), s);
    assert(Seq::<char>::empty() + s =~= s);
    let inside = Some((QuoteState::Double, s));
    assert(unquote_from(start, "\""@ + body) == inside);
    assert(unquote_from(inside, Seq::<char>::empty()) == inside);
    assert(unquote_from(inside, seq!['"']) == Some((QuoteState::Outside, s)));
}

/// The line that marks a start-up file as already set up.
pub const INTEGRATION_MARKER: &'static str = "# onetcli shell integration";

/// The start of the setup script, up to the remote path.
pub const SCRIPT_HEAD: &'static str = "set -e\nremote_path=\"";

/// The part of the setup script between the remote path and the integration script.
pub const SCRIPT_WRITE: &'static str = "\"\nmkdir -p \"$(dirname -- \"$remote_path\")\"\nprintf %s ";

/// The part of the setup script between the integration script and the marker line.
pub const SCRIPT_MARKER: &'static str = " > \"$remote_path\"\nmarker=";

/// The part of the setup script between the marker line and the source line.
pub const SCRIPT_SETUP_LINE: &'static str = "\nsetup_line=";

/// The part of the setup script between the source line and the start-up files.
pub const SCRIPT_LOOP: &'static str = "\nfor rc_file in ";

/// The part of the setup script between the start-up files and the success marker.
pub const SCRIPT_LOOP_BODY: &'static str = "; do\n    if ! grep -qF \"$marker\" \"$rc_file\" 2>/dev/null; then\n        printf '\\n%s\\n%s\\n' \"$marker\" \"$setup_line\" >> \"$rc_file\"\n    fi\ndone\nprintf '%s\\n' ";

/// The line that a start-up file gets: source the integration script when it exists.
pub open spec fn source_line(remote_path: Seq<char>) -> Seq<char> {
    "[ -f \""@ + remote_path + "\" ] && . \""@ + remote_path + "\""@
}

/// A start-up file path as a double-quoted `sh` word.
pub open spec fn quoted_path(path: Seq<char>) -> Seq<char> {
    "\""@ + double_escaped(path) + "\""@
}

/// The start-up file paths, each double-quoted, separated by spaces.
pub open spec fn quoted_paths(paths: Seq<Seq<char>>) -> Seq<char>
    decreases paths.len(),
{
    if paths.len() == 0 {
        seq![]
    } else if paths.len() == 1 {
        quoted_path(paths[0])
    } else {
        quoted_paths(paths.drop_last()) + " "@ + quoted_path(paths.last())
    }
}

/// The paths of a list of string slices.
pub open spec fn str_views(s: Seq<&str>) -> Seq<Seq<char>> {
    s.map_values(|x: &str| x@)
}

/// The `sh` script that writes `script` to `remote_path`, adds a line that sources it
/// to each start-up file that does not have the marker yet, and prints the success
/// marker.
pub open spec fn setup_script(
    script: Seq<char>,
    remote_path: Seq<char>,
    rc_files: Seq<Seq<char>>,
    success_marker: Seq<char>,
) -> Seq<char> {
    SCRIPT_HEAD@ + double_escaped(remote_path) + SCRIPT_WRITE@ + single_quoted(script)
        + SCRIPT_MARKER@ + single_quoted(INTEGRATION_MARKER@) + SCRIPT_SETUP_LINE@
        + single_quoted(source_line(remote_path)) + SCRIPT_LOOP@ + quoted_paths(rc_files)
        + SCRIPT_LOOP_BODY@ + single_quoted(success_marker) + "\n"@
}

/// The setup script (see `setup_script`).
pub fn build_shell_integration_setup_script(
    script: &str,
    remote_path: &str,
    rc_files: &[&str],
    success_marker: &str,
) -> (r: String)
    ensures
        r@ == setup_script(script@, remote_path@, str_views(rc_files@), success_marker@),
{
    let marker = shell_single_quote(INTEGRATION_MARKER);
    let quoted_script = shell_single_quote(script);
    let mut line = concat_str("[ -f \"", remote_path);
    string_push_str(&mut line, "\" ] && . \"");
    string_push_str(&mut line, remote_path);
    string_push_str(&mut line, "\"");
    let setup_line = shell_single_quote(line.as_str());
    let quoted_marker = shell_single_quote(success_marker);
    let escaped_path = shell_double_quote(remote_path);
    let mut paths = String::new();
    let mut i: usize = 0;
    assert(rc_files@.subrange(0, 0) =~= Seq::<&str>::empty());
    while i < rc_files.len()
        invariant
            i <= rc_files@.len(),
            paths@ == quoted_paths(str_views(rc_files@.subrange(0, i as int))),
        decreases rc_files@.len() - i,
    {
        let ghost before = paths@;
        assert(str_views(rc_files@.subrange(0, i + 1)).drop_last() =~= str_views(
            rc_files@.subrange(0, i as int),
        ));
        assert(str_views(rc_files@.subrange(0, i + 1)).last() == rc_files@[i as int]@);
        if i > 0 {
            string_push_str(&mut paths, " ");
        }
        string_push_str(&mut paths, "\"");
        let escaped = shell_double_quote(rc_files[i]);
        string_push_str(&mut paths, escaped.as_str());
        string_push_str(&mut paths, "\"");
        if i == 0 {
            assert(str_views(rc_files@.subrange(0, 1)) =~= seq![rc_files@[0]@]);
            assert(paths@ =~= quoted_path(rc_files@[0]@));
        } else {
            assert(paths@ =~= before + " "@ + quoted_path(rc_files@[i as int]@));
        }
        i += 1;
    }
    assert(rc_files@.subrange(0, i as int) =~= rc_files@);
    let mut r = copy_str(SCRIPT_HEAD);
    string_push_str(&mut r, escaped_path.as_str());
    string_push_str(&mut r, SCRIPT_WRITE);
    string_push_str(&mut r, quoted_script.as_str());
    string_push_str(&mut r, SCRIPT_MARKER);
    string_push_str(&mut r, marker.as_str());
    string_push_str(&mut r, SCRIPT_SETUP_LINE);
    string_push_str(&mut r, setup_line.as_str());
    string_push_str(&mut r, SCRIPT_LOOP);
    string_push_str(&mut r, paths.as_str());
    string_push_str(&mut r, SCRIPT_LOOP_BODY);
    string_push_str(&mut r, quoted_marker.as_str());
    string_push_str(&mut r, "\n");
    r
}

/// The remote command that runs the setup script with `sh`.
pub open spec fn setup_command(
    script: Seq<char>,
    remote_path: Seq<char>,
    rc_files: Seq<Seq<char>>,
    success_marker: Seq<char>,
) -> Seq<char> {
    "sh -c "@ + single_quoted(setup_script(script, remote_path, rc_files, success_marker))
}

/// The remote command that runs the setup script (see `setup_command`).
pub fn build_shell_integration_setup_command(
    script: &str,
    remote_path: &str,
    rc_files: &[&str],
    success_marker: &str,
) -> (r: String)
    ensures
        r@ == setup_command(script@, remote_path@, str_views(rc_files@), success_marker@),
{
    let script = build_shell_integration_setup_script(script, remote_path, rc_files, success_marker);
    let quoted = shell_single_quote(script.as_str());
    concat_str("sh -c ", quoted.as_str())
}

/// Where the integration script is installed on the host.
pub const REMOTE_SCRIPT_PATH: &'static str = "$HOME/.config/onetcli/shell_integration.sh";

/// What the setup script prints once it has finished.
pub const SETUP_SUCCESS_MARKER: &'static str = "__ONETCLI_SETUP_OK__";

/// The start-up files that get the source line: bash's first, then zsh's.
pub const BASH_RC_FILE: &'static str = "$HOME/.bashrc";

/// The start-up file of zsh.
pub const ZSH_RC_FILE: &'static str = "$HOME/.zshrc";

/// The command that installs `script` as the shell integration: into
/// `REMOTE_SCRIPT_PATH`, sourced from the bash and zsh start-up files.
pub fn shell_integration_setup_command(script: &str) -> (r: String)
    ensures
        r@ == setup_command(
            script@,
            REMOTE_SCRIPT_PATH@,
            seq![BASH_RC_FILE@, ZSH_RC_FILE@],
            SETUP_SUCCESS_MARKER@,
        ),
{
    let rc_files: [&str; 2] = [BASH_RC_FILE, ZSH_RC_FILE];
    let r = build_shell_integration_setup_command(
        script,
        REMOTE_SCRIPT_PATH,
        rc_files.as_slice(),
        SETUP_SUCCESS_MARKER,
    );
    assert(str_views(rc_files@) =~= seq![BASH_RC_FILE@, ZSH_RC_FILE@]);
    r
}

/// `m` occurs in `data`.
pub open spec fn bytes_contain(data: Seq<u8>, m: Seq<u8>) -> bool {
    exists|i: int| 0 <= i && i + m.len() <= data.len() && #[trigger] data.subrange(i, i + m.len()) == m
}

/// Whether `m` occurs in `data`, as a search over the windows of `data` of `m`'s length.
pub fn bytes_contain_marker(data: &[u8], m: &[u8]) -> (b: bool)
    ensures
        b == bytes_contain(data@, m@),
{
    if m.len() > data.len() {
        return false;
    }
    let last = data.len() - m.len();
    let mut i: usize = 0;
    loop
        invariant
            m@.len() <= data@.len(),
            last == data@.len() - m@.len(),
            i <= last,
            forall|j: int| 0 <= j < i ==> #[trigger] data@.subrange(j, j + m@.len()) != m@,
        ensures
            forall|j: int| 0 <= j <= last ==> #[trigger] data@.subrange(j, j + m@.len()) != m@,
        decreases last - i,
    {
        let mut k: usize = 0;
        let mut same = true;
        while k < m.len()
            invariant
                i <= last,
                i + m.len() <= data.len(),
                m@.len() <= data@.len(),
                last == data@.len() - m@.len(),
                k <= m@.len(),
                same == (forall|t: int| 0 <= t < k ==> data@[i + t] == m@[t]),
            decreases m@.len() - k,
        {
            if data[i + k] != m[k] {
                same = false;
            }
            k += 1;
        }
        if same {
            assert(data@.subrange(i as int, i + m@.len()) =~= m@);
            return true;
        }
        assert(data@.subrange(i as int, i + m@.len()) != m@) by {
            let t = choose|t: int| 0 <= t < m@.len() && data@[i + t] != m@[t];
            assert(data@.subrange(i as int, i + m@.len())[t] != m@[t]);
        }
        if i == last {
            break;
        }
        i += 1;
    }
    false
}

/// What the setup channel reports.
pub enum SetupEvent {
    /// Output of the setup command.
    Data(Vec<u8>),
    /// Error output of the setup command.
    ExtendedData(Vec<u8>),
    /// The exit status of the setup command.
    ExitStatus(u32),
    /// The end of the output.
    Eof,
    /// The channel was closed.
    Close,
    /// The channel has nothing more to report.
    Ended,
    /// Anything else, which the setup ignores.
    Other,
}

/// Why the shell integration setup failed.
#[derive(Clone, Debug, PartialEq, Eq)]
pub enum SetupFailure {
    /// The setup command exited with a non-zero code; its error output so far.
    ExitCode { code: u32, stderr: Vec<u8> },
    /// The setup command exited with 0 without printing the success marker.
    Unconfirmed,
    /// The channel ended before the success marker; the error output so far.
    EndedEarly { stderr: Vec<u8> },
}

/// What to do after a setup event.
#[derive(Debug, PartialEq, Eq)]
pub enum SetupStep {
    /// Wait for the next event.
    Continue,
    /// The setup is over, with this result.
    Done(Result<(), SetupFailure>),
}

/// What the setup has seen so far: whether the success marker came, and the error
/// output.
#[derive(Clone, Debug, PartialEq, Eq)]
pub struct SetupProgress {
    pub succeeded: bool,
    pub stderr: Vec<u8>,
}

impl SetupProgress {
    /// Nothing seen yet.
    pub fn new() -> (p: Self)
        ensures
            !p.succeeded,
            p.stderr@.len() == 0,
    {
        SetupProgress { succeeded: false, stderr: Vec::new() }
    }

    /// Takes in one event of the setup channel. Output that holds `success_marker`
    /// confirms the setup; error output is kept; an exit status ends the setup, with
    /// success only for code 0 after the confirmation; the end of the channel ends it,
    /// with success exactly when it was confirmed.
    pub fn step(&mut self, event: SetupEvent, success_marker: &[u8]) -> (r: SetupStep)
        ensures
            match event {
                SetupEvent::Data(d) => {
                    &&& final(self).succeeded == (old(self).succeeded || bytes_contain(d@, success_marker@))
                    &&& final(self).stderr@ == old(self).stderr@
                    &&& r == SetupStep::Continue
                },
                SetupEvent::ExtendedData(d) => {
                    &&& final(self).succeeded == old(self).succeeded
                    &&& final(self).stderr@ == old(self).stderr@ + d@
                    &&& r == SetupStep::Continue
                },
                SetupEvent::ExitStatus(code) => {
                    &&& final(self).succeeded == old(self).succeeded
                    &&& final(self).stderr@ == old(self).stderr@
                    &&& code != 0 ==> (r matches SetupStep::Done(Err(SetupFailure::ExitCode { code: c, stderr: e }))
                        && c == code && e@ == old(self).stderr@)
                    &&& code == 0 && !old(self).succeeded ==> r == SetupStep::Done(Err(SetupFailure::Unconfirmed))
                    &&& code == 0 && old(self).succeeded ==> r == SetupStep::Done(Ok(()))
                },
                SetupEvent::Eof | SetupEvent::Close | SetupEvent::Ended => {
                    &&& final(self).succeeded == old(self).succeeded
                    &&& final(self).stderr@ == old(self).stderr@
                    &&& old(self).succeeded ==> r == SetupStep::Done(Ok(()))
                    &&& !old(self).succeeded ==> (r matches SetupStep::Done(Err(SetupFailure::EndedEarly { stderr: e }))
                        && e@ == old(self).stderr@)
                },
                SetupEvent::Other => {
                    &&& final(self).succeeded == old(self).succeeded
                    &&& final(self).stderr@ == old(self).stderr@
                    &&& r == SetupStep::Continue
                },
            },
    {
        match event {
            SetupEvent::Data(d) => {
                if bytes_contain_marker(d.as_slice(), success_marker) {
                    self.succeeded = true;
                }
                SetupStep::Continue
            },
            SetupEvent::ExtendedData(d) => {
                let mut more = d;
                self.stderr.append(&mut more);
                SetupStep::Continue
            },
            SetupEvent::ExitStatus(code) => {
                if code != 0 {
                    SetupStep::Done(
                        Err(
                            SetupFailure::ExitCode {
                                code,
                                stderr: vstd::slice::slice_to_vec(self.stderr.as_slice()),
                            },
                        ),
                    )
                } else if !self.succeeded {
                    SetupStep::Done(Err(SetupFailure::Unconfirmed))
                } else {
                    SetupStep::Done(Ok(()))
                }
            },
            SetupEvent::Eof | SetupEvent::Close | SetupEvent::Ended => {
                if self.succeeded {
                    SetupStep::Done(Ok(()))
                } else {
                    SetupStep::Done(
                        Err(
                            SetupFailure::EndedEarly {
                                stderr: vstd::slice::slice_to_vec(self.stderr.as_slice()),
                            },
                        ),
                    )
                }
            },
            SetupEvent::Other => SetupStep::Continue,
        }
    }
}

} // verus!
