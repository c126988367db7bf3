use onetcli::shell_setup::{
    build_shell_integration_setup_command, build_shell_integration_setup_script,
    bytes_contain_marker, shell_double_quote, shell_integration_setup_command,
    shell_single_quote, SetupEvent, SetupFailure, SetupProgress, SetupStep, SETUP_SUCCESS_MARKER,
};
use onetcli::ssh_session::{init_command_writes, DataOutcome, SessionEvent, SessionState};

#[test]
fn single_quotes_close_and_reopen_around_quotes() {
    assert_eq!("'plain'", shell_single_quote("plain"));
    assert_eq!("''", shell_single_quote(""));
    assert_eq!("'it'\"'\"'s'", shell_single_quote("it's"));
}

#[test]
fn double_quote_escaping_handles_backslashes_first() {
    assert_eq!("a\\\\b", shell_double_quote("a\\b"));
    assert_eq!("say \\\"hi\\\"", shell_double_quote("say \"hi\""));
    assert_eq!("\\\\\\\"", shell_double_quote("\\\""));
}

#[test]
fn setup_script_installs_and_confirms() {
    let script = build_shell_integration_setup_script(
        "echo 'quoted'\n",
        "/tmp/x y/integration.sh",
        &["/tmp/rc1", "/tmp/\"rc2\""],
        "__TEST_OK__",
    );
    let expected = [
        "set -e\n",
        "remote_path=\"/tmp/x y/integration.sh\"\n",
        "mkdir -p \"$(dirname -- \"$remote_path\")\"\n",
        "printf %s 'echo '\"'\"'quoted'\"'\"'\n' > \"$remote_path\"\n",
        "marker='# onetcli shell integration'\n",
        "setup_line='[ -f \"/tmp/x y/integration.sh\" ] && . \"/tmp/x y/integration.sh\"'\n",
        "for rc_file in \"/tmp/rc1\" \"/tmp/\\\"rc2\\\"\"; do\n",
        "    if ! grep -qF \"$marker\" \"$rc_file\" 2>/dev/null; then\n",
        "        printf '\\n%s\\n%s\\n' \"$marker\" \"$setup_line\" >> \"$rc_file\"\n",
        "    fi\n",
        "done\n",
        "printf '%s\\n' '__TEST_OK__'\n",
    ]
    .join("");
    assert_eq!(expected, script);
}

#[test]
fn setup_command_runs_the_quoted_script_with_sh() {
    let script = build_shell_integration_setup_script("x", "/p", &[], "OK");
    let command = build_shell_integration_setup_command("x", "/p", &[], "OK");
    assert_eq!(format!("sh -c {}", shell_single_quote(&script)), command);
    assert!(script.contains("for rc_file in ; do\n"));

    let installed = shell_integration_setup_command("x");
    assert!(installed.starts_with("sh -c 'set -e\n"));
    assert!(installed.contains("$HOME/.config/onetcli/shell_integration.sh"));
    assert!(installed.contains("\"$HOME/.bashrc\" \"$HOME/.zshrc\""));
    assert!(installed.contains("__ONETCLI_SETUP_OK__"));
}

#[test]
fn marker_search_looks_at_every_window() {
    assert!(bytes_contain_marker(b"xx__OK__\n", b"__OK__"));
    assert!(bytes_contain_marker(b"__OK__", b"__OK__"));
    assert!(!bytes_contain_marker(b"__OK_", b"__OK__"));
    assert!(!bytes_contain_marker(b"", b"__OK__"));
}

fn run(events: Vec<SetupEvent>) -> Result<(), SetupFailure> {
    let mut progress = SetupProgress::new();
    for event in events {
        if let SetupStep::Done(result) = progress.step(event, SETUP_SUCCESS_MARKER.as_bytes()) {
            return result;
        }
    }
    panic!("the setup should have ended");
}

#[test]
fn run_shell_integration_setup_fails_without_success_signal() {
    assert_eq!(
        Err(SetupFailure::EndedEarly { stderr: vec![] }),
        run(vec![SetupEvent::Close])
    );
}

#[test]
fn run_shell_integration_setup_accepts_success_marker_before_close() {
    assert_eq!(
        Ok(()),
        run(vec![
            SetupEvent::Data(b"__ONETCLI_SETUP_OK__\n".to_vec()),
            SetupEvent::Close
        ])
    );
}

#[test]
fn setup_exit_status_decides_with_the_confirmation() {
    assert_eq!(
        Ok(()),
        run(vec![
            SetupEvent::Data(b"__ONETCLI_SETUP_OK__\n".to_vec()),
            SetupEvent::ExitStatus(0)
        ])
    );
    assert_eq!(
        Err(SetupFailure::Unconfirmed),
        run(vec![SetupEvent::Other, SetupEvent::ExitStatus(0)])
    );
    assert_eq!(
        Err(SetupFailure::ExitCode {
            code: 2,
            stderr: b"no space\n".to_vec()
        }),
        run(vec![
            SetupEvent::Data(b"__ONETCLI_SETUP_OK__".to_vec()),
            SetupEvent::ExtendedData(b"no ".to_vec()),
            SetupEvent::ExtendedData(b"space\n".to_vec()),
            SetupEvent::ExitStatus(2)
        ])
    );
    assert_eq!(
        Err(SetupFailure::EndedEarly {
            stderr: b"oops".to_vec()
        }),
        run(vec![SetupEvent::ExtendedData(b"oops".to_vec()), SetupEvent::Eof])
    );
}

#[test]
fn init_commands_are_sent_once_when_the_shell_takes_input() {
    let mut state = SessionState::new();
    let init = Some("cd /srv\n  \nls -l\r\n");

    let outcome = state.on_data(b"\x1b]133;A\x07\x1b]7;file://h/home\x07", init);
    assert_eq!(
        DataOutcome {
            events: vec![SessionEvent::WorkingDirChanged("/home".to_string())],
            writes: vec![]
        },
        outcome
    );
    assert!(!state.shell_ready);

    let outcome = state.on_data(b"\x1b]133;B\x07", init);
    assert!(state.shell_ready && state.init_sent);
    assert_eq!(vec![b"cd /srv\n".to_vec(), b"ls -l\n".to_vec()], outcome.writes);

    let outcome = state.on_data(b"\x1b]133;B\x07\x1b]133;D;3\x07", init);
    assert!(outcome.writes.is_empty());
    assert_eq!(
        vec![SessionEvent::CommandFinished { exit_code: 3 }],
        outcome.events
    );
}

#[test]
fn init_command_lines_skip_blank_ones() {
    assert_eq!(
        vec![b"a\n".to_vec(), b"b\n".to_vec()],
        init_command_writes("a\n\t\nb")
    );
    assert!(init_command_writes("").is_empty());
}

/// Quote removal for words made only of single- and double-quoted parts.
fn unquote(word: &str) -> Option<String> {
    let mut out = String::new();
    let mut chars = word.chars();
    while let Some(c) = chars.next() {
        match c {
            '\'' => loop {
                match chars.next()? {
                    '\'' => break,
                    other => out.push(other),
                }
            },
            '"' => loop {
                match chars.next()? {
                    '"' => break,
                    '\\' => match chars.next()? {
                        escaped @ ('\\' | '"' | '$' | '`') => out.push(escaped),
                        '\n' => {}
                        other => {
                            out.push('\\');
                            out.push(other);
                        }
                    },
                    '$' | '`' => return None,
                    other => out.push(other),
                }
            },
            _ => return None,
        }
    }
    Some(out)
}

#[test]
fn quoted_words_read_back_as_the_text() {
    for text in ["", "plain", "it's", "'''", "a\"b", "back\\slash", "two\nlines"] {
        assert_eq!(Some(text.to_string()), unquote(&shell_single_quote(text)), "{text:?}");
        assert_eq!(
            Some(text.to_string()),
            unquote(&format!("\"{}\"", shell_double_quote(text))),
            "{text:?}"
        );
    }
}
