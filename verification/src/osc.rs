//! Shell integration markers in terminal output: OSC sequences
//! (`ESC ] <payload> BEL` or `ESC ] <payload> ESC \`) that the remote shell prints to
//! report prompts, finished commands, the working directory and recorded commands.

use base64::engine::general_purpose::STANDARD as BASE64_STANDARD;
use base64::Engine;
use vstd::prelude::*;
use vstd::utf8::{decode_utf8, encode_utf8, valid_utf8};

use crate::history::{after_first, lemma_after_first};
use crate::text::{
    chars_start_with, concat_str, starts_with, str_chars, str_equal, string_from_chars,
};

verus! {

/// An event that the remote shell reports through an OSC sequence.
#[derive(Clone, Debug, PartialEq, Eq)]
pub enum OscEvent {
    /// `133;A`: the prompt starts.
    PromptStart,
    /// `133;B`: the prompt is drawn and input starts.
    InputStart,
    /// `133;C`: a command starts running.
    CommandStart,
    /// `133;D;<code>`: a command finished.
    CommandFinished { exit_code: i32 },
    /// `7;file://<host>/<path>`: the working directory changed.
    WorkingDirChanged(String),
    /// `1337;Command=<base64>`: the shell recorded a command line.
    CommandRecorded(String),
}

/// The model of an [`OscEvent`].
pub enum OscView {
    PromptStart,
    InputStart,
    CommandStart,
    CommandFinished { exit_code: i32 },
    WorkingDirChanged(Seq<char>),
    CommandRecorded(Seq<char>),
}

impl View for OscEvent {
    type V = OscView;

    open spec fn view(&self) -> OscView {
        match self {
            OscEvent::PromptStart => OscView::PromptStart,
            OscEvent::InputStart => OscView::InputStart,
            OscEvent::CommandStart => OscView::CommandStart,
            OscEvent::CommandFinished { exit_code } => OscView::CommandFinished { exit_code: *exit_code },
            OscEvent::WorkingDirChanged(p) => OscView::WorkingDirChanged(p@),
            OscEvent::CommandRecorded(c) => OscView::CommandRecorded(c@),
        }
    }
}

/// The models of a list of events.
pub open spec fn event_views(es: Seq<OscEvent>) -> Seq<OscView> {
    es.map_values(|e: OscEvent| e@)
}

// ---------------------------------------------------------------------------
// Decimal integers, as `str::parse::<i32>` reads them.

/// `c` is an ASCII decimal digit.
pub open spec fn is_digit(c: char) -> bool {
    '0' <= c && c <= '9'
}

/// The value of the decimal digits `s`.
pub open spec fn decimal_value(s: Seq<char>) -> int
    decreases s.len(),
{
    if s.len() == 0 {
        0
    } else {
        decimal_value(s.drop_last()) * 10 + (s.last() as int - '0' as int)
    }
}

/// `s` is one or more decimal digits.
pub open spec fn all_digits(s: Seq<char>) -> bool {
    s.len() > 0 && forall|k: int| 0 <= k < s.len() ==> is_digit(#[trigger] s[k])
}

/// The `i32` that `s` spells: an optional `+` or `-`, then decimal digits, with a value
/// in range.
pub open spec fn parsed_i32(s: Seq<char>) -> Option<i32> {
    let signed = s.len() > 0 && (s[0] == '-' || s[0] == '+');
    let digits = if signed {
        s.drop_first()
    } else {
        s
    };
    let v = if s.len() > 0 && s[0] == '-' {
        -decimal_value(digits)
    } else {
        decimal_value(digits)
    };
    if all_digits(digits) && i32::MIN <= v <= i32::MAX {
        Some(v as i32)
    } else {
        None
    }
}

/// The `i32` that `s` spells, if any (see `parsed_i32`).
pub fn parse_i32(s: &str) -> (r: Option<i32>)
    ensures
        r == parsed_i32(s@),
{
    let v = str_chars(s);
    let n = v.len();
    let negative = n > 0 && v[0] == '-';
    let signed = n > 0 && (v[0] == '-' || v[0] == '+');
    let start: usize = if signed {
        1
    } else {
        0
    };
    let ghost digits = if signed {
        s@.drop_first()
    } else {
        s@
    };
    assert(digits =~= v@.subrange(start as int, n as int));
    if start == n {
        return None;
    }
    // Past this cap the value is out of range either way.
    let cap: i64 = 2147483649;
    let mut acc: i64 = 0;
    let mut k: usize = start;
    assert(v@.subrange(start as int, start as int) =~= Seq::<char>::empty());
    while k < n
        invariant
            start < n,
            start <= k <= n,
            n == v@.len(),
            v@ == s@,
            signed == (s@.len() > 0 && (s@[0] == '-' || s@[0] == '+')),
            digits == (if signed {
                s@.drop_first()
            } else {
                s@
            }),
            digits =~= v@.subrange(start as int, n as int),
            cap == 2147483649,
            forall|j: int| start <= j < k ==> is_digit(#[trigger] v@[j]),
            decimal_value(v@.subrange(start as int, k as int)) >= 0,
            acc == (if decimal_value(v@.subrange(start as int, k as int)) < cap {
                decimal_value(v@.subrange(start as int, k as int))
            } else {
                cap as int
            }),
        decreases n - k,
    {
        let c = v[k];
        if !('0' <= c && c <= '9') {
            assert(!is_digit(digits[k - start]));
            return None;
        }
        assert(v@.subrange(start as int, k + 1).drop_last() =~= v@.subrange(start as int, k as int));
        let d = (c as u32 - '0' as u32) as i64;
        let next = acc * 10 + d;
        acc = if next < cap {
            next
        } else {
            cap
        };
        k += 1;
    }
    assert(v@.subrange(start as int, n as int) =~= digits);
    assert(all_digits(digits));
    if negative {
        if acc > 2147483648 {
            None
        } else {
            Some((-acc) as i32)
        }
    } else {
        if acc > 2147483647 {
            None
        } else {
            Some(acc as i32)
        }
    }
}

// ---------------------------------------------------------------------------
// Payloads.

/// The bytes of an optional byte vector.
pub open spec fn opt_bytes(o: Option<Vec<u8>>) -> Option<Seq<u8>> {
    match o {
        Some(v) => Some(v@),
        None => None,
    }
}

/// The bytes that `input` decodes to as standard base64 (the `+` and `/` alphabet, with
/// `=` padding), or `None` where the decoder refuses it.
pub uninterp spec fn spec_base64_standard_decode(input: Seq<u8>) -> Option<Seq<u8>>;

/// Decodes `input` with the standard base64 engine; wraps `base64::Engine::decode` on
/// `base64::engine::general_purpose::STANDARD`. Its result, a function of the input
/// bytes alone, is named `spec_base64_standard_decode`; nothing more of it is stated.
#[verifier::external_body]
fn base64_standard_decode(input: &[u8]) -> (r: Option<Vec<u8>>)
    ensures
        opt_bytes(r) == spec_base64_standard_decode(input@),
{
    BASE64_STANDARD.decode(input).ok()
}

/// The text that `bytes` hold; wraps `String::from_utf8`, which accepts exactly the
/// valid UTF-8 byte sequences and then holds their characters.
#[verifier::external_body]
fn string_from_utf8(bytes: Vec<u8>) -> (r: Option<String>)
    ensures
        r is Some <==> valid_utf8(bytes@),
        r matches Some(s) ==> s@ == decode_utf8(bytes@),
{
    String::from_utf8(bytes).ok()
}

/// The event that a recorded-command payload gives, once its base64 text has been
/// decoded to `decoded`: the command, when the bytes are UTF-8 text.
pub open spec fn recorded_command(decoded: Option<Seq<u8>>) -> Option<OscView> {
    match decoded {
        Some(b) => if valid_utf8(b) {
            Some(OscView::CommandRecorded(decode_utf8(b)))
        } else {
            None
        },
        None => None,
    }
}

/// The event of a recorded command whose base64 payload decoded to `decoded`.
pub fn recorded_command_event(decoded: Option<Vec<u8>>) -> (r: Option<OscEvent>)
    ensures
        match r {
            Some(e) => recorded_command(opt_bytes(decoded)) == Some(e@),
            None => recorded_command(opt_bytes(decoded)) is None,
        },
{
    match decoded {
        Some(bytes) => match string_from_utf8(bytes) {
            Some(command) => Some(OscEvent::CommandRecorded(command)),
            None => None,
        },
        None => None,
    }
}

/// The directory that an OSC 7 location `host/path` names: `/path`, or nothing when
/// there is no `/`.
pub open spec fn working_dir(rest: Seq<char>) -> Seq<char> {
    match after_first(rest, '/') {
        Some(path) => "/"@ + path,
        None => seq![],
    }
}

/// The event that an OSC payload reports, if it is one of the shell integration
/// markers. A `133;D;` exit code that is not an `i32` reads as -1.
pub open spec fn parse_osc(p: Seq<char>) -> Option<OscView> {
    if starts_with(p, "133;"@) {
        let rest = p.skip("133;"@.len() as int);
        if rest == "A"@ {
            Some(OscView::PromptStart)
        } else if rest == "B"@ {
            Some(OscView::InputStart)
        } else if rest == "C"@ {
            Some(OscView::CommandStart)
        } else if starts_with(rest, "D;"@) {
            Some(
                OscView::CommandFinished {
                    exit_code: match parsed_i32(rest.skip("D;"@.len() as int)) {
                        Some(v) => v,
                        None => -1i32,
                    },
                },
            )
        } else {
            None
        }
    } else if starts_with(p, "7;file://"@) {
        Some(OscView::WorkingDirChanged(working_dir(p.skip("7;file://"@.len() as int))))
    } else if starts_with(p, "1337;Command="@) {
        recorded_command(spec_base64_standard_decode(encode_utf8(p.skip("1337;Command="@.len() as int))))
    } else {
        None
    }
}

/// Whether `v` starts with `prefix`; if so, what follows it.
fn strip_prefix(v: &Vec<char>, prefix: &str) -> (r: Option<String>)
    ensures
        r is Some <==> starts_with(v@, prefix@),
        r matches Some(rest) ==> rest@ == v@.skip(prefix@.len() as int),
{
    let p = str_chars(prefix);
    if chars_start_with(v, &p) {
        Some(string_from_chars(v, p.len(), v.len()))
    } else {
        None
    }
}

/// The directory that an OSC 7 location names (see `working_dir`).
fn working_dir_of(rest: &str) -> (r: String)
    ensures
        r@ == working_dir(rest@),
{
    let v = str_chars(rest);
    let mut j: usize = 0;
    while j < v.len() && v[j] != '/'
        invariant
            j <= v@.len(),
            forall|k: int| 0 <= k < j ==> v@[k] != '/',
        decreases v@.len() - j,
    {
        j += 1;
    }
    proof {
        lemma_after_first(v@, '/', j as int);
    }
    if j < v.len() {
        let path = string_from_chars(&v, j + 1, v.len());
        concat_str("/", path.as_str())
    } else {
        String::new()
    }
}

/// The event that an OSC payload reports (see `parse_osc`).
pub fn parse_osc_payload(payload: &str) -> (r: Option<OscEvent>)
    ensures
        match r {
            Some(e) => parse_osc(payload@) == Some(e@),
            None => parse_osc(payload@) is None,
        },
{
    let v = str_chars(payload);
    if let Some(rest) = strip_prefix(&v, "133;") {
        if str_equal(rest.as_str(), "A") {
            return Some(OscEvent::PromptStart);
        }
        if str_equal(rest.as_str(), "B") {
            return Some(OscEvent::InputStart);
        }
        if str_equal(rest.as_str(), "C") {
            return Some(OscEvent::CommandStart);
        }
        let rv = str_chars(rest.as_str());
        if let Some(code) = strip_prefix(&rv, "D;") {
            let exit_code = match parse_i32(code.as_str()) {
                Some(c) => c,
                None => -1,
            };
            return Some(OscEvent::CommandFinished { exit_code });
        }
        return None;
    }
    if let Some(rest) = strip_prefix(&v, "7;file://") {
        return Some(OscEvent::WorkingDirChanged(working_dir_of(rest.as_str())));
    }
    if let Some(encoded) = strip_prefix(&v, "1337;Command=") {
        let decoded = base64_standard_decode(encoded.as_str().as_bytes());
        return recorded_command_event(decoded);
    }
    None
}

// ---------------------------------------------------------------------------
// Scanning output.

/// The event list of a payload: its event, if it reports one.
pub open spec fn payload_events(payload: Seq<char>) -> Seq<OscView> {
    match parse_osc(payload) {
        Some(e) => seq![e],
        None => seq![],
    }
}

/// The events in `c` from position `i` on, `start` being where the payload of an open
/// sequence began, if one is open. `ESC ]` opens a sequence outside one; `BEL` or
/// `ESC \` closes an open one; a sequence still open at the end reports nothing.
pub open spec fn osc_scan(c: Seq<char>, i: int, start: Option<int>) -> Seq<OscView>
    decreases c.len() - i,
{
    if i < 0 || i >= c.len() {
        seq![]
    } else {
        match start {
            None => if c[i] == '\x1b' && i + 1 < c.len() && c[i + 1] == ']' {
                osc_scan(c, i + 2, Some(i + 2))
            } else {
                osc_scan(c, i + 1, None)
            },
            Some(s) => if c[i] == '\x07' {
                payload_events(c.subrange(s, i)) + osc_scan(c, i + 1, None)
            } else if c[i] == '\x1b' && i + 1 < c.len() && c[i + 1] == '\\' {
                payload_events(c.subrange(s, i)) + osc_scan(c, i + 2, None)
            } else {
                osc_scan(c, i + 1, Some(s))
            },
        }
    }
}

/// The events that the OSC sequences of `text` report, in order.
pub open spec fn osc_events(text: Seq<char>) -> Seq<OscView> {
    osc_scan(text, 0, None)
}

/// The events that the OSC sequences of `text` report, in order.
pub fn osc_events_in_text(text: &str) -> (r: Vec<OscEvent>)
    ensures
        event_views(r@) == osc_events(text@),
{
    let c = str_chars(text);
    let n = c.len();
    let mut events: Vec<OscEvent> = Vec::new();
    let mut i: usize = 0;
    let mut open: bool = false;
    let mut start: usize = 0;
    while i < n
        invariant
            n == c@.len(),
            c@ == text@,
            i <= n,
            open ==> start <= i,
            event_views(events@) + osc_scan(c@, i as int, if open {
                Some(start as int)
            } else {
                None
            }) == osc_events(text@),
        decreases n - i,
    {
        let ghost before = event_views(events@);
        if !open {
            if c[i] == '\x1b' && i + 1 < n && c[i + 1] == ']' {
                i += 2;
                open = true;
                start = i;
            } else {
                i += 1;
            }
        } else {
            let bel = c[i] == '\x07';
            let st = c[i] == '\x1b' && i + 1 < n && c[i + 1] == '\\';
            if bel || st {
                let payload = string_from_chars(&c, start, i);
                let parsed = parse_osc_payload(payload.as_str());
                match parsed {
                    Some(e) => {
                        events.push(e);
                    },
                    None => {},
                }
                assert(event_views(events@) =~= before + payload_events(c@.subrange(start as int, i as int)));
                i = if bel {
                    i + 1
                } else {
                    i + 2
                };
                open = false;
            } else {
                i += 1;
            }
        }
    }
    assert(event_views(events@) + Seq::<OscView>::empty() =~= event_views(events@));
    events
}

/// The text of `bytes` with every invalid UTF-8 sequence replaced by U+FFFD, as
/// `String::from_utf8_lossy` gives it.
pub uninterp spec fn spec_utf8_lossy(bytes: Seq<u8>) -> Seq<char>;

/// Wraps `String::from_utf8_lossy`. Its result, a function of the bytes alone, is named
/// `spec_utf8_lossy`; of it, only that valid UTF-8 comes out decoded is stated.
#[verifier::external_body]
fn utf8_lossy(bytes: &[u8]) -> (r: String)
    ensures
        r@ == spec_utf8_lossy(bytes@),
        valid_utf8(bytes@) ==> r@ == decode_utf8(bytes@),
{
    String::from_utf8_lossy(bytes).into_owned()
}

/// The events that the OSC sequences in a chunk of terminal output report, in order;
/// the bytes are read as UTF-8 with invalid sequences replaced.
pub fn extract_osc_events(data: &[u8]) -> (r: Vec<OscEvent>)
    ensures
        event_views(r@) == osc_events(spec_utf8_lossy(data@)),
        valid_utf8(data@) ==> event_views(r@) == osc_events(decode_utf8(data@)),
{
    let text = utf8_lossy(data);
    osc_events_in_text(text.as_str())
}

} // verus!
