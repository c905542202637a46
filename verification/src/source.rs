//! Reading the credentials from the device's own configuration files.
//!
//! The files can only be read by a privileged shell, which this library does
//! not run. It decides instead, step by step, which command is to be run next
//! and what the output of the last one means: the caller runs each command it
//! is handed and reports the output back.

use vstd::prelude::*;
use vstd::string::StringExecFns;
use crate::cred::{Credential, WifiCred};
use crate::error::ErrorKind;
use crate::shell::{CommandOutput, Event, Output, ShellEvent};
use crate::parsers::{parse_wifi_configstore_xml, parse_wpa_supplicant, supplicant_creds, xml_creds};
use crate::text::{chars_of, find, first_occurrence, matches_at, occurs_at};

verus! {

/// The number of candidate files.
pub const CANDIDATES: usize = 4;

/// The candidate files, in the order in which they are tried: the XML
/// configuration store at its two places, then the two plain-text files.
pub open spec fn candidate(i: int) -> Seq<char> {
    if i == 0 {
        "/data/misc/apexdata/com.android.wifi/WifiConfigStore.xml"@
    } else if i == 1 {
        "/data/misc/wifi/WifiConfigStore.xml"@
    } else if i == 2 {
        "/data/misc/wifi/WifiConfigStore.conf"@
    } else {
        "/data/misc/wifi/wpa_supplicant.conf"@
    }
}

/// The path of the `i`-th candidate file, if there is one.
pub fn candidate_path(i: usize) -> (p: Option<&'static str>)
    ensures
        match p {
            Some(s) => i < CANDIDATES && s@ == candidate(i as int),
            None => i >= CANDIDATES,
        },
{
    if i == 0 {
        Some("/data/misc/apexdata/com.android.wifi/WifiConfigStore.xml")
    } else if i == 1 {
        Some("/data/misc/wifi/WifiConfigStore.xml")
    } else if i == 2 {
        Some("/data/misc/wifi/WifiConfigStore.conf")
    } else if i == 3 {
        Some("/data/misc/wifi/wpa_supplicant.conf")
    } else {
        None
    }
}

/// The shell command that prints the file at `path` and suppresses the
/// complaints of `cat`.
pub open spec fn cat_command(path: Seq<char>) -> Seq<char> {
    "cat '"@ + path + "' 2>/dev/null"@
}

/// Builds the shell command that prints the file at `path`.
pub fn su_cat_command(path: &str) -> (cmd: String)
    ensures
        cmd@ == cat_command(path@),
{
    let mut cmd = String::from_str("cat '");
    cmd.append(path);
    cmd.append("' 2>/dev/null");
    cmd
}

/// The text that a read gave: what the command printed, if it succeeded and
/// printed anything.
pub open spec fn read_text(out: Output) -> Option<Seq<char>> {
    if out.success && out.stdout.len() > 0 {
        Some(out.stdout)
    } else {
        None
    }
}

/// Takes the text of a file from the output of the command that printed it.
/// The read has failed where the command failed or printed nothing.
pub fn su_cat_result(out: CommandOutput) -> (r: Result<String, ErrorKind>)
    ensures
        match r {
            Ok(text) => read_text(out@) == Some(text@),
            Err(e) => e == ErrorKind::SourceUnavailable && read_text(out@) is None,
        },
{
    if out.success && !out.stdout.as_str().is_empty() {
        Ok(out.stdout)
    } else {
        Err(ErrorKind::SourceUnavailable)
    }
}

/// `s` ends with `suffix`.
pub open spec fn ends_with(s: Seq<char>, suffix: Seq<char>) -> bool {
    occurs_at(s, suffix, s.len() - suffix.len())
}

/// `pat` occurs in `s`.
pub open spec fn contains_text(s: Seq<char>, pat: Seq<char>) -> bool {
    first_occurrence(s, pat) is Some
}

/// The credentials in the text of the file at `path`. A file whose name ends
/// in `.xml`, or whose text holds `<Network>`, is read as an XML
/// configuration store; another file whose text holds `network={` is read as
/// a supplicant configuration; any other file gives nothing.
pub open spec fn source_creds(path: Seq<char>, text: Seq<char>) -> Seq<Credential> {
    if ends_with(path, ".xml"@) || contains_text(text, "<Network>"@) {
        xml_creds(text)
    } else if contains_text(text, "network={"@) {
        supplicant_creds(text)
    } else {
        Seq::empty()
    }
}

/// Reads the credentials from the text of the file at `path`, by the format
/// that the path and the text show.
pub fn parse_source(path: &str, text: &str) -> (out: Vec<WifiCred>)
    ensures
        out.deep_view() == source_creds(path@, text@),
{
    let p = chars_of(path);
    let t = chars_of(text);
    let xml_suffix = chars_of(".xml");
    let xml_mark = chars_of("<Network>");
    let conf_mark = chars_of("network={");
    let is_xml_path = p.len() >= xml_suffix.len() && matches_at(
        p.as_slice(),
        xml_suffix.as_slice(),
        p.len() - xml_suffix.len(),
    );
    if is_xml_path || find(t.as_slice(), xml_mark.as_slice()).is_some() {
        parse_wifi_configstore_xml(text)
    } else if find(t.as_slice(), conf_mark.as_slice()).is_some() {
        parse_wpa_supplicant(text)
    } else {
        let out: Vec<WifiCred> = Vec::new();
        out
    }
}

/// How far the reading has come.
#[derive(Debug)]
pub struct ReadState {
    /// The number of candidate files for which a command was handed out.
    pub next: usize,
}

/// What is to happen next.
#[derive(Debug)]
pub enum ReadAction {
    /// This command is to be run by the privileged shell.
    Run(String),
    /// The reading ends with these credentials.
    Found(Vec<WifiCred>),
    /// The reading ends without credentials.
    Failed(ErrorKind),
}

/// The value of an action.
pub enum Action {
    Run(Seq<char>),
    Found(Seq<Credential>),
    Failed(ErrorKind),
}

impl View for ReadAction {
    type V = Action;

    open spec fn view(&self) -> Action {
        match self {
            ReadAction::Run(cmd) => Action::Run(cmd@),
            ReadAction::Found(list) => Action::Found(list.deep_view()),
            ReadAction::Failed(e) => Action::Failed(*e),
        }
    }
}

/// The credentials that the output `out` of the command for the candidate
/// `i` gives: those of the text it printed, none where the read failed.
pub open spec fn yield_of(i: int, out: Output) -> Seq<Credential> {
    match read_text(out) {
        Some(text) => source_creds(candidate(i), text),
        None => Seq::empty(),
    }
}

/// The credentials with which the event ends the reading, if it does: the
/// output of the command handed out last gives at least one.
pub open spec fn event_yield(next: int, event: Event) -> Option<Seq<Credential>> {
    match event {
        Event::Output(out) => if 1 <= next <= CANDIDATES && yield_of(next - 1, out).len() > 0 {
            Some(yield_of(next - 1, out))
        } else {
            None
        },
        Event::Begin => None,
    }
}

/// One step of the reading: the state after it, and what is to happen next.
/// Where the event brings credentials, the reading ends with them. Otherwise
/// the next candidate is to be read, and where none is left the reading has
/// failed.
pub open spec fn source_step(next: int, event: Event) -> (int, Action) {
    match event_yield(next, event) {
        Some(list) => (next, Action::Found(list)),
        None => if 0 <= next < CANDIDATES {
            (next + 1, Action::Run(cat_command(candidate(next))))
        } else {
            (next, Action::Failed(ErrorKind::NoReadableSource))
        },
    }
}

impl ReadState {
    /// The state in which no command was handed out yet.
    pub fn new() -> (s: ReadState)
        ensures
            s.next == 0,
    {
        ReadState { next: 0 }
    }
}

/// Decides the next step of reading the stored credentials through a
/// privileged shell. The caller starts with a new state and the event
/// `Begin`, runs each command it is handed and comes back with its output,
/// until the action is `Found` or `Failed`.
pub fn try_read_with_su(state: &mut ReadState, event: ShellEvent) -> (action: ReadAction)
    ensures
        (final(state).next as int, action@) == source_step(old(state).next as int, event@),
{
    let next = state.next;
    match event {
        ShellEvent::Output(out) => {
            if 1 <= next && next <= CANDIDATES {
                match candidate_path(next - 1) {
                    Some(path) => {
                        match su_cat_result(out) {
                            Ok(text) => {
                                let list = parse_source(path, text.as_str());
                                if list.len() > 0 {
                                    return ReadAction::Found(list);
                                }
                            },
                            Err(_) => {},
                        }
                    },
                    None => {},
                }
            }
        },
        ShellEvent::Begin => {},
    }
    match candidate_path(next) {
        Some(path) => {
            state.next = next + 1;
            ReadAction::Run(su_cat_command(path))
        },
        None => ReadAction::Failed(ErrorKind::NoReadableSource),
    }
}

/// The credentials of the first of the outputs `outs`, from the `from`-th on,
/// that gives any; the `i`-th output is that of the command for the `i`-th
/// candidate.
pub open spec fn first_yield(outs: Seq<Output>, from: int) -> Option<Seq<Credential>>
    decreases outs.len() - from,
{
    if from < 0 || from >= outs.len() || from >= CANDIDATES {
        None
    } else if yield_of(from, outs[from]).len() > 0 {
        Some(yield_of(from, outs[from]))
    } else {
        first_yield(outs, from + 1)
    }
}

/// The action with which the reading ends when it goes on from the state
/// `next` with the event `event`, and the commands handed out from then on
/// have the outputs `outs`, in this order. Where the outputs run out, it is
/// the command left unanswered.
pub open spec fn source_run(next: int, event: Event, outs: Seq<Output>) -> Action
    decreases outs.len(),
{
    let (after, action) = source_step(next, event);
    match action {
        Action::Run(_) => if outs.len() > 0 {
            source_run(after, Event::Output(outs[0]), outs.skip(1))
        } else {
            action
        },
        _ => action,
    }
}

/// The reading goes on from the `k`-th candidate as the remaining outputs
/// say.
proof fn lemma_source_run_from(k: int, event: Event, outs: Seq<Output>, all: Seq<Output>)
    requires
        0 <= k <= CANDIDATES,
        all.len() >= CANDIDATES,
        k <= all.len(),
        outs == all.skip(k),
        event_yield(k, event) is None,
    ensures
        source_run(k, event, outs) == match first_yield(all, k) {
            Some(list) => Action::Found(list),
            None => Action::Failed(ErrorKind::NoReadableSource),
        },
    decreases CANDIDATES - k,
{
    if k < CANDIDATES {
        assert(outs.skip(1) =~= all.skip(k + 1));
        if yield_of(k, all[k]).len() == 0 {
            lemma_source_run_from(k + 1, Event::Output(all[k]), outs.skip(1), all);
        }
    }
}

/// A reading that is carried through ends with the credentials of the first
/// candidate file that gives any, and fails where none does: the files are
/// tried in their order, and none is read after the one that gave
/// credentials.
pub proof fn lemma_source_run(outs: Seq<Output>)
    requires
        outs.len() >= CANDIDATES,
    ensures
        source_run(0, Event::Begin, outs) == match first_yield(outs, 0) {
            Some(list) => Action::Found(list),
            None => Action::Failed(ErrorKind::NoReadableSource),
        },
{
    assert(outs.skip(0) =~= outs);
    lemma_source_run_from(0, Event::Begin, outs, outs);
}

} // verus!
