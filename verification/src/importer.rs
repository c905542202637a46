//! Adding a list of networks to the live system, one privileged command for
//! each, with a count of what succeeded and what failed.
//!
//! As with reading, the library decides and the caller runs the commands.

use vstd::prelude::*;
use vstd::string::StringExecFns;
use crate::cred::{Credential, WifiCred};
use crate::error::ErrorKind;
use crate::shell::{
    command_outcome, outcome, shell_quote, shell_quoted, CommandOutput, Event, Output, ShellEvent,
};

verus! {

/// The lowest platform level on which networks can be added.
pub const MIN_IMPORT_LEVEL: i32 = 30;

/// The key with which the network is added: none where the record has no key
/// or an empty one.
pub open spec fn import_key(c: Credential) -> Option<Seq<char>> {
    match c.pass {
        Some(p) => if p.len() > 0 {
            Some(p)
        } else {
            None
        },
        None => None,
    }
}

/// The command that adds the network: the form for an open network where
/// there is no key, the form for a secured one where there is.
pub open spec fn add_command(c: Credential) -> Seq<char> {
    match import_key(c) {
        Some(p) => "cmd wifi add-network "@ + shell_quoted(c.ssid) + " wpa2 "@ + shell_quoted(p),
        None => "cmd wifi add-network "@ + shell_quoted(c.ssid) + " open"@,
    }
}

/// Builds the command that adds the network.
pub fn add_network_command(c: &WifiCred) -> (cmd: String)
    ensures
        cmd@ == add_command(c@),
{
    let mut cmd = String::from_str("cmd wifi add-network ");
    cmd.append(shell_quote(c.ssid.as_str()).as_str());
    match &c.pass {
        Some(p) => {
            if !p.as_str().is_empty() {
                cmd.append(" wpa2 ");
                cmd.append(shell_quote(p.as_str()).as_str());
                return cmd;
            }
        },
        None => {},
    }
    cmd.append(" open");
    cmd
}

/// One network that could not be added.
#[derive(Debug)]
pub struct AddFailure {
    /// The name of the network.
    pub ssid: String,
    /// The complaint of the command.
    pub message: String,
}

/// The value of a failure.
pub struct Failure {
    pub ssid: Seq<char>,
    pub message: Seq<char>,
}

impl View for AddFailure {
    type V = Failure;

    open spec fn view(&self) -> Failure {
        Failure { ssid: self.ssid@, message: self.message@ }
    }
}

impl AddFailure {
    /// The kind of this failure: each entry of a report stands for one
    /// command that failed.
    pub fn kind(&self) -> (k: ErrorKind)
        ensures
            k == ErrorKind::PerItemAddFailure,
    {
        ErrorKind::PerItemAddFailure
    }
}

impl DeepView for AddFailure {
    type V = Failure;

    open spec fn deep_view(&self) -> Failure {
        self@
    }
}

/// The result of an import: how many networks were added, how many were
/// not, and the failures in the order in which they came.
#[derive(Debug)]
pub struct ImportReport {
    pub success: usize,
    pub failed: usize,
    pub errors: Vec<AddFailure>,
}

/// The value of a report.
pub struct Report {
    pub success: nat,
    pub failed: nat,
    pub errors: Seq<Failure>,
}

impl View for ImportReport {
    type V = Report;

    open spec fn view(&self) -> Report {
        Report {
            success: self.success as nat,
            failed: self.failed as nat,
            errors: self.errors.deep_view(),
        }
    }
}

impl ImportReport {
    /// The failure that came first, if any network failed: the one that is
    /// shown beside the counts.
    pub fn first_failure(&self) -> (r: Option<&AddFailure>)
        ensures
            match r {
                Some(f) => self.errors@.len() > 0 && *f == self.errors@[0],
                None => self.errors@.len() == 0,
            },
    {
        if self.errors.len() > 0 {
            Some(&self.errors[0])
        } else {
            None
        }
    }
}

/// The report before the first network.
pub open spec fn empty_report() -> Report {
    Report { success: 0, failed: 0, errors: Seq::empty() }
}

/// The report `r` after the command for the network `c` had the output
/// `out`.
pub open spec fn recorded(r: Report, c: Credential, out: Output) -> Report {
    match outcome(out) {
        Ok(_) => Report { success: r.success + 1, ..r },
        Err(m) => Report {
            failed: r.failed + 1,
            errors: r.errors.push(Failure { ssid: c.ssid, message: m }),
            ..r
        },
    }
}

/// The report after the commands for the first networks of `creds` had the
/// outputs `outs`, one output for each network in order.
pub open spec fn report_of(creds: Seq<Credential>, outs: Seq<Output>) -> Report
    decreases outs.len(),
{
    if outs.len() == 0 || creds.len() < outs.len() {
        empty_report()
    } else {
        recorded(
            report_of(creds, outs.drop_last()),
            creds[outs.len() - 1],
            outs.last(),
        )
    }
}

/// A report counts each network once, and lists one failure for each
/// network that failed.
pub proof fn lemma_report_of(creds: Seq<Credential>, outs: Seq<Output>)
    requires
        outs.len() <= creds.len(),
    ensures
        report_of(creds, outs).success + report_of(creds, outs).failed == outs.len(),
        report_of(creds, outs).errors.len() == report_of(creds, outs).failed,
    decreases outs.len(),
{
    if outs.len() > 0 {
        lemma_report_of(creds, outs.drop_last());
    }
}

/// How far an import has come.
#[derive(Debug)]
pub struct ImportState {
    /// The networks to add.
    pub creds: Vec<WifiCred>,
    /// The level of the platform.
    pub platform_level: i32,
    /// The number of networks for which a command was handed out.
    pub issued: usize,
    /// The number of networks whose outcome is recorded.
    pub recorded: usize,
    /// The outcomes so far.
    pub report: ImportReport,
}

/// The value of an import's state.
pub struct Import {
    pub creds: Seq<Credential>,
    pub platform_level: int,
    pub issued: nat,
    pub recorded: nat,
    pub report: Report,
}

impl View for ImportState {
    type V = Import;

    open spec fn view(&self) -> Import {
        Import {
            creds: self.creds.deep_view(),
            platform_level: self.platform_level as int,
            issued: self.issued as nat,
            recorded: self.recorded as nat,
            report: self.report@,
        }
    }
}

/// What is to happen next.
#[derive(Debug)]
pub enum ImportAction {
    /// This command is to be run by the privileged shell.
    Run(String),
    /// Every network was tried; the state holds the report.
    Finished,
    /// Nothing was or will be tried.
    Refused(ErrorKind),
}

/// The value of an action.
pub enum Order {
    Run(Seq<char>),
    Finished,
    Refused(ErrorKind),
}

impl View for ImportAction {
    type V = Order;

    open spec fn view(&self) -> Order {
        match self {
            ImportAction::Run(cmd) => Order::Run(cmd@),
            ImportAction::Finished => Order::Finished,
            ImportAction::Refused(e) => Order::Refused(*e),
        }
    }
}

/// The state is one that an import can be in: commands are handed out one
/// at a time and in order, and the report counts the recorded outcomes.
pub open spec fn import_ok(s: Import) -> bool {
    &&& s.recorded <= s.issued <= s.recorded + 1
    &&& s.issued <= s.creds.len()
    &&& s.report.success + s.report.failed == s.recorded
    &&& s.report.errors.len() == s.report.failed
}

/// The state after the event was taken in: the output of the outstanding
/// command is recorded for its network; an output that no command is
/// waiting for is ignored.
pub open spec fn taken_in(s: Import, event: Event) -> Import {
    match event {
        Event::Output(out) => if s.recorded < s.issued <= s.creds.len() {
            Import {
                recorded: s.recorded + 1,
                report: recorded(s.report, s.creds[s.recorded as int], out),
                ..s
            }
        } else {
            s
        },
        Event::Begin => s,
    }
}

/// One step of an import: the state after it, and what is to happen next.
/// On a platform below the lowest level the import is refused. Otherwise the
/// event is taken in; then a command that is still unanswered is handed out
/// again, or else the command for the next network, and where no network is
/// left the import is finished.
pub open spec fn import_step(s: Import, event: Event) -> (Import, Order) {
    if s.platform_level < MIN_IMPORT_LEVEL {
        (s, Order::Refused(ErrorKind::ImportUnsupported))
    } else {
        let t = taken_in(s, event);
        if t.recorded < t.issued <= t.creds.len() {
            (t, Order::Run(add_command(t.creds[t.recorded as int])))
        } else if t.issued < t.creds.len() {
            (Import { issued: t.issued + 1, ..t }, Order::Run(add_command(t.creds[t.issued as int])))
        } else {
            (t, Order::Finished)
        }
    }
}

impl ImportState {
    /// Tells whether the state is one that an import can be in.
    pub fn is_ok(&self) -> (r: bool)
        ensures
            r == import_ok(self@),
    {
        let n = self.creds.len();
        let counted = match self.report.success.checked_add(self.report.failed) {
            Some(sum) => sum == self.recorded,
            None => false,
        };
        self.recorded <= self.issued && self.issued - self.recorded <= 1 && self.issued <= n
            && counted && self.report.errors.len() == self.report.failed
    }

    /// The state of an import of `creds` in which nothing was tried yet.
    pub fn new(creds: Vec<WifiCred>, platform_level: i32) -> (s: ImportState)
        ensures
            s@ == (Import {
                creds: creds.deep_view(),
                platform_level: platform_level as int,
                issued: 0,
                recorded: 0,
                report: empty_report(),
            }),
            import_ok(s@),
    {
        let s = ImportState {
            creds,
            platform_level,
            issued: 0,
            recorded: 0,
            report: ImportReport { success: 0, failed: 0, errors: Vec::new() },
        };
        assert(s.report.errors.deep_view() =~= Seq::<Failure>::empty());
        s
    }
}

/// Decides the next step of adding the networks to the system. The caller
/// starts with a new state and the event `Begin`, runs each command it is
/// handed and comes back with its output, until the action is `Finished` or
/// `Refused`. A failing command does not end the import.
pub fn bulk_import(state: &mut ImportState, event: ShellEvent) -> (action: ImportAction)
    requires
        import_ok(old(state)@),
    ensures
        (final(state)@, action@) == import_step(old(state)@, event@),
        import_ok(final(state)@),
{
    if state.platform_level < MIN_IMPORT_LEVEL {
        return ImportAction::Refused(ErrorKind::ImportUnsupported);
    }
    let n = state.creds.len();
    match event {
        ShellEvent::Output(out) => {
            if state.recorded < state.issued {
                let ghost before = state.report.errors.deep_view();
                match command_outcome(out) {
                    Ok(_) => {
                        state.report.success = state.report.success + 1;
                    },
                    Err(message) => {
                        let ssid = state.creds[state.recorded].ssid.clone();
                        let failure = AddFailure { ssid, message };
                        let ghost fv = failure@;
                        state.report.failed = state.report.failed + 1;
                        state.report.errors.push(failure);
                        assert(state.report.errors.deep_view() =~= before.push(fv));
                    },
                }
                state.recorded = state.recorded + 1;
            }
        },
        ShellEvent::Begin => {},
    }
    if state.recorded < state.issued {
        ImportAction::Run(add_network_command(&state.creds[state.recorded]))
    } else if state.issued < n {
        let cmd = add_network_command(&state.creds[state.issued]);
        state.issued = state.issued + 1;
        ImportAction::Run(cmd)
    } else {
        ImportAction::Finished
    }
}

/// The state of an import of `creds` after `k` of its commands were handed
/// out and answered by the first `k` of the outputs `outs`.
pub open spec fn import_after(creds: Seq<Credential>, level: int, outs: Seq<Output>, k: int)
    -> Import {
    Import {
        creds,
        platform_level: level,
        issued: k as nat,
        recorded: k as nat,
        report: report_of(creds, outs.take(k)),
    }
}

/// The state in which an import ends when it goes on from the state `s` with
/// the event `event`, and the commands handed out from then on have the
/// outputs `outs`, in this order. Where the outputs run out, it is the state
/// in which a command is left unanswered.
pub open spec fn import_run(s: Import, event: Event, outs: Seq<Output>) -> (Import, Order)
    decreases outs.len(),
{
    let (after, order) = import_step(s, event);
    match order {
        Order::Run(_) => if outs.len() > 0 {
            import_run(after, Event::Output(outs[0]), outs.skip(1))
        } else {
            (after, order)
        },
        _ => (after, order),
    }
}

/// The import goes on from the `k`-th network as the remaining outputs say.
proof fn lemma_import_run_from(
    creds: Seq<Credential>,
    level: int,
    all: Seq<Output>,
    k: int,
    s: Import,
    event: Event,
)
    requires
        level >= MIN_IMPORT_LEVEL,
        all.len() == creds.len(),
        0 <= k <= creds.len(),
        taken_in(s, event) == import_after(creds, level, all, k),
        s.platform_level == level,
    ensures
        import_run(s, event, all.skip(k)) == (
            import_after(creds, level, all, creds.len() as int),
            Order::Finished,
        ),
    decreases creds.len() - k,
{
    let t = import_after(creds, level, all, k);
    if k < creds.len() {
        let next = Import { issued: t.issued + 1, ..t };
        assert(all.skip(k).skip(1) =~= all.skip(k + 1));
        assert(all.take(k + 1).drop_last() =~= all.take(k));
        lemma_import_run_from(creds, level, all, k + 1, next, Event::Output(all[k]));
    }
}

/// An import that is carried through tries every network, whatever fails on
/// the way, and ends with the report of all the outcomes in order. On a
/// platform below the lowest level it is refused before any command.
pub proof fn lemma_import_run(creds: Seq<Credential>, level: int, outs: Seq<Output>)
    requires
        outs.len() == creds.len(),
    ensures
        ({
            let start = import_after(creds, level, outs, 0);
            import_run(start, Event::Begin, outs) == if level < MIN_IMPORT_LEVEL {
                (start, Order::Refused(ErrorKind::ImportUnsupported))
            } else {
                (import_after(creds, level, outs, creds.len() as int), Order::Finished)
            }
        }),
{
    let start = import_after(creds, level, outs, 0);
    if level >= MIN_IMPORT_LEVEL {
        assert(outs.skip(0) =~= outs);
        lemma_import_run_from(creds, level, outs, 0, start, Event::Begin);
    }
}

} // verus!
