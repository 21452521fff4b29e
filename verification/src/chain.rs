//! The discovery chain: an ordered list of probe adapters attempted one at
//! a time.  The chain stops at the first adapter whose output parses to at
//! least one valid record; when every adapter is exhausted it produces a
//! structured diagnostic payload instead of data.
//!
//! The chain itself performs no input or output: it tells its caller which
//! adapter to invoke next, and the caller hands back what the external tool
//! produced.

use vstd::prelude::*;
use crate::aggregate;
use crate::parse;
use crate::parse::FormatModel;
use crate::parse::LineFormat;
use crate::record;
use crate::record::RecordModel;
use crate::record::WifiRecord;
use crate::text;

verus! {

/// The probe adapters, one per external scanning mechanism, in the order
/// the standard chain tries them.
#[derive(Clone, Copy, PartialEq, Eq, Structural, Debug)]
pub enum AdapterKind {
    /// NetworkManager-style listing: tabular output, address column first.
    NetworkManagerList,
    /// Legacy wireless-tools scan: free-form blocks with `Address:` markers;
    /// interface-scoped.
    WirelessToolsScan,
    /// nl80211-style scan: `BSS <address>(on ...)` section headers;
    /// interface-scoped.
    Nl80211Scan,
    /// Read-only wireless-statistics probe: contributes no records, kept in
    /// the chain only to enrich the diagnostics when everything else fails.
    WirelessStats,
}

/// The name of the external tool behind each adapter.
pub open spec fn kind_name_spec(k: AdapterKind) -> Seq<char> {
    match k {
        AdapterKind::NetworkManagerList => "nmcli"@,
        AdapterKind::WirelessToolsScan => "iwlist"@,
        AdapterKind::Nl80211Scan => "iw"@,
        AdapterKind::WirelessStats => "proc-net-wireless"@,
    }
}

/// The name of the external tool behind an adapter.
pub fn kind_name(k: AdapterKind) -> (r: String)
    ensures
        r@ == kind_name_spec(k),
{
    match k {
        AdapterKind::NetworkManagerList => String::from_str("nmcli"),
        AdapterKind::WirelessToolsScan => String::from_str("iwlist"),
        AdapterKind::Nl80211Scan => String::from_str("iw"),
        AdapterKind::WirelessStats => String::from_str("proc-net-wireless"),
    }
}

/// The output format paired with each adapter; the statistics probe has
/// none and never contributes records.
pub open spec fn kind_format_spec(k: AdapterKind) -> Option<FormatModel> {
    match k {
        AdapterKind::NetworkManagerList => Some(FormatModel::Tabular { name_first: false }),
        AdapterKind::WirelessToolsScan => Some(FormatModel::KeyPrefixed { marker: "Address:"@ }),
        AdapterKind::Nl80211Scan => Some(FormatModel::SectionHeader),
        AdapterKind::WirelessStats => None,
    }
}

/// The output format paired with an adapter.
pub fn kind_format(k: AdapterKind) -> (r: Option<LineFormat>)
    ensures
        match r {
            Some(f) => kind_format_spec(k) == Some(f@),
            None => kind_format_spec(k) is None,
        },
{
    match k {
        AdapterKind::NetworkManagerList => Some(LineFormat::Tabular { name_first: false }),
        AdapterKind::WirelessToolsScan => Some(
            LineFormat::KeyPrefixed { marker: String::from_str("Address:") },
        ),
        AdapterKind::Nl80211Scan => Some(LineFormat::SectionHeader),
        AdapterKind::WirelessStats => None,
    }
}

/// How an adapter's external mechanism is reached: a fixed, non-interactive
/// command line, the same command once per wireless interface, or a
/// read-only pseudo-file.
pub enum InvocationPlan {
    /// Run `program` once with the fixed arguments.
    Command { program: String, args: Vec<String> },
    /// Run `program` once per wireless interface, with the interface name
    /// followed by the fixed trailing argument.
    PerInterfaceCommand { program: String, trailing_arg: String },
    /// Read this pseudo-file.
    ReadFile { path: String },
}

/// The model of an invocation plan.
pub ghost enum PlanModel {
    Command { program: Seq<char>, args: Seq<Seq<char>> },
    PerInterfaceCommand { program: Seq<char>, trailing_arg: Seq<char> },
    ReadFile { path: Seq<char> },
}

impl View for InvocationPlan {
    type V = PlanModel;

    open spec fn view(&self) -> PlanModel {
        match self {
            InvocationPlan::Command { program, args } => PlanModel::Command {
                program: program@,
                args: args.deep_view(),
            },
            InvocationPlan::PerInterfaceCommand { program, trailing_arg } => PlanModel::PerInterfaceCommand {
                program: program@,
                trailing_arg: trailing_arg@,
            },
            InvocationPlan::ReadFile { path } => PlanModel::ReadFile { path: path@ },
        }
    }
}

/// The fixed invocation behind each adapter.
pub open spec fn kind_plan_spec(k: AdapterKind) -> PlanModel {
    match k {
        AdapterKind::NetworkManagerList => PlanModel::Command {
            program: "nmcli"@,
            args: seq!["device"@, "wifi"@, "list"@],
        },
        AdapterKind::WirelessToolsScan => PlanModel::PerInterfaceCommand {
            program: "iwlist"@,
            trailing_arg: "scan"@,
        },
        AdapterKind::Nl80211Scan => PlanModel::PerInterfaceCommand {
            program: "iw"@,
            trailing_arg: "scan"@,
        },
        AdapterKind::WirelessStats => PlanModel::ReadFile { path: "/proc/net/wireless"@ },
    }
}

/// The fixed invocation behind an adapter: which program to run, with what
/// arguments, or which pseudo-file to read.
pub fn kind_plan(k: AdapterKind) -> (r: InvocationPlan)
    ensures
        r@ == kind_plan_spec(k),
{
    match k {
        AdapterKind::NetworkManagerList => {
            let mut args: Vec<String> = Vec::new();
            args.push(String::from_str("device"));
            args.push(String::from_str("wifi"));
            args.push(String::from_str("list"));
            proof {
                assert(args.deep_view() =~= seq!["device"@, "wifi"@, "list"@]);
            }
            InvocationPlan::Command { program: String::from_str("nmcli"), args }
        },
        AdapterKind::WirelessToolsScan => InvocationPlan::PerInterfaceCommand {
            program: String::from_str("iwlist"),
            trailing_arg: String::from_str("scan"),
        },
        AdapterKind::Nl80211Scan => InvocationPlan::PerInterfaceCommand {
            program: String::from_str("iw"),
            trailing_arg: String::from_str("scan"),
        },
        AdapterKind::WirelessStats => InvocationPlan::ReadFile {
            path: String::from_str("/proc/net/wireless"),
        },
    }
}

/// One attempted invocation of an adapter's external tool, as the caller
/// observed it: whether the tool could be started at all, whether it exited
/// successfully, and what it wrote.
pub struct ProbeAttempt {
    pub kind: AdapterKind,
    pub invoked: bool,
    pub exit_succeeded: bool,
    pub raw_output: String,
    pub raw_error: String,
}

/// The model of an attempt.
pub ghost struct AttemptModel {
    pub kind: AdapterKind,
    pub invoked: bool,
    pub exit_succeeded: bool,
    pub raw_output: Seq<char>,
    pub raw_error: Seq<char>,
}

impl View for ProbeAttempt {
    type V = AttemptModel;

    open spec fn view(&self) -> AttemptModel {
        AttemptModel {
            kind: self.kind,
            invoked: self.invoked,
            exit_succeeded: self.exit_succeeded,
            raw_output: self.raw_output@,
            raw_error: self.raw_error@,
        }
    }
}

impl DeepView for ProbeAttempt {
    type V = AttemptModel;

    open spec fn deep_view(&self) -> AttemptModel {
        self.view()
    }
}

/// The candidates an attempt contributes: its adapter's parse of the
/// captured output, or nothing when the tool could not be run, failed, or
/// has no record-bearing format.
pub open spec fn attempt_candidates(a: AttemptModel) -> Seq<RecordModel> {
    if a.invoked && a.exit_succeeded {
        match kind_format_spec(a.kind) {
            Some(f) => parse::format_candidates(f, a.raw_output),
            None => Seq::empty(),
        }
    } else {
        Seq::empty()
    }
}

/// What the chain holds of a successful scan: the aggregate of the
/// succeeding attempt's candidates — canonical records, pairwise distinct
/// addresses, ordered by address.
pub open spec fn records_ok(rs: Seq<RecordModel>, cands: Seq<RecordModel>) -> bool {
    &&& rs.to_multiset() == aggregate::dedup_spec(cands).to_multiset()
    &&& aggregate::sorted_by_key(rs)
    &&& forall|j: int| 0 <= j < rs.len() ==> record::canonical_record(#[trigger] rs[j])
    &&& forall|i: int, j: int| 0 <= i < j < rs.len() ==> rs[i].bssid != rs[j].bssid
}

/// What the chain asks its caller to do next.
pub enum ChainAction {
    /// Invoke this adapter's external tool and feed back the attempt.
    Invoke(AdapterKind),
    /// The scan is over; call `finish`.
    Done,
}

/// The discovery chain state: adapters in priority order, the attempts so
/// far (one per adapter already tried), and the records of the succeeding
/// attempt once there is one.
pub struct DiscoveryChain {
    pub adapters: Vec<AdapterKind>,
    pub attempts: Vec<ProbeAttempt>,
    pub records: Option<Vec<WifiRecord>>,
}

impl DiscoveryChain {
    /// The chain has succeeded: some attempt yielded records.
    pub open spec fn succeeded(self) -> bool {
        self.records is Some
    }

    /// The chain is over: it succeeded, or every adapter was attempted.
    pub open spec fn done(self) -> bool {
        self.succeeded() || self.attempts@.len() >= self.adapters@.len()
    }

    /// Internal consistency: attempt `i` belongs to adapter `i`; while no
    /// attempt has yielded records there are none; once one has, the
    /// records are the aggregate of the last attempt's candidates and
    /// every earlier attempt yielded none.
    pub open spec fn wf(self) -> bool {
        &&& self.attempts@.len() <= self.adapters@.len()
        &&& forall|i: int|
            0 <= i < self.attempts@.len() ==> (#[trigger] self.attempts@[i]).kind
                == self.adapters@[i]
        &&& match self.records {
            None => forall|i: int|
                0 <= i < self.attempts@.len() ==> attempt_candidates(
                    #[trigger] self.attempts.deep_view()[i],
                ).len() == 0,
            Some(rs) => {
                &&& self.attempts@.len() > 0
                &&& attempt_candidates(self.attempts.deep_view().last()).len() > 0
                &&& records_ok(
                    rs.deep_view(),
                    attempt_candidates(self.attempts.deep_view().last()),
                )
                &&& forall|i: int|
                    0 <= i < self.attempts@.len() - 1 ==> attempt_candidates(
                        #[trigger] self.attempts.deep_view()[i],
                    ).len() == 0
            },
        }
    }

    /// What the chain asks next, as a function of the state: nothing once
    /// it is done, otherwise the invocation of the first unattempted
    /// adapter.
    pub open spec fn spec_next_action(self) -> ChainAction {
        if self.done() {
            ChainAction::Done
        } else {
            ChainAction::Invoke(self.adapters@[self.attempts@.len() as int])
        }
    }

    /// A fresh chain over the given adapters, in priority order.
    pub fn new(adapters: Vec<AdapterKind>) -> (r: DiscoveryChain)
        ensures
            r.wf(),
            r.adapters == adapters,
            r.attempts@.len() == 0,
            !r.succeeded(),
    {
        DiscoveryChain { adapters, attempts: Vec::new(), records: None }
    }

    /// The standard chain: NetworkManager listing first, then the legacy
    /// wireless-tools scan, then the nl80211 scan, then the read-only
    /// statistics probe.
    pub fn standard() -> (r: DiscoveryChain)
        ensures
            r.wf(),
            r.adapters@ == seq![
                AdapterKind::NetworkManagerList,
                AdapterKind::WirelessToolsScan,
                AdapterKind::Nl80211Scan,
                AdapterKind::WirelessStats,
            ],
            r.attempts@.len() == 0,
            !r.succeeded(),
    {
        let mut adapters: Vec<AdapterKind> = Vec::new();
        adapters.push(AdapterKind::NetworkManagerList);
        adapters.push(AdapterKind::WirelessToolsScan);
        adapters.push(AdapterKind::Nl80211Scan);
        adapters.push(AdapterKind::WirelessStats);
        proof {
            assert(adapters@ =~= seq![
                AdapterKind::NetworkManagerList,
                AdapterKind::WirelessToolsScan,
                AdapterKind::Nl80211Scan,
                AdapterKind::WirelessStats,
            ]);
        }
        DiscoveryChain::new(adapters)
    }

    /// What to do next.
    pub fn next_action(&self) -> (r: ChainAction)
        ensures
            r == self.spec_next_action(),
    {
        match self.records {
            Some(_) => ChainAction::Done,
            None => {
                if self.attempts.len() >= self.adapters.len() {
                    ChainAction::Done
                } else {
                    ChainAction::Invoke(self.adapters[self.attempts.len()])
                }
            },
        }
    }

    /// Records one attempt.  If the attempt's output parses to at least one
    /// valid record the chain succeeds on the spot — its records become the
    /// aggregate of exactly this attempt's candidates — and from then on
    /// `next_action` is `Done`, so no later adapter is ever invoked.
    /// Otherwise the chain merely moves on to the next adapter.
    pub fn feed(&mut self, attempt: ProbeAttempt)
        requires
            old(self).wf(),
            !old(self).done(),
            attempt.kind == old(self).adapters@[old(self).attempts@.len() as int],
        ensures
            final(self).wf(),
            final(self).adapters == old(self).adapters,
            final(self).attempts@ == old(self).attempts@.push(attempt),
            final(self).succeeded() == (attempt_candidates(attempt@).len() > 0),
            attempt_candidates(attempt@).len() > 0 ==> {
                &&& final(self).spec_next_action() is Done
                &&& final(self).records matches Some(rs) && records_ok(
                    rs.deep_view(),
                    attempt_candidates(attempt@),
                )
            },
            attempt_candidates(attempt@).len() == 0 ==> final(self).records is None,
    {
        if attempt.invoked && attempt.exit_succeeded {
            match kind_format(attempt.kind) {
                Some(fmt) => {
                    let cands = parse::parse_output(&fmt, attempt.raw_output.as_str());
                    if cands.len() > 0 {
                        let rs = aggregate::aggregate(&cands);
                        self.records = Some(rs);
                    }
                },
                None => {},
            }
        }
        let ghost old_attempts = self.attempts.deep_view();
        self.attempts.push(attempt);
        proof {
            assert(self.attempts.deep_view() =~= old_attempts.push(attempt@));
            assert(self.attempts.deep_view().last() == attempt@);
            assert forall|i: int| 0 <= i < self.attempts@.len() - 1 implies attempt_candidates(
                #[trigger] self.attempts.deep_view()[i],
            ).len() == 0 by {
                assert(self.attempts.deep_view()[i] == old_attempts[i]);
            }
        }
    }

    /// The chain's outcome.  On success the records of the succeeding
    /// attempt are returned as data; otherwise the result is the
    /// diagnostic payload: one report per attempted adapter, in attempt
    /// order, and a non-empty fixed list of remediation hints.
    pub fn finish(self) -> (r: DiscoveryResult)
        requires
            self.wf(),
            self.done(),
        ensures
            self.succeeded() ==> (r matches DiscoveryResult::Records(rs) && self.records == Some(
                rs,
            )),
            !self.succeeded() ==> (r matches DiscoveryResult::Exhausted { reports, hints } && {
                &&& reports.deep_view() == reports_spec(self.attempts.deep_view())
                &&& reports.deep_view().len() == self.attempts@.len()
                &&& hints.deep_view() == remediation_hints()
                &&& hints@.len() > 0
            }),
    {
        match self.records {
            Some(rs) => DiscoveryResult::Records(rs),
            None => {
                let reports = build_reports(&self.attempts);
                let hints = remediation_hint_strings();
                DiscoveryResult::Exhausted { reports, hints }
            },
        }
    }
}

/// If a chain has succeeded, it never asks for another invocation: the
/// remaining adapters are skipped.
pub proof fn lemma_succeeded_short_circuits(c: DiscoveryChain)
    requires
        c.succeeded(),
    ensures
        c.spec_next_action() is Done,
{
}

/// The outcome of one discovery-chain invocation: either an ordered,
/// deduplicated list of records, or — when every adapter came up empty —
/// a diagnostic payload describing each attempt, with remediation hints.
pub enum DiscoveryResult {
    Records(Vec<WifiRecord>),
    Exhausted { reports: Vec<AttemptReport>, hints: Vec<String> },
}

/// What the diagnostic payload says of one attempted adapter.
pub struct AttemptReport {
    pub adapter_name: String,
    pub invoked: bool,
    pub exit_succeeded: bool,
    pub output_excerpt: String,
    pub error_excerpt: String,
}

/// The model of an attempt report.
pub ghost struct ReportModel {
    pub adapter_name: Seq<char>,
    pub invoked: bool,
    pub exit_succeeded: bool,
    pub output_excerpt: Seq<char>,
    pub error_excerpt: Seq<char>,
}

impl View for AttemptReport {
    type V = ReportModel;

    open spec fn view(&self) -> ReportModel {
        ReportModel {
            adapter_name: self.adapter_name@,
            invoked: self.invoked,
            exit_succeeded: self.exit_succeeded,
            output_excerpt: self.output_excerpt@,
            error_excerpt: self.error_excerpt@,
        }
    }
}

impl DeepView for AttemptReport {
    type V = ReportModel;

    open spec fn deep_view(&self) -> ReportModel {
        self.view()
    }
}

/// How many characters of a capture the diagnostic payload keeps.
pub const EXCERPT_MAX: usize = 200;

/// The leading characters of a capture, at most `EXCERPT_MAX` of them.
pub open spec fn excerpt_spec(s: Seq<char>) -> Seq<char> {
    if s.len() <= EXCERPT_MAX {
        s
    } else {
        s.take(EXCERPT_MAX as int)
    }
}

/// Truncates a capture for the diagnostic payload.
fn excerpt(s: &str) -> (r: String)
    ensures
        r@ == excerpt_spec(s@),
{
    let v = text::to_chars(s);
    let n = v.len();
    let end = if n <= EXCERPT_MAX {
        n
    } else {
        EXCERPT_MAX
    };
    let r = text::chars_to_string(v.as_slice(), 0, end);
    proof {
        assert(v@.subrange(0, end as int) =~= excerpt_spec(s@));
    }
    r
}

/// The report of one attempt: tool name, whether it could be invoked,
/// whether it exited successfully, and truncated captures.
pub open spec fn report_spec(a: AttemptModel) -> ReportModel {
    ReportModel {
        adapter_name: kind_name_spec(a.kind),
        invoked: a.invoked,
        exit_succeeded: a.exit_succeeded,
        output_excerpt: excerpt_spec(a.raw_output),
        error_excerpt: excerpt_spec(a.raw_error),
    }
}

/// One report per attempt, in attempt order.
pub open spec fn reports_spec(ams: Seq<AttemptModel>) -> Seq<ReportModel> {
    Seq::new(ams.len(), |i: int| report_spec(ams[i]))
}

/// Builds the per-attempt reports of the diagnostic payload.
fn build_reports(attempts: &Vec<ProbeAttempt>) -> (r: Vec<AttemptReport>)
    ensures
        r.deep_view() == reports_spec(attempts.deep_view()),
{
    let mut out: Vec<AttemptReport> = Vec::new();
    let mut i: usize = 0;
    while i < attempts.len()
        invariant
            i <= attempts@.len(),
            out.deep_view() =~= reports_spec(attempts.deep_view().take(i as int)),
        decreases attempts@.len() - i,
    {
        let a = &attempts[i];
        let rep = AttemptReport {
            adapter_name: kind_name(a.kind),
            invoked: a.invoked,
            exit_succeeded: a.exit_succeeded,
            output_excerpt: excerpt(a.raw_output.as_str()),
            error_excerpt: excerpt(a.raw_error.as_str()),
        };
        proof {
            assert(rep@ == report_spec(attempts.deep_view()[i as int]));
        }
        let ghost old_dv = out.deep_view();
        out.push(rep);
        proof {
            assert(out.deep_view() =~= old_dv.push(rep@));
            assert(out.deep_view() =~= reports_spec(attempts.deep_view().take(i + 1)));
        }
        i += 1;
    }
    proof {
        assert(attempts.deep_view().take(attempts@.len() as int) =~= attempts.deep_view());
        assert(out.deep_view() =~= reports_spec(attempts.deep_view()));
    }
    out
}

/// The fixed remediation hints appended to every diagnostic payload.
pub open spec fn remediation_hints() -> Seq<Seq<char>> {
    seq![
        "No BSSID found - check permissions and wireless tools"@,
        "Required tools: nmcli, iwlist, or iw"@,
        "You may need to run with sudo for some commands"@,
    ]
}

/// The fixed remediation hints as strings.
pub fn remediation_hint_strings() -> (r: Vec<String>)
    ensures
        r.deep_view() == remediation_hints(),
        r@.len() > 0,
{
    let mut out: Vec<String> = Vec::new();
    out.push(String::from_str("No BSSID found - check permissions and wireless tools"));
    out.push(String::from_str("Required tools: nmcli, iwlist, or iw"));
    out.push(String::from_str("You may need to run with sudo for some commands"));
    proof {
        assert(out.deep_view() =~= remediation_hints());
    }
    out
}

} // verus!
