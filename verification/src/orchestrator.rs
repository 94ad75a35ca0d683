//! The build orchestrator: a state machine that sequences the external-tool
//! calls for each located asset (optional staging, install, commit, validate),
//! classifies failures as fatal to the run or scoped to one asset, and
//! aggregates per-asset outcomes into the batch report. The caller performs
//! each requested action and hands the outcome back as an event.

use vstd::prelude::*;

use crate::locate::{Asset, SpecAsset};
use crate::log::{
    emit_call, spec_emit, spec_stats_after_calls, lemma_emit_snoc, lemma_stats_snoc, LogCall,
    Logger, Mode, Severity,
};
use crate::trainzutil::{spec_error_message, spec_render, Error, Output};
use crate::displayprefix::spec_prefixed;
use crate::textutil::{
    append_u32, dec_chars, join_char, join_char_exec, push_char, str_to_chars,
};

verus! {

/// What the run shows for each asset, whether assets are installed from
/// their own directory or from a staged copy under the dummy identity, and
/// whether the installed identity is deleted again after validation.
#[derive(Copy, Clone, Eq, PartialEq, Debug, Structural)]
pub struct BuildConfig {
    pub show_config_path: bool,
    pub show_kuid: bool,
    pub direct_install: bool,
    pub cleanup: bool,
}

/// Where the run stands.
#[derive(Copy, Clone, Eq, PartialEq, Debug, Structural)]
pub enum Stage {
    /// The tool's `version` call is outstanding.
    Preflight,
    /// Discovery is outstanding.
    Locating,
    /// The current asset's staged copy is outstanding.
    Staging,
    /// The current asset's `installfrompath` call is outstanding.
    Install,
    /// The current asset's `commit` call is outstanding.
    Commit,
    /// The current asset's `validate` call is outstanding.
    Validate,
    /// The current asset's `delete` call is outstanding; the payload is the
    /// validation verdict the asset will be tallied under.
    Cleanup(bool),
    /// Every asset was processed and the report was produced.
    Finished,
    /// The run stopped for a fatal condition; no report was produced.
    Aborted,
}

/// One external-tool invocation, with its argument.
#[derive(Clone, Debug)]
pub enum ToolCommand {
    Version,
    InstallFromPath(String),
    Commit(String),
    Validate(String),
    Delete(String),
}

/// What the orchestrator asks the caller to do next.
#[derive(Clone, Debug)]
pub enum Action {
    /// Run the tool with the given command and report back the outcome.
    RunTool(ToolCommand),
    /// Walk the scan root and report back the located assets.
    Locate,
    /// Copy the files of the asset at this index to a fresh location, rewrite
    /// its marker file to the dummy identity, and report back the copy's path.
    StageAsset(usize),
}

/// The outcome of a requested action.
pub enum Event {
    /// The tool ran and its output parsed; the result classifies the exit
    /// status.
    ToolDone(Result<Output, Error>),
    /// The tool's output violated the stdout contract: fatal.
    ToolProtocol,
    /// Discovery finished.
    Located(Vec<Asset>),
    /// Staging finished, with the staged path, or failed, with a description.
    StageDone(Result<String, String>),
}

/// The per-run state machine.
pub struct BuildMachine {
    pub config: BuildConfig,
    pub assets: Vec<Asset>,
    pub stage: Stage,
    pub pos: usize,
    pub staged_path: String,
    pub ident: String,
    pub succeeded: u32,
}

/// The aggregate over one run, finished or aborted.
#[derive(Copy, Clone, Eq, PartialEq, Debug, Structural)]
pub struct BuildReport {
    pub total: usize,
    pub succeeded: usize,
    pub failed: usize,
    pub ok: bool,
}

/// The machine's bookkeeping invariant.
pub open spec fn wf_machine(m: BuildMachine) -> bool {
    &&& m.assets@.len() <= u32::MAX
    &&& m.pos <= m.assets@.len()
    &&& m.succeeded <= m.pos
    &&& (m.stage == Stage::Staging || m.stage == Stage::Install || m.stage == Stage::Commit
        || m.stage == Stage::Validate || m.stage is Cleanup ==> m.pos < m.assets@.len())
    &&& (m.stage == Stage::Finished ==> m.pos == m.assets@.len())
    &&& (m.stage == Stage::Preflight || m.stage == Stage::Locating ==> m.assets@.len() == 0
        && m.pos == 0)
}

/// Which events a stage can take.
pub open spec fn spec_expects(stage: Stage, ev: Event) -> bool {
    match stage {
        Stage::Preflight => ev is ToolDone || ev is ToolProtocol,
        Stage::Locating => ev is Located,
        Stage::Staging => ev is StageDone,
        Stage::Install | Stage::Commit | Stage::Validate | Stage::Cleanup(_) => ev is ToolDone
            || ev is ToolProtocol,
        Stage::Finished | Stage::Aborted => false,
    }
}

/// The label under which an asset is mentioned in log and report lines:
/// its marker-file path, its identity, or its root path, all relative to the
/// scan root.
pub open spec fn spec_label(cfg: BuildConfig, a: SpecAsset) -> Seq<char> {
    if cfg.show_config_path {
        seq!['['] + join_char(a.path.push("config.txt"@), '/') + seq![']']
    } else if cfg.show_kuid {
        seq!['<'] + a.kuid + seq!['>']
    } else {
        seq!['['] + join_char(a.path, '/') + seq![']']
    }
}

/// The line announcing a located asset.
pub open spec fn msg_found(a: SpecAsset) -> Seq<char> {
    "Found asset '"@ + a.name + "' <"@ + a.kuid + ">: "@ + join_char(a.path, '/')
}

/// The line carrying the tool's reported version.
pub open spec fn msg_version(o: Output) -> Seq<char> {
    "TrainzUtil version: "@ + if o.lines.deep_view().len() > 0 {
        o.lines.deep_view()[0]
    } else {
        Seq::<char>::empty()
    }
}

/// A head line followed by the tool's output, each line prefixed.
pub open spec fn msg_with_output(head: Seq<char>, o: Output) -> Seq<char> {
    head + spec_prefixed(">"@, spec_render(o.lines.deep_view(), o.errors as nat, o.warnings as nat))
}

/// A head line followed by an error's text.
pub open spec fn msg_with_error(head: Seq<char>, e: Error) -> Seq<char> {
    head + spec_error_message(e)
}

/// A head line followed by plain text.
pub open spec fn msg_with_text(head: Seq<char>, t: Seq<char>) -> Seq<char> {
    head + t
}

/// A banner quoting an asset's display name.
pub open spec fn msg_named(head: Seq<char>, name: Seq<char>) -> Seq<char> {
    head + name + seq!['\'']
}

/// The human report line.
pub open spec fn msg_report(total: nat, succeeded: nat) -> Seq<char> {
    "BUILD "@ + (if succeeded == total {
        "SUCCESS"@
    } else {
        "FAILED "@
    }) + " ("@ + dec_chars(total) + " Total, "@ + dec_chars(succeeded) + " Succeeded, "@
        + dec_chars((total - succeeded) as nat) + " Failed)"@
}

/// The separator rule around the report line.
pub open spec fn msg_rule(total: nat, succeeded: nat) -> Seq<char> {
    Seq::new(msg_report(total, succeeded).len(), |i: int| '=')
}

/// The machine-readable summary the silent tier emits.
pub open spec fn msg_silent_summary(failed: nat) -> Seq<char> {
    "OK ("@ + dec_chars(failed) + " Errors, 0 Warnings)"@
}

/// The flattened per-diagnostic record the silent tier emits.
pub open spec fn msg_silent_diag(p: char, label: Seq<char>, m: Seq<char>) -> Seq<char> {
    seq![p, ' '] + label + " : "@ + m
}

/// The severity a diagnostic prefix carries.
pub open spec fn diag_severity(p: char) -> Severity {
    if p == '-' {
        Severity::Error
    } else if p == '!' {
        Severity::Warn
    } else {
        Severity::Info
    }
}

/// The human-tier call for one diagnostic line: error, warning and
/// always-shown info lines aim at the normal tier, `;` lines at the verbose
/// tier.
pub open spec fn diag_human_call(p: char, m: Seq<char>) -> LogCall {
    LogCall {
        target: if p == ';' {
            Mode::Verbose
        } else {
            Mode::Normal
        },
        severity: diag_severity(p),
        text: m,
    }
}

/// The calls validation output produces: for every line the diagnostic
/// grammar matches, one human-tier call with the bare message and one
/// silent-tier call with the flattened record; other lines produce nothing.
pub open spec fn spec_diag_calls(label: Seq<char>, lines: Seq<Seq<char>>) -> Seq<LogCall>
    decreases lines.len(),
{
    if lines.len() == 0 {
        Seq::empty()
    } else {
        (match crate::trainzutil::spec_diag_line(lines[0]) {
            Some((p, k, m)) => seq![
                diag_human_call(p, m),
                LogCall {
                    target: Mode::Silent,
                    severity: diag_severity(p),
                    text: msg_silent_diag(p, label, m),
                },
            ],
            None => Seq::empty(),
        }) + spec_diag_calls(label, lines.subrange(1, lines.len() as int))
    }
}

/// The calls announcing each located asset.
pub open spec fn spec_found_calls(assets: Seq<SpecAsset>) -> Seq<LogCall>
    decreases assets.len(),
{
    if assets.len() == 0 {
        Seq::empty()
    } else {
        seq![
            LogCall { target: Mode::Normal, severity: Severity::Info, text: msg_found(assets[0]) },
        ] + spec_found_calls(assets.subrange(1, assets.len() as int))
    }
}

/// The four calls of the final report: the rule, the report line, the rule
/// again, and the silent summary.
pub open spec fn spec_report_calls(total: nat, succeeded: nat) -> Seq<LogCall> {
    seq![
        LogCall { target: Mode::Normal, severity: Severity::Info, text: msg_rule(total, succeeded) },
        LogCall {
            target: Mode::Normal,
            severity: Severity::Info,
            text: msg_report(total, succeeded),
        },
        LogCall { target: Mode::Normal, severity: Severity::Info, text: msg_rule(total, succeeded) },
        LogCall {
            target: Mode::Silent,
            severity: Severity::Info,
            text: msg_silent_summary((total - succeeded) as nat),
        },
    ]
}

/// On entering the asset at `pos`: the next stage and the path and identity
/// the tool calls will use. A direct install uses the asset's own path and
/// identity; otherwise staging comes first and the fields are set when the
/// staged copy exists.
pub open spec fn spec_entry(m: BuildMachine, pos: int) -> (Stage, Seq<char>, Seq<char>) {
    let a = m.assets@[pos]@;
    if m.config.direct_install {
        (Stage::Install, join_char(a.path, '/'), a.kuid)
    } else {
        (Stage::Staging, m.staged_path@, m.ident@)
    }
}

/// The banner shown when an asset's processing begins.
pub open spec fn entry_call(name: Seq<char>) -> LogCall {
    LogCall {
        target: Mode::Normal,
        severity: Severity::Info,
        text: msg_named("Installing asset '"@, name),
    }
}

/// After finishing the asset at `m.pos`: the tallies move, and either the
/// next asset's processing begins or the run finishes with the report.
pub open spec fn spec_advance(m: BuildMachine, success: bool) -> (
    Stage,
    int,
    int,
    Seq<char>,
    Seq<char>,
    Seq<LogCall>,
) {
    let suc2 = m.succeeded + (if success {
        1int
    } else {
        0int
    });
    let pos2 = m.pos + 1int;
    if pos2 == m.assets@.len() {
        (
            Stage::Finished,
            pos2,
            suc2,
            m.staged_path@,
            m.ident@,
            spec_report_calls(m.assets@.len() as nat, suc2 as nat),
        )
    } else {
        let (st, sp, id) = spec_entry(m, pos2);
        (st, pos2, suc2, sp, id, seq![entry_call(m.assets@[pos2]@.name)])
    }
}

/// The two calls of a fatal stdout-contract violation.
pub open spec fn spec_protocol_calls() -> Seq<LogCall> {
    seq![
        LogCall {
            target: Mode::Normal,
            severity: Severity::Error,
            text: "TrainzUtil output was malformed"@,
        },
        LogCall {
            target: Mode::Silent,
            severity: Severity::Error,
            text: "- <NULL> : TrainzUtil protocol error"@,
        },
    ]
}

/// The assets after a step: discovery fills them, nothing else touches them.
pub open spec fn spec_step_assets(m: BuildMachine, ev: Event) -> Seq<SpecAsset> {
    match ev {
        Event::Located(v) => v.deep_view(),
        _ => m.assets.deep_view(),
    }
}

/// The transition relation of the machine: for the current stage and the
/// event, the next stage, position, success tally, staged path, identity,
/// and the log calls made, in order.
pub open spec fn spec_step(m: BuildMachine, ev: Event) -> (
    Stage,
    int,
    int,
    Seq<char>,
    Seq<char>,
    Seq<LogCall>,
) {
    let keep = (m.staged_path@, m.ident@);
    match ev {
        Event::ToolProtocol => (
            Stage::Aborted,
            m.pos as int,
            m.succeeded as int,
            keep.0,
            keep.1,
            spec_protocol_calls(),
        ),
        Event::ToolDone(res) => match m.stage {
            Stage::Preflight => match res {
                Ok(o) => (
                    Stage::Locating,
                    0int,
                    0int,
                    keep.0,
                    keep.1,
                    seq![
                        LogCall {
                            target: Mode::Verbose,
                            severity: Severity::Info,
                            text: msg_version(o),
                        },
                    ],
                ),
                Err(e) => (
                    Stage::Aborted,
                    0int,
                    0int,
                    keep.0,
                    keep.1,
                    seq![
                        LogCall {
                            target: Mode::Normal,
                            severity: Severity::Error,
                            text: msg_with_error("Unable to execute TrainzUtil: "@, e),
                        },
                        LogCall {
                            target: Mode::Silent,
                            severity: Severity::Error,
                            text: "- <NULL> : TrainzUtil not found"@,
                        },
                    ],
                ),
            },
            Stage::Install => match res {
                Ok(o) => (
                    Stage::Commit,
                    m.pos as int,
                    m.succeeded as int,
                    keep.0,
                    keep.1,
                    seq![
                        LogCall {
                            target: Mode::Verbose,
                            severity: Severity::Info,
                            text: msg_with_output("Install success:\n"@, o),
                        },
                    ],
                ),
                Err(e) => {
                    let (st, p2, s2, sp, id, calls) = spec_advance(m, false);
                    (
                        st,
                        p2,
                        s2,
                        sp,
                        id,
                        seq![
                            LogCall {
                                target: Mode::Normal,
                                severity: Severity::Error,
                                text: msg_with_error("Install failed: "@, e),
                            },
                            LogCall {
                                target: Mode::Normal,
                                severity: Severity::Error,
                                text: "Install failed"@,
                            },
                        ] + calls,
                    )
                },
            },
            Stage::Commit => match res {
                Ok(o) => (
                    Stage::Validate,
                    m.pos as int,
                    m.succeeded as int,
                    keep.0,
                    keep.1,
                    seq![
                        LogCall {
                            target: Mode::Verbose,
                            severity: Severity::Info,
                            text: msg_with_output("Commit success:\n"@, o),
                        },
                        LogCall {
                            target: Mode::Verbose,
                            severity: Severity::Info,
                            text: "Install success"@,
                        },
                        LogCall {
                            target: Mode::Normal,
                            severity: Severity::Info,
                            text: msg_named("Validating asset '"@, m.assets@[m.pos as int]@.name),
                        },
                    ],
                ),
                Err(e) => {
                    let (st, p2, s2, sp, id, calls) = spec_advance(m, false);
                    (
                        st,
                        p2,
                        s2,
                        sp,
                        id,
                        seq![
                            LogCall {
                                target: Mode::Normal,
                                severity: Severity::Error,
                                text: msg_with_error("Commit failed: "@, e),
                            },
                            LogCall {
                                target: Mode::Normal,
                                severity: Severity::Error,
                                text: "Install failed"@,
                            },
                        ] + calls,
                    )
                },
            },
            Stage::Validate => match res {
                Ok(o) => {
                    let label = spec_label(m.config, m.assets@[m.pos as int]@);
                    let success = o.errors == 0;
                    let head = seq![
                        LogCall {
                            target: Mode::Verbose,
                            severity: Severity::Info,
                            text: msg_with_output("Validation success:\n"@, o),
                        },
                    ] + spec_diag_calls(label, o.lines.deep_view());
                    let verdict = if success {
                        seq![
                            LogCall {
                                target: Mode::Verbose,
                                severity: Severity::Info,
                                text: "Validation success"@,
                            },
                        ]
                    } else {
                        seq![
                            LogCall {
                                target: Mode::Verbose,
                                severity: Severity::Error,
                                text: "Asset is not valid"@,
                            },
                            LogCall {
                                target: Mode::Normal,
                                severity: Severity::Error,
                                text: "Validation failed"@,
                            },
                        ]
                    };
                    if m.config.cleanup {
                        (
                            Stage::Cleanup(success),
                            m.pos as int,
                            m.succeeded as int,
                            keep.0,
                            keep.1,
                            head + verdict,
                        )
                    } else {
                        let (st, p2, s2, sp, id, calls) = spec_advance(m, success);
                        (st, p2, s2, sp, id, head + verdict + calls)
                    }
                },
                Err(e) => {
                    let pre = seq![
                        LogCall {
                            target: Mode::Normal,
                            severity: Severity::Error,
                            text: msg_with_error("Validation failed: "@, e),
                        },
                        LogCall {
                            target: Mode::Normal,
                            severity: Severity::Error,
                            text: "Validation failed"@,
                        },
                    ];
                    if m.config.cleanup {
                        (
                            Stage::Cleanup(false),
                            m.pos as int,
                            m.succeeded as int,
                            keep.0,
                            keep.1,
                            pre,
                        )
                    } else {
                        let (st, p2, s2, sp, id, calls) = spec_advance(m, false);
                        (st, p2, s2, sp, id, pre + calls)
                    }
                },
            },
            Stage::Cleanup(pending) => match res {
                Ok(o) => {
                    let (st, p2, s2, sp, id, calls) = spec_advance(m, pending);
                    (
                        st,
                        p2,
                        s2,
                        sp,
                        id,
                        seq![
                            LogCall {
                                target: Mode::Verbose,
                                severity: Severity::Info,
                                text: msg_with_output("Cleanup success:\n"@, o),
                            },
                        ] + calls,
                    )
                },
                Err(e) => {
                    let (st, p2, s2, sp, id, calls) = spec_advance(m, false);
                    (
                        st,
                        p2,
                        s2,
                        sp,
                        id,
                        seq![
                            LogCall {
                                target: Mode::Normal,
                                severity: Severity::Error,
                                text: msg_with_error("Cleanup failed: "@, e),
                            },
                        ] + calls,
                    )
                },
            },
            _ => (
                m.stage,
                m.pos as int,
                m.succeeded as int,
                keep.0,
                keep.1,
                Seq::empty(),
            ),
        },
        Event::Located(v) => {
            let av = v.deep_view();
            if av.len() == 0 {
                (
                    Stage::Finished,
                    0int,
                    0int,
                    keep.0,
                    keep.1,
                    spec_found_calls(av) + spec_report_calls(0, 0),
                )
            } else {
                let m2 = BuildMachine { assets: v, ..m };
                let (st, sp, id) = spec_entry(m2, 0);
                (st, 0int, 0int, sp, id, spec_found_calls(av) + seq![entry_call(av[0].name)])
            }
        },
        Event::StageDone(res) => match res {
            Ok(p) => (
                Stage::Install,
                m.pos as int,
                m.succeeded as int,
                p@,
                crate::kuid::dummy_kuid(),
                seq![
                    LogCall {
                        target: Mode::Verbose,
                        severity: Severity::Info,
                        text: msg_with_text("Staged to: "@, p@),
                    },
                ],
            ),
            Err(why) => {
                let (st, p2, s2, sp, id, calls) = spec_advance(m, false);
                (
                    st,
                    p2,
                    s2,
                    sp,
                    id,
                    seq![
                        LogCall {
                            target: Mode::Normal,
                            severity: Severity::Error,
                            text: msg_with_text("Staging failed: "@, why@),
                        },
                    ] + calls,
                )
            },
        },
    }
}

/// Printing distributes over concatenation of call lists.
pub proof fn lemma_emit_concat(mode: Mode, a: Seq<LogCall>, b: Seq<LogCall>)
    ensures
        spec_emit(mode, a + b) == spec_emit(mode, a) + spec_emit(mode, b),
    decreases a.len(),
{
    if a.len() == 0 {
        assert(a + b =~= b);
        assert(spec_emit(mode, a) + spec_emit(mode, b) =~~= spec_emit(mode, b));
    } else {
        let w = a + b;
        assert(w[0] == a[0]);
        assert(w.subrange(1, w.len() as int) =~= a.subrange(1, a.len() as int) + b);
        lemma_emit_concat(mode, a.subrange(1, a.len() as int), b);
        assert(spec_emit(mode, w) =~~= spec_emit(mode, a) + spec_emit(mode, b));
    }
}

/// Counting distributes over concatenation of call lists.
pub proof fn lemma_stats_concat(st: crate::log::Statistics, a: Seq<LogCall>, b: Seq<LogCall>)
    ensures
        spec_stats_after_calls(st, a + b) == spec_stats_after_calls(
            spec_stats_after_calls(st, a),
            b,
        ),
    decreases a.len(),
{
    if a.len() == 0 {
        assert(a + b =~= b);
    } else {
        let w = a + b;
        assert(w[0] == a[0]);
        assert(w.subrange(1, w.len() as int) =~= a.subrange(1, a.len() as int) + b);
        lemma_stats_concat(
            crate::log::spec_stats_after(st, a[0].severity),
            a.subrange(1, a.len() as int),
            b,
        );
    }
}

/// One more line appends its calls, if the grammar matches it.
proof fn lemma_diag_snoc(label: Seq<char>, lines: Seq<Seq<char>>, l: Seq<char>)
    ensures
        spec_diag_calls(label, lines.push(l)) == spec_diag_calls(label, lines) + (
        match crate::trainzutil::spec_diag_line(l) {
            Some((p, k, m)) => seq![
                diag_human_call(p, m),
                LogCall {
                    target: Mode::Silent,
                    severity: diag_severity(p),
                    text: msg_silent_diag(p, label, m),
                },
            ],
            None => Seq::<LogCall>::empty(),
        }),
    decreases lines.len(),
{
    let whole = lines.push(l);
    let tailcalls = match crate::trainzutil::spec_diag_line(l) {
        Some((p, k, m)) => seq![
            diag_human_call(p, m),
            LogCall {
                target: Mode::Silent,
                severity: diag_severity(p),
                text: msg_silent_diag(p, label, m),
            },
        ],
        None => Seq::<LogCall>::empty(),
    };
    if lines.len() == 0 {
        assert(whole[0] == l);
        assert(whole.subrange(1, whole.len() as int) =~= Seq::<Seq<char>>::empty());
        assert(spec_diag_calls(label, whole.subrange(1, whole.len() as int)) =~~= Seq::<
            LogCall,
        >::empty());
        assert(spec_diag_calls(label, whole) =~~= tailcalls + Seq::<LogCall>::empty());
        assert(spec_diag_calls(label, lines) =~~= Seq::<LogCall>::empty());
        assert(spec_diag_calls(label, whole) =~~= spec_diag_calls(label, lines) + tailcalls);
    } else {
        let sub = lines.subrange(1, lines.len() as int);
        let head = match crate::trainzutil::spec_diag_line(lines[0]) {
            Some((p, k, m)) => seq![
                diag_human_call(p, m),
                LogCall {
                    target: Mode::Silent,
                    severity: diag_severity(p),
                    text: msg_silent_diag(p, label, m),
                },
            ],
            None => Seq::<LogCall>::empty(),
        };
        assert(whole[0] == lines[0]);
        assert(whole.subrange(1, whole.len() as int) =~= sub.push(l));
        lemma_diag_snoc(label, sub, l);
        assert(spec_diag_calls(label, whole) == head + spec_diag_calls(label, sub.push(l)));
        assert(spec_diag_calls(label, sub.push(l)) == spec_diag_calls(label, sub) + tailcalls);
        assert(spec_diag_calls(label, lines) == head + spec_diag_calls(label, sub));
        assert(spec_diag_calls(label, whole) =~~= spec_diag_calls(label, lines) + tailcalls);
    }
}

/// One more asset appends its announcement.
proof fn lemma_found_snoc(assets: Seq<SpecAsset>, a: SpecAsset)
    ensures
        spec_found_calls(assets.push(a)) == spec_found_calls(assets) + seq![
            LogCall { target: Mode::Normal, severity: Severity::Info, text: msg_found(a) },
        ],
    decreases assets.len(),
{
    let whole = assets.push(a);
    let tail = seq![
        LogCall { target: Mode::Normal, severity: Severity::Info, text: msg_found(a) },
    ];
    if assets.len() == 0 {
        assert(whole[0] == a);
        assert(whole.subrange(1, whole.len() as int) =~= Seq::<SpecAsset>::empty());
        assert(spec_found_calls(whole.subrange(1, whole.len() as int)) =~~= Seq::<
            LogCall,
        >::empty());
        assert(spec_found_calls(whole) =~~= tail + Seq::<LogCall>::empty());
        assert(spec_found_calls(assets) =~~= Seq::<LogCall>::empty());
        assert(spec_found_calls(whole) =~~= spec_found_calls(assets) + tail);
    } else {
        let sub = assets.subrange(1, assets.len() as int);
        let head = seq![
            LogCall { target: Mode::Normal, severity: Severity::Info, text: msg_found(assets[0]) },
        ];
        assert(whole[0] == assets[0]);
        assert(whole.subrange(1, whole.len() as int) =~= sub.push(a));
        lemma_found_snoc(sub, a);
        assert(spec_found_calls(whole) == head + spec_found_calls(sub.push(a)));
        assert(spec_found_calls(sub.push(a)) == spec_found_calls(sub) + tail);
        assert(spec_found_calls(assets) == head + spec_found_calls(sub));
        assert(spec_found_calls(whole) =~~= spec_found_calls(assets) + tail);
    }
}

/// Two strings, concatenated.
fn concat2(head: &str, tail: &str) -> (r: String)
    ensures
        r@ == head@ + tail@,
{
    let mut r = String::from_str(head);
    r.append(tail);
    r
}

/// The label under which the asset is mentioned.
pub fn asset_label(cfg: &BuildConfig, a: &Asset) -> (r: String)
    ensures
        r@ == spec_label(*cfg, a@),
{
    if cfg.show_kuid && !cfg.show_config_path {
        let mut r = String::new();
        push_char(&mut r, '<');
        r.append(a.kuid.as_str());
        push_char(&mut r, '>');
        proof {
            assert(r@ =~= seq!['<'] + a.kuid@ + seq!['>']);
        }
        return r;
    }
    let mut pieces: Vec<Vec<char>> = Vec::new();
    let mut i: usize = 0;
    while i < a.path.len()
        invariant
            i <= a.path@.len(),
            pieces.deep_view() =~= a.path.deep_view().subrange(0, i as int),
        decreases a.path@.len() - i,
    {
        let ghost p0 = pieces.deep_view();
        pieces.push(str_to_chars(a.path[i].as_str()));
        proof {
            assert(pieces.deep_view() =~~= p0.push(a.path.deep_view()[i as int]));
            assert(pieces.deep_view() =~~= a.path.deep_view().subrange(0, i + 1));
        }
        i = i + 1;
    }
    proof {
        assert(pieces.deep_view() =~~= a.path.deep_view());
    }
    if cfg.show_config_path {
        let ghost p0 = pieces.deep_view();
        pieces.push(str_to_chars("config.txt"));
        proof {
            assert(pieces.deep_view() =~~= p0.push("config.txt"@));
            assert(pieces.deep_view() =~~= a.path.deep_view().push("config.txt"@));
        }
    }
    let joined = join_char_exec(&pieces, '/');
    let mut r = String::new();
    push_char(&mut r, '[');
    r.append(joined.as_str());
    push_char(&mut r, ']');
    proof {
        assert(r@ =~= seq!['['] + joined@ + seq![']']);
    }
    r
}

/// The found-asset announcement, materialized.
fn found_msg(a: &Asset) -> (r: String)
    ensures
        r@ == msg_found(a@),
{
    let mut pieces: Vec<Vec<char>> = Vec::new();
    let mut i: usize = 0;
    while i < a.path.len()
        invariant
            i <= a.path@.len(),
            pieces.deep_view() =~= a.path.deep_view().subrange(0, i as int),
        decreases a.path@.len() - i,
    {
        let ghost p0 = pieces.deep_view();
        pieces.push(str_to_chars(a.path[i].as_str()));
        proof {
            assert(pieces.deep_view() =~~= p0.push(a.path.deep_view()[i as int]));
            assert(pieces.deep_view() =~~= a.path.deep_view().subrange(0, i + 1));
        }
        i = i + 1;
    }
    proof {
        assert(pieces.deep_view() =~~= a.path.deep_view());
    }
    let joined = join_char_exec(&pieces, '/');
    let mut r = String::from_str("Found asset '");
    r.append(a.name.as_str());
    r.append("' <");
    r.append(a.kuid.as_str());
    r.append(">: ");
    r.append(joined.as_str());
    r
}

/// The version line, materialized.
fn version_msg(o: &Output) -> (r: String)
    ensures
        r@ == msg_version(*o),
{
    let mut r = String::from_str("TrainzUtil version: ");
    if o.lines.len() > 0 {
        proof {
            assert(o.lines.deep_view()[0] == o.lines@[0]@);
        }
        r.append(o.lines[0].as_str());
    }
    r
}

/// A head followed by the tool's output, each line prefixed.
fn with_output_msg(head: &str, o: &Output) -> (r: String)
    ensures
        r@ == msg_with_output(head@, *o),
{
    let rendered = o.render();
    let prefixed = crate::displayprefix::with_prefix(">", rendered.as_str());
    let body = prefixed.render();
    concat2(head, body.as_str())
}

/// A head followed by the error's text.
fn with_error_msg(head: &str, e: &Error) -> (r: String)
    ensures
        r@ == msg_with_error(head@, *e),
{
    let body = e.message();
    concat2(head, body.as_str())
}

/// A banner quoting the asset's display name.
fn named_msg(head: &str, name: &String) -> (r: String)
    ensures
        r@ == msg_named(head@, name@),
{
    let mut r = String::from_str(head);
    r.append(name.as_str());
    push_char(&mut r, '\'');
    proof {
        assert(r@ =~= msg_named(head@, name@));
    }
    r
}

/// The human report line, materialized.
fn report_msg(total: u32, succeeded: u32) -> (r: String)
    requires
        succeeded <= total,
    ensures
        r@ == msg_report(total as nat, succeeded as nat),
{
    let mut r = String::from_str("BUILD ");
    if succeeded == total {
        r.append("SUCCESS");
    } else {
        r.append("FAILED ");
    }
    r.append(" (");
    append_u32(&mut r, total);
    r.append(" Total, ");
    append_u32(&mut r, succeeded);
    r.append(" Succeeded, ");
    append_u32(&mut r, total - succeeded);
    r.append(" Failed)");
    proof {
        assert(r@ =~= msg_report(total as nat, succeeded as nat));
    }
    r
}

/// A rule of `'='` as long as the report line.
fn rule_msg(report: &String) -> (r: String)
    ensures
        r@ == Seq::new(report@.len(), |i: int| '='),
{
    let n = report.as_str().unicode_len();
    let mut r = String::new();
    let mut i: usize = 0;
    while i < n
        invariant
            i <= n,
            r@ =~= Seq::new(i as nat, |j: int| '='),
        decreases n - i,
    {
        push_char(&mut r, '=');
        i = i + 1;
        proof {
            assert(r@ =~= Seq::new(i as nat, |j: int| '='));
        }
    }
    proof {
        assert(r@ =~= Seq::new(report@.len(), |j: int| '='));
    }
    r
}

/// The silent summary, materialized.
fn silent_summary_msg(failed: u32) -> (r: String)
    ensures
        r@ == msg_silent_summary(failed as nat),
{
    let mut r = String::from_str("OK (");
    append_u32(&mut r, failed);
    r.append(" Errors, 0 Warnings)");
    proof {
        assert(r@ =~= msg_silent_summary(failed as nat));
    }
    r
}

/// The flattened silent record of one diagnostic line.
fn silent_diag_msg(p: char, label: &str, m: &str) -> (r: String)
    ensures
        r@ == msg_silent_diag(p, label@, m@),
{
    let mut r = String::new();
    push_char(&mut r, p);
    push_char(&mut r, ' ');
    r.append(label);
    r.append(" : ");
    r.append(m);
    proof {
        assert(r@ =~= msg_silent_diag(p, label@, m@));
    }
    r
}

/// Scans validation output through the diagnostic grammar: every matched
/// line goes once to the severity-appropriate human tier and once, as a
/// flattened record under the asset's label, to the silent tier.
pub fn log_validation_output(
    asset: &str,
    output: &Output,
    logger: &mut Logger,
    out: &mut Vec<String>,
)
    ensures
        final(logger).mode == old(logger).mode,
        final(logger).stats == spec_stats_after_calls(
            old(logger).stats,
            spec_diag_calls(asset@, output.lines.deep_view()),
        ),
        final(out).deep_view() == old(out).deep_view() + spec_emit(
            old(logger).mode,
            spec_diag_calls(asset@, output.lines.deep_view()),
        ),
{
    let ghost mode = logger.mode;
    let ghost st0 = logger.stats;
    let ghost o0 = out.deep_view();
    let ghost all = output.lines.deep_view();
    let mut i: usize = 0;
    proof {
        assert(all.subrange(0, 0) =~= Seq::<Seq<char>>::empty());
        assert(o0 + spec_emit(mode, spec_diag_calls(asset@, all.subrange(0, 0))) =~~= o0);
    }
    while i < output.lines.len()
        invariant
            i <= output.lines@.len(),
            all == output.lines.deep_view(),
            logger.mode == mode,
            logger.stats == spec_stats_after_calls(
                st0,
                spec_diag_calls(asset@, all.subrange(0, i as int)),
            ),
            out.deep_view() == o0 + spec_emit(
                mode,
                spec_diag_calls(asset@, all.subrange(0, i as int)),
            ),
        decreases output.lines@.len() - i,
    {
        let ghost done = spec_diag_calls(asset@, all.subrange(0, i as int));
        let line = &output.lines[i];
        proof {
            assert(all[i as int] == output.lines@[i as int]@);
            assert(all.subrange(0, i as int).push(all[i as int]) =~= all.subrange(0, i + 1));
            lemma_diag_snoc(asset@, all.subrange(0, i as int), all[i as int]);
        }
        match crate::trainzutil::diag_line(line.as_str()) {
            Some((p, k, m)) => {
                let human_target = if p == ';' {
                    Mode::Verbose
                } else {
                    Mode::Normal
                };
                let severity = if p == '-' {
                    Severity::Error
                } else if p == '!' {
                    Severity::Warn
                } else {
                    Severity::Info
                };
                let ghost c1 = diag_human_call(p, m@);
                emit_call(logger, out, human_target, severity, m.as_str());
                let flat = silent_diag_msg(p, asset, m.as_str());
                let ghost c2 = LogCall {
                    target: Mode::Silent,
                    severity: diag_severity(p),
                    text: flat@,
                };
                emit_call(logger, out, Mode::Silent, severity, flat.as_str());
                proof {
                    let two = seq![c1, c2];
                    lemma_emit_concat(mode, done, two);
                    lemma_stats_concat(st0, done, two);
                    assert(two =~= seq![c1].push(c2));
                    assert(seq![c1] =~= Seq::<LogCall>::empty().push(c1));
                    crate::log::lemma_emit_snoc(mode, Seq::<LogCall>::empty(), c1);
                    crate::log::lemma_emit_snoc(mode, seq![c1], c2);
                    crate::log::lemma_stats_snoc(
                        crate::log::spec_stats_after_calls(st0, done),
                        Seq::<LogCall>::empty(),
                        c1,
                    );
                    crate::log::lemma_stats_snoc(
                        crate::log::spec_stats_after_calls(st0, done),
                        seq![c1],
                        c2,
                    );
                    assert(spec_emit(mode, Seq::<LogCall>::empty())
                        =~~= Seq::<Seq<char>>::empty());
                    assert(spec_emit(mode, two) =~~= spec_emit_one_pair(mode, c1, c2));
                    assert(spec_diag_calls(asset@, all.subrange(0, i + 1)) =~~= done + two);
                    assert(out.deep_view() =~~= o0 + spec_emit(
                        mode,
                        spec_diag_calls(asset@, all.subrange(0, i + 1)),
                    ));
                }
            },
            None => {
                proof {
                    assert(spec_diag_calls(asset@, all.subrange(0, i + 1)) =~= done);
                    assert(out.deep_view() =~~= o0 + spec_emit(
                        mode,
                        spec_diag_calls(asset@, all.subrange(0, i + 1)),
                    ));
                }
            },
        }
        i = i + 1;
    }
    proof {
        assert(all.subrange(0, all.len() as int) =~= all);
    }
}

/// The lines a pair of calls prints.
pub open spec fn spec_emit_one_pair(mode: Mode, c1: LogCall, c2: LogCall) -> Seq<Seq<char>> {
    crate::log::spec_emit_one(mode, c1) + crate::log::spec_emit_one(mode, c2)
}

/// A single call prints its own line, if any.
proof fn lemma_single_call(mode: Mode, st: crate::log::Statistics, c: LogCall)
    ensures
        spec_emit(mode, seq![c]) == crate::log::spec_emit_one(mode, c),
        spec_stats_after_calls(st, seq![c]) == crate::log::spec_stats_after(st, c.severity),
{
    let one = seq![c];
    assert(one.len() == 1 && one[0] == c);
    assert(one.subrange(1, 1) =~= Seq::<LogCall>::empty());
    assert(spec_emit(mode, one) == crate::log::spec_emit_one(mode, one[0]) + spec_emit(
        mode,
        one.subrange(1, 1),
    ));
    assert(spec_emit(mode, one) =~~= crate::log::spec_emit_one(mode, c));
    assert(spec_stats_after_calls(st, one) == spec_stats_after_calls(
        crate::log::spec_stats_after(st, c.severity),
        one.subrange(1, 1),
    ));
}

/// The asset's path components joined by `'/'`.
fn path_join(a: &Asset) -> (r: String)
    ensures
        r@ == join_char(a@.path, '/'),
{
    let mut pieces: Vec<Vec<char>> = Vec::new();
    let mut i: usize = 0;
    while i < a.path.len()
        invariant
            i <= a.path@.len(),
            pieces.deep_view() =~= a.path.deep_view().subrange(0, i as int),
        decreases a.path@.len() - i,
    {
        let ghost p0 = pieces.deep_view();
        pieces.push(str_to_chars(a.path[i].as_str()));
        proof {
            assert(pieces.deep_view() =~~= p0.push(a.path.deep_view()[i as int]));
            assert(pieces.deep_view() =~~= a.path.deep_view().subrange(0, i + 1));
        }
        i = i + 1;
    }
    proof {
        assert(pieces.deep_view() =~~= a.path.deep_view());
    }
    join_char_exec(&pieces, '/')
}

impl BuildMachine {
    /// A fresh machine, about to check that the tool can be reached.
    pub fn new(config: BuildConfig) -> (m: BuildMachine)
        ensures
            m.config == config,
            m.stage == Stage::Preflight,
            m.pos == 0,
            m.succeeded == 0,
            m.assets@.len() == 0,
            m.staged_path@ == Seq::<char>::empty(),
            m.ident@ == Seq::<char>::empty(),
            wf_machine(m),
    {
        BuildMachine {
            config,
            assets: Vec::new(),
            stage: Stage::Preflight,
            pos: 0,
            staged_path: String::new(),
            ident: String::new(),
            succeeded: 0,
        }
    }

    /// What to do next: run a tool command, locate assets, stage a copy, or
    /// nothing, once the run has finished or aborted.
    pub fn next_action(&self) -> (r: Option<Action>)
        ensures
            self.stage == Stage::Preflight ==> (r matches Some(Action::RunTool(ToolCommand::Version))),
            self.stage == Stage::Locating ==> (r matches Some(Action::Locate)),
            self.stage == Stage::Staging ==> (r matches Some(Action::StageAsset(i)) && i
                == self.pos),
            self.stage == Stage::Install ==> (r matches Some(
                Action::RunTool(ToolCommand::InstallFromPath(p)),
            ) && p@ == self.staged_path@),
            self.stage == Stage::Commit ==> (r matches Some(Action::RunTool(ToolCommand::Commit(k)))
                && k@ == self.ident@),
            self.stage == Stage::Validate ==> (r matches Some(
                Action::RunTool(ToolCommand::Validate(k)),
            ) && k@ == self.ident@),
            self.stage is Cleanup ==> (r matches Some(Action::RunTool(ToolCommand::Delete(k)))
                && k@ == self.ident@),
            self.stage == Stage::Finished || self.stage == Stage::Aborted ==> r is None,
    {
        match self.stage {
            Stage::Preflight => Some(Action::RunTool(ToolCommand::Version)),
            Stage::Locating => Some(Action::Locate),
            Stage::Staging => Some(Action::StageAsset(self.pos)),
            Stage::Install => Some(
                Action::RunTool(ToolCommand::InstallFromPath(self.staged_path.clone())),
            ),
            Stage::Commit => Some(Action::RunTool(ToolCommand::Commit(self.ident.clone()))),
            Stage::Validate => Some(Action::RunTool(ToolCommand::Validate(self.ident.clone()))),
            Stage::Cleanup(_) => Some(Action::RunTool(ToolCommand::Delete(self.ident.clone()))),
            Stage::Finished => None,
            Stage::Aborted => None,
        }
    }

    /// Begins processing the asset at `self.pos`: announces it, and in direct
    /// mode points the tool at the asset's own path and identity; otherwise
    /// staging comes first.
    fn enter_asset(&mut self, logger: &mut Logger, out: &mut Vec<String>)
        requires
            old(self).pos < old(self).assets@.len() <= u32::MAX,
            old(self).succeeded <= old(self).pos,
        ensures
            ({
                let (st, sp, id) = spec_entry(*old(self), old(self).pos as int);
                &&& final(self).stage == st
                &&& final(self).staged_path@ == sp
                &&& final(self).ident@ == id
            }),
            final(self).pos == old(self).pos,
            final(self).succeeded == old(self).succeeded,
            final(self).config == old(self).config,
            final(self).assets == old(self).assets,
            wf_machine(*final(self)),
            final(out).deep_view() == old(out).deep_view() + spec_emit(
                old(logger).mode,
                seq![entry_call(old(self).assets@[old(self).pos as int]@.name)],
            ),
            final(logger).stats == spec_stats_after_calls(
                old(logger).stats,
                seq![entry_call(old(self).assets@[old(self).pos as int]@.name)],
            ),
            final(logger).mode == old(logger).mode,
    {
        let ghost c = entry_call(old(self).assets@[old(self).pos as int]@.name);
        if self.config.direct_install {
            let pj = path_join(&self.assets[self.pos]);
            let id = self.assets[self.pos].kuid.clone();
            self.staged_path = pj;
            self.ident = id;
            self.stage = Stage::Install;
        } else {
            self.stage = Stage::Staging;
        }
        let banner = named_msg("Installing asset '", &self.assets[self.pos].name);
        emit_call(logger, out, Mode::Normal, Severity::Info, banner.as_str());
        proof {
            lemma_single_call(old(logger).mode, old(logger).stats, c);
        }
    }

    /// Produces the final report lines and finishes the run.
    fn finish_report(&mut self, logger: &mut Logger, out: &mut Vec<String>)
        requires
            old(self).succeeded <= old(self).assets@.len() <= u32::MAX,
            old(self).pos == old(self).assets@.len(),
        ensures
            final(self).stage == Stage::Finished,
            final(self).pos == old(self).pos,
            final(self).succeeded == old(self).succeeded,
            final(self).staged_path@ == old(self).staged_path@,
            final(self).ident@ == old(self).ident@,
            final(self).config == old(self).config,
            final(self).assets == old(self).assets,
            wf_machine(*final(self)),
            final(out).deep_view() == old(out).deep_view() + spec_emit(
                old(logger).mode,
                spec_report_calls(
                    old(self).assets@.len() as nat,
                    old(self).succeeded as nat,
                ),
            ),
            final(logger).stats == spec_stats_after_calls(
                old(logger).stats,
                spec_report_calls(
                    old(self).assets@.len() as nat,
                    old(self).succeeded as nat,
                ),
            ),
            final(logger).mode == old(logger).mode,
    {
        let ghost mode = logger.mode;
        let ghost st0 = logger.stats;
        let ghost o0 = out.deep_view();
        self.stage = Stage::Finished;
        proof {
            assert(self.assets@.len() <= u32::MAX);
        }
        let total: u32 = self.assets.len() as u32;
        let rep = report_msg(total, self.succeeded);
        let rule = rule_msg(&rep);
        let summ = silent_summary_msg(total - self.succeeded);
        let ghost cs = spec_report_calls(total as nat, self.succeeded as nat);
        let ghost mut done: Seq<LogCall> = Seq::empty();
        proof {
            assert(out.deep_view() =~~= o0 + spec_emit(mode, done));
            assert(logger.stats == spec_stats_after_calls(st0, done));
        }
        emit_call(logger, out, Mode::Normal, Severity::Info, rule.as_str());
        proof {
            lemma_emit_snoc(mode, done, cs[0]);
            lemma_stats_snoc(st0, done, cs[0]);
            done = done.push(cs[0]);
            assert(out.deep_view() =~~= o0 + spec_emit(mode, done));
        }
        emit_call(logger, out, Mode::Normal, Severity::Info, rep.as_str());
        proof {
            lemma_emit_snoc(mode, done, cs[1]);
            lemma_stats_snoc(st0, done, cs[1]);
            done = done.push(cs[1]);
            assert(out.deep_view() =~~= o0 + spec_emit(mode, done));
        }
        emit_call(logger, out, Mode::Normal, Severity::Info, rule.as_str());
        proof {
            lemma_emit_snoc(mode, done, cs[2]);
            lemma_stats_snoc(st0, done, cs[2]);
            done = done.push(cs[2]);
            assert(out.deep_view() =~~= o0 + spec_emit(mode, done));
        }
        emit_call(logger, out, Mode::Silent, Severity::Info, summ.as_str());
        proof {
            lemma_emit_snoc(mode, done, cs[3]);
            lemma_stats_snoc(st0, done, cs[3]);
            done = done.push(cs[3]);
            assert(done =~~= cs);
            assert(out.deep_view() =~~= o0 + spec_emit(mode, cs));
        }
    }

    /// Records the current asset's outcome and moves on: to the next asset,
    /// or to the finished report.
    fn advance(&mut self, success: bool, logger: &mut Logger, out: &mut Vec<String>)
        requires
            wf_machine(*old(self)),
            old(self).pos < old(self).assets@.len(),
        ensures
            ({
                let (st, p2, s2, sp, id, calls) = spec_advance(*old(self), success);
                &&& final(self).stage == st
                &&& final(self).pos == p2
                &&& final(self).succeeded == s2
                &&& final(self).staged_path@ == sp
                &&& final(self).ident@ == id
                &&& final(out).deep_view() == old(out).deep_view() + spec_emit(
                    old(logger).mode,
                    calls,
                )
                &&& final(logger).stats == spec_stats_after_calls(old(logger).stats, calls)
            }),
            final(self).config == old(self).config,
            final(self).assets == old(self).assets,
            wf_machine(*final(self)),
            final(logger).mode == old(logger).mode,
    {
        if success {
            self.succeeded = self.succeeded + 1;
        }
        self.pos = self.pos + 1;
        if self.pos == self.assets.len() {
            self.finish_report(logger, out);
        } else {
            self.enter_asset(logger, out);
        }
    }

    /// Takes the outcome of the requested action and moves the run along,
    /// returning the lines the active verbosity mode prints for it. The
    /// transition, the lines, and the counter changes are exactly those of
    /// `spec_step`.
    pub fn step(&mut self, ev: Event, logger: &mut Logger) -> (out: Vec<String>)
        requires
            wf_machine(*old(self)),
            spec_expects(old(self).stage, ev),
            ev matches Event::Located(v) ==> v@.len() <= u32::MAX,
        ensures
            ({
                let (st2, p2, s2, sp2, id2, calls) = spec_step(*old(self), ev);
                &&& final(self).stage == st2
                &&& final(self).pos == p2
                &&& final(self).succeeded == s2
                &&& final(self).staged_path@ == sp2
                &&& final(self).ident@ == id2
                &&& final(self).config == old(self).config
                &&& final(self).assets.deep_view() == spec_step_assets(*old(self), ev)
                &&& out.deep_view() == spec_emit(old(logger).mode, calls)
                &&& final(logger).stats == spec_stats_after_calls(old(logger).stats, calls)
                &&& final(logger).mode == old(logger).mode
                &&& wf_machine(*final(self))
            }),
    {
        let ghost mode = logger.mode;
        let ghost st0 = logger.stats;
        let mut out: Vec<String> = Vec::new();
        proof {
            assert(out.deep_view() =~~= Seq::<Seq<char>>::empty());
        }
        match ev {
            Event::ToolProtocol => {
                self.stage = Stage::Aborted;
                let ghost cs = spec_protocol_calls();
                let ghost mut done: Seq<LogCall> = Seq::empty();
                emit_call(logger, &mut out, Mode::Normal, Severity::Error,
                    "TrainzUtil output was malformed");
                proof {
                    lemma_emit_snoc(mode, done, cs[0]);
                    lemma_stats_snoc(st0, done, cs[0]);
                    done = done.push(cs[0]);
                }
                emit_call(logger, &mut out, Mode::Silent, Severity::Error,
                    "- <NULL> : TrainzUtil protocol error");
                proof {
                    lemma_emit_snoc(mode, done, cs[1]);
                    lemma_stats_snoc(st0, done, cs[1]);
                    done = done.push(cs[1]);
                    assert(done =~~= cs);
                    assert(out.deep_view() =~~= spec_emit(mode, cs));
                }
                out
            },
            Event::ToolDone(res) => {
                match self.stage {
                    Stage::Preflight => {
                        match res {
                            Ok(o) => {
                                self.stage = Stage::Locating;
                                let vm = version_msg(&o);
                                let ghost c = LogCall {
                                    target: Mode::Verbose,
                                    severity: Severity::Info,
                                    text: msg_version(o),
                                };
                                emit_call(logger, &mut out, Mode::Verbose, Severity::Info,
                                    vm.as_str());
                                proof {
                                    lemma_single_call(mode, st0, c);
                                    assert(out.deep_view() =~~= spec_emit(mode, seq![c]));
                                }
                                out
                            },
                            Err(e) => {
                                self.stage = Stage::Aborted;
                                let m1 = with_error_msg("Unable to execute TrainzUtil: ", &e);
                                let ghost c1 = LogCall {
                                    target: Mode::Normal,
                                    severity: Severity::Error,
                                    text: msg_with_error("Unable to execute TrainzUtil: "@, e),
                                };
                                let ghost c2 = LogCall {
                                    target: Mode::Silent,
                                    severity: Severity::Error,
                                    text: "- <NULL> : TrainzUtil not found"@,
                                };
                                let ghost mut done: Seq<LogCall> = Seq::empty();
                                emit_call(logger, &mut out, Mode::Normal, Severity::Error,
                                    m1.as_str());
                                proof {
                                    lemma_emit_snoc(mode, done, c1);
                                    lemma_stats_snoc(st0, done, c1);
                                    done = done.push(c1);
                                }
                                emit_call(logger, &mut out, Mode::Silent, Severity::Error,
                                    "- <NULL> : TrainzUtil not found");
                                proof {
                                    lemma_emit_snoc(mode, done, c2);
                                    lemma_stats_snoc(st0, done, c2);
                                    done = done.push(c2);
                                    assert(done =~~= seq![c1, c2]);
                                    assert(out.deep_view() =~~= spec_emit(mode, seq![c1, c2]));
                                }
                                out
                            },
                        }
                    },
                    Stage::Install => {
                        match res {
                            Ok(o) => {
                                self.stage = Stage::Commit;
                                let m1 = with_output_msg("Install success:\n", &o);
                                let ghost c = LogCall {
                                    target: Mode::Verbose,
                                    severity: Severity::Info,
                                    text: msg_with_output("Install success:\n"@, o),
                                };
                                emit_call(logger, &mut out, Mode::Verbose, Severity::Info,
                                    m1.as_str());
                                proof {
                                    lemma_single_call(mode, st0, c);
                                    assert(out.deep_view() =~~= spec_emit(mode, seq![c]));
                                }
                                out
                            },
                            Err(e) => {
                                let pre = self.fail_pair("Install failed: ", "Install failed",
                                    &e, logger, &mut out);
                                self.advance(false, logger, &mut out);
                                proof {
                                    let (st, p2, s2, sp, id, calls) = spec_advance(
                                        *old(self),
                                        false,
                                    );
                                    lemma_emit_concat(mode, pre@, calls);
                                    lemma_stats_concat(st0, pre@, calls);
                                    assert(out.deep_view() =~~= spec_emit(mode, pre@ + calls));
                                }
                                out
                            },
                        }
                    },
                    Stage::Commit => {
                        match res {
                            Ok(o) => {
                                self.stage = Stage::Validate;
                                let m1 = with_output_msg("Commit success:\n", &o);
                                let banner = named_msg("Validating asset '",
                                    &self.assets[self.pos].name);
                                let ghost c1 = LogCall {
                                    target: Mode::Verbose,
                                    severity: Severity::Info,
                                    text: msg_with_output("Commit success:\n"@, o),
                                };
                                let ghost c2 = LogCall {
                                    target: Mode::Verbose,
                                    severity: Severity::Info,
                                    text: "Install success"@,
                                };
                                let ghost c3 = LogCall {
                                    target: Mode::Normal,
                                    severity: Severity::Info,
                                    text: msg_named(
                                        "Validating asset '"@,
                                        old(self).assets@[old(self).pos as int]@.name,
                                    ),
                                };
                                let ghost mut done: Seq<LogCall> = Seq::empty();
                                emit_call(logger, &mut out, Mode::Verbose, Severity::Info,
                                    m1.as_str());
                                proof {
                                    lemma_emit_snoc(mode, done, c1);
                                    lemma_stats_snoc(st0, done, c1);
                                    done = done.push(c1);
                                }
                                emit_call(logger, &mut out, Mode::Verbose, Severity::Info,
                                    "Install success");
                                proof {
                                    lemma_emit_snoc(mode, done, c2);
                                    lemma_stats_snoc(st0, done, c2);
                                    done = done.push(c2);
                                }
                                emit_call(logger, &mut out, Mode::Normal, Severity::Info,
                                    banner.as_str());
                                proof {
                                    lemma_emit_snoc(mode, done, c3);
                                    lemma_stats_snoc(st0, done, c3);
                                    done = done.push(c3);
                                    assert(done =~~= seq![c1, c2, c3]);
                                    assert(out.deep_view() =~~= spec_emit(mode, seq![c1, c2, c3]));
                                }
                                out
                            },
                            Err(e) => {
                                let pre = self.fail_pair("Commit failed: ", "Install failed", &e,
                                    logger, &mut out);
                                self.advance(false, logger, &mut out);
                                proof {
                                    let (st, p2, s2, sp, id, calls) = spec_advance(
                                        *old(self),
                                        false,
                                    );
                                    lemma_emit_concat(mode, pre@, calls);
                                    lemma_stats_concat(st0, pre@, calls);
                                    assert(out.deep_view() =~~= spec_emit(mode, pre@ + calls));
                                }
                                out
                            },
                        }
                    },
                    Stage::Validate => {
                        match res {
                            Ok(o) => {
                                let label = asset_label(&self.config, &self.assets[self.pos]);
                                let success = o.errors == 0;
                                let m1 = with_output_msg("Validation success:\n", &o);
                                let ghost c0 = LogCall {
                                    target: Mode::Verbose,
                                    severity: Severity::Info,
                                    text: msg_with_output("Validation success:\n"@, o),
                                };
                                let ghost mut done: Seq<LogCall> = Seq::empty();
                                emit_call(logger, &mut out, Mode::Verbose, Severity::Info,
                                    m1.as_str());
                                proof {
                                    lemma_emit_snoc(mode, done, c0);
                                    lemma_stats_snoc(st0, done, c0);
                                    done = done.push(c0);
                                    assert(done =~~= seq![c0]);
                                }
                                log_validation_output(label.as_str(), &o, logger, &mut out);
                                let ghost diag = spec_diag_calls(label@, o.lines.deep_view());
                                proof {
                                    lemma_emit_concat(mode, done, diag);
                                    lemma_stats_concat(st0, done, diag);
                                    done = done + diag;
                                    assert(out.deep_view() =~~= spec_emit(mode, done));
                                }
                                let ghost head = done;
                                if success {
                                    let ghost cv = LogCall {
                                        target: Mode::Verbose,
                                        severity: Severity::Info,
                                        text: "Validation success"@,
                                    };
                                    emit_call(logger, &mut out, Mode::Verbose, Severity::Info,
                                        "Validation success");
                                    proof {
                                        lemma_emit_snoc(mode, done, cv);
                                        lemma_stats_snoc(st0, done, cv);
                                        done = done.push(cv);
                                        assert(done =~~= head + seq![cv]);
                                    }
                                } else {
                                    let ghost cv1 = LogCall {
                                        target: Mode::Verbose,
                                        severity: Severity::Error,
                                        text: "Asset is not valid"@,
                                    };
                                    let ghost cv2 = LogCall {
                                        target: Mode::Normal,
                                        severity: Severity::Error,
                                        text: "Validation failed"@,
                                    };
                                    emit_call(logger, &mut out, Mode::Verbose, Severity::Error,
                                        "Asset is not valid");
                                    proof {
                                        lemma_emit_snoc(mode, done, cv1);
                                        lemma_stats_snoc(st0, done, cv1);
                                        done = done.push(cv1);
                                    }
                                    emit_call(logger, &mut out, Mode::Normal, Severity::Error,
                                        "Validation failed");
                                    proof {
                                        lemma_emit_snoc(mode, done, cv2);
                                        lemma_stats_snoc(st0, done, cv2);
                                        done = done.push(cv2);
                                        assert(done =~~= head + seq![cv1, cv2]);
                                    }
                                }
                                if self.config.cleanup {
                                    self.stage = Stage::Cleanup(success);
                                    proof {
                                        let (xst, xp2, xs2, xsp, xid, xcalls) = spec_step(
                                            *old(self),
                                            ev,
                                        );
                                        assert(done =~~= xcalls);
                                    }
                                } else {
                                    self.advance(success, logger, &mut out);
                                    proof {
                                        let (st, p2, s2, sp, id, calls) = spec_advance(
                                            *old(self),
                                            success,
                                        );
                                        lemma_emit_concat(mode, done, calls);
                                        lemma_stats_concat(st0, done, calls);
                                        assert(out.deep_view() =~~= spec_emit(mode, done + calls));
                                        let (xst, xp2, xs2, xsp, xid, xcalls) = spec_step(
                                            *old(self),
                                            ev,
                                        );
                                        assert(done + calls =~~= xcalls);
                                    }
                                }
                                out
                            },
                            Err(e) => {
                                let pre = self.fail_pair("Validation failed: ",
                                    "Validation failed", &e, logger, &mut out);
                                if self.config.cleanup {
                                    self.stage = Stage::Cleanup(false);
                                } else {
                                    self.advance(false, logger, &mut out);
                                    proof {
                                        let (st, p2, s2, sp, id, calls) = spec_advance(
                                            *old(self),
                                            false,
                                        );
                                        lemma_emit_concat(mode, pre@, calls);
                                        lemma_stats_concat(st0, pre@, calls);
                                        assert(out.deep_view() =~~= spec_emit(mode, pre@ + calls));
                                    }
                                }
                                out
                            },
                        }
                    },
                    Stage::Cleanup(pending) => {
                        match res {
                            Ok(o) => {
                                let m1 = with_output_msg("Cleanup success:\n", &o);
                                let ghost c = LogCall {
                                    target: Mode::Verbose,
                                    severity: Severity::Info,
                                    text: msg_with_output("Cleanup success:\n"@, o),
                                };
                                emit_call(logger, &mut out, Mode::Verbose, Severity::Info,
                                    m1.as_str());
                                proof {
                                    lemma_single_call(mode, st0, c);
                                }
                                self.advance(pending, logger, &mut out);
                                proof {
                                    let (st, p2, s2, sp, id, calls) = spec_advance(
                                        *old(self),
                                        pending,
                                    );
                                    lemma_emit_concat(mode, seq![c], calls);
                                    lemma_stats_concat(st0, seq![c], calls);
                                    assert(out.deep_view() =~~= spec_emit(mode, seq![c] + calls));
                                }
                                out
                            },
                            Err(e) => {
                                let m1 = with_error_msg("Cleanup failed: ", &e);
                                let ghost c = LogCall {
                                    target: Mode::Normal,
                                    severity: Severity::Error,
                                    text: msg_with_error("Cleanup failed: "@, e),
                                };
                                emit_call(logger, &mut out, Mode::Normal, Severity::Error,
                                    m1.as_str());
                                proof {
                                    lemma_single_call(mode, st0, c);
                                }
                                self.advance(false, logger, &mut out);
                                proof {
                                    let (st, p2, s2, sp, id, calls) = spec_advance(
                                        *old(self),
                                        false,
                                    );
                                    lemma_emit_concat(mode, seq![c], calls);
                                    lemma_stats_concat(st0, seq![c], calls);
                                    assert(out.deep_view() =~~= spec_emit(mode, seq![c] + calls));
                                }
                                out
                            },
                        }
                    },
                    _ => {
                        proof {
                            assert(false);
                        }
                        out
                    },
                }
            },
            Event::Located(v) => {
                let ghost av = v.deep_view();
                self.assets = v;
                let ghost mut done: Seq<LogCall> = Seq::empty();
                let mut i: usize = 0;
                proof {
                    assert(av.subrange(0, 0) =~= Seq::<SpecAsset>::empty());
                    assert(done =~~= spec_found_calls(av.subrange(0, 0)));
                }
                while i < self.assets.len()
                    invariant
                        i <= self.assets@.len(),
                        self.assets.deep_view() == av,
                        self.assets@.len() <= u32::MAX,
                        self.stage == old(self).stage,
                        self.pos == old(self).pos,
                        self.succeeded == old(self).succeeded,
                        self.config == old(self).config,
                        self.staged_path@ == old(self).staged_path@,
                        self.ident@ == old(self).ident@,
                        old(self).pos == 0 && old(self).succeeded == 0,
                        done == spec_found_calls(av.subrange(0, i as int)),
                        out.deep_view() == spec_emit(mode, done),
                        logger.stats == spec_stats_after_calls(st0, done),
                        logger.mode == mode,
                    decreases self.assets@.len() - i,
                {
                    let fm = found_msg(&self.assets[i]);
                    proof {
                        assert(self.assets.deep_view()[i as int] == self.assets@[i as int]@);
                        assert(av.subrange(0, i as int).push(av[i as int]) =~= av.subrange(
                            0,
                            i + 1,
                        ));
                        lemma_found_snoc(av.subrange(0, i as int), av[i as int]);
                    }
                    let ghost c = LogCall {
                        target: Mode::Normal,
                        severity: Severity::Info,
                        text: msg_found(av[i as int]),
                    };
                    emit_call(logger, &mut out, Mode::Normal, Severity::Info, fm.as_str());
                    proof {
                        lemma_emit_snoc(mode, done, c);
                        lemma_stats_snoc(st0, done, c);
                        done = done.push(c);
                        assert(done =~~= spec_found_calls(av.subrange(0, i + 1)));
                    }
                    i = i + 1;
                }
                proof {
                    assert(av.subrange(0, av.len() as int) =~= av);
                    assert(done == spec_found_calls(av));
                }
                if self.assets.len() == 0 {
                    self.finish_report(logger, &mut out);
                    proof {
                        lemma_emit_concat(mode, done, spec_report_calls(0, 0));
                        lemma_stats_concat(st0, done, spec_report_calls(0, 0));
                        assert(out.deep_view() =~~= spec_emit(
                            mode,
                            done + spec_report_calls(0, 0),
                        ));
                    }
                    out
                } else {
                    self.enter_asset(logger, &mut out);
                    proof {
                        let ec = seq![entry_call(av[0].name)];
                        lemma_emit_concat(mode, done, ec);
                        lemma_stats_concat(st0, done, ec);
                        assert(out.deep_view() =~~= spec_emit(mode, done + ec));
                        let (xst, xp2, xs2, xsp, xid, xcalls) = spec_step(*old(self), ev);
                        assert(done + ec =~~= xcalls);
                    }
                    out
                }
            },
            Event::StageDone(res) => {
                match res {
                    Ok(p) => {
                        let m1 = concat2("Staged to: ", p.as_str());
                        self.staged_path = p;
                        self.ident = crate::kuid::dummy_kuid_string();
                        self.stage = Stage::Install;
                        let ghost c = LogCall {
                            target: Mode::Verbose,
                            severity: Severity::Info,
                            text: m1@,
                        };
                        emit_call(logger, &mut out, Mode::Verbose, Severity::Info, m1.as_str());
                        proof {
                            lemma_single_call(mode, st0, c);
                            assert(out.deep_view() =~~= spec_emit(mode, seq![c]));
                        }
                        out
                    },
                    Err(why) => {
                        let m1 = concat2("Staging failed: ", why.as_str());
                        let ghost c = LogCall {
                            target: Mode::Normal,
                            severity: Severity::Error,
                            text: m1@,
                        };
                        emit_call(logger, &mut out, Mode::Normal, Severity::Error, m1.as_str());
                        proof {
                            lemma_single_call(mode, st0, c);
                        }
                        self.advance(false, logger, &mut out);
                        proof {
                            let (st, p2, s2, sp, id, calls) = spec_advance(*old(self), false);
                            lemma_emit_concat(mode, seq![c], calls);
                            lemma_stats_concat(st0, seq![c], calls);
                            assert(out.deep_view() =~~= spec_emit(mode, seq![c] + calls));
                        }
                        out
                    },
                }
            },
        }
    }

    /// Emits the pair of failure lines an asset-scoped tool error produces.
    fn fail_pair(
        &self,
        head: &str,
        closing: &str,
        e: &Error,
        logger: &mut Logger,
        out: &mut Vec<String>,
    ) -> (calls: Ghost<Seq<LogCall>>)
        ensures
            calls@ == seq![
                LogCall {
                    target: Mode::Normal,
                    severity: Severity::Error,
                    text: msg_with_error(head@, *e),
                },
                LogCall { target: Mode::Normal, severity: Severity::Error, text: closing@ },
            ],
            final(out).deep_view() == old(out).deep_view() + spec_emit(old(logger).mode, calls@),
            final(logger).stats == spec_stats_after_calls(old(logger).stats, calls@),
            final(logger).mode == old(logger).mode,
    {
        let ghost mode = logger.mode;
        let ghost st0 = logger.stats;
        let ghost o0 = out.deep_view();
        let m1 = with_error_msg(head, e);
        let ghost c1 = LogCall {
            target: Mode::Normal,
            severity: Severity::Error,
            text: msg_with_error(head@, *e),
        };
        let ghost c2 = LogCall { target: Mode::Normal, severity: Severity::Error, text: closing@ };
        let ghost mut done: Seq<LogCall> = Seq::empty();
        proof {
            assert(out.deep_view() =~~= o0 + spec_emit(mode, done));
        }
        emit_call(logger, out, Mode::Normal, Severity::Error, m1.as_str());
        proof {
            lemma_emit_snoc(mode, done, c1);
            lemma_stats_snoc(st0, done, c1);
            done = done.push(c1);
            assert(out.deep_view() =~~= o0 + spec_emit(mode, done));
        }
        emit_call(logger, out, Mode::Normal, Severity::Error, closing);
        proof {
            lemma_emit_snoc(mode, done, c2);
            lemma_stats_snoc(st0, done, c2);
            done = done.push(c2);
            assert(done =~~= seq![c1, c2]);
            assert(out.deep_view() =~~= o0 + spec_emit(mode, seq![c1, c2]));
        }
        let ghost pair = seq![c1, c2];
        Ghost(pair)
    }

    /// The batch report of a run that finished; an aborted run reports
    /// failure with whatever was tallied.
    pub fn report(&self) -> (r: BuildReport)
        requires
            wf_machine(*self),
            self.stage == Stage::Finished || self.stage == Stage::Aborted,
        ensures
            r.total == self.assets@.len(),
            r.succeeded == self.succeeded,
            r.failed == self.assets@.len() - self.succeeded,
            r.ok == (self.stage == Stage::Finished && self.succeeded == self.assets@.len()),
    {
        let total = self.assets.len();
        let succeeded = self.succeeded as usize;
        BuildReport {
            total,
            succeeded,
            failed: total - succeeded,
            ok: matches!(self.stage, Stage::Finished) && succeeded == total,
        }
    }
}

} // verus!
