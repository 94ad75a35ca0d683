//! The verbosity-tiered logging model: every call names a target tier and a
//! severity; the active mode decides whether a line is produced, and error and
//! warning counts are kept whether or not the line is shown.

use vstd::prelude::*;

verus! {

/// The active verbosity mode, and the tier a log call is aimed at.
#[derive(Copy, Clone, Eq, PartialEq, Debug, Structural)]
pub enum Mode {
    Silent,
    Normal,
    Verbose,
}

/// Whether the active mode `m` shows a call aimed at tier `other`.
pub open spec fn spec_accepts(m: Mode, other: Mode) -> bool {
    match m {
        Mode::Silent => other == Mode::Silent,
        Mode::Normal => other == Mode::Normal,
        Mode::Verbose => other == Mode::Normal || other == Mode::Verbose,
    }
}

impl Mode {
    /// Exec mirror of `spec_accepts`.
    pub fn accepts(self, other: Mode) -> (r: bool)
        ensures
            r == spec_accepts(self, other),
    {
        match self {
            Mode::Silent => other == Mode::Silent,
            Mode::Normal => other == Mode::Normal,
            Mode::Verbose => other == Mode::Normal || other == Mode::Verbose,
        }
    }
}

/// How serious a logged line is.
#[derive(Copy, Clone, Eq, PartialEq, Debug, Structural)]
pub enum Severity {
    Error,
    Warn,
    Info,
}

/// Counts of error- and warning-severity log calls made so far.
#[derive(Copy, Clone, Eq, PartialEq, Debug, Structural)]
pub struct Statistics {
    pub errors: u32,
    pub warnings: u32,
}

impl Default for Statistics {
    /// Zero counts.
    fn default() -> (s: Statistics)
        ensures
            s.errors == 0,
            s.warnings == 0,
    {
        Statistics { errors: 0, warnings: 0 }
    }
}

/// A counter bumped by one, stopping at the largest value.
pub open spec fn sat_inc(x: u32) -> u32 {
    if x == u32::MAX {
        x
    } else {
        (x + 1) as u32
    }
}

/// The counts after one log call of the given severity.
pub open spec fn spec_stats_after(st: Statistics, severity: Severity) -> Statistics {
    match severity {
        Severity::Error => Statistics { errors: sat_inc(st.errors), ..st },
        Severity::Warn => Statistics { warnings: sat_inc(st.warnings), ..st },
        Severity::Info => st,
    }
}

/// The severity label a human tier shows before the message.
pub open spec fn spec_severity_label(severity: Severity) -> Seq<char> {
    match severity {
        Severity::Error => "ERROR "@,
        Severity::Warn => "WARN  "@,
        Severity::Info => "INFO  "@,
    }
}

/// The line an accepted call produces: the silent tier shows the raw text,
/// the human tiers put the severity label first.
pub open spec fn spec_logged_text(active: Mode, severity: Severity, text: Seq<char>) -> Seq<char> {
    if active == Mode::Silent {
        text
    } else {
        spec_severity_label(severity) + text
    }
}

/// The logging context of one run: the active mode and the running counts.
#[derive(Copy, Clone, Debug)]
pub struct Logger {
    pub mode: Mode,
    pub stats: Statistics,
}

/// A fresh logging context in the given mode, with zero counts.
pub fn init(mode: Mode) -> (l: Logger)
    ensures
        l.mode == mode,
        l.stats == (Statistics { errors: 0, warnings: 0 }),
{
    Logger { mode, stats: Statistics { errors: 0, warnings: 0 } }
}

/// Makes one log call: bumps the counter of its severity whether or not the
/// call is shown, and yields the line to print exactly when the active mode
/// accepts the target tier.
pub fn log(logger: &mut Logger, target: Mode, severity: Severity, text: &str) -> (r: Option<
    String,
>)
    ensures
        final(logger).mode == old(logger).mode,
        final(logger).stats == spec_stats_after(old(logger).stats, severity),
        match r {
            Some(s) => spec_accepts(old(logger).mode, target) && s@ == spec_logged_text(
                old(logger).mode,
                severity,
                text@,
            ),
            None => !spec_accepts(old(logger).mode, target),
        },
{
    match severity {
        Severity::Error => {
            if logger.stats.errors < u32::MAX {
                logger.stats.errors = logger.stats.errors + 1;
            }
        },
        Severity::Warn => {
            if logger.stats.warnings < u32::MAX {
                logger.stats.warnings = logger.stats.warnings + 1;
            }
        },
        Severity::Info => {},
    }
    if !logger.mode.accepts(target) {
        return None;
    }
    if matches!(logger.mode, Mode::Silent) {
        return Some(text.to_owned());
    }
    let mut line = match severity {
        Severity::Error => String::from_str("ERROR "),
        Severity::Warn => String::from_str("WARN  "),
        Severity::Info => String::from_str("INFO  "),
    };
    line.append(text);
    Some(line)
}

/// One log call: the tier it aims at, its severity, and its text.
pub ghost struct LogCall {
    pub target: Mode,
    pub severity: Severity,
    pub text: Seq<char>,
}

/// The lines one call prints under the active mode: one, or none.
pub open spec fn spec_emit_one(mode: Mode, c: LogCall) -> Seq<Seq<char>> {
    if spec_accepts(mode, c.target) {
        seq![spec_logged_text(mode, c.severity, c.text)]
    } else {
        Seq::empty()
    }
}

/// The lines a list of calls prints under the active mode, in order.
pub open spec fn spec_emit(mode: Mode, calls: Seq<LogCall>) -> Seq<Seq<char>>
    decreases calls.len(),
{
    if calls.len() == 0 {
        Seq::empty()
    } else {
        spec_emit_one(mode, calls[0]) + spec_emit(mode, calls.subrange(1, calls.len() as int))
    }
}

/// The counts after a list of calls.
pub open spec fn spec_stats_after_calls(st: Statistics, calls: Seq<LogCall>) -> Statistics
    decreases calls.len(),
{
    if calls.len() == 0 {
        st
    } else {
        spec_stats_after_calls(
            spec_stats_after(st, calls[0].severity),
            calls.subrange(1, calls.len() as int),
        )
    }
}

/// One more call appends its printed lines, if any.
pub proof fn lemma_emit_snoc(mode: Mode, calls: Seq<LogCall>, c: LogCall)
    ensures
        spec_emit(mode, calls.push(c)) == spec_emit(mode, calls) + spec_emit_one(mode, c),
    decreases calls.len(),
{
    let whole = calls.push(c);
    if calls.len() == 0 {
        assert(whole.subrange(1, whole.len() as int) =~= Seq::<LogCall>::empty());
        assert(spec_emit(mode, whole) == spec_emit_one(mode, whole[0]) + spec_emit(
            mode,
            whole.subrange(1, whole.len() as int),
        ));
        assert(whole[0] == c);
        assert(spec_emit(mode, whole.subrange(1, whole.len() as int)) == Seq::<Seq<char>>::empty());
        assert(spec_emit(mode, calls) == Seq::<Seq<char>>::empty());
        assert(spec_emit(mode, whole) =~~= spec_emit(mode, calls) + spec_emit_one(mode, c));
    } else {
        let sub = calls.subrange(1, calls.len() as int);
        assert(whole.subrange(1, whole.len() as int) =~= sub.push(c));
        lemma_emit_snoc(mode, sub, c);
        assert(whole[0] == calls[0]);
        assert(spec_emit(mode, whole) == spec_emit_one(mode, calls[0]) + (spec_emit(mode, sub)
            + spec_emit_one(mode, c)));
        assert(spec_emit(mode, calls) == spec_emit_one(mode, calls[0]) + spec_emit(mode, sub));
        assert(spec_emit(mode, whole) =~~= spec_emit(mode, calls) + spec_emit_one(mode, c));
    }
}

/// One more call folds its severity into the counts.
pub proof fn lemma_stats_snoc(st: Statistics, calls: Seq<LogCall>, c: LogCall)
    ensures
        spec_stats_after_calls(st, calls.push(c)) == spec_stats_after(
            spec_stats_after_calls(st, calls),
            c.severity,
        ),
    decreases calls.len(),
{
    let whole = calls.push(c);
    if calls.len() == 0 {
        assert(whole.subrange(1, whole.len() as int) =~= Seq::<LogCall>::empty());
        assert(whole[0] == c);
        assert(spec_stats_after_calls(st, whole) == spec_stats_after_calls(
            spec_stats_after(st, c.severity),
            whole.subrange(1, whole.len() as int),
        ));
        assert(spec_stats_after_calls(st, calls) == st);
    } else {
        let sub = calls.subrange(1, calls.len() as int);
        assert(whole.subrange(1, whole.len() as int) =~= sub.push(c));
        lemma_stats_snoc(spec_stats_after(st, calls[0].severity), sub, c);
        assert(whole[0] == calls[0]);
        assert(spec_stats_after_calls(st, whole) == spec_stats_after_calls(
            spec_stats_after(st, calls[0].severity),
            sub.push(c),
        ));
        assert(spec_stats_after_calls(st, calls) == spec_stats_after_calls(
            spec_stats_after(st, calls[0].severity),
            sub,
        ));
    }
}

/// Makes one log call and gathers the printed line, if any, into `out`.
pub fn emit_call(
    logger: &mut Logger,
    out: &mut Vec<String>,
    target: Mode,
    severity: Severity,
    text: &str,
)
    ensures
        final(logger).mode == old(logger).mode,
        final(logger).stats == spec_stats_after(old(logger).stats, severity),
        final(out).deep_view() == old(out).deep_view() + spec_emit_one(
            old(logger).mode,
            LogCall { target, severity, text: text@ },
        ),
{
    let ghost o0 = out.deep_view();
    let r = log(logger, target, severity, text);
    match r {
        Some(line) => {
            let ghost lv = line@;
            out.push(line);
            proof {
                assert(out.deep_view() =~~= o0.push(lv));
                assert(out.deep_view() =~~= o0 + spec_emit_one(
                    old(logger).mode,
                    LogCall { target, severity, text: text@ },
                ));
            }
        },
        None => {
            proof {
                assert(out.deep_view() =~~= o0 + spec_emit_one(
                    old(logger).mode,
                    LogCall { target, severity, text: text@ },
                ));
            }
        },
    }
}

/// The counts gathered so far.
pub fn statistics(logger: &Logger) -> (s: Statistics)
    ensures
        s == logger.stats,
{
    logger.stats
}

} // verus!
