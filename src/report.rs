use vstd::prelude::*;
use vstd::string::StringExecFns;

verus! {

/// The severity of a finding: `Error` ranks highest, `Info` lowest.
#[derive(Clone, Copy, Debug, PartialEq, Eq, Structural)]
pub enum ReportLevel {
    Error,
    Warning,
    Info,
}

pub open spec fn level_rank(l: ReportLevel) -> nat {
    match l {
        ReportLevel::Error => 2,
        ReportLevel::Warning => 1,
        ReportLevel::Info => 0,
    }
}

pub open spec fn level_name(l: ReportLevel) -> Seq<char> {
    match l {
        ReportLevel::Error => "Error"@,
        ReportLevel::Warning => "Warning"@,
        ReportLevel::Info => "Info"@,
    }
}

impl ReportLevel {
    /// The rank of the level: 2 for errors, 1 for warnings, 0 for information.
    pub fn rank(&self) -> (r: u8)
        ensures
            r as nat == level_rank(*self),
    {
        match self {
            ReportLevel::Error => 2,
            ReportLevel::Warning => 1,
            ReportLevel::Info => 0,
        }
    }

    /// The level's name as reports print it.
    pub fn as_string(&self) -> (r: String)
        ensures
            r@ == level_name(*self),
    {
        match self {
            ReportLevel::Error => String::from_str("Error"),
            ReportLevel::Warning => String::from_str("Warning"),
            ReportLevel::Info => String::from_str("Info"),
        }
    }
}

/// One finding of the analyzer.
#[derive(Clone, Debug)]
pub struct Report {
    pub level: ReportLevel,
    pub analyzer: String,
    pub description: String,
    pub location: String,
    pub source: String,
}

impl Report {
    pub fn new(
        level: ReportLevel,
        analyzer: String,
        description: String,
        location: String,
        source: String,
    ) -> (r: Report)
        ensures
            r == (Report { level, analyzer, description, location, source }),
    {
        Report { level, analyzer, description, location, source }
    }

    /// The report as the console sink prints it:
    /// `<level> (<analyzer>): <description>`, then `-> <location>`, then the source.
    pub fn to_text(&self) -> (r: String)
        ensures
            r@ == level_name(self.level) + " ("@ + self.analyzer@ + "): "@ + self.description@
                + "\n-> "@ + self.location@ + "\n"@ + self.source@,
    {
        let mut t = self.level.as_string();
        t.append(" (");
        t.append(self.analyzer.as_str());
        t.append("): ");
        t.append(self.description.as_str());
        t.append("\n-> ");
        t.append(self.location.as_str());
        t.append("\n");
        t.append(self.source.as_str());
        t
    }
}

/// A destination for findings: it buffers what it is given and writes it out on flush.
/// `logged` is what it has been given so far, in order; `flush_count` how often it
/// was flushed.
pub trait ReportLogger {
    spec fn logged(&self) -> Seq<Report>;

    spec fn flush_count(&self) -> nat;

    fn log(&mut self, report: Report)
        ensures
            final(self).logged() == old(self).logged().push(report),
            final(self).flush_count() == old(self).flush_count(),
    ;

    fn flush(&mut self)
        ensures
            final(self).logged() == old(self).logged(),
            final(self).flush_count() == old(self).flush_count() + 1,
    ;
}

/// A logger that keeps its findings in memory, in the order they came.
pub struct ReportBuffer {
    pub reports: Vec<Report>,
    pub flushes: Ghost<nat>,
}

impl ReportBuffer {
    pub fn new() -> (r: ReportBuffer)
        ensures
            r.logged().len() == 0,
            r.flush_count() == 0,
    {
        ReportBuffer { reports: Vec::new(), flushes: Ghost(0) }
    }
}

impl ReportLogger for ReportBuffer {
    open spec fn logged(&self) -> Seq<Report> {
        self.reports@
    }

    open spec fn flush_count(&self) -> nat {
        self.flushes@
    }

    fn log(&mut self, report: Report) {
        self.reports.push(report);
    }

    fn flush(&mut self) {
        self.flushes = Ghost(self.flushes@ + 1);
    }
}

/// The one logger of a run, set once.
pub struct ReportSink<L: ReportLogger> {
    pub logger: Option<L>,
}

/// Proof that the logger was installed; handing it back flushes the logger.
pub struct FlushHandle {
    _priv: (),
}

impl<L: ReportLogger> ReportSink<L> {
    pub fn new() -> (r: ReportSink<L>)
        ensures
            r.logger is None,
    {
        ReportSink { logger: None }
    }

    /// Whether a logger is installed.
    pub fn is_initialized(&self) -> (r: bool)
        ensures
            r == self.logger is Some,
    {
        self.logger.is_some()
    }
}

/// Installs the logger of this run. The sink is set exactly once: installing a
/// second logger is ruled out.
pub fn init_report_logger<L: ReportLogger>(sink: &mut ReportSink<L>, report_logger: L) -> (r:
    FlushHandle)
    requires
        old(sink).logger is None,
    ensures
        final(sink).logger == Some(report_logger),
{
    sink.logger = Some(report_logger);
    FlushHandle { _priv: () }
}

/// Hands a finding to the installed logger, which logs it once.
pub fn rudra_report<L: ReportLogger>(sink: &mut ReportSink<L>, report: Report)
    requires
        old(sink).logger is Some,
    ensures
        final(sink).logger matches Some(l) && l.logged() == old(sink).logger->Some_0.logged().push(
            report,
        ) && l.flush_count() == old(sink).logger->Some_0.flush_count(),
{
    match &mut sink.logger {
        Some(l) => {
            l.log(report);
        },
        None => {},
    }
}

impl FlushHandle {
    /// Flushes the installed logger once, at the end of the run.
    pub fn flush<L: ReportLogger>(self, sink: &mut ReportSink<L>)
        requires
            old(sink).logger is Some,
        ensures
            final(sink).logger matches Some(l) && l.logged() == old(sink).logger->Some_0.logged()
                && l.flush_count() == old(sink).logger->Some_0.flush_count() + 1,
    {
        match &mut sink.logger {
            Some(l) => l.flush(),
            None => {},
        }
    }
}

} // verus!
