//! Diagnostics of a build: one line of cargo's output becomes at most one
//! leveled record, and a finished run is summed up.

use vstd::prelude::*;
use serde::Deserialize;
use cargo_metadata::diagnostic::DiagnosticLevel as L;
use crate::text::decimal;

verus! {

/// The level rustc gives a message.
#[derive(Clone, Copy, Debug, PartialEq, Eq, Structural)]
pub enum Severity {
    Ice,
    Error,
    Warning,
    FailureNote,
    Note,
    Help,
    Unknown,
}

/// What one line of cargo's standard output decodes to.
pub enum DecodedLine {
    /// The line is not one of cargo's JSON messages.
    NotAMessage,
    /// A message of the compiler.
    CompilerMessage { level: Severity, message: String, rendered: Option<String> },
    /// Any other JSON message (an artifact, a build script, the end of the build).
    OtherMessage,
}

/// The model of a decoded line.
pub ghost enum DecodedModel {
    NotAMessage,
    CompilerMessage { level: Severity, message: Seq<char>, rendered: Option<Seq<char>> },
    OtherMessage,
}

pub open spec fn opt_view(o: Option<String>) -> Option<Seq<char>> {
    match o {
        Some(s) => Some(s@),
        None => None,
    }
}

impl View for DecodedLine {
    type V = DecodedModel;

    open spec fn view(&self) -> DecodedModel {
        match self {
            DecodedLine::NotAMessage => DecodedModel::NotAMessage,
            DecodedLine::CompilerMessage { level, message, rendered } => DecodedModel::CompilerMessage {
                level: *level,
                message: message@,
                rendered: opt_view(*rendered),
            },
            DecodedLine::OtherMessage => DecodedModel::OtherMessage,
        }
    }
}

/// What cargo_metadata's `Message` deserializer makes of a line.
pub uninterp spec fn decode_line(line: Seq<char>) -> DecodedModel;

/// Relies on `serde_json::Deserializer` (with its default recursion limit,
/// so too deep a nesting is a parse error, not a stack overflow) and the
/// `Deserialize` impl of `cargo_metadata::Message`: decodes one line; a
/// compiler message keeps its texts and its `DiagnosticLevel` variant.
#[verifier::external_body]
fn decode(line: &str) -> (r: DecodedLine)
    ensures
        r@ == decode_line(line@),
{
    let mut de = serde_json::Deserializer::from_str(line);
    let m = match cargo_metadata::Message::deserialize(&mut de) {
        Ok(cargo_metadata::Message::CompilerMessage(m)) => m.message,
        Ok(_) => return DecodedLine::OtherMessage,
        Err(_) => return DecodedLine::NotAMessage,
    };
    let level = match m.level {
        L::Ice => Severity::Ice, L::Error => Severity::Error, L::Warning => Severity::Warning,
        L::FailureNote => Severity::FailureNote, L::Note => Severity::Note, L::Help => Severity::Help,
        _ => Severity::Unknown,
    };
    DecodedLine::CompilerMessage { level, message: m.message, rendered: m.rendered }
}

/// A diagnostic record: short message, rendered message and level
/// (1 error, 2 warning, 3 note, 0 anything else).
pub struct Diag {
    pub short: String,
    pub expanded: String,
    pub level: i32,
}

/// The model of a diagnostic record.
pub ghost struct DiagModel {
    pub short: Seq<char>,
    pub expanded: Seq<char>,
    pub level: i32,
}

impl View for Diag {
    type V = DiagModel;

    open spec fn view(&self) -> DiagModel {
        DiagModel { short: self.short@, expanded: self.expanded@, level: self.level }
    }
}

/// The level number of a severity.
pub open spec fn level_code(s: Severity) -> i32 {
    match s {
        Severity::Error => 1,
        Severity::Warning => 2,
        Severity::FailureNote | Severity::Note | Severity::Help => 3,
        _ => 0,
    }
}

/// The record made of a decoded line: a compiler message keeps its texts and
/// gets its level; plain text is kept whole at level 0; other messages are
/// dropped.
pub open spec fn classify_spec(d: DecodedModel, line: Seq<char>) -> Option<DiagModel> {
    match d {
        DecodedModel::NotAMessage => Some(DiagModel { short: line, expanded: Seq::empty(), level: 0 }),
        DecodedModel::CompilerMessage { level, message, rendered } => Some(DiagModel {
            short: message,
            expanded: match rendered {
                Some(r) => r,
                None => Seq::empty(),
            },
            level: level_code(level),
        }),
        DecodedModel::OtherMessage => None,
    }
}

pub open spec fn diag_opt_view(o: Option<Diag>) -> Option<DiagModel> {
    match o {
        Some(d) => Some(d@),
        None => None,
    }
}

/// The level number of a severity.
pub fn severity_level(s: Severity) -> (r: i32)
    ensures
        r == level_code(s),
{
    match s {
        Severity::Error => 1,
        Severity::Warning => 2,
        Severity::FailureNote | Severity::Note | Severity::Help => 3,
        _ => 0,
    }
}

/// Turns a decoded line into a record, as `classify_spec` says.
pub fn classify(decoded: DecodedLine, line: String) -> (r: Option<Diag>)
    ensures
        diag_opt_view(r) == classify_spec(decoded@, line@),
{
    match decoded {
        DecodedLine::NotAMessage => Some(Diag { short: line, expanded: String::new(), level: 0 }),
        DecodedLine::CompilerMessage { level, message, rendered } => {
            let expanded = match rendered {
                Some(r) => r,
                None => String::new(),
            };
            Some(Diag { short: message, expanded, level: severity_level(level) })
        },
        DecodedLine::OtherMessage => None,
    }
}

/// The record of one line of cargo's standard output, if any.
pub fn diagnostic_from_line(line: String) -> (r: Option<Diag>)
    ensures
        diag_opt_view(r) == classify_spec(decode_line(line@), line@),
{
    let decoded = decode(line.as_str());
    classify(decoded, line)
}

/// Number of records of the given level.
pub open spec fn count_level(ds: Seq<Diag>, level: i32) -> nat
    decreases ds.len(),
{
    if ds.len() == 0 {
        0
    } else {
        count_level(ds.drop_last(), level) + if ds.last().level == level { 1nat } else { 0nat }
    }
}

proof fn lemma_count_level_bound(ds: Seq<Diag>, level: i32)
    ensures
        count_level(ds, level) <= ds.len(),
    decreases ds.len(),
{
    if ds.len() > 0 {
        lemma_count_level_bound(ds.drop_last(), level);
    }
}

/// Counts the records of the given level.
pub fn count_diagnostics(ds: &Vec<Diag>, level: i32) -> (r: usize)
    ensures
        r == count_level(ds@, level),
{
    let mut n: usize = 0;
    let mut i: usize = 0;
    while i < ds.len()
        invariant
            i <= ds@.len(),
            n == count_level(ds@.subrange(0, i as int), level),
        decreases ds@.len() - i,
    {
        proof {
            assert(ds@.subrange(0, i + 1).drop_last() =~= ds@.subrange(0, i as int));
            lemma_count_level_bound(ds@.subrange(0, i + 1), level);
        }
        if ds[i].level == level {
            n = n + 1;
        }
        i = i + 1;
    }
    assert(ds@.subrange(0, ds@.len() as int) =~= ds@);
    n
}

/// The summary of a run with `errors` errors and `warnings` warnings: a check
/// mark when both are zero, else "N errors; M warnings".
pub open spec fn summary_spec(errors: nat, warnings: nat) -> Seq<char> {
    if errors == 0 && warnings == 0 {
        "\u{2705}"@
    } else {
        decimal(errors) + " errors; "@ + decimal(warnings) + " warnings"@
    }
}

/// Writes the summary of a run.
pub fn summary_text(errors: usize, warnings: usize) -> (r: String)
    ensures
        r@ == summary_spec(errors as nat, warnings as nat),
{
    if errors == 0 && warnings == 0 {
        String::from_str("\u{2705}")
    } else {
        let mut s = crate::text::decimal_string(errors);
        s.append(" errors; ");
        let w = crate::text::decimal_string(warnings);
        s.append(w.as_str());
        s.append(" warnings");
        s
    }
}

/// The records of one build run, in the order their lines were read.
pub struct BuildRun {
    pub diagnostics: Vec<Diag>,
}

impl BuildRun {
    /// A run with no record yet: the list is replaced at each new run.
    pub fn new() -> (r: Self)
        ensures
            r.diagnostics@.len() == 0,
    {
        BuildRun { diagnostics: Vec::new() }
    }

    /// Handles one line of standard output: appends its record, if any.
    pub fn push_output_line(&mut self, line: String)
        ensures
            classify_spec(decode_line(line@), line@) is None ==> final(self).diagnostics@ == old(self).diagnostics@,
            classify_spec(decode_line(line@), line@) is Some ==> {
                &&& final(self).diagnostics@.len() == old(self).diagnostics@.len() + 1
                &&& final(self).diagnostics@.drop_last() == old(self).diagnostics@
                &&& Some(final(self).diagnostics@.last()@) == classify_spec(decode_line(line@), line@)
            },
    {
        match diagnostic_from_line(line) {
            Some(d) => {
                self.diagnostics.push(d);
                assert(self.diagnostics@.drop_last() =~= old(self).diagnostics@);
            },
            None => {},
        }
    }

    /// Number of errors (level 1).
    pub fn error_count(&self) -> (r: usize)
        ensures
            r == count_level(self.diagnostics@, 1),
    {
        count_diagnostics(&self.diagnostics, 1)
    }

    /// Number of warnings (level 2).
    pub fn warning_count(&self) -> (r: usize)
        ensures
            r == count_level(self.diagnostics@, 2),
    {
        count_diagnostics(&self.diagnostics, 2)
    }

    /// The summary of the run: "N errors; M warnings" with N records of
    /// level 1 and M of level 2, or a check mark when there are none.
    pub fn summary(&self) -> (r: String)
        ensures
            r@ == summary_spec(count_level(self.diagnostics@, 1), count_level(self.diagnostics@, 2)),
    {
        let e = self.error_count();
        let w = self.warning_count();
        summary_text(e, w)
    }

    /// The build pane stays shown only when the run left a record.
    pub fn keeps_pane_visible(&self) -> (r: bool)
        ensures
            r == (self.diagnostics@.len() > 0),
    {
        self.diagnostics.len() > 0
    }
}

} // verus!
