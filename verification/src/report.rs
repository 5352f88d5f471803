//! The layout of a run's report as the client prints it: which texts appear, in which order,
//! and how each is to be shown. Colors and indentation are left to the terminal side.
use vstd::prelude::*;
use crate::execution::ExecutionOutput;
use crate::text::{concat3, trim, trim_spec, u64_to_decimal, decimal};

verus! {

/// How a piece of a report is shown.
#[derive(Debug, Clone, Copy, PartialEq, Eq, Structural)]
pub enum PieceKind {
    /// As it is.
    Plain,
    /// Bright red: an outcome that went wrong.
    Alarm,
    /// Bright green: an outcome that went right.
    Good,
    /// Bold: the heading of a section.
    Heading,
    /// Indented one level.
    Indented,
    /// A unified diff, colored line by line, indented one level.
    IndentedDiff,
}

/// One piece of a report.
#[derive(Debug, Clone)]
pub struct ReportPiece {
    pub kind: PieceKind,
    pub text: String,
}

/// The pieces of a report, by kind and text.
pub open spec fn pieces_view(v: Seq<ReportPiece>) -> Seq<(PieceKind, Seq<char>)> {
    v.map_values(|p: ReportPiece| (p.kind, p.text@))
}

/// `" after <seconds>s"` with the whole seconds of `ms` milliseconds.
pub open spec fn after_secs(ms: u64) -> Seq<char> {
    " after "@ + decimal((ms / 1000) as nat) + "s"@
}

/// The report of a finished or aborted run: its opening, the outcome, the runtime, and its
/// trimmed standard output and error, each under its heading.
pub open spec fn output_sections(stdout: Seq<char>, stderr_piece: (PieceKind, Seq<char>)) -> Seq<
    (PieceKind, Seq<char>),
> {
    seq![
        (PieceKind::Heading, "\nStdout:\n"@),
        (PieceKind::Indented, trim_spec(stdout)),
        (PieceKind::Heading, "\nStderr:\n"@),
        stderr_piece,
        (PieceKind::Plain, "\n"@),
    ]
}

/// The report of a run.
pub open spec fn report_spec(o: ExecutionOutput) -> Seq<(PieceKind, Seq<char>)> {
    match o {
        ExecutionOutput::Aborted(e) => seq![
            (PieceKind::Plain, "Execution was "@),
            (PieceKind::Alarm, "aborted"@),
            (PieceKind::Plain, after_secs(e.runtime_ms)),
        ] + output_sections(e.stdout@, (PieceKind::Indented, trim_spec(e.stderr@))),
        ExecutionOutput::Error(e) => seq![
            (PieceKind::Plain, "Execution encountered "@),
            (PieceKind::Alarm, "an internal error"@),
            (PieceKind::Plain, after_secs(e.runtime_ms)),
            (PieceKind::Heading, "\nMessage:\n"@),
            (PieceKind::Indented, e.message@),
            (PieceKind::Plain, "\n"@),
        ],
        ExecutionOutput::Success(e) => seq![
            (PieceKind::Plain, "Execution was "@),
            (PieceKind::Good, "successful"@),
            (PieceKind::Plain, after_secs(e.runtime_ms)),
        ] + output_sections(e.stdout@, (PieceKind::Indented, trim_spec(e.stderr@))),
        ExecutionOutput::Failure { execution: e, accumulated_errors } => seq![
            (PieceKind::Plain, "Execution was "@),
            (PieceKind::Alarm, "unsuccessful"@),
            (PieceKind::Plain, after_secs(e.runtime_ms)),
            (PieceKind::Heading, "\nErrors:\n"@),
            (PieceKind::Indented, match accumulated_errors {
                Some(a) => a@,
                None => "No specific errors provided"@,
            }),
        ] + output_sections(e.stdout@, (PieceKind::IndentedDiff, trim_spec(e.stderr@))),
        ExecutionOutput::Timeout(e) => seq![
            (PieceKind::Plain, "Execution timed out"@),
            (PieceKind::Alarm, "timed out "@),
            (PieceKind::Plain, "after "@ + decimal((e.runtime_ms / 1000) as nat) + "s"@),
        ] + output_sections(e.stdout@, (PieceKind::Indented, trim_spec(e.stderr@))),
    }
}

fn piece(kind: PieceKind, text: &str) -> (res: ReportPiece)
    ensures
        res.kind == kind,
        res.text@ == text@,
{
    ReportPiece { kind, text: String::from_str(text) }
}

fn runtime_text(ms: u64) -> (res: String)
    ensures
        res@ == after_secs(ms),
{
    let secs = u64_to_decimal(ms / 1000);
    concat3(" after ", secs.as_str(), "s")
}

fn push_sections(v: &mut Vec<ReportPiece>, stdout: &str, stderr: &str, stderr_kind: PieceKind)
    ensures
        pieces_view(final(v)@) == pieces_view(old(v)@) + output_sections(stdout@, (stderr_kind, trim_spec(stderr@))),
{
    let ghost before = v@;
    v.push(piece(PieceKind::Heading, "\nStdout:\n"));
    v.push(ReportPiece { kind: PieceKind::Indented, text: trim(stdout) });
    v.push(piece(PieceKind::Heading, "\nStderr:\n"));
    v.push(ReportPiece { kind: stderr_kind, text: trim(stderr) });
    v.push(piece(PieceKind::Plain, "\n"));
    assert(pieces_view(v@) =~= pieces_view(before) + output_sections(stdout@, (stderr_kind, trim_spec(stderr@))));
}

/// The report of a run, piece by piece: how it went, after how many whole seconds, and its
/// output (or message, or gathered errors) under headings.
pub fn execution_output_report(o: &ExecutionOutput) -> (res: Vec<ReportPiece>)
    ensures
        pieces_view(res@) == report_spec(*o),
{
    let mut v: Vec<ReportPiece> = Vec::new();
    match o {
        ExecutionOutput::Aborted(e) => {
            v.push(piece(PieceKind::Plain, "Execution was "));
            v.push(piece(PieceKind::Alarm, "aborted"));
            v.push(ReportPiece { kind: PieceKind::Plain, text: runtime_text(e.runtime_ms) });
            assert(pieces_view(v@) =~= seq![
                (PieceKind::Plain, "Execution was "@),
                (PieceKind::Alarm, "aborted"@),
                (PieceKind::Plain, after_secs(e.runtime_ms)),
            ]);
            push_sections(&mut v, e.stdout.as_str(), e.stderr.as_str(), PieceKind::Indented);
        },
        ExecutionOutput::Error(e) => {
            v.push(piece(PieceKind::Plain, "Execution encountered "));
            v.push(piece(PieceKind::Alarm, "an internal error"));
            v.push(ReportPiece { kind: PieceKind::Plain, text: runtime_text(e.runtime_ms) });
            v.push(piece(PieceKind::Heading, "\nMessage:\n"));
            v.push(ReportPiece { kind: PieceKind::Indented, text: e.message.clone() });
            v.push(piece(PieceKind::Plain, "\n"));
            assert(pieces_view(v@) =~= report_spec(*o));
        },
        ExecutionOutput::Success(e) => {
            v.push(piece(PieceKind::Plain, "Execution was "));
            v.push(piece(PieceKind::Good, "successful"));
            v.push(ReportPiece { kind: PieceKind::Plain, text: runtime_text(e.runtime_ms) });
            assert(pieces_view(v@) =~= seq![
                (PieceKind::Plain, "Execution was "@),
                (PieceKind::Good, "successful"@),
                (PieceKind::Plain, after_secs(e.runtime_ms)),
            ]);
            push_sections(&mut v, e.stdout.as_str(), e.stderr.as_str(), PieceKind::Indented);
        },
        ExecutionOutput::Failure { execution: e, accumulated_errors } => {
            v.push(piece(PieceKind::Plain, "Execution was "));
            v.push(piece(PieceKind::Alarm, "unsuccessful"));
            v.push(ReportPiece { kind: PieceKind::Plain, text: runtime_text(e.runtime_ms) });
            v.push(piece(PieceKind::Heading, "\nErrors:\n"));
            let errors = match accumulated_errors {
                Some(a) => a.clone(),
                None => String::from_str("No specific errors provided"),
            };
            v.push(ReportPiece { kind: PieceKind::Indented, text: errors });
            assert(pieces_view(v@) =~= seq![
                (PieceKind::Plain, "Execution was "@),
                (PieceKind::Alarm, "unsuccessful"@),
                (PieceKind::Plain, after_secs(e.runtime_ms)),
                (PieceKind::Heading, "\nErrors:\n"@),
                (PieceKind::Indented, match *accumulated_errors {
                    Some(a) => a@,
                    None => "No specific errors provided"@,
                }),
            ]);
            push_sections(&mut v, e.stdout.as_str(), e.stderr.as_str(), PieceKind::IndentedDiff);
        },
        ExecutionOutput::Timeout(e) => {
            v.push(piece(PieceKind::Plain, "Execution timed out"));
            v.push(piece(PieceKind::Alarm, "timed out "));
            let secs = u64_to_decimal(e.runtime_ms / 1000);
            v.push(ReportPiece { kind: PieceKind::Plain, text: concat3("after ", secs.as_str(), "s") });
            assert(pieces_view(v@) =~= seq![
                (PieceKind::Plain, "Execution timed out"@),
                (PieceKind::Alarm, "timed out "@),
                (PieceKind::Plain, "after "@ + decimal((e.runtime_ms / 1000) as nat) + "s"@),
            ]);
            push_sections(&mut v, e.stdout.as_str(), e.stderr.as_str(), PieceKind::Indented);
        },
    }
    v
}

} // verus!
