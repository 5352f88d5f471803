//! What a test expects of a compiler run or of the compiled binary.
use vstd::prelude::*;
use crate::text::{decimal, u64_to_decimal};

verus! {

/// A signal that a crashing binary is expected to die from.
#[derive(Debug, Clone, Copy, PartialEq, Eq, Structural)]
pub enum CrashSignal {
    Abort,
    SegmentationFault,
    FloatingPointException,
}

/// The stage at which a compiler is expected to reject its input.
#[derive(Debug, Clone, Copy, PartialEq, Eq, Structural)]
pub enum CompilerFailReason {
    Parsing,
    SemanticAnalysis,
}

/// One expectation or input of a test.
#[derive(Debug, Clone)]
pub enum TestModifier {
    ExitCode { code: u8 },
    ExpectedOutput { output: String },
    ProgramArgument { arg: String },
    ProgramArgumentFile { contents: String },
    ProgramInput { input: String },
    ShouldCrash { signal: CrashSignal },
    ShouldFail { reason: CompilerFailReason },
    ShouldSucceed,
    ShouldTimeout,
}

/// The abstract value of a [`TestModifier`].
pub enum ModifierView {
    ExitCode { code: u8 },
    ExpectedOutput { output: Seq<char> },
    ProgramArgument { arg: Seq<char> },
    ProgramArgumentFile { contents: Seq<char> },
    ProgramInput { input: Seq<char> },
    ShouldCrash { signal: CrashSignal },
    ShouldFail { reason: CompilerFailReason },
    ShouldSucceed,
    ShouldTimeout,
}

impl View for TestModifier {
    type V = ModifierView;

    open spec fn view(&self) -> ModifierView {
        match self {
            TestModifier::ExitCode { code } => ModifierView::ExitCode { code: *code },
            TestModifier::ExpectedOutput { output } => ModifierView::ExpectedOutput { output: output@ },
            TestModifier::ProgramArgument { arg } => ModifierView::ProgramArgument { arg: arg@ },
            TestModifier::ProgramArgumentFile { contents } => ModifierView::ProgramArgumentFile {
                contents: contents@,
            },
            TestModifier::ProgramInput { input } => ModifierView::ProgramInput { input: input@ },
            TestModifier::ShouldCrash { signal } => ModifierView::ShouldCrash { signal: *signal },
            TestModifier::ShouldFail { reason } => ModifierView::ShouldFail { reason: *reason },
            TestModifier::ShouldSucceed => ModifierView::ShouldSucceed,
            TestModifier::ShouldTimeout => ModifierView::ShouldTimeout,
        }
    }
}

/// The views of a sequence of modifiers.
pub open spec fn modifiers_view(v: Seq<TestModifier>) -> Seq<ModifierView> {
    v.map_values(|m: TestModifier| m@)
}

/// The name of a crash signal.
pub open spec fn signal_name(s: CrashSignal) -> Seq<char> {
    match s {
        CrashSignal::Abort => "Abort"@,
        CrashSignal::SegmentationFault => "SegmentationFault"@,
        CrashSignal::FloatingPointException => "FloatingPointException"@,
    }
}

/// The name of a compiler fail reason.
pub open spec fn reason_name(r: CompilerFailReason) -> Seq<char> {
    match r {
        CompilerFailReason::Parsing => "Parsing"@,
        CompilerFailReason::SemanticAnalysis => "SemanticAnalysis"@,
    }
}

/// The name of a modifier, under which it is written in a test file.
pub open spec fn modifier_name_spec(m: ModifierView) -> Seq<char> {
    match m {
        ModifierView::ExitCode { .. } => "ExitCode"@,
        ModifierView::ExpectedOutput { .. } => "ExpectedOutput"@,
        ModifierView::ProgramArgument { .. } => "ProgramArgument"@,
        ModifierView::ProgramArgumentFile { .. } => "ProgramArgumentFile"@,
        ModifierView::ProgramInput { .. } => "ProgramInput"@,
        ModifierView::ShouldCrash { .. } => "ShouldCrash"@,
        ModifierView::ShouldFail { .. } => "ShouldFail"@,
        ModifierView::ShouldSucceed => "ShouldSucceed"@,
        ModifierView::ShouldTimeout => "ShouldTimeout"@,
    }
}

/// The argument of a modifier, as it is written in a test file.
pub open spec fn modifier_arg_spec(m: ModifierView) -> Option<Seq<char>> {
    match m {
        ModifierView::ExitCode { code } => Some(decimal(code as nat)),
        ModifierView::ExpectedOutput { output } => Some(output),
        ModifierView::ProgramArgument { arg } => Some(arg),
        ModifierView::ProgramArgumentFile { contents } => Some(contents),
        ModifierView::ProgramInput { input } => Some(input),
        ModifierView::ShouldCrash { signal } => Some(signal_name(signal)),
        ModifierView::ShouldFail { reason } => Some(reason_name(reason)),
        ModifierView::ShouldSucceed => None,
        ModifierView::ShouldTimeout => None,
    }
}

impl CrashSignal {
    /// The name of this signal.
    pub fn name(&self) -> (res: String)
        ensures
            res@ == signal_name(*self),
    {
        match self {
            CrashSignal::Abort => String::from_str("Abort"),
            CrashSignal::SegmentationFault => String::from_str("SegmentationFault"),
            CrashSignal::FloatingPointException => String::from_str("FloatingPointException"),
        }
    }
}

impl CompilerFailReason {
    /// The name of this reason.
    pub fn name(&self) -> (res: String)
        ensures
            res@ == reason_name(*self),
    {
        match self {
            CompilerFailReason::Parsing => String::from_str("Parsing"),
            CompilerFailReason::SemanticAnalysis => String::from_str("SemanticAnalysis"),
        }
    }
}

impl TestModifier {
    /// The name of this modifier.
    pub fn name(&self) -> (res: String)
        ensures
            res@ == modifier_name_spec(self@),
    {
        match self {
            TestModifier::ExitCode { .. } => String::from_str("ExitCode"),
            TestModifier::ExpectedOutput { .. } => String::from_str("ExpectedOutput"),
            TestModifier::ProgramArgument { .. } => String::from_str("ProgramArgument"),
            TestModifier::ProgramArgumentFile { .. } => String::from_str("ProgramArgumentFile"),
            TestModifier::ProgramInput { .. } => String::from_str("ProgramInput"),
            TestModifier::ShouldCrash { .. } => String::from_str("ShouldCrash"),
            TestModifier::ShouldFail { .. } => String::from_str("ShouldFail"),
            TestModifier::ShouldSucceed => String::from_str("ShouldSucceed"),
            TestModifier::ShouldTimeout => String::from_str("ShouldTimeout"),
        }
    }

    /// A copy of this modifier.
    pub fn duplicate(&self) -> (res: Self)
        ensures
            res@ == self@,
    {
        match self {
            TestModifier::ExitCode { code } => TestModifier::ExitCode { code: *code },
            TestModifier::ExpectedOutput { output } => TestModifier::ExpectedOutput { output: output.clone() },
            TestModifier::ProgramArgument { arg } => TestModifier::ProgramArgument { arg: arg.clone() },
            TestModifier::ProgramArgumentFile { contents } => TestModifier::ProgramArgumentFile {
                contents: contents.clone(),
            },
            TestModifier::ProgramInput { input } => TestModifier::ProgramInput { input: input.clone() },
            TestModifier::ShouldCrash { signal } => TestModifier::ShouldCrash { signal: *signal },
            TestModifier::ShouldFail { reason } => TestModifier::ShouldFail { reason: *reason },
            TestModifier::ShouldSucceed => TestModifier::ShouldSucceed,
            TestModifier::ShouldTimeout => TestModifier::ShouldTimeout,
        }
    }
}

/// The argument of `modifier` as it is written in a test file; `None` for the modifiers that
/// take none.
pub fn modifier_arg_to_string(modifier: &TestModifier) -> (res: Option<String>)
    ensures
        match modifier_arg_spec(modifier@) {
            Some(a) => res matches Some(r) && r@ == a,
            None => res is None,
        },
{
    match modifier {
        TestModifier::ExitCode { code } => Some(u64_to_decimal(*code as u64)),
        TestModifier::ExpectedOutput { output } => Some(output.clone()),
        TestModifier::ProgramArgument { arg } => Some(arg.clone()),
        TestModifier::ProgramArgumentFile { contents } => Some(contents.clone()),
        TestModifier::ProgramInput { input } => Some(input.clone()),
        TestModifier::ShouldCrash { signal } => Some(signal.name()),
        TestModifier::ShouldFail { reason } => Some(reason.name()),
        TestModifier::ShouldSucceed => None,
        TestModifier::ShouldTimeout => None,
    }
}

} // verus!
