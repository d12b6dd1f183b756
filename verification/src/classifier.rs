//! The line classifier: what one line is, and what a run of lines counts as.
//!
//! A line is first recognized on its own ([`recognize_line`]), then folded
//! into the pass over its file ([`ClassificationState::observe`]): a
//! structured line is one event, a block of continuation lines is one event
//! under the severity of the structured line before it, an unrecognized line
//! is one event under [`UNKNOWN_SEVERITY`], and a blank line is none.

use crate::config::{LogConfig, LogConfigView};
use crate::grammar::{
    captures,
    is_match,
    pattern_captures,
    pattern_compiles,
    pattern_matches,
    timestamp_is_valid,
    timestamp_parses,
    Grammar,
};
use crate::text::{is_blank, line_is_blank};
use vstd::prelude::*;
use vstd::string::StringExecFns;

verus! {

/// Capture group that holds a structured line's timestamp.
pub const TIME_GROUP: &'static str = "time";

/// Capture group that holds a structured line's severity.
pub const SEVERITY_GROUP: &'static str = "severity";

/// Severity of a structured line whose grammar captures none.
pub const DEFAULT_SEVERITY: &'static str = "info";

/// Severity under which unrecognized lines are counted.
pub const UNKNOWN_SEVERITY: &'static str = "UNKNOWN";

/// Signature of a stack-trace frame: white space, then `at `.
pub const STACK_FRAME_SIGNATURE: &'static str = r"^\s+at ";

/// Signature of an exception header: a dotted name that ends in `Exception:`.
pub const EXCEPTION_SIGNATURE: &'static str = r"^[A-Za-z.]+Exception:";

/// What one line is, taken on its own.
#[derive(Clone, Debug)]
pub enum LineKind {
    /// The line matches the grammar and its timestamp parses.
    Structured { severity: String },
    /// The line matches the grammar, but its timestamp is missing or does not
    /// parse under the source's format.
    BadTimestamp { time: Option<String> },
    /// The line is a stack-trace frame or an exception header.
    Continuation,
    /// The line is none of the above and not blank.
    Unrecognized,
    /// Only white space stands in the line.
    Blank,
}

/// A [`LineKind`] as contracts see it.
pub enum LineKindView {
    Structured { severity: Seq<char> },
    BadTimestamp { time: Option<Seq<char>> },
    Continuation,
    Unrecognized,
    Blank,
}

impl View for LineKind {
    type V = LineKindView;

    open spec fn view(&self) -> LineKindView {
        match self {
            LineKind::Structured { severity } => LineKindView::Structured { severity: severity@ },
            LineKind::BadTimestamp { time } => LineKindView::BadTimestamp {
                time: time.deep_view(),
            },
            LineKind::Continuation => LineKindView::Continuation,
            LineKind::Unrecognized => LineKindView::Unrecognized,
            LineKind::Blank => LineKindView::Blank,
        }
    }
}

/// Where a pass stands between two lines.
#[derive(Clone, Debug)]
pub struct ClassificationState {
    /// Whether the last line that counted was a continuation line.
    pub in_continuation: bool,
    /// Severity of the last structured line of the pass, empty before the
    /// first.
    pub current_severity: String,
}

/// A [`ClassificationState`] as contracts see it.
pub struct StateView {
    pub in_continuation: bool,
    pub current_severity: Seq<char>,
}

impl View for ClassificationState {
    type V = StateView;

    open spec fn view(&self) -> StateView {
        StateView {
            in_continuation: self.in_continuation,
            current_severity: self.current_severity@,
        }
    }
}

/// What one line does to the counters and the diagnostics.
#[derive(Clone, Debug)]
pub enum LineEffect {
    /// One increment of the counter of this severity.
    Increment { severity: String },
    /// One diagnostic about a timestamp that could not be used.
    Diagnostic { time: Option<String> },
    /// Neither.
    Nothing,
}

/// A [`LineEffect`] as contracts see it.
pub enum LineEffectView {
    Increment { severity: Seq<char> },
    Diagnostic { time: Option<Seq<char>> },
    Nothing,
}

impl View for LineEffect {
    type V = LineEffectView;

    open spec fn view(&self) -> LineEffectView {
        match self {
            LineEffect::Increment { severity } => LineEffectView::Increment {
                severity: severity@,
            },
            LineEffect::Diagnostic { time } => LineEffectView::Diagnostic {
                time: time.deep_view(),
            },
            LineEffect::Nothing => LineEffectView::Nothing,
        }
    }
}

/// What a pass over the lines of one file yields.
#[derive(Clone, Debug)]
pub struct PassOutcome {
    /// Severity of each increment, in the order of the lines.
    pub increments: Vec<String>,
    /// The `time` capture of each line whose timestamp could not be used, in
    /// the order of the lines.
    pub bad_timestamps: Vec<Option<String>>,
}

/// The two continuation signatures, compiled once for many lines.
#[derive(Debug)]
pub struct Signatures {
    stack_frame: Option<Grammar>,
    exception_header: Option<Grammar>,
}

/// [`Signatures`] as contracts see them: the text of each signature that
/// compiled, `None` for one that did not.
pub struct SignaturesView {
    pub stack_frame: Option<Seq<char>>,
    pub exception_header: Option<Seq<char>>,
}

impl View for Signatures {
    type V = SignaturesView;

    closed spec fn view(&self) -> SignaturesView {
        SignaturesView {
            stack_frame: match self.stack_frame {
                Some(grammar) => Some(grammar@),
                None => None,
            },
            exception_header: match self.exception_header {
                Some(grammar) => Some(grammar@),
                None => None,
            },
        }
    }
}

/// What compiling `signature` leaves: its text where it compiles, `None`
/// where it does not.
pub open spec fn compiled_text(signature: Seq<char>) -> Option<Seq<char>> {
    if pattern_compiles(signature) {
        Some(signature)
    } else {
        None
    }
}

/// The two continuation signatures, each compiled from its own text.
pub open spec fn compiled_signatures() -> SignaturesView {
    SignaturesView {
        stack_frame: compiled_text(STACK_FRAME_SIGNATURE@),
        exception_header: compiled_text(EXCEPTION_SIGNATURE@),
    }
}

impl Signatures {
    /// There is no other value than the one that [`Signatures::new`] makes.
    #[verifier::type_invariant]
    spec fn well_formed(&self) -> bool {
        self@ == compiled_signatures()
    }
}

/// Whether `line` bears the signature `signature`; a signature that does not
/// compile is borne by no line.
pub open spec fn bears_signature(signature: Seq<char>, line: Seq<char>) -> bool {
    pattern_compiles(signature) && pattern_matches(signature, line)
}

/// Whether a line bears one of the two continuation signatures.
pub open spec fn is_continuation(line: Seq<char>) -> bool {
    bears_signature(STACK_FRAME_SIGNATURE@, line) || bears_signature(EXCEPTION_SIGNATURE@, line)
}

/// The kind of a line, from what the pattern engine and the timestamp parser
/// found in it. `found` holds the captures `time` and `severity` of the
/// grammar's match, `time_valid` says whether the `time` capture parses. The
/// grammar comes first, then the continuation signatures, then blankness.
pub open spec fn kind_from(
    found: Option<(Option<Seq<char>>, Option<Seq<char>>)>,
    time_valid: bool,
    continuation: bool,
    blank: bool,
) -> LineKindView {
    match found {
        Some((time, severity)) => {
            if time is Some && time_valid {
                LineKindView::Structured {
                    severity: match severity {
                        Some(text) => text,
                        None => DEFAULT_SEVERITY@,
                    },
                }
            } else {
                LineKindView::BadTimestamp { time }
            }
        },
        None => {
            if continuation {
                LineKindView::Continuation
            } else if blank {
                LineKindView::Blank
            } else {
                LineKindView::Unrecognized
            }
        },
    }
}

/// Whether the `time` capture of a match is there and parses under `format`.
pub open spec fn time_capture_parses(
    found: Option<(Option<Seq<char>>, Option<Seq<char>>)>,
    format: Seq<char>,
) -> bool {
    match found {
        Some((Some(time), _)) => timestamp_parses(time, format),
        _ => false,
    }
}

/// The kind of `line` for the source `config`.
pub open spec fn line_kind(config: LogConfigView, line: Seq<char>) -> LineKindView {
    let found = pattern_captures(config.regex, line, TIME_GROUP@, SEVERITY_GROUP@);
    kind_from(
        found,
        time_capture_parses(found, config.time_format),
        is_continuation(line),
        is_blank(line),
    )
}

/// The kinds of a run of lines, line by line.
pub open spec fn kinds_of(config: LogConfigView, lines: Seq<Seq<char>>) -> Seq<LineKindView> {
    lines.map_values(|line: Seq<char>| line_kind(config, line))
}

/// The state in which every pass starts.
pub open spec fn initial_state() -> StateView {
    StateView { in_continuation: false, current_severity: Seq::empty() }
}

/// The state after a line of kind `kind` was seen in state `state`.
pub open spec fn next_state(state: StateView, kind: LineKindView) -> StateView {
    match kind {
        LineKindView::Structured { severity } => StateView {
            in_continuation: false,
            current_severity: severity,
        },
        LineKindView::BadTimestamp { .. } => state,
        LineKindView::Continuation => StateView {
            in_continuation: true,
            current_severity: state.current_severity,
        },
        LineKindView::Unrecognized => StateView {
            in_continuation: false,
            current_severity: state.current_severity,
        },
        LineKindView::Blank => state,
    }
}

/// What a line of kind `kind` does when it is seen in state `state`.
pub open spec fn effect_of(state: StateView, kind: LineKindView) -> LineEffectView {
    match kind {
        LineKindView::Structured { severity } => LineEffectView::Increment { severity },
        LineKindView::BadTimestamp { time } => LineEffectView::Diagnostic { time },
        LineKindView::Continuation => {
            if state.in_continuation {
                LineEffectView::Nothing
            } else {
                LineEffectView::Increment { severity: state.current_severity }
            }
        },
        LineKindView::Unrecognized => LineEffectView::Increment { severity: UNKNOWN_SEVERITY@ },
        LineKindView::Blank => LineEffectView::Nothing,
    }
}

/// The state after the lines `kinds` were seen, one after the other, from
/// the state `start`.
pub open spec fn state_after(start: StateView, kinds: Seq<LineKindView>) -> StateView
    decreases kinds.len(),
{
    if kinds.len() == 0 {
        start
    } else {
        next_state(state_after(start, kinds.drop_last()), kinds.last())
    }
}

/// The effect of each of the lines `kinds`, seen one after the other from the
/// state `start`: one effect per line.
pub open spec fn effects_of(start: StateView, kinds: Seq<LineKindView>) -> Seq<LineEffectView> {
    Seq::new(kinds.len(), |i: int| effect_of(state_after(start, kinds.take(i)), kinds[i]))
}

/// The severities of the increments among `effects`, in order.
pub open spec fn increments_in(effects: Seq<LineEffectView>) -> Seq<Seq<char>>
    decreases effects.len(),
{
    if effects.len() == 0 {
        Seq::empty()
    } else {
        match effects.last() {
            LineEffectView::Increment { severity } => increments_in(effects.drop_last()).push(
                severity,
            ),
            _ => increments_in(effects.drop_last()),
        }
    }
}

/// The `time` captures of the diagnostics among `effects`, in order.
pub open spec fn diagnostics_in(effects: Seq<LineEffectView>) -> Seq<Option<Seq<char>>>
    decreases effects.len(),
{
    if effects.len() == 0 {
        Seq::empty()
    } else {
        match effects.last() {
            LineEffectView::Diagnostic { time } => diagnostics_in(effects.drop_last()).push(time),
            _ => diagnostics_in(effects.drop_last()),
        }
    }
}

/// The increments of a pass over `lines`, which starts in the initial state.
pub open spec fn pass_increments(config: LogConfigView, lines: Seq<Seq<char>>) -> Seq<Seq<char>> {
    increments_in(effects_of(initial_state(), kinds_of(config, lines)))
}

/// The diagnostics of a pass over `lines`, which starts in the initial state.
pub open spec fn pass_diagnostics(config: LogConfigView, lines: Seq<Seq<char>>) -> Seq<
    Option<Seq<char>>,
> {
    diagnostics_in(effects_of(initial_state(), kinds_of(config, lines)))
}

/// Decides the kind of a line from what was found in it: the captures `time`
/// and `severity` of the grammar's match, whether the `time` capture parses,
/// whether the line bears a continuation signature, whether it is blank.
pub fn kind_of(
    found: Option<(Option<String>, Option<String>)>,
    time_valid: bool,
    continuation: bool,
    blank: bool,
) -> (kind: LineKind)
    ensures
        kind@ == kind_from(found.deep_view(), time_valid, continuation, blank),
{
    match found {
        Some((time, severity)) => {
            if time.is_some() && time_valid {
                match severity {
                    Some(text) => LineKind::Structured { severity: text },
                    None => LineKind::Structured { severity: String::from_str(DEFAULT_SEVERITY) },
                }
            } else {
                LineKind::BadTimestamp { time }
            }
        },
        None => {
            if continuation {
                LineKind::Continuation
            } else if blank {
                LineKind::Blank
            } else {
                LineKind::Unrecognized
            }
        },
    }
}

/// Tests a line for one signature.
fn signature_found(signature: &Option<Grammar>, line: &str) -> (found: bool)
    ensures
        signature matches Some(grammar) ==> found == pattern_matches(grammar@, line@),
        signature is None ==> !found,
{
    match signature {
        Some(grammar) => is_match(grammar, line),
        None => false,
    }
}

impl Signatures {
    /// Compiles the two signatures: the stack-trace frame and the exception
    /// header, each from its own text, and keeps each that compiles.
    pub fn new() -> (signatures: Signatures)
        ensures
            signatures@ == compiled_signatures(),
    {
        Signatures {
            stack_frame: Grammar::new(STACK_FRAME_SIGNATURE),
            exception_header: Grammar::new(EXCEPTION_SIGNATURE),
        }
    }

    /// Whether both signatures compiled. Where one did not, no line bears
    /// it, and its continuation lines would count as unknown: a caller tests
    /// this once, before the first poll.
    pub fn compiled(&self) -> (ok: bool)
        ensures
            ok == (pattern_compiles(STACK_FRAME_SIGNATURE@) && pattern_compiles(
                EXCEPTION_SIGNATURE@,
            )),
    {
        proof {
            use_type_invariant(self);
        }
        self.stack_frame.is_some() && self.exception_header.is_some()
    }

    /// Tests a line for the two continuation signatures.
    pub fn found_in(&self, line: &str) -> (found: bool)
        ensures
            found == is_continuation(line@),
    {
        proof {
            use_type_invariant(self);
        }
        signature_found(&self.stack_frame, line) || signature_found(&self.exception_header, line)
    }
}

/// Recognizes one line of the source `config`.
pub fn recognize_line(config: &LogConfig, signatures: &Signatures, line: &str) -> (kind: LineKind)
    ensures
        kind@ == line_kind(config@, line@),
{
    let found = captures(&config.regex, line, TIME_GROUP, SEVERITY_GROUP);
    match &found {
        Some((time, _)) => {
            let time_valid = match time {
                Some(text) => timestamp_is_valid(text.as_str(), config.time_format.as_str()),
                None => false,
            };
            kind_of(found, time_valid, false, false)
        },
        None => {
            let continuation = signatures.found_in(line);
            let blank = !continuation && line_is_blank(line);
            kind_of(found, false, continuation, blank)
        },
    }
}

impl ClassificationState {
    /// The state in which a pass starts: no continuation block is open and no
    /// severity was seen.
    pub fn new() -> (state: ClassificationState)
        ensures
            state@ == initial_state(),
    {
        ClassificationState { in_continuation: false, current_severity: String::new() }
    }

    /// Takes the next line of the pass: moves to the next state and says what
    /// the line does.
    pub fn observe(&mut self, kind: LineKind) -> (effect: LineEffect)
        ensures
            final(self)@ == next_state(old(self)@, kind@),
            effect@ == effect_of(old(self)@, kind@),
    {
        match kind {
            LineKind::Structured { severity } => {
                self.in_continuation = false;
                self.current_severity = severity.clone();
                LineEffect::Increment { severity }
            },
            LineKind::BadTimestamp { time } => LineEffect::Diagnostic { time },
            LineKind::Continuation => {
                if self.in_continuation {
                    LineEffect::Nothing
                } else {
                    self.in_continuation = true;
                    LineEffect::Increment { severity: self.current_severity.clone() }
                }
            },
            LineKind::Unrecognized => {
                self.in_continuation = false;
                LineEffect::Increment { severity: String::from_str(UNKNOWN_SEVERITY) }
            },
            LineKind::Blank => LineEffect::Nothing,
        }
    }
}

/// Seeing one more line adds its effect behind those of the lines before it.
pub proof fn lemma_effects_extend(start: StateView, kinds: Seq<LineKindView>)
    requires
        kinds.len() > 0,
    ensures
        effects_of(start, kinds) == effects_of(start, kinds.drop_last()).push(
            effect_of(state_after(start, kinds.drop_last()), kinds.last()),
        ),
{
    let shorter = kinds.drop_last();
    let extended = effects_of(start, shorter).push(effect_of(state_after(start, shorter), kinds.last()));
    assert(effects_of(start, kinds).len() == extended.len());
    assert forall|i: int| 0 <= i < kinds.len() implies effects_of(start, kinds)[i] == extended[i] by {
        if i < shorter.len() {
            assert(kinds.take(i) =~= shorter.take(i));
        } else {
            assert(kinds.take(i) =~= shorter);
        }
    }
    assert(effects_of(start, kinds) =~= extended);
}

/// Runs one pass of the classifier over the lines of a file: each line is
/// recognized and folded into the pass, which starts in the initial state.
pub fn classify_lines(config: &LogConfig, signatures: &Signatures, lines: &Vec<String>) -> (outcome:
    PassOutcome)
    ensures
        outcome.increments.deep_view() == pass_increments(config@, lines.deep_view()),
        outcome.bad_timestamps.deep_view() == pass_diagnostics(config@, lines.deep_view()),
{
    let mut state = ClassificationState::new();
    let mut increments: Vec<String> = Vec::new();
    let mut bad_timestamps: Vec<Option<String>> = Vec::new();
    let ghost kinds = kinds_of(config@, lines.deep_view());
    let mut i: usize = 0;
    assert(kinds.take(0) =~= Seq::<LineKindView>::empty());
    assert(increments.deep_view() =~= Seq::<Seq<char>>::empty());
    assert(bad_timestamps.deep_view() =~= Seq::<Option<Seq<char>>>::empty());
    while i < lines.len()
        invariant
            i <= lines.len(),
            kinds == kinds_of(config@, lines.deep_view()),
            kinds.len() == lines.len(),
            state@ == state_after(initial_state(), kinds.take(i as int)),
            increments.deep_view() == increments_in(
                effects_of(initial_state(), kinds.take(i as int)),
            ),
            bad_timestamps.deep_view() == diagnostics_in(
                effects_of(initial_state(), kinds.take(i as int)),
            ),
        decreases lines.len() - i,
    {
        let kind = recognize_line(config, signatures, lines[i].as_str());
        let ghost seen = kinds.take(i as int);
        let ghost more = kinds.take(i + 1);
        proof {
            assert(lines.deep_view()[i as int] == lines[i as int]@);
            assert(kind@ == kinds[i as int]);
            assert(more.drop_last() =~= seen);
            assert(more.last() == kinds[i as int]);
            lemma_effects_extend(initial_state(), more);
            assert(effects_of(initial_state(), more).drop_last() =~= effects_of(
                initial_state(),
                seen,
            ));
        }
        let effect = state.observe(kind);
        let ghost before_increments = increments.deep_view();
        let ghost before_diagnostics = bad_timestamps.deep_view();
        match effect {
            LineEffect::Increment { severity } => {
                increments.push(severity);
                assert(increments.deep_view() =~= before_increments.push(severity@));
            },
            LineEffect::Diagnostic { time } => {
                bad_timestamps.push(time);
                assert(bad_timestamps.deep_view() =~= before_diagnostics.push(time.deep_view()));
            },
            LineEffect::Nothing => {},
        }
        i = i + 1;
    }
    assert(kinds.take(lines.len() as int) =~= kinds);
    PassOutcome { increments, bad_timestamps }
}

} // verus!
