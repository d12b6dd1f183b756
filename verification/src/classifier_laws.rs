//! What holds of every pass of the classifier.

use crate::classifier::{
    effect_of,
    effects_of,
    diagnostics_in,
    increments_in,
    initial_state,
    is_continuation,
    lemma_effects_extend,
    line_kind,
    next_state,
    state_after,
    time_capture_parses,
    LineEffectView,
    LineKindView,
    StateView,
    SEVERITY_GROUP,
    TIME_GROUP,
    UNKNOWN_SEVERITY,
};
use crate::config::LogConfigView;
use crate::grammar::pattern_captures;
use crate::text::is_blank;
use vstd::prelude::*;

verus! {

/// One structured line of severity `severity`, then `frames` continuation
/// lines.
pub open spec fn structured_then_frames(severity: Seq<char>, frames: nat) -> Seq<LineKindView> {
    seq![LineKindView::Structured { severity }] + Seq::new(
        frames,
        |i: int| LineKindView::Continuation,
    )
}

/// Whether a line of this kind closes the continuation block it follows.
pub open spec fn closes_block(kind: LineKindView) -> bool {
    kind is Structured || kind is Unrecognized
}

/// Whether the continuation line at `from` opens or carries on a block that
/// no line before `at` closes.
pub open spec fn block_reaches(kinds: Seq<LineKindView>, from: int, at: int) -> bool {
    &&& 0 <= from < at
    &&& kinds[from] is Continuation
    &&& forall|k: int| from < k < at ==> !closes_block(#[trigger] kinds[k])
}

/// Whether a continuation block is open when the line at `at` is seen, in a
/// pass that starts with the first of `kinds`.
pub open spec fn in_open_block(kinds: Seq<LineKindView>, at: int) -> bool {
    exists|from: int| block_reaches(kinds, from, at)
}

/// Whether the line at `at` is a logical event: a structured line, an
/// unrecognized line, or the continuation line that opens a block.
pub open spec fn is_event(kinds: Seq<LineKindView>, at: int) -> bool {
    match kinds[at] {
        LineKindView::Structured { .. } => true,
        LineKindView::Unrecognized => true,
        LineKindView::Continuation => !in_open_block(kinds, at),
        _ => false,
    }
}

/// The number of logical events among the lines `kinds`: structured lines,
/// continuation blocks and unrecognized lines.
pub open spec fn logical_events(kinds: Seq<LineKindView>) -> nat
    decreases kinds.len(),
{
    if kinds.len() == 0 {
        0
    } else {
        logical_events(kinds.drop_last()) + if is_event(kinds, kinds.len() - 1) {
            1nat
        } else {
            0nat
        }
    }
}

/// A structured line followed by one or more continuation lines counts twice
/// under the line's severity, however many continuation lines there are and
/// whatever came before: once for the line, once for the block.
pub proof fn lemma_stack_trace_counts_twice(start: StateView, severity: Seq<char>, frames: nat)
    requires
        frames >= 1,
    ensures
        increments_in(effects_of(start, structured_then_frames(severity, frames))) == seq![
            severity,
            severity,
        ],
        state_after(start, structured_then_frames(severity, frames)) == (StateView {
            in_continuation: true,
            current_severity: severity,
        }),
    decreases frames,
{
    let kinds = structured_then_frames(severity, frames);
    let shorter = structured_then_frames(severity, (frames - 1) as nat);
    assert(kinds.drop_last() =~= shorter);
    assert(kinds.last() == LineKindView::Continuation);
    lemma_effects_extend(start, kinds);
    assert(effects_of(start, kinds).drop_last() =~= effects_of(start, shorter));
    if frames == 1 {
        let alone = seq![LineKindView::Structured { severity }];
        assert(shorter =~= alone);
        assert(alone.drop_last() =~= Seq::<LineKindView>::empty());
        assert(state_after(start, alone) == next_state(start, alone.last()));
        lemma_effects_extend(start, alone);
        assert(effects_of(start, alone) =~= seq![LineEffectView::Increment { severity }]);
        assert(effects_of(start, alone).drop_last() =~= Seq::<LineEffectView>::empty());
        assert(increments_in(Seq::<LineEffectView>::empty()) =~= Seq::<Seq<char>>::empty());
        assert(increments_in(effects_of(start, alone)) =~= seq![severity]);
        assert(increments_in(effects_of(start, kinds)) =~= seq![severity, severity]);
    } else {
        lemma_stack_trace_counts_twice(start, severity, (frames - 1) as nat);
    }
}

/// A line that matches the grammar but whose timestamp is missing or does
/// not parse is a diagnostic and nothing else: it adds no increment and
/// leaves the state of the pass as it was.
pub proof fn lemma_bad_timestamp_not_counted(
    config: LogConfigView,
    state: StateView,
    line: Seq<char>,
)
    requires
        pattern_captures(config.regex, line, TIME_GROUP@, SEVERITY_GROUP@) is Some,
        !time_capture_parses(
            pattern_captures(config.regex, line, TIME_GROUP@, SEVERITY_GROUP@),
            config.time_format,
        ),
    ensures
        line_kind(config, line) is BadTimestamp,
        next_state(state, line_kind(config, line)) == state,
        increments_in(effects_of(state, seq![line_kind(config, line)])) == Seq::<
            Seq<char>,
        >::empty(),
        diagnostics_in(effects_of(state, seq![line_kind(config, line)])).len() == 1,
{
    let kind = line_kind(config, line);
    let alone = seq![kind];
    assert(alone.drop_last() =~= Seq::<LineKindView>::empty());
    lemma_effects_extend(state, alone);
    let effects = effects_of(state, alone);
    assert(effects =~= seq![effect_of(state, kind)]);
    assert(effects.drop_last() =~= Seq::<LineEffectView>::empty());
    assert(increments_in(Seq::<LineEffectView>::empty()) =~= Seq::<Seq<char>>::empty());
    assert(diagnostics_in(Seq::<LineEffectView>::empty()) =~= Seq::<Option<Seq<char>>>::empty());
}

/// A line that is not blank, does not match the grammar and bears no
/// continuation signature counts once, as unknown, and closes the block it
/// follows.
pub proof fn lemma_unrecognized_counts_as_unknown(
    config: LogConfigView,
    state: StateView,
    line: Seq<char>,
)
    requires
        pattern_captures(config.regex, line, TIME_GROUP@, SEVERITY_GROUP@) is None,
        !is_continuation(line),
        !is_blank(line),
    ensures
        line_kind(config, line) is Unrecognized,
        effect_of(state, line_kind(config, line)) == (LineEffectView::Increment {
            severity: UNKNOWN_SEVERITY@,
        }),
        next_state(state, line_kind(config, line)) == (StateView {
            in_continuation: false,
            current_severity: state.current_severity,
        }),
{
}

/// Lines that stand before `at` alone decide whether a block is open there.
proof fn lemma_open_block_of_prefix(kinds: Seq<LineKindView>, prefix: Seq<LineKindView>, at: int)
    requires
        0 <= at <= prefix.len() <= kinds.len(),
        prefix == kinds.take(prefix.len() as int),
    ensures
        in_open_block(prefix, at) == in_open_block(kinds, at),
{
    if in_open_block(prefix, at) {
        let from = choose|from: int| block_reaches(prefix, from, at);
        assert(block_reaches(kinds, from, at)) by {
            assert(kinds[from] == prefix[from]);
            assert forall|k: int| from < k < at implies !closes_block(#[trigger] kinds[k]) by {
                assert(kinds[k] == prefix[k]);
            }
        }
    }
    if in_open_block(kinds, at) {
        let from = choose|from: int| block_reaches(kinds, from, at);
        assert(block_reaches(prefix, from, at)) by {
            assert(kinds[from] == prefix[from]);
            assert forall|k: int| from < k < at implies !closes_block(#[trigger] prefix[k]) by {
                assert(kinds[k] == prefix[k]);
            }
        }
    }
}

/// After a run of lines from the initial state, the pass is in a
/// continuation block exactly when a continuation line stands in the run
/// with no structured or unrecognized line behind it.
pub proof fn lemma_state_tracks_open_block(kinds: Seq<LineKindView>)
    ensures
        state_after(initial_state(), kinds).in_continuation == in_open_block(
            kinds,
            kinds.len() as int,
        ),
    decreases kinds.len(),
{
    let len = kinds.len() as int;
    if len == 0 {
        assert forall|from: int| !block_reaches(kinds, from, len) by {}
    } else {
        let shorter = kinds.drop_last();
        let last = kinds.last();
        let before = len - 1;
        lemma_state_tracks_open_block(shorter);
        lemma_open_block_of_prefix(kinds, shorter, before);
        if last is Continuation {
            assert(block_reaches(kinds, before, len));
        } else if closes_block(last) {
            assert forall|from: int| !block_reaches(kinds, from, len) by {
                if block_reaches(kinds, from, len) && from < before {
                    assert(!closes_block(kinds[before]));
                }
            }
        } else {
            if in_open_block(kinds, len) {
                let from = choose|from: int| block_reaches(kinds, from, len);
                assert(from < before);
                assert(block_reaches(kinds, from, before));
            }
            if in_open_block(kinds, before) {
                let from = choose|from: int| block_reaches(kinds, from, before);
                assert(block_reaches(kinds, from, len));
            }
        }
    }
}

/// A pass makes one increment for each logical event of the lines it sees,
/// and no other.
pub proof fn lemma_one_increment_per_event(kinds: Seq<LineKindView>)
    ensures
        increments_in(effects_of(initial_state(), kinds)).len() == logical_events(kinds),
    decreases kinds.len(),
{
    if kinds.len() > 0 {
        let shorter = kinds.drop_last();
        let len = kinds.len() as int;
        lemma_one_increment_per_event(shorter);
        lemma_effects_extend(initial_state(), kinds);
        assert(effects_of(initial_state(), kinds).drop_last() =~= effects_of(
            initial_state(),
            shorter,
        ));
        lemma_state_tracks_open_block(shorter);
        lemma_open_block_of_prefix(kinds, shorter, len - 1);
    } else {
        assert(effects_of(initial_state(), kinds) =~= Seq::<LineEffectView>::empty());
    }
}

/// Every line has exactly one effect: an increment, a diagnostic or nothing.
pub proof fn lemma_one_effect_per_line(start: StateView, kinds: Seq<LineKindView>)
    ensures
        effects_of(start, kinds).len() == kinds.len(),
        increments_in(effects_of(start, kinds)).len() + diagnostics_in(
            effects_of(start, kinds),
        ).len() <= kinds.len(),
    decreases kinds.len(),
{
    if kinds.len() > 0 {
        let shorter = kinds.drop_last();
        lemma_one_effect_per_line(start, shorter);
        lemma_effects_extend(start, kinds);
        assert(effects_of(start, kinds).drop_last() =~= effects_of(start, shorter));
    } else {
        assert(effects_of(start, kinds) =~= Seq::<LineEffectView>::empty());
    }
}

} // verus!
