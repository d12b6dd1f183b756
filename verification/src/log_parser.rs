//! The poll cycle: from what was read of each file to increments, diagnostics
//! and new offsets.
//!
//! The caller expands each source's file pattern and reads the files, each
//! from the place that [`start_of_pass`] names or from an earlier one. The
//! library decides where in each file the pass starts, which bytes it
//! consumes and what they count as. A file that cannot be read, or a source
//! whose pattern cannot be expanded, costs that file or source one
//! diagnostic and nothing else.

use crate::classifier::{classify_lines, pass_diagnostics, pass_increments, Signatures};
use crate::config::{LogConfig, LogConfigView};
use crate::offsets::{offset_of, OffsetStore};
use crate::reader::{complete_len, decoded_lines, read_lines};
use vstd::prelude::*;
use vstd::slice::slice_subrange;

verus! {

/// The end of a file: its bytes from the offset `from` on. A file read as a
/// whole is its own tail from 0.
#[derive(Clone, Debug)]
pub struct FileTail {
    /// Offset of the first byte that was read.
    pub from: u64,
    /// The bytes from there to the end of the file.
    pub bytes: Vec<u8>,
}

/// A [`FileTail`] as contracts see it.
pub struct FileTailView {
    pub from: u64,
    pub bytes: Seq<u8>,
}

impl View for FileTail {
    type V = FileTailView;

    open spec fn view(&self) -> FileTailView {
        FileTailView { from: self.from, bytes: self.bytes@ }
    }
}

/// One file of a source, as it was found at the start of a cycle.
#[derive(Clone, Debug)]
pub struct FileSnapshot {
    /// The resolved path, which keys the file's offset.
    pub path: String,
    /// What was read of the file, or `None` where it could not be opened or
    /// read.
    pub tail: Option<FileTail>,
}

/// A [`FileSnapshot`] as contracts see it.
pub struct FileSnapshotView {
    pub path: Seq<char>,
    pub tail: Option<FileTailView>,
}

impl View for FileSnapshot {
    type V = FileSnapshotView;

    open spec fn view(&self) -> FileSnapshotView {
        FileSnapshotView {
            path: self.path@,
            tail: match self.tail {
                Some(tail) => Some(tail@),
                None => None,
            },
        }
    }
}

/// What went wrong for one source, one file or one line. None of these ends
/// a cycle.
#[derive(Clone, Debug)]
pub enum Diagnostic {
    /// The file pattern of the source could not be expanded.
    PatternExpansion { source: String },
    /// The file could not be opened or read, or what was read of it starts
    /// behind the place where the pass has to start; its offset stays as it
    /// was.
    SourceUnavailable { path: String },
    /// A line of the file matches the grammar, but its timestamp is missing
    /// or does not parse; the line is not counted.
    TimestampParse { path: String, time: Option<String> },
}

/// A [`Diagnostic`] as contracts see it.
pub enum DiagnosticView {
    PatternExpansion { source: Seq<char> },
    SourceUnavailable { path: Seq<char> },
    TimestampParse { path: Seq<char>, time: Option<Seq<char>> },
}

impl View for Diagnostic {
    type V = DiagnosticView;

    open spec fn view(&self) -> DiagnosticView {
        match self {
            Diagnostic::PatternExpansion { source } => DiagnosticView::PatternExpansion {
                source: source@,
            },
            Diagnostic::SourceUnavailable { path } => DiagnosticView::SourceUnavailable {
                path: path@,
            },
            Diagnostic::TimestampParse { path, time } => DiagnosticView::TimestampParse {
                path: path@,
                time: time.deep_view(),
            },
        }
    }
}

/// What one pass over one file yields.
#[derive(Clone, Debug)]
pub struct FilePass {
    /// Offset of the first byte that the pass left unread.
    pub next_offset: u64,
    /// Severity of each increment, in the order of the lines.
    pub increments: Vec<String>,
    /// The `time` capture of each line whose timestamp could not be used.
    pub bad_timestamps: Vec<Option<String>>,
}

/// What one cycle yields for one source.
#[derive(Clone, Debug)]
pub struct SourceReport {
    /// Severity of each increment of the source's counters, file by file in
    /// the order given, line by line within a file.
    pub increments: Vec<String>,
    /// The diagnostics, in the same order.
    pub diagnostics: Vec<Diagnostic>,
}

/// One source with what the caller found of it at the start of a cycle.
#[derive(Debug)]
pub struct ObservedSource<'a> {
    /// The source.
    pub config: &'a LogConfig,
    /// Its files in the order in which they are to be handled, or `None`
    /// where the file pattern could not be expanded.
    pub files: Option<Vec<FileSnapshot>>,
}

/// An [`ObservedSource`] as contracts see it.
pub struct ObservedSourceView {
    pub config: LogConfigView,
    pub files: Option<Seq<FileSnapshotView>>,
}

impl<'a> View for ObservedSource<'a> {
    type V = ObservedSourceView;

    open spec fn view(&self) -> ObservedSourceView {
        ObservedSourceView {
            config: self.config@,
            files: match self.files {
                Some(files) => Some(file_views(files@)),
                None => None,
            },
        }
    }
}

/// One increment of the counter of `severity` for `source`.
#[derive(Clone, Debug)]
pub struct Increment {
    pub source: String,
    pub severity: String,
}

/// An [`Increment`] as contracts see it.
pub struct IncrementView {
    pub source: Seq<char>,
    pub severity: Seq<char>,
}

impl View for Increment {
    type V = IncrementView;

    open spec fn view(&self) -> IncrementView {
        IncrementView { source: self.source@, severity: self.severity@ }
    }
}

/// What one cycle yields for all sources.
#[derive(Clone, Debug)]
pub struct CycleReport {
    /// The increments, source by source in the order given.
    pub increments: Vec<Increment>,
    /// The diagnostics, in the same order.
    pub diagnostics: Vec<Diagnostic>,
}

/// The views of a list of files, in order.
pub open spec fn file_views(files: Seq<FileSnapshot>) -> Seq<FileSnapshotView> {
    files.map_values(|file: FileSnapshot| file@)
}

/// The views of a list of diagnostics, in order.
pub open spec fn diagnostic_views(diagnostics: Seq<Diagnostic>) -> Seq<DiagnosticView> {
    diagnostics.map_values(|diagnostic: Diagnostic| diagnostic@)
}

/// The size of the file that `tail` is the end of.
pub open spec fn file_size(tail: FileTailView) -> int {
    tail.from + tail.bytes.len()
}

/// The whole of a file of content `content`, as a tail.
pub open spec fn whole_file(content: Seq<u8>) -> FileTailView {
    FileTailView { from: 0, bytes: content }
}

/// Where a pass starts in a file of `size` bytes whose stored offset is
/// `stored`: at the stored offset, or at 0 where the file has become shorter
/// than that.
pub open spec fn pass_start(stored: u64, size: int) -> int {
    if size < stored {
        0
    } else {
        stored as int
    }
}

/// Whether `tail` holds what a pass needs that starts from the stored offset
/// `stored`: it reaches back to the start of the pass, and the size of the
/// file fits an offset.
pub open spec fn covers(stored: u64, tail: FileTailView) -> bool {
    &&& file_size(tail) <= u64::MAX
    &&& tail.from <= pass_start(stored, file_size(tail))
}

/// The unread bytes of the file: those from the start of the pass on.
pub open spec fn pass_chunk(stored: u64, tail: FileTailView) -> Seq<u8> {
    tail.bytes.skip(pass_start(stored, file_size(tail)) - tail.from)
}

/// Where a pass ends: behind the last whole line that starts at or after
/// its start.
pub open spec fn pass_end(stored: u64, tail: FileTailView) -> int {
    pass_start(stored, file_size(tail)) + complete_len(pass_chunk(stored, tail))
}

/// The bytes that a pass consumes: the whole lines from its start on.
pub open spec fn pass_region(stored: u64, tail: FileTailView) -> Seq<u8> {
    pass_chunk(stored, tail).take(complete_len(pass_chunk(stored, tail)) as int)
}

/// The tail of a file that can be scanned with the offsets `offsets`, if it
/// was read and covers the pass.
pub open spec fn usable_tail(
    offsets: Map<Seq<char>, u64>,
    file: FileSnapshotView,
) -> Option<FileTailView> {
    match file.tail {
        Some(tail) => if covers(offset_of(offsets, file.path), tail) {
            Some(tail)
        } else {
            None
        },
        None => None,
    }
}

/// The offsets after one file was handled: a file that was scanned has its
/// offset at the end of the pass, one that was not keeps what it had.
pub open spec fn offsets_after_file(
    offsets: Map<Seq<char>, u64>,
    file: FileSnapshotView,
) -> Map<Seq<char>, u64> {
    match usable_tail(offsets, file) {
        Some(tail) => offsets.insert(
            file.path,
            pass_end(offset_of(offsets, file.path), tail) as u64,
        ),
        None => offsets,
    }
}

/// The increments that one file adds to its source's counters.
pub open spec fn file_increments(
    config: LogConfigView,
    offsets: Map<Seq<char>, u64>,
    file: FileSnapshotView,
) -> Seq<Seq<char>> {
    match usable_tail(offsets, file) {
        Some(tail) => pass_increments(
            config,
            decoded_lines(pass_region(offset_of(offsets, file.path), tail)),
        ),
        None => Seq::empty(),
    }
}

/// The diagnostics that one file gives rise to: one for a file that could
/// not be scanned, else one for each line whose timestamp could not be used.
pub open spec fn file_diagnostics(
    config: LogConfigView,
    offsets: Map<Seq<char>, u64>,
    file: FileSnapshotView,
) -> Seq<DiagnosticView> {
    match usable_tail(offsets, file) {
        Some(tail) => timestamp_diagnostics(
            file.path,
            pass_diagnostics(
                config,
                decoded_lines(pass_region(offset_of(offsets, file.path), tail)),
            ),
        ),
        None => seq![DiagnosticView::SourceUnavailable { path: file.path }],
    }
}

/// The offsets after the files were handled one after the other.
pub open spec fn offsets_after(
    offsets: Map<Seq<char>, u64>,
    files: Seq<FileSnapshotView>,
) -> Map<Seq<char>, u64>
    decreases files.len(),
{
    if files.len() == 0 {
        offsets
    } else {
        offsets_after_file(offsets_after(offsets, files.drop_last()), files.last())
    }
}

/// The increments of one source in one cycle.
pub open spec fn source_increments(
    config: LogConfigView,
    offsets: Map<Seq<char>, u64>,
    files: Seq<FileSnapshotView>,
) -> Seq<Seq<char>>
    decreases files.len(),
{
    if files.len() == 0 {
        Seq::empty()
    } else {
        source_increments(config, offsets, files.drop_last()) + file_increments(
            config,
            offsets_after(offsets, files.drop_last()),
            files.last(),
        )
    }
}

/// The diagnostics of one source in one cycle.
pub open spec fn source_diagnostics(
    config: LogConfigView,
    offsets: Map<Seq<char>, u64>,
    files: Seq<FileSnapshotView>,
) -> Seq<DiagnosticView>
    decreases files.len(),
{
    if files.len() == 0 {
        Seq::empty()
    } else {
        source_diagnostics(config, offsets, files.drop_last()) + file_diagnostics(
            config,
            offsets_after(offsets, files.drop_last()),
            files.last(),
        )
    }
}

/// The views of a list of observed sources, in order.
pub open spec fn source_views(sources: Seq<ObservedSource>) -> Seq<ObservedSourceView> {
    sources.map_values(|source: ObservedSource| source@)
}

/// The views of a list of increments, in order.
pub open spec fn increment_views(increments: Seq<Increment>) -> Seq<IncrementView> {
    increments.map_values(|increment: Increment| increment@)
}

/// Severities as increments of the source `source`.
pub open spec fn labelled(source: Seq<char>, severities: Seq<Seq<char>>) -> Seq<IncrementView> {
    severities.map_values(|severity: Seq<char>| IncrementView { source, severity })
}

/// The offsets after one source was polled: a source whose pattern could not
/// be expanded leaves them as they were.
pub open spec fn offsets_after_source(
    offsets: Map<Seq<char>, u64>,
    source: ObservedSourceView,
) -> Map<Seq<char>, u64> {
    match source.files {
        Some(files) => offsets_after(offsets, files),
        None => offsets,
    }
}

/// The increments that one source adds in a cycle.
pub open spec fn observed_increments(
    offsets: Map<Seq<char>, u64>,
    source: ObservedSourceView,
) -> Seq<IncrementView> {
    match source.files {
        Some(files) => labelled(
            source.config.name,
            source_increments(source.config, offsets, files),
        ),
        None => Seq::empty(),
    }
}

/// The diagnostics that one source gives rise to in a cycle: those of its
/// files, or one for a pattern that could not be expanded.
pub open spec fn observed_diagnostics(
    offsets: Map<Seq<char>, u64>,
    source: ObservedSourceView,
) -> Seq<DiagnosticView> {
    match source.files {
        Some(files) => source_diagnostics(source.config, offsets, files),
        None => seq![DiagnosticView::PatternExpansion { source: source.config.name }],
    }
}

/// The offsets after the sources were polled one after the other.
pub open spec fn cycle_offsets(
    offsets: Map<Seq<char>, u64>,
    sources: Seq<ObservedSourceView>,
) -> Map<Seq<char>, u64>
    decreases sources.len(),
{
    if sources.len() == 0 {
        offsets
    } else {
        offsets_after_source(cycle_offsets(offsets, sources.drop_last()), sources.last())
    }
}

/// The increments of one cycle.
pub open spec fn cycle_increments(
    offsets: Map<Seq<char>, u64>,
    sources: Seq<ObservedSourceView>,
) -> Seq<IncrementView>
    decreases sources.len(),
{
    if sources.len() == 0 {
        Seq::empty()
    } else {
        cycle_increments(offsets, sources.drop_last()) + observed_increments(
            cycle_offsets(offsets, sources.drop_last()),
            sources.last(),
        )
    }
}

/// The diagnostics of one cycle.
pub open spec fn cycle_diagnostics(
    offsets: Map<Seq<char>, u64>,
    sources: Seq<ObservedSourceView>,
) -> Seq<DiagnosticView>
    decreases sources.len(),
{
    if sources.len() == 0 {
        Seq::empty()
    } else {
        cycle_diagnostics(offsets, sources.drop_last()) + observed_diagnostics(
            cycle_offsets(offsets, sources.drop_last()),
            sources.last(),
        )
    }
}

/// A pass stays inside what was read of the file, and never ends before it
/// starts.
pub proof fn lemma_pass_bounds(stored: u64, tail: FileTailView)
    requires
        covers(stored, tail),
    ensures
        tail.from <= pass_start(stored, file_size(tail)) <= pass_end(stored, tail) <= file_size(
            tail,
        ),
{
    crate::reader::lemma_complete_len(pass_chunk(stored, tail));
}

/// Where to start reading a file of `size` bytes whose stored offset is
/// `stored`, so that what is read covers the pass.
pub fn start_of_pass(stored: u64, size: u64) -> (start: u64)
    ensures
        start == pass_start(stored, size as int),
{
    if size < stored {
        0
    } else {
        stored
    }
}

/// Runs one pass over one file: starts at the stored offset, or at 0 where
/// the file is shorter than that, and classifies the whole lines from there.
/// Returns `None`, and does nothing, where the tail does not cover the pass.
pub fn scan_file(config: &LogConfig, signatures: &Signatures, tail: &FileTail, stored: u64) -> (pass:
    Option<FilePass>)
    ensures
        pass is Some <==> covers(stored, tail@),
        pass matches Some(done) ==> {
            &&& done.next_offset == pass_end(stored, tail@)
            &&& done.next_offset <= file_size(tail@)
            &&& stored <= file_size(tail@) ==> stored <= done.next_offset
            &&& done.increments.deep_view() == pass_increments(
                config@,
                decoded_lines(pass_region(stored, tail@)),
            )
            &&& done.bad_timestamps.deep_view() == pass_diagnostics(
                config@,
                decoded_lines(pass_region(stored, tail@)),
            )
        },
{
    let len = tail.bytes.len();
    let size = match tail.from.checked_add(len as u64) {
        Some(size) => size,
        None => { return None; },
    };
    let start = start_of_pass(stored, size);
    if tail.from > start {
        return None;
    }
    let skipped = (start - tail.from) as usize;
    let chunk = slice_subrange(tail.bytes.as_slice(), skipped, len);
    assert(chunk@ =~= pass_chunk(stored, tail@));
    let new = read_lines(chunk);
    proof {
        lemma_pass_bounds(stored, tail@);
    }
    let outcome = classify_lines(config, signatures, &new.lines);
    Some(
        FilePass {
            next_offset: start + new.consumed as u64,
            increments: outcome.increments,
            bad_timestamps: outcome.bad_timestamps,
        },
    )
}

/// The diagnostics of the lines of the file `path` whose timestamps could not
/// be used.
pub open spec fn timestamp_diagnostics(
    path: Seq<char>,
    times: Seq<Option<Seq<char>>>,
) -> Seq<DiagnosticView> {
    times.map_values(|time: Option<Seq<char>>| DiagnosticView::TimestampParse { path, time })
}

/// Adds one diagnostic for each unusable timestamp of the file `path`.
fn push_timestamp_diagnostics(
    diagnostics: &mut Vec<Diagnostic>,
    path: &String,
    bad_timestamps: Vec<Option<String>>,
)
    ensures
        diagnostic_views(final(diagnostics)@) == diagnostic_views(old(diagnostics)@)
            + timestamp_diagnostics(path@, bad_timestamps.deep_view()),
{
    let ghost done = diagnostic_views(diagnostics@);
    let ghost times = bad_timestamps.deep_view();
    let ghost owned = bad_timestamps@;
    assert(done + timestamp_diagnostics(path@, times.take(0)) =~= done);
    for time in it: bad_timestamps
        invariant
            it.seq() == owned,
            owned.len() == times.len(),
            forall|k: int| 0 <= k < owned.len() ==> owned[k].deep_view() == times[k],
            diagnostic_views(diagnostics@) == done + timestamp_diagnostics(
                path@,
                times.take(it.index()),
            ),
    {
        let ghost so_far = diagnostic_views(diagnostics@);
        let diagnostic = Diagnostic::TimestampParse { path: path.clone(), time };
        diagnostics.push(diagnostic);
        assert(diagnostic_views(diagnostics@) =~= so_far.push(diagnostic@));
        assert(times.take(it.index() + 1) =~= times.take(it.index()).push(times[it.index()]));
        assert(diagnostic_views(diagnostics@) =~= done + timestamp_diagnostics(
            path@,
            times.take(it.index() + 1),
        ));
    }
    assert(times.take(times.len() as int) =~= times);
}

/// Adds one increment of the source `source` for each of the severities.
fn push_increments(increments: &mut Vec<Increment>, source: &String, severities: Vec<String>)
    ensures
        increment_views(final(increments)@) == increment_views(old(increments)@) + labelled(
            source@,
            severities.deep_view(),
        ),
{
    let ghost done = increment_views(increments@);
    let ghost texts = severities.deep_view();
    let ghost owned = severities@;
    assert(done + labelled(source@, texts.take(0)) =~= done);
    for severity in it: severities
        invariant
            it.seq() == owned,
            owned.len() == texts.len(),
            forall|k: int| 0 <= k < owned.len() ==> owned[k]@ == texts[k],
            increment_views(increments@) == done + labelled(source@, texts.take(it.index())),
    {
        let ghost so_far = increment_views(increments@);
        let increment = Increment { source: source.clone(), severity };
        increments.push(increment);
        assert(increment_views(increments@) =~= so_far.push(increment@));
        assert(texts.take(it.index() + 1) =~= texts.take(it.index()).push(texts[it.index()]));
        assert(increment_views(increments@) =~= done + labelled(
            source@,
            texts.take(it.index() + 1),
        ));
    }
    assert(texts.take(texts.len() as int) =~= texts);
}

/// Polls one source: handles its files in the order given, advances their
/// offsets and reports what the new lines count as.
///
/// A file that could not be read, or whose tail does not cover the pass,
/// yields one diagnostic and keeps its offset, and the files after it are
/// handled all the same.
pub fn parse_logs(
    config: &LogConfig,
    file_positions: &mut OffsetStore,
    files: &Vec<FileSnapshot>,
) -> (report: SourceReport)
    ensures
        final(file_positions)@ == offsets_after(old(file_positions)@, file_views(files@)),
        report.increments.deep_view() == source_increments(
            config@,
            old(file_positions)@,
            file_views(files@),
        ),
        diagnostic_views(report.diagnostics@) == source_diagnostics(
            config@,
            old(file_positions)@,
            file_views(files@),
        ),
{
    let signatures = Signatures::new();
    poll_source(config, &signatures, file_positions, files)
}

/// Polls one source with signatures that are already compiled.
fn poll_source(
    config: &LogConfig,
    signatures: &Signatures,
    file_positions: &mut OffsetStore,
    files: &Vec<FileSnapshot>,
) -> (report: SourceReport)
    ensures
        final(file_positions)@ == offsets_after(old(file_positions)@, file_views(files@)),
        report.increments.deep_view() == source_increments(
            config@,
            old(file_positions)@,
            file_views(files@),
        ),
        diagnostic_views(report.diagnostics@) == source_diagnostics(
            config@,
            old(file_positions)@,
            file_views(files@),
        ),
{
    let mut increments: Vec<String> = Vec::new();
    let mut diagnostics: Vec<Diagnostic> = Vec::new();
    let ghost views = file_views(files@);
    let ghost initial = file_positions@;
    let mut i: usize = 0;
    assert(views.take(0) =~= Seq::<FileSnapshotView>::empty());
    assert(increments.deep_view() =~= Seq::<Seq<char>>::empty());
    assert(diagnostic_views(diagnostics@) =~= Seq::<DiagnosticView>::empty());
    while i < files.len()
        invariant
            i <= files.len(),
            views == file_views(files@),
            views.len() == files.len(),
            file_positions@ == offsets_after(initial, views.take(i as int)),
            increments.deep_view() == source_increments(config@, initial, views.take(i as int)),
            diagnostic_views(diagnostics@) == source_diagnostics(
                config@,
                initial,
                views.take(i as int),
            ),
        decreases files.len() - i,
    {
        let file = &files[i];
        let ghost before = file_positions@;
        let ghost done_increments = increments.deep_view();
        let ghost done_diagnostics = diagnostic_views(diagnostics@);
        proof {
            assert(views.take(i + 1).drop_last() =~= views.take(i as int));
            assert(views.take(i + 1).last() == file@);
        }
        let stored = file_positions.get_offset(file.path.as_str());
        let scanned = match &file.tail {
            Some(tail) => scan_file(config, signatures, tail, stored),
            None => None,
        };
        assert(scanned is Some <==> usable_tail(before, file@) is Some);
        match scanned {
            Some(pass) => {
                let mut pass = pass;
                file_positions.set_offset(file.path.as_str(), pass.next_offset);
                let ghost added = pass.increments.deep_view();
                increments.append(&mut pass.increments);
                assert(increments.deep_view() =~= done_increments + added);
                push_timestamp_diagnostics(&mut diagnostics, &file.path, pass.bad_timestamps);
            },
            None => {
                let diagnostic = Diagnostic::SourceUnavailable { path: file.path.clone() };
                diagnostics.push(diagnostic);
                assert(diagnostic_views(diagnostics@) =~= done_diagnostics + seq![diagnostic@]);
                assert(increments.deep_view() =~= done_increments + Seq::<Seq<char>>::empty());
            },
        }
        i = i + 1;
    }
    assert(views.take(files.len() as int) =~= views);
    SourceReport { increments, diagnostics }
}

/// Runs one poll cycle over all sources, in the order given.
///
/// A source whose pattern could not be expanded yields one diagnostic and
/// touches no offset, and the sources after it are polled all the same.
pub fn poll_cycle(sources: &Vec<ObservedSource>, file_positions: &mut OffsetStore) -> (report:
    CycleReport)
    ensures
        final(file_positions)@ == cycle_offsets(old(file_positions)@, source_views(sources@)),
        increment_views(report.increments@) == cycle_increments(
            old(file_positions)@,
            source_views(sources@),
        ),
        diagnostic_views(report.diagnostics@) == cycle_diagnostics(
            old(file_positions)@,
            source_views(sources@),
        ),
{
    let signatures = Signatures::new();
    let mut increments: Vec<Increment> = Vec::new();
    let mut diagnostics: Vec<Diagnostic> = Vec::new();
    let ghost views = source_views(sources@);
    let ghost initial = file_positions@;
    let mut i: usize = 0;
    assert(views.take(0) =~= Seq::<ObservedSourceView>::empty());
    assert(increment_views(increments@) =~= Seq::<IncrementView>::empty());
    assert(diagnostic_views(diagnostics@) =~= Seq::<DiagnosticView>::empty());
    while i < sources.len()
        invariant
            i <= sources.len(),
            views == source_views(sources@),
            views.len() == sources.len(),
            file_positions@ == cycle_offsets(initial, views.take(i as int)),
            increment_views(increments@) == cycle_increments(initial, views.take(i as int)),
            diagnostic_views(diagnostics@) == cycle_diagnostics(initial, views.take(i as int)),
        decreases sources.len() - i,
    {
        let source = &sources[i];
        let ghost done_increments = increment_views(increments@);
        let ghost done_diagnostics = diagnostic_views(diagnostics@);
        proof {
            assert(views.take(i + 1).drop_last() =~= views.take(i as int));
            assert(views.take(i + 1).last() == source@);
        }
        match &source.files {
            Some(files) => {
                let mut report = poll_source(source.config, &signatures, file_positions, files);
                let ghost found = diagnostic_views(report.diagnostics@);
                diagnostics.append(&mut report.diagnostics);
                assert(diagnostic_views(diagnostics@) =~= done_diagnostics + found);
                push_increments(&mut increments, &source.config.name, report.increments);
            },
            None => {
                let diagnostic = Diagnostic::PatternExpansion {
                    source: source.config.name.clone(),
                };
                diagnostics.push(diagnostic);
                assert(diagnostic_views(diagnostics@) =~= done_diagnostics + seq![diagnostic@]);
                assert(increment_views(increments@) =~= done_increments + Seq::<
                    IncrementView,
                >::empty());
            },
        }
        i = i + 1;
    }
    assert(views.take(sources.len() as int) =~= views);
    CycleReport { increments, diagnostics }
}

} // verus!
