//! What holds of every poll: which bytes a pass consumes, and what a second
//! poll finds.

use crate::classifier::{effects_of, initial_state, kinds_of, pass_increments};
use crate::classifier_laws::{lemma_one_increment_per_event, logical_events};
use crate::config::LogConfigView;
use crate::offsets::offset_of;
use crate::log_parser::{
    covers,
    cycle_increments,
    cycle_offsets,
    file_increments,
    file_size,
    lemma_pass_bounds,
    observed_increments,
    offsets_after,
    offsets_after_file,
    pass_chunk,
    pass_end,
    pass_region,
    pass_start,
    source_increments,
    usable_tail,
    whole_file,
    FileSnapshotView,
    FileTailView,
    IncrementView,
    ObservedSourceView,
};
use crate::reader::{
    complete_len,
    decode_each,
    decoded_lines,
    ends_lines,
    lemma_complete_len,
    lemma_complete_len_at,
    lemma_split_lines_concat,
    split_lines,
    starts_with_byte_order_mark,
    LINE_FEED,
};
use vstd::prelude::*;

verus! {

/// Whether no two of the files have the same path.
pub open spec fn distinct_paths(files: Seq<FileSnapshotView>) -> bool {
    forall|i: int, j: int|
        0 <= i < j < files.len() ==> (#[trigger] files[i]).path != (#[trigger] files[j]).path
}

/// The tail from `from` of a file of content `content`.
pub open spec fn tail_from(content: Seq<u8>, from: u64) -> FileTailView {
    FileTailView { from, bytes: content.skip(from as int) }
}

/// Behind the end of a pass no whole line is left: the unread rest holds no
/// line feed.
pub proof fn lemma_rest_is_partial(bytes: Seq<u8>)
    ensures
        complete_len(bytes.skip(complete_len(bytes) as int)) == 0,
{
    lemma_complete_len(bytes);
    let rest = bytes.skip(complete_len(bytes) as int);
    assert forall|k: int| 0 <= k < rest.len() implies rest[k] != LINE_FEED by {
        assert(rest[k] == bytes[complete_len(bytes) + k]);
    }
    lemma_complete_len_at(rest, 0);
}

/// Bytes that are made of whole lines are consumed to the last.
pub proof fn lemma_whole_lines_consumed(bytes: Seq<u8>)
    requires
        ends_lines(bytes),
    ensures
        complete_len(bytes) == bytes.len(),
{
}

/// A pass over no lines counts nothing.
pub proof fn lemma_no_lines_no_increments(config: LogConfigView)
    ensures
        pass_increments(config, decoded_lines(Seq::<u8>::empty())) == Seq::<Seq<char>>::empty(),
{
    assert(decoded_lines(Seq::<u8>::empty()) =~= Seq::<Seq<char>>::empty());
    let kinds = kinds_of(config, decoded_lines(Seq::<u8>::empty()));
    assert(kinds =~= Seq::empty());
    assert(effects_of(initial_state(), kinds) =~= Seq::empty());
}

/// It does not matter how much of a file is read before the start of the
/// pass: the pass over a tail that covers it is the pass over the whole file.
pub proof fn lemma_tail_reads_as_whole_file(stored: u64, content: Seq<u8>, from: u64)
    requires
        content.len() <= u64::MAX,
        from <= pass_start(stored, content.len() as int),
    ensures
        covers(stored, tail_from(content, from)),
        covers(stored, whole_file(content)),
        pass_chunk(stored, tail_from(content, from)) == pass_chunk(stored, whole_file(content)),
        pass_region(stored, tail_from(content, from)) == pass_region(stored, whole_file(content)),
        pass_end(stored, tail_from(content, from)) == pass_end(stored, whole_file(content)),
{
    let tail = tail_from(content, from);
    assert(file_size(tail) == content.len());
    assert(pass_chunk(stored, tail) =~= pass_chunk(stored, whole_file(content)));
}

/// A pass never moves an offset past the end of the file, and never moves it
/// back in a file that has not become shorter.
pub proof fn lemma_offset_advances(stored: u64, tail: FileTailView)
    requires
        covers(stored, tail),
    ensures
        pass_end(stored, tail) <= file_size(tail),
        stored <= file_size(tail) ==> stored <= pass_end(stored, tail),
{
    lemma_pass_bounds(stored, tail);
}

/// A file that has become shorter than its stored offset is scanned again
/// from its first byte, and every whole line of it is read.
pub proof fn lemma_truncated_file_rescanned(stored: u64, tail: FileTailView)
    requires
        covers(stored, tail),
        file_size(tail) < stored,
    ensures
        tail.from == 0,
        pass_start(stored, file_size(tail)) == 0,
        pass_end(stored, tail) == complete_len(tail.bytes),
        pass_region(stored, tail) == tail.bytes.take(complete_len(tail.bytes) as int),
{
    assert(tail.bytes.skip(0) =~= tail.bytes);
}

/// A second pass over a file that has not changed since the first starts
/// where the first ended, consumes nothing and counts nothing, whether it
/// is given the same tail again or one read from a later place.
pub proof fn lemma_second_pass_idle(
    config: LogConfigView,
    stored: u64,
    tail: FileTailView,
    again_from: u64,
)
    requires
        covers(stored, tail),
        tail.from <= again_from <= pass_end(stored, tail),
    ensures
        ({
            let end = pass_end(stored, tail) as u64;
            let again = FileTailView {
                from: again_from,
                bytes: tail.bytes.skip(again_from - tail.from),
            };
            &&& end == pass_end(stored, tail)
            &&& covers(end, again)
            &&& pass_end(end, again) == end
            &&& pass_region(end, again) == Seq::<u8>::empty()
            &&& pass_increments(config, decoded_lines(pass_region(end, again))) == Seq::<
                Seq<char>,
            >::empty()
        }),
{
    lemma_pass_bounds(stored, tail);
    let end = pass_end(stored, tail) as u64;
    let again = FileTailView { from: again_from, bytes: tail.bytes.skip(again_from - tail.from) };
    let chunk = pass_chunk(stored, tail);
    lemma_rest_is_partial(chunk);
    assert(file_size(again) == file_size(tail));
    assert(pass_chunk(end, again) =~= chunk.skip(complete_len(chunk) as int));
    assert(pass_region(end, again) =~= Seq::<u8>::empty());
    lemma_no_lines_no_increments(config);
}

/// Two passes over a file that only grew in between consume, one after the
/// other, the bytes that one pass over the grown file consumes, and cut them
/// into the same lines: no line is read twice and none is skipped.
pub proof fn lemma_passes_partition_lines(stored: u64, before: Seq<u8>, grown: Seq<u8>)
    requires
        stored <= before.len() <= grown.len() <= u64::MAX,
        before == grown.take(before.len() as int),
    ensures
        ({
            let middle = pass_end(stored, whole_file(before)) as u64;
            let first = pass_region(stored, whole_file(before));
            let second = pass_region(middle, whole_file(grown));
            let both = pass_region(stored, whole_file(grown));
            &&& middle == pass_end(stored, whole_file(before))
            &&& ends_lines(first)
            &&& first + second == both
            &&& pass_end(middle, whole_file(grown)) == pass_end(stored, whole_file(grown))
            &&& split_lines(first) + split_lines(second) == split_lines(both)
        }),
{
    lemma_pass_bounds(stored, whole_file(before));
    lemma_pass_bounds(stored, whole_file(grown));
    let middle = pass_end(stored, whole_file(before)) as u64;
    lemma_pass_bounds(middle, whole_file(grown));
    let first = pass_region(stored, whole_file(before));
    let second = pass_region(middle, whole_file(grown));
    let both = pass_region(stored, whole_file(grown));
    let start = stored as int;
    let end = pass_end(stored, whole_file(grown));
    let from_start = grown.skip(start);
    let tail = grown.skip(middle as int);
    assert(pass_chunk(stored, whole_file(before)) =~= before.skip(start));
    assert(pass_chunk(stored, whole_file(grown)) =~= from_start);
    assert(pass_chunk(middle, whole_file(grown)) =~= tail);
    lemma_complete_len(before.skip(start));
    lemma_complete_len(from_start);
    lemma_complete_len(tail);
    // The first pass ends behind a line feed of the grown file, or where it
    // started.
    assert(middle > start ==> grown[middle - 1] == LINE_FEED) by {
        if middle > start {
            assert(before.skip(start)[middle - start - 1] == before[middle - 1]);
            assert(before[middle - 1] == grown[middle - 1]);
        }
    }
    // The last line feed of the grown file is found from either place.
    let at = middle - start + complete_len(tail);
    assert(at > 0 ==> from_start[at - 1] == LINE_FEED) by {
        if complete_len(tail) > 0 {
            assert(tail[complete_len(tail) - 1] == from_start[at - 1]);
        } else if at > 0 {
            assert(from_start[at - 1] == grown[middle - 1]);
        }
    }
    assert forall|k: int| at <= k < from_start.len() implies from_start[k] != LINE_FEED by {
        assert(from_start[k] == tail[k - (middle - start)]);
    }
    lemma_complete_len_at(from_start, at);
    assert(pass_end(middle, whole_file(grown)) == end);
    assert(first =~= grown.subrange(start, middle as int));
    assert(second =~= grown.subrange(middle as int, end));
    assert(both =~= grown.subrange(start, end));
    assert(first + second =~= both);
    assert(ends_lines(first)) by {
        if first.len() > 0 {
            assert(first.last() == grown[middle - 1]);
        }
    }
    lemma_split_lines_concat(first, second);
}

/// Whole lines without a byte order mark, followed by more bytes without
/// one, still have none.
proof fn lemma_no_mark_in_concat(first: Seq<u8>, second: Seq<u8>)
    requires
        ends_lines(first),
        !starts_with_byte_order_mark(first),
        !starts_with_byte_order_mark(second),
    ensures
        !starts_with_byte_order_mark(first + second),
{
    let both = first + second;
    if first.len() == 0 {
        assert(both =~= second);
    } else if first.len() >= 3 {
        assert(both[0] == first[0] && both[1] == first[1] && both[2] == first[2]);
    } else if both.len() >= 3 {
        assert(both[first.len() - 1] == first.last());
    }
}

/// Where neither pass meets a byte order mark, the text lines of the two
/// passes are, one after the other, the text lines of one pass over the grown
/// file.
pub proof fn lemma_passes_read_same_text(stored: u64, before: Seq<u8>, grown: Seq<u8>)
    requires
        stored <= before.len() <= grown.len() <= u64::MAX,
        before == grown.take(before.len() as int),
        !starts_with_byte_order_mark(pass_region(stored, whole_file(before))),
        !starts_with_byte_order_mark(
            pass_region(pass_end(stored, whole_file(before)) as u64, whole_file(grown)),
        ),
    ensures
        decoded_lines(pass_region(stored, whole_file(before))) + decoded_lines(
            pass_region(pass_end(stored, whole_file(before)) as u64, whole_file(grown)),
        ) == decoded_lines(pass_region(stored, whole_file(grown))),
{
    let middle = pass_end(stored, whole_file(before)) as u64;
    let first = pass_region(stored, whole_file(before));
    let second = pass_region(middle, whole_file(grown));
    lemma_passes_partition_lines(stored, before, grown);
    lemma_no_mark_in_concat(first, second);
    assert(decode_each(split_lines(first)) + decode_each(split_lines(second)) =~= decode_each(
        split_lines(first) + split_lines(second),
    ));
}

/// Lines appended to a file between two polls are counted by the second
/// poll, one increment for each logical event among them, and nothing else
/// is: the second pass consumes exactly the appended bytes.
pub proof fn lemma_appended_lines_counted(
    config: LogConfigView,
    stored: u64,
    before: Seq<u8>,
    appended: Seq<u8>,
)
    requires
        stored <= before.len(),
        before.len() + appended.len() <= u64::MAX,
        ends_lines(before),
        ends_lines(appended),
    ensures
        ({
            let middle = pass_end(stored, whole_file(before)) as u64;
            let grown = whole_file(before + appended);
            &&& middle == before.len()
            &&& covers(middle, grown)
            &&& pass_region(middle, grown) == appended
            &&& pass_end(middle, grown) == before.len() + appended.len()
            &&& pass_increments(config, decoded_lines(pass_region(middle, grown))).len()
                == logical_events(kinds_of(config, decoded_lines(appended)))
        }),
{
    let grown = whole_file(before + appended);
    let start = stored as int;
    let rest = before.skip(start);
    assert(pass_chunk(stored, whole_file(before)) =~= rest);
    assert(ends_lines(rest)) by {
        if rest.len() > 0 {
            assert(rest.last() == before.last());
        }
    }
    lemma_whole_lines_consumed(rest);
    let middle = pass_end(stored, whole_file(before)) as u64;
    assert(middle == before.len());
    assert(pass_chunk(middle, grown) =~= appended);
    lemma_whole_lines_consumed(appended);
    assert(pass_region(middle, grown) =~= appended);
    lemma_one_increment_per_event(kinds_of(config, decoded_lines(appended)));
}

/// In a list of files with distinct paths, the pass over one file alone
/// decides the offset that the file has after the poll.
proof fn lemma_offset_set_by_own_pass(
    offsets: Map<Seq<char>, u64>,
    files: Seq<FileSnapshotView>,
    at: int,
)
    requires
        distinct_paths(files),
        0 <= at < files.len(),
    ensures
        ({
            let before = offsets_after(offsets, files.take(at));
            let after = offsets_after(offsets, files);
            let path = files[at].path;
            match usable_tail(before, files[at]) {
                Some(tail) => {
                    &&& after.contains_key(path)
                    &&& after[path] == pass_end(offset_of(before, path), tail) as u64
                },
                None => offset_of(after, path) == offset_of(before, path),
            }
        }),
    decreases files.len(),
{
    let shorter = files.drop_last();
    let last = files.len() - 1;
    if at == last {
        assert(files.take(at) =~= shorter);
    } else {
        assert(distinct_paths(shorter)) by {
            assert forall|i: int, j: int| 0 <= i < j < shorter.len() implies (
            #[trigger] shorter[i]).path != (#[trigger] shorter[j]).path by {
                assert(shorter[i] == files[i] && shorter[j] == files[j]);
            }
        }
        lemma_offset_set_by_own_pass(offsets, shorter, at);
        assert(shorter.take(at) =~= files.take(at));
        assert(shorter[at] == files[at]);
        assert(files[at].path != files[last].path);
    }
}

/// Whether two stores hold the same for `path`.
pub open spec fn agree_on(
    first: Map<Seq<char>, u64>,
    second: Map<Seq<char>, u64>,
    path: Seq<char>,
) -> bool {
    first.contains_key(path) == second.contains_key(path) && offset_of(first, path) == offset_of(
        second,
        path,
    )
}

/// After a poll over the files `all`, a pass over any of them again moves no
/// offset and counts nothing, in whatever order and however often they come,
/// as long as the offsets of these files are those that the poll left.
proof fn lemma_polled_files_stay_idle(
    config: LogConfigView,
    offsets: Map<Seq<char>, u64>,
    all: Seq<FileSnapshotView>,
    some: Seq<FileSnapshotView>,
    current: Map<Seq<char>, u64>,
)
    requires
        distinct_paths(all),
        forall|j: int| 0 <= j < some.len() ==> all.contains(#[trigger] some[j]),
        forall|j: int|
            0 <= j < some.len() ==> agree_on(
                current,
                offsets_after(offsets, all),
                (#[trigger] some[j]).path,
            ),
    ensures
        offsets_after(current, some) == current,
        source_increments(config, current, some) == Seq::<Seq<char>>::empty(),
    decreases some.len(),
{
    let polled = offsets_after(offsets, all);
    if some.len() > 0 {
        let file = some.last();
        let earlier = some.drop_last();
        assert forall|j: int| 0 <= j < earlier.len() implies all.contains(
            #[trigger] earlier[j],
        ) && agree_on(current, polled, earlier[j].path) by {
            assert(earlier[j] == some[j]);
        }
        lemma_polled_files_stay_idle(config, offsets, all, earlier, current);
        assert(all.contains(file));
        assert(agree_on(current, polled, file.path));
        let at = choose|at: int| 0 <= at < all.len() && all[at] == file;
        let before = offsets_after(offsets, all.take(at));
        lemma_offset_set_by_own_pass(offsets, all, at);
        match usable_tail(before, file) {
            Some(tail) => {
                lemma_second_pass_idle(config, offset_of(before, file.path), tail, tail.from);
                assert(tail.bytes.skip(tail.from - tail.from) =~= tail.bytes);
                assert(offsets_after_file(current, file) =~= current);
                assert(file_increments(config, current, file) == Seq::<Seq<char>>::empty());
            },
            None => {},
        }
        assert(source_increments(config, current, some) =~= Seq::<Seq<char>>::empty());
    }
}

/// After a poll over the files `all`, a pass over any of them again moves no
/// offset and counts nothing.
proof fn lemma_polled_files_are_idle(
    config: LogConfigView,
    offsets: Map<Seq<char>, u64>,
    all: Seq<FileSnapshotView>,
    some: Seq<FileSnapshotView>,
)
    requires
        distinct_paths(all),
        forall|j: int| 0 <= j < some.len() ==> all.contains(#[trigger] some[j]),
    ensures
        offsets_after(offsets_after(offsets, all), some) == offsets_after(offsets, all),
        source_increments(config, offsets_after(offsets, all), some) == Seq::<
            Seq<char>,
        >::empty(),
{
    lemma_polled_files_stay_idle(config, offsets, all, some, offsets_after(offsets, all));
}

/// Polling a source again when none of its files has changed moves no offset
/// and counts nothing.
pub proof fn lemma_repoll_is_idle(
    config: LogConfigView,
    offsets: Map<Seq<char>, u64>,
    files: Seq<FileSnapshotView>,
)
    requires
        distinct_paths(files),
    ensures
        offsets_after(offsets_after(offsets, files), files) == offsets_after(offsets, files),
        source_increments(config, offsets_after(offsets, files), files) == Seq::<
            Seq<char>,
        >::empty(),
{
    lemma_polled_files_are_idle(config, offsets, files, files);
}

/// Files of other paths leave the offset of `path` as it was.
proof fn lemma_other_paths_untouched(
    offsets: Map<Seq<char>, u64>,
    files: Seq<FileSnapshotView>,
    path: Seq<char>,
)
    requires
        forall|j: int| 0 <= j < files.len() ==> (#[trigger] files[j]).path != path,
    ensures
        agree_on(offsets_after(offsets, files), offsets, path),
    decreases files.len(),
{
    if files.len() > 0 {
        let earlier = files.drop_last();
        assert forall|j: int| 0 <= j < earlier.len() implies (#[trigger] earlier[j]).path
            != path by {
            assert(earlier[j] == files[j]);
        }
        lemma_other_paths_untouched(offsets, earlier, path);
        assert(files.last() == files[files.len() - 1]);
    }
}

/// The increments of one list of files and then another are those of the two
/// lists as one.
proof fn lemma_source_increments_concat(
    config: LogConfigView,
    offsets: Map<Seq<char>, u64>,
    first: Seq<FileSnapshotView>,
    second: Seq<FileSnapshotView>,
)
    ensures
        source_increments(config, offsets, first + second) == source_increments(
            config,
            offsets,
            first,
        ) + source_increments(config, offsets_after(offsets, first), second),
    decreases second.len(),
{
    if second.len() == 0 {
        assert(first + second =~= first);
        assert(source_increments(config, offsets, first) + Seq::<Seq<char>>::empty()
            =~= source_increments(config, offsets, first));
    } else {
        let shorter = second.drop_last();
        lemma_source_increments_concat(config, offsets, first, shorter);
        lemma_offsets_after_concat(offsets, first, shorter);
        assert((first + second).drop_last() =~= first + shorter);
        assert((first + second).last() == second.last());
        assert(source_increments(config, offsets, first + second) =~= source_increments(
            config,
            offsets,
            first,
        ) + source_increments(config, offsets_after(offsets, first), second));
    }
}

/// Lines appended to one file of a source between two polls are what the
/// second poll of the source counts: one increment for each logical event
/// among them, none for the bytes that were there before and none for the
/// files that did not change. The file may be read from any place that
/// covers the pass.
pub proof fn lemma_source_counts_appended_lines(
    config: LogConfigView,
    offsets: Map<Seq<char>, u64>,
    files: Seq<FileSnapshotView>,
    at: int,
    before: Seq<u8>,
    appended: Seq<u8>,
    first_from: u64,
    second_from: u64,
)
    requires
        distinct_paths(files),
        0 <= at < files.len(),
        before.len() + appended.len() <= u64::MAX,
        ends_lines(before),
        ends_lines(appended),
        first_from <= offset_of(offsets, files[at].path) <= before.len(),
        second_from <= before.len(),
        files[at].tail == Some(tail_from(before, first_from)),
    ensures
        ({
            let path = files[at].path;
            let grown = FileSnapshotView {
                path,
                tail: Some(tail_from(before + appended, second_from)),
            };
            let polled = offsets_after(offsets, files);
            let again = files.update(at, grown);
            &&& offset_of(polled, path) == before.len()
            &&& source_increments(config, polled, again) == pass_increments(
                config,
                decoded_lines(appended),
            )
            &&& source_increments(config, polled, again).len() == logical_events(
                kinds_of(config, decoded_lines(appended)),
            )
            &&& offsets_after(polled, again) == polled.insert(
                path,
                (before.len() + appended.len()) as u64,
            )
        }),
{
    let path = files[at].path;
    let stored = offset_of(offsets, path);
    let grown = FileSnapshotView { path, tail: Some(tail_from(before + appended, second_from)) };
    let polled = offsets_after(offsets, files);
    let again = files.update(at, grown);
    let head = files.take(at);
    let rest = files.skip(at + 1);
    // The first poll leaves the file's offset at the end of its content.
    assert forall|j: int| 0 <= j < head.len() implies (#[trigger] head[j]).path != path by {
        assert(head[j] == files[j]);
    }
    lemma_other_paths_untouched(offsets, head, path);
    lemma_offset_set_by_own_pass(offsets, files, at);
    lemma_tail_reads_as_whole_file(stored, before, first_from);
    lemma_appended_lines_counted(config, stored, before, appended);
    assert(offset_of(polled, path) == before.len());
    // The second poll finds the files before this one as the first left them.
    assert forall|j: int| 0 <= j < head.len() implies files.contains(#[trigger] head[j]) by {
        assert(files[j] == head[j]);
    }
    lemma_polled_files_are_idle(config, offsets, files, head);
    // It reads the appended bytes of this file, and nothing else of it.
    let middle = before.len() as u64;
    lemma_tail_reads_as_whole_file(middle, before + appended, second_from);
    let moved = offsets_after_file(polled, grown);
    assert(moved == polled.insert(path, (before.len() + appended.len()) as u64));
    assert(file_increments(config, polled, grown) == pass_increments(
        config,
        decoded_lines(appended),
    ));
    // It finds the files behind this one as the first poll left them.
    assert forall|j: int| 0 <= j < rest.len() implies files.contains(#[trigger] rest[j])
        && agree_on(moved, polled, rest[j].path) by {
        assert(files[at + 1 + j] == rest[j]);
        assert(rest[j].path != path);
    }
    lemma_polled_files_stay_idle(config, offsets, files, rest, moved);
    // The three parts make up the second poll.
    let one = seq![grown];
    assert(again =~= head + one + rest);
    assert(one.drop_last() =~= Seq::<FileSnapshotView>::empty());
    assert(offsets_after(polled, Seq::<FileSnapshotView>::empty()) == polled);
    assert(source_increments(config, polled, Seq::<FileSnapshotView>::empty()) =~= Seq::<
        Seq<char>,
    >::empty());
    assert(offsets_after(polled, one) == moved);
    assert(source_increments(config, polled, one) =~= file_increments(config, polled, grown));
    lemma_offsets_after_concat(polled, head, one);
    lemma_offsets_after_concat(polled, head + one, rest);
    lemma_source_increments_concat(config, polled, head, one);
    lemma_source_increments_concat(config, polled, head + one, rest);
    assert(source_increments(config, polled, again) =~= pass_increments(
        config,
        decoded_lines(appended),
    ));
}

/// A file that could not be read holds up nothing: the files before and
/// behind it are handled, and counted, as if it were not in the list.
pub proof fn lemma_unread_file_is_skipped(
    config: LogConfigView,
    offsets: Map<Seq<char>, u64>,
    before: Seq<FileSnapshotView>,
    path: Seq<char>,
    behind: Seq<FileSnapshotView>,
)
    ensures
        ({
            let unread = seq![FileSnapshotView { path, tail: None }];
            &&& offsets_after(offsets, before + unread + behind) == offsets_after(
                offsets,
                before + behind,
            )
            &&& source_increments(config, offsets, before + unread + behind) == source_increments(
                config,
                offsets,
                before + behind,
            )
        }),
{
    let unread = seq![FileSnapshotView { path, tail: None }];
    let reached = offsets_after(offsets, before);
    assert(unread.drop_last() =~= Seq::<FileSnapshotView>::empty());
    assert(offsets_after(reached, Seq::<FileSnapshotView>::empty()) == reached);
    assert(source_increments(config, reached, Seq::<FileSnapshotView>::empty()) =~= Seq::<
        Seq<char>,
    >::empty());
    assert(offsets_after(reached, unread) == reached);
    assert(source_increments(config, reached, unread) =~= Seq::<Seq<char>>::empty());
    lemma_offsets_after_concat(offsets, before, unread);
    lemma_offsets_after_concat(offsets, before + unread, behind);
    lemma_offsets_after_concat(offsets, before, behind);
    lemma_source_increments_concat(config, offsets, before, unread);
    lemma_source_increments_concat(config, offsets, before + unread, behind);
    lemma_source_increments_concat(config, offsets, before, behind);
    assert(source_increments(config, offsets, before + unread) =~= source_increments(
        config,
        offsets,
        before,
    ));
}

/// The files of the sources whose patterns could be expanded, in the order
/// in which a cycle handles them.
pub open spec fn all_files(sources: Seq<ObservedSourceView>) -> Seq<FileSnapshotView>
    decreases sources.len(),
{
    if sources.len() == 0 {
        Seq::empty()
    } else {
        all_files(sources.drop_last()) + match sources.last().files {
            Some(files) => files,
            None => Seq::empty(),
        }
    }
}

/// Handling one list of files and then another is handling the two lists as
/// one.
proof fn lemma_offsets_after_concat(
    offsets: Map<Seq<char>, u64>,
    first: Seq<FileSnapshotView>,
    second: Seq<FileSnapshotView>,
)
    ensures
        offsets_after(offsets, first + second) == offsets_after(
            offsets_after(offsets, first),
            second,
        ),
    decreases second.len(),
{
    if second.len() == 0 {
        assert(first + second =~= first);
    } else {
        lemma_offsets_after_concat(offsets, first, second.drop_last());
        assert((first + second).drop_last() =~= first + second.drop_last());
        assert((first + second).last() == second.last());
    }
}

/// The offsets after a cycle are those after its files were handled in one
/// row: to which source a file belongs makes no difference to its offset.
pub proof fn lemma_cycle_offsets_by_file(
    offsets: Map<Seq<char>, u64>,
    sources: Seq<ObservedSourceView>,
)
    ensures
        cycle_offsets(offsets, sources) == offsets_after(offsets, all_files(sources)),
    decreases sources.len(),
{
    if sources.len() > 0 {
        let earlier = sources.drop_last();
        lemma_cycle_offsets_by_file(offsets, earlier);
        match sources.last().files {
            Some(files) => {
                lemma_offsets_after_concat(offsets, all_files(earlier), files);
            },
            None => {
                assert(all_files(sources) =~= all_files(earlier));
            },
        }
    }
}

/// Every file of every source is among the files of the cycle.
proof fn lemma_all_files_holds_each(sources: Seq<ObservedSourceView>, at: int, file: int)
    requires
        0 <= at < sources.len(),
        sources[at].files is Some,
        0 <= file < sources[at].files->0.len(),
    ensures
        all_files(sources).contains(sources[at].files->0[file]),
    decreases sources.len(),
{
    let earlier = sources.drop_last();
    let added = match sources.last().files {
        Some(files) => files,
        None => Seq::empty(),
    };
    if at == sources.len() - 1 {
        assert(all_files(sources)[all_files(earlier).len() + file] == added[file]);
    } else {
        lemma_all_files_holds_each(earlier, at, file);
        let found = choose|k: int|
            0 <= k < all_files(earlier).len() && all_files(earlier)[k] == earlier[at].files->0[file];
        assert(all_files(sources)[found] == all_files(earlier)[found]);
    }
}

/// The first `upto` sources of a second cycle over the same files move no
/// offset and count nothing.
proof fn lemma_recycle_prefix_is_idle(
    offsets: Map<Seq<char>, u64>,
    sources: Seq<ObservedSourceView>,
    upto: int,
)
    requires
        distinct_paths(all_files(sources)),
        0 <= upto <= sources.len(),
    ensures
        cycle_offsets(cycle_offsets(offsets, sources), sources.take(upto)) == cycle_offsets(
            offsets,
            sources,
        ),
        cycle_increments(cycle_offsets(offsets, sources), sources.take(upto)) == Seq::<
            IncrementView,
        >::empty(),
    decreases upto,
{
    let polled = cycle_offsets(offsets, sources);
    let seen = sources.take(upto);
    if upto > 0 {
        let at = upto - 1;
        let source = sources[at];
        lemma_recycle_prefix_is_idle(offsets, sources, at);
        assert(seen.drop_last() =~= sources.take(at));
        assert(seen.last() == source);
        lemma_cycle_offsets_by_file(offsets, sources);
        match source.files {
            Some(files) => {
                assert forall|j: int| 0 <= j < files.len() implies all_files(sources).contains(
                    #[trigger] files[j],
                ) by {
                    lemma_all_files_holds_each(sources, at, j);
                }
                lemma_polled_files_are_idle(source.config, offsets, all_files(sources), files);
                assert(observed_increments(polled, source) =~= Seq::<IncrementView>::empty());
            },
            None => {},
        }
        assert(cycle_increments(polled, seen) =~= Seq::<IncrementView>::empty());
    }
}

/// A cycle over files of which none has changed since the cycle before moves
/// no offset and makes no increment: polling again is without effect on the
/// counters.
pub proof fn lemma_recycle_is_idle(
    offsets: Map<Seq<char>, u64>,
    sources: Seq<ObservedSourceView>,
)
    requires
        distinct_paths(all_files(sources)),
    ensures
        cycle_offsets(cycle_offsets(offsets, sources), sources) == cycle_offsets(
            offsets,
            sources,
        ),
        cycle_increments(cycle_offsets(offsets, sources), sources) == Seq::<
            IncrementView,
        >::empty(),
{
    lemma_recycle_prefix_is_idle(offsets, sources, sources.len() as int);
    assert(sources.take(sources.len() as int) =~= sources);
}

/// Polling one list of sources and then another is polling the two lists as
/// one.
proof fn lemma_cycle_concat(
    offsets: Map<Seq<char>, u64>,
    first: Seq<ObservedSourceView>,
    second: Seq<ObservedSourceView>,
)
    ensures
        cycle_offsets(offsets, first + second) == cycle_offsets(
            cycle_offsets(offsets, first),
            second,
        ),
        cycle_increments(offsets, first + second) == cycle_increments(offsets, first)
            + cycle_increments(cycle_offsets(offsets, first), second),
    decreases second.len(),
{
    if second.len() == 0 {
        assert(first + second =~= first);
        assert(cycle_increments(offsets, first) + Seq::<IncrementView>::empty()
            =~= cycle_increments(offsets, first));
    } else {
        let shorter = second.drop_last();
        lemma_cycle_concat(offsets, first, shorter);
        assert((first + second).drop_last() =~= first + shorter);
        assert((first + second).last() == second.last());
        assert(cycle_increments(offsets, first + second) =~= cycle_increments(offsets, first)
            + cycle_increments(cycle_offsets(offsets, first), second));
    }
}

/// A source whose pattern could not be expanded holds up nothing: the
/// sources before and behind it are polled, and counted, as if it were not in
/// the list.
pub proof fn lemma_unexpanded_source_is_skipped(
    offsets: Map<Seq<char>, u64>,
    before: Seq<ObservedSourceView>,
    config: LogConfigView,
    behind: Seq<ObservedSourceView>,
)
    ensures
        ({
            let unexpanded = seq![ObservedSourceView { config, files: None }];
            &&& cycle_offsets(offsets, before + unexpanded + behind) == cycle_offsets(
                offsets,
                before + behind,
            )
            &&& cycle_increments(offsets, before + unexpanded + behind) == cycle_increments(
                offsets,
                before + behind,
            )
        }),
{
    let unexpanded = seq![ObservedSourceView { config, files: None }];
    let reached = cycle_offsets(offsets, before);
    assert(unexpanded.drop_last() =~= Seq::<ObservedSourceView>::empty());
    assert(cycle_offsets(reached, Seq::<ObservedSourceView>::empty()) == reached);
    assert(cycle_increments(reached, Seq::<ObservedSourceView>::empty()) =~= Seq::<
        IncrementView,
    >::empty());
    assert(cycle_offsets(reached, unexpanded) == reached);
    assert(cycle_increments(reached, unexpanded) =~= Seq::<IncrementView>::empty());
    lemma_cycle_concat(offsets, before, unexpanded);
    lemma_cycle_concat(offsets, before + unexpanded, behind);
    lemma_cycle_concat(offsets, before, behind);
    assert(cycle_increments(offsets, before + unexpanded) =~= cycle_increments(offsets, before));
}

} // verus!
