//! The decoding reader: from the unread bytes of a file to whole text lines.
//!
//! Only whole lines are consumed. The bytes up to the last line feed are
//! transcoded to UTF-8, cut at the line feeds and turned into text, with the
//! replacement character where a byte sequence is malformed; what stands
//! behind the last line feed is left for the next poll.

use encoding_rs_io::DecodeReaderBytes;
use std::io::Read;
use vstd::prelude::*;
use vstd::slice::slice_subrange;

verus! {

/// The line feed byte, which ends a line.
pub const LINE_FEED: u8 = 0x0A;

/// The carriage return byte, dropped where it stands before a line feed.
pub const CARRIAGE_RETURN: u8 = 0x0D;

/// What `encoding_rs_io::DecodeReaderBytes` makes of the whole stream `raw`
/// when it starts with a byte order mark: the stream in UTF-8, with the
/// replacement character where it is malformed.
pub uninterp spec fn transcoded(raw: Seq<u8>) -> Seq<u8>;

/// The text that `String::from_utf8_lossy` reads in `bytes`.
pub uninterp spec fn lossy_text(bytes: Seq<u8>) -> Seq<char>;

/// Whether a stream starts with the byte order mark of UTF-8 or UTF-16, as
/// the transcoder sniffs it: on the first three bytes, so never in a shorter
/// stream.
pub open spec fn starts_with_byte_order_mark(raw: Seq<u8>) -> bool {
    &&& raw.len() >= 3
    &&& {
        ||| raw[0] == 0xEF && raw[1] == 0xBB && raw[2] == 0xBF
        ||| raw[0] == 0xFF && raw[1] == 0xFE
        ||| raw[0] == 0xFE && raw[1] == 0xFF
    }
}

/// The stream `raw` as the transcoder hands it on: transcoded where it starts
/// with a byte order mark, as it is where it does not.
pub open spec fn utf8_stream(raw: Seq<u8>) -> Seq<u8> {
    if starts_with_byte_order_mark(raw) {
        transcoded(raw)
    } else {
        raw
    }
}

/// Reads the stream `raw` to its end through a new
/// `encoding_rs_io::DecodeReaderBytes`. Claimed, not proved: a stream without
/// a byte order mark comes out as it went in, and what comes out of one with
/// a byte order mark depends on its bytes alone.
#[verifier::external_body]
pub(crate) fn transcode(raw: &[u8]) -> (out: Vec<u8>)
    ensures
        starts_with_byte_order_mark(raw@) ==> out@ == transcoded(raw@),
        !starts_with_byte_order_mark(raw@) ==> out@ == raw@,
{
    let mut out = Vec::new();
    let _ = DecodeReaderBytes::new(raw).read_to_end(&mut out);
    out
}

/// Turns bytes into text with `String::from_utf8_lossy`. Claimed, not proved:
/// the text depends on the bytes alone.
#[verifier::external_body]
pub(crate) fn to_text(bytes: &[u8]) -> (text: String)
    ensures
        text@ == lossy_text(bytes@),
{
    String::from_utf8_lossy(bytes).into_owned()
}

/// Length of the longest prefix of `bytes` that is made of whole lines:
/// one past the last line feed, or 0 where there is none.
pub open spec fn complete_len(bytes: Seq<u8>) -> nat
    decreases bytes.len(),
{
    if bytes.len() == 0 {
        0
    } else if bytes.last() == LINE_FEED {
        bytes.len()
    } else {
        complete_len(bytes.drop_last())
    }
}

/// Whether `bytes` is made of whole lines: empty, or ended by a line feed.
pub open spec fn ends_lines(bytes: Seq<u8>) -> bool {
    bytes.len() > 0 ==> bytes.last() == LINE_FEED
}

/// Index of the first line feed in `bytes`, or `bytes.len()` where there is
/// none.
pub open spec fn first_line_feed(bytes: Seq<u8>) -> nat
    decreases bytes.len(),
{
    if bytes.len() == 0 || bytes[0] == LINE_FEED {
        0
    } else {
        1 + first_line_feed(bytes.skip(1))
    }
}

/// A line without the carriage return that stood before its line feed.
pub open spec fn strip_carriage_return(line: Seq<u8>) -> Seq<u8> {
    if line.len() > 0 && line.last() == CARRIAGE_RETURN {
        line.drop_last()
    } else {
        line
    }
}

/// The lines of `bytes`. A line ends at a line feed, which is dropped together
/// with a carriage return before it. What follows the last line feed is a
/// line of its own, kept as it is, unless it is empty.
pub open spec fn split_lines(bytes: Seq<u8>) -> Seq<Seq<u8>>
    decreases bytes.len(),
{
    if bytes.len() == 0 {
        Seq::empty()
    } else {
        let end = first_line_feed(bytes);
        if end >= bytes.len() {
            seq![bytes]
        } else {
            seq![strip_carriage_return(bytes.take(end as int))] + split_lines(
                bytes.skip(end as int + 1),
            )
        }
    }
}

/// Each line turned into text.
pub open spec fn decode_each(lines: Seq<Seq<u8>>) -> Seq<Seq<char>> {
    lines.map_values(|line: Seq<u8>| lossy_text(line))
}

/// The text lines read in `region`, a run of whole lines: the region is
/// transcoded as one stream, then cut into lines.
pub open spec fn decoded_lines(region: Seq<u8>) -> Seq<Seq<char>> {
    decode_each(split_lines(utf8_stream(region)))
}

/// The new lines of a file, and how far they reach.
#[derive(Clone, Debug)]
pub struct NewLines {
    /// The whole lines, as text.
    pub lines: Vec<String>,
    /// The number of bytes that hold them, counted from the start of the
    /// chunk that was read.
    pub consumed: usize,
}

/// `first_line_feed` finds a line feed, or the end, and none stands before it.
pub proof fn lemma_first_line_feed(bytes: Seq<u8>)
    ensures
        first_line_feed(bytes) <= bytes.len(),
        first_line_feed(bytes) < bytes.len() ==> bytes[first_line_feed(bytes) as int] == LINE_FEED,
        forall|k: int| 0 <= k < first_line_feed(bytes) ==> bytes[k] != LINE_FEED,
    decreases bytes.len(),
{
    if bytes.len() == 0 || bytes[0] == LINE_FEED {
    } else {
        let rest = bytes.skip(1);
        lemma_first_line_feed(rest);
        assert forall|k: int| 0 <= k < first_line_feed(bytes) implies bytes[k] != LINE_FEED by {
            if k > 0 {
                assert(bytes[k] == rest[k - 1]);
            }
        }
    }
}

/// The place `at`, where a line feed or the end stands with no line feed
/// before it, is the one that `first_line_feed` finds.
pub proof fn lemma_first_line_feed_at(bytes: Seq<u8>, at: int)
    requires
        0 <= at <= bytes.len(),
        at < bytes.len() ==> bytes[at] == LINE_FEED,
        forall|k: int| 0 <= k < at ==> bytes[k] != LINE_FEED,
    ensures
        first_line_feed(bytes) == at,
{
    lemma_first_line_feed(bytes);
}

/// The whole lines of `bytes` end at a line feed, and no line feed follows.
pub proof fn lemma_complete_len(bytes: Seq<u8>)
    ensures
        complete_len(bytes) <= bytes.len(),
        complete_len(bytes) > 0 ==> bytes[complete_len(bytes) - 1] == LINE_FEED,
        forall|k: int| complete_len(bytes) <= k < bytes.len() ==> bytes[k] != LINE_FEED,
    decreases bytes.len(),
{
    if bytes.len() == 0 {
    } else if bytes.last() == LINE_FEED {
    } else {
        let shorter = bytes.drop_last();
        lemma_complete_len(shorter);
        assert forall|k: int| complete_len(bytes) <= k < bytes.len() implies bytes[k]
            != LINE_FEED by {
            if k < shorter.len() {
                assert(bytes[k] == shorter[k]);
            }
        }
    }
}

/// The place `at`, which follows a line feed or is the start and has no line
/// feed behind it, is the one where the whole lines of `bytes` end.
pub proof fn lemma_complete_len_at(bytes: Seq<u8>, at: int)
    requires
        0 <= at <= bytes.len(),
        at > 0 ==> bytes[at - 1] == LINE_FEED,
        forall|k: int| at <= k < bytes.len() ==> bytes[k] != LINE_FEED,
    ensures
        complete_len(bytes) == at,
{
    lemma_complete_len(bytes);
}

/// Whole lines followed by more bytes split as the two parts do, one after
/// the other: no line is lost, doubled or joined where the parts meet.
pub proof fn lemma_split_lines_concat(whole: Seq<u8>, more: Seq<u8>)
    requires
        ends_lines(whole),
    ensures
        split_lines(whole + more) == split_lines(whole) + split_lines(more),
    decreases whole.len(),
{
    if whole.len() == 0 {
        assert(whole + more =~= more);
        assert(split_lines(whole) + split_lines(more) =~= split_lines(more));
    } else {
        let both = whole + more;
        let end = first_line_feed(whole) as int;
        lemma_first_line_feed(whole);
        assert(end < whole.len()) by {
            if end >= whole.len() {
                assert(whole[whole.len() - 1] != LINE_FEED);
            }
        }
        assert forall|k: int| 0 <= k < end implies both[k] != LINE_FEED by {
            assert(both[k] == whole[k]);
        }
        assert(both[end] == whole[end]);
        lemma_first_line_feed_at(both, end);
        let rest = whole.skip(end + 1);
        assert(both.take(end) =~= whole.take(end));
        assert(both.skip(end + 1) =~= rest + more);
        assert(ends_lines(rest)) by {
            if rest.len() > 0 {
                assert(rest.last() == whole.last());
            }
        }
        lemma_split_lines_concat(rest, more);
        assert(split_lines(both) =~= split_lines(whole) + split_lines(more));
    }
}

/// One line with its line feed splits into that line alone.
pub proof fn lemma_split_one_line(line: Seq<u8>)
    requires
        forall|k: int| 0 <= k < line.len() ==> line[k] != LINE_FEED,
    ensures
        split_lines(line.push(LINE_FEED)) == seq![strip_carriage_return(line)],
{
    let ended = line.push(LINE_FEED);
    lemma_first_line_feed_at(ended, line.len() as int);
    assert(ended.take(line.len() as int) =~= line);
    assert(ended.skip(line.len() as int + 1) =~= Seq::<u8>::empty());
    assert(split_lines(Seq::<u8>::empty()) =~= Seq::<Seq<u8>>::empty());
    assert(split_lines(ended) =~= seq![strip_carriage_return(line)]);
}

/// Bytes without a line feed are one line, unless there are none.
pub proof fn lemma_split_unended(tail: Seq<u8>)
    requires
        forall|k: int| 0 <= k < tail.len() ==> tail[k] != LINE_FEED,
    ensures
        split_lines(tail) == if tail.len() == 0 {
            Seq::<Seq<u8>>::empty()
        } else {
            seq![tail]
        },
{
    lemma_first_line_feed_at(tail, tail.len() as int);
}

/// Finds where the whole lines of `bytes` end.
pub fn complete_prefix_len(bytes: &[u8]) -> (n: usize)
    ensures
        n == complete_len(bytes@),
        n <= bytes@.len(),
{
    let mut n: usize = bytes.len();
    assert(bytes@.take(n as int) =~= bytes@);
    while n > 0 && bytes[n - 1] != LINE_FEED
        invariant
            n <= bytes.len(),
            complete_len(bytes@) == complete_len(bytes@.take(n as int)),
        decreases n,
    {
        assert(bytes@.take(n as int).drop_last() =~= bytes@.take(n - 1));
        n = n - 1;
    }
    n
}

/// Cuts UTF-8 `text` into lines and turns each into a string.
pub fn text_lines(text: &[u8]) -> (lines: Vec<String>)
    ensures
        lines.deep_view() == decode_each(split_lines(text@)),
{
    let mut lines: Vec<String> = Vec::new();
    let mut start: usize = 0;
    let mut i: usize = 0;
    assert(text@.take(0) =~= Seq::<u8>::empty());
    assert(lines.deep_view() =~= decode_each(split_lines(text@.take(0))));
    while i < text.len()
        invariant
            start <= i <= text.len(),
            ends_lines(text@.take(start as int)),
            forall|k: int| start <= k < i ==> text@[k] != LINE_FEED,
            lines.deep_view() == decode_each(split_lines(text@.take(start as int))),
        decreases text.len() - i,
    {
        if text[i] == LINE_FEED {
            let end = if start < i && text[i - 1] == CARRIAGE_RETURN {
                i - 1
            } else {
                i
            };
            let line = to_text(slice_subrange(text, start, end));
            proof {
                let done = text@.take(start as int);
                let raw = text@.subrange(start as int, i as int);
                assert(text@.subrange(start as int, end as int) =~= strip_carriage_return(raw));
                assert(text@.take(i + 1) =~= done + raw.push(LINE_FEED));
                lemma_split_lines_concat(done, raw.push(LINE_FEED));
                lemma_split_one_line(raw);
                assert(decode_each(split_lines(text@.take(i + 1))) =~= decode_each(
                    split_lines(done),
                ).push(line@));
            }
            let ghost before = lines.deep_view();
            lines.push(line);
            assert(lines.deep_view() =~= before.push(line@));
            start = i + 1;
        }
        i = i + 1;
    }
    if start < text.len() {
        let line = to_text(slice_subrange(text, start, text.len()));
        proof {
            let done = text@.take(start as int);
            let tail = text@.skip(start as int);
            assert(text@.subrange(start as int, text.len() as int) =~= tail);
            assert(text@ =~= done + tail);
            lemma_split_lines_concat(done, tail);
            lemma_split_unended(tail);
            assert(decode_each(split_lines(text@)) =~= decode_each(split_lines(done)).push(
                line@,
            ));
        }
        let ghost before = lines.deep_view();
        lines.push(line);
        assert(lines.deep_view() =~= before.push(line@));
    } else {
        assert(text@.take(start as int) =~= text@);
    }
    lines
}

/// Reads the whole lines at the start of `chunk`, the unread bytes of a file.
pub fn read_lines(chunk: &[u8]) -> (new: NewLines)
    ensures
        new.consumed == complete_len(chunk@),
        new.lines.deep_view() == decoded_lines(chunk@.take(complete_len(chunk@) as int)),
{
    let consumed = complete_prefix_len(chunk);
    if consumed == 0 {
        let lines: Vec<String> = Vec::new();
        assert(chunk@.take(0) =~= Seq::<u8>::empty());
        assert(lines.deep_view() =~= decoded_lines(Seq::<u8>::empty()));
        return NewLines { lines, consumed };
    }
    let region = slice_subrange(chunk, 0, consumed);
    assert(region@ =~= chunk@.take(consumed as int));
    let text = transcode(region);
    let lines = text_lines(text.as_slice());
    NewLines { lines, consumed }
}

} // verus!
