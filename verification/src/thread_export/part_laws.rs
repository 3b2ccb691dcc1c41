//! Properties of the semantic part plan: every part fits, the units keep their order, a
//! part's payload has exactly its planned size, and cleaning up claims only part files.

use vstd::prelude::*;

use vstd::utf8::*;

use crate::processing::data_structures::ThreadModel;
use crate::text::{bytes_end_with, bytes_start_with};
use super::full_export::{complete_thread_block, full_output_file_name, partial_output_file_name};
use super::semantic_parts::{
    is_part_file_name, is_slice_stop, part_file_name, partial_part_file_name, pack_units, thread_units, planned_parts, slice_end, text_slice, tweet_slices,
    tweet_slices_from, unit_size, unit_text, units_of_threads, units_size, units_text, utf8_bytes,
    PartModel, PlanFailure, SemanticUnitDescriptor,
};

verus! {

/// The units of a list of parts, concatenated in order.
pub open spec fn parts_units(parts: Seq<PartModel>) -> Seq<SemanticUnitDescriptor>
    decreases parts.len(),
{
    if parts.len() == 0 {
        Seq::empty()
    } else {
        parts_units(parts.drop_last()) + parts.last().units
    }
}

/// The UTF-8 encoding of a concatenation is the concatenation of the encodings.
pub proof fn lemma_encode_utf8_concat(a: Seq<char>, b: Seq<char>)
    ensures
        encode_utf8(a + b) == encode_utf8(a) + encode_utf8(b),
    decreases a.len(),
{
    if a.len() == 0 {
        assert(a + b =~= b);
        assert(encode_utf8(a) + encode_utf8(b) =~= encode_utf8(b));
    } else {
        assert((a + b).drop_first() =~= a.drop_first() + b);
        assert((a + b)[0] == a[0]);
        lemma_encode_utf8_concat(a.drop_first(), b);
        assert(encode_utf8(a + b) =~= encode_utf8(a) + encode_utf8(b));
    }
}

/// A non-empty text has a non-empty encoding.
proof fn lemma_encode_utf8_nonempty(text: Seq<char>)
    requires
        text.len() > 0,
    ensures
        encode_utf8(text).len() > 0,
{
    assert(encode_scalar(text[0] as u32).len() > 0);
}

/// Every unit renders to a non-empty text.
pub proof fn lemma_unit_size_positive(threads: Seq<ThreadModel>, d: SemanticUnitDescriptor)
    ensures
        unit_size(threads, d) > 0,
{
    reveal(unit_text);
    reveal_strlit("--- End of Thread ---\n\n");
    let text = unit_text(threads, d);
    assert(text.len() > 0);
    lemma_encode_utf8_nonempty(text);
}

/// The encoded size of the concatenated texts of some units is the sum of their sizes.
pub proof fn lemma_units_text_size(threads: Seq<ThreadModel>, units: Seq<SemanticUnitDescriptor>)
    ensures
        utf8_bytes(units_text(threads, units)).len() == units_size(threads, units),
    decreases units.len(),
{
    if units.len() > 0 {
        lemma_units_text_size(threads, units.drop_last());
        lemma_encode_utf8_concat(
            units_text(threads, units.drop_last()),
            unit_text(threads, units.last()),
        );
    }
}

/// The shape of a greedy packing: the parts hold the units in order, every part is non-empty
/// and stays under the limit, and its size is the sum of its units' sizes.
proof fn lemma_pack_units_shape(
    threads: Seq<ThreadModel>,
    limit: nat,
    units: Seq<SemanticUnitDescriptor>,
    parts: Seq<PartModel>,
)
    requires
        pack_units(threads, limit, units) == Ok::<Seq<PartModel>, PlanFailure>(parts),
    ensures
        parts_units(parts) == units,
        forall|k: int|
            0 <= k < parts.len() ==> {
                &&& (#[trigger] parts[k]).units.len() > 0
                &&& 0 < parts[k].bytes < limit
                &&& parts[k].bytes == units_size(threads, parts[k].units)
            },
    decreases units.len(),
{
    if units.len() == 0 {
    } else {
        let before = match pack_units(threads, limit, units.drop_last()) {
            Ok(p) => p,
            Err(_) => Seq::empty(),
        };
        lemma_pack_units_shape(threads, limit, units.drop_last(), before);
        let unit = units.last();
        let size = unit_size(threads, unit);
        lemma_unit_size_positive(threads, unit);
        if before.len() > 0 && before.last().bytes + size < limit {
            let last = before.last();
            let grown = PartModel { units: last.units.push(unit), bytes: last.bytes + size };
            assert(parts == before.update(before.len() - 1, grown));
            assert(grown.units.drop_last() =~= last.units);
            assert(parts.drop_last() =~= before.drop_last());
            assert(parts_units(before) == parts_units(before.drop_last()) + last.units);
            assert(units =~= units.drop_last().push(unit));
            assert(parts_units(parts) =~= units);
            assert forall|k: int| 0 <= k < parts.len() implies {
                &&& (#[trigger] parts[k]).units.len() > 0
                &&& 0 < parts[k].bytes < limit
                &&& parts[k].bytes == units_size(threads, parts[k].units)
            } by {
                if k < before.len() - 1 {
                    assert(parts[k] == before[k]);
                }
            }
        } else {
            let fresh = PartModel { units: seq![unit], bytes: size };
            assert(parts == before.push(fresh));
            assert(parts.drop_last() =~= before);
            assert(fresh.units.drop_last() =~= Seq::<SemanticUnitDescriptor>::empty());
            assert(units =~= units.drop_last() + seq![unit]);
            assert forall|k: int| 0 <= k < parts.len() implies {
                &&& (#[trigger] parts[k]).units.len() > 0
                &&& 0 < parts[k].bytes < limit
                &&& parts[k].bytes == units_size(threads, parts[k].units)
            } by {
                if k < before.len() {
                    assert(parts[k] == before[k]);
                } else {
                    assert(parts[k] == fresh);
                    assert(units_size(threads, fresh.units.drop_last()) == 0);
                    assert(fresh.units.last() == unit);
                }
            }
        }
    }
}

/// Every planned part holds at least one unit, is non-empty, stays strictly under the
/// exclusive limit, and records exactly the sum of its units' encoded sizes.
pub proof fn lemma_planned_parts_respect_limit(
    threads: Seq<ThreadModel>,
    limit: nat,
    parts: Seq<PartModel>,
)
    requires
        planned_parts(threads, limit) == Ok::<Seq<PartModel>, PlanFailure>(parts),
    ensures
        forall|k: int|
            0 <= k < parts.len() ==> {
                &&& (#[trigger] parts[k]).units.len() > 0
                &&& 0 < parts[k].bytes < limit
                &&& parts[k].bytes == units_size(threads, parts[k].units)
            },
{
    let units = match units_of_threads(threads, limit, threads.len()) {
        Ok(u) => u,
        Err(_) => Seq::empty(),
    };
    lemma_pack_units_shape(threads, limit, units, parts);
}

/// The parts hold the units of the threads in thread order, nothing dropped or reordered.
pub proof fn lemma_planned_parts_keep_order(
    threads: Seq<ThreadModel>,
    limit: nat,
    parts: Seq<PartModel>,
)
    requires
        planned_parts(threads, limit) == Ok::<Seq<PartModel>, PlanFailure>(parts),
    ensures
        units_of_threads(threads, limit, threads.len()) == Ok::<_, PlanFailure>(
            parts_units(parts),
        ),
{
    let units = match units_of_threads(threads, limit, threads.len()) {
        Ok(u) => u,
        Err(_) => Seq::empty(),
    };
    lemma_pack_units_shape(threads, limit, units, parts);
}

/// A part's payload, the concatenated texts of its units, has exactly the part's planned
/// size, which is strictly under the limit.
pub proof fn lemma_part_payload_size(
    threads: Seq<ThreadModel>,
    limit: nat,
    parts: Seq<PartModel>,
    k: int,
)
    requires
        planned_parts(threads, limit) == Ok::<Seq<PartModel>, PlanFailure>(parts),
        0 <= k < parts.len(),
    ensures
        utf8_bytes(units_text(threads, parts[k].units)).len() == parts[k].bytes,
        0 < parts[k].bytes < limit,
{
    lemma_planned_parts_respect_limit(threads, limit, parts);
    lemma_units_text_size(threads, parts[k].units);
}

/// The text pieces that a list of tweet-slice units carries, concatenated in order.
pub open spec fn slice_units_text(text: Seq<char>, units: Seq<SemanticUnitDescriptor>) -> Seq<char>
    decreases units.len(),
{
    if units.len() == 0 {
        Seq::empty()
    } else {
        let piece = match units[0] {
            SemanticUnitDescriptor::TweetContinuation { text_start, text_end, .. } => text_slice(
                text,
                text_start as nat,
                text_end as nat,
            ),
            _ => Seq::empty(),
        };
        piece + slice_units_text(text, units.drop_first())
    }
}

/// Between two character boundaries of a valid encoding lies a valid encoding, and every
/// boundary in between is one of it too.
proof fn lemma_boundary_in_subrange(bytes: Seq<u8>, start: int, end: int, x: int)
    requires
        valid_utf8(bytes),
        0 <= start <= x <= end <= bytes.len(),
        is_char_boundary(bytes, start),
        is_char_boundary(bytes, end),
        is_char_boundary(bytes, x),
    ensures
        valid_utf8(bytes.subrange(start, end)),
        is_char_boundary(bytes.subrange(start, end), x - start),
{
    let suffix = bytes.subrange(start, bytes.len() as int);
    valid_utf8_split(bytes, start);
    if end < bytes.len() {
        is_char_boundary_iff_not_is_continuation_byte(bytes, end);
        is_char_boundary_iff_not_is_continuation_byte(suffix, end - start);
    } else {
        is_char_boundary_start_end_of_seq(suffix);
    }
    valid_utf8_split(suffix, end - start);
    let sub = bytes.subrange(start, end);
    assert(suffix.subrange(0, end - start) =~= sub);
    if x < end {
        is_char_boundary_iff_not_is_continuation_byte(bytes, x);
        is_char_boundary_iff_not_is_continuation_byte(sub, x - start);
    } else {
        is_char_boundary_start_end_of_seq(sub);
    }
}

/// Two adjacent slices of a text, cut at character boundaries, make up the slice they span.
proof fn lemma_text_slices_join(text: Seq<char>, start: nat, mid: nat, end: nat)
    requires
        start <= mid <= end <= utf8_bytes(text).len(),
        is_char_boundary(utf8_bytes(text), start as int),
        is_char_boundary(utf8_bytes(text), mid as int),
        is_char_boundary(utf8_bytes(text), end as int),
    ensures
        text_slice(text, start, mid) + text_slice(text, mid, end) == text_slice(text, start, end),
{
    let bytes = utf8_bytes(text);
    encode_utf8_valid_utf8(text);
    lemma_boundary_in_subrange(bytes, start as int, end as int, mid as int);
    let sub = bytes.subrange(start as int, end as int);
    decode_utf8_split(sub, mid - start);
    assert(sub.subrange(0, mid - start) =~= bytes.subrange(start as int, mid as int));
    assert(sub.subrange(mid - start, sub.len() as int) =~= bytes.subrange(mid as int, end as int));
}

/// The slices produced from byte `start` on carry exactly the rest of the text.
proof fn lemma_tweet_slices_from_cover(
    threads: Seq<ThreadModel>,
    t: nat,
    i: nat,
    thread_ordinal: nat,
    limit: nat,
    start: nat,
    slice_ordinal: nat,
    units: Seq<SemanticUnitDescriptor>,
)
    requires
        tweet_slices_from(threads, t, i, thread_ordinal, limit, start, slice_ordinal) == Ok::<
            _,
            PlanFailure,
        >(units),
        start <= utf8_bytes(threads[t as int].tweets[i as int].full_text).len(),
        utf8_bytes(threads[t as int].tweets[i as int].full_text).len() <= usize::MAX,
        is_char_boundary(utf8_bytes(threads[t as int].tweets[i as int].full_text), start as int),
    ensures
        slice_units_text(threads[t as int].tweets[i as int].full_text, units) == text_slice(
            threads[t as int].tweets[i as int].full_text,
            start,
            utf8_bytes(threads[t as int].tweets[i as int].full_text).len(),
        ),
    decreases utf8_bytes(threads[t as int].tweets[i as int].full_text).len() - start,
{
    let text = threads[t as int].tweets[i as int].full_text;
    let bytes = utf8_bytes(text);
    encode_utf8_valid_utf8(text);
    is_char_boundary_start_end_of_seq(bytes);
    if start >= bytes.len() {
        assert(bytes.subrange(start as int, bytes.len() as int) =~= Seq::<u8>::empty());
        assert(decode_utf8(Seq::<u8>::empty()) =~= Seq::<char>::empty());
    } else {
        let metadata = unit_size(
            threads,
            super::semantic_parts::slice_unit(t, i, start, start, thread_ordinal, slice_ordinal),
        );
        let available = (limit - metadata - 1) as nat;
        let cap = if start + available <= bytes.len() {
            start + available
        } else {
            bytes.len()
        };
        let end = slice_end(bytes, start, cap);
        assert(exists|e: nat| is_slice_stop(bytes, start, cap, e));
        assert(is_slice_stop(bytes, start, cap, end));
        let rest = match tweet_slices_from(
            threads,
            t,
            i,
            thread_ordinal + 1,
            limit,
            end,
            slice_ordinal + 1,
        ) {
            Ok(r) => r,
            Err(_) => Seq::empty(),
        };
        lemma_tweet_slices_from_cover(
            threads,
            t,
            i,
            thread_ordinal + 1,
            limit,
            end,
            slice_ordinal + 1,
            rest,
        );
        assert(units.drop_first() =~= rest);
        lemma_text_slices_join(text, start, end, bytes.len());
    }
}

/// Splitting an oversized tweet cuts its text only at character boundaries: the slices,
/// concatenated in order, give back the tweet's text exactly.
pub proof fn lemma_tweet_slices_rebuild_text(
    threads: Seq<ThreadModel>,
    t: nat,
    i: nat,
    thread_ordinal: nat,
    limit: nat,
    units: Seq<SemanticUnitDescriptor>,
)
    requires
        0 <= t < threads.len(),
        0 <= i < threads[t as int].tweets.len(),
        tweet_slices(threads, t, i, thread_ordinal, limit) == Ok::<_, PlanFailure>(units),
        utf8_bytes(threads[t as int].tweets[i as int].full_text).len() <= usize::MAX,
    ensures
        slice_units_text(threads[t as int].tweets[i as int].full_text, units)
            == threads[t as int].tweets[i as int].full_text,
{
    let text = threads[t as int].tweets[i as int].full_text;
    let bytes = utf8_bytes(text);
    encode_utf8_valid_utf8(text);
    is_char_boundary_start_end_of_seq(bytes);
    lemma_tweet_slices_from_cover(threads, t, i, thread_ordinal, limit, 0, 1, units);
    assert(bytes.subrange(0, bytes.len() as int) =~= bytes);
    encode_utf8_decode_utf8(text);
}

/// The complete export text of the first `count` threads: their whole blocks, in order.
pub open spec fn complete_threads_text(threads: Seq<ThreadModel>, count: nat) -> Seq<char>
    decreases count,
{
    if count == 0 {
        Seq::empty()
    } else {
        complete_threads_text(threads, (count - 1) as nat) + complete_thread_block(
            threads[count - 1],
        )
    }
}

/// The payloads of a list of parts, concatenated in order.
pub open spec fn parts_text(threads: Seq<ThreadModel>, parts: Seq<PartModel>) -> Seq<char>
    decreases parts.len(),
{
    if parts.len() == 0 {
        Seq::empty()
    } else {
        parts_text(threads, parts.drop_last()) + units_text(threads, parts.last().units)
    }
}

/// One whole-thread unit for each of the first `count` threads.
pub open spec fn whole_thread_units(count: nat) -> Seq<SemanticUnitDescriptor> {
    Seq::new(count, |t: int| SemanticUnitDescriptor::CompleteThread { thread_index: t as usize })
}

/// The texts of two lists of units, one after the other, are the text of their concatenation.
proof fn lemma_units_text_concat(
    threads: Seq<ThreadModel>,
    a: Seq<SemanticUnitDescriptor>,
    b: Seq<SemanticUnitDescriptor>,
)
    ensures
        units_text(threads, a + b) == units_text(threads, a) + units_text(threads, b),
    decreases b.len(),
{
    if b.len() == 0 {
        assert(a + b =~= a);
    } else {
        lemma_units_text_concat(threads, a, b.drop_last());
        assert((a + b).drop_last() =~= a + b.drop_last());
        assert((a + b).last() == b.last());
    }
}

/// The parts' payloads, concatenated, are the text of all their units.
proof fn lemma_parts_text_is_units_text(threads: Seq<ThreadModel>, parts: Seq<PartModel>)
    ensures
        parts_text(threads, parts) == units_text(threads, parts_units(parts)),
    decreases parts.len(),
{
    if parts.len() > 0 {
        lemma_parts_text_is_units_text(threads, parts.drop_last());
        lemma_units_text_concat(threads, parts_units(parts.drop_last()), parts.last().units);
    }
}

/// The whole-thread units of the first `count` threads render the complete export text.
proof fn lemma_whole_units_text(threads: Seq<ThreadModel>, count: nat)
    requires
        count <= usize::MAX,
    ensures
        units_text(threads, whole_thread_units(count)) == complete_threads_text(threads, count),
    decreases count,
{
    reveal(unit_text);
    if count > 0 {
        lemma_whole_units_text(threads, (count - 1) as nat);
        assert(whole_thread_units(count).drop_last() =~= whole_thread_units((count - 1) as nat));
    }
}

/// When every one of the first `count` threads has tweets and its whole block fits, each
/// thread is one whole unit.
proof fn lemma_fitting_threads_stay_whole(threads: Seq<ThreadModel>, limit: nat, count: nat)
    requires
        count <= threads.len(),
        threads.len() <= usize::MAX,
        forall|t: int|
            0 <= t < threads.len() ==> (#[trigger] threads[t]).tweets.len() > 0 && unit_size(
                threads,
                SemanticUnitDescriptor::CompleteThread { thread_index: t as usize },
            ) < limit,
    ensures
        units_of_threads(threads, limit, count) == Ok::<_, PlanFailure>(whole_thread_units(count)),
    decreases count,
{
    if count == 0 {
        assert(whole_thread_units(0) =~= Seq::<SemanticUnitDescriptor>::empty());
    } else {
        let t = (count - 1) as nat;
        lemma_fitting_threads_stay_whole(threads, limit, t);
        assert(threads[t as int].tweets.len() > 0);
        assert(thread_units(threads, t, limit) == Ok::<_, PlanFailure>(
            seq![SemanticUnitDescriptor::CompleteThread { thread_index: t as usize }],
        ));
        assert(whole_thread_units(t) + seq![
            SemanticUnitDescriptor::CompleteThread { thread_index: t as usize },
        ] =~= whole_thread_units(count));
    }
}

/// When every thread's whole block fits under the limit, the parts' payloads, concatenated in
/// order, are exactly the complete export text.
pub proof fn lemma_fitting_threads_rebuild_full_text(
    threads: Seq<ThreadModel>,
    limit: nat,
    parts: Seq<PartModel>,
)
    requires
        threads.len() <= usize::MAX,
        forall|t: int|
            0 <= t < threads.len() ==> (#[trigger] threads[t]).tweets.len() > 0 && unit_size(
                threads,
                SemanticUnitDescriptor::CompleteThread { thread_index: t as usize },
            ) < limit,
        planned_parts(threads, limit) == Ok::<Seq<PartModel>, PlanFailure>(parts),
    ensures
        parts_text(threads, parts) == complete_threads_text(threads, threads.len()),
{
    lemma_fitting_threads_stay_whole(threads, limit, threads.len());
    lemma_planned_parts_keep_order(threads, limit, parts);
    lemma_parts_text_is_units_text(threads, parts);
    lemma_whole_units_text(threads, threads.len());
}

/// Each unit's size is at most the total size of a list holding it.
proof fn lemma_unit_size_within_total(
    threads: Seq<ThreadModel>,
    units: Seq<SemanticUnitDescriptor>,
    k: int,
)
    requires
        0 <= k < units.len(),
    ensures
        unit_size(threads, units[k]) <= units_size(threads, units),
    decreases units.len(),
{
    if k < units.len() - 1 {
        lemma_unit_size_within_total(threads, units.drop_last(), k);
    }
}

/// Units whose total size fits under the limit are packed into one part.
proof fn lemma_pack_units_single(
    threads: Seq<ThreadModel>,
    limit: nat,
    units: Seq<SemanticUnitDescriptor>,
)
    requires
        units.len() > 0,
        units_size(threads, units) < limit,
    ensures
        pack_units(threads, limit, units) == Ok::<Seq<PartModel>, PlanFailure>(
            seq![PartModel { units, bytes: units_size(threads, units) }],
        ),
    decreases units.len(),
{
    let unit = units.last();
    lemma_unit_size_within_total(threads, units, units.len() - 1);
    let size = unit_size(threads, unit);
    if units.len() == 1 {
        assert(units.drop_last() =~= Seq::<SemanticUnitDescriptor>::empty());
        assert(units_size(threads, units.drop_last()) == 0);
        assert(seq![unit] =~= units);
        assert(pack_units(threads, limit, units.drop_last()) == Ok::<Seq<PartModel>, PlanFailure>(
            Seq::empty(),
        ));
        assert(Seq::<PartModel>::empty().push(PartModel { units: seq![unit], bytes: size })
            =~= seq![PartModel { units, bytes: units_size(threads, units) }]);
    } else {
        let before = units.drop_last();
        lemma_pack_units_single(threads, limit, before);
        assert(before.push(unit) =~= units);
        let first = PartModel { units: before, bytes: units_size(threads, before) };
        assert(seq![first].update(
            0,
            PartModel { units: first.units.push(unit), bytes: first.bytes + size },
        ) =~= seq![PartModel { units, bytes: units_size(threads, units) }]);
    }
}

/// When the complete export text fits under the limit, the plan is a single part holding every
/// thread whole, and that part's payload is exactly the complete export text.
pub proof fn lemma_small_export_is_one_part(threads: Seq<ThreadModel>, limit: nat)
    requires
        0 < threads.len() <= usize::MAX,
        forall|t: int| 0 <= t < threads.len() ==> (#[trigger] threads[t]).tweets.len() > 0,
        utf8_bytes(complete_threads_text(threads, threads.len())).len() < limit,
    ensures
        planned_parts(threads, limit) == Ok::<Seq<PartModel>, PlanFailure>(
            seq![
                PartModel {
                    units: whole_thread_units(threads.len()),
                    bytes: utf8_bytes(complete_threads_text(threads, threads.len())).len(),
                },
            ],
        ),
        units_text(threads, whole_thread_units(threads.len())) == complete_threads_text(
            threads,
            threads.len(),
        ),
{
    let n = threads.len();
    let whole = whole_thread_units(n);
    lemma_whole_units_text(threads, n);
    lemma_units_text_size(threads, whole);
    assert forall|t: int| 0 <= t < threads.len() implies (#[trigger] threads[t]).tweets.len() > 0
        && unit_size(
        threads,
        SemanticUnitDescriptor::CompleteThread { thread_index: t as usize },
    ) < limit by {
        lemma_unit_size_within_total(threads, whole, t);
    }
    lemma_fitting_threads_stay_whole(threads, limit, n);
    lemma_pack_units_single(threads, limit, whole);
}

/// An ASCII text encodes to one byte per character.
proof fn lemma_ascii_encoding(chars: Seq<char>)
    requires
        forall|i: int| 0 <= i < chars.len() ==> (#[trigger] chars[i]) as u32 <= 0x7f,
    ensures
        encode_utf8(chars).len() == chars.len(),
        forall|i: int|
            0 <= i < chars.len() ==> #[trigger] encode_utf8(chars)[i] == leading_byte_width_1(
                chars[i] as u32,
            ),
    decreases chars.len(),
{
    if chars.len() > 0 {
        let rest = chars.drop_first();
        assert forall|i: int| 0 <= i < rest.len() implies (#[trigger] rest[i]) as u32 <= 0x7f by {
            assert(rest[i] == chars[i + 1]);
        }
        lemma_ascii_encoding(rest);
        assert(chars[0] as u32 <= 0x7f);
        assert(encode_scalar(chars[0] as u32) == seq![leading_byte_width_1(chars[0] as u32)]);
        assert(encode_utf8(chars) == seq![leading_byte_width_1(chars[0] as u32)] + encode_utf8(rest));
        assert forall|i: int| 0 <= i < chars.len() implies #[trigger] encode_utf8(chars)[i]
            == leading_byte_width_1(chars[i] as u32) by {
            if i > 0 {
                assert(rest[i - 1] == chars[i]);
            }
        }
    }
}

/// Cleaning up a parts attempt claims every committed or temporary numbered part file, and
/// never the complete TXT or its temporary file.
pub proof fn lemma_part_cleanup_spares_full_output(ordinal: nat)
    ensures
        is_part_file_name(part_file_name(ordinal)),
        is_part_file_name(partial_part_file_name(ordinal)),
        !is_part_file_name(full_output_file_name()),
        !is_part_file_name(partial_output_file_name()),
{
    let prefix = "tweet-scrolls-part-"@;
    let digits = crate::text::zero_padded(ordinal, 3);
    let txt = ".txt"@;
    let partial = ".partial"@;
    let name = part_file_name(ordinal);
    reveal_strlit("tweet-scrolls-part-");
    reveal_strlit(".txt");
    reveal_strlit(".partial");
    reveal_strlit(".txt.partial");
    reveal_strlit("tweet-scrolls-full.txt");
    reveal_strlit("tweet-scrolls-full.txt.partial");
    assert(name == prefix + digits + txt);
    lemma_encode_utf8_concat(prefix, digits);
    lemma_encode_utf8_concat(prefix + digits, txt);
    assert(encode_utf8(name) == encode_utf8(prefix) + encode_utf8(digits) + encode_utf8(txt));
    assert(encode_utf8(name).subrange(0, encode_utf8(prefix).len() as int) =~= encode_utf8(prefix));
    assert(encode_utf8(name).subrange(
        encode_utf8(name).len() - encode_utf8(txt).len(),
        encode_utf8(name).len() as int,
    ) =~= encode_utf8(txt));
    assert(bytes_start_with(name, prefix));
    assert(bytes_end_with(name, txt));

    let long = partial_part_file_name(ordinal);
    assert(long == name + partial);
    lemma_encode_utf8_concat(name, partial);
    assert(txt + partial =~= ".txt.partial"@);
    lemma_encode_utf8_concat(txt, partial);
    assert(encode_utf8(long) == encode_utf8(prefix) + encode_utf8(digits) + encode_utf8(
        ".txt.partial"@,
    ));
    assert(encode_utf8(long).subrange(0, encode_utf8(prefix).len() as int) =~= encode_utf8(prefix));
    assert(encode_utf8(long).subrange(
        encode_utf8(long).len() - encode_utf8(".txt.partial"@).len(),
        encode_utf8(long).len() as int,
    ) =~= encode_utf8(".txt.partial"@));
    assert(bytes_start_with(long, prefix));

    lemma_ascii_encoding(prefix);
    let full = full_output_file_name();
    lemma_ascii_encoding(full);
    assert((0x66u32 & 0x7f) as u8 != (0x70u32 & 0x7f) as u8) by (bit_vector);
    assert(encode_utf8(full)[14] != encode_utf8(prefix)[14]);
    assert(encode_utf8(full).subrange(0, encode_utf8(prefix).len() as int)[14] == encode_utf8(full)[14]);
    let full_partial = partial_output_file_name();
    lemma_ascii_encoding(full_partial);
    assert(encode_utf8(full_partial)[14] != encode_utf8(prefix)[14]);
    assert(encode_utf8(full_partial).subrange(0, encode_utf8(prefix).len() as int)[14]
        == encode_utf8(full_partial)[14]);
}

} // verus!
