//! The mathematical model of record reassembly: byte normalization and the
//! splitting of a byte stream into `\n`-terminated records.

use vstd::prelude::*;

verus! {

/// The record delimiter.
pub const NEWLINE: u8 = 10;

/// Carriage return, rewritten to a space before records are split.
pub const CARRIAGE_RETURN: u8 = 13;

/// What a carriage return becomes.
pub const SPACE: u8 = 32;

/// The NUL byte, optionally replaced by a placeholder.
pub const NUL: u8 = 0;

/// The placeholder that replaces a NUL byte when substitution is on.
pub const NUL_PLACEHOLDER: u8 = 63;

/// One byte after line-ending normalization (and NUL substitution, if enabled).
pub open spec fn norm_byte(b: u8, substitute_nul: bool) -> u8 {
    if b == CARRIAGE_RETURN {
        SPACE
    } else if substitute_nul && b == NUL {
        NUL_PLACEHOLDER
    } else {
        b
    }
}

/// A byte sequence with every byte normalized.
pub open spec fn normalize(s: Seq<u8>, substitute_nul: bool) -> Seq<u8> {
    s.map_values(|b: u8| norm_byte(b, substitute_nul))
}

/// Splits `s`, read after the partial record `partial`, into the complete
/// records it finishes (each ending in its `\n`) and the new partial record.
pub open spec fn scan(partial: Seq<u8>, s: Seq<u8>) -> (Seq<Seq<u8>>, Seq<u8>)
    decreases s.len(),
{
    if s.len() == 0 {
        (Seq::empty(), partial)
    } else {
        let prev = scan(partial, s.drop_last());
        if s.last() == NEWLINE {
            (prev.0.push(prev.1.push(NEWLINE)), Seq::empty())
        } else {
            (prev.0, prev.1.push(s.last()))
        }
    }
}

/// Whether normalizing `s` would change nothing.
pub open spec fn is_normalized(s: Seq<u8>, substitute_nul: bool) -> bool {
    forall|i: int| 0 <= i < s.len() ==> norm_byte(s[i], substitute_nul) == s[i]
}

/// The number of `\n` bytes in `s`.
pub open spec fn count_newlines(s: Seq<u8>) -> nat
    decreases s.len(),
{
    if s.len() == 0 {
        0
    } else {
        count_newlines(s.drop_last()) + if s.last() == NEWLINE {
            1nat
        } else {
            0nat
        }
    }
}

/// Whether `s` holds no `\n`.
pub open spec fn no_newline(s: Seq<u8>) -> bool {
    forall|i: int| 0 <= i < s.len() ==> s[i] != NEWLINE
}

/// Byte sequences joined end to end, in order.
pub open spec fn joined(parts: Seq<Seq<u8>>) -> Seq<u8>
    decreases parts.len(),
{
    if parts.len() == 0 {
        Seq::empty()
    } else {
        joined(parts.drop_last()) + parts.last()
    }
}

/// The records emitted and the partial record left after feeding `chunks`,
/// one read at a time, to an initially empty reassembler.
pub open spec fn feed_all(chunks: Seq<Seq<u8>>, substitute_nul: bool) -> (Seq<Seq<u8>>, Seq<u8>)
    decreases chunks.len(),
{
    if chunks.len() == 0 {
        (Seq::empty(), Seq::empty())
    } else {
        let prev = feed_all(chunks.drop_last(), substitute_nul);
        let step = scan(prev.1, normalize(chunks.last(), substitute_nul));
        (prev.0 + step.0, step.1)
    }
}

/// The byte views of a list of owned records.
pub open spec fn records_view(v: Seq<Vec<u8>>) -> Seq<Seq<u8>> {
    v.map_values(|r: Vec<u8>| r@)
}

/// Whether `new` bytes arriving after `pending_len` pending bytes overflow a
/// buffer of `capacity`: they do not fit, or they fill it with no delimiter.
pub open spec fn overflows(pending_len: int, new: Seq<u8>, capacity: int) -> bool {
    pending_len + new.len() > capacity || (new.len() > 0 && pending_len + new.len() == capacity
        && no_newline(new))
}

/// The partial record left after a scan holds no delimiter.
pub proof fn lemma_scan_partial_no_newline(partial: Seq<u8>, s: Seq<u8>)
    requires
        no_newline(partial),
    ensures
        no_newline(scan(partial, s).1),
    decreases s.len(),
{
    if s.len() > 0 {
        lemma_scan_partial_no_newline(partial, s.drop_last());
    }
}

/// Normalization distributes over concatenation.
pub proof fn lemma_normalize_concat(a: Seq<u8>, b: Seq<u8>, substitute_nul: bool)
    ensures
        normalize(a + b, substitute_nul) == normalize(a, substitute_nul) + normalize(
            b,
            substitute_nul,
        ),
{
    assert(normalize(a + b, substitute_nul) =~= normalize(a, substitute_nul) + normalize(
        b,
        substitute_nul,
    ));
}

/// Nothing is lost or duplicated by a scan: the records it emits, followed by
/// the partial record it leaves, are the partial record it started from
/// followed by the scanned bytes.
pub proof fn lemma_scan_conserves(partial: Seq<u8>, s: Seq<u8>)
    ensures
        joined(scan(partial, s).0) + scan(partial, s).1 == partial + s,
    decreases s.len(),
{
    if s.len() == 0 {
        assert(partial + s =~= partial);
        assert(joined(Seq::<Seq<u8>>::empty()) + partial =~= partial);
    } else {
        let prev = scan(partial, s.drop_last());
        lemma_scan_conserves(partial, s.drop_last());
        assert(s =~= s.drop_last().push(s.last()));
        if s.last() == NEWLINE {
            let recs = prev.0.push(prev.1.push(NEWLINE));
            assert(recs.drop_last() =~= prev.0);
            assert(joined(recs) == joined(prev.0) + prev.1.push(NEWLINE));
            assert(joined(prev.0) + prev.1.push(NEWLINE) =~= (joined(prev.0) + prev.1).push(
                NEWLINE,
            ));
            assert((partial + s.drop_last()).push(NEWLINE) =~= partial + s);
            assert(joined(recs) + Seq::<u8>::empty() =~= joined(recs));
        } else {
            assert(joined(prev.0) + prev.1.push(s.last()) =~= (joined(prev.0) + prev.1).push(
                s.last(),
            ));
            assert((partial + s.drop_last()).push(s.last()) =~= partial + s);
        }
    }
}

/// A read split in two emits the same records, and leaves the same partial
/// record, as the same bytes arriving in a single read: a record whose
/// delimiter arrives in the second read is the same record either way.
pub proof fn lemma_split_read(partial: Seq<u8>, a: Seq<u8>, b: Seq<u8>, substitute_nul: bool)
    ensures
        ({
            let first = scan(partial, normalize(a, substitute_nul));
            let second = scan(first.1, normalize(b, substitute_nul));
            let whole = scan(partial, normalize(a + b, substitute_nul));
            first.0 + second.0 == whole.0 && second.1 == whole.1
        }),
{
    lemma_normalize_concat(a, b, substitute_nul);
    lemma_scan_concat(partial, normalize(a, substitute_nul), normalize(b, substitute_nul));
}

/// Scanning `a + b` is scanning `a`, then scanning `b` from what `a` left.
pub proof fn lemma_scan_concat(partial: Seq<u8>, a: Seq<u8>, b: Seq<u8>)
    ensures
        scan(partial, a + b).0 == scan(partial, a).0 + scan(scan(partial, a).1, b).0,
        scan(partial, a + b).1 == scan(scan(partial, a).1, b).1,
    decreases b.len(),
{
    let mid = scan(partial, a).1;
    if b.len() == 0 {
        assert(a + b =~= a);
        assert(scan(partial, a).0 + Seq::<Seq<u8>>::empty() =~= scan(partial, a).0);
    } else {
        assert((a + b).drop_last() =~= a + b.drop_last());
        assert((a + b).last() == b.last());
        lemma_scan_concat(partial, a, b.drop_last());
        let prev = scan(mid, b.drop_last());
        if b.last() == NEWLINE {
            assert(scan(partial, a).0 + prev.0.push(prev.1.push(NEWLINE)) =~= (scan(partial, a).0
                + prev.0).push(prev.1.push(NEWLINE)));
        }
    }
}

/// However a byte stream is cut into reads, reassembling it one read at a
/// time emits exactly the records of the whole stream read at once, and the
/// emitted records followed by the final partial record are the whole stream,
/// normalized: every `\r` a space (and, with NUL substitution, every NUL the
/// placeholder), nothing dropped, nothing repeated.
pub proof fn lemma_rechunking(chunks: Seq<Seq<u8>>, substitute_nul: bool)
    ensures
        feed_all(chunks, substitute_nul) == scan(
            Seq::empty(),
            normalize(joined(chunks), substitute_nul),
        ),
        joined(feed_all(chunks, substitute_nul).0) + feed_all(chunks, substitute_nul).1
            == normalize(joined(chunks), substitute_nul),
    decreases chunks.len(),
{
    let stream = normalize(joined(chunks), substitute_nul);
    if chunks.len() == 0 {
        assert(stream =~= Seq::<u8>::empty());
    } else {
        let front = chunks.drop_last();
        lemma_rechunking(front, substitute_nul);
        lemma_normalize_concat(joined(front), chunks.last(), substitute_nul);
        lemma_scan_concat(
            Seq::empty(),
            normalize(joined(front), substitute_nul),
            normalize(chunks.last(), substitute_nul),
        );
    }
    lemma_scan_conserves(Seq::empty(), stream);
    assert(Seq::<u8>::empty() + stream =~= stream);
}

/// Two consecutive delimiters produce one empty record (a lone `\n`)
/// between them.
pub proof fn lemma_double_delimiter(partial: Seq<u8>, s: Seq<u8>)
    ensures
        ({
            let one = scan(partial, s.push(NEWLINE));
            scan(partial, s.push(NEWLINE).push(NEWLINE)) == (
                one.0.push(seq![NEWLINE]),
                Seq::<u8>::empty(),
            )
        }),
{
    let one = scan(partial, s.push(NEWLINE));
    assert(s.push(NEWLINE).push(NEWLINE).drop_last() =~= s.push(NEWLINE));
    assert(s.push(NEWLINE).drop_last() =~= s);
    assert(one.1 == Seq::<u8>::empty());
    assert(Seq::<u8>::empty().push(NEWLINE) =~= seq![NEWLINE]);
}

/// A sequence is normalized exactly when normalizing it changes nothing.
pub proof fn lemma_normalized_iff(s: Seq<u8>, substitute_nul: bool)
    ensures
        is_normalized(s, substitute_nul) <==> normalize(s, substitute_nul) == s,
{
    if normalize(s, substitute_nul) == s {
        assert forall|i: int| 0 <= i < s.len() implies norm_byte(s[i], substitute_nul) == s[i] by {
            assert(normalize(s, substitute_nul)[i] == norm_byte(s[i], substitute_nul));
        }
    }
    if is_normalized(s, substitute_nul) {
        assert(normalize(s, substitute_nul) =~= s);
    }
}

/// Normalized bytes are normalized: normalizing twice is normalizing once.
pub proof fn lemma_normalize_normalized(s: Seq<u8>, substitute_nul: bool)
    ensures
        is_normalized(normalize(s, substitute_nul), substitute_nul),
{
}

/// The partial record left by scanning normalized bytes after a normalized
/// partial record is normalized.
pub proof fn lemma_scan_partial_normalized(partial: Seq<u8>, s: Seq<u8>, substitute_nul: bool)
    requires
        is_normalized(partial, substitute_nul),
        is_normalized(s, substitute_nul),
    ensures
        is_normalized(scan(partial, s).1, substitute_nul),
    decreases s.len(),
{
    if s.len() > 0 {
        lemma_scan_partial_normalized(partial, s.drop_last(), substitute_nul);
        assert(norm_byte(s[s.len() - 1], substitute_nul) == s.last());
    }
}

/// A scan emits one record per `\n` it reads.
pub proof fn lemma_record_count(partial: Seq<u8>, s: Seq<u8>)
    ensures
        scan(partial, s).0.len() == count_newlines(s),
    decreases s.len(),
{
    if s.len() > 0 {
        lemma_record_count(partial, s.drop_last());
    }
}

/// Two consecutive delimiters anywhere in the scanned bytes, at `i` and
/// `i + 1`, produce an empty record (a lone `\n`): the record that the
/// delimiter at `i + 1` ends, which follows one record for each `\n` up to
/// and including position `i`.
pub proof fn lemma_empty_record_at(partial: Seq<u8>, s: Seq<u8>, i: int)
    requires
        0 <= i,
        i + 1 < s.len(),
        s[i] == NEWLINE,
        s[i + 1] == NEWLINE,
    ensures
        count_newlines(s.take(i + 1)) < scan(partial, s).0.len(),
        scan(partial, s).0[count_newlines(s.take(i + 1)) as int] == seq![NEWLINE],
{
    let head = s.take(i + 2);
    let tail = s.skip(i + 2);
    assert(s =~= head + tail);
    lemma_scan_concat(partial, head, tail);
    assert(head =~= s.take(i).push(NEWLINE).push(NEWLINE));
    assert(s.take(i + 1) =~= s.take(i).push(NEWLINE));
    lemma_double_delimiter(partial, s.take(i));
    lemma_record_count(partial, s.take(i + 1));
    let front = scan(partial, s.take(i + 1)).0;
    assert(scan(partial, head).0 == front.push(seq![NEWLINE]));
    assert(scan(partial, s).0 == scan(partial, head).0 + scan(scan(partial, head).1, tail).0);
    assert(scan(partial, s).0[front.len() as int] == front.push(seq![NEWLINE])[front.len() as int]);
}

/// A sequence with a `\n` at `j` counts at least one.
pub proof fn lemma_count_newlines_positive(s: Seq<u8>, j: int)
    requires
        0 <= j < s.len(),
        s[j] == NEWLINE,
    ensures
        count_newlines(s) > 0,
    decreases s.len(),
{
    if j < s.len() - 1 {
        lemma_count_newlines_positive(s.drop_last(), j);
    }
}

} // verus!
