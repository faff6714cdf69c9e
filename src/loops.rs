//! The reassembly of device bytes into records, and the forwarding of
//! operator input to the device.

use vstd::prelude::*;

use crate::args::{Args, StringParsingMode};
use crate::error::Error;
use crate::records::{
    count_newlines, is_normalized, joined, lemma_count_newlines_positive, lemma_empty_record_at, lemma_normalize_concat,
    lemma_normalize_normalized, lemma_normalized_iff, lemma_record_count, lemma_scan_concat,
    lemma_scan_conserves, lemma_scan_partial_no_newline, lemma_scan_partial_normalized, no_newline,
    norm_byte, normalize, overflows, records_view, scan, CARRIAGE_RETURN, NEWLINE, NUL,
    NUL_PLACEHOLDER, SPACE,
};

verus! {

/// Normalizes one byte: `\r` becomes a space, and NUL the placeholder when
/// `substitute_nul` is set.
pub fn normalize_byte(b: u8, substitute_nul: bool) -> (r: u8)
    ensures
        r == norm_byte(b, substitute_nul),
{
    if b == CARRIAGE_RETURN {
        SPACE
    } else if substitute_nul && b == NUL {
        NUL_PLACEHOLDER
    } else {
        b
    }
}

/// Whether `bytes` holds a `\n`.
pub fn contains_newline(bytes: &[u8]) -> (r: bool)
    ensures
        r == !no_newline(bytes@),
{
    let mut i: usize = 0;
    while i < bytes.len()
        invariant
            i <= bytes@.len(),
            forall|j: int| 0 <= j < i ==> bytes@[j] != NEWLINE,
        decreases bytes@.len() - i,
    {
        if bytes[i] == NEWLINE {
            return true;
        }
        i += 1;
    }
    false
}

/// Copies `v[from..to]` into a new vector.
fn copy_range(v: &Vec<u8>, from: usize, to: usize) -> (r: Vec<u8>)
    requires
        from <= to <= v@.len(),
    ensures
        r@ == v@.subrange(from as int, to as int),
{
    let mut r: Vec<u8> = Vec::with_capacity(to - from);
    let mut i: usize = from;
    while i < to
        invariant
            from <= i <= to <= v@.len(),
            r@ == v@.subrange(from as int, i as int),
        decreases to - i,
    {
        r.push(v[i]);
        assert(r@ =~= v@.subrange(from as int, i as int + 1));
        i += 1;
    }
    r
}

/// What one bounded read of the device came back with.
pub enum ReadOutcome {
    /// The bytes read; possibly none.
    Data(Vec<u8>),
    /// The read was interrupted: transient, treated as zero bytes.
    Interrupted,
    /// No byte arrived within the read timeout: transient, treated as zero bytes.
    TimedOut,
    /// Any other device error: fatal.
    Failed,
}

/// The line reassembler: a fixed-capacity buffer whose first `read_bytes`
/// bytes are the partial record still waiting for its delimiter.
pub struct ReadLoop {
    buffer: Vec<u8>,
    read_bytes: usize,
    mode: StringParsingMode,
    substitute_nul: bool,
}

impl ReadLoop {
    /// The partial record held between reads.
    pub closed spec fn pending(&self) -> Seq<u8> {
        self.buffer@.subrange(0, self.read_bytes as int)
    }

    /// The buffer's fixed capacity.
    pub closed spec fn capacity(&self) -> nat {
        self.buffer@.len()
    }

    /// Whether NUL bytes are replaced by the placeholder.
    pub closed spec fn substitutes_nul(&self) -> bool {
        self.substitute_nul
    }

    /// How records are decoded to text.
    pub closed spec fn parsing_mode(&self) -> StringParsingMode {
        self.mode
    }

    /// The pending bytes fit the buffer, never hold a delimiter, and are
    /// already normalized.
    #[verifier::type_invariant]
    spec fn inv(self) -> bool {
        &&& self.read_bytes <= self.buffer@.len()
        &&& no_newline(self.buffer@.subrange(0, self.read_bytes as int))
        &&& is_normalized(self.buffer@.subrange(0, self.read_bytes as int), self.substitute_nul)
    }

    /// An empty reassembler with a buffer of `capacity` bytes.
    pub fn new(capacity: usize, mode: StringParsingMode, substitute_nul: bool) -> (r: Self)
        ensures
            r.pending() == Seq::<u8>::empty(),
            r.capacity() == capacity,
            r.parsing_mode() == mode,
            r.substitutes_nul() == substitute_nul,
    {
        let r = ReadLoop { buffer: vec![0u8; capacity], read_bytes: 0, mode, substitute_nul };
        assert(r.pending() =~= Seq::<u8>::empty());
        r
    }

    /// The reassembler the arguments configure: a buffer of `buffer_size`
    /// bytes, their decoding mode, and NUL bytes shown as the placeholder.
    pub fn from_args(args: &Args) -> (r: Self)
        ensures
            r.pending() == Seq::<u8>::empty(),
            r.capacity() == args.buffer_size,
            r.parsing_mode() == args.string_parsing_mode,
            r.substitutes_nul(),
    {
        ReadLoop::new(args.buffer_size, args.string_parsing_mode, true)
    }

    /// How many more bytes the buffer can take.
    pub fn free_space(&self) -> (r: usize)
        ensures
            r == self.capacity() - self.pending().len(),
    {
        proof {
            use_type_invariant(self);
        }
        self.buffer.len() - self.read_bytes
    }

    /// Appends `new_bytes` after the pending bytes, normalizes them, and
    /// returns every record they complete, in stream order; what follows the
    /// last delimiter stays pending. Bytes that do not fit, or that fill the
    /// buffer without a delimiter, are an overflow and change nothing.
    pub fn ingest(&mut self, new_bytes: &[u8]) -> (r: Result<Vec<Vec<u8>>, Error>)
        ensures
            final(self).capacity() == old(self).capacity(),
            final(self).parsing_mode() == old(self).parsing_mode(),
            final(self).substitutes_nul() == old(self).substitutes_nul(),
            r is Err <==> overflows(
                old(self).pending().len() as int,
                new_bytes@,
                old(self).capacity() as int,
            ),
            r is Err ==> r == Err::<Vec<Vec<u8>>, Error>(Error::BufferOverflow) && *final(self)
                == *old(self),
            r is Ok ==> ingested(*old(self), new_bytes@, records_view(r->Ok_0@), *final(self)),
            no_newline(final(self).pending()),
            normalize(final(self).pending(), old(self).substitutes_nul()) == final(self).pending(),
    {
        proof {
            use_type_invariant(&*self);
            lemma_normalized_iff(self.pending(), self.substitute_nul);
        }
        let pending_len = self.read_bytes;
        let capacity = self.buffer.len();
        let n = new_bytes.len();
        if n > capacity - pending_len {
            return Err(Error::BufferOverflow);
        }
        let total = pending_len + n;
        if n > 0 && total == capacity && !contains_newline(new_bytes) {
            return Err(Error::BufferOverflow);
        }
        let ghost pending = self.pending();
        let ghost norm = normalize(new_bytes@, self.substitute_nul);
        let subst = self.substitute_nul;
        // Work on the buffer outside the struct; an empty one stands in.
        self.read_bytes = 0;
        let mut buf: Vec<u8> = Vec::new();
        std::mem::swap(&mut buf, &mut self.buffer);

        // Phase one: append the normalized bytes.
        let mut i: usize = 0;
        while i < n
            invariant
                buf@.len() == capacity,
                pending_len + n == total <= capacity,
                i <= n == new_bytes@.len(),
                norm == normalize(new_bytes@, subst),
                buf@.subrange(0, pending_len as int) == pending,
                forall|j: int| 0 <= j < i ==> buf@[pending_len + j] == norm[j],
            decreases n - i,
        {
            let b = normalize_byte(new_bytes[i], subst);
            let ghost before = buf@;
            buf.set(pending_len + i, b);
            assert(buf@.subrange(0, pending_len as int) =~= before.subrange(0, pending_len as int));
            i += 1;
        }
        assert(buf@.subrange(pending_len as int, total as int) =~= norm);

        // Phase two: scan for delimiters, emitting one record per `\n`.
        let mut records: Vec<Vec<u8>> = Vec::new();
        let mut start: usize = 0;
        let mut k: usize = pending_len;
        assert(norm.take(0) =~= Seq::<u8>::empty());
        while k < total
            invariant
                buf@.len() == capacity,
                pending_len <= k <= total <= capacity,
                start <= k,
                total == pending_len + norm.len(),
                buf@.subrange(0, pending_len as int) == pending,
                buf@.subrange(pending_len as int, total as int) == norm,
                records_view(records@) == scan(pending, norm.take(k - pending_len)).0,
                buf@.subrange(start as int, k as int) == scan(
                    pending,
                    norm.take(k - pending_len),
                ).1,
            decreases total - k,
        {
            let ghost prefix = norm.take(k - pending_len);
            let ghost next = norm.take(k + 1 - pending_len);
            assert(next.drop_last() =~= prefix);
            assert(next.last() == buf@[k as int]) by {
                assert(buf@.subrange(pending_len as int, total as int)[k - pending_len]
                    == buf@[k as int]);
            }
            if buf[k] == NEWLINE {
                let rec = copy_range(&buf, start, k + 1);
                assert(rec@ =~= buf@.subrange(start as int, k as int).push(NEWLINE));
                records.push(rec);
                assert(records_view(records@) =~= scan(pending, prefix).0.push(rec@));
                start = k + 1;
                assert(buf@.subrange(start as int, k as int + 1) =~= Seq::<u8>::empty());
            } else {
                assert(buf@.subrange(start as int, k as int + 1) =~= buf@.subrange(
                    start as int,
                    k as int,
                ).push(buf@[k as int]));
            }
            k += 1;
        }
        assert(norm.take(total - pending_len) =~= norm);

        // Phase three: move the partial record to the front.
        let ghost scanned = buf@;
        let rest = total - start;
        let mut j: usize = 0;
        if start > 0 {
            while j < rest
                invariant
                    buf@.len() == capacity,
                    scanned.len() == capacity,
                    0 < start <= total <= capacity,
                    rest == total - start,
                    j <= rest,
                    forall|x: int| 0 <= x < j ==> buf@[x] == scanned[start + x],
                    forall|x: int| j <= x < capacity ==> buf@[x] == scanned[x],
                decreases rest - j,
            {
                let b = buf[start + j];
                buf.set(j, b);
                j += 1;
            }
        }
        assert(buf@.subrange(0, rest as int) =~= scanned.subrange(start as int, total as int));
        proof {
            lemma_scan_partial_no_newline(pending, norm);
            lemma_normalize_normalized(new_bytes@, subst);
            lemma_scan_partial_normalized(pending, norm, subst);
            lemma_normalized_iff(scan(pending, norm).1, subst);
        }
        self.buffer = buf;
        self.read_bytes = rest;
        Ok(records)
    }

    /// The partial record, as a vector.
    pub fn pending_bytes(&self) -> (r: Vec<u8>)
        ensures
            r@ == self.pending(),
    {
        proof {
            use_type_invariant(self);
        }
        copy_range(&self.buffer, 0, self.read_bytes)
    }

    /// How records are decoded to text.
    pub fn mode(&self) -> (r: StringParsingMode)
        ensures
            r == self.parsing_mode(),
    {
        self.mode
    }

    /// One read's worth of work: transient read conditions count as zero
    /// bytes, other device errors are fatal, and read bytes are reassembled
    /// into the records they complete, in stream order.
    pub fn run(&mut self, outcome: ReadOutcome) -> (r: Result<Vec<Vec<u8>>, Error>)
        ensures
            final(self).capacity() == old(self).capacity(),
            final(self).parsing_mode() == old(self).parsing_mode(),
            final(self).substitutes_nul() == old(self).substitutes_nul(),
            no_newline(final(self).pending()),
            normalize(final(self).pending(), old(self).substitutes_nul()) == final(self).pending(),
            match outcome {
                ReadOutcome::Failed => r == Err::<Vec<Vec<u8>>, Error>(Error::DeviceReadFailed)
                    && *final(self) == *old(self),
                ReadOutcome::Interrupted | ReadOutcome::TimedOut => r is Ok && r->Ok_0@.len()
                    == 0 && *final(self) == *old(self),
                ReadOutcome::Data(bytes) => {
                    &&& r is Err <==> overflows(
                        old(self).pending().len() as int,
                        bytes@,
                        old(self).capacity() as int,
                    )
                    &&& r is Err ==> r == Err::<Vec<Vec<u8>>, Error>(Error::BufferOverflow)
                        && *final(self) == *old(self)
                    &&& r is Ok ==> ingested(*old(self), bytes@, records_view(r->Ok_0@), *final(self))
                },
            },
    {
        proof {
            use_type_invariant(&*self);
            lemma_normalized_iff(self.pending(), self.substitute_nul);
        }
        match outcome {
            ReadOutcome::Failed => Err(Error::DeviceReadFailed),
            ReadOutcome::Interrupted | ReadOutcome::TimedOut => Ok(Vec::new()),
            ReadOutcome::Data(bytes) => self.ingest(bytes.as_slice()),
        }
    }
}

/// What one successful read does to a reassembler: it emits the records that
/// the read's normalized bytes complete after the pending bytes, keeps what
/// follows the last delimiter, and keeps its configuration.
pub open spec fn ingested(
    before: ReadLoop,
    chunk: Seq<u8>,
    records: Seq<Seq<u8>>,
    after: ReadLoop,
) -> bool {
    let split = scan(before.pending(), normalize(chunk, before.substitutes_nul()));
    &&& records == split.0
    &&& after.pending() == split.1
    &&& after.capacity() == before.capacity()
    &&& after.parsing_mode() == before.parsing_mode()
    &&& after.substitutes_nul() == before.substitutes_nul()
}

/// The records of successive reads, in the order they were emitted.
pub open spec fn all_records(outputs: Seq<Seq<Seq<u8>>>) -> Seq<Seq<u8>>
    decreases outputs.len(),
{
    if outputs.len() == 0 {
        Seq::empty()
    } else {
        all_records(outputs.drop_last()) + outputs.last()
    }
}

/// Whether `states[i + 1]` and `outputs[i]` are what the successful read of
/// `chunks[i]` made of `states[i]`, for every read in turn.
pub open spec fn successive_reads(
    states: Seq<ReadLoop>,
    chunks: Seq<Seq<u8>>,
    outputs: Seq<Seq<Seq<u8>>>,
) -> bool {
    &&& states.len() == chunks.len() + 1
    &&& outputs.len() == chunks.len()
    &&& forall|i: int|
        0 <= i < chunks.len() ==> ingested(states[i], #[trigger] chunks[i], outputs[i], states[i + 1])
}

/// After the first `k` of successive reads, the records emitted so far and
/// the pending bytes are those of one scan over everything read so far.
proof fn lemma_reads_prefix(
    states: Seq<ReadLoop>,
    chunks: Seq<Seq<u8>>,
    outputs: Seq<Seq<Seq<u8>>>,
    k: int,
)
    requires
        successive_reads(states, chunks, outputs),
        0 <= k <= chunks.len(),
    ensures
        ({
            let subst = states[0].substitutes_nul();
            let split = scan(states[0].pending(), normalize(joined(chunks.take(k)), subst));
            &&& all_records(outputs.take(k)) == split.0
            &&& states[k].pending() == split.1
            &&& states[k].substitutes_nul() == subst
        }),
    decreases k,
{
    let p = states[0].pending();
    let subst = states[0].substitutes_nul();
    if k == 0 {
        assert(chunks.take(0) =~= Seq::<Seq<u8>>::empty());
        assert(outputs.take(0) =~= Seq::<Seq<Seq<u8>>>::empty());
        assert(normalize(Seq::<u8>::empty(), subst) =~= Seq::<u8>::empty());
    } else {
        lemma_reads_prefix(states, chunks, outputs, k - 1);
        assert(ingested(states[k - 1], chunks[k - 1], outputs[k - 1], states[k]));
        assert(chunks.take(k).drop_last() =~= chunks.take(k - 1));
        assert(outputs.take(k).drop_last() =~= outputs.take(k - 1));
        let before = joined(chunks.take(k - 1));
        assert(joined(chunks.take(k)) == before + chunks[k - 1]);
        lemma_normalize_concat(before, chunks[k - 1], subst);
        lemma_scan_concat(p, normalize(before, subst), normalize(chunks[k - 1], subst));
    }
}

/// However a byte stream is cut into reads, successive successful reads emit
/// exactly the records of one scan of the whole stream after the starting
/// pending bytes, and leave the same pending bytes; the emitted records
/// followed by the final pending bytes are the starting pending bytes followed
/// by the whole stream normalized: every `\r` a space (and, with NUL
/// substitution, every NUL the placeholder), nothing dropped, repeated or
/// reordered.
pub proof fn lemma_successive_reads(
    states: Seq<ReadLoop>,
    chunks: Seq<Seq<u8>>,
    outputs: Seq<Seq<Seq<u8>>>,
)
    requires
        successive_reads(states, chunks, outputs),
    ensures
        ({
            let subst = states[0].substitutes_nul();
            let stream = normalize(joined(chunks), subst);
            &&& all_records(outputs) == scan(states[0].pending(), stream).0
            &&& states.last().pending() == scan(states[0].pending(), stream).1
            &&& joined(all_records(outputs)) + states.last().pending() == states[0].pending()
                + stream
        }),
{
    let n = chunks.len() as int;
    lemma_reads_prefix(states, chunks, outputs, n);
    assert(chunks.take(n) =~= chunks);
    assert(outputs.take(n) =~= outputs);
    lemma_scan_conserves(states[0].pending(), normalize(joined(chunks), states[0].substitutes_nul()));
}

/// The records depend on the stream alone: two reassemblers that start alike
/// and read the same bytes, cut into reads in any two ways, emit the same
/// records in the same order and end with the same pending bytes.
pub proof fn lemma_chunking_irrelevant(
    states1: Seq<ReadLoop>,
    chunks1: Seq<Seq<u8>>,
    outputs1: Seq<Seq<Seq<u8>>>,
    states2: Seq<ReadLoop>,
    chunks2: Seq<Seq<u8>>,
    outputs2: Seq<Seq<Seq<u8>>>,
)
    requires
        successive_reads(states1, chunks1, outputs1),
        successive_reads(states2, chunks2, outputs2),
        states1[0].pending() == states2[0].pending(),
        states1[0].substitutes_nul() == states2[0].substitutes_nul(),
        joined(chunks1) == joined(chunks2),
    ensures
        all_records(outputs1) == all_records(outputs2),
        states1.last().pending() == states2.last().pending(),
{
    lemma_successive_reads(states1, chunks1, outputs1);
    lemma_successive_reads(states2, chunks2, outputs2);
}

/// Within one read, every `\n` of the normalized bytes completes exactly one
/// record, and two consecutive delimiters at `i` and `i + 1`, anywhere in the
/// read, give an empty record (a lone `\n`), which is emitted, not dropped.
pub proof fn lemma_empty_record_in_read(
    before: ReadLoop,
    chunk: Seq<u8>,
    records: Seq<Seq<u8>>,
    after: ReadLoop,
    i: int,
)
    requires
        ingested(before, chunk, records, after),
        0 <= i,
        i + 1 < chunk.len(),
        normalize(chunk, before.substitutes_nul())[i] == NEWLINE,
        normalize(chunk, before.substitutes_nul())[i + 1] == NEWLINE,
    ensures
        ({
            let t = normalize(chunk, before.substitutes_nul());
            &&& records.len() == count_newlines(t)
            &&& count_newlines(t.take(i + 1)) < records.len()
            &&& records[count_newlines(t.take(i + 1)) as int] == seq![NEWLINE]
        }),
{
    let t = normalize(chunk, before.substitutes_nul());
    lemma_record_count(before.pending(), t);
    lemma_empty_record_at(before.pending(), t, i);
}

/// What polling the operator-input channel found, without blocking.
pub enum TakeOutcome {
    /// A completed input line.
    Line(Vec<u8>),
    /// Nothing is waiting.
    Empty,
    /// The relay is gone: fatal.
    Disconnected,
}

/// What the relay's shutdown channel held when checked between input reads.
#[derive(Debug, Clone, Copy, PartialEq, Eq, Structural)]
pub enum ShutdownPoll {
    /// Shutdown was requested.
    Signalled,
    /// No request yet.
    Pending,
    /// The requesting side is gone.
    SenderGone,
}

/// The bytes sent to the device after each input line.
pub open spec fn line_terminator(windows_ending: bool) -> Seq<u8> {
    if windows_ending {
        seq![CARRIAGE_RETURN, NEWLINE]
    } else {
        seq![NEWLINE]
    }
}

/// An operator's input line without its line ending (`\n` or `\r\n`).
pub open spec fn trimmed_line(raw: Seq<u8>) -> Seq<u8> {
    if raw.len() >= 2 && raw.last() == NEWLINE && raw[raw.len() - 2] == CARRIAGE_RETURN {
        raw.subrange(0, raw.len() - 2)
    } else if raw.len() >= 1 && raw.last() == NEWLINE {
        raw.drop_last()
    } else {
        raw
    }
}

/// Whether `s` holds no NUL byte.
pub open spec fn no_nul(s: Seq<u8>) -> bool {
    forall|i: int| 0 <= i < s.len() ==> s[i] != NUL
}

/// Turns a line read from the operator into the bytes to forward: the line
/// ending is trimmed, and a line holding a NUL byte is refused.
pub fn prepare_input_line(raw: &[u8]) -> (r: Result<Vec<u8>, Error>)
    ensures
        r is Err <==> !no_nul(trimmed_line(raw@)),
        r is Err ==> r == Err::<Vec<u8>, Error>(Error::InputContainsNul),
        r is Ok ==> r->Ok_0@ == trimmed_line(raw@),
{
    let n = raw.len();
    let end: usize = if n >= 2 && raw[n - 1] == NEWLINE && raw[n - 2] == CARRIAGE_RETURN {
        n - 2
    } else if n >= 1 && raw[n - 1] == NEWLINE {
        n - 1
    } else {
        n
    };
    assert(trimmed_line(raw@) =~= raw@.subrange(0, end as int));
    let mut out: Vec<u8> = Vec::with_capacity(end);
    let mut i: usize = 0;
    while i < end
        invariant
            end <= raw@.len(),
            i <= end,
            out@ == raw@.subrange(0, i as int),
            no_nul(out@),
        decreases end - i,
    {
        if raw[i] == NUL {
            assert(trimmed_line(raw@)[i as int] == NUL);
            return Err(Error::InputContainsNul);
        }
        out.push(raw[i]);
        assert(out@ =~= raw@.subrange(0, i as int + 1));
        i += 1;
    }
    Ok(out)
}

/// Whether the input relay stops: on a shutdown request, or when nobody is
/// left to send one.
pub fn relay_should_stop(poll: ShutdownPoll) -> (r: bool)
    ensures
        r == (poll != ShutdownPoll::Pending),
{
    !matches!(poll, ShutdownPoll::Pending)
}

/// What one poll of the relay sends to the device: the line followed by the
/// terminator, nothing when no line waits, and a fatal error when the relay
/// is gone.
pub open spec fn forwarded(
    windows_ending: bool,
    taken: TakeOutcome,
    r: Result<Option<Vec<u8>>, Error>,
) -> bool {
    match taken {
        TakeOutcome::Disconnected => r == Err::<Option<Vec<u8>>, Error>(
            Error::StdInThreadDisconnected,
        ),
        TakeOutcome::Empty => r is Ok && r->Ok_0 is None,
        TakeOutcome::Line(line) => r is Ok && r->Ok_0 is Some && r->Ok_0->Some_0@ == line@
            + line_terminator(windows_ending),
    }
}

/// The lines that successive polls took, in order.
pub open spec fn taken_lines(polls: Seq<TakeOutcome>) -> Seq<Seq<u8>>
    decreases polls.len(),
{
    if polls.len() == 0 {
        Seq::empty()
    } else {
        let prev = taken_lines(polls.drop_last());
        match polls.last() {
            TakeOutcome::Line(line) => prev.push(line@),
            _ => prev,
        }
    }
}

/// The device writes that successive polls produced, in order.
pub open spec fn device_writes(results: Seq<Result<Option<Vec<u8>>, Error>>) -> Seq<Seq<u8>>
    decreases results.len(),
{
    if results.len() == 0 {
        Seq::empty()
    } else {
        let prev = device_writes(results.drop_last());
        match results.last() {
            Ok(Some(bytes)) => prev.push(bytes@),
            _ => prev,
        }
    }
}

/// Over successive successful polls, the device receives each taken line
/// exactly once, in the order taken, each followed by the terminator: no line
/// is dropped, repeated or reordered, and a poll that finds nothing writes
/// nothing.
pub proof fn lemma_each_line_forwarded_once(
    windows_ending: bool,
    polls: Seq<TakeOutcome>,
    results: Seq<Result<Option<Vec<u8>>, Error>>,
)
    requires
        polls.len() == results.len(),
        forall|i: int| 0 <= i < polls.len() ==> forwarded(windows_ending, #[trigger] polls[i], results[i]),
        forall|i: int| 0 <= i < results.len() ==> #[trigger] results[i] is Ok,
    ensures
        device_writes(results) == taken_lines(polls).map_values(
            |line: Seq<u8>| line + line_terminator(windows_ending),
        ),
    decreases polls.len(),
{
    if polls.len() > 0 {
        let n = polls.len() - 1;
        assert(forwarded(windows_ending, polls[n], results[n]));
        assert(results[n] is Ok);
        lemma_each_line_forwarded_once(windows_ending, polls.drop_last(), results.drop_last());
        assert(taken_lines(polls).map_values(|line: Seq<u8>| line + line_terminator(windows_ending))
            =~= device_writes(results));
    } else {
        assert(taken_lines(polls).map_values(|line: Seq<u8>| line + line_terminator(windows_ending))
            =~= Seq::<Seq<u8>>::empty());
    }
}

/// One loop tick: when the relay poll took a line and the device read
/// completed a record (a `\n` at `j` of its normalized bytes), the tick's two
/// calls already hand back both the device write, the line with its
/// terminator, and the completed records, which with the new pending bytes
/// make up exactly the old pending bytes and the read bytes; nothing waits
/// for a later tick.
pub proof fn lemma_tick_delivers_both(
    windows_ending: bool,
    line: Vec<u8>,
    write_result: Result<Option<Vec<u8>>, Error>,
    before: ReadLoop,
    chunk: Seq<u8>,
    records: Seq<Seq<u8>>,
    after: ReadLoop,
    j: int,
)
    requires
        forwarded(windows_ending, TakeOutcome::Line(line), write_result),
        ingested(before, chunk, records, after),
        0 <= j < chunk.len(),
        normalize(chunk, before.substitutes_nul())[j] == NEWLINE,
    ensures
        write_result is Ok && write_result->Ok_0 is Some,
        write_result->Ok_0->Some_0@ == line@ + line_terminator(windows_ending),
        records.len() > 0,
        joined(records) + after.pending() == before.pending() + normalize(
            chunk,
            before.substitutes_nul(),
        ),
{
    let t = normalize(chunk, before.substitutes_nul());
    lemma_record_count(before.pending(), t);
    lemma_count_newlines_positive(t, j);
    lemma_scan_conserves(before.pending(), t);
}

/// The orchestrator's side of the input relay: what is written to the device
/// for each operator line.
pub struct WriteLoop {
    windows_ending: bool,
}

impl WriteLoop {
    /// Whether lines are terminated by `\r\n` rather than `\n`.
    pub closed spec fn windows_line_ending(&self) -> bool {
        self.windows_ending
    }

    /// A relay front end with the given line terminator.
    pub fn new(windows_ending: bool) -> (r: Self)
        ensures
            r.windows_line_ending() == windows_ending,
    {
        WriteLoop { windows_ending }
    }

    /// The relay front end the arguments configure.
    pub fn from_args(args: &Args) -> (r: Self)
        ensures
            r.windows_line_ending() == args.windows_line_ending,
    {
        WriteLoop::new(args.windows_line_ending)
    }

    /// The device write for one poll of the relay: the line followed by the
    /// terminator, nothing when no line waits, and a fatal error when the relay
    /// is gone.
    pub fn run(&self, taken: TakeOutcome) -> (r: Result<Option<Vec<u8>>, Error>)
        ensures
            forwarded(self.windows_line_ending(), taken, r),
    {
        match taken {
            TakeOutcome::Disconnected => Err(Error::StdInThreadDisconnected),
            TakeOutcome::Empty => Ok(None),
            TakeOutcome::Line(line) => {
                let mut out = line;
                let ghost start = out@;
                if self.windows_ending {
                    out.push(CARRIAGE_RETURN);
                }
                out.push(NEWLINE);
                assert(out@ =~= start + line_terminator(self.windows_ending));
                Ok(Some(out))
            },
        }
    }
}

} // verus!
