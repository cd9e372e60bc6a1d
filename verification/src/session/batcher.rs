//! Coalescing of pty output: many tiny chunks leave as one, after a short time
//! or when enough has come together.
//!
//! The timer is the driver's: the batcher says when it is due and is told the
//! time.

use crate::text::{lemma_utf16_concat, utf16_count, utf16_len};
use vstd::prelude::*;
use vstd::string::*;

verus! {

/// How long output is held back at most, in milliseconds.
pub const BATCH_DURATION_MS: u64 = 16;

/// How much output is held back, in UTF-16 code units, before it leaves
/// without waiting for the timer.
pub const BATCH_MAX_SIZE: usize = 204_800;

/// What is held back, and when it is due.
#[verifier::ext_equal]
pub struct BatcherView {
    pub data: Seq<char>,
    pub deadline: Option<u64>,
}

/// A batcher after a flush.
pub open spec fn flushed_batcher() -> BatcherView {
    BatcherView { data: Seq::empty(), deadline: None }
}

/// What a flush hands out: everything held back, or nothing where there is none.
pub open spec fn flushed_data(v: BatcherView) -> Option<Seq<char>> {
    if v.data.len() == 0 {
        None
    } else {
        Some(v.data)
    }
}

/// Whether a chunk makes what is held back leave at once.
pub open spec fn overflows(v: BatcherView, chunk: Seq<char>) -> bool {
    utf16_len(v.data) + utf16_len(chunk) >= BATCH_MAX_SIZE
}

/// A batcher after a write at the time `now`: what was held back has left where
/// the chunk made it, and the chunk is held back. The timer runs from the first
/// write after a flush.
pub open spec fn written(v: BatcherView, chunk: Seq<char>, now: u64) -> BatcherView {
    let w = if overflows(v, chunk) {
        flushed_batcher()
    } else {
        v
    };
    BatcherView {
        data: w.data + chunk,
        deadline: match w.deadline {
            Some(d) => Some(d),
            None => Some((now + BATCH_DURATION_MS) as u64),
        },
    }
}

/// What a write hands out at once.
pub open spec fn written_out(v: BatcherView, chunk: Seq<char>) -> Option<Seq<char>> {
    if overflows(v, chunk) {
        flushed_data(v)
    } else {
        None
    }
}

/// Text that was handed out, as text.
pub open spec fn out_text(o: Option<Seq<char>>) -> Seq<char> {
    match o {
        Some(s) => s,
        None => Seq::empty(),
    }
}

/// Nothing is lost, repeated or reordered: what a write hands out and what is
/// then held back are what was held back and the chunk.
pub proof fn law_write_keeps_every_character(v: BatcherView, chunk: Seq<char>, now: u64)
    ensures
        out_text(written_out(v, chunk)) + written(v, chunk, now).data == v.data + chunk,
{
    assert(out_text(written_out(v, chunk)) + written(v, chunk, now).data =~= v.data + chunk);
}

/// A flush hands out everything that was held back and leaves nothing.
pub proof fn law_flush_hands_out_everything(v: BatcherView)
    ensures
        out_text(flushed_data(v)) + flushed_batcher().data == v.data,
{
    assert(out_text(flushed_data(v)) + flushed_batcher().data =~= v.data);
}

/// A call on a batcher.
pub enum BatcherCall {
    Write { chunk: Seq<char>, now: u64 },
    Flush,
}

/// A batcher after calls on a fresh one.
pub open spec fn after_calls(calls: Seq<BatcherCall>) -> BatcherView
    decreases calls.len(),
{
    if calls.len() == 0 {
        flushed_batcher()
    } else {
        match calls.last() {
            BatcherCall::Write { chunk, now } => written(
                after_calls(calls.drop_last()),
                chunk,
                now,
            ),
            BatcherCall::Flush => flushed_batcher(),
        }
    }
}

/// What a call hands out, on a batcher that came from the calls before it.
pub open spec fn call_out(calls: Seq<BatcherCall>, call: BatcherCall) -> Option<Seq<char>> {
    match call {
        BatcherCall::Write { chunk, now } => written_out(after_calls(calls), chunk),
        BatcherCall::Flush => flushed_data(after_calls(calls)),
    }
}

/// What calls on a fresh batcher hand out, in turn.
pub open spec fn handed_out(calls: Seq<BatcherCall>) -> Seq<Seq<char>>
    decreases calls.len(),
{
    if calls.len() == 0 {
        Seq::empty()
    } else {
        let before = handed_out(calls.drop_last());
        match call_out(calls.drop_last(), calls.last()) {
            Some(s) => before.push(s),
            None => before,
        }
    }
}

/// The chunks of calls, in turn.
pub open spec fn chunks_of(calls: Seq<BatcherCall>) -> Seq<Seq<char>>
    decreases calls.len(),
{
    if calls.len() == 0 {
        Seq::empty()
    } else {
        let before = chunks_of(calls.drop_last());
        match calls.last() {
            BatcherCall::Write { chunk, now } => before.push(chunk),
            BatcherCall::Flush => before,
        }
    }
}

/// Texts one behind the other.
pub open spec fn joined(parts: Seq<Seq<char>>) -> Seq<char>
    decreases parts.len(),
{
    if parts.len() == 0 {
        Seq::empty()
    } else {
        joined(parts.drop_last()) + parts.last()
    }
}

/// Over any writes and flushes nothing is lost, repeated or reordered: what was
/// handed out and what is still held back are the chunks, and nothing empty is
/// handed out. A flush at the end leaves nothing held back, no timer, and nothing
/// for a further flush.
pub proof fn law_output_is_handed_out_once(calls: Seq<BatcherCall>)
    ensures
        joined(handed_out(calls)) + after_calls(calls).data == joined(chunks_of(calls)),
        forall|i: int|
            0 <= i < handed_out(calls).len() ==> (#[trigger] handed_out(calls)[i]).len() > 0,
        calls.len() > 0 && calls.last() is Flush ==> {
            &&& after_calls(calls) == flushed_batcher()
            &&& joined(handed_out(calls)) == joined(chunks_of(calls))
            &&& call_out(calls, BatcherCall::Flush) is None
        },
    decreases calls.len(),
{
    if calls.len() > 0 {
        let d = calls.drop_last();
        law_output_is_handed_out_once(d);
        let v = after_calls(d);
        let out = handed_out(d);
        if let Some(s) = call_out(d, calls.last()) {
            assert(out.push(s).drop_last() =~= out);
        }
        match calls.last() {
            BatcherCall::Write { chunk, now } => {
                law_write_keeps_every_character(v, chunk, now);
                let w = written_out(v, chunk);
                let all = chunks_of(d);
                assert(all.push(chunk).drop_last() =~= all);
                assert(joined(handed_out(calls)) =~= joined(out) + out_text(w));
                assert(joined(handed_out(calls)) + written(v, chunk, now).data =~= joined(out) + (
                out_text(w) + written(v, chunk, now).data));
                assert(joined(out) + (v.data + chunk) =~= joined(all) + chunk);
            },
            BatcherCall::Flush => {
                law_flush_hands_out_everything(v);
                assert(joined(handed_out(calls)) =~= joined(out) + v.data);
                assert(joined(handed_out(calls)) + Seq::<char>::empty() =~= joined(
                    handed_out(calls),
                ));
            },
        }
    }
}

/// After a write, what is held back is below the limit or is the chunk alone.
pub proof fn law_held_back_is_bounded(v: BatcherView, chunk: Seq<char>, now: u64)
    ensures
        utf16_len(written(v, chunk, now).data) < BATCH_MAX_SIZE || written(v, chunk, now).data
            == chunk,
{
    lemma_utf16_concat(v.data, chunk);
    if overflows(v, chunk) {
        assert(Seq::<char>::empty() + chunk =~= chunk);
    }
}

/// Output is held back as long as it is short, and leaves once it is not: a
/// write hands something out exactly where what is held and the chunk reach the
/// limit, and there is something held.
pub proof fn law_long_output_leaves(v: BatcherView, chunk: Seq<char>, now: u64)
    ensures
        utf16_len(v.data) + utf16_len(chunk) < BATCH_MAX_SIZE ==> written_out(v, chunk) is None
            && written(v, chunk, now).data == v.data + chunk,
        utf16_len(v.data) + utf16_len(chunk) >= BATCH_MAX_SIZE && v.data.len() > 0 ==> written_out(
            v,
            chunk,
        ) == Some(v.data) && written(v, chunk, now).data == chunk,
{
    assert(Seq::<char>::empty() + chunk =~= chunk);
}

/// The timer runs from the first write after a flush, and later writes do not
/// put it off.
pub proof fn law_timer_runs_from_the_first_write(v: BatcherView, chunk: Seq<char>, now: u64)
    requires
        now + BATCH_DURATION_MS <= u64::MAX,
    ensures
        v.deadline is None ==> written(v, chunk, now).deadline == Some(
            (now + BATCH_DURATION_MS) as u64,
        ),
        v.deadline is Some && utf16_len(v.data) + utf16_len(chunk) < BATCH_MAX_SIZE ==> written(
            v,
            chunk,
            now,
        ).deadline == v.deadline,
        utf16_len(v.data) + utf16_len(chunk) >= BATCH_MAX_SIZE ==> written(v, chunk, now).deadline
            == Some((now + BATCH_DURATION_MS) as u64),
        flushed_batcher().deadline is None,
{
}

/// Coalescing buffer for pty output.
#[derive(Debug)]
pub struct DataBatcher {
    pub data: String,
    /// Length of what is held back, in UTF-16 code units.
    pub len_u16: usize,
    pub deadline: Option<u64>,
}

impl View for DataBatcher {
    type V = BatcherView;

    open spec fn view(&self) -> BatcherView {
        BatcherView { data: self.data@, deadline: self.deadline }
    }
}

impl Default for DataBatcher {
    fn default() -> (r: DataBatcher)
        ensures
            r.wf(),
            r@ == flushed_batcher(),
    {
        DataBatcher::new()
    }
}

impl DataBatcher {
    /// The length is that of what is held back, and where the timer does not
    /// run nothing is.
    pub open spec fn wf(self) -> bool {
        &&& self.len_u16 == utf16_len(self.data@)
        &&& self.deadline is None ==> self.data@.len() == 0
    }

    /// A batcher that holds nothing back.
    pub fn new() -> (r: DataBatcher)
        ensures
            r.wf(),
            r@ == flushed_batcher(),
    {
        DataBatcher { data: String::new(), len_u16: 0, deadline: None }
    }

    /// Appends `chunk`. Where that would reach the limit, what is held back
    /// leaves first and is returned, and the chunk starts a fresh batch.
    pub fn write(&mut self, chunk: &str, now_ms: u64) -> (r: Option<String>)
        requires
            old(self).wf(),
            now_ms + BATCH_DURATION_MS <= u64::MAX,
            utf16_len(old(self)@.data) + utf16_len(chunk@) <= usize::MAX,
        ensures
            final(self).wf(),
            final(self)@ == written(old(self)@, chunk@, now_ms),
            crate::text::opt_view(r) == written_out(old(self)@, chunk@),
    {
        let ghost v = self@;
        let chunk_len: usize = utf16_count(chunk);
        let mut flushed = None;
        if self.len_u16 + chunk_len >= BATCH_MAX_SIZE {
            flushed = self.flush();
        }
        proof {
            lemma_utf16_concat(self.data@, chunk@);
        }
        self.data.append(chunk);
        self.len_u16 = self.len_u16 + chunk_len;
        if self.deadline.is_none() {
            self.deadline = Some(now_ms + BATCH_DURATION_MS);
        }
        flushed
    }

    /// Flushes now and stops the timer. Returns what was held back, or `None`
    /// where there was nothing.
    pub fn flush(&mut self) -> (r: Option<String>)
        requires
            old(self).wf(),
        ensures
            final(self).wf(),
            final(self)@ == flushed_batcher(),
            crate::text::opt_view(r) == flushed_data(old(self)@),
    {
        self.deadline = None;
        if self.data.as_str().is_empty() {
            assert(self.data@ =~= Seq::<char>::empty());
            return None;
        }
        self.len_u16 = 0;
        let mut out = String::new();
        std::mem::swap(&mut out, &mut self.data);
        Some(out)
    }

    /// When the timer is due, where it runs.
    pub fn deadline(&self) -> (r: Option<u64>)
        ensures
            r == self@.deadline,
    {
        self.deadline
    }

    /// Whether anything is held back.
    pub fn has_pending(&self) -> (r: bool)
        ensures
            r == (self@.data.len() > 0),
    {
        !self.data.as_str().is_empty()
    }
}

} // verus!
