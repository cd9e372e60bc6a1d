//! Prompts that wait for a conversation to come back, and are delivered once.
//!
//! The queue is a file. What is read from it, and what is to be written to it,
//! is a list of prompts.

use crate::text::{chars_of, is_white_space, owned, same, trim, trim_start, trimmed};
use crate::text_laws::{blank, law_trim_end_cuts_the_end, law_trim_keeps_what_is_between,
    law_trim_start_cuts_the_start};
use vstd::prelude::*;
use vstd::string::*;

verus! {

/// A prompt that waits for a session.
#[derive(Debug, Clone, PartialEq, Eq)]
pub struct QueuedPrompt {
    pub session_id: String,
    pub text: String,
    /// When it was queued, in milliseconds since the epoch. Prompts are in
    /// order of their places, not of this.
    pub queued_at: u64,
}

/// A prompt that waits for a session.
#[verifier::ext_equal]
pub struct PromptView {
    pub session_id: Seq<char>,
    pub text: Seq<char>,
    pub queued_at: u64,
}

impl View for QueuedPrompt {
    type V = PromptView;

    open spec fn view(&self) -> PromptView {
        PromptView {
            session_id: self.session_id@,
            text: self.text@,
            queued_at: self.queued_at,
        }
    }
}

/// The prompts of a list.
pub open spec fn prompt_views(v: Seq<QueuedPrompt>) -> Seq<PromptView> {
    Seq::new(v.len(), |i: int| v[i]@)
}

/// Why a prompt is not queued, if it is not. `valid` says whether the session
/// id has the shape of one.
pub open spec fn queue_error(session_id: Seq<char>, valid: bool, text: Seq<char>) -> Option<
    Seq<char>,
> {
    if !valid {
        Some("not a valid session id: "@ + session_id)
    } else if trim(text).len() == 0 {
        Some("empty prompt"@)
    } else {
        None
    }
}

/// The queue with one more prompt at its end.
pub open spec fn queued(
    q: Seq<PromptView>,
    session_id: Seq<char>,
    text: Seq<char>,
    now: u64,
) -> Seq<PromptView> {
    q.push(PromptView { session_id, text, queued_at: now })
}

/// The prompts of a session, in order.
pub open spec fn addressed(q: Seq<PromptView>, session_id: Seq<char>) -> Seq<PromptView>
    decreases q.len(),
{
    if q.len() == 0 {
        q
    } else if q.last().session_id == session_id {
        addressed(q.drop_last(), session_id).push(q.last())
    } else {
        addressed(q.drop_last(), session_id)
    }
}

/// The prompts of every other session, in order.
pub open spec fn others(q: Seq<PromptView>, session_id: Seq<char>) -> Seq<PromptView>
    decreases q.len(),
{
    if q.len() == 0 {
        q
    } else if q.last().session_id == session_id {
        others(q.drop_last(), session_id)
    } else {
        others(q.drop_last(), session_id).push(q.last())
    }
}

/// Appends a prompt for a session. `valid` says whether the id has the shape of
/// a session id. A prompt that is refused leaves the queue as it is.
pub fn enqueue(
    queue: &mut Vec<QueuedPrompt>,
    session_id: &str,
    valid: bool,
    text: &str,
    now_ms: u64,
) -> (r: Result<(), String>)
    ensures
        match r {
            Ok(()) => queue_error(session_id@, valid, text@) is None && prompt_views(
                final(queue)@,
            ) == queued(prompt_views(old(queue)@), session_id@, text@, now_ms),
            Err(e) => queue_error(session_id@, valid, text@) == Some(e@) && final(queue)@
                == old(queue)@,
        },
{
    if !valid {
        let mut e = owned("not a valid session id: ");
        e.append(session_id);
        return Err(e);
    }
    let chars = chars_of(text);
    if trimmed(chars.as_slice()).len() == 0 {
        return Err(owned("empty prompt"));
    }
    let ghost q = prompt_views(queue@);
    queue.push(
        QueuedPrompt { session_id: owned(session_id), text: owned(text), queued_at: now_ms },
    );
    assert(prompt_views(queue@) =~= queued(q, session_id@, text@, now_ms));
    Ok(())
}

fn copy_prompt(p: &QueuedPrompt) -> (r: QueuedPrompt)
    ensures
        r@ == p@,
{
    QueuedPrompt {
        session_id: p.session_id.clone(),
        text: p.text.clone(),
        queued_at: p.queued_at,
    }
}

/// Takes every prompt of a session out of the queue. Returns them, the oldest
/// first. The file is out of date where there are any.
pub fn take_for(queue: &mut Vec<QueuedPrompt>, session_id: &str) -> (r: Vec<QueuedPrompt>)
    ensures
        prompt_views(r@) == addressed(prompt_views(old(queue)@), session_id@),
        prompt_views(final(queue)@) == others(prompt_views(old(queue)@), session_id@),
{
    let ghost q = prompt_views(queue@);
    let mut taken: Vec<QueuedPrompt> = Vec::new();
    let mut kept: Vec<QueuedPrompt> = Vec::new();
    let mut i: usize = 0;
    assert(q.take(0) =~= Seq::<PromptView>::empty());
    assert(prompt_views(taken@) =~= Seq::<PromptView>::empty());
    assert(prompt_views(kept@) =~= Seq::<PromptView>::empty());
    while i < queue.len()
        invariant
            i <= queue@.len(),
            queue@ == old(queue)@,
            q == prompt_views(queue@),
            prompt_views(taken@) == addressed(q.take(i as int), session_id@),
            prompt_views(kept@) == others(q.take(i as int), session_id@),
        decreases queue.len() - i,
    {
        let ghost a = prompt_views(taken@);
        let ghost b = prompt_views(kept@);
        assert(q.take(i + 1).drop_last() =~= q.take(i as int));
        assert(q.take(i + 1).last() == queue@[i as int]@);
        let p = copy_prompt(&queue[i]);
        if same(p.session_id.as_str(), session_id) {
            taken.push(p);
            assert(prompt_views(taken@) =~= a.push(p@));
        } else {
            kept.push(p);
            assert(prompt_views(kept@) =~= b.push(p@));
        }
        i = i + 1;
    }
    assert(q.take(i as int) =~= q);
    *queue = kept;
    taken
}

/// Whether nothing can be waiting, by the size of the queue's file: there is
/// none, or it holds no more than an empty list.
pub fn is_empty(size: Option<u64>) -> (r: bool)
    ensures
        r == (size matches Some(n) ==> n <= 2),
{
    match size {
        Some(n) => n <= 2,
        None => true,
    }
}

/// All prompts that wait, in order; none is taken.
pub fn list(queue: &Vec<QueuedPrompt>) -> (r: Vec<QueuedPrompt>)
    ensures
        prompt_views(r@) == prompt_views(queue@),
{
    let ghost q = prompt_views(queue@);
    let mut out: Vec<QueuedPrompt> = Vec::new();
    let mut i: usize = 0;
    while i < queue.len()
        invariant
            i <= queue@.len(),
            q == prompt_views(queue@),
            prompt_views(out@) == q.take(i as int),
        decreases queue.len() - i,
    {
        let ghost before = prompt_views(out@);
        out.push(copy_prompt(&queue[i]));
        assert(prompt_views(out@) =~= before.push(q[i as int]));
        assert(before.push(q[i as int]) =~= q.take(i + 1));
        i = i + 1;
    }
    assert(q.take(i as int) =~= q);
    out
}

// ---------------------------------------------------------------------------
// Laws
// ---------------------------------------------------------------------------

/// A prompt is delivered once: after a session took its prompts it finds none,
/// and the other sessions find theirs as before.
pub proof fn law_prompts_are_delivered_once(
    q: Seq<PromptView>,
    session_id: Seq<char>,
    other: Seq<char>,
)
    ensures
        addressed(others(q, session_id), session_id).len() == 0,
        other != session_id ==> addressed(others(q, session_id), other) == addressed(q, other),
    decreases q.len(),
{
    if q.len() > 0 {
        law_prompts_are_delivered_once(q.drop_last(), session_id, other);
        let t = others(q, session_id);
        if q.last().session_id != session_id {
            assert(t.drop_last() =~= others(q.drop_last(), session_id));
            assert(t.last() == q.last());
        }
    }
}

/// A queued prompt comes last of its session's, and changes nothing for others.
pub proof fn law_prompts_are_first_in_first_out(
    q: Seq<PromptView>,
    session_id: Seq<char>,
    text: Seq<char>,
    now: u64,
    other: Seq<char>,
)
    ensures
        addressed(queued(q, session_id, text, now), session_id) == addressed(q, session_id).push(
            (PromptView { session_id, text, queued_at: now }),
        ),
        other != session_id ==> addressed(queued(q, session_id, text, now), other) == addressed(
            q,
            other,
        ),
{
    let t = queued(q, session_id, text, now);
    assert(t.drop_last() =~= q);
}

/// No prompt is lost: every one is taken or left.
pub proof fn law_no_prompt_is_lost(q: Seq<PromptView>, session_id: Seq<char>)
    ensures
        addressed(q, session_id).len() + others(q, session_id).len() == q.len(),
    decreases q.len(),
{
    if q.len() > 0 {
        law_no_prompt_is_lost(q.drop_last(), session_id);
    }
}

/// What a session takes and what is left for others keep their order: each half
/// of a queue gives its own, one after the other.
pub proof fn law_prompts_keep_their_order(
    a: Seq<PromptView>,
    b: Seq<PromptView>,
    session_id: Seq<char>,
)
    ensures
        addressed(a + b, session_id) == addressed(a, session_id) + addressed(b, session_id),
        others(a + b, session_id) == others(a, session_id) + others(b, session_id),
    decreases b.len(),
{
    if b.len() > 0 {
        assert((a + b).drop_last() =~= a + b.drop_last());
        law_prompts_keep_their_order(a, b.drop_last(), session_id);
        assert((a + b).last() == b.last());
        assert(addressed(a + b, session_id) =~= addressed(a, session_id) + addressed(
            b,
            session_id,
        ));
        assert(others(a + b, session_id) =~= others(a, session_id) + others(b, session_id));
    } else {
        assert(a + b =~= a);
        assert(addressed(a, session_id) + addressed(b, session_id) =~= addressed(a, session_id));
        assert(others(a, session_id) + others(b, session_id) =~= others(a, session_id));
    }
}

/// A session takes a prompt exactly where it is addressed to it.
pub proof fn law_prompt_reaches_its_session(p: PromptView, session_id: Seq<char>)
    ensures
        p.session_id == session_id ==> addressed(seq![p], session_id) == seq![p] && others(
            seq![p],
            session_id,
        ).len() == 0,
        p.session_id != session_id ==> others(seq![p], session_id) == seq![p] && addressed(
            seq![p],
            session_id,
        ).len() == 0,
{
    let nothing = Seq::<PromptView>::empty();
    assert(seq![p].drop_last() =~= nothing);
    assert(nothing.push(p) =~= seq![p]);
    reveal_with_fuel(addressed, 2);
    reveal_with_fuel(others, 2);
}

/// A prompt for a session is queued exactly where some of it is not white space,
/// and a refusal of an id tells which.
pub proof fn law_blank_prompts_are_refused(session_id: Seq<char>, text: Seq<char>, i: int)
    ensures
        blank(text) ==> queue_error(session_id, true, text) is Some,
        0 <= i < text.len() && !is_white_space(text[i]) ==> queue_error(
            session_id,
            true,
            text,
        ) is None,
        queue_error(session_id, false, text) matches Some(e) && e.len() >= session_id.len()
            && e.skip(e.len() - session_id.len()) == session_id,
{
    if blank(text) {
        law_trim_keeps_what_is_between(text, Seq::empty(), Seq::empty());
        assert(text + Seq::<char>::empty() + Seq::<char>::empty() =~= text);
    }
    if 0 <= i < text.len() && !is_white_space(text[i]) {
        law_trim_start_cuts_the_start(text);
        let t = trim_start(text);
        law_trim_end_cuts_the_end(t);
        let k = text.len() - t.len();
        if i < k {
            assert(is_white_space(text.take(k)[i]));
        }
        assert(t[i - k] == text[i]);
        if trim(text).len() == 0 {
            assert(is_white_space(t.skip(0)[i - k]));
        }
    }
    let e = "not a valid session id: "@ + session_id;
    assert(e.skip(e.len() - session_id.len()) =~= session_id);
}

} // verus!
