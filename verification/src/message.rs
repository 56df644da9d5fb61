//! The messages carried by the job queue, and the vocabulary used to talk
//! about a sequence of them.

use vstd::prelude::*;

verus! {

/// What travels on the job queue: a unit of work, or the signal that tells
/// exactly one worker to stop.
pub enum Message<J> {
    /// A job to be run once by whichever worker receives it.
    NewJob(J),
    /// Tells the worker that receives it to stop.
    Terminate,
}

/// The jobs carried by `messages`, in the order in which they were sent.
pub open spec fn jobs_of<J>(messages: Seq<Message<J>>) -> Seq<J>
    decreases messages.len(),
{
    if messages.len() == 0 {
        Seq::empty()
    } else {
        match messages[0] {
            Message::NewJob(job) => seq![job] + jobs_of(messages.drop_first()),
            Message::Terminate => jobs_of(messages.drop_first()),
        }
    }
}

/// How many of `messages` are termination signals.
pub open spec fn terminates_in<J>(messages: Seq<Message<J>>) -> nat
    decreases messages.len(),
{
    if messages.len() == 0 {
        0
    } else if messages[0] is Terminate {
        1 + terminates_in(messages.drop_first())
    } else {
        terminates_in(messages.drop_first())
    }
}

/// How many jobs stand at the front of `messages` before the first
/// termination signal (or before the end, if there is no such signal).
pub open spec fn leading_jobs<J>(messages: Seq<Message<J>>) -> nat
    decreases messages.len(),
{
    if messages.len() == 0 || messages[0] is Terminate {
        0
    } else {
        1 + leading_jobs(messages.drop_first())
    }
}

/// `count` termination signals in a row.
pub open spec fn signals<J>(count: nat) -> Seq<Message<J>> {
    Seq::new(count, |i: int| Message::Terminate)
}

/// Every job among `messages` may be called.
pub open spec fn callable<J: FnOnce()>(messages: Seq<Message<J>>) -> bool {
    forall|i: int|
        0 <= i < messages.len() ==> (#[trigger] messages[i] matches Message::NewJob(job)
            ==> call_requires(job, ()))
}

/// Every job among `messages` has been called and has returned.
pub open spec fn completed<J: FnOnce()>(messages: Seq<Message<J>>) -> bool {
    forall|i: int|
        0 <= i < messages.len() ==> (#[trigger] messages[i] matches Message::NewJob(job)
            ==> call_ensures(job, (), ()))
}

/// The jobs of a single message: the job it carries, if it carries one.
pub proof fn lemma_jobs_of_one<J>(message: Message<J>)
    ensures
        jobs_of(seq![message]) == match message {
            Message::NewJob(job) => seq![job],
            Message::Terminate => Seq::empty(),
        },
        terminates_in(seq![message]) == if message is Terminate {
            1nat
        } else {
            0nat
        },
{
    let rest = seq![message].drop_first();
    assert(rest == Seq::<Message<J>>::empty());
    assert(jobs_of(rest) == Seq::<J>::empty());
    assert(terminates_in(rest) == 0);
}

/// The jobs of a concatenation are the jobs of its parts, in order.
pub proof fn lemma_jobs_of_concat<J>(front: Seq<Message<J>>, back: Seq<Message<J>>)
    ensures
        jobs_of(front + back) == jobs_of(front) + jobs_of(back),
    decreases front.len(),
{
    if front.len() == 0 {
        assert(front + back == back);
    } else {
        lemma_jobs_of_concat(front.drop_first(), back);
        assert((front + back).drop_first() == front.drop_first() + back);
    }
}

/// The termination signals of a concatenation are those of its parts.
pub proof fn lemma_terminates_in_concat<J>(front: Seq<Message<J>>, back: Seq<Message<J>>)
    ensures
        terminates_in(front + back) == terminates_in(front) + terminates_in(back),
    decreases front.len(),
{
    if front.len() == 0 {
        assert(front + back == back);
    } else {
        lemma_terminates_in_concat(front.drop_first(), back);
        assert((front + back).drop_first() == front.drop_first() + back);
    }
}

/// Appending a job extends the jobs and leaves the signals as they are;
/// appending a termination signal does the reverse.
pub proof fn lemma_push_message<J>(messages: Seq<Message<J>>, message: Message<J>)
    ensures
        message matches Message::NewJob(job) ==> {
            &&& jobs_of(messages.push(message)) == jobs_of(messages).push(job)
            &&& terminates_in(messages.push(message)) == terminates_in(messages)
        },
        message is Terminate ==> {
            &&& jobs_of(messages.push(message)) == jobs_of(messages)
            &&& terminates_in(messages.push(message)) == terminates_in(messages) + 1
        },
{
    assert(messages.push(message) == messages + seq![message]);
    lemma_jobs_of_concat(messages, seq![message]);
    lemma_terminates_in_concat(messages, seq![message]);
    lemma_jobs_of_one(message);
}

/// A row of termination signals holds as many signals as it is long, and no
/// job.
pub proof fn lemma_signals<J>(count: nat)
    ensures
        terminates_in(signals::<J>(count)) == count,
        jobs_of(signals::<J>(count)) == Seq::<J>::empty(),
    decreases count,
{
    if count > 0 {
        lemma_signals::<J>((count - 1) as nat);
        assert(signals::<J>(count).drop_first() == signals::<J>((count - 1) as nat));
    }
}

/// A sequence that ends in a termination signal holds at least one.
pub proof fn lemma_last_signal<J>(messages: Seq<Message<J>>)
    requires
        messages.len() > 0,
        messages.last() is Terminate,
    ensures
        terminates_in(messages) > 0,
{
    assert(messages == messages.drop_last().push(messages.last()));
    lemma_push_message(messages.drop_last(), messages.last());
}

/// The leading jobs are jobs, what follows them (if anything) is a
/// termination signal, and they are all there is exactly if there is no
/// signal.
pub proof fn lemma_leading_jobs<J>(messages: Seq<Message<J>>)
    ensures
        leading_jobs(messages) <= messages.len(),
        forall|i: int| 0 <= i < leading_jobs(messages) ==> (#[trigger] messages[i]) is NewJob,
        leading_jobs(messages) < messages.len() ==> messages[leading_jobs(
            messages,
        ) as int] is Terminate,
        leading_jobs(messages) == messages.len() <==> terminates_in(messages) == 0,
    decreases messages.len(),
{
    if messages.len() > 0 && messages[0] is NewJob {
        let rest = messages.drop_first();
        lemma_leading_jobs(rest);
        assert forall|i: int| 0 <= i < leading_jobs(messages) implies (
        #[trigger] messages[i]) is NewJob by {
            if i > 0 {
                assert(messages[i] == rest[i - 1]);
            }
        }
    }
}

/// Past the first termination signal there is one signal fewer.
pub proof fn lemma_skip_past_signal<J>(messages: Seq<Message<J>>)
    requires
        terminates_in(messages) > 0,
    ensures
        leading_jobs(messages) < messages.len(),
        terminates_in(messages.skip(leading_jobs(messages) as int + 1)) == terminates_in(messages)
            - 1,
    decreases messages.len(),
{
    let rest = messages.drop_first();
    if messages[0] is Terminate {
        assert(messages.skip(1) == rest);
    } else {
        lemma_skip_past_signal(rest);
        assert(messages.skip(leading_jobs(messages) as int + 1) == rest.skip(
            leading_jobs(rest) as int + 1,
        ));
    }
}

/// Any stretch of callable messages is callable.
pub proof fn lemma_callable_part<J: FnOnce()>(messages: Seq<Message<J>>, from: int, to: int)
    requires
        callable(messages),
        0 <= from <= to <= messages.len(),
    ensures
        callable(messages.subrange(from, to)),
{
    let part = messages.subrange(from, to);
    assert forall|i: int| 0 <= i < part.len() implies (#[trigger] part[i] matches Message::NewJob(
        job,
    ) ==> call_requires(job, ())) by {
        assert(part[i] == messages[from + i]);
    }
}

/// Any stretch of completed messages is completed.
pub proof fn lemma_completed_part<J: FnOnce()>(messages: Seq<Message<J>>, from: int, to: int)
    requires
        completed(messages),
        0 <= from <= to <= messages.len(),
    ensures
        completed(messages.subrange(from, to)),
{
    let part = messages.subrange(from, to);
    assert forall|i: int| 0 <= i < part.len() implies (#[trigger] part[i] matches Message::NewJob(
        job,
    ) ==> call_ensures(job, (), ())) by {
        assert(part[i] == messages[from + i]);
    }
}

/// Two completed stretches make a completed whole.
pub proof fn lemma_completed_concat<J: FnOnce()>(front: Seq<Message<J>>, back: Seq<Message<J>>)
    requires
        completed(front),
        completed(back),
    ensures
        completed(front + back),
{
    let whole = front + back;
    assert forall|i: int| 0 <= i < whole.len() implies (#[trigger] whole[i] matches Message::NewJob(
        job,
    ) ==> call_ensures(job, (), ())) by {
        if i < front.len() {
            assert(whole[i] == front[i]);
        } else {
            assert(whole[i] == back[i - front.len()]);
        }
    }
}

} // verus!
