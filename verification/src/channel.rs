//! The channel protocol connecting filter stages.
//!
//! A channel carries two things between a producing stage and its consumer:
//! a value stream, delivered strictly in emission order, and a context that
//! is settled exactly once, independently of how much of the value stream
//! has been consumed. There is no separate error channel: a raised
//! exception travels the stream as an ordinary value.
//!
//! The sending half of a channel is `send`, `settle` and `close`; the
//! receiving half is `recv`, `await_context` and `cancel`. A `Receiver`
//! owns the consumer end of a stage's output. A consumer that cancels
//! stops the producer: once `cancelled` is set, `send` refuses every value
//! and reports it, so a producer that checks the flag at each emission
//! point stops within one emission of being abandoned.

use vstd::prelude::*;
use crate::value::{Value, VModel, vmodel, vmodels, lemma_vmodels_index};
use crate::context::Context;
use crate::filter::{Filter, fmodel, eval, run_filter, clone_values};
use crate::util::Labeled;
use crate::value::clone_value;

verus! {

/// The shared state of one stage-to-stage connection.
pub struct Channel {
    /// Values sent and not yet received, in emission order.
    pub buffer: Vec<Value>,
    /// The producer has finished emitting.
    pub closed: bool,
    /// The consumer has stopped pulling; the producer must stop.
    pub cancelled: bool,
    /// The stage's resulting context, once settled.
    pub context: Option<Context>,
    /// Everything ever sent, in emission order.
    pub sent: Ghost<Seq<VModel>>,
    /// Everything received so far, in the order it was handed out.
    pub received: Ghost<Seq<VModel>>,
}

impl Channel {
    /// The channel invariant: what was sent is what was received followed
    /// by what still waits in the buffer.
    pub open spec fn wf(self) -> bool {
        self.sent@ == self.received@ + vmodels(self.buffer@)
    }

    /// A fresh, open, empty channel with an unsettled context.
    pub fn new() -> (r: Channel)
        ensures
            r.wf(),
            r.sent@ == Seq::<VModel>::empty(),
            r.received@ == Seq::<VModel>::empty(),
            r.buffer@.len() == 0,
            !r.closed,
            !r.cancelled,
            r.context is None,
    {
        let r = Channel {
            buffer: Vec::new(),
            closed: false,
            cancelled: false,
            context: Option::None,
            sent: Ghost(Seq::empty()),
            received: Ghost(Seq::empty()),
        };
        proof {
            assert(r.sent@ =~= r.received@ + vmodels(r.buffer@));
        }
        r
    }

    /// Emits a value. Accepted, and appended to the stream, exactly when
    /// the channel is neither cancelled nor closed; a refused value leaves
    /// the channel unchanged, telling the producer to stop.
    pub fn send(&mut self, v: Value) -> (accepted: bool)
        requires
            old(self).wf(),
        ensures
            final(self).wf(),
            accepted == (!old(self).cancelled && !old(self).closed),
            !accepted ==> *final(self) == *old(self),
            accepted ==> {
                &&& final(self).sent@ == old(self).sent@.push(vmodel(v))
                &&& final(self).received@ == old(self).received@
                &&& final(self).buffer@ == old(self).buffer@.push(v)
                &&& final(self).closed == old(self).closed
                &&& final(self).cancelled == old(self).cancelled
                &&& final(self).context == old(self).context
            },
    {
        if self.cancelled || self.closed {
            return false;
        }
        proof {
            lemma_vmodels_index(self.buffer@);
        }
        let ghost pre = self.buffer@;
        self.buffer.push(v);
        proof {
            self.sent@ = self.sent@.push(vmodel(v));
            lemma_vmodels_index(self.buffer@);
            lemma_vmodels_index(pre);
            assert(self.sent@ =~= self.received@ + vmodels(self.buffer@));
        }
        true
    }

    /// Marks the end of the stream.
    pub fn close(&mut self)
        requires
            old(self).wf(),
        ensures
            final(self).wf(),
            final(self).closed,
            final(self).sent@ == old(self).sent@,
            final(self).received@ == old(self).received@,
            final(self).buffer@ == old(self).buffer@,
            final(self).cancelled == old(self).cancelled,
            final(self).context == old(self).context,
    {
        self.closed = true;
    }

    /// The consumer abandons the stream; every later `send` is refused.
    pub fn cancel(&mut self)
        requires
            old(self).wf(),
        ensures
            final(self).wf(),
            final(self).cancelled,
            final(self).sent@ == old(self).sent@,
            final(self).received@ == old(self).received@,
            final(self).buffer@ == old(self).buffer@,
            final(self).closed == old(self).closed,
            final(self).context == old(self).context,
    {
        self.cancelled = true;
    }

    /// Settles the context, exactly once, regardless of how many values
    /// wait in the buffer or were consumed: context resolution is
    /// independent of value-stream exhaustion.
    pub fn settle(&mut self, ctx: Context)
        requires
            old(self).wf(),
            old(self).context is None,
        ensures
            final(self).wf(),
            final(self).context == Option::Some(ctx),
            final(self).sent@ == old(self).sent@,
            final(self).received@ == old(self).received@,
            final(self).buffer@ == old(self).buffer@,
            final(self).closed == old(self).closed,
            final(self).cancelled == old(self).cancelled,
    {
        self.context = Option::Some(ctx);
    }

    /// Takes the next value, in exactly the order values were sent, or
    /// nothing when the buffer is drained.
    pub fn recv(&mut self) -> (r: Option<Value>)
        requires
            old(self).wf(),
        ensures
            final(self).wf(),
            old(self).buffer@.len() == 0 ==> r is None && *final(self) == *old(self),
            old(self).buffer@.len() > 0 ==> {
                &&& r is Some
                &&& vmodel(r->Some_0) == old(self).sent@[old(self).received@.len() as int]
                &&& final(self).received@ == old(self).received@.push(vmodel(r->Some_0))
                &&& final(self).sent@ == old(self).sent@
                &&& final(self).buffer@ == old(self).buffer@.drop_first()
                &&& final(self).closed == old(self).closed
                &&& final(self).cancelled == old(self).cancelled
                &&& final(self).context == old(self).context
            },
    {
        if self.buffer.len() == 0 {
            return Option::None;
        }
        proof {
            lemma_vmodels_index(self.buffer@);
        }
        let ghost pre = self.buffer@;
        let v = self.buffer.remove(0);
        proof {
            self.received@ = self.received@.push(vmodel(v));
            assert(self.buffer@ =~= pre.drop_first());
            lemma_vmodels_index(self.buffer@);
            assert(self.sent@ =~= self.received@ + vmodels(self.buffer@));
        }
        Option::Some(v)
    }

    /// The settled context, when the producer has settled it.
    pub fn await_context(&self) -> (r: Option<&Context>)
        ensures
            match r {
                Option::Some(c) => self.context == Option::Some(*c),
                Option::None => self.context is None,
            },
    {
        match &self.context {
            Option::Some(c) => Option::Some(c),
            Option::None => Option::None,
        }
    }
}

/// Values are observed in exactly the order they were emitted: at every
/// state, what has been received is a prefix of what was sent, in order.
pub proof fn lemma_stream_ordering(c: Channel)
    requires
        c.wf(),
    ensures
        c.received@ == c.sent@.take(c.received@.len() as int),
{
    assert(c.received@ =~= c.sent@.take(c.received@.len() as int));
}

/// The consumer-facing handle to a pipeline stage's output: a context that
/// will be settled, plus the stage's value stream.
pub struct Receiver {
    pub chan: Channel,
}

impl Receiver {
    /// A finished stage carrying no values and the given, already settled,
    /// context: the starting point of a pipeline.
    pub fn empty(ctx: Context) -> (r: Receiver)
        ensures
            r.chan.wf(),
            r.chan.sent@ == Seq::<VModel>::empty(),
            r.chan.received@ == Seq::<VModel>::empty(),
            r.chan.buffer@.len() == 0,
            r.chan.closed,
            !r.chan.cancelled,
            r.chan.context == Option::Some(ctx),
    {
        let mut chan = Channel::new();
        chan.settle(ctx);
        chan.close();
        Receiver { chan }
    }

    /// Applies a filter to this stage's output, producing the next stage's
    /// receiver: its stream holds the filter's outputs in emission order,
    /// and its context is settled — before any value is consumed — to the
    /// context the filter's evaluation determined.
    pub fn filter(&self, f: &Filter, fuel: u64) -> (r: Receiver)
        requires
            self.chan.wf(),
            self.chan.context is Some,
        ensures
            ({
                let e = eval(
                    fmodel(*f),
                    (self.chan.context->Some_0)@,
                    vmodels(self.chan.buffer@),
                    fuel as nat,
                );
                &&& r.chan.wf()
                &&& r.chan.sent@ == e.0
                &&& r.chan.received@ == Seq::<VModel>::empty()
                &&& vmodels(r.chan.buffer@) == e.0
                &&& r.chan.closed
                &&& !r.chan.cancelled
                &&& r.chan.context is Some
                &&& (r.chan.context->Some_0)@ == e.1
            }),
    {
        let ctx = match &self.chan.context {
            Option::Some(c) => c,
            Option::None => unreached(),
        };
        let inputs = clone_values(&self.chan.buffer);
        let (outs, out_ctx) = run_filter(f, ctx, &inputs, fuel);
        let chan = Channel {
            sent: Ghost(vmodels(outs@)),
            received: Ghost(Seq::empty()),
            buffer: outs,
            closed: true,
            cancelled: false,
            context: Option::Some(out_ctx),
        };
        proof {
            assert(chan.sent@ =~= chan.received@ + vmodels(chan.buffer@));
        }
        Receiver { chan }
    }
}

/// The uniform shape every primitive filter operation implements: a
/// labeled callable that reads the input receiver's stream and context and
/// whose entire observable effect is what it writes to the output channel's
/// sending half — the emitted values, the settled context, and the end of
/// the stream. The label identifies the callable in diagnostics only.
pub fn dispatch(callable: &Labeled<Filter>, input: &Receiver, output: &mut Channel, fuel: u64)
    requires
        input.chan.wf(),
        input.chan.context is Some,
        old(output).wf(),
        old(output).context is None,
        !old(output).closed,
        !old(output).cancelled,
    ensures
        ({
            let e = eval(
                fmodel(callable.value_spec()),
                (input.chan.context->Some_0)@,
                vmodels(input.chan.buffer@),
                fuel as nat,
            );
            &&& final(output).wf()
            &&& final(output).sent@ == old(output).sent@ + e.0
            &&& final(output).received@ == old(output).received@
            &&& final(output).closed
            &&& !final(output).cancelled
            &&& final(output).context is Some
            &&& (final(output).context->Some_0)@ == e.1
        }),
{
    let ctx = match &input.chan.context {
        Option::Some(c) => c,
        Option::None => unreached(),
    };
    let inputs = clone_values(&input.chan.buffer);
    let (outs, out_ctx) = run_filter(callable.value(), ctx, &inputs, fuel);
    let ghost target = vmodels(outs@);
    proof {
        lemma_vmodels_index(outs@);
        assert(old(output).sent@ + target.take(0) =~= old(output).sent@);
    }
    let n = outs.len();
    let mut i: usize = 0;
    while i < n
        invariant
            n == outs@.len(),
            i <= n,
            target == vmodels(outs@),
            target.len() == n,
            forall|j: int| 0 <= j < n ==> target[j] == vmodel(outs@[j]),
            output.wf(),
            output.context is None,
            !output.closed,
            !output.cancelled,
            output.received@ == old(output).received@,
            output.sent@ == old(output).sent@ + target.take(i as int),
        decreases n - i,
    {
        let accepted = output.send(clone_value(&outs[i]));
        proof {
            assert(accepted);
            assert(target.take(i as int).push(target[i as int]) =~= target.take(i + 1));
            assert(output.sent@ =~= old(output).sent@ + target.take(i + 1));
        }
        i += 1;
    }
    proof {
        assert(target.take(n as int) =~= target);
    }
    output.settle(out_ctx);
    output.close();
}

} // verus!
