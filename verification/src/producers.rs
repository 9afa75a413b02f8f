//! Extra producers: sources of metrics in text form, run on every scrape.

use vstd::prelude::*;
use crate::exposition::{eof_marker, truncate_eof};

verus! {

/// Something that appends metrics, in the text exposition format, to a
/// buffer. Implementations keep what the buffer held and add after it.
pub trait ExtraProducer {
    /// Whether producing may turn a buffer holding `before` into one holding
    /// `after`: by default, whenever `after` extends `before`; an
    /// implementation may say more of what it appends.
    open spec fn produces(&self, before: Seq<u8>, after: Seq<u8>) -> bool {
        before.is_prefix_of(after)
    }

    /// Appends metrics in the text format to `buffer`.
    fn produce(&self, buffer: &mut Vec<u8>)
        ensures
            old(buffer)@.is_prefix_of(final(buffer)@),
            self.produces(old(buffer)@, final(buffer)@),
    ;
}

/// `b` without its trailing OpenMetrics terminator, if it ends with one.
pub open spec fn strip_eof(b: Seq<u8>) -> Seq<u8> {
    if eof_marker().is_suffix_of(b) {
        b.take(b.len() - 6)
    } else {
        b
    }
}

/// Whether running the producers `ps` in turn, each followed by the removal
/// of a trailing terminator, can lead from `start` to `end`: `states` are the
/// buffers before each producer and at the end, `afters` the buffers each
/// producer left, each one extending the buffer it was given.
pub open spec fn runs_in_order(
    ps: Seq<Box<dyn ExtraProducer>>,
    states: Seq<Seq<u8>>,
    afters: Seq<Seq<u8>>,
    start: Seq<u8>,
    end: Seq<u8>,
) -> bool {
    &&& states.len() == ps.len() + 1
    &&& afters.len() == ps.len()
    &&& states[0] == start
    &&& states[ps.len() as int] == end
    &&& forall|i: int|
        0 <= i < ps.len() ==> {
            &&& ps[i].produces(#[trigger] states[i], afters[i])
            &&& states[i].is_prefix_of(afters[i])
            &&& states[i + 1] == strip_eof(afters[i])
        }
}

/// The extra producers, in the order they were added.
pub struct ExtraProducers {
    producers: Vec<Box<dyn ExtraProducer>>,
}

impl View for ExtraProducers {
    type V = Seq<Box<dyn ExtraProducer>>;

    closed spec fn view(&self) -> Seq<Box<dyn ExtraProducer>> {
        self.producers@
    }
}

impl ExtraProducers {
    /// The number of producers.
    pub open spec fn count(&self) -> nat {
        self@.len()
    }

    /// No producer.
    pub fn new() -> (r: Self)
        ensures
            r@ == Seq::<Box<dyn ExtraProducer>>::empty(),
    {
        let r = ExtraProducers { producers: Vec::new() };
        assert(r@ =~= Seq::<Box<dyn ExtraProducer>>::empty());
        r
    }

    /// Runs each producer once, in the order they were added, removing the
    /// terminator that each one wrote so that the next one can follow.
    /// Without producers the buffer stays as it is.
    #[verifier::spinoff_prover]
    #[verifier::rlimit(40)]
    pub fn produce_all(&self, buffer: &mut Vec<u8>)
        ensures
            exists|states: Seq<Seq<u8>>, afters: Seq<Seq<u8>>|
                #[trigger] runs_in_order(self@, states, afters, old(buffer)@, final(buffer)@),
            self.count() == 0 ==> final(buffer)@ == old(buffer)@,
    {
        let ghost start = buffer@;
        let ghost mut states: Seq<Seq<u8>> = seq![start];
        let ghost mut afters: Seq<Seq<u8>> = Seq::empty();
        let mut i: usize = 0;
        while i < self.producers.len()
            invariant
                i <= self.producers@.len(),
                states.len() == i + 1,
                afters.len() == i,
                states[0] == start,
                states[i as int] == buffer@,
                forall|j: int|
                    0 <= j < i ==> {
                        &&& self.producers@[j].produces(#[trigger] states[j], afters[j])
                        &&& states[j].is_prefix_of(afters[j])
                        &&& states[j + 1] == strip_eof(afters[j])
                    },
            decreases self.producers@.len() - i,
        {
            let ghost before = buffer@;
            self.producers[i].produce(buffer);
            let ghost after = buffer@;
            truncate_eof(buffer);
            proof {
                let ghost old_states = states;
                let ghost old_afters = afters;
                afters = afters.push(after);
                states = states.push(buffer@);
                assert forall|j: int| 0 <= j < i + 1 implies {
                    &&& self.producers@[j].produces(#[trigger] states[j], afters[j])
                    &&& states[j].is_prefix_of(afters[j])
                    &&& states[j + 1] == strip_eof(afters[j])
                } by {
                    assert(states[j] == old_states[j]);
                    if j < i {
                        assert(afters[j] == old_afters[j]);
                        assert(states[j + 1] == old_states[j + 1]);
                    } else {
                        assert(afters[j] == after);
                        assert(states[j + 1] == buffer@);
                    }
                }
            }
            i = i + 1;
        }
        assert(runs_in_order(self@, states, afters, start, buffer@));
    }
}

/// Adds a producer that runs whenever metrics are scraped, after those
/// added before it.
pub fn add_extra_producer<P: ExtraProducer + 'static>(producers: &mut ExtraProducers, p: P)
    ensures
        final(producers)@.len() == old(producers)@.len() + 1,
        final(producers)@.drop_last() == old(producers)@,
{
    let boxed: Box<dyn ExtraProducer> = Box::new(p);
    let ghost before = producers.producers@;
    producers.producers.push(boxed);
    proof {
        // The length fact is not applied by itself to sequences of trait
        // objects; state it for this push.
        vstd::seq::axiom_seq_push_len(before, boxed);
        vstd::seq::axiom_seq_push_index_same(before, boxed, before.len() as int);
        assert forall|i: int| 0 <= i < before.len() implies producers.producers@.drop_last()[i]
            == before[i] by {
            vstd::seq::axiom_seq_push_index_different(before, boxed, i);
        }
        assert(producers.producers@.drop_last() =~= before);
    }
}

/// The text exposition of a scrape: what the encoder wrote, without its
/// terminator, then what each extra producer appends in turn, each one's own
/// terminator removed, and a single terminator at the very end.
pub fn collect(encoded: &[u8], producers: &ExtraProducers) -> (r: Vec<u8>)
    ensures
        r@.len() >= 6,
        r@.skip(r@.len() - 6) == eof_marker(),
        exists|states: Seq<Seq<u8>>, afters: Seq<Seq<u8>>|
            #[trigger] runs_in_order(
                producers@,
                states,
                afters,
                strip_eof(encoded@),
                r@.take(r@.len() - 6),
            ),
        producers.count() == 0 ==> r@ == strip_eof(encoded@) + eof_marker(),
{
    let mut buffer: Vec<u8> = Vec::new();
    let mut i: usize = 0;
    while i < encoded.len()
        invariant
            i <= encoded@.len(),
            buffer@ == encoded@.take(i as int),
        decreases encoded@.len() - i,
    {
        buffer.push(encoded[i]);
        i = i + 1;
        assert(buffer@ =~= encoded@.take(i as int));
    }
    assert(buffer@ =~= encoded@);
    truncate_eof(&mut buffer);
    assert(buffer@ == strip_eof(encoded@));
    producers.produce_all(&mut buffer);
    let ghost body = buffer@;
    buffer.push(0x23);
    buffer.push(0x20);
    buffer.push(0x45);
    buffer.push(0x4f);
    buffer.push(0x46);
    buffer.push(0x0a);
    assert(buffer@ =~= body + eof_marker());
    assert(buffer@.take(buffer@.len() - 6) =~= body);
    assert(buffer@.skip(buffer@.len() - 6) =~= eof_marker());
    buffer
}

/// Whether protobuf can represent everything there is to expose: only when no
/// extra producer, which hands over opaque text, is registered.
pub fn protobuf_available(producers: &ExtraProducers) -> (r: bool)
    ensures
        r == (producers.count() == 0),
{
    producers.producers.len() == 0
}

} // verus!
