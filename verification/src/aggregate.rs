//! The virtual machine: the aggregate primitives `neighboring`, `repeat`,
//! `share` and `branch`, evaluated against one round's inbound snapshot and
//! the persistent per-path store.
//!
//! Every primitive enters one alignment frame and leaves it again, whether
//! it succeeds or fails: on every return the stack holds exactly the
//! coordinates it held on entry.  `branch` and re-entrant evolutions are
//! driven through the enter/exit pairs; the code between an enter and its
//! exit may call further primitives, which align under the open frame.

use vstd::prelude::*;

use crate::alignment::AlignmentStack;
use crate::alignment::StackModel;
use crate::alignment::entered_path;
use crate::alignment::path_of;
use crate::field::Field;
use crate::inbound::InboundMessage;
use crate::kv::AbsKey;
use crate::kv::OrdKey;
use crate::kv::kv_map;
use crate::kv::kv_sorted;
use crate::outbound::OutboundMessage;
use crate::path::Path;
use crate::path::path_text;
use crate::serializer::Serializer;
use crate::state::State;
use crate::state::StateError;
use crate::state::StateValue;
use crate::state::Storable;

verus! {

/// What a primitive surfaces when a round cannot complete: the serializer
/// refused a value going out or coming in, or a path's stored state was
/// read at another type (a programmer error, fatal within the round).
#[derive(Debug, PartialEq, Eq)]
pub enum AggregateError {
    SerializationError(String),
    DeserializationError(String),
    StateTypeMismatch(StateError),
}

/// The words an aggregate error reports.
pub open spec fn aggregate_error_text(e: AggregateError) -> Seq<char> {
    match e {
        AggregateError::SerializationError(m) => "serialization error: "@ + m@,
        AggregateError::DeserializationError(m) => "deserialization error: "@ + m@,
        AggregateError::StateTypeMismatch(se) => crate::state::mismatch_text(
            se.path@,
            se.expected,
        ),
    }
}

impl AggregateError {
    /// The error in words, naming its kind.
    pub fn describe(&self) -> (r: String)
        ensures
            r@ == aggregate_error_text(*self),
    {
        match self {
            AggregateError::SerializationError(m) => {
                let mut s = String::new();
                s.append("serialization error: ");
                s.append(m.as_str());
                proof {
                    assert(s@ =~= aggregate_error_text(*self));
                }
                s
            },
            AggregateError::DeserializationError(m) => {
                let mut s = String::new();
                s.append("deserialization error: ");
                s.append(m.as_str());
                proof {
                    assert(s@ =~= aggregate_error_text(*self));
                }
                s
            },
            AggregateError::StateTypeMismatch(se) => se.describe(),
        }
    }
}

/// The token `branch` aligns under: the condition is part of the token, so
/// devices that took different branches sit on different paths.
pub open spec fn branch_token(condition: bool) -> Seq<char> {
    if condition {
        "branch[true]"@
    } else {
        "branch[false]"@
    }
}

/// The value a persistent primitive starts its evolution from: what the
/// store holds at the path, read at `V`, or the initial value when the path
/// is absent.  Nothing means the stored value carries another type.
pub open spec fn prev_value<V: Storable>(
    store: Map<Seq<Seq<char>>, StateValue>,
    p: Seq<Seq<char>>,
    initial: V,
) -> Option<V> {
    if store.contains_key(p) {
        V::unwrap_spec(store[p])
    } else {
        Some(initial)
    }
}

/// The neighbours whose tree holds a value at the path.
pub open spec fn devices_holding(
    inb: Map<int, Map<Seq<Seq<char>>, Seq<u8>>>,
    p: Seq<Seq<char>>,
) -> Set<int> {
    Set::new(|k: int| inb.contains_key(k) && inb[k].contains_key(p))
}

/// Whether every neighbour's bytes at the path decode under the serializer.
pub open spec fn all_decode<V, S: Serializer<V>>(
    s: S,
    inb: Map<int, Map<Seq<Seq<char>>, Seq<u8>>>,
    p: Seq<Seq<char>>,
) -> bool {
    forall|k: int|
        #![trigger inb[k]]
        inb.contains_key(k) && inb[k].contains_key(p) ==> <S as Serializer<V>>::dec(
            &s,
            inb[k][p],
        ) is Some
}

/// Whether the field holds the given default and, as overrides, exactly the
/// decoded value of each neighbour that emitted bytes at the path.
pub open spec fn decoded_field<Id: OrdKey, V, S: Serializer<V>>(
    s: S,
    inb: Map<int, Map<Seq<Seq<char>>, Seq<u8>>>,
    p: Seq<Seq<char>>,
    dflt: V,
    fld: Field<Id, V>,
) -> bool {
    &&& fld.local_spec() == dflt
    &&& fld.overrides_map().dom() == devices_holding(inb, p)
    &&& forall|k: int|
        #![trigger fld.overrides_map()[k]]
        fld.overrides_map().contains_key(k) ==> Some(fld.overrides_map()[k]) == <S as Serializer<
            V,
        >>::dec(&s, inb[k][p])
}

/// An identifier absent from the inbound view is absent from every field a
/// round builds: in particular, as long as the host keeps the local
/// device's own messages out of the inbound view, the local identifier is
/// never a key of a field's overrides — the local value lives in the
/// default.
pub proof fn lemma_field_excludes_missing_device<Id: OrdKey, V, S: Serializer<V>>(
    s: S,
    inb: Map<int, Map<Seq<Seq<char>>, Seq<u8>>>,
    p: Seq<Seq<char>>,
    dflt: V,
    fld: Field<Id, V>,
    k: int,
)
    requires
        decoded_field(s, inb, p, dflt, fld),
        !inb.contains_key(k),
    ensures
        !fld.overrides_map().contains_key(k),
{
    assert(!devices_holding(inb, p).contains(k));
}

/// The virtual machine of one device.
pub struct VM<Id: OrdKey, S> {
    pub local_id: Id,
    state: State,
    inbound: InboundMessage<Id>,
    outbound: OutboundMessage<Id>,
    alignment_stack: AlignmentStack,
    serializer: S,
}

impl<Id: OrdKey, S> VM<Id, S> {
    /// The identifier of the device this machine runs on.
    pub closed spec fn id(&self) -> Id {
        self.local_id
    }

    /// The serializer the machine was built with.
    pub closed spec fn codec(&self) -> S {
        self.serializer
    }

    /// The persistent per-path store.
    pub closed spec fn store(&self) -> Map<Seq<Seq<char>>, StateValue> {
        self.state@
    }

    /// The round's inbound snapshot: each neighbour's path-to-bytes tree.
    pub closed spec fn inbound_view(&self) -> Map<int, Map<Seq<Seq<char>>, Seq<u8>>> {
        self.inbound@
    }

    /// The bytes emitted so far this round, keyed by textual path.
    pub closed spec fn outbound_view(&self) -> Map<Seq<char>, Seq<u8>> {
        self.outbound@
    }

    /// The sender the outbound message names.
    pub closed spec fn outbound_sender(&self) -> Id {
        self.outbound.sender_spec()
    }

    /// The alignment stack's state.
    pub closed spec fn alignment(&self) -> StackModel {
        self.alignment_stack.model()
    }

    /// What every primitive leaves untouched: the device, the serializer,
    /// the inbound snapshot, and the outbound sender.
    pub open spec fn same_env(self, pre: Self) -> bool {
        &&& self.id() == pre.id()
        &&& self.codec() == pre.codec()
        &&& self.inbound_view() == pre.inbound_view()
        &&& self.outbound_sender() == pre.outbound_sender()
    }

    /// A machine with an empty store, no inbound snapshot, an empty
    /// outbound message, and a reset alignment stack.
    pub fn new(local_id: Id, serializer: S) -> (r: Self)
        ensures
            r.id() == local_id,
            r.codec() == serializer,
            r.store() == Map::<Seq<Seq<char>>, StateValue>::empty(),
            r.inbound_view() == Map::<int, Map<Seq<Seq<char>>, Seq<u8>>>::empty(),
            r.outbound_view() == Map::<Seq<char>, Seq<u8>>::empty(),
            r.outbound_sender() == local_id,
            r.alignment() == StackModel::reset(),
    {
        VM {
            local_id,
            state: State::new(),
            inbound: InboundMessage::default(),
            outbound: OutboundMessage::empty(local_id),
            alignment_stack: AlignmentStack::new(),
            serializer,
        }
    }

    /// A machine starting from a provided store.
    pub fn new_with_state(local_id: Id, serializer: S, state: State) -> (r: Self)
        ensures
            r.id() == local_id,
            r.codec() == serializer,
            r.store() == state@,
            r.inbound_view() == Map::<int, Map<Seq<Seq<char>>, Seq<u8>>>::empty(),
            r.outbound_view() == Map::<Seq<char>, Seq<u8>>::empty(),
            r.outbound_sender() == local_id,
            r.alignment() == StackModel::reset(),
    {
        VM {
            local_id,
            state,
            inbound: InboundMessage::default(),
            outbound: OutboundMessage::empty(local_id),
            alignment_stack: AlignmentStack::new(),
            serializer,
        }
    }

    /// Starts a round: installs the new inbound snapshot, empties the
    /// outbound message and resets the alignment stack.  The store is kept.
    pub fn prepare_new_round(&mut self, inbound: InboundMessage<Id>)
        ensures
            final(self).id() == old(self).id(),
            final(self).codec() == old(self).codec(),
            final(self).store() == old(self).store(),
            final(self).inbound_view() == inbound@,
            final(self).outbound_view() == Map::<Seq<char>, Seq<u8>>::empty(),
            final(self).outbound_sender() == old(self).id(),
            final(self).alignment() == StackModel::reset(),
    {
        self.outbound = OutboundMessage::empty(self.local_id);
        self.alignment_stack = AlignmentStack::new();
        self.inbound = inbound;
    }

    /// The message built up so far this round.
    pub fn get_outbound(&self) -> (r: &OutboundMessage<Id>)
        ensures
            r@ == self.outbound_view(),
            r.sender_spec() == self.outbound_sender(),
    {
        &self.outbound
    }

    /// Enters the branch taken by the condition.  The token encodes the
    /// condition, so a neighbour that took the other branch aligns on a
    /// different path and is excluded from every field built inside.
    pub fn branch_enter(&mut self, condition: bool)
        ensures
            final(self).same_env(*old(self)),
            final(self).store() == old(self).store(),
            final(self).outbound_view() == old(self).outbound_view(),
            final(self).alignment() == old(self).alignment().after_align(branch_token(condition)),
    {
        if condition {
            self.alignment_stack.align("branch[true]");
        } else {
            self.alignment_stack.align("branch[false]");
        }
    }

    /// Leaves the innermost branch.
    pub fn branch_exit(&mut self)
        ensures
            final(self).same_env(*old(self)),
            final(self).store() == old(self).store(),
            final(self).outbound_view() == old(self).outbound_view(),
            final(self).alignment() == old(self).alignment().after_unalign(),
    {
        self.alignment_stack.unalign();
    }

    /// Enters a `repeat` invocation and reads its previous state: the value
    /// the path held after the last round, or the initial value on the
    /// first visit.  On success the frame stays open for the evolution; a
    /// typed read at the wrong type closes the frame and reports the
    /// mismatch.
    pub fn repeat_enter<V: Storable>(&mut self, initial: V) -> (r: Result<V, StateError>)
        ensures
            final(self).same_env(*old(self)),
            final(self).store() == old(self).store(),
            final(self).outbound_view() == old(self).outbound_view(),
            ({
                let p = entered_path(old(self).alignment(), "repeat"@);
                match prev_value::<V>(old(self).store(), p, initial) {
                    Some(prev) => r == Ok::<V, StateError>(prev) && final(self).alignment()
                        == old(self).alignment().after_align("repeat"@),
                    None => (r matches Err(e) && e.path@ == p && e.expected == V::tag_spec())
                        && final(self).alignment() == old(self).alignment().after_visit(
                        "repeat"@,
                    ),
                }
            }),
    {
        self.alignment_stack.align("repeat");
        let path = self.alignment_stack.current();
        match self.state.get::<V>(&path) {
            Ok(Some(v)) => Ok(v),
            Ok(None) => Ok(initial),
            Err(e) => {
                self.alignment_stack.unalign();
                Err(e)
            },
        }
    }

    /// Leaves the innermost persistent invocation, storing the evolved
    /// value at its path; the value is returned.
    pub fn repeat_exit<V: Storable>(&mut self, next: V) -> (r: V)
        ensures
            final(self).same_env(*old(self)),
            final(self).outbound_view() == old(self).outbound_view(),
            final(self).store() == old(self).store().insert(
                path_of(old(self).alignment().stack),
                next.wrap_spec(),
            ),
            final(self).alignment() == old(self).alignment().after_unalign(),
            r == next,
    {
        let path = self.alignment_stack.current();
        let stored = next.wrap();
        self.state.insert_value(path, stored);
        self.alignment_stack.unalign();
        next
    }

    /// `repeat`: evolves the state stored at this invocation's path.  The
    /// previous value (or the initial one, on the first visit) is handed to
    /// the evolution, and what the evolution returns is stored at the path
    /// and returned.  Nothing is emitted.  A typed read at the wrong type
    /// reports the mismatch, naming the path and the expected type.
    pub fn repeat<V: Storable, F: FnOnce(V) -> V>(&mut self, initial: V, evolution: F) -> (r:
        Result<V, StateError>)
        requires
            prev_value::<V>(
                old(self).store(),
                entered_path(old(self).alignment(), "repeat"@),
                initial,
            ) matches Some(prev) ==> call_requires(evolution, (prev,)),
        ensures
            final(self).same_env(*old(self)),
            final(self).outbound_view() == old(self).outbound_view(),
            final(self).alignment() == old(self).alignment().after_visit("repeat"@),
            ({
                let p = entered_path(old(self).alignment(), "repeat"@);
                match prev_value::<V>(old(self).store(), p, initial) {
                    Some(prev) => r matches Ok(w) && call_ensures(evolution, (prev,), w)
                        && final(self).store() == old(self).store().insert(p, w.wrap_spec()),
                    None => (r matches Err(e) && e.path@ == p && e.expected == V::tag_spec())
                        && final(self).store() == old(self).store(),
                }
            }),
    {
        match self.repeat_enter(initial) {
            Err(e) => Err(e),
            Ok(prev) => {
                let next = evolution(prev);
                let returned = self.repeat_exit(next);
                Ok(returned)
            },
        }
    }

    /// Decodes, for every neighbour that emitted bytes at the path, those
    /// bytes; fails if any neighbour's bytes do not decode.
    fn decode_at<V>(&self, path: &Path) -> (r: Result<Vec<(Id, V)>, String>) where
        S: Serializer<V>,

        ensures
            ({
                let inb = self.inbound_view();
                let p = path@;
                match r {
                    Ok(vs) => {
                        &&& kv_sorted(vs@)
                        &&& forall|j: int|
                            #![trigger vs@[j]]
                            0 <= j < vs@.len() ==> inb.contains_key(vs@[j].0.abs())
                                && inb[vs@[j].0.abs()].contains_key(p) && Some(vs@[j].1) == <S as Serializer<V>>::dec(&self.codec(), inb[vs@[j].0.abs()][p])
                        &&& forall|k: int|
                            #![trigger inb[k]]
                            inb.contains_key(k) && inb[k].contains_key(p) ==> kv_map(
                                vs@,
                            ).contains_key(k)
                        &&& all_decode::<V, S>(self.codec(), inb, p)
                    },
                    Err(_) => !all_decode::<V, S>(self.codec(), inb, p),
                }
            }),
    {
        let found = self.inbound.get_at_path(path);
        let ghost inb = self.inbound@;
        let ghost p = path@;
        let mut out: Vec<(Id, V)> = Vec::new();
        let mut i: usize = 0;
        while i < found.len()
            invariant
                i <= found@.len(),
                out@.len() == i,
                inb == self.inbound@,
                p == path@,
                kv_sorted(found@),
                forall|j: int|
                    #![trigger found@[j]]
                    0 <= j < found@.len() ==> inb.contains_key(found@[j].0.abs())
                        && inb[found@[j].0.abs()].contains_key(p) && found@[j].1@
                        == inb[found@[j].0.abs()][p],
                forall|k: int|
                    #![trigger inb[k]]
                    inb.contains_key(k) && inb[k].contains_key(p) ==> kv_map(
                        found@,
                    ).contains_key(k),
                forall|j: int|
                    #![trigger out@[j]]
                    0 <= j < i ==> out@[j].0 == found@[j].0 && Some(out@[j].1) == <S as Serializer<
                        V,
                    >>::dec(&self.serializer, found@[j].1@),
            decreases found@.len() - i,
        {
            match self.serializer.deserialize(found[i].1.as_slice()) {
                Ok(v) => {
                    out.push((found[i].0, v));
                },
                Err(e) => {
                    proof {
                        let bad = found@[i as int].0.abs();
                        assert(<S as Serializer<V>>::dec(&self.codec(), inb[bad][p]) is None);
                        assert(inb.contains_key(bad) && inb[bad].contains_key(p));
                        assert(!all_decode::<V, S>(self.codec(), inb, p));
                    }
                    return Err(e);
                },
            }
            i = i + 1;
        }
        proof {
            assert forall|i1: int, j1: int| 0 <= i1 < j1 < out@.len() implies out@[i1].0.abs()
                < out@[j1].0.abs() by {
                assert(out@[i1].0 == found@[i1].0);
                assert(out@[j1].0 == found@[j1].0);
            }
            assert forall|j: int| #![trigger out@[j]] 0 <= j < out@.len() implies inb.contains_key(
                out@[j].0.abs(),
            ) && inb[out@[j].0.abs()].contains_key(p) && Some(out@[j].1) == <S as Serializer<
                V,
            >>::dec(&self.codec(), inb[out@[j].0.abs()][p]) by {
                assert(out@[j].0 == found@[j].0);
            }
            assert forall|k: int|
                #![trigger inb[k]]
                inb.contains_key(k) && inb[k].contains_key(p) implies kv_map(out@).contains_key(
                k,
            ) && <S as Serializer<V>>::dec(&self.codec(), inb[k][p]) is Some by {
                crate::kv::lemma_kv_some_match(found@, k);
                let j = choose|j: int| 0 <= j < found@.len() && found@[j].0.abs() == k;
                assert(out@[j].0 == found@[j].0);
                crate::kv::lemma_kv_last_match(out@, j);
                assert(Some(out@[j].1) == <S as Serializer<V>>::dec(&self.codec(), inb[k][p]));
            }
        }
        Ok(out)
    }

    /// `neighboring`: shares a value with the aligned neighbours and
    /// collects theirs.  The value's bytes are emitted at this invocation's
    /// path, and the returned field holds the value as default and, as
    /// overrides, exactly the decoded value of every neighbour that emitted
    /// bytes at the same path last round.
    pub fn neighboring<V>(&mut self, value: V) -> (r: Result<Field<Id, V>, AggregateError>) where
        S: Serializer<V>,

        ensures
            final(self).same_env(*old(self)),
            final(self).store() == old(self).store(),
            final(self).alignment() == old(self).alignment().after_visit("neighboring"@),
            ({
                let p = entered_path(old(self).alignment(), "neighboring"@);
                let inb = old(self).inbound_view();
                let cod = old(self).codec();
                match r {
                    Ok(fld) => {
                        &&& all_decode::<V, S>(cod, inb, p)
                        &&& <S as Serializer<V>>::enc_ok(&cod, value)
                        &&& decoded_field(cod, inb, p, value, fld)
                        &&& final(self).outbound_view() == old(self).outbound_view().insert(
                            path_text(p),
                            <S as Serializer<V>>::enc(&cod, value),
                        )
                    },
                    Err(AggregateError::DeserializationError(_)) => {
                        &&& !all_decode::<V, S>(cod, inb, p)
                        &&& final(self).outbound_view() == old(self).outbound_view()
                    },
                    Err(AggregateError::SerializationError(_)) => {
                        &&& all_decode::<V, S>(cod, inb, p)
                        &&& !<S as Serializer<V>>::enc_ok(&cod, value)
                        &&& final(self).outbound_view() == old(self).outbound_view()
                    },
                    Err(AggregateError::StateTypeMismatch(_)) => false,
                }
            }),
    {
        self.alignment_stack.align("neighboring");
        let path = self.alignment_stack.current();
        match self.decode_at::<V>(&path) {
            Err(e) => {
                self.alignment_stack.unalign();
                Err(AggregateError::DeserializationError(e))
            },
            Ok(decoded) => {
                match self.serializer.serialize(&value) {
                    Err(e) => {
                        self.alignment_stack.unalign();
                        Err(AggregateError::SerializationError(e))
                    },
                    Ok(bytes) => {
                        self.outbound.append(&path, bytes);
                        self.alignment_stack.unalign();
                        let ghost vs = decoded@;
                        let fld = Field::from_sorted(value, decoded);
                        proof {
                            lemma_decoded_pairs(
                                old(self).codec(),
                                old(self).inbound_view(),
                                path@,
                                vs,
                                fld,
                            );
                        }
                        Ok(fld)
                    },
                }
            },
        }
    }

    /// Enters a `share` invocation: reads the previous state (or the
    /// initial value) and builds the field of the aligned neighbours'
    /// decoded values around it.  On success the frame stays open for the
    /// evolution; a type mismatch or an undecodable neighbour closes the
    /// frame and fails.
    pub fn share_enter<V: Storable>(&mut self, initial: V) -> (r: Result<
        Field<Id, V>,
        AggregateError,
    >) where S: Serializer<V>,

        ensures
            final(self).same_env(*old(self)),
            final(self).store() == old(self).store(),
            final(self).outbound_view() == old(self).outbound_view(),
            ({
                let p = entered_path(old(self).alignment(), "share"@);
                let inb = old(self).inbound_view();
                let cod = old(self).codec();
                match r {
                    Ok(fld) => {
                        &&& prev_value::<V>(old(self).store(), p, initial) matches Some(prev)
                            && decoded_field(cod, inb, p, prev, fld)
                        &&& all_decode::<V, S>(cod, inb, p)
                        &&& final(self).alignment() == old(self).alignment().after_align("share"@)
                    },
                    Err(AggregateError::StateTypeMismatch(e)) => {
                        &&& prev_value::<V>(old(self).store(), p, initial) is None
                        &&& e.path@ == p && e.expected == V::tag_spec()
                        &&& final(self).alignment() == old(self).alignment().after_visit("share"@)
                    },
                    Err(AggregateError::DeserializationError(_)) => {
                        &&& prev_value::<V>(old(self).store(), p, initial) is Some
                        &&& !all_decode::<V, S>(cod, inb, p)
                        &&& final(self).alignment() == old(self).alignment().after_visit("share"@)
                    },
                    Err(AggregateError::SerializationError(_)) => false,
                }
            }),
    {
        self.alignment_stack.align("share");
        let path = self.alignment_stack.current();
        let previous = match self.state.get::<V>(&path) {
            Err(e) => {
                self.alignment_stack.unalign();
                return Err(AggregateError::StateTypeMismatch(e));
            },
            Ok(Some(v)) => v,
            Ok(None) => initial,
        };
        match self.decode_at::<V>(&path) {
            Err(e) => {
                self.alignment_stack.unalign();
                Err(AggregateError::DeserializationError(e))
            },
            Ok(decoded) => {
                let ghost vs = decoded@;
                let fld = Field::from_sorted(previous, decoded);
                proof {
                    lemma_decoded_pairs(
                        old(self).codec(),
                        old(self).inbound_view(),
                        path@,
                        vs,
                        fld,
                    );
                }
                Ok(fld)
            },
        }
    }

    /// Leaves the innermost `share` invocation: stores the evolved value at
    /// its path, then emits its bytes there.  The value is stored even when
    /// its serialization fails; bytes are emitted only on success.
    pub fn share_exit<V: Storable>(&mut self, next: V) -> (r: Result<V, AggregateError>) where
        S: Serializer<V>,

        ensures
            final(self).same_env(*old(self)),
            final(self).store() == old(self).store().insert(
                path_of(old(self).alignment().stack),
                next.wrap_spec(),
            ),
            final(self).alignment() == old(self).alignment().after_unalign(),
            ({
                let p = path_of(old(self).alignment().stack);
                let cod = old(self).codec();
                match r {
                    Ok(w) => {
                        &&& w == next
                        &&& <S as Serializer<V>>::enc_ok(&cod, next)
                        &&& final(self).outbound_view() == old(self).outbound_view().insert(
                            path_text(p),
                            <S as Serializer<V>>::enc(&cod, next),
                        )
                    },
                    Err(AggregateError::SerializationError(_)) => {
                        &&& !<S as Serializer<V>>::enc_ok(&cod, next)
                        &&& final(self).outbound_view() == old(self).outbound_view()
                    },
                    Err(_) => false,
                }
            }),
    {
        let path = self.alignment_stack.current();
        let stored = next.wrap();
        let path_copy = path.clone();
        self.state.insert_value(path_copy, stored);
        match self.serializer.serialize(&next) {
            Err(e) => {
                self.alignment_stack.unalign();
                Err(AggregateError::SerializationError(e))
            },
            Ok(bytes) => {
                self.outbound.append(&path, bytes);
                self.alignment_stack.unalign();
                Ok(next)
            },
        }
    }

    /// `share`: like `repeat`, but the evolution sees the neighbours too.
    /// The field handed to the evolution holds the previous state (or the
    /// initial value) as default and the aligned neighbours' decoded values
    /// as overrides; what the evolution returns is stored at the path,
    /// emitted there, and returned.
    pub fn share<V: Storable, F: FnOnce(Field<Id, V>) -> V>(
        &mut self,
        initial: V,
        evolution: F,
    ) -> (r: Result<V, AggregateError>) where S: Serializer<V>,

        requires
            forall|fld: Field<Id, V>|
                (prev_value::<V>(
                    old(self).store(),
                    entered_path(old(self).alignment(), "share"@),
                    initial,
                ) matches Some(prev) && decoded_field(
                    old(self).codec(),
                    old(self).inbound_view(),
                    entered_path(old(self).alignment(), "share"@),
                    prev,
                    fld,
                )) ==> call_requires(evolution, (fld,)),
        ensures
            final(self).same_env(*old(self)),
            final(self).alignment() == old(self).alignment().after_visit("share"@),
            ({
                let p = entered_path(old(self).alignment(), "share"@);
                let inb = old(self).inbound_view();
                let cod = old(self).codec();
                match r {
                    Ok(w) => {
                        &&& all_decode::<V, S>(cod, inb, p)
                        &&& prev_value::<V>(old(self).store(), p, initial) matches Some(prev)
                            && exists|fld: Field<Id, V>|
                            decoded_field(cod, inb, p, prev, fld) && #[trigger] call_ensures(
                                evolution,
                                (fld,),
                                w,
                            )
                        &&& <S as Serializer<V>>::enc_ok(&cod, w)
                        &&& final(self).store() == old(self).store().insert(p, w.wrap_spec())
                        &&& final(self).outbound_view() == old(self).outbound_view().insert(
                            path_text(p),
                            <S as Serializer<V>>::enc(&cod, w),
                        )
                    },
                    Err(AggregateError::StateTypeMismatch(e)) => {
                        &&& prev_value::<V>(old(self).store(), p, initial) is None
                        &&& e.path@ == p && e.expected == V::tag_spec()
                        &&& final(self).store() == old(self).store()
                        &&& final(self).outbound_view() == old(self).outbound_view()
                    },
                    Err(AggregateError::DeserializationError(_)) => {
                        &&& prev_value::<V>(old(self).store(), p, initial) is Some
                        &&& !all_decode::<V, S>(cod, inb, p)
                        &&& final(self).store() == old(self).store()
                        &&& final(self).outbound_view() == old(self).outbound_view()
                    },
                    Err(AggregateError::SerializationError(_)) => {
                        &&& all_decode::<V, S>(cod, inb, p)
                        &&& prev_value::<V>(old(self).store(), p, initial) matches Some(prev)
                            && exists|fld: Field<Id, V>, w2: V|
                            decoded_field(cod, inb, p, prev, fld) && #[trigger] call_ensures(
                                evolution,
                                (fld,),
                                w2,
                            ) && !<S as Serializer<V>>::enc_ok(&cod, w2) && final(self).store()
                                == old(self).store().insert(p, w2.wrap_spec())
                        &&& final(self).outbound_view() == old(self).outbound_view()
                    },
                }
            }),
    {
        match self.share_enter(initial) {
            Err(e) => Err(e),
            Ok(fld) => {
                let next = evolution(fld);
                self.share_exit(next)
            },
        }
    }
}

/// Entries whose values are the decoded bytes of exactly the neighbours
/// holding the path give a field built around them the decoded-field shape.
proof fn lemma_decoded_pairs<Id: OrdKey, V, S: Serializer<V>>(
    cod: S,
    inb: Map<int, Map<Seq<Seq<char>>, Seq<u8>>>,
    p: Seq<Seq<char>>,
    vs: Seq<(Id, V)>,
    fld: Field<Id, V>,
)
    requires
        kv_sorted(vs),
        fld.overrides_map() == kv_map(vs),
        forall|j: int|
            #![trigger vs[j]]
            0 <= j < vs.len() ==> inb.contains_key(vs[j].0.abs()) && inb[vs[j].0.abs()].contains_key(
                p,
            ) && Some(vs[j].1) == <S as Serializer<V>>::dec(&cod, inb[vs[j].0.abs()][p]),
        forall|k: int|
            #![trigger inb[k]]
            inb.contains_key(k) && inb[k].contains_key(p) ==> kv_map(vs).contains_key(k),
    ensures
        fld.overrides_map().dom() == devices_holding(inb, p),
        forall|k: int|
            #![trigger fld.overrides_map()[k]]
            fld.overrides_map().contains_key(k) ==> Some(fld.overrides_map()[k]) == <S as Serializer<
                V,
            >>::dec(&cod, inb[k][p]),
{
    assert forall|k: int| #[trigger]
        fld.overrides_map().dom().contains(k) implies devices_holding(inb, p).contains(k) by {
        crate::kv::lemma_kv_some_match(vs, k);
        let j = choose|j: int| 0 <= j < vs.len() && vs[j].0.abs() == k;
        assert(inb.contains_key(k) && inb[k].contains_key(p));
    }
    assert forall|k: int|
        devices_holding(inb, p).contains(k) implies #[trigger] fld.overrides_map().dom().contains(
        k,
    ) by {
        assert(inb.contains_key(k) && inb[k].contains_key(p));
        assert(kv_map(vs).contains_key(k));
    }
    assert(fld.overrides_map().dom() =~= devices_holding(inb, p));
    assert forall|k: int| #[trigger]
        fld.overrides_map().contains_key(k) implies Some(fld.overrides_map()[k]) == <S as Serializer<
        V,
    >>::dec(&cod, inb[k][p]) by {
        crate::kv::lemma_kv_some_match(vs, k);
        let j = choose|j: int| 0 <= j < vs.len() && vs[j].0.abs() == k;
        crate::kv::lemma_kv_sorted_index(vs, j);
    }
}

} // verus!
