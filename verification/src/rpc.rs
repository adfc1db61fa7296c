//! RPC engine: sequence-numbered call correlation over a packet channel.
//!
//! Every call is assigned a fresh sequence number and a completion slot;
//! the dispatch loop decodes each inbound packet as a response envelope
//! and routes the outcome to the slot registered under the envelope's
//! sequence number.  A method-name-to-id table, fetched once at startup,
//! shrinks request envelopes; when it is absent the engine falls back to
//! sending the method name as text.

use vstd::prelude::*;

use std::collections::HashMap;

use crate::cbor::{cbor_decode, cbor_encode, cbor_of, cbor_parse};
use crate::error::RpcError;
use crate::value::{lemma_model_variants, value_model, RpcValue, ValueModel};

verus! {

broadcast use {vstd::std_specs::hash::group_hash_axioms, vstd::seq::group_seq_axioms};

/// The message-kind tag that identifies a call envelope.
pub const REQUEST_TAG: u64 = 0;

/// How a request addresses its method: by cached numeric id, or by name.
pub enum MethodRef {
    Id(u32),
    Name(String),
}

/// The structured value a method reference contributes to an envelope.
pub open spec fn method_ref_model(m: MethodRef) -> ValueModel {
    match m {
        MethodRef::Id(id) => ValueModel::Unsigned(id as u64),
        MethodRef::Name(name) => ValueModel::Text(name@),
    }
}

/// The request envelope: `[tag, sequence number, method, params]`.
pub open spec fn request_model(
    sequence: u64,
    method: ValueModel,
    params: ValueModel,
) -> ValueModel {
    ValueModel::Array(
        seq![
            ValueModel::Unsigned(REQUEST_TAG as u64),
            ValueModel::Unsigned(sequence),
            method,
            params,
        ],
    )
}

/// Builds the request envelope for one call.
pub fn build_request(sequence: u64, method: MethodRef, params: RpcValue) -> (r: RpcValue)
    ensures
        r@ == request_model(sequence, method_ref_model(method), params@),
{
    let ghost method_m = method_ref_model(method);
    let tag = RpcValue::Unsigned(REQUEST_TAG);
    let seq_value = RpcValue::Unsigned(sequence);
    let method_value = match method {
        MethodRef::Id(id) => RpcValue::Unsigned(id as u64),
        MethodRef::Name(name) => RpcValue::Text(name),
    };
    let ghost params_m = params@;
    assert(method_value@ == method_m);
    let mut items: Vec<RpcValue> = Vec::new();
    items.push(tag);
    items.push(seq_value);
    items.push(method_value);
    items.push(params);
    let r = RpcValue::Array(items);
    proof {
        assert(items@.len() == 4);
        assert(items@[0] == tag);
        assert(items@[1] == seq_value);
        assert(items@[2] == method_value);
        assert(items@[3] == params);
        assert(value_model(tag) == ValueModel::Unsigned(REQUEST_TAG));
        assert(value_model(seq_value) == ValueModel::Unsigned(sequence));
        let m = r@->Array_0;
        assert(m =~= seq![
            ValueModel::Unsigned(REQUEST_TAG as u64),
            ValueModel::Unsigned(sequence),
            method_m,
            params_m,
        ]);
    }
    r
}

/// One decoded response envelope: `[tag, sequence number, error, result]`.
pub struct ResponseEnvelope {
    pub tag: u32,
    pub sequence: u64,
    pub error: RpcValue,
    pub result: RpcValue,
}

/// Whether a structured value has the shape of a response envelope.
pub open spec fn is_response_model(m: ValueModel) -> bool {
    &&& m matches ValueModel::Array(elems)
    &&& elems.len() == 4
    &&& elems[0] matches ValueModel::Unsigned(t) && t <= u32::MAX
    &&& elems[1] matches ValueModel::Unsigned(_)
}

/// Reads a structured value as a response envelope, rejecting any value
/// of another shape.
pub fn parse_response(v: RpcValue) -> (r: Option<ResponseEnvelope>)
    ensures
        r is Some <==> is_response_model(v@),
        r matches Some(env) ==> {
            let elems = v@->Array_0;
            &&& env.tag as u64 == elems[0]->Unsigned_0
            &&& env.sequence == elems[1]->Unsigned_0
            &&& env.error@ == elems[2]
            &&& env.result@ == elems[3]
        },
{
    let mut items: Vec<RpcValue> = match v {
        RpcValue::Array(items) => items,
        _ => {
            return None;
        },
    };
    let ghost elems = v@->Array_0;
    proof {
        assert(elems.len() == items@.len());
        assert(forall|i: int|
            0 <= i < items@.len() ==> elems[i] == value_model(#[trigger] items@[i]));
    }
    if items.len() != 4 {
        return None;
    }
    let ghost items0 = items@;
    let result = items.pop().unwrap();
    let error = items.pop().unwrap();
    let seq_value = items.pop().unwrap();
    let tag_value = items.pop().unwrap();
    let tag64: u64 = match tag_value {
        RpcValue::Unsigned(t) => t,
        _ => {
            return None;
        },
    };
    if tag64 > 0xFFFF_FFFF {
        return None;
    }
    let sequence: u64 = match seq_value {
        RpcValue::Unsigned(s) => s,
        _ => {
            return None;
        },
    };
    Some(ResponseEnvelope { tag: tag64 as u32, sequence, error, result })
}

/// What the dispatch loop delivers to a completion slot: the response's
/// result on success, its error value on failure.
pub enum CallOutcome {
    Success(RpcValue),
    Failure(RpcValue),
}

/// Model of a `CallOutcome`: a success flag and the delivered value.
pub open spec fn outcome_model(o: CallOutcome) -> (bool, ValueModel) {
    match o {
        CallOutcome::Success(v) => (true, v@),
        CallOutcome::Failure(v) => (false, v@),
    }
}

/// The outcome a response envelope carries: success exactly when its
/// error slot holds the canonical "no error" value.
pub open spec fn envelope_outcome_model(env: ResponseEnvelope) -> (bool, ValueModel) {
    if (env.error@ matches ValueModel::Null) {
        (true, env.result@)
    } else {
        (false, env.error@)
    }
}

/// What the dispatch loop does with one response envelope.
pub enum DispatchAction<S> {
    /// Wake the registered slot with the outcome.
    Deliver(S, CallOutcome),
    /// No entry is pending under this sequence number: discard.
    Ignore(u64),
}

/// The pending call table: one single-use completion slot per in-flight
/// sequence number.
pub struct PendingCalls<S> {
    slots: HashMap<u64, S>,
}

impl<S> PendingCalls<S> {
    pub closed spec fn view(&self) -> Map<u64, S> {
        self.slots@
    }

    pub fn new() -> (r: Self)
        ensures
            r@ == Map::<u64, S>::empty(),
    {
        PendingCalls { slots: HashMap::new() }
    }

    /// Registers a fresh completion slot under a sequence number,
    /// immediately before the request is sent.
    pub fn register(&mut self, sequence: u64, slot: S)
        ensures
            final(self)@ == old(self)@.insert(sequence, slot),
    {
        self.slots.insert(sequence, slot);
    }

    /// Removes and returns the slot registered under a sequence number,
    /// if any; every other entry is untouched.
    pub fn take(&mut self, sequence: u64) -> (r: Option<S>)
        ensures
            old(self)@.contains_key(sequence) ==> r == Some(old(self)@[sequence])
                && final(self)@ == old(self)@.remove(sequence),
            !old(self)@.contains_key(sequence) ==> r is None && final(self)@ == old(self)@,
    {
        self.slots.remove(&sequence)
    }
}

/// Routes one response envelope: removes the matching entry and delivers
/// the envelope's outcome to it, or discards a response whose sequence
/// number has no pending entry — leaving every pending call intact, so
/// subsequent legitimate responses are still delivered.
pub fn route_response<S>(pending: &mut PendingCalls<S>, env: ResponseEnvelope) -> (r:
    DispatchAction<S>)
    ensures
        old(pending)@.contains_key(env.sequence) ==> {
            &&& final(pending)@ == old(pending)@.remove(env.sequence)
            &&& r matches DispatchAction::Deliver(slot, outcome) && slot == old(
                pending,
            )@[env.sequence] && outcome_model(outcome) == envelope_outcome_model(env)
        },
        !old(pending)@.contains_key(env.sequence) ==> {
            &&& final(pending)@ == old(pending)@
            &&& r matches DispatchAction::Ignore(s) && s == env.sequence
        },
{
    match pending.take(env.sequence) {
        Some(slot) => {
            if env.error.is_null() {
                DispatchAction::Deliver(slot, CallOutcome::Success(env.result))
            } else {
                DispatchAction::Deliver(slot, CallOutcome::Failure(env.error))
            }
        },
        None => DispatchAction::Ignore(env.sequence),
    }
}

/// The per-call error a failure outcome surfaces to its caller: the
/// embedded text if the error value is textual, the raw value otherwise.
pub fn error_from_value(v: RpcValue) -> (r: RpcError)
    ensures
        v@ matches ValueModel::Text(t) ==> r matches RpcError::RpcError(msg) && msg@ == t,
        !(v@ matches ValueModel::Text(_)) ==> (r matches RpcError::RpcErrorValue(w) && w@
            == v@),
{
    match v {
        RpcValue::Text(msg) => RpcError::RpcError(msg),
        other => RpcError::RpcErrorValue(other),
    }
}

/// The process-wide monotonically increasing sequence counter.
pub struct SequenceCounter {
    next_value: u64,
}

impl SequenceCounter {
    /// The number the next call will be assigned.
    pub closed spec fn current(&self) -> u64 {
        self.next_value
    }

    pub fn new() -> (r: Self)
        ensures
            r.current() == 0,
    {
        SequenceCounter { next_value: 0 }
    }

    /// Allocates the next sequence number.  Strictly increasing, so a
    /// number is never reused within the counter's lifetime.
    pub fn next(&mut self) -> (r: u64)
        requires
            old(self).current() < u64::MAX,
        ensures
            r == old(self).current(),
            final(self).current() == old(self).current() + 1,
    {
        let r = self.next_value;
        self.next_value = self.next_value + 1;
        r
    }
}

/// Sequence uniqueness: the numbers successive calls observe are the
/// values of a strictly increasing chain, so no two calls ever observe
/// the same number.  `issued[k]` is the number the `k`-th call received;
/// each call leaves the counter one above the number it took.
pub proof fn lemma_sequence_numbers_distinct(issued: Seq<u64>, i: int, j: int)
    requires
        forall|k: int| #![trigger issued[k]] 0 <= k < issued.len() - 1 ==> issued[k + 1]
            == issued[k] + 1,
        0 <= i < j < issued.len(),
    ensures
        issued[i] != issued[j],
{
    lemma_sequence_numbers_monotonic(issued, i + 1, j);
    assert(issued[i + 1] == issued[i] + 1);
}

/// The issued chain is strictly monotonic between any two positions.
pub proof fn lemma_sequence_numbers_monotonic(issued: Seq<u64>, i: int, j: int)
    requires
        forall|k: int| #![trigger issued[k]] 0 <= k < issued.len() - 1 ==> issued[k + 1]
            == issued[k] + 1,
        0 <= i <= j < issued.len(),
    ensures
        issued[i] <= issued[j],
    decreases j - i,
{
    if i < j {
        lemma_sequence_numbers_monotonic(issued, i, j - 1);
        assert(issued[j] == issued[j - 1] + 1);
    }
}

/// Correlation correctness: a call's own slot is never disturbed by the
/// registration or completion of any other call.  Whatever another
/// sequence number's entry does — is added or removed — looking up a
/// call's own number still yields exactly the slot registered for it.
pub proof fn lemma_correlation<S>(table: Map<u64, S>, own: u64, slot: S, other: u64, other_slot: S)
    requires
        own != other,
    ensures
        table.insert(own, slot).insert(other, other_slot).contains_key(own),
        table.insert(own, slot).insert(other, other_slot)[own] == slot,
        table.insert(own, slot).remove(other).contains_key(own),
        table.insert(own, slot).remove(other)[own] == slot,
{
}

/// The method-name-to-id table fetched once at startup.  Entries map a
/// method name to the numeric id that shrinks request envelopes.
pub struct MethodTable {
    entries: Vec<(String, u32)>,
}

/// First entry of the table whose name matches, if any.
pub open spec fn lookup_spec(entries: Seq<(Seq<char>, u32)>, name: Seq<char>) -> Option<u32>
    decreases entries.len(),
{
    if entries.len() == 0 {
        None
    } else if entries[0].0 == name {
        Some(entries[0].1)
    } else {
        lookup_spec(entries.drop_first(), name)
    }
}

impl MethodTable {
    pub closed spec fn view(&self) -> Seq<(Seq<char>, u32)> {
        self.entries@.map_values(|e: (String, u32)| (e.0@, e.1))
    }

    /// An empty table: every call falls back to name-based addressing.
    pub fn empty() -> (r: Self)
        ensures
            r@.len() == 0,
    {
        MethodTable { entries: Vec::new() }
    }

    /// Reads a method table out of the bootstrap call's result: a
    /// mapping from method name text to a small numeric id.  Any other
    /// shape is rejected.
    pub fn from_value(v: &RpcValue) -> (r: Option<MethodTable>)
        ensures
            r is Some <==> is_method_table_model(v@),
            r matches Some(t) ==> {
                let pairs = v@->Dict_0;
                &&& t@.len() == pairs.len()
                &&& forall|i: int|
                    0 <= i < pairs.len() ==> ((#[trigger] t@[i]).0, t@[i].1 as u64) == (
                        pairs[i].0->Text_0,
                        pairs[i].1->Unsigned_0,
                    )
            },
    {
        let pairs: &Vec<(RpcValue, RpcValue)> = match v {
            RpcValue::Dict(pairs) => pairs,
            _ => {
                return None;
            },
        };
        proof {
            assert(*v == RpcValue::Dict(*pairs));
            assert(forall|j: int|
                0 <= j < pairs@.len() ==> #[trigger] v@->Dict_0[j] == (
                    pairs@[j].0@,
                    pairs@[j].1@,
                ));
        }
        let mut entries: Vec<(String, u32)> = Vec::new();
        let mut i: usize = 0;
        while i < pairs.len()
            invariant
                i <= pairs@.len(),
                v@ matches ValueModel::Dict(_),
                v@->Dict_0.len() == pairs@.len(),
                forall|j: int|
                    0 <= j < pairs@.len() ==> #[trigger] v@->Dict_0[j] == (
                        pairs@[j].0@,
                        pairs@[j].1@,
                    ),
                forall|j: int|
                    0 <= j < i ==> #[trigger] method_pair_ok(v@->Dict_0[j]),
                entries@.len() == i,
                forall|j: int|
                    0 <= j < i ==> ((#[trigger] entries@[j]).0@, entries@[j].1 as u64) == (
                        v@->Dict_0[j].0->Text_0,
                        v@->Dict_0[j].1->Unsigned_0,
                    ),
            decreases pairs@.len() - i,
        {
            proof {
                assert(v@->Dict_0[i as int] == (pairs@[i as int].0@, pairs@[i as int].1@));
            }
            let name: String = match &pairs[i].0 {
                RpcValue::Text(name) => name.clone(),
                _ => {
                    proof {
                        lemma_model_variants(pairs@[i as int].0);
                        assert(!method_pair_ok(v@->Dict_0[i as int]));
                    }
                    return None;
                },
            };
            let id64: u64 = match &pairs[i].1 {
                RpcValue::Unsigned(id) => *id,
                _ => {
                    proof {
                        lemma_model_variants(pairs@[i as int].1);
                        assert(!method_pair_ok(v@->Dict_0[i as int]));
                    }
                    return None;
                },
            };
            if id64 > 0xFFFF_FFFF {
                proof {
                    assert(pairs@[i as int].1@ == ValueModel::Unsigned(id64));
                    assert(!method_pair_ok(v@->Dict_0[i as int]));
                }
                return None;
            }
            entries.push((name, id64 as u32));
            i = i + 1;
        }
        Some(MethodTable { entries })
    }

    /// Looks a method name up: the id of the first matching entry.
    pub fn lookup(&self, name: &String) -> (r: Option<u32>)
        ensures
            r == lookup_spec(self@, name@),
    {
        let mut i: usize = 0;
        proof {
            assert(self@.skip(0) =~= self@);
        }
        while i < self.entries.len()
            invariant
                i <= self.entries@.len(),
                lookup_spec(self@, name@) == lookup_spec(self@.skip(i as int), name@),
            decreases self.entries@.len() - i,
        {
            proof {
                assert(self@.skip(i as int)[0] == self@[i as int]);
                assert(self@.skip(i as int).drop_first() =~= self@.skip(i + 1 as int));
                assert(self@[i as int] == (self.entries@[i as int].0@, self.entries@[i as int].1));
            }
            let entry = &self.entries[i];
            if entry.0.eq(name) {
                return Some(entry.1);
            }
            i = i + 1;
        }
        proof {
            assert(self@.skip(self.entries@.len() as int).len() == 0);
        }
        None
    }
}

/// Whether a pair of the bootstrap result has the method-entry shape.
pub open spec fn method_pair_ok(pair: (ValueModel, ValueModel)) -> bool {
    &&& pair.0 matches ValueModel::Text(_)
    &&& pair.1 matches ValueModel::Unsigned(id) && id <= u32::MAX
}

/// Whether a structured value has the shape of the bootstrap result.
pub open spec fn is_method_table_model(m: ValueModel) -> bool {
    &&& m matches ValueModel::Dict(pairs)
    &&& forall|i: int| 0 <= i < pairs.len() ==> #[trigger] method_pair_ok(pairs[i])
}

/// Picks how a call addresses its method: the cached numeric id when the
/// table knows the name, the name itself otherwise.
pub fn method_ref(table: &MethodTable, name: &String) -> (r: MethodRef)
    ensures
        lookup_spec(table@, name@) matches Some(id) ==> r == MethodRef::Id(id),
        lookup_spec(table@, name@) is None ==> (r matches MethodRef::Name(n) && n@ == name@),
{
    match table.lookup(name) {
        Some(id) => MethodRef::Id(id),
        None => MethodRef::Name(name.clone()),
    }
}

/// Encodes one call's request envelope into the packet bytes handed to
/// the transport framer.
pub fn encode_request(sequence: u64, method: MethodRef, params: RpcValue) -> (r: Vec<u8>)
    ensures
        r@ == cbor_of(request_model(sequence, method_ref_model(method), params@)),
{
    let ghost method_m = method_ref_model(method);
    let ghost params_m = params@;
    let request = build_request(sequence, method, params);
    cbor_encode(&request)
}

/// Decodes one inbound packet as a response envelope: the bytes must
/// decode to a structured value of the response shape.
pub fn decode_response(packet: &[u8]) -> (r: Option<ResponseEnvelope>)
    ensures
        r is Some <==> (cbor_parse(packet@) matches Some(m) && is_response_model(m)),
        r matches Some(env) ==> (cbor_parse(packet@) matches Some(m) && {
            let elems = m->Array_0;
            &&& env.tag as u64 == elems[0]->Unsigned_0
            &&& env.sequence == elems[1]->Unsigned_0
            &&& env.error@ == elems[2]
            &&& env.result@ == elems[3]
        }),
{
    match cbor_decode(packet) {
        Some(value) => parse_response(value),
        None => None,
    }
}

/// One step of the dispatch loop: decodes an inbound packet and routes
/// it.  A packet that is not a well-formed response envelope is
/// isolated — it is discarded and every pending call is left intact, so
/// subsequent responses are still delivered.
pub fn dispatch_packet<S>(pending: &mut PendingCalls<S>, packet: &[u8]) -> (r: Option<
    DispatchAction<S>,
>)
    ensures
        !(cbor_parse(packet@) matches Some(m) && is_response_model(m)) ==> (r is None
            && final(pending)@ == old(pending)@),
        cbor_parse(packet@) matches Some(m) ==> is_response_model(m) ==> {
            let elems = m->Array_0;
            let seqno = elems[1]->Unsigned_0;
            &&& old(pending)@.contains_key(seqno) ==> {
                &&& final(pending)@ == old(pending)@.remove(seqno)
                &&& r matches Some(DispatchAction::Deliver(slot, outcome)) && slot
                    == old(pending)@[seqno] && outcome_model(outcome) == (
                    if (elems[2] matches ValueModel::Null) {
                        (true, elems[3])
                    } else {
                        (false, elems[2])
                    }
                )
            }
            &&& !old(pending)@.contains_key(seqno) ==> {
                &&& final(pending)@ == old(pending)@
                &&& r matches Some(DispatchAction::Ignore(u)) && u == seqno
            }
        },
{
    match decode_response(packet) {
        Some(env) => Some(route_response(pending, env)),
        None => None,
    }
}

/// What the bootstrap call leaves in the engine: the parsed method
/// table when the bootstrap result has the expected shape, the empty
/// table — name-based addressing from then on — on any failure.
pub fn method_table_from_outcome(outcome: Option<&RpcValue>) -> (r: MethodTable)
    ensures
        outcome matches Some(v) ==> is_method_table_model(v@) ==> {
            let pairs = v@->Dict_0;
            &&& r@.len() == pairs.len()
            &&& forall|i: int|
                0 <= i < pairs.len() ==> ((#[trigger] r@[i]).0, r@[i].1 as u64) == (
                    pairs[i].0->Text_0,
                    pairs[i].1->Unsigned_0,
                )
        },
        (match outcome {
            Option::Some(v) => !is_method_table_model(v@),
            Option::None => true,
        }) ==> r@.len() == 0,
{
    match outcome {
        Some(v) => match MethodTable::from_value(v) {
            Some(t) => t,
            None => MethodTable::empty(),
        },
        None => MethodTable::empty(),
    }
}

/// Bootstrap fallback: when the bootstrap call failed and the table is
/// empty, no lookup succeeds, so every subsequent call addresses its
/// method by name.
pub proof fn lemma_bootstrap_fallback(table: MethodTable, name: Seq<char>)
    requires
        table@.len() == 0,
    ensures
        lookup_spec(table@, name) is None,
{
}

} // verus!
