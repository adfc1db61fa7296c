//! The structured values carried inside RPC envelopes.
//!
//! Requests and responses travel as a compact self-describing binary
//! encoding of these values; `RpcValue` holds exactly the shapes the
//! engine's logic reads and builds, and `ValueModel` is its mathematical
//! model used throughout the contracts.

use vstd::prelude::*;

verus! {

broadcast use {vstd::std_specs::vec::axiom_vec_decreases_to_view, vstd::seq::group_seq_axioms};

/// One structured value carried inside an RPC envelope.
///
/// An integer is kept as its unsigned magnitude: `Unsigned(n)` stands for
/// `n`, and `Negative(n)` stands for `-1 - n`.
pub enum RpcValue {
    Null,
    Bool(bool),
    Unsigned(u64),
    Negative(u64),
    Bytes(Vec<u8>),
    Text(String),
    Array(Vec<RpcValue>),
    Dict(Vec<(RpcValue, RpcValue)>),
}

/// Mathematical model of an `RpcValue`.
pub enum ValueModel {
    Null,
    Bool(bool),
    Unsigned(u64),
    Negative(u64),
    Bytes(Seq<u8>),
    Text(Seq<char>),
    Array(Seq<ValueModel>),
    Dict(Seq<(ValueModel, ValueModel)>),
}

pub open spec fn value_model(v: RpcValue) -> ValueModel
    decreases v,
    via value_model_decreases
{
    match v {
        RpcValue::Null => ValueModel::Null,
        RpcValue::Bool(b) => ValueModel::Bool(b),
        RpcValue::Unsigned(n) => ValueModel::Unsigned(n),
        RpcValue::Negative(n) => ValueModel::Negative(n),
        RpcValue::Bytes(b) => ValueModel::Bytes(b@),
        RpcValue::Text(s) => ValueModel::Text(s@),
        RpcValue::Array(items) => ValueModel::Array(
            Seq::new(
                items@.len(),
                |i: int|
                    if 0 <= i < items@.len() {
                        value_model(items@[i])
                    } else {
                        ValueModel::Null
                    },
            ),
        ),
        RpcValue::Dict(pairs) => ValueModel::Dict(
            Seq::new(
                pairs@.len(),
                |i: int|
                    if 0 <= i < pairs@.len() {
                        (value_model(pairs@[i].0), value_model(pairs@[i].1))
                    } else {
                        (ValueModel::Null, ValueModel::Null)
                    },
            ),
        ),
    }
}

#[via_fn]
proof fn value_model_decreases(v: RpcValue) {
    match v {
        RpcValue::Array(items) => {
            assert forall|i: int| 0 <= i < items@.len() implies (decreases_to!(v
                => items@[i])) by {
                assert(decreases_to!(v => items));
                assert(decreases_to!(items => items@));
                assert(decreases_to!(items@ => items@[i]));
            }
        },
        RpcValue::Dict(pairs) => {
            assert forall|i: int| 0 <= i < pairs@.len() implies (decreases_to!(v
                => pairs@[i].0)) && (decreases_to!(v => pairs@[i].1)) by {
                assert(decreases_to!(v => pairs));
                assert(decreases_to!(pairs => pairs@));
                assert(decreases_to!(pairs@ => pairs@[i]));
                assert(decreases_to!(pairs@[i] => pairs@[i].0));
                assert(decreases_to!(pairs@[i] => pairs@[i].1));
            }
        },
        _ => {},
    }
}

/// A value and its model always agree on the variant.
pub proof fn lemma_model_variants(v: RpcValue)
    ensures
        (value_model(v) matches ValueModel::Text(_)) <==> (v matches RpcValue::Text(_)),
        (value_model(v) matches ValueModel::Unsigned(_)) <==> (v matches RpcValue::Unsigned(_)),
        (value_model(v) matches ValueModel::Null) <==> (v matches RpcValue::Null),
        (value_model(v) matches ValueModel::Dict(_)) <==> (v matches RpcValue::Dict(_)),
        (value_model(v) matches ValueModel::Array(_)) <==> (v matches RpcValue::Array(_)),
        (value_model(v) matches ValueModel::Bool(_)) <==> (v matches RpcValue::Bool(_)),
        (value_model(v) matches ValueModel::Bytes(_)) <==> (v matches RpcValue::Bytes(_)),
        (value_model(v) matches ValueModel::Negative(_)) <==> (v matches RpcValue::Negative(_)),
{
}

impl View for RpcValue {
    type V = ValueModel;

    open spec fn view(&self) -> ValueModel {
        value_model(*self)
    }
}

impl RpcValue {
    /// True when this value is the encoding's canonical "no error" value.
    pub fn is_null(&self) -> (r: bool)
        ensures
            r == (self@ matches ValueModel::Null),
    {
        matches!(self, RpcValue::Null)
    }
}

} // verus!
