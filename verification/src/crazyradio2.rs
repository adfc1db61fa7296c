//! High-level radio API helpers: the structured values its calls send
//! and the shapes its calls expect back.
//!
//! Device enumeration, the link itself and the call plumbing live
//! outside the crate; what each call encodes and how each result is read
//! is decided here.

use vstd::prelude::*;

use crate::value::{lemma_model_variants, value_model, RpcValue, ValueModel};

verus! {

broadcast use vstd::seq::group_seq_axioms;

/// The acknowledgement returned for one sent ESB packet.
pub struct EsbAck {
    pub acked: bool,
    pub data: Option<Vec<u8>>,
    pub rssi: u8,
}

/// The parameter triple an ESB send carries: channel, address, payload.
pub open spec fn esb_params_model(channel: u8, address: Seq<u8>, data: Seq<u8>) -> ValueModel {
    ValueModel::Array(
        seq![
            ValueModel::Unsigned(channel as u64),
            ValueModel::Bytes(address),
            ValueModel::Bytes(data),
        ],
    )
}

/// Builds the parameter value for one ESB packet send.
pub fn esb_send_params(channel: u8, address: &[u8; 5], data: &[u8]) -> (r: RpcValue)
    ensures
        r@ == esb_params_model(channel, address@, data@),
{
    let channel_value = RpcValue::Unsigned(channel as u64);
    let mut address_bytes: Vec<u8> = Vec::new();
    let mut i: usize = 0;
    while i < 5
        invariant
            i <= 5,
            address_bytes@ == address@.subrange(0, i as int),
        decreases 5 - i,
    {
        address_bytes.push(address[i]);
        assert(address@.subrange(0, i + 1 as int) =~= address@.subrange(0, i as int).push(
            address@[i as int],
        ));
        i = i + 1;
    }
    assert(address@.subrange(0, 5) =~= address@);
    let mut data_bytes: Vec<u8> = Vec::new();
    let mut j: usize = 0;
    while j < data.len()
        invariant
            j <= data@.len(),
            data_bytes@ == data@.subrange(0, j as int),
        decreases data@.len() - j,
    {
        data_bytes.push(data[j]);
        assert(data@.subrange(0, j + 1 as int) =~= data@.subrange(0, j as int).push(
            data@[j as int],
        ));
        j = j + 1;
    }
    assert(data@.subrange(0, data@.len() as int) =~= data@);
    let address_value = RpcValue::Bytes(address_bytes);
    let data_value = RpcValue::Bytes(data_bytes);
    proof {
        assert(value_model(channel_value) == ValueModel::Unsigned(channel as u64));
        assert(value_model(address_value) == ValueModel::Bytes(address@));
        assert(value_model(data_value) == ValueModel::Bytes(data@));
    }
    let mut items: Vec<RpcValue> = Vec::new();
    items.push(channel_value);
    items.push(address_value);
    items.push(data_value);
    let r = RpcValue::Array(items);
    proof {
        assert(items@.len() == 3);
        assert(items@[0] == channel_value);
        assert(items@[1] == address_value);
        assert(items@[2] == data_value);
        assert(r@->Array_0 =~= seq![
            ValueModel::Unsigned(channel as u64),
            ValueModel::Bytes(address@),
            ValueModel::Bytes(data@),
        ]);
    }
    r
}

/// Whether an integer value fits a signed byte, as the radio reports
/// signal strength: `Unsigned(n)` up to 127, or `Negative(n)` down to
/// -128 (that is, `n` up to 127).
pub open spec fn is_i8_model(m: ValueModel) -> bool {
    ||| m matches ValueModel::Unsigned(n) && n <= 127
    ||| m matches ValueModel::Negative(n) && n <= 127
}

/// The byte the radio's signed signal-strength report becomes: the
/// two's-complement reinterpretation of the signed value.
pub open spec fn i8_model_as_byte(m: ValueModel) -> u8 {
    match m {
        ValueModel::Unsigned(n) => n as u8,
        ValueModel::Negative(n) => (255 - n) as u8,
        _ => 0,
    }
}

/// Whether a structured value has the shape of an ESB acknowledgement:
/// a flag, an optional payload, and a signed signal-strength byte.
pub open spec fn is_esb_ack_model(m: ValueModel) -> bool {
    &&& m matches ValueModel::Array(elems)
    &&& elems.len() == 3
    &&& elems[0] matches ValueModel::Bool(_)
    &&& (elems[1] matches ValueModel::Null || elems[1] matches ValueModel::Bytes(_))
    &&& is_i8_model(elems[2])
}

fn copy_bytes(src: &Vec<u8>) -> (r: Vec<u8>)
    ensures
        r@ == src@,
{
    let mut out: Vec<u8> = Vec::new();
    let mut i: usize = 0;
    while i < src.len()
        invariant
            i <= src@.len(),
            out@ == src@.subrange(0, i as int),
        decreases src@.len() - i,
    {
        out.push(src[i]);
        assert(src@.subrange(0, i + 1 as int) =~= src@.subrange(0, i as int).push(
            src@[i as int],
        ));
        i = i + 1;
    }
    assert(src@.subrange(0, src@.len() as int) =~= src@);
    out
}

/// Reads an ESB send's result as an acknowledgement, rejecting any value
/// of another shape.
pub fn parse_esb_ack(v: &RpcValue) -> (r: Option<EsbAck>)
    ensures
        r is Some <==> is_esb_ack_model(v@),
        r matches Some(ack) ==> {
            let elems = v@->Array_0;
            &&& ack.acked == elems[0]->Bool_0
            &&& ((elems[1] matches ValueModel::Null) ==> ack.data is None)
            &&& (elems[1] matches ValueModel::Bytes(b) ==> (ack.data matches Some(d) && d@
                == b))
            &&& ack.rssi == i8_model_as_byte(elems[2])
        },
{
    let items: &Vec<RpcValue> = match v {
        RpcValue::Array(items) => items,
        _ => {
            return None;
        },
    };
    let ghost elems = v@->Array_0;
    proof {
        assert(elems.len() == items@.len());
        assert(forall|i: int|
            0 <= i < items@.len() ==> elems[i] == value_model(#[trigger] items@[i]));
    }
    if items.len() != 3 {
        return None;
    }
    let acked = match &items[0] {
        RpcValue::Bool(b) => *b,
        _ => {
            proof {
                lemma_model_variants(items@[0]);
            }
            return None;
        },
    };
    let data: Option<Vec<u8>> = match &items[1] {
        RpcValue::Null => None,
        RpcValue::Bytes(b) => Some(copy_bytes(b)),
        _ => {
            proof {
                lemma_model_variants(items@[1]);
            }
            return None;
        },
    };
    let rssi: u8 = match &items[2] {
        RpcValue::Unsigned(n) => {
            if *n > 127 {
                return None;
            }
            *n as u8
        },
        RpcValue::Negative(n) => {
            if *n > 127 {
                return None;
            }
            (255 - *n as u8)
        },
        _ => {
            proof {
                lemma_model_variants(items@[2]);
            }
            return None;
        },
    };
    Some(EsbAck { acked, data, rssi })
}

/// Reads a mode-listing result: an array of mode names, each text.
pub fn parse_mode_list(v: &RpcValue) -> (r: Option<Vec<String>>)
    ensures
        r is Some <==> is_text_list_model(v@),
        r matches Some(modes) ==> {
            let elems = v@->Array_0;
            &&& modes@.len() == elems.len()
            &&& forall|i: int|
                0 <= i < elems.len() ==> (#[trigger] modes@[i])@ == elems[i]->Text_0
        },
{
    let items: &Vec<RpcValue> = match v {
        RpcValue::Array(items) => items,
        _ => {
            return None;
        },
    };
    let mut modes: Vec<String> = Vec::new();
    let mut i: usize = 0;
    while i < items.len()
        invariant
            i <= items@.len(),
            v@ matches ValueModel::Array(_),
            v@->Array_0.len() == items@.len(),
            forall|j: int|
                0 <= j < items@.len() ==> #[trigger] v@->Array_0[j] == value_model(items@[j]),
            modes@.len() == i,
            forall|j: int| 0 <= j < i ==> ((#[trigger] v@->Array_0[j]) matches ValueModel::Text(
                _,
            )),
            forall|j: int|
                0 <= j < i ==> (#[trigger] modes@[j])@ == v@->Array_0[j]->Text_0,
        decreases items@.len() - i,
    {
        proof {
            assert(v@->Array_0[i as int] == value_model(items@[i as int]));
        }
        let name: String = match &items[i] {
            RpcValue::Text(name) => name.clone(),
            _ => {
                proof {
                    lemma_model_variants(items@[i as int]);
                }
                return None;
            },
        };
        modes.push(name);
        i = i + 1;
    }
    Some(modes)
}

/// Whether a structured value is an array of text entries.
pub open spec fn is_text_list_model(m: ValueModel) -> bool {
    &&& m matches ValueModel::Array(elems)
    &&& forall|i: int| 0 <= i < elems.len() ==> (#[trigger] elems[i] matches ValueModel::Text(_))
}

} // verus!
