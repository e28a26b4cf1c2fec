//! The pipeline contract: votable objects named `id@contract`, and events.
use vstd::prelude::*;
use vstd::utf8::{encode_utf8, is_char_boundary};
use vstd::string::StringSliceAdditionalSpecFns;

verus! {

/// Why a message does not name a votable object.
#[derive(Debug, Clone, Copy, PartialEq, Eq, Structural)]
pub enum PipelineError {
    /// The message has no `@`.
    MissingSeparator,
    /// The id before the `@` is empty.
    EmptyId,
}

/// An object that can receive votes, in a contract.
pub struct VotableObject {
    pub votable_contract: String,
    pub id: String,
    pub expiration: u64,
    pub official_result: Option<u128>,
    pub votes_collected_at: Option<u64>,
    /// A fee in META.
    pub balance: u128,
}

/// An event for which votable objects register.
pub struct Event {
    pub registration_due_date: u64,
    pub registered_votable_object: String,
}

/// The state of the pipeline contract.
pub struct PipelineContract {
    pub owner_id: String,
    pub balance: u128,
    pub votable_objects: Vec<VotableObject>,
    pub events: Vec<Event>,
    /// Fee in META to create a votable object.
    pub base_fee: u128,
}

/// `p` is the position of the first `@` (byte 64) in `b`.
pub open spec fn first_at_is(b: Seq<u8>, p: int) -> bool {
    0 <= p < b.len() && b[p] == 64u8 && forall|j: int| 0 <= j < p ==> b[j] != 64u8
}

/// `b` names a votable object: it has an `@`, not in first place.
pub open spec fn names_object(b: Seq<u8>) -> bool {
    exists|p: int| #[trigger] first_at_is(b, p) && p > 0
}

/// The first position of byte 64 (`@`) in `b`.
fn find_at(b: &[u8]) -> (r: Option<usize>)
    ensures
        r is None <==> forall|i: int| 0 <= i < b@.len() ==> b@[i] != 64u8,
        r matches Some(p) ==> p < b@.len() && b@[p as int] == 64u8 && forall|j: int| 0 <= j < p ==> b@[j] != 64u8,
{
    let mut i: usize = 0;
    while i < b.len()
        invariant
            0 <= i <= b@.len(),
            forall|j: int| 0 <= j < i ==> b@[j] != 64u8,
        decreases b@.len() - i,
    {
        if b[i] == 64u8 {
            return Some(i);
        }
        i = i + 1;
    }
    None
}

impl VotableObject {
    /// Reads `id@contract` (the id is everything before the first `@`, the
    /// contract everything after it); the id must not be empty.
    pub fn parse_votable_object(msg: &String) -> (r: Result<(String, String), PipelineError>)
        ensures
            ({
                let b = encode_utf8(msg@);
                &&& (forall|i: int| 0 <= i < b.len() ==> b[i] != 64u8) ==> r == Err::<(String, String), PipelineError>(PipelineError::MissingSeparator)
                &&& forall|p: int| #[trigger] first_at_is(b, p) ==> {
                    &&& p == 0 ==> r == Err::<(String, String), PipelineError>(PipelineError::EmptyId)
                    &&& p > 0 ==> (r matches Ok(pair) && encode_utf8(pair.0@) == b.subrange(0, p)
                        && encode_utf8(pair.1@) == b.subrange(p + 1, b.len() as int))
                }
                &&& r is Ok <==> names_object(b)
            }),
    {
        let text = msg.as_str();
        let bytes = text.as_bytes();
        let ghost b = encode_utf8(msg@);
        assert(bytes@ == b);
        let pos = match find_at(bytes) {
            Some(p) => p,
            None => return Err(PipelineError::MissingSeparator),
        };
        if pos == 0 {
            proof {
                assert forall|p: int| #[trigger] first_at_is(b, p) implies p == 0 by {
                    if p > 0 {
                        assert(b[0] != 64u8);
                    }
                }
                assert(!names_object(b));
            }
            return Err(PipelineError::EmptyId);
        }
        proof {
            vstd::utf8::encode_utf8_valid_utf8(msg@);
            vstd::utf8::is_char_boundary_iff_not_is_continuation_byte(b, pos as int);
        }
        let (id_part, rest) = text.split_at(pos);
        proof {
            vstd::utf8::valid_utf8_split(b, pos as int);
            let rb = rest.spec_bytes();
            assert(rb[0] == 64u8);
            if rb.len() > 1 {
                vstd::utf8::is_char_boundary_iff_not_is_continuation_byte(b, pos as int + 1);
                assert(rb.len() >= 1);
            }
        }
        let ghost rb = rest.spec_bytes();
        assert(rb =~= b.subrange(pos as int, b.len() as int));
        proof {
            vstd::utf8::is_char_boundary_start_end_of_seq(rb);
            assert(vstd::utf8::valid_utf8(rb));
            assert(vstd::utf8::is_leading_byte_width_1(rb[0]));
            assert(vstd::utf8::length_of_first_scalar(rb) == 1);
            reveal_with_fuel(vstd::utf8::is_char_boundary, 2);
            vstd::utf8::is_char_boundary_start_end_of_seq(vstd::utf8::pop_first_scalar(rb));
            assert(vstd::utf8::is_char_boundary(rb, 1));
        }
        let (_sep, contract_part) = rest.split_at(1);
        let id = id_part.to_owned();
        let contract = contract_part.to_owned();
        proof {
            vstd::utf8::encode_utf8_decode_utf8(id@);
            assert(encode_utf8(id@) == id_part.spec_bytes()) by {
                vstd::utf8::decode_utf8_encode_utf8(id_part.spec_bytes());
            }
            assert(encode_utf8(contract@) == contract_part.spec_bytes()) by {
                vstd::utf8::decode_utf8_encode_utf8(contract_part.spec_bytes());
            }
            assert(contract_part.spec_bytes() =~= b.subrange(pos as int + 1, b.len() as int));
            assert forall|p: int| #[trigger] first_at_is(b, p) implies p == pos by {
                if p < pos {
                    assert(b[p] != 64u8);
                } else if p > pos {
                    assert(b[pos as int] != 64u8);
                }
            }
            assert(first_at_is(b, pos as int));
        }
        Ok((id, contract))
    }
}

impl PipelineContract {
    /// Creates the contract with no objects, no events and no balance.
    pub fn new(owner_id: String, base_fee: u128) -> (r: Self)
        ensures
            r.owner_id == owner_id,
            r.balance == 0,
            r.votable_objects@.len() == 0,
            r.events@.len() == 0,
            r.base_fee == base_fee,
    {
        PipelineContract { owner_id, balance: 0, votable_objects: Vec::new(), events: Vec::new(), base_fee }
    }

    /// Receives tokens whose message names a votable object; nothing is kept
    /// yet, and the unused amount given back is zero.
    pub fn ft_on_transfer(&mut self, sender_id: &String, amount: u128, msg: &String) -> (r: Result<u128, PipelineError>)
        ensures
            *final(self) == *old(self),
            r is Ok <==> names_object(encode_utf8(msg@)),
            r matches Ok(unused) ==> unused == 0,
    {
        match VotableObject::parse_votable_object(msg) {
            Ok(_) => Ok(0),
            Err(e) => Err(e),
        }
    }
}

} // verus!
