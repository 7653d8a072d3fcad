//! The boundary between the rendezvous core and its transport collaborator:
//! splitting decoded query pairs into token and payload on the way in, and
//! rendering a waiter's outcome on the way out.

use vstd::prelude::*;

use crate::cell::{Outcome, Payload, Reason};

verus! {

/// The key under which a request names its rendezvous token.
pub open spec fn token_key() -> Seq<char> {
    "token"@
}

/// The first value stored under key `k` in `s`, if any.
pub open spec fn lookup_first(s: Seq<(String, String)>, k: Seq<char>) -> Option<String>
    decreases s.len(),
{
    if s.len() == 0 {
        None
    } else if s[0].0@ == k {
        Some(s[0].1)
    } else {
        lookup_first(s.drop_first(), k)
    }
}

/// The pairs of `s` whose key differs from `k`, in their original order.
pub open spec fn strip_key(s: Seq<(String, String)>, k: Seq<char>) -> Seq<(String, String)>
    decreases s.len(),
{
    if s.len() == 0 {
        Seq::empty()
    } else if s[0].0@ == k {
        strip_key(s.drop_first(), k)
    } else {
        seq![s[0]] + strip_key(s.drop_first(), k)
    }
}

/// Splits decoded query pairs into the rendezvous token and the payload to
/// deliver: the token is the first value keyed `"token"`, and the payload is
/// every pair under any other key, in order. Returns nothing when no pair
/// carries the token key — the request is malformed and must be rejected
/// before it reaches the core.
pub fn split_token(params: &Vec<(String, String)>) -> (r: Option<(String, Payload)>)
    ensures
        match r {
            None => lookup_first(params@, token_key()) is None,
            Some(tp) => {
                &&& lookup_first(params@, token_key()) == Some(tp.0)
                &&& tp.1@ == strip_key(params@, token_key())
            },
        },
{
    let key: String = "token".to_owned();
    let mut tok: Option<String> = None;
    let mut rest: Vec<(String, String)> = Vec::new();
    let mut i: usize = 0;
    proof {
        assert(params@.skip(0) =~= params@);
        assert(rest@ + strip_key(params@.skip(0), token_key())
            =~= strip_key(params@, token_key()));
    }
    while i < params.len()
        invariant
            key@ == token_key(),
            i <= params@.len(),
            match tok {
                None => lookup_first(params@, token_key())
                    == lookup_first(params@.skip(i as int), token_key()),
                Some(v) => lookup_first(params@, token_key()) == Some(v),
            },
            rest@ + strip_key(params@.skip(i as int), token_key())
                == strip_key(params@, token_key()),
        decreases params@.len() - i,
    {
        proof {
            assert(params@.skip(i as int).len() > 0);
            assert(params@.skip(i as int)[0] == params@[i as int]);
            assert(params@.skip(i as int).drop_first() =~= params@.skip(i as int + 1));
        }
        let p = &params[i];
        if p.0 == key {
            if tok.is_none() {
                tok = Some(p.1.clone());
            }
        } else {
            rest.push((p.0.clone(), p.1.clone()));
            proof {
                assert(rest@.last() == params@[i as int]);
                assert(rest@ + strip_key(params@.skip(i as int + 1), token_key())
                    =~= strip_key(params@, token_key()));
            }
        }
        i += 1;
    }
    proof {
        assert(params@.skip(params@.len() as int) =~= Seq::<(String, String)>::empty());
        assert(rest@ =~= strip_key(params@, token_key()));
    }
    match tok {
        Some(t) => Some((t, rest)),
        None => None,
    }
}

/// The JSON text that encoding the given key/value pairs produces: a JSON
/// object whose members are the pairs, determined by the pairs alone.
pub uninterp spec fn json_object_of(pairs: Seq<(Seq<char>, Seq<char>)>) -> Seq<char>;

/// Relies on serde_json::to_string, applied to a std::collections::BTreeMap
/// collected from the pairs: the map iterates its members in key order, so
/// the encoding is a function of the pairs alone. The call cannot fail —
/// serialization fails only when a Serialize impl decides to fail or a map
/// has non-string keys, and here the keys and values are strings whose
/// Serialize only writes into an in-memory buffer — so the encoding is
/// always returned.
#[verifier::external_body]
fn encode_pairs(pairs: &Vec<(String, String)>) -> (r: String)
    ensures
        r@ == json_object_of(pairs.deep_view()),
{
    let map: std::collections::BTreeMap<&str, &str> =
        pairs.iter().map(|p| (p.0.as_str(), p.1.as_str())).collect();
    serde_json::to_string(&map).expect("string-keyed maps always encode")
}

/// What the transport collaborator sends back to a waiter: a response body
/// carrying the encoded payload, or a failure reason.
#[derive(Debug, PartialEq, Eq)]
pub enum WaitReply {
    Body(String),
    Error(Reason),
}

/// Renders a waiter's outcome for the transport layer. A failure passes its
/// reason through; a delivered payload is always answered with a response
/// body carrying exactly its JSON-object encoding — string pairs always
/// encode, so a fulfilled waiter is owed its payload.
pub fn render_outcome(outcome: &Outcome) -> (r: WaitReply)
    ensures
        match *outcome {
            Outcome::Failed(why) => r == WaitReply::Error(why),
            Outcome::Delivered(p) => match r {
                WaitReply::Body(s) => s@ == json_object_of(p.deep_view()),
                WaitReply::Error(_) => false,
            },
        },
{
    match outcome {
        Outcome::Failed(why) => WaitReply::Error(*why),
        Outcome::Delivered(p) => WaitReply::Body(encode_pairs(p)),
    }
}

} // verus!
