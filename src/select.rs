use vstd::prelude::*;
use rand::seq::SliceRandom;
use crate::store::name_seq;

verus! {

#[derive(Debug, PartialEq, Eq, Structural)]
pub enum SelectError {
    /// There was nothing to choose from.
    EmptyPool,
}

/// Relies on rand's `SliceRandom::choose` with the thread-local generator:
/// `None` exactly for an empty slice, otherwise one of its elements.
#[verifier::external_body]
fn pick_random(names: &Vec<String>) -> (r: Option<String>)
    ensures
        r is None <==> names@.len() == 0,
        r matches Some(s) ==> exists|i: int| 0 <= i < names@.len() && names@[i]@ == s@,
{
    names.choose(&mut rand::thread_rng()).cloned()
}

/// Picks one of `names` at random; an empty pool is an error.
pub fn choose_one(names: &Vec<String>) -> (r: Result<String, SelectError>)
    ensures
        r is Err <==> names@.len() == 0,
        r is Err ==> r == Err::<String, SelectError>(SelectError::EmptyPool),
        r matches Ok(s) ==> name_seq(names@).contains(s@),
{
    match pick_random(names) {
        Some(s) => {
            proof {
                let i = choose|i: int| 0 <= i < names@.len() && names@[i]@ == s@;
                assert(name_seq(names@)[i] == s@);
            }
            Ok(s)
        },
        None => Err(SelectError::EmptyPool),
    }
}

} // verus!
