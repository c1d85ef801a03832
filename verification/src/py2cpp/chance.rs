//! The numbers that the transpiler draws to rename a variable that is
//! assigned a value of another type.
//!
//! Which numbers come is chance, so the parsers that may draw are specified
//! over a sequence of draws: the spec functions read it from the front and
//! hand on what they did not read.
use crate::py2cpp::context::SpecContext;
use crate::py2cpp::types::Parsed;
use rand::Rng;
use vstd::prelude::*;

verus! {

/// What a parser gives: its outcome, the context after it, and the draws
/// that it left unread.
pub type Step = (Result<Parsed, Seq<char>>, SpecContext, Seq<nat>);

/// Every number drawn is below 100.
pub open spec fn drawn(d: Seq<nat>) -> bool {
    forall|i: int| 0 <= i < d.len() ==> #[trigger] d[i] < 100
}

pub proof fn lemma_drawn_add(a: Seq<nat>, b: Seq<nat>)
    requires
        drawn(a),
        drawn(b),
    ensures
        drawn(a + b),
{
    assert forall|i: int| 0 <= i < (a + b).len() implies #[trigger] (a + b)[i] < 100 by {
        if i < a.len() {
            assert((a + b)[i] == a[i]);
        } else {
            assert((a + b)[i] == b[i - a.len()]);
        }
    }
}

/// Reading no draw leaves them all.
pub proof fn lemma_no_draws()
    ensures
        forall|x: Seq<nat>| #[trigger] (Seq::<nat>::empty() + x) == x,
        drawn(Seq::<nat>::empty()),
{
    assert forall|x: Seq<nat>| #[trigger] (Seq::<nat>::empty() + x) == x by {
        assert(Seq::<nat>::empty() + x =~= x);
    }
}

/// Draws read one after the other.
pub proof fn lemma_draws_assoc(a: Seq<nat>, b: Seq<nat>, x: Seq<nat>)
    ensures
        (a + b) + x == a + (b + x),
{
    assert((a + b) + x =~= a + (b + x));
}

/// Calls `rand::thread_rng().gen_range(0..100)`. Claims only that the
/// number is below 100, as the range given to `gen_range` says; which number
/// comes is chance.
#[verifier::external_body]
pub(crate) fn random_suffix() -> (r: u32)
    ensures
        r < 100,
{
    rand::thread_rng().gen_range(0..100u32)
}

} // verus!
