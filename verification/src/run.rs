//! Whole runs of procedures: what was asked, what was replied, and where that leads.

use vstd::prelude::*;
use crate::disk::ReplyView;

verus! {

/// What asks for one operation at a time and goes on with the reply to it.
pub trait Procedure<Q, A>: Sized {
    /// What is asked next; nothing at the end.
    spec fn asks(self) -> Option<Q>;

    /// Whether a reply can come.
    spec fn takes(self, reply: A) -> bool;

    /// Where a reply leads.
    spec fn told(self, reply: A) -> Self;
}

/// Whether a reply fits into memory.
pub open spec fn holdable(reply: ReplyView) -> bool {
    reply matches ReplyView::Listing(entries) ==> entries.len() <= usize::MAX
}

/// Where replies lead, one after the other.
pub open spec fn after<Q, A, P: Procedure<Q, A>>(procedure: P, replies: Seq<A>) -> P
    decreases replies.len(),
{
    if replies.len() == 0 {
        procedure
    } else {
        after::<Q, A, P>(procedure, replies.drop_last()).told(replies.last())
    }
}

/// Whether replies can come, one after the other.
pub open spec fn runs<Q, A, P: Procedure<Q, A>>(procedure: P, replies: Seq<A>) -> bool
    decreases replies.len(),
{
    replies.len() > 0 ==> {
        &&& runs::<Q, A, P>(procedure, replies.drop_last())
        &&& after::<Q, A, P>(procedure, replies.drop_last()).asks() is Some
        &&& after::<Q, A, P>(procedure, replies.drop_last()).takes(replies.last())
    }
}

/// What was asked on the way, each with the reply to it.
pub open spec fn history<Q, A, P: Procedure<Q, A>>(procedure: P, replies: Seq<A>) -> Seq<(Q, A)>
    decreases replies.len(),
{
    if replies.len() == 0 {
        Seq::empty()
    } else {
        history::<Q, A, P>(procedure, replies.drop_last()).push(
            (after::<Q, A, P>(procedure, replies.drop_last()).asks()->Some_0, replies.last()),
        )
    }
}

/// Whether something was asked.
pub open spec fn was_asked<Q, A>(history: Seq<(Q, A)>, question: Q) -> bool {
    exists|k: int| 0 <= k < history.len() && (#[trigger] history[k]).0 == question
}

} // verus!
