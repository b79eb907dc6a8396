//! Directory trees, and what is asked and answered about them.

use vstd::prelude::*;
use crate::disk::{ListedView, ReplyView, RequestView};

verus! {

/// A file, or a directory with its entries in the order in which they are listed.
pub enum Tree {
    File,
    Dir(Seq<(Seq<char>, Tree)>),
}

/// A request and the reply to it.
pub struct Exchange {
    pub request: RequestView,
    pub reply: ReplyView,
}

/// The names of the entries of a directory, as they are listed.
pub open spec fn names_of(entries: Seq<(Seq<char>, Tree)>) -> Seq<ListedView> {
    entries.map_values(|e: (Seq<char>, Tree)| ListedView::Name(e.0))
}

/// Whether some names, from the root of a tree down, lead to a file.
pub open spec fn has_file(tree: Tree, names: Seq<Seq<char>>) -> bool
    decreases names.len(),
{
    if names.len() == 0 {
        tree is File
    } else {
        tree matches Tree::Dir(entries) && exists|i: int|
            0 <= i < entries.len() && (#[trigger] entries[i]).0 == names[0] && has_file(
                entries[i].1,
                names.drop_first(),
            )
    }
}

/// Whether a request is made in the course of an exchange.
pub open spec fn asks(talk: Seq<Exchange>, request: RequestView) -> bool {
    exists|k: int| 0 <= k < talk.len() && (#[trigger] talk[k]).request == request
}

/// What is asked in two exchanges, one after the other, is asked in one of them.
pub proof fn lemma_asks_concat(first: Seq<Exchange>, second: Seq<Exchange>, request: RequestView)
    ensures
        asks(first + second, request) <==> asks(first, request) || asks(second, request),
{
    let both = first + second;
    if asks(first, request) {
        let k = choose|k: int| 0 <= k < first.len() && (#[trigger] first[k]).request == request;
        assert(both[k].request == request);
    }
    if asks(second, request) {
        let k = choose|k: int| 0 <= k < second.len() && (#[trigger] second[k]).request == request;
        assert(both[first.len() + k].request == request);
    }
    if asks(both, request) {
        let k = choose|k: int| 0 <= k < both.len() && (#[trigger] both[k]).request == request;
        if k < first.len() {
            assert(first[k].request == request);
        } else {
            assert(second[k - first.len()].request == request);
        }
    }
}

} // verus!
