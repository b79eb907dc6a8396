//! What is told of a file system, by what can be seen of requests and replies.

use vstd::prelude::*;
use crate::disk::{named, os_error_text, IoFailureView, ListedView, ReplyView, RequestView};
use crate::text::signed_decimal;

verus! {

/// Law: the names of a listing are those of its entries that could be read, each as often as it is listed.
pub proof fn law_listings_give_their_names(entries: Seq<ListedView>)
    ensures
        named(entries).len() <= entries.len(),
        forall|name: Seq<char>|
            #![trigger named(entries).contains(name)]
            named(entries).contains(name) <==> entries.contains(ListedView::Name(name)),
        (forall|i: int| 0 <= i < entries.len() ==> #[trigger] entries[i] is Name) ==> named(
            entries,
        ).len() == entries.len(),
    decreases entries.len(),
{
    if entries.len() > 0 {
        let front = entries.drop_last();
        law_listings_give_their_names(front);
        assert forall|name: Seq<char>|
            #![trigger named(entries).contains(name)]
            named(entries).contains(name) <==> entries.contains(ListedView::Name(name)) by {
            if named(entries).contains(name) {
                let k = choose|k: int| 0 <= k < named(entries).len() && named(entries)[k] == name;
                if k < named(front).len() {
                    assert(named(front)[k] == name);
                    assert(named(front).contains(name));
                    let j = choose|j: int|
                        0 <= j < front.len() && front[j] == ListedView::Name(name);
                    assert(entries[j] == ListedView::Name(name));
                } else {
                    assert(entries[entries.len() - 1] == ListedView::Name(name));
                }
            }
            if entries.contains(ListedView::Name(name)) {
                let j = choose|j: int|
                    0 <= j < entries.len() && entries[j] == ListedView::Name(name);
                if j < front.len() {
                    assert(front[j] == ListedView::Name(name));
                    assert(front.contains(ListedView::Name(name)));
                    assert(named(front).contains(name));
                    let k = choose|k: int| 0 <= k < named(front).len() && named(front)[k] == name;
                    assert(named(entries)[k] == name);
                } else {
                    assert(named(entries)[named(front).len() as int] == name);
                }
            }
        }
        if forall|i: int| 0 <= i < entries.len() ==> #[trigger] entries[i] is Name {
            assert forall|i: int| 0 <= i < front.len() implies #[trigger] front[i] is Name by {
                assert(entries[i] is Name);
            }
            assert(entries[entries.len() - 1] is Name);
        }
    }
}

/// Law: the names of two listings, one behind the other, are those of the first and then those of the second.
pub proof fn law_listings_keep_their_order(first: Seq<ListedView>, second: Seq<ListedView>)
    ensures
        named(first + second) == named(first) + named(second),
    decreases second.len(),
{
    if second.len() == 0 {
        assert(first + second =~= first);
        assert(named(first) + named(second) =~= named(first));
    } else {
        law_listings_keep_their_order(first, second.drop_last());
        assert((first + second).drop_last() =~= first + second.drop_last());
        assert(named(first + second) =~= named(first) + named(second));
    }
}

/// Law: an error is reported with its text and the code of the operating system behind it.
pub proof fn law_failures_are_reported_with_their_code(message: Seq<char>, code: i32)
    ensures
        (IoFailureView { message, raw_os_error: Some(code) }).detailed() == message
            + ", raw_os_error=Some("@ + signed_decimal(code as int) + ")"@,
        (IoFailureView { message, raw_os_error: None }).detailed() == message
            + ", raw_os_error=None"@,
{
    reveal_strlit(", raw_os_error=Some(");
    reveal_strlit(", raw_os_error=");
    reveal_strlit("Some(");
    reveal_strlit("None");
    reveal_strlit(", raw_os_error=None");
    assert(message + ", raw_os_error=Some("@ + signed_decimal(code as int) + ")"@ =~= message
        + ", raw_os_error="@ + os_error_text(Some(code)));
    assert(message + ", raw_os_error=None"@ =~= message + ", raw_os_error="@ + os_error_text(None));
}

/// Law: a question is answered by yes or no, a listing by entries and the reading of a manifest by what it
/// holds, or by a failure; an operation that changes the disk succeeds or fails; and waiting, sweeping and
/// removing piece by piece do not fail.
pub proof fn law_replies_are_of_the_kind_asked_for(
    path: Seq<char>,
    other: Seq<char>,
    skip: Seq<Seq<char>>,
    millis: u64,
    reply: ReplyView,
)
    ensures
        ({
            let flag = reply is Flag;
            let done = reply == ReplyView::Done;
            let result = done || reply is Failed;
            &&& reply.answers(RequestView::Exists(path)) == flag
            &&& reply.answers(RequestView::IsDir(path)) == flag
            &&& reply.answers(RequestView::IsFile(path)) == flag
            &&& reply.answers(RequestView::ReadDir(path)) == (reply is Listing || reply is Failed)
            &&& reply.answers(RequestView::ReadManifest(path)) == (reply is Manifest
                || reply is Failed)
            &&& reply.answers(RequestView::Sleep(millis)) == done
            &&& reply.answers(RequestView::SweepCommitted(path)) == done
            &&& reply.answers(RequestView::CleanupDirContents(path)) == done
            &&& reply.answers(RequestView::CreateDirAll(path)) == result
            &&& reply.answers(RequestView::RemoveFile(path)) == result
            &&& reply.answers(RequestView::RemoveDir(path)) == result
            &&& reply.answers(RequestView::RemoveDirAll(path)) == result
            &&& reply.answers(RequestView::RemovePathIfExists(path)) == result
            &&& reply.answers(RequestView::Rename { from: path, to: other }) == result
            &&& reply.answers(RequestView::CopyFile { from: path, to: other }) == result
            &&& reply.answers(RequestView::MarkCommitted { path, content: other }) == result
            &&& reply.answers(RequestView::RenameWithRetry { from: path, to: other }) == result
            &&& reply.answers(RequestView::CopyEntry { from: path, to: other }) == result
            &&& reply.answers(RequestView::CopyDirRecursive { from: path, to: other }) == result
            &&& reply.answers(RequestView::CopyDirContents { from: path, to: other, skip })
                == result
        }),
{
}

} // verus!
