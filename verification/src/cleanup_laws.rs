//! What a cleanup asks for: that it stays inside its directory, and that it empties a whole tree.

use vstd::prelude::*;
use crate::cleanup::{CleanupStage, CleanupView, FrameView};
use crate::disk::{named, ListedView, ReplyView, RequestView};
use crate::path::{descend, under, Platform};
use crate::tree::{names_of, Exchange, Tree};

verus! {

/// Whether a path is reached from a root by going down through names.
pub open spec fn inside(platform: Platform, root: Seq<char>, path: Seq<char>) -> bool {
    exists|names: Seq<Seq<char>>| path == #[trigger] descend(platform, root, names)
}

/// Whether the directories being cleaned lie one in the other, from a root inwards.
pub open spec fn nested(cleanup: CleanupView, root: Seq<char>) -> bool {
    &&& cleanup.frames.len() > 0 ==> cleanup.frames[0].dir == root
    &&& forall|k: int|
        0 < k < cleanup.frames.len() ==> (#[trigger] cleanup.frames[k]).dir == cleanup.frames[k
            - 1].entry(cleanup.platform)
}

/// The path that a request of a cleanup concerns.
pub open spec fn concerns(request: RequestView) -> Seq<char> {
    match request {
        RequestView::ReadDir(path) => path,
        RequestView::IsDir(path) => path,
        RequestView::RemoveFile(path) => path,
        RequestView::RemoveDir(path) => path,
        RequestView::Exists(path) => path,
        _ => Seq::empty(),
    }
}

proof fn lemma_frame_is_inside(cleanup: CleanupView, root: Seq<char>, k: int)
    requires
        nested(cleanup, root),
        0 <= k < cleanup.frames.len(),
    ensures
        inside(cleanup.platform, root, cleanup.frames[k].dir),
    decreases k,
{
    if k == 0 {
        assert(descend(cleanup.platform, root, Seq::empty()) == root);
    } else {
        lemma_frame_is_inside(cleanup, root, k - 1);
        lemma_entry_is_inside(cleanup.platform, root, cleanup.frames[k - 1]);
    }
}

proof fn lemma_entry_is_inside(platform: Platform, root: Seq<char>, frame: FrameView)
    requires
        inside(platform, root, frame.dir),
    ensures
        inside(platform, root, frame.entry(platform)),
{
    let names = choose|names: Seq<Seq<char>>|
        frame.dir == #[trigger] descend(platform, root, names);
    let longer = names.push(frame.names[frame.next]);
    assert(longer.drop_last() =~= names);
    assert(descend(platform, root, longer) == frame.entry(platform));
}

/// Law: a cleanup touches nothing outside its directory: each path that it looks at or removes is
/// the directory itself or reached from it by going down.
pub proof fn law_cleanup_stays_inside(cleanup: CleanupView, reply: ReplyView, root: Seq<char>)
    requires
        cleanup.well_formed(),
        nested(cleanup, root),
        cleanup.accepts(reply),
    ensures
        nested(CleanupView::start(cleanup.platform, root), root),
        nested(cleanup.next(reply), root),
        inside(cleanup.platform, root, concerns(cleanup.request()->Some_0)),
{
    let last = cleanup.frames.len() - 1;
    lemma_frame_is_inside(cleanup, root, last);
    lemma_entry_is_inside(cleanup.platform, root, cleanup.frames[last]);
    let after = cleanup.next(reply);
    assert forall|k: int| 0 < k < after.frames.len() implies (#[trigger] after.frames[k]).dir
        == after.frames[k - 1].entry(after.platform) by {
        assert(after.frames[k - 1] == cleanup.frames[k - 1]);
        if k <= last {
            assert(after.frames[k].dir == cleanup.frames[k].dir);
        }
    }
}

/// Whether a cleanup, given some replies in turn, makes just these requests and comes to `end`.
pub open spec fn exchanges(start: CleanupView, talk: Seq<Exchange>, end: CleanupView) -> bool
    decreases talk.len(),
{
    if talk.len() == 0 {
        start == end
    } else {
        &&& start.request() == Some(talk.first().request)
        &&& talk.first().reply.answers(talk.first().request)
        &&& exchanges(start.next(talk.first().reply), talk.drop_first(), end)
    }
}

/// How many files and directories a tree is made of.
pub open spec fn piece_count(tree: Tree) -> int
    decreases tree,
{
    match tree {
        Tree::File => 1,
        Tree::Dir(entries) => 1 + piece_counts(entries),
    }
}

/// How many files and directories some trees are made of.
pub open spec fn piece_counts(entries: Seq<(Seq<char>, Tree)>) -> int
    decreases entries,
{
    if entries.len() == 0 {
        0
    } else {
        piece_count(entries[0].1) + piece_counts(entries.drop_first())
    }
}

/// The requests that clean a directory where every removal succeeds: each entry in turn, and then the
/// directory itself.
pub open spec fn clean_talk(
    platform: Platform,
    dir: Seq<char>,
    tree: Tree,
) -> Seq<Exchange>
    decreases tree, 0int,
{
    match tree {
        Tree::File => Seq::empty(),
        Tree::Dir(entries) => seq![
            Exchange {
                request: RequestView::ReadDir(dir),
                reply: ReplyView::Listing(names_of(entries)),
            },
        ] + clean_entries_talk(platform, dir, entries) + seq![
            Exchange { request: RequestView::RemoveDir(dir), reply: ReplyView::Done },
        ],
    }
}

/// The requests that remove one entry.
pub open spec fn clean_entry_talk(
    platform: Platform,
    path: Seq<char>,
    tree: Tree,
) -> Seq<Exchange>
    decreases tree, 1int,
{
    match tree {
        Tree::File => seq![
            Exchange { request: RequestView::IsDir(path), reply: ReplyView::Flag(false) },
            Exchange { request: RequestView::RemoveFile(path), reply: ReplyView::Done },
        ],
        Tree::Dir(_) => seq![
            Exchange { request: RequestView::IsDir(path), reply: ReplyView::Flag(true) },
        ] + clean_talk(platform, path, tree),
    }
}

/// The requests that remove the entries of a directory in turn.
pub open spec fn clean_entries_talk(
    platform: Platform,
    dir: Seq<char>,
    entries: Seq<(Seq<char>, Tree)>,
) -> Seq<Exchange>
    decreases entries, 0int,
{
    if entries.len() == 0 {
        Seq::empty()
    } else {
        clean_entry_talk(platform, under(platform, dir, entries[0].0), entries[0].1)
            + clean_entries_talk(platform, dir, entries.drop_first())
    }
}

proof fn lemma_exchanges_concat(
    start: CleanupView,
    first: Seq<Exchange>,
    middle: CleanupView,
    second: Seq<Exchange>,
    end: CleanupView,
)
    requires
        exchanges(start, first, middle),
        exchanges(middle, second, end),
    ensures
        exchanges(start, first + second, end),
    decreases first.len(),
{
    if first.len() == 0 {
        assert(first + second =~= second);
    } else {
        let rest = first.drop_first();
        lemma_exchanges_concat(start.next(first.first().reply), rest, middle, second, end);
        assert((first + second).drop_first() =~= rest + second);
    }
}

proof fn lemma_one_exchange(start: CleanupView, request: RequestView, reply: ReplyView)
    requires
        start.request() == Some(request),
        reply.answers(request),
    ensures
        exchanges(start, seq![Exchange { request, reply }], start.next(reply)),
{
    let talk = seq![Exchange { request, reply }];
    assert(talk.drop_first() =~= Seq::empty());
    assert(exchanges(start.next(reply), talk.drop_first(), start.next(reply)));
}

/// The names of the entries of a directory.
spec fn plain_names(entries: Seq<(Seq<char>, Tree)>) -> Seq<Seq<char>> {
    entries.map_values(|e: (Seq<char>, Tree)| e.0)
}

proof fn lemma_all_named(entries: Seq<(Seq<char>, Tree)>)
    ensures
        named(names_of(entries)) == plain_names(entries),
    decreases entries.len(),
{
    if entries.len() == 0 {
        assert(named(names_of(entries)) =~= plain_names(entries));
    } else {
        lemma_all_named(entries.drop_last());
        assert(names_of(entries).drop_last() =~= names_of(entries.drop_last()));
        assert(names_of(entries).last() == ListedView::Name(entries.last().0));
        assert(plain_names(entries) =~= plain_names(entries.drop_last()).push(entries.last().0));
    }
}

/// A cleanup at an innermost directory inside others.
spec fn at(
    platform: Platform,
    outer: Seq<FrameView>,
    top: FrameView,
    stage: CleanupStage,
    deleted: int,
    failed: int,
) -> CleanupView {
    CleanupView { platform, frames: outer.push(top), stage, deleted, failed }
}

proof fn lemma_passing(
    platform: Platform,
    outer: Seq<FrameView>,
    top: FrameView,
    stage: CleanupStage,
    deleted: int,
    failed: int,
)
    ensures
        at(platform, outer, top, stage, deleted, failed).passing() == at(
            platform,
            outer,
            top.passed(),
            stage,
            deleted,
            failed,
        ).proceeding(),
{
    let now = at(platform, outer, top, stage, deleted, failed);
    assert(now.frames.drop_last() =~= outer);
}

/// The cleanup that has removed a directory and gone back to those around it.
spec fn left(
    platform: Platform,
    outer: Seq<FrameView>,
    deleted: int,
    failed: int,
) -> CleanupView {
    if outer.len() > 0 {
        CleanupView {
            platform,
            frames: outer,
            stage: CleanupStage::Inspect,
            deleted: deleted + 1,
            failed,
        }.passing()
    } else {
        CleanupView { platform, frames: outer, stage: CleanupStage::Finished, deleted, failed }
    }
}

proof fn lemma_clean_dir(
    platform: Platform,
    outer: Seq<FrameView>,
    dir: Seq<char>,
    entries: Seq<(Seq<char>, Tree)>,
    deleted: int,
    failed: int,
)
    ensures
        exchanges(
            at(platform, outer, FrameView::of(dir), CleanupStage::List, deleted, failed),
            clean_talk(platform, dir, Tree::Dir(entries)),
            left(platform, outer, deleted + piece_counts(entries), failed),
        ),
    decreases entries, 1int,
{
    let start = at(platform, outer, FrameView::of(dir), CleanupStage::List, deleted, failed);
    let listing = ReplyView::Listing(names_of(entries));
    let names = plain_names(entries);
    let count = deleted + piece_counts(entries);
    lemma_all_named(entries);
    lemma_one_exchange(start, RequestView::ReadDir(dir), listing);
    let listed = start.next(listing);
    let frame = FrameView { dir, names, next: 0 };
    assert(start.frames.drop_last() =~= outer);
    assert(listed == at(
        platform,
        outer,
        frame,
        CleanupStage::List,
        deleted,
        failed,
    ).proceeding());
    lemma_clean_entries(platform, outer, dir, names, 0, entries, deleted, failed);
    let emptied = at(
        platform,
        outer,
        FrameView { dir, names, next: names.len() as int },
        CleanupStage::RemoveSelf,
        count,
        failed,
    );
    let first = seq![Exchange { request: RequestView::ReadDir(dir), reply: listing }];
    let middle = clean_entries_talk(platform, dir, entries);
    lemma_one_exchange(emptied, RequestView::RemoveDir(dir), ReplyView::Done);
    assert(emptied.frames.drop_last() =~= outer);
    assert(emptied.next(ReplyView::Done) == left(platform, outer, count, failed));
    lemma_exchanges_concat(start, first, listed, middle, emptied);
    lemma_exchanges_concat(
        start,
        first + middle,
        emptied,
        seq![Exchange { request: RequestView::RemoveDir(dir), reply: ReplyView::Done }],
        left(platform, outer, count, failed),
    );
}

proof fn lemma_clean_entry(
    platform: Platform,
    outer: Seq<FrameView>,
    top: FrameView,
    tree: Tree,
    deleted: int,
    failed: int,
)
    requires
        top.has_entry(),
    ensures
        exchanges(
            at(platform, outer, top, CleanupStage::Inspect, deleted, failed),
            clean_entry_talk(platform, top.entry(platform), tree),
            at(
                platform,
                outer,
                top.passed(),
                CleanupStage::Inspect,
                deleted + piece_count(tree),
                failed,
            ).proceeding(),
        ),
    decreases tree, 1int,
{
    let start = at(platform, outer, top, CleanupStage::Inspect, deleted, failed);
    let path = top.entry(platform);
    let end = at(
        platform,
        outer,
        top.passed(),
        CleanupStage::Inspect,
        deleted + piece_count(tree),
        failed,
    ).proceeding();
    match tree {
        Tree::File => {
            lemma_one_exchange(start, RequestView::IsDir(path), ReplyView::Flag(false));
            let found = start.next(ReplyView::Flag(false));
            lemma_one_exchange(found, RequestView::RemoveFile(path), ReplyView::Done);
            let succeeded = found.succeeded();
            assert(succeeded == at(
                platform,
                outer,
                top,
                CleanupStage::RemoveFile,
                deleted + 1,
                failed,
            ));
            lemma_passing(platform, outer, top, CleanupStage::RemoveFile, deleted + 1, failed);
            assert(found.next(ReplyView::Done) == end);
            let first = seq![
                Exchange { request: RequestView::IsDir(path), reply: ReplyView::Flag(false) },
            ];
            let second = seq![
                Exchange { request: RequestView::RemoveFile(path), reply: ReplyView::Done },
            ];
            lemma_exchanges_concat(start, first, found, second, end);
            assert(first + second =~= clean_entry_talk(platform, path, tree));
        },
        Tree::Dir(entries) => {
            let around = outer.push(top);
            let count = deleted + piece_counts(entries);
            lemma_one_exchange(start, RequestView::IsDir(path), ReplyView::Flag(true));
            let entered = start.next(ReplyView::Flag(true));
            assert(entered == at(
                platform,
                around,
                FrameView::of(path),
                CleanupStage::List,
                deleted,
                failed,
            ));
            lemma_clean_dir(platform, around, path, entries, deleted, failed);
            let back = at(platform, outer, top, CleanupStage::Inspect, count + 1, failed);
            lemma_passing(platform, outer, top, CleanupStage::Inspect, count + 1, failed);
            assert(left(platform, around, count, failed) == back.passing());
            assert(left(platform, around, count, failed) == end);
            let first = seq![
                Exchange { request: RequestView::IsDir(path), reply: ReplyView::Flag(true) },
            ];
            lemma_exchanges_concat(
                start,
                first,
                entered,
                clean_talk(platform, path, tree),
                end,
            );
        },
    }
}

proof fn lemma_clean_entries(
    platform: Platform,
    outer: Seq<FrameView>,
    dir: Seq<char>,
    names: Seq<Seq<char>>,
    k: int,
    entries: Seq<(Seq<char>, Tree)>,
    deleted: int,
    failed: int,
)
    requires
        0 <= k,
        k + entries.len() == names.len(),
        forall|i: int| 0 <= i < entries.len() ==> names[k + i] == (#[trigger] entries[i]).0,
    ensures
        exchanges(
            at(
                platform,
                outer,
                FrameView { dir, names, next: k },
                CleanupStage::Inspect,
                deleted,
                failed,
            ).proceeding(),
            clean_entries_talk(platform, dir, entries),
            at(
                platform,
                outer,
                FrameView { dir, names, next: names.len() as int },
                CleanupStage::RemoveSelf,
                deleted + piece_counts(entries),
                failed,
            ),
        ),
    decreases entries, 0int,
{
    if entries.len() > 0 {
        let top = FrameView { dir, names, next: k };
        let rest = entries.drop_first();
        let count = piece_count(entries[0].1);
        assert(names[k] == entries[0].0);
        lemma_clean_entry(platform, outer, top, entries[0].1, deleted, failed);
        assert forall|i: int| 0 <= i < rest.len() implies names[k + 1 + i] == (
        #[trigger] rest[i]).0 by {
            assert(rest[i] == entries[i + 1]);
        }
        lemma_clean_entries(
            platform,
            outer,
            dir,
            names,
            k + 1,
            rest,
            deleted + count,
            failed,
        );
        lemma_exchanges_concat(
            at(platform, outer, top, CleanupStage::Inspect, deleted, failed),
            clean_entry_talk(platform, under(platform, dir, entries[0].0), entries[0].1),
            at(
                platform,
                outer,
                top.passed(),
                CleanupStage::Inspect,
                deleted + count,
                failed,
            ).proceeding(),
            clean_entries_talk(platform, dir, rest),
            at(
                platform,
                outer,
                FrameView { dir, names, next: names.len() as int },
                CleanupStage::RemoveSelf,
                deleted + piece_counts(entries),
                failed,
            ),
        );
    }
}

/// Law: where every removal succeeds, a cleanup removes each file and each directory of a tree and
/// the directory itself, and counts one success for each file and each directory below it, and no failure.
pub proof fn law_cleanup_empties_the_tree(
    platform: Platform,
    dir: Seq<char>,
    entries: Seq<(Seq<char>, Tree)>,
) -> (end: CleanupView)
    ensures
        exchanges(
            CleanupView::start(platform, dir),
            clean_talk(platform, dir, Tree::Dir(entries)),
            end,
        ),
        end.stage == CleanupStage::Finished,
        end.deleted == piece_counts(entries),
        end.failed == 0,
{
    let none: Seq<FrameView> = Seq::empty();
    lemma_clean_dir(platform, none, dir, entries, 0, 0);
    assert(none.push(FrameView::of(dir)) =~= seq![FrameView::of(dir)]);
    left(platform, none, piece_counts(entries), 0)
}

} // verus!
