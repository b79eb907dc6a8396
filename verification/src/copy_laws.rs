//! What a copy asks for: where its requests lie, and that it covers a whole tree.

use vstd::prelude::*;
use crate::copy::{queue, CopyStage, CopyStyle, CopyView, JobView};
use crate::disk::{ListedView, ReplyView, RequestView};
use crate::path::{descend, lemma_descend_first, parent_of, under, Platform};
use crate::tree::{asks, has_file, lemma_asks_concat, names_of, Exchange, Tree};

verus! {

/// Whether a path and its destination are reached from two roots by the same names.
pub open spec fn mirrored(
    platform: Platform,
    from_root: Seq<char>,
    to_root: Seq<char>,
    from: Seq<char>,
    to: Seq<char>,
) -> bool {
    exists|names: Seq<Seq<char>>|
        from == #[trigger] descend(platform, from_root, names) && to == descend(
            platform,
            to_root,
            names,
        )
}

/// Whether all that a copy works on is reached from two roots by the same names.
pub open spec fn keeps_to_roots(copy: CopyView, from_root: Seq<char>, to_root: Seq<char>) -> bool {
    &&& copy.stage != CopyStage::Finished ==> mirrored(
        copy.platform,
        from_root,
        to_root,
        copy.from,
        copy.to,
    )
    &&& forall|i: int|
        0 <= i < copy.pending.len() && #[trigger] copy.pending[i] is Entry ==> mirrored(
            copy.platform,
            from_root,
            to_root,
            copy.pending[i]->from,
            copy.pending[i]->to,
        )
}

proof fn lemma_queue_mirrors(
    platform: Platform,
    from_root: Seq<char>,
    to_root: Seq<char>,
    from: Seq<char>,
    to: Seq<char>,
    skip: Seq<Seq<char>>,
    entries: Seq<ListedView>,
)
    requires
        mirrored(platform, from_root, to_root, from, to),
    ensures
        forall|i: int|
            0 <= i < queue(platform, from, to, skip, entries).len() && #[trigger] queue(
                platform,
                from,
                to,
                skip,
                entries,
            )[i] is Entry ==> mirrored(
                platform,
                from_root,
                to_root,
                queue(platform, from, to, skip, entries)[i]->from,
                queue(platform, from, to, skip, entries)[i]->to,
            ),
    decreases entries.len(),
{
    if entries.len() > 0 {
        lemma_queue_mirrors(platform, from_root, to_root, from, to, skip, entries.drop_first());
        if let ListedView::Name(name) = entries.first() {
            let names = choose|names: Seq<Seq<char>>|
                from == #[trigger] descend(platform, from_root, names) && to == descend(
                    platform,
                    to_root,
                    names,
                );
            let longer = names.push(name);
            assert(longer.drop_last() =~= names);
            assert(descend(platform, from_root, longer) == under(platform, from, name));
            assert(descend(platform, to_root, longer) == under(platform, to, name));
            assert(mirrored(
                platform,
                from_root,
                to_root,
                under(platform, from, name),
                under(platform, to, name),
            ));
        }
    }
}

/// Law: a copy puts everything where its source lies: what it reads is reached from the one root,
/// and what it writes is reached from the other by the same names.
pub proof fn law_copy_keeps_to_its_roots(
    copy: CopyView,
    reply: ReplyView,
    from_root: Seq<char>,
    to_root: Seq<char>,
)
    requires
        copy.well_formed(),
        copy.accepts(reply),
        keeps_to_roots(copy, from_root, to_root),
    ensures
        keeps_to_roots(copy.next(reply), from_root, to_root),
{
    let after = copy.next(reply);
    if copy.stage == CopyStage::List {
        if let ReplyView::Listing(entries) = reply {
            lemma_queue_mirrors(
                copy.platform,
                from_root,
                to_root,
                copy.from,
                copy.to,
                copy.skip,
                entries,
            );
            let more = queue(copy.platform, copy.from, copy.to, copy.skip, entries);
            let all = copy.pending + more;
            assert forall|i: int| 0 <= i < all.len() && #[trigger] all[i] is Entry implies mirrored(
                copy.platform,
                from_root,
                to_root,
                all[i]->from,
                all[i]->to,
            ) by {
                if i < copy.pending.len() {
                    assert(all[i] == copy.pending[i]);
                } else {
                    assert(all[i] == more[i - copy.pending.len()]);
                }
            }
            lemma_resumed_keeps_to_roots(
                CopyView { skip: Seq::empty(), pending: all, ..copy },
                from_root,
                to_root,
            );
        }
    } else if copy.stage == CopyStage::CopyFile && !(reply is Failed) {
        lemma_resumed_keeps_to_roots(copy, from_root, to_root);
    }
}

proof fn lemma_resumed_keeps_to_roots(copy: CopyView, from_root: Seq<char>, to_root: Seq<char>)
    requires
        keeps_to_roots(copy, from_root, to_root),
    ensures
        keeps_to_roots(copy.resumed(), from_root, to_root),
{
    if copy.pending.len() > 0 {
        assert(copy.pending[copy.pending.len() - 1] == copy.pending.last());
        assert forall|i: int|
            0 <= i < copy.pending.drop_last().len()
                && #[trigger] copy.pending.drop_last()[i] is Entry implies mirrored(
            copy.platform,
            from_root,
            to_root,
            copy.pending.drop_last()[i]->from,
            copy.pending.drop_last()[i]->to,
        ) by {
            assert(copy.pending.drop_last()[i] == copy.pending[i]);
        }
    }
}

/// Law: a copy starts at its two roots.
pub proof fn law_copy_starts_at_its_roots(
    platform: Platform,
    from: Seq<char>,
    to: Seq<char>,
    skip: Seq<Seq<char>>,
)
    ensures
        keeps_to_roots(CopyView::of_entry(platform, from, to), from, to),
        keeps_to_roots(CopyView::of_contents(platform, from, to, skip), from, to),
{
    assert(descend(platform, from, Seq::empty()) == from);
    assert(descend(platform, to, Seq::empty()) == to);
    assert(mirrored(platform, from, to, from, to));
}

/// Law: the first operation that fails ends a copy, and the copy has then failed.
pub proof fn law_copy_ends_at_the_first_failure(copy: CopyView, reply: ReplyView)
    requires
        copy.well_formed(),
        copy.accepts(reply),
        reply is Failed,
    ensures
        copy.next(reply).outcome matches Some(Err(_)),
{
}

/// Whether a copy, given some replies in turn, makes just these requests and comes to `end`.
pub open spec fn exchanges(start: CopyView, talk: Seq<Exchange>, end: CopyView) -> bool
    decreases talk.len(),
{
    if talk.len() == 0 {
        start == end
    } else {
        &&& start.request() == Some(talk.first().request)
        &&& start.accepts(talk.first().reply)
        &&& exchanges(start.next(talk.first().reply), talk.drop_first(), end)
    }
}

/// The requests that copy one file.
pub open spec fn file_talk(
    platform: Platform,
    style: CopyStyle,
    from: Seq<char>,
    to: Seq<char>,
) -> Seq<Exchange> {
    let parent = parent_of(platform, to);
    let copied = Exchange { request: RequestView::CopyFile { from, to }, reply: ReplyView::Done };
    if style == CopyStyle::Update && parent is Some {
        seq![
            Exchange {
                request: RequestView::CreateDirAll(parent->Some_0),
                reply: ReplyView::Done,
            },
            copied,
        ]
    } else {
        seq![copied]
    }
}

/// The requests that create a directory and list the one it is copied from.
pub open spec fn dir_talk(
    from: Seq<char>,
    to: Seq<char>,
    entries: Seq<(Seq<char>, Tree)>,
) -> Seq<Exchange> {
    seq![
        Exchange { request: RequestView::CreateDirAll(to), reply: ReplyView::Done },
        Exchange {
            request: RequestView::ReadDir(from),
            reply: ReplyView::Listing(names_of(entries)),
        },
    ]
}

/// The requests that copy a tree where every operation succeeds: for a file, the copy of the file;
/// for a directory, its creation and then the copy of each entry in turn.
pub open spec fn tree_talk(
    platform: Platform,
    style: CopyStyle,
    from: Seq<char>,
    to: Seq<char>,
    tree: Tree,
) -> Seq<Exchange>
    decreases tree,
{
    match tree {
        Tree::File => seq![
            Exchange { request: RequestView::IsDir(from), reply: ReplyView::Flag(false) },
        ] + file_talk(platform, style, from, to),
        Tree::Dir(entries) => seq![
            Exchange { request: RequestView::IsDir(from), reply: ReplyView::Flag(true) },
        ] + dir_talk(from, to, entries) + entries_talk(platform, style, from, to, entries),
    }
}

/// The requests that copy the entries of a directory in turn.
pub open spec fn entries_talk(
    platform: Platform,
    style: CopyStyle,
    from: Seq<char>,
    to: Seq<char>,
    entries: Seq<(Seq<char>, Tree)>,
) -> Seq<Exchange>
    decreases entries,
{
    if entries.len() == 0 {
        Seq::empty()
    } else {
        let name = entries[0].0;
        tree_talk(
            platform,
            style,
            under(platform, from, name),
            under(platform, to, name),
            entries[0].1,
        ) + entries_talk(platform, style, from, to, entries.drop_first())
    }
}

proof fn lemma_exchanges_concat(
    start: CopyView,
    first: Seq<Exchange>,
    middle: CopyView,
    second: Seq<Exchange>,
    end: CopyView,
)
    requires
        exchanges(start, first, middle),
        exchanges(middle, second, end),
    ensures
        exchanges(start, first + second, end),
    decreases first.len(),
{
    if first.len() == 0 {
        assert(first + second =~= second);
    } else {
        let rest = first.drop_first();
        lemma_exchanges_concat(start.next(first.first().reply), rest, middle, second, end);
        assert((first + second).drop_first() =~= rest + second);
    }
}

/// A copy with some jobs left, about to go on to the next.
spec fn with_pending(platform: Platform, style: CopyStyle, pending: Seq<JobView>) -> CopyView {
    CopyView {
        platform,
        style,
        skip: Seq::empty(),
        from: Seq::empty(),
        to: Seq::empty(),
        pending,
        stage: CopyStage::Inspect,
        outcome: None,
    }
}

/// A copy that looks at a path, with some jobs left after it.
spec fn inspecting(
    platform: Platform,
    style: CopyStyle,
    from: Seq<char>,
    to: Seq<char>,
    pending: Seq<JobView>,
) -> CopyView {
    CopyView {
        platform,
        style,
        skip: Seq::empty(),
        from,
        to,
        pending,
        stage: CopyStage::Inspect,
        outcome: None,
    }
}

proof fn lemma_copy_file(
    platform: Platform,
    style: CopyStyle,
    from: Seq<char>,
    to: Seq<char>,
    pending: Seq<JobView>,
)
    ensures
        exchanges(
            inspecting(platform, style, from, to, pending),
            tree_talk(platform, style, from, to, Tree::File),
            with_pending(platform, style, pending).resumed(),
        ),
{
    let start = inspecting(platform, style, from, to, pending);
    let talk = tree_talk(platform, style, from, to, Tree::File);
    let rest = talk.drop_first();
    let end = with_pending(platform, style, pending).resumed();
    let second = start.next(ReplyView::Flag(false));
    assert(rest =~= file_talk(platform, style, from, to));
    if rest.len() == 2 {
        let last = rest.drop_first();
        let third = second.next(ReplyView::Done);
        assert(last.drop_first() =~= Seq::empty());
        assert(exchanges(third.next(ReplyView::Done), last.drop_first(), end));
        assert(exchanges(third, last, end));
        assert(exchanges(second, rest, end));
    } else {
        assert(rest.drop_first() =~= Seq::empty());
        assert(exchanges(second.next(ReplyView::Done), rest.drop_first(), end));
        assert(exchanges(second, rest, end));
    }
}

proof fn lemma_copy_tree(
    platform: Platform,
    style: CopyStyle,
    from: Seq<char>,
    to: Seq<char>,
    tree: Tree,
    pending: Seq<JobView>,
)
    ensures
        exchanges(
            inspecting(platform, style, from, to, pending),
            tree_talk(platform, style, from, to, tree),
            with_pending(platform, style, pending).resumed(),
        ),
    decreases tree,
{
    match tree {
        Tree::File => {
            lemma_copy_file(platform, style, from, to, pending);
        },
        Tree::Dir(entries) => {
            let start = inspecting(platform, style, from, to, pending);
            let first = seq![
                Exchange { request: RequestView::IsDir(from), reply: ReplyView::Flag(true) },
            ];
            let second = start.next(ReplyView::Flag(true));
            assert(first.drop_first() =~= Seq::empty());
            assert(exchanges(second, first.drop_first(), second));
            assert(exchanges(start, first, second));
            let none: Seq<Seq<char>> = Seq::empty();
            let listed = with_pending(
                platform,
                style,
                pending + queue(platform, from, to, none, names_of(entries)),
            ).resumed();
            lemma_enter_dir(second, entries);
            lemma_exchanges_concat(start, first, second, dir_talk(from, to, entries), listed);
            lemma_copy_entries(platform, style, from, to, entries, pending);
            lemma_exchanges_concat(
                start,
                first + dir_talk(from, to, entries),
                listed,
                entries_talk(platform, style, from, to, entries),
                with_pending(platform, style, pending).resumed(),
            );
        },
    }
}

/// Entering a directory queues its entries.
proof fn lemma_enter_dir(start: CopyView, entries: Seq<(Seq<char>, Tree)>)
    requires
        start.stage == CopyStage::MakeDir,
        start.outcome is None,
    ensures
        exchanges(
            start,
            dir_talk(start.from, start.to, entries),
            with_pending(
                start.platform,
                start.style,
                start.pending + queue(
                    start.platform,
                    start.from,
                    start.to,
                    start.skip,
                    names_of(entries),
                ),
            ).resumed(),
        ),
{
    let talk = dir_talk(start.from, start.to, entries);
    let second = start.next(ReplyView::Done);
    let last = talk.drop_first();
    let end = second.next(ReplyView::Listing(names_of(entries)));
    let all = start.pending + queue(
        start.platform,
        start.from,
        start.to,
        start.skip,
        names_of(entries),
    );
    assert(last.drop_first() =~= Seq::empty());
    assert(exchanges(end, last.drop_first(), end));
    assert(exchanges(second, last, end));
    assert(exchanges(start, talk, end));
    assert(end == with_pending(start.platform, start.style, all).resumed());
}

proof fn lemma_copy_entries(
    platform: Platform,
    style: CopyStyle,
    from: Seq<char>,
    to: Seq<char>,
    entries: Seq<(Seq<char>, Tree)>,
    pending: Seq<JobView>,
)
    ensures
        exchanges(
            with_pending(
                platform,
                style,
                pending + queue(platform, from, to, Seq::empty(), names_of(entries)),
            ).resumed(),
            entries_talk(platform, style, from, to, entries),
            with_pending(platform, style, pending).resumed(),
        ),
    decreases entries,
{
    let none: Seq<Seq<char>> = Seq::empty();
    if entries.len() == 0 {
        assert(pending + queue(platform, from, to, none, names_of(entries)) =~= pending);
    } else {
        let name = entries[0].0;
        let rest = entries.drop_first();
        let later = pending + queue(platform, from, to, none, names_of(rest));
        let job = JobView::Entry {
            from: under(platform, from, name),
            to: under(platform, to, name),
        };
        assert(names_of(entries).drop_first() =~= names_of(rest));
        assert(names_of(entries).first() == ListedView::Name(name));
        assert(pending + queue(platform, from, to, none, names_of(entries)) =~= later.push(job));
        assert(later.push(job).drop_last() =~= later);
        lemma_copy_tree(
            platform,
            style,
            under(platform, from, name),
            under(platform, to, name),
            entries[0].1,
            later,
        );
        lemma_copy_entries(platform, style, from, to, rest, pending);
        lemma_exchanges_concat(
            with_pending(platform, style, later.push(job)).resumed(),
            tree_talk(
                platform,
                style,
                under(platform, from, name),
                under(platform, to, name),
                entries[0].1,
            ),
            with_pending(platform, style, later).resumed(),
            entries_talk(platform, style, from, to, rest),
            with_pending(platform, style, pending).resumed(),
        );
    }
}

/// Law: the copy of an update entry copies the whole tree below it and nothing else: where every
/// operation succeeds, it creates each directory and copies each file of the tree, in the order in
/// which they are listed, and succeeds.
pub proof fn law_copy_entry_copies_the_tree(
    platform: Platform,
    from: Seq<char>,
    to: Seq<char>,
    tree: Tree,
) -> (end: CopyView)
    ensures
        exchanges(
            CopyView::of_entry(platform, from, to),
            tree_talk(platform, CopyStyle::Update, from, to, tree),
            end,
        ),
        end.outcome == Some(Ok::<(), Seq<char>>(())),
{
    lemma_copy_tree(platform, CopyStyle::Update, from, to, tree, Seq::empty());
    with_pending(platform, CopyStyle::Update, Seq::empty()).resumed()
}

/// The entries of a directory but for those with some names.
pub open spec fn without(
    entries: Seq<(Seq<char>, Tree)>,
    skip: Seq<Seq<char>>,
) -> Seq<(Seq<char>, Tree)>
    decreases entries.len(),
{
    if entries.len() == 0 {
        Seq::empty()
    } else if skip.contains(entries[0].0) {
        without(entries.drop_first(), skip)
    } else {
        seq![entries[0]] + without(entries.drop_first(), skip)
    }
}

proof fn lemma_queue_without(
    platform: Platform,
    from: Seq<char>,
    to: Seq<char>,
    skip: Seq<Seq<char>>,
    entries: Seq<(Seq<char>, Tree)>,
)
    ensures
        queue(platform, from, to, skip, names_of(entries)) == queue(
            platform,
            from,
            to,
            Seq::empty(),
            names_of(without(entries, skip)),
        ),
    decreases entries.len(),
{
    if entries.len() > 0 {
        let rest = entries.drop_first();
        lemma_queue_without(platform, from, to, skip, rest);
        assert(names_of(entries).drop_first() =~= names_of(rest));
        assert(names_of(entries).first() == ListedView::Name(entries[0].0));
        if !skip.contains(entries[0].0) {
            let kept = without(entries, skip);
            assert(kept.drop_first() =~= without(rest, skip));
            assert(names_of(kept).drop_first() =~= names_of(without(rest, skip)));
            assert(names_of(kept).first() == ListedView::Name(entries[0].0));
        }
    }
}

/// Law: the copy of what a directory holds copies every entry but those to be skipped, each with the
/// whole tree below it, and nothing else; where every operation succeeds, so does the copy.
pub proof fn law_copy_dir_contents_copies_all_but_the_skipped(
    platform: Platform,
    from: Seq<char>,
    to: Seq<char>,
    skip: Seq<Seq<char>>,
    entries: Seq<(Seq<char>, Tree)>,
) -> (end: CopyView)
    ensures
        exchanges(
            CopyView::of_contents(platform, from, to, skip),
            dir_talk(from, to, entries) + entries_talk(
                platform,
                CopyStyle::Plain,
                from,
                to,
                without(entries, skip),
            ),
            end,
        ),
        end.outcome == Some(Ok::<(), Seq<char>>(())),
{
    let start = CopyView::of_contents(platform, from, to, skip);
    let kept = without(entries, skip);
    let none: Seq<Seq<char>> = Seq::empty();
    let end = with_pending(platform, CopyStyle::Plain, Seq::empty()).resumed();
    lemma_enter_dir(start, entries);
    lemma_queue_without(platform, from, to, skip, entries);
    lemma_copy_entries(platform, CopyStyle::Plain, from, to, kept, Seq::empty());
    lemma_exchanges_concat(
        start,
        dir_talk(from, to, entries),
        with_pending(
            platform,
            CopyStyle::Plain,
            start.pending + queue(platform, from, to, none, names_of(kept)),
        ).resumed(),
        entries_talk(platform, CopyStyle::Plain, from, to, kept),
        end,
    );
    end
}

/// The request for the copy of the file that some names lead to.
pub open spec fn copy_of(
    platform: Platform,
    from: Seq<char>,
    to: Seq<char>,
    names: Seq<Seq<char>>,
) -> RequestView {
    RequestView::CopyFile {
        from: descend(platform, from, names),
        to: descend(platform, to, names),
    }
}

proof fn lemma_file_is_copied(
    platform: Platform,
    style: CopyStyle,
    from: Seq<char>,
    to: Seq<char>,
    tree: Tree,
    names: Seq<Seq<char>>,
)
    requires
        has_file(tree, names),
    ensures
        asks(tree_talk(platform, style, from, to, tree), copy_of(platform, from, to, names)),
    decreases tree, 1int,
{
    let wanted = copy_of(platform, from, to, names);
    match tree {
        Tree::File => {
            let talk = tree_talk(platform, style, from, to, tree);
            assert(talk[talk.len() - 1].request == wanted);
        },
        Tree::Dir(entries) => {
            let i = choose|i: int|
                0 <= i < entries.len() && (#[trigger] entries[i]).0 == names[0] && has_file(
                    entries[i].1,
                    names.drop_first(),
                );
            lemma_entry_is_copied(platform, style, from, to, entries, i, names);
            let first = seq![
                Exchange { request: RequestView::IsDir(from), reply: ReplyView::Flag(true) },
            ];
            lemma_asks_concat(
                first + dir_talk(from, to, entries),
                entries_talk(platform, style, from, to, entries),
                wanted,
            );
        },
    }
}

proof fn lemma_entry_is_copied(
    platform: Platform,
    style: CopyStyle,
    from: Seq<char>,
    to: Seq<char>,
    entries: Seq<(Seq<char>, Tree)>,
    i: int,
    names: Seq<Seq<char>>,
)
    requires
        0 <= i < entries.len(),
        names.len() > 0,
        entries[i].0 == names[0],
        has_file(entries[i].1, names.drop_first()),
    ensures
        asks(
            entries_talk(platform, style, from, to, entries),
            copy_of(platform, from, to, names),
        ),
    decreases entries, 0int,
{
    let wanted = copy_of(platform, from, to, names);
    let rest = entries.drop_first();
    let name = entries[0].0;
    let head = tree_talk(
        platform,
        style,
        under(platform, from, name),
        under(platform, to, name),
        entries[0].1,
    );
    lemma_asks_concat(head, entries_talk(platform, style, from, to, rest), wanted);
    if i == 0 {
        lemma_file_is_copied(
            platform,
            style,
            under(platform, from, name),
            under(platform, to, name),
            entries[0].1,
            names.drop_first(),
        );
        lemma_descend_first(platform, from, names);
        lemma_descend_first(platform, to, names);
    } else {
        assert(rest[i - 1] == entries[i]);
        lemma_entry_is_copied(platform, style, from, to, rest, i - 1, names);
    }
}

proof fn lemma_copy_is_of_a_file(
    platform: Platform,
    style: CopyStyle,
    from: Seq<char>,
    to: Seq<char>,
    tree: Tree,
    request: RequestView,
) -> (names: Seq<Seq<char>>)
    requires
        request is CopyFile,
        asks(tree_talk(platform, style, from, to, tree), request),
    ensures
        has_file(tree, names),
        request == copy_of(platform, from, to, names),
    decreases tree, 1int,
{
    match tree {
        Tree::File => {
            let talk = tree_talk(platform, style, from, to, tree);
            let k = choose|k: int| 0 <= k < talk.len() && (#[trigger] talk[k]).request == request;
            assert(request == RequestView::CopyFile { from, to });
            Seq::empty()
        },
        Tree::Dir(entries) => {
            let first = seq![
                Exchange { request: RequestView::IsDir(from), reply: ReplyView::Flag(true) },
            ];
            let front = first + dir_talk(from, to, entries);
            lemma_asks_concat(front, entries_talk(platform, style, from, to, entries), request);
            if asks(front, request) {
                let k = choose|k: int|
                    0 <= k < front.len() && (#[trigger] front[k]).request == request;
                assert(k == 0 || k == 1 || k == 2);
                assert(false);
            }
            let (i, names) = lemma_copy_is_of_an_entry(platform, style, from, to, entries, request);
            assert(entries[i].0 == names[0]);
            names
        },
    }
}

proof fn lemma_copy_is_of_an_entry(
    platform: Platform,
    style: CopyStyle,
    from: Seq<char>,
    to: Seq<char>,
    entries: Seq<(Seq<char>, Tree)>,
    request: RequestView,
) -> (res: (int, Seq<Seq<char>>))
    requires
        request is CopyFile,
        asks(entries_talk(platform, style, from, to, entries), request),
    ensures
        0 <= res.0 < entries.len(),
        res.1.len() > 0,
        entries[res.0].0 == res.1[0],
        has_file(entries[res.0].1, res.1.drop_first()),
        request == copy_of(platform, from, to, res.1),
    decreases entries, 0int,
{
    let rest = entries.drop_first();
    let name = entries[0].0;
    let head = tree_talk(
        platform,
        style,
        under(platform, from, name),
        under(platform, to, name),
        entries[0].1,
    );
    lemma_asks_concat(head, entries_talk(platform, style, from, to, rest), request);
    if asks(head, request) {
        let below = lemma_copy_is_of_a_file(
            platform,
            style,
            under(platform, from, name),
            under(platform, to, name),
            entries[0].1,
            request,
        );
        let names = seq![name] + below;
        assert(names.drop_first() =~= below);
        lemma_descend_first(platform, from, names);
        lemma_descend_first(platform, to, names);
        (0, names)
    } else {
        let (i, names) = lemma_copy_is_of_an_entry(platform, style, from, to, rest, request);
        assert(rest[i] == entries[i + 1]);
        (i + 1, names)
    }
}

/// Law: the files that are copied with a tree are just the files of the tree, each to the place below
/// the destination that it has below the source.
pub proof fn law_copied_files_are_the_files_of_the_tree(
    platform: Platform,
    style: CopyStyle,
    from: Seq<char>,
    to: Seq<char>,
    tree: Tree,
)
    ensures
        forall|names: Seq<Seq<char>>| #[trigger]
            has_file(tree, names) ==> asks(
                tree_talk(platform, style, from, to, tree),
                copy_of(platform, from, to, names),
            ),
        forall|request: RequestView|
            request is CopyFile && #[trigger] asks(
                tree_talk(platform, style, from, to, tree),
                request,
            ) ==> exists|names: Seq<Seq<char>>|
                #[trigger] has_file(tree, names) && request == copy_of(platform, from, to, names),
{
    assert forall|names: Seq<Seq<char>>| #[trigger] has_file(tree, names) implies asks(
        tree_talk(platform, style, from, to, tree),
        copy_of(platform, from, to, names),
    ) by {
        lemma_file_is_copied(platform, style, from, to, tree, names);
    }
    assert forall|request: RequestView|
        request is CopyFile && #[trigger] asks(
            tree_talk(platform, style, from, to, tree),
            request,
        ) implies exists|names: Seq<Seq<char>>|
        #[trigger] has_file(tree, names) && request == copy_of(platform, from, to, names) by {
        let names = lemma_copy_is_of_a_file(platform, style, from, to, tree, request);
        assert(has_file(tree, names));
    }
}

} // verus!
