//! What an extraction asks for, from its first step to its last.

use vstd::prelude::*;
use crate::archive::{
    kind_of, ArchiveKind, ArchiveReplyView, ArchiveRequestView, ExtractStage, ExtractView,
};
use crate::path::{parent_of, under, Platform};
use crate::run::{after, history, runs, Procedure};
use crate::text::decimal;
use crate::text_laws::law_prefixes_and_suffixes_come_off;

verus! {

impl Procedure<ArchiveRequestView, ArchiveReplyView> for ExtractView {
    open spec fn asks(self) -> Option<ArchiveRequestView> {
        self.request()
    }

    open spec fn takes(self, reply: ArchiveReplyView) -> bool {
        self.accepts(reply)
    }

    open spec fn told(self, reply: ArchiveReplyView) -> ExtractView {
        self.next(reply)
    }
}

/// Whether an extraction has failed with a message.
pub open spec fn failed(extraction: ExtractView, message: Seq<char>) -> bool {
    &&& extraction.request() is None
    &&& extraction.outcome == Some(Err::<(), Seq<char>>(message))
}

/// Whether an extraction has come to an entry: it asks what the entry is, or has succeeded where there
/// is no such entry.
pub open spec fn reaches(extraction: ExtractView, i: int, count: int) -> bool {
    if i < count {
        &&& extraction.request() matches Some(ArchiveRequestView::ReadEntry(at)) && at == i
        &&& extraction.outcome is None
    } else {
        &&& extraction.request() is None
        &&& extraction.outcome == Some(Ok::<(), Seq<char>>(()))
    }
}

/// Law: a package is a compressed tar archive just where its name in lower case ends with `.tar.gz` or
/// `.tgz`.
pub proof fn law_names_tell_the_format(lowered: Seq<char>)
    ensures
        kind_of(lowered) == ArchiveKind::TarGz || kind_of(lowered) == ArchiveKind::Zip,
        kind_of(lowered) == ArchiveKind::TarGz <==> {
            ||| exists|stem: Seq<char>| lowered == #[trigger] (stem + ".tar.gz"@)
            ||| exists|stem: Seq<char>| lowered == #[trigger] (stem + ".tgz"@)
        },
{
    law_prefixes_and_suffixes_come_off(lowered, ".tar.gz"@);
    law_prefixes_and_suffixes_come_off(lowered, ".tgz"@);
}

/// Law: a ZIP archive is opened, its directory is read, the directory that it goes to is created, and then
/// the first entry is read; what fails ends the extraction with a report.
pub proof fn law_zip_archives_are_opened_in_turn(
    platform: Platform,
    archive: Seq<char>,
    dest_dir: Seq<char>,
    count: usize,
    e: Seq<char>,
)
    ensures
        ({
            let start = ExtractView::start(platform, ArchiveKind::Zip, archive, dest_dir);
            let opened = start.next(ArchiveReplyView::Done);
            let parsed = opened.next(ArchiveReplyView::Entries(count));
            let created = parsed.next(ArchiveReplyView::Done);
            &&& start.request() == Some(ArchiveRequestView::Open(archive))
            &&& failed(
                start.next(ArchiveReplyView::Failed(e)),
                "无法打开 ZIP 文件 ["@ + archive + "]: "@ + e,
            )
            &&& opened.request() == Some(ArchiveRequestView::Parse)
            &&& failed(opened.next(ArchiveReplyView::Failed(e)), "无法解析 ZIP 文件: "@ + e)
            &&& parsed.request() == Some(ArchiveRequestView::CreateDirAll(dest_dir))
            &&& failed(
                parsed.next(ArchiveReplyView::Failed(e)),
                "无法创建目录 ["@ + dest_dir + "]: "@ + e,
            )
            &&& reaches(created, 0, count as int)
            &&& created.count == count && created.dest_dir == dest_dir && created.platform
                == platform
        }),
{
}

/// Law: a compressed tar archive is opened, the directory that it goes to is created, and the archive is
/// unpacked into it as a whole; what fails ends the extraction with a report.
pub proof fn law_tar_archives_are_unpacked_as_a_whole(
    platform: Platform,
    archive: Seq<char>,
    dest_dir: Seq<char>,
    e: Seq<char>,
)
    ensures
        ({
            let start = ExtractView::start(platform, ArchiveKind::TarGz, archive, dest_dir);
            let opened = start.next(ArchiveReplyView::Done);
            let created = opened.next(ArchiveReplyView::Done);
            let unpacked = created.next(ArchiveReplyView::Done);
            &&& start.request() == Some(ArchiveRequestView::Open(archive))
            &&& failed(
                start.next(ArchiveReplyView::Failed(e)),
                "无法打开 tar.gz 文件 ["@ + archive + "]: "@ + e,
            )
            &&& opened.request() == Some(ArchiveRequestView::CreateDirAll(dest_dir))
            &&& failed(
                opened.next(ArchiveReplyView::Failed(e)),
                "无法创建目录 ["@ + dest_dir + "]: "@ + e,
            )
            &&& created.request() == Some(ArchiveRequestView::Unpack(dest_dir))
            &&& failed(created.next(ArchiveReplyView::Failed(e)), "解压 tar.gz 失败: "@ + e)
            &&& unpacked.request() is None
            &&& unpacked.outcome == Some(Ok::<(), Seq<char>>(()))
        }),
{
}

/// Law: an entry whose name leads out of the directory is passed over, and the next entry is read; one that
/// cannot be read ends the extraction with a report.
pub proof fn law_entries_without_a_place_are_passed_over(
    extraction: ExtractView,
    i: usize,
    name: Seq<char>,
    e: Seq<char>,
)
    requires
        extraction.well_formed(),
        extraction.request() == Some(ArchiveRequestView::ReadEntry(i)),
    ensures
        ({
            let read = extraction.next(ArchiveReplyView::Entry { name, enclosed: None });
            &&& reaches(read, i + 1, extraction.count as int)
            &&& read.count == extraction.count && read.dest_dir == extraction.dest_dir
                && read.platform == extraction.platform
        }),
        failed(
            extraction.next(ArchiveReplyView::Failed(e)),
            "无法读取 ZIP 条目 "@ + decimal(i as nat) + ": "@ + e,
        ),
{
}

/// Law: an entry whose name ends with `/` is a directory, which is created below the directory that is
/// extracted to; then the next entry is read.
pub proof fn law_directories_are_created(
    extraction: ExtractView,
    i: usize,
    stem: Seq<char>,
    path: Seq<char>,
    e: Seq<char>,
)
    requires
        extraction.well_formed(),
        extraction.request() == Some(ArchiveRequestView::ReadEntry(i)),
    ensures
        ({
            let name = stem + seq!['/'];
            let out = under(extraction.platform, extraction.dest_dir, path);
            let read = extraction.next(ArchiveReplyView::Entry { name, enclosed: Some(path) });
            let made = read.next(ArchiveReplyView::Done);
            &&& read.request() == Some(ArchiveRequestView::CreateDirAll(out))
            &&& read.outcome is None
            &&& reaches(made, i + 1, extraction.count as int)
            &&& made.count == extraction.count && made.dest_dir == extraction.dest_dir
                && made.platform == extraction.platform
            &&& failed(
                read.next(ArchiveReplyView::Failed(e)),
                "无法创建目录 ["@ + out + "]: "@ + e,
            )
        }),
{
    assert((stem + seq!['/']).last() == '/');
}

/// Law: any other entry is a file. The directory that it lies in is looked for and created where it is not
/// there, the file is created and written, and then the next entry is read.
pub proof fn law_files_are_written(
    extraction: ExtractView,
    i: usize,
    name: Seq<char>,
    path: Seq<char>,
    e: Seq<char>,
)
    requires
        extraction.well_formed(),
        extraction.request() == Some(ArchiveRequestView::ReadEntry(i)),
        name.len() == 0 || name.last() != '/',
    ensures
        ({
            let out = under(extraction.platform, extraction.dest_dir, path);
            let read = extraction.next(ArchiveReplyView::Entry { name, enclosed: Some(path) });
            let missing = read.next(ArchiveReplyView::Flag(false));
            let ready = match parent_of(extraction.platform, out) {
                Some(_) => read.next(ArchiveReplyView::Flag(true)),
                None => read,
            };
            let created = ready.next(ArchiveReplyView::Done);
            let written = created.next(ArchiveReplyView::Done);
            &&& parent_of(extraction.platform, out) matches Some(parent) ==> {
                &&& read.request() == Some(ArchiveRequestView::Exists(parent))
                &&& missing.request() == Some(ArchiveRequestView::CreateDirAll(parent))
                &&& missing.next(ArchiveReplyView::Done) == ready
                &&& failed(
                    missing.next(ArchiveReplyView::Failed(e)),
                    "无法创建父目录 ["@ + parent + "]: "@ + e,
                )
                &&& read.outcome is None && missing.outcome is None
            }
            &&& ready.request() == Some(ArchiveRequestView::CreateFile(out))
            &&& ready.outcome is None
            &&& failed(
                ready.next(ArchiveReplyView::Failed(e)),
                "无法创建文件 ["@ + out + "]: "@ + e,
            )
            &&& created.request() == Some(ArchiveRequestView::WriteEntry { index: i, path: out })
            &&& created.outcome is None
            &&& failed(
                created.next(ArchiveReplyView::Failed(e)),
                "无法写入文件 ["@ + out + "]: "@ + e,
            )
            &&& reaches(written, i + 1, extraction.count as int)
            &&& written.count == extraction.count && written.dest_dir == extraction.dest_dir
                && written.platform == extraction.platform
        }),
{
}

/// Whether an entry was read and, where it has a place, was created as a directory or written as a file.
pub open spec fn extracted(
    asked: Seq<(ArchiveRequestView, ArchiveReplyView)>,
    platform: Platform,
    dest_dir: Seq<char>,
    i: usize,
) -> bool {
    exists|k: int|
        {
            &&& 0 <= k < asked.len()
            &&& (#[trigger] asked[k]).0 == ArchiveRequestView::ReadEntry(i)
            &&& asked[k].1 is Entry
            &&& asked[k].1->enclosed matches Some(path) ==> {
                let name = asked[k].1->name;
                let out = under(platform, dest_dir, path);
                if name.len() > 0 && name.last() == '/' {
                    asked.contains((ArchiveRequestView::CreateDirAll(out), ArchiveReplyView::Done))
                } else {
                    &&& asked.contains((ArchiveRequestView::CreateFile(out), ArchiveReplyView::Done))
                    &&& asked.contains(
                        (
                            ArchiveRequestView::WriteEntry { index: i, path: out },
                            ArchiveReplyView::Done,
                        ),
                    )
                }
            }
        }
}

spec fn first_extracted(
    extraction: ExtractView,
    asked: Seq<(ArchiveRequestView, ArchiveReplyView)>,
    n: int,
) -> bool {
    forall|j: usize|
        j < n ==> #[trigger] extracted(asked, extraction.platform, extraction.dest_dir, j)
}

/// Whether an entry was just read, and goes where the extraction puts it.
spec fn was_read(
    extraction: ExtractView,
    asked: Seq<(ArchiveRequestView, ArchiveReplyView)>,
    i: usize,
    as_dir: bool,
) -> bool {
    exists|k: int|
        {
            &&& 0 <= k < asked.len()
            &&& (#[trigger] asked[k]).0 == ArchiveRequestView::ReadEntry(i)
            &&& asked[k].1 is Entry
            &&& asked[k].1->enclosed is Some
            &&& extraction.outpath == under(
                extraction.platform,
                extraction.dest_dir,
                asked[k].1->enclosed->Some_0,
            )
            &&& as_dir == (asked[k].1->name.len() > 0 && asked[k].1->name.last() == '/')
        }
}

spec fn on_the_way(
    extraction: ExtractView,
    asked: Seq<(ArchiveRequestView, ArchiveReplyView)>,
) -> bool {
    &&& extraction.well_formed()
    &&& extraction.kind == ArchiveKind::Zip
    &&& match extraction.stage {
        ExtractStage::Open => asked.len() == 0,
        ExtractStage::Parse => asked.len() == 1,
        _ => extraction.outcome is Some && extraction.outcome->Some_0 is Err || {
            &&& asked.len() >= 2
            &&& asked[1].1 == ArchiveReplyView::Entries(extraction.count)
        },
    }
    &&& match extraction.stage {
        ExtractStage::ReadEntry(i) => first_extracted(extraction, asked, i as int),
        ExtractStage::MakeDir(i) => first_extracted(extraction, asked, i as int) && was_read(
            extraction,
            asked,
            i,
            true,
        ),
        ExtractStage::ProbeParent(i) | ExtractStage::MakeParent(i) | ExtractStage::CreateFile(i) =>
        first_extracted(extraction, asked, i as int) && was_read(extraction, asked, i, false),
        ExtractStage::WriteEntry(i) => first_extracted(extraction, asked, i as int) && was_read(
            extraction,
            asked,
            i,
            false,
        ) && asked.contains(
            (ArchiveRequestView::CreateFile(extraction.outpath), ArchiveReplyView::Done),
        ),
        ExtractStage::Finished => extraction.outcome == Some(Ok::<(), Seq<char>>(()))
            ==> first_extracted(extraction, asked, extraction.count as int),
        ExtractStage::Unpack => false,
        _ => true,
    }
}

proof fn lemma_contains_push<A>(list: Seq<A>, more: A, item: A)
    requires
        list.contains(item) || more == item,
    ensures
        list.push(more).contains(item),
{
    if list.contains(item) {
        let k = choose|k: int| 0 <= k < list.len() && list[k] == item;
        assert(list.push(more)[k] == item);
    } else {
        assert(list.push(more)[list.len() as int] == item);
    }
}

proof fn lemma_extracted_stays(
    asked: Seq<(ArchiveRequestView, ArchiveReplyView)>,
    more: (ArchiveRequestView, ArchiveReplyView),
    platform: Platform,
    dest_dir: Seq<char>,
    i: usize,
)
    requires
        extracted(asked, platform, dest_dir, i),
    ensures
        extracted(asked.push(more), platform, dest_dir, i),
{
    let k = choose|k: int|
        {
            &&& 0 <= k < asked.len()
            &&& (#[trigger] asked[k]).0 == ArchiveRequestView::ReadEntry(i)
            &&& asked[k].1 is Entry
            &&& asked[k].1->enclosed matches Some(path) ==> {
                let name = asked[k].1->name;
                let out = under(platform, dest_dir, path);
                if name.len() > 0 && name.last() == '/' {
                    asked.contains((ArchiveRequestView::CreateDirAll(out), ArchiveReplyView::Done))
                } else {
                    &&& asked.contains((ArchiveRequestView::CreateFile(out), ArchiveReplyView::Done))
                    &&& asked.contains(
                        (
                            ArchiveRequestView::WriteEntry { index: i, path: out },
                            ArchiveReplyView::Done,
                        ),
                    )
                }
            }
        };
    assert(asked.push(more)[k] == asked[k]);
    if let Some(path) = asked[k].1->enclosed {
        let out = under(platform, dest_dir, path);
        let name = asked[k].1->name;
        if name.len() > 0 && name.last() == '/' {
            lemma_contains_push(
                asked,
                more,
                (ArchiveRequestView::CreateDirAll(out), ArchiveReplyView::Done),
            );
        } else {
            lemma_contains_push(
                asked,
                more,
                (ArchiveRequestView::CreateFile(out), ArchiveReplyView::Done),
            );
            lemma_contains_push(
                asked,
                more,
                (
                    ArchiveRequestView::WriteEntry { index: i, path: out },
                    ArchiveReplyView::Done,
                ),
            );
        }
    }
}

proof fn lemma_extraction_run(start: ExtractView, replies: Seq<ArchiveReplyView>)
    requires
        start == ExtractView::start(
            start.platform,
            ArchiveKind::Zip,
            start.archive,
            start.dest_dir,
        ),
        runs(start, replies),
    ensures
        ({
            let now = after(start, replies);
            &&& now.platform == start.platform
            &&& now.dest_dir == start.dest_dir
            &&& on_the_way(now, history(start, replies))
        }),
    decreases replies.len(),
{
    if replies.len() > 0 {
        let front = replies.drop_last();
        lemma_extraction_run(start, front);
        let a = after(start, front);
        let b = after(start, replies);
        let before = history(start, front);
        let asked = history(start, replies);
        let reply = replies.last();
        let more = (a.request()->Some_0, reply);
        let n = before.len() as int;
        assert(asked == before.push(more));
        assert(b == a.next(reply));
        assert(asked[n] == more);
        if n >= 2 {
            assert(asked[1] == before[1]);
        }
        assert forall|j: usize|
            extracted(before, a.platform, a.dest_dir, j) implies #[trigger] extracted(
            asked,
            a.platform,
            a.dest_dir,
            j,
        ) by {
            lemma_extracted_stays(before, more, a.platform, a.dest_dir, j);
        }
        match a.stage {
            ExtractStage::ReadEntry(i) => {
                assert(first_extracted(a, asked, i as int));
                if let ArchiveReplyView::Entry { name, enclosed } = reply {
                    assert(asked[n].0 == ArchiveRequestView::ReadEntry(i));
                    if let Some(path) = enclosed {
                        assert(was_read(b, asked, i, name.len() > 0 && name.last() == '/'));
                    } else {
                        assert(extracted(asked, a.platform, a.dest_dir, i));
                        assert(first_extracted(b, asked, i + 1));
                    }
                }
            },
            ExtractStage::MakeDir(i) => {
                assert(first_extracted(a, asked, i as int));
                let k = choose|k: int|
                    {
                        &&& 0 <= k < before.len()
                        &&& (#[trigger] before[k]).0 == ArchiveRequestView::ReadEntry(i)
                        &&& before[k].1 is Entry
                        &&& before[k].1->enclosed is Some
                        &&& a.outpath == under(
                            a.platform,
                            a.dest_dir,
                            before[k].1->enclosed->Some_0,
                        )
                        &&& before[k].1->name.len() > 0 && before[k].1->name.last() == '/'
                    };
                assert(asked[k] == before[k]);
                if reply == ArchiveReplyView::Done {
                    lemma_contains_push(before, more, more);
                    assert(extracted(asked, a.platform, a.dest_dir, i));
                    assert(first_extracted(b, asked, i + 1));
                }
            },
            ExtractStage::ProbeParent(i)
            | ExtractStage::MakeParent(i)
            | ExtractStage::CreateFile(i)
            | ExtractStage::WriteEntry(i) => {
                assert(first_extracted(a, asked, i as int));
                let k = choose|k: int|
                    {
                        &&& 0 <= k < before.len()
                        &&& (#[trigger] before[k]).0 == ArchiveRequestView::ReadEntry(i)
                        &&& before[k].1 is Entry
                        &&& before[k].1->enclosed is Some
                        &&& a.outpath == under(
                            a.platform,
                            a.dest_dir,
                            before[k].1->enclosed->Some_0,
                        )
                        &&& !(before[k].1->name.len() > 0 && before[k].1->name.last() == '/')
                    };
                assert(asked[k] == before[k]);
                assert(was_read(a, asked, i, false));
                if reply == ArchiveReplyView::Done {
                    lemma_contains_push(before, more, more);
                    if a.stage == ExtractStage::WriteEntry(i) {
                        lemma_contains_push(
                            before,
                            more,
                            (ArchiveRequestView::CreateFile(a.outpath), ArchiveReplyView::Done),
                        );
                        assert(extracted(asked, a.platform, a.dest_dir, i));
                        assert(first_extracted(b, asked, i + 1));
                    }
                }
            },
            _ => {},
        }
    }
}

/// Law: an extraction of a ZIP archive that succeeds was told of some number of entries, and has dealt with
/// every one of them: it has asked what the entry is and, where the name does not lead out of the
/// directory, has created the directory or has created and written the file that it stands for.
pub proof fn law_success_leaves_no_entry_out(
    platform: Platform,
    archive: Seq<char>,
    dest_dir: Seq<char>,
    replies: Seq<ArchiveReplyView>,
)
    requires
        runs(ExtractView::start(platform, ArchiveKind::Zip, archive, dest_dir), replies),
        after(ExtractView::start(platform, ArchiveKind::Zip, archive, dest_dir), replies).outcome
            == Some(Ok::<(), Seq<char>>(())),
    ensures
        ({
            let asked = history(
                ExtractView::start(platform, ArchiveKind::Zip, archive, dest_dir),
                replies,
            );
            &&& asked.len() >= 2 && asked[1].1 is Entries
            &&& forall|i: usize|
                i < asked[1].1->Entries_0 ==> #[trigger] extracted(asked, platform, dest_dir, i)
        }),
{
    lemma_extraction_run(
        ExtractView::start(platform, ArchiveKind::Zip, archive, dest_dir),
        replies,
    );
}

} // verus!
