//! The manifest of an incremental update: how its paths are read and checked against each other.

use vstd::prelude::*;
use crate::order::{sort_paths, sorted};
use crate::path::{
    key_of, lemma_paths_push, normalize_relative_path, normalized, path_key, paths, PathFault,
    Platform, RelativePath,
};
use crate::text::{clone_texts, has_prefix, same_text, starts_with, texts};

verus! {

/// What `changes.json` declares: paths that are new, that changed, and that are gone.
#[derive(Debug)]
pub struct ChangesJson {
    pub added: Vec<String>,
    pub modified: Vec<String>,
    pub deleted: Vec<String>,
}

/// What a [`ChangesJson`] holds.
#[verifier::ext_equal]
pub struct ChangesView {
    pub added: Seq<Seq<char>>,
    pub modified: Seq<Seq<char>>,
    pub deleted: Seq<Seq<char>>,
}

impl View for ChangesJson {
    type V = ChangesView;

    open spec fn view(&self) -> ChangesView {
        ChangesView {
            added: texts(self.added@),
            modified: texts(self.modified@),
            deleted: texts(self.deleted@),
        }
    }
}

impl Clone for ChangesJson {
    fn clone(&self) -> (res: ChangesJson)
        ensures
            res@ == self@,
    {
        ChangesJson {
            added: clone_texts(&self.added),
            modified: clone_texts(&self.modified),
            deleted: clone_texts(&self.deleted),
        }
    }
}

/// The list of the manifest that a path stands in.
#[derive(Clone, Copy, Debug, PartialEq, Eq, Structural)]
pub enum Classification {
    Added,
    Modified,
    Deleted,
}

impl Classification {
    /// The name of the list.
    pub open spec fn name(self) -> Seq<char> {
        match self {
            Classification::Added => "added"@,
            Classification::Modified => "modified"@,
            Classification::Deleted => "deleted"@,
        }
    }

    /// The name of the list.
    pub fn label(self) -> (res: &'static str)
        ensures
            res@ == self.name(),
    {
        match self {
            Classification::Added => "added",
            Classification::Modified => "modified",
            Classification::Deleted => "deleted",
        }
    }
}

/// The key of a declared path and the list it stands in.
#[derive(Debug)]
pub struct Classified {
    pub key: String,
    pub class: Classification,
}

impl View for Classified {
    type V = (Seq<char>, Classification);

    open spec fn view(&self) -> (Seq<char>, Classification) {
        (self.key@, self.class)
    }
}

/// The keys and lists that a sequence of declared paths holds.
pub open spec fn classes(list: Seq<Classified>) -> Seq<(Seq<char>, Classification)> {
    list.map_values(|c: Classified| c@)
}

/// Why the manifest is refused.
#[derive(Debug)]
pub enum ChangesError {
    /// A declared path cannot be used.
    Path { fault: PathFault, raw: String },
    /// A list declares the same path twice.
    Repeated { class: Classification, raw: String },
    /// Two lists declare the same path.
    Reclassified { previous: Classification, class: Classification, raw: String },
    /// One declared path lies below another.
    Overlapping { left: Classified, right: Classified },
}

/// What a [`ChangesError`] holds.
pub enum ChangesErrorView {
    Path { fault: PathFault, raw: Seq<char> },
    Repeated { class: Classification, raw: Seq<char> },
    Reclassified { previous: Classification, class: Classification, raw: Seq<char> },
    Overlapping { left: (Seq<char>, Classification), right: (Seq<char>, Classification) },
}

impl View for ChangesError {
    type V = ChangesErrorView;

    open spec fn view(&self) -> ChangesErrorView {
        match self {
            ChangesError::Path { fault, raw } => ChangesErrorView::Path { fault: *fault, raw: raw@ },
            ChangesError::Repeated { class, raw } => ChangesErrorView::Repeated {
                class: *class,
                raw: raw@,
            },
            ChangesError::Reclassified { previous, class, raw } => ChangesErrorView::Reclassified {
                previous: *previous,
                class: *class,
                raw: raw@,
            },
            ChangesError::Overlapping { left, right } => ChangesErrorView::Overlapping {
                left: left@,
                right: right@,
            },
        }
    }
}

impl ChangesErrorView {
    /// The text that reports the error.
    pub open spec fn text(self) -> Seq<char> {
        match self {
            ChangesErrorView::Path { fault: PathFault::Illegal, raw } => "changes.json 包含非法相对路径: ["@ + raw
                + "]"@,
            ChangesErrorView::Path { fault: PathFault::Escapes, raw } => "changes.json 路径越过更新根目录: ["@ + raw
                + "]"@,
            ChangesErrorView::Path { fault: PathFault::Reserved, raw } => "changes.json 包含保留路径: ["@ + raw
                + "]"@,
            ChangesErrorView::Repeated { class, raw } => "changes.json 的 "@ + class.name()
                + " 包含重复路径: ["@ + raw + "]"@,
            ChangesErrorView::Reclassified { previous, class, raw } => "changes.json 路径同时属于 "@
                + previous.name() + " 和 "@ + class.name() + ": ["@ + raw + "]"@,
            ChangesErrorView::Overlapping { left, right } => "changes.json 包含相互重叠的路径: "@
                + left.1.name() + " ["@ + left.0 + "] 与 "@ + right.1.name() + " ["@ + right.0
                + "]"@,
        }
    }
}

impl ChangesError {
    /// The text that reports the error.
    pub fn message(&self) -> (res: String)
        ensures
            res@ == self@.text(),
    {
        let mut res = String::new();
        match self {
            ChangesError::Path { fault, raw } => {
                res =
                match fault {
                    PathFault::Illegal => "changes.json 包含非法相对路径: [".to_owned(),
                    PathFault::Escapes => "changes.json 路径越过更新根目录: [".to_owned(),
                    PathFault::Reserved => "changes.json 包含保留路径: [".to_owned(),
                };
                res.append(raw.as_str());
            },
            ChangesError::Repeated { class, raw } => {
                res = "changes.json 的 ".to_owned();
                res.append(class.label());
                res.append(" 包含重复路径: [");
                res.append(raw.as_str());
            },
            ChangesError::Reclassified { previous, class, raw } => {
                res = "changes.json 路径同时属于 ".to_owned();
                res.append(previous.label());
                res.append(" 和 ");
                res.append(class.label());
                res.append(": [");
                res.append(raw.as_str());
            },
            ChangesError::Overlapping { left, right } => {
                res = "changes.json 包含相互重叠的路径: ".to_owned();
                res.append(left.class.label());
                res.append(" [");
                res.append(left.key.as_str());
                res.append("] 与 ");
                res.append(right.class.label());
                res.append(" [");
                res.append(right.key.as_str());
            },
        }
        res.append("]");
        res
    }
}

/// The keys of some paths.
pub open spec fn keys(platform: Platform, list: Seq<Seq<Seq<char>>>) -> Seq<Seq<char>> {
    list.map_values(|p: Seq<Seq<char>>| key_of(platform, p))
}

/// The list in which a key was declared first.
pub open spec fn class_of(
    declared: Seq<(Seq<char>, Classification)>,
    key: Seq<char>,
) -> Option<Classification>
    decreases declared.len(),
{
    if declared.len() == 0 {
        None
    } else if class_of(declared.drop_last(), key) is Some {
        class_of(declared.drop_last(), key)
    } else if declared.last().0 == key {
        Some(declared.last().1)
    } else {
        None
    }
}

/// The paths that one list declares, in its order, where `earlier` lists declared some already; or
/// the first error in the list.
pub open spec fn read_list(
    platform: Platform,
    class: Classification,
    raw: Seq<Seq<char>>,
    earlier: Seq<(Seq<char>, Classification)>,
) -> Result<Seq<Seq<Seq<char>>>, ChangesErrorView>
    decreases raw.len(),
{
    if raw.len() == 0 {
        Ok(Seq::empty())
    } else {
        match read_list(platform, class, raw.drop_last(), earlier) {
            Err(error) => Err(error),
            Ok(before) => match normalized(platform, raw.last()) {
                Err(fault) => Err(ChangesErrorView::Path { fault, raw: raw.last() }),
                Ok(path) => {
                    let key = key_of(platform, path);
                    if keys(platform, before).contains(key) {
                        Err(ChangesErrorView::Repeated { class, raw: raw.last() })
                    } else {
                        match class_of(earlier, key) {
                            Some(previous) => Err(
                                ChangesErrorView::Reclassified { previous, class, raw: raw.last() },
                            ),
                            None => Ok(before.push(path)),
                        }
                    }
                },
            },
        }
    }
}

/// Some paths as declared in one list.
pub open spec fn labelled(
    platform: Platform,
    class: Classification,
    list: Seq<Seq<Seq<char>>>,
) -> Seq<(Seq<char>, Classification)> {
    list.map_values(|p: Seq<Seq<char>>| (key_of(platform, p), class))
}

proof fn lemma_class_of(declared: Seq<(Seq<char>, Classification)>, key: Seq<char>, i: int)
    requires
        0 <= i < declared.len(),
        declared[i].0 == key,
        forall|j: int| 0 <= j < i ==> (#[trigger] declared[j]).0 != key,
    ensures
        class_of(declared, key) == Some(declared[i].1),
    decreases declared.len(),
{
    if i == declared.len() - 1 {
        lemma_class_of_none(declared.drop_last(), key);
    } else {
        lemma_class_of(declared.drop_last(), key, i);
    }
}

proof fn lemma_class_of_none(declared: Seq<(Seq<char>, Classification)>, key: Seq<char>)
    requires
        forall|j: int| 0 <= j < declared.len() ==> (#[trigger] declared[j]).0 != key,
    ensures
        class_of(declared, key) is None,
    decreases declared.len(),
{
    if declared.len() > 0 {
        lemma_class_of_none(declared.drop_last(), key);
    }
}

/// Looks up the list in which a key was declared first, among the first `count`.
fn find_class(declared: &Vec<Classified>, count: usize, key: &str) -> (res: Option<Classification>)
    requires
        count <= declared@.len(),
    ensures
        res == class_of(classes(declared@).take(count as int), key@),
{
    let mut i: usize = 0;
    while i < count
        invariant
            i <= count <= declared@.len(),
            forall|j: int| 0 <= j < i ==> (#[trigger] classes(declared@)[j]).0 != key@,
        decreases count - i,
    {
        if same_text(declared[i].key.as_str(), key) {
            proof {
                let seen = classes(declared@).take(count as int);
                assert(seen[i as int].0 == key@);
                assert forall|j: int| 0 <= j < i implies (#[trigger] seen[j]).0 != key@ by {
                    assert(seen[j] == classes(declared@)[j]);
                }
                lemma_class_of(seen, key@, i as int);
            }
            return Some(declared[i].class);
        }
        i = i + 1;
    }
    proof {
        let seen = classes(declared@).take(count as int);
        assert forall|j: int| 0 <= j < seen.len() implies (#[trigger] seen[j]).0 != key@ by {
            assert(seen[j] == classes(declared@)[j]);
        }
        lemma_class_of_none(seen, key@);
    }
    None
}

/// Reads one list of the manifest. The paths come back in order, and their keys are added to
/// `classifications`, which holds what earlier lists declared. The first path that cannot be used,
/// that the list declares twice, or that an earlier list declares is an error; the paths before it
/// are then added still.
pub fn normalize_paths(
    platform: Platform,
    class: Classification,
    raw_paths: &Vec<String>,
    classifications: &mut Vec<Classified>,
) -> (res: Result<Vec<RelativePath>, ChangesError>)
    ensures
        match (res, read_list(platform, class, texts(raw_paths@), classes(old(classifications)@))) {
            (Ok(list), Ok(expected)) => {
                &&& paths(list@) == sorted(expected)
                &&& classes(final(classifications)@) == classes(old(classifications)@) + labelled(
                    platform,
                    class,
                    expected,
                )
            },
            (Err(error), Err(expected)) => {
                &&& error@ == expected
                &&& exists|n: int|
                    {
                        &&& 0 <= n < raw_paths@.len()
                        &&& (#[trigger] read_list(
                            platform,
                            class,
                            texts(raw_paths@).take(n),
                            classes(old(classifications)@),
                        )) matches Ok(before)
                        &&& classes(final(classifications)@) == classes(old(classifications)@)
                            + labelled(platform, class, before)
                    }
            },
            _ => false,
        },
{
    let mut found: Vec<RelativePath> = Vec::new();
    let earlier: usize = classifications.len();
    let ghost start = classes(classifications@);
    let ghost raw_all = texts(raw_paths@);
    let mut i: usize = 0;
    proof {
        assert(raw_all.take(0) =~= Seq::<Seq<char>>::empty());
        assert(paths(found@) =~= Seq::<Seq<Seq<char>>>::empty());
        assert(classes(classifications@) =~= start + labelled(platform, class, paths(found@)));
    }
    while i < raw_paths.len()
        invariant
            i <= raw_paths@.len(),
            raw_all == texts(raw_paths@),
            start == classes(old(classifications)@),
            start.len() == earlier,
            read_list(platform, class, raw_all.take(i as int), start) == Ok::<
                Seq<Seq<Seq<char>>>,
                ChangesErrorView,
            >(paths(found@)),
            classes(classifications@) == start + labelled(platform, class, paths(found@)),
        decreases raw_paths.len() - i,
    {
        let raw = raw_paths[i].clone();
        let ghost upto = raw_all.take(i + 1);
        proof {
            assert(upto.drop_last() =~= raw_all.take(i as int));
            assert(upto.last() == raw@);
        }
        let path = match normalize_relative_path(platform, raw.as_str()) {
            Ok(path) => path,
            Err(fault) => {
                proof {
                    lemma_first_error(platform, class, raw_all, start, i + 1);
                }
                return Err(ChangesError::Path { fault, raw });
            },
        };
        let key = path_key(platform, &path);
        let ghost here = keys(platform, paths(found@));
        let mut j: usize = earlier;
        proof {
            assert(classes(classifications@).len() == classifications@.len());
            assert(here.len() == found@.len());
        }
        while j < classifications.len()
            invariant
                earlier <= j <= classifications@.len(),
                i < raw_paths@.len(),
                raw_all == texts(raw_paths@),
                start == classes(old(classifications)@),
                start.len() == earlier,
                here == keys(platform, paths(found@)),
                here.len() + earlier == classifications@.len(),
                upto == raw_all.take(i + 1),
                upto.drop_last() == raw_all.take(i as int),
                upto.last() == raw@,
                normalized(platform, raw@) == Ok::<Seq<Seq<char>>, PathFault>(path@),
                key@ == key_of(platform, path@),
                read_list(platform, class, raw_all.take(i as int), start) == Ok::<
                    Seq<Seq<Seq<char>>>,
                    ChangesErrorView,
                >(paths(found@)),
                classes(classifications@) == start + labelled(platform, class, paths(found@)),
                forall|k: int| 0 <= k < j - earlier ==> #[trigger] here[k] != key@,
            decreases classifications.len() - j,
        {
            proof {
                assert(classes(classifications@)[j as int] == classifications@[j as int]@);
                assert((start + labelled(platform, class, paths(found@)))[j as int] == labelled(
                    platform,
                    class,
                    paths(found@),
                )[j - earlier]);
                assert(here[j - earlier] == classifications@[j as int].key@);
            }
            if same_text(classifications[j].key.as_str(), key.as_str()) {
                proof {
                    assert(here.contains(key@));
                    lemma_first_error(platform, class, raw_all, start, i + 1);
                }
                return Err(ChangesError::Repeated { class, raw });
            }
            j = j + 1;
        }
        proof {
            assert(!here.contains(key@));
            assert(classes(classifications@).take(earlier as int) =~= start);
        }
        if let Some(previous) = find_class(classifications, earlier, key.as_str()) {
            proof {
                lemma_first_error(platform, class, raw_all, start, i + 1);
            }
            return Err(ChangesError::Reclassified { previous, class, raw });
        }
        let ghost before = paths(found@);
        let ghost known = classes(classifications@);
        let entry = Classified { key, class };
        proof {
            assert(classes(classifications@.push(entry)) =~= known.push(entry@));
            lemma_paths_push(found@, path);
            assert(labelled(platform, class, before.push(path@)) =~= labelled(
                platform,
                class,
                before,
            ).push(entry@));
            assert(start + labelled(platform, class, before).push(entry@) =~= (start + labelled(
                platform,
                class,
                before,
            )).push(entry@));
        }
        classifications.push(entry);
        found.push(path);
        i = i + 1;
    }
    proof {
        assert(raw_all.take(i as int) =~= raw_all);
    }
    Ok(sort_paths(&found))
}

/// An error in the first paths of a list is the error of the whole list.
proof fn lemma_first_error(
    platform: Platform,
    class: Classification,
    raw: Seq<Seq<char>>,
    earlier: Seq<(Seq<char>, Classification)>,
    n: int,
)
    requires
        0 <= n <= raw.len(),
        read_list(platform, class, raw.take(n), earlier) is Err,
    ensures
        read_list(platform, class, raw, earlier) == read_list(platform, class, raw.take(n), earlier),
    decreases raw.len() - n,
{
    if n == raw.len() {
        assert(raw.take(n) =~= raw);
    } else {
        assert(raw.take(n + 1).drop_last() =~= raw.take(n));
        lemma_first_error(platform, class, raw, earlier, n + 1);
    }
}

/// Whether one key lies below another.
pub open spec fn overlap(left: Seq<char>, right: Seq<char>) -> bool {
    has_prefix(right, left.push('/')) || has_prefix(left, right.push('/'))
}

/// Whether some declared path lies below another.
pub open spec fn has_overlap(declared: Seq<(Seq<char>, Classification)>) -> bool {
    exists|i: int, j: int|
        0 <= i < j < declared.len() && overlap((#[trigger] declared[i]).0, (#[trigger] declared[j]).0)
}

/// Whether an error names two declared paths of which one lies below the other.
pub open spec fn names_overlap(
    error: ChangesErrorView,
    declared: Seq<(Seq<char>, Classification)>,
) -> bool {
    exists|i: int, j: int|
        {
            &&& 0 <= i < j < declared.len()
            &&& overlap((#[trigger] declared[i]).0, (#[trigger] declared[j]).0)
            &&& error == ChangesErrorView::Overlapping { left: declared[i], right: declared[j] }
        }
}

/// Whether one key lies below another.
fn keys_overlap(left: &str, right: &str) -> (res: bool)
    ensures
        res == overlap(left@, right@),
{
    let mut left_prefix = left.to_owned();
    left_prefix.push('/');
    let mut right_prefix = right.to_owned();
    right_prefix.push('/');
    starts_with(right, left_prefix.as_str()) || starts_with(left, right_prefix.as_str())
}

/// Checks that no declared path lies below another.
pub fn validate_non_overlapping_paths(classifications: &Vec<Classified>) -> (res: Result<
    (),
    ChangesError,
>)
    ensures
        match res {
            Ok(()) => !has_overlap(classes(classifications@)),
            Err(error) => names_overlap(error@, classes(classifications@)),
        },
{
    let ghost declared = classes(classifications@);
    let mut i: usize = 0;
    while i < classifications.len()
        invariant
            i <= classifications@.len(),
            declared == classes(classifications@),
            forall|a: int, b: int|
                0 <= a < i && a < b < declared.len() ==> !overlap(
                    (#[trigger] declared[a]).0,
                    (#[trigger] declared[b]).0,
                ),
        decreases classifications.len() - i,
    {
        let mut j: usize = i + 1;
        while j < classifications.len()
            invariant
                i < j <= classifications@.len(),
                declared == classes(classifications@),
                forall|b: int|
                    i < b < j ==> !overlap(declared[i as int].0, (#[trigger] declared[b]).0),
            decreases classifications.len() - j,
        {
            let left = &classifications[i];
            let right = &classifications[j];
            if keys_overlap(left.key.as_str(), right.key.as_str()) {
                proof {
                    assert(declared[i as int] == left@);
                    assert(declared[j as int] == right@);
                }
                return Err(
                    ChangesError::Overlapping {
                        left: Classified { key: left.key.clone(), class: left.class },
                        right: Classified { key: right.key.clone(), class: right.class },
                    },
                );
            }
            j = j + 1;
        }
        i = i + 1;
    }
    Ok(())
}

} // verus!
