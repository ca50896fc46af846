//! The labels that frames are given, for training models.

use crate::files;
use crate::text;
use crate::text::str_lt;
use std::path::PathBuf;
use std::sync::Arc;
use vstd::prelude::*;
use vstd::string::*;

verus! {

/// The set of all possible labels that can be applied to a frame.
#[derive(Clone, Debug)]
pub struct LabelingConfig {
    pub tag_sets: Vec<TagSet>,
}

/// The labels of a frame.
#[derive(Clone, Debug)]
pub struct Labels {
    pub tag_sets: Vec<TagSet>,
}

impl Default for Labels {
    fn default() -> (r: Self)
        ensures
            r.tag_sets@.len() == 0,
    {
        Labels { tag_sets: Vec::new() }
    }
}

/// A set of tags that a frame can be labeled with.
#[derive(Clone, Debug)]
pub struct TagSet {
    pub name: String,
    pub tags: Vec<String>,
}

/// Storage and retrieval of the labels, in one file for each frame.
#[derive(Debug)]
pub struct LabelStore {
    pub config: LabelingConfig,
    pub storage_dir: PathBuf,
}

/// What came of reading the labels of a frame.
#[derive(Debug)]
pub enum LabelFile {
    /// The file could not be opened.
    Missing,
    /// It was opened and could not be read.
    Unreadable,
    /// It does not hold labels.
    Unparsable,
    Parsed(Labels),
}

/// Labels to be written to a file of the storage directory.
#[derive(Debug)]
pub struct LabelWrite {
    pub file_name: String,
    pub labels: Labels,
}

/// Why the labels of a frame cannot be told.
#[derive(Clone, Copy, Debug, PartialEq, Eq, Structural)]
pub enum LabelError {
    Unreadable,
    Unparsable,
}

/// The tag sets in a file, or why there are none to be had.
pub open spec fn stored_tags(file: LabelFile) -> Result<Seq<TagSet>, LabelError> {
    match file {
        LabelFile::Missing => Ok(Seq::empty()),
        LabelFile::Unreadable => Err(LabelError::Unreadable),
        LabelFile::Unparsable => Err(LabelError::Unparsable),
        LabelFile::Parsed(labels) => Ok(labels.tag_sets@),
    }
}

/// Whether a tag set has the given name.
pub open spec fn named(name: Seq<char>) -> spec_fn(TagSet) -> bool {
    |t: TagSet| t.name@ == name
}

/// The tag sets are in the order of their names.
pub open spec fn is_sorted(s: Seq<TagSet>) -> bool {
    forall|i: int, j: int|
        0 <= i < j < s.len() ==> text::text_le((#[trigger] s[i]).name@, (#[trigger] s[j]).name@)
}

/// `sorted` holds what `s` holds, in the order of the names, and those with the
/// same name in the order that they had.
pub open spec fn is_stable_sort(sorted: Seq<TagSet>, s: Seq<TagSet>) -> bool {
    &&& is_sorted(sorted)
    &&& forall|name: Seq<char>| #[trigger]
        sorted.filter(named(name)) == s.filter(named(name))
}

/// Tag sets with one put at the end, in place of those that had its name.
pub open spec fn replaced(s: Seq<TagSet>, tags: TagSet) -> Seq<TagSet> {
    s.filter(|t: TagSet| t.name@ != tags.name@).push(tags)
}

/// The file that holds the labels of a frame.
pub open spec fn label_file(frame_id: Seq<char>) -> Seq<char> {
    files::extended(frame_id, "labels.json"@)
}

/// A tag set between those with no greater name and those with greater names.
proof fn lemma_insert_keeps_stable_sort(
    sorted: Seq<TagSet>,
    s: Seq<TagSet>,
    tags: TagSet,
    at: int,
)
    requires
        is_stable_sort(sorted, s),
        0 <= at <= sorted.len(),
        forall|i: int| 0 <= i < at ==> text::text_le((#[trigger] sorted[i]).name@, tags.name@),
        forall|i: int|
            at <= i < sorted.len() ==> text::text_lt(tags.name@, (#[trigger] sorted[i]).name@),
    ensures
        is_stable_sort(sorted.insert(at, tags), s.push(tags)),
{
    let next = sorted.insert(at, tags);
    let front = sorted.take(at);
    let back = sorted.skip(at);
    assert(sorted =~= front + back);
    assert(next =~= front + seq![tags] + back);
    assert(s.push(tags) =~= s + seq![tags]);
    assert forall|name: Seq<char>| #[trigger]
        next.filter(named(name)) == s.push(tags).filter(named(name)) by {
        let p = named(name);
        Seq::filter_distributes_over_add(front, back, p);
        Seq::filter_distributes_over_add(front + seq![tags], back, p);
        Seq::filter_distributes_over_add(front, seq![tags], p);
        Seq::filter_distributes_over_add(s, seq![tags], p);
        assert(sorted.filter(p) == s.filter(p));
        let one = seq![tags].filter(p);
        if name == tags.name@ {
            assert forall|i: int| 0 <= i < back.len() implies !p(#[trigger] back[i]) by {
                assert(back[i] == sorted[at + i]);
                text::lemma_text_irreflexive(name);
            }
            lemma_filter_to_nothing(back, p);
            assert(next.filter(p) =~= sorted.filter(p) + one);
        } else {
            assert forall|i: int| 0 <= i < seq![tags].len() implies !p(#[trigger] seq![tags][i]) by {}
            lemma_filter_to_nothing(seq![tags], p);
            assert(next.filter(p) =~= sorted.filter(p) + one);
        }
    }
    assert forall|i: int, j: int| 0 <= i < j < next.len() implies text::text_le(
        (#[trigger] next[i]).name@,
        (#[trigger] next[j]).name@,
    ) by {
        if i < at && j > at {
            assert(next[j] == sorted[j - 1]);
        } else if i > at {
            assert(next[i] == sorted[i - 1] && next[j] == sorted[j - 1]);
        }
    }
}

proof fn lemma_filter_to_nothing<A>(s: Seq<A>, p: spec_fn(A) -> bool)
    requires
        forall|i: int| 0 <= i < s.len() ==> !p(#[trigger] s[i]),
    ensures
        s.filter(p).len() == 0,
    decreases s.len(),
{
    reveal(Seq::filter);
    if s.len() > 0 {
        let front = s.drop_last();
        assert forall|i: int| 0 <= i < front.len() implies !p(#[trigger] front[i]) by {
            assert(front[i] == s[i]);
        }
        lemma_filter_to_nothing(front, p);
        assert(!p(s[s.len() - 1]));
    }
}

/// Puts tag sets in the order of their names.
pub fn sort_tag_sets(tag_sets: Vec<TagSet>) -> (r: Vec<TagSet>)
    ensures
        is_stable_sort(r@, tag_sets@),
{
    let mut sorted: Vec<TagSet> = Vec::new();
    let ghost whole = tag_sets@;
    proof {
        assert(whole.take(0) =~= sorted@);
    }
    for tags in it: tag_sets
        invariant
            it.seq() == whole,
            is_stable_sort(sorted@, whole.take(it.index() as int)),
    {
        let mut at: usize = sorted.len();
        while at > 0 && str_lt(&tags.name, &sorted[at - 1].name)
            invariant
                at <= sorted@.len(),
                forall|i: int|
                    at <= i < sorted@.len() ==> text::text_lt(
                        tags.name@,
                        (#[trigger] sorted@[i]).name@,
                    ),
            decreases at,
        {
            at = at - 1;
        }
        proof {
            let k = it.index() as int;
            if at > 0 {
                text::lemma_text_total(tags.name@, sorted@[at - 1].name@);
                assert forall|i: int| 0 <= i < at implies text::text_le(
                    (#[trigger] sorted@[i]).name@,
                    tags.name@,
                ) by {
                    if i < at - 1 {
                        assert(text::text_le(sorted@[i].name@, sorted@[at - 1].name@));
                        if sorted@[i].name@ != sorted@[at - 1].name@ && sorted@[at - 1].name@
                            != tags.name@ {
                            text::lemma_text_transitive(
                                sorted@[i].name@,
                                sorted@[at - 1].name@,
                                tags.name@,
                            );
                        }
                    }
                }
            }
            lemma_insert_keeps_stable_sort(sorted@, whole.take(k), tags, at as int);
            assert(whole.take(k + 1) =~= whole.take(k).push(tags));
        }
        sorted.insert(at, tags);
    }
    assert(whole.take(whole.len() as int) =~= whole);
    sorted
}

/// Puts a tag set at the end, in place of those that had its name.
fn replace_tags(tag_sets: Vec<TagSet>, tags: TagSet) -> (r: Vec<TagSet>)
    ensures
        r@ == replaced(tag_sets@, tags),
{
    let ghost p = |t: TagSet| t.name@ != tags.name@;
    let mut kept: Vec<TagSet> = Vec::new();
    for t in it: tag_sets
        invariant
            it.seq() == tag_sets@,
            p == (|t: TagSet| t.name@ != tags.name@),
            kept@ == tag_sets@.take(it.index() as int).filter(p),
    {
        proof {
            let k = it.index() as int;
            reveal(Seq::filter);
            assert(tag_sets@.take(k + 1).drop_last() =~= tag_sets@.take(k));
        }
        if t.name != tags.name {
            kept.push(t);
        }
    }
    assert(tag_sets@.take(tag_sets@.len() as int) =~= tag_sets@);
    kept.push(tags);
    kept
}

impl LabelStore {
    /// A store in the given directory.
    pub fn new(config: LabelingConfig, storage_dir: PathBuf) -> (r: Arc<LabelStore>)
        ensures
            r.config == config,
            r.storage_dir == storage_dir,
    {
        Arc::new(LabelStore { config, storage_dir })
    }

    /// Names the file that holds the labels of a frame.
    pub fn label_file_path(&self, frame_id: &str) -> (r: String)
        ensures
            files::names_file(frame_id@) ==> r@ == label_file(frame_id@),
    {
        proof {
            reveal_strlit("labels.json");
        }
        files::set_extension(frame_id, "labels.json")
    }

    /// The labels of a frame, from what was read of their file. A frame without
    /// such a file has none.
    pub fn get_labels(&self, file: LabelFile) -> (r: Result<Labels, LabelError>)
        ensures
            match stored_tags(file) {
                Ok(tag_sets) => r matches Ok(labels) && labels.tag_sets@ == tag_sets,
                Err(e) => r == Err::<Labels, LabelError>(e),
            },
    {
        match file {
            LabelFile::Missing => Ok(Labels::default()),
            LabelFile::Unreadable => Err(LabelError::Unreadable),
            LabelFile::Unparsable => Err(LabelError::Unparsable),
            LabelFile::Parsed(labels) => Ok(labels),
        }
    }

    /// The labels of a frame with one tag set set, from what was read of their
    /// file, and the file that they are to be written to.
    pub fn set_tags(&self, frame_id: &str, file: LabelFile, tags: TagSet) -> (r: Result<
        LabelWrite,
        LabelError,
    >)
        ensures
            match stored_tags(file) {
                Ok(tag_sets) => r matches Ok(write) && is_stable_sort(
                    write.labels.tag_sets@,
                    replaced(tag_sets, tags),
                ) && (files::names_file(frame_id@) ==> write.file_name@ == label_file(frame_id@)),
                Err(e) => r == Err::<LabelWrite, LabelError>(e),
            },
    {
        match self.get_labels(file) {
            Ok(labels) => {
                let tag_sets: Vec<TagSet> = replace_tags(labels.tag_sets, tags);
                Ok(
                    LabelWrite {
                        file_name: self.label_file_path(frame_id),
                        labels: Labels { tag_sets: sort_tag_sets(tag_sets) },
                    },
                )
            },
            Err(e) => Err(e),
        }
    }

    /// Names the file to be removed with the labels of a frame.
    pub fn delete(&self, frame_id: &str) -> (r: String)
        ensures
            files::names_file(frame_id@) ==> r@ == label_file(frame_id@),
    {
        self.label_file_path(frame_id)
    }
}

} // verus!
