//! The files that a compilation may import, as plain values.
//!
//! Reading files is left to the caller: a compilation is a function of the
//! program text and of the files at hand, and names the file it needs when
//! one is missing.

use vstd::prelude::*;

verus! {

/// What reading one file gave: its text, or the reason it could not be
/// read.
#[derive(Debug)]
pub struct SourceFile {
    pub path: String,
    pub contents: Result<String, String>,
}

/// The mathematical value of a [`SourceFile`].
pub ghost struct SourceView {
    pub path: Seq<char>,
    pub contents: Result<Seq<char>, Seq<char>>,
}

impl View for SourceFile {
    type V = SourceView;

    open spec fn view(&self) -> SourceView {
        SourceView {
            path: self.path@,
            contents: match self.contents {
                Ok(text) => Ok(text@),
                Err(reason) => Err(reason@),
            },
        }
    }
}

/// The views of a list of files, in order.
pub open spec fn source_views(sources: Seq<SourceFile>) -> Seq<SourceView> {
    sources.map_values(|s: SourceFile| s@)
}

/// The index of the first file of `sources` at `path`.
pub open spec fn source_index(sources: Seq<SourceView>, path: Seq<char>) -> Option<int>
    decreases sources.len(),
{
    if sources.len() == 0 {
        None
    } else {
        match source_index(sources.drop_last(), path) {
            Some(i) => Some(i),
            None => if sources.last().path == path {
                Some(sources.len() - 1)
            } else {
                None
            },
        }
    }
}

/// What `sources` holds for `path`: the contents of the first file there.
pub open spec fn source_at(sources: Seq<SourceView>, path: Seq<char>) -> Option<
    Result<Seq<char>, Seq<char>>,
> {
    match source_index(sources, path) {
        Some(i) => Some(sources[i].contents),
        None => None,
    }
}

/// `source_index` gives the first index with the path, if there is one.
pub proof fn lemma_source_index(sources: Seq<SourceView>, path: Seq<char>)
    ensures
        match source_index(sources, path) {
            Some(i) => 0 <= i < sources.len() && sources[i].path == path && forall|j: int|
                0 <= j < i ==> (#[trigger] sources[j]).path != path,
            None => forall|j: int| 0 <= j < sources.len() ==> (#[trigger] sources[j]).path != path,
        },
    decreases sources.len(),
{
    if sources.len() > 0 {
        let front = sources.drop_last();
        lemma_source_index(front, path);
        assert forall|j: int| 0 <= j < front.len() implies front[j] == sources[j] by {}
        match source_index(front, path) {
            Some(i) => {
                assert(front[i] == sources[i]);
                assert forall|j: int| 0 <= j < i implies (#[trigger] sources[j]).path != path by {
                    assert(front[j] == sources[j]);
                }
            },
            None => {
                assert forall|j: int| 0 <= j < front.len() implies (#[trigger] sources[j]).path
                    != path by {
                    assert(front[j] == sources[j]);
                }
            },
        }
    }
}

/// An index with the properties of [`lemma_source_index`] is
/// `source_index`.
pub proof fn lemma_source_index_is(sources: Seq<SourceView>, path: Seq<char>, found: Option<int>)
    requires
        match found {
            Some(i) => 0 <= i < sources.len() && sources[i].path == path && forall|j: int|
                0 <= j < i ==> (#[trigger] sources[j]).path != path,
            None => forall|j: int| 0 <= j < sources.len() ==> (#[trigger] sources[j]).path != path,
        },
    ensures
        source_index(sources, path) == found,
{
    lemma_source_index(sources, path);
}

/// The index of the first file of `sources` at `path`.
pub fn find_source(sources: &Vec<SourceFile>, path: &String) -> (found: Option<usize>)
    ensures
        match found {
            Some(i) => source_index(source_views(sources@), path@) == Some(i as int) && i
                < sources@.len(),
            None => source_index(source_views(sources@), path@) is None,
        },
{
    let mut i: usize = 0;
    while i < sources.len()
        invariant
            i <= sources.len(),
            forall|j: int| 0 <= j < i ==> (#[trigger] source_views(sources@)[j]).path != path@,
        decreases sources.len() - i,
    {
        if sources[i].path == *path {
            proof {
                assert(source_views(sources@)[i as int].path == path@);
                lemma_source_index_is(source_views(sources@), path@, Some(i as int));
            }
            return Some(i);
        }
        i = i + 1;
    }
    proof {
        lemma_source_index_is(source_views(sources@), path@, None);
    }
    None
}

} // verus!
