//! Course pages and their classification.
//!
//! A loaded page carries its recorded links; once its document text is
//! read and its file links are resolved it becomes an archived page,
//! which is retained exactly when its own text or any resolved
//! attachment is relevant.

use vstd::prelude::*;

use crate::keywords::{is_relevant, relevant_spec};
use crate::resolver::{candidates_spec, first_true, CandV, Category, FileNode, Link};

verus! {

/// One page as loaded from the course manifest.
pub struct Node {
    /// The page slug, unique within its course.
    pub slug: String,
    /// The last-modified timestamp, as recorded.
    pub last_modified: String,
    /// The recorded links, in manifest order.
    pub links: Vec<Link>,
    /// The occasion-group identifier, if the page belongs to one.
    pub occasion: Option<String>,
}

/// A page with its document text read and its file links resolved.
pub struct Node2 {
    pub slug: String,
    /// The document text of the page.
    pub doc: String,
    pub last_modified: String,
    /// The successfully resolved file attachments, in link order.
    pub files: Vec<FileNode>,
    pub occasion: Option<String>,
}

/// The (reference, resolved path) pairs that resolution yields from
/// link `i` on: file links whose first existing candidate is `j` give
/// that candidate; other links give nothing.
pub open spec fn resolved_views(links: Seq<Link>, exs: Seq<Seq<bool>>, i: int) -> Seq<
    (Seq<char>, CandV),
>
    decreases links.len() - i,
{
    if i < 0 || i >= links.len() {
        Seq::empty()
    } else {
        let head: Seq<(Seq<char>, CandV)> = if links[i].category == Category::File {
            match first_true(exs[i]) {
                Some(j) => seq![(links[i].url@, candidates_spec(links[i].url@)[j])],
                None => Seq::empty(),
            }
        } else {
            Seq::empty()
        };
        head + resolved_views(links, exs, i + 1)
    }
}

/// The indices of the file links that no candidate resolved, from `i`
/// on: these attachments are excluded and reported to the caller.
pub open spec fn unresolved_indices(links: Seq<Link>, exs: Seq<Seq<bool>>, i: int) -> Seq<int>
    decreases links.len() - i,
{
    if i < 0 || i >= links.len() {
        Seq::empty()
    } else {
        let head: Seq<int> = if links[i].category == Category::File && first_true(exs[i]) is None {
            seq![i]
        } else {
            Seq::empty()
        };
        head + unresolved_indices(links, exs, i + 1)
    }
}

/// A page is relevant when its own text is, or any of its resolved
/// attachments is.
pub open spec fn page_relevant_spec(doc: Seq<char>, file_verdicts: Seq<bool>) -> bool {
    relevant_spec(doc) || exists|i: int| 0 <= i < file_verdicts.len() && file_verdicts[i]
}

/// Law of relevance monotonicity: a page whose own text matches the
/// keyword set is relevant, whatever its attachments turned out to be.
pub proof fn lemma_relevance_monotonic(doc: Seq<char>, file_verdicts: Seq<bool>)
    requires
        relevant_spec(doc),
    ensures
        page_relevant_spec(doc, file_verdicts),
{
}

impl Node {
    /// Attach the document text and the resolution outcomes: the page
    /// keeps, in link order, each file link whose first existing
    /// candidate resolved, and reports the indices of the file links
    /// that did not.
    pub fn into_node2(self, doc: String, exs: &Vec<Vec<bool>>) -> (r: (Node2, Vec<usize>))
        requires
            exs@.len() == self.links@.len(),
            forall|i: int|
                0 <= i < self.links@.len() ==> (#[trigger] exs@[i])@.len() == candidates_spec(
                    self.links@[i].url@,
                ).len(),
        ensures
            r.0.slug == self.slug,
            r.0.doc == doc,
            r.0.last_modified == self.last_modified,
            r.0.occasion == self.occasion,
            r.0.files@.map_values(|f: FileNode| (f.srcname@, f.path@)) == resolved_views(
                self.links@,
                exs@.map_values(|v: Vec<bool>| v@),
                0,
            ),
            r.1@.map_values(|u: usize| u as int) == unresolved_indices(
                self.links@,
                exs@.map_values(|v: Vec<bool>| v@),
                0,
            ),
    {
        let ghost exsv = exs@.map_values(|v: Vec<bool>| v@);
        let mut files: Vec<FileNode> = Vec::new();
        let mut missing: Vec<usize> = Vec::new();
        let mut i: usize = 0;
        while i < self.links.len()
            invariant
                i <= self.links@.len(),
                resolved_views(self.links@, exsv, 0) == files@.map_values(
                    |f: FileNode| (f.srcname@, f.path@),
                ) + resolved_views(self.links@, exsv, i as int),
                unresolved_indices(self.links@, exsv, 0) == missing@.map_values(|u: usize| u as int)
                    + unresolved_indices(self.links@, exsv, i as int),
            decreases self.links@.len() - i,
        {
            let link = &self.links[i];
            let ghost fv0 = files@.map_values(|f: FileNode| (f.srcname@, f.path@));
            let ghost mv0 = missing@.map_values(|u: usize| u as int);
            if link.is_file() {
                match link.get_file(&exs[i]) {
                    Ok(f) => {
                        files.push(f);
                        proof {
                            assert(files@.map_values(|f: FileNode| (f.srcname@, f.path@)) =~= fv0
                                + seq![(link.url@, candidates_spec(link.url@)[first_true(exsv[i as int]).unwrap()])]);
                        }
                    },
                    Err(_) => {
                        missing.push(i);
                        proof {
                            assert(missing@.map_values(|u: usize| u as int) =~= mv0
                                + seq![i as int]);
                        }
                    },
                }
            }
            proof {
                assert(resolved_views(self.links@, exsv, i as int) == (if self.links@[i as int].category
                    == Category::File {
                    match first_true(exsv[i as int]) {
                        Some(j) => seq![
                            (self.links@[i as int].url@, candidates_spec(self.links@[i as int].url@)[j]),
                        ],
                        None => Seq::<(Seq<char>, CandV)>::empty(),
                    }
                } else {
                    Seq::<(Seq<char>, CandV)>::empty()
                }) + resolved_views(self.links@, exsv, i + 1));
                assert(fv0 + (resolved_views(self.links@, exsv, i as int)) =~= files@.map_values(
                    |f: FileNode| (f.srcname@, f.path@),
                ) + resolved_views(self.links@, exsv, i + 1));
                assert(mv0 + (unresolved_indices(self.links@, exsv, i as int))
                    =~= missing@.map_values(|u: usize| u as int) + unresolved_indices(
                    self.links@,
                    exsv,
                    i + 1,
                ));
            }
            i = i + 1;
        }
        proof {
            assert(resolved_views(self.links@, exsv, i as int) =~= Seq::<(Seq<char>, CandV)>::empty());
            assert(files@.map_values(|f: FileNode| (f.srcname@, f.path@)) + Seq::<(Seq<char>, CandV)>::empty()
                =~= files@.map_values(|f: FileNode| (f.srcname@, f.path@)));
            assert(unresolved_indices(self.links@, exsv, i as int) =~= Seq::<int>::empty());
            assert(missing@.map_values(|u: usize| u as int) + Seq::<int>::empty()
                =~= missing@.map_values(|u: usize| u as int));
        }
        (
            Node2 {
                slug: self.slug,
                doc,
                last_modified: self.last_modified,
                files,
                occasion: self.occasion,
            },
            missing,
        )
    }
}

impl Node2 {
    /// Is this page retained? Its own text decides first; otherwise
    /// any relevant resolved attachment retains it. The caller passes
    /// one verdict per resolved attachment, in order.
    pub fn is_relevant(&self, file_verdicts: &Vec<bool>) -> (r: bool)
        ensures
            r == page_relevant_spec(self.doc@, file_verdicts@),
    {
        if is_relevant(self.doc.as_str()) {
            return true;
        }
        let mut i: usize = 0;
        while i < file_verdicts.len()
            invariant
                i <= file_verdicts@.len(),
                forall|j: int| 0 <= j < i ==> !file_verdicts@[j],
            decreases file_verdicts@.len() - i,
        {
            if file_verdicts[i] {
                return true;
            }
            i = i + 1;
        }
        false
    }
}

/// Does `cond` hold of any item? Stops at the first `true` or at the
/// first error, in order: whatever comes back, every earlier item
/// yielded `Ok(false)`.
pub fn try_any<T, E, F: Fn(&T) -> Result<bool, E>>(items: &Vec<T>, cond: F) -> (r: Result<
    bool,
    E,
>)
    requires
        forall|i: int| 0 <= i < items@.len() ==> #[trigger] call_requires(cond, (&items@[i],)),
    ensures
        r == Ok::<bool, E>(true) ==> exists|k: int|
            0 <= k < items@.len() && #[trigger] call_ensures(cond, (&items@[k],), Ok(true)) && (
            forall|j: int| 0 <= j < k ==> call_ensures(cond, (&items@[j],), Ok::<bool, E>(false))),
        r == Ok::<bool, E>(false) ==> forall|i: int|
            0 <= i < items@.len() ==> call_ensures(cond, (&items@[i],), Ok(false)),
        r matches Err(e) ==> exists|k: int|
            0 <= k < items@.len() && #[trigger] call_ensures(cond, (&items@[k],), Err(e)) && (
            forall|j: int| 0 <= j < k ==> call_ensures(cond, (&items@[j],), Ok::<bool, E>(false))),
{
    let mut i: usize = 0;
    while i < items.len()
        invariant
            i <= items@.len(),
            forall|j: int| 0 <= j < i ==> call_ensures(cond, (&items@[j],), Ok::<bool, E>(false)),
        decreases items@.len() - i,
    {
        match cond(&items[i]) {
            Ok(true) => {
                return Ok(true);
            },
            Ok(false) => {},
            Err(e) => {
                return Err(e);
            },
        }
        i = i + 1;
    }
    Ok(false)
}

/// The retained pages: those that are relevant, in order.
pub open spec fn retained_spec(pages: Seq<Node2>, verdicts: Seq<Seq<bool>>, i: int) -> Seq<Node2>
    decreases pages.len() - i,
{
    if i < 0 || i >= pages.len() {
        Seq::empty()
    } else {
        let head: Seq<Node2> = if page_relevant_spec(pages[i].doc@, verdicts[i]) {
            seq![pages[i]]
        } else {
            Seq::empty()
        };
        head + retained_spec(pages, verdicts, i + 1)
    }
}

/// Keep the relevant pages, in order, consuming the rest.
pub fn retain_relevant(pages: Vec<Node2>, verdicts: &Vec<Vec<bool>>) -> (r: Vec<Node2>)
    requires
        verdicts@.len() == pages@.len(),
    ensures
        r@ == retained_spec(pages@, verdicts@.map_values(|v: Vec<bool>| v@), 0),
{
    let ghost pages0 = pages@;
    let ghost vv = verdicts@.map_values(|v: Vec<bool>| v@);
    let n = verdicts.len();
    let mut rest = pages;
    let mut out: Vec<Node2> = Vec::new();
    let mut i: usize = 0;
    while rest.len() > 0
        invariant
            n == pages0.len(),
            i + rest@.len() == pages0.len(),
            rest@ == pages0.skip(i as int),
            retained_spec(pages0, vv, 0) == out@ + retained_spec(pages0, vv, i as int),
        decreases rest@.len(),
    {
        let p = rest.remove(0);
        proof {
            assert(p == pages0[i as int]);
            assert(rest@ =~= pages0.skip(i + 1));
        }
        let keep = p.is_relevant(&verdicts[i]);
        let ghost out0 = out@;
        if keep {
            out.push(p);
            proof {
                assert(out@ =~= out0 + seq![pages0[i as int]]);
            }
        }
        proof {
            assert(retained_spec(pages0, vv, i as int) == (if page_relevant_spec(
                pages0[i as int].doc@,
                vv[i as int],
            ) {
                seq![pages0[i as int]]
            } else {
                Seq::<Node2>::empty()
            }) + retained_spec(pages0, vv, i + 1));
            assert(out0 + retained_spec(pages0, vv, i as int) =~= out@ + retained_spec(
                pages0,
                vv,
                i + 1,
            ));
        }
        i = i + 1;
    }
    proof {
        assert(retained_spec(pages0, vv, i as int) =~= Seq::<Node2>::empty());
        assert(out@ + Seq::<Node2>::empty() =~= out@);
    }
    out
}

/// Law of empty-course suppression, first half: no page is retained
/// exactly when no page is relevant.
pub proof fn lemma_empty_retention(pages: Seq<Node2>, verdicts: Seq<Seq<bool>>, i: int)
    requires
        0 <= i,
    ensures
        retained_spec(pages, verdicts, i).len() == 0 <==> (forall|j: int|
            i <= j < pages.len() ==> !page_relevant_spec(pages[j].doc@, verdicts[j])),
    decreases pages.len() - i,
{
    if 0 <= i < pages.len() {
        lemma_empty_retention(pages, verdicts, i + 1);
    }
}

} // verus!
