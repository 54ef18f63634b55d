//! The course archiver: writing retained pages and their attachments
//! into the report, and grouping pages by occasion.
//!
//! The input records no created timestamps for pages or links and no
//! upload dates for attachments, so the report's optional attributes
//! for them are not emitted.

use vstd::prelude::*;
use vstd::string::StringExecFns;

use crate::keys::{distinct_keys, sort_keys, sort_keys_x};
use crate::normalize::destname_spec;
use crate::pages::Node2;
use crate::report::{leaf_events, EventV, ReportBuilder};
use crate::resolver::FileNode;
use crate::rewrite::{replace_all, replace_all_spec};
use crate::text::{chars_to_string, dec_digits, dec_string, to_chars};

verus! {

/// The view of the data rows handed in for one page: one entry per
/// resolved attachment, the bytes read, or nothing where reading
/// failed.
pub open spec fn data_view(data: Seq<Option<Vec<u8>>>) -> Seq<Option<Seq<u8>>> {
    data.map_values(
        (|o: Option<Vec<u8>>|
            match o {
                Option::Some(v) => Option::Some(v@),
                Option::None => Option::<Seq<u8>>::None,
            }),
    )
}

/// The values of a list of attachment outputs.
pub open spec fn outs_view(v: Seq<(String, Vec<u8>)>) -> Seq<(Seq<char>, Seq<u8>)> {
    v.map_values(|p: (String, Vec<u8>)| (p.0@, p.1@))
}

/// The values of a list of document outputs.
pub open spec fn docs_view(v: Seq<(String, String)>) -> Seq<(Seq<char>, Seq<char>)> {
    v.map_values(|p: (String, String)| (p.0@, p.1@))
}

/// The view of concatenated output lists is the concatenation of the
/// views.
proof fn lemma_outs_view_concat(a: Seq<(String, Vec<u8>)>, b: Seq<(String, Vec<u8>)>)
    ensures
        outs_view(a + b) == outs_view(a) + outs_view(b),
{
    assert(outs_view(a + b) =~= outs_view(a) + outs_view(b));
}

proof fn lemma_docs_view_concat(a: Seq<(String, String)>, b: Seq<(String, String)>)
    ensures
        docs_view(a + b) == docs_view(a) + docs_view(b),
{
    assert(docs_view(a + b) =~= docs_view(a) + docs_view(b));
}

/// The two events describing one written attachment.
pub open spec fn bilaga_events(dir: Seq<char>, dest: Seq<char>, size: nat) -> Seq<EventV> {
    seq![
        EventV::Start {
            name: "Bilaga"@,
            attrs: seq![
                ("Lank"@, dir + "/"@ + dest),
                ("Filnamn"@, dest),
                ("Storlek"@, dec_digits(size)),
            ],
        },
        EventV::End,
    ]
}

/// The event opening one page node.
pub open spec fn nod_start(dir: Seq<char>, slug: Seq<char>, modified: Seq<char>) -> EventV {
    EventV::Start {
        name: "Nod"@,
        attrs: seq![("Lank"@, dir + "/"@ + slug + ".html"@), ("Andrad"@, modified)],
    }
}

/// Processing a page's attachments from index `i` on: each attachment
/// whose bytes could be read is written under its destination name,
/// described in the report, and every occurrence of its reference in
/// the document is replaced by that name, in manifest order; an
/// unreadable attachment is skipped. Yields the final document text,
/// the report events, and the (destination name, bytes) outputs.
pub open spec fn handle_files_spec(
    doc: Seq<char>,
    files: Seq<FileNode>,
    data: Seq<Option<Seq<u8>>>,
    dir: Seq<char>,
    i: int,
) -> (Seq<char>, Seq<EventV>, Seq<(Seq<char>, Seq<u8>)>)
    decreases files.len() - i,
{
    if i < 0 || i >= files.len() {
        (doc, Seq::empty(), Seq::empty())
    } else {
        match data[i] {
            Option::None => handle_files_spec(doc, files, data, dir, i + 1),
            Option::Some(bytes) => {
                let dest = destname_spec(files[i].srcname@);
                let doc2 = replace_all_spec(doc, files[i].srcname@, dest);
                let rest = handle_files_spec(doc2, files, data, dir, i + 1);
                (rest.0, bilaga_events(dir, dest, bytes.len()) + rest.1, seq![(dest, bytes)]
                    + rest.2)
            },
        }
    }
}

impl Node2 {
    /// Write this page into the report: a node element whose children
    /// describe each attachment that could be read, rewriting the
    /// document text as each is placed. Returns the (destination name,
    /// bytes) pairs for the caller to write to disk; the rewritten
    /// document stays on the page.
    pub fn handle(
        &mut self,
        builder: &mut ReportBuilder,
        dir: &String,
        data: &Vec<Option<Vec<u8>>>,
    ) -> (outputs: Vec<(String, Vec<u8>)>)
        requires
            old(builder).wf(),
            data@.len() == old(self).files@.len(),
        ensures
            final(builder).wf(),
            final(self).slug == old(self).slug,
            final(self).last_modified == old(self).last_modified,
            final(self).files == old(self).files,
            final(self).occasion == old(self).occasion,
            final(builder).stack() == old(builder).stack(),
            ({
                let h = handle_files_spec(
                    old(self).doc@,
                    old(self).files@,
                    data_view(data@),
                    dir@,
                    0,
                );
                final(self).doc@ == h.0 && final(builder).stream() == old(builder).stream()
                    + seq![nod_start(dir@, old(self).slug@, old(self).last_modified@)] + h.1 + seq![
                    EventV::End,
                ] && outs_view(outputs@) == h.2
            }),
    {
        let ghost dv = data_view(data@);
        let ghost h_full = handle_files_spec(self.doc@, self.files@, dv, dir@, 0);
        let ghost stream0 = builder.stream();
        let ghost stack0 = builder.stack();

        let lank = dir.clone().concat("/").concat(self.slug.as_str()).concat(".html");
        let attrs: Vec<(String, String)> = vec![
            (String::from_str("Lank"), lank),
            (String::from_str("Andrad"), self.last_modified.clone()),
        ];
        proof {
            assert(attrs@.map_values(|p: (String, String)| (p.0@, p.1@)) =~= seq![
                ("Lank"@, dir@ + "/"@ + self.slug@ + ".html"@),
                ("Andrad"@, self.last_modified@),
            ]);
        }
        builder.start(String::from_str("Nod"), attrs);
        proof {
            assert(builder.stream() =~= stream0 + seq![
                nod_start(dir@, self.slug@, self.last_modified@),
            ]);
        }
        let ghost stream1 = builder.stream();

        let mut outputs: Vec<(String, Vec<u8>)> = Vec::new();
        let mut i: usize = 0;
        proof {
            assert(outs_view(outputs@) + h_full.2
                =~= h_full.2);
            assert(Seq::<EventV>::empty() + h_full.1 =~= h_full.1);
        }
        let ghost mut evs_done: Seq<EventV> = Seq::empty();
        while i < self.files.len()
            invariant
                i <= self.files@.len(),
                data@.len() == self.files@.len(),
                dv == data_view(data@),
                self.files == old(self).files,
                self.slug == old(self).slug,
                self.last_modified == old(self).last_modified,
                self.occasion == old(self).occasion,
                builder.wf(),
                builder.stack() == stack0.push("Nod"@),
                builder.stream() == stream1 + evs_done,
                ({
                    let hi = handle_files_spec(self.doc@, self.files@, dv, dir@, i as int);
                    h_full.0 == hi.0 && h_full.1 == evs_done + hi.1 && h_full.2
                        == outs_view(outputs@) + hi.2
                }),
            decreases self.files@.len() - i,
        {
            let ghost outs0 = outs_view(outputs@);
            match &data[i] {
                Option::None => {
                    proof {
                        assert(dv[i as int] is None);
                    }
                },
                Option::Some(bytes) => {
                    proof {
                        assert(dv[i as int] == Option::Some(bytes@));
                    }
                    let dest = self.files[i].destname();
                    let doc_chars = to_chars(self.doc.as_str());
                    let src_chars = to_chars(self.files[i].srcname.as_str());
                    let dest_chars = to_chars(dest.as_str());
                    let new_doc = chars_to_string(&replace_all(&doc_chars, &src_chars, &dest_chars));
                    self.doc = new_doc;
                    let lank2 = dir.clone().concat("/").concat(dest.as_str());
                    let battrs: Vec<(String, String)> = vec![
                        (String::from_str("Lank"), lank2),
                        (String::from_str("Filnamn"), dest.clone()),
                        (String::from_str("Storlek"), dec_string(bytes.len())),
                    ];
                    let ghost destv = destname_spec(self.files@[i as int].srcname@);
                    proof {
                        assert(battrs@.map_values(|p: (String, String)| (p.0@, p.1@)) =~= seq![
                            ("Lank"@, dir@ + "/"@ + destv),
                            ("Filnamn"@, destv),
                            ("Storlek"@, dec_digits(bytes@.len())),
                        ]);
                    }
                    builder.start(String::from_str("Bilaga"), battrs);
                    builder.end();
                    outputs.push((dest, bytes.clone()));
                    proof {
                        assert(builder.stream() =~= stream1 + (evs_done + bilaga_events(
                            dir@,
                            destv,
                            bytes@.len(),
                        )));
                        assert(outs_view(outputs@) =~= outs0
                            + seq![(destv, bytes@)]);
                        assert(builder.stack() =~= stack0.push("Nod"@));
                    }
                    proof {
                        evs_done = evs_done + bilaga_events(dir@, destv, bytes@.len());
                    }
                },
            }
            proof {
                let hn = handle_files_spec(self.doc@, self.files@, dv, dir@, i + 1);
                assert(h_full.0 == hn.0);
                assert(h_full.1 =~= evs_done + hn.1);
                assert(h_full.2 =~= outs_view(outputs@)
                    + hn.2);
            }
            i = i + 1;
        }
        builder.end();
        proof {
            let hend = handle_files_spec(self.doc@, self.files@, dv, dir@, i as int);
            assert(hend.1 =~= Seq::<EventV>::empty());
            assert(hend.2 =~= Seq::<(Seq<char>, Seq<u8>)>::empty());
            assert(h_full.1 =~= evs_done);
            assert(h_full.2 =~= outs_view(outputs@));
            assert(builder.stream() =~= stream0 + seq![
                nod_start(dir@, old(self).slug@, old(self).last_modified@),
            ] + h_full.1 + seq![EventV::End]);
            assert(builder.stack() =~= stack0);
        }
        outputs
    }
}

/// Law of rewrite completeness at the page level: an attachment whose
/// bytes were read, whose reference is nonempty and occurs in the
/// document, and whose destination name cannot recombine with its
/// surroundings into the reference, leaves a committed document with
/// no occurrence of the reference and at least one of the destination
/// name.
pub proof fn lemma_handle_rewrite_complete(
    doc: Seq<char>,
    f: FileNode,
    bytes: Seq<u8>,
    dir: Seq<char>,
)
    requires
        f.srcname@.len() > 0,
        crate::keywords::occurs(doc, f.srcname@),
        crate::rewrite::no_reintroduction(f.srcname@, destname_spec(f.srcname@)),
    ensures
        ({
            let h = handle_files_spec(
                doc,
                seq![f],
                seq![Option::Some(bytes)],
                dir,
                0,
            );
            !crate::keywords::occurs(h.0, f.srcname@) && crate::keywords::occurs(
                h.0,
                destname_spec(f.srcname@),
            )
        }),
{
    let dest = destname_spec(f.srcname@);
    let doc2 = replace_all_spec(doc, f.srcname@, dest);
    let files = seq![f];
    let data = seq![Option::Some(bytes)];
    assert(handle_files_spec(doc2, files, data, dir, 1).0 == doc2);
    assert(handle_files_spec(doc, files, data, dir, 0).0 == doc2);
    crate::rewrite::lemma_rewrite_complete(doc, f.srcname@, dest);
}

/// An empty attribute list.
fn no_attrs() -> (r: Vec<(String, String)>)
    ensures
        r@.map_values(|p: (String, String)| (p.0@, p.1@)) == Seq::<(Seq<char>, Seq<char>)>::empty(),
{
    let r: Vec<(String, String)> = Vec::new();
    proof {
        assert(r@.map_values(|p: (String, String)| (p.0@, p.1@)) =~= Seq::<
            (Seq<char>, Seq<char>),
        >::empty());
    }
    r
}

/// One retained page together with the bytes read for each of its
/// resolved attachments.
pub type PagePair = (Node2, Vec<Option<Vec<u8>>>);

/// The occasion of a page, as a value.
pub open spec fn occ_view(p: Node2) -> Option<Seq<char>> {
    match p.occasion {
        Option::Some(s) => Option::Some(s@),
        Option::None => Option::None,
    }
}

/// The pages of one occasion group (or, for `None`, the ungrouped
/// pages), in their given order.
pub open spec fn filter_occ(g: Seq<PagePair>, key: Option<Seq<char>>) -> Seq<PagePair>
    decreases g.len(),
{
    if g.len() == 0 {
        g
    } else {
        (if occ_view(g[0].0) == key {
            seq![g[0]]
        } else {
            Seq::<PagePair>::empty()
        }) + filter_occ(g.skip(1), key)
    }
}

/// The pages of every other group.
pub open spec fn remove_occ(g: Seq<PagePair>, key: Option<Seq<char>>) -> Seq<PagePair>
    decreases g.len(),
{
    if g.len() == 0 {
        g
    } else {
        (if occ_view(g[0].0) != key {
            seq![g[0]]
        } else {
            Seq::<PagePair>::empty()
        }) + remove_occ(g.skip(1), key)
    }
}

/// Taking one group out does not change any other group.
proof fn lemma_filter_commute(g: Seq<PagePair>, k1: Option<Seq<char>>, k2: Option<Seq<char>>)
    requires
        k1 != k2,
    ensures
        filter_occ(remove_occ(g, k2), k1) == filter_occ(g, k1),
    decreases g.len(),
{
    if g.len() > 0 {
        lemma_filter_commute(g.skip(1), k1, k2);
        if occ_view(g[0].0) != k2 {
            let t = remove_occ(g.skip(1), k2);
            assert(remove_occ(g, k2) == seq![g[0]] + t);
            assert((seq![g[0]] + t).skip(1) =~= t);
            assert(filter_occ(seq![g[0]] + t, k1) == (if occ_view(g[0].0) == k1 {
                seq![g[0]]
            } else {
                Seq::<PagePair>::empty()
            }) + filter_occ(t, k1));
        } else {
            assert(remove_occ(g, k2) =~= remove_occ(g.skip(1), k2));
            assert(occ_view(g[0].0) != k1);
            assert(filter_occ(g, k1) =~= filter_occ(g.skip(1), k1));
        }
    }
}

/// Every page of a group comes from the pool it was filtered from.
proof fn lemma_filter_contains(g: Seq<PagePair>, key: Option<Seq<char>>)
    ensures
        forall|m: int|
            0 <= m < filter_occ(g, key).len() ==> g.contains(#[trigger] filter_occ(g, key)[m]),
    decreases g.len(),
{
    if g.len() > 0 {
        lemma_filter_contains(g.skip(1), key);
        let f = filter_occ(g, key);
        assert forall|m: int| 0 <= m < f.len() implies g.contains(f[m]) by {
            if occ_view(g[0].0) == key {
                if m == 0 {
                    assert(f[0] == g[0]);
                } else {
                    assert(f[m] == filter_occ(g.skip(1), key)[m - 1]);
                    assert(g.skip(1).contains(f[m]));
                    let n = choose|n: int| 0 <= n < g.skip(1).len() && g.skip(1)[n] == f[m];
                    assert(g[n + 1] == f[m]);
                }
            } else {
                assert(f =~= filter_occ(g.skip(1), key));
                assert(g.skip(1).contains(f[m]));
                let n = choose|n: int| 0 <= n < g.skip(1).len() && g.skip(1)[n] == f[m];
                assert(g[n + 1] == f[m]);
            }
        }
    }
}

/// Split a pool of pages into those of one group and the rest.
fn extract_occ(pool: Vec<PagePair>, key: Option<&String>) -> (r: (Vec<PagePair>, Vec<PagePair>))
    ensures
        r.0@ == filter_occ(
            pool@,
            match key {
                Option::Some(s) => Option::Some(s@),
                Option::None => Option::<Seq<char>>::None,
            },
        ),
        r.1@ == remove_occ(
            pool@,
            match key {
                Option::Some(s) => Option::Some(s@),
                Option::None => Option::<Seq<char>>::None,
            },
        ),
{
    let ghost pool0 = pool@;
    let ghost kv = match key {
        Option::Some(s) => Option::Some(s@),
        Option::None => Option::<Seq<char>>::None,
    };
    let mut rest = pool;
    let mut matched: Vec<PagePair> = Vec::new();
    let mut others: Vec<PagePair> = Vec::new();
    proof {
        assert(matched@ + filter_occ(pool0, kv) =~= filter_occ(pool0, kv));
        assert(others@ + remove_occ(pool0, kv) =~= remove_occ(pool0, kv));
        assert(pool0.skip(0) =~= pool0);
    }
    let ghost mut i: int = 0;
    while rest.len() > 0
        invariant
            0 <= i <= pool0.len(),
            rest@ == pool0.skip(i),
            filter_occ(pool0, kv) == matched@ + filter_occ(pool0.skip(i), kv),
            remove_occ(pool0, kv) == others@ + remove_occ(pool0.skip(i), kv),
        decreases rest@.len(),
    {
        let p = rest.remove(0);
        proof {
            assert(p == pool0.skip(i)[0]);
            assert(rest@ =~= pool0.skip(i + 1));
            assert(pool0.skip(i).skip(1) =~= pool0.skip(i + 1));
        }
        let ghost m0 = matched@;
        let ghost o0 = others@;
        let is_match: bool = match (&p.0.occasion, key) {
            (Option::Some(s), Option::Some(k)) => s.eq(k),
            (Option::None, Option::None) => true,
            _ => false,
        };
        proof {
            assert(is_match == (occ_view(p.0) == kv));
        }
        if is_match {
            matched.push(p);
            proof {
                assert(matched@ =~= m0 + seq![pool0.skip(i)[0]]);
                assert(m0 + filter_occ(pool0.skip(i), kv) =~= matched@ + filter_occ(
                    pool0.skip(i + 1),
                    kv,
                ));
                assert(o0 + remove_occ(pool0.skip(i), kv) =~= others@ + remove_occ(
                    pool0.skip(i + 1),
                    kv,
                ));
            }
        } else {
            others.push(p);
            proof {
                assert(others@ =~= o0 + seq![pool0.skip(i)[0]]);
                assert(m0 + filter_occ(pool0.skip(i), kv) =~= matched@ + filter_occ(
                    pool0.skip(i + 1),
                    kv,
                ));
                assert(o0 + remove_occ(pool0.skip(i), kv) =~= others@ + remove_occ(
                    pool0.skip(i + 1),
                    kv,
                ));
            }
        }
        proof {
            i = i + 1;
        }
    }
    proof {
        assert(pool0.skip(i) =~= Seq::<PagePair>::empty());
        assert(filter_occ(Seq::<PagePair>::empty(), kv) =~= Seq::<PagePair>::empty());
        assert(remove_occ(Seq::<PagePair>::empty(), kv) =~= Seq::<PagePair>::empty());
        assert(matched@ + Seq::<PagePair>::empty() =~= matched@);
        assert(others@ + Seq::<PagePair>::empty() =~= others@);
    }
    (matched, others)
}

/// The distinct occasion keys of the pages, in first appearance order,
/// appended to `acc`.
pub open spec fn keys_acc(g: Seq<PagePair>, acc: Seq<Seq<char>>) -> Seq<Seq<char>>
    decreases g.len(),
{
    if g.len() == 0 {
        acc
    } else {
        let acc2 = match g[0].0.occasion {
            Option::None => acc,
            Option::Some(s) => if acc.contains(s@) {
                acc
            } else {
                acc.push(s@)
            },
        };
        keys_acc(g.skip(1), acc2)
    }
}

/// Distinct keys stay distinct as more pages are scanned.
proof fn lemma_keys_acc_distinct(g: Seq<PagePair>, acc: Seq<Seq<char>>)
    requires
        distinct_keys(acc),
    ensures
        distinct_keys(keys_acc(g, acc)),
    decreases g.len(),
{
    if g.len() > 0 {
        match g[0].0.occasion {
            Option::None => {
                lemma_keys_acc_distinct(g.skip(1), acc);
            },
            Option::Some(s) => {
                if acc.contains(s@) {
                    lemma_keys_acc_distinct(g.skip(1), acc);
                } else {
                    assert(distinct_keys(acc.push(s@))) by {
                        assert forall|a: int, b: int|
                            0 <= a < b < acc.push(s@).len() implies acc.push(s@)[a] != acc.push(
                            s@,
                        )[b] by {
                            if b < acc.len() {
                            } else {
                                assert(acc.push(s@)[b] == s@);
                                assert(acc.push(s@)[a] == acc[a]);
                                assert(acc.contains(acc[a]));
                            }
                        }
                    }
                    lemma_keys_acc_distinct(g.skip(1), acc.push(s@));
                }
            },
        }
    }
}

/// Collect the distinct occasion keys of the pages, in first
/// appearance order.
fn collect_keys(pairs: &Vec<PagePair>) -> (r: Vec<String>)
    ensures
        r@.map_values(|s: String| s@) == keys_acc(pairs@, Seq::empty()),
        distinct_keys(r@.map_values(|s: String| s@)),
{
    let mut out: Vec<String> = Vec::new();
    let mut i: usize = 0;
    proof {
        assert(pairs@.skip(0) =~= pairs@);
        assert(out@.map_values(|s: String| s@) =~= Seq::<Seq<char>>::empty());
    }
    while i < pairs.len()
        invariant
            i <= pairs@.len(),
            keys_acc(pairs@, Seq::empty()) == keys_acc(
                pairs@.skip(i as int),
                out@.map_values(|s: String| s@),
            ),
            distinct_keys(out@.map_values(|s: String| s@)),
        decreases pairs@.len() - i,
    {
        let ghost acc0 = out@.map_values(|s: String| s@);
        proof {
            assert(pairs@.skip(i as int)[0] == pairs@[i as int]);
            assert(pairs@.skip(i as int).skip(1) =~= pairs@.skip(i + 1));
        }
        match &pairs[i].0.occasion {
            Option::None => {},
            Option::Some(s) => {
                let mut found = false;
                let mut j: usize = 0;
                while j < out.len()
                    invariant
                        j <= out@.len(),
                        out@.map_values(|s2: String| s2@) == acc0,
                        found <==> exists|m: int| 0 <= m < j && acc0[m] == s@,
                    decreases out@.len() - j,
                {
                    if out[j].eq(s) {
                        found = true;
                        proof {
                            assert(acc0[j as int] == s@);
                        }
                    }
                    j = j + 1;
                }
                proof {
                    assert(found == acc0.contains(s@));
                }
                if !found {
                    out.push(s.clone());
                    proof {
                        assert(out@.map_values(|s2: String| s2@) =~= acc0.push(s@));
                        assert(distinct_keys(acc0.push(s@))) by {
                            assert forall|a: int, b: int|
                                0 <= a < b < acc0.push(s@).len() implies acc0.push(s@)[a]
                                != acc0.push(s@)[b] by {
                                if b < acc0.len() {
                                } else {
                                    assert(acc0.push(s@)[b] == s@);
                                    assert(acc0.push(s@)[a] == acc0[a]);
                                    assert(acc0.contains(acc0[a]));
                                }
                            }
                        }
                    }
                }
            },
        }
        i = i + 1;
    }
    proof {
        assert(pairs@.skip(i as int) =~= Seq::<PagePair>::empty());
    }
    out
}

/// The events and outputs of one content group from page `0` on: each
/// page's node, its written attachments, and its rewritten document.
pub open spec fn group_pages_spec(g: Seq<PagePair>, dir: Seq<char>) -> (
    Seq<EventV>,
    Seq<(Seq<char>, Seq<u8>)>,
    Seq<(Seq<char>, Seq<char>)>,
)
    decreases g.len(),
{
    if g.len() == 0 {
        (Seq::empty(), Seq::empty(), Seq::empty())
    } else {
        let p = g[0].0;
        let h = handle_files_spec(p.doc@, p.files@, data_view(g[0].1@), dir, 0);
        let rest = group_pages_spec(g.skip(1), dir);
        (
            seq![nod_start(dir, p.slug@, p.last_modified@)] + h.1 + seq![EventV::End] + rest.0,
            h.2 + rest.1,
            seq![(p.slug@ + ".html"@, h.0)] + rest.2,
        )
    }
}

/// One content group: the pages wrapped in a content element.
pub open spec fn innehall_events(g: Seq<PagePair>, dir: Seq<char>) -> Seq<EventV> {
    seq![EventV::Start { name: "Innehall"@, attrs: Seq::empty() }] + group_pages_spec(g, dir).0
        + seq![EventV::End]
}

/// The localized course names, one leaf each.
pub open spec fn kursnamn_events(names: Seq<(Seq<char>, Seq<char>)>) -> Seq<EventV>
    decreases names.len(),
{
    if names.len() == 0 {
        Seq::empty()
    } else {
        leaf_events("Kursnamn"@, seq![("Lang"@, names[0].0)], names[0].1) + kursnamn_events(
            names.skip(1),
        )
    }
}

/// The occasion groups from key `j` on, each wrapping its identifier
/// leaf and its own content group.
pub open spec fn occ_groups_spec(
    keys: Seq<Seq<char>>,
    all: Seq<PagePair>,
    dir: Seq<char>,
    j: int,
) -> (Seq<EventV>, Seq<(Seq<char>, Seq<u8>)>, Seq<(Seq<char>, Seq<char>)>)
    decreases keys.len() - j,
{
    if j < 0 || j >= keys.len() {
        (Seq::empty(), Seq::empty(), Seq::empty())
    } else {
        let g = filter_occ(all, Option::Some(keys[j]));
        let gp = group_pages_spec(g, dir);
        let rest = occ_groups_spec(keys, all, dir, j + 1);
        (
            seq![EventV::Start { name: "Tillfalle"@, attrs: Seq::empty() }] + leaf_events(
                "Identifierare"@,
                Seq::empty(),
                keys[j],
            ) + seq![EventV::Start { name: "Innehall"@, attrs: Seq::empty() }] + gp.0 + seq![
                EventV::End,
                EventV::End,
            ] + rest.0,
            gp.1 + rest.1,
            gp.2 + rest.2,
        )
    }
}

/// The deterministic order of a course's occasion keys: the distinct
/// keys, sorted lexicographically.
pub open spec fn course_keys(pairs: Seq<PagePair>) -> Seq<Seq<char>> {
    sort_keys(keys_acc(pairs, Seq::empty()))
}

/// Everything one retained course adds to the report: the course
/// header with its code and localized names, the ungrouped content
/// group, and each occasion group in deterministic key order; and the
/// attachment and document files to write.
pub open spec fn course_events_spec(
    code: Seq<char>,
    names: Seq<(Seq<char>, Seq<char>)>,
    dir: Seq<char>,
    pairs: Seq<PagePair>,
) -> (Seq<EventV>, Seq<(Seq<char>, Seq<u8>)>, Seq<(Seq<char>, Seq<char>)>) {
    let ung = filter_occ(pairs, Option::None);
    let up = group_pages_spec(ung, dir);
    let og = occ_groups_spec(course_keys(pairs), pairs, dir, 0);
    (
        seq![EventV::Start { name: "Kurs"@, attrs: Seq::empty() }] + leaf_events(
            "Kurskod"@,
            Seq::empty(),
            code,
        ) + kursnamn_events(names) + innehall_events(ung, dir) + og.0 + seq![EventV::End],
        up.1 + og.1,
        up.2 + og.2,
    )
}

/// Write one content group: every page of `g`, in order, with its
/// attachments. Returns what to write to disk: the attachment bytes
/// under their destination names, and each page's rewritten document
/// under its slug.
fn write_group(builder: &mut ReportBuilder, dir: &String, g: Vec<PagePair>) -> (r: (
    Vec<(String, Vec<u8>)>,
    Vec<(String, String)>,
))
    requires
        old(builder).wf(),
        forall|m: int|
            0 <= m < g@.len() ==> (#[trigger] g@[m]).1@.len() == g@[m].0.files@.len(),
    ensures
        final(builder).wf(),
        final(builder).stack() == old(builder).stack(),
        final(builder).stream() == old(builder).stream() + innehall_events(g@, dir@),
        outs_view(r.0@) == group_pages_spec(g@, dir@).1,
        docs_view(r.1@) == group_pages_spec(g@, dir@).2,
{
    let ghost g0 = g@;
    let ghost stream0 = builder.stream();
    let ghost stack0 = builder.stack();
    builder.start(String::from_str("Innehall"), no_attrs());
    let ghost stream1 = builder.stream();
    let mut outs: Vec<(String, Vec<u8>)> = Vec::new();
    let mut docs: Vec<(String, String)> = Vec::new();
    let mut rest = g;
    let ghost mut i: int = 0;
    proof {
        assert(g0.skip(0) =~= g0);
        assert(outs_view(outs@) + group_pages_spec(
            g0,
            dir@,
        ).1 =~= group_pages_spec(g0, dir@).1);
        assert(docs_view(docs@) + group_pages_spec(
            g0,
            dir@,
        ).2 =~= group_pages_spec(g0, dir@).2);
        assert(stream1 =~= stream1 + Seq::<EventV>::empty());
    }
    let ghost mut evs_done: Seq<EventV> = Seq::empty();
    while rest.len() > 0
        invariant
            0 <= i <= g0.len(),
            rest@ == g0.skip(i),
            builder.wf(),
            builder.stack() == stack0.push("Innehall"@),
            builder.stream() == stream1 + evs_done,
            group_pages_spec(g0, dir@).0 == evs_done + group_pages_spec(g0.skip(i), dir@).0,
            group_pages_spec(g0, dir@).1 == outs_view(outs@) + group_pages_spec(
                g0.skip(i),
                dir@,
            ).1,
            group_pages_spec(g0, dir@).2 == docs_view(docs@) + group_pages_spec(
                g0.skip(i),
                dir@,
            ).2,
        decreases rest@.len(),
    {
        let pd = rest.remove(0);
        proof {
            assert(pd == g0.skip(i)[0]);
            assert(rest@ =~= g0.skip(i + 1));
            assert(g0.skip(i).skip(1) =~= g0.skip(i + 1));
        }
        let (mut p, d) = pd;
        proof {
            assert(g0.skip(i)[0] == g0[i]);
        }
        let ghost outs0 = outs_view(outs@);
        let ghost docs0 = docs_view(docs@);
        let mut new_outs = p.handle(builder, dir, &d);
        let ghost h = handle_files_spec(
            g0.skip(i)[0].0.doc@,
            g0.skip(i)[0].0.files@,
            data_view(g0.skip(i)[0].1@),
            dir@,
            0,
        );
        outs.append(&mut new_outs);
        let doc_name = p.slug.concat(".html");
        docs.push((doc_name, p.doc));
        proof {
            assert(outs_view(outs@) =~= outs0 + h.2);
            assert(docs_view(docs@) =~= docs0 + seq![
                (g0.skip(i)[0].0.slug@ + ".html"@, h.0),
            ]);
            evs_done = evs_done + (seq![
                nod_start(dir@, g0.skip(i)[0].0.slug@, g0.skip(i)[0].0.last_modified@),
            ] + h.1 + seq![EventV::End]);
            assert(builder.stream() =~= stream1 + evs_done);
            assert(group_pages_spec(g0, dir@).0 =~= evs_done + group_pages_spec(
                g0.skip(i + 1),
                dir@,
            ).0);
            assert(group_pages_spec(g0, dir@).1 =~= outs_view(outs@) + group_pages_spec(
                g0.skip(i + 1),
                dir@,
            ).1);
            assert(group_pages_spec(g0, dir@).2 =~= docs_view(docs@) + group_pages_spec(
                g0.skip(i + 1),
                dir@,
            ).2);
            i = i + 1;
        }
    }
    builder.end();
    proof {
        assert(g0.skip(i) =~= Seq::<PagePair>::empty());
        assert(group_pages_spec(Seq::<PagePair>::empty(), dir@).0 =~= Seq::<EventV>::empty());
        assert(group_pages_spec(Seq::<PagePair>::empty(), dir@).1 =~= Seq::<
            (Seq<char>, Seq<u8>),
        >::empty());
        assert(group_pages_spec(Seq::<PagePair>::empty(), dir@).2 =~= Seq::<
            (Seq<char>, Seq<char>),
        >::empty());
        assert(evs_done =~= group_pages_spec(g0, dir@).0);
        assert(outs_view(outs@) =~= group_pages_spec(
            g0,
            dir@,
        ).1);
        assert(docs_view(docs@) =~= group_pages_spec(
            g0,
            dir@,
        ).2);
        assert(builder.stream() =~= stream0 + innehall_events(g0, dir@));
        assert(builder.stack() =~= stack0);
    }
    (outs, docs)
}

/// Write one course into the report: nothing at all when it has no
/// retained pages, else the course header, the ungrouped content
/// group, and each occasion group in lexicographic key order. Returns
/// whether the course was written, and the attachment and document
/// files to create under the course's destination directory.
#[verifier::rlimit(100)]
pub fn writecourse(
    builder: &mut ReportBuilder,
    code: &String,
    names: &Vec<(String, String)>,
    dir: &String,
    pairs: Vec<PagePair>,
) -> (r: (bool, Vec<(String, Vec<u8>)>, Vec<(String, String)>))
    requires
        old(builder).wf(),
        forall|m: int|
            0 <= m < pairs@.len() ==> (#[trigger] pairs@[m]).1@.len()
                == pairs@[m].0.files@.len(),
    ensures
        final(builder).wf(),
        final(builder).stack() == old(builder).stack(),
        r.0 == (pairs@.len() != 0),
        pairs@.len() == 0 ==> final(builder).stream() == old(builder).stream() && r.1@.len() == 0
            && r.2@.len() == 0,
        pairs@.len() != 0 ==> ({
            let ce = course_events_spec(
                code@,
                names@.map_values(|p: (String, String)| (p.0@, p.1@)),
                dir@,
                pairs@,
            );
            final(builder).stream() == old(builder).stream() + ce.0 && outs_view(r.1@) == ce.1 && docs_view(r.2@) == ce.2
        }),
{
    if pairs.len() == 0 {
        let outs: Vec<(String, Vec<u8>)> = Vec::new();
        let docs: Vec<(String, String)> = Vec::new();
        return (false, outs, docs);
    }
    let ghost pairs0 = pairs@;
    let ghost stream0 = builder.stream();
    let ghost stack0 = builder.stack();
    let ghost namesv = names@.map_values(|p: (String, String)| (p.0@, p.1@));

    builder.start(String::from_str("Kurs"), no_attrs());
    builder.leaf(String::from_str("Kurskod"), no_attrs(), code.clone());

    let mut i: usize = 0;
    let ghost mut nm_done: Seq<EventV> = Seq::empty();
    let ghost stream_nm = builder.stream();
    proof {
        assert(namesv.skip(0) =~= namesv);
        assert(builder.stream() =~= stream_nm + nm_done);
    }
    while i < names.len()
        invariant
            i <= names@.len(),
            namesv == names@.map_values(|p: (String, String)| (p.0@, p.1@)),
            builder.wf(),
            builder.stack() == stack0.push("Kurs"@),
            builder.stream() == stream_nm + nm_done,
            kursnamn_events(namesv) == nm_done + kursnamn_events(namesv.skip(i as int)),
        decreases names@.len() - i,
    {
        let lang = names[i].0.clone();
        let name = names[i].1.clone();
        let attrs: Vec<(String, String)> = vec![(String::from_str("Lang"), lang)];
        proof {
            assert(attrs@.map_values(|p: (String, String)| (p.0@, p.1@)) =~= seq![
                ("Lang"@, namesv[i as int].0),
            ]);
            assert(namesv.skip(i as int)[0] == namesv[i as int]);
            assert(namesv.skip(i as int).skip(1) =~= namesv.skip(i + 1));
        }
        builder.leaf(String::from_str("Kursnamn"), attrs, name);
        proof {
            nm_done = nm_done + leaf_events(
                "Kursnamn"@,
                seq![("Lang"@, namesv[i as int].0)],
                namesv[i as int].1,
            );
            assert(builder.stream() =~= stream_nm + nm_done);
            assert(kursnamn_events(namesv) =~= nm_done + kursnamn_events(namesv.skip(i + 1)));
        }
        i = i + 1;
    }
    proof {
        assert(namesv.skip(i as int) =~= Seq::<(Seq<char>, Seq<char>)>::empty());
        assert(kursnamn_events(namesv) =~= nm_done);
    }

    let keys = collect_keys(&pairs);
    let sorted = sort_keys_x(keys);
    let ghost sortedv = sorted@.map_values(|s: String| s@);
    proof {
        assert(sortedv == course_keys(pairs0));
        crate::keys::lemma_sort_distinct(keys_acc(pairs0, Seq::empty()));
    }

    let (ung, mut pool) = extract_occ(pairs, None);
    proof {
        assert forall|m: int| 0 <= m < sortedv.len() implies filter_occ(
            pool@,
            Option::Some(sortedv[m]),
        ) == filter_occ(pairs0, Option::Some(sortedv[m])) by {
            lemma_filter_commute(pairs0, Option::Some(sortedv[m]), Option::<Seq<char>>::None);
        }
    }
    proof {
        lemma_filter_contains(pairs0, Option::<Seq<char>>::None);
        assert forall|m: int|
            0 <= m < ung@.len() implies (#[trigger] ung@[m]).1@.len()
            == ung@[m].0.files@.len() by {
            assert(pairs0.contains(ung@[m]));
            let n = choose|n: int| 0 <= n < pairs0.len() && pairs0[n] == ung@[m];
            assert(pairs0[n].1@.len() == pairs0[n].0.files@.len());
        }
    }
    let (mut outs, mut docs) = write_group(builder, dir, ung);
    let ghost stream_u = builder.stream();
    let ghost og_full = occ_groups_spec(sortedv, pairs0, dir@, 0);
    let ghost up = group_pages_spec(filter_occ(pairs0, Option::None), dir@);

    let mut j: usize = 0;
    let ghost mut og_evs: Seq<EventV> = Seq::empty();
    let ghost mut og_outs: Seq<(Seq<char>, Seq<u8>)> = Seq::empty();
    let ghost mut og_docs: Seq<(Seq<char>, Seq<char>)> = Seq::empty();
    proof {
        assert(og_full.0 =~= og_evs + occ_groups_spec(sortedv, pairs0, dir@, 0).0);
        assert(og_full.1 =~= og_outs + occ_groups_spec(sortedv, pairs0, dir@, 0).1);
        assert(og_full.2 =~= og_docs + occ_groups_spec(sortedv, pairs0, dir@, 0).2);
        assert(outs_view(outs@) =~= up.1 + og_outs);
        assert(docs_view(docs@) =~= up.2 + og_docs);
    }
    while j < sorted.len()
        invariant
            j <= sorted@.len(),
            sortedv == sorted@.map_values(|s: String| s@),
            distinct_keys(sortedv),
            builder.wf(),
            builder.stack() == stack0.push("Kurs"@),
            builder.stream() == stream_u + og_evs,
            forall|m: int|
                j <= m < sortedv.len() ==> filter_occ(pool@, Option::Some(sortedv[m]))
                    == filter_occ(pairs0, Option::Some(sortedv[m])),
            og_full.0 == og_evs + occ_groups_spec(sortedv, pairs0, dir@, j as int).0,
            og_full.1 == og_outs + occ_groups_spec(sortedv, pairs0, dir@, j as int).1,
            og_full.2 == og_docs + occ_groups_spec(sortedv, pairs0, dir@, j as int).2,
            outs_view(outs@) == up.1 + og_outs,
            docs_view(docs@) == up.2 + og_docs,
        decreases sorted@.len() - j,
    {
        let key = sorted[j].clone();
        let ghost poolv = pool@;
        let (g, pool2) = extract_occ(pool, Some(&key));
        pool = pool2;
        proof {
            assert(g@ == filter_occ(pairs0, Option::Some(sortedv[j as int])));
            assert forall|m: int| j + 1 <= m < sortedv.len() implies filter_occ(
                pool@,
                Option::Some(sortedv[m]),
            ) == filter_occ(pairs0, Option::Some(sortedv[m])) by {
                assert(sortedv[m] != sortedv[j as int]);
                lemma_filter_commute(
                    poolv,
                    Option::Some(sortedv[m]),
                    Option::Some(sortedv[j as int]),
                );
            }
        }
        builder.start(String::from_str("Tillfalle"), no_attrs());
        builder.leaf(String::from_str("Identifierare"), no_attrs(), key);
        let ghost gp = group_pages_spec(g@, dir@);
        proof {
            lemma_filter_contains(pairs0, Option::Some(sortedv[j as int]));
            assert forall|m: int|
                0 <= m < g@.len() implies (#[trigger] g@[m]).1@.len()
                == g@[m].0.files@.len() by {
                assert(pairs0.contains(g@[m]));
                let n = choose|n: int| 0 <= n < pairs0.len() && pairs0[n] == g@[m];
                assert(pairs0[n].1@.len() == pairs0[n].0.files@.len());
            }
        }
        let (mut g_outs, mut g_docs) = write_group(builder, dir, g);
        let ghost outs_a = outs@;
        let ghost docs_a = docs@;
        let ghost gouts_v = g_outs@;
        let ghost gdocs_v = g_docs@;
        outs.append(&mut g_outs);
        docs.append(&mut g_docs);
        builder.end();
        proof {
            lemma_outs_view_concat(outs_a, gouts_v);
            lemma_docs_view_concat(docs_a, gdocs_v);
            assert(outs_view(outs@) == outs_view(outs_a) + gp.1);
            assert(docs_view(docs@) == docs_view(docs_a) + gp.2);
            og_evs = og_evs + (seq![
                EventV::Start { name: "Tillfalle"@, attrs: Seq::empty() },
            ] + leaf_events("Identifierare"@, Seq::empty(), sortedv[j as int]) + seq![
                EventV::Start { name: "Innehall"@, attrs: Seq::empty() },
            ] + gp.0 + seq![EventV::End, EventV::End]);
            og_outs = og_outs + gp.1;
            og_docs = og_docs + gp.2;
            assert(builder.stream() =~= stream_u + og_evs);
            assert(builder.stack() =~= stack0.push("Kurs"@));
            assert(outs_view(outs@) =~= up.1 + og_outs);
            assert(docs_view(docs@) =~= up.2 + og_docs);
            assert(og_full.0 =~= og_evs + occ_groups_spec(sortedv, pairs0, dir@, j + 1).0);
            assert(og_full.1 =~= og_outs + occ_groups_spec(sortedv, pairs0, dir@, j + 1).1);
            assert(og_full.2 =~= og_docs + occ_groups_spec(sortedv, pairs0, dir@, j + 1).2);
        }
        j = j + 1;
    }
    builder.end();
    proof {
        assert(occ_groups_spec(sortedv, pairs0, dir@, j as int).0 =~= Seq::<EventV>::empty());
        assert(occ_groups_spec(sortedv, pairs0, dir@, j as int).1 =~= Seq::<
            (Seq<char>, Seq<u8>),
        >::empty());
        assert(occ_groups_spec(sortedv, pairs0, dir@, j as int).2 =~= Seq::<
            (Seq<char>, Seq<char>),
        >::empty());
        let ce = course_events_spec(code@, namesv, dir@, pairs0);
        assert(og_full.0 =~= og_evs);
        assert(og_full.1 =~= og_outs);
        assert(og_full.2 =~= og_docs);
        assert(builder.stream() =~= stream0 + ce.0);
        assert(outs_view(outs@) =~= ce.1);
        assert(docs_view(docs@) =~= ce.2);
        assert(builder.stack() =~= stack0);
    }
    (true, outs, docs)
}

} // verus!
