//! The document-level drive: parsing a whole source into a `Document`,
//! the import bookkeeping (path resolution, the seen-paths claim that
//! prevents a second parse of the same file), and the publication of
//! import anchors once the imported documents are in.
//!
//! The caller performs the file reading and the scheduling of child
//! parses; everything that decides — what is claimed, what is resolved,
//! where each result lands — is verified here.

use vstd::prelude::*;
use crate::block::{
    block_import_paths, blocks_import_paths, first_block_owed, first_block_shape,
};
use crate::elements::{block_wf, doc_wf, Block, Document, Import, ImportAnchor};
use crate::numfmt::{push_char, str_chars_vec};
use crate::parser::Parser;

verus! {

impl Parser {
    /// Parses the whole text into a document: blocks in order, stopping at
    /// the end of the input or at the first unrecoverable error (the
    /// document is then the partial result). The parsed document is
    /// well-formed, the pending imports grow by exactly the import blocks
    /// emitted, in order, and an input that opens with a block construct
    /// yields a document whose first block is that construct, with the
    /// contents the productions fix.
    pub fn parse(&mut self) -> (d: Document)
        requires
            old(self).wf(),
        ensures
            final(self).wf(),
            old(self).same_text(*final(self)),
            doc_wf(d),
            d.is_root == !old(self).is_child,
            d.path == old(self).path,
            final(self).pending_imports@ == old(self).pending_imports@ + blocks_import_paths(
                d.elements@,
            ),
            first_block_owed(old(self).text@, old(self).index as int, old(self).section_nesting)
                && !(old(self).section_return is Some && old(self).section_return->0 <= old(
                self,
            ).section_nesting && old(self).section_nesting > 0) ==> (d.elements@.len() > 0
                && first_block_shape(
                old(self).text@,
                old(self).index as int,
                old(self).section_nesting,
                d.elements@[0],
            )),
        decreases self.text@.len() - self.index, 11int,
    {
        let ghost t = self.text@;
        let ghost i0 = self.index as int;
        let ghost nest0 = self.section_nesting;
        let ghost leadp = first_block_owed(t, i0, nest0) && !(self.section_return is Some
            && self.section_return->0 <= self.section_nesting && self.section_nesting > 0);
        let mut document = Document::new(!self.is_child);
        document.path = match &self.path {
            Some(p) => Some(p.clone()),
            None => None,
        };
        proof {
            assert(blocks_import_paths(document.elements@) =~= Seq::<String>::empty());
            assert(self.pending_imports@ =~= self.pending_imports@ + blocks_import_paths(
                document.elements@,
            ));
        }
        loop
            invariant
                self.wf(),
                old(self).same_text(*self),
                t == self.text@,
                i0 == old(self).index,
                nest0 == old(self).section_nesting,
                leadp == (first_block_owed(t, i0, nest0) && !(old(self).section_return is Some
                    && old(self).section_return->0 <= old(self).section_nesting && old(
                    self,
                ).section_nesting > 0)),
                document.is_root == !old(self).is_child,
                document.path == old(self).path,
                leadp && document.elements@.len() == 0 ==> self.index as int == i0
                    && self.section_return == old(self).section_return
                    && self.section_nesting == old(self).section_nesting,
                leadp && document.elements@.len() > 0 ==> first_block_shape(
                    t,
                    i0,
                    nest0,
                    document.elements@[0],
                ),
                forall|i: int|
                    0 <= i < document.elements@.len() ==> block_wf(
                        #[trigger] document.elements@[i],
                    ),
                self.pending_imports@ == old(self).pending_imports@ + blocks_import_paths(
                    document.elements@,
                ),
            ensures
                self.wf(),
                old(self).same_text(*self),
                document.is_root == !old(self).is_child,
                document.path == old(self).path,
                leadp ==> document.elements@.len() > 0 && first_block_shape(
                    t,
                    i0,
                    nest0,
                    document.elements@[0],
                ),
                forall|i: int|
                    0 <= i < document.elements@.len() ==> block_wf(
                        #[trigger] document.elements@[i],
                    ),
                self.pending_imports@ == old(self).pending_imports@ + blocks_import_paths(
                    document.elements@,
                ),
            decreases self.text@.len() - self.index,
        {
            if self.index >= self.text.len() {
                proof {
                    if leadp && document.elements@.len() == 0 {
                        assert(false);
                    }
                }
                break ;
            }
            let ghost before = document.elements@;
            match self.parse_block() {
                Ok(block) => {
                    proof {
                        assert(document.elements@.push(block).drop_last()
                            =~= document.elements@);
                        assert(document.elements@.push(block).last() == block);
                        assert(old(self).pending_imports@ + (blocks_import_paths(
                            document.elements@,
                        ) + block_import_paths(block)) =~= (old(self).pending_imports@
                            + blocks_import_paths(document.elements@)) + block_import_paths(
                            block,
                        ));
                    }
                    document.add_element(block);
                    proof {
                        if before.len() > 0 {
                            assert(document.elements@[0] == before[0]);
                        }
                    }
                },
                Err(_) => {
                    proof {
                        if leadp && before.len() == 0 {
                            assert(false);
                        }
                    }
                    break ;
                },
            }
        }
        document
    }

    /// The paths of this parser's pending imports, in order of appearance.
    pub fn import_paths(&self) -> (r: Vec<String>)
        ensures
            r@ == self.pending_imports@,
    {
        clone_strings(&self.pending_imports)
    }
}

fn clone_strings(v: &Vec<String>) -> (r: Vec<String>)
    ensures
        r@ == v@,
{
    let mut r: Vec<String> = Vec::new();
    let mut i: usize = 0;
    while i < v.len()
        invariant
            i <= v@.len(),
            r@ =~= v@.subrange(0, i as int),
        decreases v@.len() - i,
    {
        r.push(v[i].clone());
        proof {
            assert(v@.subrange(0, i + 1) =~= v@.subrange(0, i as int).push(v@[i as int]));
        }
        i = i + 1;
    }
    proof {
        assert(v@.subrange(0, v@.len() as int) =~= v@);
    }
    r
}

/// Is some seen path equal (character for character) to `p`?
pub open spec fn seen_has(seen: Seq<String>, p: Seq<char>) -> bool {
    exists|i: int| 0 <= i < seen.len() && (#[trigger] seen[i])@ == p
}

/// Check-and-insert on the shared seen-paths list: the claim succeeds
/// exactly when the path has not been seen, and then records it. Whoever
/// holds the list, a path can be claimed only once.
pub fn claim_path(seen: &mut Vec<String>, path: &String) -> (claimed: bool)
    ensures
        claimed <==> !seen_has(old(seen)@, path@),
        claimed ==> final(seen)@.len() == old(seen)@.len() + 1 && final(seen)@.drop_last() == old(
            seen,
        )@ && final(seen)@.last()@ == path@,
        !claimed ==> final(seen)@ == old(seen)@,
        seen_has(final(seen)@, path@),
{
    let mut i: usize = 0;
    while i < seen.len()
        invariant
            i <= seen@.len(),
            forall|j: int| 0 <= j < i ==> (#[trigger] seen@[j])@ != path@,
        decreases seen@.len() - i,
    {
        if seen[i] == *path {
            return false;
        }
        i = i + 1;
    }
    let p = path.clone();
    seen.push(p);
    proof {
        assert(final(seen)@.drop_last() =~= old(seen)@);
        assert(final(seen)@.last()@ == path@);
    }
    true
}

/// Import idempotence: of two claims of the same path against the same
/// evolving seen-list, at most one can succeed: the first claim (if it
/// succeeds) records the path, and the second claim sees it.
pub proof fn lemma_claim_path_once(
    seen0: Seq<String>,
    c1: bool,
    seen1: Seq<String>,
    c2: bool,
    p: Seq<char>,
)
    requires
        c1 <==> !seen_has(seen0, p),
        seen_has(seen1, p),
        c2 <==> !seen_has(seen1, p),
    ensures
        !c2,
{
}

/// Resolving `path` against the directory of `base`: an absolute path
/// stays as it is, a relative one is joined onto everything of `base` up
/// to (and including) its last slash.
pub open spec fn resolved_path(base: Option<Seq<char>>, path: Seq<char>) -> Seq<char> {
    if path.len() > 0 && path[0] == '/' {
        path
    } else {
        match base {
            Some(b) => dir_prefix(b, b.len() as int) + path,
            None => path,
        }
    }
}

/// Everything of `b[..upto]` up to and including the last slash (empty
/// when there is none).
pub open spec fn dir_prefix(b: Seq<char>, upto: int) -> Seq<char>
    decreases upto,
{
    if upto <= 0 || upto > b.len() {
        Seq::empty()
    } else if b[upto - 1] == '/' {
        b.subrange(0, upto)
    } else {
        dir_prefix(b, upto - 1)
    }
}

/// Makes an import path relative to the importing file's directory.
pub fn transform_path(base: &Option<String>, path: &String) -> (r: String)
    ensures
        r@ == resolved_path(
            match base {
                Some(b) => Some(b@),
                None => None,
            },
            path@,
        ),
{
    let pcs = str_chars_vec(path.as_str());
    if pcs.len() > 0 && pcs[0] == '/' {
        return path.clone();
    }
    match base {
        Some(b) => {
            let bcs = str_chars_vec(b.as_str());
            let mut upto = bcs.len();
            while upto > 0 && bcs[upto - 1] != '/'
                invariant
                    upto <= bcs@.len(),
                    bcs@ == b@,
                    dir_prefix(b@, b@.len() as int) == dir_prefix(b@, upto as int),
                decreases upto,
            {
                upto = upto - 1;
            }
            let mut r = String::new();
            let mut k: usize = 0;
            while k < upto
                invariant
                    k <= upto <= bcs@.len(),
                    bcs@ == b@,
                    dir_prefix(b@, b@.len() as int) == dir_prefix(b@, upto as int),
                    upto > 0 ==> b@[upto - 1] == '/',
                    r@ == b@.subrange(0, k as int),
                decreases upto - k,
            {
                push_char(&mut r, bcs[k]);
                proof {
                    assert(b@.subrange(0, k + 1) =~= b@.subrange(0, k as int).push(b@[k as int]));
                }
                k = k + 1;
            }
            r.append(path.as_str());
            proof {
                if upto > 0 {
                    assert(dir_prefix(b@, upto as int) =~= b@.subrange(0, upto as int));
                } else {
                    assert(dir_prefix(b@, 0) =~= Seq::<char>::empty());
                    assert(b@.subrange(0, 0) =~= Seq::<char>::empty());
                }
            }
            r
        },
        None => path.clone(),
    }
}

/// Does every import block of the document carry a published anchor?
pub open spec fn all_anchors_published(d: Document) -> bool {
    forall|i: int|
        0 <= i < d.elements@.len() ==> ((#[trigger] d.elements@[i]) is Import
            ==> d.elements@[i]->Import_0.anchor.published)
}

/// The decomposition of a block sequence's import paths at its first
/// element.
pub proof fn lemma_bip_first(s: Seq<Block>)
    requires
        s.len() > 0,
    ensures
        blocks_import_paths(s) == block_import_paths(s[0]) + blocks_import_paths(s.drop_first()),
    decreases s.len(),
{
    if s.len() == 1 {
        assert(s.drop_last() =~= Seq::<Block>::empty());
        assert(s.drop_first() =~= Seq::<Block>::empty());
        assert(blocks_import_paths(s) =~= block_import_paths(s[0]) + blocks_import_paths(
            s.drop_first(),
        ));
    } else {
        lemma_bip_first(s.drop_last());
        assert(s.drop_last()[0] == s[0]);
        assert(s.drop_last().drop_first() =~= s.drop_first().drop_last());
        assert(s.drop_first().last() == s.last());
        assert(blocks_import_paths(s) =~= block_import_paths(s[0]) + blocks_import_paths(
            s.drop_first(),
        ));
    }
}

/// How many import blocks stand among the first `i` elements.
pub open spec fn imports_before(s: Seq<Block>, i: int) -> int {
    blocks_import_paths(s.subrange(0, i)).len() as int
}

/// Publishes the import results into the document: the k-th import block
/// in order of appearance receives exactly the k-th result (a missing
/// document marks the import as failed), every other block is unchanged,
/// and the import paths are kept. Afterwards every anchor of the document
/// has been published, and the document stays well-formed.
pub fn publish_all(doc: Document, results: Vec<Option<Document>>) -> (d: Document)
    requires
        doc_wf(doc),
        results@.len() == blocks_import_paths(doc.elements@).len(),
    ensures
        doc_wf(d),
        all_anchors_published(d),
        d.is_root == doc.is_root,
        d.path == doc.path,
        d.style == doc.style,
        d.elements@.len() == doc.elements@.len(),
        forall|i: int|
            0 <= i < doc.elements@.len() && !((#[trigger] doc.elements@[i]) is Import)
                ==> d.elements@[i] == doc.elements@[i],
        forall|i: int|
            0 <= i < doc.elements@.len() && (#[trigger] doc.elements@[i]) is Import ==> (
            d.elements@[i] is Import && d.elements@[i]->Import_0.path
                == doc.elements@[i]->Import_0.path && d.elements@[i]->Import_0.anchor.published
                && d.elements@[i]->Import_0.anchor.document == results@[imports_before(
                doc.elements@,
                i,
            )]),
{
    let Document { elements, is_root, path, style } = doc;
    let ghost orig = elements@;
    let ghost all_results = results@;
    let mut elems = elements;
    let mut rest = results;
    let mut out: Vec<Block> = Vec::new();
    proof {
        assert(orig.subrange(0, 0) =~= Seq::<Block>::empty());
        assert(orig.skip(0) =~= orig);
        assert(all_results.skip(0) =~= all_results);
    }
    while elems.len() > 0
        invariant
            out@.len() + elems@.len() == orig.len(),
            elems@ == orig.skip(out@.len() as int),
            rest@ == all_results.skip(imports_before(orig, out@.len() as int)),
            all_results.len() == blocks_import_paths(orig).len(),
            0 <= imports_before(orig, out@.len() as int) <= all_results.len(),
            forall|i: int| 0 <= i < orig.len() ==> block_wf(#[trigger] orig[i]),
            forall|i: int|
                0 <= i < out@.len() && !((#[trigger] orig[i]) is Import) ==> out@[i] == orig[i],
            forall|i: int|
                0 <= i < out@.len() && (#[trigger] orig[i]) is Import ==> (out@[i] is Import
                    && out@[i]->Import_0.path == orig[i]->Import_0.path
                    && out@[i]->Import_0.anchor.published
                    && out@[i]->Import_0.anchor.document == all_results[imports_before(orig, i)]),
        decreases elems@.len(),
    {
        let ghost i = out@.len() as int;
        let ghost k = imports_before(orig, i);
        let b = elems.remove(0);
        proof {
            assert(orig.skip(i).drop_first() =~= orig.skip(i + 1));
            assert(orig.skip(i)[0] == orig[i]);
            assert(b == orig[i]);
            assert(orig.subrange(0, i + 1).drop_last() =~= orig.subrange(0, i));
            assert(orig.subrange(0, i + 1).last() == orig[i]);
            // the import paths of the whole split at position i
            assert(orig =~= orig.subrange(0, i) + orig.skip(i));
            lemma_bip_split(orig.subrange(0, i), orig.skip(i));
        }
        let b2 = match b {
            Block::Import(im) => {
                proof {
                    lemma_bip_first(orig.skip(i));
                    assert(block_import_paths(orig[i]) =~= seq![im.path]);
                    assert(blocks_import_paths(orig.skip(i)).len() >= 1);
                    assert(rest@.len() >= 1);
                }
                let r0 = rest.remove(0);
                proof {
                    assert(all_results.skip(k).drop_first() =~= all_results.skip(k + 1));
                    assert(all_results.skip(k)[0] == all_results[k]);
                    assert(imports_before(orig, i + 1) == k + 1);
                }
                Block::Import(Import {
                    path: im.path,
                    anchor: ImportAnchor { document: r0, published: true },
                })
            },
            other => {
                proof {
                    assert(block_import_paths(other) =~= Seq::<String>::empty());
                    assert(imports_before(orig, i + 1) == k);
                }
                other
            },
        };
        proof {
            assert(block_wf(b2));
        }
        out.push(b2);
    }
    proof {
        assert(out@.len() == orig.len());
        assert forall|i: int| 0 <= i < out@.len() implies block_wf(#[trigger] out@[i]) by {
            if orig[i] is Import {
                assert(out@[i] is Import);
            } else {
                assert(out@[i] == orig[i]);
            }
        }
        assert forall|i: int|
            0 <= i < out@.len() implies ((#[trigger] out@[i]) is Import
            ==> out@[i]->Import_0.anchor.published) by {
            if out@[i] is Import {
                if orig[i] is Import {
                } else {
                    assert(out@[i] == orig[i]);
                }
            }
        }
    }
    Document { elements: out, is_root, path, style }
}

/// Import paths distribute over concatenation.
pub proof fn lemma_bip_split(a: Seq<Block>, b: Seq<Block>)
    ensures
        blocks_import_paths(a + b) == blocks_import_paths(a) + blocks_import_paths(b),
    decreases b.len(),
{
    if b.len() == 0 {
        assert(a + b =~= a);
        assert(blocks_import_paths(b) =~= Seq::<String>::empty());
        assert(blocks_import_paths(a + b) =~= blocks_import_paths(a) + blocks_import_paths(b));
    } else {
        lemma_bip_split(a, b.drop_last());
        assert((a + b).drop_last() =~= a + b.drop_last());
        assert((a + b).last() == b.last());
        assert(blocks_import_paths(a + b) =~= blocks_import_paths(a) + blocks_import_paths(b));
    }
}

} // verus!
