//! The library's cross-cutting guarantees, stated and proved over the
//! models that the executable contracts are written against.

use vstd::prelude::*;
use crate::block::plain_block_start;
use crate::elements::Document;
use crate::escape::{encode_min, encode_min_char, entity_encoded};
use crate::inline::{
    inline_special, leading_plain, lemma_plain_stop_ge, opener_at, plain_stop, unescaped_slice,
};
use crate::parser::escaped_at;
use crate::render::{document_html, no_reps};

verus! {

/// Escape round-trip: a backslash before a special character takes its
/// structural role away. The pair is consumed by the plain-text
/// production, the backslash is dropped, the character itself survives at
/// the front of the collected text, and rendering that text entity-encodes
/// it (so it cannot open or close anything in the output either).
pub proof fn lemma_escape_round_trip(t: Seq<char>, i: int, c: char)
    requires
        0 <= i,
        i + 1 < t.len(),
        t[i] == '\\',
        t[i + 1] == c,
        !escaped_at(t, i),
        inline_special(c),
    ensures
        !opener_at(t, i),
        plain_stop(t, i) >= i + 2,
        unescaped_slice(t, i, plain_stop(t, i)).len() >= 1,
        unescaped_slice(t, i, plain_stop(t, i))[0] == c,
        encode_min(unescaped_slice(t, i, plain_stop(t, i))) == encode_min_char(c) + encode_min(
            unescaped_slice(t, i, plain_stop(t, i)).drop_first(),
        ),
        entity_encoded(encode_min(unescaped_slice(t, i, plain_stop(t, i)))),
{
    assert(escaped_at(t, i + 1));
    assert(!opener_at(t, i));
    assert(!opener_at(t, i + 1));
    assert(plain_stop(t, i) == plain_stop(t, i + 1));
    assert(plain_stop(t, i + 1) == plain_stop(t, i + 2));
    lemma_plain_stop_ge(t, i + 2);
    let j = plain_stop(t, i);
    let v = unescaped_slice(t, i, j);
    assert(v =~= unescaped_slice(t, i + 1, j));
    assert(t[i + 1] != '\\');
    assert(unescaped_slice(t, i + 1, j) =~= seq![c] + unescaped_slice(t, i + 2, j));
    assert(v[0] == c);
    assert(encode_min(v) == encode_min_char(v[0]) + encode_min(v.drop_first()));
    crate::escape::lemma_encode_min_encoded(v);
}

/// The escape round-trip carried to the whole parse: a source that opens
/// with a backslash-escaped special character is a plain block start, so
/// `parse` yields a document whose first block is a paragraph, and the
/// paragraph's leading text begins with the character itself, stripped of
/// its backslash.
pub proof fn lemma_escaped_source_is_plain_start(t: Seq<char>, c: char)
    requires
        t.len() > 1,
        t[0] == '\\',
        t[1] == c,
        inline_special(c),
    ensures
        plain_block_start(t, 0),
        leading_plain(t, 0).len() >= 1,
        leading_plain(t, 0)[0] == c,
{
    assert(!escaped_at(t, 0));
    lemma_escape_round_trip(t, 0, c);
}

/// Renderer determinism: the HTML of a frozen document is a function of
/// the tree alone, so rendering the same parse twice (whatever order its
/// imports were published in) gives the same text. Every `to_html` returns
/// exactly this model.
pub proof fn lemma_renderer_deterministic(a: Document, b: Document)
    requires
        a == b,
    ensures
        document_html(a, no_reps()) == document_html(b, no_reps()),
{
}

} // verus!
