//! The renderer's escape discipline.
//!
//! Text positions use a minimal entity encoding for `"`, `&`, `'`, `<` and
//! `>`; attribute positions additionally hex-encode every non-alphanumeric
//! ASCII character, so the value is safe inside single-quoted delimiters.
//! The encoders themselves come from the `htmlescape` crate; their effect is
//! stated here exactly, character by character, and the escaping guarantees
//! are proved from that statement.

use vstd::prelude::*;

verus! {

/// The minimal entity for a character, if it has one.
pub open spec fn entity_for(c: char) -> Option<Seq<char>> {
    if c == '"' {
        Some(seq!['&', 'q', 'u', 'o', 't', ';'])
    } else if c == '&' {
        Some(seq!['&', 'a', 'm', 'p', ';'])
    } else if c == '\'' {
        Some(seq!['&', '#', 'x', '2', '7', ';'])
    } else if c == '<' {
        Some(seq!['&', 'l', 't', ';'])
    } else if c == '>' {
        Some(seq!['&', 'g', 't', ';'])
    } else {
        None
    }
}

/// What one character becomes in a text position.
pub open spec fn encode_min_char(c: char) -> Seq<char> {
    match entity_for(c) {
        Some(e) => e,
        None => seq![c],
    }
}

/// Minimal HTML-entity encoding of a text, character by character.
pub open spec fn encode_min(s: Seq<char>) -> Seq<char>
    decreases s.len(),
{
    if s.len() == 0 {
        Seq::empty()
    } else {
        encode_min_char(s[0]) + encode_min(s.drop_first())
    }
}

pub open spec fn is_ascii_alnum(c: char) -> bool {
    ('a' as u32 <= c as u32 && c as u32 <= 'z' as u32) || ('A' as u32 <= c as u32 && c as u32
        <= 'Z' as u32) || ('0' as u32 <= c as u32 && c as u32 <= '9' as u32)
}

/// The upper-case hex digit for a value below 16.
pub open spec fn hex_digit(n: int) -> char {
    if n == 0 {
        '0'
    } else if n == 1 {
        '1'
    } else if n == 2 {
        '2'
    } else if n == 3 {
        '3'
    } else if n == 4 {
        '4'
    } else if n == 5 {
        '5'
    } else if n == 6 {
        '6'
    } else if n == 7 {
        '7'
    } else if n == 8 {
        '8'
    } else if n == 9 {
        '9'
    } else if n == 10 {
        'A'
    } else if n == 11 {
        'B'
    } else if n == 12 {
        'C'
    } else if n == 13 {
        'D'
    } else if n == 14 {
        'E'
    } else {
        'F'
    }
}

/// What one character becomes in an attribute position: its minimal entity
/// if it has one; otherwise a two-digit hex entity for every other
/// non-alphanumeric character below 256; otherwise the character itself.
pub open spec fn encode_attr_char(c: char) -> Seq<char> {
    match entity_for(c) {
        Some(e) => e,
        None => {
            if (c as u32) < 256 && ((c as u32) > 127 || !is_ascii_alnum(c)) {
                seq!['&', '#', 'x', hex_digit((c as u32 / 16) as int), hex_digit((c as u32 % 16) as int), ';']
            } else {
                seq![c]
            }
        },
    }
}

/// Attribute encoding of a text, character by character.
pub open spec fn encode_attr(s: Seq<char>) -> Seq<char>
    decreases s.len(),
{
    if s.len() == 0 {
        Seq::empty()
    } else {
        encode_attr_char(s[0]) + encode_attr(s.drop_first())
    }
}

/// Relies on htmlescape::encode_minimal: each of `"`, `&`, `'`, `<`, `>`
/// becomes its entity (`&quot;`, `&amp;`, `&#x27;`, `&lt;`, `&gt;`) and
/// every other character is passed through unchanged.
#[verifier::external_body]
pub(crate) fn encode_minimal(s: &str) -> (r: String)
    ensures
        r@ == encode_min(s@),
{
    htmlescape::encode_minimal(s)
}

/// Relies on htmlescape::encode_attribute: the minimal entities, plus a
/// `&#xHH;` entity (upper-case hex) for every other non-alphanumeric ASCII
/// character and every character in 128..256; all else passes through.
#[verifier::external_body]
pub(crate) fn encode_attribute(s: &str) -> (r: String)
    ensures
        r@ == encode_attr(s@),
{
    htmlescape::encode_attribute(s)
}

/// Is `t` fully entity-encoded text: no raw `<` or `>` anywhere, and every
/// `&` the start of one of the five minimal entities?
pub open spec fn entity_encoded(t: Seq<char>) -> bool {
    forall|i: int|
        0 <= i < t.len() ==> (#[trigger] t[i] != '<' && t[i] != '>' && (t[i] == '&'
            ==> starts_entity(t, i)))
}

/// Does one of the five minimal entities start at position `i` of `t`?
pub open spec fn starts_entity(t: Seq<char>, i: int) -> bool {
    exists|c: char|
        (#[trigger] entity_for(c)) is Some && i + entity_for(c)->Some_0.len() <= t.len()
            && t.subrange(i, i + entity_for(c)->Some_0.len()) == entity_for(c)->Some_0
}

/// The characters an entity may contain are never `<` or `>`, and `&` only
/// at its start.
proof fn lemma_entity_chars(c: char)
    requires
        entity_for(c) is Some,
    ensures
        forall|j: int|
            0 <= j < entity_for(c)->Some_0.len() ==> (#[trigger] entity_for(c)->Some_0[j] != '<'
                && entity_for(c)->Some_0[j] != '>' && (entity_for(c)->Some_0[j] == '&' ==> j == 0)),
{
}

/// Minimal encoding yields fully entity-encoded text: the escaping
/// guarantee for every text position of the renderer.
pub proof fn lemma_encode_min_encoded(s: Seq<char>)
    ensures
        entity_encoded(encode_min(s)),
    decreases s.len(),
{
    if s.len() == 0 {
    } else {
        let head = encode_min_char(s[0]);
        let tail = encode_min(s.drop_first());
        lemma_encode_min_encoded(s.drop_first());
        assert forall|i: int| 0 <= i < encode_min(s).len() implies (#[trigger] encode_min(
            s,
        )[i] != '<' && encode_min(s)[i] != '>' && (encode_min(s)[i] == '&' ==> starts_entity(
            encode_min(s),
            i,
        ))) by {
            if i < head.len() {
                match entity_for(s[0]) {
                    Some(e) => {
                        lemma_entity_chars(s[0]);
                        assert(encode_min(s)[i] == e[i]);
                        if e[i] == '&' {
                            assert(i == 0);
                            assert(encode_min(s).subrange(0, e.len() as int) =~= e);
                            assert(starts_entity(encode_min(s), 0));
                        }
                    },
                    None => {
                        assert(encode_min(s)[i] == s[0]);
                        assert(encode_min(s)[i] != '<' && encode_min(s)[i] != '>' && encode_min(
                            s,
                        )[i] != '&');
                    },
                }
            } else {
                let j = i - head.len();
                assert(encode_min(s)[i] == tail[j]);
                assert(tail[j] != '<' && tail[j] != '>' && (tail[j] == '&' ==> starts_entity(
                    tail,
                    j,
                )));
                if tail[j] == '&' {
                    let c = choose|c: char|
                        (#[trigger] entity_for(c)) is Some && j + entity_for(c)->Some_0.len()
                            <= tail.len() && tail.subrange(j, j + entity_for(c)->Some_0.len())
                            == entity_for(c)->Some_0;
                    let e = entity_for(c)->Some_0;
                    assert(encode_min(s).subrange(i, i + e.len()) =~= tail.subrange(
                        j,
                        j + e.len(),
                    ));
                    assert(starts_entity(encode_min(s), i));
                }
            }
        }
    }
}

} // verus!
