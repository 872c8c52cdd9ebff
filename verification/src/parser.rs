//! The reversible, escape-aware cursor that the recursive-descent grammar
//! runs on.
//!
//! The parser owns the full character buffer. `position` (the `index`
//! field) can be recorded at any time and `revert_to` restores any
//! previously observed in-range position exactly: both the index and the
//! current character. Every membership test (`check_special`,
//! `check_special_group`, sequence tests) honors escape semantics: a
//! character preceded by an unescaped backslash loses its special role.

use vstd::prelude::*;
use crate::numfmt::{push_char, str_chars_vec};

verus! {

/// A recoverable parse failure: the index it happened at, an optional
/// message, and whether it was caused by the end of the input.
#[derive(Debug)]
pub struct ParseError {
    pub index: usize,
    pub message: Option<String>,
    pub eof: bool,
}

impl ParseError {
    pub fn new(index: usize) -> (e: ParseError)
        ensures
            e.index == index,
            e.message is None,
            !e.eof,
    {
        ParseError { index, message: None, eof: false }
    }

    pub fn new_with_message(index: usize, message: &str) -> (e: ParseError)
        ensures
            e.index == index,
            e.message is Some,
            e.message->0@ == message@,
            !e.eof,
    {
        ParseError { index, message: Some(message.to_owned()), eof: false }
    }

    pub fn new_eof(index: usize) -> (e: ParseError)
        ensures
            e.index == index,
            e.message is None,
            e.eof,
    {
        ParseError { index, message: None, eof: true }
    }

    /// The one-based line and column of the failure in the given source,
    /// or nothing when the index lies outside it.
    pub fn get_position(&self, text: &str) -> (r: Option<(usize, usize)>)
        ensures
            r is Some <==> self.index < text@.len(),
            r is Some ==> r->Some_0.0 as int == 1 + count_lb(text@, self.index as int) && r->Some_0.1 as int
                == self.index - line_start(text@, self.index as int) + 1,
    {
        let cs = str_chars_vec(text);
        let n = cs.len();
        if self.index >= n {
            return None;
        }
        let mut line: usize = 1;
        let mut col: usize = 1;
        let mut k: usize = 0;
        while k < self.index
            invariant
                k <= self.index < n,
                n == cs@.len(),
                cs@ == text@,
                line <= k + 1,
                col <= k + 1,
                line as int == 1 + count_lb(text@, k as int),
                col as int == k - line_start(text@, k as int) + 1,
            decreases self.index - k,
        {
            if cs[k] == '\n' {
                line = line + 1;
                col = 1;
            } else {
                col = col + 1;
            }
            k = k + 1;
        }
        Some((line, col))
    }
}

/// How many linebreaks stand before position `i`.
pub open spec fn count_lb(t: Seq<char>, i: int) -> nat
    decreases i,
{
    if i <= 0 || i > t.len() {
        0
    } else {
        count_lb(t, i - 1) + (if t[i - 1] == '\n' {
            1nat
        } else {
            0nat
        })
    }
}

/// Where the line holding position `i` begins: just after the last
/// linebreak before it.
pub open spec fn line_start(t: Seq<char>, i: int) -> int
    decreases i,
{
    if i <= 0 || i > t.len() {
        0
    } else if t[i - 1] == '\n' {
        i
    } else {
        line_start(t, i - 1)
    }
}

/// Is the character at position `i` of `t` escaped: preceded by a
/// backslash that is not itself escaped?
pub open spec fn escaped_at(t: Seq<char>, i: int) -> bool
    decreases i,
{
    if i <= 0 || i > t.len() {
        false
    } else if t[i - 1] == '\\' {
        !escaped_at(t, i - 1)
    } else {
        false
    }
}

/// The ASCII whitespace characters the grammar cares about.
pub open spec fn is_ws(c: char) -> bool {
    c == ' ' || c == '\t' || c == '\r' || c == '\n'
}

pub fn is_ws_char(c: char) -> (r: bool)
    ensures
        r == is_ws(c),
{
    c == ' ' || c == '\t' || c == '\r' || c == '\n'
}

/// The first position at or after `i` whose character is not whitespace
/// (the length of `t` when all of the rest is whitespace).
pub open spec fn first_non_ws(t: Seq<char>, i: int) -> int
    decreases t.len() - i,
{
    if i < 0 || i >= t.len() {
        i
    } else if !is_ws(t[i]) {
        i
    } else {
        first_non_ws(t, i + 1)
    }
}

/// Where whitespace-seeking stops: at or after `i`, within the text, and
/// (unless at the end) on a non-whitespace character.
pub proof fn lemma_first_non_ws_char(t: Seq<char>, i: int)
    requires
        0 <= i <= t.len(),
    ensures
        i <= first_non_ws(t, i) <= t.len(),
        first_non_ws(t, i) < t.len() ==> !is_ws(t[first_non_ws(t, i)]),
    decreases t.len() - i,
{
    if i < t.len() && is_ws(t[i]) {
        lemma_first_non_ws_char(t, i + 1);
    }
}

/// The first position at or after `i` that is not inline whitespace: not
/// whitespace at all, or an unescaped linebreak.
pub open spec fn first_non_inline_ws(t: Seq<char>, i: int) -> int
    decreases t.len() - i,
{
    if i < 0 || i >= t.len() {
        i
    } else if !is_ws(t[i]) || (t[i] == '\n' && !escaped_at(t, i)) {
        i
    } else {
        first_non_inline_ws(t, i + 1)
    }
}

/// Where inline-whitespace-seeking stops: within the text, and (unless at
/// the end) on a non-whitespace character or an unescaped linebreak.
pub proof fn lemma_first_non_inline_char(t: Seq<char>, i: int)
    requires
        0 <= i <= t.len(),
    ensures
        i <= first_non_inline_ws(t, i) <= t.len(),
        first_non_inline_ws(t, i) < t.len() ==> (!is_ws(t[first_non_inline_ws(t, i)])
            || special_at(t, first_non_inline_ws(t, i), '\n')),
    decreases t.len() - i,
{
    if i < t.len() && is_ws(t[i]) && !(t[i] == '\n' && !escaped_at(t, i)) {
        lemma_first_non_inline_char(t, i + 1);
    }
}

/// When inline-whitespace-seeking stops on a non-whitespace character,
/// full whitespace-seeking stops at the same place.
pub proof fn lemma_seeks_agree(t: Seq<char>, i: int)
    requires
        0 <= i <= t.len(),
        first_non_inline_ws(t, i) < t.len(),
        !is_ws(t[first_non_inline_ws(t, i)]),
    ensures
        first_non_ws(t, i) == first_non_inline_ws(t, i),
    decreases t.len() - i,
{
    if i < t.len() && is_ws(t[i]) && !(t[i] == '\n' && !escaped_at(t, i)) {
        lemma_seeks_agree(t, i + 1);
    }
}

/// The first position at or after `i` holding an unescaped linebreak.
pub open spec fn first_lb(t: Seq<char>, i: int) -> int
    decreases t.len() - i,
{
    if i < 0 || i >= t.len() {
        i
    } else if t[i] == '\n' && !escaped_at(t, i) {
        i
    } else {
        first_lb(t, i + 1)
    }
}

/// Does `c` stand unescaped at position `i` of `t`?
pub open spec fn special_at(t: Seq<char>, i: int, c: char) -> bool {
    0 <= i < t.len() && t[i] == c && !escaped_at(t, i)
}

pub open spec fn group_contains(chars: Seq<char>, c: char) -> bool {
    exists|j: int| 0 <= j < chars.len() && chars[j] == c
}

/// Does one of the characters of `chars` stand unescaped at position `i`?
pub open spec fn special_group_at(t: Seq<char>, i: int, chars: Seq<char>) -> bool {
    0 <= i < t.len() && group_contains(chars, t[i]) && !escaped_at(t, i)
}

/// Does the whole sequence `sq` stand at position `i`, unescaped, with at
/// least one character following it?
pub open spec fn seq_matches(t: Seq<char>, i: int, sq: Seq<char>) -> bool {
    0 <= i && i + sq.len() < t.len() && t.subrange(i, i + sq.len() as int) == sq && !escaped_at(
        t,
        i,
    )
}

pub open spec fn any_seq_matches(t: Seq<char>, i: int, seqs: Seq<Seq<char>>) -> bool {
    exists|m: int| 0 <= m < seqs.len() && seq_matches(t, i, seqs[m])
}

/// The views of a list of character slices.
pub open spec fn seqs_view(seqs: Seq<&[char]>) -> Seq<Seq<char>> {
    Seq::new(seqs.len(), |m: int| seqs[m]@)
}

/// The first position at or after `i` where an unescaped break or error
/// character stands (the length of `t` when there is none).
pub open spec fn scan_stop(t: Seq<char>, i: int, brk: Seq<char>, err: Seq<char>) -> int
    decreases t.len() - i,
{
    if i < 0 || i >= t.len() {
        i
    } else if special_group_at(t, i, brk) || special_group_at(t, i, err) {
        i
    } else {
        scan_stop(t, i + 1, brk, err)
    }
}

/// Does collecting until `brk`/`err` starting at `i` end in an error: the
/// scan stops at an error character that is no break character?
pub open spec fn scan_is_err(t: Seq<char>, i: int, brk: Seq<char>, err: Seq<char>) -> bool {
    let j = scan_stop(t, i, brk, err);
    j < t.len() && special_group_at(t, j, err) && !special_group_at(t, j, brk)
}

/// The first position at or after `i` where a break sequence matches or an
/// unescaped error character stands.
pub open spec fn scan_stop_seq(t: Seq<char>, i: int, seqs: Seq<Seq<char>>, err: Seq<char>) -> int
    decreases t.len() - i,
{
    if i < 0 || i >= t.len() {
        i
    } else if any_seq_matches(t, i, seqs) || special_group_at(t, i, err) {
        i
    } else {
        scan_stop_seq(t, i + 1, seqs, err)
    }
}

/// Does collecting until one of `seqs` starting at `i` end in an error:
/// the scan stops at an error character where no break sequence matches?
pub open spec fn scan_seq_is_err(t: Seq<char>, i: int, seqs: Seq<Seq<char>>, err: Seq<char>) -> bool {
    let j = scan_stop_seq(t, i, seqs, err);
    j < t.len() && special_group_at(t, j, err) && !any_seq_matches(t, j, seqs)
}

/// The character-level parser state.
pub struct Parser {
    pub text: Vec<char>,
    pub index: usize,
    pub current_char: char,
    pub section_nesting: u8,
    pub sections: Vec<u8>,
    pub section_return: Option<u8>,
    pub path: Option<String>,
    pub paths: Vec<String>,
    pub pending_imports: Vec<String>,
    pub is_child: bool,
}

impl Parser {
    /// The cursor is in range and the cached character mirrors the buffer;
    /// the stack of open section sizes is strictly increasing and its top
    /// is the current nesting.
    pub open spec fn wf(self) -> bool {
        &&& self.index <= self.text@.len()
        &&& (self.index < self.text@.len() ==> self.current_char == self.text@[self.index as int])
        &&& (self.sections@.len() > 0 ==> self.section_nesting == self.sections@.last())
        &&& (self.sections@.len() == 0 ==> self.section_nesting == 0)
        &&& (forall|i: int|
            0 <= i && i + 1 < self.sections@.len() ==> (#[trigger] self.sections@[i])
                < self.sections@[i + 1])
        &&& (forall|i: int| 0 <= i < self.sections@.len() ==> (#[trigger] self.sections@[i]) >= 1)
    }

    /// The text being parsed and the parser's identity never change.
    pub open spec fn same_text(self, other: Parser) -> bool {
        &&& other.text@ == self.text@
        &&& other.path == self.path
        &&& other.is_child == self.is_child
    }

    /// The section-nesting state is untouched.
    pub open spec fn same_sections(self, other: Parser) -> bool {
        &&& other.section_nesting == self.section_nesting
        &&& other.sections@ == self.sections@
        &&& other.section_return == self.section_return
    }

    /// The import bookkeeping is untouched.
    pub open spec fn same_imports(self, other: Parser) -> bool {
        &&& other.paths@ == self.paths@
        &&& other.pending_imports@ == self.pending_imports@
    }

    /// All state but the cursor itself is untouched.
    pub open spec fn only_cursor_changed(self, other: Parser) -> bool {
        self.same_text(other) && self.same_sections(other) && self.same_imports(other)
    }

    /// A fresh root parser over a source text.
    pub fn new(text: String, path: Option<String>) -> (p: Parser)
        ensures
            p.wf(),
            p.text@ == text@,
            p.index == 0,
            p.section_nesting == 0,
            p.sections@.len() == 0,
            p.section_return is None,
            p.path == path,
            p.paths@ == match path {
                Some(pp) => seq![pp],
                None => Seq::<String>::empty(),
            },
            p.pending_imports@ == Seq::<String>::empty(),
            !p.is_child,
    {
        let chars = str_chars_vec(text.as_str());
        let current_char = if chars.len() > 0 {
            chars[0]
        } else {
            ' '
        };
        let mut paths: Vec<String> = Vec::new();
        let path2 = match &path {
            Some(pp) => {
                paths.push(pp.clone());
                Some(pp.clone())
            },
            None => None,
        };
        Parser {
            text: chars,
            index: 0,
            current_char,
            section_nesting: 0,
            sections: Vec::new(),
            section_return: None,
            path: path2,
            paths,
            pending_imports: Vec::new(),
            is_child: false,
        }
    }

    /// A child parser for an imported file, sharing the seen-paths list of
    /// its parent (the path itself has already been claimed).
    pub fn child(text: String, path: String, paths: Vec<String>) -> (p: Parser)
        ensures
            p.wf(),
            p.text@ == text@,
            p.index == 0,
            p.section_nesting == 0,
            p.sections@.len() == 0,
            p.section_return is None,
            p.path is Some && p.path->0@ == path@,
            p.paths@ == paths@,
            p.pending_imports@ == Seq::<String>::empty(),
            p.is_child,
    {
        let chars = str_chars_vec(text.as_str());
        let current_char = if chars.len() > 0 {
            chars[0]
        } else {
            ' '
        };
        Parser {
            text: chars,
            index: 0,
            current_char,
            section_nesting: 0,
            sections: Vec::new(),
            section_return: None,
            path: Some(path),
            paths,
            pending_imports: Vec::new(),
            is_child: true,
        }
    }

    /// The import paths recorded so far.
    pub fn get_paths(&self) -> (r: Vec<String>)
        ensures
            r@ == self.paths@,
    {
        let mut r: Vec<String> = Vec::new();
        let mut i: usize = 0;
        while i < self.paths.len()
            invariant
                i <= self.paths@.len(),
                r@ =~= self.paths@.subrange(0, i as int),
            decreases self.paths@.len() - i,
        {
            r.push(self.paths[i].clone());
            proof {
                assert(self.paths@.subrange(0, i + 1) =~= self.paths@.subrange(0, i as int).push(
                    self.paths@[i as int],
                ));
            }
            i = i + 1;
        }
        proof {
            assert(self.paths@.subrange(0, self.paths@.len() as int) =~= self.paths@);
        }
        r
    }

    /// Advances the cursor by one character and returns the character now
    /// under it, or nothing when the end of the input is reached.
    ///
    /// A deliberate choice: at the end of the input the cursor saturates
    /// (the index never passes the text's length), so every position the
    /// parser can observe stays a valid revert target. An unbounded index,
    /// with the previous character cached alongside, would weaken the
    /// cursor's invariant for nothing the grammar needs; escape checks
    /// read the buffer itself (`escaped_at`), not a cached predecessor.
    pub fn next_char(&mut self) -> (r: Option<char>)
        requires
            old(self).wf(),
        ensures
            final(self).wf(),
            old(self).only_cursor_changed(*final(self)),
            final(self).index as int == (if old(self).index < old(self).text@.len() {
                old(self).index + 1
            } else {
                old(self).index as int
            }),
            r is Some <==> final(self).index < final(self).text@.len(),
            r is Some ==> r->0 == final(self).text@[final(self).index as int] && final(self).current_char == r->0,
    {
        if self.index < self.text.len() {
            self.index = self.index + 1;
            if self.index < self.text.len() {
                self.current_char = self.text[self.index];
                return Some(self.current_char);
            }
        }
        None
    }

    /// Advances the cursor without looking at the result.
    pub fn skip_char(&mut self)
        requires
            old(self).wf(),
        ensures
            final(self).wf(),
            old(self).only_cursor_changed(*final(self)),
            final(self).index as int == (if old(self).index < old(self).text@.len() {
                old(self).index + 1
            } else {
                old(self).index as int
            }),
    {
        let _ = self.next_char();
    }

    /// Restores the cursor to a previously observed position: afterwards
    /// the index is `index` and the current character is the buffer's
    /// character there. An out-of-range target fails and moves nothing.
    pub fn revert_to(&mut self, index: usize) -> (r: Result<(), ParseError>)
        requires
            old(self).wf(),
        ensures
            final(self).wf(),
            old(self).only_cursor_changed(*final(self)),
            index < final(self).text@.len() ==> r is Ok && final(self).index == index && final(self).current_char == final(self).text@[index as int],
            index >= final(self).text@.len() ==> r is Err && *final(self) == *old(self)
                && r->Err_0.index == index,
    {
        if index < self.text.len() {
            self.index = index;
            self.current_char = self.text[index];
            Ok(())
        } else {
            Err(ParseError::new(index))
        }
    }

    /// Reverts to `index` and hands back an error naming the position the
    /// failure was noticed at.
    pub fn revert_with_error(&mut self, index: usize) -> (e: ParseError)
        requires
            old(self).wf(),
        ensures
            final(self).wf(),
            old(self).only_cursor_changed(*final(self)),
            index < final(self).text@.len() ==> final(self).index == index && final(self).current_char == final(self).text@[index as int] && e.index == old(self).index,
            index >= final(self).text@.len() ==> *final(self) == *old(self) && e.index == index,
    {
        let err = ParseError::new(self.index);
        match self.revert_to(index) {
            Err(revert_err) => revert_err,
            Ok(_) => err,
        }
    }

    /// Is the current position escaped by a backslash?
    pub fn check_escaped(&self) -> (r: bool)
        requires
            self.wf(),
        ensures
            r == escaped_at(self.text@, self.index as int),
    {
        let ghost t = self.text@;
        let mut k: usize = self.index;
        let mut odd = false;
        while k > 0 && self.text[k - 1] == '\\'
            invariant
                k <= self.text@.len(),
                t == self.text@,
                escaped_at(t, self.index as int) == (odd != escaped_at(t, k as int)),
            decreases k,
        {
            odd = !odd;
            k = k - 1;
        }
        odd
    }

    /// Is `character` under the cursor, unescaped?
    pub fn check_special(&self, character: char) -> (r: bool)
        requires
            self.wf(),
        ensures
            r == special_at(self.text@, self.index as int, character),
    {
        if self.index < self.text.len() {
            self.current_char == character && !self.check_escaped()
        } else {
            false
        }
    }

    /// Is one of `group` under the cursor, unescaped?
    pub fn check_special_group(&self, group: &[char]) -> (r: bool)
        requires
            self.wf(),
        ensures
            r == special_group_at(self.text@, self.index as int, group@),
    {
        if self.index >= self.text.len() {
            return false;
        }
        let mut j: usize = 0;
        let mut found = false;
        while j < group.len()
            invariant
                j <= group@.len(),
                found == exists|m: int| 0 <= m < j && group@[m] == self.current_char,
            decreases group@.len() - j,
        {
            if group[j] == self.current_char {
                found = true;
            }
            j = j + 1;
        }
        found && !self.check_escaped()
    }

    /// Is the current character an unescaped linebreak?
    pub fn check_linebreak(&self) -> (r: bool)
        requires
            self.wf(),
        ensures
            r == special_at(self.text@, self.index as int, '\n'),
    {
        self.check_special('\n')
    }

    /// Has the cursor reached (one before) the end of the input?
    pub fn check_eof(&self) -> (r: bool)
        requires
            self.wf(),
        ensures
            r == (self.index as int >= self.text@.len() - 1),
    {
        self.index >= self.text.len() || self.index + 1 == self.text.len()
    }

    /// Skips inline whitespace: every whitespace character up to (not
    /// including) the first unescaped linebreak or non-whitespace.
    pub fn seek_inline_whitespace(&mut self)
        requires
            old(self).wf(),
        ensures
            final(self).wf(),
            old(self).only_cursor_changed(*final(self)),
            final(self).index as int == first_non_inline_ws(
                old(self).text@,
                old(self).index as int,
            ),
            final(self).index >= old(self).index,
    {
        let ghost t = self.text@;
        let ghost i0 = self.index as int;
        while self.index < self.text.len() && is_ws_char(self.current_char) && !self.check_linebreak()
            invariant
                self.wf(),
                old(self).only_cursor_changed(*self),
                t == self.text@,
                i0 <= self.index as int,
                first_non_inline_ws(t, i0) == first_non_inline_ws(t, self.index as int),
            decreases self.text@.len() - self.index,
        {
            let _ = self.next_char();
        }
    }

    /// Skips all whitespace.
    pub fn seek_whitespace(&mut self)
        requires
            old(self).wf(),
        ensures
            final(self).wf(),
            old(self).only_cursor_changed(*final(self)),
            final(self).index as int == first_non_ws(old(self).text@, old(self).index as int),
            final(self).index >= old(self).index,
    {
        let ghost t = self.text@;
        let ghost i0 = self.index as int;
        while self.index < self.text.len() && is_ws_char(self.current_char)
            invariant
                self.wf(),
                old(self).only_cursor_changed(*self),
                t == self.text@,
                i0 <= self.index as int,
                first_non_ws(t, i0) == first_non_ws(t, self.index as int),
            decreases self.text@.len() - self.index,
        {
            let _ = self.next_char();
        }
    }

    /// Skips to just after the next unescaped linebreak (or to the end of
    /// the input when there is none).
    pub fn seek_until_linebreak(&mut self)
        requires
            old(self).wf(),
        ensures
            final(self).wf(),
            old(self).only_cursor_changed(*final(self)),
            final(self).index as int == (if first_lb(old(self).text@, old(self).index as int)
                < old(self).text@.len() {
                first_lb(old(self).text@, old(self).index as int) + 1
            } else {
                old(self).text@.len() as int
            }),
    {
        let ghost t = self.text@;
        let ghost i0 = self.index as int;
        while self.index < self.text.len() && !self.check_linebreak()
            invariant
                self.wf(),
                old(self).only_cursor_changed(*self),
                t == self.text@,
                i0 <= self.index as int,
                first_lb(t, i0) == first_lb(t, self.index as int),
            decreases self.text@.len() - self.index,
        {
            let _ = self.next_char();
        }
        self.skip_char();
    }

    /// Checks whether the given sequence stands unescaped at the cursor
    /// (with at least one character after it). On a match the cursor moves
    /// onto the last character of the sequence; otherwise it stays put.
    #[verifier::rlimit(100)]
    pub fn check_special_sequence(&mut self, sq: &[char]) -> (r: bool)
        requires
            old(self).wf(),
            sq@.len() > 0,
        ensures
            final(self).wf(),
            old(self).only_cursor_changed(*final(self)),
            r == seq_matches(old(self).text@, old(self).index as int, sq@),
            r ==> final(self).index as int == old(self).index + sq@.len() - 1,
            !r ==> final(self).index == old(self).index && final(self).current_char == old(
                self,
            ).current_char,
    {
        let ghost t = self.text@;
        let start = self.index;
        if self.check_escaped() {
            return false;
        }
        let mut j: usize = 0;
        let mut ok = true;
        while ok && j < sq.len()
            invariant
                old(self).wf(),
                self.wf(),
                old(self).only_cursor_changed(*self),
                t == self.text@,
                t == old(self).text@,
                start == old(self).index,
                sq@.len() > 0,
                !escaped_at(t, start as int),
                ok ==> self.index as int == start + j,
                ok && self.index >= t.len() ==> self.current_char == old(self).current_char,
                ok ==> j <= sq@.len(),
                ok ==> t.subrange(start as int, start + j) =~= sq@.subrange(0, j as int),
                ok && j > 0 ==> start + j < t.len(),
                !ok ==> !seq_matches(t, start as int, sq@),
                !ok ==> self.index == start,
                !ok ==> self.current_char == old(self).current_char,
            decreases sq@.len() - j, (if ok {
                1int
            } else {
                0int
            }),
        {
            if self.index >= self.text.len() || self.current_char != sq[j] {
                proof {
                    if seq_matches(t, start as int, sq@) {
                        assert(t.subrange(start as int, start + sq@.len() as int)[j as int]
                            == t[start + j]);
                    }
                    if start < t.len() {
                        assert(old(self).current_char == t[start as int]);
                    } else {
                        assert(self.index == start);
                        assert(self.current_char == old(self).current_char);
                    }
                }
                let _ = self.revert_to(start);
                ok = false;
            } else {
                proof {
                    assert(t.subrange(start as int, start + j + 1) =~= t.subrange(
                        start as int,
                        start + j,
                    ).push(t[start + j]));
                    assert(sq@.subrange(0, j + 1) =~= sq@.subrange(0, j as int).push(
                        sq@[j as int],
                    ));
                }
                if self.next_char().is_none() {
                    proof {
                        if seq_matches(t, start as int, sq@) {
                            assert(start + sq@.len() < t.len());
                        }
                    }
                    let _ = self.revert_to(start);
                    ok = false;
                } else {
                    j = j + 1;
                }
            }
        }
        if ok {
            proof {
                assert(t.subrange(start as int, start + sq@.len() as int) =~= sq@);
            }
            let _ = self.revert_to(self.index - 1);
            return true;
        }
        false
    }

    /// Checks the sequences in order; the first that matches moves the
    /// cursor onto its last character.
    #[verifier::rlimit(100)]
    pub fn check_special_sequence_group(&mut self, seqs: &[&[char]]) -> (r: bool)
        requires
            old(self).wf(),
            forall|m: int| 0 <= m < seqs@.len() ==> (#[trigger] seqs@[m])@.len() > 0,
        ensures
            final(self).wf(),
            old(self).only_cursor_changed(*final(self)),
            r == (exists|m: int|
                0 <= m < seqs@.len() && seq_matches(
                    old(self).text@,
                    old(self).index as int,
                    (#[trigger] seqs@[m])@,
                )),
            r ==> exists|m: int|
                0 <= m < seqs@.len() && seq_matches(
                    old(self).text@,
                    old(self).index as int,
                    (#[trigger] seqs@[m])@,
                ) && final(self).index as int == old(self).index + seqs@[m]@.len() - 1,
            !r ==> final(self).index == old(self).index && final(self).current_char == old(
                self,
            ).current_char,
    {
        let mut m: usize = 0;
        while m < seqs.len()
            invariant
                self.wf(),
                old(self).only_cursor_changed(*self),
                self.index == old(self).index,
                self.current_char == old(self).current_char,
                self.text@ == old(self).text@,
                forall|k: int| 0 <= k < seqs@.len() ==> (#[trigger] seqs@[k])@.len() > 0,
                forall|k: int|
                    0 <= k < m ==> !seq_matches(
                        old(self).text@,
                        old(self).index as int,
                        (#[trigger] seqs@[k])@,
                    ),
            decreases seqs@.len() - m,
        {
            if self.check_special_sequence(seqs[m]) {
                return true;
            }
            m = m + 1;
        }
        false
    }

    pub fn assert_special(&mut self, character: char, revert_index: usize) -> (r: Result<
        (),
        ParseError,
    >)
        requires
            old(self).wf(),
        ensures
            final(self).wf(),
            old(self).only_cursor_changed(*final(self)),
            r is Ok <==> special_at(old(self).text@, old(self).index as int, character),
            r is Ok ==> *final(self) == *old(self),
            r is Err && revert_index < old(self).text@.len() ==> final(self).index == revert_index,
            r is Err && revert_index >= old(self).text@.len() ==> *final(self) == *old(self),
    {
        if self.check_special(character) {
            Ok(())
        } else {
            Err(self.revert_with_error(revert_index))
        }
    }

    pub fn assert_special_group(&mut self, group: &[char], revert_index: usize) -> (r: Result<
        (),
        ParseError,
    >)
        requires
            old(self).wf(),
        ensures
            final(self).wf(),
            old(self).only_cursor_changed(*final(self)),
            r is Ok <==> special_group_at(old(self).text@, old(self).index as int, group@),
            r is Ok ==> *final(self) == *old(self),
            r is Err && revert_index < old(self).text@.len() ==> final(self).index == revert_index,
            r is Err && revert_index >= old(self).text@.len() ==> *final(self) == *old(self),
    {
        if self.check_special_group(group) {
            Ok(())
        } else {
            Err(self.revert_with_error(revert_index))
        }
    }

    pub fn assert_special_sequence(&mut self, sq: &[char], revert_index: usize) -> (r: Result<
        (),
        ParseError,
    >)
        requires
            old(self).wf(),
            sq@.len() > 0,
        ensures
            final(self).wf(),
            old(self).only_cursor_changed(*final(self)),
            r is Ok <==> seq_matches(old(self).text@, old(self).index as int, sq@),
            r is Ok ==> final(self).index as int == old(self).index + sq@.len() - 1,
            r is Err && revert_index < old(self).text@.len() ==> final(self).index == revert_index,
            r is Err && revert_index >= old(self).text@.len() ==> final(self).index == old(
                self,
            ).index,
    {
        if self.check_special_sequence(sq) {
            Ok(())
        } else {
            Err(self.revert_with_error(revert_index))
        }
    }

    pub fn assert_special_sequence_group(&mut self, seqs: &[&[char]], revert_index: usize) -> (r:
        Result<(), ParseError>)
        requires
            old(self).wf(),
            forall|m: int| 0 <= m < seqs@.len() ==> (#[trigger] seqs@[m])@.len() > 0,
        ensures
            final(self).wf(),
            old(self).only_cursor_changed(*final(self)),
            r is Ok <==> (exists|m: int|
                0 <= m < seqs@.len() && seq_matches(
                    old(self).text@,
                    old(self).index as int,
                    (#[trigger] seqs@[m])@,
                )),
            r is Ok ==> exists|m: int|
                0 <= m < seqs@.len() && seq_matches(
                    old(self).text@,
                    old(self).index as int,
                    (#[trigger] seqs@[m])@,
                ) && final(self).index as int == old(self).index + seqs@[m]@.len() - 1,
            r is Err && revert_index < old(self).text@.len() ==> final(self).index == revert_index,
            r is Err && revert_index >= old(self).text@.len() ==> final(self).index == old(
                self,
            ).index,
    {
        if self.check_special_sequence_group(seqs) {
            Ok(())
        } else {
            Err(self.revert_with_error(revert_index))
        }
    }

    /// Collects characters into a string until a break or error character
    /// (a character in both sets breaks). Hitting an error character rolls
    /// the cursor back to where collection began; reaching the end of the
    /// input is a success with everything collected.
    pub fn get_string_until(&mut self, break_at: &[char], err_at: &[char]) -> (r: Result<
        String,
        ParseError,
    >)
        requires
            old(self).wf(),
        ensures
            final(self).wf(),
            old(self).only_cursor_changed(*final(self)),
            r is Err <==> scan_is_err(old(self).text@, old(self).index as int, break_at@, err_at@),
            r is Err ==> final(self).index == old(self).index,
            r is Ok ==> r->Ok_0@ == old(self).text@.subrange(
                old(self).index as int,
                scan_stop(old(self).text@, old(self).index as int, break_at@, err_at@),
            ) && final(self).index as int == scan_stop(
                old(self).text@,
                old(self).index as int,
                break_at@,
                err_at@,
            ) && final(self).index >= old(self).index,
    {
        let ghost t = self.text@;
        let start = self.index;
        let ghost jst = scan_stop(t, start as int, break_at@, err_at@);
        let mut res = String::new();
        while self.index < self.text.len() && !self.check_special_group(break_at)
            && !self.check_special_group(err_at)
            invariant
                old(self).wf(),
                self.wf(),
                old(self).only_cursor_changed(*self),
                t == self.text@,
                t == old(self).text@,
                start == old(self).index,
                start <= self.index,
                jst == scan_stop(t, start as int, break_at@, err_at@),
                jst == scan_stop(t, self.index as int, break_at@, err_at@),
                res@ =~= t.subrange(start as int, self.index as int),
            decreases self.text@.len() - self.index,
        {
            push_char(&mut res, self.current_char);
            proof {
                assert(t.subrange(start as int, self.index + 1) =~= t.subrange(
                    start as int,
                    self.index as int,
                ).push(t[self.index as int]));
            }
            self.skip_char();
        }
        proof {
            assert(jst == self.index as int);
        }
        if self.check_special_group(err_at) && !self.check_special_group(break_at) {
            Err(self.revert_with_error(start))
        } else {
            Ok(res)
        }
    }

    /// Collects characters until one of the break sequences matches or an
    /// error character is hit (a matching sequence wins). On a sequence
    /// match the cursor rests on the sequence's last character.
    #[verifier::rlimit(100)]
    pub fn get_string_until_sequence(&mut self, break_at: &[&[char]], err_at: &[char]) -> (r:
        Result<String, ParseError>)
        requires
            old(self).wf(),
            forall|m: int| 0 <= m < break_at@.len() ==> (#[trigger] break_at@[m])@.len() > 0,
        ensures
            final(self).wf(),
            old(self).only_cursor_changed(*final(self)),
            r is Err <==> scan_seq_is_err(
                old(self).text@,
                old(self).index as int,
                seqs_view(break_at@),
                err_at@,
            ),
            r is Err ==> final(self).index == old(self).index,
            r is Ok ==> r->Ok_0@ == old(self).text@.subrange(
                old(self).index as int,
                scan_stop_seq(
                    old(self).text@,
                    old(self).index as int,
                    seqs_view(break_at@),
                    err_at@,
                ),
            ),
            r is Ok ==> final(self).index as int >= scan_stop_seq(
                old(self).text@,
                old(self).index as int,
                seqs_view(break_at@),
                err_at@,
            ) && final(self).index >= old(self).index,
    {
        let ghost t = self.text@;
        let ghost sv = seqs_view(break_at@);
        let start = self.index;
        let ghost jst = scan_stop_seq(t, start as int, sv, err_at@);
        let mut res = String::new();
        let mut matched = false;
        let mut at_end = false;
        while !matched && !at_end
            invariant
                old(self).wf(),
                self.wf(),
                old(self).only_cursor_changed(*self),
                t == self.text@,
                t == old(self).text@,
                start == old(self).index,
                sv == seqs_view(break_at@),
                forall|m: int| 0 <= m < break_at@.len() ==> (#[trigger] break_at@[m])@.len() > 0,
                jst == scan_stop_seq(t, start as int, sv, err_at@),
                !matched && !at_end ==> start <= self.index && jst == scan_stop_seq(
                    t,
                    self.index as int,
                    sv,
                    err_at@,
                ) && res@ =~= t.subrange(start as int, self.index as int),
                matched ==> jst < t.len() && any_seq_matches(t, jst, sv) && res@ =~= t.subrange(
                    start as int,
                    jst,
                ) && self.index as int >= jst && start as int <= jst,
                at_end && !matched ==> self.index as int == jst && jst == t.len()
                    && res@ =~= t.subrange(start as int, jst) && start as int <= jst,
            decreases self.text@.len() - self.index, (if matched || at_end {
                0int
            } else {
                1int
            }),
        {
            if self.index >= self.text.len() {
                at_end = true;
            } else {
                let ghost p = self.index as int;
                proof {
                    assert forall|m: int| 0 <= m < sv.len() implies #[trigger] sv[m]
                        == break_at@[m]@ by {}
                }
                if self.check_special_sequence_group(break_at) {
                    proof {
                        let m = choose|m: int|
                            0 <= m < break_at@.len() && seq_matches(t, p, (#[trigger] break_at@[m])@)
                                && self.index as int == p + break_at@[m]@.len() - 1;
                        assert(seq_matches(t, p, sv[m]));
                        assert(any_seq_matches(t, p, sv));
                        assert(scan_stop_seq(t, p, sv, err_at@) == p);
                        assert(sv[m].len() > 0);
                    }
                    matched = true;
                } else {
                    proof {
                        assert(!any_seq_matches(t, p, sv));
                    }
                    if self.check_special_group(err_at) {
                        proof {
                            assert(scan_stop_seq(t, p, sv, err_at@) == p);
                        }
                        return Err(self.revert_with_error(start));
                    } else {
                        push_char(&mut res, self.current_char);
                        proof {
                            assert(t.subrange(start as int, self.index + 1) =~= t.subrange(
                                start as int,
                                self.index as int,
                            ).push(t[self.index as int]));
                        }
                        self.skip_char();
                    }
                }
            }
        }
        Ok(res)
    }

    /// Like `get_string_until`, but an error rolls back to `revert_index`.
    pub fn get_string_until_or_revert(
        &mut self,
        break_at: &[char],
        err_at: &[char],
        revert_index: usize,
    ) -> (r: Result<String, ParseError>)
        requires
            old(self).wf(),
        ensures
            final(self).wf(),
            old(self).only_cursor_changed(*final(self)),
            r is Err <==> scan_is_err(old(self).text@, old(self).index as int, break_at@, err_at@),
            r is Err && revert_index < old(self).text@.len() ==> final(self).index == revert_index,
            r is Ok ==> r->Ok_0@ == old(self).text@.subrange(
                old(self).index as int,
                scan_stop(old(self).text@, old(self).index as int, break_at@, err_at@),
            ) && final(self).index as int == scan_stop(
                old(self).text@,
                old(self).index as int,
                break_at@,
                err_at@,
            ) && final(self).index >= old(self).index,
    {
        match self.get_string_until(break_at, err_at) {
            Ok(s) => Ok(s),
            Err(_) => Err(self.revert_with_error(revert_index)),
        }
    }

    /// Skips inline whitespace and reports whether anything was skipped.
    pub fn check_seek_inline_whitespace(&mut self) -> (r: bool)
        requires
            old(self).wf(),
        ensures
            final(self).wf(),
            old(self).only_cursor_changed(*final(self)),
            final(self).index as int == first_non_inline_ws(
                old(self).text@,
                old(self).index as int,
            ),
            final(self).index >= old(self).index,
            r == (final(self).index > old(self).index),
    {
        let start = self.index;
        self.seek_inline_whitespace();
        self.index > start
    }
}

} // verus!
