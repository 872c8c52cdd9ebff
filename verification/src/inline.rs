//! Inline and line productions: emphasis, monospace, placeholders, plain
//! text, rulers and text lines.
//!
//! Every production is a transaction: on failure the cursor stands where it
//! stood on entry; on success it has moved forward. Plain text has an exact
//! character-level model: it consumes everything up to the next unescaped
//! special character and drops the escaping backslashes.

use vstd::prelude::*;
use crate::elements::{
    BoldText, Inline, ItalicText, Line, MonospaceText, Placeholder, PlainText, Ruler,
    StrikedText, SuperscriptText, TextLine, UnderlinedText,
};
use crate::numfmt::push_char;
use crate::parser::{escaped_at, scan_stop, seq_matches, special_at, ParseError, Parser};

verus! {

/// The characters that end or open an inline construct.
pub open spec fn inline_special(c: char) -> bool {
    c == '\n' || c == '*' || c == '_' || c == '~' || c == '^' || c == '`' || c == '|' || c == '['
}

pub fn is_inline_special(c: char) -> (r: bool)
    ensures
        r == inline_special(c),
{
    c == '\n' || c == '*' || c == '_' || c == '~' || c == '^' || c == '`' || c == '|' || c == '['
}

/// Does an unescaped inline-special character stand at position `i`?
pub open spec fn opener_at(t: Seq<char>, i: int) -> bool {
    0 <= i < t.len() && inline_special(t[i]) && !escaped_at(t, i)
}

/// Where plain text beginning at `i` ends: at the first unescaped
/// inline-special character, or at the end of the input.
pub open spec fn plain_stop(t: Seq<char>, i: int) -> int
    decreases t.len() - i,
{
    if i < 0 || i >= t.len() {
        i
    } else if opener_at(t, i) {
        i
    } else {
        plain_stop(t, i + 1)
    }
}

/// The characters of `t[i..j]` with every unescaped backslash dropped: the
/// text as the reader meant it.
pub open spec fn unescaped_slice(t: Seq<char>, i: int, j: int) -> Seq<char>
    decreases j - i,
{
    if i < 0 || i >= j || i >= t.len() {
        Seq::empty()
    } else if t[i] == '\\' && !escaped_at(t, i) {
        unescaped_slice(t, i + 1, j)
    } else {
        seq![t[i]] + unescaped_slice(t, i + 1, j)
    }
}

/// Extending the unescaped text by one source character keeps everything
/// collected so far.
proof fn lemma_unescaped_snoc(t: Seq<char>, i: int, j: int)
    requires
        0 <= i <= j < t.len(),
    ensures
        unescaped_slice(t, i, j + 1) == unescaped_slice(t, i, j) + (if t[j] == '\\' && !escaped_at(
            t,
            j,
        ) {
            Seq::<char>::empty()
        } else {
            seq![t[j]]
        }),
    decreases j - i,
{
    if i < j {
        lemma_unescaped_snoc(t, i + 1, j);
        assert(unescaped_slice(t, i, j + 1) == (if t[i] == '\\' && !escaped_at(t, i) {
            unescaped_slice(t, i + 1, j + 1)
        } else {
            seq![t[i]] + unescaped_slice(t, i + 1, j + 1)
        }));
        if t[i] == '\\' && !escaped_at(t, i) {
        } else {
            assert(unescaped_slice(t, i, j + 1) =~= unescaped_slice(t, i, j) + (if t[j] == '\\'
                && !escaped_at(t, j) {
                Seq::<char>::empty()
            } else {
                seq![t[j]]
            }));
        }
    } else {
        assert(unescaped_slice(t, i, j) =~= Seq::<char>::empty());
        assert(unescaped_slice(t, j + 1, j + 1) =~= Seq::<char>::empty());
        assert(unescaped_slice(t, i, j + 1) =~= unescaped_slice(t, i, j) + (if t[j] == '\\'
            && !escaped_at(t, j) {
            Seq::<char>::empty()
        } else {
            seq![t[j]]
        }));
    }
}

/// Does a placeholder stand at position `i`: `[[`, a name free of
/// linebreaks, then `]]`?
pub open spec fn placeholder_at(t: Seq<char>, i: int) -> bool {
    let j = scan_stop(t, i + 2, seq![']'], seq!['\n']);
    seq_matches(t, i, seq!['[', '[']) && special_at(t, j, ']') && special_at(t, j + 1, ']')
}

/// The name between the placeholder's brackets.
pub open spec fn placeholder_name(t: Seq<char>, i: int) -> Seq<char> {
    t.subrange(i + 2, scan_stop(t, i + 2, seq![']'], seq!['\n']))
}

/// Does the line at `i` begin with plain text (no opener)? Then its first
/// inline is exactly the unescaped text up to the next opener.
pub open spec fn plain_line_start(t: Seq<char>, i: int) -> bool {
    0 <= i < t.len() && !opener_at(t, i)
}

/// The first inline of a line that begins with plain text.
pub open spec fn leading_plain(t: Seq<char>, i: int) -> Seq<char> {
    unescaped_slice(t, i, plain_stop(t, i))
}

/// Plain text never stops before where it starts.
pub proof fn lemma_plain_stop_ge(t: Seq<char>, i: int)
    ensures
        plain_stop(t, i) >= i,
    decreases t.len() - i,
{
    if 0 <= i < t.len() && !opener_at(t, i) {
        lemma_plain_stop_ge(t, i + 1);
    }
}

impl Parser {
    /// Plain text: everything up to the next unescaped special character,
    /// with escaping backslashes removed. Fails (without moving) only when
    /// it would consume nothing.
    #[verifier::rlimit(100)]
    pub fn parse_plain_text(&mut self) -> (r: Result<PlainText, ParseError>)
        requires
            old(self).wf(),
        ensures
            final(self).wf(),
            old(self).only_cursor_changed(*final(self)),
            r is Ok <==> plain_stop(old(self).text@, old(self).index as int) > old(self).index,
            r is Ok ==> final(self).index as int == plain_stop(
                old(self).text@,
                old(self).index as int,
            ) && r->Ok_0.value@ == unescaped_slice(
                old(self).text@,
                old(self).index as int,
                plain_stop(old(self).text@, old(self).index as int),
            ),
            r is Err ==> final(self).index == old(self).index,
        decreases self.text@.len() - self.index, 0int,
    {
        let ghost t = self.text@;
        let start = self.index;
        let ghost jst = plain_stop(t, start as int);
        let mut value = String::new();
        while self.index < self.text.len() && !(is_inline_special(self.current_char)
            && !self.check_escaped())
            invariant
                old(self).wf(),
                self.wf(),
                old(self).only_cursor_changed(*self),
                t == self.text@,
                t == old(self).text@,
                start == old(self).index,
                start <= self.index,
                jst == plain_stop(t, start as int),
                jst == plain_stop(t, self.index as int),
                value@ == unescaped_slice(t, start as int, self.index as int),
            decreases self.text@.len() - self.index,
        {
            proof {
                lemma_unescaped_snoc(t, start as int, self.index as int);
            }
            if self.current_char == '\\' && !self.check_escaped() {
                self.skip_char();
            } else {
                push_char(&mut value, self.current_char);
                self.skip_char();
            }
        }
        proof {
            assert(jst == self.index as int);
        }
        if self.index > start {
            Ok(PlainText { value })
        } else {
            Err(ParseError::new(start))
        }
    }

    /// One placeholder: `[[name]]`, where the name may not span lines.
    /// It parses exactly when that shape stands at the cursor, and the
    /// name is the text between the brackets.
    #[verifier::rlimit(100)]
    pub fn parse_placeholder(&mut self) -> (r: Result<Placeholder, ParseError>)
        requires
            old(self).wf(),
        ensures
            final(self).wf(),
            old(self).only_cursor_changed(*final(self)),
            r is Ok <==> placeholder_at(old(self).text@, old(self).index as int),
            r is Ok ==> r->Ok_0.name@ == placeholder_name(old(self).text@, old(self).index as int)
                && r->Ok_0.value is None,
            r is Ok ==> final(self).index > old(self).index,
            r is Err ==> final(self).index == old(self).index,
        decreases self.text@.len() - self.index, 0int,
    {
        let ghost t = self.text@;
        let start = self.index;
        if !self.check_special_sequence(&['[', '[']) {
            return Err(ParseError::new(start));
        }
        self.skip_char();
        let brk: &[char] = &[']'];
        let err: &[char] = &['\n'];
        proof {
            assert(brk@ =~= seq![']']);
            assert(err@ =~= seq!['\n']);
        }
        let ghost j = scan_stop(t, start + 2, seq![']'], seq!['\n']);
        let name = match self.get_string_until(brk, err) {
            Ok(n) => n,
            Err(_) => {
                proof {
                    assert(crate::parser::special_group_at(t, j, seq!['\n']));
                    let m = choose|m: int|
                        0 <= m < seq!['\n'].len() && seq!['\n'][m] == t[j];
                    assert(t[j] == '\n');
                }
                return Err(self.revert_with_error(start));
            },
        };
        if !self.check_special(']') {
            return Err(self.revert_with_error(start));
        }
        self.skip_char();
        if !self.check_special(']') {
            return Err(self.revert_with_error(start));
        }
        self.skip_char();
        Ok(Placeholder { name, value: None })
    }

    /// One inline construct, chosen by its first character; everything
    /// without a special opener is plain text. When the opener stands
    /// unescaped but its construct does not parse, the production fails
    /// with the cursor restored. The opener fixes the variant produced:
    /// `**` bold, `*` italic, `_` underlined, `~` striked, `^` superscript,
    /// a backtick monospace (with the exact delimited body), `[[` a
    /// placeholder (with its exact name).
    #[verifier::rlimit(100)]
    pub fn parse_subtext(&mut self) -> (r: Result<Inline, ParseError>)
        requires
            old(self).wf(),
        ensures
            final(self).wf(),
            old(self).only_cursor_changed(*final(self)),
            r is Ok ==> final(self).index > old(self).index,
            r is Err ==> final(self).index == old(self).index,
            old(self).index < old(self).text@.len() && !opener_at(
                old(self).text@,
                old(self).index as int,
            ) ==> (r is Ok && r->Ok_0 is Plain && r->Ok_0->Plain_0.value@ == unescaped_slice(
                old(self).text@,
                old(self).index as int,
                plain_stop(old(self).text@, old(self).index as int),
            )),
            special_at(old(self).text@, old(self).index as int, '\n') || special_at(
                old(self).text@,
                old(self).index as int,
                '|',
            ) ==> r is Err,
            r is Ok && special_at(old(self).text@, old(self).index as int, '*') && special_at(
                old(self).text@,
                old(self).index + 1,
                '*',
            ) ==> r->Ok_0 is Bold,
            r is Ok && special_at(old(self).text@, old(self).index as int, '*') && !special_at(
                old(self).text@,
                old(self).index + 1,
                '*',
            ) ==> r->Ok_0 is Italic,
            r is Ok && special_at(old(self).text@, old(self).index as int, '_') ==> r->Ok_0 is Underlined,
            r is Ok && special_at(old(self).text@, old(self).index as int, '~') ==> r->Ok_0 is Striked,
            r is Ok && special_at(old(self).text@, old(self).index as int, '^') ==> r->Ok_0 is Superscript,
            r is Ok && special_at(old(self).text@, old(self).index as int, '`') ==> (r->Ok_0 is Monospace
                && r->Ok_0->Monospace_0.value@ == old(self).text@.subrange(
                old(self).index + 1,
                scan_stop(
                    old(self).text@,
                    old(self).index + 1,
                    seq!['`', '\n'],
                    Seq::<char>::empty(),
                ),
            )),
            r is Ok && special_at(old(self).text@, old(self).index as int, '[') ==> (
            placeholder_at(old(self).text@, old(self).index as int) ==> (r->Ok_0 is Placeholder
                && r->Ok_0->Placeholder_0.name@ == placeholder_name(
                old(self).text@,
                old(self).index as int,
            ))),
            r is Ok && special_at(old(self).text@, old(self).index as int, '[') && !placeholder_at(
                old(self).text@,
                old(self).index as int,
            ) ==> r->Ok_0 is Plain && r->Ok_0->Plain_0.value@ == seq!['['],
            special_at(old(self).text@, old(self).index as int, '*') && special_at(
                old(self).text@,
                old(self).index + 1,
                '*',
            ) && plain_line_start(old(self).text@, old(self).index + 2) ==> (r is Ok
                && r->Ok_0 is Bold && (*r->Ok_0->Bold_0.value) is Plain
                && (*r->Ok_0->Bold_0.value)->Plain_0.value@ == leading_plain(
                old(self).text@,
                old(self).index + 2,
            )),
            special_at(old(self).text@, old(self).index as int, '*') && !special_at(
                old(self).text@,
                old(self).index + 1,
                '*',
            ) && plain_line_start(old(self).text@, old(self).index + 1) ==> (r is Ok
                && r->Ok_0 is Italic && (*r->Ok_0->Italic_0.value) is Plain
                && (*r->Ok_0->Italic_0.value)->Plain_0.value@ == leading_plain(
                old(self).text@,
                old(self).index + 1,
            )),
            special_at(old(self).text@, old(self).index as int, '_') && plain_line_start(
                old(self).text@,
                old(self).index + 1,
            ) ==> (r is Ok && r->Ok_0 is Underlined && (*r->Ok_0->Underlined_0.value) is Plain
                && (*r->Ok_0->Underlined_0.value)->Plain_0.value@ == leading_plain(
                old(self).text@,
                old(self).index + 1,
            )),
            special_at(old(self).text@, old(self).index as int, '~') && plain_line_start(
                old(self).text@,
                old(self).index + 1,
            ) ==> (r is Ok && r->Ok_0 is Striked && (*r->Ok_0->Striked_0.value) is Plain
                && (*r->Ok_0->Striked_0.value)->Plain_0.value@ == leading_plain(
                old(self).text@,
                old(self).index + 1,
            )),
            special_at(old(self).text@, old(self).index as int, '^') && plain_line_start(
                old(self).text@,
                old(self).index + 1,
            ) ==> (r is Ok && r->Ok_0 is Superscript && (*r->Ok_0->Superscript_0.value) is Plain
                && (*r->Ok_0->Superscript_0.value)->Plain_0.value@ == leading_plain(
                old(self).text@,
                old(self).index + 1,
            )),
        decreases self.text@.len() - self.index, 1int,
    {
        let ghost t = self.text@;
        let start = self.index;
        if self.index >= self.text.len() {
            return Err(ParseError::new_eof(start));
        }
        if self.check_special('\n') || self.check_special('|') {
            return Err(ParseError::new(start));
        }
        if self.check_special('*') {
            if self.next_char().is_none() {
                let e = self.revert_with_error(start);
                return Err(e);
            }
            if self.check_special('*') {
                // bold: `**inner**`, closers recovered at end of line
                if self.next_char().is_none() {
                    let e = self.revert_with_error(start);
                    return Err(e);
                }
                let sub = match self.parse_subtext() {
                    Ok(s) => s,
                    Err(_) => {
                        let e = self.revert_with_error(start);
                        return Err(e);
                    },
                };
                if self.check_special('*') {
                    self.skip_char();
                    if self.check_special('*') {
                        self.skip_char();
                    }
                }
                Ok(Inline::Bold(BoldText { value: Box::new(sub) }))
            } else {
                let sub = match self.parse_subtext() {
                    Ok(s) => s,
                    Err(_) => {
                        let e = self.revert_with_error(start);
                        return Err(e);
                    },
                };
                // the closer, or the end of the line as a recovery point
                self.skip_char();
                Ok(Inline::Italic(ItalicText { value: Box::new(sub) }))
            }
        } else if self.check_special('_') {
            if self.next_char().is_none() {
                let e = self.revert_with_error(start);
                return Err(e);
            }
            let sub = match self.parse_subtext() {
                Ok(s) => s,
                Err(_) => {
                    let e = self.revert_with_error(start);
                    return Err(e);
                },
            };
            // the closer, or the end of the line as a recovery point
            self.skip_char();
            Ok(Inline::Underlined(UnderlinedText { value: Box::new(sub) }))
        } else if self.check_special('~') {
            if self.next_char().is_none() {
                let e = self.revert_with_error(start);
                return Err(e);
            }
            let sub = match self.parse_subtext() {
                Ok(s) => s,
                Err(_) => {
                    let e = self.revert_with_error(start);
                    return Err(e);
                },
            };
            if self.check_special('~') {
                self.skip_char();
            }
            Ok(Inline::Striked(StrikedText { value: Box::new(sub) }))
        } else if self.check_special('^') {
            if self.next_char().is_none() {
                let e = self.revert_with_error(start);
                return Err(e);
            }
            let sub = match self.parse_subtext() {
                Ok(s) => s,
                Err(_) => {
                    let e = self.revert_with_error(start);
                    return Err(e);
                },
            };
            if self.check_special('^') {
                self.skip_char();
            }
            Ok(Inline::Superscript(SuperscriptText { value: Box::new(sub) }))
        } else if self.check_special('`') {
            if self.next_char().is_none() {
                let e = self.revert_with_error(start);
                return Err(e);
            }
            let brk: &[char] = &['`', '\n'];
            let err: &[char] = &[];
            proof {
                assert(brk@ =~= seq!['`', '\n']);
                assert(err@ =~= Seq::<char>::empty());
            }
            let value = match self.get_string_until(brk, err) {
                Ok(v) => v,
                Err(_) => {
                    let e = self.revert_with_error(start);
                    return Err(e);
                },
            };
            if self.check_special('`') {
                self.skip_char();
            }
            Ok(Inline::Monospace(MonospaceText { value }))
        } else if self.check_special('[') {
            match self.parse_placeholder() {
                Ok(p) => Ok(Inline::Placeholder(p)),
                Err(_) => {
                    // a bracket that opens nothing stays a literal
                    let mut value = String::new();
                    push_char(&mut value, '[');
                    self.skip_char();
                    Ok(Inline::Plain(PlainText { value }))
                },
            }
        } else {
            proof {
                lemma_plain_stop_ge(t, start + 1);
            }
            match self.parse_plain_text() {
                Ok(p) => Ok(Inline::Plain(p)),
                Err(e) => Err(e),
            }
        }
    }

    /// A line of text: inline constructs up to (and consuming) the line
    /// break. Fails without moving when it would consume nothing.
    #[verifier::rlimit(100)]
    pub fn parse_text(&mut self) -> (r: Result<TextLine, ParseError>)
        requires
            old(self).wf(),
        ensures
            final(self).wf(),
            old(self).only_cursor_changed(*final(self)),
            r is Ok ==> final(self).index > old(self).index,
            r is Err ==> final(self).index == old(self).index,
            plain_line_start(old(self).text@, old(self).index as int) ==> (r is Ok
                && r->Ok_0.subtext@.len() > 0 && r->Ok_0.subtext@[0] is Plain
                && r->Ok_0.subtext@[0]->Plain_0.value@ == leading_plain(
                old(self).text@,
                old(self).index as int,
            )),
            special_at(old(self).text@, old(self).index as int, '\n') ==> (r is Ok
                && final(self).index == old(self).index + 1),
        decreases self.text@.len() - self.index, 2int,
    {
        let ghost t = self.text@;
        let start = self.index;
        proof {
            if plain_line_start(t, start as int) {
                lemma_plain_stop_ge(t, start + 1);
            }
        }
        let mut line = TextLine::new();
        let more = match self.parse_subtext() {
            Ok(st) => {
                line.add_subtext(st);
                true
            },
            Err(_) => false,
        };
        if more {
            loop
                invariant
                    old(self).wf(),
                    self.wf(),
                    old(self).only_cursor_changed(*self),
                    start == old(self).index,
                    start < self.index,
                    self.text@ == old(self).text@,
                    t == self.text@,
                    line.subtext@.len() > 0,
                    plain_line_start(t, start as int) ==> (line.subtext@[0] is Plain
                        && line.subtext@[0]->Plain_0.value@ == leading_plain(t, start as int)),
                ensures
                    self.wf(),
                    old(self).only_cursor_changed(*self),
                    start < self.index,
                    self.text@ == old(self).text@,
                    t == self.text@,
                    line.subtext@.len() > 0,
                    plain_line_start(t, start as int) ==> (line.subtext@[0] is Plain
                        && line.subtext@[0]->Plain_0.value@ == leading_plain(t, start as int)),
                decreases self.text@.len() - self.index,
            {
                let ghost before = line.subtext@;
                match self.parse_subtext() {
                    Ok(st) => {
                        line.add_subtext(st);
                        proof {
                            assert(line.subtext@[0] == before[0]);
                        }
                    },
                    Err(_) => {
                        break ;
                    },
                }
            }
        }
        if self.check_linebreak() {
            self.skip_char();
        }
        if self.index > start {
            Ok(line)
        } else {
            Err(ParseError::new(start))
        }
    }

    /// A whole inline line, wrapped as a `Line`. A line that begins with
    /// plain text parses, and carries that text as its first inline.
    pub fn parse_inline(&mut self) -> (r: Result<Line, ParseError>)
        requires
            old(self).wf(),
        ensures
            final(self).wf(),
            old(self).only_cursor_changed(*final(self)),
            r is Ok ==> final(self).index > old(self).index,
            r is Err ==> final(self).index == old(self).index,
            plain_line_start(old(self).text@, old(self).index as int) ==> (r is Ok
                && r->Ok_0 is Text && r->Ok_0->Text_0.subtext@.len() > 0
                && r->Ok_0->Text_0.subtext@[0] is Plain
                && r->Ok_0->Text_0.subtext@[0]->Plain_0.value@ == leading_plain(
                old(self).text@,
                old(self).index as int,
            )),
        decreases self.text@.len() - self.index, 3int,
    {
        if self.index >= self.text.len() {
            return Err(ParseError::new_eof(self.index));
        }
        match self.parse_text() {
            Ok(t) => Ok(Line::Text(t)),
            Err(e) => Err(e),
        }
    }

    /// One line: a ruler (`---` alone on its line) or a text line. A line
    /// that begins with plain text (and no dash) parses as a text line
    /// carrying that text first.
    #[verifier::rlimit(100)]
    pub fn parse_line(&mut self) -> (r: Result<Line, ParseError>)
        requires
            old(self).wf(),
        ensures
            final(self).wf(),
            old(self).only_cursor_changed(*final(self)),
            r is Ok ==> final(self).index > old(self).index,
            r is Err ==> final(self).index == old(self).index,
            plain_line_start(old(self).text@, old(self).index as int) && old(self).text@[old(
                self,
            ).index as int] != '-' ==> (r is Ok && r->Ok_0 is Text
                && r->Ok_0->Text_0.subtext@.len() > 0 && r->Ok_0->Text_0.subtext@[0] is Plain
                && r->Ok_0->Text_0.subtext@[0]->Plain_0.value@ == leading_plain(
                old(self).text@,
                old(self).index as int,
            )),
        decreases self.text@.len() - self.index, 4int,
    {
        let ghost t = self.text@;
        let start = self.index;
        if self.index >= self.text.len() {
            return Err(ParseError::new_eof(start));
        }
        proof {
            if t[start as int] != '-' && seq_matches(t, start as int, seq!['-', '-', '-']) {
                assert(t.subrange(start as int, start + 3)[0] == t[start as int]);
            }
        }
        if self.check_special_sequence(&['-', '-', '-']) {
            self.skip_char();
            if self.index >= self.text.len() {
                return Ok(Line::Ruler(Ruler {  }));
            }
            if self.check_linebreak() {
                self.skip_char();
                return Ok(Line::Ruler(Ruler {  }));
            }
            let _ = self.revert_to(start);
        }
        match self.parse_text() {
            Ok(t) => Ok(Line::Text(t)),
            Err(e) => Err(e),
        }
    }
}

} // verus!
