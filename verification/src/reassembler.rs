//! The line reassembler: turns a stream of arbitrarily cut chunks back into
//! newline-terminated text records.

use crate::text::{
    decode_lossy, leading_spaces, lemma_leading_spaces_bound, lemma_trailing_spaces_bound,
    lossy_text, string_from_chars, trim_bounds, trimmed,
};
use vstd::prelude::*;

verus! {

/// Index of the first newline of `text`, or `text.len()` if it has none.
pub open spec fn first_newline(text: Seq<char>) -> int
    decreases text.len(),
{
    if text.len() == 0 || text[0] == '\n' {
        0
    } else {
        1 + first_newline(text.drop_first())
    }
}

/// The newline-terminated lines of `text`, in order and without their
/// delimiters. What follows the last newline is not a line yet.
pub open spec fn lines(text: Seq<char>) -> Seq<Seq<char>>
    decreases text.len(),
{
    let at = first_newline(text);
    if 0 <= at < text.len() {
        seq![text.take(at)] + lines(text.skip(at + 1))
    } else {
        seq![]
    }
}

/// What follows the last newline of `text`: the part that still waits for its
/// delimiter.
pub open spec fn remainder(text: Seq<char>) -> Seq<char>
    decreases text.len(),
{
    let at = first_newline(text);
    if 0 <= at < text.len() {
        remainder(text.skip(at + 1))
    } else {
        text
    }
}

/// The records of `text`: its complete lines, each trimmed of surrounding
/// white space. Blank lines stay in as empty records.
pub open spec fn records(text: Seq<char>) -> Seq<Seq<char>> {
    lines(text).map_values(|line: Seq<char>| trimmed(line))
}

/// Every line followed by the newline that ended it, all in one text.
pub open spec fn delimited(lines: Seq<Seq<char>>) -> Seq<char>
    decreases lines.len(),
{
    if lines.len() == 0 {
        seq![]
    } else {
        delimited(lines.drop_last()) + lines.last().push('\n')
    }
}

/// `first_newline` points at the first newline and at nothing else.
pub proof fn lemma_first_newline(text: Seq<char>)
    ensures
        0 <= first_newline(text) <= text.len(),
        forall|i: int| 0 <= i < first_newline(text) ==> #[trigger] text[i] != '\n',
        first_newline(text) < text.len() ==> text[first_newline(text)] == '\n',
    decreases text.len(),
{
    if text.len() == 0 || text[0] == '\n' {
    } else {
        let rest = text.drop_first();
        lemma_first_newline(rest);
        assert forall|i: int| 0 <= i < first_newline(text) implies #[trigger] text[i] != '\n' by {
            if i > 0 {
                assert(text[i] == rest[i - 1]);
            }
        }
    }
}

/// A position that holds the first newline, or the length of a text without
/// one, is what `first_newline` returns.
pub proof fn lemma_first_newline_at(text: Seq<char>, at: int)
    requires
        0 <= at <= text.len(),
        forall|i: int| 0 <= i < at ==> #[trigger] text[i] != '\n',
        at < text.len() ==> text[at] == '\n',
    ensures
        first_newline(text) == at,
    decreases at,
{
    if at > 0 {
        let rest = text.drop_first();
        assert forall|i: int| 0 <= i < at - 1 implies #[trigger] rest[i] != '\n' by {
            assert(rest[i] == text[i + 1]);
        }
        lemma_first_newline_at(rest, at - 1);
    }
}

/// A text without a newline has no line, and all of it is remainder.
pub proof fn lemma_no_newline(text: Seq<char>)
    requires
        !text.contains('\n'),
    ensures
        lines(text) == Seq::<Seq<char>>::empty(),
        remainder(text) == text,
{
    lemma_first_newline(text);
    let at = first_newline(text);
    if at < text.len() {
        assert(text.contains('\n'));
    }
}

/// What one more character does to the lines and the remainder: a newline
/// closes the remainder into a line, any other character extends it.
pub proof fn lemma_push_char(text: Seq<char>, c: char)
    ensures
        c == '\n' ==> lines(text.push(c)) == lines(text).push(remainder(text)) && remainder(
            text.push(c),
        ) == Seq::<char>::empty(),
        c != '\n' ==> lines(text.push(c)) == lines(text) && remainder(text.push(c)) == remainder(
            text,
        ).push(c),
    decreases text.len(),
{
    lemma_first_newline(text);
    let at = first_newline(text);
    let more = text.push(c);
    if at < text.len() {
        assert forall|i: int| 0 <= i < at implies #[trigger] more[i] != '\n' by {
            assert(more[i] == text[i]);
        }
        assert(more[at] == text[at]);
        lemma_first_newline_at(more, at);
        assert(more.take(at) =~= text.take(at));
        assert(more.skip(at + 1) =~= text.skip(at + 1).push(c));
        lemma_push_char(text.skip(at + 1), c);
        if c == '\n' {
            assert(lines(more) =~= lines(text).push(remainder(text)));
        }
    } else if c == '\n' {
        assert forall|i: int| 0 <= i < at implies #[trigger] more[i] != '\n' by {
            assert(more[i] == text[i]);
        }
        lemma_first_newline_at(more, at);
        assert(more.take(at) =~= text);
        assert(more.skip(at + 1) =~= Seq::<char>::empty());
        assert(lines(Seq::<char>::empty()) =~= Seq::<Seq<char>>::empty());
        assert(remainder(Seq::<char>::empty()) =~= Seq::<char>::empty());
        assert(lines(more) =~= lines(text).push(remainder(text)));
    } else {
        assert forall|i: int| 0 <= i < more.len() implies #[trigger] more[i] != '\n' by {
            if i < at {
                assert(more[i] == text[i]);
            }
        }
        lemma_first_newline_at(more, more.len() as int);
    }
}

/// Cutting a text in two changes nothing: the lines of the whole are the
/// lines of the first part, then the lines of what the first part left over
/// followed by the second part; and the remainders agree.
pub proof fn lemma_append(first: Seq<char>, second: Seq<char>)
    ensures
        lines(first + second) == lines(first) + lines(remainder(first) + second),
        remainder(first + second) == remainder(remainder(first) + second),
    decreases first.len(),
{
    lemma_first_newline(first);
    let at = first_newline(first);
    let whole = first + second;
    if at < first.len() {
        assert forall|i: int| 0 <= i < at implies #[trigger] whole[i] != '\n' by {
            assert(whole[i] == first[i]);
        }
        assert(whole[at] == first[at]);
        lemma_first_newline_at(whole, at);
        assert(whole.take(at) =~= first.take(at));
        assert(whole.skip(at + 1) =~= first.skip(at + 1) + second);
        lemma_append(first.skip(at + 1), second);
        assert(lines(whole) =~= lines(first) + lines(remainder(first) + second));
    } else {
        assert(lines(first) + lines(first + second) =~= lines(first + second));
    }
}

/// No line holds a newline, and neither does the remainder.
pub proof fn lemma_lines_hold_no_newline(text: Seq<char>)
    ensures
        forall|i: int| 0 <= i < lines(text).len() ==> !(#[trigger] lines(text)[i]).contains('\n'),
        !remainder(text).contains('\n'),
    decreases text.len(),
{
    lemma_first_newline(text);
    let at = first_newline(text);
    if at < text.len() {
        let rest = text.skip(at + 1);
        lemma_lines_hold_no_newline(rest);
        let head = text.take(at);
        assert(!head.contains('\n')) by {
            if head.contains('\n') {
                let i = choose|i: int| 0 <= i < head.len() && head[i] == '\n';
                assert(text[i] == head[i]);
            }
        }
        assert forall|i: int| 0 <= i < lines(text).len() implies !(#[trigger] lines(
            text,
        )[i]).contains('\n') by {
            if i > 0 {
                assert(lines(text)[i] == lines(rest)[i - 1]);
            }
        }
    } else {
        assert(!text.contains('\n')) by {
            if text.contains('\n') {
                let i = choose|i: int| 0 <= i < text.len() && text[i] == '\n';
                assert(text[i] == '\n');
            }
        }
    }
}

/// No record holds a newline: a record is a part of a line.
pub proof fn lemma_records_hold_no_newline(text: Seq<char>)
    ensures
        forall|i: int|
            0 <= i < records(text).len() ==> !(#[trigger] records(text)[i]).contains('\n'),
{
    lemma_lines_hold_no_newline(text);
    assert forall|i: int| 0 <= i < records(text).len() implies !(#[trigger] records(
        text,
    )[i]).contains('\n') by {
        let line = lines(text)[i];
        let record = records(text)[i];
        assert(record == trimmed(line));
        lemma_leading_spaces_bound(line);
        lemma_trailing_spaces_bound(line.skip(leading_spaces(line) as int));
        if record.contains('\n') {
            let j = choose|j: int| 0 <= j < record.len() && record[j] == '\n';
            assert(line[j + leading_spaces(line)] == record[j]);
            assert(line.contains('\n'));
        }
    }
}

/// Nothing but the delimiters is taken out and nothing is lost: the lines,
/// each with its newline put back, followed by the remainder, are the text.
pub proof fn lemma_lines_and_remainder_cover(text: Seq<char>)
    ensures
        delimited(lines(text)) + remainder(text) == text,
    decreases text.len(),
{
    lemma_first_newline(text);
    let at = first_newline(text);
    if at < text.len() {
        let rest = text.skip(at + 1);
        lemma_lines_and_remainder_cover(rest);
        lemma_delimited_concat(seq![text.take(at)], lines(rest));
        assert(seq![text.take(at)].drop_last() =~= Seq::<Seq<char>>::empty());
        assert(delimited(Seq::<Seq<char>>::empty()) =~= Seq::<char>::empty());
        assert(delimited(seq![text.take(at)]) =~= text.take(at).push('\n'));
        assert(text.take(at).push('\n') =~= text.take(at + 1));
        assert(text.take(at + 1) + (delimited(lines(rest)) + remainder(rest)) =~= text);
        assert(delimited(lines(text)) + remainder(text) =~= text.take(at + 1) + (delimited(
            lines(rest),
        ) + remainder(rest)));
    } else {
        assert(delimited(lines(text)) + remainder(text) =~= text);
    }
}

/// `delimited` distributes over concatenation.
pub proof fn lemma_delimited_concat(a: Seq<Seq<char>>, b: Seq<Seq<char>>)
    ensures
        delimited(a + b) == delimited(a) + delimited(b),
    decreases b.len(),
{
    if b.len() == 0 {
        assert(a + b =~= a);
        assert(delimited(a) + delimited(b) =~= delimited(a));
    } else {
        lemma_delimited_concat(a, b.drop_last());
        assert((a + b).drop_last() =~= a + b.drop_last());
        assert((a + b).last() == b.last());
        assert(delimited(a + b) =~= delimited(a) + delimited(b));
    }
}

/// The records of a text cut in two are those of the first part, then those
/// of what the first part left over followed by the second part.
pub proof fn lemma_records_append(first: Seq<char>, second: Seq<char>)
    ensures
        records(first + second) == records(first) + records(remainder(first) + second),
{
    lemma_append(first, second);
    assert(records(first + second) =~= records(first) + records(remainder(first) + second));
}

/// What a reassembler has handed out and what it holds back after it was fed
/// `pieces` one after the other, starting with `pending` held back.
pub open spec fn feed(pending: Seq<char>, pieces: Seq<Seq<char>>) -> (Seq<Seq<char>>, Seq<char>)
    decreases pieces.len(),
{
    if pieces.len() == 0 {
        (seq![], pending)
    } else {
        let (out, held) = feed(pending, pieces.drop_last());
        let all = held + pieces.last();
        (out + records(all), remainder(all))
    }
}

/// The texts that permissive decoding makes of `chunks`, chunk by chunk.
pub open spec fn decoded(chunks: Seq<Seq<u8>>) -> Seq<Seq<char>> {
    chunks.map_values(|chunk: Seq<u8>| lossy_text(chunk))
}

/// Chunking is transparent: however a text is cut into pieces, feeding the
/// pieces one after the other hands out the records of the whole text, and
/// holds back what the whole text leaves over.
pub proof fn lemma_chunking_is_transparent(pieces: Seq<Seq<char>>)
    ensures
        feed(Seq::empty(), pieces) == (records(pieces.flatten()), remainder(pieces.flatten())),
    decreases pieces.len(),
{
    if pieces.len() == 0 {
        assert(pieces.flatten() =~= Seq::<char>::empty());
        lemma_no_newline(Seq::<char>::empty());
        assert(records(Seq::<char>::empty()) =~= Seq::<Seq<char>>::empty());
    } else {
        let init = pieces.drop_last();
        lemma_chunking_is_transparent(init);
        init.lemma_flatten_push(pieces.last());
        assert(init.push(pieces.last()) =~= pieces);
        lemma_append(init.flatten(), pieces.last());
        lemma_records_append(init.flatten(), pieces.last());
    }
}

/// Chunking of bytes is transparent wherever decoding is: if the chunks,
/// decoded one by one, make up the text that the whole byte sequence decodes
/// to, then feeding them hands out the records of that text.
///
/// The condition fails only where a cut falls inside a multi-byte character
/// or a malformed sequence, which each side then decodes on its own.
pub proof fn lemma_byte_chunking_is_transparent(chunks: Seq<Seq<u8>>)
    requires
        decoded(chunks).flatten() == lossy_text(chunks.flatten()),
    ensures
        feed(Seq::empty(), decoded(chunks)) == (
            records(lossy_text(chunks.flatten())),
            remainder(lossy_text(chunks.flatten())),
        ),
{
    lemma_chunking_is_transparent(decoded(chunks));
}

/// Accumulates incoming text and hands out the records that are complete,
/// keeping the unfinished tail for the next chunk.
///
/// The view is the text that is held back: what arrived after the last
/// newline.
pub struct LineReassembler {
    buffer: Vec<char>,
}

impl View for LineReassembler {
    type V = Seq<char>;

    closed spec fn view(&self) -> Seq<char> {
        self.buffer@
    }
}

impl LineReassembler {
    #[verifier::type_invariant]
    spec fn holds_no_newline(&self) -> bool {
        !self.buffer@.contains('\n')
    }

    /// A reassembler that holds nothing back yet.
    pub fn new() -> (fresh: Self)
        ensures
            fresh@ == Seq::<char>::empty(),
    {
        LineReassembler { buffer: Vec::new() }
    }

    /// The text that is held back, as a string. It never contains a newline:
    /// whatever was delimited has been handed out.
    pub fn pending(&self) -> (tail: String)
        ensures
            tail@ == self@,
            !self@.contains('\n'),
    {
        proof {
            use_type_invariant(self);
        }
        let tail = string_from_chars(&self.buffer, 0, self.buffer.len());
        assert(self.buffer@.subrange(0, self.buffer.len() as int) =~= self.buffer@);
        tail
    }

    /// Takes in the next chunk of the stream, decoded permissively, and returns
    /// the records that it completes, in order. Blank lines come out as empty
    /// records; what follows the last newline is held back.
    pub fn push(&mut self, chunk: &[u8]) -> (out: Vec<String>)
        ensures
            out.deep_view() == records(old(self)@ + lossy_text(chunk@)),
            final(self)@ == remainder(old(self)@ + lossy_text(chunk@)),
            forall|i: int| 0 <= i < out.len() ==> !(#[trigger] out[i])@.contains('\n'),
    {
        let text = decode_lossy(chunk);
        self.push_text(text.as_str())
    }

    /// Takes in `text` and returns the records that it completes, in order.
    pub fn push_text(&mut self, text: &str) -> (out: Vec<String>)
        ensures
            out.deep_view() == records(old(self)@ + text@),
            final(self)@ == remainder(old(self)@ + text@),
            forall|i: int| 0 <= i < out.len() ==> !(#[trigger] out[i])@.contains('\n'),
    {
        let mut out: Vec<String> = Vec::new();
        let mut buffer: Vec<char> = Vec::new();
        proof {
            use_type_invariant(&*self);
        }
        core::mem::swap(&mut self.buffer, &mut buffer);
        proof {
            lemma_no_newline(buffer@);
            assert(old(self)@ + text@.take(0) =~= old(self)@);
            assert(out.deep_view() =~= records(old(self)@));
        }
        for c in it: text.chars()
            invariant
                it.seq() == text@,
                out.deep_view() == records(old(self)@ + text@.take(it.index() as int)),
                buffer@ == remainder(old(self)@ + text@.take(it.index() as int)),
        {
            let ghost before = old(self)@ + text@.take(it.index() as int);
            proof {
                lemma_push_char(before, c);
                assert(before.push(c) =~= old(self)@ + text@.take(it.index() + 1));
            }
            if c == '\n' {
                let (start, end) = trim_bounds(&buffer);
                let record = string_from_chars(&buffer, start, end);
                let ghost emitted = out.deep_view();
                out.push(record);
                buffer.clear();
                proof {
                    assert(out.deep_view() =~= emitted.push(trimmed(remainder(before))));
                    assert(records(before.push(c)) =~= records(before).push(
                        trimmed(remainder(before)),
                    ));
                }
            } else {
                buffer.push(c);
            }
        }
        proof {
            assert(text@.take(text@.len() as int) =~= text@);
            lemma_lines_hold_no_newline(old(self)@ + text@);
            lemma_records_hold_no_newline(old(self)@ + text@);
            assert forall|i: int| 0 <= i < out.len() implies !(#[trigger] out[i])@.contains(
                '\n',
            ) by {
                assert(out.deep_view()[i] == out[i]@);
            }
        }
        self.buffer = buffer;
        out
    }
}

} // verus!
