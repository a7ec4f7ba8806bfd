//! The line splitter and event decoder: turns the raw output byte stream of a
//! child process into one decoded event per line. A line that parses as JSON
//! becomes a structured payload; any other line is kept verbatim as opaque
//! text. No line is ever dropped.

use vstd::prelude::*;

use crate::json::{json_accepted, json_quote, json_quoted, parse_json};

verus! {

/// A line with a trailing carriage return removed, as the line reader of the
/// runtime strips both `\n` and `\r\n` terminators.
pub open spec fn strip_cr(l: Seq<u8>) -> Seq<u8> {
    if l.len() > 0 && l.last() == 13u8 {
        l.drop_last()
    } else {
        l
    }
}

/// The lines of `data` when a partial line `cur` has already been read:
/// each `\n` ends a line, and a non-empty remainder forms a final line.
pub open spec fn spec_lines_from(data: Seq<u8>, cur: Seq<u8>) -> Seq<Seq<u8>>
    decreases data.len(),
{
    if data.len() == 0 {
        if cur.len() == 0 {
            Seq::empty()
        } else {
            seq![strip_cr(cur)]
        }
    } else if data[0] == 10u8 {
        seq![strip_cr(cur)] + spec_lines_from(data.drop_first(), Seq::empty())
    } else {
        spec_lines_from(data.drop_first(), cur.push(data[0]))
    }
}

/// The logical lines of a raw output byte stream.
pub open spec fn spec_lines(data: Seq<u8>) -> Seq<Seq<u8>> {
    spec_lines_from(data, Seq::empty())
}

/// A byte stream consisting exactly of the given lines, each terminated by a
/// newline.
pub open spec fn terminated(lines: Seq<Seq<u8>>) -> Seq<u8>
    decreases lines.len(),
{
    if lines.len() == 0 {
        Seq::empty()
    } else {
        lines[0] + seq![10u8] + terminated(lines.drop_first())
    }
}

/// A line body: it contains no newline of its own.
pub open spec fn plain_line(l: Seq<u8>) -> bool {
    forall|i: int| 0 <= i < l.len() ==> l[i] != 10u8
}

/// Strips a trailing carriage return in place.
fn finish_line(line: Vec<u8>) -> (r: Vec<u8>)
    ensures
        r@ == strip_cr(line@),
{
    let mut line = line;
    if line.len() > 0 && line[line.len() - 1] == 13u8 {
        line.pop();
        assert(line@ =~= strip_cr(line@.push(13u8)));
    }
    line
}

/// Splits a raw output byte stream into its logical lines: one per newline,
/// plus a final line for a non-empty unterminated remainder. `\r\n` endings
/// lose their carriage return, as the asynchronous line reader strips them.
pub fn split_lines(data: &[u8]) -> (r: Vec<Vec<u8>>)
    ensures
        r.deep_view() == spec_lines(data@),
{
    let mut out: Vec<Vec<u8>> = Vec::new();
    let mut cur: Vec<u8> = Vec::new();
    let mut i: usize = 0;
    assert(data@.skip(0) =~= data@);
    assert(out.deep_view() + spec_lines_from(data@, cur@) =~~= spec_lines(data@));
    while i < data.len()
        invariant
            i <= data.len(),
            spec_lines(data@) == out.deep_view() + spec_lines_from(data@.skip(i as int), cur@),
        decreases data.len() - i,
    {
        let ghost prev_out = out.deep_view();
        let ghost prev_cur = cur@;
        let ghost rest = data@.skip(i as int);
        assert(rest[0] == data@[i as int]);
        assert(rest.drop_first() =~= data@.skip(i as int + 1));
        let b = data[i];
        if b == 10u8 {
            let line = finish_line(cur);
            cur = Vec::new();
            out.push(line);
            assert(out.deep_view() =~~= prev_out.push(line@));
            assert(spec_lines_from(rest, prev_cur) == seq![strip_cr(prev_cur)]
                + spec_lines_from(rest.drop_first(), Seq::empty()));
            assert(prev_out + (seq![line@] + spec_lines_from(rest.drop_first(), Seq::empty()))
                =~~= out.deep_view() + spec_lines_from(data@.skip(i as int + 1), cur@));
        } else {
            cur.push(b);
            assert(spec_lines_from(rest, prev_cur) == spec_lines_from(
                data@.skip(i as int + 1),
                cur@,
            ));
        }
        i = i + 1;
    }
    assert(data@.skip(i as int) =~= Seq::<u8>::empty());
    if cur.len() > 0 {
        let line = finish_line(cur);
        let ghost prev_out = out.deep_view();
        assert(spec_lines_from(Seq::<u8>::empty(), cur@) == seq![strip_cr(cur@)]);
        out.push(line);
        assert(out.deep_view() =~~= prev_out.push(line@));
        assert(prev_out + seq![line@] =~~= out.deep_view());
    } else {
        assert(out.deep_view() + Seq::<Seq<u8>>::empty() =~~= out.deep_view());
    }
    out
}

proof fn lemma_lines_from_plain(l: Seq<u8>, rest: Seq<u8>, cur: Seq<u8>)
    requires
        plain_line(l),
    ensures
        spec_lines_from(l + seq![10u8] + rest, cur) == seq![strip_cr(cur + l)]
            + spec_lines_from(rest, Seq::empty()),
    decreases l.len(),
{
    let data = l + seq![10u8] + rest;
    if l.len() == 0 {
        assert(data[0] == 10u8);
        assert(data.drop_first() =~= rest);
        assert(cur + l =~= cur);
    } else {
        assert(data[0] == l[0]);
        assert(l[0] != 10u8);
        assert(data.drop_first() =~= l.drop_first() + seq![10u8] + rest);
        assert(plain_line(l.drop_first())) by {
            assert(forall|i: int|
                0 <= i < l.drop_first().len() ==> #[trigger] l.drop_first()[i] == l[i + 1]);
        }
        lemma_lines_from_plain(l.drop_first(), rest, cur.push(l[0]));
        assert(cur.push(l[0]) + l.drop_first() =~= cur + l);
    }
}

/// The splitter is exact: a stream made of newline-terminated line bodies
/// splits back into exactly those lines, in their input order (each modulo a
/// trailing carriage return, which the reader strips).
pub proof fn lemma_splitter_exact(lines: Seq<Seq<u8>>)
    requires
        forall|i: int| 0 <= i < lines.len() ==> plain_line(#[trigger] lines[i]),
    ensures
        spec_lines(terminated(lines)) == lines.map_values(|l: Seq<u8>| strip_cr(l)),
    decreases lines.len(),
{
    if lines.len() == 0 {
        assert(terminated(lines) =~= Seq::<u8>::empty());
        assert(spec_lines(Seq::<u8>::empty()) =~= Seq::<Seq<u8>>::empty());
        assert(lines.map_values(|l: Seq<u8>| strip_cr(l)) =~= Seq::<Seq<u8>>::empty());
    } else {
        let rest = lines.drop_first();
        assert(forall|i: int| 0 <= i < rest.len() ==> plain_line(#[trigger] rest[i])) by {
            assert(forall|i: int| 0 <= i < rest.len() ==> rest[i] == lines[i + 1]);
        }
        lemma_lines_from_plain(lines[0], terminated(rest), Seq::empty());
        assert(Seq::<u8>::empty() + lines[0] =~= lines[0]);
        lemma_splitter_exact(rest);
        assert(spec_lines(terminated(lines)) =~= lines.map_values(|l: Seq<u8>| strip_cr(l))) by {
            assert(spec_lines(terminated(lines)) == seq![strip_cr(lines[0])] + rest.map_values(
                |l: Seq<u8>| strip_cr(l),
            ));
        }
    }
}

/// The splitter yields exactly as many lines as the stream has newline
/// terminators: one decoded event per line, none dropped, none invented.
pub proof fn lemma_splitter_count(lines: Seq<Seq<u8>>)
    requires
        forall|i: int| 0 <= i < lines.len() ==> plain_line(#[trigger] lines[i]),
    ensures
        spec_lines(terminated(lines)).len() == lines.len(),
{
    lemma_splitter_exact(lines);
}

/// One unit of process output: a line that parsed as a complete JSON document
/// (kept as its JSON text), or an opaque text line.
pub enum DecodedLine {
    Structured(String),
    Text(String),
}

impl DecodedLine {
    /// The characters of the line, whatever its classification.
    pub open spec fn content(self) -> Seq<char> {
        match self {
            DecodedLine::Structured(c) => c@,
            DecodedLine::Text(t) => t@,
        }
    }

    /// Whether the line was classified as a structured (JSON) payload.
    pub open spec fn is_structured(self) -> bool {
        self is Structured
    }
}

/// The payload delivered for an opaque text line: the line wrapped as a
/// one-field JSON object, so that downstream delivery is uniformly structured.
pub open spec fn wrapped_output(t: Seq<char>) -> Seq<char> {
    "{\"output\":"@ + json_quoted(t) + "}"@
}

/// Classifies one line of process output: structured exactly when the whole
/// line is accepted as JSON, opaque text otherwise. The line's characters are
/// kept verbatim either way; a line that fails to parse is never reprocessed.
pub fn decode_line(line: String) -> (r: DecodedLine)
    ensures
        r.content() == line@,
        r.is_structured() <==> json_accepted(line@),
{
    match parse_json(line.as_str()) {
        Some(_) => DecodedLine::Structured(line),
        None => DecodedLine::Text(line),
    }
}

/// The JSON document delivered for a decoded line: the line itself when it is
/// structured, otherwise the line wrapped as `{"output": <line>}`.
pub fn payload_json(line: &DecodedLine) -> (r: String)
    ensures
        line.is_structured() ==> r@ == line.content(),
        !line.is_structured() ==> r@ == wrapped_output(line.content()),
{
    match line {
        DecodedLine::Structured(c) => c.clone(),
        DecodedLine::Text(t) => {
            let mut s = String::from_str("{\"output\":");
            s.append(json_quote(t.as_str()).as_str());
            s.append("}");
            s
        },
    }
}

/// What `String::from_utf8_lossy` makes of a byte sequence: the result
/// depends on the bytes alone.
pub uninterp spec fn utf8_lossy_of(bytes: Seq<u8>) -> Seq<char>;

/// Relies on `String::from_utf8_lossy`: decodes the bytes as UTF-8, replacing
/// each invalid sequence with the replacement character.
#[verifier::external_body]
pub(crate) fn utf8_lossy(bytes: &[u8]) -> (r: String)
    ensures
        r@ == utf8_lossy_of(bytes@),
{
    String::from_utf8_lossy(bytes).into_owned()
}

/// Splits a raw output byte stream and decodes every line, in input order:
/// exactly one decoded line per logical line of the stream.
pub fn decode_stream(data: &[u8]) -> (r: Vec<DecodedLine>)
    ensures
        r@.len() == spec_lines(data@).len(),
        forall|i: int|
            0 <= i < r@.len() ==> (#[trigger] r@[i]).content() == utf8_lossy_of(
                spec_lines(data@)[i],
            ) && (r@[i].is_structured() <==> json_accepted(utf8_lossy_of(spec_lines(data@)[i]))),
{
    let lines = split_lines(data);
    let mut out: Vec<DecodedLine> = Vec::new();
    let mut i: usize = 0;
    while i < lines.len()
        invariant
            i <= lines.len(),
            lines.deep_view() == spec_lines(data@),
            out@.len() == i,
            forall|j: int|
                0 <= j < i ==> (#[trigger] out@[j]).content() == utf8_lossy_of(
                    spec_lines(data@)[j],
                ) && (out@[j].is_structured() <==> json_accepted(
                    utf8_lossy_of(spec_lines(data@)[j]),
                )),
        decreases lines.len() - i,
    {
        assert(lines@[i as int].deep_view() =~= lines@[i as int]@);
        assert(lines.deep_view()[i as int] == lines@[i as int].deep_view());
        let text = utf8_lossy(lines[i].as_slice());
        let decoded = decode_line(text);
        out.push(decoded);
        i = i + 1;
    }
    out
}

} // verus!
