//! Extraction of `<think>...</think>` reasoning from streamed text.
//!
//! Nemotron writes its reasoning inline, between tags, and the text arrives in chunks that may
//! split a tag. The parser sorts the characters into reasoning and plain text, and holds back
//! what may be the beginning of a tag.

use crate::text;
use vstd::prelude::*;

verus! {

/// The state of the extraction: which side of a tag the stream is on, and what is held back.
pub struct ThinkTagParser {
    /// Whether the stream is inside a `<think>` block.
    pub inside_think: bool,
    /// Text that may hold the beginning of a tag.
    pub buffer: String,
}

/// A run of text that the parser has sorted.
#[derive(Debug, PartialEq, Eq)]
pub enum ParsedDelta {
    /// Plain text, outside any `<think>` block.
    Text(String),
    /// Reasoning, inside a `<think>` block.
    Thinking(String),
}

/// What a [`ThinkTagParser`] knows.
pub struct ThinkState {
    pub inside: bool,
    pub buffer: Seq<char>,
}

/// What a [`ParsedDelta`] holds.
pub enum ParsedDeltaView {
    Text(Seq<char>),
    Thinking(Seq<char>),
}

/// A stream sorted into its plain text and its reasoning, each put together.
pub struct Sorted {
    pub text: Seq<char>,
    pub thinking: Seq<char>,
}

impl View for ThinkTagParser {
    type V = ThinkState;

    open spec fn view(&self) -> ThinkState {
        ThinkState { inside: self.inside_think, buffer: self.buffer@ }
    }
}

impl DeepView for ParsedDelta {
    type V = ParsedDeltaView;

    open spec fn deep_view(&self) -> ParsedDeltaView {
        match self {
            ParsedDelta::Text(t) => ParsedDeltaView::Text(t@),
            ParsedDelta::Thinking(t) => ParsedDeltaView::Thinking(t@),
        }
    }
}

/// The tag that ends the mode the stream is in.
pub open spec fn tag(inside: bool) -> Seq<char> {
    if inside {
        "</think>"@
    } else {
        "<think>"@
    }
}

/// A run of text of the given mode; an empty run is no delta.
pub open spec fn piece(inside: bool, s: Seq<char>) -> Seq<ParsedDeltaView> {
    if s.len() == 0 {
        seq![]
    } else if inside {
        seq![ParsedDeltaView::Thinking(s)]
    } else {
        seq![ParsedDeltaView::Text(s)]
    }
}

/// How much of a buffer without a complete tag goes out at once. Inside a block nothing does
/// where a closing tag has begun with `</`, and otherwise everything but a `<` at the end, which
/// may begin one. Outside a block it is all that stands before the last `<`.
pub open spec fn settled_len(st: ThinkState) -> int {
    if st.inside {
        if text::has_infix(st.buffer, "</"@) {
            0
        } else if st.buffer.len() > 0 && st.buffer.last() == '<' {
            st.buffer.len() - 1
        } else {
            st.buffer.len() as int
        }
    } else {
        match text::rfind_char(st.buffer, '<') {
            Some(i) => i,
            None => st.buffer.len() as int,
        }
    }
}

/// The deltas that a buffer gives, and the state that is left. Each complete tag switches the
/// mode; after the last one, what cannot be the beginning of a tag goes out.
pub open spec fn drained(st: ThinkState) -> (Seq<ParsedDeltaView>, ThinkState)
    decreases st.buffer.len(),
{
    match text::find(st.buffer, tag(st.inside)) {
        Some(i) => {
            proof {
                lemma_tags();
                text::lemma_find(st.buffer, tag(st.inside));
            }
            let rest = drained(
                ThinkState { inside: !st.inside, buffer: st.buffer.skip(i + tag(st.inside).len()) },
            );
            (piece(st.inside, st.buffer.take(i)) + rest.0, rest.1)
        },
        None => {
            let n = settled_len(st);
            (
                piece(st.inside, st.buffer.take(n)),
                ThinkState { inside: st.inside, buffer: st.buffer.skip(n) },
            )
        },
    }
}

/// `st` with `chunk` put behind what is held back.
pub open spec fn with_chunk(st: ThinkState, chunk: Seq<char>) -> ThinkState {
    ThinkState { inside: st.inside, buffer: st.buffer + chunk }
}

/// The deltas that a chunk gives, and the state after it.
pub open spec fn fed(st: ThinkState, chunk: Seq<char>) -> (Seq<ParsedDeltaView>, ThinkState) {
    drained(with_chunk(st, chunk))
}

/// The deltas that the end of the stream gives.
pub open spec fn flushed(st: ThinkState) -> Seq<ParsedDeltaView> {
    piece(st.inside, st.buffer)
}

/// `st` with nothing held back.
pub open spec fn emptied(st: ThinkState) -> ThinkState {
    ThinkState { inside: st.inside, buffer: seq![] }
}

/// The state at the beginning of a stream.
pub open spec fn think_start() -> ThinkState {
    ThinkState { inside: false, buffer: seq![] }
}

pub proof fn lemma_tags()
    ensures
        tag(false) =~= seq!['<', 't', 'h', 'i', 'n', 'k', '>'],
        tag(true) =~= seq!['<', '/', 't', 'h', 'i', 'n', 'k', '>'],
        "</"@ =~= seq!['<', '/'],
{
    reveal_strlit("<think>");
    reveal_strlit("</think>");
    reveal_strlit("</");
}

impl Default for ThinkTagParser {
    /// A parser at the beginning of a stream.
    fn default() -> (parser: ThinkTagParser)
        ensures
            parser@ == think_start(),
    {
        ThinkTagParser { inside_think: false, buffer: String::new() }
    }
}

/// Appends a run of text to the deltas, unless it is empty.
fn push_piece(results: &mut Vec<ParsedDelta>, inside: bool, s: String)
    ensures
        final(results).deep_view() == old(results).deep_view() + piece(inside, s@),
{
    let ghost before = results.deep_view();
    if !s.as_str().is_empty() {
        if inside {
            results.push(ParsedDelta::Thinking(s));
        } else {
            results.push(ParsedDelta::Text(s));
        }
    }
    assert(results.deep_view() =~= before + piece(inside, s@));
}

impl ThinkTagParser {
    /// Takes in a chunk of the stream and returns what it settles.
    pub fn feed(&mut self, text: &str) -> (results: Vec<ParsedDelta>)
        ensures
            results.deep_view() == fed(old(self)@, text@).0,
            final(self)@ == fed(old(self)@, text@).1,
    {
        self.buffer.append(text);
        let mut results: Vec<ParsedDelta> = Vec::new();
        assert(self@ == with_chunk(old(self)@, text@));
        self.drain(&mut results);
        assert(results.deep_view() =~= fed(old(self)@, text@).0);
        results
    }

    /// Hands out what is held back, at the end of the stream.
    pub fn flush(&mut self) -> (results: Vec<ParsedDelta>)
        ensures
            results.deep_view() == flushed(old(self)@),
            final(self)@ == emptied(old(self)@),
    {
        let mut results: Vec<ParsedDelta> = Vec::new();
        let mut remaining = String::new();
        std::mem::swap(&mut remaining, &mut self.buffer);
        push_piece(&mut results, self.inside_think, remaining);
        assert(results.deep_view() =~= flushed(old(self)@));
        results
    }

    /// Moves everything that is settled out of the buffer, to the end of `results`.
    pub fn drain(&mut self, results: &mut Vec<ParsedDelta>)
        ensures
            final(results).deep_view() == old(results).deep_view() + drained(old(self)@).0,
            final(self)@ == drained(old(self)@).1,
    {
        let ghost st0 = self@;
        let ghost out0 = results.deep_view();
        assert(out0 + drained(st0).0 =~= results.deep_view() + drained(self@).0);
        loop
            invariant_except_break
                out0 + drained(st0).0 == results.deep_view() + drained(self@).0,
                drained(st0).1 == drained(self@).1,
            ensures
                results.deep_view() == out0 + drained(st0).0,
                self@ == drained(st0).1,
            decreases self@.buffer.len(),
        {
            let ghost st = self@;
            let ghost out = results.deep_view();
            proof {
                lemma_tags();
                text::lemma_find(st.buffer, tag(st.inside));
            }
            let chars = text::chars_of(self.buffer.as_str());
            let inside = self.inside_think;
            let end_tag = text::chars_of(if inside { "</think>" } else { "<think>" });
            match text::find_text(&chars, &end_tag) {
                Some(i) => {
                    let head = self.buffer.as_str().substring_char(0, i).to_string();
                    let rest = self.buffer.as_str().substring_char(
                        i + end_tag.len(),
                        chars.len(),
                    ).to_string();
                    assert(head@ =~= st.buffer.take(i as int));
                    assert(rest@ =~= st.buffer.skip(i + tag(inside).len()));
                    self.buffer = rest;
                    self.inside_think = !inside;
                    push_piece(results, inside, head);
                    assert(out + drained(st).0 =~= results.deep_view() + drained(self@).0);
                },
                None => {
                    let n = if inside {
                        match text::find_text(&chars, &text::chars_of("</")) {
                            Some(_) => 0,
                            None => if chars.len() > 0 && chars[chars.len() - 1] == '<' {
                                chars.len() - 1
                            } else {
                                chars.len()
                            },
                        }
                    } else {
                        match text::rfind_in(&chars, '<') {
                            Some(i) => i,
                            None => chars.len(),
                        }
                    };
                    proof {
                        text::lemma_find(st.buffer, "</"@);
                    }
                    assert(n == settled_len(st));
                    let head = self.buffer.as_str().substring_char(0, n).to_string();
                    let rest = self.buffer.as_str().substring_char(n, chars.len()).to_string();
                    assert(head@ =~= st.buffer.take(n as int));
                    assert(rest@ =~= st.buffer.skip(n as int));
                    self.buffer = rest;
                    push_piece(results, inside, head);
                    break;
                },
            }
        }
    }
}

/// The deltas put together, mode by mode.
pub open spec fn totals(deltas: Seq<ParsedDeltaView>) -> Sorted
    decreases deltas.len(),
{
    if deltas.len() == 0 {
        Sorted { text: seq![], thinking: seq![] }
    } else {
        let rest = totals(deltas.drop_first());
        match deltas[0] {
            ParsedDeltaView::Text(t) => Sorted { text: t + rest.text, thinking: rest.thinking },
            ParsedDeltaView::Thinking(t) => Sorted {
                text: rest.text,
                thinking: t + rest.thinking,
            },
        }
    }
}

/// `a` with `b` behind it, mode by mode.
pub open spec fn sorted_concat(a: Sorted, b: Sorted) -> Sorted {
    Sorted { text: a.text + b.text, thinking: a.thinking + b.thinking }
}

/// A run of one mode.
pub open spec fn sorted_run(inside: bool, s: Seq<char>) -> Sorted {
    if inside {
        Sorted { text: seq![], thinking: s }
    } else {
        Sorted { text: s, thinking: seq![] }
    }
}

/// A whole stream, sorted at one go: each tag that ends the current mode is taken out, and
/// switches the mode.
pub open spec fn sorted_stream(inside: bool, s: Seq<char>) -> Sorted
    decreases s.len(),
{
    match text::find(s, tag(inside)) {
        Some(i) => {
            proof {
                lemma_tags();
                text::lemma_find(s, tag(inside));
            }
            sorted_concat(
                sorted_run(inside, s.take(i)),
                sorted_stream(!inside, s.skip(i + tag(inside).len())),
            )
        },
        None => sorted_run(inside, s),
    }
}

/// The deltas of a run of chunks, with those of the end of the stream behind them.
pub open spec fn run_chunks(st: ThinkState, chunks: Seq<Seq<char>>) -> Seq<ParsedDeltaView>
    decreases chunks.len(),
{
    if chunks.len() == 0 {
        flushed(st)
    } else {
        let (deltas, next) = fed(st, chunks[0]);
        deltas + run_chunks(next, chunks.drop_first())
    }
}

/// Nothing that is held back could have gone out: there is no complete tag in it, inside a block
/// a closing tag may have begun in it or at its end, and outside a block it begins with its only
/// `<`.
pub open spec fn holds_back_no_more_than_a_tag(st: ThinkState) -> bool {
    &&& !text::has_infix(st.buffer, tag(st.inside))
    &&& st.buffer.len() > 0 ==> if st.inside {
        text::has_infix(st.buffer, "</"@) || st.buffer == seq!['<']
    } else {
        st.buffer[0] == '<' && forall|i: int| 0 < i < st.buffer.len() ==> st.buffer[i] != '<'
    }
}

/// `d` is not empty and holds no tag that ends its own mode.
pub open spec fn clean_delta(d: ParsedDeltaView) -> bool {
    match d {
        ParsedDeltaView::Text(t) => t.len() > 0 && !text::has_infix(t, tag(false)),
        ParsedDeltaView::Thinking(t) => t.len() > 0 && !text::has_infix(t, tag(true)),
    }
}

pub proof fn lemma_totals_concat(a: Seq<ParsedDeltaView>, b: Seq<ParsedDeltaView>)
    ensures
        totals(a + b) == sorted_concat(totals(a), totals(b)),
    decreases a.len(),
{
    if a.len() == 0 {
        assert(a + b =~= b);
    } else {
        assert((a + b).drop_first() =~= a.drop_first() + b);
        lemma_totals_concat(a.drop_first(), b);
    }
    assert(totals(a + b).text =~= sorted_concat(totals(a), totals(b)).text);
    assert(totals(a + b).thinking =~= sorted_concat(totals(a), totals(b)).thinking);
}

pub proof fn lemma_totals_piece(inside: bool, s: Seq<char>)
    ensures
        totals(piece(inside, s)) == sorted_run(inside, s),
{
    reveal_with_fuel(totals, 2);
    assert(totals(piece(inside, s)).text =~= sorted_run(inside, s).text);
    assert(totals(piece(inside, s)).thinking =~= sorted_run(inside, s).thinking);
}

proof fn lemma_concat_assoc(a: Sorted, b: Sorted, c: Sorted)
    ensures
        sorted_concat(sorted_concat(a, b), c) == sorted_concat(a, sorted_concat(b, c)),
{
    assert(sorted_concat(sorted_concat(a, b), c).text =~= sorted_concat(
        a,
        sorted_concat(b, c),
    ).text);
    assert(sorted_concat(sorted_concat(a, b), c).thinking =~= sorted_concat(
        a,
        sorted_concat(b, c),
    ).thinking);
}

/// Taking a run without a tag off the front of a stream changes nothing, as long as no tag
/// begins in the run.
pub proof fn lemma_sorted_prefix(inside: bool, head: Seq<char>, rest: Seq<char>)
    requires
        forall|j: int| j < head.len() ==> !text::occurs_at(head + rest, tag(inside), j),
    ensures
        sorted_stream(inside, head + rest) == sorted_concat(
            sorted_run(inside, head),
            sorted_stream(inside, rest),
        ),
{
    let s = head + rest;
    let t = tag(inside);
    lemma_tags();
    text::lemma_find(s, t);
    text::lemma_find(rest, t);
    assert forall|j: int| text::occurs_at(s, t, head.len() + j) == #[trigger] text::occurs_at(
        rest,
        t,
        j,
    ) by {
        if 0 <= j && j + t.len() <= rest.len() {
            assert(s.subrange(head.len() + j, head.len() + j + t.len()) =~= rest.subrange(
                j,
                j + t.len(),
            ));
        } else if text::occurs_at(s, t, head.len() + j) {
            assert(head.len() + j < head.len());
        }
    }
    match text::find(rest, t) {
        Some(i) => {
            assert(text::occurs_at(rest, t, i));
            assert(text::occurs_at(s, t, head.len() + i));
            assert forall|j: int| j < head.len() + i implies !text::occurs_at(s, t, j) by {
                if j >= head.len() {
                    assert(!text::occurs_at(rest, t, j - head.len()));
                }
            }
            assert(text::first_at(s, t, head.len() + i));
            assert(s.take(head.len() + i) =~= head + rest.take(i));
            assert(s.skip(head.len() + i + t.len()) =~= rest.skip(i + t.len()));
            lemma_concat_assoc(
                sorted_run(inside, head),
                sorted_run(inside, rest.take(i)),
                sorted_stream(!inside, rest.skip(i + t.len())),
            );
            assert(sorted_run(inside, head + rest.take(i)).text =~= sorted_concat(
                sorted_run(inside, head),
                sorted_run(inside, rest.take(i)),
            ).text);
            assert(sorted_run(inside, head + rest.take(i)).thinking =~= sorted_concat(
                sorted_run(inside, head),
                sorted_run(inside, rest.take(i)),
            ).thinking);
        },
        None => {
            if text::has_infix(s, t) {
                let j = choose|j: int| text::occurs_at(s, t, j);
                assert(text::occurs_at(rest, t, j - head.len()));
            }
            assert(sorted_run(inside, s).text =~= sorted_concat(
                sorted_run(inside, head),
                sorted_run(inside, rest),
            ).text);
            assert(sorted_run(inside, s).thinking =~= sorted_concat(
                sorted_run(inside, head),
                sorted_run(inside, rest),
            ).thinking);
        },
    }
}

/// No closing tag begins in what goes out inside a block.
pub proof fn lemma_settled_inside(buf: Seq<char>, rest: Seq<char>, j: int)
    requires
        !text::has_infix(buf, "</"@),
        j < settled_len(ThinkState { inside: true, buffer: buf }),
    ensures
        !text::occurs_at(buf + rest, tag(true), j),
{
    let s = buf + rest;
    let t = tag(true);
    lemma_tags();
    if text::occurs_at(s, t, j) {
        let hit = s.subrange(j, j + t.len());
        assert(hit == t);
        assert(s[j] == hit[0]);
        assert(s[j + 1] == hit[1]);
        if j + 1 < buf.len() {
            assert(buf.subrange(j, j + 2) =~= "</"@);
            assert(text::occurs_at(buf, "</"@, j));
        } else {
            assert(buf.last() == '<');
        }
    }
}

/// No opening tag begins before the last `<`, nor where there is none.
pub proof fn lemma_settled_outside(buf: Seq<char>, rest: Seq<char>, j: int)
    requires
        !text::has_infix(buf, tag(false)),
        j < (match text::rfind_char(buf, '<') {
            Some(i) => i,
            None => buf.len() as int,
        }),
    ensures
        !text::occurs_at(buf + rest, tag(false), j),
{
    let s = buf + rest;
    let t = tag(false);
    lemma_tags();
    text::lemma_rfind_char(buf, '<');
    if text::occurs_at(s, t, j) {
        let hit = s.subrange(j, j + t.len());
        assert(hit == t);
        assert(s[j] == hit[0]);
        if j + t.len() <= buf.len() {
            assert(buf.subrange(j, j + t.len()) =~= hit);
            assert(text::occurs_at(buf, t, j));
        } else {
            assert(buf[j] == '<');
            let n = text::rfind_char(buf, '<').unwrap();
            assert(s[n] == hit[n - j]);
        }
    }
}

/// What is drained and what is left sort the stream as a whole.
pub proof fn lemma_drained_sorts(st: ThinkState, rest: Seq<char>)
    ensures
        sorted_stream(st.inside, st.buffer + rest) == sorted_concat(
            totals(drained(st).0),
            sorted_stream(drained(st).1.inside, drained(st).1.buffer + rest),
        ),
    decreases st.buffer.len(),
{
    let buf = st.buffer;
    let t = tag(st.inside);
    let s = buf + rest;
    text::lemma_find(buf, t);
    match text::find(buf, t) {
        Some(i) => {
            let next = ThinkState { inside: !st.inside, buffer: buf.skip(i + t.len()) };
            assert(t.len() > 0) by {
                lemma_tags();
            }
            lemma_first_stays_first(buf, rest, t, i);
            lemma_drained_sorts(next, rest);
            assert(s.take(i) =~= buf.take(i));
            assert(s.skip(i + t.len()) =~= next.buffer + rest);
            lemma_totals_concat(piece(st.inside, buf.take(i)), drained(next).0);
            lemma_totals_piece(st.inside, buf.take(i));
            lemma_concat_assoc(
                sorted_run(st.inside, buf.take(i)),
                totals(drained(next).0),
                sorted_stream(drained(next).1.inside, drained(next).1.buffer + rest),
            );
        },
        None => {
            let n = settled_len(st);
            text::lemma_rfind_char(buf, '<');
            let head = buf.take(n);
            let left = buf.skip(n) + rest;
            assert(head + left =~= s);
            assert forall|j: int| j < head.len() implies !text::occurs_at(head + left, t, j) by {
                if j < 0 {
                } else if st.inside {
                    lemma_settled_inside(buf, rest, j);
                } else {
                    lemma_settled_outside(buf, rest, j);
                }
            }
            lemma_sorted_prefix(st.inside, head, left);
            lemma_totals_piece(st.inside, head);
        },
    }
}

pub proof fn lemma_first_stays_first(buf: Seq<char>, rest: Seq<char>, t: Seq<char>, i: int)
    requires
        text::first_at(buf, t, i),
    ensures
        text::find(buf + rest, t) == Some(i),
{
    let s = buf + rest;
    text::lemma_find(s, t);
    assert(s.subrange(i, i + t.len()) =~= buf.subrange(i, i + t.len()));
    assert forall|j: int| j < i implies !text::occurs_at(s, t, j) by {
        if text::occurs_at(s, t, j) {
            assert(s.subrange(j, j + t.len()) =~= buf.subrange(j, j + t.len()));
            assert(text::occurs_at(buf, t, j));
        }
    }
    assert(text::first_at(s, t, i));
}

pub proof fn lemma_drained_settles(st: ThinkState)
    ensures
        holds_back_no_more_than_a_tag(drained(st).1),
        forall|i: int|
            0 <= i < drained(st).0.len() ==> clean_delta(#[trigger] drained(st).0[i]),
    decreases st.buffer.len(),
{
    let buf = st.buffer;
    let t = tag(st.inside);
    lemma_tags();
    text::lemma_find(buf, t);
    match text::find(buf, t) {
        Some(i) => {
            let next = ThinkState { inside: !st.inside, buffer: buf.skip(i + t.len()) };
            lemma_drained_settles(next);
            let head = buf.take(i);
            assert(!text::has_infix(head, t)) by {
                if text::has_infix(head, t) {
                    let j = choose|j: int| text::occurs_at(head, t, j);
                    assert(buf.subrange(j, j + t.len()) =~= head.subrange(j, j + t.len()));
                    assert(text::occurs_at(buf, t, j));
                }
            }
            let p = piece(st.inside, head);
            assert forall|k: int| 0 <= k < drained(st).0.len() implies clean_delta(
                #[trigger] drained(st).0[k],
            ) by {
                if k >= p.len() {
                    assert(drained(st).0[k] == drained(next).0[k - p.len()]);
                }
            }
        },
        None => {
            let n = settled_len(st);
            text::lemma_find(buf, "</"@);
            text::lemma_rfind_char(buf, '<');
            let head = buf.take(n);
            let left = buf.skip(n);
            assert(!text::has_infix(head, t)) by {
                if text::has_infix(head, t) {
                    let j = choose|j: int| text::occurs_at(head, t, j);
                    assert(buf.subrange(j, j + t.len()) =~= head.subrange(j, j + t.len()));
                    assert(text::occurs_at(buf, t, j));
                }
            }
            assert(!text::has_infix(left, t)) by {
                if text::has_infix(left, t) {
                    let j = choose|j: int| text::occurs_at(left, t, j);
                    assert(buf.subrange(n + j, n + j + t.len()) =~= left.subrange(j, j + t.len()));
                    assert(text::occurs_at(buf, t, n + j));
                }
            }
            if st.inside {
                if text::has_infix(buf, "</"@) {
                    assert(left =~= buf);
                } else if buf.len() > 0 && buf.last() == '<' {
                    assert(left =~= seq!['<']);
                }
            }
        },
    }
}

/// What the parser holds back after a chunk is no more than the beginning of a tag calls for,
/// and no delta is empty or holds a tag that ends its own mode.
pub proof fn law_feed_settles(st: ThinkState, chunk: Seq<char>)
    ensures
        holds_back_no_more_than_a_tag(fed(st, chunk).1),
        forall|i: int|
            0 <= i < fed(st, chunk).0.len() ==> clean_delta(#[trigger] fed(st, chunk).0[i]),
{
    lemma_drained_settles(with_chunk(st, chunk));
}

proof fn lemma_run_chunks_sorts(st: ThinkState, chunks: Seq<Seq<char>>)
    requires
        !text::has_infix(st.buffer, tag(st.inside)),
    ensures
        totals(run_chunks(st, chunks)) == sorted_stream(
            st.inside,
            st.buffer + text::concatenated(chunks),
        ),
    decreases chunks.len(),
{
    if chunks.len() == 0 {
        assert(st.buffer + text::concatenated(chunks) =~= st.buffer);
        lemma_totals_piece(st.inside, st.buffer);
    } else {
        let given = with_chunk(st, chunks[0]);
        let (deltas, next) = drained(given);
        let rest = text::concatenated(chunks.drop_first());
        lemma_drained_sorts(given, rest);
        lemma_drained_settles(given);
        lemma_run_chunks_sorts(next, chunks.drop_first());
        lemma_totals_concat(deltas, run_chunks(next, chunks.drop_first()));
        assert(given.buffer + rest =~= st.buffer + text::concatenated(chunks));
    }
}

/// How a stream is cut into chunks does not matter: the deltas of the chunks and of the end of
/// the stream put together are the stream sorted at one go.
pub proof fn law_chunking_does_not_matter(chunks: Seq<Seq<char>>)
    ensures
        totals(run_chunks(think_start(), chunks)) == sorted_stream(
            false,
            text::concatenated(chunks),
        ),
{
    let st = think_start();
    lemma_tags();
    assert(!text::has_infix(st.buffer, tag(false)));
    assert(st.buffer + text::concatenated(chunks) =~= text::concatenated(chunks));
    lemma_run_chunks_sorts(st, chunks);
}

/// A stream that arrives in one chunk is sorted at one go, whatever it holds.
pub proof fn law_one_chunk_is_sorted(stream: Seq<char>)
    ensures
        totals(fed(think_start(), stream).0 + flushed(fed(think_start(), stream).1))
            == sorted_stream(false, stream),
{
    let chunks = seq![stream];
    assert(chunks.drop_first() =~= seq![]);
    lemma_tags();
    reveal_with_fuel(text::concatenated, 2);
    reveal_with_fuel(run_chunks, 2);
    assert(text::concatenated(chunks) =~= stream);
    law_chunking_does_not_matter(chunks);
}

/// Without a `<think>` in it, a stream is plain text to its last character.
pub proof fn law_no_tag_all_text(stream: Seq<char>)
    requires
        !text::has_infix(stream, tag(false)),
    ensures
        sorted_stream(false, stream) == (Sorted { text: stream, thinking: seq![] }),
{
}

} // verus!
