//! What holds of the extraction of reasoning, character by character.

use crate::text;
use crate::think;
use crate::think::{ParsedDeltaView, ThinkState, ThinkTagParser};
use vstd::prelude::*;

verus! {

/// A character, and whether it is reasoning.
pub type Marked = (bool, char);

/// The characters of a text, each marked the same.
pub open spec fn marks(inside: bool, s: Seq<char>) -> Seq<Marked> {
    Seq::new(s.len(), |i: int| (inside, s[i]))
}

/// The characters that deltas hold, in order, each marked by the kind of its delta.
pub open spec fn marked(deltas: Seq<ParsedDeltaView>) -> Seq<Marked>
    decreases deltas.len(),
{
    if deltas.len() == 0 {
        seq![]
    } else {
        (match deltas[0] {
            ParsedDeltaView::Text(t) => marks(false, t),
            ParsedDeltaView::Thinking(t) => marks(true, t),
        }) + marked(deltas.drop_first())
    }
}

/// The tag begins the stream.
pub open spec fn begins_with(s: Seq<char>, tag: Seq<char>) -> bool {
    tag.len() <= s.len() && s.take(tag.len() as int) == tag
}

/// A stream read one character at a time. Outside a block `<think>` begins one, inside a block
/// `</think>` ends it, and the tags themselves are dropped; every other character is kept, in its
/// place, and is reasoning exactly if it stands inside a block.
pub open spec fn marked_stream(inside: bool, s: Seq<char>) -> Seq<Marked>
    decreases s.len(),
{
    let tag = if inside {
        seq!['<', '/', 't', 'h', 'i', 'n', 'k', '>']
    } else {
        seq!['<', 't', 'h', 'i', 'n', 'k', '>']
    };
    if s.len() == 0 {
        seq![]
    } else if begins_with(s, tag) {
        marked_stream(!inside, s.skip(tag.len() as int))
    } else {
        seq![(inside, s[0])] + marked_stream(inside, s.skip(1))
    }
}

proof fn lemma_marked_concat(a: Seq<ParsedDeltaView>, b: Seq<ParsedDeltaView>)
    ensures
        marked(a + b) == marked(a) + marked(b),
    decreases a.len(),
{
    if a.len() == 0 {
        assert(a + b =~= b);
        assert(marked(a) + marked(b) =~= marked(b));
    } else {
        assert((a + b).drop_first() =~= a.drop_first() + b);
        lemma_marked_concat(a.drop_first(), b);
        assert(marked(a + b) =~= marked(a) + marked(b));
    }
}

proof fn lemma_marked_piece(inside: bool, s: Seq<char>)
    ensures
        marked(think::piece(inside, s)) == marks(inside, s),
{
    reveal_with_fuel(marked, 2);
    assert(marked(think::piece(inside, s)) =~= marks(inside, s));
}

/// Where no tag begins in the head of a stream, the head is all of one kind.
proof fn lemma_marked_head(inside: bool, head: Seq<char>, rest: Seq<char>)
    requires
        forall|j: int|
            0 <= j < head.len() ==> !text::occurs_at(head + rest, think::tag(inside), j),
    ensures
        marked_stream(inside, head + rest) == marks(inside, head) + marked_stream(inside, rest),
    decreases head.len(),
{
    let s = head + rest;
    let t = think::tag(inside);
    think::lemma_tags();
    if head.len() == 0 {
        assert(s =~= rest);
        assert(marks(inside, head) + marked_stream(inside, rest) =~= marked_stream(inside, rest));
    } else {
        let tail = head.skip(1);
        assert(s.skip(1) =~= tail + rest);
        assert(!text::occurs_at(s, t, 0));
        if begins_with(s, t) {
            assert(s.subrange(0, t.len() as int) =~= s.take(t.len() as int));
        }
        assert forall|j: int| 0 <= j < tail.len() implies !text::occurs_at(tail + rest, t, j) by {
            assert(!text::occurs_at(s, t, j + 1));
            if text::occurs_at(tail + rest, t, j) {
                assert(s.subrange(j + 1, j + 1 + t.len()) =~= (tail + rest).subrange(
                    j,
                    j + t.len(),
                ));
            }
        }
        lemma_marked_head(inside, tail, rest);
        assert(marks(inside, head) =~= seq![(inside, head[0])] + marks(inside, tail));
        assert(marked_stream(inside, s) =~= marks(inside, head) + marked_stream(inside, rest));
    }
}

/// What is drained and what is left are the stream as a whole.
proof fn lemma_drained_marks(st: ThinkState, rest: Seq<char>)
    ensures
        marked_stream(st.inside, st.buffer + rest) == marked(think::drained(st).0) + marked_stream(
            think::drained(st).1.inside,
            think::drained(st).1.buffer + rest,
        ),
    decreases st.buffer.len(),
{
    let buf = st.buffer;
    let t = think::tag(st.inside);
    let s = buf + rest;
    think::lemma_tags();
    text::lemma_find(buf, t);
    match text::find(buf, t) {
        Some(i) => {
            let next = ThinkState { inside: !st.inside, buffer: buf.skip(i + t.len()) };
            let head = buf.take(i);
            let tail = buf.skip(i) + rest;
            think::lemma_first_stays_first(buf, rest, t, i);
            text::lemma_find(s, t);
            assert(s =~= head + tail);
            assert forall|j: int| 0 <= j < head.len() implies !text::occurs_at(
                head + tail,
                t,
                j,
            ) by {
                assert(!text::occurs_at(s, t, j));
            }
            lemma_marked_head(st.inside, head, tail);
            assert(tail.take(t.len() as int) =~= buf.subrange(i, i + t.len()));
            assert(begins_with(tail, t));
            assert(tail.skip(t.len() as int) =~= next.buffer + rest);
            assert(marked_stream(st.inside, tail) == marked_stream(
                !st.inside,
                next.buffer + rest,
            ));
            lemma_drained_marks(next, rest);
            lemma_marked_concat(think::piece(st.inside, head), think::drained(next).0);
            lemma_marked_piece(st.inside, head);
            assert(marks(st.inside, head) + (marked(think::drained(next).0) + marked_stream(
                think::drained(next).1.inside,
                think::drained(next).1.buffer + rest,
            )) =~= (marks(st.inside, head) + marked(think::drained(next).0)) + marked_stream(
                think::drained(next).1.inside,
                think::drained(next).1.buffer + rest,
            ));
        },
        None => {
            let n = think::settled_len(st);
            text::lemma_rfind_char(buf, '<');
            let head = buf.take(n);
            let left = buf.skip(n) + rest;
            assert(head + left =~= s);
            assert forall|j: int| 0 <= j < head.len() implies !text::occurs_at(
                head + left,
                t,
                j,
            ) by {
                if st.inside {
                    think::lemma_settled_inside(buf, rest, j);
                } else {
                    think::lemma_settled_outside(buf, rest, j);
                }
            }
            lemma_marked_head(st.inside, head, left);
            lemma_marked_piece(st.inside, head);
        },
    }
}

proof fn lemma_run_marks(st: ThinkState, chunks: Seq<Seq<char>>)
    requires
        !text::has_infix(st.buffer, think::tag(st.inside)),
    ensures
        marked(think::run_chunks(st, chunks)) == marked_stream(
            st.inside,
            st.buffer + text::concatenated(chunks),
        ),
    decreases chunks.len(),
{
    if chunks.len() == 0 {
        let none = Seq::<char>::empty();
        assert(st.buffer + text::concatenated(chunks) =~= st.buffer + none);
        assert forall|j: int| 0 <= j < st.buffer.len() implies !text::occurs_at(
            st.buffer + none,
            think::tag(st.inside),
            j,
        ) by {
            assert(st.buffer + none =~= st.buffer);
        }
        lemma_marked_head(st.inside, st.buffer, none);
        lemma_marked_piece(st.inside, st.buffer);
        assert(marks(st.inside, st.buffer) + marked_stream(st.inside, none) =~= marks(
            st.inside,
            st.buffer,
        ));
    } else {
        let given = think::with_chunk(st, chunks[0]);
        let (deltas, next) = think::drained(given);
        let rest = text::concatenated(chunks.drop_first());
        lemma_drained_marks(given, rest);
        think::lemma_drained_settles(given);
        lemma_run_marks(next, chunks.drop_first());
        lemma_marked_concat(deltas, think::run_chunks(next, chunks.drop_first()));
        assert(given.buffer + rest =~= st.buffer + text::concatenated(chunks));
    }
}

/// However a stream is cut into chunks, its characters come out in their order, none is lost but
/// the tags, and each is reasoning exactly if it stands inside a block.
pub proof fn law_every_character_is_told_apart_in_its_place(chunks: Seq<Seq<char>>)
    ensures
        marked(think::run_chunks(think::think_start(), chunks)) == marked_stream(
            false,
            text::concatenated(chunks),
        ),
{
    let st = think::think_start();
    think::lemma_tags();
    assert(st.buffer + text::concatenated(chunks) =~= text::concatenated(chunks));
    lemma_run_marks(st, chunks);
}

/// Feeding in two parts is feeding at once, once everything is handed out: the deltas of a chunk,
/// and of what is then left, hold the characters of what was held back and of the chunk.
pub proof fn law_feeding_hands_out_what_came(st: ThinkState, chunk: Seq<char>)
    ensures
        marked(think::fed(st, chunk).0 + think::flushed(think::fed(st, chunk).1)) == marked_stream(
            st.inside,
            st.buffer + chunk,
        ),
{
    let given = think::with_chunk(st, chunk);
    let none = Seq::<char>::empty();
    let (deltas, next) = think::drained(given);
    lemma_drained_marks(given, none);
    think::lemma_drained_settles(given);
    assert(given.buffer + none =~= st.buffer + chunk);
    assert(seq![] =~= Seq::<Seq<char>>::empty());
    lemma_run_marks(next, seq![]);
    assert(next.buffer + text::concatenated(seq![]) =~= next.buffer + none);
    lemma_marked_concat(deltas, think::flushed(next));
}

/// A flush hands out what is held back as it is, in the kind that the stream is in, and leaves
/// nothing held back and the kind as it was.
pub proof fn law_a_flush_hands_out_what_is_held_back(st: ThinkState)
    ensures
        think::flushed(st) == (if st.buffer.len() == 0 {
            seq![]
        } else if st.inside {
            seq![ParsedDeltaView::Thinking(st.buffer)]
        } else {
            seq![ParsedDeltaView::Text(st.buffer)]
        }),
        think::emptied(st).buffer.len() == 0,
        think::emptied(st).inside == st.inside,
{
}

/// A chunk without a `<` is handed out whole, at once, where nothing is held back.
pub proof fn law_plain_chunks_go_out_at_once(inside: bool, chunk: Seq<char>)
    requires
        forall|i: int| 0 <= i < chunk.len() ==> #[trigger] chunk[i] != '<',
        chunk.len() > 0,
    ensures
        ({
            let st = ThinkState { inside, buffer: seq![] };
            let out = think::fed(st, chunk);
            &&& out.1 == st
            &&& out.0 == (if inside {
                seq![ParsedDeltaView::Thinking(chunk)]
            } else {
                seq![ParsedDeltaView::Text(chunk)]
            })
        }),
{
    let st = ThinkState { inside, buffer: seq![] };
    let given = think::with_chunk(st, chunk);
    let t = think::tag(inside);
    think::lemma_tags();
    assert(given.buffer =~= chunk);
    text::lemma_find(chunk, t);
    text::lemma_rfind_char(chunk, '<');
    if text::has_infix(chunk, t) {
        let i = choose|i: int| text::occurs_at(chunk, t, i);
        assert(chunk[i] == chunk.subrange(i, i + t.len())[0]);
    }
    if text::has_infix(chunk, "</"@) {
        let i = choose|i: int| text::occurs_at(chunk, "</"@, i);
        assert(chunk[i] == chunk.subrange(i, i + 2)[0]);
    }
    assert(chunk.take(chunk.len() as int) =~= chunk);
    assert(chunk.skip(chunk.len() as int) =~= seq![]);
}

/// The tag that ends the kind that a stream is in stands at `i`.
pub open spec fn tag_at(inside: bool, s: Seq<char>, i: int) -> bool {
    let tag = if inside {
        seq!['<', '/', 't', 'h', 'i', 'n', 'k', '>']
    } else {
        seq!['<', 't', 'h', 'i', 'n', 'k', '>']
    };
    0 <= i <= s.len() - tag.len() && s.subrange(i, i + tag.len()) == tag
}

/// A text of one kind in one delta; no delta where there is no text.
pub open spec fn one_delta(inside: bool, s: Seq<char>) -> Seq<ParsedDeltaView> {
    if s == Seq::<char>::empty() {
        seq![]
    } else if inside {
        seq![ParsedDeltaView::Thinking(s)]
    } else {
        seq![ParsedDeltaView::Text(s)]
    }
}

proof fn lemma_tag_at(inside: bool, s: Seq<char>, i: int)
    ensures
        tag_at(inside, s, i) <==> text::occurs_at(s, think::tag(inside), i),
{
    think::lemma_tags();
}

proof fn lemma_one_delta(inside: bool, s: Seq<char>)
    ensures
        think::piece(inside, s) == one_delta(inside, s),
{
    if s.len() == 0 {
        assert(s =~= Seq::<char>::empty());
    }
}

/// A complete tag ends the kind that the stream is in: what stands before the first one goes out
/// in one delta, and what stands behind it is taken in as if it came next, in the other kind.
pub proof fn law_a_complete_tag_changes_the_kind(st: ThinkState, chunk: Seq<char>, i: int)
    requires
        tag_at(st.inside, st.buffer + chunk, i),
        forall|j: int| 0 <= j < i ==> !(#[trigger] tag_at(st.inside, st.buffer + chunk, j)),
    ensures
        ({
            let came = st.buffer + chunk;
            let tag_len: int = if st.inside {
                8
            } else {
                7
            };
            let next = think::fed(
                ThinkState { inside: !st.inside, buffer: seq![] },
                came.skip(i + tag_len),
            );
            think::fed(st, chunk) == (one_delta(st.inside, came.take(i)) + next.0, next.1)
        }),
{
    let came = st.buffer + chunk;
    let t = think::tag(st.inside);
    think::lemma_tags();
    lemma_tag_at(st.inside, came, i);
    assert forall|j: int| j < i implies !text::occurs_at(came, t, j) by {
        lemma_tag_at(st.inside, came, j);
    }
    assert(text::first_at(came, t, i));
    text::lemma_find(came, t);
    lemma_one_delta(st.inside, came.take(i));
    let rest = came.skip(i + t.len());
    assert(Seq::<char>::empty() + rest =~= rest);
}

/// Without a complete tag, what cannot be the beginning of one goes out in one delta, and the rest
/// is held back. Outside a block the rest begins with the last `<`. Inside a block it is everything
/// where a `</` has come, and otherwise a `<` at the end.
pub proof fn law_what_may_begin_a_tag_is_held_back(st: ThinkState, chunk: Seq<char>, n: int)
    requires
        forall|j: int| !(#[trigger] tag_at(st.inside, st.buffer + chunk, j)),
        ({
            let came = st.buffer + chunk;
            let begun = exists|i: int|
                0 <= i < came.len() - 1 && (#[trigger] came[i]) == '<' && came[i + 1] == '/';
            &&& 0 <= n <= came.len()
            &&& !st.inside ==> {
                &&& n < came.len() ==> came[n] == '<'
                &&& forall|i: int| n < i < came.len() ==> (#[trigger] came[i]) != '<'
                &&& n == came.len() ==> forall|i: int|
                    0 <= i < came.len() ==> (#[trigger] came[i]) != '<'
            }
            &&& st.inside && begun ==> n == 0
            &&& st.inside && !begun && came.len() > 0 && came.last() == '<' ==> n == came.len() - 1
            &&& st.inside && !begun && !(came.len() > 0 && came.last() == '<') ==> n == came.len()
        }),
    ensures
        think::fed(st, chunk).0 == one_delta(st.inside, (st.buffer + chunk).take(n)),
        think::fed(st, chunk).1 == (ThinkState {
            inside: st.inside,
            buffer: (st.buffer + chunk).skip(n),
        }),
{
    let came = st.buffer + chunk;
    let given = think::with_chunk(st, chunk);
    let t = think::tag(st.inside);
    think::lemma_tags();
    text::lemma_find(came, t);
    if text::has_infix(came, t) {
        let i = choose|i: int| text::occurs_at(came, t, i);
        lemma_tag_at(st.inside, came, i);
    }
    text::lemma_rfind_char(came, '<');
    lemma_one_delta(st.inside, came.take(n));
    reveal_strlit("</");
    let begun = exists|i: int|
        0 <= i < came.len() - 1 && (#[trigger] came[i]) == '<' && came[i + 1] == '/';
    assert(begun <==> text::has_infix(came, "</"@)) by {
        if begun {
            let i = choose|i: int|
                0 <= i < came.len() - 1 && (#[trigger] came[i]) == '<' && came[i + 1] == '/';
            assert(came.subrange(i, i + 2) =~= "</"@);
            assert(text::occurs_at(came, "</"@, i));
        }
        if text::has_infix(came, "</"@) {
            let i = choose|i: int| text::occurs_at(came, "</"@, i);
            assert(came[i] == came.subrange(i, i + 2)[0]);
            assert(came[i + 1] == came.subrange(i, i + 2)[1]);
        }
    }
    assert(think::settled_len(given) == n);
}

/// What is known of a parser is what it holds.
pub proof fn law_a_parser_is_told_as_it_is(parser: ThinkTagParser)
    ensures
        parser@.inside == parser.inside_think,
        parser@.buffer == parser.buffer@,
{
}

} // verus!
