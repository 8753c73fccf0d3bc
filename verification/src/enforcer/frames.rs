//! Puts the events of a byte stream back together.

use vstd::prelude::*;
use vstd::slice::slice_subrange;

verus! {

/// The byte strings that a list holds.
pub open spec fn byte_views(list: Seq<Vec<u8>>) -> Seq<Seq<u8>> {
    list.map_values(|bytes: Vec<u8>| bytes@)
}

/// How many bytes the first complete event takes, the blank line that ends it
/// included; 0 if there is no complete event.
pub open spec fn event_length(s: Seq<u8>) -> nat
    decreases s.len(),
{
    if s.len() < 2 {
        0
    } else if s[0] == 10 && s[1] == 10 {
        2
    } else {
        let length = event_length(s.skip(1));
        if length == 0 { 0 } else { length + 1 }
    }
}

/// The complete events at the start of a byte string, in order.
pub open spec fn events_of(s: Seq<u8>) -> Seq<Seq<u8>>
    decreases s.len(),
{
    let length = event_length(s);
    if 0 < length <= s.len() {
        seq![s.take(length as int)] + events_of(s.skip(length as int))
    } else {
        Seq::empty()
    }
}

/// What follows the complete events: the beginning of the next one.
pub open spec fn rest_of(s: Seq<u8>) -> Seq<u8>
    decreases s.len(),
{
    let length = event_length(s);
    if 0 < length <= s.len() { rest_of(s.skip(length as int)) } else { s }
}

/// All the bytes of a list, one after the other.
pub open spec fn joined(parts: Seq<Seq<u8>>) -> Seq<u8>
    decreases parts.len(),
{
    if parts.len() == 0 { Seq::empty() } else { joined(parts.drop_last()) + parts.last() }
}

proof fn lemma_event_length_is(s: Seq<u8>, end: nat)
    requires
        2 <= end <= s.len(),
        s[end - 2] == 10 && s[end - 1] == 10,
        forall|i: int| 0 <= i < end - 2 ==> !(s[i] == 10 && #[trigger] s[i + 1] == 10),
    ensures
        event_length(s) == end,
    decreases end,
{
    if end > 2 {
        assert(!(s[0] == 10 && s[0int + 1] == 10));
        assert forall|i: int| 0 <= i < end - 3 implies !(s.skip(1)[i] == 10
            && #[trigger] s.skip(1)[i + 1] == 10) by {
            assert(s.skip(1)[i] == s[i + 1]);
            assert(s.skip(1)[i + 1] == s[(i + 1) + 1]);
        }
        lemma_event_length_is(s.skip(1), (end - 1) as nat);
    }
}

proof fn lemma_no_event(s: Seq<u8>)
    requires
        forall|i: int| 0 <= i < s.len() - 1 ==> !(s[i] == 10 && #[trigger] s[i + 1] == 10),
    ensures
        event_length(s) == 0,
    decreases s.len(),
{
    if s.len() >= 2 {
        assert(!(s[0] == 10 && s[0int + 1] == 10));
        assert forall|i: int| 0 <= i < s.skip(1).len() - 1 implies !(s.skip(1)[i] == 10
            && #[trigger] s.skip(1)[i + 1] == 10) by {
            assert(s.skip(1)[i] == s[i + 1]);
            assert(s.skip(1)[i + 1] == s[(i + 1) + 1]);
        }
        lemma_no_event(s.skip(1));
    }
}

/// Where the first complete event ends.
fn find_event_boundary(buf: &[u8]) -> (end: Option<usize>)
    ensures
        match end {
            Some(end) => end == event_length(buf@) && 2 <= end <= buf@.len(),
            None => event_length(buf@) == 0,
        },
{
    let mut i: usize = 1;
    while i < buf.len()
        invariant
            1 <= i,
            i <= buf@.len() || buf@.len() == 0,
            forall|j: int|
                0 <= j < i - 1 && j < buf@.len() - 1 ==> !(buf@[j] == 10 && #[trigger] buf@[j + 1]
                    == 10),
        decreases buf.len() - i,
    {
        if buf[i - 1] == 10 && buf[i] == 10 {
            proof {
                lemma_event_length_is(buf@, (i + 1) as nat);
            }
            return Some(i + 1);
        }
        assert(buf@[i - 1 + 1] == buf@[i as int]);
        i += 1;
    }
    proof {
        lemma_no_event(buf@);
    }
    None
}

/// Collects raw bytes and hands out complete events, each ended by a blank
/// line. An event that is not complete yet is kept until the rest of it
/// arrives, so that nothing is ever decided on half an event, however the
/// bytes were split up on the way.
pub struct SseFrameBuffer {
    buf: Vec<u8>,
}

impl View for SseFrameBuffer {
    type V = Seq<u8>;

    closed spec fn view(&self) -> Seq<u8> {
        self.buf@
    }
}

impl SseFrameBuffer {
    pub fn new() -> (frames: Self)
        ensures
            frames@ == Seq::<u8>::empty(),
    {
        SseFrameBuffer { buf: Vec::new() }
    }

    /// Takes in more bytes and hands out the events that they complete.
    pub fn push(&mut self, chunk: &[u8]) -> (events: Vec<Vec<u8>>)
        ensures
            byte_views(events@) == events_of(old(self)@ + chunk@),
            final(self)@ == rest_of(old(self)@ + chunk@),
    {
        self.buf.extend_from_slice(chunk);
        let ghost all = old(self)@ + chunk@;
        assert(self.buf@ =~= all);
        let mut events: Vec<Vec<u8>> = Vec::new();
        let mut start: usize = 0;
        assert(all.skip(0) =~= all);
        assert(byte_views(events@) + events_of(all) =~= events_of(all));
        loop
            invariant_except_break
                self.buf@ == all,
                start <= all.len(),
                byte_views(events@) + events_of(all.skip(start as int)) == events_of(all),
                rest_of(all.skip(start as int)) == rest_of(all),
            ensures
                self.buf@ == all,
                start <= all.len(),
                byte_views(events@) == events_of(all),
                all.skip(start as int) == rest_of(all),
            decreases all.len() - start,
        {
            let rest = slice_subrange(self.buf.as_slice(), start, self.buf.len());
            assert(rest@ =~= all.skip(start as int));
            match find_event_boundary(rest) {
                Some(end) => {
                    let event = vstd::slice::slice_to_vec(slice_subrange(rest, 0, end));
                    assert(event@ =~= rest@.take(end as int));
                    let ghost before = events@;
                    events.push(event);
                    assert(byte_views(events@) =~= byte_views(before).push(event@));
                    assert(rest@.skip(end as int) =~= all.skip(start + end));
                    assert(byte_views(before) + (seq![event@] + events_of(all.skip(start + end)))
                        =~= byte_views(events@) + events_of(all.skip(start + end)));
                    start += end;
                },
                None => {
                    assert(byte_views(events@) + Seq::<Seq<u8>>::empty() =~= byte_views(events@));
                    break;
                },
            }
        }
        let rest = vstd::slice::slice_to_vec(
            slice_subrange(self.buf.as_slice(), start, self.buf.len()),
        );
        assert(rest@ =~= all.skip(start as int));
        self.buf = rest;
        events
    }

    /// Hands out what is left when no more bytes will come.
    pub fn flush(&mut self) -> (left: Option<Vec<u8>>)
        ensures
            final(self)@ == Seq::<u8>::empty(),
            match left {
                Some(bytes) => bytes@ == old(self)@ && old(self)@.len() > 0,
                None => old(self)@.len() == 0,
            },
    {
        if self.buf.len() == 0 {
            assert(self.buf@ =~= Seq::empty());
            None
        } else {
            let mut left: Vec<u8> = Vec::new();
            std::mem::swap(&mut left, &mut self.buf);
            Some(left)
        }
    }
}

proof fn lemma_length_fits(s: Seq<u8>)
    ensures
        event_length(s) <= s.len(),
        event_length(s) > 0 ==> 2 <= event_length(s) && s[event_length(s) - 2] == 10
            && s[event_length(s) - 1] == 10,
    decreases s.len(),
{
    if s.len() >= 2 && !(s[0] == 10 && s[1] == 10) {
        lemma_length_fits(s.skip(1));
    }
}

/// An event that is complete stays the first one, whatever follows.
proof fn lemma_length_is_stable(a: Seq<u8>, b: Seq<u8>)
    requires
        event_length(a) > 0,
    ensures
        event_length(a + b) == event_length(a),
    decreases a.len(),
{
    if !(a[0] == 10 && a[1] == 10) {
        lemma_length_is_stable(a.skip(1), b);
        assert((a + b).skip(1) =~= a.skip(1) + b);
    }
}

pub(crate) proof fn lemma_events_of_concatenation(a: Seq<u8>, b: Seq<u8>)
    ensures
        events_of(a + b) == events_of(a) + events_of(rest_of(a) + b),
        rest_of(a + b) == rest_of(rest_of(a) + b),
    decreases a.len(),
{
    lemma_length_fits(a);
    let length = event_length(a) as int;
    if length > 0 {
        lemma_length_is_stable(a, b);
        assert((a + b).take(length) =~= a.take(length));
        assert((a + b).skip(length) =~= a.skip(length) + b);
        lemma_events_of_concatenation(a.skip(length), b);
        assert(seq![a.take(length)] + (events_of(a.skip(length)) + events_of(rest_of(a) + b))
            =~= events_of(a) + events_of(rest_of(a) + b));
    } else {
        assert(Seq::<Seq<u8>>::empty() + events_of(a + b) =~= events_of(a + b));
    }
}

/// The events that a buffer hands out over a list of chunks, from empty.
pub open spec fn handed_out(chunks: Seq<Seq<u8>>) -> Seq<Seq<u8>>
    decreases chunks.len(),
{
    if chunks.len() == 0 {
        Seq::empty()
    } else {
        handed_out(chunks.drop_last()) + events_of(kept_back(chunks.drop_last()) + chunks.last())
    }
}

/// What a buffer holds after a list of chunks, from empty.
pub open spec fn kept_back(chunks: Seq<Seq<u8>>) -> Seq<u8>
    decreases chunks.len(),
{
    if chunks.len() == 0 {
        Seq::empty()
    } else {
        rest_of(kept_back(chunks.drop_last()) + chunks.last())
    }
}

/// Law: the events do not depend on how the bytes were split up on the way.
pub proof fn law_chunking_does_not_matter(chunks: Seq<Seq<u8>>)
    ensures
        handed_out(chunks) == events_of(joined(chunks)),
        kept_back(chunks) == rest_of(joined(chunks)),
    decreases chunks.len(),
{
    if chunks.len() > 0 {
        law_chunking_does_not_matter(chunks.drop_last());
        lemma_events_of_concatenation(joined(chunks.drop_last()), chunks.last());
    }
}

/// Law: no byte is lost, added or moved: the events and what is left make up
/// the input.
pub proof fn law_no_byte_is_lost(s: Seq<u8>)
    ensures
        joined(events_of(s)) + rest_of(s) == s,
    decreases s.len(),
{
    lemma_length_fits(s);
    let length = event_length(s) as int;
    if length > 0 {
        law_no_byte_is_lost(s.skip(length));
        lemma_joined_concatenation(seq![s.take(length)], events_of(s.skip(length)));
        lemma_joined_single(s.take(length));
        assert(joined(events_of(s)) + rest_of(s) =~= s.take(length) + (joined(
            events_of(s.skip(length)),
        ) + rest_of(s)));
        assert(s.take(length) + s.skip(length) =~= s);
    } else {
        assert(joined(events_of(s)) + rest_of(s) =~= s);
    }
}

pub(crate) proof fn lemma_joined_single(part: Seq<u8>)
    ensures
        joined(seq![part]) == part,
{
    assert(seq![part].drop_last() =~= Seq::empty());
    assert(joined(seq![part].drop_last()) =~= Seq::empty());
    assert(Seq::<u8>::empty() + part =~= part);
}

pub(crate) proof fn lemma_joined_concatenation(a: Seq<Seq<u8>>, b: Seq<Seq<u8>>)
    ensures
        joined(a + b) == joined(a) + joined(b),
    decreases b.len(),
{
    if b.len() == 0 {
        assert(a + b =~= a);
        assert(joined(a) + joined(b) =~= joined(a));
    } else {
        assert((a + b).drop_last() =~= a + b.drop_last());
        lemma_joined_concatenation(a, b.drop_last());
        assert(joined(a + b) =~= joined(a) + joined(b));
    }
}

/// Law: every event that is handed out is complete: it ends in a blank line and
/// holds no other.
pub proof fn law_events_are_complete(s: Seq<u8>, i: int)
    requires
        0 <= i < events_of(s).len(),
    ensures
        event_length(events_of(s)[i]) == events_of(s)[i].len() > 0,
    decreases s.len(),
{
    lemma_length_fits(s);
    let length = event_length(s) as int;
    if i == 0 {
        lemma_first_event_is_complete(s);
    } else {
        law_events_are_complete(s.skip(length), i - 1);
    }
}

proof fn lemma_first_event_is_complete(s: Seq<u8>)
    requires
        event_length(s) > 0,
    ensures
        event_length(s.take(event_length(s) as int)) == event_length(s),
    decreases s.len(),
{
    lemma_length_fits(s);
    if !(s[0] == 10 && s[1] == 10) {
        lemma_first_event_is_complete(s.skip(1));
        assert(s.take(event_length(s) as int).skip(1) =~= s.skip(1).take(
            event_length(s.skip(1)) as int,
        ));
    }
}

/// Law: what a buffer keeps back holds no complete event.
pub proof fn law_the_rest_is_incomplete(s: Seq<u8>)
    ensures
        event_length(rest_of(s)) == 0,
    decreases s.len(),
{
    lemma_length_fits(s);
    if event_length(s) > 0 {
        law_the_rest_is_incomplete(s.skip(event_length(s) as int));
    }
}

proof fn lemma_no_earlier_blank_line(s: Seq<u8>, j: int)
    requires
        0 <= j < s.len() - 1,
        event_length(s) == 0 || j < event_length(s) - 2,
    ensures
        !(s[j] == 10 && s[j + 1] == 10),
    decreases s.len(),
{
    if j > 0 && !(s[0] == 10 && s[1] == 10) {
        lemma_no_earlier_blank_line(s.skip(1), j - 1);
    }
}

/// Law: every event ends in two line feeds and has no two line feeds in a row
/// before that; what is kept back has no two line feeds in a row at all.
pub proof fn law_events_end_at_the_first_blank_line(s: Seq<u8>, i: int, j: int)
    ensures
        0 <= i < events_of(s).len() ==> ({
            let event = events_of(s)[i];
            let n = event.len();
            &&& n >= 2
            &&& event[n - 2] == 10
            &&& event[n - 1] == 10
            &&& 0 <= j < n - 2 ==> !(event[j] == 10 && event[j + 1] == 10)
        }),
        0 <= j < rest_of(s).len() - 1 ==> !(rest_of(s)[j] == 10 && rest_of(s)[j + 1] == 10),
{
    if 0 <= i < events_of(s).len() {
        let event = events_of(s)[i];
        law_events_are_complete(s, i);
        lemma_length_fits(event);
        if 0 <= j < event.len() - 2 {
            lemma_no_earlier_blank_line(event, j);
        }
    }
    law_the_rest_is_incomplete(s);
    if 0 <= j < rest_of(s).len() - 1 {
        lemma_no_earlier_blank_line(rest_of(s), j);
    }
}

} // verus!
