//! The data lines of a server-sent event.

use vstd::prelude::*;

use crate::text::{decode_lossy, from_chars, texts, to_chars, utf8_lossy};

verus! {

/// How many characters come before the first line feed.
pub open spec fn line_length(s: Seq<char>) -> nat
    decreases s.len(),
{
    if s.len() == 0 || s[0] == '\n' { 0 } else { 1 + line_length(s.skip(1)) }
}

/// A line without the carriage return that may come before its line feed.
pub open spec fn without_cr(line: Seq<char>) -> Seq<char> {
    if line.len() > 0 && line.last() == '\r' { line.drop_last() } else { line }
}

/// The lines of a text, without their line ends. The last line needs no line
/// end.
pub open spec fn lines(s: Seq<char>) -> Seq<Seq<char>>
    decreases s.len(),
{
    if s.len() == 0 {
        Seq::empty()
    } else if line_length(s) >= s.len() {
        seq![s]
    } else {
        let end = line_length(s) as int;
        seq![without_cr(s.take(end))] + lines(s.skip(end + 1))
    }
}

/// The line carries data.
pub open spec fn is_data(line: Seq<char>) -> bool {
    "data: "@.is_prefix_of(line)
}

/// What the data lines among `lines` carry, in order.
pub open spec fn data_in(lines: Seq<Seq<char>>) -> Seq<Seq<char>> {
    lines.filter(|line: Seq<char>| is_data(line)).map_values(
        |line: Seq<char>| line.skip("data: "@.len() as int),
    )
}

/// What the data lines of an event carry, in order.
pub open spec fn payloads_of(event: Seq<u8>) -> Seq<Seq<char>> {
    data_in(lines(utf8_lossy(event)))
}

/// A character of the Unicode property White_Space.
pub open spec fn is_white_space(c: char) -> bool {
    let u = c as u32;
    ||| 0x09 <= u <= 0x0d
    ||| u == 0x20
    ||| u == 0x85
    ||| u == 0xa0
    ||| u == 0x1680
    ||| 0x2000 <= u <= 0x200a
    ||| u == 0x2028
    ||| u == 0x2029
    ||| u == 0x202f
    ||| u == 0x205f
    ||| u == 0x3000
}

/// `s` without leading white space.
pub open spec fn trim_start(s: Seq<char>) -> Seq<char>
    decreases s.len(),
{
    if s.len() > 0 && is_white_space(s[0]) { trim_start(s.skip(1)) } else { s }
}

/// `s` without trailing white space.
pub open spec fn trim_end(s: Seq<char>) -> Seq<char>
    decreases s.len(),
{
    if s.len() > 0 && is_white_space(s.last()) { trim_end(s.drop_last()) } else { s }
}

/// The payload is the marker that ends a stream.
pub open spec fn is_done_marker(payload: Seq<char>) -> bool {
    trim_end(trim_start(payload)) == "[DONE]"@
}

/// Whether the characters from `from` up to `to` start with `prefix`.
pub(crate) fn starts_with(chars: &Vec<char>, from: usize, to: usize, prefix: &Vec<char>) -> (yes:
    bool)
    requires
        from <= to <= chars.len(),
    ensures
        yes == prefix@.is_prefix_of(chars@.subrange(from as int, to as int)),
{
    let ghost whole = chars@.subrange(from as int, to as int);
    if prefix.len() > to - from {
        return false;
    }
    let mut i: usize = 0;
    while i < prefix.len()
        invariant
            i <= prefix.len() <= to - from,
            to <= chars.len(),
            whole == chars@.subrange(from as int, to as int),
            forall|j: int| 0 <= j < i ==> prefix@[j] == whole[j],
        decreases prefix.len() - i,
    {
        if chars[from + i] != prefix[i] {
            assert(whole[i as int] != prefix@[i as int]);
            return false;
        }
        i += 1;
    }
    assert(prefix@ =~= whole.subrange(0, prefix@.len() as int));
    true
}

/// Whether a character has the Unicode property White_Space.
pub(crate) fn white_space(c: char) -> (yes: bool)
    ensures
        yes == is_white_space(c),
{
    let u: u32 = c as u32;
    (0x09 <= u && u <= 0x0d) || u == 0x20 || u == 0x85 || u == 0xa0 || u == 0x1680 || (0x2000 <= u
        && u <= 0x200a) || u == 0x2028 || u == 0x2029 || u == 0x202f || u == 0x205f || u == 0x3000
}

/// Whether the payload is the marker that ends a stream.
pub fn done_marker(payload: &str) -> (yes: bool)
    ensures
        yes == is_done_marker(payload@),
{
    let chars = to_chars(payload);
    let marker = to_chars("[DONE]");
    let mut from: usize = 0;
    assert(chars@.skip(0) =~= chars@);
    while from < chars.len() && white_space(chars[from])
        invariant
            from <= chars.len(),
            trim_start(chars@) == trim_start(chars@.skip(from as int)),
        decreases chars.len() - from,
    {
        assert(chars@.skip(from as int).skip(1) =~= chars@.skip(from + 1));
        from += 1;
    }
    let ghost started = chars@.skip(from as int);
    let mut to: usize = chars.len();
    assert(chars@.subrange(from as int, to as int) =~= started);
    while from < to && white_space(chars[to - 1])
        invariant
            from <= to <= chars.len(),
            trim_end(started) == trim_end(chars@.subrange(from as int, to as int)),
        decreases to - from,
    {
        assert(chars@.subrange(from as int, to as int).drop_last() =~= chars@.subrange(
            from as int,
            to - 1,
        ));
        to -= 1;
    }
    let ghost rest = chars@.subrange(from as int, to as int);
    assert(trim_end(trim_start(payload@)) == rest);
    let yes = to - from == marker.len() && starts_with(&chars, from, to, &marker);
    proof {
        if yes {
            assert(rest =~= marker@);
        } else if rest == marker@ {
            assert(marker@ =~= rest.subrange(0, marker@.len() as int));
        }
    }
    yes
}

proof fn lemma_line_length(s: Seq<char>, n: nat)
    requires
        n <= s.len(),
        forall|i: int| 0 <= i < n ==> s[i] != '\n',
        n == s.len() || s[n as int] == '\n',
    ensures
        line_length(s) == n,
    decreases s.len(),
{
    if n > 0 {
        assert forall|i: int| 0 <= i < n - 1 implies s.skip(1)[i] != '\n' by {
            assert(s.skip(1)[i] == s[i + 1]);
        }
        lemma_line_length(s.skip(1), (n - 1) as nat);
    }
}

/// What the data lines of an event carry, in order.
pub fn data_payloads(event: &[u8]) -> (payloads: Vec<String>)
    ensures
        texts(payloads@) == payloads_of(event@),
{
    let text = decode_lossy(event);
    let chars = to_chars(text.as_str());
    let prefix = to_chars("data: ");
    let ghost all = chars@;
    let ghost data = |line: Seq<char>| is_data(line);
    let ghost body = |line: Seq<char>| line.skip("data: "@.len() as int);
    let mut payloads: Vec<String> = Vec::new();
    let mut start: usize = 0;
    let ghost mut done: Seq<Seq<char>> = Seq::empty();
    assert(all.skip(0) =~= all);
    assert(done + lines(all) =~= lines(all));
    proof {
        reveal(Seq::filter);
    }
    assert(texts(payloads@) =~= data_in(done));
    while start < chars.len()
        invariant
            all == chars@,
            start <= chars.len(),
            prefix@ == "data: "@,
            done + lines(all.skip(start as int)) == lines(all),
            texts(payloads@) == data_in(done),
        decreases chars.len() - start,
    {
        let ghost rest = all.skip(start as int);
        let mut end: usize = start;
        while end < chars.len() && chars[end] != '\n'
            invariant
                all == chars@,
                start <= end <= chars.len(),
                forall|i: int| start <= i < end ==> all[i] != '\n',
            decreases chars.len() - end,
        {
            end += 1;
        }
        proof {
            assert forall|i: int| 0 <= i < end - start implies rest[i] != '\n' by {
                assert(rest[i] == all[start + i]);
            }
            lemma_line_length(rest, (end - start) as nat);
        }
        let terminated = end < chars.len();
        let stop: usize = if terminated && start < end && chars[end - 1] == '\r' {
            end - 1
        } else {
            end
        };
        let ghost line = all.subrange(start as int, stop as int);
        proof {
            if terminated {
                assert(rest.take(end - start) =~= all.subrange(start as int, end as int));
                assert(without_cr(rest.take(end - start)) =~= line);
                assert(rest.skip(end - start + 1) =~= all.skip(end + 1));
                assert(lines(rest) =~= seq![line] + lines(all.skip(end + 1)));
                assert(done + lines(rest) =~= done.push(line) + lines(all.skip(end + 1)));
            } else {
                assert(rest =~= line);
                assert(lines(rest) =~= seq![line]);
                assert(all.skip(end as int) =~= Seq::empty());
                assert(done + lines(rest) =~= done.push(line) + lines(all.skip(end as int)));
            }
            reveal(Seq::filter);
            assert(done.push(line).drop_last() =~= done);
        }
        if starts_with(&chars, start, stop, &prefix) {
            let payload = from_chars(&chars, start + prefix.len(), stop);
            assert(payload@ =~= line.skip("data: "@.len() as int));
            let ghost before = payloads@;
            payloads.push(payload);
            assert(texts(payloads@) =~= texts(before).push(payload@));
            assert(data_in(done.push(line)) =~= data_in(done).push(payload@));
        } else {
            assert(data_in(done.push(line)) =~= data_in(done));
        }
        proof {
            done = done.push(line);
        }
        start = if terminated { end + 1 } else { end };
    }
    assert(all.skip(start as int) =~= Seq::empty());
    assert(done =~= lines(all));
    payloads
}

/// Law: a text is taken apart at its line feeds, each line without the carriage
/// return before its line feed; the last line needs no line feed, and an empty
/// text has no lines.
pub proof fn law_lines_end_at_line_feeds(line: Seq<char>, rest: Seq<char>)
    requires
        forall|i: int| 0 <= i < line.len() ==> line[i] != '\n',
    ensures
        lines(Seq::empty()).len() == 0,
        line.len() > 0 ==> lines(line) == seq![line],
        line.len() > 0 && line.last() == '\r' ==> lines(line + seq!['\n'] + rest) == seq![
            line.drop_last(),
        ] + lines(rest),
        !(line.len() > 0 && line.last() == '\r') ==> lines(line + seq!['\n'] + rest) == seq![line]
            + lines(rest),
{
    let whole = line + seq!['\n'] + rest;
    lemma_line_length(line, line.len());
    assert forall|i: int| 0 <= i < line.len() implies whole[i] != '\n' by {
        assert(whole[i] == line[i]);
    }
    assert(whole[line.len() as int] == '\n');
    lemma_line_length(whole, line.len());
    assert(whole.take(line.len() as int) =~= line);
    assert(whole.skip(line.len() as int + 1) =~= rest);
}

proof fn lemma_data_of_concatenation(a: Seq<Seq<char>>, b: Seq<Seq<char>>)
    ensures
        data_in(a + b) == data_in(a) + data_in(b),
{
    let data = |line: Seq<char>| is_data(line);
    Seq::filter_distributes_over_add(a, b, data);
    assert(data_in(a + b) =~= data_in(a) + data_in(b));
}

/// Law: of some lines, exactly those that begin with `data: ` carry data, each
/// of them what follows that, in order.
pub proof fn law_data_lines_carry_what_follows(
    a: Seq<Seq<char>>,
    b: Seq<Seq<char>>,
    payload: Seq<char>,
    other: Seq<char>,
)
    ensures
        data_in(Seq::empty()).len() == 0,
        data_in(seq!["data: "@ + payload]) == seq![payload],
        !("data: "@.is_prefix_of(other)) ==> data_in(seq![other]).len() == 0,
        data_in(a + b) == data_in(a) + data_in(b),
{
    reveal(Seq::filter);
    lemma_data_of_concatenation(a, b);
    let data = |line: Seq<char>| is_data(line);
    let line = "data: "@ + payload;
    assert("data: "@ =~= line.subrange(0, "data: "@.len() as int));
    let one = seq![line];
    assert(one.drop_last() =~= Seq::empty());
    assert(one.drop_last().filter(data) =~= Seq::empty());
    assert(one.filter(data) =~= one);
    assert(line.skip("data: "@.len() as int) =~= payload);
    assert(data_in(one) =~= seq![payload]);
    let none = seq![other];
    assert(none.drop_last() =~= Seq::empty());
    assert(none.drop_last().filter(data) =~= Seq::empty());
    assert(Seq::<Seq<char>>::empty().filter(data) =~= Seq::empty());
}

/// Law: an event carries what its data lines carry. One whose text is a line and
/// a rest carries what the line carries, if it is a data line, and then what the
/// rest does.
pub proof fn law_events_carry_their_data_lines(
    event: Seq<u8>,
    shorter: Seq<u8>,
    line: Seq<char>,
    rest: Seq<char>,
)
    requires
        forall|i: int| 0 <= i < line.len() ==> line[i] != '\n',
        !(line.len() > 0 && line.last() == '\r'),
        utf8_lossy(event) == line + seq!['\n'] + rest,
        utf8_lossy(shorter) == rest,
    ensures
        "data: "@.is_prefix_of(line) ==> payloads_of(event) == seq![
            line.skip("data: "@.len() as int),
        ] + payloads_of(shorter),
        !("data: "@.is_prefix_of(line)) ==> payloads_of(event) == payloads_of(shorter),
        rest.len() == 0 ==> payloads_of(shorter).len() == 0,
{
    law_lines_end_at_line_feeds(line, rest);
    let payload = line.skip("data: "@.len() as int);
    law_data_lines_carry_what_follows(seq![line], lines(rest), payload, line);
    if "data: "@.is_prefix_of(line) {
        assert("data: "@ + payload =~= line);
    } else {
        assert(data_in(seq![line]) + data_in(lines(rest)) =~= data_in(lines(rest)));
    }
    if rest.len() == 0 {
        assert(rest =~= Seq::empty());
        assert(lines(rest) =~= Seq::empty());
    }
}

/// Law: the characters that count as white space.
pub proof fn law_white_space(c: char)
    ensures
        is_white_space(c) <==> (c == '\t' || c == '\n' || c == '\x0b' || c == '\x0c' || c == '\r'
            || c == ' ' || c == '\u{85}' || c == '\u{a0}' || c == '\u{1680}' || ('\u{2000}' <= c
            && c <= '\u{200a}') || c == '\u{2028}' || c == '\u{2029}' || c == '\u{202f}' || c
            == '\u{205f}' || c == '\u{3000}'),
{
}

/// All of a text is white space.
pub open spec fn all_white(s: Seq<char>) -> bool {
    forall|i: int| 0 <= i < s.len() ==> is_white_space(#[trigger] s[i])
}

proof fn lemma_trim_start(s: Seq<char>) -> (n: int)
    ensures
        0 <= n <= s.len(),
        all_white(s.take(n)),
        trim_start(s) == s.skip(n),
        n < s.len() ==> !is_white_space(s[n]),
    decreases s.len(),
{
    if s.len() > 0 && is_white_space(s[0]) {
        let k = lemma_trim_start(s.skip(1));
        assert(s.skip(1).skip(k) =~= s.skip(k + 1));
        assert forall|i: int| 0 <= i < k + 1 implies is_white_space(#[trigger] s.take(k + 1)[i]) by {
            if i > 0 {
                assert(s.skip(1).take(k)[i - 1] == s[i]);
            }
        }
        k + 1
    } else {
        assert(s.skip(0) =~= s);
        0
    }
}

proof fn lemma_trim_end(s: Seq<char>) -> (n: int)
    ensures
        0 <= n <= s.len(),
        all_white(s.skip(n)),
        trim_end(s) == s.take(n),
        n > 0 ==> !is_white_space(s[n - 1]),
    decreases s.len(),
{
    if s.len() > 0 && is_white_space(s.last()) {
        let k = lemma_trim_end(s.drop_last());
        assert(s.drop_last().take(k) =~= s.take(k));
        assert forall|i: int| 0 <= i < s.len() - k implies is_white_space(
            #[trigger] s.skip(k)[i],
        ) by {
            if i < s.len() - k - 1 {
                assert(s.drop_last().skip(k)[i] == s[k + i]);
            }
        }
        k
    } else {
        assert(s.take(s.len() as int) =~= s);
        s.len() as int
    }
}

/// Law: the marker that ends a stream is `[DONE]`, with any white space around
/// it, and nothing else is.
pub proof fn law_the_end_marker(payload: Seq<char>, before: Seq<char>, after: Seq<char>)
    ensures
        all_white(before) && all_white(after) ==> is_done_marker(before + "[DONE]"@ + after),
        is_done_marker(payload) ==> exists|a: Seq<char>, b: Seq<char>|
            #![trigger all_white(a), all_white(b)]
            all_white(a) && all_white(b) && payload == a + "[DONE]"@ + b,
{
    reveal_strlit("[DONE]");
    let marker = "[DONE]"@;
    assert(marker.len() == 6);
    assert(!is_white_space(marker[0]));
    assert(!is_white_space(marker[5]));
    if all_white(before) && all_white(after) {
        let whole = before + marker + after;
        let n = lemma_trim_start(whole);
        assert(n == before.len()) by {
            assert(whole[before.len() as int] == marker[0]);
            if n < before.len() {
                assert(whole[n] == before[n]);
            }
            if n > before.len() {
                assert(whole.take(n)[before.len() as int] == marker[0]);
            }
        }
        let rest = whole.skip(n);
        assert(rest =~= marker + after);
        let k = lemma_trim_end(rest);
        assert(k == 6) by {
            if k > 6 {
                assert(rest[k - 1] == after[k - 7]);
            }
            if k < 6 {
                assert(rest.skip(k)[5 - k] == marker[5]);
            }
        }
        assert(rest.take(6) =~= marker);
    }
    if is_done_marker(payload) {
        let n = lemma_trim_start(payload);
        let rest = payload.skip(n);
        let k = lemma_trim_end(rest);
        let a = payload.take(n);
        let b = rest.skip(k);
        assert(payload =~= a + marker + b) by {
            assert(rest.take(k) == marker);
            assert(rest =~= rest.take(k) + b);
            assert(payload =~= a + rest);
        }
        assert(all_white(a) && all_white(b));
    }
}

proof fn lemma_kept_lines_are_lines(
    all: Seq<Seq<char>>,
    keep: spec_fn(Seq<char>) -> bool,
    i: int,
)
    requires
        0 <= i < all.filter(keep).len(),
    ensures
        all.contains(all.filter(keep)[i]),
        keep(all.filter(keep)[i]),
    decreases all.len(),
{
    reveal(Seq::filter);
    if all.len() > 0 {
        let rest = all.drop_last();
        if i < rest.filter(keep).len() {
            lemma_kept_lines_are_lines(rest, keep, i);
            let k = choose|k: int| 0 <= k < rest.len() && rest[k] == rest.filter(keep)[i];
            assert(all[k] == rest[k]);
        } else {
            assert(all[all.len() - 1] == all.last());
        }
    }
}

/// Law: an event carries what the data lines of its text carry, however its
/// lines end and whether or not the last of them does.
pub proof fn law_the_text_of_an_event_is_read(event: Seq<u8>, i: int)
    ensures
        payloads_of(event) == data_in(lines(utf8_lossy(event))),
        0 <= i < payloads_of(event).len() ==> lines(utf8_lossy(event)).contains(
            "data: "@ + payloads_of(event)[i],
        ),
{
    let all = lines(utf8_lossy(event));
    let data = |line: Seq<char>| is_data(line);
    if 0 <= i < payloads_of(event).len() {
        let kept = all.filter(data);
        let line = kept[i];
        lemma_kept_lines_are_lines(all, data, i);
        assert("data: "@ + line.skip("data: "@.len() as int) =~= line);
    }
}

} // verus!
