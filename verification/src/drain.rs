//! The event-queue drain pipeline, computation side.
//!
//! The caller rotates the log file away and reads its bytes; this module
//! consumes the rotated text: split into lines, skip blank lines, parse
//! each line, apply each record to the state in file order, and return
//! the new records.  The laws at the end say that draining empty text is
//! a no-op, and that lines fed over two drain cycles take effect exactly
//! once, in order, wherever the cycle boundary falls.

use vstd::prelude::*;

use crate::event::{events_view, EventInfo, EventView, SessionView};
use crate::machine::{apply_event, process_event, push_recent, AppState};
use crate::parse::{parse_event_chars, spec_parse_event_line};
use crate::strutil::str_to_chars;

verus! {

/// The ghost state a drain acts on: the session map and the recent
/// history.
pub struct DrainState {
    pub sessions: Map<Seq<char>, SessionView>,
    pub recent: Seq<EventView>,
}

/// The ghost state of an [`AppState`].
pub open spec fn state_view(s: AppState) -> DrainState {
    DrainState { sessions: s.sessions@, recent: events_view(s.recent_events@) }
}

// ---------------------------------------------------------------------------
// Line splitting
// ---------------------------------------------------------------------------

/// The first position at or after `i` that holds a newline, or the end.
pub open spec fn first_nl(s: Seq<char>, i: int) -> int
    decreases s.len() - i when 0 <= i <= s.len()
{
    if i < s.len() && s[i] != '\n' {
        first_nl(s, i + 1)
    } else {
        i
    }
}

pub proof fn lemma_first_nl_bounds(s: Seq<char>, i: int)
    requires
        0 <= i <= s.len(),
    ensures
        i <= first_nl(s, i) <= s.len(),
        first_nl(s, i) < s.len() ==> s[first_nl(s, i)] == '\n',
    decreases s.len() - i,
{
    if i < s.len() && s[i] != '\n' {
        lemma_first_nl_bounds(s, i + 1);
    }
}

/// The lines of `s` from position `i` on, split at newlines; the
/// separators are consumed, and a trailing newline yields a final empty
/// line.
pub open spec fn split_from(s: Seq<char>, i: int) -> Seq<Seq<char>>
    decreases s.len() - i when 0 <= i <= s.len()
{
    let k = first_nl(s, i);
    proof {
        lemma_first_nl_bounds(s, i);
    }
    if k >= s.len() {
        seq![s.subrange(i, s.len() as int)]
    } else {
        seq![s.subrange(i, k)] + split_from(s, k + 1)
    }
}

/// The lines of `s`, split at newlines.
pub open spec fn split_lines(s: Seq<char>) -> Seq<Seq<char>> {
    split_from(s, 0)
}

/// A line with one trailing carriage return removed.
pub open spec fn strip_cr(l: Seq<char>) -> Seq<char> {
    if l.len() > 0 && l.last() == '\r' {
        l.drop_last()
    } else {
        l
    }
}

// ---------------------------------------------------------------------------
// The drain fold
// ---------------------------------------------------------------------------

/// The effect of one line on the state and the drained-record list:
/// blank and unparsable lines do nothing, a parsed record steps the state
/// machine and joins the history and the list.
pub open spec fn drain_line(st: DrainState, out: Seq<EventView>, line: Seq<char>) -> (
    DrainState,
    Seq<EventView>,
) {
    let l = strip_cr(line);
    if l.len() == 0 {
        (st, out)
    } else {
        match spec_parse_event_line(l) {
            Some(e) => (
                DrainState {
                    sessions: apply_event(st.sessions, e),
                    recent: push_recent(st.recent, e),
                },
                out.push(e),
            ),
            None => (st, out),
        }
    }
}

/// The effect of a sequence of lines, in order.
pub open spec fn drain_lines(st: DrainState, out: Seq<EventView>, lines: Seq<Seq<char>>) -> (
    DrainState,
    Seq<EventView>,
)
    decreases lines.len(),
{
    if lines.len() == 0 {
        (st, out)
    } else {
        let stepped = drain_line(st, out, lines.first());
        drain_lines(stepped.0, stepped.1, lines.drop_first())
    }
}

/// The effect of one whole drain cycle on rotated text.
pub open spec fn drain_text_spec(st: DrainState, text: Seq<char>) -> (DrainState, Seq<EventView>) {
    drain_lines(st, Seq::<EventView>::empty(), split_lines(text))
}

// ---------------------------------------------------------------------------
// The executable drain
// ---------------------------------------------------------------------------

/// Finds the next newline at or after `i`.
pub fn nl_end_pub(s: &[char], i: usize) -> (k: usize)
    requires
        i <= s@.len(),
    ensures
        k == first_nl(s@, i as int),
        i <= k <= s@.len(),
        k < s@.len() ==> s@[k as int] == '\n',
{
    proof {
        lemma_first_nl_bounds(s@, i as int);
    }
    let n = s.len();
    let mut k = i;
    while k < n && s[k] != '\n'
        invariant
            i <= k <= n == s@.len(),
            first_nl(s@, i as int) == first_nl(s@, k as int),
        decreases n - k,
    {
        k = k + 1;
    }
    k
}

/// Consumes one cycle's rotated text: applies every well-formed line to
/// the state in file order, skipping blank lines and dropping lines that
/// do not parse, and returns the records that were applied, in order.
pub fn drain_text(state: &mut AppState, text: &str) -> (new_events: Vec<EventInfo>)
    requires
        old(state).sessions.wf(),
    ensures
        final(state).sessions.wf(),
        (state_view(*final(state)), events_view(new_events@)) == drain_text_spec(
            state_view(*old(state)),
            text@,
        ),
        final(state).last_file_pos == old(state).last_file_pos,
{
    let ghost st0 = state_view(*old(state));
    let ghost target = drain_text_spec(st0, text@);
    let chars = str_to_chars(text);
    let ghost full = chars@;
    let n = chars.len();
    let mut new_events: Vec<EventInfo> = Vec::new();
    let mut p: usize = 0;
    let mut done = false;
    proof {
        assert(events_view(new_events@) =~= Seq::<EventView>::empty());
        assert(state_view(*state) == st0);
        assert(drain_lines(st0, Seq::<EventView>::empty(), split_lines(full)) == target);
    }
    while !done
        invariant
            state.sessions.wf(),
            state.last_file_pos == old(state).last_file_pos,
            0 <= p <= n == full.len(),
            full == chars@,
            !done ==> target == drain_lines(
                state_view(*state),
                events_view(new_events@),
                split_from(full, p as int),
            ),
            done ==> target == (state_view(*state), events_view(new_events@)),
        decreases (if done { 0int } else { 1int }), n - p,
    {
        let ghost st_here = state_view(*state);
        let ghost out_here = events_view(new_events@);
        let k = nl_end_pub(chars.as_slice(), p);
        let mut line = crate::jsonl::copy_range(chars.as_slice(), p, k);
        // strip one trailing carriage return, as a line reader would
        let line_len = line.len();
        if line_len > 0 && line[line_len - 1] == '\r' {
            line.pop();
        }
        proof {
            assert(line@ == strip_cr(full.subrange(p as int, k as int)));
        }
        if line.len() > 0 {
            match parse_event_chars(line.as_slice()) {
                Some(event) => {
                    let recorded = event.clone();
                    process_event(state, event);
                    new_events.push(recorded);
                    proof {
                        assert(events_view(new_events@) =~= out_here.push(recorded@));
                    }
                },
                None => {},
            }
        }
        proof {
            assert((state_view(*state), events_view(new_events@)) == drain_line(
                st_here,
                out_here,
                full.subrange(p as int, k as int),
            ));
        }
        if k < n {
            proof {
                let lines = split_from(full, p as int);
                assert(lines == seq![full.subrange(p as int, k as int)] + split_from(full, k + 1));
                assert(lines.len() > 0);
                assert(lines.first() == full.subrange(p as int, k as int));
                assert(lines.drop_first() =~= split_from(full, k + 1));
                assert(drain_lines(st_here, out_here, lines) == drain_lines(
                    state_view(*state),
                    events_view(new_events@),
                    split_from(full, k + 1),
                ));
            }
            p = k + 1;
        } else {
            proof {
                let lines = split_from(full, p as int);
                assert(lines == seq![full.subrange(p as int, n as int)]);
                assert(lines.len() == 1);
                assert(lines.first() == full.subrange(p as int, k as int));
                assert(lines.drop_first() =~= Seq::<Seq<char>>::empty());
                let stepped = drain_line(st_here, out_here, lines.first());
                assert(drain_lines(st_here, out_here, lines) == drain_lines(
                    stepped.0,
                    stepped.1,
                    lines.drop_first(),
                ));
                assert(drain_lines(stepped.0, stepped.1, lines.drop_first()) == (
                    stepped.0,
                    stepped.1,
                ));
                assert(stepped == (state_view(*state), events_view(new_events@)));
            }
            done = true;
        }
    }
    new_events
}

/// Where the legacy tail reader resumes, and whether there is anything
/// to read: a file shorter than the remembered offset was truncated and
/// is reread from the start; a longer one is read from the offset; an
/// unchanged one yields nothing.
pub fn tail_read_start(last_pos: u64, file_size: u64) -> (r: Option<u64>)
    ensures
        ({
            let start: u64 = if file_size < last_pos {
                0
            } else {
                last_pos
            };
            if file_size > start {
                r == Some(start)
            } else {
                r is None
            }
        }),
{
    let start: u64 = if file_size < last_pos {
        0
    } else {
        last_pos
    };
    if file_size > start {
        Some(start)
    } else {
        None
    }
}

// ---------------------------------------------------------------------------
// Laws of the drain pipeline.
// ---------------------------------------------------------------------------

/// Draining empty text is a no-op: the state is unchanged and no record
/// comes out.  (An absent log file is never read at all.)
pub proof fn lemma_drain_empty(st: DrainState)
    ensures
        drain_text_spec(st, Seq::<char>::empty()) == (st, Seq::<EventView>::empty()),
{
    let e = Seq::<char>::empty();
    let lines = split_lines(e);
    assert(first_nl(e, 0) == 0);
    assert(lines == seq![e.subrange(0, 0)]);
    assert(lines.first().len() == 0);
    assert(strip_cr(lines.first()).len() == 0);
    let out0 = Seq::<EventView>::empty();
    let stepped = drain_line(st, out0, lines.first());
    assert(stepped == (st, out0));
    assert(lines.drop_first() =~= Seq::<Seq<char>>::empty());
    assert(drain_lines(stepped.0, stepped.1, lines.drop_first()) == (st, out0));
}

proof fn lemma_out_shift(st: DrainState, out: Seq<EventView>, lines: Seq<Seq<char>>)
    ensures
        drain_lines(st, out, lines).0 == drain_lines(st, Seq::<EventView>::empty(), lines).0,
        drain_lines(st, out, lines).1 == out + drain_lines(
            st,
            Seq::<EventView>::empty(),
            lines,
        ).1,
    decreases lines.len(),
{
    let none = Seq::<EventView>::empty();
    if lines.len() == 0 {
        assert(out + none =~= out);
    } else {
        let l = lines.first();
        let rest = lines.drop_first();
        let s1 = drain_line(st, out, l);
        let s2 = drain_line(st, none, l);
        assert(s1.0 == s2.0);
        lemma_out_shift(s1.0, s1.1, rest);
        lemma_out_shift(s2.0, s2.1, rest);
        let tail = drain_lines(s1.0, none, rest).1;
        if strip_cr(l).len() == 0 {
            assert(s1.1 == out && s2.1 == none);
        } else {
            match spec_parse_event_line(strip_cr(l)) {
                Some(ev) => {
                    assert(s1.1 == out.push(ev) && s2.1 == none.push(ev));
                    assert(out.push(ev) + tail =~= out + (none.push(ev) + tail));
                },
                None => {
                    assert(s1.1 == out && s2.1 == none);
                },
            }
        }
        assert(drain_lines(st, out, lines).1 == out + drain_lines(st, none, lines).1);
    }
}

proof fn lemma_drain_lines_append(
    st: DrainState,
    out: Seq<EventView>,
    la: Seq<Seq<char>>,
    lb: Seq<Seq<char>>,
)
    ensures
        drain_lines(st, out, la + lb) == drain_lines(
            drain_lines(st, out, la).0,
            drain_lines(st, out, la).1,
            lb,
        ),
    decreases la.len(),
{
    if la.len() == 0 {
        assert(la + lb =~= lb);
    } else {
        let both = la + lb;
        assert(both.len() > 0);
        assert(both.first() == la.first());
        assert(both.drop_first() =~= la.drop_first() + lb);
        let stepped = drain_line(st, out, la.first());
        lemma_drain_lines_append(stepped.0, stepped.1, la.drop_first(), lb);
    }
}

proof fn lemma_first_nl_append(a: Seq<char>, b: Seq<char>, i: int)
    requires
        0 <= i <= a.len(),
        first_nl(a, i) < a.len(),
    ensures
        first_nl(a + b, i) == first_nl(a, i),
    decreases a.len() - i,
{
    assert((a + b)[i as int] == a[i as int]) by {
        if i < a.len() {
        }
    }
    if i < a.len() && a[i] != '\n' {
        lemma_first_nl_append(a, b, i + 1);
    }
}

proof fn lemma_first_nl_shift(a: Seq<char>, b: Seq<char>, j: int)
    requires
        0 <= j <= b.len(),
    ensures
        first_nl(a + b, a.len() + j) == a.len() + first_nl(b, j),
    decreases b.len() - j,
{
    if j < b.len() {
        assert((a + b)[a.len() + j] == b[j]);
        if b[j] != '\n' {
            lemma_first_nl_shift(a, b, j + 1);
        }
    }
}

proof fn lemma_split_shift(a: Seq<char>, b: Seq<char>, j: int)
    requires
        0 <= j <= b.len(),
    ensures
        split_from(a + b, a.len() + j) == split_from(b, j),
    decreases b.len() - j,
{
    lemma_first_nl_shift(a, b, j);
    lemma_first_nl_bounds(b, j);
    let k = first_nl(b, j);
    if k >= b.len() {
        assert((a + b).subrange(a.len() + j, (a + b).len() as int) =~= b.subrange(
            j,
            b.len() as int,
        ));
        assert(split_from(a + b, a.len() + j) == seq![
            (a + b).subrange(a.len() + j, (a + b).len() as int),
        ]);
    } else {
        lemma_split_shift(a, b, k + 1);
        assert((a + b).subrange(a.len() + j, a.len() + k) =~= b.subrange(j, k));
        assert(split_from(a + b, a.len() + j) == seq![
            (a + b).subrange(a.len() + j, a.len() + k),
        ] + split_from(a + b, a.len() + (k + 1)));
    }
}

proof fn lemma_first_nl_min(a: Seq<char>, i: int, j: int)
    requires
        0 <= i <= j < a.len(),
        a[j] == '\n',
    ensures
        first_nl(a, i) <= j,
    decreases j - i,
{
    if i < j && a[i] != '\n' {
        lemma_first_nl_min(a, i + 1, j);
    }
}

proof fn lemma_split_from_nonempty(s: Seq<char>, i: int)
    requires
        0 <= i <= s.len(),
    ensures
        split_from(s, i).len() >= 1,
{
    lemma_first_nl_bounds(s, i);
}

proof fn lemma_split_concat_from(a: Seq<char>, b: Seq<char>, i: int)
    requires
        0 <= i < a.len(),
        a.last() == '\n',
    ensures
        split_from(a + b, i) == split_from(a, i).drop_last() + split_from(b, 0),
    decreases a.len() - i,
{
    lemma_first_nl_min(a, i, a.len() - 1);
    lemma_first_nl_bounds(a, i);
    let k = first_nl(a, i);
    assert(k < a.len());
    lemma_first_nl_append(a, b, i);
    assert((a + b).subrange(i, k) =~= a.subrange(i, k));
    assert(split_from(a + b, i) == seq![(a + b).subrange(i, k)] + split_from(a + b, k + 1));
    assert(split_from(a, i) == seq![a.subrange(i, k)] + split_from(a, k + 1));
    if k + 1 < a.len() {
        lemma_split_concat_from(a, b, k + 1);
        lemma_split_from_nonempty(a, k + 1);
        assert((seq![a.subrange(i, k)] + split_from(a, k + 1)).drop_last() =~= seq![
            a.subrange(i, k),
        ] + split_from(a, k + 1).drop_last());
        assert(split_from(a + b, i) =~= split_from(a, i).drop_last() + split_from(b, 0));
    } else {
        assert(k + 1 == a.len());
        lemma_split_shift(a, b, 0);
        assert(a + b =~= a + b);
        assert(split_from(a + b, k + 1) == split_from(b, 0)) by {
            assert(k + 1 == a.len() + 0);
        }
        assert(first_nl(a, a.len() as int) == a.len());
        assert(split_from(a, k + 1) == seq![a.subrange(a.len() as int, a.len() as int)]);
        assert(split_from(a, i).drop_last() =~= seq![a.subrange(i, k)]);
        assert(split_from(a + b, i) =~= split_from(a, i).drop_last() + split_from(b, 0));
    }
}

/// Lines fed across two drain cycles take effect exactly once, in file
/// order, wherever the boundary between the cycles falls: draining text
/// `a` and then text `b` leaves the same state as draining `a + b` in
/// one cycle, and yields the same records in the same order.  `a` is
/// empty or ends at a line boundary, as an append-only log of whole
/// lines does.
pub proof fn lemma_drain_exactly_once(st: DrainState, a: Seq<char>, b: Seq<char>)
    requires
        a.len() == 0 || a.last() == '\n',
    ensures
        ({
            let once = drain_text_spec(st, a + b);
            let first = drain_text_spec(st, a);
            let second = drain_text_spec(first.0, b);
            once == (second.0, first.1 + second.1)
        }),
{
    let none = Seq::<EventView>::empty();
    let first = drain_text_spec(st, a);
    let second = drain_text_spec(first.0, b);
    if a.len() == 0 {
        assert(a + b =~= b);
        assert(a =~= Seq::<char>::empty());
        lemma_drain_empty(st);
        assert(first == (st, none));
        assert(first.1 + second.1 =~= second.1);
    } else {
        lemma_split_concat_from(a, b, 0);
        // split(a) ends with one empty line, which drains to nothing
        let la = split_lines(a);
        lemma_split_from_nonempty(a, 0);
        assert(la == la.drop_last() + seq![a.subrange(a.len() as int, a.len() as int)]) by {
            lemma_split_concat_from(a, Seq::<char>::empty(), 0);
            assert(a + Seq::<char>::empty() =~= a);
            assert(first_nl(Seq::<char>::empty(), 0) == 0);
            assert(split_from(Seq::<char>::empty(), 0) == seq![
                Seq::<char>::empty().subrange(0, 0),
            ]);
            assert(Seq::<char>::empty().subrange(0, 0) =~= a.subrange(
                a.len() as int,
                a.len() as int,
            ));
            assert(la.drop_last() + split_from(Seq::<char>::empty(), 0) =~= la.drop_last() + seq![
                a.subrange(a.len() as int, a.len() as int),
            ]);
        }
        let blank = seq![a.subrange(a.len() as int, a.len() as int)];
        lemma_drain_lines_append(st, none, la.drop_last(), blank);
        let head = drain_lines(st, none, la.drop_last());
        assert(strip_cr(blank.first()).len() == 0);
        assert(drain_lines(head.0, head.1, blank) == drain_lines(
            drain_line(head.0, head.1, blank.first()).0,
            drain_line(head.0, head.1, blank.first()).1,
            blank.drop_first(),
        ));
        assert(blank.drop_first() =~= Seq::<Seq<char>>::empty());
        assert(drain_lines(head.0, head.1, blank) == head);
        assert(first == head);
        // one combined cycle = head cycle then b's lines
        lemma_drain_lines_append(st, none, la.drop_last(), split_lines(b));
        assert(split_lines(a + b) == la.drop_last() + split_lines(b));
        assert(drain_text_spec(st, a + b) == drain_lines(head.0, head.1, split_lines(b)));
        lemma_out_shift(head.0, head.1, split_lines(b));
        assert(drain_text_spec(st, a + b) == (second.0, first.1 + second.1));
    }
}

} // verus!
