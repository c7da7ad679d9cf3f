//! What `git` says while it works: progress lines for a bar, complaints for an
//! error message.

use vstd::prelude::*;

use crate::text;

verus! {

/// One parsed git progress line: `Phase:  N% (pos/len), extra...`.
#[derive(Debug, PartialEq, Eq)]
pub struct GitProgress {
    /// What is being done.
    pub phase: String,
    /// How much of it is done.
    pub pos: u64,
    /// How much there is.
    pub len: u64,
    /// Everything behind the phase.
    pub detail: String,
}

impl Clone for GitProgress {
    fn clone(&self) -> (copy: GitProgress)
        ensures
            copy == *self,
    {
        GitProgress {
            phase: self.phase.clone(),
            pos: self.pos,
            len: self.len,
            detail: self.detail.clone(),
        }
    }
}

/// A [`GitProgress`] by value.
pub struct ProgressView {
    /// What is being done.
    pub phase: Seq<char>,
    /// How much of it is done.
    pub pos: u64,
    /// How much there is.
    pub len: u64,
    /// Everything behind the phase.
    pub detail: Seq<char>,
}

impl View for GitProgress {
    type V = ProgressView;

    open spec fn view(&self) -> ProgressView {
        ProgressView {
            phase: self.phase@,
            pos: self.pos,
            len: self.len,
            detail: self.detail@,
        }
    }
}

/// A line without what marks it as coming from the remote.
pub open spec fn from_remote(line: Seq<char>) -> Seq<char> {
    let trimmed = text::trim_start(line);
    if text::starts(trimmed, "remote: "@) {
        trimmed.skip("remote: "@.len() as int)
    } else {
        line
    }
}

/// What a pair of counts `(pos/len)` says, if the text has one: `None` when
/// there are no parentheses in that order, and `Some(None)` when there are but
/// they hold no two numbers.
pub open spec fn counts(text: Seq<char>) -> Option<Option<(u64, u64)>> {
    let open = text::find(text, '(');
    let close = text::find(text, ')');
    if 0 <= open < close < text.len() {
        let inner = text.subrange(open + 1, close);
        let bar = text::find(inner, '/');
        if 0 <= bar < inner.len() {
            match (
                text::decimal(text::trim(inner.take(bar))),
                text::decimal(text::trim(inner.skip(bar + 1))),
            ) {
                (Some(pos), Some(len)) => Some(Some((pos, len))),
                _ => Some(None),
            }
        } else {
            Some(None)
        }
    } else {
        None
    }
}

/// What a progress line says: a phase, a colon, a percentage, and the counts
/// behind it or else the percentage itself.
pub open spec fn progress_of(line: Seq<char>) -> Option<ProgressView> {
    let said = from_remote(line);
    let colon = text::find(said, ':');
    if 0 <= colon < said.len() {
        let detail = text::trim_start(said.skip(colon + 1));
        let percent = text::find(detail, '%');
        if 0 <= percent < detail.len() {
            match text::decimal(text::trim(detail.take(percent))) {
                Some(done) => match counts(detail) {
                    None => Some(
                        ProgressView { phase: said.take(colon), pos: done, len: 100, detail },
                    ),
                    Some(Some((pos, len))) => Some(
                        ProgressView { phase: said.take(colon), pos, len, detail },
                    ),
                    Some(None) => None,
                },
                None => None,
            }
        } else {
            None
        }
    } else {
        None
    }
}

fn number_in(chars: &Vec<char>, from: usize, to: usize) -> (value: Option<u64>)
    requires
        from <= to <= chars.len(),
    ensures
        value == text::decimal(text::trim(chars@.subrange(from as int, to as int))),
{
    let start = text::skip_white(chars, from, to);
    let end = text::drop_white(chars, start, to);
    text::parse_u64(chars, start, end)
}

fn counts_in(chars: &Vec<char>, from: usize) -> (found: Option<Option<(u64, u64)>>)
    requires
        from <= chars.len(),
    ensures
        found == counts(chars@.subrange(from as int, chars@.len() as int)),
{
    let to: usize = chars.len();
    let ghost detail = chars@.subrange(from as int, to as int);
    proof {
        text::lemma_find(detail, '(');
        text::lemma_find(detail, ')');
    }
    let open = text::seek(chars, from, to, '(');
    let close = text::seek(chars, from, to, ')');
    if close == to || open >= close {
        return None;
    }
    let ghost inner = detail.subrange(open - from + 1, close - from);
    assert(chars@.subrange(open + 1, close as int) =~= inner);
    let bar = text::seek(chars, open + 1, close, '/');
    if bar == close {
        return Some(None);
    }
    assert(chars@.subrange(open + 1, bar as int) =~= inner.take(bar - open - 1));
    assert(chars@.subrange(bar + 1, close as int) =~= inner.skip(bar - open));
    let pos = number_in(chars, open + 1, bar);
    let len = number_in(chars, bar + 1, close);
    match (pos, len) {
        (Some(pos), Some(len)) => Some(Some((pos, len))),
        _ => Some(None),
    }
}

/// Parses a git `--progress` line (optionally `remote:`-prefixed); `None` for
/// plain informational lines.
pub fn parse_progress_line(line: &str) -> (progress: Option<GitProgress>)
    ensures
        progress is Some == progress_of(line@) is Some,
        progress is Some ==> progress->0@ == progress_of(line@)->0,
{
    let all = text::chars_of(line);
    assert(all@.subrange(0, all@.len() as int) =~= line@);
    let trimmed = text::cut(&all, text::skip_white(&all, 0, all.len()), all.len());
    let said = match text::strip_prefix(trimmed.as_str(), "remote: ") {
        Some(rest) => rest,
        None => line.to_owned(),
    };
    assert(said@ == from_remote(line@));
    let chars = text::chars_of(said.as_str());
    let to: usize = chars.len();
    assert(chars@.subrange(0, to as int) =~= said@);
    let colon = text::seek(&chars, 0, to, ':');
    if colon == to {
        return None;
    }
    assert(chars@.subrange(colon + 1, to as int) =~= said@.skip(colon + 1));
    let start = text::skip_white(&chars, colon + 1, to);
    let ghost detail = text::trim_start(said@.skip(colon + 1));
    assert(chars@.subrange(start as int, to as int) == detail);
    let percent = text::seek(&chars, start, to, '%');
    if percent == to {
        return None;
    }
    assert(chars@.subrange(start as int, percent as int) =~= detail.take(percent - start));
    let done = match number_in(&chars, start, percent) {
        Some(done) => done,
        None => return None,
    };
    let counted: (u64, u64) = match counts_in(&chars, start) {
        None => (done, 100),
        Some(Some(pair)) => pair,
        Some(None) => return None,
    };
    assert(said@.take(colon as int) =~= chars@.subrange(0, colon as int));
    Some(
        GitProgress {
            phase: text::cut(&chars, 0, colon),
            pos: counted.0,
            len: counted.1,
            detail: text::cut(&chars, start, to),
        },
    )
}

/// The part of a detail from its first comma on.
pub open spec fn rate_part(detail: Seq<char>) -> Seq<char> {
    detail.skip(text::find(detail, ','))
}

/// The part of a git progress detail after the percentage, e.g.
/// `", 12.30 MiB | 5.67 MiB/s"` (rate info for the bar message).
pub fn tail_after_percent(detail: &str) -> (tail: String)
    ensures
        tail@ == rate_part(detail@),
{
    let chars = text::chars_of(detail);
    assert(chars@.subrange(0, chars@.len() as int) =~= detail@);
    let comma = text::seek(&chars, 0, chars.len(), ',');
    let tail = text::cut(&chars, comma, chars.len());
    assert(tail@ =~= rate_part(detail@));
    tail
}

/// One change to the progress bar.
#[derive(Debug, PartialEq, Eq)]
pub enum BarUpdate {
    /// Shows how far a phase has come.
    Progress {
        /// Whether the bar has to be drawn as a bar first.
        restyle: bool,
        /// How much there is.
        len: u64,
        /// How much of it is done.
        pos: u64,
        /// What is said beside the bar.
        message: String,
    },
    /// Shows a plain line.
    Message {
        /// Whether the bar has to be drawn as a spinner first, at zero.
        restyle: bool,
        /// The line.
        message: String,
    },
}

/// A [`BarUpdate`] by value.
pub enum BarView {
    /// See [`BarUpdate::Progress`].
    Progress(bool, u64, u64, Seq<char>),
    /// See [`BarUpdate::Message`].
    Message(bool, Seq<char>),
}

impl View for BarUpdate {
    type V = BarView;

    open spec fn view(&self) -> BarView {
        match *self {
            BarUpdate::Progress { restyle, len, pos, message } => BarView::Progress(
                restyle,
                len,
                pos,
                message@,
            ),
            BarUpdate::Message { restyle, message } => BarView::Message(restyle, message@),
        }
    }
}

/// What one line does to the bar.
pub open spec fn update_for(bar_mode: bool, line: Seq<char>) -> BarView {
    match progress_of(line) {
        Some(p) => BarView::Progress(
            !bar_mode,
            p.len,
            if p.pos <= p.len {
                p.pos
            } else {
                p.len
            },
            p.phase + rate_part(p.detail),
        ),
        None => BarView::Message(bar_mode, line),
    }
}

/// Mirrors one line onto the bar: progress as a bar, anything else as a
/// message.
pub fn show_line(bar_mode: bool, line: &str) -> (update: BarUpdate)
    ensures
        update@ == update_for(bar_mode, line@),
{
    match parse_progress_line(line) {
        Some(p) => BarUpdate::Progress {
            restyle: !bar_mode,
            len: p.len,
            pos: if p.pos <= p.len {
                p.pos
            } else {
                p.len
            },
            message: p.phase.concat(tail_after_percent(p.detail.as_str()).as_str()),
        },
        None => BarUpdate::Message { restyle: bar_mode, message: line.to_owned() },
    }
}

/// What has been relayed so far.
pub struct RelayView {
    /// Bytes of a line that has not ended yet.
    pub pending: Seq<u8>,
    /// Whether the bar is drawn as a bar.
    pub bar_mode: bool,
    /// The lines that were not empty.
    pub lines: Seq<Seq<char>>,
}

/// Whether a byte ends a line: a carriage return or a line feed.
pub open spec fn ends_line(byte: u8) -> bool {
    byte == 13 || byte == 10
}

/// What one complete line does: it is noted and shown, unless it is empty.
pub open spec fn take_line(view: RelayView, line: Seq<u8>) -> (RelayView, Seq<BarView>) {
    let said = text::trim_end(text::lossy_text(line));
    if said.len() == 0 {
        (RelayView { pending: Seq::empty(), ..view }, Seq::empty())
    } else {
        (
            RelayView {
                pending: Seq::empty(),
                bar_mode: progress_of(said) is Some,
                lines: view.lines.push(said),
            },
            seq![update_for(view.bar_mode, said)],
        )
    }
}

/// What one byte does: it goes to the pending line, or ends it.
pub open spec fn take_byte(view: RelayView, byte: u8) -> (RelayView, Seq<BarView>) {
    if ends_line(byte) {
        take_line(view, view.pending)
    } else {
        (RelayView { pending: view.pending.push(byte), ..view }, Seq::empty())
    }
}

/// What a chunk of bytes does, byte by byte.
pub open spec fn take_chunk(view: RelayView, chunk: Seq<u8>) -> (RelayView, Seq<BarView>)
    decreases chunk.len(),
{
    if chunk.len() == 0 {
        (view, Seq::empty())
    } else {
        let before = take_chunk(view, chunk.drop_last());
        let last = take_byte(before.0, chunk.last());
        (last.0, before.1 + last.1)
    }
}

/// **How the output is cut into chunks does not matter**: two chunks one after
/// the other do what they do as one.
pub proof fn chunks_do_not_matter(view: RelayView, a: Seq<u8>, b: Seq<u8>)
    ensures
        take_chunk(view, a + b).0 == take_chunk(take_chunk(view, a).0, b).0,
        take_chunk(view, a + b).1 == take_chunk(view, a).1 + take_chunk(
            take_chunk(view, a).0,
            b,
        ).1,
    decreases b.len(),
{
    if b.len() == 0 {
        assert(a + b =~= a);
        assert(take_chunk(view, a).1 + Seq::<BarView>::empty() =~= take_chunk(view, a).1);
    } else {
        assert((a + b).drop_last() =~= a + b.drop_last());
        chunks_do_not_matter(view, a, b.drop_last());
        let first = take_chunk(view, a);
        let most = take_chunk(first.0, b.drop_last());
        let last = take_byte(most.0, b.last());
        assert(first.1 + most.1 + last.1 =~= first.1 + (most.1 + last.1));
    }
}

/// Relays what `git` says onto a progress bar, and keeps it for the case that
/// `git` fails.
#[derive(Debug)]
pub struct Relay {
    pending: Vec<u8>,
    bar_mode: bool,
    lines: Vec<String>,
}

impl View for Relay {
    type V = RelayView;

    closed spec fn view(&self) -> RelayView {
        RelayView {
            pending: self.pending@,
            bar_mode: self.bar_mode,
            lines: text::views(self.lines@),
        }
    }
}

/// The views of a list of updates.
pub open spec fn bar_views(list: Seq<BarUpdate>) -> Seq<BarView> {
    list.map_values(|u: BarUpdate| u@)
}

/// The last `n` of a row, or all of it when it is shorter.
pub open spec fn last_of<T>(row: Seq<T>, n: int) -> Seq<T> {
    if row.len() <= n {
        row
    } else {
        row.skip(row.len() - n)
    }
}

/// How many lines of a complaint are kept.
pub const TAIL_LINES: usize = 5;

/// How many characters of a complaint are kept.
pub const TAIL_CHARS: usize = 300;

impl Relay {
    /// Nothing has been said yet.
    pub fn new() -> (relay: Relay)
        ensures
            relay@ == (RelayView {
                pending: Seq::empty(),
                bar_mode: false,
                lines: Seq::empty(),
            }),
    {
        let relay = Relay { pending: Vec::new(), bar_mode: false, lines: Vec::new() };
        assert(text::views(relay.lines@) =~= Seq::<Seq<char>>::empty());
        assert(relay.pending@ =~= Seq::<u8>::empty());
        relay
    }

    /// Takes a chunk of output and returns what it does to the bar.
    pub fn feed(&mut self, chunk: &[u8]) -> (updates: Vec<BarUpdate>)
        ensures
            final(self)@ == take_chunk(old(self)@, chunk@).0,
            bar_views(updates@) == take_chunk(old(self)@, chunk@).1,
    {
        let mut updates: Vec<BarUpdate> = Vec::new();
        let ghost start = self@;
        let mut i: usize = 0;
        assert(chunk@.take(0) =~= Seq::<u8>::empty());
        assert(bar_views(updates@) =~= Seq::<BarView>::empty());
        while i < chunk.len()
            invariant
                i <= chunk.len(),
                self@ == take_chunk(start, chunk@.take(i as int)).0,
                bar_views(updates@) == take_chunk(start, chunk@.take(i as int)).1,
            decreases chunk.len() - i,
        {
            let ghost before = self@;
            let ghost shown = bar_views(updates@);
            assert(chunk@.take(i + 1).drop_last() =~= chunk@.take(i as int));
            let byte: u8 = chunk[i];
            if byte == 13 || byte == 10 {
                let whole = text::from_utf8_lossy(self.pending.as_slice());
                let chars = text::chars_of(whole.as_str());
                assert(chars@.subrange(0, chars@.len() as int) =~= whole@);
                let end = text::drop_white(&chars, 0, chars.len());
                let line = text::cut(&chars, 0, end);
                self.pending = Vec::new();
                assert(self.pending@ =~= Seq::<u8>::empty());
                if end > 0 {
                    let update = show_line(self.bar_mode, line.as_str());
                    self.bar_mode = match &update {
                        BarUpdate::Progress { .. } => true,
                        BarUpdate::Message { .. } => false,
                    };
                    let ghost held = text::views(self.lines@);
                    self.lines.push(line);
                    assert(text::views(self.lines@) =~= held.push(line@));
                    updates.push(update);
                    assert(bar_views(updates@) =~= shown + seq![update@]);
                } else {
                    assert(shown + Seq::<BarView>::empty() =~= shown);
                }
            } else {
                self.pending.push(byte);
                assert(shown + Seq::<BarView>::empty() =~= shown);
            }
            i = i + 1;
        }
        assert(chunk@.take(i as int) =~= chunk@);
        updates
    }

    /// Notes the line that the output broke off in.
    pub fn finish(&mut self)
        ensures
            final(self)@ == (RelayView {
                lines: if old(self)@.pending.len() == 0 {
                    old(self)@.lines
                } else {
                    old(self)@.lines.push(text::trim_end(text::lossy_text(old(self)@.pending)))
                },
                ..old(self)@
            }),
    {
        if self.pending.len() > 0 {
            let whole = text::from_utf8_lossy(self.pending.as_slice());
            let chars = text::chars_of(whole.as_str());
            assert(chars@.subrange(0, chars@.len() as int) =~= whole@);
            let end = text::drop_white(&chars, 0, chars.len());
            let line = text::cut(&chars, 0, end);
            let ghost held = text::views(self.lines@);
            self.lines.push(line);
            assert(text::views(self.lines@) =~= held.push(line@));
        }
    }

    /// The end of what was said: the last lines, one below the other.
    pub fn tail(&self) -> (tail: String)
        ensures
            tail@ == text::joined(last_of(self@.lines, TAIL_LINES as int), "\n"@),
    {
        let mut kept: Vec<String> = Vec::new();
        let start: usize = if self.lines.len() > TAIL_LINES {
            self.lines.len() - TAIL_LINES
        } else {
            0
        };
        let mut i: usize = start;
        while i < self.lines.len()
            invariant
                start <= i <= self.lines.len(),
                kept.len() == i - start,
                forall|j: int| 0 <= j < kept.len() ==> #[trigger] kept@[j]@ == self.lines@[start + j]@,
            decreases self.lines.len() - i,
        {
            kept.push(self.lines[i].clone());
            i = i + 1;
        }
        assert(text::views(kept@) =~= last_of(self@.lines, TAIL_LINES as int));
        text::join(&kept, "\n")
    }
}

/// The end of a complaint that was captured whole.
pub fn stderr_tail(stderr: &[u8]) -> (tail: String)
    ensures
        tail@ == last_of(text::lossy_text(stderr@), TAIL_CHARS as int),
{
    let whole = text::from_utf8_lossy(stderr);
    let chars = text::chars_of(whole.as_str());
    let start: usize = if chars.len() > TAIL_CHARS {
        chars.len() - TAIL_CHARS
    } else {
        0
    };
    let tail = text::cut(&chars, start, chars.len());
    assert(tail@ =~= last_of(whole@, TAIL_CHARS as int));
    tail
}

// ---------------------------------------------------------------------------
// Laws
// ---------------------------------------------------------------------------

/// **What the remote says counts like what git itself says.**
pub proof fn remote_lines_are_read_without_their_mark(line: Seq<char>)
    ensures
        from_remote("remote: "@ + line) == line,
        !text::starts(text::trim_start(line), "remote: "@) ==> from_remote(line) == line,
{
    reveal_strlit("remote: ");
    let whole = "remote: "@ + line;
    assert(whole[0] == 'r');
    assert(text::trim_start(whole) == whole);
    assert(whole.take(8) =~= "remote: "@);
    assert(whole.skip(8) =~= line);
}

/// What stands around the first colon of a line.
proof fn lemma_around_the_colon(phase: Seq<char>, detail: Seq<char>)
    requires
        forall|i: int| 0 <= i < phase.len() ==> #[trigger] phase[i] != ':',
        detail.len() > 0,
        !text::white(detail[0]),
    ensures
        text::find(phase + ": "@ + detail, ':') == phase.len(),
        (phase + ": "@ + detail).len() == phase.len() + 2 + detail.len(),
        (phase + ": "@ + detail).take(phase.len() as int) == phase,
        text::trim_start((phase + ": "@ + detail).skip(phase.len() + 1int)) == detail,
{
    reveal_strlit(": ");
    let said = phase + ": "@ + detail;
    let colon = phase.len() as int;
    assert(said[colon] == ':');
    assert forall|i: int| 0 <= i < colon implies #[trigger] said[i] != ':' by {
        assert(said[i] == phase[i]);
    }
    text::lemma_find_is(said, ':', colon);
    assert(said.take(colon) =~= phase);
    let behind = said.skip(colon + 1);
    assert(behind =~= seq![' '] + detail);
    assert(behind.skip(1) =~= detail);
    assert(text::trim_start(detail) == detail);
    assert(text::white(behind[0]));
}

/// A number at the front of a text, up to a character that is no digit.
proof fn lemma_number_in_front(n: u64, after: Seq<char>)
    requires
        after.len() > 0,
        !text::digit(after[0]),
    ensures
        text::digits_of(n as nat).len() > 0,
        !text::white((text::digits_of(n as nat) + after)[0]),
        text::find(text::digits_of(n as nat) + after, after[0]) == text::digits_of(n as nat).len(),
        (text::digits_of(n as nat) + after).take(text::digits_of(n as nat).len() as int)
            == text::digits_of(n as nat),
        (text::digits_of(n as nat) + after).skip(text::digits_of(n as nat).len() as int) == after,
        text::decimal(text::trim(text::digits_of(n as nat))) == Some(n),
        forall|i: int|
            0 <= i < text::digits_of(n as nat).len() ==> text::digit(
                #[trigger] (text::digits_of(n as nat) + after)[i],
            ),
{
    let digits = text::digits_of(n as nat);
    text::written_numbers_are_read_back(n as nat);
    let whole = digits + after;
    let d = digits.len() as int;
    assert forall|i: int| 0 <= i < d implies text::digit(#[trigger] whole[i]) by {
        assert(whole[i] == digits[i]);
    }
    assert forall|i: int| 0 <= i < d implies #[trigger] whole[i] != after[0] by {
        assert(text::digit(whole[i]));
    }
    assert(whole[d] == after[0]);
    text::lemma_find_is(whole, after[0], d);
    assert(whole.take(d) =~= digits);
    assert(whole.skip(d) =~= after);
    text::lemma_trim_nothing(digits);
}

/// Two numbers with a slash between them.
proof fn lemma_two_numbers(pos: u64, len: u64)
    ensures
        ({
            let inner = text::digits_of(pos as nat) + ("/"@ + text::digits_of(len as nat));
            let bar = text::find(inner, '/');
            &&& 0 <= bar < inner.len()
            &&& text::decimal(text::trim(inner.take(bar))) == Some(pos)
            &&& text::decimal(text::trim(inner.skip(bar + 1))) == Some(len)
            &&& forall|i: int| 0 <= i < inner.len() ==> #[trigger] inner[i] != ')'
        }),
{
    reveal_strlit("/");
    let l = text::digits_of(len as nat);
    let after = "/"@ + l;
    assert(after[0] == '/');
    lemma_number_in_front(pos, after);
    lemma_number_in_front(len, seq![' ']);
    text::written_numbers_are_read_back(len as nat);
    let p = text::digits_of(pos as nat);
    let inner = p + after;
    assert(inner.skip(p.len() + 1int) =~= l);
    assert forall|i: int| 0 <= i < inner.len() implies #[trigger] inner[i] != ')' by {
        if i < p.len() {
            assert(text::digit(inner[i]));
        } else if i > p.len() {
            assert(inner[i] == l[i - p.len() - 1]);
        }
    }
}

/// The counts behind a percentage.
proof fn lemma_counts(percent: u64, pos: u64, len: u64, rest: Seq<char>)
    ensures
        counts(
            text::digits_of(percent as nat) + ("% ("@ + (text::digits_of(pos as nat) + ("/"@
                + text::digits_of(len as nat))) + ")"@ + rest),
        ) == Some(Some((pos, len))),
{
    reveal_strlit("% (");
    reveal_strlit(")");
    let inner = text::digits_of(pos as nat) + ("/"@ + text::digits_of(len as nat));
    let after = "% ("@ + inner + ")"@ + rest;
    lemma_two_numbers(pos, len);
    assert(after[0] == '%' && after[1] == ' ' && after[2] == '(');
    lemma_number_in_front(percent, after);
    let d = text::digits_of(percent as nat).len() as int;
    let detail = text::digits_of(percent as nat) + after;
    assert(forall|i: int| d <= i < detail.len() ==> #[trigger] detail[i] == after[i - d]);
    assert forall|i: int| 0 <= i < d + 2 implies #[trigger] detail[i] != '(' by {
        if i < d {
            assert(text::digit(detail[i]));
        }
    }
    text::lemma_find_is(detail, '(', d + 2);
    let close = d + 3 + inner.len();
    assert(after[close - d] == ')');
    assert forall|i: int| 0 <= i < close implies #[trigger] detail[i] != ')' by {
        if i < d {
            assert(text::digit(detail[i]));
        } else if i >= d + 3 {
            assert(after[i - d] == inner[i - d - 3]);
        }
    }
    text::lemma_find_is(detail, ')', close);
    assert(detail.subrange(d + 3, close) =~= inner);
}

/// **A line with a percentage and counts is progress**: its phase stands in front
/// of the colon, and how far it is is told by the counts, whatever the percentage
/// is and whatever follows.
pub proof fn counted_lines_are_progress(
    line: Seq<char>,
    phase: Seq<char>,
    percent: u64,
    pos: u64,
    len: u64,
    rest: Seq<char>,
)
    requires
        from_remote(line) == phase + ": "@ + (text::digits_of(percent as nat) + "% ("@
            + text::digits_of(pos as nat) + "/"@ + text::digits_of(len as nat) + ")"@ + rest),
        forall|i: int| 0 <= i < phase.len() ==> #[trigger] phase[i] != ':',
    ensures
        progress_of(line) == Some(
            ProgressView {
                phase,
                pos,
                len,
                detail: text::digits_of(percent as nat) + "% ("@ + text::digits_of(pos as nat)
                    + "/"@ + text::digits_of(len as nat) + ")"@ + rest,
            },
        ),
{
    reveal_strlit("% (");
    let after = "% ("@ + (text::digits_of(pos as nat) + ("/"@ + text::digits_of(len as nat)))
        + ")"@ + rest;
    let detail = text::digits_of(percent as nat) + after;
    assert(detail =~= text::digits_of(percent as nat) + "% ("@ + text::digits_of(pos as nat) + "/"@
        + text::digits_of(len as nat) + ")"@ + rest);
    assert(after[0] == '%');
    lemma_counts(percent, pos, len, rest);
    lemma_number_in_front(percent, after);
    lemma_around_the_colon(phase, detail);
}

/// **A line with a percentage alone is progress out of a hundred.**
pub proof fn percentages_are_out_of_a_hundred(
    line: Seq<char>,
    phase: Seq<char>,
    percent: u64,
    rest: Seq<char>,
)
    requires
        from_remote(line) == phase + ": "@ + (text::digits_of(percent as nat) + "%"@ + rest),
        forall|i: int| 0 <= i < phase.len() ==> #[trigger] phase[i] != ':',
        forall|i: int| 0 <= i < rest.len() ==> #[trigger] rest[i] != '(',
    ensures
        progress_of(line) == Some(
            ProgressView {
                phase,
                pos: percent,
                len: 100,
                detail: text::digits_of(percent as nat) + "%"@ + rest,
            },
        ),
{
    reveal_strlit("%");
    let after = "%"@ + rest;
    let done = text::digits_of(percent as nat);
    let detail = done + after;
    assert(detail =~= done + "%"@ + rest);
    assert(after[0] == '%');
    lemma_number_in_front(percent, after);
    lemma_around_the_colon(phase, detail);
    assert forall|i: int| 0 <= i < detail.len() implies #[trigger] detail[i] != '(' by {
        if i < done.len() {
            assert(text::digit(detail[i]));
        } else if i > done.len() {
            assert(detail[i] == rest[i - done.len() - 1]);
        }
    }
    text::lemma_find_none(detail, '(');
    text::lemma_find(detail, ')');
}

/// **A line without a colon, or with no percent sign behind it, is no progress**,
/// and is shown as it is.
pub proof fn other_lines_are_messages(line: Seq<char>, bar_mode: bool)
    requires
        (forall|i: int| 0 <= i < line.len() ==> #[trigger] line[i] != ':') || (forall|i: int|
            0 <= i < line.len() ==> #[trigger] line[i] != '%'),
    ensures
        progress_of(line) is None,
        update_for(bar_mode, line) == BarView::Message(bar_mode, line),
{
    let said = from_remote(line);
    let from = text::starting_white_space_is_taken_off(line);
    let off = line.len() - said.len();
    assert(0 <= off && forall|i: int| 0 <= i < said.len() ==> said[i] == line[i + off]);
    text::lemma_find(said, ':');
    let colon = text::find(said, ':');
    if colon < said.len() {
        assert(said[colon] == line[colon + off]);
        let behind = said.skip(colon + 1);
        let start = text::starting_white_space_is_taken_off(behind);
        let detail = text::trim_start(behind);
        assert forall|i: int| 0 <= i < detail.len() implies #[trigger] detail[i] != '%' by {
            assert(detail[i] == said[colon + 1 + start + i]);
            assert(detail[i] == line[colon + 1 + start + i + off]);
        }
        text::lemma_find_none(detail, '%');
    }
}

/// **A bar never runs past its end**, shows the phase in front and the rate behind
/// it, and changes its look only where what is shown is of the other kind.
pub proof fn bars_never_run_past_their_end(bar_mode: bool, line: Seq<char>)
    ensures
        match (progress_of(line), update_for(bar_mode, line)) {
            (Some(p), BarView::Progress(restyle, len, pos, message)) => {
                &&& restyle != bar_mode
                &&& len == p.len
                &&& pos <= len
                &&& p.pos <= p.len ==> pos == p.pos
                &&& p.pos > p.len ==> pos == len
                &&& text::starts(message, p.phase)
                &&& (forall|i: int| 0 <= i < p.detail.len() ==> #[trigger] p.detail[i] != ',')
                    ==> message == p.phase
                &&& message.len() > p.phase.len() ==> message[p.phase.len() as int] == ','
                    && exists|k: int|
                    0 <= k < p.detail.len() && #[trigger] p.detail.skip(k) == message.skip(
                        p.phase.len() as int,
                    )
            },
            (None, BarView::Message(restyle, message)) => restyle == bar_mode && message == line,
            _ => false,
        },
{
    if let Some(p) = progress_of(line) {
        text::lemma_find(p.detail, ',');
        let k = text::find(p.detail, ',');
        let rate = rate_part(p.detail);
        let message = p.phase + rate;
        assert(message.take(p.phase.len() as int) =~= p.phase);
        assert(message.skip(p.phase.len() as int) =~= rate);
        if k < p.detail.len() {
            assert(rate[0] == ',');
            assert(p.detail.skip(k) == message.skip(p.phase.len() as int));
        } else {
            assert(message =~= p.phase);
        }
    }
}

/// Bytes that end no line are kept for later.
proof fn lemma_kept_for_later(view: RelayView, chunk: Seq<u8>)
    requires
        forall|i: int| 0 <= i < chunk.len() ==> #[trigger] chunk[i] != 10 && chunk[i] != 13,
    ensures
        take_chunk(view, chunk) == (
            RelayView { pending: view.pending + chunk, ..view },
            Seq::<BarView>::empty(),
        ),
    decreases chunk.len(),
{
    if chunk.len() == 0 {
        assert(view.pending + chunk =~= view.pending);
    } else {
        let less = chunk.drop_last();
        assert forall|i: int| 0 <= i < less.len() implies #[trigger] less[i] != 10 && less[i] != 13
            by {
            assert(less[i] == chunk[i]);
        }
        lemma_kept_for_later(view, less);
        assert(chunk[chunk.len() - 1] == chunk.last());
        assert((view.pending + less).push(chunk.last()) =~= view.pending + chunk);
        assert(Seq::<BarView>::empty() + Seq::<BarView>::empty() =~= Seq::<BarView>::empty());
    }
}

/// **Lines end at a carriage return or a line feed.** A line that is not blank is
/// kept without the white space at its end, and shown once; a blank one is dropped;
/// what has no end yet waits for it.
pub proof fn lines_end_at_returns_and_feeds(view: RelayView, line: Seq<u8>, end: u8)
    requires
        forall|i: int| 0 <= i < line.len() ==> #[trigger] line[i] != 10 && line[i] != 13,
    ensures
        take_chunk(view, line).0.lines == view.lines,
        take_chunk(view, line).0.pending == view.pending + line,
        take_chunk(view, line).1.len() == 0,
        end == 10 || end == 13 ==> {
            let after = take_chunk(view, line.push(end));
            let said = text::trim_end(text::lossy_text(view.pending + line));
            &&& after.0.pending.len() == 0
            &&& said.len() == 0 ==> after.0.lines == view.lines && after.0.bar_mode == view.bar_mode
                && after.1.len() == 0
            &&& said.len() > 0 ==> after.0.lines == view.lines.push(said) && after.0.bar_mode == (
            progress_of(said) is Some) && after.1 == seq![update_for(view.bar_mode, said)]
        },
{
    lemma_kept_for_later(view, line);
    assert(line.push(end).drop_last() =~= line);
    let shown = take_byte(RelayView { pending: view.pending + line, ..view }, end).1;
    assert(Seq::<BarView>::empty() + shown =~= shown);
}

/// **The tail of what git said is its last five lines, or its last three hundred
/// characters.**
pub proof fn tails_are_the_end(lines: Seq<Seq<char>>, text: Seq<char>)
    ensures
        lines.len() <= 5 ==> last_of(lines, TAIL_LINES as int) == lines,
        lines.len() > 5 ==> last_of(lines, TAIL_LINES as int) == lines.skip(lines.len() - 5),
        text.len() <= 300 ==> last_of(text, TAIL_CHARS as int) == text,
        text.len() > 300 ==> last_of(text, TAIL_CHARS as int) == text.skip(text.len() - 300),
{
}

/// **What is progress is read off the line**: the phase is what stands in front of
/// the first colon, and the rest begins behind it; a number stands in front of the
/// first percent sign, and where there are brackets behind the colon, the two numbers
/// in them are what counts.
pub proof fn progress_is_read_off_the_line(line: Seq<char>) -> (percent: int)
    ensures
        progress_of(line) matches Some(p) ==> {
            let said = from_remote(line);
            let done = text::decimal(text::trim(p.detail.take(percent)));
            let open = text::find(p.detail, '(');
            let close = text::find(p.detail, ')');
            &&& p.phase.len() < said.len()
            &&& said.take(p.phase.len() as int) == p.phase
            &&& said[p.phase.len() as int] == ':'
            &&& forall|i: int| 0 <= i < p.phase.len() ==> #[trigger] p.phase[i] != ':'
            &&& p.detail == text::trim_start(said.skip(p.phase.len() + 1int))
            &&& 0 <= percent < p.detail.len() && p.detail[percent] == '%'
            &&& forall|i: int| 0 <= i < percent ==> #[trigger] p.detail[i] != '%'
            &&& done is Some
            &&& !(open < close < p.detail.len()) ==> p.pos == done->0 && p.len == 100
            &&& open < close < p.detail.len() ==> {
                let inner = p.detail.subrange(open + 1, close);
                let bar = text::find(inner, '/');
                &&& bar < inner.len()
                &&& text::decimal(text::trim(inner.take(bar))) == Some(p.pos)
                &&& text::decimal(text::trim(inner.skip(bar + 1))) == Some(p.len)
            }
        },
{
    let said = from_remote(line);
    text::lemma_find(said, ':');
    match progress_of(line) {
        Some(p) => {
            text::lemma_find(p.detail, '%');
            text::lemma_find(p.detail, '(');
            text::lemma_find(p.detail, ')');
            text::find(p.detail, '%')
        },
        None => 0,
    }
}

/// **A percentage that is no number is no progress**, whatever else the line has.
pub proof fn other_percentages_are_messages(
    line: Seq<char>,
    phase: Seq<char>,
    number: Seq<char>,
    rest: Seq<char>,
)
    requires
        from_remote(line) == phase + ": "@ + (number + "%"@ + rest),
        forall|i: int| 0 <= i < phase.len() ==> #[trigger] phase[i] != ':',
        number.len() > 0,
        !text::white(number[0]),
        forall|i: int| 0 <= i < number.len() ==> #[trigger] number[i] != '%',
        text::decimal(text::trim(number)) is None,
    ensures
        progress_of(line) is None,
{
    reveal_strlit("%");
    let detail = number + "%"@ + rest;
    lemma_around_the_colon(phase, detail);
    let d = number.len() as int;
    assert forall|i: int| 0 <= i < d implies #[trigger] detail[i] != '%' by {
        assert(detail[i] == number[i]);
    }
    assert(detail[d] == '%');
    text::lemma_find_is(detail, '%', d);
    assert(detail.take(d) =~= number);
}

} // verus!
