use vstd::prelude::*;

use crate::message::{Message, RecordKind};
use crate::progress::{update_progress, ReadProgress};
use crate::title_basics::{fields_of, line_error, line_parses, parse_outcome, record_of_fields, TitleBasics};
use crate::parse::ParseError;

verus! {

/// The title type the reader keeps.
pub open spec fn tv_series() -> Seq<char> {
    seq!['t', 'v', 'S', 'e', 'r', 'i', 'e', 's']
}

/// Whether a data line yields a record that the reader keeps.
pub open spec fn is_selected(line: Seq<char>) -> bool {
    line_parses(line) && fields_of(line)[1] == tv_series()
}

/// The lines among `lines` whose record the reader keeps, in order.
pub open spec fn selected_lines(lines: Seq<Seq<char>>) -> Seq<Seq<char>>
    decreases lines.len(),
{
    if lines.len() == 0 {
        Seq::empty()
    } else if is_selected(lines.last()) {
        selected_lines(lines.drop_last()).push(lines.last())
    } else {
        selected_lines(lines.drop_last())
    }
}

/// Number of kept records among `lines`.
pub open spec fn count_selected(lines: Seq<Seq<char>>) -> nat {
    selected_lines(lines).len()
}

/// Whether `out` holds, in order, one record message for each kept line of
/// `lines`, each the record its line describes.
pub open spec fn messages_for(out: Seq<Message>, lines: Seq<Seq<char>>) -> bool {
    &&& out.len() == selected_lines(lines).len()
    &&& forall|j: int|
        0 <= j < out.len() ==> (#[trigger] out[j] matches Message::TitleBasics(t)
            && record_of_fields(t, fields_of(selected_lines(lines)[j])))
}

pub proof fn lemma_count_selected_bound(lines: Seq<Seq<char>>)
    ensures
        count_selected(lines) <= lines.len(),
    decreases lines.len(),
{
    if lines.len() > 0 {
        lemma_count_selected_bound(lines.drop_last());
    }
}

/// Character-wise equality of two strings.
fn str_eq(a: &str, b: &str) -> (r: bool)
    ensures
        r == (a@ == b@),
{
    let n = a.unicode_len();
    if n != b.unicode_len() {
        return false;
    }
    let mut i: usize = 0;
    while i < n
        invariant
            n == a@.len() == b@.len(),
            i <= n,
            forall|j: int| 0 <= j < i ==> a@[j] == b@[j],
        decreases n - i,
    {
        if a.get_char(i) != b.get_char(i) {
            return false;
        }
        i = i + 1;
    }
    assert(a@ =~= b@);
    true
}

/// Parses one data line and keeps it only when its type is `tvSeries`:
/// `Ok(Some(message))` carries the kept record, `Ok(None)` a dropped one.
pub fn process_item(line: &str) -> (r: Result<Option<Message>, ParseError>)
    ensures
        match r {
            Ok(Some(m)) => is_selected(line@) && (m matches Message::TitleBasics(t)
                && record_of_fields(t, fields_of(line@))),
            Ok(None) => line_parses(line@) && !is_selected(line@),
            Err(e) => !line_parses(line@) && line_error(line@, e),
        },
{
    let data = match TitleBasics::parse_line(line) {
        Ok(d) => d,
        Err(e) => return Err(e),
    };
    let tv = "tvSeries";
    proof {
        reveal_strlit("tvSeries");
        assert(tv@ =~= tv_series());
    }
    if str_eq(data.title_type.as_str(), tv) {
        Ok(Some(Message::title_basics(data)))
    } else {
        Ok(None)
    }
}

/// The text of each line.
pub open spec fn texts(lines: Seq<String>) -> Seq<Seq<char>> {
    lines.map_values(|s: String| s@)
}

/// The lines of `lines` that are data lines, given whether the header has
/// already been consumed.
pub open spec fn data_part(header_seen: bool, lines: Seq<Seq<char>>) -> Seq<Seq<char>> {
    if header_seen {
        lines
    } else if lines.len() == 0 {
        lines
    } else {
        lines.drop_first()
    }
}

/// The reader stage for one file: skips the header line, parses and selects
/// each data line, and keeps the progress counters.
pub struct ReaderStage {
    progress: ReadProgress,
    header_seen: bool,
    lines: Ghost<Seq<Seq<char>>>,
}

impl ReaderStage {
    /// The counters as they stand.
    pub closed spec fn spec_progress(&self) -> ReadProgress {
        self.progress
    }

    /// Whether the header line has been consumed.
    pub closed spec fn header_seen(&self) -> bool {
        self.header_seen
    }

    /// The data lines consumed so far, in order.
    pub closed spec fn data_lines(&self) -> Seq<Seq<char>> {
        self.lines@
    }

    pub closed spec fn wf(&self) -> bool {
        &&& self.progress.read == self.lines@.len()
        &&& self.progress.selected == count_selected(self.lines@)
        &&& !self.header_seen ==> self.lines@.len() == 0
        &&& forall|i: int| 0 <= i < self.lines@.len() ==> line_parses(#[trigger] self.lines@[i])
    }

    pub fn new() -> (r: ReaderStage)
        ensures
            r.wf(),
            !r.header_seen(),
            r.data_lines() == Seq::<Seq<char>>::empty(),
            r.spec_progress() == (ReadProgress { selected: 0, read: 0 }),
    {
        ReaderStage {
            progress: ReadProgress { selected: 0, read: 0 },
            header_seen: false,
            lines: Ghost(Seq::empty()),
        }
    }

    pub fn progress(&self) -> (r: ReadProgress)
        ensures
            r == self.spec_progress(),
    {
        self.progress
    }

    /// Consumes one line. The first is the header and is dropped. A data line
    /// that parses is counted, and returned as a message when it is kept. A
    /// line that does not parse gives its error and leaves the stage as it
    /// was: the caller stops reading there.
    pub fn on_line(&mut self, line: &str) -> (r: Result<Option<Message>, ParseError>)
        requires
            old(self).wf(),
            old(self).spec_progress().read < u64::MAX,
        ensures
            final(self).wf(),
            final(self).header_seen(),
            !old(self).header_seen() ==> r == Ok::<Option<Message>, ParseError>(None)
                && final(self).data_lines() == old(self).data_lines(),
            old(self).header_seen() && line_parses(line@) ==> final(self).data_lines()
                == old(self).data_lines().push(line@),
            old(self).header_seen() && !line_parses(line@) ==> final(self).data_lines()
                == old(self).data_lines(),
            old(self).header_seen() ==> match r {
                Ok(Some(m)) => is_selected(line@) && (m matches Message::TitleBasics(t)
                    && record_of_fields(t, fields_of(line@))),
                Ok(None) => line_parses(line@) && !is_selected(line@),
                Err(e) => !line_parses(line@) && line_error(line@, e),
            },
    {
        if !self.header_seen {
            self.header_seen = true;
            return Ok(None);
        }
        let r = process_item(line);
        match r {
            Ok(m) => {
                let kept = m.is_some();
                proof {
                    lemma_count_selected_bound(self.lines@);
                }
                update_progress(&mut self.progress, kept);
                let ghost old_lines = self.lines@;
                self.lines = Ghost(self.lines@.push(line@));
                proof {
                    assert(self.lines@.drop_last() =~= old_lines);
                }
                Ok(m)
            },
            Err(e) => Err(e),
        }
    }

    /// Consumes a chunk of lines in order, as repeated `on_line` calls would.
    /// Returns the messages of the kept records, in order, and whether the
    /// whole chunk was read. The first line that does not parse stops the
    /// chunk: the lines before it stay counted, their messages are returned,
    /// and its error comes second.
    pub fn on_lines(&mut self, lines: &Vec<String>) -> (r: (Vec<Message>, Result<(), ParseError>))
        requires
            old(self).wf(),
            old(self).spec_progress().read + lines@.len() <= u64::MAX,
        ensures
            final(self).wf(),
            final(self).header_seen() || lines@.len() == 0,
            forall|i: int|
                0 <= i < final(self).data_lines().len() ==> line_parses(
                    #[trigger] final(self).data_lines()[i],
                ),
            messages_for(r.0@, final(self).data_lines().skip(old(self).data_lines().len() as int)),
            match r.1 {
                Ok(()) => final(self).data_lines() == old(self).data_lines() + data_part(
                    old(self).header_seen(),
                    texts(lines@),
                ),
                Err(e) => exists|k: int|
                    #![trigger data_part(old(self).header_seen(), texts(lines@))[k]]
                    0 <= k < data_part(old(self).header_seen(), texts(lines@)).len()
                        && final(self).data_lines() == old(self).data_lines() + data_part(
                        old(self).header_seen(),
                        texts(lines@),
                    ).take(k) && !line_parses(data_part(old(self).header_seen(), texts(lines@))[k])
                        && line_error(data_part(old(self).header_seen(), texts(lines@))[k], e),
            },
    {
        let ghost start = self.lines@;
        let ghost h0 = self.header_seen;
        let ghost all = texts(lines@);
        let ghost part = data_part(h0, all);
        let ghost d: int = if h0 {
            0
        } else {
            1
        };
        let mut out: Vec<Message> = Vec::new();
        let mut i: usize = 0;
        proof {
            assert(self.lines@.skip(start.len() as int) =~= Seq::<Seq<char>>::empty());
        }
        while i < lines.len()
            invariant
                self.wf(),
                i <= lines@.len(),
                all == texts(lines@),
                part == data_part(h0, all),
                d == (if h0 {
                    0int
                } else {
                    1int
                }),
                start == old(self).data_lines(),
                h0 == old(self).header_seen(),
                self.progress.read + (lines@.len() - i) <= u64::MAX,
                i > 0 ==> self.header_seen,
                i == 0 ==> self.header_seen == h0,
                i <= d ==> self.lines@ == start,
                i > d ==> self.lines@ == start + part.take(i - d),
                messages_for(out@, self.lines@.skip(start.len() as int)),
            decreases lines@.len() - i,
        {
            proof {
                lemma_count_selected_bound(self.lines@);
            }
            let ghost before = self.lines@;
            let ghost cur = before.skip(start.len() as int);
            let ghost h = self.header_seen;
            let res = self.on_line(lines[i].as_str());
            assert(lines@[i as int]@ == all[i as int]);
            match res {
                Ok(m) => {
                    proof {
                        if h {
                            assert(i >= d);
                            assert(part[i - d] == all[i as int]);
                            assert(start + part.take(i + 1 - d) =~= before.push(all[i as int]));
                            let ncur = self.lines@.skip(start.len() as int);
                            assert(ncur =~= cur.push(all[i as int]));
                            assert(ncur.drop_last() =~= cur);
                        }
                    }
                    let ghost out0 = out@;
                    match m {
                        Some(msg) => {
                            out.push(msg);
                        },
                        None => {},
                    }
                    proof {
                        let ncur = self.lines@.skip(start.len() as int);
                        if h {
                            assert(ncur.last() == all[i as int]);
                        }
                        assert forall|j: int| 0 <= j < out@.len() implies (#[trigger] out@[j] matches Message::TitleBasics(t)
                            && record_of_fields(t, fields_of(selected_lines(ncur)[j]))) by {
                            if j < out0.len() {
                                assert(out@[j] == out0[j]);
                            }
                        }
                    }
                    i = i + 1;
                },
                Err(e) => {
                    proof {
                        assert(h);
                        assert(i >= d);
                        let k = i - d;
                        assert(part[k] == all[i as int]);
                        if i == d {
                            assert(start + part.take(0) =~= start);
                        }
                    }
                    return (out, Err(e));
                },
            }
        }
        proof {
            if lines@.len() as int > d {
                assert(part.take(lines@.len() - d) =~= part);
            } else {
                assert(part.len() == 0);
                assert(start + part =~= start);
            }
        }
        (out, Ok(()))
    }

    /// The message that closes the stream once the input is exhausted.
    pub fn finish(&self) -> (r: Message)
        ensures
            r == Message::Done(RecordKind::TitleBasics),
    {
        Message::done(RecordKind::TitleBasics)
    }

    /// The counters agree with the lines consumed: `read` is the number of
    /// data lines (the header excluded), and `selected` never exceeds it.
    pub proof fn lemma_counts(&self)
        requires
            self.wf(),
        ensures
            self.spec_progress().read == self.data_lines().len(),
            self.spec_progress().selected == count_selected(self.data_lines()),
            self.spec_progress().selected <= self.spec_progress().read,
            forall|i: int|
                0 <= i < self.data_lines().len() ==> line_parses(#[trigger] self.data_lines()[i]),
    {
        lemma_count_selected_bound(self.lines@);
    }

    /// Reading a whole file (header first) into a fresh stage: afterwards
    /// `read` is the file's number of data lines and `selected` at most that.
    pub proof fn lemma_file_counts(&self, file: Seq<Seq<char>>)
        requires
            self.wf(),
            file.len() > 0,
            self.data_lines() == data_part(false, file),
        ensures
            self.spec_progress().read == file.len() - 1,
            self.spec_progress().selected <= self.spec_progress().read,
    {
        self.lemma_counts();
    }
}

} // verus!
