//! The append-only file: one `key value` record per line, written after each
//! write that a master applies, and read back when a master is rebuilt.

use crate::text::{
    is_word, is_ws, lemma_lines_through, lemma_words_of_pair, lines, push_char, push_str,
    split_lines, split_whitespace, strip_cr, words,
};
use vstd::prelude::*;

verus! {

/// The line that records a write of `value` to `key`.
pub open spec fn record_line(key: Seq<char>, value: Seq<char>) -> Seq<char> {
    key + seq![' '] + value + seq!['\r', '\n']
}

/// The line that records a write of `value` to `key`.
pub fn encode_record(key: &str, value: &str) -> (line: String)
    ensures
        line@ == record_line(key@, value@),
{
    let mut line = key.to_owned();
    push_char(&mut line, ' ');
    push_str(&mut line, value);
    push_char(&mut line, '\r');
    push_char(&mut line, '\n');
    line
}

/// The text of a log that holds `records`, one record line each, in order.
pub open spec fn log_of(records: Seq<(Seq<char>, Seq<char>)>) -> Seq<char>
    decreases records.len(),
{
    if records.len() == 0 {
        Seq::empty()
    } else {
        record_line(records[0].0, records[0].1) + log_of(records.drop_first())
    }
}

/// Each key and value of `records` is a single word.
pub open spec fn all_words(records: Seq<(Seq<char>, Seq<char>)>) -> bool {
    forall|i: int| 0 <= i < records.len() ==> is_word(#[trigger] records[i].0) && is_word(records[i].1)
}

/// The lines `key value` of `records`.
pub open spec fn record_texts(records: Seq<(Seq<char>, Seq<char>)>) -> Seq<Seq<char>> {
    records.map_values(|r: (Seq<char>, Seq<char>)| r.0 + seq![' '] + r.1)
}

proof fn lemma_lines_of_log(records: Seq<(Seq<char>, Seq<char>)>)
    requires
        all_words(records),
    ensures
        lines(log_of(records)) == record_texts(records),
    decreases records.len(),
{
    if records.len() == 0 {
        assert(record_texts(records) =~= Seq::<Seq<char>>::empty());
    } else {
        let r = records[0];
        let rest = records.drop_first();
        let t = r.0 + seq![' '] + r.1;
        let l = t + seq!['\r'];
        assert(is_word(r.0) && is_word(r.1));
        assert(log_of(records) =~= l + seq!['\n'] + log_of(rest));
        assert forall|i: int| 0 <= i < l.len() implies #[trigger] l[i] != '\n' by {
            if i < r.0.len() {
                assert(l[i] == r.0[i]);
                assert(!is_ws(r.0[i]));
            } else if i == r.0.len() {
                assert(l[i] == ' ');
            } else if i < r.0.len() + 1 + r.1.len() {
                assert(l[i] == r.1[i - r.0.len() - 1]);
                assert(!is_ws(r.1[i - r.0.len() - 1]));
            } else {
                assert(l[i] == '\r');
            }
        }
        lemma_lines_through(l, log_of(rest), Seq::empty());
        assert(Seq::<char>::empty() + l =~= l);
        assert(strip_cr(l) =~= t);
        assert forall|i: int| 0 <= i < rest.len() implies is_word(#[trigger] rest[i].0) && is_word(
            rest[i].1,
        ) by {
            assert(rest[i] == records[i + 1]);
        }
        lemma_lines_of_log(rest);
        assert(record_texts(records) =~= seq![t] + record_texts(rest));
    }
}

proof fn lemma_replay_texts(records: Seq<(Seq<char>, Seq<char>)>, stop_at_empty: bool)
    requires
        all_words(records),
    ensures
        replay_lines(record_texts(records), stop_at_empty) == (records, false),
    decreases records.len(),
{
    let ls = record_texts(records);
    if records.len() == 0 {
        assert(ls =~= Seq::<Seq<char>>::empty());
    } else {
        let r = records[0];
        let rest = records.drop_first();
        assert(is_word(r.0) && is_word(r.1));
        assert(ls[0] == r.0 + seq![' '] + r.1);
        lemma_words_of_pair(r.0, r.1);
        assert(ls[0].len() > 0);
        assert(ls.drop_first() =~= record_texts(rest));
        assert forall|i: int| 0 <= i < rest.len() implies is_word(#[trigger] rest[i].0) && is_word(
            rest[i].1,
        ) by {
            assert(rest[i] == records[i + 1]);
        }
        lemma_replay_texts(rest, stop_at_empty);
        assert(seq![(r.0, r.1)] + rest =~= records);
    }
}

/// A log made of the record lines of writes whose keys and values are single
/// words reads back as exactly those writes, in order, whatever is done at
/// empty lines: rebuilding a master from its append-only file replays the
/// writes that were recorded there.
pub proof fn lemma_log_replays_its_records(
    records: Seq<(Seq<char>, Seq<char>)>,
    on_empty: EmptyLine,
)
    requires
        all_words(records),
    ensures
        replay_log(log_of(records), on_empty) == (records, false),
{
    lemma_lines_of_log(records);
    lemma_replay_texts(records, on_empty == EmptyLine::Stop);
}

/// What to do at an empty line of a log.
#[derive(Clone, Copy, Debug, PartialEq, Eq, Structural)]
pub enum EmptyLine {
    /// The log ends there (a master rebuilding from its append-only file).
    Stop,
    /// It is passed over (a client replaying a log through the proxy).
    Skip,
}

/// The records of a log given by its lines, and whether reading stopped at
/// a line with fewer than two words. A record is the first two words of a
/// line; further words are ignored.
pub open spec fn replay_lines(ls: Seq<Seq<char>>, stop_at_empty: bool) -> (
    Seq<(Seq<char>, Seq<char>)>,
    bool,
)
    decreases ls.len(),
{
    if ls.len() == 0 {
        (Seq::empty(), false)
    } else if ls[0].len() == 0 {
        if stop_at_empty {
            (Seq::empty(), false)
        } else {
            replay_lines(ls.drop_first(), stop_at_empty)
        }
    } else if words(ls[0]).len() < 2 {
        (Seq::empty(), true)
    } else {
        let rest = replay_lines(ls.drop_first(), stop_at_empty);
        (seq![(words(ls[0])[0], words(ls[0])[1])] + rest.0, rest.1)
    }
}

/// The records of the log `contents`, as `replay_lines` reads its lines.
pub open spec fn replay_log(contents: Seq<char>, on_empty: EmptyLine) -> (
    Seq<(Seq<char>, Seq<char>)>,
    bool,
) {
    replay_lines(lines(contents), on_empty == EmptyLine::Stop)
}

/// The character sequences of key-value pairs.
pub open spec fn pair_views(v: Seq<(String, String)>) -> Seq<(Seq<char>, Seq<char>)> {
    v.map_values(|p: (String, String)| (p.0@, p.1@))
}

/// The records read from a log, in order, and whether reading stopped at a
/// malformed line (one with fewer than two words).
pub struct Replay {
    pub records: Vec<(String, String)>,
    pub malformed: bool,
}

/// Reads the records of a log.
pub fn replay(contents: &str, on_empty: EmptyLine) -> (r: Replay)
    ensures
        (pair_views(r.records@), r.malformed) == replay_log(contents@, on_empty),
{
    let ls = split_lines(contents);
    let ghost lv = crate::text::views(ls@);
    let ghost stop = on_empty == EmptyLine::Stop;
    let mut records: Vec<(String, String)> = Vec::new();
    let mut malformed = false;
    let mut i: usize = 0;
    assert(lv.skip(0) =~= lv);
    assert(pair_views(records@) =~= Seq::<(Seq<char>, Seq<char>)>::empty());
    assert(pair_views(records@) + replay_lines(lv.skip(0), stop).0 =~= replay_lines(lv, stop).0);
    while i < ls.len()
        invariant
            i <= ls@.len(),
            lv == crate::text::views(ls@),
            lv == lines(contents@),
            stop == (on_empty == EmptyLine::Stop),
            !malformed,
            pair_views(records@) + replay_lines(lv.skip(i as int), stop).0 == replay_lines(
                lv,
                stop,
            ).0,
            replay_lines(lv.skip(i as int), stop).1 == replay_lines(lv, stop).1,
        decreases ls@.len() - i,
    {
        let ghost rest = lv.skip(i as int);
        assert(rest[0] == ls@[i as int]@);
        assert(rest.drop_first() =~= lv.skip(i as int + 1));
        let line = &ls[i];
        if line.as_str().is_empty() {
            match on_empty {
                EmptyLine::Stop => {
                    assert(pair_views(records@) + Seq::<(Seq<char>, Seq<char>)>::empty()
                        =~= pair_views(records@));
                    return Replay { records, malformed: false };
                },
                EmptyLine::Skip => {},
            }
        } else {
            let w = split_whitespace(line.as_str());
            if w.len() < 2 {
                assert(pair_views(records@) + Seq::<(Seq<char>, Seq<char>)>::empty()
                    =~= pair_views(records@));
                return Replay { records, malformed: true };
            }
            assert(w@[0]@ == words(rest[0])[0]);
            let ghost before = pair_views(records@);
            records.push((w[0].clone(), w[1].clone()));
            assert(pair_views(records@) =~= before.push((words(rest[0])[0], words(rest[0])[1])));
            assert(pair_views(records@) + replay_lines(lv.skip(i as int + 1), stop).0 =~= before
                + (seq![(words(rest[0])[0], words(rest[0])[1])] + replay_lines(
                lv.skip(i as int + 1),
                stop,
            ).0));
        }
        i = i + 1;
    }
    assert(lv.skip(i as int) =~= Seq::<Seq<char>>::empty());
    assert(pair_views(records@) + Seq::<(Seq<char>, Seq<char>)>::empty() =~= pair_views(records@));
    Replay { records, malformed }
}

} // verus!
