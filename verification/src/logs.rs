//! The log: one entry in each line, the newest last; shown the newest first.
use crate::clock::{current_time, format_timestamp, rfc3339_text, Timestamp};
use crate::models::{AppLogEntry, LogView};
use crate::text::{is_blank, is_blank_text, texts};
use vstd::prelude::*;
use vstd::string::*;

verus! {

broadcast use vstd::string::group_string_axioms;

/// An entry of the log.
pub open spec fn log_entry(level: Seq<char>, message: Seq<char>, at: Timestamp) -> LogView {
    LogView { timestamp: rfc3339_text(at.seconds, at.nanos), level, message }
}

/// An entry of the log that is made at a given time.
pub fn log_entry_at(level: &str, message: &str, at: Timestamp) -> (r: AppLogEntry)
    requires
        at.in_calendar(),
    ensures
        r@ == log_entry(level@, message@, at),
{
    AppLogEntry {
        timestamp: format_timestamp(at),
        level: String::from_str(level),
        message: String::from_str(message),
    }
}

/// An entry of the log that is made now.
pub fn append_log(level: &str, message: &str) -> (r: AppLogEntry)
    ensures
        exists|now: Timestamp|
            now.in_calendar() && r@ == #[trigger] log_entry(level@, message@, now),
{
    let now = current_time();
    log_entry_at(level, message, now)
}

/// Where the first line feed in `s` stands; behind the last character where
/// there is none.
pub open spec fn first_feed(s: Seq<char>) -> int
    decreases s.len(),
{
    if s.len() == 0 || s[0] == '\n' {
        0
    } else {
        1 + first_feed(s.skip(1))
    }
}

/// A line without the carriage return before its line feed.
pub open spec fn without_return(s: Seq<char>) -> Seq<char> {
    if s.len() > 0 && s.last() == '\r' {
        s.drop_last()
    } else {
        s
    }
}

/// The lines of a text that are not blank. A line ends with a line feed, which
/// may be missing at the end of the text.
pub open spec fn filled_lines(s: Seq<char>) -> Seq<Seq<char>>
    decreases s.len(),
{
    if s.len() == 0 {
        Seq::empty()
    } else {
        let n = first_feed(s);
        if n < 0 || n >= s.len() {
            if is_blank_text(s) {
                Seq::empty()
            } else {
                seq![s]
            }
        } else {
            let line = without_return(s.take(n));
            let rest = filled_lines(s.skip(n + 1));
            if is_blank_text(line) {
                rest
            } else {
                seq![line] + rest
            }
        }
    }
}

proof fn lemma_first_feed(s: Seq<char>, n: int)
    requires
        0 <= n <= s.len(),
        forall|k: int| 0 <= k < n ==> s[k] != '\n',
        n < s.len() ==> s[n] == '\n',
    ensures
        first_feed(s) == n,
    decreases n,
{
    if n > 0 {
        assert forall|k: int| 0 <= k < n - 1 implies s.skip(1)[k] != '\n' by {
            assert(s[k + 1] != '\n');
        }
        lemma_first_feed(s.skip(1), n - 1);
    }
}

/// The lines of a text that are not blank.
pub fn log_lines(content: &str) -> (r: Vec<String>)
    ensures
        texts(r@) == filled_lines(content@),
{
    let chars = crate::text::chars_of(content);
    let n: usize = chars.len();
    let mut r: Vec<String> = Vec::new();
    let mut start: usize = 0;
    proof {
        assert(content@.skip(0) =~= content@);
        assert(texts(r@) + filled_lines(content@) =~= filled_lines(content@));
    }
    while start < n
        invariant
            start <= n == content@.len(),
            chars@ == content@,
            texts(r@) + filled_lines(content@.skip(start as int)) == filled_lines(content@),
        decreases n - start,
    {
        let mut end: usize = start;
        while end < n && chars[end] != '\n'
            invariant
                start <= end <= n == content@.len(),
                chars@ == content@,
                forall|k: int| start <= k < end ==> content@[k] != '\n',
            ensures
                start <= end <= n,
                forall|k: int| start <= k < end ==> content@[k] != '\n',
                end < n ==> content@[end as int] == '\n',
            decreases n - end,
        {
            end = end + 1;
        }
        let ghost rest = content@.skip(start as int);
        let ghost before = texts(r@);
        proof {
            lemma_first_feed(rest, end - start);
            assert(content@.subrange(start as int, end as int) =~= rest.take(end - start));
        }
        let mut stop: usize = end;
        if end < n && end > start && chars[end - 1] == '\r' {
            stop = end - 1;
        }
        let line = String::from_str(content.substring_char(start, stop));
        proof {
            if end < n {
                assert(line@ =~= without_return(rest.take(end - start)));
                assert(rest.skip(end - start + 1) =~= content@.skip(end + 1));
            } else {
                assert(line@ =~= rest);
            }
        }
        if !is_blank(line.as_str()) {
            let ghost kept = line@;
            r.push(line);
            proof {
                assert(texts(r@) =~= before.push(kept));
                if end < n {
                    assert(before + (seq![kept] + filled_lines(content@.skip(end + 1)))
                        =~= texts(r@) + filled_lines(content@.skip(end + 1)));
                } else {
                    assert(before + seq![kept] =~= texts(r@));
                }
            }
        }
        if end < n {
            start = end + 1;
        } else {
            start = n;
            proof {
                assert(content@.skip(n as int).len() == 0);
                assert(texts(r@) + Seq::<Seq<char>>::empty() =~= texts(r@));
                assert(before + Seq::<Seq<char>>::empty() =~= before);
            }
        }
    }
    proof {
        assert(texts(r@) + Seq::<Seq<char>>::empty() =~= texts(r@));
    }
    r
}

pub open spec fn opt_entry_views(entries: Seq<Option<AppLogEntry>>) -> Seq<Option<LogView>> {
    entries.map_values(
        |e: Option<AppLogEntry>|
            match e {
                Some(entry) => Some(entry@),
                None => None,
            },
    )
}

pub open spec fn log_views(entries: Seq<AppLogEntry>) -> Seq<LogView> {
    entries.map_values(|e: AppLogEntry| e@)
}

/// The entries that could be read, the last one first.
pub open spec fn newest_first(entries: Seq<Option<LogView>>) -> Seq<LogView>
    decreases entries.len(),
{
    if entries.len() == 0 {
        Seq::empty()
    } else {
        let earlier = newest_first(entries.drop_last());
        match entries.last() {
            Some(entry) => seq![entry] + earlier,
            None => earlier,
        }
    }
}

/// What is shown of the log: the entries of its lines that could be read, the
/// newest first.
pub fn read_logs(entries: &Vec<Option<AppLogEntry>>) -> (r: Vec<AppLogEntry>)
    ensures
        log_views(r@) == newest_first(opt_entry_views(entries@)),
{
    let ghost all = opt_entry_views(entries@);
    let mut r: Vec<AppLogEntry> = Vec::new();
    let mut left: usize = entries.len();
    proof {
        assert(all.take(all.len() as int) =~= all);
        assert(log_views(r@) + newest_first(all) =~= newest_first(all));
    }
    while left > 0
        invariant
            left <= entries@.len(),
            all == opt_entry_views(entries@),
            log_views(r@) + newest_first(all.take(left as int)) == newest_first(all),
        decreases left,
    {
        let ghost before = log_views(r@);
        proof {
            assert(all.take(left as int).drop_last() =~= all.take(left - 1));
            assert(all.take(left as int).last() == all[left - 1]);
        }
        if let Some(entry) = &entries[left - 1] {
            r.push(entry.clone());
            proof {
                assert(log_views(r@) =~= before.push(entry@));
                let earlier = newest_first(all.take(left - 1));
                assert(before + (seq![entry@] + earlier) =~= log_views(r@) + earlier);
            }
        }
        left = left - 1;
    }
    proof {
        assert(log_views(r@) + Seq::<LogView>::empty() =~= log_views(r@));
    }
    r
}

} // verus!
