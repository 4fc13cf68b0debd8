//! What holds of the search for an error in the agent's logs, whatever is in the
//! log directory and whatever the logs say.
use vstd::prelude::*;
use crate::agy_log;
use crate::log_scan::{Candidate, LogEntry};
use crate::log_scan;
use crate::text;
use crate::text_laws;

verus! {

/// The size that a log had when the snapshot was taken; none before it was there.
pub open spec fn old_size(snapshot: Map<Seq<char>, u64>, name: Seq<char>) -> u64 {
    if snapshot.contains_key(name) {
        snapshot[name]
    } else {
        0
    }
}

/// The entry is a log of the agent's whose size could be read.
pub open spec fn is_sized_log(e: LogEntry) -> bool {
    e.name is Some && e.size is Some && exists|middle: Seq<char>|
        e.name->0@ == #[trigger] ("cli-"@ + middle + ".log"@)
}

/// The entry is a log of the agent's that is larger than in the snapshot, by
/// however little.
pub open spec fn has_grown(e: LogEntry, snapshot: Map<Seq<char>, u64>) -> bool {
    is_sized_log(e) && e.modified is Some && e.size->0 > old_size(snapshot, e.name->0@)
}

/// The agent's logs are the files named `cli-`, anything, `.log`, and no others.
pub proof fn law_log_names(name: Seq<char>)
    ensures
        log_scan::is_log_name(name) <==> exists|middle: Seq<char>|
            name == #[trigger] ("cli-"@ + middle + ".log"@),
{
    if log_scan::is_log_name(name) {
        lemma_log_name_splits(name);
    }
    assert forall|middle: Seq<char>| name == #[trigger] ("cli-"@ + middle + ".log"@) implies
        log_scan::is_log_name(name) by {
        let a = "cli-"@;
        let z = ".log"@;
        text_laws::law_occurrence(a + middle, z, Seq::empty());
        text_laws::law_occurrence(Seq::empty(), a, middle + z);
        assert(a + middle + z =~= a + (middle + z));
    }
}

/// The parts of a log's name.
proof fn lemma_log_name_splits(name: Seq<char>)
    requires
        log_scan::is_log_name(name),
    ensures
        name.len() >= 8,
        name == "cli-"@ + name.subrange(4, name.len() - 4) + ".log"@,
{
    let a = "cli-"@;
    let z = ".log"@;
    let n = name.len() as int;
    assert(a.len() == 4 && a[0] == 'c' && a[1] == 'l' && a[2] == 'i' && a[3] == '-') by {
        reveal_strlit("cli-");
    }
    assert(z.len() == 4 && z[0] == '.') by {
        reveal_strlit(".log");
    }
    assert(text::occurs_at(name, a, 0));
    assert(text::occurs_at(name, z, n - 4));
    assert(n >= 8) by {
        assert(name[n - 4] == name.subrange(n - 4, n)[0]);
        if n < 8 {
            assert(name[n - 4] == name.subrange(0, 4)[n - 4]);
        }
    }
    lemma_between(name, a, z);
}

/// What stands between a beginning and an end.
proof fn lemma_between(s: Seq<char>, a: Seq<char>, z: Seq<char>)
    requires
        a.len() + z.len() <= s.len(),
        s.subrange(0, a.len() as int) == a,
        s.subrange(s.len() - z.len(), s.len() as int) == z,
    ensures
        s == a + s.subrange(a.len() as int, s.len() - z.len()) + z,
{
    let n = s.len() as int;
    assert(s =~= s.subrange(0, a.len() as int) + s.subrange(a.len() as int, n - z.len())
        + s.subrange(n - z.len(), n));
}

/// What an entry that has grown makes of itself.
proof fn lemma_grown(entries: Seq<LogEntry>, i: int, snapshot: Map<Seq<char>, u64>)
    requires
        0 <= i < entries.len() <= usize::MAX,
    ensures
        log_scan::candidate_at(entries, i, snapshot) == (if has_grown(entries[i], snapshot) {
            Some(
                Candidate {
                    entry: i as usize,
                    modified: entries[i].modified->0,
                    offset: old_size(snapshot, entries[i].name->0@),
                },
            )
        } else {
            None
        }),
{
    if let Some(name) = entries[i].name {
        law_log_names(name@);
    }
}

/// Every candidate among the first entries.
proof fn lemma_candidates_hold(
    entries: Seq<LogEntry>,
    n: int,
    i: int,
    snapshot: Map<Seq<char>, u64>,
)
    requires
        0 <= i < n <= entries.len() <= usize::MAX,
        log_scan::candidate_at(entries, i, snapshot) is Some,
    ensures
        log_scan::candidates(entries, n, snapshot).contains(
            log_scan::candidate_at(entries, i, snapshot)->0,
        ),
    decreases n,
{
    let c = log_scan::candidate_at(entries, i, snapshot)->0;
    let all = log_scan::candidates(entries, n, snapshot);
    let before = log_scan::candidates(entries, n - 1, snapshot);
    if i == n - 1 {
        assert(all[all.len() - 1] == c);
    } else {
        lemma_candidates_hold(entries, n - 1, i, snapshot);
        let j = choose|j: int| 0 <= j < before.len() && before[j] == c;
        assert(all[j] == c);
    }
}

/// Nothing is lost when one is inserted.
proof fn lemma_insert_keeps(s: Seq<Candidate>, c: Candidate, x: Candidate)
    requires
        x == c || s.contains(x),
    ensures
        log_scan::insert_by_age(s, c).contains(x),
    decreases s.len(),
{
    let r = log_scan::insert_by_age(s, c);
    if s.len() == 0 || s.last().modified >= c.modified {
        assert(r == s.push(c));
        if x == c {
            assert(r[s.len() as int] == x);
        } else {
            let j = choose|j: int| 0 <= j < s.len() && s[j] == x;
            assert(r[j] == x);
        }
    } else {
        let rest = s.drop_last();
        let q = log_scan::insert_by_age(rest, c);
        if x != c && x == s.last() {
            assert(r[q.len() as int] == x);
        } else {
            if x != c {
                let j = choose|j: int| 0 <= j < s.len() && s[j] == x;
                assert(rest[j] == x);
            }
            lemma_insert_keeps(rest, c, x);
            let j = choose|j: int| 0 <= j < q.len() && q[j] == x;
            assert(r[j] == x);
        }
    }
}

/// Nothing is lost when they are put in order.
proof fn lemma_order_keeps(s: Seq<Candidate>, x: Candidate)
    requires
        s.contains(x),
    ensures
        log_scan::newest_first(s).contains(x),
    decreases s.len(),
{
    let j = choose|j: int| 0 <= j < s.len() && s[j] == x;
    let rest = s.drop_last();
    if j < rest.len() {
        assert(rest[j] == x);
        lemma_order_keeps(rest, x);
    }
    lemma_insert_keeps(log_scan::newest_first(rest), s.last(), x);
}

/// The one comes before the other: it is newer, or as new and listed before it.
pub open spec fn comes_before(a: Candidate, b: Candidate) -> bool {
    a.modified > b.modified || (a.modified == b.modified && a.entry < b.entry)
}

/// Each comes before all that follow it.
pub open spec fn is_in_order(s: Seq<Candidate>) -> bool {
    forall|i: int, j: int| 0 <= i < j < s.len() ==> #[trigger] comes_before(s[i], s[j])
}

proof fn lemma_insert_in_order(s: Seq<Candidate>, c: Candidate)
    requires
        is_in_order(s),
        forall|i: int| 0 <= i < s.len() ==> (#[trigger] s[i]).entry < c.entry,
    ensures
        is_in_order(log_scan::insert_by_age(s, c)),
    decreases s.len(),
{
    let r = log_scan::insert_by_age(s, c);
    if s.len() == 0 || s.last().modified >= c.modified {
        assert forall|i: int, j: int| 0 <= i < j < r.len() implies #[trigger] comes_before(
            r[i],
            r[j],
        ) by {
            if j < s.len() {
                assert(comes_before(s[i], s[j]));
            } else if i < s.len() - 1 {
                assert(comes_before(s[i], s[s.len() - 1]));
            }
        }
    } else {
        let rest = s.drop_last();
        assert forall|i: int, j: int| 0 <= i < j < rest.len() implies #[trigger] comes_before(
            rest[i],
            rest[j],
        ) by {
            assert(comes_before(s[i], s[j]));
        }
        lemma_insert_in_order(rest, c);
        let q = log_scan::insert_by_age(rest, c);
        log_scan::lemma_insert_members(rest, c);
        assert forall|i: int, j: int| 0 <= i < j < r.len() implies #[trigger] comes_before(
            r[i],
            r[j],
        ) by {
            if j < q.len() {
                assert(comes_before(q[i], q[j]));
            } else {
                assert(q.contains(q[i]));
                if q[i] != c {
                    let m = choose|m: int| 0 <= m < rest.len() && rest[m] == q[i];
                    assert(comes_before(s[m], s[s.len() - 1]));
                }
            }
        }
    }
}

proof fn lemma_candidates_in_order(
    entries: Seq<LogEntry>,
    n: int,
    snapshot: Map<Seq<char>, u64>,
)
    requires
        n <= entries.len() <= usize::MAX,
    ensures
        is_in_order(log_scan::newest_first(log_scan::candidates(entries, n, snapshot))),
    decreases n,
{
    if n > 0 {
        lemma_candidates_in_order(entries, n - 1, snapshot);
        let before = log_scan::candidates(entries, n - 1, snapshot);
        if let Some(c) = log_scan::candidate_at(entries, n - 1, snapshot) {
            let q = log_scan::newest_first(before);
            assert(before.push(c).drop_last() =~= before);
            log_scan::lemma_newest_first_members(before);
            assert forall|i: int| 0 <= i < q.len() implies (#[trigger] q[i]).entry < c.entry by {
                assert(q.contains(q[i]));
                log_scan::lemma_candidates_members(entries, n - 1, snapshot, q[i]);
            }
            lemma_insert_in_order(q, c);
        }
    }
}

/// The search is complete: every log that has grown since the snapshot, by
/// however little, is to be read from where it ended then on, unless three that
/// come before it are read in its place. Logs are read in order, the newest first
/// and those of one time as they are listed, and none is read twice.
pub proof fn law_every_grown_log_is_searched(
    entries: Seq<LogEntry>,
    snapshot: Map<Seq<char>, u64>,
    i: int,
)
    requires
        entries.len() <= usize::MAX,
        0 <= i < entries.len(),
        has_grown(entries[i], snapshot),
    ensures
        ({
            let order = log_scan::scan_order(entries, snapshot);
            let c = Candidate {
                entry: i as usize,
                modified: entries[i].modified->0,
                offset: old_size(snapshot, entries[i].name->0@),
            };
            &&& order.contains(c) || (order.len() == 3 && forall|j: int|
                0 <= j < 3 ==> comes_before(#[trigger] order[j], c))
            &&& is_in_order(order)
            &&& forall|a: int, b: int|
                0 <= a < b < order.len() ==> order[a].entry != order[b].entry
        }),
{
    let order = log_scan::scan_order(entries, snapshot);
    let found = log_scan::candidates(entries, entries.len() as int, snapshot);
    let all = log_scan::newest_first(found);
    lemma_grown(entries, i, snapshot);
    let c = log_scan::candidate_at(entries, i, snapshot)->0;
    lemma_candidates_hold(entries, entries.len() as int, i, snapshot);
    lemma_order_keeps(found, c);
    lemma_candidates_in_order(entries, entries.len() as int, snapshot);
    assert forall|a: int, b: int| 0 <= a < b < order.len() implies #[trigger] comes_before(
        order[a],
        order[b],
    ) by {
        assert(comes_before(all[a], all[b]));
    }
    assert forall|a: int, b: int| 0 <= a < b < order.len() implies order[a].entry
        != order[b].entry by {
        law_searched_log_has_grown(entries, snapshot, a);
        law_searched_log_has_grown(entries, snapshot, b);
        assert(comes_before(order[a], order[b]));
    }
    let at = choose|at: int| 0 <= at < all.len() && all[at] == c;
    if at < order.len() {
        assert(order[at] == c);
    } else {
        assert forall|j: int| 0 <= j < 3 implies comes_before(#[trigger] order[j], c) by {
            assert(comes_before(all[j], all[at]));
        }
    }
}

/// Where no more than three logs have grown, all of them are read.
pub proof fn law_few_grown_logs_are_all_searched(
    entries: Seq<LogEntry>,
    snapshot: Map<Seq<char>, u64>,
    a: int,
    b: int,
    c: int,
    i: int,
)
    requires
        entries.len() <= usize::MAX,
        forall|j: int|
            0 <= j < entries.len() && has_grown(#[trigger] entries[j], snapshot) ==> j == a || j
                == b || j == c,
        0 <= i < entries.len(),
        has_grown(entries[i], snapshot),
    ensures
        log_scan::scan_order(entries, snapshot).contains(
            Candidate {
                entry: i as usize,
                modified: entries[i].modified->0,
                offset: old_size(snapshot, entries[i].name->0@),
            },
        ),
{
    let order = log_scan::scan_order(entries, snapshot);
    law_every_grown_log_is_searched(entries, snapshot, i);
    if order.len() == 3 {
        assert forall|j: int| 0 <= j < 3 implies {
            let e = (#[trigger] order[j]).entry as int;
            (e == a || e == b || e == c) && order[j].modified == entries[e].modified->0
        } by {
            law_searched_log_has_grown(entries, snapshot, j);
        }
        assert(comes_before(order[0], order[1]));
        assert(comes_before(order[1], order[2]));
        assert(comes_before(order[0], order[2]));
    }
}

/// What is read has grown since the snapshot, and is read from where it ended
/// then on. Newer logs come first, and three are read at most.
pub proof fn law_searched_log_has_grown(
    entries: Seq<LogEntry>,
    snapshot: Map<Seq<char>, u64>,
    j: int,
)
    requires
        entries.len() <= usize::MAX,
        0 <= j < log_scan::scan_order(entries, snapshot).len(),
    ensures
        ({
            let order = log_scan::scan_order(entries, snapshot);
            let c = order[j];
            &&& order.len() <= 3
            &&& c.entry < entries.len()
            &&& has_grown(entries[c.entry as int], snapshot)
            &&& c.modified == entries[c.entry as int].modified->0
            &&& c.offset == old_size(snapshot, entries[c.entry as int].name->0@)
            &&& forall|k: int| j <= k < order.len() ==> c.modified >= (#[trigger] order[k]).modified
        }),
{
    let order = log_scan::scan_order(entries, snapshot);
    let found = log_scan::candidates(entries, entries.len() as int, snapshot);
    let all = log_scan::newest_first(found);
    let c = order[j];
    assert(all[j] == c);
    assert(all.contains(c));
    log_scan::lemma_newest_first_members(found);
    assert(found.contains(c));
    log_scan::lemma_candidates_members(entries, entries.len() as int, snapshot, c);
    lemma_grown(entries, c.entry as int, snapshot);
    log_scan::law_newest_logs_first(found);
    assert forall|k: int| j <= k < order.len() implies c.modified
        >= (#[trigger] order[k]).modified by {
        assert(all[k] == order[k]);
    }
}

/// A snapshot holds the agent's logs, all of them and nothing else, with a size
/// that one of that name has.
pub proof fn law_snapshot_holds_the_logs(entries: Seq<LogEntry>, name: Seq<char>)
    ensures
        log_scan::log_sizes(entries).contains_key(name) <==> exists|i: int|
            0 <= i < entries.len() && is_sized_log(#[trigger] entries[i]) && entries[i].name->0@
                == name,
        log_scan::log_sizes(entries).contains_key(name) ==> exists|i: int|
            0 <= i < entries.len() && is_sized_log(#[trigger] entries[i]) && entries[i].name->0@
                == name && entries[i].size->0 == log_scan::log_sizes(entries)[name],
    decreases entries.len(),
{
    if entries.len() > 0 {
        let rest = entries.drop_last();
        let last = entries.last();
        law_snapshot_holds_the_logs(rest, name);
        assert(last == entries[entries.len() - 1]);
        if let Some(n) = last.name {
            law_log_names(n@);
        }
        assert(log_scan::log_size(last) is Some <==> is_sized_log(last));
        if log_scan::log_sizes(rest).contains_key(name) {
            let i = choose|i: int|
                0 <= i < rest.len() && is_sized_log(#[trigger] rest[i]) && rest[i].name->0@ == name
                    && rest[i].size->0 == log_scan::log_sizes(rest)[name];
            assert(entries[i] == rest[i]);
        }
        assert forall|i: int|
            0 <= i < entries.len() && is_sized_log(#[trigger] entries[i]) && entries[i].name->0@
                == name implies log_scan::log_sizes(entries).contains_key(name) by {
            if i < rest.len() {
                assert(rest[i] == entries[i]);
            }
        }
    }
}

/// Where names are distinct, the snapshot holds the size of each log.
pub proof fn law_snapshot_holds_the_sizes(entries: Seq<LogEntry>, i: int)
    requires
        log_scan::distinct_names(entries),
        0 <= i < entries.len(),
        is_sized_log(entries[i]),
    ensures
        log_scan::log_sizes(entries).contains_key(entries[i].name->0@),
        log_scan::log_sizes(entries)[entries[i].name->0@] == entries[i].size->0,
{
    law_log_names(entries[i].name->0@);
    log_scan::lemma_log_sizes(entries, i);
}

/// Reading begins behind what was there before, or 256 KiB from the end,
/// whichever is nearer to the end.
pub proof fn law_tail_start(offset: u64, end: u64)
    ensures
        log_scan::tail_start(offset, end) == (if end > offset + 262144 {
            end - 262144
        } else {
            offset as int
        }),
{
}

/// A search begins with the first log in order, and nothing found.
pub proof fn law_search_begins(entries: Seq<LogEntry>, snapshot: Map<Seq<char>, u64>)
    ensures
        ({
            let s = log_scan::search_begun(entries, snapshot);
            &&& s.order == log_scan::scan_order(entries, snapshot)
            &&& s.found is None
            &&& s.next == 0
            &&& s.order.len() > 0 ==> log_scan::next_log(s) == Some(s.order[0])
        }),
{
}

/// An error that is in what one log gained during the turn is found, where that
/// log is the only one that grew.
pub proof fn law_only_grown_log_decides(
    entries: Seq<LogEntry>,
    snapshot: Map<Seq<char>, u64>,
    i: int,
    gained: Seq<char>,
)
    requires
        entries.len() <= usize::MAX,
        0 <= i < entries.len(),
        has_grown(entries[i], snapshot),
        forall|j: int|
            0 <= j < entries.len() && has_grown(#[trigger] entries[j], snapshot) ==> j == i,
    ensures
        ({
            let s = log_scan::search_begun(entries, snapshot);
            &&& log_scan::next_log(s) == Some(
                Candidate {
                    entry: i as usize,
                    modified: entries[i].modified->0,
                    offset: old_size(snapshot, entries[i].name->0@),
                },
            )
            &&& log_scan::after_log(s, Some(gained)).found == agy_log::error_message(gained)
            &&& log_scan::next_log(log_scan::after_log(s, Some(gained))) is None
        }),
{
    let order = log_scan::scan_order(entries, snapshot);
    law_few_grown_logs_are_all_searched(entries, snapshot, i, i, i, i);
    law_every_grown_log_is_searched(entries, snapshot, i);
    assert forall|j: int| 0 <= j < order.len() implies (#[trigger] order[j]).entry == i by {
        law_searched_log_has_grown(entries, snapshot, j);
    }
    if order.len() > 1 {
        assert(order[0].entry != order[1].entry);
    }
    law_searched_log_has_grown(entries, snapshot, 0);
}

/// One step of a search: the pending log is the next in order, and the message
/// in its text, if there is one, is what is found. A log that could not be read
/// is passed over. Once a message is found, or no log is left, nothing changes.
pub proof fn law_search_step(s: log_scan::ScanState, tail: Option<Seq<char>>)
    requires
        0 <= s.next,
    ensures
        s.found is None && s.next < s.order.len() ==> {
            let after = log_scan::after_log(s, tail);
            &&& log_scan::next_log(s) == Some(s.order[s.next])
            &&& after.order == s.order
            &&& after.next == s.next + 1
            &&& tail is None ==> after.found is None
            &&& tail matches Some(t) ==> after.found == agy_log::error_message(t)
        },
        s.found is Some || s.next >= s.order.len() ==> log_scan::next_log(s) is None
            && log_scan::after_log(s, tail) == s,
{
}

/// The phrases that mark an error, the most specific one first.
pub open spec fn phrase(k: int) -> Seq<char> {
    if k == 0 {
        "agent executor error:"@
    } else if k == 1 {
        "model unreachable:"@
    } else {
        "RESOURCE_EXHAUSTED"@
    }
}

/// A log reports an error exactly if one of the phrases stands in it.
pub proof fn law_error_is_reported(content: Seq<char>)
    ensures
        agy_log::error_message(content) is Some <==> text::contains(
            content,
            "agent executor error:"@,
        ) || text::contains(content, "model unreachable:"@) || text::contains(
            content,
            "RESOURCE_EXHAUSTED"@,
        ),
{
    agy_log::lemma_anchored_message_present(content, 0);
    agy_log::lemma_anchored_message_present(content, 1);
    agy_log::lemma_anchored_message_present(content, 2);
}

/// The error that a log reports: of the most specific phrase that stands in it,
/// the last line that holds the phrase, from where it first stands in that line
/// on. White space at the ends goes, so does the repetition behind the first
/// ".: ", and what is over 500 bytes.
pub proof fn law_reported_error(
    earlier: Seq<char>,
    head: Seq<char>,
    k: int,
    rest: Seq<char>,
    later: Seq<char>,
)
    requires
        0 <= k < 3,
        earlier.len() == 0 || earlier.last() == '\n',
        later.len() == 0 || later[0] == '\n',
        text::lacks(head + phrase(k) + rest, '\n'),
        text::find(head + phrase(k) + rest, phrase(k)) == Some(head.len() as int),
        !text::contains(later, phrase(k)),
        forall|j: int|
            0 <= j < k ==> !text::contains(
                earlier + (head + phrase(k) + rest) + later,
                #[trigger] phrase(j),
            ),
    ensures
        ({
            let said = text::trim(phrase(k) + rest);
            agy_log::error_message(earlier + (head + phrase(k) + rest) + later) == Some(
                text::clip(
                    match text::find(said, ".: "@) {
                        Some(d) => said.take(d) + "."@,
                        None => said,
                    },
                    500,
                ),
            )
        }),
{
    let p = phrase(k);
    let line = head + p + rest;
    let content = earlier + line + later;
    agy_log::lemma_anchor(k);
    assert(agy_log::anchors()[k] == p);
    lemma_message_line(head, p, rest, later);
    let tail = line + later;
    let kept = text::lines(tail)[0];
    let below = text::lines(tail).drop_first();
    assert(text::lines(tail) =~= seq![kept] + below);
    lemma_nothing_below(line, later, p);
    agy_log::lemma_last_line_with_concat(seq![kept], below, p);
    assert(seq![kept].drop_last() =~= seq![]);
    assert(agy_log::last_line_with(text::lines(tail), p) == Some(kept));
    assert(content =~= earlier + tail);
    if earlier.len() > 0 {
        text::lemma_lines_concat(earlier, tail);
        agy_log::lemma_last_line_with_concat(text::lines(earlier), text::lines(tail), p);
    } else {
        assert(content =~= tail);
    }
    assert(agy_log::anchored_message(content, p) == Some(agy_log::clean_message(kept, p)));
    assert forall|j: int| 0 <= j < k implies agy_log::anchored_message(
        content,
        #[trigger] agy_log::anchors()[j],
    ) is None by {
        assert(agy_log::anchors()[j] == phrase(j));
        agy_log::lemma_anchored_message_present(content, j);
    }
    assert(k > 0 ==> agy_log::anchored_message(content, agy_log::anchors()[0]) is None);
    assert(k > 1 ==> agy_log::anchored_message(content, agy_log::anchors()[1]) is None);
}

/// The line that holds the phrase, as it is read: what is said from the phrase on
/// is the same, with or without a carriage return at its end.
proof fn lemma_message_line(
    head: Seq<char>,
    p: Seq<char>,
    rest: Seq<char>,
    later: Seq<char>,
)
    requires
        p.len() > 0,
        !text::is_white_space(p[0]),
        !text::is_white_space(p.last()),
        later.len() == 0 || later[0] == '\n',
        text::lacks(head + p + rest, '\n'),
        text::find(head + p + rest, p) == Some(head.len() as int),
    ensures
        ({
            let all = text::lines(head + p + rest + later);
            &&& all.len() > 0
            &&& text::contains(all[0], p)
            &&& text::find(all[0], p) == Some(head.len() as int)
            &&& text::trim(all[0].skip(head.len() as int)) == text::trim(p + rest)
        }),
{
    let line = head + p + rest;
    let n = head.len() as int;
    lemma_first_line(line, later);
    let kept = text::lines(line + later)[0];
    if kept == line {
        assert(line.skip(n) =~= p + rest);
        text_laws::law_occurrence(head, p, rest);
    } else {
        let cut = line.drop_last();
        if rest.len() == 0 {
            assert(line.last() == p.last());
        }
        let less = rest.drop_last();
        assert(cut =~= head + p + less);
        text_laws::law_occurrence(head, p, less);
        text::lemma_find_from(line, p, 0);
        assert forall|j: int| 0 <= j < n implies !#[trigger] text::occurs_at(cut, p, j) by {
            if text::occurs_at(cut, p, j) {
                assert(line.subrange(j, j + p.len()) =~= cut.subrange(j, j + p.len()));
                assert(text::occurs_at(line, p, j));
            }
        }
        text::lemma_find_from_is(cut, p, 0, n);
        assert(cut.skip(n) =~= p + less);
        assert((p + rest).drop_last() =~= p + less);
        assert((p + rest).last() == '\r');
        assert((p + rest)[0] == p[0]);
        assert((p + less)[0] == p[0]);
        assert(text::trim_start(p + rest) == p + rest);
        assert(text::trim_start(p + less) == p + less);
    }
}

/// Where the phrase does not stand behind the line, no later line holds it.
proof fn lemma_nothing_below(line: Seq<char>, later: Seq<char>, p: Seq<char>)
    requires
        line.len() > 0,
        text::lacks(line, '\n'),
        later.len() == 0 || later[0] == '\n',
        p.len() > 0,
        text::lacks(p, '\n'),
        text::lacks(p, '\r'),
        !text::contains(later, p),
    ensures
        agy_log::last_line_with(text::lines(line + later).drop_first(), p) is None,
{
    lemma_first_line(line, later);
    let below = text::lines(line + later).drop_first();
    if later.len() > 0 {
        let rest = later.drop_first();
        text::lemma_contains_in_lines(rest, p);
        assert(later.subrange(1, later.len() as int) =~= rest);
        if text::contains(rest, p) {
            text::lemma_contains_part(later, 1, later.len() as int, p);
        }
        agy_log::lemma_last_line_with(below, p);
        if let Some(found) = agy_log::last_line_with(below, p) {
            let i = choose|i: int|
                0 <= i < below.len() && #[trigger] below[i] == found && forall|j: int|
                    i < j < below.len() ==> !text::contains(#[trigger] below[j], p);
            assert(text::contains(text::lines(rest)[i], p));
        }
    }
}

/// The first line, where a line feed or nothing follows it.
proof fn lemma_first_line(line: Seq<char>, later: Seq<char>)
    requires
        line.len() > 0,
        text::lacks(line, '\n'),
        later.len() == 0 || later[0] == '\n',
    ensures
        text::lines(line + later).len() > 0,
        text::lines(line + later)[0] == line || (line.last() == '\r' && text::lines(
            line + later,
        )[0] == line.drop_last()),
        later.len() == 0 ==> text::lines(line + later).len() == 1,
        later.len() > 0 ==> text::lines(line + later).drop_first() == text::lines(
            later.drop_first(),
        ),
{
    if later.len() == 0 {
        text_laws::law_lines(line, Seq::empty());
        assert(line + later =~= line);
    } else {
        let rest = later.drop_first();
        let kept = text::strip_carriage_return(line);
        text_laws::lemma_line(line, rest);
        assert(line + later =~= line + seq!['\n'] + rest);
        assert((seq![kept] + text::lines(rest)).drop_first() =~= text::lines(rest));
    }
}

} // verus!
