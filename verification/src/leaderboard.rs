//! The leaderboard: one line per player, `name,score`, kept in order of score.
use vstd::prelude::*;
use crate::text::{chars_of, find_in, trim_range, parse_range, decimal_string};

verus! {

/// A player's line on the leaderboard.
pub struct LeaderboardEntry {
    pub name: String,
    pub score: u32,
}

impl LeaderboardEntry {
    /// An entry for `name` with `score`.
    pub fn new(name: String, score: u32) -> (e: LeaderboardEntry)
        ensures
            e.name == name,
            e.score == score,
    {
        LeaderboardEntry { name, score }
    }
}

/// What `str::parse::<u32>` gives for the text.
pub open spec fn parse_u32(s: Seq<char>) -> Option<nat> {
    match crate::text::parse_usize(s) {
        Some(n) => if n <= u32::MAX {
            Some(n)
        } else {
            None
        },
        None => None,
    }
}

/// The name and the score a line holds: the line is split at its commas; the name
/// is the first part, trimmed; the score is the second part, trimmed and read as a
/// number, or 0 when it is not one.
pub open spec fn line_fields(line: Seq<char>) -> (Seq<char>, nat) {
    let p = crate::text::index_of(line, ',')->0;
    let rest = line.subrange(p + 1, line.len() as int);
    let q = match crate::text::index_of(rest, ',') {
        Some(e) => e,
        None => rest.len() as int,
    };
    (
        crate::text::trim(line.take(p)),
        match parse_u32(crate::text::trim(rest.take(q))) {
            Some(n) => n,
            None => 0,
        },
    )
}

/// Reads a line of the leaderboard file; the line holds a comma.
pub fn parse_leaderboard_line(line: &str) -> (e: LeaderboardEntry)
    requires
        crate::text::index_of(line@, ',') is Some,
    ensures
        e.name@ == line_fields(line@).0,
        e.score == line_fields(line@).1,
{
    let v = chars_of(line);
    let n = v.len();
    proof {
        assert(v@.subrange(0, n as int) =~= v@);
    }
    let p = match find_in(&v, 0, n, ',') {
        Some(p) => p,
        None => 0,
    };
    let end = match find_in(&v, p + 1, n, ',') {
        Some(q) => p + 1 + q,
        None => n,
    };
    let ghost rest = v@.subrange(p + 1, n as int);
    proof {
        assert(v@.subrange(0, p as int) =~= v@.take(p as int));
        assert(v@.subrange(p + 1, end as int) =~= rest.take(end - p - 1));
    }
    let (a, b) = trim_range(&v, 0, p);
    let name = String::from_str(line.substring_char(a, b));
    let (c, d) = trim_range(&v, p + 1, end);
    let score: u32 = match parse_range(&v, c, d) {
        Some(x) => {
            if x <= 4294967295 {
                x as u32
            } else {
                0
            }
        },
        None => 0,
    };
    LeaderboardEntry { name, score }
}

/// The entries in order with `e` put after every entry whose score is not above
/// its own, and before the rest.
pub open spec fn insert_by_score(s: Seq<LeaderboardEntry>, e: LeaderboardEntry) -> Seq<LeaderboardEntry>
    decreases s.len(),
{
    if s.len() == 0 {
        seq![e]
    } else if s.last().score <= e.score {
        s.push(e)
    } else {
        insert_by_score(s.drop_last(), e).push(s.last())
    }
}

/// The entries ordered by score, entries with equal scores keeping their order.
pub open spec fn sort_by_score(s: Seq<LeaderboardEntry>) -> Seq<LeaderboardEntry>
    decreases s.len(),
{
    if s.len() == 0 {
        s
    } else {
        insert_by_score(sort_by_score(s.drop_last()), s.last())
    }
}

/// The scores do not go down along the entries.
pub open spec fn scores_ascending(s: Seq<LeaderboardEntry>) -> bool {
    forall|i: int, j: int| 0 <= i <= j < s.len() ==> s[i].score <= s[j].score
}

proof fn lemma_insert_at(s: Seq<LeaderboardEntry>, e: LeaderboardEntry, j: int)
    requires
        0 <= j <= s.len(),
        forall|k: int| j <= k < s.len() ==> (#[trigger] s[k]).score > e.score,
        j > 0 ==> s[j - 1].score <= e.score,
    ensures
        insert_by_score(s, e) == s.take(j).push(e) + s.skip(j),
    decreases s.len(),
{
    if s.len() == 0 {
        assert(s.take(j).push(e) + s.skip(j) =~= seq![e]);
    } else if s.last().score <= e.score {
        assert(j == s.len());
        assert(s.take(j).push(e) + s.skip(j) =~= s.push(e));
    } else {
        let s1 = s.drop_last();
        assert forall|k: int| j <= k < s1.len() implies (#[trigger] s1[k]).score > e.score by {
            assert(s1[k] == s[k]);
        }
        lemma_insert_at(s1, e, j);
        assert(s.take(j).push(e) + s.skip(j) =~= (s1.take(j).push(e) + s1.skip(j)).push(s.last()));
    }
}

/// Puts `e` into the entries after every entry whose score is not above its own.
fn insert_entry(entries: &mut Vec<LeaderboardEntry>, e: LeaderboardEntry)
    ensures
        final(entries)@ == insert_by_score(old(entries)@, e),
{
    let ghost s = entries@;
    let mut j = entries.len();
    while j > 0 && entries[j - 1].score > e.score
        invariant
            s == entries@,
            j <= s.len(),
            forall|k: int| j <= k < s.len() ==> (#[trigger] s[k]).score > e.score,
        decreases j,
    {
        j -= 1;
    }
    proof {
        lemma_insert_at(s, e, j as int);
        assert(s.take(j as int).push(e) + s.skip(j as int) =~= s.insert(j as int, e));
    }
    entries.insert(j, e);
}

/// Orders the entries by score, lowest first; entries with equal scores keep their
/// order.
pub fn sort_entries(entries: Vec<LeaderboardEntry>) -> (sorted: Vec<LeaderboardEntry>)
    ensures
        sorted@ == sort_by_score(entries@),
{
    let ghost s = entries@;
    let total = entries.len();
    let mut rest = entries;
    let mut sorted: Vec<LeaderboardEntry> = Vec::new();
    let mut i: usize = 0;
    while rest.len() > 0
        invariant
            i <= s.len(),
            s.len() == total,
            rest@ == s.skip(i as int),
            sorted@ == sort_by_score(s.take(i as int)),
        decreases rest@.len(),
    {
        let e = rest.remove(0);
        proof {
            assert(e == s[i as int]);
            assert(s.take(i + 1).drop_last() =~= s.take(i as int));
            assert(s.take(i + 1).last() == e);
            assert(rest@ =~= s.skip(i + 1));
        }
        insert_entry(&mut sorted, e);
        i += 1;
    }
    proof {
        assert(s.take(i as int) =~= s);
    }
    sorted
}

/// Sorting keeps the entries: as many, each one of the given entries.
pub proof fn lemma_sort_keeps_entries(s: Seq<LeaderboardEntry>)
    ensures
        sort_by_score(s).len() == s.len(),
        forall|i: int| 0 <= i < s.len() ==> s.contains(#[trigger] sort_by_score(s)[i]),
    decreases s.len(),
{
    if s.len() > 0 {
        let s1 = s.drop_last();
        lemma_sort_keeps_entries(s1);
        let t = sort_by_score(s1);
        lemma_insert_keeps_entries(t, s.last());
        assert forall|i: int| 0 <= i < s.len() implies s.contains(#[trigger] sort_by_score(s)[i]) by {
            let x = sort_by_score(s)[i];
            if x == s.last() {
                assert(s[s.len() - 1] == x);
            } else {
                let k = choose|k: int| 0 <= k < t.len() && t[k] == x;
                assert(s1.contains(t[k]));
                let j = choose|j: int| 0 <= j < s1.len() && s1[j] == t[k];
                assert(s[j] == x);
            }
        }
    }
}

proof fn lemma_insert_keeps_entries(s: Seq<LeaderboardEntry>, e: LeaderboardEntry)
    ensures
        insert_by_score(s, e).len() == s.len() + 1,
        forall|i: int| 0 <= i < s.len() + 1 ==> #[trigger] insert_by_score(s, e)[i] == e || s.contains(insert_by_score(s, e)[i]),
    decreases s.len(),
{
    if s.len() > 0 && s.last().score > e.score {
        let s1 = s.drop_last();
        lemma_insert_keeps_entries(s1, e);
        assert forall|i: int| 0 <= i < s.len() + 1 implies #[trigger] insert_by_score(s, e)[i] == e || s.contains(insert_by_score(s, e)[i]) by {
            let x = insert_by_score(s, e)[i];
            if i < s.len() {
                assert(x == insert_by_score(s1, e)[i]);
                if x != e {
                    let j = choose|j: int| 0 <= j < s1.len() && s1[j] == x;
                    assert(s[j] == x);
                }
            } else {
                assert(s[s.len() - 1] == x);
            }
        }
    } else if s.len() > 0 {
        assert forall|i: int| 0 <= i < s.len() + 1 implies #[trigger] insert_by_score(s, e)[i] == e || s.contains(insert_by_score(s, e)[i]) by {
            if i < s.len() {
                assert(s[i] == insert_by_score(s, e)[i]);
            }
        }
    }
}

/// Sorting leaves the scores in ascending order.
pub proof fn lemma_sort_ascending(s: Seq<LeaderboardEntry>)
    ensures
        scores_ascending(sort_by_score(s)),
    decreases s.len(),
{
    if s.len() > 0 {
        lemma_sort_ascending(s.drop_last());
        lemma_insert_ascending(sort_by_score(s.drop_last()), s.last());
    }
}

proof fn lemma_insert_ascending(s: Seq<LeaderboardEntry>, e: LeaderboardEntry)
    requires
        scores_ascending(s),
    ensures
        scores_ascending(insert_by_score(s, e)),
        forall|i: int| 0 <= i < insert_by_score(s, e).len() ==> (#[trigger] insert_by_score(s, e)[i]).score <= if s.len() > 0 && s.last().score > e.score {
            s.last().score
        } else {
            e.score
        },
    decreases s.len(),
{
    lemma_insert_keeps_entries(s, e);
    if s.len() > 0 && s.last().score > e.score {
        let s1 = s.drop_last();
        lemma_insert_ascending(s1, e);
        let r1 = insert_by_score(s1, e);
        assert forall|i: int| 0 <= i < r1.len() implies (#[trigger] r1[i]).score <= s.last().score by {
            if s1.len() > 0 && s1.last().score > e.score {
                assert(s1.last() == s[s.len() - 2]);
            }
        }
    }
}

/// The first entry named `name`, from position `i` on.
pub open spec fn first_named_from(s: Seq<LeaderboardEntry>, name: Seq<char>, i: int) -> Option<int>
    decreases s.len() - i,
{
    if i < 0 || i >= s.len() {
        None
    } else if s[i].name@ == name {
        Some(i)
    } else {
        first_named_from(s, name, i + 1)
    }
}

/// The board `new` is `s` with `score` added to the first entry named `name`, or
/// with a new entry for `name` at the end when there is none.
pub open spec fn score_added(s: Seq<LeaderboardEntry>, name: Seq<char>, score: u32, new: Seq<LeaderboardEntry>) -> bool {
    match first_named_from(s, name, 0) {
        Some(k) => new == s.update(k, LeaderboardEntry { score: (s[k].score + score) as u32, ..s[k] }),
        None => {
            &&& new.len() == s.len() + 1
            &&& new.take(s.len() as int) == s
            &&& new.last().name@ == name
            &&& new.last().score == score
        },
    }
}

proof fn lemma_first_named_from(s: Seq<LeaderboardEntry>, name: Seq<char>, i: int)
    requires
        0 <= i,
    ensures
        first_named_from(s, name, i) matches Some(k) ==> i <= k < s.len() && s[k].name@ == name,
    decreases s.len() - i,
{
    if i < s.len() && s[i].name@ != name {
        lemma_first_named_from(s, name, i + 1);
    }
}

/// Adds `score` to the first entry named `name`, or adds an entry for `name` at the
/// end when there is none.
pub fn add_score(board: &mut Vec<LeaderboardEntry>, name: &str, score: u32)
    requires
        first_named_from(old(board)@, name@, 0) matches Some(k) ==> old(board)@[k].score + score <= u32::MAX,
    ensures
        score_added(old(board)@, name@, score, final(board)@),
{
    let ghost s = board@;
    proof {
        lemma_first_named_from(s, name@, 0);
    }
    let target = String::from_str(name);
    let mut i: usize = 0;
    while i < board.len()
        invariant
            s == board@,
            s == old(board)@,
            target@ == name@,
            i <= s.len(),
            first_named_from(s, name@, i as int) == first_named_from(s, name@, 0),
            first_named_from(s, name@, 0) matches Some(k) ==> s[k].score + score <= u32::MAX,
        decreases s.len() - i,
    {
        if board[i].name == target {
            board[i].score += score;
            proof {
                assert(board@ =~= s.update(i as int, LeaderboardEntry { score: (s[i as int].score + score) as u32, ..s[i as int] }));
            }
            return;
        }
        i += 1;
    }
    let entry = LeaderboardEntry::new(target, score);
    board.push(entry);
    proof {
        assert(board@.take(s.len() as int) =~= s);
    }
}

/// The entries in the opposite order.
pub fn reverse_entries(entries: Vec<LeaderboardEntry>) -> (r: Vec<LeaderboardEntry>)
    ensures
        r@ == entries@.reverse(),
{
    let ghost s = entries@;
    let mut rest = entries;
    let mut r: Vec<LeaderboardEntry> = Vec::new();
    while rest.len() > 0
        invariant
            rest@.len() <= s.len(),
            rest@ == s.take(rest@.len() as int),
            r@ == s.skip(rest@.len() as int).reverse(),
        decreases rest@.len(),
    {
        let e = rest.pop().unwrap();
        r.push(e);
        proof {
            assert(rest@ =~= s.take(rest@.len() as int));
            assert(r@ =~= s.skip(rest@.len() as int).reverse());
        }
    }
    proof {
        assert(s.skip(0) =~= s);
    }
    r
}

/// The line of the leaderboard file for an entry: its name, a comma, its score.
pub open spec fn entry_line(e: LeaderboardEntry) -> Seq<char> {
    e.name@ + seq![','] + crate::text::decimal(e.score as nat)
}

/// The line of the leaderboard file for `entry`.
pub fn leaderboard_line(entry: &LeaderboardEntry) -> (line: String)
    ensures
        line@ == entry_line(*entry),
{
    let mut line = entry.name.clone();
    line.append(",");
    let digits = decimal_string(entry.score as u64);
    line.append(digits.as_str());
    proof {
        reveal_strlit(",");
    }
    assert(line@ =~= entry_line(*entry));
    line
}

/// The entries `parsed` are read from `lines`, one from each.
pub open spec fn read_from(lines: Seq<String>, parsed: Seq<LeaderboardEntry>) -> bool {
    &&& parsed.len() == lines.len()
    &&& forall|k: int| 0 <= k < lines.len() ==> (#[trigger] parsed[k]).name@ == line_fields(lines[k]@).0 && parsed[k].score
        == line_fields(lines[k]@).1
}

/// Adds `in_score` to the player `in_name` on the leaderboard held by `lines`, and
/// returns the new lines: the entries are read and sorted by score, their order is
/// turned round so that the highest score comes first, the score is added to that
/// player's first entry (or the player gets an entry at the end), and each entry
/// is written as a line.
pub fn add_leaderboard_data(lines: &Vec<String>, in_name: &str, in_score: u32) -> (out: Vec<String>)
    requires
        forall|k: int| 0 <= k < lines@.len() ==> crate::text::index_of((#[trigger] lines@[k])@, ',') is Some,
        forall|k: int| 0 <= k < lines@.len() && line_fields((#[trigger] lines@[k])@).0 == in_name@ ==> line_fields(
            lines@[k]@,
        ).1 + in_score <= u32::MAX,
    ensures
        exists|parsed: Seq<LeaderboardEntry>, board: Seq<LeaderboardEntry>|
            {
                &&& read_from(lines@, parsed)
                &&& score_added(sort_by_score(parsed).reverse(), in_name@, in_score, board)
                &&& out@.len() == board.len()
                &&& forall|k: int| 0 <= k < board.len() ==> (#[trigger] out@[k])@ == entry_line(board[k])
            },
{
    let mut entries: Vec<LeaderboardEntry> = Vec::new();
    let mut i: usize = 0;
    while i < lines.len()
        invariant
            i <= lines@.len(),
            forall|k: int| 0 <= k < lines@.len() ==> crate::text::index_of((#[trigger] lines@[k])@, ',') is Some,
            entries@.len() == i,
            forall|k: int| 0 <= k < i ==> (#[trigger] entries@[k]).name@ == line_fields(lines@[k]@).0 && entries@[k].score
                == line_fields(lines@[k]@).1,
        decreases lines@.len() - i,
    {
        let e = parse_leaderboard_line(lines[i].as_str());
        entries.push(e);
        i += 1;
    }
    let ghost parsed = entries@;
    let sorted = sort_entries(entries);
    let mut board = reverse_entries(sorted);
    let ghost r = board@;
    proof {
        lemma_sort_keeps_entries(parsed);
        lemma_first_named_from(r, in_name@, 0);
        if let Some(k) = first_named_from(r, in_name@, 0) {
            let x = r[k];
            assert(x == sort_by_score(parsed)[sort_by_score(parsed).len() - 1 - k]);
            assert(parsed.contains(x));
            let j = choose|j: int| 0 <= j < parsed.len() && parsed[j] == x;
            assert(line_fields(lines@[j]@).0 == in_name@);
        }
    }
    add_score(&mut board, in_name, in_score);
    let mut out: Vec<String> = Vec::new();
    let mut j: usize = 0;
    while j < board.len()
        invariant
            j <= board@.len(),
            out@.len() == j,
            forall|k: int| 0 <= k < j ==> (#[trigger] out@[k])@ == entry_line(board@[k]),
        decreases board@.len() - j,
    {
        let line = leaderboard_line(&board[j]);
        out.push(line);
        j += 1;
    }
    proof {
        assert(read_from(lines@, parsed));
    }
    out
}

} // verus!
