//! Log-line parsing for the log viewer: the bracketed and space-separated
//! formats written by the logging plugin, entry-id rendering, and the
//! pagination applied when the log file is read back.
//!
//! Reading the log file and writing the clear marker are file work done
//! outside the library; the lines and the resulting entries pass through
//! here as plain values.

use std::collections::HashMap;
use vstd::prelude::*;
use crate::text::{
    ascii_upper, bracket_trimmed, dec_seq, find_from, lemma_rfind_ch, rfind_ch, str_eq,
    trim_brackets, trim_str, trimmed, u64_to_dec, upper_seq,
};

verus! {

// ---------------------------------------------------------------------------
// Records
// ---------------------------------------------------------------------------

/// A single log entry shown in the log viewer.
#[derive(Debug)]
pub struct LogEntry {
    pub id: String,
    pub ts: String,
    pub level: String,
    pub source: String,
    pub message: String,
    pub meta: Option<HashMap<String, String>>,
}

/// Result of reading the log file back.
#[derive(Debug)]
pub struct LogResult {
    pub success: bool,
    pub count: usize,
    pub logs: Vec<LogEntry>,
}

// ---------------------------------------------------------------------------
// Entry ids
// ---------------------------------------------------------------------------

/// `s` left-padded with zeros to at least four characters.
pub open spec fn zero_pad4(s: Seq<char>) -> Seq<char> {
    if s.len() >= 4 {
        s
    } else {
        Seq::new((4 - s.len()) as nat, |i: int| '0') + s
    }
}

/// The id of the entry parsed from the line at `index`: an L- prefix and
/// the one-based line number, zero-padded to four digits.
pub open spec fn entry_id_seq(index: nat) -> Seq<char> {
    "L-"@ + zero_pad4(dec_seq(index + 1))
}

/// Renders the id of the entry parsed from the line at `index`.
pub fn entry_id(index: usize) -> (r: String)
    requires
        index < usize::MAX,
    ensures
        r@ == entry_id_seq(index as nat),
{
    let digits = u64_to_dec(index as u64 + 1);
    let dl = digits.as_str().unicode_len();
    let mut s = "L-".to_owned();
    proof {
        assert(s@ =~= "L-"@ + Seq::new(0, |i: int| '0'));
    }
    let mut k: usize = dl;
    while k < 4
        invariant
            dl == digits@.len(),
            digits@ == dec_seq((index + 1) as nat),
            dl <= k,
            k <= 4 || k == dl,
            s@ == "L-"@ + Seq::new((k - dl) as nat, |i: int| '0'),
        decreases 4 - k,
    {
        s.append("0");
        proof {
            reveal_strlit("0");
            assert(s@ =~= "L-"@ + Seq::new((k + 1 - dl) as nat, |i: int| '0'));
        }
        k = k + 1;
    }
    s.append(digits.as_str());
    proof {
        if dl >= 4 {
            assert(zero_pad4(digits@) == digits@);
            assert(s@ =~= "L-"@ + zero_pad4(dec_seq((index + 1) as nat)));
        } else {
            assert(s@ =~= "L-"@ + (Seq::new((4 - dl) as nat, |i: int| '0') + digits@));
        }
    }
    s
}

// ---------------------------------------------------------------------------
// Log levels
// ---------------------------------------------------------------------------

/// Whether `s`, upper-cased, is one of the recognized log levels.
pub open spec fn valid_level_spec(s: Seq<char>) -> bool {
    let u = upper_seq(s);
    ||| u == "TRACE"@
    ||| u == "DEBUG"@
    ||| u == "INFO"@
    ||| u == "WARN"@
    ||| u == "WARNING"@
    ||| u == "ERROR"@
    ||| u == "FATAL"@
}

/// Check whether a string names a log level, ignoring case.
pub fn is_valid_log_level(s: &str) -> (r: bool)
    ensures
        r == valid_level_spec(s@),
{
    let u = ascii_upper(s);
    str_eq(u.as_str(), "TRACE") || str_eq(u.as_str(), "DEBUG") || str_eq(u.as_str(), "INFO")
        || str_eq(u.as_str(), "WARN") || str_eq(u.as_str(), "WARNING") || str_eq(
        u.as_str(),
        "ERROR",
    ) || str_eq(u.as_str(), "FATAL")
}

// ---------------------------------------------------------------------------
// The bracketed format
// ---------------------------------------------------------------------------

/// The bracket scan, outside a bracket at `from`, still collecting up to
/// `k` parts: characters before the next `[` are skipped.
pub open spec fn parts_outside(s: Seq<char>, from: int, k: nat) -> Seq<Seq<char>>
    decreases s.len() - from,
{
    if k == 0 || from < 0 || from >= s.len() {
        seq![]
    } else if s[from] == '[' {
        parts_inside(s, from + 1, from + 1, k)
    } else {
        parts_outside(s, from + 1, k)
    }
}

/// The bracket scan inside a bracket opened at `start`: characters up to
/// the closing `]` form one part; an unclosed bracket yields nothing.
pub open spec fn parts_inside(s: Seq<char>, start: int, from: int, k: nat) -> Seq<Seq<char>>
    decreases s.len() - from,
{
    if from < 0 || from >= s.len() {
        seq![]
    } else if s[from] == ']' {
        seq![s.subrange(start, from)] + parts_outside(s, from + 1, (k - 1) as nat)
    } else {
        parts_inside(s, start, from + 1, k)
    }
}

/// The message of a bracketed line: whatever follows the last `]`,
/// trimmed; the whole line, trimmed, when there is no `]`.
pub open spec fn bracket_message(s: Seq<char>) -> Seq<char> {
    let r = rfind_ch(s, ']');
    if r == -1 {
        trimmed(s)
    } else {
        trimmed(s.subrange(r + 1, s.len() as int))
    }
}

/// What parsing a bracketed line yields. With four bracketed parts the
/// entry carries date-T-time, the upper-cased level, the source, and the
/// text after the last bracket; with fewer, the whole line becomes an INFO
/// message from source `app` (its timestamp is the wall clock and is not
/// constrained here).
pub open spec fn bracketed_entry_ok(s: Seq<char>, index: nat, e: LogEntry) -> bool {
    let parts = parts_outside(s, 0, 4);
    &&& e.id@ == entry_id_seq(index)
    &&& e.meta is None
    &&& if parts.len() >= 4 {
        &&& e.ts@ == parts[0] + "T"@ + parts[1]
        &&& e.level@ == upper_seq(parts[2])
        &&& e.source@ == parts[3]
        &&& e.message@ == bracket_message(s)
    } else {
        &&& e.level@ == "INFO"@
        &&& e.source@ == "app"@
        &&& e.message@ == s
    }
}

/// Parse the bracketed log format: up to four `[...]` parts, then the
/// message after the last bracket.
fn parse_bracketed_format(line: &str, index: usize) -> (r: Option<LogEntry>)
    requires
        index < usize::MAX,
    ensures
        r matches Some(e) && bracketed_entry_ok(line@, index as nat, e),
{
    let n = line.unicode_len();
    let mut parts: Vec<String> = Vec::new();
    let mut pos: usize = 0;
    let mut in_bracket = false;
    let mut start: usize = 0;
    while pos < n && parts.len() < 4
        invariant
            n == line@.len(),
            pos <= n,
            parts@.len() <= 4,
            !in_bracket ==> parts_outside(line@, 0, 4) == parts@.map_values(|q: String| q@)
                + parts_outside(line@, pos as int, (4 - parts@.len()) as nat),
            in_bracket ==> parts@.len() < 4 && start <= pos && parts_outside(line@, 0, 4)
                == parts@.map_values(|q: String| q@) + parts_inside(
                line@,
                start as int,
                pos as int,
                (4 - parts@.len()) as nat,
            ),
        decreases n - pos,
    {
        let c = line.get_char(pos);
        if !in_bracket {
            if c == '[' {
                in_bracket = true;
                start = pos + 1;
            }
        } else {
            if c == ']' {
                let ghost pv0 = parts@.map_values(|q: String| q@);
                let part = line.substring_char(start, pos).to_owned();
                parts.push(part);
                in_bracket = false;
                proof {
                    assert(parts@.map_values(|q: String| q@) =~= pv0.push(
                        line@.subrange(start as int, pos as int),
                    ));
                    assert(pv0 + (seq![line@.subrange(start as int, pos as int)] + parts_outside(
                        line@,
                        pos as int + 1,
                        (4 - parts@.len()) as nat,
                    )) =~= parts@.map_values(|q: String| q@) + parts_outside(
                        line@,
                        pos as int + 1,
                        (4 - parts@.len()) as nat,
                    ));
                }
            }
        }
        pos = pos + 1;
    }
    proof {
        if in_bracket || pos == n || parts@.len() == 4 {
            assert(parts_outside(line@, 0, 4) == parts@.map_values(|q: String| q@));
        }
    }
    let id = entry_id(index);
    if parts.len() >= 4 {
        let message = match rfind_char_here(line, n) {
            Some(i) => trim_str(line.substring_char(i + 1, n)).to_owned(),
            None => trim_str(line).to_owned(),
        };
        let mut ts = parts[0].clone();
        ts.append("T");
        ts.append(parts[1].as_str());
        let level = ascii_upper(parts[2].as_str());
        let source = parts[3].clone();
        proof {
            let pv = parts@.map_values(|q: String| q@);
            assert(pv[0] == parts@[0]@ && pv[1] == parts@[1]@ && pv[2] == parts@[2]@ && pv[3]
                == parts@[3]@);
            assert(ts@ =~= pv[0] + "T"@ + pv[1]);
        }
        Some(LogEntry { id, ts, level, source, message, meta: None })
    } else {
        Some(
            LogEntry {
                id,
                ts: now_hms(),
                level: "INFO".to_owned(),
                source: "app".to_owned(),
                message: line.to_owned(),
                meta: None,
            },
        )
    }
}

/// Index of the last `]` of `line`, matching `rfind_ch`.
fn rfind_char_here(line: &str, n: usize) -> (r: Option<usize>)
    requires
        n == line@.len(),
    ensures
        match r {
            Some(i) => i as int == rfind_ch(line@, ']') && i < line@.len(),
            None => rfind_ch(line@, ']') == -1,
        },
{
    let r = crate::text::rfind_char(line, ']');
    proof {
        lemma_rfind_ch(line@, ']');
        let rf = rfind_ch(line@, ']');
        match r {
            Some(i) => {
                assert(rf != -1);
                if i < rf {
                    assert(line@[rf] == ']');
                } else if rf < i {
                    assert(line@[i as int] == ']');
                }
            },
            None => {
                if rf != -1 {
                    assert(line@[rf] == ']');
                }
            },
        }
    }
    r
}

// ---------------------------------------------------------------------------
// The space-separated format
// ---------------------------------------------------------------------------

/// Splitting at spaces into at most `limit` fields, from `from`: the last
/// field takes the rest of the line.
pub open spec fn split_sp_from(s: Seq<char>, from: int, limit: nat) -> Seq<Seq<char>>
    decreases limit,
{
    if limit == 0 || from < 0 || from > s.len() {
        seq![]
    } else if limit == 1 {
        seq![s.subrange(from, s.len() as int)]
    } else {
        let i = find_from(s, from, ' ');
        if i == -1 {
            seq![s.subrange(from, s.len() as int)]
        } else {
            seq![s.subrange(from, i)] + split_sp_from(s, i + 1, (limit - 1) as nat)
        }
    }
}

/// What parsing a space-separated line yields. With at least four fields
/// and a recognized level in the third, the entry carries date-T-time, the
/// upper-cased level, the bracket-trimmed fourth field as source (or `app`
/// when only four fields exist), and the rest as message; otherwise the
/// whole line becomes an INFO message from source `app` (its timestamp is
/// the wall clock and is not constrained here).
pub open spec fn space_entry_ok(s: Seq<char>, index: nat, e: LogEntry) -> bool {
    let parts = split_sp_from(s, 0, 5);
    &&& e.id@ == entry_id_seq(index)
    &&& e.meta is None
    &&& if parts.len() >= 4 && valid_level_spec(parts[2]) {
        &&& e.ts@ == parts[0] + "T"@ + parts[1]
        &&& e.level@ == upper_seq(parts[2])
        &&& if parts.len() >= 5 {
            e.source@ == bracket_trimmed(parts[3]) && e.message@ == parts[4]
        } else {
            e.source@ == "app"@ && e.message@ == parts[3]
        }
    } else {
        &&& e.level@ == "INFO"@
        &&& e.source@ == "app"@
        &&& e.message@ == s
    }
}

/// Parse the space-separated log format: date, time, level, an optional
/// bracketed source, and the message.
fn parse_space_format(line: &str, index: usize) -> (r: Option<LogEntry>)
    requires
        index < usize::MAX,
    ensures
        r matches Some(e) && space_entry_ok(line@, index as nat, e),
{
    let n = line.unicode_len();
    let mut parts: Vec<String> = Vec::new();
    let mut pos: usize = 0;
    let mut exhausted = false;
    while parts.len() < 4 && !exhausted
        invariant
            n == line@.len(),
            pos <= n,
            parts@.len() <= 4,
            !exhausted ==> split_sp_from(line@, 0, 5) == parts@.map_values(|q: String| q@)
                + split_sp_from(line@, pos as int, (5 - parts@.len()) as nat),
            exhausted ==> split_sp_from(line@, 0, 5) == parts@.map_values(|q: String| q@),
        decreases 4 - parts@.len(),
    {
        let ghost pv0 = parts@.map_values(|q: String| q@);
        match crate::text::find_char(line, pos, ' ') {
            Some(i) => {
                parts.push(line.substring_char(pos, i).to_owned());
                proof {
                    assert(parts@.map_values(|q: String| q@) =~= pv0.push(
                        line@.subrange(pos as int, i as int),
                    ));
                    assert(pv0 + (seq![line@.subrange(pos as int, i as int)] + split_sp_from(
                        line@,
                        i as int + 1,
                        (5 - parts@.len()) as nat,
                    )) =~= parts@.map_values(|q: String| q@) + split_sp_from(
                        line@,
                        i as int + 1,
                        (5 - parts@.len()) as nat,
                    ));
                }
                pos = i + 1;
            },
            None => {
                parts.push(line.substring_char(pos, n).to_owned());
                exhausted = true;
                proof {
                    assert(parts@.map_values(|q: String| q@) =~= pv0.push(
                        line@.subrange(pos as int, n as int),
                    ));
                    assert(pv0 + seq![line@.subrange(pos as int, n as int)]
                        =~= parts@.map_values(|q: String| q@));
                }
            },
        }
    }
    if !exhausted {
        let ghost pv0 = parts@.map_values(|q: String| q@);
        parts.push(line.substring_char(pos, n).to_owned());
        proof {
            assert(parts@.map_values(|q: String| q@) =~= pv0.push(
                line@.subrange(pos as int, n as int),
            ));
            assert(pv0 + seq![line@.subrange(pos as int, n as int)] =~= parts@.map_values(
                |q: String| q@,
            ));
        }
    }
    let id = entry_id(index);
    let np = parts.len();
    if np >= 4 && is_valid_log_level(parts[2].as_str()) {
        let mut ts = parts[0].clone();
        ts.append("T");
        ts.append(parts[1].as_str());
        let level = ascii_upper(parts[2].as_str());
        let (source, message) = if np >= 5 {
            (trim_brackets(parts[3].as_str()).to_owned(), parts[4].clone())
        } else {
            ("app".to_owned(), parts[3].clone())
        };
        proof {
            let pv = parts@.map_values(|q: String| q@);
            assert(pv[0] == parts@[0]@ && pv[1] == parts@[1]@ && pv[2] == parts@[2]@ && pv[3]
                == parts@[3]@);
            if np >= 5 {
                assert(pv[4] == parts@[4]@);
            }
            assert(ts@ =~= pv[0] + "T"@ + pv[1]);
        }
        Some(LogEntry { id, ts, level, source, message, meta: None })
    } else {
        Some(
            LogEntry {
                id,
                ts: now_hms(),
                level: "INFO".to_owned(),
                source: "app".to_owned(),
                message: line.to_owned(),
                meta: None,
            },
        )
    }
}

// ---------------------------------------------------------------------------
// One line
// ---------------------------------------------------------------------------

/// What parsing one raw line yields, when it yields anything: the trimmed
/// line parsed as the bracketed format when it opens with `[`, as the
/// space-separated format otherwise.
pub open spec fn line_entry_ok(line: Seq<char>, index: nat, e: LogEntry) -> bool {
    let t = trimmed(line);
    &&& t.len() > 0
    &&& if t[0] == '[' {
        bracketed_entry_ok(t, index, e)
    } else {
        space_entry_ok(t, index, e)
    }
}

/// Parse a single log line into an entry; blank lines yield nothing.
pub fn parse_log_line(line: &str, index: usize) -> (r: Option<LogEntry>)
    requires
        index < usize::MAX,
    ensures
        match r {
            None => trimmed(line@).len() == 0,
            Some(e) => line_entry_ok(line@, index as nat, e),
        },
{
    let t = trim_str(line);
    if t.unicode_len() == 0 {
        return None;
    }
    if t.get_char(0) == '[' {
        parse_bracketed_format(t, index)
    } else {
        parse_space_format(t, index)
    }
}

// ---------------------------------------------------------------------------
// Reading the file back
// ---------------------------------------------------------------------------

/// The views of the raw lines.
pub open spec fn line_views(lines: Seq<String>) -> Seq<Seq<char>> {
    lines.map_values(|l: String| l@)
}

/// The indices of the lines that parse to an entry (the non-blank ones),
/// ascending.
pub open spec fn kept_indices(lines: Seq<Seq<char>>) -> Seq<int>
    decreases lines.len(),
{
    if lines.len() == 0 {
        seq![]
    } else {
        kept_indices(lines.drop_last()) + (if trimmed(lines.last()).len() > 0 {
            seq![lines.len() - 1]
        } else {
            seq![]
        })
    }
}

/// Every kept index is a line index.
pub proof fn lemma_kept_indices_bounds(lines: Seq<Seq<char>>)
    ensures
        forall|k: int|
            0 <= k < kept_indices(lines).len() ==> 0 <= #[trigger] kept_indices(lines)[k]
                < lines.len(),
    decreases lines.len(),
{
    if lines.len() > 0 {
        lemma_kept_indices_bounds(lines.drop_last());
        let pre = kept_indices(lines.drop_last());
        let tail = if trimmed(lines.last()).len() > 0 {
            seq![lines.len() - 1]
        } else {
            seq![]
        };
        assert(kept_indices(lines) == pre + tail);
        assert forall|k: int|
            0 <= k < kept_indices(lines).len() implies 0 <= #[trigger] kept_indices(lines)[k]
            < lines.len() by {
            if k < pre.len() {
                assert(kept_indices(lines)[k] == pre[k]);
            } else {
                assert(kept_indices(lines)[k] == tail[k - pre.len()]);
            }
        }
    }
}

/// Collects the parsed entries of the log file's lines, most recent first,
/// after skipping `offset` entries from the end and keeping at most
/// `limit` (default 1000). The k-th returned entry is the parse of the
/// line whose index stands k places (plus the offset) from the end of the
/// kept lines.
pub fn collect_logs(lines: Vec<String>, limit: Option<usize>, offset: Option<usize>) -> (r:
    LogResult)
    ensures
        ({
            let lv = line_views(lines@);
            let kept = kept_indices(lv);
            let lim = if limit is Some {
                limit->0 as int
            } else {
                1000
            };
            let off = if offset is Some {
                offset->0 as int
            } else {
                0
            };
            let avail = if off < kept.len() {
                kept.len() - off
            } else {
                0
            };
            let cnt = if lim < avail {
                lim
            } else {
                avail
            };
            &&& r.success
            &&& r.count == r.logs@.len()
            &&& r.logs@.len() == cnt
            &&& forall|k: int|
                0 <= k < r.logs@.len() ==> line_entry_ok(
                    lv[kept[kept.len() - 1 - off - k]],
                    kept[kept.len() - 1 - off - k] as nat,
                    #[trigger] r.logs@[k],
                )
        }),
{
    let lim = match limit {
        Some(l) => l,
        None => 1000,
    };
    let off = match offset {
        Some(o) => o,
        None => 0,
    };
    let n = lines.len();
    let ghost lv = line_views(lines@);
    let mut entries: Vec<LogEntry> = Vec::new();
    let mut i: usize = 0;
    while i < n
        invariant
            n == lines@.len(),
            i <= n,
            lv == line_views(lines@),
            entries@.len() == kept_indices(line_views(lines@.take(i as int))).len(),
            forall|k: int|
                0 <= k < entries@.len() ==> line_entry_ok(
                    lv[kept_indices(line_views(lines@.take(i as int)))[k]],
                    kept_indices(line_views(lines@.take(i as int)))[k] as nat,
                    #[trigger] entries@[k],
                ),
        decreases n - i,
    {
        let ghost prefix = line_views(lines@.take(i as int));
        let ghost prefix1 = line_views(lines@.take(i as int + 1));
        proof {
            assert(prefix1.drop_last() =~= prefix);
            assert(prefix1.last() == lv[i as int]);
            assert(kept_indices(prefix1) == kept_indices(prefix) + (if trimmed(
                lv[i as int],
            ).len() > 0 {
                seq![i as int]
            } else {
                seq![]
            }));
            lemma_kept_indices_bounds(prefix1);
        }
        match parse_log_line(lines[i].as_str(), i) {
            Some(e) => {
                entries.push(e);
                proof {
                    assert(kept_indices(prefix1) =~= kept_indices(prefix) + seq![i as int]);
                    assert(kept_indices(prefix1)[entries@.len() - 1] == i as int);
                }
            },
            None => {
                proof {
                    assert(kept_indices(prefix1) =~= kept_indices(prefix));
                }
            },
        }
        i = i + 1;
    }
    proof {
        assert(lines@.take(n as int) =~= lines@);
        assert(kept_indices(line_views(lines@.take(n as int))) == kept_indices(lv));
    }
    let ghost kept = kept_indices(lv);
    let ghost m0 = entries@.len() as int;
    let ghost full = entries@;
    let mut dropped: usize = 0;
    while dropped < off && entries.len() > 0
        invariant
            full.len() == m0,
            dropped <= off,
            dropped <= m0,
            entries@ == full.take(m0 - dropped),
        decreases off - dropped,
    {
        entries.pop();
        dropped = dropped + 1;
        proof {
            assert(full.take(m0 - (dropped - 1)).drop_last() =~= full.take(m0 - dropped));
        }
    }
    proof {
        assert(dropped == off || entries@.len() == 0);
        assert(entries@.len() == m0 - dropped);
        if (off as int) < m0 {
            assert(entries@.len() == m0 - off);
        } else {
            assert(entries@.len() == 0);
        }
    }
    let ghost m = entries@.len() as int;
    let mut out: Vec<LogEntry> = Vec::new();
    while out.len() < lim && entries.len() > 0
        invariant
            full.len() == m0,
            0 <= m <= m0,
            out@.len() <= m,
            entries@ == full.take(m - out@.len()),
            out@.len() <= lim,
            forall|k: int| 0 <= k < out@.len() ==> #[trigger] out@[k] == full[m - 1 - k],
        decreases lim - out@.len(),
    {
        let ghost out_len0 = out@.len() as int;
        let e = entries.pop().unwrap();
        proof {
            assert(entries@.len() == m - out_len0 - 1);
            assert(e == full.take(m - out_len0)[m - out_len0 - 1]);
            assert(e == full[m - out_len0 - 1]);
            assert(full.take(m - out_len0).drop_last() =~= full.take(m - out_len0 - 1));
        }
        out.push(e);
    }
    proof {
        assert(out@.len() == (if (lim as int) < m {
            lim as int
        } else {
            m
        }));
        lemma_kept_indices_bounds(lv);
        assert(kept.len() == m0);
        let offi = off as int;
        let avail = if offi < kept.len() {
            kept.len() - offi
        } else {
            0
        };
        assert(m == avail);
        assert forall|k: int| 0 <= k < out@.len() implies line_entry_ok(
            lv[kept[kept.len() - 1 - offi - k]],
            kept[kept.len() - 1 - offi - k] as nat,
            #[trigger] out@[k],
        ) by {
            assert(out@[k] == full[m - 1 - k]);
            assert(m - 1 - k == kept.len() - 1 - offi - k);
        }
    }
    let count = out.len();
    LogResult { success: true, count, logs: out }
}

// ---------------------------------------------------------------------------
// The clear marker
// ---------------------------------------------------------------------------

/// The line written after the log file is truncated, so the file shows
/// when it was cleared.
pub fn clear_marker_line(date: &str, time: &str) -> (r: String)
    ensures
        r@ == "["@ + date@ + "]["@ + time@ + "][INFO][synthia] Log file cleared"@,
{
    let mut s = "[".to_owned();
    s.append(date);
    s.append("][");
    s.append(time);
    s.append("][INFO][synthia] Log file cleared");
    s
}

// ---------------------------------------------------------------------------
// The wall clock
// ---------------------------------------------------------------------------

/// Relies on chrono::Local::now and its %H:%M:%S formatting for the
/// fallback timestamps of unstructured lines. Nothing is assumed of the
/// current time.
#[verifier::external_body]
fn now_hms() -> (r: String) {
    chrono::Local::now().format("%H:%M:%S").to_string()
}

} // verus!
