//! Per-session command history: an append-only log of timestamped commands,
//! rendered to and recovered from per-shell-kind log text.

use vstd::prelude::*;
use crate::text::{
    chars_of, string_from_chars, sub_chars, trim_chars, find_char_from, parse_u64_chars,
    push_dec_u64, fmt_dec_u64_pad, spec_trim, spec_find_char, spec_parse_u64, spec_dec,
    spec_dec_pad, lemma_find_char_at, spec_split_lines, split_lines,
    spec_trim_start, spec_trim_end, spec_pow10, spec_digits_val,
};

verus! {

/// One recorded command with its packed decimal timestamp
/// (`yyyyMMddHHmmss` scaled to milliseconds).
pub struct CommandInfo {
    pub time: u64,
    pub command: String,
}

/// The millisecond timestamp a log line's digit field denotes, if it can be
/// read and scaled without loss.
pub open spec fn spec_entry_time(digits: Seq<char>) -> Option<u64> {
    match spec_parse_u64(digits) {
        Some(v) => if v <= u64::MAX as nat / 1000 {
            Some((v * 1000) as u64)
        } else {
            None
        },
        None => None,
    }
}

/// What one history log line denotes: `[<seconds>_<hhmmss>][<session id>]<command>`
/// after trimming, with both bracketed fields numeric; anything else is a
/// malformed line and denotes nothing.
pub open spec fn spec_parse_entry(line: Seq<char>) -> Option<(u32, u64, Seq<char>)> {
    let t = spec_trim(line);
    if t.len() == 0 || t[0] != '[' {
        None
    } else {
        let i = spec_find_char(t, ']');
        if i >= t.len() || i <= 1 {
            None
        } else {
            let tf = t.subrange(1, i);
            let u = spec_find_char(tf, '_');
            if u >= tf.len() {
                None
            } else {
                match spec_entry_time(tf.take(u) + tf.skip(u + 1)) {
                    None => None,
                    Some(time) => {
                        let rest = t.skip(i + 1);
                        if rest.len() == 0 || rest[0] != '[' {
                            None
                        } else {
                            let j = spec_find_char(rest, ']');
                            if j >= rest.len() {
                                None
                            } else {
                                match spec_parse_u64(rest.subrange(1, j)) {
                                    Some(v) => if v <= u32::MAX as nat {
                                        Some((v as u32, time, rest.skip(j + 1)))
                                    } else {
                                        None
                                    },
                                    None => None,
                                }
                            }
                        }
                    },
                }
            }
        }
    }
}

/// Reads one history log line; a malformed line yields `None` and is meant
/// to be skipped by the caller.
pub fn parse_command_info(line: &str) -> (r: Option<(u32, CommandInfo)>)
    ensures
        match spec_parse_entry(line@) {
            Some(e) => matches!(r, Some(_)) && ({
                let (sid, info) = r->Some_0;
                sid == e.0 && info.time == e.1 && info.command@ == e.2
            }),
            None => matches!(r, None),
        },
{
    let lv = chars_of(line);
    let t = trim_chars(&lv);
    if t.len() == 0 || t[0] != '[' {
        return None;
    }
    let i = match find_char_from(&t, ']', 0) {
        Some(i) => {
            proof {
                lemma_find_char_at(t@, ']', i as int);
            }
            i
        },
        None => {
            proof {
                lemma_find_char_at(t@, ']', t@.len() as int);
            }
            return None;
        },
    };
    if i <= 1 {
        return None;
    }
    let tf = sub_chars(&t, 1, i);
    let u = match find_char_from(&tf, '_', 0) {
        Some(u) => {
            proof {
                lemma_find_char_at(tf@, '_', u as int);
            }
            u
        },
        None => {
            proof {
                lemma_find_char_at(tf@, '_', tf@.len() as int);
            }
            return None;
        },
    };
    let mut digits = sub_chars(&tf, 0, u);
    let mut digits_hi = sub_chars(&tf, u + 1, tf.len());
    digits.append(&mut digits_hi);
    assert(digits@ =~= tf@.take(u as int) + tf@.skip(u + 1));
    let time: u64 = match parse_u64_chars(&digits) {
        Some(v) => {
            if v > u64::MAX / 1000 {
                return None;
            }
            v * 1000
        },
        None => {
            return None;
        },
    };
    let rest = sub_chars(&t, i + 1, t.len());
    assert(rest@ =~= t@.skip(i + 1));
    if rest.len() == 0 || rest[0] != '[' {
        return None;
    }
    let j = match find_char_from(&rest, ']', 0) {
        Some(j) => {
            proof {
                lemma_find_char_at(rest@, ']', j as int);
            }
            j
        },
        None => {
            proof {
                lemma_find_char_at(rest@, ']', rest@.len() as int);
            }
            return None;
        },
    };
    let sf = sub_chars(&rest, 1, j);
    let sid: u32 = match parse_u64_chars(&sf) {
        Some(v) => {
            if v > u32::MAX as u64 {
                return None;
            }
            v as u32
        },
        None => {
            return None;
        },
    };
    let cmd = sub_chars(&rest, j + 1, rest.len());
    assert(cmd@ =~= rest@.skip(j + 1));
    let command = string_from_chars(&cmd);
    Some((sid, CommandInfo { time, command }))
}

/// A session's command log for one shell kind, with a watermark separating
/// what has already been rendered for persistence.
pub struct CommandHist {
    pub category: String,
    pub infos: Vec<CommandInfo>,
    sid: u32,
    saved_count: usize,
}

impl CommandHist {
    /// The recorded (timestamp, command) pairs, oldest first.
    pub closed spec fn entries(&self) -> Seq<(u64, Seq<char>)> {
        self.infos@.map_values(|i: CommandInfo| (i.time, i.command@))
    }

    /// The category (shell kind) this log belongs to.
    pub closed spec fn category_spec(&self) -> Seq<char> {
        self.category@
    }

    /// The session id.
    pub closed spec fn sid_spec(&self) -> u32 {
        self.sid
    }

    /// How many leading entries have already been rendered for persistence.
    pub closed spec fn saved_spec(&self) -> int {
        self.saved_count as int
    }

    pub fn new(category: &str, sid: u32) -> (r: CommandHist)
        ensures
            r.category_spec() == category@,
            r.sid_spec() == sid,
            r.entries() =~= Seq::<(u64, Seq<char>)>::empty(),
            r.saved_spec() == 0,
    {
        let r = CommandHist {
            category: category.to_owned(),
            infos: Vec::new(),
            sid,
            saved_count: 0,
        };
        assert(r.entries() =~= Seq::<(u64, Seq<char>)>::empty());
        r
    }

    /// The session id.
    pub fn sid(&self) -> (r: u32)
        ensures
            r == self.sid_spec(),
    {
        self.sid
    }

    /// Appends one command under the given timestamp.
    pub fn add(&mut self, command: &str, time: u64)
        ensures
            final(self).entries() == old(self).entries().push((time, command@)),
            final(self).category_spec() == old(self).category_spec(),
            final(self).sid_spec() == old(self).sid_spec(),
            final(self).saved_spec() == old(self).saved_spec(),
    {
        self.infos.push(CommandInfo { time, command: command.to_owned() });
        assert(final(self).entries() =~= old(self).entries().push((time, command@)));
    }

    /// Whether nothing has been recorded.
    pub fn is_empty(&self) -> (r: bool)
        ensures
            r == (self.entries().len() == 0),
    {
        self.infos.is_empty()
    }
}

/// One rendered log line for an entry:
/// `[<seconds>_<hhmmss, zero-padded>][<session id>]<command>` and a newline.
pub open spec fn spec_render_entry(sid: u32, e: (u64, Seq<char>)) -> Seq<char> {
    seq!['['] + spec_dec((e.0 / 1000 / 1000000) as nat) + seq!['_'] + spec_dec_pad(
        (e.0 / 1000 % 1000000) as nat,
        6,
    ) + seq![']'] + seq!['['] + spec_dec(sid as nat) + seq![']'] + e.1 + seq!['\n']
}

/// The rendered log lines for the entries from index `from` on.
pub open spec fn spec_render_from(sid: u32, es: Seq<(u64, Seq<char>)>, from: int) -> Seq<char>
    decreases es.len() - from,
{
    if from < 0 || from >= es.len() {
        Seq::empty()
    } else {
        spec_render_entry(sid, es[from]) + spec_render_from(sid, es, from + 1)
    }
}

impl CommandHist {
    /// Renders the not-yet-persisted entries as log text and advances the
    /// watermark past them; the caller appends the text to the log file.
    pub fn save_text(&mut self) -> (r: String)
        ensures
            r@ == spec_render_from(
                old(self).sid_spec(),
                old(self).entries(),
                old(self).saved_spec(),
            ),
            final(self).entries() == old(self).entries(),
            final(self).category_spec() == old(self).category_spec(),
            final(self).sid_spec() == old(self).sid_spec(),
            final(self).saved_spec() == final(self).entries().len(),
    {
        let mut out: Vec<char> = Vec::new();
        let mut k: usize = self.saved_count;
        if k > self.infos.len() {
            k = self.infos.len();
            assert(spec_render_from(self.sid_spec(), self.entries(), self.saved_spec())
                =~= Seq::<char>::empty());
        }
        let ghost start = k as int;
        while k < self.infos.len()
            invariant
                self == old(self),
                start <= k <= self.infos.len(),
                spec_render_from(self.sid_spec(), self.entries(), start) =~= out@
                    + spec_render_from(self.sid_spec(), self.entries(), k as int),
            decreases self.infos.len() - k,
        {
            let ghost out0 = out@;
            let info = &self.infos[k];
            let time = info.time / 1000;
            out.push('[');
            push_dec_u64(time / 1000000, &mut out);
            out.push('_');
            let mut hms = fmt_dec_u64_pad(time % 1000000, 6);
            out.append(&mut hms);
            out.push(']');
            out.push('[');
            push_dec_u64(self.sid as u64, &mut out);
            out.push(']');
            let mut cmd = chars_of(info.command.as_str());
            out.append(&mut cmd);
            out.push('\n');
            assert(out@ =~= out0 + spec_render_entry(
                self.sid_spec(),
                self.entries()[k as int],
            ));
            k += 1;
        }
        self.saved_count = self.infos.len();
        string_from_chars(&out)
    }
}

/// A rendered log line is recovered exactly on load: parsing the line that
/// `save_text` writes for an entry yields the same session id, the
/// timestamp at second resolution, and the same command — for any command
/// that spans one line and does not end in a blank.
pub proof fn lemma_render_parse_round_trip(sid: u32, time: u64, cmd: Seq<char>)
    requires
        forall|i: int| 0 <= i < cmd.len() ==> #[trigger] cmd[i] != '\n',
        cmd.len() > 0 ==> !crate::text::spec_is_space(cmd.last()),
    ensures
        spec_parse_entry(spec_render_entry(sid, (time, cmd)).drop_last()) == Some(
            (sid, (time / 1000 * 1000) as u64, cmd),
        ),
{
    reveal_with_fuel(crate::text::spec_pow10, 8);
    let v = (time / 1000) as nat;
    let ymd = (v / 1000000) as nat;
    let hms = (v % 1000000) as nat;
    let dy = spec_dec(ymd);
    let dh = spec_dec_pad(hms, 6);
    let ds = spec_dec(sid as nat);
    crate::text::lemma_dec_digits(ymd);
    crate::text::lemma_dec_pad_digits(hms, 6);
    crate::text::lemma_dec_digits(sid as nat);
    crate::text::lemma_dec_len_bound(hms, 6);
    assert(dh.len() == 6);

    let rendered = spec_render_entry(sid, (time, cmd));
    let t = rendered.drop_last();
    assert(t =~= seq!['['] + dy + seq!['_'] + dh + seq![']'] + (seq!['['] + ds + seq![']']
        + cmd));

    // the line needs no trimming: it starts with a bracket and the command
    // does not end in a blank
    assert(t[0] == '[');
    assert(spec_trim_start(t) == t);
    if cmd.len() > 0 {
        assert(t.last() == cmd.last());
    } else {
        assert(t.last() == ']');
    }
    assert(spec_trim_end(t) == t);
    assert(spec_trim(t) == t);

    // the first closing bracket ends the time field
    let a1 = seq!['['] + dy + seq!['_'] + dh;
    let rest1 = seq![']'] + (seq!['['] + ds + seq![']'] + cmd);
    assert(t =~= a1 + rest1);
    assert forall|i: int| 0 <= i < a1.len() implies a1[i] != ']' by {
        if i == 0 {
        } else if i < 1 + dy.len() {
            assert(a1[i] == dy[i - 1]);
            assert(crate::text::spec_is_digit(dy[i - 1]));
        } else if i == 1 + dy.len() {
            assert(a1[i] == '_');
        } else {
            assert(a1[i] == dh[i - 2 - dy.len()]);
            assert(crate::text::spec_is_digit(dh[i - 2 - dy.len()]));
        }
    }
    crate::text::lemma_find_char_concat(a1, rest1, ']');
    assert(rest1.first() == ']');
    let i = spec_find_char(t, ']');
    assert(i == a1.len());
    assert(i < t.len() && i > 1);

    // the underscore splits the time field into its two digit runs
    let tf = t.subrange(1, i);
    assert(tf =~= dy + (seq!['_'] + dh));
    assert forall|k: int| 0 <= k < dy.len() implies dy[k] != '_' by {
        assert(crate::text::spec_is_digit(dy[k]));
    }
    crate::text::lemma_find_char_concat(dy, seq!['_'] + dh, '_');
    let u = spec_find_char(tf, '_');
    assert(u == dy.len());
    assert(u < tf.len());
    let digits = tf.take(u) + tf.skip(u + 1);
    assert(tf.take(u) =~= dy);
    assert(tf.skip(u + 1) =~= dh);
    assert(digits == dy + dh);

    // the recombined digits denote the second-resolution timestamp
    crate::text::lemma_digits_val_concat(dy, dh);
    assert(spec_pow10(6) == 1000000);
    assert(ymd * 1000000 + hms == v) by (nonlinear_arith)
        requires
            ymd == v / 1000000,
            hms == v % 1000000,
    ;
    assert(spec_digits_val(digits) == v);
    assert(forall|k: int|
        0 <= k < digits.len() ==> crate::text::spec_is_digit(#[trigger] digits[k]));
    assert(digits.len() > 0);
    assert(v <= u64::MAX);
    assert(spec_parse_u64(digits) == Some(v as u64));
    assert(v <= u64::MAX as nat / 1000) by (nonlinear_arith)
        requires
            v == (time / 1000) as nat,
            time <= u64::MAX,
    ;
    assert(spec_entry_time(digits) == Some((v * 1000) as u64));

    // the second field holds the session id, and the rest is the command
    let rest = t.skip(i + 1);
    assert(rest =~= seq!['['] + ds + seq![']'] + cmd);
    assert(rest[0] == '[');
    let a2 = seq!['['] + ds;
    let rest2 = seq![']'] + cmd;
    assert(rest =~= a2 + rest2);
    assert forall|k: int| 0 <= k < a2.len() implies a2[k] != ']' by {
        if k > 0 {
            assert(a2[k] == ds[k - 1]);
            assert(crate::text::spec_is_digit(ds[k - 1]));
        }
    }
    crate::text::lemma_find_char_concat(a2, rest2, ']');
    assert(rest2.first() == ']');
    let j = spec_find_char(rest, ']');
    assert(j == a2.len());
    assert(j < rest.len());
    let sf = rest.subrange(1, j);
    assert(sf =~= ds);
    assert(spec_parse_u64(sf) == Some(sid as u64));
    assert(rest.skip(j + 1) =~= cmd);
}

/// The entries the log lines denote, in order, skipping malformed lines and
/// lines of the session `ignore`.
pub open spec fn spec_collect_entries(lines: Seq<Seq<char>>, ignore: u32) -> Seq<
    (u32, u64, Seq<char>),
>
    decreases lines.len(),
{
    if lines.len() == 0 {
        Seq::empty()
    } else {
        spec_collect_entries(lines.drop_last(), ignore) + match spec_parse_entry(lines.last()) {
            Some(e) => if e.0 != ignore {
                seq![e]
            } else {
                Seq::empty()
            },
            None => Seq::empty(),
        }
    }
}

/// Index of the group with session id `sid`, or `gs.len()` when absent.
pub open spec fn spec_find_group(gs: Seq<(u32, Seq<(u64, Seq<char>)>)>, sid: u32) -> int
    decreases gs.len(),
{
    if gs.len() == 0 {
        0
    } else if gs.first().0 == sid {
        0
    } else {
        1 + spec_find_group(gs.drop_first(), sid)
    }
}

/// Adds one entry to its session's group, opening a new group at the end on
/// first appearance of the session id.
pub open spec fn spec_add_entry(
    gs: Seq<(u32, Seq<(u64, Seq<char>)>)>,
    e: (u32, u64, Seq<char>),
) -> Seq<(u32, Seq<(u64, Seq<char>)>)> {
    let i = spec_find_group(gs, e.0);
    if i < gs.len() {
        gs.update(i, (e.0, gs[i].1.push((e.1, e.2))))
    } else {
        gs.push((e.0, seq![(e.1, e.2)]))
    }
}

/// Entries grouped by session id, groups ordered by first appearance.
pub open spec fn spec_groups(entries: Seq<(u32, u64, Seq<char>)>) -> Seq<
    (u32, Seq<(u64, Seq<char>)>),
>
    decreases entries.len(),
{
    if entries.len() == 0 {
        Seq::empty()
    } else {
        spec_add_entry(spec_groups(entries.drop_last()), entries.last())
    }
}

proof fn lemma_find_group_bounds(gs: Seq<(u32, Seq<(u64, Seq<char>)>)>, sid: u32)
    ensures
        0 <= spec_find_group(gs, sid) <= gs.len(),
        spec_find_group(gs, sid) < gs.len() ==> gs[spec_find_group(gs, sid)].0 == sid,
        forall|j: int| 0 <= j < spec_find_group(gs, sid) ==> gs[j].0 != sid,
    decreases gs.len(),
{
    if gs.len() > 0 && gs.first().0 != sid {
        lemma_find_group_bounds(gs.drop_first(), sid);
        assert forall|j: int|
            0 <= j < spec_find_group(gs, sid) implies gs[j].0 != sid by {
            if j > 0 {
                assert(gs[j] == gs.drop_first()[j - 1]);
            }
        }
    }
}

proof fn lemma_find_group_prefix(gs: Seq<(u32, Seq<(u64, Seq<char>)>)>, sid: u32, i: int)
    requires
        0 <= i <= gs.len(),
        forall|j: int| 0 <= j < i ==> gs[j].0 != sid,
    ensures
        i < gs.len() && gs[i].0 == sid ==> spec_find_group(gs, sid) == i,
        i == gs.len() ==> spec_find_group(gs, sid) == gs.len(),
    decreases gs.len(),
{
    if gs.len() > 0 {
        if gs.first().0 == sid {
        } else if i > 0 {
            lemma_find_group_prefix(gs.drop_first(), sid, i - 1);
        }
    }
}

/// Rebuilds the per-session histories from a log's text: its lines are read
/// in order, malformed lines and lines of the live session `ignore_sid` are
/// skipped, and the rest are grouped by session id in order of first
/// appearance.
pub fn load_old_hists(category: &str, content: &str, ignore_sid: u32) -> (r: Vec<CommandHist>)
    ensures
        r@.map_values(|h: CommandHist| (h.sid_spec(), h.entries())) == spec_groups(
            spec_collect_entries(spec_split_lines(content@), ignore_sid),
        ),
        forall|k: int| 0 <= k < r@.len() ==> (#[trigger] r@[k]).category_spec() == category@,
{
    let cv = chars_of(content);
    let lines = split_lines(&cv);
    let ghost line_views = lines@.map_values(|l: Vec<char>| l@);
    let ghost all_entries = spec_collect_entries(line_views, ignore_sid);
    let mut hists: Vec<CommandHist> = Vec::new();
    let mut n: usize = 0;
    assert(spec_collect_entries(line_views.take(0), ignore_sid) =~= Seq::empty());
    assert(hists@.map_values(|h: CommandHist| (h.sid_spec(), h.entries())) =~= spec_groups(
        spec_collect_entries(line_views.take(0), ignore_sid),
    ));
    while n < lines.len()
        invariant
            line_views == lines@.map_values(|l: Vec<char>| l@),
            n <= lines.len(),
            hists@.map_values(|h: CommandHist| (h.sid_spec(), h.entries())) == spec_groups(
                spec_collect_entries(line_views.take(n as int), ignore_sid),
            ),
            forall|k: int|
                0 <= k < hists@.len() ==> (#[trigger] hists@[k]).category_spec() == category@,
        decreases lines.len() - n,
    {
        let ghost gs_before = hists@.map_values(|h: CommandHist| (h.sid_spec(), h.entries()));
        let line = string_from_chars(&lines[n]);
        proof {
            assert(line_views.take(n + 1).drop_last() =~= line_views.take(n as int));
            assert(line_views.take(n + 1).last() == line@);
        }
        match parse_command_info(line.as_str()) {
            Some((sid, info)) => {
                if sid != ignore_sid {
                    let ghost e = spec_parse_entry(line@)->Some_0;
                    assert(spec_collect_entries(line_views.take(n + 1), ignore_sid)
                        =~= spec_collect_entries(line_views.take(n as int), ignore_sid).push(e));
                    let gi = find_group_index(&hists, sid);
                    proof {
                        lemma_find_group_bounds(gs_before, sid);
                        lemma_groups_push(
                            spec_collect_entries(line_views.take(n as int), ignore_sid),
                            e,
                        );
                    }
                    if gi < hists.len() {
                        let h = &mut hists[gi];
                        h.infos.push(info);
                        assert(hists@[gi as int].entries() =~= gs_before[gi as int].1.push(
                            (e.1, e.2),
                        ));
                        assert(hists@.map_values(|h: CommandHist| (h.sid_spec(), h.entries()))
                            =~~= spec_add_entry(gs_before, e));
                    } else {
                        let mut h = CommandHist::new(category, sid);
                        h.infos.push(info);
                        assert(h.entries() =~= seq![(e.1, e.2)]);
                        hists.push(h);
                        assert(hists@.map_values(|h: CommandHist| (h.sid_spec(), h.entries()))
                            =~~= spec_add_entry(gs_before, e));
                    }
                } else {
                    assert(spec_collect_entries(line_views.take(n + 1), ignore_sid)
                        =~= spec_collect_entries(line_views.take(n as int), ignore_sid));
                }
            },
            None => {
                assert(spec_collect_entries(line_views.take(n + 1), ignore_sid)
                    =~= spec_collect_entries(line_views.take(n as int), ignore_sid));
            },
        }
        n += 1;
    }
    assert(line_views.take(line_views.len() as int) =~= line_views);
    hists
}

/// `spec_groups` of one more entry is `spec_add_entry` of that entry.
proof fn lemma_groups_push(entries: Seq<(u32, u64, Seq<char>)>, e: (u32, u64, Seq<char>))
    ensures
        spec_groups(entries.push(e)) == spec_add_entry(spec_groups(entries), e),
{
    assert(entries.push(e).drop_last() =~= entries);
    assert(entries.push(e).last() == e);
}

/// The (timestamp, command) pairs of session `sid` among `entries`, in order.
pub open spec fn spec_group_of(entries: Seq<(u32, u64, Seq<char>)>, sid: u32) -> Seq<
    (u64, Seq<char>),
>
    decreases entries.len(),
{
    if entries.len() == 0 {
        Seq::empty()
    } else {
        spec_group_of(entries.drop_last(), sid) + (if entries.last().0 == sid {
            seq![(entries.last().1, entries.last().2)]
        } else {
            Seq::empty()
        })
    }
}

/// Structure of `spec_groups`: session ids are unique, each group is exactly
/// its session's entries in log order, every group is nonempty, and a session
/// with no entries has no group.
pub proof fn lemma_groups_structure(entries: Seq<(u32, u64, Seq<char>)>)
    ensures
        ({
            let gs = spec_groups(entries);
            &&& forall|k1: int, k2: int|
                0 <= k1 < k2 < gs.len() ==> (#[trigger] gs[k1]).0 != (#[trigger] gs[k2]).0
        &&& forall|k: int|
                0 <= k < gs.len() ==> (#[trigger] gs[k]).1 == spec_group_of(entries, gs[k].0)
                    && gs[k].1.len() > 0
        &&& forall|sid: u32|
                (forall|k: int| 0 <= k < gs.len() ==> (#[trigger] gs[k]).0 != sid)
                    ==> #[trigger] spec_group_of(entries, sid) == Seq::<(u64, Seq<char>)>::empty()
        }),
    decreases entries.len(),
{
    let gs = spec_groups(entries);
    if entries.len() == 0 {
        assert(forall|sid: u32|
            #[trigger] spec_group_of(entries, sid) == Seq::<(u64, Seq<char>)>::empty());
    } else {
        let dl = entries.drop_last();
        let e = entries.last();
        lemma_groups_structure(dl);
        let gs1 = spec_groups(dl);
        lemma_find_group_bounds(gs1, e.0);
        let i = spec_find_group(gs1, e.0);
        assert(gs == spec_add_entry(gs1, e));
        if i < gs1.len() {
            assert(gs == gs1.update(i, (e.0, gs1[i].1.push((e.1, e.2)))));
            assert forall|k: int|
                0 <= k < gs.len() implies (#[trigger] gs[k]).1 == spec_group_of(entries, gs[k].0)
                && gs[k].1.len() > 0 by {
                if k == i {
                    assert(spec_group_of(entries, e.0) == spec_group_of(dl, e.0) + seq![
                        (e.1, e.2),
                    ]);
                    assert(spec_group_of(dl, e.0) == gs1[i].1);
                    assert(gs[k].1 =~= spec_group_of(entries, e.0));
                } else {
                    assert(gs[k] == gs1[k]);
                    assert(gs1[k].0 != e.0);
                    assert(spec_group_of(entries, gs1[k].0) =~= spec_group_of(dl, gs1[k].0));
                }
            }
            assert forall|sid: u32|
                (forall|k: int| 0 <= k < gs.len() ==> (#[trigger] gs[k]).0 != sid)
                    implies #[trigger] spec_group_of(entries, sid) == Seq::<
                    (u64, Seq<char>),
                >::empty() by {
                if (forall|k: int| 0 <= k < gs.len() ==> (#[trigger] gs[k]).0 != sid) {
                    assert forall|k: int| 0 <= k < gs1.len() implies (#[trigger] gs1[k]).0
                        != sid by {
                        if k == i {
                            assert(gs[i].0 == e.0);
                            assert(gs1[i].0 == e.0);
                        } else {
                            assert(gs1[k].0 == gs[k].0);
                        }
                    }
                    assert(gs[i].0 == e.0);
                    assert(sid != e.0);
                    assert(spec_group_of(entries, sid) =~= spec_group_of(dl, sid));
                }
            }
        } else {
            assert(gs == gs1.push((e.0, seq![(e.1, e.2)])));
            assert(forall|k: int| 0 <= k < gs1.len() ==> (#[trigger] gs1[k]).0 != e.0);
            assert(spec_group_of(dl, e.0) == Seq::<(u64, Seq<char>)>::empty());
            assert forall|k: int|
                0 <= k < gs.len() implies (#[trigger] gs[k]).1 == spec_group_of(entries, gs[k].0)
                && gs[k].1.len() > 0 by {
                if k < gs1.len() {
                    assert(gs[k] == gs1[k]);
                    assert(gs1[k].0 != e.0);
                    assert(spec_group_of(entries, gs1[k].0) =~= spec_group_of(dl, gs1[k].0));
                } else {
                    assert(gs[k] == (e.0, seq![(e.1, e.2)]));
                    assert(spec_group_of(entries, e.0) =~= Seq::<(u64, Seq<char>)>::empty()
                        + seq![(e.1, e.2)]);
                    assert(gs[k].1 =~= spec_group_of(entries, e.0));
                }
            }
            assert forall|sid: u32|
                (forall|k: int| 0 <= k < gs.len() ==> (#[trigger] gs[k]).0 != sid)
                    implies #[trigger] spec_group_of(entries, sid) == Seq::<
                    (u64, Seq<char>),
                >::empty() by {
                if (forall|k: int| 0 <= k < gs.len() ==> (#[trigger] gs[k]).0 != sid) {
                    assert(forall|k: int| 0 <= k < gs1.len() ==> gs1[k] == gs[k]);
                    assert(forall|k: int| 0 <= k < gs1.len() ==> (#[trigger] gs1[k]).0 != sid);
                    assert(gs[gs1.len() as int].0 == e.0);
                    assert(sid != e.0);
                    assert(spec_group_of(entries, sid) =~= spec_group_of(dl, sid));
                }
            }
        }
    }
}

/// No entry of the collected log carries the ignored (live) session id.
proof fn lemma_collect_excludes(lines: Seq<Seq<char>>, ignore: u32)
    ensures
        forall|i: int|
            0 <= i < spec_collect_entries(lines, ignore).len() ==> (#[trigger] spec_collect_entries(
                lines,
                ignore,
            )[i]).0 != ignore,
    decreases lines.len(),
{
    if lines.len() > 0 {
        lemma_collect_excludes(lines.drop_last(), ignore);
        let es = spec_collect_entries(lines, ignore);
        let es1 = spec_collect_entries(lines.drop_last(), ignore);
        assert forall|i: int| 0 <= i < es.len() implies (#[trigger] es[i]).0 != ignore by {
            if i < es1.len() {
                assert(es[i] == es1[i]);
            }
        }
    }
}

/// Merging a history log never yields a group for the live session id: its
/// lines are dropped while collecting, so no group can carry it.
pub proof fn lemma_merge_excludes_live_session(lines: Seq<Seq<char>>, ignore: u32)
    ensures
        forall|k: int|
            0 <= k < spec_groups(spec_collect_entries(lines, ignore)).len() ==> (
            #[trigger] spec_groups(spec_collect_entries(lines, ignore))[k]).0 != ignore,
{
    let entries = spec_collect_entries(lines, ignore);
    let gs = spec_groups(entries);
    lemma_collect_excludes(lines, ignore);
    lemma_groups_structure(entries);
    assert forall|k: int| 0 <= k < gs.len() implies (#[trigger] gs[k]).0 != ignore by {
        if gs[k].0 == ignore {
            lemma_group_of_absent(entries, ignore);
            assert(gs[k].1.len() == 0);
        }
    }
}

/// A session id carried by no entry has an empty projection.
proof fn lemma_group_of_absent(entries: Seq<(u32, u64, Seq<char>)>, sid: u32)
    requires
        forall|i: int| 0 <= i < entries.len() ==> (#[trigger] entries[i]).0 != sid,
    ensures
        spec_group_of(entries, sid) == Seq::<(u64, Seq<char>)>::empty(),
    decreases entries.len(),
{
    if entries.len() > 0 {
        lemma_group_of_absent(entries.drop_last(), sid);
        assert(spec_group_of(entries, sid) =~= Seq::<(u64, Seq<char>)>::empty());
    }
}

/// All timestamps of a session's projection respect a bound on the log.
proof fn lemma_group_of_time_bound(entries: Seq<(u32, u64, Seq<char>)>, sid: u32, bound: u64)
    requires
        forall|i: int| 0 <= i < entries.len() ==> (#[trigger] entries[i]).1 <= bound,
    ensures
        forall|j: int|
            0 <= j < spec_group_of(entries, sid).len() ==> (#[trigger] spec_group_of(
                entries,
                sid,
            )[j]).0 <= bound,
    decreases entries.len(),
{
    if entries.len() > 0 {
        let dl = entries.drop_last();
        let e = entries.last();
        lemma_group_of_time_bound(dl, sid, bound);
        let g = spec_group_of(entries, sid);
        let g1 = spec_group_of(dl, sid);
        assert(entries[entries.len() - 1].1 <= bound);
        assert forall|j: int| 0 <= j < g.len() implies (#[trigger] g[j]).0 <= bound by {
            if j < g1.len() {
                assert(g[j] == g1[j]);
            } else {
                assert(g[j] == (e.1, e.2));
            }
        }
    }
}

/// A time-ordered log projects to a time-ordered per-session sequence.
proof fn lemma_group_of_sorted(entries: Seq<(u32, u64, Seq<char>)>, sid: u32)
    requires
        forall|i: int, j: int|
            0 <= i < j < entries.len() ==> (#[trigger] entries[i]).1 <= (#[trigger] entries[j]).1,
    ensures
        forall|a: int, b: int|
            0 <= a < b < spec_group_of(entries, sid).len() ==> (#[trigger] spec_group_of(
                entries,
                sid,
            )[a]).0 <= (#[trigger] spec_group_of(entries, sid)[b]).0,
    decreases entries.len(),
{
    if entries.len() > 0 {
        let dl = entries.drop_last();
        let e = entries.last();
        lemma_group_of_sorted(dl, sid);
        assert(forall|i: int| 0 <= i < dl.len() ==> (#[trigger] dl[i]).1 <= e.1);
        lemma_group_of_time_bound(dl, sid, e.1);
        let g = spec_group_of(entries, sid);
        let g1 = spec_group_of(dl, sid);
        assert forall|a: int, b: int|
            0 <= a < b < g.len() implies (#[trigger] g[a]).0 <= (#[trigger] g[b]).0 by {
            if b < g1.len() {
                assert(g[a] == g1[a]);
                assert(g[b] == g1[b]);
            } else {
                assert(g[a] == g1[a]);
                assert(g[b] == (e.1, e.2));
            }
        }
    }
}

/// When the log's entries are time-ordered, every merged group is internally
/// time-ordered.
pub proof fn lemma_merge_groups_time_ordered(entries: Seq<(u32, u64, Seq<char>)>)
    requires
        forall|i: int, j: int|
            0 <= i < j < entries.len() ==> (#[trigger] entries[i]).1 <= (#[trigger] entries[j]).1,
    ensures
        forall|k: int, a: int, b: int|
            #![trigger spec_groups(entries)[k].1[a], spec_groups(entries)[k].1[b]]
            0 <= k < spec_groups(entries).len() && 0 <= a < b < spec_groups(entries)[k].1.len()
                ==> spec_groups(entries)[k].1[a].0 <= spec_groups(entries)[k].1[b].0,
{
    let gs = spec_groups(entries);
    lemma_groups_structure(entries);
    assert forall|k: int, a: int, b: int|
        #![trigger gs[k].1[a], gs[k].1[b]]
        0 <= k < gs.len() && 0 <= a < b < gs[k].1.len() implies gs[k].1[a].0
        <= gs[k].1[b].0 by {
        lemma_group_of_sorted(entries, gs[k].0);
        assert(gs[k].1 == spec_group_of(entries, gs[k].0));
    }
}

/// Finds the history with session id `sid`, returning the length when absent.
fn find_group_index(hists: &Vec<CommandHist>, sid: u32) -> (r: usize)
    ensures
        r as int == spec_find_group(
            hists@.map_values(|h: CommandHist| (h.sid_spec(), h.entries())),
            sid,
        ),
{
    let ghost gs = hists@.map_values(|h: CommandHist| (h.sid_spec(), h.entries()));
    let mut n: usize = 0;
    while n < hists.len()
        invariant
            gs == hists@.map_values(|h: CommandHist| (h.sid_spec(), h.entries())),
            n <= hists.len(),
            forall|j: int| 0 <= j < n ==> gs[j].0 != sid,
        decreases hists.len() - n,
    {
        if hists[n].sid() == sid {
            proof {
                lemma_find_group_prefix(gs, sid, n as int);
            }
            return n;
        }
        n += 1;
    }
    proof {
        lemma_find_group_prefix(gs, sid, gs.len() as int);
    }
    n
}

} // verus!
