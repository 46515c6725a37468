//! Console session logic: scanning the visible screen for the prompt and
//! the typed input, the RETURN-key command-edit protocol, directory-change
//! synthesis and the ALT-chord shortcuts.

use vstd::prelude::*;
use crate::text::{
    chars_of, string_from_chars, sub_chars, eq_ignore_case, spec_lower, spec_trim_end,
    spec_trim_start, spec_starts_with, starts_with_str,
};
use crate::shell::{
    ShellKind, spec_prompt_candidate, prompt_candidate, spec_clean_continuations,
    clean_multiline_continuations,
};
use crate::dir_man::{
    CurDir, spec_set_hist, spec_set_notifies, spec_back, spec_forward, spec_parent_dir,
};
use crate::command_hist::CommandHist;
use vstd::string::StringExecFns;

verus! {

/// The prompt a derived line shows, given whether its candidate directory
/// exists: the candidate's full prompt, or empty.
pub open spec fn spec_line_prompt(kind: ShellKind, line: Seq<char>, ok: bool) -> Seq<char> {
    match spec_prompt_candidate(kind, line) {
        Some(c) => if ok {
            c.1
        } else {
            Seq::empty()
        },
        None => Seq::empty(),
    }
}

/// Accumulates lines downward until the first empty one.
pub open spec fn spec_accum_until_empty(lines: Seq<Seq<char>>) -> Seq<char>
    decreases lines.len(),
{
    if lines.len() == 0 || lines.first().len() == 0 {
        Seq::empty()
    } else {
        lines.first() + spec_accum_until_empty(lines.drop_first())
    }
}

/// The downward scan from the cursor line: accumulate nonempty lines,
/// looking for the prompt on the way; once found, the prompt is stripped
/// from its line and the rest is accumulated plainly.
pub open spec fn spec_scan_down(kind: ShellKind, lines: Seq<Seq<char>>, ok: Seq<bool>) -> (
    bool,
    Seq<char>,
    Seq<char>,
)
    decreases lines.len(),
{
    if lines.len() == 0 || lines.first().len() == 0 {
        (false, Seq::empty(), Seq::empty())
    } else {
        let line = lines.first();
        let pr = spec_line_prompt(kind, line, ok.first());
        if pr.len() > 0 {
            (true, pr, line.skip(pr.len() as int) + spec_accum_until_empty(lines.drop_first()))
        } else {
            let (f, p, inp) = spec_scan_down(kind, lines.drop_first(), ok.drop_first());
            (f, p, line + inp)
        }
    }
}

/// The upward scan above the cursor: each scanned line is prepended to the
/// accumulated input; when a line shows the prompt, it is stripped there
/// and the whole input is cleaned of continuation markers.
pub open spec fn spec_scan_up(
    kind: ShellKind,
    lines: Seq<Seq<char>>,
    ok: Seq<bool>,
    acc: Seq<char>,
) -> (bool, Seq<char>, Seq<char>)
    decreases lines.len(),
{
    if lines.len() == 0 {
        (false, Seq::empty(), Seq::empty())
    } else {
        let line = lines.first();
        let pr = spec_line_prompt(kind, line, ok.first());
        if pr.len() > 0 {
            (true, pr, spec_clean_continuations(kind, line.skip(pr.len() as int) + acc))
        } else {
            spec_scan_up(kind, lines.drop_first(), ok.drop_first(), line + acc)
        }
    }
}

/// What the whole prompt/input read yields: the downward result when it
/// finds the prompt, otherwise the upward scan seeded with the downward
/// accumulation; empty when neither finds it.
pub open spec fn spec_read_prompt_input(
    kind: ShellKind,
    down: Seq<Seq<char>>,
    down_ok: Seq<bool>,
    up: Seq<Seq<char>>,
    up_ok: Seq<bool>,
) -> (Seq<char>, Seq<char>) {
    let (found, pr, inp) = spec_scan_down(kind, down, down_ok);
    if found {
        (pr, inp)
    } else {
        let (fu, pu, iu) = spec_scan_up(kind, up, up_ok, inp);
        if fu {
            (pu, iu)
        } else {
            (Seq::empty(), Seq::empty())
        }
    }
}

/// Reads the prompt and the typed input from the derived screen lines.
///
/// `down` holds the derived lines from the cursor line downward, `up` the
/// lines above the cursor in upward scan order; `down_ok`/`up_ok` report,
/// line for line, whether the line's prompt-candidate directory exists
/// (filesystem state the caller checks with `prompt_candidate`).
pub fn read_prompt_input(
    kind: ShellKind,
    down: &Vec<String>,
    down_ok: &Vec<bool>,
    up: &Vec<String>,
    up_ok: &Vec<bool>,
) -> (r: (String, String))
    requires
        down@.len() == down_ok@.len(),
        up@.len() == up_ok@.len(),
    ensures
        (r.0@, r.1@) == spec_read_prompt_input(
            kind,
            down@.map_values(|l: String| l@),
            down_ok@,
            up@.map_values(|l: String| l@),
            up_ok@,
        ),
{
    let ghost dls = down@.map_values(|l: String| l@);
    let ghost uls = up@.map_values(|l: String| l@);
    let mut input: Vec<char> = Vec::new();
    let mut prompt: Option<String> = None;
    let mut n: usize = 0;
    let mut stopped = false;
    proof {
        assert(dls.skip(0) =~= dls);
        assert(down_ok@.skip(0) =~= down_ok@);
        let (f, p, inp) = spec_scan_down(kind, dls, down_ok@);
        assert(input@ + inp =~= inp);
    }
    while n < down.len() && !stopped
        invariant
            down@.len() == down_ok@.len(),
            dls == down@.map_values(|l: String| l@),
            n <= down.len(),
            stopped ==> n < down.len() && dls[n as int].len() == 0,
            match prompt {
                Some(p) => spec_scan_down(kind, dls, down_ok@) == (
                    true,
                    p@,
                    input@ + spec_accum_until_empty(dls.skip(n as int)),
                ),
                None => ({
                    let (f, p, inp) = spec_scan_down(kind, dls.skip(n as int), down_ok@.skip(
                        n as int,
                    ));
                    spec_scan_down(kind, dls, down_ok@) == (f, p, input@ + inp)
                }),
            },
        decreases down.len() - n + (if stopped { 0int } else { 1int }),
    {
        let line = &down[n];
        proof {
            assert(dls.skip(n as int).first() == line@);
            assert(dls.skip(n as int).drop_first() =~= dls.skip(n + 1));
            assert(down_ok@.skip(n as int).drop_first() =~= down_ok@.skip(n + 1));
        }
        if line.as_str().unicode_len() == 0 {
            stopped = true;
        } else {
        match &prompt {
            Some(_) => {
                let mut lv = chars_of(line.as_str());
                input.append(&mut lv);
            },
            None => {
                let pr = line_prompt(kind, line.as_str(), down_ok[n]);
                let pn = pr.as_str().unicode_len();
                if pn > 0 {
                    let lv = chars_of(line.as_str());
                    assert(spec_line_prompt(kind, line@, down_ok@[n as int]).len() <= line@.len());
                    let mut rest = sub_chars(&lv, pn, lv.len());
                    assert(rest@ =~= line@.skip(pn as int));
                    input.append(&mut rest);
                    prompt = Some(pr);
                } else {
                    let mut lv = chars_of(line.as_str());
                    input.append(&mut lv);
                }
            },
        }
        n += 1;
        }
    }
    proof {
        if stopped {
            assert(dls.skip(n as int).first() == dls[n as int]);
            assert(dls.skip(n as int).first().len() == 0);
        } else {
            assert(dls.skip(n as int).len() == 0);
        }
        if prompt is None {
            let (f, p, inp) = spec_scan_down(kind, dls.skip(n as int), down_ok@.skip(n as int));
            assert(!f && inp =~= Seq::<char>::empty());
            assert(input@ + inp =~= input@);
        } else {
            assert(spec_accum_until_empty(dls.skip(n as int)) =~= Seq::<char>::empty());
            assert(input@ + spec_accum_until_empty(dls.skip(n as int)) =~= input@);
        }
    }
    if let Some(p) = prompt {
        return (p, string_from_chars(&input));
    }
    proof {
        assert(old_input(dls, down_ok@, kind) == input@);
        assert(!spec_scan_down(kind, dls, down_ok@).0);
        assert(uls.skip(0) =~= uls);
        assert(up_ok@.skip(0) =~= up_ok@);
    }
    let mut m: usize = 0;
    while m < up.len()
        invariant
            up@.len() == up_ok@.len(),
            uls == up@.map_values(|l: String| l@),
            dls == down@.map_values(|l: String| l@),
            !spec_scan_down(kind, dls, down_ok@).0,
            m <= up.len(),
            spec_scan_up(kind, uls, up_ok@, old_input(dls, down_ok@, kind)) == spec_scan_up(
                kind,
                uls.skip(m as int),
                up_ok@.skip(m as int),
                input@,
            ),
        decreases up.len() - m,
    {
        let line = &up[m];
        proof {
            assert(uls.skip(m as int).first() == line@);
            assert(uls.skip(m as int).drop_first() =~= uls.skip(m + 1));
            assert(up_ok@.skip(m as int).drop_first() =~= up_ok@.skip(m + 1));
        }
        let pr = line_prompt(kind, line.as_str(), up_ok[m]);
        let pn = pr.as_str().unicode_len();
        let lv = chars_of(line.as_str());
        if pn > 0 {
            assert(spec_line_prompt(kind, line@, up_ok@[m as int]).len() <= line@.len());
            let ghost acc0 = input@;
            let mut rest = sub_chars(&lv, pn, lv.len());
            assert(rest@ =~= line@.skip(pn as int));
            rest.append(&mut input);
            assert(rest@ == line@.skip(pn as int) + acc0);
            let cleaned = clean_multiline_continuations(kind, string_from_chars(&rest).as_str());
            proof {
                assert(spec_scan_up(kind, uls.skip(m as int), up_ok@.skip(m as int), acc0) == (
                    true,
                    pr@,
                    spec_clean_continuations(kind, line@.skip(pn as int) + acc0),
                ));
            }
            return (pr, cleaned);
        }
        let mut joined = lv;
        joined.append(&mut input);
        input = joined;
        m += 1;
    }
    proof {
        assert(uls.skip(m as int).len() == 0);
    }
    let e1 = String::new();
    let e2 = String::new();
    assert(e1@ =~= Seq::<char>::empty());
    assert(e2@ =~= Seq::<char>::empty());
    (e1, e2)
}

/// The accumulated downward input handed to the upward scan.
pub open spec fn old_input(dls: Seq<Seq<char>>, dok: Seq<bool>, kind: ShellKind) -> Seq<char> {
    spec_scan_down(kind, dls, dok).2
}

/// The derived line the downward scan reads at row `y`: the part of the
/// cursor row before the cursor when only that is wanted; otherwise the row
/// without trailing blanks, except that a cursor row shorter than the
/// before-cursor text falls back to that text.
pub open spec fn spec_down_line(
    rows: Seq<Seq<char>>,
    lbc: Seq<char>,
    cur_y: int,
    only_before_cursor: bool,
    y: int,
) -> Seq<char> {
    if y == cur_y && only_before_cursor {
        lbc
    } else {
        let t = spec_trim_end(rows[y]);
        if y == cur_y && t.len() < lbc.len() {
            lbc
        } else {
            t
        }
    }
}

/// Derives the lines the prompt/input read scans: the rows from the cursor
/// row downward (or only the before-cursor text), and the rows above the
/// cursor in upward order, each without trailing blanks. `lbc` is the
/// cursor row's text before the cursor.
pub fn derive_scan_lines(
    rows: &Vec<String>,
    lbc: &str,
    cur_y: usize,
    from_y: usize,
    only_before_cursor: bool,
) -> (r: (Vec<String>, Vec<String>))
    requires
        from_y <= cur_y < rows@.len(),
    ensures
        ({
            let rws = rows@.map_values(|l: String| l@);
            let before_y = if only_before_cursor {
                cur_y + 1
            } else {
                rws.len() as int
            };
            &&& r.0@.len() == before_y - cur_y
        &&& forall|i: int|
                0 <= i < r.0@.len() ==> (#[trigger] r.0@[i])@ == spec_down_line(
                    rws,
                    lbc@,
                    cur_y as int,
                    only_before_cursor,
                    cur_y + i,
                )
        &&& r.1@.len() == cur_y - from_y
        &&& forall|i: int|
                0 <= i < r.1@.len() ==> (#[trigger] r.1@[i])@ == spec_trim_end(
                    rws[cur_y - 1 - i],
                )
        }),
{
    let ghost rws = rows@.map_values(|l: String| l@);
    assert(cur_y < rows.len());
    let before_y = if only_before_cursor {
        cur_y + 1
    } else {
        rows.len()
    };
    let mut down: Vec<String> = Vec::new();
    let mut y: usize = cur_y;
    while y < before_y
        invariant
            rws == rows@.map_values(|l: String| l@),
            from_y <= cur_y < rws.len(),
            before_y == if only_before_cursor {
                cur_y + 1
            } else {
                rws.len() as int
            },
            cur_y <= y <= before_y,
            down@.len() == y - cur_y,
            forall|i: int|
                0 <= i < down@.len() ==> (#[trigger] down@[i])@ == spec_down_line(
                    rws,
                    lbc@,
                    cur_y as int,
                    only_before_cursor,
                    cur_y + i,
                ),
        decreases before_y - y,
    {
        let line: String;
        if y == cur_y && only_before_cursor {
            line = lbc.to_owned();
        } else {
            let t = crate::text::trim_end_str(rows[y].as_str());
            if y == cur_y && t.as_str().unicode_len() < lbc.unicode_len() {
                line = lbc.to_owned();
            } else {
                line = t;
            }
        }
        down.push(line);
        y += 1;
    }
    let mut up: Vec<String> = Vec::new();
    let mut k: usize = 0;
    while k < cur_y - from_y
        invariant
            rws == rows@.map_values(|l: String| l@),
            from_y <= cur_y < rws.len(),
            k <= cur_y - from_y,
            up@.len() == k,
            forall|i: int|
                0 <= i < up@.len() ==> (#[trigger] up@[i])@ == spec_trim_end(rws[cur_y - 1 - i]),
        decreases cur_y - from_y - k,
    {
        let t = crate::text::trim_end_str(rows[cur_y - 1 - k].as_str());
        up.push(t);
        k += 1;
    }
    (down, up)
}

/// The column the completion popup is anchored at: the prompt's width plus
/// the width of the typed `cd ` (or `cd /d `) lead-in.
pub fn completion_anchor_col(prompt: &str, input: &str) -> (r: usize)
    requires
        input@.len() >= 3,
        prompt@.len() + 7 <= usize::MAX,
    ensures
        r == prompt@.len() + (if spec_starts_with(spec_trim_start(input@.skip(3)), "/d "@) {
            7int
        } else {
            3int
        }),
{
    proof {
        reveal_strlit("/d ");
    }
    let v = chars_of(input);
    let tail = sub_chars(&v, 3, v.len());
    assert(tail@ =~= input@.skip(3));
    let t = trim_start_chars(&tail);
    let flag = chars_of("/d ");
    let col = prompt.unicode_len();
    if crate::text::match_at(&t, &flag, 0) {
        assert(t@.skip(0) =~= t@);
        col + 7
    } else {
        assert(t@.skip(0) =~= t@);
        col + 3
    }
}

/// The foreground process in a console's process list: the first entry that
/// is neither the console's own shell nor the observing process, or the
/// shell itself when there is none.
pub open spec fn spec_fg_pid(pids: Seq<u32>, self_pid: u32, cur_pid: u32) -> u32
    decreases pids.len(),
{
    if pids.len() == 0 {
        self_pid
    } else if pids.first() != self_pid && pids.first() != cur_pid {
        pids.first()
    } else {
        spec_fg_pid(pids.drop_first(), self_pid, cur_pid)
    }
}

proof fn lemma_fg_pid_prefix(pids: Seq<u32>, self_pid: u32, cur_pid: u32, i: int)
    requires
        0 <= i <= pids.len(),
        forall|j: int| 0 <= j < i ==> pids[j] == self_pid || pids[j] == cur_pid,
    ensures
        i < pids.len() && pids[i] != self_pid && pids[i] != cur_pid ==> spec_fg_pid(
            pids,
            self_pid,
            cur_pid,
        ) == pids[i],
        i == pids.len() ==> spec_fg_pid(pids, self_pid, cur_pid) == self_pid,
    decreases pids.len(),
{
    if pids.len() > 0 {
        if pids.first() != self_pid && pids.first() != cur_pid {
        } else if i > 0 {
            lemma_fg_pid_prefix(pids.drop_first(), self_pid, cur_pid, i - 1);
        }
    }
}

/// Picks the foreground process id out of the console's process list,
/// skipping the shell's own id and the observing process's id.
pub fn fg_pid_from_list(pids: &Vec<u32>, self_pid: u32, cur_pid: u32) -> (r: u32)
    ensures
        r == spec_fg_pid(pids@, self_pid, cur_pid),
{
    let mut n: usize = 0;
    while n < pids.len()
        invariant
            n <= pids@.len(),
            forall|j: int| 0 <= j < n ==> pids@[j] == self_pid || pids@[j] == cur_pid,
        decreases pids.len() - n,
    {
        if pids[n] != self_pid && pids[n] != cur_pid {
            proof {
                lemma_fg_pid_prefix(pids@, self_pid, cur_pid, n as int);
            }
            return pids[n];
        }
        n += 1;
    }
    proof {
        lemma_fg_pid_prefix(pids@, self_pid, cur_pid, pids@.len() as int);
    }
    self_pid
}

/// The prompt one derived line shows, given whether its candidate directory
/// exists.
pub fn line_prompt(kind: ShellKind, line: &str, ok: bool) -> (r: String)
    ensures
        r@ == spec_line_prompt(kind, line@, ok),
        r@.len() <= line@.len(),
        r@.len() > 0 ==> spec_prompt_candidate(kind, line@) is Some,
{
    match prompt_candidate(kind, line) {
        Some((_dir, prompt)) => {
            if ok {
                proof {
                    crate::text::lemma_find_char_bounds(line@, '>');
                    let c = spec_prompt_candidate(kind, line@)->Some_0;
                    assert(c.1.len() <= line@.len());
                }
                prompt
            } else {
                let r = String::new();
                assert(r@ =~= Seq::<char>::empty());
                r
            }
        },
        None => {
            let r = String::new();
            assert(r@ =~= Seq::<char>::empty());
            r
        },
    }
}

/// Whether a character sequence holds a space.
pub open spec fn spec_has_space(s: Seq<char>) -> bool {
    exists|i: int| 0 <= i < s.len() && s[i] == ' '
}

/// The synthesized directory-change command: `cd `, then `/d ` when the
/// basic shell must cross drive letters (first characters differ), then the
/// target, quoted when it contains a space.
pub open spec fn spec_cd_command(kind: ShellKind, cur: Seq<char>, dir: Seq<char>) -> Seq<char> {
    "cd "@ + (if kind == ShellKind::Cmd && cur.len() > 0 && dir.len() > 0 && cur[0] != dir[0] {
        "/d "@
    } else {
        Seq::empty()
    }) + (if spec_has_space(dir) {
        seq!['"'] + dir + seq!['"']
    } else {
        dir
    })
}

/// Builds the directory-change command for `dir`, given the resolved
/// current directory (for the drive comparison).
pub fn build_cd_command(kind: ShellKind, cur: &str, dir: &str) -> (r: String)
    ensures
        r@ == spec_cd_command(kind, cur@, dir@),
{
    proof {
        reveal_strlit("cd ");
        reveal_strlit("/d ");
    }
    let mut out = chars_of("cd ");
    let cv = chars_of(cur);
    let dv = chars_of(dir);
    let cross = match kind {
        ShellKind::Cmd => cv.len() > 0 && dv.len() > 0 && cv[0] != dv[0],
        ShellKind::Ps => false,
    };
    if cross {
        let mut flag = chars_of("/d ");
        out.append(&mut flag);
    }
    let has_space = match crate::text::find_char_from(&dv, ' ', 0) {
        Some(_) => true,
        None => false,
    };
    if has_space {
        out.push('"');
        let mut d = chars_of(dir);
        out.append(&mut d);
        out.push('"');
        assert(out@ =~= spec_cd_command(kind, cur@, dir@));
    } else {
        let mut d = chars_of(dir);
        out.append(&mut d);
        assert(out@ =~= spec_cd_command(kind, cur@, dir@));
    }
    string_from_chars(&out)
}

/// The target of a `cd` replacement, when the typed command is a drive-
/// crossing `cd` on a shell that needs the explicit flag: the trimmed
/// target has a drive letter that differs (ignoring case) from the current
/// directory's.
pub open spec fn spec_replacement(kind: ShellKind, input: Seq<char>, cur: Seq<char>) -> Option<
    Seq<char>,
> {
    if input.len() > 3 && spec_lower(input.take(3)) == spec_lower("cd "@) && kind
        == ShellKind::Cmd {
        let t = spec_trim_start(input.skip(3));
        if t.len() >= 2 && t[1] == ':' && cur.len() >= 2 && spec_lower(cur.take(2)) != spec_lower(
            t.take(2),
        ) {
            Some("cd /d "@ + t)
        } else {
            None
        }
    } else {
        None
    }
}

/// The partial target a `cd` command line carries for completion: the text
/// after `cd `, with a leading `/d ` flag and a leading quote stripped; a
/// different `/`-flag offers nothing.
pub open spec fn spec_cd_partial(input: Seq<char>) -> Option<Seq<char>> {
    if input.len() < 3 {
        None
    } else {
        let t = spec_trim_start(input.skip(3));
        if t.len() > 0 && t[0] == '/' {
            if spec_starts_with(t, "/d "@) {
                Some(spec_strip_quote(spec_trim_start(t.skip(3))))
            } else {
                None
            }
        } else {
            Some(spec_strip_quote(t))
        }
    }
}

/// Drops one leading quote.
pub open spec fn spec_strip_quote(s: Seq<char>) -> Seq<char> {
    if s.len() > 0 && s[0] == '"' {
        s.drop_first()
    } else {
        s
    }
}

/// Extracts the completion target from a typed `cd` command line.
pub fn cd_partial(input: &str) -> (r: Option<String>)
    ensures
        match spec_cd_partial(input@) {
            Some(p) => matches!(r, Some(_)) && r->Some_0@ == p,
            None => matches!(r, None),
        },
{
    let v = chars_of(input);
    if v.len() < 3 {
        return None;
    }
    let tail = sub_chars(&v, 3, v.len());
    assert(tail@ =~= input@.skip(3));
    let t = trim_start_chars(&tail);
    if t.len() > 0 && t[0] == '/' {
        proof {
            reveal_strlit("/d ");
        }
        let flag = chars_of("/d ");
        if crate::text::match_at(&t, &flag, 0) {
            assert(t@.skip(0) =~= t@);
            let rest = sub_chars(&t, 3, t.len());
            assert(rest@ =~= t@.skip(3));
            let u = trim_start_chars(&rest);
            let s = strip_quote_chars(&u);
            return Some(string_from_chars(&s));
        }
        assert(t@.skip(0) =~= t@);
        return None;
    }
    let s = strip_quote_chars(&t);
    Some(string_from_chars(&s))
}

/// Removes leading blanks.
fn trim_start_chars(v: &Vec<char>) -> (r: Vec<char>)
    ensures
        r@ == spec_trim_start(v@),
{
    let mut a: usize = 0;
    assert(v@.skip(0) =~= v@);
    while a < v.len() && crate::text::is_space(v[a])
        invariant
            a <= v.len(),
            spec_trim_start(v@) == spec_trim_start(v@.skip(a as int)),
        decreases v.len() - a,
    {
        assert(v@.skip(a as int).drop_first() =~= v@.skip(a + 1));
        a += 1;
    }
    let r = sub_chars(v, a, v.len());
    assert(r@ =~= v@.skip(a as int));
    proof {
        if a < v.len() {
            assert(spec_trim_start(v@.skip(a as int)) == v@.skip(a as int));
        } else {
            assert(v@.skip(a as int) =~= Seq::<char>::empty());
        }
    }
    r
}

/// Drops one leading quote.
fn strip_quote_chars(v: &Vec<char>) -> (r: Vec<char>)
    ensures
        r@ == spec_strip_quote(v@),
{
    if v.len() > 0 && v[0] == '"' {
        let r = sub_chars(v, 1, v.len());
        assert(r@ =~= v@.drop_first());
        r
    } else {
        let r = sub_chars(v, 0, v.len());
        assert(r@ =~= v@);
        r
    }
}

/// What RETURN-up asks of the environment: inject the queued replacement
/// (and submit it again), or just re-resolve the current directory.
pub enum ReturnUpOutcome {
    Replaced(String),
    Resolve,
}

/// What a back/forward/up/home navigation chord yields: an impossible move
/// rings the bell, a move to the directory already current does nothing,
/// and otherwise a command is typed at the prompt.
pub enum NavOutcome {
    Bell,
    Quiet,
    Command(String),
}

/// What a non-alt key-up does about completion: issue a request for a
/// partial target, hide the popup, or nothing.
pub enum CompletionDecision {
    Request(String),
    Hide,
    Nothing,
}

/// One console session: its shell profile, directory history, command log,
/// queued replacing command and the small per-key state flags.
pub struct ConsoleSession {
    kind: ShellKind,
    cur_dir: CurDir,
    command_hist: CommandHist,
    replacing_command: String,
    last_command_y: u32,
    showing_ac_list: bool,
    update_cur_dir_on_key_up: bool,
    manual_cd_completing: bool,
}

impl ConsoleSession {
    /// The session's shell profile.
    pub closed spec fn kind_spec(&self) -> ShellKind {
        self.kind
    }

    /// The directory history entries.
    pub closed spec fn dir_hist(&self) -> Seq<Seq<char>> {
        self.cur_dir.hist()
    }

    /// The directory history cursor.
    pub closed spec fn dir_cursor(&self) -> int {
        self.cur_dir.cursor()
    }

    /// The directory change notifications fired so far.
    pub closed spec fn dir_notes(&self) -> Seq<Seq<char>> {
        self.cur_dir.notes()
    }

    /// The recorded commands.
    pub closed spec fn hist_entries(&self) -> Seq<(u64, Seq<char>)> {
        self.command_hist.entries()
    }

    /// The session id of the command log.
    pub closed spec fn hist_sid(&self) -> u32 {
        self.command_hist.sid_spec()
    }

    /// The queued replacing command (empty when none).
    pub closed spec fn replacing(&self) -> Seq<char> {
        self.replacing_command@
    }

    /// The row of the last submitted command.
    pub closed spec fn last_y(&self) -> u32 {
        self.last_command_y
    }

    /// Whether the completion popup is showing.
    pub closed spec fn showing_ac(&self) -> bool {
        self.showing_ac_list
    }

    /// Whether a directory re-resolution is pending for the next key-up.
    pub closed spec fn pending_refresh(&self) -> bool {
        self.update_cur_dir_on_key_up
    }

    /// Whether a manually requested completion is in progress.
    pub closed spec fn manual_completing(&self) -> bool {
        self.manual_cd_completing
    }

    /// The directory history is well formed.
    pub closed spec fn wf(&self) -> bool {
        self.cur_dir.wf()
    }

    pub fn new(kind: ShellKind, category: &str, sid: u32) -> (r: ConsoleSession)
        ensures
            r.wf(),
            r.kind_spec() == kind,
            r.dir_hist() =~= Seq::<Seq<char>>::empty(),
            r.dir_notes() =~= Seq::<Seq<char>>::empty(),
            r.hist_entries() =~= Seq::<(u64, Seq<char>)>::empty(),
            r.hist_sid() == sid,
            r.replacing() =~= Seq::<char>::empty(),
            r.last_y() == 0,
            !r.showing_ac(),
            !r.pending_refresh(),
            !r.manual_completing(),
    {
        let r = ConsoleSession {
            kind,
            cur_dir: CurDir::new(),
            command_hist: CommandHist::new(category, sid),
            replacing_command: String::new(),
            last_command_y: 0,
            showing_ac_list: false,
            update_cur_dir_on_key_up: false,
            manual_cd_completing: false,
        };
        assert(r.replacing() =~= Seq::<char>::empty());
        r
    }

    /// The current directory entry (empty before any has been set).
    pub fn current_dir(&self) -> (r: String)
        requires
            self.wf(),
        ensures
            self.dir_hist().len() == 0 ==> r@ =~= Seq::<char>::empty(),
            self.dir_hist().len() > 0 ==> r@ == self.dir_hist()[self.dir_cursor()],
    {
        self.cur_dir.get()
    }

    /// Whether any directory has been recorded.
    pub fn has_dir(&self) -> (r: bool)
        ensures
            r == (self.dir_hist().len() > 0),
    {
        self.cur_dir.has_set()
    }

    /// All directory-change notifications so far, for the recently-used list.
    pub fn notified_dirs(&self) -> (r: Vec<String>)
        ensures
            r@.map_values(|s: String| s@) == self.dir_notes(),
    {
        self.cur_dir.notified_dirs()
    }

    /// Records the freshly resolved current directory; an empty resolution
    /// (the attach failed this cycle) changes nothing.
    pub fn update_cur_dir(&mut self, resolved: &str)
        requires
            old(self).wf(),
        ensures
            final(self).wf(),
            resolved@.len() == 0 ==> final(self).dir_hist() == old(self).dir_hist() && final(self).dir_cursor() == old(self).dir_cursor() && final(self).dir_notes() == old(
                self,
            ).dir_notes(),
            resolved@.len() > 0 ==> (final(self).dir_hist(), final(self).dir_cursor())
                == spec_set_hist(old(self).dir_hist(), old(self).dir_cursor(), resolved@) && final(self).dir_notes() == (if spec_set_notifies(
                old(self).dir_hist(),
                old(self).dir_cursor(),
                resolved@,
            ) {
                old(self).dir_notes().push(resolved@)
            } else {
                old(self).dir_notes()
            }),
            final(self).kind_spec() == old(self).kind_spec(),
            final(self).hist_entries() == old(self).hist_entries(),
            final(self).hist_sid() == old(self).hist_sid(),
            final(self).replacing() == old(self).replacing(),
            final(self).last_y() == old(self).last_y(),
            final(self).showing_ac() == old(self).showing_ac(),
            final(self).pending_refresh() == old(self).pending_refresh(),
            final(self).manual_completing() == old(self).manual_completing(),
    {
        if resolved.unicode_len() == 0 {
            return ;
        }
        self.cur_dir.set(resolved);
    }

    /// RETURN-down, first step: remembers the cursor row and says from
    /// which row the upward prompt scan may start (just under the previous
    /// command's row, or the top when the cursor did not move down).
    pub fn return_down_scan_start(&mut self, cur_y: u32) -> (from_y: u32)
        ensures
            from_y == if cur_y > old(self).last_y() {
                old(self).last_y() + 1
            } else {
                0int
            },
            final(self).last_y() == cur_y,
            final(self).kind_spec() == old(self).kind_spec(),
            final(self).wf() == old(self).wf(),
            final(self).dir_hist() == old(self).dir_hist(),
            final(self).dir_cursor() == old(self).dir_cursor(),
            final(self).dir_notes() == old(self).dir_notes(),
            final(self).hist_entries() == old(self).hist_entries(),
            final(self).hist_sid() == old(self).hist_sid(),
            final(self).replacing() == old(self).replacing(),
            final(self).showing_ac() == old(self).showing_ac(),
            final(self).pending_refresh() == old(self).pending_refresh(),
            final(self).manual_completing() == old(self).manual_completing(),
    {
        let from_y = if cur_y > self.last_command_y {
            self.last_command_y + 1
        } else {
            0
        };
        self.last_command_y = cur_y;
        from_y
    }

    /// RETURN-down, second step: if the typed input is a drive-crossing
    /// `cd` on a shell that needs the explicit flag, queues the flagged
    /// replacement and claims the key; the submitted command (replacement
    /// or original) is recorded in the command log under `time`.
    pub fn handle_return_down(&mut self, input: &str, cur_dir_resolved: &str, time: u64) -> (handled:
        bool)
        ensures
            final(self).replacing() == (match spec_replacement(
                old(self).kind_spec(),
                input@,
                cur_dir_resolved@,
            ) {
                Some(rep) => rep,
                None => old(self).replacing(),
            }),
            handled == (final(self).replacing().len() > 0),
            final(self).hist_entries() == (if handled {
                old(self).hist_entries().push((time, final(self).replacing()))
            } else if input@.len() > 0 {
                old(self).hist_entries().push((time, input@))
            } else {
                old(self).hist_entries()
            }),
            final(self).kind_spec() == old(self).kind_spec(),
            final(self).wf() == old(self).wf(),
            final(self).dir_hist() == old(self).dir_hist(),
            final(self).dir_cursor() == old(self).dir_cursor(),
            final(self).dir_notes() == old(self).dir_notes(),
            final(self).hist_sid() == old(self).hist_sid(),
            final(self).last_y() == old(self).last_y(),
            final(self).showing_ac() == old(self).showing_ac(),
            final(self).pending_refresh() == old(self).pending_refresh(),
            final(self).manual_completing() == old(self).manual_completing(),
    {
        proof {
            reveal_strlit("cd ");
            reveal_strlit("cd /d ");
        }
        let v = chars_of(input);
        if v.len() > 3 {
            let head = sub_chars(&v, 0, 3);
            assert(head@ =~= input@.take(3));
            let head_s = string_from_chars(&head);
            if eq_ignore_case(head_s.as_str(), "cd ") {
                let cross = match self.kind {
                    ShellKind::Cmd => false,
                    ShellKind::Ps => true,
                };
                if !cross {
                    let tail = sub_chars(&v, 3, v.len());
                    assert(tail@ =~= input@.skip(3));
                    let t = trim_start_chars(&tail);
                    let cv = chars_of(cur_dir_resolved);
                    if t.len() >= 2 && t[1] == ':' && cv.len() >= 2 {
                        let t2 = sub_chars(&t, 0, 2);
                        let c2 = sub_chars(&cv, 0, 2);
                        assert(t2@ =~= t@.take(2));
                        assert(c2@ =~= cur_dir_resolved@.take(2));
                        let t2s = string_from_chars(&t2);
                        let c2s = string_from_chars(&c2);
                        if !eq_ignore_case(c2s.as_str(), t2s.as_str()) {
                            let mut rep = chars_of("cd /d ");
                            let mut tcopy = sub_chars(&t, 0, t.len());
                            assert(tcopy@ =~= t@);
                            rep.append(&mut tcopy);
                            assert(rep@ =~= "cd /d "@ + t@);
                            self.replacing_command = string_from_chars(&rep);
                        }
                    }
                }
            }
        }
        if self.replacing_command.as_str().unicode_len() > 0 {
            let rep = self.replacing_command.clone();
            self.command_hist.add(rep.as_str(), time);
            return true;
        }
        if v.len() > 0 {
            self.command_hist.add(input, time);
        }
        false
    }

    /// RETURN-up: if a replacement was queued, hands it out for injection
    /// (to be submitted again) and marks the directory for re-resolution on
    /// the next key-up; otherwise asks for a plain re-resolution.
    pub fn handle_return_up(&mut self) -> (r: ReturnUpOutcome)
        ensures
            old(self).replacing().len() > 0 ==> ({
                &&& r matches ReturnUpOutcome::Replaced(cmd)
            &&& cmd@ == old(self).replacing()
            &&& final(self).replacing() =~= Seq::<char>::empty()
            &&& final(self).pending_refresh()
            }),
            old(self).replacing().len() == 0 ==> matches!(r, ReturnUpOutcome::Resolve) && final(self).replacing() == old(self).replacing() && final(self).pending_refresh() == old(
                self,
            ).pending_refresh(),
            final(self).kind_spec() == old(self).kind_spec(),
            final(self).wf() == old(self).wf(),
            final(self).dir_hist() == old(self).dir_hist(),
            final(self).dir_cursor() == old(self).dir_cursor(),
            final(self).dir_notes() == old(self).dir_notes(),
            final(self).hist_entries() == old(self).hist_entries(),
            final(self).hist_sid() == old(self).hist_sid(),
            final(self).last_y() == old(self).last_y(),
            final(self).showing_ac() == old(self).showing_ac(),
            final(self).manual_completing() == old(self).manual_completing(),
    {
        if self.replacing_command.as_str().unicode_len() > 0 {
            let cmd = self.replacing_command.clone();
            self.replacing_command = String::new();
            assert(self.replacing_command@ =~= Seq::<char>::empty());
            self.update_cur_dir_on_key_up = true;
            ReturnUpOutcome::Replaced(cmd)
        } else {
            ReturnUpOutcome::Resolve
        }
    }

    /// Whether the next key-up owes a directory re-resolution; asking
    /// clears the mark.
    pub fn take_pending_refresh(&mut self) -> (r: bool)
        ensures
            r == old(self).pending_refresh(),
            !final(self).pending_refresh(),
            final(self).kind_spec() == old(self).kind_spec(),
            final(self).wf() == old(self).wf(),
            final(self).dir_hist() == old(self).dir_hist(),
            final(self).dir_cursor() == old(self).dir_cursor(),
            final(self).dir_notes() == old(self).dir_notes(),
            final(self).hist_entries() == old(self).hist_entries(),
            final(self).hist_sid() == old(self).hist_sid(),
            final(self).replacing() == old(self).replacing(),
            final(self).last_y() == old(self).last_y(),
            final(self).showing_ac() == old(self).showing_ac(),
            final(self).manual_completing() == old(self).manual_completing(),
    {
        let r = self.update_cur_dir_on_key_up;
        self.update_cur_dir_on_key_up = false;
        r
    }

    /// Synthesizes a `cd` to `dir` and records it, unless the console is
    /// already there.
    pub fn cd(&mut self, dir: &str, cur_dir_resolved: &str, time: u64) -> (r: Option<String>)
        ensures
            cur_dir_resolved@ == dir@ ==> matches!(r, None) && final(self).hist_entries() == old(
                self,
            ).hist_entries(),
            cur_dir_resolved@ != dir@ ==> ({
                let cmd = spec_cd_command(old(self).kind_spec(), cur_dir_resolved@, dir@);
                &&& matches!(r, Some(_))
            &&& r->Some_0@ == cmd
            &&& final(self).hist_entries() == old(self).hist_entries().push((time, cmd))
            }),
            final(self).kind_spec() == old(self).kind_spec(),
            final(self).wf() == old(self).wf(),
            final(self).dir_hist() == old(self).dir_hist(),
            final(self).dir_cursor() == old(self).dir_cursor(),
            final(self).dir_notes() == old(self).dir_notes(),
            final(self).hist_sid() == old(self).hist_sid(),
            final(self).replacing() == old(self).replacing(),
            final(self).last_y() == old(self).last_y(),
            final(self).showing_ac() == old(self).showing_ac(),
            final(self).pending_refresh() == old(self).pending_refresh(),
            final(self).manual_completing() == old(self).manual_completing(),
    {
        let cur = String::from_str(cur_dir_resolved);
        let d = String::from_str(dir);
        if cur.eq(&d) {
            return None;
        }
        let cmd = build_cd_command(self.kind, cur_dir_resolved, dir);
        self.command_hist.add(cmd.as_str(), time);
        Some(cmd)
    }

    /// ALT+LEFT: steps back through the directory history; at the oldest
    /// entry only the bell rings.
    pub fn on_alt_left(&mut self, cur_dir_resolved: &str, time: u64) -> (r: NavOutcome)
        requires
            old(self).wf(),
        ensures
            final(self).wf(),
            ({
                let (c1, d) = spec_back(old(self).dir_hist(), old(self).dir_cursor());
                &&& final(self).dir_hist() == old(self).dir_hist()
            &&& final(self).dir_cursor() == c1
            &&& final(self).dir_notes() == old(self).dir_notes()
            &&& (if d.len() == 0 {
                    matches!(r, NavOutcome::Bell) && final(self).hist_entries() == old(
                        self,
                    ).hist_entries()
                } else if d == cur_dir_resolved@ {
                    matches!(r, NavOutcome::Quiet) && final(self).hist_entries() == old(
                        self,
                    ).hist_entries()
                } else {
                    let cmd = spec_cd_command(old(self).kind_spec(), cur_dir_resolved@, d);
                    &&& r matches NavOutcome::Command(c)
                &&& c@ == cmd
                &&& final(self).hist_entries() == old(self).hist_entries().push((time, cmd))
                })
            }),
            final(self).kind_spec() == old(self).kind_spec(),
            final(self).hist_sid() == old(self).hist_sid(),
            final(self).replacing() == old(self).replacing(),
            final(self).last_y() == old(self).last_y(),
            final(self).showing_ac() == old(self).showing_ac(),
            final(self).pending_refresh() == old(self).pending_refresh(),
            final(self).manual_completing() == old(self).manual_completing(),
    {
        let dir = self.cur_dir.go_back();
        if dir.as_str().unicode_len() == 0 {
            return NavOutcome::Bell;
        }
        match self.cd(dir.as_str(), cur_dir_resolved, time) {
            Some(cmd) => NavOutcome::Command(cmd),
            None => NavOutcome::Quiet,
        }
    }

    /// ALT+RIGHT: steps forward through the directory history; at the
    /// newest entry only the bell rings.
    pub fn on_alt_right(&mut self, cur_dir_resolved: &str, time: u64) -> (r: NavOutcome)
        requires
            old(self).wf(),
        ensures
            final(self).wf(),
            ({
                let (c1, d) = spec_forward(old(self).dir_hist(), old(self).dir_cursor());
                &&& final(self).dir_hist() == old(self).dir_hist()
            &&& final(self).dir_cursor() == c1
            &&& final(self).dir_notes() == old(self).dir_notes()
            &&& (if d.len() == 0 {
                    matches!(r, NavOutcome::Bell) && final(self).hist_entries() == old(
                        self,
                    ).hist_entries()
                } else if d == cur_dir_resolved@ {
                    matches!(r, NavOutcome::Quiet) && final(self).hist_entries() == old(
                        self,
                    ).hist_entries()
                } else {
                    let cmd = spec_cd_command(old(self).kind_spec(), cur_dir_resolved@, d);
                    &&& r matches NavOutcome::Command(c)
                &&& c@ == cmd
                &&& final(self).hist_entries() == old(self).hist_entries().push((time, cmd))
                })
            }),
            final(self).kind_spec() == old(self).kind_spec(),
            final(self).hist_sid() == old(self).hist_sid(),
            final(self).replacing() == old(self).replacing(),
            final(self).last_y() == old(self).last_y(),
            final(self).showing_ac() == old(self).showing_ac(),
            final(self).pending_refresh() == old(self).pending_refresh(),
            final(self).manual_completing() == old(self).manual_completing(),
    {
        let dir = self.cur_dir.go_forward();
        if dir.as_str().unicode_len() == 0 {
            return NavOutcome::Bell;
        }
        match self.cd(dir.as_str(), cur_dir_resolved, time) {
            Some(cmd) => NavOutcome::Command(cmd),
            None => NavOutcome::Quiet,
        }
    }

    /// ALT+UP: moves to the parent directory (the caller re-resolves and
    /// records the current directory first); at a root only the bell rings.
    /// The parent move types a literal `cd ..`.
    pub fn on_alt_up(&mut self, time: u64) -> (r: NavOutcome)
        requires
            old(self).wf(),
        ensures
            final(self).wf(),
            ({
                let cur = if old(self).dir_hist().len() == 0 {
                    Seq::<char>::empty()
                } else {
                    old(self).dir_hist()[old(self).dir_cursor()]
                };
                let p = spec_parent_dir(cur);
                if p.len() == 0 {
                    &&& matches!(r, NavOutcome::Bell)
                &&& final(self).dir_hist() == old(self).dir_hist()
                &&& final(self).dir_cursor() == old(self).dir_cursor()
                &&& final(self).dir_notes() == old(self).dir_notes()
                &&& final(self).hist_entries() == old(self).hist_entries()
                } else {
                    &&& r matches NavOutcome::Command(c)
                &&& c@ == "cd .."@
                &&& (final(self).dir_hist(), final(self).dir_cursor()) == spec_set_hist(
                        old(self).dir_hist(),
                        old(self).dir_cursor(),
                        p,
                    )
                &&& final(self).hist_entries() == old(self).hist_entries().push(
                        (time, "cd .."@),
                    )
                }
            }),
            final(self).kind_spec() == old(self).kind_spec(),
            final(self).hist_sid() == old(self).hist_sid(),
            final(self).replacing() == old(self).replacing(),
            final(self).last_y() == old(self).last_y(),
            final(self).showing_ac() == old(self).showing_ac(),
            final(self).pending_refresh() == old(self).pending_refresh(),
            final(self).manual_completing() == old(self).manual_completing(),
    {
        let dir = self.cur_dir.go_up();
        if dir.as_str().unicode_len() == 0 {
            return NavOutcome::Bell;
        }
        let cmd = String::from_str("cd ..");
        self.command_hist.add(cmd.as_str(), time);
        NavOutcome::Command(cmd)
    }

    /// ALT+HOME: jumps to the home directory, unless already there.
    pub fn on_alt_home(&mut self, home: &str, cur_dir_resolved: &str, time: u64) -> (r: NavOutcome)
        requires
            old(self).wf(),
        ensures
            final(self).wf(),
            home@ == cur_dir_resolved@ ==> matches!(r, NavOutcome::Quiet) && final(self).dir_hist()
                == old(self).dir_hist() && final(self).dir_cursor() == old(self).dir_cursor()
                && final(self).dir_notes() == old(self).dir_notes() && final(self).hist_entries()
                == old(self).hist_entries(),
            home@ != cur_dir_resolved@ ==> ({
                let cmd = spec_cd_command(old(self).kind_spec(), cur_dir_resolved@, home@);
                &&& r matches NavOutcome::Command(c)
            &&& c@ == cmd
            &&& (final(self).dir_hist(), final(self).dir_cursor()) == spec_set_hist(
                    old(self).dir_hist(),
                    old(self).dir_cursor(),
                    home@,
                )
            &&& final(self).hist_entries() == old(self).hist_entries().push((time, cmd))
            }),
            final(self).kind_spec() == old(self).kind_spec(),
            final(self).hist_sid() == old(self).hist_sid(),
            final(self).replacing() == old(self).replacing(),
            final(self).last_y() == old(self).last_y(),
            final(self).showing_ac() == old(self).showing_ac(),
            final(self).pending_refresh() == old(self).pending_refresh(),
            final(self).manual_completing() == old(self).manual_completing(),
    {
        let h = String::from_str(home);
        let c = String::from_str(cur_dir_resolved);
        if h.eq(&c) {
            return NavOutcome::Quiet;
        }
        self.cur_dir.set(home);
        match self.cd(home, cur_dir_resolved, time) {
            Some(cmd) => NavOutcome::Command(cmd),
            None => NavOutcome::Quiet,
        }
    }

    /// ALT+DOWN: ensures a `cd ` is at the prompt so the manual completion
    /// that follows has a target; returns the text to inject when the
    /// prompt does not show one yet.
    pub fn on_alt_down(&self, input: &str) -> (r: Option<String>)
        ensures
            spec_starts_with(input@, "cd "@) ==> matches!(r, None),
            !spec_starts_with(input@, "cd "@) ==> matches!(r, Some(_)) && r->Some_0@ == "cd "@,
    {
        proof {
            reveal_strlit("cd ");
        }
        if starts_with_str(input, "cd ") {
            None
        } else {
            Some(String::from_str("cd "))
        }
    }

    /// The deferred step of ALT+DOWN, once the prompt shows a `cd `:
    /// marks the manual completion in progress and extracts its target.
    pub fn on_post_alt_down(&mut self, input: &str) -> (r: Option<String>)
        ensures
            spec_starts_with(input@, "cd "@) ==> final(self).manual_completing() && (match
                spec_cd_partial(input@) {
                Some(p) => matches!(r, Some(_)) && r->Some_0@ == p,
                None => matches!(r, None),
            }),
            !spec_starts_with(input@, "cd "@) ==> matches!(r, None) && final(self).manual_completing() == old(self).manual_completing(),
            final(self).kind_spec() == old(self).kind_spec(),
            final(self).wf() == old(self).wf(),
            final(self).dir_hist() == old(self).dir_hist(),
            final(self).dir_cursor() == old(self).dir_cursor(),
            final(self).dir_notes() == old(self).dir_notes(),
            final(self).hist_entries() == old(self).hist_entries(),
            final(self).hist_sid() == old(self).hist_sid(),
            final(self).replacing() == old(self).replacing(),
            final(self).last_y() == old(self).last_y(),
            final(self).showing_ac() == old(self).showing_ac(),
            final(self).pending_refresh() == old(self).pending_refresh(),
    {
        proof {
            reveal_strlit("cd ");
        }
        if !starts_with_str(input, "cd ") {
            return None;
        }
        self.manual_cd_completing = true;
        cd_partial(input)
    }

    /// A non-alt key-up at the prompt: a typed `cd` keeps or starts a
    /// completion request (while enabled or manually in progress, and not
    /// on ESCAPE); anything else hides a showing popup.
    pub fn decide_completion(&mut self, is_escape: bool, input: &str, enabled: bool) -> (r:
        CompletionDecision)
        ensures
            ({
                let cding = spec_starts_with(input@, "cd "@);
                let manual1 = old(self).manual_completing() && cding;
                &&& final(self).manual_completing() == (if cding {
                    old(self).manual_completing()
                } else {
                    false
                })
            &&& (if cding && !is_escape && (enabled || manual1) {
                    (match spec_cd_partial(input@) {
                        Some(p) => matches!(r, CompletionDecision::Request(_)) && (r matches
                        CompletionDecision::Request(q) && q@ == p),
                        None => matches!(r, CompletionDecision::Nothing),
                    }) && final(self).showing_ac() == old(self).showing_ac()
                } else if old(self).showing_ac() {
                    matches!(r, CompletionDecision::Hide) && !final(self).showing_ac()
                } else {
                    matches!(r, CompletionDecision::Nothing) && final(self).showing_ac() == old(
                        self,
                    ).showing_ac()
                })
            }),
            final(self).kind_spec() == old(self).kind_spec(),
            final(self).wf() == old(self).wf(),
            final(self).dir_hist() == old(self).dir_hist(),
            final(self).dir_cursor() == old(self).dir_cursor(),
            final(self).dir_notes() == old(self).dir_notes(),
            final(self).hist_entries() == old(self).hist_entries(),
            final(self).hist_sid() == old(self).hist_sid(),
            final(self).replacing() == old(self).replacing(),
            final(self).last_y() == old(self).last_y(),
            final(self).pending_refresh() == old(self).pending_refresh(),
    {
        proof {
            reveal_strlit("cd ");
        }
        let cding = starts_with_str(input, "cd ");
        if !cding {
            self.manual_cd_completing = false;
        }
        if cding && !is_escape && (enabled || self.manual_cd_completing) {
            match cd_partial(input) {
                Some(p) => CompletionDecision::Request(p),
                None => CompletionDecision::Nothing,
            }
        } else if self.showing_ac_list {
            self.showing_ac_list = false;
            CompletionDecision::Hide
        } else {
            CompletionDecision::Nothing
        }
    }

    /// Notes that the completion popup is now showing.
    pub fn note_popup_shown(&mut self)
        ensures
            final(self).showing_ac(),
            final(self).kind_spec() == old(self).kind_spec(),
            final(self).wf() == old(self).wf(),
            final(self).dir_hist() == old(self).dir_hist(),
            final(self).dir_cursor() == old(self).dir_cursor(),
            final(self).dir_notes() == old(self).dir_notes(),
            final(self).hist_entries() == old(self).hist_entries(),
            final(self).hist_sid() == old(self).hist_sid(),
            final(self).replacing() == old(self).replacing(),
            final(self).last_y() == old(self).last_y(),
            final(self).pending_refresh() == old(self).pending_refresh(),
            final(self).manual_completing() == old(self).manual_completing(),
    {
        self.showing_ac_list = true;
    }

    /// Hides the popup if it was showing; says whether it was.
    pub fn hide_popup(&mut self) -> (r: bool)
        ensures
            r == old(self).showing_ac(),
            !final(self).showing_ac(),
            final(self).kind_spec() == old(self).kind_spec(),
            final(self).wf() == old(self).wf(),
            final(self).dir_hist() == old(self).dir_hist(),
            final(self).dir_cursor() == old(self).dir_cursor(),
            final(self).dir_notes() == old(self).dir_notes(),
            final(self).hist_entries() == old(self).hist_entries(),
            final(self).hist_sid() == old(self).hist_sid(),
            final(self).replacing() == old(self).replacing(),
            final(self).last_y() == old(self).last_y(),
            final(self).pending_refresh() == old(self).pending_refresh(),
            final(self).manual_completing() == old(self).manual_completing(),
    {
        let r = self.showing_ac_list;
        self.showing_ac_list = false;
        r
    }

    /// Renders the not-yet-persisted command-log entries and advances the
    /// watermark; the caller appends the text to the log file.
    pub fn save_history_text(&mut self) -> (r: String)
        ensures
            r@ == crate::command_hist::spec_render_from(
                old(self).hist_sid(),
                old(self).hist_entries(),
                old(self).hist_saved(),
            ),
            final(self).hist_entries() == old(self).hist_entries(),
            final(self).hist_sid() == old(self).hist_sid(),
            final(self).hist_saved() == final(self).hist_entries().len(),
            final(self).kind_spec() == old(self).kind_spec(),
            final(self).wf() == old(self).wf(),
            final(self).dir_hist() == old(self).dir_hist(),
            final(self).dir_cursor() == old(self).dir_cursor(),
            final(self).dir_notes() == old(self).dir_notes(),
            final(self).replacing() == old(self).replacing(),
            final(self).last_y() == old(self).last_y(),
            final(self).showing_ac() == old(self).showing_ac(),
            final(self).pending_refresh() == old(self).pending_refresh(),
            final(self).manual_completing() == old(self).manual_completing(),
    {
        self.command_hist.save_text()
    }

    /// How many leading command-log entries are already persisted.
    pub closed spec fn hist_saved(&self) -> int {
        self.command_hist.saved_spec()
    }

    /// The session id of the command log.
    pub fn sid(&self) -> (r: u32)
        ensures
            r == self.hist_sid(),
    {
        self.command_hist.sid()
    }

    /// Whether the command log is still empty.
    pub fn history_is_empty(&self) -> (r: bool)
        ensures
            r == (self.hist_entries().len() == 0),
    {
        self.command_hist.is_empty()
    }
}

} // verus!
