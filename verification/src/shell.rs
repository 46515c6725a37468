//! Shell profiles: how each supported shell exposes its prompt, current
//! directory, directory-change rules and input channel.

use vstd::prelude::*;
use crate::text::{
    chars_of, string_from_chars, sub_chars, remove_all, eq_ignore_case, starts_with_str,
    find_char_from, spec_lower, spec_find_char, spec_starts_with, spec_remove_all,
    lemma_find_char_at,
};

verus! {


/// The closed set of shell variants a console session distinguishes.
#[derive(Clone, Copy, PartialEq, Eq, Structural, Debug)]
pub enum ShellKind {
    /// The basic command shell.
    Cmd,
    /// The structured scripting shell.
    Ps,
}

/// Which shell a console executable name selects: the scripting shell for
/// its two known executable names (compared ignoring case), the basic shell
/// otherwise.
pub open spec fn spec_shell_kind_of_exe(name: Seq<char>) -> ShellKind {
    if spec_lower(name) == spec_lower("powershell.exe"@) || spec_lower(name) == spec_lower(
        "pwsh.exe"@,
    ) {
        ShellKind::Ps
    } else {
        ShellKind::Cmd
    }
}

/// Selects the shell profile from the console's executable name.
pub fn shell_kind_of_exe(exe_name: &str) -> (r: ShellKind)
    ensures
        r == spec_shell_kind_of_exe(exe_name@),
{
    if eq_ignore_case(exe_name, "powershell.exe") || eq_ignore_case(exe_name, "pwsh.exe") {
        ShellKind::Ps
    } else {
        ShellKind::Cmd
    }
}

/// The history-log category name of a shell kind.
pub fn shell_name(kind: ShellKind) -> (r: String)
    ensures
        kind == ShellKind::Cmd ==> r@ == "cmd"@,
        kind == ShellKind::Ps ==> r@ == "ps"@,
{
    match kind {
        ShellKind::Cmd => "cmd".to_owned(),
        ShellKind::Ps => "ps".to_owned(),
    }
}

/// Whether a console whose process list has `count` entries is running a
/// child process under the shell.
pub open spec fn spec_running_subprocess(count: u32) -> bool {
    count > 2
}

/// Whether the shell is at its prompt, from the observable signals: the
/// basic shell must be in line-editing mode with no child running; the
/// scripting shell only needs no child running.
pub open spec fn spec_at_prompt(kind: ShellKind, line_editing: bool, count: u32) -> bool {
    match kind {
        ShellKind::Cmd => line_editing && !spec_running_subprocess(count),
        ShellKind::Ps => !spec_running_subprocess(count),
    }
}

/// Decides `at_prompt` from a console observation: `line_editing` is the
/// console's line-input mode, `count` the length of its process list.
pub fn at_prompt(kind: ShellKind, line_editing: bool, count: u32) -> (r: bool)
    ensures
        r == spec_at_prompt(kind, line_editing, count),
{
    match kind {
        ShellKind::Cmd => line_editing && !(count > 2),
        ShellKind::Ps => !(count > 2),
    }
}

/// Whether a plain `cd` crosses drive letters for this shell; when it does
/// not, directory changes across drives need an explicit flag.
pub fn is_cross_drive_cd(kind: ShellKind) -> (r: bool)
    ensures
        r == (kind == ShellKind::Ps),
{
    match kind {
        ShellKind::Cmd => false,
        ShellKind::Ps => true,
    }
}

/// The input text with the shell's line-continuation markers removed.
pub open spec fn spec_clean_continuations(kind: ShellKind, s: Seq<char>) -> Seq<char> {
    match kind {
        ShellKind::Cmd => spec_remove_all(s, "^More? "@),
        ShellKind::Ps => spec_remove_all(s, "`>> "@),
    }
}

/// Strips the markers the console inserts when wrapping long input, so the
/// recorded command matches what was typed.
pub fn clean_multiline_continuations(kind: ShellKind, input: &str) -> (r: String)
    ensures
        r@ == spec_clean_continuations(kind, input@),
{
    let v = chars_of(input);
    let p = match kind {
        ShellKind::Cmd => {
            proof {
                reveal_strlit("^More? ");
            }
            chars_of("^More? ")
        },
        ShellKind::Ps => {
            proof {
                reveal_strlit("`>> ");
            }
            chars_of("`>> ")
        },
    };
    let out = remove_all(&v, &p);
    string_from_chars(&out)
}

/// The prompt candidate a console line offers: the directory text before
/// the shell's trailing delimiter, and the whole prompt including it.
/// The basic shell's prompt is everything up to the first `>`; the scripting
/// shell's starts with `PS ` and includes one character after the `>`.
pub open spec fn spec_prompt_candidate(kind: ShellKind, s: Seq<char>) -> Option<
    (Seq<char>, Seq<char>),
> {
    let pos = spec_find_char(s, '>');
    if pos >= s.len() || pos == 0 {
        None
    } else {
        match kind {
            ShellKind::Cmd => Some((s.take(pos), s.take(pos + 1))),
            ShellKind::Ps => if s.len() < pos + 2 {
                None
            } else if !spec_starts_with(s, "PS "@) {
                None
            } else {
                Some((s.subrange(3, pos), s.take(pos + 2)))
            },
        }
    }
}

/// Extracts the prompt candidate of a line: the directory before the
/// delimiter and the full prompt text. Whether the directory really exists
/// is for the caller to check; see `parse_prompt`.
pub fn prompt_candidate(kind: ShellKind, line: &str) -> (r: Option<(String, String)>)
    ensures
        match spec_prompt_candidate(kind, line@) {
            Some(c) => matches!(r, Some(_)) && r->Some_0.0@ == c.0 && r->Some_0.1@ == c.1,
            None => matches!(r, None),
        },
{
    let v = chars_of(line);
    let pos = match find_char_from(&v, '>', 0) {
        Some(pos) => {
            proof {
                lemma_find_char_at(v@, '>', pos as int);
            }
            pos
        },
        None => {
            proof {
                lemma_find_char_at(v@, '>', v@.len() as int);
            }
            return None;
        },
    };
    if pos == 0 {
        return None;
    }
    match kind {
        ShellKind::Cmd => {
            assert(pos < v.len());
            let dir = sub_chars(&v, 0, pos);
            let prompt = sub_chars(&v, 0, pos + 1);
            assert(dir@ =~= line@.take(pos as int));
            assert(prompt@ =~= line@.take(pos + 1));
            Some((string_from_chars(&dir), string_from_chars(&prompt)))
        },
        ShellKind::Ps => {
            if v.len() - pos < 2 {
                return None;
            }
            proof {
                reveal_strlit("PS ");
            }
            if !starts_with_str(line, "PS ") {
                return None;
            }
            proof {
                assert(line@.take(3) == "PS "@);
                assert(line@[0] == line@.take(3)[0]);
                assert(line@[1] == line@.take(3)[1]);
                assert(line@[2] == line@.take(3)[2]);
            }
            assert(line@[0] == 'P' && line@[1] == 'S' && line@[2] == ' ');
            assert(pos >= 3);
            let dir = sub_chars(&v, 3, pos);
            let prompt = sub_chars(&v, 0, pos + 2);
            assert(dir@ =~= line@.subrange(3, pos as int));
            assert(prompt@ =~= line@.take(pos + 2));
            Some((string_from_chars(&dir), string_from_chars(&prompt)))
        },
    }
}

/// Recognizes the shell prompt on a console line. `dir_exists` reports
/// whether the candidate directory (from `prompt_candidate`) names an
/// existing directory — filesystem state the caller checks. Returns the
/// whole matched prompt, or empty when there is no confident match.
pub fn parse_prompt(kind: ShellKind, line: &str, dir_exists: bool) -> (r: String)
    ensures
        match spec_prompt_candidate(kind, line@) {
            Some(c) => r@ == if dir_exists {
                c.1
            } else {
                Seq::<char>::empty()
            },
            None => r@ == Seq::<char>::empty(),
        },
{
    match prompt_candidate(kind, line) {
        Some((_dir, prompt)) => {
            if dir_exists {
                prompt
            } else {
                let r = String::new();
                assert(r@ =~= Seq::<char>::empty());
                r
            }
        },
        None => {
            let r = String::new();
            assert(r@ =~= Seq::<char>::empty());
            r
        },
    }
}

/// What a scripting-shell line yields when scanned for the current
/// directory: the text between `PS ` and the first `>`, if the line has
/// that shape.
pub open spec fn spec_ps_scan(s: Seq<char>) -> Option<Seq<char>> {
    let pos = spec_find_char(s, '>');
    if spec_starts_with(s, "PS "@) && pos < s.len() && pos != 0 {
        Some(s.subrange(3, pos))
    } else {
        None
    }
}

/// The first scanned line that looks like a scripting-shell prompt, if any.
pub open spec fn spec_first_ps_dir(ls: Seq<Seq<char>>) -> Option<Seq<char>>
    decreases ls.len(),
{
    if ls.len() == 0 {
        None
    } else {
        match spec_ps_scan(ls.first()) {
            Some(d) => Some(d),
            None => spec_first_ps_dir(ls.drop_first()),
        }
    }
}

proof fn lemma_first_ps_dir_prefix(ls: Seq<Seq<char>>, i: int)
    requires
        0 <= i <= ls.len(),
        forall|j: int| 0 <= j < i ==> (#[trigger] spec_ps_scan(ls[j])) is None,
    ensures
        i < ls.len() && spec_ps_scan(ls[i]) is Some ==> spec_first_ps_dir(ls)
            == spec_ps_scan(ls[i]),
        i == ls.len() ==> spec_first_ps_dir(ls) is None,
    decreases ls.len(),
{
    if ls.len() > 0 {
        if spec_ps_scan(ls.first()) is Some {
        } else if i > 0 {
            lemma_first_ps_dir_prefix(ls.drop_first(), i - 1);
        }
    }
}

/// Scans the given console lines, in order, for a scripting-shell prompt
/// and returns the directory of the first line that shows one. The caller
/// passes the visible lines in its preferred scan order.
pub fn ps_dir_from_lines(lines: &Vec<String>) -> (r: Option<String>)
    ensures
        match spec_first_ps_dir(lines@.map_values(|l: String| l@)) {
            Some(d) => matches!(r, Some(_)) && r->Some_0@ == d,
            None => matches!(r, None),
        },
{
    let ghost ls = lines@.map_values(|l: String| l@);
    let mut n: usize = 0;
    while n < lines.len()
        invariant
            ls == lines@.map_values(|l: String| l@),
            n <= lines.len(),
            forall|j: int| 0 <= j < n ==> (#[trigger] spec_ps_scan(ls[j])) is None,
        decreases lines.len() - n,
    {
        let line = &lines[n];
        proof {
            reveal_strlit("PS ");
        }
        if starts_with_str(line.as_str(), "PS ") {
            let v = chars_of(line.as_str());
            match find_char_from(&v, '>', 0) {
                Some(pos) => {
                    proof {
                        lemma_find_char_at(v@, '>', pos as int);
                    }
                    if pos != 0 {
                        proof {
                            assert(line@.take(3) == "PS "@);
                            assert(line@[0] == line@.take(3)[0]);
                            assert(line@[1] == line@.take(3)[1]);
                            assert(line@[2] == line@.take(3)[2]);
                        }
                        assert(line@[0] == 'P' && line@[1] == 'S' && line@[2] == ' ');
                        assert(pos >= 3);
                        let dir = sub_chars(&v, 3, pos);
                        proof {
                            lemma_first_ps_dir_prefix(ls, n as int);
                        }
                        return Some(string_from_chars(&dir));
                    }
                },
                None => {
                    proof {
                        lemma_find_char_at(v@, '>', v@.len() as int);
                    }
                },
            }
        }
        assert(spec_ps_scan(ls[n as int]) is None);
        n += 1;
    }
    proof {
        lemma_first_ps_dir_prefix(ls, ls.len() as int);
    }
    None
}

/// One synthesized key transition for the console input queue: the escape
/// key or a character key (as its scalar value), pressed or released.
#[derive(Clone, Copy)]
pub enum ConsoleKey {
    EscDown,
    EscUp,
    CharDown(u32),
    CharUp(u32),
}

/// How input text reaches a shell: the basic shell takes a structured
/// key-event write into the console's input queue; the scripting shell only
/// accepts character-message replay.
pub enum InputPlan {
    QueueKeys(Vec<ConsoleKey>),
    ReplayChars(Vec<char>),
}

/// The console-input-queue events that type `text`: an escape press and
/// release, then each character pressed and released in order.
pub open spec fn spec_queue_events(text: Seq<char>) -> Seq<ConsoleKey>
    decreases text.len(),
{
    if text.len() == 0 {
        seq![ConsoleKey::EscDown, ConsoleKey::EscUp]
    } else {
        spec_queue_events(text.drop_last()) + seq![
            ConsoleKey::CharDown(text.last() as u32),
            ConsoleKey::CharUp(text.last() as u32),
        ]
    }
}

/// Builds the console-input-queue events for typing `text`.
pub fn queue_events(text: &str) -> (events: Vec<ConsoleKey>)
    ensures
        events@ == spec_queue_events(text@),
{
    let chars = chars_of(text);
    let mut events: Vec<ConsoleKey> = Vec::new();
    events.push(ConsoleKey::EscDown);
    events.push(ConsoleKey::EscUp);
    let mut i: usize = 0;
    assert(text@.take(0) =~= Seq::<char>::empty());
    assert(events@ =~= spec_queue_events(text@.take(0)));
    while i < chars.len()
        invariant
            chars@ == text@,
            i <= chars@.len(),
            events@ == spec_queue_events(text@.take(i as int)),
        decreases chars.len() - i,
    {
        let c = chars[i] as u32;
        events.push(ConsoleKey::CharDown(c));
        events.push(ConsoleKey::CharUp(c));
        proof {
            assert(text@.take(i + 1).drop_last() =~= text@.take(i as int));
            assert(text@.take(i + 1).last() == text@[i as int]);
            assert(events@ =~= spec_queue_events(text@.take(i + 1)));
        }
        i += 1;
    }
    assert(text@.take(text@.len() as int) =~= text@);
    events
}

/// The character-message replay for typing `text`: an escape character, then
/// the text's characters in order.
pub fn replay_chars(text: &str) -> (cs: Vec<char>)
    ensures
        cs@ == seq!['\x1b'] + text@,
{
    let chars = chars_of(text);
    let mut cs: Vec<char> = Vec::new();
    cs.push('\x1b');
    let mut i: usize = 0;
    while i < chars.len()
        invariant
            chars@ == text@,
            i <= chars@.len(),
            cs@ =~= seq!['\x1b'] + text@.take(i as int),
        decreases chars.len() - i,
    {
        cs.push(chars[i]);
        assert(cs@ =~= seq!['\x1b'] + text@.take(i + 1));
        i += 1;
    }
    assert(cs@ =~= seq!['\x1b'] + text@);
    cs
}

/// Builds the input-synthesis plan for typing `text` at the prompt. Both
/// channels lead with an escape press to discard partial input; then each
/// character is pressed and released in order.
pub fn set_input_plan(kind: ShellKind, text: &str) -> (r: InputPlan)
    ensures
        kind == ShellKind::Cmd ==> ({
            &&& r matches InputPlan::QueueKeys(events)
        &&& events@ == spec_queue_events(text@)
        }),
        kind == ShellKind::Ps ==> ({
            &&& r matches InputPlan::ReplayChars(cs)
        &&& cs@ == seq!['\x1b'] + text@
        }),
{
    match kind {
        ShellKind::Cmd => InputPlan::QueueKeys(queue_events(text)),
        ShellKind::Ps => InputPlan::ReplayChars(replay_chars(text)),
    }
}

} // verus!
