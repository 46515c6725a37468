//! Terminal pane focus resolution: the per-host registry of accessibility
//! runtime ids and console windows, the title-probing disambiguation
//! protocol, and the focus worker's closed event set.

use vstd::prelude::*;
use crate::text::{chars_of, string_from_chars};

verus! {

/// A hexadecimal digit, lower case.
pub open spec fn spec_hex_digit(n: u8) -> char {
    if n < 10 {
        ((n + 48) as u8) as char
    } else {
        ((n + 87) as u8) as char
    }
}

/// The lower-case hexadecimal rendering of a byte string, two digits per
/// byte, most significant nibble first.
pub open spec fn spec_hex_lower(bs: Seq<u8>) -> Seq<char>
    decreases bs.len(),
{
    if bs.len() == 0 {
        Seq::empty()
    } else {
        spec_hex_lower(bs.drop_last()) + seq![
            spec_hex_digit(bs.last() / 16),
            spec_hex_digit(bs.last() % 16),
        ]
    }
}

/// Relies on `faster_hex::hex_string`: each byte becomes two lower-case
/// hexadecimal digits, in order, with leading zeroes kept.
#[verifier::external_body]
fn hex_string_of(bytes: &Vec<u8>) -> (r: String)
    requires
        bytes@.len() * 2 <= usize::MAX,
    ensures
        r@ == spec_hex_lower(bytes@),
{
    faster_hex::hex_string(bytes.as_slice())
}

/// The registry key of a pane: its accessibility runtime id rendered as a
/// hexadecimal string.
pub fn rt_id_from_bytes(bytes: &Vec<u8>) -> (r: String)
    requires
        bytes@.len() * 2 <= usize::MAX,
    ensures
        r@ == spec_hex_lower(bytes@),
{
    hex_string_of(bytes)
}

/// Index of the entry with runtime id `rt_id`, or `es.len()` when absent.
pub open spec fn spec_find_rt(es: Seq<(Seq<char>, u64)>, rt_id: Seq<char>) -> int
    decreases es.len(),
{
    if es.len() == 0 {
        0
    } else if es.first().0 == rt_id {
        0
    } else {
        1 + spec_find_rt(es.drop_first(), rt_id)
    }
}

proof fn lemma_find_rt_bounds(es: Seq<(Seq<char>, u64)>, rt_id: Seq<char>)
    ensures
        0 <= spec_find_rt(es, rt_id) <= es.len(),
        spec_find_rt(es, rt_id) < es.len() ==> es[spec_find_rt(es, rt_id)].0 == rt_id,
        forall|j: int| 0 <= j < spec_find_rt(es, rt_id) ==> es[j].0 != rt_id,
    decreases es.len(),
{
    if es.len() > 0 && es.first().0 != rt_id {
        lemma_find_rt_bounds(es.drop_first(), rt_id);
        assert forall|j: int|
            0 <= j < spec_find_rt(es, rt_id) implies es[j].0 != rt_id by {
            if j > 0 {
                assert(es[j] == es.drop_first()[j - 1]);
            }
        }
    }
}

proof fn lemma_find_rt_prefix(es: Seq<(Seq<char>, u64)>, rt_id: Seq<char>, i: int)
    requires
        0 <= i <= es.len(),
        forall|j: int| 0 <= j < i ==> es[j].0 != rt_id,
    ensures
        i < es.len() && es[i].0 == rt_id ==> spec_find_rt(es, rt_id) == i,
        i == es.len() ==> spec_find_rt(es, rt_id) == es.len(),
    decreases es.len(),
{
    if es.len() > 0 {
        if es.first().0 == rt_id {
        } else if i > 0 {
            lemma_find_rt_prefix(es.drop_first(), rt_id, i - 1);
        }
    }
}

/// The per-host registry of discovered panes: (runtime id, console window
/// handle) pairs in discovery order, each runtime id at most once.
pub struct PaneRegistry {
    entries: Vec<(String, u64)>,
}

impl PaneRegistry {
    /// The registered (runtime id, handle) pairs, in discovery order.
    pub closed spec fn entries(&self) -> Seq<(Seq<char>, u64)> {
        self.entries@.map_values(|e: (String, u64)| (e.0@, e.1))
    }

    /// Runtime ids are unique within one host's registry.
    pub open spec fn wf(&self) -> bool {
        forall|i: int, j: int|
            0 <= i < j < self.entries().len() ==> (#[trigger] self.entries()[i]).0 != (
            #[trigger] self.entries()[j]).0
    }

    pub fn new() -> (r: PaneRegistry)
        ensures
            r.wf(),
            r.entries() =~= Seq::<(Seq<char>, u64)>::empty(),
    {
        let r = PaneRegistry { entries: Vec::new() };
        assert(r.entries() =~= Seq::<(Seq<char>, u64)>::empty());
        r
    }

    /// How many panes are registered.
    pub fn len(&self) -> (r: usize)
        ensures
            r == self.entries().len(),
    {
        self.entries.len()
    }

    /// The handle at `index`, for walking the registry.
    pub fn handle_at(&self, index: usize) -> (r: u64)
        requires
            index < self.entries().len(),
        ensures
            r == self.entries()[index as int].1,
    {
        self.entries[index].1
    }

    /// The index of the pane with this runtime id, if registered.
    pub fn find(&self, rt_id: &str) -> (r: Option<usize>)
        ensures
            match r {
                Some(i) => i < self.entries().len() && self.entries()[i as int].0 == rt_id@
                    && i as int == spec_find_rt(self.entries(), rt_id@),
                None => spec_find_rt(self.entries(), rt_id@) == self.entries().len(),
            },
{
        let ghost es = self.entries();
        let rt = String::from_str(rt_id);
        let mut n: usize = 0;
        while n < self.entries.len()
            invariant
                rt@ == rt_id@,
                es == self.entries(),
                n <= self.entries.len(),
                forall|j: int| 0 <= j < n ==> es[j].0 != rt_id@,
            decreases self.entries.len() - n,
        {
            if self.entries[n].0.eq(&rt) {
                proof {
                    lemma_find_rt_prefix(es, rt_id@, n as int);
                }
                return Some(n);
            }
            n += 1;
        }
        proof {
            lemma_find_rt_prefix(es, rt_id@, es.len() as int);
        }
        None
    }

    /// Registers a freshly resolved pane: exactly one new mapping appears,
    /// at the end, and nothing else changes.
    pub fn register(&mut self, rt_id: &str, hwnd: u64)
        requires
            old(self).wf(),
            spec_find_rt(old(self).entries(), rt_id@) == old(self).entries().len(),
        ensures
            final(self).wf(),
            final(self).entries() == old(self).entries().push((rt_id@, hwnd)),
    {
        proof {
            lemma_find_rt_bounds(self.entries(), rt_id@);
        }
        self.entries.push((rt_id.to_owned(), hwnd));
        assert(final(self).entries() =~= old(self).entries().push((rt_id@, hwnd)));
        proof {
            let es = final(self).entries();
            assert forall|i: int, j: int|
                0 <= i < j < es.len() implies (#[trigger] es[i]).0 != (#[trigger] es[j]).0 by {
                if j == es.len() - 1 {
                    assert(es[i] == old(self).entries()[i]);
                }
            }
        }
    }

    /// Drops the entry at `index` (a stale mapping whose window is gone).
    pub fn remove_at(&mut self, index: usize)
        requires
            old(self).wf(),
            index < old(self).entries().len(),
        ensures
            final(self).wf(),
            final(self).entries() == old(self).entries().remove(index as int),
    {
        self.entries.remove(index);
        assert(final(self).entries() =~= old(self).entries().remove(index as int));
        proof {
            let es0 = old(self).entries();
            let es = final(self).entries();
            assert forall|i: int, j: int|
                0 <= i < j < es.len() implies (#[trigger] es[i]).0 != (#[trigger] es[j]).0 by {
                let i0 = if i < index { i } else { i + 1 };
                let j0 = if j < index { j } else { j + 1 };
                assert(es[i] == es0[i0]);
                assert(es[j] == es0[j0]);
            }
        }
    }

    /// Keeps only the entries marked to keep (still-live panes of this
    /// host), in order: the lazy prune before the registry is persisted.
    pub fn prune(&mut self, keep: &Vec<bool>)
        requires
            old(self).wf(),
            keep@.len() == old(self).entries().len(),
        ensures
            final(self).wf(),
            final(self).entries() == spec_kept(old(self).entries(), keep@),
            forall|i: int|
                0 <= i < final(self).entries().len() ==> old(self).entries().contains(
                    #[trigger] final(self).entries()[i],
                ),
    {
        let ghost es0 = self.entries();
        let mut kept: Vec<(String, u64)> = Vec::new();
        let mut n: usize = 0;
        assert(kept@.map_values(|e: (String, u64)| (e.0@, e.1)) =~= spec_kept(
            es0.take(0),
            keep@.take(0),
        ));
        while n < self.entries.len()
            invariant
                es0 == self.entries@.map_values(|e: (String, u64)| (e.0@, e.1)),
                keep@.len() == es0.len(),
                n <= self.entries.len(),
                kept@.map_values(|e: (String, u64)| (e.0@, e.1)) == spec_kept(
                    es0.take(n as int),
                    keep@.take(n as int),
                ),
            decreases self.entries.len() - n,
        {
            proof {
                assert(es0.take(n + 1).drop_last() =~= es0.take(n as int));
                assert(keep@.take(n + 1).drop_last() =~= keep@.take(n as int));
                assert(es0.take(n + 1).last() == es0[n as int]);
            }
            if keep[n] {
                let e = (self.entries[n].0.clone(), self.entries[n].1);
                kept.push(e);
                assert(kept@.map_values(|e: (String, u64)| (e.0@, e.1)) =~= spec_kept(
                    es0.take(n + 1),
                    keep@.take(n + 1),
                ));
            } else {
                assert(kept@.map_values(|e: (String, u64)| (e.0@, e.1)) =~= spec_kept(
                    es0.take(n + 1),
                    keep@.take(n + 1),
                ));
            }
            n += 1;
        }
        proof {
            assert(es0.take(es0.len() as int) =~= es0);
            assert(keep@.take(keep@.len() as int) =~= keep@);
        }
        self.entries = kept;
        proof {
            lemma_kept_wf(es0, keep@);
            lemma_kept_sub(es0, keep@);
        }
    }
}

/// The subsequence of `es` marked to keep.
pub open spec fn spec_kept(es: Seq<(Seq<char>, u64)>, keep: Seq<bool>) -> Seq<(Seq<char>, u64)>
    decreases es.len(),
{
    if es.len() == 0 || keep.len() == 0 {
        Seq::empty()
    } else {
        spec_kept(es.drop_last(), keep.drop_last()) + (if keep.last() {
            seq![es.last()]
        } else {
            Seq::empty()
        })
    }
}

proof fn lemma_kept_sub(es: Seq<(Seq<char>, u64)>, keep: Seq<bool>)
    requires
        keep.len() == es.len(),
    ensures
        forall|i: int|
            0 <= i < spec_kept(es, keep).len() ==> es.contains(#[trigger] spec_kept(es, keep)[i]),
        spec_kept(es, keep).len() <= es.len(),
    decreases es.len(),
{
    if es.len() > 0 {
        lemma_kept_sub(es.drop_last(), keep.drop_last());
        let k = spec_kept(es, keep);
        let k1 = spec_kept(es.drop_last(), keep.drop_last());
        assert forall|i: int| 0 <= i < k.len() implies es.contains(#[trigger] k[i]) by {
            if i < k1.len() {
                assert(k[i] == k1[i]);
                let w = choose|w: int| 0 <= w < es.drop_last().len() && es.drop_last()[w] == k1[i];
                assert(es[w] == k[i]);
            } else {
                assert(k[i] == es.last());
                assert(es[es.len() - 1] == es.last());
            }
        }
    }
}

proof fn lemma_kept_wf(es: Seq<(Seq<char>, u64)>, keep: Seq<bool>)
    requires
        keep.len() == es.len(),
        forall|i: int, j: int|
            0 <= i < j < es.len() ==> (#[trigger] es[i]).0 != (#[trigger] es[j]).0,
    ensures
        forall|i: int, j: int|
            0 <= i < j < spec_kept(es, keep).len() ==> (#[trigger] spec_kept(es, keep)[i]).0 != (
            #[trigger] spec_kept(es, keep)[j]).0,
    decreases es.len(),
{
    if es.len() > 0 {
        let dl = es.drop_last();
        let kl = keep.drop_last();
        assert forall|i: int, j: int|
            0 <= i < j < dl.len() implies (#[trigger] dl[i]).0 != (#[trigger] dl[j]).0 by {
            assert(dl[i] == es[i]);
            assert(dl[j] == es[j]);
        }
        lemma_kept_wf(dl, kl);
        lemma_kept_sub(dl, kl);
        let k = spec_kept(es, keep);
        let k1 = spec_kept(dl, kl);
        assert forall|i: int, j: int|
            0 <= i < j < k.len() implies (#[trigger] k[i]).0 != (#[trigger] k[j]).0 by {
            if j < k1.len() {
                assert(k[i] == k1[i]);
                assert(k[j] == k1[j]);
            } else {
                assert(k[j] == es.last());
                assert(k[i] == k1[i]);
                assert(dl.contains(k1[i]));
                let w = choose|w: int| 0 <= w < dl.len() && dl[w] == k1[i];
                assert(es[w] == dl[w]);
                assert(es[w].0 != es[es.len() - 1].0);
            }
        }
    }
}

/// Whether `s` ends with the marker character `m`.
pub open spec fn spec_ends_with_char(s: Seq<char>, m: char) -> bool {
    s.len() > 0 && s.last() == m
}

/// Whether no probed title already ends with the candidate marker.
pub open spec fn spec_marker_free(titles: Seq<Seq<char>>, m: char) -> bool {
    forall|i: int| 0 <= i < titles.len() ==> !spec_ends_with_char(#[trigger] titles[i], m)
}

/// The first conflict-free marker, if any.
pub open spec fn spec_choose_marker(titles: Seq<Seq<char>>, markers: Seq<char>) -> Option<char>
    decreases markers.len(),
{
    if markers.len() == 0 {
        None
    } else if spec_marker_free(titles, markers.first()) {
        Some(markers.first())
    } else {
        spec_choose_marker(titles, markers.drop_first())
    }
}

/// The rarely-occurring characters tried as title markers, in order.
pub fn marker_chars() -> (r: Vec<char>)
    ensures
        r@ == seq!['\u{00A0}', '\u{00AD}', '\u{200A}'],
{
    let mut r: Vec<char> = Vec::new();
    r.push('\u{00A0}');
    r.push('\u{00AD}');
    r.push('\u{200A}');
    assert(r@ =~= seq!['\u{00A0}', '\u{00AD}', '\u{200A}']);
    r
}

/// Whether the title ends with the marker.
pub fn ends_with_marker(title: &str, m: char) -> (r: bool)
    ensures
        r == spec_ends_with_char(title@, m),
{
    let n = title.unicode_len();
    if n == 0 {
        return false;
    }
    title.get_char(n - 1) == m
}

/// Picks the first marker that no probed title already ends with; with
/// none left the disambiguation fails for this focus event.
pub fn choose_marker(titles: &Vec<String>, markers: &Vec<char>) -> (r: Option<char>)
    ensures
        match spec_choose_marker(titles@.map_values(|t: String| t@), markers@) {
            Some(m) => matches!(r, Some(_)) && r->Some_0 == m,
            None => matches!(r, None),
        },
{
    let ghost ts = titles@.map_values(|t: String| t@);
    let mut k: usize = 0;
    assert(markers@.skip(0) =~= markers@);
    while k < markers.len()
        invariant
            ts == titles@.map_values(|t: String| t@),
            k <= markers.len(),
            spec_choose_marker(ts, markers@) == spec_choose_marker(ts, markers@.skip(k as int)),
        decreases markers.len() - k,
    {
        let m = markers[k];
        proof {
            assert(markers@.skip(k as int).first() == m);
            assert(markers@.skip(k as int).drop_first() =~= markers@.skip(k + 1));
        }
        let mut conflict = false;
        let mut i: usize = 0;
        while i < titles.len() && !conflict
            invariant
                ts == titles@.map_values(|t: String| t@),
                i <= titles.len(),
                !conflict ==> forall|j: int|
                    0 <= j < i ==> !spec_ends_with_char(#[trigger] ts[j], m),
                conflict ==> !spec_marker_free(ts, m),
            decreases titles.len() - i + (if conflict { 0int } else { 1int }),
        {
            if ends_with_marker(titles[i].as_str(), m) {
                assert(spec_ends_with_char(ts[i as int], m));
                conflict = true;
            } else {
                i += 1;
            }
        }
        if !conflict {
            assert(spec_marker_free(ts, m));
            return Some(m);
        }
        k += 1;
    }
    assert(markers@.skip(markers@.len() as int) =~= Seq::<char>::empty());
    None
}

/// `title` with the marker appended `count` times: the probe written to the
/// pane at (1-based) position `count` in the enumeration.
pub fn probed_title(title: &str, m: char, count: usize) -> (r: String)
    ensures
        r@ == title@ + Seq::new(count as nat, |i: int| m),
{
    let mut v = chars_of(title);
    let mut k: usize = 0;
    while k < count
        invariant
            k <= count,
            v@ =~= title@ + Seq::new(k as nat, |i: int| m),
        decreases count - k,
    {
        v.push(m);
        assert(v@ =~= title@ + Seq::new((k + 1) as nat, |i: int| m));
        k += 1;
    }
    string_from_chars(&v)
}

/// How many markers the text ends with.
pub open spec fn spec_count_trailing(s: Seq<char>, m: char) -> int
    decreases s.len(),
{
    if s.len() > 0 && s.last() == m {
        1 + spec_count_trailing(s.drop_last(), m)
    } else {
        0
    }
}

/// Counts the markers the read-back text ends with.
pub fn count_trailing(text: &str, m: char) -> (r: usize)
    ensures
        r == spec_count_trailing(text@, m),
        r <= text@.len(),
{
    let v = chars_of(text);
    let mut i: usize = v.len();
    assert(v@.take(i as int) =~= v@);
    while i > 0 && v[i - 1] == m
        invariant
            i <= v@.len(),
            spec_count_trailing(v@, m) == spec_count_trailing(v@.take(i as int), m) + (v@.len()
                - i),
        decreases i,
    {
        assert(v@.take(i as int).last() == v@[i - 1]);
        assert(v@.take(i as int).drop_last() =~= v@.take(i - 1));
        i -= 1;
    }
    proof {
        if i > 0 {
            assert(v@.take(i as int).last() == v@[i - 1]);
            assert(spec_count_trailing(v@.take(i as int), m) == 0);
        } else {
            assert(v@.take(0) =~= Seq::<char>::empty());
        }
    }
    v.len() - i
}

/// The pane the read-back text identifies: the 1-based marker count maps to
/// the pane at that enumeration position; a count of zero or out of range
/// resolves nothing.
pub fn resolve_probe_readback(text: &str, m: char, pane_count: usize) -> (r: Option<usize>)
    ensures
        ({
            let c = spec_count_trailing(text@, m);
            match r {
                Some(i) => c > 0 && c <= pane_count && i == c - 1,
                None => c == 0 || c > pane_count,
            }
        }),
{
    let c = count_trailing(text, m);
    if c == 0 || c > pane_count {
        None
    } else {
        Some(c - 1)
    }
}

/// The probing round trip is lossless: when the original title does not end
/// with the chosen marker (what `choose_marker` guarantees), the probed
/// title reads back exactly the probe count, and dropping that many
/// trailing markers restores the original title exactly.
pub proof fn lemma_probe_round_trip(title: Seq<char>, m: char, k: nat)
    requires
        !spec_ends_with_char(title, m),
    ensures
        spec_count_trailing(title + Seq::new(k, |i: int| m), m) == k,
        (title + Seq::new(k, |i: int| m)).take(
            (title + Seq::new(k, |i: int| m)).len() - k,
        ) =~= title,
    decreases k,
{
    let probed = title + Seq::new(k, |i: int| m);
    if k == 0 {
        assert(probed =~= title);
        if title.len() > 0 {
            assert(spec_count_trailing(title, m) == 0);
        }
    } else {
        lemma_probe_round_trip(title, m, (k - 1) as nat);
        assert(probed.last() == m);
        assert(probed.drop_last() =~= title + Seq::new((k - 1) as nat, |i: int| m));
    }
}

/// A rectangle in screen or client coordinates.
#[derive(Clone, Copy, PartialEq, Eq, Structural, Debug)]
pub struct Bounds {
    pub left: i32,
    pub top: i32,
    pub right: i32,
    pub bottom: i32,
}

/// Translates a focused pane's screen bounds into the host window's client
/// coordinates, insetting the pane padding and the vertical scroll bar:
/// the rectangle overlay popups are positioned against.
pub fn pane_client_bounds(el: Bounds, padding: i32, vsb_width: i32, origin_x: i32, origin_y: i32)
    -> (r: Bounds)
    requires
        -0x2000_0000 < el.left < 0x2000_0000,
        -0x2000_0000 < el.top < 0x2000_0000,
        -0x2000_0000 < el.right < 0x2000_0000,
        -0x2000_0000 < el.bottom < 0x2000_0000,
        0 <= padding < 0x1000_0000,
        0 <= vsb_width < 0x1000_0000,
        -0x2000_0000 < origin_x < 0x2000_0000,
        -0x2000_0000 < origin_y < 0x2000_0000,
    ensures
        r.left == el.left + padding - origin_x,
        r.top == el.top + padding - origin_y,
        r.right == el.right - padding - vsb_width - origin_x,
        r.bottom == el.bottom - padding - origin_y,
{
    let left = el.left + padding - origin_x;
    let top = el.top + padding - origin_y;
    let right = left + (el.right - padding - vsb_width) - (el.left + padding);
    let bottom = top + (el.bottom - padding) - (el.top + padding);
    Bounds { left, top, right, bottom }
}

/// The closed set of events the focus worker reacts to.
pub enum FocusEvent {
    /// The periodic fallback poll fired.
    Tick,
    /// The accessibility subscription reported a focus change.
    FocusChanged,
    /// The host window started moving or resizing.
    MoveSizeStart,
    /// The host window finished moving or resizing.
    MoveSizeEnd,
    /// The host window was deactivated.
    Quit,
}

/// What the focus worker does for one event.
pub enum FocusStep {
    /// Re-read the focused element and re-resolve.
    CheckFocus,
    /// Tell the listener windows to hide their overlays.
    HideOverlays,
    /// Re-resolve and tell the listeners to refresh their bounds.
    RefreshAndCheck,
    /// Unsubscribe, persist the registry and leave the loop.
    Exit,
}

/// The focus worker's event dispatch: the closed mapping from event to
/// step.
pub fn focus_step(ev: &FocusEvent) -> (r: FocusStep)
    ensures
        matches!(ev, FocusEvent::Tick) ==> matches!(r, FocusStep::CheckFocus),
        matches!(ev, FocusEvent::FocusChanged) ==> matches!(r, FocusStep::CheckFocus),
        matches!(ev, FocusEvent::MoveSizeStart) ==> matches!(r, FocusStep::HideOverlays),
        matches!(ev, FocusEvent::MoveSizeEnd) ==> matches!(r, FocusStep::RefreshAndCheck),
        matches!(ev, FocusEvent::Quit) ==> matches!(r, FocusStep::Exit),
{
    match ev {
        FocusEvent::Tick => FocusStep::CheckFocus,
        FocusEvent::FocusChanged => FocusStep::CheckFocus,
        FocusEvent::MoveSizeStart => FocusStep::HideOverlays,
        FocusEvent::MoveSizeEnd => FocusStep::RefreshAndCheck,
        FocusEvent::Quit => FocusStep::Exit,
    }
}

/// How a focus resolution proceeds for a focused pane's runtime id.
pub enum ResolveStep {
    /// The registry already maps it to a live window: use that handle.
    UseMapped(u64),
    /// Nothing is registered under it: disambiguate among the unregistered
    /// panes.
    Probe,
}

impl PaneRegistry {
    /// One resolution step: a registered, still-live mapping is reused; a
    /// registered but dead mapping is dropped first; an unknown runtime id
    /// goes to probing. `mapped_alive` reports whether the mapped window
    /// (when there is one) is still a live child of this host.
    pub fn resolve_step(&mut self, rt_id: &str, mapped_alive: bool) -> (r: ResolveStep)
        requires
            old(self).wf(),
        ensures
            final(self).wf(),
            ({
                let es = old(self).entries();
                let i = spec_find_rt(es, rt_id@);
                if i < es.len() {
                    if mapped_alive {
                        &&& r matches ResolveStep::UseMapped(h)
                    &&& h == es[i].1
                    &&& final(self).entries() == es
                    } else {
                        &&& matches!(r, ResolveStep::Probe)
                    &&& final(self).entries() == es.remove(i)
                    }
                } else {
                    &&& matches!(r, ResolveStep::Probe)
                &&& final(self).entries() == es
                }
            }),
    {
        proof {
            lemma_find_rt_bounds(self.entries(), rt_id@);
        }
        match self.find(rt_id) {
            Some(i) => {
                if mapped_alive {
                    ResolveStep::UseMapped(self.entries[i].1)
                } else {
                    self.remove_at(i);
                    ResolveStep::Probe
                }
            },
            None => ResolveStep::Probe,
        }
    }
}

} // verus!
