//! Directory completion: latest-request-wins request tracking, search-path
//! building, entry filtering and the case-insensitive, original-case-stable
//! ordering of the offered items.

use vstd::prelude::*;
use crate::text::{
    chars_of, string_from_chars, lower_chars, eq_chars, le_chars, spec_lower, spec_seq_le,
};
use crate::dir_man::spec_parent_scan;

verus! {

/// The completion request an item list answers, and what the popup should
/// do with it.
pub enum CompletionOutcome {
    /// The result belongs to a superseded request: change nothing.
    Ignore,
    /// The current request found nothing: hide the popup.
    HidePopup,
    /// The current request found items: show them.
    ShowPopup(Vec<String>),
}

/// Monotonically increasing completion-request ids; only the result bearing
/// the latest id may reach the popup.
pub struct CompletionTracker {
    cur_req_id: u32,
}

impl CompletionTracker {
    /// The id of the most recently issued request (0 before any).
    pub closed spec fn cur_id(&self) -> u32 {
        self.cur_req_id
    }

    pub fn new() -> (r: CompletionTracker)
        ensures
            r.cur_id() == 0,
    {
        CompletionTracker { cur_req_id: 0 }
    }

    /// Issues a new request, superseding every earlier one.
    pub fn issue(&mut self) -> (id: u32)
        requires
            old(self).cur_id() < u32::MAX,
        ensures
            final(self).cur_id() == old(self).cur_id() + 1,
            id == final(self).cur_id(),
    {
        self.cur_req_id += 1;
        self.cur_req_id
    }

    /// Whether a result bearing `id` answers the latest request.
    pub fn is_current(&self, id: u32) -> (r: bool)
        ensures
            r == (id == self.cur_id()),
    {
        id == self.cur_req_id
    }

    /// Decides what an arriving result does to the popup: a superseded
    /// result changes nothing; the current one hides the popup when empty
    /// and shows its items otherwise.
    pub fn deliver(&self, id: u32, items: Vec<String>) -> (r: CompletionOutcome)
        ensures
            id != self.cur_id() ==> matches!(r, CompletionOutcome::Ignore),
            id == self.cur_id() && items@.len() == 0 ==> matches!(
                r,
                CompletionOutcome::HidePopup,
            ),
            id == self.cur_id() && items@.len() > 0 ==> ({
                &&& r matches CompletionOutcome::ShowPopup(shown)
            &&& shown == items
            }),
    {
        if id != self.cur_req_id {
            CompletionOutcome::Ignore
        } else if items.len() == 0 {
            CompletionOutcome::HidePopup
        } else {
            CompletionOutcome::ShowPopup(items)
        }
    }
}

/// Once a newer request exists, no earlier id can be the current one: its
/// late-arriving result is ignored and never updates the popup.
pub proof fn lemma_superseded_result_ignored(cur_before: u32, stale_id: u32)
    requires
        stale_id <= cur_before,
        cur_before < u32::MAX,
    ensures
        stale_id != cur_before + 1,
{
}

/// Whether the partial target names a drive (its second character is `:`),
/// in which case it is not resolved against the current directory.
pub open spec fn spec_has_drive(inp: Seq<char>) -> bool {
    inp.len() >= 2 && inp[1] == ':'
}

/// The partial target as used for resolution: a bare drive gets a root
/// separator appended.
pub open spec fn spec_effective_input(inp: Seq<char>) -> Seq<char> {
    if spec_has_drive(inp) && inp.len() == 2 {
        inp.push('\\')
    } else {
        inp
    }
}

/// The base path whose children are enumerated: a drive-qualified target
/// stands alone; anything else is appended to the current directory (with a
/// separator ensured between them).
pub open spec fn spec_search_base(cur: Seq<char>, inp: Seq<char>) -> Seq<char> {
    if !spec_has_drive(inp) {
        (if cur.len() > 0 && cur.last() == '\\' {
            cur
        } else {
            cur.push('\\')
        }) + inp
    } else {
        spec_effective_input(inp)
    }
}

/// The prefix each offered item keeps from the typed target: everything up
/// to and including its last separator.
pub open spec fn spec_item_prefix(inp: Seq<char>) -> Seq<char> {
    spec_parent_scan(spec_effective_input(inp))
}

/// Builds the search pattern (base path plus a trailing `*`) and the prefix
/// prepended to every offered item.
pub fn completion_paths(cur_dir: &str, input_dir: &str) -> (r: (String, String))
    ensures
        r.0@ == spec_search_base(cur_dir@, input_dir@).push('*'),
        r.1@ == spec_item_prefix(input_dir@),
{
    let mut inp = chars_of(input_dir);
    let has_drive = inp.len() >= 2 && inp[1] == ':';
    if has_drive && inp.len() == 2 {
        inp.push('\\');
    }
    assert(inp@ == spec_effective_input(input_dir@));
    let mut base: Vec<char>;
    if !has_drive {
        base = chars_of(cur_dir);
        if !(base.len() > 0 && base[base.len() - 1] == '\\') {
            base.push('\\');
        }
        let mut tail = chars_of(input_dir);
        base.append(&mut tail);
        assert(base@ =~= spec_search_base(cur_dir@, input_dir@));
    } else {
        base = chars_of(input_dir);
        if base.len() == 2 {
            base.push('\\');
        }
        assert(base@ == spec_search_base(cur_dir@, input_dir@));
    }
    base.push('*');
    let pattern = string_from_chars(&base);
    let prefix_chars = item_prefix_chars(&inp);
    let prefix = string_from_chars(&prefix_chars);
    (pattern, prefix)
}

/// Everything up to and including the last separator of `v`, or empty.
fn item_prefix_chars(v: &Vec<char>) -> (r: Vec<char>)
    ensures
        r@ == spec_parent_scan(v@),
{
    let mut i: usize = v.len();
    assert(v@.take(i as int) =~= v@);
    while i > 0
        invariant
            i <= v@.len(),
            spec_parent_scan(v@) == spec_parent_scan(v@.take(i as int)),
        decreases i,
    {
        if v[i - 1] == '\\' {
            assert(v@.take(i as int).last() == '\\');
            let mut r: Vec<char> = Vec::new();
            let mut k: usize = 0;
            while k < i
                invariant
                    k <= i <= v@.len(),
                    r@ =~= v@.take(k as int),
                decreases i - k,
            {
                r.push(v[k]);
                assert(r@ =~= v@.take(k + 1));
                k += 1;
            }
            assert(r@ == spec_parent_scan(v@.take(i as int)));
            return r;
        }
        assert(v@.take(i as int).drop_last() =~= v@.take(i - 1));
        i -= 1;
    }
    assert(v@.take(0) =~= Seq::<char>::empty());
    let r: Vec<char> = Vec::new();
    assert(r@ =~= spec_parent_scan(v@));
    r
}

/// What one enumerated entry contributes: directories other than the two
/// self-references are offered as prefix plus name; everything else is
/// skipped.
pub open spec fn spec_entry_item(prefix: Seq<char>, name: Seq<char>, is_dir: bool) -> Option<
    Seq<char>,
> {
    if is_dir && name != "."@ && name != ".."@ {
        Some(prefix + name)
    } else {
        None
    }
}

/// The offered items for a list of enumerated entries, in enumeration order.
pub open spec fn spec_completion_items(
    prefix: Seq<char>,
    entries: Seq<(Seq<char>, bool)>,
) -> Seq<Seq<char>>
    decreases entries.len(),
{
    if entries.len() == 0 {
        Seq::empty()
    } else {
        spec_completion_items(prefix, entries.drop_last()) + (match spec_entry_item(
            prefix,
            entries.last().0,
            entries.last().1,
        ) {
            Some(item) => seq![item],
            None => Seq::empty(),
        })
    }
}

/// Turns the enumerated directory entries (name, is-directory) into the
/// offered items: each kept entry becomes the typed prefix plus its name;
/// files and the `.`/`..` entries are dropped.
pub fn completion_items(prefix: &str, entries: &Vec<(String, bool)>) -> (r: Vec<String>)
    ensures
        r@.map_values(|s: String| s@) == spec_completion_items(
            prefix@,
            entries@.map_values(|e: (String, bool)| (e.0@, e.1)),
        ),
{
    let ghost evs = entries@.map_values(|e: (String, bool)| (e.0@, e.1));
    let pv = chars_of(prefix);
    let mut r: Vec<String> = Vec::new();
    let mut n: usize = 0;
    assert(evs.take(0) =~= Seq::<(Seq<char>, bool)>::empty());
    assert(r@.map_values(|s: String| s@) =~= spec_completion_items(prefix@, evs.take(0)));
    while n < entries.len()
        invariant
            evs == entries@.map_values(|e: (String, bool)| (e.0@, e.1)),
            pv@ == prefix@,
            n <= entries.len(),
            r@.map_values(|s: String| s@) == spec_completion_items(prefix@, evs.take(n as int)),
        decreases entries.len() - n,
    {
        let (name, is_dir) = &entries[n];
        proof {
            assert(evs.take(n + 1).drop_last() =~= evs.take(n as int));
            assert(evs.take(n + 1).last() == (name@, *is_dir));
            reveal_strlit(".");
            reveal_strlit("..");
        }
        let dot = String::from_str(".");
        let dotdot = String::from_str("..");
        if *is_dir && !name.eq(&dot) && !name.eq(&dotdot) {
            let mut item = pv.clone();
            let mut nm = chars_of(name.as_str());
            item.append(&mut nm);
            assert(item@ =~= prefix@ + name@);
            r.push(string_from_chars(&item));
            assert(r@.map_values(|s: String| s@) =~= spec_completion_items(
                prefix@,
                evs.take(n + 1),
            ));
        } else {
            assert(r@.map_values(|s: String| s@) =~= spec_completion_items(
                prefix@,
                evs.take(n + 1),
            ));
        }
        n += 1;
    }
    assert(evs.take(evs.len() as int) =~= evs);
    r
}

/// The order the popup lists items in: case-insensitively, with the
/// original spelling as tiebreak.
pub open spec fn spec_item_le(a: Seq<char>, b: Seq<char>) -> bool {
    if spec_lower(a) == spec_lower(b) {
        spec_seq_le(a, b)
    } else {
        spec_seq_le(spec_lower(a), spec_lower(b))
    }
}

/// Where `x` lands when inserted into `s`: after every element that is at
/// or below it in the popup order.
pub open spec fn spec_insert_item(s: Seq<Seq<char>>, x: Seq<char>) -> Seq<Seq<char>>
    decreases s.len(),
{
    if s.len() == 0 {
        seq![x]
    } else if spec_item_le(s.first(), x) {
        seq![s.first()] + spec_insert_item(s.drop_first(), x)
    } else {
        seq![x] + s
    }
}

/// The items in popup order: each input item inserted in turn, so equal
/// keys keep their enumeration order.
pub open spec fn spec_sort_items(s: Seq<Seq<char>>) -> Seq<Seq<char>>
    decreases s.len(),
{
    if s.len() == 0 {
        s
    } else {
        spec_insert_item(spec_sort_items(s.drop_last()), s.last())
    }
}

proof fn lemma_insert_item_at(s: Seq<Seq<char>>, x: Seq<char>, j: int)
    requires
        0 <= j <= s.len(),
        forall|k: int| 0 <= k < j ==> spec_item_le(#[trigger] s[k], x),
        j < s.len() ==> !spec_item_le(s[j], x),
    ensures
        spec_insert_item(s, x) == s.take(j) + seq![x] + s.skip(j),
    decreases s.len(),
{
    if s.len() == 0 {
        assert(spec_insert_item(s, x) =~= s.take(j) + seq![x] + s.skip(j));
    } else if spec_item_le(s.first(), x) && j > 0 {
        lemma_insert_item_at(s.drop_first(), x, j - 1);
        assert(s.drop_first().take(j - 1) =~= s.take(j).drop_first());
        assert(s.drop_first().skip(j - 1) =~= s.skip(j));
        assert(spec_insert_item(s, x) =~= s.take(j) + seq![x] + s.skip(j));
    } else {
        assert(j == 0);
        assert(s.take(0) =~= Seq::<Seq<char>>::empty());
        assert(s.skip(0) =~= s);
        assert(spec_insert_item(s, x) =~= s.take(j) + seq![x] + s.skip(j));
    }
}

proof fn lemma_seq_le_total(a: Seq<char>, b: Seq<char>)
    ensures
        spec_seq_le(a, b) || spec_seq_le(b, a),
    decreases a.len(),
{
    if a.len() > 0 && b.len() > 0 && a.first() == b.first() {
        lemma_seq_le_total(a.drop_first(), b.drop_first());
    } else if a.len() > 0 && b.len() > 0 {
        vstd::utf8::char_u32_cast(a.first(), a.first() as u32);
        vstd::utf8::char_u32_cast(b.first(), b.first() as u32);
        assert((a.first() as u32) != (b.first() as u32));
    }
}

proof fn lemma_seq_le_antisymmetric(a: Seq<char>, b: Seq<char>)
    requires
        spec_seq_le(a, b),
        spec_seq_le(b, a),
    ensures
        a == b,
    decreases a.len(),
{
    if a.len() > 0 && b.len() > 0 && a.first() == b.first() {
        lemma_seq_le_antisymmetric(a.drop_first(), b.drop_first());
        assert(a =~= seq![a.first()] + a.drop_first());
        assert(b =~= seq![b.first()] + b.drop_first());
    } else if a.len() > 0 && b.len() > 0 {
        assert((a.first() as u32) < (b.first() as u32) && (b.first() as u32) < (
        a.first() as u32));
    } else {
        assert(a.len() == 0 && b.len() == 0);
        assert(a =~= b);
    }
}

proof fn lemma_seq_le_transitive(a: Seq<char>, b: Seq<char>, c: Seq<char>)
    requires
        spec_seq_le(a, b),
        spec_seq_le(b, c),
    ensures
        spec_seq_le(a, c),
    decreases a.len(),
{
    if a.len() > 0 && b.len() > 0 && c.len() > 0 && a.first() == b.first() && b.first()
        == c.first() {
        lemma_seq_le_transitive(a.drop_first(), b.drop_first(), c.drop_first());
    }
}

proof fn lemma_item_le_total(a: Seq<char>, b: Seq<char>)
    ensures
        spec_item_le(a, b) || spec_item_le(b, a),
{
    if spec_lower(a) == spec_lower(b) {
        lemma_seq_le_total(a, b);
    } else {
        lemma_seq_le_total(spec_lower(a), spec_lower(b));
    }
}

proof fn lemma_item_le_transitive(a: Seq<char>, b: Seq<char>, c: Seq<char>)
    requires
        spec_item_le(a, b),
        spec_item_le(b, c),
    ensures
        spec_item_le(a, c),
{
    let la = spec_lower(a);
    let lb = spec_lower(b);
    let lc = spec_lower(c);
    if la == lb && lb == lc {
        lemma_seq_le_transitive(a, b, c);
    } else if la == lb {
    } else if lb == lc {
    } else if la == lc {
        lemma_seq_le_antisymmetric(la, lb);
    } else {
        lemma_seq_le_transitive(la, lb, lc);
    }
}

/// Every element of an insertion result is the inserted item or one of the
/// old elements.
proof fn lemma_insert_item_elems(s: Seq<Seq<char>>, x: Seq<char>)
    ensures
        forall|i: int|
            0 <= i < spec_insert_item(s, x).len() ==> (#[trigger] spec_insert_item(s, x)[i]) == x
                || exists|k: int| 0 <= k < s.len() && s[k] == spec_insert_item(s, x)[i],
    decreases s.len(),
{
    let r = spec_insert_item(s, x);
    if s.len() == 0 {
    } else if spec_item_le(s.first(), x) {
        lemma_insert_item_elems(s.drop_first(), x);
        let r1 = spec_insert_item(s.drop_first(), x);
        assert forall|i: int|
            0 <= i < r.len() implies (#[trigger] r[i]) == x || exists|k: int|
                0 <= k < s.len() && s[k] == r[i] by {
            if i == 0 {
                assert(r[0] == s[0]);
            } else {
                assert(r[i] == r1[i - 1]);
                if r1[i - 1] != x {
                    let k = choose|k: int| 0 <= k < s.drop_first().len() && s.drop_first()[k]
                        == r1[i - 1];
                    assert(s[k + 1] == r[i]);
                }
            }
        }
    } else {
        assert forall|i: int|
            0 <= i < r.len() implies (#[trigger] r[i]) == x || exists|k: int|
                0 <= k < s.len() && s[k] == r[i] by {
            if i > 0 {
                assert(s[i - 1] == r[i]);
            }
        }
    }
}

/// Inserting into a popup-ordered sequence keeps it ordered.
proof fn lemma_insert_item_sorted(s: Seq<Seq<char>>, x: Seq<char>)
    requires
        forall|i: int, j: int|
            0 <= i < j < s.len() ==> spec_item_le(#[trigger] s[i], #[trigger] s[j]),
    ensures
        forall|i: int, j: int|
            0 <= i < j < spec_insert_item(s, x).len() ==> spec_item_le(
                #[trigger] spec_insert_item(s, x)[i],
                #[trigger] spec_insert_item(s, x)[j],
            ),
    decreases s.len(),
{
    let r = spec_insert_item(s, x);
    if s.len() == 0 {
    } else if spec_item_le(s.first(), x) {
        assert forall|i: int, j: int|
            0 <= i < j < s.drop_first().len() implies spec_item_le(
                #[trigger] s.drop_first()[i],
                #[trigger] s.drop_first()[j],
            ) by {
            assert(s.drop_first()[i] == s[i + 1]);
            assert(s.drop_first()[j] == s[j + 1]);
        }
        lemma_insert_item_sorted(s.drop_first(), x);
        lemma_insert_item_elems(s.drop_first(), x);
        let r1 = spec_insert_item(s.drop_first(), x);
        assert forall|i: int, j: int|
            0 <= i < j < r.len() implies spec_item_le(#[trigger] r[i], #[trigger] r[j]) by {
            if i == 0 {
                assert(r[0] == s.first());
                assert(r[j] == r1[j - 1]);
                if r1[j - 1] == x {
                } else {
                    let k = choose|k: int| 0 <= k < s.drop_first().len() && s.drop_first()[k]
                        == r1[j - 1];
                    assert(s.drop_first()[k] == s[k + 1]);
                    assert(spec_item_le(s[0], s[k + 1]));
                }
            } else {
                assert(r[i] == r1[i - 1]);
                assert(r[j] == r1[j - 1]);
            }
        }
    } else {
        lemma_item_le_total(s.first(), x);
        assert(spec_item_le(x, s.first()));
        assert forall|i: int, j: int|
            0 <= i < j < r.len() implies spec_item_le(#[trigger] r[i], #[trigger] r[j]) by {
            if i == 0 {
                assert(r[0] == x);
                assert(r[j] == s[j - 1]);
                if j - 1 > 0 {
                    assert(spec_item_le(s[0], s[j - 1]));
                    lemma_item_le_transitive(x, s[0], s[j - 1]);
                }
            } else {
                assert(r[i] == s[i - 1]);
                assert(r[j] == s[j - 1]);
            }
        }
    }
}

/// The offered items come out in popup order: case-insensitively by name,
/// the original spelling deciding between case-variants.
pub proof fn lemma_sort_items_sorted(items: Seq<Seq<char>>)
    ensures
        forall|i: int, j: int|
            0 <= i < j < spec_sort_items(items).len() ==> spec_item_le(
                #[trigger] spec_sort_items(items)[i],
                #[trigger] spec_sort_items(items)[j],
            ),
    decreases items.len(),
{
    if items.len() > 0 {
        lemma_sort_items_sorted(items.drop_last());
        lemma_insert_item_sorted(spec_sort_items(items.drop_last()), items.last());
    }
}

/// Decides the popup order on two items.
fn item_le(a: &String, b: &String) -> (r: bool)
    ensures
        r == spec_item_le(a@, b@),
{
    let av = chars_of(a.as_str());
    let bv = chars_of(b.as_str());
    let la = lower_chars(&av);
    let lb = lower_chars(&bv);
    if eq_chars(&la, &lb) {
        le_chars(&av, &bv)
    } else {
        le_chars(&la, &lb)
    }
}

/// Sorts the offered items into popup order: case-insensitively by name,
/// original spelling as a stable tiebreak.
pub fn sort_completion_items(items: &Vec<String>) -> (r: Vec<String>)
    ensures
        r@.map_values(|s: String| s@) == spec_sort_items(items@.map_values(|s: String| s@)),
{
    let ghost is = items@.map_values(|s: String| s@);
    let mut r: Vec<String> = Vec::new();
    let mut n: usize = 0;
    assert(is.take(0) =~= Seq::<Seq<char>>::empty());
    assert(r@.map_values(|s: String| s@) =~= spec_sort_items(is.take(0)));
    while n < items.len()
        invariant
            is == items@.map_values(|s: String| s@),
            n <= items.len(),
            r@.map_values(|s: String| s@) == spec_sort_items(is.take(n as int)),
        decreases items.len() - n,
    {
        let x = items[n].clone();
        let ghost sorted = r@.map_values(|s: String| s@);
        let mut j: usize = 0;
        while j < r.len() && item_le(&r[j], &x)
            invariant
                sorted == r@.map_values(|s: String| s@),
                x@ == is[n as int],
                n < is.len(),
                j <= r.len(),
                forall|k: int| 0 <= k < j ==> spec_item_le(#[trigger] sorted[k], x@),
            decreases r.len() - j,
        {
            j += 1;
        }
        proof {
            lemma_insert_item_at(sorted, x@, j as int);
        }
        r.insert(j, x);
        proof {
            assert(is.take(n + 1).drop_last() =~= is.take(n as int));
            assert(is.take(n + 1).last() == is[n as int]);
            assert(r@.map_values(|s: String| s@) =~= sorted.take(j as int) + seq![is[n as int]]
                + sorted.skip(j as int));
            assert(r@.map_values(|s: String| s@) =~= spec_sort_items(is.take(n + 1)));
        }
        n += 1;
    }
    assert(is.take(is.len() as int) =~= is);
    r
}

} // verus!
