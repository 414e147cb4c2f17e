//! The order in which windows were last used, and the display order that it
//! gives to the windows the compositor reports.

use vstd::prelude::*;
use vstd::multiset::Multiset;
use crate::windows::WindowRecord;

verus! {

/// The ids of windows in the order in which they were last focused, most
/// recent first. No id occurs twice.
pub struct WindowCache {
    order: Vec<u64>,
}

impl View for WindowCache {
    type V = Seq<u64>;

    closed spec fn view(&self) -> Seq<u64> {
        self.order@
    }
}

impl WindowCache {
    #[verifier::type_invariant]
    spec fn distinct_ids(self) -> bool {
        self.order@.no_duplicates()
    }
}

/// The ids that occur in `ids`.
pub open spec fn occurs_in(ids: Seq<u64>) -> spec_fn(u64) -> bool {
    |id: u64| ids.contains(id)
}

/// The ids other than `id`.
pub open spec fn other_than(id: u64) -> spec_fn(u64) -> bool {
    |x: u64| x != id
}

/// `known`, followed by the ids of `current` that it lacks, in their order in
/// `current`, each once.
pub open spec fn add_missing(known: Seq<u64>, current: Seq<u64>) -> Seq<u64>
    decreases current.len(),
{
    if current.len() == 0 {
        known
    } else {
        let id = current[0];
        add_missing(if known.contains(id) { known } else { known.push(id) }, current.drop_first())
    }
}

/// The cached order after the compositor reported the windows `current`:
/// the cached ids that are still open keep their order, and the ids of new
/// windows follow them.
pub open spec fn updated_order(cached: Seq<u64>, current: Seq<u64>) -> Seq<u64> {
    add_missing(cached.filter(occurs_in(current)), current)
}

/// The cached order after `id` was focused: `id` first, then the others in
/// their order.
pub open spec fn moved_to_front(cached: Seq<u64>, id: u64) -> Seq<u64> {
    seq![id] + cached.filter(other_than(id))
}

/// Whether `id` occurs in `ids`.
fn contains_id(ids: &Vec<u64>, id: u64) -> (found: bool)
    ensures
        found == ids@.contains(id),
{
    let mut i: usize = 0;
    while i < ids.len()
        invariant
            i <= ids@.len(),
            forall|k: int| 0 <= k < i ==> ids@[k] != id,
        decreases ids@.len() - i,
    {
        if ids[i] == id {
            return true;
        }
        i = i + 1;
    }
    false
}

/// The elements of `s` that satisfy `keep`, computed from the first `i + 1`
/// elements by one more step.
proof fn lemma_filter_take_step<A>(s: Seq<A>, keep: spec_fn(A) -> bool, i: int)
    requires
        0 <= i < s.len(),
    ensures
        s.take(i + 1).filter(keep) == if keep(s[i]) {
            s.take(i).filter(keep).push(s[i])
        } else {
            s.take(i).filter(keep)
        },
{
    reveal_with_fuel(Seq::<_>::filter, 1);
    assert(s.take(i + 1).drop_last() =~= s.take(i));
}

/// A filtered sequence without repeated elements has none either.
proof fn lemma_filter_no_duplicates<A>(s: Seq<A>, keep: spec_fn(A) -> bool)
    requires
        s.no_duplicates(),
    ensures
        s.filter(keep).no_duplicates(),
    decreases s.len(),
{
    reveal_with_fuel(Seq::<_>::filter, 1);
    if s.len() > 0 {
        let rest = s.drop_last();
        lemma_filter_no_duplicates(rest, keep);
        if keep(s.last()) {
            if rest.filter(keep).contains(s.last()) {
                rest.lemma_filter_contains_rev(keep, s.last());
                let k = choose|k: int| 0 <= k < rest.len() && rest[k] == s.last();
                assert(s[k] == s[s.len() - 1]);
            }
        }
    }
}

/// An element lies in a filtered sequence exactly when it lies in the
/// sequence and satisfies the filter.
proof fn lemma_filter_membership<A>(s: Seq<A>, keep: spec_fn(A) -> bool, x: A)
    ensures
        s.filter(keep).contains(x) <==> s.contains(x) && keep(x),
{
    broadcast use vstd::seq_lib::group_filter_ensures;
    if s.filter(keep).contains(x) {
        s.lemma_filter_contains_rev(keep, x);
        let k = choose|k: int| 0 <= k < s.filter(keep).len() && s.filter(keep)[k] == x;
        s.lemma_filter_pred(keep, k);
    }
    if s.contains(x) && keep(x) {
        let k = choose|k: int| 0 <= k < s.len() && s[k] == x;
        s.lemma_filter_contains(keep, k);
    }
}

/// What `add_missing` gives: `known` followed by ids of `current`, holding
/// exactly the ids of both, and no id twice where `known` has none twice.
proof fn lemma_add_missing(known: Seq<u64>, current: Seq<u64>)
    ensures
        known.len() <= add_missing(known, current).len(),
        add_missing(known, current).subrange(0, known.len() as int) == known,
        forall|x: u64|
            add_missing(known, current).contains(x) <==> known.contains(x) || current.contains(x),
        known.no_duplicates() ==> add_missing(known, current).no_duplicates(),
    decreases current.len(),
{
    if current.len() > 0 {
        let id = current[0];
        let next = if known.contains(id) {
            known
        } else {
            known.push(id)
        };
        lemma_add_missing(next, current.drop_first());
        let r = add_missing(known, current);
        assert(r == add_missing(next, current.drop_first()));
        assert(r.subrange(0, known.len() as int) =~= r.subrange(0, next.len() as int).subrange(
            0,
            known.len() as int,
        ));
        assert(next.subrange(0, known.len() as int) =~= known);
        assert forall|x: u64| r.contains(x) <==> known.contains(x) || current.contains(x) by {
            if current.contains(x) && x != id {
                let k = choose|k: int| 0 <= k < current.len() && current[k] == x;
                assert(current.drop_first()[k - 1] == x);
            }
            if current.drop_first().contains(x) {
                let k = choose|k: int| 0 <= k < current.drop_first().len() && current.drop_first()[k] == x;
                assert(current[k + 1] == x);
            }
            if next.contains(x) && !known.contains(x) {
                assert(x == id);
                assert(current[0] == x);
            }
            if known.contains(x) {
                let k = choose|k: int| 0 <= k < known.len() && known[k] == x;
                assert(next[k] == x);
            }
            if x == id && !known.contains(x) {
                assert(next[next.len() - 1] == x);
            }
        }
        if known.no_duplicates() && !known.contains(id) {
            assert forall|i: int, j: int|
                0 <= i < next.len() && 0 <= j < next.len() && i != j implies next[i] != next[j] by {
                if i == next.len() - 1 {
                    assert(known[j] == next[j]);
                } else if j == next.len() - 1 {
                    assert(known[i] == next[i]);
                }
            }
        }
    }
}

impl WindowCache {
    /// An empty cache.
    pub fn new() -> (cache: WindowCache)
        ensures
            cache@ == Seq::<u64>::empty(),
    {
        WindowCache { order: Vec::new() }
    }

    /// The cached ids, most recently focused first.
    pub fn ids(&self) -> (ids: &Vec<u64>)
        ensures
            ids@ == self@,
            ids@.no_duplicates(),
    {
        proof {
            use_type_invariant(self);
        }
        &self.order
    }

    /// Update the cache with the ids of the windows that are open now: the
    /// cached windows that are still open keep their order, and windows not
    /// seen before are added after them in the order of `current`.
    pub fn update_cache(&mut self, current: &Vec<u64>)
        ensures
            final(self)@ == updated_order(old(self)@, current@),
    {
        proof {
            use_type_invariant(&*self);
        }
        let ghost cached = self@;
        let mut kept: Vec<u64> = Vec::new();
        let mut i: usize = 0;
        while i < self.order.len()
            invariant
                i <= self.order@.len(),
                self.order@ == cached,
                kept@ == cached.take(i as int).filter(occurs_in(current@)),
            decreases self.order@.len() - i,
        {
            let id = self.order[i];
            if contains_id(current, id) {
                kept.push(id);
            }
            proof {
                lemma_filter_take_step(cached, occurs_in(current@), i as int);
            }
            i = i + 1;
        }
        assert(cached.take(cached.len() as int) =~= cached);
        proof {
            lemma_filter_no_duplicates(cached, occurs_in(current@));
            lemma_add_missing(kept@, current@);
        }
        let ghost target = updated_order(cached, current@);
        assert(current@.skip(0) =~= current@);
        let mut j: usize = 0;
        while j < current.len()
            invariant
                j <= current@.len(),
                add_missing(kept@, current@.skip(j as int)) == target,
                target.no_duplicates(),
            decreases current@.len() - j,
        {
            let id = current[j];
            if !contains_id(&kept, id) {
                kept.push(id);
            }
            assert(current@.skip(j as int).drop_first() =~= current@.skip(j + 1));
            j = j + 1;
        }
        assert(current@.skip(j as int) =~= Seq::<u64>::empty());
        self.order = kept;
    }

    /// Move `id` to the front of the cache: it becomes the most recently
    /// focused window, and the other ids keep their order.
    pub fn move_to_front(&mut self, id: u64)
        ensures
            final(self)@ == moved_to_front(old(self)@, id),
            final(self)@[0] == id,
            forall|i: int, j: int|
                0 <= i < j < old(self)@.len() && old(self)@[i] != id && old(self)@[j] != id ==> exists|
                    a: int,
                    b: int,
                | 1 <= a < b < final(self)@.len() && final(self)@[a] == old(self)@[i] && final(self)@[b]
                    == old(self)@[j],
    {
        proof {
            use_type_invariant(&*self);
            let c = self@;
            lemma_move_to_front_puts_first(c, id);
            assert forall|i: int, j: int|
                0 <= i < j < c.len() && c[i] != id && c[j] != id implies exists|a: int, b: int|
                    1 <= a < b < moved_to_front(c, id).len() && moved_to_front(c, id)[a] == c[i]
                        && moved_to_front(c, id)[b] == c[j] by {
                lemma_move_to_front_keeps_others_in_order(c, id, i, j);
            }
        }
        let ghost cached = self@;
        let mut moved: Vec<u64> = Vec::new();
        moved.push(id);
        let mut i: usize = 0;
        while i < self.order.len()
            invariant
                i <= self.order@.len(),
                self.order@ == cached,
                moved@ == seq![id] + cached.take(i as int).filter(other_than(id)),
            decreases self.order@.len() - i,
        {
            let x = self.order[i];
            if x != id {
                moved.push(x);
            }
            proof {
                lemma_filter_take_step(cached, other_than(id), i as int);
            }
            i = i + 1;
        }
        assert(cached.take(cached.len() as int) =~= cached);
        proof {
            lemma_move_to_front_puts_first(cached, id);
        }
        self.order = moved;
    }
}

/// After an update the cache holds exactly the ids of the open windows, each
/// once, and begins with the cached ids that are still open, in their old order.
pub proof fn lemma_update_holds_open_windows(cached: Seq<u64>, current: Seq<u64>)
    ensures
        forall|id: u64| updated_order(cached, current).contains(id) <==> current.contains(id),
        cached.no_duplicates() ==> updated_order(cached, current).no_duplicates(),
        cached.filter(occurs_in(current)).len() <= updated_order(cached, current).len(),
        updated_order(cached, current).subrange(0, cached.filter(occurs_in(current)).len() as int)
            == cached.filter(occurs_in(current)),
{
    let kept = cached.filter(occurs_in(current));
    lemma_add_missing(kept, current);
    assert forall|id: u64| updated_order(cached, current).contains(id) <==> current.contains(id) by {
        lemma_filter_membership(cached, occurs_in(current), id);
    }
    if cached.no_duplicates() {
        lemma_filter_no_duplicates(cached, occurs_in(current));
    }
}

/// After a window is focused its id comes first, the cache holds the same ids
/// as before together with it, and still holds no id twice.
pub proof fn lemma_move_to_front_puts_first(cached: Seq<u64>, id: u64)
    ensures
        moved_to_front(cached, id)[0] == id,
        forall|x: u64| moved_to_front(cached, id).contains(x) <==> x == id || cached.contains(x),
        cached.no_duplicates() ==> moved_to_front(cached, id).no_duplicates(),
{
    let rest = cached.filter(other_than(id));
    let moved = moved_to_front(cached, id);
    assert forall|x: u64| moved.contains(x) <==> x == id || cached.contains(x) by {
        lemma_filter_membership(cached, other_than(id), x);
        if moved.contains(x) && x != id {
            let k = choose|k: int| 0 <= k < moved.len() && moved[k] == x;
            assert(rest[k - 1] == x);
        }
        if rest.contains(x) {
            let k = choose|k: int| 0 <= k < rest.len() && rest[k] == x;
            assert(moved[k + 1] == x);
        }
        if x == id {
            assert(moved[0] == x);
        }
    }
    if cached.no_duplicates() {
        lemma_filter_no_duplicates(cached, other_than(id));
        assert forall|a: int, b: int|
            0 <= a < moved.len() && 0 <= b < moved.len() && a != b implies moved[a] != moved[b] by {
            if a == 0 {
                lemma_filter_membership(cached, other_than(id), moved[b]);
                assert(rest[b - 1] == moved[b]);
            } else if b == 0 {
                lemma_filter_membership(cached, other_than(id), moved[a]);
                assert(rest[a - 1] == moved[a]);
            } else {
                assert(rest[a - 1] == moved[a] && rest[b - 1] == moved[b]);
            }
        }
    }
}

/// The windows whose id is `id`.
pub open spec fn has_id(id: u64) -> spec_fn(WindowRecord) -> bool {
    |w: WindowRecord| w.id == id
}

/// The windows whose id is not `id`.
pub open spec fn lacks_id(id: u64) -> spec_fn(WindowRecord) -> bool {
    |w: WindowRecord| w.id != id
}

/// The ids of `windows`, in their order.
pub open spec fn window_ids(windows: Seq<WindowRecord>) -> Seq<u64> {
    windows.map_values(|w: WindowRecord| w.id)
}

/// Every window's id occurs in `order`.
pub open spec fn all_cached(order: Seq<u64>, windows: Seq<WindowRecord>) -> bool {
    forall|i: int| 0 <= i < windows.len() ==> order.contains(#[trigger] windows[i].id)
}

/// `windows` put in the order of `order`: first the windows with the first id,
/// in their own order, then the others put in the order of the remaining ids.
pub open spec fn in_cached_order(order: Seq<u64>, windows: Seq<WindowRecord>) -> Seq<WindowRecord>
    decreases order.len(),
{
    if order.len() == 0 {
        Seq::empty()
    } else {
        windows.filter(has_id(order[0])) + in_cached_order(
            order.drop_first(),
            windows.filter(lacks_id(order[0])),
        )
    }
}

/// `s` with its first two elements exchanged, when it has two.
pub open spec fn swap_first_two<A>(s: Seq<A>) -> Seq<A> {
    if s.len() > 1 {
        s.update(0, s[1]).update(1, s[0])
    } else {
        s
    }
}

/// The windows that remain after those with the first cached id are taken
/// out have their ids among the remaining cached ids.
proof fn lemma_rest_still_cached(order: Seq<u64>, windows: Seq<WindowRecord>)
    requires
        order.len() > 0,
        all_cached(order, windows),
    ensures
        all_cached(order.drop_first(), windows.filter(lacks_id(order[0]))),
{
    let c = order[0];
    let others = windows.filter(lacks_id(c));
    assert forall|i: int| 0 <= i < others.len() implies order.drop_first().contains(#[trigger] others[i].id) by {
        let w = others[i];
        windows.lemma_filter_pred(lacks_id(c), i);
        assert(others.contains(w));
        windows.lemma_filter_contains_rev(lacks_id(c), w);
        let k = choose|k: int| 0 <= k < windows.len() && windows[k] == w;
        assert(order.contains(windows[k].id));
        let m = choose|m: int| 0 <= m < order.len() && order[m] == w.id;
        assert(m != 0);
        assert(order.drop_first()[m - 1] == w.id);
    }
}

/// Taking the windows with an id apart from the others loses and adds nothing.
proof fn lemma_split_by_id(windows: Seq<WindowRecord>, id: u64)
    ensures
        windows.filter(has_id(id)).to_multiset().add(windows.filter(lacks_id(id)).to_multiset())
            == windows.to_multiset(),
    decreases windows.len(),
{
    broadcast use vstd::multiset::group_multiset_axioms;
    broadcast use vstd::seq_lib::group_to_multiset_ensures;
    reveal_with_fuel(Seq::<_>::filter, 1);
    if windows.len() == 0 {
        assert(windows.filter(has_id(id)).to_multiset() =~= Multiset::empty());
        assert(windows.filter(lacks_id(id)).to_multiset() =~= Multiset::empty());
        assert(windows.to_multiset() =~= Multiset::empty());
    } else {
        let rest = windows.drop_last();
        lemma_split_by_id(rest, id);
        assert(windows =~= rest.push(windows.last()));
        assert(windows.filter(has_id(id)).to_multiset().add(windows.filter(lacks_id(id)).to_multiset())
            =~= windows.to_multiset());
    }
}

/// Putting windows in the cached order loses no window and adds none, when
/// every window's id is cached.
pub proof fn lemma_cached_order_is_permutation(order: Seq<u64>, windows: Seq<WindowRecord>)
    requires
        all_cached(order, windows),
    ensures
        in_cached_order(order, windows).to_multiset() == windows.to_multiset(),
    decreases order.len(),
{
    broadcast use vstd::multiset::group_multiset_axioms;
    broadcast use vstd::seq_lib::group_to_multiset_ensures;
    if order.len() == 0 {
        if windows.len() > 0 {
            assert(order.contains(windows[0].id));
        }
        assert(windows =~= Seq::<WindowRecord>::empty());
        assert(in_cached_order(order, windows) =~= Seq::<WindowRecord>::empty());
    } else {
        let c = order[0];
        lemma_rest_still_cached(order, windows);
        lemma_cached_order_is_permutation(order.drop_first(), windows.filter(lacks_id(c)));
        vstd::seq_lib::lemma_multiset_commutative(
            windows.filter(has_id(c)),
            in_cached_order(order.drop_first(), windows.filter(lacks_id(c))),
        );
        lemma_split_by_id(windows, c);
    }
}

/// Exchanging the first two elements loses and adds nothing.
pub proof fn lemma_swap_first_two_is_permutation<A>(s: Seq<A>)
    ensures
        swap_first_two(s).to_multiset() == s.to_multiset(),
{
    broadcast use vstd::multiset::group_multiset_axioms;
    if s.len() > 1 {
        let head = seq![s[0], s[1]];
        let tail = s.subrange(2, s.len() as int);
        assert(s =~= head + tail);
        assert(swap_first_two(s) =~= seq![s[1]] + seq![s[0]] + tail);
        assert(head =~= seq![s[0]] + seq![s[1]]);
        vstd::seq_lib::lemma_multiset_commutative(head, tail);
        vstd::seq_lib::lemma_multiset_commutative(seq![s[1]] + seq![s[0]], tail);
        vstd::seq_lib::lemma_seq_union_to_multiset_commutative(seq![s[0]], seq![s[1]]);
    }
}

/// Put the windows in the positions they had in the cached order.
pub fn sort_windows_by_cached_order(windows: Vec<WindowRecord>, cache: &WindowCache) -> (sorted: Vec<
    WindowRecord,
>)
    requires
        all_cached(cache@, windows@),
    ensures
        sorted@ == in_cached_order(cache@, windows@),
{
    let order = cache.ids();
    let ghost full = order@;
    let ghost all = windows@;
    let mut sorted: Vec<WindowRecord> = Vec::new();
    let mut rest = windows;
    let mut ci: usize = 0;
    assert(full.skip(0) =~= full);
    assert(sorted@ + in_cached_order(full, all) =~= in_cached_order(full, all));
    while ci < order.len()
        invariant
            ci <= full.len(),
            order@ == full,
            sorted@ + in_cached_order(full.skip(ci as int), rest@) == in_cached_order(full, all),
            all_cached(full.skip(ci as int), rest@),
        decreases full.len() - ci,
    {
        let c = order[ci];
        let ghost before = rest@;
        let ghost sorted_before = sorted@;
        let mut others: Vec<WindowRecord> = Vec::new();
        let ghost mut j: int = 0;
        assert(before.take(0) =~= Seq::<WindowRecord>::empty());
        assert(before.skip(0) =~= before);
        reveal_with_fuel(Seq::<_>::filter, 1);
        while rest.len() > 0
            invariant
                0 <= j <= before.len(),
                rest@ == before.skip(j),
                sorted@ == sorted_before + before.take(j).filter(has_id(c)),
                others@ == before.take(j).filter(lacks_id(c)),
            decreases rest@.len(),
        {
            let w = rest.remove(0);
            proof {
                lemma_filter_take_step(before, has_id(c), j);
                lemma_filter_take_step(before, lacks_id(c), j);
            }
            if w.id == c {
                sorted.push(w);
            } else {
                others.push(w);
            }
            proof {
                j = j + 1;
            }
            assert(rest@ =~= before.skip(j));
        }
        proof {
            assert(before.take(j) =~= before);
            let tail = full.skip(ci as int);
            assert(tail[0] == c);
            assert(tail.drop_first() =~= full.skip(ci + 1));
            lemma_rest_still_cached(tail, before);
            assert(sorted@ + in_cached_order(full.skip(ci + 1), others@) =~= sorted_before
                + in_cached_order(tail, before));
        }
        rest = others;
        ci = ci + 1;
    }
    assert(full.skip(ci as int) =~= Seq::<u64>::empty());
    assert(sorted@ + Seq::<WindowRecord>::empty() =~= sorted@);
    sorted
}

/// The position of the first occurrence of `id` in `order`.
pub open spec fn cached_position(order: Seq<u64>, id: u64) -> nat
    decreases order.len(),
{
    if order.len() == 0 || order[0] == id {
        0
    } else {
        1 + cached_position(order.drop_first(), id)
    }
}

/// Every window in the cached order has its id in `order`.
proof fn lemma_cached_order_ids(order: Seq<u64>, windows: Seq<WindowRecord>, i: int)
    requires
        0 <= i < in_cached_order(order, windows).len(),
    ensures
        order.contains(in_cached_order(order, windows)[i].id),
    decreases order.len(),
{
    if order.len() > 0 {
        let c = order[0];
        let first = windows.filter(has_id(c));
        let rest = in_cached_order(order.drop_first(), windows.filter(lacks_id(c)));
        if i < first.len() {
            windows.lemma_filter_pred(has_id(c), i);
            assert(order[0] == c);
        } else {
            lemma_cached_order_ids(order.drop_first(), windows.filter(lacks_id(c)), i - first.len());
            assert(in_cached_order(order, windows)[i] == rest[i - first.len()]);
            let m = choose|m: int| 0 <= m < order.drop_first().len() && order.drop_first()[m] == rest[i - first.len()].id;
            assert(order[m + 1] == rest[i - first.len()].id);
        }
    }
}

/// Windows put in the cached order follow the cache: a window shown before
/// another has its id at the same or an earlier position of the cache.
pub proof fn lemma_cached_order_follows_cache(order: Seq<u64>, windows: Seq<WindowRecord>, i: int, j: int)
    requires
        order.no_duplicates(),
        0 <= i < j < in_cached_order(order, windows).len(),
    ensures
        cached_position(order, in_cached_order(order, windows)[i].id) <= cached_position(
            order,
            in_cached_order(order, windows)[j].id,
        ),
    decreases order.len(),
{
    let c = order[0];
    let first = windows.filter(has_id(c));
    let others = windows.filter(lacks_id(c));
    let rest = in_cached_order(order.drop_first(), others);
    let sorted = in_cached_order(order, windows);
    assert(order.drop_first().no_duplicates()) by {
        assert forall|a: int, b: int|
            0 <= a < order.drop_first().len() && 0 <= b < order.drop_first().len() && a != b
            implies order.drop_first()[a] != order.drop_first()[b] by {
            assert(order[a + 1] == order.drop_first()[a] && order[b + 1] == order.drop_first()[b]);
        }
    }
    if i < first.len() {
        windows.lemma_filter_pred(has_id(c), i);
        assert(sorted[i].id == c);
    } else {
        let (i2, j2) = (i - first.len(), j - first.len());
        assert(sorted[i] == rest[i2] && sorted[j] == rest[j2]);
        lemma_cached_order_ids(order.drop_first(), others, i2);
        lemma_cached_order_ids(order.drop_first(), others, j2);
        lemma_cached_order_follows_cache(order.drop_first(), others, i2, j2);
        assert forall|k: int| 0 <= k < rest.len() implies rest[k].id != c by {
            lemma_cached_order_ids(order.drop_first(), others, k);
            let m = choose|m: int| 0 <= m < order.drop_first().len() && order.drop_first()[m] == rest[k].id;
            assert(order[m + 1] == rest[k].id);
        }
    }
}

/// Filtering keeps the relative order of the elements it keeps.
proof fn lemma_filter_keeps_order<A>(s: Seq<A>, keep: spec_fn(A) -> bool, i: int, j: int)
    requires
        0 <= i < j < s.len(),
        keep(s[i]),
        keep(s[j]),
    ensures
        exists|a: int, b: int|
            0 <= a < b < s.filter(keep).len() && s.filter(keep)[a] == s[i] && s.filter(keep)[b] == s[j],
    decreases s.len(),
{
    reveal_with_fuel(Seq::<_>::filter, 1);
    let d = s.drop_last();
    let f = d.filter(keep);
    if j == s.len() - 1 {
        assert(d[i] == s[i]);
        d.lemma_filter_contains(keep, i);
        let a = choose|a: int| 0 <= a < f.len() && f[a] == d[i];
        assert(s.filter(keep) == f.push(s[j]));
        assert(s.filter(keep)[a] == s[i] && s.filter(keep)[f.len() as int] == s[j]);
    } else {
        assert(d[i] == s[i] && d[j] == s[j]);
        lemma_filter_keeps_order(d, keep, i, j);
        let (a, b) = choose|a: int, b: int| 0 <= a < b < f.len() && f[a] == d[i] && f[b] == d[j];
        assert(s.filter(keep)[a] == s[i] && s.filter(keep)[b] == s[j]);
    }
}

/// Moving a window to the front keeps every other window in its place
/// relative to the rest: a window that came before another one still does,
/// after the moved window.
pub proof fn lemma_move_to_front_keeps_others_in_order(cached: Seq<u64>, id: u64, i: int, j: int)
    requires
        0 <= i < j < cached.len(),
        cached[i] != id,
        cached[j] != id,
    ensures
        exists|a: int, b: int|
            1 <= a < b < moved_to_front(cached, id).len() && moved_to_front(cached, id)[a] == cached[i]
                && moved_to_front(cached, id)[b] == cached[j],
{
    let rest = cached.filter(other_than(id));
    lemma_filter_keeps_order(cached, other_than(id), i, j);
    let (a, b) = choose|a: int, b: int| 0 <= a < b < rest.len() && rest[a] == cached[i] && rest[b] == cached[j];
    let moved = moved_to_front(cached, id);
    assert(moved[a + 1] == cached[i] && moved[b + 1] == cached[j]);
}

/// After a move to the front the cache holds the moved window first and then
/// every other cached window once, none more.
pub proof fn lemma_move_to_front_length(cached: Seq<u64>, id: u64)
    requires
        cached.no_duplicates(),
    ensures
        moved_to_front(cached, id).len() == if cached.contains(id) { cached.len() } else { cached.len() + 1 },
{
    broadcast use vstd::seq_lib::group_to_multiset_ensures;
    lemma_move_to_front_puts_first(cached, id);
    let moved = moved_to_front(cached, id);
    let a = moved.to_set();
    let b = cached.to_set().insert(id);
    assert(a =~= b) by {
        assert forall|x: u64| a.contains(x) <==> b.contains(x) by {}
    }
    moved.unique_seq_to_set();
    cached.unique_seq_to_set();
}

/// Filtering a filtered sequence by a narrower condition is filtering by that
/// condition; by a condition that excludes the first, it leaves nothing.
proof fn lemma_filter_twice<A>(s: Seq<A>, first: spec_fn(A) -> bool, second: spec_fn(A) -> bool)
    ensures
        (forall|x: A| #[trigger] second(x) ==> first(x)) ==> s.filter(first).filter(second) == s.filter(second),
        (forall|x: A| #[trigger] second(x) ==> !first(x)) ==> s.filter(first).filter(second) == Seq::<A>::empty(),
    decreases s.len(),
{
    reveal_with_fuel(Seq::<_>::filter, 2);
    if s.len() > 0 {
        lemma_filter_twice(s.drop_last(), first, second);
        let f = s.drop_last().filter(first);
        if first(s.last()) {
            assert(f.push(s.last()).drop_last() =~= f);
        }
    } else {
        assert(s.filter(first) =~= Seq::<A>::empty());
    }
}

/// Putting windows in the cached order keeps the windows that share an id in
/// the order in which they were reported.
pub proof fn lemma_cached_order_is_stable(order: Seq<u64>, windows: Seq<WindowRecord>, id: u64)
    requires
        all_cached(order, windows),
    ensures
        in_cached_order(order, windows).filter(has_id(id)) == windows.filter(has_id(id)),
    decreases order.len(),
{
    reveal_with_fuel(Seq::<_>::filter, 1);
    if order.len() == 0 {
        if windows.len() > 0 {
            assert(order.contains(windows[0].id));
        }
        assert(windows =~= Seq::<WindowRecord>::empty());
        assert(in_cached_order(order, windows) =~= Seq::<WindowRecord>::empty());
    } else {
        let c = order[0];
        let first = windows.filter(has_id(c));
        let others = windows.filter(lacks_id(c));
        let rest = in_cached_order(order.drop_first(), others);
        lemma_rest_still_cached(order, windows);
        lemma_cached_order_is_stable(order.drop_first(), others, id);
        Seq::filter_distributes_over_add(first, rest, has_id(id));
        lemma_filter_twice(windows, has_id(c), has_id(id));
        lemma_filter_twice(windows, lacks_id(c), has_id(id));
        if id == c {
            assert(forall|x: WindowRecord| #[trigger] has_id(id)(x) ==> has_id(c)(x));
            assert(forall|x: WindowRecord| #[trigger] has_id(id)(x) ==> !lacks_id(c)(x));
            assert(first.filter(has_id(id)) + Seq::<WindowRecord>::empty() =~= first.filter(has_id(id)));
        } else {
            assert(forall|x: WindowRecord| #[trigger] has_id(id)(x) ==> !has_id(c)(x));
            assert(forall|x: WindowRecord| #[trigger] has_id(id)(x) ==> lacks_id(c)(x));
            assert(Seq::<WindowRecord>::empty() + rest.filter(has_id(id)) =~= rest.filter(has_id(id)));
        }
    }
}

} // verus!
