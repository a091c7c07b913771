//! Display tracks: lanes within a category on which spans are drawn without overlap.

use vstd::prelude::*;

verus! {

/// The coarse grouping that a displayed span is directed to.
#[derive(Clone, Copy, PartialEq, Eq, Debug, Structural)]
pub enum Category {
    Uncategorized,
    CriticalPath,
}

/// The label of a category as it appears in a rendered track id.
pub open spec fn category_label(c: Category) -> Seq<char> {
    match c {
        Category::Uncategorized => "uncategorized"@,
        Category::CriticalPath => "critical-path"@,
    }
}

impl Category {
    pub fn label(&self) -> (r: &'static str)
        ensures
            r@ == category_label(*self),
    {
        match self {
            Category::Uncategorized => "uncategorized",
            Category::CriticalPath => "critical-path",
        }
    }
}

/// The character of a decimal digit.
pub open spec fn digit_char(d: nat) -> char {
    if d == 0 { '0' }
    else if d == 1 { '1' }
    else if d == 2 { '2' }
    else if d == 3 { '3' }
    else if d == 4 { '4' }
    else if d == 5 { '5' }
    else if d == 6 { '6' }
    else if d == 7 { '7' }
    else if d == 8 { '8' }
    else { '9' }
}

/// The decimal digits of `n`, most significant first, without leading zeros.
pub open spec fn decimal(n: nat) -> Seq<char>
    decreases n,
{
    if n < 10 {
        seq![digit_char(n)]
    } else {
        decimal(n / 10).push(digit_char(n % 10))
    }
}

/// The decimal digits of `n`, padded with zeros to at least two characters.
pub open spec fn decimal_two_wide(n: nat) -> Seq<char> {
    if n < 10 {
        seq!['0', digit_char(n)]
    } else {
        decimal(n)
    }
}

fn digit_str(d: u64) -> (r: &'static str)
    requires
        d < 10,
    ensures
        r@ == seq![digit_char(d as nat)],
{
    proof {
        reveal_strlit("0");
        reveal_strlit("1");
        reveal_strlit("2");
        reveal_strlit("3");
        reveal_strlit("4");
        reveal_strlit("5");
        reveal_strlit("6");
        reveal_strlit("7");
        reveal_strlit("8");
        reveal_strlit("9");
    }
    if d == 0 { "0" }
    else if d == 1 { "1" }
    else if d == 2 { "2" }
    else if d == 3 { "3" }
    else if d == 4 { "4" }
    else if d == 5 { "5" }
    else if d == 6 { "6" }
    else if d == 7 { "7" }
    else if d == 8 { "8" }
    else { "9" }
}

fn append_decimal(s: &mut String, n: u64)
    ensures
        final(s)@ == old(s)@ + decimal(n as nat),
    decreases n,
{
    if n >= 10 {
        append_decimal(s, n / 10);
    }
    s.append(digit_str(n % 10));
}

/// A track: a category and an ordinal within it.
#[derive(Clone, Copy, PartialEq, Eq, Debug, Structural)]
pub struct TrackId {
    pub category: Category,
    pub ordinal: u64,
}

/// The rendered form of a track id, such as `critical-path-03`.
pub open spec fn track_label(t: TrackId) -> Seq<char> {
    category_label(t.category) + "-"@ + decimal_two_wide(t.ordinal as nat)
}

impl TrackId {
    pub fn render(&self) -> (r: String)
        ensures
            r@ == track_label(*self),
    {
        let mut s = String::from_str(self.category.label());
        s.append("-");
        if self.ordinal < 10 {
            s.append("0");
            proof {
                reveal_strlit("0");
            }
        }
        append_decimal(&mut s, self.ordinal);
        proof {
            reveal_strlit("0");
            if self.ordinal < 10 {
                assert(decimal(self.ordinal as nat) == seq![digit_char(self.ordinal as nat)]);
            }
        }
        assert(s@ =~= track_label(*self));
        s
    }
}

/// Whether a track is held by the span that allocated it, or borrowed from an ancestor.
#[derive(Clone, Copy, PartialEq, Eq, Debug, Structural)]
pub enum SpanTrackAssignment {
    Owned(TrackId),
    Inherited(TrackId),
}

impl SpanTrackAssignment {
    pub open spec fn track(self) -> TrackId {
        match self {
            SpanTrackAssignment::Owned(t) => t,
            SpanTrackAssignment::Inherited(t) => t,
        }
    }

    pub fn get_track_id(&self) -> (r: TrackId)
        ensures
            r == self.track(),
    {
        match self {
            SpanTrackAssignment::Owned(t) => *t,
            SpanTrackAssignment::Inherited(t) => *t,
        }
    }
}

/// Whether every ordinal that an allocator can hand out is in use.
pub open spec fn exhausted(in_use: Set<u64>) -> bool {
    forall|t: u64| t < u64::MAX ==> in_use.contains(t)
}

/// Whether `t` is the smallest ordinal that is not in use.
pub open spec fn is_smallest_free(in_use: Set<u64>, t: u64) -> bool {
    &&& !in_use.contains(t)
    &&& forall|u: u64| u < t ==> in_use.contains(u)
}

/// What an allocation hands out for a set of ordinals in use: the smallest free one.
pub open spec fn allocation(in_use: Set<u64>) -> Option<u64> {
    if exhausted(in_use) {
        None
    } else {
        Some(choose|t: u64| is_smallest_free(in_use, t))
    }
}

/// The ordinals in use after an allocation.
pub open spec fn after_allocation(in_use: Set<u64>) -> Set<u64> {
    match allocation(in_use) {
        Some(t) => in_use.insert(t),
        None => in_use,
    }
}

/// Hands out small ordinals, always the smallest that is not in use.
pub struct TrackIdAllocator {
    unused_track_ids: Vec<u64>,
    lowest_never_used: u64,
}

impl View for TrackIdAllocator {
    type V = Set<u64>;

    /// The ordinals currently in use.
    closed spec fn view(&self) -> Set<u64> {
        Set::new(
            |t: u64| t < self.lowest_never_used && !self.unused_track_ids@.contains(t),
        )
    }
}

impl TrackIdAllocator {
    pub closed spec fn wf(&self) -> bool {
        &&& self.unused_track_ids@.no_duplicates()
        &&& forall|i: int|
            0 <= i < self.unused_track_ids@.len() ==> #[trigger] self.unused_track_ids@[i]
                < self.lowest_never_used
    }

    pub fn new() -> (r: Self)
        ensures
            r.wf(),
            r@ == Set::<u64>::empty(),
    {
        let r = TrackIdAllocator { unused_track_ids: Vec::new(), lowest_never_used: 0 };
        assert(r@ =~= Set::<u64>::empty());
        r
    }

    pub fn get_smallest(&mut self) -> (r: Option<u64>)
        requires
            old(self).wf(),
        ensures
            final(self).wf(),
            r == allocation(old(self)@),
            final(self)@ == after_allocation(old(self)@),
    {
        let ghost old_view = self@;
        let n = self.unused_track_ids.len();
        if n == 0 {
            if self.lowest_never_used == u64::MAX {
                assert(exhausted(old_view));
                return None;
            }
            let t = self.lowest_never_used;
            self.lowest_never_used = t + 1;
            proof {
                assert(!exhausted(old_view)) by {
                    assert(!old_view.contains(t));
                }
                assert(is_smallest_free(old_view, t));
                let c = choose|c: u64| is_smallest_free(old_view, c);
                assert(c == t) by {
                    if c < t {
                        assert(old_view.contains(c));
                    }
                    if t < c {
                        assert(old_view.contains(t));
                    }
                }
                assert(self@ =~= old_view.insert(t));
            }
            return Some(t);
        }
        let mut best: usize = 0;
        let mut i: usize = 1;
        while i < n
            invariant
                0 <= best < i <= n,
                n == self.unused_track_ids@.len(),
                forall|j: int| 0 <= j < i ==> self.unused_track_ids@[best as int] <= #[trigger] self.unused_track_ids@[j],
            decreases n - i,
        {
            if self.unused_track_ids[i] < self.unused_track_ids[best] {
                best = i;
            }
            i = i + 1;
        }
        let t = self.unused_track_ids[best];
        let ghost old_unused = self.unused_track_ids@;
        self.unused_track_ids.swap_remove(best);
        proof {
            assert(!old_view.contains(t));
            assert(!exhausted(old_view)) by {
                assert(t < self.lowest_never_used);
            }
            assert forall|u: u64| u < t implies old_view.contains(u) by {
                if old_unused.contains(u) {
                    let j = choose|j: int| 0 <= j < old_unused.len() && old_unused[j] == u;
                    assert(old_unused[best as int] <= old_unused[j]);
                }
                assert(u < self.lowest_never_used);
            }
            assert(is_smallest_free(old_view, t));
            let c = choose|c: u64| is_smallest_free(old_view, c);
            assert(c == t) by {
                if c < t {
                    assert(old_view.contains(c));
                }
                if t < c {
                    assert(old_view.contains(t));
                }
            }
            let nu = self.unused_track_ids@;
            assert(nu =~= old_unused.update(best as int, old_unused.last()).drop_last());
            assert forall|x: u64| nu.contains(x) <==> (old_unused.contains(x) && x != t) by {
                if nu.contains(x) {
                    let j = choose|j: int| 0 <= j < nu.len() && nu[j] == x;
                    if j == best as int {
                        assert(x == old_unused[old_unused.len() - 1]);
                        assert(old_unused.len() - 1 != best as int);
                    } else {
                        assert(x == old_unused[j]);
                    }
                }
                if old_unused.contains(x) && x != t {
                    let j = choose|j: int| 0 <= j < old_unused.len() && old_unused[j] == x;
                    if j == old_unused.len() - 1 {
                        if (best as int) < old_unused.len() - 1 {
                            assert(nu[best as int] == x);
                        }
                    } else {
                        assert(j != best as int);
                        assert(nu[j] == x);
                    }
                }
            }
            assert(self@ =~= old_view.insert(t));
            assert forall|a: int, b: int| 0 <= a < b < nu.len() implies nu[a] != nu[b] by {
                let oa = if a == best as int { old_unused.len() - 1 } else { a };
                let ob = if b == best as int { old_unused.len() - 1 } else { b };
                assert(nu[a] == old_unused[oa]);
                assert(nu[b] == old_unused[ob]);
            }
            assert forall|k: int| 0 <= k < nu.len() implies #[trigger] nu[k] < self.lowest_never_used by {
                let ok = if k == best as int { old_unused.len() - 1 } else { k };
                assert(nu[k] == old_unused[ok]);
            }
        }
        Some(t)
    }

    /// Releases an ordinal so that it can be handed out again; one that is not in use
    /// is left alone.
    pub fn mark_unused(&mut self, tid: u64)
        requires
            old(self).wf(),
        ensures
            final(self).wf(),
            final(self)@ == old(self)@.remove(tid),
    {
        let ghost old_view = self@;
        if tid >= self.lowest_never_used {
            assert(self@ =~= old_view.remove(tid));
            return;
        }
        let n = self.unused_track_ids.len();
        let mut i: usize = 0;
        while i < n
            invariant
                0 <= i <= n,
                n == self.unused_track_ids@.len(),
                *self == *old(self),
                self.wf(),
                self@ == old_view,
                tid < self.lowest_never_used,
                forall|j: int| 0 <= j < i ==> self.unused_track_ids@[j] != tid,
            decreases n - i,
        {
            if self.unused_track_ids[i] == tid {
                assert(self.unused_track_ids@[i as int] == tid);
                assert(self@ =~= old_view.remove(tid));
                return;
            }
            i = i + 1;
        }
        let ghost old_unused = self.unused_track_ids@;
        self.unused_track_ids.push(tid);
        proof {
            let nu = self.unused_track_ids@;
            assert(nu == old_unused.push(tid));
            assert(!old_unused.contains(tid));
            assert forall|x: u64| nu.contains(x) <==> (old_unused.contains(x) || x == tid) by {
                if nu.contains(x) {
                    let j = choose|j: int| 0 <= j < nu.len() && nu[j] == x;
                    if j < old_unused.len() {
                        assert(old_unused[j] == x);
                    }
                }
                if old_unused.contains(x) {
                    let j = choose|j: int| 0 <= j < old_unused.len() && old_unused[j] == x;
                    assert(nu[j] == x);
                }
                if x == tid {
                    assert(nu[old_unused.len() as int] == x);
                }
            }
            assert(self@ =~= old_view.remove(tid));
            assert forall|k: int| 0 <= k < nu.len() implies #[trigger] nu[k] < self.lowest_never_used by {
                if k < old_unused.len() {
                    assert(nu[k] == old_unused[k]);
                }
            }
        }
    }
}

/// The smallest free ordinal, where it is below the largest, is what an allocation hands
/// out.
pub proof fn lemma_allocation_is_smallest_free(in_use: Set<u64>, t: u64)
    requires
        is_smallest_free(in_use, t),
        t < u64::MAX,
    ensures
        allocation(in_use) == Some(t),
{
    assert(!exhausted(in_use));
    let c = choose|c: u64| is_smallest_free(in_use, c);
    if c < t {
        assert(in_use.contains(c));
    }
    if t < c {
        assert(in_use.contains(t));
    }
}

/// What an allocation hands out is the smallest free ordinal, below the largest.
pub proof fn lemma_allocation_facts(in_use: Set<u64>)
    requires
        allocation(in_use) is Some,
    ensures
        is_smallest_free(in_use, allocation(in_use).unwrap()),
        allocation(in_use).unwrap() < u64::MAX,
        after_allocation(in_use) == in_use.insert(allocation(in_use).unwrap()),
{
    lemma_smallest_free_exists(in_use);
    let a = allocation(in_use).unwrap();
    let f = choose|f: u64| f < u64::MAX && !in_use.contains(f);
    if a >= f {
        if a > f {
            assert(in_use.contains(f));
        }
    }
}

/// Allocating two ordinals and releasing the first makes the next allocation hand the
/// first one out again.
pub proof fn lemma_released_ordinal_is_reused(in_use: Set<u64>)
    requires
        allocation(in_use) is Some,
        allocation(after_allocation(in_use)) is Some,
    ensures
        ({
            let a = allocation(in_use).unwrap();
            let s1 = after_allocation(in_use);
            let s2 = after_allocation(s1);
            allocation(s2.remove(a)) == Some(a)
        }),
{
    let a = allocation(in_use).unwrap();
    let s1 = after_allocation(in_use);
    lemma_allocation_facts(in_use);
    let b = allocation(s1).unwrap();
    let s2 = after_allocation(s1);
    lemma_allocation_facts(s1);
    assert(b != a);
    assert(is_smallest_free(s2.remove(a), a));
    lemma_allocation_is_smallest_free(s2.remove(a), a);
}

/// Where some ordinal below the largest is free, a smallest free one exists.
pub proof fn lemma_smallest_free_exists(in_use: Set<u64>)
    requires
        !exhausted(in_use),
    ensures
        exists|t: u64| is_smallest_free(in_use, t),
{
    let f = choose|f: u64| f < u64::MAX && !in_use.contains(f);
    lemma_smallest_free_below_from(in_use, f);
}

proof fn lemma_smallest_free_below_from(in_use: Set<u64>, f: u64)
    requires
        !in_use.contains(f),
    ensures
        exists|t: u64| is_smallest_free(in_use, t),
    decreases f,
{
    if forall|u: u64| u < f ==> in_use.contains(u) {
        assert(is_smallest_free(in_use, f));
    } else {
        let g = choose|g: u64| g < f && !in_use.contains(g);
        lemma_smallest_free_below_from(in_use, g);
    }
}

} // verus!
