//! Memo slots for the derived quantities of a triangle, and the order in which
//! they may be computed.
//!
//! Every derived quantity has one slot. A slot is filled at most once, and only
//! after the slots of the quantities its formula reads are filled, so that each
//! computation reuses cached results and none is ever repeated.
use vstd::prelude::*;

verus! {

/// The kinds of derived quantity. The first four are single values; the others
/// have one value per side, at indices 0, 1 and 2.
#[derive(Clone, Copy, Debug, PartialEq, Eq, Structural)]
pub enum Kind {
    Perimeter,
    Area,
    Inradius,
    Circumradius,
    Height,
    Median,
    Sine,
    Cosine,
    Angle,
    Tangent,
}

/// A derived quantity: its kind and, for the per-side kinds, the side index.
/// The index of a single-valued kind is ignored.
#[derive(Clone, Copy, Debug, PartialEq, Eq, Structural)]
pub struct Quantity {
    pub kind: Kind,
    pub index: usize,
}

/// Number of slots.
pub const SLOT_COUNT: usize = 22;

pub open spec fn is_per_side(k: Kind) -> bool {
    !(k is Perimeter || k is Area || k is Inradius || k is Circumradius)
}

/// A quantity that has a slot: a single-valued one, or a per-side one with an
/// index below 3.
pub open spec fn in_range(q: Quantity) -> bool {
    is_per_side(q.kind) ==> q.index < 3
}

/// Position of the quantity's slot.
pub open spec fn slot_key(q: Quantity) -> int {
    match q.kind {
        Kind::Perimeter => 0,
        Kind::Area => 1,
        Kind::Inradius => 2,
        Kind::Circumradius => 3,
        Kind::Height => 4 + q.index,
        Kind::Median => 7 + q.index,
        Kind::Sine => 10 + q.index,
        Kind::Cosine => 13 + q.index,
        Kind::Angle => 16 + q.index,
        Kind::Tangent => 19 + q.index,
    }
}

/// The quantity of a single-valued kind.
pub open spec fn scalar(k: Kind) -> Quantity {
    Quantity { kind: k, index: 0 }
}

/// The quantities whose values the formula of `q` reads, besides the sides.
pub open spec fn deps(q: Quantity) -> Seq<Quantity> {
    match q.kind {
        Kind::Perimeter => seq![],
        Kind::Area => seq![scalar(Kind::Perimeter)],
        Kind::Inradius => seq![scalar(Kind::Area), scalar(Kind::Perimeter)],
        Kind::Circumradius => seq![scalar(Kind::Area)],
        Kind::Height => seq![scalar(Kind::Area)],
        Kind::Median => seq![],
        Kind::Sine => seq![scalar(Kind::Area)],
        Kind::Cosine => seq![],
        Kind::Angle => seq![Quantity { kind: Kind::Cosine, index: q.index }],
        Kind::Tangent => seq![Quantity { kind: Kind::Angle, index: q.index }],
    }
}

/// Length of the longest dependency path below a quantity of this kind.
pub open spec fn depth(k: Kind) -> nat {
    match k {
        Kind::Perimeter => 0,
        Kind::Area => 1,
        Kind::Inradius => 2,
        Kind::Circumradius => 2,
        Kind::Height => 2,
        Kind::Median => 0,
        Kind::Sine => 2,
        Kind::Cosine => 0,
        Kind::Angle => 1,
        Kind::Tangent => 2,
    }
}

/// The cached value of `q` in the slots `s`, if any.
pub open spec fn slot_of<T>(s: Seq<Option<T>>, q: Quantity) -> Option<T> {
    if in_range(q) {
        s[slot_key(q)]
    } else {
        None
    }
}

/// Every quantity that `q` reads is cached.
pub open spec fn ready<T>(s: Seq<Option<T>>, q: Quantity) -> bool {
    forall|j: int| 0 <= j < deps(q).len() ==> (#[trigger] slot_of(s, deps(q)[j])) is Some
}

/// Every cached quantity has its dependencies cached.
pub open spec fn closed<T>(s: Seq<Option<T>>) -> bool {
    forall|q: Quantity| (#[trigger] slot_of(s, q)) is Some ==> ready(s, q)
}

/// Every quantity is cached.
pub open spec fn full<T>(s: Seq<Option<T>>) -> bool {
    forall|q: Quantity| in_range(q) ==> (#[trigger] slot_of(s, q)) is Some
}

/// The next quantity to compute on the way to `q`: `None` when `q` is cached
/// (or has no slot); else the first uncached quantity found by going to the
/// dependencies first, in their order.
pub open spec fn pending<T>(s: Seq<Option<T>>, q: Quantity) -> Option<Quantity>
    decreases depth(q.kind),
{
    if !in_range(q) || slot_of(s, q) is Some {
        None
    } else if deps(q).len() >= 1 && pending(s, deps(q)[0]) is Some {
        pending(s, deps(q)[0])
    } else if deps(q).len() >= 2 && pending(s, deps(q)[1]) is Some {
        pending(s, deps(q)[1])
    } else {
        Some(q)
    }
}

/// The slots after offering `v` for `q`: stored when `q` has a slot that is
/// empty and its dependencies are cached; otherwise nothing changes.
pub open spec fn fill_slots<T>(s: Seq<Option<T>>, q: Quantity, v: T) -> Seq<Option<T>> {
    if in_range(q) && ready(s, q) && slot_of(s, q) is None {
        s.update(slot_key(q), Some(v))
    } else {
        s
    }
}

/// The value answered when offering `v` for `q`: the cached one if there is
/// one, `v` if it gets stored, `None` if `q` has no slot or is not ready.
pub open spec fn fill_answer<T>(s: Seq<Option<T>>, q: Quantity, v: T) -> Option<T> {
    if !in_range(q) || !ready(s, q) {
        None
    } else if slot_of(s, q) is Some {
        slot_of(s, q)
    } else {
        Some(v)
    }
}

/// `f` gives one value per slot (the index of a single-valued kind does not
/// matter to it).
pub open spec fn per_slot<T>(f: spec_fn(Quantity) -> T) -> bool {
    forall|q: Quantity, r: Quantity|
        in_range(q) && in_range(r) && slot_key(q) == slot_key(r) ==> #[trigger] f(q) == #[trigger] f(
            r,
        )
}

/// Every cached value is the one that `f` gives for its quantity.
pub open spec fn agrees_with<T>(s: Seq<Option<T>>, f: spec_fn(Quantity) -> T) -> bool {
    forall|q: Quantity| #[trigger] slot_of(s, q) is Some ==> slot_of(s, q) == Some(f(q))
}

proof fn lemma_keys(q: Quantity)
    requires
        in_range(q),
    ensures
        0 <= slot_key(q) < SLOT_COUNT,
        deps(q).len() <= 2,
        forall|j: int| 0 <= j < deps(q).len() ==> in_range(#[trigger] deps(q)[j]),
        forall|j: int| 0 <= j < deps(q).len() ==> depth(#[trigger] deps(q)[j].kind) < depth(
            q.kind,
        ),
        forall|j: int| 0 <= j < deps(q).len() ==> eager_rank(#[trigger] deps(q)[j].kind) < eager_rank(
            q.kind,
        ),
{
}

/// Two quantities with one slot have the same dependencies.
proof fn lemma_same_key(q: Quantity, r: Quantity)
    requires
        in_range(q),
        in_range(r),
        slot_key(q) == slot_key(r),
    ensures
        deps(q) == deps(r),
{
}

/// What `pending` answers: nothing only for a cached quantity, and otherwise an
/// uncached quantity whose dependencies are all cached.
proof fn lemma_pending<T>(s: Seq<Option<T>>, q: Quantity)
    requires
        s.len() == SLOT_COUNT,
    ensures
        pending(s, q) is None && in_range(q) ==> slot_of(s, q) is Some,
        pending(s, q) matches Some(d) ==> in_range(d) && slot_of(s, d) is None && ready(s, d) && (d
            == q || eager_rank(d.kind) < eager_rank(q.kind)),
    decreases depth(q.kind),
{
    if in_range(q) && slot_of(s, q) is None {
        lemma_keys(q);
        let ds = deps(q);
        if ds.len() >= 1 {
            lemma_pending(s, ds[0]);
        }
        if ds.len() >= 2 {
            lemma_pending(s, ds[1]);
        }
        if pending(s, q) == Some(q) {
            assert forall|j: int| 0 <= j < ds.len() implies (#[trigger] slot_of(s, ds[j])) is Some by {
                if j == 0 {
                    lemma_pending(s, ds[0]);
                } else {
                    lemma_pending(s, ds[1]);
                }
            }
        }
    }
}

/// Readiness survives any change that empties no slot.
proof fn lemma_ready_grows<T>(s: Seq<Option<T>>, t: Seq<Option<T>>, q: Quantity)
    requires
        ready(s, q),
        forall|r: Quantity| (#[trigger] slot_of(s, r)) is Some ==> slot_of(t, r) is Some,
    ensures
        ready(t, q),
{
    assert forall|j: int| 0 <= j < deps(q).len() implies (#[trigger] slot_of(t, deps(q)[j])) is Some by {
        assert(slot_of(s, deps(q)[j]) is Some);
    }
}

/// Offering a value never replaces or empties a filled slot, and keeps the
/// dependencies of every cached quantity cached.
pub proof fn lemma_fill_keeps_cached<T>(s: Seq<Option<T>>, q: Quantity, v: T)
    requires
        s.len() == SLOT_COUNT,
        closed(s),
    ensures
        fill_slots(s, q, v).len() == SLOT_COUNT,
        closed(fill_slots(s, q, v)),
        forall|r: Quantity| (#[trigger] slot_of(s, r)) is Some ==> slot_of(fill_slots(s, q, v), r)
            == slot_of(s, r),
{
    let t = fill_slots(s, q, v);
    if in_range(q) {
        lemma_keys(q);
    }
    assert forall|r: Quantity| (#[trigger] slot_of(s, r)) is Some implies slot_of(t, r) == slot_of(
        s,
        r,
    ) by {
        if in_range(q) && in_range(r) && slot_key(r) == slot_key(q) {
            lemma_keys(r);
        }
    }
    assert forall|r: Quantity| (#[trigger] slot_of(t, r)) is Some implies ready(t, r) by {
        if in_range(q) && in_range(r) && slot_key(r) == slot_key(q) && slot_of(s, r) is None {
            lemma_same_key(q, r);
            lemma_ready_grows(s, t, q);
        } else {
            lemma_ready_grows(s, t, r);
        }
    }
}

fn has_slot(q: Quantity) -> (r: bool)
    ensures
        r == in_range(q),
{
    match q.kind {
        Kind::Perimeter | Kind::Area | Kind::Inradius | Kind::Circumradius => true,
        _ => q.index < 3,
    }
}

fn key(q: Quantity) -> (r: usize)
    requires
        in_range(q),
    ensures
        r == slot_key(q),
{
    match q.kind {
        Kind::Perimeter => 0,
        Kind::Area => 1,
        Kind::Inradius => 2,
        Kind::Circumradius => 3,
        Kind::Height => 4 + q.index,
        Kind::Median => 7 + q.index,
        Kind::Sine => 10 + q.index,
        Kind::Cosine => 13 + q.index,
        Kind::Angle => 16 + q.index,
        Kind::Tangent => 19 + q.index,
    }
}

/// The `j`-th dependency of `q`, if it has one.
fn dep(q: Quantity, j: usize) -> (r: Option<Quantity>)
    ensures
        r == (if j < deps(q).len() {
            Some(deps(q)[j as int])
        } else {
            None
        }),
{
    let area = Quantity { kind: Kind::Area, index: 0 };
    let perimeter = Quantity { kind: Kind::Perimeter, index: 0 };
    match (q.kind, j) {
        (Kind::Area, 0) => Some(perimeter),
        (Kind::Inradius, 0) => Some(area),
        (Kind::Inradius, 1) => Some(perimeter),
        (Kind::Circumradius, 0) | (Kind::Height, 0) | (Kind::Sine, 0) => Some(area),
        (Kind::Angle, 0) => Some(Quantity { kind: Kind::Cosine, index: q.index }),
        (Kind::Tangent, 0) => Some(Quantity { kind: Kind::Angle, index: q.index }),
        _ => None,
    }
}

/// A copy of `slots` with `Some(v)` at position `k`.
fn with_value<T: Copy>(slots: &Vec<Option<T>>, k: usize, v: T) -> (r: Vec<Option<T>>)
    requires
        k < slots@.len(),
    ensures
        r@ == slots@.update(k as int, Some(v)),
{
    let mut r: Vec<Option<T>> = Vec::new();
    let mut i: usize = 0;
    while i < slots.len()
        invariant
            i <= slots@.len(),
            r@.len() == i,
            forall|j: int| 0 <= j < i ==> #[trigger] r@[j] == (if j == k {
                Some(v)
            } else {
                slots@[j]
            }),
        decreases slots@.len() - i,
    {
        if i == k {
            r.push(Some(v));
        } else {
            r.push(slots[i]);
        }
        i = i + 1;
    }
    assert(r@ =~= slots@.update(k as int, Some(v)));
    r
}

/// The memo slots of one triangle's derived quantities.
#[derive(Debug)]
pub struct PropertyCache<T> {
    slots: Vec<Option<T>>,
}

impl<T> View for PropertyCache<T> {
    type V = Seq<Option<T>>;

    /// The slots, at the positions given by `slot_key`.
    closed spec fn view(&self) -> Seq<Option<T>> {
        self.slots@
    }
}

impl<T> PropertyCache<T> {
    #[verifier::type_invariant]
    spec fn well_formed(self) -> bool {
        self.slots@.len() == SLOT_COUNT && closed(self.slots@)
    }
}

impl<T: Copy> PropertyCache<T> {
    /// A cache with every slot empty.
    pub fn new() -> (r: Self)
        ensures
            r@.len() == SLOT_COUNT,
            closed(r@),
            forall|q: Quantity| (#[trigger] slot_of(r@, q)) is None,
    {
        let mut slots: Vec<Option<T>> = Vec::new();
        while slots.len() < SLOT_COUNT
            invariant
                slots@.len() <= SLOT_COUNT,
                forall|i: int| 0 <= i < slots@.len() ==> (#[trigger] slots@[i]) is None,
            decreases SLOT_COUNT - slots@.len(),
        {
            slots.push(None);
        }
        proof {
            assert forall|q: Quantity| (#[trigger] slot_of(slots@, q)) is None by {
                if in_range(q) {
                    lemma_keys(q);
                }
            }
        }
        PropertyCache { slots }
    }

    /// The cached value of `q`; `None` when it is not cached or `q` is a
    /// per-side quantity with an index past 2.
    pub fn get(&self, q: Quantity) -> (r: Option<T>)
        ensures
            r == slot_of(self@, q),
            r is Some ==> ready(self@, q),
    {
        proof {
            use_type_invariant(self);
        }
        if has_slot(q) {
            proof {
                lemma_keys(q);
            }
            self.slots[key(q)]
        } else {
            None
        }
    }

    fn is_cached(&self, q: Quantity) -> (r: bool)
        requires
            in_range(q),
        ensures
            r == (slot_of(self@, q) is Some),
    {
        proof {
            use_type_invariant(self);
            lemma_keys(q);
        }
        self.slots[key(q)].is_some()
    }

    /// Whether `q` has a slot and every quantity that it reads is cached.
    pub fn is_ready(&self, q: Quantity) -> (r: bool)
        ensures
            r == (in_range(q) && ready(self@, q)),
    {
        if !has_slot(q) {
            return false;
        }
        proof {
            lemma_keys(q);
        }
        let first = dep(q, 0);
        let second = dep(q, 1);
        let r = match (first, second) {
            (Some(a), Some(b)) => self.is_cached(a) && self.is_cached(b),
            (Some(a), None) => self.is_cached(a),
            _ => true,
        };
        proof {
            if deps(q).len() >= 1 {
                assert(slot_of(self@, deps(q)[0]) == slot_of(self@, deps(q)[0]));
            }
            if deps(q).len() >= 2 {
                assert(slot_of(self@, deps(q)[1]) == slot_of(self@, deps(q)[1]));
            }
        }
        r
    }

    /// Offers the computed value `v` for `q` and answers the value that `q`
    /// now has. A value already cached stays and is answered; `v` is stored
    /// only in an empty slot whose quantity has its dependencies cached;
    /// `None` is answered when `q` has no slot or is not ready.
    pub fn fill(&mut self, q: Quantity, v: T) -> (r: Option<T>)
        ensures
            final(self)@ == fill_slots(old(self)@, q, v),
            r == fill_answer(old(self)@, q, v),
            final(self)@.len() == SLOT_COUNT,
            closed(final(self)@),
    {
        proof {
            use_type_invariant(&*self);
            lemma_fill_keeps_cached(self@, q, v);
        }
        if !self.is_ready(q) {
            return None;
        }
        proof {
            lemma_keys(q);
        }
        let k = key(q);
        match self.slots[k] {
            Some(x) => Some(x),
            None => {
                self.slots = with_value(&self.slots, k, v);
                Some(v)
            },
        }
    }

    /// The next quantity to compute on the way to `q`, dependencies first:
    /// `None` once `q` is cached (or when it has no slot).
    pub fn next_to_fill(&self, q: Quantity) -> (r: Option<Quantity>)
        ensures
            r == pending(self@, q),
            r is None && in_range(q) ==> slot_of(self@, q) is Some,
            r matches Some(d) ==> in_range(d) && slot_of(self@, d) is None && ready(self@, d),
        decreases depth(q.kind),
    {
        proof {
            use_type_invariant(self);
            lemma_pending(self@, q);
        }
        if !has_slot(q) || self.is_cached(q) {
            return None;
        }
        proof {
            lemma_keys(q);
        }
        if let Some(a) = dep(q, 0) {
            if let Some(d) = self.next_to_fill(a) {
                return Some(d);
            }
        }
        if let Some(b) = dep(q, 1) {
            if let Some(d) = self.next_to_fill(b) {
                return Some(d);
            }
        }
        Some(q)
    }

    /// An uncached quantity whose dependencies are cached, found by going
    /// through the kinds in the order of `eager_rank`; `None` once every
    /// quantity is cached.
    pub fn next_unfilled(&self) -> (r: Option<Quantity>)
        ensures
            r is None <==> full(self@),
            r matches Some(d) ==> in_range(d) && slot_of(self@, d) is None && ready(self@, d),
            r matches Some(d) ==> (!is_per_side(d.kind) ==> d.index == 0) && forall|q: Quantity|
                in_range(q) && #[trigger] eager_before(q, d) ==> slot_of(self@, q) is Some,
    {
        let mut i: usize = 0;
        while i < 10
            invariant
                0 <= i <= 10,
                forall|q: Quantity|
                    in_range(q) && eager_rank(q.kind) < i ==> (#[trigger] slot_of(self@, q)) is Some,
            decreases 10 - i,
        {
            let kind = eager_kind(i);
            let mut n: usize = 0;
            while n < 3
                invariant
                    0 <= n <= 3,
                    i < 10,
                    eager_rank(kind) == i,
                    forall|q: Quantity|
                        in_range(q) && eager_rank(q.kind) < i ==> (#[trigger] slot_of(
                            self@,
                            q,
                        )) is Some,
                    forall|q: Quantity|
                        q.kind == kind && in_range(q) && (q.index < n || (n > 0 && !is_per_side(
                            kind,
                        ))) ==> (#[trigger] slot_of(self@, q)) is Some,
                decreases 3 - n,
            {
                let q = Quantity { kind, index: n };
                if let Some(d) = self.next_to_fill(q) {
                    proof {
                        use_type_invariant(self);
                        lemma_pending(self@, q);
                        assert(slot_of(self@, d) is None);
                        assert(d == q);
                    }
                    return Some(d);
                }
                n = n + 1;
            }
            i = i + 1;
        }
        None
    }
}

/// Position of a kind in the order in which `next_unfilled` goes through
/// them: perimeter, area, heights, medians, inradius, circumradius, sines,
/// cosines, angles, tangents.
pub open spec fn eager_rank(k: Kind) -> int {
    match k {
        Kind::Perimeter => 0,
        Kind::Area => 1,
        Kind::Height => 2,
        Kind::Median => 3,
        Kind::Inradius => 4,
        Kind::Circumradius => 5,
        Kind::Sine => 6,
        Kind::Cosine => 7,
        Kind::Angle => 8,
        Kind::Tangent => 9,
    }
}

/// `q` comes before `d` in the order of `next_unfilled`: by kind, then by
/// index.
pub open spec fn eager_before(q: Quantity, d: Quantity) -> bool {
    eager_rank(q.kind) < eager_rank(d.kind) || (q.kind == d.kind && is_per_side(q.kind) && q.index
        < d.index)
}

fn eager_kind(i: usize) -> (r: Kind)
    requires
        i < 10,
    ensures
        eager_rank(r) == i,
{
    match i {
        0 => Kind::Perimeter,
        1 => Kind::Area,
        2 => Kind::Height,
        3 => Kind::Median,
        4 => Kind::Inradius,
        5 => Kind::Circumradius,
        6 => Kind::Sine,
        7 => Kind::Cosine,
        8 => Kind::Angle,
        _ => Kind::Tangent,
    }
}

/// Offering a value for a quantity a second time changes nothing and answers
/// what the first offer answered, whatever the second value is: a memoised
/// quantity is computed once.
pub proof fn lemma_fill_idempotent<T>(s: Seq<Option<T>>, q: Quantity, v: T, w: T)
    requires
        s.len() == SLOT_COUNT,
    ensures
        fill_slots(fill_slots(s, q, v), q, w) == fill_slots(s, q, v),
        fill_answer(fill_slots(s, q, v), q, w) == fill_answer(s, q, v),
        fill_answer(s, q, v) is Some ==> pending(fill_slots(s, q, v), q) is None,
{
    let t = fill_slots(s, q, v);
    if in_range(q) {
        lemma_keys(q);
        if ready(s, q) {
            lemma_ready_grows(s, t, q);
        }
    }
}

/// Offering for each quantity the value that `f` gives for it keeps every
/// cached value equal to `f`'s: a value once stored is never replaced.
pub proof fn lemma_fill_agrees<T>(s: Seq<Option<T>>, q: Quantity, f: spec_fn(Quantity) -> T)
    requires
        s.len() == SLOT_COUNT,
        per_slot(f),
        agrees_with(s, f),
    ensures
        agrees_with(fill_slots(s, q, f(q)), f),
{
    let t = fill_slots(s, q, f(q));
    if in_range(q) {
        lemma_keys(q);
    }
    assert forall|r: Quantity| #[trigger] slot_of(t, r) is Some implies slot_of(t, r) == Some(
        f(r),
    ) by {
        if in_range(q) && in_range(r) && slot_key(r) == slot_key(q) && slot_of(s, r) is None {
            lemma_keys(r);
            assert(f(q) == f(r));
        }
    }
}

/// Two caches that are both full, and were each filled with the values that
/// one formula `f` gives, are equal: the order in which the quantities were
/// forced does not matter.
pub proof fn lemma_full_caches_equal<T>(s: Seq<Option<T>>, t: Seq<Option<T>>, f: spec_fn(Quantity) -> T)
    requires
        s.len() == SLOT_COUNT,
        t.len() == SLOT_COUNT,
        full(s),
        full(t),
        agrees_with(s, f),
        agrees_with(t, f),
    ensures
        s == t,
{
    assert forall|k: int| 0 <= k < SLOT_COUNT implies s[k] == t[k] by {
        let q = if k < 4 {
            Quantity {
                kind: if k == 0 {
                    Kind::Perimeter
                } else if k == 1 {
                    Kind::Area
                } else if k == 2 {
                    Kind::Inradius
                } else {
                    Kind::Circumradius
                },
                index: 0,
            }
        } else {
            let m = (k - 4) / 3;
            Quantity {
                kind: if m == 0 {
                    Kind::Height
                } else if m == 1 {
                    Kind::Median
                } else if m == 2 {
                    Kind::Sine
                } else if m == 3 {
                    Kind::Cosine
                } else if m == 4 {
                    Kind::Angle
                } else {
                    Kind::Tangent
                },
                index: ((k - 4) % 3) as usize,
            }
        };
        assert(in_range(q) && slot_key(q) == k);
        assert(slot_of(s, q) is Some);
        assert(slot_of(t, q) is Some);
    }
    assert(s =~= t);
}

} // verus!
