//! The ordered collection of layers that the compositor paints bottom to top.
use vstd::prelude::*;
use crate::source::StreamSource;

verus! {

/// Identifier of a layer, unique within its scene.
pub type LayerId = u64;

/// One layer of the scene: a source placed on the canvas.
pub struct Layer<S> {
    pub id: LayerId,
    pub z_index: i32,
    pub x: i32,
    pub y: i32,
    pub visible: bool,
    pub source: S,
}

/// Layers are in ascending z-index order.
pub open spec fn sorted_by_z<S>(s: Seq<Layer<S>>) -> bool {
    forall|i: int, j: int| 0 <= i <= j < s.len() ==> #[trigger] s[i].z_index <= #[trigger] s[j].z_index
}

/// No two layers share an identifier.
pub open spec fn ids_distinct<S>(s: Seq<Layer<S>>) -> bool {
    forall|i: int, j: int| 0 <= i < s.len() && 0 <= j < s.len() && i != j ==> #[trigger] s[i].id != #[trigger] s[j].id
}

/// Every identifier is below `bound`.
pub open spec fn ids_below<S>(s: Seq<Layer<S>>, bound: u64) -> bool {
    forall|i: int| 0 <= i < s.len() ==> #[trigger] s[i].id < bound
}

/// Some layer carries identifier `id`.
pub open spec fn has_id<S>(s: Seq<Layer<S>>, id: LayerId) -> bool {
    exists|i: int| 0 <= i < s.len() && #[trigger] s[i].id == id
}

/// Two layers sit alike in the stack: same identifier, z-index, position and visibility.
pub open spec fn same_placement<S>(a: Layer<S>, b: Layer<S>) -> bool {
    &&& a.id == b.id
    &&& a.z_index == b.z_index
    &&& a.x == b.x
    &&& a.y == b.y
    &&& a.visible == b.visible
}

/// The position of the layer with identifier `id` (meaningful when [`has_id`] holds).
pub open spec fn position_of<S>(s: Seq<Layer<S>>, id: LayerId) -> int {
    choose|i: int| 0 <= i < s.len() && #[trigger] s[i].id == id
}

/// In a stable sort by z-index, the layer at position `j` of `s` goes before a layer with
/// z-index `z` that stood at position `i`.
pub open spec fn sorts_before<S>(s: Seq<Layer<S>>, j: int, z: int, i: int) -> bool {
    s[j].z_index < z || (s[j].z_index == z && j < i)
}

/// How many of the first `n` layers of `s` go before a layer with z-index `z` that stood at
/// position `i`, in a stable sort by z-index.
pub open spec fn count_before<S>(s: Seq<Layer<S>>, z: int, i: int, n: int) -> int
    decreases n,
{
    if n <= 0 {
        0
    } else {
        count_before(s, z, i, n - 1) + if sorts_before(s, n - 1, z, i) { 1int } else { 0int }
    }
}

/// The position that a layer with z-index `z`, standing at position `i` among the layers
/// `s`, takes when the layers are stably sorted by z-index.
pub open spec fn stable_slot<S>(s: Seq<Layer<S>>, z: int, i: int) -> int {
    count_before(s, z, i, s.len() as int)
}

/// The layers after a layer with identifier `id` moved to z-index `z` and the scene was
/// stably re-sorted.
pub open spec fn reordered<S>(s: Seq<Layer<S>>, id: LayerId, z: i32) -> Seq<Layer<S>> {
    let i = position_of(s, id);
    let rest = s.remove(i);
    rest.insert(stable_slot(rest, z as int, i), Layer { z_index: z, ..s[i] })
}

/// The layers after the layer with identifier `id` moved to (`x`, `y`).
pub open spec fn moved<S>(s: Seq<Layer<S>>, id: LayerId, x: i32, y: i32) -> Seq<Layer<S>> {
    let i = position_of(s, id);
    s.update(i, Layer { x: x, y: y, ..s[i] })
}

/// The layers after the layer with identifier `id` was shown or hidden.
pub open spec fn shown<S>(s: Seq<Layer<S>>, id: LayerId, visible: bool) -> Seq<Layer<S>> {
    let i = position_of(s, id);
    s.update(i, Layer { visible: visible, ..s[i] })
}

/// Ordered collection of layers, kept sorted by ascending z-index so that the compositor
/// can paint bottom to top. Layers with equal z-index keep the order in which they arrived.
pub struct Scene<S> {
    layers: Vec<Layer<S>>,
    next_id: u64,
}

impl<S> View for Scene<S> {
    type V = Seq<Layer<S>>;

    closed spec fn view(&self) -> Seq<Layer<S>> {
        self.layers@
    }
}

impl<S> Scene<S> {
    /// The identifier the next added layer receives.
    pub closed spec fn next_id(&self) -> u64 {
        self.next_id
    }

    /// Sorted by z-index, identifiers distinct and all below the next identifier.
    pub open spec fn wf(&self) -> bool {
        &&& sorted_by_z(self@)
        &&& ids_distinct(self@)
        &&& ids_below(self@, self.next_id())
        &&& self.next_id() >= 1
    }

    /// The identifier the next added layer receives.
    pub fn peek_next_id(&self) -> (n: u64)
        ensures
            n == self.next_id(),
    {
        self.next_id
    }

    /// An empty scene whose first layer gets identifier 1.
    pub fn new() -> (s: Self)
        ensures
            s.wf(),
            s@ == Seq::<Layer<S>>::empty(),
            s.next_id() == 1,
    {
        Scene { layers: Vec::new(), next_id: 1 }
    }

    /// Finds the position of the layer with identifier `id`.
    fn find(&self, id: LayerId) -> (r: Option<usize>)
        requires
            self.wf(),
        ensures
            r is Some <==> has_id(self@, id),
            r matches Some(i) ==> i == position_of(self@, id) && 0 <= i < self@.len()
                && self@[i as int].id == id,
    {
        let mut i: usize = 0;
        while i < self.layers.len()
            invariant
                i <= self.layers@.len(),
                ids_distinct(self@),
                forall|j: int| 0 <= j < i ==> #[trigger] self.layers@[j].id != id,
            decreases self.layers@.len() - i,
        {
            if self.layers[i].id == id {
                proof {
                    lemma_position_unique(self@, id, i as int);
                }
                return Some(i);
            }
            i = i + 1;
        }
        None
    }

    /// Adds a visible layer and returns its identifier. The layer is placed after every
    /// layer whose z-index is at most `z_index`, as a stable sort after appending would.
    pub fn add(&mut self, source: S, z_index: i32, x: i32, y: i32) -> (id: LayerId)
        requires
            old(self).wf(),
            old(self).next_id() < u64::MAX,
        ensures
            final(self).wf(),
            id == old(self).next_id(),
            final(self).next_id() == old(self).next_id() + 1,
            !has_id(old(self)@, id),
            final(self)@ == old(self)@.insert(
                stable_slot(old(self)@, z_index as int, old(self)@.len() as int),
                Layer { id: id, z_index: z_index, x: x, y: y, visible: true, source: source },
            ),
    {
        let id = self.next_id;
        self.next_id = self.next_id + 1;
        let ghost s = self.layers@;
        let slot = slot_for(&self.layers, z_index, self.layers.len());
        let layer = Layer { id, z_index, x, y, visible: true, source };
        proof {
            lemma_slot_splits(s, z_index as int, s.len() as int);
            lemma_slot_bounds_z(s, z_index as int, s.len() as int);
        }
        self.layers.insert(slot, layer);
        proof {
            lemma_insert_keeps_sorted(s, slot as int, layer);
            assert forall|i: int| 0 <= i < s.len() implies #[trigger] s[i].id != id by {}
            lemma_insert_fresh_id(s, slot as int, layer, self.next_id);
        }
        id
    }

    /// Removes the layer with identifier `id` and returns it, or `None` when there is none.
    pub fn remove(&mut self, id: LayerId) -> (r: Option<Layer<S>>)
        requires
            old(self).wf(),
        ensures
            final(self).wf(),
            final(self).next_id() == old(self).next_id(),
            r is Some <==> has_id(old(self)@, id),
            r matches Some(l) ==> l == old(self)@[position_of(old(self)@, id)]
                && final(self)@ == old(self)@.remove(position_of(old(self)@, id)),
            r is None ==> final(self)@ == old(self)@,
    {
        match self.find(id) {
            Some(i) => {
                let ghost s = self.layers@;
                let l = self.layers.remove(i);
                proof {
                    lemma_remove_keeps_wf(s, i as int, self.next_id);
                }
                Some(l)
            },
            None => None,
        }
    }

    /// Changes the z-index of the layer with identifier `id` and re-sorts stably.
    /// Returns whether such a layer exists; the scene is unchanged when it does not.
    pub fn reorder(&mut self, id: LayerId, new_z: i32) -> (found: bool)
        requires
            old(self).wf(),
        ensures
            final(self).wf(),
            final(self).next_id() == old(self).next_id(),
            found == has_id(old(self)@, id),
            found ==> final(self)@ == reordered(old(self)@, id, new_z),
            !found ==> final(self)@ == old(self)@,
    {
        match self.find(id) {
            Some(i) => {
                let ghost s = self.layers@;
                let mut layer = self.layers.remove(i);
                let ghost rest = self.layers@;
                proof {
                    lemma_remove_keeps_wf(s, i as int, self.next_id);
                }
                layer.z_index = new_z;
                let slot = slot_for(&self.layers, new_z, i);
                proof {
                    lemma_slot_splits(rest, new_z as int, i as int);
                    lemma_slot_bounds_z(rest, new_z as int, i as int);
                }
                self.layers.insert(slot, layer);
                proof {
                    lemma_insert_keeps_sorted(rest, slot as int, layer);
                    assert(s[i as int].id == id);
                    assert forall|j: int| 0 <= j < rest.len() implies #[trigger] rest[j].id != id by {
                        if j < i {
                            assert(rest[j] == s[j]);
                        } else {
                            assert(rest[j] == s[j + 1]);
                        }
                    }
                    lemma_insert_fresh_id(rest, slot as int, layer, self.next_id);
                }
                true
            },
            None => false,
        }
    }

    /// Moves the layer with identifier `id` to canvas position (`x`, `y`).
    /// Returns whether such a layer exists; the scene is unchanged when it does not.
    pub fn set_position(&mut self, id: LayerId, x: i32, y: i32) -> (found: bool)
        requires
            old(self).wf(),
        ensures
            final(self).wf(),
            final(self).next_id() == old(self).next_id(),
            found == has_id(old(self)@, id),
            found ==> final(self)@ == moved(old(self)@, id, x, y),
            !found ==> final(self)@ == old(self)@,
    {
        match self.find(id) {
            Some(i) => {
                let ghost s = self.layers@;
                let mut layer = self.layers.remove(i);
                layer.x = x;
                layer.y = y;
                self.layers.insert(i, layer);
                proof {
                    assert(self.layers@ =~= s.update(i as int, layer));
                    lemma_update_keeps_wf(s, i as int, layer, self.next_id);
                }
                true
            },
            None => false,
        }
    }

    /// Shows or hides the layer with identifier `id`.
    /// Returns whether such a layer exists; the scene is unchanged when it does not.
    pub fn set_visible(&mut self, id: LayerId, visible: bool) -> (found: bool)
        requires
            old(self).wf(),
        ensures
            final(self).wf(),
            final(self).next_id() == old(self).next_id(),
            found == has_id(old(self)@, id),
            found ==> final(self)@ == shown(old(self)@, id, visible),
            !found ==> final(self)@ == old(self)@,
    {
        match self.find(id) {
            Some(i) => {
                let ghost s = self.layers@;
                let mut layer = self.layers.remove(i);
                layer.visible = visible;
                self.layers.insert(i, layer);
                proof {
                    assert(self.layers@ =~= s.update(i as int, layer));
                    lemma_update_keeps_wf(s, i as int, layer, self.next_id);
                }
                true
            },
            None => false,
        }
    }

    /// The layers in ascending z-order (bottom to top).
    pub fn iter(&self) -> (r: &[Layer<S>])
        ensures
            r@ == self@,
    {
        self.layers.as_slice()
    }

    /// Mutable access to the layer with identifier `id`. A change made through it is not
    /// re-sorted: the scene keeps its invariant only when the identifier and z-index are
    /// left as they were.
    pub fn get_mut(&mut self, id: LayerId) -> (r: Option<&mut Layer<S>>)
        requires
            old(self).wf(),
        ensures
            final(self).next_id() == old(self).next_id(),
            r is Some <==> has_id(old(self)@, id),
            r matches Some(l) ==> *l == old(self)@[position_of(old(self)@, id)]
                && final(self)@ == old(self)@.update(position_of(old(self)@, id), *final(l)),
            r matches Some(l) ==> (final(l).id == l.id && final(l).z_index == l.z_index
                ==> final(self).wf()),
            r is None ==> final(self)@ == old(self)@,
    {
        match self.find(id) {
            Some(i) => {
                let ghost s = self.layers@;
                let ghost bound = self.next_id;
                let l = &mut self.layers[i];
                proof {
                    assert forall|m: Layer<S>| m.id == s[i as int].id && m.z_index == s[i as int].z_index
                        implies #[trigger] sorted_by_z(s.update(i as int, m)) && ids_distinct(s.update(i as int, m))
                        && ids_below(s.update(i as int, m), bound) by {
                        lemma_update_keeps_wf(s, i as int, m, bound);
                    }
                }
                Some(l)
            },
            None => None,
        }
    }

    /// Number of layers.
    pub fn len(&self) -> (n: usize)
        ensures
            n == self@.len(),
    {
        self.layers.len()
    }

    /// Whether the scene has no layers.
    pub fn is_empty(&self) -> (b: bool)
        ensures
            b == (self@.len() == 0),
    {
        self.layers.len() == 0
    }

    /// Removes every layer, stopping each layer's source in z-order (an error from a source
    /// is ignored), and returns the layers in z-order. Identifiers are not reused.
    pub fn clear(&mut self) -> (r: Vec<Layer<S>>)
        where
            S: StreamSource,
        requires
            old(self).wf(),
        ensures
            final(self).wf(),
            final(self)@ == Seq::<Layer<S>>::empty(),
            final(self).next_id() == old(self).next_id(),
            r@.len() == old(self)@.len(),
            forall|i: int| 0 <= i < r@.len() ==> #[trigger] same_placement(r@[i], old(self)@[i]),
            forall|i: int| 0 <= i < r@.len() ==> (#[trigger] r@[i]).source.stopped(),
    {
        let mut taken: Vec<Layer<S>> = Vec::new();
        std::mem::swap(&mut taken, &mut self.layers);
        let ghost before = taken@;
        let mut out: Vec<Layer<S>> = Vec::new();
        while taken.len() > 0
            invariant
                out@.len() + taken@.len() == before.len(),
                taken@ == before.skip(out@.len() as int),
                forall|j: int| 0 <= j < out@.len() ==> #[trigger] same_placement(out@[j], before[j]),
                forall|j: int| 0 <= j < out@.len() ==> (#[trigger] out@[j]).source.stopped(),
            decreases taken@.len(),
        {
            let ghost n = out@.len() as int;
            let mut layer = taken.remove(0);
            assert(layer == before[n]);
            let _ = layer.source.stop();
            out.push(layer);
            assert(taken@ =~= before.skip(n + 1));
        }
        out
    }
}

/// Counts the layers of `layers` that go before a layer with z-index `z` standing at
/// position `i`, in a stable sort by z-index.
fn slot_for<S>(layers: &Vec<Layer<S>>, z: i32, i: usize) -> (slot: usize)
    ensures
        slot == stable_slot(layers@, z as int, i as int),
{
    let mut n: usize = 0;
    let mut count: usize = 0;
    while n < layers.len()
        invariant
            n <= layers@.len(),
            count == count_before(layers@, z as int, i as int, n as int),
            count <= n,
        decreases layers@.len() - n,
    {
        let l = &layers[n];
        if l.z_index < z || (l.z_index == z && n < i) {
            count = count + 1;
        }
        n = n + 1;
    }
    count
}

/// With distinct identifiers, the position holding `id` is the one [`position_of`] picks.
proof fn lemma_position_unique<S>(s: Seq<Layer<S>>, id: LayerId, i: int)
    requires
        ids_distinct(s),
        0 <= i < s.len(),
        s[i].id == id,
    ensures
        position_of(s, id) == i,
        has_id(s, id),
{
    let j = position_of(s, id);
    assert(0 <= j < s.len() && s[j].id == id);
}

/// In sorted layers, the layers that go before a given one form a prefix, whose length is
/// the stable slot.
pub proof fn lemma_slot_splits<S>(s: Seq<Layer<S>>, z: int, i: int)
    requires
        sorted_by_z(s),
    ensures
        0 <= stable_slot(s, z, i) <= s.len(),
        forall|j: int| 0 <= j < stable_slot(s, z, i) ==> #[trigger] sorts_before(s, j, z, i),
        forall|j: int| stable_slot(s, z, i) <= j < s.len() ==> !#[trigger] sorts_before(s, j, z, i),
{
    lemma_count_prefix(s, z, i, s.len() as int);
    let p = stable_slot(s, z, i);
    assert forall|j: int| p <= j < s.len() implies !#[trigger] sorts_before(s, j, z, i) by {
        if sorts_before(s, j, z, i) && p < s.len() {
            assert(s[p].z_index <= s[j].z_index);
            assert(sorts_before(s, p, z, i));
        }
    }
}

/// Layers before the stable slot have z-index at most `z`, the others at least `z`.
proof fn lemma_slot_bounds_z<S>(s: Seq<Layer<S>>, z: int, i: int)
    requires
        sorted_by_z(s),
    ensures
        forall|j: int| 0 <= j < stable_slot(s, z, i) ==> #[trigger] s[j].z_index <= z,
        forall|j: int| stable_slot(s, z, i) <= j < s.len() ==> #[trigger] s[j].z_index >= z,
{
    lemma_slot_splits(s, z, i);
    assert forall|j: int| 0 <= j < stable_slot(s, z, i) implies #[trigger] s[j].z_index <= z by {
        assert(sorts_before(s, j, z, i));
    }
    assert forall|j: int| stable_slot(s, z, i) <= j < s.len() implies #[trigger] s[j].z_index >= z by {
        assert(!sorts_before(s, j, z, i));
    }
}

proof fn lemma_count_prefix<S>(s: Seq<Layer<S>>, z: int, i: int, n: int)
    requires
        sorted_by_z(s),
        0 <= n <= s.len(),
    ensures
        0 <= count_before(s, z, i, n) <= n,
        forall|j: int| 0 <= j < count_before(s, z, i, n) ==> #[trigger] sorts_before(s, j, z, i),
        count_before(s, z, i, n) < n ==> !sorts_before(s, count_before(s, z, i, n), z, i),
    decreases n,
{
    if n > 0 {
        lemma_count_prefix(s, z, i, n - 1);
        let c = count_before(s, z, i, n - 1);
        if sorts_before(s, n - 1, z, i) {
            if c < n - 1 {
                assert(s[c].z_index <= s[n - 1].z_index);
                assert(sorts_before(s, c, z, i));
            }
        }
    }
}

/// Inserting a layer at its stable slot keeps the layers sorted.
proof fn lemma_insert_keeps_sorted<S>(s: Seq<Layer<S>>, p: int, l: Layer<S>)
    requires
        sorted_by_z(s),
        0 <= p <= s.len(),
        forall|j: int| 0 <= j < p ==> #[trigger] s[j].z_index <= l.z_index,
        forall|j: int| p <= j < s.len() ==> #[trigger] s[j].z_index >= l.z_index,
    ensures
        sorted_by_z(s.insert(p, l)),
{
    let t = s.insert(p, l);
    assert forall|a: int, b: int| 0 <= a <= b < t.len() implies #[trigger] t[a].z_index <= #[trigger] t[b].z_index by {
        if a < p {
            assert(t[a] == s[a]);
        }
        if a > p {
            assert(t[a] == s[a - 1]);
        }
        if b < p {
            assert(t[b] == s[b]);
        }
        if b > p {
            assert(t[b] == s[b - 1]);
        }
    }
}

/// Inserting a layer whose identifier is new and below the bound keeps identifiers
/// distinct and below the bound.
proof fn lemma_insert_fresh_id<S>(s: Seq<Layer<S>>, p: int, l: Layer<S>, bound: u64)
    requires
        ids_distinct(s),
        ids_below(s, bound),
        l.id < bound,
        0 <= p <= s.len(),
        forall|j: int| 0 <= j < s.len() ==> #[trigger] s[j].id != l.id,
    ensures
        ids_distinct(s.insert(p, l)),
        ids_below(s.insert(p, l), bound),
{
    let t = s.insert(p, l);
    assert forall|a: int| 0 <= a < t.len() implies #[trigger] t[a].id < bound by {
        if a < p {
            assert(t[a] == s[a]);
        } else if a > p {
            assert(t[a] == s[a - 1]);
        }
    }
    assert forall|a: int, b: int| 0 <= a < t.len() && 0 <= b < t.len() && a != b implies #[trigger] t[a].id
        != #[trigger] t[b].id by {
        if a < p {
            assert(t[a] == s[a]);
        } else if a > p {
            assert(t[a] == s[a - 1]);
        }
        if b < p {
            assert(t[b] == s[b]);
        } else if b > p {
            assert(t[b] == s[b - 1]);
        }
    }
}

/// Removing a layer keeps the layers sorted, identifiers distinct and below the bound.
proof fn lemma_remove_keeps_wf<S>(s: Seq<Layer<S>>, i: int, bound: u64)
    requires
        sorted_by_z(s),
        ids_distinct(s),
        ids_below(s, bound),
        0 <= i < s.len(),
    ensures
        sorted_by_z(s.remove(i)),
        ids_distinct(s.remove(i)),
        ids_below(s.remove(i), bound),
{
    let t = s.remove(i);
    assert forall|a: int| 0 <= a < t.len() implies t[a] == (if a < i { s[a] } else { s[a + 1] }) by {}
    assert forall|a: int, b: int| 0 <= a <= b < t.len() implies #[trigger] t[a].z_index <= #[trigger] t[b].z_index by {
        assert(t[a] == (if a < i { s[a] } else { s[a + 1] }));
        assert(t[b] == (if b < i { s[b] } else { s[b + 1] }));
    }
    assert forall|a: int, b: int| 0 <= a < t.len() && 0 <= b < t.len() && a != b implies #[trigger] t[a].id
        != #[trigger] t[b].id by {
        assert(t[a] == (if a < i { s[a] } else { s[a + 1] }));
        assert(t[b] == (if b < i { s[b] } else { s[b + 1] }));
    }
    assert forall|a: int| 0 <= a < t.len() implies #[trigger] t[a].id < bound by {
        assert(t[a] == (if a < i { s[a] } else { s[a + 1] }));
    }
}

/// Replacing a layer by one with the same identifier and z-index keeps the invariant.
proof fn lemma_update_keeps_wf<S>(s: Seq<Layer<S>>, i: int, l: Layer<S>, bound: u64)
    requires
        sorted_by_z(s),
        ids_distinct(s),
        ids_below(s, bound),
        0 <= i < s.len(),
        l.id == s[i].id,
        l.z_index == s[i].z_index,
    ensures
        sorted_by_z(s.update(i, l)),
        ids_distinct(s.update(i, l)),
        ids_below(s.update(i, l), bound),
{
    let t = s.update(i, l);
    assert forall|a: int, b: int| 0 <= a <= b < t.len() implies #[trigger] t[a].z_index <= #[trigger] t[b].z_index by {
        assert(t[a].z_index == s[a].z_index);
        assert(t[b].z_index == s[b].z_index);
    }
    assert forall|a: int, b: int| 0 <= a < t.len() && 0 <= b < t.len() && a != b implies #[trigger] t[a].id
        != #[trigger] t[b].id by {
        assert(t[a].id == s[a].id);
        assert(t[b].id == s[b].id);
    }
    assert forall|a: int| 0 <= a < t.len() implies #[trigger] t[a].id < bound by {
        assert(t[a].id == s[a].id);
    }
}

/// Removing a layer right after adding it gives back that layer and the layers as they
/// were before the addition.
pub proof fn lemma_remove_undoes_add<S>(s: Seq<Layer<S>>, l: Layer<S>)
    requires
        sorted_by_z(s),
        ids_distinct(s),
        !has_id(s, l.id),
    ensures
        ({
            let t = s.insert(stable_slot(s, l.z_index as int, s.len() as int), l);
            &&& has_id(t, l.id)
            &&& t[position_of(t, l.id)] == l
            &&& t.remove(position_of(t, l.id)) == s
        }),
{
    let p = stable_slot(s, l.z_index as int, s.len() as int);
    lemma_slot_splits(s, l.z_index as int, s.len() as int);
    let t = s.insert(p, l);
    assert forall|j: int| 0 <= j < s.len() implies #[trigger] s[j].id != l.id by {
        if s[j].id == l.id {
            assert(has_id(s, l.id));
        }
    }
    assert forall|a: int, b: int| 0 <= a < t.len() && 0 <= b < t.len() && a != b implies #[trigger] t[a].id
        != #[trigger] t[b].id by {
        if a < p {
            assert(t[a] == s[a]);
        } else if a > p {
            assert(t[a] == s[a - 1]);
        }
        if b < p {
            assert(t[b] == s[b]);
        } else if b > p {
            assert(t[b] == s[b - 1]);
        }
    }
    assert(t[p] == l);
    lemma_position_unique(t, l.id, p);
    assert(t.remove(p) =~= s);
}

/// Moving a layer to the z-index it already has leaves the layers as they are.
pub proof fn lemma_reorder_same_z_is_identity<S>(s: Seq<Layer<S>>, id: LayerId)
    requires
        sorted_by_z(s),
        ids_distinct(s),
        has_id(s, id),
    ensures
        reordered(s, id, s[position_of(s, id)].z_index) == s,
{
    let i = position_of(s, id);
    let z = s[i].z_index;
    let rest = s.remove(i);
    assert forall|a: int| 0 <= a < rest.len() implies rest[a] == (if a < i { s[a] } else { s[a + 1] }) by {}
    assert forall|a: int, b: int| 0 <= a <= b < rest.len() implies #[trigger] rest[a].z_index
        <= #[trigger] rest[b].z_index by {
        assert(rest[a] == (if a < i { s[a] } else { s[a + 1] }));
        assert(rest[b] == (if b < i { s[b] } else { s[b + 1] }));
    }
    lemma_slot_splits(rest, z as int, i);
    let p = stable_slot(rest, z as int, i);
    if p < i {
        assert(rest[p] == s[p]);
        assert(s[p].z_index <= s[i].z_index);
        assert(sorts_before(rest, p, z as int, i));
    }
    if p > i {
        assert(sorts_before(rest, i, z as int, i));
        assert(rest[i] == s[i + 1]);
        assert(s[i].z_index <= s[i + 1].z_index);
    }
    assert(p == i);
    assert(Layer { z_index: z, ..s[i] } == s[i]);
    assert(rest.insert(i, s[i]) =~= s);
}

/// Changing a layer's z-index, position or visibility keeps the same layers: every
/// identifier present before is present after, and no other appears.
pub proof fn lemma_edits_keep_ids<S>(s: Seq<Layer<S>>, id: LayerId, other: LayerId, z: i32, x: i32, y: i32, v: bool)
    requires
        sorted_by_z(s),
        has_id(s, id),
    ensures
        has_id(reordered(s, id, z), other) == has_id(s, other),
        has_id(moved(s, id, x, y), other) == has_id(s, other),
        has_id(shown(s, id, v), other) == has_id(s, other),
{
    let i = position_of(s, id);
    let rest = s.remove(i);
    lemma_slot_splits(rest, z as int, i);
    let p = stable_slot(rest, z as int, i);
    let t = reordered(s, id, z);
    assert forall|a: int| 0 <= a < rest.len() implies rest[a] == (if a < i { s[a] } else { s[a + 1] }) by {}
    if has_id(s, other) {
        let j = choose|j: int| 0 <= j < s.len() && #[trigger] s[j].id == other;
        if j == i {
            assert(t[p].id == other);
        } else {
            let r = if j < i { j } else { j - 1 };
            assert(rest[r].id == other);
            let q = if r < p { r } else { r + 1 };
            assert(t[q] == rest[r]);
        }
        assert(moved(s, id, x, y)[j].id == other);
        assert(shown(s, id, v)[j].id == other);
    }
    if has_id(t, other) {
        let j = choose|j: int| 0 <= j < t.len() && #[trigger] t[j].id == other;
        if j == p {
            assert(s[i].id == other);
        } else {
            let r = if j < p { j } else { j - 1 };
            assert(t[j] == rest[r]);
            let q = if r < i { r } else { r + 1 };
            assert(s[q].id == other);
        }
    }
    if has_id(moved(s, id, x, y), other) {
        let j = choose|j: int| 0 <= j < s.len() && #[trigger] moved(s, id, x, y)[j].id == other;
        assert(s[j].id == other);
    }
    if has_id(shown(s, id, v), other) {
        let j = choose|j: int| 0 <= j < s.len() && #[trigger] shown(s, id, v)[j].id == other;
        assert(s[j].id == other);
    }
}

/// Where the layer at position `j` of `s` ends up when the layer at position `i` moves to
/// position `p` of the others.
pub open spec fn index_after_move(j: int, i: int, p: int) -> int {
    let r = if j < i { j } else { j - 1 };
    if r < p { r } else { r + 1 }
}

/// Moving one layer to another z-index keeps the relative order of all the other layers.
pub proof fn lemma_reorder_keeps_others_in_order<S>(s: Seq<Layer<S>>, id: LayerId, z: i32, j: int, k: int)
    requires
        sorted_by_z(s),
        ids_distinct(s),
        has_id(s, id),
        0 <= j < k < s.len(),
        s[j].id != id,
        s[k].id != id,
    ensures
        ({
            let t = reordered(s, id, z);
            let i = position_of(s, id);
            let p = stable_slot(s.remove(i), z as int, i);
            &&& t[index_after_move(j, i, p)] == s[j]
            &&& t[index_after_move(k, i, p)] == s[k]
            &&& index_after_move(j, i, p) < index_after_move(k, i, p)
        }),
{
    let i = position_of(s, id);
    let rest = s.remove(i);
    lemma_slot_splits(rest, z as int, i);
    let p = stable_slot(rest, z as int, i);
    let t = reordered(s, id, z);
    assert(j != i && k != i);
    let rj = if j < i { j } else { j - 1 };
    let rk = if k < i { k } else { k - 1 };
    assert(rest[rj] == s[j]);
    assert(rest[rk] == s[k]);
    assert(t[index_after_move(j, i, p)] == rest[rj]);
    assert(t[index_after_move(k, i, p)] == rest[rk]);
}

/// Showing or hiding a layer sets its visibility to the value asked for, whatever it was,
/// and changes nothing else: the layer keeps its identifier, z-index, position and source,
/// and every other layer stays as it was.
pub proof fn lemma_set_visible_sets_flag<S>(s: Seq<Layer<S>>, id: LayerId, v: bool)
    requires
        ids_distinct(s),
        has_id(s, id),
    ensures
        shown(s, id, v).len() == s.len(),
        forall|j: int| 0 <= j < s.len() && s[j].id == id ==> {
            let l = #[trigger] shown(s, id, v)[j];
            &&& l.visible == v
            &&& l.id == id
            &&& l.z_index == s[j].z_index
            &&& l.x == s[j].x
            &&& l.y == s[j].y
            &&& l.source == s[j].source
        },
        forall|j: int| 0 <= j < s.len() && s[j].id != id ==> #[trigger] shown(s, id, v)[j] == s[j],
{
    let i = position_of(s, id);
    assert forall|j: int| 0 <= j < s.len() && s[j].id == id implies j == i by {
        lemma_position_unique(s, id, j);
    }
}

/// Moving a layer puts it at the position asked for, whatever it was, and changes nothing
/// else: the layer keeps its identifier, z-index, visibility and source, and every other
/// layer stays as it was.
pub proof fn lemma_set_position_places_layer<S>(s: Seq<Layer<S>>, id: LayerId, x: i32, y: i32)
    requires
        ids_distinct(s),
        has_id(s, id),
    ensures
        moved(s, id, x, y).len() == s.len(),
        forall|j: int| 0 <= j < s.len() && s[j].id == id ==> {
            let l = #[trigger] moved(s, id, x, y)[j];
            &&& l.x == x
            &&& l.y == y
            &&& l.id == id
            &&& l.z_index == s[j].z_index
            &&& l.visible == s[j].visible
            &&& l.source == s[j].source
        },
        forall|j: int| 0 <= j < s.len() && s[j].id != id ==> #[trigger] moved(s, id, x, y)[j] == s[j],
{
    let i = position_of(s, id);
    assert forall|j: int| 0 <= j < s.len() && s[j].id == id implies j == i by {
        lemma_position_unique(s, id, j);
    }
}

/// Reordering a layer gives it the z-index asked for and keeps its position, visibility and
/// source; the scene holds the same number of layers.
pub proof fn lemma_reorder_sets_z<S>(s: Seq<Layer<S>>, id: LayerId, z: i32)
    requires
        sorted_by_z(s),
        ids_distinct(s),
        has_id(s, id),
    ensures
        reordered(s, id, z).len() == s.len(),
        has_id(reordered(s, id, z), id),
        forall|j: int| 0 <= j < s.len() && (#[trigger] reordered(s, id, z)[j]).id == id ==> {
            let l = reordered(s, id, z)[j];
            let o = s[position_of(s, id)];
            &&& l.z_index == z
            &&& l.x == o.x
            &&& l.y == o.y
            &&& l.visible == o.visible
            &&& l.source == o.source
        },
{
    let i = position_of(s, id);
    let rest = s.remove(i);
    lemma_slot_splits(rest, z as int, i);
    let p = stable_slot(rest, z as int, i);
    let t = reordered(s, id, z);
    assert(t[p].id == id);
    assert forall|j: int| 0 <= j < s.len() && (#[trigger] t[j]).id == id implies j == p by {
        if j != p {
            let r = if j < p { j } else { j - 1 };
            assert(t[j] == rest[r]);
            let q = if r < i { r } else { r + 1 };
            assert(rest[r] == s[q]);
            assert(q != i);
        }
    }
}

/// Moving one layer to another z-index keeps identifiers distinct.
pub proof fn lemma_reordered_keeps_ids_distinct<S>(s: Seq<Layer<S>>, id: LayerId, z: i32)
    requires
        sorted_by_z(s),
        ids_distinct(s),
        has_id(s, id),
    ensures
        ids_distinct(reordered(s, id, z)),
{
    let i = position_of(s, id);
    let rest = s.remove(i);
    lemma_slot_splits(rest, z as int, i);
    let p = stable_slot(rest, z as int, i);
    let l = Layer { z_index: z, ..s[i] };
    let t = rest.insert(p, l);
    assert(t == reordered(s, id, z));
    assert forall|a: int| 0 <= a < rest.len() implies rest[a] == (if a < i { s[a] } else { s[a + 1] }) by {}
    assert forall|a: int, b: int| 0 <= a < t.len() && 0 <= b < t.len() && a != b implies #[trigger] t[a].id
        != #[trigger] t[b].id by {
        let sa = if a == p { i } else {
            let r = if a < p { a } else { a - 1 };
            if r < i { r } else { r + 1 }
        };
        let sb = if b == p { i } else {
            let r = if b < p { b } else { b - 1 };
            if r < i { r } else { r + 1 }
        };
        if a != p {
            let r = if a < p { a } else { a - 1 };
            assert(t[a] == rest[r]);
        }
        if b != p {
            let r = if b < p { b } else { b - 1 };
            assert(t[b] == rest[r]);
        }
        assert(t[a].id == s[sa].id);
        assert(t[b].id == s[sb].id);
        assert(sa != sb);
    }
}

/// With distinct identifiers, the layer carrying `id` stands at [`position_of`].
pub proof fn lemma_position_is<S>(s: Seq<Layer<S>>, id: LayerId, i: int)
    requires
        ids_distinct(s),
        0 <= i < s.len(),
        s[i].id == id,
    ensures
        position_of(s, id) == i,
{
    lemma_position_unique(s, id, i);
}

/// An added layer goes after every layer whose z-index is at most its own (so after the
/// layers of equal z-index that arrived earlier) and before every layer of greater z-index.
pub proof fn lemma_add_goes_after_equal_z<S>(s: Seq<Layer<S>>, z: i32)
    requires
        sorted_by_z(s),
    ensures
        ({
            let p = stable_slot(s, z as int, s.len() as int);
            &&& 0 <= p <= s.len()
            &&& forall|j: int| 0 <= j < p ==> #[trigger] s[j].z_index <= z
            &&& forall|j: int| p <= j < s.len() ==> #[trigger] s[j].z_index > z
        }),
{
    let p = stable_slot(s, z as int, s.len() as int);
    lemma_slot_splits(s, z as int, s.len() as int);
    assert forall|j: int| 0 <= j < p implies #[trigger] s[j].z_index <= z by {
        assert(sorts_before(s, j, z as int, s.len() as int));
    }
    assert forall|j: int| p <= j < s.len() implies #[trigger] s[j].z_index > z by {
        assert(!sorts_before(s, j, z as int, s.len() as int));
    }
}

} // verus!
