//! Chunk-scoped mesh accumulation.
//!
//! A mesh collects vertices (with one attribute value each), deduplicating
//! them through quantization keys, and collects triangle index triples. The
//! key map is private to the mesh and used only during construction; the
//! vertex, attribute and index sequences are the mesh's data.

use crate::quant::{
    spec_key, Position, QuantKey, QuantScheme, quantize,
};
use vstd::prelude::*;

verus! {

/// Which attribute channel a mesh carries. The two channels are mutually
/// exclusive per export run.
#[derive(Clone, Copy, PartialEq, Eq, Structural, Debug)]
pub enum AttributeMode {
    /// Two-component texture coordinates.
    Uv,
    /// Three-component vertex colors.
    Color,
}

/// One vertex attribute value; components are single-precision bit patterns.
#[derive(Clone, Copy, PartialEq, Eq, Structural, Debug)]
pub enum Attribute {
    /// A texture coordinate (u, v).
    Uv(u32, u32),
    /// A color (r, g, b).
    Color(u32, u32, u32),
}

impl Attribute {
    /// The channel this value belongs to.
    pub open spec fn spec_mode(self) -> AttributeMode {
        match self {
            Attribute::Uv(_, _) => AttributeMode::Uv,
            Attribute::Color(_, _, _) => AttributeMode::Color,
        }
    }

    /// Executable version of `spec_mode`.
    pub fn mode(&self) -> (m: AttributeMode)
        ensures
            m == self.spec_mode(),
    {
        match self {
            Attribute::Uv(_, _) => AttributeMode::Uv,
            Attribute::Color(_, _, _) => AttributeMode::Color,
        }
    }
}

/// Whether some position in `s` has quantization key `k`.
pub open spec fn has_key(scheme: QuantScheme, s: Seq<Position>, k: (int, int, int)) -> bool {
    exists|i: int| 0 <= i < s.len() && #[trigger] spec_key(scheme, s[i]) == k
}

/// Index of the first position in `s` whose quantization key is `k`
/// (`s.len()` if there is none).
pub open spec fn first_with_key(scheme: QuantScheme, s: Seq<Position>, k: (int, int, int)) -> int
    decreases s.len(),
{
    if s.len() == 0 {
        0
    } else if spec_key(scheme, s[0]) == k {
        0
    } else {
        1 + first_with_key(scheme, s.drop_first(), k)
    }
}

/// The vertex sequence after adding `p` with deduplication: unchanged when a
/// vertex with `p`'s key is already present, extended by `p` otherwise.
pub open spec fn dedup_positions(scheme: QuantScheme, s: Seq<Position>, p: Position) -> Seq<
    Position,
> {
    if has_key(scheme, s, spec_key(scheme, p)) {
        s
    } else {
        s.push(p)
    }
}

/// The index such an addition returns: the first vertex with `p`'s key if one
/// exists (the new attribute is then discarded, first writer wins), the fresh
/// index otherwise.
pub open spec fn dedup_index(scheme: QuantScheme, s: Seq<Position>, p: Position) -> int {
    if has_key(scheme, s, spec_key(scheme, p)) {
        first_with_key(scheme, s, spec_key(scheme, p))
    } else {
        s.len() as int
    }
}

/// The attribute sequence after such an addition.
pub open spec fn dedup_attributes(
    scheme: QuantScheme,
    s: Seq<Position>,
    attrs: Seq<Attribute>,
    p: Position,
    a: Attribute,
) -> Seq<Attribute> {
    if has_key(scheme, s, spec_key(scheme, p)) {
        attrs
    } else {
        attrs.push(a)
    }
}

/// `first_with_key` finds a match: it is in range, its key is `k`, and no
/// earlier position has key `k`.
pub proof fn lemma_first_with_key_props(scheme: QuantScheme, s: Seq<Position>, k: (int, int, int))
    requires
        has_key(scheme, s, k),
    ensures
        0 <= first_with_key(scheme, s, k) < s.len(),
        spec_key(scheme, s[first_with_key(scheme, s, k)]) == k,
        forall|j: int|
            0 <= j < first_with_key(scheme, s, k) ==> #[trigger] spec_key(scheme, s[j]) != k,
    decreases s.len(),
{
    if spec_key(scheme, s[0]) == k {
    } else {
        let i = choose|i: int| 0 <= i < s.len() && #[trigger] spec_key(scheme, s[i]) == k;
        assert(s.drop_first()[i - 1] == s[i]);
        assert(has_key(scheme, s.drop_first(), k));
        lemma_first_with_key_props(scheme, s.drop_first(), k);
        let f = first_with_key(scheme, s, k);
        assert(s[f] == s.drop_first()[f - 1]);
        assert forall|j: int| 0 <= j < f implies #[trigger] spec_key(scheme, s[j]) != k by {
            if j > 0 {
                assert(s[j] == s.drop_first()[j - 1]);
            }
        }
    }
}

/// Any index that matches `k` and is preceded only by non-matches is
/// `first_with_key`.
pub proof fn lemma_first_with_key_is(
    scheme: QuantScheme,
    s: Seq<Position>,
    k: (int, int, int),
    i: int,
)
    requires
        0 <= i < s.len(),
        spec_key(scheme, s[i]) == k,
        forall|j: int| 0 <= j < i ==> #[trigger] spec_key(scheme, s[j]) != k,
    ensures
        first_with_key(scheme, s, k) == i,
{
    assert(has_key(scheme, s, k));
    lemma_first_with_key_props(scheme, s, k);
    let f = first_with_key(scheme, s, k);
    if f < i {
        assert(spec_key(scheme, s[f]) != k);
    } else if f > i {
        assert(spec_key(scheme, s[i]) != k);
    }
}

/// One entry of the mesh's key map: a key and the index of the first vertex
/// carrying it.
#[derive(Clone, Copy, PartialEq, Eq, Structural, Debug)]
pub struct KeyEntry {
    /// A quantization key present in the mesh.
    pub key: QuantKey,
    /// Index of the first vertex whose position quantizes to `key`.
    pub index: usize,
}

/// Whether the key map `slots` has an entry for `p`'s quantization key.
pub open spec fn slot_covers(slots: Seq<KeyEntry>, scheme: QuantScheme, p: Position) -> bool {
    exists|j: int|
        0 <= j < slots.len() && (#[trigger] slots[j]).key.model() == spec_key(scheme, p)
}

/// Whether a key-map entry correctly describes the vertex sequence.
pub open spec fn key_entry_ok(scheme: QuantScheme, s: Seq<Position>, e: KeyEntry) -> bool {
    &&& e.index < s.len()
    &&& e.key.model() == spec_key(scheme, s[e.index as int])
    &&& forall|j: int| 0 <= j < e.index ==> #[trigger] spec_key(scheme, s[j]) != e.key.model()
}

/// Mesh data: vertices, their attributes, and flat triangle indices, together
/// with the scheme and attribute channel the mesh was configured with.
pub struct Mesh {
    /// Quantization scheme used for vertex deduplication.
    pub scheme: QuantScheme,
    /// Attribute channel carried by every vertex.
    pub mode: AttributeMode,
    /// Vertex positions, in insertion order.
    pub vertices: Vec<Position>,
    /// One attribute per vertex, parallel to `vertices`.
    pub attributes: Vec<Attribute>,
    /// Flat triangle indices; every three entries form one triangle.
    pub indices: Vec<usize>,
    /// The key map, used only during construction to deduplicate vertices;
    /// not part of the exported mesh data.
    pub key_slots: Vec<KeyEntry>,
}

/// The publicly visible part of a mesh's well-formedness: parallel vertex and
/// attribute sequences, a uniform attribute channel, every index in range,
/// and whole triangles only.
pub open spec fn mesh_data_wf(m: &Mesh) -> bool {
    &&& m.attributes@.len() == m.vertices@.len()
    &&& forall|i: int|
        0 <= i < m.attributes@.len() ==> (#[trigger] m.attributes@[i]).spec_mode() == m.mode
    &&& forall|i: int| 0 <= i < m.indices@.len() ==> (#[trigger] m.indices@[i]) < m.vertices@.len()
    &&& m.indices@.len() % 3 == 0
}

impl Mesh {
    /// Well-formedness: the public data invariant plus the key map describing
    /// exactly the quantization keys of the vertex sequence.
    pub open spec fn wf(&self) -> bool {
        &&& mesh_data_wf(self)
        &&& forall|i: int|
            0 <= i < self.key_slots@.len() ==> key_entry_ok(
                self.scheme,
                self.vertices@,
                #[trigger] self.key_slots@[i],
            )
        &&& forall|i: int|
            0 <= i < self.vertices@.len() ==> slot_covers(
                self.key_slots@,
                self.scheme,
                #[trigger] self.vertices@[i],
            )
        &&& forall|i: int, j: int|
            #![trigger spec_key(self.scheme, self.vertices@[i]), spec_key(self.scheme, self.vertices@[j])]
            0 <= i < j < self.vertices@.len() ==> spec_key(self.scheme, self.vertices@[i])
                != spec_key(self.scheme, self.vertices@[j])
    }

    /// An empty mesh with the given attribute channel and quantization
    /// scheme.
    pub fn with_config(mode: AttributeMode, scheme: QuantScheme) -> (m: Mesh)
        ensures
            m.wf(),
            m.scheme == scheme,
            m.mode == mode,
            m.vertices@ == Seq::<Position>::empty(),
            m.attributes@ == Seq::<Attribute>::empty(),
            m.indices@ == Seq::<usize>::empty(),
    {
        Mesh {
            scheme,
            mode,
            vertices: Vec::new(),
            attributes: Vec::new(),
            indices: Vec::new(),
            key_slots: Vec::new(),
        }
    }

    /// An empty mesh with the default configuration: texture coordinates and
    /// the canonical fine quantization scheme.
    pub fn new() -> (m: Mesh)
        ensures
            m.wf(),
            m.scheme == QuantScheme::Fine,
            m.mode == AttributeMode::Uv,
            m.vertices@ == Seq::<Position>::empty(),
            m.attributes@ == Seq::<Attribute>::empty(),
            m.indices@ == Seq::<usize>::empty(),
    {
        Mesh::with_config(AttributeMode::Uv, QuantScheme::Fine)
    }

    /// Adds a vertex with deduplication: if a vertex with the same
    /// quantization key already exists, returns its index and discards the
    /// new attribute; otherwise appends position and attribute and returns
    /// the fresh index.
    #[verifier::rlimit(50)]
    pub fn add_vertex(&mut self, vertex: Position, attribute: Attribute) -> (index: usize)
        requires
            old(self).wf(),
            attribute.spec_mode() == old(self).mode,
        ensures
            final(self).wf(),
            final(self).scheme == old(self).scheme,
            final(self).mode == old(self).mode,
            final(self).indices@ == old(self).indices@,
            final(self).vertices@ == dedup_positions(old(self).scheme, old(self).vertices@, vertex),
            final(self).attributes@ == dedup_attributes(
                old(self).scheme,
                old(self).vertices@,
                old(self).attributes@,
                vertex,
                attribute,
            ),
            index as int == dedup_index(old(self).scheme, old(self).vertices@, vertex),
            index < final(self).vertices@.len(),
    {
        let k = quantize(self.scheme, &vertex);
        let ghost km = spec_key(self.scheme, vertex);
        let mut i: usize = 0;
        while i < self.key_slots.len()
            invariant
                *self == *old(self),
                old(self).wf(),
                i <= self.key_slots@.len(),
                k.model() == km,
                km == spec_key(self.scheme, vertex),
                forall|j: int| 0 <= j < i ==> (#[trigger] self.key_slots@[j]).key.model() != km,
            decreases self.key_slots@.len() - i,
        {
            if self.key_slots[i].key == k {
                let index = self.key_slots[i].index;
                proof {
                    assert(key_entry_ok(self.scheme, self.vertices@, self.key_slots@[i as int]));
                    assert(has_key(self.scheme, self.vertices@, km));
                    lemma_first_with_key_is(self.scheme, self.vertices@, km, index as int);
                }
                return index;
            }
            i = i + 1;
        }
        proof {
            assert(!has_key(self.scheme, self.vertices@, km)) by {
                if has_key(self.scheme, self.vertices@, km) {
                    let w = choose|w: int|
                        0 <= w < self.vertices@.len() && #[trigger] spec_key(
                            self.scheme,
                            self.vertices@[w],
                        ) == km;
                    assert(slot_covers(self.key_slots@, self.scheme, self.vertices@[w]));
                    let j = choose|j: int|
                        0 <= j < self.key_slots@.len() && (#[trigger] self.key_slots@[j]).key.model()
                            == spec_key(self.scheme, self.vertices@[w]);
                    assert(self.key_slots@[j].key.model() != km);
                }
            }
        }
        let index = self.vertices.len();
        self.vertices.push(vertex);
        self.attributes.push(attribute);
        self.key_slots.push(KeyEntry { key: k, index });
        proof {
            let s = old(self).vertices@;
            let s1 = self.vertices@;
            assert(s1 == s.push(vertex));
            assert forall|ii: int|
                0 <= ii < self.key_slots@.len() implies key_entry_ok(
                self.scheme,
                s1,
                #[trigger] self.key_slots@[ii],
            ) by {
                if ii < old(self).key_slots@.len() {
                    assert(key_entry_ok(self.scheme, s, old(self).key_slots@[ii]));
                    let e = self.key_slots@[ii];
                    assert(s1[e.index as int] == s[e.index as int]);
                    assert forall|j: int| 0 <= j < e.index implies #[trigger] spec_key(
                        self.scheme,
                        s1[j],
                    ) != e.key.model() by {
                        assert(s1[j] == s[j]);
                    }
                } else {
                    let e = self.key_slots@[ii];
                    assert(e.index == s.len());
                    assert(s1[e.index as int] == vertex);
                    assert forall|j: int| 0 <= j < e.index implies #[trigger] spec_key(
                        self.scheme,
                        s1[j],
                    ) != e.key.model() by {
                        assert(s1[j] == s[j]);
                    }
                }
            }
            assert forall|ii: int| 0 <= ii < s1.len() implies slot_covers(
                self.key_slots@,
                self.scheme,
                #[trigger] s1[ii],
            ) by {
                if ii < s.len() {
                    assert(s1[ii] == s[ii]);
                    assert(slot_covers(old(self).key_slots@, old(self).scheme, s[ii]));
                    let j = choose|j: int|
                        0 <= j < old(self).key_slots@.len() && (#[trigger] old(
                            self,
                        ).key_slots@[j]).key.model() == spec_key(old(self).scheme, s[ii]);
                    assert(self.key_slots@[j].key.model() == spec_key(self.scheme, s1[ii]));
                } else {
                    let j = self.key_slots@.len() - 1;
                    assert(self.key_slots@[j].key.model() == spec_key(self.scheme, s1[ii]));
                }
            }
        }
        index
    }

    /// Appends one triangle's three indices. Callers pass indices returned by
    /// `add_vertex`, so each must reference an existing vertex.
    pub fn add_triangle(&mut self, triangle: [usize; 3])
        requires
            old(self).wf(),
            triangle@[0] < old(self).vertices@.len(),
            triangle@[1] < old(self).vertices@.len(),
            triangle@[2] < old(self).vertices@.len(),
        ensures
            final(self).wf(),
            final(self).scheme == old(self).scheme,
            final(self).mode == old(self).mode,
            final(self).vertices@ == old(self).vertices@,
            final(self).attributes@ == old(self).attributes@,
            final(self).indices@ == old(self).indices@ + triangle@,
    {
        self.indices.push(triangle[0]);
        self.indices.push(triangle[1]);
        self.indices.push(triangle[2]);
        proof {
            assert(self.indices@ =~= old(self).indices@ + triangle@);
            assert(self.indices@.len() % 3 == 0);
        }
    }

    /// Vertex and triangle counts.
    pub fn stats(&self) -> (s: MeshStats)
        ensures
            s.vertex_count == self.vertices@.len(),
            s.triangle_count as int == self.indices@.len() as int / 3,
    {
        MeshStats { vertex_count: self.vertices.len(), triangle_count: self.indices.len() / 3 }
    }
}

/// Mesh statistics.
#[derive(Clone, Copy, PartialEq, Eq, Structural, Debug)]
pub struct MeshStats {
    /// Number of deduplicated vertices.
    pub vertex_count: usize,
    /// Number of whole triangles.
    pub triangle_count: usize,
}

/// Fan-triangulates a polygonal boundary from a center vertex: for N boundary
/// indices, produces exactly N triangles `(center, boundary[i],
/// boundary[(i+1) mod N])`, wrapping around at the end. Handles pentagons,
/// hexagons and smaller filtered boundaries alike.
pub fn triangulate_pentagon(center_idx: usize, boundary_indices: &[usize]) -> (r: Vec<[usize; 3]>)
    ensures
        r@.len() == boundary_indices@.len(),
        forall|i: int|
            0 <= i < r@.len() ==> (#[trigger] r@[i])@ == seq![
                center_idx,
                boundary_indices@[i],
                boundary_indices@[(i + 1) % boundary_indices@.len() as int],
            ],
{
    let n = boundary_indices.len();
    let mut triangles: Vec<[usize; 3]> = Vec::new();
    let mut i: usize = 0;
    while i < n
        invariant
            n == boundary_indices@.len(),
            i <= n,
            triangles@.len() == i,
            forall|j: int|
                0 <= j < i ==> (#[trigger] triangles@[j])@ == seq![
                    center_idx,
                    boundary_indices@[j],
                    boundary_indices@[(j + 1) % boundary_indices@.len() as int],
                ],
        decreases n - i,
    {
        let next = (i + 1) % n;
        let tri = [center_idx, boundary_indices[i], boundary_indices[next]];
        proof {
            assert(tri@ =~= seq![
                center_idx,
                boundary_indices@[i as int],
                boundary_indices@[(i + 1) % boundary_indices@.len() as int],
            ]);
        }
        triangles.push(tri);
        i = i + 1;
    }
    triangles
}

/// Law: adding the same position twice (with any attributes) returns the same
/// index both times, and the vertex sequence grows exactly once.
pub proof fn lemma_dedup_idempotent(scheme: QuantScheme, s: Seq<Position>, p: Position)
    ensures
        ({
            let s1 = dedup_positions(scheme, s, p);
            &&& dedup_index(scheme, s1, p) == dedup_index(scheme, s, p)
            &&& dedup_positions(scheme, s1, p) == s1
            &&& !has_key(scheme, s, spec_key(scheme, p)) ==> s1.len() == s.len() + 1
            &&& has_key(scheme, s, spec_key(scheme, p)) ==> s1.len() == s.len()
        }),
{
    let k = spec_key(scheme, p);
    let s1 = dedup_positions(scheme, s, p);
    if has_key(scheme, s, k) {
        assert(s1 == s);
    } else {
        assert(s1 == s.push(p));
        assert(s1[s.len() as int] == p);
        assert forall|j: int| 0 <= j < s.len() implies #[trigger] spec_key(scheme, s1[j]) != k by {
            assert(s1[j] == s[j]);
        }
        lemma_first_with_key_is(scheme, s1, k, s.len() as int);
        assert(has_key(scheme, s1, k));
    }
}

/// Law: consecutive additions with distinct quantization keys receive
/// distinct indices; with equal keys the second addition collapses onto the
/// first's index and adds no vertex.
pub proof fn lemma_dedup_distinct(scheme: QuantScheme, s: Seq<Position>, p1: Position, p2: Position)
    ensures
        ({
            let s1 = dedup_positions(scheme, s, p1);
            let i1 = dedup_index(scheme, s, p1);
            let i2 = dedup_index(scheme, s1, p2);
            &&& spec_key(scheme, p1) != spec_key(scheme, p2) ==> i1 != i2
            &&& spec_key(scheme, p1) == spec_key(scheme, p2) ==> i2 == i1 && dedup_positions(
                scheme,
                s1,
                p2,
            ) == s1
        }),
{
    let k1 = spec_key(scheme, p1);
    let k2 = spec_key(scheme, p2);
    let s1 = dedup_positions(scheme, s, p1);
    let i1 = dedup_index(scheme, s, p1);
    // p1's key is present in s1 at index i1, and i1 is the first such index.
    if has_key(scheme, s, k1) {
        lemma_first_with_key_props(scheme, s, k1);
        assert(s1 == s);
    } else {
        assert(s1 == s.push(p1));
        assert(s1[s.len() as int] == p1);
        assert forall|j: int| 0 <= j < s.len() implies #[trigger] spec_key(scheme, s1[j]) != k1 by {
            assert(s1[j] == s[j]);
        }
        lemma_first_with_key_is(scheme, s1, k1, s.len() as int);
    }
    assert(0 <= i1 < s1.len());
    assert(spec_key(scheme, s1[i1]) == k1);
    assert(first_with_key(scheme, s1, k1) == i1) by {
        if has_key(scheme, s, k1) {
            assert forall|j: int| 0 <= j < i1 implies #[trigger] spec_key(scheme, s1[j]) != k1 by {
                assert(s1[j] == s[j]);
            }
            lemma_first_with_key_is(scheme, s1, k1, i1);
        }
    }
    if k1 != k2 {
        let i2 = dedup_index(scheme, s1, p2);
        if has_key(scheme, s1, k2) {
            lemma_first_with_key_props(scheme, s1, k2);
            assert(spec_key(scheme, s1[i2]) == k2);
        } else {
            assert(i2 == s1.len());
        }
    } else {
        assert(has_key(scheme, s1, k1));
        assert(dedup_index(scheme, s1, p2) == i1);
    }
}

} // verus!
