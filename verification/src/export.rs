//! Mesh serialization: the flat little-endian binary buffer and the JSON
//! scene descriptor that references it.
//!
//! The binary layout is: every vertex position as three little-endian
//! 32-bit words, then every attribute block in vertex order (two words for
//! texture coordinates, three for colors), then every triangle index as one
//! little-endian 32-bit word. The descriptor addresses those three ranges as
//! contiguous buffer views whose byte lengths and offsets are computed from
//! the same counts, so descriptor and binary file always agree.

use crate::mesh::{mesh_data_wf, Attribute, AttributeMode, Mesh};
use crate::quant::Position;
use vstd::prelude::*;
use vstd::string::StringExecFns;

verus! {

/// Errors of mesh export.
#[derive(Clone, Copy, PartialEq, Eq, Structural, Debug)]
pub enum ExportError {
    /// A triangle index does not fit the binary format's unsigned 32-bit
    /// index type.
    IndexTooLarge {
        /// The offending index value.
        index: usize,
    },
}

/// The four little-endian bytes of a 32-bit word.
pub open spec fn le_bytes_32(w: u32) -> Seq<u8> {
    seq![
        (w & 0xff) as u8,
        ((w >> 8) & 0xff) as u8,
        ((w >> 16) & 0xff) as u8,
        ((w >> 24) & 0xff) as u8,
    ]
}

/// The twelve bytes of one vertex position.
pub open spec fn position_bytes(p: Position) -> Seq<u8> {
    le_bytes_32(p.x) + le_bytes_32(p.y) + le_bytes_32(p.z)
}

/// The byte run of a whole vertex sequence.
pub open spec fn positions_bytes(s: Seq<Position>) -> Seq<u8>
    decreases s.len(),
{
    if s.len() == 0 {
        Seq::<u8>::empty()
    } else {
        position_bytes(s[0]) + positions_bytes(s.drop_first())
    }
}

/// The bytes of one attribute block: eight for a texture coordinate, twelve
/// for a color.
pub open spec fn attribute_bytes(a: Attribute) -> Seq<u8> {
    match a {
        Attribute::Uv(u, v) => le_bytes_32(u) + le_bytes_32(v),
        Attribute::Color(r, g, b) => le_bytes_32(r) + le_bytes_32(g) + le_bytes_32(b),
    }
}

/// The byte run of a whole attribute sequence.
pub open spec fn attributes_bytes(s: Seq<Attribute>) -> Seq<u8>
    decreases s.len(),
{
    if s.len() == 0 {
        Seq::<u8>::empty()
    } else {
        attribute_bytes(s[0]) + attributes_bytes(s.drop_first())
    }
}

/// The byte run of the triangle indices, each narrowed to 32 bits.
pub open spec fn indices_bytes(s: Seq<usize>) -> Seq<u8>
    decreases s.len(),
{
    if s.len() == 0 {
        Seq::<u8>::empty()
    } else {
        le_bytes_32(s[0] as u32) + indices_bytes(s.drop_first())
    }
}

/// The whole binary buffer of a mesh: positions, then attributes, then
/// indices.
pub open spec fn binary_data(m: &Mesh) -> Seq<u8> {
    positions_bytes(m.vertices@) + attributes_bytes(m.attributes@) + indices_bytes(m.indices@)
}

/// Bytes of one attribute block under a channel.
pub open spec fn attr_size(mode: AttributeMode) -> int {
    match mode {
        AttributeMode::Uv => 8,
        AttributeMode::Color => 12,
    }
}

/// Serializing one more position appends its bytes.
proof fn lemma_positions_bytes_push(s: Seq<Position>, p: Position)
    ensures
        positions_bytes(s.push(p)) == positions_bytes(s) + position_bytes(p),
    decreases s.len(),
{
    if s.len() == 0 {
        assert(s.push(p)[0] == p);
        assert(s.push(p).drop_first() =~= Seq::<Position>::empty());
        assert(positions_bytes(s.push(p)) == position_bytes(p) + positions_bytes(
            s.push(p).drop_first(),
        ));
        assert(position_bytes(p) + Seq::<u8>::empty() =~= position_bytes(p));
        assert(positions_bytes(s) + position_bytes(p) =~= position_bytes(p));
    } else {
        assert(s.push(p)[0] == s[0]);
        assert(s.push(p).drop_first() =~= s.drop_first().push(p));
        lemma_positions_bytes_push(s.drop_first(), p);
        assert(positions_bytes(s.push(p)) == position_bytes(s[0]) + (positions_bytes(s.drop_first())
            + position_bytes(p)));
        assert(position_bytes(s[0]) + (positions_bytes(s.drop_first()) + position_bytes(p)) =~= (
        position_bytes(s[0]) + positions_bytes(s.drop_first())) + position_bytes(p));
    }
}

/// Serializing one more attribute appends its bytes.
proof fn lemma_attributes_bytes_push(s: Seq<Attribute>, a: Attribute)
    ensures
        attributes_bytes(s.push(a)) == attributes_bytes(s) + attribute_bytes(a),
    decreases s.len(),
{
    if s.len() == 0 {
        assert(s.push(a)[0] == a);
        assert(s.push(a).drop_first() =~= Seq::<Attribute>::empty());
        assert(attributes_bytes(s.push(a)) == attribute_bytes(a) + attributes_bytes(
            s.push(a).drop_first(),
        ));
        assert(attribute_bytes(a) + Seq::<u8>::empty() =~= attribute_bytes(a));
        assert(attributes_bytes(s) + attribute_bytes(a) =~= attribute_bytes(a));
    } else {
        assert(s.push(a)[0] == s[0]);
        assert(s.push(a).drop_first() =~= s.drop_first().push(a));
        lemma_attributes_bytes_push(s.drop_first(), a);
        assert(attributes_bytes(s.push(a)) == attribute_bytes(s[0]) + (attributes_bytes(
            s.drop_first(),
        ) + attribute_bytes(a)));
        assert(attribute_bytes(s[0]) + (attributes_bytes(s.drop_first()) + attribute_bytes(a)) =~= (
        attribute_bytes(s[0]) + attributes_bytes(s.drop_first())) + attribute_bytes(a));
    }
}

/// Serializing one more index appends its bytes.
proof fn lemma_indices_bytes_push(s: Seq<usize>, x: usize)
    ensures
        indices_bytes(s.push(x)) == indices_bytes(s) + le_bytes_32(x as u32),
    decreases s.len(),
{
    if s.len() == 0 {
        assert(s.push(x)[0] == x);
        assert(s.push(x).drop_first() =~= Seq::<usize>::empty());
        assert(indices_bytes(s.push(x)) == le_bytes_32(x as u32) + indices_bytes(
            s.push(x).drop_first(),
        ));
        assert(le_bytes_32(x as u32) + Seq::<u8>::empty() =~= le_bytes_32(x as u32));
        assert(indices_bytes(s) + le_bytes_32(x as u32) =~= le_bytes_32(x as u32));
    } else {
        assert(s.push(x)[0] == s[0]);
        assert(s.push(x).drop_first() =~= s.drop_first().push(x));
        lemma_indices_bytes_push(s.drop_first(), x);
        assert(indices_bytes(s.push(x)) == le_bytes_32(s[0] as u32) + (indices_bytes(s.drop_first())
            + le_bytes_32(x as u32)));
        assert(le_bytes_32(s[0] as u32) + (indices_bytes(s.drop_first()) + le_bytes_32(x as u32))
            =~= (le_bytes_32(s[0] as u32) + indices_bytes(s.drop_first())) + le_bytes_32(x as u32));
    }
}

/// The position run is twelve bytes per vertex.
pub proof fn lemma_positions_bytes_len(s: Seq<Position>)
    ensures
        positions_bytes(s).len() == 12 * s.len(),
    decreases s.len(),
{
    if s.len() == 0 {
    } else {
        lemma_positions_bytes_len(s.drop_first());
    }
}

/// The attribute run is `attr_size(mode)` bytes per vertex when every
/// attribute belongs to channel `mode`.
pub proof fn lemma_attributes_bytes_len(s: Seq<Attribute>, mode: AttributeMode)
    requires
        forall|i: int| 0 <= i < s.len() ==> (#[trigger] s[i]).spec_mode() == mode,
    ensures
        attributes_bytes(s).len() == attr_size(mode) * s.len(),
    decreases s.len(),
{
    if s.len() == 0 {
    } else {
        assert(s[0].spec_mode() == mode);
        assert forall|i: int| 0 <= i < s.drop_first().len() implies (#[trigger] s.drop_first()[i]).spec_mode()
            == mode by {
            assert(s.drop_first()[i] == s[i + 1]);
        }
        lemma_attributes_bytes_len(s.drop_first(), mode);
        match mode {
            AttributeMode::Uv => {
                assert(attr_size(mode) == 8);
                assert(attribute_bytes(s[0]).len() == 8);
            },
            AttributeMode::Color => {
                assert(attr_size(mode) == 12);
                assert(attribute_bytes(s[0]).len() == 12);
            },
        }
    }
}

/// The index run is four bytes per index.
pub proof fn lemma_indices_bytes_len(s: Seq<usize>)
    ensures
        indices_bytes(s).len() == 4 * s.len(),
    decreases s.len(),
{
    if s.len() == 0 {
    } else {
        lemma_indices_bytes_len(s.drop_first());
    }
}

/// Law: the binary buffer's byte length is exactly
/// `vertexCount*12 + vertexCount*attrSize + indexCount*4`.
pub proof fn lemma_binary_data_len(m: &Mesh)
    requires
        mesh_data_wf(m),
    ensures
        binary_data(m).len() == 12 * m.vertices@.len() + attr_size(m.mode) * m.attributes@.len()
            + 4 * m.indices@.len(),
{
    lemma_positions_bytes_len(m.vertices@);
    lemma_attributes_bytes_len(m.attributes@, m.mode);
    lemma_indices_bytes_len(m.indices@);
}

/// Index of the first triangle index too large for 32 bits (`s.len()` if
/// all fit).
pub open spec fn first_too_large(s: Seq<usize>) -> int
    decreases s.len(),
{
    if s.len() == 0 {
        0
    } else if s[0] > 0xffffffff {
        0
    } else {
        1 + first_too_large(s.drop_first())
    }
}

/// When some index is too large, `first_too_large` finds one in range.
pub proof fn lemma_first_too_large_props(s: Seq<usize>)
    requires
        exists|i: int| 0 <= i < s.len() && (#[trigger] s[i]) > 0xffffffff,
    ensures
        0 <= first_too_large(s) < s.len(),
        s[first_too_large(s)] > 0xffffffff,
    decreases s.len(),
{
    if s[0] > 0xffffffff {
    } else {
        let i = choose|i: int| 0 <= i < s.len() && (#[trigger] s[i]) > 0xffffffff;
        assert(s.drop_first()[i - 1] == s[i]);
        lemma_first_too_large_props(s.drop_first());
        assert(s[first_too_large(s)] == s.drop_first()[first_too_large(s.drop_first())]);
    }
}

/// An index that is too large and preceded only by fitting ones is the
/// first too-large index.
proof fn lemma_first_too_large_is(s: Seq<usize>, i: int)
    requires
        0 <= i < s.len(),
        s[i] > 0xffffffff,
        forall|j: int| 0 <= j < i ==> (#[trigger] s[j]) <= 0xffffffff,
    ensures
        first_too_large(s) == i,
    decreases i,
{
    if i == 0 {
    } else {
        assert(s[0] <= 0xffffffff);
        assert(s.drop_first()[i - 1] == s[i]);
        assert forall|j: int| 0 <= j < i - 1 implies (#[trigger] s.drop_first()[j])
            <= 0xffffffff by {
            assert(s.drop_first()[j] == s[j + 1]);
        }
        lemma_first_too_large_is(s.drop_first(), i - 1);
    }
}

/// Appends the four little-endian bytes of a 32-bit word.
fn push_u32_le(bytes: &mut Vec<u8>, w: u32)
    ensures
        final(bytes)@ == old(bytes)@ + le_bytes_32(w),
{
    proof {
        assert(w & 0xff < 256) by (bit_vector);
        assert((w >> 8) & 0xff < 256) by (bit_vector);
        assert((w >> 16) & 0xff < 256) by (bit_vector);
        assert((w >> 24) & 0xff < 256) by (bit_vector);
    }
    bytes.push((w & 0xff) as u8);
    bytes.push(((w >> 8) & 0xff) as u8);
    bytes.push(((w >> 16) & 0xff) as u8);
    bytes.push(((w >> 24) & 0xff) as u8);
    proof {
        assert(bytes@ =~= old(bytes)@ + le_bytes_32(w));
    }
}

/// Serializes a mesh to its flat little-endian binary buffer: positions,
/// then attribute blocks, then 32-bit triangle indices. Fails exactly when
/// some triangle index exceeds the 32-bit range, naming the first such
/// index.
pub fn write_binary_data(mesh: &Mesh) -> (r: Result<Vec<u8>, ExportError>)
    requires
        mesh_data_wf(mesh),
    ensures
        r is Ok <==> (forall|i: int|
            0 <= i < mesh.indices@.len() ==> (#[trigger] mesh.indices@[i]) <= 0xffffffff),
        r matches Ok(bytes) ==> bytes@ == binary_data(mesh) && bytes@.len() == 12
            * mesh.vertices@.len() + attr_size(mesh.mode) * mesh.vertices@.len() + 4
            * mesh.indices@.len(),
        r is Err ==> r == Err::<Vec<u8>, ExportError>(
            (ExportError::IndexTooLarge {
                index: mesh.indices@[first_too_large(mesh.indices@)],
            }),
        ),
{
    let mut j: usize = 0;
    while j < mesh.indices.len()
        invariant
            j <= mesh.indices@.len(),
            forall|i: int| 0 <= i < j ==> (#[trigger] mesh.indices@[i]) <= 0xffffffff,
        decreases mesh.indices@.len() - j,
    {
        if mesh.indices[j] > 0xffffffff {
            proof {
                lemma_first_too_large_is(mesh.indices@, j as int);
            }
            return Err(ExportError::IndexTooLarge { index: mesh.indices[j] });
        }
        j = j + 1;
    }
    let mut bytes: Vec<u8> = Vec::new();
    let mut i: usize = 0;
    proof {
        assert(mesh.vertices@.take(0) =~= Seq::<Position>::empty());
    }
    while i < mesh.vertices.len()
        invariant
            i <= mesh.vertices@.len(),
            bytes@ == positions_bytes(mesh.vertices@.take(i as int)),
        decreases mesh.vertices@.len() - i,
    {
        let p = mesh.vertices[i];
        let ghost before = bytes@;
        push_u32_le(&mut bytes, p.x);
        push_u32_le(&mut bytes, p.y);
        push_u32_le(&mut bytes, p.z);
        proof {
            assert(bytes@ =~= before + position_bytes(p));
            assert(mesh.vertices@.take(i + 1) =~= mesh.vertices@.take(i as int).push(
                mesh.vertices@[i as int],
            ));
            lemma_positions_bytes_push(mesh.vertices@.take(i as int), mesh.vertices@[i as int]);
        }
        i = i + 1;
    }
    proof {
        assert(mesh.vertices@.take(mesh.vertices@.len() as int) =~= mesh.vertices@);
        assert(mesh.attributes@.take(0) =~= Seq::<Attribute>::empty());
        assert(bytes@ =~= positions_bytes(mesh.vertices@) + attributes_bytes(
            mesh.attributes@.take(0),
        ));
    }
    let mut a: usize = 0;
    while a < mesh.attributes.len()
        invariant
            a <= mesh.attributes@.len(),
            bytes@ == positions_bytes(mesh.vertices@) + attributes_bytes(
                mesh.attributes@.take(a as int),
            ),
        decreases mesh.attributes@.len() - a,
    {
        let attr = mesh.attributes[a];
        let ghost before = bytes@;
        match attr {
            Attribute::Uv(u, v) => {
                push_u32_le(&mut bytes, u);
                push_u32_le(&mut bytes, v);
            },
            Attribute::Color(r, g, b) => {
                push_u32_le(&mut bytes, r);
                push_u32_le(&mut bytes, g);
                push_u32_le(&mut bytes, b);
            },
        }
        proof {
            assert(bytes@ =~= before + attribute_bytes(attr));
            assert(mesh.attributes@.take(a + 1) =~= mesh.attributes@.take(a as int).push(
                mesh.attributes@[a as int],
            ));
            lemma_attributes_bytes_push(mesh.attributes@.take(a as int), mesh.attributes@[a as int]);
            assert(bytes@ =~= positions_bytes(mesh.vertices@) + attributes_bytes(
                mesh.attributes@.take(a + 1),
            ));
        }
        a = a + 1;
    }
    proof {
        assert(mesh.attributes@.take(mesh.attributes@.len() as int) =~= mesh.attributes@);
        assert(mesh.indices@.take(0) =~= Seq::<usize>::empty());
        assert(bytes@ =~= (positions_bytes(mesh.vertices@) + attributes_bytes(mesh.attributes@))
            + indices_bytes(mesh.indices@.take(0)));
    }
    let mut k: usize = 0;
    while k < mesh.indices.len()
        invariant
            k <= mesh.indices@.len(),
            forall|i2: int| 0 <= i2 < mesh.indices@.len() ==> (#[trigger] mesh.indices@[i2])
                <= 0xffffffff,
            bytes@ == (positions_bytes(mesh.vertices@) + attributes_bytes(mesh.attributes@))
                + indices_bytes(mesh.indices@.take(k as int)),
        decreases mesh.indices@.len() - k,
    {
        let idx = mesh.indices[k];
        let ghost before = bytes@;
        push_u32_le(&mut bytes, idx as u32);
        proof {
            assert(mesh.indices@.take(k + 1) =~= mesh.indices@.take(k as int).push(
                mesh.indices@[k as int],
            ));
            lemma_indices_bytes_push(mesh.indices@.take(k as int), mesh.indices@[k as int]);
            assert(bytes@ =~= (positions_bytes(mesh.vertices@) + attributes_bytes(mesh.attributes@))
                + indices_bytes(mesh.indices@.take(k + 1)));
        }
        k = k + 1;
    }
    proof {
        assert(mesh.indices@.take(mesh.indices@.len() as int) =~= mesh.indices@);
        assert(bytes@ =~= binary_data(mesh));
        lemma_binary_data_len(mesh);
    }
    Ok(bytes)
}

/// The decimal digit character for `d` (`d` below ten).
pub open spec fn dec_digit(d: nat) -> char {
    if d == 0 {
        '0'
    } else if d == 1 {
        '1'
    } else if d == 2 {
        '2'
    } else if d == 3 {
        '3'
    } else if d == 4 {
        '4'
    } else if d == 5 {
        '5'
    } else if d == 6 {
        '6'
    } else if d == 7 {
        '7'
    } else if d == 8 {
        '8'
    } else {
        '9'
    }
}

/// The decimal digit string of `n`, most significant digit first, no
/// leading zeros (a single zero for zero).
pub open spec fn dec_of(n: nat) -> Seq<char>
    decreases n,
{
    if n < 10 {
        seq![dec_digit(n)]
    } else {
        dec_of(n / 10).push(dec_digit(n % 10))
    }
}

/// A character sequence that can stand inside a JSON string literal without
/// escaping.
pub open spec fn json_safe(s: Seq<char>) -> bool {
    forall|i: int| 0 <= i < s.len() ==> s[i] != '"' && s[i] != '\\'
}

/// JSON-safety is preserved by concatenation.
pub proof fn lemma_json_safe_concat(a: Seq<char>, b: Seq<char>)
    requires
        json_safe(a),
        json_safe(b),
    ensures
        json_safe(a + b),
{
    assert forall|i: int| 0 <= i < (a + b).len() implies (a + b)[i] != '"' && (a + b)[i]
        != '\\' by {
        if i < a.len() {
            assert((a + b)[i] == a[i]);
        } else {
            assert((a + b)[i] == b[i - a.len()]);
        }
    }
}

/// Decimal digit strings are JSON-safe.
pub proof fn lemma_dec_of_json_safe(n: nat)
    ensures
        json_safe(dec_of(n)),
    decreases n,
{
    if n < 10 {
    } else {
        lemma_dec_of_json_safe(n / 10);
        assert(dec_of(n) == dec_of(n / 10).push(dec_digit(n % 10)));
        assert forall|i: int| 0 <= i < dec_of(n).len() implies dec_of(n)[i] != '"' && dec_of(n)[i]
            != '\\' by {
            if i < dec_of(n / 10).len() {
                assert(dec_of(n)[i] == dec_of(n / 10)[i]);
            }
        }
    }
}

/// Whether every character of `s` can stand inside a JSON string literal
/// without escaping.
pub fn is_json_safe(s: &str) -> (r: bool)
    ensures
        r == json_safe(s@),
{
    let n = s.unicode_len();
    let mut i: usize = 0;
    while i < n
        invariant
            n == s@.len(),
            i <= n,
            forall|j: int| 0 <= j < i ==> s@[j] != '"' && s@[j] != '\\',
        decreases n - i,
    {
        let c = s.get_char(i);
        if c == '"' || c == '\\' {
            return false;
        }
        i = i + 1;
    }
    true
}

/// The string of one decimal digit.
fn digit_str(d: u8) -> (r: &'static str)
    requires
        d < 10,
    ensures
        r@ == seq![dec_digit(d as nat)],
{
    if d == 0 {
        proof {
            reveal_strlit("0");
            assert("0"@ =~= seq![dec_digit(0)]);
        }
        "0"
    } else if d == 1 {
        proof {
            reveal_strlit("1");
            assert("1"@ =~= seq![dec_digit(1)]);
        }
        "1"
    } else if d == 2 {
        proof {
            reveal_strlit("2");
            assert("2"@ =~= seq![dec_digit(2)]);
        }
        "2"
    } else if d == 3 {
        proof {
            reveal_strlit("3");
            assert("3"@ =~= seq![dec_digit(3)]);
        }
        "3"
    } else if d == 4 {
        proof {
            reveal_strlit("4");
            assert("4"@ =~= seq![dec_digit(4)]);
        }
        "4"
    } else if d == 5 {
        proof {
            reveal_strlit("5");
            assert("5"@ =~= seq![dec_digit(5)]);
        }
        "5"
    } else if d == 6 {
        proof {
            reveal_strlit("6");
            assert("6"@ =~= seq![dec_digit(6)]);
        }
        "6"
    } else if d == 7 {
        proof {
            reveal_strlit("7");
            assert("7"@ =~= seq![dec_digit(7)]);
        }
        "7"
    } else if d == 8 {
        proof {
            reveal_strlit("8");
            assert("8"@ =~= seq![dec_digit(8)]);
        }
        "8"
    } else {
        proof {
            reveal_strlit("9");
            assert("9"@ =~= seq![dec_digit(9)]);
        }
        "9"
    }
}

/// Appends the decimal digits of `n`.
pub fn push_decimal(s: &mut String, n: u128)
    ensures
        final(s)@ == old(s)@ + dec_of(n as nat),
    decreases n,
{
    if n < 10 {
        let d = digit_str(n as u8);
        s.append(d);
        proof {
            assert(old(s)@ + d@ =~= old(s)@ + dec_of(n as nat));
        }
    } else {
        push_decimal(s, n / 10);
        let d = digit_str((n % 10) as u8);
        s.append(d);
        proof {
            assert((n / 10) as nat == (n as nat) / 10);
            assert((n % 10) as nat == (n as nat) % 10);
            assert(dec_of(n as nat) == dec_of((n as nat) / 10).push(dec_digit((n as nat) % 10)));
            assert((old(s)@ + dec_of((n as nat) / 10)) + seq![dec_digit((n as nat) % 10)] =~= old(
                s,
            )@ + dec_of(n as nat));
        }
    }
}

/// The complete JSON scene descriptor for a mesh with `vc` vertices and `ic`
/// triangle indices under attribute channel `mode`, referencing the binary
/// buffer by `uri`: one scene, one node, one mesh with one triangle
/// primitive, three accessors (positions, attributes, indices) and three
/// contiguous, non-overlapping buffer views packed in that order.
pub open spec fn scene_json(vc: nat, ic: nat, mode: AttributeMode, uri: Seq<char>) -> Seq<char> {
    let asz = attr_size(mode) as nat;
    let vb = vc * 12;
    let ab = vc * asz;
    let ib = ic * 4;
    let total = vb + ab + ib;
    let semantic = match mode {
        AttributeMode::Uv => "TEXCOORD_0"@,
        AttributeMode::Color => "COLOR_0"@,
    };
    let atype = match mode {
        AttributeMode::Uv => "VEC2"@,
        AttributeMode::Color => "VEC3"@,
    };
    "{\"asset\":{\"version\":\"2.0\",\"generator\":\"DTD_WorldGenerator\"},\"scene\":0,\"scenes\":[{\"name\":\"H3_Scene\",\"nodes\":[0]}],\"nodes\":[{\"name\":\"H3_Polyhedron_Node\",\"mesh\":0}],\"meshes\":[{\"name\":\"H3_Polyhedron\",\"primitives\":[{\"attributes\":{\"POSITION\":0,\""@
        + semantic
        + "\":1},\"indices\":2,\"mode\":4}]}],\"accessors\":[{\"bufferView\":0,\"componentType\":5126,\"count\":"@
        + dec_of(vc)
        + ",\"type\":\"VEC3\",\"byteOffset\":0},{\"bufferView\":1,\"componentType\":5126,\"count\":"@
        + dec_of(vc) + ",\"type\":\""@ + atype
        + "\",\"byteOffset\":0},{\"bufferView\":2,\"componentType\":5125,\"count\":"@ + dec_of(ic)
        + ",\"type\":\"SCALAR\",\"byteOffset\":0}],\"bufferViews\":[{\"buffer\":0,\"byteOffset\":0,\"byteLength\":"@
        + dec_of(vb) + ",\"byteStride\":12,\"target\":34962},{\"buffer\":0,\"byteOffset\":"@
        + dec_of(vb) + ",\"byteLength\":"@ + dec_of(ab) + ",\"byteStride\":"@ + dec_of(asz)
        + ",\"target\":34962},{\"buffer\":0,\"byteOffset\":"@ + dec_of((vb + ab) as nat)
        + ",\"byteLength\":"@ + dec_of(ib)
        + ",\"target\":34963}],\"buffers\":[{\"byteLength\":"@ + dec_of(total) + ",\"uri\":\""@
        + uri + "\"}]}"@
}

/// Exports a mesh: the binary buffer together with the JSON scene descriptor
/// that references it by `binary_filename`. Fails exactly when a triangle
/// index exceeds the 32-bit range.
pub fn export_gltf(mesh: &Mesh, binary_filename: &str) -> (r: Result<
    (String, Vec<u8>),
    ExportError,
>)
    requires
        mesh_data_wf(mesh),
        json_safe(binary_filename@),
    ensures
        r is Ok <==> (forall|i: int|
            0 <= i < mesh.indices@.len() ==> (#[trigger] mesh.indices@[i]) <= 0xffffffff),
        r matches Ok(out) ==> out.0@ == scene_json(
            mesh.vertices@.len(),
            mesh.indices@.len(),
            mesh.mode,
            binary_filename@,
        ) && out.1@ == binary_data(mesh),
        r is Err ==> r == Err::<(String, Vec<u8>), ExportError>(
            (ExportError::IndexTooLarge {
                index: mesh.indices@[first_too_large(mesh.indices@)],
            }),
        ),
{
    let bin = match write_binary_data(mesh) {
        Ok(b) => b,
        Err(e) => {
            return Err(e);
        },
    };
    let ghost vcn = mesh.vertices@.len();
    let ghost icn = mesh.indices@.len();
    let vcw: u128 = mesh.vertices.len() as u128;
    let icw: u128 = mesh.indices.len() as u128;
    let vb: u128 = vcw * 12;
    let ab: u128 = match mesh.mode {
        AttributeMode::Uv => vcw * 8,
        AttributeMode::Color => vcw * 12,
    };
    let asz: u128 = match mesh.mode {
        AttributeMode::Uv => 8,
        AttributeMode::Color => 12,
    };
    let ib: u128 = icw * 4;
    let total: u128 = vb + ab + ib;
    proof {
        assert(vb as nat == vcn * 12);
        assert(ab as nat == vcn * (attr_size(mesh.mode) as nat));
        assert(asz as nat == attr_size(mesh.mode) as nat);
        assert(ib as nat == icn * 4);
    }
    let mut s = String::new();
    s.append(
        "{\"asset\":{\"version\":\"2.0\",\"generator\":\"DTD_WorldGenerator\"},\"scene\":0,\"scenes\":[{\"name\":\"H3_Scene\",\"nodes\":[0]}],\"nodes\":[{\"name\":\"H3_Polyhedron_Node\",\"mesh\":0}],\"meshes\":[{\"name\":\"H3_Polyhedron\",\"primitives\":[{\"attributes\":{\"POSITION\":0,\"",
    );
    s.append(
        match mesh.mode {
            AttributeMode::Uv => "TEXCOORD_0",
            AttributeMode::Color => "COLOR_0",
        },
    );
    s.append(
        "\":1},\"indices\":2,\"mode\":4}]}],\"accessors\":[{\"bufferView\":0,\"componentType\":5126,\"count\":",
    );
    push_decimal(&mut s, vcw);
    s.append(
        ",\"type\":\"VEC3\",\"byteOffset\":0},{\"bufferView\":1,\"componentType\":5126,\"count\":",
    );
    push_decimal(&mut s, vcw);
    s.append(",\"type\":\"");
    s.append(
        match mesh.mode {
            AttributeMode::Uv => "VEC2",
            AttributeMode::Color => "VEC3",
        },
    );
    s.append("\",\"byteOffset\":0},{\"bufferView\":2,\"componentType\":5125,\"count\":");
    push_decimal(&mut s, icw);
    s.append(
        ",\"type\":\"SCALAR\",\"byteOffset\":0}],\"bufferViews\":[{\"buffer\":0,\"byteOffset\":0,\"byteLength\":",
    );
    push_decimal(&mut s, vb);
    s.append(",\"byteStride\":12,\"target\":34962},{\"buffer\":0,\"byteOffset\":");
    push_decimal(&mut s, vb);
    s.append(",\"byteLength\":");
    push_decimal(&mut s, ab);
    s.append(",\"byteStride\":");
    push_decimal(&mut s, asz);
    s.append(",\"target\":34962},{\"buffer\":0,\"byteOffset\":");
    push_decimal(&mut s, vb + ab);
    s.append(",\"byteLength\":");
    push_decimal(&mut s, ib);
    s.append(",\"target\":34963}],\"buffers\":[{\"byteLength\":");
    push_decimal(&mut s, total);
    s.append(",\"uri\":\"");
    s.append(binary_filename);
    s.append("\"}]}");
    proof {
        assert(s@ == scene_json(vcn, icn, mesh.mode, binary_filename@));
    }
    Ok((s, bin))
}

} // verus!
