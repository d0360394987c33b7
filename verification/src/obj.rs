//! A reader for the OBJ mesh text format: `v`/`vt`/`vn` lines fill the
//! position, texture-coordinate, and normal tables, and `f` lines are
//! fan-triangulated into an index list over deduplicated vertices.
//!
//! Each table starts with a sentinel zero entry, so the format's 1-based
//! references work directly and a missing reference (index 0) lands on the
//! sentinel. Coordinates are decimal text read into the fixed-point scalar.

use vstd::prelude::*;

verus! {

use crate::render::Vertex;
use crate::vector::Vec2;
use crate::vector::Vec3;

/// The most lines read from one file.
pub const LINES_LIMIT: usize = 0x10_0000;

/// The most corners kept of one face.
pub const FACE_LIMIT: usize = 0x100;

/// One classified line of an OBJ file. A coordinate line whose payload
/// does not parse is `Malformed` and aborts the whole read.
#[derive(Clone, Debug, PartialEq, Eq)]
pub enum ObjLine {
    Position(Vec3),
    TexCoord(Vec2),
    Normal(Vec3),
    Face(Vec<(u32, u32, u32)>),
    Malformed,
    Other,
}

/// The assembler state: the three sentinel-prefixed tables, the keys of the
/// deduplicated vertices, the vertices themselves, and the indices.
pub type ObjTables = (Seq<Vec3>, Seq<Vec2>, Seq<Vec3>, Seq<(u32, u32, u32)>, Seq<Vertex>, Seq<u32>);

/// The assembler's starting state: each table holds only its sentinel.
pub open spec fn obj_init() -> ObjTables {
    (
        seq![Vec3 { x: 0i64, y: 0i64, z: 0i64 }],
        seq![Vec2 { x: 0i64, y: 0i64 }],
        seq![Vec3 { x: 0i64, y: 0i64, z: 0i64 }],
        Seq::<(u32, u32, u32)>::empty(),
        Seq::<Vertex>::empty(),
        Seq::<u32>::empty(),
    )
}

/// The position of the first occurrence of `key`, or -1 when absent.
pub open spec fn spec_key_index(keys: Seq<(u32, u32, u32)>, key: (u32, u32, u32)) -> int
    decreases keys.len(),
{
    if keys.len() == 0 {
        -1
    } else if keys[0] == key {
        0
    } else {
        let r = spec_key_index(keys.drop_first(), key);
        if r < 0 {
            -1
        } else {
            r + 1
        }
    }
}

/// A table lookup that falls back to the zero vector when out of range.
pub open spec fn spec_lookup3(tab: Seq<Vec3>, i: u32) -> Vec3 {
    if (i as int) < tab.len() {
        tab[i as int]
    } else {
        Vec3 { x: 0i64, y: 0i64, z: 0i64 }
    }
}

/// A table lookup that falls back to the zero vector when out of range.
pub open spec fn spec_lookup2(tab: Seq<Vec2>, i: u32) -> Vec2 {
    if (i as int) < tab.len() {
        tab[i as int]
    } else {
        Vec2 { x: 0i64, y: 0i64 }
    }
}

/// The vertex a face reference resolves to, through the three tables.
pub open spec fn spec_vertex_of(st: ObjTables, key: (u32, u32, u32)) -> Vertex {
    Vertex {
        position: spec_lookup3(st.0, key.0),
        tex_coord: spec_lookup2(st.1, key.1),
        normal: spec_lookup3(st.2, key.2),
    }
}

/// Whether all three of a fresh reference's table lookups are in range.
pub open spec fn spec_ref_in_range(st: ObjTables, key: (u32, u32, u32)) -> bool {
    &&& (key.0 as int) < st.0.len()
    &&& (key.1 as int) < st.1.len()
    &&& (key.2 as int) < st.2.len()
}

/// Resolve a run of face references in order: a seen key reuses its
/// vertex, a fresh in-range one appends its vertex and takes the next
/// index, and a fresh out-of-range one is dropped from the corner list.
pub open spec fn spec_add_refs(st: ObjTables, refs: Seq<(u32, u32, u32)>) -> (ObjTables, Seq<u32>)
    decreases refs.len(),
{
    if refs.len() == 0 {
        (st, Seq::<u32>::empty())
    } else {
        let key = refs[0];
        let at = spec_key_index(st.3, key);
        if at >= 0 {
            let rest = spec_add_refs(st, refs.drop_first());
            (rest.0, seq![at as u32] + rest.1)
        } else if spec_ref_in_range(st, key) {
            let st1 = (st.0, st.1, st.2, st.3.push(key), st.4.push(spec_vertex_of(st, key)), st.5);
            let rest = spec_add_refs(st1, refs.drop_first());
            (rest.0, seq![st.4.len() as u32] + rest.1)
        } else {
            spec_add_refs(st, refs.drop_first())
        }
    }
}

/// Fan triangulation from the first corner: the triangles
/// `(idxs[0], idxs[i], idxs[i+1])` for each `i` from 1 up.
pub open spec fn spec_fan(idxs: Seq<u32>, i: int) -> Seq<u32>
    decreases idxs.len() - i,
{
    if i < 1 || i + 1 >= idxs.len() {
        Seq::<u32>::empty()
    } else {
        seq![idxs[0], idxs[i], idxs[i + 1]] + spec_fan(idxs, i + 1)
    }
}

/// Apply one classified line to the assembler state; a face with fewer than
/// two references is malformed and aborts the parse.
pub open spec fn spec_obj_step(st: ObjTables, line: ObjLine) -> Option<ObjTables> {
    match line {
        ObjLine::Position(v) => Some((st.0.push(v), st.1, st.2, st.3, st.4, st.5)),
        ObjLine::TexCoord(v) => Some((st.0, st.1.push(v), st.2, st.3, st.4, st.5)),
        ObjLine::Normal(v) => Some((st.0, st.1, st.2.push(v), st.3, st.4, st.5)),
        ObjLine::Malformed => None,
        ObjLine::Other => Some(st),
        ObjLine::Face(refs) => {
            let run = spec_add_refs(st, refs@);
            if run.1.len() < 2 {
                None
            } else {
                Some((run.0.0, run.0.1, run.0.2, run.0.3, run.0.4, run.0.5 + spec_fan(run.1, 1)))
            }
        },
    }
}

/// Apply a whole file's classified lines in order.
pub open spec fn spec_obj_run(st: ObjTables, lines: Seq<ObjLine>) -> Option<ObjTables>
    decreases lines.len(),
{
    if lines.len() == 0 {
        Some(st)
    } else {
        match spec_obj_step(st, lines[0]) {
            None => None,
            Some(st1) => spec_obj_run(st1, lines.drop_first()),
        }
    }
}

/// What assembling a classified file yields: its vertices and indices, or
/// nothing when a face is malformed or no face produced an index.
pub open spec fn spec_assemble(lines: Seq<ObjLine>) -> Option<(Seq<Vertex>, Seq<u32>)> {
    match spec_obj_run(obj_init(), lines) {
        None => None,
        Some(st) => if st.5.len() == 0 {
            None
        } else {
            Some((st.4, st.5))
        },
    }
}

/// The keys and vertices stay in step, every index stays below the vertex
/// count, and the index count stays a multiple of three.
pub open spec fn tables_ok(st: ObjTables) -> bool {
    &&& st.3.len() == st.4.len()
    &&& st.4.len() <= 0xffff_ffff
    &&& (forall|i: int| 0 <= i < st.5.len() ==> (#[trigger] st.5[i] as int) < st.4.len())
    &&& st.5.len() % 3 == 0
}

/// A found key's position is below the table's length.
proof fn lemma_key_index_range(keys: Seq<(u32, u32, u32)>, key: (u32, u32, u32))
    ensures
        spec_key_index(keys, key) < keys.len(),
        spec_key_index(keys, key) >= -1,
    decreases keys.len(),
{
    if keys.len() > 0 && keys[0] != key {
        lemma_key_index_range(keys.drop_first(), key);
    }
}

/// Resolving references keeps the tables in step, only appends vertices,
/// and yields at most one index per reference, each below the new vertex
/// count.
proof fn lemma_add_refs_ok(st: ObjTables, refs: Seq<(u32, u32, u32)>)
    requires
        st.3.len() == st.4.len(),
    ensures
        ({
            let run = spec_add_refs(st, refs);
            &&& run.0.3.len() == run.0.4.len()
            &&& st.4.len() <= run.0.4.len() <= st.4.len() + refs.len()
            &&& run.1.len() <= refs.len()
            &&& (forall|i: int| 0 <= i < run.1.len() ==> (#[trigger] run.1[i] as int) < run.0.4.len())
            &&& run.0.5 == st.5
            &&& run.0.0 == st.0 && run.0.1 == st.1 && run.0.2 == st.2
        }),
    decreases refs.len(),
{
    if refs.len() > 0 {
        let key = refs[0];
        lemma_key_index_range(st.3, key);
        let at = spec_key_index(st.3, key);
        if at >= 0 {
            lemma_add_refs_ok(st, refs.drop_first());
        } else if spec_ref_in_range(st, key) {
            let st1 = (st.0, st.1, st.2, st.3.push(key), st.4.push(spec_vertex_of(st, key)), st.5);
            lemma_add_refs_ok(st1, refs.drop_first());
        } else {
            lemma_add_refs_ok(st, refs.drop_first());
        }
    }
}

/// Fan triangulation emits triples of the given indices.
proof fn lemma_fan_ok(idxs: Seq<u32>, i: int, bound: int)
    requires
        forall|k: int| 0 <= k < idxs.len() ==> (#[trigger] idxs[k] as int) < bound,
        idxs.len() > 0,
    ensures
        spec_fan(idxs, i).len() % 3 == 0,
        forall|k: int|
            0 <= k < spec_fan(idxs, i).len() ==> (#[trigger] spec_fan(idxs, i)[k] as int) < bound,
    decreases idxs.len() - i,
{
    if !(i < 1 || i + 1 >= idxs.len()) {
        lemma_fan_ok(idxs, i + 1, bound);
        assert(spec_fan(idxs, i).len() == 3 + spec_fan(idxs, i + 1).len());
    }
}

/// A run of the assembler keeps the tables sound.
proof fn lemma_obj_run_ok(st: ObjTables, lines: Seq<ObjLine>)
    requires
        tables_ok(st),
        st.4.len() + (FACE_LIMIT as int) * lines.len() <= 0xffff_ffff,
        forall|i: int|
            0 <= i < lines.len() ==> ((#[trigger] lines[i]) matches ObjLine::Face(refs)
                ==> refs@.len() <= FACE_LIMIT as int),
    ensures
        spec_obj_run(st, lines) matches Some(st1) ==> tables_ok(st1),
    decreases lines.len(),
{
    if lines.len() > 0 {
        match spec_obj_step(st, lines[0]) {
            None => {},
            Some(st1) => {
                assert(tables_ok(st1) && st1.4.len() <= st.4.len() + FACE_LIMIT as int) by {
                    match lines[0] {
                        ObjLine::Face(refs) => {
                            lemma_add_refs_ok(st, refs@);
                            let run = spec_add_refs(st, refs@);
                            lemma_fan_ok(run.1, 1, run.0.4.len() as int);
                            assert(forall|i: int|
                                0 <= i < st.5.len() ==> (#[trigger] st.5[i] as int)
                                    < run.0.4.len());
                            assert(st1.5 == st.5 + spec_fan(run.1, 1));
                        },
                        _ => {},
                    }
                }
                lemma_obj_run_ok(st1, lines.drop_first());
            },
        }
    }
}

/// The position of the first occurrence of `key` in the key list, if any.
fn find_key(keys: &Vec<(u32, u32, u32)>, key: (u32, u32, u32)) -> (r: Option<usize>)
    ensures
        spec_key_index(keys@, key) >= 0 ==> r == Some(spec_key_index(keys@, key) as usize),
        spec_key_index(keys@, key) < 0 ==> r is None,
{
    let n = keys.len();
    let mut i: usize = 0;
    proof {
        assert(keys@.skip(0) =~= keys@);
    }
    while i < n
        invariant
            i <= n,
            n == keys@.len(),
            ({
                let whole = spec_key_index(keys@, key);
                let rest = spec_key_index(keys@.skip(i as int), key);
                &&& (whole >= 0 ==> rest >= 0 && whole == i + rest)
                &&& (whole < 0 ==> rest < 0)
            }),
        decreases n - i,
    {
        proof {
            assert(keys@.skip(i as int)[0] == keys@[i as int]);
            assert(keys@.skip(i as int).drop_first() =~= keys@.skip(i as int + 1));
            lemma_key_index_range(keys@.skip(i as int + 1), key);
        }
        let k = keys[i];
        if k.0 == key.0 && k.1 == key.1 && k.2 == key.2 {
            proof {
                assert(keys@[i as int] == key);
                assert(spec_key_index(keys@.skip(i as int), key) == 0);
            }
            return Some(i);
        }
        proof {
            assert(keys@[i as int] != key);
        }
        i += 1;
    }
    proof {
        assert(keys@.skip(n as int).len() == 0);
    }
    None
}

/// Assemble classified OBJ lines into a vertex and index buffer, exactly as
/// `spec_assemble` says: sentinel-prefixed tables, first-occurrence vertex
/// deduplication, and fan triangulation of each face.
#[verifier::rlimit(100)]
pub fn assemble_obj(lines: &Vec<ObjLine>) -> (r: Option<(Vec<Vertex>, Vec<u32>)>)
    requires
        lines@.len() <= LINES_LIMIT as int,
        forall|i: int|
            0 <= i < lines@.len() ==> ((#[trigger] lines@[i]) matches ObjLine::Face(refs)
                ==> refs@.len() <= FACE_LIMIT as int),
    ensures
        ({
            let s = spec_assemble(lines@);
            match r {
                Some(out) => s matches Some(sp) && out.0@ == sp.0 && out.1@ == sp.1,
                None => s is None,
            }
        }),
{
    let mut positions: Vec<Vec3> = Vec::new();
    positions.push(Vec3 { x: 0, y: 0, z: 0 });
    let mut texcoords: Vec<Vec2> = Vec::new();
    texcoords.push(Vec2 { x: 0, y: 0 });
    let mut normals: Vec<Vec3> = Vec::new();
    normals.push(Vec3 { x: 0, y: 0, z: 0 });
    let mut keys: Vec<(u32, u32, u32)> = Vec::new();
    let mut vertices: Vec<Vertex> = Vec::new();
    let mut indices: Vec<u32> = Vec::new();
    proof {
        assert(positions@ =~= obj_init().0);
        assert(texcoords@ =~= obj_init().1);
        assert(normals@ =~= obj_init().2);
        assert(lines@.skip(0) =~= lines@);
    }
    let n = lines.len();
    let mut li: usize = 0;
    while li < n
        invariant
            li <= n,
            n == lines@.len(),
            lines@.len() <= LINES_LIMIT as int,
            forall|i: int|
                0 <= i < lines@.len() ==> ((#[trigger] lines@[i]) matches ObjLine::Face(refs)
                    ==> refs@.len() <= FACE_LIMIT as int),
            spec_obj_run(obj_init(), lines@) == spec_obj_run(
                (positions@, texcoords@, normals@, keys@, vertices@, indices@),
                lines@.skip(li as int),
            ),
            tables_ok((positions@, texcoords@, normals@, keys@, vertices@, indices@)),
            vertices@.len() + (FACE_LIMIT as int) * (lines@.len() - li) <= 0xffff_ffff,
        decreases n - li,
    {
        let ghost st: ObjTables = (positions@, texcoords@, normals@, keys@, vertices@, indices@);
        proof {
            assert(lines@.skip(li as int)[0] == lines@[li as int]);
            assert(lines@.skip(li as int).drop_first() =~= lines@.skip(li as int + 1));
        }
        let line = &lines[li];
        match line {
            ObjLine::Position(v) => {
                positions.push(*v);
            },
            ObjLine::TexCoord(v) => {
                texcoords.push(*v);
            },
            ObjLine::Normal(v) => {
                normals.push(*v);
            },
            ObjLine::Other => {},
            ObjLine::Malformed => {
                proof {
                    assert(spec_obj_step(st, lines@[li as int]) is None);
                    assert(spec_obj_run(obj_init(), lines@) is None);
                }
                return None;
            },
            ObjLine::Face(refs) => {
                let m = refs.len();
                let mut idxs: Vec<u32> = Vec::new();
                let mut ri: usize = 0;
                proof {
                    assert(refs@.skip(0) =~= refs@);
                    lemma_add_refs_ok(st, refs@);
                }
                while ri < m
                    invariant
                        ri <= m,
                        m == refs@.len(),
                        m <= FACE_LIMIT,
                        positions@ == st.0 && texcoords@ == st.1 && normals@ == st.2,
                        indices@ == st.5,
                        keys@.len() == vertices@.len(),
                        st.3.len() == st.4.len(),
                        vertices@.len() <= st.4.len() + ri,
                        st.4.len() + (FACE_LIMIT as int) <= 0xffff_ffff,
                        idxs@.len() <= ri,
                        ({
                            let whole = spec_add_refs(st, refs@);
                            let rest = spec_add_refs(
                                (positions@, texcoords@, normals@, keys@, vertices@, indices@),
                                refs@.skip(ri as int),
                            );
                            whole.0 == rest.0 && whole.1 == idxs@ + rest.1
                        }),
                    decreases m - ri,
                {
                    let ghost cur: ObjTables = (
                        positions@,
                        texcoords@,
                        normals@,
                        keys@,
                        vertices@,
                        indices@,
                    );
                    proof {
                        assert(refs@.skip(ri as int)[0] == refs@[ri as int]);
                        assert(refs@.skip(ri as int).drop_first() =~= refs@.skip(ri as int + 1));
                        lemma_key_index_range(keys@, refs@[ri as int]);
                    }
                    let key = refs[ri];
                    let found = find_key(&keys, key);
                    let ghost prev_idxs = idxs@;
                    match found {
                        Some(at) => {
                            idxs.push(at as u32);
                            proof {
                                let next = spec_add_refs(cur, refs@.skip(ri as int + 1));
                                assert(prev_idxs + (seq![(at as u32)] + next.1) =~= idxs@
                                    + next.1);
                            }
                        },
                        None => {
                            if (key.0 as usize) < positions.len() && (key.1 as usize)
                                < texcoords.len() && (key.2 as usize) < normals.len() {
                                let v = Vertex {
                                    position: positions[key.0 as usize],
                                    tex_coord: texcoords[key.1 as usize],
                                    normal: normals[key.2 as usize],
                                };
                                proof {
                                    assert(spec_ref_in_range(cur, key));
                                    assert(v == spec_vertex_of(cur, key));
                                }
                                let fresh = vertices.len() as u32;
                                keys.push(key);
                                vertices.push(v);
                                idxs.push(fresh);
                                proof {
                                    let next = spec_add_refs(
                                        (
                                            positions@,
                                            texcoords@,
                                            normals@,
                                            keys@,
                                            vertices@,
                                            indices@,
                                        ),
                                        refs@.skip(ri as int + 1),
                                    );
                                    assert(prev_idxs + (seq![fresh] + next.1) =~= idxs@ + next.1);
                                }
                            } else {
                                proof {
                                    assert(!spec_ref_in_range(cur, key));
                                }
                            }
                        },
                    }
                    ri += 1;
                }
                proof {
                    assert(refs@.skip(m as int).len() == 0);
                    assert(idxs@ + Seq::<u32>::empty() =~= idxs@);
                    assert(spec_add_refs(st, refs@).1 == idxs@);
                    assert(spec_add_refs(st, refs@).0 == (
                        positions@,
                        texcoords@,
                        normals@,
                        keys@,
                        vertices@,
                        indices@,
                    ));
                }
                let mi = idxs.len();
                if mi < 2 {
                    proof {
                        assert(spec_obj_step(st, lines@[li as int]) is None);
                        assert(spec_obj_run(obj_init(), lines@) is None);
                    }
                    return None;
                }
                let ghost before_fan = indices@;
                let mut fi: usize = 1;
                while fi < mi - 1
                    invariant
                        1 <= fi <= mi,
                        mi == idxs@.len(),
                        2 <= mi,
                        before_fan + spec_fan(idxs@, 1) == indices@ + spec_fan(idxs@, fi as int),
                        indices@.len() == before_fan.len() + 3 * (fi - 1),
                    decreases mi - fi,
                {
                    indices.push(idxs[0]);
                    indices.push(idxs[fi]);
                    indices.push(idxs[fi + 1]);
                    proof {
                        let ghost tail = spec_fan(idxs@, fi as int + 1);
                        assert(spec_fan(idxs@, fi as int) == seq![
                            idxs@[0],
                            idxs@[fi as int],
                            idxs@[fi as int + 1],
                        ] + tail);
                        assert(before_fan + spec_fan(idxs@, 1) =~= indices@ + tail);
                    }
                    fi += 1;
                }
                proof {
                    assert(spec_fan(idxs@, fi as int) =~= Seq::<u32>::empty());
                    assert(indices@ =~= before_fan + spec_fan(idxs@, 1));
                    lemma_fan_ok(idxs@, 1, vertices@.len() as int);
                    assert((positions@, texcoords@, normals@, keys@, vertices@, indices@)
                        == spec_obj_step(st, lines@[li as int]).unwrap());
                }
            },
        }
        proof {
            assert(tables_ok((positions@, texcoords@, normals@, keys@, vertices@, indices@)));
        }
        li += 1;
    }
    proof {
        assert(lines@.skip(n as int).len() == 0);
    }
    if indices.len() == 0 {
        return None;
    }
    Some((vertices, indices))
}

/// Every byte is a decimal digit.
pub open spec fn all_digits(s: Seq<u8>) -> bool {
    forall|i: int| 0 <= i < s.len() ==> 48 <= #[trigger] s[i] <= 57
}

/// The value of a digit string, most significant first.
pub open spec fn digits_val(s: Seq<u8>) -> int
    decreases s.len(),
{
    if s.len() == 0 {
        0
    } else {
        digits_val(s.drop_last()) * 10 + (s.last() - 48)
    }
}

/// Digit strings have nonnegative values.
proof fn lemma_digits_nonneg(s: Seq<u8>)
    requires
        all_digits(s),
    ensures
        digits_val(s) >= 0,
    decreases s.len(),
{
    if s.len() > 0 {
        assert(all_digits(s.drop_last()));
        lemma_digits_nonneg(s.drop_last());
    }
}

/// A digit string is worth at least any of its prefixes.
proof fn lemma_digits_monotone(s: Seq<u8>, k: int)
    requires
        all_digits(s),
        0 <= k <= s.len(),
    ensures
        digits_val(s.take(k)) <= digits_val(s),
    decreases s.len() - k,
{
    if k < s.len() {
        assert(all_digits(s.take(k)));
        lemma_digits_nonneg(s.take(k));
        assert(s.take(k + 1).drop_last() =~= s.take(k));
        assert(s.take(k + 1).last() == s[k]);
        lemma_digits_monotone(s, k + 1);
    } else {
        assert(s.take(k) =~= s);
    }
}

/// Read an unsigned decimal: the digits' value when the token is nonempty,
/// all digits, and in range; zero otherwise.
pub fn parse_u32(tok: &[u8]) -> (r: u32)
    ensures
        r == spec_parse_u32(tok@),
{
    let n = tok.len();
    if n == 0 {
        return 0;
    }
    let mut acc: u64 = 0;
    let mut i: usize = 0;
    proof {
        assert(tok@.take(0) =~= Seq::<u8>::empty());
    }
    while i < n
        invariant
            i <= n,
            n == tok@.len(),
            all_digits(tok@.take(i as int)),
            acc as int == digits_val(tok@.take(i as int)),
            acc <= 0xffff_ffff,
        decreases n - i,
    {
        let b = tok[i];
        proof {
            assert(tok@.take(i as int + 1).drop_last() =~= tok@.take(i as int));
            assert(tok@.take(i as int + 1).last() == tok@[i as int]);
        }
        if b < 48 || b > 57 {
            proof {
                assert(!all_digits(tok@));
            }
            return 0;
        }
        let next = acc * 10 + ((b - 48) as u64);
        if next > 0xffff_ffff {
            proof {
                if all_digits(tok@) {
                    lemma_digits_monotone(tok@, i as int + 1);
                }
            }
            return 0;
        }
        acc = next;
        i += 1;
    }
    proof {
        assert(tok@.take(n as int) =~= tok@);
    }
    acc as u32
}

/// The digit prefix is well formed: within bounds, all digits, and ended
/// by the stream's end or a non-digit.
proof fn lemma_digit_prefix_props(s: Seq<u8>)
    ensures
        0 <= digit_prefix_len(s) <= s.len(),
        all_digits(s.take(digit_prefix_len(s))),
        digit_prefix_len(s) == s.len() || !(48 <= s[digit_prefix_len(s)] <= 57),
    decreases s.len(),
{
    if !(s.len() == 0 || !(48 <= s[0] <= 57)) {
        lemma_digit_prefix_props(s.drop_first());
        let k = digit_prefix_len(s);
        assert(s.take(k).drop_first() =~= s.drop_first().take(k - 1));
        assert forall|j: int| 0 <= j < k implies 48 <= #[trigger] s.take(k)[j] <= 57 by {
            if j > 0 {
                assert(s.take(k)[j] == s.drop_first().take(k - 1)[j - 1]);
            }
        }
    }
}

/// An all-digit prefix never outruns the digit prefix.
proof fn lemma_digit_prefix_lower(s: Seq<u8>, m: int)
    requires
        0 <= m <= s.len(),
        all_digits(s.take(m)),
    ensures
        digit_prefix_len(s) >= m,
    decreases m,
{
    lemma_digit_prefix_props(s);
    if m > 0 {
        assert(s.take(m)[0] == s[0]);
        assert(s.drop_first().take(m - 1) =~= s.take(m).drop_first());
        assert(all_digits(s.drop_first().take(m - 1))) by {
            assert forall|j: int| 0 <= j < m - 1 implies 48 <= #[trigger] s.drop_first().take(
                m - 1,
            )[j] <= 57 by {
                assert(s.drop_first().take(m - 1)[j] == s.take(m)[j + 1]);
            }
        }
        lemma_digit_prefix_lower(s.drop_first(), m - 1);
    }
}

/// An all-digit prefix ended by the stream's end or a non-digit is the
/// digit prefix.
proof fn lemma_digit_prefix_exact(s: Seq<u8>, k: int)
    requires
        0 <= k <= s.len(),
        all_digits(s.take(k)),
        k == s.len() || !(48 <= s[k] <= 57),
    ensures
        digit_prefix_len(s) == k,
{
    lemma_digit_prefix_lower(s, k);
    lemma_digit_prefix_props(s);
    if digit_prefix_len(s) > k {
        assert(s.take(digit_prefix_len(s))[k] == s[k]);
    }
}

/// Read a signed decimal with an optional fraction into the fixed-point
/// scalar, exactly as `spec_parse_fixed` says: the fraction keeps six
/// digits. Malformed, digitless, or oversized text reads as nothing.
#[verifier::rlimit(100)]
pub fn parse_fixed(tok: &[u8]) -> (r: Option<i64>)
    ensures
        r is Some <==> spec_fixed_valid(tok@),
        r matches Some(v) ==> v == spec_parse_fixed(tok@) && -0x8000_0000_0000 <= v
            <= 0x8000_0000_0000,
{
    let n = tok.len();
    let mut neg = false;
    let mut start: usize = 0;
    if n > 0 && tok[0] == 45 {
        neg = true;
        start = 1;
    }
    let ghost body: Seq<u8> = if neg {
        tok@.drop_first()
    } else {
        tok@
    };
    proof {
        assert(body =~= tok@.skip(start as int));
    }
    let mut i: usize = start;
    let mut int_acc: u64 = 0;
    proof {
        assert(tok@.subrange(start as int, start as int) =~= Seq::<u8>::empty());
    }
    while i < n && 48 <= tok[i] && tok[i] <= 57
        invariant
            start <= i <= n,
            n == tok@.len(),
            start <= 1,
            neg ==> start == 1,
            !neg ==> start == 0,
            neg == (tok@.len() > 0 && tok@[0] == 45),
            body == tok@.skip(start as int),
            all_digits(tok@.subrange(start as int, i as int)),
            int_acc as int == digits_val(tok@.subrange(start as int, i as int)),
            int_acc <= 0x7fff_ffff,
        decreases n - i,
    {
        proof {
            assert(tok@.subrange(start as int, i as int + 1).drop_last() =~= tok@.subrange(
                start as int,
                i as int,
            ));
            assert(tok@.subrange(start as int, i as int + 1).last() == tok@[i as int]);
            assert(all_digits(tok@.subrange(start as int, i as int + 1)));
        }
        let next = int_acc * 10 + ((tok[i] - 48) as u64);
        if next > 0x7fff_ffff {
            proof {
                let m = i as int + 1 - start;
                assert(body.take(m) =~= tok@.subrange(start as int, i as int + 1));
                lemma_digit_prefix_lower(body, m);
                lemma_digit_prefix_props(body);
                let k = digit_prefix_len(body);
                lemma_digits_monotone(body.take(k), m);
                assert(body.take(k).take(m) =~= body.take(m));
                assert(digits_val(body.take(m)) == next);
                assert(digits_val(body.take(k)) > 0x7fff_ffff);
                assert(tok@.skip(1) =~= tok@.drop_first());
                assert(tok@.skip(0) =~= tok@);
                assert(!spec_fixed_valid(tok@));
            }
            return None;
        }
        int_acc = next;
        i += 1;
    }
    let int_len = i - start;
    proof {
        assert(body.take(int_len as int) =~= tok@.subrange(start as int, i as int));
        if (i as int) < n {
            assert(body[int_len as int] == tok@[i as int]);
        }
        lemma_digit_prefix_exact(body, int_len as int);
    }
    let mut frac_acc: u64 = 0;
    let mut fcount: u64 = 0;
    let mut fall: usize = 0;
    let mut had_dot = false;
    let mut fstart: usize = i;
    if i < n && tok[i] == 46 {
        had_dot = true;
        i += 1;
        fstart = i;
        proof {
            assert(tok@.subrange(fstart as int, fstart as int) =~= Seq::<u8>::empty());
        }
        while i < n && 48 <= tok[i] && tok[i] <= 57
            invariant
                fstart <= i <= n,
                n == tok@.len(),
                all_digits(tok@.subrange(fstart as int, i as int)),
                fcount as int == if i - fstart > 6 {
                    6int
                } else {
                    i - fstart
                },
                frac_acc as int == digits_val(
                    tok@.subrange(fstart as int, fstart as int + fcount as int),
                ),
                (frac_acc as int) < pow10(fcount as int),
                frac_acc <= 999999,
                fcount <= 6,
            decreases n - i,
        {
            proof {
                assert(tok@.subrange(fstart as int, i as int + 1).drop_last() =~= tok@.subrange(
                    fstart as int,
                    i as int,
                ));
                assert(tok@.subrange(fstart as int, i as int + 1).last() == tok@[i as int]);
                assert(all_digits(tok@.subrange(fstart as int, i as int + 1)));
                if fcount < 6 {
                    assert(tok@.subrange(fstart as int, fstart as int + fcount as int + 1)
                        .drop_last() =~= tok@.subrange(
                        fstart as int,
                        fstart as int + fcount as int,
                    ));
                    assert(tok@.subrange(fstart as int, fstart as int + fcount as int + 1).last()
                        == tok@[fstart as int + fcount as int]);
                }
                assert(pow10(0) == 1);
                assert(pow10(1) == 10);
                assert(pow10(2) == 100);
                assert(pow10(3) == 1000);
                assert(pow10(4) == 10000);
                assert(pow10(5) == 100000);
                assert(pow10(6) == 1000000);
            }
            if fcount < 6 {
                frac_acc = frac_acc * 10 + ((tok[i] - 48) as u64);
                fcount = fcount + 1;
            }
            i += 1;
        }
        fall = i - fstart;
    }
    let ghost k = int_len as int;
    let ghost rest = body.skip(k);
    if i != n {
        proof {
            if !had_dot {
                assert(rest[0] == tok@[i as int]);
                assert(rest[0] != 46);
            } else {
                assert(rest.drop_first() =~= tok@.skip(fstart as int));
                assert(rest.drop_first()[i - fstart] == tok@[i as int]);
                assert(!all_digits(rest.drop_first()));
            }
            assert(!spec_fixed_valid(tok@));
        }
        return None;
    }
    let seen = int_len > 0 || (had_dot && fall > 0);
    proof {
        if had_dot {
            assert(rest[0] == tok@[(start + int_len) as int]);
            assert(rest.drop_first() =~= tok@.skip(fstart as int));
            assert(rest.len() == 1 + fall);
        } else {
            assert(rest.len() == 0);
        }
    }
    if !seen {
        proof {
            assert(!spec_fixed_valid(tok@));
        }
        return None;
    }
    proof {
        assert(pow10(0) == 1);
        assert(pow10(1) == 10);
        assert(pow10(2) == 100);
        assert(pow10(3) == 1000);
        assert(pow10(4) == 10000);
        assert(pow10(5) == 100000);
        assert(pow10(6) == 1000000);
        // The kept fraction digits are exactly the first six after the point.
        let fd_all: Seq<u8> = if rest.len() == 0 {
            Seq::<u8>::empty()
        } else {
            rest.drop_first()
        };
        let fd: Seq<u8> = if fd_all.len() > 6 {
            fd_all.take(6)
        } else {
            fd_all
        };
        assert(fd =~= tok@.subrange(fstart as int, fstart as int + fcount as int));
    }
    let scale: u64 = if fcount == 0 {
        1
    } else if fcount == 1 {
        10
    } else if fcount == 2 {
        100
    } else if fcount == 3 {
        1000
    } else if fcount == 4 {
        10000
    } else if fcount == 5 {
        100000
    } else {
        1000000
    };
    proof {
        vstd::arithmetic::div_mod::lemma_div_is_ordered_by_denominator(
            (frac_acc * 65536) as int,
            1,
            scale as int,
        );
    }
    let frac_fixed = (frac_acc * 65536) / scale;
    let mag = int_acc * 65536 + frac_fixed;
    if mag > 0x8000_0000_0000 {
        proof {
            assert(!spec_fixed_valid(tok@));
        }
        return None;
    }
    proof {
        assert(spec_fixed_valid(tok@));
    }
    if neg {
        Some(-(mag as i64))
    } else {
        Some(mag as i64)
    }
}

/// A prefix free of `b` and ended by the stream's end or by `b` is the
/// longest such prefix.
proof fn lemma_until_exact(s: Seq<u8>, b: u8, k: int)
    requires
        0 <= k <= s.len(),
        forall|j: int| 0 <= j < k ==> s[j] != b,
        k == s.len() || s[k] == b,
    ensures
        until_byte(s, b) == k,
    decreases k,
{
    if k > 0 {
        assert forall|j: int| 0 <= j < k - 1 implies s.drop_first()[j] != b by {
            assert(s.drop_first()[j] == s[j + 1]);
        }
        if k < s.len() {
            assert(s.drop_first()[k - 1] == s[k]);
        }
        lemma_until_exact(s.drop_first(), b, k - 1);
    }
}

/// The position of the first `b` at or after `from`, or the length.
fn find_byte(s: &[u8], from: usize, b: u8) -> (r: usize)
    requires
        from <= s@.len(),
    ensures
        from <= r <= s@.len(),
        forall|j: int| from <= j < r ==> s@[j] != b,
        r < s@.len() ==> s@[r as int] == b,
        r as int - from == until_byte(s@.skip(from as int), b),
{
    let n = s.len();
    let mut i: usize = from;
    while i < n
        invariant
            from <= i <= n,
            n == s@.len(),
            forall|j: int| from <= j < i ==> s@[j] != b,
        decreases n - i,
    {
        if s[i] == b {
            proof {
                assert forall|j: int| 0 <= j < i - from implies s@.skip(from as int)[j] != b by {
                    assert(s@.skip(from as int)[j] == s@[j + from]);
                }
                assert(s@.skip(from as int)[i - from] == s@[i as int]);
                lemma_until_exact(s@.skip(from as int), b, i as int - from);
            }
            return i;
        }
        i += 1;
    }
    proof {
        assert forall|j: int| 0 <= j < n - from implies s@.skip(from as int)[j] != b by {
            assert(s@.skip(from as int)[j] == s@[j + from]);
        }
        lemma_until_exact(s@.skip(from as int), b, n as int - from);
    }
    n
}

/// A copy of one byte range.
fn sub_bytes(s: &[u8], from: usize, to: usize) -> (r: Vec<u8>)
    requires
        from <= to <= s@.len(),
    ensures
        r@ == s@.subrange(from as int, to as int),
{
    let mut r: Vec<u8> = Vec::new();
    let mut i: usize = from;
    proof {
        assert(r@ =~= s@.subrange(from as int, from as int));
    }
    while i < to
        invariant
            from <= i <= to,
            to <= s@.len(),
            r@ == s@.subrange(from as int, i as int),
        decreases to - i,
    {
        r.push(s[i]);
        proof {
            assert(r@ =~= s@.subrange(from as int, i as int + 1));
        }
        i += 1;
    }
    r
}

/// Read one face corner, `position[/texcoord[/normal]]`, exactly as
/// `spec_parse_ref` says: each part an unsigned decimal, absent or
/// malformed parts reading as zero, parts past the third slash ignored.
fn parse_ref(tok: &[u8]) -> (r: (u32, u32, u32))
    ensures
        r == spec_parse_ref(tok@),
{
    let n = tok.len();
    let ka = find_byte(tok, 0, 47);
    proof {
        assert(tok@.skip(0) =~= tok@);
        assert(tok@.subrange(0, ka as int) =~= tok@.take(ka as int));
    }
    let a = sub_bytes(tok, 0, ka);
    if ka == n {
        (parse_u32(a.as_slice()), parse_u32(&[]), parse_u32(&[]))
    } else {
        let kb = find_byte(tok, ka + 1, 47);
        proof {
            let r1 = tok@.skip(ka as int + 1);
            assert(r1.take(kb - ka - 1) =~= tok@.subrange(ka as int + 1, kb as int));
        }
        let b2 = sub_bytes(tok, ka + 1, kb);
        if kb == n {
            (parse_u32(a.as_slice()), parse_u32(b2.as_slice()), parse_u32(&[]))
        } else {
            let kc = find_byte(tok, kb + 1, 47);
            proof {
                let r1 = tok@.skip(ka as int + 1);
                let r2 = r1.skip(kb - ka - 1 + 1);
                assert(r2 =~= tok@.skip(kb as int + 1));
                assert forall|j: int| 0 <= j < kc - kb - 1 implies r2[j] != 47 by {
                    assert(r2[j] == tok@[j + kb + 1]);
                }
                if (kc as int) < n {
                    assert(r2[kc - kb - 1] == tok@[kc as int]);
                }
                lemma_until_exact(r2, 47, kc as int - kb - 1);
                assert(r2.take(kc - kb - 1) =~= tok@.subrange(kb as int + 1, kc as int));
            }
            let c = sub_bytes(tok, kb + 1, kc);
            (parse_u32(a.as_slice()), parse_u32(b2.as_slice()), parse_u32(c.as_slice()))
        }
    }
}

/// Classify one line's tokens by their leading keyword, exactly as
/// `classifies` relates them.
fn classify_tokens(toks: &Vec<Vec<u8>>) -> (r: ObjLine)
    ensures
        classifies(toks@.map_values(|t: Vec<u8>| t@), r),
        r matches ObjLine::Face(refs) ==> refs@.len() <= FACE_LIMIT as int,
{
    let ghost tv = toks@.map_values(|t: Vec<u8>| t@);
    if toks.len() == 0 {
        return ObjLine::Other;
    }
    proof {
        assert(tv[0] == toks@[0]@);
    }
    let t0 = toks[0].as_slice();
    let is_v = t0.len() == 1 && t0[0] == 118;
    let is_vt = t0.len() == 2 && t0[0] == 118 && t0[1] == 116;
    let is_vn = t0.len() == 2 && t0[0] == 118 && t0[1] == 110;
    let is_f = t0.len() == 1 && t0[0] == 102;
    proof {
        if is_v {
            assert(tv[0] =~= seq![118u8]);
        } else {
            assert(tv[0] != seq![118u8]) by {
                if tv[0] == seq![118u8] {
                    assert(tv[0].len() == 1 && tv[0][0] == 118);
                }
            }
        }
        if is_vt {
            assert(tv[0] =~= seq![118u8, 116u8]);
        } else {
            assert(tv[0] != seq![118u8, 116u8]) by {
                if tv[0] == seq![118u8, 116u8] {
                    assert(tv[0].len() == 2 && tv[0][0] == 118 && tv[0][1] == 116);
                }
            }
        }
        if is_vn {
            assert(tv[0] =~= seq![118u8, 110u8]);
        } else {
            assert(tv[0] != seq![118u8, 110u8]) by {
                if tv[0] == seq![118u8, 110u8] {
                    assert(tv[0].len() == 2 && tv[0][0] == 118 && tv[0][1] == 110);
                }
            }
        }
        if is_f {
            assert(tv[0] =~= seq![102u8]);
        } else {
            assert(tv[0] != seq![102u8]) by {
                if tv[0] == seq![102u8] {
                    assert(tv[0].len() == 1 && tv[0][0] == 102);
                }
            }
        }
    }
        if is_v {
        if toks.len() >= 4 {
            proof {
                assert(tv[1] == toks@[1]@);
                assert(tv[2] == toks@[2]@);
                assert(tv[3] == toks@[3]@);
            }
            let x = parse_fixed(toks[1].as_slice());
            let y = parse_fixed(toks[2].as_slice());
            let z = parse_fixed(toks[3].as_slice());
            match (x, y, z) {
                (Some(xv), Some(yv), Some(zv)) => ObjLine::Position(
                    Vec3 { x: xv, y: yv, z: zv },
                ),
                _ => ObjLine::Malformed,
            }
        } else {
            ObjLine::Malformed
        }
    } else if is_vt {
        if toks.len() >= 3 {
            proof {
                assert(tv[1] == toks@[1]@);
                assert(tv[2] == toks@[2]@);
            }
            let x = parse_fixed(toks[1].as_slice());
            let y = parse_fixed(toks[2].as_slice());
            match (x, y) {
                (Some(xv), Some(yv)) => ObjLine::TexCoord(Vec2 { x: xv, y: yv }),
                _ => ObjLine::Malformed,
            }
        } else {
            ObjLine::Malformed
        }
    } else if is_vn {
        if toks.len() >= 4 {
            proof {
                assert(tv[1] == toks@[1]@);
                assert(tv[2] == toks@[2]@);
                assert(tv[3] == toks@[3]@);
            }
            let x = parse_fixed(toks[1].as_slice());
            let y = parse_fixed(toks[2].as_slice());
            let z = parse_fixed(toks[3].as_slice());
            match (x, y, z) {
                (Some(xv), Some(yv), Some(zv)) => ObjLine::Normal(Vec3 { x: xv, y: yv, z: zv }),
                _ => ObjLine::Malformed,
            }
        } else {
            ObjLine::Malformed
        }
    } else if is_f {
        let m = toks.len();
        let mut refs: Vec<(u32, u32, u32)> = Vec::new();
        let mut k: usize = 1;
        while k < m
            invariant
                1 <= k <= m,
                m == toks@.len(),
                tv == toks@.map_values(|t: Vec<u8>| t@),
                refs@.len() == if k - 1 > FACE_LIMIT as int {
                    FACE_LIMIT as int
                } else {
                    k - 1
                },
                forall|j: int|
                    0 <= j < refs@.len() ==> #[trigger] refs@[j] == spec_parse_ref(tv[j + 1]),
            decreases m - k,
        {
            if refs.len() < FACE_LIMIT {
                proof {
                    assert(tv[k as int] == toks@[k as int]@);
                }
                let one = parse_ref(toks[k].as_slice());
                refs.push(one);
            }
            k += 1;
        }
        proof {
            assert(refs@ =~= spec_face_refs(tv));
        }
        ObjLine::Face(refs)
    } else {
        ObjLine::Other
    }
}

/// Split one line into its blank-separated tokens, exactly as
/// `spec_tokens` says.
fn tokenize_line(line: &[u8]) -> (toks: Vec<Vec<u8>>)
    ensures
        toks@.map_values(|t: Vec<u8>| t@) == spec_tokens(line@),
{
    let mut toks: Vec<Vec<u8>> = Vec::new();
    let mut cur: Vec<u8> = Vec::new();
    let n = line.len();
    let mut i: usize = 0;
    proof {
        assert(line@.skip(0) =~= line@);
        assert(toks@.map_values(|t: Vec<u8>| t@) =~= Seq::<Seq<u8>>::empty());
    }
    while i < n
        invariant
            i <= n,
            n == line@.len(),
            spec_tokens(line@) == toks@.map_values(|t: Vec<u8>| t@) + spec_tokens_from(
                line@.skip(i as int),
                cur@,
            ),
        decreases n - i,
    {
        proof {
            assert(line@.skip(i as int)[0] == line@[i as int]);
            assert(line@.skip(i as int).drop_first() =~= line@.skip(i as int + 1));
        }
        let b = line[i];
        if b == 32 || b == 13 || b == 9 {
            if cur.len() > 0 {
                let ghost prev = toks@.map_values(|t: Vec<u8>| t@);
                let ghost curv = cur@;
                toks.push(cur);
                cur = Vec::new();
                proof {
                    assert(toks@.map_values(|t: Vec<u8>| t@) =~= prev.push(curv));
                    assert(prev + (seq![curv] + spec_tokens_from(
                        line@.skip(i as int + 1),
                        Seq::<u8>::empty(),
                    )) =~= prev.push(curv) + spec_tokens_from(
                        line@.skip(i as int + 1),
                        Seq::<u8>::empty(),
                    ));
                }
            }
        } else {
            cur.push(b);
        }
        i += 1;
    }
    proof {
        assert(line@.skip(n as int).len() == 0);
    }
    if cur.len() > 0 {
        let ghost prev = toks@.map_values(|t: Vec<u8>| t@);
        let ghost curv = cur@;
        toks.push(cur);
        proof {
            assert(toks@.map_values(|t: Vec<u8>| t@) =~= prev.push(curv));
            assert(prev + seq![curv] =~= prev.push(curv));
        }
    } else {
        proof {
            assert(toks@.map_values(|t: Vec<u8>| t@) + Seq::<Seq<u8>>::empty() =~= toks@.map_values(
                |t: Vec<u8>| t@,
            ));
        }
    }
    toks
}

/// Split an OBJ file into classified lines, exactly as the spec text
/// decomposition says: lines end at a line feed, tokens are separated by
/// blanks, tabs, or carriage returns. At most `LINES_LIMIT` lines are
/// read, and each face keeps at most `FACE_LIMIT` corners.
#[verifier::rlimit(100)]
pub fn tokenize_obj(source: &[u8]) -> (lines: Vec<ObjLine>)
    ensures
        lines@.len() == spec_token_lines(source@).len(),
        forall|k: int|
            0 <= k < lines@.len() ==> classifies(
                #[trigger] spec_token_lines(source@)[k],
                lines@[k],
            ),
        lines@.len() <= LINES_LIMIT as int,
        forall|i: int|
            0 <= i < lines@.len() ==> ((#[trigger] lines@[i]) matches ObjLine::Face(refs)
                ==> refs@.len() <= FACE_LIMIT as int),
{
    let mut raw: Vec<Vec<u8>> = Vec::new();
    let mut cur: Vec<u8> = Vec::new();
    let ghost mut done: Seq<Seq<u8>> = Seq::<Seq<u8>>::empty();
    let n = source.len();
    let mut i: usize = 0;
    proof {
        assert(source@.skip(0) =~= source@);
        assert(raw@.map_values(|l: Vec<u8>| l@) =~= done);
    }
    while i < n
        invariant
            i <= n,
            n == source@.len(),
            spec_lines(source@) == done + spec_lines_from(source@.skip(i as int), cur@),
            raw@.map_values(|l: Vec<u8>| l@) == if done.len() > LINES_LIMIT as int {
                done.take(LINES_LIMIT as int)
            } else {
                done
            },
            raw@.len() <= LINES_LIMIT as int,
        decreases n - i,
    {
        proof {
            assert(source@.skip(i as int)[0] == source@[i as int]);
            assert(source@.skip(i as int).drop_first() =~= source@.skip(i as int + 1));
        }
        let b = source[i];
        if b == 10 {
            let ghost curv = cur@;
            let ghost prev_done = done;
            let ghost prev_view = raw@.map_values(|l: Vec<u8>| l@);
            if raw.len() < LINES_LIMIT {
                raw.push(cur);
                cur = Vec::new();
                proof {
                    assert(raw@.map_values(|l: Vec<u8>| l@) =~= prev_view.push(curv));
                }
            } else {
                cur = Vec::new();
            }
            proof {
                done = prev_done.push(curv);
                assert(prev_done + (seq![curv] + spec_lines_from(
                    source@.skip(i as int + 1),
                    Seq::<u8>::empty(),
                )) =~= done + spec_lines_from(source@.skip(i as int + 1), Seq::<u8>::empty()));
                if prev_done.len() < LINES_LIMIT as int {
                    assert((if done.len() > LINES_LIMIT as int {
                        done.take(LINES_LIMIT as int)
                    } else {
                        done
                    }) =~= prev_view.push(curv));
                } else {
                    assert(done.take(LINES_LIMIT as int) =~= (if prev_done.len()
                        > LINES_LIMIT as int {
                        prev_done.take(LINES_LIMIT as int)
                    } else {
                        prev_done
                    }));
                }
            }
        } else {
            cur.push(b);
        }
        i += 1;
    }
    proof {
        assert(source@.skip(n as int).len() == 0);
    }
    if cur.len() > 0 {
        let ghost curv = cur@;
        let ghost prev_done = done;
        let ghost prev_view = raw@.map_values(|l: Vec<u8>| l@);
        if raw.len() < LINES_LIMIT {
            raw.push(cur);
            proof {
                assert(raw@.map_values(|l: Vec<u8>| l@) =~= prev_view.push(curv));
            }
        }
        proof {
            done = prev_done.push(curv);
            assert(prev_done + seq![curv] =~= done);
            if prev_done.len() < LINES_LIMIT as int {
                assert((if done.len() > LINES_LIMIT as int {
                    done.take(LINES_LIMIT as int)
                } else {
                    done
                }) =~= prev_view.push(curv));
            } else {
                assert(done.take(LINES_LIMIT as int) =~= (if prev_done.len() > LINES_LIMIT as int {
                    prev_done.take(LINES_LIMIT as int)
                } else {
                    prev_done
                }));
            }
        }
    } else {
        proof {
            assert(done + Seq::<Seq<u8>>::empty() =~= done);
        }
    }
    let ghost capped: Seq<Seq<u8>> = raw@.map_values(|l: Vec<u8>| l@);
    proof {
        assert(spec_token_lines(source@) =~= capped.map_values(|l: Seq<u8>| spec_tokens(l)));
    }
    let mut lines: Vec<ObjLine> = Vec::new();
    let m = raw.len();
    let mut k: usize = 0;
    while k < m
        invariant
            k <= m,
            m == raw@.len(),
            capped == raw@.map_values(|l: Vec<u8>| l@),
            spec_token_lines(source@) == capped.map_values(|l: Seq<u8>| spec_tokens(l)),
            lines@.len() == k,
            forall|j: int|
                0 <= j < k ==> classifies(#[trigger] spec_token_lines(source@)[j], lines@[j]),
            forall|j: int|
                0 <= j < lines@.len() ==> ((#[trigger] lines@[j]) matches ObjLine::Face(refs)
                    ==> refs@.len() <= FACE_LIMIT as int),
        decreases m - k,
    {
        proof {
            assert(capped[k as int] == raw@[k as int]@);
            assert(spec_token_lines(source@)[k as int] == spec_tokens(capped[k as int]));
        }
        let toks = tokenize_line(raw[k].as_slice());
        let line = classify_tokens(&toks);
        lines.push(line);
        k += 1;
    }
    lines
}

/// Parse an OBJ file, exactly as `spec_parse_obj` says: split the bytes
/// into capped token lines and assemble them through the sentinel tables,
/// first-occurrence deduplication, and fan triangulation. A successful
/// parse yields a whole number of triangles, at least one, every index
/// naming one of the returned vertices.
pub fn parse_obj(source: &[u8]) -> (r: Option<(Vec<Vertex>, Vec<u32>)>)
    ensures
        ({
            let s = spec_parse_obj(source@);
            match r {
                Some(out) => s matches Some(sp) && out.0@ == sp.0 && out.1@ == sp.1,
                None => s is None,
            }
        }),
        r matches Some(out) ==> {
            &&& out.1@.len() % 3 == 0
            &&& out.1@.len() > 0
            &&& out.0@.len() <= 0xffff_ffff
            &&& forall|i: int|
                0 <= i < out.1@.len() ==> (#[trigger] out.1@[i] as int) < out.0@.len()
        },
{
    let lines = tokenize_obj(source);
    proof {
        lemma_obj_run_ok(obj_init(), lines@);
        lemma_classifies_run(obj_init(), spec_token_lines(source@), lines@);
        assert(spec_obj_run(obj_init(), lines@) == spec_run_tokens(
            obj_init(),
            spec_token_lines(source@),
        ));
    }
    assemble_obj(&lines)
}

/// The lines of a byte stream, scanned left to right with `cur` the bytes
/// of the line being read: a line ends at each line feed, and a trailing
/// line is kept only when nonempty.
pub open spec fn spec_lines_from(s: Seq<u8>, cur: Seq<u8>) -> Seq<Seq<u8>>
    decreases s.len(),
{
    if s.len() == 0 {
        if cur.len() == 0 {
            Seq::<Seq<u8>>::empty()
        } else {
            seq![cur]
        }
    } else if s[0] == 10 {
        seq![cur] + spec_lines_from(s.drop_first(), Seq::<u8>::empty())
    } else {
        spec_lines_from(s.drop_first(), cur.push(s[0]))
    }
}

/// The lines of a byte stream.
pub open spec fn spec_lines(s: Seq<u8>) -> Seq<Seq<u8>> {
    spec_lines_from(s, Seq::<u8>::empty())
}

/// The tokens of a line, separated by blanks, carriage returns, or tabs;
/// empty tokens are never kept.
pub open spec fn spec_tokens_from(s: Seq<u8>, cur: Seq<u8>) -> Seq<Seq<u8>>
    decreases s.len(),
{
    if s.len() == 0 {
        if cur.len() == 0 {
            Seq::<Seq<u8>>::empty()
        } else {
            seq![cur]
        }
    } else if s[0] == 32 || s[0] == 13 || s[0] == 9 {
        if cur.len() == 0 {
            spec_tokens_from(s.drop_first(), cur)
        } else {
            seq![cur] + spec_tokens_from(s.drop_first(), Seq::<u8>::empty())
        }
    } else {
        spec_tokens_from(s.drop_first(), cur.push(s[0]))
    }
}

/// The tokens of a line.
pub open spec fn spec_tokens(s: Seq<u8>) -> Seq<Seq<u8>> {
    spec_tokens_from(s, Seq::<u8>::empty())
}

/// A whole file as token lines: the lines, capped at `LINES_LIMIT`, each
/// split into its tokens.
pub open spec fn spec_token_lines(s: Seq<u8>) -> Seq<Seq<Seq<u8>>> {
    let ls = spec_lines(s);
    let capped = if ls.len() > LINES_LIMIT as int {
        ls.take(LINES_LIMIT as int)
    } else {
        ls
    };
    capped.map_values(|l: Seq<u8>| spec_tokens(l))
}

/// What `parse_u32` reads: the digits' value when the token is nonempty,
/// all digits, and in range; zero otherwise.
pub open spec fn spec_parse_u32(tok: Seq<u8>) -> u32 {
    if tok.len() > 0 && all_digits(tok) && digits_val(tok) <= 0xffff_ffff {
        digits_val(tok) as u32
    } else {
        0u32
    }
}

/// The length of the longest digit prefix.
pub open spec fn digit_prefix_len(s: Seq<u8>) -> int
    decreases s.len(),
{
    if s.len() == 0 || !(48 <= s[0] <= 57) {
        0
    } else {
        1 + digit_prefix_len(s.drop_first())
    }
}

/// Ten to the `n`.
pub open spec fn pow10(n: int) -> int
    decreases n,
{
    if n <= 0 {
        1
    } else {
        10 * pow10(n - 1)
    }
}

/// What `parse_fixed` reads: an optional minus, a digit run, an optional
/// point followed by digits to the end of the token; the fraction keeps
/// six digits; anything malformed, digitless, or out of range reads as
/// zero.
pub open spec fn spec_parse_fixed(tok: Seq<u8>) -> i64 {
    let neg = tok.len() > 0 && tok[0] == 45;
    let body = if neg {
        tok.drop_first()
    } else {
        tok
    };
    let k = digit_prefix_len(body);
    let ip = body.take(k);
    let rest = body.skip(k);
    let shape_ok = rest.len() == 0 || (rest[0] == 46 && all_digits(rest.drop_first()));
    let seen = k > 0 || rest.len() > 1;
    if !shape_ok || !seen {
        0i64
    } else if digits_val(ip) > 0x7fff_ffff {
        0i64
    } else {
        let fd_all = if rest.len() == 0 {
            Seq::<u8>::empty()
        } else {
            rest.drop_first()
        };
        let fd = if fd_all.len() > 6 {
            fd_all.take(6)
        } else {
            fd_all
        };
        let frac = digits_val(fd) * 65536 / pow10(fd.len() as int);
        let mag = digits_val(ip) * 65536 + frac;
        if mag > 0x8000_0000_0000 {
            0i64
        } else if neg {
            (-mag) as i64
        } else {
            mag as i64
        }
    }
}

/// Whether a token is a well-formed, in-range decimal for
/// `spec_parse_fixed`: the right shape, at least one digit, and within
/// the scalar's range.
pub open spec fn spec_fixed_valid(tok: Seq<u8>) -> bool {
    let neg = tok.len() > 0 && tok[0] == 45;
    let body = if neg {
        tok.drop_first()
    } else {
        tok
    };
    let k = digit_prefix_len(body);
    let ip = body.take(k);
    let rest = body.skip(k);
    let shape_ok = rest.len() == 0 || (rest[0] == 46 && all_digits(rest.drop_first()));
    let seen = k > 0 || rest.len() > 1;
    &&& shape_ok
    &&& seen
    &&& digits_val(ip) <= 0x7fff_ffff
    &&& {
        let fd_all = if rest.len() == 0 {
            Seq::<u8>::empty()
        } else {
            rest.drop_first()
        };
        let fd = if fd_all.len() > 6 {
            fd_all.take(6)
        } else {
            fd_all
        };
        digits_val(ip) * 65536 + digits_val(fd) * 65536 / pow10(fd.len() as int)
            <= 0x8000_0000_0000
    }
}

/// The length of the longest prefix free of byte `b`.
pub open spec fn until_byte(s: Seq<u8>, b: u8) -> int
    decreases s.len(),
{
    if s.len() == 0 || s[0] == b {
        0
    } else {
        1 + until_byte(s.drop_first(), b)
    }
}

/// What `parse_ref` reads from one face corner: up to three slash-separated
/// parts, each an unsigned decimal, anything past the third slash ignored,
/// absent or malformed parts reading as zero.
pub open spec fn spec_parse_ref(tok: Seq<u8>) -> (u32, u32, u32) {
    let ka = until_byte(tok, 47);
    let a = tok.take(ka);
    if ka == tok.len() {
        (spec_parse_u32(a), 0u32, 0u32)
    } else {
        let r1 = tok.skip(ka + 1);
        let kb = until_byte(r1, 47);
        let b = r1.take(kb);
        if kb == r1.len() {
            (spec_parse_u32(a), spec_parse_u32(b), 0u32)
        } else {
            let r2 = r1.skip(kb + 1);
            let c = r2.take(until_byte(r2, 47));
            (spec_parse_u32(a), spec_parse_u32(b), spec_parse_u32(c))
        }
    }
}

/// The corner references of a face line: the tokens after the keyword, the
/// first `FACE_LIMIT` of them, each read as a corner reference.
pub open spec fn spec_face_refs(toks: Seq<Seq<u8>>) -> Seq<(u32, u32, u32)> {
    let m = if toks.len() - 1 > FACE_LIMIT as int {
        FACE_LIMIT as int
    } else {
        toks.len() - 1
    };
    Seq::new(m as nat, |k: int| spec_parse_ref(toks[k + 1]))
}

/// The classified line matching a line's tokens: the keyword picks the
/// kind, the payload is read by the spec-level readers, and a coordinate
/// line whose payload does not parse classifies as malformed.
pub open spec fn classifies(toks: Seq<Seq<u8>>, l: ObjLine) -> bool {
    if toks.len() == 0 {
        l is Other
    } else if toks[0] == seq![118u8] {
        if toks.len() >= 4 && spec_fixed_valid(toks[1]) && spec_fixed_valid(toks[2])
            && spec_fixed_valid(toks[3]) {
            match l {
                ObjLine::Position(v) => v == (Vec3 {
                    x: spec_parse_fixed(toks[1]),
                    y: spec_parse_fixed(toks[2]),
                    z: spec_parse_fixed(toks[3]),
                }),
                _ => false,
            }
        } else {
            l is Malformed
        }
    } else if toks[0] == seq![118u8, 116u8] {
        if toks.len() >= 3 && spec_fixed_valid(toks[1]) && spec_fixed_valid(toks[2]) {
            match l {
                ObjLine::TexCoord(v) => v == (Vec2 {
                    x: spec_parse_fixed(toks[1]),
                    y: spec_parse_fixed(toks[2]),
                }),
                _ => false,
            }
        } else {
            l is Malformed
        }
    } else if toks[0] == seq![118u8, 110u8] {
        if toks.len() >= 4 && spec_fixed_valid(toks[1]) && spec_fixed_valid(toks[2])
            && spec_fixed_valid(toks[3]) {
            match l {
                ObjLine::Normal(v) => v == (Vec3 {
                    x: spec_parse_fixed(toks[1]),
                    y: spec_parse_fixed(toks[2]),
                    z: spec_parse_fixed(toks[3]),
                }),
                _ => false,
            }
        } else {
            l is Malformed
        }
    } else if toks[0] == seq![102u8] {
        match l {
            ObjLine::Face(refs) => refs@ == spec_face_refs(toks),
            _ => false,
        }
    } else {
        l is Other
    }
}

/// Apply one line's tokens to the assembler state, directly.
pub open spec fn spec_step_tokens(st: ObjTables, toks: Seq<Seq<u8>>) -> Option<ObjTables> {
    if toks.len() == 0 {
        Some(st)
    } else if toks[0] == seq![118u8] {
        if toks.len() >= 4 && spec_fixed_valid(toks[1]) && spec_fixed_valid(toks[2])
            && spec_fixed_valid(toks[3]) {
            Some(
                (
                    st.0.push(
                        Vec3 {
                            x: spec_parse_fixed(toks[1]),
                            y: spec_parse_fixed(toks[2]),
                            z: spec_parse_fixed(toks[3]),
                        },
                    ),
                    st.1,
                    st.2,
                    st.3,
                    st.4,
                    st.5,
                ),
            )
        } else {
            None
        }
    } else if toks[0] == seq![118u8, 116u8] {
        if toks.len() >= 3 && spec_fixed_valid(toks[1]) && spec_fixed_valid(toks[2]) {
            Some(
                (
                    st.0,
                    st.1.push(
                        Vec2 { x: spec_parse_fixed(toks[1]), y: spec_parse_fixed(toks[2]) },
                    ),
                    st.2,
                    st.3,
                    st.4,
                    st.5,
                ),
            )
        } else {
            None
        }
    } else if toks[0] == seq![118u8, 110u8] {
        if toks.len() >= 4 && spec_fixed_valid(toks[1]) && spec_fixed_valid(toks[2])
            && spec_fixed_valid(toks[3]) {
            Some(
                (
                    st.0,
                    st.1,
                    st.2.push(
                        Vec3 {
                            x: spec_parse_fixed(toks[1]),
                            y: spec_parse_fixed(toks[2]),
                            z: spec_parse_fixed(toks[3]),
                        },
                    ),
                    st.3,
                    st.4,
                    st.5,
                ),
            )
        } else {
            None
        }
    } else if toks[0] == seq![102u8] {
        let run = spec_add_refs(st, spec_face_refs(toks));
        if run.1.len() < 2 {
            None
        } else {
            Some((run.0.0, run.0.1, run.0.2, run.0.3, run.0.4, run.0.5 + spec_fan(run.1, 1)))
        }
    } else {
        Some(st)
    }
}

/// Apply a whole file's token lines in order.
pub open spec fn spec_run_tokens(st: ObjTables, tls: Seq<Seq<Seq<u8>>>) -> Option<ObjTables>
    decreases tls.len(),
{
    if tls.len() == 0 {
        Some(st)
    } else {
        match spec_step_tokens(st, tls[0]) {
            None => None,
            Some(st1) => spec_run_tokens(st1, tls.drop_first()),
        }
    }
}

/// What parsing a whole byte stream yields: split into capped token lines,
/// assembled from the sentinel tables, the vertices and indices — or
/// nothing on a malformed face or when no face produced an index.
pub open spec fn spec_parse_obj(s: Seq<u8>) -> Option<(Seq<Vertex>, Seq<u32>)> {
    match spec_run_tokens(obj_init(), spec_token_lines(s)) {
        None => None,
        Some(st) => if st.5.len() == 0 {
            None
        } else {
            Some((st.4, st.5))
        },
    }
}

/// A classified line steps the assembler exactly as its tokens do.
proof fn lemma_classifies_step(st: ObjTables, toks: Seq<Seq<u8>>, l: ObjLine)
    requires
        classifies(toks, l),
    ensures
        spec_obj_step(st, l) == spec_step_tokens(st, toks),
{
}

/// Pointwise-classified lines run the assembler exactly as the token lines.
proof fn lemma_classifies_run(st: ObjTables, tls: Seq<Seq<Seq<u8>>>, ls: Seq<ObjLine>)
    requires
        ls.len() == tls.len(),
        forall|k: int| 0 <= k < ls.len() ==> classifies(#[trigger] tls[k], ls[k]),
    ensures
        spec_obj_run(st, ls) == spec_run_tokens(st, tls),
    decreases ls.len(),
{
    if ls.len() > 0 {
        lemma_classifies_step(st, tls[0], ls[0]);
        match spec_obj_step(st, ls[0]) {
            None => {},
            Some(st1) => {
                assert(forall|k: int|
                    0 <= k < ls.drop_first().len() ==> classifies(
                        #[trigger] tls.drop_first()[k],
                        ls.drop_first()[k],
                    ));
                lemma_classifies_run(st1, tls.drop_first(), ls.drop_first());
            },
        }
    }
}

} // verus!
