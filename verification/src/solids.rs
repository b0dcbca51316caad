use vstd::prelude::*;

verus! {

pub open spec fn abs(v: int) -> int {
    if v < 0 {
        -v
    } else {
        v
    }
}

pub open spec fn signum(v: int) -> int {
    if v < 0 {
        -1
    } else if v > 0 {
        1
    } else {
        0
    }
}

/// The ASCII character that best follows a screen segment with the given
/// offsets (y grows downwards): flat segments are `-`, steep ones `|`, and
/// diagonals `\` or `/` by the direction they lean.
pub open spec fn segment_glyph(dx: int, dy: int) -> char {
    if abs(dy) * 2 < abs(dx) {
        '-'
    } else if abs(dx) < abs(dy) {
        '|'
    } else if signum(dx) == signum(dy) {
        '\\'
    } else {
        '/'
    }
}

/// The ASCII character for an edge from (`x0`, `y0`) to (`x1`, `y1`).
pub fn line_glyph(x0: i32, y0: i32, x1: i32, y1: i32) -> (glyph: char)
    ensures
        glyph == segment_glyph(x1 - x0, y1 - y0),
{
    let dx: i64 = x1 as i64 - x0 as i64;
    let dy: i64 = y1 as i64 - y0 as i64;
    let adx: i64 = if dx < 0 {
        -dx
    } else {
        dx
    };
    let ady: i64 = if dy < 0 {
        -dy
    } else {
        dy
    };
    let sx: i64 = if dx < 0 {
        -1
    } else if dx > 0 {
        1
    } else {
        0
    };
    let sy: i64 = if dy < 0 {
        -1
    } else if dy > 0 {
        1
    } else {
        0
    };
    if ady * 2 < adx {
        '-'
    } else if adx < ady {
        '|'
    } else if sx == sy {
        '\\'
    } else {
        '/'
    }
}

/// Two corners of the unit hypercube, numbered by their coordinate bits,
/// are joined by an edge when they differ in exactly one coordinate.
pub open spec fn hypercube_adjacent(a: int, b: int) -> bool {
    let d = (a as u8) ^ (b as u8);
    d == 1 || d == 2 || d == 4 || d == 8
}

/// The edges of the four-dimensional hypercube whose corners are numbered 0
/// to 15, each as a pair (lower corner, higher corner), ordered by the lower
/// corner and then the higher one.
pub open spec fn is_hypercube_edge(e: (usize, usize)) -> bool {
    e.0 < e.1 < 16 && hypercube_adjacent(e.0 as int, e.1 as int)
}

/// Pairs in strictly increasing lexicographic order.
pub open spec fn pair_before(p: (usize, usize), q: (usize, usize)) -> bool {
    p.0 < q.0 || (p.0 == q.0 && p.1 < q.1)
}

/// Lists the edges of the four-dimensional hypercube: every pair of
/// corners that differ in one coordinate, once, in lexicographic order.
pub fn hypercube_edges() -> (edges: Vec<(usize, usize)>)
    ensures
        forall|i: int| 0 <= i < edges@.len() ==> is_hypercube_edge(#[trigger] edges@[i]),
        forall|e: (usize, usize)| is_hypercube_edge(e) ==> edges@.contains(e),
        forall|i: int, j: int| 0 <= i < j < edges@.len() ==> pair_before(edges@[i], edges@[j]),
{
    let mut edges: Vec<(usize, usize)> = Vec::new();
    let mut a: usize = 0;
    while a < 16
        invariant
            a <= 16,
            forall|i: int| 0 <= i < edges@.len() ==> is_hypercube_edge(#[trigger] edges@[i]),
            forall|i: int| 0 <= i < edges@.len() ==> (#[trigger] edges@[i]).0 < a,
            forall|e: (usize, usize)| is_hypercube_edge(e) && e.0 < a ==> edges@.contains(e),
            forall|i: int, j: int| 0 <= i < j < edges@.len() ==> pair_before(edges@[i], edges@[j]),
        decreases 16 - a,
    {
        let mut b: usize = a + 1;
        let ghost start = edges@;
        while b < 16
            invariant
                a < 16,
                a + 1 <= b <= 16,
                start.len() <= edges@.len(),
                edges@.subrange(0, start.len() as int) == start,
                forall|i: int| 0 <= i < start.len() ==> (#[trigger] start[i]).0 < a,
                forall|i: int| 0 <= i < edges@.len() ==> is_hypercube_edge(#[trigger] edges@[i]),
                forall|i: int|
                    start.len() <= i < edges@.len() ==> (#[trigger] edges@[i]).0 == a && edges@[i].1
                        < b,
                forall|i: int| 0 <= i < edges@.len() ==> (#[trigger] edges@[i]).0 <= a,
                forall|e: (usize, usize)|
                    is_hypercube_edge(e) && (e.0 < a || (e.0 == a && e.1 < b)) ==> edges@.contains(e),
                forall|i: int, j: int| 0 <= i < j < edges@.len() ==> pair_before(edges@[i], edges@[j]),
            decreases 16 - b,
        {
            let d: u8 = (a as u8) ^ (b as u8);
            if d == 1 || d == 2 || d == 4 || d == 8 {
                let ghost before = edges@;
                edges.push((a, b));
                proof {
                    assert forall|i: int, j: int| 0 <= i < j < edges@.len() implies pair_before(
                        edges@[i],
                        edges@[j],
                    ) by {
                        if j < before.len() {
                            assert(edges@[i] == before[i] && edges@[j] == before[j]);
                        } else {
                            assert(edges@[i] == before[i]);
                            if i < start.len() {
                                assert(before.subrange(0, start.len() as int)[i] == start[i]);
                                assert(start[i].0 < a);
                            }
                        }
                    }
                    assert forall|e: (usize, usize)|
                        is_hypercube_edge(e) && (e.0 < a || (e.0 == a && e.1 < b + 1)) implies edges@.contains(
                        e,
                    ) by {
                        if e.0 == a && e.1 == b {
                            assert(edges@[edges@.len() - 1] == e);
                        } else {
                            let k = choose|k: int| 0 <= k < before.len() && before[k] == e;
                            assert(edges@[k] == e);
                        }
                    }
                    assert forall|i: int| start.len() <= i < edges@.len() implies (
                    #[trigger] edges@[i]).0 == a && edges@[i].1 < b + 1 by {
                        if i < before.len() {
                            assert(edges@[i] == before[i]);
                        }
                    }
                    assert(edges@.subrange(0, start.len() as int) =~= start) by {
                        assert forall|i: int| 0 <= i < start.len() implies edges@.subrange(
                            0,
                            start.len() as int,
                        )[i] == start[i] by {
                            assert(before.subrange(0, start.len() as int)[i] == start[i]);
                        }
                    }
                }
            } else {
                proof {
                    assert forall|e: (usize, usize)|
                        is_hypercube_edge(e) && (e.0 < a || (e.0 == a && e.1 < b + 1)) implies edges@.contains(
                        e,
                    ) by {
                        if e.0 == a && e.1 == b {
                            assert(hypercube_adjacent(a as int, b as int));
                            assert(false);
                        }
                    }
                }
            }
            b = b + 1;
        }
        a = a + 1;
    }
    edges
}

/// Which side of each axis corner `i` of the cube lies on (true for the
/// positive side): the corners go round the back face, then round the
/// front face in the same order.
pub open spec fn cube_corner(i: int) -> (bool, bool, bool) {
    (i % 4 == 1 || i % 4 == 2, i % 4 >= 2, i >= 4)
}

/// Whether corners `a` and `b` of the cube are joined by an edge: they lie
/// on opposite sides of exactly one axis.
pub open spec fn cube_adjacent(a: int, b: int) -> bool {
    let (ax, ay, az) = cube_corner(a);
    let (bx, by, bz) = cube_corner(b);
    &&& 0 <= a < 8
    &&& 0 <= b < 8
    &&& (if ax != bx { 1int } else { 0 }) + (if ay != by { 1int } else { 0 }) + (if az != bz {
        1int
    } else {
        0
    }) == 1
}

/// Whether vertices `a` and `b` of the octahedron are joined by an edge:
/// vertices 0 to 5 sit in pairs on the three axes (positive side first),
/// and every two vertices on different axes are joined.
pub open spec fn octahedron_adjacent(a: int, b: int) -> bool {
    0 <= a < 6 && 0 <= b < 6 && a / 2 != b / 2
}

/// Whether `edges` lists the pairs of `adjacent` vertices, each exactly
/// once in one direction or the other.
pub open spec fn lists_each_edge_once(
    edges: Seq<(usize, usize)>,
    adjacent: spec_fn(int, int) -> bool,
) -> bool {
    &&& forall|i: int|
        0 <= i < edges.len() ==> adjacent((#[trigger] edges[i]).0 as int, edges[i].1 as int)
    &&& forall|i: int, j: int|
        0 <= i < j < edges.len() ==> #[trigger] edges[i] != #[trigger] edges[j] && edges[i] != (
            edges[j].1,
            edges[j].0,
        )
    &&& forall|a: int, b: int|
        #[trigger] adjacent(a, b) ==> exists|i: int|
            0 <= i < edges.len() && (#[trigger] edges[i] == (a as usize, b as usize) || edges[i]
                == (b as usize, a as usize))
}

/// The cube's edges in drawing order: round the back face, round the
/// front face, then the four edges from back to front.
pub open spec fn cube_edge_list() -> Seq<(usize, usize)> {
    seq![
        (0usize, 1usize),
        (1, 2),
        (2, 3),
        (3, 0),
        (4, 5),
        (5, 6),
        (6, 7),
        (7, 4),
        (0, 4),
        (1, 5),
        (2, 6),
        (3, 7),
    ]
}

/// The octahedron's edges in drawing order: from each of the two vertices
/// on the first axis to the four on the others, then round the middle.
pub open spec fn octahedron_edge_list() -> Seq<(usize, usize)> {
    seq![
        (0usize, 2usize),
        (0, 3),
        (0, 4),
        (0, 5),
        (1, 2),
        (1, 3),
        (1, 4),
        (1, 5),
        (2, 4),
        (4, 3),
        (3, 5),
        (5, 2),
    ]
}

/// The twelve edges of the cube, by corner.
pub fn cube_edges() -> (edges: Vec<(usize, usize)>)
    ensures
        edges@ == cube_edge_list(),
        edges@.len() == 12,
        lists_each_edge_once(edges@, |a: int, b: int| cube_adjacent(a, b)),
{
    let edges: Vec<(usize, usize)> = vec![
        (0, 1),
        (1, 2),
        (2, 3),
        (3, 0),
        (4, 5),
        (5, 6),
        (6, 7),
        (7, 4),
        (0, 4),
        (1, 5),
        (2, 6),
        (3, 7),
    ];
    let ghost e = edges@;
    assert forall|a: int, b: int| #[trigger] cube_adjacent(a, b) implies exists|i: int|
        0 <= i < e.len() && (#[trigger] e[i] == (a as usize, b as usize) || e[i] == (
            b as usize,
            a as usize,
        )) by {
        let i: int = if (a == 0 && b == 1) || (a == 1 && b == 0) {
            0
        } else if (a == 1 && b == 2) || (a == 2 && b == 1) {
            1
        } else if (a == 2 && b == 3) || (a == 3 && b == 2) {
            2
        } else if (a == 3 && b == 0) || (a == 0 && b == 3) {
            3
        } else if (a == 4 && b == 5) || (a == 5 && b == 4) {
            4
        } else if (a == 5 && b == 6) || (a == 6 && b == 5) {
            5
        } else if (a == 6 && b == 7) || (a == 7 && b == 6) {
            6
        } else if (a == 7 && b == 4) || (a == 4 && b == 7) {
            7
        } else if (a == 0 && b == 4) || (a == 4 && b == 0) {
            8
        } else if (a == 1 && b == 5) || (a == 5 && b == 1) {
            9
        } else if (a == 2 && b == 6) || (a == 6 && b == 2) {
            10
        } else {
            11
        };
        assert(0 <= i < e.len() && (e[i] == (a as usize, b as usize) || e[i] == (
            b as usize,
            a as usize,
        )));
    }
    edges
}

/// The twelve edges of the octahedron, by vertex.
pub fn octahedron_edges() -> (edges: Vec<(usize, usize)>)
    ensures
        edges@ == octahedron_edge_list(),
        edges@.len() == 12,
        lists_each_edge_once(edges@, |a: int, b: int| octahedron_adjacent(a, b)),
{
    let edges: Vec<(usize, usize)> = vec![
        (0, 2),
        (0, 3),
        (0, 4),
        (0, 5),
        (1, 2),
        (1, 3),
        (1, 4),
        (1, 5),
        (2, 4),
        (4, 3),
        (3, 5),
        (5, 2),
    ];
    let ghost e = edges@;
    assert forall|a: int, b: int| #[trigger] octahedron_adjacent(a, b) implies exists|i: int|
        0 <= i < e.len() && (#[trigger] e[i] == (a as usize, b as usize) || e[i] == (
            b as usize,
            a as usize,
        )) by {
        let lo = if a < b { a } else { b };
        let hi = if a < b { b } else { a };
        let i: int = if lo == 0 {
            hi - 2
        } else if lo == 1 {
            hi + 2
        } else if lo == 2 && hi == 4 {
            8
        } else if lo == 3 && hi == 4 {
            9
        } else if lo == 3 && hi == 5 {
            10
        } else {
            11
        };
        assert(0 <= i < e.len() && (e[i] == (a as usize, b as usize) || e[i] == (
            b as usize,
            a as usize,
        )));
    }
    edges
}

} // verus!
