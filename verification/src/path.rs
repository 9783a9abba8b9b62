//! Unix paths as byte strings, compared the way `std::path::Path` compares them:
//! component by component.

use vstd::prelude::*;
use crate::text::{split_at_byte, split_on, same_elements_bytes, starts_with};

verus! {

/// Kind codes of a path component; they are also its rank in the ordering
/// (root < current directory < parent directory < named component).
pub const PART_ROOT: u8 = 0;
pub const PART_CURRENT: u8 = 1;
pub const PART_PARENT: u8 = 2;
pub const PART_NORMAL: u8 = 3;

/// One component: its kind code and, for a named component, its bytes.
pub type Part = (nat, Seq<u8>);

/// The component that a piece between separators contributes, if any.
pub open spec fn piece_part(piece: Seq<u8>) -> Option<Part> {
    if piece.len() == 0 || piece == seq![0x2Eu8] {
        None
    } else if piece == seq![0x2Eu8, 0x2Eu8] {
        Some((PART_PARENT as nat, Seq::<u8>::empty()))
    } else {
        Some((PART_NORMAL as nat, piece))
    }
}

pub open spec fn body_parts(pieces: Seq<Seq<u8>>) -> Seq<Part>
    decreases pieces.len(),
{
    if pieces.len() == 0 {
        seq![]
    } else {
        let rest = body_parts(pieces.drop_last());
        match piece_part(pieces.last()) {
            Some(p) => rest.push(p),
            None => rest,
        }
    }
}

pub open spec fn has_root(p: Seq<u8>) -> bool {
    p.len() > 0 && p[0] == 0x2F
}

pub open spec fn leading_current(p: Seq<u8>) -> bool {
    !has_root(p) && p.len() > 0 && p[0] == 0x2E && (p.len() == 1 || p[1] == 0x2F)
}

/// The components of a Unix path: a leading root, a leading `.` of a relative path,
/// then every piece between separators except empty pieces and `.`.
pub open spec fn components(p: Seq<u8>) -> Seq<Part> {
    if has_root(p) {
        seq![(PART_ROOT as nat, Seq::<u8>::empty())] + body_parts(split_on(p.drop_first(), 0x2Fu8))
    } else if leading_current(p) {
        seq![(PART_CURRENT as nat, Seq::<u8>::empty())] + body_parts(
            split_on(p.drop_first(), 0x2Fu8),
        )
    } else {
        body_parts(split_on(p, 0x2Fu8))
    }
}

/// Two paths are the same path.
pub open spec fn same_path(a: Seq<u8>, b: Seq<u8>) -> bool {
    components(a) == components(b)
}

/// `base` is a leading run of components of `p` (`Path::starts_with`).
pub open spec fn path_starts_with(p: Seq<u8>, base: Seq<u8>) -> bool {
    starts_with(components(p), components(base))
}

/// Byte strings in lexicographic order.
pub open spec fn bytes_lt(a: Seq<u8>, b: Seq<u8>) -> bool
    decreases a.len(),
{
    if a.len() == 0 {
        b.len() > 0
    } else if b.len() == 0 {
        false
    } else if a[0] != b[0] {
        a[0] < b[0]
    } else {
        bytes_lt(a.drop_first(), b.drop_first())
    }
}

pub open spec fn part_lt(x: Part, y: Part) -> bool {
    x.0 < y.0 || (x.0 == y.0 && bytes_lt(x.1, y.1))
}

/// Component sequences in lexicographic order.
pub open spec fn parts_lt(a: Seq<Part>, b: Seq<Part>) -> bool
    decreases a.len(),
{
    if a.len() == 0 {
        b.len() > 0
    } else if b.len() == 0 {
        false
    } else if a[0] != b[0] {
        part_lt(a[0], b[0])
    } else {
        parts_lt(a.drop_first(), b.drop_first())
    }
}

/// The ordering of paths (`Ord for Path`).
pub open spec fn path_lt(a: Seq<u8>, b: Seq<u8>) -> bool {
    parts_lt(components(a), components(b))
}

// ---------------------------------------------------------------------------
// Order laws
// ---------------------------------------------------------------------------

pub proof fn lemma_bytes_lt_total(a: Seq<u8>, b: Seq<u8>)
    ensures
        !bytes_lt(a, a),
        bytes_lt(a, b) || a == b || bytes_lt(b, a),
        !(bytes_lt(a, b) && bytes_lt(b, a)),
    decreases a.len(),
{
    if a.len() > 0 {
        lemma_bytes_lt_total(a.drop_first(), a.drop_first());
        if b.len() > 0 {
            lemma_bytes_lt_total(a.drop_first(), b.drop_first());
            if a[0] == b[0] && a.drop_first() == b.drop_first() {
                assert(a == seq![a[0]] + a.drop_first());
                assert(b == seq![b[0]] + b.drop_first());
            }
        }
    } else if b.len() == 0 {
        assert(a == b);
    }
}

pub proof fn lemma_bytes_lt_transitive(a: Seq<u8>, b: Seq<u8>, c: Seq<u8>)
    requires
        bytes_lt(a, b),
        bytes_lt(b, c),
    ensures
        bytes_lt(a, c),
    decreases a.len(),
{
    if a.len() > 0 && b.len() > 0 && c.len() > 0 && a[0] == b[0] && b[0] == c[0] {
        lemma_bytes_lt_transitive(a.drop_first(), b.drop_first(), c.drop_first());
    }
}

pub proof fn lemma_part_lt_total(x: Part, y: Part)
    ensures
        !part_lt(x, x),
        part_lt(x, y) || x == y || part_lt(y, x),
        !(part_lt(x, y) && part_lt(y, x)),
{
    lemma_bytes_lt_total(x.1, y.1);
}

pub proof fn lemma_part_lt_transitive(x: Part, y: Part, z: Part)
    requires
        part_lt(x, y),
        part_lt(y, z),
    ensures
        part_lt(x, z),
{
    if x.0 == y.0 && y.0 == z.0 {
        lemma_bytes_lt_transitive(x.1, y.1, z.1);
    }
}

pub proof fn lemma_parts_lt_total(a: Seq<Part>, b: Seq<Part>)
    ensures
        !parts_lt(a, a),
        parts_lt(a, b) || a == b || parts_lt(b, a),
        !(parts_lt(a, b) && parts_lt(b, a)),
    decreases a.len(),
{
    if a.len() > 0 {
        lemma_parts_lt_total(a.drop_first(), a.drop_first());
        if b.len() > 0 {
            lemma_parts_lt_total(a.drop_first(), b.drop_first());
            lemma_part_lt_total(a[0], b[0]);
            if a[0] == b[0] && a.drop_first() == b.drop_first() {
                assert(a == seq![a[0]] + a.drop_first());
                assert(b == seq![b[0]] + b.drop_first());
            }
        }
    } else if b.len() == 0 {
        assert(a == b);
    }
}

pub proof fn lemma_parts_lt_transitive(a: Seq<Part>, b: Seq<Part>, c: Seq<Part>)
    requires
        parts_lt(a, b),
        parts_lt(b, c),
    ensures
        parts_lt(a, c),
    decreases a.len(),
{
    if a.len() > 0 && b.len() > 0 && c.len() > 0 {
        if a[0] == b[0] && b[0] == c[0] {
            lemma_parts_lt_transitive(a.drop_first(), b.drop_first(), c.drop_first());
        } else if a[0] != b[0] && b[0] != c[0] {
            lemma_part_lt_transitive(a[0], b[0], c[0]);
            lemma_part_lt_total(a[0], c[0]);
        }
    }
}

/// Every component has one of the four kind codes.
pub proof fn lemma_part_kinds(p: Seq<u8>)
    ensures
        forall|j: int| 0 <= j < components(p).len() ==> (#[trigger] components(p)[j]).0 <= 3,
{
    lemma_body_kinds(split_on(p, 0x2Fu8));
    if p.len() > 0 {
        lemma_body_kinds(split_on(p.drop_first(), 0x2Fu8));
    }
    let c = components(p);
    assert forall|j: int| 0 <= j < c.len() implies (#[trigger] c[j]).0 <= 3 by {
        if has_root(p) || leading_current(p) {
            if j > 0 {
                let b = body_parts(split_on(p.drop_first(), 0x2Fu8));
                assert(c[j] == b[j - 1]);
            }
        }
    }
}

proof fn lemma_body_kinds(pieces: Seq<Seq<u8>>)
    ensures
        forall|j: int| 0 <= j < body_parts(pieces).len() ==> (#[trigger] body_parts(pieces)[j]).0 <= 3,
    decreases pieces.len(),
{
    if pieces.len() > 0 {
        lemma_body_kinds(pieces.drop_last());
        let rest = body_parts(pieces.drop_last());
        let b = body_parts(pieces);
        assert forall|j: int| 0 <= j < b.len() implies (#[trigger] b[j]).0 <= 3 by {
            if j < rest.len() {
                assert(b[j] == rest[j]);
            }
        }
    }
}

// ---------------------------------------------------------------------------
// Executable components
// ---------------------------------------------------------------------------

/// One executable path component.
#[derive(Clone, Debug)]
pub struct PathPart {
    pub kind: u8,
    pub bytes: Vec<u8>,
}

pub open spec fn part_of(p: PathPart) -> Part {
    (p.kind as nat, p.bytes@)
}

pub open spec fn parts_of(ps: Seq<PathPart>) -> Seq<Part> {
    ps.map_values(|p: PathPart| part_of(p))
}

fn piece_component(piece: Vec<u8>) -> (r: Option<PathPart>)
    ensures
        r matches Some(p) ==> piece_part(piece@) == Some(part_of(p)),
        r is None ==> piece_part(piece@) is None,
{
    let n = piece.len();
    if n == 0 {
        return None;
    }
    if n == 1 && piece[0] == 0x2E {
        assert(piece@ =~= seq![0x2Eu8]);
        return None;
    }
    if n == 2 && piece[0] == 0x2E && piece[1] == 0x2E {
        assert(piece@ =~= seq![0x2Eu8, 0x2Eu8]);
        let empty: Vec<u8> = Vec::new();
        assert(empty@ =~= Seq::<u8>::empty());
        return Some(PathPart { kind: PART_PARENT, bytes: empty });
    }
    assert(piece@ != seq![0x2Eu8]) by {
        if n == 1 {
            assert(piece@[0] != seq![0x2Eu8][0]);
        }
    }
    assert(piece@ != seq![0x2Eu8, 0x2Eu8]) by {
        if n == 2 {
            if piece@[0] != 0x2E {
                assert(piece@[0] != seq![0x2Eu8, 0x2Eu8][0]);
            } else {
                assert(piece@[1] != seq![0x2Eu8, 0x2Eu8][1]);
            }
        }
    }
    Some(PathPart { kind: PART_NORMAL, bytes: piece })
}

fn body_components(rest: &[u8], parts: &mut Vec<PathPart>)
    ensures
        parts_of(final(parts)@) == parts_of(old(parts)@) + body_parts(split_on(rest@, 0x2Fu8)),
{
    let pieces = split_at_byte(rest, 0x2F);
    let ghost views = pieces@.map_values(|p: Vec<u8>| p@);
    let ghost start = parts_of(parts@);
    let mut i: usize = 0;
    while i < pieces.len()
        invariant
            i <= pieces.len(),
            views == pieces@.map_values(|p: Vec<u8>| p@),
            views == split_on(rest@, 0x2Fu8),
            parts_of(parts@) == start + body_parts(views.take(i as int)),
        decreases pieces.len() - i,
    {
        let piece = pieces[i].clone();
        assert(piece@ == views[i as int]);
        assert(views.take(i + 1).drop_last() == views.take(i as int));
        assert(views.take(i + 1).last() == views[i as int]);
        let ghost pv = piece@;
        match piece_component(piece) {
            Some(part) => {
                assert(piece_part(pv) == Some(part_of(part)));
                let ghost before = parts@;
                parts.push(part);
                assert(parts_of(parts@) =~= parts_of(before).push(part_of(part)));
                assert(parts_of(parts@) =~= start + body_parts(views.take(i + 1)));
            },
            None => {},
        }
        i += 1;
    }
    assert(views.take(pieces.len() as int) == views);
}

fn tail_bytes(p: &[u8]) -> (r: Vec<u8>)
    requires
        p.len() > 0,
    ensures
        r@ == p@.drop_first(),
{
    let mut r: Vec<u8> = Vec::new();
    let mut i: usize = 1;
    while i < p.len()
        invariant
            1 <= i <= p.len(),
            r@ == p@.subrange(1, i as int),
        decreases p.len() - i,
    {
        r.push(p[i]);
        i += 1;
        assert(r@ =~= p@.subrange(1, i as int));
    }
    assert(r@ =~= p@.drop_first());
    r
}

/// The components of a path.
pub fn path_components(p: &[u8]) -> (parts: Vec<PathPart>)
    ensures
        parts_of(parts@) == components(p@),
{
    let mut parts: Vec<PathPart> = Vec::new();
    assert(parts_of(parts@) =~= Seq::<Part>::empty());
    if p.len() > 0 && p[0] == 0x2F {
        parts.push(PathPart { kind: PART_ROOT, bytes: Vec::new() });
        assert(parts_of(parts@) =~= seq![(PART_ROOT as nat, Seq::<u8>::empty())]);
        let rest = tail_bytes(p);
        body_components(rest.as_slice(), &mut parts);
    } else if p.len() > 0 && p[0] == 0x2E && (p.len() == 1 || p[1] == 0x2F) {
        parts.push(PathPart { kind: PART_CURRENT, bytes: Vec::new() });
        assert(parts_of(parts@) =~= seq![(PART_CURRENT as nat, Seq::<u8>::empty())]);
        let rest = tail_bytes(p);
        body_components(rest.as_slice(), &mut parts);
    } else {
        body_components(p, &mut parts);
        assert(parts_of(parts@) =~= components(p@));
    }
    parts
}

fn same_part(a: &PathPart, b: &PathPart) -> (r: bool)
    ensures
        r == (part_of(*a) == part_of(*b)),
{
    a.kind == b.kind && same_elements_bytes(a.bytes.as_slice(), b.bytes.as_slice())
}

fn bytes_less(a: &[u8], b: &[u8]) -> (r: bool)
    ensures
        r == bytes_lt(a@, b@),
{
    let mut i: usize = 0;
    assert(a@.skip(0) == a@);
    assert(b@.skip(0) == b@);
    while i < a.len() && i < b.len()
        invariant
            i <= a.len(),
            i <= b.len(),
            forall|k: int| 0 <= k < i ==> a@[k] == b@[k],
            bytes_lt(a@, b@) == bytes_lt(a@.skip(i as int), b@.skip(i as int)),
        decreases a.len() - i,
    {
        if a[i] != b[i] {
            assert(a@.skip(i as int)[0] == a@[i as int]);
            assert(b@.skip(i as int)[0] == b@[i as int]);
            return a[i] < b[i];
        }
        assert(a@.skip(i as int).drop_first() == a@.skip(i + 1));
        assert(b@.skip(i as int).drop_first() == b@.skip(i + 1));
        i += 1;
    }
    i == a.len() && i < b.len()
}

fn part_less(a: &PathPart, b: &PathPart) -> (r: bool)
    ensures
        r == part_lt(part_of(*a), part_of(*b)),
{
    a.kind < b.kind || (a.kind == b.kind && bytes_less(a.bytes.as_slice(), b.bytes.as_slice()))
}

/// Whether two component lists are equal.
pub fn same_parts(a: &Vec<PathPart>, b: &Vec<PathPart>) -> (r: bool)
    ensures
        r == (parts_of(a@) == parts_of(b@)),
{
    if a.len() != b.len() {
        assert(parts_of(a@).len() != parts_of(b@).len());
        return false;
    }
    let mut i: usize = 0;
    while i < a.len()
        invariant
            a.len() == b.len(),
            i <= a.len(),
            forall|k: int| 0 <= k < i ==> part_of(a@[k]) == part_of(b@[k]),
        decreases a.len() - i,
    {
        if !same_part(&a[i], &b[i]) {
            assert(parts_of(a@)[i as int] != parts_of(b@)[i as int]);
            return false;
        }
        i += 1;
    }
    assert(parts_of(a@) =~= parts_of(b@));
    true
}

/// Whether `prefix` is a leading run of `parts`.
pub fn parts_start_with(parts: &Vec<PathPart>, prefix: &Vec<PathPart>) -> (r: bool)
    ensures
        r == starts_with(parts_of(parts@), parts_of(prefix@)),
{
    if prefix.len() > parts.len() {
        return false;
    }
    let mut i: usize = 0;
    while i < prefix.len()
        invariant
            prefix.len() <= parts.len(),
            i <= prefix.len(),
            forall|k: int| 0 <= k < i ==> part_of(parts@[k]) == part_of(prefix@[k]),
        decreases prefix.len() - i,
    {
        if !same_part(&parts[i], &prefix[i]) {
            assert(parts_of(parts@).take(prefix.len() as int)[i as int] != parts_of(prefix@)[i as int]);
            return false;
        }
        i += 1;
    }
    assert(parts_of(parts@).take(prefix.len() as int) =~= parts_of(prefix@));
    true
}

/// Whether the component list `a` orders before `b`.
pub fn parts_less(a: &Vec<PathPart>, b: &Vec<PathPart>) -> (r: bool)
    ensures
        r == parts_lt(parts_of(a@), parts_of(b@)),
{
    let ghost pa = parts_of(a@);
    let ghost pb = parts_of(b@);
    let mut i: usize = 0;
    assert(pa.skip(0) == pa);
    assert(pb.skip(0) == pb);
    while i < a.len() && i < b.len()
        invariant
            pa == parts_of(a@),
            pb == parts_of(b@),
            i <= a.len(),
            i <= b.len(),
            parts_lt(pa, pb) == parts_lt(pa.skip(i as int), pb.skip(i as int)),
        decreases a.len() - i,
    {
        if !same_part(&a[i], &b[i]) {
            assert(pa.skip(i as int)[0] == pa[i as int]);
            assert(pb.skip(i as int)[0] == pb[i as int]);
            return part_less(&a[i], &b[i]);
        }
        assert(pa.skip(i as int).drop_first() == pa.skip(i + 1));
        assert(pb.skip(i as int).drop_first() == pb.skip(i + 1));
        i += 1;
    }
    i == a.len() && i < b.len()
}

/// `Path` equality.
pub fn paths_equal(a: &[u8], b: &[u8]) -> (r: bool)
    ensures
        r == same_path(a@, b@),
{
    let pa = path_components(a);
    let pb = path_components(b);
    same_parts(&pa, &pb)
}

/// `Path::starts_with`.
pub fn path_has_prefix(p: &[u8], base: &[u8]) -> (r: bool)
    ensures
        r == path_starts_with(p@, base@),
{
    let pp = path_components(p);
    let pb = path_components(base);
    parts_start_with(&pp, &pb)
}

/// `Path` ordering.
pub fn path_less(a: &[u8], b: &[u8]) -> (r: bool)
    ensures
        r == path_lt(a@, b@),
{
    let pa = path_components(a);
    let pb = path_components(b);
    parts_less(&pa, &pb)
}

} // verus!
