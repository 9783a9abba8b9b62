//! Choosing search roots from the Linux mount table (`/proc/self/mountinfo`).

use vstd::prelude::*;
use crate::path::{
    components, lemma_parts_lt_total, lemma_parts_lt_transitive, path_has_prefix, path_less,
    path_lt, path_starts_with, paths_equal, same_path,
};
use crate::sorting::{dedup_by, insert_pos, lemma_dedup_tail_ascending, lemma_sort_by, sort_by, sorted_by, strict_weak_order};
use crate::text::{
    copy_bytes, find_seq_bytes, first_occurrence, has_prefix_bytes, same_elements_bytes, split_at_byte,
    split_on, starts_with,
};

verus! {

// ---------------------------------------------------------------------------
// Fields of a mountinfo line
// ---------------------------------------------------------------------------

/// `u8::is_ascii_whitespace`.
pub open spec fn is_ascii_space(b: u8) -> bool {
    b == 0x20 || b == 0x09 || b == 0x0A || b == 0x0C || b == 0x0D
}

/// Runs of non-whitespace bytes (`split(u8::is_ascii_whitespace)` without empty pieces).
pub open spec fn fields(s: Seq<u8>) -> Seq<Seq<u8>>
    decreases s.len(),
{
    if s.len() == 0 {
        seq![]
    } else {
        let rest = fields(s.drop_last());
        if is_ascii_space(s.last()) {
            rest
        } else if s.len() >= 2 && !is_ascii_space(s[s.len() - 2]) {
            rest.update(rest.len() - 1, rest.last().push(s.last()))
        } else {
            rest.push(seq![s.last()])
        }
    }
}

pub proof fn lemma_fields_nonempty_when_word_ends(s: Seq<u8>)
    requires
        s.len() > 0,
        !is_ascii_space(s.last()),
    ensures
        fields(s).len() > 0,
    decreases s.len(),
{
    if s.len() >= 2 && !is_ascii_space(s[s.len() - 2]) {
        lemma_fields_nonempty_when_word_ends(s.drop_last());
    }
}

fn split_fields(s: &[u8]) -> (out: Vec<Vec<u8>>)
    ensures
        out@.map_values(|f: Vec<u8>| f@) == fields(s@),
{
    let mut out: Vec<Vec<u8>> = Vec::new();
    let mut current: Vec<u8> = Vec::new();
    let mut i: usize = 0;
    assert(s@.take(0) =~= Seq::<u8>::empty());
    while i < s.len()
        invariant
            i <= s.len(),
            current@.len() > 0 ==> i > 0 && !is_ascii_space(s@[i - 1]),
            i > 0 && !is_ascii_space(s@[i - 1]) ==> current@.len() > 0,
            current@.len() == 0 ==> out@.map_values(|f: Vec<u8>| f@) == fields(s@.take(i as int)),
            current@.len() > 0 ==> out@.map_values(|f: Vec<u8>| f@).push(current@) == fields(
                s@.take(i as int),
            ),
        decreases s.len() - i,
    {
        let b = s[i];
        let ghost prev = fields(s@.take(i as int));
        assert(s@.take(i + 1).drop_last() == s@.take(i as int));
        assert(s@.take(i + 1).last() == b);
        if b == 0x20 || b == 0x09 || b == 0x0A || b == 0x0C || b == 0x0D {
            if current.len() > 0 {
                let word = current;
                out.push(word);
                current = Vec::new();
            }
        } else {
            if current.len() > 0 {
                assert(s@.take(i + 1)[i - 1] == s@[i - 1]);
                current.push(b);
                assert(out@.map_values(|f: Vec<u8>| f@).push(current@) =~= prev.update(
                    prev.len() - 1,
                    prev.last().push(b),
                ));
            } else {
                current.push(b);
                assert(current@ =~= seq![b]);
                assert(out@.map_values(|f: Vec<u8>| f@).push(current@) =~= prev.push(seq![b]));
            }
        }
        i += 1;
    }
    assert(s@.take(s.len() as int) == s@);
    if current.len() > 0 {
        out.push(current);
    }
    out
}

/// Whether `b` is an octal digit.
pub open spec fn is_octal(b: u8) -> bool {
    0x30 <= b <= 0x37
}

/// Value of a three-digit octal escape.
pub open spec fn octal_value(a: u8, b: u8, c: u8) -> int {
    (a - 0x30) * 64 + (b - 0x30) * 8 + (c - 0x30)
}

/// A backslash followed by three octal digits that encode a byte.
pub open spec fn escape_at(f: Seq<u8>) -> bool {
    f.len() > 3 && f[0] == 0x5C && is_octal(f[1]) && is_octal(f[2]) && is_octal(f[3])
        && octal_value(f[1], f[2], f[3]) <= 255
}

/// The kernel's `\ooo` octal escapes replaced by the bytes they stand for; any other
/// byte, including a backslash that does not start such an escape, is kept.
pub open spec fn decode_field(f: Seq<u8>) -> Seq<u8>
    decreases f.len(),
{
    if f.len() == 0 {
        seq![]
    } else if escape_at(f) {
        seq![octal_value(f[1], f[2], f[3]) as u8] + decode_field(f.skip(4))
    } else {
        seq![f[0]] + decode_field(f.skip(1))
    }
}

/// Decodes one mountinfo field.
pub fn decode_mount_field(field: &[u8]) -> (decoded: Vec<u8>)
    ensures
        decoded@ == decode_field(field@),
{
    let mut decoded: Vec<u8> = Vec::new();
    let mut index: usize = 0;
    assert(field@.skip(0) == field@);
    while index < field.len()
        invariant
            index <= field.len(),
            decoded@ + decode_field(field@.skip(index as int)) == decode_field(field@),
        decreases field.len() - index,
    {
        let ghost rest = field@.skip(index as int);
        if field[index] == 0x5C && field.len() - index > 3 {
            let a = field[index + 1];
            let b = field[index + 2];
            let c = field[index + 3];
            if 0x30 <= a && a <= 0x37 && 0x30 <= b && b <= 0x37 && 0x30 <= c && c <= 0x37 {
                let value: u16 = (a - 0x30) as u16 * 64 + (b - 0x30) as u16 * 8 + (c - 0x30) as u16;
                if value <= 255 {
                    assert(rest[0] == field@[index as int] && rest[1] == a && rest[2] == b && rest[3]
                        == c);
                    assert(escape_at(rest));
                    assert(rest.skip(4) == field@.skip(index + 4));
                    decoded.push(value as u8);
                    assert(decoded@ + decode_field(field@.skip(index + 4)) =~= decode_field(
                        field@,
                    ));
                    index += 4;
                    continue;
                }
            }
        }
        assert(!escape_at(rest)) by {
            if escape_at(rest) {
                assert(rest[0] == field@[index as int]);
                assert(rest[1] == field@[index + 1]);
                assert(rest[2] == field@[index + 2]);
                assert(rest[3] == field@[index + 3]);
            }
        }
        assert(rest.skip(1) == field@.skip(index + 1));
        decoded.push(field[index]);
        assert(decoded@ + decode_field(field@.skip(index + 1)) =~= decode_field(field@));
        index += 1;
    }
    assert(decoded@ + decode_field(field@.skip(field.len() as int)) == decoded@);
    decoded
}

// ---------------------------------------------------------------------------
// Which mounts are data volumes
// ---------------------------------------------------------------------------

/// File systems that never hold a user data volume: pseudo, memory, overlay,
/// image and network file systems.
pub open spec fn excluded_filesystem_names() -> Seq<Seq<u8>> {
    seq![
        seq![0x70u8, 0x72, 0x6F, 0x63],  // proc
        seq![0x73u8, 0x79, 0x73, 0x66, 0x73],  // sysfs
        seq![0x64u8, 0x65, 0x76, 0x74, 0x6D, 0x70, 0x66, 0x73],  // devtmpfs
        seq![0x64u8, 0x65, 0x76, 0x70, 0x74, 0x73],  // devpts
        seq![0x74u8, 0x6D, 0x70, 0x66, 0x73],  // tmpfs
        seq![0x63u8, 0x67, 0x72, 0x6F, 0x75, 0x70],  // cgroup
        seq![0x63u8, 0x67, 0x72, 0x6F, 0x75, 0x70, 0x32],  // cgroup2
        seq![0x6Fu8, 0x76, 0x65, 0x72, 0x6C, 0x61, 0x79],  // overlay
        seq![0x73u8, 0x71, 0x75, 0x61, 0x73, 0x68, 0x66, 0x73],  // squashfs
        seq![0x6Eu8, 0x66, 0x73],  // nfs
        seq![0x6Eu8, 0x66, 0x73, 0x34],  // nfs4
        seq![0x63u8, 0x69, 0x66, 0x73],  // cifs
        seq![0x73u8, 0x6D, 0x62, 0x33],  // smb3
        seq![0x66u8, 0x75, 0x73, 0x65, 0x2E, 0x73, 0x73, 0x68, 0x66, 0x73],  // fuse.sshfs
    ]
}

pub open spec fn spec_excluded_filesystem(filesystem: Seq<u8>) -> bool {
    excluded_filesystem_names().contains(filesystem)
}

fn excluded_filesystem_list() -> (list: Vec<Vec<u8>>)
    ensures
        list@.map_values(|f: Vec<u8>| f@) == excluded_filesystem_names(),
{
    let list = vec![
        vec![0x70u8, 0x72, 0x6F, 0x63],
        vec![0x73u8, 0x79, 0x73, 0x66, 0x73],
        vec![0x64u8, 0x65, 0x76, 0x74, 0x6D, 0x70, 0x66, 0x73],
        vec![0x64u8, 0x65, 0x76, 0x70, 0x74, 0x73],
        vec![0x74u8, 0x6D, 0x70, 0x66, 0x73],
        vec![0x63u8, 0x67, 0x72, 0x6F, 0x75, 0x70],
        vec![0x63u8, 0x67, 0x72, 0x6F, 0x75, 0x70, 0x32],
        vec![0x6Fu8, 0x76, 0x65, 0x72, 0x6C, 0x61, 0x79],
        vec![0x73u8, 0x71, 0x75, 0x61, 0x73, 0x68, 0x66, 0x73],
        vec![0x6Eu8, 0x66, 0x73],
        vec![0x6Eu8, 0x66, 0x73, 0x34],
        vec![0x63u8, 0x69, 0x66, 0x73],
        vec![0x73u8, 0x6D, 0x62, 0x33],
        vec![0x66u8, 0x75, 0x73, 0x65, 0x2E, 0x73, 0x73, 0x68, 0x66, 0x73],
    ];
    assert(list@.map_values(|f: Vec<u8>| f@) =~= excluded_filesystem_names());
    list
}

/// Whether the file-system type names one that is never indexed automatically.
pub fn is_excluded_filesystem(filesystem: &[u8]) -> (r: bool)
    ensures
        r == spec_excluded_filesystem(filesystem@),
{
    let list = excluded_filesystem_list();
    let ghost names = excluded_filesystem_names();
    let mut i: usize = 0;
    while i < list.len()
        invariant
            i <= list.len(),
            list@.map_values(|f: Vec<u8>| f@) == names,
            names == excluded_filesystem_names(),
            forall|k: int| 0 <= k < i ==> names[k] != filesystem@,
        decreases list.len() - i,
    {
        assert(list@[i as int]@ == names[i as int]);
        if same_elements_bytes(list[i].as_slice(), filesystem) {
            assert(names[i as int] == filesystem@);
            return true;
        }
        i += 1;
    }
    assert(!names.contains(filesystem@)) by {
        if names.contains(filesystem@) {
            let k = choose|k: int| 0 <= k < names.len() && names[k] == filesystem@;
            assert(k < i);
        }
    }
    false
}

/// Operating-system trees that are never indexed automatically.
pub open spec fn system_prefixes() -> Seq<Seq<u8>> {
    seq![
        seq![0x2Fu8, 0x62, 0x6F, 0x6F, 0x74],  // /boot
        seq![0x2Fu8, 0x64, 0x65, 0x76],  // /dev
        seq![0x2Fu8, 0x6F, 0x70, 0x74],  // /opt
        seq![0x2Fu8, 0x70, 0x72, 0x6F, 0x63],  // /proc
        seq![0x2Fu8, 0x73, 0x6E, 0x61, 0x70],  // /snap
        seq![0x2Fu8, 0x73, 0x79, 0x73],  // /sys
        seq![0x2Fu8, 0x74, 0x6D, 0x70],  // /tmp
        seq![0x2Fu8, 0x75, 0x73, 0x72],  // /usr
        seq![0x2Fu8, 0x76, 0x61, 0x72],  // /var
    ]
}

pub open spec fn root_path() -> Seq<u8> {
    seq![0x2Fu8]
}

pub open spec fn run_path() -> Seq<u8> {
    seq![0x2Fu8, 0x72, 0x75, 0x6E]
}

pub open spec fn run_media_path() -> Seq<u8> {
    seq![0x2Fu8, 0x72, 0x75, 0x6E, 0x2F, 0x6D, 0x65, 0x64, 0x69, 0x61]
}

/// `/`, a path under one of the system prefixes, or a path under `/run` outside
/// `/run/media`.
pub open spec fn spec_system_mount(p: Seq<u8>) -> bool {
    ||| same_path(p, root_path())
    ||| exists|k: int| 0 <= k < system_prefixes().len() && path_starts_with(p, system_prefixes()[k])
    ||| path_starts_with(p, run_path()) && !path_starts_with(p, run_media_path())
}

/// Whether a mount point lies in an operating-system tree.
pub fn is_system_mount(p: &[u8]) -> (r: bool)
    ensures
        r == spec_system_mount(p@),
{
    let root = vec![0x2Fu8];
    assert(root@ =~= root_path());
    if paths_equal(p, root.as_slice()) {
        return true;
    }
    let prefixes = vec![
        vec![0x2Fu8, 0x62, 0x6F, 0x6F, 0x74],
        vec![0x2Fu8, 0x64, 0x65, 0x76],
        vec![0x2Fu8, 0x6F, 0x70, 0x74],
        vec![0x2Fu8, 0x70, 0x72, 0x6F, 0x63],
        vec![0x2Fu8, 0x73, 0x6E, 0x61, 0x70],
        vec![0x2Fu8, 0x73, 0x79, 0x73],
        vec![0x2Fu8, 0x74, 0x6D, 0x70],
        vec![0x2Fu8, 0x75, 0x73, 0x72],
        vec![0x2Fu8, 0x76, 0x61, 0x72],
    ];
    let ghost names = system_prefixes();
    assert(prefixes@.map_values(|f: Vec<u8>| f@) =~= names);
    let mut i: usize = 0;
    while i < prefixes.len()
        invariant
            i <= prefixes.len(),
            prefixes@.map_values(|f: Vec<u8>| f@) == names,
            names == system_prefixes(),
            forall|k: int| 0 <= k < i ==> !path_starts_with(p@, names[k]),
        decreases prefixes.len() - i,
    {
        assert(prefixes@[i as int]@ == names[i as int]);
        if path_has_prefix(p, prefixes[i].as_slice()) {
            return true;
        }
        i += 1;
    }
    let run = vec![0x2Fu8, 0x72, 0x75, 0x6E];
    let run_media = vec![0x2Fu8, 0x72, 0x75, 0x6E, 0x2F, 0x6D, 0x65, 0x64, 0x69, 0x61];
    assert(run@ =~= run_path());
    assert(run_media@ =~= run_media_path());
    path_has_prefix(p, run.as_slice()) && !path_has_prefix(p, run_media.as_slice())
}

pub open spec fn dev_prefix() -> Seq<u8> {
    seq![0x2Fu8, 0x64, 0x65, 0x76, 0x2F]
}

pub open spec fn dev_loop_prefix() -> Seq<u8> {
    seq![0x2Fu8, 0x64, 0x65, 0x76, 0x2F, 0x6C, 0x6F, 0x6F, 0x70]
}

/// A block-device-backed, non-loop, non-system, non-network mount that is neither
/// `home` nor one of its ancestors.
pub open spec fn spec_local_data_mount(
    home: Seq<u8>,
    mount_point: Seq<u8>,
    filesystem: Seq<u8>,
    source: Seq<u8>,
) -> bool {
    &&& starts_with(source, dev_prefix())
    &&& !starts_with(source, dev_loop_prefix())
    &&& !spec_excluded_filesystem(filesystem)
    &&& !spec_system_mount(mount_point)
    &&& !same_path(mount_point, home)
    &&& !path_starts_with(home, mount_point)
}

pub fn is_local_data_mount(home: &[u8], mount_point: &[u8], filesystem: &[u8], source: &[u8]) -> (r:
    bool)
    ensures
        r == spec_local_data_mount(home@, mount_point@, filesystem@, source@),
{
    let dev = vec![0x2Fu8, 0x64, 0x65, 0x76, 0x2F];
    let dev_loop = vec![0x2Fu8, 0x64, 0x65, 0x76, 0x2F, 0x6C, 0x6F, 0x6F, 0x70];
    assert(dev@ =~= dev_prefix());
    assert(dev_loop@ =~= dev_loop_prefix());
    if !has_prefix_bytes(source, dev.as_slice()) || has_prefix_bytes(source, dev_loop.as_slice()) {
        return false;
    }
    if is_excluded_filesystem(filesystem) || is_system_mount(mount_point) {
        return false;
    }
    !paths_equal(mount_point, home) && !path_has_prefix(home, mount_point)
}

// ---------------------------------------------------------------------------
// Lines
// ---------------------------------------------------------------------------

pub open spec fn separator() -> Seq<u8> {
    seq![0x20u8, 0x2D, 0x20]
}

/// What one mountinfo line contributes: the identity of the mounted tree
/// (device number and root within the file system) and the decoded mount point, when
/// the line is well formed and names a local data volume.
pub open spec fn line_mount(home: Seq<u8>, line: Seq<u8>) -> Option<(Seq<u8>, Seq<u8>, Seq<u8>)> {
    if exists|i: int| first_occurrence(line, separator(), i) {
        let sep = choose|i: int| first_occurrence(line, separator(), i);
        let left = fields(line.take(sep));
        let right = fields(line.skip(sep + 3));
        if left.len() < 5 || right.len() < 2 {
            None
        } else {
            let source = decode_field(right[1]);
            let mount_root = decode_field(left[3]);
            let mount_point = decode_field(left[4]);
            if spec_local_data_mount(home, mount_point, right[0], source) {
                Some((left[2], mount_root, mount_point))
            } else {
                None
            }
        }
    } else {
        None
    }
}

/// Mount points accepted from `lines`, in order, each bind-mounted tree once, with the
/// identities seen so far.
pub open spec fn accepted_mounts(home: Seq<u8>, lines: Seq<Seq<u8>>) -> (
    Seq<Seq<u8>>,
    Set<(Seq<u8>, Seq<u8>)>,
)
    decreases lines.len(),
{
    if lines.len() == 0 {
        (seq![], Set::empty())
    } else {
        let (points, seen) = accepted_mounts(home, lines.drop_last());
        match line_mount(home, lines.last()) {
            Some((device, mount_root, mount_point)) => if seen.contains((device, mount_root)) {
                (points, seen)
            } else {
                (points.push(mount_point), seen.insert((device, mount_root)))
            },
            None => (points, seen),
        }
    }
}

pub open spec fn path_order() -> spec_fn(Seq<u8>, Seq<u8>) -> bool {
    |a: Seq<u8>, b: Seq<u8>| path_lt(a, b)
}

pub open spec fn path_equality() -> spec_fn(Seq<u8>, Seq<u8>) -> bool {
    |a: Seq<u8>, b: Seq<u8>| same_path(a, b)
}

/// The search roots of a mount table: `home`, then the accepted mount points in path
/// order with repeated paths removed.
pub open spec fn spec_roots(home: Seq<u8>, mountinfo: Seq<u8>) -> Seq<Seq<u8>> {
    let points = accepted_mounts(home, split_on(mountinfo, 0x0Au8)).0;
    dedup_by(seq![home] + sort_by(points, path_order()), path_equality())
}

pub proof fn lemma_path_order_is_strict_weak()
    ensures
        strict_weak_order(path_order()),
{
    let lt = path_order();
    assert forall|a: Seq<u8>| !#[trigger] lt(a, a) by {
        lemma_parts_lt_total(components(a), components(a));
    }
    assert forall|a: Seq<u8>, b: Seq<u8>, c: Seq<u8>| #[trigger] lt(a, b) && #[trigger] lt(b, c) implies lt(
        a,
        c,
    ) by {
        lemma_parts_lt_transitive(components(a), components(b), components(c));
    }
    assert forall|a: Seq<u8>, b: Seq<u8>, c: Seq<u8>|
        #![trigger lt(a, c), lt(a, b)]
        #![trigger lt(a, c), lt(b, c)]
        lt(a, c) implies lt(a, b) || lt(b, c) by {
        lemma_parts_lt_total(components(a), components(b));
        if components(a) == components(b) {
        } else if parts_lt_b_a(a, b) {
            lemma_parts_lt_transitive(components(b), components(a), components(c));
        }
    }
}

spec fn parts_lt_b_a(a: Seq<u8>, b: Seq<u8>) -> bool {
    path_lt(b, a)
}

/// Mount points after the first, in path order with same paths adjacent: the law
/// that the root list is ordered.
pub proof fn lemma_roots_sorted(home: Seq<u8>, mountinfo: Seq<u8>)
    ensures
        sorted_by(sort_by(accepted_mounts(home, split_on(mountinfo, 0x0Au8)).0, path_order()), path_order()),
{
    lemma_path_order_is_strict_weak();
    lemma_sort_by(accepted_mounts(home, split_on(mountinfo, 0x0Au8)).0, path_order());
}

/// Every accepted mount point is a local data volume: not a system mount, not
/// `home`, not an ancestor of `home`.
proof fn lemma_accepted_are_data(home: Seq<u8>, lines: Seq<Seq<u8>>)
    ensures
        forall|k: int|
            0 <= k < accepted_mounts(home, lines).0.len() ==> {
                let p = #[trigger] accepted_mounts(home, lines).0[k];
                !spec_system_mount(p) && !same_path(p, home) && !path_starts_with(home, p)
            },
    decreases lines.len(),
{
    if lines.len() > 0 {
        lemma_accepted_are_data(home, lines.drop_last());
        let (points, seen) = accepted_mounts(home, lines.drop_last());
        match line_mount(home, lines.last()) {
            Some((device, mount_root, mount_point)) => {
                if !seen.contains((device, mount_root)) {
                    let next = points.push(mount_point);
                    assert forall|k: int| 0 <= k < next.len() implies {
                        let p = #[trigger] next[k];
                        !spec_system_mount(p) && !same_path(p, home) && !path_starts_with(home, p)
                    } by {
                        if k < points.len() {
                            assert(next[k] == points[k]);
                        }
                    }
                }
            },
            None => {},
        }
    }
}

/// The mount point and the decoded source device of a well-formed mountinfo line,
/// whatever is mounted there.
pub open spec fn mount_entry(line: Seq<u8>) -> Option<(Seq<u8>, Seq<u8>)> {
    if exists|i: int| first_occurrence(line, separator(), i) {
        let sep = choose|i: int| first_occurrence(line, separator(), i);
        let left = fields(line.take(sep));
        let right = fields(line.skip(sep + 3));
        if left.len() < 5 || right.len() < 2 {
            None
        } else {
            Some((decode_field(left[4]), decode_field(right[1])))
        }
    } else {
        None
    }
}

/// `line` mounts a block device (a source under `/dev/`) that is not a loop device
/// (a source under `/dev/loop`) at `point`.
pub open spec fn block_device_mount_at(line: Seq<u8>, point: Seq<u8>) -> bool {
    mount_entry(line) matches Some((mount_point, source)) && mount_point == point && starts_with(
        source,
        dev_prefix(),
    ) && !starts_with(source, dev_loop_prefix())
}

/// Every accepted mount point comes from a line that mounts a block device other
/// than a loop device there.
proof fn lemma_accepted_are_block_devices(home: Seq<u8>, lines: Seq<Seq<u8>>)
    ensures
        forall|k: int|
            0 <= k < accepted_mounts(home, lines).0.len() ==> exists|j: int|
                0 <= j < lines.len() && block_device_mount_at(
                    #[trigger] lines[j],
                    #[trigger] accepted_mounts(home, lines).0[k],
                ),
    decreases lines.len(),
{
    if lines.len() > 0 {
        let init = lines.drop_last();
        lemma_accepted_are_block_devices(home, init);
        let (points, seen) = accepted_mounts(home, init);
        let next = accepted_mounts(home, lines).0;
        assert forall|k: int| 0 <= k < next.len() implies exists|j: int|
            0 <= j < lines.len() && block_device_mount_at(#[trigger] lines[j], #[trigger] next[k]) by {
            if k < points.len() {
                assert(next[k] == points[k]);
                let j = choose|j: int| 0 <= j < init.len() && block_device_mount_at(init[j], points[k]);
                assert(init[j] == lines[j]);
                assert(block_device_mount_at(lines[j], next[k]));
            } else {
                let j = lines.len() - 1;
                assert(lines[j] == lines.last());
                assert(line_mount(home, lines.last()) is Some);
                assert(block_device_mount_at(lines[j], next[k]));
            }
        }
    }
}

/// The law that only block devices are indexed: every root after `home` is the mount
/// point of some line of the mount table whose source is a block device under
/// `/dev/` and not a loop device, so mounted disk images are never searched.
pub proof fn lemma_roots_are_block_devices(home: Seq<u8>, mountinfo: Seq<u8>)
    ensures
        forall|k: int|
            1 <= k < spec_roots(home, mountinfo).len() ==> exists|j: int|
                0 <= j < split_on(mountinfo, 0x0Au8).len() && block_device_mount_at(
                    #[trigger] split_on(mountinfo, 0x0Au8)[j],
                    #[trigger] spec_roots(home, mountinfo)[k],
                ),
{
    let lines = split_on(mountinfo, 0x0Au8);
    let points = accepted_mounts(home, lines).0;
    let sorted = sort_by(points, path_order());
    let all = seq![home] + sorted;
    lemma_accepted_are_block_devices(home, lines);
    lemma_path_order_is_strict_weak();
    lemma_sort_by(points, path_order());
    crate::sorting::lemma_dedup_by_keeps_first(all, path_equality());
    let r = spec_roots(home, mountinfo);
    assert forall|k: int| 1 <= k < r.len() implies exists|j: int|
        0 <= j < lines.len() && block_device_mount_at(#[trigger] lines[j], #[trigger] r[k]) by {
        let i = choose|i: int| 1 <= i < all.len() && r[k] == all[i];
        assert(all[i] == sorted[i - 1]);
        assert(sorted.to_multiset().count(sorted[i - 1]) > 0) by {
            vstd::seq_lib::to_multiset_contains(sorted, sorted[i - 1]);
            assert(sorted.contains(sorted[i - 1]));
        }
        vstd::seq_lib::to_multiset_contains(points, sorted[i - 1]);
        let q = choose|q: int| 0 <= q < points.len() && points[q] == sorted[i - 1];
        let j = choose|j: int| 0 <= j < lines.len() && block_device_mount_at(lines[j], points[q]);
        assert(block_device_mount_at(lines[j], r[k]));
    }
}

/// The law of automatic root discovery: the first root is `home`, and every other
/// root is a local data volume that is neither a system tree nor `home` nor an
/// ancestor of `home`.
pub proof fn lemma_roots_are_data_volumes(home: Seq<u8>, mountinfo: Seq<u8>)
    ensures
        spec_roots(home, mountinfo).len() > 0,
        spec_roots(home, mountinfo)[0] == home,
        forall|k: int|
            1 <= k < spec_roots(home, mountinfo).len() ==> {
                let p = #[trigger] spec_roots(home, mountinfo)[k];
                !spec_system_mount(p) && !same_path(p, home) && !path_starts_with(home, p)
            },
{
    let points = accepted_mounts(home, split_on(mountinfo, 0x0Au8)).0;
    let sorted = sort_by(points, path_order());
    let all = seq![home] + sorted;
    lemma_accepted_are_data(home, split_on(mountinfo, 0x0Au8));
    lemma_path_order_is_strict_weak();
    lemma_sort_by(points, path_order());
    crate::sorting::lemma_dedup_by_keeps_first(all, path_equality());
    assert(all[0] == home);
    let r = spec_roots(home, mountinfo);
    assert forall|k: int| 1 <= k < r.len() implies {
        let p = #[trigger] r[k];
        !spec_system_mount(p) && !same_path(p, home) && !path_starts_with(home, p)
    } by {
        let j = choose|j: int| 1 <= j < all.len() && r[k] == all[j];
        assert(all[j] == sorted[j - 1]);
        assert(sorted.to_multiset().count(sorted[j - 1]) > 0) by {
            vstd::seq_lib::to_multiset_contains(sorted, sorted[j - 1]);
            assert(sorted.contains(sorted[j - 1]));
        }
        vstd::seq_lib::to_multiset_contains(points, sorted[j - 1]);
        let q = choose|q: int| 0 <= q < points.len() && points[q] == sorted[j - 1];
    }
}

fn line_mount_exec(home: &[u8], line: &[u8]) -> (r: Option<(Vec<u8>, Vec<u8>, Vec<u8>)>)
    ensures
        r matches Some(t) ==> line_mount(home@, line@) == Some((t.0@, t.1@, t.2@)),
        r is None ==> line_mount(home@, line@) is None,
{
    let sep = vec![0x20u8, 0x2D, 0x20];
    assert(sep@ =~= separator());
    let found = find_seq_bytes(line, sep.as_slice());
    let separator_at = match found {
        Some(i) => i,
        None => {
            assert(!exists|i: int| first_occurrence(line@, separator(), i)) by {
                if exists|i: int| first_occurrence(line@, separator(), i) {
                    let i = choose|i: int| first_occurrence(line@, separator(), i);
                    assert(crate::text::contains_seq(line@, separator())) by {
                        assert(crate::text::occurs_at(line@, separator(), i));
                    }
                }
            }
            return None;
        },
    };
    proof {
        let c = choose|i: int| first_occurrence(line@, separator(), i);
        assert(first_occurrence(line@, separator(), separator_at as int));
        if c != separator_at as int {
            if c < separator_at {
                assert(!crate::text::occurs_at(line@, separator(), c));
            } else {
                assert(!crate::text::occurs_at(line@, separator(), separator_at as int));
            }
        }
    }
    let mut left_bytes: Vec<u8> = Vec::new();
    let mut right_bytes: Vec<u8> = Vec::new();
    let mut i: usize = 0;
    while i < separator_at
        invariant
            separator_at + 3 <= line.len(),
            i <= separator_at,
            left_bytes@ == line@.take(i as int),
        decreases separator_at - i,
    {
        left_bytes.push(line[i]);
        i += 1;
        assert(left_bytes@ =~= line@.take(i as int));
    }
    let mut j: usize = separator_at + 3;
    while j < line.len()
        invariant
            separator_at + 3 <= j <= line.len(),
            right_bytes@ == line@.subrange(separator_at + 3, j as int),
        decreases line.len() - j,
    {
        right_bytes.push(line[j]);
        j += 1;
        assert(right_bytes@ =~= line@.subrange(separator_at + 3, j as int));
    }
    assert(right_bytes@ =~= line@.skip(separator_at + 3));
    let left = split_fields(left_bytes.as_slice());
    let right = split_fields(right_bytes.as_slice());
    if left.len() < 5 || right.len() < 2 {
        return None;
    }
    assert(left@[3]@ == fields(line@.take(separator_at as int))[3]);
    assert(left@[4]@ == fields(line@.take(separator_at as int))[4]);
    assert(left@[2]@ == fields(line@.take(separator_at as int))[2]);
    assert(right@[0]@ == fields(line@.skip(separator_at + 3))[0]);
    assert(right@[1]@ == fields(line@.skip(separator_at + 3))[1]);
    let source = decode_mount_field(right[1].as_slice());
    let mount_root = decode_mount_field(left[3].as_slice());
    let mount_point = decode_mount_field(left[4].as_slice());
    if !is_local_data_mount(home, mount_point.as_slice(), right[0].as_slice(), source.as_slice()) {
        return None;
    }
    let device = copy_bytes(left[2].as_slice());
    Some((device, mount_root, mount_point))
}

/// The identities recorded in `seen`.
pub open spec fn seen_set(seen: Seq<(Vec<u8>, Vec<u8>)>) -> Set<(Seq<u8>, Seq<u8>)> {
    Set::new(|id: (Seq<u8>, Seq<u8>)| exists|k: int| 0 <= k < seen.len() && seen[k].0@ == id.0 && seen[k].1@ == id.1)
}

fn seen_contains(seen: &Vec<(Vec<u8>, Vec<u8>)>, device: &Vec<u8>, mount_root: &Vec<u8>) -> (r: bool)
    ensures
        r == seen_set(seen@).contains((device@, mount_root@)),
{
    let mut k: usize = 0;
    while k < seen.len()
        invariant
            k <= seen.len(),
            forall|m: int| 0 <= m < k ==> !(seen@[m].0@ == device@ && seen@[m].1@ == mount_root@),
        decreases seen.len() - k,
    {
        if same_elements_bytes(seen[k].0.as_slice(), device.as_slice()) && same_elements_bytes(
            seen[k].1.as_slice(),
            mount_root.as_slice(),
        ) {
            return true;
        }
        k += 1;
    }
    false
}

/// Inserts `p` into the path-ordered `sorted` after every path it does not order before.
fn insert_path(sorted: &mut Vec<Vec<u8>>, p: Vec<u8>)
    ensures
        final(sorted)@.map_values(|v: Vec<u8>| v@) == old(sorted)@.map_values(|v: Vec<u8>| v@).insert(
            insert_pos(old(sorted)@.map_values(|v: Vec<u8>| v@), p@, path_order()) as int,
            p@,
        ),
{
    let ghost views = sorted@.map_values(|v: Vec<u8>| v@);
    let mut j: usize = sorted.len();
    assert(views.take(j as int) == views);
    while j > 0 && path_less(p.as_slice(), sorted[j - 1].as_slice())
        invariant
            j <= sorted.len(),
            views == sorted@.map_values(|v: Vec<u8>| v@),
            insert_pos(views, p@, path_order()) == insert_pos(views.take(j as int), p@, path_order()),
        decreases j,
    {
        assert(views.take(j as int).last() == views[j - 1]);
        assert(views.take(j as int).drop_last() == views.take(j - 1));
        j -= 1;
    }
    proof {
        if j > 0 {
            assert(views.take(j as int).last() == views[j - 1]);
        }
    }
    sorted.insert(j, p);
    assert(sorted@.map_values(|v: Vec<u8>| v@) =~= views.insert(j as int, p@));
}

/// Candidate search roots from a mount table: `home` first, then every local data
/// volume once, in path order.
pub fn roots_from_mountinfo(home: &[u8], mountinfo: &[u8]) -> (roots: Vec<Vec<u8>>)
    ensures
        roots@.map_values(|v: Vec<u8>| v@) == spec_roots(home@, mountinfo@),
{
    let lines = split_at_byte(mountinfo, 0x0A);
    let ghost line_views = lines@.map_values(|v: Vec<u8>| v@);
    let mut points: Vec<Vec<u8>> = Vec::new();
    let mut seen: Vec<(Vec<u8>, Vec<u8>)> = Vec::new();
    let mut i: usize = 0;
    while i < lines.len()
        invariant
            i <= lines.len(),
            line_views == lines@.map_values(|v: Vec<u8>| v@),
            line_views == split_on(mountinfo@, 0x0Au8),
            points@.map_values(|v: Vec<u8>| v@) == accepted_mounts(home@, line_views.take(i as int)).0,
            accepted_mounts(home@, line_views.take(i as int)).1 == seen_set(seen@),
        decreases lines.len() - i,
    {
        let ghost prev = accepted_mounts(home@, line_views.take(i as int));
        assert(line_views.take(i + 1).drop_last() == line_views.take(i as int));
        assert(line_views.take(i + 1).last() == lines@[i as int]@);
        match line_mount_exec(home, lines[i].as_slice()) {
            Some((device, mount_root, mount_point)) => {
                if !seen_contains(&seen, &device, &mount_root) {
                    let ghost d = device@;
                    let ghost r = mount_root@;
                    let ghost before = points@;
                    points.push(mount_point);
                    assert(points@.map_values(|v: Vec<u8>| v@) =~= before.map_values(
                        |v: Vec<u8>| v@,
                    ).push(points@.last()@));
                    let ghost seen_before = seen@;
                    seen.push((device, mount_root));
                    assert(seen_set(seen@) =~= seen_set(seen_before).insert((d, r))) by {
                        assert forall|id: (Seq<u8>, Seq<u8>)| #[trigger] seen_set(seen@).contains(id) implies seen_set(seen_before).insert((d, r)).contains(id) by {
                            let k = choose|k: int| 0 <= k < seen@.len() && seen@[k].0@ == id.0 && seen@[k].1@ == id.1;
                            if k < seen_before.len() {
                                assert(seen_before[k] == seen@[k]);
                            }
                        }
                        assert forall|id: (Seq<u8>, Seq<u8>)| #[trigger] seen_set(seen_before).insert((d, r)).contains(id) implies seen_set(seen@).contains(id) by {
                            if id == (d, r) {
                                assert(seen@[seen@.len() - 1].0@ == d);
                            } else {
                                let k = choose|k: int| 0 <= k < seen_before.len() && seen_before[k].0@ == id.0 && seen_before[k].1@ == id.1;
                                assert(seen@[k] == seen_before[k]);
                            }
                        }
                    }
                } else {
                    assert(prev.1.contains((device@, mount_root@)));
                }
            },
            None => {},
        }
        i += 1;
    }
    assert(line_views.take(lines.len() as int) == line_views);
    let mut sorted: Vec<Vec<u8>> = Vec::new();
    let ghost point_views = points@.map_values(|v: Vec<u8>| v@);
    let mut k: usize = 0;
    assert(sorted@.map_values(|v: Vec<u8>| v@) =~= sort_by(point_views.take(0), path_order()));
    while k < points.len()
        invariant
            k <= points.len(),
            point_views == points@.map_values(|v: Vec<u8>| v@),
            sorted@.map_values(|v: Vec<u8>| v@) == sort_by(point_views.take(k as int), path_order()),
        decreases points.len() - k,
    {
        assert(point_views.take(k + 1).drop_last() == point_views.take(k as int));
        assert(point_views.take(k + 1).last() == points@[k as int]@);
        insert_path(&mut sorted, copy_bytes(points[k].as_slice()));
        k += 1;
    }
    assert(point_views.take(points.len() as int) == point_views);
    let ghost all = seq![home@] + sort_by(point_views, path_order());
    let mut roots: Vec<Vec<u8>> = Vec::new();
    roots.push(copy_bytes(home));
    assert(all.take(1) =~= seq![home@]);
    assert(roots@.map_values(|v: Vec<u8>| v@) =~= dedup_by(all.take(1), path_equality())) by {
        assert(all.take(1).drop_last() =~= Seq::<Seq<u8>>::empty());
        assert(dedup_by(Seq::<Seq<u8>>::empty(), path_equality()) == Seq::<Seq<u8>>::empty());
        assert(all.take(1).last() == home@);
        assert(roots@.map_values(|v: Vec<u8>| v@) =~= seq![home@]);
    }
    let mut m: usize = 0;
    while m < sorted.len()
        invariant
            m <= sorted.len(),
            all == seq![home@] + sorted@.map_values(|v: Vec<u8>| v@),
            roots.len() > 0,
            roots@.map_values(|v: Vec<u8>| v@) == dedup_by(all.take(m + 1), path_equality()),
        decreases sorted.len() - m,
    {
        assert(all.take(m + 2).drop_last() == all.take(m + 1));
        assert(all.take(m + 2).last() == sorted@[m as int]@);
        let last = roots.len() - 1;
        assert(roots@.map_values(|v: Vec<u8>| v@).last() == roots@[last as int]@);
        if !paths_equal(roots[last].as_slice(), sorted[m].as_slice()) {
            let ghost before = roots@;
            roots.push(copy_bytes(sorted[m].as_slice()));
            assert(roots@.map_values(|v: Vec<u8>| v@) =~= before.map_values(|v: Vec<u8>| v@).push(
                sorted@[m as int]@,
            ));
        }
        m += 1;
    }
    assert(all.take(sorted.len() + 1) == all);
    roots
}

/// Which discovered roots are indexed: the home directory always, any other root
/// only where it is a directory that can be read.
pub fn keep_discovered_root(root: &[u8], home: &[u8], readable: bool) -> (keep: bool)
    ensures
        keep == (same_path(root@, home@) || readable),
{
    paths_equal(root, home) || readable
}

/// The law of the discovered roots' order: after `home`, the roots are in strictly
/// ascending path order, so no path is listed twice.
pub proof fn lemma_roots_ascending(home: Seq<u8>, mountinfo: Seq<u8>)
    ensures
        forall|i: int, j: int|
            1 <= i < j < spec_roots(home, mountinfo).len() ==> path_lt(
                #[trigger] spec_roots(home, mountinfo)[i],
                #[trigger] spec_roots(home, mountinfo)[j],
            ) && !same_path(spec_roots(home, mountinfo)[i], spec_roots(home, mountinfo)[j]),
{
    let points = accepted_mounts(home, split_on(mountinfo, 0x0Au8)).0;
    let sorted = sort_by(points, path_order());
    let all = seq![home] + sorted;
    lemma_path_order_is_strict_weak();
    lemma_roots_sorted(home, mountinfo);
    assert(all.skip(1) =~= sorted);
    assert forall|a: Seq<u8>, b: Seq<u8>| #[trigger] path_equality()(a, b) <==> (!path_order()(a, b)
        && !path_order()(b, a)) by {
        lemma_parts_lt_total(components(a), components(b));
    }
    lemma_dedup_tail_ascending(all, path_order(), path_equality());
    let r = spec_roots(home, mountinfo);
    assert forall|i: int, j: int| 1 <= i < j < r.len() implies path_lt(#[trigger] r[i], #[trigger] r[j])
        && !same_path(r[i], r[j]) by {
        assert(path_order()(r[i], r[j]));
        lemma_parts_lt_total(components(r[i]), components(r[j]));
    }
}

} // verus!
