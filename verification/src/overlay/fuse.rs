//! The commands that mount the layers with `fuse-overlayfs` and serve the
//! merged tree with `virtiofsd`, and the checks on the paths handed to them.
//!
//! `fuse-overlayfs` takes its directories in one option string, separated by
//! `:` and `,`; a path that holds either character could smuggle in another
//! directory or option, so such paths are refused.

use vstd::prelude::*;
use crate::text::{contains_char, push_char};

verus! {

/// The errors of mounting and serving.
#[derive(Debug)]
pub enum OverlayError {
    Io(std::io::Error),
    NotFound,
    VirtiofsdNotFound,
    MountFailed(i32),
    InvalidPath(String),
}

impl From<std::io::Error> for OverlayError {
    fn from(e: std::io::Error) -> (r: Self) {
        OverlayError::Io(e)
    }
}

impl vstd::std_specs::convert::FromSpecImpl<std::io::Error> for OverlayError {
    open spec fn obeys_from_spec() -> bool {
        true
    }

    open spec fn from_spec(e: std::io::Error) -> Self {
        OverlayError::Io(e)
    }
}

/// `p` holds neither `:` nor `,`.
pub open spec fn is_safe_path(p: Seq<char>) -> bool {
    !p.contains(':') && !p.contains(',')
}

/// Only `:` and `,` make a path unfit for the option string: a path is
/// accepted exactly when none of its characters is one of those two.
pub proof fn lemma_safe_path_chars(p: Seq<char>)
    ensures
        is_safe_path(p) <==> forall|i: int| 0 <= i < p.len() ==> #[trigger] p[i] != ':' && p[i] != ',',
{
    if !is_safe_path(p) {
        if p.contains(':') {
            let i = choose|i: int| 0 <= i < p.len() && p[i] == ':';
            assert(p[i] == ':');
        } else {
            let i = choose|i: int| 0 <= i < p.len() && p[i] == ',';
            assert(p[i] == ',');
        }
    }
}

/// Accepts a path that can stand in an option string.
pub fn safe_path_str(p: &str) -> (r: Result<&str, OverlayError>)
    ensures
        is_safe_path(p@) ==> (r matches Ok(x) && x@ == p@),
        !is_safe_path(p@) ==> (r matches Err(OverlayError::InvalidPath(q)) && q@ == p@),
{
    if contains_char(p, ':') || contains_char(p, ',') {
        return Err(OverlayError::InvalidPath(String::from_str(p)));
    }
    Ok(p)
}

/// A mounted overlay; unmounting it is left to the owner.
#[derive(Debug)]
pub struct OverlayMount {
    merged: String,
}

impl OverlayMount {
    /// Where the overlay is mounted.
    pub fn merged(&self) -> (r: &str)
        ensures
            r@ == self.merged_view(),
    {
        self.merged.as_str()
    }

    pub closed spec fn merged_view(&self) -> Seq<char> {
        self.merged@
    }
}

/// The text of each path of a list.
pub open spec fn texts(v: Seq<String>) -> Seq<Seq<char>> {
    v.map_values(|s: String| s@)
}

/// The parts joined, with `sep` between each two.
pub open spec fn join_with(parts: Seq<Seq<char>>, sep: char) -> Seq<char>
    decreases parts.len(),
{
    if parts.len() == 0 {
        Seq::<char>::empty()
    } else if parts.len() == 1 {
        parts[0]
    } else {
        join_with(parts.drop_last(), sep) + seq![sep] + parts.last()
    }
}

/// The position of the first path that cannot stand in an option string.
pub open spec fn first_unsafe(ps: Seq<Seq<char>>) -> Option<int> {
    if exists|i: int| 0 <= i < ps.len() && !is_safe_path(ps[i]) {
        Some(
            choose|i: int|
                0 <= i < ps.len() && !is_safe_path(ps[i]) && forall|j: int|
                    0 <= j < i ==> is_safe_path(ps[j]),
        )
    } else {
        None
    }
}

/// The first path refused, in the order lower directories, upper, work, merged.
pub open spec fn first_refused_path(
    lowers: Seq<Seq<char>>,
    upper: Seq<char>,
    work: Seq<char>,
    merged: Seq<char>,
) -> Option<Seq<char>> {
    match first_unsafe(lowers) {
        Some(i) => Some(lowers[i]),
        None => if !is_safe_path(upper) {
            Some(upper)
        } else if !is_safe_path(work) {
            Some(work)
        } else if !is_safe_path(merged) {
            Some(merged)
        } else {
            None
        },
    }
}

/// A mount whose lower directories, upper, work and merged paths hold
/// neither `:` nor `,` refuses none of them: it is planned as asked.
pub proof fn lemma_clean_paths_mount(
    lowers: Seq<Seq<char>>,
    upper: Seq<char>,
    work: Seq<char>,
    merged: Seq<char>,
)
    requires
        forall|k: int, i: int|
            0 <= k < lowers.len() && 0 <= i < lowers[k].len() ==> #[trigger] lowers[k][i] != ':' && lowers[k][i]
                != ',',
        forall|i: int| 0 <= i < upper.len() ==> #[trigger] upper[i] != ':' && upper[i] != ',',
        forall|i: int| 0 <= i < work.len() ==> #[trigger] work[i] != ':' && work[i] != ',',
        forall|i: int| 0 <= i < merged.len() ==> #[trigger] merged[i] != ':' && merged[i] != ',',
    ensures
        first_refused_path(lowers, upper, work, merged) is None,
{
    assert forall|k: int| 0 <= k < lowers.len() implies is_safe_path(#[trigger] lowers[k]) by {
        lemma_safe_path_chars(lowers[k]);
        assert forall|i: int| 0 <= i < lowers[k].len() implies #[trigger] lowers[k][i] != ':' && lowers[k][i]
            != ',' by {}
    }
    lemma_safe_path_chars(upper);
    lemma_safe_path_chars(work);
    lemma_safe_path_chars(merged);
}

/// The option string of `fuse-overlayfs`.
pub open spec fn mount_options(lowers: Seq<Seq<char>>, upper: Seq<char>, work: Seq<char>) -> Seq<char> {
    "lowerdir="@ + join_with(lowers, ':') + ",upperdir="@ + upper + ",workdir="@ + work
}

/// A `fuse-overlayfs` invocation: `program -o options target`.
#[derive(Debug)]
pub struct MountCommand {
    pub program: String,
    pub options: String,
    pub target: String,
}

/// The lower directories joined with `:`, or the first of them that cannot
/// stand in an option string.
fn join_safe_paths(lower_dirs: &Vec<String>) -> (r: Result<String, OverlayError>)
    ensures
        match first_unsafe(texts(lower_dirs@)) {
            Some(i) => r matches Err(OverlayError::InvalidPath(x)) && x@ == texts(lower_dirs@)[i],
            None => r matches Ok(j) && j@ == join_with(texts(lower_dirs@), ':'),
        },
{
    let ghost ls = texts(lower_dirs@);
    let n = lower_dirs.len();
    let mut joined = String::new();
    let mut i: usize = 0;
    while i < n
        invariant
            n == lower_dirs@.len(),
            ls == texts(lower_dirs@),
            ls.len() == n,
            i <= n,
            forall|j: int| 0 <= j < i ==> is_safe_path(#[trigger] ls[j]),
            joined@ == join_with(ls.take(i as int), ':'),
        decreases n - i,
    {
        let d = lower_dirs[i].as_str();
        assert(d@ == ls[i as int]);
        match safe_path_str(d) {
            Ok(_) => {},
            Err(e) => {
                proof {
                    assert(!is_safe_path(ls[i as int]));
                    let k = choose|k: int|
                        0 <= k < ls.len() && !is_safe_path(ls[k]) && forall|j: int|
                            0 <= j < k ==> is_safe_path(ls[j]);
                    assert(0 <= k < ls.len() && !is_safe_path(ls[k]));
                    assert(k == i as int);
                }
                return Err(e);
            },
        }
        proof {
            let t = ls.take(i as int + 1);
            assert(t.drop_last() =~= ls.take(i as int));
            assert(t.last() == ls[i as int]);
        }
        if i == 0 {
            joined = String::from_str(d);
            proof {
                assert(ls.take(1) =~= seq![ls[0]]);
            }
        } else {
            push_char(&mut joined, ':');
            joined = joined.concat(d);
        }
        i = i + 1;
    }
    proof {
        assert(ls.take(n as int) =~= ls);
    }
    Ok(joined)
}

/// Plans the mount of `lower_dirs` (top layer first, as `fuse-overlayfs`
/// reads `lowerdir`) with `upper` and `work` at
/// `merged`; `found` tells whether `fuse-overlayfs` is installed.
pub fn plan_overlay_mount(
    found: bool,
    lower_dirs: &Vec<String>,
    upper: &str,
    work: &str,
    merged: &str,
) -> (r: Result<MountCommand, OverlayError>)
    ensures
        !found ==> (r matches Err(OverlayError::NotFound)),
        found ==> match first_refused_path(texts(lower_dirs@), upper@, work@, merged@) {
            Some(q) => r matches Err(OverlayError::InvalidPath(x)) && x@ == q,
            None => r matches Ok(c) && c.program@ == "fuse-overlayfs"@ && c.options@ == mount_options(
                texts(lower_dirs@),
                upper@,
                work@,
            ) && c.target@ == merged@,
        },
{
    if !found {
        return Err(OverlayError::NotFound);
    }
    let joined = join_safe_paths(lower_dirs)?;
    let upper = safe_path_str(upper)?;
    let work = safe_path_str(work)?;
    let merged = safe_path_str(merged)?;
    let options = String::from_str("lowerdir=").concat(joined.as_str()).concat(",upperdir=").concat(
        upper,
    ).concat(",workdir=").concat(work);
    Ok(MountCommand { program: String::from_str("fuse-overlayfs"), options, target: String::from_str(merged) })
}

/// The outcome of running a mount command: the mount on success, else the
/// exit code (`-1` when the process was ended by a signal).
pub fn mount_result(success: bool, code: Option<i32>, cmd: MountCommand) -> (r: Result<OverlayMount, OverlayError>)
    ensures
        success ==> (r matches Ok(m) && m.merged_view() == cmd.target@),
        !success ==> (r matches Err(OverlayError::MountFailed(c)) && c == match code {
            Some(x) => x,
            None => -1i32,
        }),
{
    if !success {
        let c = match code {
            Some(x) => x,
            None => -1,
        };
        return Err(OverlayError::MountFailed(c));
    }
    Ok(OverlayMount { merged: cmd.target })
}

/// The places where `virtiofsd` may be installed, in the order they are tried.
pub fn virtiofsd_candidates() -> (r: Vec<&'static str>)
    ensures
        r@.len() == 3,
        r@[0]@ == "/usr/libexec/virtiofsd"@,
        r@[1]@ == "/usr/lib/qemu/virtiofsd"@,
        r@[2]@ == "/usr/local/bin/virtiofsd"@,
{
    let mut v: Vec<&'static str> = Vec::new();
    v.push("/usr/libexec/virtiofsd");
    v.push("/usr/lib/qemu/virtiofsd");
    v.push("/usr/local/bin/virtiofsd");
    v
}

/// The first candidate of `virtiofsd_candidates` that exists, given whether
/// each one does (`present[i]` for candidate `i`).
pub fn find_virtiofsd(present: &Vec<bool>) -> (r: Option<&'static str>)
    requires
        present@.len() == 3,
    ensures
        present@[0] ==> (r matches Some(p) && p@ == "/usr/libexec/virtiofsd"@),
        !present@[0] && present@[1] ==> (r matches Some(p) && p@ == "/usr/lib/qemu/virtiofsd"@),
        !present@[0] && !present@[1] && present@[2] ==> (r matches Some(p) && p@ == "/usr/local/bin/virtiofsd"@),
        !present@[0] && !present@[1] && !present@[2] ==> r is None,
{
    let candidates = virtiofsd_candidates();
    let mut i: usize = 0;
    while i < 3
        invariant
            i <= 3,
            candidates@.len() == 3,
            present@.len() == 3,
            candidates@[0]@ == "/usr/libexec/virtiofsd"@,
            candidates@[1]@ == "/usr/lib/qemu/virtiofsd"@,
            candidates@[2]@ == "/usr/local/bin/virtiofsd"@,
            forall|j: int| 0 <= j < i ==> !present@[j],
        decreases 3 - i,
    {
        if present[i] {
            return Some(candidates[i]);
        }
        i = i + 1;
    }
    None
}

/// A `virtiofsd` invocation.
#[derive(Debug)]
pub struct VirtiofsdCommand {
    pub program: String,
    pub args: Vec<String>,
}

/// The arguments `virtiofsd` is started with.
pub open spec fn virtiofsd_arg_texts(socket: Seq<char>, shared_dir: Seq<char>) -> Seq<Seq<char>> {
    seq![
        "--socket-path"@,
        socket,
        "--shared-dir"@,
        shared_dir,
        "--cache"@,
        "auto"@,
        "--sandbox"@,
        "namespace"@,
        "--thread-pool-size"@,
        "1"@,
        "--flock"@,
        "--no-allow-foreign-sync"@,
    ]
}

/// Plans serving `shared_dir` on the vhost-user socket `socket` with the
/// `virtiofsd` found at `bin`.
pub fn plan_virtiofsd(bin: Option<&'static str>, socket: &str, shared_dir: &str) -> (r: Result<VirtiofsdCommand, OverlayError>)
    ensures
        bin is None ==> (r matches Err(OverlayError::VirtiofsdNotFound)),
        bin is Some && !is_safe_path(socket@) ==> (r matches Err(OverlayError::InvalidPath(q)) && q@ == socket@),
        bin is Some && is_safe_path(socket@) && !is_safe_path(shared_dir@) ==> (r matches Err(OverlayError::InvalidPath(q)) && q@ == shared_dir@),
        bin is Some && is_safe_path(socket@) && is_safe_path(shared_dir@) ==> (r matches Ok(c)
            && c.program@ == bin.unwrap()@ && texts(c.args@) == virtiofsd_arg_texts(socket@, shared_dir@)),
{
    let b = match bin {
        Some(b) => b,
        None => return Err(OverlayError::VirtiofsdNotFound),
    };
    let socket = safe_path_str(socket)?;
    let shared_dir = safe_path_str(shared_dir)?;
    let mut args: Vec<String> = Vec::new();
    args.push(String::from_str("--socket-path"));
    args.push(String::from_str(socket));
    args.push(String::from_str("--shared-dir"));
    args.push(String::from_str(shared_dir));
    args.push(String::from_str("--cache"));
    args.push(String::from_str("auto"));
    args.push(String::from_str("--sandbox"));
    args.push(String::from_str("namespace"));
    args.push(String::from_str("--thread-pool-size"));
    args.push(String::from_str("1"));
    args.push(String::from_str("--flock"));
    args.push(String::from_str("--no-allow-foreign-sync"));
    assert(texts(args@) =~= virtiofsd_arg_texts(socket@, shared_dir@));
    Ok(VirtiofsdCommand { program: String::from_str(b), args })
}

proof fn lemma_split_at_first(a: Seq<char>, b: Seq<char>, r1: Seq<char>, r2: Seq<char>, c: char)
    requires
        !a.contains(c),
        !b.contains(c),
        a + seq![c] + r1 == b + seq![c] + r2,
    ensures
        a == b,
        r1 == r2,
{
    let x = a + seq![c] + r1;
    let y = b + seq![c] + r2;
    if a.len() < b.len() {
        assert(x[a.len() as int] == c);
        assert(y[a.len() as int] == b[a.len() as int]);
        assert(b.contains(c));
    } else if b.len() < a.len() {
        assert(y[b.len() as int] == c);
        assert(x[b.len() as int] == a[b.len() as int]);
        assert(a.contains(c));
    }
    assert(x.take(a.len() as int) =~= a);
    assert(y.take(b.len() as int) =~= b);
    assert(x.skip(a.len() as int + 1) =~= r1);
    assert(y.skip(b.len() as int + 1) =~= r2);
}

proof fn lemma_split_at_last(a: Seq<char>, b: Seq<char>, r1: Seq<char>, r2: Seq<char>, c: char)
    requires
        !r1.contains(c),
        !r2.contains(c),
        a + seq![c] + r1 == b + seq![c] + r2,
    ensures
        a == b,
        r1 == r2,
{
    let x = a + seq![c] + r1;
    let y = b + seq![c] + r2;
    assert(x.len() == y.len());
    if r1.len() < r2.len() {
        let k = a.len() as int;
        assert(x[k] == c);
        assert(y[k] == r2[k - b.len() - 1]);
        assert(r2.contains(c));
    } else if r2.len() < r1.len() {
        let k = b.len() as int;
        assert(y[k] == c);
        assert(x[k] == r1[k - a.len() - 1]);
        assert(r1.contains(c));
    }
    assert(x.take(a.len() as int) =~= a);
    assert(y.take(b.len() as int) =~= b);
    assert(x.skip(a.len() as int + 1) =~= r1);
    assert(y.skip(b.len() as int + 1) =~= r2);
}

proof fn lemma_join_without(parts: Seq<Seq<char>>, sep: char, d: char)
    requires
        sep != d,
        forall|i: int| 0 <= i < parts.len() ==> !(#[trigger] parts[i]).contains(d),
    ensures
        !join_with(parts, sep).contains(d),
    decreases parts.len(),
{
    if parts.len() > 1 {
        let rest = parts.drop_last();
        assert forall|i: int| 0 <= i < rest.len() implies !(#[trigger] rest[i]).contains(d) by {
            assert(rest[i] == parts[i]);
        }
        lemma_join_without(rest, sep, d);
        let j = join_with(parts, sep);
        let a = join_with(rest, sep);
        let l = parts.last();
        assert(!l.contains(d));
        if j.contains(d) {
            let k = choose|k: int| 0 <= k < j.len() && j[k] == d;
            if k < a.len() {
                assert(j[k] == a[k]);
                assert(a.contains(d));
            } else if k > a.len() {
                assert(j[k] == l[k - a.len() - 1]);
                assert(l.contains(d));
            }
        }
    } else if parts.len() == 1 {
        assert(!parts[0].contains(d));
    }
}

proof fn lemma_join_injective(l1: Seq<Seq<char>>, l2: Seq<Seq<char>>)
    requires
        l1.len() > 0,
        l2.len() > 0,
        forall|i: int| 0 <= i < l1.len() ==> !(#[trigger] l1[i]).contains(':'),
        forall|i: int| 0 <= i < l2.len() ==> !(#[trigger] l2[i]).contains(':'),
        join_with(l1, ':') == join_with(l2, ':'),
    ensures
        l1 == l2,
    decreases l1.len() + l2.len(),
{
    if l1.len() == 1 && l2.len() == 1 {
        assert(l1 =~= l2);
    } else if l1.len() == 1 {
        let j = join_with(l2, ':');
        let a = join_with(l2.drop_last(), ':');
        assert(j[a.len() as int] == ':');
        assert(l1[0].contains(':'));
    } else if l2.len() == 1 {
        let j = join_with(l1, ':');
        let a = join_with(l1.drop_last(), ':');
        assert(j[a.len() as int] == ':');
        assert(l2[0].contains(':'));
    } else {
        let r1 = l1.drop_last();
        let r2 = l2.drop_last();
        assert(!l1.last().contains(':'));
        assert(!l2.last().contains(':'));
        lemma_split_at_last(join_with(r1, ':'), join_with(r2, ':'), l1.last(), l2.last(), ':');
        assert forall|i: int| 0 <= i < r1.len() implies !(#[trigger] r1[i]).contains(':') by {
            assert(r1[i] == l1[i]);
        }
        assert forall|i: int| 0 <= i < r2.len() implies !(#[trigger] r2[i]).contains(':') by {
            assert(r2[i] == l2[i]);
        }
        lemma_join_injective(r1, r2);
        assert(l1 =~= r1.push(l1.last()));
        assert(l2 =~= r2.push(l2.last()));
    }
}

/// The option string of a mount names its directories unambiguously: when
/// every path is accepted (no `:` or `,`), two mounts with one option string
/// have the same lower, upper and work directories.
pub proof fn lemma_mount_options_unambiguous(
    l1: Seq<Seq<char>>,
    u1: Seq<char>,
    w1: Seq<char>,
    l2: Seq<Seq<char>>,
    u2: Seq<char>,
    w2: Seq<char>,
)
    requires
        l1.len() > 0,
        l2.len() > 0,
        forall|i: int| 0 <= i < l1.len() ==> is_safe_path(#[trigger] l1[i]),
        forall|i: int| 0 <= i < l2.len() ==> is_safe_path(#[trigger] l2[i]),
        is_safe_path(u1),
        is_safe_path(w1),
        is_safe_path(u2),
        is_safe_path(w2),
        mount_options(l1, u1, w1) == mount_options(l2, u2, w2),
    ensures
        l1 == l2,
        u1 == u2,
        w1 == w2,
{
    reveal_strlit("lowerdir=");
    reveal_strlit(",upperdir=");
    reveal_strlit(",workdir=");
    let p = "lowerdir="@;
    let up = ",upperdir="@.skip(1);
    let wp = ",workdir="@.skip(1);
    assert(",upperdir="@[0] == ',');
    assert(",workdir="@[0] == ',');
    let j1 = join_with(l1, ':');
    let j2 = join_with(l2, ':');
    assert forall|i: int| 0 <= i < l1.len() implies !(#[trigger] l1[i]).contains(',') by {
        assert(is_safe_path(l1[i]));
    }
    assert forall|i: int| 0 <= i < l2.len() implies !(#[trigger] l2[i]).contains(',') by {
        assert(is_safe_path(l2[i]));
    }
    assert forall|i: int| 0 <= i < l1.len() implies !(#[trigger] l1[i]).contains(':') by {
        assert(is_safe_path(l1[i]));
    }
    assert forall|i: int| 0 <= i < l2.len() implies !(#[trigger] l2[i]).contains(':') by {
        assert(is_safe_path(l2[i]));
    }
    lemma_join_without(l1, ':', ',');
    lemma_join_without(l2, ':', ',');
    assert(",upperdir="@ =~= seq![','] + up);
    assert(",workdir="@ =~= seq![','] + wp);
    let rest1 = up + u1 + seq![','] + wp + w1;
    let rest2 = up + u2 + seq![','] + wp + w2;
    assert(mount_options(l1, u1, w1) =~= p + (j1 + seq![','] + rest1));
    assert(mount_options(l2, u2, w2) =~= p + (j2 + seq![','] + rest2));
    assert((p + (j1 + seq![','] + rest1)).skip(p.len() as int) =~= j1 + seq![','] + rest1);
    assert((p + (j2 + seq![','] + rest2)).skip(p.len() as int) =~= j2 + seq![','] + rest2);
    lemma_split_at_first(j1, j2, rest1, rest2, ',');
    lemma_join_injective(l1, l2);
    assert(rest1.skip(up.len() as int) =~= u1 + seq![','] + (wp + w1));
    assert(rest2.skip(up.len() as int) =~= u2 + seq![','] + (wp + w2));
    lemma_split_at_first(u1, u2, wp + w1, wp + w2, ',');
    assert((wp + w1).skip(wp.len() as int) =~= w1);
    assert((wp + w2).skip(wp.len() as int) =~= w2);
}

} // verus!
