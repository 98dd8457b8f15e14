//! Checking a downloaded layer against its digest, and deciding which entries
//! of a layer archive may be written below the extraction directory: none
//! outside it, and none through a link that the archive itself made.

use vstd::prelude::*;
use sha2::Digest;
use crate::store::path_join;
use crate::text::{chars_of, hex_lower, strip_prefixes, has_prefix, trim_prefixes, matches_at};

verus! {

/// The errors of layer handling.
#[derive(Debug)]
pub enum UnpackError {
    Io(std::io::Error),
    DigestMismatch { expected: String, got: String },
}

impl From<std::io::Error> for UnpackError {
    fn from(e: std::io::Error) -> (r: Self) {
        UnpackError::Io(e)
    }
}

impl vstd::std_specs::convert::FromSpecImpl<std::io::Error> for UnpackError {
    open spec fn obeys_from_spec() -> bool {
        true
    }

    open spec fn from_spec(e: std::io::Error) -> Self {
        UnpackError::Io(e)
    }
}

/// The SHA-256 hash of `data`.
pub uninterp spec fn sha256_of(data: Seq<u8>) -> Seq<u8>;

/// `sha2::Sha256::digest`: the 32-byte SHA-256 hash of `data`, as a name
/// (`sha256_of`) of the data; the hash function itself is not restated.
#[verifier::external_body]
fn sha256_digest(data: &[u8]) -> (r: Vec<u8>)
    ensures
        r@ == sha256_of(data@),
        r@.len() == 32,
{
    sha2::Sha256::digest(data).to_vec()
}

/// `hex::encode`: two lowercase hexadecimal digits for each byte, high nibble first.
#[verifier::external_body]
fn hex_encode(bytes: &[u8]) -> (r: String)
    ensures
        r@ == hex_lower(bytes@),
{
    hex::encode(bytes)
}

/// The digest text with every leading `sha256:` removed.
pub open spec fn digest_hex(expected: Seq<char>) -> Seq<char> {
    strip_prefixes(expected, "sha256:"@)
}

/// `data` hashes to the digest `expected` (written with or without `sha256:`).
pub open spec fn digest_matches(data: Seq<u8>, expected: Seq<char>) -> bool {
    hex_lower(sha256_of(data)) == digest_hex(expected)
}

/// Checks a layer hash against the digest `expected`; on a mismatch the error
/// carries the expected hex digest and the hex text of the hash.
pub fn check_layer_hash(hash: &[u8], expected: &str) -> (r: Result<(), UnpackError>)
    ensures
        r is Ok <==> hex_lower(hash@) == digest_hex(expected@),
        r is Err ==> (r matches Err(UnpackError::DigestMismatch { expected: e, got: g })
            && e@ == digest_hex(expected@) && g@ == hex_lower(hash@)),
{
    proof {
        reveal_strlit("sha256:");
    }
    let expected = trim_prefixes(expected, "sha256:");
    let got = hex_encode(hash);
    if got != expected {
        return Err(UnpackError::DigestMismatch { expected, got });
    }
    Ok(())
}

/// Checks that `data` hashes to `expected`; on a mismatch the error carries
/// the expected hex digest and the one computed.
pub fn verify_digest(data: &[u8], expected: &str) -> (r: Result<(), UnpackError>)
    ensures
        r is Ok <==> digest_matches(data@, expected@),
        r is Err ==> (r matches Err(UnpackError::DigestMismatch { expected: e, got: g })
            && e@ == digest_hex(expected@) && g@ == hex_lower(sha256_of(data@))),
{
    let hash = sha256_digest(data);
    check_layer_hash(hash.as_slice(), expected)
}

/// A layer digest written as `sha256:` and the hex hash of the layer is
/// accepted for that layer: the prefix is optional, and no hex digest can
/// itself begin with `sha256:`.
pub proof fn lemma_digest_of_own_data(data: Seq<u8>)
    ensures
        digest_matches(data, "sha256:"@ + hex_lower(sha256_of(data))),
        digest_matches(data, hex_lower(sha256_of(data))),
{
    let h = hex_lower(sha256_of(data));
    let p = "sha256:"@;
    reveal_strlit("sha256:");
    assert((p + h).take(p.len() as int) =~= p);
    assert((p + h).skip(p.len() as int) =~= h);
    assert(strip_prefixes(p + h, p) == strip_prefixes(h, p));
    if h.len() >= p.len() {
        crate::text::lemma_hex_lower_digits(sha256_of(data));
        assert(h[0] != 's');
        assert(h.take(p.len() as int)[0] != p[0]);
    }
    assert(!has_prefix(h, p));
}

/// A parent-directory (`..`) component of the path `p` starts at position `i`.
pub open spec fn parent_component_at(p: Seq<char>, i: int) -> bool {
    0 <= i && i + 2 <= p.len() && p[i] == '.' && p[i + 1] == '.' && (i == 0 || p[i - 1] == '/')
        && (i + 2 == p.len() || p[i + 2] == '/')
}

/// The path `p` has a `..` component.
pub open spec fn has_parent_component(p: Seq<char>) -> bool {
    exists|i: int| parent_component_at(p, i)
}

/// The path `p` is absolute.
pub open spec fn is_absolute(p: Seq<char>) -> bool {
    p.len() > 0 && p[0] == '/'
}

/// An archive entry at `p` may be written below the extraction directory:
/// it is relative and never names a parent directory.
pub open spec fn entry_admitted(p: Seq<char>) -> bool {
    !is_absolute(p) && !has_parent_component(p)
}

/// The kind of an archive entry, as far as extraction tells them apart.
#[derive(Debug, Clone, Copy, PartialEq, Eq, Structural)]
pub enum EntryKind {
    /// A symbolic link.
    Symlink,
    /// A hard link.
    HardLink,
    /// Any other entry (file, directory, device, ...).
    Other,
}

/// What extraction does with one archive entry.
#[derive(Debug, Clone, Copy, PartialEq, Eq, Structural)]
pub enum EntryAction {
    /// The entry could land outside the extraction directory, or be written
    /// through a link: it is left out.
    Skip,
    /// A hard link to an earlier entry of the archive: made when its source
    /// lies inside the extraction directory, passed over otherwise.
    HardLink,
    /// Unpacked, replacing whatever stands at its target.
    Unpack,
}

/// The action for the archive entry at `path` of kind `kind`, judged by its
/// path alone: an entry that could land outside the extraction directory is
/// left out; links are kept, since an image is built from them.
pub open spec fn entry_action_spec(path: Seq<char>, kind: EntryKind) -> EntryAction {
    if !entry_admitted(path) {
        EntryAction::Skip
    } else {
        match kind {
            EntryKind::HardLink => EntryAction::HardLink,
            _ => EntryAction::Unpack,
        }
    }
}

fn path_admitted(path: &str) -> (r: bool)
    ensures
        r == entry_admitted(path@),
{
    let v = chars_of(path);
    let n = v.len();
    if n > 0 && v[0] == '/' {
        return false;
    }
    let mut i: usize = 0;
    while i < n
        invariant
            i <= n,
            n == v@.len(),
            v@ == path@,
            forall|j: int| 0 <= j < i ==> !parent_component_at(v@, j),
        decreases n - i,
    {
        if i + 1 < n && v[i] == '.' && v[i + 1] == '.' && (i == 0 || v[i - 1] == '/') && (i + 2 == n || v[i + 2] == '/') {
            assert(parent_component_at(v@, i as int));
            return false;
        }
        i = i + 1;
    }
    assert forall|j: int| !parent_component_at(path@, j) by {
        if parent_component_at(path@, j) {
            assert(j < i);
        }
    }
    true
}

/// Decides, by its path alone, what extraction does with the archive entry
/// at `path` of kind `kind`.
pub fn entry_action(path: &str, kind: EntryKind) -> (r: EntryAction)
    ensures
        r == entry_action_spec(path@, kind),
{
    if !path_admitted(path) {
        return EntryAction::Skip;
    }
    match kind {
        EntryKind::HardLink => EntryAction::HardLink,
        _ => EntryAction::Unpack,
    }
}

/// An admitted entry stays inside the extraction directory: its target is the
/// directory followed by the entry's path, and when the directory itself names
/// no parent directory, neither does the target.
pub proof fn lemma_admitted_entry_stays_inside(dest: Seq<char>, p: Seq<char>)
    requires
        entry_admitted(p),
    ensures
        has_prefix(path_join(dest, p), dest),
        !has_parent_component(dest) ==> !has_parent_component(path_join(dest, p)),
{
    let t = path_join(dest, p);
    let d = dest.len() as int;
    assert(t.take(d) =~= dest);
    if !has_parent_component(dest) {
        assert forall|i: int| !parent_component_at(t, i) by {
            if parent_component_at(t, i) {
                if dest.len() == 0 || dest.last() == '/' {
                    assert(t =~= dest + p);
                    if i + 2 <= d {
                        if i + 2 < d {
                            assert(parent_component_at(dest, i));
                        } else if p.len() == 0 {
                            assert(parent_component_at(dest, i));
                        } else {
                            assert(t[i + 2] == p[0]);
                        }
                    } else if i >= d {
                        assert(parent_component_at(p, i - d));
                    } else {
                        assert(t[i] == dest[d - 1]);
                    }
                } else {
                    assert(t =~= dest + seq!['/'] + p);
                    if i + 2 <= d {
                        assert(parent_component_at(dest, i));
                    } else if i >= d + 1 {
                        assert(parent_component_at(p, i - d - 1));
                    } else {
                        assert(t[d] == '/');
                    }
                }
            }
        }
    }
}

/// Where the component of `p` that starts at `i` ends: at the next `/`, or
/// at the end of `p`.
pub open spec fn component_end(p: Seq<char>, i: int) -> int
    decreases p.len() - i,
{
    if 0 <= i < p.len() && p[i] != '/' {
        component_end(p, i + 1)
    } else {
        i
    }
}

/// The component of `p` that starts at `i` ends no earlier than `i` and
/// within `p`, holds no `/`, and is followed by a `/` unless it ends `p`.
pub proof fn lemma_component_end(p: Seq<char>, i: int)
    requires
        0 <= i <= p.len(),
    ensures
        i <= component_end(p, i) <= p.len(),
        forall|j: int| i <= j < component_end(p, i) ==> p[j] != '/',
        component_end(p, i) < p.len() ==> p[component_end(p, i)] == '/',
    decreases p.len() - i,
{
    if i < p.len() && p[i] != '/' {
        lemma_component_end(p, i + 1);
    }
}

/// The components of `p` from position `i` on, without the empty and `.`
/// ones, joined by single `/`s.
pub open spec fn normal_from(p: Seq<char>, i: int) -> Seq<char>
    decreases p.len() - i,
{
    if 0 <= i <= p.len() {
        let e = component_end(p, i);
        let head = p.subrange(i, e);
        let rest = if e < p.len() {
            proof {
                lemma_component_end(p, i);
            }
            normal_from(p, e + 1)
        } else {
            Seq::<char>::empty()
        };
        if head.len() == 0 || head == seq!['.'] {
            rest
        } else if rest.len() == 0 {
            head
        } else {
            head + seq!['/'] + rest
        }
    } else {
        Seq::<char>::empty()
    }
}

/// The path `p` in normal form: its components without the empty and `.`
/// ones, joined by single `/`s. For a path with no `..` component this is
/// the sequence of directories that opening the path walks through.
pub open spec fn path_normal(p: Seq<char>) -> Seq<char> {
    normal_from(p, 0)
}

/// The entry path `p` lies strictly below the link at `link` (a path in
/// normal form): writing it would go through the link.
pub open spec fn lies_below(p: Seq<char>, link: Seq<char>) -> bool {
    has_prefix(path_normal(p), link + seq!['/'])
}

/// The entry path `p` lies below one of `links`.
pub open spec fn below_some_link(p: Seq<char>, links: Seq<Seq<char>>) -> bool {
    exists|i: int| 0 <= i < links.len() && lies_below(p, #[trigger] links[i])
}

/// The action for the archive entry at `path` of kind `kind`, after the
/// links `links` of the same archive: an entry below one of them is left
/// out, so that no write goes through a link; the others are judged by
/// their path.
pub open spec fn guarded_action(links: Seq<Seq<char>>, path: Seq<char>, kind: EntryKind) -> EntryAction {
    if below_some_link(path, links) {
        EntryAction::Skip
    } else {
        entry_action_spec(path, kind)
    }
}

/// The links known after the entry at `path` of kind `kind` is decided:
/// a link that is unpacked is added, by its path in normal form.
pub open spec fn links_after(links: Seq<Seq<char>>, path: Seq<char>, kind: EntryKind) -> Seq<Seq<char>> {
    if kind != EntryKind::Other && guarded_action(links, path, kind) != EntryAction::Skip {
        links.push(path_normal(path))
    } else {
        links
    }
}

/// The links known after the entries `entries` (path and kind, in archive
/// order) are decided one after the other.
pub open spec fn links_after_all(entries: Seq<(Seq<char>, EntryKind)>) -> Seq<Seq<char>>
    decreases entries.len(),
{
    if entries.len() == 0 {
        Seq::<Seq<char>>::empty()
    } else {
        links_after(links_after_all(entries.drop_last()), entries.last().0, entries.last().1)
    }
}

/// The action for entry `i` of the archive entries `entries`, given the
/// entries before it.
pub open spec fn action_in(entries: Seq<(Seq<char>, EntryKind)>, i: int) -> EntryAction {
    guarded_action(links_after_all(entries.take(i)), entries[i].0, entries[i].1)
}

fn component_end_in(v: &Vec<char>, i: usize) -> (e: usize)
    requires
        i <= v@.len(),
    ensures
        e == component_end(v@, i as int),
{
    let mut j: usize = i;
    while j < v.len() && v[j] != '/'
        invariant
            i <= j <= v@.len(),
            component_end(v@, j as int) == component_end(v@, i as int),
        decreases v@.len() - j,
    {
        j = j + 1;
    }
    j
}

fn normalize_from(v: &Vec<char>, i: usize) -> (r: Vec<char>)
    requires
        i <= v@.len(),
    ensures
        r@ == normal_from(v@, i as int),
    decreases v@.len() - i,
{
    let e = component_end_in(v, i);
    proof {
        lemma_component_end(v@, i as int);
    }
    let mut head: Vec<char> = Vec::new();
    let mut k: usize = i;
    while k < e
        invariant
            i <= k <= e,
            e <= v@.len(),
            head@ == v@.subrange(i as int, k as int),
        decreases e - k,
    {
        head.push(v[k]);
        k = k + 1;
        assert(head@ =~= v@.subrange(i as int, k as int));
    }
    let mut rest: Vec<char> = if e < v.len() {
        normalize_from(v, e + 1)
    } else {
        Vec::new()
    };
    let ghost h = head@;
    let ghost rs = rest@;
    if head.len() == 0 || (head.len() == 1 && head[0] == '.') {
        proof {
            if h.len() == 1 {
                assert(h =~= seq!['.']);
            }
        }
        rest
    } else if rest.len() == 0 {
        head
    } else {
        head.push('/');
        head.append(&mut rest);
        assert(head@ =~= h + seq!['/'] + rs);
        head
    }
}

fn is_below(n: &Vec<char>, l: &Vec<char>) -> (r: bool)
    ensures
        r == has_prefix(n@, l@ + seq!['/']),
{
    let ll = l.len();
    if ll >= n.len() {
        return false;
    }
    if n[ll] != '/' {
        proof {
            if has_prefix(n@, l@ + seq!['/']) {
                assert(n@.take(ll as int + 1)[ll as int] == (l@ + seq!['/'])[ll as int]);
            }
        }
        return false;
    }
    let m = matches_at(n, l, 0);
    proof {
        let t = n@.take(ll as int + 1);
        assert(t =~= n@.subrange(0, ll as int) + seq!['/']);
        if has_prefix(n@, l@ + seq!['/']) {
            assert forall|j: int| 0 <= j < ll implies n@.subrange(0, ll as int)[j] == l@[j] by {
                assert(t[j] == (l@ + seq!['/'])[j]);
            }
            assert(n@.subrange(0, ll as int) =~= l@);
        }
        if m {
            assert(t =~= l@ + seq!['/']);
        }
    }
    m
}

/// The links an archive has made so far, each by its path in normal form.
/// Nothing is unpacked below one of them, so that no write of the archive
/// goes through a link, wherever the link leads.
pub struct LinkGuard {
    links: Vec<Vec<char>>,
}

impl View for LinkGuard {
    type V = Seq<Seq<char>>;

    closed spec fn view(&self) -> Seq<Seq<char>> {
        self.links@.map_values(|l: Vec<char>| l@)
    }
}

impl LinkGuard {
    /// A guard for a new archive: no links yet.
    pub fn new() -> (g: Self)
        ensures
            g@ == Seq::<Seq<char>>::empty(),
    {
        let g = LinkGuard { links: Vec::new() };
        assert(g@ =~= Seq::<Seq<char>>::empty());
        g
    }

    fn below_link(&self, n: &Vec<char>) -> (r: bool)
        ensures
            r == exists|i: int| 0 <= i < self@.len() && has_prefix(n@, #[trigger] self@[i] + seq!['/']),
    {
        let mut i: usize = 0;
        while i < self.links.len()
            invariant
                i <= self.links@.len(),
                self@.len() == self.links@.len(),
                forall|j: int| 0 <= j < i ==> !has_prefix(n@, #[trigger] self@[j] + seq!['/']),
            decreases self.links@.len() - i,
        {
            assert(self@[i as int] == self.links@[i as int]@);
            if is_below(n, &self.links[i]) {
                return true;
            }
            i = i + 1;
        }
        false
    }

    /// Decides what extraction does with the archive entry at `path` of kind
    /// `kind`, after the entries already decided, and remembers the entry if
    /// it is a link that is unpacked.
    pub fn decide(&mut self, path: &str, kind: EntryKind) -> (r: EntryAction)
        ensures
            r == guarded_action(old(self)@, path@, kind),
            final(self)@ == links_after(old(self)@, path@, kind),
    {
        let v = chars_of(path);
        let n = normalize_from(&v, 0);
        let ghost before = self@;
        if self.below_link(&n) {
            proof {
                let i = choose|i: int| 0 <= i < before.len() && has_prefix(n@, #[trigger] before[i] + seq!['/']);
                assert(lies_below(path@, before[i]));
            }
            return EntryAction::Skip;
        }
        proof {
            assert forall|i: int| 0 <= i < before.len() implies !lies_below(path@, #[trigger] before[i]) by {
                assert(!has_prefix(n@, before[i] + seq!['/']));
            }
        }
        let r = entry_action(path, kind);
        if kind != EntryKind::Other && r != EntryAction::Skip {
            self.links.push(n);
            assert(self@ =~= before.push(path_normal(path@)));
        }
        r
    }
}

proof fn lemma_links_grow(entries: Seq<(Seq<char>, EntryKind)>, m: int, i: int)
    requires
        0 <= m <= i <= entries.len(),
    ensures
        links_after_all(entries.take(m)).len() <= links_after_all(entries.take(i)).len(),
        forall|k: int|
            0 <= k < links_after_all(entries.take(m)).len() ==> links_after_all(entries.take(i))[k]
                == #[trigger] links_after_all(entries.take(m))[k],
    decreases i - m,
{
    if m < i {
        lemma_links_grow(entries, m, i - 1);
        assert(entries.take(i).drop_last() =~= entries.take(i - 1));
    }
}

/// Nothing of a layer is written through a link of the same layer: when an
/// earlier link entry `j` and a later entry `i` of an archive are both
/// unpacked, entry `i` does not lie below entry `j`, wherever the link
/// leads. Every unpacked entry also stays inside the extraction directory.
pub proof fn lemma_no_write_through_links(
    entries: Seq<(Seq<char>, EntryKind)>,
    j: int,
    i: int,
    dest: Seq<char>,
)
    requires
        0 <= j < i < entries.len(),
        entries[j].1 != EntryKind::Other,
        action_in(entries, j) != EntryAction::Skip,
        action_in(entries, i) != EntryAction::Skip,
    ensures
        !lies_below(entries[i].0, path_normal(entries[j].0)),
        has_prefix(path_join(dest, entries[i].0), dest),
        !has_parent_component(dest) ==> !has_parent_component(path_join(dest, entries[i].0)),
{
    let before_j = links_after_all(entries.take(j));
    assert(entries.take(j + 1).drop_last() =~= entries.take(j));
    assert(entries.take(j + 1).last() == entries[j]);
    let after_j = links_after_all(entries.take(j + 1));
    assert(after_j == before_j.push(path_normal(entries[j].0)));
    lemma_links_grow(entries, j + 1, i);
    let at_i = links_after_all(entries.take(i));
    let k = before_j.len() as int;
    assert(after_j[k] == path_normal(entries[j].0));
    assert(at_i[k] == after_j[k]);
    assert(!below_some_link(entries[i].0, at_i));
    assert(!lies_below(entries[i].0, at_i[k]));
    lemma_admitted_entry_stays_inside(dest, entries[i].0);
}

/// Extraction is complete: an entry whose path is relative, has no `..`
/// component and lies below none of the links made before it is never left
/// out. A hard link is made; anything else (file, directory, symbolic link)
/// is unpacked. Hidden files, whiteout files and links of any target are
/// among them.
pub proof fn lemma_extraction_complete(links: Seq<Seq<char>>, path: Seq<char>, kind: EntryKind)
    requires
        path.len() == 0 || path[0] != '/',
        forall|i: int|
            0 <= i && i + 2 <= path.len() && #[trigger] path[i] == '.' && path[i + 1] == '.' ==> !((i == 0
                || path[i - 1] == '/') && (i + 2 == path.len() || path[i + 2] == '/')),
        forall|k: int|
            0 <= k < links.len() ==> !((#[trigger] links[k]).len() < path_normal(path).len()
                && path_normal(path).take(links[k].len() as int) == links[k] && path_normal(path)[links[k].len() as int]
                == '/'),
    ensures
        entry_action_spec(path, kind) == (if kind == EntryKind::HardLink {
            EntryAction::HardLink
        } else {
            EntryAction::Unpack
        }),
        guarded_action(links, path, kind) == (if kind == EntryKind::HardLink {
            EntryAction::HardLink
        } else {
            EntryAction::Unpack
        }),
{
    assert(!has_parent_component(path)) by {
        if has_parent_component(path) {
            let i = choose|i: int| parent_component_at(path, i);
            assert(path[i] == '.');
        }
    }
    let n = path_normal(path);
    assert forall|k: int| 0 <= k < links.len() implies !lies_below(path, #[trigger] links[k]) by {
        let l = links[k];
        if lies_below(path, l) {
            let t = n.take(l.len() as int + 1);
            assert(t == l + seq!['/']);
            assert(n.take(l.len() as int) =~= l) by {
                assert forall|j: int| 0 <= j < l.len() implies n.take(l.len() as int)[j] == l[j] by {
                    assert(t[j] == (l + seq!['/'])[j]);
                }
            }
            assert(n[l.len() as int] == t[l.len() as int]);
            assert((l + seq!['/'])[l.len() as int] == '/');
        }
    }
    assert(!below_some_link(path, links));
}

} // verus!
