//! The rules of the local dashboard: which names and digests it accepts in
//! requests, which requests it lets through, when it refuses to start, and
//! how it lists the store.

use vstd::prelude::*;
use subtle::ConstantTimeEq;
use vstd::string::StringSliceAdditionalSpecFns;
use vstd::utf8::encode_utf8;
use crate::text::{chars_of, contains_str, ends_with, first_match_of, has_prefix, has_suffix, occurs_at, starts_with, tail_from};
use crate::image::unpack::{has_parent_component, parent_component_at, lemma_admitted_entry_stays_inside};

verus! {

/// `c` is an ASCII hexadecimal digit, in either case.
pub open spec fn is_hex_char(c: char) -> bool {
    ('0' <= c <= '9') || ('a' <= c <= 'f') || ('A' <= c <= 'F')
}

/// `d` is a hex SHA-256 digest: 64 bytes, all hexadecimal digits.
pub open spec fn valid_digest_spec(d: Seq<char>) -> bool {
    encode_utf8(d).len() == 64 && forall|i: int| 0 <= i < d.len() ==> is_hex_char(#[trigger] d[i])
}

/// Whether `digest` is a hex SHA-256 digest (64 hexadecimal digits).
pub fn is_valid_digest(digest: &str) -> (r: bool)
    ensures
        r == valid_digest_spec(digest@),
{
    if digest.as_bytes().len() != 64 {
        return false;
    }
    let v = chars_of(digest);
    let mut i: usize = 0;
    while i < v.len()
        invariant
            v@ == digest@,
            i <= v@.len(),
            forall|j: int| 0 <= j < i ==> is_hex_char(#[trigger] v@[j]),
        decreases v.len() - i,
    {
        let c = v[i];
        if !(('0' <= c && c <= '9') || ('a' <= c && c <= 'f') || ('A' <= c && c <= 'F')) {
            return false;
        }
        i = i + 1;
    }
    true
}

/// `c` may stand in a VM name given to the dashboard.
pub open spec fn is_dashboard_name_char(c: char) -> bool {
    ('a' <= c <= 'z') || ('A' <= c <= 'Z') || ('0' <= c <= '9') || c == '_' || c == '-' || c == '.'
}

/// `name` can name a directory of the store: not empty, not hidden, without
/// `..`, of letters, digits, `_`, `-` and `.` only, and at most 128 bytes.
pub open spec fn safe_name_spec(name: Seq<char>) -> bool {
    &&& name.len() > 0
    &&& name[0] != '.'
    &&& first_match_of(name, ".."@) is None
    &&& forall|i: int| 0 <= i < name.len() ==> is_dashboard_name_char(#[trigger] name[i])
    &&& encode_utf8(name).len() <= 128
}

/// Whether `name` can name a directory of the store.
pub fn is_safe_name(name: &str) -> (r: bool)
    ensures
        r == safe_name_spec(name@),
{
    let v = chars_of(name);
    if v.len() == 0 || v[0] == '.' || contains_str(name, "..") {
        return false;
    }
    let mut i: usize = 0;
    while i < v.len()
        invariant
            v@ == name@,
            i <= v@.len(),
            forall|j: int| 0 <= j < i ==> is_dashboard_name_char(#[trigger] v@[j]),
        decreases v.len() - i,
    {
        let c = v[i];
        if !(('a' <= c && c <= 'z') || ('A' <= c && c <= 'Z') || ('0' <= c && c <= '9') || c == '_' || c
            == '-' || c == '.') {
            return false;
        }
        i = i + 1;
    }
    name.as_bytes().len() <= 128
}

/// `subtle::ConstantTimeEq::ct_eq` on byte slices, read with `unwrap_u8`: 1
/// when the slices are equal, else 0.
#[verifier::external_body]
fn ct_eq_bytes(a: &[u8], b: &[u8]) -> (r: u8)
    ensures
        r == (if a@ == b@ { 1u8 } else { 0u8 }),
{
    a.ct_eq(b).unwrap_u8()
}

/// A request may pass: it is outside `/api`, or no token is set, or it
/// carries `Authorization: Bearer <token>`.
pub open spec fn authorized_spec(path: Seq<char>, token: Seq<char>, auth_header: Seq<char>) -> bool {
    !has_prefix(path, "/api"@) || token.len() == 0 || auth_header == "Bearer "@ + token
}

/// Decides whether a request to `path`, carrying the `Authorization` value
/// `auth_header` (empty when absent), may pass when the token `token` is set
/// (empty when none is). The header is compared in constant time.
pub fn authorize(path: &str, token: &str, auth_header: &str) -> (r: bool)
    ensures
        r == authorized_spec(path@, token@, auth_header@),
{
    if !starts_with(path, "/api") {
        return true;
    }
    if token.is_empty() {
        return true;
    }
    let expected = String::from_str("Bearer ").concat(token);
    let exp = expected.as_str();
    if auth_header.len() != exp.len() {
        return false;
    }
    let eq = ct_eq_bytes(auth_header.as_bytes(), exp.as_bytes());
    proof {
        broadcast use vstd::utf8::encode_utf8_decode_utf8;
        if auth_header.spec_bytes() == exp.spec_bytes() {
            assert(vstd::utf8::decode_utf8(vstd::utf8::encode_utf8(auth_header@)) == auth_header@);
            assert(vstd::utf8::decode_utf8(vstd::utf8::encode_utf8(exp@)) == exp@);
        }
    }
    eq == 1
}

/// The address listens on all interfaces.
pub open spec fn binds_all_interfaces(bind_addr: Seq<char>) -> bool {
    has_prefix(bind_addr, "0.0.0.0"@) || bind_addr == "[::]"@
}

/// Whether the dashboard, bound to `bind_addr`, must be protected by a token:
/// it must when it listens on all interfaces.
pub fn bind_requires_auth(bind_addr: &str) -> (r: bool)
    ensures
        r == binds_all_interfaces(bind_addr@),
{
    starts_with(bind_addr, "0.0.0.0") || String::from_str(bind_addr) == String::from_str("[::]")
}

/// Whether the dashboard may start on `bind_addr` with the token `token`
/// (empty when none is set): not on all interfaces without a token.
pub fn may_start(bind_addr: &str, token: &str) -> (r: bool)
    ensures
        r == !(binds_all_interfaces(bind_addr@) && token@.len() == 0),
{
    !(bind_requires_auth(bind_addr) && token.is_empty())
}

/// A file of the blob directory is listed as a blob: it is neither an
/// unpacked layer nor a pull record.
pub open spec fn is_listed_blob_spec(name: Seq<char>) -> bool {
    !has_suffix(name, "-extracted"@) && !has_suffix(name, "-meta.json"@)
}

/// Whether the file `name` of the blob directory is listed as a blob.
pub fn is_listed_blob(name: &str) -> (r: bool)
    ensures
        r == is_listed_blob_spec(name@),
{
    !(ends_with(name, "-extracted") || ends_with(name, "-meta.json"))
}

/// The digest named in a request, without one leading `sha256:`.
pub open spec fn requested_digest_text(param: Seq<char>) -> Seq<char> {
    if has_prefix(param, "sha256:"@) {
        param.skip(7)
    } else {
        param
    }
}

/// The hex digest named by a deletion request (`sha256:` optional), when it is
/// a valid digest.
pub fn requested_digest(param: &str) -> (r: Option<String>)
    ensures
        r matches Some(d) ==> d@ == requested_digest_text(param@),
        r is Some <==> valid_digest_spec(requested_digest_text(param@)),
{
    proof {
        reveal_strlit("sha256:");
    }
    let d = if starts_with(param, "sha256:") {
        tail_from(param, 7)
    } else {
        String::from_str(param)
    };
    if is_valid_digest(d.as_str()) {
        Some(d)
    } else {
        None
    }
}

/// The short form of a layer id shown in the VM list: its first 12 bytes
/// (all of it when shorter).
pub fn short_layer_id(id: &str) -> (r: String)
    requires
        vstd::utf8::is_char_boundary(id.spec_bytes(), if id.spec_bytes().len() < 12 { id.spec_bytes().len() as int } else { 12 }),
    ensures
        encode_utf8(r@) == id.spec_bytes().take(
            if id.spec_bytes().len() < 12 { id.spec_bytes().len() as int } else { 12 },
        ),
{
    let len = id.as_bytes().len();
    let n = if len < 12 {
        len
    } else {
        12
    };
    let (head, _) = id.split_at(n);
    String::from_str(head)
}

/// A name the dashboard accepts names a direct child of the VM directory:
/// joined onto it, it stays inside it and climbs nowhere.
pub proof fn lemma_safe_name_stays_inside(dir: Seq<char>, name: Seq<char>)
    requires
        safe_name_spec(name),
    ensures
        has_prefix(crate::store::path_join(dir, name), dir),
        !has_parent_component(dir) ==> !has_parent_component(crate::store::path_join(dir, name)),
        !name.contains('/'),
{
    reveal_strlit("..");
    assert(!name.contains('/')) by {
        if name.contains('/') {
            let k = choose|k: int| 0 <= k < name.len() && name[k] == '/';
            assert(is_dashboard_name_char(name[k]));
        }
    }
    assert(!has_parent_component(name)) by {
        if has_parent_component(name) {
            let i = choose|i: int| parent_component_at(name, i);
            assert(name.subrange(i, i + 2) =~= ".."@);
            assert(occurs_at(name, ".."@, i));
        }
    }
    lemma_admitted_entry_stays_inside(dir, name);
}

/// A VM name as the builder keeps it (letters, digits, `_`, `-`, at most
/// 64) is accepted by the dashboard whenever it is not empty.
pub proof fn lemma_sanitized_name_accepted(name: Seq<char>)
    requires
        crate::sanitized_name(name).len() > 0,
    ensures
        safe_name_spec(crate::sanitized_name(name)),
{
    let p = |c: char| crate::is_name_char(c);
    let f = name.filter(p);
    let s = crate::sanitized_name(name);
    reveal_strlit("..");
    assert forall|i: int| 0 <= i < s.len() implies crate::is_name_char(#[trigger] s[i]) by {
        name.lemma_filter_pred(p, i);
        assert(s[i] == f[i]);
    }
    assert(s[0] != '.') by {
        assert(crate::is_name_char(s[0]));
    }
    assert(first_match_of(s, ".."@) is None) by {
        if exists|i: int| occurs_at(s, ".."@, i) {
            let i = choose|i: int| occurs_at(s, ".."@, i);
            assert(s.subrange(i, i + 2)[0] == '.');
            assert(crate::is_name_char(s[i]));
        }
    }
    assert(vstd::utf8::is_ascii_chars(s)) by {
        assert forall|i: int| 0 <= i < s.len() implies '\0' <= #[trigger] s[i] <= '\u{7f}' by {
            assert(crate::is_name_char(s[i]));
        }
    }
    vstd::utf8::is_ascii_chars_encode_utf8(s);
    name.lemma_filter_len(p);
}

/// The 12-byte prefix (or all) of a layer id, as `short_layer_id` gives it.
pub open spec fn short_id_bytes(id: Seq<char>) -> Seq<u8> {
    encode_utf8(id).take(if encode_utf8(id).len() < 12 { encode_utf8(id).len() as int } else { 12 })
}

/// `id` can be cut after its 12th byte (or is shorter).
pub open spec fn short_id_cuttable(id: Seq<char>) -> bool {
    vstd::utf8::is_char_boundary(
        encode_utf8(id),
        if encode_utf8(id).len() < 12 { encode_utf8(id).len() as int } else { 12 },
    )
}

/// The fields read from a VM's pull record; each is absent when the record
/// lacks it or holds it with another type.
#[derive(Debug)]
pub struct VmRecordFields {
    pub image: Option<String>,
    pub layers: Option<Vec<String>>,
    pub layers_downloaded: Option<u64>,
    pub layers_cached: Option<u64>,
    pub bytes_downloaded: Option<u64>,
    pub bytes_total: Option<u64>,
    pub pull_duration_ms: Option<u64>,
    pub pulled_at: Option<String>,
}

/// A VM as the dashboard lists it.
#[derive(Debug)]
pub struct VmListing {
    pub name: String,
    pub image: String,
    pub layers: Vec<String>,
    pub layers_downloaded: u32,
    pub layers_cached: u32,
    pub bytes_downloaded: u64,
    pub bytes_total: u64,
    pub pull_duration_ms: u64,
    pub pulled_at: String,
    pub socket_active: bool,
    pub upper_size: u64,
}

/// A count read from a record, 0 when absent.
pub open spec fn count_or_zero(x: Option<u64>) -> u64 {
    match x {
        Some(v) => v,
        None => 0,
    }
}

/// The listing of the VM `name` from its record's fields: the image is
/// `unknown` when absent, the layer ids are cut to 12 bytes, absent counts are
/// 0 (the two layer counts are kept to their low 32 bits), and an absent pull
/// time is empty.
pub fn vm_listing(name: String, fields: VmRecordFields, socket_active: bool, upper_size: u64) -> (r: VmListing)
    requires
        fields.layers matches Some(ls) ==> forall|i: int| 0 <= i < ls@.len() ==> short_id_cuttable(#[trigger] ls@[i]@),
    ensures
        r.name == name,
        r.image@ == match fields.image {
            Some(s) => s@,
            None => "unknown"@,
        },
        match fields.layers {
            Some(ls) => r.layers@.len() == ls@.len() && forall|i: int|
                0 <= i < ls@.len() ==> encode_utf8((#[trigger] r.layers@[i])@) == short_id_bytes(ls@[i]@),
            None => r.layers@.len() == 0,
        },
        r.layers_downloaded == count_or_zero(fields.layers_downloaded) as u32,
        r.layers_cached == count_or_zero(fields.layers_cached) as u32,
        r.bytes_downloaded == count_or_zero(fields.bytes_downloaded),
        r.bytes_total == count_or_zero(fields.bytes_total),
        r.pull_duration_ms == count_or_zero(fields.pull_duration_ms),
        r.pulled_at@ == match fields.pulled_at {
            Some(s) => s@,
            None => Seq::<char>::empty(),
        },
        r.socket_active == socket_active,
        r.upper_size == upper_size,
{
    let image = match fields.image {
        Some(s) => s,
        None => String::from_str("unknown"),
    };
    let mut layers: Vec<String> = Vec::new();
    match &fields.layers {
        Some(ls) => {
            let n = ls.len();
            let mut i: usize = 0;
            while i < n
                invariant
                    n == ls@.len(),
                    i <= n,
                    layers@.len() == i,
                    forall|j: int| 0 <= j < ls@.len() ==> short_id_cuttable(#[trigger] ls@[j]@),
                    forall|j: int| 0 <= j < i ==> encode_utf8((#[trigger] layers@[j])@) == short_id_bytes(ls@[j]@),
                decreases n - i,
            {
                let id = short_layer_id(ls[i].as_str());
                layers.push(id);
                i = i + 1;
            }
        },
        None => {},
    }
    let layers_downloaded = match fields.layers_downloaded {
        Some(v) => v as u32,
        None => 0,
    };
    let layers_cached = match fields.layers_cached {
        Some(v) => v as u32,
        None => 0,
    };
    VmListing {
        name,
        image,
        layers,
        layers_downloaded,
        layers_cached,
        bytes_downloaded: match fields.bytes_downloaded {
            Some(v) => v,
            None => 0,
        },
        bytes_total: match fields.bytes_total {
            Some(v) => v,
            None => 0,
        },
        pull_duration_ms: match fields.pull_duration_ms {
            Some(v) => v,
            None => 0,
        },
        pulled_at: match fields.pulled_at {
            Some(s) => s,
            None => String::new(),
        },
        socket_active,
        upper_size,
    }
}

/// The fields read from a layer's pull record; each is absent when the
/// record lacks it or holds it with another type.
#[derive(Debug)]
pub struct BlobMetaFields {
    pub duration_ms: Option<u64>,
    pub pulled_at: Option<String>,
    pub expires_at: Option<String>,
    pub ttl_hours: Option<u64>,
}

/// A layer blob as the dashboard lists it.
#[derive(Debug)]
pub struct BlobListing {
    pub digest: String,
    pub size: u64,
    pub extracted_size: u64,
    pub duration_ms: u64,
    pub pulled_at: String,
    pub expires_at: String,
    pub ttl_hours: u64,
}

/// The listing of the blob `digest` from its sizes and its record's fields:
/// absent numbers are 0, absent times are empty.
pub fn blob_listing(digest: String, size: u64, extracted_size: u64, fields: BlobMetaFields) -> (r: BlobListing)
    ensures
        r.digest == digest,
        r.size == size,
        r.extracted_size == extracted_size,
        r.duration_ms == count_or_zero(fields.duration_ms),
        r.pulled_at@ == match fields.pulled_at {
            Some(s) => s@,
            None => Seq::<char>::empty(),
        },
        r.expires_at@ == match fields.expires_at {
            Some(s) => s@,
            None => Seq::<char>::empty(),
        },
        r.ttl_hours == count_or_zero(fields.ttl_hours),
{
    BlobListing {
        digest,
        size,
        extracted_size,
        duration_ms: match fields.duration_ms {
            Some(v) => v,
            None => 0,
        },
        pulled_at: match fields.pulled_at {
            Some(s) => s,
            None => String::new(),
        },
        expires_at: match fields.expires_at {
            Some(s) => s,
            None => String::new(),
        },
        ttl_hours: match fields.ttl_hours {
            Some(v) => v,
            None => 0,
        },
    }
}

} // verus!
