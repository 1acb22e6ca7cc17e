//! Manifest-based provider for user-defined file layouts.
//!
//! Users describe any file's structure in a `.prefetch.toml` file placed
//! alongside the target file as `<filename>.prefetch.toml`:
//!
//! ```toml
//! format = "my-database"
//!
//! [[segments]]
//! name = "index"
//! offset = 0
//! length = 4096
//! priority = 0
//! ```
use vstd::prelude::*;
use crate::providers::{path_extension, spec_path_extension, FileLayout, Segment};
use crate::paths::{is_absolute, join_name, joined, path_is_absolute, path_parent, spec_path_parent};
use crate::strmap::StrMap;
use crate::text::{chars_of, contains, contains_seq, push_char};

verus! {

/// The suffix that names a manifest after its target file.
pub open spec fn manifest_suffix() -> Seq<char> {
    ".prefetch.toml"@
}

/// Provider that reads prefetch layout from a TOML manifest.
pub struct ManifestProvider;

impl ManifestProvider {
    pub fn name(&self) -> (r: String)
        ensures
            r@ == "manifest"@,
    {
        "manifest".to_owned()
    }

    /// A manifest is a `.toml` file whose path contains `.prefetch`.
    pub fn can_handle(&self, path: &str) -> (r: bool)
        ensures
            r == (spec_path_extension(path@) == Some("toml"@) && contains_seq(path@, ".prefetch"@)),
    {
        let is_toml = match path_extension(path) {
            Some(e) => {
                let ev = chars_of(e.as_str());
                crate::text::chars_eq_str(&ev, "toml")
            },
            None => false,
        };
        if !is_toml {
            return false;
        }
        let v = chars_of(path);
        let needle = chars_of(".prefetch");
        contains(&v, &needle)
    }
}

/// Derive the manifest path for a given target file.
/// e.g., `/data/mydb.dat` becomes `/data/mydb.dat.prefetch.toml`.
pub fn manifest_path_for(target: &str) -> (r: String)
    ensures
        r@ == target@ + manifest_suffix(),
{
    let mut m = target.to_owned();
    m.append(".prefetch.toml");
    m
}

/// The target file a manifest describes when it names none: its own path
/// without the `.prefetch.toml` suffix.
pub open spec fn spec_default_target(manifest_path: Seq<char>) -> Option<Seq<char>> {
    let n = manifest_suffix().len();
    if manifest_path.len() >= n && manifest_path.skip(manifest_path.len() - n) == manifest_suffix() {
        Some(manifest_path.take(manifest_path.len() - n))
    } else {
        None
    }
}

/// The manifest of a target file, stripped of its suffix, names that target again.
pub proof fn lemma_manifest_names_target(target: Seq<char>)
    ensures
        spec_default_target(target + manifest_suffix()) == Some(target),
{
    let m = target + manifest_suffix();
    let n = manifest_suffix().len();
    assert(m.skip(m.len() - n) =~= manifest_suffix());
    assert(m.take(m.len() - n) =~= target);
}

/// The target path of a manifest that names no file: its own path without
/// the `.prefetch.toml` suffix; `None` where the path lacks that suffix.
pub fn default_target(manifest_path: &str) -> (r: Option<String>)
    ensures
        match r {
            Some(t) => spec_default_target(manifest_path@) == Some(t@),
            None => spec_default_target(manifest_path@) is None,
        },
{
    let v = chars_of(manifest_path);
    let suffix = chars_of(".prefetch.toml");
    proof {
        reveal_strlit(".prefetch.toml");
    }
    if v.len() < suffix.len() {
        return None;
    }
    let vl = v.len();
    let start = vl - suffix.len();
    let mut i: usize = 0;
    #[verifier::loop_isolation(false)]
    while i < suffix.len()
        invariant
            start + suffix@.len() == vl,
            vl == v@.len(),
            i <= suffix@.len(),
            forall|j: int| 0 <= j < i ==> v@[start + j] == suffix@[j],
        decreases suffix@.len() - i,
    {
        if v[start + i] != suffix[i] {
            assert(v@.skip(start as int)[i as int] != suffix@[i as int]);
            return None;
        }
        i += 1;
    }
    assert(v@.skip(start as int) =~= suffix@);
    let mut out = String::new();
    let mut k: usize = 0;
    while k < start
        invariant
            start <= v@.len(),
            k <= start,
            out@ =~= v@.take(k as int),
        decreases start - k,
    {
        let c = v[k];
        push_char(&mut out, c);
        k += 1;
    }
    Some(out)
}

/// One segment as a manifest declares it.
pub struct ManifestSegment {
    pub name: String,
    pub offset: u64,
    pub length: u64,
    pub priority: Option<u32>,
}

/// A manifest file's contents.
pub struct ManifestFile {
    /// Optional format name.
    pub format: Option<String>,
    /// Optional explicit path to the target file.
    pub file: Option<String>,
    /// Segments to prefetch.
    pub segments: Vec<ManifestSegment>,
}

/// Segment `i` of a manifest as a layout segment: its priority defaults to
/// its position (taken modulo 2^32).
pub open spec fn manifest_segment_matches(s: Segment, m: ManifestSegment, i: int) -> bool {
    &&& s.name@ == m.name@
    &&& s.offset == m.offset
    &&& s.length == m.length
    &&& s.priority == match m.priority {
        Some(p) => p,
        None => (i % 0x1_0000_0000) as u32,
    }
}

/// The layout a manifest describes, for a target file of `file_size` bytes.
pub fn layout_from_manifest(manifest: ManifestFile, file_size: u64) -> (r: FileLayout)
    ensures
        r.file_size == file_size,
        r.format_name@ == match manifest.format {
            Some(f) => f@,
            None => "custom"@,
        },
        r.segments@.len() == manifest.segments@.len(),
        forall|i: int|
            0 <= i < r.segments@.len() ==> manifest_segment_matches(
                #[trigger] r.segments@[i],
                manifest.segments@[i],
                i,
            ),
        r.metadata@ == match manifest.file {
            Some(f) => Map::<Seq<char>, String>::empty().insert("target_file"@, f),
            None => Map::<Seq<char>, String>::empty(),
        },
{
    let ManifestFile { format, file, segments: declared } = manifest;
    let ghost decl = declared@;
    let total = declared.len();
    let mut segments: Vec<Segment> = Vec::new();
    let mut rest = declared;
    let mut i: usize = 0;
    while rest.len() > 0
        invariant
            rest@ == decl.skip(i as int),
            decl.len() == total,
            i <= decl.len(),
            segments@.len() == i,
            forall|j: int| 0 <= j < i ==> manifest_segment_matches(#[trigger] segments@[j], decl[j], j),
        decreases rest@.len(),
    {
        let s = rest.remove(0);
        proof {
            assert(s == decl[i as int]);
        }
        let priority = match s.priority {
            Some(p) => p,
            None => ((i as u64) % 0x1_0000_0000u64) as u32,
        };
        segments.push(Segment { name: s.name, offset: s.offset, length: s.length, priority });
        proof {
            assert(rest@ =~= decl.skip(i + 1));
        }
        i += 1;
    }
    let mut metadata: StrMap<String> = StrMap::new();
    if let Some(f) = file {
        metadata.insert("target_file".to_owned(), f);
    }
    let format_name = match format {
        Some(f) => f,
        None => "custom".to_owned(),
    };
    FileLayout { file_size, format_name, segments, metadata }
}

/// Where a relative target path of a manifest lies: beside the manifest,
/// in its parent directory (the current directory where it has none).
pub open spec fn beside_manifest(manifest_path: Seq<char>, file: Seq<char>) -> Option<Seq<char>> {
    match spec_path_parent(manifest_path) {
        None => Some(joined("."@, file)),
        Some(p) => Some(joined(p, file)),
    }
}

/// The target file a manifest describes: the file it names (relative to
/// the manifest's directory unless absolute), or else the manifest's own
/// path without its suffix; `None` where it names none and its path lacks
/// the suffix.
pub fn manifest_target(manifest_path: &str, file: Option<&str>) -> (r: Option<String>)
    ensures
        match file {
            Some(f) => if is_absolute(f@) {
                r matches Some(t) && t@ == f@
            } else {
                r matches Some(t) && beside_manifest(manifest_path@, f@) == Some(t@)
            },
            None => match r {
                Some(t) => spec_default_target(manifest_path@) == Some(t@),
                None => spec_default_target(manifest_path@) is None,
            },
        },
{
    match file {
        Some(f) => {
            if path_is_absolute(f) {
                return Some(f.to_string());
            }
            proof {
                reveal_strlit(".");
            }
            match path_parent(manifest_path) {
                None => Some(join_name(".", f)),
                Some(p) => Some(join_name(p.as_str(), f)),
            }
        },
        None => default_target(manifest_path),
    }
}

} // verus!
