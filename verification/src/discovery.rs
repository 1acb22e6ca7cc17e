//! Discovery of Ollama models: naming a model from its manifest's place,
//! finding the layer of a manifest that holds the weights and the blob
//! that layer names, ordering models by name, and resolving a name that a
//! user gives to one of them.
//!
//! Ollama stores models as content-addressed blobs:
//! `manifests/registry.ollama.ai/library/{model}/{tag}` (JSON) and
//! `blobs/sha256-{digest}` (GGUF data), under its models directory.
use vstd::prelude::*;
use crate::order::{lemma_distinct_covers, lists};
use crate::text::{chars_of, contains, contains_seq, has_char, seq_eq, starts_with, string_of};

verus! {

/// A discovered model with its resolved file path.
#[derive(Debug)]
pub struct DiscoveredModel {
    /// Human-readable name (e.g., "llama3:latest").
    pub name: String,
    /// Absolute path to the GGUF blob file.
    pub path: String,
    /// File size in bytes.
    pub size: u64,
}

/// One layer of an Ollama manifest.
pub struct ManifestLayer {
    pub digest: String,
    pub media_type: String,
    pub size: u64,
}

/// A layer of this media type holds the model's weights.
pub open spec fn is_model_layer(media_type: Seq<char>) -> bool {
    contains_seq(media_type, "model"@) || contains_seq(media_type, "gguf"@) || media_type
        == "application/vnd.ollama.image.model"@
}

/// The first layer that holds the model's weights.
pub fn select_model_layer(layers: &Vec<ManifestLayer>) -> (r: Option<usize>)
    ensures
        match r {
            Some(i) => i < layers@.len() && is_model_layer(layers@[i as int].media_type@) && forall|j: int|
                0 <= j < i ==> !is_model_layer(#[trigger] layers@[j].media_type@),
            None => forall|j: int|
                0 <= j < layers@.len() ==> !is_model_layer(#[trigger] layers@[j].media_type@),
        },
{
    let model = chars_of("model");
    let gguf = chars_of("gguf");
    let mut i: usize = 0;
    while i < layers.len()
        invariant
            i <= layers@.len(),
            model@ == "model"@,
            gguf@ == "gguf"@,
            forall|j: int| 0 <= j < i ==> !is_model_layer(#[trigger] layers@[j].media_type@),
        decreases layers@.len() - i,
    {
        let mt = chars_of(layers[i].media_type.as_str());
        if contains(&mt, &model) || contains(&mt, &gguf) || chars_eq_media(&mt) {
            return Some(i);
        }
        i += 1;
    }
    None
}

fn chars_eq_media(mt: &Vec<char>) -> (r: bool)
    ensures
        r == (mt@ == "application/vnd.ollama.image.model"@),
{
    let want = chars_of("application/vnd.ollama.image.model");
    seq_eq(mt, &want)
}

/// The blob file name of a digest: `sha256:abc` names `sha256-abc`.
pub open spec fn blob_name_of(digest: Seq<char>) -> Seq<char> {
    digest.map_values(|c: char| if c == ':' { '-' } else { c })
}

/// A file name that cannot leave the directory it is joined to: no path
/// separator of either kind, no `..`, no NUL.
pub open spec fn is_plain_file_name(name: Seq<char>) -> bool {
    &&& !name.contains('/')
    &&& !name.contains('\\')
    &&& !contains_seq(name, ".."@)
    &&& !name.contains('\0')
}

/// The blob file name for a digest, refused (`None`) where it could reach
/// outside the blobs directory.
pub fn blob_name_for_digest(digest: &str) -> (r: Option<String>)
    ensures
        match r {
            Some(b) => b@ == blob_name_of(digest@) && is_plain_file_name(b@),
            None => !is_plain_file_name(blob_name_of(digest@)),
        },
{
    let d = chars_of(digest);
    let mut v: Vec<char> = Vec::new();
    let mut i: usize = 0;
    while i < d.len()
        invariant
            i <= d@.len(),
            v@ =~= blob_name_of(d@).take(i as int),
        decreases d@.len() - i,
    {
        let c = d[i];
        v.push(if c == ':' { '-' } else { c });
        i += 1;
    }
    proof {
        assert(v@ =~= blob_name_of(d@));
    }
    let dots = chars_of("..");
    if has_char(&v, '/') || has_char(&v, '\\') || contains(&v, &dots) || has_char(&v, '\0') {
        return None;
    }
    Some(string_of(&v))
}

/// The blob file name that a manifest's model layer names, where there is
/// such a layer and its digest gives a plain file name.
pub fn model_blob_name(layers: &Vec<ManifestLayer>) -> (r: Option<String>)
    ensures
        match r {
            Some(b) => exists|i: int|
                0 <= i < layers@.len() && is_model_layer(layers@[i].media_type@) && (forall|j: int|
                    0 <= j < i ==> !is_model_layer(#[trigger] layers@[j].media_type@)) && b@
                    == blob_name_of(layers@[i].digest@) && is_plain_file_name(b@),
            None => forall|i: int|
                0 <= i < layers@.len() && is_model_layer(layers@[i].media_type@) && (forall|j: int|
                    0 <= j < i ==> !is_model_layer(#[trigger] layers@[j].media_type@)) ==> !is_plain_file_name(
                    blob_name_of(layers@[i].digest@),
                ),
        },
{
    match select_model_layer(layers) {
        None => None,
        Some(i) => {
            let r = blob_name_for_digest(layers[i].digest.as_str());
            proof {
                assert forall|k: int|
                    0 <= k < layers@.len() && is_model_layer(layers@[k].media_type@) && (forall|j: int|
                        0 <= j < k ==> !is_model_layer(#[trigger] layers@[j].media_type@)) implies k
                    == i by {
                    if k < i {
                    } else if k > i {
                        assert(!is_model_layer(layers@[i as int].media_type@));
                    }
                }
            }
            r
        },
    }
}

/// The name a model is shown by, from the components of its manifest's
/// path under the manifests directory: `{model}:{tag}` from the last two
/// where there are at least four (`registry/library/{model}/{tag}`), else
/// the relative path as it is.
pub open spec fn display_name_of(parts: Seq<Seq<char>>, rel: Seq<char>) -> Seq<char> {
    if parts.len() >= 4 {
        parts[parts.len() - 2] + ":"@ + parts[parts.len() - 1]
    } else {
        rel
    }
}

/// The characters of each string.
pub open spec fn views(v: Seq<String>) -> Seq<Seq<char>> {
    v.map_values(|s: String| s@)
}

/// The name a model is shown by (see `display_name_of`).
pub fn display_name(parts: &Vec<String>, rel: &str) -> (r: String)
    ensures
        r@ == display_name_of(views(parts@), rel@),
{
    let n = parts.len();
    if n >= 4 {
        let mut s = parts[n - 2].clone();
        s.append(":");
        s.append(parts[n - 1].as_str());
        proof {
            reveal_strlit(":");
        }
        s
    } else {
        rel.to_string()
    }
}

/// `a` comes before `b` in the order of strings: character by character,
/// and a proper prefix before the longer string.
pub open spec fn name_lt(a: Seq<char>, b: Seq<char>) -> bool
    decreases a.len(),
{
    if a.len() == 0 {
        b.len() > 0
    } else if b.len() == 0 {
        false
    } else if a[0] != b[0] {
        a[0] < b[0]
    } else {
        name_lt(a.drop_first(), b.drop_first())
    }
}

/// No string comes before itself.
pub proof fn lemma_name_lt_irreflexive(a: Seq<char>)
    ensures
        !name_lt(a, a),
    decreases a.len(),
{
    if a.len() > 0 {
        lemma_name_lt_irreflexive(a.drop_first());
    }
}

/// The order of strings is transitive.
pub proof fn lemma_name_lt_transitive(a: Seq<char>, b: Seq<char>, c: Seq<char>)
    requires
        name_lt(a, b),
        name_lt(b, c),
    ensures
        name_lt(a, c),
    decreases a.len(),
{
    if a.len() > 0 && b.len() > 0 && c.len() > 0 && a[0] == b[0] && b[0] == c[0] {
        lemma_name_lt_transitive(a.drop_first(), b.drop_first(), c.drop_first());
    }
}

/// Of two different strings, one comes before the other.
pub proof fn lemma_name_lt_total(a: Seq<char>, b: Seq<char>)
    requires
        a != b,
    ensures
        name_lt(a, b) || name_lt(b, a),
    decreases a.len(),
{
    if a.len() > 0 && b.len() > 0 && a[0] == b[0] {
        if a.drop_first() == b.drop_first() {
            assert(a =~= seq![a[0]] + a.drop_first());
            assert(b =~= seq![b[0]] + b.drop_first());
        }
        lemma_name_lt_total(a.drop_first(), b.drop_first());
    } else if a.len() == 0 && b.len() == 0 {
        assert(a =~= b);
    }
}

/// Whether `a` comes before `b` in the order of strings.
pub fn name_less(a: &Vec<char>, b: &Vec<char>) -> (r: bool)
    ensures
        r == name_lt(a@, b@),
{
    let mut i: usize = 0;
    proof {
        assert(a@.skip(0) =~= a@);
        assert(b@.skip(0) =~= b@);
    }
    while i < a.len() && i < b.len()
        invariant
            i <= a@.len(),
            i <= b@.len(),
            name_lt(a@, b@) == name_lt(a@.skip(i as int), b@.skip(i as int)),
        decreases a@.len() - i,
    {
        if a[i] != b[i] {
            assert(a@.skip(i as int)[0] == a@[i as int]);
            assert(b@.skip(i as int)[0] == b@[i as int]);
            return a[i] < b[i];
        }
        proof {
            assert(a@.skip(i as int).drop_first() =~= a@.skip(i + 1));
            assert(b@.skip(i as int).drop_first() =~= b@.skip(i + 1));
        }
        i += 1;
    }
    b.len() > i
}

/// Position `x` comes before position `y`: by name, and by position among
/// equal names.
pub open spec fn name_before(names: Seq<Seq<char>>, x: int, y: int) -> bool {
    name_lt(names[x], names[y]) || (names[x] == names[y] && x < y)
}

/// `p` lists every position of `names` exactly once, in stable name order.
pub open spec fn is_name_order(names: Seq<Seq<char>>, p: Seq<usize>) -> bool {
    &&& p.len() == names.len()
    &&& forall|i: int| 0 <= i < p.len() ==> #[trigger] p[i] < names.len()
    &&& forall|i: int, j: int| 0 <= i < j < p.len() ==> p[i] != p[j]
    &&& forall|i: int, j: int|
        0 <= i < j < p.len() ==> name_before(names, #[trigger] p[i] as int, #[trigger] p[j] as int)
}

/// The names of models.
pub open spec fn model_names(models: Seq<DiscoveredModel>) -> Seq<Seq<char>> {
    models.map_values(|m: DiscoveredModel| m.name@)
}

/// The positions of `names` in stable name order (an insertion sort).
fn name_order(names: &Vec<Vec<char>>) -> (p: Vec<usize>)
    ensures
        is_name_order(names@.map_values(|v: Vec<char>| v@), p@),
{
    let ghost keys = names@.map_values(|v: Vec<char>| v@);
    let mut p: Vec<usize> = Vec::new();
    let mut k: usize = 0;
    while k < names.len()
        invariant
            keys == names@.map_values(|v: Vec<char>| v@),
            k <= names@.len(),
            p@.len() == k,
            forall|a: int| 0 <= a < p@.len() ==> #[trigger] p@[a] < k,
            forall|a: int, b: int| 0 <= a < b < p@.len() ==> p@[a] != p@[b],
            forall|a: int, b: int|
                0 <= a < b < p@.len() ==> name_before(keys, #[trigger] p@[a] as int, #[trigger] p@[b] as int),
        decreases names@.len() - k,
    {
        let mut j: usize = 0;
        while j < p.len() && !name_less(&names[k], &names[p[j]])
            invariant
                keys == names@.map_values(|v: Vec<char>| v@),
                k < names@.len(),
                p@.len() == k,
                forall|a: int| 0 <= a < p@.len() ==> #[trigger] p@[a] < k,
                j <= p@.len(),
                forall|a: int| 0 <= a < j ==> !name_lt(keys[k as int], keys[#[trigger] p@[a] as int]),
            decreases p@.len() - j,
        {
            j += 1;
        }
        let ghost old_p = p@;
        p.insert(j, k);
        proof {
            assert forall|a: int| 0 <= a < j implies p@[a] == old_p[a] by {}
            assert(p@[j as int] == k);
            assert forall|a: int| j < a < p@.len() implies p@[a] == old_p[a - 1] by {}
            assert forall|a: int, b: int| 0 <= a < b < p@.len() implies name_before(
                keys,
                #[trigger] p@[a] as int,
                #[trigger] p@[b] as int,
            ) by {
                if b < j {
                } else if b == j {
                    let x = old_p[a] as int;
                    assert(!name_lt(keys[k as int], keys[x]));
                    if keys[k as int] != keys[x] {
                        lemma_name_lt_total(keys[k as int], keys[x]);
                    }
                } else if a < j {
                    assert(name_before(keys, old_p[a] as int, old_p[b - 1] as int));
                } else if a == j {
                    let y = old_p[b - 1] as int;
                    let z = old_p[j as int] as int;
                    assert(name_lt(keys[k as int], keys[z]));
                    if b - 1 > j {
                        assert(name_before(keys, z, y));
                        if name_lt(keys[z], keys[y]) {
                            lemma_name_lt_transitive(keys[k as int], keys[z], keys[y]);
                        }
                    }
                } else {
                    assert(name_before(keys, old_p[a - 1] as int, old_p[b - 1] as int));
                }
            }
            assert forall|a: int, b: int| 0 <= a < b < p@.len() implies p@[a] != p@[b] by {
                if a < j && b < j {
                } else if a < j && b == j {
                } else if a < j {
                    assert(old_p[a] != old_p[b - 1]);
                } else if a == j {
                } else {
                    assert(old_p[a - 1] != old_p[b - 1]);
                }
            }
        }
        k += 1;
    }
    p
}

/// The models ordered by name; models of equal names keep their order.
pub fn sort_by_name(models: &Vec<DiscoveredModel>) -> (r: Vec<DiscoveredModel>)
    ensures
        r@.len() == models@.len(),
        exists|p: Seq<usize>|
            is_name_order(model_names(models@), p) && forall|i: int|
                0 <= i < r@.len() ==> r@[i] == models@[#[trigger] p[i] as int],
        forall|a: int, b: int|
            0 <= a < b < r@.len() ==> !name_lt(#[trigger] r@[b].name@, #[trigger] r@[a].name@),
{
    let mut names: Vec<Vec<char>> = Vec::new();
    let mut i: usize = 0;
    while i < models.len()
        invariant
            i <= models@.len(),
            names@.len() == i,
            forall|j: int| 0 <= j < i ==> #[trigger] names@[j]@ == models@[j].name@,
        decreases models@.len() - i,
    {
        names.push(chars_of(models[i].name.as_str()));
        i += 1;
    }
    proof {
        assert(names@.map_values(|v: Vec<char>| v@) =~= model_names(models@));
    }
    let p = name_order(&names);
    let mut r: Vec<DiscoveredModel> = Vec::new();
    let mut i: usize = 0;
    while i < p.len()
        invariant
            i <= p@.len(),
            is_name_order(model_names(models@), p@),
            r@.len() == i,
            forall|j: int| 0 <= j < i ==> r@[j] == models@[#[trigger] p@[j] as int],
        decreases p@.len() - i,
    {
        let m = &models[p[i]];
        r.push(DiscoveredModel { name: m.name.clone(), path: m.path.clone(), size: m.size });
        i += 1;
    }
    proof {
        let keys = model_names(models@);
        assert forall|a: int, b: int| 0 <= a < b < r@.len() implies !name_lt(
            #[trigger] r@[b].name@,
            #[trigger] r@[a].name@,
        ) by {
            let x = p@[a] as int;
            let y = p@[b] as int;
            assert(name_before(keys, x, y));
            assert(keys[x] == r@[a].name@);
            assert(keys[y] == r@[b].name@);
            if name_lt(keys[y], keys[x]) {
                if name_lt(keys[x], keys[y]) {
                    lemma_name_lt_transitive(keys[x], keys[y], keys[x]);
                    lemma_name_lt_irreflexive(keys[x]);
                } else {
                    lemma_name_lt_irreflexive(keys[x]);
                }
            }
        }
    }
    r
}

/// Sorting by name keeps every model: each one appears in the result.
pub proof fn lemma_sort_keeps_models(models: Seq<DiscoveredModel>, p: Seq<usize>)
    requires
        is_name_order(model_names(models), p),
    ensures
        forall|v: int| 0 <= v < models.len() ==> #[trigger] lists(p, v),
{
    lemma_distinct_covers(p, models.len());
}

/// `q` is a prefix of `name`.
pub open spec fn is_prefix_of(q: Seq<char>, name: Seq<char>) -> bool {
    q.len() <= name.len() && name.take(q.len() as int) == q
}

/// The first model whose name begins with `query` (a model of exactly that
/// name among them).
pub fn first_prefix_match(models: &Vec<DiscoveredModel>, query: &str) -> (r: Option<usize>)
    ensures
        match r {
            Some(i) => i < models@.len() && is_prefix_of(query@, models@[i as int].name@) && forall|j: int|
                0 <= j < i ==> !is_prefix_of(query@, #[trigger] models@[j].name@),
            None => forall|j: int|
                0 <= j < models@.len() ==> !is_prefix_of(query@, #[trigger] models@[j].name@),
        },
{
    let q = chars_of(query);
    let mut i: usize = 0;
    while i < models.len()
        invariant
            i <= models@.len(),
            q@ == query@,
            forall|j: int| 0 <= j < i ==> !is_prefix_of(query@, #[trigger] models@[j].name@),
        decreases models@.len() - i,
    {
        let name = chars_of(models[i].name.as_str());
        if starts_with(&name, &q) {
            return Some(i);
        }
        i += 1;
    }
    None
}

/// The model that a name given by a user picks: the first model of exactly
/// that name, or else the first whose name begins with it.
pub fn resolve_model(models: &Vec<DiscoveredModel>, query: &str) -> (r: Option<usize>)
    ensures
        (exists|j: int| 0 <= j < models@.len() && #[trigger] models@[j].name@ == query@) ==> (r matches Some(
            i,
        ) && i < models@.len() && models@[i as int].name@ == query@ && forall|j: int|
            0 <= j < i ==> #[trigger] models@[j].name@ != query@),
        !(exists|j: int| 0 <= j < models@.len() && #[trigger] models@[j].name@ == query@) ==> match r {
            Some(i) => i < models@.len() && is_prefix_of(query@, models@[i as int].name@) && forall|j: int|
                0 <= j < i ==> !is_prefix_of(query@, #[trigger] models@[j].name@),
            None => forall|j: int|
                0 <= j < models@.len() ==> !is_prefix_of(query@, #[trigger] models@[j].name@),
        },
{
    let q = chars_of(query);
    let mut i: usize = 0;
    while i < models.len()
        invariant
            i <= models@.len(),
            q@ == query@,
            forall|j: int| 0 <= j < i ==> #[trigger] models@[j].name@ != query@,
        decreases models@.len() - i,
    {
        let name = chars_of(models[i].name.as_str());
        if seq_eq(&name, &q) {
            return Some(i);
        }
        i += 1;
    }
    first_prefix_match(models, query)
}

/// What `std::path::Path::starts_with` says of two paths given by their
/// characters: whether `base` is a prefix of `path`, component by component.
pub uninterp spec fn spec_path_starts_with(path: Seq<char>, base: Seq<char>) -> bool;

/// Whether `base` is a prefix of `path`, component by component.
///
/// Calls `std::path::Path::starts_with`. Trusted: the result is the named
/// function `spec_path_starts_with` of the two paths' characters.
#[verifier::external_body]
fn path_starts_with(path: &str, base: &str) -> (r: bool)
    ensures
        r == spec_path_starts_with(path@, base@),
{
    std::path::Path::new(path).starts_with(base)
}

/// Whether a blob, its path resolved (symbolic links followed), still lies
/// inside the resolved blobs directory: a blob outside it is refused.
pub fn blob_inside_dir(resolved_blob: &str, resolved_blobs_dir: &str) -> (r: bool)
    ensures
        r == spec_path_starts_with(resolved_blob@, resolved_blobs_dir@),
{
    path_starts_with(resolved_blob, resolved_blobs_dir)
}

} // verus!
