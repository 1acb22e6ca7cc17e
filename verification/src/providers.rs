//! File format providers: a format's logical structure as prioritised
//! byte-range segments.
pub mod manifest;

use vstd::prelude::*;
use crate::order::{is_stable_order, stable_order};
use crate::strmap::StrMap;

verus! {

/// A named byte range within a file, with a prefetch priority.
#[derive(Debug)]
pub struct Segment {
    /// Human-readable name (e.g., "token_embedding", "index", "header").
    pub name: String,
    /// Absolute byte offset in the file.
    pub offset: u64,
    /// Byte length of this segment.
    pub length: u64,
    /// Prefetch priority: lower values are prefetched first.
    pub priority: u32,
}

/// The logical layout of a file, described as segments.
pub struct FileLayout {
    /// Total file size in bytes.
    pub file_size: u64,
    /// Name of the detected format (e.g., "GGUF", "SQLite", "Custom").
    pub format_name: String,
    /// Segments to prefetch.
    pub segments: Vec<Segment>,
    /// Format-specific metadata for display (e.g., "architecture: llama").
    pub metadata: StrMap<String>,
}

/// The priorities of a sequence of segments, as sort keys.
pub open spec fn priority_keys(segs: Seq<Segment>) -> Seq<u64> {
    Seq::new(segs.len(), |i: int| segs[i].priority as u64)
}

/// The total length of a sequence of segments.
pub open spec fn total_length(segs: Seq<Segment>) -> int
    decreases segs.len(),
{
    if segs.len() == 0 {
        0
    } else {
        total_length(segs.drop_last()) + segs.last().length
    }
}

pub proof fn lemma_total_length_prefix(segs: Seq<Segment>, k: int)
    requires
        0 <= k <= segs.len(),
    ensures
        0 <= total_length(segs.take(k)) <= total_length(segs),
    decreases segs.len(),
{
    if segs.len() > 0 {
        if k < segs.len() {
            assert(segs.drop_last().take(k) =~= segs.take(k));
            lemma_total_length_prefix(segs.drop_last(), k);
        } else {
            assert(segs.take(k) =~= segs);
            lemma_total_length_prefix(segs.drop_last(), 0);
        }
    } else {
        assert(segs.take(k) =~= segs);
    }
}

impl FileLayout {
    /// Segments sorted by priority, lowest first; segments of equal priority
    /// keep their order (a stable sort).
    pub fn ordered_segments(&self) -> (r: Vec<&Segment>)
        ensures
            r@.len() == self.segments@.len(),
            exists|p: Seq<usize>|
                is_stable_order(priority_keys(self.segments@), p) && forall|i: int|
                    0 <= i < r@.len() ==> *r@[i] == self.segments@[#[trigger] p[i] as int],
    {
        let mut keys: Vec<u64> = Vec::new();
        let mut i: usize = 0;
        while i < self.segments.len()
            invariant
                i <= self.segments@.len(),
                keys@ =~= priority_keys(self.segments@).take(i as int),
            decreases self.segments@.len() - i,
        {
            keys.push(self.segments[i].priority as u64);
            i += 1;
        }
        proof {
            assert(keys@ =~= priority_keys(self.segments@));
        }
        let perm = stable_order(&keys);
        let mut r: Vec<&Segment> = Vec::new();
        let mut i: usize = 0;
        while i < perm.len()
            invariant
                i <= perm@.len() == self.segments@.len(),
                is_stable_order(priority_keys(self.segments@), perm@),
                r@.len() == i,
                forall|j: int| 0 <= j < i ==> *r@[j] == self.segments@[#[trigger] perm@[j] as int],
            decreases perm@.len() - i,
        {
            r.push(&self.segments[perm[i]]);
            i += 1;
        }
        r
    }

    /// Total bytes across all segments.
    pub fn total_segment_bytes(&self) -> (r: u64)
        requires
            total_length(self.segments@) <= u64::MAX,
        ensures
            r == total_length(self.segments@),
    {
        let ghost segs = self.segments@;
        let mut total: u64 = 0;
        let mut i: usize = 0;
        while i < self.segments.len()
            invariant
                i <= segs.len(),
                segs == self.segments@,
                total_length(segs) <= u64::MAX,
                total == total_length(segs.take(i as int)),
            decreases segs.len() - i,
        {
            proof {
                assert(segs.take(i + 1).drop_last() =~= segs.take(i as int));
                lemma_total_length_prefix(segs, i + 1);
            }
            total = total + self.segments[i].length;
            i += 1;
        }
        proof {
            assert(segs.take(i as int) =~= segs);
        }
        total
    }
}

/// Why a provider could not describe a file.
pub struct ProviderError {
    pub message: String,
}

/// A provider that understands a file format and can describe its logical
/// structure as prioritised byte-range segments. Implemented by users of
/// the library for their own formats.
///
/// An implementation may also say what its answers mean: which names, and
/// which answers for a path, it may give. These are relations, not
/// functions, since a provider may read the file and so answer differently
/// at different times; an implementation that says nothing allows every
/// answer.
pub trait FileProvider {
    /// `n` is a name the provider may give.
    closed spec fn names(&self, n: Seq<char>) -> bool {
        true
    }

    /// `r` is an answer the provider may give to whether it can handle the
    /// file at `path`.
    closed spec fn handles(&self, path: Seq<char>, r: bool) -> bool {
        true
    }

    /// `r` is a result the provider may give when analyzing the file at `path`.
    closed spec fn analyzes(&self, path: Seq<char>, r: Result<FileLayout, ProviderError>) -> bool {
        true
    }

    /// Name of this provider (e.g., "gguf", "sqlite", "bam").
    fn name(&self) -> (r: String)
        ensures
            self.names(r@),
    ;

    /// Whether this provider can handle the given file (typically by magic
    /// bytes or extension).
    fn can_handle(&self, path: &str) -> (r: bool)
        ensures
            self.handles(path@, r),
    ;

    /// Parse the file and return its logical segments.
    fn analyze(&self, path: &str) -> (r: Result<FileLayout, ProviderError>)
        ensures
            self.analyzes(path@, r),
    ;
}

/// `a` is what provider `i` of `ps` answered about the file at `path`: it
/// declined the file, or it accepted it and then failed or succeeded in
/// analyzing it.
pub open spec fn answer_of(ps: Seq<Box<dyn FileProvider>>, i: int, path: Seq<char>, a: ProviderAnswer) -> bool {
    match a {
        ProviderAnswer::Declined => ps[i].handles(path, false),
        ProviderAnswer::Failed(e) => ps[i].handles(path, true) && ps[i].analyzes(path, Err(e)),
        ProviderAnswer::Analyzed(l) => ps[i].handles(path, true) && ps[i].analyzes(path, Ok(l)),
    }
}

/// What one provider made of a file.
pub enum ProviderAnswer {
    /// It cannot handle the file.
    Declined,
    /// It can handle the file but failed to analyze it.
    Failed(ProviderError),
    /// It analyzed the file into this layout.
    Analyzed(FileLayout),
}

/// The layout of the first answer that analyzed the file, if any did.
pub open spec fn first_layout_of(answers: Seq<ProviderAnswer>) -> Option<FileLayout>
    decreases answers.len(),
{
    if answers.len() == 0 {
        None
    } else {
        match answers[0] {
            ProviderAnswer::Analyzed(l) => Some(l),
            _ => first_layout_of(answers.drop_first()),
        }
    }
}

/// `answers` are those of a search through `n` providers in order: it
/// stops at the first provider that analyzes the file, or else asks all `n`.
pub open spec fn is_search(answers: Seq<ProviderAnswer>, n: nat) -> bool {
    &&& answers.len() <= n
    &&& forall|j: int| 0 <= j < answers.len() - 1 ==> !(#[trigger] answers[j] is Analyzed)
    &&& answers.len() < n ==> answers.len() > 0 && answers.last() is Analyzed
}

/// Whether a search through `n` providers with these answers so far asks
/// another: none has analyzed the file yet, and some are left.
pub fn search_goes_on(answers: &Vec<ProviderAnswer>, n: usize) -> (r: bool)
    ensures
        r == (answers@.len() < n && (answers@.len() == 0 || !(answers@.last() is Analyzed))),
{
    if answers.len() >= n {
        return false;
    }
    if answers.len() == 0 {
        return true;
    }
    match &answers[answers.len() - 1] {
        ProviderAnswer::Analyzed(_) => false,
        _ => true,
    }
}

/// The outcome of a search: the layout of the first answer that analyzed
/// the file, or `None` where none did.
pub fn first_layout(answers: Vec<ProviderAnswer>) -> (r: Option<FileLayout>)
    ensures
        r == first_layout_of(answers@),
{
    let mut k: usize = 0;
    proof {
        assert(answers@.skip(0) =~= answers@);
    }
    while k < answers.len()
        invariant
            k <= answers@.len(),
            first_layout_of(answers@.skip(k as int)) == first_layout_of(answers@),
        decreases answers@.len() - k,
    {
        proof {
            assert(answers@.skip(k as int).drop_first() =~= answers@.skip(k + 1));
        }
        if let ProviderAnswer::Analyzed(_) = &answers[k] {
            return take_layout(answers, k);
        }
        k += 1;
    }
    proof {
        assert(answers@.skip(k as int) =~= Seq::<ProviderAnswer>::empty());
    }
    None
}

/// The layout of answer `k`, which analyzed the file.
fn take_layout(answers: Vec<ProviderAnswer>, k: usize) -> (r: Option<FileLayout>)
    requires
        k < answers@.len(),
        answers@[k as int] is Analyzed,
    ensures
        r == Some(answers@[k as int]->Analyzed_0),
{
    let mut answers = answers;
    let a = answers.swap_remove(k);
    match a {
        ProviderAnswer::Analyzed(l) => Some(l),
        _ => None,
    }
}

/// A search that ran its course: its result is the layout of its last
/// answer where that analyzed the file, and none otherwise; where none were
/// left to ask, it has no answers.
proof fn lemma_search_outcome(answers: Seq<ProviderAnswer>, n: nat)
    requires
        answers.len() <= n,
        forall|j: int| 0 <= j < answers.len() - 1 ==> !(#[trigger] answers[j] is Analyzed),
        !(answers.len() < n && (answers.len() == 0 || !(answers.last() is Analyzed))),
    ensures
        is_search(answers, n),
        n == 0 ==> first_layout_of(answers) is None,
        first_layout_of(answers) is Some ==> answers.len() > 0,
{
}

/// Registry of file format providers, tried in registration order.
pub struct ProviderRegistry {
    providers: Vec<Box<dyn FileProvider>>,
}

impl ProviderRegistry {
    /// The number of registered providers.
    pub closed spec fn count(&self) -> nat {
        self.providers@.len()
    }

    /// The registered providers, in registration order.
    pub closed spec fn providers_in_order(&self) -> Seq<Box<dyn FileProvider>> {
        self.providers@
    }

    pub fn new() -> (r: Self)
        ensures
            r.count() == 0,
    {
        ProviderRegistry { providers: Vec::new() }
    }

    /// Register a new provider, after those already registered.
    pub fn register(&mut self, provider: Box<dyn FileProvider>)
        ensures
            final(self).providers_in_order() == old(self).providers_in_order().push(provider),
            final(self).count() == old(self).count() + 1,
    {
        let ghost before = self.providers@;
        let ghost added = provider;
        self.providers.push(provider);
        proof {
            vstd::seq::axiom_seq_push_len(before, added);
            assert forall|i: int| 0 <= i < before.len() implies self.providers@[i] == before[i] by {
                vstd::seq::axiom_seq_push_index_different(before, added, i);
            }
        }
    }

    /// Detect the file format and return its layout.
    ///
    /// `manifest` is the layout read from the file's manifest
    /// (`<path>.prefetch.toml`), where one exists and parses; it takes
    /// precedence. Otherwise the registered providers are asked in
    /// registration order, each analyzing the file only where it can
    /// handle it, until one analyzes it: its layout is the result, and
    /// where none does, there is none.
    pub fn analyze(&self, path: &str, manifest: Option<FileLayout>) -> (r: Option<FileLayout>)
        ensures
            manifest is Some ==> r == manifest,
            manifest is None ==> exists|answers: Seq<ProviderAnswer>|
                is_search(answers, self.count()) && #[trigger] first_layout_of(answers) == r && forall|i: int|
                    0 <= i < answers.len() ==> answer_of(self.providers_in_order(), i, path@, #[trigger] answers[i]),
            manifest is None && r is Some ==> self.count() > 0,
            manifest is None && self.count() == 0 ==> r is None,
    {
        if manifest.is_some() {
            return manifest;
        }
        let n = self.providers.len();
        let mut answers: Vec<ProviderAnswer> = Vec::new();
        while search_goes_on(&answers, n)
            invariant
                n == self.providers@.len(),
                answers@.len() <= n,
                forall|j: int| 0 <= j < answers@.len() - 1 ==> !(#[trigger] answers@[j] is Analyzed),
                forall|j: int|
                    0 <= j < answers@.len() ==> answer_of(self.providers_in_order(), j, path@, #[trigger] answers@[j]),
            decreases n - answers@.len(),
        {
            let i = answers.len();
            let handles = self.providers[i].can_handle(path);
            assert(self.providers@[i as int].handles(path@, handles));
            let answer = if handles {
                let result = self.providers[i].analyze(path);
                assert(self.providers@[i as int].analyzes(path@, result));
                match result {
                    Ok(layout) => ProviderAnswer::Analyzed(layout),
                    Err(e) => ProviderAnswer::Failed(e),
                }
            } else {
                ProviderAnswer::Declined
            };
            assert(answer_of(self.providers@, i as int, path@, answer));
            let ghost before = answers@;
            answers.push(answer);
            proof {
                assert(answer_of(self.providers_in_order(), i as int, path@, answer));
                assert forall|j: int| 0 <= j < answers@.len() - 1 implies !(#[trigger] answers@[j] is Analyzed) by {
                    assert(answers@[j] == before[j]);
                }
                assert forall|j: int| 0 <= j < answers@.len() implies answer_of(
                    self.providers_in_order(),
                    j,
                    path@,
                    #[trigger] answers@[j],
                ) by {
                    if j < i {
                        assert(answers@[j] == before[j]);
                    }
                }
            }
        }
        let ghost all = answers@;
        proof {
            lemma_search_outcome(all, n as nat);
        }
        first_layout(answers)
    }

    /// Registered provider names, in registration order.
    pub fn provider_names(&self) -> (r: Vec<String>)
        ensures
            r@.len() == self.count(),
            forall|i: int| 0 <= i < r@.len() ==> self.providers_in_order()[i].names((#[trigger] r@[i])@),
    {
        let mut names: Vec<String> = Vec::new();
        let mut i: usize = 0;
        while i < self.providers.len()
            invariant
                i <= self.providers@.len(),
                names@.len() == i,
                forall|j: int| 0 <= j < i ==> self.providers_in_order()[j].names((#[trigger] names@[j])@),
            decreases self.providers@.len() - i,
        {
            let name = self.providers[i].name();
            let ghost before = names@;
            names.push(name);
            proof {
                assert(self.providers_in_order()[i as int].names(names@[i as int]@));
                assert forall|j: int| 0 <= j < i + 1 implies self.providers_in_order()[j].names((#[trigger] names@[j])@) by {
                    if j < i {
                        assert(names@[j] == before[j]);
                    }
                }
            }
            i += 1;
        }
        names
    }
}

/// Registering a provider appends it: the names listed afterwards are, in
/// order, names that the providers registered before may give, followed by
/// a name that the newly registered provider (the last of the list) may give.
pub proof fn lemma_register_appends_name(
    before: Seq<Box<dyn FileProvider>>,
    provider: Box<dyn FileProvider>,
    names: Seq<Seq<char>>,
)
    requires
        names.len() == before.push(provider).len(),
        forall|i: int| 0 <= i < names.len() ==> #[trigger] before.push(provider)[i].names(names[i]),
    ensures
        names.len() == before.len() + 1,
        forall|i: int| 0 <= i < before.len() ==> #[trigger] before[i].names(names[i]),
        before.push(provider).last().names(names.last()),
{
    let after = before.push(provider);
    vstd::seq::axiom_seq_push_len(before, provider);
    assert(names.last() == names[before.len() as int]);
    assert(after.last() == after[before.len() as int]);
    assert(after[before.len() as int].names(names[before.len() as int]));
    assert forall|i: int| 0 <= i < before.len() implies #[trigger] before[i].names(names[i]) by {
        vstd::seq::axiom_seq_push_index_different(before, provider, i);
        assert(after[i].names(names[i]));
    }
}

impl Default for ProviderRegistry {
    fn default() -> (r: Self)
        ensures
            r.count() == 0,
    {
        Self::new()
    }
}

/// What `std::path::Path::extension` gives for a path, as characters.
pub uninterp spec fn spec_path_extension(path: Seq<char>) -> Option<Seq<char>>;

/// The extension of a path: the part of its file name after the last dot.
///
/// Calls `std::path::Path::extension`. Trusted: the result is the named
/// function `spec_path_extension` of the path's characters.
#[verifier::external_body]
pub(crate) fn path_extension(path: &str) -> (r: Option<String>)
    ensures
        match r {
            Some(e) => spec_path_extension(path@) == Some(e@),
            None => spec_path_extension(path@) is None,
        },
{
    match std::path::Path::new(path).extension() {
        Some(e) => match e.to_str() {
            Some(t) => Some(t.to_owned()),
            None => None,
        },
        None => None,
    }
}

} // verus!
