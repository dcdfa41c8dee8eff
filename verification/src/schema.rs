//! Content-schema field validators for markdown collections: raw body,
//! rendered HTML / MDX, reading metadata, excerpts, routes, slugs, unique
//! values, ISO dates and asset paths.

use vstd::prelude::*;
use vstd::string::StringSliceAdditionalSpecFns;
use crate::assoc::StrMap;
use crate::pathtext::{ext_of, file_name, joined, lemma_parent_plain, parent_text, plain_dir, plain_path, plain_rel, relative_text, stem_of};
use crate::text::{
    chars_of, decimal, decimal_of, is_white_space, is_whitespace, push_all, string_of, trim_end,
    trim_end_len, ends_with, starts_with, contains_seq, vec_starts_with, vec_ends_with,
    vec_contains, is_digit, is_lower,
};

verus! {

/// A validation failure: where (a field path, empty at the root) and why.
#[derive(Debug)]
pub struct ValidationError {
    pub path: String,
    pub message: String,
}

impl ValidationError {
    /// An error at the root of the validated value.
    pub fn root(message: String) -> (e: Self)
        ensures
            e.path@ == Seq::<char>::empty(),
            e.message == message,
    {
        ValidationError { path: String::new(), message }
    }
}

/// The text a field of a content entry is validated against.
pub struct Ctx {
    /// The raw markdown body.
    pub body: String,
    /// The rendered HTML, once rendered.
    pub html: Option<String>,
    /// The compiled MDX body, once compiled.
    pub mdx_body: Option<String>,
    /// The plain text of the body.
    pub plain_text: Option<String>,
    /// Path of the content file.
    pub file_path: String,
    /// The content root directory.
    pub root: String,
}

/// Concatenation of the characters of `parts`.
pub open spec fn concat(parts: Seq<Seq<char>>) -> Seq<char>
    decreases parts.len(),
{
    if parts.len() == 0 {
        Seq::empty()
    } else {
        concat(parts.drop_last()) + parts.last()
    }
}

fn join3(a: &str, b: &str, c: &str) -> (r: String)
    ensures
        r@ == a@ + b@ + c@,
{
    let mut v = chars_of(a);
    push_all(&mut v, &chars_of(b));
    push_all(&mut v, &chars_of(c));
    string_of(&v)
}

fn join5(a: &str, b: &str, c: &str, d: &str, e: &str) -> (r: String)
    ensures
        r@ == a@ + b@ + c@ + d@ + e@,
{
    let mut v = chars_of(a);
    push_all(&mut v, &chars_of(b));
    push_all(&mut v, &chars_of(c));
    push_all(&mut v, &chars_of(d));
    push_all(&mut v, &chars_of(e));
    string_of(&v)
}

fn root_error(msg: &str) -> (e: ValidationError)
    ensures
        e.path@ == Seq::<char>::empty(),
        e.message@ == msg@,
{
    ValidationError::root(string_of(&chars_of(msg)))
}

// ---------------------------------------------------------------------
// Body-derived fields
// ---------------------------------------------------------------------

pub struct RawSchema;

impl RawSchema {
    /// The raw markdown body.
    pub fn parse(&self, ctx: &Ctx) -> (r: Result<String, ValidationError>)
        ensures
            r matches Ok(s) && s@ == ctx.body@,
    {
        Ok(ctx.body.clone())
    }
}

pub struct MarkdownSchema;

impl MarkdownSchema {
    /// The rendered HTML; an error when the body is not rendered yet.
    pub fn parse(&self, ctx: &Ctx) -> (r: Result<String, ValidationError>)
        ensures
            match ctx.html {
                Some(h) => r matches Ok(s) && s@ == h@,
                None => r matches Err(e) && e.message@ == "markdown body not yet rendered (engine bug?)"@,
            },
    {
        match &ctx.html {
            Some(h) => Ok(h.clone()),
            None => Err(root_error("markdown body not yet rendered (engine bug?)")),
        }
    }
}

pub struct MdxSchema;

impl MdxSchema {
    /// The compiled MDX body; an error when it is not compiled yet.
    pub fn parse(&self, ctx: &Ctx) -> (r: Result<String, ValidationError>)
        ensures
            match ctx.mdx_body {
                Some(h) => r matches Ok(s) && s@ == h@,
                None => r matches Err(e) && e.message@ == "mdx body not yet rendered (engine bug?)"@,
            },
    {
        match &ctx.mdx_body {
            Some(h) => Ok(h.clone()),
            None => Err(root_error("mdx body not yet rendered (engine bug?)")),
        }
    }
}

/// Scanner state of whitespace collapsing: text so far and whether the
/// last character read was whitespace (true at the start).
pub open spec fn collapse_scan(s: Seq<char>) -> (Seq<char>, bool)
    decreases s.len(),
{
    if s.len() == 0 {
        (Seq::empty(), true)
    } else {
        let (out, prev) = collapse_scan(s.drop_last());
        let c = s.last();
        if is_white_space(c) {
            if !prev {
                (out.push(' '), true)
            } else {
                (out, prev)
            }
        } else {
            (out.push(c), false)
        }
    }
}

/// The words of `s` joined by single spaces (`split_whitespace` then
/// `join(" ")`).
pub open spec fn collapsed(s: Seq<char>) -> Seq<char> {
    let out = collapse_scan(s).0;
    if out.len() > 0 && out.last() == ' ' {
        out.drop_last()
    } else {
        out
    }
}

/// Number of whitespace-separated words.
pub open spec fn word_count_of(s: Seq<char>) -> nat
    decreases s.len(),
{
    if s.len() == 0 {
        0
    } else {
        word_count_of(s.drop_last()) + if !is_white_space(s.last()) && (s.len() == 1
            || is_white_space(s[s.len() - 2])) {
            1nat
        } else {
            0nat
        }
    }
}

fn collapse_whitespace(v: &Vec<char>) -> (r: Vec<char>)
    ensures
        r@ == collapsed(v@),
{
    let mut out: Vec<char> = Vec::new();
    let mut prev = true;
    let mut i: usize = 0;
    while i < v.len()
        invariant
            i <= v.len(),
            (out@, prev) == collapse_scan(v@.take(i as int)),
        decreases v.len() - i,
    {
        let c = v[i];
        proof {
            assert(v@.take(i + 1).drop_last() =~= v@.take(i as int));
        }
        if is_whitespace(c) {
            if !prev {
                out.push(' ');
                prev = true;
            }
        } else {
            out.push(c);
            prev = false;
        }
        i += 1;
    }
    assert(v@.take(v.len() as int) =~= v@);
    if out.len() > 0 && out[out.len() - 1] == ' ' {
        out.pop();
    }
    out
}

/// Number of whitespace-separated words of `s` (`split_whitespace().count()`).
pub fn word_count(s: &str) -> (n: usize)
    ensures
        n == word_count_of(s@),
{
    let v = chars_of(s);
    let mut n: usize = 0;
    let mut i: usize = 0;
    while i < v.len()
        invariant
            i <= v.len(),
            n == word_count_of(v@.take(i as int)),
            n <= i,
        decreases v.len() - i,
    {
        proof {
            assert(v@.take(i + 1).drop_last() =~= v@.take(i as int));
        }
        if !is_whitespace(v[i]) && (i == 0 || is_whitespace(v[i - 1])) {
            n += 1;
        }
        i += 1;
    }
    assert(v@.take(v.len() as int) =~= v@);
    n
}

/// The entry's table of contents, as the engine computed it.
pub struct TocSchema;

/// Reading time and word count of the entry.
pub struct MetadataSchema;

pub struct ExcerptSchema {
    pub length: usize,
}

impl ExcerptSchema {
    pub fn length(self, n: usize) -> (r: Self)
        ensures
            r.length == n,
    {
        let mut s = self;
        s.length = n;
        s
    }
}

impl Default for ExcerptSchema {
    /// The default excerpt length, 260 characters.
    fn default() -> (r: Self)
        ensures
            r.length == 260,
    {
        ExcerptSchema { length: 260 }
    }
}

/// The excerpt of a plain text: its words joined by single spaces, cut to
/// `length` characters (trailing whitespace of the cut removed, `…`
/// appended) when longer.
pub open spec fn excerpt_of(plain: Seq<char>, length: nat) -> Seq<char> {
    let s = collapsed(plain);
    if s.len() <= length {
        s
    } else {
        trim_end(s.take(length as int)).push('\u{2026}')
    }
}

/// An excerpt is never longer than its length plus the ellipsis.
pub proof fn law_excerpt_bounded(plain: Seq<char>, length: nat)
    ensures
        excerpt_of(plain, length).len() <= length + 1,
{
    let s = collapsed(plain);
    if s.len() > length {
        let cut = s.take(length as int);
        crate::text::lemma_trail_ws_bound(cut);
    }
}

impl ExcerptSchema {
    pub fn parse(&self, ctx: &Ctx) -> (r: Result<String, ValidationError>)
        ensures
            r matches Ok(x) && x@ == excerpt_of(
                match ctx.plain_text {
                    Some(p) => p@,
                    None => Seq::empty(),
                },
                self.length as nat,
            ),
    {
        let plain = match &ctx.plain_text {
            Some(p) => chars_of(p.as_str()),
            None => Vec::new(),
        };
        let s = collapse_whitespace(&plain);
        if s.len() <= self.length {
            return Ok(string_of(&s));
        }
        let cut = crate::text::slice_chars(&s, 0, self.length);
        let n = trim_end_len(&cut);
        let mut out = crate::text::slice_chars(&cut, 0, n);
        out.push('\u{2026}');
        proof {
            assert(cut@ =~= s@.take(self.length as int));
        }
        Ok(string_of(&out))
    }
}

// ---------------------------------------------------------------------
// Routes
// ---------------------------------------------------------------------

pub struct PathSchema {
    pub remove_index: bool,
}

impl Default for PathSchema {
    fn default() -> (r: Self)
        ensures
            !r.remove_index,
    {
        PathSchema { remove_index: false }
    }
}

impl PathSchema {
    pub fn remove_index(self) -> (r: Self)
        ensures
            r.remove_index,
    {
        PathSchema { remove_index: true }
    }
}

/// `s` with every trailing repetition of `p` removed (`trim_end_matches`).
pub open spec fn trim_suffixes(s: Seq<char>, p: Seq<char>) -> Seq<char>
    decreases s.len(),
{
    if p.len() > 0 && ends_with(s, p) {
        trim_suffixes(s.take(s.len() - p.len()), p)
    } else {
        s
    }
}

fn trim_suffixes_vec(s: &Vec<char>, p: &Vec<char>) -> (r: Vec<char>)
    ensures
        r@ == trim_suffixes(s@, p@),
{
    let mut cur = crate::text::slice_chars(s, 0, s.len());
    assert(cur@ =~= s@);
    if p.len() == 0 {
        return cur;
    }
    while vec_ends_with(&cur, p)
        invariant
            p@.len() > 0,
            trim_suffixes(s@, p@) == trim_suffixes(cur@, p@),
        decreases cur@.len(),
    {
        let n = cur.len() - p.len();
        cur = crate::text::slice_chars(&cur, 0, n);
    }
    cur
}

/// The route of a content file from its path relative to the content root:
/// trailing `.mdx` then `.md` extensions removed, then, when asked,
/// trailing `/index` segments.
pub open spec fn route_of(rel: Seq<char>, remove_index: bool) -> Seq<char> {
    let s = trim_suffixes(trim_suffixes(rel, ".mdx"@), ".md"@);
    if remove_index {
        trim_suffixes(s, "/index"@)
    } else {
        s
    }
}

impl PathSchema {
    /// The route for a content file whose path relative to the content root
    /// is `rel`.
    pub fn route(&self, rel: &str) -> (r: String)
        ensures
            r@ == route_of(rel@, self.remove_index),
    {
        let v = chars_of(rel);
        let a = trim_suffixes_vec(&v, &chars_of(".mdx"));
        let b = trim_suffixes_vec(&a, &chars_of(".md"));
        if self.remove_index {
            let c = trim_suffixes_vec(&b, &chars_of("/index"));
            string_of(&c)
        } else {
            string_of(&b)
        }
    }
}

/// `path` relative to `root` (`Path::strip_prefix`), as text, or `path`
/// itself when `root` is not a leading part of it. `strip_prefix` compares
/// whole components; for plain paths (see `plain_path`) the components are
/// the `/`-separated segments on every platform, and the remainder is the
/// text after `root/`. For other paths nothing is stated: their components
/// depend on the platform.
#[verifier::external_body]
fn path_relative_to(path: &str, root: &str) -> (r: String)
    ensures
        plain_path(path@) && plain_path(root@) ==> r@ == relative_text(path@, root@),
{
    let p = std::path::Path::new(path);
    p.strip_prefix(root).unwrap_or(p).to_string_lossy().to_string()
}

impl PathSchema {
    /// The route of the entry: its path relative to the content root, then
    /// as `route` gives it.
    pub fn parse(&self, ctx: &Ctx) -> (r: String)
        ensures
            exists|rel: Seq<char>| r@ == route_of(rel, self.remove_index),
            plain_path(ctx.file_path@) && plain_path(ctx.root@) ==> r@ == route_of(
                relative_text(ctx.file_path@, ctx.root@),
                self.remove_index,
            ),
    {
        let rel = path_relative_to(ctx.file_path.as_str(), ctx.root.as_str());
        self.route(rel.as_str())
    }
}

// ---------------------------------------------------------------------
// Slugs and unique values
// ---------------------------------------------------------------------

/// Keys already taken, across all buckets (`bucket::value`).
pub struct UniqueCache {
    keys: StrMap<()>,
}

impl UniqueCache {
    pub closed spec fn taken(self) -> Set<Seq<char>> {
        self.keys.view().dom()
    }

    pub fn new() -> (c: Self)
        ensures
            c.taken() == Set::<Seq<char>>::empty(),
    {
        let c = UniqueCache { keys: StrMap::new() };
        assert(c.taken() =~= Set::<Seq<char>>::empty());
        c
    }

    pub fn contains(&self, key: &String) -> (r: bool)
        ensures
            r == self.taken().contains(key@),
    {
        self.keys.contains_key(key)
    }

    pub fn insert(&mut self, key: String)
        ensures
            final(self).taken() == old(self).taken().insert(key@),
    {
        self.keys.set(key, ());
        assert(self.taken() =~= old(self).taken().insert(key@));
    }
}

/// The cache key of `value` in `bucket`.
pub open spec fn bucket_key(bucket: Seq<char>, value: Seq<char>) -> Seq<char> {
    bucket + "::"@ + value
}

pub struct SlugSchema {
    pub bucket: String,
    pub reserved: Vec<String>,
}

impl Default for SlugSchema {
    /// The default schema: bucket `global`, nothing reserved.
    fn default() -> (r: Self)
        ensures
            r.bucket@ == "global"@,
            r.reserved@.len() == 0,
    {
        SlugSchema { bucket: string_of(&chars_of("global")), reserved: Vec::new() }
    }
}

impl SlugSchema {
    pub fn in_bucket(self, bucket: String) -> (r: Self)
        ensures
            r.bucket == bucket,
            r.reserved == self.reserved,
    {
        SlugSchema { bucket, reserved: self.reserved }
    }

    pub fn reserved(self, list: Vec<String>) -> (r: Self)
        ensures
            r.bucket == self.bucket,
            r.reserved == list,
    {
        SlugSchema { bucket: self.bucket, reserved: list }
    }
}

/// Kebab case: lower-case ASCII letters, digits and single dashes, not
/// starting or ending with a dash.
pub open spec fn kebab(s: Seq<char>) -> bool {
    &&& s.len() > 0
    &&& !starts_with(s, "-"@)
    &&& !ends_with(s, "-"@)
    &&& !contains_seq(s, "--"@)
    &&& forall|i: int| 0 <= i < s.len() ==> (is_lower(#[trigger] s[i]) || is_digit(s[i]) || s[i] == '-')
}

/// Why a slug is refused, in the order the checks run; `None` when it is
/// accepted.
pub open spec fn slug_refusal(
    s: &str,
    reserved: Seq<String>,
    bucket: Seq<char>,
    taken: Set<Seq<char>>,
) -> Option<Seq<char>> {
    let n = s.spec_bytes().len() as usize;
    if n < 3 || n > 200 {
        Some("slug length must be 3..=200 (got "@ + decimal(n as nat) + ")"@)
    } else if !kebab(s@) {
        Some("slug must be kebab-case (lowercase letters, digits, single dashes)"@)
    } else if exists|i: int| 0 <= i < reserved.len() && #[trigger] reserved[i]@ == s@ {
        Some("slug '"@ + s@ + "' is reserved"@)
    } else if taken.contains(bucket_key(bucket, s@)) {
        Some("slug '"@ + s@ + "' already used in bucket '"@ + bucket + "'"@)
    } else {
        None
    }
}

fn is_kebab(v: &Vec<char>) -> (r: bool)
    ensures
        r == kebab(v@),
{
    if v.len() == 0 {
        return false;
    }
    if vec_starts_with(v, &chars_of("-")) || vec_ends_with(v, &chars_of("-")) || vec_contains(
        v,
        &chars_of("--"),
    ) {
        return false;
    }
    let mut i: usize = 0;
    while i < v.len()
        invariant
            i <= v.len(),
            forall|j: int| 0 <= j < i ==> (is_lower(#[trigger] v@[j]) || is_digit(v@[j]) || v@[j] == '-'),
        decreases v.len() - i,
    {
        let c = v[i];
        if !(crate::text::ascii_lower(c) || crate::text::ascii_digit(c) || c == '-') {
            return false;
        }
        i += 1;
    }
    true
}

fn is_reserved(reserved: &Vec<String>, s: &String) -> (r: bool)
    ensures
        r == exists|i: int| 0 <= i < reserved@.len() && #[trigger] reserved@[i]@ == s@,
{
    let mut i: usize = 0;
    while i < reserved.len()
        invariant
            i <= reserved.len(),
            forall|j: int| 0 <= j < i ==> #[trigger] reserved@[j]@ != s@,
        decreases reserved.len() - i,
    {
        if reserved[i] == *s {
            return true;
        }
        i += 1;
    }
    false
}

impl SlugSchema {
    /// Validates a slug and claims it in its bucket. `value` is the field
    /// when it is a string (`None` otherwise).
    pub fn parse(&self, value: Option<&str>, cache: &mut UniqueCache) -> (r: Result<
        String,
        ValidationError,
    >)
        ensures
            match value {
                None => r matches Err(e) && e.message@ == "slug must be a string"@ && final(cache).taken()
                    == old(cache).taken(),
                Some(s) => match slug_refusal(s, self.reserved@, self.bucket@, old(cache).taken()) {
                    Some(m) => r matches Err(e) && e.message@ == m && final(cache).taken() == old(
                        cache,
                    ).taken(),
                    None => r matches Ok(x) && x@ == s@ && final(cache).taken() == old(
                        cache,
                    ).taken().insert(bucket_key(self.bucket@, s@)),
                },
            },
    {
        let s = match value {
            Some(s) => s,
            None => return Err(root_error("slug must be a string")),
        };
        let n = s.len();
        if n < 3 || n > 200 {
            let digits = decimal_of(n as u64);
            let msg = join3("slug length must be 3..=200 (got ", string_of(&digits).as_str(), ")");
            return Err(ValidationError::root(msg));
        }
        let v = chars_of(s);
        if !is_kebab(&v) {
            return Err(root_error("slug must be kebab-case (lowercase letters, digits, single dashes)"));
        }
        let owned = string_of(&v);
        if is_reserved(&self.reserved, &owned) {
            return Err(ValidationError::root(join3("slug '", s, "' is reserved")));
        }
        let key = join3(self.bucket.as_str(), "::", s);
        if cache.contains(&key) {
            return Err(
                ValidationError::root(
                    join5("slug '", s, "' already used in bucket '", self.bucket.as_str(), "'"),
                ),
            );
        }
        cache.insert(key);
        Ok(owned)
    }
}

pub struct UniqueSchema {
    pub bucket: String,
}

impl Default for UniqueSchema {
    /// The default schema: bucket `global`.
    fn default() -> (r: Self)
        ensures
            r.bucket@ == "global"@,
    {
        UniqueSchema { bucket: string_of(&chars_of("global")) }
    }
}

impl UniqueSchema {
    pub fn in_bucket(self, bucket: String) -> (r: Self)
        ensures
            r.bucket == bucket,
    {
        UniqueSchema { bucket }
    }

    /// Claims a string value in the bucket; a value already claimed there
    /// is refused.
    pub fn parse(&self, value: Option<&str>, cache: &mut UniqueCache) -> (r: Result<
        String,
        ValidationError,
    >)
        ensures
            match value {
                None => r matches Err(e) && e.message@ == "unique value must be a string"@
                    && final(cache).taken() == old(cache).taken(),
                Some(s) => match unique_refusal(self.bucket@, s@, old(cache).taken()) {
                    Some(m) => r matches Err(e) && e.message@ == m && final(cache).taken() == old(
                        cache,
                    ).taken(),
                    None => r matches Ok(x) && x@ == s@ && final(cache).taken() == old(
                        cache,
                    ).taken().insert(bucket_key(self.bucket@, s@)),
                },
            },
    {
        let s = match value {
            Some(s) => s,
            None => return Err(root_error("unique value must be a string")),
        };
        let key = join3(self.bucket.as_str(), "::", s);
        if cache.contains(&key) {
            return Err(
                ValidationError::root(
                    join5("'", s, "' already used in unique bucket '", self.bucket.as_str(), "'"),
                ),
            );
        }
        cache.insert(key);
        Ok(string_of(&chars_of(s)))
    }
}

/// Why a unique value is refused: it is already claimed in the bucket.
pub open spec fn unique_refusal(bucket: Seq<char>, value: Seq<char>, taken: Set<Seq<char>>) -> Option<Seq<char>> {
    if taken.contains(bucket_key(bucket, value)) {
        Some("'"@ + value + "' already used in unique bucket '"@ + bucket + "'"@)
    } else {
        None
    }
}

/// A unique value is claimed at most once per bucket: once it is accepted
/// in a bucket, the same value in the same bucket is refused.
pub proof fn law_unique_claims_once(bucket: Seq<char>, value: Seq<char>, taken: Set<Seq<char>>)
    requires
        unique_refusal(bucket, value, taken) is None,
    ensures
        unique_refusal(bucket, value, taken.insert(bucket_key(bucket, value))) == Some(
            "'"@ + value + "' already used in unique bucket '"@ + bucket + "'"@,
        ),
{
}

/// A slug is claimed at most once per bucket: once it is accepted, the same
/// slug in the same bucket is refused as already used.
pub proof fn law_slug_claims_once(s: &str, reserved: Seq<String>, bucket: Seq<char>, taken: Set<Seq<char>>)
    requires
        slug_refusal(s, reserved, bucket, taken) is None,
    ensures
        slug_refusal(s, reserved, bucket, taken.insert(bucket_key(bucket, s@))) == Some(
            "slug '"@ + s@ + "' already used in bucket '"@ + bucket + "'"@,
        ),
{
}

/// A claim stays: since parsing only ever adds keys to the cache, once a
/// slug was accepted in a bucket, any later call for it there, whatever
/// calls came between, is refused as already used.
pub proof fn law_slug_claim_stays(
    s: &str,
    reserved: Seq<String>,
    bucket: Seq<char>,
    then: Set<Seq<char>>,
    now: Set<Seq<char>>,
)
    requires
        slug_refusal(s, reserved, bucket, then) is None,
        now.contains(bucket_key(bucket, s@)),
    ensures
        slug_refusal(s, reserved, bucket, now) == Some(
            "slug '"@ + s@ + "' already used in bucket '"@ + bucket + "'"@,
        ),
{
}

/// A unique value's claim stays the same way: once claimed in a bucket, it
/// is refused there whatever calls came between.
pub proof fn law_unique_claim_stays(bucket: Seq<char>, value: Seq<char>, now: Set<Seq<char>>)
    requires
        now.contains(bucket_key(bucket, value)),
    ensures
        unique_refusal(bucket, value, now) == Some(
            "'"@ + value + "' already used in unique bucket '"@ + bucket + "'"@,
        ),
{
}

/// Claims in one bucket leave the other buckets free: a value accepted in
/// `bucket` is still accepted in any other bucket where it was free.
pub proof fn law_buckets_are_separate(
    bucket: Seq<char>,
    other: Seq<char>,
    value: Seq<char>,
    taken: Set<Seq<char>>,
)
    requires
        bucket != other,
        unique_refusal(other, value, taken) is None,
    ensures
        unique_refusal(other, value, taken.insert(bucket_key(bucket, value))) is None,
{
    let a = bucket_key(bucket, value);
    let b = bucket_key(other, value);
    if bucket.len() == other.len() {
        assert(exists|k: int| 0 <= k < bucket.len() && bucket[k] != other[k]) by {
            if !(exists|k: int| 0 <= k < bucket.len() && bucket[k] != other[k]) {
                assert(bucket =~= other);
            }
        }
        let k = choose|k: int| 0 <= k < bucket.len() && bucket[k] != other[k];
        assert(a[k] == bucket[k] && b[k] == other[k]);
    } else {
        assert(a.len() != b.len());
    }
}

// ---------------------------------------------------------------------
// ISO dates
// ---------------------------------------------------------------------

pub struct IsodateSchema;

pub open spec fn digit_byte(b: u8) -> bool {
    48 <= b <= 57
}

/// `YYYY-MM-DD` at the start (more may follow).
pub open spec fn iso_date_prefix(b: Seq<u8>) -> bool {
    &&& b.len() >= 10
    &&& digit_byte(b[0]) && digit_byte(b[1]) && digit_byte(b[2]) && digit_byte(b[3])
    &&& b[4] == 45
    &&& digit_byte(b[5]) && digit_byte(b[6])
    &&& b[7] == 45
    &&& digit_byte(b[8]) && digit_byte(b[9])
}

/// A text with no whitespace in it is one word.
pub proof fn law_word_count_single_word(w: Seq<char>)
    requires
        w.len() > 0,
        forall|i: int| 0 <= i < w.len() ==> !is_white_space(#[trigger] w[i]),
    ensures
        word_count_of(w) == 1,
{
    lemma_word_prefix(w, w.len() as int);
    assert(w.take(w.len() as int) =~= w);
}

proof fn lemma_word_prefix(w: Seq<char>, k: int)
    requires
        1 <= k <= w.len(),
        forall|i: int| 0 <= i < w.len() ==> !is_white_space(#[trigger] w[i]),
    ensures
        word_count_of(w.take(k)) == 1,
    decreases k,
{
    let t = w.take(k);
    assert(t.last() == w[k - 1]);
    assert(!is_white_space(w[k - 1]));
    if k == 1 {
        assert(t.drop_last() =~= Seq::<char>::empty());
        assert(word_count_of(t.drop_last()) == 0);
    } else {
        lemma_word_prefix(w, k - 1);
        assert(t.drop_last() =~= w.take(k - 1));
        assert(t[t.len() - 2] == w[k - 2]);
        assert(!is_white_space(w[k - 2]));
    }
}

/// A text of whitespace only has no words.
pub proof fn law_word_count_blank(s: Seq<char>)
    requires
        forall|i: int| 0 <= i < s.len() ==> is_white_space(#[trigger] s[i]),
    ensures
        word_count_of(s) == 0,
    decreases s.len(),
{
    if s.len() > 0 {
        assert forall|i: int| 0 <= i < s.drop_last().len() implies is_white_space(#[trigger] s.drop_last()[i]) by {
            assert(s.drop_last()[i] == s[i]);
        }
        law_word_count_blank(s.drop_last());
    }
}

/// Words on either side of a whitespace character add up: the count of
/// `a b` (any whitespace between) is the count of `a` plus the count of
/// `b`.
pub proof fn law_word_count_join(a: Seq<char>, c: char, b: Seq<char>)
    ensures
        is_white_space(c) ==> word_count_of(a + seq![c] + b) == word_count_of(a) + word_count_of(b),
    decreases b.len(),
{
    if is_white_space(c) {
        let t = a + seq![c] + b;
        if b.len() == 0 {
            assert(t =~= (a + seq![c]));
            assert((a + seq![c]).drop_last() =~= a);
        } else {
            let b0 = b.drop_last();
            law_word_count_join(a, c, b0);
            assert(t.drop_last() =~= a + seq![c] + b0);
            assert(t.last() == b.last());
            if b0.len() == 0 {
                assert(t[t.len() - 2] == c);
            } else {
                assert(t[t.len() - 2] == b[b.len() - 2]);
            }
        }
    }
}

/// Every `YYYY-MM-DD` start made of ASCII digits `0` to `9` is a date, and
/// nothing else is.
pub proof fn law_iso_date_digits(b: Seq<u8>)
    ensures
        iso_date_prefix(b) <==> (b.len() >= 10 && forall|i: int|
            0 <= i < 10 ==> if i == 4 || i == 7 {
                #[trigger] b[i] as u32 == '-' as u32
            } else {
                '0' as u32 <= b[i] as u32 <= '9' as u32
            }),
{
    if b.len() >= 10 {
        if forall|i: int| 0 <= i < 10 ==> if i == 4 || i == 7 {
            #[trigger] b[i] as u32 == '-' as u32
        } else {
            '0' as u32 <= b[i] as u32 <= '9' as u32
        } {
            assert('0' as u32 <= b[0] as u32 <= '9' as u32);
            assert('0' as u32 <= b[1] as u32 <= '9' as u32);
            assert('0' as u32 <= b[2] as u32 <= '9' as u32);
            assert('0' as u32 <= b[3] as u32 <= '9' as u32);
            assert(b[4] as u32 == '-' as u32);
            assert('0' as u32 <= b[5] as u32 <= '9' as u32);
            assert('0' as u32 <= b[6] as u32 <= '9' as u32);
            assert(b[7] as u32 == '-' as u32);
            assert('0' as u32 <= b[8] as u32 <= '9' as u32);
            assert('0' as u32 <= b[9] as u32 <= '9' as u32);
        }
    }
}

impl IsodateSchema {
    /// Accepts a string that starts with `YYYY-MM-DD`.
    pub fn parse(&self, value: Option<&str>) -> (r: Result<String, ValidationError>)
        ensures
            match value {
                None => r matches Err(e) && e.message@ == "isodate must be a string"@,
                Some(s) => if iso_date_prefix(s.spec_bytes()) {
                    r matches Ok(x) && x@ == s@
                } else {
                    r matches Err(e) && e.message@ == "'"@ + s@ + "' is not a valid ISO date"@
                },
            },
    {
        let s = match value {
            Some(s) => s,
            None => return Err(root_error("isodate must be a string")),
        };
        let b = s.as_bytes();
        let d = |x: u8| -> (r: bool)
            ensures
                r == digit_byte(x),
            { 48 <= x && x <= 57 };
        if b.len() < 10 || !d(b[0]) || !d(b[1]) || !d(b[2]) || !d(b[3]) || b[4] != 45 || !d(b[5])
            || !d(b[6]) || b[7] != 45 || !d(b[8]) || !d(b[9]) {
            return Err(ValidationError::root(join3("'", s, "' is not a valid ISO date")));
        }
        Ok(string_of(&chars_of(s)))
    }
}


// ---------------------------------------------------------------------
// Asset fields
// ---------------------------------------------------------------------

pub struct FileSchema {
    pub allow_non_relative: bool,
}

impl Default for FileSchema {
    fn default() -> (r: Self)
        ensures
            !r.allow_non_relative,
    {
        FileSchema { allow_non_relative: false }
    }
}

impl FileSchema {
    pub fn allow_non_relative(self) -> (r: Self)
        ensures
            r.allow_non_relative,
    {
        FileSchema { allow_non_relative: true }
    }
}

pub struct ImageSchema {
    pub absolute_root: Option<String>,
}

impl Default for ImageSchema {
    fn default() -> (r: Self)
        ensures
            r.absolute_root is None,
    {
        ImageSchema { absolute_root: None }
    }
}

impl ImageSchema {
    pub fn absolute_root(self, p: String) -> (r: Self)
        ensures
            r.absolute_root == Some(p),
    {
        ImageSchema { absolute_root: Some(p) }
    }
}

/// `Path::parent` of `p`, as text (`None` for a root or an empty path).
/// For a plain path it is everything before the last segment (see
/// `parent_text`); for other paths nothing is stated, their components
/// depending on the platform.
#[verifier::external_body]
fn path_parent(p: &str) -> (r: Option<String>)
    ensures
        plain_path(p@) ==> r is Some && r->0@ == parent_text(p@),
{
    std::path::Path::new(p).parent().map(|d| d.to_string_lossy().to_string())
}

/// `Path::join` of `dir` and `rel`, as text. A plain relative `rel` is
/// appended to a plain `dir` with the platform's separator (`/` or `\`)
/// where `dir` does not end with one; for other paths nothing is stated.
#[verifier::external_body]
fn path_join(dir: &str, rel: &str) -> (r: String)
    ensures
        plain_dir(dir@) && plain_rel(rel@) ==> r@ == joined(dir@, rel@, '/') || r@ == joined(dir@, rel@, '\\'),
{
    std::path::Path::new(dir).join(rel).to_string_lossy().to_string()
}

/// How an asset path is read: refused as a URL, refused as absolute,
/// accepted as absolute, or relative to the entry's directory.
pub enum AssetPath {
    Absolute,
    Relative,
}

/// Why an asset path is refused, or how it is read.
pub open spec fn asset_path_kind(raw: Seq<char>, allow_abs: bool) -> Result<AssetPath, Seq<char>> {
    if starts_with(raw, "http://"@) || starts_with(raw, "https://"@) || starts_with(raw, "//"@) {
        Err("'"@ + raw + "' is a URL, not a local file"@)
    } else if starts_with(raw, "/"@) {
        if !allow_abs {
            Err("'"@ + raw + "' is not relative; pass allowNonRelativePath / absoluteRoot to permit"@)
        } else {
            Ok(AssetPath::Absolute)
        }
    } else {
        Ok(AssetPath::Relative)
    }
}

/// Resolves an asset path written in a content entry: URLs are refused;
/// an absolute path is kept when allowed and refused otherwise; a relative
/// path is joined to the entry's directory (or the content root).
pub fn resolve_asset(ctx: &Ctx, raw: &str, allow_abs: bool) -> (r: Result<String, ValidationError>)
    ensures
        match asset_path_kind(raw@, allow_abs) {
            Err(m) => r matches Err(e) && e.message@ == m,
            Ok(AssetPath::Absolute) => r matches Ok(p) && p@ == raw@,
            Ok(AssetPath::Relative) => r is Ok && (plain_path(ctx.file_path@) && plain_rel(raw@) ==> (r->Ok_0@ == joined(parent_text(ctx.file_path@), raw@, '/') || r->Ok_0@ == joined(parent_text(ctx.file_path@), raw@, '\\'))),
        },
{
    let v = chars_of(raw);
    if vec_starts_with(&v, &chars_of("http://")) || vec_starts_with(&v, &chars_of("https://"))
        || vec_starts_with(&v, &chars_of("//")) {
        return Err(ValidationError::root(join3("'", raw, "' is a URL, not a local file")));
    }
    if vec_starts_with(&v, &chars_of("/")) {
        if !allow_abs {
            return Err(
                ValidationError::root(
                    join3(
                        "'",
                        raw,
                        "' is not relative; pass allowNonRelativePath / absoluteRoot to permit",
                    ),
                ),
            );
        }
        return Ok(string_of(&v));
    }
    proof {
        if plain_path(ctx.file_path@) {
            lemma_parent_plain(ctx.file_path@);
        }
    }
    let dir = asset_dir(path_parent(ctx.file_path.as_str()), &ctx.root);
    Ok(path_join(dir.as_str(), raw))
}

/// The directory a relative asset path is read from: the entry's parent
/// directory when its path has one, else the content root.
pub fn asset_dir(parent: Option<String>, root: &String) -> (r: String)
    ensures
        r@ == match parent {
            Some(d) => d@,
            None => root@,
        },
{
    match parent {
        Some(d) => d,
        None => root.clone(),
    }
}

impl FileSchema {
    /// Where the file field's asset is on disk; `value` is the field when
    /// it is a string.
    pub fn locate(&self, value: Option<&str>, ctx: &Ctx) -> (r: Result<String, ValidationError>)
        ensures
            match value {
                None => r matches Err(e) && e.message@ == "file path must be a string"@,
                Some(raw) => match asset_path_kind(raw@, self.allow_non_relative) {
                    Err(m) => r matches Err(e) && e.message@ == m,
                    Ok(AssetPath::Absolute) => r matches Ok(p) && p@ == raw@,
                    Ok(AssetPath::Relative) => r is Ok && (plain_path(ctx.file_path@) && plain_rel(raw@) ==> (r->Ok_0@ == joined(parent_text(ctx.file_path@), raw@, '/') || r->Ok_0@ == joined(parent_text(ctx.file_path@), raw@, '\\'))),
                },
            },
    {
        match value {
            Some(raw) => resolve_asset(ctx, raw, self.allow_non_relative),
            None => Err(root_error("file path must be a string")),
        }
    }
}

impl ImageSchema {
    /// Where the image field's asset is on disk; absolute paths are allowed
    /// when an absolute root is set.
    pub fn locate(&self, value: Option<&str>, ctx: &Ctx) -> (r: Result<String, ValidationError>)
        ensures
            match value {
                None => r matches Err(e) && e.message@ == "image path must be a string"@,
                Some(raw) => match asset_path_kind(raw@, self.absolute_root is Some) {
                    Err(m) => r matches Err(e) && e.message@ == m,
                    Ok(AssetPath::Absolute) => r matches Ok(p) && p@ == raw@,
                    Ok(AssetPath::Relative) => r is Ok && (plain_path(ctx.file_path@) && plain_rel(raw@) ==> (r->Ok_0@ == joined(parent_text(ctx.file_path@), raw@, '/') || r->Ok_0@ == joined(parent_text(ctx.file_path@), raw@, '\\'))),
                },
            },
    {
        match value {
            Some(raw) => resolve_asset(ctx, raw, self.absolute_root.is_some()),
            None => Err(root_error("image path must be a string")),
        }
    }
}

/// Lower-case hexadecimal BLAKE3 digest of the data.
pub uninterp spec fn blake3_hex_of(data: Seq<u8>) -> Seq<char>;

/// `blake3::hash(data).to_hex()`: the result is `blake3_hex_of(data)`, 64
/// characters long (two per digest byte).
#[verifier::external_body]
fn blake3_hex(data: &[u8]) -> (r: String)
    ensures
        r@ == blake3_hex_of(data@),
        r@.len() == 64,
{
    blake3::hash(data).to_hex().to_string()
}

/// The first 8 hexadecimal digits of the content's BLAKE3 digest.
pub fn content_hash8(data: &[u8]) -> (r: String)
    ensures
        r@ == blake3_hex_of(data@).take(8),
{
    let hex = blake3_hex(data);
    hash8_of_hex(hex.as_str())
}

/// The short form of a hexadecimal digest: its first 8 digits.
pub fn hash8_of_hex(hex: &str) -> (r: String)
    requires
        hex@.len() >= 8,
    ensures
        r@ == hex@.take(8),
{
    let v = chars_of(hex);
    crate::text::string_of_range(&v, 0, 8)
}

/// `s` with every occurrence of `from` (non-empty), left to right and
/// non-overlapping, replaced by `to` (`str::replace`).
pub open spec fn replace_from(s: Seq<char>, from: Seq<char>, to: Seq<char>) -> Seq<char>
    decreases s.len(),
{
    if s.len() == 0 {
        s
    } else if from.len() > 0 && starts_with(s, from) {
        to + replace_from(s.skip(from.len() as int), from, to)
    } else {
        seq![s[0]] + replace_from(s.drop_first(), from, to)
    }
}

fn replace_all(s: &Vec<char>, from: &Vec<char>, to: &Vec<char>) -> (r: Vec<char>)
    requires
        from@.len() > 0,
    ensures
        r@ == replace_from(s@, from@, to@),
{
    let mut out: Vec<char> = Vec::new();
    let mut i: usize = 0;
    assert(s@.skip(0) =~= s@);
    assert(out@ + replace_from(s@, from@, to@) =~= replace_from(s@, from@, to@));
    while i < s.len()
        invariant
            i <= s.len(),
            from@.len() > 0,
            out@ + replace_from(s@.skip(i as int), from@, to@) == replace_from(s@, from@, to@),
        decreases s.len() - i,
    {
        let ghost rest = s@.skip(i as int);
        let ghost before = out@;
        proof {
            assert(s@.skip(0) =~= s@);
        }
        if crate::text::vec_occurs_at(s, from, i) {
            push_all(&mut out, to);
            proof {
                assert(rest.take(from@.len() as int) =~= s@.subrange(i as int, i + from@.len()));
                assert(rest.skip(from@.len() as int) =~= s@.skip(i + from@.len()));
                assert(before + replace_from(rest, from@, to@) =~= out@ + replace_from(
                    s@.skip(i + from@.len()),
                    from@,
                    to@,
                ));
            }
            i += from.len();
        } else {
            out.push(s[i]);
            proof {
                if starts_with(rest, from@) {
                    assert(rest.take(from@.len() as int) =~= s@.subrange(i as int, i + from@.len()));
                }
                assert(rest.drop_first() =~= s@.skip(i + 1));
                assert(before + replace_from(rest, from@, to@) =~= out@ + replace_from(
                    s@.skip(i + 1),
                    from@,
                    to@,
                ));
            }
            i += 1;
        }
    }
    assert(s@.skip(i as int) =~= Seq::<char>::empty());
    assert(out@ + Seq::<char>::empty() =~= out@);
    out
}

/// The published file name: `[name]`, `[hash:8]` and `[ext]` in the
/// template replaced, in that order.
pub open spec fn asset_file_name_of(
    template: Seq<char>,
    stem: Seq<char>,
    hash8: Seq<char>,
    ext: Seq<char>,
) -> Seq<char> {
    replace_from(
        replace_from(replace_from(template, "[name]"@, stem), "[hash:8]"@, hash8),
        "[ext]"@,
        ext,
    )
}

pub fn asset_file_name(template: &str, stem: &str, hash8: &str, ext: &str) -> (r: String)
    ensures
        r@ == asset_file_name_of(template@, stem@, hash8@, ext@),
{
    proof {
        reveal_strlit("[name]");
        reveal_strlit("[hash:8]");
        reveal_strlit("[ext]");
    }
    let t = chars_of(template);
    let a = replace_all(&t, &chars_of("[name]"), &chars_of(stem));
    let b = replace_all(&a, &chars_of("[hash:8]"), &chars_of(hash8));
    let c = replace_all(&b, &chars_of("[ext]"), &chars_of(ext));
    string_of(&c)
}

/// The public URL of a published asset: the base URL, a `/` unless it
/// already ends with one, then the file name.
pub open spec fn asset_url_of(base: Seq<char>, file_name: Seq<char>) -> Seq<char> {
    if ends_with(base, "/"@) {
        base + file_name
    } else {
        base + "/"@ + file_name
    }
}

pub fn asset_url(base: &str, file_name: &str) -> (r: String)
    ensures
        r@ == asset_url_of(base@, file_name@),
{
    let b = chars_of(base);
    if vec_ends_with(&b, &chars_of("/")) {
        let mut v = b;
        push_all(&mut v, &chars_of(file_name));
        string_of(&v)
    } else {
        join3(base, "/", file_name)
    }
}

/// `Path::file_stem` of `p` as text, when it has one that is valid UTF-8.
/// For a plain path it is the stem of its last segment (see `stem_of`);
/// for other paths nothing is stated.
#[verifier::external_body]
fn path_file_stem(p: &str) -> (r: Option<String>)
    ensures
        plain_path(p@) ==> r is Some && r->0@ == stem_of(file_name(p@)),
{
    std::path::Path::new(p).file_stem().and_then(|s| s.to_str()).map(|s| s.to_string())
}

/// `Path::extension` of `p` as text, when it has one that is valid UTF-8.
/// For a plain path it is the extension of its last segment (see
/// `ext_of`); for other paths nothing is stated.
#[verifier::external_body]
fn path_extension(p: &str) -> (r: Option<String>)
    ensures
        plain_path(p@) ==> match ext_of(file_name(p@)) {
            Some(e) => r matches Some(x) && x@ == e,
            None => r is None,
        },
{
    std::path::Path::new(p).extension().and_then(|s| s.to_str()).map(|s| s.to_string())
}

/// Where a published asset goes and how it is reached.
pub struct PublishedAsset {
    /// File name inside the assets directory.
    pub file_name: String,
    /// Public URL of the file.
    pub url: String,
}

/// The published name and URL of the asset at `path` with content `data`:
/// the template filled with the file's stem (`asset` when it has none), the
/// first 8 digits of the content hash and the extension (`bin` when it has
/// none), then joined to the base URL.
pub fn plan_asset(path: &str, data: &[u8], name_template: &str, base_url: &str) -> (r: PublishedAsset)
    ensures
        exists|stem: Seq<char>, ext: Seq<char>|
            r.file_name@ == asset_file_name_of(name_template@, stem, blake3_hex_of(data@).take(8), ext),
        plain_path(path@) ==> r.file_name@ == asset_file_name_of(
            name_template@,
            stem_of(file_name(path@)),
            blake3_hex_of(data@).take(8),
            match ext_of(file_name(path@)) {
                Some(e) => e,
                None => "bin"@,
            },
        ),
        r.url@ == asset_url_of(base_url@, r.file_name@),
{
    let stem = match path_file_stem(path) {
        Some(s) => s,
        None => string_of(&chars_of("asset")),
    };
    let ext = match path_extension(path) {
        Some(e) => e,
        None => string_of(&chars_of("bin")),
    };
    let hash8 = content_hash8(data);
    let file_name = asset_file_name(name_template, stem.as_str(), hash8.as_str(), ext.as_str());
    let url = asset_url(base_url, file_name.as_str());
    PublishedAsset { file_name, url }
}

} // verus!
